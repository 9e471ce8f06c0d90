//! Settings: the config file, environment variables and command line flags,
//! and how they combine.
use vstd::prelude::*;

use crate::error::{config_error, DbtpError};
use vstd::utf8::{decode_utf8, encode_utf8, is_char_boundary};
use vstd::string::StringSliceAdditionalSpecFns;
use crate::json::{as_str_v, get_v, Json, JsonV, NumV};
use crate::text::{
    is_prefix, is_unicode_whitespace, join2, join3, owned, trim_end_ws, trim_start_ws, parse_u64, spec_decimal, spec_parse_u64, spec_trim, str_eq,
    str_starts_with, trim, trim_end_char, trim_end_matches, u64_to_string,
};

verus! {

// ---------------------------------------------------------------------------
// Types
// ---------------------------------------------------------------------------

/// The settings a command runs with.
#[derive(Debug)]
pub struct Config {
    pub host: String,
    pub token: String,
    /// Service token for the Semantic Layer API. Falls back to `token` if not set.
    pub service_token: Option<String>,
    pub account_id: Option<u64>,
    pub project_id: Option<String>,
    pub environment_id: Option<String>,
    pub output: String,
}

/// The contents of the config file.
#[derive(Debug)]
pub struct ConfigFile {
    pub connection: Connection,
    pub defaults: Defaults,
}

/// How to reach dbt Cloud.
#[derive(Debug)]
pub struct Connection {
    pub host: Option<String>,
    pub token: Option<String>,
    pub service_token: Option<String>,
    pub account_id: Option<u64>,
}

/// Defaults for commands.
#[derive(Debug)]
pub struct Defaults {
    pub project_id: Option<String>,
    pub environment_id: Option<String>,
    pub output: String,
}

/// Settings given on the command line.
#[derive(Debug)]
pub struct ConfigOverrides {
    pub host: Option<String>,
    pub token: Option<String>,
    pub service_token: Option<String>,
    pub account_id: Option<u64>,
    pub project_id: Option<String>,
    pub environment_id: Option<String>,
    pub output: Option<String>,
}

/// Settings found in the environment (`DBTP_HOST`, `DBTP_TOKEN`,
/// `DBTP_SERVICE_TOKEN`, `DBTP_ACCOUNT_ID`, `DBTP_PROJECT_ID`,
/// `DBTP_ENVIRONMENT_ID`), as the texts the variables hold.
#[derive(Debug)]
pub struct EnvSettings {
    pub host: Option<String>,
    pub token: Option<String>,
    pub service_token: Option<String>,
    pub account_id: Option<String>,
    pub project_id: Option<String>,
    pub environment_id: Option<String>,
}

// ---------------------------------------------------------------------------
// Models
// ---------------------------------------------------------------------------

/// The model of an optional text.
pub open spec fn opt_v(o: Option<String>) -> Option<Seq<char>> {
    match o {
        Some(s) => Some(s@),
        None => None,
    }
}

/// The first of two optional values that is present.
pub open spec fn first_of<T>(a: Option<T>, b: Option<T>) -> Option<T> {
    match a {
        Some(x) => Some(x),
        None => b,
    }
}

/// The model of the config file's contents.
pub struct FileV {
    pub host: Option<Seq<char>>,
    pub token: Option<Seq<char>>,
    pub service_token: Option<Seq<char>>,
    pub account_id: Option<u64>,
    pub project_id: Option<Seq<char>>,
    pub environment_id: Option<Seq<char>>,
    pub output: Seq<char>,
}

impl View for ConfigFile {
    type V = FileV;

    open spec fn view(&self) -> FileV {
        FileV {
            host: opt_v(self.connection.host),
            token: opt_v(self.connection.token),
            service_token: opt_v(self.connection.service_token),
            account_id: self.connection.account_id,
            project_id: opt_v(self.defaults.project_id),
            environment_id: opt_v(self.defaults.environment_id),
            output: self.defaults.output@,
        }
    }
}

/// What `normalize_host` makes of a host: trimmed, without trailing
/// slashes, and with `https://` in front unless it names a scheme.
pub open spec fn normalize_host_v(host: Seq<char>) -> Seq<char> {
    let h = trim_end_char(spec_trim(host), '/');
    if is_prefix("https://"@, h) || is_prefix("http://"@, h) {
        h
    } else {
        "https://"@ + h
    }
}

/// The keys that the config commands accept.
pub open spec fn is_key(key: Seq<char>) -> bool {
    key == "host"@ || key == "token"@ || key == "account-id"@ || key == "project-id"@ || key == "output"@
}

/// The output formats that can be stored as a default.
pub open spec fn is_output_name(v: Seq<char>) -> bool {
    v == "table"@ || v == "json"@ || v == "yaml"@ || v == "compact"@
}

/// `config set`: the new contents, or `None` where the key or value is refused.
pub open spec fn set_v(f: FileV, key: Seq<char>, value: Seq<char>) -> Option<FileV> {
    if key == "host"@ {
        Some(FileV { host: Some(normalize_host_v(value)), ..f })
    } else if key == "token"@ {
        Some(FileV { token: Some(value), ..f })
    } else if key == "account-id"@ {
        match spec_parse_u64(value) {
            Some(id) => Some(FileV { account_id: Some(id), ..f }),
            None => None,
        }
    } else if key == "project-id"@ {
        Some(FileV { project_id: Some(value), ..f })
    } else if key == "output"@ {
        if is_output_name(value) {
            Some(FileV { output: value, ..f })
        } else {
            None
        }
    } else {
        None
    }
}

/// `config unset`: the new contents, or `None` for an unknown key.
pub open spec fn unset_v(f: FileV, key: Seq<char>) -> Option<FileV> {
    if key == "host"@ {
        Some(FileV { host: None, ..f })
    } else if key == "token"@ {
        Some(FileV { token: None, ..f })
    } else if key == "account-id"@ {
        Some(FileV { account_id: None, ..f })
    } else if key == "project-id"@ {
        Some(FileV { project_id: None, ..f })
    } else if key == "output"@ {
        Some(FileV { output: "table"@, ..f })
    } else {
        None
    }
}

/// `config get`: the value under a key, or `None` for an unknown key.
pub open spec fn get_cfg(f: FileV, key: Seq<char>) -> Option<Option<Seq<char>>> {
    if key == "host"@ {
        Some(f.host)
    } else if key == "token"@ {
        Some(f.token)
    } else if key == "account-id"@ {
        Some(match f.account_id {
            Some(id) => Some(spec_decimal(id as nat)),
            None => None,
        })
    } else if key == "project-id"@ {
        Some(f.project_id)
    } else if key == "output"@ {
        Some(Some(f.output))
    } else {
        None
    }
}

/// The message for an unknown key.
pub open spec fn unknown_key_msg(key: Seq<char>) -> Seq<char> {
    "Unknown key \""@ + key + "\". Valid keys: host, token, account-id, project-id, output"@
}

/// The message for a refused `config set`.
pub open spec fn set_error_msg(key: Seq<char>) -> Seq<char> {
    if key == "account-id"@ {
        "account-id must be a positive integer"@
    } else if key == "output"@ {
        "output must be one of: table, json, yaml, compact"@
    } else {
        unknown_key_msg(key)
    }
}

// ---------------------------------------------------------------------------
// Defaults
// ---------------------------------------------------------------------------

/// The output format used when none is configured.
pub fn default_output() -> (r: String)
    ensures
        r@ == "table"@,
{
    owned("table")
}

impl Default for Defaults {
    fn default() -> (r: Self)
        ensures
            r.project_id is None,
            r.environment_id is None,
            r.output@ == "table"@,
    {
        Defaults { project_id: None, environment_id: None, output: default_output() }
    }
}

impl Default for Connection {
    fn default() -> (r: Self)
        ensures
            r.host is None,
            r.token is None,
            r.service_token is None,
            r.account_id is None,
    {
        Connection { host: None, token: None, service_token: None, account_id: None }
    }
}

impl Default for ConfigFile {
    fn default() -> (r: Self)
        ensures
            r@ == (FileV { host: None, token: None, service_token: None, account_id: None, project_id: None, environment_id: None, output: "table"@ }),
    {
        ConfigFile {
            connection: Connection { host: None, token: None, service_token: None, account_id: None },
            defaults: Defaults { project_id: None, environment_id: None, output: default_output() },
        }
    }
}

// ---------------------------------------------------------------------------
// Reading settings
// ---------------------------------------------------------------------------

fn copy_opt(o: &Option<String>) -> (r: Option<String>)
    ensures
        opt_v(r) == opt_v(*o),
{
    match o {
        Some(s) => Some(s.clone()),
        None => None,
    }
}

impl Config {
    /// The project id, when it is a number.
    pub fn project_id_u64(&self) -> (r: Option<u64>)
        ensures
            r == (match self.project_id {
                Some(s) => spec_parse_u64(s@),
                None => None,
            }),
    {
        match &self.project_id {
            Some(s) => parse_u64(s.as_str()),
            None => None,
        }
    }

    /// The environment id, when it is a number.
    pub fn environment_id_u64(&self) -> (r: Option<u64>)
        ensures
            r == (match self.environment_id {
                Some(s) => spec_parse_u64(s@),
                None => None,
            }),
    {
        match &self.environment_id {
            Some(s) => parse_u64(s.as_str()),
            None => None,
        }
    }
}

/// Trims a host, drops trailing slashes and puts `https://` in front of a
/// host that names no scheme.
pub fn normalize_host(host: &str) -> (r: String)
    ensures
        r@ == normalize_host_v(host@),
{
    let t = trim(host);
    let h = trim_end_matches(t.as_str(), '/');
    if str_starts_with(h.as_str(), "https://") || str_starts_with(h.as_str(), "http://") {
        h
    } else {
        join2("https://", h.as_str())
    }
}

/// The settings a command runs with. Each setting is taken from the
/// command line, else from the environment, else from the config file,
/// else from its default (no environment id and no project id by default);
/// the output format is not read from the environment.
pub fn load(overrides: ConfigOverrides, env: EnvSettings, file: ConfigFile) -> (r: Config)
    ensures
        r.host@ == normalize_host_v(
            match first_of(opt_v(overrides.host), first_of(opt_v(env.host), opt_v(file.connection.host))) {
                Some(h) => h,
                None => "https://cloud.getdbt.com"@,
            }),
        r.token@ == (match first_of(opt_v(overrides.token), first_of(opt_v(env.token), opt_v(file.connection.token))) {
                Some(t) => t,
                None => Seq::empty(),
            }),
        opt_v(r.service_token) == first_of(opt_v(overrides.service_token), first_of(opt_v(env.service_token), opt_v(file.connection.service_token))),
        r.account_id == first_of(overrides.account_id, first_of(
            match env.account_id { Some(s) => spec_parse_u64(s@), None => None },
            file.connection.account_id)),
        opt_v(r.project_id) == first_of(opt_v(overrides.project_id), first_of(opt_v(env.project_id), opt_v(file.defaults.project_id))),
        opt_v(r.environment_id) == first_of(opt_v(overrides.environment_id), first_of(opt_v(env.environment_id), opt_v(file.defaults.environment_id))),
        r.output@ == (match overrides.output { Some(o) => o@, None => file.defaults.output@ }),
{
    let host_raw: String = match overrides.host {
        Some(h) => h,
        None => match env.host {
            Some(h) => h,
            None => match file.connection.host {
                Some(h) => h,
                None => owned("https://cloud.getdbt.com"),
            },
        },
    };
    let host = normalize_host(host_raw.as_str());
    let token: String = match overrides.token {
        Some(t) => t,
        None => match env.token {
            Some(t) => t,
            None => match file.connection.token {
                Some(t) => t,
                None => String::new(),
            },
        },
    };
    let service_token: Option<String> = match overrides.service_token {
        Some(t) => Some(t),
        None => match env.service_token {
            Some(t) => Some(t),
            None => file.connection.service_token,
        },
    };
    let account_id: Option<u64> = match overrides.account_id {
        Some(a) => Some(a),
        None => {
            let from_env = match &env.account_id {
                Some(s) => parse_u64(s.as_str()),
                None => None,
            };
            match from_env {
                Some(a) => Some(a),
                None => file.connection.account_id,
            }
        },
    };
    let project_id: Option<String> = match overrides.project_id {
        Some(p) => Some(p),
        None => match env.project_id {
            Some(p) => Some(p),
            None => file.defaults.project_id,
        },
    };
    let environment_id: Option<String> = match overrides.environment_id {
        Some(e) => Some(e),
        None => match env.environment_id {
            Some(e) => Some(e),
            None => file.defaults.environment_id,
        },
    };
    let output: String = match overrides.output {
        Some(o) => o,
        None => file.defaults.output,
    };
    Config { host, token, service_token, account_id, project_id, environment_id, output }
}

// ---------------------------------------------------------------------------
// The config commands
// ---------------------------------------------------------------------------

fn unknown_key(key: &str) -> (r: DbtpError)
    ensures
        r matches DbtpError::Config(m) && m@ == unknown_key_msg(key@),
{
    let m = join3("Unknown key \"", key, "\". Valid keys: host, token, account-id, project-id, output");
    DbtpError::Config(m)
}

/// `config set`: stores a value under a key. Hosts are normalized; the
/// account id must be a number and the output one of the known formats.
/// When the key or value is refused, the contents stay as they were.
pub fn set_property(file: &mut ConfigFile, key: &str, value: &str) -> (r: Result<(), DbtpError>)
    ensures
        r is Ok <==> set_v(old(file)@, key@, value@) is Some,
        r is Ok ==> final(file)@ == set_v(old(file)@, key@, value@)->0,
        r matches Err(e) ==> final(file)@ == old(file)@ && config_error(e, set_error_msg(key@)),
{
    if str_eq(key, "host") {
        file.connection.host = Some(normalize_host(value));
        Ok(())
    } else if str_eq(key, "token") {
        file.connection.token = Some(owned(value));
        Ok(())
    } else if str_eq(key, "account-id") {
        match parse_u64(value) {
            Some(id) => {
                file.connection.account_id = Some(id);
                Ok(())
            },
            None => Err(DbtpError::config("account-id must be a positive integer")),
        }
    } else if str_eq(key, "project-id") {
        file.defaults.project_id = Some(owned(value));
        Ok(())
    } else if str_eq(key, "output") {
        if str_eq(value, "table") || str_eq(value, "json") || str_eq(value, "yaml") || str_eq(value, "compact") {
            file.defaults.output = owned(value);
            Ok(())
        } else {
            Err(DbtpError::config("output must be one of: table, json, yaml, compact"))
        }
    } else {
        Err(unknown_key(key))
    }
}

/// `config unset`: clears a key; the output format goes back to `table`.
pub fn unset_property(file: &mut ConfigFile, key: &str) -> (r: Result<(), DbtpError>)
    ensures
        r is Ok <==> is_key(key@),
        r is Ok ==> final(file)@ == unset_v(old(file)@, key@)->0,
        r matches Err(e) ==> final(file)@ == old(file)@ && config_error(e, unknown_key_msg(key@)),
{
    if str_eq(key, "host") {
        file.connection.host = None;
        Ok(())
    } else if str_eq(key, "token") {
        file.connection.token = None;
        Ok(())
    } else if str_eq(key, "account-id") {
        file.connection.account_id = None;
        Ok(())
    } else if str_eq(key, "project-id") {
        file.defaults.project_id = None;
        Ok(())
    } else if str_eq(key, "output") {
        file.defaults.output = default_output();
        Ok(())
    } else {
        Err(unknown_key(key))
    }
}

/// `config get`: the value stored under a key, if any.
pub fn get_property(file: &ConfigFile, key: &str) -> (r: Result<Option<String>, DbtpError>)
    ensures
        r is Ok <==> is_key(key@),
        r matches Ok(v) ==> Some(opt_v(v)) == get_cfg(file@, key@),
        r matches Err(e) ==> config_error(e, unknown_key_msg(key@)),
{
    if str_eq(key, "host") {
        Ok(copy_opt(&file.connection.host))
    } else if str_eq(key, "token") {
        Ok(copy_opt(&file.connection.token))
    } else if str_eq(key, "account-id") {
        match file.connection.account_id {
            Some(id) => Ok(Some(u64_to_string(id))),
            None => Ok(None),
        }
    } else if str_eq(key, "project-id") {
        Ok(copy_opt(&file.defaults.project_id))
    } else if str_eq(key, "output") {
        Ok(Some(file.defaults.output.clone()))
    } else {
        Err(unknown_key(key))
    }
}

/// The path of the config file inside the config directory, if one could
/// be determined.
pub fn config_path(config_dir: Option<&str>) -> (r: Result<String, DbtpError>)
    ensures
        r matches Ok(p) ==> config_dir is Some && p@ == join_path_v(config_dir->0@, "config.toml"@),
        r matches Err(e) ==> config_dir is None && config_error(e, "Could not determine config directory"@),
{
    match config_dir {
        Some(d) => Ok(join_path(d, "config.toml")),
        None => Err(DbtpError::config("Could not determine config directory")),
    }
}

/// `Path::join` of a relative name onto a directory: the name alone for an
/// empty directory, else with one `/` between them.
pub open spec fn join_path_v(dir: Seq<char>, name: Seq<char>) -> Seq<char> {
    if dir.len() == 0 {
        name
    } else if dir.last() == '/' {
        dir + name
    } else {
        dir + "/"@ + name
    }
}

/// Joins a relative name onto a directory.
pub fn join_path(dir: &str, name: &str) -> (r: String)
    ensures
        r@ == join_path_v(dir@, name@),
{
    let d = crate::text::chars_of(dir);
    if d.len() == 0 {
        owned(name)
    } else if d[d.len() - 1] == '/' {
        join2(dir, name)
    } else {
        join3(dir, "/", name)
    }
}

// ---------------------------------------------------------------------------
// Laws
// ---------------------------------------------------------------------------

proof fn reveal_key_texts()
    ensures
        "host"@ != "token"@,
        "host"@ != "account-id"@,
        "host"@ != "project-id"@,
        "host"@ != "output"@,
        "token"@ != "account-id"@,
        "token"@ != "project-id"@,
        "token"@ != "output"@,
        "account-id"@ != "project-id"@,
        "account-id"@ != "output"@,
        "project-id"@ != "output"@,
{
    reveal_strlit("host");
    reveal_strlit("token");
    reveal_strlit("account-id");
    reveal_strlit("project-id");
    reveal_strlit("output");
    assert("host"@[0] == 'h' && "token"@[0] == 't' && "account-id"@[0] == 'a' && "project-id"@[0] == 'p' && "output"@[0] == 'o');
}

/// What `config get` shows for a key after `config set` stored a value.
pub open spec fn stored_v(key: Seq<char>, value: Seq<char>) -> Seq<char> {
    if key == "host"@ {
        normalize_host_v(value)
    } else if key == "account-id"@ {
        spec_decimal(spec_parse_u64(value)->0 as nat)
    } else {
        value
    }
}

/// Reading a key after setting it gives the value that was set (the host
/// normalized, the account id in its decimal form).
pub proof fn law_get_after_set(f: FileV, key: Seq<char>, value: Seq<char>)
    requires
        set_v(f, key, value) is Some,
    ensures
        get_cfg(set_v(f, key, value)->0, key) == Some(Some(stored_v(key, value))),
{
    reveal_key_texts();
}

/// Setting a key leaves every other key as it was.
pub proof fn law_set_keeps_others(f: FileV, key: Seq<char>, value: Seq<char>, other: Seq<char>)
    requires
        set_v(f, key, value) is Some,
        other != key,
    ensures
        get_cfg(set_v(f, key, value)->0, other) == get_cfg(f, other),
{
}

/// After clearing a key it reads as not set; the output format reads as
/// `table`.
pub proof fn law_get_after_unset(f: FileV, key: Seq<char>)
    requires
        is_key(key),
    ensures
        get_cfg(unset_v(f, key)->0, key) == Some(if key == "output"@ { Some("table"@) } else { None::<Seq<char>> }),
{
    reveal_key_texts();
}

/// A key is accepted by `get` exactly when it is accepted by `unset`.
pub proof fn law_known_keys(f: FileV, key: Seq<char>)
    ensures
        (get_cfg(f, key) is Some) == is_key(key),
        (unset_v(f, key) is Some) == is_key(key),
{
}

proof fn lemma_trim_end_char_last(s: Seq<char>, c: char)
    ensures
        trim_end_char(s, c).len() == 0 || trim_end_char(s, c).last() != c,
    decreases s.len(),
{
    if s.len() > 0 && s.last() == c {
        lemma_trim_end_char_last(s.drop_last(), c);
    }
}

/// A normalized host always names a scheme.
pub proof fn law_host_has_scheme(host: Seq<char>)
    ensures
        is_prefix("https://"@, normalize_host_v(host)) || is_prefix("http://"@, normalize_host_v(host)),
{
    let h = trim_end_char(spec_trim(host), '/');
    if !(is_prefix("https://"@, h) || is_prefix("http://"@, h)) {
        assert(("https://"@ + h).subrange(0, "https://"@.len() as int) =~= "https://"@);
    }
}

/// Normalizing a normalized host changes nothing, provided the host has
/// some text before its trailing slashes and that text does not end in
/// whitespace.
pub proof fn law_normalize_host_idempotent(host: Seq<char>)
    requires
        trim_end_char(spec_trim(host), '/').len() > 0,
        !is_unicode_whitespace(trim_end_char(spec_trim(host), '/').last()),
    ensures
        normalize_host_v(normalize_host_v(host)) == normalize_host_v(host),
{
    let h = trim_end_char(spec_trim(host), '/');
    let r = normalize_host_v(host);
    reveal_strlit("https://");
    reveal_strlit("http://");
    lemma_trim_end_char_last(spec_trim(host), '/');
    if is_prefix("https://"@, h) || is_prefix("http://"@, h) {
        assert(r == h);
        if is_prefix("https://"@, h) {
            assert(h[0] == "https://"@[0]);
        } else {
            assert(h[0] == "http://"@[0]);
        }
    } else {
        assert(r == "https://"@ + h);
        assert(r[0] == 'h');
        assert(r.last() == h.last());
        assert(r.subrange(0, "https://"@.len() as int) =~= "https://"@);
    }
    assert(r[0] == 'h');
    assert(r.last() == h.last());
    assert(trim_start_ws(r) == r);
    assert(trim_end_ws(r) == r);
    assert(spec_trim(r) == r);
    assert(trim_end_char(r, '/') == r);
    law_host_has_scheme(host);
}

// ---------------------------------------------------------------------------
// Migrating the profile-based format
// ---------------------------------------------------------------------------

/// `get(key).and_then(as_str)` on a document.
pub open spec fn str_under(v: JsonV, key: Seq<char>) -> Option<Seq<char>> {
    match get_v(v, key) {
        Some(x) => as_str_v(x),
        None => None,
    }
}

/// A TOML integer, as the documents read from TOML hold it.
pub open spec fn as_integer_v(v: JsonV) -> Option<i64> {
    match v {
        JsonV::Number(NumV::PosInt(u)) => if u <= i64::MAX { Some(u as i64) } else { None },
        JsonV::Number(NumV::NegInt(i)) => Some(i),
        _ => None,
    }
}

/// `i as u64`: a negative value wraps around.
pub open spec fn wrap_u64(i: i64) -> u64 {
    if i >= 0 {
        i as u64
    } else {
        (i + 0x1_0000_0000_0000_0000int) as u64
    }
}

/// The file is in the old format that keeps named profiles.
pub open spec fn has_profiles(parsed: JsonV) -> bool {
    get_v(parsed, "profile"@) is Some
}

/// The profile in use: the one asked for, else the one the file names as
/// its default, else `default`.
pub open spec fn profile_name_v(parsed: JsonV, profile: Option<Seq<char>>) -> Seq<char> {
    match profile {
        Some(n) => n,
        None => default_profile_v(parsed),
    }
}

/// The profile the file names as its default, or `default`.
pub open spec fn default_profile_v(parsed: JsonV) -> Seq<char> {
    match get_v(parsed, "defaults"@) {
        Some(d) => match str_under(d, "profile"@) {
            Some(n) => n,
            None => "default"@,
        },
        None => "default"@,
    }
}

/// The profile whose settings are used: the one in use, else the first one.
pub open spec fn chosen_profile_v(parsed: JsonV, profile: Option<Seq<char>>) -> Option<JsonV> {
    match get_v(parsed, "profile"@) {
        None => None,
        Some(t) => match get_v(t, profile_name_v(parsed, profile)) {
            Some(p) => Some(p),
            None => match t {
                JsonV::Object(es) => if es.len() > 0 { Some(es[0].1) } else { None },
                _ => None,
            },
        },
    }
}

/// An id as a profile holds it: a text, or a non-negative integer in its
/// decimal form.
pub open spec fn id_text_v(v: JsonV) -> Option<Seq<char>> {
    match v {
        JsonV::Str(s) => Some(s),
        JsonV::Number(NumV::PosInt(u)) => Some(spec_decimal(u as nat)),
        _ => None,
    }
}

/// The id a profile holds under `key`.
pub open spec fn id_under(p: JsonV, key: Seq<char>) -> Option<Seq<char>> {
    match get_v(p, key) {
        Some(x) => id_text_v(x),
        None => None,
    }
}

/// The settings a profile-based file stands for: those of the profile in
/// use (or of the first one), with the output default of the file.
pub open spec fn migrated_v(parsed: JsonV, profile: Option<Seq<char>>) -> FileV {
    let p = chosen_profile_v(parsed, profile);
    FileV {
        host: match p { Some(p) => str_under(p, "host"@), None => None },
        token: match p { Some(p) => str_under(p, "token"@), None => None },
        service_token: match p { Some(p) => str_under(p, "service_token"@), None => None },
        account_id: match p {
            Some(p) => match get_v(p, "account_id"@) {
                Some(a) => match as_integer_v(a) {
                    Some(i) => Some(wrap_u64(i)),
                    None => None,
                },
                None => None,
            },
            None => None,
        },
        project_id: match p { Some(p) => str_under(p, "project_id"@), None => None },
        environment_id: match p { Some(p) => id_under(p, "environment_id"@), None => None },
        output: match get_v(parsed, "defaults"@) {
            Some(d) => match str_under(d, "output"@) {
                Some(o) => o,
                None => "table"@,
            },
            None => "table"@,
        },
    }
}

/// Whether a parsed config file is in the old profile-based format.
pub fn needs_migration(parsed: &Json) -> (r: bool)
    ensures
        r == has_profiles(parsed@),
{
    parsed.get("profile").is_some()
}

fn text_under(v: &Json, key: &str) -> (r: Option<String>)
    ensures
        opt_v(r) == str_under(v@, key@),
{
    match v.get(key) {
        Some(x) => match x.as_str() {
            Some(s) => Some(owned(s)),
            None => None,
        },
        None => None,
    }
}

fn integer_as_u64(v: &Json) -> (r: Option<u64>)
    ensures
        r == (match as_integer_v(v@) {
            Some(i) => Some(wrap_u64(i)),
            None => None,
        }),
{
    match v {
        Json::Number(crate::json::JsonNumber::PosInt(u)) => {
            if *u <= 9223372036854775807u64 {
                Some(*u)
            } else {
                None
            }
        },
        Json::Number(crate::json::JsonNumber::NegInt(i)) => {
            if *i >= 0 {
                Some(*i as u64)
            } else {
                let w: i128 = (*i as i128) + 18446744073709551616i128;
                Some(w as u64)
            }
        },
        _ => None,
    }
}

fn id_text_under(v: &Json, key: &str) -> (r: Option<String>)
    ensures
        opt_v(r) == id_under(v@, key@),
{
    match v.get(key) {
        Some(Json::String(s)) => Some(s.clone()),
        Some(Json::Number(crate::json::JsonNumber::PosInt(u))) => Some(u64_to_string(*u)),
        _ => None,
    }
}

fn chosen_profile<'a>(parsed: &'a Json, profile: Option<&str>) -> (r: Option<&'a Json>)
    ensures
        r matches Some(p) ==> chosen_profile_v(parsed@, match profile { Some(n) => Some(n@), None => None }) == Some(p@),
        r is None ==> chosen_profile_v(parsed@, match profile { Some(n) => Some(n@), None => None }) is None,
{
    let name: String = match profile {
        Some(n) => owned(n),
        None => match parsed.get("defaults") {
            Some(d) => match text_under(d, "profile") {
                Some(n) => n,
                None => owned("default"),
            },
            None => owned("default"),
        },
    };
    match parsed.get("profile") {
        None => None,
        Some(t) => match t.get(name.as_str()) {
            Some(p) => Some(p),
            None => match t {
                Json::Object(es) => {
                    proof { crate::json::lemma_object_view(*es); }
                    if es.len() > 0 {
                        Some(&es[0].1)
                    } else {
                        None
                    }
                },
                _ => None,
            },
        },
    }
}

/// The settings of a profile-based file: those of the profile asked for,
/// else of the one the file names as its default, else of `default`, else
/// of the first profile; the file's output default is kept.
pub fn migrate_config(parsed: &Json, profile: Option<&str>) -> (r: ConfigFile)
    ensures
        r@ == migrated_v(parsed@, match profile { Some(n) => Some(n@), None => None }),
{
    let p = chosen_profile(parsed, profile);
    let (host, token, service_token, account_id, project_id, environment_id) = match p {
        Some(p) => (
            text_under(p, "host"),
            text_under(p, "token"),
            text_under(p, "service_token"),
            match p.get("account_id") {
                Some(a) => integer_as_u64(a),
                None => None,
            },
            text_under(p, "project_id"),
            id_text_under(p, "environment_id"),
        ),
        None => (None, None, None, None, None, None),
    };
    let output = match parsed.get("defaults") {
        Some(d) => match text_under(d, "output") {
            Some(o) => o,
            None => owned("table"),
        },
        None => owned("table"),
    };
    ConfigFile {
        connection: Connection { host, token, service_token, account_id },
        defaults: Defaults { project_id, environment_id, output },
    }
}

// ---------------------------------------------------------------------------
// Showing settings
// ---------------------------------------------------------------------------

/// A token can be masked when it is short, or when its first four and last
/// four bytes end and start on character boundaries.
pub open spec fn maskable_v(t: Seq<char>) -> bool {
    let b = encode_utf8(t);
    b.len() > 8 ==> is_char_boundary(b, 4) && is_char_boundary(b, b.len() - 4)
}

/// A token as it is shown: `***` when it has at most eight bytes, else its
/// first four bytes, `...` and its last four bytes.
pub open spec fn mask_v(t: Seq<char>) -> Seq<char> {
    let b = encode_utf8(t);
    if b.len() <= 8 {
        "***"@
    } else {
        decode_utf8(b.subrange(0, 4)) + "..."@ + decode_utf8(b.subrange(b.len() - 4, b.len() as int))
    }
}

/// Masks a token for display.
pub fn mask_token(token: &str) -> (r: String)
    requires
        maskable_v(token@),
    ensures
        r@ == mask_v(token@),
{
    let bytes = token.as_bytes();
    let n = bytes.len();
    assert(token.spec_bytes() == encode_utf8(token@));
    if n <= 8 {
        return owned("***");
    }
    let (head, _) = token.split_at(4);
    let (_, tail) = token.split_at(n - 4);
    proof {
        vstd::utf8::encode_utf8_decode_utf8(head@);
        vstd::utf8::encode_utf8_decode_utf8(tail@);
    }
    join3(head, "...", tail)
}

/// The keys that `config list` shows, in order.
pub open spec fn config_keys() -> Seq<Seq<char>> {
    seq!["host"@, "token"@, "account-id"@, "project-id"@, "output"@]
}

/// A stored value as it is shown: tokens are masked.
pub open spec fn shown_v(key: Seq<char>, value: Seq<char>) -> Seq<char> {
    if key == "token"@ {
        mask_v(value)
    } else {
        value
    }
}

/// The line `config list` prints for a key.
pub open spec fn list_line_v(key: Seq<char>, value: Option<Seq<char>>) -> Seq<char> {
    match value {
        Some(v) => key + " = "@ + shown_v(key, v),
        None => key + " = (not set)"@,
    }
}

/// The stored token can be shown.
pub open spec fn token_maskable(f: FileV) -> bool {
    f.token matches Some(t) ==> maskable_v(t)
}

/// A stored value as it is shown.
pub fn shown_value(key: &str, value: &str) -> (r: String)
    requires
        key@ == "token"@ ==> maskable_v(value@),
    ensures
        r@ == shown_v(key@, value@),
{
    if str_eq(key, "token") {
        mask_token(value)
    } else {
        owned(value)
    }
}

fn list_line(file: &ConfigFile, key: &str) -> (r: String)
    requires
        is_key(key@),
        token_maskable(file@),
    ensures
        r@ == list_line_v(key@, get_cfg(file@, key@)->0),
{
    match get_property(file, key) {
        Ok(Some(v)) => {
            proof {
                reveal_strlit("host");
                reveal_strlit("token");
                assert("host"@.len() != "token"@.len());
            }
            assert(key@ == "token"@ ==> file@.token == Some(v@));
            let shown = shown_value(key, v.as_str());
            join3(key, " = ", shown.as_str())
        },
        _ => join2(key, " = (not set)"),
    }
}

/// `config list`: a line for each key, in order.
pub fn config_lines(file: &ConfigFile) -> (r: Vec<String>)
    requires
        token_maskable(file@),
    ensures
        r@.len() == config_keys().len(),
        forall|i: int| 0 <= i < r@.len() ==> (#[trigger] r@[i])@ == list_line_v(config_keys()[i], get_cfg(file@, config_keys()[i])->0),
{
    let mut r: Vec<String> = Vec::new();
    r.push(list_line(file, "host"));
    r.push(list_line(file, "token"));
    r.push(list_line(file, "account-id"));
    r.push(list_line(file, "project-id"));
    r.push(list_line(file, "output"));
    r
}

} // verus!
