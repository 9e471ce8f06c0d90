use dbtp::cli::GlobalOpts;
use dbtp::config::{
    config_lines, config_path, get_property, load, mask_token, migrate_config, needs_migration, normalize_host,
    set_property, shown_value, unset_property, Config, ConfigFile, ConfigOverrides, Connection, Defaults,
    EnvSettings,
};
use dbtp::error::DbtpError;
use dbtp::json::Json;

fn obj(pairs: Vec<(&str, Json)>) -> Json {
    Json::Object(pairs.into_iter().map(|(k, v)| (k.to_string(), v)).collect())
}

fn s(t: &str) -> Json {
    Json::String(t.to_string())
}

fn empty_file() -> ConfigFile {
    ConfigFile { connection: Connection::default(), defaults: Defaults::default() }
}

fn no_overrides() -> ConfigOverrides {
    ConfigOverrides {
        host: None,
        token: None,
        service_token: None,
        account_id: None,
        project_id: None,
        environment_id: None,
        output: None,
    }
}

fn no_env() -> EnvSettings {
    EnvSettings {
        host: None,
        token: None,
        service_token: None,
        account_id: None,
        project_id: None,
        environment_id: None,
    }
}

fn config_message(e: DbtpError) -> String {
    match e {
        DbtpError::Config(m) => m,
        other => panic!("expected a configuration error, got {other:?}"),
    }
}

#[test]
fn hosts_are_normalized() {
    assert_eq!(normalize_host("cloud.getdbt.com"), "https://cloud.getdbt.com");
    assert_eq!(normalize_host("  https://emea.dbt.com// "), "https://emea.dbt.com");
    assert_eq!(normalize_host("http://localhost:8000/"), "http://localhost:8000");
}

#[test]
fn defaults_apply_when_nothing_is_set() {
    let c: Config = load(no_overrides(), no_env(), empty_file());
    assert_eq!(c.host, "https://cloud.getdbt.com");
    assert_eq!(c.token, "");
    assert_eq!(c.account_id, None);
    assert_eq!(c.output, "table");
    assert_eq!(c.environment_id, None);
}

#[test]
fn flags_beat_environment_beat_file() {
    let mut file = empty_file();
    file.connection.host = Some("file.example.com".to_string());
    file.connection.token = Some("file-token".to_string());
    file.connection.account_id = Some(1);
    file.defaults.project_id = Some("10".to_string());
    let mut env = no_env();
    env.host = Some("env.example.com".to_string());
    env.account_id = Some("2".to_string());
    env.environment_id = Some("77".to_string());
    let mut flags = no_overrides();
    flags.account_id = Some(3);
    let c = load(flags, env, file);
    assert_eq!(c.host, "https://env.example.com");
    assert_eq!(c.token, "file-token");
    assert_eq!(c.account_id, Some(3));
    assert_eq!(c.project_id.as_deref(), Some("10"));
    assert_eq!(c.environment_id.as_deref(), Some("77"));
    assert_eq!(c.environment_id_u64(), Some(77));
    assert_eq!(c.project_id_u64(), Some(10));
}

#[test]
fn unparseable_environment_account_falls_back_to_file() {
    let mut file = empty_file();
    file.connection.account_id = Some(1);
    let mut env = no_env();
    env.account_id = Some("abc".to_string());
    assert_eq!(load(no_overrides(), env, file).account_id, Some(1));
}

#[test]
fn command_line_options_become_overrides() {
    let g = GlobalOpts {
        output: Some("json".to_string()),
        profile: None,
        host: Some("h".to_string()),
        token: None,
        account_id: Some(5),
        environment_id: Some(42),
        verbose: false,
        query: None,
    };
    let o = g.overrides();
    assert_eq!(o.host.as_deref(), Some("h"));
    assert_eq!(o.account_id, Some(5));
    assert_eq!(o.environment_id.as_deref(), Some("42"));
    assert_eq!(o.output.as_deref(), Some("json"));
    assert!(o.project_id.is_none() && o.service_token.is_none() && o.token.is_none());
}

#[test]
fn set_then_get_gives_the_value_back() {
    let mut f = empty_file();
    set_property(&mut f, "host", "emea.dbt.com/").unwrap();
    assert_eq!(get_property(&f, "host").unwrap().as_deref(), Some("https://emea.dbt.com"));
    set_property(&mut f, "account-id", "51798").unwrap();
    assert_eq!(get_property(&f, "account-id").unwrap().as_deref(), Some("51798"));
    set_property(&mut f, "output", "yaml").unwrap();
    assert_eq!(get_property(&f, "output").unwrap().as_deref(), Some("yaml"));
    set_property(&mut f, "project-id", "analytics").unwrap();
    assert_eq!(get_property(&f, "project-id").unwrap().as_deref(), Some("analytics"));
    assert_eq!(get_property(&f, "token").unwrap(), None);
}

#[test]
fn refused_values_leave_the_file_alone() {
    let mut f = empty_file();
    let e = set_property(&mut f, "account-id", "-3").unwrap_err();
    assert_eq!(config_message(e), "account-id must be a positive integer");
    let e = set_property(&mut f, "output", "xml").unwrap_err();
    assert_eq!(config_message(e), "output must be one of: table, json, yaml, compact");
    let e = set_property(&mut f, "colour", "red").unwrap_err();
    assert_eq!(
        config_message(e),
        "Unknown key \"colour\". Valid keys: host, token, account-id, project-id, output"
    );
    assert_eq!(f.connection.account_id, None);
    assert_eq!(f.defaults.output, "table");
    assert!(get_property(&f, "colour").is_err());
    assert!(unset_property(&mut f, "colour").is_err());
}

#[test]
fn unset_clears_and_output_goes_back_to_table() {
    let mut f = empty_file();
    set_property(&mut f, "token", "dbtc_abcdefgh1234").unwrap();
    set_property(&mut f, "output", "json").unwrap();
    unset_property(&mut f, "token").unwrap();
    unset_property(&mut f, "output").unwrap();
    assert_eq!(get_property(&f, "token").unwrap(), None);
    assert_eq!(get_property(&f, "output").unwrap().as_deref(), Some("table"));
}

#[test]
fn tokens_are_masked() {
    assert_eq!(mask_token("short"), "***");
    assert_eq!(mask_token("12345678"), "***");
    assert_eq!(mask_token("dbtc_abcdefgh1234"), "dbtc...1234");
    assert_eq!(shown_value("token", "dbtc_abcdefgh1234"), "dbtc...1234");
    assert_eq!(shown_value("host", "https://x"), "https://x");
}

#[test]
fn config_list_shows_every_key() {
    let mut f = empty_file();
    set_property(&mut f, "token", "dbtc_abcdefgh1234").unwrap();
    set_property(&mut f, "account-id", "7").unwrap();
    assert_eq!(
        config_lines(&f),
        vec![
            "host = (not set)",
            "token = dbtc...1234",
            "account-id = 7",
            "project-id = (not set)",
            "output = table",
        ]
    );
}

#[test]
fn config_file_lives_in_the_config_directory() {
    assert_eq!(config_path(Some("/home/u/.config/dbtp")).unwrap(), "/home/u/.config/dbtp/config.toml");
    assert_eq!(
        config_message(config_path(None).unwrap_err()),
        "Could not determine config directory"
    );
}

#[test]
fn old_profile_files_are_migrated() {
    let parsed = obj(vec![
        ("defaults", obj(vec![("output", s("json")), ("profile", s("prod"))])),
        (
            "profile",
            obj(vec![
                ("prod", obj(vec![("account_id", Json::from_u64(51798)), ("host", s("https://x")), ("token", s("t"))])),
                ("staging", obj(vec![("host", s("https://y"))])),
            ]),
        ),
    ]);
    assert!(needs_migration(&parsed));
    let f = migrate_config(&parsed, None);
    assert_eq!(f.connection.host.as_deref(), Some("https://x"));
    assert_eq!(f.connection.token.as_deref(), Some("t"));
    assert_eq!(f.connection.account_id, Some(51798));
    assert_eq!(f.defaults.output, "json");
    assert!(!needs_migration(&obj(vec![("connection", obj(vec![]))])));
}

#[test]
fn migration_falls_back_to_the_first_profile() {
    let parsed = obj(vec![(
        "profile",
        obj(vec![("staging", obj(vec![("host", s("https://y")), ("project_id", s("9"))]))]),
    )]);
    let f = migrate_config(&parsed, None);
    assert_eq!(f.connection.host.as_deref(), Some("https://y"));
    assert_eq!(f.defaults.project_id.as_deref(), Some("9"));
    assert_eq!(f.defaults.output, "table");
}

#[test]
fn normalizing_twice_changes_nothing() {
    for h in ["cloud.getdbt.com", " https://x.com/// ", "http://y", "a.b/c/"] {
        let once = normalize_host(h);
        assert_eq!(normalize_host(&once), once);
    }
}

fn readme_profiles() -> Json {
    obj(vec![
        ("defaults", obj(vec![("output", s("table")), ("profile", s("prod"))])),
        (
            "profile",
            obj(vec![
                (
                    "prod",
                    obj(vec![
                        ("account_id", Json::from_u64(51798)),
                        ("host", s("https://cloud.getdbt.com")),
                        ("token", s("dbtc_prod")),
                    ]),
                ),
                (
                    "staging",
                    obj(vec![
                        ("account_id", Json::from_u64(99999)),
                        ("environment_id", Json::from_u64(67890)),
                        ("host", s("https://emea.dbt.com")),
                        ("token", s("dbtc_staging")),
                    ]),
                ),
            ]),
        ),
    ])
}

#[test]
fn the_profile_asked_for_supplies_the_environment() {
    let f = migrate_config(&readme_profiles(), Some("staging"));
    let c = load(no_overrides(), no_env(), f);
    assert_eq!(c.environment_id.as_deref(), Some("67890"));
    assert_eq!(c.account_id, Some(99999));
    assert_eq!(c.host, "https://emea.dbt.com");
    assert_eq!(c.token, "dbtc_staging");
}

#[test]
fn the_default_profile_is_used_when_none_is_asked_for() {
    let f = migrate_config(&readme_profiles(), None);
    let c = load(no_overrides(), no_env(), f);
    assert_eq!(c.account_id, Some(51798));
    assert_eq!(c.environment_id, None);
    assert_eq!(c.token, "dbtc_prod");
}

#[test]
fn flags_and_environment_outrank_the_profile() {
    let mut env = no_env();
    env.environment_id = Some("111".to_string());
    let c = load(no_overrides(), env, migrate_config(&readme_profiles(), Some("staging")));
    assert_eq!(c.environment_id.as_deref(), Some("111"));
    let mut flags = no_overrides();
    flags.environment_id = Some("222".to_string());
    let mut env = no_env();
    env.environment_id = Some("111".to_string());
    let c = load(flags, env, migrate_config(&readme_profiles(), Some("staging")));
    assert_eq!(c.environment_id.as_deref(), Some("222"));
}

#[test]
fn a_text_environment_id_is_kept_as_written() {
    let parsed = obj(vec![(
        "profile",
        obj(vec![("default", obj(vec![("environment_id", s("42")), ("service_token", s("st"))]))]),
    )]);
    let f = migrate_config(&parsed, None);
    assert_eq!(f.defaults.environment_id.as_deref(), Some("42"));
    assert_eq!(f.connection.service_token.as_deref(), Some("st"));
}
