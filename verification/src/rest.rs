//! The REST side of dbt Cloud: addresses, credentials, answers and paging.
use vstd::prelude::*;

use crate::config::opt_v;
use crate::error::{api_error, config_error, DbtpError};
use crate::json::{
    as_str_v, as_u64_v, at, at_v, clone_json, get_v, group_json_view, lemma_array_view,
    str_at, u64_at, vview, Json, JsonV,
};
use crate::text::{
    join2, join3, owned, parse_u64, spec_decimal, spec_parse_u64, spec_to_lowercase, str_eq,
    texts_v, to_lowercase, trim_end_char, trim_end_matches, u64_to_string,
};

verus! {

broadcast use group_json_view;

/// The two versions of the Admin API.
#[derive(Debug, Clone, Copy, PartialEq, Eq)]
pub enum ApiVersion {
    V2,
    V3,
}

/// Where and as whom REST requests are made.
#[derive(Debug, Clone)]
pub struct RestClient {
    pub host: String,
    pub token: String,
    pub account_id: Option<u64>,
}

/// The message given when a command needs an account and none is set.
pub open spec fn account_msg() -> Seq<char> {
    "account_id is required; set via --account-id, DBTP_ACCOUNT_ID, or `dbtp init`"@
}

/// The address of an account-scoped endpoint.
pub open spec fn account_url_v(host: Seq<char>, version: Seq<char>, account_id: u64, path: Seq<char>) -> Seq<char> {
    host + "/api/"@ + version + "/accounts/"@ + spec_decimal(account_id as nat) + "/"@ + path
}

impl RestClient {
    /// A client for a host (without trailing slashes), a token and an account.
    pub fn new(host: &str, token: &str, account_id: Option<u64>) -> (r: RestClient)
        ensures
            r.host@ == trim_end_char(host@, '/'),
            r.token@ == token@,
            r.account_id == account_id,
    {
        RestClient { host: trim_end_matches(host, '/'), token: owned(token), account_id }
    }

    /// The account requests are made for.
    pub fn account_id(&self) -> (r: Result<u64, DbtpError>)
        ensures
            r matches Ok(id) ==> self.account_id == Some(id),
            r matches Err(e) ==> self.account_id is None && config_error(e, account_msg()),
    {
        match self.account_id {
            Some(id) => Ok(id),
            None => Err(DbtpError::config(
                "account_id is required; set via --account-id, DBTP_ACCOUNT_ID, or `dbtp init`",
            )),
        }
    }

    fn account_url(&self, version: &str, path: &str) -> (r: Result<String, DbtpError>)
        ensures
            r matches Ok(u) ==> self.account_id matches Some(id) && u@ == account_url_v(self.host@, version@, id, path@),
            r matches Err(e) ==> self.account_id is None && config_error(e, account_msg()),
    {
        let aid = self.account_id()?;
        let id = u64_to_string(aid);
        let a = join3(self.host.as_str(), "/api/", version);
        let b = join3(a.as_str(), "/accounts/", id.as_str());
        Ok(join3(b.as_str(), "/", path))
    }

    /// `{host}/api/v2/accounts/{id}/{path}`.
    pub fn v2_url(&self, path: &str) -> (r: Result<String, DbtpError>)
        ensures
            r matches Ok(u) ==> self.account_id matches Some(id) && u@ == account_url_v(self.host@, "v2"@, id, path@),
            r matches Err(e) ==> self.account_id is None && config_error(e, account_msg()),
    {
        self.account_url("v2", path)
    }

    /// `{host}/api/v3/accounts/{id}/{path}`.
    pub fn v3_url(&self, path: &str) -> (r: Result<String, DbtpError>)
        ensures
            r matches Ok(u) ==> self.account_id matches Some(id) && u@ == account_url_v(self.host@, "v3"@, id, path@),
            r matches Err(e) ==> self.account_id is None && config_error(e, account_msg()),
    {
        self.account_url("v3", path)
    }

    /// The `Authorization` value: v2 takes `Token`, v3 takes `Bearer`.
    pub fn auth_header(&self, version: &ApiVersion) -> (r: String)
        ensures
            r@ == (match version {
                ApiVersion::V2 => "Token "@ + self.token@,
                ApiVersion::V3 => "Bearer "@ + self.token@,
            }),
    {
        match version {
            ApiVersion::V2 => join2("Token ", self.token.as_str()),
            ApiVersion::V3 => join2("Bearer ", self.token.as_str()),
        }
    }
}

/// `{host}/api/v2/{path}`, for the endpoints outside any account.
pub fn raw_v2_url(host: &str, path: &str) -> (r: String)
    ensures
        r@ == trim_end_char(host@, '/') + "/api/v2/"@ + path@,
{
    let h = trim_end_matches(host, '/');
    join3(h.as_str(), "/api/v2/", path)
}

// ---------------------------------------------------------------------------
// Answers
// ---------------------------------------------------------------------------

/// A status in the 2xx range.
pub open spec fn is_success(status: u16) -> bool {
    200 <= status <= 299
}

/// `data` of an answer when it has one, else the whole answer.
pub open spec fn unwrap_envelope_v(body: JsonV) -> JsonV {
    match get_v(body, "data"@) {
        Some(d) => d,
        None => body,
    }
}

/// Strips the dbt Cloud envelope, returning `data` if present.
pub fn unwrap_envelope(body: Json) -> (r: Json)
    ensures
        r@ == unwrap_envelope_v(body@),
{
    match body.get("data") {
        Some(d) => clone_json(d),
        None => body,
    }
}

/// The user message of a failed answer.
pub open spec fn user_message_v(body: JsonV) -> Option<Seq<char>> {
    as_str_v(at_v(at_v(body, "status"@), "user_message"@))
}

/// The message of a failed REST answer: the user message, else the
/// message, else "Unknown error".
pub open spec fn rest_error_msg(body: JsonV) -> Seq<char> {
    match user_message_v(body) {
        Some(m) => m,
        None => match as_str_v(at_v(body, "message"@)) {
            Some(m) => m,
            None => "Unknown error"@,
        },
    }
}

/// The message of a failed answer that only reads the user message.
pub open spec fn status_msg(body: JsonV) -> Seq<char> {
    match user_message_v(body) {
        Some(m) => m,
        None => "Unknown error"@,
    }
}

fn user_message(body: &Json) -> (r: Option<String>)
    ensures
        opt_v(r) == user_message_v(body@),
{
    let status = at(body, "status");
    match str_at(&status, "user_message") {
        Some(m) => Some(owned(m)),
        None => None,
    }
}

/// Turns a REST answer into its data, or into an API error when its
/// status is not a success.
pub fn handle_response(status: u16, body: Json) -> (r: Result<Json, DbtpError>)
    ensures
        is_success(status) ==> (r matches Ok(v) && v@ == unwrap_envelope_v(body@)),
        !is_success(status) ==> (r matches Err(e) && api_error(e, status, rest_error_msg(body@))),
{
    if !(200 <= status && status <= 299) {
        let message = match user_message(&body) {
            Some(m) => m,
            None => match str_at(&body, "message") {
                Some(m) => owned(m),
                None => owned("Unknown error"),
            },
        };
        return Err(DbtpError::api(status, message.as_str()));
    }
    Ok(unwrap_envelope(body))
}

/// Turns an answer of an endpoint outside any account into its data, or
/// into an API error.
pub fn handle_raw_response(status: u16, body: Json) -> (r: Result<Json, DbtpError>)
    ensures
        is_success(status) ==> (r matches Ok(v) && v@ == unwrap_envelope_v(body@)),
        !is_success(status) ==> (r matches Err(e) && api_error(e, status, status_msg(body@))),
{
    if !(200 <= status && status <= 299) {
        let message = match user_message(&body) {
            Some(m) => m,
            None => owned("Unknown error"),
        };
        return Err(DbtpError::api(status, message.as_str()));
    }
    Ok(unwrap_envelope(body))
}

// ---------------------------------------------------------------------------
// Offset-based paging
// ---------------------------------------------------------------------------

/// The number of results asked for per page.
pub const PAGE_SIZE: u64 = 100;

/// The query parameters of a page request: the base ones, then the page
/// size and the offset.
pub open spec fn page_params_v(base: Seq<(String, String)>, offset: u64) -> Seq<(Seq<char>, Seq<char>)> {
    Seq::new(base.len(), |i: int| (base[i].0@, base[i].1@))
        .push(("limit"@, spec_decimal(PAGE_SIZE as nat)))
        .push(("offset"@, spec_decimal(offset as nat)))
}

/// The model of query parameters.
pub open spec fn params_v(p: Seq<(String, String)>) -> Seq<(Seq<char>, Seq<char>)> {
    Seq::new(p.len(), |i: int| (p[i].0@, p[i].1@))
}

/// The data of a page: the elements of an array, or the one value.
pub open spec fn page_items_v(body: JsonV) -> Seq<JsonV> {
    match at_v(body, "data"@) {
        JsonV::Array(a) => a,
        other => seq![other],
    }
}

/// The total number of results the answer announces, or 0.
pub open spec fn total_count_v(body: JsonV) -> u64 {
    match as_u64_v(at_v(at_v(at_v(body, "extra"@), "pagination"@), "total_count"@)) {
        Some(n) => n,
        None => 0,
    }
}

/// Whether a page ends paging by itself: its data is one value rather than
/// an array, or the results reach the limit.
pub open spec fn page_ends_v(before: Seq<JsonV>, body: JsonV, limit: Option<u64>) -> bool {
    let single = !(at_v(body, "data"@) is Array);
    single || (limit is Some && before.len() + page_items_v(body).len() >= limit->0)
}

/// The results after a page: those before it and its items, cut to the
/// limit when an array page reaches it.
pub open spec fn absorbed_v(before: Seq<JsonV>, body: JsonV, limit: Option<u64>) -> Seq<JsonV> {
    let all = before + page_items_v(body);
    let single = !(at_v(body, "data"@) is Array);
    if !single && limit is Some && all.len() >= limit->0 {
        all.take(limit->0 as int)
    } else {
        all
    }
}

/// With a limit, paging never collects more results than the limit: a page
/// taken in while fewer results than the limit are held leaves at most the
/// limit, and paging goes on only while fewer are held.
pub proof fn law_limit_caps_results(before: Seq<JsonV>, body: JsonV, limit: u64)
    requires
        before.len() < limit,
    ensures
        absorbed_v(before, body, Some(limit)).len() <= limit,
        !page_ends_v(before, body, Some(limit)) ==> absorbed_v(before, body, Some(limit)).len() < limit,
{
}

/// A page never changes the results collected before it: they stay first,
/// in order, and the page's items follow them.
pub proof fn law_results_keep_order(before: Seq<JsonV>, body: JsonV, limit: Option<u64>)
    requires
        limit matches Some(l) ==> before.len() <= l,
    ensures
        absorbed_v(before, body, limit).len() >= before.len(),
        absorbed_v(before, body, limit).take(before.len() as int) == before,
        forall|i: int| 0 <= i < absorbed_v(before, body, limit).len() - before.len()
            ==> absorbed_v(before, body, limit)[before.len() + i] == #[trigger] page_items_v(body)[i],
{
    let all = before + page_items_v(body);
    assert(all.take(before.len() as int) =~= before);
    if limit is Some && all.len() >= limit->0 {
        assert(all.take(limit->0 as int).take(before.len() as int) =~= before);
    }
}

/// The state of paging through a list endpoint: the offset of the next
/// page, the results so far, and whether it is over.
pub struct RestPager {
    pub offset: u64,
    pub results: Vec<Json>,
    pub finished: bool,
}

impl RestPager {
    /// Paging before the first page.
    pub fn new() -> (r: RestPager)
        ensures
            r.offset == 0,
            r.results@.len() == 0,
            !r.finished,
    {
        RestPager { offset: 0, results: Vec::new(), finished: false }
    }

    /// The query parameters of the next page.
    pub fn params(&self, base: &Vec<(String, String)>) -> (r: Vec<(String, String)>)
        ensures
            params_v(r@) == page_params_v(base@, self.offset),
    {
        let mut out: Vec<(String, String)> = Vec::new();
        let mut i: usize = 0;
        while i < base.len()
            invariant
                i <= base@.len(),
                out@.len() == i,
                forall|k: int| 0 <= k < i ==> (#[trigger] out@[k]).0@ == base@[k].0@ && out@[k].1@ == base@[k].1@,
            decreases base@.len() - i,
        {
            out.push((base[i].0.clone(), base[i].1.clone()));
            i += 1;
        }
        assert(params_v(out@) =~= params_v(base@));
        out.push((owned("limit"), u64_to_string(PAGE_SIZE)));
        out.push((owned("offset"), u64_to_string(self.offset)));
        assert(params_v(out@) =~= page_params_v(base@, self.offset));
        out
    }

    /// Takes in the answer to a page request. A failed answer ends paging
    /// with an API error. A page whose data is not an array is the one
    /// result. Paging stops once `limit` results are collected (keeping
    /// exactly `limit`), or when the next offset reaches the announced total.
    pub fn absorb(&mut self, status: u16, body: &Json, limit: Option<u64>) -> (r: Result<(), DbtpError>)
        requires
            !old(self).finished,
            old(self).offset <= u64::MAX - PAGE_SIZE,
        ensures
            !is_success(status) ==> (r matches Err(e) && api_error(e, status, status_msg(body@)))
                && final(self).results@ == old(self).results@,
            is_success(status) ==> r is Ok && ({
                let stop = page_ends_v(vview(old(self).results@), body@, limit);
                &&& vview(final(self).results@) == absorbed_v(vview(old(self).results@), body@, limit)
                &&& final(self).finished == (stop || old(self).offset + PAGE_SIZE >= total_count_v(body@))
                &&& final(self).offset == (if stop { old(self).offset } else { (old(self).offset + PAGE_SIZE) as u64 })
            }),
    {
        if !(200 <= status && status <= 299) {
            let message = match user_message(body) {
                Some(m) => m,
                None => owned("Unknown error"),
            };
            return Err(DbtpError::api(status, message.as_str()));
        }
        let ghost before = vview(self.results@);
        let data = at(body, "data");
        match data {
            Json::Array(items) => {
                proof { lemma_array_view(items); }
                let mut items = items;
                let ghost iv = vview(items@);
                assert(iv =~= page_items_v(body@));
                self.results.append(&mut items);
                assert(vview(self.results@) =~= before + iv);
            },
            other => {
                let ghost ov = other@;
                self.results.push(other);
                assert(vview(self.results@) =~= before + seq![ov]);
                self.finished = true;
                return Ok(());
            },
        }
        if let Some(max) = limit {
            if self.results.len() as u64 >= max {
                let ghost all = vview(self.results@);
                self.results.truncate(max as usize);
                assert(vview(self.results@) =~= all.take(max as int));
                self.finished = true;
                return Ok(());
            }
        }
        let total = match u64_at(&at(&at(body, "extra"), "pagination"), "total_count") {
            Some(n) => n,
            None => 0,
        };
        self.offset = self.offset + PAGE_SIZE;
        if self.offset >= total {
            self.finished = true;
        }
        Ok(())
    }
}

// ---------------------------------------------------------------------------
// Resolving names to ids
// ---------------------------------------------------------------------------

/// The name of an item, or the empty text.
pub open spec fn name_of_v(it: JsonV) -> Seq<char> {
    match as_str_v(at_v(it, "name"@)) { Some(n) => n, None => Seq::empty() }
}

/// The items whose lower-cased name (`lows`, one per item) equals the
/// needle, with their ids and names, in order; items without a numeric id
/// are skipped.
pub open spec fn name_hits_v(items: Seq<JsonV>, lows: Seq<Seq<char>>, needle: Seq<char>) -> Seq<(u64, Seq<char>)>
    decreases items.len(),
{
    if items.len() == 0 {
        Seq::empty()
    } else {
        let rest = name_hits_v(items.drop_last(), lows.drop_last(), needle);
        let it = items.last();
        if lows[items.len() - 1] == needle && as_u64_v(at_v(it, "id"@)) is Some {
            rest.push((as_u64_v(at_v(it, "id"@))->0, name_of_v(it)))
        } else {
            rest
        }
    }
}

/// The lower-cased names of the items.
pub open spec fn lowered_names_v(items: Seq<JsonV>) -> Seq<Seq<char>> {
    Seq::new(items.len(), |i: int| spec_to_lowercase(name_of_v(items[i])))
}

/// `name (id)` for each match, joined by commas.
pub open spec fn candidates_v(ms: Seq<(u64, Seq<char>)>) -> Seq<char>
    decreases ms.len(),
{
    if ms.len() == 0 {
        Seq::empty()
    } else if ms.len() == 1 {
        ms[0].1 + " ("@ + spec_decimal(ms[0].0 as nat) + ")"@
    } else {
        candidates_v(ms.drop_last()) + ", "@ + ms.last().1 + " ("@ + spec_decimal(ms.last().0 as nat) + ")"@
    }
}

/// What an item kind is called in messages, and the flag that picks one by id.
pub open spec fn kind_v(projects: bool) -> (Seq<char>, Seq<char>) {
    if projects { ("project"@, "--project-id"@) } else { ("environment"@, "--environment-id"@) }
}

/// The items whose lower-cased name (`lows`, one per item) equals the
/// needle, with their ids and names, in order.
pub fn name_hits(items: &Vec<Json>, lows: &Vec<String>, needle: &str) -> (r: Vec<(u64, String)>)
    requires
        lows@.len() == items@.len(),
    ensures
        r@.len() == name_hits_v(vview(items@), texts_v(lows@), needle@).len(),
        forall|i: int| 0 <= i < r@.len() ==> (#[trigger] r@[i]).0 == name_hits_v(vview(items@), texts_v(lows@), needle@)[i].0
            && r@[i].1@ == name_hits_v(vview(items@), texts_v(lows@), needle@)[i].1,
{
    let ghost iv = vview(items@);
    let ghost lv = texts_v(lows@);
    let mut out: Vec<(u64, String)> = Vec::new();
    let mut k: usize = 0;
    while k < items.len()
        invariant
            k <= items@.len(),
            lows@.len() == items@.len(),
            iv == vview(items@),
            lv == texts_v(lows@),
            out@.len() == name_hits_v(iv.take(k as int), lv.take(k as int), needle@).len(),
            forall|i: int| 0 <= i < out@.len() ==> (#[trigger] out@[i]).0 == name_hits_v(iv.take(k as int), lv.take(k as int), needle@)[i].0
                && out@[i].1@ == name_hits_v(iv.take(k as int), lv.take(k as int), needle@)[i].1,
        decreases items@.len() - k,
    {
        let it = &items[k];
        assert(iv.take(k + 1).drop_last() =~= iv.take(k as int));
        assert(lv.take(k + 1).drop_last() =~= lv.take(k as int));
        assert(iv.take(k + 1).last() == it@);
        assert(lv.take(k + 1)[k as int] == lows@[k as int]@);
        if str_eq(lows[k].as_str(), needle) {
            if let Some(id) = u64_at(it, "id") {
                let name = match str_at(it, "name") {
                    Some(n) => owned(n),
                    None => String::new(),
                };
                out.push((id, name));
            }
        }
        k += 1;
    }
    assert(iv.take(items@.len() as int) =~= iv);
    assert(lv.take(items@.len() as int) =~= lv);
    out
}

/// The lower-cased names of the items.
fn lowered_names(items: &Vec<Json>) -> (r: Vec<String>)
    ensures
        texts_v(r@) == lowered_names_v(vview(items@)),
{
    let ghost iv = vview(items@);
    let mut out: Vec<String> = Vec::new();
    let mut k: usize = 0;
    while k < items.len()
        invariant
            k <= items@.len(),
            iv == vview(items@),
            out@.len() == k,
            forall|i: int| 0 <= i < k ==> (#[trigger] out@[i])@ == spec_to_lowercase(name_of_v(iv[i])),
        decreases items@.len() - k,
    {
        let name = match str_at(&items[k], "name") {
            Some(n) => owned(n),
            None => String::new(),
        };
        out.push(to_lowercase(name.as_str()));
        k += 1;
    }
    assert(texts_v(out@) =~= lowered_names_v(iv));
    out
}

fn candidates(ms: &Vec<(u64, String)>) -> (r: String)
    ensures
        r@ == candidates_v(Seq::new(ms@.len(), |i: int| (ms@[i].0, ms@[i].1@))),
{
    let ghost mv = Seq::new(ms@.len(), |i: int| (ms@[i].0, ms@[i].1@));
    let mut out = String::new();
    let mut i: usize = 0;
    while i < ms.len()
        invariant
            i <= ms@.len(),
            mv == Seq::new(ms@.len(), |i: int| (ms@[i].0, ms@[i].1@)),
            out@ == candidates_v(mv.take(i as int)),
        decreases ms@.len() - i,
    {
        assert(mv.take(i + 1).drop_last() =~= mv.take(i as int));
        let id = u64_to_string(ms[i].0);
        let one = join3(ms[i].1.as_str(), " (", id.as_str());
        let item = join2(one.as_str(), ")");
        if i == 0 {
            out = item;
            assert(mv.take(1)[0] == mv[0]);
        } else {
            let sep = join2(out.as_str(), ", ");
            out = join2(sep.as_str(), item.as_str());
            assert(mv.take(i + 1).last() == mv[i as int]);
        }
        i += 1;
    }
    assert(mv.take(ms@.len() as int) =~= mv);
    out
}

/// The outcome of looking an item up by name, given the items'
/// lower-cased names and the lower-cased name looked for.
pub open spec fn name_lookup_lv(items: Seq<JsonV>, lows: Seq<Seq<char>>, needle: Seq<char>, input: Seq<char>, projects: bool, project_id: u64) -> Result<u64, Seq<char>> {
    let ms = name_hits_v(items, lows, needle);
    if ms.len() == 1 {
        Ok(ms[0].0)
    } else if ms.len() == 0 {
        Err(if projects {
            "No project found matching \""@ + input + "\""@
        } else {
            "No environment found matching \""@ + input + "\" in project "@ + spec_decimal(project_id as nat)
        })
    } else {
        Err("Multiple "@ + kind_v(projects).0 + "s match \""@ + input + "\": "@ + candidates_v(ms)
            + ". Use "@ + kind_v(projects).1 + " <numeric_id> to disambiguate."@)
    }
}

/// The outcome of looking an item up by name, ignoring case.
pub open spec fn name_lookup_v(items: Seq<JsonV>, input: Seq<char>, projects: bool, project_id: u64) -> Result<u64, Seq<char>> {
    name_lookup_lv(items, lowered_names_v(items), spec_to_lowercase(input), input, projects, project_id)
}

/// Looks an item up by name, given the items' lower-cased names (`lows`,
/// one per item) and the lower-cased name looked for: exactly one item must
/// match.
pub fn lookup_lowered(items: &Vec<Json>, lows: &Vec<String>, needle: &str, input: &str, projects: bool, project_id: u64) -> (r: Result<u64, DbtpError>)
    requires
        lows@.len() == items@.len(),
    ensures
        match name_lookup_lv(vview(items@), texts_v(lows@), needle@, input@, projects, project_id) {
            Ok(id) => r == Ok::<u64, DbtpError>(id),
            Err(m) => r matches Err(e) && config_error(e, m),
        },
{
    let ms = name_hits(items, lows, needle);
    let ghost mv = name_hits_v(vview(items@), texts_v(lows@), needle@);
    if ms.len() == 1 {
        return Ok(ms[0].0);
    }
    if ms.len() == 0 {
        let msg = if projects {
            join3("No project found matching \"", input, "\"")
        } else {
            let a = join3("No environment found matching \"", input, "\" in project ");
            let id = u64_to_string(project_id);
            join2(a.as_str(), id.as_str())
        };
        return Err(DbtpError::Config(msg));
    }
    let kind = if projects { "project" } else { "environment" };
    let flag = if projects { "--project-id" } else { "--environment-id" };
    let c = candidates(&ms);
    assert(Seq::new(ms@.len(), |i: int| (ms@[i].0, ms@[i].1@)) =~= mv);
    let a = join3("Multiple ", kind, "s match \"");
    let b = join3(a.as_str(), input, "\": ");
    let d = join3(b.as_str(), c.as_str(), ". Use ");
    let msg = join3(d.as_str(), flag, " <numeric_id> to disambiguate.");
    Err(DbtpError::Config(msg))
}

fn lookup_by_name(items: &Vec<Json>, input: &str, projects: bool, project_id: u64) -> (r: Result<u64, DbtpError>)
    ensures
        match name_lookup_v(vview(items@), input@, projects, project_id) {
            Ok(id) => r == Ok::<u64, DbtpError>(id),
            Err(m) => r matches Err(e) && config_error(e, m),
        },
{
    let needle = to_lowercase(input);
    let lows = lowered_names(items);
    lookup_lowered(items, &lows, needle.as_str(), input, projects, project_id)
}

/// Resolves a project given by number or name: a number is its id; a name
/// must match exactly one project, ignoring case.
pub fn match_project(projects: &Vec<Json>, input: &str) -> (r: Result<u64, DbtpError>)
    ensures
        spec_parse_u64(input@) matches Some(id) ==> r == Ok::<u64, DbtpError>(id),
        spec_parse_u64(input@) is None ==> match name_lookup_v(vview(projects@), input@, true, 0) {
            Ok(id) => r == Ok::<u64, DbtpError>(id),
            Err(m) => r matches Err(e) && config_error(e, m),
        },
{
    if let Some(id) = parse_u64(input) {
        return Ok(id);
    }
    lookup_by_name(projects, input, true, 0)
}

/// The message given when an environment is named but no project is known.
pub open spec fn env_needs_project_msg() -> Seq<char> {
    "project_id is required to resolve an environment by name; set via --project-id, DBTP_PROJECT_ID, or `dbtp configure`"@
}

/// Resolves an environment given by number or name: a number is its id; a
/// name needs a project and must match exactly one of its environments,
/// ignoring case.
pub fn match_environment(environments: &Vec<Json>, project_id: Option<u64>, input: &str) -> (r: Result<u64, DbtpError>)
    ensures
        spec_parse_u64(input@) matches Some(id) ==> r == Ok::<u64, DbtpError>(id),
        spec_parse_u64(input@) is None && project_id is None ==> (r matches Err(e) && config_error(e, env_needs_project_msg())),
        spec_parse_u64(input@) is None && project_id is Some ==>
            match name_lookup_v(vview(environments@), input@, false, project_id->0) {
                Ok(id) => r == Ok::<u64, DbtpError>(id),
                Err(m) => r matches Err(e) && config_error(e, m),
            },
{
    if let Some(id) = parse_u64(input) {
        return Ok(id);
    }
    match project_id {
        None => Err(DbtpError::config(
            "project_id is required to resolve an environment by name; set via --project-id, DBTP_PROJECT_ID, or `dbtp configure`",
        )),
        Some(pid) => lookup_by_name(environments, input, false, pid),
    }
}

} // verus!
