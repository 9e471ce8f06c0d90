//! The Discovery API: its address, the shape of its answers, and the
//! cursor-based paging of its lists.
use vstd::prelude::*;

use crate::config::Config;
use crate::error::{config_error, graphql_error, DbtpError};
use crate::lists::{insert_sorted, sorted_texts, text_set};
use crate::json::{
    array_of, at, at_v, bool_at, clone_json, entry, get_v, group_json_view, lemma_array_view,
    json_view, object_of, as_array_v, as_bool_v, as_str_v, set_field, set_field_v, str_array_v, str_at,
    string_array, u64_v, vview, Json, JsonV,
};
use crate::text::{
    eq_ascii_nocase, has_substring, is_prefix, join2, join3, join_v, owned, spec_parse_u64,
    spec_to_lowercase, spec_trim, str_contains, str_has_char, strip_prefix, to_lowercase,
    trim_end_char, trim_end_matches,
};

verus! {

broadcast use group_json_view;

// ---------------------------------------------------------------------------
// Addresses and identifiers
// ---------------------------------------------------------------------------

/// The Discovery API host for a dbt Cloud host: `metadata.` goes in front
/// of the host name unless it is already there.
pub open spec fn metadata_url_v(host: Seq<char>) -> Seq<char> {
    let h = trim_end_char(host, '/');
    if has_substring(h, "metadata."@) {
        h
    } else if is_prefix("https://"@, h) {
        "https://metadata."@ + h.subrange("https://"@.len() as int, h.len() as int)
    } else if is_prefix("http://"@, h) {
        "http://metadata."@ + h.subrange("http://"@.len() as int, h.len() as int)
    } else {
        "https://metadata."@ + h
    }
}

/// The Discovery host never ends in a slash, and deriving it again from
/// itself changes nothing.
pub proof fn law_metadata_url_idempotent(host: Seq<char>)
    ensures
        metadata_url_v(host).len() > 0,
        metadata_url_v(host).last() != '/',
        metadata_url_v(metadata_url_v(host)) == metadata_url_v(host),
{
    let h = trim_end_char(host, '/');
    let m = metadata_url_v(host);
    crate::text::lemma_trim_end_char_idem(host, '/');
    reveal_strlit("metadata.");
    reveal_strlit("https://metadata.");
    reveal_strlit("http://metadata.");
    reveal_strlit("https://");
    reveal_strlit("http://");
    if has_substring(h, "metadata."@) {
        let i = choose|i: int| 0 <= i && i + "metadata."@.len() <= h.len() && #[trigger] h.subrange(i, i + "metadata."@.len()) == "metadata."@;
        assert(m == h);
        assert(h.len() > 0);
    } else {
        let (pre, rest) = if is_prefix("https://"@, h) {
            ("https://metadata."@, h.subrange("https://"@.len() as int, h.len() as int))
        } else if is_prefix("http://"@, h) {
            ("http://metadata."@, h.subrange("http://"@.len() as int, h.len() as int))
        } else {
            ("https://metadata."@, h)
        };
        assert(m == pre + rest);
        let off: int = pre.len() - "metadata."@.len();
        assert(m.subrange(off, off + "metadata."@.len()) =~= "metadata."@);
        assert(has_substring(m, "metadata."@));
        if rest.len() > 0 {
            assert(rest.last() == h.last());
            assert(m.last() == rest.last());
        } else {
            assert(m.last() == '.');
        }
    }
    assert(m.last() != '/');
    assert(trim_end_char(m, '/') == m);
}

/// Derives the Discovery metadata API base URL from the config host,
/// e.g. `https://cloud.getdbt.com` gives `https://metadata.cloud.getdbt.com`.
pub fn metadata_url(host: &str) -> (r: String)
    ensures
        r@ == metadata_url_v(host@),
{
    let h = trim_end_matches(host, '/');
    if str_contains(h.as_str(), "metadata.") {
        return h;
    }
    if let Some(rest) = strip_prefix(h.as_str(), "https://") {
        join2("https://metadata.", rest.as_str())
    } else if let Some(rest) = strip_prefix(h.as_str(), "http://") {
        join2("http://metadata.", rest.as_str())
    } else {
        join2("https://metadata.", h.as_str())
    }
}

/// The message given when a Discovery command has no environment.
pub open spec fn discovery_env_msg() -> Seq<char> {
    "environment_id is required for Discovery API; set via --environment-id, DBTP_ENVIRONMENT_ID, or `dbtp configure`"@
}

/// The environment a Discovery command runs against.
pub fn require_environment_id(config: &Config) -> (r: Result<u64, DbtpError>)
    ensures
        r matches Ok(id) ==> config.environment_id matches Some(s) && spec_parse_u64(s@) == Some(id),
        r matches Err(e) ==> (match config.environment_id {
            Some(s) => spec_parse_u64(s@) is None,
            None => true,
        }) && config_error(e, discovery_env_msg()),
{
    match config.environment_id_u64() {
        Some(id) => Ok(id),
        None => Err(DbtpError::config(
            "environment_id is required for Discovery API; set via --environment-id, DBTP_ENVIRONMENT_ID, or `dbtp configure`",
        )),
    }
}

/// Whether an identifier is a unique id (it holds a dot) rather than a name.
pub fn is_unique_id(identifier: &str) -> (r: bool)
    ensures
        r == identifier@.contains('.'),
{
    str_has_char(identifier, '.')
}

/// The models filter for a name or unique id.
pub open spec fn model_filter_v(identifier: Seq<char>) -> JsonV {
    if identifier.contains('.') {
        JsonV::Object(seq![("uniqueIds"@, JsonV::Array(seq![JsonV::Str(identifier)]))])
    } else {
        JsonV::Object(seq![("identifier"@, JsonV::Str(identifier))])
    }
}

/// `{"uniqueIds": [identifier]}` for a unique id, else
/// `{"identifier": identifier}`.
pub fn model_filter(identifier: &str) -> (r: Json)
    ensures
        r@ == model_filter_v(identifier@),
{
    if is_unique_id(identifier) {
        let v = vec![Json::str(identifier)];
        assert(vview(v@) =~= seq![JsonV::Str(identifier@)]);
        let ids = array_of(v);
        let r = object_of(vec![entry("uniqueIds", ids)]);
        assert(r@->Object_0 =~= seq![("uniqueIds"@, JsonV::Array(seq![JsonV::Str(identifier@)]))]);
        r
    } else {
        let r = object_of(vec![entry("identifier", Json::str(identifier))]);
        assert(r@->Object_0 =~= seq![("identifier"@, JsonV::Str(identifier@))]);
        r
    }
}

// ---------------------------------------------------------------------------
// Reading answers
// ---------------------------------------------------------------------------

/// `value[k1][k2]...`: the document found by following the keys.
pub open spec fn path_v(v: JsonV, keys: Seq<Seq<char>>) -> JsonV
    decreases keys.len(),
{
    if keys.len() == 0 {
        v
    } else {
        at_v(path_v(v, keys.drop_last()), keys.last())
    }
}

/// The models of a list of keys.
pub open spec fn keys_v(path: Seq<&str>) -> Seq<Seq<char>> {
    path.map_values(|k: &str| k@)
}

/// Follows a sequence of keys into a document; a missing key gives null.
pub fn extract_path(value: &Json, path: &[&str]) -> (r: Json)
    ensures
        r@ == path_v(value@, keys_v(path@)),
{
    let mut cur = clone_json(value);
    let mut i: usize = 0;
    while i < path.len()
        invariant
            i <= path@.len(),
            cur@ == path_v(value@, keys_v(path@).take(i as int)),
        decreases path@.len() - i,
    {
        let next = at(&cur, path[i]);
        assert(keys_v(path@).take(i + 1).drop_last() =~= keys_v(path@).take(i as int));
        cur = next;
        i += 1;
    }
    assert(keys_v(path@).take(path@.len() as int) =~= keys_v(path@));
    cur
}

/// Following three keys.
pub proof fn lemma_path3(v: JsonV, a: Seq<char>, b: Seq<char>, c: Seq<char>)
    ensures
        path_v(v, seq![a, b, c]) == at_v(at_v(at_v(v, a), b), c),
{
    assert(seq![a, b, c].drop_last() =~= seq![a, b]);
    assert(seq![a, b].drop_last() =~= seq![a]);
    assert(seq![a].drop_last() =~= Seq::<Seq<char>>::empty());
    assert(path_v(v, Seq::<Seq<char>>::empty()) == v);
    assert(path_v(v, seq![a]) == at_v(v, a));
    assert(path_v(v, seq![a, b]) == at_v(at_v(v, a), b));
}

/// Following four keys.
pub proof fn lemma_path4(v: JsonV, a: Seq<char>, b: Seq<char>, c: Seq<char>, d: Seq<char>)
    ensures
        path_v(v, seq![a, b, c, d]) == at_v(at_v(at_v(at_v(v, a), b), c), d),
{
    assert(seq![a, b, c, d].drop_last() =~= seq![a, b, c]);
    lemma_path3(v, a, b, c);
}

/// The node of a paging edge, when it is an object.
pub open spec fn edge_node_v(e: JsonV) -> Option<JsonV> {
    match get_v(e, "node"@) {
        Some(n) => if n is Object { Some(n) } else { None },
        None => None,
    }
}

/// The nodes of a list of edges, in order.
pub open spec fn edge_nodes_v(edges: Seq<JsonV>) -> Seq<JsonV>
    decreases edges.len(),
{
    if edges.len() == 0 {
        Seq::empty()
    } else {
        let rest = edge_nodes_v(edges.drop_last());
        match edge_node_v(edges.last()) {
            Some(n) => rest.push(n),
            None => rest,
        }
    }
}

/// The nodes of a paging `edges` value: `[{node: ...}, ...]` gives `[...]`.
pub open spec fn nodes_of_v(edges: JsonV) -> Seq<JsonV> {
    match edges {
        JsonV::Array(a) => edge_nodes_v(a),
        _ => Seq::empty(),
    }
}

/// Extracts the nodes from paged GraphQL edges: `[{node: ...}, ...]` gives
/// `[...]`, skipping edges without an object node.
pub fn extract_nodes(edges: &Json) -> (r: Vec<Json>)
    ensures
        vview(r@) == nodes_of_v(edges@),
{
    match edges {
        Json::Array(a) => {
            let ghost av = json_view(Json::Array(*a))->Array_0;
            proof { lemma_array_view(*a); }
            let mut out: Vec<Json> = Vec::new();
            let mut i: usize = 0;
            while i < a.len()
                invariant
                    i <= a@.len(),
                    av.len() == a@.len(),
                    forall|k: int| 0 <= k < a@.len() ==> av[k] == (#[trigger] a@[k])@,
                    vview(out@) == edge_nodes_v(av.take(i as int)),
                decreases a@.len() - i,
            {
                assert(av.take(i + 1).drop_last() =~= av.take(i as int));
                assert(av.take(i + 1).last() == a@[i as int]@);
                if let Some(n) = a[i].get("node") {
                    if n.is_object() {
                        out.push(clone_json(n));
                        assert(vview(out@) =~= edge_nodes_v(av.take(i as int)).push(n@));
                    }
                }
                i += 1;
            }
            assert(av.take(a@.len() as int) =~= av);
            out
        },
        _ => Vec::new(),
    }
}

// ---------------------------------------------------------------------------
// Cursor-based paging
// ---------------------------------------------------------------------------

/// The most nodes a paged query collects.
pub const MAX_NODE_QUERY_LIMIT: u64 = 10000;

/// The most nodes asked for in one page.
pub const DEFAULT_PAGE_SIZE: u64 = 100;

/// How many nodes the next page asks for: a full page, or what is left
/// under the limit.
pub open spec fn page_size_v(collected: nat) -> u64 {
    if MAX_NODE_QUERY_LIMIT - collected < DEFAULT_PAGE_SIZE {
        (MAX_NODE_QUERY_LIMIT - collected) as u64
    } else {
        DEFAULT_PAGE_SIZE
    }
}

/// A page request never asks for more nodes than the limit leaves room
/// for, and always for at least one and at most a page's worth.
pub proof fn law_page_size_within_limit(collected: nat)
    requires
        collected < MAX_NODE_QUERY_LIMIT,
    ensures
        0 < page_size_v(collected) <= DEFAULT_PAGE_SIZE,
        collected + page_size_v(collected) <= MAX_NODE_QUERY_LIMIT,
{
}

/// The variables of a page request: the base variables with the
/// environment, the page size and, after the first page, the cursor.
pub open spec fn page_vars_v(base: JsonV, environment_id: u64, page_size: u64, cursor: Option<Seq<char>>) -> JsonV {
    let v1 = set_field_v(base, "environmentId"@, u64_v(environment_id));
    let v2 = set_field_v(v1, "first"@, u64_v(page_size));
    match cursor {
        Some(c) => set_field_v(v2, "after"@, JsonV::Str(c)),
        None => v2,
    }
}

/// Whether another page follows, and its cursor: the page says it has a
/// next page, names an end cursor, and that cursor is new.
pub open spec fn next_cursor_v(page_info: JsonV, cursor: Option<Seq<char>>) -> Option<Seq<char>> {
    let has_next = as_bool_v(at_v(page_info, "hasNextPage"@)) == Some(true);
    let end = as_str_v(at_v(page_info, "endCursor"@));
    if has_next && end is Some && (cursor is None || cursor != end) {
        end
    } else {
        None
    }
}

/// The state of a cursor-based paging through a Discovery list: the nodes
/// collected so far, the cursor of the next page, and whether it is over.
pub struct Pager {
    pub collected: Vec<Json>,
    pub cursor: Option<String>,
    pub finished: bool,
}

impl Pager {
    /// Paging before the first page.
    pub fn new() -> (r: Pager)
        ensures
            r.collected@.len() == 0,
            r.cursor is None,
            !r.finished,
    {
        Pager { collected: Vec::new(), cursor: None, finished: false }
    }

    /// The variables of the next page request, or `None` once paging is
    /// over or the limit of collected nodes is reached.
    pub fn next_variables(&self, base: &Json, environment_id: u64) -> (r: Option<Json>)
        ensures
            r is None <==> (self.finished || self.collected@.len() >= MAX_NODE_QUERY_LIMIT),
            r matches Some(v) ==> v@ == page_vars_v(base@, environment_id,
                page_size_v(self.collected@.len()), crate::config::opt_v(self.cursor)),
    {
        if self.finished || self.collected.len() as u64 >= MAX_NODE_QUERY_LIMIT {
            return None;
        }
        let remaining = MAX_NODE_QUERY_LIMIT - self.collected.len() as u64;
        let page_size = if remaining < DEFAULT_PAGE_SIZE { remaining } else { DEFAULT_PAGE_SIZE };
        let v1 = set_field(clone_json(base), "environmentId", Json::from_u64(environment_id));
        let v2 = set_field(v1, "first", Json::from_u64(page_size));
        match &self.cursor {
            Some(c) => Some(set_field(v2, "after", Json::str(c.as_str()))),
            None => Some(v2),
        }
    }

    /// Takes in the answer to a page request: its nodes are collected, and
    /// paging goes on only to a new cursor that the page announces.
    pub fn absorb(&mut self, data: &Json, edges_path: &[&str], page_info_path: &[&str])
        ensures
            vview(final(self).collected@) == vview(old(self).collected@)
                + nodes_of_v(path_v(data@, keys_v(edges_path@))),
            ({
                let next = next_cursor_v(path_v(data@, keys_v(page_info_path@)), crate::config::opt_v(old(self).cursor));
                &&& final(self).finished == (old(self).finished || next is None)
                &&& crate::config::opt_v(final(self).cursor) == (if next is Some { next } else { crate::config::opt_v(old(self).cursor) })
            }),
    {
        let edges = extract_path(data, edges_path);
        let mut nodes = extract_nodes(&edges);
        let ghost before = self.collected@;
        self.collected.append(&mut nodes);
        assert(vview(self.collected@) =~= vview(before) + nodes_of_v(edges@));
        let page_info = extract_path(data, page_info_path);
        let has_next = match bool_at(&page_info, "hasNextPage") {
            Some(b) => b,
            None => false,
        };
        let end = str_at(&page_info, "endCursor");
        let go_on = has_next && match end {
            Some(e) => match &self.cursor {
                Some(prev) => !crate::text::str_eq(prev.as_str(), e),
                None => true,
            },
            None => false,
        };
        if go_on {
            self.cursor = Some(owned(end.unwrap()));
        } else {
            self.finished = true;
        }
    }
}

// ---------------------------------------------------------------------------
// Models
// ---------------------------------------------------------------------------

/// The base variables for listing models: the mart filter when asked, and
/// the order by query usage.
pub open spec fn models_list_vars_v(mart_only: bool) -> JsonV {
    JsonV::Object(seq![
        ("modelsFilter"@, if mart_only {
            JsonV::Object(seq![("modelingLayer"@, JsonV::Str("marts"@))])
        } else {
            JsonV::Object(Seq::empty())
        }),
        ("sort"@, JsonV::Object(seq![("direction"@, JsonV::Str("desc"@)), ("field"@, JsonV::Str("queryUsageCount"@))])),
    ])
}

/// The model list is restricted to mart models exactly when asked: the
/// filter names the `marts` modeling layer with `mart_only`, and is empty
/// without it.
pub proof fn law_mart_filter(mart_only: bool)
    ensures
        get_v(at_v(models_list_vars_v(mart_only), "modelsFilter"@), "modelingLayer"@)
            == (if mart_only { Some(JsonV::Str("marts"@)) } else { None::<JsonV> }),
        !mart_only ==> at_v(models_list_vars_v(mart_only), "modelsFilter"@) == JsonV::Object(Seq::empty()),
        at_v(at_v(models_list_vars_v(mart_only), "sort"@), "direction"@) == JsonV::Str("desc"@),
        at_v(at_v(models_list_vars_v(mart_only), "sort"@), "field"@) == JsonV::Str("queryUsageCount"@),
{
    let es = models_list_vars_v(mart_only)->Object_0;
    crate::json::lemma_lookup_at(es, "modelsFilter"@, 0);
    reveal_strlit("modelsFilter");
    reveal_strlit("sort");
    reveal_strlit("direction");
    reveal_strlit("field");
    assert("modelsFilter"@[0] == 'm' && "sort"@[0] == 's' && "direction"@[0] == 'd' && "field"@[0] == 'f');
    crate::json::lemma_lookup_at(es, "sort"@, 1);
    let so = seq![("direction"@, JsonV::Str("desc"@)), ("field"@, JsonV::Str("queryUsageCount"@))];
    crate::json::lemma_lookup_at(so, "direction"@, 0);
    crate::json::lemma_lookup_at(so, "field"@, 1);
    if mart_only {
        let f = seq![("modelingLayer"@, JsonV::Str("marts"@))];
        crate::json::lemma_lookup_at(f, "modelingLayer"@, 0);
    }
}

/// The base variables for listing models.
pub fn models_list_vars(mart_only: bool) -> (r: Json)
    ensures
        r@ == models_list_vars_v(mart_only),
{
    let filter = if mart_only {
        let f = object_of(vec![entry("modelingLayer", Json::str("marts"))]);
        assert(f@->Object_0 =~= seq![("modelingLayer"@, JsonV::Str("marts"@))]);
        f
    } else {
        Json::empty_object()
    };
    let sort = object_of(vec![entry("direction", Json::str("desc")), entry("field", Json::str("queryUsageCount"))]);
    assert(sort@->Object_0 =~= seq![("direction"@, JsonV::Str("desc"@)), ("field"@, JsonV::Str("queryUsageCount"@))]);
    let r = object_of(vec![entry("modelsFilter", filter), entry("sort", sort)]);
    assert(r@->Object_0 =~= models_list_vars_v(mart_only)->Object_0);
    r
}

/// The nodes that are not the metricflow time spine, in order.
pub open spec fn without_time_spine_v(nodes: Seq<JsonV>) -> Seq<JsonV>
    decreases nodes.len(),
{
    if nodes.len() == 0 {
        Seq::empty()
    } else {
        let rest = without_time_spine_v(nodes.drop_last());
        if as_str_v(at_v(nodes.last(), "name"@)) != Some("metricflow_time_spine"@) { rest.push(nodes.last()) } else { rest }
    }
}

/// The models listed: with the mart filter, the metricflow time spine is left out.
pub fn filter_models(nodes: Vec<Json>, mart_only: bool) -> (r: Vec<Json>)
    ensures
        vview(r@) == (if mart_only { without_time_spine_v(vview(nodes@)) } else { vview(nodes@) }),
{
    if !mart_only {
        return nodes;
    }
    let ghost nv = vview(nodes@);
    let mut out: Vec<Json> = Vec::new();
    let mut i: usize = 0;
    while i < nodes.len()
        invariant
            i <= nodes@.len(),
            nv == vview(nodes@),
            vview(out@) == without_time_spine_v(nv.take(i as int)),
        decreases nodes@.len() - i,
    {
        assert(nv.take(i + 1).drop_last() =~= nv.take(i as int));
        assert(nv.take(i + 1).last() == nodes@[i as int]@);
        let spine = match str_at(&nodes[i], "name") {
            Some(n) => crate::text::str_eq(n, "metricflow_time_spine"),
            None => false,
        };
        if !spine {
            let ghost before = vview(out@);
            out.push(clone_json(&nodes[i]));
            assert(vview(out@) =~= before.push(nodes@[i as int]@));
        }
        i += 1;
    }
    assert(nv.take(nodes@.len() as int) =~= nv);
    out
}

/// The variables for looking up one model by name or unique id.
pub open spec fn model_lookup_vars_v(environment_id: u64, identifier: Seq<char>) -> JsonV {
    JsonV::Object(seq![
        ("environmentId"@, u64_v(environment_id)),
        ("first"@, u64_v(1)),
        ("modelsFilter"@, model_filter_v(identifier)),
    ])
}

/// The variables for looking up one model (its parents, children or health).
pub fn model_lookup_vars(environment_id: u64, identifier: &str) -> (r: Json)
    ensures
        r@ == model_lookup_vars_v(environment_id, identifier@),
{
    let r = object_of(vec![
        entry("environmentId", Json::from_u64(environment_id)),
        entry("first", Json::from_u64(1)),
        entry("modelsFilter", model_filter(identifier)),
    ]);
    assert(r@->Object_0 =~= model_lookup_vars_v(environment_id, identifier@)->Object_0);
    r
}

/// The edges of an answer about models.
pub open spec fn model_edges_v(data: JsonV) -> JsonV {
    at_v(at_v(at_v(at_v(data, "environment"@), "applied"@), "models"@), "edges"@)
}

/// The node of the first model edge, if there is one.
pub open spec fn first_model_v(data: JsonV) -> Option<JsonV> {
    match model_edges_v(data) {
        JsonV::Array(a) => if a.len() > 0 { Some(at_v(a[0], "node"@)) } else { None },
        _ => None,
    }
}

/// What an answer says about the model looked up: `field` of its node
/// (parents, children), or an empty list when no model was found.
pub fn first_model_field(data: &Json, field: &str) -> (r: Json)
    ensures
        r@ == (match first_model_v(data@) {
            Some(n) => at_v(n, field@),
            None => JsonV::Array(Seq::empty()),
        }),
{
    let path: [&str; 4] = ["environment", "applied", "models", "edges"];
    let edges = extract_path(data, &path);
    assert(keys_v(path@) =~= seq!["environment"@, "applied"@, "models"@, "edges"@]);
    proof { lemma_path4(data@, "environment"@, "applied"@, "models"@, "edges"@); }
    match &edges {
        Json::Array(a) => {
            proof { lemma_array_view(*a); }
            if a.len() > 0 {
                let node = at(&a[0], "node");
                at(&node, field)
            } else {
                Json::empty_array()
            }
        },
        _ => Json::empty_array(),
    }
}

/// The node of the model looked up (its health), or null.
pub fn first_model_node(data: &Json) -> (r: Json)
    ensures
        r@ == (match first_model_v(data@) {
            Some(n) => n,
            None => JsonV::Null,
        }),
{
    let path: [&str; 4] = ["environment", "applied", "models", "edges"];
    let edges = extract_path(data, &path);
    assert(keys_v(path@) =~= seq!["environment"@, "applied"@, "models"@, "edges"@]);
    proof { lemma_path4(data@, "environment"@, "applied"@, "models"@, "edges"@); }
    match &edges {
        Json::Array(a) => {
            proof { lemma_array_view(*a); }
            if a.len() > 0 {
                at(&a[0], "node")
            } else {
                Json::Null
            }
        },
        _ => Json::Null,
    }
}

/// The variables of the model performance query.
pub fn performance_vars(environment_id: u64, unique_id: &str, num_runs: u32) -> (r: Json)
    ensures
        r@ == JsonV::Object(seq![
            ("environmentId"@, u64_v(environment_id)),
            ("lastRunCount"@, u64_v(num_runs as u64)),
            ("uniqueId"@, JsonV::Str(unique_id@)),
        ]),
{
    let r = object_of(vec![
        entry("environmentId", Json::from_u64(environment_id)),
        entry("lastRunCount", Json::from_u64(num_runs as u64)),
        entry("uniqueId", Json::str(unique_id)),
    ]);
    assert(r@->Object_0 =~= seq![
        ("environmentId"@, u64_v(environment_id)),
        ("lastRunCount"@, u64_v(num_runs as u64)),
        ("uniqueId"@, JsonV::Str(unique_id@)),
    ]);
    r
}

/// A run without its `tests` entry, when it is an object.
pub open spec fn without_tests_v(run: JsonV) -> JsonV {
    match run {
        JsonV::Object(es) => JsonV::Object(crate::admin::select_entries(es, seq!["tests"@], false)),
        _ => run,
    }
}

/// The recent runs of a model; without test results unless asked for.
pub open spec fn performance_v(data: JsonV, include_tests: bool) -> JsonV {
    let runs = at_v(at_v(at_v(data, "environment"@), "applied"@), "modelHistoricalRuns"@);
    if include_tests {
        runs
    } else {
        match runs {
            JsonV::Array(a) => JsonV::Array(Seq::new(a.len(), |i: int| without_tests_v(a[i]))),
            _ => runs,
        }
    }
}

/// Test results are dropped from each recent run unless asked for: without
/// `include_tests` every run keeps all its fields but `tests`, which it no
/// longer has; with it the runs are returned as they are.
pub proof fn law_performance_tests(data: JsonV, include_tests: bool, key: Seq<char>)
    ensures
        ({
            let runs = at_v(at_v(at_v(data, "environment"@), "applied"@), "modelHistoricalRuns"@);
            let r = performance_v(data, include_tests);
            &&& include_tests ==> r == runs
            &&& !include_tests && runs is Array ==> (r matches JsonV::Array(b)
                && b.len() == runs->Array_0.len()
                && forall|i: int| 0 <= i < b.len() ==> get_v(#[trigger] b[i], "tests"@) is None
                    && (key != "tests"@ ==> get_v(b[i], key) == get_v(runs->Array_0[i], key)))
        }),
{
    let runs = at_v(at_v(at_v(data, "environment"@), "applied"@), "modelHistoricalRuns"@);
    if !include_tests && runs is Array {
        let a = runs->Array_0;
        let b = performance_v(data, include_tests)->Array_0;
        assert forall|i: int| 0 <= i < b.len() implies get_v(#[trigger] b[i], "tests"@) is None
            && (key != "tests"@ ==> get_v(b[i], key) == get_v(a[i], key)) by {
            assert(b[i] == without_tests_v(a[i]));
            if a[i] is Object {
                let es = a[i]->Object_0;
                let fs = seq!["tests"@];
                assert(fs[0] == "tests"@);
                assert(fs.contains("tests"@));
                crate::admin::lemma_strip_lookup(es, fs, "tests"@);
                if key != "tests"@ {
                    assert(!fs.contains(key)) by {
                        if fs.contains(key) {
                            let j = choose|j: int| 0 <= j < fs.len() && fs[j] == key;
                            assert(j == 0);
                        }
                    }
                    crate::admin::lemma_strip_lookup(es, fs, key);
                }
            }
        }
    }
}

/// The recent runs of a model, as the performance command shows them.
pub fn shape_performance(data: &Json, include_tests: bool) -> (r: Json)
    ensures
        r@ == performance_v(data@, include_tests),
{
    let path: [&str; 3] = ["environment", "applied", "modelHistoricalRuns"];
    let runs = extract_path(data, &path);
    assert(keys_v(path@) =~= seq!["environment"@, "applied"@, "modelHistoricalRuns"@]);
    proof { lemma_path3(data@, "environment"@, "applied"@, "modelHistoricalRuns"@); }
    if include_tests {
        return runs;
    }
    match &runs {
        Json::Array(a) => {
            proof { lemma_array_view(*a); }
            let tf = vec!["tests"];
            assert(crate::admin::fields_v(tf@) =~= seq!["tests"@]);
            let mut out: Vec<Json> = Vec::new();
            let mut i: usize = 0;
            while i < a.len()
                invariant
                    i <= a@.len(),
                    crate::admin::fields_v(tf@) == seq!["tests"@],
                    out@.len() == i,
                    forall|k: int| 0 <= k < i ==> (#[trigger] out@[k])@ == without_tests_v(a@[k]@),
                decreases a@.len() - i,
            {
                out.push(crate::admin::strip_fields(&a[i], &tf));
                i += 1;
            }
            let r = array_of(out);
            assert(r@->Array_0 =~= performance_v(data@, include_tests)->Array_0);
            r
        },
        _ => runs,
    }
}

// ---------------------------------------------------------------------------
// Sources, exposures and macros
// ---------------------------------------------------------------------------

/// The base variables for listing sources: all, or those of one source name.
pub fn sources_vars(source_name: Option<&str>) -> (r: Json)
    ensures
        r@ == JsonV::Object(seq![("sourcesFilter"@, match source_name {
            Some(n) => JsonV::Object(seq![("sourceNames"@, JsonV::Array(seq![JsonV::Str(n@)]))]),
            None => JsonV::Object(Seq::empty()),
        })]),
{
    let filter = match source_name {
        Some(n) => {
            let v = vec![Json::str(n)];
            assert(vview(v@) =~= seq![JsonV::Str(n@)]);
            let f = object_of(vec![entry("sourceNames", array_of(v))]);
            assert(f@->Object_0 =~= seq![("sourceNames"@, JsonV::Array(seq![JsonV::Str(n@)]))]);
            f
        },
        None => Json::empty_object(),
    };
    let ghost fv = filter@;
    let r = object_of(vec![entry("sourcesFilter", filter)]);
    assert(r@->Object_0 =~= seq![("sourcesFilter"@, fv)]);
    r
}

/// The base variables for listing macros: resources of type `Macro`.
pub fn macros_vars() -> (r: Json)
    ensures
        r@ == JsonV::Object(seq![("filter"@, JsonV::Object(seq![("types"@, JsonV::Array(seq![JsonV::Str("Macro"@)]))]))]),
{
    let v = vec![Json::str("Macro")];
    assert(vview(v@) =~= seq![JsonV::Str("Macro"@)]);
    let f = object_of(vec![entry("types", array_of(v))]);
    assert(f@->Object_0 =~= seq![("types"@, JsonV::Array(seq![JsonV::Str("Macro"@)]))]);
    let ghost fv = f@;
    let r = object_of(vec![entry("filter", f)]);
    assert(r@->Object_0 =~= seq![("filter"@, fv)]);
    r
}

/// The packages of dbt itself and its adapters.
pub open spec fn builtin_packages_v() -> Seq<Seq<char>> {
    seq!["dbt"@, "dbt_postgres"@, "dbt_redshift"@, "dbt_snowflake"@, "dbt_bigquery"@, "dbt_spark"@, "dbt_athena"@]
}

/// The package is one of dbt's own, ignoring ASCII case.
pub open spec fn is_builtin_v(name: Seq<char>) -> bool {
    exists|i: int| 0 <= i < builtin_packages_v().len() && #[trigger] eq_ascii_nocase(builtin_packages_v()[i], name)
}

/// Whether a package is one of dbt's own (dbt and its adapters), ignoring
/// ASCII case.
pub fn is_builtin_package(name: &str) -> (r: bool)
    ensures
        r == is_builtin_v(name@),
{
    let pkgs = vec!["dbt", "dbt_postgres", "dbt_redshift", "dbt_snowflake", "dbt_bigquery", "dbt_spark", "dbt_athena"];
    assert(pkgs@.map_values(|p: &str| p@) =~= builtin_packages_v());
    let nc = crate::text::chars_of(name);
    let mut i: usize = 0;
    while i < pkgs.len()
        invariant
            i <= pkgs@.len(),
            pkgs@.map_values(|p: &str| p@) == builtin_packages_v(),
            nc@ == name@,
            forall|k: int| 0 <= k < i ==> !eq_ascii_nocase(#[trigger] builtin_packages_v()[k], name@),
        decreases pkgs@.len() - i,
    {
        let pc = crate::text::chars_of(pkgs[i]);
        assert(builtin_packages_v()[i as int] == pkgs@[i as int]@);
        if crate::text::eq_ignore_ascii_case(pc.as_slice(), nc.as_slice()) {
            return true;
        }
        i += 1;
    }
    false
}

/// The package a macro belongs to.
pub open spec fn package_of(m: JsonV) -> Option<Seq<char>> {
    as_str_v(at_v(m, "packageName"@))
}

/// A macro is kept, given its package name lower-cased (`low`) and the
/// lower-cased package asked for (`wanted`): not of dbt's own packages
/// unless asked, and of the package asked for when one is.
pub open spec fn macro_kept_lv(m: JsonV, low: Option<Seq<char>>, wanted: Option<Seq<char>>, include_dbt_packages: bool) -> bool {
    &&& (include_dbt_packages || package_of(m) is None || !is_builtin_v(package_of(m)->0))
    &&& (wanted matches Some(w) ==> (low matches Some(l) && l == w))
}

/// The macros kept, in order, given their lower-cased package names.
pub open spec fn macros_kept_lv(ms: Seq<JsonV>, lows: Seq<Option<Seq<char>>>, wanted: Option<Seq<char>>, include_dbt_packages: bool) -> Seq<JsonV>
    decreases ms.len(),
{
    if ms.len() == 0 {
        Seq::empty()
    } else {
        let rest = macros_kept_lv(ms.drop_last(), lows.drop_last(), wanted, include_dbt_packages);
        if macro_kept_lv(ms.last(), lows[ms.len() - 1], wanted, include_dbt_packages) { rest.push(ms.last()) } else { rest }
    }
}

/// A package name lower-cased, if there is one.
pub open spec fn lower_opt(o: Option<Seq<char>>) -> Option<Seq<char>> {
    match o {
        Some(p) => Some(spec_to_lowercase(p)),
        None => None,
    }
}

/// The lower-cased package names of the macros.
pub open spec fn lowered_packages_v(ms: Seq<JsonV>) -> Seq<Option<Seq<char>>> {
    Seq::new(ms.len(), |i: int| lower_opt(package_of(ms[i])))
}

/// The macros kept by `macros list`: without dbt's own packages unless
/// asked, and only those of one package (ignoring case) when one is named.
pub open spec fn macros_kept_v(ms: Seq<JsonV>, package: Option<Seq<char>>, include_dbt_packages: bool) -> Seq<JsonV> {
    macros_kept_lv(ms, lowered_packages_v(ms), lower_opt(package), include_dbt_packages)
}

/// The model of optional texts.
pub open spec fn opt_texts_v(v: Seq<Option<String>>) -> Seq<Option<Seq<char>>> {
    v.map_values(|o: Option<String>| match o { Some(s) => Some(s@), None => None })
}

/// The macros that `macros list` shows, given their package names
/// lower-cased (`lows`, one per macro) and the lower-cased package asked
/// for, if any.
pub fn filter_macros_lowered(macros: &Vec<Json>, lows: &Vec<Option<String>>, wanted: Option<&str>, include_dbt_packages: bool) -> (r: Vec<Json>)
    requires
        lows@.len() == macros@.len(),
    ensures
        vview(r@) == macros_kept_lv(vview(macros@), opt_texts_v(lows@), match wanted { Some(w) => Some(w@), None => None }, include_dbt_packages),
{
    let ghost mv = vview(macros@);
    let ghost lv = opt_texts_v(lows@);
    let ghost wv = match wanted { Some(w) => Some(w@), None => None::<Seq<char>> };
    let mut out: Vec<Json> = Vec::new();
    let mut i: usize = 0;
    while i < macros.len()
        invariant
            i <= macros@.len(),
            lows@.len() == macros@.len(),
            mv == vview(macros@),
            lv == opt_texts_v(lows@),
            wv == (match wanted { Some(w) => Some(w@), None => None::<Seq<char>> }),
            vview(out@) == macros_kept_lv(mv.take(i as int), lv.take(i as int), wv, include_dbt_packages),
        decreases macros@.len() - i,
    {
        let m = &macros[i];
        assert(mv.take(i + 1).drop_last() =~= mv.take(i as int));
        assert(lv.take(i + 1).drop_last() =~= lv.take(i as int));
        assert(mv.take(i + 1).last() == m@);
        assert(lv.take(i + 1)[i as int] == lv[i as int]);
        let pkg = str_at(m, "packageName");
        let builtin_ok = include_dbt_packages || match pkg {
            Some(p) => !is_builtin_package(p),
            None => true,
        };
        let package_ok = match wanted {
            Some(w) => match &lows[i] {
                Some(l) => crate::text::str_eq(l.as_str(), w),
                None => false,
            },
            None => true,
        };
        if builtin_ok && package_ok {
            let ghost before = vview(out@);
            out.push(clone_json(m));
            assert(vview(out@) =~= before.push(m@));
        }
        i += 1;
    }
    assert(mv.take(macros@.len() as int) =~= mv);
    assert(lv.take(macros@.len() as int) =~= lv);
    out
}

/// The macros that `macros list` shows.
pub fn filter_macros(macros: &Vec<Json>, package: Option<&str>, include_dbt_packages: bool) -> (r: Vec<Json>)
    ensures
        vview(r@) == macros_kept_v(vview(macros@), match package { Some(p) => Some(p@), None => None }, include_dbt_packages),
{
    let ghost mv = vview(macros@);
    let mut lows: Vec<Option<String>> = Vec::new();
    let mut i: usize = 0;
    while i < macros.len()
        invariant
            i <= macros@.len(),
            mv == vview(macros@),
            lows@.len() == i,
            forall|k: int| 0 <= k < i ==> (#[trigger] opt_texts_v(lows@)[k]) == lower_opt(package_of(mv[k])),
        decreases macros@.len() - i,
    {
        assert(mv[i as int] == macros@[i as int]@);
        let low = match str_at(&macros[i], "packageName") {
            Some(p) => Some(to_lowercase(p)),
            None => None,
        };
        let ghost lows_old = lows@;
        lows.push(low);
        proof {
            assert(lows@ == lows_old.push(low));
            assert forall|k: int| 0 <= k < i + 1 implies (#[trigger] opt_texts_v(lows@)[k]) == lower_opt(package_of(mv[k])) by {
                if k < i {
                    assert(lows@[k] == lows_old[k]);
                    assert(opt_texts_v(lows_old)[k] == lower_opt(package_of(mv[k])));
                } else {
                    assert(lows@[k] == low);
                }
            }
        }
        i += 1;
    }
    assert(opt_texts_v(lows@) =~= lowered_packages_v(mv));
    let wanted = match package {
        Some(p) => Some(to_lowercase(p)),
        None => None,
    };
    match &wanted {
        Some(w) => filter_macros_lowered(macros, &lows, Some(w.as_str()), include_dbt_packages),
        None => filter_macros_lowered(macros, &lows, None, include_dbt_packages),
    }
}

/// The package names of the macros.
pub open spec fn packages_v(ms: Seq<JsonV>) -> Set<Seq<char>> {
    Set::new(|p: Seq<char>| exists|i: int| 0 <= i < ms.len() && #[trigger] package_of(ms[i]) == Some(p))
}

/// The distinct package names of the macros, sorted.
pub fn macro_packages(macros: &Vec<Json>) -> (r: Vec<String>)
    ensures
        sorted_texts(r@),
        text_set(r@) == packages_v(vview(macros@)),
{
    let ghost mv = vview(macros@);
    let mut out: Vec<String> = Vec::new();
    let mut i: usize = 0;
    while i < macros.len()
        invariant
            i <= macros@.len(),
            mv == vview(macros@),
            sorted_texts(out@),
            text_set(out@) == packages_v(mv.take(i as int)),
        decreases macros@.len() - i,
    {
        let ghost before = text_set(out@);
        assert(mv[i as int] == macros@[i as int]@);
        if let Some(p) = str_at(&macros[i], "packageName") {
            insert_sorted(&mut out, p);
        }
        assert(text_set(out@) =~= packages_v(mv.take(i + 1))) by {
            assert forall|p: Seq<char>| packages_v(mv.take(i + 1)).contains(p) implies text_set(out@).contains(p) by {
                let j = choose|j: int| 0 <= j < i + 1 && #[trigger] package_of(mv.take(i + 1)[j]) == Some(p);
                if j < i {
                    assert(mv.take(i as int)[j] == mv.take(i + 1)[j]);
                    assert(packages_v(mv.take(i as int)).contains(p));
                }
            }
            assert forall|p: Seq<char>| text_set(out@).contains(p) implies packages_v(mv.take(i + 1)).contains(p) by {
                if before.contains(p) {
                    let j = choose|j: int| 0 <= j < i && #[trigger] package_of(mv.take(i as int)[j]) == Some(p);
                    assert(mv.take(i + 1)[j] == mv.take(i as int)[j]);
                } else {
                    assert(mv.take(i + 1)[i as int] == mv[i as int]);
                    assert(package_of(mv.take(i + 1)[i as int]) == Some(p));
                }
            }
        }
        i += 1;
    }
    assert(mv.take(macros@.len() as int) =~= mv);
    out
}

// ---------------------------------------------------------------------------
// Resource details
// ---------------------------------------------------------------------------

/// The kinds of resources whose details can be shown.
#[derive(Debug, Clone, Copy, PartialEq, Eq)]
pub enum ResourceType {
    Model,
    Source,
    Exposure,
    Test,
    Seed,
    Snapshot,
    Macro,
    SemanticModel,
}

/// The GraphQL type name of a kind of resource.
pub open spec fn type_name_v(t: ResourceType) -> Seq<char> {
    match t {
        ResourceType::Model => "Model"@,
        ResourceType::Source => "Source"@,
        ResourceType::Exposure => "Exposure"@,
        ResourceType::Test => "Test"@,
        ResourceType::Seed => "Seed"@,
        ResourceType::Snapshot => "Snapshot"@,
        ResourceType::Macro => "Macro"@,
        ResourceType::SemanticModel => "SemanticModel"@,
    }
}

/// The prefix of the unique ids of a kind of resource.
pub open spec fn id_prefix_v(t: ResourceType) -> Seq<char> {
    match t {
        ResourceType::Model => "model"@,
        ResourceType::Source => "source"@,
        ResourceType::Exposure => "exposure"@,
        ResourceType::Test => "test"@,
        ResourceType::Seed => "seed"@,
        ResourceType::Snapshot => "snapshot"@,
        ResourceType::Macro => "macro"@,
        ResourceType::SemanticModel => "semantic_model"@,
    }
}

/// The file holding the details query of a kind of resource.
pub open spec fn query_v(t: ResourceType) -> Seq<char> {
    match t {
        ResourceType::Model => "get_model_details.graphql"@,
        ResourceType::Source => "get_source_details.graphql"@,
        ResourceType::Exposure => "get_exposure_details.graphql"@,
        ResourceType::Test => "get_test_details.graphql"@,
        ResourceType::Seed => "get_seed_details.graphql"@,
        ResourceType::Snapshot => "get_snapshot_details.graphql"@,
        ResourceType::Macro => "get_macro_details.graphql"@,
        ResourceType::SemanticModel => "get_semantic_model_details.graphql"@,
    }
}

impl ResourceType {
    /// The details query of this kind of resource, by the name of the file
    /// that holds it.
    pub fn query(&self) -> (r: &'static str)
        ensures
            r@ == query_v(*self),
    {
        match self {
            ResourceType::Model => "get_model_details.graphql",
            ResourceType::Source => "get_source_details.graphql",
            ResourceType::Exposure => "get_exposure_details.graphql",
            ResourceType::Test => "get_test_details.graphql",
            ResourceType::Seed => "get_seed_details.graphql",
            ResourceType::Snapshot => "get_snapshot_details.graphql",
            ResourceType::Macro => "get_macro_details.graphql",
            ResourceType::SemanticModel => "get_semantic_model_details.graphql",
        }
    }

    /// The GraphQL type name of this kind of resource.
    pub fn graphql_type_name(&self) -> (r: &'static str)
        ensures
            r@ == type_name_v(*self),
    {
        match self {
            ResourceType::Model => "Model",
            ResourceType::Source => "Source",
            ResourceType::Exposure => "Exposure",
            ResourceType::Test => "Test",
            ResourceType::Seed => "Seed",
            ResourceType::Snapshot => "Snapshot",
            ResourceType::Macro => "Macro",
            ResourceType::SemanticModel => "SemanticModel",
        }
    }

    /// The prefix of the unique ids of this kind of resource.
    pub fn id_prefix(&self) -> (r: &'static str)
        ensures
            r@ == id_prefix_v(*self),
    {
        match self {
            ResourceType::Model => "model",
            ResourceType::Source => "source",
            ResourceType::Exposure => "exposure",
            ResourceType::Test => "test",
            ResourceType::Seed => "seed",
            ResourceType::Snapshot => "snapshot",
            ResourceType::Macro => "macro",
            ResourceType::SemanticModel => "semantic_model",
        }
    }
}

/// How a resource identifier is looked up: trimmed and lower-cased.
pub fn details_identifier(identifier: &str) -> (r: String)
    ensures
        r@ == spec_to_lowercase(spec_trim(identifier@)),
{
    let t = crate::text::trim(identifier);
    to_lowercase(t.as_str())
}

/// The variables for listing the packages of one kind of resource.
pub fn packages_vars(resource: &str, environment_id: u64) -> (r: Json)
    ensures
        r@ == JsonV::Object(seq![("environmentId"@, u64_v(environment_id)), ("resource"@, JsonV::Str(resource@))]),
{
    let r = object_of(vec![
        entry("environmentId", Json::from_u64(environment_id)),
        entry("resource", Json::str(resource)),
    ]);
    assert(r@->Object_0 =~= seq![("environmentId"@, u64_v(environment_id)), ("resource"@, JsonV::Str(resource@))]);
    r
}

/// The packages an answer lists.
pub open spec fn listed_packages_v(data: JsonV) -> Seq<JsonV> {
    match as_array_v(at_v(at_v(at_v(data, "environment"@), "applied"@), "packages"@)) {
        Some(a) => a,
        None => Seq::empty(),
    }
}

/// The package names, skipping entries that are not strings.
pub open spec fn package_names_v(a: Seq<JsonV>) -> Seq<Seq<char>>
    decreases a.len(),
{
    if a.len() == 0 {
        Seq::empty()
    } else {
        let rest = package_names_v(a.drop_last());
        match as_str_v(a.last()) {
            Some(s) => rest.push(s),
            None => rest,
        }
    }
}

/// The message given when no package is known.
pub open spec fn no_packages_msg() -> Seq<char> {
    "No packages found for this environment"@
}

fn package_names(data: &Json) -> (r: Vec<String>)
    ensures
        crate::admin::strings_v(r@) == package_names_v(listed_packages_v(data@)),
{
    let path: [&str; 3] = ["environment", "applied", "packages"];
    let pk = extract_path(data, &path);
    assert(keys_v(path@) =~= seq!["environment"@, "applied"@, "packages"@]);
    proof { lemma_path3(data@, "environment"@, "applied"@, "packages"@); }
    let mut out: Vec<String> = Vec::new();
    match &pk {
        Json::Array(a) => {
            let ghost av = vview(a@);
            proof { lemma_array_view(*a); assert(av =~= listed_packages_v(data@)); }
            let mut i: usize = 0;
            while i < a.len()
                invariant
                    i <= a@.len(),
                    av == vview(a@),
                    crate::admin::strings_v(out@) == package_names_v(av.take(i as int)),
                decreases a@.len() - i,
            {
                assert(av.take(i + 1).drop_last() =~= av.take(i as int));
                assert(av.take(i + 1).last() == a@[i as int]@);
                if let Some(s) = a[i].as_str() {
                    let ghost before = crate::admin::strings_v(out@);
                    out.push(owned(s));
                    assert(crate::admin::strings_v(out@) =~= before.push(s@));
                }
                i += 1;
            }
            assert(av.take(a@.len() as int) =~= av);
        },
        _ => {
            assert(listed_packages_v(data@) =~= Seq::<JsonV>::empty());
            assert(crate::admin::strings_v(out@) =~= Seq::<Seq<char>>::empty());
        },
    }
    out
}

/// The unique ids a name may stand for: `{prefix}.{package}.{name}` for
/// each package listed for macros, then for models.
pub open spec fn candidate_ids_v(macro_data: JsonV, model_data: JsonV, t: ResourceType, name: Seq<char>) -> Seq<Seq<char>> {
    let pkgs = package_names_v(listed_packages_v(macro_data)) + package_names_v(listed_packages_v(model_data));
    Seq::new(pkgs.len(), |i: int| id_prefix_v(t) + "."@ + pkgs[i] + "."@ + name)
}

/// Each candidate for a name is the resource's id prefix, a dot, one of the
/// listed packages (those of macros, then of models, one candidate each, in
/// order), a dot and the name.
pub proof fn law_candidate_ids_shape(macro_data: JsonV, model_data: JsonV, t: ResourceType, name: Seq<char>)
    ensures
        ({
            let c = candidate_ids_v(macro_data, model_data, t, name);
            let pkgs = package_names_v(listed_packages_v(macro_data)) + package_names_v(listed_packages_v(model_data));
            &&& c.len() == pkgs.len()
            &&& forall|i: int| 0 <= i < c.len() ==> is_prefix(id_prefix_v(t) + "."@ + pkgs[i] + "."@, #[trigger] c[i])
                && crate::text::is_suffix("."@ + name, c[i])
                && c[i].len() == id_prefix_v(t).len() + pkgs[i].len() + name.len() + 2
        }),
{
    let c = candidate_ids_v(macro_data, model_data, t, name);
    let pkgs = package_names_v(listed_packages_v(macro_data)) + package_names_v(listed_packages_v(model_data));
    reveal_strlit(".");
    assert forall|i: int| 0 <= i < c.len() implies is_prefix(id_prefix_v(t) + "."@ + pkgs[i] + "."@, #[trigger] c[i])
        && crate::text::is_suffix("."@ + name, c[i])
        && c[i].len() == id_prefix_v(t).len() + pkgs[i].len() + name.len() + 2 by {
        let head = id_prefix_v(t) + "."@ + pkgs[i] + "."@;
        assert(c[i] == head + name);
        assert(c[i].subrange(0, head.len() as int) =~= head);
        assert(c[i].subrange(c[i].len() - ("."@ + name).len(), c[i].len() as int) =~= "."@ + name);
    }
}

/// Resolves a plain name to candidate unique ids from the packages of the
/// environment; fails when no package is known.
pub fn candidate_ids(macro_data: &Json, model_data: &Json, t: &ResourceType, name: &str) -> (r: Result<Vec<String>, DbtpError>)
    ensures
        r matches Ok(v) ==> crate::admin::strings_v(v@) == candidate_ids_v(macro_data@, model_data@, *t, name@) && v@.len() > 0,
        r matches Err(e) ==> candidate_ids_v(macro_data@, model_data@, *t, name@).len() == 0
            && graphql_error(e, no_packages_msg()),
{
    let mut pkgs = package_names(macro_data);
    let mut more = package_names(model_data);
    let ghost pv = crate::admin::strings_v(pkgs@) + crate::admin::strings_v(more@);
    pkgs.append(&mut more);
    assert(crate::admin::strings_v(pkgs@) =~= pv);
    if pkgs.len() == 0 {
        return Err(DbtpError::graphql("No packages found for this environment"));
    }
    let prefix = t.id_prefix();
    let mut out: Vec<String> = Vec::new();
    let mut i: usize = 0;
    while i < pkgs.len()
        invariant
            i <= pkgs@.len(),
            prefix@ == id_prefix_v(*t),
            out@.len() == i,
            forall|k: int| 0 <= k < i ==> (#[trigger] out@[k])@ == id_prefix_v(*t) + "."@ + pkgs@[k]@ + "."@ + name@,
        decreases pkgs@.len() - i,
    {
        let a = join3(prefix, ".", pkgs[i].as_str());
        out.push(join3(a.as_str(), ".", name));
        i += 1;
    }
    assert(crate::admin::strings_v(out@) =~= candidate_ids_v(macro_data@, model_data@, *t, name@));
    Ok(out)
}

/// The variables of the details query for some unique ids.
pub open spec fn details_vars_v(environment_id: u64, t: ResourceType, ids: Seq<String>) -> JsonV {
    JsonV::Object(seq![
        ("environmentId"@, u64_v(environment_id)),
        ("filter"@, JsonV::Object(seq![
            ("types"@, JsonV::Array(seq![JsonV::Str(type_name_v(t))])),
            ("uniqueIds"@, str_array_v(ids)),
        ])),
        ("first"@, u64_v(ids.len() as u64)),
    ])
}

/// The variables of the details query.
pub fn details_vars(environment_id: u64, t: &ResourceType, ids: &Vec<String>) -> (r: Json)
    ensures
        r@ == details_vars_v(environment_id, *t, ids@),
{
    let tv = vec![Json::str(t.graphql_type_name())];
    assert(vview(tv@) =~= seq![JsonV::Str(type_name_v(*t))]);
    let filter = object_of(vec![entry("types", array_of(tv)), entry("uniqueIds", string_array(ids))]);
    let ghost fv = filter@;
    assert(fv->Object_0 =~= details_vars_v(environment_id, *t, ids@)->Object_0[1].1->Object_0);
    let r = object_of(vec![
        entry("environmentId", Json::from_u64(environment_id)),
        entry("filter", filter),
        entry("first", Json::from_u64(ids.len() as u64)),
    ]);
    assert(r@->Object_0 =~= details_vars_v(environment_id, *t, ids@)->Object_0);
    r
}

/// The resources an answer to the details query lists.
pub open spec fn detail_nodes_v(data: JsonV) -> Seq<JsonV> {
    nodes_of_v(path_v(data, seq!["environment"@, "applied"@, "resources"@, "edges"@]))
}

/// The message given when no resource was found.
pub open spec fn not_found_msg(t: ResourceType, identifier: Seq<char>) -> Seq<char> {
    type_name_v(t) + " '"@ + identifier + "' not found"@
}

/// The details shown: the one resource found, or all of them when several
/// were; a GraphQL error when none was.
pub fn details_result(data: &Json, t: &ResourceType, identifier: &str) -> (r: Result<Json, DbtpError>)
    ensures
        detail_nodes_v(data@).len() == 0 ==> (r matches Err(e) && graphql_error(e, not_found_msg(*t, identifier@))),
        detail_nodes_v(data@).len() == 1 ==> (r matches Ok(v) && v@ == detail_nodes_v(data@)[0]),
        detail_nodes_v(data@).len() > 1 ==> (r matches Ok(v) && v@ == JsonV::Array(detail_nodes_v(data@))),
{
    let path: [&str; 4] = ["environment", "applied", "resources", "edges"];
    let edges = extract_path(data, &path);
    assert(keys_v(path@) =~= seq!["environment"@, "applied"@, "resources"@, "edges"@]);
    let mut nodes = extract_nodes(&edges);
    if nodes.len() == 0 {
        let a = join3(t.graphql_type_name(), " '", identifier);
        let msg = join2(a.as_str(), "' not found");
        return Err(DbtpError::GraphQL(msg));
    }
    if nodes.len() == 1 {
        let n = nodes.remove(0);
        return Ok(n);
    }
    Ok(array_of(nodes))
}

/// The message given when a name matches several models.
pub open spec fn many_models_msg(identifier: Seq<char>, ids: Seq<Seq<char>>) -> Seq<char> {
    "Multiple models found for '"@ + identifier + "'. Provide a unique_id: "@ + join_v(ids, ", "@)
}

/// The unique ids among a list of resources.
pub open spec fn unique_ids_v(a: Seq<JsonV>) -> Seq<Seq<char>>
    decreases a.len(),
{
    if a.len() == 0 {
        Seq::empty()
    } else {
        let rest = unique_ids_v(a.drop_last());
        match crate::lineage::uid_of(a.last()) {
            Some(u) => rest.push(u),
            None => rest,
        }
    }
}

/// The unique id of the model that the details of a name describe.
pub open spec fn model_id_v(details: JsonV, identifier: Seq<char>) -> Result<Seq<char>, Seq<char>> {
    let not_found = "Model '"@ + identifier + "' not found"@;
    match details {
        JsonV::Array(a) => if a.len() > 1 {
            Err(many_models_msg(identifier, unique_ids_v(a)))
        } else if a.len() == 1 && crate::lineage::uid_of(a[0]) is Some {
            Ok(crate::lineage::uid_of(a[0])->0)
        } else {
            Err(not_found)
        },
        other => match crate::lineage::uid_of(other) {
            Some(u) => Ok(u),
            None => Err(not_found),
        },
    }
}

/// The unique id of the model behind the details of a name: the details
/// must name exactly one model with a unique id.
pub fn unique_id_from_details(details: &Json, identifier: &str) -> (r: Result<String, DbtpError>)
    ensures
        match model_id_v(details@, identifier@) {
            Ok(u) => r matches Ok(s) && s@ == u,
            Err(m) => r matches Err(e) && graphql_error(e, m),
        },
{
    let not_found = join3("Model '", identifier, "' not found");
    match details {
        Json::Array(a) => {
            proof { lemma_array_view(*a); }
            let ghost av = vview(a@);
            assert(av =~= json_view(Json::Array(*a))->Array_0);
            if a.len() > 1 {
                let mut joined = String::new();
                let mut count: usize = 0;
                let mut i: usize = 0;
                while i < a.len()
                    invariant
                        i <= a@.len(),
                        av == vview(a@),
                        count == unique_ids_v(av.take(i as int)).len(),
                        count <= i,
                        joined@ == join_v(unique_ids_v(av.take(i as int)), ", "@),
                    decreases a@.len() - i,
                {
                    assert(av.take(i + 1).drop_last() =~= av.take(i as int));
                    assert(av.take(i + 1).last() == a@[i as int]@);
                    let ghost prev = unique_ids_v(av.take(i as int));
                    if let Some(u) = crate::lineage::node_uid(&a[i]) {
                        assert(prev.push(u@).drop_last() =~= prev);
                        if count == 0 {
                            joined = owned(u);
                        } else {
                            joined = join3(joined.as_str(), ", ", u);
                        }
                        count += 1;
                    }
                    i += 1;
                }
                assert(av.take(a@.len() as int) =~= av);
                let h = join3("Multiple models found for '", identifier, "'. Provide a unique_id: ");
                return Err(DbtpError::GraphQL(join2(h.as_str(), joined.as_str())));
            }
            if a.len() == 1 {
                if let Some(u) = crate::lineage::node_uid(&a[0]) {
                    return Ok(owned(u));
                }
            }
            Err(DbtpError::GraphQL(not_found))
        },
        other => match crate::lineage::node_uid(other) {
            Some(u) => Ok(owned(u)),
            None => Err(DbtpError::GraphQL(not_found)),
        },
    }
}

} // verus!
