//! The Semantic Layer API: its address, the inputs of metric queries, and
//! the polling of query results.
use vstd::prelude::*;

use crate::config::{opt_v, Config};
use crate::error::{config_error, graphql_error, DbtpError};
use crate::json::{
    array_of, as_str_v, at, at_v, clone_json, entries_v, entry, get_v, group_json_view, i64_v, object_of,
    str_at, u64_v, vview, Json, JsonV,
};
use crate::text::{
    find_char, index_of_char, lemma_index_of_char, is_prefix, is_suffix, join2, join3, owned, slice, spec_parse_u64, spec_to_lowercase,
    spec_to_uppercase, str_eq, string_of, strip_prefix, strip_suffix, to_lowercase, to_uppercase,
    trim_end_char, trim_end_matches, chars_of,
};

verus! {

broadcast use group_json_view;

// ---------------------------------------------------------------------------
// The address
// ---------------------------------------------------------------------------

/// The scheme of a host and the rest of it: `https://` when it names none.
pub open spec fn split_scheme_v(host: Seq<char>) -> (Seq<char>, Seq<char>) {
    if is_prefix("https://"@, host) {
        ("https://"@, host.subrange("https://"@.len() as int, host.len() as int))
    } else if is_prefix("http://"@, host) {
        ("http://"@, host.subrange("http://"@.len() as int, host.len() as int))
    } else {
        ("https://"@, host)
    }
}

/// The Semantic Layer host for a dbt Cloud host. A multi-tenant host
/// `{slug}.{region}.dbt.com` becomes `{slug}.semantic-layer.{region}.dbt.com`;
/// any other host gets `semantic-layer.` in front.
pub open spec fn semantic_layer_url_v(host: Seq<char>) -> Seq<char> {
    let (scheme, rest) = split_scheme_v(trim_end_char(host, '/'));
    let multi = is_suffix(".dbt.com"@, rest) && rest.subrange(0, rest.len() - ".dbt.com"@.len()).contains('.');
    if multi {
        let dot = index_of_char(rest, '.');
        scheme + rest.subrange(0, dot) + ".semantic-layer."@ + rest.subrange(dot + 1, rest.len() as int)
    } else {
        scheme + "semantic-layer."@ + rest
    }
}

/// Constructs the Semantic Layer API base URL from a dbt Cloud host.
///
/// Multi-tenant: `https://tk626.us1.dbt.com` gives `https://tk626.semantic-layer.us1.dbt.com`;
/// legacy: `https://cloud.getdbt.com` gives `https://semantic-layer.cloud.getdbt.com`.
pub fn semantic_layer_url(host: &str) -> (r: String)
    ensures
        r@ == semantic_layer_url_v(host@),
{
    let h = trim_end_matches(host, '/');
    let (scheme, rest): (&str, String) = match strip_prefix(h.as_str(), "https://") {
        Some(r) => ("https://", r),
        None => match strip_prefix(h.as_str(), "http://") {
            Some(r) => ("http://", r),
            None => ("https://", h.clone()),
        },
    };
    assert(scheme@ == split_scheme_v(h@).0 && rest@ == split_scheme_v(h@).1);
    if let Some(prefix) = strip_suffix(rest.as_str(), ".dbt.com") {
        let pc = chars_of(prefix.as_str());
        if crate::text::contains_char(pc.as_slice(), '.') {
            let rc = chars_of(rest.as_str());
            let found = find_char(rc.as_slice(), '.');
            proof {
                if found is None {
                    let k = choose|k: int| 0 <= k < pc@.len() && pc@[k] == '.';
                    assert(rc@[k] == '.');
                    assert(false);
                }
            }
            let dot = found.unwrap();
            assert(dot < rc.len());
            proof { lemma_index_of_char(rc@, '.', dot as int); }
            let slug = slice(rc.as_slice(), 0, dot);
            let remainder = slice(rc.as_slice(), dot + 1, rc.len());
            let s1 = string_of(slug.as_slice());
            let s2 = string_of(remainder.as_slice());
            let a = join3(scheme, s1.as_str(), ".semantic-layer.");
            return join2(a.as_str(), s2.as_str());
        }
    }
    join3(scheme, "semantic-layer.", rest.as_str())
}

/// A Semantic Layer host always names a scheme.
pub proof fn law_semantic_layer_url_scheme(host: Seq<char>)
    ensures
        is_prefix("https://"@, semantic_layer_url_v(host)) || is_prefix("http://"@, semantic_layer_url_v(host)),
{
    let (scheme, rest) = split_scheme_v(trim_end_char(host, '/'));
    let u = semantic_layer_url_v(host);
    assert(u.subrange(0, scheme.len() as int) =~= scheme);
}

/// Trailing slashes on a host make no difference to its Semantic Layer
/// host.
pub proof fn law_semantic_layer_url_trailing_slashes(host: Seq<char>)
    ensures
        semantic_layer_url_v(host) == semantic_layer_url_v(trim_end_char(host, '/')),
{
    crate::text::lemma_trim_end_char_idem(host, '/');
}

/// The message given when a Semantic Layer command has no environment.
pub open spec fn semantic_env_msg() -> Seq<char> {
    "environment_id is required for Semantic Layer commands. Set via --environment-id, DBTP_ENVIRONMENT_ID, or config profile."@
}

/// The environment a Semantic Layer command runs against.
pub fn require_env_id(config: &Config) -> (r: Result<u64, DbtpError>)
    ensures
        r matches Ok(id) ==> config.environment_id matches Some(s) && spec_parse_u64(s@) == Some(id),
        r matches Err(e) ==> (match config.environment_id {
            Some(s) => spec_parse_u64(s@) is None,
            None => true,
        }) && config_error(e, semantic_env_msg()),
{
    match config.environment_id_u64() {
        Some(id) => Ok(id),
        None => Err(DbtpError::config(
            "environment_id is required for Semantic Layer commands. Set via --environment-id, DBTP_ENVIRONMENT_ID, or config profile.",
        )),
    }
}

// ---------------------------------------------------------------------------
// Shapes of the API
// ---------------------------------------------------------------------------

/// A metric.
#[derive(Debug, Clone, PartialEq)]
pub struct Metric {
    pub name: String,
    pub description: Option<String>,
    pub kind: Option<String>,
    pub label: Option<String>,
}

/// A saved query.
#[derive(Debug, Clone, PartialEq)]
pub struct SavedQuery {
    pub name: String,
    pub description: Option<String>,
    pub label: Option<String>,
    pub query_params: Option<SavedQueryParams>,
}

/// The parameters of a saved query.
#[derive(Debug, Clone, PartialEq)]
pub struct SavedQueryParams {
    pub metrics: Option<Vec<MetricInput>>,
    pub group_by: Option<Vec<GroupByInput>>,
    pub where_clauses: Option<Vec<WhereClause>>,
}

/// A filter of a saved query.
#[derive(Debug, Clone, PartialEq)]
pub struct WhereClause {
    pub where_sql_template: String,
}

/// A metric named in a query.
#[derive(Debug, Clone, PartialEq)]
pub struct MetricInput {
    pub name: String,
}

/// A dimension to group by, with an optional time grain and date part.
#[derive(Debug, Clone, PartialEq)]
pub struct GroupByInput {
    pub name: String,
    pub grain: Option<String>,
    pub date_part: Option<String>,
}

/// An ordering of query results, by a metric or a group-by.
#[derive(Debug, Clone, PartialEq)]
pub struct OrderByInput {
    pub metric: Option<MetricInput>,
    pub group_by: Option<GroupByInput>,
    pub descending: Option<bool>,
}

/// A SQL filter of a query.
#[derive(Debug, Clone, PartialEq)]
pub struct WhereInput {
    pub sql: String,
}

/// A dimension.
#[derive(Debug, Clone, PartialEq)]
pub struct Dimension {
    pub name: String,
    pub description: Option<String>,
    pub kind: Option<String>,
    pub label: Option<String>,
    pub queryable_granularities: Option<Vec<String>>,
}

/// An entity.
#[derive(Debug, Clone, PartialEq)]
pub struct Entity {
    pub name: String,
    pub description: Option<String>,
    pub kind: Option<String>,
}

/// A measure.
#[derive(Debug, Clone, PartialEq)]
pub struct Measure {
    pub name: String,
    pub agg: Option<String>,
    pub agg_time_dimension: Option<String>,
    pub expr: Option<String>,
}

/// One page of the results of a query.
#[derive(Debug, Clone, PartialEq)]
pub struct QueryPage {
    pub arrow_result: Option<String>,
    pub error: Option<String>,
    pub query_id: Option<String>,
    pub sql: Option<String>,
    pub status: String,
    pub total_pages: Option<i64>,
}

/// An optional entry of an object.
pub open spec fn opt_entry(key: Seq<char>, v: Option<JsonV>) -> Seq<(Seq<char>, JsonV)> {
    match v {
        Some(x) => seq![(key, x)],
        None => Seq::empty(),
    }
}

/// An optional text as a document.
pub open spec fn opt_str_v(o: Option<String>) -> Option<JsonV> {
    match o {
        Some(s) => Some(JsonV::Str(s@)),
        None => None,
    }
}

/// `{"name": ..}`.
pub open spec fn metric_input_v(m: MetricInput) -> JsonV {
    JsonV::Object(seq![("name"@, JsonV::Str(m.name@))])
}

/// `{"datePart": .., "grain": .., "name": ..}`, leaving out what is not set.
pub open spec fn group_by_v(g: GroupByInput) -> JsonV {
    JsonV::Object(opt_entry("datePart"@, opt_str_v(g.date_part)) + opt_entry("grain"@, opt_str_v(g.grain))
        + seq![("name"@, JsonV::Str(g.name@))])
}

/// `{"descending": .., "groupBy": .., "metric": ..}`, leaving out what is not set.
pub open spec fn order_by_v(o: OrderByInput) -> JsonV {
    JsonV::Object(
        opt_entry("descending"@, match o.descending { Some(b) => Some(JsonV::Bool(b)), None => None })
        + opt_entry("groupBy"@, match o.group_by { Some(g) => Some(group_by_v(g)), None => None })
        + opt_entry("metric"@, match o.metric { Some(m) => Some(metric_input_v(m)), None => None }))
}

/// `{"sql": ..}`.
pub open spec fn where_input_v(w: WhereInput) -> JsonV {
    JsonV::Object(seq![("sql"@, JsonV::Str(w.sql@))])
}

fn push_opt_str(es: &mut Vec<(String, Json)>, key: &str, v: &Option<String>)
    ensures
        entries_v(final(es)@) == entries_v(old(es)@) + opt_entry(key@, opt_str_v(*v)),
{
    let ghost before = entries_v(es@);
    match v {
        Some(s) => {
            es.push(entry(key, Json::str(s.as_str())));
            assert(entries_v(es@) =~= before + seq![(key@, JsonV::Str(s@))]);
        },
        None => {
            assert(entries_v(es@) =~= before + Seq::empty());
        },
    }
}

impl MetricInput {
    /// The document this input is sent as.
    pub fn to_json(&self) -> (r: Json)
        ensures
            r@ == metric_input_v(*self),
    {
        let r = object_of(vec![entry("name", Json::str(self.name.as_str()))]);
        assert(r@->Object_0 =~= metric_input_v(*self)->Object_0);
        r
    }
}

impl GroupByInput {
    /// The document this input is sent as.
    pub fn to_json(&self) -> (r: Json)
        ensures
            r@ == group_by_v(*self),
    {
        let mut es: Vec<(String, Json)> = Vec::new();
        assert(entries_v(es@) =~= Seq::<(Seq<char>, JsonV)>::empty());
        push_opt_str(&mut es, "datePart", &self.date_part);
        push_opt_str(&mut es, "grain", &self.grain);
        let ghost before = entries_v(es@);
        es.push(entry("name", Json::str(self.name.as_str())));
        assert(entries_v(es@) =~= before + seq![("name"@, JsonV::Str(self.name@))]);
        let r = object_of(es);
        assert(r@->Object_0 =~= group_by_v(*self)->Object_0);
        r
    }

    /// A copy of this input.
    pub fn copy(&self) -> (r: GroupByInput)
        ensures
            r.name@ == self.name@,
            opt_v(r.grain) == opt_v(self.grain),
            opt_v(r.date_part) == opt_v(self.date_part),
            group_by_v(r) == group_by_v(*self),
    {
        GroupByInput {
            name: self.name.clone(),
            grain: match &self.grain { Some(g) => Some(g.clone()), None => None },
            date_part: match &self.date_part { Some(d) => Some(d.clone()), None => None },
        }
    }
}

impl OrderByInput {
    /// The document this input is sent as.
    pub fn to_json(&self) -> (r: Json)
        ensures
            r@ == order_by_v(*self),
    {
        let mut es: Vec<(String, Json)> = Vec::new();
        let ghost e0 = entries_v(es@);
        assert(e0 =~= Seq::<(Seq<char>, JsonV)>::empty());
        match self.descending {
            Some(b) => es.push(entry("descending", Json::Bool(b))),
            None => {},
        }
        let ghost e1 = entries_v(es@);
        assert(e1 =~= e0 + opt_entry("descending"@, match self.descending { Some(b) => Some(JsonV::Bool(b)), None => None }));
        match &self.group_by {
            Some(g) => es.push(entry("groupBy", g.to_json())),
            None => {},
        }
        let ghost e2 = entries_v(es@);
        assert(e2 =~= e1 + opt_entry("groupBy"@, match self.group_by { Some(g) => Some(group_by_v(g)), None => None }));
        match &self.metric {
            Some(m) => es.push(entry("metric", m.to_json())),
            None => {},
        }
        assert(entries_v(es@) =~= e2 + opt_entry("metric"@, match self.metric { Some(m) => Some(metric_input_v(m)), None => None }));
        let r = object_of(es);
        assert(r@->Object_0 =~= order_by_v(*self)->Object_0);
        r
    }
}

impl WhereInput {
    /// The document this input is sent as.
    pub fn to_json(&self) -> (r: Json)
        ensures
            r@ == where_input_v(*self),
    {
        let r = object_of(vec![entry("sql", Json::str(self.sql.as_str()))]);
        assert(r@->Object_0 =~= where_input_v(*self)->Object_0);
        r
    }
}

// ---------------------------------------------------------------------------
// Building query inputs
// ---------------------------------------------------------------------------

/// The time grain of a group-by: given only for `metric_time`, upper-cased.
pub open spec fn grain_for_v(name: Seq<char>, grain: Option<Seq<char>>) -> Option<Seq<char>> {
    if name == "metric_time"@ {
        match grain {
            Some(g) => Some(spec_to_uppercase(g)),
            None => None,
        }
    } else {
        None
    }
}

/// The group-by inputs for dimension names; the grain applies to `metric_time`.
pub fn build_group_by(names: &Vec<String>, grain: &Option<String>) -> (r: Vec<GroupByInput>)
    ensures
        r@.len() == names@.len(),
        forall|i: int| 0 <= i < r@.len() ==> (#[trigger] r@[i]).name@ == names@[i]@
            && opt_v(r@[i].grain) == grain_for_v(names@[i]@, opt_v(*grain))
            && r@[i].date_part is None,
{
    let mut out: Vec<GroupByInput> = Vec::new();
    let mut i: usize = 0;
    while i < names.len()
        invariant
            i <= names@.len(),
            out@.len() == i,
            forall|k: int| 0 <= k < i ==> (#[trigger] out@[k]).name@ == names@[k]@
                && opt_v(out@[k].grain) == grain_for_v(names@[k]@, opt_v(*grain))
                && out@[k].date_part is None,
        decreases names@.len() - i,
    {
        let name = &names[i];
        let g = if str_eq(name.as_str(), "metric_time") {
            match grain {
                Some(x) => Some(to_uppercase(x.as_str())),
                None => None,
            }
        } else {
            None
        };
        out.push(GroupByInput { name: name.clone(), grain: g, date_part: None });
        i += 1;
    }
    out
}

/// The name ordered by and whether descending: a leading `-` means descending.
pub open spec fn order_name_v(s: Seq<char>) -> (Seq<char>, bool) {
    if s.len() > 0 && s[0] == '-' {
        (s.drop_first(), true)
    } else {
        (s, false)
    }
}

/// The first group-by input with the given name.
pub open spec fn first_group_by(gbs: Seq<GroupByInput>, name: Seq<char>) -> Option<GroupByInput>
    decreases gbs.len(),
{
    if gbs.len() == 0 {
        None
    } else if gbs[0].name@ == name {
        Some(gbs[0])
    } else {
        first_group_by(gbs.drop_first(), name)
    }
}

/// What an `--order-by` field is sent as: an ordering by the metric of
/// that name, else by the group-by of that name (as it was built), else by
/// a plain group-by of that name.
pub open spec fn order_for_v(s: Seq<char>, metrics: Seq<Seq<char>>, gbs: Seq<GroupByInput>) -> JsonV {
    let (name, desc) = order_name_v(s);
    if metrics.contains(name) {
        JsonV::Object(seq![
            ("descending"@, JsonV::Bool(desc)),
            ("metric"@, JsonV::Object(seq![("name"@, JsonV::Str(name))])),
        ])
    } else {
        JsonV::Object(seq![
            ("descending"@, JsonV::Bool(desc)),
            ("groupBy"@, match first_group_by(gbs, name) {
                Some(g) => group_by_v(g),
                None => JsonV::Object(seq![("name"@, JsonV::Str(name))]),
            }),
        ])
    }
}

/// The models of a list of texts.
pub open spec fn names_v(v: Seq<String>) -> Seq<Seq<char>> {
    v.map_values(|s: String| s@)
}

fn find_group_by(gbs: &Vec<GroupByInput>, name: &str) -> (r: Option<GroupByInput>)
    ensures
        match first_group_by(gbs@, name@) {
            Some(g) => r matches Some(x) && group_by_v(x) == group_by_v(g),
            None => r is None,
        },
{
    let mut i: usize = 0;
    assert(gbs@.subrange(0, gbs@.len() as int) =~= gbs@);
    while i < gbs.len()
        invariant
            i <= gbs@.len(),
            first_group_by(gbs@, name@) == first_group_by(gbs@.subrange(i as int, gbs@.len() as int), name@),
        decreases gbs@.len() - i,
    {
        assert(gbs@.subrange(i as int, gbs@.len() as int)[0] == gbs@[i as int]);
        assert(gbs@.subrange(i as int, gbs@.len() as int).drop_first() =~= gbs@.subrange(i + 1, gbs@.len() as int));
        if str_eq(gbs[i].name.as_str(), name) {
            return Some(gbs[i].copy());
        }
        i += 1;
    }
    None
}

fn has_name(v: &Vec<String>, s: &str) -> (r: bool)
    ensures
        r == names_v(v@).contains(s@),
{
    let mut i: usize = 0;
    while i < v.len()
        invariant
            i <= v@.len(),
            forall|k: int| 0 <= k < i ==> v@[k]@ != s@,
        decreases v@.len() - i,
    {
        if str_eq(v[i].as_str(), s) {
            assert(names_v(v@)[i as int] == s@);
            return true;
        }
        i += 1;
    }
    assert(!names_v(v@).contains(s@)) by {
        if names_v(v@).contains(s@) {
            let k = choose|k: int| 0 <= k < names_v(v@).len() && names_v(v@)[k] == s@;
            assert(v@[k]@ == s@);
        }
    }
    false
}

/// The orderings for `--order-by` fields (a leading `-` means descending):
/// a metric of the query is ordered by as a metric, anything else as a
/// group-by.
pub fn build_order_by(order_by: &Vec<String>, metrics: &Vec<String>, group_by_inputs: &Vec<GroupByInput>) -> (r: Vec<OrderByInput>)
    ensures
        r@.len() == order_by@.len(),
        forall|i: int| 0 <= i < r@.len() ==>
            order_by_v(#[trigger] r@[i]) == order_for_v(order_by@[i]@, names_v(metrics@), group_by_inputs@),
{
    let mut out: Vec<OrderByInput> = Vec::new();
    let mut i: usize = 0;
    while i < order_by.len()
        invariant
            i <= order_by@.len(),
            out@.len() == i,
            forall|k: int| 0 <= k < i ==>
                order_by_v(#[trigger] out@[k]) == order_for_v(order_by@[k]@, names_v(metrics@), group_by_inputs@),
        decreases order_by@.len() - i,
    {
        let s = &order_by[i];
        let (name, desc): (String, bool) = match strip_prefix(s.as_str(), "-") {
            Some(rest) => (rest, true),
            None => (s.clone(), false),
        };
        proof {
            reveal_strlit("-");
            assert("-"@.len() == 1 && "-"@[0] == '-');
            if s@.len() > 0 && s@[0] == '-' {
                assert(s@.subrange(0, 1) =~= "-"@);
                assert(is_prefix("-"@, s@));
                assert(s@.subrange(1, s@.len() as int) =~= s@.drop_first());
            }
            if is_prefix("-"@, s@) {
                assert(s@.subrange(0, 1)[0] == s@[0]);
                assert(s@.subrange(1, s@.len() as int) =~= s@.drop_first());
            }
        }
        assert(name@ == order_name_v(s@).0 && desc == order_name_v(s@).1);
        let item = if has_name(metrics, name.as_str()) {
            OrderByInput { metric: Some(MetricInput { name }), group_by: None, descending: Some(desc) }
        } else {
            let gb = match find_group_by(group_by_inputs, name.as_str()) {
                Some(g) => g,
                None => GroupByInput { name, grain: None, date_part: None },
            };
            OrderByInput { metric: None, group_by: Some(gb), descending: Some(desc) }
        };
        proof {
            let o = item;
            assert(order_by_v(o)->Object_0 =~= order_for_v(s@, names_v(metrics@), group_by_inputs@)->Object_0) by {
                if o.group_by is Some {
                    let g = o.group_by->0;
                    if first_group_by(group_by_inputs@, name@) is None {
                        assert(group_by_v(g)->Object_0 =~= seq![("name"@, JsonV::Str(name@))]);
                    }
                }
                if o.metric is Some {
                    assert(metric_input_v(o.metric->0)->Object_0 =~= seq![("name"@, JsonV::Str(name@))]);
                }
            }
        }
        out.push(item);
        i += 1;
    }
    out
}

/// The SQL filters of a query.
pub fn build_where(where_clauses: &Vec<String>) -> (r: Vec<WhereInput>)
    ensures
        r@.len() == where_clauses@.len(),
        forall|i: int| 0 <= i < r@.len() ==> (#[trigger] r@[i]).sql@ == where_clauses@[i]@,
{
    let mut out: Vec<WhereInput> = Vec::new();
    let mut i: usize = 0;
    while i < where_clauses.len()
        invariant
            i <= where_clauses@.len(),
            out@.len() == i,
            forall|k: int| 0 <= k < i ==> (#[trigger] out@[k]).sql@ == where_clauses@[k]@,
        decreases where_clauses@.len() - i,
    {
        out.push(WhereInput { sql: where_clauses[i].clone() });
        i += 1;
    }
    out
}

// ---------------------------------------------------------------------------
// Query variables
// ---------------------------------------------------------------------------

/// `[{"name": ..}, ...]`.
pub open spec fn name_inputs_v(names: Seq<String>) -> JsonV {
    JsonV::Array(Seq::new(names.len(), |i: int| JsonV::Object(seq![("name"@, JsonV::Str(names[i]@))])))
}

/// The inputs naming metrics or dimensions: `[{"name": ..}, ...]`.
pub fn name_inputs(names: &Vec<String>) -> (r: Json)
    ensures
        r@ == name_inputs_v(names@),
{
    let mut out: Vec<Json> = Vec::new();
    let mut i: usize = 0;
    while i < names.len()
        invariant
            i <= names@.len(),
            out@.len() == i,
            forall|k: int| 0 <= k < i ==> (#[trigger] out@[k])@ == JsonV::Object(seq![("name"@, JsonV::Str(names@[k]@))]),
        decreases names@.len() - i,
    {
        let o = object_of(vec![entry("name", Json::str(names[i].as_str()))]);
        assert(o@->Object_0 =~= seq![("name"@, JsonV::Str(names@[i as int]@))]);
        out.push(o);
        i += 1;
    }
    let r = array_of(out);
    assert(r@->Array_0 =~= name_inputs_v(names@)->Array_0);
    r
}

/// An optional search text as a document: null when absent.
pub open spec fn search_v(search: Option<&str>) -> JsonV {
    match search {
        Some(s) => JsonV::Str(s@),
        None => JsonV::Null,
    }
}

fn search_json(search: Option<&str>) -> (r: Json)
    ensures
        r@ == search_v(search),
{
    match search {
        Some(s) => Json::str(s),
        None => Json::Null,
    }
}

/// `{"environmentId": .., "search": ..}`, for listing metrics or saved queries.
pub fn search_vars(environment_id: u64, search: Option<&str>) -> (r: Json)
    ensures
        r@ == JsonV::Object(seq![("environmentId"@, u64_v(environment_id)), ("search"@, search_v(search))]),
{
    let r = object_of(vec![
        entry("environmentId", Json::from_u64(environment_id)),
        entry("search", search_json(search)),
    ]);
    assert(r@->Object_0 =~= seq![("environmentId"@, u64_v(environment_id)), ("search"@, search_v(search))]);
    r
}

/// `{"environmentId": .., "metrics": [..], "search": ..}`, for listing
/// dimensions or entities of metrics.
pub fn metrics_search_vars(environment_id: u64, metrics: &Vec<String>, search: Option<&str>) -> (r: Json)
    ensures
        r@ == JsonV::Object(seq![
            ("environmentId"@, u64_v(environment_id)),
            ("metrics"@, name_inputs_v(metrics@)),
            ("search"@, search_v(search)),
        ]),
{
    let r = object_of(vec![
        entry("environmentId", Json::from_u64(environment_id)),
        entry("metrics", name_inputs(metrics)),
        entry("search", search_json(search)),
    ]);
    assert(r@->Object_0 =~= seq![
        ("environmentId"@, u64_v(environment_id)),
        ("metrics"@, name_inputs_v(metrics@)),
        ("search"@, search_v(search)),
    ]);
    r
}

/// `{"environmentId": .., "metrics": [..]}`, for listing measures or
/// granularities of metrics.
pub fn metrics_vars(environment_id: u64, metrics: &Vec<String>) -> (r: Json)
    ensures
        r@ == JsonV::Object(seq![("environmentId"@, u64_v(environment_id)), ("metrics"@, name_inputs_v(metrics@))]),
{
    let r = object_of(vec![
        entry("environmentId", Json::from_u64(environment_id)),
        entry("metrics", name_inputs(metrics)),
    ]);
    assert(r@->Object_0 =~= seq![("environmentId"@, u64_v(environment_id)), ("metrics"@, name_inputs_v(metrics@))]);
    r
}

/// `{"dimensions": [..], "environmentId": ..}`, for the metrics available
/// for dimensions.
pub fn dimensions_vars(environment_id: u64, dimensions: &Vec<String>) -> (r: Json)
    ensures
        r@ == JsonV::Object(seq![("dimensions"@, name_inputs_v(dimensions@)), ("environmentId"@, u64_v(environment_id))]),
{
    let r = object_of(vec![
        entry("dimensions", name_inputs(dimensions)),
        entry("environmentId", Json::from_u64(environment_id)),
    ]);
    assert(r@->Object_0 =~= seq![("dimensions"@, name_inputs_v(dimensions@)), ("environmentId"@, u64_v(environment_id))]);
    r
}

/// `{"environmentId": .., "groupBy": [..], "metrics": [..]}`, for a
/// dimension values query.
pub fn dimension_values_vars(environment_id: u64, metrics: &Vec<String>, group_by: &Vec<String>) -> (r: Json)
    ensures
        r@ == JsonV::Object(seq![
            ("environmentId"@, u64_v(environment_id)),
            ("groupBy"@, name_inputs_v(group_by@)),
            ("metrics"@, name_inputs_v(metrics@)),
        ]),
{
    let r = object_of(vec![
        entry("environmentId", Json::from_u64(environment_id)),
        entry("groupBy", name_inputs(group_by)),
        entry("metrics", name_inputs(metrics)),
    ]);
    assert(r@->Object_0 =~= seq![
        ("environmentId"@, u64_v(environment_id)),
        ("groupBy"@, name_inputs_v(group_by@)),
        ("metrics"@, name_inputs_v(metrics@)),
    ]);
    r
}

/// `{"environmentId": .., "pageNum": .., "queryId": ..}`, for fetching a
/// page of results.
pub fn results_vars(environment_id: u64, query_id: &str, page_num: i64) -> (r: Json)
    ensures
        r@ == JsonV::Object(seq![
            ("environmentId"@, u64_v(environment_id)),
            ("pageNum"@, i64_v(page_num)),
            ("queryId"@, JsonV::Str(query_id@)),
        ]),
{
    let r = object_of(vec![
        entry("environmentId", Json::from_u64(environment_id)),
        entry("pageNum", Json::from_i64(page_num)),
        entry("queryId", Json::str(query_id)),
    ]);
    assert(r@->Object_0 =~= seq![
        ("environmentId"@, u64_v(environment_id)),
        ("pageNum"@, i64_v(page_num)),
        ("queryId"@, JsonV::Str(query_id@)),
    ]);
    r
}

/// A list of inputs as an array, or null when there are none.
pub open spec fn list_or_null_v(items: Seq<JsonV>) -> JsonV {
    if items.len() == 0 { JsonV::Null } else { JsonV::Array(items) }
}

/// The variables of a metric query: the metrics, the group-bys, filters
/// and orderings (null when there are none) and the row limit.
pub open spec fn query_vars_v(environment_id: u64, metrics: Seq<String>, group_by: Seq<GroupByInput>,
    where_: Seq<WhereInput>, order_by: Seq<OrderByInput>, limit: Option<i64>) -> JsonV {
    JsonV::Object(seq![
        ("environmentId"@, u64_v(environment_id)),
        ("groupBy"@, list_or_null_v(Seq::new(group_by.len(), |i: int| group_by_v(group_by[i])))),
        ("limit"@, match limit { Some(l) => i64_v(l), None => JsonV::Null }),
        ("metrics"@, name_inputs_v(metrics)),
        ("orderBy"@, list_or_null_v(Seq::new(order_by.len(), |i: int| order_by_v(order_by[i])))),
        ("where"@, list_or_null_v(Seq::new(where_.len(), |i: int| where_input_v(where_[i])))),
    ])
}

/// A metric query is filtered exactly by the filters given: without
/// filters its `where` is null; with them it lists one `{"sql": ..}` per
/// filter, in order. It runs against the environment given, with the row
/// limit given (null when none).
pub proof fn law_query_filters(environment_id: u64, metrics: Seq<String>, group_by: Seq<GroupByInput>,
    where_: Seq<WhereInput>, order_by: Seq<OrderByInput>, limit: Option<i64>)
    ensures
        ({
            let v = query_vars_v(environment_id, metrics, group_by, where_, order_by, limit);
            &&& where_.len() == 0 ==> at_v(v, "where"@) == JsonV::Null
            &&& where_.len() > 0 ==> (at_v(v, "where"@) matches JsonV::Array(ws)
                && ws.len() == where_.len()
                && forall|i: int| 0 <= i < ws.len() ==> at_v(#[trigger] ws[i], "sql"@) == JsonV::Str(where_[i].sql@))
            &&& (group_by.len() == 0 <==> at_v(v, "groupBy"@) == JsonV::Null)
            &&& group_by.len() > 0 ==> (at_v(v, "groupBy"@) matches JsonV::Array(gs) && gs.len() == group_by.len()
                && forall|i: int| 0 <= i < gs.len() ==> #[trigger] gs[i] == group_by_v(group_by[i]))
            &&& (order_by.len() == 0 <==> at_v(v, "orderBy"@) == JsonV::Null)
            &&& order_by.len() > 0 ==> (at_v(v, "orderBy"@) matches JsonV::Array(os) && os.len() == order_by.len()
                && forall|i: int| 0 <= i < os.len() ==> #[trigger] os[i] == order_by_v(order_by[i]))
            &&& at_v(v, "environmentId"@) == u64_v(environment_id)
            &&& at_v(v, "limit"@) == (match limit { Some(l) => i64_v(l), None => JsonV::Null })
        }),
{
    reveal_strlit("environmentId");
    reveal_strlit("groupBy");
    reveal_strlit("limit");
    reveal_strlit("metrics");
    reveal_strlit("orderBy");
    reveal_strlit("where");
    reveal_strlit("sql");
    let v = query_vars_v(environment_id, metrics, group_by, where_, order_by, limit);
    let es = v->Object_0;
    assert("where"@[0] == 'w' && "environmentId"@[0] == 'e' && "groupBy"@[0] == 'g' && "limit"@[0] == 'l'
        && "metrics"@[0] == 'm' && "orderBy"@[0] == 'o');
    crate::json::lemma_lookup_at(es, "where"@, 5);
    crate::json::lemma_lookup_at(es, "environmentId"@, 0);
    crate::json::lemma_lookup_at(es, "limit"@, 2);
    crate::json::lemma_lookup_at(es, "groupBy"@, 1);
    crate::json::lemma_lookup_at(es, "orderBy"@, 4);
    if where_.len() > 0 {
        let ws = Seq::new(where_.len(), |i: int| where_input_v(where_[i]));
        assert forall|i: int| 0 <= i < ws.len() implies at_v(#[trigger] ws[i], "sql"@) == JsonV::Str(where_[i].sql@) by {
            crate::json::lemma_lookup_at(ws[i]->Object_0, "sql"@, 0);
        }
    }
}

/// The variables of a metric query.
pub fn query_vars(environment_id: u64, metrics: &Vec<String>, group_by: &Vec<GroupByInput>,
    where_filters: &Vec<WhereInput>, order_by: &Vec<OrderByInput>, limit: Option<i64>) -> (r: Json)
    ensures
        r@ == query_vars_v(environment_id, metrics@, group_by@, where_filters@, order_by@, limit),
{
    let mut gbs: Vec<Json> = Vec::new();
    let mut i: usize = 0;
    while i < group_by.len()
        invariant
            i <= group_by@.len(),
            gbs@.len() == i,
            forall|k: int| 0 <= k < i ==> (#[trigger] gbs@[k])@ == group_by_v(group_by@[k]),
        decreases group_by@.len() - i,
    {
        gbs.push(group_by[i].to_json());
        i += 1;
    }
    let mut wh: Vec<Json> = Vec::new();
    let mut i: usize = 0;
    while i < where_filters.len()
        invariant
            i <= where_filters@.len(),
            wh@.len() == i,
            forall|k: int| 0 <= k < i ==> (#[trigger] wh@[k])@ == where_input_v(where_filters@[k]),
        decreases where_filters@.len() - i,
    {
        wh.push(where_filters[i].to_json());
        i += 1;
    }
    let mut ob: Vec<Json> = Vec::new();
    let mut i: usize = 0;
    while i < order_by.len()
        invariant
            i <= order_by@.len(),
            ob@.len() == i,
            forall|k: int| 0 <= k < i ==> (#[trigger] ob@[k])@ == order_by_v(order_by@[k]),
        decreases order_by@.len() - i,
    {
        ob.push(order_by[i].to_json());
        i += 1;
    }
    assert(vview(gbs@) =~= Seq::new(group_by@.len(), |i: int| group_by_v(group_by@[i])));
    assert(vview(wh@) =~= Seq::new(where_filters@.len(), |i: int| where_input_v(where_filters@[i])));
    assert(vview(ob@) =~= Seq::new(order_by@.len(), |i: int| order_by_v(order_by@[i])));
    let gbj = if gbs.len() == 0 { Json::Null } else { array_of(gbs) };
    let whj = if wh.len() == 0 { Json::Null } else { array_of(wh) };
    let obj = if ob.len() == 0 { Json::Null } else { array_of(ob) };
    let lim = match limit {
        Some(l) => Json::from_i64(l),
        None => Json::Null,
    };
    let r = object_of(vec![
        entry("environmentId", Json::from_u64(environment_id)),
        entry("groupBy", gbj),
        entry("limit", lim),
        entry("metrics", name_inputs(metrics)),
        entry("orderBy", obj),
        entry("where", whj),
    ]);
    assert(r@->Object_0 =~= query_vars_v(environment_id, metrics@, group_by@, where_filters@, order_by@, limit)->Object_0);
    r
}

// ---------------------------------------------------------------------------
// Reading answers
// ---------------------------------------------------------------------------

/// `data[key]["items"]`, or an empty list.
pub open spec fn paginated_items_v(data: JsonV, key: Seq<char>) -> JsonV {
    match get_v(data, key) {
        Some(p) => match get_v(p, "items"@) {
            Some(items) => items,
            None => JsonV::Array(Seq::empty()),
        },
        None => JsonV::Array(Seq::empty()),
    }
}

/// The items of a paginated list in an answer (`metricsPaginated`,
/// `dimensionsPaginated`, ...), or an empty list.
pub fn paginated_items(data: &Json, key: &str) -> (r: Json)
    ensures
        r@ == paginated_items_v(data@, key@),
{
    match data.get(key) {
        Some(p) => match p.get("items") {
            Some(items) => clone_json(items),
            None => Json::empty_array(),
        },
        None => Json::empty_array(),
    }
}

/// `data[key]`, or an empty list.
pub open spec fn field_or_empty_v(data: JsonV, key: Seq<char>) -> JsonV {
    match get_v(data, key) {
        Some(v) => v,
        None => JsonV::Array(Seq::empty()),
    }
}

/// A list in an answer (`measures`, `queryableGranularities`, ...), or an
/// empty list.
pub fn field_or_empty(data: &Json, key: &str) -> (r: Json)
    ensures
        r@ == field_or_empty_v(data@, key@),
{
    match data.get(key) {
        Some(v) => clone_json(v),
        None => Json::empty_array(),
    }
}

/// The id of a query created by a mutation: `data[mutation]["queryId"]`,
/// or a GraphQL error with the given message.
pub fn created_query_id(data: &Json, mutation: &str, missing: &str) -> (r: Result<String, DbtpError>)
    ensures
        as_str_v(at_v(at_v(data@, mutation@), "queryId"@)) matches Some(q) ==> (r matches Ok(s) && s@ == q),
        as_str_v(at_v(at_v(data@, mutation@), "queryId"@)) is None ==> (r matches Err(e) && graphql_error(e, missing@)),
{
    let m = at(data, mutation);
    match str_at(&m, "queryId") {
        Some(q) => Ok(owned(q)),
        None => Err(DbtpError::graphql(missing)),
    }
}

/// The `query` of an answer for a page of results.
pub fn results_query(data: &Json) -> (r: Result<Json, DbtpError>)
    ensures
        get_v(data@, "query"@) matches Some(q) ==> (r matches Ok(v) && v@ == q),
        get_v(data@, "query"@) is None ==> (r matches Err(e) && graphql_error(e, "Missing 'query' field in GetResults response"@)),
{
    match data.get("query") {
        Some(q) => Ok(clone_json(q)),
        None => Err(DbtpError::graphql("Missing 'query' field in GetResults response")),
    }
}

// ---------------------------------------------------------------------------
// Polling for results
// ---------------------------------------------------------------------------

/// What to do after a page of results came back.
#[derive(Debug, Clone, Copy, PartialEq, Eq)]
pub enum PollAction {
    /// Ask for this page next.
    FetchPage(i64),
    /// The query is still running: wait, then ask for the same page again.
    Wait,
    /// All pages are in.
    Finished,
}

/// The state of polling for the results of a query: the page asked for,
/// the pages received, and whether all are in.
pub struct Poller {
    pub page_num: i64,
    pub pages: Vec<QueryPage>,
    pub finished: bool,
}

impl Poller {
    /// Polling before the first page.
    pub fn new() -> (r: Poller)
        ensures
            r.page_num == 1,
            r.pages@.len() == 0,
            !r.finished,
    {
        Poller { page_num: 1, pages: Vec::new(), finished: false }
    }

    /// Takes in a page: a successful one is kept and the next page is asked
    /// for until the announced number of pages (1 if none) is in; a failed
    /// one ends polling with its error; any other status means waiting. The
    /// status is read case-insensitively.
    pub fn step(&mut self, page: QueryPage) -> (r: Result<PollAction, DbtpError>)
        requires
            !old(self).finished,
        ensures
            poll_step_v(*old(self), *final(self), page, spec_to_lowercase(page.status@), r),
    {
        let status = to_lowercase(page.status.as_str());
        self.step_with_status(page, status.as_str())
    }

    /// Takes in a page whose status, lower-cased, is `status`.
    pub fn step_with_status(&mut self, page: QueryPage, status: &str) -> (r: Result<PollAction, DbtpError>)
        requires
            !old(self).finished,
        ensures
            poll_step_v(*old(self), *final(self), page, status@, r),
    {
        if str_eq(status, "successful") {
            let total: i64 = match page.total_pages {
                Some(t) => t,
                None => 1,
            };
            self.pages.push(page);
            if total > self.page_num {
                self.page_num = self.page_num + 1;
                Ok(PollAction::FetchPage(self.page_num))
            } else {
                self.finished = true;
                Ok(PollAction::Finished)
            }
        } else if str_eq(status, "failed") {
            match page.error {
                Some(m) => Err(DbtpError::graphql(m.as_str())),
                None => Err(DbtpError::graphql("Query execution failed")),
            }
        } else {
            Ok(PollAction::Wait)
        }
    }
}

/// One step of polling on a page with the given (lower-cased) status: a
/// successful page is kept and the next page is asked for until the
/// announced number of pages (1 if none) is in; a failed one ends polling
/// with its error; any other status means waiting.
pub open spec fn poll_step_v(before: Poller, after: Poller, page: QueryPage, status: Seq<char>, r: Result<PollAction, DbtpError>) -> bool {
    let total: i64 = match page.total_pages { Some(t) => t, None => 1 };
    if status == "successful"@ {
        &&& after.pages@ == before.pages@.push(page)
        &&& total > before.page_num ==> r == Ok::<PollAction, DbtpError>(PollAction::FetchPage((before.page_num + 1) as i64))
            && after.page_num == before.page_num + 1 && !after.finished
        &&& total <= before.page_num ==> r == Ok::<PollAction, DbtpError>(PollAction::Finished)
            && after.page_num == before.page_num && after.finished
    } else if status == "failed"@ {
        &&& r matches Err(e) && graphql_error(e, match page.error { Some(m) => m@, None => "Query execution failed"@ })
        &&& after.pages@ == before.pages@
    } else {
        &&& r == Ok::<PollAction, DbtpError>(PollAction::Wait)
        &&& after.pages@ == before.pages@
        &&& after.page_num == before.page_num
        &&& !after.finished
    }
}

/// The SQL of the last page that has one.
pub open spec fn last_sql_v(pages: Seq<QueryPage>) -> Option<Seq<char>>
    decreases pages.len(),
{
    if pages.len() == 0 {
        None
    } else {
        match pages.last().sql {
            Some(s) => Some(s@),
            None => last_sql_v(pages.drop_last()),
        }
    }
}

/// The SQL that the pages of a query report: that of the last page with one.
pub fn last_sql(pages: &Vec<QueryPage>) -> (r: Option<String>)
    ensures
        opt_v(r) == last_sql_v(pages@),
{
    let mut k: usize = pages.len();
    assert(pages@.take(k as int) =~= pages@);
    while k > 0
        invariant
            k <= pages@.len(),
            last_sql_v(pages@) == last_sql_v(pages@.take(k as int)),
        decreases k,
    {
        assert(pages@.take(k as int).drop_last() =~= pages@.take(k - 1));
        assert(pages@.take(k as int).last() == pages@[k - 1]);
        match &pages[k - 1].sql {
            Some(s) => return Some(s.clone()),
            None => {},
        }
        k -= 1;
    }
    None
}

/// The result of a metric query: its rows, their number and its SQL.
pub open spec fn query_result_v(rows: Seq<JsonV>, sql: Option<Seq<char>>) -> JsonV {
    JsonV::Object(seq![
        ("row_count"@, u64_v(rows.len() as u64)),
        ("rows"@, JsonV::Array(rows)),
        ("sql"@, match sql { Some(s) => JsonV::Str(s), None => JsonV::Null }),
    ])
}

/// `{"row_count": .., "rows": [..], "sql": ..}`.
pub fn query_result(rows: Vec<Json>, sql: Option<String>) -> (r: Json)
    ensures
        r@ == query_result_v(vview(rows@), opt_v(sql)),
{
    let n = rows.len() as u64;
    let ghost rv = vview(rows@);
    let s = match sql {
        Some(x) => Json::String(x),
        None => Json::Null,
    };
    let r = object_of(vec![
        entry("row_count", Json::from_u64(n)),
        entry("rows", array_of(rows)),
        entry("sql", s),
    ]);
    assert(r@->Object_0 =~= query_result_v(rv, opt_v(sql))->Object_0);
    r
}

/// The result of compiling a metric query: `{"sql": ..}` taken from the
/// query's result.
pub fn compiled_sql(result: &Json) -> (r: Json)
    ensures
        r@ == JsonV::Object(seq![("sql"@, match get_v(result@, "sql"@) { Some(s) => s, None => JsonV::Null })]),
{
    let s = match result.get("sql") {
        Some(x) => clone_json(x),
        None => Json::Null,
    };
    let r = object_of(vec![entry("sql", s)]);
    assert(r@->Object_0 =~= seq![("sql"@, match get_v(result@, "sql"@) { Some(s) => s, None => JsonV::Null })]);
    r
}

} // verus!
