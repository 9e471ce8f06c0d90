use dbtp::discovery::{
    extract_nodes, extract_path, filter_macros, filter_macros_lowered, is_builtin_package, is_unique_id, macro_packages, metadata_url,
    model_filter, Pager,
};
use dbtp::error::DbtpError;
use dbtp::graphql::{
    bearer, check_graphql_response, discovery_endpoint, extract_error_message, graphql_result, request_body,
    semantic_layer_endpoint,
};
use dbtp::json::Json;
use dbtp::rest::{
    handle_raw_response, handle_response, lookup_lowered, name_hits, match_environment, match_project, raw_v2_url, unwrap_envelope,
    ApiVersion, RestClient, RestPager,
};

fn obj(pairs: Vec<(&str, Json)>) -> Json {
    Json::Object(pairs.into_iter().map(|(k, v)| (k.to_string(), v)).collect())
}

fn s(t: &str) -> Json {
    Json::String(t.to_string())
}

fn api(status: u16, m: &str) -> DbtpError {
    DbtpError::Api { status, message: m.to_string() }
}

fn config(m: &str) -> DbtpError {
    DbtpError::Config(m.to_string())
}

#[test]
fn account_urls_and_auth() {
    let c = RestClient::new("https://cloud.getdbt.com//", "tok", Some(51798));
    assert_eq!(c.host, "https://cloud.getdbt.com");
    assert_eq!(c.v2_url("jobs/").unwrap(), "https://cloud.getdbt.com/api/v2/accounts/51798/jobs/");
    assert_eq!(c.v3_url("projects/").unwrap(), "https://cloud.getdbt.com/api/v3/accounts/51798/projects/");
    assert_eq!(c.auth_header(&ApiVersion::V2), "Token tok");
    assert_eq!(c.auth_header(&ApiVersion::V3), "Bearer tok");
    let none = RestClient::new("h", "t", None);
    assert_eq!(
        none.v2_url("jobs/").unwrap_err(),
        config("account_id is required; set via --account-id, DBTP_ACCOUNT_ID, or `dbtp init`")
    );
    assert_eq!(raw_v2_url("https://x/", "accounts/5/"), "https://x/api/v2/accounts/5/");
}

#[test]
fn envelopes_are_unwrapped() {
    let body = obj(vec![("data", Json::from_u64(1)), ("status", obj(vec![]))]);
    assert_eq!(unwrap_envelope(body), Json::from_u64(1));
    assert_eq!(unwrap_envelope(obj(vec![("x", Json::Null)])), obj(vec![("x", Json::Null)]));
}

#[test]
fn failed_answers_become_api_errors() {
    let body = obj(vec![("status", obj(vec![("user_message", s("Not found"))]))]);
    assert_eq!(handle_response(404, body).unwrap_err(), api(404, "Not found"));
    let body = obj(vec![("message", s("Denied"))]);
    assert_eq!(handle_response(403, body).unwrap_err(), api(403, "Denied"));
    let body = obj(vec![("message", s("Denied"))]);
    assert_eq!(handle_raw_response(403, body).unwrap_err(), api(403, "Unknown error"));
    assert_eq!(handle_response(200, obj(vec![("data", s("ok"))])).unwrap(), s("ok"));
}

fn page(items: Vec<Json>, total: u64) -> Json {
    obj(vec![
        ("data", Json::Array(items)),
        ("extra", obj(vec![("pagination", obj(vec![("total_count", Json::from_u64(total))]))])),
    ])
}

#[test]
fn rest_paging_follows_offsets_until_the_total() {
    let mut p = RestPager::new();
    let base = vec![("state".to_string(), "1".to_string())];
    assert_eq!(
        p.params(&base),
        vec![
            ("state".to_string(), "1".to_string()),
            ("limit".to_string(), "100".to_string()),
            ("offset".to_string(), "0".to_string())
        ]
    );
    let first: Vec<Json> = (0..100).map(Json::from_u64).collect();
    p.absorb(200, &page(first, 150), None).unwrap();
    assert!(!p.finished);
    assert_eq!(p.offset, 100);
    p.absorb(200, &page(vec![Json::from_u64(100)], 150), None).unwrap();
    assert!(p.finished);
    assert_eq!(p.results.len(), 101);
}

#[test]
fn rest_paging_stops_at_the_limit() {
    let mut p = RestPager::new();
    let first: Vec<Json> = (0..100).map(Json::from_u64).collect();
    p.absorb(200, &page(first, 1000), Some(30)).unwrap();
    assert!(p.finished);
    assert_eq!(p.results.len(), 30);
    assert_eq!(p.results[29], Json::from_u64(29));
}

#[test]
fn rest_paging_errors_and_single_values() {
    let mut p = RestPager::new();
    let e = p.absorb(500, &obj(vec![("message", s("boom"))]), None).unwrap_err();
    assert_eq!(e, api(500, "Unknown error"));
    let mut q = RestPager::new();
    q.absorb(200, &obj(vec![("data", obj(vec![("id", Json::from_u64(1))]))]), None).unwrap();
    assert!(q.finished);
    assert_eq!(q.results, vec![obj(vec![("id", Json::from_u64(1))])]);
}

fn named(id: u64, name: &str) -> Json {
    obj(vec![("id", Json::from_u64(id)), ("name", s(name))])
}

#[test]
fn projects_are_found_by_number_or_name() {
    let ps = vec![named(1, "Analytics"), named(2, "Finance"), named(3, "finance")];
    assert_eq!(match_project(&ps, "77").unwrap(), 77);
    assert_eq!(match_project(&ps, "ANALYTICS").unwrap(), 1);
    assert_eq!(match_project(&ps, "Ops").unwrap_err(), config("No project found matching \"Ops\""));
    assert_eq!(
        match_project(&ps, "finance").unwrap_err(),
        config(
            "Multiple projects match \"finance\": Finance (2), finance (3). Use --project-id <numeric_id> to disambiguate."
        )
    );
}

#[test]
fn environments_need_a_project_to_be_named() {
    let es = vec![named(5, "Prod")];
    assert_eq!(match_environment(&es, None, "12").unwrap(), 12);
    assert_eq!(
        match_environment(&es, None, "Prod").unwrap_err(),
        config(
            "project_id is required to resolve an environment by name; set via --project-id, DBTP_PROJECT_ID, or `dbtp configure`"
        )
    );
    assert_eq!(match_environment(&es, Some(9), "prod").unwrap(), 5);
    assert_eq!(
        match_environment(&es, Some(9), "Dev").unwrap_err(),
        config("No environment found matching \"Dev\" in project 9")
    );
}

#[test]
fn graphql_errors_are_read() {
    let body = obj(vec![(
        "errors",
        Json::Array(vec![obj(vec![("message", s("bad field"))]), obj(vec![("message", s("bad arg"))])]),
    )]);
    assert_eq!(extract_error_message(&body).as_deref(), Some("bad field; bad arg"));
    assert_eq!(extract_error_message(&obj(vec![("detail", s("nope"))])).as_deref(), Some("nope"));
    assert_eq!(extract_error_message(&obj(vec![("errors", Json::Array(vec![]))])), None);
    assert_eq!(
        check_graphql_response(200, &body).unwrap_err(),
        DbtpError::GraphQL("bad field; bad arg".to_string())
    );
    assert_eq!(check_graphql_response(502, &obj(vec![])).unwrap_err(), api(502, "GraphQL request failed"));
    assert_eq!(graphql_result(200, obj(vec![("data", Json::from_u64(3))])).unwrap(), Json::from_u64(3));
}

#[test]
fn graphql_requests_and_endpoints() {
    assert_eq!(
        request_body("{ x }", None),
        obj(vec![("query", s("{ x }")), ("variables", obj(vec![]))])
    );
    assert_eq!(discovery_endpoint("https://metadata.x/", "beta/graphql"), "https://metadata.x/beta/graphql");
    assert_eq!(semantic_layer_endpoint("https://sl.x/"), "https://sl.x/api/graphql");
    assert_eq!(bearer("t"), "Bearer t");
}

#[test]
fn metadata_hosts_are_derived() {
    assert_eq!(metadata_url("https://cloud.getdbt.com"), "https://metadata.cloud.getdbt.com");
    assert_eq!(metadata_url("http://x.com/"), "http://metadata.x.com");
    assert_eq!(metadata_url("emea.dbt.com"), "https://metadata.emea.dbt.com");
    assert_eq!(metadata_url("https://metadata.emea.dbt.com/"), "https://metadata.emea.dbt.com");
}

#[test]
fn identifiers_and_filters() {
    assert!(is_unique_id("model.analytics.orders"));
    assert!(!is_unique_id("orders"));
    assert_eq!(model_filter("orders"), obj(vec![("identifier", s("orders"))]));
    assert_eq!(
        model_filter("model.a.orders"),
        obj(vec![("uniqueIds", Json::Array(vec![s("model.a.orders")]))])
    );
}

#[test]
fn edges_and_paths_are_read() {
    let data = obj(vec![(
        "a",
        obj(vec![(
            "edges",
            Json::Array(vec![
                obj(vec![("node", obj(vec![("id", Json::from_u64(1))]))]),
                obj(vec![("node", Json::Null)]),
                obj(vec![("other", Json::Null)]),
            ]),
        )]),
    )]);
    let edges = extract_path(&data, &["a", "edges"]);
    assert_eq!(extract_nodes(&edges), vec![obj(vec![("id", Json::from_u64(1))])]);
    assert_eq!(extract_path(&data, &["a", "missing", "deeper"]), Json::Null);
}

#[test]
fn discovery_paging_follows_new_cursors() {
    let mut p = Pager::new();
    let base = obj(vec![("filter", obj(vec![]))]);
    let v = p.next_variables(&base, 7).unwrap();
    assert_eq!(
        v,
        obj(vec![("environmentId", Json::from_u64(7)), ("filter", obj(vec![])), ("first", Json::from_u64(100))])
    );
    let answer = |cursor: &str, next: bool| {
        obj(vec![(
            "m",
            obj(vec![
                ("edges", Json::Array(vec![obj(vec![("node", obj(vec![]))])])),
                ("pageInfo", obj(vec![("endCursor", s(cursor)), ("hasNextPage", Json::Bool(next))])),
            ]),
        )])
    };
    p.absorb(&answer("c1", true), &["m", "edges"], &["m", "pageInfo"]);
    assert!(!p.finished);
    assert_eq!(p.cursor.as_deref(), Some("c1"));
    let v = p.next_variables(&base, 7).unwrap();
    assert_eq!(
        v,
        obj(vec![
            ("after", s("c1")),
            ("environmentId", Json::from_u64(7)),
            ("filter", obj(vec![])),
            ("first", Json::from_u64(100)),
        ])
    );
    p.absorb(&answer("c1", true), &["m", "edges"], &["m", "pageInfo"]);
    assert!(p.finished);
    assert_eq!(p.collected.len(), 2);
    assert!(p.next_variables(&base, 7).is_none());
}

#[test]
fn builtin_packages_are_hidden_unless_asked() {
    assert!(is_builtin_package("dbt"));
    assert!(is_builtin_package("DBT_Snowflake"));
    assert!(!is_builtin_package("dbt_utils"));
    let macros = vec![
        obj(vec![("name", s("a")), ("packageName", s("dbt"))]),
        obj(vec![("name", s("b")), ("packageName", s("dbt_utils"))]),
        obj(vec![("name", s("c")), ("packageName", s("my_project"))]),
    ];
    assert_eq!(filter_macros(&macros, None, false).len(), 2);
    assert_eq!(filter_macros(&macros, None, true).len(), 3);
    assert_eq!(
        filter_macros(&macros, Some("DBT_UTILS"), false),
        vec![obj(vec![("name", s("b")), ("packageName", s("dbt_utils"))])]
    );
    assert_eq!(macro_packages(&macros), vec!["dbt", "dbt_utils", "my_project"]);
}

#[test]
fn discovery_hosts_are_stable() {
    for h in ["cloud.getdbt.com/", "http://localhost:8000", "https://metadata.emea.dbt.com//", ""] {
        let m = metadata_url(h);
        assert!(!m.ends_with('/'));
        assert_eq!(metadata_url(&m), m);
    }
    assert_eq!(metadata_url("cloud.getdbt.com/"), "https://metadata.cloud.getdbt.com");
    assert_eq!(metadata_url("http://localhost:8000"), "http://metadata.localhost:8000");
}

#[test]
fn lower_cased_names_decide_a_lookup() {
    let ps = vec![named(1, "Analytics"), named(2, "Finance"), named(3, "finance")];
    let lows: Vec<String> = vec!["analytics".into(), "finance".into(), "finance".into()];
    assert_eq!(lookup_lowered(&ps, &lows, "analytics", "ANALYTICS", true, 0).unwrap(), 1);
    assert_eq!(
        lookup_lowered(&ps, &lows, "ANALYTICS", "ANALYTICS", true, 0).unwrap_err(),
        config("No project found matching \"ANALYTICS\"")
    );
    assert_eq!(
        lookup_lowered(&ps, &lows, "ops", "Ops", false, 5).unwrap_err(),
        config("No environment found matching \"Ops\" in project 5")
    );
    assert_eq!(name_hits(&ps, &lows, "finance"), vec![(2, "Finance".to_string()), (3, "finance".to_string())]);
}

#[test]
fn lower_cased_package_names_decide_the_macros_kept() {
    let macros = vec![
        obj(vec![("name", s("a")), ("packageName", s("dbt"))]),
        obj(vec![("name", s("b")), ("packageName", s("DBT_utils"))]),
        obj(vec![("name", s("c"))]),
    ];
    let lows = vec![Some("dbt".to_string()), Some("dbt_utils".to_string()), None];
    assert_eq!(filter_macros_lowered(&macros, &lows, None, false).len(), 2);
    assert_eq!(filter_macros_lowered(&macros, &lows, Some("dbt_utils"), true).len(), 1);
    assert_eq!(filter_macros_lowered(&macros, &lows, Some("DBT_UTILS"), true).len(), 0);
}
