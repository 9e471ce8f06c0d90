use dbtp::json::Json;
use dbtp::semantic::{
    build_group_by, build_order_by, build_where, semantic_layer_url, GroupByInput, MetricInput, OrderByInput,
    WhereInput,
};

fn obj(pairs: Vec<(&str, Json)>) -> Json {
    Json::Object(pairs.into_iter().map(|(k, v)| (k.to_string(), v)).collect())
}

fn s(t: &str) -> Json {
    Json::String(t.to_string())
}

#[test]
fn test_semantic_layer_url_multi_tenant() {
    assert_eq!(
        semantic_layer_url("https://tk626.us1.dbt.com"),
        "https://tk626.semantic-layer.us1.dbt.com"
    );
}

#[test]
fn test_semantic_layer_url_plain_host() {
    assert_eq!(
        semantic_layer_url("cloud.getdbt.com"),
        "https://semantic-layer.cloud.getdbt.com"
    );
}

#[test]
fn test_semantic_layer_url_with_scheme() {
    assert_eq!(
        semantic_layer_url("https://emea.dbt.com"),
        "https://semantic-layer.emea.dbt.com"
    );
}

#[test]
fn test_semantic_layer_url_with_trailing_slash() {
    assert_eq!(
        semantic_layer_url("https://tk626.us1.dbt.com/"),
        "https://tk626.semantic-layer.us1.dbt.com"
    );
}

#[test]
fn test_metric_input_serialize() {
    let input = MetricInput { name: "revenue".to_string() };
    let json = input.to_json();
    assert_eq!(json, obj(vec![("name", s("revenue"))]));
}

#[test]
fn test_groupby_input_serialize_with_grain() {
    let input = GroupByInput {
        name: "metric_time".to_string(),
        grain: Some("MONTH".to_string()),
        date_part: None,
    };
    let json = input.to_json();
    assert_eq!(json, obj(vec![("grain", s("MONTH")), ("name", s("metric_time"))]));
}

#[test]
fn test_groupby_input_serialize_without_grain() {
    let input = GroupByInput { name: "region".to_string(), grain: None, date_part: None };
    let json = input.to_json();
    assert_eq!(json, obj(vec![("name", s("region"))]));
}

#[test]
fn test_orderby_input_metric() {
    let input = OrderByInput {
        metric: Some(MetricInput { name: "revenue".to_string() }),
        group_by: None,
        descending: Some(true),
    };
    let json = input.to_json();
    assert_eq!(
        json,
        obj(vec![("descending", Json::Bool(true)), ("metric", obj(vec![("name", s("revenue"))]))])
    );
}

#[test]
fn test_orderby_input_groupby() {
    let input = OrderByInput {
        metric: None,
        group_by: Some(GroupByInput {
            name: "metric_time".to_string(),
            grain: Some("DAY".to_string()),
            date_part: None,
        }),
        descending: Some(false),
    };
    let json = input.to_json();
    assert_eq!(
        json,
        obj(vec![
            ("descending", Json::Bool(false)),
            ("groupBy", obj(vec![("grain", s("DAY")), ("name", s("metric_time"))])),
        ])
    );
}

#[test]
fn test_where_input_serialize() {
    let input = WhereInput { sql: "order_date > '2024-01-01'".to_string() };
    let json = input.to_json();
    assert_eq!(json, obj(vec![("sql", s("order_date > '2024-01-01'"))]));
}

#[test]
fn group_by_with_date_part_lists_it_first() {
    let input = GroupByInput {
        name: "metric_time".to_string(),
        grain: None,
        date_part: Some("YEAR".to_string()),
    };
    assert_eq!(input.to_json(), obj(vec![("datePart", s("YEAR")), ("name", s("metric_time"))]));
}

#[test]
fn grain_applies_only_to_metric_time() {
    let names = vec!["metric_time".to_string(), "region".to_string()];
    let r = build_group_by(&names, &Some("MONTH".to_string()));
    assert_eq!(r.len(), 2);
    assert_eq!(r[0].name, "metric_time");
    assert_eq!(r[0].grain.as_deref(), Some("MONTH"));
    assert_eq!(r[1].name, "region");
    assert_eq!(r[1].grain, None);
}

#[test]
fn order_by_dash_means_descending_metric() {
    let metrics = vec!["revenue".to_string()];
    let groups = build_group_by(&vec!["metric_time".to_string()], &Some("DAY".to_string()));
    let r = build_order_by(&vec!["-revenue".to_string(), "metric_time".to_string()], &metrics, &groups);
    assert_eq!(r.len(), 2);
    assert_eq!(r[0].descending, Some(true));
    assert_eq!(r[0].metric.as_ref().map(|m| m.name.as_str()), Some("revenue"));
    assert!(r[0].group_by.is_none());
    assert_eq!(r[1].descending, Some(false));
    assert!(r[1].metric.is_none());
    let g = r[1].group_by.as_ref().unwrap();
    assert_eq!(g.name, "metric_time");
    assert_eq!(g.grain.as_deref(), Some("DAY"));
}

#[test]
fn where_clauses_become_sql_filters() {
    let r = build_where(&vec!["a > 1".to_string(), "b = 2".to_string()]);
    assert_eq!(r.len(), 2);
    assert_eq!(r[0].sql, "a > 1");
    assert_eq!(r[1].sql, "b = 2");
}

#[test]
fn grain_is_upper_cased() {
    let r = build_group_by(&vec!["metric_time".to_string()], &Some("month".to_string()));
    assert_eq!(r[0].grain.as_deref(), Some("MONTH"));
}

#[test]
fn trailing_slashes_do_not_change_the_semantic_layer_host() {
    for h in ["https://tk626.us1.dbt.com", "cloud.getdbt.com", "http://localhost:8000"] {
        let slashed = format!("{h}///");
        assert_eq!(semantic_layer_url(&slashed), semantic_layer_url(h));
    }
    assert_eq!(semantic_layer_url("http://localhost:8000/"), "http://semantic-layer.localhost:8000");
}
