use dbtp::json::Json;
use dbtp::lineage::{filter_connected_nodes, lineage_types, lineage_vars, shape_lineage};

fn obj(pairs: Vec<(&str, Json)>) -> Json {
    Json::Object(pairs.into_iter().map(|(k, v)| (k.to_string(), v)).collect())
}

fn s(t: &str) -> Json {
    Json::String(t.to_string())
}

fn node(uid: &str, rt: &str, parents: &[&str]) -> Json {
    obj(vec![
        ("parentIds", Json::Array(parents.iter().map(|p| s(p)).collect())),
        ("resourceType", s(rt)),
        ("uniqueId", s(uid)),
    ])
}

fn uids(nodes: &[Json]) -> Vec<String> {
    nodes
        .iter()
        .map(|n| match n {
            Json::Object(es) => match &es.iter().find(|(k, _)| k == "uniqueId").unwrap().1 {
                Json::String(u) => u.clone(),
                _ => panic!("uniqueId is not text"),
            },
            _ => panic!("node is not an object"),
        })
        .collect()
}

fn chain() -> Vec<Json> {
    vec![
        node("source.p.a", "Source", &[]),
        node("model.p.b", "Model", &["source.p.a"]),
        node("model.p.c", "Model", &["model.p.b", "macro.p.m"]),
        node("model.p.d", "Model", &["model.p.c"]),
        node("macro.p.m", "Macro", &[]),
        node("model.p.x", "Model", &[]),
    ]
}

#[test]
fn one_hop_takes_parents_and_children() {
    let r = filter_connected_nodes(&chain(), "model.p.b", 1);
    assert_eq!(uids(&r), vec!["source.p.a", "model.p.b", "model.p.c"]);
}

#[test]
fn unlimited_depth_takes_the_whole_component_without_macros() {
    let r = filter_connected_nodes(&chain(), "model.p.b", 0);
    assert_eq!(uids(&r), vec!["source.p.a", "model.p.b", "model.p.c", "model.p.d"]);
}

#[test]
fn unknown_or_macro_target_gives_nothing() {
    assert!(filter_connected_nodes(&chain(), "model.p.zz", 0).is_empty());
    assert!(filter_connected_nodes(&chain(), "macro.p.m", 0).is_empty());
}

#[test]
fn macro_type_is_matched_without_case() {
    let mut nodes = chain();
    nodes.push(node("model.p.e", "MACRO", &["model.p.d"]));
    let r = filter_connected_nodes(&nodes, "model.p.d", 0);
    assert_eq!(uids(&r), vec!["source.p.a", "model.p.b", "model.p.c", "model.p.d"]);
}

#[test]
fn empty_type_filter_means_all_types() {
    let r = lineage_types(&vec![]);
    assert_eq!(r, vec!["Analysis", "Exposure", "Model", "Seed", "Snapshot", "Source", "Test"]);
    let r = lineage_types(&vec!["Model".to_string()]);
    assert_eq!(r, vec!["Model"]);
}

#[test]
fn lineage_variables_name_environment_and_types() {
    let v = lineage_vars(42, &vec!["Model".to_string(), "Source".to_string()]);
    assert_eq!(
        v,
        obj(vec![
            ("environmentId", Json::from_u64(42)),
            ("types", Json::Array(vec![s("Model"), s("Source")])),
        ])
    );
}

#[test]
fn shaped_lineage_reads_the_nodes_of_an_answer() {
    let data = obj(vec![(
        "environment",
        obj(vec![("applied", obj(vec![("lineage", Json::Array(chain()))]))]),
    )]);
    match shape_lineage(&data, "model.p.d", 1) {
        Json::Array(r) => assert_eq!(uids(&r), vec!["model.p.c", "model.p.d"]),
        other => panic!("not an array: {other:?}"),
    }
    assert_eq!(shape_lineage(&obj(vec![]), "model.p.d", 1), Json::Array(vec![]));
}
