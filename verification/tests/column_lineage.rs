use dbtp::columns::{compute_relative_depths, shape_column_lineage};
use dbtp::json::Json;

fn obj(pairs: Vec<(&str, Json)>) -> Json {
    Json::Object(pairs.into_iter().map(|(k, v)| (k.to_string(), v)).collect())
}

fn s(t: &str) -> Json {
    Json::String(t.to_string())
}

fn col(uid: &str, model: &str, parents: &[&str], children: &[&str]) -> Json {
    obj(vec![
        ("childColumns", Json::Array(children.iter().map(|c| s(c)).collect())),
        ("depth", Json::from_u64(0)),
        ("nodeUniqueId", s(model)),
        ("parentColumns", Json::Array(parents.iter().map(|p| s(p)).collect())),
        ("uniqueId", s(uid)),
    ])
}

fn columns() -> Vec<Json> {
    vec![
        col("up.a", "model.p.up", &[], &["t.a"]),
        col("t.a", "model.p.t", &["up.a"], &["down.a"]),
        col("down.a", "model.p.down", &["t.a"], &["far.a"]),
        col("far.a", "model.p.far", &["down.a"], &[]),
    ]
}

fn depth_of(ds: &[(String, i64)], id: &str) -> Option<i64> {
    ds.iter().find(|(k, _)| k == id).map(|(_, d)| *d)
}

#[test]
fn depths_are_relative_to_the_target_model() {
    let ds = compute_relative_depths(&columns(), "model.p.t");
    assert_eq!(depth_of(&ds, "t.a"), Some(0));
    assert_eq!(depth_of(&ds, "up.a"), Some(-1));
    assert_eq!(depth_of(&ds, "down.a"), Some(1));
    assert_eq!(depth_of(&ds, "far.a"), Some(2));
    assert!(compute_relative_depths(&columns(), "model.p.none").is_empty());
}

fn answer() -> Json {
    obj(vec![("column", obj(vec![("lineage", Json::Array(columns()))]))])
}

fn ids_and_depths(j: &Json) -> Vec<(String, Json)> {
    match j {
        Json::Array(a) => a
            .iter()
            .map(|c| match c {
                Json::Object(es) => {
                    let id = match &es.iter().find(|(k, _)| k == "uniqueId").unwrap().1 {
                        Json::String(x) => x.clone(),
                        _ => panic!(),
                    };
                    let d = match &es.iter().find(|(k, _)| k == "depth").unwrap().1 {
                        Json::Number(n) => Json::Number(n.clone()),
                        _ => panic!(),
                    };
                    (id, d)
                },
                _ => panic!(),
            })
            .collect(),
        _ => panic!("not an array"),
    }
}

#[test]
fn downstream_only_keeps_non_negative_depths() {
    let r = shape_column_lineage(&answer(), "model.p.t", true, false);
    assert_eq!(
        ids_and_depths(&r),
        vec![
            ("t.a".to_string(), Json::from_i64(0)),
            ("down.a".to_string(), Json::from_i64(1)),
            ("far.a".to_string(), Json::from_i64(2)),
        ]
    );
}

#[test]
fn upstream_only_keeps_non_positive_depths() {
    let r = shape_column_lineage(&answer(), "model.p.t", false, true);
    assert_eq!(
        ids_and_depths(&r),
        vec![("up.a".to_string(), Json::from_i64(-1)), ("t.a".to_string(), Json::from_i64(0))]
    );
}

#[test]
fn all_columns_get_their_depths() {
    let r = shape_column_lineage(&answer(), "model.p.t", false, false);
    assert_eq!(
        ids_and_depths(&r),
        vec![
            ("up.a".to_string(), Json::from_i64(-1)),
            ("t.a".to_string(), Json::from_i64(0)),
            ("down.a".to_string(), Json::from_i64(1)),
            ("far.a".to_string(), Json::from_i64(2)),
        ]
    );
}

#[test]
fn the_first_column_found_decides_a_shared_neighbours_depth() {
    // The target column lists "y" before "x" among its children, so the
    // search meets "y" first and "z" takes its depth from "y".
    let cols = vec![
        col("x", "model.p.m", &[], &["z"]),
        col("y", "model.p.m", &["z"], &[]),
        col("t", "model.p.t", &[], &["y", "x"]),
        col("z", "model.p.z", &[], &[]),
    ];
    let ds = compute_relative_depths(&cols, "model.p.t");
    assert_eq!(depth_of(&ds, "t"), Some(0));
    assert_eq!(depth_of(&ds, "y"), Some(1));
    assert_eq!(depth_of(&ds, "x"), Some(1));
    assert_eq!(depth_of(&ds, "z"), Some(0));
    assert_eq!(ds.len(), 4);
}
