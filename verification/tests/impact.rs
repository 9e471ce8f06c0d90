use dbtp::error::DbtpError;
use dbtp::impact::{
    collect_inputs, consumer_count, consumer_entries, consumer_plan, ConsumerPlan, consumer_summary_table, cross_project_consumers, deployment_env_ids,
    find_downstream_public, finish_impact, impact_report, impact_rows, impact_scope, impact_targets,
    impacted_public_models, is_file_path, normalize_path, partition_inputs, project_ids, public_model_ids,
    public_surface, resolve_files_to_unique_ids, suffix_match,
};
use dbtp::json::Json;

fn obj(pairs: Vec<(&str, Json)>) -> Json {
    Json::Object(pairs.into_iter().map(|(k, v)| (k.to_string(), v)).collect())
}

fn s(t: &str) -> Json {
    Json::String(t.to_string())
}

fn strs(v: &[&str]) -> Vec<String> {
    v.iter().map(|x| x.to_string()).collect()
}

fn get<'a>(j: &'a Json, key: &str) -> &'a Json {
    match j {
        Json::Object(es) => &es.iter().find(|(k, _)| k == key).unwrap().1,
        _ => panic!("not an object"),
    }
}

fn node(uid: &str, parents: &[&str]) -> Json {
    obj(vec![
        ("parentIds", Json::Array(parents.iter().map(|p| s(p)).collect())),
        ("uniqueId", s(uid)),
    ])
}

fn graph() -> Vec<Json> {
    vec![
        node("model.p.stg", &[]),
        node("model.p.mid", &["model.p.stg"]),
        node("model.p.pub_a", &["model.p.mid"]),
        node("model.p.pub_b", &["model.p.pub_a"]),
        node("model.p.other", &[]),
    ]
}

#[test]
fn paths_are_compared_normalized() {
    assert_eq!(normalize_path("  Models\\Staging\\STG_Teams.sql "), "models/staging/stg_teams.sql");
    assert!(suffix_match("staging/stg_teams.sql", "models/staging/stg_teams.sql"));
    assert!(suffix_match("models/staging/stg_teams.sql", "staging/stg_teams.sql"));
    assert!(!suffix_match("", "models/a.sql"));
    assert!(!suffix_match("b.sql", "models/a.sql"));
}

#[test]
fn file_paths_are_told_from_unique_ids() {
    assert!(is_file_path("models/a.sql"));
    assert!(is_file_path("a.sql"));
    assert!(is_file_path("script.py"));
    assert!(!is_file_path("model.analytics.orders"));
}

#[test]
fn file_paths_resolve_to_the_first_matching_model() {
    let models = vec![
        obj(vec![("filePath", s("models/staging/stg_teams.sql")), ("uniqueId", s("model.p.stg_teams"))]),
        obj(vec![("filePath", s("models/marts/teams.sql")), ("uniqueId", s("model.p.teams"))]),
    ];
    let (found, missing) =
        resolve_files_to_unique_ids(&models, &strs(&["Models/Staging/STG_TEAMS.sql", "models/nope.sql"]));
    assert_eq!(found, vec!["model.p.stg_teams"]);
    assert_eq!(missing, vec!["models/nope.sql"]);
}

#[test]
fn public_models_are_listed_once() {
    let models = vec![
        obj(vec![("access", s("public")), ("uniqueId", s("model.p.pub_a"))]),
        obj(vec![("access", s("protected")), ("uniqueId", s("model.p.mid"))]),
        obj(vec![("access", s("public")), ("uniqueId", s("model.p.pub_a"))]),
    ];
    assert_eq!(public_model_ids(&models), vec!["model.p.pub_a"]);
}

#[test]
fn downstream_public_models_are_found_through_private_ones() {
    let public = strs(&["model.p.pub_a", "model.p.pub_b", "model.p.other"]);
    let mut r = find_downstream_public(&graph(), &strs(&["model.p.stg"]), &public);
    r.sort();
    assert_eq!(r, vec!["model.p.pub_a", "model.p.pub_b"]);
    assert!(find_downstream_public(&graph(), &strs(&["model.p.pub_b"]), &public).is_empty());
}

#[test]
fn a_public_model_is_its_own_surface() {
    let public = strs(&["model.p.pub_a", "model.p.pub_b"]);
    let mut r = public_surface(&graph(), "model.p.pub_a", &public);
    r.sort();
    assert_eq!(r, vec!["model.p.pub_a", "model.p.pub_b"]);
    assert!(public_surface(&graph(), "model.p.other", &public).is_empty());
}

fn column(uid: &str, model: &str, name: &str) -> Json {
    obj(vec![
        ("depth", Json::from_u64(1)),
        ("name", s(name)),
        ("nodeUniqueId", s(model)),
        ("transformationType", s("passthrough")),
        ("uniqueId", s(uid)),
    ])
}

#[test]
fn impact_rows_keep_columns_of_the_public_surface() {
    let cols = vec![
        column("c1", "model.p.mid", "id"),
        column("c2", "model.p.pub_a", "id"),
        column("c3", "model.p.pub_b", "name"),
    ];
    let rows = impact_rows("model.p.stg", &cols, &strs(&["model.p.pub_a"]));
    assert_eq!(rows.len(), 1);
    assert_eq!(
        rows[0],
        obj(vec![
            ("column_id", s("c2")),
            ("column_name", s("id")),
            ("consumers", Json::Array(vec![])),
            ("depth", Json::from_u64(1)),
            ("public_model", s("model.p.pub_a")),
            ("source_model", s("model.p.stg")),
            ("transformation", s("passthrough")),
        ])
    );
}

fn impact(pm: &str, consumers: Vec<Json>) -> Json {
    obj(vec![("consumers", Json::Array(consumers)), ("public_model", s(pm))])
}

fn consumer(model: &str, project: Json, env: u64) -> Json {
    obj(vec![("environment_id", Json::from_u64(env)), ("model", s(model)), ("project_id", project)])
}

#[test]
fn impacted_public_models_are_sorted_and_distinct() {
    let impacts = vec![impact("model.p.z", vec![]), impact("model.p.a", vec![]), impact("model.p.z", vec![])];
    assert_eq!(impacted_public_models(&impacts), vec!["model.p.a", "model.p.z"]);
}

#[test]
fn consumers_are_listed_once() {
    let impacts = vec![
        impact("model.p.a", vec![consumer("model.q.x", Json::from_u64(7), 3)]),
        impact("model.p.b", vec![consumer("model.q.x", Json::from_u64(7), 3), consumer("model.q.y", s("8"), 3)]),
    ];
    let mut r = cross_project_consumers(&impacts);
    r.sort();
    assert_eq!(r, vec!["model.q.x", "model.q.y"]);
}

#[test]
fn deployment_environments_skip_the_current_one() {
    let envs = vec![
        obj(vec![("id", Json::from_u64(1)), ("type", s("deployment"))]),
        obj(vec![("id", Json::from_u64(2)), ("type", s("development"))]),
        obj(vec![("id", Json::from_u64(3)), ("type", s("deployment"))]),
        obj(vec![("type", s("deployment"))]),
    ];
    assert_eq!(deployment_env_ids(&envs, 1), vec![3]);
    let projects = vec![obj(vec![("id", Json::from_u64(5))]), obj(vec![("name", s("x"))])];
    assert_eq!(project_ids(&projects), vec![5]);
}

#[test]
fn consumer_answers_become_entries() {
    let data = obj(vec![(
        "environment",
        obj(vec![(
            "applied",
            obj(vec![(
                "resources",
                obj(vec![(
                    "edges",
                    Json::Array(vec![obj(vec![(
                        "node",
                        obj(vec![("projectId", Json::from_u64(9)), ("uniqueId", s("model.q.x"))]),
                    )])]),
                )]),
            )]),
        )]),
    )]);
    assert_eq!(consumer_entries(&data, 4), vec![consumer("model.q.x", Json::from_u64(9), 4)]);
}

fn report(impacts: Vec<Json>) -> Json {
    let impacted = impacted_public_models(&impacts);
    let consumers = cross_project_consumers(&impacts);
    impact_report(impacts, &impacted, &strs(&["model.p.lonely"]), &consumers)
}

#[test]
fn report_summarizes_the_impacts() {
    let r = report(vec![impact("model.p.a", vec![]), impact("model.p.a", vec![])]);
    let summary = get(&r, "summary");
    assert_eq!(get(summary, "total_impacts"), &Json::from_u64(2));
    assert_eq!(get(summary, "public_models_with_impact"), &Json::Array(vec![s("model.p.a")]));
    assert_eq!(get(summary, "models_without_public_downstream"), &Json::Array(vec![s("model.p.lonely")]));
    assert_eq!(get(summary, "cross_project_consumers"), &Json::Array(vec![]));
}

#[test]
fn table_without_consumers_lists_public_models() {
    let r = report(vec![impact("model.p.a", vec![]), impact("model.p.a", vec![]), impact("model.p.b", vec![])]);
    let t = consumer_summary_table(&r);
    assert_eq!(
        t,
        Json::Array(vec![
            obj(vec![
                ("consumers", s("none found")),
                ("impacted_columns", Json::from_u64(2)),
                ("public_model", s("model.p.a")),
            ]),
            obj(vec![
                ("consumers", s("none found")),
                ("impacted_columns", Json::from_u64(1)),
                ("public_model", s("model.p.b")),
            ]),
        ])
    );
}

#[test]
fn table_with_consumers_counts_columns_per_consumer() {
    let r = report(vec![
        impact("model.p.a", vec![consumer("model.q.y", Json::from_u64(7), 3)]),
        impact("model.p.a", vec![consumer("model.q.y", Json::from_u64(7), 3), consumer("model.q.b", s("8"), 3)]),
    ]);
    let t = consumer_summary_table(&r);
    assert_eq!(
        t,
        Json::Array(vec![
            obj(vec![
                ("consumer_model", s("model.q.b")),
                ("environment_id", s("3")),
                ("impacted_columns", Json::from_u64(1)),
                ("project_id", s("8")),
                ("public_model", s("model.p.a")),
            ]),
            obj(vec![
                ("consumer_model", s("model.q.y")),
                ("environment_id", s("3")),
                ("impacted_columns", Json::from_u64(2)),
                ("project_id", s("7")),
                ("public_model", s("model.p.a")),
            ]),
        ])
    );
}

#[test]
fn failing_on_impact_returns_the_report() {
    let r = report(vec![impact("model.p.a", vec![])]);
    match finish_impact(r, false, true, false) {
        Err(DbtpError::ImpactFound(rep)) => {
            assert_eq!(get(get(&rep, "summary"), "total_impacts"), &Json::from_u64(1))
        },
        other => panic!("expected an impact failure, got {other:?}"),
    }
}

#[test]
fn cross_project_mode_keeps_only_consumed_impacts() {
    let r = report(vec![impact("model.p.a", vec![]), impact("model.p.b", vec![consumer("model.q.x", s("1"), 2)])]);
    let out = finish_impact(r, true, false, false).unwrap();
    match get(&out, "impacts") {
        Json::Array(a) => assert_eq!(a.len(), 1),
        _ => panic!("impacts is not an array"),
    }
    assert_eq!(get(get(&out, "summary"), "total_impacts"), &Json::from_u64(1));
    let none = report(vec![impact("model.p.a", vec![])]);
    assert!(finish_impact(none, true, true, false).is_ok());
}

#[test]
fn inputs_come_from_arguments_or_stdin() {
    let r = collect_inputs(true, &strs(&["  models/a.sql ", "", "   "]), &vec![]).unwrap();
    assert_eq!(r, vec!["models/a.sql"]);
    match collect_inputs(true, &strs(&["", " "]), &vec![]) {
        Err(DbtpError::Config(m)) => assert_eq!(m, "no file paths provided on stdin; pipe file paths with --files"),
        other => panic!("unexpected {other:?}"),
    }
    assert!(matches!(collect_inputs(false, &vec![], &vec![]), Err(DbtpError::Config(_))));
    assert_eq!(collect_inputs(false, &vec![], &strs(&["model.p.a"])).unwrap(), vec!["model.p.a"]);
}

#[test]
fn inputs_split_into_ids_and_paths() {
    let (ids, paths) = partition_inputs(&strs(&["model.p.a", "models/b.sql", "model.p.c", "x.py"]));
    assert_eq!(ids, vec!["model.p.a", "model.p.c"]);
    assert_eq!(paths, vec!["models/b.sql", "x.py"]);
}

#[test]
fn no_targets_is_an_error() {
    match impact_targets(vec![], vec![]) {
        Err(DbtpError::Config(m)) => {
            assert_eq!(m, "none of the provided inputs matched any models in the environment")
        },
        other => panic!("unexpected {other:?}"),
    }
    assert_eq!(impact_targets(strs(&["a"]), strs(&["b"])).unwrap(), vec!["a", "b"]);
}

#[test]
fn downstream_environments_imply_cross_project() {
    assert_eq!(impact_scope(false, &vec![]), (false, vec![]));
    assert_eq!(impact_scope(true, &vec![]), (true, vec![]));
    assert_eq!(impact_scope(false, &vec![4, 5]), (true, vec![4, 5]));
}

#[test]
fn the_consumer_lookup_is_planned_from_what_is_impacted() {
    assert_eq!(consumer_plan(&vec![], &vec![1, 2]), ConsumerPlan::Done);
    assert_eq!(consumer_plan(&strs(&["model.p.a"]), &vec![]), ConsumerPlan::DiscoverEnvironments);
    assert_eq!(
        consumer_plan(&strs(&["model.p.a", "model.p.b"]), &vec![7, 8]),
        ConsumerPlan::Query(vec![
            (7, "model.p.a".to_string()),
            (7, "model.p.b".to_string()),
            (8, "model.p.a".to_string()),
            (8, "model.p.b".to_string()),
        ])
    );
}

#[test]
fn consumer_entries_are_counted() {
    let r = report(vec![impact("model.p.a", vec![]), impact("model.p.b", vec![])]);
    assert_eq!(consumer_count(&r), Some(0));
    let c = consumer("model.q.x", Json::from_u64(9), 4);
    let r = report(vec![impact("model.p.a", vec![dbtp::json::clone_json(&c), dbtp::json::clone_json(&c)]), impact("model.p.b", vec![c])]);
    assert_eq!(consumer_count(&r), Some(3));
    assert_eq!(consumer_count(&Json::empty_object()), Some(0));
}
