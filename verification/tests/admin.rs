use dbtp::admin::{
    keep_fields, strip_fields,
    compact_artifacts, compact_job, compact_jobs, compact_project, compact_run, extract_run_errors,
    is_terminal_status, job_create_body, relevant_logs, trigger_body, triggered_run_id, waiting_message,
    EndSignal, RunWatch, WaitOutcome,
};
use dbtp::error::DbtpError;
use dbtp::json::Json;

fn obj(pairs: Vec<(&str, Json)>) -> Json {
    Json::Object(pairs.into_iter().map(|(k, v)| (k.to_string(), v)).collect())
}

fn s(t: &str) -> Json {
    Json::String(t.to_string())
}

#[test]
fn compact_job_keeps_the_listed_fields() {
    let job = obj(vec![
        ("account_id", Json::from_u64(1)),
        ("id", Json::from_u64(7)),
        ("name", s("Nightly")),
        ("settings", obj(vec![])),
    ]);
    let expected = obj(vec![("id", Json::from_u64(7)), ("name", s("Nightly"))]);
    assert_eq!(compact_job(&job), expected);
    let jobs = Json::Array(vec![job]);
    assert_eq!(compact_jobs(&jobs), Json::Array(vec![obj(vec![("id", Json::from_u64(7)), ("name", s("Nightly"))])]));
    assert_eq!(compact_job(&s("x")), s("x"));
}

#[test]
fn compact_run_lifts_job_details_and_drops_noise() {
    let run = obj(vec![
        ("account_id", Json::from_u64(1)),
        ("id", Json::from_u64(9)),
        (
            "job",
            obj(vec![("execute_steps", Json::Array(vec![s("dbt build")])), ("name", s("Nightly"))]),
        ),
        ("status", Json::from_u64(10)),
        ("trigger", obj(vec![])),
    ]);
    assert_eq!(
        compact_run(&run),
        obj(vec![
            ("id", Json::from_u64(9)),
            ("job_name", s("Nightly")),
            ("job_steps", Json::Array(vec![s("dbt build")])),
            ("status", Json::from_u64(10)),
        ])
    );
}

#[test]
fn compact_project_and_artifacts() {
    let p = obj(vec![("docs_job", Json::Null), ("id", Json::from_u64(3)), ("name", s("A"))]);
    assert_eq!(compact_project(&p), obj(vec![("id", Json::from_u64(3)), ("name", s("A"))]));
    let a = Json::Array(vec![s("catalog.json"), s("compiled/x.sql"), s("run/y.sql"), s("run_results.json")]);
    assert_eq!(compact_artifacts(&a), Json::Array(vec![s("catalog.json"), s("run_results.json")]));
}

#[test]
fn long_logs_keep_their_last_fifty_lines() {
    let lines: Vec<String> = (1..=60).map(|i| format!("line {i}")).collect();
    let logs = lines.join("\n");
    let tail = relevant_logs(&logs);
    assert_eq!(tail, lines[10..].join("\n"));
    assert_eq!(relevant_logs("a\nb"), "a\nb");
}

#[test]
fn run_errors_list_failed_steps() {
    let run = obj(vec![
        ("id", Json::from_u64(5)),
        (
            "run_steps",
            Json::Array(vec![
                obj(vec![("index", Json::from_u64(1)), ("name", s("deps")), ("status_humanized", s("Success"))]),
                obj(vec![
                    ("index", Json::from_u64(2)),
                    ("logs", s("boom")),
                    ("name", s("build")),
                    ("status_humanized", s("Error")),
                ]),
                obj(vec![("index", Json::from_u64(3)), ("name", s("docs")), ("status_humanized", s("Cancelled"))]),
            ]),
        ),
        ("status_humanized", s("Error")),
    ]);
    assert_eq!(
        extract_run_errors(&run),
        obj(vec![
            (
                "error_steps",
                Json::Array(vec![
                    obj(vec![
                        ("index", Json::from_u64(2)),
                        ("logs", s("boom")),
                        ("name", s("build")),
                        ("status", s("Error")),
                    ]),
                    obj(vec![("index", Json::from_u64(3)), ("name", s("docs")), ("status", s("Cancelled"))]),
                ])
            ),
            ("run_id", Json::from_u64(5)),
            ("status", s("Error")),
        ])
    );
}

#[test]
fn terminal_statuses() {
    assert!(is_terminal_status(10));
    assert!(is_terminal_status(20));
    assert!(is_terminal_status(30));
    assert!(!is_terminal_status(3));
}

#[test]
fn waiting_reports_changes_and_times_out() {
    let mut w = RunWatch::new();
    let running = obj(vec![("is_complete", Json::Bool(false)), ("status_humanized", s("Running"))]);
    let (line, out) = w.observe(&running, 42, 0, 60, EndSignal::Complete);
    assert_eq!(line.as_deref(), Some("Run 42: Running"));
    assert!(matches!(out, Ok(WaitOutcome::Poll)));
    let (line, out) = w.observe(&running, 42, 30, 60, EndSignal::Complete);
    assert_eq!(line, None);
    assert!(matches!(out, Ok(WaitOutcome::Poll)));
    let (_, out) = w.observe(&running, 42, 60, 60, EndSignal::Complete);
    assert_eq!(out.unwrap_err(), DbtpError::Config("Timeout waiting for run 42 after 60s".to_string()));
    let done = obj(vec![("status", Json::from_u64(10)), ("status_humanized", s("Success"))]);
    let (line, out) = w.observe(&done, 42, 90, 60, EndSignal::TerminalStatus);
    assert_eq!(line.as_deref(), Some("Run 42: Success"));
    assert!(matches!(out, Ok(WaitOutcome::Ended)));
}

#[test]
fn triggering_a_job() {
    assert_eq!(trigger_body(&None, &None, &None), obj(vec![("cause", s("Triggered via dbtp CLI"))]));
    assert_eq!(
        trigger_body(&Some("deploy".to_string()), &Some("main".to_string()), &None),
        obj(vec![("cause", s("deploy")), ("git_branch", s("main"))])
    );
    assert_eq!(triggered_run_id(&obj(vec![("id", Json::from_u64(901))])).unwrap(), 901);
    assert_eq!(
        triggered_run_id(&obj(vec![])).unwrap_err(),
        DbtpError::Config("Trigger response missing run id".to_string())
    );
    assert_eq!(waiting_message(1, 10, 3600), "Waiting for run 1 (polling every 10s, timeout 3600s)...");
    assert_eq!(
        job_create_body("Nightly", 2, 3),
        obj(vec![("environment_id", Json::from_u64(3)), ("name", s("Nightly")), ("project_id", Json::from_u64(2))])
    );
}

#[test]
fn keeping_and_stripping_split_the_fields() {
    let v = obj(vec![("a", Json::from_u64(1)), ("b", Json::from_u64(2)), ("c", Json::from_u64(3))]);
    let fields = vec!["a", "c", "z"];
    assert_eq!(keep_fields(&v, &fields), obj(vec![("a", Json::from_u64(1)), ("c", Json::from_u64(3))]));
    assert_eq!(strip_fields(&v, &fields), obj(vec![("b", Json::from_u64(2))]));
}
