use dbtp::error::DbtpError;
use dbtp::json::Json;
use dbtp::semantic::{last_sql, query_result, PollAction, Poller, QueryPage};

fn obj(pairs: Vec<(&str, Json)>) -> Json {
    Json::Object(pairs.into_iter().map(|(k, v)| (k.to_string(), v)).collect())
}

fn page(status: &str, total: Option<i64>, sql: Option<&str>, error: Option<&str>) -> QueryPage {
    QueryPage {
        arrow_result: None,
        error: error.map(String::from),
        query_id: None,
        sql: sql.map(String::from),
        status: status.to_string(),
        total_pages: total,
    }
}

#[test]
fn polling_waits_then_fetches_every_page() {
    let mut p = Poller::new();
    assert!(matches!(p.step(page("RUNNING", None, None, None)), Ok(PollAction::Wait)));
    assert_eq!(p.page_num, 1);
    assert!(matches!(p.step(page("SUCCESSFUL", Some(2), Some("SELECT 1"), None)), Ok(PollAction::FetchPage(2))));
    assert!(matches!(p.step(page("Successful", Some(2), None, None)), Ok(PollAction::Finished)));
    assert!(p.finished);
    assert_eq!(p.pages.len(), 2);
    assert_eq!(last_sql(&p.pages).as_deref(), Some("SELECT 1"));
}

#[test]
fn a_failed_query_is_an_error() {
    let mut p = Poller::new();
    assert_eq!(
        p.step(page("FAILED", None, None, Some("bad metric"))).unwrap_err(),
        DbtpError::GraphQL("bad metric".to_string())
    );
    let mut q = Poller::new();
    assert_eq!(
        q.step(page("failed", None, None, None)).unwrap_err(),
        DbtpError::GraphQL("Query execution failed".to_string())
    );
}

#[test]
fn query_results_count_their_rows() {
    let rows = vec![obj(vec![("x", Json::from_u64(1))])];
    assert_eq!(
        query_result(rows, Some("SELECT x".to_string())),
        obj(vec![
            ("row_count", Json::from_u64(1)),
            ("rows", Json::Array(vec![obj(vec![("x", Json::from_u64(1))])])),
            ("sql", Json::String("SELECT x".to_string())),
        ])
    );
    assert_eq!(
        query_result(vec![], None),
        obj(vec![("row_count", Json::from_u64(0)), ("rows", Json::Array(vec![])), ("sql", Json::Null)])
    );
}

#[test]
fn a_lower_cased_status_decides_the_step() {
    let mut p = Poller::new();
    assert!(matches!(p.step_with_status(page("x", Some(1), None, None), "successful"), Ok(PollAction::Finished)));
    assert!(p.finished);
    let mut q = Poller::new();
    assert!(matches!(q.step_with_status(page("x", None, None, None), "SUCCESSFUL"), Ok(PollAction::Wait)));
    assert_eq!(
        q.step_with_status(page("x", None, None, None), "failed").unwrap_err(),
        DbtpError::GraphQL("Query execution failed".to_string())
    );
}
