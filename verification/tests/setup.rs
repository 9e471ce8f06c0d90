use dbtp::error::DbtpError;
use dbtp::json::Json;
use dbtp::setup::{
    environment_choices, optional_account_id, optional_text, project_choices, required_account_id, with_scheme,
};
use dbtp::system::{detect_target, is_up_to_date, pick_asset, release_tag, release_url};

fn obj(pairs: Vec<(&str, Json)>) -> Json {
    Json::Object(pairs.into_iter().map(|(k, v)| (k.to_string(), v)).collect())
}

fn s(t: &str) -> Json {
    Json::String(t.to_string())
}

#[test]
fn typed_hosts_get_a_scheme() {
    assert_eq!(with_scheme("emea.dbt.com".to_string()), "https://emea.dbt.com");
    assert_eq!(with_scheme("http://localhost".to_string()), "http://localhost");
    assert_eq!(with_scheme("https://x".to_string()), "https://x");
}

#[test]
fn account_ids_must_be_numbers() {
    assert_eq!(optional_account_id("").unwrap(), None);
    assert_eq!(optional_account_id("51798").unwrap(), Some(51798));
    assert_eq!(
        optional_account_id("abc").unwrap_err(),
        DbtpError::Config("Account ID must be a number".to_string())
    );
    assert_eq!(required_account_id("12").unwrap(), 12);
    assert!(required_account_id("").is_err());
}

#[test]
fn empty_answers_are_none() {
    assert_eq!(optional_text(String::new()), None);
    assert_eq!(optional_text("12".to_string()), Some("12".to_string()));
}

#[test]
fn projects_and_environments_are_offered_by_name() {
    let projects = vec![
        obj(vec![("id", Json::from_u64(1)), ("name", s("Analytics"))]),
        obj(vec![("name", s("No id"))]),
    ];
    assert_eq!(project_choices(&projects), vec![("Analytics".to_string(), "1".to_string())]);
    let envs = vec![
        obj(vec![("id", Json::from_u64(5)), ("name", s("Prod")), ("type", s("deployment"))]),
        obj(vec![("id", Json::from_u64(6)), ("name", s("Dev"))]),
    ];
    assert_eq!(
        environment_choices(&envs),
        vec![
            ("Prod, deployment".to_string(), "5".to_string()),
            ("Dev, unknown".to_string(), "6".to_string())
        ]
    );
}

#[test]
fn supported_platforms_have_targets() {
    assert_eq!(detect_target("macos", "aarch64").unwrap(), "aarch64-apple-darwin");
    assert_eq!(detect_target("linux", "x86_64").unwrap(), "x86_64-unknown-linux-gnu");
    assert_eq!(
        detect_target("windows", "x86_64").unwrap_err(),
        DbtpError::Config("Unsupported platform: windows/x86_64".to_string())
    );
}

#[test]
fn releases_are_fetched_by_tag() {
    assert_eq!(release_tag("0.2.0"), "v0.2.0");
    assert_eq!(release_tag("v0.2.0"), "v0.2.0");
    assert_eq!(release_url(Some("0.2.0")), "https://api.github.com/repos/trouze/dbtp/releases/tags/v0.2.0");
    assert_eq!(release_url(None), "https://api.github.com/repos/trouze/dbtp/releases/latest");
}

#[test]
fn up_to_date_only_without_a_pin() {
    assert!(is_up_to_date("v0.1.0", "0.1.0", false));
    assert!(!is_up_to_date("v0.1.0", "0.1.0", true));
    assert!(!is_up_to_date("v0.2.0", "0.1.0", false));
}

#[test]
fn the_asset_for_the_target_is_picked() {
    let names = vec![
        "dbtp-v0.2.0-x86_64-apple-darwin.tar.gz".to_string(),
        "dbtp-v0.2.0-x86_64-unknown-linux-gnu.tar.gz".to_string(),
    ];
    assert_eq!(pick_asset(&names, "v0.2.0", "x86_64-unknown-linux-gnu").unwrap(), 1);
    assert_eq!(
        pick_asset(&names, "v0.2.0", "aarch64-unknown-linux-gnu").unwrap_err(),
        DbtpError::Config(
            "No binary found for aarch64-unknown-linux-gnu in release v0.2.0. Available: \
             dbtp-v0.2.0-x86_64-apple-darwin.tar.gz, dbtp-v0.2.0-x86_64-unknown-linux-gnu.tar.gz"
                .to_string()
        )
    );
}
