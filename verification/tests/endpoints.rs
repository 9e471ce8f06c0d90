use dbtp::endpoints::Endpoint;
use dbtp::rest::ApiVersion;

#[test]
fn admin_resources_use_their_api_version() {
    assert_eq!(Endpoint::Projects.version(), ApiVersion::V3);
    assert_eq!(Endpoint::Environment(1, 2).version(), ApiVersion::V3);
    assert_eq!(Endpoint::AuditLogs.version(), ApiVersion::V3);
    assert_eq!(Endpoint::Jobs.version(), ApiVersion::V2);
    assert_eq!(Endpoint::RunArtifacts(3).version(), ApiVersion::V2);
    assert_eq!(Endpoint::Accounts.version(), ApiVersion::V2);
}

#[test]
fn endpoint_paths() {
    assert_eq!(Endpoint::Accounts.path(), "accounts/");
    assert_eq!(Endpoint::Account(51798).path(), "accounts/51798/");
    assert_eq!(Endpoint::CurrentAccount.path(), "");
    assert_eq!(Endpoint::Environment(12, 34).path(), "projects/12/environments/34/");
    assert_eq!(Endpoint::JobRun(48213).path(), "jobs/48213/run/");
    assert_eq!(Endpoint::JobRerun(48213).path(), "jobs/48213/rerun/");
    assert_eq!(Endpoint::RunCancel(9).path(), "runs/9/cancel/");
    assert_eq!(Endpoint::RunArtifact(9, "run_results.json".to_string()).path(), "runs/9/artifacts/run_results.json");
    assert_eq!(Endpoint::AuditLogs.path(), "audit-logs/");
}

#[test]
fn only_account_listings_lie_outside_the_account() {
    assert!(!Endpoint::Accounts.account_scoped());
    assert!(!Endpoint::Account(1).account_scoped());
    assert!(Endpoint::CurrentAccount.account_scoped());
    assert!(Endpoint::Runs.account_scoped());
}
