//! Which endpoint each operation of the Admin API uses, and under which
//! version of the API: callers never choose between v2 and v3 themselves.
use vstd::prelude::*;
use crate::rest::ApiVersion;
use crate::text::{join2, join3, owned, spec_decimal, u64_to_string};

verus! {

/// An endpoint of the Admin API.
#[derive(Debug, Clone, PartialEq)]
pub enum Endpoint {
    /// All accounts the token can see (outside any account).
    Accounts,
    /// One account by id (outside any account).
    Account(u64),
    /// The account the client is configured for.
    CurrentAccount,
    Projects,
    Project(u64),
    /// The environments of a project.
    Environments(u64),
    /// One environment of a project.
    Environment(u64, u64),
    Jobs,
    Job(u64),
    /// Triggering a run of a job.
    JobRun(u64),
    /// Rerunning a job from its point of failure.
    JobRerun(u64),
    Runs,
    Run(u64),
    RunCancel(u64),
    RunRetry(u64),
    /// The artifacts of a run.
    RunArtifacts(u64),
    /// One artifact of a run, by its path.
    RunArtifact(u64, String),
    AuditLogs,
}

/// The decimal text of an id.
pub open spec fn dec(n: u64) -> Seq<char> {
    spec_decimal(n as nat)
}

/// The path of an endpoint, relative to the account (or, for the two
/// account listings, to the API root).
pub open spec fn endpoint_path_v(e: Endpoint) -> Seq<char> {
    match e {
        Endpoint::Accounts => "accounts/"@,
        Endpoint::Account(id) => "accounts/"@ + dec(id) + "/"@,
        Endpoint::CurrentAccount => Seq::empty(),
        Endpoint::Projects => "projects/"@,
        Endpoint::Project(id) => "projects/"@ + dec(id) + "/"@,
        Endpoint::Environments(p) => "projects/"@ + dec(p) + "/environments/"@,
        Endpoint::Environment(p, id) => "projects/"@ + dec(p) + "/environments/"@ + dec(id) + "/"@,
        Endpoint::Jobs => "jobs/"@,
        Endpoint::Job(id) => "jobs/"@ + dec(id) + "/"@,
        Endpoint::JobRun(id) => "jobs/"@ + dec(id) + "/run/"@,
        Endpoint::JobRerun(id) => "jobs/"@ + dec(id) + "/rerun/"@,
        Endpoint::Runs => "runs/"@,
        Endpoint::Run(id) => "runs/"@ + dec(id) + "/"@,
        Endpoint::RunCancel(id) => "runs/"@ + dec(id) + "/cancel/"@,
        Endpoint::RunRetry(id) => "runs/"@ + dec(id) + "/retry/"@,
        Endpoint::RunArtifacts(id) => "runs/"@ + dec(id) + "/artifacts/"@,
        Endpoint::RunArtifact(id, path) => "runs/"@ + dec(id) + "/artifacts/"@ + path@,
        Endpoint::AuditLogs => "audit-logs/"@,
    }
}

/// The API version an endpoint is served under: projects, environments and
/// audit logs are v3; accounts, jobs, runs and artifacts are v2.
pub open spec fn endpoint_version_v(e: Endpoint) -> ApiVersion {
    match e {
        Endpoint::Projects | Endpoint::Project(_) | Endpoint::Environments(_) | Endpoint::Environment(_, _)
        | Endpoint::AuditLogs => ApiVersion::V3,
        _ => ApiVersion::V2,
    }
}

/// Whether an endpoint lies under the configured account; the account
/// listings do not.
pub open spec fn account_scoped_v(e: Endpoint) -> bool {
    !(e is Accounts || e is Account)
}

impl Endpoint {
    /// The path of this endpoint.
    pub fn path(&self) -> (r: String)
        ensures
            r@ == endpoint_path_v(*self),
    {
        match self {
            Endpoint::Accounts => owned("accounts/"),
            Endpoint::Account(id) => join3("accounts/", u64_to_string(*id).as_str(), "/"),
            Endpoint::CurrentAccount => String::new(),
            Endpoint::Projects => owned("projects/"),
            Endpoint::Project(id) => join3("projects/", u64_to_string(*id).as_str(), "/"),
            Endpoint::Environments(p) => join3("projects/", u64_to_string(*p).as_str(), "/environments/"),
            Endpoint::Environment(p, id) => {
                let a = join3("projects/", u64_to_string(*p).as_str(), "/environments/");
                join3(a.as_str(), u64_to_string(*id).as_str(), "/")
            },
            Endpoint::Jobs => owned("jobs/"),
            Endpoint::Job(id) => join3("jobs/", u64_to_string(*id).as_str(), "/"),
            Endpoint::JobRun(id) => join3("jobs/", u64_to_string(*id).as_str(), "/run/"),
            Endpoint::JobRerun(id) => join3("jobs/", u64_to_string(*id).as_str(), "/rerun/"),
            Endpoint::Runs => owned("runs/"),
            Endpoint::Run(id) => join3("runs/", u64_to_string(*id).as_str(), "/"),
            Endpoint::RunCancel(id) => join3("runs/", u64_to_string(*id).as_str(), "/cancel/"),
            Endpoint::RunRetry(id) => join3("runs/", u64_to_string(*id).as_str(), "/retry/"),
            Endpoint::RunArtifacts(id) => join3("runs/", u64_to_string(*id).as_str(), "/artifacts/"),
            Endpoint::RunArtifact(id, path) => {
                let a = join3("runs/", u64_to_string(*id).as_str(), "/artifacts/");
                join2(a.as_str(), path.as_str())
            },
            Endpoint::AuditLogs => owned("audit-logs/"),
        }
    }

    /// The API version this endpoint is served under.
    pub fn version(&self) -> (r: ApiVersion)
        ensures
            r == endpoint_version_v(*self),
    {
        match self {
            Endpoint::Projects | Endpoint::Project(_) | Endpoint::Environments(_) | Endpoint::Environment(_, _)
            | Endpoint::AuditLogs => ApiVersion::V3,
            _ => ApiVersion::V2,
        }
    }

    /// Whether this endpoint lies under the configured account.
    pub fn account_scoped(&self) -> (r: bool)
        ensures
            r == account_scoped_v(*self),
    {
        match self {
            Endpoint::Accounts | Endpoint::Account(_) => false,
            _ => true,
        }
    }
}

} // verus!
