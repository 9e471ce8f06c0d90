//! The commands of the tool and their options, as plain values.
use vstd::prelude::*;
use crate::config::ConfigOverrides;
use crate::text::{spec_decimal, u64_to_string};

verus! {

/// Options that every command takes.
#[derive(Debug, Clone)]
pub struct GlobalOpts {
    /// Output format: table, json, yaml, compact.
    pub output: Option<String>,
    /// Named config profile to use.
    pub profile: Option<String>,
    /// dbt Cloud host URL.
    pub host: Option<String>,
    /// dbt Cloud API token.
    pub token: Option<String>,
    /// dbt Cloud account ID.
    pub account_id: Option<u64>,
    /// dbt Cloud environment ID (for Discovery / Semantic Layer).
    pub environment_id: Option<u64>,
    /// Verbose output.
    pub verbose: bool,
    /// JMESPath query to filter JSON output.
    pub query: Option<String>,
}

/// The model of an optional text.
pub open spec fn opt_text_v(o: Option<String>) -> Option<Seq<char>> {
    match o {
        Some(s) => Some(s@),
        None => None,
    }
}

impl GlobalOpts {
    /// The configuration overrides that the command line gives: its host,
    /// token, account, environment (as its decimal text) and output format.
    pub fn overrides(&self) -> (r: ConfigOverrides)
        ensures
            opt_text_v(r.host) == opt_text_v(self.host),
            opt_text_v(r.token) == opt_text_v(self.token),
            r.service_token is None,
            r.account_id == self.account_id,
            r.project_id is None,
            opt_text_v(r.environment_id) == (match self.environment_id {
                Some(e) => Some(spec_decimal(e as nat)),
                None => None,
            }),
            opt_text_v(r.output) == opt_text_v(self.output),
    {
        ConfigOverrides {
            host: self.host.clone(),
            token: self.token.clone(),
            service_token: None,
            account_id: self.account_id,
            project_id: None,
            environment_id: match self.environment_id {
                Some(e) => Some(u64_to_string(e)),
                None => None,
            },
            output: self.output.clone(),
        }
    }
}

/// `configure`: set up a profile.
#[derive(Debug, Clone)]
pub struct ConfigureArgs {
    /// Profile name to configure.
    pub profile_name: String,
    /// Plain prompts only.
    pub non_interactive: bool,
}

/// `init`: first-time setup.
#[derive(Debug, Clone)]
pub struct InitArgs {
    /// Plain prompts only.
    pub non_interactive: bool,
}

/// `accounts`.
#[derive(Debug, Clone)]
pub struct AccountsArgs {
    pub command: AccountsCommand,
}

#[derive(Debug, Clone)]
pub enum AccountsCommand {
    /// List accessible accounts.
    List,
    /// Show account details (the configured account by default).
    Show { account_id: Option<u64> },
}

/// `projects`.
#[derive(Debug, Clone)]
pub struct ProjectsArgs {
    pub command: ProjectsCommand,
}

#[derive(Debug, Clone)]
pub enum ProjectsCommand {
    List { limit: Option<u64> },
    Show { id: u64 },
    Create { name: String, description: Option<String> },
    Update { id: u64, name: Option<String>, description: Option<String> },
    Delete { id: u64 },
}

/// `environments`.
#[derive(Debug, Clone)]
pub struct EnvironmentsArgs {
    /// Project ID or name (falls back to the configuration).
    pub project_id: Option<String>,
    pub command: EnvironmentsCommand,
}

#[derive(Debug, Clone)]
pub enum EnvironmentsCommand {
    List { limit: Option<u64> },
    Show { id: u64 },
    /// `env_type` is `deployment` or `development`.
    Create { name: String, env_type: String },
    Update { id: u64, name: Option<String> },
    Delete { id: u64 },
}

/// `jobs`.
#[derive(Debug, Clone)]
pub struct JobsArgs {
    pub command: JobsCommand,
}

#[derive(Debug, Clone)]
pub enum JobsCommand {
    List { project_id: Option<String>, environment_id: Option<u64>, limit: Option<u64> },
    Show { id: u64 },
    Create { name: String, project_id: Option<String>, environment_id: u64 },
    Update { id: u64, name: Option<String> },
    Delete { id: u64 },
    Trigger {
        id: u64,
        cause: Option<String>,
        git_branch: Option<String>,
        git_sha: Option<String>,
        wait: bool,
        interval: u64,
        timeout: u64,
    },
    TriggerFromFailure { id: u64, wait: bool, interval: u64, timeout: u64 },
}

/// `runs`.
#[derive(Debug, Clone)]
pub struct RunsArgs {
    pub command: RunsCommand,
}

#[derive(Debug, Clone)]
pub enum RunsCommand {
    List { job_id: Option<u64>, status: Option<String>, limit: Option<u64> },
    Show { id: u64 },
    Cancel { id: u64 },
    Retry { id: u64 },
    Wait { id: u64, interval: u64, timeout: u64 },
    Errors { id: u64 },
}

/// `artifacts`.
#[derive(Debug, Clone)]
pub struct ArtifactsArgs {
    pub command: ArtifactsCommand,
}

#[derive(Debug, Clone)]
pub enum ArtifactsCommand {
    List { run_id: u64 },
    Get { run_id: u64, path: String },
}

/// `audit-logs`.
#[derive(Debug, Clone)]
pub struct AuditLogsArgs {
    pub command: AuditLogsCommand,
}

#[derive(Debug, Clone)]
pub enum AuditLogsCommand {
    List { include_related: Option<String> },
    /// Export events at or after `since` to `output` (`-` is stdout).
    Export { since: String, output: String },
}

/// `config`.
#[derive(Debug, Clone)]
pub struct ConfigArgs {
    pub command: ConfigCommand,
}

#[derive(Debug, Clone)]
pub enum ConfigCommand {
    List,
    Get { key: String },
    SetValue { key: String, value: String },
    Unset { key: String },
}

/// `models`.
#[derive(Debug, Clone)]
pub struct ModelsArgs {
    pub command: ModelsCommand,
}

#[derive(Debug, Clone)]
pub enum ModelsCommand {
    List { mart_only: bool },
    Show { identifier: String },
    Parents { identifier: String },
    Children { identifier: String },
    Health { identifier: String },
    Performance { identifier: String, num_runs: u32, include_tests: bool },
}

/// `lineage`.
#[derive(Debug, Clone)]
pub struct LineageArgs {
    pub command: LineageCommand,
}

#[derive(Debug, Clone)]
pub enum LineageCommand {
    /// Max hops from the node (0 = unlimited), and the resource types kept.
    Show { unique_id: String, depth: u32, types: Vec<String> },
    Columns { unique_id: String, downstream_only: bool, upstream_only: bool },
    Impact {
        inputs: Vec<String>,
        files: bool,
        cross_project: bool,
        fail_on_impact: bool,
        downstream_envs: Vec<u64>,
    },
}

/// `sources`.
#[derive(Debug, Clone)]
pub struct SourcesArgs {
    pub command: SourcesCommand,
}

#[derive(Debug, Clone)]
pub enum SourcesCommand {
    List { source_name: Option<String> },
    Show { identifier: String },
}

/// `exposures`.
#[derive(Debug, Clone)]
pub struct ExposuresArgs {
    pub command: ExposuresCommand,
}

#[derive(Debug, Clone)]
pub enum ExposuresCommand {
    List,
    Show { identifier: String },
}

/// `macros`.
#[derive(Debug, Clone)]
pub struct MacrosArgs {
    pub command: MacrosCommand,
}

#[derive(Debug, Clone)]
pub enum MacrosCommand {
    List { package: Option<String>, packages_only: bool, include_dbt_packages: bool },
    Show { identifier: String },
}

/// `seeds`.
#[derive(Debug, Clone)]
pub struct SeedsArgs {
    pub command: SeedsCommand,
}

#[derive(Debug, Clone)]
pub enum SeedsCommand {
    Show { identifier: String },
}

/// `metrics`.
#[derive(Debug, Clone)]
pub struct MetricsArgs {
    pub command: MetricsCommand,
}

#[derive(Debug, Clone)]
pub enum MetricsCommand {
    List { search: Option<String> },
    Dimensions { metrics: Vec<String>, search: Option<String> },
    Entities { metrics: Vec<String>, search: Option<String> },
    Measures { metrics: Vec<String> },
    Granularities { metrics: Vec<String> },
    ForDimensions { dimensions: Vec<String> },
    Query {
        metrics: Vec<String>,
        group_by: Vec<String>,
        where_: Vec<String>,
        order_by: Vec<String>,
        limit: Option<i64>,
        grain: Option<String>,
    },
    Sql {
        metrics: Vec<String>,
        group_by: Vec<String>,
        where_: Vec<String>,
        order_by: Vec<String>,
        limit: Option<i64>,
        grain: Option<String>,
    },
}

/// `saved-queries`.
#[derive(Debug, Clone)]
pub struct SavedQueriesArgs {
    pub command: SavedQueriesCommand,
}

#[derive(Debug, Clone)]
pub enum SavedQueriesCommand {
    List { search: Option<String> },
}

/// `dimension-values`.
#[derive(Debug, Clone)]
pub struct DimensionValuesArgs {
    pub command: DimensionValuesCommand,
}

#[derive(Debug, Clone)]
pub enum DimensionValuesCommand {
    List { metrics: Vec<String>, group_by: Vec<String> },
}

/// `system`.
#[derive(Debug, Clone)]
pub struct SystemArgs {
    pub command: SystemCommand,
}

#[derive(Debug, Clone)]
pub enum SystemCommand {
    Info,
    Update { version: Option<String> },
    Uninstall { purge: bool },
}

} // verus!
