//! The errors of the command line tool.
use vstd::prelude::*;

use crate::json::Json;
use crate::text::{join2, join3, owned, u64_to_string, spec_decimal};

verus! {

/// Everything that can go wrong while talking to dbt Cloud.
#[derive(Debug, PartialEq)]
pub enum DbtpError {
    /// The HTTP exchange itself failed.
    Http(String),
    /// The configuration is missing or invalid, or an input was refused.
    Config(String),
    /// A GraphQL endpoint answered with errors.
    GraphQL(String),
    /// A REST endpoint answered with a status outside 2xx.
    Api { status: u16, message: String },
    /// Reading or writing a local file failed.
    Io(String),
    /// A document was not valid JSON.
    Json(String),
    /// A Semantic Layer result could not be decoded.
    Arrow(String),
    /// An impact analysis found public-model impacts; the report is attached.
    ImpactFound(Json),
}

/// The model of an error's message, as it is shown to the user.
pub open spec fn error_text(e: DbtpError) -> Seq<char> {
    match e {
        DbtpError::Http(m) => "HTTP error: "@ + m@,
        DbtpError::Config(m) => "Configuration error: "@ + m@,
        DbtpError::GraphQL(m) => "GraphQL error: "@ + m@,
        DbtpError::Api { status, message } => "API error (HTTP "@ + spec_decimal(status as nat) + "): "@ + message@,
        DbtpError::Io(m) => "I/O error: "@ + m@,
        DbtpError::Json(m) => "JSON error: "@ + m@,
        DbtpError::Arrow(m) => "Arrow error: "@ + m@,
        DbtpError::ImpactFound(_) => "Impact found"@,
    }
}

/// The error is a configuration error with the given message.
pub open spec fn config_error(e: DbtpError, msg: Seq<char>) -> bool {
    e matches DbtpError::Config(m) && m@ == msg
}

/// The error is a GraphQL error with the given message.
pub open spec fn graphql_error(e: DbtpError, msg: Seq<char>) -> bool {
    e matches DbtpError::GraphQL(m) && m@ == msg
}

/// The error is an API error with the given status and message.
pub open spec fn api_error(e: DbtpError, status: u16, msg: Seq<char>) -> bool {
    e matches DbtpError::Api { status: s, message: m } && s == status && m@ == msg
}

impl DbtpError {
    /// A configuration error with the given message.
    pub fn config(msg: &str) -> (r: DbtpError)
        ensures
            r matches DbtpError::Config(m) && m@ == msg@,
    {
        DbtpError::Config(owned(msg))
    }

    /// An API error for an HTTP status and message.
    pub fn api(status: u16, msg: &str) -> (r: DbtpError)
        ensures
            r matches DbtpError::Api { status: s, message: m } && s == status && m@ == msg@,
    {
        DbtpError::Api { status, message: owned(msg) }
    }

    /// A GraphQL error with the given message.
    pub fn graphql(msg: &str) -> (r: DbtpError)
        ensures
            r matches DbtpError::GraphQL(m) && m@ == msg@,
    {
        DbtpError::GraphQL(owned(msg))
    }

    /// The message shown to the user for this error.
    pub fn message(&self) -> (r: String)
        ensures
            r@ == error_text(*self),
    {
        match self {
            DbtpError::Http(m) => join2("HTTP error: ", m.as_str()),
            DbtpError::Config(m) => join2("Configuration error: ", m.as_str()),
            DbtpError::GraphQL(m) => join2("GraphQL error: ", m.as_str()),
            DbtpError::Api { status, message } => {
                let code = u64_to_string(*status as u64);
                let head = join3("API error (HTTP ", code.as_str(), "): ");
                join2(head.as_str(), message.as_str())
            },
            DbtpError::Io(m) => join2("I/O error: ", m.as_str()),
            DbtpError::Json(m) => join2("JSON error: ", m.as_str()),
            DbtpError::Arrow(m) => join2("Arrow error: ", m.as_str()),
            DbtpError::ImpactFound(_) => owned("Impact found"),
        }
    }
}

} // verus!
