//! The envelope in which the dbt Cloud REST API wraps its answers.
use vstd::prelude::*;
use crate::json::Json;

verus! {

/// The standard dbt Cloud API response envelope.
pub struct Envelope<T> {
    pub data: T,
    pub status: ResponseStatus,
    pub extra: Option<Extra>,
}

/// The status part of an envelope.
#[derive(Debug, Clone)]
pub struct ResponseStatus {
    pub is_success: bool,
    pub code: u16,
    pub user_message: String,
    pub developer_message: Option<String>,
}

/// The `extra` part of an envelope.
pub struct Extra {
    pub pagination: Option<Pagination>,
    pub filters: Option<Json>,
}

/// Paging information of a list response.
#[derive(Debug, Clone, Copy)]
pub struct Pagination {
    pub count: u64,
    pub total_count: u64,
    pub offset: Option<u64>,
    pub limit: Option<u64>,
}

} // verus!
