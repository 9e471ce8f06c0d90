//! dbtp: a client for the dbt Cloud platform APIs. The library holds every
//! decision the tool makes, each with a contract proved by Verus.
pub mod json;
pub mod text;
pub mod graph;
pub mod lineage;
pub mod columns;
pub mod error;
pub mod lists;
pub mod impact;
pub mod config;
pub mod discovery;
pub mod rest;
pub mod graphql;
pub mod semantic;
pub mod admin;
pub mod audit;
pub mod output;
pub mod cli;
pub mod types;
pub mod setup;
pub mod system;
pub mod endpoints;
