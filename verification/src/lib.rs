//! The rules of an MCP reverse proxy: what its configuration may hold, what
//! each middleware lets through, hides, renames, repeats or answers itself,
//! and what a reload changes.

pub mod access_log;
pub mod admin;
pub mod admin_tools;
pub mod alias;
pub mod cache;
pub mod coalesce;
pub mod config;
pub mod discovery;
pub mod filter;
pub mod float;
pub mod gateway;
pub mod json;
pub mod keys;
pub mod metrics;
pub mod names;
pub mod protocol;
pub mod proxy;
pub mod rbac;
pub mod reload;
pub mod retry;
pub mod sequences;
pub mod skills;
pub mod text;
pub mod validation;
