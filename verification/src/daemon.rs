//! The daemon's rules: automations and their runs, sessions, variants,
//! webhooks.
pub mod automation;
pub mod automation_executor;
pub mod automation_runs;
pub mod diff;
pub mod execution;
pub mod execution_laws;
pub mod notice_laws;
pub mod run_laws;
pub mod store_laws;
pub mod automation_store;
pub mod frames;
pub mod git;
pub mod config;
pub mod consolidation;
pub mod interrupt;
pub mod session_laws;
pub mod sessions;
pub mod startup;
pub mod topology;
pub mod variants;
pub mod webhook;
pub mod workflows;
