//! The tools that agents call.
pub mod error;
pub mod executor;
pub mod fs_tools;
pub mod paths;
pub mod tool_laws;
pub mod route_laws;
