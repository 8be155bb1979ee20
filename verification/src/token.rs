//! Tokens: budgets, compact formats, and the compression of conversations.
pub mod budget;
pub mod count_laws;
pub mod counter;
pub mod format;
pub mod format_laws;
pub mod pipeline;
pub mod pipeline_laws;
