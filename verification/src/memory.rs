//! What agents remember: chats, files, core blocks, facts, checkpoints, logs.
pub mod chat;
pub mod checkpoint;
pub mod core_memory;
pub mod daily_log;
pub mod error;
pub mod files;
pub mod long_term;
pub mod memory_laws;
pub mod messages;
pub mod perms;
pub mod semantic;
pub mod transcript;
