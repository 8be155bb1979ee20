pub mod daemon;
pub mod isolation;
pub mod json;
pub mod llm;
pub mod memory;
pub mod outside;
pub mod session;
pub mod table;
pub mod text;
pub mod text_laws;
pub mod token;
pub mod tools;
