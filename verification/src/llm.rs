//! Language-model providers: what is sent to each, and how its replies read.
pub mod anthropic;
pub mod fallback;
pub mod gemini;
pub mod mistral;
pub mod ollama;
pub mod ollama_stream;
pub mod openai;
pub mod provider;
pub mod registry;
pub mod wire;
pub mod reply_laws;
pub mod request_laws;
pub mod stream_laws;
