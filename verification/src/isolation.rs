//! Running untrusted code apart: session containers, WASM modules, microVMs.
pub mod error;
pub mod firecracker;
pub mod session_sandbox;
pub mod wasmtime_sandbox;
pub mod sandbox_laws;
