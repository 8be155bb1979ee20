//! Why a sandbox could not do something.
use vstd::prelude::*;

verus! {

/// Why a sandbox could not do something.
#[derive(Debug)]
pub enum IsolationError {
    OciContainerFailed(String),
    VmStartFailed(String),
    Wasmtime(String),
    CompilationFailed { tool: String, reason: String },
    ToolNotFound(String),
    FuelError(String),
    FuelExhausted,
    InstantiationFailed(String),
    MissingExport { tool: String, export: String },
    ExecutionFailed(String),
}

pub enum IsolationErrorV {
    OciContainerFailed(Seq<char>),
    VmStartFailed(Seq<char>),
    Wasmtime(Seq<char>),
    CompilationFailed { tool: Seq<char>, reason: Seq<char> },
    ToolNotFound(Seq<char>),
    FuelError(Seq<char>),
    FuelExhausted,
    InstantiationFailed(Seq<char>),
    MissingExport { tool: Seq<char>, export: Seq<char> },
    ExecutionFailed(Seq<char>),
}

impl View for IsolationError {
    type V = IsolationErrorV;

    open spec fn view(&self) -> IsolationErrorV {
        match *self {
            IsolationError::OciContainerFailed(m) => IsolationErrorV::OciContainerFailed(m@),
            IsolationError::VmStartFailed(m) => IsolationErrorV::VmStartFailed(m@),
            IsolationError::Wasmtime(m) => IsolationErrorV::Wasmtime(m@),
            IsolationError::CompilationFailed { tool, reason } => IsolationErrorV::CompilationFailed {
                tool: tool@,
                reason: reason@,
            },
            IsolationError::ToolNotFound(m) => IsolationErrorV::ToolNotFound(m@),
            IsolationError::FuelError(m) => IsolationErrorV::FuelError(m@),
            IsolationError::FuelExhausted => IsolationErrorV::FuelExhausted,
            IsolationError::InstantiationFailed(m) => IsolationErrorV::InstantiationFailed(m@),
            IsolationError::MissingExport { tool, export } => IsolationErrorV::MissingExport {
                tool: tool@,
                export: export@,
            },
            IsolationError::ExecutionFailed(m) => IsolationErrorV::ExecutionFailed(m@),
        }
    }
}

} // verus!
