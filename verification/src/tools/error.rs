//! Why a tool could not do something.
use vstd::prelude::*;

verus! {

/// Why a tool could not do something.
#[derive(Debug)]
pub enum ToolError {
    NotFound(String),
    InvalidArgs { tool: String, reason: String },
    ExecutionFailed { tool: String, reason: String },
}

pub enum ToolErrorV {
    NotFound(Seq<char>),
    InvalidArgs { tool: Seq<char>, reason: Seq<char> },
    ExecutionFailed { tool: Seq<char>, reason: Seq<char> },
}

impl View for ToolError {
    type V = ToolErrorV;

    open spec fn view(&self) -> ToolErrorV {
        match *self {
            ToolError::NotFound(m) => ToolErrorV::NotFound(m@),
            ToolError::InvalidArgs { tool, reason } => ToolErrorV::InvalidArgs { tool: tool@, reason: reason@ },
            ToolError::ExecutionFailed { tool, reason } => ToolErrorV::ExecutionFailed {
                tool: tool@,
                reason: reason@,
            },
        }
    }
}

} // verus!
