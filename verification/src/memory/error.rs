//! Why a memory store refused something.
use vstd::prelude::*;

use crate::text::{concat, decimal, decimal_text};

verus! {

/// Why a memory store refused something.
#[derive(Debug)]
pub enum MemoryError {
    Serialization(String),
    Deserialization(String),
    VectorDb(String),
    Embedding(String),
    NotInitialized,
    NotFound(String),
    Invalid(String),
    ConsolidationLlmFailed(String),
    BlockOverLimit { label: String, limit: usize, attempted: usize },
}

pub enum MemoryErrorV {
    Serialization(Seq<char>),
    Deserialization(Seq<char>),
    VectorDb(Seq<char>),
    Embedding(Seq<char>),
    NotInitialized,
    NotFound(Seq<char>),
    Invalid(Seq<char>),
    ConsolidationLlmFailed(Seq<char>),
    BlockOverLimit { label: Seq<char>, limit: usize, attempted: usize },
}

impl View for MemoryError {
    type V = MemoryErrorV;

    open spec fn view(&self) -> MemoryErrorV {
        match *self {
            MemoryError::Serialization(m) => MemoryErrorV::Serialization(m@),
            MemoryError::Deserialization(m) => MemoryErrorV::Deserialization(m@),
            MemoryError::VectorDb(m) => MemoryErrorV::VectorDb(m@),
            MemoryError::Embedding(m) => MemoryErrorV::Embedding(m@),
            MemoryError::NotInitialized => MemoryErrorV::NotInitialized,
            MemoryError::NotFound(m) => MemoryErrorV::NotFound(m@),
            MemoryError::Invalid(m) => MemoryErrorV::Invalid(m@),
            MemoryError::ConsolidationLlmFailed(m) => MemoryErrorV::ConsolidationLlmFailed(m@),
            MemoryError::BlockOverLimit { label, limit, attempted } => MemoryErrorV::BlockOverLimit {
                label: label@,
                limit,
                attempted,
            },
        }
    }
}

impl MemoryErrorV {
    /// The error in words.
    pub open spec fn text(self) -> Seq<char> {
        match self {
            MemoryErrorV::Serialization(m) => "Serialization failed: "@ + m,
            MemoryErrorV::Deserialization(m) => "Deserialization failed: "@ + m,
            MemoryErrorV::VectorDb(m) => "Vector database error: "@ + m,
            MemoryErrorV::Embedding(m) => "Embedding generation failed: "@ + m,
            MemoryErrorV::NotInitialized => "Memory not initialized"@,
            MemoryErrorV::NotFound(m) => "not found: "@ + m,
            MemoryErrorV::Invalid(m) => "invalid: "@ + m,
            MemoryErrorV::ConsolidationLlmFailed(m) => "Consolidation LLM call failed: "@ + m,
            MemoryErrorV::BlockOverLimit { label, limit, attempted } => "core-memory block '"@ + label
                + "' over limit ("@ + decimal(attempted as nat) + " > "@ + decimal(limit as nat) + " chars)"@,
        }
    }
}

impl MemoryError {
    /// The error in words.
    pub fn message(&self) -> (r: String)
        ensures
            r@ == self@.text(),
    {
        match self {
            MemoryError::Serialization(m) => concat("Serialization failed: ", m.as_str()),
            MemoryError::Deserialization(m) => concat("Deserialization failed: ", m.as_str()),
            MemoryError::VectorDb(m) => concat("Vector database error: ", m.as_str()),
            MemoryError::Embedding(m) => concat("Embedding generation failed: ", m.as_str()),
            MemoryError::NotInitialized => "Memory not initialized".to_owned(),
            MemoryError::NotFound(m) => concat("not found: ", m.as_str()),
            MemoryError::Invalid(m) => concat("invalid: ", m.as_str()),
            MemoryError::ConsolidationLlmFailed(m) => concat("Consolidation LLM call failed: ", m.as_str()),
            MemoryError::BlockOverLimit { label, limit, attempted } => {
                let a = concat("core-memory block '", label.as_str());
                let b = concat(a.as_str(), "' over limit (");
                let c = concat(b.as_str(), decimal_text(*attempted as u64).as_str());
                let d = concat(c.as_str(), " > ");
                let e = concat(d.as_str(), decimal_text(*limit as u64).as_str());
                concat(e.as_str(), " chars)")
            },
        }
    }
}

} // verus!
