//! Questions to an operator that a run waits for.
use vstd::prelude::*;

use crate::json::Json;
use crate::outside::now_unix;
use crate::text::concat;

verus! {

/// A question that is open.
#[derive(Debug)]
pub struct PendingInterrupt {
    pub automation_id: String,
    pub run_id: String,
    pub node_id: String,
    /// The message for the operator.
    pub message: String,
    pub payload: Json,
    pub created_at_unix: u64,
}

/// The key of a question.
pub open spec fn interrupt_key(automation_id: Seq<char>, run_id: Seq<char>, node_id: Seq<char>) -> Seq<char> {
    automation_id + ":"@ + run_id + ":"@ + node_id
}

impl PendingInterrupt {
    /// A question that is asked at some time.
    pub fn at(automation_id: &str, run_id: &str, node_id: &str, message: &str, now: u64) -> (r: PendingInterrupt)
        ensures
            r.automation_id@ == automation_id@,
            r.run_id@ == run_id@,
            r.node_id@ == node_id@,
            r.message@ == message@,
            r.payload is Null,
            r.created_at_unix == now,
    {
        PendingInterrupt {
            automation_id: automation_id.to_owned(),
            run_id: run_id.to_owned(),
            node_id: node_id.to_owned(),
            message: message.to_owned(),
            payload: Json::Null,
            created_at_unix: now,
        }
    }

    /// A question that is asked now.
    pub fn park(automation_id: &str, run_id: &str, node_id: &str, message: &str) -> (r: PendingInterrupt)
        ensures
            r.automation_id@ == automation_id@,
            r.run_id@ == run_id@,
            r.node_id@ == node_id@,
            r.message@ == message@,
            r.payload is Null,
    {
        Self::at(automation_id, run_id, node_id, message, now_unix())
    }

    /// The key under which the question is kept.
    pub fn key(&self) -> (r: String)
        ensures
            r@ == interrupt_key(self.automation_id@, self.run_id@, self.node_id@),
    {
        let mut k = concat(self.automation_id.as_str(), ":");
        k.append(self.run_id.as_str());
        k.append(":");
        k.append(self.node_id.as_str());
        k
    }
}

} // verus!
