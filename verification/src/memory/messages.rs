//! Messages as they are kept.
use vstd::prelude::*;

use crate::llm::provider::{MessageRole, ToolCall, ToolCallV, call_views, opt_view};
use crate::session::copy_opt;

verus! {

/// A message of a kept conversation.
#[derive(Debug)]
pub struct StoredMessage {
    pub role: MessageRole,
    pub content: String,
    pub timestamp: u64,
    pub token_count: usize,
    pub name: Option<String>,
    pub tool_calls: Vec<ToolCall>,
    pub tool_call_id: Option<String>,
}

pub struct StoredV {
    pub role: MessageRole,
    pub content: Seq<char>,
    pub timestamp: u64,
    pub token_count: usize,
    pub name: Option<Seq<char>>,
    pub tool_calls: Seq<ToolCallV>,
    pub tool_call_id: Option<Seq<char>>,
}

impl View for StoredMessage {
    type V = StoredV;

    open spec fn view(&self) -> StoredV {
        StoredV {
            role: self.role,
            content: self.content@,
            timestamp: self.timestamp,
            token_count: self.token_count,
            name: opt_view(self.name),
            tool_calls: call_views(self.tool_calls@),
            tool_call_id: opt_view(self.tool_call_id),
        }
    }
}

pub open spec fn stored_views(v: Seq<StoredMessage>) -> Seq<StoredV> {
    v.map_values(|m: StoredMessage| m@)
}

fn copy_calls(v: &Vec<ToolCall>) -> (r: Vec<ToolCall>)
    ensures
        call_views(r@) == call_views(v@),
{
    let mut out: Vec<ToolCall> = Vec::new();
    let mut i: usize = 0;
    while i < v.len()
        invariant
            i <= v@.len(),
            out@.len() == i,
            forall|k: int| 0 <= k < i ==> (#[trigger] out@[k])@ == v@[k]@,
        decreases v@.len() - i,
    {
        let c = &v[i];
        out.push(ToolCall { id: c.id.clone(), name: c.name.clone(), arguments: c.arguments.copy() });
        i += 1;
    }
    proof {
        assert(call_views(out@) =~= call_views(v@));
    }
    out
}

impl StoredMessage {
    /// A copy.
    pub fn copy(&self) -> (r: StoredMessage)
        ensures
            r@ == self@,
    {
        StoredMessage {
            role: self.role,
            content: self.content.clone(),
            timestamp: self.timestamp,
            token_count: self.token_count,
            name: copy_opt(&self.name),
            tool_calls: copy_calls(&self.tool_calls),
            tool_call_id: copy_opt(&self.tool_call_id),
        }
    }

    /// A message without a name and without tool calls.
    pub fn plain(role: MessageRole, content: &str, timestamp: u64, token_count: usize) -> (r: StoredMessage)
        ensures
            r@ == (StoredV {
                role,
                content: content@,
                timestamp,
                token_count,
                name: None,
                tool_calls: Seq::empty(),
                tool_call_id: None,
            }),
    {
        let tool_calls: Vec<ToolCall> = Vec::new();
        proof {
            assert(call_views(tool_calls@) =~= Seq::<ToolCallV>::empty());
        }
        StoredMessage {
            role,
            content: content.to_owned(),
            timestamp,
            token_count,
            name: None,
            tool_calls,
            tool_call_id: None,
        }
    }
}

/// Copies of the first messages.
pub fn copy_first(v: &Vec<StoredMessage>, n: usize) -> (r: Vec<StoredMessage>)
    requires
        n <= v@.len(),
    ensures
        stored_views(r@) == stored_views(v@).take(n as int),
{
    let mut out: Vec<StoredMessage> = Vec::new();
    let mut i: usize = 0;
    while i < n
        invariant
            i <= n <= v@.len(),
            out@.len() == i,
            forall|k: int| 0 <= k < i ==> (#[trigger] out@[k])@ == v@[k]@,
        decreases n - i,
    {
        out.push(v[i].copy());
        i += 1;
    }
    proof {
        assert(stored_views(out@) =~= stored_views(v@).take(n as int));
    }
    out
}

} // verus!
