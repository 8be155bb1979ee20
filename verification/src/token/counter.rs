//! Counting tokens.
use vstd::prelude::*;

use crate::json::{Json, JsonV, render, rendered};
use crate::llm::provider::{ChatMessage, ContentV, MessageContent, MessageV, message_views};
use crate::text::byte_len;

verus! {

/// A way to count tokens.
pub trait TokenCounter {
    /// The tokens of a text.
    spec fn text_tokens(&self, s: Seq<char>) -> usize;

    /// The tokens of a conversation.
    spec fn conversation_tokens(&self, ms: Seq<MessageV>) -> usize;

    /// The tokens of a tool's definition.
    spec fn tool_tokens(&self, v: JsonV) -> usize;

    fn count_text(&self, text: &str) -> (r: usize)
        ensures
            r == self.text_tokens(text@),
    ;

    fn count_messages(&self, messages: &Vec<ChatMessage>) -> (r: usize)
        ensures
            r == self.conversation_tokens(message_views(messages@)),
    ;

    fn count_tool_definition(&self, tool_json: &Json) -> (r: usize)
        ensures
            r == self.tool_tokens(tool_json@),
    ;
}

/// A rough count: a token for each four bytes of a text, and one more.
pub struct RoughCounter;

/// The rough count of a text.
pub open spec fn rough_text(s: Seq<char>) -> usize {
    (byte_len(s) / 4 + 1) as usize
}

/// The rough count of a message; one of parts counts one token.
pub open spec fn rough_message(m: MessageV) -> usize {
    match m.content {
        ContentV::Text(s) => rough_text(s),
        ContentV::Parts(_) => 1,
    }
}

/// The sum over the messages, or the greatest count.
pub open spec fn rough_messages(ms: Seq<MessageV>) -> usize
    decreases ms.len(),
{
    if ms.len() == 0 {
        0
    } else {
        let t = rough_messages(ms.drop_last()) + rough_message(ms.last());
        if t > usize::MAX {
            usize::MAX
        } else {
            t as usize
        }
    }
}

impl TokenCounter for RoughCounter {
    open spec fn text_tokens(&self, s: Seq<char>) -> usize {
        rough_text(s)
    }

    open spec fn conversation_tokens(&self, ms: Seq<MessageV>) -> usize {
        rough_messages(ms)
    }

    open spec fn tool_tokens(&self, v: JsonV) -> usize {
        rough_text(rendered(v))
    }

    fn count_text(&self, text: &str) -> (r: usize) {
        text.len() / 4 + 1
    }

    fn count_messages(&self, messages: &Vec<ChatMessage>) -> (r: usize) {
        let ghost all = message_views(messages@);
        let mut total: usize = 0;
        let mut i: usize = 0;
        while i < messages.len()
            invariant
                i <= messages@.len(),
                all == message_views(messages@),
                total == rough_messages(all.take(i as int)),
            decreases messages@.len() - i,
        {
            proof {
                assert(all.take(i + 1).drop_last() =~= all.take(i as int));
                assert(all.take(i + 1).last() == messages@[i as int]@);
            }
            let n: usize = match &messages[i].content {
                MessageContent::Text(s) => self.count_text(s.as_str()),
                MessageContent::Parts(_) => 1,
            };
            total = total.saturating_add(n);
            i += 1;
        }
        proof {
            assert(all.take(i as int) =~= all);
        }
        total
    }

    fn count_tool_definition(&self, tool_json: &Json) -> (r: usize) {
        self.count_text(render(tool_json).as_str())
    }
}

} // verus!
