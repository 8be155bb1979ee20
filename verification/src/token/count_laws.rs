//! What counts and budgets promise.
use vstd::prelude::*;

use crate::json::{JsonV, rendered};
use crate::llm::provider::{ContentV, MessageV};
use crate::text::byte_len;
use crate::token::budget::{BudgetError, TokenBudget, headroom_error};
use crate::token::counter::{RoughCounter, TokenCounter, rough_message, rough_messages, rough_text};

verus! {

/// The rough count of a text is one more than a quarter of its bytes, rounded
/// down, so that no text counts nothing and a longer one never less.
pub proof fn law_rough_counts_follow_the_bytes(a: Seq<char>, b: Seq<char>)
    ensures
        4 * (rough_text(a) - 1) <= byte_len(a) < 4 * rough_text(a),
        byte_len(a) <= byte_len(b) ==> rough_text(a) <= rough_text(b),
        byte_len(a) + 4 <= byte_len(b) ==> rough_text(a) < rough_text(b),
{
}

/// The rough count of a conversation is the sum over its messages, as far as it
/// can be counted; a message of parts counts one.
pub proof fn law_rough_counts_add_up(ms: Seq<MessageV>, m: MessageV, counter: RoughCounter, v: JsonV)
    ensures
        rough_messages(Seq::<MessageV>::empty()) == 0,
        rough_messages(ms) + rough_message(m) <= usize::MAX ==> rough_messages(ms.push(m)) == rough_messages(ms)
            + rough_message(m),
        rough_messages(ms) + rough_message(m) > usize::MAX ==> rough_messages(ms.push(m)) == usize::MAX,
        m.content matches ContentV::Text(s) ==> rough_message(m) == rough_text(s),
        m.content is Parts ==> rough_message(m) == 1,
        counter.tool_tokens(v) == counter.text_tokens(rendered(v)),
        counter.conversation_tokens(ms) == rough_messages(ms),
        forall|s: Seq<char>| counter.text_tokens(s) == rough_text(s),
{
    assert(ms.push(m).drop_last() =~= ms);
}

/// A call has headroom exactly where it fits by itself and with those before
/// it; the refusal says which of the two it was, what was asked for, and what
/// had been used and was allowed.
pub proof fn law_headroom_is_what_is_left(budget: TokenBudget, used: usize, estimated: usize)
    ensures
        headroom_error(budget, used as int, estimated) is None <==> estimated <= budget.per_call && used + estimated
            <= budget.per_execution,
        headroom_error(budget, used as int, estimated) matches Some(e) ==> {
            &&& e matches BudgetError::WouldExceedBudget { current, requested, budget: limit }
            &&& requested == estimated
            &&& current + requested > limit
            &&& limit == if estimated > budget.per_call {
                budget.per_call
            } else {
                budget.per_execution
            }
            &&& estimated <= budget.per_call ==> current == used
            &&& estimated > budget.per_call ==> current == 0
        },
{
}

} // verus!
