//! What a compression keeps of a conversation, whatever its stages do.
use vstd::prelude::*;

use crate::llm::provider::{ContentV, MessageRole, MessageV};
use crate::text::{byte_len, contains, decimal, utf8_bytes};
use crate::token::counter::TokenCounter;
use crate::token::pipeline::{CompressionLimits, GoalV, PressV, after_tools, archived, begin,
    law_archiving_loses_nothing, law_cuts_keep_what_fits, look_at_tools, on_summary, others, stage1, stage2, stage4,
    systems, stage_names};

verus! {

// ---------------------------------------------------------------------------
// The two parts of a conversation
// ---------------------------------------------------------------------------

/// The system's messages are those of its role, in their order, and the others are
/// all the rest, in theirs.
pub proof fn law_parts_are_by_role(ms: Seq<MessageV>)
    ensures
        systems(ms) == ms.filter(|m: MessageV| m.role == MessageRole::System),
        others(ms) == ms.filter(|m: MessageV| m.role != MessageRole::System),
    decreases ms.len(),
{
    reveal(Seq::filter);
    if ms.len() > 0 {
        law_parts_are_by_role(ms.drop_last());
    }
}

// ---------------------------------------------------------------------------
// Summaries of tool results
// ---------------------------------------------------------------------------

/// The message with another text in the place of its own.
pub open spec fn speaks_instead(m: MessageV, text: Seq<char>, new: MessageV) -> bool {
    &&& new.role == m.role
    &&& new.name == m.name
    &&& new.tool_call_id == m.tool_call_id
    &&& new.tool_calls == m.tool_calls
    &&& new.content == ContentV::Text(text)
}

/// The messages are `all`, or what is left of them once some were archived: the
/// system's messages, a note, and the rest of the others.
pub open spec fn kept(messages: Seq<MessageV>, away: Seq<MessageV>, all: Seq<MessageV>) -> bool {
    ||| messages == all && away.len() == 0
    ||| systems(messages) == systems(all) && away + others(messages).skip(1) == others(all)
}

/// A compression that goes on, or ends, with the messages `all`.
pub open spec fn goes_on_with(next: PressV, all: Seq<MessageV>) -> bool {
    match next {
        PressV::Tool { done, current, rest, .. } => done.push(current) + rest == all,
        PressV::All { messages, archived, .. } => kept(messages, archived, all),
        PressV::Done(r) => kept(r.messages, r.archived, all),
    }
}

proof fn lemma_after_tools<C: TokenCounter>(
    c: C,
    limits: CompressionLimits,
    goal: GoalV,
    before: usize,
    ms: Seq<MessageV>,
    used: usize,
)
    ensures
        goes_on_with(after_tools(c, limits, goal, before, ms, used), ms),
{
    law_archiving_loses_nothing(limits, ms);
}

proof fn lemma_look<C: TokenCounter>(
    c: C,
    limits: CompressionLimits,
    goal: GoalV,
    before: usize,
    done: Seq<MessageV>,
    rest: Seq<MessageV>,
    used: usize,
)
    ensures
        goes_on_with(look_at_tools(c, limits, goal, before, done, rest, used), done + rest),
        counts_right(c, look_at_tools(c, limits, goal, before, done, rest, used), before),
        asks_rightly(c, limits, goal, look_at_tools(c, limits, goal, before, done, rest, used)),
        look_at_tools(c, limits, goal, before, done, rest, used) is Tool ==> look_at_tools(
            c,
            limits,
            goal,
            before,
            done,
            rest,
            used,
        )->used == used,
    decreases rest.len(),
{
    if rest.len() == 0 {
        lemma_after_tools(c, limits, goal, before, done, used);
        assert(done + rest =~= done);
    } else {
        assert(done.push(rest[0]) + rest.skip(1) =~= done + rest);
        lemma_look(c, limits, goal, before, done.push(rest[0]), rest.skip(1), used);
    }
}

/// A compression that is over knows how many tokens there were and are.
pub open spec fn counts_right<C: TokenCounter>(c: C, next: PressV, first: usize) -> bool {
    match next {
        PressV::Done(r) => r.before == first && r.after == c.conversation_tokens(r.messages),
        PressV::Tool { before, .. } => before == first,
        PressV::All { before, .. } => before == first,
    }
}

/// Only the result of a tool that is over half the limit is to be summarized, and
/// only while the budget lasts; everything only where the conversation is over the
/// threshold and over the point at which that is done.
pub open spec fn asks_rightly<C: TokenCounter>(c: C, limits: CompressionLimits, goal: GoalV, next: PressV) -> bool {
    match next {
        PressV::Tool { current, used, .. } => {
            &&& used < goal.budget
            &&& current.role == MessageRole::Tool
            &&& current.content is Text
            &&& c.text_tokens(current.content->Text_0) > limits.tool_result_max_tokens / 2
        },
        PressV::All { messages, .. } => {
            &&& c.conversation_tokens(messages) > goal.threshold
            &&& c.conversation_tokens(messages) > goal.stage5_trigger
        },
        PressV::Done(_) => true,
    }
}

/// A summary takes the place of the tool result that it was asked for: the message
/// keeps its role, its name and the call that it answers, its text ends with the
/// whole summary, and every other message stays as it was. Without a summary the
/// message stays too. The tokens of the summary count as used.
pub proof fn law_summaries_take_the_place_of_tool_results<C: TokenCounter>(
    c: C,
    limits: CompressionLimits,
    goal: GoalV,
    first: usize,
    done: Seq<MessageV>,
    current: MessageV,
    rest: Seq<MessageV>,
    used: usize,
    summary: Seq<char>,
    reason: Seq<char>,
)
    ensures
        ({
            let st = PressV::Tool { before: first, done, current, rest, used };
            let next = on_summary(c, limits, goal, st, Ok(summary));
            let failed = on_summary(c, limits, goal, st, Err(reason));
            &&& exists|new: MessageV, label: Seq<char>|
                #![trigger speaks_instead(current, label + summary, new)]
                speaks_instead(current, label + summary, new) && label.len() < 20 && goes_on_with(
                    next,
                    done.push(new) + rest,
                )
            &&& goes_on_with(failed, done.push(current) + rest)
            &&& counts_right(c, next, first) && counts_right(c, failed, first)
            &&& asks_rightly(c, limits, goal, next) && asks_rightly(c, limits, goal, failed)
            &&& failed is Tool ==> failed->used == used
            &&& next is Tool && used + c.text_tokens(summary) <= usize::MAX ==> next->used == used + c.text_tokens(
                summary,
            )
        }),
{
    reveal_strlit("[summarized] ");
    let label = "[summarized] "@;
    let new = MessageV { content: ContentV::Text(label + summary), ..current };
    assert(speaks_instead(current, label + summary, new));
    let spent = crate::token::pipeline::capped(used, c.text_tokens(summary));
    lemma_look(c, limits, goal, first, done.push(new), rest, spent);
    lemma_look(c, limits, goal, first, done.push(current), rest, used);
}

/// The next tool result that is over half the limit is the next to be summarized.
pub proof fn law_large_results_are_summarized_in_turn<C: TokenCounter>(
    c: C,
    limits: CompressionLimits,
    goal: GoalV,
    first: usize,
    done: Seq<MessageV>,
    rest: Seq<MessageV>,
    used: usize,
    k: int,
)
    requires
        0 <= k < rest.len(),
        used < goal.budget,
        rest[k].role == MessageRole::Tool,
        rest[k].content is Text,
        c.text_tokens(rest[k].content->Text_0) > limits.tool_result_max_tokens / 2,
        forall|i: int|
            0 <= i < k && (#[trigger] rest[i]).role == MessageRole::Tool && rest[i].content is Text ==> c.text_tokens(
                rest[i].content->Text_0,
            ) <= limits.tool_result_max_tokens / 2,
    ensures
        look_at_tools(c, limits, goal, first, done, rest, used) == (PressV::Tool {
            before: first,
            done: done + rest.take(k),
            current: rest[k],
            rest: rest.skip(k + 1),
            used,
        }),
    decreases k,
{
    if k == 0 {
        assert(done + rest.take(0) =~= done);
    } else {
        let next = rest.skip(1);
        assert(next[k - 1] == rest[k]);
        assert forall|i: int| 0 <= i < k - 1 && (#[trigger] next[i]).role == MessageRole::Tool && next[i].content is Text implies c.text_tokens(
            next[i].content->Text_0,
        ) <= limits.tool_result_max_tokens / 2 by {
            assert(next[i] == rest[i + 1]);
        }
        law_large_results_are_summarized_in_turn(c, limits, goal, first, done.push(rest[0]), next, used, k - 1);
        assert(done.push(rest[0]) + next.take(k - 1) =~= done + rest.take(k));
        assert(next.skip(k) =~= rest.skip(k + 1));
        assert(rest[0] == rest[0]);
    }
}

// ---------------------------------------------------------------------------
// The stages
// ---------------------------------------------------------------------------

/// A tool result within the limit stays as it is. A larger one keeps its beginning,
/// as many whole characters as fit into four bytes for each token of the limit, and
/// a note with the two counts follows.
pub proof fn law_cut_results_keep_their_beginning<C: TokenCounter>(
    c: C,
    limits: CompressionLimits,
    ms: Seq<MessageV>,
    i: int,
    s: Seq<char>,
)
    requires
        0 <= i < ms.len(),
        ms[i].role == MessageRole::Tool,
        ms[i].content == ContentV::Text(s),
    ensures
        ({
            let new = stage1(c, limits, ms)[i];
            let max = limits.tool_result_max_tokens;
            &&& c.text_tokens(s) <= max ==> new == ms[i]
            &&& byte_len(s) <= max * 4 ==> new == ms[i]
            &&& c.text_tokens(s) > max && byte_len(s) > max * 4 ==> exists|k: int, note: Seq<char>|
                #![trigger speaks_instead(ms[i], s.take(k) + note, new)]
                0 <= k <= s.len() && utf8_bytes(s.take(k)) <= max * 4 && (k < s.len() ==> utf8_bytes(s.take(k + 1)) > max
                    * 4) && speaks_instead(ms[i], s.take(k) + note, new) && note.len() > 3 && contains(
                    note,
                    decimal(c.text_tokens(s) as nat),
                ) && contains(note, decimal(max as nat))
        }),
{
    let new = stage1(c, limits, ms)[i];
    let max = limits.tool_result_max_tokens;
    if byte_len(s) <= max * 4 {
        assert(new == ms[i]);
    }
    if c.text_tokens(s) > max && byte_len(s) > max * 4 {
        let k = crate::token::pipeline::cut_from(s, max * 4, 0, 0);
        law_cuts_keep_what_fits(s, max * 4);
        let a = "...\n[truncated: "@;
        let d1 = decimal(c.text_tokens(s) as nat);
        let b = " tokens → ~"@;
        let d2 = decimal(max as nat);
        let e = " tokens]"@;
        let note = a + d1 + b + d2 + e;
        reveal_strlit("...\n[truncated: ");
        assert(s.subrange(0, k) =~= s.take(k));
        assert(s.subrange(0, k) + a + d1 + b + d2 + e =~= s.take(k) + note);
        assert(crate::text::at(note, d1, a.len() as int)) by {
            assert(note.subrange(a.len() as int, (a.len() + d1.len()) as int) =~= d1);
        }
        let at2 = (a + d1 + b).len() as int;
        assert(crate::text::at(note, d2, at2)) by {
            assert(note.subrange(at2, at2 + d2.len()) =~= d2);
        }
        assert(speaks_instead(ms[i], s.take(k) + note, new));
    }
}

/// Dropping old turns keeps the end of the conversation from a user's message on,
/// and as much of it as fits: no user's message among those that fit is dropped.
pub proof fn law_snipping_keeps_as_much_as_fits(limits: CompressionLimits, ms: Seq<MessageV>, j: int)
    requires
        0 <= j < others(ms).len(),
        others(ms)[j].role == MessageRole::User,
        others(ms).len() - j <= limits.snip_keep_recent_pairs * 3,
    ensures
        exists|k: int|
            0 <= k <= j && stage2(limits, ms) == systems(ms) + #[trigger] others(ms).skip(k) && others(ms)[k].role
                == MessageRole::User,
{
    let rest = others(ms);
    let keep = limits.snip_keep_recent_pairs * 3;
    let from = if rest.len() > keep {
        rest.len() - keep
    } else {
        0
    };
    lemma_user_before(rest, from, j);
    let k = crate::token::pipeline::user_from(rest, from);
    assert(stage2(limits, ms) == systems(ms) + rest.skip(k));
}

proof fn lemma_user_before(ms: Seq<MessageV>, i: int, j: int)
    requires
        0 <= i <= j < ms.len(),
        ms[j].role == MessageRole::User,
    ensures
        i <= crate::token::pipeline::user_from(ms, i) <= j,
        ms[crate::token::pipeline::user_from(ms, i)].role == MessageRole::User,
    decreases j - i,
{
    if ms[i].role != MessageRole::User {
        lemma_user_before(ms, i + 1, j);
    }
}

/// Archiving takes the older half of what is not the system's, and leaves a user's
/// note with their number in its place.
pub proof fn law_the_older_half_is_archived(limits: CompressionLimits, ms: Seq<MessageV>)
    requires
        ms.len() > limits.snip_keep_recent_pairs * 2 + 1,
    ensures
        archived(limits, ms).len() == others(ms).len() / 2,
        forall|i: int| 0 <= i < archived(limits, ms).len() ==> archived(limits, ms)[i] == others(ms)[i],
        stage4(limits, ms).len() == ms.len() - archived(limits, ms).len() + 1,
        ({
            let note = stage4(limits, ms)[systems(ms).len() as int];
            &&& note.role == MessageRole::User
            &&& note.content is Text
            &&& contains(note.content->Text_0, decimal(archived(limits, ms).len()))
        }),
{
    let n = archived(limits, ms).len();
    let a = "[Context note: "@;
    let d = decimal(n);
    let b = " earlier messages have been archived to long-term memory]"@;
    lemma_part_sizes(ms);
    assert((a + d + b).subrange(a.len() as int, (a.len() + d.len()) as int) =~= d);
    assert(crate::text::at(a + d + b, d, a.len() as int));
}

proof fn lemma_part_sizes(ms: Seq<MessageV>)
    ensures
        systems(ms).len() + others(ms).len() == ms.len(),
    decreases ms.len(),
{
    if ms.len() > 0 {
        lemma_part_sizes(ms.drop_last());
    }
}

/// The summary of everything ends the system's messages, with its whole text at the
/// end of the last one; a failure keeps all messages.
pub proof fn law_the_summary_of_everything_is_kept<C: TokenCounter>(
    c: C,
    limits: CompressionLimits,
    goal: GoalV,
    first: usize,
    ms: Seq<MessageV>,
    away: Seq<MessageV>,
    summary: Seq<char>,
    reason: Seq<char>,
)
    ensures
        ({
            let st = PressV::All { before: first, messages: ms, archived: away };
            let next = on_summary(c, limits, goal, st, Ok(summary));
            let failed = on_summary(c, limits, goal, st, Err(reason));
            &&& next is Done && failed is Done
            &&& next->Done_0.archived == away && failed->Done_0.archived == away
            &&& counts_right(c, next, first) && counts_right(c, failed, first)
            &&& failed->Done_0.messages == systems(ms) + others(ms)
            &&& next->Done_0.messages.drop_last() == systems(ms)
            &&& next->Done_0.messages.last().role == MessageRole::System
            &&& next->Done_0.messages.last().content is Text
            &&& exists|label: Seq<char>| #[trigger] (label + summary) == next->Done_0.messages.last().content->Text_0
        }),
{
    let label = "[AutoCompact summary of previous conversation]\n"@;
    let st = PressV::All { before: first, messages: ms, archived: away };
    let next = on_summary(c, limits, goal, st, Ok(summary));
    assert(next->Done_0.messages.drop_last() =~= systems(ms));
    assert(label + summary == next->Done_0.messages.last().content->Text_0);
}

/// A compression that is over without a summary stopped at the first stage after
/// which the conversation fits, and counts its tokens.
pub proof fn law_compression_stops_where_it_fits<C: TokenCounter>(
    c: C,
    limits: CompressionLimits,
    goal: GoalV,
    ms: Seq<MessageV>,
    can_summarize: bool,
)
    ensures
        ({
            let next = begin(c, limits, goal, ms, can_summarize);
            let cut = stage1(c, limits, ms);
            let snipped = stage2(limits, cut);
            &&& counts_right(c, next, c.conversation_tokens(ms))
            &&& asks_rightly(c, limits, goal, next)
            &&& c.conversation_tokens(ms) <= goal.threshold ==> next is Done && next->Done_0.messages == ms
            &&& c.conversation_tokens(ms) > goal.threshold && c.conversation_tokens(cut) <= goal.threshold ==> next
                is Done && next->Done_0.messages == cut
            &&& c.conversation_tokens(ms) > goal.threshold && c.conversation_tokens(cut) > goal.threshold && (
            c.conversation_tokens(snipped) <= goal.threshold || !can_summarize || goal.budget == 0) ==> next is Done
                && next->Done_0.messages == snipped
            &&& c.conversation_tokens(ms) > goal.threshold && c.conversation_tokens(cut) > goal.threshold
                && c.conversation_tokens(snipped) > goal.threshold && can_summarize && goal.budget > 0 ==> goes_on_with(
                next,
                snipped,
            )
            &&& next is Done && next->Done_0.stages.len() < 2 ==> next->Done_0.after <= goal.threshold
            &&& next is Done && next->Done_0.stages.len() == 3 ==> next->Done_0.after <= goal.threshold
        }),
{
    let cut = stage1(c, limits, ms);
    let snipped = stage2(limits, cut);
    lemma_look(c, limits, goal, c.conversation_tokens(ms), Seq::empty(), snipped, 0);
    lemma_look_stages(c, limits, goal, c.conversation_tokens(ms), Seq::empty(), snipped, 0);
    assert(Seq::<MessageV>::empty() + snipped =~= snipped);
}

proof fn lemma_look_stages<C: TokenCounter>(
    c: C,
    limits: CompressionLimits,
    goal: GoalV,
    before: usize,
    done: Seq<MessageV>,
    rest: Seq<MessageV>,
    used: usize,
)
    ensures
        ({
            let next = look_at_tools(c, limits, goal, before, done, rest, used);
            next is Done ==> next->Done_0.stages.len() == 4 || next->Done_0.stages.len() == 3 && next->Done_0.after
                <= goal.threshold
        }),
    decreases rest.len(),
{
    if rest.len() > 0 {
        lemma_look_stages(c, limits, goal, before, done.push(rest[0]), rest.skip(1), used);
    }
}

/// The stages that were run are the first of the five, in their order.
pub proof fn law_stages_run_in_order(n: int, k: int)
    requires
        0 <= k < n <= 5,
    ensures
        stage_names(n).len() == n,
        stage_names(n)[k] == stage_names(5)[k],
        k == 0 ==> stage_names(n)[k] == "tool_result_budget"@,
        k == 1 ==> stage_names(n)[k] == "history_snip"@,
        k == 2 ==> stage_names(n)[k] == "microcompact"@,
        k == 3 ==> stage_names(n)[k] == "context_collapse"@,
        k == 4 ==> stage_names(n)[k] == "autocompact"@,
{
}

} // verus!
