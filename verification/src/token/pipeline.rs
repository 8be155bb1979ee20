//! Compressing a conversation in stages, each of which runs only while the
//! conversation is still too long: large tool results are cut, old turns are
//! dropped, tool results are summarized, the older half is archived, and at last
//! everything is summarized.
//!
//! The summaries come from outside: a `Compression` that is not done says which one
//! it needs, and `CompressionPipeline::reply` takes it.
use vstd::prelude::*;

use crate::llm::provider::{ChatMessage, ContentV, MessageContent, MessageRole, MessageV, lemma_plain_message,
    message_views, text_message};
use crate::text::{byte_len, char_width, chars_of, concat, decimal, decimal_text, text_between, utf8_bytes, utf8_width,
    views};
use crate::token::counter::TokenCounter;

verus! {

/// The numbers that steer the compression.
#[derive(Debug, Clone, Copy, PartialEq, Eq, Structural)]
pub struct CompressionLimits {
    /// The most tokens of a tool result.
    pub tool_result_max_tokens: usize,
    /// How many recent exchanges are kept.
    pub snip_keep_recent_pairs: usize,
    /// Above this many tokens everything is summarized.
    pub max_input_tokens: usize,
    /// Above this many tokens the conversation is compressed: the share of the
    /// model's window that may be filled.
    pub trigger_tokens: usize,
}

impl CompressionLimits {
    /// The limits can be computed with.
    pub open spec fn wf(self) -> bool {
        &&& self.tool_result_max_tokens * 4 <= usize::MAX
        &&& self.snip_keep_recent_pairs * 3 <= usize::MAX - 1
    }
}

// ---------------------------------------------------------------------------
// The stages
// ---------------------------------------------------------------------------

/// The messages of the system.
pub open spec fn systems(ms: Seq<MessageV>) -> Seq<MessageV>
    decreases ms.len(),
{
    if ms.len() == 0 {
        Seq::empty()
    } else if ms.last().role == MessageRole::System {
        systems(ms.drop_last()).push(ms.last())
    } else {
        systems(ms.drop_last())
    }
}

/// The other messages.
pub open spec fn others(ms: Seq<MessageV>) -> Seq<MessageV>
    decreases ms.len(),
{
    if ms.len() == 0 {
        Seq::empty()
    } else if ms.last().role == MessageRole::System {
        others(ms.drop_last())
    } else {
        others(ms.drop_last()).push(ms.last())
    }
}

/// The characters from the `i`-th on that end at byte `limit` or before it, where
/// the `i`-th begins at byte `at`: the position behind them.
pub open spec fn cut_from(s: Seq<char>, limit: int, i: int, at: int) -> int
    decreases s.len() - i,
{
    if i < 0 || i >= s.len() || at + utf8_width(s[i]) > limit {
        i
    } else {
        cut_from(s, limit, i + 1, at + utf8_width(s[i]))
    }
}

/// A tool result cut to about `max` tokens of four bytes.
pub open spec fn cut_result(s: Seq<char>, tokens: usize, max: usize) -> Seq<char> {
    if byte_len(s) > max * 4 {
        s.subrange(0, cut_from(s, max * 4, 0, 0)) + "...\n[truncated: "@ + decimal(tokens as nat) + " tokens → ~"@
            + decimal(max as nat) + " tokens]"@
    } else {
        s
    }
}

/// The tool result of a message, where it is one text.
pub open spec fn tool_text(m: MessageV) -> Option<Seq<char>> {
    match m.content {
        ContentV::Text(s) => if m.role == MessageRole::Tool {
            Some(s)
        } else {
            None
        },
        _ => None,
    }
}

/// A message after large tool results were cut.
pub open spec fn budgeted<C: TokenCounter>(c: C, limits: CompressionLimits, m: MessageV) -> MessageV {
    match tool_text(m) {
        Some(s) => if c.text_tokens(s) > limits.tool_result_max_tokens {
            MessageV {
                content: ContentV::Text(cut_result(s, c.text_tokens(s), limits.tool_result_max_tokens)),
                ..m
            }
        } else {
            m
        },
        None => m,
    }
}

/// Large tool results cut.
pub open spec fn stage1<C: TokenCounter>(c: C, limits: CompressionLimits, ms: Seq<MessageV>) -> Seq<MessageV> {
    ms.map_values(|m: MessageV| budgeted(c, limits, m))
}

/// The first position from `i` on at which a user speaks, or the end.
pub open spec fn user_from(ms: Seq<MessageV>, i: int) -> int
    decreases ms.len() - i,
{
    if i < 0 || i >= ms.len() || ms[i].role == MessageRole::User {
        i
    } else {
        user_from(ms, i + 1)
    }
}

/// Where the kept part of the conversation begins.
pub open spec fn snip_point(limits: CompressionLimits, ms: Seq<MessageV>) -> int {
    let keep = limits.snip_keep_recent_pairs * 3;
    user_from(
        ms,
        if ms.len() > keep {
            ms.len() - keep
        } else {
            0
        },
    )
}

/// The system's messages and the recent turns, from a user's message on.
pub open spec fn stage2(limits: CompressionLimits, ms: Seq<MessageV>) -> Seq<MessageV> {
    systems(ms) + others(ms).skip(snip_point(limits, others(ms)))
}

/// The note that stands for archived messages.
pub open spec fn archive_note(n: nat) -> MessageV {
    text_message(
        MessageRole::User,
        "[Context note: "@ + decimal(n) + " earlier messages have been archived to long-term memory]"@,
    )
}

/// Whether there are enough messages for some to be archived.
pub open spec fn can_archive(limits: CompressionLimits, ms: Seq<MessageV>) -> bool {
    ms.len() > limits.snip_keep_recent_pairs * 2 + 1
}

/// The conversation after its older half was archived.
pub open spec fn stage4(limits: CompressionLimits, ms: Seq<MessageV>) -> Seq<MessageV> {
    if can_archive(limits, ms) {
        let rest = others(ms);
        let half = rest.len() / 2;
        systems(ms).push(archive_note(half)) + rest.skip(half as int)
    } else {
        ms
    }
}

/// The older half of the conversation.
pub open spec fn archived(limits: CompressionLimits, ms: Seq<MessageV>) -> Seq<MessageV> {
    if can_archive(limits, ms) {
        others(ms).take((others(ms).len() / 2) as int)
    } else {
        Seq::empty()
    }
}

/// The conversation after everything was summarized, or after that failed.
pub open spec fn stage5(ms: Seq<MessageV>, summary: Result<Seq<char>, Seq<char>>) -> Seq<MessageV> {
    match summary {
        Ok(s) => systems(ms).push(
            text_message(MessageRole::System, "[AutoCompact summary of previous conversation]\n"@ + s),
        ),
        Err(_) => systems(ms) + others(ms),
    }
}

/// Splits a conversation into the system's messages and the others.
fn part(messages: Vec<ChatMessage>) -> (r: (Vec<ChatMessage>, Vec<ChatMessage>))
    ensures
        message_views(r.0@) == systems(message_views(messages@)),
        message_views(r.1@) == others(message_views(messages@)),
{
    let ghost all = message_views(messages@);
    let ghost raw = messages@;
    let mut rest = messages;
    let mut a: Vec<ChatMessage> = Vec::new();
    let mut b: Vec<ChatMessage> = Vec::new();
    let ghost mut i: int = 0;
    proof {
        assert(rest@ =~= raw.skip(0));
        assert(message_views(a@) =~= systems(all.take(0)));
        assert(message_views(b@) =~= others(all.take(0)));
    }
    while rest.len() > 0
        invariant
            0 <= i <= raw.len(),
            all == message_views(raw),
            rest@ == raw.skip(i),
            message_views(a@) == systems(all.take(i)),
            message_views(b@) == others(all.take(i)),
        decreases rest@.len(),
    {
        let m = rest.remove(0);
        let ghost a0 = a@;
        let ghost b0 = b@;
        proof {
            assert(m == raw[i]);
            assert(rest@ =~= raw.skip(i + 1));
            assert(all.take(i + 1).drop_last() =~= all.take(i));
            assert(all.take(i + 1).last() == m@);
        }
        if m.role == MessageRole::System {
            a.push(m);
            proof {
                assert(message_views(a@) =~= message_views(a0).push(m@));
            }
        } else {
            b.push(m);
            proof {
                assert(message_views(b@) =~= message_views(b0).push(m@));
            }
        }
        proof {
            i = i + 1;
        }
    }
    proof {
        assert(all.take(i) =~= all);
    }
    (a, b)
}

fn append_messages(a: Vec<ChatMessage>, b: Vec<ChatMessage>) -> (r: Vec<ChatMessage>)
    ensures
        message_views(r@) == message_views(a@) + message_views(b@),
{
    let mut a = a;
    let mut b = b;
    let ghost a0 = a@;
    let ghost b0 = b@;
    a.append(&mut b);
    proof {
        assert(message_views(a@) =~= message_views(a0) + message_views(b0));
    }
    a
}

fn push_message(v: &mut Vec<ChatMessage>, m: ChatMessage)
    ensures
        message_views(final(v)@) == message_views(old(v)@).push(m@),
{
    let ghost before = v@;
    v.push(m);
    proof {
        assert(message_views(v@) =~= message_views(before).push(m@));
    }
}

fn cut_text(text: &str, tokens: usize, max: usize) -> (r: String)
    requires
        max * 4 <= usize::MAX,
    ensures
        r@ == cut_result(text@, tokens, max),
{
    let limit: usize = max * 4;
    if text.len() <= limit {
        return text.to_owned();
    }
    let v = chars_of(text);
    let mut i: usize = 0;
    let mut left: usize = limit;
    while i < v.len() && char_width(v[i]) <= left
        invariant
            i <= v@.len(),
            v@ == text@,
            left <= limit,
            cut_from(text@, limit as int, 0, 0) == cut_from(text@, limit as int, i as int, limit - left),
        decreases v@.len() - i,
    {
        left = left - char_width(v[i]);
        i += 1;
    }
    let mut out = text_between(&v, 0, i);
    out.append("...\n[truncated: ");
    out.append(decimal_text(tokens as u64).as_str());
    out.append(" tokens → ~");
    out.append(decimal_text(max as u64).as_str());
    out.append(" tokens]");
    out
}

// ---------------------------------------------------------------------------
// The pipeline
// ---------------------------------------------------------------------------

/// The outcome of a compression.
#[derive(Debug)]
pub struct CompressionResult {
    pub messages: Vec<ChatMessage>,
    pub stages_applied: Vec<String>,
    pub tokens_before: usize,
    pub tokens_after: usize,
    /// The messages that were archived.
    pub archived_messages: Vec<ChatMessage>,
}

pub struct ResultV {
    pub messages: Seq<MessageV>,
    pub stages: Seq<Seq<char>>,
    pub before: usize,
    pub after: usize,
    pub archived: Seq<MessageV>,
}

impl View for CompressionResult {
    type V = ResultV;

    open spec fn view(&self) -> ResultV {
        ResultV {
            messages: message_views(self.messages@),
            stages: views(self.stages_applied@),
            before: self.tokens_before,
            after: self.tokens_after,
            archived: message_views(self.archived_messages@),
        }
    }
}

/// Where a compression stands.
pub enum PressV {
    /// It is over.
    Done(ResultV),
    /// A tool result is to be summarized: the messages before it, the message,
    /// those behind it, and the tokens that summaries have used.
    Tool { before: usize, done: Seq<MessageV>, current: MessageV, rest: Seq<MessageV>, used: usize },
    /// The conversation is to be summarized.
    All { before: usize, messages: Seq<MessageV>, archived: Seq<MessageV> },
}

/// What a compression is about.
pub struct GoalV {
    pub threshold: usize,
    pub stage5_trigger: usize,
    pub budget: usize,
}

/// The names of the first stages.
pub open spec fn stage_names(n: int) -> Seq<Seq<char>> {
    seq![
        "tool_result_budget"@,
        "history_snip"@,
        "microcompact"@,
        "context_collapse"@,
        "autocompact"@,
    ].take(n)
}

/// The tool result is to be summarized: there is budget left, and it is over
/// half the limit.
pub open spec fn wants_summary<C: TokenCounter>(
    c: C,
    limits: CompressionLimits,
    goal: GoalV,
    m: MessageV,
    used: usize,
) -> bool {
    match tool_text(m) {
        Some(s) => used < goal.budget && c.text_tokens(s) > limits.tool_result_max_tokens / 2,
        None => false,
    }
}

/// All tool results have been looked at: the older half is archived if need be.
pub open spec fn after_tools<C: TokenCounter>(
    c: C,
    limits: CompressionLimits,
    goal: GoalV,
    before: usize,
    ms: Seq<MessageV>,
    used: usize,
) -> PressV {
    let n3 = c.conversation_tokens(ms);
    if n3 <= goal.threshold {
        PressV::Done(
            ResultV { messages: ms, stages: stage_names(3), before, after: n3, archived: Seq::empty() },
        )
    } else {
        let m4 = stage4(limits, ms);
        let n4 = c.conversation_tokens(m4);
        if n4 > goal.threshold && n4 > goal.stage5_trigger && used < goal.budget {
            PressV::All { before, messages: m4, archived: archived(limits, ms) }
        } else {
            PressV::Done(
                ResultV { messages: m4, stages: stage_names(4), before, after: n4, archived: archived(limits, ms) },
            )
        }
    }
}

/// The tool results from `rest` on are looked at.
pub open spec fn look_at_tools<C: TokenCounter>(
    c: C,
    limits: CompressionLimits,
    goal: GoalV,
    before: usize,
    done: Seq<MessageV>,
    rest: Seq<MessageV>,
    used: usize,
) -> PressV
    decreases rest.len(),
{
    if rest.len() == 0 {
        after_tools(c, limits, goal, before, done, used)
    } else if wants_summary(c, limits, goal, rest[0], used) {
        PressV::Tool { before, done, current: rest[0], rest: rest.skip(1), used }
    } else {
        look_at_tools(c, limits, goal, before, done.push(rest[0]), rest.skip(1), used)
    }
}

/// A compression begins.
pub open spec fn begin<C: TokenCounter>(
    c: C,
    limits: CompressionLimits,
    goal: GoalV,
    ms: Seq<MessageV>,
    can_summarize: bool,
) -> PressV {
    let before = c.conversation_tokens(ms);
    let m1 = stage1(c, limits, ms);
    let m2 = stage2(limits, m1);
    let n1 = c.conversation_tokens(m1);
    let n2 = c.conversation_tokens(m2);
    if before <= goal.threshold {
        PressV::Done(
            ResultV { messages: ms, stages: stage_names(0), before, after: before, archived: Seq::empty() },
        )
    } else if n1 <= goal.threshold {
        PressV::Done(ResultV { messages: m1, stages: stage_names(1), before, after: n1, archived: Seq::empty() })
    } else if n2 <= goal.threshold || !can_summarize || goal.budget == 0 {
        PressV::Done(ResultV { messages: m2, stages: stage_names(2), before, after: n2, archived: Seq::empty() })
    } else {
        look_at_tools(c, limits, goal, before, Seq::empty(), m2, 0)
    }
}

/// The sum of two counts, or the greatest count.
pub open spec fn capped(a: usize, b: usize) -> usize {
    if a + b > usize::MAX {
        usize::MAX
    } else {
        (a + b) as usize
    }
}

/// A summary arrived, or could not be had.
pub open spec fn on_summary<C: TokenCounter>(
    c: C,
    limits: CompressionLimits,
    goal: GoalV,
    st: PressV,
    summary: Result<Seq<char>, Seq<char>>,
) -> PressV {
    match st {
        PressV::Done(r) => st,
        PressV::Tool { before, done, current, rest, used } => match summary {
            Ok(s) => look_at_tools(
                c,
                limits,
                goal,
                before,
                done.push(MessageV { content: ContentV::Text("[summarized] "@ + s), ..current }),
                rest,
                capped(used, c.text_tokens(s)),
            ),
            Err(_) => look_at_tools(c, limits, goal, before, done.push(current), rest, used),
        },
        PressV::All { before, messages, archived } => {
            let m5 = stage5(messages, summary);
            PressV::Done(
                ResultV {
                    messages: m5,
                    stages: stage_names(5),
                    before,
                    after: c.conversation_tokens(m5),
                    archived,
                },
            )
        },
    }
}

/// A way to compress conversations.
pub struct CompressionPipeline<C> {
    counter: C,
    model_context_limit: usize,
    limits: CompressionLimits,
}

/// A compression under way.
pub enum Compression {
    Done(CompressionResult),
    /// The tool result of `current` is to be summarized.
    Tool {
        tokens_before: usize,
        done: Vec<ChatMessage>,
        current: ChatMessage,
        rest: Vec<ChatMessage>,
        used: usize,
        goal: Goal,
    },
    /// The messages other than the system's are to be summarized.
    All { tokens_before: usize, messages: Vec<ChatMessage>, archived: Vec<ChatMessage>, goal: Goal },
}

/// What a compression is about.
#[derive(Debug, Clone, Copy, PartialEq, Eq, Structural)]
pub struct Goal {
    /// The tokens to get under.
    pub threshold: usize,
    /// Above this many tokens everything is summarized.
    pub stage5_trigger: usize,
    /// How many tokens the summaries may use.
    pub budget: usize,
}

impl Goal {
    pub open spec fn value(self) -> GoalV {
        GoalV { threshold: self.threshold, stage5_trigger: self.stage5_trigger, budget: self.budget }
    }
}

impl Compression {
    /// Where the compression stands.
    pub open spec fn value(self) -> PressV {
        match self {
            Compression::Done(r) => PressV::Done(r@),
            Compression::Tool { tokens_before, done, current, rest, used, goal } => PressV::Tool {
                before: tokens_before,
                done: message_views(done@),
                current: current@,
                rest: message_views(rest@),
                used,
            },
            Compression::All { tokens_before, messages, archived, goal } => PressV::All {
                before: tokens_before,
                messages: message_views(messages@),
                archived: message_views(archived@),
            },
        }
    }

    /// What the compression is about, while it is under way.
    pub open spec fn has_goal(self, g: GoalV) -> bool {
        match self {
            Compression::Done(_) => true,
            Compression::Tool { goal, .. } => goal.value() == g,
            Compression::All { goal, .. } => goal.value() == g,
        }
    }

    /// The name and the result of the tool to be summarized.
    pub fn tool_to_summarize(&self) -> (r: Option<(String, String)>)
        ensures
            match (self.value(), r) {
                (PressV::Tool { current, .. }, Some(p)) => {
                    &&& p.0@ == match current.name {
                        Some(n) => n,
                        None => "unknown"@,
                    }
                    &&& current.content is Text ==> p.1@ == current.content->Text_0
                },
                (PressV::Tool { .. }, None) => false,
                (_, Some(p)) => false,
                (_, None) => true,
            },
    {
        match self {
            Compression::Tool { current, .. } => {
                let name = match &current.name {
                    Some(n) => n.clone(),
                    None => "unknown".to_owned(),
                };
                let text = match &current.content {
                    MessageContent::Text(s) => s.clone(),
                    MessageContent::Parts(_) => String::new(),
                };
                Some((name, text))
            },
            _ => None,
        }
    }

    /// The messages to be summarized together: all but the system's, in order.
    pub fn conversation_to_summarize(&self) -> (r: Option<Vec<ChatMessage>>)
        ensures
            match (self.value(), r) {
                (PressV::All { messages, .. }, Some(v)) => message_views(v@) == others(messages),
                (PressV::All { .. }, None) => false,
                (_, Some(_)) => false,
                (_, None) => true,
            },
    {
        match self {
            Compression::All { messages, .. } => Some(copy_others(messages)),
            _ => None,
        }
    }
}

fn copy_others(messages: &Vec<ChatMessage>) -> (r: Vec<ChatMessage>)
    ensures
        message_views(r@) == others(message_views(messages@)),
{
    let ghost all = message_views(messages@);
    let mut out: Vec<ChatMessage> = Vec::new();
    let mut i: usize = 0;
    proof {
        assert(message_views(out@) =~= others(all.take(0)));
    }
    while i < messages.len()
        invariant
            i <= messages@.len(),
            all == message_views(messages@),
            message_views(out@) == others(all.take(i as int)),
        decreases messages@.len() - i,
    {
        proof {
            assert(all.take(i + 1).drop_last() =~= all.take(i as int));
            assert(all.take(i + 1).last() == messages@[i as int]@);
        }
        if messages[i].role != MessageRole::System {
            push_message(&mut out, messages[i].copy());
        }
        i += 1;
    }
    proof {
        assert(all.take(all.len() as int) =~= all);
    }
    out
}

fn names(n: usize) -> (r: Vec<String>)
    requires
        n <= 5,
    ensures
        views(r@) == stage_names(n as int),
{
    let mut v: Vec<String> = Vec::new();
    if n >= 1 {
        v.push("tool_result_budget".to_owned());
    }
    if n >= 2 {
        v.push("history_snip".to_owned());
    }
    if n >= 3 {
        v.push("microcompact".to_owned());
    }
    if n >= 4 {
        v.push("context_collapse".to_owned());
    }
    if n >= 5 {
        v.push("autocompact".to_owned());
    }
    proof {
        assert(views(v@) =~= stage_names(n as int));
    }
    v
}

fn no_messages() -> (r: Vec<ChatMessage>)
    ensures
        message_views(r@) == Seq::<MessageV>::empty(),
{
    let v: Vec<ChatMessage> = Vec::new();
    proof {
        assert(message_views(v@) =~= Seq::<MessageV>::empty());
    }
    v
}

impl<C: TokenCounter> CompressionPipeline<C> {
    pub closed spec fn counts_with(self) -> C {
        self.counter
    }

    pub closed spec fn bounds(self) -> CompressionLimits {
        self.limits
    }

    pub closed spec fn window(self) -> usize {
        self.model_context_limit
    }

    /// A pipeline for a model's window.
    pub fn new(counter: C, model_context_limit: usize, limits: CompressionLimits) -> (r: Self)
        ensures
            r.counts_with() == counter,
            r.window() == model_context_limit,
            r.bounds() == limits,
    {
        CompressionPipeline { counter, model_context_limit, limits }
    }

    /// The model's window.
    pub fn model_context_limit(&self) -> (r: usize)
        ensures
            r == self.window(),
    {
        self.model_context_limit
    }

    /// Whether a conversation is to be compressed.
    pub fn needs_compression(&self, messages: &Vec<ChatMessage>) -> (r: bool)
        ensures
            r == (self.counts_with().conversation_tokens(message_views(messages@)) > self.bounds().trigger_tokens),
    {
        self.counter.count_messages(messages) > self.limits.trigger_tokens
    }

    /// Cuts large tool results.
    pub fn stage1_tool_result_budget(&self, messages: Vec<ChatMessage>) -> (r: Vec<ChatMessage>)
        requires
            self.bounds().wf(),
        ensures
            message_views(r@) == stage1(self.counts_with(), self.bounds(), message_views(messages@)),
    {
        let ghost raw = messages@;
        let ghost all = stage1(self.counter, self.limits, message_views(messages@));
        let mut rest = messages;
        let mut out: Vec<ChatMessage> = Vec::new();
        let ghost mut i: int = 0;
        proof {
            assert(rest@ =~= raw.skip(0));
            assert(message_views(out@) =~= all.take(0));
        }
        while rest.len() > 0
            invariant
                0 <= i <= raw.len(),
                self.limits.wf(),
                all == stage1(self.counter, self.limits, message_views(raw)),
                rest@ == raw.skip(i),
                message_views(out@) == all.take(i),
            decreases rest@.len(),
        {
            let mut m = rest.remove(0);
            let ghost was = m@;
            proof {
                assert(m == raw[i]);
                assert(rest@ =~= raw.skip(i + 1));
            }
            if m.role == MessageRole::Tool {
                let cut: Option<String> = match &m.content {
                    MessageContent::Text(text) => {
                        let tokens: usize = self.counter.count_text(text.as_str());
                        if tokens <= self.limits.tool_result_max_tokens {
                            None
                        } else {
                            Some(cut_text(text.as_str(), tokens, self.limits.tool_result_max_tokens))
                        }
                    },
                    MessageContent::Parts(_) => None,
                };
                if let Some(t) = cut {
                    m.content = MessageContent::Text(t);
                }
            }
            proof {
                assert(m@ == budgeted(self.counter, self.limits, was));
                assert(all[i] == m@);
                assert(all.take(i + 1) =~= all.take(i).push(m@));
                i = i + 1;
            }
            push_message(&mut out, m);
        }
        proof {
            assert(all.take(i) =~= all);
        }
        out
    }

    /// Drops old turns.
    pub fn stage2_history_snip(&self, messages: Vec<ChatMessage>) -> (r: Vec<ChatMessage>)
        requires
            self.bounds().wf(),
        ensures
            message_views(r@) == stage2(self.bounds(), message_views(messages@)),
    {
        let (sys, rest) = part(messages);
        let ghost all = message_views(rest@);
        let keep: usize = self.limits.snip_keep_recent_pairs * 3;
        let mut rest = rest;
        let mut cut: usize = if rest.len() > keep {
            rest.len() - keep
        } else {
            0
        };
        let ghost from = cut as int;
        while cut < rest.len() && rest[cut].role != MessageRole::User
            invariant
                cut <= rest@.len(),
                all == message_views(rest@),
                user_from(all, from) == user_from(all, cut as int),
            decreases rest@.len() - cut,
        {
            proof {
                assert(all[cut as int] == rest@[cut as int]@);
            }
            cut += 1;
        }
        proof {
            if cut < rest@.len() {
                assert(all[cut as int] == rest@[cut as int]@);
            }
            assert(cut == snip_point(self.limits, all));
        }
        let ghost whole = rest@;
        let kept = rest.split_off(cut);
        proof {
            assert(message_views(kept@) =~= all.skip(cut as int));
        }
        append_messages(sys, kept)
    }

    /// Archives the older half.
    pub fn stage4_context_collapse(&self, messages: Vec<ChatMessage>) -> (r: (Vec<ChatMessage>, Vec<ChatMessage>))
        requires
            self.bounds().wf(),
        ensures
            message_views(r.0@) == stage4(self.bounds(), message_views(messages@)),
            message_views(r.1@) == archived(self.bounds(), message_views(messages@)),
    {
        if messages.len() <= self.limits.snip_keep_recent_pairs * 2 + 1 {
            return (messages, no_messages());
        }
        let (sys, rest) = part(messages);
        let ghost all = message_views(rest@);
        let mut old = rest;
        let half: usize = old.len() / 2;
        let recent = old.split_off(half);
        proof {
            assert(message_views(recent@) =~= all.skip(half as int));
            assert(message_views(old@) =~= all.take(half as int));
        }
        let mut note = concat("[Context note: ", decimal_text(old.len() as u64).as_str());
        note.append(" earlier messages have been archived to long-term memory]");
        let m = ChatMessage::user(note.as_str());
        proof {
            lemma_plain_message(m, MessageRole::User, note@);
        }
        let mut result = sys;
        push_message(&mut result, m);
        (append_messages(result, recent), old)
    }

    /// Puts a summary in the place of everything but the system's messages.
    fn stage5_autocompact(&self, messages: Vec<ChatMessage>, summary: Result<String, String>) -> (r: Vec<ChatMessage>)
        ensures
            message_views(r@) == stage5(
                message_views(messages@),
                match summary {
                    Ok(s) => Ok(s@),
                    Err(e) => Err(e@),
                },
            ),
    {
        let (mut sys, rest) = part(messages);
        match summary {
            Ok(s) => {
                let text = concat("[AutoCompact summary of previous conversation]\n", s.as_str());
                let m = ChatMessage::system(text.as_str());
                proof {
                    lemma_plain_message(m, MessageRole::System, text@);
                }
                push_message(&mut sys, m);
                sys
            },
            Err(_) => append_messages(sys, rest),
        }
    }

    /// The first two stages, which need no summaries.
    pub fn compress_sync(&self, messages: Vec<ChatMessage>) -> (r: Vec<ChatMessage>)
        requires
            self.bounds().wf(),
        ensures
            ({
                let c = self.counts_with();
                let ms = message_views(messages@);
                let m1 = stage1(c, self.bounds(), ms);
                message_views(r@) == if c.conversation_tokens(ms) <= self.bounds().trigger_tokens {
                    ms
                } else if c.conversation_tokens(m1) <= self.bounds().trigger_tokens {
                    m1
                } else {
                    stage2(self.bounds(), m1)
                }
            }),
    {
        if self.counter.count_messages(&messages) <= self.limits.trigger_tokens {
            return messages;
        }
        let messages = self.stage1_tool_result_budget(messages);
        if self.counter.count_messages(&messages) <= self.limits.trigger_tokens {
            return messages;
        }
        self.stage2_history_snip(messages)
    }

    fn tools_done(&self, tokens_before: usize, messages: Vec<ChatMessage>, used: usize, goal: Goal) -> (r: Compression)
        requires
            self.bounds().wf(),
        ensures
            r.has_goal(goal.value()),
            r.value() == after_tools(
                self.counts_with(),
                self.bounds(),
                goal.value(),
                tokens_before,
                message_views(messages@),
                used,
            ),
    {
        let n3: usize = self.counter.count_messages(&messages);
        if n3 <= goal.threshold {
            return Compression::Done(
                CompressionResult {
                    messages,
                    stages_applied: names(3),
                    tokens_before,
                    tokens_after: n3,
                    archived_messages: no_messages(),
                },
            );
        }
        let (messages, archived) = self.stage4_context_collapse(messages);
        let n4: usize = self.counter.count_messages(&messages);
        if n4 > goal.threshold && n4 > goal.stage5_trigger && used < goal.budget {
            Compression::All { tokens_before, messages, archived, goal }
        } else {
            Compression::Done(
                CompressionResult {
                    messages,
                    stages_applied: names(4),
                    tokens_before,
                    tokens_after: n4,
                    archived_messages: archived,
                },
            )
        }
    }

    fn look(&self, tokens_before: usize, done: Vec<ChatMessage>, rest: Vec<ChatMessage>, used: usize, goal: Goal) -> (r:
        Compression)
        requires
            self.bounds().wf(),
        ensures
            r.has_goal(goal.value()),
            r.value() == look_at_tools(
                self.counts_with(),
                self.bounds(),
                goal.value(),
                tokens_before,
                message_views(done@),
                message_views(rest@),
                used,
            ),
    {
        let mut seen = done;
        let mut queue = rest;
        while queue.len() > 0
            invariant
                self.limits.wf(),
                look_at_tools(
                    self.counter,
                    self.limits,
                    goal.value(),
                    tokens_before,
                    message_views(done@),
                    message_views(rest@),
                    used,
                ) == look_at_tools(
                    self.counter,
                    self.limits,
                    goal.value(),
                    tokens_before,
                    message_views(seen@),
                    message_views(queue@),
                    used,
                ),
            decreases queue@.len(),
        {
            let ghost all = message_views(queue@);
            let m = queue.remove(0);
            proof {
                assert(all[0] == m@);
                assert(message_views(queue@) =~= all.skip(1));
            }
            let wants = used < goal.budget && m.role == MessageRole::Tool && match &m.content {
                MessageContent::Text(text) => self.counter.count_text(text.as_str()) > self.limits.tool_result_max_tokens
                    / 2,
                MessageContent::Parts(_) => false,
            };
            if wants {
                return Compression::Tool { tokens_before, done: seen, current: m, rest: queue, used, goal };
            }
            push_message(&mut seen, m);
        }
        proof {
            assert(message_views(queue@) =~= Seq::<MessageV>::empty());
        }
        self.tools_done(tokens_before, seen, used, goal)
    }

    /// Begins a compression towards a threshold.
    pub fn begin_towards(&self, messages: Vec<ChatMessage>, can_summarize: bool, goal: Goal) -> (r: Compression)
        requires
            self.bounds().wf(),
        ensures
            r.has_goal(goal.value()),
            r.value() == begin(
                self.counts_with(),
                self.bounds(),
                goal.value(),
                message_views(messages@),
                can_summarize,
            ),
    {
        let tokens_before: usize = self.counter.count_messages(&messages);
        if tokens_before <= goal.threshold {
            return Compression::Done(
                CompressionResult {
                    messages,
                    stages_applied: names(0),
                    tokens_before,
                    tokens_after: tokens_before,
                    archived_messages: no_messages(),
                },
            );
        }
        let messages = self.stage1_tool_result_budget(messages);
        let n1: usize = self.counter.count_messages(&messages);
        if n1 <= goal.threshold {
            return Compression::Done(
                CompressionResult {
                    messages,
                    stages_applied: names(1),
                    tokens_before,
                    tokens_after: n1,
                    archived_messages: no_messages(),
                },
            );
        }
        let messages = self.stage2_history_snip(messages);
        let n2: usize = self.counter.count_messages(&messages);
        if n2 <= goal.threshold || !can_summarize || goal.budget == 0 {
            return Compression::Done(
                CompressionResult {
                    messages,
                    stages_applied: names(2),
                    tokens_before,
                    tokens_after: n2,
                    archived_messages: no_messages(),
                },
            );
        }
        self.look(tokens_before, no_messages(), messages, 0, goal)
    }

    /// Begins a compression to fit the model's window.
    pub fn compress(&self, messages: Vec<ChatMessage>, can_summarize: bool, housekeeping_budget: usize) -> (r: Compression)
        requires
            self.bounds().wf(),
        ensures
            ({
                let goal = GoalV {
                    threshold: self.bounds().trigger_tokens,
                    stage5_trigger: self.bounds().max_input_tokens,
                    budget: housekeeping_budget,
                };
                &&& r.has_goal(goal)
                &&& r.value() == begin(
                    self.counts_with(),
                    self.bounds(),
                    goal,
                    message_views(messages@),
                    can_summarize,
                )
            }),
    {
        let goal = Goal {
            threshold: self.limits.trigger_tokens,
            stage5_trigger: self.limits.max_input_tokens,
            budget: housekeeping_budget,
        };
        self.begin_towards(messages, can_summarize, goal)
    }

    /// Begins a compression to fit a target of its own, which also decides when
    /// everything is summarized.
    pub fn compress_to(
        &self,
        messages: Vec<ChatMessage>,
        can_summarize: bool,
        housekeeping_budget: usize,
        target_threshold: usize,
    ) -> (r: Compression)
        requires
            self.bounds().wf(),
        ensures
            ({
                let goal = GoalV {
                    threshold: target_threshold,
                    stage5_trigger: target_threshold,
                    budget: housekeeping_budget,
                };
                &&& r.has_goal(goal)
                &&& r.value() == begin(
                    self.counts_with(),
                    self.bounds(),
                    goal,
                    message_views(messages@),
                    can_summarize,
                )
            }),
    {
        let goal = Goal {
            threshold: target_threshold,
            stage5_trigger: target_threshold,
            budget: housekeeping_budget,
        };
        self.begin_towards(messages, can_summarize, goal)
    }

    /// Takes a summary, or the reason why there is none.
    pub fn reply(&self, state: Compression, summary: Result<String, String>) -> (r: Compression)
        requires
            self.bounds().wf(),
        ensures
            forall|g: GoalV| #[trigger]
                state.has_goal(g) ==> r.has_goal(g) && r.value() == on_summary(
                    self.counts_with(),
                    self.bounds(),
                    g,
                    state.value(),
                    match summary {
                        Ok(s) => Ok(s@),
                        Err(e) => Err(e@),
                    },
                ),
    {
        match state {
            Compression::Done(r) => Compression::Done(r),
            Compression::Tool { tokens_before, done, current, rest, used, goal } => {
                let mut done = done;
                match summary {
                    Ok(s) => {
                        let mut m = current;
                        let n: usize = self.counter.count_text(s.as_str());
                        m.content = MessageContent::Text(concat("[summarized] ", s.as_str()));
                        push_message(&mut done, m);
                        self.look(tokens_before, done, rest, used.saturating_add(n), goal)
                    },
                    Err(_) => {
                        push_message(&mut done, current);
                        self.look(tokens_before, done, rest, used, goal)
                    },
                }
            },
            Compression::All { tokens_before, messages, archived, goal } => {
                let messages = self.stage5_autocompact(messages, summary);
                let n5: usize = self.counter.count_messages(&messages);
                Compression::Done(
                    CompressionResult {
                        messages,
                        stages_applied: names(5),
                        tokens_before,
                        tokens_after: n5,
                        archived_messages: archived,
                    },
                )
            },
        }
    }
}

// ---------------------------------------------------------------------------
// Laws
// ---------------------------------------------------------------------------

proof fn lemma_cut_from(s: Seq<char>, limit: int, i: int)
    requires
        0 <= i <= s.len(),
        utf8_bytes(s.take(i)) <= limit,
    ensures
        ({
            let k = cut_from(s, limit, i, utf8_bytes(s.take(i)) as int);
            &&& i <= k <= s.len()
            &&& utf8_bytes(s.take(k)) <= limit
            &&& k < s.len() ==> utf8_bytes(s.take(k + 1)) > limit
        }),
    decreases s.len() - i,
{
    if i < s.len() {
        assert(s.take(i + 1).drop_last() =~= s.take(i));
        assert(s.take(i + 1).last() == s[i]);
        if utf8_bytes(s.take(i + 1)) <= limit {
            lemma_cut_from(s, limit, i + 1);
        }
    }
}

/// A cut tool result keeps as many of its characters as fit into the limit, and no
/// part of a character.
pub proof fn law_cuts_keep_what_fits(s: Seq<char>, limit: int)
    requires
        0 <= limit,
    ensures
        0 <= cut_from(s, limit, 0, 0) <= s.len(),
        utf8_bytes(s.take(cut_from(s, limit, 0, 0))) <= limit,
        cut_from(s, limit, 0, 0) < s.len() ==> utf8_bytes(s.take(cut_from(s, limit, 0, 0) + 1)) > limit,
{
    assert(s.take(0).len() == 0);
    lemma_cut_from(s, limit, 0);
}

/// Cutting tool results keeps the number, the roles and the names of the
/// messages, and which result answers to which call.
pub proof fn law_cutting_keeps_correlation<C: TokenCounter>(c: C, limits: CompressionLimits, ms: Seq<MessageV>, i: int)
    requires
        0 <= i < ms.len(),
    ensures
        stage1(c, limits, ms).len() == ms.len(),
        stage1(c, limits, ms)[i].role == ms[i].role,
        stage1(c, limits, ms)[i].name == ms[i].name,
        stage1(c, limits, ms)[i].tool_call_id == ms[i].tool_call_id,
        stage1(c, limits, ms)[i].tool_calls == ms[i].tool_calls,
        ms[i].role != MessageRole::Tool ==> stage1(c, limits, ms)[i] == ms[i],
{
}

proof fn lemma_user_from(ms: Seq<MessageV>, i: int)
    requires
        0 <= i <= ms.len(),
    ensures
        i <= user_from(ms, i) <= ms.len(),
        user_from(ms, i) < ms.len() ==> ms[user_from(ms, i)].role == MessageRole::User,
    decreases ms.len() - i,
{
    if i < ms.len() && ms[i].role != MessageRole::User {
        lemma_user_from(ms, i + 1);
    }
}

proof fn lemma_systems(ms: Seq<MessageV>)
    ensures
        forall|i: int| 0 <= i < systems(ms).len() ==> (#[trigger] systems(ms)[i]).role == MessageRole::System,
        forall|i: int| 0 <= i < others(ms).len() ==> (#[trigger] others(ms)[i]).role != MessageRole::System,
        systems(ms).len() + others(ms).len() == ms.len(),
    decreases ms.len(),
{
    if ms.len() > 0 {
        lemma_systems(ms.drop_last());
    }
}

proof fn lemma_only_systems(s: Seq<MessageV>)
    requires
        forall|i: int| 0 <= i < s.len() ==> (#[trigger] s[i]).role == MessageRole::System,
    ensures
        systems(s) == s,
        others(s) == Seq::<MessageV>::empty(),
    decreases s.len(),
{
    if s.len() > 0 {
        lemma_only_systems(s.drop_last());
        assert(s =~= s.drop_last().push(s.last()));
    } else {
        assert(systems(s) =~= s);
    }
}

proof fn lemma_parts_of_sum(a: Seq<MessageV>, b: Seq<MessageV>)
    requires
        forall|i: int| 0 <= i < a.len() ==> (#[trigger] a[i]).role == MessageRole::System,
        forall|i: int| 0 <= i < b.len() ==> (#[trigger] b[i]).role != MessageRole::System,
    ensures
        systems(a + b) == a,
        others(a + b) == b,
    decreases b.len(),
{
    if b.len() == 0 {
        lemma_only_systems(a);
        assert(a + b =~= a);
        assert(b =~= Seq::<MessageV>::empty());
    } else {
        lemma_parts_of_sum(a, b.drop_last());
        assert((a + b).drop_last() =~= a + b.drop_last());
        assert(b =~= b.drop_last().push(b.last()));
    }
}

/// Dropping old turns keeps every message of the system, keeps the end of the
/// conversation, and begins it with a user's message: no tool result is parted
/// from the message that asked for it.
pub proof fn law_snipping_keeps_whole_turns(limits: CompressionLimits, ms: Seq<MessageV>)
    ensures
        systems(stage2(limits, ms)) == systems(ms),
        0 <= snip_point(limits, others(ms)) <= others(ms).len(),
        others(stage2(limits, ms)) == others(ms).skip(snip_point(limits, others(ms))),
        others(stage2(limits, ms)).len() > 0 ==> others(stage2(limits, ms))[0].role == MessageRole::User,
        others(stage2(limits, ms)).len() <= limits.snip_keep_recent_pairs * 3 || others(ms).len()
            <= limits.snip_keep_recent_pairs * 3,
{
    let rest = others(ms);
    let keep = limits.snip_keep_recent_pairs * 3;
    let from = if rest.len() > keep {
        rest.len() - keep
    } else {
        0
    };
    lemma_systems(ms);
    lemma_user_from(rest, from);
    lemma_parts_of_sum(systems(ms), rest.skip(snip_point(limits, rest)));
}

/// Archiving loses nothing: the archived messages followed by those that stay
/// are the conversation, and the system's messages stay.
pub proof fn law_archiving_loses_nothing(limits: CompressionLimits, ms: Seq<MessageV>)
    ensures
        systems(stage4(limits, ms)) == systems(ms),
        can_archive(limits, ms) ==> archived(limits, ms) + others(stage4(limits, ms)).skip(1) == others(ms),
        !can_archive(limits, ms) ==> archived(limits, ms).len() == 0 && stage4(limits, ms) == ms,
{
    if can_archive(limits, ms) {
        let rest = others(ms);
        let half = (rest.len() / 2) as int;
        let note = archive_note(half as nat);
        let tail = seq![note] + rest.skip(half);
        lemma_systems(ms);
        lemma_parts_of_sum(systems(ms), tail);
        assert(systems(ms).push(note) + rest.skip(half) =~= systems(ms) + tail);
        assert(tail.skip(1) =~= rest.skip(half));
        assert(rest.take(half) + rest.skip(half) =~= rest);
    }
}

/// A failed summary of everything keeps every message; a successful one keeps
/// those of the system and adds one.
pub proof fn law_summary_keeps_system_messages(ms: Seq<MessageV>, s: Seq<char>, e: Seq<char>)
    ensures
        systems(stage5(ms, Err(e))) == systems(ms),
        others(stage5(ms, Err(e))) == others(ms),
        systems(stage5(ms, Ok(s))).len() == systems(ms).len() + 1,
        systems(stage5(ms, Ok(s))).drop_last() == systems(ms),
        others(stage5(ms, Ok(s))).len() == 0,
{
    lemma_systems(ms);
    lemma_parts_of_sum(systems(ms), others(ms));
    let all = stage5(ms, Ok(s));
    lemma_only_systems(all);
    assert(all.drop_last() =~= systems(ms));
}

/// A conversation within the threshold is left as it is.
pub proof fn law_short_conversations_stay<C: TokenCounter>(
    c: C,
    limits: CompressionLimits,
    goal: GoalV,
    ms: Seq<MessageV>,
    can_summarize: bool,
)
    requires
        c.conversation_tokens(ms) <= goal.threshold,
    ensures
        begin(c, limits, goal, ms, can_summarize) is Done,
        begin(c, limits, goal, ms, can_summarize)->Done_0.messages == ms,
        begin(c, limits, goal, ms, can_summarize)->Done_0.stages.len() == 0,
{
}

/// Without a summarizer, or without a budget for it, a compression is over after
/// the stages that need none.
pub proof fn law_no_summaries_without_budget<C: TokenCounter>(
    c: C,
    limits: CompressionLimits,
    goal: GoalV,
    ms: Seq<MessageV>,
    can_summarize: bool,
)
    requires
        !can_summarize || goal.budget == 0,
    ensures
        begin(c, limits, goal, ms, can_summarize) is Done,
        begin(c, limits, goal, ms, can_summarize)->Done_0.archived.len() == 0,
        begin(c, limits, goal, ms, can_summarize)->Done_0.stages.len() <= 2,
{
}

} // verus!
