//! A streamed reply of Ollama: from pieces of the body to stream events.
use vstd::prelude::*;

use crate::json::{Json, JsonV, lemma_views, parse, parsed, render, rendered, views as json_views};
use crate::llm::ollama::{parse_text_tool_calls, text_calls};
use crate::llm::provider::{FinishReason, StreamEvent, StreamEventV, TokenUsageStats, ToolCall, ToolCallV, call_views,
    event_views, lemma_event_views_push, usage_of};
use crate::text::{at, char_width, chars_between, chars_of, contains, find_chars, lemma_find_from,
    lemma_utf8_bytes_split, lossy, lossy_text, next_char, same, seek_char, stands_at, starts_with, text_between,
    text_of, trim, trimmed_between, utf8_bytes, utf8_width, views};

verus! {

// ---------------------------------------------------------------------------
// Holding text back
// ---------------------------------------------------------------------------

/// The greatest position up to `e` behind which at least `need` bytes stand
/// before `e`; 0 where there is none.
pub open spec fn flush_down(s: Seq<char>, e: int, need: int) -> int
    decreases e,
{
    if e <= 0 {
        0
    } else if need <= 0 {
        e
    } else {
        flush_down(s, e - 1, need - utf8_width(s[e - 1]))
    }
}

/// How many characters may be shown so that `holdback` bytes stay unshown.
pub open spec fn flush_point(s: Seq<char>, holdback: nat) -> int {
    flush_down(s, s.len() as int, holdback as int)
}

proof fn lemma_flush_down(s: Seq<char>, e: int, need: int)
    requires
        0 <= e <= s.len(),
    ensures
        0 <= flush_down(s, e, need) <= e,
        flush_down(s, e, need) > 0 ==> utf8_bytes(s.subrange(flush_down(s, e, need), e)) >= need,
        forall|k: int|
            flush_down(s, e, need) < k <= e ==> utf8_bytes(#[trigger] s.subrange(k, e)) < need,
    decreases e,
{
    if e > 0 && need > 0 {
        let c = utf8_width(s[e - 1]);
        lemma_flush_down(s, e - 1, need - c);
        let f = flush_down(s, e, need);
        assert(s.subrange(f, e).drop_last() =~= s.subrange(f, e - 1));
        assert forall|k: int| f < k <= e implies utf8_bytes(#[trigger] s.subrange(k, e)) < need by {
            if k < e {
                assert(s.subrange(k, e).drop_last() =~= s.subrange(k, e - 1));
            } else {
                assert(s.subrange(k, e) =~= Seq::<char>::empty());
            }
        }
    } else if e > 0 {
        assert(s.subrange(e, e) =~= Seq::<char>::empty());
    }
}

/// What is shown leaves the held-back bytes unshown, and showing one more
/// character would not.
pub proof fn law_flush_holds_back(s: Seq<char>, holdback: nat)
    ensures
        0 <= flush_point(s, holdback) <= s.len(),
        flush_point(s, holdback) > 0 ==> utf8_bytes(s.skip(flush_point(s, holdback))) >= holdback,
        flush_point(s, holdback) < s.len() ==> utf8_bytes(s.skip(flush_point(s, holdback) + 1)) < holdback,
{
    lemma_flush_down(s, s.len() as int, holdback as int);
    let f = flush_point(s, holdback);
    assert(s.skip(f) =~= s.subrange(f, s.len() as int));
    if f < s.len() {
        assert(s.skip(f + 1) =~= s.subrange(f + 1, s.len() as int));
    }
}

fn flush_index(s: &Vec<char>, holdback: usize) -> (r: usize)
    ensures
        r == flush_point(s@, holdback as nat),
        r <= s@.len(),
{
    let mut e: usize = s.len();
    let mut need: usize = holdback;
    while e > 0 && need > 0
        invariant
            e <= s@.len(),
            flush_down(s@, e as int, need as int) == flush_point(s@, holdback as nat),
        decreases e,
    {
        let w: usize = char_width(s[e - 1]);
        if w >= need {
            proof {
                let rest = need - w;
                assert(flush_down(s@, e as int, need as int) == flush_down(s@, e - 1, rest as int));
                assert(flush_down(s@, e - 1, rest as int) == flush_down(s@, e - 1, 0));
            }
            need = 0;
        } else {
            need = need - w;
        }
        e -= 1;
    }
    e
}

/// The greatest byte offset at a character boundary that still leaves
/// `holdback` bytes behind it, or 0.
pub fn flush_boundary(s: &str, holdback: usize) -> (r: usize)
    requires
        utf8_bytes(s@) <= usize::MAX,
    ensures
        r == utf8_bytes(s@.take(flush_point(s@, holdback as nat))),
{
    let v = chars_of(s);
    let e: usize = flush_index(&v, holdback);
    let mut n: usize = 0;
    let mut i: usize = 0;
    while i < e
        invariant
            i <= e <= v@.len(),
            v@ == s@,
            utf8_bytes(s@) <= usize::MAX,
            n == utf8_bytes(s@.take(i as int)),
        decreases e - i,
    {
        proof {
            assert(s@.take(i + 1).drop_last() =~= s@.take(i as int));
            lemma_utf8_bytes_split(s@, i + 1);
        }
        n = n + char_width(v[i]);
        i += 1;
    }
    n
}

// ---------------------------------------------------------------------------
// The stream as a state machine
// ---------------------------------------------------------------------------

/// How far a streamed reply has been read.
pub struct StreamV {
    /// What has arrived of the line that is not complete.
    pub buffer: Seq<char>,
    /// The reply's text so far.
    pub content: Seq<char>,
    /// How many characters of the text have been shown.
    pub flushed: int,
    /// Whether the unshown text holds the beginning of a tool call.
    pub in_call: bool,
    /// Whether a structured tool call has arrived.
    pub structured: bool,
}

/// The text holds the marker of a tool call.
pub open spec fn marked(s: Seq<char>) -> bool {
    contains(s, "<function="@) || contains(s, "<tool_call>"@)
}

/// A piece of text arrives: it is shown, but for a short tail, until a marker
/// of a tool call stands in what is unshown.
pub open spec fn on_text(st: StreamV, delta: Seq<char>) -> (StreamV, Seq<StreamEventV>) {
    if delta.len() == 0 {
        (st, Seq::empty())
    } else {
        let content = st.content + delta;
        let s1 = StreamV { content, ..st };
        if st.in_call {
            (s1, Seq::empty())
        } else if marked(content.subrange(st.flushed, content.len() as int)) {
            (StreamV { in_call: true, ..s1 }, Seq::empty())
        } else {
            let end = flush_point(content, 16);
            if end > st.flushed {
                (
                    StreamV { flushed: end, ..s1 },
                    seq![StreamEventV::TextDelta(content.subrange(st.flushed, end))],
                )
            } else {
                (s1, Seq::empty())
            }
        }
    }
}

/// The index of a streamed tool call.
pub open spec fn call_index(tc: JsonV) -> Option<usize> {
    match tc.at_key("index"@).as_u64() {
        Some(i) => Some(i as usize),
        None => None,
    }
}

/// A piece of a structured tool call.
pub open spec fn call_event(tc: JsonV) -> StreamEventV {
    StreamEventV::ToolCallDelta(
        call_index(tc),
        tc.at_key("id"@).text_or(""@),
        tc.at_key("function"@).at_key("name"@).as_text(),
        tc.at_key("function"@).at_key("arguments"@).text_or(""@),
    )
}

pub open spec fn call_events(calls: Seq<JsonV>) -> Seq<StreamEventV> {
    calls.map_values(|tc: JsonV| call_event(tc))
}

/// The recovered calls as events, each whole.
pub open spec fn recovered_events(calls: Seq<ToolCallV>) -> Seq<StreamEventV> {
    Seq::new(
        calls.len(),
        |i: int|
            StreamEventV::ToolCallDelta(
                Some(i as usize),
                calls[i].id,
                Some(calls[i].name),
                rendered(calls[i].arguments),
            ),
    )
}

pub open spec fn finish_of(reason: Seq<char>) -> FinishReason {
    if reason == "tool_calls"@ {
        FinishReason::ToolUse
    } else if reason == "length"@ {
        FinishReason::MaxTokens
    } else {
        FinishReason::Stop
    }
}

pub open spec fn usage_events(data: JsonV) -> Seq<StreamEventV> {
    match data.field("usage"@) {
        Some(u) => seq![
            StreamEventV::Usage(usage_of(u.at_key("prompt_tokens"@).count(), u.at_key("completion_tokens"@).count())),
        ],
        None => Seq::empty(),
    }
}

/// The reply ends: calls written as text are recovered unless structured ones
/// arrived; without any, the held-back text is shown.
pub open spec fn on_finish(st: StreamV, data: JsonV, reason: Seq<char>, names: Seq<Seq<char>>) -> (
    StreamV,
    Seq<StreamEventV>,
) {
    let calls = if st.structured {
        Seq::empty()
    } else {
        text_calls(st.content, names)
    };
    if calls.len() > 0 {
        (st, usage_events(data) + recovered_events(calls) + seq![StreamEventV::Done(FinishReason::ToolUse)])
    } else if st.flushed < st.content.len() {
        (
            StreamV { flushed: st.content.len() as int, ..st },
            usage_events(data) + seq![
                StreamEventV::TextDelta(st.content.subrange(st.flushed, st.content.len() as int)),
                StreamEventV::Done(finish_of(reason)),
            ],
        )
    } else {
        (st, usage_events(data) + seq![StreamEventV::Done(finish_of(reason))])
    }
}

/// One choice of a chunk.
pub open spec fn on_choice(st: StreamV, data: JsonV, choice: JsonV, names: Seq<Seq<char>>) -> (
    StreamV,
    Seq<StreamEventV>,
) {
    let delta = choice.at_key("delta"@);
    let (s1, e1) = match delta.at_key("content"@).as_text() {
        Some(t) => on_text(st, t),
        None => (st, Seq::empty()),
    };
    let (s2, e2) = match delta.at_key("tool_calls"@).as_array() {
        Some(calls) => (StreamV { structured: true, ..s1 }, call_events(calls)),
        None => (s1, Seq::empty()),
    };
    let (s3, e3) = match choice.at_key("finish_reason"@).as_text() {
        Some(reason) => on_finish(s2, data, reason, names),
        None => (s2, Seq::empty()),
    };
    (s3, e1 + e2 + e3)
}

/// The choices of a chunk, in order.
pub open spec fn on_choices(st: StreamV, data: JsonV, choices: Seq<JsonV>, names: Seq<Seq<char>>) -> (
    StreamV,
    Seq<StreamEventV>,
)
    decreases choices.len(),
{
    if choices.len() == 0 {
        (st, Seq::empty())
    } else {
        let (s1, e1) = on_choices(st, data, choices.drop_last(), names);
        let (s2, e2) = on_choice(s1, data, choices.last(), names);
        (s2, e1 + e2)
    }
}

/// What a line carries.
pub enum LineV {
    /// Nothing to read.
    Skip,
    /// The end marker.
    End,
    /// A chunk.
    Chunk(JsonV),
}

/// A line carries a chunk behind "data: "; what is no JSON is passed over.
pub open spec fn line_value(line: Seq<char>) -> LineV {
    let t = trim(line);
    if !starts_with(t, "data: "@) {
        LineV::Skip
    } else {
        let data = t.subrange("data: "@.len() as int, t.len() as int);
        if data == "[DONE]"@ {
            LineV::End
        } else {
            match parsed(data) {
                Some(v) => LineV::Chunk(v),
                None => LineV::Skip,
            }
        }
    }
}

/// A chunk.
pub open spec fn on_chunk(st: StreamV, data: JsonV, names: Seq<Seq<char>>) -> (StreamV, Seq<StreamEventV>) {
    match data.at_key("choices"@).as_array() {
        Some(choices) => on_choices(st, data, choices, names),
        None => (st, Seq::empty()),
    }
}

/// The complete lines of the buffer, in order, up to an end marker.
pub open spec fn drain(st: StreamV, names: Seq<Seq<char>>) -> (StreamV, Seq<StreamEventV>)
    decreases st.buffer.len(),
{
    let k = next_char(st.buffer, '\n', 0);
    if k < 0 || k >= st.buffer.len() {
        (st, Seq::empty())
    } else {
        let line = st.buffer.subrange(0, k);
        let rest = st.buffer.subrange(k + 1, st.buffer.len() as int);
        let s0 = StreamV { buffer: rest, ..st };
        match line_value(line) {
            LineV::End => (s0, Seq::empty()),
            LineV::Skip => drain(s0, names),
            LineV::Chunk(data) => {
                let (s1, e1) = on_chunk(s0, data, names);
                let (s2, e2) = drain(StreamV { buffer: rest, ..s1 }, names);
                (s2, e1 + e2)
            },
        }
    }
}

/// A piece of the body arrives.
pub open spec fn on_piece(st: StreamV, piece: Seq<char>, names: Seq<Seq<char>>) -> (StreamV, Seq<StreamEventV>) {
    drain(StreamV { buffer: st.buffer + piece, ..st }, names)
}

/// A streamed reply that is being read.
pub struct OllamaStream {
    buffer: Vec<char>,
    content: Vec<char>,
    flushed: usize,
    in_call: bool,
    structured: bool,
    tool_names: Vec<String>,
}

/// A line, read.
enum Line {
    Skip,
    End,
    Chunk(Json),
}

impl Line {
    spec fn value(self) -> LineV {
        match self {
            Line::Skip => LineV::Skip,
            Line::End => LineV::End,
            Line::Chunk(j) => LineV::Chunk(j@),
        }
    }
}

fn read_line(v: &Vec<char>, to: usize) -> (r: Line)
    requires
        to <= v@.len(),
    ensures
        r.value() == line_value(v@.subrange(0, to as int)),
{
    let t = chars_of(trimmed_between(v, 0, to).as_str());
    let mark = chars_of("data: ");
    if !stands_at(&t, &mark, 0) {
        return Line::Skip;
    }
    let data = text_between(&t, mark.len(), t.len());
    if same(data.as_str(), "[DONE]") {
        return Line::End;
    }
    match parse(data.as_str()) {
        Some(j) => Line::Chunk(j),
        None => Line::Skip,
    }
}

fn is_marked(v: &Vec<char>) -> (r: bool)
    ensures
        r == marked(v@),
{
    proof {
        lemma_find_from(v@, "<function="@, 0);
        lemma_find_from(v@, "<tool_call>"@, 0);
    }
    find_chars(v, &chars_of("<function="), 0).is_some() || find_chars(v, &chars_of("<tool_call>"), 0).is_some()
}

fn append_chars(v: &mut Vec<char>, s: &str)
    ensures
        final(v)@ == old(v)@ + s@,
{
    let mut more = chars_of(s);
    v.append(&mut more);
}

impl OllamaStream {
    /// How far the reply has been read.
    pub closed spec fn view(&self) -> StreamV {
        StreamV {
            buffer: self.buffer@,
            content: self.content@,
            flushed: self.flushed as int,
            in_call: self.in_call,
            structured: self.structured,
        }
    }

    /// The names of the offered tools.
    pub closed spec fn names(&self) -> Seq<Seq<char>> {
        views(self.tool_names@)
    }

    /// No more is shown than there is.
    pub closed spec fn wf(&self) -> bool {
        self.flushed <= self.content@.len()
    }

    /// A reply of which nothing has been read.
    pub fn new(tool_names: Vec<String>) -> (r: OllamaStream)
        ensures
            r.wf(),
            r.names() == views(tool_names@),
            r@ == (StreamV {
                buffer: Seq::empty(),
                content: Seq::empty(),
                flushed: 0,
                in_call: false,
                structured: false,
            }),
    {
        OllamaStream {
            buffer: Vec::new(),
            content: Vec::new(),
            flushed: 0,
            in_call: false,
            structured: false,
            tool_names,
        }
    }

    fn text_arrives(&mut self, delta: &str, events: &mut Vec<StreamEvent>)
        requires
            old(self).wf(),
        ensures
            final(self).wf(),
            final(self).tool_names == old(self).tool_names,
            (final(self)@, event_views(final(events)@)) == ({
                let (s, e) = on_text(old(self)@, delta@);
                (s, event_views(old(events)@) + e)
            }),
    {
        let ghost was = self@;
        let ghost before = events@;
        proof {
            assert(event_views(before) + Seq::<StreamEventV>::empty() =~= event_views(before));
        }
        if delta.is_empty() {
            return;
        }
        append_chars(&mut self.content, delta);
        if self.in_call {
            return;
        }
        let unshown = chars_between(&self.content, self.flushed, self.content.len());
        if is_marked(&unshown) {
            self.in_call = true;
            return;
        }
        let end: usize = flush_index(&self.content, 16);
        if end > self.flushed {
            let delta = text_between(&self.content, self.flushed, end);
            self.flushed = end;
            let e = StreamEvent::TextDelta { delta };
            proof {
                lemma_event_views_push(events@, e);
                assert(event_views(before).push(e@) =~= event_views(before) + seq![e@]);
            }
            events.push(e);
        }
    }

    fn calls_arrive(calls: &Vec<Json>, events: &mut Vec<StreamEvent>)
        ensures
            event_views(final(events)@) == event_views(old(events)@) + call_events(json_views(calls@)),
    {
        let ghost before = events@;
        let ghost all = call_events(json_views(calls@));
        let mut i: usize = 0;
        proof {
            lemma_views(calls@);
            assert(event_views(before) + all.take(0) =~= event_views(before));
        }
        while i < calls.len()
            invariant
                i <= calls@.len(),
                all == call_events(json_views(calls@)),
                json_views(calls@).len() == calls@.len(),
                forall|k: int| 0 <= k < calls@.len() ==> #[trigger] json_views(calls@)[k] == calls@[k]@,
                event_views(events@) == event_views(before) + all.take(i as int),
            decreases calls@.len() - i,
        {
            let tc = &calls[i];
            let f = tc.at_key("function");
            let index: Option<usize> = match tc.at_key("index").as_u64() {
                Some(n) => Some(n as usize),
                None => None,
            };
            let name = match f.at_key("name").as_str() {
                Some(s) => Some(s.to_owned()),
                None => None,
            };
            let e = StreamEvent::ToolCallDelta {
                index,
                id: tc.at_key("id").text_or(""),
                name,
                args_delta: f.at_key("arguments").text_or(""),
            };
            proof {
                lemma_event_views_push(events@, e);
                assert(all[i as int] == e@);
                assert((event_views(before) + all.take(i as int)).push(e@) =~= event_views(before) + all.take(i + 1));
            }
            events.push(e);
            i += 1;
        }
        proof {
            assert(all.take(i as int) =~= all);
        }
    }

    fn push_recovered(calls: &Vec<ToolCall>, events: &mut Vec<StreamEvent>)
        ensures
            event_views(final(events)@) == event_views(old(events)@) + recovered_events(call_views(calls@)),
    {
        let ghost before = events@;
        let ghost all = recovered_events(call_views(calls@));
        let mut i: usize = 0;
        proof {
            assert(event_views(before) + all.take(0) =~= event_views(before));
        }
        while i < calls.len()
            invariant
                i <= calls@.len(),
                all == recovered_events(call_views(calls@)),
                event_views(events@) == event_views(before) + all.take(i as int),
            decreases calls@.len() - i,
        {
            let c = &calls[i];
            let e = StreamEvent::ToolCallDelta {
                index: Some(i),
                id: c.id.clone(),
                name: Some(c.name.clone()),
                args_delta: render(&c.arguments),
            };
            proof {
                lemma_event_views_push(events@, e);
                assert(all[i as int] == e@);
                assert((event_views(before) + all.take(i as int)).push(e@) =~= event_views(before) + all.take(i + 1));
            }
            events.push(e);
            i += 1;
        }
        proof {
            assert(all.take(i as int) =~= all);
        }
    }

    fn reply_ends(&mut self, data: &Json, reason: &str, events: &mut Vec<StreamEvent>)
        requires
            old(self).wf(),
        ensures
            final(self).wf(),
            final(self).tool_names == old(self).tool_names,
            (final(self)@, event_views(final(events)@)) == ({
                let (s, e) = on_finish(old(self)@, data@, reason@, old(self).names());
                (s, event_views(old(events)@) + e)
            }),
    {
        let ghost before = event_views(events@);
        let ghost used = usage_events(data@);
        proof {
            assert(before + Seq::<StreamEventV>::empty() =~= before);
        }
        if let Some(u) = data.get("usage") {
            let e = StreamEvent::Usage(
                TokenUsageStats::new(u.at_key("prompt_tokens").count(), u.at_key("completion_tokens").count()),
            );
            proof {
                lemma_event_views_push(events@, e);
                assert(before.push(e@) =~= before + used);
            }
            events.push(e);
        }
        let calls: Vec<ToolCall> = if self.structured {
            Vec::new()
        } else {
            let content = text_of(&self.content);
            parse_text_tool_calls(content.as_str(), &self.tool_names)
        };
        proof {
            assert(call_views(calls@).len() == calls@.len());
            assert(event_views(events@) == before + used);
        }
        if calls.len() > 0 {
            Self::push_recovered(&calls, events);
            let e = StreamEvent::Done { finish_reason: FinishReason::ToolUse };
            proof {
                lemma_event_views_push(events@, e);
                let rec = recovered_events(call_views(calls@));
                assert((before + used + rec).push(e@) =~= before + (used + rec + seq![e@]));
            }
            events.push(e);
        } else {
            let finish_reason = if same(reason, "tool_calls") {
                FinishReason::ToolUse
            } else if same(reason, "length") {
                FinishReason::MaxTokens
            } else {
                FinishReason::Stop
            };
            let done = StreamEvent::Done { finish_reason };
            if self.flushed < self.content.len() {
                let delta = text_between(&self.content, self.flushed, self.content.len());
                self.flushed = self.content.len();
                let e = StreamEvent::TextDelta { delta };
                proof {
                    lemma_event_views_push(events@, e);
                    lemma_event_views_push(events@.push(e), done);
                    assert((before + used).push(e@).push(done@) =~= before + (used + seq![e@, done@]));
                }
                events.push(e);
                events.push(done);
            } else {
                proof {
                    lemma_event_views_push(events@, done);
                    assert((before + used).push(done@) =~= before + (used + seq![done@]));
                }
                events.push(done);
            }
        }
    }

    fn choice_arrives(&mut self, data: &Json, choice: &Json, events: &mut Vec<StreamEvent>)
        requires
            old(self).wf(),
        ensures
            final(self).wf(),
            final(self).tool_names == old(self).tool_names,
            (final(self)@, event_views(final(events)@)) == ({
                let (s, e) = on_choice(old(self)@, data@, choice@, old(self).names());
                (s, event_views(old(events)@) + e)
            }),
    {
        let ghost before = event_views(events@);
        let delta = choice.at_key("delta");
        let ghost none = Seq::<StreamEventV>::empty();
        let ghost mut e1 = none;
        let ghost mut e2 = none;
        let ghost mut e3 = none;
        proof {
            assert(before + none =~= before);
        }
        if let Some(t) = delta.at_key("content").as_str() {
            proof {
                e1 = on_text(self@, t@).1;
            }
            self.text_arrives(t, events);
        }
        proof {
            assert(event_views(events@) =~= before + e1);
        }
        if let Some(calls) = delta.at_key("tool_calls").as_array() {
            self.structured = true;
            Self::calls_arrive(calls, events);
            proof {
                e2 = call_events(json_views(calls@));
            }
        }
        proof {
            assert(event_views(events@) =~= before + e1 + e2);
        }
        if let Some(reason) = choice.at_key("finish_reason").as_str() {
            proof {
                e3 = on_finish(self@, data@, reason@, self.names()).1;
            }
            self.reply_ends(data, reason, events);
        }
        proof {
            assert(event_views(events@) =~= before + (e1 + e2 + e3));
        }
    }

    fn chunk_arrives(&mut self, data: &Json, events: &mut Vec<StreamEvent>)
        requires
            old(self).wf(),
        ensures
            final(self).wf(),
            final(self).tool_names == old(self).tool_names,
            (final(self)@, event_views(final(events)@)) == ({
                let (s, e) = on_chunk(old(self)@, data@, old(self).names());
                (s, event_views(old(events)@) + e)
            }),
    {
        let ghost before = event_views(events@);
        proof {
            assert(before + Seq::<StreamEventV>::empty() =~= before);
        }
        if let Some(choices) = data.at_key("choices").as_array() {
            let ghost st0 = self@;
            let ghost names = self.names();
            let ghost all = json_views(choices@);
            let ghost kept = self.tool_names;
            let mut i: usize = 0;
            proof {
                lemma_views(choices@);
            }
            while i < choices.len()
                invariant
                    i <= choices@.len(),
                    self.wf(),
                    self.tool_names == kept,
                    names == self.names(),
                    all == json_views(choices@),
                    all.len() == choices@.len(),
                    forall|k: int| 0 <= k < choices@.len() ==> #[trigger] json_views(choices@)[k] == choices@[k]@,
                    self@ == on_choices(st0, data@, all.take(i as int), names).0,
                    event_views(events@) == before + on_choices(st0, data@, all.take(i as int), names).1,
                decreases choices@.len() - i,
            {
                proof {
                    assert(all.take(i + 1).drop_last() =~= all.take(i as int));
                    assert(all.take(i + 1).last() == choices@[i as int]@);
                }
                let ghost e1 = on_choices(st0, data@, all.take(i as int), names).1;
                let ghost e2 = on_choice(self@, data@, choices@[i as int]@, names).1;
                self.choice_arrives(data, &choices[i], events);
                proof {
                    assert(before + e1 + e2 =~= before + (e1 + e2));
                }
                i += 1;
            }
            proof {
                assert(all.take(i as int) =~= all);
            }
        }
    }

    /// Reads a piece of the body and says which events it brings.
    pub fn read_piece(&mut self, piece: &str) -> (r: Vec<StreamEvent>)
        requires
            old(self).wf(),
        ensures
            final(self).wf(),
            final(self).names() == old(self).names(),
            (final(self)@, event_views(r@)) == on_piece(old(self)@, piece@, old(self).names()),
    {
        let mut events: Vec<StreamEvent> = Vec::new();
        append_chars(&mut self.buffer, piece);
        let ghost st0 = self@;
        let ghost names = self.names();
        let ghost kept = self.tool_names;
        proof {
            assert(event_views(events@) =~= Seq::<StreamEventV>::empty());
            assert(event_views(events@) + drain(st0, names).1 =~= drain(st0, names).1);
        }
        loop
            invariant
                self.wf(),
                self.tool_names == kept,
                names == self.names(),
                names == old(self).names(),
                drain(st0, names) == on_piece(old(self)@, piece@, old(self).names()),
                drain(self@, names).0 == drain(st0, names).0,
                event_views(events@) + drain(self@, names).1 == drain(st0, names).1,
            decreases self.buffer@.len(),
        {
            let ghost st = self@;
            let ghost before = event_views(events@);
            let k: usize = seek_char(&self.buffer, '\n', 0);
            if k == self.buffer.len() {
                proof {
                    assert(drain(st, names).1 =~= Seq::<StreamEventV>::empty());
                    assert(event_views(events@) =~= drain(st0, names).1);
                }
                return events;
            }
            let line = read_line(&self.buffer, k);
            let rest = chars_between(&self.buffer, k + 1, self.buffer.len());
            self.buffer = rest;
            match line {
                Line::End => {
                    proof {
                        assert(drain(st, names).1 =~= Seq::<StreamEventV>::empty());
                        assert(event_views(events@) =~= drain(st0, names).1);
                    }
                    return events;
                },
                Line::Skip => {},
                Line::Chunk(data) => {
                    let ghost s0 = self@;
                    self.chunk_arrives(&data, &mut events);
                    proof {
                        let e1 = on_chunk(s0, data@, names).1;
                        lemma_chunk_keeps_buffer(s0, data@, names);
                        assert(before + (e1 + drain(self@, names).1) =~= before + e1 + drain(self@, names).1);
                    }
                },
            }
        }
    }

    /// Reads a piece of the body, as bytes.
    pub fn read_bytes(&mut self, bytes: &[u8]) -> (r: Vec<StreamEvent>)
        requires
            old(self).wf(),
        ensures
            final(self).wf(),
            final(self).names() == old(self).names(),
            (final(self)@, event_views(r@)) == on_piece(old(self)@, lossy(bytes@), old(self).names()),
    {
        let piece = lossy_text(bytes);
        self.read_piece(piece.as_str())
    }
}

proof fn lemma_choices_keep_buffer(st: StreamV, data: JsonV, choices: Seq<JsonV>, names: Seq<Seq<char>>)
    ensures
        on_choices(st, data, choices, names).0.buffer == st.buffer,
    decreases choices.len(),
{
    if choices.len() > 0 {
        lemma_choices_keep_buffer(st, data, choices.drop_last(), names);
    }
}

proof fn lemma_chunk_keeps_buffer(st: StreamV, data: JsonV, names: Seq<Seq<char>>)
    ensures
        on_chunk(st, data, names).0.buffer == st.buffer,
{
    if let Some(choices) = data.at_key("choices"@).as_array() {
        lemma_choices_keep_buffer(st, data, choices, names);
    }
}

// ---------------------------------------------------------------------------
// No markup is shown
// ---------------------------------------------------------------------------

/// Nothing shown belongs to a marker, whatever text may still arrive.
pub open spec fn shown_clean(st: StreamV) -> bool {
    &&& 0 <= st.flushed <= st.content.len()
    &&& forall|p: int, more: Seq<char>|
        0 <= p < st.flushed ==> !#[trigger] at(st.content + more, "<function="@, p)
    &&& forall|p: int, more: Seq<char>|
        0 <= p < st.flushed ==> !#[trigger] at(st.content + more, "<tool_call>"@, p)
}

proof fn lemma_ascii_bytes(s: Seq<char>)
    requires
        forall|i: int| 0 <= i < s.len() ==> utf8_width(#[trigger] s[i]) == 1,
    ensures
        utf8_bytes(s) == s.len(),
    decreases s.len(),
{
    if s.len() > 0 {
        lemma_ascii_bytes(s.drop_last());
    }
}

/// A marker that begins before the flush point would have to be complete.
proof fn lemma_flush_before_marker(content: Seq<char>, more: Seq<char>, flushed: int, mark: Seq<char>, p: int)
    requires
        0 <= flushed <= p < flush_point(content, 16),
        mark.len() <= 16,
        forall|i: int| 0 <= i < mark.len() ==> utf8_width(#[trigger] mark[i]) == 1,
        !contains(content.subrange(flushed, content.len() as int), mark),
    ensures
        !at(content + more, mark, p),
{
    let end = flush_point(content, 16);
    law_flush_holds_back(content, 16);
    if at(content + more, mark, p) {
        let n = content.len() as int;
        if p + mark.len() <= n {
            let tail = content.subrange(flushed, n);
            assert(tail.subrange(p - flushed, p - flushed + mark.len()) =~= (content + more).subrange(
                p,
                p + mark.len(),
            ));
            assert(at(tail, mark, p - flushed));
        } else {
            let held = content.skip(end);
            assert forall|i: int| 0 <= i < held.len() implies utf8_width(#[trigger] held[i]) == 1 by {
                let k = end + i - p;
                assert(held[i] == (content + more)[end + i]);
                assert((content + more).subrange(p, p + mark.len())[k] == mark[k]);
            }
            lemma_ascii_bytes(held);
            assert(held.len() == n - end);
        }
    }
}

/// No part of a tool call's marker is ever shown while a reply streams, however
/// the marker is split over the pieces.
pub proof fn law_markers_are_never_shown(st: StreamV, delta: Seq<char>)
    requires
        shown_clean(st),
    ensures
        shown_clean(on_text(st, delta).0),
{
    reveal_strlit("<function=");
    reveal_strlit("<tool_call>");
    let after = on_text(st, delta).0;
    if delta.len() > 0 {
        let content = st.content + delta;
        law_flush_holds_back(content, 16);
        assert forall|p: int, more: Seq<char>| 0 <= p < after.flushed implies !#[trigger] at(
            after.content + more,
            "<function="@,
            p,
        ) by {
            if p < st.flushed {
                assert(content + more =~= st.content + (delta + more));
                assert(!at(st.content + (delta + more), "<function="@, p));
            } else {
                lemma_flush_before_marker(content, more, st.flushed, "<function="@, p);
            }
        }
        assert forall|p: int, more: Seq<char>| 0 <= p < after.flushed implies !#[trigger] at(
            after.content + more,
            "<tool_call>"@,
            p,
        ) by {
            if p < st.flushed {
                assert(content + more =~= st.content + (delta + more));
                assert(!at(st.content + (delta + more), "<tool_call>"@, p));
            } else {
                lemma_flush_before_marker(content, more, st.flushed, "<tool_call>"@, p);
            }
        }
    }
}

} // verus!
