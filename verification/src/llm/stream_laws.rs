//! What a streamed reply is made of, put together again.
//!
//! Each law here says of a whole stream, or of a whole chunk, that the texts and the
//! arguments which its events carry are those that arrived, in order.
use vstd::prelude::*;

use crate::json::{JsonV, parsed, rendered};
use crate::llm::provider::{FinishReason, StreamEventV};
use crate::llm::{anthropic, gemini, mistral, ollama_stream, openai};
use crate::text::{contains, is_space, lemma_next_char, next_char};
use crate::text_laws::{free_of, law_trimming_leaves_the_text};

verus! {

// ---------------------------------------------------------------------------
// Events put together
// ---------------------------------------------------------------------------

/// The texts of the events, put together.
pub open spec fn shown(events: Seq<StreamEventV>) -> Seq<char>
    decreases events.len(),
{
    if events.len() == 0 {
        Seq::empty()
    } else {
        shown(events.drop_last()) + match events.last() {
            StreamEventV::TextDelta(t) => t,
            _ => Seq::empty(),
        }
    }
}

/// The reasoning in the events, put together.
pub open spec fn thought(events: Seq<StreamEventV>) -> Seq<char>
    decreases events.len(),
{
    if events.len() == 0 {
        Seq::empty()
    } else {
        thought(events.drop_last()) + match events.last() {
            StreamEventV::ReasoningDelta(t) => t,
            _ => Seq::empty(),
        }
    }
}

/// The arguments in the events of the call with an id and an index, put together.
pub open spec fn arguments(events: Seq<StreamEventV>, index: Option<usize>, id: Option<Seq<char>>) -> Seq<char>
    decreases events.len(),
{
    if events.len() == 0 {
        Seq::empty()
    } else {
        arguments(events.drop_last(), index, id) + match events.last() {
            StreamEventV::ToolCallDelta(i, d, _, args) => if i == index && (id is Some ==> id == Some(d)) {
                args
            } else {
                Seq::empty()
            },
            _ => Seq::empty(),
        }
    }
}

proof fn lemma_sums(a: Seq<StreamEventV>, b: Seq<StreamEventV>, index: Option<usize>, id: Option<Seq<char>>)
    ensures
        shown(a + b) == shown(a) + shown(b),
        thought(a + b) == thought(a) + thought(b),
        arguments(a + b, index, id) == arguments(a, index, id) + arguments(b, index, id),
    decreases b.len(),
{
    if b.len() == 0 {
        assert(a + b =~= a);
        assert(shown(a) + shown(b) =~= shown(a));
        assert(thought(a) + thought(b) =~= thought(a));
        assert(arguments(a, index, id) + arguments(b, index, id) =~= arguments(a, index, id));
    } else {
        lemma_sums(a, b.drop_last(), index, id);
        assert((a + b).drop_last() =~= a + b.drop_last());
        assert(shown(a + b) =~= shown(a) + shown(b));
        assert(thought(a + b) =~= thought(a) + thought(b));
        assert(arguments(a + b, index, id) =~= arguments(a, index, id) + arguments(b, index, id));
    }
}

proof fn lemma_one(e: StreamEventV, index: Option<usize>, id: Option<Seq<char>>)
    ensures
        shown(seq![e]) == match e {
            StreamEventV::TextDelta(t) => t,
            _ => Seq::empty(),
        },
        thought(seq![e]) == match e {
            StreamEventV::ReasoningDelta(t) => t,
            _ => Seq::empty(),
        },
        arguments(seq![e], index, id) == match e {
            StreamEventV::ToolCallDelta(i, d, _, args) => if i == index && (id is Some ==> id == Some(d)) {
                args
            } else {
                Seq::empty()
            },
            _ => Seq::empty(),
        },
{
    let s = seq![e];
    assert(s.drop_last() =~= Seq::<StreamEventV>::empty());
    assert(shown(s.drop_last()).len() == 0);
    assert(thought(s.drop_last()).len() == 0);
    assert(arguments(s.drop_last(), index, id).len() == 0);
    assert(shown(s) =~= match e {
        StreamEventV::TextDelta(t) => t,
        _ => Seq::empty(),
    });
    assert(thought(s) =~= match e {
        StreamEventV::ReasoningDelta(t) => t,
        _ => Seq::empty(),
    });
    assert(arguments(s, index, id) =~= match e {
        StreamEventV::ToolCallDelta(i, d, _, args) => if i == index && (id is Some ==> id == Some(d)) {
            args
        } else {
            Seq::empty()
        },
        _ => Seq::empty(),
    });
}

// ---------------------------------------------------------------------------
// Anthropic
// ---------------------------------------------------------------------------

/// The id of the call whose block began last, or `first`.
pub open spec fn open_call(data: Seq<JsonV>, first: Seq<char>) -> Seq<char>
    decreases data.len(),
{
    if data.len() == 0 {
        first
    } else if data.last().at_key("type"@) == JsonV::Text("content_block_start"@) && data.last().at_key(
        "content_block"@,
    ).at_key("type"@) == JsonV::Text("tool_use"@) {
        data.last().at_key("content_block"@).at_key("id"@).text_or(Seq::empty())
    } else {
        open_call(data.drop_last(), first)
    }
}

/// The member `key` of the deltas of a kind that arrived, put together; with an id,
/// only of those that arrived in the block of that call.
pub open spec fn arrived(
    data: Seq<JsonV>,
    kind: Seq<char>,
    key: Seq<char>,
    first: Seq<char>,
    id: Option<Seq<char>>,
) -> Seq<char>
    decreases data.len(),
{
    if data.len() == 0 {
        Seq::empty()
    } else {
        let delta = data.last().at_key("delta"@);
        arrived(data.drop_last(), kind, key, first, id) + if data.last().at_key("type"@) == JsonV::Text(
            "content_block_delta"@,
        ) && delta.at_key("type"@) == JsonV::Text(kind) && (id is Some ==> id == Some(
            open_call(data.drop_last(), first),
        )) {
            delta.at_key(key).text_or(Seq::empty())
        } else {
            Seq::empty()
        }
    }
}

/// What a stream of events gives, from the call `first` on: the call that is open at
/// its end, and the events. A failure that is reported gives nothing.
pub open spec fn anthropic_stream(data: Seq<JsonV>, first: Seq<char>) -> (Seq<char>, Seq<StreamEventV>)
    decreases data.len(),
{
    if data.len() == 0 {
        (first, Seq::empty())
    } else {
        let (call, events) = anthropic_stream(data.drop_last(), first);
        match anthropic::on_event(call, data.last()) {
            Ok(s) => (s.tool_id, events + s.events),
            Err(_) => (call, events),
        }
    }
}

/// Over any stream the texts, the reasoning, and the arguments of each tool call
/// that the events carry are those that arrived, in order, and nothing else.
pub proof fn law_anthropic_streams_are_whole(data: Seq<JsonV>, first: Seq<char>, id: Seq<char>)
    ensures
        ({
            let (call, events) = anthropic_stream(data, first);
            &&& call == open_call(data, first)
            &&& shown(events) == arrived(data, "text_delta"@, "text"@, first, None)
            &&& thought(events) == arrived(data, "thinking_delta"@, "thinking"@, first, None)
            &&& arguments(events, None, Some(id)) == arrived(
                data,
                "input_json_delta"@,
                "partial_json"@,
                first,
                Some(id),
            )
        }),
    decreases data.len(),
{
    lemma_anthropic_names();
    if data.len() > 0 {
        let rest = data.drop_last();
        law_anthropic_streams_are_whole(rest, first, id);
        let (call, events) = anthropic_stream(rest, first);
        let d = data.last();
        if let Ok(s) = anthropic::on_event(call, d) {
            lemma_sums(events, s.events, None, Some(id));
            if s.events.len() > 0 {
                lemma_one(s.events[0], None, Some(id));
                assert(s.events.len() == 1 ==> s.events =~= seq![s.events[0]]);
                if s.events.len() == 2 {
                    lemma_one(s.events[1], None, Some(id));
                    lemma_sums(seq![s.events[0]], seq![s.events[1]], None, Some(id));
                    assert(s.events =~= seq![s.events[0]] + seq![s.events[1]]);
                }
            }
        }
        let (_, all) = anthropic_stream(data, first);
        assert(shown(all) =~= arrived(data, "text_delta"@, "text"@, first, None));
        assert(thought(all) =~= arrived(data, "thinking_delta"@, "thinking"@, first, None));
        assert(arguments(all, None, Some(id)) =~= arrived(
            data,
            "input_json_delta"@,
            "partial_json"@,
            first,
            Some(id),
        ));
    }
}

proof fn lemma_anthropic_names()
    ensures
        "content_block_start"@ != "content_block_delta"@,
        "content_block_start"@ != "message_delta"@,
        "content_block_start"@ != "message_start"@,
        "content_block_start"@ != "message_stop"@,
        "content_block_start"@ != "error"@,
        "content_block_delta"@ != "message_delta"@,
        "content_block_delta"@ != "message_start"@,
        "content_block_delta"@ != "message_stop"@,
        "content_block_delta"@ != "error"@,
        "message_delta"@ != "message_start"@,
        "message_delta"@ != "message_stop"@,
        "message_delta"@ != "error"@,
        "message_start"@ != "message_stop"@,
        "message_start"@ != "error"@,
        "message_stop"@ != "error"@,
        "text_delta"@ != "thinking_delta"@,
        "text_delta"@ != "input_json_delta"@,
        "thinking_delta"@ != "input_json_delta"@,
        ""@ == Seq::<char>::empty(),
        "content_block_start"@.len() > 0,
        "content_block_delta"@.len() > 0,
        "text_delta"@.len() > 0,
        "thinking_delta"@.len() > 0,
        "input_json_delta"@.len() > 0,
{
    reveal_strlit("content_block_start");
    reveal_strlit("content_block_delta");
    reveal_strlit("message_delta");
    reveal_strlit("message_start");
    reveal_strlit("message_stop");
    reveal_strlit("error");
    reveal_strlit("text_delta");
    reveal_strlit("thinking_delta");
    reveal_strlit("input_json_delta");
    reveal_strlit("");
    assert("content_block_start"@[14] != "content_block_delta"@[14]);
    assert("message_delta"@[8] != "message_start"@[8]);
    assert("message_delta"@.len() != "message_stop"@.len());
    assert("message_start"@.len() != "message_stop"@.len());
    assert("error"@.len() == 5);
    assert("content_block_start"@.len() == 19);
    assert("content_block_delta"@.len() == 19);
    assert(""@ =~= Seq::<char>::empty());
}

/// The start of a tool call names the call and its tool; the end of the reply and the
/// counts are told as they arrive.
pub proof fn law_anthropic_calls_are_announced(call: Seq<char>, data: JsonV)
    ensures
        data.at_key("type"@) == JsonV::Text("content_block_start"@) && data.at_key("content_block"@).at_key("type"@)
            == JsonV::Text("tool_use"@) ==> {
            let r = anthropic::on_event(call, data);
            let block = data.at_key("content_block"@);
            &&& r is Ok
            &&& !r->Ok_0.over
            &&& r->Ok_0.events.len() == 1
            &&& r->Ok_0.events[0] is ToolCallDelta
            &&& block.at_key("id"@) is Text ==> r->Ok_0.events[0]->ToolCallDelta_1 == block.at_key("id"@)->Text_0
            &&& block.at_key("name"@) is Text ==> r->Ok_0.events[0]->ToolCallDelta_2 == Some(
                block.at_key("name"@)->Text_0,
            )
        },
        data.at_key("type"@) == JsonV::Text("message_start"@) && data.at_key("message"@).at_key("usage"@) is Object ==> {
            let r = anthropic::on_event(call, data);
            let used = data.at_key("message"@).at_key("usage"@);
            &&& r is Ok
            &&& r->Ok_0.events.len() == 1
            &&& r->Ok_0.events[0] is Usage
            &&& r->Ok_0.events[0]->Usage_0.input_tokens == used.at_key("input_tokens"@).count()
            &&& r->Ok_0.events[0]->Usage_0.output_tokens == 0
        },
        data.at_key("type"@) == JsonV::Text("message_delta"@) && data.at_key("delta"@).at_key("stop_reason"@) is Text ==> {
            let r = anthropic::on_event(call, data);
            &&& r is Ok
            &&& r->Ok_0.events.len() > 0
            &&& r->Ok_0.events.last() is Done
            &&& data.field("usage"@) is Some ==> {
                &&& r->Ok_0.events.len() == 2
                &&& r->Ok_0.events[0] is Usage
                &&& r->Ok_0.events[0]->Usage_0.input_tokens == 0
                &&& r->Ok_0.events[0]->Usage_0.output_tokens == data.at_key("usage"@).at_key("output_tokens"@).count()
            }
        },
        data.at_key("type"@) == JsonV::Text("message_stop"@) ==> anthropic::on_event(call, data) is Ok
            && anthropic::on_event(call, data)->Ok_0.over,
        data.at_key("type"@) == JsonV::Text("error"@) ==> {
            let r = anthropic::on_event(call, data);
            &&& r is Err
            &&& data.at_key("error"@).at_key("message"@) is Text ==> r->Err_0 == data.at_key("error"@).at_key(
                "message"@,
            )->Text_0
        },
{
    lemma_anthropic_names();
}

// ---------------------------------------------------------------------------
// OpenAI
// ---------------------------------------------------------------------------

/// The texts of the choices' deltas, put together.
pub open spec fn choice_texts(choices: Seq<JsonV>) -> Seq<char>
    decreases choices.len(),
{
    if choices.len() == 0 {
        Seq::empty()
    } else {
        choice_texts(choices.drop_last()) + choices.last().at_key("delta"@).at_key("content"@).text_or(Seq::empty())
    }
}

/// The arguments of the pieces with an index among tool calls, put together.
pub open spec fn piece_arguments(calls: Seq<JsonV>, index: usize) -> Seq<char>
    decreases calls.len(),
{
    if calls.len() == 0 {
        Seq::empty()
    } else {
        piece_arguments(calls.drop_last(), index) + if calls.last().at_key("index"@).count() == index {
            calls.last().at_key("function"@).at_key("arguments"@).text_or(Seq::empty())
        } else {
            Seq::empty()
        }
    }
}

/// The arguments of the pieces with an index in all choices, put together.
pub open spec fn choice_arguments(choices: Seq<JsonV>, index: usize) -> Seq<char>
    decreases choices.len(),
{
    if choices.len() == 0 {
        Seq::empty()
    } else {
        choice_arguments(choices.drop_last(), index) + match choices.last().at_key("delta"@).at_key("tool_calls"@) {
            JsonV::Array(calls) => piece_arguments(calls, index),
            _ => Seq::empty(),
        }
    }
}

proof fn lemma_openai_calls(calls: Seq<JsonV>, index: usize)
    ensures
        shown(openai::call_events(calls)) == Seq::<char>::empty(),
        arguments(openai::call_events(calls), Some(index), None) == piece_arguments(calls, index),
    decreases calls.len(),
{
    reveal_strlit("");
    assert(""@ =~= Seq::<char>::empty());
    let all = openai::call_events(calls);
    if calls.len() > 0 {
        lemma_openai_calls(calls.drop_last(), index);
        assert(all.drop_last() =~= openai::call_events(calls.drop_last()));
        assert(all.last() == openai::call_event(calls.last()));
        assert(shown(all) =~= Seq::<char>::empty());
    }
}

proof fn lemma_openai_choices(choices: Seq<JsonV>, index: usize)
    ensures
        shown(openai::choices_events(choices)) == choice_texts(choices),
        arguments(openai::choices_events(choices), Some(index), None) == choice_arguments(choices, index),
    decreases choices.len(),
{
    if choices.len() > 0 {
        let rest = choices.drop_last();
        let c = choices.last();
        lemma_openai_choices(rest, index);
        lemma_sums(openai::choices_events(rest), openai::choice_events(c), Some(index), None);
        let delta = c.at_key("delta"@);
        let text = match delta.at_key("content"@).as_text() {
            Some(t) => seq![StreamEventV::TextDelta(t)],
            None => Seq::empty(),
        };
        let calls = match delta.at_key("tool_calls"@).as_array() {
            Some(calls) => openai::call_events(calls),
            None => Seq::empty(),
        };
        let end = match c.at_key("finish_reason"@).as_text() {
            Some(reason) => seq![StreamEventV::Done(openai::finish_of(reason))],
            None => Seq::empty(),
        };
        assert(openai::choice_events(c) =~= text + calls + end);
        lemma_sums(text, calls, Some(index), None);
        lemma_sums(text + calls, end, Some(index), None);
        if text.len() > 0 {
            lemma_one(text[0], Some(index), None);
        }
        if let Some(calls) = delta.at_key("tool_calls"@).as_array() {
            lemma_openai_calls(calls, index);
        }
        if end.len() > 0 {
            lemma_one(end[0], Some(index), None);
        }
        assert(shown(openai::choices_events(choices)) =~= choice_texts(choices));
        assert(arguments(openai::choices_events(choices), Some(index), None) =~= choice_arguments(choices, index));
    }
}

/// The events of a chunk carry the texts of all its choices, and for each index the
/// arguments of the pieces with it, in order; the counts are among them where the
/// chunk has some.
pub proof fn law_openai_chunks_are_whole(data: JsonV, index: usize)
    ensures
        ({
            let events = openai::chunk_events(data);
            let choices = match data.at_key("choices"@) {
                JsonV::Array(a) => a,
                _ => Seq::empty(),
            };
            &&& shown(events) == choice_texts(choices)
            &&& arguments(events, Some(index), None) == choice_arguments(choices, index)
            &&& !(data.at_key("usage"@) is Null) ==> exists|i: int|
                0 <= i < events.len() && #[trigger] events[i] is Usage && events[i]->Usage_0.input_tokens
                    == data.at_key("usage"@).at_key("prompt_tokens"@).count() && events[i]->Usage_0.output_tokens
                    == data.at_key("usage"@).at_key("completion_tokens"@).count()
        }),
{
    let choices = match data.at_key("choices"@) {
        JsonV::Array(a) => a,
        _ => Seq::empty(),
    };
    let e1 = openai::choices_events(choices);
    lemma_openai_choices(choices, index);
    assert(Seq::<JsonV>::empty().len() == 0);
    if data.at_key("usage"@) is Null {
    } else {
        let at = openai::first_end(e1, 0);
        lemma_first_end(e1, 0);
        let u = StreamEventV::Usage(openai::usage_value(data.at_key("usage"@)));
        let a = e1.subrange(0, at);
        let b = e1.subrange(at, e1.len() as int);
        assert(e1.insert(at, u) =~= a + seq![u] + b);
        assert(e1 =~= a + b);
        lemma_one(u, Some(index), None);
        lemma_sums(a, b, Some(index), None);
        lemma_sums(a, seq![u], Some(index), None);
        lemma_sums(a + seq![u], b, Some(index), None);
        assert(shown(a + seq![u] + b) =~= shown(e1));
        assert(arguments(a + seq![u] + b, Some(index), None) =~= arguments(e1, Some(index), None));
        let events = openai::chunk_events(data);
        assert(openai::choices_events(Seq::<JsonV>::empty()) =~= Seq::<StreamEventV>::empty());
        assert(events == e1.insert(at, u));
        assert(events[at] == u);
    }
}

proof fn lemma_first_end(events: Seq<StreamEventV>, i: int)
    requires
        0 <= i <= events.len(),
    ensures
        i <= openai::first_end(events, i) <= events.len(),
    decreases events.len() - i,
{
    if i < events.len() && !(events[i] is Done) {
        lemma_first_end(events, i + 1);
    }
}

/// A piece of a tool call carries its index, its id and, where it has one, its name.
pub proof fn law_openai_pieces_are_named(piece: JsonV)
    ensures
        openai::call_event(piece) is ToolCallDelta,
        openai::call_event(piece)->ToolCallDelta_0 == Some(piece.at_key("index"@).count()),
        piece.at_key("id"@) is Text ==> openai::call_event(piece)->ToolCallDelta_1 == piece.at_key("id"@)->Text_0,
        piece.at_key("function"@).at_key("name"@) is Text ==> openai::call_event(piece)->ToolCallDelta_2 == Some(
            piece.at_key("function"@).at_key("name"@)->Text_0,
        ),
        !(piece.at_key("function"@).at_key("name"@) is Text) ==> openai::call_event(piece)->ToolCallDelta_2 is None,
{
}

// ---------------------------------------------------------------------------
// Mistral
// ---------------------------------------------------------------------------

/// The events of a chunk carry the text of its first choice, its counts, and its end
/// where it has one, in this order.
pub proof fn law_mistral_chunks_are_whole(data: JsonV)
    ensures
        ({
            let events = mistral::chunk_events(data);
            let choice = data.at_key("choices"@).at_index(0);
            let ends = choice.at_key("finish_reason"@) is Text;
            let counts = !(data.at_key("usage"@) is Null);
            let n = events.len();
            &&& shown(events) == choice.at_key("delta"@).at_key("content"@).text_or(Seq::empty())
            &&& ends ==> n > 0 && events[n - 1] is Done
            &&& !ends ==> forall|i: int| 0 <= i < n ==> !(#[trigger] events[i] is Done)
            &&& counts ==> {
                let at = if ends {
                    n - 2
                } else {
                    n - 1
                };
                &&& 0 <= at
                &&& events[at] is Usage
                &&& events[at]->Usage_0.input_tokens == data.at_key("usage"@).at_key("prompt_tokens"@).count()
                &&& events[at]->Usage_0.output_tokens == data.at_key("usage"@).at_key("completion_tokens"@).count()
            }
        }),
{
    reveal_strlit("");
    assert(""@ =~= Seq::<char>::empty());
    let choice = data.at_key("choices"@).at_index(0);
    let text = choice.at_key("delta"@).at_key("content"@).text_or(""@);
    let e1 = if text.len() > 0 {
        seq![StreamEventV::TextDelta(text)]
    } else {
        Seq::empty()
    };
    let u = StreamEventV::Usage(mistral::usage_value(data.at_key("usage"@)));
    let e2 = if data.at_key("usage"@) is Null {
        Seq::empty()
    } else {
        seq![u]
    };
    let e3 = match choice.at_key("finish_reason"@).as_text() {
        Some(reason) => seq![StreamEventV::Done(mistral::finish_of(reason))],
        None => Seq::empty(),
    };
    assert(mistral::chunk_events(data) =~= e1 + e2 + e3);
    lemma_sums(e1, e2, None, None);
    lemma_sums(e1 + e2, e3, None, None);
    if e1.len() > 0 {
        lemma_one(e1[0], None, None);
    } else {
        assert(text =~= Seq::<char>::empty());
    }
    if e2.len() > 0 {
        lemma_one(e2[0], None, None);
    }
    if e3.len() > 0 {
        lemma_one(e3[0], None, None);
    }
    assert(shown(e1 + e2 + e3) =~= text);
}

// ---------------------------------------------------------------------------
// Gemini
// ---------------------------------------------------------------------------

/// The texts of the parts, put together.
pub open spec fn part_texts(parts: Seq<JsonV>) -> Seq<char>
    decreases parts.len(),
{
    if parts.len() == 0 {
        Seq::empty()
    } else {
        part_texts(parts.drop_last()) + parts.last().at_key("text"@).text_or(Seq::empty())
    }
}

proof fn lemma_gemini_parts(parts: Seq<JsonV>)
    ensures
        shown(gemini::parts_events(parts)) == part_texts(parts),
        gemini::parts_text(parts) == part_texts(parts),
        forall|i: int|
            0 <= i < gemini::parts_events(parts).len() ==> {
                let e = #[trigger] gemini::parts_events(parts)[i];
                e is TextDelta || e is ToolCallDelta
            },
    decreases parts.len(),
{
    reveal_strlit("");
    assert(""@ =~= Seq::<char>::empty());
    if parts.len() > 0 {
        let rest = parts.drop_last();
        let p = parts.last();
        lemma_gemini_parts(rest);
        let text = p.at_key("text"@).text_or(""@);
        let spoken = if text.len() > 0 {
            seq![StreamEventV::TextDelta(text)]
        } else {
            Seq::empty()
        };
        let call = match gemini::part_call(p) {
            Some(fc) => seq![
                StreamEventV::ToolCallDelta(
                    None,
                    fc.at_key("id"@).text_or(""@),
                    Some(fc.at_key("name"@).text_or(""@)),
                    rendered(fc.at_key("args"@)),
                ),
            ],
            None => Seq::empty(),
        };
        assert(gemini::part_events(p) =~= spoken + call);
        lemma_sums(spoken, call, None, None);
        lemma_sums(gemini::parts_events(rest), gemini::part_events(p), None, None);
        if spoken.len() > 0 {
            lemma_one(spoken[0], None, None);
        } else {
            assert(text =~= Seq::<char>::empty());
        }
        if call.len() > 0 {
            lemma_one(call[0], None, None);
        }
        assert(shown(gemini::parts_events(parts)) =~= part_texts(parts));
    }
}

/// The events of a chunk, and a complete reply, carry the texts of its parts, in
/// order; the counts come before the end.
pub proof fn law_gemini_chunks_are_whole(data: JsonV, model: Seq<char>, parts: Seq<JsonV>)
    requires
        data.at_key("candidates"@).at_index(0).at_key("content"@).at_key("parts"@) == JsonV::Array(parts),
    ensures
        ({
            let events = gemini::chunk_events(data);
            let ends = data.at_key("candidates"@).at_index(0).at_key("finishReason"@) is Text;
            let n = events.len();
            &&& shown(events) == part_texts(parts)
            &&& gemini::reply_value(data, model).content == part_texts(parts)
            &&& ends ==> n > 0 && events[n - 1] is Done
            &&& data.field("usageMetadata"@) is Some ==> {
                let at = if ends {
                    n - 2
                } else {
                    n - 1
                };
                &&& 0 <= at
                &&& events[at] is Usage
                &&& events[at]->Usage_0.input_tokens == data.at_key("usageMetadata"@).at_key("promptTokenCount"@).count()
                &&& events[at]->Usage_0.output_tokens == data.at_key("usageMetadata"@).at_key(
                    "candidatesTokenCount"@,
                ).count()
                &&& gemini::reply_value(data, model).usage == events[at]->Usage_0
            }
        }),
{
    lemma_gemini_parts(parts);
    let e1 = gemini::parts_events(parts);
    let e2 = match data.field("usageMetadata"@) {
        Some(u) => seq![StreamEventV::Usage(gemini::usage_value(u))],
        None => Seq::empty(),
    };
    let e3 = match data.at_key("candidates"@).at_index(0).at_key("finishReason"@).as_text() {
        Some(reason) => seq![StreamEventV::Done(gemini::finish_of(reason))],
        None => Seq::empty(),
    };
    assert(gemini::chunk_events(data) =~= e1 + e2 + e3);
    lemma_sums(e1, e2, None, None);
    lemma_sums(e1 + e2, e3, None, None);
    if e2.len() > 0 {
        lemma_one(e2[0], None, None);
    }
    if e3.len() > 0 {
        lemma_one(e3[0], None, None);
    }
    assert(shown(e1 + e2 + e3) =~= shown(e1));
}

/// A part with a named function call gives that call: its name, its id, and its
/// arguments as JSON, in a stream as in a complete reply.
pub proof fn law_gemini_calls_are_whole(parts: Seq<JsonV>, part: JsonV, call: JsonV, name: Seq<char>)
    requires
        part.field("functionCall"@) == Some(call),
        call.at_key("name"@) == JsonV::Text(name),
        name.len() > 0,
    ensures
        ({
            let events = gemini::part_events(part);
            let n = events.len();
            &&& n > 0
            &&& events[n - 1] is ToolCallDelta
            &&& events[n - 1]->ToolCallDelta_2 == Some(name)
            &&& events[n - 1]->ToolCallDelta_3 == rendered(call.at_key("args"@))
            &&& call.at_key("id"@) is Text ==> events[n - 1]->ToolCallDelta_1 == call.at_key("id"@)->Text_0
            &&& gemini::parts_calls(parts.push(part)).drop_last() == gemini::parts_calls(parts)
            &&& gemini::parts_calls(parts.push(part)).last().name == name
            &&& gemini::parts_calls(parts.push(part)).last().arguments == call.at_key("args"@)
            &&& call.at_key("id"@) is Text ==> gemini::parts_calls(parts.push(part)).last().id == call.at_key(
                "id"@,
            )->Text_0
        }),
{
    assert(parts.push(part).drop_last() =~= parts);
    assert(gemini::parts_calls(parts.push(part)).drop_last() =~= gemini::parts_calls(parts));
}

// ---------------------------------------------------------------------------
// Ollama
// ---------------------------------------------------------------------------

/// A piece of text is added to the reply, and what the events show of it is what
/// follows the part that was shown before: nothing is lost and nothing is shown twice.
pub proof fn law_ollama_shows_the_reply_in_order(st: ollama_stream::StreamV, delta: Seq<char>)
    requires
        0 <= st.flushed <= st.content.len(),
    ensures
        ({
            let next = ollama_stream::on_text(st, delta).0;
            let events = ollama_stream::on_text(st, delta).1;
            &&& next.content == st.content + delta
            &&& st.flushed <= next.flushed <= next.content.len()
            &&& next.content.take(next.flushed) == st.content.take(st.flushed) + shown(events)
            &&& next.structured == st.structured
            &&& next.buffer == st.buffer
        }),
{
    let next = ollama_stream::on_text(st, delta).0;
    let events = ollama_stream::on_text(st, delta).1;
    ollama_stream::law_flush_holds_back(st.content + delta, 16);
    assert(delta.len() == 0 ==> st.content + delta =~= st.content);
    if events.len() > 0 {
        lemma_one(events[0], None, None);
        assert(events =~= seq![events[0]]);
        assert(next.content.take(next.flushed) =~= st.content.take(st.flushed) + shown(events));
    } else {
        assert(next.content.take(next.flushed) =~= st.content.take(st.flushed) + shown(events));
    }
}

/// At its end a reply without a tool call has been shown whole; with tool calls that
/// were written as text, the calls are given whole and the reply ends for them.
pub proof fn law_ollama_ends_whole(st: ollama_stream::StreamV, data: JsonV, reason: Seq<char>, names: Seq<Seq<char>>)
    requires
        0 <= st.flushed <= st.content.len(),
    ensures
        ({
            let next = ollama_stream::on_finish(st, data, reason, names).0;
            let events = ollama_stream::on_finish(st, data, reason, names).1;
            let calls = crate::llm::ollama::text_calls(st.content, names);
            let n = events.len();
            &&& n > 0
            &&& events[n - 1] is Done
            &&& next.content == st.content
            &&& st.structured || calls.len() == 0 ==> st.content == st.content.take(st.flushed) + shown(events)
            &&& !st.structured && calls.len() > 0 ==> {
                &&& events[n - 1]->Done_0 == FinishReason::ToolUse
                &&& n >= calls.len() + 1
                &&& shown(events).len() == 0
                &&& forall|i: int|
                    0 <= i < calls.len() ==> {
                        let e = #[trigger] events[n - 1 - calls.len() + i];
                        &&& e is ToolCallDelta
                        &&& e->ToolCallDelta_1 == calls[i].id
                        &&& e->ToolCallDelta_2 == Some(calls[i].name)
                        &&& e->ToolCallDelta_3 == rendered(calls[i].arguments)
                    }
            }
            &&& data.field("usage"@) is Some ==> {
                &&& events[0] is Usage
                &&& events[0]->Usage_0.input_tokens == data.at_key("usage"@).at_key("prompt_tokens"@).count()
                &&& events[0]->Usage_0.output_tokens == data.at_key("usage"@).at_key("completion_tokens"@).count()
            }
        }),
{
    let events = ollama_stream::on_finish(st, data, reason, names).1;
    let calls = crate::llm::ollama::text_calls(st.content, names);
    let used = ollama_stream::usage_events(data);
    assert(used.len() <= 1);
    if used.len() > 0 {
        lemma_one(used[0], None, None);
        assert(used =~= seq![used[0]]);
    }
    assert(shown(used) =~= Seq::<char>::empty());
    if !st.structured && calls.len() > 0 {
        let got = ollama_stream::recovered_events(calls);
        let done = seq![StreamEventV::Done(FinishReason::ToolUse)];
        lemma_calls_show_nothing(got);
        lemma_sums(used, got, None, None);
        lemma_sums(used + got, done, None, None);
        lemma_one(done[0], None, None);
        assert forall|i: int| 0 <= i < calls.len() implies {
            let e = #[trigger] events[events.len() - 1 - calls.len() + i];
            &&& e is ToolCallDelta
            &&& e->ToolCallDelta_1 == calls[i].id
            &&& e->ToolCallDelta_2 == Some(calls[i].name)
            &&& e->ToolCallDelta_3 == rendered(calls[i].arguments)
        } by {
            assert(events[events.len() - 1 - calls.len() + i] == got[i]);
        }
    } else {
        let done = seq![StreamEventV::Done(ollama_stream::finish_of(reason))];
        lemma_one(done[0], None, None);
        if st.flushed < st.content.len() {
            let text = StreamEventV::TextDelta(st.content.subrange(st.flushed, st.content.len() as int));
            let two = seq![text, done[0]];
            lemma_one(text, None, None);
            lemma_sums(seq![text], done, None, None);
            assert(seq![text] + done =~= two);
            lemma_sums(used, two, None, None);
        } else {
            lemma_sums(used, done, None, None);
        }
        assert(st.content =~= st.content.take(st.flushed) + shown(events));
    }
}

proof fn lemma_calls_show_nothing(events: Seq<StreamEventV>)
    requires
        forall|i: int| 0 <= i < events.len() ==> #[trigger] events[i] is ToolCallDelta,
    ensures
        shown(events).len() == 0,
    decreases events.len(),
{
    if events.len() > 0 {
        let rest = events.drop_last();
        assert forall|i: int| 0 <= i < rest.len() implies #[trigger] rest[i] is ToolCallDelta by {
            assert(rest[i] == events[i]);
        }
        lemma_calls_show_nothing(rest);
        assert(events[events.len() - 1] is ToolCallDelta);
    }
}

/// A piece of a structured tool call carries its index, id, name and arguments.
pub proof fn law_ollama_pieces_are_whole(piece: JsonV)
    ensures
        ({
            let e = ollama_stream::call_event(piece);
            &&& e is ToolCallDelta
            &&& piece.at_key("index"@).as_u64() is Some ==> e->ToolCallDelta_0 == Some(piece.at_key("index"@).count())
            &&& piece.at_key("index"@).as_u64() is None ==> e->ToolCallDelta_0 is None
            &&& piece.at_key("id"@) is Text ==> e->ToolCallDelta_1 == piece.at_key("id"@)->Text_0
            &&& piece.at_key("function"@).at_key("name"@) is Text ==> e->ToolCallDelta_2 == Some(
                piece.at_key("function"@).at_key("name"@)->Text_0,
            )
            &&& piece.at_key("function"@).at_key("arguments"@) is Text ==> e->ToolCallDelta_3 == piece.at_key(
                "function"@,
            ).at_key("arguments"@)->Text_0
        }),
{
}

/// The end of a streamed reply is that of its tool calls, of its length, or its own.
pub proof fn law_ollama_ends_are_told_apart(reason: Seq<char>)
    ensures
        ollama_stream::finish_of(reason) == FinishReason::ToolUse <==> reason == "tool_calls"@,
        ollama_stream::finish_of(reason) == FinishReason::MaxTokens <==> reason == "length"@,
        ollama_stream::finish_of(reason) == FinishReason::Stop <==> reason != "tool_calls"@ && reason != "length"@,
{
    reveal_strlit("tool_calls");
    reveal_strlit("length");
    assert("tool_calls"@.len() != "length"@.len());
}

/// From the beginning of a written tool call on, nothing of the reply is shown.
pub proof fn law_ollama_waits_for_written_calls(st: ollama_stream::StreamV, delta: Seq<char>)
    requires
        0 <= st.flushed <= st.content.len(),
        delta.len() > 0,
    ensures
        ({
            let next = ollama_stream::on_text(st, delta).0;
            let events = ollama_stream::on_text(st, delta).1;
            let unseen = (st.content + delta).skip(st.flushed);
            &&& st.in_call ==> next.in_call && events.len() == 0 && next.flushed == st.flushed
            &&& contains(unseen, "<function="@) || contains(unseen, "<tool_call>"@) ==> next.in_call && events.len() == 0
                && next.flushed == st.flushed
            &&& !st.in_call && !contains(unseen, "<function="@) && !contains(unseen, "<tool_call>"@) ==> !next.in_call
        }),
{
    let content = st.content + delta;
    assert(content.skip(st.flushed) =~= content.subrange(st.flushed, content.len() as int));
}

/// A choice adds its text to the reply, gives all its structured tool calls, in order
/// and behind the text, and ends the reply where it has a reason to end.
pub proof fn law_ollama_choices_are_whole(
    st: ollama_stream::StreamV,
    data: JsonV,
    choice: JsonV,
    names: Seq<Seq<char>>,
    calls: Seq<JsonV>,
    i: int,
)
    requires
        0 <= st.flushed <= st.content.len(),
    ensures
        ({
            let next = ollama_stream::on_choice(st, data, choice, names).0;
            let events = ollama_stream::on_choice(st, data, choice, names).1;
            let text = choice.at_key("delta"@).at_key("content"@);
            let listed = choice.at_key("delta"@).at_key("tool_calls"@);
            let end = choice.at_key("finish_reason"@);
            &&& text matches JsonV::Text(t) ==> next.content == st.content + t
            &&& !(text is Text) ==> next.content == st.content
            &&& listed == JsonV::Array(calls) ==> next.structured && (0 <= i < calls.len() ==> exists|k: int|
                i <= k < events.len() && #[trigger] events[k] == ollama_stream::call_event(calls[i]))
            &&& !(listed is Array) ==> next.structured == st.structured
            &&& end is Text ==> events.len() > 0 && events.last() is Done
            &&& !(text is Text) && !(listed is Array) && !(end is Text) ==> events.len() == 0 && next == st
        }),
{
    let delta = choice.at_key("delta"@);
    let text = delta.at_key("content"@);
    let s1 = match text.as_text() {
        Some(t) => ollama_stream::on_text(st, t).0,
        None => st,
    };
    let e1 = match text.as_text() {
        Some(t) => ollama_stream::on_text(st, t).1,
        None => Seq::empty(),
    };
    if let JsonV::Text(t) = text {
        law_ollama_shows_the_reply_in_order(st, t);
    }
    let events = ollama_stream::on_choice(st, data, choice, names).1;
    let s2 = match delta.at_key("tool_calls"@).as_array() {
        Some(cs) => ollama_stream::StreamV { structured: true, ..s1 },
        None => s1,
    };
    if let JsonV::Text(reason) = choice.at_key("finish_reason"@) {
        law_ollama_ends_whole(s2, data, reason, names);
        let e3 = ollama_stream::on_finish(s2, data, reason, names).1;
        assert(events.last() == e3.last());
    }
    if delta.at_key("tool_calls"@) == JsonV::Array(calls) && 0 <= i < calls.len() {
        let e2 = ollama_stream::call_events(calls);
        assert(e2[i] == ollama_stream::call_event(calls[i]));
        assert(events[e1.len() + i] == e2[i]);
    }
}

/// All choices of a chunk are read, one after the other; a chunk without choices
/// changes nothing.
pub proof fn law_ollama_chunks_are_whole(
    st: ollama_stream::StreamV,
    data: JsonV,
    names: Seq<Seq<char>>,
    choices: Seq<JsonV>,
    choice: JsonV,
)
    ensures
        !(data.at_key("choices"@) is Array) ==> ollama_stream::on_chunk(st, data, names) == (st, Seq::<StreamEventV>::empty()),
        data.at_key("choices"@) == JsonV::Array(seq![choice]) ==> ollama_stream::on_chunk(st, data, names)
            == ollama_stream::on_choice(st, data, choice, names),
        data.at_key("choices"@) == JsonV::Array(choices.push(choice)) ==> {
            let first = ollama_stream::on_choices(st, data, choices, names);
            let last = ollama_stream::on_choice(first.0, data, choice, names);
            ollama_stream::on_chunk(st, data, names) == (last.0, first.1 + last.1)
        },
{
    assert(choices.push(choice).drop_last() =~= choices);
    let one = seq![choice];
    assert(one.drop_last() =~= Seq::<JsonV>::empty());
    assert(ollama_stream::on_choices(st, data, one.drop_last(), names) == (st, Seq::<StreamEventV>::empty()));
    let last = ollama_stream::on_choice(st, data, choice, names);
    assert(Seq::<StreamEventV>::empty() + last.1 =~= last.1);
}

/// A line holds the chunk that is written behind its mark.
pub proof fn law_ollama_lines_hold_chunks(text: Seq<char>, v: JsonV)
    requires
        text.len() > 0,
        !is_space(text.last()),
    ensures
        text != "[DONE]"@ && parsed(text) == Some(v) ==> ollama_stream::line_value("data: "@ + text)
            == ollama_stream::LineV::Chunk(v),
        text != "[DONE]"@ && parsed(text) is None ==> ollama_stream::line_value("data: "@ + text) is Skip,
        text == "[DONE]"@ ==> ollama_stream::line_value("data: "@ + text) is End,
{
    reveal_strlit("data: ");
    let line = "data: "@ + text;
    let none = Seq::<char>::empty();
    assert(line[0] == 'd');
    assert(line.last() == text.last());
    law_trimming_leaves_the_text(none, line, none);
    assert(none + line + none =~= line);
    assert(line.subrange(0, "data: "@.len() as int) =~= "data: "@);
    assert(line.subrange("data: "@.len() as int, line.len() as int) =~= text);
}

/// A piece without the end of a line is kept for later. One that completes a line
/// gives what the line's chunk gives, and what stands behind is kept.
pub proof fn law_ollama_lines_are_read_when_complete(
    st: ollama_stream::StreamV,
    piece: Seq<char>,
    names: Seq<Seq<char>>,
    line: Seq<char>,
    rest: Seq<char>,
    v: JsonV,
)
    requires
        free_of(line, '\n'),
        free_of(rest, '\n'),
    ensures
        free_of(st.buffer + piece, '\n') ==> ollama_stream::on_piece(st, piece, names) == (
            ollama_stream::StreamV { buffer: st.buffer + piece, ..st },
            Seq::<StreamEventV>::empty(),
        ),
        st.buffer + piece == line + seq!['\n'] + rest && ollama_stream::line_value(line) == ollama_stream::LineV::Chunk(v)
            ==> {
            let got = ollama_stream::on_chunk(ollama_stream::StreamV { buffer: rest, ..st }, v, names);
            ollama_stream::on_piece(st, piece, names) == (ollama_stream::StreamV { buffer: rest, ..got.0 }, got.1)
        },
        st.buffer + piece == line + seq!['\n'] + rest && !(ollama_stream::line_value(line) is Chunk)
            ==> ollama_stream::on_piece(st, piece, names) == (
            ollama_stream::StreamV { buffer: rest, ..st },
            Seq::<StreamEventV>::empty(),
        ),
{
    let all = st.buffer + piece;
    lemma_next_char(all, '\n', 0);
    lemma_next_char(rest, '\n', 0);
    let k = next_char(all, '\n', 0);
    let s0 = ollama_stream::StreamV { buffer: rest, ..st };
    if all == line + seq!['\n'] + rest {
        assert(all[line.len() as int] == '\n');
        assert forall|j: int| 0 <= j < line.len() implies #[trigger] all[j] != '\n' by {
            assert(all[j] == line[j]);
        }
        assert(k == line.len());
        assert(all.subrange(0, k) =~= line);
        assert(all.subrange(k + 1, all.len() as int) =~= rest);
        assert(next_char(rest, '\n', 0) >= rest.len());
        let got = ollama_stream::on_chunk(s0, v, names);
        let s1 = ollama_stream::StreamV { buffer: rest, ..got.0 };
        assert(ollama_stream::drain(s0, names) == (s0, Seq::<StreamEventV>::empty()));
        assert(ollama_stream::drain(s1, names) == (s1, Seq::<StreamEventV>::empty()));
        assert(got.1 + Seq::<StreamEventV>::empty() =~= got.1);
        assert(ollama_stream::StreamV { buffer: all, ..st }.buffer == all);
    }
}

} // verus!
