//! What is read of the replies of the providers.
use vstd::prelude::*;

use crate::json::{JsonV, parsed};
use crate::llm::anthropic;
use crate::llm::gemini;
use crate::llm::mistral;
use crate::llm::ollama;
use crate::llm::ollama::{BlockV, function_blocks, json_blocks, offered, parameters, text_calls, unwrapped};
use crate::llm::openai;
use crate::llm::provider::{ContentPart, FinishReason, MessageContent, StreamEventV, ToolCallV, ChatMessage,
    message_tokens, messages_tokens, part_tokens, parts_tokens};
use crate::llm::wire::structured_calls;
use crate::text::{at, byte_len, contains, decimal, find_from, lemma_find_from, lemma_next_char, next_char,
    starts_with, ends_with, trim};
use crate::text_laws::free_of;

verus! {

/// The names that providers have for the ends of replies are different.
proof fn lemma_ends()
    ensures
        "tool_use"@ != "max_tokens"@,
        "tool_use"@ != "tool_calls"@,
        "tool_use"@ != "function_call"@,
        "tool_use"@ != "length"@,
        "tool_use"@ != "content_filter"@,
        "tool_use"@ != "MAX_TOKENS"@,
        "tool_use"@ != "SAFETY"@,
        "tool_use"@ != "end_turn"@,
        "tool_use"@ != "stop"@,
        "tool_use"@ != "STOP"@,
        "max_tokens"@ != "tool_calls"@,
        "max_tokens"@ != "function_call"@,
        "max_tokens"@ != "length"@,
        "max_tokens"@ != "content_filter"@,
        "max_tokens"@ != "MAX_TOKENS"@,
        "max_tokens"@ != "SAFETY"@,
        "max_tokens"@ != "end_turn"@,
        "max_tokens"@ != "stop"@,
        "max_tokens"@ != "STOP"@,
        "tool_calls"@ != "function_call"@,
        "tool_calls"@ != "length"@,
        "tool_calls"@ != "content_filter"@,
        "tool_calls"@ != "MAX_TOKENS"@,
        "tool_calls"@ != "SAFETY"@,
        "tool_calls"@ != "end_turn"@,
        "tool_calls"@ != "stop"@,
        "tool_calls"@ != "STOP"@,
        "function_call"@ != "length"@,
        "function_call"@ != "content_filter"@,
        "function_call"@ != "MAX_TOKENS"@,
        "function_call"@ != "SAFETY"@,
        "function_call"@ != "end_turn"@,
        "function_call"@ != "stop"@,
        "function_call"@ != "STOP"@,
        "length"@ != "content_filter"@,
        "length"@ != "MAX_TOKENS"@,
        "length"@ != "SAFETY"@,
        "length"@ != "end_turn"@,
        "length"@ != "stop"@,
        "length"@ != "STOP"@,
        "content_filter"@ != "MAX_TOKENS"@,
        "content_filter"@ != "SAFETY"@,
        "content_filter"@ != "end_turn"@,
        "content_filter"@ != "stop"@,
        "content_filter"@ != "STOP"@,
        "MAX_TOKENS"@ != "SAFETY"@,
        "MAX_TOKENS"@ != "end_turn"@,
        "MAX_TOKENS"@ != "stop"@,
        "MAX_TOKENS"@ != "STOP"@,
        "SAFETY"@ != "end_turn"@,
        "SAFETY"@ != "stop"@,
        "SAFETY"@ != "STOP"@,
        "end_turn"@ != "stop"@,
        "end_turn"@ != "STOP"@,
        "stop"@ != "STOP"@,
{
    reveal_strlit("tool_use");
    reveal_strlit("max_tokens");
    reveal_strlit("tool_calls");
    reveal_strlit("function_call");
    reveal_strlit("length");
    reveal_strlit("content_filter");
    reveal_strlit("MAX_TOKENS");
    reveal_strlit("SAFETY");
    reveal_strlit("end_turn");
    reveal_strlit("stop");
    reveal_strlit("STOP");
    assert("tool_use"@.len() != "max_tokens"@.len());
    assert("tool_use"@.len() != "tool_calls"@.len());
    assert("tool_use"@.len() != "function_call"@.len());
    assert("tool_use"@.len() != "length"@.len());
    assert("tool_use"@.len() != "content_filter"@.len());
    assert("tool_use"@.len() != "MAX_TOKENS"@.len());
    assert("tool_use"@.len() != "SAFETY"@.len());
    assert("tool_use"@[0] != "end_turn"@[0]);
    assert("tool_use"@.len() != "stop"@.len());
    assert("tool_use"@.len() != "STOP"@.len());
    assert("max_tokens"@[0] != "tool_calls"@[0]);
    assert("max_tokens"@.len() != "function_call"@.len());
    assert("max_tokens"@.len() != "length"@.len());
    assert("max_tokens"@.len() != "content_filter"@.len());
    assert("max_tokens"@[0] != "MAX_TOKENS"@[0]);
    assert("max_tokens"@.len() != "SAFETY"@.len());
    assert("max_tokens"@.len() != "end_turn"@.len());
    assert("max_tokens"@.len() != "stop"@.len());
    assert("max_tokens"@.len() != "STOP"@.len());
    assert("tool_calls"@.len() != "function_call"@.len());
    assert("tool_calls"@.len() != "length"@.len());
    assert("tool_calls"@.len() != "content_filter"@.len());
    assert("tool_calls"@[0] != "MAX_TOKENS"@[0]);
    assert("tool_calls"@.len() != "SAFETY"@.len());
    assert("tool_calls"@.len() != "end_turn"@.len());
    assert("tool_calls"@.len() != "stop"@.len());
    assert("tool_calls"@.len() != "STOP"@.len());
    assert("function_call"@.len() != "length"@.len());
    assert("function_call"@.len() != "content_filter"@.len());
    assert("function_call"@.len() != "MAX_TOKENS"@.len());
    assert("function_call"@.len() != "SAFETY"@.len());
    assert("function_call"@.len() != "end_turn"@.len());
    assert("function_call"@.len() != "stop"@.len());
    assert("function_call"@.len() != "STOP"@.len());
    assert("length"@.len() != "content_filter"@.len());
    assert("length"@.len() != "MAX_TOKENS"@.len());
    assert("length"@[0] != "SAFETY"@[0]);
    assert("length"@.len() != "end_turn"@.len());
    assert("length"@.len() != "stop"@.len());
    assert("length"@.len() != "STOP"@.len());
    assert("content_filter"@.len() != "MAX_TOKENS"@.len());
    assert("content_filter"@.len() != "SAFETY"@.len());
    assert("content_filter"@.len() != "end_turn"@.len());
    assert("content_filter"@.len() != "stop"@.len());
    assert("content_filter"@.len() != "STOP"@.len());
    assert("MAX_TOKENS"@.len() != "SAFETY"@.len());
    assert("MAX_TOKENS"@.len() != "end_turn"@.len());
    assert("MAX_TOKENS"@.len() != "stop"@.len());
    assert("MAX_TOKENS"@.len() != "STOP"@.len());
    assert("SAFETY"@.len() != "end_turn"@.len());
    assert("SAFETY"@.len() != "stop"@.len());
    assert("SAFETY"@.len() != "STOP"@.len());
    assert("end_turn"@.len() != "stop"@.len());
    assert("end_turn"@.len() != "STOP"@.len());
    assert("stop"@[0] != "STOP"@[0]);
}

/// The kinds of blocks and of stream events are different.
proof fn lemma_kinds()
    ensures
        "text"@ != "tool_use"@,
        "text"@ != "content_block_start"@,
        "text"@ != "content_block_delta"@,
        "text"@ != "message_delta"@,
        "text"@ != "message_start"@,
        "text"@ != "message_stop"@,
        "text"@ != "error"@,
        "text"@ != ""@,
        "tool_use"@ != "content_block_start"@,
        "tool_use"@ != "content_block_delta"@,
        "tool_use"@ != "message_delta"@,
        "tool_use"@ != "message_start"@,
        "tool_use"@ != "message_stop"@,
        "tool_use"@ != "error"@,
        "tool_use"@ != ""@,
        "content_block_start"@ != "content_block_delta"@,
        "content_block_start"@ != "message_delta"@,
        "content_block_start"@ != "message_start"@,
        "content_block_start"@ != "message_stop"@,
        "content_block_start"@ != "error"@,
        "content_block_start"@ != ""@,
        "content_block_delta"@ != "message_delta"@,
        "content_block_delta"@ != "message_start"@,
        "content_block_delta"@ != "message_stop"@,
        "content_block_delta"@ != "error"@,
        "content_block_delta"@ != ""@,
        "message_delta"@ != "message_start"@,
        "message_delta"@ != "message_stop"@,
        "message_delta"@ != "error"@,
        "message_delta"@ != ""@,
        "message_start"@ != "message_stop"@,
        "message_start"@ != "error"@,
        "message_start"@ != ""@,
        "message_stop"@ != "error"@,
        "message_stop"@ != ""@,
        "error"@ != ""@,
{
    reveal_strlit("text");
    reveal_strlit("tool_use");
    reveal_strlit("content_block_start");
    reveal_strlit("content_block_delta");
    reveal_strlit("message_delta");
    reveal_strlit("message_start");
    reveal_strlit("message_stop");
    reveal_strlit("error");
    reveal_strlit("");
    assert("text"@.len() != "tool_use"@.len());
    assert("text"@.len() != "content_block_start"@.len());
    assert("text"@.len() != "content_block_delta"@.len());
    assert("text"@.len() != "message_delta"@.len());
    assert("text"@.len() != "message_start"@.len());
    assert("text"@.len() != "message_stop"@.len());
    assert("text"@.len() != "error"@.len());
    assert("text"@.len() != ""@.len());
    assert("tool_use"@.len() != "content_block_start"@.len());
    assert("tool_use"@.len() != "content_block_delta"@.len());
    assert("tool_use"@.len() != "message_delta"@.len());
    assert("tool_use"@.len() != "message_start"@.len());
    assert("tool_use"@.len() != "message_stop"@.len());
    assert("tool_use"@.len() != "error"@.len());
    assert("tool_use"@.len() != ""@.len());
    assert("content_block_start"@[14] != "content_block_delta"@[14]);
    assert("content_block_start"@.len() != "message_delta"@.len());
    assert("content_block_start"@.len() != "message_start"@.len());
    assert("content_block_start"@.len() != "message_stop"@.len());
    assert("content_block_start"@.len() != "error"@.len());
    assert("content_block_start"@.len() != ""@.len());
    assert("content_block_delta"@.len() != "message_delta"@.len());
    assert("content_block_delta"@.len() != "message_start"@.len());
    assert("content_block_delta"@.len() != "message_stop"@.len());
    assert("content_block_delta"@.len() != "error"@.len());
    assert("content_block_delta"@.len() != ""@.len());
    assert("message_delta"@[8] != "message_start"@[8]);
    assert("message_delta"@.len() != "message_stop"@.len());
    assert("message_delta"@.len() != "error"@.len());
    assert("message_delta"@.len() != ""@.len());
    assert("message_start"@.len() != "message_stop"@.len());
    assert("message_start"@.len() != "error"@.len());
    assert("message_start"@.len() != ""@.len());
    assert("message_stop"@.len() != "error"@.len());
    assert("message_stop"@.len() != ""@.len());
    assert("error"@.len() != ""@.len());
}


// ---------------------------------------------------------------------------
// Ends
// ---------------------------------------------------------------------------

/// The names that the providers have for the ends of replies.
pub proof fn law_ends_are_told_apart(reason: Seq<char>)
    ensures
        anthropic::finish_of(reason) == FinishReason::ToolUse <==> reason == "tool_use"@,
        anthropic::finish_of(reason) == FinishReason::MaxTokens <==> reason == "max_tokens"@,
        anthropic::finish_of(reason) == FinishReason::Stop <==> reason != "tool_use"@ && reason != "max_tokens"@,
        openai::finish_of(reason) == FinishReason::ToolUse <==> reason == "tool_calls"@ || reason == "function_call"@,
        openai::finish_of(reason) == FinishReason::MaxTokens <==> reason == "length"@,
        openai::finish_of(reason) == FinishReason::ContentFilter <==> reason == "content_filter"@,
        reason == "stop"@ ==> openai::finish_of(reason) == FinishReason::Stop,
        openai::finish_of(reason) != FinishReason::Error,
        mistral::finish_of(reason) == FinishReason::ToolUse <==> reason == "tool_calls"@,
        mistral::finish_of(reason) == FinishReason::MaxTokens <==> reason == "length"@,
        mistral::finish_of(reason) == FinishReason::Stop <==> reason != "tool_calls"@ && reason != "length"@,
        gemini::finish_of(reason) == FinishReason::MaxTokens <==> reason == "MAX_TOKENS"@,
        gemini::finish_of(reason) == FinishReason::ContentFilter <==> reason == "SAFETY"@,
        gemini::finish_of(reason) == FinishReason::Stop <==> reason != "MAX_TOKENS"@ && reason != "SAFETY"@,
{
    lemma_ends();
}

// ---------------------------------------------------------------------------
// Anthropic
// ---------------------------------------------------------------------------

/// The block is a text.
pub open spec fn speaks(b: JsonV) -> bool {
    b.at_key("type"@) == JsonV::Text("text"@) && b.at_key("text"@) is Text
}

/// The block asks for a tool call.
pub open spec fn calls(b: JsonV) -> bool {
    b.at_key("type"@) == JsonV::Text("tool_use"@)
}

proof fn lemma_first_text(blocks: Seq<JsonV>, i: int)
    requires
        0 <= i,
    ensures
        forall|k: int|
            i <= k < blocks.len() && speaks(#[trigger] blocks[k]) && (forall|j: int|
                i <= j < k ==> !speaks(#[trigger] blocks[j])) ==> JsonV::Text(anthropic::first_text(blocks, i))
                == blocks[k].at_key("text"@),
        (forall|k: int| i <= k < blocks.len() ==> !speaks(#[trigger] blocks[k])) ==> anthropic::first_text(
            blocks,
            i,
        ).len() == 0,
    decreases blocks.len() - i,
{
    if i < blocks.len() {
        lemma_first_text(blocks, i + 1);
        if !speaks(blocks[i]) {
            assert forall|k: int|
                i <= k < blocks.len() && speaks(#[trigger] blocks[k]) && (forall|j: int|
                    i <= j < k ==> !speaks(#[trigger] blocks[j])) implies JsonV::Text(anthropic::first_text(blocks, i))
                == blocks[k].at_key("text"@) by {
                assert(k != i);
            }
        } else {
            assert forall|k: int|
                i <= k < blocks.len() && speaks(#[trigger] blocks[k]) && (forall|j: int|
                    i <= j < k ==> !speaks(#[trigger] blocks[j])) implies JsonV::Text(anthropic::first_text(blocks, i))
                == blocks[k].at_key("text"@) by {
                if k > i {
                    assert(!speaks(blocks[i]));
                }
            }
        }
    }
}

/// The call that is read is the one that the block asks for.
pub open spec fn reads_call(c: ToolCallV, b: JsonV) -> bool {
    &&& b.at_key("id"@) is Text ==> b.at_key("id"@) == JsonV::Text(c.id)
    &&& b.at_key("name"@) is Text ==> b.at_key("name"@) == JsonV::Text(c.name)
    &&& c.arguments == b.at_key("input"@)
}

proof fn lemma_block_calls(blocks: Seq<JsonV>)
    ensures
        anthropic::block_calls(blocks).len() == blocks.filter(|b: JsonV| calls(b)).len(),
        forall|i: int|
            0 <= i < anthropic::block_calls(blocks).len() ==> reads_call(
                #[trigger] anthropic::block_calls(blocks)[i],
                blocks.filter(|b: JsonV| calls(b))[i],
            ),
    decreases blocks.len(),
{
    reveal(Seq::filter);
    if blocks.len() > 0 {
        lemma_block_calls(blocks.drop_last());
        let f = |b: JsonV| calls(b);
        let rest = blocks.drop_last().filter(f);
        let all = blocks.filter(f);
        let t = anthropic::block_calls(blocks);
        assert forall|i: int| 0 <= i < t.len() implies reads_call(#[trigger] t[i], all[i]) by {
            if i < rest.len() {
                assert(all[i] == rest[i]);
                assert(t[i] == anthropic::block_calls(blocks.drop_last())[i]);
            }
        }
    }
}

/// A reply of Anthropic's reads as the text of its first text block and the
/// calls of its tool blocks, all of them in order, with the token counts, the
/// end and the model that it names.
pub proof fn law_anthropic_replies_are_read_whole(body: JsonV, model: Seq<char>, blocks: Seq<JsonV>)
    requires
        body.at_key("content"@) == JsonV::Array(blocks),
    ensures
        ({
            let r = anthropic::reply_value(body, model);
            &&& forall|k: int|
                0 <= k < blocks.len() && speaks(#[trigger] blocks[k]) && (forall|j: int|
                    0 <= j < k ==> !speaks(#[trigger] blocks[j])) ==> JsonV::Text(r.content) == blocks[k].at_key("text"@)
            &&& (forall|k: int| 0 <= k < blocks.len() ==> !speaks(#[trigger] blocks[k])) ==> r.content.len() == 0
            &&& r.tool_calls.len() == blocks.filter(|b: JsonV| calls(b)).len()
            &&& forall|i: int|
                0 <= i < r.tool_calls.len() ==> reads_call(
                    #[trigger] r.tool_calls[i],
                    blocks.filter(|b: JsonV| calls(b))[i],
                )
            &&& r.usage.input_tokens == body.at_key("usage"@).at_key("input_tokens"@).count()
            &&& r.usage.output_tokens == body.at_key("usage"@).at_key("output_tokens"@).count()
            &&& r.usage.reasoning_tokens is None
            &&& body.at_key("stop_reason"@) matches JsonV::Text(s) ==> r.finish_reason == anthropic::finish_of(s)
            &&& !(body.at_key("stop_reason"@) is Text) ==> r.finish_reason == FinishReason::Stop
            &&& body.at_key("model"@) matches JsonV::Text(s) ==> r.model == s
            &&& !(body.at_key("model"@) is Text) ==> r.model == model
            &&& r.provider == "anthropic"@
        }),
{
    lemma_ends();
    lemma_first_text(blocks, 0);
    lemma_block_calls(blocks);
}

/// The end of a streamed reply of Anthropic's brings the tokens written and why
/// it ended, its beginning the tokens read; the stream is over with its last
/// event only, and an error ends it with the message that it brings.
pub proof fn law_anthropic_streams_report(tool_id: Seq<char>, data: JsonV)
    ensures
        data.at_key("type"@) == JsonV::Text("message_delta"@) ==> {
            &&& anthropic::on_event(tool_id, data) matches Ok(s) && !s.over && s.tool_id == tool_id && {
                let counted = data.field("usage"@) is Some;
                let ended = data.at_key("delta"@).at_key("stop_reason"@) is Text;
                let n: int = if counted {
                    1
                } else {
                    0
                };
                &&& s.events.len() == n + if ended {
                    1int
                } else {
                    0
                }
                &&& counted ==> (s.events[0] matches StreamEventV::Usage(u) && u.input_tokens == 0 && u.output_tokens
                    == data.at_key("usage"@).at_key("output_tokens"@).count())
                &&& ended ==> s.events[n] == StreamEventV::Done(
                    anthropic::finish_of(data.at_key("delta"@).at_key("stop_reason"@)->Text_0),
                )
            }
        },
        data.at_key("type"@) == JsonV::Text("message_start"@) ==> {
            &&& anthropic::on_event(tool_id, data) matches Ok(s) && !s.over && s.tool_id == tool_id && {
                let u = data.at_key("message"@).at_key("usage"@);
                &&& u is Object ==> s.events.len() == 1 && (s.events[0] matches StreamEventV::Usage(c)
                    && c.input_tokens == u.at_key("input_tokens"@).count() && c.output_tokens == 0)
                &&& !(u is Object) ==> s.events.len() == 0
            }
        },
        anthropic::on_event(tool_id, data) matches Ok(s) ==> (s.over <==> data.at_key("type"@) == JsonV::Text(
            "message_stop"@,
        )),
        anthropic::on_event(tool_id, data) is Err <==> data.at_key("type"@) == JsonV::Text("error"@),
        data.at_key("type"@) == JsonV::Text("error"@) ==> (data.at_key("error"@).at_key("message"@) matches JsonV::Text(m)
            ==> anthropic::on_event(tool_id, data) == Err::<anthropic::StepV, Seq<char>>(m)),
{
    lemma_kinds();
}

// ---------------------------------------------------------------------------
// Structured calls
// ---------------------------------------------------------------------------

/// The call has a name.
pub open spec fn is_named(tc: JsonV) -> bool {
    tc.at_key("function"@).at_key("name"@) matches JsonV::Text(n) && n.len() > 0
}

/// The call that is read has the name, the id and the arguments of the
/// structured one; the arguments are the value that their text writes.
pub open spec fn reads_structured(c: ToolCallV, tc: JsonV) -> bool {
    &&& tc.at_key("function"@).at_key("name"@) == JsonV::Text(c.name)
    &&& tc.at_key("id"@) is Text ==> tc.at_key("id"@) == JsonV::Text(c.id)
    &&& tc.at_key("function"@).at_key("arguments"@) matches JsonV::Text(t) ==> match parsed(t) {
        Some(v) => c.arguments == v,
        None => c.arguments == JsonV::Null,
    }
}

/// The structured calls of a reply are read, all that have a name, in order.
pub proof fn law_structured_calls_are_read_whole(list: Seq<JsonV>)
    ensures
        structured_calls(list).len() == list.filter(|tc: JsonV| is_named(tc)).len(),
        forall|i: int|
            0 <= i < structured_calls(list).len() ==> reads_structured(
                #[trigger] structured_calls(list)[i],
                list.filter(|tc: JsonV| is_named(tc))[i],
            ),
    decreases list.len(),
{
    reveal(Seq::filter);
    reveal_strlit("");
    if list.len() > 0 {
        law_structured_calls_are_read_whole(list.drop_last());
        let f = |tc: JsonV| is_named(tc);
        let rest = list.drop_last().filter(f);
        let all = list.filter(f);
        let t = structured_calls(list);
        assert forall|i: int| 0 <= i < t.len() implies reads_structured(#[trigger] t[i], all[i]) by {
            if i < rest.len() {
                assert(all[i] == rest[i]);
                assert(t[i] == structured_calls(list.drop_last())[i]);
            }
        }
    }
}

// ---------------------------------------------------------------------------
// OpenAI and Mistral
// ---------------------------------------------------------------------------

/// A reply of OpenAI's reads as the text of its first choice, with the given
/// calls, its token counts, its end and its model.
pub proof fn law_openai_replies_are_read_whole(body: JsonV, found: Seq<ToolCallV>)
    ensures
        ({
            let r = openai::reply_value(body, found);
            let choice = body.at_key("choices"@).at_index(0);
            &&& choice.at_key("message"@).at_key("content"@) matches JsonV::Text(s) ==> r.content == s
            &&& !(choice.at_key("message"@).at_key("content"@) is Text) ==> r.content.len() == 0
            &&& r.tool_calls == found
            &&& choice.at_key("finish_reason"@) matches JsonV::Text(s) ==> r.finish_reason == openai::finish_of(s)
            &&& !(choice.at_key("finish_reason"@) is Text) ==> r.finish_reason == FinishReason::Stop
            &&& r.usage.input_tokens == body.at_key("usage"@).at_key("prompt_tokens"@).count()
            &&& r.usage.output_tokens == body.at_key("usage"@).at_key("completion_tokens"@).count()
            &&& r.usage.reasoning_tokens is None
            &&& body.at_key("model"@) matches JsonV::Text(s) ==> r.model == s
            &&& r.provider == "openai"@
        }),
        openai::has_choice(body) <==> (body.at_key("choices"@) matches JsonV::Array(c) && c.len() > 0),
{
    lemma_ends();
    reveal_strlit("");
}

/// A call that was refused for asking too much is told apart from any other.
pub proof fn law_limits_are_told_apart(kind: Seq<char>, code: Seq<char>)
    ensures
        openai::is_rate_limit(kind, code) <==> code == "rate_limit_exceeded"@ || kind == "insufficient_quota"@,
{
}

/// A reply of Mistral's reads as the text of its first choice, with its token
/// counts, its end and its model.
pub proof fn law_mistral_replies_are_read_whole(body: JsonV, model: Seq<char>)
    ensures
        ({
            let r = mistral::reply_value(body, model);
            let choice = body.at_key("choices"@).at_index(0);
            &&& choice.at_key("message"@).at_key("content"@) matches JsonV::Text(s) ==> r.content == s
            &&& !(choice.at_key("message"@).at_key("content"@) is Text) ==> r.content.len() == 0
            &&& r.tool_calls.len() == 0
            &&& choice.at_key("finish_reason"@) matches JsonV::Text(s) ==> r.finish_reason == mistral::finish_of(s)
            &&& !(choice.at_key("finish_reason"@) is Text) ==> r.finish_reason == FinishReason::Stop
            &&& r.usage.input_tokens == body.at_key("usage"@).at_key("prompt_tokens"@).count()
            &&& r.usage.output_tokens == body.at_key("usage"@).at_key("completion_tokens"@).count()
            &&& body.at_key("model"@) matches JsonV::Text(s) ==> r.model == s
            &&& !(body.at_key("model"@) is Text) ==> r.model == model
            &&& r.provider == "mistral"@
        }),
{
    lemma_ends();
    reveal_strlit("");
}

/// A streamed chunk of Mistral's tells its token counts and why the reply
/// ended, and nothing of either where it holds none.
pub proof fn law_mistral_chunks_report(data: JsonV)
    ensures
        ({
            let events = mistral::chunk_events(data);
            let reason = data.at_key("choices"@).at_index(0).at_key("finish_reason"@);
            let u = data.at_key("usage"@);
            &&& reason matches JsonV::Text(s) ==> events.len() > 0 && events.last() == StreamEventV::Done(
                mistral::finish_of(s),
            )
            &&& !(reason is Text) ==> forall|i: int| 0 <= i < events.len() ==> !(#[trigger] events[i] is Done)
            &&& u is Null ==> forall|i: int| 0 <= i < events.len() ==> !(#[trigger] events[i] is Usage)
            &&& !(u is Null) ==> exists|i: int|
                0 <= i < events.len() && (#[trigger] events[i] matches StreamEventV::Usage(c) && c.input_tokens
                    == u.at_key("prompt_tokens"@).count() && c.output_tokens == u.at_key("completion_tokens"@).count())
        }),
{
    let events = mistral::chunk_events(data);
    let choice = data.at_key("choices"@).at_index(0);
    let n: int = if choice.at_key("delta"@).at_key("content"@).text_or(""@).len() > 0 {
        1
    } else {
        0
    };
    if !(data.at_key("usage"@) is Null) {
        assert(events[n] is Usage);
    }
}

/// The token counts of a chunk of OpenAI's are told once, where it has any.
pub proof fn law_openai_chunks_report(data: JsonV)
    ensures
        !(data.at_key("usage"@) is Null) ==> exists|i: int|
            0 <= i < openai::chunk_events(data).len() && (#[trigger] openai::chunk_events(data)[i] matches StreamEventV::Usage(c)
                && c.input_tokens == data.at_key("usage"@).at_key("prompt_tokens"@).count() && c.output_tokens == data.at_key(
                "usage"@,
            ).at_key("completion_tokens"@).count()),
{
    let e1 = match data.at_key("choices"@).as_array() {
        Some(choices) => openai::choices_events(choices),
        None => Seq::empty(),
    };
    lemma_end_place(e1, 0);
    if !(data.at_key("usage"@) is Null) {
        assert(openai::chunk_events(data)[openai::first_end(e1, 0)] is Usage);
    }
}

proof fn lemma_end_place(events: Seq<StreamEventV>, i: int)
    requires
        0 <= i <= events.len(),
    ensures
        i <= openai::first_end(events, i) <= events.len(),
    decreases events.len() - i,
{
    if i < events.len() && !(events[i] is Done) {
        lemma_end_place(events, i + 1);
    }
}

/// A choice that ends tells why, in its last event; one that goes on does not.
pub proof fn law_openai_choices_end(choice: JsonV)
    ensures
        choice.at_key("finish_reason"@) matches JsonV::Text(s) ==> openai::choice_events(choice).len() > 0
            && openai::choice_events(choice).last() == StreamEventV::Done(openai::finish_of(s)),
        !(choice.at_key("finish_reason"@) is Text) ==> forall|i: int|
            0 <= i < openai::choice_events(choice).len() ==> !(#[trigger] openai::choice_events(choice)[i] is Done),
{
    if !(choice.at_key("finish_reason"@) is Text) {
        let events = openai::choice_events(choice);
        let delta = choice.at_key("delta"@);
        let n: int = if delta.at_key("content"@) is Text {
            1
        } else {
            0
        };
        assert forall|i: int| 0 <= i < events.len() implies !(#[trigger] events[i] is Done) by {
            if i >= n {
                if let JsonV::Array(list) = delta.at_key("tool_calls"@) {
                    assert(events[i] == openai::call_events(list)[i - n]);
                    assert(openai::call_events(list)[i - n] == openai::call_event(list[i - n]));
                }
            }
        }
    }
}

// ---------------------------------------------------------------------------
// Gemini
// ---------------------------------------------------------------------------

/// The part asks for a call that has a name.
pub open spec fn asks(part: JsonV) -> bool {
    part.at_key("functionCall"@).at_key("name"@) matches JsonV::Text(n) && n.len() > 0
}

/// The call that is read is the one that the part asks for.
pub open spec fn reads_part(c: ToolCallV, part: JsonV) -> bool {
    let fc = part.at_key("functionCall"@);
    &&& fc.at_key("name"@) == JsonV::Text(c.name)
    &&& fc.at_key("id"@) is Text ==> fc.at_key("id"@) == JsonV::Text(c.id)
    &&& !(fc.at_key("id"@) is Text) ==> c.id.len() == 0
    &&& c.arguments == fc.at_key("args"@)
}

proof fn lemma_parts_calls(parts: Seq<JsonV>)
    ensures
        gemini::parts_calls(parts).len() == parts.filter(|p: JsonV| asks(p)).len(),
        forall|i: int|
            0 <= i < gemini::parts_calls(parts).len() ==> reads_part(
                #[trigger] gemini::parts_calls(parts)[i],
                parts.filter(|p: JsonV| asks(p))[i],
            ),
    decreases parts.len(),
{
    reveal(Seq::filter);
    reveal_strlit("");
    if parts.len() > 0 {
        lemma_parts_calls(parts.drop_last());
        let f = |p: JsonV| asks(p);
        let rest = parts.drop_last().filter(f);
        let all = parts.filter(f);
        let t = gemini::parts_calls(parts);
        assert(gemini::part_call(parts.last()) is Some <==> asks(parts.last()));
        assert forall|i: int| 0 <= i < t.len() implies reads_part(#[trigger] t[i], all[i]) by {
            if i < rest.len() {
                assert(all[i] == rest[i]);
                assert(t[i] == gemini::parts_calls(parts.drop_last())[i]);
            }
        }
    }
}

/// The texts of the parts, put together, are the text of the whole.
pub proof fn law_gemini_texts_are_put_together(a: Seq<JsonV>, part: JsonV)
    ensures
        part.at_key("text"@) matches JsonV::Text(s) ==> gemini::parts_text(a.push(part)) == gemini::parts_text(a) + s,
        !(part.at_key("text"@) is Text) ==> gemini::parts_text(a.push(part)) == gemini::parts_text(a),
        gemini::parts_text(Seq::empty()).len() == 0,
{
    reveal_strlit("");
    assert(a.push(part).drop_last() =~= a);
    assert(gemini::parts_text(a) + ""@ =~= gemini::parts_text(a));
}

/// A reply of Gemini's reads as the texts of its parts, put together, and its
/// calls, all that have a name, in order, with its token counts and its end.
pub proof fn law_gemini_replies_are_read_whole(body: JsonV, model: Seq<char>, parts: Seq<JsonV>)
    requires
        body.at_key("candidates"@).at_index(0).at_key("content"@).at_key("parts"@) == JsonV::Array(parts),
    ensures
        ({
            let r = gemini::reply_value(body, model);
            let reason = body.at_key("candidates"@).at_index(0).at_key("finishReason"@);
            &&& r.content == gemini::parts_text(parts)
            &&& r.tool_calls.len() == parts.filter(|p: JsonV| asks(p)).len()
            &&& forall|i: int|
                0 <= i < r.tool_calls.len() ==> reads_part(
                    #[trigger] r.tool_calls[i],
                    parts.filter(|p: JsonV| asks(p))[i],
                )
            &&& r.usage.input_tokens == body.at_key("usageMetadata"@).at_key("promptTokenCount"@).count()
            &&& r.usage.output_tokens == body.at_key("usageMetadata"@).at_key("candidatesTokenCount"@).count()
            &&& reason matches JsonV::Text(s) ==> r.finish_reason == gemini::finish_of(s)
            &&& !(reason is Text) ==> r.finish_reason == FinishReason::Stop
            &&& r.model == model
            &&& r.provider == "gemini"@
        }),
{
    lemma_ends();
    lemma_parts_calls(parts);
}

proof fn lemma_parts_events(parts: Seq<JsonV>)
    ensures
        forall|i: int|
            0 <= i < gemini::parts_events(parts).len() ==> (#[trigger] gemini::parts_events(parts)[i]) is TextDelta
                || gemini::parts_events(parts)[i] is ToolCallDelta,
    decreases parts.len(),
{
    if parts.len() > 0 {
        let rest = gemini::parts_events(parts.drop_last());
        lemma_parts_events(parts.drop_last());
        let all = gemini::parts_events(parts);
        assert forall|i: int| 0 <= i < all.len() implies (#[trigger] all[i]) is TextDelta || all[i] is ToolCallDelta by {
            if i < rest.len() {
                assert(all[i] == rest[i]);
            } else {
                assert(all[i] == gemini::part_events(parts.last())[i - rest.len()]);
            }
        }
    }
}

/// A streamed chunk of Gemini's tells its token counts and why the reply ended,
/// and nothing of either where it holds none.
pub proof fn law_gemini_chunks_report(data: JsonV)
    ensures
        ({
            let events = gemini::chunk_events(data);
            let reason = data.at_key("candidates"@).at_index(0).at_key("finishReason"@);
            &&& reason matches JsonV::Text(s) ==> events.len() > 0 && events.last() == StreamEventV::Done(
                gemini::finish_of(s),
            )
            &&& !(reason is Text) ==> forall|i: int| 0 <= i < events.len() ==> !(#[trigger] events[i] is Done)
            &&& data.field("usageMetadata"@) is None ==> forall|i: int|
                0 <= i < events.len() ==> !(#[trigger] events[i] is Usage)
            &&& data.field("usageMetadata"@) matches Some(u) ==> exists|i: int|
                0 <= i < events.len() && (#[trigger] events[i] matches StreamEventV::Usage(c) && c.input_tokens
                    == u.at_key("promptTokenCount"@).count() && c.output_tokens == u.at_key(
                    "candidatesTokenCount"@,
                ).count())
        }),
{
    let parts = gemini::reply_parts(data);
    lemma_parts_events(parts);
    let n = gemini::parts_events(parts).len() as int;
    let events = gemini::chunk_events(data);
    assert forall|i: int| 0 <= i < n implies #[trigger] events[i] == gemini::parts_events(parts)[i] by {}
    if data.field("usageMetadata"@) is Some {
        assert(events[n] is Usage);
    }
}

// ---------------------------------------------------------------------------
// Ollama
// ---------------------------------------------------------------------------

/// A reply of Ollama's reads as its text, with the structured calls or else
/// those in the text, its token counts, its end and its model.
pub proof fn law_ollama_replies_are_read_whole(body: JsonV, names: Seq<Seq<char>>, model: Seq<char>)
    ensures
        ({
            let r = ollama::reply_value(body, names, model);
            let choice = body.at_key("choices"@).at_index(0);
            let message = choice.at_key("message"@);
            &&& message.at_key("content"@) matches JsonV::Text(s) ==> r.content == s
            &&& !(message.at_key("content"@) is Text) ==> r.content.len() == 0
            &&& message.at_key("tool_calls"@) matches JsonV::Array(list) ==> (structured_calls(list).len() > 0
                ==> r.tool_calls == structured_calls(list))
            &&& !(message.at_key("tool_calls"@) is Array) ==> r.tool_calls == text_calls(r.content, names)
            &&& message.at_key("tool_calls"@) matches JsonV::Array(list) ==> (structured_calls(list).len() == 0
                ==> r.tool_calls == text_calls(r.content, names))
            &&& r.tool_calls.len() > 0 <==> r.finish_reason == FinishReason::ToolUse
            &&& r.tool_calls.len() == 0 ==> (r.finish_reason == FinishReason::MaxTokens <==> choice.at_key(
                "finish_reason"@,
            ) == JsonV::Text("length"@))
            &&& r.finish_reason != FinishReason::Error && r.finish_reason != FinishReason::ContentFilter
            &&& r.usage.input_tokens == body.at_key("usage"@).at_key("prompt_tokens"@).count()
            &&& r.usage.output_tokens == body.at_key("usage"@).at_key("completion_tokens"@).count()
            &&& body.at_key("model"@) matches JsonV::Text(s) ==> r.model == s
            &&& !(body.at_key("model"@) is Text) ==> r.model == model
            &&& r.provider == "ollama"@
        }),
{
    reveal_strlit("");
    assert(""@ =~= Seq::<char>::empty());
}

proof fn lemma_found(s: Seq<char>, p: Seq<char>, i: int, k: int)
    requires
        0 <= i <= k,
        at(s, p, k),
        forall|j: int| i <= j < k ==> !#[trigger] at(s, p, j),
    ensures
        find_from(s, p, i) == Some(k),
{
    lemma_find_from(s, p, i);
    assert(find_from(s, p, i) is Some);
    let f = find_from(s, p, i)->0;
    assert(at(s, p, f));
    assert(f >= k);
    assert(!(k < f));
}

/// The first character of the text stands nowhere else in it.
spec fn opens_once(p: Seq<char>) -> bool {
    p.len() > 0 && forall|i: int| 0 < i < p.len() ==> #[trigger] p[i] != p[0]
}

proof fn lemma_found_behind(x: Seq<char>, a: Seq<char>, p: Seq<char>, b: Seq<char>)
    requires
        opens_once(p),
        !contains(a, p),
    ensures
        find_from(x + a + p + b, p, x.len() as int) == Some((x.len() + a.len()) as int),
{
    let s = x + a + p + b;
    let k = (x.len() + a.len()) as int;
    assert(s.subrange(k, k + p.len()) =~= p);
    assert forall|j: int| x.len() <= j < k implies !#[trigger] at(s, p, j) by {
        if at(s, p, j) {
            let o = j - x.len();
            if o + p.len() <= a.len() {
                assert(a.subrange(o, o + p.len()) =~= s.subrange(j, j + p.len()));
                assert(at(a, p, o));
            } else {
                assert(s[k] == p[0]);
                assert(s.subrange(j, j + p.len())[k - j] == s[k]);
                assert(p[k - j] == p[0]);
            }
        }
    }
    lemma_found(s, p, x.len() as int, k);
}

proof fn lemma_not_found_behind(x: Seq<char>, a: Seq<char>, p: Seq<char>)
    requires
        !contains(a, p),
    ensures
        find_from(x + a, p, x.len() as int) is None,
{
    let s = x + a;
    lemma_find_from(s, p, x.len() as int);
    if let Some(k) = find_from(s, p, x.len() as int) {
        let o = k - x.len();
        assert(a.subrange(o, o + p.len()) =~= s.subrange(k, k + p.len()));
        assert(at(a, p, o));
    }
}

proof fn lemma_next_behind(x: Seq<char>, a: Seq<char>, c: char, b: Seq<char>)
    requires
        free_of(a, c),
    ensures
        next_char(x + a + seq![c] + b, c, x.len() as int) == x.len() + a.len(),
{
    let s = x + a + seq![c] + b;
    lemma_next_char(s, c, x.len() as int);
    let k = next_char(s, c, x.len() as int);
    let want = x.len() + a.len();
    assert(s[want as int] == c);
    if k < want {
        assert(a[k - x.len()] == c);
    }
}

/// One line break before a value and one after it are dropped, and nothing
/// else.
pub proof fn law_only_wrapping_breaks_are_dropped(v: Seq<char>)
    ensures
        v.len() > 0 && v[0] != '\n' && v[0] != '\r' && v.last() != '\n' ==> unwrapped(v) == v,
        v.len() > 0 && v[0] != '\n' && v[0] != '\r' && v.last() != '\n' && v.last() != '\r' ==> unwrapped(
            seq!['\n'] + v + seq!['\n'],
        ) == v && unwrapped(seq!['\r', '\n'] + v + seq!['\r', '\n']) == v && unwrapped(v + seq!['\n']) == v,
        unwrapped(v).len() + 4 >= v.len(),
{
    reveal_strlit("\r\n");
    reveal_strlit("\n");
    assert("\r\n"@ =~= seq!['\r', '\n']);
    assert("\n"@ =~= seq!['\n']);
    if v.len() > 0 && v[0] != '\n' && v[0] != '\r' && v.last() != '\n' {
        lemma_no_break(v);
        assert(unwrapped(v) =~= v);
        if v.last() != '\r' {
            let a = seq!['\n'] + v + seq!['\n'];
            assert(a.subrange(0, 1) =~= "\n"@);
            if starts_with(a, "\r\n"@) {
                assert(a.subrange(0, 2)[0] == '\r');
            }
            assert(a.subrange(1, a.len() as int) =~= v + seq!['\n']);
            lemma_break_behind(a.subrange(1, a.len() as int), v);
            assert(unwrapped(a) =~= v);
            let b = seq!['\r', '\n'] + v + seq!['\r', '\n'];
            assert(b.subrange(0, 2) =~= "\r\n"@);
            let h = b.subrange(2, b.len() as int);
            assert(h =~= v + seq!['\r', '\n']);
            assert(h.subrange(h.len() - 2, h.len() as int) =~= "\r\n"@);
            assert(unwrapped(b) =~= v);
            let c = v + seq!['\n'];
            if starts_with(c, "\r\n"@) {
                assert(c.subrange(0, 2)[0] == '\r');
            }
            if starts_with(c, "\n"@) {
                assert(c.subrange(0, 1)[0] == '\n');
            }
            lemma_break_behind(c, v);
            assert(unwrapped(c) =~= v);
        }
    }
}

proof fn lemma_no_break(v: Seq<char>)
    requires
        v.len() > 0,
        v[0] != '\n',
        v[0] != '\r',
        v.last() != '\n',
        "\r\n"@ == seq!['\r', '\n'],
        "\n"@ == seq!['\n'],
    ensures
        !starts_with(v, "\r\n"@),
        !starts_with(v, "\n"@),
        !ends_with(v, "\r\n"@),
        !ends_with(v, "\n"@),
{
    if starts_with(v, "\r\n"@) {
        assert(v.subrange(0, 2)[0] == '\r');
    }
    if starts_with(v, "\n"@) {
        assert(v.subrange(0, 1)[0] == '\n');
    }
    if ends_with(v, "\r\n"@) {
        assert(v.subrange(v.len() - 2, v.len() as int)[1] == '\n');
    }
    if ends_with(v, "\n"@) {
        assert(v.subrange(v.len() - 1, v.len() as int)[0] == '\n');
    }
}

proof fn lemma_break_behind(h: Seq<char>, v: Seq<char>)
    requires
        h == v + seq!['\n'],
        v.len() > 0,
        v.last() != '\r',
        "\r\n"@ == seq!['\r', '\n'],
        "\n"@ == seq!['\n'],
    ensures
        !ends_with(h, "\r\n"@),
        ends_with(h, "\n"@),
{
    if ends_with(h, "\r\n"@) {
        assert(h.subrange(h.len() - 2, h.len() as int)[0] == '\r');
        assert(h[h.len() - 2] == v.last());
    }
    assert(h.subrange(h.len() - 1, h.len() as int) =~= "\n"@);
}

/// The text as it stands between the tags of a parameter.
pub open spec fn parameter_text(key: Seq<char>, value: Seq<char>) -> Seq<char> {
    "<parameter="@ + key + ">"@ + value + "</parameter>"@
}

proof fn lemma_tags()
    ensures
        opens_once("<parameter="@),
        opens_once("</parameter>"@),
        opens_once("<function="@),
        opens_once("</function>"@),
        opens_once("<tool_call>"@),
        opens_once("</tool_call>"@),
        ">"@ == seq!['>'],
        "<parameter="@.len() == 11,
        "</parameter>"@.len() == 12,
        "<function="@.len() == 10,
        "</function>"@.len() == 11,
        "<tool_call>"@.len() == 11,
        "</tool_call>"@.len() == 12,
{
    reveal_strlit("<parameter=");
    reveal_strlit("</parameter>");
    reveal_strlit("<function=");
    reveal_strlit("</function>");
    reveal_strlit("<tool_call>");
    reveal_strlit("</tool_call>");
    reveal_strlit(">");
    assert(">"@ =~= seq!['>']);
}

/// A parameter of a call that a model wrote into its text has the key and the
/// value that stand between its tags; what stands between parameters counts
/// for nothing, and a later parameter of the same key replaces an earlier one.
pub proof fn law_written_parameters_are_read(
    before: Seq<char>,
    between: Seq<char>,
    key: Seq<char>,
    value: Seq<char>,
    rest: Seq<char>,
    m: Map<Seq<char>, JsonV>,
)
    requires
        !contains(between, "<parameter="@),
        free_of(key, '>'),
        !contains(value, "</parameter>"@),
    ensures
        parameters(before + between + parameter_text(key, value) + rest, before.len() as int, m) == parameters(
            before + between + parameter_text(key, value) + rest,
            (before.len() + between.len() + parameter_text(key, value).len()) as int,
            m.insert(trim(key), JsonV::Text(unwrapped(value))),
        ),
        !contains(rest, "<parameter="@) ==> parameters(
            before + between + parameter_text(key, value) + rest,
            before.len() as int,
            m,
        ) == m.insert(trim(key), JsonV::Text(unwrapped(value))),
{
    lemma_tags();
    let open = "<parameter="@;
    let close = "</parameter>"@;
    let s = before + between + parameter_text(key, value) + rest;
    let tail = key + seq!['>'] + value + close + rest;
    assert(s =~= before + between + open + tail);
    lemma_found_behind(before, between, open, tail);
    let p = (before.len() + between.len()) as int;
    let k = p + 11;
    let front = before + between + open;
    assert(s =~= front + key + seq!['>'] + (value + close + rest));
    lemma_next_behind(front, key, '>', value + close + rest);
    let gt = next_char(s, '>', k);
    assert(gt == k + key.len());
    assert(s.subrange(k, gt) =~= key);
    let front2 = front + key + seq!['>'];
    assert(s =~= front2 + value + close + rest);
    lemma_found_behind(front2, value, close, rest);
    let e = (front2.len() + value.len()) as int;
    assert(find_from(s, close, gt + 1) == Some(e));
    assert(s.subrange(gt + 1, e) =~= value);
    let all = before + between + parameter_text(key, value);
    assert(all.len() == e + 12);
    if !contains(rest, open) {
        assert(s =~= all + rest);
        lemma_not_found_behind(all, rest, open);
    }
}

/// A parameter that is not closed reaches to the end.
pub proof fn law_open_parameters_reach_to_the_end(key: Seq<char>, value: Seq<char>, m: Map<Seq<char>, JsonV>)
    requires
        free_of(key, '>'),
        !contains(value, "</parameter>"@),
    ensures
        parameters("<parameter="@ + key + ">"@ + value, 0, m) == m.insert(trim(key), JsonV::Text(unwrapped(value))),
{
    lemma_tags();
    let open = "<parameter="@;
    let s = open + key + ">"@ + value;
    let none = Seq::<char>::empty();
    if contains(none, open) {
        let i = choose|i: int| #[trigger] at(none, open, i);
    }
    assert(s =~= none + none + open + (key + seq!['>'] + value));
    lemma_found_behind(none, none, open, key + seq!['>'] + value);
    assert(s =~= open + key + seq!['>'] + value);
    lemma_next_behind(open, key, '>', value);
    let gt = next_char(s, '>', 11);
    assert(gt == 11 + key.len());
    assert(s.subrange(11, gt) =~= key);
    let front = open + key + seq!['>'];
    assert(s =~= front + value);
    lemma_not_found_behind(front, value, "</parameter>"@);
    assert(s.subrange(gt + 1, s.len() as int) =~= value);
}

/// A complete call `<function=NAME> .. </function>` in a text is a block with
/// that name and the parameters between its tags.
pub proof fn law_written_functions_are_read(before: Seq<char>, name: Seq<char>, inner: Seq<char>, rest: Seq<char>)
    requires
        !contains(before, "<function="@),
        free_of(name, '>'),
        !contains(inner, "</function>"@),
    ensures
        ({
            let s = before + "<function="@ + name + ">"@ + inner + "</function>"@ + rest;
            let blocks = function_blocks(s, 0);
            &&& blocks.len() > 0
            &&& blocks[0].name == trim(name)
            &&& blocks[0].arguments == JsonV::Object(parameters(inner, 0, Map::empty()))
            &&& !contains(rest, "<function="@) ==> blocks.len() == 1
        }),
{
    lemma_tags();
    let open = "<function="@;
    let close = "</function>"@;
    let s = before + open + name + ">"@ + inner + close + rest;
    let none = Seq::<char>::empty();
    let tail = name + seq!['>'] + inner + close + rest;
    assert(s =~= none + before + open + tail);
    lemma_found_behind(none, before, open, tail);
    let a = before.len() as int + 10;
    let front = before + open;
    assert(s =~= front + name + seq!['>'] + (inner + close + rest));
    lemma_next_behind(front, name, '>', inner + close + rest);
    let gt = next_char(s, '>', a);
    assert(gt == a + name.len());
    assert(s.subrange(a, gt) =~= name);
    let front2 = front + name + seq!['>'];
    assert(s =~= front2 + inner + close + rest);
    lemma_found_behind(front2, inner, close, rest);
    let e = (front2.len() + inner.len()) as int;
    assert(find_from(s, close, gt + 1) == Some(e));
    assert(s.subrange(gt + 1, e) =~= inner);
    if !contains(rest, open) {
        let all = front2 + inner + close;
        assert(s =~= all + rest);
        assert(all.len() == e + 11);
        lemma_not_found_behind(all, rest, open);
        assert(function_blocks(s, e + 11).len() == 0);
    }
}

/// A JSON document between the tags of a call is a block with the name and the
/// arguments that it writes.
pub proof fn law_written_documents_are_read(before: Seq<char>, inner: Seq<char>, rest: Seq<char>, v: JsonV)
    requires
        !contains(before, "<tool_call>"@),
        !contains(inner, "</tool_call>"@),
        parsed(trim(inner)) == Some(v),
        v.at_key("name"@) is Text,
    ensures
        ({
            let s = before + "<tool_call>"@ + inner + "</tool_call>"@ + rest;
            let blocks = json_blocks(s, 0);
            &&& blocks.len() > 0
            &&& JsonV::Text(blocks[0].name) == v.at_key("name"@)
            &&& blocks[0].arguments == v.at_key("arguments"@)
            &&& !contains(rest, "<tool_call>"@) ==> blocks.len() == 1
        }),
{
    lemma_tags();
    let open = "<tool_call>"@;
    let close = "</tool_call>"@;
    let s = before + open + inner + close + rest;
    let none = Seq::<char>::empty();
    let tail = inner + close + rest;
    assert(s =~= none + before + open + tail);
    lemma_found_behind(none, before, open, tail);
    let a = before.len() as int + 11;
    let front = before + open;
    assert(s =~= front + inner + close + rest);
    lemma_found_behind(front, inner, close, rest);
    let e = (front.len() + inner.len()) as int;
    assert(find_from(s, close, a) == Some(e));
    assert(s.subrange(a, e) =~= inner);
    if !contains(rest, open) {
        let all = front + inner + close;
        assert(s =~= all + rest);
        assert(all.len() == e + 12);
        lemma_not_found_behind(all, rest, open);
        assert(json_blocks(s, e + 12).len() == 0);
    }
}

/// The block names an offered tool.
pub open spec fn may_run(b: BlockV, names: Seq<Seq<char>>) -> bool {
    names.contains(b.name)
}

proof fn lemma_offered_filter(blocks: Seq<BlockV>, names: Seq<Seq<char>>)
    ensures
        offered(blocks, names) == blocks.filter(|b: BlockV| may_run(b, names)),
    decreases blocks.len(),
{
    reveal(Seq::filter);
    if blocks.len() > 0 {
        lemma_offered_filter(blocks.drop_last(), names);
    }
}

/// The calls in a text are the blocks that name offered tools, first the
/// function blocks and then the documents, with their names and arguments and
/// with ids that count them.
pub proof fn law_calls_in_a_text(s: Seq<char>, names: Seq<Seq<char>>, i: int)
    ensures
        ({
            let fs = function_blocks(s, 0).filter(|b: BlockV| may_run(b, names));
            let ds = json_blocks(s, 0).filter(|b: BlockV| may_run(b, names));
            let found = text_calls(s, names);
            &&& found.len() == fs.len() + ds.len()
            &&& 0 <= i < fs.len() ==> found[i].name == fs[i].name && found[i].arguments == fs[i].arguments
            &&& 0 <= i < ds.len() ==> found[fs.len() + i].name == ds[i].name && found[fs.len() + i].arguments
                == ds[i].arguments
            &&& 0 <= i < found.len() ==> found[i].id == seq!['c', 'a', 'l', 'l', '_'] + decimal(i as nat)
        }),
{
    reveal_strlit("call_");
    assert("call_"@ =~= seq!['c', 'a', 'l', 'l', '_']);
    lemma_offered_filter(function_blocks(s, 0), names);
    lemma_offered_filter(json_blocks(s, 0), names);
}

// ---------------------------------------------------------------------------
// Estimates
// ---------------------------------------------------------------------------

/// The estimate for a conversation is the sum of those for its messages: a
/// token for each four bytes of a text, and eighty-five for an image.
pub proof fn law_estimates_add_up(a: Seq<ChatMessage>, m: ChatMessage, parts: Seq<ContentPart>, p: ContentPart)
    ensures
        messages_tokens(Seq::<ChatMessage>::empty()) == 0,
        messages_tokens(a.push(m)) == messages_tokens(a) + message_tokens(m),
        m.content matches MessageContent::Text(s) ==> 4 * message_tokens(m) <= byte_len(s@) < 4 * message_tokens(m) + 4,
        m.content matches MessageContent::Parts(ps) ==> message_tokens(m) == parts_tokens(ps@),
        parts_tokens(Seq::<ContentPart>::empty()) == 0,
        parts_tokens(parts.push(p)) == parts_tokens(parts) + part_tokens(p),
        p matches ContentPart::Text(s) ==> 4 * part_tokens(p) <= byte_len(s@) < 4 * part_tokens(p) + 4,
        p is Image ==> part_tokens(p) == 85,
{
    assert(a.push(m).drop_last() =~= a);
    assert(parts.push(p).drop_last() =~= parts);
}

} // verus!
