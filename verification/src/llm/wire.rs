//! What the wire formats of several providers have in common.
use vstd::prelude::*;

use crate::json::{Json, JsonV, empty_object, lemma_views, lemma_views_push, number_of_u64, parse, parsed, reads_back,
    render, rendered, views as json_views};
use crate::llm::provider::{MessageRole, StreamEvent, ToolCall, ToolCallV, ToolDefinition, call_views, event_views,
    lemma_event_views_push, opt_view};
use crate::text::{begins, chars_of, drop_prefixes, find_chars, find_from, starts_with, text_between, trim_end_char,
    trimmed_end_char, views, without_prefixes};

verus! {

/// What follows the first "base64," of a data URL.
pub open spec fn base64_data(url: Seq<char>) -> Option<Seq<char>> {
    match find_from(url, "base64,"@, 0) {
        Some(k) => Some(url.subrange(k + "base64,"@.len(), url.len() as int)),
        None => None,
    }
}

/// The part of a data URL that follows "base64,".
pub fn base64_payload(url: &str) -> (r: Option<String>)
    ensures
        opt_view(r) == base64_data(url@),
{
    let v = chars_of(url);
    let mark = chars_of("base64,");
    match find_chars(&v, &mark, 0) {
        Some(k) => Some(text_between(&v, k + mark.len(), v.len())),
        None => None,
    }
}

/// The name of a role.
pub open spec fn role_name(role: MessageRole) -> Seq<char> {
    match role {
        MessageRole::System => "system"@,
        MessageRole::User => "user"@,
        MessageRole::Assistant => "assistant"@,
        MessageRole::Tool => "tool"@,
    }
}

/// The name of a role.
pub fn role_str(role: MessageRole) -> (r: &'static str)
    ensures
        r@ == role_name(role),
{
    match role {
        MessageRole::System => "system",
        MessageRole::User => "user",
        MessageRole::Assistant => "assistant",
        MessageRole::Tool => "tool",
    }
}

/// A sequence of texts as JSON strings.
pub open spec fn text_values(v: Seq<Seq<char>>) -> Seq<JsonV> {
    v.map_values(|s: Seq<char>| JsonV::Text(s))
}

/// A list of texts as a JSON array.
pub fn text_array(v: &Vec<String>) -> (r: Json)
    ensures
        r@ == JsonV::Array(text_values(views(v@))),
{
    let mut out: Vec<Json> = Vec::new();
    let mut i: usize = 0;
    while i < v.len()
        invariant
            i <= v@.len(),
            json_views(out@) == text_values(views(v@)).take(i as int),
        decreases v@.len() - i,
    {
        let j = Json::text(v[i].as_str());
        proof {
            lemma_views_push(out@, j);
            assert(text_values(views(v@)).take(i + 1) =~= text_values(views(v@)).take(i as int).push(j@));
        }
        out.push(j);
        i += 1;
    }
    proof {
        assert(text_values(views(v@)).take(i as int) =~= text_values(views(v@)));
    }
    Json::Array(out)
}

/// A tool call in the form of the OpenAI schema: the arguments are the text of
/// a JSON document.
pub open spec fn call_json(c: ToolCallV) -> JsonV {
    empty_object().with("id"@, JsonV::Text(c.id)).with("type"@, JsonV::Text("function"@)).with(
        "function"@,
        empty_object().with("name"@, JsonV::Text(c.name)).with("arguments"@, JsonV::Text(rendered(c.arguments))),
    )
}

pub open spec fn calls_json(calls: Seq<ToolCall>) -> Seq<JsonV> {
    calls.map_values(|c: ToolCall| call_json(c@))
}

/// What is read of a written call.
proof fn lemma_call_members(c: ToolCallV)
    ensures
        call_json(c).at_key("id"@) == JsonV::Text(c.id),
        call_json(c).at_key("function"@).at_key("name"@) == JsonV::Text(c.name),
        call_json(c).at_key("function"@).at_key("arguments"@) == JsonV::Text(rendered(c.arguments)),
{
    reveal_strlit("id");
    reveal_strlit("type");
    reveal_strlit("function");
    reveal_strlit("name");
    reveal_strlit("arguments");
    assert("id"@.len() != "type"@.len() && "id"@.len() != "function"@.len());
    assert("type"@.len() != "function"@.len());
    assert("name"@.len() != "arguments"@.len());
}

/// Calls that have names, and arguments that their text gives back.
pub open spec fn are_plain(calls: Seq<ToolCall>) -> bool {
    forall|i: int| 0 <= i < calls.len() ==> (#[trigger] calls[i])@.name.len() > 0 && reads_back(calls[i]@.arguments, 100)
}

/// Tool calls in the form of the OpenAI schema. Read as the calls of a reply,
/// they are the same calls again.
pub fn calls_array(calls: &Vec<ToolCall>) -> (r: Json)
    ensures
        r@ == JsonV::Array(calls_json(calls@)),
        are_plain(calls@) ==> structured_calls(calls_json(calls@)) == call_views(calls@),
{
    let mut out: Vec<Json> = Vec::new();
    let mut i: usize = 0;
    proof {
        assert(calls_json(calls@).take(0) =~= Seq::<JsonV>::empty());
        assert(call_views(calls@).take(0) =~= Seq::<ToolCallV>::empty());
    }
    while i < calls.len()
        invariant
            i <= calls@.len(),
            json_views(out@) == calls_json(calls@).take(i as int),
            are_plain(calls@) ==> structured_calls(calls_json(calls@).take(i as int)) == call_views(calls@).take(i as int),
        decreases calls@.len() - i,
    {
        let c = &calls[i];
        let f = Json::object().with("name", Json::text(c.name.as_str())).with(
            "arguments",
            Json::Text(render(&c.arguments)),
        );
        let j = Json::object().with("id", Json::text(c.id.as_str())).with("type", Json::text("function")).with(
            "function",
            f,
        );
        proof {
            lemma_views_push(out@, j);
            let some = calls_json(calls@).take(i + 1);
            assert(some =~= calls_json(calls@).take(i as int).push(j@));
            assert(some.drop_last() =~= calls_json(calls@).take(i as int));
            assert(some.last() == call_json(c@));
            assert(call_views(calls@).take(i + 1) =~= call_views(calls@).take(i as int).push(c@));
            lemma_call_members(c@);
        }
        out.push(j);
        i += 1;
    }
    proof {
        assert(calls_json(calls@).take(i as int) =~= calls_json(calls@));
        assert(call_views(calls@).take(i as int) =~= call_views(calls@));
    }
    Json::Array(out)
}

/// A tool in the form of the OpenAI schema.
pub open spec fn tool_json(t: ToolDefinition) -> JsonV {
    empty_object().with("type"@, JsonV::Text("function"@)).with(
        "function"@,
        empty_object().with("name"@, JsonV::Text(t.name@)).with("description"@, JsonV::Text(t.description@)).with(
            "parameters"@,
            t.parameters@,
        ),
    )
}

pub open spec fn tool_values(tools: Seq<ToolDefinition>) -> Seq<JsonV> {
    tools.map_values(|t: ToolDefinition| tool_json(t))
}

/// The tools in the form of the OpenAI schema.
pub fn tools_json(tools: &Vec<ToolDefinition>) -> (r: Json)
    ensures
        r@ == JsonV::Array(tool_values(tools@)),
{
    let mut out: Vec<Json> = Vec::new();
    let mut i: usize = 0;
    while i < tools.len()
        invariant
            i <= tools@.len(),
            json_views(out@) == tool_values(tools@).take(i as int),
        decreases tools@.len() - i,
    {
        let t = &tools[i];
        let f = Json::object().with("name", Json::text(t.name.as_str())).with(
            "description",
            Json::text(t.description.as_str()),
        ).with("parameters", t.parameters.copy());
        let j = Json::object().with("type", Json::text("function")).with("function", f);
        proof {
            lemma_views_push(out@, j);
            assert(tool_values(tools@).take(i + 1) =~= tool_values(tools@).take(i as int).push(j@));
        }
        out.push(j);
        i += 1;
    }
    proof {
        assert(tool_values(tools@).take(i as int) =~= tool_values(tools@));
    }
    Json::Array(out)
}

/// The member `key` added where there is a value for it.
pub open spec fn with_opt(body: JsonV, key: Seq<char>, value: Option<JsonV>) -> JsonV {
    match value {
        Some(v) => body.with(key, v),
        None => body,
    }
}

/// The JSON number of an optional count.
pub open spec fn opt_count(n: Option<usize>) -> Option<JsonV> {
    match n {
        Some(n) => Some(JsonV::Number(number_of_u64(n as u64))),
        None => None,
    }
}

/// The value of an optional JSON parameter.
pub open spec fn opt_json(v: Option<Json>) -> Option<JsonV> {
    match v {
        Some(j) => Some(j@),
        None => None,
    }
}

/// The structured tool calls of a reply; one without a name is left out, and
/// arguments that are no JSON text read as null.
pub open spec fn structured_calls(calls: Seq<JsonV>) -> Seq<ToolCallV>
    decreases calls.len(),
{
    if calls.len() == 0 {
        Seq::empty()
    } else {
        let rest = structured_calls(calls.drop_last());
        let tc = calls.last();
        let name = tc.at_key("function"@).at_key("name"@).text_or(""@);
        if name.len() == 0 {
            rest
        } else {
            rest.push(
                ToolCallV {
                    id: tc.at_key("id"@).text_or(""@),
                    name,
                    arguments: match parsed(tc.at_key("function"@).at_key("arguments"@).text_or("{}"@)) {
                        Some(v) => v,
                        None => JsonV::Null,
                    },
                },
            )
        }
    }
}

/// Reads the structured tool calls of a reply.
pub fn read_structured_calls(calls: &Vec<Json>) -> (r: Vec<ToolCall>)
    ensures
        call_views(r@) == structured_calls(json_views(calls@)),
{
    let mut out: Vec<ToolCall> = Vec::new();
    let mut i: usize = 0;
    proof {
        lemma_views(calls@);
        reveal_strlit("");
        assert(call_views(out@) =~= structured_calls(json_views(calls@).take(0)));
    }
    while i < calls.len()
        invariant
            i <= calls@.len(),
            json_views(calls@).len() == calls@.len(),
            forall|k: int| 0 <= k < calls@.len() ==> #[trigger] json_views(calls@)[k] == calls@[k]@,
            call_views(out@) == structured_calls(json_views(calls@).take(i as int)),
        decreases calls@.len() - i,
    {
        let tc = &calls[i];
        let ghost before = out@;
        proof {
            let all = json_views(calls@);
            assert(all.take(i + 1).drop_last() =~= all.take(i as int));
            assert(all.take(i + 1).last() == tc@);
        }
        let f = tc.at_key("function");
        let name = f.at_key("name").text_or("");
        if !name.as_str().is_empty() {
            let arguments = match parse(f.at_key("arguments").text_or("{}").as_str()) {
                Some(v) => v,
                None => Json::Null,
            };
            out.push(ToolCall { id: tc.at_key("id").text_or(""), name, arguments });
            proof {
                assert(call_views(out@) =~= call_views(before).push(out@.last()@));
            }
        }
        i += 1;
    }
    proof {
        assert(json_views(calls@).take(i as int) =~= json_views(calls@));
    }
    out
}

/// The media type that stands before "base64," in a data URL; no other URL has
/// one.
pub open spec fn media_type(url: Seq<char>) -> Option<Seq<char>> {
    match find_from(url, "base64,"@, 0) {
        Some(k) => if starts_with(url, "data:"@) {
            Some(trim_end_char(drop_prefixes(url.subrange(0, k), "data:"@), ';'))
        } else {
            None
        },
        None => None,
    }
}

/// The media type of a data URL.
pub fn data_url_media_type(url: &str) -> (r: Option<String>)
    ensures
        opt_view(r) == media_type(url@),
{
    let v = chars_of(url);
    proof {
        reveal_strlit("data:");
    }
    match find_chars(&v, &chars_of("base64,"), 0) {
        Some(k) => {
            if !begins(url, "data:") {
                return None;
            }
            let head = without_prefixes(&v, k, &chars_of("data:"));
            Some(trimmed_end_char(head.as_str(), ';'))
        },
        None => None,
    }
}

/// Adds an event.
pub fn emit(events: &mut Vec<StreamEvent>, e: StreamEvent)
    ensures
        event_views(final(events)@) == event_views(old(events)@).push(e@),
{
    proof {
        lemma_event_views_push(events@, e);
    }
    events.push(e);
}

/// Adds a value to a list.
pub fn add_value(values: &mut Vec<Json>, j: Json)
    ensures
        json_views(final(values)@) == json_views(old(values)@).push(j@),
{
    proof {
        lemma_views_push(values@, j);
    }
    values.push(j);
}

/// Adds a tool call to a list.
pub fn add_call(calls: &mut Vec<ToolCall>, c: ToolCall)
    ensures
        call_views(final(calls)@) == call_views(old(calls)@).push(c@),
{
    let ghost before = calls@;
    calls.push(c);
    proof {
        assert(call_views(calls@) =~= call_views(before).push(c@));
    }
}

} // verus!
