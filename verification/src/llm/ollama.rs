//! Ollama and LM Studio, through the OpenAI-compatible chat endpoint.
//!
//! Some local models write their tool calls into the reply's text. Those are
//! recovered, and a streamed reply holds back enough text that the markup of
//! such a call is never shown.
use vstd::prelude::*;

use crate::json::{Json, JsonV, empty_object, lemma_views_push, parse, parsed, views as json_views};
use crate::llm::wire::{base64_data, base64_payload, calls_array, calls_json, opt_count, opt_json, read_structured_calls,
    role_name, role_str, structured_calls, text_array, text_values, tool_values, tools_json, with_opt};
use crate::llm::provider::{BodyPlan, ChatMessage, ChatRequest, ChatResponse, ChatResponseV, ContentPart, FinishReason,
    LlmProvider, MessageContent, MessageRole, ProviderCapabilities, ProviderError, ProviderErrorV, ResponseFormat,
    TokenUsageStats, ToolCall, ToolCallV, ToolDefinition, call_views, opt_view, success, usage_of};
use crate::text::{chars_between, chars_of, concat, contains, decimal, decimal_text, find_chars, find_from,
    lemma_find_from, next_char, same, seek_char, starts_with, text_between, trim, trim_end_char, trimmed,
    trimmed_between, trimmed_end_char, views};

verus! {

// ---------------------------------------------------------------------------
// Messages
// ---------------------------------------------------------------------------

/// The texts among the parts; a line feed stands before each that follows
/// other text.
pub open spec fn spoken(parts: Seq<ContentPart>) -> Seq<char>
    decreases parts.len(),
{
    if parts.len() == 0 {
        Seq::empty()
    } else {
        let t = spoken(parts.drop_last());
        match parts.last() {
            ContentPart::Text(s) => if t.len() == 0 {
                s@
            } else {
                t.push('\n') + s@
            },
            ContentPart::Image { url } => t,
        }
    }
}

/// The inline images among the parts, in order; other images are left out.
pub open spec fn pictures(parts: Seq<ContentPart>) -> Seq<Seq<char>>
    decreases parts.len(),
{
    if parts.len() == 0 {
        Seq::empty()
    } else {
        let p = pictures(parts.drop_last());
        match parts.last() {
            ContentPart::Text(s) => p,
            ContentPart::Image { url } => match base64_data(url@) {
                Some(d) => p.push(d),
                None => p,
            },
        }
    }
}

pub open spec fn content_text(c: MessageContent) -> Seq<char> {
    match c {
        MessageContent::Text(s) => s@,
        MessageContent::Parts(parts) => spoken(parts@),
    }
}

pub open spec fn content_images(c: MessageContent) -> Seq<Seq<char>> {
    match c {
        MessageContent::Text(s) => Seq::empty(),
        MessageContent::Parts(parts) => pictures(parts@),
    }
}

/// Splits a message into its text and its inline images.
pub fn ollama_split_content(content: &MessageContent) -> (r: (String, Vec<String>))
    ensures
        r.0@ == content_text(*content),
        views(r.1@) == content_images(*content),
{
    match content {
        MessageContent::Text(s) => {
            let images: Vec<String> = Vec::new();
            proof {
                assert(views(images@) =~= Seq::<Seq<char>>::empty());
            }
            (s.clone(), images)
        },
        MessageContent::Parts(parts) => {
            let mut text = String::new();
            let mut images: Vec<String> = Vec::new();
            let mut i: usize = 0;
            proof {
                assert(views(images@) =~= Seq::<Seq<char>>::empty());
            }
            while i < parts.len()
                invariant
                    i <= parts@.len(),
                    text@ == spoken(parts@.take(i as int)),
                    views(images@) == pictures(parts@.take(i as int)),
                decreases parts@.len() - i,
            {
                proof {
                    assert(parts@.take(i + 1).drop_last() =~= parts@.take(i as int));
                    assert(parts@.take(i + 1).last() == parts@[i as int]);
                }
                match &parts[i] {
                    ContentPart::Text(s) => {
                        if !text.as_str().is_empty() {
                            text.push('\n');
                            text.append(s.as_str());
                        } else {
                            text.append(s.as_str());
                            proof {
                                assert(text@ =~= s@);
                            }
                        }
                    },
                    ContentPart::Image { url } => {
                        let ghost before = images@;
                        if let Some(d) = base64_payload(url.as_str()) {
                            images.push(d);
                            proof {
                                assert(views(images@) =~= views(before).push(d@));
                            }
                        }
                    },
                }
                i += 1;
            }
            proof {
                assert(parts@.take(i as int) =~= parts@);
            }
            (text, images)
        },
    }
}

/// The id that a tool result answers to.
pub open spec fn result_id(m: ChatMessage) -> Option<Seq<char>> {
    match m.tool_call_id {
        Some(id) => Some(id@),
        None => opt_view(m.name),
    }
}

/// A message in the form of the OpenAI schema.
pub open spec fn message_json(m: ChatMessage) -> JsonV {
    let base = empty_object().with("role"@, JsonV::Text(role_name(m.role))).with(
        "content"@,
        JsonV::Text(content_text(m.content)),
    );
    let pictured = if content_images(m.content).len() > 0 {
        base.with("images"@, JsonV::Array(text_values(content_images(m.content))))
    } else {
        base
    };
    let called = if m.role == MessageRole::Assistant && m.tool_calls@.len() > 0 {
        pictured.with("tool_calls"@, JsonV::Array(calls_json(m.tool_calls@)))
    } else {
        pictured
    };
    match result_id(m) {
        Some(id) => if m.role == MessageRole::Tool {
            called.with("tool_call_id"@, JsonV::Text(id))
        } else {
            called
        },
        None => called,
    }
}

pub open spec fn messages_json(messages: Seq<ChatMessage>) -> Seq<JsonV> {
    messages.map_values(|m: ChatMessage| message_json(m))
}

fn message_object(m: &ChatMessage) -> (r: Json)
    ensures
        r@ == message_json(*m),
{
    let (text, images) = ollama_split_content(&m.content);
    let mut msg = Json::object().with("role", Json::text(role_str(m.role))).with("content", Json::Text(text));
    if images.len() > 0 {
        proof {
            assert(views(images@).len() == images@.len());
        }
        msg = msg.with("images", text_array(&images));
    } else {
        proof {
            assert(views(images@).len() == 0);
        }
    }
    if m.role == MessageRole::Assistant && m.tool_calls.len() > 0 {
        msg = msg.with("tool_calls", calls_array(&m.tool_calls));
    }
    if m.role == MessageRole::Tool {
        match &m.tool_call_id {
            Some(id) => {
                msg = msg.with("tool_call_id", Json::text(id.as_str()));
            },
            None => {
                if let Some(id) = &m.name {
                    msg = msg.with("tool_call_id", Json::text(id.as_str()));
                }
            },
        }
    }
    msg
}

/// The conversation in the form of the OpenAI schema. An assistant's tool calls
/// and the id that each tool result answers to are carried along.
pub fn ollama_messages(messages: &Vec<ChatMessage>) -> (r: Vec<Json>)
    ensures
        json_views(r@) == messages_json(messages@),
{
    let mut out: Vec<Json> = Vec::new();
    let mut i: usize = 0;
    while i < messages.len()
        invariant
            i <= messages@.len(),
            json_views(out@) == messages_json(messages@).take(i as int),
        decreases messages@.len() - i,
    {
        let j = message_object(&messages[i]);
        proof {
            lemma_views_push(out@, j);
            assert(messages_json(messages@).take(i + 1) =~= messages_json(messages@).take(i as int).push(j@));
        }
        out.push(j);
        i += 1;
    }
    proof {
        assert(messages_json(messages@).take(i as int) =~= messages_json(messages@));
    }
    out
}

// ---------------------------------------------------------------------------
// Tool calls in the reply's text
// ---------------------------------------------------------------------------

/// A value without the one line break before it and the one after it.
pub open spec fn unwrapped(s: Seq<char>) -> Seq<char> {
    let head = if starts_with(s, "\r\n"@) {
        s.subrange(2, s.len() as int)
    } else if starts_with(s, "\n"@) {
        s.subrange(1, s.len() as int)
    } else {
        s
    };
    if crate::text::ends_with(head, "\r\n"@) {
        head.subrange(0, head.len() - 2)
    } else if crate::text::ends_with(head, "\n"@) {
        head.subrange(0, head.len() - 1)
    } else {
        head
    }
}

/// Drops one line break at each end and keeps all else, indentation included.
pub fn strip_wrapping_newlines(v: &str) -> (r: String)
    ensures
        r@ == unwrapped(v@),
{
    let s = chars_of(v);
    let n: usize = s.len();
    proof {
        reveal_strlit("\r\n");
        reveal_strlit("\n");
    }
    let from: usize = if n >= 2 && s[0] == '\r' && s[1] == '\n' {
        2
    } else if n >= 1 && s[0] == '\n' {
        1
    } else {
        0
    };
    proof {
        assert(starts_with(v@, "\r\n"@) == (n >= 2 && s@[0] == '\r' && s@[1] == '\n')) by {
            if n >= 2 {
                let sub = v@.subrange(0, 2);
                assert(sub[0] == s@[0] && sub[1] == s@[1]);
                if s@[0] == '\r' && s@[1] == '\n' {
                    assert(sub =~= "\r\n"@);
                }
            }
        }
        assert(starts_with(v@, "\n"@) == (n >= 1 && s@[0] == '\n')) by {
            if n >= 1 {
                let sub = v@.subrange(0, 1);
                assert(sub[0] == s@[0]);
                if s@[0] == '\n' {
                    assert(sub =~= "\n"@);
                }
            }
        }
    }
    let to: usize = if n >= from + 2 && s[n - 2] == '\r' && s[n - 1] == '\n' {
        n - 2
    } else if n >= from + 1 && s[n - 1] == '\n' {
        n - 1
    } else {
        n
    };
    proof {
        let head = v@.subrange(from as int, n as int);
        if from == 0 {
            assert(head =~= v@);
        }
        assert(crate::text::ends_with(head, "\r\n"@) == (n >= from + 2 && s@[n - 2] == '\r' && s@[n - 1] == '\n')) by {
            if n >= from + 2 {
                let sub = head.subrange(head.len() - 2, head.len() as int);
                assert(sub[0] == s@[n - 2] && sub[1] == s@[n - 1]);
                if s@[n - 2] == '\r' && s@[n - 1] == '\n' {
                    assert(sub =~= "\r\n"@);
                }
            }
        }
        assert(crate::text::ends_with(head, "\n"@) == (n >= from + 1 && s@[n - 1] == '\n')) by {
            if n >= from + 1 {
                let sub = head.subrange(head.len() - 1, head.len() as int);
                assert(sub[0] == s@[n - 1]);
                if s@[n - 1] == '\n' {
                    assert(sub =~= "\n"@);
                }
            }
        }
        assert(v@.subrange(from as int, to as int) =~= unwrapped(v@));
    }
    text_between(&s, from, to)
}

/// A tool call as it stands in a text: a name and its arguments.
pub struct BlockV {
    pub name: Seq<char>,
    pub arguments: JsonV,
}

/// The arguments `<parameter=KEY>VALUE</parameter>` of a block from `i` on,
/// added to `m`; a value that is not closed reaches to the end.
pub open spec fn parameters(s: Seq<char>, i: int, m: Map<Seq<char>, JsonV>) -> Map<Seq<char>, JsonV>
    decreases s.len() - i,
{
    match find_from(s, "<parameter="@, i) {
        None => m,
        Some(p) => {
            let k = p + "<parameter="@.len();
            let gt = next_char(s, '>', k);
            if i <= p && k <= gt && gt < s.len() {
                let key = trim(s.subrange(k, gt));
                match find_from(s, "</parameter>"@, gt + 1) {
                    Some(e) => if gt < e && e + "</parameter>"@.len() <= s.len() {
                        parameters(
                            s,
                            e + "</parameter>"@.len(),
                            m.insert(key, JsonV::Text(unwrapped(s.subrange(gt + 1, e)))),
                        )
                    } else {
                        m
                    },
                    None => m.insert(key, JsonV::Text(unwrapped(s.subrange(gt + 1, s.len() as int)))),
                }
            } else {
                m
            }
        },
    }
}

/// The complete blocks `<function=NAME> .. </function>` from `i` on.
pub open spec fn function_blocks(s: Seq<char>, i: int) -> Seq<BlockV>
    decreases s.len() - i,
{
    match find_from(s, "<function="@, i) {
        None => Seq::empty(),
        Some(p) => {
            let a = p + "<function="@.len();
            let gt = next_char(s, '>', a);
            if i <= p && a <= gt && gt < s.len() {
                match find_from(s, "</function>"@, gt + 1) {
                    Some(e) => if gt < e && e + "</function>"@.len() <= s.len() {
                        seq![
                            BlockV {
                                name: trim(s.subrange(a, gt)),
                                arguments: JsonV::Object(parameters(s.subrange(gt + 1, e), 0, Map::empty())),
                            },
                        ] + function_blocks(s, e + "</function>"@.len())
                    } else {
                        Seq::empty()
                    },
                    None => Seq::empty(),
                }
            } else {
                Seq::empty()
            }
        },
    }
}

/// The call that the JSON document between the tags writes: it has a name that
/// is a string, and perhaps arguments.
pub open spec fn json_block(inner: Seq<char>) -> Option<BlockV> {
    match parsed(trim(inner)) {
        None => None,
        Some(v) => match v.at_key("name"@).as_text() {
            None => None,
            Some(name) => Some(BlockV { name, arguments: v.at_key("arguments"@) }),
        },
    }
}

/// The blocks `<tool_call>JSON</tool_call>` from `i` on that write a call.
pub open spec fn json_blocks(s: Seq<char>, i: int) -> Seq<BlockV>
    decreases s.len() - i,
{
    match find_from(s, "<tool_call>"@, i) {
        None => Seq::empty(),
        Some(p) => {
            let a = p + "<tool_call>"@.len();
            match find_from(s, "</tool_call>"@, a) {
                Some(e) => if i <= p && a <= e && i < e + "</tool_call>"@.len() <= s.len() {
                    let rest = json_blocks(s, e + "</tool_call>"@.len());
                    match json_block(s.subrange(a, e)) {
                        Some(b) => seq![b] + rest,
                        None => rest,
                    }
                } else {
                    Seq::empty()
                },
                None => Seq::empty(),
            }
        },
    }
}

/// The blocks whose name is among the offered ones.
pub open spec fn offered(blocks: Seq<BlockV>, names: Seq<Seq<char>>) -> Seq<BlockV>
    decreases blocks.len(),
{
    if blocks.len() == 0 {
        Seq::empty()
    } else {
        let rest = offered(blocks.drop_last(), names);
        if names.contains(blocks.last().name) {
            rest.push(blocks.last())
        } else {
            rest
        }
    }
}

/// The blocks as calls with the ids call_0, call_1 and so on.
pub open spec fn numbered(blocks: Seq<BlockV>) -> Seq<ToolCallV> {
    Seq::new(
        blocks.len(),
        |i: int|
            ToolCallV {
                id: "call_"@ + decimal(i as nat),
                name: blocks[i].name,
                arguments: blocks[i].arguments,
            },
    )
}

/// The tool calls that a text holds: those in function blocks, then those in
/// JSON blocks, each only if its tool was offered.
pub open spec fn text_calls(s: Seq<char>, names: Seq<Seq<char>>) -> Seq<ToolCallV> {
    numbered(offered(function_blocks(s, 0), names) + offered(json_blocks(s, 0), names))
}

fn is_offered(name: &str, tool_names: &Vec<String>) -> (r: bool)
    ensures
        r == views(tool_names@).contains(name@),
{
    let mut i: usize = 0;
    while i < tool_names.len()
        invariant
            i <= tool_names@.len(),
            forall|j: int| 0 <= j < i ==> views(tool_names@)[j] != name@,
        decreases tool_names@.len() - i,
    {
        if same(tool_names[i].as_str(), name) {
            proof {
                assert(views(tool_names@)[i as int] == name@);
            }
            return true;
        }
        i += 1;
    }
    false
}

fn read_parameters(s: &Vec<char>) -> (r: Json)
    ensures
        r@ == JsonV::Object(parameters(s@, 0, Map::empty())),
{
    let open = chars_of("<parameter=");
    let close = chars_of("</parameter>");
    proof {
        reveal_strlit("<parameter=");
        reveal_strlit("</parameter>");
    }
    let mut args = Json::object();
    let mut i: usize = 0;
    loop
        invariant
            i <= s@.len(),
            open@ == "<parameter="@,
            close@ == "</parameter>"@,
            open@.len() > 0,
            close@.len() > 0,
            args@ is Object,
            parameters(s@, 0, Map::empty()) == parameters(s@, i as int, args@->Object_0),
        decreases s@.len() - i,
    {
        match find_chars(s, &open, i) {
            None => {
                return args;
            },
            Some(p) => {
                let k: usize = p + open.len();
                let gt: usize = seek_char(s, '>', k);
                if gt == s.len() {
                    return args;
                }
                let key = trimmed_between(s, k, gt);
                match find_chars(s, &close, gt + 1) {
                    Some(e) => {
                        let v = strip_wrapping_newlines(text_between(s, gt + 1, e).as_str());
                        args = args.with(key.as_str(), Json::Text(v));
                        i = e + close.len();
                    },
                    None => {
                        let v = strip_wrapping_newlines(text_between(s, gt + 1, s.len()).as_str());
                        args = args.with(key.as_str(), Json::Text(v));
                        return args;
                    },
                }
            },
        }
    }
}

fn numbered_id(n: usize) -> (r: String)
    ensures
        r@ == "call_"@ + decimal(n as nat),
{
    concat("call_", decimal_text(n as u64).as_str())
}

/// Adds a block to the calls if its tool was offered.
fn keep_block(calls: &mut Vec<ToolCall>, name: String, arguments: Json, tool_names: &Vec<String>, done: Ghost<
    Seq<BlockV>,
>, kept: Ghost<Seq<BlockV>>)
    requires
        call_views(old(calls)@) == numbered(kept@ + offered(done@, views(tool_names@))),
    ensures
        call_views(final(calls)@) == numbered(
            kept@ + offered(done@.push(BlockV { name: name@, arguments: arguments@ }), views(tool_names@)),
        ),
{
    let ghost b = BlockV { name: name@, arguments: arguments@ };
    let ghost before = calls@;
    let ghost names = views(tool_names@);
    proof {
        assert(done@.push(b).drop_last() =~= done@);
        assert(numbered(kept@ + offered(done@, names)).len() == kept@.len() + offered(done@, names).len());
        assert(call_views(before).len() == before.len());
    }
    if is_offered(name.as_str(), tool_names) {
        let id = numbered_id(calls.len());
        calls.push(ToolCall { id, name, arguments });
        proof {
            assert(kept@ + offered(done@, names).push(b) =~= (kept@ + offered(done@, names)).push(b));
            assert(call_views(calls@) =~= call_views(before).push(calls@.last()@));
            assert(call_views(calls@) =~= numbered((kept@ + offered(done@, names)).push(b)));
        }
    }
}

fn read_function_blocks(s: &Vec<char>, tool_names: &Vec<String>) -> (r: Vec<ToolCall>)
    ensures
        call_views(r@) == numbered(offered(function_blocks(s@, 0), views(tool_names@))),
{
    let open = chars_of("<function=");
    let close = chars_of("</function>");
    proof {
        reveal_strlit("<function=");
        reveal_strlit("</function>");
    }
    let mut calls: Vec<ToolCall> = Vec::new();
    let ghost mut done: Seq<BlockV> = Seq::empty();
    let mut i: usize = 0;
    proof {
        assert(call_views(calls@) =~= numbered(offered(done, views(tool_names@))));
        assert(done + function_blocks(s@, 0) =~= function_blocks(s@, 0));
    }
    loop
        invariant
            i <= s@.len(),
            open@ == "<function="@,
            close@ == "</function>"@,
            open@.len() > 0,
            close@.len() > 0,
            done + function_blocks(s@, i as int) == function_blocks(s@, 0),
            call_views(calls@) == numbered(offered(done, views(tool_names@))),
        decreases s@.len() - i,
    {
        let found = find_chars(s, &open, i);
        if found.is_none() {
            proof {
                assert(done =~= function_blocks(s@, 0));
            }
            return calls;
        }
        let p: usize = found.unwrap();
        let a: usize = p + open.len();
        let gt: usize = seek_char(s, '>', a);
        if gt == s.len() {
            proof {
                assert(done =~= function_blocks(s@, 0));
            }
            return calls;
        }
        let name = trimmed_between(s, a, gt);
        let end = find_chars(s, &close, gt + 1);
        if end.is_none() {
            proof {
                assert(done =~= function_blocks(s@, 0));
            }
            return calls;
        }
        let e: usize = end.unwrap();
        let body = chars_between(s, gt + 1, e);
        let arguments = read_parameters(&body);
        let ghost b = BlockV { name: name@, arguments: arguments@ };
        proof {
            assert(Seq::<BlockV>::empty() + offered(done, views(tool_names@)) =~= offered(done, views(tool_names@)));
        }
        keep_block(&mut calls, name, arguments, tool_names, Ghost(done), Ghost(Seq::empty()));
        proof {
            assert(Seq::<BlockV>::empty() + offered(done.push(b), views(tool_names@)) =~= offered(
                done.push(b),
                views(tool_names@),
            ));
            let next = e + close@.len();
            assert(function_blocks(s@, i as int) =~= seq![b] + function_blocks(s@, next as int));
            assert(done + (seq![b] + function_blocks(s@, next as int)) =~= done.push(b) + function_blocks(
                s@,
                next as int,
            ));
            done = done.push(b);
        }
        i = e + close.len();
    }
}

fn read_json_block(inner: &str) -> (r: Option<(String, Json)>)
    ensures
        match r {
            Some(p) => json_block(inner@) == Some(BlockV { name: p.0@, arguments: p.1@ }),
            None => json_block(inner@) is None,
        },
{
    match parse(trimmed(inner).as_str()) {
        None => None,
        Some(v) => match v.at_key("name").as_str() {
            None => None,
            Some(name) => {
                let arguments = v.at_key("arguments").copy();
                Some((name.to_owned(), arguments))
            },
        },
    }
}

/// Recovers the tool calls that a model wrote into its reply's text. Only
/// complete blocks count, and only those that name an offered tool.
pub fn parse_text_tool_calls(content: &str, tool_names: &Vec<String>) -> (r: Vec<ToolCall>)
    ensures
        call_views(r@) == text_calls(content@, views(tool_names@)),
{
    let s = chars_of(content);
    let mut calls = read_function_blocks(&s, tool_names);
    let ghost names = views(tool_names@);
    let ghost kept = offered(function_blocks(s@, 0), names);
    let ghost mut done: Seq<BlockV> = Seq::empty();
    let open = chars_of("<tool_call>");
    let close = chars_of("</tool_call>");
    proof {
        reveal_strlit("<tool_call>");
        reveal_strlit("</tool_call>");
        assert(kept + offered(done, names) =~= kept);
        assert(done + json_blocks(s@, 0) =~= json_blocks(s@, 0));
    }
    let mut i: usize = 0;
    loop
        invariant
            i <= s@.len(),
            s@ == content@,
            names == views(tool_names@),
            kept == offered(function_blocks(s@, 0), names),
            open@ == "<tool_call>"@,
            close@ == "</tool_call>"@,
            open@.len() > 0,
            close@.len() > 0,
            done + json_blocks(s@, i as int) == json_blocks(s@, 0),
            call_views(calls@) == numbered(kept + offered(done, names)),
        decreases s@.len() - i,
    {
        let found = find_chars(&s, &open, i);
        if found.is_none() {
            proof {
                assert(done =~= json_blocks(s@, 0));
            }
            return calls;
        }
        let p: usize = found.unwrap();
        let a: usize = p + open.len();
        let end = find_chars(&s, &close, a);
        if end.is_none() {
            proof {
                assert(done =~= json_blocks(s@, 0));
            }
            return calls;
        }
        let e: usize = end.unwrap();
        let inner = text_between(&s, a, e);
        let ghost next = e + close@.len();
        match read_json_block(inner.as_str()) {
            Some((name, arguments)) => {
                let ghost b = BlockV { name: name@, arguments: arguments@ };
                keep_block(&mut calls, name, arguments, tool_names, Ghost(done), Ghost(kept));
                proof {
                    assert(json_blocks(s@, i as int) =~= seq![b] + json_blocks(s@, next as int));
                    assert(done + (seq![b] + json_blocks(s@, next as int)) =~= done.push(b) + json_blocks(
                        s@,
                        next as int,
                    ));
                    done = done.push(b);
                }
            },
            None => {
                proof {
                    assert(json_blocks(s@, i as int) == json_blocks(s@, next as int));
                }
            },
        }
        i = e + close.len();
    }
}

proof fn lemma_offered(blocks: Seq<BlockV>, names: Seq<Seq<char>>)
    ensures
        forall|i: int| 0 <= i < offered(blocks, names).len() ==> names.contains(#[trigger] offered(blocks, names)[i].name),
    decreases blocks.len(),
{
    if blocks.len() > 0 {
        lemma_offered(blocks.drop_last(), names);
    }
}

/// Only offered tools are ever called: prose that mentions a marker with some
/// other name yields no call.
pub proof fn law_only_offered_tools_are_called(s: Seq<char>, names: Seq<Seq<char>>)
    ensures
        forall|i: int| 0 <= i < text_calls(s, names).len() ==> names.contains(#[trigger] text_calls(s, names)[i].name),
{
    lemma_offered(function_blocks(s, 0), names);
    lemma_offered(json_blocks(s, 0), names);
    let a = offered(function_blocks(s, 0), names);
    let b = offered(json_blocks(s, 0), names);
    assert forall|i: int| 0 <= i < text_calls(s, names).len() implies names.contains(
        #[trigger] text_calls(s, names)[i].name,
    ) by {
        if i < a.len() {
            assert((a + b)[i] == a[i]);
        } else {
            assert((a + b)[i] == b[i - a.len()]);
        }
    }
}

/// A text that holds neither marker holds no call.
pub proof fn law_no_marker_no_call(s: Seq<char>, names: Seq<Seq<char>>)
    requires
        !contains(s, "<function="@),
        !contains(s, "<tool_call>"@),
    ensures
        text_calls(s, names).len() == 0,
{
    lemma_find_from(s, "<function="@, 0);
    lemma_find_from(s, "<tool_call>"@, 0);
}

// ---------------------------------------------------------------------------
// Requests
// ---------------------------------------------------------------------------

/// The body of a request.
pub open spec fn request_json(model: Seq<char>, request: ChatRequest, stream: bool) -> JsonV {
    let b0 = empty_object().with("model"@, JsonV::Text(request.model_for(model))).with(
        "messages"@,
        JsonV::Array(messages_json(request.messages@)),
    );
    let b1 = if stream {
        b0.with("stream"@, JsonV::Bool(true))
    } else {
        b0
    };
    let b2 = with_opt(b1, "max_tokens"@, opt_count(request.max_tokens));
    let b3 = with_opt(b2, "temperature"@, opt_json(request.temperature));
    let b4 = with_opt(b3, "top_p"@, opt_json(request.top_p));
    let b5 = if request.response_format == Some(ResponseFormat::Json) {
        b4.with("format"@, JsonV::Text("json"@))
    } else {
        b4
    };
    if request.tools@.len() > 0 {
        b5.with("tools"@, JsonV::Array(tool_values(request.tools@)))
    } else {
        b5
    }
}

/// The names of the offered tools.
pub open spec fn tool_names(tools: Seq<ToolDefinition>) -> Seq<Seq<char>> {
    tools.map_values(|t: ToolDefinition| t.name@)
}

/// The names of the offered tools.
pub fn names_of(tools: &Vec<ToolDefinition>) -> (r: Vec<String>)
    ensures
        views(r@) == tool_names(tools@),
{
    let mut out: Vec<String> = Vec::new();
    let mut i: usize = 0;
    while i < tools.len()
        invariant
            i <= tools@.len(),
            views(out@) == tool_names(tools@).take(i as int),
        decreases tools@.len() - i,
    {
        let ghost before = out@;
        out.push(tools[i].name.clone());
        proof {
            assert(views(out@) =~= views(before).push(tools@[i as int].name@));
            assert(tool_names(tools@).take(i + 1) =~= tool_names(tools@).take(i as int).push(tools@[i as int].name@));
        }
        i += 1;
    }
    proof {
        assert(tool_names(tools@).take(i as int) =~= tool_names(tools@));
    }
    out
}

// ---------------------------------------------------------------------------
// Replies
// ---------------------------------------------------------------------------

/// The reply's message.
pub open spec fn reply_message(body: JsonV) -> JsonV {
    body.at_key("choices"@).at_index(0).at_key("message"@)
}

/// The tool calls of a reply: the structured ones, else those in its text.
pub open spec fn reply_calls(body: JsonV, names: Seq<Seq<char>>) -> Seq<ToolCallV> {
    let structured = match reply_message(body).at_key("tool_calls"@).as_array() {
        Some(calls) => structured_calls(calls),
        None => Seq::empty(),
    };
    if structured.len() == 0 {
        text_calls(reply_message(body).at_key("content"@).text_or(""@), names)
    } else {
        structured
    }
}

/// How a reply reads.
pub open spec fn reply_value(body: JsonV, names: Seq<Seq<char>>, model: Seq<char>) -> ChatResponseV {
    let calls = reply_calls(body, names);
    ChatResponseV {
        content: reply_message(body).at_key("content"@).text_or(""@),
        tool_calls: calls,
        finish_reason: if calls.len() > 0 {
            FinishReason::ToolUse
        } else if body.at_key("choices"@).at_index(0).at_key("finish_reason"@).as_text() == Some("length"@) {
            FinishReason::MaxTokens
        } else {
            FinishReason::Stop
        },
        usage: usage_of(
            body.at_key("usage"@).at_key("prompt_tokens"@).count(),
            body.at_key("usage"@).at_key("completion_tokens"@).count(),
        ),
        model: body.at_key("model"@).text_or(model),
        provider: "ollama"@,
    }
}

// ---------------------------------------------------------------------------
// The provider
// ---------------------------------------------------------------------------

/// A server with the OpenAI-compatible chat endpoint, and the model to use.
pub struct OllamaProvider {
    base_url: String,
    model: String,
}

impl OllamaProvider {
    /// The server's address, without a slash at its end.
    pub closed spec fn base(self) -> Seq<char> {
        self.base_url@
    }

    /// The configured model.
    pub closed spec fn chosen_model(self) -> Seq<char> {
        self.model@
    }

    /// A local Ollama instance.
    pub fn new(model: &str) -> (r: OllamaProvider)
        ensures
            r.base() == trim_end_char("http://localhost:11434"@, '/'),
            r.chosen_model() == model@,
    {
        Self::with_base_url("http://localhost:11434", model)
    }

    /// A server at some other address.
    pub fn with_base_url(base_url: &str, model: &str) -> (r: OllamaProvider)
        ensures
            r.base() == trim_end_char(base_url@, '/'),
            r.chosen_model() == model@,
    {
        OllamaProvider { base_url: trimmed_end_char(base_url, '/'), model: model.to_owned() }
    }

    /// The address that requests go to.
    pub fn endpoint(&self) -> (r: String)
        ensures
            r@ == self.base() + "/v1/chat/completions"@,
    {
        concat(self.base_url.as_str(), "/v1/chat/completions")
    }

    /// The body of a request.
    pub fn build_request_body(&self, request: &ChatRequest, stream: bool) -> (r: Json)
        ensures
            r@ == request_json(self.chosen_model(), *request, stream),
    {
        let mut body = Json::object().with("model", Json::Text(request.model_for_call(self.model.as_str()))).with(
            "messages",
            Json::Array(ollama_messages(&request.messages)),
        );
        if stream {
            body = body.with("stream", Json::Bool(true));
        }
        if let Some(max) = request.max_tokens {
            body = body.with("max_tokens", Json::number(max as u64));
        }
        if let Some(t) = &request.temperature {
            body = body.with("temperature", t.copy());
        }
        if let Some(t) = &request.top_p {
            body = body.with("top_p", t.copy());
        }
        if let Some(ResponseFormat::Json) = request.response_format {
            body = body.with("format", Json::text("json"));
        }
        if request.tools.len() > 0 {
            body = body.with("tools", tools_json(&request.tools));
        }
        body
    }

    /// What to read of a reply with this status.
    pub fn plan_body(status: u16) -> (r: BodyPlan)
        ensures
            r == if success(status) {
                BodyPlan::Json
            } else {
                BodyPlan::Text
            },
    {
        if status >= 200 && status < 300 {
            BodyPlan::Json
        } else {
            BodyPlan::Text
        }
    }

    /// The failure that a reply without success reports in its text.
    pub fn refusal(status: u16, text: String) -> (r: ProviderError)
        ensures
            r@ == ProviderErrorV::ApiError("ollama"@, status, text@),
    {
        ProviderError::ApiError { provider: "ollama".to_owned(), status, message: text }
    }

    /// Reads a successful reply, or says why its body is no JSON.
    pub fn interpret_reply(&self, request: &ChatRequest, body: Result<Json, String>) -> (r: Result<
        ChatResponse,
        ProviderError,
    >)
        ensures
            match (body, r) {
                (Ok(b), Ok(v)) => v@ == reply_value(b@, tool_names(request.tools@), self.chosen_model()),
                (Err(m), Err(e)) => e@ == ProviderErrorV::ApiError("ollama"@, 200, m@),
                _ => false,
            },
    {
        let body = match body {
            Ok(b) => b,
            Err(message) => {
                return Err(ProviderError::ApiError { provider: "ollama".to_owned(), status: 200, message });
            },
        };
        let choice = body.at_key("choices").at_index(0);
        let message = choice.at_key("message");
        let content = message.at_key("content").text_or("");
        let mut tool_calls: Vec<ToolCall> = match message.at_key("tool_calls").as_array() {
            Some(calls) => read_structured_calls(calls),
            None => Vec::new(),
        };
        proof {
            assert(call_views(tool_calls@).len() == tool_calls@.len());
            assert(message@.at_key("tool_calls"@).as_array() is None ==> call_views(tool_calls@) =~= Seq::empty());
        }
        if tool_calls.len() == 0 {
            tool_calls = parse_text_tool_calls(content.as_str(), &names_of(&request.tools));
        }
        proof {
            assert(call_views(tool_calls@) == reply_calls(body@, tool_names(request.tools@)));
            assert(call_views(tool_calls@).len() == tool_calls@.len());
        }
        let finish_reason = if tool_calls.len() > 0 {
            FinishReason::ToolUse
        } else {
            match choice.at_key("finish_reason").as_str() {
                Some(s) => if same(s, "length") {
                    FinishReason::MaxTokens
                } else {
                    FinishReason::Stop
                },
                None => FinishReason::Stop,
            }
        };
        let usage = body.at_key("usage");
        Ok(
            ChatResponse {
                content,
                tool_calls,
                finish_reason,
                usage: TokenUsageStats::new(
                    usage.at_key("prompt_tokens").count(),
                    usage.at_key("completion_tokens").count(),
                ),
                model: body.at_key("model").text_or(self.model.as_str()),
                provider: "ollama".to_owned(),
            },
        )
    }
}

impl LlmProvider for OllamaProvider {
    open spec fn id_view(&self) -> Seq<char> {
        "ollama"@
    }

    open spec fn model_view(&self) -> Seq<char> {
        self.chosen_model()
    }

    open spec fn abilities(&self) -> ProviderCapabilities {
        ProviderCapabilities {
            streaming: true,
            tool_calling: true,
            structured_output: false,
            vision: false,
            reasoning: false,
            embeddings: false,
            max_context_tokens: 128_000,
            max_output_tokens: 4_096,
        }
    }

    fn provider_id(&self) -> (r: &str) {
        "ollama"
    }

    fn model_id(&self) -> (r: &str) {
        self.model.as_str()
    }

    fn capabilities(&self) -> (r: ProviderCapabilities) {
        ProviderCapabilities {
            streaming: true,
            tool_calling: true,
            structured_output: false,
            vision: false,
            reasoning: false,
            embeddings: false,
            max_context_tokens: 128_000,
            max_output_tokens: 4_096,
        }
    }
}

/// The tools of a request reach the model, all of them, and a request without
/// tools mentions none.
pub proof fn law_tools_reach_the_model(model: Seq<char>, request: ChatRequest, stream: bool)
    ensures
        request.tools@.len() > 0 ==> request_json(model, request, stream).field("tools"@) == Some(JsonV::Array(tool_values(request.tools@))),
        request.tools@.len() == 0 ==> request_json(model, request, stream).field("tools"@) is None,
{
    reveal_strlit("tools");
    reveal_strlit("model");
    reveal_strlit("messages");
    reveal_strlit("stream");
    reveal_strlit("max_tokens");
    reveal_strlit("temperature");
    reveal_strlit("top_p");
    reveal_strlit("format");
    assert("model"@ != "tools"@) by {
        assert("model"@[0] != "tools"@[0]);
    };
    assert("messages"@.len() != "tools"@.len());
    assert("stream"@.len() != "tools"@.len());
    assert("max_tokens"@.len() != "tools"@.len());
    assert("temperature"@.len() != "tools"@.len());
    assert("top_p"@ != "tools"@) by {
        assert("top_p"@[2] != "tools"@[2]);
    };
    assert("format"@.len() != "tools"@.len());
}

} // verus!
