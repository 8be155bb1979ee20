//! Anthropic's models, through the Messages API.
use vstd::prelude::*;

use crate::json::{Json, JsonV, empty_object, lemma_views, number_of_u64, parse_error, parsed, read, views as json_views};
use crate::llm::provider::{BodyPlan, ChatMessage, ChatRequest, ChatResponse, ChatResponseV, ContentPart, FinishReason,
    LlmProvider, MessageContent, MessageRole, ProviderCapabilities, ProviderError, ProviderErrorV, StreamEvent,
    StreamEventV, TokenUsageStats, ToolCall, ToolCallV, ToolDefinition, call_views, event_views, flat_text,
    flatten_text, opt_view, success, usage_of};
use crate::llm::wire::{add_call, add_value, base64_data, base64_payload, data_url_media_type, emit, media_type,
    opt_json, with_opt};
use crate::text::{concat, contains, has, same};

verus! {

pub const ANTHROPIC_API_URL: &'static str = "https://api.anthropic.com/v1/messages";

pub const ANTHROPIC_VERSION: &'static str = "2023-06-01";

// ---------------------------------------------------------------------------
// Requests
// ---------------------------------------------------------------------------

/// A part of a message as a content block; an image that is not inline has
/// none.
pub open spec fn block_value(p: ContentPart) -> Option<JsonV> {
    match p {
        ContentPart::Text(s) => Some(
            empty_object().with("type"@, JsonV::Text("text"@)).with("text"@, JsonV::Text(s@)),
        ),
        ContentPart::Image { url } => match (media_type(url@), base64_data(url@)) {
            (Some(mime), Some(data)) => Some(
                empty_object().with("type"@, JsonV::Text("image"@)).with(
                    "source"@,
                    empty_object().with("type"@, JsonV::Text("base64"@)).with("media_type"@, JsonV::Text(mime)).with(
                        "data"@,
                        JsonV::Text(data),
                    ),
                ),
            ),
            _ => None,
        },
    }
}

pub open spec fn block_values(parts: Seq<ContentPart>) -> Seq<JsonV>
    decreases parts.len(),
{
    if parts.len() == 0 {
        Seq::empty()
    } else {
        match block_value(parts.last()) {
            Some(v) => block_values(parts.drop_last()).push(v),
            None => block_values(parts.drop_last()),
        }
    }
}

/// The parts of a message as content blocks.
pub fn anthropic_content_blocks(parts: &Vec<ContentPart>) -> (r: Vec<Json>)
    ensures
        json_views(r@) == block_values(parts@),
{
    let mut out: Vec<Json> = Vec::new();
    let mut i: usize = 0;
    while i < parts.len()
        invariant
            i <= parts@.len(),
            json_views(out@) == block_values(parts@.take(i as int)),
        decreases parts@.len() - i,
    {
        proof {
            assert(parts@.take(i + 1).drop_last() =~= parts@.take(i as int));
            assert(parts@.take(i + 1).last() == parts@[i as int]);
        }
        match &parts[i] {
            ContentPart::Text(s) => {
                add_value(
                    &mut out,
                    Json::object().with("type", Json::text("text")).with("text", Json::text(s.as_str())),
                );
            },
            ContentPart::Image { url } => {
                match (data_url_media_type(url.as_str()), base64_payload(url.as_str())) {
                    (Some(mime), Some(data)) => {
                        let source = Json::object().with("type", Json::text("base64")).with(
                            "media_type",
                            Json::Text(mime),
                        ).with("data", Json::Text(data));
                        add_value(
                            &mut out,
                            Json::object().with("type", Json::text("image")).with("source", source),
                        );
                    },
                    _ => {},
                }
            },
        }
        i += 1;
    }
    proof {
        assert(parts@.take(i as int) =~= parts@);
    }
    out
}

pub open spec fn message_object(role: Seq<char>, content: JsonV) -> JsonV {
    empty_object().with("role"@, JsonV::Text(role)).with("content"@, content)
}

/// The content blocks of a user's message of parts.
pub open spec fn user_blocks(m: ChatMessage) -> Seq<JsonV> {
    match m.content {
        MessageContent::Parts(parts) => if m.role == MessageRole::User {
            block_values(parts@)
        } else {
            Seq::empty()
        },
        MessageContent::Text(s) => Seq::empty(),
    }
}

/// A message in Anthropic's form; a system prompt is none. A tool result is a
/// user's message.
pub open spec fn message_value(m: ChatMessage) -> Option<JsonV> {
    let text = flat_text(m.content);
    if user_blocks(m).len() > 0 {
        Some(message_object("user"@, JsonV::Array(user_blocks(m))))
    } else {
        match m.role {
            MessageRole::System => None,
            MessageRole::User => Some(message_object("user"@, JsonV::Text(text))),
            MessageRole::Assistant => Some(message_object("assistant"@, JsonV::Text(text))),
            MessageRole::Tool => Some(
                message_object(
                    "user"@,
                    JsonV::Array(
                        seq![
                            empty_object().with("type"@, JsonV::Text("tool_result"@)).with(
                                "tool_use_id"@,
                                JsonV::Text(
                                    match m.name {
                                        Some(n) => n@,
                                        None => Seq::empty(),
                                    },
                                ),
                            ).with("content"@, JsonV::Text(text)),
                        ],
                    ),
                ),
            ),
        }
    }
}

pub open spec fn message_values(messages: Seq<ChatMessage>) -> Seq<JsonV>
    decreases messages.len(),
{
    if messages.len() == 0 {
        Seq::empty()
    } else {
        match message_value(messages.last()) {
            Some(v) => message_values(messages.drop_last()).push(v),
            None => message_values(messages.drop_last()),
        }
    }
}

/// The last system prompt of a conversation.
pub open spec fn system_prompt(messages: Seq<ChatMessage>) -> Option<Seq<char>>
    decreases messages.len(),
{
    if messages.len() == 0 {
        None
    } else if messages.last().role == MessageRole::System {
        Some(flat_text(messages.last().content))
    } else {
        system_prompt(messages.drop_last())
    }
}

/// A tool in Anthropic's form.
pub open spec fn tool_value(t: ToolDefinition) -> JsonV {
    empty_object().with("name"@, JsonV::Text(t.name@)).with("description"@, JsonV::Text(t.description@)).with(
        "input_schema"@,
        t.parameters@,
    )
}

pub open spec fn tool_values(tools: Seq<ToolDefinition>) -> Seq<JsonV> {
    tools.map_values(|t: ToolDefinition| tool_value(t))
}

pub open spec fn opt_text(s: Option<Seq<char>>) -> Option<JsonV> {
    match s {
        Some(s) => Some(JsonV::Text(s)),
        None => None,
    }
}

/// The body of a request.
pub open spec fn request_value(model: Seq<char>, request: ChatRequest, stream: bool) -> JsonV {
    let max = match request.max_tokens {
        Some(n) => n,
        None => 4096,
    };
    let b0 = empty_object().with("model"@, JsonV::Text(request.model_for(model))).with(
        "messages"@,
        JsonV::Array(message_values(request.messages@)),
    ).with("max_tokens"@, JsonV::Number(number_of_u64(max as u64)));
    let b1 = with_opt(b0, "system"@, opt_text(system_prompt(request.messages@)));
    let b2 = with_opt(b1, "temperature"@, opt_json(request.temperature));
    let b3 = if request.tools@.len() > 0 {
        b2.with("tools"@, JsonV::Array(tool_values(request.tools@)))
    } else {
        b2
    };
    if stream {
        b3.with("stream"@, JsonV::Bool(true))
    } else {
        b3
    }
}

fn read_message(m: &ChatMessage) -> (r: Option<Json>)
    ensures
        opt_json(r) == message_value(*m),
{
    if m.role == MessageRole::User {
        if let MessageContent::Parts(parts) = &m.content {
            let blocks = anthropic_content_blocks(parts);
            proof {
                lemma_views(blocks@);
            }
            if blocks.len() > 0 {
                return Some(Json::object().with("role", Json::text("user")).with("content", Json::Array(blocks)));
            }
        }
    }
    let text = flatten_text(&m.content);
    match m.role {
        MessageRole::System => None,
        MessageRole::User => Some(
            Json::object().with("role", Json::text("user")).with("content", Json::Text(text)),
        ),
        MessageRole::Assistant => Some(
            Json::object().with("role", Json::text("assistant")).with("content", Json::Text(text)),
        ),
        MessageRole::Tool => {
            let id = match &m.name {
                Some(n) => n.clone(),
                None => String::new(),
            };
            let block = Json::object().with("type", Json::text("tool_result")).with(
                "tool_use_id",
                Json::Text(id),
            ).with("content", Json::Text(text));
            let mut v: Vec<Json> = Vec::new();
            add_value(&mut v, block);
            proof {
                assert(json_views(v@) =~= seq![block@]);
            }
            Some(Json::object().with("role", Json::text("user")).with("content", Json::Array(v)))
        },
    }
}

fn tools_array(tools: &Vec<ToolDefinition>) -> (r: Json)
    ensures
        r@ == JsonV::Array(tool_values(tools@)),
{
    let mut out: Vec<Json> = Vec::new();
    let mut i: usize = 0;
    while i < tools.len()
        invariant
            i <= tools@.len(),
            json_views(out@) == tool_values(tools@).take(i as int),
        decreases tools@.len() - i,
    {
        let t = &tools[i];
        let j = Json::object().with("name", Json::text(t.name.as_str())).with(
            "description",
            Json::text(t.description.as_str()),
        ).with("input_schema", t.parameters.copy());
        proof {
            assert(tool_values(tools@).take(i + 1) =~= tool_values(tools@).take(i as int).push(j@));
        }
        add_value(&mut out, j);
        i += 1;
    }
    proof {
        assert(tool_values(tools@).take(i as int) =~= tool_values(tools@));
    }
    Json::Array(out)
}

// ---------------------------------------------------------------------------
// Replies
// ---------------------------------------------------------------------------

/// The blocks of a reply.
pub open spec fn reply_blocks(body: JsonV) -> Seq<JsonV> {
    match body.at_key("content"@).as_array() {
        Some(blocks) => blocks,
        None => Seq::empty(),
    }
}

pub open spec fn block_is(b: JsonV, kind: Seq<char>) -> bool {
    b.at_key("type"@).as_text() == Some(kind)
}

/// The text of the first text block from `i` on that has a text.
pub open spec fn first_text(blocks: Seq<JsonV>, i: int) -> Seq<char>
    decreases blocks.len() - i,
{
    if i < 0 || i >= blocks.len() {
        Seq::empty()
    } else if block_is(blocks[i], "text"@) && blocks[i].at_key("text"@) is Text {
        blocks[i].at_key("text"@)->Text_0
    } else {
        first_text(blocks, i + 1)
    }
}

/// The tool calls among the blocks.
pub open spec fn block_calls(blocks: Seq<JsonV>) -> Seq<ToolCallV>
    decreases blocks.len(),
{
    if blocks.len() == 0 {
        Seq::empty()
    } else {
        let rest = block_calls(blocks.drop_last());
        let b = blocks.last();
        if block_is(b, "tool_use"@) {
            rest.push(
                ToolCallV {
                    id: b.at_key("id"@).text_or(""@),
                    name: b.at_key("name"@).text_or(""@),
                    arguments: b.at_key("input"@),
                },
            )
        } else {
            rest
        }
    }
}

pub open spec fn finish_of(reason: Seq<char>) -> FinishReason {
    if reason == "tool_use"@ {
        FinishReason::ToolUse
    } else if reason == "max_tokens"@ {
        FinishReason::MaxTokens
    } else {
        FinishReason::Stop
    }
}

fn read_finish(reason: &str) -> (r: FinishReason)
    ensures
        r == finish_of(reason@),
{
    if same(reason, "tool_use") {
        FinishReason::ToolUse
    } else if same(reason, "max_tokens") {
        FinishReason::MaxTokens
    } else {
        FinishReason::Stop
    }
}

/// How a complete reply reads.
pub open spec fn reply_value(body: JsonV, model: Seq<char>) -> ChatResponseV {
    ChatResponseV {
        content: first_text(reply_blocks(body), 0),
        tool_calls: block_calls(reply_blocks(body)),
        finish_reason: finish_of(body.at_key("stop_reason"@).text_or("end_turn"@)),
        usage: usage_of(
            body.at_key("usage"@).at_key("input_tokens"@).count(),
            body.at_key("usage"@).at_key("output_tokens"@).count(),
        ),
        model: body.at_key("model"@).text_or(model),
        provider: "anthropic"@,
    }
}

fn has_type(b: &Json, kind: &str) -> (r: bool)
    ensures
        r == block_is(b@, kind@),
{
    match b.at_key("type").as_str() {
        Some(t) => same(t, kind),
        None => false,
    }
}

// ---------------------------------------------------------------------------
// Streams
// ---------------------------------------------------------------------------

/// What one event of a stream brings.
pub struct StepV {
    /// The id of the tool call that is being streamed.
    pub tool_id: Seq<char>,
    pub events: Seq<StreamEventV>,
    /// Whether the stream is over.
    pub over: bool,
}

/// The event begins a block.
pub open spec fn on_block_start(tool_id: Seq<char>, data: JsonV) -> StepV {
    let block = data.at_key("content_block"@);
    if block_is(block, "tool_use"@) {
        let id = block.at_key("id"@).text_or(""@);
        StepV {
            tool_id: id,
            events: seq![StreamEventV::ToolCallDelta(None, id, block.at_key("name"@).as_text(), Seq::empty())],
            over: false,
        }
    } else {
        StepV { tool_id, events: Seq::empty(), over: false }
    }
}

/// The event continues a block.
pub open spec fn delta_events(tool_id: Seq<char>, delta: JsonV) -> Seq<StreamEventV> {
    let kind = delta.at_key("type"@).text_or(""@);
    if kind == "text_delta"@ {
        match delta.at_key("text"@).as_text() {
            Some(t) => seq![StreamEventV::TextDelta(t)],
            None => Seq::empty(),
        }
    } else if kind == "thinking_delta"@ {
        match delta.at_key("thinking"@).as_text() {
            Some(t) => seq![StreamEventV::ReasoningDelta(t)],
            None => Seq::empty(),
        }
    } else if kind == "input_json_delta"@ {
        match delta.at_key("partial_json"@).as_text() {
            Some(t) => seq![StreamEventV::ToolCallDelta(None, tool_id, None, t)],
            None => Seq::empty(),
        }
    } else {
        Seq::empty()
    }
}

/// The event tells the tokens written and why the reply ended.
pub open spec fn message_delta_events(data: JsonV) -> Seq<StreamEventV> {
    let used = match data.field("usage"@) {
        Some(u) => seq![StreamEventV::Usage(usage_of(0, u.at_key("output_tokens"@).count()))],
        None => Seq::empty(),
    };
    match data.at_key("delta"@).at_key("stop_reason"@).as_text() {
        Some(reason) => used.push(StreamEventV::Done(finish_of(reason))),
        None => used,
    }
}

/// The event tells the tokens read.
pub open spec fn message_start_events(data: JsonV) -> Seq<StreamEventV> {
    let u = data.at_key("message"@).at_key("usage"@);
    if u is Object {
        seq![StreamEventV::Usage(usage_of(u.at_key("input_tokens"@).count(), 0))]
    } else {
        Seq::empty()
    }
}

/// One event of a stream, while the call `tool_id` is being streamed: what it
/// brings, or the failure that it reports.
pub open spec fn on_event(tool_id: Seq<char>, data: JsonV) -> Result<StepV, Seq<char>> {
    let kind = data.at_key("type"@).text_or(""@);
    let keep = StepV { tool_id, events: Seq::empty(), over: false };
    if kind == "content_block_start"@ {
        Ok(on_block_start(tool_id, data))
    } else if kind == "content_block_delta"@ {
        Ok(StepV { events: delta_events(tool_id, data.at_key("delta"@)), ..keep })
    } else if kind == "message_delta"@ {
        Ok(StepV { events: message_delta_events(data), ..keep })
    } else if kind == "message_start"@ {
        Ok(StepV { events: message_start_events(data), ..keep })
    } else if kind == "message_stop"@ {
        Ok(StepV { over: true, ..keep })
    } else if kind == "error"@ {
        Err(data.at_key("error"@).at_key("message"@).text_or("Unknown streaming error"@))
    } else {
        Ok(keep)
    }
}

/// A streamed reply that is being read.
pub struct AnthropicStream {
    tool_id: String,
}

/// What one event of a stream brought.
pub struct StreamStep {
    pub events: Vec<StreamEvent>,
    /// Whether the stream is over.
    pub over: bool,
}

impl AnthropicStream {
    /// The id of the tool call that is being streamed.
    pub closed spec fn current(self) -> Seq<char> {
        self.tool_id@
    }

    /// A reply of which nothing has been read.
    pub fn new() -> (r: AnthropicStream)
        ensures
            r.current() == Seq::<char>::empty(),
    {
        AnthropicStream { tool_id: String::new() }
    }

    fn block_starts(&mut self, data: &Json) -> (events: Vec<StreamEvent>)
        ensures
            ({
                let s = on_block_start(old(self).current(), data@);
                final(self).current() == s.tool_id && event_views(events@) == s.events
            }),
    {
        let mut events: Vec<StreamEvent> = Vec::new();
        let block = data.at_key("content_block");
        if has_type(block, "tool_use") {
            self.tool_id = block.at_key("id").text_or("");
            let name = match block.at_key("name").as_str() {
                Some(s) => Some(s.to_owned()),
                None => None,
            };
            emit(
                &mut events,
                StreamEvent::ToolCallDelta { index: None, id: self.tool_id.clone(), name, args_delta: String::new() },
            );
        }
        proof {
            assert(event_views(events@) =~= on_block_start(old(self).current(), data@).events);
        }
        events
    }

    fn block_continues(&self, delta: &Json) -> (events: Vec<StreamEvent>)
        ensures
            event_views(events@) == delta_events(self.current(), delta@),
    {
        let mut events: Vec<StreamEvent> = Vec::new();
        let kind = delta.at_key("type").text_or("");
        if same(kind.as_str(), "text_delta") {
            if let Some(t) = delta.at_key("text").as_str() {
                emit(&mut events, StreamEvent::TextDelta { delta: t.to_owned() });
            }
        } else if same(kind.as_str(), "thinking_delta") {
            if let Some(t) = delta.at_key("thinking").as_str() {
                emit(&mut events, StreamEvent::ReasoningDelta { delta: t.to_owned() });
            }
        } else if same(kind.as_str(), "input_json_delta") {
            if let Some(t) = delta.at_key("partial_json").as_str() {
                emit(
                    &mut events,
                    StreamEvent::ToolCallDelta {
                        index: None,
                        id: self.tool_id.clone(),
                        name: None,
                        args_delta: t.to_owned(),
                    },
                );
            }
        }
        proof {
            assert(event_views(events@) =~= delta_events(self.current(), delta@));
        }
        events
    }

    fn message_ends(data: &Json) -> (events: Vec<StreamEvent>)
        ensures
            event_views(events@) == message_delta_events(data@),
    {
        let mut events: Vec<StreamEvent> = Vec::new();
        if let Some(usage) = data.get("usage") {
            emit(
                &mut events,
                StreamEvent::Usage(TokenUsageStats::new(0, usage.at_key("output_tokens").count())),
            );
        }
        if let Some(reason) = data.at_key("delta").at_key("stop_reason").as_str() {
            emit(&mut events, StreamEvent::Done { finish_reason: read_finish(reason) });
        }
        proof {
            assert(event_views(events@) =~= message_delta_events(data@));
        }
        events
    }

    fn message_starts(data: &Json) -> (events: Vec<StreamEvent>)
        ensures
            event_views(events@) == message_start_events(data@),
    {
        let mut events: Vec<StreamEvent> = Vec::new();
        let usage = data.at_key("message").at_key("usage");
        if usage.is_object() {
            emit(
                &mut events,
                StreamEvent::Usage(TokenUsageStats::new(usage.at_key("input_tokens").count(), 0)),
            );
        }
        proof {
            assert(event_views(events@) =~= message_start_events(data@));
        }
        events
    }

    /// Reads one event of the stream.
    pub fn read_event(&mut self, data: &Json) -> (r: Result<StreamStep, ProviderError>)
        ensures
            match (r, on_event(old(self).current(), data@)) {
                (Ok(step), Ok(s)) => {
                    &&& event_views(step.events@) == s.events
                    &&& step.over == s.over
                    &&& final(self).current() == s.tool_id
                },
                (Err(e), Err(m)) => e@ == ProviderErrorV::Stream(m) && final(self).current() == old(self).current(),
                _ => false,
            },
    {
        let kind = data.at_key("type").text_or("");
        let none: Vec<StreamEvent> = Vec::new();
        proof {
            assert(event_views(none@) =~= Seq::<StreamEventV>::empty());
        }
        if same(kind.as_str(), "content_block_start") {
            Ok(StreamStep { events: self.block_starts(data), over: false })
        } else if same(kind.as_str(), "content_block_delta") {
            Ok(StreamStep { events: self.block_continues(data.at_key("delta")), over: false })
        } else if same(kind.as_str(), "message_delta") {
            Ok(StreamStep { events: Self::message_ends(data), over: false })
        } else if same(kind.as_str(), "message_start") {
            Ok(StreamStep { events: Self::message_starts(data), over: false })
        } else if same(kind.as_str(), "message_stop") {
            Ok(StreamStep { events: none, over: true })
        } else if same(kind.as_str(), "error") {
            Err(ProviderError::Stream(data.at_key("error").at_key("message").text_or("Unknown streaming error")))
        } else {
            Ok(StreamStep { events: none, over: false })
        }
    }

    /// Reads the text of one event of the stream.
    pub fn read_message(&mut self, text: &str) -> (r: Result<StreamStep, ProviderError>)
        ensures
            match parsed(text@) {
                None => r is Err && r->Err_0@ == ProviderErrorV::Stream("JSON parse: "@ + parse_error(text@))
                    && final(self).current() == old(self).current(),
                Some(data) => match (r, on_event(old(self).current(), data)) {
                    (Ok(step), Ok(s)) => {
                        &&& event_views(step.events@) == s.events
                        &&& step.over == s.over
                        &&& final(self).current() == s.tool_id
                    },
                    (Err(e), Err(m)) => e@ == ProviderErrorV::Stream(m) && final(self).current() == old(
                        self,
                    ).current(),
                    _ => false,
                },
            },
    {
        match read(text) {
            Ok(data) => self.read_event(&data),
            Err(e) => Err(ProviderError::Stream(concat("JSON parse: ", e.as_str()))),
        }
    }
}

// ---------------------------------------------------------------------------
// The provider
// ---------------------------------------------------------------------------

/// An Anthropic model.
pub struct AnthropicProvider {
    api_key: String,
    model: String,
}

impl AnthropicProvider {
    pub closed spec fn key(self) -> Seq<char> {
        self.api_key@
    }

    pub closed spec fn chosen_model(self) -> Seq<char> {
        self.model@
    }

    pub fn new(api_key: &str, model: &str) -> (r: AnthropicProvider)
        ensures
            r.key() == api_key@,
            r.chosen_model() == model@,
    {
        AnthropicProvider { api_key: api_key.to_owned(), model: model.to_owned() }
    }

    /// The key that the requests carry in a header.
    pub fn api_key(&self) -> (r: &str)
        ensures
            r@ == self.key(),
    {
        self.api_key.as_str()
    }

    /// The body of a request.
    pub fn build_request_body(&self, request: &ChatRequest, stream: bool) -> (r: Json)
        ensures
            r@ == request_value(self.chosen_model(), *request, stream),
    {
        let mut system: Option<String> = None;
        let mut messages: Vec<Json> = Vec::new();
        let mut i: usize = 0;
        while i < request.messages.len()
            invariant
                i <= request.messages@.len(),
                opt_view(system) == system_prompt(request.messages@.take(i as int)),
                json_views(messages@) == message_values(request.messages@.take(i as int)),
            decreases request.messages@.len() - i,
        {
            let m = &request.messages[i];
            proof {
                let all = request.messages@;
                assert(all.take(i + 1).drop_last() =~= all.take(i as int));
                assert(all.take(i + 1).last() == *m);
            }
            if m.role == MessageRole::System {
                system = Some(flatten_text(&m.content));
            }
            if let Some(v) = read_message(m) {
                add_value(&mut messages, v);
            }
            i += 1;
        }
        proof {
            assert(request.messages@.take(i as int) =~= request.messages@);
        }
        let max: usize = match request.max_tokens {
            Some(n) => n,
            None => 4096,
        };
        let mut body = Json::object().with("model", Json::Text(request.model_for_call(self.model.as_str()))).with(
            "messages",
            Json::Array(messages),
        ).with("max_tokens", Json::number(max as u64));
        if let Some(sys) = system {
            body = body.with("system", Json::Text(sys));
        }
        if let Some(t) = &request.temperature {
            body = body.with("temperature", t.copy());
        }
        if request.tools.len() > 0 {
            body = body.with("tools", tools_array(&request.tools));
        }
        if stream {
            body = body.with("stream", Json::Bool(true));
        }
        body
    }

    /// What to read of a reply with this status.
    pub fn plan_body(status: u16) -> (r: BodyPlan)
        ensures
            match r {
                BodyPlan::Fail(e) => (status == 429 && e@ == ProviderErrorV::RateLimited("anthropic"@, None)) || (status
                    == 401 && e@ == ProviderErrorV::AuthError("anthropic"@)),
                BodyPlan::Text => false,
                BodyPlan::Json => status != 429 && status != 401,
            },
    {
        if status == 429 {
            BodyPlan::Fail(ProviderError::RateLimited { provider: "anthropic".to_owned(), retry_after_secs: None })
        } else if status == 401 {
            BodyPlan::Fail(ProviderError::AuthError { provider: "anthropic".to_owned() })
        } else {
            BodyPlan::Json
        }
    }

    /// Reads a reply: its value, the failure that it reports, or why its body is
    /// no JSON.
    pub fn interpret_reply(&self, status: u16, body: Result<Json, String>) -> (r: Result<ChatResponse, ProviderError>)
        ensures
            match (body, r) {
                (Ok(b), Ok(v)) => success(status) && v@ == reply_value(b@, self.chosen_model()),
                (Ok(b), Err(e)) => !success(status) && e@ == ProviderErrorV::ApiError(
                    "anthropic"@,
                    status,
                    b@.at_key("error"@).at_key("message"@).text_or("Unknown error"@),
                ),
                (Err(m), Err(e)) => e@ == ProviderErrorV::ApiError("anthropic"@, status, m@),
                (Err(m), Ok(v)) => false,
            },
    {
        let body = match body {
            Ok(b) => b,
            Err(message) => {
                return Err(ProviderError::ApiError { provider: "anthropic".to_owned(), status, message });
            },
        };
        if status < 200 || status >= 300 {
            return Err(
                ProviderError::ApiError {
                    provider: "anthropic".to_owned(),
                    status,
                    message: body.at_key("error").at_key("message").text_or("Unknown error"),
                },
            );
        }
        let mut content: Option<String> = None;
        let mut tool_calls: Vec<ToolCall> = Vec::new();
        proof {
            assert(call_views(tool_calls@) =~= Seq::<ToolCallV>::empty());
        }
        if let Some(blocks) = body.at_key("content").as_array() {
            let ghost all = json_views(blocks@);
            let mut i: usize = 0;
            proof {
                lemma_views(blocks@);
            }
            while i < blocks.len()
                invariant
                    i <= blocks@.len(),
                    all == json_views(blocks@),
                    all.len() == blocks@.len(),
                    forall|k: int| 0 <= k < blocks@.len() ==> #[trigger] json_views(blocks@)[k] == blocks@[k]@,
                    match content {
                        Some(t) => first_text(all, 0) == t@,
                        None => first_text(all, 0) == first_text(all, i as int),
                    },
                    call_views(tool_calls@) == block_calls(all.take(i as int)),
                decreases blocks@.len() - i,
            {
                let b = &blocks[i];
                proof {
                    assert(all.take(i + 1).drop_last() =~= all.take(i as int));
                    assert(all.take(i + 1).last() == b@);
                    assert(all[i as int] == b@);
                }
                if content.is_none() && has_type(b, "text") {
                    if let Some(t) = b.at_key("text").as_str() {
                        content = Some(t.to_owned());
                    }
                }
                if has_type(b, "tool_use") {
                    add_call(
                        &mut tool_calls,
                        ToolCall {
                            id: b.at_key("id").text_or(""),
                            name: b.at_key("name").text_or(""),
                            arguments: b.at_key("input").copy(),
                        },
                    );
                }
                i += 1;
            }
            proof {
                assert(all.take(i as int) =~= all);
            }
        }
        let content = match content {
            Some(t) => t,
            None => String::new(),
        };
        let usage = body.at_key("usage");
        Ok(
            ChatResponse {
                content,
                tool_calls,
                finish_reason: read_finish(body.at_key("stop_reason").text_or("end_turn").as_str()),
                usage: TokenUsageStats::new(
                    usage.at_key("input_tokens").count(),
                    usage.at_key("output_tokens").count(),
                ),
                model: body.at_key("model").text_or(self.model.as_str()),
                provider: "anthropic".to_owned(),
            },
        )
    }
}

impl LlmProvider for AnthropicProvider {
    open spec fn id_view(&self) -> Seq<char> {
        "anthropic"@
    }

    open spec fn model_view(&self) -> Seq<char> {
        self.chosen_model()
    }

    open spec fn abilities(&self) -> ProviderCapabilities {
        ProviderCapabilities {
            streaming: true,
            tool_calling: true,
            structured_output: true,
            vision: contains(self.chosen_model(), "sonnet"@) || contains(self.chosen_model(), "opus"@),
            reasoning: contains(self.chosen_model(), "opus"@),
            embeddings: false,
            max_context_tokens: 200_000,
            max_output_tokens: 64_000,
        }
    }

    fn provider_id(&self) -> (r: &str) {
        "anthropic"
    }

    fn model_id(&self) -> (r: &str) {
        self.model.as_str()
    }

    fn capabilities(&self) -> (r: ProviderCapabilities) {
        ProviderCapabilities {
            streaming: true,
            tool_calling: true,
            structured_output: true,
            vision: has(self.model.as_str(), "sonnet") || has(self.model.as_str(), "opus"),
            reasoning: has(self.model.as_str(), "opus"),
            embeddings: false,
            max_context_tokens: 200_000,
            max_output_tokens: 64_000,
        }
    }
}

/// The tools of a request reach the model, all of them, and a request without
/// tools mentions none.
pub proof fn law_tools_reach_the_model(model: Seq<char>, request: ChatRequest, stream: bool)
    ensures
        request.tools@.len() > 0 ==> request_value(model, request, stream).field("tools"@) == Some(JsonV::Array(tool_values(request.tools@))),
        request.tools@.len() == 0 ==> request_value(model, request, stream).field("tools"@) is None,
{
    reveal_strlit("tools");
    reveal_strlit("model");
    reveal_strlit("messages");
    reveal_strlit("max_tokens");
    reveal_strlit("system");
    reveal_strlit("temperature");
    reveal_strlit("stream");
    assert("model"@ != "tools"@) by {
        assert("model"@[0] != "tools"@[0]);
    };
    assert("messages"@.len() != "tools"@.len());
    assert("max_tokens"@.len() != "tools"@.len());
    assert("system"@.len() != "tools"@.len());
    assert("temperature"@.len() != "tools"@.len());
    assert("stream"@.len() != "tools"@.len());
}

} // verus!
