//! Google Gemini, through the generateContent API.
use vstd::prelude::*;

use crate::json::{Json, JsonV, empty_object, lemma_views, parse, parsed, render, rendered, views as json_views};
use crate::llm::provider::{BodyPlan, ChatMessage, ChatRequest, ChatResponse, ChatResponseV, ContentPart, FinishReason,
    LlmProvider, MessageContent, MessageRole, ProviderCapabilities, ProviderError, ProviderErrorV, ResponseFormat,
    StreamEvent, StreamEventV, TokenUsageStats, ToolCall, ToolCallV, ToolDefinition, call_views, event_views, flat_text,
    flatten_text, opt_view, success, usage_of};
use crate::llm::wire::{add_call, add_value, base64_data, base64_payload, data_url_media_type, emit, media_type,
    opt_count, opt_json, with_opt};
use crate::text::{concat, contains, has, same};

verus! {

/// Function calling and system instructions are served by this version of the
/// API only.
pub const GEMINI_API_BASE: &'static str = "https://generativelanguage.googleapis.com/v1beta/models";

// ---------------------------------------------------------------------------
// Requests
// ---------------------------------------------------------------------------

/// A part that is a text.
pub open spec fn text_part(s: Seq<char>) -> JsonV {
    empty_object().with("text"@, JsonV::Text(s))
}

/// A part of a message; an image that is not inline has none.
pub open spec fn part_value(p: ContentPart) -> Option<JsonV> {
    match p {
        ContentPart::Text(s) => Some(text_part(s@)),
        ContentPart::Image { url } => match (media_type(url@), base64_data(url@)) {
            (Some(mime), Some(data)) => Some(
                empty_object().with(
                    "inline_data"@,
                    empty_object().with("mime_type"@, JsonV::Text(mime)).with("data"@, JsonV::Text(data)),
                ),
            ),
            _ => None,
        },
    }
}

pub open spec fn part_values(parts: Seq<ContentPart>) -> Seq<JsonV>
    decreases parts.len(),
{
    if parts.len() == 0 {
        Seq::empty()
    } else {
        match part_value(parts.last()) {
            Some(v) => part_values(parts.drop_last()).push(v),
            None => part_values(parts.drop_last()),
        }
    }
}

/// The parts of a message in Gemini's form: texts, and images that are inline.
pub fn gemini_parts(parts: &Vec<ContentPart>) -> (r: Vec<Json>)
    ensures
        json_views(r@) == part_values(parts@),
{
    let mut out: Vec<Json> = Vec::new();
    let mut i: usize = 0;
    while i < parts.len()
        invariant
            i <= parts@.len(),
            json_views(out@) == part_values(parts@.take(i as int)),
        decreases parts@.len() - i,
    {
        proof {
            assert(parts@.take(i + 1).drop_last() =~= parts@.take(i as int));
            assert(parts@.take(i + 1).last() == parts@[i as int]);
        }
        match &parts[i] {
            ContentPart::Text(s) => {
                add_value(&mut out, Json::object().with("text", Json::text(s.as_str())));
            },
            ContentPart::Image { url } => {
                match (data_url_media_type(url.as_str()), base64_payload(url.as_str())) {
                    (Some(mime), Some(data)) => {
                        let inline = Json::object().with("mime_type", Json::Text(mime)).with("data", Json::Text(data));
                        add_value(&mut out, Json::object().with("inline_data", inline));
                    },
                    _ => {},
                }
            },
        }
        i += 1;
    }
    proof {
        assert(parts@.take(i as int) =~= parts@);
    }
    out
}

/// A tool in Gemini's form.
pub open spec fn declaration(t: ToolDefinition) -> JsonV {
    empty_object().with("name"@, JsonV::Text(t.name@)).with("description"@, JsonV::Text(t.description@)).with(
        "parameters"@,
        t.parameters@,
    )
}

pub open spec fn declarations(tools: Seq<ToolDefinition>) -> Seq<JsonV> {
    tools.map_values(|t: ToolDefinition| declaration(t))
}

/// The tools in Gemini's form: all declarations in one entry.
pub open spec fn tools_value(tools: Seq<ToolDefinition>) -> JsonV {
    JsonV::Array(seq![empty_object().with("functionDeclarations"@, JsonV::Array(declarations(tools)))])
}

/// The tools in Gemini's form.
pub fn gemini_tools(tools: &Vec<ToolDefinition>) -> (r: Json)
    ensures
        r@ == tools_value(tools@),
{
    let mut out: Vec<Json> = Vec::new();
    let mut i: usize = 0;
    while i < tools.len()
        invariant
            i <= tools@.len(),
            json_views(out@) == declarations(tools@).take(i as int),
        decreases tools@.len() - i,
    {
        let t = &tools[i];
        let j = Json::object().with("name", Json::text(t.name.as_str())).with(
            "description",
            Json::text(t.description.as_str()),
        ).with("parameters", t.parameters.copy());
        proof {
            assert(declarations(tools@).take(i + 1) =~= declarations(tools@).take(i as int).push(j@));
        }
        add_value(&mut out, j);
        i += 1;
    }
    proof {
        assert(declarations(tools@).take(i as int) =~= declarations(tools@));
    }
    one(Json::object().with("functionDeclarations", Json::Array(out)))
}

/// An array of one value.
fn one(j: Json) -> (r: Json)
    ensures
        r@ == JsonV::Array(seq![j@]),
{
    let mut v: Vec<Json> = Vec::new();
    add_value(&mut v, j);
    proof {
        assert(json_views(v@) =~= seq![j@]);
    }
    Json::Array(v)
}

/// A tool call as a part of the model's turn.
pub open spec fn function_call(c: ToolCallV) -> JsonV {
    let fc = empty_object().with("name"@, JsonV::Text(c.name)).with("args"@, c.arguments);
    empty_object().with(
        "functionCall"@,
        if c.id.len() > 0 {
            fc.with("id"@, JsonV::Text(c.id))
        } else {
            fc
        },
    )
}

pub open spec fn function_calls(calls: Seq<ToolCall>) -> Seq<JsonV> {
    calls.map_values(|c: ToolCall| function_call(c@))
}

/// The parts of a model's turn: its text unless empty, then its tool calls, and
/// an empty text where that leaves nothing.
pub open spec fn model_parts(m: ChatMessage) -> Seq<JsonV> {
    let text = flat_text(m.content);
    let spoken = if text.len() > 0 {
        seq![text_part(text)]
    } else {
        Seq::empty()
    };
    let parts = spoken + function_calls(m.tool_calls@);
    if parts.len() == 0 {
        seq![text_part(""@)]
    } else {
        parts
    }
}

/// A tool result as an object: the JSON object that the text writes, else the
/// value that it writes, else the text, under "result".
pub open spec fn tool_response(text: Seq<char>) -> JsonV {
    let v = match parsed(text) {
        Some(v) => v,
        None => JsonV::Text(text),
    };
    if v is Object {
        v
    } else {
        empty_object().with("result"@, v)
    }
}

pub open spec fn function_response(m: ChatMessage) -> JsonV {
    let fr = empty_object().with(
        "name"@,
        JsonV::Text(
            match m.name {
                Some(n) => n@,
                None => Seq::empty(),
            },
        ),
    ).with("response"@, tool_response(flat_text(m.content)));
    match m.tool_call_id {
        Some(id) => if id@.len() > 0 {
            fr.with("id"@, JsonV::Text(id@))
        } else {
            fr
        },
        None => fr,
    }
}

pub open spec fn turn(role: Seq<char>, parts: Seq<JsonV>) -> JsonV {
    empty_object().with("role"@, JsonV::Text(role)).with("parts"@, JsonV::Array(parts))
}

/// A message as a turn; a system prompt is none.
pub open spec fn turn_of(m: ChatMessage) -> Option<JsonV> {
    match m.role {
        MessageRole::System => None,
        MessageRole::User => Some(
            turn(
                "user"@,
                match m.content {
                    MessageContent::Parts(parts) => part_values(parts@),
                    MessageContent::Text(s) => seq![text_part(s@)],
                },
            ),
        ),
        MessageRole::Assistant => Some(turn("model"@, model_parts(m))),
        MessageRole::Tool => Some(
            turn("user"@, seq![empty_object().with("functionResponse"@, function_response(m))]),
        ),
    }
}

/// The turns of a conversation, in order.
pub open spec fn turns(messages: Seq<ChatMessage>) -> Seq<JsonV>
    decreases messages.len(),
{
    if messages.len() == 0 {
        Seq::empty()
    } else {
        match turn_of(messages.last()) {
            Some(t) => turns(messages.drop_last()).push(t),
            None => turns(messages.drop_last()),
        }
    }
}

/// The system prompts of a conversation, one to a line.
pub open spec fn system_text(messages: Seq<ChatMessage>) -> Option<Seq<char>>
    decreases messages.len(),
{
    if messages.len() == 0 {
        None
    } else {
        let before = system_text(messages.drop_last());
        let m = messages.last();
        if m.role == MessageRole::System {
            Some(
                match before {
                    Some(t) => t + "\n"@ + flat_text(m.content),
                    None => flat_text(m.content),
                },
            )
        } else {
            before
        }
    }
}

pub open spec fn generation_config(request: ChatRequest) -> JsonV {
    let c1 = with_opt(empty_object(), "maxOutputTokens"@, opt_count(request.max_tokens));
    let c2 = with_opt(c1, "temperature"@, opt_json(request.temperature));
    let c3 = with_opt(c2, "topP"@, opt_json(request.top_p));
    if request.response_format == Some(ResponseFormat::Json) {
        c3.with("responseMimeType"@, JsonV::Text("application/json"@))
    } else {
        c3
    }
}

/// Whether a request sets anything that goes into the generation config.
pub open spec fn configures(request: ChatRequest) -> bool {
    request.max_tokens is Some || request.temperature is Some || request.top_p is Some || request.response_format
        == Some(ResponseFormat::Json)
}

/// The body of a request.
pub open spec fn request_value(request: ChatRequest) -> JsonV {
    let b0 = empty_object().with("contents"@, JsonV::Array(turns(request.messages@)));
    let b1 = match system_text(request.messages@) {
        Some(sys) => b0.with(
            "systemInstruction"@,
            empty_object().with("parts"@, JsonV::Array(seq![text_part(sys)])),
        ),
        None => b0,
    };
    let b2 = if configures(request) {
        b1.with("generationConfig"@, generation_config(request))
    } else {
        b1
    };
    if request.tools@.len() > 0 {
        b2.with("tools"@, tools_value(request.tools@))
    } else {
        b2
    }
}

fn read_model_parts(m: &ChatMessage) -> (r: Vec<Json>)
    ensures
        json_views(r@) == model_parts(*m),
{
    let mut parts: Vec<Json> = Vec::new();
    let text = flatten_text(&m.content);
    let ghost spoken = if text@.len() > 0 {
        seq![text_part(text@)]
    } else {
        Seq::empty()
    };
    if !text.as_str().is_empty() {
        add_value(&mut parts, Json::object().with("text", Json::Text(text)));
    }
    let ghost all = function_calls(m.tool_calls@);
    proof {
        assert(json_views(parts@) =~= spoken);
        assert(spoken + all.take(0) =~= spoken);
    }
    let mut i: usize = 0;
    while i < m.tool_calls.len()
        invariant
            i <= m.tool_calls@.len(),
            all == function_calls(m.tool_calls@),
            json_views(parts@) == spoken + all.take(i as int),
        decreases m.tool_calls@.len() - i,
    {
        let tc = &m.tool_calls[i];
        let mut fc = Json::object().with("name", Json::text(tc.name.as_str())).with("args", tc.arguments.copy());
        if !tc.id.as_str().is_empty() {
            fc = fc.with("id", Json::text(tc.id.as_str()));
        }
        let j = Json::object().with("functionCall", fc);
        proof {
            assert(all[i as int] == j@);
            assert((spoken + all.take(i as int)).push(j@) =~= spoken + all.take(i + 1));
        }
        add_value(&mut parts, j);
        i += 1;
    }
    proof {
        assert(all.take(i as int) =~= all);
        lemma_views(parts@);
    }
    if parts.len() == 0 {
        add_value(&mut parts, Json::object().with("text", Json::text("")));
        proof {
            assert(json_views(parts@) =~= seq![text_part(""@)]);
        }
    }
    parts
}

fn read_function_response(m: &ChatMessage) -> (r: Json)
    ensures
        r@ == function_response(*m),
{
    let name = match &m.name {
        Some(n) => n.clone(),
        None => String::new(),
    };
    let text = flatten_text(&m.content);
    let v = match parse(text.as_str()) {
        Some(v) => v,
        None => Json::Text(text),
    };
    let response = if v.is_object() {
        v
    } else {
        Json::object().with("result", v)
    };
    let mut fr = Json::object().with("name", Json::Text(name)).with("response", response);
    if let Some(id) = &m.tool_call_id {
        if !id.as_str().is_empty() {
            fr = fr.with("id", Json::text(id.as_str()));
        }
    }
    fr
}

fn read_turn(m: &ChatMessage) -> (r: Option<Json>)
    ensures
        opt_json(r) == turn_of(*m),
{
    match m.role {
        MessageRole::System => None,
        MessageRole::User => {
            let parts = match &m.content {
                MessageContent::Parts(parts) => gemini_parts(parts),
                MessageContent::Text(s) => {
                    let mut v: Vec<Json> = Vec::new();
                    add_value(&mut v, Json::object().with("text", Json::text(s.as_str())));
                    proof {
                        assert(json_views(v@) =~= seq![text_part(s@)]);
                    }
                    v
                },
            };
            Some(Json::object().with("role", Json::text("user")).with("parts", Json::Array(parts)))
        },
        MessageRole::Assistant => Some(
            Json::object().with("role", Json::text("model")).with("parts", Json::Array(read_model_parts(m))),
        ),
        MessageRole::Tool => {
            let part = Json::object().with("functionResponse", read_function_response(m));
            Some(Json::object().with("role", Json::text("user")).with("parts", one(part)))
        },
    }
}

// ---------------------------------------------------------------------------
// Replies
// ---------------------------------------------------------------------------

/// The reply's candidate.
pub open spec fn candidate(body: JsonV) -> JsonV {
    body.at_key("candidates"@).at_index(0)
}

/// The parts of the reply.
pub open spec fn reply_parts(body: JsonV) -> Seq<JsonV> {
    match candidate(body).at_key("content"@).at_key("parts"@).as_array() {
        Some(parts) => parts,
        None => Seq::empty(),
    }
}

/// The function call of a part, where it has one with a name.
pub open spec fn part_call(part: JsonV) -> Option<JsonV> {
    match part.field("functionCall"@) {
        Some(fc) => if fc.at_key("name"@).text_or(""@).len() > 0 {
            Some(fc)
        } else {
            None
        },
        None => None,
    }
}

/// The texts of the parts, one after another.
pub open spec fn parts_text(parts: Seq<JsonV>) -> Seq<char>
    decreases parts.len(),
{
    if parts.len() == 0 {
        Seq::empty()
    } else {
        parts_text(parts.drop_last()) + parts.last().at_key("text"@).text_or(""@)
    }
}

/// The tool calls of the parts.
pub open spec fn parts_calls(parts: Seq<JsonV>) -> Seq<ToolCallV>
    decreases parts.len(),
{
    if parts.len() == 0 {
        Seq::empty()
    } else {
        let rest = parts_calls(parts.drop_last());
        match part_call(parts.last()) {
            Some(fc) => rest.push(
                ToolCallV {
                    id: fc.at_key("id"@).text_or(""@),
                    name: fc.at_key("name"@).text_or(""@),
                    arguments: fc.at_key("args"@),
                },
            ),
            None => rest,
        }
    }
}

/// The events of one part: its text unless empty, then its call, whole.
pub open spec fn part_events(part: JsonV) -> Seq<StreamEventV> {
    let text = part.at_key("text"@).text_or(""@);
    let spoken = if text.len() > 0 {
        seq![StreamEventV::TextDelta(text)]
    } else {
        Seq::empty()
    };
    match part_call(part) {
        Some(fc) => spoken.push(
            StreamEventV::ToolCallDelta(
                None,
                fc.at_key("id"@).text_or(""@),
                Some(fc.at_key("name"@).text_or(""@)),
                rendered(fc.at_key("args"@)),
            ),
        ),
        None => spoken,
    }
}

pub open spec fn parts_events(parts: Seq<JsonV>) -> Seq<StreamEventV>
    decreases parts.len(),
{
    if parts.len() == 0 {
        Seq::empty()
    } else {
        parts_events(parts.drop_last()) + part_events(parts.last())
    }
}

pub open spec fn finish_of(reason: Seq<char>) -> FinishReason {
    if reason == "MAX_TOKENS"@ {
        FinishReason::MaxTokens
    } else if reason == "SAFETY"@ {
        FinishReason::ContentFilter
    } else {
        FinishReason::Stop
    }
}

fn read_finish(reason: &str) -> (r: FinishReason)
    ensures
        r == finish_of(reason@),
{
    if same(reason, "MAX_TOKENS") {
        FinishReason::MaxTokens
    } else if same(reason, "SAFETY") {
        FinishReason::ContentFilter
    } else {
        FinishReason::Stop
    }
}

pub open spec fn usage_value(u: JsonV) -> TokenUsageStats {
    usage_of(u.at_key("promptTokenCount"@).count(), u.at_key("candidatesTokenCount"@).count())
}

fn read_usage(u: &Json) -> (r: TokenUsageStats)
    ensures
        r == usage_value(u@),
{
    TokenUsageStats::new(u.at_key("promptTokenCount").count(), u.at_key("candidatesTokenCount").count())
}

/// The events of a streamed chunk: its parts, its token counts, its end.
pub open spec fn chunk_events(data: JsonV) -> Seq<StreamEventV> {
    let e1 = parts_events(reply_parts(data));
    let e2 = match data.field("usageMetadata"@) {
        Some(u) => e1.push(StreamEventV::Usage(usage_value(u))),
        None => e1,
    };
    match candidate(data).at_key("finishReason"@).as_text() {
        Some(reason) => e2.push(StreamEventV::Done(finish_of(reason))),
        None => e2,
    }
}

/// Reads one streamed chunk.
pub fn parse_gemini_chunk(data: &Json) -> (r: Vec<StreamEvent>)
    ensures
        event_views(r@) == chunk_events(data@),
{
    let mut events: Vec<StreamEvent> = Vec::new();
    let candidate = data.at_key("candidates").at_index(0);
    proof {
        reveal_strlit("");
        assert(event_views(events@) =~= Seq::<StreamEventV>::empty());
    }
    if let Some(parts) = candidate.at_key("content").at_key("parts").as_array() {
        let ghost all = json_views(parts@);
        let mut i: usize = 0;
        proof {
            lemma_views(parts@);
        }
        while i < parts.len()
            invariant
                i <= parts@.len(),
                all == json_views(parts@),
                all.len() == parts@.len(),
                forall|k: int| 0 <= k < parts@.len() ==> #[trigger] json_views(parts@)[k] == parts@[k]@,
                event_views(events@) == parts_events(all.take(i as int)),
            decreases parts@.len() - i,
        {
            let part = &parts[i];
            let ghost before = event_views(events@);
            proof {
                assert(all.take(i + 1).drop_last() =~= all.take(i as int));
                assert(all.take(i + 1).last() == part@);
            }
            let text = part.at_key("text").text_or("");
            if !text.as_str().is_empty() {
                emit(&mut events, StreamEvent::TextDelta { delta: text });
            }
            if let Some(fc) = part.get("functionCall") {
                let name = fc.at_key("name").text_or("");
                if !name.as_str().is_empty() {
                    emit(
                        &mut events,
                        StreamEvent::ToolCallDelta {
                            index: None,
                            id: fc.at_key("id").text_or(""),
                            name: Some(name),
                            args_delta: render(fc.at_key("args")),
                        },
                    );
                }
            }
            proof {
                assert(event_views(events@) =~= before + part_events(part@));
            }
            i += 1;
        }
        proof {
            assert(all.take(i as int) =~= all);
        }
    }
    if let Some(usage) = data.get("usageMetadata") {
        emit(&mut events, StreamEvent::Usage(read_usage(usage)));
    }
    if let Some(reason) = candidate.at_key("finishReason").as_str() {
        emit(&mut events, StreamEvent::Done { finish_reason: read_finish(reason) });
    }
    events
}

/// How a complete reply reads.
pub open spec fn reply_value(body: JsonV, model: Seq<char>) -> ChatResponseV {
    ChatResponseV {
        content: parts_text(reply_parts(body)),
        tool_calls: parts_calls(reply_parts(body)),
        finish_reason: finish_of(candidate(body).at_key("finishReason"@).text_or("STOP"@)),
        usage: usage_value(body.at_key("usageMetadata"@)),
        model,
        provider: "gemini"@,
    }
}

// ---------------------------------------------------------------------------
// The provider
// ---------------------------------------------------------------------------

/// A Gemini model. The key goes into a header, never into an address.
pub struct GeminiProvider {
    api_key: String,
    model: String,
}

impl GeminiProvider {
    pub closed spec fn key(self) -> Seq<char> {
        self.api_key@
    }

    pub closed spec fn chosen_model(self) -> Seq<char> {
        self.model@
    }

    pub fn new(api_key: &str, model: &str) -> (r: GeminiProvider)
        ensures
            r.key() == api_key@,
            r.chosen_model() == model@,
    {
        GeminiProvider { api_key: api_key.to_owned(), model: model.to_owned() }
    }

    /// The key that the requests carry in a header.
    pub fn api_key(&self) -> (r: &str)
        ensures
            r@ == self.key(),
    {
        self.api_key.as_str()
    }

    /// The address of a model.
    pub fn endpoint_for(&self, model: &str) -> (r: String)
        ensures
            r@ == GEMINI_API_BASE@ + "/"@ + model@ + ":generateContent"@,
    {
        let mut url = GEMINI_API_BASE.to_owned();
        url.append("/");
        url.append(model);
        url.append(":generateContent");
        url
    }

    /// The streaming address of a model.
    pub fn stream_endpoint_for(&self, model: &str) -> (r: String)
        ensures
            r@ == GEMINI_API_BASE@ + "/"@ + model@ + ":streamGenerateContent?alt=sse"@,
    {
        let mut url = GEMINI_API_BASE.to_owned();
        url.append("/");
        url.append(model);
        url.append(":streamGenerateContent?alt=sse");
        url
    }

    /// The body of a request, streamed or not.
    pub fn build_request_body(&self, request: &ChatRequest) -> (r: Json)
        ensures
            r@ == request_value(*request),
    {
        let mut system: Option<String> = None;
        let mut contents: Vec<Json> = Vec::new();
        let mut i: usize = 0;
        while i < request.messages.len()
            invariant
                i <= request.messages@.len(),
                opt_view(system) == system_text(request.messages@.take(i as int)),
                json_views(contents@) == turns(request.messages@.take(i as int)),
            decreases request.messages@.len() - i,
        {
            let m = &request.messages[i];
            proof {
                let all = request.messages@;
                assert(all.take(i + 1).drop_last() =~= all.take(i as int));
                assert(all.take(i + 1).last() == *m);
            }
            if m.role == MessageRole::System {
                let text = flatten_text(&m.content);
                system = match system {
                    Some(prev) => {
                        let mut t = prev;
                        t.append("\n");
                        t.append(text.as_str());
                        Some(t)
                    },
                    None => Some(text),
                };
            }
            if let Some(t) = read_turn(m) {
                add_value(&mut contents, t);
            }
            i += 1;
        }
        proof {
            assert(request.messages@.take(i as int) =~= request.messages@);
        }
        let mut body = Json::object().with("contents", Json::Array(contents));
        if let Some(sys) = system {
            let part = Json::object().with("text", Json::Text(sys));
            body = body.with("systemInstruction", Json::object().with("parts", one(part)));
        }
        let mut config = Json::object();
        let mut configured = false;
        if let Some(max) = request.max_tokens {
            config = config.with("maxOutputTokens", Json::number(max as u64));
            configured = true;
        }
        if let Some(t) = &request.temperature {
            config = config.with("temperature", t.copy());
            configured = true;
        }
        if let Some(t) = &request.top_p {
            config = config.with("topP", t.copy());
            configured = true;
        }
        if let Some(ResponseFormat::Json) = request.response_format {
            config = config.with("responseMimeType", Json::text("application/json"));
            configured = true;
        }
        if configured {
            body = body.with("generationConfig", config);
        }
        if request.tools.len() > 0 {
            body = body.with("tools", gemini_tools(&request.tools));
        }
        body
    }

    /// What to read of a reply with this status.
    pub fn plan_body(status: u16) -> (r: BodyPlan)
        ensures
            match r {
                BodyPlan::Fail(e) => status == 429 && e@ == ProviderErrorV::RateLimited("gemini"@, None),
                BodyPlan::Text => status != 429 && !success(status),
                BodyPlan::Json => success(status),
            },
    {
        if status == 429 {
            BodyPlan::Fail(ProviderError::RateLimited { provider: "gemini".to_owned(), retry_after_secs: None })
        } else if status >= 200 && status < 300 {
            BodyPlan::Json
        } else {
            BodyPlan::Text
        }
    }

    /// The failure that a reply without success reports in its text.
    pub fn refusal(status: u16, text: String) -> (r: ProviderError)
        ensures
            r@ == ProviderErrorV::ApiError("gemini"@, status, text@),
    {
        ProviderError::ApiError { provider: "gemini".to_owned(), status, message: text }
    }

    /// Reads a successful reply, or says why its body is no JSON.
    pub fn interpret_reply(&self, body: Result<Json, String>) -> (r: Result<ChatResponse, ProviderError>)
        ensures
            match (body, r) {
                (Ok(b), Ok(v)) => v@ == reply_value(b@, self.chosen_model()),
                (Err(m), Err(e)) => e@ == ProviderErrorV::ApiError("gemini"@, 200, m@),
                _ => false,
            },
    {
        let body = match body {
            Ok(b) => b,
            Err(message) => {
                return Err(ProviderError::ApiError { provider: "gemini".to_owned(), status: 200, message });
            },
        };
        let candidate = body.at_key("candidates").at_index(0);
        let mut content = String::new();
        let mut tool_calls: Vec<ToolCall> = Vec::new();
        proof {
            assert(call_views(tool_calls@) =~= Seq::<ToolCallV>::empty());
        }
        if let Some(parts) = candidate.at_key("content").at_key("parts").as_array() {
            let ghost all = json_views(parts@);
            let mut i: usize = 0;
            proof {
                lemma_views(parts@);
                reveal_strlit("");
            }
            while i < parts.len()
                invariant
                    i <= parts@.len(),
                    all == json_views(parts@),
                    all.len() == parts@.len(),
                    forall|k: int| 0 <= k < parts@.len() ==> #[trigger] json_views(parts@)[k] == parts@[k]@,
                    content@ == parts_text(all.take(i as int)),
                    call_views(tool_calls@) == parts_calls(all.take(i as int)),
                decreases parts@.len() - i,
            {
                let part = &parts[i];
                proof {
                    assert(all.take(i + 1).drop_last() =~= all.take(i as int));
                    assert(all.take(i + 1).last() == part@);
                }
                content.append(part.at_key("text").text_or("").as_str());
                if let Some(fc) = part.get("functionCall") {
                    let name = fc.at_key("name").text_or("");
                    if !name.as_str().is_empty() {
                        add_call(
                            &mut tool_calls,
                            ToolCall { id: fc.at_key("id").text_or(""), name, arguments: fc.at_key("args").copy() },
                        );
                    }
                }
                i += 1;
            }
            proof {
                assert(all.take(i as int) =~= all);
            }
        }
        let finish_reason = read_finish(candidate.at_key("finishReason").text_or("STOP").as_str());
        Ok(
            ChatResponse {
                content,
                tool_calls,
                finish_reason,
                usage: read_usage(body.at_key("usageMetadata")),
                model: self.model.clone(),
                provider: "gemini".to_owned(),
            },
        )
    }

    /// Reads one event of the stream: a chunk, or an error that ends it.
    pub fn read_event(data: &str) -> (r: Result<Vec<StreamEvent>, ProviderError>)
        ensures
            match r {
                Ok(events) => parsed(data@) is Some && event_views(events@) == chunk_events(parsed(data@)->0),
                Err(e) => parsed(data@) is None && e@ == ProviderErrorV::Stream(
                    "JSON parse: "@ + crate::json::parse_error(data@),
                ),
            },
    {
        match crate::json::read(data) {
            Ok(j) => Ok(parse_gemini_chunk(&j)),
            Err(e) => Err(ProviderError::Stream(concat("JSON parse: ", e.as_str()))),
        }
    }
}

impl LlmProvider for GeminiProvider {
    open spec fn id_view(&self) -> Seq<char> {
        "gemini"@
    }

    open spec fn model_view(&self) -> Seq<char> {
        self.chosen_model()
    }

    open spec fn abilities(&self) -> ProviderCapabilities {
        ProviderCapabilities {
            streaming: true,
            tool_calling: true,
            structured_output: true,
            vision: true,
            reasoning: contains(self.chosen_model(), "thinking"@),
            embeddings: false,
            max_context_tokens: 1_000_000,
            max_output_tokens: 8_192,
        }
    }

    fn provider_id(&self) -> (r: &str) {
        "gemini"
    }

    fn model_id(&self) -> (r: &str) {
        self.model.as_str()
    }

    fn capabilities(&self) -> (r: ProviderCapabilities) {
        ProviderCapabilities {
            streaming: true,
            tool_calling: true,
            structured_output: true,
            vision: true,
            reasoning: has(self.model.as_str(), "thinking"),
            embeddings: false,
            max_context_tokens: 1_000_000,
            max_output_tokens: 8_192,
        }
    }
}

/// The tools of a request reach the model, all of them, and a request without
/// tools mentions none.
pub proof fn law_tools_reach_the_model(request: ChatRequest)
    ensures
        request.tools@.len() > 0 ==> request_value(request).field("tools"@) == Some(tools_value(request.tools@)),
        request.tools@.len() == 0 ==> request_value(request).field("tools"@) is None,
{
    reveal_strlit("tools");
    reveal_strlit("contents");
    reveal_strlit("systemInstruction");
    reveal_strlit("generationConfig");
    assert("contents"@.len() != "tools"@.len());
    assert("systemInstruction"@.len() != "tools"@.len());
    assert("generationConfig"@.len() != "tools"@.len());
}

/// Every turn of the model has at least one part, and what answers a tool call
/// is always an object.
pub proof fn law_turns_are_acceptable(m: ChatMessage, text: Seq<char>)
    ensures
        model_parts(m).len() > 0,
        tool_response(text) is Object,
{
}

} // verus!
