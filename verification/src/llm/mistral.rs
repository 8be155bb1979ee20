//! Mistral, through its OpenAI-compatible chat endpoint.
use vstd::prelude::*;

use crate::json::{Json, JsonV, empty_object, parse_error, parsed, read, views as json_views};
use crate::llm::provider::{BodyPlan, ChatMessage, ChatRequest, ChatResponse, ChatResponseV, ContentPart, FinishReason,
    LlmProvider, MessageContent, MessageRole, ProviderCapabilities, ProviderError, ProviderErrorV, StreamEvent,
    StreamEventV, TokenUsageStats, ToolCall, ToolCallV, call_views, event_views, flat_text, flatten_text, success,
    usage_of};
use crate::llm::wire::{add_value, emit, opt_count, opt_json, role_name, role_str, with_opt};
use crate::text::{concat, contains, has, same, trim, trimmed};

verus! {

pub const MISTRAL_API_URL: &'static str = "https://api.mistral.ai/v1/chat/completions";

// ---------------------------------------------------------------------------
// Requests
// ---------------------------------------------------------------------------

/// A part of a user's message.
pub open spec fn part_value(p: ContentPart) -> JsonV {
    match p {
        ContentPart::Text(s) => empty_object().with("type"@, JsonV::Text("text"@)).with("text"@, JsonV::Text(s@)),
        ContentPart::Image { url } => empty_object().with("type"@, JsonV::Text("image_url"@)).with(
            "image_url"@,
            JsonV::Text(url@),
        ),
    }
}

pub open spec fn part_values(parts: Seq<ContentPart>) -> Seq<JsonV> {
    parts.map_values(|p: ContentPart| part_value(p))
}

/// A message: a user's parts stay parts, all else is one text.
pub open spec fn message_value(m: ChatMessage) -> JsonV {
    let content = match m.content {
        MessageContent::Parts(parts) => if m.role == MessageRole::User {
            JsonV::Array(part_values(parts@))
        } else {
            JsonV::Text(flat_text(m.content))
        },
        MessageContent::Text(s) => JsonV::Text(s@),
    };
    empty_object().with("role"@, JsonV::Text(role_name(m.role))).with("content"@, content)
}

pub open spec fn message_values(messages: Seq<ChatMessage>) -> Seq<JsonV> {
    messages.map_values(|m: ChatMessage| message_value(m))
}

/// The body of a request; a streamed one asks for token counts too.
pub open spec fn request_value(model: Seq<char>, request: ChatRequest, stream: bool) -> JsonV {
    let b0 = empty_object().with("model"@, JsonV::Text(request.model_for(model))).with(
        "messages"@,
        JsonV::Array(message_values(request.messages@)),
    );
    let b1 = with_opt(b0, "max_tokens"@, opt_count(request.max_tokens));
    let b2 = with_opt(b1, "temperature"@, opt_json(request.temperature));
    if stream {
        b2.with("stream"@, JsonV::Bool(true)).with(
            "stream_options"@,
            empty_object().with("include_usage"@, JsonV::Bool(true)),
        )
    } else {
        b2
    }
}

fn parts_array(parts: &Vec<ContentPart>) -> (r: Json)
    ensures
        r@ == JsonV::Array(part_values(parts@)),
{
    let mut out: Vec<Json> = Vec::new();
    let mut i: usize = 0;
    while i < parts.len()
        invariant
            i <= parts@.len(),
            json_views(out@) == part_values(parts@).take(i as int),
        decreases parts@.len() - i,
    {
        let j = match &parts[i] {
            ContentPart::Text(s) => Json::object().with("type", Json::text("text")).with(
                "text",
                Json::text(s.as_str()),
            ),
            ContentPart::Image { url } => Json::object().with("type", Json::text("image_url")).with(
                "image_url",
                Json::text(url.as_str()),
            ),
        };
        proof {
            assert(part_values(parts@).take(i + 1) =~= part_values(parts@).take(i as int).push(j@));
        }
        add_value(&mut out, j);
        i += 1;
    }
    proof {
        assert(part_values(parts@).take(i as int) =~= part_values(parts@));
    }
    Json::Array(out)
}

fn messages_array(messages: &Vec<ChatMessage>) -> (r: Json)
    ensures
        r@ == JsonV::Array(message_values(messages@)),
{
    let mut out: Vec<Json> = Vec::new();
    let mut i: usize = 0;
    while i < messages.len()
        invariant
            i <= messages@.len(),
            json_views(out@) == message_values(messages@).take(i as int),
        decreases messages@.len() - i,
    {
        let m = &messages[i];
        let content = match &m.content {
            MessageContent::Parts(parts) => if m.role == MessageRole::User {
                parts_array(parts)
            } else {
                Json::Text(flatten_text(&m.content))
            },
            MessageContent::Text(s) => Json::text(s.as_str()),
        };
        let j = Json::object().with("role", Json::text(role_str(m.role))).with("content", content);
        proof {
            assert(message_values(messages@).take(i + 1) =~= message_values(messages@).take(i as int).push(j@));
        }
        add_value(&mut out, j);
        i += 1;
    }
    proof {
        assert(message_values(messages@).take(i as int) =~= message_values(messages@));
    }
    Json::Array(out)
}

// ---------------------------------------------------------------------------
// Replies
// ---------------------------------------------------------------------------

pub open spec fn finish_of(reason: Seq<char>) -> FinishReason {
    if reason == "length"@ {
        FinishReason::MaxTokens
    } else if reason == "tool_calls"@ {
        FinishReason::ToolUse
    } else {
        FinishReason::Stop
    }
}

fn read_finish(reason: &str) -> (r: FinishReason)
    ensures
        r == finish_of(reason@),
{
    if same(reason, "length") {
        FinishReason::MaxTokens
    } else if same(reason, "tool_calls") {
        FinishReason::ToolUse
    } else {
        FinishReason::Stop
    }
}

pub open spec fn usage_value(u: JsonV) -> TokenUsageStats {
    usage_of(u.at_key("prompt_tokens"@).count(), u.at_key("completion_tokens"@).count())
}

fn read_usage(u: &Json) -> (r: TokenUsageStats)
    ensures
        r == usage_value(u@),
{
    TokenUsageStats::new(u.at_key("prompt_tokens").count(), u.at_key("completion_tokens").count())
}

/// The events of a streamed chunk: its text unless empty, its token counts
/// unless null, its end.
pub open spec fn chunk_events(data: JsonV) -> Seq<StreamEventV> {
    let choice = data.at_key("choices"@).at_index(0);
    let text = choice.at_key("delta"@).at_key("content"@).text_or(""@);
    let e1 = if text.len() > 0 {
        seq![StreamEventV::TextDelta(text)]
    } else {
        Seq::empty()
    };
    let e2 = if data.at_key("usage"@) is Null {
        e1
    } else {
        e1.push(StreamEventV::Usage(usage_value(data.at_key("usage"@))))
    };
    match choice.at_key("finish_reason"@).as_text() {
        Some(reason) => e2.push(StreamEventV::Done(finish_of(reason))),
        None => e2,
    }
}

/// Reads one streamed chunk.
pub fn parse_mistral_chunk(data: &Json) -> (r: Vec<StreamEvent>)
    ensures
        event_views(r@) == chunk_events(data@),
{
    let mut events: Vec<StreamEvent> = Vec::new();
    let choice = data.at_key("choices").at_index(0);
    proof {
        reveal_strlit("");
        assert(event_views(events@) =~= Seq::<StreamEventV>::empty());
    }
    let text = choice.at_key("delta").at_key("content").text_or("");
    let ghost t = text@;
    if !text.as_str().is_empty() {
        emit(&mut events, StreamEvent::TextDelta { delta: text });
        proof {
            assert(event_views(events@) =~= seq![StreamEventV::TextDelta(t)]);
        }
    }
    let usage = data.at_key("usage");
    if !usage.is_null() {
        emit(&mut events, StreamEvent::Usage(read_usage(usage)));
    }
    if let Some(reason) = choice.at_key("finish_reason").as_str() {
        emit(&mut events, StreamEvent::Done { finish_reason: read_finish(reason) });
    }
    events
}

/// How a complete reply reads. Tool calls are neither sent nor read.
pub open spec fn reply_value(body: JsonV, model: Seq<char>) -> ChatResponseV {
    let choice = body.at_key("choices"@).at_index(0);
    ChatResponseV {
        content: choice.at_key("message"@).at_key("content"@).text_or(""@),
        tool_calls: Seq::empty(),
        finish_reason: finish_of(choice.at_key("finish_reason"@).text_or("stop"@)),
        usage: usage_value(body.at_key("usage"@)),
        model: body.at_key("model"@).text_or(model),
        provider: "mistral"@,
    }
}

// ---------------------------------------------------------------------------
// The provider
// ---------------------------------------------------------------------------

/// A Mistral model.
pub struct MistralProvider {
    api_key: String,
    model: String,
}

impl MistralProvider {
    pub closed spec fn key(self) -> Seq<char> {
        self.api_key@
    }

    pub closed spec fn chosen_model(self) -> Seq<char> {
        self.model@
    }

    pub fn new(api_key: &str, model: &str) -> (r: MistralProvider)
        ensures
            r.key() == api_key@,
            r.chosen_model() == model@,
    {
        MistralProvider { api_key: api_key.to_owned(), model: model.to_owned() }
    }

    /// The authorization header of the requests.
    pub fn authorization(&self) -> (r: String)
        ensures
            r@ == "Bearer "@ + self.key(),
    {
        concat("Bearer ", self.api_key.as_str())
    }

    /// The body of a request.
    pub fn build_request_body(&self, request: &ChatRequest, stream: bool) -> (r: Json)
        ensures
            r@ == request_value(self.chosen_model(), *request, stream),
    {
        let mut body = Json::object().with("model", Json::Text(request.model_for_call(self.model.as_str()))).with(
            "messages",
            messages_array(&request.messages),
        );
        if let Some(max) = request.max_tokens {
            body = body.with("max_tokens", Json::number(max as u64));
        }
        if let Some(t) = &request.temperature {
            body = body.with("temperature", t.copy());
        }
        if stream {
            body = body.with("stream", Json::Bool(true)).with(
                "stream_options",
                Json::object().with("include_usage", Json::Bool(true)),
            );
        }
        body
    }

    /// What to read of a reply with this status.
    pub fn plan_body(status: u16) -> (r: BodyPlan)
        ensures
            match r {
                BodyPlan::Fail(e) => status == 429 && e@ == ProviderErrorV::RateLimited("mistral"@, None),
                BodyPlan::Text => status != 429 && !success(status),
                BodyPlan::Json => success(status),
            },
    {
        if status == 429 {
            BodyPlan::Fail(ProviderError::RateLimited { provider: "mistral".to_owned(), retry_after_secs: None })
        } else if status >= 200 && status < 300 {
            BodyPlan::Json
        } else {
            BodyPlan::Text
        }
    }

    /// The failure that a reply without success reports in its text.
    pub fn refusal(status: u16, text: String) -> (r: ProviderError)
        ensures
            r@ == ProviderErrorV::ApiError("mistral"@, status, text@),
    {
        ProviderError::ApiError { provider: "mistral".to_owned(), status, message: text }
    }

    /// Reads a successful reply, or says why its body is no JSON.
    pub fn interpret_reply(&self, body: Result<Json, String>) -> (r: Result<ChatResponse, ProviderError>)
        ensures
            match (body, r) {
                (Ok(b), Ok(v)) => v@ == reply_value(b@, self.chosen_model()),
                (Err(m), Err(e)) => e@ == ProviderErrorV::ApiError("mistral"@, 200, m@),
                _ => false,
            },
    {
        let body = match body {
            Ok(b) => b,
            Err(message) => {
                return Err(ProviderError::ApiError { provider: "mistral".to_owned(), status: 200, message });
            },
        };
        let choice = body.at_key("choices").at_index(0);
        let tool_calls: Vec<ToolCall> = Vec::new();
        proof {
            assert(call_views(tool_calls@) =~= Seq::<ToolCallV>::empty());
        }
        Ok(
            ChatResponse {
                content: choice.at_key("message").at_key("content").text_or(""),
                tool_calls,
                finish_reason: read_finish(choice.at_key("finish_reason").text_or("stop").as_str()),
                usage: read_usage(body.at_key("usage")),
                model: body.at_key("model").text_or(self.model.as_str()),
                provider: "mistral".to_owned(),
            },
        )
    }

    /// Reads the text of one event of the stream: a chunk, nothing more at the
    /// end marker, or an error.
    pub fn read_message(data: &str) -> (r: Result<Option<Vec<StreamEvent>>, ProviderError>)
        ensures
            if trim(data@) == "[DONE]"@ {
                r == Ok::<Option<Vec<StreamEvent>>, ProviderError>(None)
            } else {
                match (r, parsed(data@)) {
                    (Ok(Some(events)), Some(v)) => event_views(events@) == chunk_events(v),
                    (Err(e), None) => e@ == ProviderErrorV::Stream("JSON parse: "@ + parse_error(data@)),
                    _ => false,
                }
            },
    {
        if same(trimmed(data).as_str(), "[DONE]") {
            return Ok(None);
        }
        match read(data) {
            Ok(j) => Ok(Some(parse_mistral_chunk(&j))),
            Err(e) => Err(ProviderError::Stream(concat("JSON parse: ", e.as_str()))),
        }
    }
}

impl LlmProvider for MistralProvider {
    open spec fn id_view(&self) -> Seq<char> {
        "mistral"@
    }

    open spec fn model_view(&self) -> Seq<char> {
        self.chosen_model()
    }

    open spec fn abilities(&self) -> ProviderCapabilities {
        ProviderCapabilities {
            streaming: true,
            tool_calling: false,
            structured_output: true,
            vision: contains(self.chosen_model(), "pixtral"@),
            reasoning: false,
            embeddings: false,
            max_context_tokens: 128_000,
            max_output_tokens: 4_096,
        }
    }

    fn provider_id(&self) -> (r: &str) {
        "mistral"
    }

    fn model_id(&self) -> (r: &str) {
        self.model.as_str()
    }

    fn capabilities(&self) -> (r: ProviderCapabilities) {
        ProviderCapabilities {
            streaming: true,
            tool_calling: false,
            structured_output: true,
            vision: has(self.model.as_str(), "pixtral"),
            reasoning: false,
            embeddings: false,
            max_context_tokens: 128_000,
            max_output_tokens: 4_096,
        }
    }
}

} // verus!
