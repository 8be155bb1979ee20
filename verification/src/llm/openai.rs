//! OpenAI, and the vendors that speak its chat API.
use vstd::prelude::*;

use crate::json::{Json, JsonV, empty_object, lemma_views, number_of_u64, views as json_views};
use crate::llm::provider::{ChatRequest, ChatResponse, ChatResponseV, FinishReason, LlmProvider, ProviderCapabilities,
    ProviderError, ProviderErrorV, ResponseFormat, StreamEvent, StreamEventV, TokenUsageStats, ToolCall, ToolCallV,
    call_views, event_views, usage_of};
use crate::llm::wire::{emit, opt_json, tool_values, tools_json, with_opt};
use crate::text::{begins, contains, has, same, starts_with};

verus! {

/// The body of a request whose messages have been converted.
pub open spec fn request_value(model: Seq<char>, request: ChatRequest, messages: Seq<JsonV>) -> JsonV {
    let b0 = empty_object().with("model"@, JsonV::Text(request.model_for(model))).with(
        "messages"@,
        JsonV::Array(messages),
    );
    let b1 = match request.max_tokens {
        Some(n) => b0.with("max_completion_tokens"@, JsonV::Number(number_of_u64((n as u32) as u64))),
        None => b0,
    };
    let b2 = with_opt(b1, "temperature"@, opt_json(request.temperature));
    let b3 = with_opt(b2, "top_p"@, opt_json(request.top_p));
    let b4 = if request.response_format == Some(ResponseFormat::Json) {
        b3.with("response_format"@, empty_object().with("type"@, JsonV::Text("json_object"@)))
    } else {
        b3
    };
    if request.tools@.len() > 0 {
        b4.with("tools"@, JsonV::Array(tool_values(request.tools@)))
    } else {
        b4
    }
}

/// Why a reply ended, by the API's name for it.
pub open spec fn finish_of(reason: Seq<char>) -> FinishReason {
    if reason == "tool_calls"@ || reason == "function_call"@ {
        FinishReason::ToolUse
    } else if reason == "length"@ {
        FinishReason::MaxTokens
    } else if reason == "content_filter"@ {
        FinishReason::ContentFilter
    } else {
        FinishReason::Stop
    }
}

fn read_finish(reason: &str) -> (r: FinishReason)
    ensures
        r == finish_of(reason@),
{
    if same(reason, "tool_calls") || same(reason, "function_call") {
        FinishReason::ToolUse
    } else if same(reason, "length") {
        FinishReason::MaxTokens
    } else if same(reason, "content_filter") {
        FinishReason::ContentFilter
    } else {
        FinishReason::Stop
    }
}

pub open spec fn usage_value(u: JsonV) -> TokenUsageStats {
    usage_of(u.at_key("prompt_tokens"@).count(), u.at_key("completion_tokens"@).count())
}

fn read_usage(u: &Json) -> (r: TokenUsageStats)
    ensures
        r == usage_value(u@),
{
    TokenUsageStats::new(u.at_key("prompt_tokens").count(), u.at_key("completion_tokens").count())
}

/// A piece of a tool call. The id comes with the first piece only; the index
/// comes with each.
pub open spec fn call_event(tc: JsonV) -> StreamEventV {
    StreamEventV::ToolCallDelta(
        Some(tc.at_key("index"@).count()),
        tc.at_key("id"@).text_or(""@),
        tc.at_key("function"@).at_key("name"@).as_text(),
        tc.at_key("function"@).at_key("arguments"@).text_or(""@),
    )
}

pub open spec fn call_events(calls: Seq<JsonV>) -> Seq<StreamEventV> {
    calls.map_values(|tc: JsonV| call_event(tc))
}

/// The events of one choice: its text, its tool calls, its end.
pub open spec fn choice_events(choice: JsonV) -> Seq<StreamEventV> {
    let delta = choice.at_key("delta"@);
    let e1 = match delta.at_key("content"@).as_text() {
        Some(t) => seq![StreamEventV::TextDelta(t)],
        None => Seq::empty(),
    };
    let e2 = match delta.at_key("tool_calls"@).as_array() {
        Some(calls) => e1 + call_events(calls),
        None => e1,
    };
    match choice.at_key("finish_reason"@).as_text() {
        Some(reason) => e2.push(StreamEventV::Done(finish_of(reason))),
        None => e2,
    }
}

pub open spec fn choices_events(choices: Seq<JsonV>) -> Seq<StreamEventV>
    decreases choices.len(),
{
    if choices.len() == 0 {
        Seq::empty()
    } else {
        choices_events(choices.drop_last()) + choice_events(choices.last())
    }
}

/// The place of the first end among the events, from `i` on; behind the last one
/// where there is none.
pub open spec fn first_end(events: Seq<StreamEventV>, i: int) -> int
    decreases events.len() - i,
{
    if i >= events.len() || events[i] is Done {
        i
    } else {
        first_end(events, i + 1)
    }
}

/// The events of a streamed chunk: those of its choices, and its token counts
/// before the first end.
pub open spec fn chunk_events(data: JsonV) -> Seq<StreamEventV> {
    let e1 = match data.at_key("choices"@).as_array() {
        Some(choices) => choices_events(choices),
        None => Seq::empty(),
    };
    if data.at_key("usage"@) is Null {
        e1
    } else {
        e1.insert(first_end(e1, 0), StreamEventV::Usage(usage_value(data.at_key("usage"@))))
    }
}

fn emit_calls(calls: &Vec<Json>, events: &mut Vec<StreamEvent>)
    ensures
        event_views(final(events)@) == event_views(old(events)@) + call_events(json_views(calls@)),
{
    let ghost before = event_views(events@);
    let ghost all = call_events(json_views(calls@));
    let mut i: usize = 0;
    proof {
        lemma_views(calls@);
        assert(before + all.take(0) =~= before);
    }
    while i < calls.len()
        invariant
            i <= calls@.len(),
            all == call_events(json_views(calls@)),
            json_views(calls@).len() == calls@.len(),
            forall|k: int| 0 <= k < calls@.len() ==> #[trigger] json_views(calls@)[k] == calls@[k]@,
            event_views(events@) == before + all.take(i as int),
        decreases calls@.len() - i,
    {
        let tc = &calls[i];
        let f = tc.at_key("function");
        let name = match f.at_key("name").as_str() {
            Some(s) => Some(s.to_owned()),
            None => None,
        };
        let e = StreamEvent::ToolCallDelta {
            index: Some(tc.at_key("index").count()),
            id: tc.at_key("id").text_or(""),
            name,
            args_delta: f.at_key("arguments").text_or(""),
        };
        proof {
            assert(all[i as int] == e@);
            assert((before + all.take(i as int)).push(e@) =~= before + all.take(i + 1));
        }
        emit(events, e);
        i += 1;
    }
    proof {
        assert(all.take(i as int) =~= all);
    }
}

/// Reads one streamed chunk.
pub fn parse_openai_chunk(data: &Json) -> (r: Vec<StreamEvent>)
    ensures
        event_views(r@) == chunk_events(data@),
{
    let mut events: Vec<StreamEvent> = Vec::new();
    proof {
        assert(event_views(events@) =~= Seq::<StreamEventV>::empty());
    }
    if let Some(choices) = data.at_key("choices").as_array() {
        let ghost all = json_views(choices@);
        let mut i: usize = 0;
        proof {
            lemma_views(choices@);
        }
        while i < choices.len()
            invariant
                i <= choices@.len(),
                all == json_views(choices@),
                all.len() == choices@.len(),
                forall|k: int| 0 <= k < choices@.len() ==> #[trigger] json_views(choices@)[k] == choices@[k]@,
                event_views(events@) == choices_events(all.take(i as int)),
            decreases choices@.len() - i,
        {
            let choice = &choices[i];
            let ghost before = event_views(events@);
            proof {
                assert(all.take(i + 1).drop_last() =~= all.take(i as int));
                assert(all.take(i + 1).last() == choice@);
            }
            let delta = choice.at_key("delta");
            if let Some(t) = delta.at_key("content").as_str() {
                emit(&mut events, StreamEvent::TextDelta { delta: t.to_owned() });
            }
            if let Some(calls) = delta.at_key("tool_calls").as_array() {
                emit_calls(calls, &mut events);
            }
            if let Some(reason) = choice.at_key("finish_reason").as_str() {
                emit(&mut events, StreamEvent::Done { finish_reason: read_finish(reason) });
            }
            proof {
                assert(event_views(events@) =~= before + choice_events(choice@));
            }
            i += 1;
        }
        proof {
            assert(all.take(i as int) =~= all);
        }
    }
    let usage = data.at_key("usage");
    if !usage.is_null() {
        let counts = StreamEvent::Usage(read_usage(usage));
        let ghost all = event_views(events@);
        let mut at: usize = 0;
        while at < events.len() && !matches!(events[at], StreamEvent::Done { .. })
            invariant
                at <= events@.len(),
                all == event_views(events@),
                first_end(all, 0) == first_end(all, at as int),
            decreases events@.len() - at,
        {
            proof {
                assert(all[at as int] == events@[at as int]@);
            }
            at += 1;
        }
        proof {
            if at < events@.len() {
                assert(all[at as int] == events@[at as int]@);
            }
        }
        events.insert(at, counts);
        proof {
            assert(event_views(events@) =~= all.insert(at as int, counts@));
        }
    }
    events
}

/// How a complete reply with these tool calls reads, where it has a choice.
pub open spec fn reply_value(body: JsonV, calls: Seq<ToolCallV>) -> ChatResponseV {
    let choice = body.at_key("choices"@).at_index(0);
    ChatResponseV {
        content: choice.at_key("message"@).at_key("content"@).text_or(""@),
        tool_calls: calls,
        finish_reason: finish_of(choice.at_key("finish_reason"@).text_or("stop"@)),
        usage: usage_value(body.at_key("usage"@)),
        model: body.at_key("model"@).text_or(""@),
        provider: "openai"@,
    }
}

/// Whether a reply has a choice.
pub open spec fn has_choice(body: JsonV) -> bool {
    body.at_key("choices"@) is Array && body.at_key("choices"@)->Array_0.len() > 0
}

/// Whether the error object of a refused call, of this kind and code, reports that
/// too much was asked for.
pub open spec fn is_rate_limit(kind: Seq<char>, code: Seq<char>) -> bool {
    code == "rate_limit_exceeded"@ || kind == "insufficient_quota"@
}

/// The failure that an error object reports; one without a kind or a code has an
/// empty text in its place.
pub fn refused_call(kind: &str, code: &str, message: String) -> (r: ProviderError)
    ensures
        r@ == if is_rate_limit(kind@, code@) {
            ProviderErrorV::RateLimited("openai"@, None)
        } else {
            ProviderErrorV::ApiError("openai"@, 0, message@)
        },
{
    if same(code, "rate_limit_exceeded") || same(kind, "insufficient_quota") {
        ProviderError::RateLimited { provider: "openai".to_owned(), retry_after_secs: None }
    } else {
        ProviderError::ApiError { provider: "openai".to_owned(), status: 0, message }
    }
}

/// A vendor that speaks the OpenAI chat API.
pub struct OpenAiProvider {
    api_key: String,
    model: String,
    base_url: Option<String>,
    provider_id: String,
}

impl OpenAiProvider {
    pub closed spec fn key(self) -> Seq<char> {
        self.api_key@
    }

    pub closed spec fn chosen_model(self) -> Seq<char> {
        self.model@
    }

    /// The vendor's address, where it is not OpenAI's own.
    pub closed spec fn base(self) -> Option<Seq<char>> {
        crate::llm::provider::opt_view(self.base_url)
    }

    pub closed spec fn id(self) -> Seq<char> {
        self.provider_id@
    }

    /// OpenAI itself.
    pub fn new(api_key: &str, model: &str) -> (r: OpenAiProvider)
        ensures
            r.key() == api_key@,
            r.chosen_model() == model@,
            r.base() is None,
            r.id() == "openai"@,
    {
        OpenAiProvider {
            api_key: api_key.to_owned(),
            model: model.to_owned(),
            base_url: None,
            provider_id: "openai".to_owned(),
        }
    }

    /// A compatible vendor at its own address.
    pub fn with_base_url(api_key: &str, model: &str, base_url: &str) -> (r: OpenAiProvider)
        ensures
            r.key() == api_key@,
            r.chosen_model() == model@,
            r.base() == Some(base_url@),
            r.id() == "openai"@,
    {
        OpenAiProvider {
            api_key: api_key.to_owned(),
            model: model.to_owned(),
            base_url: Some(base_url.to_owned()),
            provider_id: "openai".to_owned(),
        }
    }

    /// The same provider under another id.
    pub fn with_provider_id(self, id: &str) -> (r: OpenAiProvider)
        ensures
            r.key() == self.key(),
            r.chosen_model() == self.chosen_model(),
            r.base() == self.base(),
            r.id() == id@,
    {
        let mut p = self;
        p.provider_id = id.to_owned();
        p
    }

    pub fn api_key(&self) -> (r: &str)
        ensures
            r@ == self.key(),
    {
        self.api_key.as_str()
    }

    pub fn base_url(&self) -> (r: Option<&str>)
        ensures
            match r {
                Some(u) => self.base() == Some(u@),
                None => self.base() is None,
            },
    {
        match &self.base_url {
            Some(u) => Some(u.as_str()),
            None => None,
        }
    }

    /// Whether the requests carry the headers that name this application: only
    /// OpenRouter reads them.
    pub fn sends_attribution(&self) -> (r: bool)
        ensures
            r == (self.base() is Some && contains(self.base()->0, "openrouter.ai"@)),
    {
        match &self.base_url {
            Some(u) => has(u.as_str(), "openrouter.ai"),
            None => false,
        }
    }

    /// The body of a request, streamed or not, from its converted messages: the
    /// tools always reach it.
    pub fn build_chat_request(&self, request: &ChatRequest, messages: Vec<Json>) -> (r: Json)
        ensures
            r@ == request_value(self.chosen_model(), *request, json_views(messages@)),
    {
        let mut body = Json::object().with("model", Json::Text(request.model_for_call(self.model.as_str()))).with(
            "messages",
            Json::Array(messages),
        );
        if let Some(max) = request.max_tokens {
            let capped: u32 = max as u32;
            body = body.with("max_completion_tokens", Json::number(capped as u64));
        }
        if let Some(t) = &request.temperature {
            body = body.with("temperature", t.copy());
        }
        if let Some(t) = &request.top_p {
            body = body.with("top_p", t.copy());
        }
        if let Some(ResponseFormat::Json) = request.response_format {
            body = body.with("response_format", Json::object().with("type", Json::text("json_object")));
        }
        if request.tools.len() > 0 {
            body = body.with("tools", tools_json(&request.tools));
        }
        body
    }

    /// Reads a reply, given the tool calls of its first choice; one without a
    /// choice is an error.
    pub fn interpret_reply(&self, body: &Json, tool_calls: Vec<ToolCall>) -> (r: Result<ChatResponse, ProviderError>)
        ensures
            match r {
                Ok(v) => has_choice(body@) && v@ == reply_value(body@, call_views(tool_calls@)),
                Err(e) => !has_choice(body@) && e@ == ProviderErrorV::ApiError(
                    "openai"@,
                    200,
                    "No choices in response"@,
                ),
            },
    {
        let choices = body.at_key("choices");
        let some = match choices.as_array() {
            Some(a) => {
                proof {
                    lemma_views(a@);
                }
                a.len() > 0
            },
            None => false,
        };
        if !some {
            return Err(
                ProviderError::ApiError {
                    provider: "openai".to_owned(),
                    status: 200,
                    message: "No choices in response".to_owned(),
                },
            );
        }
        let choice = choices.at_index(0);
        let message = choice.at_key("message");
        Ok(
            ChatResponse {
                content: message.at_key("content").text_or(""),
                tool_calls,
                finish_reason: read_finish(choice.at_key("finish_reason").text_or("stop").as_str()),
                usage: read_usage(body.at_key("usage")),
                model: body.at_key("model").text_or(""),
                provider: "openai".to_owned(),
            },
        )
    }
}

/// How many tokens a model reads.
pub open spec fn context_of(model: Seq<char>) -> usize {
    if contains(model, "128k"@) || model == "gpt-4o"@ || model == "gpt-4o-mini"@ {
        128_000
    } else {
        8_192
    }
}

impl LlmProvider for OpenAiProvider {
    open spec fn id_view(&self) -> Seq<char> {
        self.id()
    }

    open spec fn model_view(&self) -> Seq<char> {
        self.chosen_model()
    }

    open spec fn abilities(&self) -> ProviderCapabilities {
        ProviderCapabilities {
            streaming: true,
            tool_calling: true,
            structured_output: true,
            vision: contains(self.chosen_model(), "4o"@) || contains(self.chosen_model(), "vision"@),
            reasoning: starts_with(self.chosen_model(), "o1"@) || starts_with(self.chosen_model(), "o3"@),
            embeddings: false,
            max_context_tokens: context_of(self.chosen_model()),
            max_output_tokens: 4_096,
        }
    }

    fn provider_id(&self) -> (r: &str) {
        self.provider_id.as_str()
    }

    fn model_id(&self) -> (r: &str) {
        self.model.as_str()
    }

    fn capabilities(&self) -> (r: ProviderCapabilities) {
        let m = self.model.as_str();
        let wide = has(m, "128k") || same(m, "gpt-4o") || same(m, "gpt-4o-mini");
        ProviderCapabilities {
            streaming: true,
            tool_calling: true,
            structured_output: true,
            vision: has(m, "4o") || has(m, "vision"),
            reasoning: begins(m, "o1") || begins(m, "o3"),
            embeddings: false,
            max_context_tokens: if wide {
                128_000
            } else {
                8_192
            },
            max_output_tokens: 4_096,
        }
    }
}

/// The tools of a request reach the model, all of them, and a request without
/// tools mentions none.
pub proof fn law_tools_reach_the_model(model: Seq<char>, request: ChatRequest, messages: Seq<JsonV>)
    ensures
        request.tools@.len() > 0 ==> request_value(model, request, messages).field("tools"@) == Some(JsonV::Array(tool_values(request.tools@))),
        request.tools@.len() == 0 ==> request_value(model, request, messages).field("tools"@) is None,
{
    reveal_strlit("tools");
    reveal_strlit("model");
    reveal_strlit("messages");
    reveal_strlit("max_completion_tokens");
    reveal_strlit("temperature");
    reveal_strlit("top_p");
    reveal_strlit("response_format");
    assert("model"@ != "tools"@) by {
        assert("model"@[0] != "tools"@[0]);
    };
    assert("messages"@.len() != "tools"@.len());
    assert("max_completion_tokens"@.len() != "tools"@.len());
    assert("temperature"@.len() != "tools"@.len());
    assert("top_p"@ != "tools"@) by {
        assert("top_p"@[2] != "tools"@[2]);
    };
    assert("response_format"@.len() != "tools"@.len());
}

/// The token counts of a chunk come before every end in it.
pub proof fn law_counts_come_before_the_end(data: JsonV, i: int, j: int)
    requires
        0 <= i < chunk_events(data).len(),
        0 <= j < chunk_events(data).len(),
        chunk_events(data)[i] is Usage,
        chunk_events(data)[j] is Done,
    ensures
        i < j,
{
    let e1 = match data.at_key("choices"@).as_array() {
        Some(choices) => choices_events(choices),
        None => Seq::empty(),
    };
    if let Some(choices) = data.at_key("choices"@).as_array() {
        lemma_choices_hold_no_counts(choices);
    }
    lemma_first_end(e1, 0);
}

proof fn lemma_first_end(events: Seq<StreamEventV>, i: int)
    requires
        0 <= i <= events.len(),
    ensures
        i <= first_end(events, i) <= events.len(),
        forall|k: int| i <= k < first_end(events, i) ==> !(#[trigger] events[k] is Done),
    decreases events.len() - i,
{
    if i < events.len() && !(events[i] is Done) {
        lemma_first_end(events, i + 1);
    }
}

proof fn lemma_choices_hold_no_counts(choices: Seq<JsonV>)
    ensures
        forall|k: int| 0 <= k < choices_events(choices).len() ==> !(#[trigger] choices_events(choices)[k] is Usage),
    decreases choices.len(),
{
    if choices.len() > 0 {
        lemma_choices_hold_no_counts(choices.drop_last());
    }
}

} // verus!
