//! Requests, replies and stream events, common to all providers.
use vstd::prelude::*;

use crate::json::{Json, JsonV};
use crate::session::copy_opt;
use crate::text::byte_len;

verus! {

/// Who a message is from.
#[derive(Debug, Clone, Copy, PartialEq, Eq, Structural)]
pub enum MessageRole {
    System,
    User,
    Assistant,
    Tool,
}

/// One part of a multimodal message.
#[derive(Debug)]
pub enum ContentPart {
    Text(String),
    Image { url: String },
}

/// The body of a message.
#[derive(Debug)]
pub enum MessageContent {
    Text(String),
    Parts(Vec<ContentPart>),
}

/// A call of a tool that a model asked for.
#[derive(Debug)]
pub struct ToolCall {
    pub id: String,
    pub name: String,
    pub arguments: Json,
}

/// A tool call as a mathematical value.
pub struct ToolCallV {
    pub id: Seq<char>,
    pub name: Seq<char>,
    pub arguments: JsonV,
}

impl View for ToolCall {
    type V = ToolCallV;

    open spec fn view(&self) -> ToolCallV {
        ToolCallV { id: self.id@, name: self.name@, arguments: self.arguments@ }
    }
}

/// The values of a sequence of tool calls.
pub open spec fn call_views(v: Seq<ToolCall>) -> Seq<ToolCallV> {
    v.map_values(|c: ToolCall| c@)
}

/// A message of a conversation.
#[derive(Debug)]
pub struct ChatMessage {
    pub role: MessageRole,
    pub content: MessageContent,
    pub name: Option<String>,
    pub tool_call_id: Option<String>,
    pub tool_calls: Vec<ToolCall>,
}

/// Whether calls of a tool may run beside others.
#[derive(Debug, Clone, Copy, PartialEq, Eq, Structural)]
pub enum ConcurrencyPolicy {
    /// They may.
    Safe,
}

impl Default for ConcurrencyPolicy {
    fn default() -> (r: ConcurrencyPolicy)
        ensures
            r == ConcurrencyPolicy::Safe,
    {
        ConcurrencyPolicy::Safe
    }
}

/// A tool that a model may call.
#[derive(Debug)]
pub struct ToolDefinition {
    pub name: String,
    pub description: String,
    pub parameters: Json,
    pub concurrency: ConcurrencyPolicy,
}

/// The output format that a request asks for.
#[derive(Debug, Clone, Copy, PartialEq, Eq, Structural)]
pub enum ResponseFormat {
    Text,
    Json,
}

/// How many tokens a call used.
#[derive(Debug, Clone, Copy, PartialEq, Eq, Structural)]
pub struct TokenUsageStats {
    pub input_tokens: usize,
    pub output_tokens: usize,
    pub reasoning_tokens: Option<usize>,
}

impl TokenUsageStats {
    /// The usage of a call without reasoning tokens.
    pub fn new(input_tokens: usize, output_tokens: usize) -> (r: TokenUsageStats)
        ensures
            r == usage_of(input_tokens, output_tokens),
    {
        TokenUsageStats { input_tokens, output_tokens, reasoning_tokens: None }
    }

    /// The tokens read and written.
    pub fn total(&self) -> (r: usize)
        requires
            self.input_tokens + self.output_tokens <= usize::MAX,
        ensures
            r == self.input_tokens + self.output_tokens,
    {
        self.input_tokens + self.output_tokens
    }
}

/// The usage of a call without reasoning tokens.
pub open spec fn usage_of(input: usize, output: usize) -> TokenUsageStats {
    TokenUsageStats { input_tokens: input, output_tokens: output, reasoning_tokens: None }
}

/// What a provider and its model can do.
#[derive(Debug, Clone, Copy, PartialEq, Eq, Structural)]
pub struct ProviderCapabilities {
    pub streaming: bool,
    pub tool_calling: bool,
    pub structured_output: bool,
    pub vision: bool,
    pub reasoning: bool,
    pub embeddings: bool,
    pub max_context_tokens: usize,
    pub max_output_tokens: usize,
}

impl Default for ProviderCapabilities {
    /// No capability, and no room.
    fn default() -> (r: ProviderCapabilities)
        ensures
            r == (ProviderCapabilities {
                streaming: false,
                tool_calling: false,
                structured_output: false,
                vision: false,
                reasoning: false,
                embeddings: false,
                max_context_tokens: 0,
                max_output_tokens: 0,
            }),
    {
        ProviderCapabilities {
            streaming: false,
            tool_calling: false,
            structured_output: false,
            vision: false,
            reasoning: false,
            embeddings: false,
            max_context_tokens: 0,
            max_output_tokens: 0,
        }
    }
}

/// A chat completion request, the same for every provider. The sampling
/// parameters are JSON numbers: nothing here computes with them.
#[derive(Debug)]
pub struct ChatRequest {
    pub messages: Vec<ChatMessage>,
    pub tools: Vec<ToolDefinition>,
    pub max_tokens: Option<usize>,
    pub temperature: Option<Json>,
    pub top_p: Option<Json>,
    pub response_format: Option<ResponseFormat>,
    pub stop_sequences: Vec<String>,
    pub provider_options: Option<Json>,
    /// Where present, the model to use for this call.
    pub model_override: Option<String>,
}

/// Why a reply ended.
#[derive(Debug, Clone, Copy, PartialEq, Eq, Structural)]
pub enum FinishReason {
    Stop,
    ToolUse,
    MaxTokens,
    ContentFilter,
    Error,
}

/// A complete reply.
#[derive(Debug)]
pub struct ChatResponse {
    pub content: String,
    pub tool_calls: Vec<ToolCall>,
    pub finish_reason: FinishReason,
    pub usage: TokenUsageStats,
    pub model: String,
    pub provider: String,
}

/// A complete reply as a mathematical value.
pub struct ChatResponseV {
    pub content: Seq<char>,
    pub tool_calls: Seq<ToolCallV>,
    pub finish_reason: FinishReason,
    pub usage: TokenUsageStats,
    pub model: Seq<char>,
    pub provider: Seq<char>,
}

impl View for ChatResponse {
    type V = ChatResponseV;

    open spec fn view(&self) -> ChatResponseV {
        ChatResponseV {
            content: self.content@,
            tool_calls: call_views(self.tool_calls@),
            finish_reason: self.finish_reason,
            usage: self.usage,
            model: self.model@,
            provider: self.provider@,
        }
    }
}

/// One event of a streamed reply.
#[derive(Debug)]
pub enum StreamEvent {
    /// A piece of the reply's text.
    TextDelta { delta: String },
    /// A piece of the model's reasoning.
    ReasoningDelta { delta: String },
    /// A piece of a tool call. The pieces of one call carry the same `index`
    /// where there is one, else the same `id`.
    ToolCallDelta { index: Option<usize>, id: String, name: Option<String>, args_delta: String },
    /// Token counts.
    Usage(TokenUsageStats),
    /// The reply is complete.
    Done { finish_reason: FinishReason },
}

/// A stream event as a mathematical value.
pub enum StreamEventV {
    TextDelta(Seq<char>),
    ReasoningDelta(Seq<char>),
    ToolCallDelta(Option<usize>, Seq<char>, Option<Seq<char>>, Seq<char>),
    Usage(TokenUsageStats),
    Done(FinishReason),
}

/// The characters of an optional text.
pub open spec fn opt_view(s: Option<String>) -> Option<Seq<char>> {
    match s {
        Some(t) => Some(t@),
        None => None,
    }
}

impl View for StreamEvent {
    type V = StreamEventV;

    open spec fn view(&self) -> StreamEventV {
        match *self {
            StreamEvent::TextDelta { delta } => StreamEventV::TextDelta(delta@),
            StreamEvent::ReasoningDelta { delta } => StreamEventV::ReasoningDelta(delta@),
            StreamEvent::ToolCallDelta { index, id, name, args_delta } => StreamEventV::ToolCallDelta(
                index,
                id@,
                opt_view(name),
                args_delta@,
            ),
            StreamEvent::Usage(u) => StreamEventV::Usage(u),
            StreamEvent::Done { finish_reason } => StreamEventV::Done(finish_reason),
        }
    }
}

/// The values of a sequence of events.
pub open spec fn event_views(v: Seq<StreamEvent>) -> Seq<StreamEventV> {
    v.map_values(|e: StreamEvent| e@)
}

pub proof fn lemma_event_views_push(v: Seq<StreamEvent>, e: StreamEvent)
    ensures
        event_views(v.push(e)) == event_views(v).push(e@),
{
    assert(event_views(v.push(e)) =~= event_views(v).push(e@));
}

/// Why a call of a provider failed.
#[derive(Debug)]
pub enum ProviderError {
    Network(String),
    ApiError { provider: String, status: u16, message: String },
    RateLimited { provider: String, retry_after_secs: Option<u64> },
    AuthError { provider: String },
    Stream(String),
}

/// A provider failure as a mathematical value.
pub enum ProviderErrorV {
    Network(Seq<char>),
    ApiError(Seq<char>, u16, Seq<char>),
    RateLimited(Seq<char>, Option<u64>),
    AuthError(Seq<char>),
    Stream(Seq<char>),
}

impl View for ProviderError {
    type V = ProviderErrorV;

    open spec fn view(&self) -> ProviderErrorV {
        match *self {
            ProviderError::Network(m) => ProviderErrorV::Network(m@),
            ProviderError::ApiError { provider, status, message } => ProviderErrorV::ApiError(
                provider@,
                status,
                message@,
            ),
            ProviderError::RateLimited { provider, retry_after_secs } => ProviderErrorV::RateLimited(
                provider@,
                retry_after_secs,
            ),
            ProviderError::AuthError { provider } => ProviderErrorV::AuthError(provider@),
            ProviderError::Stream(m) => ProviderErrorV::Stream(m@),
        }
    }
}

/// What is read of a reply, once its status is known.
#[derive(Debug)]
pub enum BodyPlan {
    /// Nothing: the status alone decides.
    Fail(ProviderError),
    /// The body as text, which describes the failure.
    Text,
    /// The body as JSON.
    Json,
}

/// A status code that reports success.
pub open spec fn success(status: u16) -> bool {
    200 <= status < 300
}

// ---------------------------------------------------------------------------
// Messages
// ---------------------------------------------------------------------------

/// A message of a role with a text and nothing else.
pub open spec fn plain_message(m: ChatMessage, role: MessageRole, text: Seq<char>) -> bool {
    &&& m.role == role
    &&& m.content is Text
    &&& m.content->Text_0@ == text
    &&& m.name is None
    &&& m.tool_call_id is None
    &&& m.tool_calls@.len() == 0
}

fn copy_parts(v: &Vec<ContentPart>) -> (r: Vec<ContentPart>)
    ensures
        r@.map_values(|p: ContentPart| p@) == v@.map_values(|p: ContentPart| p@),
{
    let mut out: Vec<ContentPart> = Vec::new();
    let mut i: usize = 0;
    while i < v.len()
        invariant
            i <= v@.len(),
            out@.len() == i,
            forall|k: int| 0 <= k < i ==> (#[trigger] out@[k])@ == v@[k]@,
        decreases v@.len() - i,
    {
        let p = match &v[i] {
            ContentPart::Text(s) => ContentPart::Text(s.clone()),
            ContentPart::Image { url } => ContentPart::Image { url: url.clone() },
        };
        out.push(p);
        i += 1;
    }
    proof {
        assert(out@.map_values(|p: ContentPart| p@) =~= v@.map_values(|p: ContentPart| p@));
    }
    out
}

fn copy_calls(v: &Vec<ToolCall>) -> (r: Vec<ToolCall>)
    ensures
        call_views(r@) == call_views(v@),
{
    let mut out: Vec<ToolCall> = Vec::new();
    let mut i: usize = 0;
    while i < v.len()
        invariant
            i <= v@.len(),
            out@.len() == i,
            forall|k: int| 0 <= k < i ==> (#[trigger] out@[k])@ == v@[k]@,
        decreases v@.len() - i,
    {
        out.push(ToolCall { id: v[i].id.clone(), name: v[i].name.clone(), arguments: v[i].arguments.copy() });
        i += 1;
    }
    proof {
        assert(call_views(out@) =~= call_views(v@));
    }
    out
}

impl ChatMessage {
    /// A copy.
    pub fn copy(&self) -> (r: ChatMessage)
        ensures
            r@ == self@,
    {
        ChatMessage {
            role: self.role,
            content: match &self.content {
                MessageContent::Text(s) => MessageContent::Text(s.clone()),
                MessageContent::Parts(parts) => MessageContent::Parts(copy_parts(parts)),
            },
            name: copy_opt(&self.name),
            tool_call_id: copy_opt(&self.tool_call_id),
            tool_calls: copy_calls(&self.tool_calls),
        }
    }

    /// A user's message.
    pub fn user(text: &str) -> (r: ChatMessage)
        ensures
            plain_message(r, MessageRole::User, text@),
    {
        ChatMessage {
            role: MessageRole::User,
            content: MessageContent::Text(text.to_owned()),
            name: None,
            tool_call_id: None,
            tool_calls: Vec::new(),
        }
    }

    /// A system prompt.
    pub fn system(text: &str) -> (r: ChatMessage)
        ensures
            plain_message(r, MessageRole::System, text@),
    {
        ChatMessage {
            role: MessageRole::System,
            content: MessageContent::Text(text.to_owned()),
            name: None,
            tool_call_id: None,
            tool_calls: Vec::new(),
        }
    }

    /// A model's message.
    pub fn assistant(text: &str) -> (r: ChatMessage)
        ensures
            plain_message(r, MessageRole::Assistant, text@),
    {
        ChatMessage {
            role: MessageRole::Assistant,
            content: MessageContent::Text(text.to_owned()),
            name: None,
            tool_call_id: None,
            tool_calls: Vec::new(),
        }
    }

    /// A tool result that answers to no call.
    pub fn tool(text: &str) -> (r: ChatMessage)
        ensures
            plain_message(r, MessageRole::Tool, text@),
    {
        ChatMessage {
            role: MessageRole::Tool,
            content: MessageContent::Text(text.to_owned()),
            name: None,
            tool_call_id: None,
            tool_calls: Vec::new(),
        }
    }

    /// A model's message that asks for tool calls.
    pub fn assistant_with_tool_calls(text: &str, tool_calls: Vec<ToolCall>) -> (r: ChatMessage)
        ensures
            r.role == MessageRole::Assistant,
            r.content is Text,
            r.content->Text_0@ == text@,
            r.name is None,
            r.tool_call_id is None,
            r.tool_calls == tool_calls,
    {
        ChatMessage {
            role: MessageRole::Assistant,
            content: MessageContent::Text(text.to_owned()),
            name: None,
            tool_call_id: None,
            tool_calls,
        }
    }

    /// The result of a tool call.
    pub fn tool_result(text: &str, name: &str, tool_call_id: &str) -> (r: ChatMessage)
        ensures
            r.role == MessageRole::Tool,
            r.content is Text,
            r.content->Text_0@ == text@,
            opt_view(r.name) == Some(name@),
            opt_view(r.tool_call_id) == Some(tool_call_id@),
            r.tool_calls@.len() == 0,
    {
        ChatMessage {
            role: MessageRole::Tool,
            content: MessageContent::Text(text.to_owned()),
            name: Some(name.to_owned()),
            tool_call_id: Some(tool_call_id.to_owned()),
            tool_calls: Vec::new(),
        }
    }

    /// The text of a message that is one text.
    pub fn text_content(&self) -> (r: Option<&str>)
        ensures
            match r {
                Some(s) => self.content is Text && s@ == self.content->Text_0@,
                None => self.content is Parts,
            },
    {
        match &self.content {
            MessageContent::Text(s) => Some(s.as_str()),
            MessageContent::Parts(_) => None,
        }
    }
}

/// A part of a message as a mathematical value.
pub enum PartV {
    Text(Seq<char>),
    Image(Seq<char>),
}

impl View for ContentPart {
    type V = PartV;

    open spec fn view(&self) -> PartV {
        match *self {
            ContentPart::Text(s) => PartV::Text(s@),
            ContentPart::Image { url } => PartV::Image(url@),
        }
    }
}

/// The body of a message as a mathematical value.
pub enum ContentV {
    Text(Seq<char>),
    Parts(Seq<PartV>),
}

impl View for MessageContent {
    type V = ContentV;

    open spec fn view(&self) -> ContentV {
        match *self {
            MessageContent::Text(s) => ContentV::Text(s@),
            MessageContent::Parts(parts) => ContentV::Parts(parts@.map_values(|p: ContentPart| p@)),
        }
    }
}

/// A message as a mathematical value.
pub struct MessageV {
    pub role: MessageRole,
    pub content: ContentV,
    pub name: Option<Seq<char>>,
    pub tool_call_id: Option<Seq<char>>,
    pub tool_calls: Seq<ToolCallV>,
}

impl View for ChatMessage {
    type V = MessageV;

    open spec fn view(&self) -> MessageV {
        MessageV {
            role: self.role,
            content: self.content@,
            name: opt_view(self.name),
            tool_call_id: opt_view(self.tool_call_id),
            tool_calls: call_views(self.tool_calls@),
        }
    }
}

/// The values of a conversation.
pub open spec fn message_views(v: Seq<ChatMessage>) -> Seq<MessageV> {
    v.map_values(|m: ChatMessage| m@)
}

/// A message of a role with a text and nothing else.
pub open spec fn text_message(role: MessageRole, text: Seq<char>) -> MessageV {
    MessageV {
        role,
        content: ContentV::Text(text),
        name: None,
        tool_call_id: None,
        tool_calls: Seq::empty(),
    }
}

/// A plain message is the message of its role and its text.
pub proof fn lemma_plain_message(m: ChatMessage, role: MessageRole, text: Seq<char>)
    requires
        plain_message(m, role, text),
    ensures
        m@ == text_message(role, text),
{
    assert(m@.tool_calls =~= Seq::<ToolCallV>::empty());
}

/// The texts among the parts, in order.
pub open spec fn part_texts(parts: Seq<ContentPart>) -> Seq<Seq<char>>
    decreases parts.len(),
{
    if parts.len() == 0 {
        Seq::empty()
    } else {
        match parts.last() {
            ContentPart::Text(s) => part_texts(parts.drop_last()).push(s@),
            ContentPart::Image { url } => part_texts(parts.drop_last()),
        }
    }
}

/// The text of a message: its one text, or the texts among its parts, one to a
/// line.
pub open spec fn flat_text(content: MessageContent) -> Seq<char> {
    match content {
        MessageContent::Text(s) => s@,
        MessageContent::Parts(parts) => crate::text::join(part_texts(parts@), "\n"@),
    }
}

/// Flattens a message to plain text.
pub fn flatten_text(content: &MessageContent) -> (r: String)
    ensures
        r@ == flat_text(*content),
{
    match content {
        MessageContent::Text(s) => s.clone(),
        MessageContent::Parts(parts) => {
            let mut texts: Vec<String> = Vec::new();
            let mut i: usize = 0;
            while i < parts.len()
                invariant
                    i <= parts@.len(),
                    crate::text::views(texts@) == part_texts(parts@.take(i as int)),
                decreases parts@.len() - i,
            {
                let ghost before = texts@;
                proof {
                    assert(parts@.take(i + 1).drop_last() =~= parts@.take(i as int));
                    assert(parts@.take(i + 1).last() == parts@[i as int]);
                }
                if let ContentPart::Text(s) = &parts[i] {
                    texts.push(s.clone());
                    proof {
                        assert(crate::text::views(texts@) =~= crate::text::views(before).push(s@));
                    }
                }
                i += 1;
            }
            proof {
                assert(parts@.take(i as int) =~= parts@);
            }
            crate::text::join_texts(&texts, "\n")
        },
    }
}

// ---------------------------------------------------------------------------
// Requests
// ---------------------------------------------------------------------------

/// A request that sets nothing but its messages.
pub open spec fn bare_request(r: ChatRequest) -> bool {
    &&& r.tools@.len() == 0
    &&& r.max_tokens is None
    &&& r.temperature is None
    &&& r.top_p is None
    &&& r.response_format is None
    &&& r.stop_sequences@.len() == 0
    &&& r.provider_options is None
    &&& r.model_override is None
}

impl ChatRequest {
    /// A request with one user message.
    pub fn simple(user_message: &str) -> (r: ChatRequest)
        ensures
            bare_request(r),
            r.messages@.len() == 1,
            plain_message(r.messages@[0], MessageRole::User, user_message@),
    {
        let mut messages: Vec<ChatMessage> = Vec::new();
        messages.push(ChatMessage::user(user_message));
        ChatRequest {
            messages,
            tools: Vec::new(),
            max_tokens: None,
            temperature: None,
            top_p: None,
            response_format: None,
            stop_sequences: Vec::new(),
            provider_options: None,
            model_override: None,
        }
    }

    /// A request with a system prompt and a user message.
    pub fn with_system(system: &str, user: &str) -> (r: ChatRequest)
        ensures
            bare_request(r),
            r.messages@.len() == 2,
            plain_message(r.messages@[0], MessageRole::System, system@),
            plain_message(r.messages@[1], MessageRole::User, user@),
    {
        let mut messages: Vec<ChatMessage> = Vec::new();
        messages.push(ChatMessage::system(system));
        messages.push(ChatMessage::user(user));
        ChatRequest {
            messages,
            tools: Vec::new(),
            max_tokens: None,
            temperature: None,
            top_p: None,
            response_format: None,
            stop_sequences: Vec::new(),
            provider_options: None,
            model_override: None,
        }
    }

    /// The model of the call: the request's own, else the provider's.
    pub open spec fn model_for(self, model: Seq<char>) -> Seq<char> {
        match self.model_override {
            Some(m) => m@,
            None => model,
        }
    }

    /// The model of the call: the request's own, else the provider's.
    pub fn model_for_call(&self, model: &str) -> (r: String)
        ensures
            r@ == self.model_for(model@),
    {
        match &self.model_override {
            Some(m) => m.clone(),
            None => model.to_owned(),
        }
    }
}

// ---------------------------------------------------------------------------
// Token estimate
// ---------------------------------------------------------------------------

/// The estimate for one part: a token for each four bytes, 85 for an image.
pub open spec fn part_tokens(p: ContentPart) -> nat {
    match p {
        ContentPart::Text(s) => byte_len(s@) as nat / 4,
        ContentPart::Image { url } => 85,
    }
}

pub open spec fn parts_tokens(parts: Seq<ContentPart>) -> nat
    decreases parts.len(),
{
    if parts.len() == 0 {
        0
    } else {
        parts_tokens(parts.drop_last()) + part_tokens(parts.last())
    }
}

pub open spec fn message_tokens(m: ChatMessage) -> nat {
    match m.content {
        MessageContent::Text(s) => byte_len(s@) as nat / 4,
        MessageContent::Parts(parts) => parts_tokens(parts@),
    }
}

/// The estimate for a conversation: the sum over its messages.
pub open spec fn messages_tokens(messages: Seq<ChatMessage>) -> nat
    decreases messages.len(),
{
    if messages.len() == 0 {
        0
    } else {
        messages_tokens(messages.drop_last()) + message_tokens(messages.last())
    }
}

proof fn lemma_messages_tokens_prefix(messages: Seq<ChatMessage>, i: int)
    requires
        0 <= i <= messages.len(),
    ensures
        messages_tokens(messages.take(i)) <= messages_tokens(messages),
    decreases messages.len(),
{
    if i < messages.len() {
        assert(messages.drop_last().take(i) =~= messages.take(i));
        lemma_messages_tokens_prefix(messages.drop_last(), i);
    } else {
        assert(messages.take(i) =~= messages);
    }
}

proof fn lemma_parts_tokens_prefix(parts: Seq<ContentPart>, i: int)
    requires
        0 <= i <= parts.len(),
    ensures
        parts_tokens(parts.take(i)) <= parts_tokens(parts),
    decreases parts.len(),
{
    if i < parts.len() {
        assert(parts.drop_last().take(i) =~= parts.take(i));
        lemma_parts_tokens_prefix(parts.drop_last(), i);
    } else {
        assert(parts.take(i) =~= parts);
    }
}

/// Estimates the tokens of one message.
fn count_message_tokens(m: &ChatMessage) -> (r: usize)
    requires
        message_tokens(*m) <= usize::MAX,
    ensures
        r == message_tokens(*m),
{
    match &m.content {
        MessageContent::Text(s) => s.as_str().len() / 4,
        MessageContent::Parts(parts) => {
            let mut total: usize = 0;
            let mut i: usize = 0;
            while i < parts.len()
                invariant
                    i <= parts@.len(),
                    parts_tokens(parts@) <= usize::MAX,
                    total == parts_tokens(parts@.take(i as int)),
                decreases parts@.len() - i,
            {
                proof {
                    assert(parts@.take(i + 1).drop_last() =~= parts@.take(i as int));
                    lemma_parts_tokens_prefix(parts@, i + 1);
                }
                let n: usize = match &parts[i] {
                    ContentPart::Text(s) => s.as_str().len() / 4,
                    ContentPart::Image { .. } => 85,
                };
                total = total + n;
                i += 1;
            }
            proof {
                assert(parts@.take(i as int) =~= parts@);
            }
            total
        },
    }
}

/// Estimates the tokens of a conversation.
pub fn estimate_tokens(messages: &Vec<ChatMessage>) -> (r: usize)
    requires
        messages_tokens(messages@) <= usize::MAX,
    ensures
        r == messages_tokens(messages@),
{
    let mut total: usize = 0;
    let mut i: usize = 0;
    while i < messages.len()
        invariant
            i <= messages@.len(),
            messages_tokens(messages@) <= usize::MAX,
            total == messages_tokens(messages@.take(i as int)),
        decreases messages@.len() - i,
    {
        proof {
            assert(messages@.take(i + 1).drop_last() =~= messages@.take(i as int));
            lemma_messages_tokens_prefix(messages@, i + 1);
        }
        total = total + count_message_tokens(&messages[i]);
        i += 1;
    }
    proof {
        assert(messages@.take(i as int) =~= messages@);
    }
    total
}

// ---------------------------------------------------------------------------
// Providers
// ---------------------------------------------------------------------------

/// What every provider tells about itself.
pub trait LlmProvider {
    /// The provider's identifier.
    spec fn id_view(&self) -> Seq<char>;

    /// The model in use.
    spec fn model_view(&self) -> Seq<char>;

    /// What the provider and its model can do.
    spec fn abilities(&self) -> ProviderCapabilities;

    /// The provider's identifier, such as "openai".
    fn provider_id(&self) -> (r: &str)
        ensures
            r@ == self.id_view(),
    ;

    /// The model in use.
    fn model_id(&self) -> (r: &str)
        ensures
            r@ == self.model_view(),
    ;

    /// What the provider and its model can do.
    fn capabilities(&self) -> (r: ProviderCapabilities)
        ensures
            r == self.abilities(),
    ;

    /// Estimates the tokens of a request.
    fn count_tokens(&self, request: &ChatRequest) -> (r: usize)
        requires
            messages_tokens(request.messages@) <= usize::MAX,
        default_ensures
            r == messages_tokens(request.messages@),
    {
        estimate_tokens(&request.messages)
    }
}

} // verus!
