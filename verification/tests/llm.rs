use axocoatl::json::{parse, render, Json};
use axocoatl::llm::anthropic::{anthropic_content_blocks, AnthropicProvider, AnthropicStream};
use axocoatl::llm::fallback::{AfterPrimary, FallbackProvider, FallbackTarget};
use axocoatl::llm::gemini::{gemini_parts, parse_gemini_chunk, GeminiProvider};
use axocoatl::llm::mistral::{parse_mistral_chunk, MistralProvider};
use axocoatl::llm::ollama::{ollama_messages, parse_text_tool_calls, strip_wrapping_newlines, OllamaProvider};
use axocoatl::llm::ollama_stream::{flush_boundary, OllamaStream};
use axocoatl::llm::openai::{parse_openai_chunk, refused_call, OpenAiProvider};
use axocoatl::llm::provider::{
    estimate_tokens, flatten_text, BodyPlan, ChatMessage, ChatRequest, ChatResponse, ContentPart, FinishReason,
    LlmProvider, MessageContent, ProviderCapabilities, ProviderError, StreamEvent, TokenUsageStats, ToolCall,
    ToolDefinition,
};
use axocoatl::llm::registry::ProviderRegistry;
use axocoatl::llm::wire::{calls_array, read_structured_calls};

fn json(text: &str) -> Json {
    parse(text).unwrap()
}

fn weather_tool() -> ToolDefinition {
    ToolDefinition {
        name: "get_weather".to_string(),
        description: "Get current weather".to_string(),
        parameters: json(
            "{\"type\":\"object\",\"properties\":{\"location\":{\"type\":\"string\"}},\"required\":[\"location\"]}",
        ),
        concurrency: Default::default(),
    }
}

fn text(j: &Json) -> &str {
    j.as_str().unwrap()
}

// --- Requests ------------------------------------------------------------------

#[test]
fn chat_request_simple() {
    let req = ChatRequest::simple("hello");
    assert_eq!(req.messages.len(), 1);
    assert_eq!(req.messages[0].text_content(), Some("hello"));
}

#[test]
fn chat_request_with_system() {
    let req = ChatRequest::with_system("You are helpful.", "Hi");
    assert_eq!(req.messages.len(), 2);
    assert_eq!(req.messages[0].text_content(), Some("You are helpful."));
    assert_eq!(req.messages[1].text_content(), Some("Hi"));
}

#[test]
fn provider_capabilities_default() {
    let caps = ProviderCapabilities::default();
    assert!(!caps.streaming);
    assert!(!caps.tool_calling);
    assert_eq!(caps.max_context_tokens, 0);
}

#[test]
fn default_count_tokens_approximation() {
    let provider = OllamaProvider::new("dummy");
    let req = ChatRequest::simple("hello world test");
    let count = provider.count_tokens(&req);
    assert!(count > 0);
    assert_eq!(count, 4);
    assert_eq!(estimate_tokens(&req.messages), 4);
}

#[test]
fn parts_are_flattened_to_their_text() {
    let parts = MessageContent::Parts(vec![
        ContentPart::Text("a".into()),
        ContentPart::Image { url: "data:image/png;base64,AA".into() },
        ContentPart::Text("b".into()),
    ]);
    assert_eq!(flatten_text(&parts), "a\nb");
}

// --- The registry and the fallback ------------------------------------------------

#[test]
fn register_and_get_provider() {
    let mut registry = ProviderRegistry::new();
    registry.register(OpenAiProvider::new("k", "m"));
    assert!(registry.get("openai").is_some());
    assert!(registry.get("anthropic").is_none());
}

#[test]
fn list_provider_ids() {
    let mut registry = ProviderRegistry::new();
    registry.register(OpenAiProvider::new("k", "m"));
    registry.register(OpenAiProvider::new("k", "m").with_provider_id("anthropic"));
    let mut ids = registry.provider_ids();
    ids.sort();
    assert_eq!(ids, vec!["anthropic", "openai"]);
}

fn with_backup(model: Option<&str>) -> FallbackProvider<OpenAiProvider> {
    FallbackProvider::new(
        OpenAiProvider::new("k", "primary-model"),
        model.map(|m| FallbackTarget {
            provider: OpenAiProvider::new("k", "b").with_provider_id("anthropic"),
            model: m.to_string(),
        }),
    )
}

fn rate_limited() -> Result<ChatResponse, ProviderError> {
    Err(ProviderError::RateLimited { provider: "openai".into(), retry_after_secs: None })
}

fn response(content: &str) -> ChatResponse {
    ChatResponse {
        content: content.to_string(),
        tool_calls: vec![],
        finish_reason: FinishReason::Stop,
        usage: TokenUsageStats::new(1, 1),
        model: "mock-model".to_string(),
        provider: "openai".to_string(),
    }
}

#[test]
fn primary_success_does_not_touch_fallback() {
    let fp = with_backup(Some("backup-x"));
    match fp.after_primary(ChatRequest::simple("hi"), Ok(response("primary"))) {
        AfterPrimary::Return(Ok(r)) => assert_eq!(r.content, "primary"),
        _ => panic!("backup must not be called when the primary succeeds"),
    }
}

#[test]
fn rate_limited_falls_back_with_backup_model() {
    let fp = with_backup(Some("backup-x"));
    match fp.after_primary(ChatRequest::simple("hi"), rate_limited()) {
        AfterPrimary::Backup(request) => assert_eq!(request.model_override.as_deref(), Some("backup-x")),
        _ => panic!("expected the backup"),
    }
    assert_eq!(fp.provider_id(), "openai");
    assert_eq!(fp.model_id(), "primary-model");
}

#[test]
fn rate_limited_without_fallback_propagates() {
    let fp = with_backup(None);
    assert!(matches!(
        fp.after_primary(ChatRequest::simple("hi"), rate_limited()),
        AfterPrimary::Return(Err(ProviderError::RateLimited { .. }))
    ));
}

#[test]
fn non_rate_limit_error_is_not_retried() {
    let fp = with_backup(Some("backup-x"));
    let outcome: Result<ChatResponse, ProviderError> = Err(ProviderError::AuthError { provider: "openai".into() });
    assert!(matches!(
        fp.after_primary(ChatRequest::simple("hi"), outcome),
        AfterPrimary::Return(Err(ProviderError::AuthError { .. }))
    ));
}

// --- Anthropic ---------------------------------------------------------------------

#[test]
fn build_request_body_with_system() {
    let provider = AnthropicProvider::new("test-key", "sonnet-4-6");
    let request = ChatRequest::with_system("You are helpful.", "Hello");
    let body = provider.build_request_body(&request, false);
    assert_eq!(text(body.at_key("system")), "You are helpful.");
    assert_eq!(body.at_key("messages").as_array().unwrap().len(), 1);
    assert_eq!(text(body.at_key("messages").at_index(0).at_key("role")), "user");
    assert_eq!(text(body.at_key("messages").at_index(0).at_key("content")), "Hello");
    assert_eq!(text(body.at_key("model")), "sonnet-4-6");
}

#[test]
fn build_request_body_no_system() {
    let provider = AnthropicProvider::new("test-key", "haiku-4-5-20251001");
    let body = provider.build_request_body(&ChatRequest::simple("Hi"), false);
    assert!(body.get("system").is_none());
    assert_eq!(body.at_key("messages").as_array().unwrap().len(), 1);
}

#[test]
fn build_request_body_includes_tools() {
    let provider = AnthropicProvider::new("test-key", "sonnet-4-6");
    let mut request = ChatRequest::simple("What's the weather in NYC?");
    request.tools = vec![weather_tool()];
    let body = provider.build_request_body(&request, false);
    assert!(body.at_key("tools").as_array().is_some());
    let tool = body.at_key("tools").at_index(0);
    assert_eq!(text(tool.at_key("name")), "get_weather");
    assert_eq!(text(tool.at_key("input_schema").at_key("required").at_index(0)), "location");
}

#[test]
fn build_request_body_omits_tools_when_none() {
    let provider = AnthropicProvider::new("test-key", "sonnet-4-6");
    let body = provider.build_request_body(&ChatRequest::simple("Hello"), false);
    assert!(body.get("tools").is_none());
}

#[test]
fn capabilities_correct() {
    let caps = AnthropicProvider::new("key", "sonnet-4-6").capabilities();
    assert!(caps.vision);
    assert!(caps.tool_calling);
    assert_eq!(caps.max_context_tokens, 200_000);
}

#[test]
fn anthropic_replies_are_read() {
    let p = AnthropicProvider::new("key", "m");
    let body = json(
        "{\"content\":[{\"type\":\"text\",\"text\":\"hi\"},{\"type\":\"tool_use\",\"id\":\"t1\",\"name\":\"f\",\"input\":{\"a\":1}}],\"stop_reason\":\"tool_use\",\"usage\":{\"input_tokens\":3,\"output_tokens\":4},\"model\":\"m2\"}",
    );
    let r = p.interpret_reply(200, Ok(body)).unwrap();
    assert_eq!(r.content, "hi");
    assert_eq!(r.tool_calls.len(), 1);
    assert_eq!((r.tool_calls[0].id.as_str(), r.tool_calls[0].name.as_str()), ("t1", "f"));
    assert_eq!(r.finish_reason, FinishReason::ToolUse);
    assert_eq!((r.usage.input_tokens, r.usage.output_tokens), (3, 4));
    assert!(matches!(AnthropicProvider::plan_body(429), BodyPlan::Fail(ProviderError::RateLimited { .. })));
    assert!(p.interpret_reply(500, Ok(json("{\"error\":{\"message\":\"boom\"}}"))).is_err());
}

#[test]
fn anthropic_streams_are_read_event_by_event() {
    let mut s = AnthropicStream::new();
    let step = s
        .read_message("{\"type\":\"content_block_delta\",\"delta\":{\"type\":\"text_delta\",\"text\":\"Hi\"}}")
        .unwrap();
    assert!(matches!(&step.events[0], StreamEvent::TextDelta { delta } if delta == "Hi"));
    assert!(!step.over);
    let step = s.read_message("{\"type\":\"message_stop\"}").unwrap();
    assert!(step.over);
    assert!(matches!(s.read_message("not json"), Err(ProviderError::Stream(_))));
}

#[test]
fn images_become_source_blocks() {
    let blocks = anthropic_content_blocks(&vec![
        ContentPart::Text("look".into()),
        ContentPart::Image { url: "data:image/png;base64,QUJD".into() },
    ]);
    assert_eq!(blocks.len(), 2);
    assert_eq!(text(blocks[1].at_key("source").at_key("data")), "QUJD");
    assert_eq!(text(blocks[1].at_key("source").at_key("media_type")), "image/png");
}

#[test]
fn images_behind_other_urls_are_skipped() {
    let parts = vec![
        ContentPart::Image { url: "https://h/base64,Q".into() },
        ContentPart::Image { url: "data:image/png,Q".into() },
        ContentPart::Image { url: "data:image/png;base64,Q".into() },
    ];
    let blocks = anthropic_content_blocks(&parts);
    assert_eq!(blocks.len(), 1);
    assert_eq!(text(blocks[0].at_key("source").at_key("data")), "Q");
    let inline = gemini_parts(&parts);
    assert_eq!(inline.len(), 1);
    assert_eq!(text(inline[0].at_key("inline_data").at_key("mime_type")), "image/png");
}

// --- Gemini ------------------------------------------------------------------------

#[test]
fn lib_provider_identity() {
    let p = GeminiProvider::new("key", "gemini-2.5-flash");
    assert_eq!(p.provider_id(), "gemini");
    assert_eq!(p.model_id(), "gemini-2.5-flash");
}

#[test]
fn lib_capabilities() {
    let caps = GeminiProvider::new("key", "gemini-2.5-flash").capabilities();
    assert!(caps.streaming);
    assert!(caps.vision);
    assert!(caps.tool_calling);
    assert_eq!(caps.max_context_tokens, 1_000_000);
}

#[test]
fn build_request_body_includes_function_declarations() {
    let p = GeminiProvider::new("key", "gemini-2.5-flash");
    let mut request = ChatRequest::simple("weather in NYC?");
    request.tools = vec![weather_tool()];
    let body = p.build_request_body(&request);
    let first = body.at_key("tools").at_index(0).at_key("functionDeclarations").at_index(0);
    assert_eq!(text(first.at_key("name")), "get_weather");
}

#[test]
fn assistant_and_tool_turns_become_function_call_and_response() {
    let p = GeminiProvider::new("key", "gemini-2.5-flash");
    let mut request = ChatRequest::simple("weather in NYC?");
    request.messages.push(ChatMessage::assistant_with_tool_calls(
        "",
        vec![ToolCall {
            id: "fc_1".to_string(),
            name: "get_weather".to_string(),
            arguments: json("{\"location\":\"NYC\"}"),
        }],
    ));
    request.messages.push(ChatMessage::tool_result("{\"temp\":72}", "get_weather", "fc_1"));
    let body = p.build_request_body(&request);
    let contents = body.at_key("contents").as_array().unwrap();

    let model_turn = contents.iter().find(|c| c.at_key("role").as_str() == Some("model")).unwrap();
    let call = model_turn.at_key("parts").at_index(0).at_key("functionCall");
    assert_eq!(text(call.at_key("name")), "get_weather");
    assert_eq!(text(call.at_key("args").at_key("location")), "NYC");

    let fr_turn =
        contents.iter().find(|c| c.at_key("parts").at_index(0).get("functionResponse").is_some()).unwrap();
    assert_eq!(text(fr_turn.at_key("role")), "user");
    let reply = fr_turn.at_key("parts").at_index(0).at_key("functionResponse");
    assert_eq!(text(reply.at_key("name")), "get_weather");
    assert_eq!(reply.at_key("response").at_key("temp").as_u64(), Some(72));
}

#[test]
fn parse_chunk_function_call() {
    let chunk = json(
        "{\"candidates\":[{\"content\":{\"parts\":[{\"functionCall\":{\"name\":\"get_weather\",\"args\":{\"location\":\"NYC\"}}}]}}]}",
    );
    let found = parse_gemini_chunk(&chunk).iter().any(|e| {
        matches!(e, StreamEvent::ToolCallDelta { name: Some(n), args_delta, .. }
            if n == "get_weather" && args_delta.contains("NYC"))
    });
    assert!(found, "expected a ToolCallDelta from the functionCall part");
}

#[test]
fn endpoint_format() {
    let p = GeminiProvider::new("test-key", "gemini-2.5-flash");
    let url = p.endpoint_for("gemini-2.5-flash");
    assert!(url.contains("gemini-2.5-flash:generateContent"));
    assert!(!url.contains("test-key"));
    assert!(!url.contains("key="));
    let surl = p.stream_endpoint_for("gemini-2.5-flash");
    assert!(surl.contains("streamGenerateContent?alt=sse"));
    assert!(!surl.contains("test-key"));
}

#[test]
fn lib_parse_chunk_text_delta() {
    let chunk = json("{\"candidates\":[{\"content\":{\"parts\":[{\"text\":\"Hello\"}]}}]}");
    let events = parse_gemini_chunk(&chunk);
    assert_eq!(events.len(), 1);
    assert!(matches!(&events[0], StreamEvent::TextDelta { delta } if delta == "Hello"));
}

#[test]
fn parse_chunk_finish_and_usage() {
    let chunk = json(
        "{\"candidates\":[{\"content\":{\"parts\":[{\"text\":\"!\"}]},\"finishReason\":\"STOP\"}],\"usageMetadata\":{\"promptTokenCount\":12,\"candidatesTokenCount\":7}}",
    );
    let events = parse_gemini_chunk(&chunk);
    assert!(matches!(events[0], StreamEvent::TextDelta { .. }));
    assert!(events.iter().any(|e| matches!(e, StreamEvent::Usage(u) if u.output_tokens == 7)));
    assert!(events.iter().any(|e| matches!(e, StreamEvent::Done { finish_reason: FinishReason::Stop })));
}

#[test]
fn system_prompt_uses_native_system_instruction() {
    let p = GeminiProvider::new("key", "gemini-2.5-flash");
    let body = p.build_request_body(&ChatRequest::with_system("Be brief.", "Hi"));
    assert_eq!(text(body.at_key("systemInstruction").at_key("parts").at_index(0).at_key("text")), "Be brief.");
    let first = body.at_key("contents").at_index(0);
    assert_eq!(text(first.at_key("role")), "user");
    assert_eq!(text(first.at_key("parts").at_index(0).at_key("text")), "Hi");
}

#[test]
fn endpoint_uses_v1beta() {
    let p = GeminiProvider::new("key", "gemini-2.5-flash");
    assert!(p.endpoint_for("gemini-2.5-flash").contains("/v1beta/"));
    assert!(p.stream_endpoint_for("gemini-2.5-flash").contains("/v1beta/"));
}

#[test]
fn gemini_replies_are_read() {
    let p = GeminiProvider::new("key", "m");
    let body = json("{\"candidates\":[{\"content\":{\"parts\":[{\"text\":\"a\"},{\"text\":\"b\"}]},\"finishReason\":\"MAX_TOKENS\"}]}");
    let r = p.interpret_reply(Ok(body)).unwrap();
    assert_eq!((r.content.as_str(), r.finish_reason), ("ab", FinishReason::MaxTokens));
    assert!(p.interpret_reply(Err("eof".into())).is_err());
    assert!(matches!(GeminiProvider::refusal(503, "x".into()), ProviderError::ApiError { status: 503, .. }));
    assert!(GeminiProvider::read_event("{").is_err());
}

// --- Mistral -------------------------------------------------------------------------

#[test]
fn provider_identity() {
    let p = MistralProvider::new("key", "mistral-large-latest");
    assert_eq!(p.provider_id(), "mistral");
    assert_eq!(p.model_id(), "mistral-large-latest");
}

#[test]
fn capabilities() {
    let caps = MistralProvider::new("key", "mistral-large-latest").capabilities();
    assert!(caps.streaming);
    assert!(!caps.vision);
    assert!(!caps.tool_calling);
}

#[test]
fn parse_chunk_text_delta() {
    let events = parse_mistral_chunk(&json("{\"choices\":[{\"delta\":{\"content\":\"Hello\"}}]}"));
    assert_eq!(events.len(), 1);
    assert!(matches!(&events[0], StreamEvent::TextDelta { delta } if delta == "Hello"));
}

#[test]
fn parse_chunk_finish() {
    let events = parse_mistral_chunk(&json("{\"choices\":[{\"delta\":{},\"finish_reason\":\"stop\"}]}"));
    assert!(events.iter().any(|e| matches!(e, StreamEvent::Done { finish_reason: FinishReason::Stop })));
}

#[test]
fn parse_chunk_usage_final() {
    let events = parse_mistral_chunk(&json("{\"choices\":[],\"usage\":{\"prompt_tokens\":10,\"completion_tokens\":5}}"));
    assert!(events
        .iter()
        .any(|e| matches!(e, StreamEvent::Usage(u) if u.input_tokens == 10 && u.output_tokens == 5)));
}

#[test]
fn mistral_streams_end_with_a_sentinel() {
    assert!(matches!(MistralProvider::read_message(" [DONE] "), Ok(None)));
    assert!(matches!(MistralProvider::read_message("{}"), Ok(Some(v)) if v.is_empty()));
    assert!(matches!(MistralProvider::read_message("x"), Err(ProviderError::Stream(_))));
    let p = MistralProvider::new("key", "pixtral-12b");
    assert!(p.capabilities().vision);
    assert_eq!(p.authorization(), "Bearer key");
    let body = p.build_request_body(&ChatRequest::simple("x"), true);
    assert!(matches!(body.at_key("stream"), Json::Bool(true)));
    let r = p
        .interpret_reply(Ok(json("{\"choices\":[{\"message\":{\"content\":\"c\"},\"finish_reason\":\"length\"}]}")))
        .unwrap();
    assert_eq!((r.content.as_str(), r.finish_reason, r.model.as_str()), ("c", FinishReason::MaxTokens, "pixtral-12b"));
}

// --- Ollama --------------------------------------------------------------------------

#[test]
fn default_base_url() {
    let provider = OllamaProvider::new("llama3");
    assert_eq!(provider.endpoint(), "http://localhost:11434/v1/chat/completions");
    assert_eq!(provider.model_id(), "llama3");
    assert_eq!(provider.provider_id(), "ollama");
}

#[test]
fn custom_base_url() {
    let provider = OllamaProvider::with_base_url("http://gpu-server:11434", "mistral");
    assert_eq!(provider.endpoint(), "http://gpu-server:11434/v1/chat/completions");
}

#[test]
fn trailing_slash_stripped() {
    let provider = OllamaProvider::with_base_url("http://localhost:11434/", "llama3");
    assert_eq!(provider.endpoint(), "http://localhost:11434/v1/chat/completions");
}

#[test]
fn capabilities_local_model() {
    let caps = OllamaProvider::new("llama3").capabilities();
    assert!(!caps.vision);
    assert!(caps.tool_calling);
    assert_eq!(caps.max_context_tokens, 128_000);
}

#[test]
fn messages_encode_assistant_tool_calls_and_tool_result() {
    let msgs = vec![
        ChatMessage::user("weather?"),
        ChatMessage::assistant_with_tool_calls(
            "",
            vec![ToolCall {
                id: "call_1".to_string(),
                name: "get_weather".to_string(),
                arguments: json("{\"location\":\"NYC\"}"),
            }],
        ),
        ChatMessage::tool_result("{\"temp\":72}", "get_weather", "call_1"),
    ];
    let out = ollama_messages(&msgs);
    assert_eq!(text(out[1].at_key("role")), "assistant");
    let call = out[1].at_key("tool_calls").at_index(0);
    assert_eq!(text(call.at_key("id")), "call_1");
    assert_eq!(text(call.at_key("type")), "function");
    assert_eq!(text(call.at_key("function").at_key("name")), "get_weather");
    let args = text(call.at_key("function").at_key("arguments"));
    assert_eq!(text(json(args).at_key("location")), "NYC");
    assert_eq!(text(out[2].at_key("role")), "tool");
    assert_eq!(text(out[2].at_key("tool_call_id")), "call_1");
}

#[test]
fn recovers_qwen_coder_function_tool_call_from_text() {
    let content = "I'll update the heading.\n<function=edit_file>\n<parameter=path>\nindex.html\n</parameter>\n<parameter=old>\n  h1 { color: #fff; }\n</parameter>\n<parameter=new>\n  h1 { color: #9c27b0; font-weight: bold; }\n</parameter>\n</function>\n</tool_call>";
    let names = vec!["edit_file".to_string(), "write_file".to_string()];
    let calls = parse_text_tool_calls(content, &names);
    assert_eq!(calls.len(), 1);
    assert_eq!(calls[0].name, "edit_file");
    assert_eq!(text(calls[0].arguments.at_key("path")), "index.html");
    assert_eq!(text(calls[0].arguments.at_key("old")), "  h1 { color: #fff; }");
    assert_eq!(text(calls[0].arguments.at_key("new")), "  h1 { color: #9c27b0; font-weight: bold; }");
}

#[test]
fn recovers_hermes_json_tool_call() {
    let content = "<tool_call>\n\
        {\"name\": \"write_file\", \"arguments\": {\"path\": \"a.txt\", \"content\": \"hi\"}}\n\
        </tool_call>";
    let names = vec!["write_file".to_string()];
    let calls = parse_text_tool_calls(content, &names);
    assert_eq!(calls.len(), 1);
    assert_eq!(calls[0].name, "write_file");
    assert_eq!(text(calls[0].arguments.at_key("path")), "a.txt");
    assert_eq!(text(calls[0].arguments.at_key("content")), "hi");
}

#[test]
fn ignores_function_names_not_offered() {
    let content = "<function=rm_rf>\n<parameter=path>/</parameter>\n</function>";
    assert!(parse_text_tool_calls(content, &vec!["edit_file".to_string()]).is_empty());
}

#[test]
fn prose_mentioning_a_marker_is_not_a_call() {
    let content = "Use <function=edit_file> when you need to change a file.";
    assert!(parse_text_tool_calls(content, &vec!["edit_file".to_string()]).is_empty());
}

#[test]
fn no_markers_yields_no_calls() {
    let content = "Just a normal assistant reply with no tool calls at all.";
    assert!(parse_text_tool_calls(content, &vec!["edit_file".to_string()]).is_empty());
}

#[test]
fn strip_wrapping_newlines_keeps_inner_indentation() {
    assert_eq!(
        strip_wrapping_newlines("\n  h1 {\n    color: red;\n  }\n"),
        "  h1 {\n    color: red;\n  }"
    );
    assert_eq!(strip_wrapping_newlines("index.html"), "index.html");
    assert_eq!(strip_wrapping_newlines("\r\nx\r\n"), "x");
}

#[test]
fn flush_boundary_respects_utf8() {
    let s = "abcdé";
    let b = flush_boundary(s, 1);
    assert!(s.is_char_boundary(b));
    assert_eq!(flush_boundary("ab", 16), 0);
}

fn shown(events: &[StreamEvent]) -> String {
    let mut out = String::new();
    for e in events {
        if let StreamEvent::TextDelta { delta } = e {
            out.push_str(delta);
        }
    }
    out
}

#[test]
fn streams_show_text_but_no_markers() {
    let mut s = OllamaStream::new(vec!["edit_file".to_string()]);
    let mut events = Vec::new();
    let chunk = |t: &str| {
        format!("data: {{\"choices\":[{{\"delta\":{{\"content\":{}}}}}]}}\n", render(&Json::text(t)))
    };
    events.extend(s.read_piece(&chunk("Let me edit it now, please wait. ")));
    events.extend(s.read_piece(&chunk("<function=edit_file><parameter=path>a</parameter></function>")));
    events.extend(s.read_piece("data: {\"choices\":[{\"delta\":{},\"finish_reason\":\"stop\"}]}\ndata: [DONE]\n"));
    assert_eq!(shown(&events), "Let me edit it no");
    assert!(events
        .iter()
        .any(|e| matches!(e, StreamEvent::ToolCallDelta { name: Some(n), .. } if n == "edit_file")));
    assert!(events.iter().any(|e| matches!(e, StreamEvent::Done { finish_reason: FinishReason::ToolUse })));
}

#[test]
fn streams_read_bytes_lossily() {
    let mut s = OllamaStream::new(vec![]);
    let bytes = b"data: {\"choices\":[{\"delta\":{\"content\":\"hi\"},\"finish_reason\":\"stop\"}]}\n";
    assert_eq!(shown(&s.read_bytes(bytes)), "hi");
    assert!(s.read_bytes(b"\xff").is_empty());
}

#[test]
fn ollama_replies_are_read() {
    let p = OllamaProvider::new("m");
    let mut request = ChatRequest::simple("x");
    request.tools = vec![weather_tool()];
    let body = json("{\"choices\":[{\"message\":{\"content\":\"<function=get_weather><parameter=location>NYC</parameter></function>\"},\"finish_reason\":\"stop\"}],\"usage\":{\"prompt_tokens\":1,\"completion_tokens\":2}}");
    let r = p.interpret_reply(&request, Ok(body)).unwrap();
    assert_eq!(r.tool_calls.len(), 1);
    assert_eq!(r.finish_reason, FinishReason::ToolUse);
    assert!(p.interpret_reply(&request, Err("x".into())).is_err());
    let body = p.build_request_body(&request, true);
    assert!(matches!(body.at_key("stream"), Json::Bool(true)));
    assert_eq!(text(body.at_key("tools").at_index(0).at_key("function").at_key("name")), "get_weather");
}

// --- OpenAI --------------------------------------------------------------------------

#[test]
fn build_chat_request_attaches_tools() {
    let provider = OpenAiProvider::new("test-key", "gpt-4o");
    let mut request = ChatRequest::simple("What's the weather in NYC?");
    request.tools = vec![weather_tool()];
    let built = provider.build_chat_request(&request, vec![]);
    assert!(built.at_key("tools").as_array().is_some(), "tools must be sent to the model");
    let tool = built.at_key("tools").at_index(0);
    assert_eq!(text(tool.at_key("type")), "function");
    assert_eq!(text(tool.at_key("function").at_key("name")), "get_weather");
}

#[test]
fn build_chat_request_omits_tools_when_none() {
    let provider = OpenAiProvider::new("test-key", "gpt-4o");
    let built = provider.build_chat_request(&ChatRequest::simple("Hello"), vec![]);
    assert!(built.get("tools").is_none() || built.at_key("tools").is_null());
}

#[test]
fn openai_chunks_and_replies_are_read() {
    let events = parse_openai_chunk(&json("{\"choices\":[{\"delta\":{\"content\":\"hi\"},\"finish_reason\":\"stop\"}]}"));
    assert_eq!(shown(&events), "hi");
    let p = OpenAiProvider::with_base_url("k", "m", "https://openrouter.ai/api/v1");
    assert_eq!(p.base_url(), Some("https://openrouter.ai/api/v1"));
    assert!(p.sends_attribution());
    assert!(!OpenAiProvider::new("k", "m").sends_attribution());
    let r = p.interpret_reply(&json("{\"choices\":[{\"message\":{\"content\":\"c\"},\"finish_reason\":\"stop\"}]}"), vec![]);
    assert_eq!(r.unwrap().content, "c");
    assert!(p.interpret_reply(&json("{\"choices\":[]}"), vec![]).is_err());
}

#[test]
fn refused_openai_calls_report_rate_limits() {
    for (kind, code) in [("requests", "rate_limit_exceeded"), ("insufficient_quota", "insufficient_quota")] {
        let e = refused_call(kind, code, "slow down".into());
        assert!(matches!(e, ProviderError::RateLimited { provider, retry_after_secs: None } if provider == "openai"));
    }
    let e = refused_call("invalid_request_error", "", "no such model".into());
    assert!(matches!(e, ProviderError::ApiError { status: 0, message, .. } if message == "no such model"));
}

#[test]
fn openai_counts_come_before_the_end() {
    let events = parse_openai_chunk(&json(
        "{\"choices\":[{\"delta\":{\"content\":\"hi\"},\"finish_reason\":\"stop\"}],\"usage\":{\"prompt_tokens\":3,\"completion_tokens\":2}}",
    ));
    assert_eq!(events.len(), 3);
    assert!(matches!(&events[0], StreamEvent::TextDelta { delta } if delta == "hi"));
    assert!(matches!(&events[1], StreamEvent::Usage(u) if u.input_tokens == 3 && u.output_tokens == 2));
    assert!(matches!(&events[2], StreamEvent::Done { finish_reason: FinishReason::Stop }));
    let alone = parse_openai_chunk(&json("{\"choices\":[],\"usage\":{\"prompt_tokens\":3,\"completion_tokens\":2}}"));
    assert!(matches!(&alone[..], [StreamEvent::Usage(_)]));
}

#[test]
fn config_to_provider_registry() {
    let mut registry = ProviderRegistry::new();
    registry.register(OpenAiProvider::new("sk-test-fake-key", "gpt-4o"));
    let provider = registry.get("openai").unwrap();
    assert_eq!(provider.provider_id(), "openai");
    assert_eq!(provider.model_id(), "gpt-4o");
    let caps = provider.capabilities();
    assert!(caps.streaming);
    assert!(caps.tool_calling);
    assert!(caps.vision);
    assert_eq!(caps.max_context_tokens, 128_000);
}

#[test]
fn written_calls_are_read_back() {
    let arguments = "{\"deep\":[{\"n\":-3},true,null],\"path\":\"a\\\"b\"}";
    let calls = vec![ToolCall { id: "c1".into(), name: "read".into(), arguments: json(arguments) }];
    let written = calls_array(&calls);
    let back = read_structured_calls(written.as_array().unwrap());
    assert_eq!(back.len(), 1);
    assert_eq!((back[0].id.as_str(), back[0].name.as_str()), ("c1", "read"));
    assert_eq!(render(&back[0].arguments), arguments);
}
