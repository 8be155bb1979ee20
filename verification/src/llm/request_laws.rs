//! What the requests to the providers hold of the conversation.
use vstd::prelude::*;

use crate::json::{JsonV, number_of_u64, parsed, rendered};
use crate::llm::anthropic;
use crate::llm::anthropic::AnthropicProvider;
use crate::llm::fallback::{falls_back, retargeted};
use crate::llm::gemini;
use crate::llm::gemini::GeminiProvider;
use crate::llm::mistral;
use crate::llm::mistral::MistralProvider;
use crate::llm::ollama;
use crate::llm::ollama::OllamaProvider;
use crate::llm::openai;
use crate::llm::openai::OpenAiProvider;
use crate::llm::provider::{ChatMessage, ChatRequest, ContentPart, LlmProvider, MessageContent, MessageRole,
    ProviderError, ResponseFormat, ToolCall, ToolDefinition, flat_text, opt_view, part_texts};
use crate::llm::wire::{base64_data, calls_json, media_type, role_name};
use crate::text::{at, contains, drop_prefixes, find_from, join, lemma_find_from, starts_with, trim_end_char};
use crate::text_laws::free_of;

verus! {

/// The names of the members of a request are different.
proof fn lemma_request_keys()
    ensures
        "model"@ != "messages"@,
        "model"@ != "max_tokens"@,
        "model"@ != "system"@,
        "model"@ != "temperature"@,
        "model"@ != "tools"@,
        "model"@ != "stream"@,
        "model"@ != "top_p"@,
        "model"@ != "response_format"@,
        "model"@ != "max_completion_tokens"@,
        "model"@ != "format"@,
        "model"@ != "stream_options"@,
        "model"@ != "contents"@,
        "model"@ != "systemInstruction"@,
        "model"@ != "generationConfig"@,
        "messages"@ != "max_tokens"@,
        "messages"@ != "system"@,
        "messages"@ != "temperature"@,
        "messages"@ != "tools"@,
        "messages"@ != "stream"@,
        "messages"@ != "top_p"@,
        "messages"@ != "response_format"@,
        "messages"@ != "max_completion_tokens"@,
        "messages"@ != "format"@,
        "messages"@ != "stream_options"@,
        "messages"@ != "contents"@,
        "messages"@ != "systemInstruction"@,
        "messages"@ != "generationConfig"@,
        "max_tokens"@ != "system"@,
        "max_tokens"@ != "temperature"@,
        "max_tokens"@ != "tools"@,
        "max_tokens"@ != "stream"@,
        "max_tokens"@ != "top_p"@,
        "max_tokens"@ != "response_format"@,
        "max_tokens"@ != "max_completion_tokens"@,
        "max_tokens"@ != "format"@,
        "max_tokens"@ != "stream_options"@,
        "max_tokens"@ != "contents"@,
        "max_tokens"@ != "systemInstruction"@,
        "max_tokens"@ != "generationConfig"@,
        "system"@ != "temperature"@,
        "system"@ != "tools"@,
        "system"@ != "stream"@,
        "system"@ != "top_p"@,
        "system"@ != "response_format"@,
        "system"@ != "max_completion_tokens"@,
        "system"@ != "format"@,
        "system"@ != "stream_options"@,
        "system"@ != "contents"@,
        "system"@ != "systemInstruction"@,
        "system"@ != "generationConfig"@,
        "temperature"@ != "tools"@,
        "temperature"@ != "stream"@,
        "temperature"@ != "top_p"@,
        "temperature"@ != "response_format"@,
        "temperature"@ != "max_completion_tokens"@,
        "temperature"@ != "format"@,
        "temperature"@ != "stream_options"@,
        "temperature"@ != "contents"@,
        "temperature"@ != "systemInstruction"@,
        "temperature"@ != "generationConfig"@,
        "tools"@ != "stream"@,
        "tools"@ != "top_p"@,
        "tools"@ != "response_format"@,
        "tools"@ != "max_completion_tokens"@,
        "tools"@ != "format"@,
        "tools"@ != "stream_options"@,
        "tools"@ != "contents"@,
        "tools"@ != "systemInstruction"@,
        "tools"@ != "generationConfig"@,
        "stream"@ != "top_p"@,
        "stream"@ != "response_format"@,
        "stream"@ != "max_completion_tokens"@,
        "stream"@ != "format"@,
        "stream"@ != "stream_options"@,
        "stream"@ != "contents"@,
        "stream"@ != "systemInstruction"@,
        "stream"@ != "generationConfig"@,
        "top_p"@ != "response_format"@,
        "top_p"@ != "max_completion_tokens"@,
        "top_p"@ != "format"@,
        "top_p"@ != "stream_options"@,
        "top_p"@ != "contents"@,
        "top_p"@ != "systemInstruction"@,
        "top_p"@ != "generationConfig"@,
        "response_format"@ != "max_completion_tokens"@,
        "response_format"@ != "format"@,
        "response_format"@ != "stream_options"@,
        "response_format"@ != "contents"@,
        "response_format"@ != "systemInstruction"@,
        "response_format"@ != "generationConfig"@,
        "max_completion_tokens"@ != "format"@,
        "max_completion_tokens"@ != "stream_options"@,
        "max_completion_tokens"@ != "contents"@,
        "max_completion_tokens"@ != "systemInstruction"@,
        "max_completion_tokens"@ != "generationConfig"@,
        "format"@ != "stream_options"@,
        "format"@ != "contents"@,
        "format"@ != "systemInstruction"@,
        "format"@ != "generationConfig"@,
        "stream_options"@ != "contents"@,
        "stream_options"@ != "systemInstruction"@,
        "stream_options"@ != "generationConfig"@,
        "contents"@ != "systemInstruction"@,
        "contents"@ != "generationConfig"@,
        "systemInstruction"@ != "generationConfig"@,
{
    reveal_strlit("model");
    reveal_strlit("messages");
    reveal_strlit("max_tokens");
    reveal_strlit("system");
    reveal_strlit("temperature");
    reveal_strlit("tools");
    reveal_strlit("stream");
    reveal_strlit("top_p");
    reveal_strlit("response_format");
    reveal_strlit("max_completion_tokens");
    reveal_strlit("format");
    reveal_strlit("stream_options");
    reveal_strlit("contents");
    reveal_strlit("systemInstruction");
    reveal_strlit("generationConfig");
    assert("model"@.len() != "messages"@.len());
    assert("model"@.len() != "max_tokens"@.len());
    assert("model"@.len() != "system"@.len());
    assert("model"@.len() != "temperature"@.len());
    assert("model"@[0] != "tools"@[0]);
    assert("model"@.len() != "stream"@.len());
    assert("model"@[0] != "top_p"@[0]);
    assert("model"@.len() != "response_format"@.len());
    assert("model"@.len() != "max_completion_tokens"@.len());
    assert("model"@.len() != "format"@.len());
    assert("model"@.len() != "stream_options"@.len());
    assert("model"@.len() != "contents"@.len());
    assert("model"@.len() != "systemInstruction"@.len());
    assert("model"@.len() != "generationConfig"@.len());
    assert("messages"@.len() != "max_tokens"@.len());
    assert("messages"@.len() != "system"@.len());
    assert("messages"@.len() != "temperature"@.len());
    assert("messages"@.len() != "tools"@.len());
    assert("messages"@.len() != "stream"@.len());
    assert("messages"@.len() != "top_p"@.len());
    assert("messages"@.len() != "response_format"@.len());
    assert("messages"@.len() != "max_completion_tokens"@.len());
    assert("messages"@.len() != "format"@.len());
    assert("messages"@.len() != "stream_options"@.len());
    assert("messages"@[0] != "contents"@[0]);
    assert("messages"@.len() != "systemInstruction"@.len());
    assert("messages"@.len() != "generationConfig"@.len());
    assert("max_tokens"@.len() != "system"@.len());
    assert("max_tokens"@.len() != "temperature"@.len());
    assert("max_tokens"@.len() != "tools"@.len());
    assert("max_tokens"@.len() != "stream"@.len());
    assert("max_tokens"@.len() != "top_p"@.len());
    assert("max_tokens"@.len() != "response_format"@.len());
    assert("max_tokens"@.len() != "max_completion_tokens"@.len());
    assert("max_tokens"@.len() != "format"@.len());
    assert("max_tokens"@.len() != "stream_options"@.len());
    assert("max_tokens"@.len() != "contents"@.len());
    assert("max_tokens"@.len() != "systemInstruction"@.len());
    assert("max_tokens"@.len() != "generationConfig"@.len());
    assert("system"@.len() != "temperature"@.len());
    assert("system"@.len() != "tools"@.len());
    assert("system"@[1] != "stream"@[1]);
    assert("system"@.len() != "top_p"@.len());
    assert("system"@.len() != "response_format"@.len());
    assert("system"@.len() != "max_completion_tokens"@.len());
    assert("system"@[0] != "format"@[0]);
    assert("system"@.len() != "stream_options"@.len());
    assert("system"@.len() != "contents"@.len());
    assert("system"@.len() != "systemInstruction"@.len());
    assert("system"@.len() != "generationConfig"@.len());
    assert("temperature"@.len() != "tools"@.len());
    assert("temperature"@.len() != "stream"@.len());
    assert("temperature"@.len() != "top_p"@.len());
    assert("temperature"@.len() != "response_format"@.len());
    assert("temperature"@.len() != "max_completion_tokens"@.len());
    assert("temperature"@.len() != "format"@.len());
    assert("temperature"@.len() != "stream_options"@.len());
    assert("temperature"@.len() != "contents"@.len());
    assert("temperature"@.len() != "systemInstruction"@.len());
    assert("temperature"@.len() != "generationConfig"@.len());
    assert("tools"@.len() != "stream"@.len());
    assert("tools"@[2] != "top_p"@[2]);
    assert("tools"@.len() != "response_format"@.len());
    assert("tools"@.len() != "max_completion_tokens"@.len());
    assert("tools"@.len() != "format"@.len());
    assert("tools"@.len() != "stream_options"@.len());
    assert("tools"@.len() != "contents"@.len());
    assert("tools"@.len() != "systemInstruction"@.len());
    assert("tools"@.len() != "generationConfig"@.len());
    assert("stream"@.len() != "top_p"@.len());
    assert("stream"@.len() != "response_format"@.len());
    assert("stream"@.len() != "max_completion_tokens"@.len());
    assert("stream"@[0] != "format"@[0]);
    assert("stream"@.len() != "stream_options"@.len());
    assert("stream"@.len() != "contents"@.len());
    assert("stream"@.len() != "systemInstruction"@.len());
    assert("stream"@.len() != "generationConfig"@.len());
    assert("top_p"@.len() != "response_format"@.len());
    assert("top_p"@.len() != "max_completion_tokens"@.len());
    assert("top_p"@.len() != "format"@.len());
    assert("top_p"@.len() != "stream_options"@.len());
    assert("top_p"@.len() != "contents"@.len());
    assert("top_p"@.len() != "systemInstruction"@.len());
    assert("top_p"@.len() != "generationConfig"@.len());
    assert("response_format"@.len() != "max_completion_tokens"@.len());
    assert("response_format"@.len() != "format"@.len());
    assert("response_format"@.len() != "stream_options"@.len());
    assert("response_format"@.len() != "contents"@.len());
    assert("response_format"@.len() != "systemInstruction"@.len());
    assert("response_format"@.len() != "generationConfig"@.len());
    assert("max_completion_tokens"@.len() != "format"@.len());
    assert("max_completion_tokens"@.len() != "stream_options"@.len());
    assert("max_completion_tokens"@.len() != "contents"@.len());
    assert("max_completion_tokens"@.len() != "systemInstruction"@.len());
    assert("max_completion_tokens"@.len() != "generationConfig"@.len());
    assert("format"@.len() != "stream_options"@.len());
    assert("format"@.len() != "contents"@.len());
    assert("format"@.len() != "systemInstruction"@.len());
    assert("format"@.len() != "generationConfig"@.len());
    assert("stream_options"@.len() != "contents"@.len());
    assert("stream_options"@.len() != "systemInstruction"@.len());
    assert("stream_options"@.len() != "generationConfig"@.len());
    assert("contents"@.len() != "systemInstruction"@.len());
    assert("contents"@.len() != "generationConfig"@.len());
    assert("systemInstruction"@.len() != "generationConfig"@.len());
}

/// The names of the members of messages and tools are different.
proof fn lemma_message_keys()
    ensures
        "type"@ != "text"@,
        "type"@ != "source"@,
        "type"@ != "media_type"@,
        "type"@ != "data"@,
        "type"@ != "role"@,
        "type"@ != "content"@,
        "type"@ != "tool_use_id"@,
        "type"@ != "name"@,
        "type"@ != "description"@,
        "type"@ != "input_schema"@,
        "type"@ != "parameters"@,
        "type"@ != "function"@,
        "type"@ != "image_url"@,
        "type"@ != "images"@,
        "type"@ != "tool_calls"@,
        "type"@ != "tool_call_id"@,
        "type"@ != "id"@,
        "type"@ != "arguments"@,
        "text"@ != "source"@,
        "text"@ != "media_type"@,
        "text"@ != "data"@,
        "text"@ != "role"@,
        "text"@ != "content"@,
        "text"@ != "tool_use_id"@,
        "text"@ != "name"@,
        "text"@ != "description"@,
        "text"@ != "input_schema"@,
        "text"@ != "parameters"@,
        "text"@ != "function"@,
        "text"@ != "image_url"@,
        "text"@ != "images"@,
        "text"@ != "tool_calls"@,
        "text"@ != "tool_call_id"@,
        "text"@ != "id"@,
        "text"@ != "arguments"@,
        "source"@ != "media_type"@,
        "source"@ != "data"@,
        "source"@ != "role"@,
        "source"@ != "content"@,
        "source"@ != "tool_use_id"@,
        "source"@ != "name"@,
        "source"@ != "description"@,
        "source"@ != "input_schema"@,
        "source"@ != "parameters"@,
        "source"@ != "function"@,
        "source"@ != "image_url"@,
        "source"@ != "images"@,
        "source"@ != "tool_calls"@,
        "source"@ != "tool_call_id"@,
        "source"@ != "id"@,
        "source"@ != "arguments"@,
        "media_type"@ != "data"@,
        "media_type"@ != "role"@,
        "media_type"@ != "content"@,
        "media_type"@ != "tool_use_id"@,
        "media_type"@ != "name"@,
        "media_type"@ != "description"@,
        "media_type"@ != "input_schema"@,
        "media_type"@ != "parameters"@,
        "media_type"@ != "function"@,
        "media_type"@ != "image_url"@,
        "media_type"@ != "images"@,
        "media_type"@ != "tool_calls"@,
        "media_type"@ != "tool_call_id"@,
        "media_type"@ != "id"@,
        "media_type"@ != "arguments"@,
        "data"@ != "role"@,
        "data"@ != "content"@,
        "data"@ != "tool_use_id"@,
        "data"@ != "name"@,
        "data"@ != "description"@,
        "data"@ != "input_schema"@,
        "data"@ != "parameters"@,
        "data"@ != "function"@,
        "data"@ != "image_url"@,
        "data"@ != "images"@,
        "data"@ != "tool_calls"@,
        "data"@ != "tool_call_id"@,
        "data"@ != "id"@,
        "data"@ != "arguments"@,
        "role"@ != "content"@,
        "role"@ != "tool_use_id"@,
        "role"@ != "name"@,
        "role"@ != "description"@,
        "role"@ != "input_schema"@,
        "role"@ != "parameters"@,
        "role"@ != "function"@,
        "role"@ != "image_url"@,
        "role"@ != "images"@,
        "role"@ != "tool_calls"@,
        "role"@ != "tool_call_id"@,
        "role"@ != "id"@,
        "role"@ != "arguments"@,
        "content"@ != "tool_use_id"@,
        "content"@ != "name"@,
        "content"@ != "description"@,
        "content"@ != "input_schema"@,
        "content"@ != "parameters"@,
        "content"@ != "function"@,
        "content"@ != "image_url"@,
        "content"@ != "images"@,
        "content"@ != "tool_calls"@,
        "content"@ != "tool_call_id"@,
        "content"@ != "id"@,
        "content"@ != "arguments"@,
        "tool_use_id"@ != "name"@,
        "tool_use_id"@ != "description"@,
        "tool_use_id"@ != "input_schema"@,
        "tool_use_id"@ != "parameters"@,
        "tool_use_id"@ != "function"@,
        "tool_use_id"@ != "image_url"@,
        "tool_use_id"@ != "images"@,
        "tool_use_id"@ != "tool_calls"@,
        "tool_use_id"@ != "tool_call_id"@,
        "tool_use_id"@ != "id"@,
        "tool_use_id"@ != "arguments"@,
        "name"@ != "description"@,
        "name"@ != "input_schema"@,
        "name"@ != "parameters"@,
        "name"@ != "function"@,
        "name"@ != "image_url"@,
        "name"@ != "images"@,
        "name"@ != "tool_calls"@,
        "name"@ != "tool_call_id"@,
        "name"@ != "id"@,
        "name"@ != "arguments"@,
        "description"@ != "input_schema"@,
        "description"@ != "parameters"@,
        "description"@ != "function"@,
        "description"@ != "image_url"@,
        "description"@ != "images"@,
        "description"@ != "tool_calls"@,
        "description"@ != "tool_call_id"@,
        "description"@ != "id"@,
        "description"@ != "arguments"@,
        "input_schema"@ != "parameters"@,
        "input_schema"@ != "function"@,
        "input_schema"@ != "image_url"@,
        "input_schema"@ != "images"@,
        "input_schema"@ != "tool_calls"@,
        "input_schema"@ != "tool_call_id"@,
        "input_schema"@ != "id"@,
        "input_schema"@ != "arguments"@,
        "parameters"@ != "function"@,
        "parameters"@ != "image_url"@,
        "parameters"@ != "images"@,
        "parameters"@ != "tool_calls"@,
        "parameters"@ != "tool_call_id"@,
        "parameters"@ != "id"@,
        "parameters"@ != "arguments"@,
        "function"@ != "image_url"@,
        "function"@ != "images"@,
        "function"@ != "tool_calls"@,
        "function"@ != "tool_call_id"@,
        "function"@ != "id"@,
        "function"@ != "arguments"@,
        "image_url"@ != "images"@,
        "image_url"@ != "tool_calls"@,
        "image_url"@ != "tool_call_id"@,
        "image_url"@ != "id"@,
        "image_url"@ != "arguments"@,
        "images"@ != "tool_calls"@,
        "images"@ != "tool_call_id"@,
        "images"@ != "id"@,
        "images"@ != "arguments"@,
        "tool_calls"@ != "tool_call_id"@,
        "tool_calls"@ != "id"@,
        "tool_calls"@ != "arguments"@,
        "tool_call_id"@ != "id"@,
        "tool_call_id"@ != "arguments"@,
        "id"@ != "arguments"@,
{
    reveal_strlit("type");
    reveal_strlit("text");
    reveal_strlit("source");
    reveal_strlit("media_type");
    reveal_strlit("data");
    reveal_strlit("role");
    reveal_strlit("content");
    reveal_strlit("tool_use_id");
    reveal_strlit("name");
    reveal_strlit("description");
    reveal_strlit("input_schema");
    reveal_strlit("parameters");
    reveal_strlit("function");
    reveal_strlit("image_url");
    reveal_strlit("images");
    reveal_strlit("tool_calls");
    reveal_strlit("tool_call_id");
    reveal_strlit("id");
    reveal_strlit("arguments");
    assert("type"@[1] != "text"@[1]);
    assert("type"@.len() != "source"@.len());
    assert("type"@.len() != "media_type"@.len());
    assert("type"@[0] != "data"@[0]);
    assert("type"@[0] != "role"@[0]);
    assert("type"@.len() != "content"@.len());
    assert("type"@.len() != "tool_use_id"@.len());
    assert("type"@[0] != "name"@[0]);
    assert("type"@.len() != "description"@.len());
    assert("type"@.len() != "input_schema"@.len());
    assert("type"@.len() != "parameters"@.len());
    assert("type"@.len() != "function"@.len());
    assert("type"@.len() != "image_url"@.len());
    assert("type"@.len() != "images"@.len());
    assert("type"@.len() != "tool_calls"@.len());
    assert("type"@.len() != "tool_call_id"@.len());
    assert("type"@.len() != "id"@.len());
    assert("type"@.len() != "arguments"@.len());
    assert("text"@.len() != "source"@.len());
    assert("text"@.len() != "media_type"@.len());
    assert("text"@[0] != "data"@[0]);
    assert("text"@[0] != "role"@[0]);
    assert("text"@.len() != "content"@.len());
    assert("text"@.len() != "tool_use_id"@.len());
    assert("text"@[0] != "name"@[0]);
    assert("text"@.len() != "description"@.len());
    assert("text"@.len() != "input_schema"@.len());
    assert("text"@.len() != "parameters"@.len());
    assert("text"@.len() != "function"@.len());
    assert("text"@.len() != "image_url"@.len());
    assert("text"@.len() != "images"@.len());
    assert("text"@.len() != "tool_calls"@.len());
    assert("text"@.len() != "tool_call_id"@.len());
    assert("text"@.len() != "id"@.len());
    assert("text"@.len() != "arguments"@.len());
    assert("source"@.len() != "media_type"@.len());
    assert("source"@.len() != "data"@.len());
    assert("source"@.len() != "role"@.len());
    assert("source"@.len() != "content"@.len());
    assert("source"@.len() != "tool_use_id"@.len());
    assert("source"@.len() != "name"@.len());
    assert("source"@.len() != "description"@.len());
    assert("source"@.len() != "input_schema"@.len());
    assert("source"@.len() != "parameters"@.len());
    assert("source"@.len() != "function"@.len());
    assert("source"@.len() != "image_url"@.len());
    assert("source"@[0] != "images"@[0]);
    assert("source"@.len() != "tool_calls"@.len());
    assert("source"@.len() != "tool_call_id"@.len());
    assert("source"@.len() != "id"@.len());
    assert("source"@.len() != "arguments"@.len());
    assert("media_type"@.len() != "data"@.len());
    assert("media_type"@.len() != "role"@.len());
    assert("media_type"@.len() != "content"@.len());
    assert("media_type"@.len() != "tool_use_id"@.len());
    assert("media_type"@.len() != "name"@.len());
    assert("media_type"@.len() != "description"@.len());
    assert("media_type"@.len() != "input_schema"@.len());
    assert("media_type"@[0] != "parameters"@[0]);
    assert("media_type"@.len() != "function"@.len());
    assert("media_type"@.len() != "image_url"@.len());
    assert("media_type"@.len() != "images"@.len());
    assert("media_type"@[0] != "tool_calls"@[0]);
    assert("media_type"@.len() != "tool_call_id"@.len());
    assert("media_type"@.len() != "id"@.len());
    assert("media_type"@.len() != "arguments"@.len());
    assert("data"@[0] != "role"@[0]);
    assert("data"@.len() != "content"@.len());
    assert("data"@.len() != "tool_use_id"@.len());
    assert("data"@[0] != "name"@[0]);
    assert("data"@.len() != "description"@.len());
    assert("data"@.len() != "input_schema"@.len());
    assert("data"@.len() != "parameters"@.len());
    assert("data"@.len() != "function"@.len());
    assert("data"@.len() != "image_url"@.len());
    assert("data"@.len() != "images"@.len());
    assert("data"@.len() != "tool_calls"@.len());
    assert("data"@.len() != "tool_call_id"@.len());
    assert("data"@.len() != "id"@.len());
    assert("data"@.len() != "arguments"@.len());
    assert("role"@.len() != "content"@.len());
    assert("role"@.len() != "tool_use_id"@.len());
    assert("role"@[0] != "name"@[0]);
    assert("role"@.len() != "description"@.len());
    assert("role"@.len() != "input_schema"@.len());
    assert("role"@.len() != "parameters"@.len());
    assert("role"@.len() != "function"@.len());
    assert("role"@.len() != "image_url"@.len());
    assert("role"@.len() != "images"@.len());
    assert("role"@.len() != "tool_calls"@.len());
    assert("role"@.len() != "tool_call_id"@.len());
    assert("role"@.len() != "id"@.len());
    assert("role"@.len() != "arguments"@.len());
    assert("content"@.len() != "tool_use_id"@.len());
    assert("content"@.len() != "name"@.len());
    assert("content"@.len() != "description"@.len());
    assert("content"@.len() != "input_schema"@.len());
    assert("content"@.len() != "parameters"@.len());
    assert("content"@.len() != "function"@.len());
    assert("content"@.len() != "image_url"@.len());
    assert("content"@.len() != "images"@.len());
    assert("content"@.len() != "tool_calls"@.len());
    assert("content"@.len() != "tool_call_id"@.len());
    assert("content"@.len() != "id"@.len());
    assert("content"@.len() != "arguments"@.len());
    assert("tool_use_id"@.len() != "name"@.len());
    assert("tool_use_id"@[0] != "description"@[0]);
    assert("tool_use_id"@.len() != "input_schema"@.len());
    assert("tool_use_id"@.len() != "parameters"@.len());
    assert("tool_use_id"@.len() != "function"@.len());
    assert("tool_use_id"@.len() != "image_url"@.len());
    assert("tool_use_id"@.len() != "images"@.len());
    assert("tool_use_id"@.len() != "tool_calls"@.len());
    assert("tool_use_id"@.len() != "tool_call_id"@.len());
    assert("tool_use_id"@.len() != "id"@.len());
    assert("tool_use_id"@.len() != "arguments"@.len());
    assert("name"@.len() != "description"@.len());
    assert("name"@.len() != "input_schema"@.len());
    assert("name"@.len() != "parameters"@.len());
    assert("name"@.len() != "function"@.len());
    assert("name"@.len() != "image_url"@.len());
    assert("name"@.len() != "images"@.len());
    assert("name"@.len() != "tool_calls"@.len());
    assert("name"@.len() != "tool_call_id"@.len());
    assert("name"@.len() != "id"@.len());
    assert("name"@.len() != "arguments"@.len());
    assert("description"@.len() != "input_schema"@.len());
    assert("description"@.len() != "parameters"@.len());
    assert("description"@.len() != "function"@.len());
    assert("description"@.len() != "image_url"@.len());
    assert("description"@.len() != "images"@.len());
    assert("description"@.len() != "tool_calls"@.len());
    assert("description"@.len() != "tool_call_id"@.len());
    assert("description"@.len() != "id"@.len());
    assert("description"@.len() != "arguments"@.len());
    assert("input_schema"@.len() != "parameters"@.len());
    assert("input_schema"@.len() != "function"@.len());
    assert("input_schema"@.len() != "image_url"@.len());
    assert("input_schema"@.len() != "images"@.len());
    assert("input_schema"@.len() != "tool_calls"@.len());
    assert("input_schema"@[0] != "tool_call_id"@[0]);
    assert("input_schema"@.len() != "id"@.len());
    assert("input_schema"@.len() != "arguments"@.len());
    assert("parameters"@.len() != "function"@.len());
    assert("parameters"@.len() != "image_url"@.len());
    assert("parameters"@.len() != "images"@.len());
    assert("parameters"@[0] != "tool_calls"@[0]);
    assert("parameters"@.len() != "tool_call_id"@.len());
    assert("parameters"@.len() != "id"@.len());
    assert("parameters"@.len() != "arguments"@.len());
    assert("function"@.len() != "image_url"@.len());
    assert("function"@.len() != "images"@.len());
    assert("function"@.len() != "tool_calls"@.len());
    assert("function"@.len() != "tool_call_id"@.len());
    assert("function"@.len() != "id"@.len());
    assert("function"@.len() != "arguments"@.len());
    assert("image_url"@.len() != "images"@.len());
    assert("image_url"@.len() != "tool_calls"@.len());
    assert("image_url"@.len() != "tool_call_id"@.len());
    assert("image_url"@.len() != "id"@.len());
    assert("image_url"@[0] != "arguments"@[0]);
    assert("images"@.len() != "tool_calls"@.len());
    assert("images"@.len() != "tool_call_id"@.len());
    assert("images"@.len() != "id"@.len());
    assert("images"@.len() != "arguments"@.len());
    assert("tool_calls"@.len() != "tool_call_id"@.len());
    assert("tool_calls"@.len() != "id"@.len());
    assert("tool_calls"@.len() != "arguments"@.len());
    assert("tool_call_id"@.len() != "id"@.len());
    assert("tool_call_id"@.len() != "arguments"@.len());
    assert("id"@.len() != "arguments"@.len());
}

/// The names of the members of a turn are different.
proof fn lemma_turn_keys()
    ensures
        "name"@ != "args"@,
        "name"@ != "id"@,
        "name"@ != "response"@,
        "name"@ != "role"@,
        "name"@ != "parts"@,
        "name"@ != "maxOutputTokens"@,
        "name"@ != "temperature"@,
        "name"@ != "topP"@,
        "name"@ != "responseMimeType"@,
        "name"@ != "mime_type"@,
        "name"@ != "data"@,
        "args"@ != "id"@,
        "args"@ != "response"@,
        "args"@ != "role"@,
        "args"@ != "parts"@,
        "args"@ != "maxOutputTokens"@,
        "args"@ != "temperature"@,
        "args"@ != "topP"@,
        "args"@ != "responseMimeType"@,
        "args"@ != "mime_type"@,
        "args"@ != "data"@,
        "id"@ != "response"@,
        "id"@ != "role"@,
        "id"@ != "parts"@,
        "id"@ != "maxOutputTokens"@,
        "id"@ != "temperature"@,
        "id"@ != "topP"@,
        "id"@ != "responseMimeType"@,
        "id"@ != "mime_type"@,
        "id"@ != "data"@,
        "response"@ != "role"@,
        "response"@ != "parts"@,
        "response"@ != "maxOutputTokens"@,
        "response"@ != "temperature"@,
        "response"@ != "topP"@,
        "response"@ != "responseMimeType"@,
        "response"@ != "mime_type"@,
        "response"@ != "data"@,
        "role"@ != "parts"@,
        "role"@ != "maxOutputTokens"@,
        "role"@ != "temperature"@,
        "role"@ != "topP"@,
        "role"@ != "responseMimeType"@,
        "role"@ != "mime_type"@,
        "role"@ != "data"@,
        "parts"@ != "maxOutputTokens"@,
        "parts"@ != "temperature"@,
        "parts"@ != "topP"@,
        "parts"@ != "responseMimeType"@,
        "parts"@ != "mime_type"@,
        "parts"@ != "data"@,
        "maxOutputTokens"@ != "temperature"@,
        "maxOutputTokens"@ != "topP"@,
        "maxOutputTokens"@ != "responseMimeType"@,
        "maxOutputTokens"@ != "mime_type"@,
        "maxOutputTokens"@ != "data"@,
        "temperature"@ != "topP"@,
        "temperature"@ != "responseMimeType"@,
        "temperature"@ != "mime_type"@,
        "temperature"@ != "data"@,
        "topP"@ != "responseMimeType"@,
        "topP"@ != "mime_type"@,
        "topP"@ != "data"@,
        "responseMimeType"@ != "mime_type"@,
        "responseMimeType"@ != "data"@,
        "mime_type"@ != "data"@,
{
    reveal_strlit("name");
    reveal_strlit("args");
    reveal_strlit("id");
    reveal_strlit("response");
    reveal_strlit("role");
    reveal_strlit("parts");
    reveal_strlit("maxOutputTokens");
    reveal_strlit("temperature");
    reveal_strlit("topP");
    reveal_strlit("responseMimeType");
    reveal_strlit("mime_type");
    reveal_strlit("data");
    assert("name"@[0] != "args"@[0]);
    assert("name"@.len() != "id"@.len());
    assert("name"@.len() != "response"@.len());
    assert("name"@[0] != "role"@[0]);
    assert("name"@.len() != "parts"@.len());
    assert("name"@.len() != "maxOutputTokens"@.len());
    assert("name"@.len() != "temperature"@.len());
    assert("name"@[0] != "topP"@[0]);
    assert("name"@.len() != "responseMimeType"@.len());
    assert("name"@.len() != "mime_type"@.len());
    assert("name"@[0] != "data"@[0]);
    assert("args"@.len() != "id"@.len());
    assert("args"@.len() != "response"@.len());
    assert("args"@[0] != "role"@[0]);
    assert("args"@.len() != "parts"@.len());
    assert("args"@.len() != "maxOutputTokens"@.len());
    assert("args"@.len() != "temperature"@.len());
    assert("args"@[0] != "topP"@[0]);
    assert("args"@.len() != "responseMimeType"@.len());
    assert("args"@.len() != "mime_type"@.len());
    assert("args"@[0] != "data"@[0]);
    assert("id"@.len() != "response"@.len());
    assert("id"@.len() != "role"@.len());
    assert("id"@.len() != "parts"@.len());
    assert("id"@.len() != "maxOutputTokens"@.len());
    assert("id"@.len() != "temperature"@.len());
    assert("id"@.len() != "topP"@.len());
    assert("id"@.len() != "responseMimeType"@.len());
    assert("id"@.len() != "mime_type"@.len());
    assert("id"@.len() != "data"@.len());
    assert("response"@.len() != "role"@.len());
    assert("response"@.len() != "parts"@.len());
    assert("response"@.len() != "maxOutputTokens"@.len());
    assert("response"@.len() != "temperature"@.len());
    assert("response"@.len() != "topP"@.len());
    assert("response"@.len() != "responseMimeType"@.len());
    assert("response"@.len() != "mime_type"@.len());
    assert("response"@.len() != "data"@.len());
    assert("role"@.len() != "parts"@.len());
    assert("role"@.len() != "maxOutputTokens"@.len());
    assert("role"@.len() != "temperature"@.len());
    assert("role"@[0] != "topP"@[0]);
    assert("role"@.len() != "responseMimeType"@.len());
    assert("role"@.len() != "mime_type"@.len());
    assert("role"@[0] != "data"@[0]);
    assert("parts"@.len() != "maxOutputTokens"@.len());
    assert("parts"@.len() != "temperature"@.len());
    assert("parts"@.len() != "topP"@.len());
    assert("parts"@.len() != "responseMimeType"@.len());
    assert("parts"@.len() != "mime_type"@.len());
    assert("parts"@.len() != "data"@.len());
    assert("maxOutputTokens"@.len() != "temperature"@.len());
    assert("maxOutputTokens"@.len() != "topP"@.len());
    assert("maxOutputTokens"@.len() != "responseMimeType"@.len());
    assert("maxOutputTokens"@.len() != "mime_type"@.len());
    assert("maxOutputTokens"@.len() != "data"@.len());
    assert("temperature"@.len() != "topP"@.len());
    assert("temperature"@.len() != "responseMimeType"@.len());
    assert("temperature"@.len() != "mime_type"@.len());
    assert("temperature"@.len() != "data"@.len());
    assert("topP"@.len() != "responseMimeType"@.len());
    assert("topP"@.len() != "mime_type"@.len());
    assert("topP"@[0] != "data"@[0]);
    assert("responseMimeType"@.len() != "mime_type"@.len());
    assert("responseMimeType"@.len() != "data"@.len());
    assert("mime_type"@.len() != "data"@.len());
}


// ---------------------------------------------------------------------------
// Texts and images
// ---------------------------------------------------------------------------

/// The part is a text.
pub open spec fn is_words(p: ContentPart) -> bool {
    p is Text
}

proof fn lemma_part_texts(parts: Seq<ContentPart>)
    ensures
        part_texts(parts).len() == parts.filter(|p: ContentPart| is_words(p)).len(),
        forall|i: int|
            0 <= i < part_texts(parts).len() ==> #[trigger] part_texts(parts)[i] == (parts.filter(
                |p: ContentPart| is_words(p),
            )[i]->Text_0)@,
    decreases parts.len(),
{
    reveal(Seq::filter);
    if parts.len() > 0 {
        lemma_part_texts(parts.drop_last());
        let f = |p: ContentPart| is_words(p);
        let rest = parts.drop_last().filter(f);
        let all = parts.filter(f);
        let t = part_texts(parts);
        assert forall|i: int| 0 <= i < t.len() implies #[trigger] t[i] == (all[i]->Text_0)@ by {
            if i < rest.len() {
                assert(all[i] == rest[i]);
            }
        }
    }
}

/// The text of a message is its text, or the texts among its parts, all of them
/// in their order, one to a line.
pub proof fn law_the_text_of_a_message(content: MessageContent) -> (texts: Seq<Seq<char>>)
    ensures
        content matches MessageContent::Text(s) ==> flat_text(content) == s@,
        content matches MessageContent::Parts(parts) ==> {
            let words = parts@.filter(|p: ContentPart| is_words(p));
            &&& flat_text(content) == join(texts, seq!['\n'])
            &&& texts.len() == words.len()
            &&& forall|i: int| 0 <= i < texts.len() ==> #[trigger] texts[i] == (words[i]->Text_0)@
        },
{
    reveal_strlit("\n");
    assert("\n"@ =~= seq!['\n']);
    match content {
        MessageContent::Parts(parts) => {
            lemma_part_texts(parts@);
            part_texts(parts@)
        },
        MessageContent::Text(s) => Seq::empty(),
    }
}

proof fn lemma_trim_end_char(s: Seq<char>, c: char)
    requires
        s.len() == 0 || s.last() != c,
    ensures
        trim_end_char(s.push(c), c) == s,
        trim_end_char(s, c) == s,
{
    assert(trim_end_char(s, c) == s);
    let longer = s.push(c);
    assert(longer.drop_last() =~= s);
    assert(longer.last() == c);
    assert(trim_end_char(longer, c) == trim_end_char(longer.drop_last(), c));
}

/// An inline image `data:MIME;base64,DATA` is sent with that media type and
/// that data.
pub proof fn law_inline_images_are_taken_apart(mime: Seq<char>, data: Seq<char>)
    requires
        free_of(mime, ','),
        free_of(mime, ':'),
        free_of(mime, ';'),
    ensures
        media_type(seq!['d', 'a', 't', 'a', ':'] + mime + seq![';', 'b', 'a', 's', 'e', '6', '4', ','] + data) == Some(
            mime,
        ),
        base64_data(seq!['d', 'a', 't', 'a', ':'] + mime + seq![';', 'b', 'a', 's', 'e', '6', '4', ','] + data) == Some(
            data,
        ),
{
    reveal_strlit("base64,");
    reveal_strlit("data:");
    let mark = "base64,"@;
    let head = "data:"@;
    let url = seq!['d', 'a', 't', 'a', ':'] + mime + seq![';', 'b', 'a', 's', 'e', '6', '4', ','] + data;
    let k = 6 + mime.len() as int;
    assert(url.subrange(k, k + 7) =~= mark);
    assert(at(url, mark, k));
    lemma_find_from(url, mark, 0);
    assert(find_from(url, mark, 0) is Some);
    let f = find_from(url, mark, 0)->0;
    if f < k {
        assert(url.subrange(f, f + 7)[6] == mark[6]);
        assert(url[f + 6] == ',');
        if 5 <= f + 6 < 5 + mime.len() {
            assert(mime[f + 6 - 5] == ',');
        }
    }
    assert(f == k);
    assert(url.subrange(k + 7, url.len() as int) =~= data);
    assert(url.subrange(0, 5) =~= head);
    let front = url.subrange(0, k);
    assert(front.subrange(0, 5) =~= head);
    assert(starts_with(front, head));
    let rest = front.subrange(5, front.len() as int);
    assert(rest =~= mime.push(';'));
    if starts_with(rest, head) {
        assert(rest.subrange(0, 5)[4] == ':');
        assert(rest[4] == ':');
        if 4 < mime.len() {
            assert(mime[4] == ':');
        }
    }
    assert(drop_prefixes(rest, head) == rest);
    assert(drop_prefixes(front, head) == rest);
    if mime.len() > 0 {
        assert(mime[mime.len() - 1] != ';');
    }
    lemma_trim_end_char(mime, ';');
}

/// An address that is no data URL has no media type, and one without the marker
/// no data: such images are not inline.
pub proof fn law_other_images_are_not_inline(url: Seq<char>)
    ensures
        !starts_with(url, "data:"@) ==> media_type(url) is None,
        !contains(url, "base64,"@) ==> media_type(url) is None && base64_data(url) is None,
        contains(url, "base64,"@) ==> base64_data(url) is Some,
{
    lemma_find_from(url, "base64,"@, 0);
    if contains(url, "base64,"@) {
        let i = choose|i: int| #[trigger] at(url, "base64,"@, i);
        assert(find_from(url, "base64,"@, 0) is Some);
    }
}

/// The part is sent: a text always, an image only where it is inline.
pub open spec fn can_be_sent(p: ContentPart) -> bool {
    match p {
        ContentPart::Text(s) => true,
        ContentPart::Image { url } => media_type(url@) is Some && base64_data(url@) is Some,
    }
}

// ---------------------------------------------------------------------------
// Anthropic
// ---------------------------------------------------------------------------

/// The block shows the part.
pub open spec fn shows(block: JsonV, p: ContentPart) -> bool {
    match p {
        ContentPart::Text(s) => block.at_key("type"@) == JsonV::Text("text"@) && block.at_key("text"@) == JsonV::Text(s@),
        ContentPart::Image { url } => {
            &&& block.at_key("type"@) == JsonV::Text("image"@)
            &&& block.at_key("source"@).at_key("type"@) == JsonV::Text("base64"@)
            &&& media_type(url@) matches Some(mime) && block.at_key("source"@).at_key("media_type"@) == JsonV::Text(mime)
            &&& base64_data(url@) matches Some(data) && block.at_key("source"@).at_key("data"@) == JsonV::Text(data)
        },
    }
}

/// The blocks of a message show its parts, all that can be sent, in order.
pub proof fn law_blocks_show_the_parts(parts: Seq<ContentPart>)
    ensures
        anthropic::block_values(parts).len() == parts.filter(|p: ContentPart| can_be_sent(p)).len(),
        forall|i: int|
            0 <= i < anthropic::block_values(parts).len() ==> shows(
                #[trigger] anthropic::block_values(parts)[i],
                parts.filter(|p: ContentPart| can_be_sent(p))[i],
            ),
    decreases parts.len(),
{
    reveal(Seq::filter);
    lemma_message_keys();
    if parts.len() > 0 {
        law_blocks_show_the_parts(parts.drop_last());
        let f = |p: ContentPart| can_be_sent(p);
        let rest = parts.drop_last().filter(f);
        let all = parts.filter(f);
        let t = anthropic::block_values(parts);
        assert forall|i: int| 0 <= i < t.len() implies shows(#[trigger] t[i], all[i]) by {
            if i < rest.len() {
                assert(all[i] == rest[i]);
                assert(t[i] == anthropic::block_values(parts.drop_last())[i]);
            }
        }
    }
}

/// The entry says what the message says, under the role that it has there.
pub open spec fn anthropic_says(v: JsonV, m: ChatMessage) -> bool {
    match m.role {
        MessageRole::System => false,
        MessageRole::User => {
            &&& v.at_key("role"@) == JsonV::Text("user"@)
            &&& match m.content {
                MessageContent::Text(s) => v.at_key("content"@) == JsonV::Text(s@),
                MessageContent::Parts(parts) => {
                    let sent = parts@.filter(|p: ContentPart| can_be_sent(p));
                    if sent.len() == 0 {
                        v.at_key("content"@) == JsonV::Text(flat_text(m.content))
                    } else {
                        v.at_key("content"@) matches JsonV::Array(blocks) && blocks.len() == sent.len() && forall|i: int|
                            0 <= i < blocks.len() ==> shows(#[trigger] blocks[i], sent[i])
                    }
                },
            }
        },
        MessageRole::Assistant => v.at_key("role"@) == JsonV::Text("assistant"@) && v.at_key("content"@) == JsonV::Text(
            flat_text(m.content),
        ),
        MessageRole::Tool => {
            &&& v.at_key("role"@) == JsonV::Text("user"@)
            &&& v.at_key("content"@) matches JsonV::Array(blocks) && blocks.len() == 1 && {
                &&& blocks[0].at_key("type"@) == JsonV::Text("tool_result"@)
                &&& m.name matches Some(n) ==> blocks[0].at_key("tool_use_id"@) == JsonV::Text(n@)
                &&& blocks[0].at_key("content"@) == JsonV::Text(flat_text(m.content))
            }
        },
    }
}

/// The message is no system prompt.
pub open spec fn in_turn(m: ChatMessage) -> bool {
    m.role != MessageRole::System
}

proof fn lemma_anthropic_message(m: ChatMessage)
    ensures
        match anthropic::message_value(m) {
            Some(v) => in_turn(m) && anthropic_says(v, m),
            None => !in_turn(m),
        },
{
    lemma_message_keys();
    match m.content {
        MessageContent::Parts(parts) => {
            law_blocks_show_the_parts(parts@);
        },
        MessageContent::Text(s) => {},
    }
}

/// Every message but the system prompts is sent, in order.
pub proof fn law_anthropic_messages_are_sent(messages: Seq<ChatMessage>)
    ensures
        anthropic::message_values(messages).len() == messages.filter(|m: ChatMessage| in_turn(m)).len(),
        forall|i: int|
            0 <= i < anthropic::message_values(messages).len() ==> anthropic_says(
                #[trigger] anthropic::message_values(messages)[i],
                messages.filter(|m: ChatMessage| in_turn(m))[i],
            ),
    decreases messages.len(),
{
    reveal(Seq::filter);
    if messages.len() > 0 {
        law_anthropic_messages_are_sent(messages.drop_last());
        lemma_anthropic_message(messages.last());
        let f = |m: ChatMessage| in_turn(m);
        let rest = messages.drop_last().filter(f);
        let all = messages.filter(f);
        let t = anthropic::message_values(messages);
        assert forall|i: int| 0 <= i < t.len() implies anthropic_says(#[trigger] t[i], all[i]) by {
            if i < rest.len() {
                assert(all[i] == rest[i]);
                assert(t[i] == anthropic::message_values(messages.drop_last())[i]);
            }
        }
    }
}

/// The system prompt that is sent is the last of the conversation.
pub proof fn law_the_last_system_prompt_is_sent(messages: Seq<ChatMessage>)
    ensures
        match anthropic::system_prompt(messages) {
            Some(s) => exists|i: int|
                {
                    &&& 0 <= i < messages.len()
                    &&& (#[trigger] messages[i]).role == MessageRole::System
                    &&& s == flat_text(messages[i].content)
                    &&& forall|j: int| i < j < messages.len() ==> (#[trigger] messages[j]).role != MessageRole::System
                },
            None => forall|j: int| 0 <= j < messages.len() ==> (#[trigger] messages[j]).role != MessageRole::System,
        },
    decreases messages.len(),
{
    if messages.len() > 0 {
        let rest = messages.drop_last();
        law_the_last_system_prompt_is_sent(rest);
        if messages.last().role == MessageRole::System {
            assert(messages[messages.len() - 1].role == MessageRole::System);
        } else {
            match anthropic::system_prompt(rest) {
                Some(s) => {
                    let i = choose|i: int|
                        {
                            &&& 0 <= i < rest.len()
                            &&& (#[trigger] rest[i]).role == MessageRole::System
                            &&& s == flat_text(rest[i].content)
                            &&& forall|j: int| i < j < rest.len() ==> (#[trigger] rest[j]).role != MessageRole::System
                        };
                    assert(messages[i] == rest[i]);
                    assert forall|j: int| i < j < messages.len() implies (#[trigger] messages[j]).role
                        != MessageRole::System by {
                        if j < rest.len() {
                            assert(messages[j] == rest[j]);
                        }
                    }
                },
                None => {
                    assert forall|j: int| 0 <= j < messages.len() implies (#[trigger] messages[j]).role
                        != MessageRole::System by {
                        if j < rest.len() {
                            assert(messages[j] == rest[j]);
                        }
                    }
                },
            }
        }
    }
}

/// The model that a request names itself comes before the provider's.
pub open spec fn names_model(value: JsonV, request: ChatRequest, model: Seq<char>) -> bool {
    match request.model_override {
        Some(m) => value == JsonV::Text(m@),
        None => value == JsonV::Text(model),
    }
}

/// The tools of the list are the request's, each with its name, its description
/// and its parameters.
pub open spec fn anthropic_offers(value: JsonV, tools: Seq<ToolDefinition>) -> bool {
    value matches JsonV::Array(list) && list.len() == tools.len() && forall|i: int|
        0 <= i < list.len() ==> {
            &&& (#[trigger] list[i]).at_key("name"@) == JsonV::Text(tools[i].name@)
            &&& list[i].at_key("description"@) == JsonV::Text(tools[i].description@)
            &&& list[i].at_key("input_schema"@) == tools[i].parameters@
        }
}

/// A request to Anthropic names the model, holds the messages and the system
/// prompt, asks for as many tokens as wanted, or 4096, and passes the
/// temperature and the tools on; it streams where asked to.
pub proof fn law_anthropic_requests_are_complete(model: Seq<char>, request: ChatRequest, stream: bool)
    ensures
        ({
            let b = anthropic::request_value(model, request, stream);
            &&& names_model(b.at_key("model"@), request, model)
            &&& b.at_key("messages"@) == JsonV::Array(anthropic::message_values(request.messages@))
            &&& request.max_tokens matches Some(n) ==> b.at_key("max_tokens"@) == JsonV::Number(number_of_u64(n as u64))
            &&& request.max_tokens is None ==> b.at_key("max_tokens"@) == JsonV::Number(number_of_u64(4096))
            &&& match anthropic::system_prompt(request.messages@) {
                Some(s) => b.field("system"@) == Some(JsonV::Text(s)),
                None => b.field("system"@) is None,
            }
            &&& match request.temperature {
                Some(t) => b.field("temperature"@) == Some(t@),
                None => b.field("temperature"@) is None,
            }
            &&& if request.tools@.len() == 0 {
                b.field("tools"@) is None
            } else {
                anthropic_offers(b.at_key("tools"@), request.tools@)
            }
            &&& b.field("stream"@) == if stream {
                Some(JsonV::Bool(true))
            } else {
                None
            }
        }),
{
    lemma_request_keys();
    lemma_message_keys();
    let b = anthropic::request_value(model, request, stream);
    if request.tools@.len() > 0 {
        let list = anthropic::tool_values(request.tools@);
        assert(b.at_key("tools"@) == JsonV::Array(list));
        assert forall|i: int| 0 <= i < list.len() implies {
            &&& (#[trigger] list[i]).at_key("name"@) == JsonV::Text(request.tools@[i].name@)
            &&& list[i].at_key("description"@) == JsonV::Text(request.tools@[i].description@)
            &&& list[i].at_key("input_schema"@) == request.tools@[i].parameters@
        } by {
            assert(list[i] == anthropic::tool_value(request.tools@[i]));
        }
    }
}

// ---------------------------------------------------------------------------
// OpenAI
// ---------------------------------------------------------------------------

/// The tools of the list are the request's, each a function with its name, its
/// description and its parameters.
pub open spec fn offers(value: JsonV, tools: Seq<ToolDefinition>) -> bool {
    value matches JsonV::Array(list) && list.len() == tools.len() && forall|i: int|
        0 <= i < list.len() ==> {
            let f = (#[trigger] list[i]).at_key("function"@);
            &&& list[i].at_key("type"@) == JsonV::Text("function"@)
            &&& f.at_key("name"@) == JsonV::Text(tools[i].name@)
            &&& f.at_key("description"@) == JsonV::Text(tools[i].description@)
            &&& f.at_key("parameters"@) == tools[i].parameters@
        }
}

proof fn lemma_offers(tools: Seq<ToolDefinition>)
    ensures
        offers(JsonV::Array(crate::llm::wire::tool_values(tools)), tools),
{
    lemma_message_keys();
    let list = crate::llm::wire::tool_values(tools);
    assert forall|i: int| 0 <= i < list.len() implies {
        let f = (#[trigger] list[i]).at_key("function"@);
        &&& list[i].at_key("type"@) == JsonV::Text("function"@)
        &&& f.at_key("name"@) == JsonV::Text(tools[i].name@)
        &&& f.at_key("description"@) == JsonV::Text(tools[i].description@)
        &&& f.at_key("parameters"@) == tools[i].parameters@
    } by {
        assert(list[i] == crate::llm::wire::tool_json(tools[i]));
    }
}

/// A request to OpenAI names the model, holds the messages, and passes on what
/// is set: the bound on the tokens, the sampling parameters, the JSON format and
/// the tools. What is not set is not mentioned.
pub proof fn law_openai_requests_are_complete(model: Seq<char>, request: ChatRequest, messages: Seq<JsonV>)
    ensures
        ({
            let b = openai::request_value(model, request, messages);
            &&& names_model(b.at_key("model"@), request, model)
            &&& b.at_key("messages"@) == JsonV::Array(messages)
            &&& request.max_tokens matches Some(n) ==> n <= u32::MAX ==> b.at_key("max_completion_tokens"@)
                == JsonV::Number(number_of_u64(n as u64))
            &&& request.max_tokens is None ==> b.field("max_completion_tokens"@) is None
            &&& match request.temperature {
                Some(t) => b.field("temperature"@) == Some(t@),
                None => b.field("temperature"@) is None,
            }
            &&& match request.top_p {
                Some(t) => b.field("top_p"@) == Some(t@),
                None => b.field("top_p"@) is None,
            }
            &&& if request.response_format == Some(ResponseFormat::Json) {
                b.at_key("response_format"@).at_key("type"@) == JsonV::Text("json_object"@)
            } else {
                b.field("response_format"@) is None
            }
            &&& if request.tools@.len() == 0 {
                b.field("tools"@) is None
            } else {
                offers(b.at_key("tools"@), request.tools@)
            }
        }),
{
    lemma_request_keys();
    lemma_offers(request.tools@);
}

// ---------------------------------------------------------------------------
// Mistral
// ---------------------------------------------------------------------------

/// The name that a role has on the wire.
pub proof fn law_roles_have_their_names()
    ensures
        role_name(MessageRole::System) == "system"@,
        role_name(MessageRole::User) == "user"@,
        role_name(MessageRole::Assistant) == "assistant"@,
        role_name(MessageRole::Tool) == "tool"@,
{
}

/// The value shows the part: a text, or an image by its address.
pub open spec fn mistral_shows(v: JsonV, p: ContentPart) -> bool {
    match p {
        ContentPart::Text(s) => v.at_key("type"@) == JsonV::Text("text"@) && v.at_key("text"@) == JsonV::Text(s@),
        ContentPart::Image { url } => v.at_key("type"@) == JsonV::Text("image_url"@) && v.at_key("image_url"@)
            == JsonV::Text(url@),
    }
}

/// Every message is sent to Mistral, in order, under its role: a user's parts
/// each for itself, every other message as one text.
pub proof fn law_mistral_messages_are_sent(messages: Seq<ChatMessage>, i: int)
    requires
        0 <= i < messages.len(),
    ensures
        mistral::message_values(messages).len() == messages.len(),
        ({
            let v = mistral::message_values(messages)[i];
            let m = messages[i];
            &&& v.at_key("role"@) == JsonV::Text(role_name(m.role))
            &&& match m.content {
                MessageContent::Text(s) => v.at_key("content"@) == JsonV::Text(s@),
                MessageContent::Parts(parts) => if m.role == MessageRole::User {
                    v.at_key("content"@) matches JsonV::Array(list) && list.len() == parts@.len() && forall|k: int|
                        0 <= k < list.len() ==> mistral_shows(#[trigger] list[k], parts@[k])
                } else {
                    v.at_key("content"@) == JsonV::Text(flat_text(m.content))
                },
            }
        }),
{
    lemma_message_keys();
    let m = messages[i];
    let v = mistral::message_values(messages)[i];
    assert(v == mistral::message_value(m));
    match m.content {
        MessageContent::Parts(parts) => {
            let list = mistral::part_values(parts@);
            assert forall|k: int| 0 <= k < list.len() implies mistral_shows(#[trigger] list[k], parts@[k]) by {
                assert(list[k] == mistral::part_value(parts@[k]));
            }
        },
        MessageContent::Text(s) => {},
    }
}

/// A request to Mistral names the model, holds the messages, and passes on what
/// is set; a streamed one asks for the token counts.
pub proof fn law_mistral_requests_are_complete(model: Seq<char>, request: ChatRequest, stream: bool)
    ensures
        ({
            let b = mistral::request_value(model, request, stream);
            &&& names_model(b.at_key("model"@), request, model)
            &&& b.at_key("messages"@) == JsonV::Array(mistral::message_values(request.messages@))
            &&& match request.max_tokens {
                Some(n) => b.field("max_tokens"@) == Some(JsonV::Number(number_of_u64(n as u64))),
                None => b.field("max_tokens"@) is None,
            }
            &&& match request.temperature {
                Some(t) => b.field("temperature"@) == Some(t@),
                None => b.field("temperature"@) is None,
            }
            &&& if stream {
                b.at_key("stream"@) == JsonV::Bool(true) && b.at_key("stream_options"@).at_key("include_usage"@)
                    == JsonV::Bool(true)
            } else {
                b.field("stream"@) is None && b.field("stream_options"@) is None
            }
        }),
{
    lemma_request_keys();
}

// ---------------------------------------------------------------------------
// Ollama
// ---------------------------------------------------------------------------

/// The list holds the calls, each with its id, its name and the text of its
/// arguments.
pub open spec fn asks_for(list: Seq<JsonV>, calls: Seq<ToolCall>) -> bool {
    list.len() == calls.len() && forall|i: int|
        0 <= i < list.len() ==> {
            let f = (#[trigger] list[i]).at_key("function"@);
            &&& list[i].at_key("id"@) == JsonV::Text(calls[i].id@)
            &&& list[i].at_key("type"@) == JsonV::Text("function"@)
            &&& f.at_key("name"@) == JsonV::Text(calls[i].name@)
            &&& f.at_key("arguments"@) == JsonV::Text(rendered(calls[i].arguments@))
        }
}

proof fn lemma_asks_for(calls: Seq<ToolCall>)
    ensures
        asks_for(calls_json(calls), calls),
{
    lemma_message_keys();
    let list = calls_json(calls);
    assert forall|i: int| 0 <= i < list.len() implies {
        let f = (#[trigger] list[i]).at_key("function"@);
        &&& list[i].at_key("id"@) == JsonV::Text(calls[i].id@)
        &&& list[i].at_key("type"@) == JsonV::Text("function"@)
        &&& f.at_key("name"@) == JsonV::Text(calls[i].name@)
        &&& f.at_key("arguments"@) == JsonV::Text(rendered(calls[i].arguments@))
    } by {
        assert(list[i] == crate::llm::wire::call_json(calls[i]@));
    }
}

proof fn lemma_spoken(parts: Seq<ContentPart>)
    requires
        forall|i: int| 0 <= i < parts.len() ==> ((#[trigger] parts[i]) matches ContentPart::Text(s) ==> s@.len() > 0),
    ensures
        ollama::spoken(parts) == join(part_texts(parts), seq!['\n']),
        ollama::spoken(parts).len() == 0 <==> part_texts(parts).len() == 0,
    decreases parts.len(),
{
    if parts.len() > 0 {
        let rest = parts.drop_last();
        assert forall|i: int| 0 <= i < rest.len() implies ((#[trigger] rest[i]) matches ContentPart::Text(s) ==> s@.len()
            > 0) by {
            assert(rest[i] == parts[i]);
        }
        lemma_spoken(rest);
        assert(parts[parts.len() - 1] == parts.last());
        match parts.last() {
            ContentPart::Text(s) => {
                let texts = part_texts(parts);
                assert(texts.drop_last() =~= part_texts(rest));
                assert(s@.len() > 0);
                if texts.len() == 1 {
                    assert(part_texts(rest).len() == 0);
                } else {
                    let t = ollama::spoken(rest);
                    assert(t.push('\n') + s@ =~= t + seq!['\n'] + s@);
                }
            },
            ContentPart::Image { url } => {},
        }
    }
}

/// The text of a message to Ollama is its text, or the texts among its parts,
/// none of them empty, one to a line.
pub proof fn law_ollama_texts_are_whole(content: MessageContent)
    requires
        content matches MessageContent::Parts(parts) ==> forall|i: int|
            0 <= i < parts@.len() ==> ((#[trigger] parts@[i]) matches ContentPart::Text(s) ==> s@.len() > 0),
    ensures
        ollama::content_text(content) == flat_text(content),
{
    reveal_strlit("\n");
    assert("\n"@ =~= seq!['\n']);
    match content {
        MessageContent::Parts(parts) => {
            lemma_spoken(parts@);
        },
        MessageContent::Text(s) => {},
    }
}

/// The part is an image with data of its own.
pub open spec fn pictured(p: ContentPart) -> bool {
    p matches ContentPart::Image { url } && base64_data(url@) is Some
}

/// The images of a message to Ollama are the data of its inline images, in
/// order.
pub proof fn law_ollama_images_are_whole(parts: Seq<ContentPart>)
    ensures
        ollama::pictures(parts).len() == parts.filter(|p: ContentPart| pictured(p)).len(),
        forall|i: int|
            0 <= i < ollama::pictures(parts).len() ==> Some(#[trigger] ollama::pictures(parts)[i]) == base64_data(
                (parts.filter(|p: ContentPart| pictured(p))[i]->url)@,
            ),
    decreases parts.len(),
{
    reveal(Seq::filter);
    if parts.len() > 0 {
        law_ollama_images_are_whole(parts.drop_last());
        let f = |p: ContentPart| pictured(p);
        let rest = parts.drop_last().filter(f);
        let all = parts.filter(f);
        let t = ollama::pictures(parts);
        assert forall|i: int| 0 <= i < t.len() implies Some(#[trigger] t[i]) == base64_data((all[i]->url)@) by {
            if i < rest.len() {
                assert(all[i] == rest[i]);
                assert(t[i] == ollama::pictures(parts.drop_last())[i]);
            }
        }
    }
}

/// Every message is sent to Ollama, in order, under its role and with its text.
/// The images that it shows and the calls that a model asked for go along, and
/// a tool result names the call that it answers: its id, or else the tool.
pub proof fn law_ollama_messages_are_sent(messages: Seq<ChatMessage>, i: int)
    requires
        0 <= i < messages.len(),
    ensures
        ollama::messages_json(messages).len() == messages.len(),
        ({
            let v = ollama::messages_json(messages)[i];
            let m = messages[i];
            let images = ollama::content_images(m.content);
            &&& v.at_key("role"@) == JsonV::Text(role_name(m.role))
            &&& v.at_key("content"@) == JsonV::Text(ollama::content_text(m.content))
            &&& if images.len() == 0 {
                v.field("images"@) is None
            } else {
                v.at_key("images"@) matches JsonV::Array(list) && list.len() == images.len() && forall|k: int|
                    0 <= k < list.len() ==> #[trigger] list[k] == JsonV::Text(images[k])
            }
            &&& if m.role == MessageRole::Assistant && m.tool_calls@.len() > 0 {
                v.at_key("tool_calls"@) matches JsonV::Array(list) && asks_for(list, m.tool_calls@)
            } else {
                v.field("tool_calls"@) is None
            }
            &&& if m.role == MessageRole::Tool {
                match m.tool_call_id {
                    Some(id) => v.field("tool_call_id"@) == Some(JsonV::Text(id@)),
                    None => match m.name {
                        Some(n) => v.field("tool_call_id"@) == Some(JsonV::Text(n@)),
                        None => v.field("tool_call_id"@) is None,
                    },
                }
            } else {
                v.field("tool_call_id"@) is None
            }
        }),
{
    lemma_message_keys();
    let m = messages[i];
    assert(ollama::messages_json(messages)[i] == ollama::message_json(m));
    lemma_asks_for(m.tool_calls@);
}

/// A request to Ollama names the model, holds the messages, and passes on what
/// is set; it streams where asked to.
pub proof fn law_ollama_requests_are_complete(model: Seq<char>, request: ChatRequest, stream: bool)
    ensures
        ({
            let b = ollama::request_json(model, request, stream);
            &&& names_model(b.at_key("model"@), request, model)
            &&& b.at_key("messages"@) == JsonV::Array(ollama::messages_json(request.messages@))
            &&& b.field("stream"@) == if stream {
                Some(JsonV::Bool(true))
            } else {
                None
            }
            &&& match request.max_tokens {
                Some(n) => b.field("max_tokens"@) == Some(JsonV::Number(number_of_u64(n as u64))),
                None => b.field("max_tokens"@) is None,
            }
            &&& match request.temperature {
                Some(t) => b.field("temperature"@) == Some(t@),
                None => b.field("temperature"@) is None,
            }
            &&& match request.top_p {
                Some(t) => b.field("top_p"@) == Some(t@),
                None => b.field("top_p"@) is None,
            }
            &&& if request.response_format == Some(ResponseFormat::Json) {
                b.field("format"@) == Some(JsonV::Text("json"@))
            } else {
                b.field("format"@) is None
            }
            &&& if request.tools@.len() == 0 {
                b.field("tools"@) is None
            } else {
                offers(b.at_key("tools"@), request.tools@)
            }
        }),
{
    lemma_request_keys();
    lemma_offers(request.tools@);
}

/// The names of the tools that a request offers, in order.
pub proof fn law_offered_names(tools: Seq<ToolDefinition>, i: int)
    requires
        0 <= i < tools.len(),
    ensures
        ollama::tool_names(tools).len() == tools.len(),
        ollama::tool_names(tools)[i] == tools[i].name@,
{
}

// ---------------------------------------------------------------------------
// Gemini
// ---------------------------------------------------------------------------

/// The part of a turn shows the part of the message.
pub open spec fn gemini_shows(v: JsonV, p: ContentPart) -> bool {
    match p {
        ContentPart::Text(s) => v.at_key("text"@) == JsonV::Text(s@),
        ContentPart::Image { url } => {
            &&& media_type(url@) matches Some(mime) && v.at_key("inline_data"@).at_key("mime_type"@) == JsonV::Text(mime)
            &&& base64_data(url@) matches Some(data) && v.at_key("inline_data"@).at_key("data"@) == JsonV::Text(data)
        },
    }
}

/// The parts of a turn show those of the message, all that can be sent, in
/// order.
pub proof fn law_turns_show_the_parts(parts: Seq<ContentPart>)
    ensures
        gemini::part_values(parts).len() == parts.filter(|p: ContentPart| can_be_sent(p)).len(),
        forall|i: int|
            0 <= i < gemini::part_values(parts).len() ==> gemini_shows(
                #[trigger] gemini::part_values(parts)[i],
                parts.filter(|p: ContentPart| can_be_sent(p))[i],
            ),
    decreases parts.len(),
{
    reveal(Seq::filter);
    lemma_turn_keys();
    if parts.len() > 0 {
        law_turns_show_the_parts(parts.drop_last());
        let f = |p: ContentPart| can_be_sent(p);
        let rest = parts.drop_last().filter(f);
        let all = parts.filter(f);
        let t = gemini::part_values(parts);
        assert forall|i: int| 0 <= i < t.len() implies gemini_shows(#[trigger] t[i], all[i]) by {
            if i < rest.len() {
                assert(all[i] == rest[i]);
                assert(t[i] == gemini::part_values(parts.drop_last())[i]);
            }
        }
    }
}

/// The part asks for the call, by its name, its arguments and its id unless
/// that is empty.
pub open spec fn gemini_asks(v: JsonV, c: ToolCall) -> bool {
    let fc = v.at_key("functionCall"@);
    &&& fc.at_key("name"@) == JsonV::Text(c.name@)
    &&& fc.at_key("args"@) == c.arguments@
    &&& if c.id@.len() > 0 {
        fc.at_key("id"@) == JsonV::Text(c.id@)
    } else {
        fc.field("id"@) is None
    }
}

/// A turn of the model holds its text unless empty, then every call that it
/// asked for, in order; it is never without a part.
pub proof fn law_turns_of_the_model_are_whole(m: ChatMessage)
    ensures
        ({
            let text = flat_text(m.content);
            let parts = gemini::model_parts(m);
            let n: int = if text.len() > 0 {
                1
            } else {
                0
            };
            &&& text.len() > 0 ==> parts.len() > 0 && parts[0].at_key("text"@) == JsonV::Text(text)
            &&& n + m.tool_calls@.len() > 0 ==> parts.len() == n + m.tool_calls@.len()
            &&& n + m.tool_calls@.len() == 0 ==> parts.len() == 1 && parts[0].at_key("text"@) == JsonV::Text(
                Seq::<char>::empty(),
            )
            &&& forall|i: int|
                0 <= i < m.tool_calls@.len() ==> gemini_asks(parts[n + i], #[trigger] m.tool_calls@[i])
        }),
{
    lemma_turn_keys();
    reveal_strlit("");
    assert(""@ =~= Seq::<char>::empty());
    let text = flat_text(m.content);
    let parts = gemini::model_parts(m);
    let calls = gemini::function_calls(m.tool_calls@);
    let n: int = if text.len() > 0 {
        1
    } else {
        0
    };
    assert forall|i: int| 0 <= i < m.tool_calls@.len() implies gemini_asks(parts[n + i], #[trigger] m.tool_calls@[i]) by {
        assert(parts[n + i] == calls[i]);
        assert(calls[i] == gemini::function_call(m.tool_calls@[i]@));
    }
}

/// What answers a call is the JSON object that the text writes; any other JSON
/// value, or else the text itself, stands under "result".
pub proof fn law_tool_results_are_objects(text: Seq<char>)
    ensures
        parsed(text) matches Some(JsonV::Object(m)) ==> gemini::tool_response(text) == JsonV::Object(m),
        parsed(text) matches Some(v) ==> (!(v is Object) ==> gemini::tool_response(text).at_key("result"@) == v),
        parsed(text) is None ==> gemini::tool_response(text).at_key("result"@) == JsonV::Text(text),
{
}

/// The turn says what the message says, under the role that it has there.
pub open spec fn gemini_says(v: JsonV, m: ChatMessage) -> bool {
    &&& v.at_key("parts"@) is Array
    &&& {
        let parts = v.at_key("parts"@)->Array_0;
        match m.role {
            MessageRole::System => false,
            MessageRole::User => {
                &&& v.at_key("role"@) == JsonV::Text("user"@)
                &&& match m.content {
                    MessageContent::Text(s) => parts.len() == 1 && parts[0].at_key("text"@) == JsonV::Text(s@),
                    MessageContent::Parts(p) => {
                        let sent = p@.filter(|p: ContentPart| can_be_sent(p));
                        parts.len() == sent.len() && forall|i: int|
                            0 <= i < parts.len() ==> gemini_shows(#[trigger] parts[i], sent[i])
                    },
                }
            },
            MessageRole::Assistant => v.at_key("role"@) == JsonV::Text("model"@) && parts == gemini::model_parts(m),
            MessageRole::Tool => {
                let fr = parts[0].at_key("functionResponse"@);
                &&& v.at_key("role"@) == JsonV::Text("user"@)
                &&& parts.len() == 1
                &&& m.name matches Some(n) ==> fr.at_key("name"@) == JsonV::Text(n@)
                &&& fr.at_key("response"@) == gemini::tool_response(flat_text(m.content))
                &&& m.tool_call_id matches Some(id) ==> id@.len() > 0 ==> fr.at_key("id"@) == JsonV::Text(id@)
            },
        }
    }
}

proof fn lemma_gemini_turn(m: ChatMessage)
    ensures
        match gemini::turn_of(m) {
            Some(v) => in_turn(m) && gemini_says(v, m),
            None => !in_turn(m),
        },
{
    lemma_turn_keys();
    match m.content {
        MessageContent::Parts(parts) => {
            law_turns_show_the_parts(parts@);
        },
        MessageContent::Text(s) => {},
    }
}

/// Every message but the system prompts is a turn, in order.
pub proof fn law_gemini_messages_are_sent(messages: Seq<ChatMessage>)
    ensures
        gemini::turns(messages).len() == messages.filter(|m: ChatMessage| in_turn(m)).len(),
        forall|i: int|
            0 <= i < gemini::turns(messages).len() ==> gemini_says(
                #[trigger] gemini::turns(messages)[i],
                messages.filter(|m: ChatMessage| in_turn(m))[i],
            ),
    decreases messages.len(),
{
    reveal(Seq::filter);
    if messages.len() > 0 {
        law_gemini_messages_are_sent(messages.drop_last());
        lemma_gemini_turn(messages.last());
        let f = |m: ChatMessage| in_turn(m);
        let rest = messages.drop_last().filter(f);
        let all = messages.filter(f);
        let t = gemini::turns(messages);
        assert forall|i: int| 0 <= i < t.len() implies gemini_says(#[trigger] t[i], all[i]) by {
            if i < rest.len() {
                assert(all[i] == rest[i]);
                assert(t[i] == gemini::turns(messages.drop_last())[i]);
            }
        }
    }
}

/// The message is a system prompt.
pub open spec fn instructs(m: ChatMessage) -> bool {
    m.role == MessageRole::System
}

/// The system prompts of a conversation, all of them and in order, one to a
/// line.
pub proof fn law_all_system_prompts_are_sent(messages: Seq<ChatMessage>) -> (texts: Seq<Seq<char>>)
    ensures
        texts.len() == messages.filter(|m: ChatMessage| instructs(m)).len(),
        forall|i: int|
            0 <= i < texts.len() ==> #[trigger] texts[i] == flat_text(
                messages.filter(|m: ChatMessage| instructs(m))[i].content,
            ),
        match gemini::system_text(messages) {
            Some(s) => texts.len() > 0 && s == join(texts, seq!['\n']),
            None => texts.len() == 0,
        },
    decreases messages.len(),
{
    reveal(Seq::filter);
    reveal_strlit("\n");
    assert("\n"@ =~= seq!['\n']);
    let f = |m: ChatMessage| instructs(m);
    if messages.len() == 0 {
        Seq::empty()
    } else {
        let before = law_all_system_prompts_are_sent(messages.drop_last());
        if instructs(messages.last()) {
            let texts = before.push(flat_text(messages.last().content));
            assert(texts.drop_last() =~= before);
            let rest = messages.drop_last().filter(f);
            let all = messages.filter(f);
            assert forall|i: int| 0 <= i < texts.len() implies #[trigger] texts[i] == flat_text(all[i].content) by {
                if i < rest.len() {
                    assert(all[i] == rest[i]);
                    assert(texts[i] == before[i]);
                }
            }
            texts
        } else {
            before
        }
    }
}

/// A request to Gemini holds the turns and the system prompts, and passes on
/// what is set: the bound on the tokens, the sampling parameters, the JSON
/// format and the tools, all of them in one entry.
pub proof fn law_gemini_requests_are_complete(request: ChatRequest)
    ensures
        ({
            let b = gemini::request_value(request);
            let c = b.at_key("generationConfig"@);
            &&& b.at_key("contents"@) == JsonV::Array(gemini::turns(request.messages@))
            &&& match gemini::system_text(request.messages@) {
                Some(s) => b.at_key("systemInstruction"@).at_key("parts"@).at_index(0).at_key("text"@) == JsonV::Text(s),
                None => b.field("systemInstruction"@) is None,
            }
            &&& match request.max_tokens {
                Some(n) => c.field("maxOutputTokens"@) == Some(JsonV::Number(number_of_u64(n as u64))),
                None => c.field("maxOutputTokens"@) is None,
            }
            &&& match request.temperature {
                Some(t) => c.field("temperature"@) == Some(t@),
                None => c.field("temperature"@) is None,
            }
            &&& match request.top_p {
                Some(t) => c.field("topP"@) == Some(t@),
                None => c.field("topP"@) is None,
            }
            &&& if request.response_format == Some(ResponseFormat::Json) {
                c.field("responseMimeType"@) == Some(JsonV::Text("application/json"@))
            } else {
                c.field("responseMimeType"@) is None
            }
            &&& if request.tools@.len() == 0 {
                b.field("tools"@) is None
            } else {
                b.at_key("tools"@).at_index(0).at_key("functionDeclarations"@) matches JsonV::Array(list) && list.len()
                    == request.tools@.len() && forall|i: int|
                    0 <= i < list.len() ==> {
                        &&& (#[trigger] list[i]).at_key("name"@) == JsonV::Text(request.tools@[i].name@)
                        &&& list[i].at_key("description"@) == JsonV::Text(request.tools@[i].description@)
                        &&& list[i].at_key("parameters"@) == request.tools@[i].parameters@
                    }
            }
        }),
{
    lemma_request_keys();
    lemma_message_keys();
    lemma_turn_keys();
    let b = gemini::request_value(request);
    if request.tools@.len() > 0 {
        let list = gemini::declarations(request.tools@);
        assert(b.at_key("tools"@).at_index(0).at_key("functionDeclarations"@) == JsonV::Array(list));
        assert forall|i: int| 0 <= i < list.len() implies {
            &&& (#[trigger] list[i]).at_key("name"@) == JsonV::Text(request.tools@[i].name@)
            &&& list[i].at_key("description"@) == JsonV::Text(request.tools@[i].description@)
            &&& list[i].at_key("parameters"@) == request.tools@[i].parameters@
        } by {
            assert(list[i] == gemini::declaration(request.tools@[i]));
        }
    }
}

// ---------------------------------------------------------------------------
// What providers can do
// ---------------------------------------------------------------------------

/// Every provider streams and none embeds; tools are called by all but one, and a
/// reply never takes more than can be read.
pub proof fn law_providers_can_do_this(
    a: AnthropicProvider,
    g: GeminiProvider,
    m: MistralProvider,
    l: OllamaProvider,
    o: OpenAiProvider,
)
    ensures
        a.abilities().streaming && g.abilities().streaming && m.abilities().streaming && l.abilities().streaming
            && o.abilities().streaming,
        a.abilities().tool_calling && g.abilities().tool_calling && l.abilities().tool_calling && o.abilities().tool_calling,
        !m.abilities().tool_calling,
        a.abilities().structured_output && g.abilities().structured_output && m.abilities().structured_output
            && o.abilities().structured_output,
        !l.abilities().structured_output,
        !a.abilities().embeddings && !g.abilities().embeddings && !m.abilities().embeddings && !l.abilities().embeddings
            && !o.abilities().embeddings,
        a.abilities().max_output_tokens < a.abilities().max_context_tokens,
        g.abilities().max_output_tokens < g.abilities().max_context_tokens,
        m.abilities().max_output_tokens < m.abilities().max_context_tokens,
        l.abilities().max_output_tokens < l.abilities().max_context_tokens,
        o.abilities().max_output_tokens < o.abilities().max_context_tokens,
        o.abilities().max_context_tokens <= m.abilities().max_context_tokens,
        m.abilities().max_context_tokens < a.abilities().max_context_tokens < g.abilities().max_context_tokens,
        g.abilities().vision && !l.abilities().vision && !l.abilities().reasoning && !m.abilities().reasoning,
{
}

/// What a model can do follows from its name.
pub proof fn law_models_can_do_what_their_name_says(
    a: AnthropicProvider,
    g: GeminiProvider,
    m: MistralProvider,
    o: OpenAiProvider,
)
    ensures
        contains(a.model_view(), "opus"@) ==> a.abilities().vision && a.abilities().reasoning,
        contains(a.model_view(), "sonnet"@) ==> a.abilities().vision,
        a.abilities().reasoning ==> contains(a.model_view(), "opus"@),
        a.abilities().vision ==> contains(a.model_view(), "opus"@) || contains(a.model_view(), "sonnet"@),
        g.abilities().reasoning <==> contains(g.model_view(), "thinking"@),
        m.abilities().vision <==> contains(m.model_view(), "pixtral"@),
        o.abilities().vision <==> contains(o.model_view(), "4o"@) || contains(o.model_view(), "vision"@),
        o.abilities().reasoning <==> starts_with(o.model_view(), "o1"@) || starts_with(o.model_view(), "o3"@),
        contains(o.model_view(), "128k"@) || o.model_view() == "gpt-4o"@ || o.model_view() == "gpt-4o-mini"@
            ==> o.abilities().max_context_tokens == 128_000,
        !contains(o.model_view(), "128k"@) && o.model_view() != "gpt-4o"@ && o.model_view() != "gpt-4o-mini"@
            ==> o.abilities().max_context_tokens == 8_192,
{
}

/// A backup is asked about a rate limit and about no other failure; it gets the same
/// request, for its own model.
pub proof fn law_backups_are_for_rate_limits(e: ProviderError, before: ChatRequest, after: ChatRequest, model: Seq<char>)
    ensures
        falls_back(e) <==> (e matches ProviderError::RateLimited { .. }),
        retargeted(before, after, model) ==> after.messages == before.messages && after.tools == before.tools
            && after.max_tokens == before.max_tokens && after.temperature == before.temperature && after.response_format
            == before.response_format && after.stop_sequences == before.stop_sequences && opt_view(after.model_override)
            == Some(model),
{
}

} // verus!
