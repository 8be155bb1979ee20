use axocoatl::json::{parse, render, Json};
use axocoatl::llm::provider::{ChatMessage, MessageContent, MessageRole};
use axocoatl::token::budget::{BudgetError, OverflowPolicy, TokenBudget, TokenTracker};
use axocoatl::token::counter::{RoughCounter, TokenCounter};
use axocoatl::token::format::{adaptive_serialize, FormatHint, TokenFormat};
use axocoatl::token::pipeline::{Compression, CompressionLimits, CompressionPipeline, CompressionResult};

fn json(text: &str) -> Json {
    parse(text).unwrap()
}

// --- Budgets -----------------------------------------------------------------------

fn budget(per_execution: usize) -> TokenBudget {
    TokenBudget { per_call: per_execution, per_execution, overflow_policy: OverflowPolicy::Abort }
}

#[test]
fn record_under_budget_succeeds() {
    let mut tracker = TokenTracker::new(budget(1000), RoughCounter);
    assert!(tracker.record_usage(100, 50).is_ok());
    assert_eq!(tracker.total_used(), 150);
}

#[test]
fn record_over_budget_fails() {
    let mut tracker = TokenTracker::new(budget(100), RoughCounter);
    match tracker.record_usage(60, 50) {
        Err(BudgetError::ExecutionBudgetExceeded { used, budget }) => assert_eq!((used, budget), (110, 100)),
        _ => panic!("expected an exceeded budget"),
    }
}

#[test]
fn check_headroom_predicts_overflow() {
    let mut tracker = TokenTracker::new(budget(100), RoughCounter);
    tracker.record_usage(80, 0).unwrap();
    assert!(matches!(tracker.check_headroom(30), Err(BudgetError::WouldExceedBudget { .. })));
    assert!(tracker.check_headroom(10).is_ok());
}

#[test]
fn check_headroom_enforces_per_call() {
    let budget = TokenBudget { per_call: 50, per_execution: 10_000, overflow_policy: OverflowPolicy::Abort };
    let tracker = TokenTracker::new(budget, RoughCounter);
    assert!(tracker.check_headroom(60).is_err());
    assert!(tracker.check_headroom(40).is_ok());
}

#[test]
fn finalize_returns_stats() {
    let mut tracker = TokenTracker::new(budget(1000), RoughCounter);
    tracker.record_usage(100, 50).unwrap();
    tracker.record_usage(200, 75).unwrap();
    assert_eq!((tracker.input_used(), tracker.output_used()), (300, 125));
    let stats = tracker.finalize();
    assert_eq!(stats.input_tokens, 300);
    assert_eq!(stats.output_tokens, 125);
    assert_eq!(stats.total(), 425);
}

#[test]
fn multiple_records_accumulate() {
    let mut tracker = TokenTracker::new(budget(1000), RoughCounter);
    for _ in 0..10 {
        tracker.record_usage(10, 5).unwrap();
    }
    assert_eq!(tracker.total_used(), 150);
    assert_eq!(tracker.budget().per_call, 1000);
    assert_eq!(tracker.counter().count_text("12345678"), 3);
}

// --- Formats -------------------------------------------------------------------------

#[test]
fn toon_uniform_array() {
    let value = json("[{\"name\":\"Alice\",\"age\":30},{\"name\":\"Bob\",\"age\":25}]");
    let (result, format) = adaptive_serialize(&value, FormatHint::UniformArray);
    assert_eq!(format, TokenFormat::Toon);
    let lines: Vec<&str> = result.lines().collect();
    assert_eq!(lines.len(), 3);
    assert!(lines[0].contains("name"));
    assert!(lines[0].contains("age"));
    assert!(lines[1].contains("Alice"));
    assert!(lines[1].contains("30"));
    assert!(lines[2].contains("Bob"));
    assert!(lines[2].contains("25"));
}

#[test]
fn toon_non_uniform_falls_back_to_json() {
    let value = json("[{\"name\":\"Alice\",\"age\":30},{\"name\":\"Bob\",\"score\":95}]");
    let (_, format) = adaptive_serialize(&value, FormatHint::UniformArray);
    assert_eq!(format, TokenFormat::JsonMinified);
}

#[test]
fn toon_nested_objects_fall_back() {
    let value = json("[{\"name\":\"Alice\",\"addr\":{\"city\":\"NYC\"}},{\"name\":\"Bob\",\"addr\":{\"city\":\"LA\"}}]");
    let (_, format) = adaptive_serialize(&value, FormatHint::UniformArray);
    assert_eq!(format, TokenFormat::JsonMinified);
}

#[test]
fn toon_empty_array_falls_back() {
    let (_, format) = adaptive_serialize(&json("[]"), FormatHint::UniformArray);
    assert_eq!(format, TokenFormat::JsonMinified);
}

#[test]
fn toon_single_row() {
    let (result, format) = adaptive_serialize(&json("[{\"x\":1,\"y\":2}]"), FormatHint::UniformArray);
    assert_eq!(format, TokenFormat::Toon);
    assert!(result.contains("x\ty"));
    assert!(result.contains("1\t2"));
}

#[test]
fn toon_with_null_and_bool() {
    let value = json(
        "[{\"name\":\"Alice\",\"active\":true,\"score\":null},{\"name\":\"Bob\",\"active\":false,\"score\":null}]",
    );
    let (result, format) = adaptive_serialize(&value, FormatHint::UniformArray);
    assert_eq!(format, TokenFormat::Toon);
    assert!(result.contains("true"));
    assert!(result.contains("null"));
}

#[test]
fn csv_pure_tabular() {
    let value = json("[{\"id\":1,\"name\":\"Alice\"},{\"id\":2,\"name\":\"Bob\"}]");
    let (result, format) = adaptive_serialize(&value, FormatHint::PureTabular);
    assert_eq!(format, TokenFormat::Csv);
    assert!(result.contains("id,name"));
    assert!(result.contains("1,Alice"));
}

#[test]
fn csv_escapes_commas() {
    let (result, format) = adaptive_serialize(&json("[{\"name\":\"Smith, John\",\"age\":30}]"), FormatHint::PureTabular);
    assert_eq!(format, TokenFormat::Csv);
    assert!(result.contains("\"Smith, John\""));
}

#[test]
fn nested_hint_returns_json() {
    let (_, format) = adaptive_serialize(&json("{\"nested\":{\"deep\":true}}"), FormatHint::Nested);
    assert_eq!(format, TokenFormat::JsonMinified);
}

#[test]
fn unknown_hint_returns_json() {
    let (text, format) = adaptive_serialize(&json("42"), FormatHint::Unknown);
    assert_eq!(format, TokenFormat::JsonMinified);
    assert_eq!(text, "42");
}

#[test]
fn toon_fewer_tokens_than_json() {
    let rows: Vec<String> = (0..20)
        .map(|i| format!("{{\"id\":{i},\"name\":\"item_{i}\",\"status\":\"active\",\"score\":{}}}", i * 10))
        .collect();
    let value = json(&format!("[{}]", rows.join(",")));
    let json_str = render(&value);
    let (toon_str, format) = adaptive_serialize(&value, FormatHint::UniformArray);
    assert_eq!(format, TokenFormat::Toon);
    assert!(
        toon_str.len() < json_str.len(),
        "TOON ({} chars) should be shorter than JSON ({} chars)",
        toon_str.len(),
        json_str.len()
    );
}

// --- Compression -----------------------------------------------------------------------

const KEEP_PAIRS: usize = 5;

fn pipeline(trigger: usize) -> CompressionPipeline<RoughCounter> {
    let limits = CompressionLimits {
        tool_result_max_tokens: 2_000,
        snip_keep_recent_pairs: KEEP_PAIRS,
        max_input_tokens: 180_000,
        trigger_tokens: trigger,
    };
    CompressionPipeline::new(RoughCounter, 100_000, limits)
}

fn turns(n: usize) -> Vec<ChatMessage> {
    let mut messages = vec![ChatMessage::system("You are helpful.")];
    for i in 0..n {
        messages.push(ChatMessage::user(&format!("message number {i} with some filler")));
        messages.push(ChatMessage::assistant(&format!("response {i} with details")));
    }
    messages
}

fn done(c: Compression) -> CompressionResult {
    match c {
        Compression::Done(r) => r,
        _ => panic!("expected the end"),
    }
}

#[test]
fn stage1_truncates_large_tool_results() {
    let messages = vec![
        ChatMessage::user("hello"),
        ChatMessage {
            role: MessageRole::Tool,
            content: MessageContent::Text("x".repeat(10_000 * 4)),
            name: Some("big_tool".to_string()),
            tool_calls: Vec::new(),
            tool_call_id: None,
        },
        ChatMessage::assistant("ok"),
    ];
    let compressed = pipeline(80_000).stage1_tool_result_budget(messages);
    assert_eq!(compressed.len(), 3);
    assert!(compressed[1].text_content().unwrap().contains("truncated"));
}

#[test]
fn stage1_cuts_before_a_character_that_does_not_fit() {
    let text = format!("{}é{}", "x".repeat(8_000 - 1), "y".repeat(8_000));
    let message = ChatMessage {
        role: MessageRole::Tool,
        content: MessageContent::Text(text),
        name: None,
        tool_calls: Vec::new(),
        tool_call_id: None,
    };
    let compressed = pipeline(80_000).stage1_tool_result_budget(vec![message]);
    let kept = compressed[0].text_content().unwrap().split("...\n[truncated").next().unwrap();
    assert_eq!(kept, "x".repeat(8_000 - 1));
}

#[test]
fn stage1_leaves_small_results_alone() {
    let messages = vec![ChatMessage::user("hello"), ChatMessage::tool("small result"), ChatMessage::assistant("ok")];
    let compressed = pipeline(80_000).stage1_tool_result_budget(messages);
    assert_eq!(compressed[1].text_content(), Some("small result"));
}

#[test]
fn stage2_keeps_recent_messages() {
    let snipped = pipeline(80_000).stage2_history_snip(turns(20));
    assert!(snipped.len() > 1, "Should keep at least system + some messages");
    assert!(snipped.len() <= 1 + KEEP_PAIRS * 3 + 1);
    assert_eq!(snipped[0].role, MessageRole::System);
    assert_eq!(snipped[1].role, MessageRole::User);
}

#[test]
fn stage4_archives_old_messages() {
    let (remaining, archived) = pipeline(80_000).stage4_context_collapse(turns(20));
    assert!(!archived.is_empty());
    assert!(remaining.iter().any(|m| m.text_content().map(|t| t.contains("archived")).unwrap_or(false)));
}

#[test]
fn needs_compression_below_threshold() {
    let messages = vec![ChatMessage::user("hello"), ChatMessage::assistant("hi")];
    assert!(!pipeline(160_000).needs_compression(&messages));
    assert!(pipeline(1).needs_compression(&messages));
}

#[test]
fn full_pipeline_stages_1_2_only() {
    let result = done(pipeline(40).compress(turns(30), false, 0));
    assert!(!result.stages_applied.is_empty());
    assert!(result.tokens_after <= result.tokens_before);
}

#[test]
fn compress_to_runs_llm_summarization() {
    let p = pipeline(80_000);
    let mut state = p.compress_to(turns(20), true, 10_000, 5);
    let mut asked = 0;
    while !matches!(state, Compression::Done(_)) {
        asked += 1;
        assert!(asked < 100);
        let summary = if state.tool_to_summarize().is_some() { "TOOL_SUMMARY" } else { "CONVO_SUMMARY" };
        state = p.reply(state, Ok(summary.to_string()));
    }
    let result = done(state);
    assert!(result.stages_applied.contains(&"autocompact".to_string()));
    assert!(result.messages.iter().any(|m| m.text_content().is_some_and(|t| t.contains("CONVO_SUMMARY"))));
    assert!(result.tokens_after < result.tokens_before);
}

#[test]
fn summaries_are_of_all_but_the_system() {
    let p = pipeline(80_000);
    let mut state = p.compress_to(turns(20), true, 10_000, 5);
    while state.tool_to_summarize().is_some() {
        assert!(state.conversation_to_summarize().is_none());
        state = p.reply(state, Ok("short".to_string()));
    }
    let to_summarize = state.conversation_to_summarize().unwrap();
    let Compression::All { messages, .. } = &state else { panic!("expected everything") };
    assert_eq!(messages.iter().filter(|m| m.role == MessageRole::System).count(), 1);
    assert_eq!(to_summarize.len() + 1, messages.len());
    assert!(to_summarize.iter().all(|m| m.role != MessageRole::System));
    assert!(to_summarize.last().unwrap().text_content().is_some_and(|t| t.contains("response 19")));
    let over = p.reply(state, Ok("all".to_string()));
    assert!(over.conversation_to_summarize().is_none());
}

#[test]
fn short_conversations_are_left_alone() {
    let result = done(pipeline(80_000).compress(turns(2), true, 100));
    assert!(result.stages_applied.is_empty());
    assert_eq!(result.messages.len(), 5);
    assert_eq!(pipeline(80_000).compress_sync(turns(2)).len(), 5);
}

#[test]
fn failed_summaries_keep_the_messages() {
    let p = pipeline(80_000);
    let mut state = p.compress_to(turns(20), true, 10_000, 5);
    while !matches!(state, Compression::Done(_)) {
        state = p.reply(state, Err("no model".into()));
    }
    let result = done(state);
    assert!(result.stages_applied.contains(&"autocompact".to_string()));
    assert!(result.messages.iter().any(|m| m.text_content().is_some_and(|t| t.contains("message number 19"))));
}
