use llm_kernel::error::KernelError;
use llm_kernel::llm::client::{
    drain_sse_lines, escape_unescaped_control_chars, parse_sse_line, promote_reasoning_into_content,
    redact_http_body,
};
use llm_kernel::llm::history::{estimate_tokens, ConversationHistory, TokenBudget};
use llm_kernel::llm::json_extract::extract_json;
use llm_kernel::llm::prompt::render_prompt;
use llm_kernel::llm::retry::{
    backoff_with_jitter, is_server_error, next_retry_delay, retry_delay, RetryConfig,
};
use llm_kernel::llm::router::{compute_order, RoutingStrategy};
use llm_kernel::llm::template::PromptTemplate;
use llm_kernel::llm::types::{ChatMessage, ContentPart, MessageRole};

// ── SSE framing ───────────────────────────────────────

#[test]
fn parse_sse_line_extracts_data() {
    assert_eq!(parse_sse_line("data: {\"id\":\"1\"}"), Some("{\"id\":\"1\"}"));
}

#[test]
fn parse_sse_line_skips_done() {
    assert_eq!(parse_sse_line("data: [DONE]"), None);
}

#[test]
fn parse_sse_line_skips_non_data() {
    assert_eq!(parse_sse_line("event: ping"), None);
    assert_eq!(parse_sse_line(""), None);
}

#[test]
fn drain_sse_lines_reassembles_multibyte_split_across_chunks() {
    // "data: 안녕\n" — "data: " is 6 bytes, 안/녕 are 3 bytes each.
    let full = "data: 안녕\n".as_bytes().to_vec();
    // Split at byte 7, mid-way through "안"'s 3-byte sequence.
    let (first, rest) = full.split_at(7);

    let mut buffer = Vec::new();
    // No newline yet, and the trailing bytes are a partial codepoint:
    // nothing should be emitted, and nothing should be corrupted.
    assert!(drain_sse_lines(&mut buffer, first).is_empty());

    let lines = drain_sse_lines(&mut buffer, rest);
    assert_eq!(lines, vec!["data: 안녕".to_string()]);
    // A per-chunk lossy decode would instead have produced U+FFFD here.
    assert!(!lines[0].contains('\u{FFFD}'));
}

#[test]
fn drain_sse_lines_handles_multiple_lines_and_keeps_partial_tail() {
    let mut buffer = Vec::new();
    let lines = drain_sse_lines(&mut buffer, b"event: ping\r\ndata: {}\npartial");
    assert_eq!(lines, vec!["event: ping".to_string(), "data: {}".to_string()]);
    // The unterminated "partial" tail stays buffered for the next chunk.
    let lines = drain_sse_lines(&mut buffer, b" tail\n");
    assert_eq!(lines, vec!["partial tail".to_string()]);
}

#[test]
fn drain_sse_lines_decodes_invalid_bytes_lossily() {
    let mut buffer = Vec::new();
    let lines = drain_sse_lines(&mut buffer, b"a\xffb\n");
    assert_eq!(lines, vec!["a\u{FFFD}b".to_string()]);
    assert!(buffer.is_empty());
}

#[test]
fn escape_unescaped_control_chars_handles_escaped_quotes() {
    // \" inside a string must not toggle the in-string state.
    let raw = "{\"a\":\"say \\\"hi\\\" ok\"}";
    assert_eq!(escape_unescaped_control_chars(raw), raw);
}

#[test]
fn escape_unescaped_control_chars_only_touches_string_literals() {
    // Raw newline outside strings (pretty-printed JSON) stays as-is;
    // inside strings it becomes \uXXXX; existing escapes are untouched.
    let raw = "{\n  \"a\": \"x\ny\\n\\tz\",\n  \"b\": 1\n}";
    let out = escape_unescaped_control_chars(raw);
    assert_eq!(out, "{\n  \"a\": \"x\\u000ay\\n\\tz\",\n  \"b\": 1\n}");
    let v: serde_json::Value = serde_json::from_str(&out).unwrap();
    assert_eq!(v["a"], "x\ny\n\tz");
}

#[test]
fn promote_reasoning_into_content_edge_cases() {
    // Empty content + reasoning surfaces the reasoning as the answer.
    assert_eq!(
        promote_reasoning_into_content(String::new(), Some("chain-of-thought")),
        "chain-of-thought"
    );
    // content present wins regardless of reasoning.
    assert_eq!(promote_reasoning_into_content("ans".into(), Some("cot")), "ans");
    // both empty -> empty (no panic, no spurious content).
    assert_eq!(promote_reasoning_into_content(String::new(), None), "");
    assert_eq!(promote_reasoning_into_content("x".into(), None), "x");
}

#[test]
fn redact_http_body_passes_text_through() {
    assert_eq!(redact_http_body("HTTP 500: busy"), "HTTP 500: busy");
    assert_eq!(redact_http_body(""), "");
}

// ── Conversation history ──────────────────────────────

#[test]
fn push_user_then_assistant() {
    let mut h = ConversationHistory::new();
    assert!(h.push(ChatMessage::user("hello")).is_ok());
    assert!(h.push(ChatMessage::assistant("hi")).is_ok());
    assert_eq!(h.len(), 2);
}

#[test]
fn push_system_then_user() {
    let mut h = ConversationHistory::new();
    assert!(h.push(ChatMessage::system("you are helpful")).is_ok());
    assert!(h.push(ChatMessage::user("hello")).is_ok());
    assert_eq!(h.len(), 2);
}

#[test]
fn push_rejects_system_after_user() {
    let mut h = ConversationHistory::new();
    h.push(ChatMessage::user("hello")).unwrap();
    let err = h.push(ChatMessage::system("nope")).unwrap_err();
    assert_eq!(err.attempted, MessageRole::System);
    assert_eq!(err.previous, MessageRole::User);
}

#[test]
fn push_rejects_double_user() {
    let mut h = ConversationHistory::new();
    h.push(ChatMessage::user("first")).unwrap();
    let err = h.push(ChatMessage::user("second")).unwrap_err();
    assert_eq!(err.attempted, MessageRole::User);
    assert_eq!(err.previous, MessageRole::User);
}

#[test]
fn push_rejects_assistant_first() {
    let mut h = ConversationHistory::new();
    let err = h.push(ChatMessage::assistant("hi")).unwrap_err();
    assert_eq!(err.attempted, MessageRole::Assistant);
}

#[test]
fn push_tool_after_assistant() {
    let mut h = ConversationHistory::new();
    h.push(ChatMessage::user("run tool")).unwrap();
    h.push(ChatMessage::assistant("calling tool")).unwrap();
    assert!(h.push(ChatMessage::tool("result")).is_ok());
    assert_eq!(h.len(), 3);
}

#[test]
fn rejected_push_leaves_history_unchanged() {
    let mut h = ConversationHistory::new();
    h.push(ChatMessage::user("first")).unwrap();
    assert!(h.push(ChatMessage::tool("no")).is_err());
    assert_eq!(h.len(), 1);
    assert_eq!(h.messages()[0].role, MessageRole::User);
}

#[test]
fn truncate_to_budget_removes_oldest() {
    let mut budget = TokenBudget::new(100);
    // Pre-fill the budget so there's no room
    assert!(budget.try_reserve(90));

    let mut h = ConversationHistory::new();
    h.push(ChatMessage::system("system")).unwrap();
    h.push(ChatMessage::user(&"x".repeat(200))).unwrap();
    h.push(ChatMessage::assistant(&"y".repeat(200))).unwrap();

    // Need 50 tokens but only 10 remaining → must truncate
    let removed = h.truncate_to_budget(&mut budget, 50);
    assert!(removed > 0);
}

#[test]
fn truncate_preserves_system_message() {
    let mut budget = TokenBudget::new(5);
    let mut h = ConversationHistory::new();
    h.push(ChatMessage::system("system instruction")).unwrap();

    // Even with very small budget, system message stays
    let removed = h.truncate_to_budget(&mut budget, 100);
    assert_eq!(removed, 0); // nothing to remove beyond system
    assert_eq!(h.messages()[0].role, MessageRole::System);
}

#[test]
fn truncate_releases_the_removed_tokens() {
    let mut budget = TokenBudget::new(100);
    assert!(budget.try_reserve(90));
    let mut h = ConversationHistory::new();
    h.push(ChatMessage::system("system")).unwrap();
    h.push(ChatMessage::user(&"x".repeat(200))).unwrap();
    h.push(ChatMessage::assistant(&"y".repeat(200))).unwrap();
    // One message of 50 tokens is enough: 10 + 50 >= 50, and then the
    // needed 50 are reserved.
    assert_eq!(h.truncate_to_budget(&mut budget, 50), 1);
    assert_eq!(budget.remaining(), 10);
    // The released user message is gone; the system message stays first.
    assert_eq!(h.len(), 2);
    assert_eq!(h.messages()[0].role, MessageRole::System);
    assert_eq!(h.messages()[1].role, MessageRole::Assistant);
}

#[test]
fn truncate_without_system_removes_from_the_front() {
    let mut budget = TokenBudget::new(100);
    assert!(budget.try_reserve(100));
    let mut h = ConversationHistory::new();
    h.push(ChatMessage::user(&"x".repeat(40))).unwrap();
    h.push(ChatMessage::assistant(&"y".repeat(40))).unwrap();
    h.push(ChatMessage::user(&"z".repeat(400))).unwrap();
    // 10 tokens each for the first two: after both are released 20 are free.
    assert_eq!(h.truncate_to_budget(&mut budget, 20), 2);
    assert_eq!(h.len(), 1);
    assert_eq!(h.messages()[0].role, MessageRole::User);
    assert_eq!(budget.remaining(), 0);
}

#[test]
fn truncate_with_room_removes_nothing() {
    let mut budget = TokenBudget::new(100);
    let mut h = ConversationHistory::new();
    h.push(ChatMessage::user("hello")).unwrap();
    assert_eq!(h.truncate_to_budget(&mut budget, 30), 0);
    assert_eq!(h.len(), 1);
    assert_eq!(budget.remaining(), 70);
}

#[test]
fn token_budget_reserve_and_release() {
    let mut b = TokenBudget::new(10);
    assert!(b.try_reserve(4));
    assert!(!b.try_reserve(7));
    assert_eq!(b.remaining(), 6);
    b.release(100);
    assert_eq!(b.remaining(), 10);
}

#[test]
fn token_count_estimates() {
    let mut h = ConversationHistory::new();
    assert_eq!(h.token_count(), 0);
    h.push(ChatMessage::user("hello world")).unwrap();
    assert!(h.token_count() > 0);
}

#[test]
fn estimate_tokens_rounds_up_per_four_chars() {
    assert_eq!(estimate_tokens(""), 0);
    assert_eq!(estimate_tokens("abc"), 1);
    assert_eq!(estimate_tokens("abcd"), 1);
    assert_eq!(estimate_tokens("abcde"), 2);
    assert_eq!(estimate_tokens("안녕하세요"), 2);
}

#[test]
fn default_is_empty() {
    let h = ConversationHistory::default();
    assert!(h.is_empty());
}

#[test]
fn non_system_messages_drop_system_and_keep_order() {
    let mut h = ConversationHistory::new();
    h.push(ChatMessage::system("original")).unwrap();
    h.push(ChatMessage::user("hello")).unwrap();
    h.push(ChatMessage::assistant("hi")).unwrap();
    let msgs = h.into_non_system();
    assert_eq!(msgs.len(), 2);
    assert_eq!(msgs[0].role, MessageRole::User);
    assert_eq!(msgs[1].text_content(), "hi");
}

// ── JSON extraction ───────────────────────────────────

#[test]
fn extract_from_json_fence() {
    let input = "Here is the result:\n```json\n{\"name\":\"test\",\"value\":42}\n```\nDone.";
    let json = extract_json(input).unwrap();
    let parsed: serde_json::Value = serde_json::from_str(&json).unwrap();
    assert_eq!(parsed["name"], "test");
    assert_eq!(parsed["value"], 42);
}

#[test]
fn extract_from_generic_fence() {
    let input = "```\n{\"name\":\"x\",\"value\":1}\n```";
    let json = extract_json(input).unwrap();
    assert!(json.contains("\"name\""));
}

#[test]
fn extract_raw_json_object() {
    let input = "The answer is {\"name\":\"raw\",\"value\":7} as shown.";
    let json = extract_json(input).unwrap();
    let parsed: serde_json::Value = serde_json::from_str(&json).unwrap();
    assert_eq!(parsed["name"], "raw");
    assert_eq!(parsed["value"], 7);
}

#[test]
fn extract_raw_json_array() {
    let input = "Items: [1, 2, 3]";
    let json = extract_json(input).unwrap();
    assert_eq!(json, "[1, 2, 3]");
}

#[test]
fn no_json_returns_none() {
    assert!(extract_json("no json here").is_none());
}

#[test]
fn nested_json() {
    let input = r#"{"outer": {"inner": [1,2]}}"#;
    let json = extract_json(input).unwrap();
    assert!(json.starts_with('{'));
    assert!(json.ends_with('}'));
}

#[test]
fn escaped_quotes_in_string() {
    let input = r#"{"name":"he said \"hello\"","value":0}"#;
    let json = extract_json(input).unwrap();
    assert!(json.contains("hello"));
}

#[test]
fn extract_exact_values_and_unbalanced_input() {
    assert_eq!(extract_json("x {\"a\": \"}\"} y").unwrap(), "{\"a\": \"}\"}");
    assert_eq!(extract_json("```json\n  [1]  \n```").unwrap(), "[1]");
    // A generic fence holding prose falls back to bracket matching.
    assert_eq!(extract_json("```\nhello\n``` then {\"k\":1}").unwrap(), "{\"k\":1}");
    assert!(extract_json("{\"open\": [1, 2").is_none());
}

// ── Prompts and templates ─────────────────────────────

#[test]
fn test_render_prompt() {
    let template = "Hello {{name}}, your topic is {{topic}}.";
    let result = render_prompt(template, &[("name", "Alice"), ("topic", "Rust")]);
    assert_eq!(result, "Hello Alice, your topic is Rust.");
}

#[test]
fn test_render_prompt_missing_var() {
    let template = "Hello {{name}}.";
    let result = render_prompt(template, &[]);
    assert_eq!(result, "Hello {{name}}.");
}

#[test]
fn render_substitutes_variables() {
    let t = PromptTemplate::new("Hello {{name}}, your topic is {{topic}}.");
    let out = t.render(&[("name", "Alice"), ("topic", "Rust")]);
    assert_eq!(out, "Hello Alice, your topic is Rust.");
}

#[test]
fn few_shot_renders_before_body() {
    let t = PromptTemplate::new("Classify: {{text}}").with_few_shot(vec![
        "Q: apples\nA: fruit".to_string(),
        "Q: rover\nA: dog".to_string(),
    ]);
    let out = t.render(&[("text", "carrot")]);
    let body_pos = out.find("Classify:").expect("body present");
    let ex1_pos = out.find("Q: apples").expect("example 1 present");
    let ex2_pos = out.find("Q: rover").expect("example 2 present");
    assert!(ex1_pos < body_pos, "first example must precede body");
    assert!(ex2_pos < body_pos, "second example must precede body");
    assert!(out.ends_with("Classify: carrot"));
}

#[test]
fn missing_variable_left_as_is() {
    let t = PromptTemplate::new("Hello {{name}}, age {{age}}.");
    let out = t.render(&[("name", "Bob")]);
    assert_eq!(out, "Hello Bob, age {{age}}.");
}

#[test]
fn variables_in_first_seen_order() {
    let t = PromptTemplate::new("{{b}} {{a}} {{b}} {{c}}");
    assert_eq!(t.variables(), vec!["b", "a", "c"]);
}

// ── Retry policy ──────────────────────────────────────

#[test]
fn is_server_error_detects_5xx() {
    assert!(is_server_error("HTTP 500: internal server error"));
    assert!(is_server_error("HTTP 502: bad gateway"));
    assert!(is_server_error("HTTP 503: service unavailable"));
}

#[test]
fn is_server_error_rejects_4xx() {
    assert!(!is_server_error("HTTP 400: bad request"));
    assert!(!is_server_error("HTTP 401: unauthorized"));
    assert!(!is_server_error("HTTP 429: too many requests"));
}

#[test]
fn is_server_error_rejects_malformed() {
    assert!(!is_server_error("connection refused"));
    assert!(!is_server_error(""));
}

#[test]
fn backoff_increases_with_attempts() {
    let base = 1000;
    let d0 = backoff_with_jitter(0, base);
    let d1 = backoff_with_jitter(1, base);
    let d2 = backoff_with_jitter(2, base);

    // Each attempt roughly doubles (with jitter)
    assert!(d0 > 0);
    assert!(d1 > d0 / 2);
    assert!(d2 > d1 / 2);
}

#[test]
fn backoff_capped_at_60s() {
    let base = 10_000;
    let d = backoff_with_jitter(20, base);
    assert!(d <= 60_000);
}

#[test]
fn backoff_exact_values() {
    // attempt 0: 1000 ms * (500 + 0) / 1000
    assert_eq!(backoff_with_jitter(0, 1000), 500);
    // attempt 1: 2000 ms * (500 + 769) / 1000
    assert_eq!(backoff_with_jitter(1, 1000), 2538);
    // attempt 20: min(10 s * 64, 60 s) * (500 + 380) / 1000
    assert_eq!(backoff_with_jitter(20, 10_000), 52_800);
}

#[test]
fn retry_delay_rate_limited_uses_server_hint() {
    let err = KernelError::RateLimited(30);
    let delay = retry_delay(&err, 0, 1000);
    assert!(delay.is_some());
    // Should be at least 30s (server hint) or backoff, whichever is larger
    assert!(delay.unwrap() >= 30_000);
}

#[test]
fn retry_delay_server_error_returns_backoff() {
    let err = KernelError::LlmApi("HTTP 500: error".into());
    let delay = retry_delay(&err, 0, 1000);
    assert!(delay.is_some());
}

#[test]
fn retry_delay_client_error_returns_none() {
    let err = KernelError::LlmApi("HTTP 400: bad request".into());
    let delay = retry_delay(&err, 0, 1000);
    assert!(delay.is_none());
}

#[test]
fn retry_delay_config_error_returns_none() {
    let err = KernelError::Config("missing key".into());
    let delay = retry_delay(&err, 0, 1000);
    assert!(delay.is_none());
}

#[test]
fn retries_stop_after_the_configured_attempts() {
    let config = RetryConfig { max_retries: 2, base_delay_ms: 1000 };
    let err = KernelError::LlmApi("HTTP 503: busy".into());
    assert_eq!(next_retry_delay(&config, 0, &err), Some(500));
    assert!(next_retry_delay(&config, 1, &err).is_some());
    assert_eq!(next_retry_delay(&config, 2, &err), None);
}

#[test]
fn default_config() {
    let config = RetryConfig::default();
    assert_eq!(config.max_retries, 3);
    assert_eq!(config.base_delay_ms, 1000);
}

// ── Routing order ─────────────────────────────────────

#[test]
fn routing_order_is_a_stable_sort_by_key() {
    assert_eq!(compute_order(&[3, 1, 2, 1]), vec![1, 3, 2, 0]);
    assert_eq!(compute_order(&[]), Vec::<usize>::new());
    assert_eq!(RoutingStrategy::default(), RoutingStrategy::Fallback);
}

// ── Message types ─────────────────────────────────────

#[test]
fn message_role_display() {
    assert_eq!(MessageRole::System.to_string(), "system");
    assert_eq!(MessageRole::User.to_string(), "user");
    assert_eq!(MessageRole::Assistant.to_string(), "assistant");
    assert_eq!(MessageRole::Tool.to_string(), "tool");
}

#[test]
fn chat_message_constructors() {
    let sys = ChatMessage::system("instructions");
    assert_eq!(sys.role, MessageRole::System);

    let user = ChatMessage::user("hello");
    assert_eq!(user.role, MessageRole::User);

    let asst = ChatMessage::assistant("hi there");
    assert_eq!(asst.role, MessageRole::Assistant);

    let tool = ChatMessage::tool("result");
    assert_eq!(tool.role, MessageRole::Tool);
}

#[test]
fn content_part_text_helper() {
    let p = ContentPart::text("hello");
    assert_eq!(p.as_text(), Some("hello"));
    assert_eq!(ContentPart::image_url("http://x").as_text(), None);
}

#[test]
fn text_content_extracts_text() {
    let msg = ChatMessage::user_multimodal(vec![
        ContentPart::text("hello "),
        ContentPart::image_url("http://x.com/i.png"),
        ContentPart::text("world"),
    ]);
    assert_eq!(msg.text_content(), "hello world");
}

// ── Wire messages ─────────────────────────────────────

use llm_kernel::llm::types::{anthropic_messages, openai_messages, single_text};

#[test]
fn into_openai_messages_with_system() {
    let msgs = openai_messages(
        Some("be helpful".to_string()),
        &[ChatMessage::user("hi"), ChatMessage::assistant("hello")],
    );
    assert_eq!(msgs.len(), 3);
    assert_eq!(msgs[0].0, "system");
    assert_eq!(msgs[1].0, "user");
    assert_eq!(msgs[2].0, "assistant");
    assert_eq!(msgs[0].1, "be helpful");
    assert_eq!(msgs[2].1, "hello");
}

#[test]
fn into_anthropic_messages_excludes_system() {
    let msgs = anthropic_messages(&[ChatMessage::user("hi")]);
    assert_eq!(msgs.len(), 1);
    assert_eq!(msgs[0].0, "user");
    assert_eq!(msgs[0].1, "hi");
}

#[test]
fn single_text_is_the_compact_form() {
    assert_eq!(single_text(&[ContentPart::text("hi")]), Some("hi"));
    assert_eq!(single_text(&[ContentPart::image_url("u")]), None);
    assert_eq!(single_text(&[ContentPart::text("a"), ContentPart::text("b")]), None);
    assert_eq!(single_text(&[]), None);
}

// ── Rate-limit responses ──────────────────────────────

use llm_kernel::llm::client::{check_rate_limit, parse_u64};

#[test]
fn parse_u64_matches_str_parse() {
    for s in ["0", "42", "+7", "", "+", "-1", "1a", " 1", "18446744073709551615", "18446744073709551616", "007"] {
        assert_eq!(parse_u64(s), s.parse::<u64>().ok(), "{s:?}");
    }
}

#[test]
fn rate_limit_uses_retry_after_or_sixty() {
    assert_eq!(check_rate_limit(200, Some("5")), Ok(()));
    assert_eq!(check_rate_limit(500, None), Ok(()));
    assert_eq!(check_rate_limit(429, Some("30")), Err(KernelError::RateLimited(30)));
    assert_eq!(check_rate_limit(429, Some("soon")), Err(KernelError::RateLimited(60)));
    assert_eq!(check_rate_limit(429, None), Err(KernelError::RateLimited(60)));
}

use llm_kernel::llm::router::{fallback_result, router_order};

#[test]
fn router_needs_a_backend() {
    assert_eq!(
        router_order(&[]),
        Err(KernelError::Config("RouterClient requires at least one backend".to_string()))
    );
    assert_eq!(router_order(&[3, 1, 3, 0]), Ok(vec![3, 1, 0, 2]));
}

#[test]
fn fallback_returns_first_success_or_last_error() {
    let attempts: Vec<Result<u32, KernelError>> = vec![
        Err(KernelError::LlmApi("a".to_string())),
        Ok(7),
        Ok(9),
    ];
    assert_eq!(fallback_result(attempts), Ok(7));
    let attempts: Vec<Result<u32, KernelError>> = vec![
        Err(KernelError::LlmApi("first".to_string())),
        Err(KernelError::RateLimited(3)),
    ];
    assert_eq!(fallback_result(attempts), Err(KernelError::RateLimited(3)));
    assert_eq!(
        fallback_result::<u32>(Vec::new()),
        Err(KernelError::Config("RouterClient: no backends tried".to_string()))
    );
}

use llm_kernel::llm::client::{anthropic_usage, fold_anthropic_blocks, AnthropicBlock};

fn block(kind: &str) -> AnthropicBlock {
    AnthropicBlock { block_type: kind.to_string(), text: None, thinking: None, id: None, name: None, input: None }
}

#[test]
fn anthropic_blocks_fold_into_answer_reasoning_and_calls() {
    let mut t1 = block("text");
    t1.text = Some("Hello, ".to_string());
    let mut th = block("thinking");
    th.thinking = Some("let me see".to_string());
    let mut call = block("tool_use");
    call.id = Some("tu_1".to_string());
    call.name = Some("lookup".to_string());
    call.input = Some("{\"q\":\"x\"}".to_string());
    let mut bare_call = block("tool_use");
    bare_call.id = Some("tu_2".to_string());
    bare_call.name = Some("ping".to_string());
    let mut nameless = block("tool_use");
    nameless.id = Some("tu_3".to_string());
    let mut t2 = block("text");
    t2.text = Some("world".to_string());
    let mut other = block("image");
    other.text = Some("ignored".to_string());
    let r = fold_anthropic_blocks(&[t1, th, call, bare_call, nameless, other, t2]);
    assert_eq!(r.content, "Hello, world");
    assert_eq!(r.reasoning, Some("let me see".to_string()));
    let calls: Vec<(String, String, String)> =
        r.tool_calls.into_iter().map(|c| (c.id, c.name, c.arguments)).collect();
    assert_eq!(
        calls,
        vec![
            ("tu_1".to_string(), "lookup".to_string(), "{\"q\":\"x\"}".to_string()),
            ("tu_2".to_string(), "ping".to_string(), "{}".to_string()),
        ]
    );
}

#[test]
fn anthropic_blocks_without_thinking_have_no_reasoning() {
    let mut t = block("text");
    t.text = Some("ok".to_string());
    let r = fold_anthropic_blocks(&[t, block("thinking")]);
    assert_eq!(r.content, "ok");
    assert_eq!(r.reasoning, None);
    assert!(r.tool_calls.is_empty());
    let u = anthropic_usage(12, 30);
    assert_eq!((u.prompt_tokens, u.completion_tokens, u.total_tokens), (12, 30, 42));
}

use llm_kernel::llm::client::{anthropic_stream_event, openai_stream_event, AnthropicChunk, ChunkEvent, OpenAIChunk};
use llm_kernel::llm::types::TokenUsage;

fn oa(reasoning: Option<&str>, content: Option<&str>, usage: Option<(u64, u64, u64)>, finished: bool) -> OpenAIChunk {
    OpenAIChunk {
        reasoning: reasoning.map(str::to_string),
        content: content.map(str::to_string),
        usage,
        finished,
    }
}

#[test]
fn openai_chunks_carry_one_event() {
    assert_eq!(openai_stream_event(oa(Some("think"), Some("x"), None, true)), Some(ChunkEvent::Reasoning("think".to_string())));
    assert_eq!(openai_stream_event(oa(Some(""), Some("Hi"), None, true)), Some(ChunkEvent::Text("Hi".to_string())));
    assert_eq!(
        openai_stream_event(oa(None, Some(""), Some((3, 4, 7)), true)),
        Some(ChunkEvent::Usage(TokenUsage { prompt_tokens: 3, completion_tokens: 4, total_tokens: 7 }))
    );
    assert_eq!(
        openai_stream_event(oa(None, None, Some((1 << 32, 5, (1 << 32) + 5)), false)),
        Some(ChunkEvent::Usage(TokenUsage { prompt_tokens: 0, completion_tokens: 5, total_tokens: 5 }))
    );
    assert_eq!(openai_stream_event(oa(None, None, None, true)), Some(ChunkEvent::Done));
    assert_eq!(openai_stream_event(oa(None, Some(""), None, false)), None);
}

fn an(has_delta: bool, delta_type: Option<&str>, thinking: Option<&str>, text: Option<&str>, output_tokens: Option<u64>) -> AnthropicChunk {
    AnthropicChunk {
        has_delta,
        delta_type: delta_type.map(str::to_string),
        thinking: thinking.map(str::to_string),
        text: text.map(str::to_string),
        output_tokens,
    }
}

#[test]
fn anthropic_chunks_by_event_type() {
    let ev = anthropic_stream_event;
    assert_eq!(ev("content_block_delta", an(true, Some("text_delta"), None, Some("Hi"), None)), Some(ChunkEvent::Text("Hi".to_string())));
    assert_eq!(ev("content_block_delta", an(true, None, None, Some("Hi"), None)), Some(ChunkEvent::Text("Hi".to_string())));
    assert_eq!(
        ev("content_block_delta", an(true, Some("thinking_delta"), Some("hmm"), Some("Hi"), None)),
        Some(ChunkEvent::Reasoning("hmm".to_string()))
    );
    assert_eq!(ev("content_block_delta", an(true, Some("thinking_delta"), None, Some("Hi"), None)), None);
    assert_eq!(ev("content_block_delta", an(false, None, None, Some("Hi"), None)), None);
    assert_eq!(ev("content_block_delta", an(true, None, None, Some(""), None)), None);
    assert_eq!(
        ev("message_delta", an(false, None, None, None, Some(42))),
        Some(ChunkEvent::Usage(TokenUsage { prompt_tokens: 0, completion_tokens: 42, total_tokens: 0 }))
    );
    assert_eq!(ev("message_delta", an(false, None, None, None, None)), Some(ChunkEvent::Done));
    assert_eq!(ev("message_stop", an(false, None, None, None, None)), Some(ChunkEvent::Done));
    assert_eq!(ev("ping", an(true, None, None, Some("x"), None)), None);
}

#[test]
fn role_error_message_names_both_roles() {
    let mut h = ConversationHistory::new();
    let err = h.push(ChatMessage::assistant("too early")).unwrap_err();
    assert_eq!(err.to_string(), "invalid role transition: Assistant after System");
    h.push(ChatMessage::user("hi")).unwrap();
    let err = h.push(ChatMessage::user("again")).unwrap_err();
    assert_eq!(err.to_string(), "invalid role transition: User after User");
}

// Stream chunks, with the fields the client reads from each JSON chunk.

#[test]
fn openai_delta_extraction() {
    // {"choices":[{"index":0,"delta":{"content":"Hello"},"finish_reason":null}]}
    assert_eq!(openai_stream_event(oa(None, Some("Hello"), None, false)), Some(ChunkEvent::Text("Hello".to_string())));
}

#[test]
fn openai_usage_extraction() {
    // {"choices":[{"index":0,"delta":{},"finish_reason":"stop"}],"usage":{"prompt_tokens":10,"completion_tokens":5,"total_tokens":15}}
    assert_eq!(
        openai_stream_event(oa(None, None, Some((10, 5, 15)), true)),
        Some(ChunkEvent::Usage(TokenUsage { prompt_tokens: 10, completion_tokens: 5, total_tokens: 15 }))
    );
}

#[test]
fn openai_finish_reason_is_done() {
    // {"choices":[{"index":0,"delta":{},"finish_reason":"stop"}]}
    assert_eq!(openai_stream_event(oa(None, None, None, true)), Some(ChunkEvent::Done));
}

#[test]
fn openai_empty_delta_skipped() {
    // {"choices":[{"index":0,"delta":{"content":""},"finish_reason":null}]}
    assert!(openai_stream_event(oa(None, Some(""), None, false)).is_none());
}

#[test]
fn openai_sse_reasoning_delta_extracted() {
    // {"choices":[{"index":0,"delta":{"reasoning_content":"thinking"},"finish_reason":null}]}
    assert_eq!(
        openai_stream_event(oa(Some("thinking"), None, None, false)),
        Some(ChunkEvent::Reasoning("thinking".to_string()))
    );
}

#[test]
fn openai_sse_content_delta_still_works_alongside_reasoning() {
    // {"choices":[{"index":0,"delta":{"content":"answer"},"finish_reason":null}]}
    assert!(matches!(openai_stream_event(oa(None, Some("answer"), None, false)), Some(ChunkEvent::Text(_))));
}

#[test]
fn anthropic_content_block_delta() {
    // {"type":"content_block_delta","index":0,"delta":{"type":"text_delta","text":"Hello"}}
    assert_eq!(
        anthropic_stream_event("content_block_delta", an(true, Some("text_delta"), None, Some("Hello"), None)),
        Some(ChunkEvent::Text("Hello".to_string()))
    );
}

#[test]
fn anthropic_message_delta_usage() {
    // {"type":"message_delta","delta":{"stop_reason":"end_turn"},"usage":{"output_tokens":5}}
    match anthropic_stream_event("message_delta", an(true, None, None, None, Some(5))) {
        Some(ChunkEvent::Usage(usage)) => assert_eq!(usage.completion_tokens, 5),
        other => panic!("expected Usage, got {other:?}"),
    }
}

#[test]
fn anthropic_message_stop() {
    // {"type":"message_stop"}
    assert_eq!(anthropic_stream_event("message_stop", an(false, None, None, None, None)), Some(ChunkEvent::Done));
}

#[test]
fn anthropic_unknown_event_ignored() {
    // ("ping", {})
    assert!(anthropic_stream_event("ping", an(false, None, None, None, None)).is_none());
}

#[test]
fn anthropic_sse_thinking_delta_extracted() {
    // {"delta":{"type":"thinking_delta","thinking":"a thought"}}
    assert_eq!(
        anthropic_stream_event("content_block_delta", an(true, Some("thinking_delta"), Some("a thought"), None, None)),
        Some(ChunkEvent::Reasoning("a thought".to_string()))
    );
}

#[test]
fn anthropic_response_parses_thinking_block() {
    // content: [{"type":"thinking","thinking":"step by step..."}, {"type":"text","text":"Final answer."}]
    let mut thinking = block("thinking");
    thinking.thinking = Some("step by step...".to_string());
    let mut text = block("text");
    text.text = Some("Final answer.".to_string());
    let r = fold_anthropic_blocks(&[thinking, text]);
    assert_eq!(r.content, "Final answer.");
    assert_eq!(r.reasoning.as_deref(), Some("step by step..."));
}

#[test]
fn anthropic_response_parses_tool_use_block() {
    // content: [{"type":"text","text":"Let me check."},
    //           {"type":"tool_use","id":"toolu_1","name":"get_weather","input":{"location":"Paris"}}]
    let mut text = block("text");
    text.text = Some("Let me check.".to_string());
    let mut call = block("tool_use");
    call.id = Some("toolu_1".to_string());
    call.name = Some("get_weather".to_string());
    call.input = Some("{\"location\":\"Paris\"}".to_string());
    let r = fold_anthropic_blocks(&[text, call]);
    assert_eq!(r.content, "Let me check.");
    assert_eq!(r.tool_calls.len(), 1);
    assert_eq!(r.tool_calls[0].name, "get_weather");
    assert_eq!(r.tool_calls[0].arguments, "{\"location\":\"Paris\"}");
}

#[test]
fn openai_complete_promotes_reasoning_when_content_empty() {
    let reasoning = "사고 {\"rating\":\"Sell\",\"key_thesis\":\"약세\"}";
    let content = promote_reasoning_into_content(String::new(), Some(reasoning));
    assert!(content.contains("\"rating\":\"Sell\""), "promoted content must contain JSON: {content}");
}

#[test]
fn openai_complete_keeps_content_when_present() {
    let content = promote_reasoning_into_content("answer".to_string(), Some("thought"));
    assert_eq!(content, "answer");
}

#[test]
fn placeholders_without_entries_pass_through() {
    assert_eq!(render_prompt("Hello {{name}}.", &[("topic", "Rust")]), "Hello {{name}}.");
    assert_eq!(render_prompt("no placeholders", &[("a", "1"), ("b", "2")]), "no placeholders");
}

// ── Assembled responses ───────────────────────────────

use llm_kernel::llm::client::{
    anthropic_response, http_status_error, is_success_status, openai_response, stream_event, AnthropicContent,
    OpenAIChoice,
};
use llm_kernel::llm::tool::ToolCall;
use llm_kernel::llm::types::StreamEvent;

fn usage(p: u32, c: u32) -> TokenUsage {
    TokenUsage { prompt_tokens: p, completion_tokens: c, total_tokens: p + c }
}

#[test]
fn openai_response_promotes_and_keeps_reasoning() {
    let choice = OpenAIChoice {
        content: None,
        reasoning_content: Some("the answer is 4".into()),
        tool_calls: vec![],
        finish_reason: Some("stop".into()),
    };
    let r = openai_response(Some(choice), "glm".into(), usage(3, 4), Some("id-1".into()), Some(7));
    assert_eq!(r.content, "the answer is 4");
    assert_eq!(r.reasoning.as_deref(), Some("the answer is 4"));
    assert_eq!(r.finish_reason.as_deref(), Some("stop"));
    assert_eq!(r.model, "glm");
    assert_eq!(r.usage.total_tokens, 7);
    assert_eq!(r.id.as_deref(), Some("id-1"));
    assert_eq!(r.created, Some(7));
}

#[test]
fn openai_response_keeps_content_and_reasoning_apart() {
    let choice = OpenAIChoice {
        content: Some("4".into()),
        reasoning_content: Some("2 + 2".into()),
        tool_calls: vec![ToolCall { id: "c1".into(), name: "add".into(), arguments: "{}".into() }],
        finish_reason: None,
    };
    let r = openai_response(Some(choice), "o1".into(), usage(0, 0), None, None);
    assert_eq!(r.content, "4");
    assert_eq!(r.reasoning.as_deref(), Some("2 + 2"));
    assert_eq!(r.tool_calls.len(), 1);
    assert_eq!(r.tool_calls[0].name, "add");
}

#[test]
fn openai_response_without_choices_is_empty() {
    let r = openai_response(None, "m".into(), usage(1, 2), None, None);
    assert_eq!(r.content, "");
    assert!(r.reasoning.is_none());
    assert!(r.tool_calls.is_empty());
    assert!(r.finish_reason.is_none());
}

#[test]
fn anthropic_response_keeps_thinking_as_reasoning() {
    let folded = AnthropicContent { content: "hi".into(), reasoning: Some("thought".into()), tool_calls: vec![] };
    let r = anthropic_response(folded, "sonnet".into(), 10, 5, Some("end_turn".into()), Some("msg".into()));
    assert_eq!(r.content, "hi");
    assert_eq!(r.reasoning.as_deref(), Some("thought"));
    assert_eq!(r.usage.total_tokens, 15);
    assert_eq!(r.finish_reason.as_deref(), Some("end_turn"));
    assert!(r.created.is_none());
}

#[test]
fn stream_event_forwards_reasoning() {
    assert!(matches!(stream_event(ChunkEvent::Reasoning("r".into())), StreamEvent::ReasoningDelta { content } if content == "r"));
    assert!(matches!(stream_event(ChunkEvent::Text("t".into())), StreamEvent::Delta { content } if content == "t"));
    assert!(matches!(stream_event(ChunkEvent::Usage(usage(1, 1))), StreamEvent::Usage(u) if u.total_tokens == 2));
    assert!(matches!(stream_event(ChunkEvent::Done), StreamEvent::Done));
}

#[test]
fn http_status_classification() {
    assert!(is_success_status(200));
    assert!(is_success_status(299));
    assert!(!is_success_status(199));
    assert!(!is_success_status(404));
    assert_eq!(http_status_error(503, "busy"), KernelError::Http { status: 503, message: "busy".into() });
}
