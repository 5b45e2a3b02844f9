use agentprof::hook::{build_hook_entry, hook_entry_from_text, HookError, HookInput};
use agentprof::timestamp::Timestamp;
use agentprof::tokens::{count_tokens, count_tokens_json};

fn json(text: &str) -> serde_json::Value {
    serde_json::from_str(text).unwrap()
}

fn input(event: Option<&str>) -> HookInput {
    HookInput {
        hook_event_name: event.map(|s| s.to_string()),
        tool_name: None,
        tool_use_id: None,
        session_id: Some("s1".to_string()),
        tool_input: Some(json(r#"{"pattern": ".mcp.json"}"#)),
        tool_response: None,
    }
}

#[test]
fn hook_entry_defaults_and_tokens() {
    let ts = Timestamp::new(1_771_060_097, 466_100_000).unwrap();
    let entry = build_hook_entry(input(Some("PreToolUse")), ts).unwrap();
    assert_eq!(entry.event, "PreToolUse");
    assert_eq!(entry.tool_name, "unknown");
    assert_eq!(entry.tool_use_id, "");
    assert_eq!(entry.session_id.as_deref(), Some("s1"));
    assert_eq!(entry.timestamp, ts);
    assert_eq!(entry.tool_input.as_deref(), Some(r#"{"pattern":".mcp.json"}"#));
    assert_eq!(entry.tool_response, None);
    assert_eq!(entry.input_tokens, count_tokens(r#"{"pattern":".mcp.json"}"#));
    assert!(entry.input_tokens.unwrap() > 0);
    assert_eq!(entry.output_tokens, None);
}

#[test]
fn hook_entry_keeps_named_fields() {
    let ts = Timestamp::new(5, 0).unwrap();
    let hook = HookInput {
        hook_event_name: Some("PostToolUse".to_string()),
        tool_name: Some("Read".to_string()),
        tool_use_id: Some("toolu_1".to_string()),
        session_id: None,
        tool_input: None,
        tool_response: Some(json(r#"{"b": 1, "a": [true, null]}"#)),
    };
    let entry = build_hook_entry(hook, ts).unwrap();
    assert_eq!(entry.tool_name, "Read");
    assert_eq!(entry.tool_use_id, "toolu_1");
    assert_eq!(entry.session_id, None);
    assert_eq!(entry.tool_input, None);
    assert_eq!(entry.input_tokens, None);
    assert_eq!(entry.tool_response.as_deref(), Some(r#"{"a":[true,null],"b":1}"#));
    assert_eq!(entry.output_tokens, count_tokens(r#"{"a":[true,null],"b":1}"#));
}

#[test]
fn hook_entry_requires_event_name() {
    let ts = Timestamp::new(0, 0).unwrap();
    assert_eq!(build_hook_entry(input(None), ts).unwrap_err(), HookError::MissingEventName);
}

#[test]
fn token_counts() {
    assert_eq!(count_tokens(""), Some(0));
    assert_eq!(count_tokens("hello world"), Some(2));
    let v = json(r#"{"pattern": ".mcp.json"}"#);
    assert_eq!(count_tokens_json(&v), count_tokens(r#"{"pattern":".mcp.json"}"#));
    assert!(count_tokens_json(&v).unwrap() > 0);
    assert_eq!(count_tokens_json(&json("{}")), count_tokens("{}"));
}

fn long_blank_text() -> String {
    let mut text = " ".repeat(1_100_000);
    text.push('a');
    text
}

#[test]
fn token_count_fails_on_long_whitespace_run() {
    assert_eq!(count_tokens(&long_blank_text()), None);
}

#[test]
fn hook_entry_reports_tokenizer_failure() {
    let ts = Timestamp::new(0, 0).unwrap();
    let mut hook = input(Some("PostToolUse"));
    hook.tool_response = Some(serde_json::Value::String(long_blank_text()));
    assert_eq!(build_hook_entry(hook, ts).unwrap_err(), HookError::TokenizerFailed);
    let mut hook = input(None);
    hook.tool_response = Some(serde_json::Value::String(long_blank_text()));
    assert_eq!(build_hook_entry(hook, ts).unwrap_err(), HookError::MissingEventName);
}

#[test]
fn hook_entry_from_json_text() {
    let ts = Timestamp::new(7, 0).unwrap();
    let text = r#"{"hook_event_name":"PreToolUse","tool_name":"Glob","tool_use_id":"t1","session_id":"s9","tool_input":{"pattern": "*.rs"},"extra":1}"#;
    let entry = hook_entry_from_text(text, ts).unwrap().unwrap();
    assert_eq!(entry.event, "PreToolUse");
    assert_eq!(entry.tool_name, "Glob");
    assert_eq!(entry.tool_use_id, "t1");
    assert_eq!(entry.session_id.as_deref(), Some("s9"));
    assert_eq!(entry.tool_input.as_deref(), Some(r#"{"pattern":"*.rs"}"#));
    assert_eq!(entry.tool_response, None);
    assert_eq!(entry.input_tokens, count_tokens(r#"{"pattern":"*.rs"}"#));
    assert_eq!(entry.timestamp, ts);
}

#[test]
fn hook_entry_from_text_ignores_non_text_names() {
    let ts = Timestamp::new(7, 0).unwrap();
    let text = r#"{"hook_event_name":"PostToolUse","tool_name":5,"session_id":null,"tool_response":"done"}"#;
    let entry = hook_entry_from_text(text, ts).unwrap().unwrap();
    assert_eq!(entry.tool_name, "unknown");
    assert_eq!(entry.tool_use_id, "");
    assert_eq!(entry.session_id, None);
    assert_eq!(entry.tool_response.as_deref(), Some(r#""done""#));
}

#[test]
fn hook_entry_from_text_errors() {
    let ts = Timestamp::new(7, 0).unwrap();
    assert!(hook_entry_from_text("{not json", ts).is_err());
    assert!(hook_entry_from_text("", ts).is_err());
    assert_eq!(hook_entry_from_text(r#"{"hook_event_name":3}"#, ts).unwrap().unwrap_err(), HookError::MissingEventName);
    assert_eq!(hook_entry_from_text(r#"["PreToolUse"]"#, ts).unwrap().unwrap_err(), HookError::MissingEventName);
}
