use agentprof::analysis::{compute_analysis, match_calls, summarize_tools, AnalysisResult, HookLogEntry};
use agentprof::timestamp::Timestamp;

// Log lines recorded by the hook.

const GLOB_PRE: &str = r#"{"timestamp":"2026-02-14T09:08:17.466100Z","event":"PreToolUse","tool_name":"Glob","tool_use_id":"toolu_01RMuqyFzjzrdSFERRdZErYP","tool_input":{"pattern":".mcp.json"},"session_id":"a152e784-b187-4064-a76e-8190e7e22ae8","input_tokens":8}"#;
const GLOB_POST: &str = r#"{"timestamp":"2026-02-14T09:08:17.796900Z","event":"PostToolUse","tool_name":"Glob","tool_use_id":"toolu_01RMuqyFzjzrdSFERRdZErYP","tool_input":{"pattern":".mcp.json"},"tool_response":{"durationMs":287,"filenames":[],"numFiles":0,"truncated":false},"session_id":"a152e784-b187-4064-a76e-8190e7e22ae8","input_tokens":8,"output_tokens":20}"#;

const ECHO_PRE: &str = r#"{"timestamp":"2026-02-14T09:10:19.030141Z","event":"PreToolUse","tool_name":"mcp__server-everything__echo","tool_use_id":"toolu_01DsnwXnG2r61h4RCi4cDTir","tool_input":{"message":"Hello from server-everything!"},"session_id":"1ff300da-1aea-43b5-8582-fd4498ddd443","input_tokens":11}"#;
const ECHO_POST: &str = r#"{"timestamp":"2026-02-14T09:10:21.070083Z","event":"PostToolUse","tool_name":"mcp__server-everything__echo","tool_use_id":"toolu_01DsnwXnG2r61h4RCi4cDTir","tool_input":{"message":"Hello from server-everything!"},"tool_response":[{"text":"Echo: Hello from server-everything!","type":"text"}],"session_id":"1ff300da-1aea-43b5-8582-fd4498ddd443","input_tokens":11,"output_tokens":19}"#;

const CLICKHOUSE_PRE: &str = r#"{"timestamp":"2026-02-14T09:23:12.450714Z","event":"PreToolUse","tool_name":"mcp__mcp-clickhouse__list_databases","tool_use_id":"toolu_01LHz4hnXYfrbh8911E5kiTH","tool_input":{},"session_id":"a5edf725-55eb-406f-b0c2-c3bea401411c","input_tokens":1}"#;
const CLICKHOUSE_POST: &str = r#"{"timestamp":"2026-02-14T09:23:14.123821Z","event":"PostToolUse","tool_name":"mcp__mcp-clickhouse__list_databases","tool_use_id":"toolu_01LHz4hnXYfrbh8911E5kiTH","tool_input":{},"tool_response":[{"text":"[\"INFORMATION_SCHEMA\", \"default\", \"information_schema\", \"system\"]","type":"text"}],"session_id":"a5edf725-55eb-406f-b0c2-c3bea401411c","input_tokens":1,"output_tokens":26}"#;

fn text_field(v: &serde_json::Value, key: &str) -> Option<String> {
    v.get(key).and_then(|x| x.as_str()).map(|s| s.to_string())
}

fn json_field(v: &serde_json::Value, key: &str) -> Option<String> {
    v.get(key).filter(|x| !x.is_null()).map(|x| serde_json::to_string(x).unwrap())
}

fn count_field(v: &serde_json::Value, key: &str) -> Option<usize> {
    v.get(key).and_then(|x| x.as_u64()).map(|n| n as usize)
}

/// Reads one log line into an entry; `None` for a malformed line.
fn parse_line(line: &str) -> Option<HookLogEntry> {
    let v: serde_json::Value = serde_json::from_str(line).ok()?;
    let ts = chrono::DateTime::parse_from_rfc3339(v.get("timestamp")?.as_str()?).ok()?;
    let timestamp = Timestamp::new(ts.timestamp(), ts.timestamp_subsec_nanos())?;
    Some(HookLogEntry {
        timestamp,
        event: text_field(&v, "event")?,
        tool_name: text_field(&v, "tool_name")?,
        tool_use_id: text_field(&v, "tool_use_id")?,
        tool_input: json_field(&v, "tool_input"),
        tool_response: json_field(&v, "tool_response"),
        session_id: text_field(&v, "session_id"),
        input_tokens: count_field(&v, "input_tokens"),
        output_tokens: count_field(&v, "output_tokens"),
    })
}

fn parse_entries(lines: &[String]) -> Vec<HookLogEntry> {
    lines.iter().filter_map(|l| parse_line(l)).collect()
}

fn analyze_lines(lines: &[String]) -> AnalysisResult {
    let entries = parse_entries(lines);
    compute_analysis(&entries)
}

#[test]
fn match_glob_pre_post_pair() {
    let lines = vec![GLOB_PRE.to_string(), GLOB_POST.to_string()];
    let result = analyze_lines(&lines);

    assert_eq!(result.total_events, 2);
    assert_eq!(result.pre_count, 1);
    assert_eq!(result.post_count, 1);
    assert_eq!(result.matched_count, 1);
    assert_eq!(result.unmatched_pre, 0);
    assert_eq!(result.unmatched_post, 0);

    let glob_stats = result.tool("Glob").expect("Glob tool stats missing");
    assert_eq!(glob_stats.calls, 1);
    // 09:08:17.796900 - 09:08:17.466100 = 330.8ms
    assert!((glob_stats.latencies[0] as f64 - 330.0).abs() < 2.0);
    assert_eq!(glob_stats.input_tokens, 8);
    assert_eq!(glob_stats.output_tokens, 20);
}

#[test]
fn match_echo_pre_post_pair() {
    let lines = vec![ECHO_PRE.to_string(), ECHO_POST.to_string()];
    let result = analyze_lines(&lines);

    assert_eq!(result.matched_count, 1);

    let echo_stats = result
        .tool("mcp__server-everything__echo")
        .expect("echo tool stats missing");
    assert_eq!(echo_stats.calls, 1);
    // 09:10:21.070083 - 09:10:19.030141 = 2039.942ms
    assert!((echo_stats.latencies[0] as f64 - 2039.0).abs() < 2.0);
    assert_eq!(echo_stats.input_tokens, 11);
    assert_eq!(echo_stats.output_tokens, 19);
}

#[test]
fn match_multiple_tools() {
    let lines = vec![
        GLOB_PRE.to_string(),
        ECHO_PRE.to_string(),
        GLOB_POST.to_string(),
        ECHO_POST.to_string(),
        CLICKHOUSE_PRE.to_string(),
        CLICKHOUSE_POST.to_string(),
    ];
    let result = analyze_lines(&lines);

    assert_eq!(result.total_events, 6);
    assert_eq!(result.pre_count, 3);
    assert_eq!(result.post_count, 3);
    assert_eq!(result.matched_count, 3);
    assert_eq!(result.unmatched_pre, 0);
    assert_eq!(result.unmatched_post, 0);
    assert_eq!(result.tools.len(), 3);

    assert!(result.has_tool("Glob"));
    assert!(result.has_tool("mcp__server-everything__echo"));
    assert!(result.has_tool("mcp__mcp-clickhouse__list_databases"));

    let ch_stats = result.tool("mcp__mcp-clickhouse__list_databases").unwrap();
    assert_eq!(ch_stats.calls, 1);
    assert_eq!(ch_stats.input_tokens, 1);
    assert_eq!(ch_stats.output_tokens, 26);
    // 09:23:14.123821 - 09:23:12.450714 = 1673.107ms
    assert!((ch_stats.latencies[0] as f64 - 1673.0).abs() < 2.0);
}

#[test]
fn unmatched_pre_event() {
    // PreToolUse with no matching PostToolUse
    let lines = vec![GLOB_PRE.to_string()];
    let result = analyze_lines(&lines);

    assert_eq!(result.matched_count, 0);
    assert_eq!(result.unmatched_pre, 1);
    assert_eq!(result.unmatched_post, 0);
    assert!(result.tools.is_empty());
}

#[test]
fn unmatched_post_event() {
    // PostToolUse with no matching PreToolUse
    let lines = vec![ECHO_POST.to_string()];
    let result = analyze_lines(&lines);

    assert_eq!(result.matched_count, 0);
    assert_eq!(result.unmatched_pre, 0);
    assert_eq!(result.unmatched_post, 1);
    assert!(result.tools.is_empty());
}

#[test]
fn session_duration() {
    let lines = vec![
        GLOB_PRE.to_string(),
        GLOB_POST.to_string(),
        CLICKHOUSE_PRE.to_string(),
        CLICKHOUSE_POST.to_string(),
    ];
    let result = analyze_lines(&lines);

    // 09:23:14.123821 - 09:08:17.466100 ~= 896s
    assert!(result.duration_secs > 890 && result.duration_secs < 900);
}

#[test]
fn token_aggregation_across_calls() {
    // Two Glob calls to test aggregation
    let pre2 = r#"{"timestamp":"2026-02-14T09:09:00.000000Z","event":"PreToolUse","tool_name":"Glob","tool_use_id":"toolu_second","tool_input":{"pattern":"*.rs"},"session_id":"test","input_tokens":5}"#;
    let post2 = r#"{"timestamp":"2026-02-14T09:09:00.500000Z","event":"PostToolUse","tool_name":"Glob","tool_use_id":"toolu_second","tool_input":{"pattern":"*.rs"},"tool_response":{"numFiles":3},"session_id":"test","input_tokens":5,"output_tokens":30}"#;

    let lines = vec![
        GLOB_PRE.to_string(),
        GLOB_POST.to_string(),
        pre2.to_string(),
        post2.to_string(),
    ];
    let result = analyze_lines(&lines);

    let glob_stats = result.tool("Glob").unwrap();
    assert_eq!(glob_stats.calls, 2);
    assert_eq!(glob_stats.input_tokens, 8 + 5);
    assert_eq!(glob_stats.output_tokens, 20 + 30);
    assert_eq!(glob_stats.latencies.len(), 2);
}

#[test]
fn exact_latencies_truncate_toward_zero() {
    let lines = vec![GLOB_PRE.to_string(), GLOB_POST.to_string(), ECHO_PRE.to_string(), ECHO_POST.to_string()];
    let entries = parse_entries(&lines);
    let matching = match_calls(&entries);
    assert_eq!(matching.calls.len(), 2);
    assert_eq!((matching.calls[0].pre, matching.calls[0].post), (0, 1));
    assert_eq!(matching.calls[0].latency_ms, 330);
    assert_eq!((matching.calls[1].pre, matching.calls[1].post), (2, 3));
    assert_eq!(matching.calls[1].latency_ms, 2039);
}

#[test]
fn post_pairs_with_last_pre_of_same_id() {
    // Two PreToolUse entries with the same id: the later one is used, even when it follows the post.
    let pre_a = r#"{"timestamp":"2026-02-14T09:00:00.000Z","event":"PreToolUse","tool_name":"Read","tool_use_id":"same","input_tokens":3}"#;
    let post = r#"{"timestamp":"2026-02-14T09:00:01.000Z","event":"PostToolUse","tool_name":"Read","tool_use_id":"same","output_tokens":4}"#;
    let pre_b = r#"{"timestamp":"2026-02-14T09:00:02.500Z","event":"PreToolUse","tool_name":"Read","tool_use_id":"same","input_tokens":7}"#;
    let lines = vec![pre_a.to_string(), post.to_string(), pre_b.to_string()];
    let entries = parse_entries(&lines);
    let matching = match_calls(&entries);
    assert_eq!(matching.calls.len(), 1);
    assert_eq!(matching.calls[0].pre, 2);
    assert_eq!(matching.calls[0].latency_ms, -1500);
    assert_eq!(matching.unmatched_pre, 0);
    assert_eq!(matching.unmatched_post, 0);
    let result = compute_analysis(&entries);
    assert_eq!(result.tool("Read").unwrap().input_tokens, 7);
    assert_eq!(result.pre_count, 2);
    assert_eq!(result.duration_secs, 2);
}

#[test]
fn negative_duration_truncates_toward_zero() {
    let late = r#"{"timestamp":"2026-02-14T09:00:05.900Z","event":"Notification","tool_name":"x","tool_use_id":"a"}"#;
    let early = r#"{"timestamp":"2026-02-14T09:00:00.000Z","event":"Notification","tool_name":"x","tool_use_id":"b"}"#;
    let entries = parse_entries(&[late.to_string(), early.to_string()]);
    let result = compute_analysis(&entries);
    assert_eq!(result.duration_secs, -5);
    assert_eq!(result.pre_count, 0);
    assert_eq!(result.post_count, 0);
    assert_eq!(result.total_events, 2);
}

#[test]
fn summarize_reports_token_overflow() {
    let pre1 = format!(r#"{{"timestamp":"2026-02-14T09:00:00Z","event":"PreToolUse","tool_name":"T","tool_use_id":"1","input_tokens":{}}}"#, usize::MAX);
    let post1 = r#"{"timestamp":"2026-02-14T09:00:01Z","event":"PostToolUse","tool_name":"T","tool_use_id":"1"}"#;
    let pre2 = r#"{"timestamp":"2026-02-14T09:00:02Z","event":"PreToolUse","tool_name":"T","tool_use_id":"2","input_tokens":1}"#;
    let post2 = r#"{"timestamp":"2026-02-14T09:00:03Z","event":"PostToolUse","tool_name":"T","tool_use_id":"2"}"#;
    let entries = parse_entries(&[pre1, post1.to_string(), pre2.to_string(), post2.to_string()]);
    let matching = match_calls(&entries);
    assert!(summarize_tools(&entries, &matching.calls).is_none());
    let entries = parse_entries(&[post1.to_string(), post2.to_string()]);
    let matching = match_calls(&entries);
    assert!(summarize_tools(&entries, &matching.calls).unwrap().is_empty());
}

#[test]
fn timestamp_rejects_invalid_parts() {
    assert!(Timestamp::new(0, 2_000_000_000).is_none());
    assert!(Timestamp::new(0, 1_000_000_000).is_none());
    assert!(Timestamp::new(59, 1_500_000_000).is_some());
    assert!(Timestamp::new(1_771_060_097, 466_100_000).is_some());
}
