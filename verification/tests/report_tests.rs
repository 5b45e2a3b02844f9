use agentprof::analysis::{compute_analysis, match_calls, HookLogEntry, MatchedCall, ToolResult};
use agentprof::dashboard::dashboard;
use agentprof::report::{slowest_first, token_usage, tools_by_name, TokenUsage};
use agentprof::sorting::{order_by_text, sort_ascending, stable_order_descending};
use agentprof::timestamp::{millis_between, seconds_between, Timestamp};

fn entry(ts: &str, event: &str, tool: &str, id: &str, input: Option<usize>, output: Option<usize>) -> HookLogEntry {
    let t = chrono::DateTime::parse_from_rfc3339(ts).unwrap();
    HookLogEntry {
        timestamp: Timestamp::new(t.timestamp(), t.timestamp_subsec_nanos()).unwrap(),
        event: event.to_string(),
        tool_name: tool.to_string(),
        tool_use_id: id.to_string(),
        tool_input: None,
        tool_response: None,
        session_id: None,
        input_tokens: input,
        output_tokens: output,
    }
}

fn tool(name: &str, input: usize, output: usize) -> ToolResult {
    ToolResult { name: name.to_string(), calls: 1, latencies: vec![1], input_tokens: input, output_tokens: output }
}

#[test]
fn slowest_calls_first_with_ties_in_order() {
    let calls: Vec<MatchedCall> = [5, 9, 5, -2, 9]
        .iter()
        .enumerate()
        .map(|(i, l)| MatchedCall { pre: i, post: i, latency_ms: *l })
        .collect();
    assert_eq!(slowest_first(&calls), vec![1, 4, 0, 2, 3]);
    assert!(slowest_first(&Vec::new()).is_empty());
}

#[test]
fn stable_descending_order() {
    assert_eq!(stable_order_descending(&vec![3, 1, 3, 2]), vec![0, 2, 3, 1]);
}

#[test]
fn ascending_sort_keeps_values() {
    assert_eq!(sort_ascending(&vec![30, -1, 20, 30, 0]), vec![-1, 0, 20, 30, 30]);
}

#[test]
fn text_order_is_str_order() {
    let texts: Vec<String> = ["b", "a", "ab", "", "Z", "é", "aa"].iter().map(|s| s.to_string()).collect();
    let order = order_by_text(&texts);
    let ordered: Vec<&str> = order.iter().map(|&i| texts[i].as_str()).collect();
    let mut expected: Vec<&str> = texts.iter().map(|s| s.as_str()).collect();
    expected.sort();
    assert_eq!(ordered, expected);
}

#[test]
fn tools_ordered_by_name() {
    let tools = vec![tool("Read", 0, 0), tool("Bash", 0, 0), tool("Glob", 0, 0)];
    assert_eq!(tools_by_name(&tools), vec![1, 2, 0]);
}

#[test]
fn token_table_orders_by_total_and_skips_unused_tools() {
    let tools = vec![tool("a", 5, 5), tool("b", 0, 0), tool("c", 20, 1), tool("d", 4, 6)];
    match token_usage(&tools) {
        TokenUsage::Table(t) => {
            assert_eq!(t.rows, vec![2, 0, 3]);
            assert_eq!(t.total_input, 29);
            assert_eq!(t.total_output, 12);
            assert_eq!(t.total, 41);
        }
        other => panic!("unexpected {:?}", other),
    }
}

#[test]
fn token_table_nothing_and_overflow() {
    assert!(matches!(token_usage(&vec![tool("a", 0, 0)]), TokenUsage::Nothing));
    assert!(matches!(token_usage(&Vec::new()), TokenUsage::Nothing));
    assert!(matches!(token_usage(&vec![tool("a", usize::MAX, 0), tool("b", 0, 1)]), TokenUsage::Overflow));
    assert!(matches!(token_usage(&vec![tool("a", usize::MAX, 1)]), TokenUsage::Overflow));
}

#[test]
fn dashboard_of_a_log() {
    let entries = vec![
        entry("2026-02-14T09:00:00Z", "PreToolUse", "Glob", "1", Some(3), None),
        entry("2026-02-14T09:00:00.250Z", "PostToolUse", "Glob", "1", None, Some(4)),
        entry("2026-02-14T09:00:01Z", "PreToolUse", "Glob", "2", Some(1), None),
        entry("2026-02-14T09:00:01.100Z", "PostToolUse", "Glob", "2", None, None),
        entry("2026-02-14T09:00:02Z", "PostToolUse", "Read", "3", None, Some(9)),
        entry("2026-02-14T09:00:03.500Z", "PreToolUse", "Read", "4", Some(2), None),
    ];
    let d = dashboard(&entries).unwrap();
    assert_eq!(d.total_events, 6);
    assert_eq!(d.calls.len(), 2);
    assert_eq!(d.unmatched_post, 1);
    assert_eq!(d.unmatched_pre, 1);
    assert_eq!(d.tools.len(), 1);
    let glob = &d.tools[0];
    assert_eq!(glob.name, "Glob");
    assert_eq!(glob.latencies, vec![100, 250]);
    assert_eq!(glob.sum_ms, 350);
    assert_eq!(glob.sum_tokens, 8);
    let session = d.session.unwrap();
    assert_eq!(session.duration_ms, 3500);
    assert_eq!(session.start, entries[0].timestamp);
    assert_eq!(session.end, entries[5].timestamp);
}

#[test]
fn dashboard_of_empty_log_and_overflow() {
    let d = dashboard(&Vec::new()).unwrap();
    assert!(d.session.is_none());
    assert!(d.calls.is_empty() && d.tools.is_empty());
    let entries = vec![
        entry("2026-02-14T09:00:00Z", "PreToolUse", "T", "1", Some(usize::MAX), None),
        entry("2026-02-14T09:00:01Z", "PostToolUse", "T", "1", None, Some(1)),
    ];
    assert!(dashboard(&entries).is_none());
    let matching = match_calls(&entries);
    assert_eq!(matching.calls.len(), 1);
}

#[test]
fn analysis_counts_add_up() {
    let entries = vec![
        entry("2026-02-14T09:00:00Z", "PreToolUse", "A", "1", Some(1), None),
        entry("2026-02-14T09:00:01Z", "PostToolUse", "A", "1", None, Some(1)),
        entry("2026-02-14T09:00:02Z", "PostToolUse", "B", "2", None, None),
        entry("2026-02-14T09:00:03Z", "PreToolUse", "B", "3", None, None),
        entry("2026-02-14T09:00:04Z", "PostToolUse", "A", "1", None, Some(2)),
    ];
    let r = compute_analysis(&entries);
    assert_eq!(r.matched_count + r.unmatched_post, r.post_count);
    assert_eq!(r.matched_count, 2);
    assert_eq!(r.tools.iter().map(|t| t.calls).sum::<usize>(), r.matched_count);
    assert_eq!(r.tool("A").unwrap().input_tokens, 2);
    assert_eq!(r.tool("A").unwrap().output_tokens, 3);
    assert_eq!(r.tool("A").unwrap().latencies, vec![1000, 4000]);
}

#[test]
fn time_differences() {
    let a = Timestamp::new(100, 900_000_000).unwrap();
    let b = Timestamp::new(102, 100_000_000).unwrap();
    assert_eq!(millis_between(&b, &a), 1200);
    assert_eq!(millis_between(&a, &b), -1200);
    assert_eq!(seconds_between(&b, &a), 1);
    assert_eq!(seconds_between(&a, &b), -1);
    // a leap second (23:59:60.5 on 2016-12-31), as chrono counts it
    let leap = Timestamp::new(1_483_228_799, 1_500_000_000).unwrap();
    let before = Timestamp::new(1_483_228_798, 0).unwrap();
    let next_day = Timestamp::new(1_483_228_800, 0).unwrap();
    assert_eq!(millis_between(&leap, &before), 2500);
    assert_eq!(millis_between(&next_day, &leap), -500);
    assert!(Timestamp::new(1_483_228_798, 1_500_000_000).is_none());
}

#[test]
fn dashboard_rows_take_each_field_from_its_side() {
    let mut pre = entry("2026-02-14T09:08:17.000Z", "PreToolUse", "Read", "t1", Some(3), Some(40));
    pre.tool_input = Some(r#"{"path":"a"}"#.to_string());
    pre.tool_response = Some("\"ignored\"".to_string());
    pre.session_id = Some("pre-session".to_string());
    let mut post = entry("2026-02-14T09:08:17.250Z", "PostToolUse", "Read2", "t1", Some(99), Some(7));
    post.tool_input = Some("\"ignored too\"".to_string());
    post.tool_response = Some(r#"{"ok":true}"#.to_string());
    post.session_id = Some("post-session".to_string());
    let entries = vec![pre, post];
    let d = dashboard(&entries).unwrap();
    assert_eq!(d.rows.len(), 1);
    let row = &d.rows[0];
    assert_eq!(row.tool_name, "Read2");
    assert_eq!(row.tool_use_id, "t1");
    assert_eq!(row.start, entries[0].timestamp);
    assert_eq!(row.end, entries[1].timestamp);
    assert_eq!(row.latency_ms, 250);
    assert_eq!(row.tool_input.as_deref(), Some(r#"{"path":"a"}"#));
    assert_eq!(row.tool_response.as_deref(), Some(r#"{"ok":true}"#));
    assert_eq!(row.session_id.as_deref(), Some("post-session"));
    assert_eq!(row.input_tokens, Some(3));
    assert_eq!(row.output_tokens, Some(7));
}
