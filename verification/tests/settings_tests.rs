use agentprof::json::{blank_text, settings_from_text};
use agentprof::settings::{install_profiler_hooks, is_agentprof_hook, uninstall_profiler_hooks, HookChange, JsonValue, SettingsError};

fn from_json(v: &serde_json::Value) -> JsonValue {
    match v {
        serde_json::Value::Null => JsonValue::Null,
        serde_json::Value::Bool(b) => JsonValue::Bool(*b),
        serde_json::Value::Number(n) => JsonValue::Number(n.to_string()),
        serde_json::Value::String(s) => JsonValue::Str(s.clone()),
        serde_json::Value::Array(a) => JsonValue::Array(a.iter().map(from_json).collect()),
        serde_json::Value::Object(m) => JsonValue::Object(m.iter().map(|(k, v)| (k.clone(), from_json(v))).collect()),
    }
}

fn to_json(v: &JsonValue) -> serde_json::Value {
    match v {
        JsonValue::Null => serde_json::Value::Null,
        JsonValue::Bool(b) => serde_json::Value::Bool(*b),
        JsonValue::Number(n) => serde_json::from_str(n).unwrap(),
        JsonValue::Str(s) => serde_json::Value::String(s.clone()),
        JsonValue::Array(a) => serde_json::Value::Array(a.iter().map(to_json).collect()),
        JsonValue::Object(fs) => serde_json::Value::Object(fs.iter().map(|(k, v)| (k.clone(), to_json(v))).collect()),
    }
}

fn parse(text: &str) -> JsonValue {
    from_json(&serde_json::from_str::<serde_json::Value>(text).unwrap())
}

fn json(text: &str) -> serde_json::Value {
    serde_json::from_str(text).unwrap()
}

const COMMAND: &str = "/usr/local/bin/agentprof hook --log /tmp/log.jsonl";

#[test]
fn install_into_empty_settings() {
    let report = install_profiler_hooks(parse("{}"), &COMMAND.to_string()).unwrap();
    assert_eq!(report.pre, HookChange::Added);
    assert_eq!(report.post, HookChange::Added);
    let entry = format!(r#"{{"matcher":"*","hooks":[{{"type":"command","command":"{}"}}]}}"#, COMMAND);
    let expected = json(&format!(r#"{{"hooks":{{"PreToolUse":[{e}],"PostToolUse":[{e}]}}}}"#, e = entry));
    assert_eq!(to_json(&report.settings), expected);
}

#[test]
fn install_keeps_other_settings_and_hooks() {
    let settings = r#"{"model":"opus","hooks":{"PreToolUse":[{"matcher":"Bash","hooks":[{"type":"command","command":"echo hi"}]},{"matcher":"*","hooks":[{"type":"command","command":"/old/mcp-profiler hook"}]}],"Stop":[{"hooks":[]}]}}"#;
    let report = install_profiler_hooks(parse(settings), &COMMAND.to_string()).unwrap();
    assert_eq!(report.pre, HookChange::Replaced);
    assert_eq!(report.post, HookChange::Added);
    let entry = format!(r#"{{"matcher":"*","hooks":[{{"type":"command","command":"{}"}}]}}"#, COMMAND);
    let expected = json(&format!(
        r#"{{"model":"opus","hooks":{{"PreToolUse":[{{"matcher":"Bash","hooks":[{{"type":"command","command":"echo hi"}}]}},{e}],"Stop":[{{"hooks":[]}}],"PostToolUse":[{e}]}}}}"#,
        e = entry
    ));
    assert_eq!(to_json(&report.settings), expected);
}

#[test]
fn install_replaces_non_list_event() {
    let report = install_profiler_hooks(parse(r#"{"hooks":{"PostToolUse":"oops"}}"#), &COMMAND.to_string()).unwrap();
    assert_eq!(report.post, HookChange::Added);
    let v = to_json(&report.settings);
    assert_eq!(v["hooks"]["PostToolUse"].as_array().unwrap().len(), 1);
}

#[test]
fn install_is_idempotent() {
    let settings = r#"{"hooks":{"PreToolUse":[{"hooks":[{"command":"other"}]}]}}"#;
    let once = install_profiler_hooks(parse(settings), &COMMAND.to_string()).unwrap();
    let once_json = to_json(&once.settings);
    let twice = install_profiler_hooks(once.settings, &COMMAND.to_string()).unwrap();
    assert_eq!(twice.pre, HookChange::Replaced);
    assert_eq!(twice.post, HookChange::Replaced);
    assert_eq!(to_json(&twice.settings), once_json);
}

#[test]
fn install_rejects_non_objects() {
    assert_eq!(install_profiler_hooks(parse("[1,2]"), &COMMAND.to_string()).unwrap_err(), SettingsError::NotAnObject);
    assert_eq!(
        install_profiler_hooks(parse(r#"{"hooks":[]}"#), &COMMAND.to_string()).unwrap_err(),
        SettingsError::HooksNotAnObject
    );
}

#[test]
fn uninstall_after_install_restores_settings() {
    let settings = r#"{"theme":"dark","hooks":{"PreToolUse":[{"matcher":"Bash","hooks":[{"type":"command","command":"echo hi"}]}]}}"#;
    let installed = install_profiler_hooks(parse(settings), &COMMAND.to_string()).unwrap();
    let report = uninstall_profiler_hooks(installed.settings).unwrap().unwrap();
    assert_eq!(report.removed_pre, 1);
    assert_eq!(report.removed_post, 1);
    assert_eq!(report.emptied, vec!["PostToolUse".to_string()]);
    assert!(!report.hooks_removed);
    assert_eq!(to_json(&report.settings), json(settings));
}

#[test]
fn uninstall_drops_empty_hook_section() {
    let installed = install_profiler_hooks(parse(r#"{"a":1}"#), &COMMAND.to_string()).unwrap();
    let report = uninstall_profiler_hooks(installed.settings).unwrap().unwrap();
    assert!(report.hooks_removed);
    assert_eq!(report.emptied.len(), 2);
    assert_eq!(to_json(&report.settings), json(r#"{"a":1}"#));
}

#[test]
fn uninstall_without_hooks_section() {
    assert!(uninstall_profiler_hooks(parse(r#"{"a":1}"#)).unwrap().is_none());
    assert!(uninstall_profiler_hooks(parse(r#"{"hooks":3}"#)).unwrap().is_none());
    assert_eq!(uninstall_profiler_hooks(parse("true")).unwrap_err(), SettingsError::NotAnObject);
}

#[test]
fn uninstall_with_nothing_to_remove_still_drops_empty_lists() {
    let report = uninstall_profiler_hooks(parse(r#"{"hooks":{"Stop":[],"PreToolUse":[{"hooks":[{"command":"x"}]}]}}"#))
        .unwrap()
        .unwrap();
    assert_eq!(report.removed_pre, 0);
    assert_eq!(report.removed_post, 0);
    assert_eq!(report.emptied, vec!["Stop".to_string()]);
}

#[test]
fn profiler_hook_detection() {
    assert!(is_agentprof_hook(&parse(r#"{"hooks":[{"command":"x"},{"command":"run agentprof now"}]}"#)));
    assert!(is_agentprof_hook(&parse(r#"{"hooks":[{"command":"/bin/mcp-profiler"}]}"#)));
    assert!(!is_agentprof_hook(&parse(r#"{"hooks":[{"command":"agent prof"}]}"#)));
    assert!(!is_agentprof_hook(&parse(r#"{"hooks":{"command":"agentprof"}}"#)));
    assert!(!is_agentprof_hook(&parse(r#"{"hooks":[{"command":7}]}"#)));
    assert!(!is_agentprof_hook(&parse(r#"["agentprof"]"#)));
}

#[test]
fn uninstall_twice_changes_nothing_more() {
    let settings = r#"{"hooks":{"PreToolUse":[{"hooks":[{"command":"agentprof hook"}]},{"hooks":[{"command":"keep"}]}],"PostToolUse":[{"hooks":[{"command":"agentprof hook"}]}]}}"#;
    let first = uninstall_profiler_hooks(parse(settings)).unwrap().unwrap();
    assert_eq!((first.removed_pre, first.removed_post), (1, 1));
    let first_json = to_json(&first.settings);
    let second = uninstall_profiler_hooks(first.settings).unwrap().unwrap();
    assert_eq!((second.removed_pre, second.removed_post), (0, 0));
    assert!(second.emptied.is_empty());
    assert_eq!(to_json(&second.settings), first_json);
}

#[test]
fn hook_command_text() {
    assert_eq!(agentprof::settings::hook_command("/bin/agentprof", "/tmp/x.jsonl"), "/bin/agentprof hook --log /tmp/x.jsonl");
}

#[test]
fn uninstall_after_install_restores_fields_in_order() {
    let original = JsonValue::Object(vec![
        ("zeta".to_string(), JsonValue::Number("1".to_string())),
        (
            "hooks".to_string(),
            JsonValue::Object(vec![
                ("PostToolUse".to_string(), parse(r#"[{"hooks":[{"command":"notify"}]}]"#)),
                ("Stop".to_string(), parse(r#"[{"hooks":[{"command":"bye"}]}]"#)),
                ("PreToolUse".to_string(), parse(r#"[{"matcher":"Bash","hooks":[{"command":"lint"}]}]"#)),
            ]),
        ),
        ("alpha".to_string(), JsonValue::Bool(true)),
    ]);
    let before = format!("{:?}", original);
    let installed = install_profiler_hooks(original, &COMMAND.to_string()).unwrap();
    let report = uninstall_profiler_hooks(installed.settings).unwrap().unwrap();
    assert_eq!((report.removed_pre, report.removed_post), (1, 1));
    assert!(report.emptied.is_empty());
    assert!(!report.hooks_removed);
    assert_eq!(format!("{:?}", report.settings), before);
}

#[test]
fn settings_read_from_text() {
    assert!(blank_text(""));
    assert!(blank_text(" \n\t\u{3000}\r"));
    assert!(!blank_text(" {} "));
    assert_eq!(format!("{:?}", settings_from_text("  \n").unwrap()), format!("{:?}", JsonValue::Object(vec![])));
    let read = settings_from_text(r#"{"b": [1, 2.5, "x"], "a": {"c": null, "d": false}}"#).unwrap();
    assert_eq!(to_json(&read), json(r#"{"a":{"c":null,"d":false},"b":[1,2.5,"x"]}"#));
    match read {
        JsonValue::Object(fs) => assert_eq!(fs[0].0, "a"),
        _ => panic!("an object was read"),
    }
    assert!(settings_from_text("{\"a\":").is_err());
    assert!(settings_from_text("nul").is_err());
}
