//! Log entries built from the input of an agent hook.

use vstd::prelude::*;

use crate::analysis::HookLogEntry;
use crate::timestamp::Timestamp;
use crate::json::{json_get, json_member, json_parse, parse_json, text_field, text_member};
use crate::tokens::{count_tokens_json, json_compact, json_compact_text, json_token_count};

verus! {

broadcast use vstd::string::to_string_from_display_ensures_for_str;

/// What a hook invocation reports: each text field is present when the hook
/// JSON has it as a string; `tool_input` and `tool_response` are the JSON
/// values of those fields when present.
#[derive(Debug)]
pub struct HookInput {
    pub hook_event_name: Option<String>,
    pub tool_name: Option<String>,
    pub tool_use_id: Option<String>,
    pub session_id: Option<String>,
    pub tool_input: Option<serde_json::Value>,
    pub tool_response: Option<serde_json::Value>,
}

/// Why a hook input gives no log entry.
#[derive(Debug, PartialEq, Eq)]
pub enum HookError {
    /// The hook JSON has no `hook_event_name` string.
    MissingEventName,
    /// The tokenizer cannot encode the JSON text of the tool input or response.
    TokenizerFailed,
}

/// The tokenizer cannot encode the JSON text of an optional value.
pub open spec fn tokens_fail(value: Option<serde_json::Value>) -> bool {
    value matches Some(v) && json_token_count(v) is None
}

/// `text` is the compact JSON text of `value`, both present or both absent.
pub open spec fn is_json_text_of(text: Option<String>, value: Option<serde_json::Value>) -> bool {
    match value {
        Some(v) => text matches Some(t) && t@ == json_compact(v),
        None => text is None,
    }
}

/// `count` is the token count of the JSON text of `value`, both present or
/// both absent.
pub open spec fn is_token_count_of(count: Option<usize>, value: Option<serde_json::Value>) -> bool {
    match value {
        Some(v) => count matches Some(n) && json_token_count(v) == Some(n as nat),
        None => count is None,
    }
}

fn optional_json_text(value: &Option<serde_json::Value>) -> (r: Option<String>)
    ensures
        is_json_text_of(r, *value),
{
    match value {
        Some(v) => Some(json_compact_text(v)),
        None => None,
    }
}

fn optional_token_count(value: &Option<serde_json::Value>) -> (r: Result<Option<usize>, HookError>)
    ensures
        r is Err <==> tokens_fail(*value),
        r matches Ok(c) ==> is_token_count_of(c, *value),
        r matches Err(e) ==> e == HookError::TokenizerFailed,
{
    match value {
        Some(v) => match count_tokens_json(v) {
            Some(n) => Ok(Some(n)),
            None => Err(HookError::TokenizerFailed),
        },
        None => Ok(None),
    }
}

/// The views of optional texts.
pub open spec fn text_views(t: Option<String>) -> Option<Seq<char>> {
    match t {
        Some(s) => Some(s@),
        None => None,
    }
}

/// `r` is the outcome of building the log entry of a hook invocation at
/// `timestamp` from these fields: an error exactly when the event name is
/// missing or, with an event name, a token count fails; else the entry, with
/// the tool name defaulting to `unknown`, the tool-use id to the empty text,
/// and tool input and response kept as their compact JSON text with their
/// token counts.
pub open spec fn hook_entry_outcome(
    event: Option<Seq<char>>,
    tool_name: Option<Seq<char>>,
    tool_use_id: Option<Seq<char>>,
    session_id: Option<Seq<char>>,
    tool_input: Option<serde_json::Value>,
    tool_response: Option<serde_json::Value>,
    timestamp: Timestamp,
    r: Result<HookLogEntry, HookError>,
) -> bool {
    &&& (r matches Err(HookError::MissingEventName)) <==> event is None
    &&& (r matches Err(HookError::TokenizerFailed)) <==> (event is Some && (tokens_fail(tool_input) || tokens_fail(
        tool_response,
    )))
    &&& r matches Ok(e) ==> {
        &&& e.timestamp == timestamp
        &&& Some(e.event@) == event
        &&& e.tool_name@ == match tool_name {
            Some(n) => n,
            None => "unknown"@,
        }
        &&& e.tool_use_id@ == match tool_use_id {
            Some(n) => n,
            None => Seq::<char>::empty(),
        }
        &&& text_views(e.session_id) == session_id
        &&& is_json_text_of(e.tool_input, tool_input)
        &&& is_json_text_of(e.tool_response, tool_response)
        &&& is_token_count_of(e.input_tokens, tool_input)
        &&& is_token_count_of(e.output_tokens, tool_response)
    }
}

/// The log entry of a hook invocation at `timestamp`: the tool name defaults
/// to `unknown` and the tool-use id to the empty text; tool input and
/// response are kept as their compact JSON text with their token counts.
pub fn build_hook_entry(input: HookInput, timestamp: Timestamp) -> (r: Result<HookLogEntry, HookError>)
    ensures
        hook_entry_outcome(
            text_views(input.hook_event_name),
            text_views(input.tool_name),
            text_views(input.tool_use_id),
            text_views(input.session_id),
            input.tool_input,
            input.tool_response,
            timestamp,
            r,
        ),
{
    let event = match input.hook_event_name {
        Some(e) => e,
        None => return Err(HookError::MissingEventName),
    };
    let tool_name = match input.tool_name {
        Some(n) => n,
        None => "unknown".to_string(),
    };
    let tool_use_id = match input.tool_use_id {
        Some(n) => n,
        None => String::new(),
    };
    let input_tokens = match optional_token_count(&input.tool_input) {
        Ok(c) => c,
        Err(e) => return Err(e),
    };
    let output_tokens = match optional_token_count(&input.tool_response) {
        Ok(c) => c,
        Err(e) => return Err(e),
    };
    let tool_input = optional_json_text(&input.tool_input);
    let tool_response = optional_json_text(&input.tool_response);
    Ok(HookLogEntry {
        timestamp,
        event,
        tool_name,
        tool_use_id,
        tool_input,
        tool_response,
        session_id: input.session_id,
        input_tokens,
        output_tokens,
    })
}

/// The log entry of the hook invocation whose JSON text is `text`, at
/// `timestamp`: serde_json's error where the text is no JSON; else the
/// outcome of `build_hook_entry` on the text members `hook_event_name`,
/// `tool_name`, `tool_use_id` and `session_id` and the members `tool_input`
/// and `tool_response`.
pub fn hook_entry_from_text(text: &str, timestamp: Timestamp) -> (r: Result<
    Result<HookLogEntry, HookError>,
    serde_json::Error,
>)
    ensures
        r is Err <==> json_parse(text@) is None,
        r matches Ok(outcome) ==> ({
            let v = json_parse(text@)->Some_0;
            hook_entry_outcome(
                text_member(v, "hook_event_name"@),
                text_member(v, "tool_name"@),
                text_member(v, "tool_use_id"@),
                text_member(v, "session_id"@),
                json_member(v, "tool_input"@),
                json_member(v, "tool_response"@),
                timestamp,
                outcome,
            )
        }),
{
    let v = match parse_json(text) {
        Ok(v) => v,
        Err(e) => return Err(e),
    };
    let input = HookInput {
        hook_event_name: text_field(&v, "hook_event_name"),
        tool_name: text_field(&v, "tool_name"),
        tool_use_id: text_field(&v, "tool_use_id"),
        session_id: text_field(&v, "session_id"),
        tool_input: json_get(&v, "tool_input"),
        tool_response: json_get(&v, "tool_response"),
    };
    Ok(build_hook_entry(input, timestamp))
}

} // verus!
