//! Pairing of `PreToolUse` and `PostToolUse` hook events and the statistics
//! derived from the pairs.

use vstd::prelude::*;

use crate::timestamp::{millis_between, seconds_between, spec_millis_between, spec_seconds_between, Timestamp};

verus! {

broadcast use vstd::string::to_string_from_display_ensures_for_str;

/// One hook event as the log holds it. `tool_input` and `tool_response` hold
/// the compact JSON text of the values that the hook received.
#[derive(Debug)]
pub struct HookLogEntry {
    pub timestamp: Timestamp,
    pub event: String,
    pub tool_name: String,
    pub tool_use_id: String,
    pub tool_input: Option<String>,
    pub tool_response: Option<String>,
    pub session_id: Option<String>,
    pub input_tokens: Option<usize>,
    pub output_tokens: Option<usize>,
}

/// The event name of a hook that runs before a tool call.
pub fn pre_tool_use() -> (r: String)
    ensures
        r@ == "PreToolUse"@,
{
    "PreToolUse".to_string()
}

/// The event name of a hook that runs after a tool call.
pub fn post_tool_use() -> (r: String)
    ensures
        r@ == "PostToolUse"@,
{
    "PostToolUse".to_string()
}

pub open spec fn is_pre(e: HookLogEntry) -> bool {
    e.event@ == "PreToolUse"@
}

pub open spec fn is_post(e: HookLogEntry) -> bool {
    e.event@ == "PostToolUse"@
}

/// Index of the last `PreToolUse` entry with this tool-use id among the first `n` entries.
pub open spec fn last_pre_before(es: Seq<HookLogEntry>, id: Seq<char>, n: int) -> Option<int>
    decreases n,
{
    if n <= 0 {
        None
    } else if is_pre(es[n - 1]) && es[n - 1].tool_use_id@ == id {
        Some(n - 1)
    } else {
        last_pre_before(es, id, n - 1)
    }
}

/// The `PreToolUse` entry that a `PostToolUse` entry with this id is paired
/// with: the last one in the whole log with that id.
pub open spec fn pre_for(es: Seq<HookLogEntry>, id: Seq<char>) -> Option<int> {
    last_pre_before(es, id, es.len() as int)
}

/// Whether some `PostToolUse` entry carries this tool-use id.
pub open spec fn has_post(es: Seq<HookLogEntry>, id: Seq<char>) -> bool {
    exists|j: int| 0 <= j < es.len() && #[trigger] is_post(es[j]) && es[j].tool_use_id@ == id
}

/// The paired calls among the first `n` entries, as (pre index, post index),
/// in the order of their `PostToolUse` entries.
pub open spec fn calls_upto(es: Seq<HookLogEntry>, n: int) -> Seq<(int, int)>
    decreases n,
{
    if n <= 0 {
        seq![]
    } else {
        let prev = calls_upto(es, n - 1);
        let e = es[n - 1];
        if is_post(e) && pre_for(es, e.tool_use_id@) is Some {
            prev.push((pre_for(es, e.tool_use_id@)->0, n - 1))
        } else {
            prev
        }
    }
}

/// All paired calls of a log.
pub open spec fn matched_calls(es: Seq<HookLogEntry>) -> Seq<(int, int)> {
    calls_upto(es, es.len() as int)
}

/// Number of entries among the first `n` with this event name.
pub open spec fn count_event(es: Seq<HookLogEntry>, ev: Seq<char>, n: int) -> nat
    decreases n,
{
    if n <= 0 {
        0
    } else {
        count_event(es, ev, n - 1) + if es[n - 1].event@ == ev { 1nat } else { 0nat }
    }
}

/// Number of `PostToolUse` entries among the first `n` that have no `PreToolUse` entry.
pub open spec fn unmatched_post_upto(es: Seq<HookLogEntry>, n: int) -> nat
    decreases n,
{
    if n <= 0 {
        0
    } else {
        unmatched_post_upto(es, n - 1) + if is_post(es[n - 1]) && pre_for(es, es[n - 1].tool_use_id@) is None {
            1nat
        } else {
            0nat
        }
    }
}

/// Number of `PreToolUse` entries among the first `n` whose id no `PostToolUse` entry carries.
pub open spec fn unmatched_pre_upto(es: Seq<HookLogEntry>, n: int) -> nat
    decreases n,
{
    if n <= 0 {
        0
    } else {
        unmatched_pre_upto(es, n - 1) + if is_pre(es[n - 1]) && !has_post(es, es[n - 1].tool_use_id@) {
            1nat
        } else {
            0nat
        }
    }
}

/// A paired call: the indices of its two entries and its latency in milliseconds.
#[derive(Clone, Copy, Debug, PartialEq, Eq)]
pub struct MatchedCall {
    pub pre: usize,
    pub post: usize,
    pub latency_ms: i64,
}

/// Latency of a paired call: milliseconds from its `PreToolUse` to its `PostToolUse` entry.
pub open spec fn call_latency(es: Seq<HookLogEntry>, c: (int, int)) -> int {
    spec_millis_between(es[c.1].timestamp, es[c.0].timestamp)
}

/// The executable calls are the paired calls of the log, with their latencies.
pub open spec fn calls_match(es: Seq<HookLogEntry>, calls: Seq<MatchedCall>, cs: Seq<(int, int)>) -> bool {
    &&& calls.len() == cs.len()
    &&& forall|k: int|
        0 <= k < cs.len() ==> {
            &&& (#[trigger] calls[k]).pre == cs[k].0
            &&& calls[k].post == cs[k].1
            &&& calls[k].latency_ms == call_latency(es, cs[k])
        }
}

/// The result of pairing the events of a log.
#[derive(Debug)]
pub struct CallMatching {
    pub calls: Vec<MatchedCall>,
    pub unmatched_pre: usize,
    pub unmatched_post: usize,
}

proof fn lemma_last_pre_bounds(es: Seq<HookLogEntry>, id: Seq<char>, n: int)
    requires
        n <= es.len(),
    ensures
        last_pre_before(es, id, n) matches Some(i) ==> 0 <= i < n && is_pre(es[i]) && es[i].tool_use_id@ == id,
        last_pre_before(es, id, n) is None ==> forall|i: int| 0 <= i < n ==> !(#[trigger] is_pre(es[i]) && es[i].tool_use_id@ == id),
    decreases n,
{
    if n > 0 {
        lemma_last_pre_bounds(es, id, n - 1);
    }
}

proof fn lemma_calls_upto_bounds(es: Seq<HookLogEntry>, n: int)
    requires
        0 <= n <= es.len(),
    ensures
        calls_upto(es, n).len() <= n,
        forall|k: int|
            0 <= k < calls_upto(es, n).len() ==> {
                let c = #[trigger] calls_upto(es, n)[k];
                &&& 0 <= c.0 < es.len()
                &&& 0 <= c.1 < n
                &&& is_pre(es[c.0])
                &&& is_post(es[c.1])
                &&& es[c.0].tool_use_id@ == es[c.1].tool_use_id@
                &&& pre_for(es, es[c.1].tool_use_id@) == Some(c.0)
            },
    decreases n,
{
    if n > 0 {
        lemma_calls_upto_bounds(es, n - 1);
        let e = es[n - 1];
        lemma_last_pre_bounds(es, e.tool_use_id@, es.len() as int);
    }
}

/// Bounds of the paired calls: their indices lie in the log.
pub proof fn lemma_matched_calls_bounds(es: Seq<HookLogEntry>)
    ensures
        matched_calls(es).len() <= es.len(),
        forall|k: int|
            0 <= k < matched_calls(es).len() ==> {
                let c = #[trigger] matched_calls(es)[k];
                &&& 0 <= c.0 < es.len()
                &&& 0 <= c.1 < es.len()
                &&& is_pre(es[c.0])
                &&& is_post(es[c.1])
                &&& es[c.0].tool_use_id@ == es[c.1].tool_use_id@
            },
{
    lemma_calls_upto_bounds(es, es.len() as int);
}

/// Index of the last `PreToolUse` entry with this tool-use id.
fn find_pre(entries: &Vec<HookLogEntry>, id: &String, pre: &String) -> (r: Option<usize>)
    requires
        pre@ == "PreToolUse"@,
    ensures
        r matches Some(i) ==> pre_for(entries@, id@) == Some(i as int),
        r is None ==> pre_for(entries@, id@) is None,
{
    let mut k = entries.len();
    while k > 0
        invariant
            k <= entries.len(),
            pre@ == "PreToolUse"@,
            pre_for(entries@, id@) == last_pre_before(entries@, id@, k as int),
        decreases k,
    {
        if entries[k - 1].event == *pre && entries[k - 1].tool_use_id == *id {
            return Some(k - 1);
        }
        k = k - 1;
    }
    None
}

/// Whether some `PostToolUse` entry carries this tool-use id.
fn find_post(entries: &Vec<HookLogEntry>, id: &String, post: &String) -> (r: bool)
    requires
        post@ == "PostToolUse"@,
    ensures
        r == has_post(entries@, id@),
{
    let mut j: usize = 0;
    while j < entries.len()
        invariant
            j <= entries.len(),
            post@ == "PostToolUse"@,
            forall|i: int| 0 <= i < j ==> !(#[trigger] is_post(entries@[i]) && entries@[i].tool_use_id@ == id@),
        decreases entries.len() - j,
    {
        if entries[j].event == *post && entries[j].tool_use_id == *id {
            assert(is_post(entries@[j as int]));
            return true;
        }
        j = j + 1;
    }
    false
}

/// Pairs every `PostToolUse` entry with the last `PreToolUse` entry of the
/// same tool-use id (anywhere in the log), and counts the entries of either
/// kind that have no partner.
pub fn match_calls(entries: &Vec<HookLogEntry>) -> (r: CallMatching)
    ensures
        calls_match(entries@, r.calls@, matched_calls(entries@)),
        r.unmatched_post == unmatched_post_upto(entries@, entries@.len() as int),
        r.unmatched_pre == unmatched_pre_upto(entries@, entries@.len() as int),
{
    let pre = pre_tool_use();
    let post = post_tool_use();
    let ghost es = entries@;
    let mut calls: Vec<MatchedCall> = Vec::new();
    let mut unmatched_post: usize = 0;
    let mut j: usize = 0;
    while j < entries.len()
        invariant
            es == entries@,
            j <= entries.len(),
            pre@ == "PreToolUse"@,
            post@ == "PostToolUse"@,
            calls_match(es, calls@, calls_upto(es, j as int)),
            unmatched_post == unmatched_post_upto(es, j as int),
            unmatched_post <= j,
        decreases entries.len() - j,
    {
        proof {
            lemma_calls_upto_bounds(es, j as int);
        }
        if entries[j].event == post {
            match find_pre(entries, &entries[j].tool_use_id, &pre) {
                Some(i) => {
                    proof {
                        lemma_last_pre_bounds(es, es[j as int].tool_use_id@, es.len() as int);
                    }
                    let latency_ms = millis_between(&entries[j].timestamp, &entries[i].timestamp);
                    calls.push(MatchedCall { pre: i, post: j, latency_ms });
                },
                None => {
                    unmatched_post = unmatched_post + 1;
                },
            }
        }
        j = j + 1;
    }
    let mut unmatched_pre: usize = 0;
    let mut i: usize = 0;
    while i < entries.len()
        invariant
            es == entries@,
            i <= entries.len(),
            pre@ == "PreToolUse"@,
            post@ == "PostToolUse"@,
            unmatched_pre == unmatched_pre_upto(es, i as int),
            unmatched_pre <= i,
        decreases entries.len() - i,
    {
        if entries[i].event == pre {
            if !find_post(entries, &entries[i].tool_use_id, &post) {
                unmatched_pre = unmatched_pre + 1;
            }
        }
        i = i + 1;
    }
    CallMatching { calls, unmatched_pre, unmatched_post }
}

/// Number of entries with this event name.
fn count_with_event(entries: &Vec<HookLogEntry>, ev: &String) -> (r: usize)
    ensures
        r == count_event(entries@, ev@, entries@.len() as int),
{
    let mut count: usize = 0;
    let mut i: usize = 0;
    while i < entries.len()
        invariant
            i <= entries.len(),
            count == count_event(entries@, ev@, i as int),
            count <= i,
        decreases entries.len() - i,
    {
        if entries[i].event == *ev {
            count = count + 1;
        }
        i = i + 1;
    }
    count
}

/// Every `PostToolUse` entry is either paired or counted as unmatched.
pub proof fn lemma_posts_partitioned(es: Seq<HookLogEntry>, n: int)
    requires
        0 <= n <= es.len(),
    ensures
        calls_upto(es, n).len() + unmatched_post_upto(es, n) == count_event(es, "PostToolUse"@, n),
    decreases n,
{
    if n > 0 {
        lemma_posts_partitioned(es, n - 1);
    }
}

/// Unmatched `PreToolUse` entries are among the `PreToolUse` entries.
pub proof fn lemma_unmatched_pre_bounded(es: Seq<HookLogEntry>, n: int)
    requires
        0 <= n <= es.len(),
    ensures
        unmatched_pre_upto(es, n) <= count_event(es, "PreToolUse"@, n),
    decreases n,
{
    if n > 0 {
        lemma_unmatched_pre_bounded(es, n - 1);
    }
}


/// Name of the tool of a paired call, as its `PostToolUse` entry gives it.
pub open spec fn call_tool(es: Seq<HookLogEntry>, c: (int, int)) -> Seq<char> {
    es[c.1].tool_name@
}

/// Input tokens of a paired call, from its `PreToolUse` entry (0 when absent).
pub open spec fn call_input_tokens(es: Seq<HookLogEntry>, c: (int, int)) -> nat {
    match es[c.0].input_tokens {
        Some(t) => t as nat,
        None => 0,
    }
}

/// Output tokens of a paired call, from its `PostToolUse` entry (0 when absent).
pub open spec fn call_output_tokens(es: Seq<HookLogEntry>, c: (int, int)) -> nat {
    match es[c.1].output_tokens {
        Some(t) => t as nat,
        None => 0,
    }
}

/// Latencies of the calls of a tool among the first `n` calls, in call order.
pub open spec fn tool_latencies(es: Seq<HookLogEntry>, cs: Seq<(int, int)>, name: Seq<char>, n: int) -> Seq<i64>
    decreases n,
{
    if n <= 0 {
        seq![]
    } else if call_tool(es, cs[n - 1]) == name {
        tool_latencies(es, cs, name, n - 1).push(call_latency(es, cs[n - 1]) as i64)
    } else {
        tool_latencies(es, cs, name, n - 1)
    }
}

/// Sum of the input tokens of the calls of a tool among the first `n` calls.
pub open spec fn tool_input_sum(es: Seq<HookLogEntry>, cs: Seq<(int, int)>, name: Seq<char>, n: int) -> nat
    decreases n,
{
    if n <= 0 {
        0
    } else if call_tool(es, cs[n - 1]) == name {
        tool_input_sum(es, cs, name, n - 1) + call_input_tokens(es, cs[n - 1])
    } else {
        tool_input_sum(es, cs, name, n - 1)
    }
}

/// Sum of the output tokens of the calls of a tool among the first `n` calls.
pub open spec fn tool_output_sum(es: Seq<HookLogEntry>, cs: Seq<(int, int)>, name: Seq<char>, n: int) -> nat
    decreases n,
{
    if n <= 0 {
        0
    } else if call_tool(es, cs[n - 1]) == name {
        tool_output_sum(es, cs, name, n - 1) + call_output_tokens(es, cs[n - 1])
    } else {
        tool_output_sum(es, cs, name, n - 1)
    }
}

/// No tool's token sums exceed `usize::MAX`.
pub open spec fn tool_sums_fit(es: Seq<HookLogEntry>, cs: Seq<(int, int)>) -> bool {
    forall|name: Seq<char>|
        #![trigger tool_input_sum(es, cs, name, cs.len() as int)]
        #![trigger tool_output_sum(es, cs, name, cs.len() as int)]
        tool_input_sum(es, cs, name, cs.len() as int) <= usize::MAX && tool_output_sum(es, cs, name, cs.len() as int)
            <= usize::MAX
}

/// Statistics of one tool: its number of calls, their latencies in call
/// order, and the sums of their input and output tokens.
#[derive(Debug)]
pub struct ToolResult {
    pub name: String,
    pub calls: usize,
    pub latencies: Vec<i64>,
    pub input_tokens: usize,
    pub output_tokens: usize,
}

/// The statistics of a tool among the first `n` calls.
pub open spec fn tool_result_upto(es: Seq<HookLogEntry>, cs: Seq<(int, int)>, t: ToolResult, n: int) -> bool {
    &&& t.calls == tool_latencies(es, cs, t.name@, n).len()
    &&& t.latencies@ == tool_latencies(es, cs, t.name@, n)
    &&& t.input_tokens == tool_input_sum(es, cs, t.name@, n)
    &&& t.output_tokens == tool_output_sum(es, cs, t.name@, n)
}

/// `ts` holds, once each, exactly the tools that occur among the first `n`
/// calls, with their statistics.
pub open spec fn tool_results_upto(es: Seq<HookLogEntry>, cs: Seq<(int, int)>, ts: Seq<ToolResult>, n: int) -> bool {
    &&& forall|a: int, b: int| 0 <= a < b < ts.len() ==> (#[trigger] ts[a]).name@ != (#[trigger] ts[b]).name@
    &&& forall|a: int| 0 <= a < ts.len() ==> (#[trigger] ts[a]).calls > 0 && tool_result_upto(es, cs, ts[a], n)
    &&& forall|k: int| 0 <= k < n ==> tool_listed(ts, call_tool(es, #[trigger] cs[k]))
    &&& calls_total(ts) == n
}

/// Total number of calls over the statistics of all tools.
pub open spec fn calls_total(ts: Seq<ToolResult>) -> nat
    decreases ts.len(),
{
    if ts.len() == 0 {
        0
    } else {
        calls_total(ts.drop_last()) + ts.last().calls as nat
    }
}

proof fn lemma_calls_total_update(ts: Seq<ToolResult>, a: int, t: ToolResult)
    requires
        0 <= a < ts.len(),
    ensures
        calls_total(ts.update(a, t)) + ts[a].calls == calls_total(ts) + t.calls,
    decreases ts.len(),
{
    if a < ts.len() - 1 {
        assert(ts.update(a, t).drop_last() =~= ts.drop_last().update(a, t));
        lemma_calls_total_update(ts.drop_last(), a, t);
    } else {
        assert(ts.update(a, t).drop_last() =~= ts.drop_last());
    }
}

/// Some statistics in `ts` are of the tool with this name.
pub open spec fn tool_listed(ts: Seq<ToolResult>, name: Seq<char>) -> bool {
    exists|a: int| 0 <= a < ts.len() && (#[trigger] ts[a]).name@ == name
}

/// The statistics of every tool of the paired calls `cs`.
pub open spec fn tool_results(es: Seq<HookLogEntry>, cs: Seq<(int, int)>, ts: Seq<ToolResult>) -> bool {
    tool_results_upto(es, cs, ts, cs.len() as int)
}

proof fn lemma_tool_sums_monotone(es: Seq<HookLogEntry>, cs: Seq<(int, int)>, name: Seq<char>, n: int, m: int)
    requires
        0 <= n <= m,
    ensures
        tool_input_sum(es, cs, name, n) <= tool_input_sum(es, cs, name, m),
        tool_output_sum(es, cs, name, n) <= tool_output_sum(es, cs, name, m),
    decreases m,
{
    if n < m {
        lemma_tool_sums_monotone(es, cs, name, n, m - 1);
    }
}

/// A tool named by none of the first `n` calls has no latencies and no tokens among them.
pub proof fn lemma_tool_absent(es: Seq<HookLogEntry>, cs: Seq<(int, int)>, name: Seq<char>, n: int)
    requires
        forall|k: int| 0 <= k < n ==> call_tool(es, #[trigger] cs[k]) != name,
    ensures
        tool_latencies(es, cs, name, n) == Seq::<i64>::empty(),
        tool_input_sum(es, cs, name, n) == 0,
        tool_output_sum(es, cs, name, n) == 0,
    decreases n,
{
    if n > 0 {
        lemma_tool_absent(es, cs, name, n - 1);
    }
}

/// Position of the statistics of the tool with this name.
fn find_tool(ts: &Vec<ToolResult>, name: &String) -> (r: Option<usize>)
    ensures
        r matches Some(a) ==> a < ts.len() && ts@[a as int].name@ == name@,
        r is None ==> forall|b: int| 0 <= b < ts.len() ==> (#[trigger] ts@[b]).name@ != name@,
{
    let mut a: usize = 0;
    while a < ts.len()
        invariant
            a <= ts.len(),
            forall|b: int| 0 <= b < a ==> (#[trigger] ts@[b]).name@ != name@,
        decreases ts.len() - a,
    {
        if ts[a].name == *name {
            return Some(a);
        }
        a = a + 1;
    }
    None
}

/// Groups paired calls by tool. `None` when the input or output token sum of
/// some tool exceeds `usize::MAX`.
pub fn summarize_tools(entries: &Vec<HookLogEntry>, calls: &Vec<MatchedCall>) -> (r: Option<Vec<ToolResult>>)
    requires
        calls_match(entries@, calls@, matched_calls(entries@)),
    ensures
        r is Some <==> tool_sums_fit(entries@, matched_calls(entries@)),
        r matches Some(ts) ==> tool_results(entries@, matched_calls(entries@), ts@),
{
    let ghost es = entries@;
    let ghost cs = matched_calls(es);
    proof {
        lemma_matched_calls_bounds(es);
    }
    let mut ts: Vec<ToolResult> = Vec::new();
    let mut n: usize = 0;
    while n < calls.len()
        invariant
            es == entries@,
            cs == matched_calls(es),
            calls_match(es, calls@, cs),
            n <= calls.len(),
            forall|k: int|
                0 <= k < cs.len() ==> {
                    let c = #[trigger] cs[k];
                    &&& 0 <= c.0 < es.len()
                    &&& 0 <= c.1 < es.len()
                },
            tool_results_upto(es, cs, ts@, n as int),
            forall|a: int| 0 <= a < ts.len() ==> (#[trigger] ts@[a]).calls <= n,
        decreases calls.len() - n,
    {
        let call = calls[n];
        let ghost c = cs[n as int];
        assert(call.pre == c.0 && call.post == c.1);
        let name = &entries[call.post].tool_name;
        let input: usize = match entries[call.pre].input_tokens {
            Some(t) => t,
            None => 0,
        };
        let output: usize = match entries[call.post].output_tokens {
            Some(t) => t,
            None => 0,
        };
        assert(input == call_input_tokens(es, c));
        assert(output == call_output_tokens(es, c));
        let pos = find_tool(&ts, name);
        let found = pos.is_some();
        let a: usize = match pos {
            Some(p) => p,
            None => ts.len(),
        };
        let ghost old_ts = ts@;
        if found {
            let mut t = ts.remove(a);
            assert(t == old_ts[a as int]);
            let new_input = match t.input_tokens.checked_add(input) {
                Some(v) => v,
                None => {
                    proof {
                        lemma_tool_sums_monotone(es, cs, name@, n + 1, cs.len() as int);
                    }
                    return None;
                },
            };
            let new_output = match t.output_tokens.checked_add(output) {
                Some(v) => v,
                None => {
                    proof {
                        lemma_tool_sums_monotone(es, cs, name@, n + 1, cs.len() as int);
                    }
                    return None;
                },
            };
            let ghost old_lats = t.latencies@;
            t.calls = t.calls + 1;
            t.latencies.push(call.latency_ms);
            t.input_tokens = new_input;
            t.output_tokens = new_output;
            ts.insert(a, t);
            assert(ts@ =~= old_ts.update(a as int, t));
            proof {
                lemma_calls_total_update(old_ts, a as int, t);
            }
        } else {
            proof {
                assert forall|k: int| 0 <= k < n implies call_tool(es, #[trigger] cs[k]) != name@ by {
                    let w = choose|b: int| 0 <= b < old_ts.len() && (#[trigger] old_ts[b]).name@ == call_tool(es, cs[k]);
                }
                lemma_tool_absent(es, cs, name@, n as int);
            }
            let mut lats: Vec<i64> = Vec::new();
            lats.push(call.latency_ms);
            assert(lats@ =~= seq![call.latency_ms]);
            let t = ToolResult {
                name: name.clone(),
                calls: 1,
                latencies: lats,
                input_tokens: input,
                output_tokens: output,
            };
            ts.push(t);
            assert(ts@.drop_last() =~= old_ts);
        }
        proof {
            assert forall|b: int| 0 <= b < ts.len() implies (#[trigger] ts@[b]).calls > 0 && tool_result_upto(es, cs, ts@[b], n + 1) by {
                if b != a {
                    assert(old_ts[b].name@ != name@);
                }
            }
            assert forall|k: int| 0 <= k < n + 1 implies tool_listed(ts@, call_tool(es, #[trigger] cs[k])) by {
                if k == n {
                    assert(ts@[a as int].name@ == call_tool(es, cs[k]));
                } else {
                    let w = choose|b: int| 0 <= b < old_ts.len() && (#[trigger] old_ts[b]).name@ == call_tool(es, cs[k]);
                    assert(ts@[w].name@ == call_tool(es, cs[k]));
                }
            }
        }
        n = n + 1;
    }
    proof {
        assert forall|nm: Seq<char>|
            tool_input_sum(es, cs, nm, cs.len() as int) <= usize::MAX && tool_output_sum(es, cs, nm, cs.len() as int) <= usize::MAX by {
            if exists|b: int| 0 <= b < ts.len() && (#[trigger] ts@[b]).name@ == nm {
                let w = choose|b: int| 0 <= b < ts.len() && (#[trigger] ts@[b]).name@ == nm;
                assert(tool_result_upto(es, cs, ts@[w], n as int));
            } else {
                assert forall|k: int| 0 <= k < n implies call_tool(es, #[trigger] cs[k]) != nm by {
                    let w = choose|b: int| 0 <= b < ts.len() && (#[trigger] ts@[b]).name@ == call_tool(es, cs[k]);
                }
                lemma_tool_absent(es, cs, nm, n as int);
            }
        }
    }
    Some(ts)
}


/// Summary of a log: event counts, pairing counts, the session length and
/// the statistics of every tool.
#[derive(Debug)]
pub struct AnalysisResult {
    pub total_events: usize,
    pub pre_count: usize,
    pub post_count: usize,
    pub matched_count: usize,
    pub unmatched_pre: usize,
    pub unmatched_post: usize,
    pub duration_secs: i64,
    pub tools: Vec<ToolResult>,
}

/// The summary of a non-empty log.
pub open spec fn analysis_of(es: Seq<HookLogEntry>, r: AnalysisResult) -> bool {
    &&& r.total_events == es.len()
    &&& r.pre_count == count_event(es, "PreToolUse"@, es.len() as int)
    &&& r.post_count == count_event(es, "PostToolUse"@, es.len() as int)
    &&& r.matched_count == matched_calls(es).len()
    &&& r.unmatched_pre == unmatched_pre_upto(es, es.len() as int)
    &&& r.unmatched_post == unmatched_post_upto(es, es.len() as int)
    &&& r.duration_secs == spec_seconds_between(es.last().timestamp, es[0].timestamp)
    &&& tool_results(es, matched_calls(es), r.tools@)
}

/// Summarizes a non-empty log whose per-tool token sums fit in `usize`.
pub fn compute_analysis(entries: &Vec<HookLogEntry>) -> (r: AnalysisResult)
    requires
        entries@.len() > 0,
        tool_sums_fit(entries@, matched_calls(entries@)),
    ensures
        analysis_of(entries@, r),
{
    let matching = match_calls(entries);
    let tools = summarize_tools(entries, &matching.calls).unwrap();
    let pre_count = count_with_event(entries, &pre_tool_use());
    let post_count = count_with_event(entries, &post_tool_use());
    let last = entries.len() - 1;
    let duration_secs = seconds_between(&entries[last].timestamp, &entries[0].timestamp);
    AnalysisResult {
        total_events: entries.len(),
        pre_count,
        post_count,
        matched_count: matching.calls.len(),
        unmatched_pre: matching.unmatched_pre,
        unmatched_post: matching.unmatched_post,
        duration_secs,
        tools,
    }
}

impl AnalysisResult {
    /// The statistics of the tool with this name, if it was called.
    pub fn tool(&self, name: &str) -> (r: Option<&ToolResult>)
        ensures
            r matches Some(t) ==> t.name@ == name@ && exists|a: int| 0 <= a < self.tools.len() && self.tools@[a] == *t,
            r is None ==> forall|a: int| 0 <= a < self.tools.len() ==> (#[trigger] self.tools@[a]).name@ != name@,
    {
        let key = name.to_string();
        match find_tool(&self.tools, &key) {
            Some(a) => Some(&self.tools[a]),
            None => None,
        }
    }

    /// Whether the tool with this name was called.
    pub fn has_tool(&self, name: &str) -> (r: bool)
        ensures
            r == exists|a: int| 0 <= a < self.tools.len() && (#[trigger] self.tools@[a]).name@ == name@,
    {
        let key = name.to_string();
        find_tool(&self.tools, &key).is_some()
    }
}

/// In a summary, the paired calls and the unmatched `PostToolUse` entries
/// together are the `PostToolUse` entries, the unmatched `PreToolUse` entries
/// are among the `PreToolUse` entries, no entry is of both kinds, the calls
/// of all tools together are the paired calls, and each tool has one latency
/// per call.
pub proof fn lemma_analysis_counts(es: Seq<HookLogEntry>, r: AnalysisResult)
    requires
        es.len() > 0,
        analysis_of(es, r),
    ensures
        r.matched_count + r.unmatched_post == r.post_count,
        r.unmatched_pre <= r.pre_count,
        r.pre_count + r.post_count <= r.total_events,
        calls_total(r.tools@) == r.matched_count,
        forall|a: int| 0 <= a < r.tools.len() ==> (#[trigger] r.tools@[a]).latencies.len() == r.tools@[a].calls,
{
    lemma_posts_partitioned(es, es.len() as int);
    lemma_unmatched_pre_bounded(es, es.len() as int);
    lemma_pre_post_disjoint(es, es.len() as int);
}

proof fn lemma_pre_post_disjoint(es: Seq<HookLogEntry>, n: int)
    requires
        0 <= n <= es.len(),
    ensures
        count_event(es, "PreToolUse"@, n) + count_event(es, "PostToolUse"@, n) <= n,
    decreases n,
{
    if n > 0 {
        lemma_pre_post_disjoint(es, n - 1);
        reveal_strlit("PreToolUse");
        reveal_strlit("PostToolUse");
        assert("PreToolUse"@ != "PostToolUse"@) by {
            assert("PreToolUse"@[1] != "PostToolUse"@[1]);
        }
    }
}

proof fn lemma_tool_sums_prefix(es: Seq<HookLogEntry>, cs: Seq<(int, int)>, c: (int, int), name: Seq<char>, n: int)
    requires
        0 <= n <= cs.len(),
    ensures
        tool_latencies(es, cs.push(c), name, n) == tool_latencies(es, cs, name, n),
        tool_input_sum(es, cs.push(c), name, n) == tool_input_sum(es, cs, name, n),
        tool_output_sum(es, cs.push(c), name, n) == tool_output_sum(es, cs, name, n),
    decreases n,
{
    if n > 0 {
        lemma_tool_sums_prefix(es, cs, c, name, n - 1);
        assert(cs.push(c)[n - 1] == cs[n - 1]);
    }
}

/// Adding a paired call adds its latency and tokens to the statistics of its
/// tool and leaves every other tool's statistics as they were.
pub proof fn lemma_tool_sums_push(es: Seq<HookLogEntry>, cs: Seq<(int, int)>, c: (int, int), name: Seq<char>)
    ensures
        tool_latencies(es, seq![], name, 0) == Seq::<i64>::empty(),
        tool_input_sum(es, seq![], name, 0) == 0,
        tool_output_sum(es, seq![], name, 0) == 0,
        tool_latencies(es, cs.push(c), name, cs.len() + 1 as int) == if es[c.1].tool_name@ == name {
            tool_latencies(es, cs, name, cs.len() as int).push(spec_millis_between(es[c.1].timestamp, es[c.0].timestamp) as i64)
        } else {
            tool_latencies(es, cs, name, cs.len() as int)
        },
        tool_input_sum(es, cs.push(c), name, cs.len() + 1 as int) == tool_input_sum(es, cs, name, cs.len() as int) + if es[c.1].tool_name@
            == name {
            match es[c.0].input_tokens {
                Some(t) => t as nat,
                None => 0nat,
            }
        } else {
            0nat
        },
        tool_output_sum(es, cs.push(c), name, cs.len() + 1 as int) == tool_output_sum(es, cs, name, cs.len() as int) + if es[c.1].tool_name@
            == name {
            match es[c.1].output_tokens {
                Some(t) => t as nat,
                None => 0nat,
            }
        } else {
            0nat
        },
{
    lemma_tool_sums_prefix(es, cs, c, name, cs.len() as int);
    assert(cs.push(c)[cs.len() as int] == c);
}

proof fn lemma_count_event_prefix(es: Seq<HookLogEntry>, e: HookLogEntry, ev: Seq<char>, n: int)
    requires
        0 <= n <= es.len(),
    ensures
        count_event(es.push(e), ev, n) == count_event(es, ev, n),
    decreases n,
{
    if n > 0 {
        lemma_count_event_prefix(es, e, ev, n - 1);
        assert(es.push(e)[n - 1] == es[n - 1]);
    }
}

/// Adding an entry to a log adds one to the count of its event name and
/// leaves the counts of other names.
pub proof fn lemma_count_event_push(es: Seq<HookLogEntry>, e: HookLogEntry, ev: Seq<char>)
    ensures
        count_event(seq![], ev, 0) == 0,
        count_event(es.push(e), ev, es.len() + 1 as int) == count_event(es, ev, es.len() as int) + if e.event@ == ev {
            1nat
        } else {
            0nat
        },
{
    lemma_count_event_prefix(es, e, ev, es.len() as int);
    assert(es.push(e)[es.len() as int] == e);
}

/// The total of calls over tool statistics grows by the calls of each tool
/// added.
pub proof fn lemma_calls_total_push(ts: Seq<ToolResult>, t: ToolResult)
    ensures
        calls_total(Seq::<ToolResult>::empty()) == 0,
        calls_total(ts.push(t)) == calls_total(ts) + t.calls,
{
    assert(ts.push(t).drop_last() =~= ts);
}

/// A `PreToolUse` entry with this tool-use id.
pub open spec fn is_pre_of(e: HookLogEntry, id: Seq<char>) -> bool {
    e.event@ == "PreToolUse"@ && e.tool_use_id@ == id
}

/// `last_pre_before` finds the last `PreToolUse` entry with the id among the
/// first `n` entries, or none when there is none.
pub proof fn lemma_last_pre_before_exact(es: Seq<HookLogEntry>, id: Seq<char>, n: int)
    requires
        0 <= n <= es.len(),
    ensures
        match last_pre_before(es, id, n) {
            Some(i) => {
                &&& 0 <= i < n
                &&& is_pre_of(es[i], id)
                &&& forall|j: int| i < j < n ==> !is_pre_of(#[trigger] es[j], id)
            },
            None => forall|j: int| 0 <= j < n ==> !is_pre_of(#[trigger] es[j], id),
        },
    decreases n,
{
    if n > 0 {
        lemma_last_pre_before_exact(es, id, n - 1);
    }
}

proof fn lemma_calls_upto_exact(es: Seq<HookLogEntry>, n: int)
    requires
        0 <= n <= es.len(),
    ensures
        forall|k: int|
            0 <= k < calls_upto(es, n).len() ==> {
                let c = #[trigger] calls_upto(es, n)[k];
                &&& 0 <= c.1 < n
                &&& is_post(es[c.1])
                &&& pre_for(es, es[c.1].tool_use_id@) == Some(c.0)
            },
        forall|k1: int, k2: int|
            0 <= k1 < k2 < calls_upto(es, n).len() ==> (#[trigger] calls_upto(es, n)[k1]).1 < (#[trigger] calls_upto(es, n)[k2]).1,
        forall|p: int|
            0 <= p < n && is_post(#[trigger] es[p]) && pre_for(es, es[p].tool_use_id@) is Some ==> exists|k: int|
                0 <= k < calls_upto(es, n).len() && (#[trigger] calls_upto(es, n)[k]).1 == p,
    decreases n,
{
    if n > 0 {
        lemma_calls_upto_exact(es, n - 1);
        let prev = calls_upto(es, n - 1);
        let cs = calls_upto(es, n);
        let e = es[n - 1];
        if is_post(e) && pre_for(es, e.tool_use_id@) is Some {
            let c = (pre_for(es, e.tool_use_id@)->0, n - 1);
            assert(cs == prev.push(c));
            assert forall|k: int| 0 <= k < prev.len() implies #[trigger] cs[k] == prev[k] by {}
            assert(cs[prev.len() as int] == c);
            assert forall|p: int| 0 <= p < n && is_post(#[trigger] es[p]) && pre_for(es, es[p].tool_use_id@) is Some implies exists|k: int|
                0 <= k < cs.len() && (#[trigger] cs[k]).1 == p by {
                if p < n - 1 {
                    let k = choose|k: int| 0 <= k < prev.len() && (#[trigger] prev[k]).1 == p;
                    assert(cs[k] == prev[k]);
                } else {
                    assert(cs[prev.len() as int].1 == p);
                }
            }
        } else {
            assert(cs == prev);
        }
    }
}

/// The paired calls of a log are exactly its `PostToolUse` entries whose
/// tool-use id some `PreToolUse` entry carries, in log order, each paired
/// with the last `PreToolUse` entry of the whole log that carries the id.
pub proof fn lemma_matched_calls_exact(es: Seq<HookLogEntry>)
    ensures
        forall|k: int|
            0 <= k < matched_calls(es).len() ==> {
                let c = #[trigger] matched_calls(es)[k];
                &&& 0 <= c.0 < es.len()
                &&& 0 <= c.1 < es.len()
                &&& es[c.1].event@ == "PostToolUse"@
                &&& is_pre_of(es[c.0], es[c.1].tool_use_id@)
                &&& forall|j: int| c.0 < j < es.len() ==> !is_pre_of(#[trigger] es[j], es[c.1].tool_use_id@)
            },
        forall|k1: int, k2: int|
            0 <= k1 < k2 < matched_calls(es).len() ==> (#[trigger] matched_calls(es)[k1]).1 < (
            #[trigger] matched_calls(es)[k2]).1,
        forall|p: int, i: int|
            0 <= p < es.len() && 0 <= i < es.len() && es[p].event@ == "PostToolUse"@ && #[trigger] is_pre_of(
                es[i],
                #[trigger] es[p].tool_use_id@,
            ) ==> exists|k: int| 0 <= k < matched_calls(es).len() && (#[trigger] matched_calls(es)[k]).1 == p,
{
    let n = es.len() as int;
    lemma_calls_upto_exact(es, n);
    let mc = matched_calls(es);
    assert forall|k: int| 0 <= k < mc.len() implies {
        let c = #[trigger] mc[k];
        &&& 0 <= c.0 < es.len()
        &&& 0 <= c.1 < es.len()
        &&& es[c.1].event@ == "PostToolUse"@
        &&& is_pre_of(es[c.0], es[c.1].tool_use_id@)
        &&& forall|j: int| c.0 < j < es.len() ==> !is_pre_of(#[trigger] es[j], es[c.1].tool_use_id@)
    } by {
        let c = mc[k];
        lemma_last_pre_before_exact(es, es[c.1].tool_use_id@, n);
    }
    assert forall|p: int, i: int|
        0 <= p < es.len() && 0 <= i < es.len() && es[p].event@ == "PostToolUse"@ && #[trigger] is_pre_of(
            es[i],
            #[trigger] es[p].tool_use_id@,
        ) implies exists|k: int| 0 <= k < mc.len() && (#[trigger] mc[k]).1 == p by {
        lemma_last_pre_before_exact(es, es[p].tool_use_id@, n);
        assert(is_post(es[p]));
    }
}

/// Where every `PreToolUse` entry's id is carried by some `PostToolUse`
/// entry, no `PreToolUse` entry is unmatched; where no entry is a
/// `PostToolUse` entry, every `PreToolUse` entry is.
pub proof fn lemma_unmatched_pre_extremes(es: Seq<HookLogEntry>, n: int)
    requires
        0 <= n <= es.len(),
    ensures
        (forall|i: int|
            0 <= i < n && (#[trigger] es[i]).event@ == "PreToolUse"@ ==> exists|j: int|
                0 <= j < es.len() && (#[trigger] es[j]).event@ == "PostToolUse"@ && es[j].tool_use_id@ == es[i].tool_use_id@)
            ==> unmatched_pre_upto(es, n) == 0,
        (forall|j: int| 0 <= j < es.len() ==> (#[trigger] es[j]).event@ != "PostToolUse"@) ==> unmatched_pre_upto(es, n)
            == count_event(es, "PreToolUse"@, n),
    decreases n,
{
    if n > 0 {
        lemma_unmatched_pre_extremes(es, n - 1);
        let e = es[n - 1];
        if forall|i: int|
            0 <= i < n && (#[trigger] es[i]).event@ == "PreToolUse"@ ==> exists|j: int|
                0 <= j < es.len() && (#[trigger] es[j]).event@ == "PostToolUse"@ && es[j].tool_use_id@ == es[i].tool_use_id@ {
            if is_pre(e) {
                let j = choose|j: int|
                    0 <= j < es.len() && (#[trigger] es[j]).event@ == "PostToolUse"@ && es[j].tool_use_id@ == es[n - 1].tool_use_id@;
                assert(is_post(es[j]));
            }
        }
        if forall|j: int| 0 <= j < es.len() ==> (#[trigger] es[j]).event@ != "PostToolUse"@ {
            if is_pre(e) {
                assert(!has_post(es, e.tool_use_id@));
            }
        }
    }
}

/// Where no entry is a `PreToolUse` entry, every `PostToolUse` entry is
/// unmatched.
pub proof fn lemma_unmatched_post_without_pre(es: Seq<HookLogEntry>, n: int)
    requires
        0 <= n <= es.len(),
        forall|i: int| 0 <= i < es.len() ==> (#[trigger] es[i]).event@ != "PreToolUse"@,
    ensures
        unmatched_post_upto(es, n) == count_event(es, "PostToolUse"@, n),
        calls_upto(es, n).len() == 0,
    decreases n,
{
    if n > 0 {
        lemma_unmatched_post_without_pre(es, n - 1);
        lemma_last_pre_before_exact(es, es[n - 1].tool_use_id@, es.len() as int);
        if last_pre_before(es, es[n - 1].tool_use_id@, es.len() as int) is Some {
            let i = last_pre_before(es, es[n - 1].tool_use_id@, es.len() as int)->Some_0;
            assert(es[i].event@ != "PreToolUse"@);
        }
    }
}

} // verus!
