//! Data of the web dashboard: the paired calls, the session span and, per
//! tool, the sorted latencies with their sum and the tokens used.

use vstd::prelude::*;

use crate::analysis::{
    call_tool, calls_match, lemma_tool_absent, match_calls, matched_calls, summarize_tools, tool_input_sum,
    tool_latencies, tool_output_sum, tool_result_upto, tool_results, unmatched_post_upto, unmatched_pre_upto,
    HookLogEntry, MatchedCall, ToolResult,
};
use crate::analysis::lemma_matched_calls_bounds;
use crate::hook::text_views;
use crate::sorting::{is_ascending, sort_ascending};
use crate::timestamp::{millis_between, spec_millis_between, Timestamp};

verus! {

/// Sum of latencies.
pub open spec fn latency_sum(s: Seq<i64>) -> int
    decreases s.len(),
{
    if s.len() == 0 {
        0
    } else {
        latency_sum(s.drop_last()) + s.last()
    }
}

/// The sum of latencies grows by each latency added, from zero for none.
pub proof fn lemma_latency_sum_push(s: Seq<i64>, x: i64)
    ensures
        latency_sum(Seq::<i64>::empty()) == 0,
        latency_sum(s.push(x)) == latency_sum(s) + x,
{
    assert(s.push(x).drop_last() =~= s);
}

/// The sum of two runs of latencies one after the other is the sum of their
/// sums.
pub proof fn lemma_latency_sum_concat(s: Seq<i64>, t: Seq<i64>)
    ensures
        latency_sum(s + t) == latency_sum(s) + latency_sum(t),
    decreases t.len(),
{
    if t.len() == 0 {
        assert(s + t =~= s);
    } else {
        lemma_latency_sum_concat(s, t.drop_last());
        assert((s + t).drop_last() =~= s + t.drop_last());
        assert((s + t).last() == t.last());
    }
}

/// Dashboard statistics of one tool.
#[derive(Debug)]
pub struct DashboardTool {
    pub name: String,
    /// Latencies of the tool's calls, ascending.
    pub latencies: Vec<i64>,
    pub sum_ms: i128,
    /// Input plus output tokens of the tool's calls.
    pub sum_tokens: usize,
}

/// First and last instant of a log and the milliseconds between them.
#[derive(Debug)]
pub struct Session {
    pub start: Timestamp,
    pub end: Timestamp,
    pub duration_ms: i64,
}

/// A paired call as the dashboard lists it.
#[derive(Debug)]
pub struct CallRow {
    pub tool_name: String,
    pub tool_use_id: String,
    pub start: Timestamp,
    pub end: Timestamp,
    pub latency_ms: i64,
    pub tool_input: Option<String>,
    pub tool_response: Option<String>,
    pub session_id: Option<String>,
    pub input_tokens: Option<usize>,
    pub output_tokens: Option<usize>,
}

/// The row of a call: its start, tool input and input tokens from the
/// `PreToolUse` entry; its tool name, tool-use id, end, tool response,
/// session and output tokens from the `PostToolUse` entry.
pub open spec fn is_row_of(r: CallRow, pre: HookLogEntry, post: HookLogEntry, latency_ms: i64) -> bool {
    &&& r.tool_name@ == post.tool_name@
    &&& r.tool_use_id@ == post.tool_use_id@
    &&& r.start == pre.timestamp
    &&& r.end == post.timestamp
    &&& r.latency_ms == latency_ms
    &&& text_views(r.tool_input) == text_views(pre.tool_input)
    &&& text_views(r.tool_response) == text_views(post.tool_response)
    &&& text_views(r.session_id) == text_views(post.session_id)
    &&& r.input_tokens == pre.input_tokens
    &&& r.output_tokens == post.output_tokens
}

fn copy_text(t: &Option<String>) -> (r: Option<String>)
    ensures
        text_views(r) == text_views(*t),
{
    match t {
        Some(s) => Some(s.clone()),
        None => None,
    }
}

/// The row of a paired call.
fn call_row(pre: &HookLogEntry, post: &HookLogEntry, latency_ms: i64) -> (r: CallRow)
    ensures
        is_row_of(r, *pre, *post, latency_ms),
{
    CallRow {
        tool_name: post.tool_name.clone(),
        tool_use_id: post.tool_use_id.clone(),
        start: pre.timestamp,
        end: post.timestamp,
        latency_ms,
        tool_input: copy_text(&pre.tool_input),
        tool_response: copy_text(&post.tool_response),
        session_id: copy_text(&post.session_id),
        input_tokens: pre.input_tokens,
        output_tokens: post.output_tokens,
    }
}

/// Everything the dashboard shows of a log.
#[derive(Debug)]
pub struct Dashboard {
    pub total_events: usize,
    pub calls: Vec<MatchedCall>,
    /// One row per paired call, in the order of `calls`.
    pub rows: Vec<CallRow>,
    pub unmatched_pre: usize,
    pub unmatched_post: usize,
    pub tools: Vec<DashboardTool>,
    pub session: Option<Session>,
}

/// Statistics of a tool over all paired calls `cs`.
pub open spec fn dashboard_tool_of(es: Seq<HookLogEntry>, cs: Seq<(int, int)>, t: DashboardTool) -> bool {
    let lats = tool_latencies(es, cs, t.name@, cs.len() as int);
    &&& lats.len() > 0
    &&& is_ascending(t.latencies@)
    &&& t.latencies@.to_multiset() == lats.to_multiset()
    &&& t.sum_ms == latency_sum(lats)
    &&& t.sum_tokens == tool_input_sum(es, cs, t.name@, cs.len() as int) + tool_output_sum(es, cs, t.name@, cs.len() as int)
}

/// `ts` holds, once each, the tools of the paired calls `cs`.
pub open spec fn dashboard_tools(es: Seq<HookLogEntry>, cs: Seq<(int, int)>, ts: Seq<DashboardTool>) -> bool {
    &&& forall|a: int, b: int| 0 <= a < b < ts.len() ==> (#[trigger] ts[a]).name@ != (#[trigger] ts[b]).name@
    &&& forall|a: int| 0 <= a < ts.len() ==> dashboard_tool_of(es, cs, #[trigger] ts[a])
    &&& forall|k: int| 0 <= k < cs.len() ==> dashboard_listed(ts, call_tool(es, #[trigger] cs[k]))
}

/// Some statistics in `ts` are of the tool with this name.
pub open spec fn dashboard_listed(ts: Seq<DashboardTool>, name: Seq<char>) -> bool {
    exists|a: int| 0 <= a < ts.len() && (#[trigger] ts[a]).name@ == name
}

/// Some tool's input and output tokens together exceed `usize::MAX`.
pub open spec fn dashboard_tokens_overflow(es: Seq<HookLogEntry>, cs: Seq<(int, int)>) -> bool {
    exists|name: Seq<char>|
        tool_input_sum(es, cs, name, cs.len() as int) + tool_output_sum(es, cs, name, cs.len() as int) > usize::MAX
}

fn sum_latencies(lats: &Vec<i64>) -> (r: i128)
    ensures
        r == latency_sum(lats@),
{
    let mut sum: i128 = 0;
    let mut i: usize = 0;
    while i < lats.len()
        invariant
            i <= lats.len(),
            sum == latency_sum(lats@.take(i as int)),
            -(i as int) * 0x8000_0000_0000_0000 <= sum <= (i as int) * 0x8000_0000_0000_0000,
        decreases lats.len() - i,
    {
        proof {
            assert(lats@.take(i + 1).drop_last() =~= lats@.take(i as int));
            assert((i as int) * 0x8000_0000_0000_0000 <= 0xffff_ffff_ffff_ffff * 0x8000_0000_0000_0000) by (nonlinear_arith)
                requires i <= 0xffff_ffff_ffff_ffff;
        }
        sum = sum + lats[i] as i128;
        i = i + 1;
    }
    assert(lats@.take(lats@.len() as int) =~= lats@);
    sum
}

/// The dashboard data of a log. `None` when some tool's input and output
/// tokens together exceed `usize::MAX`.
pub fn dashboard(entries: &Vec<HookLogEntry>) -> (r: Option<Dashboard>)
    ensures
        r is None <==> dashboard_tokens_overflow(entries@, matched_calls(entries@)),
        r matches Some(d) ==> {
            &&& d.total_events == entries@.len()
            &&& calls_match(entries@, d.calls@, matched_calls(entries@))
            &&& d.rows.len() == d.calls.len()
            &&& forall|k: int|
                0 <= k < d.rows.len() ==> is_row_of(
                    #[trigger] d.rows@[k],
                    entries@[d.calls@[k].pre as int],
                    entries@[d.calls@[k].post as int],
                    d.calls@[k].latency_ms,
                )
            &&& d.unmatched_pre == unmatched_pre_upto(entries@, entries@.len() as int)
            &&& d.unmatched_post == unmatched_post_upto(entries@, entries@.len() as int)
            &&& dashboard_tools(entries@, matched_calls(entries@), d.tools@)
            &&& (d.session is None <==> entries@.len() == 0)
            &&& d.session matches Some(s) ==> {
                &&& s.start == entries@[0].timestamp
                &&& s.end == entries@.last().timestamp
                &&& s.duration_ms == spec_millis_between(s.end, s.start)
            }
        },
{
    let ghost es = entries@;
    let ghost cs = matched_calls(es);
    let matching = match_calls(entries);
    let summaries = match summarize_tools(entries, &matching.calls) {
        Some(ts) => ts,
        None => {
            proof {
                let name = choose|name: Seq<char>|
                    !(tool_input_sum(es, cs, name, cs.len() as int) <= usize::MAX && tool_output_sum(es, cs, name, cs.len() as int)
                        <= usize::MAX);
                assert(tool_input_sum(es, cs, name, cs.len() as int) + tool_output_sum(es, cs, name, cs.len() as int) > usize::MAX);
            }
            return None;
        },
    };
    let ghost sums = summaries@;
    let mut tools: Vec<DashboardTool> = Vec::new();
    let mut a: usize = 0;
    while a < summaries.len()
        invariant
            es == entries@,
            cs == matched_calls(es),
            sums == summaries@,
            tool_results(es, cs, sums),
            a <= summaries.len(),
            tools@.len() == a,
            forall|b: int| 0 <= b < a ==> (#[trigger] tools@[b]).name@ == sums[b].name@,
            forall|b: int| 0 <= b < a ==> dashboard_tool_of(es, cs, #[trigger] tools@[b]),
        decreases summaries.len() - a,
    {
        let t: &ToolResult = &summaries[a];
        assert(tool_result_upto(es, cs, sums[a as int], cs.len() as int));
        let sum_tokens = match t.input_tokens.checked_add(t.output_tokens) {
            Some(v) => v,
            None => return None,
        };
        let latencies = sort_ascending(&t.latencies);
        let sum_ms = sum_latencies(&t.latencies);
        tools.push(DashboardTool { name: t.name.clone(), latencies, sum_ms, sum_tokens });
        a = a + 1;
    }
    proof {
        assert forall|nm: Seq<char>|
            tool_input_sum(es, cs, nm, cs.len() as int) + tool_output_sum(es, cs, nm, cs.len() as int) <= usize::MAX by {
            if exists|b: int| 0 <= b < sums.len() && (#[trigger] sums[b]).name@ == nm {
                let w = choose|b: int| 0 <= b < sums.len() && (#[trigger] sums[b]).name@ == nm;
                assert(dashboard_tool_of(es, cs, tools@[w]));
            } else {
                assert forall|k: int| 0 <= k < cs.len() implies call_tool(es, #[trigger] cs[k]) != nm by {
                    let w = choose|b: int| 0 <= b < sums.len() && (#[trigger] sums[b]).name@ == call_tool(es, cs[k]);
                }
                lemma_tool_absent(es, cs, nm, cs.len() as int);
            }
        }
        assert forall|k: int| 0 <= k < cs.len() implies dashboard_listed(tools@, call_tool(es, #[trigger] cs[k])) by {
            let w = choose|b: int| 0 <= b < sums.len() && (#[trigger] sums[b]).name@ == call_tool(es, cs[k]);
            assert(tools@[w].name@ == call_tool(es, cs[k]));
        }
        assert forall|x: int, y: int| 0 <= x < y < tools@.len() implies (#[trigger] tools@[x]).name@ != (#[trigger] tools@[y]).name@ by {
            assert(sums[x].name@ != sums[y].name@);
        }
        assert(dashboard_tools(es, cs, tools@));
    }
    proof {
        lemma_matched_calls_bounds(es);
    }
    let mut rows: Vec<CallRow> = Vec::new();
    let mut k: usize = 0;
    while k < matching.calls.len()
        invariant
            es == entries@,
            cs == matched_calls(es),
            calls_match(es, matching.calls@, cs),
            forall|j: int|
                0 <= j < cs.len() ==> 0 <= (#[trigger] cs[j]).0 < es.len() && 0 <= cs[j].1 < es.len(),
            k <= matching.calls.len(),
            rows@.len() == k,
            forall|j: int|
                0 <= j < k ==> is_row_of(
                    #[trigger] rows@[j],
                    es[matching.calls@[j].pre as int],
                    es[matching.calls@[j].post as int],
                    matching.calls@[j].latency_ms,
                ),
        decreases matching.calls.len() - k,
    {
        let c = matching.calls[k];
        assert(matching.calls@[k as int].pre == cs[k as int].0);
        rows.push(call_row(&entries[c.pre], &entries[c.post], c.latency_ms));
        k = k + 1;
    }
    let session = if entries.len() == 0 {
        None
    } else {
        let last = entries.len() - 1;
        let duration_ms = millis_between(&entries[last].timestamp, &entries[0].timestamp);
        Some(Session { start: entries[0].timestamp, end: entries[last].timestamp, duration_ms })
    };
    Some(Dashboard {
        total_events: entries.len(),
        calls: matching.calls,
        rows,
        unmatched_pre: matching.unmatched_pre,
        unmatched_post: matching.unmatched_post,
        tools,
        session,
    })
}

} // verus!
