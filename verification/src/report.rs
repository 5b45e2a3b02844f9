//! Orderings and totals of the profiling report: calls by latency and tools
//! by token usage.

use vstd::prelude::*;

use crate::analysis::{MatchedCall, ToolResult};
use crate::sorting::{
    is_permutation_of_positions, is_stable_descending, is_text_ascending, order_by_text, stable_order_descending, text_less,
    text_views,
};

verus! {

/// Latencies of calls, as sort keys.
pub open spec fn latency_keys(calls: Seq<MatchedCall>) -> Seq<i128> {
    calls.map_values(|c: MatchedCall| c.latency_ms as i128)
}

/// The sort key of each call is its latency.
pub proof fn lemma_latency_keys(calls: Seq<MatchedCall>)
    ensures
        latency_keys(calls).len() == calls.len(),
        forall|i: int| 0 <= i < calls.len() ==> #[trigger] latency_keys(calls)[i] == calls[i].latency_ms as i128,
{
}

/// Positions of `calls`, slowest first; calls of equal latency keep their order.
pub fn slowest_first(calls: &Vec<MatchedCall>) -> (order: Vec<usize>)
    ensures
        is_permutation_of_positions(order@, calls@.len()),
        is_stable_descending(latency_keys(calls@), order@),
        order@.len() == calls@.len(),
        forall|a: int| 0 <= a < calls@.len() ==> #[trigger] order@.contains(a as usize),
        forall|i: int, j: int| 0 <= i < j < order@.len() ==> (#[trigger] order@[i]) != (#[trigger] order@[j]),
        forall|i: int, j: int|
            0 <= i < j < order@.len() ==> calls@[#[trigger] order@[i] as int].latency_ms >= calls@[#[trigger] order@[j] as int].latency_ms,
        forall|i: int, j: int|
            0 <= i < j < order@.len() && calls@[order@[i] as int].latency_ms == calls@[order@[j] as int].latency_ms ==> (
            #[trigger] order@[i]) < (#[trigger] order@[j]),
{
    let mut keys: Vec<i128> = Vec::new();
    let mut i: usize = 0;
    while i < calls.len()
        invariant
            i <= calls.len(),
            keys@.len() == i,
            forall|j: int| 0 <= j < i ==> keys@[j] == calls@[j].latency_ms as i128,
        decreases calls.len() - i,
    {
        keys.push(calls[i].latency_ms as i128);
        i = i + 1;
    }
    assert(keys@ =~= latency_keys(calls@));
    let order = stable_order_descending(&keys);
    proof {
        lemma_latency_keys(calls@);
        assert forall|i: int, j: int| 0 <= i < j < order@.len() implies calls@[#[trigger] order@[i] as int].latency_ms
            >= calls@[#[trigger] order@[j] as int].latency_ms by {
            assert(keys@[order@[i] as int] >= keys@[order@[j] as int]);
        }
        assert forall|i: int, j: int|
            0 <= i < j < order@.len() && calls@[order@[i] as int].latency_ms == calls@[order@[j] as int].latency_ms implies (
            #[trigger] order@[i]) < (#[trigger] order@[j]) by {
            assert(keys@[order@[i] as int] == keys@[order@[j] as int]);
        }
    }
    order
}

/// Sum of the input tokens of the first `n` tools.
pub open spec fn input_total(ts: Seq<ToolResult>, n: int) -> nat
    decreases n,
{
    if n <= 0 {
        0
    } else {
        input_total(ts, n - 1) + ts[n - 1].input_tokens as nat
    }
}

/// Sum of the output tokens of the first `n` tools.
pub open spec fn output_total(ts: Seq<ToolResult>, n: int) -> nat
    decreases n,
{
    if n <= 0 {
        0
    } else {
        output_total(ts, n - 1) + ts[n - 1].output_tokens as nat
    }
}

/// Input plus output tokens of each tool, as sort keys.
pub open spec fn token_keys(ts: Seq<ToolResult>) -> Seq<i128> {
    ts.map_values(|t: ToolResult| (t.input_tokens + t.output_tokens) as i128)
}

/// The rank key of each tool is its input plus output tokens.
pub proof fn lemma_token_keys(ts: Seq<ToolResult>)
    ensures
        token_keys(ts).len() == ts.len(),
        forall|a: int| 0 <= a < ts.len() ==> #[trigger] token_keys(ts)[a] == ts[a].input_tokens + ts[a].output_tokens,
{
}

proof fn lemma_totals_prefix(ts: Seq<ToolResult>, t: ToolResult, n: int)
    requires
        0 <= n <= ts.len(),
    ensures
        input_total(ts.push(t), n) == input_total(ts, n),
        output_total(ts.push(t), n) == output_total(ts, n),
    decreases n,
{
    if n > 0 {
        lemma_totals_prefix(ts, t, n - 1);
        assert(ts.push(t)[n - 1] == ts[n - 1]);
    }
}

/// The token totals of all tools grow by the tokens of each tool added.
pub proof fn lemma_token_totals_push(ts: Seq<ToolResult>, t: ToolResult)
    ensures
        input_total(ts.push(t), ts.len() + 1 as int) == input_total(ts, ts.len() as int) + t.input_tokens,
        output_total(ts.push(t), ts.len() + 1 as int) == output_total(ts, ts.len() as int) + t.output_tokens,
        input_total(Seq::<ToolResult>::empty(), 0) == 0,
        output_total(Seq::<ToolResult>::empty(), 0) == 0,
{
    lemma_totals_prefix(ts, t, ts.len() as int);
    assert(ts.push(t)[ts.len() as int] == t);
}

/// The token table of a report: the positions of the tools that used tokens,
/// most tokens first (equal totals in tool order), and the totals.
#[derive(Debug)]
pub struct TokenTable {
    pub rows: Vec<usize>,
    pub total_input: usize,
    pub total_output: usize,
    pub total: usize,
}

/// What the token section of a report shows.
#[derive(Debug)]
pub enum TokenUsage {
    /// The input and output tokens of all tools together exceed `usize::MAX`.
    Overflow,
    /// No tool used any token: the section is left out.
    Nothing,
    Table(TokenTable),
}

proof fn lemma_totals_monotone(ts: Seq<ToolResult>, a: int, n: int)
    requires
        0 <= a < n <= ts.len(),
    ensures
        ts[a].input_tokens <= input_total(ts, n),
        ts[a].output_tokens <= output_total(ts, n),
        input_total(ts, a + 1) <= input_total(ts, n),
        output_total(ts, a + 1) <= output_total(ts, n),
    decreases n,
{
    if a < n - 1 {
        lemma_totals_monotone(ts, a, n - 1);
    }
}

/// The token section for these tools.
pub fn token_usage(tools: &Vec<ToolResult>) -> (r: TokenUsage)
    ensures
        r is Overflow <==> input_total(tools@, tools@.len() as int) + output_total(tools@, tools@.len() as int) > usize::MAX,
        r is Nothing <==> input_total(tools@, tools@.len() as int) + output_total(tools@, tools@.len() as int) == 0,
        r matches TokenUsage::Table(t) ==> {
            &&& t.total_input == input_total(tools@, tools@.len() as int)
            &&& t.total_output == output_total(tools@, tools@.len() as int)
            &&& t.total == t.total_input + t.total_output
            &&& forall|i: int| 0 <= i < t.rows.len() ==> (#[trigger] t.rows@[i]) < tools@.len()
            &&& forall|i: int, j: int| 0 <= i < j < t.rows.len() ==> (#[trigger] t.rows@[i]) != (#[trigger] t.rows@[j])
            &&& forall|a: int| 0 <= a < tools@.len() ==> (token_keys(tools@)[a] > 0 <==> t.rows@.contains(a as usize))
            &&& is_stable_descending(token_keys(tools@), t.rows@)
            &&& forall|a: int|
                0 <= a < tools@.len() ==> (tools@[a].input_tokens + tools@[a].output_tokens > 0 <==> t.rows@.contains(
                    a as usize,
                ))
            &&& forall|i: int, j: int|
                0 <= i < j < t.rows.len() ==> tools@[#[trigger] t.rows@[i] as int].input_tokens
                    + tools@[t.rows@[i] as int].output_tokens >= tools@[#[trigger] t.rows@[j] as int].input_tokens
                    + tools@[t.rows@[j] as int].output_tokens
            &&& forall|i: int, j: int|
                0 <= i < j < t.rows.len() && tools@[t.rows@[i] as int].input_tokens + tools@[t.rows@[i] as int].output_tokens
                    == tools@[t.rows@[j] as int].input_tokens + tools@[t.rows@[j] as int].output_tokens ==> (
                #[trigger] t.rows@[i]) < (#[trigger] t.rows@[j])
        },
{
    let ghost ts = tools@;
    let ghost n = ts.len() as int;
    let mut total_input: usize = 0;
    let mut total_output: usize = 0;
    let mut i: usize = 0;
    while i < tools.len()
        invariant
            ts == tools@,
            n == ts.len(),
            i <= tools.len(),
            total_input == input_total(ts, i as int),
            total_output == output_total(ts, i as int),
        decreases tools.len() - i,
    {
        proof {
            lemma_totals_monotone(ts, i as int, n);
        }
        total_input = match total_input.checked_add(tools[i].input_tokens) {
            Some(v) => v,
            None => return TokenUsage::Overflow,
        };
        total_output = match total_output.checked_add(tools[i].output_tokens) {
            Some(v) => v,
            None => return TokenUsage::Overflow,
        };
        i = i + 1;
    }
    let total = match total_input.checked_add(total_output) {
        Some(v) => v,
        None => return TokenUsage::Overflow,
    };
    if total == 0 {
        return TokenUsage::Nothing;
    }
    let mut keys: Vec<i128> = Vec::new();
    let mut k: usize = 0;
    while k < tools.len()
        invariant
            ts == tools@,
            n == ts.len(),
            k <= tools.len(),
            total == input_total(ts, n) + output_total(ts, n),
            keys@.len() == k,
            forall|j: int| 0 <= j < k ==> keys@[j] == (ts[j].input_tokens + ts[j].output_tokens) as i128,
        decreases tools.len() - k,
    {
        proof {
            lemma_totals_monotone(ts, k as int, n);
        }
        let t = tools[k].input_tokens + tools[k].output_tokens;
        keys.push(t as i128);
        k = k + 1;
    }
    assert(keys@ =~= token_keys(ts));
    let order = stable_order_descending(&keys);
    let mut rows: Vec<usize> = Vec::new();
    let mut m: usize = 0;
    while m < order.len() && keys[order[m]] > 0
        invariant
            m <= order.len(),
            keys@ == token_keys(ts),
            is_permutation_of_positions(order@, keys@.len()),
            rows@ == order@.take(m as int),
            forall|j: int| 0 <= j < m ==> keys@[#[trigger] order@[j] as int] > 0,
        decreases order.len() - m,
    {
        rows.push(order[m]);
        m = m + 1;
        assert(rows@ =~= order@.take(m as int));
    }
    proof {
        assert forall|a: int| 0 <= a < ts.len() implies (token_keys(ts)[a] > 0 <==> rows@.contains(a as usize)) by {
            if token_keys(ts)[a] > 0 {
                assert(order@.contains(a as usize));
                let j = choose|j: int| 0 <= j < order@.len() && order@[j] == a as usize;
                if j >= m {
                    assert(m < order@.len());
                    assert(keys@[order@[m as int] as int] <= 0);
                    if j > m {
                        assert(keys@[order@[m as int] as int] >= keys@[order@[j] as int]);
                    }
                    assert(false);
                }
                assert(rows@[j] == a as usize);
            } else if rows@.contains(a as usize) {
                let j = choose|j: int| 0 <= j < rows@.len() && rows@[j] == a as usize;
                assert(keys@[order@[j] as int] > 0);
            }
        }
        lemma_token_keys(ts);
        assert forall|a: int| 0 <= a < ts.len() implies (ts[a].input_tokens + ts[a].output_tokens > 0 <==> rows@.contains(
            a as usize,
        )) by {
            assert(token_keys(ts)[a] == ts[a].input_tokens + ts[a].output_tokens);
        }
        assert forall|i: int, j: int| 0 <= i < j < rows@.len() implies ts[#[trigger] rows@[i] as int].input_tokens
            + ts[rows@[i] as int].output_tokens >= ts[#[trigger] rows@[j] as int].input_tokens + ts[rows@[j] as int].output_tokens by {
            assert(rows@[i] == order@[i] && rows@[j] == order@[j]);
            assert(keys@[order@[i] as int] >= keys@[order@[j] as int]);
        }
        assert forall|i: int, j: int|
            0 <= i < j < rows@.len() && ts[rows@[i] as int].input_tokens + ts[rows@[i] as int].output_tokens
                == ts[rows@[j] as int].input_tokens + ts[rows@[j] as int].output_tokens implies (#[trigger] rows@[i]) < (
            #[trigger] rows@[j]) by {
            assert(rows@[i] == order@[i] && rows@[j] == order@[j]);
            assert(keys@[order@[i] as int] == keys@[order@[j] as int]);
        }
    }
    TokenUsage::Table(TokenTable { rows, total_input, total_output, total })
}

/// Names of tools.
pub open spec fn tool_names(ts: Seq<ToolResult>) -> Seq<Seq<char>> {
    ts.map_values(|t: ToolResult| t.name@)
}

/// The sort text of each tool is its whole name.
pub proof fn lemma_tool_names(ts: Seq<ToolResult>)
    ensures
        tool_names(ts).len() == ts.len(),
        forall|a: int| 0 <= a < ts.len() ==> #[trigger] tool_names(ts)[a] == ts[a].name@,
{
}

/// Positions of `tools` in the order of their names.
pub fn tools_by_name(tools: &Vec<ToolResult>) -> (order: Vec<usize>)
    ensures
        is_permutation_of_positions(order@, tools@.len()),
        is_text_ascending(tool_names(tools@), order@),
        order@.len() == tools@.len(),
        forall|a: int| 0 <= a < tools@.len() ==> #[trigger] order@.contains(a as usize),
        forall|i: int, j: int| 0 <= i < j < order@.len() ==> (#[trigger] order@[i]) != (#[trigger] order@[j]),
        forall|i: int, j: int|
            0 <= i < j < order@.len() ==> !text_less(tools@[#[trigger] order@[j] as int].name@, tools@[#[trigger] order@[i] as int].name@),
        forall|i: int, j: int|
            0 <= i < j < order@.len() && tools@[order@[i] as int].name@ == tools@[order@[j] as int].name@ ==> (
            #[trigger] order@[i]) < (#[trigger] order@[j]),
{
    let mut names: Vec<String> = Vec::new();
    let mut i: usize = 0;
    while i < tools.len()
        invariant
            i <= tools.len(),
            names@.len() == i,
            forall|j: int| 0 <= j < i ==> (#[trigger] names@[j])@ == tools@[j].name@,
        decreases tools.len() - i,
    {
        names.push(tools[i].name.clone());
        i = i + 1;
    }
    assert(text_views(names@) =~= tool_names(tools@));
    let order = order_by_text(&names);
    proof {
        lemma_tool_names(tools@);
        assert forall|i: int, j: int| 0 <= i < j < order@.len() implies !text_less(
            tools@[#[trigger] order@[j] as int].name@,
            tools@[#[trigger] order@[i] as int].name@,
        ) by {
            assert(!text_less(tool_names(tools@)[order@[j] as int], tool_names(tools@)[order@[i] as int]));
        }
        assert forall|i: int, j: int|
            0 <= i < j < order@.len() && tools@[order@[i] as int].name@ == tools@[order@[j] as int].name@ implies (
            #[trigger] order@[i]) < (#[trigger] order@[j]) by {
            assert(tool_names(tools@)[order@[i] as int] == tool_names(tools@)[order@[j] as int]);
        }
    }
    order
}

} // verus!
