//! Which transcript entries are drawn again when a session is resumed.
use vstd::prelude::*;

verus! {

/// Walking back from entry `k - 1` to the first: an entry is taken while
/// the lines taken so far (`used`) and its own lines (one more for a tool
/// entry right before another tool entry) stay within `limit`; the newest
/// entry is always taken. The result is the index of the oldest entry
/// taken (`start`, while none is).
pub open spec fn tail_start_from(
    counts: Seq<usize>,
    tools: Seq<bool>,
    limit: int,
    k: int,
    used: int,
    next_is_tool: bool,
    start: int,
) -> int
    decreases k,
{
    if k <= 0 {
        start
    } else {
        let i = k - 1;
        let n = counts[i] + if tools[i] && next_is_tool {
            1int
        } else {
            0
        };
        if start < counts.len() && used + n > limit {
            start
        } else {
            tail_start_from(counts, tools, limit, i, used + n, tools[i], i)
        }
    }
}

/// The first of the newest entries whose lines fit `line_limit` (at least
/// the newest entry), given how many lines each entry draws and which are
/// tool entries; the entries before it are left out.
pub open spec fn tail_start(counts: Seq<usize>, tools: Seq<bool>, line_limit: int) -> int {
    tail_start_from(counts, tools, line_limit, counts.len() as int, 0, false, counts.len() as int)
}

/// How many of the oldest entries are left out when at most `line_limit`
/// lines are drawn again (see `tail_start`); `line_counts[i]` is how many
/// lines entry `i` draws and `is_tool[i]` whether it is a tool entry.
pub fn recovered_history_tail(line_counts: &[usize], is_tool: &[bool], line_limit: usize) -> (start: usize)
    requires
        line_counts@.len() == is_tool@.len(),
        forall|i: int| 0 <= i < line_counts@.len() ==> #[trigger] line_counts@[i] < usize::MAX,
    ensures
        start == tail_start(line_counts@, is_tool@, line_limit as int),
        start <= line_counts@.len(),
        line_counts@.len() > 0 ==> start < line_counts@.len(),
{
    let len = line_counts.len();
    let mut selected = len;
    let mut used: usize = 0;
    let mut next_is_tool = false;
    let mut k = len;
    while k > 0
        invariant
            len == line_counts@.len(),
            len == is_tool@.len(),
            k <= len,
            k <= selected <= len,
            selected == len ==> used == 0 && k == len,
            selected < len ==> used <= line_limit || selected == len - 1,
            forall|i: int| 0 <= i < len ==> #[trigger] line_counts@[i] < usize::MAX,
            tail_start_from(line_counts@, is_tool@, line_limit as int, k as int, used as int, next_is_tool, selected as int)
                == tail_start(line_counts@, is_tool@, line_limit as int),
        ensures
            selected <= len,
            len > 0 ==> selected < len,
            tail_start_from(line_counts@, is_tool@, line_limit as int, k as int, used as int, next_is_tool, selected as int)
                == tail_start(line_counts@, is_tool@, line_limit as int),
            k == 0 || (selected < len && used + line_counts@[k - 1] + (if is_tool@[k - 1] && next_is_tool {
                1int
            } else {
                0
            }) > line_limit),
        decreases k,
    {
        let i = k - 1;
        let spacing: usize = if is_tool[i] && next_is_tool {
            1
        } else {
            0
        };
        let n = line_counts[i] + spacing;
        if selected < len && (used > line_limit || n > line_limit - used) {
            break;
        }
        selected = i;
        used = used + n;
        next_is_tool = is_tool[i];
        k = i;
    }
    selected
}

} // verus!
