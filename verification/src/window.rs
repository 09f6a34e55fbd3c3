//! Windows on long results: how many rows a budget of lines or tokens lets through, and
//! where the next window starts.

use vstd::prelude::*;

verus! {

/// How much of a result is wanted, from which row on, and whether details are left out.
#[derive(Clone, Copy, Debug)]
pub struct OutputControl {
    pub budget_lines: Option<usize>,
    pub budget_tokens: Option<usize>,
    pub offset: usize,
    pub compact: bool,
}

/// What a window shows of a result.
#[derive(Clone, Copy, Debug)]
pub struct WindowMeta {
    pub total_items: usize,
    pub offset: usize,
    pub shown_items: usize,
    pub truncated: bool,
    pub next_offset: Option<usize>,
    pub budget_lines: Option<usize>,
    pub budget_tokens: Option<usize>,
}

/// A sum, or the greatest machine number where the sum is greater.
pub open spec fn capped(n: int) -> int {
    if n > usize::MAX {
        usize::MAX as int
    } else {
        n
    }
}

/// The lesser of two numbers.
pub open spec fn lesser(a: int, b: int) -> int {
    if a < b {
        a
    } else {
        b
    }
}

/// Where a window from `start` on ends for want of lines.
pub open spec fn line_end(total: int, start: int, lines: Option<usize>) -> int {
    match lines {
        Some(n) => lesser(total, start + n),
        None => total,
    }
}

/// Where a window from `start` on ends for want of tokens, seen from row `i` on, before
/// which `used` tokens were spent. The first row is let through whatever it costs.
pub open spec fn token_end(
    costs: Seq<usize>,
    start: int,
    i: int,
    used: int,
    end: int,
    max: int,
) -> int
    decreases end - i,
{
    if i >= end {
        i
    } else if i > start && capped(used + costs[i]) > max {
        i
    } else {
        token_end(costs, start, i + 1, capped(used + costs[i]), end, max)
    }
}

/// The first row of the window.
pub open spec fn window_start(total: int, offset: int) -> int {
    lesser(offset, total)
}

/// One past the last row of the window.
pub open spec fn window_end(
    costs: Seq<usize>,
    offset: int,
    lines: Option<usize>,
    tokens: Option<usize>,
) -> int {
    let total = costs.len() as int;
    let start = window_start(total, offset);
    let end = line_end(total, start, lines);
    match tokens {
        Some(max) => token_end(costs, start, start, 0, end, max as int),
        None => end,
    }
}

/// What the window shows.
pub open spec fn window_meta(
    costs: Seq<usize>,
    offset: int,
    lines: Option<usize>,
    tokens: Option<usize>,
) -> WindowMeta {
    let total = costs.len() as int;
    let start = window_start(total, offset);
    let end = window_end(costs, offset, lines, tokens);
    WindowMeta {
        total_items: total as usize,
        offset: start as usize,
        shown_items: (end - start) as usize,
        truncated: end < total,
        next_offset: if end < total {
            Some(end as usize)
        } else {
            None
        },
        budget_lines: lines,
        budget_tokens: tokens,
    }
}

/// A window for want of tokens ends between its start and its end for want of lines, and
/// holds a row where there is one.
pub proof fn token_end_is_within(
    costs: Seq<usize>,
    start: int,
    i: int,
    used: int,
    end: int,
    max: int,
)
    requires
        start <= i <= end,
    ensures
        i <= token_end(costs, start, i, used, end, max) <= end,
        i == start && start < end ==> token_end(costs, start, i, used, end, max) > start,
    decreases end - i,
{
    if i < end && !(i > start && capped(used + costs[i]) > max) {
        token_end_is_within(costs, start, i + 1, capped(used + costs[i]), end, max);
    }
}

/// The window starts and ends within the rows.
pub proof fn window_is_within(
    costs: Seq<usize>,
    offset: int,
    lines: Option<usize>,
    tokens: Option<usize>,
)
    requires
        0 <= offset,
    ensures
        0 <= window_start(costs.len() as int, offset) <= window_end(costs, offset, lines, tokens)
            <= costs.len(),
        lines matches Some(n) ==> window_end(costs, offset, lines, tokens) - window_start(
            costs.len() as int,
            offset,
        ) <= n,
{
    let start = window_start(costs.len() as int, offset);
    let end = line_end(costs.len() as int, start, lines);
    if tokens is Some {
        token_end_is_within(costs, start, start, 0, end, tokens->0 as int);
    }
}

/// A window that does not start behind the last row shows at least one row, unless it is
/// given no lines: following `next_offset` always makes progress.
pub proof fn window_makes_progress(
    costs: Seq<usize>,
    offset: int,
    lines: Option<usize>,
    tokens: Option<usize>,
)
    requires
        0 <= offset < costs.len(),
        lines != Some(0usize),
    ensures
        window_end(costs, offset, lines, tokens) > offset,
{
    let end = line_end(costs.len() as int, offset, lines);
    if tokens is Some {
        token_end_is_within(costs, offset, offset, 0, end, tokens->0 as int);
    }
}

/// The rows of the windows that one gets by following `next_offset`, one window after the
/// other.
pub open spec fn paged_rows(
    costs: Seq<usize>,
    offset: int,
    lines: Option<usize>,
    tokens: Option<usize>,
) -> Seq<int>
    decreases costs.len() - offset,
{
    let end = window_end(costs, offset, lines, tokens);
    let rows = Seq::new((end - offset) as nat, |k: int| offset + k);
    if offset < end < costs.len() {
        rows + paged_rows(costs, end, lines, tokens)
    } else {
        rows
    }
}

/// Following `next_offset` from a row on shows every row from there on exactly once, in
/// order, unless the windows are given no lines.
pub proof fn windows_cover_all_rows(
    costs: Seq<usize>,
    offset: int,
    lines: Option<usize>,
    tokens: Option<usize>,
)
    requires
        0 <= offset <= costs.len(),
        lines != Some(0usize),
    ensures
        paged_rows(costs, offset, lines, tokens) == Seq::new(
            (costs.len() - offset) as nat,
            |k: int| offset + k,
        ),
    decreases costs.len() - offset,
{
    let end = window_end(costs, offset, lines, tokens);
    window_is_within(costs, offset, lines, tokens);
    if offset < costs.len() {
        window_makes_progress(costs, offset, lines, tokens);
        if end < costs.len() {
            windows_cover_all_rows(costs, end, lines, tokens);
        }
    }
    assert(paged_rows(costs, offset, lines, tokens) =~= Seq::new(
        (costs.len() - offset) as nat,
        |k: int| offset + k,
    ));
}

/// The sum, or the greatest machine number where the sum is greater.
pub fn capped_sum(a: usize, b: usize) -> (r: usize)
    ensures
        r == capped(a + b),
{
    if b > usize::MAX - a {
        usize::MAX
    } else {
        a + b
    }
}

/// The window that the budgets let through: its first row, one past its last row, and what
/// it shows. `costs` are the rows' costs in tokens.
pub fn apply_window(
    costs: &Vec<usize>,
    offset: usize,
    budget_lines: Option<usize>,
    budget_tokens: Option<usize>,
) -> (r: (usize, usize, WindowMeta))
    ensures
        r.0 == window_start(costs@.len() as int, offset as int),
        r.1 == window_end(costs@, offset as int, budget_lines, budget_tokens),
        r.2 == window_meta(costs@, offset as int, budget_lines, budget_tokens),
        r.0 <= r.1 <= costs@.len(),
{
    proof {
        window_is_within(costs@, offset as int, budget_lines, budget_tokens);
    }
    let total: usize = costs.len();
    let start: usize = if offset < total {
        offset
    } else {
        total
    };
    let mut end: usize = total;
    if let Some(max_lines) = budget_lines {
        let cap: usize = capped_sum(start, max_lines);
        if cap < end {
            end = cap;
        }
    }
    if let Some(max_tokens) = budget_tokens {
        let mut used: usize = 0;
        let mut idx: usize = start;
        let mut full = false;
        let ghost goal = token_end(costs@, start as int, start as int, 0, end as int, max_tokens as int);
        while idx < end && !full
            invariant
                start <= idx <= end <= costs@.len(),
                full ==> idx == goal,
                !full ==> goal == token_end(
                    costs@,
                    start as int,
                    idx as int,
                    used as int,
                    end as int,
                    max_tokens as int,
                ),
            decreases end - idx + if full { 0int } else { 1int },
        {
            let spent = capped_sum(used, costs[idx]);
            if idx > start && spent > max_tokens {
                full = true;
            } else {
                used = spent;
                idx = idx + 1;
            }
        }
        end = idx;
    }
    let truncated = end < total;
    let next_offset = if truncated {
        Some(end)
    } else {
        None
    };
    (
        start,
        end,
        WindowMeta {
            total_items: total,
            offset: start,
            shown_items: end - start,
            truncated,
            next_offset,
            budget_lines,
            budget_tokens,
        },
    )
}

/// The costs of the rows from `a` to `b` together.
pub open spec fn cost_of_rows(costs: Seq<usize>, a: int, b: int) -> int
    decreases b - a,
{
    if a >= b {
        0
    } else {
        cost_of_rows(costs, a, b - 1) + costs[b - 1]
    }
}

proof fn costs_add_up(costs: Seq<usize>, a: int, b: int, c: int)
    requires
        0 <= a <= b <= c <= costs.len(),
    ensures
        cost_of_rows(costs, a, b) <= cost_of_rows(costs, a, c),
        cost_of_rows(costs, a, b) >= 0,
    decreases c - a,
{
    if b < c {
        costs_add_up(costs, a, b, c - 1);
    } else if a < b {
        costs_add_up(costs, a, b - 1, c - 1);
    }
}

/// A window without budgets shows all rows from the offset on; a budget of lines bounds how
/// many rows it shows, and it shows as many as that allows.
pub proof fn lines_bound_the_window(costs: Seq<usize>, offset: int, lines: usize)
    requires
        0 <= offset <= costs.len(),
    ensures
        window_start(costs.len() as int, offset) == offset,
        window_end(costs, offset, None, None) == costs.len(),
        window_end(costs, offset, Some(lines), None) == (if offset + lines <= costs.len() {
            offset + lines
        } else {
            costs.len() as int
        }),
{
}

/// A budget of tokens is kept, but that one row is always shown; and a window ends for it only
/// where the next row would exceed it.
pub proof fn tokens_bound_the_window(
    costs: Seq<usize>,
    offset: int,
    lines: Option<usize>,
    max: usize,
)
    requires
        0 <= offset < costs.len(),
        lines != Some(0usize),
        max < usize::MAX,
    ensures
        ({
            let end = window_end(costs, offset, lines, Some(max));
            let all = window_end(costs, offset, lines, None);
            &&& offset < end <= all
            &&& end == offset + 1 || cost_of_rows(costs, offset, end) <= max
            &&& end < all ==> cost_of_rows(costs, offset, end + 1) > max
        }),
{
    let all = window_end(costs, offset, lines, None);
    budget_is_used(costs, offset, offset, 0, all, max as int);
}

proof fn budget_is_used(costs: Seq<usize>, start: int, i: int, used: int, end: int, max: int)
    requires
        0 <= start <= i <= end <= costs.len(),
        start < end,
        0 <= max < usize::MAX,
        used == capped(cost_of_rows(costs, start, i)),
        i > start + 1 ==> cost_of_rows(costs, start, i) <= max,
    ensures
        ({
            let e = token_end(costs, start, i, used, end, max);
            &&& i <= e <= end && start < e
            &&& e == start + 1 || cost_of_rows(costs, start, e) <= max
            &&& e < end ==> cost_of_rows(costs, start, e + 1) > max
        }),
    decreases end - i,
{
    costs_add_up(costs, start, i, i);
    if i < end {
        costs_add_up(costs, start, i, i + 1);
        let next = cost_of_rows(costs, start, i + 1);
        assert(next == cost_of_rows(costs, start, i) + costs[i]);
        if i > start && capped(used + costs[i]) > max {
        } else {
            budget_is_used(costs, start, i + 1, capped(used + costs[i]), end, max);
        }
    }
}

/// What is said of a window is what it is: how many rows there are, where it starts, how many
/// it shows, and where to go on if that is not all.
pub proof fn windows_say_where_to_go_on(
    costs: Seq<usize>,
    offset: int,
    lines: Option<usize>,
    tokens: Option<usize>,
)
    requires
        0 <= offset,
        costs.len() <= usize::MAX,
    ensures
        ({
            let m = window_meta(costs, offset, lines, tokens);
            let start = window_start(costs.len() as int, offset);
            let end = window_end(costs, offset, lines, tokens);
            &&& m.total_items == costs.len()
            &&& m.offset == start
            &&& m.offset + m.shown_items == end
            &&& m.truncated <==> end < costs.len()
            &&& m.truncated ==> m.next_offset == Some(end as usize)
            &&& !m.truncated ==> m.next_offset is None
            &&& m.budget_lines == lines && m.budget_tokens == tokens
            &&& start == (if offset < costs.len() {
                offset
            } else {
                costs.len() as int
            })
        }),
{
    window_is_within(costs, offset, lines, tokens);
}

} // verus!
