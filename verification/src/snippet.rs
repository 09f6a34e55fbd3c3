//! Source snippets: the lines of a symbol, and the lines around the places where it uses
//! another.

use vstd::prelude::*;

use crate::model::{views, Dup};
use crate::text::{concat3, contains, dec, has_str, join, joined, line_seq, lines, usize_text};

verus! {

broadcast use crate::model::group_views;

/// A line number as a position among `n` lines; a negative one stands past the last line.
pub open spec fn clamp(i: int, n: int) -> int {
    if i < 0 || i > n {
        n
    } else {
        i
    }
}

fn clamped(i: i64, n: usize) -> (r: usize)
    ensures
        r == clamp(i as int, n as int),
{
    if i < 0 {
        n
    } else if i as u64 > n as u64 {
        n
    } else {
        i as usize
    }
}

/// The lines from `first` to `last`, counted from 1, exist or stand past the end together.
pub open spec fn span_fits(n: int, first: int, last: int) -> bool {
    i64::MIN < first && clamp(first - 1, n) <= clamp(last, n)
}

/// Whether the lines from `first` to `last` of the text can be cut out.
pub fn span_is_valid(content: &str, first: i64, last: i64) -> (r: bool)
    ensures
        r == span_fits(line_seq(content@).len() as int, first as int, last as int),
{
    let all = lines(content);
    assert(views(all@).len() == all@.len());
    if first == i64::MIN {
        return false;
    }
    clamped(first - 1, all.len()) <= clamped(last, all.len())
}

/// The lines from `first` to `last`.
pub open spec fn span_of(all: Seq<Seq<char>>, first: int, last: int) -> Seq<Seq<char>> {
    all.subrange(clamp(first - 1, all.len() as int), clamp(last, all.len() as int))
}

fn cut(content: &str, first: i64, last: i64) -> (r: Vec<String>)
    requires
        span_fits(line_seq(content@).len() as int, first as int, last as int),
    ensures
        views(r@) == span_of(line_seq(content@), first as int, last as int),
{
    let all = lines(content);
    assert(views(all@).len() == all@.len());
    let from: usize = clamped(first - 1, all.len());
    let to: usize = clamped(last, all.len());
    let mut out: Vec<String> = Vec::new();
    let mut i: usize = from;
    let ghost lv = views(all@);
    while i < to
        invariant
            from <= i <= to <= all@.len(),
            lv == views(all@),
            views(out@) =~= lv.subrange(from as int, i as int),
        decreases to - i,
    {
        assert(lv[i as int] == all@[i as int]@);
        out.push(all[i].dup());
        i = i + 1;
    }
    out
}

/// Lines as a text: all of them, or the first `max` and how many more there are.
pub open spec fn shortened(body: Seq<Seq<char>>, max: Option<usize>) -> Seq<char> {
    match max {
        Some(m) => if body.len() > m {
            joined(body.take(m as int), "\n"@) + "\n// \u{2026}"@ + dec((body.len() - m) as nat)
                + " more lines"@
        } else {
            joined(body, "\n"@)
        },
        None => joined(body, "\n"@),
    }
}

fn shorten(lines: Vec<String>, max_lines: Option<usize>) -> (r: String)
    ensures
        r@ == shortened(views(lines@), max_lines),
{
    let mut body = lines;
    assert(views(body@).len() == body@.len());
    if let Some(max) = max_lines {
        if body.len() > max {
            let more: usize = body.len() - max;
            let ghost before = body@;
            body.truncate(max);
            assert(body@ =~= before.take(max as int));
            let head = join(&body, "\n");
            let mut s = concat3(&head, "\n// \u{2026}", &usize_text(more));
            s.append(" more lines");
            return s;
        }
    }
    join(&body, "\n")
}

/// The snippet of a symbol's lines: all of them, or the first `max` and how many more there
/// are.
pub open spec fn snippet_text(all: Seq<Seq<char>>, first: int, last: int, max: Option<usize>) -> Seq<
    char,
> {
    shortened(span_of(all, first, last), max)
}

/// The snippet of the lines `line_start` to `line_end` of a text.
pub fn read_snippet(content: &str, line_start: i64, line_end: i64, max_lines: Option<usize>) -> (r:
    String)
    requires
        span_fits(line_seq(content@).len() as int, line_start as int, line_end as int),
    ensures
        r@ == snippet_text(line_seq(content@), line_start as int, line_end as int, max_lines),
{
    shorten(cut(content, line_start, line_end), max_lines)
}

/// What is shown of the first `n` lines of a body: each line that names the target, the
/// line before it and the line after it, with `...` where lines are left out. Gives the
/// lines, and one past the last line shown.
pub open spec fn call_site_lines(body: Seq<Seq<char>>, target: Seq<char>, n: int) -> (
    Seq<Seq<char>>,
    int,
)
    decreases n,
{
    if n <= 0 {
        (Seq::empty(), 0)
    } else {
        let (out, shown) = call_site_lines(body, target, n - 1);
        let i = n - 1;
        if has_str(body[i], target) {
            let from = if i >= 1 {
                i - 1
            } else {
                0
            };
            let to = if i + 2 < body.len() {
                i + 2
            } else {
                body.len() as int
            };
            let out = if from > shown && out.len() > 0 {
                out.push("..."@)
            } else {
                out
            };
            let from = if from > shown {
                from
            } else {
                shown
            };
            (out + body.subrange(from, to), to)
        } else {
            (out, shown)
        }
    }
}

/// What was shown last lies within the next line.
proof fn shown_is_near(body: Seq<Seq<char>>, target: Seq<char>, n: int)
    requires
        0 <= n <= body.len(),
    ensures
        0 <= call_site_lines(body, target, n).1 <= n + 1,
        call_site_lines(body, target, n).1 <= body.len(),
        call_site_lines(body, target, n).0.len() == 0 ==> call_site_lines(body, target, n).1 == 0,
    decreases n,
{
    if n > 0 {
        shown_is_near(body, target, n - 1);
    }
}

proof fn grows(a: Seq<Seq<char>>, b: Seq<Seq<char>>, x: Seq<char>)
    ensures
        a.contains(x) ==> (a + b).contains(x) && a.push("..."@).contains(x),
        b.contains(x) ==> (a + b).contains(x),
{
    if a.contains(x) {
        let i = choose|i: int| 0 <= i < a.len() && a[i] == x;
        assert((a + b)[i] == x);
        assert(a.push("..."@)[i] == x);
    }
    if b.contains(x) {
        let i = choose|i: int| 0 <= i < b.len() && b[i] == x;
        assert((a + b)[a.len() + i] == x);
    }
}

/// Every line that names the target is shown.
pub proof fn call_sites_are_shown(body: Seq<Seq<char>>, target: Seq<char>, n: int)
    requires
        0 <= n <= body.len(),
    ensures
        forall|i: int|
            0 <= i < n && has_str(#[trigger] body[i], target) ==> call_site_lines(
                body,
                target,
                n,
            ).0.contains(body[i]),
        call_site_lines(body, target, n).1 > 0 ==> call_site_lines(body, target, n).0.contains(
            body[call_site_lines(body, target, n).1 - 1],
        ),
    decreases n,
{
    if n > 0 {
        call_sites_are_shown(body, target, n - 1);
        shown_is_near(body, target, n - 1);
        let (out, shown) = call_site_lines(body, target, n - 1);
        let (all, past) = call_site_lines(body, target, n);
        let k = n - 1;
        if has_str(body[k], target) {
            let before = if k >= 1 {
                k - 1
            } else {
                0
            };
            let from = if before > shown {
                before
            } else {
                shown
            };
            let head = if before > shown && out.len() > 0 {
                out.push("..."@)
            } else {
                out
            };
            let block = body.subrange(from, past);
            assert(all == head + block);
            assert forall|x: Seq<char>| out.contains(x) implies #[trigger] all.contains(x) by {
                grows(out, block, x);
                grows(head, block, x);
            }
            if shown <= k {
                assert(block[k - from] == body[k]);
                grows(head, block, body[k]);
            } else {
                assert(body[k] == body[shown - 1]);
            }
            if past > from {
                assert(block[past - 1 - from] == body[past - 1]);
                grows(head, block, body[past - 1]);
            } else {
                assert(past == shown);
            }
        }
    }
}

/// The lines of a symbol around the places where it names the target, or the first `max` of
/// them and how many more there are; none where it does not name it.
pub open spec fn call_site_text(
    all: Seq<Seq<char>>,
    first: int,
    last: int,
    target: Seq<char>,
    max: Option<usize>,
) -> Option<Seq<char>> {
    let body = span_of(all, first, last);
    let out = call_site_lines(body, target, body.len() as int).0;
    if exists|i: int| 0 <= i < body.len() && has_str(#[trigger] body[i], target) {
        Some(shortened(out, max))
    } else {
        None
    }
}

/// The lines `range_start` to `range_end` of a text around the places where they name the
/// target.
pub fn read_call_site_snippet(
    content: &str,
    range_start: i64,
    range_end: i64,
    target_name: &str,
) -> (r: Option<String>)
    requires
        span_fits(line_seq(content@).len() as int, range_start as int, range_end as int),
    ensures
        r.deep_view() == call_site_text(
            line_seq(content@),
            range_start as int,
            range_end as int,
            target_name@,
            None,
        ),
{
    read_call_sites(content, range_start, range_end, target_name, None)
}

/// The lines `range_start` to `range_end` of a text around the places where they name the
/// target, at most `max_lines` of them.
pub fn read_call_sites(
    content: &str,
    range_start: i64,
    range_end: i64,
    target_name: &str,
    max_lines: Option<usize>,
) -> (r: Option<String>)
    requires
        span_fits(line_seq(content@).len() as int, range_start as int, range_end as int),
    ensures
        r.deep_view() == call_site_text(
            line_seq(content@),
            range_start as int,
            range_end as int,
            target_name@,
            max_lines,
        ),
{
    let body = cut(content, range_start, range_end);
    let ghost bv = views(body@);
    let mut out: Vec<String> = Vec::new();
    let mut shown: usize = 0;
    let mut hit = false;
    let mut n: usize = 0;
    assert(bv.len() == body@.len());
    while n < body.len()
        invariant
            bv == views(body@),
            bv.len() == body@.len(),
            n <= body@.len(),
            hit == exists|i: int| 0 <= i < n && has_str(#[trigger] bv[i], target_name@),
            (views(out@), shown as int) == call_site_lines(bv, target_name@, n as int),
        decreases body@.len() - n,
    {
        proof {
            shown_is_near(bv, target_name@, n as int);
            shown_is_near(bv, target_name@, n + 1);
        }
        assert(bv[n as int] == body@[n as int]@);
        assert(views(out@).len() == out@.len());
        if contains(&body[n], target_name) {
            hit = true;
            let from: usize = if n >= 1 {
                n - 1
            } else {
                0
            };
            let to: usize = if n < body.len() - 1 && n + 1 < body.len() - 1 {
                n + 2
            } else {
                body.len()
            };
            if from > shown && out.len() > 0 {
                out.push("...".to_owned());
            }
            let ghost base = views(out@);
            let begin: usize = if from > shown {
                from
            } else {
                shown
            };
            let mut k: usize = begin;
            assert(base + bv.subrange(begin as int, begin as int) =~= base);
            while k < to
                invariant
                    begin <= k <= to <= body@.len(),
                    bv == views(body@),
                    views(out@) == base + bv.subrange(begin as int, k as int),
                decreases to - k,
            {
                assert(bv[k as int] == body@[k as int]@);
                out.push(body[k].dup());
                k = k + 1;
                assert(base + bv.subrange(begin as int, k as int) =~= (base + bv.subrange(
                    begin as int,
                    k - 1,
                )).push(bv[k - 1]));
            }
            shown = to;
        }
        n = n + 1;
    }
    if !hit {
        return None;
    }
    Some(shorten(out, max_lines))
}

// ---------------------------------------------------------------------------
// Laws
// ---------------------------------------------------------------------------

/// A span holds its lines, the first and the last counted from 1; where the text ends before
/// the span does, it holds those up to the end of the text.
pub proof fn spans_hold_their_lines(all: Seq<Seq<char>>, first: int, last: int)
    requires
        1 <= first <= last,
        first <= all.len() + 1,
    ensures
        last <= all.len() ==> span_of(all, first, last).len() == last - first + 1,
        last > all.len() ==> span_of(all, first, last).len() == all.len() - first + 1,
        forall|k: int|
            0 <= k < span_of(all, first, last).len() ==> #[trigger] span_of(all, first, last)[k]
                == all[first - 1 + k],
        span_fits(all.len() as int, first, last),
{
}

/// What is short enough is shown in full; of more lines than wanted, the first are shown, and
/// how many were left out.
pub proof fn lines_left_out_are_counted(body: Seq<Seq<char>>, max: Option<usize>)
    ensures
        max is None ==> shortened(body, max) == joined(body, "\n"@),
        max matches Some(m) ==> body.len() <= m ==> shortened(body, max) == joined(body, "\n"@),
        max matches Some(m) ==> body.len() > m ==> shortened(body, max) == joined(
            body.take(m as int),
            "\n"@,
        ) + "\n// …"@ + dec((body.len() - m) as nat) + " more lines"@,
{
    reveal_strlit("\n// \u{2026}");
    reveal_strlit("\n// …");
    assert("\n// \u{2026}"@ =~= "\n// …"@);
}

proof fn quiet_lines_add_nothing(body: Seq<Seq<char>>, target: Seq<char>, a: int, b: int)
    requires
        0 <= a <= b <= body.len(),
        forall|i: int| a <= i < b ==> !has_str(#[trigger] body[i], target),
    ensures
        call_site_lines(body, target, b) == call_site_lines(body, target, a),
    decreases b - a,
{
    if a < b {
        quiet_lines_add_nothing(body, target, a, b - 1);
    }
}

proof fn shown_stay(a: Seq<Seq<char>>, b: Seq<Seq<char>>, x: Seq<char>)
    ensures
        (a + b).contains(x) <==> a.contains(x) || b.contains(x),
{
    if a.contains(x) {
        let j = choose|j: int| 0 <= j < a.len() && a[j] == x;
        assert((a + b)[j] == x);
    }
    if b.contains(x) {
        let j = choose|j: int| 0 <= j < b.len() && b[j] == x;
        assert((a + b)[a.len() + j] == x);
    }
    if (a + b).contains(x) {
        let j = choose|j: int| 0 <= j < (a + b).len() && (a + b)[j] == x;
        assert(j < a.len() ==> a[j] == x);
        assert(j >= a.len() ==> b[j - a.len()] == x);
    }
}

/// Every line that is shown names the target or stands next to one that does, or is the mark
/// of a gap.
pub proof fn only_call_sites_are_shown(body: Seq<Seq<char>>, target: Seq<char>, n: int, x: Seq<char>)
    requires
        0 <= n <= body.len(),
        call_site_lines(body, target, n).0.contains(x),
    ensures
        x == "..."@ || exists|i: int, k: int|
            0 <= i < n && has_str(#[trigger] body[i], target) && 0 <= k < body.len() && i - 1 <= k
                <= i + 1 && #[trigger] body[k] == x,
    decreases n,
{
    if n > 0 {
        let i = n - 1;
        let (out, shown) = call_site_lines(body, target, n - 1);
        if has_str(body[i], target) {
            shown_from_start(body, target, n - 1);
            let from = if i >= 1 {
                i - 1
            } else {
                0
            };
            let to = if i + 2 < body.len() {
                i + 2
            } else {
                body.len() as int
            };
            let marked = if from > shown && out.len() > 0 {
                out.push("..."@)
            } else {
                out
            };
            let start = if from > shown {
                from
            } else {
                shown
            };
            let part = body.subrange(start, to);
            shown_stay(marked, part, x);
            if marked.contains(x) {
                crate::model::push_holds(out, "..."@, x);
                if out.contains(x) {
                    only_call_sites_are_shown(body, target, n - 1, x);
                }
            } else {
                let j = choose|j: int| 0 <= j < part.len() && part[j] == x;
                assert(body[start + j] == x);
                assert(has_str(body[i], target));
            }
        } else {
            only_call_sites_are_shown(body, target, n - 1, x);
        }
    }
}

proof fn shown_from_start(body: Seq<Seq<char>>, target: Seq<char>, n: int)
    requires
        0 <= n <= body.len(),
    ensures
        0 <= call_site_lines(body, target, n).1 <= n + 1,
        call_site_lines(body, target, n).1 <= body.len(),
    decreases n,
{
    if n > 0 {
        shown_from_start(body, target, n - 1);
    }
}

/// One call site is shown with the line before it and the line after it.
pub proof fn one_call_site_is_shown_with_its_neighbours(
    body: Seq<Seq<char>>,
    target: Seq<char>,
    i: int,
)
    requires
        0 <= i < body.len(),
        has_str(body[i], target),
        forall|k: int| 0 <= k < body.len() && k != i ==> !has_str(#[trigger] body[k], target),
    ensures
        call_site_lines(body, target, body.len() as int).0 == body.subrange(
            if i > 0 {
                i - 1
            } else {
                0
            },
            if i + 1 < body.len() {
                i + 2
            } else {
                i + 1
            },
        ),
{
    let n = body.len() as int;
    quiet_lines_add_nothing(body, target, 0, i);
    quiet_lines_add_nothing(body, target, i + 1, n);
    assert(call_site_lines(body, target, i + 1).0 =~= body.subrange(
        if i > 0 {
            i - 1
        } else {
            0
        },
        if i + 1 < n {
            i + 2
        } else {
            i + 1
        },
    ));
}

/// Two call sites are shown as one run of lines where nothing would be left out between them,
/// and with a mark between them where something is.
pub proof fn gaps_are_marked(body: Seq<Seq<char>>, target: Seq<char>, i: int, j: int)
    requires
        0 <= i < j < body.len(),
        has_str(body[i], target),
        has_str(body[j], target),
        forall|k: int|
            0 <= k < body.len() && k != i && k != j ==> !has_str(#[trigger] body[k], target),
    ensures
        ({
            let from = if i > 0 {
                i - 1
            } else {
                0
            };
            let to = if j + 1 < body.len() {
                j + 2
            } else {
                j + 1
            };
            let shown = call_site_lines(body, target, body.len() as int).0;
            &&& j <= i + 3 ==> shown == body.subrange(from, to)
            &&& j > i + 3 ==> shown == body.subrange(from, i + 2).push("..."@) + body.subrange(
                j - 1,
                to,
            )
        }),
{
    let n = body.len() as int;
    let from = if i > 0 {
        i - 1
    } else {
        0
    };
    let to = if j + 1 < n {
        j + 2
    } else {
        j + 1
    };
    quiet_lines_add_nothing(body, target, 0, i);
    quiet_lines_add_nothing(body, target, i + 1, j);
    quiet_lines_add_nothing(body, target, j + 1, n);
    let one = call_site_lines(body, target, i + 1);
    assert(one.0 =~= body.subrange(from, i + 2));
    assert(one.1 == i + 2);
    let two = call_site_lines(body, target, j + 1).0;
    if j <= i + 3 {
        assert(two =~= body.subrange(from, to));
    } else {
        assert(two =~= body.subrange(from, i + 2).push("..."@) + body.subrange(j - 1, to));
    }
}

} // verus!
