//! Shared architectural analysis helpers: contexts, test files, forbidden couplings and the
//! exceptions that suppress them.

use vstd::prelude::*;

use crate::config::{ViolationException, ViolationExceptionView, ViolationRule, ViolationRuleView};
use crate::model::{or_text, text_or, views};
use crate::text::{
    begins_with, contains, ends_with, finishes_with, has_str, split_at_char, split_char,
    split_is_not_empty, starts_with, str_eq, trim_start_matches, trimmed_of,
};

verus! {

broadcast use crate::model::group_views;

/// A path without the leading `./`.
pub open spec fn plain_path(path: Seq<char>) -> Seq<char> {
    trimmed_of(path, "./"@)
}

/// A path without the leading `./`.
pub fn strip_dot(path: &str) -> (r: String)
    ensures
        r@ == plain_path(path@),
{
    proof {
        reveal_strlit("./");
    }
    trim_start_matches(path, "./")
}

/// The bounded context of a file: the first component of its path, or `root` where that is
/// `src`.
pub open spec fn context_of(path: Seq<char>) -> Seq<char> {
    let first = split_at_char(plain_path(path), '/')[0];
    if first == "src"@ {
        "root"@
    } else {
        first
    }
}

/// Derive a bounded context name from a file path.
/// `./infrastructure/src/foo.rs` gives `infrastructure`, `./src/foo.rs` gives `root`.
pub fn file_to_context(path: &str) -> (r: String)
    ensures
        r@ == context_of(path@),
{
    let plain = strip_dot(path);
    let pieces = split_char(&plain, '/');
    proof {
        split_is_not_empty(plain@, '/');
        assert(views(pieces@)[0] == pieces@[0]@);
    }
    if str_eq(&pieces[0], "src") {
        "root".to_owned()
    } else {
        pieces[0].clone()
    }
}

/// A file that belongs to test code.
pub open spec fn test_path(path: Seq<char>) -> bool {
    let p = plain_path(path);
    begins_with(p, "tests/"@) || has_str(p, "/tests/"@) || finishes_with(p, "_test.rs"@)
        || finishes_with(p, "_tests.rs"@)
}

/// Whether a file path belongs to test code: `tests/*`, `*/tests/*`, `*_test.rs` and
/// `*_tests.rs`.
pub fn is_test_file(path: &str) -> (r: bool)
    ensures
        r == test_path(path@),
{
    let p = strip_dot(path);
    starts_with(&p, "tests/") || contains(&p, "/tests/") || ends_with(&p, "_test.rs") || ends_with(
        &p,
        "_tests.rs",
    )
}

/// The first rule from `i` on that forbids the coupling.
pub open spec fn rule_for(
    rules: Seq<ViolationRuleView>,
    from_ctx: Seq<char>,
    to_ctx: Seq<char>,
    i: int,
) -> Option<int>
    decreases rules.len() - i,
{
    if i < 0 || i >= rules.len() {
        None
    } else if rules[i].from_context == from_ctx && rules[i].to_context == to_ctx {
        Some(i)
    } else {
        rule_for(rules, from_ctx, to_ctx, i + 1)
    }
}

/// Why the coupling is forbidden, if it is.
pub open spec fn coupling_reason(
    from_ctx: Seq<char>,
    to_ctx: Seq<char>,
    rules: Seq<ViolationRuleView>,
) -> Option<Seq<char>> {
    if from_ctx == to_ctx {
        None
    } else {
        match rule_for(rules, from_ctx, to_ctx, 0) {
            Some(i) => Some(
                from_ctx + " \u{2192} "@ + to_ctx + " ("@ + or_text(
                    rules[i].reason,
                    "context coupling"@,
                ) + ")"@,
            ),
            None => None,
        }
    }
}

/// Config-defined forbidden context coupling, applied to all edges.
pub fn context_violation_reason(from_ctx: &str, to_ctx: &str, rules: &Vec<ViolationRule>) -> (r:
    Option<String>)
    ensures
        r.deep_view() == coupling_reason(from_ctx@, to_ctx@, views(rules@)),
{
    if str_eq(from_ctx, to_ctx) {
        return None;
    }
    let mut i: usize = 0;
    while i < rules.len()
        invariant
            from_ctx@ != to_ctx@,
            i <= rules@.len(),
            rule_for(views(rules@), from_ctx@, to_ctx@, 0) == rule_for(
                views(rules@),
                from_ctx@,
                to_ctx@,
                i as int,
            ),
        decreases rules@.len() - i,
    {
        let rule = &rules[i];
        assert(views(rules@)[i as int] == rule@);
        if str_eq(&rule.from_context, from_ctx) && str_eq(&rule.to_context, to_ctx) {
            let why = text_or(&rule.reason, "context coupling");
            let mut s = from_ctx.to_owned();
            s.append(" \u{2192} ");
            s.append(to_ctx);
            s.append(" (");
            s.append(&why);
            s.append(")");
            return Some(s);
        }
        i = i + 1;
    }
    None
}

/// An omitted field matches everything, a given one the value it gives.
pub open spec fn fits(field: Option<Seq<char>>, value: Seq<char>) -> bool {
    match field {
        Some(v) => v == value,
        None => true,
    }
}

/// Whether an omitted or given field matches the value.
pub fn field_fits(field: &Option<String>, value: &str) -> (r: bool)
    ensures
        r == fits(field.deep_view(), value@),
{
    match field {
        Some(v) => str_eq(v, value),
        None => true,
    }
}

/// An omitted stable id matches everything, a given one the edges at either end of which it
/// stands. Where the stable ids of an edge are not known, a given one matches nothing.
pub open spec fn names_end(field: Option<Seq<char>>, ids: Option<(Seq<char>, Seq<char>)>) -> bool {
    match field {
        Some(v) => ids matches Some(ends) && (v == ends.0 || v == ends.1),
        None => true,
    }
}

/// All given fields of the exception match the edge, whose stable ids are `ids`, where they are
/// known.
pub open spec fn covers(
    exc: ViolationExceptionView,
    from_ctx: Seq<char>,
    to_ctx: Seq<char>,
    from_role: Seq<char>,
    to_role: Seq<char>,
    ids: Option<(Seq<char>, Seq<char>)>,
) -> bool {
    fits(exc.from_context, from_ctx) && fits(exc.to_context, to_ctx) && fits(
        exc.from_role,
        from_role,
    ) && fits(exc.to_role, to_role) && names_end(exc.stable_id, ids)
}

/// The reason of the first exception from `i` on that covers the edge.
pub open spec fn covering_reason(
    from_ctx: Seq<char>,
    to_ctx: Seq<char>,
    from_role: Seq<char>,
    to_role: Seq<char>,
    ids: Option<(Seq<char>, Seq<char>)>,
    exceptions: Seq<ViolationExceptionView>,
    i: int,
) -> Option<Seq<char>>
    decreases exceptions.len() - i,
{
    if i < 0 || i >= exceptions.len() {
        None
    } else if covers(exceptions[i], from_ctx, to_ctx, from_role, to_role, ids) {
        Some(or_text(exceptions[i].reason, "suppressed"@))
    } else {
        covering_reason(from_ctx, to_ctx, from_role, to_role, ids, exceptions, i + 1)
    }
}

/// Whether all given fields of the exception match the edge, whose stable ids are known.
pub fn exception_matches(
    exc: &ViolationException,
    from_ctx: &str,
    to_ctx: &str,
    from_role: &str,
    to_role: &str,
    from_stable_id: &str,
    to_stable_id: &str,
) -> (r: bool)
    ensures
        r == covers(
            exc@,
            from_ctx@,
            to_ctx@,
            from_role@,
            to_role@,
            Some((from_stable_id@, to_stable_id@)),
        ),
{
    let named = match &exc.stable_id {
        Some(v) => str_eq(v, from_stable_id) || str_eq(v, to_stable_id),
        None => true,
    };
    field_fits(&exc.from_context, from_ctx) && field_fits(&exc.to_context, to_ctx) && field_fits(
        &exc.from_role,
        from_role,
    ) && field_fits(&exc.to_role, to_role) && named
}

/// Check whether a violation edge whose stable ids are not known is covered by a suppression
/// exception: one that gives a stable id does not fire. Gives the exception's reason if it is.
pub fn exception_reason(
    from_ctx: &str,
    to_ctx: &str,
    from_role: &str,
    to_role: &str,
    exceptions: &Vec<ViolationException>,
) -> (r: Option<String>)
    ensures
        r.deep_view() == covering_reason(
            from_ctx@,
            to_ctx@,
            from_role@,
            to_role@,
            None,
            views(exceptions@),
            0,
        ),
{
    let mut i: usize = 0;
    while i < exceptions.len()
        invariant
            i <= exceptions@.len(),
            covering_reason(from_ctx@, to_ctx@, from_role@, to_role@, None, views(exceptions@), 0)
                == covering_reason(
                from_ctx@,
                to_ctx@,
                from_role@,
                to_role@,
                None,
                views(exceptions@),
                i as int,
            ),
        decreases exceptions@.len() - i,
    {
        let exc = &exceptions[i];
        assert(views(exceptions@)[i as int] == exc@);
        if exc.stable_id.is_none() && field_fits(&exc.from_context, from_ctx) && field_fits(
            &exc.to_context,
            to_ctx,
        ) && field_fits(&exc.from_role, from_role) && field_fits(&exc.to_role, to_role) {
            return Some(text_or(&exc.reason, "suppressed"));
        }
        i = i + 1;
    }
    None
}

/// Check whether a violation edge between the symbols with the stable ids is covered by a
/// suppression exception. Gives the exception's reason if it is.
pub fn edge_exception_reason(
    from_ctx: &str,
    to_ctx: &str,
    from_role: &str,
    to_role: &str,
    from_stable_id: &str,
    to_stable_id: &str,
    exceptions: &Vec<ViolationException>,
) -> (r: Option<String>)
    ensures
        r.deep_view() == covering_reason(
            from_ctx@,
            to_ctx@,
            from_role@,
            to_role@,
            Some((from_stable_id@, to_stable_id@)),
            views(exceptions@),
            0,
        ),
{
    let ghost ids = Some((from_stable_id@, to_stable_id@));
    let mut i: usize = 0;
    while i < exceptions.len()
        invariant
            ids == Some((from_stable_id@, to_stable_id@)),
            i <= exceptions@.len(),
            covering_reason(from_ctx@, to_ctx@, from_role@, to_role@, ids, views(exceptions@), 0)
                == covering_reason(
                from_ctx@,
                to_ctx@,
                from_role@,
                to_role@,
                ids,
                views(exceptions@),
                i as int,
            ),
        decreases exceptions@.len() - i,
    {
        let exc = &exceptions[i];
        assert(views(exceptions@)[i as int] == exc@);
        if exception_matches(
            exc,
            from_ctx,
            to_ctx,
            from_role,
            to_role,
            from_stable_id,
            to_stable_id,
        ) {
            return Some(text_or(&exc.reason, "suppressed"));
        }
        i = i + 1;
    }
    None
}

/// A context is never in violation with itself, whatever the rules say.
pub proof fn own_context_is_allowed(ctx: Seq<char>, rules: Seq<ViolationRuleView>)
    ensures
        coupling_reason(ctx, ctx, rules) is None,
{
}

/// A coupling is forbidden exactly where the contexts differ and some rule names both.
pub proof fn forbidden_iff_ruled(
    from_ctx: Seq<char>,
    to_ctx: Seq<char>,
    rules: Seq<ViolationRuleView>,
)
    ensures
        coupling_reason(from_ctx, to_ctx, rules) is Some <==> from_ctx != to_ctx && exists|i: int|
            0 <= i < rules.len() && (#[trigger] rules[i]).from_context == from_ctx
                && rules[i].to_context == to_ctx,
{
    rule_for_finds(rules, from_ctx, to_ctx, 0);
}

/// `rule_for` gives a rule on both contexts, where there is one.
pub proof fn rule_for_finds(
    rules: Seq<ViolationRuleView>,
    from_ctx: Seq<char>,
    to_ctx: Seq<char>,
    i: int,
)
    requires
        0 <= i <= rules.len(),
    ensures
        match rule_for(rules, from_ctx, to_ctx, i) {
            Some(k) => i <= k < rules.len() && rules[k].from_context == from_ctx
                && rules[k].to_context == to_ctx,
            None => forall|k: int|
                i <= k < rules.len() ==> !((#[trigger] rules[k]).from_context == from_ctx
                    && rules[k].to_context == to_ctx),
        },
    decreases rules.len() - i,
{
    if i < rules.len() && !(rules[i].from_context == from_ctx && rules[i].to_context == to_ctx) {
        rule_for_finds(rules, from_ctx, to_ctx, i + 1);
    }
}

/// An exception that gives no field covers every edge: omitted fields are wildcards.
pub proof fn omitted_fields_are_wildcards(
    exc: ViolationExceptionView,
    from_ctx: Seq<char>,
    to_ctx: Seq<char>,
    from_role: Seq<char>,
    to_role: Seq<char>,
    ids: Option<(Seq<char>, Seq<char>)>,
)
    requires
        exc.from_context is None,
        exc.to_context is None,
        exc.from_role is None,
        exc.to_role is None,
        exc.stable_id is None,
    ensures
        covers(exc, from_ctx, to_ctx, from_role, to_role, ids),
{
}

/// Every field that an exception gives must match: where it covers an edge, each of them is
/// what the edge has.
pub proof fn given_fields_must_match(
    exc: ViolationExceptionView,
    from_ctx: Seq<char>,
    to_ctx: Seq<char>,
    from_role: Seq<char>,
    to_role: Seq<char>,
    ids: Option<(Seq<char>, Seq<char>)>,
)
    requires
        covers(exc, from_ctx, to_ctx, from_role, to_role, ids),
    ensures
        exc.from_context is Some ==> exc.from_context == Some(from_ctx),
        exc.to_context is Some ==> exc.to_context == Some(to_ctx),
        exc.from_role is Some ==> exc.from_role == Some(from_role),
        exc.to_role is Some ==> exc.to_role == Some(to_role),
        exc.stable_id is Some ==> (ids matches Some(ends) && (exc.stable_id == Some(ends.0)
            || exc.stable_id == Some(ends.1))),
{
}

/// The context of a file is the first directory of its path, and `root` where that is `src`.
pub proof fn contexts_are_first_directories(dir: Seq<char>, rest: Seq<char>)
    requires
        forall|i: int| 0 <= i < dir.len() ==> dir[i] != '/',
        dir.len() > 0,
        dir[0] != '.',
    ensures
        context_of(dir + "/"@ + rest) == if dir == "src"@ {
            "root"@
        } else {
            dir
        },
        context_of("./"@ + (dir + "/"@ + rest)) == context_of(dir + "/"@ + rest),
{
    reveal_strlit("./");
    reveal_strlit("/");
    let path = dir + "/"@ + rest;
    assert(path[0] == dir[0]);
    if begins_with(path, "./"@) {
        assert(path.take(2)[0] == '.');
    }
    crate::text::next_char_is_least(path, '/', 0);
    assert(path[dir.len() as int] == '/');
    let k = crate::text::next_char(path, '/', 0);
    if k < dir.len() {
        assert(path[k] == dir[k]);
    }
    assert(k == dir.len());
    assert(path.take(k) =~= dir);
    assert(split_at_char(path, '/')[0] == dir);
    let dotted = "./"@ + path;
    assert(dotted.take(2) =~= "./"@);
    assert(dotted.skip(2) =~= path);
    reveal_with_fuel(trimmed_of, 3);
}

/// A file is a test file where it lies in a directory `tests`, or its name ends as those of
/// tests do.
pub proof fn test_files_are_known(before: Seq<char>, after: Seq<char>)
    requires
        before.len() > 0,
        before[0] != '.',
        after.len() > 0,
    ensures
        test_path("tests/"@ + after),
        test_path(before + "/tests/"@ + after),
        test_path(before + "_test.rs"@),
        test_path(before + "_tests.rs"@),
{
    reveal_strlit("./");
    reveal_strlit("tests/");
    reveal_strlit("/tests/");
    reveal_strlit("_test.rs");
    reveal_strlit("_tests.rs");
    let a = "tests/"@ + after;
    if begins_with(a, "./"@) {
        assert(a.take(2)[0] == 't');
    }
    assert(a.take(6) =~= "tests/"@);
    let b = before + "/tests/"@ + after;
    if begins_with(b, "./"@) {
        assert(b.take(2)[0] == before[0]);
    }
    let n = before.len() as int;
    assert(b.subrange(n, n + 7) =~= "/tests/"@);
    assert(crate::text::occurs_at(b, "/tests/"@, n));
    let c = before + "_test.rs"@;
    if begins_with(c, "./"@) {
        assert(c.take(2)[0] == before[0]);
    }
    assert(c.skip(n) =~= "_test.rs"@);
    let d = before + "_tests.rs"@;
    if begins_with(d, "./"@) {
        assert(d.take(2)[0] == before[0]);
    }
    assert(d.skip(n) =~= "_tests.rs"@);
}

/// No other file is a test file.
pub proof fn other_files_are_no_tests(path: Seq<char>)
    requires
        test_path(path),
    ensures
        ({
            let p = plain_path(path);
            begins_with(p, "tests/"@) || has_str(p, "/tests/"@) || finishes_with(p, "_test.rs"@)
                || finishes_with(p, "_tests.rs"@)
        }),
{
}

/// The reason of a forbidden coupling is that of the first rule on both contexts, between the
/// names of the contexts.
pub proof fn first_rule_gives_the_reason(
    from_ctx: Seq<char>,
    to_ctx: Seq<char>,
    rules: Seq<ViolationRuleView>,
    k: int,
)
    requires
        from_ctx != to_ctx,
        0 <= k < rules.len(),
        rules[k].from_context == from_ctx,
        rules[k].to_context == to_ctx,
        forall|j: int|
            0 <= j < k ==> (#[trigger] rules[j]).from_context != from_ctx || rules[j].to_context
                != to_ctx,
    ensures
        coupling_reason(from_ctx, to_ctx, rules) == Some(
            from_ctx + " \u{2192} "@ + to_ctx + " ("@ + (match rules[k].reason {
                Some(r) => r,
                None => "context coupling"@,
            }) + ")"@,
        ),
{
    rule_for_is_first(rules, from_ctx, to_ctx, 0, k);
}

proof fn rule_for_is_first(
    rules: Seq<ViolationRuleView>,
    from_ctx: Seq<char>,
    to_ctx: Seq<char>,
    i: int,
    k: int,
)
    requires
        0 <= i <= k < rules.len(),
        rules[k].from_context == from_ctx,
        rules[k].to_context == to_ctx,
        forall|j: int|
            i <= j < k ==> (#[trigger] rules[j]).from_context != from_ctx || rules[j].to_context
                != to_ctx,
    ensures
        rule_for(rules, from_ctx, to_ctx, i) == Some(k),
    decreases k - i,
{
    if i < k {
        assert(rules[i].from_context != from_ctx || rules[i].to_context != to_ctx);
        rule_for_is_first(rules, from_ctx, to_ctx, i + 1, k);
    }
}

/// The exception is meant for an edge: each field that it gives is what the edge has, the
/// stable id being that of either end.
pub open spec fn meant_for(
    exc: ViolationExceptionView,
    from_ctx: Seq<char>,
    to_ctx: Seq<char>,
    from_role: Seq<char>,
    to_role: Seq<char>,
    from_id: Seq<char>,
    to_id: Seq<char>,
) -> bool {
    &&& exc.from_context is None || exc.from_context == Some(from_ctx)
    &&& exc.to_context is None || exc.to_context == Some(to_ctx)
    &&& exc.from_role is None || exc.from_role == Some(from_role)
    &&& exc.to_role is None || exc.to_role == Some(to_role)
    &&& exc.stable_id is None || exc.stable_id == Some(from_id) || exc.stable_id == Some(to_id)
}

/// An edge is suppressed exactly where some exception is meant for it, for the reason that the
/// first such exception gives.
pub proof fn exceptions_suppress(
    from_ctx: Seq<char>,
    to_ctx: Seq<char>,
    from_role: Seq<char>,
    to_role: Seq<char>,
    from_id: Seq<char>,
    to_id: Seq<char>,
    exceptions: Seq<ViolationExceptionView>,
    i: int,
)
    requires
        0 <= i <= exceptions.len(),
    ensures
        match covering_reason(
            from_ctx,
            to_ctx,
            from_role,
            to_role,
            Some((from_id, to_id)),
            exceptions,
            i,
        ) {
            Some(r) => exists|k: int|
                {
                    &&& i <= k < exceptions.len()
                    &&& meant_for(
                        #[trigger] exceptions[k],
                        from_ctx,
                        to_ctx,
                        from_role,
                        to_role,
                        from_id,
                        to_id,
                    )
                    &&& r == (match exceptions[k].reason {
                        Some(t) => t,
                        None => "suppressed"@,
                    })
                    &&& forall|j: int|
                        i <= j < k ==> !meant_for(
                            #[trigger] exceptions[j],
                            from_ctx,
                            to_ctx,
                            from_role,
                            to_role,
                            from_id,
                            to_id,
                        )
                },
            None => forall|k: int|
                i <= k < exceptions.len() ==> !meant_for(
                    #[trigger] exceptions[k],
                    from_ctx,
                    to_ctx,
                    from_role,
                    to_role,
                    from_id,
                    to_id,
                ),
        },
    decreases exceptions.len() - i,
{
    if i < exceptions.len() {
        exceptions_suppress(
            from_ctx,
            to_ctx,
            from_role,
            to_role,
            from_id,
            to_id,
            exceptions,
            i + 1,
        );
        if meant_for(exceptions[i], from_ctx, to_ctx, from_role, to_role, from_id, to_id) {
            assert(exceptions[i] == exceptions[i]);
        } else if let Some(r) = covering_reason(
            from_ctx,
            to_ctx,
            from_role,
            to_role,
            Some((from_id, to_id)),
            exceptions,
            i + 1,
        ) {
            let k = choose|k: int|
                {
                    &&& i + 1 <= k < exceptions.len()
                    &&& meant_for(
                        #[trigger] exceptions[k],
                        from_ctx,
                        to_ctx,
                        from_role,
                        to_role,
                        from_id,
                        to_id,
                    )
                    &&& r == (match exceptions[k].reason {
                        Some(t) => t,
                        None => "suppressed"@,
                    })
                    &&& forall|j: int|
                        i + 1 <= j < k ==> !meant_for(
                            #[trigger] exceptions[j],
                            from_ctx,
                            to_ctx,
                            from_role,
                            to_role,
                            from_id,
                            to_id,
                        )
                };
            assert(meant_for(exceptions[k], from_ctx, to_ctx, from_role, to_role, from_id, to_id));
        }
    }
}

} // verus!
