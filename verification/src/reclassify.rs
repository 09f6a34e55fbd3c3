//! Roles that were set by hand.

use vstd::prelude::*;

use crate::capabilities::{pad, padded};
use crate::model::{or_text, text_or, views, Dup};
use crate::text::{concat2, concat3, str_eq};

verus! {

broadcast use crate::model::group_views;

/// What is asked: to set the role of a symbol, and why.
#[derive(Debug)]
pub struct SetParams {
    pub symbol: String,
    pub role: String,
    pub reason: Option<String>,
}

/// What a [`SetParams`] holds.
#[verifier::ext_equal]
pub struct SetParamsView {
    pub symbol: Seq<char>,
    pub role: Seq<char>,
    pub reason: Option<Seq<char>>,
}

impl DeepView for SetParams {
    type V = SetParamsView;

    open spec fn deep_view(&self) -> SetParamsView {
        SetParamsView {
            symbol: self.symbol.deep_view(),
            role: self.role.deep_view(),
            reason: self.reason.deep_view(),
        }
    }
}

impl View for SetParams {
    type V = SetParamsView;

    open spec fn view(&self) -> SetParamsView {
        self.deep_view()
    }
}

/// A role that is kept for a stable id, and what is said of it.
#[derive(Debug)]
pub struct Override {
    pub stable_id: String,
    pub role: String,
    pub reason: Option<String>,
    pub message: String,
}

/// What a [`Override`] holds.
#[verifier::ext_equal]
pub struct OverrideView {
    pub stable_id: Seq<char>,
    pub role: Seq<char>,
    pub reason: Option<Seq<char>>,
    pub message: Seq<char>,
}

impl DeepView for Override {
    type V = OverrideView;

    open spec fn deep_view(&self) -> OverrideView {
        OverrideView {
            stable_id: self.stable_id.deep_view(),
            role: self.role.deep_view(),
            reason: self.reason.deep_view(),
            message: self.message.deep_view(),
        }
    }
}

impl View for Override {
    type V = OverrideView;

    open spec fn view(&self) -> OverrideView {
        self.deep_view()
    }
}

/// Set the role of a symbol by its stable id, so that it outlives indexing. A symbol without a
/// stable id cannot be remembered.
pub fn set(params: &SetParams, stable_id: &str) -> (r: Result<Override, &'static str>)
    ensures
        if stable_id@.len() == 0 {
            r matches Err(m) && m@
                == "Symbol has no stable_id — cannot create a persistent override"@
        } else {
            r matches Ok(o) && o@ == (OverrideView {
                stable_id: stable_id@,
                role: params@.role,
                reason: params@.reason,
                message: "Override set: "@ + stable_id@ + " → "@ + params@.role,
            })
        },
{
    if stable_id.is_empty() {
        return Err("Symbol has no stable_id — cannot create a persistent override");
    }
    let mut message = concat3("Override set: ", stable_id, " → ");
    message.append(&params.role);
    Ok(
        Override {
            stable_id: stable_id.to_owned(),
            role: params.role.dup(),
            reason: params.reason.dup(),
            message,
        },
    )
}

/// Forget the role of a symbol that was set by hand: what is said of it, by how many were
/// forgotten.
pub fn clear(stable_id: &str, removed: usize) -> (r: String)
    ensures
        r@ == if removed == 0 {
            "No override found for "@ + stable_id@
        } else {
            "Override cleared: "@ + stable_id@
        },
{
    if removed == 0 {
        concat2("No override found for ", stable_id)
    } else {
        concat2("Override cleared: ", stable_id)
    }
}

/// A role that was set by hand: the symbol's stable id, the role, why, and the role that the
/// symbol has at present, if it is there.
#[derive(Debug)]
pub struct OverrideRow {
    pub stable_id: String,
    pub role: String,
    pub reason: Option<String>,
    pub current_role: Option<String>,
}

/// What a [`OverrideRow`] holds.
#[verifier::ext_equal]
pub struct OverrideRowView {
    pub stable_id: Seq<char>,
    pub role: Seq<char>,
    pub reason: Option<Seq<char>>,
    pub current_role: Option<Seq<char>>,
}

impl DeepView for OverrideRow {
    type V = OverrideRowView;

    open spec fn deep_view(&self) -> OverrideRowView {
        OverrideRowView {
            stable_id: self.stable_id.deep_view(),
            role: self.role.deep_view(),
            reason: self.reason.deep_view(),
            current_role: self.current_role.deep_view(),
        }
    }
}

impl View for OverrideRow {
    type V = OverrideRowView;

    open spec fn view(&self) -> OverrideRowView {
        self.deep_view()
    }
}

/// `n` dashes.
pub open spec fn dashes(n: int) -> Seq<char>
    decreases n,
{
    if n <= 0 {
        Seq::empty()
    } else {
        dashes(n - 1).push('-')
    }
}

/// The table with the first `n` roles that were set by hand.
pub open spec fn override_table(rows: Seq<OverrideRowView>, n: int) -> Seq<char>
    decreases n,
{
    if n <= 0 {
        padded("stable_id"@, 60) + " "@ + padded("override"@, 15) + " "@ + padded("current"@, 15)
            + " reason\n"@ + dashes(110) + "\n"@
    } else {
        let row = rows[n - 1];
        override_table(rows, n - 1) + padded(row.stable_id, 60) + " "@ + padded(row.role, 15)
            + " "@ + padded(or_text(row.current_role, "(not found)"@), 15) + " "@ + or_text(
            row.reason,
            ""@,
        ) + "\n"@
    }
}

/// List the roles that were set by hand.
pub fn list(rows: &Vec<OverrideRow>) -> (r: String)
    ensures
        r@ == if rows@.len() == 0 {
            "No role overrides set.\n"@
        } else {
            override_table(views(rows@), rows@.len() as int)
        },
{
    if rows.len() == 0 {
        return "No role overrides set.\n".to_owned();
    }
    let mut line = String::new();
    let mut k: usize = 0;
    while k < 110
        invariant
            k <= 110,
            line@ == dashes(k as int),
        decreases 110 - k,
    {
        line.push('-');
        k = k + 1;
    }
    let mut out = concat3(&pad("stable_id", 60), " ", &pad("override", 15));
    out.append(" ");
    out.append(&pad("current", 15));
    out.append(" reason\n");
    out.append(&line);
    out.append("\n");
    let mut n: usize = 0;
    while n < rows.len()
        invariant
            n <= rows@.len(),
            out@ == override_table(views(rows@), n as int),
        decreases rows@.len() - n,
    {
        let row = &rows[n];
        assert(views(rows@)[n as int] == row@);
        out.append(&pad(&row.stable_id, 60));
        out.append(" ");
        out.append(&pad(&row.role, 15));
        out.append(" ");
        out.append(&pad(&text_or(&row.current_role, "(not found)"), 15));
        out.append(" ");
        out.append(&text_or(&row.reason, ""));
        out.append("\n");
        n = n + 1;
    }
    out
}

/// The first role from `i` on that was set for the stable id.
pub open spec fn role_set_for(rows: Seq<OverrideRowView>, stable_id: Seq<char>, i: int) -> Option<
    Seq<char>,
>
    decreases rows.len() - i,
{
    if i < 0 || i >= rows.len() {
        None
    } else if rows[i].stable_id == stable_id {
        Some(rows[i].role)
    } else {
        role_set_for(rows, stable_id, i + 1)
    }
}

/// The roles of those of the first `n` symbols that had one set by hand.
pub open spec fn roles_kept(
    nodes: Seq<(i64, Seq<char>)>,
    rows: Seq<OverrideRowView>,
    n: int,
) -> Seq<(i64, Seq<char>)>
    decreases n,
{
    if n <= 0 {
        Seq::empty()
    } else {
        let rest = roles_kept(nodes, rows, n - 1);
        match role_set_for(rows, nodes[n - 1].1, 0) {
            Some(role) => rest.push((nodes[n - 1].0, role)),
            None => rest,
        }
    }
}

fn find_role<'a>(rows: &'a Vec<OverrideRow>, stable_id: &str) -> (r: Option<&'a String>)
    ensures
        match r {
            Some(role) => role_set_for(views(rows@), stable_id@, 0) == Some(role@),
            None => role_set_for(views(rows@), stable_id@, 0) is None,
        },
{
    let mut i: usize = 0;
    while i < rows.len()
        invariant
            i <= rows@.len(),
            role_set_for(views(rows@), stable_id@, 0) == role_set_for(
                views(rows@),
                stable_id@,
                i as int,
            ),
        decreases rows@.len() - i,
    {
        assert(views(rows@)[i as int] == rows@[i as int]@);
        if str_eq(&rows[i].stable_id, stable_id) {
            return Some(&rows[i].role);
        }
        i = i + 1;
    }
    None
}

/// Give symbols the roles that were set by hand for their stable ids. `nodes` are the symbols
/// with their stable ids; those without such a role are left out.
pub fn apply_overrides(nodes: &Vec<(i64, String)>, rows: &Vec<OverrideRow>) -> (r: Vec<
    (i64, String),
>)
    ensures
        views(r@) == roles_kept(views(nodes@), views(rows@), nodes@.len() as int),
{
    let ghost rv = views(rows@);
    let mut out: Vec<(i64, String)> = Vec::new();
    let mut n: usize = 0;
    while n < nodes.len()
        invariant
            n <= nodes@.len(),
            rv == views(rows@),
            views(out@) == roles_kept(views(nodes@), rv, n as int),
        decreases nodes@.len() - n,
    {
        assert(views(nodes@)[n as int] == (nodes@[n as int].0, nodes@[n as int].1@));
        if let Some(role) = find_role(rows, &nodes[n].1) {
            out.push((nodes[n].0, role.dup()));
        }
        n = n + 1;
    }
    out
}

proof fn role_is_found(rows: Seq<OverrideRowView>, stable_id: Seq<char>, i: int)
    requires
        0 <= i,
    ensures
        match role_set_for(rows, stable_id, i) {
            Some(role) => exists|k: int|
                i <= k < rows.len() && (#[trigger] rows[k]).stable_id == stable_id && rows[k].role
                    == role,
            None => forall|k: int|
                i <= k < rows.len() ==> (#[trigger] rows[k]).stable_id != stable_id,
        },
    decreases rows.len() - i,
{
    if i < rows.len() && rows[i].stable_id != stable_id {
        role_is_found(rows, stable_id, i + 1);
    }
}

/// A role that was set by hand outlives indexing: every symbol with its stable id has it again,
/// whatever the symbol's id has become.
pub proof fn set_roles_outlive_indexing(
    nodes: Seq<(i64, Seq<char>)>,
    rows: Seq<OverrideRowView>,
    i: int,
    k: int,
    n: int,
)
    requires
        0 <= i < n <= nodes.len(),
        0 <= k < rows.len(),
        nodes[i].1 == rows[k].stable_id,
        forall|a: int, b: int|
            0 <= a < b < rows.len() ==> (#[trigger] rows[a]).stable_id != (
            #[trigger] rows[b]).stable_id,
    ensures
        roles_kept(nodes, rows, n).contains((nodes[i].0, rows[k].role)),
    decreases n,
{
    let rest = roles_kept(nodes, rows, n - 1);
    let all = roles_kept(nodes, rows, n);
    let kept = (nodes[i].0, rows[k].role);
    role_is_found(rows, nodes[n - 1].1, 0);
    if i < n - 1 {
        set_roles_outlive_indexing(nodes, rows, i, k, n - 1);
        let j = choose|j: int| 0 <= j < rest.len() && rest[j] == kept;
        assert(all[j] == kept);
    } else {
        assert(rows[k].stable_id == nodes[n - 1].1);
        let role = role_set_for(rows, nodes[n - 1].1, 0)->0;
        let found = choose|f: int|
            0 <= f < rows.len() && (#[trigger] rows[f]).stable_id == nodes[n - 1].1 && rows[f].role
                == role;
        if found < k {
            assert(rows[found].stable_id != rows[k].stable_id);
        } else if k < found {
            assert(rows[k].stable_id != rows[found].stable_id);
        }
        assert(all[rest.len() as int] == kept);
    }
}

/// No other symbol is given a role: each one that is has a stable id that a role was set for,
/// and gets that role.
pub proof fn other_roles_are_left(
    nodes: Seq<(i64, Seq<char>)>,
    rows: Seq<OverrideRowView>,
    j: int,
    n: int,
)
    requires
        0 <= n <= nodes.len(),
        0 <= j < roles_kept(nodes, rows, n).len(),
    ensures
        exists|i: int, k: int|
            0 <= i < n && 0 <= k < rows.len() && (#[trigger] nodes[i]).1 == (
            #[trigger] rows[k]).stable_id && roles_kept(nodes, rows, n)[j] == (
                nodes[i].0,
                rows[k].role,
            ),
    decreases n,
{
    let rest = roles_kept(nodes, rows, n - 1);
    role_is_found(rows, nodes[n - 1].1, 0);
    if j < rest.len() {
        other_roles_are_left(nodes, rows, j, n - 1);
        let (i, k) = choose|i: int, k: int|
            0 <= i < n - 1 && 0 <= k < rows.len() && (#[trigger] nodes[i]).1 == (
            #[trigger] rows[k]).stable_id && rest[j] == (nodes[i].0, rows[k].role);
        assert(nodes[i].1 == rows[k].stable_id);
    } else {
        let role = role_set_for(rows, nodes[n - 1].1, 0)->0;
        let k = choose|k: int|
            0 <= k < rows.len() && (#[trigger] rows[k]).stable_id == nodes[n - 1].1 && rows[k].role
                == role;
        assert(nodes[n - 1].1 == rows[k].stable_id);
    }
}

/// The role that is set for a symbol is the one in the first row with its identity; without a
/// row none is set.
pub proof fn first_row_sets_the_role(rows: Seq<OverrideRowView>, stable_id: Seq<char>, i: int)
    requires
        0 <= i <= rows.len(),
    ensures
        role_set_for(rows, stable_id, i) is None <==> forall|j: int|
            i <= j < rows.len() ==> (#[trigger] rows[j]).stable_id != stable_id,
        role_set_for(rows, stable_id, i) matches Some(role) ==> exists|k: int|
            i <= k < rows.len() && (#[trigger] rows[k]).stable_id == stable_id && rows[k].role
                == role && forall|j: int|
                i <= j < k ==> (#[trigger] rows[j]).stable_id != stable_id,
    decreases rows.len() - i,
{
    if i < rows.len() {
        first_row_sets_the_role(rows, stable_id, i + 1);
        if rows[i].stable_id == stable_id {
            assert(rows[i].role == role_set_for(rows, stable_id, i)->0);
        }
    }
}

/// A table of roles goes on with a line for each row: the symbol, the role that is set, the
/// role that it has, and the reason.
pub proof fn each_row_has_a_line(rows: Seq<OverrideRowView>, n: int)
    requires
        0 < n <= rows.len(),
    ensures
        ({
            let row = rows[n - 1];
            let current = if row.current_role is Some {
                row.current_role->0
            } else {
                "(not found)"@
            };
            let reason = if row.reason is Some {
                row.reason->0
            } else {
                ""@
            };
            override_table(rows, n) == override_table(rows, n - 1) + (padded(row.stable_id, 60)
                + " "@ + padded(row.role, 15) + " "@ + padded(current, 15) + " "@ + reason + "\n"@)
        }),
{
    let row = rows[n - 1];
    let current = or_text(row.current_role, "(not found)"@);
    let reason = or_text(row.reason, ""@);
    assert(override_table(rows, n) =~= override_table(rows, n - 1) + (padded(row.stable_id, 60)
        + " "@ + padded(row.role, 15) + " "@ + padded(current, 15) + " "@ + reason + "\n"@));
}

} // verus!
