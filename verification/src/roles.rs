//! The roles of symbols, inferred from how they are connected.

use vstd::prelude::*;

use crate::arch::{is_test_file, test_path};
use crate::model::{views, Dup};
use crate::order::{distinct_keys, key_set};
use crate::text::{ascii_lower, begins_with, starts_with, str_eq, to_ascii_lowercase};

verus! {

broadcast use crate::model::group_views;

/// How a symbol is connected: how many edges lead to it and from it, how many of its callees
/// do input or output by their names, and how many files its callers and callees are in.
#[derive(Debug)]
pub struct NodeMetrics {
    pub id: i64,
    pub kind: String,
    pub visibility: String,
    pub file: String,
    pub name: String,
    pub fan_in: i64,
    pub fan_out: i64,
    pub io_call_count: i64,
    pub caller_file_spread: i64,
    pub callee_file_spread: i64,
}

/// What a [`NodeMetrics`] holds.
#[verifier::ext_equal]
pub struct NodeMetricsView {
    pub id: i64,
    pub kind: Seq<char>,
    pub visibility: Seq<char>,
    pub file: Seq<char>,
    pub name: Seq<char>,
    pub fan_in: i64,
    pub fan_out: i64,
    pub io_call_count: i64,
    pub caller_file_spread: i64,
    pub callee_file_spread: i64,
}

impl DeepView for NodeMetrics {
    type V = NodeMetricsView;

    open spec fn deep_view(&self) -> NodeMetricsView {
        NodeMetricsView {
            id: self.id.deep_view(),
            kind: self.kind.deep_view(),
            visibility: self.visibility.deep_view(),
            file: self.file.deep_view(),
            name: self.name.deep_view(),
            fan_in: self.fan_in.deep_view(),
            fan_out: self.fan_out.deep_view(),
            io_call_count: self.io_call_count.deep_view(),
            caller_file_spread: self.caller_file_spread.deep_view(),
            callee_file_spread: self.callee_file_spread.deep_view(),
        }
    }
}

impl View for NodeMetrics {
    type V = NodeMetricsView;

    open spec fn view(&self) -> NodeMetricsView {
        self.deep_view()
    }
}

/// A symbol whose role is to be inferred, with the number of edges that lead to it and from
/// it.
#[derive(Debug)]
pub struct RoleNode {
    pub id: i64,
    pub kind: String,
    pub visibility: String,
    pub file: String,
    pub name: String,
    pub fan_in: i64,
    pub fan_out: i64,
}

/// What a [`RoleNode`] holds.
#[verifier::ext_equal]
pub struct RoleNodeView {
    pub id: i64,
    pub kind: Seq<char>,
    pub visibility: Seq<char>,
    pub file: Seq<char>,
    pub name: Seq<char>,
    pub fan_in: i64,
    pub fan_out: i64,
}

impl DeepView for RoleNode {
    type V = RoleNodeView;

    open spec fn deep_view(&self) -> RoleNodeView {
        RoleNodeView {
            id: self.id.deep_view(),
            kind: self.kind.deep_view(),
            visibility: self.visibility.deep_view(),
            file: self.file.deep_view(),
            name: self.name.deep_view(),
            fan_in: self.fan_in.deep_view(),
            fan_out: self.fan_out.deep_view(),
        }
    }
}

impl View for RoleNode {
    type V = RoleNodeView;

    open spec fn view(&self) -> RoleNodeView {
        self.deep_view()
    }
}

/// A symbol of that name does input or output: its name begins with, or is, a word for it.
pub open spec fn io_name(name: Seq<char>) -> bool {
    let n = ascii_lower(name);
    ||| begins_with(n, "open"@)
    ||| begins_with(n, "read"@)
    ||| begins_with(n, "write"@)
    ||| begins_with(n, "query"@)
    ||| begins_with(n, "execute"@)
    ||| begins_with(n, "connect"@)
    ||| begins_with(n, "send"@)
    ||| begins_with(n, "recv"@)
    ||| begins_with(n, "fetch"@)
    ||| name == "spawn"@
    ||| name == "init_db"@
    ||| name == "open_db"@
}

/// Whether a symbol of that name does input or output.
pub fn is_io_name(name: &str) -> (r: bool)
    ensures
        r == io_name(name@),
{
    let n = to_ascii_lowercase(name);
    starts_with(&n, "open") || starts_with(&n, "read") || starts_with(&n, "write") || starts_with(
        &n,
        "query",
    ) || starts_with(&n, "execute") || starts_with(&n, "connect") || starts_with(&n, "send")
        || starts_with(&n, "recv") || starts_with(&n, "fetch") || str_eq(name, "spawn") || str_eq(
        name,
        "init_db",
    ) || str_eq(name, "open_db")
}

/// How many of the first `n` names are names of symbols that do input or output.
pub open spec fn io_names(names: Seq<Seq<char>>, n: int) -> nat
    decreases n,
{
    if n <= 0 {
        0
    } else {
        io_names(names, n - 1) + if io_name(names[n - 1]) {
            1nat
        } else {
            0nat
        }
    }
}

/// How a symbol is connected, given the names of the symbols that it calls, and the files
/// that those and its callers are in, one for each edge.
pub open spec fn measured(
    node: RoleNodeView,
    callees: Seq<Seq<char>>,
    callee_files: Seq<Seq<char>>,
    caller_files: Seq<Seq<char>>,
) -> NodeMetricsView {
    NodeMetricsView {
        id: node.id,
        kind: node.kind,
        visibility: node.visibility,
        file: node.file,
        name: node.name,
        fan_in: node.fan_in,
        fan_out: node.fan_out,
        io_call_count: io_names(callees, callees.len() as int) as i64,
        caller_file_spread: key_set::<String>(caller_files).len() as i64,
        callee_file_spread: key_set::<String>(callee_files).len() as i64,
    }
}

/// How a symbol is connected: how many of the symbols that it calls do input or output, and
/// how many files they and its callers are in.
pub fn measure(
    node: &RoleNode,
    callees: &Vec<String>,
    callee_files: &Vec<String>,
    caller_files: &Vec<String>,
) -> (r: NodeMetrics)
    ensures
        r@ == measured(node@, views(callees@), views(callee_files@), views(caller_files@)),
{
    let ghost names = views(callees@);
    let mut io: usize = 0;
    let mut n: usize = 0;
    while n < callees.len()
        invariant
            names == views(callees@),
            names.len() == callees@.len(),
            io <= n <= callees@.len(),
            io == io_names(names, n as int),
        decreases callees@.len() - n,
    {
        assert(names[n as int] == callees@[n as int]@);
        if is_io_name(&callees[n]) {
            io = io + 1;
        }
        n = n + 1;
    }
    let callers = distinct_keys(caller_files);
    let called = distinct_keys(callee_files);
    assert(views(callers@).len() == callers@.len());
    assert(views(called@).len() == called@.len());
    NodeMetrics {
        id: node.id,
        kind: node.kind.dup(),
        visibility: node.visibility.dup(),
        file: node.file.dup(),
        name: node.name.dup(),
        fan_in: node.fan_in,
        fan_out: node.fan_out,
        io_call_count: io as i64,
        caller_file_spread: callers.len() as i64,
        callee_file_spread: called.len() as i64,
    }
}

/// How sure a role is, as a number to be worked out: `base` in hundredths, plus a tenth of
/// how far the share `count / total` lies above four fifths on the way to one where a share
/// is given, times the penalty for small projects where `penalised`.
#[derive(Clone, Copy, PartialEq, Eq, Structural, Debug)]
pub struct Confidence {
    pub base: u32,
    pub share: Option<Share>,
    pub penalised: bool,
}

/// A share of a whole.
#[derive(Clone, Copy, PartialEq, Eq, Structural, Debug)]
pub struct Share {
    pub count: usize,
    pub total: usize,
}

/// How many of the first `n` values are at most `value`.
pub open spec fn count_up_to(values: Seq<i64>, value: i64, n: int) -> nat
    decreases n,
{
    if n <= 0 {
        0
    } else {
        count_up_to(values, value, n - 1) + if values[n - 1] <= value {
            1nat
        } else {
            0nat
        }
    }
}

/// The share of the values that are at most `value`.
pub open spec fn rank_in(values: Seq<i64>, value: i64) -> Share {
    Share {
        count: count_up_to(values, value, values.len() as int) as usize,
        total: values.len() as usize,
    }
}

/// The share of the values that are at most `value`.
pub fn percentile_rank(value: i64, values: &Vec<i64>) -> (r: Share)
    ensures
        r == rank_in(values@, value),
        r.count == count_up_to(values@, value, values@.len() as int),
        r.count <= r.total,
        r.total == values@.len(),
{
    let mut count: usize = 0;
    let mut n: usize = 0;
    while n < values.len()
        invariant
            count <= n <= values@.len(),
            count == count_up_to(values@, value, n as int),
        decreases values@.len() - n,
    {
        if values[n] <= value {
            count = count + 1;
        }
        n = n + 1;
    }
    Share { count, total: values.len() }
}

/// The share is at least `num / den`; an empty whole has no share.
pub open spec fn at_least(s: Share, num: int, den: int) -> bool {
    s.total > 0 && den * s.count >= num * s.total
}

fn reaches(s: Share, num: u8, den: u8) -> (r: bool)
    requires
        s.count <= s.total,
    ensures
        r == at_least(s, num as int, den as int),
{
    let a: u128 = s.count as u128;
    let b: u128 = s.total as u128;
    assert(den * a <= 255 * a) by (nonlinear_arith)
        requires
            den <= 255,
    ;
    assert(num * b <= 255 * b) by (nonlinear_arith)
        requires
            num <= 255,
    ;
    s.total > 0 && den as u128 * a >= num as u128 * b
}

/// A sure confidence, in hundredths.
pub open spec fn sure(base: u32) -> Confidence {
    Confidence { base, share: None, penalised: false }
}

/// A confidence that small projects lessen.
pub open spec fn relative(base: u32) -> Confidence {
    Confidence { base, share: None, penalised: true }
}

/// A confidence that grows with a share and that small projects lessen.
pub open spec fn growing(base: u32, s: Share) -> Confidence {
    Confidence { base, share: Some(s), penalised: true }
}

/// The kinds of symbols that define data.
pub open spec fn data_kind(kind: Seq<char>) -> bool {
    kind == "struct"@ || kind == "enum"@ || kind == "type"@ || kind == "interface"@ || kind
        == "const"@
}

/// The role of a symbol, and how sure it is.
pub open spec fn role_of(n: NodeMetricsView, fan_outs: Seq<i64>, fan_ins: Seq<i64>) -> (
    Seq<char>,
    Confidence,
) {
    let out = rank_in(fan_outs, n.fan_out);
    let into = rank_in(fan_ins, n.fan_in);
    if test_path(n.file) {
        ("test"@, sure(95))
    } else if n.fan_in == 0 && n.kind == "fn"@ && n.visibility != "pub"@ && begins_with(
        n.name,
        "test_"@,
    ) {
        ("test"@, sure(75))
    } else if data_kind(n.kind) {
        ("model"@, sure(if n.fan_out == 0 { 95 } else { 75 }))
    } else if n.fan_out == 0 {
        ("leaf"@, sure(90))
    } else if n.fan_in == 0 && n.visibility == "pub"@ {
        ("entrypoint"@, sure(85))
    } else if n.io_call_count > 0 {
        ("infra"@, relative(80))
    } else if at_least(out, 4, 5) && n.callee_file_spread >= 2 {
        ("orchestrator"@, growing(70, out))
    } else if at_least(into, 4, 5) {
        if n.caller_file_spread >= 2 {
            ("utility"@, growing(65, into))
        } else {
            ("domain"@, growing(55, into))
        }
    } else if at_least(into, 1, 2) {
        ("domain"@, relative(45))
    } else {
        ("domain"@, relative(30))
    }
}

/// The role of a symbol, and how sure it is.
pub fn classify(node: &NodeMetrics, fan_outs: &Vec<i64>, fan_ins: &Vec<i64>) -> (r: (
    &'static str,
    Confidence,
))
    ensures
        (r.0@, r.1) == role_of(node@, fan_outs@, fan_ins@),
{
    if is_test_file(&node.file) {
        return ("test", Confidence { base: 95, share: None, penalised: false });
    }
    if node.fan_in == 0 && str_eq(&node.kind, "fn") && !str_eq(&node.visibility, "pub")
        && starts_with(&node.name, "test_") {
        return ("test", Confidence { base: 75, share: None, penalised: false });
    }
    let out = percentile_rank(node.fan_out, fan_outs);
    let into = percentile_rank(node.fan_in, fan_ins);
    if str_eq(&node.kind, "struct") || str_eq(&node.kind, "enum") || str_eq(&node.kind, "type")
        || str_eq(&node.kind, "interface") || str_eq(&node.kind, "const") {
        let base: u32 = if node.fan_out == 0 {
            95
        } else {
            75
        };
        return ("model", Confidence { base, share: None, penalised: false });
    }
    if node.fan_out == 0 {
        return ("leaf", Confidence { base: 90, share: None, penalised: false });
    }
    if node.fan_in == 0 && str_eq(&node.visibility, "pub") {
        return ("entrypoint", Confidence { base: 85, share: None, penalised: false });
    }
    if node.io_call_count > 0 {
        return ("infra", Confidence { base: 80, share: None, penalised: true });
    }
    if reaches(out, 4, 5) && node.callee_file_spread >= 2 {
        return ("orchestrator", Confidence { base: 70, share: Some(out), penalised: true });
    }
    if reaches(into, 4, 5) {
        if node.caller_file_spread >= 2 {
            return ("utility", Confidence { base: 65, share: Some(into), penalised: true });
        }
        return ("domain", Confidence { base: 55, share: Some(into), penalised: true });
    }
    if reaches(into, 1, 2) {
        return ("domain", Confidence { base: 45, share: None, penalised: true });
    }
    ("domain", Confidence { base: 30, share: None, penalised: true })
}

/// The greatest of the first `n` values, at least 0.
pub open spec fn greatest(values: Seq<i64>, n: int) -> int
    decreases n,
{
    if n <= 0 {
        0
    } else if n == 1 || values[n - 1] > greatest(values, n - 1) {
        values[n - 1] as int
    } else {
        greatest(values, n - 1)
    }
}

fn greatest_of(values: &Vec<i64>) -> (r: i64)
    ensures
        r == greatest(values@, values@.len() as int),
{
    let mut best: i64 = 0;
    let mut n: usize = 0;
    while n < values.len()
        invariant
            n <= values@.len(),
            best == greatest(values@, n as int),
        decreases values@.len() - n,
    {
        if n == 0 || values[n] > best {
            best = values[n];
        }
        n = n + 1;
    }
    best
}

/// A role that was inferred for a symbol.
pub struct RoleUpdate {
    pub id: i64,
    pub role: &'static str,
    pub confidence: Confidence,
}

/// The roles of all symbols, and the greatest number of edges at one of them, which the
/// penalty for small projects is worked out from.
pub struct RoleUpdates {
    pub updates: Vec<RoleUpdate>,
    pub max_connectivity: i64,
}

/// The numbers of edges from the symbols.
pub open spec fn fan_outs_of(nodes: Seq<NodeMetricsView>) -> Seq<i64> {
    Seq::new(nodes.len(), |i: int| nodes[i].fan_out)
}

/// The numbers of edges to the symbols.
pub open spec fn fan_ins_of(nodes: Seq<NodeMetricsView>) -> Seq<i64> {
    Seq::new(nodes.len(), |i: int| nodes[i].fan_in)
}

/// The greater of two numbers.
pub open spec fn greater(a: int, b: int) -> int {
    if a > b {
        a
    } else {
        b
    }
}

/// Infer the roles of all symbols.
pub fn infer_roles(nodes: &Vec<NodeMetrics>) -> (r: RoleUpdates)
    ensures
        ({
            let outs = fan_outs_of(views(nodes@));
            let ins = fan_ins_of(views(nodes@));
            &&& r.updates@.len() == nodes@.len()
            &&& forall|i: int|
                0 <= i < nodes@.len() ==> (#[trigger] r.updates@[i]).id == nodes@[i].id && (
                    r.updates@[i].role@,
                    r.updates@[i].confidence,
                ) == role_of(nodes@[i]@, outs, ins)
            &&& r.max_connectivity == greater(
                greatest(outs, outs.len() as int),
                greatest(ins, ins.len() as int),
            )
        }),
{
    let ghost nv = views(nodes@);
    let mut outs: Vec<i64> = Vec::new();
    let mut ins: Vec<i64> = Vec::new();
    let mut n: usize = 0;
    while n < nodes.len()
        invariant
            nv == views(nodes@),
            n <= nodes@.len(),
            outs@ =~= fan_outs_of(nv).take(n as int),
            ins@ =~= fan_ins_of(nv).take(n as int),
        decreases nodes@.len() - n,
    {
        assert(nv[n as int] == nodes@[n as int]@);
        outs.push(nodes[n].fan_out);
        ins.push(nodes[n].fan_in);
        n = n + 1;
    }
    assert(outs@ =~= fan_outs_of(nv));
    assert(ins@ =~= fan_ins_of(nv));
    let mut updates: Vec<RoleUpdate> = Vec::new();
    let mut n: usize = 0;
    while n < nodes.len()
        invariant
            nv == views(nodes@),
            n <= nodes@.len(),
            outs@ == fan_outs_of(nv),
            ins@ == fan_ins_of(nv),
            updates@.len() == n,
            forall|i: int|
                0 <= i < n ==> (#[trigger] updates@[i]).id == nodes@[i].id && (
                    updates@[i].role@,
                    updates@[i].confidence,
                ) == role_of(nodes@[i]@, outs@, ins@),
        decreases nodes@.len() - n,
    {
        let (role, confidence) = classify(&nodes[n], &outs, &ins);
        updates.push(RoleUpdate { id: nodes[n].id, role, confidence });
        n = n + 1;
    }
    let a = greatest_of(&outs);
    let b = greatest_of(&ins);
    let max_connectivity = if a > b {
        a
    } else {
        b
    };
    RoleUpdates { updates, max_connectivity }
}

/// Test files are tests whatever their connections, and say so with the same certainty.
pub proof fn test_files_are_tests(n: NodeMetricsView, fan_outs: Seq<i64>, fan_ins: Seq<i64>)
    requires
        test_path(n.file),
    ensures
        role_of(n, fan_outs, fan_ins) == ("test"@, sure(95)),
{
}

/// Only a symbol that calls into at least two files is an orchestrator.
pub proof fn orchestrators_span_files(n: NodeMetricsView, fan_outs: Seq<i64>, fan_ins: Seq<i64>)
    requires
        role_of(n, fan_outs, fan_ins).0 == "orchestrator"@,
    ensures
        n.callee_file_spread >= 2,
{
    reveal_strlit("orchestrator");
    reveal_strlit("test");
    reveal_strlit("model");
    reveal_strlit("leaf");
    reveal_strlit("entrypoint");
    reveal_strlit("infra");
    reveal_strlit("utility");
    reveal_strlit("domain");
    assert("test"@.len() == 4 && "model"@.len() == 5 && "leaf"@.len() == 4 && "entrypoint"@.len()
        == 10 && "infra"@.len() == 5 && "utility"@.len() == 7 && "domain"@.len() == 6
        && "orchestrator"@.len() == 12);
}

// ---------------------------------------------------------------------------
// What roles say
// ---------------------------------------------------------------------------

/// The symbol is a function without callers that is not public and whose name says it is a
/// test.
pub open spec fn looks_like_test(n: NodeMetricsView) -> bool {
    n.fan_in == 0 && n.kind == "fn"@ && n.visibility != "pub"@ && begins_with(n.name, "test_"@)
}

proof fn kinds_of_data_differ()
    ensures
        "struct"@ != "fn"@,
        "enum"@ != "fn"@,
        "type"@ != "fn"@,
        "interface"@ != "fn"@,
        "const"@ != "fn"@,
{
    reveal_strlit("struct");
    reveal_strlit("enum");
    reveal_strlit("type");
    reveal_strlit("interface");
    reveal_strlit("const");
    reveal_strlit("fn");
    assert("fn"@.len() == 2 && "struct"@.len() == 6 && "enum"@.len() == 4 && "type"@.len() == 4
        && "interface"@.len() == 9 && "const"@.len() == 5);
}

/// Outside test files every struct, enum, type, interface and constant is a model, whatever its
/// connections: with certainty 95 where nothing leads from it, and 75 otherwise.
pub proof fn data_is_a_model(n: NodeMetricsView, fan_outs: Seq<i64>, fan_ins: Seq<i64>)
    requires
        !test_path(n.file),
        n.kind == "struct"@ || n.kind == "enum"@ || n.kind == "type"@ || n.kind == "interface"@
            || n.kind == "const"@,
    ensures
        role_of(n, fan_outs, fan_ins).0 == "model"@,
        role_of(n, fan_outs, fan_ins).1.base == (if n.fan_out == 0 {
            95u32
        } else {
            75u32
        }),
        role_of(n, fan_outs, fan_ins).1.share is None,
        !role_of(n, fan_outs, fan_ins).1.penalised,
{
    kinds_of_data_differ();
}

/// Outside test files a private function without callers whose name starts with `test_` is a
/// test, with certainty 75.
pub proof fn named_tests_are_tests(n: NodeMetricsView, fan_outs: Seq<i64>, fan_ins: Seq<i64>)
    requires
        !test_path(n.file),
        looks_like_test(n),
    ensures
        role_of(n, fan_outs, fan_ins).0 == "test"@,
        role_of(n, fan_outs, fan_ins).1 == (Confidence {
            base: 75,
            share: None,
            penalised: false,
        }),
{
}

/// How many of the values are at most the value.
pub open spec fn up_to(values: Seq<i64>, value: i64) -> nat {
    values.filter(|v: i64| v <= value).len()
}

proof fn counting_filters(values: Seq<i64>, value: i64, n: int)
    requires
        0 <= n <= values.len(),
    ensures
        count_up_to(values, value, n) == up_to(values.take(n), value),
        up_to(values.take(n), value) <= n,
    decreases n,
{
    reveal(Seq::filter);
    let part = values.take(n);
    if n > 0 {
        counting_filters(values, value, n - 1);
        assert(part.drop_last() =~= values.take(n - 1));
        assert(part.last() == values[n - 1]);
    }
}

/// What is no data and no test has its role from its connections. Where nothing leads from it,
/// it is a leaf. Else, where nothing leads to it and it is public, it is an entrypoint. Else,
/// where it calls what reads or writes, it is infrastructure. Else, where four fifths of the
/// symbols have no more callees and it calls into two files or more, it is an orchestrator.
/// Else, where four fifths of the symbols have no more callers and it is called from two files
/// or more, it is a utility. All others are domain.
pub proof fn connections_decide(n: NodeMetricsView, fan_outs: Seq<i64>, fan_ins: Seq<i64>)
    requires
        !test_path(n.file),
        !looks_like_test(n),
        n.kind != "struct"@ && n.kind != "enum"@ && n.kind != "type"@ && n.kind != "interface"@
            && n.kind != "const"@,
        fan_outs.len() <= usize::MAX,
        fan_ins.len() <= usize::MAX,
    ensures
        ({
            let (role, c) = role_of(n, fan_outs, fan_ins);
            let wide = fan_outs.len() > 0 && 5 * up_to(fan_outs, n.fan_out) >= 4 * fan_outs.len();
            let popular = fan_ins.len() > 0 && 5 * up_to(fan_ins, n.fan_in) >= 4 * fan_ins.len();
            let known = fan_ins.len() > 0 && 2 * up_to(fan_ins, n.fan_in) >= fan_ins.len();
            let public_top = n.fan_in == 0 && n.visibility == "pub"@;
            let rest = n.fan_out != 0 && !public_top && n.io_call_count <= 0;
            &&& n.fan_out == 0 ==> role == "leaf"@ && c.base == 90 && !c.penalised
            &&& n.fan_out != 0 && public_top ==> role == "entrypoint"@ && c.base == 85
                && !c.penalised
            &&& n.fan_out != 0 && !public_top && n.io_call_count > 0 ==> role == "infra"@ && c.base
                == 80 && c.penalised && c.share is None
            &&& rest && wide && n.callee_file_spread >= 2 ==> role == "orchestrator"@ && c.base
                == 70 && c.penalised && c.share == Some(
                Share { count: up_to(fan_outs, n.fan_out) as usize, total: fan_outs.len() as usize },
            )
            &&& rest && !(wide && n.callee_file_spread >= 2) && popular && n.caller_file_spread
                >= 2 ==> role == "utility"@ && c.base == 65 && c.penalised && c.share == Some(
                Share { count: up_to(fan_ins, n.fan_in) as usize, total: fan_ins.len() as usize },
            )
            &&& rest && !(wide && n.callee_file_spread >= 2) && !(popular && n.caller_file_spread
                >= 2) ==> role == "domain"@ && c.penalised && c.base == (if popular {
                55u32
            } else if known {
                45u32
            } else {
                30u32
            })
        }),
{
    counting_filters(fan_outs, n.fan_out, fan_outs.len() as int);
    counting_filters(fan_ins, n.fan_in, fan_ins.len() as int);
    assert(fan_outs.take(fan_outs.len() as int) =~= fan_outs);
    assert(fan_ins.take(fan_ins.len() as int) =~= fan_ins);
}

/// What reads or writes, by its name: it begins, whatever its case, with one of the words for
/// it, or is one of the names for it.
pub proof fn words_for_reading_and_writing(name: Seq<char>)
    ensures
        io_name(name) <==> ({
            let n = ascii_lower(name);
            begins_with(n, "open"@) || begins_with(n, "read"@) || begins_with(n, "write"@)
                || begins_with(n, "query"@) || begins_with(n, "execute"@) || begins_with(
                n,
                "connect"@,
            ) || begins_with(n, "send"@) || begins_with(n, "recv"@) || begins_with(n, "fetch"@)
                || name == "spawn"@ || name == "init_db"@ || name == "open_db"@
        }),
{
}

proof fn io_names_filter(names: Seq<Seq<char>>, n: int)
    requires
        0 <= n <= names.len(),
    ensures
        io_names(names, n) == names.take(n).filter(|x: Seq<char>| io_name(x)).len(),
    decreases n,
{
    reveal(Seq::filter);
    let part = names.take(n);
    if n > 0 {
        io_names_filter(names, n - 1);
        assert(part.drop_last() =~= names.take(n - 1));
        assert(part.last() == names[n - 1]);
    }
}

/// A symbol is measured by its own connections: by the callees that read or write, by the files
/// that it calls into and by the files that it is called from, each file once.
pub proof fn symbols_are_measured(
    node: RoleNodeView,
    callees: Seq<Seq<char>>,
    callee_files: Seq<Seq<char>>,
    caller_files: Seq<Seq<char>>,
)
    ensures
        ({
            let m = measured(node, callees, callee_files, caller_files);
            &&& m.fan_in == node.fan_in && m.fan_out == node.fan_out
            &&& m.id == node.id && m.kind == node.kind && m.name == node.name && m.file == node.file
            &&& m.visibility == node.visibility
            &&& m.io_call_count == callees.filter(|x: Seq<char>| io_name(x)).len() as i64
            &&& m.callee_file_spread == callee_files.to_set().len() as i64
            &&& m.caller_file_spread == caller_files.to_set().len() as i64
        }),
{
    io_names_filter(callees, callees.len() as int);
    assert(callees.take(callees.len() as int) =~= callees);
    distinct_files(callee_files);
    distinct_files(caller_files);
}

proof fn distinct_files(files: Seq<Seq<char>>)
    ensures
        key_set::<String>(files).len() == files.to_set().len(),
{
    let keys = key_set::<String>(files);
    crate::order::text_keys_stay(files);
    keys.unique_seq_to_set();
    assert forall|x: Seq<char>| keys.to_set().contains(x) == files.to_set().contains(x) by {
        assert(keys.contains(x) <==> files.contains(x));
    }
    assert(keys.to_set() =~= files.to_set());
}

/// The greatest connectivity is that of some symbol, and none has more.
pub proof fn greatest_is_greatest(values: Seq<i64>, n: int)
    requires
        0 < n <= values.len(),
    ensures
        exists|i: int| 0 <= i < n && #[trigger] values[i] == greatest(values, n),
        forall|i: int| 0 <= i < n ==> #[trigger] values[i] <= greatest(values, n),
    decreases n,
{
    if n > 1 {
        greatest_is_greatest(values, n - 1);
    }
    if n == 1 || values[n - 1] > greatest(values, n - 1) {
        assert(values[n - 1] == greatest(values, n));
    }
}

} // verus!
