//! The project's configuration: ignored paths, traversal depth and the architecture rules.

use vstd::prelude::*;

use crate::model::{dup_all, views, Dup};
use crate::text::{lex_before, str_eq, str_precedes};

verus! {

broadcast use crate::model::group_views;

/// A forbidden context coupling rule. Edges from `from_context` to `to_context` are flagged
/// as violations, regardless of where the edge comes from.
#[derive(Debug)]
pub struct ViolationRule {
    pub from_context: String,
    pub to_context: String,
    pub reason: Option<String>,
}

/// What a [`ViolationRule`] holds.
#[verifier::ext_equal]
pub struct ViolationRuleView {
    pub from_context: Seq<char>,
    pub to_context: Seq<char>,
    pub reason: Option<Seq<char>>,
}

impl DeepView for ViolationRule {
    type V = ViolationRuleView;

    open spec fn deep_view(&self) -> ViolationRuleView {
        ViolationRuleView {
            from_context: self.from_context.deep_view(),
            to_context: self.to_context.deep_view(),
            reason: self.reason.deep_view(),
        }
    }
}

impl View for ViolationRule {
    type V = ViolationRuleView;

    open spec fn view(&self) -> ViolationRuleView {
        self.deep_view()
    }
}

impl Dup for ViolationRule {
    fn dup(&self) -> (r: ViolationRule) {
        ViolationRule {
            from_context: self.from_context.dup(),
            to_context: self.to_context.dup(),
            reason: self.reason.dup(),
        }
    }
}

/// A suppression rule for known-acceptable violation patterns. All fields that are given
/// must match for the suppression to fire; omitted fields are wildcards.
#[derive(Debug)]
pub struct ViolationException {
    pub from_context: Option<String>,
    pub to_context: Option<String>,
    pub from_role: Option<String>,
    pub to_role: Option<String>,
    pub stable_id: Option<String>,
    pub reason: Option<String>,
}

/// What a [`ViolationException`] holds.
#[verifier::ext_equal]
pub struct ViolationExceptionView {
    pub from_context: Option<Seq<char>>,
    pub to_context: Option<Seq<char>>,
    pub from_role: Option<Seq<char>>,
    pub to_role: Option<Seq<char>>,
    pub stable_id: Option<Seq<char>>,
    pub reason: Option<Seq<char>>,
}

impl DeepView for ViolationException {
    type V = ViolationExceptionView;

    open spec fn deep_view(&self) -> ViolationExceptionView {
        ViolationExceptionView {
            from_context: self.from_context.deep_view(),
            to_context: self.to_context.deep_view(),
            from_role: self.from_role.deep_view(),
            to_role: self.to_role.deep_view(),
            stable_id: self.stable_id.deep_view(),
            reason: self.reason.deep_view(),
        }
    }
}

impl View for ViolationException {
    type V = ViolationExceptionView;

    open spec fn view(&self) -> ViolationExceptionView {
        self.deep_view()
    }
}

impl Dup for ViolationException {
    fn dup(&self) -> (r: ViolationException) {
        ViolationException {
            from_context: self.from_context.dup(),
            to_context: self.to_context.dup(),
            from_role: self.from_role.dup(),
            to_role: self.to_role.dup(),
            stable_id: self.stable_id.dup(),
            reason: self.reason.dup(),
        }
    }
}

/// Layer visibility policy: symbols in `layer` must not exceed `max_visibility`.
#[derive(Debug)]
pub struct VisibilityRule {
    pub layer: String,
    pub max_visibility: String,
    pub reason: Option<String>,
}

/// What a [`VisibilityRule`] holds.
#[verifier::ext_equal]
pub struct VisibilityRuleView {
    pub layer: Seq<char>,
    pub max_visibility: Seq<char>,
    pub reason: Option<Seq<char>>,
}

impl DeepView for VisibilityRule {
    type V = VisibilityRuleView;

    open spec fn deep_view(&self) -> VisibilityRuleView {
        VisibilityRuleView {
            layer: self.layer.deep_view(),
            max_visibility: self.max_visibility.deep_view(),
            reason: self.reason.deep_view(),
        }
    }
}

impl View for VisibilityRule {
    type V = VisibilityRuleView;

    open spec fn view(&self) -> VisibilityRuleView {
        self.deep_view()
    }
}

impl Dup for VisibilityRule {
    fn dup(&self) -> (r: VisibilityRule) {
        VisibilityRule {
            layer: self.layer.dup(),
            max_visibility: self.max_visibility.dup(),
            reason: self.reason.dup(),
        }
    }
}

/// A layer-to-layer violation rule for workspace crates. Any dependency edge from a crate
/// assigned `from_layer` to a crate assigned `to_layer` is reported as a violation.
#[derive(Debug)]
pub struct WorkspaceViolationRule {
    pub from_layer: String,
    pub to_layer: String,
    pub reason: Option<String>,
}

/// What a [`WorkspaceViolationRule`] holds.
#[verifier::ext_equal]
pub struct WorkspaceViolationRuleView {
    pub from_layer: Seq<char>,
    pub to_layer: Seq<char>,
    pub reason: Option<Seq<char>>,
}

impl DeepView for WorkspaceViolationRule {
    type V = WorkspaceViolationRuleView;

    open spec fn deep_view(&self) -> WorkspaceViolationRuleView {
        WorkspaceViolationRuleView {
            from_layer: self.from_layer.deep_view(),
            to_layer: self.to_layer.deep_view(),
            reason: self.reason.deep_view(),
        }
    }
}

impl View for WorkspaceViolationRule {
    type V = WorkspaceViolationRuleView;

    open spec fn view(&self) -> WorkspaceViolationRuleView {
        self.deep_view()
    }
}

impl Dup for WorkspaceViolationRule {
    fn dup(&self) -> (r: WorkspaceViolationRule) {
        WorkspaceViolationRule {
            from_layer: self.from_layer.dup(),
            to_layer: self.to_layer.dup(),
            reason: self.reason.dup(),
        }
    }
}

/// The layers of the workspace's crates, by crate name, in ascending order of the names.
/// A layer is a free-form name (`shared`, `domain`, `port`, `application`, `infra`,
/// `adapter`, `composition`, ...) or `?` while it is still to be assigned.
#[derive(Debug)]
pub struct Layers {
    entries: Vec<(String, String)>,
}

/// The entry of the crate `name`.
pub open spec fn layer_in(entries: Seq<(Seq<char>, Seq<char>)>, name: Seq<char>, i: int) -> Option<
    Seq<char>,
>
    decreases entries.len() - i,
{
    if i < 0 || i >= entries.len() {
        None
    } else if entries[i].0 == name {
        Some(entries[i].1)
    } else {
        layer_in(entries, name, i + 1)
    }
}

/// The first position from `i` on whose name does not stand before `name`, or the length.
pub open spec fn layer_slot(entries: Seq<(Seq<char>, Seq<char>)>, name: Seq<char>, i: int) -> int
    decreases entries.len() - i,
{
    if i < 0 || i >= entries.len() {
        entries.len() as int
    } else if !lex_before(entries[i].0, name) {
        i
    } else {
        layer_slot(entries, name, i + 1)
    }
}

/// The entries with the layer of `name` set.
pub open spec fn with_layer(
    entries: Seq<(Seq<char>, Seq<char>)>,
    name: Seq<char>,
    layer: Seq<char>,
) -> Seq<(Seq<char>, Seq<char>)> {
    let p = layer_slot(entries, name, 0);
    if p < entries.len() && entries[p].0 == name {
        entries.update(p, (name, layer))
    } else {
        entries.insert(p, (name, layer))
    }
}

/// The names are strictly ascending.
pub open spec fn names_ascend(entries: Seq<(Seq<char>, Seq<char>)>) -> bool {
    forall|i: int, j: int|
        0 <= i < j < entries.len() ==> lex_before((#[trigger] entries[i]).0, (#[trigger] entries[j]).0)
}

/// `layer_slot` gives the first position whose name does not stand before `name`.
proof fn layer_slot_is_first(entries: Seq<(Seq<char>, Seq<char>)>, name: Seq<char>, i: int)
    requires
        0 <= i <= entries.len(),
    ensures
        i <= layer_slot(entries, name, i) <= entries.len(),
        forall|k: int| i <= k < layer_slot(entries, name, i) ==> lex_before((#[trigger] entries[k]).0, name),
        layer_slot(entries, name, i) < entries.len() ==> !lex_before(
            entries[layer_slot(entries, name, i)].0,
            name,
        ),
    decreases entries.len() - i,
{
    if i < entries.len() && lex_before(entries[i].0, name) {
        layer_slot_is_first(entries, name, i + 1);
    }
}

/// `layer_in` gives none exactly where no entry from `i` on has the name, and the layer of
/// an entry with the name otherwise.
proof fn layer_in_finds(entries: Seq<(Seq<char>, Seq<char>)>, name: Seq<char>, i: int, k: int)
    requires
        0 <= i <= k < entries.len(),
        entries[k].0 == name,
        forall|j: int| i <= j < k ==> (#[trigger] entries[j]).0 != name,
    ensures
        layer_in(entries, name, i) == Some(entries[k].1),
    decreases k - i,
{
    if i < k {
        layer_in_finds(entries, name, i + 1, k);
    }
}

/// Setting a layer keeps the names strictly ascending.
pub proof fn with_layer_ascends(
    entries: Seq<(Seq<char>, Seq<char>)>,
    name: Seq<char>,
    layer: Seq<char>,
)
    requires
        names_ascend(entries),
    ensures
        names_ascend(with_layer(entries, name, layer)),
{
    layer_slot_is_first(entries, name, 0);
    let p = layer_slot(entries, name, 0);
    let r = with_layer(entries, name, layer);
    if !(p < entries.len() && entries[p].0 == name) {
        assert forall|i: int, j: int| 0 <= i < j < r.len() implies lex_before(
            (#[trigger] r[i]).0,
            (#[trigger] r[j]).0,
        ) by {
            if j == p {
                assert(lex_before(entries[i].0, name));
            } else if i == p {
                crate::text::lex_is_order(entries[p].0, name, name);
                if j - 1 > p {
                    assert(lex_before(entries[p].0, entries[j - 1].0));
                    crate::text::lex_is_order(name, entries[p].0, entries[j - 1].0);
                }
            } else {
                let a = if i < p { i } else { i - 1 };
                let b = if j < p { j } else { j - 1 };
                assert(r[i] == entries[a] && r[j] == entries[b]);
            }
        }
    }
}

/// Setting the layer of a crate gives that crate the layer and changes no other crate's.
pub proof fn with_layer_sets_one(
    entries: Seq<(Seq<char>, Seq<char>)>,
    name: Seq<char>,
    layer: Seq<char>,
    other: Seq<char>,
)
    requires
        names_ascend(entries),
    ensures
        layer_in(with_layer(entries, name, layer), name, 0) == Some(layer),
        other != name ==> layer_in(with_layer(entries, name, layer), other, 0) == layer_in(
            entries,
            other,
            0,
        ),
{
    layer_slot_is_first(entries, name, 0);
    let p = layer_slot(entries, name, 0);
    let r = with_layer(entries, name, layer);
    assert forall|j: int| 0 <= j < p implies (#[trigger] r[j]).0 != name by {
        assert(r[j] == entries[j]);
        crate::text::lex_is_order(name, name, name);
    }
    layer_in_finds(r, name, 0, p);
    if other != name {
        let shift: int = if p < entries.len() && entries[p].0 == name { 0 } else { 1 };
        lookup_skips(entries, r, other, p, shift, 0);
    }
}

/// Looking up a name other than the one at position `p` sees the other entries alone.
proof fn lookup_skips(
    entries: Seq<(Seq<char>, Seq<char>)>,
    r: Seq<(Seq<char>, Seq<char>)>,
    other: Seq<char>,
    p: int,
    shift: int,
    i: int,
)
    requires
        0 <= i <= r.len(),
        0 <= p < r.len(),
        0 <= shift <= 1,
        r.len() == entries.len() + shift,
        r[p].0 != other,
        shift == 0 ==> entries[p].0 != other,
        forall|k: int| 0 <= k < p ==> #[trigger] r[k] == entries[k],
        forall|k: int| p < k < r.len() ==> #[trigger] r[k] == entries[k - shift],
    ensures
        layer_in(r, other, i) == layer_in(entries, other, if i <= p { i } else { i - shift }),
    decreases r.len() - i,
{
    if i < r.len() {
        lookup_skips(entries, r, other, p, shift, i + 1);
    }
}

impl Layers {
    /// The names and their layers, in ascending order of the names.
    pub closed spec fn view(&self) -> Seq<(Seq<char>, Seq<char>)> {
        views(self.entries@)
    }

    /// The names are strictly ascending.
    pub open spec fn wf(&self) -> bool {
        names_ascend(self@)
    }

    /// No layers.
    pub fn new() -> (r: Layers)
        ensures
            r@ == Seq::<(Seq<char>, Seq<char>)>::empty(),
            r.wf(),
    {
        Layers { entries: Vec::new() }
    }

    /// Sets the layer of the crate `name`.
    pub fn insert(&mut self, name: &str, layer: &str)
        ensures
            final(self)@ == with_layer(old(self)@, name@, layer@),
            old(self).wf() ==> final(self).wf(),
    {
        proof {
            if self.wf() {
                with_layer_ascends(self@, name@, layer@);
            }
        }
        let mut p: usize = 0;
        while p < self.entries.len() && str_precedes(&self.entries[p].0, name)
            invariant
                p <= self.entries@.len(),
                layer_slot(views(self.entries@), name@, 0) == layer_slot(
                    views(self.entries@),
                    name@,
                    p as int,
                ),
            decreases self.entries@.len() - p,
        {
            assert(views(self.entries@)[p as int].0 == self.entries@[p as int].0@);
            p = p + 1;
        }
        let entry = (name.to_owned(), layer.to_owned());
        if p < self.entries.len() {
            assert(views(self.entries@)[p as int].0 == self.entries@[p as int].0@);
            if str_eq(&self.entries[p].0, name) {
                let ghost before = self.entries@;
                self.entries.set(p, entry);
                assert(views(self.entries@) =~= views(before).update(p as int, (name@, layer@)));
                return;
            }
        }
        self.entries.insert(p, entry);
    }

    /// The layer of the crate `name`.
    pub fn get(&self, name: &str) -> (r: Option<&String>)
        ensures
            match r {
                Some(t) => layer_in(self@, name@, 0) == Some(t@),
                None => layer_in(self@, name@, 0) is None,
            },
    {
        let mut i: usize = 0;
        while i < self.entries.len()
            invariant
                i <= self.entries@.len(),
                layer_in(self@, name@, 0) == layer_in(self@, name@, i as int),
            decreases self.entries@.len() - i,
        {
            assert(self@[i as int] == (self.entries@[i as int].0@, self.entries@[i as int].1@));
            if str_eq(&self.entries[i].0, name) {
                return Some(&self.entries[i].1);
            }
            i = i + 1;
        }
        None
    }

    /// How many crates have an entry.
    pub fn len(&self) -> (n: usize)
        ensures
            n == self@.len(),
    {
        self.entries.len()
    }

    /// The name at position `i`.
    pub fn name(&self, i: usize) -> (r: &String)
        requires
            i < self@.len(),
        ensures
            r@ == self@[i as int].0,
    {
        &self.entries[i].0
    }

    /// The layer at position `i`.
    pub fn layer(&self, i: usize) -> (r: &String)
        requires
            i < self@.len(),
        ensures
            r@ == self@[i as int].1,
    {
        &self.entries[i].1
    }
}

impl DeepView for Layers {
    type V = Seq<(Seq<char>, Seq<char>)>;

    open spec fn deep_view(&self) -> Seq<(Seq<char>, Seq<char>)> {
        self@
    }
}

impl Dup for Layers {
    fn dup(&self) -> (r: Layers) {
        Layers { entries: dup_all(&self.entries) }
    }
}

/// Workspace layer assignments and violation rules.
#[derive(Debug)]
pub struct WorkspaceConfig {
    pub layers: Layers,
    pub violations: Vec<WorkspaceViolationRule>,
}

/// What a [`WorkspaceConfig`] holds.
#[verifier::ext_equal]
pub struct WorkspaceConfigView {
    pub layers: Seq<(Seq<char>, Seq<char>)>,
    pub violations: Seq<WorkspaceViolationRuleView>,
}

impl DeepView for WorkspaceConfig {
    type V = WorkspaceConfigView;

    open spec fn deep_view(&self) -> WorkspaceConfigView {
        WorkspaceConfigView { layers: self.layers@, violations: views(self.violations@) }
    }
}

impl View for WorkspaceConfig {
    type V = WorkspaceConfigView;

    open spec fn view(&self) -> WorkspaceConfigView {
        self.deep_view()
    }
}

impl Dup for WorkspaceConfig {
    fn dup(&self) -> (r: WorkspaceConfig) {
        WorkspaceConfig { layers: self.layers.dup(), violations: dup_all(&self.violations) }
    }
}

/// Which built-in policy pack is selected, if any.
#[derive(Debug)]
pub struct PolicyConfig {
    pub pack: Option<String>,
}

/// What a [`PolicyConfig`] holds.
#[verifier::ext_equal]
pub struct PolicyConfigView {
    pub pack: Option<Seq<char>>,
}

impl DeepView for PolicyConfig {
    type V = PolicyConfigView;

    open spec fn deep_view(&self) -> PolicyConfigView {
        PolicyConfigView {
            pack: self.pack.deep_view(),
        }
    }
}

impl View for PolicyConfig {
    type V = PolicyConfigView;

    open spec fn view(&self) -> PolicyConfigView {
        self.deep_view()
    }
}

impl Dup for PolicyConfig {
    fn dup(&self) -> (r: PolicyConfig) {
        PolicyConfig {
            pack: self.pack.dup(),
        }
    }
}

/// The configuration of one project.
#[derive(Debug)]
pub struct Config {
    /// The names of directories that are left out of discovery, each compared as a whole.
    pub ignore: Vec<String>,
    /// How deep graph queries go.
    pub depth: usize,
    /// Forbidden context coupling rules.
    pub violations: Vec<ViolationRule>,
    /// Suppression rules for known-acceptable violation patterns.
    pub exceptions: Vec<ViolationException>,
    /// Visibility policy by architectural layer.
    pub visibility_rules: Vec<VisibilityRule>,
    /// Workspace layer mapping (present only in Cargo workspace projects).
    pub workspace: Option<WorkspaceConfig>,
    /// Optional built-in policy pack selection.
    pub policy: Option<PolicyConfig>,
}

/// What a [`Config`] holds.
#[verifier::ext_equal]
pub struct ConfigView {
    pub ignore: Seq<Seq<char>>,
    pub depth: usize,
    pub violations: Seq<ViolationRuleView>,
    pub exceptions: Seq<ViolationExceptionView>,
    pub visibility_rules: Seq<VisibilityRuleView>,
    pub workspace: Option<WorkspaceConfigView>,
    pub policy: Option<PolicyConfigView>,
}

impl DeepView for Config {
    type V = ConfigView;

    open spec fn deep_view(&self) -> ConfigView {
        ConfigView {
            ignore: views(self.ignore@),
            depth: self.depth.deep_view(),
            violations: views(self.violations@),
            exceptions: views(self.exceptions@),
            visibility_rules: views(self.visibility_rules@),
            workspace: self.workspace.deep_view(),
            policy: self.policy.deep_view(),
        }
    }
}

impl View for Config {
    type V = ConfigView;

    open spec fn view(&self) -> ConfigView {
        self.deep_view()
    }
}

impl Dup for Config {
    fn dup(&self) -> (r: Config) {
        Config {
            ignore: dup_all(&self.ignore),
            depth: self.depth.dup(),
            violations: dup_all(&self.violations),
            exceptions: dup_all(&self.exceptions),
            visibility_rules: dup_all(&self.visibility_rules),
            workspace: self.workspace.dup(),
            policy: self.policy.dup(),
        }
    }
}

/// The traversal depth where the configuration gives none.
pub fn default_depth() -> (d: usize)
    ensures
        d == 2,
{
    2
}

/// The configuration of a project that has none.
pub open spec fn default_config() -> ConfigView {
    ConfigView {
        ignore: Seq::empty(),
        depth: 2,
        violations: Seq::empty(),
        exceptions: Seq::empty(),
        visibility_rules: Seq::empty(),
        workspace: None,
        policy: None,
    }
}

impl Default for Config {
    fn default() -> (r: Config)
        ensures
            r@ == default_config(),
    {
        Config {
            ignore: Vec::new(),
            depth: default_depth(),
            violations: Vec::new(),
            exceptions: Vec::new(),
            visibility_rules: Vec::new(),
            workspace: None,
            policy: None,
        }
    }
}

/// The configuration to work with: the one that was read, or the default where there is
/// none or it could not be read.
pub fn load(parsed: Option<Config>) -> (r: Config)
    ensures
        r@ == match parsed {
            Some(c) => c@,
            None => default_config(),
        },
{
    match parsed {
        Some(c) => c,
        None => Config::default(),
    }
}

/// The position of the first directory that holds the project's data, counted upwards.
pub open spec fn first_marked(marked: Seq<bool>, i: int) -> Option<int>
    decreases marked.len() - i,
{
    if i < 0 || i >= marked.len() {
        None
    } else if marked[i] {
        Some(i)
    } else {
        first_marked(marked, i + 1)
    }
}

/// Walk up from a directory looking for a `.graphlite/` directory. `dirs` are the directory
/// and its ancestors, nearest first, and `marked` says which of them hold one. Gives the
/// nearest of these, or an error where there is none up to the filesystem root.
pub fn find_root(start: &str, dirs: &Vec<String>, marked: &Vec<bool>) -> (r: Result<String, String>)
    requires
        dirs@.len() == marked@.len(),
    ensures
        match r {
            Ok(dir) => first_marked(marked@, 0) matches Some(i) && dir@ == dirs@[i]@,
            Err(e) => first_marked(marked@, 0) is None && e@ == "no .graphlite/ directory found from "@
                + start@,
        },
{
    let mut i: usize = 0;
    while i < dirs.len()
        invariant
            dirs@.len() == marked@.len(),
            i <= dirs@.len(),
            first_marked(marked@, 0) == first_marked(marked@, i as int),
        decreases dirs@.len() - i,
    {
        if marked[i] {
            return Ok(dirs[i].dup());
        }
        i = i + 1;
    }
    Err(crate::text::concat2("no .graphlite/ directory found from ", start))
}

// ---------------------------------------------------------------------------
// Laws
// ---------------------------------------------------------------------------

/// A crate's layer is the one of the first entry under its name; without an entry it has none.
pub proof fn first_entry_gives_the_layer(
    entries: Seq<(Seq<char>, Seq<char>)>,
    name: Seq<char>,
    i: int,
)
    requires
        0 <= i <= entries.len(),
    ensures
        layer_in(entries, name, i) is None <==> forall|j: int|
            i <= j < entries.len() ==> (#[trigger] entries[j]).0 != name,
        layer_in(entries, name, i) matches Some(layer) ==> exists|k: int|
            i <= k < entries.len() && #[trigger] entries[k] == (name, layer) && forall|j: int|
                i <= j < k ==> (#[trigger] entries[j]).0 != name,
    decreases entries.len() - i,
{
    if i < entries.len() {
        first_entry_gives_the_layer(entries, name, i + 1);
        if entries[i].0 == name {
            assert(entries[i] == (name, layer_in(entries, name, i)->0));
        }
    }
}

/// The first directory with a mark is the one that is found; without a mark none is.
pub proof fn first_mark_is_found(marked: Seq<bool>, i: int)
    requires
        0 <= i <= marked.len(),
    ensures
        first_marked(marked, i) is None <==> forall|j: int|
            i <= j < marked.len() ==> !#[trigger] marked[j],
        first_marked(marked, i) matches Some(k) ==> i <= k < marked.len() && marked[k] && forall|
            j: int,
        |
            i <= j < k ==> !#[trigger] marked[j],
    decreases marked.len() - i,
{
    if i < marked.len() {
        first_mark_is_found(marked, i + 1);
    }
}

/// Without a configuration nothing is ruled out and nothing is ruled on: files are gone through
/// two deep, and there are no rules, no exceptions, no workspace and no policy.
pub proof fn nothing_is_ruled_by_default()
    ensures
        default_config().depth == 2,
        default_config().ignore.len() == 0,
        default_config().violations.len() == 0,
        default_config().exceptions.len() == 0,
        default_config().visibility_rules.len() == 0,
        default_config().workspace is None,
        default_config().policy is None,
{
}

} // verus!
