//! Names and trait links of symbols, from rustdoc's JSON.

use vstd::prelude::*;

use crate::arch::{plain_path, strip_dot};
use crate::json::{self, field_of, items_in, json_read, text_in, Json, JsonView};
use crate::model::{list_has, or_text, push_holds, text_or, views, Dup};
use crate::order::{distinct_keys, key_set, keys_ascend, slot_is_first, slot_of};
use crate::paths::{
    file_name, file_stem, is_within, join_path, joined_path, parent, parent_path, relative_path,
    relative_to, stem_of, within,
};
use crate::text::{
    begins_with, concat2, concat3, dec, join, joined, lex_before, replace, replaced, starts_with, str_eq,
    str_precedes, strip_prefix, u64_text, without_prefix,
};
use crate::workspace::{collect_texts, texts_among};

verus! {

broadcast use crate::model::group_views;

/// The version of rustdoc's JSON format that is understood.
pub const EXPECTED_FORMAT_VERSION: u32 = 57;

// ---------------------------------------------------------------------------
// Crates
// ---------------------------------------------------------------------------

/// A crate of the project: its name, its manifest and the directory that it is in.
#[derive(Debug)]
pub struct CrateInfo {
    pub name: String,
    pub manifest_path: String,
    pub abs_dir: String,
}

/// What a [`CrateInfo`] holds.
#[verifier::ext_equal]
pub struct CrateInfoView {
    pub name: Seq<char>,
    pub manifest_path: Seq<char>,
    pub abs_dir: Seq<char>,
}

impl DeepView for CrateInfo {
    type V = CrateInfoView;

    open spec fn deep_view(&self) -> CrateInfoView {
        CrateInfoView {
            name: self.name.deep_view(),
            manifest_path: self.manifest_path.deep_view(),
            abs_dir: self.abs_dir.deep_view(),
        }
    }
}

impl View for CrateInfo {
    type V = CrateInfoView;

    open spec fn view(&self) -> CrateInfoView {
        self.deep_view()
    }
}

impl Dup for CrateInfo {
    fn dup(&self) -> (r: CrateInfo) {
        CrateInfo {
            name: self.name.dup(),
            manifest_path: self.manifest_path.dup(),
            abs_dir: self.abs_dir.dup(),
        }
    }
}

/// The crate that a package is. None where the package has no name or no manifest.
pub open spec fn crate_in(pkg: JsonView) -> Option<CrateInfoView> {
    match (text_in(field_of(pkg, "name"@)), text_in(field_of(pkg, "manifest_path"@))) {
        (Some(name), Some(manifest_path)) => match parent_path(manifest_path) {
            Some(abs_dir) => Some(CrateInfoView { name, manifest_path, abs_dir }),
            None => None,
        },
        _ => None,
    }
}

/// The package is one of those with the ids; any is, where there are none.
pub open spec fn is_listed(pkg: JsonView, ids: Seq<Seq<char>>) -> bool {
    ids.len() == 0 || (text_in(field_of(pkg, "id"@)) matches Some(id) && ids.contains(id))
}

/// The crates among the first `n` packages.
pub open spec fn crates_among(pkgs: Seq<JsonView>, ids: Seq<Seq<char>>, n: int) -> Seq<
    CrateInfoView,
>
    decreases n,
{
    if n <= 0 {
        Seq::empty()
    } else {
        let rest = crates_among(pkgs, ids, n - 1);
        if is_listed(pkgs[n - 1], ids) {
            match crate_in(pkgs[n - 1]) {
                Some(c) => rest.push(c),
                None => rest,
            }
        } else {
            rest
        }
    }
}

/// The ids of the workspace's members.
pub open spec fn member_ids(meta: JsonView) -> Seq<Seq<char>> {
    match items_in(field_of(meta, "workspace_members"@)) {
        Some(items) => texts_among(items),
        None => Seq::empty(),
    }
}

/// The crates that Cargo's description names; none where it has no packages.
pub open spec fn crates_in(meta: JsonView) -> Option<Seq<CrateInfoView>> {
    match items_in(field_of(meta, "packages"@)) {
        Some(pkgs) => Some(crates_among(pkgs, member_ids(meta), pkgs.len() as int)),
        None => None,
    }
}

fn read_crate(pkg: &Json) -> (r: Option<CrateInfo>)
    ensures
        r.deep_view() == crate_in(pkg@),
{
    match (pkg.field_text("name"), pkg.field_text("manifest_path")) {
        (Some(name), Some(manifest)) => match parent(manifest) {
            Some(abs_dir) => Some(
                CrateInfo { name: name.dup(), manifest_path: manifest.dup(), abs_dir },
            ),
            None => None,
        },
        _ => None,
    }
}

fn check_listed(pkg: &Json, ids: &Vec<String>) -> (r: bool)
    ensures
        r == is_listed(pkg@, views(ids@)),
{
    if ids.len() == 0 {
        return true;
    }
    match pkg.field_text("id") {
        Some(id) => list_has(ids, id),
        None => false,
    }
}

/// The crates that Cargo's description names.
pub fn crates_from(meta: &Json) -> (r: Option<Vec<CrateInfo>>)
    ensures
        match r {
            Some(c) => crates_in(meta@) == Some(views(c@)),
            None => crates_in(meta@) is None,
        },
{
    let ids = match meta.field_items("workspace_members") {
        Some(items) => collect_texts(items),
        None => Vec::new(),
    };
    assert(views(ids@) == member_ids(meta@));
    let pkgs = match meta.field_items("packages") {
        Some(p) => p,
        None => {
            return None;
        },
    };
    let ghost pv = views(pkgs@);
    assert(pv.len() == pkgs@.len());
    let mut out: Vec<CrateInfo> = Vec::new();
    let mut n: usize = 0;
    while n < pkgs.len()
        invariant
            pv == views(pkgs@),
            n <= pkgs@.len(),
            views(out@) == crates_among(pv, views(ids@), n as int),
        decreases pkgs@.len() - n,
    {
        assert(pv[n as int] == pkgs@[n as int]@);
        if check_listed(&pkgs[n], &ids) {
            if let Some(c) = read_crate(&pkgs[n]) {
                out.push(c);
            }
        }
        n = n + 1;
    }
    Some(out)
}

/// Find the crates of a project in Cargo's description of it.
pub fn discover_crates(metadata: &str) -> (r: Result<Vec<CrateInfo>, String>)
    ensures
        match json_read(metadata@) {
            Ok(meta) => match crates_in(meta) {
                Some(crates) => r matches Ok(c) && views(c@) == crates,
                None => r matches Err(m) && m@ == "cargo metadata: missing packages array"@,
            },
            Err(e) => r matches Err(m) && m@ == e,
        },
{
    match json::read(metadata) {
        Ok(meta) => match crates_from(&meta) {
            Some(crates) => Ok(crates),
            None => Err("cargo metadata: missing packages array".to_owned()),
        },
        Err(e) => Err(e),
    }
}

/// Some of the files lies in the crate's directory.
pub open spec fn is_touched(c: CrateInfoView, changed: Seq<Seq<char>>) -> bool {
    exists|i: int| 0 <= i < changed.len() && is_within(#[trigger] changed[i], c.abs_dir)
}

/// Those of the first `n` crates that some of the files lies in.
pub open spec fn touched(crates: Seq<CrateInfoView>, changed: Seq<Seq<char>>, n: int) -> Seq<
    CrateInfoView,
>
    decreases n,
{
    if n <= 0 {
        Seq::empty()
    } else if is_touched(crates[n - 1], changed) {
        touched(crates, changed, n - 1).push(crates[n - 1])
    } else {
        touched(crates, changed, n - 1)
    }
}

/// The crates that changes of the files affect: those that some of them lies in, or all where
/// there are none.
pub open spec fn affected(crates: Seq<CrateInfoView>, changed: Seq<Seq<char>>) -> Seq<
    CrateInfoView,
> {
    let some = touched(crates, changed, crates.len() as int);
    if some.len() == 0 {
        crates
    } else {
        some
    }
}

fn check_touched(c: &CrateInfo, changed: &Vec<String>) -> (r: bool)
    ensures
        r == is_touched(c@, views(changed@)),
{
    let mut i: usize = 0;
    while i < changed.len()
        invariant
            i <= changed@.len(),
            forall|k: int|
                0 <= k < i ==> !is_within(#[trigger] views(changed@)[k], c@.abs_dir),
        decreases changed@.len() - i,
    {
        assert(views(changed@)[i as int] == changed@[i as int]@);
        if within(&changed[i], &c.abs_dir) {
            return true;
        }
        i = i + 1;
    }
    false
}

/// The crates that changes of the files affect.
pub fn affected_crates(crates: &Vec<CrateInfo>, changed: &Vec<String>) -> (r: Vec<CrateInfo>)
    ensures
        views(r@) == affected(views(crates@), views(changed@)),
{
    let ghost cv = views(crates@);
    let mut out: Vec<CrateInfo> = Vec::new();
    let mut n: usize = 0;
    while n < crates.len()
        invariant
            cv == views(crates@),
            n <= crates@.len(),
            views(out@) == touched(cv, views(changed@), n as int),
        decreases crates@.len() - n,
    {
        assert(cv[n as int] == crates@[n as int]@);
        if check_touched(&crates[n], changed) {
            out.push(crates[n].dup());
        }
        n = n + 1;
    }
    if out.len() == 0 {
        return crate::model::dup_all(crates);
    }
    out
}

// ---------------------------------------------------------------------------
// Choosing rustdoc's output
// ---------------------------------------------------------------------------

/// A file that rustdoc may have written, and when it was last changed, in nanoseconds since
/// the epoch.
#[derive(Debug)]
pub struct Candidate {
    pub path: String,
    pub modified: i128,
}

/// What a [`Candidate`] holds.
#[verifier::ext_equal]
pub struct CandidateView {
    pub path: Seq<char>,
    pub modified: i128,
}

impl DeepView for Candidate {
    type V = CandidateView;

    open spec fn deep_view(&self) -> CandidateView {
        CandidateView {
            path: self.path.deep_view(),
            modified: self.modified.deep_view(),
        }
    }
}

impl View for Candidate {
    type V = CandidateView;

    open spec fn view(&self) -> CandidateView {
        self.deep_view()
    }
}

/// The first candidate from `i` on whose name, without its extension, is the one given.
pub open spec fn same_stem(c: Seq<CandidateView>, name: Seq<char>, i: int) -> Option<int>
    decreases c.len() - i,
{
    if i < 0 || i >= c.len() {
        None
    } else if file_name(c[i].path) matches Some(f) && stem_of(f) == name {
        Some(i)
    } else {
        same_stem(c, name, i + 1)
    }
}

/// The candidate is newer, or as old with a path that stands before.
pub open spec fn is_better(a: CandidateView, b: CandidateView) -> bool {
    a.modified > b.modified || (a.modified == b.modified && lex_before(a.path, b.path))
}

/// The best of the first `n` candidates; the first of several.
pub open spec fn best_among(c: Seq<CandidateView>, n: int) -> int
    decreases n,
{
    if n <= 1 {
        0
    } else if is_better(c[n - 1], c[best_among(c, n - 1)]) {
        n - 1
    } else {
        best_among(c, n - 1)
    }
}

/// The file to read: the one of the crate's name, or else the newest.
pub open spec fn picked(c: Seq<CandidateView>, name: Seq<char>) -> Option<Seq<char>> {
    match same_stem(c, name, 0) {
        Some(i) => Some(c[i].path),
        None => if c.len() == 0 {
            None
        } else {
            Some(c[best_among(c, c.len() as int)].path)
        },
    }
}

/// The best of the candidates is one of them, and none of the others is better.
pub proof fn best_is_best(c: Seq<CandidateView>, n: int)
    requires
        1 <= n <= c.len(),
    ensures
        0 <= best_among(c, n) < n,
        forall|i: int| 0 <= i < n ==> !is_better(#[trigger] c[i], c[best_among(c, n)]),
    decreases n,
{
    let b = best_among(c, n);
    if n > 1 {
        best_is_best(c, n - 1);
        let o = best_among(c, n - 1);
        assert forall|i: int| 0 <= i < n implies !is_better(#[trigger] c[i], c[b]) by {
            if i < n - 1 {
                assert(!is_better(c[i], c[o]));
                crate::text::lex_is_order(c[i].path, c[o].path, c[b].path);
                crate::text::lex_is_order(c[o].path, c[i].path, c[b].path);
                crate::text::lex_is_order(c[b].path, c[o].path, c[i].path);
                crate::text::lex_is_order(c[i].path, c[b].path, c[o].path);
            } else {
                crate::text::lex_is_order(c[i].path, c[b].path, c[i].path);
            }
        }
    } else {
        crate::text::lex_is_order(c[0].path, c[0].path, c[0].path);
    }
}

/// The name of a crate as its files have it.
pub fn safe_name(name: &str) -> (r: String)
    ensures
        r@ == replaced(name@, "-"@, "_"@),
{
    proof {
        reveal_strlit("-");
    }
    replace(name, "-", "_")
}

/// The file to read of those that rustdoc may have written.
pub fn pick_rustdoc_json_candidate(crate_name_safe: &str, candidates: &Vec<Candidate>) -> (r:
    Option<String>)
    ensures
        r.deep_view() == picked(views(candidates@), crate_name_safe@),
{
    let ghost cv = views(candidates@);
    let mut i: usize = 0;
    while i < candidates.len()
        invariant
            cv == views(candidates@),
            i <= candidates@.len(),
            same_stem(cv, crate_name_safe@, 0) == same_stem(cv, crate_name_safe@, i as int),
        decreases candidates@.len() - i,
    {
        assert(cv[i as int] == candidates@[i as int]@);
        if let Some(stem) = file_stem(&candidates[i].path) {
            if str_eq(&stem, crate_name_safe) {
                return Some(candidates[i].path.dup());
            }
        }
        i = i + 1;
    }
    if candidates.len() == 0 {
        return None;
    }
    let mut best: usize = 0;
    let mut n: usize = 1;
    while n < candidates.len()
        invariant
            cv == views(candidates@),
            1 <= n <= candidates@.len(),
            best < n,
            best == best_among(cv, n as int),
        decreases candidates@.len() - n,
    {
        let c = &candidates[n];
        let b = &candidates[best];
        assert(cv[n as int] == c@);
        assert(cv[best as int] == b@);
        if c.modified > b.modified || (c.modified == b.modified && str_precedes(&c.path, &b.path)) {
            best = n;
        }
        n = n + 1;
    }
    assert(cv[best as int] == candidates@[best as int]@);
    Some(candidates[best].path.dup())
}

// ---------------------------------------------------------------------------
// Reading rustdoc's output
// ---------------------------------------------------------------------------

/// Where an item is: its file and its first line.
#[derive(Debug)]
pub struct DocSpan {
    pub file: String,
    pub line: i64,
}

/// What a [`DocSpan`] holds.
#[verifier::ext_equal]
pub struct DocSpanView {
    pub file: Seq<char>,
    pub line: i64,
}

impl DeepView for DocSpan {
    type V = DocSpanView;

    open spec fn deep_view(&self) -> DocSpanView {
        DocSpanView {
            file: self.file.deep_view(),
            line: self.line.deep_view(),
        }
    }
}

impl View for DocSpan {
    type V = DocSpanView;

    open spec fn view(&self) -> DocSpanView {
        self.deep_view()
    }
}

/// A trait as an `impl` names it.
#[derive(Debug)]
pub struct TraitRef {
    pub path: String,
    pub id: u32,
}

/// What a [`TraitRef`] holds.
#[verifier::ext_equal]
pub struct TraitRefView {
    pub path: Seq<char>,
    pub id: u32,
}

impl DeepView for TraitRef {
    type V = TraitRefView;

    open spec fn deep_view(&self) -> TraitRefView {
        TraitRefView {
            path: self.path.deep_view(),
            id: self.id.deep_view(),
        }
    }
}

impl View for TraitRef {
    type V = TraitRefView;

    open spec fn view(&self) -> TraitRefView {
        self.deep_view()
    }
}

/// An `impl`: the trait, the type where it is a named one, and the items in it.
#[derive(Debug)]
pub struct DocImpl {
    pub trait_ref: Option<TraitRef>,
    pub type_id: Option<u32>,
    pub is_synthetic: bool,
    pub items: Vec<u32>,
}

/// What a [`DocImpl`] holds.
#[verifier::ext_equal]
pub struct DocImplView {
    pub trait_ref: Option<TraitRefView>,
    pub type_id: Option<u32>,
    pub is_synthetic: bool,
    pub items: Seq<u32>,
}

impl DeepView for DocImpl {
    type V = DocImplView;

    open spec fn deep_view(&self) -> DocImplView {
        DocImplView {
            trait_ref: self.trait_ref.deep_view(),
            type_id: self.type_id.deep_view(),
            is_synthetic: self.is_synthetic.deep_view(),
            items: views(self.items@),
        }
    }
}

impl View for DocImpl {
    type V = DocImplView;

    open spec fn view(&self) -> DocImplView {
        self.deep_view()
    }
}

/// What an item is, as far as it is a type.
#[derive(Clone, Copy, PartialEq, Eq, Structural, Debug)]
pub enum ItemTag {
    Struct,
    Enum,
    Union,
    Trait,
    TypeAlias,
    /// It is no type.
    Other,
}

/// The kind of a symbol that stands for such an item, if it is a type.
pub open spec fn type_kind_of(tag: ItemTag) -> Option<Seq<char>> {
    match tag {
        ItemTag::Struct => Some("struct"@),
        ItemTag::Enum => Some("enum"@),
        ItemTag::Union => Some("union"@),
        ItemTag::Trait => Some("trait"@),
        ItemTag::TypeAlias => Some("type"@),
        ItemTag::Other => None,
    }
}

/// The kind of a symbol that stands for such an item, if it is a type.
pub fn kind_of_type(tag: ItemTag) -> (r: Option<&'static str>)
    ensures
        match r {
            Some(k) => type_kind_of(tag) == Some(k@),
            None => type_kind_of(tag) is None,
        },
{
    match tag {
        ItemTag::Struct => Some("struct"),
        ItemTag::Enum => Some("enum"),
        ItemTag::Union => Some("union"),
        ItemTag::Trait => Some("trait"),
        ItemTag::TypeAlias => Some("type"),
        ItemTag::Other => None,
    }
}

/// An item; those of the crate itself have the crate id 0.
#[derive(Debug)]
pub struct DocItem {
    pub id: u32,
    pub crate_id: u32,
    pub span: Option<DocSpan>,
    pub impl_data: Option<DocImpl>,
    pub tag: ItemTag,
    pub name: Option<String>,
}

/// What a [`DocItem`] holds.
#[verifier::ext_equal]
pub struct DocItemView {
    pub id: u32,
    pub crate_id: u32,
    pub span: Option<DocSpanView>,
    pub impl_data: Option<DocImplView>,
    pub tag: ItemTag,
    pub name: Option<Seq<char>>,
}

impl DeepView for DocItem {
    type V = DocItemView;

    open spec fn deep_view(&self) -> DocItemView {
        DocItemView {
            id: self.id.deep_view(),
            crate_id: self.crate_id.deep_view(),
            span: self.span.deep_view(),
            impl_data: self.impl_data.deep_view(),
            tag: self.tag,
            name: self.name.deep_view(),
        }
    }
}

impl View for DocItem {
    type V = DocItemView;

    open spec fn view(&self) -> DocItemView {
        self.deep_view()
    }
}

/// The path of an item, from its crate's name on.
#[derive(Debug)]
pub struct DocPath {
    pub id: u32,
    pub crate_id: u32,
    pub path: Vec<String>,
}

/// What a [`DocPath`] holds.
#[verifier::ext_equal]
pub struct DocPathView {
    pub id: u32,
    pub crate_id: u32,
    pub path: Seq<Seq<char>>,
}

impl DeepView for DocPath {
    type V = DocPathView;

    open spec fn deep_view(&self) -> DocPathView {
        DocPathView {
            id: self.id.deep_view(),
            crate_id: self.crate_id.deep_view(),
            path: views(self.path@),
        }
    }
}

impl View for DocPath {
    type V = DocPathView;

    open spec fn view(&self) -> DocPathView {
        self.deep_view()
    }
}

/// rustdoc_types' document.
#[verifier::external_type_specification]
#[verifier::external_body]
pub struct ExCrate(rustdoc_types::Crate);

/// What a document of rustdoc holds: its items and the paths of items, by id.
pub struct DocView {
    pub format_version: u32,
    pub items: Map<u32, DocItemView>,
    pub paths: Map<u32, DocPathView>,
}

/// What a document of rustdoc_types holds.
pub uninterp spec fn doc_of(c: rustdoc_types::Crate) -> DocView;

/// What serde_json reads from a text as a document of rustdoc_types; its complaint where the
/// text is none.
pub uninterp spec fn doc_read(text: Seq<char>) -> Result<DocView, Seq<char>>;

/// `serde_json::from_str` to a `rustdoc_types::Crate`, and the text of its error: what it reads
/// and what it complains of depend on the text alone.
#[verifier::external_body]
fn parse_doc(text: &str) -> (r: Result<rustdoc_types::Crate, String>)
    ensures
        match r {
            Ok(c) => doc_read(text@) matches Ok(d) && d == doc_of(c),
            Err(e) => doc_read(text@) matches Err(m) && m == e@,
        },
{
    serde_json::from_str::<rustdoc_types::Crate>(text).map_err(|e| e.to_string())
}

/// `format_version` of a `rustdoc_types::Crate`.
#[verifier::external_body]
fn doc_version(c: &rustdoc_types::Crate) -> (r: u32)
    ensures
        r == doc_of(*c).format_version,
{
    c.format_version
}

/// The keys of `index` of a `rustdoc_types::Crate`, a `HashMap`: each once, in no order.
#[verifier::external_body]
fn item_ids(c: &rustdoc_types::Crate) -> (r: Vec<u32>)
    ensures
        forall|id: u32| r@.contains(id) <==> #[trigger] doc_of(*c).items.dom().contains(id),
{
    c.index.keys().map(|k| k.0).collect()
}

/// The keys of `paths` of a `rustdoc_types::Crate`, a `HashMap`: each once, in no order.
#[verifier::external_body]
fn path_ids(c: &rustdoc_types::Crate) -> (r: Vec<u32>)
    ensures
        forall|id: u32| r@.contains(id) <==> #[trigger] doc_of(*c).paths.dom().contains(id),
{
    c.paths.keys().map(|k| k.0).collect()
}

/// The item that `index` of a `rustdoc_types::Crate` holds under the id: its crate, and the
/// file and the first line of its span.
#[verifier::external_body]
fn item_place(c: &rustdoc_types::Crate, id: u32) -> (r: Option<(u32, Option<DocSpan>)>)
    ensures
        match r {
            Some((crate_id, span)) => doc_of(*c).items.dom().contains(id) && doc_of(*c).items[id].id
                == id && doc_of(*c).items[id].crate_id == crate_id && doc_of(*c).items[id].span
                == span.deep_view(),
            None => !doc_of(*c).items.dom().contains(id),
        },
{
    let item = c.index.get(&rustdoc_types::Id(id))?;
    let span = item.span.as_ref().map(
        |s| DocSpan { file: s.filename.to_string_lossy().to_string(), line: s.begin.0 as i64 },
    );
    Some((item.crate_id, span))
}

/// The `impl` that `index` of a `rustdoc_types::Crate` holds under the id, where it is one:
/// the path and the id of its trait, the id of its type where that is a resolved path,
/// whether it is synthetic, and the ids of its items.
#[verifier::external_body]
fn item_impl(c: &rustdoc_types::Crate, id: u32) -> (r: Option<DocImpl>)
    ensures
        doc_of(*c).items.dom().contains(id) ==> r.deep_view() == doc_of(*c).items[id].impl_data,
{
    match &c.index.get(&rustdoc_types::Id(id))?.inner {
        rustdoc_types::ItemEnum::Impl(i) => Some(DocImpl {
            trait_ref: i.trait_.as_ref().map(|t| TraitRef { path: t.path.clone(), id: t.id.0 }),
            type_id: match &i.for_ {
                rustdoc_types::Type::ResolvedPath(p) => Some(p.id.0),
                _ => None,
            },
            is_synthetic: i.is_synthetic,
            items: i.items.iter().map(|k| k.0).collect(),
        }),
        _ => None,
    }
}

/// The variant of the item that `index` of a `rustdoc_types::Crate` holds under the id, as far
/// as it is a type, and the item's `name`.
#[verifier::external_body]
fn item_type(c: &rustdoc_types::Crate, id: u32) -> (r: Option<(ItemTag, Option<String>)>)
    ensures
        match r {
            Some((tag, name)) => doc_of(*c).items.dom().contains(id) && doc_of(*c).items[id].tag
                == tag && doc_of(*c).items[id].name == name.deep_view(),
            None => !doc_of(*c).items.dom().contains(id),
        },
{
    let item = c.index.get(&rustdoc_types::Id(id))?;
    let tag = match &item.inner {
        rustdoc_types::ItemEnum::Struct(_) => ItemTag::Struct,
        rustdoc_types::ItemEnum::Enum(_) => ItemTag::Enum,
        rustdoc_types::ItemEnum::Union(_) => ItemTag::Union,
        rustdoc_types::ItemEnum::Trait(_) => ItemTag::Trait,
        rustdoc_types::ItemEnum::TypeAlias(_) => ItemTag::TypeAlias,
        _ => ItemTag::Other,
    };
    Some((tag, item.name.clone()))
}

/// The path that `paths` of a `rustdoc_types::Crate` holds under the id.
#[verifier::external_body]
fn doc_path(c: &rustdoc_types::Crate, id: u32) -> (r: Option<DocPath>)
    ensures
        match r {
            Some(p) => doc_of(*c).paths.dom().contains(id) && doc_of(*c).paths[id] == p@ && p.id
                == id,
            None => !doc_of(*c).paths.dom().contains(id),
        },
{
    let p = c.paths.get(&rustdoc_types::Id(id))?;
    Some(DocPath { id, crate_id: p.crate_id, path: p.path.clone() })
}

/// A document of rustdoc: its items and the paths of items, in the order of their ids.
#[derive(Debug)]
pub struct RustdocDoc {
    pub items: Vec<DocItem>,
    pub paths: Vec<DocPath>,
}

/// What a [`RustdocDoc`] holds.
#[verifier::ext_equal]
pub struct RustdocDocView {
    pub items: Seq<DocItemView>,
    pub paths: Seq<DocPathView>,
}

impl DeepView for RustdocDoc {
    type V = RustdocDocView;

    open spec fn deep_view(&self) -> RustdocDocView {
        RustdocDocView {
            items: views(self.items@),
            paths: views(self.paths@),
        }
    }
}

impl View for RustdocDoc {
    type V = RustdocDocView;

    open spec fn view(&self) -> RustdocDocView {
        self.deep_view()
    }
}

/// The list holds the items of the map, in the order of their ids.
pub open spec fn lists_items(list: Seq<DocItemView>, items: Map<u32, DocItemView>) -> bool {
    &&& forall|i: int, j: int| 0 <= i < j < list.len() ==> (#[trigger] list[i]).id < (
    #[trigger] list[j]).id
    &&& forall|i: int|
        0 <= i < list.len() ==> items.dom().contains((#[trigger] list[i]).id)
            && items[list[i].id] == list[i]
    &&& forall|id: u32| #[trigger]
        items.dom().contains(id) ==> exists|i: int| 0 <= i < list.len() && #[trigger] list[i]
            == items[id]
}

/// The list holds the paths of the map, in the order of their ids.
pub open spec fn lists_paths(list: Seq<DocPathView>, paths: Map<u32, DocPathView>) -> bool {
    &&& forall|i: int, j: int| 0 <= i < j < list.len() ==> (#[trigger] list[i]).id < (
    #[trigger] list[j]).id
    &&& forall|i: int|
        0 <= i < list.len() ==> paths.dom().contains((#[trigger] list[i]).id)
            && paths[list[i].id] == list[i]
    &&& forall|id: u32| #[trigger]
        paths.dom().contains(id) ==> exists|i: int| 0 <= i < list.len() && #[trigger] list[i]
            == paths[id]
}

proof fn ids_stay(s: Seq<u32>)
    ensures
        forall|x: u32| s.contains(x) <==> #[trigger] key_set::<u32>(s).contains(x),
    decreases s.len(),
{
    if s.len() > 0 {
        let t = key_set::<u32>(s.drop_last());
        let k = key_set::<u32>(s);
        let last = s.last();
        ids_stay(s.drop_last());
        slot_is_first::<u32>(t, last, 0);
        let p = slot_of::<u32>(t, last, 0);
        assert forall|x: u32| s.contains(x) <==> #[trigger] k.contains(x) by {
            if s.contains(x) {
                let i = choose|i: int| 0 <= i < s.len() && s[i] == x;
                if i < s.len() - 1 {
                    assert(s.drop_last()[i] == x);
                    assert(t.contains(x));
                    let j = choose|j: int| 0 <= j < t.len() && t[j] == x;
                    if k != t {
                        assert(k[if j < p { j } else { j + 1 }] == x);
                    }
                } else {
                    assert(k[p] == x);
                }
            }
            if k.contains(x) {
                let j = choose|j: int| 0 <= j < k.len() && k[j] == x;
                if k != t && j == p {
                    assert(s[s.len() - 1] == x);
                } else {
                    assert(t[if k == t || j < p { j } else { j - 1 }] == x);
                    assert(t.contains(x));
                    assert(s.drop_last().contains(x));
                    let i = choose|i: int| 0 <= i < s.drop_last().len() && s.drop_last()[i] == x;
                    assert(s[i] == x);
                }
            }
        }
    }
}

fn list_items(c: &rustdoc_types::Crate) -> (r: Vec<DocItem>)
    ensures
        lists_items(views(r@), doc_of(*c).items),
{
    let given = item_ids(c);
    let ids = distinct_keys(&given);
    let ghost items = doc_of(*c).items;
    proof {
        assert(views(given@) =~= given@);
        assert(views(ids@) =~= ids@);
        ids_stay(given@);
        keys_ascend::<u32>(given@);
    }
    let mut out: Vec<DocItem> = Vec::new();
    let mut n: usize = 0;
    while n < ids.len()
        invariant
            items == doc_of(*c).items,
            n <= ids@.len(),
            forall|id: u32| ids@.contains(id) <==> #[trigger] items.dom().contains(id),
            out@.len() == n,
            forall|i: int|
                0 <= i < n ==> (#[trigger] views(out@)[i]).id == ids@[i] && items.dom().contains(
                    ids@[i],
                ) && items[ids@[i]] == views(out@)[i],
        decreases ids@.len() - n,
    {
        let id: u32 = ids[n];
        let ghost before = views(out@);
        assert(ids@.contains(id));
        assert(items.dom().contains(id));
        if let (Some((crate_id, span)), Some((tag, name))) = (item_place(c, id), item_type(c, id)) {
            let item = DocItem { id, crate_id, span, impl_data: item_impl(c, id), tag, name };
            assert(item@ == items[id]);
            out.push(item);
        }
        assert(views(out@) == before.push(items[id]));
        n = n + 1;
    }
    proof {
        assert forall|id: u32| #[trigger] items.dom().contains(id) implies exists|i: int|
            0 <= i < views(out@).len() && #[trigger] views(out@)[i] == items[id] by {
            assert(ids@.contains(id));
            let i = choose|i: int| 0 <= i < ids@.len() && ids@[i] == id;
            assert(views(out@)[i] == items[id]);
        }
    }
    out
}

fn list_paths(c: &rustdoc_types::Crate) -> (r: Vec<DocPath>)
    ensures
        lists_paths(views(r@), doc_of(*c).paths),
{
    let given = path_ids(c);
    let ids = distinct_keys(&given);
    let ghost paths = doc_of(*c).paths;
    proof {
        assert(views(given@) =~= given@);
        assert(views(ids@) =~= ids@);
        ids_stay(given@);
        keys_ascend::<u32>(given@);
    }
    let mut out: Vec<DocPath> = Vec::new();
    let mut n: usize = 0;
    while n < ids.len()
        invariant
            paths == doc_of(*c).paths,
            n <= ids@.len(),
            forall|id: u32| ids@.contains(id) <==> #[trigger] paths.dom().contains(id),
            out@.len() == n,
            forall|i: int|
                0 <= i < n ==> (#[trigger] views(out@)[i]).id == ids@[i] && paths.dom().contains(
                    ids@[i],
                ) && paths[ids@[i]] == views(out@)[i],
        decreases ids@.len() - n,
    {
        let id: u32 = ids[n];
        let ghost before = views(out@);
        assert(ids@.contains(id));
        assert(paths.dom().contains(id));
        if let Some(p) = doc_path(c, id) {
            out.push(p);
        }
        assert(views(out@) == before.push(paths[id]));
        n = n + 1;
    }
    proof {
        assert forall|id: u32| #[trigger] paths.dom().contains(id) implies exists|i: int|
            0 <= i < views(out@).len() && #[trigger] views(out@)[i] == paths[id] by {
            assert(ids@.contains(id));
            let i = choose|i: int| 0 <= i < ids@.len() && ids@[i] == id;
            assert(views(out@)[i] == paths[id]);
        }
    }
    out
}

/// Why a document could not be read.
#[derive(Debug)]
pub enum DocFailure {
    /// The text is no document of rustdoc, for what serde_json says.
    Unreadable(String),
    /// The document has another format version.
    Version(u32),
}

/// The message on a document of another format version.
pub fn version_message(found: u32) -> (r: String)
    ensures
        r@ == "rustdoc JSON format_version="@ + dec(found as nat) + " (expected "@ + dec(57)
            + "): update graphlite or pin nightly"@,
{
    let mut out = concat2("rustdoc JSON format_version=", &u64_text(found as u64));
    out.append(" (expected ");
    out.append(&u64_text(EXPECTED_FORMAT_VERSION as u64));
    out.append("): update graphlite or pin nightly");
    out
}

/// Read a document of rustdoc. One of another format version is refused.
pub fn read_doc(text: &str) -> (r: Result<RustdocDoc, DocFailure>)
    ensures
        match doc_read(text@) {
            Err(e) => r matches Err(DocFailure::Unreadable(m)) && m@ == e,
            Ok(d) => if d.format_version != EXPECTED_FORMAT_VERSION {
                r matches Err(DocFailure::Version(v)) && v == d.format_version
            } else {
                r matches Ok(doc) && lists_items(doc@.items, d.items) && lists_paths(
                    doc@.paths,
                    d.paths,
                )
            },
        },
{
    let c = match parse_doc(text) {
        Ok(c) => c,
        Err(e) => {
            return Err(DocFailure::Unreadable(e));
        },
    };
    let version: u32 = doc_version(&c);
    if version != EXPECTED_FORMAT_VERSION {
        return Err(DocFailure::Version(version));
    }
    Ok(RustdocDoc { items: list_items(&c), paths: list_paths(&c) })
}

// ---------------------------------------------------------------------------
// Files under several names
// ---------------------------------------------------------------------------

/// A path, and the same one without links and detours.
#[derive(Debug)]
pub struct Resolved {
    pub path: String,
    pub canonical: String,
}

/// What a [`Resolved`] holds.
#[verifier::ext_equal]
pub struct ResolvedView {
    pub path: Seq<char>,
    pub canonical: Seq<char>,
}

impl DeepView for Resolved {
    type V = ResolvedView;

    open spec fn deep_view(&self) -> ResolvedView {
        ResolvedView {
            path: self.path.deep_view(),
            canonical: self.canonical.deep_view(),
        }
    }
}

impl View for Resolved {
    type V = ResolvedView;

    open spec fn view(&self) -> ResolvedView {
        self.deep_view()
    }
}

/// What the table says a path resolves to, from entry `i` on.
pub open spec fn canonical_at(table: Seq<ResolvedView>, path: Seq<char>, i: int) -> Option<Seq<char>>
    decreases table.len() - i,
{
    if i < 0 || i >= table.len() {
        None
    } else if table[i].path == path {
        Some(table[i].canonical)
    } else {
        canonical_at(table, path, i + 1)
    }
}

/// `keys` with the key, unless it is empty or in it already.
pub open spec fn with_unique(keys: Seq<Seq<char>>, key: Seq<char>) -> Seq<Seq<char>> {
    if key.len() == 0 || keys.contains(key) {
        keys
    } else {
        keys.push(key)
    }
}

/// `keys` with what the path resolves to, where the table says so.
pub open spec fn with_canonical(
    keys: Seq<Seq<char>>,
    table: Seq<ResolvedView>,
    path: Seq<char>,
) -> Seq<Seq<char>> {
    match canonical_at(table, path, 0) {
        Some(c) => with_unique(keys, c),
        None => keys,
    }
}

/// `keys` with a relative path, plain and with `./` before it.
pub open spec fn with_relative(keys: Seq<Seq<char>>, rel: Seq<char>) -> Seq<Seq<char>> {
    with_unique(with_unique(keys, rel), "./"@ + rel)
}

/// A path without `./` before it.
pub open spec fn undotted(file: Seq<char>) -> Seq<char> {
    or_text(without_prefix(file, "./"@), file)
}

/// The names that a file of the code graph may have.
pub open spec fn node_keys(root: Seq<char>, file: Seq<char>, table: Seq<ResolvedView>) -> Seq<
    Seq<char>,
> {
    let keys = with_unique(Seq::empty(), file);
    if begins_with(file, "/"@) {
        if is_within(file, root) {
            with_relative(keys, relative_path(file, root))
        } else {
            keys
        }
    } else {
        let abs = joined_path(root, undotted(file));
        with_canonical(with_unique(with_relative(keys, undotted(file)), abs), table, abs)
    }
}

/// The path of a file of rustdoc's, from the project's root on.
pub open spec fn span_relative(root: Seq<char>, dir: Seq<char>, file: Seq<char>) -> Seq<char> {
    let rel = if is_within(dir, root) {
        relative_path(dir, root)
    } else {
        dir
    };
    if rel.len() != 0 && rel != "."@ && !is_within(file, rel) {
        joined_path(rel, file)
    } else {
        file
    }
}

/// The names that a file of rustdoc's may have. It is read from the project's root or from
/// the crate's directory.
pub open spec fn span_keys(
    root: Seq<char>,
    dir: Seq<char>,
    span_file: Seq<char>,
    table: Seq<ResolvedView>,
) -> Seq<Seq<char>> {
    let file = undotted(span_file);
    if begins_with(file, "/"@) {
        let keys = with_unique(Seq::empty(), file);
        let keys = if is_within(file, root) {
            with_relative(keys, relative_path(file, root))
        } else {
            keys
        };
        with_canonical(keys, table, file)
    } else {
        let rel = span_relative(root, dir, file);
        let from_root = joined_path(root, rel);
        let from_crate = joined_path(dir, file);
        let keys = with_unique(with_relative(Seq::empty(), rel), from_root);
        let keys = with_unique(with_canonical(keys, table, from_root), from_crate);
        with_canonical(keys, table, from_crate)
    }
}

/// Adds a key that is neither empty nor in the list already.
pub fn push_unique(out: &mut Vec<String>, value: String)
    ensures
        views(final(out)@) == with_unique(views(old(out)@), value@),
{
    if !value.as_str().is_empty() && !list_has(out, &value) {
        out.push(value);
    }
}

fn find_canonical(table: &Vec<Resolved>, path: &str) -> (r: Option<String>)
    ensures
        r.deep_view() == canonical_at(views(table@), path@, 0),
{
    let mut i: usize = 0;
    while i < table.len()
        invariant
            i <= table@.len(),
            canonical_at(views(table@), path@, 0) == canonical_at(
                views(table@),
                path@,
                i as int,
            ),
        decreases table@.len() - i,
    {
        assert(views(table@)[i as int] == table@[i as int]@);
        if str_eq(&table[i].path, path) {
            return Some(table[i].canonical.dup());
        }
        i = i + 1;
    }
    None
}

fn push_canonical(out: &mut Vec<String>, table: &Vec<Resolved>, path: &str)
    ensures
        views(final(out)@) == with_canonical(views(old(out)@), views(table@), path@),
{
    if let Some(c) = find_canonical(table, path) {
        push_unique(out, c);
    }
}

fn push_relative(out: &mut Vec<String>, rel: &str)
    ensures
        views(final(out)@) == with_relative(views(old(out)@), rel@),
{
    push_unique(out, rel.to_owned());
    push_unique(out, concat2("./", rel));
}

fn undot(file: &str) -> (r: String)
    ensures
        r@ == undotted(file@),
{
    match strip_prefix(file, "./") {
        Some(rest) => rest,
        None => file.to_owned(),
    }
}

/// The names that a file of the code graph may have.
pub fn node_file_match_keys(abs_root: &str, file: &str, table: &Vec<Resolved>) -> (r: Vec<String>)
    ensures
        views(r@) == node_keys(abs_root@, file@, views(table@)),
{
    let mut out: Vec<String> = Vec::new();
    push_unique(&mut out, file.to_owned());
    if starts_with(file, "/") {
        if within(file, abs_root) {
            push_relative(&mut out, &relative_to(file, abs_root));
        }
    } else {
        let rel = undot(file);
        push_relative(&mut out, &rel);
        let abs = join_path(abs_root, &rel);
        push_unique(&mut out, abs.dup());
        push_canonical(&mut out, table, &abs);
    }
    out
}

fn relative_span(abs_root: &str, crate_dir: &str, file: &str) -> (r: String)
    ensures
        r@ == span_relative(abs_root@, crate_dir@, file@),
{
    let rel = if within(crate_dir, abs_root) {
        relative_to(crate_dir, abs_root)
    } else {
        crate_dir.to_owned()
    };
    if !rel.as_str().is_empty() && !str_eq(&rel, ".") && !within(file, &rel) {
        join_path(&rel, file)
    } else {
        file.to_owned()
    }
}

/// The names that a file of rustdoc's may have.
pub fn span_file_match_keys(
    abs_root: &str,
    crate_abs_dir: &str,
    span_filename: &str,
    table: &Vec<Resolved>,
) -> (r: Vec<String>)
    ensures
        views(r@) == span_keys(abs_root@, crate_abs_dir@, span_filename@, views(table@)),
{
    let mut out: Vec<String> = Vec::new();
    let file = undot(span_filename);
    if starts_with(&file, "/") {
        push_unique(&mut out, file.dup());
        if within(&file, abs_root) {
            push_relative(&mut out, &relative_to(&file, abs_root));
        }
        push_canonical(&mut out, table, &file);
        return out;
    }
    let rel = relative_span(abs_root, crate_abs_dir, &file);
    push_relative(&mut out, &rel);
    let from_root = join_path(abs_root, &rel);
    push_unique(&mut out, from_root.dup());
    push_canonical(&mut out, table, &from_root);
    let from_crate = join_path(crate_abs_dir, &file);
    push_unique(&mut out, from_crate.dup());
    push_canonical(&mut out, table, &from_crate);
    out
}

/// The paths of a file of the code graph that are worth resolving.
pub fn node_paths(abs_root: &str, file: &str) -> (r: Vec<String>)
    ensures
        views(r@) == if begins_with(file@, "/"@) {
            Seq::<Seq<char>>::empty()
        } else {
            Seq::<Seq<char>>::empty().push(joined_path(abs_root@, undotted(file@)))
        },
{
    let mut out: Vec<String> = Vec::new();
    if !starts_with(file, "/") {
        out.push(join_path(abs_root, &undot(file)));
    }
    out
}

/// The paths of a file of rustdoc's that are worth resolving.
pub fn span_paths(abs_root: &str, crate_abs_dir: &str, span_filename: &str) -> (r: Vec<String>)
    ensures
        views(r@) == ({
            let file = undotted(span_filename@);
            if begins_with(file, "/"@) {
                Seq::<Seq<char>>::empty().push(file)
            } else {
                Seq::<Seq<char>>::empty().push(
                    joined_path(abs_root@, span_relative(abs_root@, crate_abs_dir@, file)),
                ).push(joined_path(crate_abs_dir@, file))
            }
        }),
{
    let mut out: Vec<String> = Vec::new();
    let file = undot(span_filename);
    if starts_with(&file, "/") {
        out.push(file);
    } else {
        let rel = relative_span(abs_root, crate_abs_dir, &file);
        out.push(join_path(abs_root, &rel));
        out.push(join_path(crate_abs_dir, &file));
    }
    out
}

/// No name of a file is empty, and none stands twice.
pub open spec fn keys_differ(keys: Seq<Seq<char>>) -> bool {
    &&& forall|i: int| 0 <= i < keys.len() ==> (#[trigger] keys[i]).len() > 0
    &&& forall|i: int, j: int| 0 <= i < j < keys.len() ==> #[trigger] keys[i] != #[trigger] keys[j]
}

proof fn unique_stays(keys: Seq<Seq<char>>, key: Seq<char>)
    requires
        keys_differ(keys),
    ensures
        keys_differ(with_unique(keys, key)),
{
}

/// The names that a file may have are no empty ones, and each stands once.
pub proof fn file_keys_differ(
    root: Seq<char>,
    dir: Seq<char>,
    file: Seq<char>,
    table: Seq<ResolvedView>,
)
    ensures
        keys_differ(node_keys(root, file, table)),
        keys_differ(span_keys(root, dir, file, table)),
{
    assert forall|keys: Seq<Seq<char>>, key: Seq<char>| keys_differ(keys) implies keys_differ(
        #[trigger] with_unique(keys, key),
    ) by {
        unique_stays(keys, key);
    }
}

// ---------------------------------------------------------------------------
// The code graph's symbols by place and by name
// ---------------------------------------------------------------------------

/// Where a symbol of the code graph starts.
#[derive(Debug)]
pub struct NodePlace {
    pub id: i64,
    pub file: String,
    pub range_start: i64,
}

/// What a [`NodePlace`] holds.
#[verifier::ext_equal]
pub struct NodePlaceView {
    pub id: i64,
    pub file: Seq<char>,
    pub range_start: i64,
}

impl DeepView for NodePlace {
    type V = NodePlaceView;

    open spec fn deep_view(&self) -> NodePlaceView {
        NodePlaceView {
            id: self.id.deep_view(),
            file: self.file.deep_view(),
            range_start: self.range_start.deep_view(),
        }
    }
}

impl View for NodePlace {
    type V = NodePlaceView;

    open spec fn view(&self) -> NodePlaceView {
        self.deep_view()
    }
}

/// A name of a symbol's file, the symbol's first line, and the symbol.
#[derive(Debug)]
pub struct NodeKey {
    pub key: String,
    pub line: i64,
    pub id: i64,
}

/// What a [`NodeKey`] holds.
#[verifier::ext_equal]
pub struct NodeKeyView {
    pub key: Seq<char>,
    pub line: i64,
    pub id: i64,
}

impl DeepView for NodeKey {
    type V = NodeKeyView;

    open spec fn deep_view(&self) -> NodeKeyView {
        NodeKeyView {
            key: self.key.deep_view(),
            line: self.line.deep_view(),
            id: self.id.deep_view(),
        }
    }
}

impl View for NodeKey {
    type V = NodeKeyView;

    open spec fn view(&self) -> NodeKeyView {
        self.deep_view()
    }
}

/// The entries of one symbol for the first `k` names of its file.
pub open spec fn with_names(
    map: Seq<NodeKeyView>,
    keys: Seq<Seq<char>>,
    line: i64,
    id: i64,
    k: int,
) -> Seq<NodeKeyView>
    decreases k,
{
    if k <= 0 {
        map
    } else {
        with_names(map, keys, line, id, k - 1).push(NodeKeyView { key: keys[k - 1], line, id })
    }
}

/// The entries of the first `n` symbols.
pub open spec fn node_map(
    rows: Seq<NodePlaceView>,
    root: Seq<char>,
    table: Seq<ResolvedView>,
    n: int,
) -> Seq<NodeKeyView>
    decreases n,
{
    if n <= 0 {
        Seq::empty()
    } else {
        let row = rows[n - 1];
        let keys = node_keys(root, row.file, table);
        with_names(
            node_map(rows, root, table, n - 1),
            keys,
            row.range_start,
            row.id,
            keys.len() as int,
        )
    }
}

/// The symbol of the first entry from `i` on with the name and the line.
pub open spec fn node_at(map: Seq<NodeKeyView>, key: Seq<char>, line: i64, i: int) -> Option<i64>
    decreases map.len() - i,
{
    if i < 0 || i >= map.len() {
        None
    } else if map[i].key == key && map[i].line == line {
        Some(map[i].id)
    } else {
        node_at(map, key, line, i + 1)
    }
}

/// The symbol at the line of the file that has one of the names: by the first name from `k`
/// on that leads to one.
pub open spec fn node_for(map: Seq<NodeKeyView>, keys: Seq<Seq<char>>, line: i64, k: int) -> Option<
    i64,
>
    decreases keys.len() - k,
{
    if k < 0 || k >= keys.len() {
        None
    } else if node_at(map, keys[k], line, 0) is Some {
        node_at(map, keys[k], line, 0)
    } else {
        node_for(map, keys, line, k + 1)
    }
}

fn add_names(map: &mut Vec<NodeKey>, keys: &Vec<String>, line: i64, id: i64)
    ensures
        views(final(map)@) == with_names(
            views(old(map)@),
            views(keys@),
            line,
            id,
            keys@.len() as int,
        ),
{
    let ghost start = views(map@);
    let mut k: usize = 0;
    while k < keys.len()
        invariant
            k <= keys@.len(),
            views(map@) == with_names(start, views(keys@), line, id, k as int),
        decreases keys@.len() - k,
    {
        assert(views(keys@)[k as int] == keys@[k as int]@);
        map.push(NodeKey { key: keys[k].dup(), line, id });
        k = k + 1;
    }
}

/// Find symbols by where they start, under every name that their files may have.
pub fn build_node_map(rows: &Vec<NodePlace>, abs_root: &str, table: &Vec<Resolved>) -> (r: Vec<
    NodeKey,
>)
    ensures
        views(r@) == node_map(views(rows@), abs_root@, views(table@), rows@.len() as int),
{
    let mut out: Vec<NodeKey> = Vec::new();
    let mut n: usize = 0;
    while n < rows.len()
        invariant
            n <= rows@.len(),
            views(out@) == node_map(views(rows@), abs_root@, views(table@), n as int),
        decreases rows@.len() - n,
    {
        let row = &rows[n];
        assert(views(rows@)[n as int] == row@);
        let keys = node_file_match_keys(abs_root, &row.file, table);
        add_names(&mut out, &keys, row.range_start, row.id);
        n = n + 1;
    }
    out
}

fn find_node(map: &Vec<NodeKey>, key: &str, line: i64) -> (r: Option<i64>)
    ensures
        r == node_at(views(map@), key@, line, 0),
{
    let mut i: usize = 0;
    while i < map.len()
        invariant
            i <= map@.len(),
            node_at(views(map@), key@, line, 0) == node_at(views(map@), key@, line, i as int),
        decreases map@.len() - i,
    {
        assert(views(map@)[i as int] == map@[i as int]@);
        if map[i].line == line && str_eq(&map[i].key, key) {
            return Some(map[i].id);
        }
        i = i + 1;
    }
    None
}

/// The symbol at the line of the file that has one of the names.
pub fn lookup_node_id(node_map: &Vec<NodeKey>, file_keys: &Vec<String>, range_start: i64) -> (r:
    Option<i64>)
    ensures
        r == node_for(views(node_map@), views(file_keys@), range_start, 0),
{
    let mut k: usize = 0;
    while k < file_keys.len()
        invariant
            k <= file_keys@.len(),
            node_for(views(node_map@), views(file_keys@), range_start, 0) == node_for(
                views(node_map@),
                views(file_keys@),
                range_start,
                k as int,
            ),
        decreases file_keys@.len() - k,
    {
        assert(views(file_keys@)[k as int] == file_keys@[k as int]@);
        let found = find_node(node_map, &file_keys[k], range_start);
        if found.is_some() {
            return found;
        }
        k = k + 1;
    }
    None
}

/// A symbol with a qualified name, and its file.
#[derive(Debug)]
pub struct NamedNode {
    pub id: i64,
    pub qualified_name: String,
    pub file: String,
}

/// What a [`NamedNode`] holds.
#[verifier::ext_equal]
pub struct NamedNodeView {
    pub id: i64,
    pub qualified_name: Seq<char>,
    pub file: Seq<char>,
}

impl DeepView for NamedNode {
    type V = NamedNodeView;

    open spec fn deep_view(&self) -> NamedNodeView {
        NamedNodeView {
            id: self.id.deep_view(),
            qualified_name: self.qualified_name.deep_view(),
            file: self.file.deep_view(),
        }
    }
}

impl View for NamedNode {
    type V = NamedNodeView;

    open spec fn view(&self) -> NamedNodeView {
        self.deep_view()
    }
}

/// A symbol by its crate and its qualified name.
#[derive(Debug)]
pub struct QualifiedNode {
    pub crate_name: String,
    pub qualified_name: String,
    pub id: i64,
}

/// What a [`QualifiedNode`] holds.
#[verifier::ext_equal]
pub struct QualifiedNodeView {
    pub crate_name: Seq<char>,
    pub qualified_name: Seq<char>,
    pub id: i64,
}

impl DeepView for QualifiedNode {
    type V = QualifiedNodeView;

    open spec fn deep_view(&self) -> QualifiedNodeView {
        QualifiedNodeView {
            crate_name: self.crate_name.deep_view(),
            qualified_name: self.qualified_name.deep_view(),
            id: self.id.deep_view(),
        }
    }
}

impl View for QualifiedNode {
    type V = QualifiedNodeView;

    open spec fn view(&self) -> QualifiedNodeView {
        self.deep_view()
    }
}

/// The first crate from `i` on whose directory holds the file.
pub open spec fn crate_holding(crates: Seq<CrateInfoView>, file: Seq<char>, i: int) -> Option<int>
    decreases crates.len() - i,
{
    if i < 0 || i >= crates.len() {
        None
    } else if is_within(file, crates[i].abs_dir) {
        Some(i)
    } else {
        crate_holding(crates, file, i + 1)
    }
}

/// The full path of a file of the code graph.
pub open spec fn absolute_file(root: Seq<char>, file: Seq<char>) -> Seq<char> {
    if begins_with(file, "/"@) {
        file
    } else {
        joined_path(root, undotted(file))
    }
}

/// Those of the first `n` symbols that are in crates, by crate and name.
pub open spec fn qualified_map(
    rows: Seq<NamedNodeView>,
    crates: Seq<CrateInfoView>,
    root: Seq<char>,
    n: int,
) -> Seq<QualifiedNodeView>
    decreases n,
{
    if n <= 0 {
        Seq::empty()
    } else {
        let rest = qualified_map(rows, crates, root, n - 1);
        let row = rows[n - 1];
        match crate_holding(crates, absolute_file(root, row.file), 0) {
            Some(i) => rest.push(
                QualifiedNodeView {
                    crate_name: replaced(crates[i].name, "-"@, "_"@),
                    qualified_name: row.qualified_name,
                    id: row.id,
                },
            ),
            None => rest,
        }
    }
}

fn find_crate(crates: &Vec<CrateInfo>, file: &str) -> (r: Option<usize>)
    ensures
        match r {
            Some(i) => i < crates@.len() && crate_holding(views(crates@), file@, 0) == Some(
                i as int,
            ),
            None => crate_holding(views(crates@), file@, 0) is None,
        },
{
    let mut i: usize = 0;
    while i < crates.len()
        invariant
            i <= crates@.len(),
            crate_holding(views(crates@), file@, 0) == crate_holding(
                views(crates@),
                file@,
                i as int,
            ),
        decreases crates@.len() - i,
    {
        assert(views(crates@)[i as int] == crates@[i as int]@);
        if within(file, &crates[i].abs_dir) {
            return Some(i);
        }
        i = i + 1;
    }
    None
}

/// Find symbols by their crates and qualified names.
pub fn build_qualified_node_map(
    rows: &Vec<NamedNode>,
    crates: &Vec<CrateInfo>,
    abs_root: &str,
) -> (r: Vec<QualifiedNode>)
    ensures
        views(r@) == qualified_map(
            views(rows@),
            views(crates@),
            abs_root@,
            rows@.len() as int,
        ),
{
    let mut out: Vec<QualifiedNode> = Vec::new();
    let mut n: usize = 0;
    while n < rows.len()
        invariant
            n <= rows@.len(),
            views(out@) == qualified_map(views(rows@), views(crates@), abs_root@, n as int),
        decreases rows@.len() - n,
    {
        let row = &rows[n];
        assert(views(rows@)[n as int] == row@);
        let file = if starts_with(&row.file, "/") {
            row.file.dup()
        } else {
            join_path(abs_root, &undot(&row.file))
        };
        if let Some(i) = find_crate(crates, &file) {
            assert(views(crates@)[i as int] == crates@[i as int]@);
            out.push(
                QualifiedNode {
                    crate_name: safe_name(&crates[i].name),
                    qualified_name: row.qualified_name.dup(),
                    id: row.id,
                },
            );
        }
        n = n + 1;
    }
    out
}

// ---------------------------------------------------------------------------
// What rustdoc says of symbols
// ---------------------------------------------------------------------------

/// `pairs` with the trait for each of the first `k` items of an `impl`.
pub open spec fn with_methods(
    pairs: Seq<(u32, Seq<char>)>,
    items: Seq<u32>,
    path: Seq<char>,
    k: int,
) -> Seq<(u32, Seq<char>)>
    decreases k,
{
    if k <= 0 {
        pairs
    } else {
        with_methods(pairs, items, path, k - 1).push((items[k - 1], path))
    }
}

/// The items of trait `impl`s among the first `n` items, each with the trait.
pub open spec fn method_traits(items: Seq<DocItemView>, n: int) -> Seq<(u32, Seq<char>)>
    decreases n,
{
    if n <= 0 {
        Seq::empty()
    } else {
        let rest = method_traits(items, n - 1);
        let item = items[n - 1];
        match item.impl_data {
            Some(d) => match d.trait_ref {
                Some(t) => if item.crate_id == 0 {
                    with_methods(rest, d.items, t.path, d.items.len() as int)
                } else {
                    rest
                },
                None => rest,
            },
            None => rest,
        }
    }
}

/// The text that the last of the first `n` pairs with the id has.
pub open spec fn last_text(pairs: Seq<(u32, Seq<char>)>, id: u32, n: int) -> Option<Seq<char>>
    decreases n,
{
    if n <= 0 {
        None
    } else if pairs[n - 1].0 == id {
        Some(pairs[n - 1].1)
    } else {
        last_text(pairs, id, n - 1)
    }
}

/// The qualified names that the first `n` paths give: without the crate's name.
pub open spec fn qualified_names(paths: Seq<DocPathView>, n: int) -> Seq<(u32, Seq<char>)>
    decreases n,
{
    if n <= 0 {
        Seq::empty()
    } else {
        let rest = qualified_names(paths, n - 1);
        let p = paths[n - 1];
        if p.crate_id != 0 || p.path.len() < 2 {
            rest
        } else {
            rest.push((p.id, joined(p.path.skip(1), "::"@)))
        }
    }
}

fn find_text(pairs: &Vec<(u32, String)>, id: u32) -> (r: Option<String>)
    ensures
        r.deep_view() == last_text(views(pairs@), id, pairs@.len() as int),
{
    let mut n: usize = pairs.len();
    while n > 0
        invariant
            n <= pairs@.len(),
            last_text(views(pairs@), id, pairs@.len() as int) == last_text(
                views(pairs@),
                id,
                n as int,
            ),
        decreases n,
    {
        assert(views(pairs@)[n - 1] == (pairs@[n - 1].0, pairs@[n - 1].1@));
        if pairs[n - 1].0 == id {
            return Some(pairs[n - 1].1.dup());
        }
        n = n - 1;
    }
    None
}

fn add_methods(pairs: &mut Vec<(u32, String)>, items: &Vec<u32>, path: &str)
    ensures
        views(final(pairs)@) == with_methods(
            views(old(pairs)@),
            views(items@),
            path@,
            items@.len() as int,
        ),
{
    let ghost start = views(pairs@);
    let mut k: usize = 0;
    while k < items.len()
        invariant
            k <= items@.len(),
            views(pairs@) == with_methods(start, views(items@), path@, k as int),
        decreases items@.len() - k,
    {
        assert(views(items@)[k as int] == items@[k as int]);
        pairs.push((items[k], path.to_owned()));
        k = k + 1;
    }
}

/// The items of trait `impl`s, each with the trait.
pub fn build_method_to_trait(doc: &RustdocDoc) -> (r: Vec<(u32, String)>)
    ensures
        views(r@) == method_traits(doc@.items, doc@.items.len() as int),
{
    let mut out: Vec<(u32, String)> = Vec::new();
    let mut n: usize = 0;
    while n < doc.items.len()
        invariant
            n <= doc.items@.len(),
            views(out@) == method_traits(doc@.items, n as int),
        decreases doc.items@.len() - n,
    {
        let item = &doc.items[n];
        assert(doc@.items[n as int] == item@);
        if item.crate_id == 0 {
            if let Some(d) = &item.impl_data {
                if let Some(t) = &d.trait_ref {
                    add_methods(&mut out, &d.items, &t.path);
                }
            }
        }
        n = n + 1;
    }
    out
}

fn path_from(path: &Vec<String>, from: usize) -> (r: String)
    requires
        from <= path@.len(),
    ensures
        r@ == joined(views(path@).skip(from as int), "::"@),
{
    let mut parts: Vec<String> = Vec::new();
    let ghost pv = views(path@);
    let mut i: usize = from;
    while i < path.len()
        invariant
            pv == views(path@),
            from <= i <= path@.len(),
            views(parts@) =~= pv.subrange(from as int, i as int),
        decreases path@.len() - i,
    {
        assert(pv[i as int] == path@[i as int]@);
        parts.push(path[i].dup());
        i = i + 1;
    }
    assert(views(parts@) =~= pv.skip(from as int));
    join(&parts, "::")
}

/// The qualified names that the paths give.
pub fn build_qualified_names(doc: &RustdocDoc) -> (r: Vec<(u32, String)>)
    ensures
        views(r@) == qualified_names(doc@.paths, doc@.paths.len() as int),
{
    let mut out: Vec<(u32, String)> = Vec::new();
    let mut n: usize = 0;
    while n < doc.paths.len()
        invariant
            n <= doc.paths@.len(),
            views(out@) == qualified_names(doc@.paths, n as int),
        decreases doc.paths@.len() - n,
    {
        let p = &doc.paths[n];
        assert(doc@.paths[n as int] == p@);
        if p.crate_id == 0 && p.path.len() >= 2 {
            out.push((p.id, path_from(&p.path, 1)));
        }
        n = n + 1;
    }
    out
}

/// What rustdoc says of a symbol.
#[derive(Debug)]
pub struct NodeUpdate {
    pub node_id: i64,
    pub qualified_name: Option<String>,
    pub trait_impl: Option<String>,
}

/// What a [`NodeUpdate`] holds.
#[verifier::ext_equal]
pub struct NodeUpdateView {
    pub node_id: i64,
    pub qualified_name: Option<Seq<char>>,
    pub trait_impl: Option<Seq<char>>,
}

impl DeepView for NodeUpdate {
    type V = NodeUpdateView;

    open spec fn deep_view(&self) -> NodeUpdateView {
        NodeUpdateView {
            node_id: self.node_id.deep_view(),
            qualified_name: self.qualified_name.deep_view(),
            trait_impl: self.trait_impl.deep_view(),
        }
    }
}

impl View for NodeUpdate {
    type V = NodeUpdateView;

    open spec fn view(&self) -> NodeUpdateView {
        self.deep_view()
    }
}

/// The symbol that an item is, by where it is.
pub open spec fn item_node(
    item: DocItemView,
    map: Seq<NodeKeyView>,
    root: Seq<char>,
    dir: Seq<char>,
    table: Seq<ResolvedView>,
) -> Option<i64> {
    match item.span {
        Some(s) => node_for(map, span_keys(root, dir, s.file, table), s.line, 0),
        None => None,
    }
}

/// What rustdoc says of the symbols that the first `n` items are.
pub open spec fn updates_in(
    doc: RustdocDocView,
    map: Seq<NodeKeyView>,
    root: Seq<char>,
    dir: Seq<char>,
    table: Seq<ResolvedView>,
    n: int,
) -> Seq<NodeUpdateView>
    decreases n,
{
    if n <= 0 {
        Seq::empty()
    } else {
        let rest = updates_in(doc, map, root, dir, table, n - 1);
        let item = doc.items[n - 1];
        let names = qualified_names(doc.paths, doc.paths.len() as int);
        let traits = method_traits(doc.items, doc.items.len() as int);
        match item_node(item, map, root, dir, table) {
            Some(node_id) => if item.crate_id == 0 {
                rest.push(
                    NodeUpdateView {
                        node_id,
                        qualified_name: last_text(names, item.id, names.len() as int),
                        trait_impl: last_text(traits, item.id, traits.len() as int),
                    },
                )
            } else {
                rest
            },
            None => rest,
        }
    }
}

fn find_item_node(
    item: &DocItem,
    map: &Vec<NodeKey>,
    abs_root: &str,
    crate_dir: &str,
    table: &Vec<Resolved>,
) -> (r: Option<i64>)
    ensures
        r == item_node(item@, views(map@), abs_root@, crate_dir@, views(table@)),
{
    match &item.span {
        Some(s) => {
            let keys = span_file_match_keys(abs_root, crate_dir, &s.file, table);
            lookup_node_id(map, &keys, s.line)
        },
        None => None,
    }
}

/// What rustdoc says of the symbols of a crate.
pub fn parse_crate_enrichment(
    doc: &RustdocDoc,
    map: &Vec<NodeKey>,
    abs_root: &str,
    crate_abs_dir: &str,
    table: &Vec<Resolved>,
) -> (r: Vec<NodeUpdate>)
    ensures
        views(r@) == updates_in(
            doc@,
            views(map@),
            abs_root@,
            crate_abs_dir@,
            views(table@),
            doc@.items.len() as int,
        ),
{
    let traits = build_method_to_trait(doc);
    let names = build_qualified_names(doc);
    let mut out: Vec<NodeUpdate> = Vec::new();
    let mut n: usize = 0;
    while n < doc.items.len()
        invariant
            n <= doc.items@.len(),
            views(traits@) == method_traits(doc@.items, doc@.items.len() as int),
            views(names@) == qualified_names(doc@.paths, doc@.paths.len() as int),
            views(out@) == updates_in(
                doc@,
                views(map@),
                abs_root@,
                crate_abs_dir@,
                views(table@),
                n as int,
            ),
        decreases doc.items@.len() - n,
    {
        let item = &doc.items[n];
        assert(doc@.items[n as int] == item@);
        if item.crate_id == 0 {
            if let Some(node_id) = find_item_node(item, map, abs_root, crate_abs_dir, table) {
                let qualified_name = find_text(&names, item.id);
                let trait_impl = find_text(&traits, item.id);
                out.push(NodeUpdate { node_id, qualified_name, trait_impl });
            }
        }
        n = n + 1;
    }
    out
}

// ---------------------------------------------------------------------------
// Trait links
// ---------------------------------------------------------------------------

/// The symbols that the first `n` items are, by id.
pub open spec fn nodes_of_items(
    items: Seq<DocItemView>,
    map: Seq<NodeKeyView>,
    root: Seq<char>,
    dir: Seq<char>,
    table: Seq<ResolvedView>,
    n: int,
) -> Seq<(u32, i64)>
    decreases n,
{
    if n <= 0 {
        Seq::empty()
    } else {
        let rest = nodes_of_items(items, map, root, dir, table, n - 1);
        match item_node(items[n - 1], map, root, dir, table) {
            Some(id) => rest.push((items[n - 1].id, id)),
            None => rest,
        }
    }
}

/// The symbol of the first pair from `i` on with the id.
pub open spec fn node_of_id(pairs: Seq<(u32, i64)>, id: u32, i: int) -> Option<i64>
    decreases pairs.len() - i,
{
    if i < 0 || i >= pairs.len() {
        None
    } else if pairs[i].0 == id {
        Some(pairs[i].1)
    } else {
        node_of_id(pairs, id, i + 1)
    }
}

/// The path of the first entry from `i` on with the id.
pub open spec fn path_of(paths: Seq<DocPathView>, id: u32, i: int) -> Option<Seq<Seq<char>>>
    decreases paths.len() - i,
{
    if i < 0 || i >= paths.len() {
        None
    } else if paths[i].id == id {
        Some(paths[i].path)
    } else {
        path_of(paths, id, i + 1)
    }
}

/// The symbols among the first `n` with the crate and the name.
pub open spec fn ids_named(
    map: Seq<QualifiedNodeView>,
    crate_name: Seq<char>,
    name: Seq<char>,
    n: int,
) -> Seq<i64>
    decreases n,
{
    if n <= 0 {
        Seq::empty()
    } else if map[n - 1].crate_name == crate_name && map[n - 1].qualified_name == name {
        ids_named(map, crate_name, name, n - 1).push(map[n - 1].id)
    } else {
        ids_named(map, crate_name, name, n - 1)
    }
}

/// The symbol that an id of a document stands for: the one where the item is, or else the
/// only one with its path.
pub open spec fn resolved_node(
    paths: Seq<DocPathView>,
    id: u32,
    nodes: Seq<(u32, i64)>,
    map: Seq<QualifiedNodeView>,
) -> Option<i64> {
    match node_of_id(nodes, id, 0) {
        Some(n) => Some(n),
        None => match path_of(paths, id, 0) {
            Some(path) => if path.len() == 0 {
                None
            } else {
                let ids = ids_named(
                    map,
                    replaced(path[0], "-"@, "_"@),
                    joined(path.skip(1), "::"@),
                    map.len() as int,
                );
                if ids.len() == 1 {
                    Some(ids[0])
                } else {
                    None
                }
            },
            None => None,
        },
    }
}

/// An item is in one of the project's crates, by its path.
pub open spec fn in_workspace(
    paths: Seq<DocPathView>,
    id: u32,
    map: Seq<QualifiedNodeView>,
) -> bool {
    path_of(paths, id, 0) matches Some(path) && path.len() > 0 && exists|i: int|
        0 <= i < map.len() && (#[trigger] map[i]).crate_name == path[0]
}

/// An item as messages name it.
pub open spec fn label_of(paths: Seq<DocPathView>, id: u32) -> Seq<char> {
    match path_of(paths, id, 0) {
        Some(path) => joined(path, "::"@),
        None => "rustdoc-id-"@ + dec(id as nat),
    }
}

/// Why a trait link was left out.
#[derive(Clone, Copy, PartialEq, Eq, Structural, Debug)]
pub enum SkipCause {
    /// The type is no symbol of the code graph.
    Target,
    /// The trait is one of the project's crates and no symbol of the code graph.
    WorkspaceTrait,
    /// The trait is one of another crate.
    ExternalTrait,
}

/// A trait link that was left out.
#[derive(Debug)]
pub struct SkippedLink {
    pub type_label: String,
    pub trait_label: String,
    pub cause: SkipCause,
}

/// What a [`SkippedLink`] holds.
#[verifier::ext_equal]
pub struct SkippedLinkView {
    pub type_label: Seq<char>,
    pub trait_label: Seq<char>,
    pub cause: SkipCause,
}

impl DeepView for SkippedLink {
    type V = SkippedLinkView;

    open spec fn deep_view(&self) -> SkippedLinkView {
        SkippedLinkView {
            type_label: self.type_label.deep_view(),
            trait_label: self.trait_label.deep_view(),
            cause: self.cause,
        }
    }
}

impl View for SkippedLink {
    type V = SkippedLinkView;

    open spec fn view(&self) -> SkippedLinkView {
        self.deep_view()
    }
}

/// What an `impl` comes to.
pub enum LinkView {
    Nothing,
    Link(i64, i64),
    Skipped(SkippedLinkView),
}

/// What an item comes to as a trait link: only a written `impl` of a trait for a named type
/// is one.
pub open spec fn link_of(
    doc: RustdocDocView,
    item: DocItemView,
    nodes: Seq<(u32, i64)>,
    map: Seq<QualifiedNodeView>,
) -> LinkView {
    match item.impl_data {
        Some(d) => match (d.trait_ref, d.type_id) {
            (Some(t), Some(type_id)) => if item.crate_id != 0 || d.is_synthetic {
                LinkView::Nothing
            } else {
                match (
                    node_of_id(nodes, type_id, 0),
                    resolved_node(doc.paths, t.id, nodes, map),
                ) {
                    (Some(from), Some(to)) => LinkView::Link(from, to),
                    (from, _) => LinkView::Skipped(
                        SkippedLinkView {
                            type_label: label_of(doc.paths, type_id),
                            trait_label: label_of(doc.paths, t.id),
                            cause: if from is None {
                                SkipCause::Target
                            } else if in_workspace(doc.paths, t.id, map) {
                                SkipCause::WorkspaceTrait
                            } else {
                                SkipCause::ExternalTrait
                            },
                        },
                    ),
                }
            },
            _ => LinkView::Nothing,
        },
        None => LinkView::Nothing,
    }
}

/// The trait links that the first `n` items come to.
pub open spec fn links_in(
    doc: RustdocDocView,
    nodes: Seq<(u32, i64)>,
    map: Seq<QualifiedNodeView>,
    n: int,
) -> Seq<(i64, i64)>
    decreases n,
{
    if n <= 0 {
        Seq::empty()
    } else {
        match link_of(doc, doc.items[n - 1], nodes, map) {
            LinkView::Link(from, to) => links_in(doc, nodes, map, n - 1).push((from, to)),
            _ => links_in(doc, nodes, map, n - 1),
        }
    }
}

/// The trait links among the first `n` items that were left out.
pub open spec fn skipped_in(
    doc: RustdocDocView,
    nodes: Seq<(u32, i64)>,
    map: Seq<QualifiedNodeView>,
    n: int,
) -> Seq<SkippedLinkView>
    decreases n,
{
    if n <= 0 {
        Seq::empty()
    } else {
        match link_of(doc, doc.items[n - 1], nodes, map) {
            LinkView::Skipped(s) => skipped_in(doc, nodes, map, n - 1).push(s),
            _ => skipped_in(doc, nodes, map, n - 1),
        }
    }
}

/// The trait links of a document: those that were found and those that were left out.
pub struct TraitLinks {
    pub edges: Vec<(i64, i64)>,
    pub skipped: Vec<SkippedLink>,
}

fn find_path<'a>(doc: &'a RustdocDoc, id: u32) -> (r: Option<&'a Vec<String>>)
    ensures
        match r {
            Some(p) => path_of(doc@.paths, id, 0) == Some(views(p@)),
            None => path_of(doc@.paths, id, 0) is None,
        },
{
    let mut i: usize = 0;
    while i < doc.paths.len()
        invariant
            i <= doc.paths@.len(),
            path_of(doc@.paths, id, 0) == path_of(doc@.paths, id, i as int),
        decreases doc.paths@.len() - i,
    {
        assert(doc@.paths[i as int] == doc.paths@[i as int]@);
        if doc.paths[i].id == id {
            return Some(&doc.paths[i].path);
        }
        i = i + 1;
    }
    None
}

fn find_node_of(pairs: &Vec<(u32, i64)>, id: u32) -> (r: Option<i64>)
    ensures
        r == node_of_id(pairs@, id, 0),
{
    let mut i: usize = 0;
    while i < pairs.len()
        invariant
            i <= pairs@.len(),
            node_of_id(pairs@, id, 0) == node_of_id(pairs@, id, i as int),
        decreases pairs@.len() - i,
    {
        if pairs[i].0 == id {
            return Some(pairs[i].1);
        }
        i = i + 1;
    }
    None
}

/// An item as messages name it.
pub fn rustdoc_path_label(doc: &RustdocDoc, item_id: u32) -> (r: String)
    ensures
        r@ == label_of(doc@.paths, item_id),
{
    match find_path(doc, item_id) {
        Some(path) => join(path, "::"),
        None => concat2("rustdoc-id-", &u64_text(item_id as u64)),
    }
}

/// Whether an item is in one of the project's crates, by its path.
pub fn is_workspace_rustdoc_path(
    doc: &RustdocDoc,
    item_id: u32,
    qualified: &Vec<QualifiedNode>,
) -> (r: bool)
    ensures
        r == in_workspace(doc@.paths, item_id, views(qualified@)),
{
    let path = match find_path(doc, item_id) {
        Some(p) => p,
        None => {
            return false;
        },
    };
    assert(views(path@).len() == path@.len());
    if path.len() == 0 {
        return false;
    }
    assert(views(path@)[0] == path@[0]@);
    let mut i: usize = 0;
    while i < qualified.len()
        invariant
            path@.len() > 0,
            path_of(doc@.paths, item_id, 0) == Some(views(path@)),
            views(path@)[0] == path@[0]@,
            i <= qualified@.len(),
            forall|k: int|
                0 <= k < i ==> (#[trigger] views(qualified@)[k]).crate_name != path@[0]@,
        decreases qualified@.len() - i,
    {
        assert(views(qualified@)[i as int] == qualified@[i as int]@);
        if str_eq(&qualified[i].crate_name, &path[0]) {
            return true;
        }
        i = i + 1;
    }
    false
}

/// The symbol that an id of a document stands for.
pub fn resolve_rustdoc_node_id(
    doc: &RustdocDoc,
    item_id: u32,
    item_nodes: &Vec<(u32, i64)>,
    qualified: &Vec<QualifiedNode>,
) -> (r: Option<i64>)
    ensures
        r == resolved_node(doc@.paths, item_id, item_nodes@, views(qualified@)),
{
    let known = find_node_of(item_nodes, item_id);
    if known.is_some() {
        return known;
    }
    let path = match find_path(doc, item_id) {
        Some(p) => p,
        None => {
            return None;
        },
    };
    assert(views(path@).len() == path@.len());
    if path.len() == 0 {
        return None;
    }
    assert(views(path@)[0] == path@[0]@);
    let crate_name = safe_name(&path[0]);
    let name = path_from(path, 1);
    let mut ids: Vec<i64> = Vec::new();
    let mut n: usize = 0;
    while n < qualified.len()
        invariant
            n <= qualified@.len(),
            ids@ == ids_named(views(qualified@), crate_name@, name@, n as int),
        decreases qualified@.len() - n,
    {
        assert(views(qualified@)[n as int] == qualified@[n as int]@);
        if str_eq(&qualified[n].crate_name, &crate_name) && str_eq(
            &qualified[n].qualified_name,
            &name,
        ) {
            ids.push(qualified[n].id);
        }
        n = n + 1;
    }
    if ids.len() == 1 {
        Some(ids[0])
    } else {
        None
    }
}

fn add_link(
    doc: &RustdocDoc,
    item: &DocItem,
    nodes: &Vec<(u32, i64)>,
    qualified: &Vec<QualifiedNode>,
    links: &mut TraitLinks,
)
    ensures
        match link_of(doc@, item@, nodes@, views(qualified@)) {
            LinkView::Nothing => final(links).edges@ == old(links).edges@ && views(
                final(links).skipped@,
            ) == views(old(links).skipped@),
            LinkView::Link(from, to) => final(links).edges@ == old(links).edges@.push((from, to))
                && views(final(links).skipped@) == views(old(links).skipped@),
            LinkView::Skipped(s) => final(links).edges@ == old(links).edges@ && views(
                final(links).skipped@,
            ) == views(old(links).skipped@).push(s),
        },
{
    let d = match &item.impl_data {
        Some(d) => d,
        None => {
            return;
        },
    };
    let t = match &d.trait_ref {
        Some(t) => t,
        None => {
            return;
        },
    };
    let type_id: u32 = match d.type_id {
        Some(i) => i,
        None => {
            return;
        },
    };
    if item.crate_id != 0 || d.is_synthetic {
        return;
    }
    let from = find_node_of(nodes, type_id);
    let to = resolve_rustdoc_node_id(doc, t.id, nodes, qualified);
    match (from, to) {
        (Some(a), Some(b)) => {
            links.edges.push((a, b));
        },
        (from, _) => {
            let cause = if from.is_none() {
                SkipCause::Target
            } else if is_workspace_rustdoc_path(doc, t.id, qualified) {
                SkipCause::WorkspaceTrait
            } else {
                SkipCause::ExternalTrait
            };
            let type_label = rustdoc_path_label(doc, type_id);
            let trait_label = rustdoc_path_label(doc, t.id);
            links.skipped.push(SkippedLink { type_label, trait_label, cause });
        },
    }
}

/// The trait links of a document: from the type's symbol to the trait's. `made` are the symbols
/// of the types that macros made, by the items' ids.
pub fn collect_impl_trait_edges(
    doc: &RustdocDoc,
    map: &Vec<NodeKey>,
    abs_root: &str,
    crate_abs_dir: &str,
    table: &Vec<Resolved>,
    made: &Vec<(u32, i64)>,
    qualified: &Vec<QualifiedNode>,
) -> (r: TraitLinks)
    ensures
        ({
            let nodes = made@ + nodes_of_items(
                doc@.items,
                views(map@),
                abs_root@,
                crate_abs_dir@,
                views(table@),
                doc@.items.len() as int,
            );
            let n = doc@.items.len() as int;
            &&& r.edges@ == links_in(doc@, nodes, views(qualified@), n)
            &&& views(r.skipped@) == skipped_in(doc@, nodes, views(qualified@), n)
        }),
{
    let mut nodes: Vec<(u32, i64)> = Vec::new();
    let mut n: usize = 0;
    while n < made.len()
        invariant
            n <= made@.len(),
            nodes@ =~= made@.take(n as int),
        decreases made@.len() - n,
    {
        nodes.push(made[n]);
        n = n + 1;
    }
    let mut n: usize = 0;
    assert(nodes@ =~= made@);
    while n < doc.items.len()
        invariant
            n <= doc.items@.len(),
            nodes@ =~= made@ + nodes_of_items(
                doc@.items,
                views(map@),
                abs_root@,
                crate_abs_dir@,
                views(table@),
                n as int,
            ),
        decreases doc.items@.len() - n,
    {
        assert(doc@.items[n as int] == doc.items@[n as int]@);
        if let Some(id) = find_item_node(&doc.items[n], map, abs_root, crate_abs_dir, table) {
            nodes.push((doc.items[n].id, id));
        }
        n = n + 1;
    }
    let mut links = TraitLinks { edges: Vec::new(), skipped: Vec::new() };
    let mut n: usize = 0;
    while n < doc.items.len()
        invariant
            n <= doc.items@.len(),
            links.edges@ == links_in(doc@, nodes@, views(qualified@), n as int),
            views(links.skipped@) == skipped_in(doc@, nodes@, views(qualified@), n as int),
        decreases doc.items@.len() - n,
    {
        assert(doc@.items[n as int] == doc.items@[n as int]@);
        add_link(doc, &doc.items[n], &nodes, qualified, &mut links);
        n = n + 1;
    }
    links
}

// ---------------------------------------------------------------------------
// Types that macros make
// ---------------------------------------------------------------------------

/// A symbol of the code graph by its file and its name. `made` says that it stands for a type
/// that a macro made, and not for one that the file declares.
#[derive(Debug)]
pub struct TypeRow {
    pub id: i64,
    pub file: String,
    pub name: String,
    pub made: bool,
}

/// What a [`TypeRow`] holds.
#[verifier::ext_equal]
pub struct TypeRowView {
    pub id: i64,
    pub file: Seq<char>,
    pub name: Seq<char>,
    pub made: bool,
}

impl DeepView for TypeRow {
    type V = TypeRowView;

    open spec fn deep_view(&self) -> TypeRowView {
        TypeRowView {
            id: self.id.deep_view(),
            file: self.file.deep_view(),
            name: self.name.deep_view(),
            made: self.made.deep_view(),
        }
    }
}

impl View for TypeRow {
    type V = TypeRowView;

    open spec fn view(&self) -> TypeRowView {
        self.deep_view()
    }
}

/// A type that a macro made, to be stored at the place where the macro is called.
#[derive(Debug)]
pub struct MadeType {
    pub item_id: u32,
    pub kind: String,
    pub name: String,
    pub file: String,
    pub line: i64,
    pub qualified_name: String,
    pub stable_id: String,
}

/// What a [`MadeType`] holds.
#[verifier::ext_equal]
pub struct MadeTypeView {
    pub item_id: u32,
    pub kind: Seq<char>,
    pub name: Seq<char>,
    pub file: Seq<char>,
    pub line: i64,
    pub qualified_name: Seq<char>,
    pub stable_id: Seq<char>,
}

impl DeepView for MadeType {
    type V = MadeTypeView;

    open spec fn deep_view(&self) -> MadeTypeView {
        MadeTypeView {
            item_id: self.item_id.deep_view(),
            kind: self.kind.deep_view(),
            name: self.name.deep_view(),
            file: self.file.deep_view(),
            line: self.line.deep_view(),
            qualified_name: self.qualified_name.deep_view(),
            stable_id: self.stable_id.deep_view(),
        }
    }
}

impl View for MadeType {
    type V = MadeTypeView;

    open spec fn view(&self) -> MadeTypeView {
        self.deep_view()
    }
}

/// The first symbol from `i` on with the file and the name.
pub open spec fn row_of_type(rows: Seq<TypeRowView>, file: Seq<char>, name: Seq<char>, i: int) -> Option<
    int,
>
    decreases rows.len() - i,
{
    if i < 0 || i >= rows.len() {
        None
    } else if rows[i].file == file && rows[i].name == name {
        Some(i)
    } else {
        row_of_type(rows, file, name, i + 1)
    }
}

fn find_type_row(rows: &Vec<TypeRow>, file: &str, name: &str) -> (r: Option<usize>)
    ensures
        match r {
            Some(k) => row_of_type(views(rows@), file@, name@, 0) == Some(k as int) && k
                < rows@.len(),
            None => row_of_type(views(rows@), file@, name@, 0) is None,
        },
{
    let mut i: usize = 0;
    while i < rows.len()
        invariant
            i <= rows@.len(),
            row_of_type(views(rows@), file@, name@, 0) == row_of_type(
                views(rows@),
                file@,
                name@,
                i as int,
            ),
        decreases rows@.len() - i,
    {
        assert(views(rows@)[i as int] == rows@[i as int]@);
        if str_eq(&rows[i].file, file) && str_eq(&rows[i].name, name) {
            return Some(i);
        }
        i = i + 1;
    }
    None
}

/// Which of the indexed files a span is in: the first one with a name in common.
pub open spec fn indexed_file(
    span: DocSpanView,
    files: Seq<Seq<char>>,
    root: Seq<char>,
    dir: Seq<char>,
    table: Seq<ResolvedView>,
    i: int,
) -> Option<int>
    decreases files.len() - i,
{
    if i < 0 || i >= files.len() {
        None
    } else if share_key(node_keys(root, files[i], table), span_keys(root, dir, span.file, table)) {
        Some(i)
    } else {
        indexed_file(span, files, root, dir, table, i + 1)
    }
}

/// A key stands in both lists.
pub open spec fn share_key(a: Seq<Seq<char>>, b: Seq<Seq<char>>) -> bool {
    exists|i: int| 0 <= i < a.len() && b.contains(#[trigger] a[i])
}

fn check_shared(a: &Vec<String>, b: &Vec<String>) -> (r: bool)
    ensures
        r == share_key(views(a@), views(b@)),
{
    let mut i: usize = 0;
    while i < a.len()
        invariant
            i <= a@.len(),
            forall|k: int| 0 <= k < i ==> !views(b@).contains(#[trigger] views(a@)[k]),
        decreases a@.len() - i,
    {
        assert(views(a@)[i as int] == a@[i as int]@);
        if list_has(b, &a[i]) {
            return true;
        }
        i = i + 1;
    }
    false
}

fn find_file(
    span: &DocSpan,
    files: &Vec<String>,
    abs_root: &str,
    crate_dir: &str,
    table: &Vec<Resolved>,
) -> (r: Option<usize>)
    ensures
        match r {
            Some(k) => indexed_file(
                span@,
                views(files@),
                abs_root@,
                crate_dir@,
                views(table@),
                0,
            ) == Some(k as int) && k < files@.len(),
            None => indexed_file(
                span@,
                views(files@),
                abs_root@,
                crate_dir@,
                views(table@),
                0,
            ) is None,
        },
{
    let keys = span_file_match_keys(abs_root, crate_dir, &span.file, table);
    let ghost fv = views(files@);
    let mut i: usize = 0;
    while i < files.len()
        invariant
            fv == views(files@),
            i <= files@.len(),
            views(keys@) == span_keys(abs_root@, crate_dir@, span@.file, views(table@)),
            indexed_file(span@, fv, abs_root@, crate_dir@, views(table@), 0) == indexed_file(
                span@,
                fv,
                abs_root@,
                crate_dir@,
                views(table@),
                i as int,
            ),
        decreases files@.len() - i,
    {
        assert(fv[i as int] == files@[i as int]@);
        let own = node_file_match_keys(abs_root, &files[i], table);
        if check_shared(&own, &keys) {
            return Some(i);
        }
        i = i + 1;
    }
    None
}

/// What becomes of a named type of a document.
pub enum TypeFate {
    /// A file declares it.
    Declared,
    /// A macro made it, and it is stored as the symbol.
    Known(i64),
    /// A macro made it, and it is to be stored.
    New(MadeTypeView),
    /// It is in no file of the code graph that rustdoc tells of.
    Unplaced(Seq<char>),
}

/// The stable id of a type in a file.
pub open spec fn type_stable_id(file: Seq<char>, kind: Seq<char>, name: Seq<char>) -> Seq<char> {
    plain_path(file) + "::"@ + kind + "::"@ + name
}

/// What becomes of an item, where it is a named type of the crate itself.
pub open spec fn type_fate(
    doc: RustdocDocView,
    item: DocItemView,
    files: Seq<Seq<char>>,
    rows: Seq<TypeRowView>,
    root: Seq<char>,
    dir: Seq<char>,
    table: Seq<ResolvedView>,
) -> Option<TypeFate> {
    match (type_kind_of(item.tag), item.name) {
        (Some(kind), Some(name)) => if item.crate_id != 0 {
            None
        } else {
            match item.span {
                None => Some(TypeFate::Unplaced(label_of(doc.paths, item.id))),
                Some(s) => match indexed_file(s, files, root, dir, table, 0) {
                    None => Some(TypeFate::Unplaced(label_of(doc.paths, item.id))),
                    Some(f) => match row_of_type(rows, files[f], name, 0) {
                        Some(k) => if rows[k].made {
                            Some(TypeFate::Known(rows[k].id))
                        } else {
                            Some(TypeFate::Declared)
                        },
                        None => {
                            let names = qualified_names(doc.paths, doc.paths.len() as int);
                            Some(
                                TypeFate::New(
                                    MadeTypeView {
                                        item_id: item.id,
                                        kind,
                                        name,
                                        file: files[f],
                                        line: s.line,
                                        qualified_name: or_text(
                                            last_text(names, item.id, names.len() as int),
                                            ""@,
                                        ),
                                        stable_id: type_stable_id(files[f], kind, name),
                                    },
                                ),
                            )
                        },
                    },
                },
            }
        },
        _ => None,
    }
}

/// The types that macros made, among those of a document.
#[verifier::ext_equal]
pub struct MadeTypesView {
    pub known: Seq<(u32, i64)>,
    pub fresh: Seq<MadeTypeView>,
    pub unplaced: Seq<Seq<char>>,
}

/// The types that macros made, among the first `n` items.
pub open spec fn made_types(
    doc: RustdocDocView,
    files: Seq<Seq<char>>,
    rows: Seq<TypeRowView>,
    root: Seq<char>,
    dir: Seq<char>,
    table: Seq<ResolvedView>,
    n: int,
) -> MadeTypesView
    decreases n,
{
    if n <= 0 {
        MadeTypesView { known: Seq::empty(), fresh: Seq::empty(), unplaced: Seq::empty() }
    } else {
        let rest = made_types(doc, files, rows, root, dir, table, n - 1);
        let item = doc.items[n - 1];
        match type_fate(doc, item, files, rows, root, dir, table) {
            Some(TypeFate::Known(id)) => MadeTypesView {
                known: rest.known.push((item.id, id)),
                fresh: rest.fresh,
                unplaced: rest.unplaced,
            },
            Some(TypeFate::New(t)) => MadeTypesView {
                known: rest.known,
                fresh: rest.fresh.push(t),
                unplaced: rest.unplaced,
            },
            Some(TypeFate::Unplaced(label)) => MadeTypesView {
                known: rest.known,
                fresh: rest.fresh,
                unplaced: rest.unplaced.push(label),
            },
            _ => rest,
        }
    }
}

/// The types that macros made: those that are stored already, by the items' ids, those that
/// are to be stored where the macro is called, and the types that rustdoc gives no place in the
/// indexed files for, which a warning names.
pub struct MadeTypes {
    pub known: Vec<(u32, i64)>,
    pub fresh: Vec<MadeType>,
    pub unplaced: Vec<String>,
}

impl MadeTypes {
    pub open spec fn view(&self) -> MadeTypesView {
        MadeTypesView {
            known: self.known@,
            fresh: views(self.fresh@),
            unplaced: views(self.unplaced@),
        }
    }
}

/// The types that macros made, among those of a document. A type of the crate itself whose name
/// no symbol of its file has was made by a macro, and its span is where the macro is called.
/// `files` are the indexed files, and `rows` their symbols.
pub fn generated_types(
    doc: &RustdocDoc,
    files: &Vec<String>,
    rows: &Vec<TypeRow>,
    abs_root: &str,
    crate_abs_dir: &str,
    table: &Vec<Resolved>,
) -> (r: MadeTypes)
    ensures
        r@ == made_types(
            doc@,
            views(files@),
            views(rows@),
            abs_root@,
            crate_abs_dir@,
            views(table@),
            doc@.items.len() as int,
        ),
{
    let names = build_qualified_names(doc);
    let ghost fv = views(files@);
    let ghost rv = views(rows@);
    let mut out = MadeTypes { known: Vec::new(), fresh: Vec::new(), unplaced: Vec::new() };
    let mut n: usize = 0;
    while n < doc.items.len()
        invariant
            n <= doc.items@.len(),
            fv == views(files@),
            rv == views(rows@),
            views(names@) == qualified_names(doc@.paths, doc@.paths.len() as int),
            out@ == made_types(
                doc@,
                fv,
                rv,
                abs_root@,
                crate_abs_dir@,
                views(table@),
                n as int,
            ),
        decreases doc.items@.len() - n,
    {
        let item = &doc.items[n];
        assert(doc@.items[n as int] == item@);
        if item.crate_id == 0 {
            if let (Some(kind), Some(name)) = (kind_of_type(item.tag), &item.name) {
                let place = match &item.span {
                    Some(s) => find_file(s, files, abs_root, crate_abs_dir, table),
                    None => None,
                };
                match (place, &item.span) {
                    (Some(f), Some(s)) => {
                        assert(fv[f as int] == files@[f as int]@);
                        match find_type_row(rows, &files[f], name) {
                            Some(k) => {
                                assert(rv[k as int] == rows@[k as int]@);
                                if rows[k].made {
                                    out.known.push((item.id, rows[k].id));
                                }
                            },
                            None => {
                                let mut stable_id = concat3(&strip_dot(&files[f]), "::", kind);
                                stable_id.append("::");
                                stable_id.append(name);
                                let qualified_name = text_or(&find_text(&names, item.id), "");
                                out.fresh.push(
                                    MadeType {
                                        item_id: item.id,
                                        kind: kind.to_owned(),
                                        name: name.dup(),
                                        file: files[f].dup(),
                                        line: s.line,
                                        qualified_name,
                                        stable_id,
                                    },
                                );
                            },
                        }
                    },
                    _ => {
                        out.unplaced.push(rustdoc_path_label(doc, item.id));
                    },
                }
            }
        }
        n = n + 1;
    }
    out
}

/// How many of the first `n` items are named types of the crate itself.
pub open spec fn own_types(items: Seq<DocItemView>, n: int) -> nat
    decreases n,
{
    if n <= 0 {
        0
    } else {
        own_types(items, n - 1) + if items[n - 1].crate_id == 0 && type_kind_of(
            items[n - 1].tag,
        ) is Some && items[n - 1].name is Some {
            1nat
        } else {
            0nat
        }
    }
}

/// How many of the first `n` items are named types of the crate itself that files declare.
pub open spec fn declared_types(
    doc: RustdocDocView,
    files: Seq<Seq<char>>,
    rows: Seq<TypeRowView>,
    root: Seq<char>,
    dir: Seq<char>,
    table: Seq<ResolvedView>,
    n: int,
) -> nat
    decreases n,
{
    if n <= 0 {
        0
    } else {
        declared_types(doc, files, rows, root, dir, table, n - 1) + if type_fate(
            doc,
            doc.items[n - 1],
            files,
            rows,
            root,
            dir,
            table,
        ) == Some(TypeFate::Declared) {
            1nat
        } else {
            0nat
        }
    }
}

/// No named type is left out in silence: each type of the crate itself is declared in a file,
/// or stored as made by a macro, or to be stored, or named in a warning.
pub proof fn no_type_is_left_out(
    doc: RustdocDocView,
    files: Seq<Seq<char>>,
    rows: Seq<TypeRowView>,
    root: Seq<char>,
    dir: Seq<char>,
    table: Seq<ResolvedView>,
    n: int,
)
    requires
        0 <= n <= doc.items.len(),
    ensures
        ({
            let made = made_types(doc, files, rows, root, dir, table, n);
            own_types(doc.items, n) == declared_types(doc, files, rows, root, dir, table, n)
                + made.known.len() + made.fresh.len() + made.unplaced.len()
        }),
    decreases n,
{
    if n > 0 {
        no_type_is_left_out(doc, files, rows, root, dir, table, n - 1);
    }
}

/// A type that a macro made and that is stored is linked to the traits that are implemented for
/// it: the link leads from its symbol, whatever else stands at the place of the call.
pub proof fn stored_types_are_linked(
    doc: RustdocDocView,
    item: DocItemView,
    made: Seq<(u32, i64)>,
    others: Seq<(u32, i64)>,
    map: Seq<QualifiedNodeView>,
    k: int,
)
    requires
        0 <= k < made.len(),
        forall|j: int| 0 <= j < k ==> (#[trigger] made[j]).0 != made[k].0,
        item.crate_id == 0,
        item.impl_data matches Some(d) && !d.is_synthetic && d.type_id == Some(made[k].0) && (
        d.trait_ref matches Some(t) && resolved_node(doc.paths, t.id, made + others, map) is Some),
    ensures
        ({
            let t = item.impl_data->0.trait_ref->0;
            link_of(doc, item, made + others, map) == LinkView::Link(
                made[k].1,
                resolved_node(doc.paths, t.id, made + others, map)->0,
            )
        }),
{
    made_comes_first(made, others, k, 0);
}

proof fn made_comes_first(made: Seq<(u32, i64)>, others: Seq<(u32, i64)>, k: int, i: int)
    requires
        0 <= i <= k < made.len(),
        forall|j: int| 0 <= j < k ==> (#[trigger] made[j]).0 != made[k].0,
    ensures
        node_of_id(made + others, made[k].0, i) == Some(made[k].1),
    decreases k - i,
{
    assert((made + others)[i] == made[i]);
    if i < k {
        made_comes_first(made, others, k, i + 1);
    }
}

// ---------------------------------------------------------------------------
// Laws
// ---------------------------------------------------------------------------

/// The crates of a project are the packages with a name and a manifest that are members of the
/// workspace, or all of them where no members are listed; a crate lies where its manifest does.
pub proof fn members_are_crates(
    pkgs: Seq<JsonView>,
    ids: Seq<Seq<char>>,
    n: int,
    c: CrateInfoView,
)
    requires
        0 <= n <= pkgs.len(),
    ensures
        crates_among(pkgs, ids, n).contains(c) <==> exists|i: int|
            0 <= i < n && text_in(field_of(#[trigger] pkgs[i], "name"@)) == Some(c.name) && text_in(
                field_of(pkgs[i], "manifest_path"@),
            ) == Some(c.manifest_path) && parent_path(c.manifest_path) == Some(c.abs_dir) && (
            ids.len() == 0 || exists|k: int|
                0 <= k < ids.len() && text_in(field_of(pkgs[i], "id"@)) == Some(#[trigger] ids[k])),
    decreases n,
{
    if n > 0 {
        members_are_crates(pkgs, ids, n - 1, c);
        let pkg = pkgs[n - 1];
        if is_listed(pkg, ids) {
            if let Some(d) = crate_in(pkg) {
                push_holds(crates_among(pkgs, ids, n - 1), d, c);
            }
        }
    }
}

/// The members of a workspace are those that its metadata lists; without packages there is
/// nothing to go by.
pub proof fn metadata_lists_members(meta: JsonView, pkgs: Seq<JsonView>, ids: Seq<JsonView>)
    ensures
        items_in(field_of(meta, "packages"@)) is None <==> crates_in(meta) is None,
        items_in(field_of(meta, "packages"@)) == Some(pkgs) && items_in(
            field_of(meta, "workspace_members"@),
        ) == Some(ids) ==> crates_in(meta) == Some(
            crates_among(pkgs, texts_among(ids), pkgs.len() as int),
        ),
        items_in(field_of(meta, "packages"@)) == Some(pkgs) && items_in(
            field_of(meta, "workspace_members"@),
        ) is None ==> crates_in(meta) == Some(
            crates_among(pkgs, Seq::empty(), pkgs.len() as int),
        ),
{
}

/// The crates that a change affects are those that hold a file that changed.
pub proof fn changes_touch_crates(crates: Seq<CrateInfoView>, changed: Seq<Seq<char>>, n: int)
    requires
        0 <= n <= crates.len(),
    ensures
        touched(crates, changed, n) == crates.take(n).filter(
            |c: CrateInfoView|
                exists|i: int|
                    0 <= i < changed.len() && is_within(#[trigger] changed[i], c.abs_dir),
        ),
    decreases n,
{
    reveal(Seq::filter);
    if n > 0 {
        changes_touch_crates(crates, changed, n - 1);
        assert(crates.take(n).drop_last() =~= crates.take(n - 1));
        assert(crates.take(n).last() == crates[n - 1]);
    } else {
        assert(crates.take(n) =~= Seq::empty());
    }
}

/// Where no crate holds a file that changed, all are affected; else those that do.
pub proof fn unplaced_changes_affect_all(crates: Seq<CrateInfoView>, changed: Seq<Seq<char>>)
    ensures
        (forall|k: int, i: int|
            0 <= k < crates.len() && 0 <= i < changed.len() ==> !is_within(
                #[trigger] changed[i],
                (#[trigger] crates[k]).abs_dir,
            )) ==> affected(crates, changed) == crates,
        forall|k: int, i: int|
            0 <= k < crates.len() && 0 <= i < changed.len() && is_within(
                #[trigger] changed[i],
                (#[trigger] crates[k]).abs_dir,
            ) ==> affected(crates, changed) == touched(crates, changed, crates.len() as int),
{
    let n = crates.len() as int;
    assert forall|k: int, i: int|
        0 <= k < crates.len() && 0 <= i < changed.len() && is_within(
            #[trigger] changed[i],
            (#[trigger] crates[k]).abs_dir,
        ) implies affected(crates, changed) == touched(crates, changed, n) by {
        touched_are_kept(crates, changed, n, k);
    }
    if touched(crates, changed, n).len() > 0 {
        touched_are_touched(crates, changed, n);
    }
}

proof fn touched_are_kept(crates: Seq<CrateInfoView>, changed: Seq<Seq<char>>, n: int, k: int)
    requires
        0 <= k < n <= crates.len(),
        is_touched(crates[k], changed),
    ensures
        touched(crates, changed, n).len() > 0,
    decreases n,
{
    if k < n - 1 {
        touched_are_kept(crates, changed, n - 1, k);
    }
}

proof fn touched_are_touched(crates: Seq<CrateInfoView>, changed: Seq<Seq<char>>, n: int)
    requires
        0 <= n <= crates.len(),
        touched(crates, changed, n).len() > 0,
    ensures
        exists|k: int| 0 <= k < n && is_touched(#[trigger] crates[k], changed),
    decreases n,
{
    if !is_touched(crates[n - 1], changed) {
        touched_are_touched(crates, changed, n - 1);
    }
}

proof fn stem_is_first(c: Seq<CandidateView>, name: Seq<char>, i: int)
    requires
        0 <= i <= c.len(),
    ensures
        same_stem(c, name, i) is None <==> forall|j: int|
            i <= j < c.len() ==> !(file_name((#[trigger] c[j]).path) matches Some(f) && stem_of(f)
                == name),
        same_stem(c, name, i) matches Some(k) ==> i <= k < c.len() && (file_name(
            c[k].path,
        ) matches Some(f) && stem_of(f) == name) && forall|j: int|
            i <= j < k ==> !(file_name((#[trigger] c[j]).path) matches Some(f) && stem_of(f)
                == name),
    decreases c.len() - i,
{
    if i < c.len() {
        stem_is_first(c, name, i + 1);
    }
}

/// Among files, the first with the wanted stem is picked.
pub proof fn wanted_file_is_picked(c: Seq<CandidateView>, name: Seq<char>, k: int)
    requires
        0 <= k < c.len(),
        file_name(c[k].path) matches Some(f) && stem_of(f) == name,
        forall|j: int|
            0 <= j < k ==> !(file_name((#[trigger] c[j]).path) matches Some(f) && stem_of(f)
                == name),
    ensures
        picked(c, name) == Some(c[k].path),
{
    stem_is_first(c, name, 0);
}

/// Where no file has the wanted stem, the one that was changed last is picked; of several
/// changed at one time, the one whose path comes first. From nothing, nothing is picked.
pub proof fn newest_file_is_picked(c: Seq<CandidateView>, name: Seq<char>)
    requires
        forall|j: int|
            0 <= j < c.len() ==> !(file_name((#[trigger] c[j]).path) matches Some(f) && stem_of(f)
                == name),
    ensures
        c.len() == 0 <==> picked(c, name) is None,
        picked(c, name) matches Some(path) ==> exists|b: int|
            0 <= b < c.len() && (#[trigger] c[b]).path == path && forall|i: int|
                0 <= i < c.len() ==> (#[trigger] c[i]).modified < c[b].modified || (c[i].modified
                    == c[b].modified && !lex_before(c[i].path, c[b].path)),
{
    stem_is_first(c, name, 0);
    if c.len() > 0 {
        best_is_best(c, c.len() as int);
        let b = best_among(c, c.len() as int);
        assert forall|i: int| 0 <= i < c.len() implies (#[trigger] c[i]).modified < c[b].modified
            || (c[i].modified == c[b].modified && !lex_before(c[i].path, c[b].path)) by {
            assert(!is_better(c[i], c[b]));
        }
    }
}

/// Structs, enums, unions, traits and type aliases are types; each has its own kind.
pub proof fn items_have_kinds(tag: ItemTag)
    ensures
        tag is Struct ==> type_kind_of(tag) == Some("struct"@),
        tag is Enum ==> type_kind_of(tag) == Some("enum"@),
        tag is Union ==> type_kind_of(tag) == Some("union"@),
        tag is Trait ==> type_kind_of(tag) == Some("trait"@),
        tag is TypeAlias ==> type_kind_of(tag) == Some("type"@),
        tag is Other ==> type_kind_of(tag) is None,
{
}

proof fn canonical_is_first(table: Seq<ResolvedView>, path: Seq<char>, i: int)
    requires
        0 <= i <= table.len(),
    ensures
        canonical_at(table, path, i) is None <==> forall|j: int|
            i <= j < table.len() ==> (#[trigger] table[j]).path != path,
        canonical_at(table, path, i) matches Some(c) ==> exists|k: int|
            i <= k < table.len() && (#[trigger] table[k]).path == path && table[k].canonical == c
                && forall|j: int| i <= j < k ==> (#[trigger] table[j]).path != path,
    decreases table.len() - i,
{
    if i < table.len() {
        canonical_is_first(table, path, i + 1);
        if table[i].path == path {
            assert(table[i].canonical == canonical_at(table, path, i)->0);
        }
    }
}

/// A path is really the one that the first entry for it in the table says; of a path without
/// an entry nothing more is known.
pub proof fn first_entry_resolves(table: Seq<ResolvedView>, path: Seq<char>)
    ensures
        canonical_at(table, path, 0) is None <==> forall|j: int|
            0 <= j < table.len() ==> (#[trigger] table[j]).path != path,
        canonical_at(table, path, 0) matches Some(c) ==> exists|k: int|
            0 <= k < table.len() && (#[trigger] table[k]).path == path && table[k].canonical == c
                && forall|j: int| 0 <= j < k ==> (#[trigger] table[j]).path != path,
{
    canonical_is_first(table, path, 0);
}

proof fn unique_holds(keys: Seq<Seq<char>>, key: Seq<char>, k: Seq<char>)
    ensures
        with_unique(keys, key).contains(k) <==> keys.contains(k) || (k == key && k.len() > 0),
{
    push_holds(keys, key, k);
}

proof fn relative_holds(keys: Seq<Seq<char>>, rel: Seq<char>, k: Seq<char>)
    ensures
        with_relative(keys, rel).contains(k) <==> keys.contains(k) || (k == rel && k.len() > 0) || k
            == "./"@ + rel,
{
    reveal_strlit("./");
    assert(("./"@ + rel).len() > 0);
    unique_holds(keys, rel, k);
    unique_holds(with_unique(keys, rel), "./"@ + rel, k);
}

proof fn canonical_holds(keys: Seq<Seq<char>>, table: Seq<ResolvedView>, path: Seq<char>, k: Seq<char>)
    ensures
        with_canonical(keys, table, path).contains(k) <==> keys.contains(k) || (canonical_at(
            table,
            path,
            0,
        ) == Some(k) && k.len() > 0),
{
    if let Some(c) = canonical_at(table, path, 0) {
        unique_holds(keys, c, k);
    }
}

/// A leading `./` does not count.
pub proof fn leading_dot_is_left_out(rest: Seq<char>, file: Seq<char>)
    ensures
        undotted("./"@ + rest) == rest,
        !begins_with(file, "./"@) ==> undotted(file) == file,
{
    reveal_strlit("./");
    let dotted = "./"@ + rest;
    assert(dotted.take(2) =~= "./"@);
    assert(dotted.skip(2) =~= rest);
    assert(dotted.subrange(2, dotted.len() as int) =~= rest);
}

/// A symbol's file goes by the name that it was given. One under an absolute path goes by its
/// path from the root too, with and without a leading `./`; one under a relative path goes, with
/// and without a leading `./`, by that, by its path from the root, and by what that really is.
pub proof fn names_of_a_symbols_file(
    root: Seq<char>,
    file: Seq<char>,
    table: Seq<ResolvedView>,
    k: Seq<char>,
)
    requires
        k.len() > 0,
    ensures
        begins_with(file, "/"@) && is_within(file, root) ==> (node_keys(root, file, table).contains(
            k,
        ) <==> k == file || k == relative_path(file, root) || k == "./"@ + relative_path(file, root)),
        begins_with(file, "/"@) && !is_within(file, root) ==> (node_keys(
            root,
            file,
            table,
        ).contains(k) <==> k == file),
        !begins_with(file, "/"@) ==> (node_keys(root, file, table).contains(k) <==> k == file || k
            == undotted(file) || k == "./"@ + undotted(file) || k == joined_path(
            root,
            undotted(file),
        ) || canonical_at(table, joined_path(root, undotted(file)), 0) == Some(k)),
{
    let none = Seq::<Seq<char>>::empty();
    unique_holds(none, file, k);
    let keys = with_unique(none, file);
    let rel = undotted(file);
    let abs = joined_path(root, rel);
    relative_holds(keys, relative_path(file, root), k);
    relative_holds(keys, rel, k);
    unique_holds(with_relative(keys, rel), abs, k);
    canonical_holds(with_unique(with_relative(keys, rel), abs), table, abs, k);
}

/// The file of an item goes by its path from the root, with and without a leading `./`, by its
/// absolute path, and by what that really is; a relative path may start at the root or at the
/// directory of the crate.
pub proof fn names_of_an_items_file(
    root: Seq<char>,
    dir: Seq<char>,
    span_file: Seq<char>,
    table: Seq<ResolvedView>,
    k: Seq<char>,
)
    requires
        k.len() > 0,
    ensures
        ({
            let file = undotted(span_file);
            let keys = span_keys(root, dir, span_file, table);
            &&& begins_with(file, "/"@) ==> (keys.contains(k) <==> k == file || (is_within(
                file,
                root,
            ) && (k == relative_path(file, root) || k == "./"@ + relative_path(file, root)))
                || canonical_at(table, file, 0) == Some(k))
            &&& !begins_with(file, "/"@) ==> {
                let rel = span_relative(root, dir, file);
                keys.contains(k) <==> k == rel || k == "./"@ + rel || k == joined_path(root, rel)
                    || canonical_at(table, joined_path(root, rel), 0) == Some(k) || k
                    == joined_path(dir, file) || canonical_at(table, joined_path(dir, file), 0)
                    == Some(k)
            }
        }),
{
    let none = Seq::<Seq<char>>::empty();
    let file = undotted(span_file);
    unique_holds(none, file, k);
    let own = with_unique(none, file);
    relative_holds(own, relative_path(file, root), k);
    canonical_holds(own, table, file, k);
    canonical_holds(with_relative(own, relative_path(file, root)), table, file, k);
    let rel = span_relative(root, dir, file);
    let from_root = joined_path(root, rel);
    let from_crate = joined_path(dir, file);
    relative_holds(none, rel, k);
    let a = with_relative(none, rel);
    unique_holds(a, from_root, k);
    let b = with_unique(a, from_root);
    canonical_holds(b, table, from_root, k);
    let c = with_canonical(b, table, from_root);
    unique_holds(c, from_crate, k);
    canonical_holds(with_unique(c, from_crate), table, from_crate, k);
}

/// A relative path of an item starts at the crate's directory, unless it names that directory
/// already or the crate lies at the root.
pub proof fn item_paths_start_at_the_crate(root: Seq<char>, dir: Seq<char>, file: Seq<char>)
    ensures
        is_within(dir, root) && relative_path(dir, root).len() > 0 && relative_path(dir, root)
            != "."@ && !is_within(file, relative_path(dir, root)) ==> span_relative(root, dir, file)
            == joined_path(relative_path(dir, root), file),
        is_within(dir, root) && (relative_path(dir, root).len() == 0 || is_within(
            file,
            relative_path(dir, root),
        )) ==> span_relative(root, dir, file) == file,
{
}

proof fn names_are_added(
    map: Seq<NodeKeyView>,
    keys: Seq<Seq<char>>,
    line: i64,
    id: i64,
    k: int,
    x: NodeKeyView,
)
    requires
        0 <= k <= keys.len(),
    ensures
        with_names(map, keys, line, id, k).contains(x) <==> map.contains(x) || (x.line == line
            && x.id == id && exists|j: int| 0 <= j < k && #[trigger] keys[j] == x.key),
    decreases k,
{
    if k > 0 {
        names_are_added(map, keys, line, id, k - 1, x);
        push_holds(
            with_names(map, keys, line, id, k - 1),
            NodeKeyView { key: keys[k - 1], line, id },
            x,
        );
    }
}

/// Every symbol is entered under each name of its file and the line that it starts on, and
/// nothing else is entered.
pub proof fn symbols_are_entered_by_place(
    rows: Seq<NodePlaceView>,
    root: Seq<char>,
    table: Seq<ResolvedView>,
    n: int,
    x: NodeKeyView,
)
    requires
        0 <= n <= rows.len(),
    ensures
        node_map(rows, root, table, n).contains(x) <==> exists|i: int|
            0 <= i < n && (#[trigger] rows[i]).id == x.id && rows[i].range_start == x.line
                && node_keys(root, rows[i].file, table).contains(x.key),
    decreases n,
{
    if n > 0 {
        symbols_are_entered_by_place(rows, root, table, n - 1, x);
        let row = rows[n - 1];
        let keys = node_keys(root, row.file, table);
        names_are_added(
            node_map(rows, root, table, n - 1),
            keys,
            row.range_start,
            row.id,
            keys.len() as int,
            x,
        );
    }
}

proof fn entry_is_first(map: Seq<NodeKeyView>, key: Seq<char>, line: i64, i: int)
    requires
        0 <= i <= map.len(),
    ensures
        node_at(map, key, line, i) is None <==> forall|j: int|
            i <= j < map.len() ==> (#[trigger] map[j]).key != key || map[j].line != line,
        node_at(map, key, line, i) matches Some(id) ==> exists|k: int|
            i <= k < map.len() && (#[trigger] map[k]).key == key && map[k].line == line && map[k].id
                == id && forall|j: int|
                i <= j < k ==> (#[trigger] map[j]).key != key || map[j].line != line,
    decreases map.len() - i,
{
    if i < map.len() {
        entry_is_first(map, key, line, i + 1);
        if map[i].key == key && map[i].line == line {
            assert(map[i].id == node_at(map, key, line, i)->0);
        }
    }
}

/// What is entered first under a name and a line stands there; nothing does where nothing is
/// entered.
pub proof fn first_entry_of_a_place_counts(map: Seq<NodeKeyView>, key: Seq<char>, line: i64)
    ensures
        node_at(map, key, line, 0) is None <==> forall|j: int|
            0 <= j < map.len() ==> (#[trigger] map[j]).key != key || map[j].line != line,
        node_at(map, key, line, 0) matches Some(id) ==> exists|k: int|
            0 <= k < map.len() && (#[trigger] map[k]).key == key && map[k].line == line && map[k].id
                == id && forall|j: int|
                0 <= j < k ==> (#[trigger] map[j]).key != key || map[j].line != line,
{
    entry_is_first(map, key, line, 0);
}

proof fn names_are_tried_from(map: Seq<NodeKeyView>, keys: Seq<Seq<char>>, line: i64, k: int)
    requires
        0 <= k <= keys.len(),
    ensures
        node_for(map, keys, line, k) is None <==> forall|j: int|
            k <= j < keys.len() ==> node_at(map, #[trigger] keys[j], line, 0) is None,
        node_for(map, keys, line, k) is Some ==> exists|j: int|
            k <= j < keys.len() && node_for(map, keys, line, k) == node_at(
                map,
                #[trigger] keys[j],
                line,
                0,
            ) && forall|i: int| k <= i < j ==> node_at(map, #[trigger] keys[i], line, 0) is None,
    decreases keys.len() - k,
{
    if k < keys.len() {
        names_are_tried_from(map, keys, line, k + 1);
        if node_at(map, keys[k], line, 0) is Some {
            assert(node_for(map, keys, line, k) == node_at(map, keys[k], line, 0));
        }
    }
}

/// The names of a file are tried in turn: the first under which something is entered on the
/// line decides.
pub proof fn first_name_decides(map: Seq<NodeKeyView>, keys: Seq<Seq<char>>, line: i64)
    ensures
        node_for(map, keys, line, 0) is None <==> forall|j: int|
            0 <= j < keys.len() ==> node_at(map, #[trigger] keys[j], line, 0) is None,
        node_for(map, keys, line, 0) is Some ==> exists|j: int|
            0 <= j < keys.len() && node_for(map, keys, line, 0) == node_at(
                map,
                #[trigger] keys[j],
                line,
                0,
            ) && forall|i: int| 0 <= i < j ==> node_at(map, #[trigger] keys[i], line, 0) is None,
{
    names_are_tried_from(map, keys, line, 0);
}

proof fn holder_is_first(crates: Seq<CrateInfoView>, file: Seq<char>, i: int)
    requires
        0 <= i <= crates.len(),
    ensures
        crate_holding(crates, file, i) is None <==> forall|j: int|
            i <= j < crates.len() ==> !is_within(file, (#[trigger] crates[j]).abs_dir),
        crate_holding(crates, file, i) matches Some(k) ==> i <= k < crates.len() && is_within(
            file,
            crates[k].abs_dir,
        ) && forall|j: int| i <= j < k ==> !is_within(file, (#[trigger] crates[j]).abs_dir),
    decreases crates.len() - i,
{
    if i < crates.len() {
        holder_is_first(crates, file, i + 1);
    }
}

/// A symbol is entered under its qualified name and the first crate whose directory its file
/// lies in, with low lines for the dashes in the crate's name; one in no crate is not entered.
pub proof fn symbols_are_entered_by_crate(
    rows: Seq<NamedNodeView>,
    crates: Seq<CrateInfoView>,
    root: Seq<char>,
    n: int,
    x: QualifiedNodeView,
)
    requires
        0 <= n <= rows.len(),
    ensures
        qualified_map(rows, crates, root, n).contains(x) <==> exists|r: int, k: int|
            #![trigger rows[r], crates[k]]
            0 <= r < n && 0 <= k < crates.len() && rows[r].id == x.id && rows[r].qualified_name
                == x.qualified_name && x.crate_name == replaced(crates[k].name, "-"@, "_"@)
                && is_within(absolute_file(root, rows[r].file), crates[k].abs_dir) && forall|j: int|
                0 <= j < k ==> !is_within(
                    absolute_file(root, rows[r].file),
                    (#[trigger] crates[j]).abs_dir,
                ),
    decreases n,
{
    if n > 0 {
        symbols_are_entered_by_crate(rows, crates, root, n - 1, x);
        let row = rows[n - 1];
        holder_is_first(crates, absolute_file(root, row.file), 0);
        let rest = qualified_map(rows, crates, root, n - 1);
        match crate_holding(crates, absolute_file(root, row.file), 0) {
            Some(i) => {
                let y = QualifiedNodeView {
                    crate_name: replaced(crates[i].name, "-"@, "_"@),
                    qualified_name: row.qualified_name,
                    id: row.id,
                };
                push_holds(rest, y, x);
                if x == y {
                    assert(rows[n - 1].id == x.id && crates[i].abs_dir.len() >= 0);
                }
            },
            None => {},
        }
    }
}

/// A file under an absolute path lies there; one under a relative path lies below the root.
pub proof fn relative_files_lie_below_the_root(root: Seq<char>, file: Seq<char>)
    ensures
        begins_with(file, "/"@) ==> absolute_file(root, file) == file,
        !begins_with(file, "/"@) ==> absolute_file(root, file) == joined_path(root, undotted(file)),
{
}

proof fn methods_are_added(
    pairs: Seq<(u32, Seq<char>)>,
    items: Seq<u32>,
    path: Seq<char>,
    k: int,
    x: (u32, Seq<char>),
)
    requires
        0 <= k <= items.len(),
    ensures
        with_methods(pairs, items, path, k).contains(x) <==> pairs.contains(x) || (x.1 == path
            && exists|j: int| 0 <= j < k && #[trigger] items[j] == x.0),
    decreases k,
{
    if k > 0 {
        methods_are_added(pairs, items, path, k - 1, x);
        push_holds(with_methods(pairs, items, path, k - 1), (items[k - 1], path), x);
    }
}

/// An item belongs to a trait exactly where an implementation of that trait, in the crate
/// itself, lists it.
pub proof fn implementations_give_traits(items: Seq<DocItemView>, n: int, id: u32, path: Seq<char>)
    requires
        0 <= n <= items.len(),
    ensures
        method_traits(items, n).contains((id, path)) <==> exists|i: int|
            0 <= i < n && (#[trigger] items[i]).crate_id == 0 && (items[i].impl_data matches Some(d)
                && d.items.contains(id) && (d.trait_ref matches Some(t) && t.path == path)),
    decreases n,
{
    if n > 0 {
        implementations_give_traits(items, n - 1, id, path);
        let item = items[n - 1];
        if let Some(d) = item.impl_data {
            if let Some(t) = d.trait_ref {
                methods_are_added(
                    method_traits(items, n - 1),
                    d.items,
                    t.path,
                    d.items.len() as int,
                    (id, path),
                );
            }
        }
    }
}

/// Of several texts for an identity the last counts; without one there is none.
pub proof fn last_text_counts(pairs: Seq<(u32, Seq<char>)>, id: u32, n: int)
    requires
        0 <= n <= pairs.len(),
    ensures
        last_text(pairs, id, n) is None <==> forall|i: int|
            0 <= i < n ==> (#[trigger] pairs[i]).0 != id,
        last_text(pairs, id, n) matches Some(t) ==> exists|i: int|
            0 <= i < n && #[trigger] pairs[i] == (id, t) && forall|j: int|
                i < j < n ==> (#[trigger] pairs[j]).0 != id,
    decreases n,
{
    if n > 0 {
        last_text_counts(pairs, id, n - 1);
        if pairs[n - 1].0 == id {
            assert(pairs[n - 1] == (id, last_text(pairs, id, n)->0));
        }
    }
}

/// The qualified name of an item of the crate itself is its path without the crate's name; a
/// path of the crate's name alone gives none.
pub proof fn paths_give_qualified_names(paths: Seq<DocPathView>, n: int)
    requires
        0 <= n <= paths.len(),
    ensures
        qualified_names(paths, n) == paths.take(n).filter(
            |p: DocPathView| p.crate_id == 0 && p.path.len() >= 2,
        ).map_values(|p: DocPathView| (p.id, joined(p.path.skip(1), "::"@))),
    decreases n,
{
    reveal(Seq::filter);
    let own = |p: DocPathView| p.crate_id == 0 && p.path.len() >= 2;
    let name = |p: DocPathView| (p.id, joined(p.path.skip(1), "::"@));
    if n > 0 {
        paths_give_qualified_names(paths, n - 1);
        assert(paths.take(n).drop_last() =~= paths.take(n - 1));
        assert(paths.take(n).last() == paths[n - 1]);
        let before = paths.take(n - 1).filter(own);
        assert(before.push(paths[n - 1]).map_values(name) =~= before.map_values(name).push(
            name(paths[n - 1]),
        ));
    } else {
        assert(qualified_names(paths, n) =~= paths.take(n).filter(own).map_values(name));
    }
}

/// An item is the symbol that is entered under a name of its file on its line; one without a
/// place is none.
pub proof fn items_stand_where_symbols_do(
    item: DocItemView,
    map: Seq<NodeKeyView>,
    root: Seq<char>,
    dir: Seq<char>,
    table: Seq<ResolvedView>,
)
    ensures
        item.span is None ==> item_node(item, map, root, dir, table) is None,
        item.span matches Some(s) ==> item_node(item, map, root, dir, table) == node_for(
            map,
            span_keys(root, dir, s.file, table),
            s.line,
            0,
        ),
{
}

/// A symbol is brought up to date exactly where an item of the crate itself stands at its
/// place: it gets that item's qualified name and the trait that the item belongs to.
pub proof fn items_update_symbols(
    doc: RustdocDocView,
    map: Seq<NodeKeyView>,
    root: Seq<char>,
    dir: Seq<char>,
    table: Seq<ResolvedView>,
    n: int,
    x: NodeUpdateView,
)
    requires
        0 <= n <= doc.items.len(),
    ensures
        updates_in(doc, map, root, dir, table, n).contains(x) <==> exists|i: int|
            0 <= i < n && (#[trigger] doc.items[i]).crate_id == 0 && item_node(
                doc.items[i],
                map,
                root,
                dir,
                table,
            ) == Some(x.node_id) && x.qualified_name == last_text(
                qualified_names(doc.paths, doc.paths.len() as int),
                doc.items[i].id,
                qualified_names(doc.paths, doc.paths.len() as int).len() as int,
            ) && x.trait_impl == last_text(
                method_traits(doc.items, doc.items.len() as int),
                doc.items[i].id,
                method_traits(doc.items, doc.items.len() as int).len() as int,
            ),
    decreases n,
{
    if n > 0 {
        items_update_symbols(doc, map, root, dir, table, n - 1, x);
        let item = doc.items[n - 1];
        let names = qualified_names(doc.paths, doc.paths.len() as int);
        let traits = method_traits(doc.items, doc.items.len() as int);
        if let Some(node_id) = item_node(item, map, root, dir, table) {
            push_holds(
                updates_in(doc, map, root, dir, table, n - 1),
                NodeUpdateView {
                    node_id,
                    qualified_name: last_text(names, item.id, names.len() as int),
                    trait_impl: last_text(traits, item.id, traits.len() as int),
                },
                x,
            );
        }
    }
}

/// The items that are symbols are those that stand where symbols do.
pub proof fn items_are_paired_with_symbols(
    items: Seq<DocItemView>,
    map: Seq<NodeKeyView>,
    root: Seq<char>,
    dir: Seq<char>,
    table: Seq<ResolvedView>,
    n: int,
    x: (u32, i64),
)
    requires
        0 <= n <= items.len(),
    ensures
        nodes_of_items(items, map, root, dir, table, n).contains(x) <==> exists|i: int|
            0 <= i < n && (#[trigger] items[i]).id == x.0 && item_node(
                items[i],
                map,
                root,
                dir,
                table,
            ) == Some(x.1),
    decreases n,
{
    if n > 0 {
        items_are_paired_with_symbols(items, map, root, dir, table, n - 1, x);
        if let Some(id) = item_node(items[n - 1], map, root, dir, table) {
            push_holds(
                nodes_of_items(items, map, root, dir, table, n - 1),
                (items[n - 1].id, id),
                x,
            );
        }
    }
}

proof fn pair_is_first(pairs: Seq<(u32, i64)>, id: u32, i: int)
    requires
        0 <= i <= pairs.len(),
    ensures
        node_of_id(pairs, id, i) is None <==> forall|j: int|
            i <= j < pairs.len() ==> (#[trigger] pairs[j]).0 != id,
        node_of_id(pairs, id, i) matches Some(node) ==> exists|k: int|
            i <= k < pairs.len() && #[trigger] pairs[k] == (id, node) && forall|j: int|
                i <= j < k ==> (#[trigger] pairs[j]).0 != id,
    decreases pairs.len() - i,
{
    if i < pairs.len() {
        pair_is_first(pairs, id, i + 1);
        if pairs[i].0 == id {
            assert(pairs[i] == (id, node_of_id(pairs, id, i)->0));
        }
    }
}

proof fn path_is_first(paths: Seq<DocPathView>, id: u32, i: int)
    requires
        0 <= i <= paths.len(),
    ensures
        path_of(paths, id, i) is None <==> forall|j: int|
            i <= j < paths.len() ==> (#[trigger] paths[j]).id != id,
        path_of(paths, id, i) matches Some(path) ==> exists|k: int|
            i <= k < paths.len() && (#[trigger] paths[k]).id == id && paths[k].path == path
                && forall|j: int| i <= j < k ==> (#[trigger] paths[j]).id != id,
    decreases paths.len() - i,
{
    if i < paths.len() {
        path_is_first(paths, id, i + 1);
        if paths[i].id == id {
            assert(paths[i].path == path_of(paths, id, i)->0);
        }
    }
}

/// The first pair for an identity gives its symbol, and the first path for it its path.
pub proof fn identities_are_looked_up(pairs: Seq<(u32, i64)>, paths: Seq<DocPathView>, id: u32)
    ensures
        node_of_id(pairs, id, 0) is None <==> forall|j: int|
            0 <= j < pairs.len() ==> (#[trigger] pairs[j]).0 != id,
        node_of_id(pairs, id, 0) matches Some(node) ==> exists|k: int|
            0 <= k < pairs.len() && #[trigger] pairs[k] == (id, node) && forall|j: int|
                0 <= j < k ==> (#[trigger] pairs[j]).0 != id,
        path_of(paths, id, 0) is None <==> forall|j: int|
            0 <= j < paths.len() ==> (#[trigger] paths[j]).id != id,
        path_of(paths, id, 0) matches Some(path) ==> exists|k: int|
            0 <= k < paths.len() && (#[trigger] paths[k]).id == id && paths[k].path == path
                && forall|j: int| 0 <= j < k ==> (#[trigger] paths[j]).id != id,
{
    pair_is_first(pairs, id, 0);
    path_is_first(paths, id, 0);
}

/// The symbols with a qualified name in a crate are those that are entered under both.
pub proof fn names_give_symbols(
    map: Seq<QualifiedNodeView>,
    crate_name: Seq<char>,
    name: Seq<char>,
    n: int,
)
    requires
        0 <= n <= map.len(),
    ensures
        ids_named(map, crate_name, name, n) == map.take(n).filter(
            |q: QualifiedNodeView| q.crate_name == crate_name && q.qualified_name == name,
        ).map_values(|q: QualifiedNodeView| q.id),
    decreases n,
{
    reveal(Seq::filter);
    let wanted = |q: QualifiedNodeView| q.crate_name == crate_name && q.qualified_name == name;
    let id = |q: QualifiedNodeView| q.id;
    if n > 0 {
        names_give_symbols(map, crate_name, name, n - 1);
        assert(map.take(n).drop_last() =~= map.take(n - 1));
        assert(map.take(n).last() == map[n - 1]);
        let before = map.take(n - 1).filter(wanted);
        assert(before.push(map[n - 1]).map_values(id) =~= before.map_values(id).push(
            map[n - 1].id,
        ));
    } else {
        assert(ids_named(map, crate_name, name, n) =~= map.take(n).filter(wanted).map_values(id));
    }
}

/// An item with a symbol of its own is that symbol. One without is the only symbol of the crate
/// that its path starts with under the rest of its path; where several go by that name, or none
/// does, or nothing is known of its path, it is no symbol.
pub proof fn items_are_found_by_path(
    paths: Seq<DocPathView>,
    id: u32,
    nodes: Seq<(u32, i64)>,
    map: Seq<QualifiedNodeView>,
)
    ensures
        node_of_id(nodes, id, 0) is Some ==> resolved_node(paths, id, nodes, map) == node_of_id(
            nodes,
            id,
            0,
        ),
        node_of_id(nodes, id, 0) is None && path_of(paths, id, 0) is None ==> resolved_node(
            paths,
            id,
            nodes,
            map,
        ) is None,
        node_of_id(nodes, id, 0) is None ==> (path_of(paths, id, 0) matches Some(path)
            ==> path.len() > 0 ==> {
            let ids = map.filter(
                |q: QualifiedNodeView|
                    q.crate_name == replaced(path[0], "-"@, "_"@) && q.qualified_name == joined(
                        path.skip(1),
                        "::"@,
                    ),
            );
            &&& ids.len() == 1 ==> resolved_node(paths, id, nodes, map) == Some(ids[0].id)
            &&& ids.len() != 1 ==> resolved_node(paths, id, nodes, map) is None
        }),
{
    if let Some(path) = path_of(paths, id, 0) {
        if path.len() > 0 {
            names_give_symbols(
                map,
                replaced(path[0], "-"@, "_"@),
                joined(path.skip(1), "::"@),
                map.len() as int,
            );
            assert(map.take(map.len() as int) =~= map);
        }
    }
}

/// An item is shown by its path, and one whose path is not known by its number.
pub proof fn items_are_shown_by_path(paths: Seq<DocPathView>, id: u32)
    ensures
        path_of(paths, id, 0) matches Some(path) ==> label_of(paths, id) == joined(path, "::"@),
        path_of(paths, id, 0) is None ==> label_of(paths, id) == "rustdoc-id-"@ + dec(id as nat),
{
}

/// A type is linked to a trait exactly where an implementation in the crate itself, which the
/// compiler did not make up, is of that trait for that type, and both are symbols.
pub proof fn implementations_link_types_to_traits(
    doc: RustdocDocView,
    item: DocItemView,
    nodes: Seq<(u32, i64)>,
    map: Seq<QualifiedNodeView>,
    from: i64,
    to: i64,
)
    ensures
        link_of(doc, item, nodes, map) == LinkView::Link(from, to) <==> item.crate_id == 0 && (
        item.impl_data matches Some(d) && !d.is_synthetic && (d.trait_ref matches Some(t)
            && resolved_node(doc.paths, t.id, nodes, map) == Some(to)) && (d.type_id matches Some(
            type_id,
        ) && node_of_id(nodes, type_id, 0) == Some(from))),
{
}

/// An implementation whose type or trait is no symbol is passed over, and it is told why: the
/// type is missing, or a trait of the workspace is, or the trait is another's.
pub proof fn missing_ends_are_told(
    doc: RustdocDocView,
    item: DocItemView,
    nodes: Seq<(u32, i64)>,
    map: Seq<QualifiedNodeView>,
)
    requires
        item.crate_id == 0,
        item.impl_data matches Some(d) && !d.is_synthetic && d.trait_ref is Some && d.type_id is Some,
    ensures
        ({
            let d = item.impl_data->0;
            let t = d.trait_ref->0.id;
            let type_id = d.type_id->0;
            let of_workspace = path_of(doc.paths, t, 0) matches Some(path) && path.len() > 0
                && exists|i: int| 0 <= i < map.len() && (#[trigger] map[i]).crate_name == path[0];
            let link = link_of(doc, item, nodes, map);
            let told = |cause: SkipCause|
                LinkView::Skipped(
                    SkippedLinkView {
                        type_label: label_of(doc.paths, type_id),
                        trait_label: label_of(doc.paths, t),
                        cause,
                    },
                );
            &&& node_of_id(nodes, type_id, 0) is None ==> link == told(SkipCause::Target)
            &&& node_of_id(nodes, type_id, 0) is Some && resolved_node(doc.paths, t, nodes, map)
                is None && of_workspace ==> link == told(SkipCause::WorkspaceTrait)
            &&& node_of_id(nodes, type_id, 0) is Some && resolved_node(doc.paths, t, nodes, map)
                is None && !of_workspace ==> link == told(SkipCause::ExternalTrait)
        }),
{
}

/// All links are listed, and all that is passed over is.
pub proof fn links_are_listed(
    doc: RustdocDocView,
    nodes: Seq<(u32, i64)>,
    map: Seq<QualifiedNodeView>,
    n: int,
    x: (i64, i64),
    s: SkippedLinkView,
)
    requires
        0 <= n <= doc.items.len(),
    ensures
        links_in(doc, nodes, map, n).contains(x) <==> exists|i: int|
            0 <= i < n && link_of(doc, #[trigger] doc.items[i], nodes, map) == LinkView::Link(
                x.0,
                x.1,
            ),
        skipped_in(doc, nodes, map, n).contains(s) <==> exists|i: int|
            0 <= i < n && link_of(doc, #[trigger] doc.items[i], nodes, map) == LinkView::Skipped(s),
    decreases n,
{
    if n > 0 {
        links_are_listed(doc, nodes, map, n - 1, x, s);
        match link_of(doc, doc.items[n - 1], nodes, map) {
            LinkView::Link(from, to) => {
                push_holds(links_in(doc, nodes, map, n - 1), (from, to), x);
            },
            LinkView::Skipped(y) => {
                push_holds(skipped_in(doc, nodes, map, n - 1), y, s);
            },
            LinkView::Nothing => {},
        }
    }
}

proof fn row_is_first(rows: Seq<TypeRowView>, file: Seq<char>, name: Seq<char>, i: int)
    requires
        0 <= i <= rows.len(),
    ensures
        row_of_type(rows, file, name, i) is None <==> forall|j: int|
            i <= j < rows.len() ==> (#[trigger] rows[j]).file != file || rows[j].name != name,
        row_of_type(rows, file, name, i) matches Some(k) ==> i <= k < rows.len() && rows[k].file
            == file && rows[k].name == name && forall|j: int|
            i <= j < k ==> (#[trigger] rows[j]).file != file || rows[j].name != name,
    decreases rows.len() - i,
{
    if i < rows.len() {
        row_is_first(rows, file, name, i + 1);
    }
}

proof fn file_is_first(
    span: DocSpanView,
    files: Seq<Seq<char>>,
    root: Seq<char>,
    dir: Seq<char>,
    table: Seq<ResolvedView>,
    i: int,
)
    requires
        0 <= i <= files.len(),
    ensures
        indexed_file(span, files, root, dir, table, i) is None <==> forall|j: int|
            i <= j < files.len() ==> !share_key(
                node_keys(root, #[trigger] files[j], table),
                span_keys(root, dir, span.file, table),
            ),
        indexed_file(span, files, root, dir, table, i) matches Some(k) ==> i <= k < files.len()
            && share_key(
            node_keys(root, files[k], table),
            span_keys(root, dir, span.file, table),
        ) && forall|j: int|
            i <= j < k ==> !share_key(
                node_keys(root, #[trigger] files[j], table),
                span_keys(root, dir, span.file, table),
            ),
    decreases files.len() - i,
{
    if i < files.len() {
        file_is_first(span, files, root, dir, table, i + 1);
    }
}

/// An item lies in the first file that shares a name with the item's file; in none where no
/// file does.
pub proof fn items_lie_in_files(
    span: DocSpanView,
    files: Seq<Seq<char>>,
    root: Seq<char>,
    dir: Seq<char>,
    table: Seq<ResolvedView>,
)
    ensures
        indexed_file(span, files, root, dir, table, 0) is None ==> forall|j: int, key: Seq<char>|
            0 <= j < files.len() && #[trigger] node_keys(root, files[j], table).contains(key)
                ==> !span_keys(root, dir, span.file, table).contains(key),
        indexed_file(span, files, root, dir, table, 0) matches Some(k) ==> 0 <= k < files.len() && (
        exists|key: Seq<char>| #[trigger]
            node_keys(root, files[k], table).contains(key) && span_keys(
                root,
                dir,
                span.file,
                table,
            ).contains(key)) && forall|j: int, key: Seq<char>|
            0 <= j < k && #[trigger] node_keys(root, files[j], table).contains(key) ==> !span_keys(
                root,
                dir,
                span.file,
                table,
            ).contains(key),
{
    file_is_first(span, files, root, dir, table, 0);
    let wanted = span_keys(root, dir, span.file, table);
    assert forall|j: int, key: Seq<char>|
        0 <= j < files.len() && #[trigger] node_keys(root, files[j], table).contains(key)
            && wanted.contains(key) implies share_key(node_keys(root, files[j], table), wanted) by {
        let keys = node_keys(root, files[j], table);
        let i = choose|i: int| 0 <= i < keys.len() && keys[i] == key;
        assert(wanted.contains(keys[i]));
    }
    if let Some(k) = indexed_file(span, files, root, dir, table, 0) {
        let keys = node_keys(root, files[k], table);
        let i = choose|i: int| 0 <= i < keys.len() && wanted.contains(#[trigger] keys[i]);
        assert(keys.contains(keys[i]));
    }
}

/// Only named types of the crate itself are looked at. One whose place is not known, or lies in
/// no file of the project, is warned of.
pub proof fn types_without_a_file_are_told(
    doc: RustdocDocView,
    item: DocItemView,
    files: Seq<Seq<char>>,
    rows: Seq<TypeRowView>,
    root: Seq<char>,
    dir: Seq<char>,
    table: Seq<ResolvedView>,
)
    ensures
        item.crate_id != 0 || item.name is None || item.tag is Other <==> type_fate(
            doc,
            item,
            files,
            rows,
            root,
            dir,
            table,
        ) is None,
        item.crate_id == 0 && item.name is Some && !(item.tag is Other) && (item.span is None
            || indexed_file(item.span->0, files, root, dir, table, 0) is None) ==> type_fate(
            doc,
            item,
            files,
            rows,
            root,
            dir,
            table,
        ) == Some(TypeFate::Unplaced(label_of(doc.paths, item.id))),
{
}

/// A type in a file is one that the file declares, or one that is stored as made by a macro,
/// where a row has its file and its name, the first that does; else it is new, and is stored
/// with its file, its line and its names.
pub proof fn types_in_files_are_known_or_new(
    doc: RustdocDocView,
    item: DocItemView,
    files: Seq<Seq<char>>,
    rows: Seq<TypeRowView>,
    root: Seq<char>,
    dir: Seq<char>,
    table: Seq<ResolvedView>,
    f: int,
)
    requires
        item.crate_id == 0,
        item.name is Some,
        !(item.tag is Other),
        item.span is Some,
        indexed_file(item.span->0, files, root, dir, table, 0) == Some(f),
    ensures
        ({
            let fate = type_fate(doc, item, files, rows, root, dir, table);
            let named = |r: TypeRowView| r.file == files[f] && r.name == item.name->0;
            &&& forall|k: int|
                0 <= k < rows.len() && named(#[trigger] rows[k]) && (forall|j: int|
                    0 <= j < k ==> !named(#[trigger] rows[j])) ==> fate == Some(
                    if rows[k].made {
                        TypeFate::Known(rows[k].id)
                    } else {
                        TypeFate::Declared
                    },
                )
            &&& (forall|k: int| 0 <= k < rows.len() ==> !named(#[trigger] rows[k])) ==> (
            fate matches Some(TypeFate::New(t)) && t.item_id == item.id && Some(t.kind)
                == type_kind_of(item.tag) && t.name == item.name->0 && t.file == files[f] && t.line
                == item.span->0.line && t.stable_id == plain_path(files[f]) + "::"@ + t.kind + "::"@
                + t.name && ({
                let names = qualified_names(doc.paths, doc.paths.len() as int);
                let name = last_text(names, item.id, names.len() as int);
                t.qualified_name == if name is Some {
                    name->0
                } else {
                    ""@
                }
            }))
        }),
{
    let named = |r: TypeRowView| r.file == files[f] && r.name == item.name->0;
    row_is_first(rows, files[f], item.name->0, 0);
    match row_of_type(rows, files[f], item.name->0, 0) {
        Some(k) => {
            assert(named(rows[k]));
        },
        None => {
            assert forall|k: int| 0 <= k < rows.len() implies !named(#[trigger] rows[k]) by {}
        },
    }
}

/// What becomes of each type is listed: those that are stored with their rows, those that are
/// new, and those that are warned of.
pub proof fn fates_are_listed(
    doc: RustdocDocView,
    files: Seq<Seq<char>>,
    rows: Seq<TypeRowView>,
    root: Seq<char>,
    dir: Seq<char>,
    table: Seq<ResolvedView>,
    n: int,
    known: (u32, i64),
    fresh: MadeTypeView,
    label: Seq<char>,
)
    requires
        0 <= n <= doc.items.len(),
    ensures
        made_types(doc, files, rows, root, dir, table, n).known.contains(known) <==> exists|i: int|
            0 <= i < n && (#[trigger] doc.items[i]).id == known.0 && type_fate(
                doc,
                doc.items[i],
                files,
                rows,
                root,
                dir,
                table,
            ) == Some(TypeFate::Known(known.1)),
        made_types(doc, files, rows, root, dir, table, n).fresh.contains(fresh) <==> exists|i: int|
            0 <= i < n && type_fate(
                doc,
                #[trigger] doc.items[i],
                files,
                rows,
                root,
                dir,
                table,
            ) == Some(TypeFate::New(fresh)),
        made_types(doc, files, rows, root, dir, table, n).unplaced.contains(label) <==> exists|
            i: int,
        |
            0 <= i < n && type_fate(
                doc,
                #[trigger] doc.items[i],
                files,
                rows,
                root,
                dir,
                table,
            ) == Some(TypeFate::Unplaced(label)),
    decreases n,
{
    if n > 0 {
        fates_are_listed(doc, files, rows, root, dir, table, n - 1, known, fresh, label);
        let rest = made_types(doc, files, rows, root, dir, table, n - 1);
        let item = doc.items[n - 1];
        match type_fate(doc, item, files, rows, root, dir, table) {
            Some(TypeFate::Known(id)) => {
                push_holds(rest.known, (item.id, id), known);
            },
            Some(TypeFate::New(t)) => {
                push_holds(rest.fresh, t, fresh);
            },
            Some(TypeFate::Unplaced(l)) => {
                push_holds(rest.unplaced, l, label);
            },
            _ => {},
        }
    }
}

} // verus!
