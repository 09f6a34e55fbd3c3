//! Advisories on crates, as `cargo audit` reports them.

use vstd::prelude::*;

use crate::json::{self, field_of, items_in, json_read, text_in, Json, JsonView};
use crate::model::{views, Dup};
use crate::text::{contains, has_str, str_eq};

verus! {

broadcast use crate::model::group_views;

/// An advisory on a crate.
#[derive(Debug)]
pub struct AdvisoryRow {
    pub package_name: String,
    pub version: String,
    pub advisory_id: String,
    pub title: String,
    pub cvss: Option<String>,
    pub severity: String,
    pub category: Option<String>,
    pub kind: String,
    pub date: Option<String>,
}

/// What a [`AdvisoryRow`] holds.
#[verifier::ext_equal]
pub struct AdvisoryRowView {
    pub package_name: Seq<char>,
    pub version: Seq<char>,
    pub advisory_id: Seq<char>,
    pub title: Seq<char>,
    pub cvss: Option<Seq<char>>,
    pub severity: Seq<char>,
    pub category: Option<Seq<char>>,
    pub kind: Seq<char>,
    pub date: Option<Seq<char>>,
}

impl DeepView for AdvisoryRow {
    type V = AdvisoryRowView;

    open spec fn deep_view(&self) -> AdvisoryRowView {
        AdvisoryRowView {
            package_name: self.package_name.deep_view(),
            version: self.version.deep_view(),
            advisory_id: self.advisory_id.deep_view(),
            title: self.title.deep_view(),
            cvss: self.cvss.deep_view(),
            severity: self.severity.deep_view(),
            category: self.category.deep_view(),
            kind: self.kind.deep_view(),
            date: self.date.deep_view(),
        }
    }
}

impl View for AdvisoryRow {
    type V = AdvisoryRowView;

    open spec fn view(&self) -> AdvisoryRowView {
        self.deep_view()
    }
}

/// How severe an advisory is, by its CVSS vector.
pub open spec fn severity_of(cvss: Option<Seq<char>>) -> Seq<char> {
    match cvss {
        None => "informational"@,
        Some(v) => if has_str(v, "AV:N"@) && has_str(v, "AC:L"@) && has_str(v, "PR:N"@) {
            "high"@
        } else if has_str(v, "AV:N"@) {
            "medium"@
        } else if has_str(v, "AV:L"@) {
            "low"@
        } else {
            "informational"@
        },
    }
}

/// How severe an advisory is, by its CVSS vector.
pub fn derive_severity(cvss: &Option<String>) -> (r: String)
    ensures
        r@ == severity_of(cvss.deep_view()),
{
    let v = match cvss {
        Some(v) => v,
        None => {
            return "informational".to_owned();
        },
    };
    if contains(v, "AV:N") && contains(v, "AC:L") && contains(v, "PR:N") {
        "high".to_owned()
    } else if contains(v, "AV:N") {
        "medium".to_owned()
    } else if contains(v, "AV:L") {
        "low".to_owned()
    } else {
        "informational".to_owned()
    }
}

/// The first of an advisory's categories.
pub open spec fn first_category(advisory: JsonView) -> Option<Seq<char>> {
    match items_in(field_of(advisory, "categories"@)) {
        Some(items) => if items.len() > 0 {
            text_in(items[0])
        } else {
            None
        },
        None => None,
    }
}

/// The advisory that an entry of a report is. None where it lacks the crate's name or
/// version, or the advisory's id or title.
pub open spec fn advisory_in(v: JsonView, kind: Seq<char>) -> Option<AdvisoryRowView> {
    let package = field_of(v, "package"@);
    let advisory = field_of(v, "advisory"@);
    match (
        text_in(field_of(package, "name"@)),
        text_in(field_of(package, "version"@)),
        text_in(field_of(advisory, "id"@)),
        text_in(field_of(advisory, "title"@)),
    ) {
        (Some(package_name), Some(version), Some(advisory_id), Some(title)) => Some(
            AdvisoryRowView {
                package_name,
                version,
                advisory_id,
                title,
                cvss: text_in(field_of(advisory, "cvss"@)),
                severity: severity_of(text_in(field_of(advisory, "cvss"@))),
                category: first_category(advisory),
                kind,
                date: text_in(field_of(advisory, "date"@)),
            },
        ),
        _ => None,
    }
}

fn copy_text(t: Option<&String>) -> (r: Option<String>)
    ensures
        r.deep_view() == t.deep_view(),
{
    match t {
        Some(s) => Some(s.dup()),
        None => None,
    }
}

/// The advisory that an entry of a report is.
pub fn parse_entry(v: &Json, kind: &str) -> (r: Option<AdvisoryRow>)
    ensures
        r.deep_view() == advisory_in(v@, kind@),
{
    let package = match v.field("package") {
        Some(p) => p,
        None => {
            return None;
        },
    };
    let advisory = match v.field("advisory") {
        Some(a) => a,
        None => {
            return None;
        },
    };
    let package_name = match package.field_text("name") {
        Some(t) => t.dup(),
        None => {
            return None;
        },
    };
    let version = match package.field_text("version") {
        Some(t) => t.dup(),
        None => {
            return None;
        },
    };
    let advisory_id = match advisory.field_text("id") {
        Some(t) => t.dup(),
        None => {
            return None;
        },
    };
    let title = match advisory.field_text("title") {
        Some(t) => t.dup(),
        None => {
            return None;
        },
    };
    let cvss = copy_text(advisory.field_text("cvss"));
    let category = match advisory.field_items("categories") {
        Some(items) => {
            assert(views(items@).len() == items@.len());
            if items.len() > 0 {
                assert(views(items@)[0] == items@[0]@);
                copy_text(items[0].text())
            } else {
                None
            }
        },
        None => None,
    };
    let date = copy_text(advisory.field_text("date"));
    Some(
        AdvisoryRow {
            package_name,
            version,
            advisory_id,
            title,
            severity: derive_severity(&cvss),
            cvss,
            category,
            kind: kind.to_owned(),
            date,
        },
    )
}

/// `rows` and the advisories that the first `n` entries are.
pub open spec fn with_entries(
    rows: Seq<AdvisoryRowView>,
    items: Seq<JsonView>,
    kind: Seq<char>,
    n: int,
) -> Seq<AdvisoryRowView>
    decreases n,
{
    if n <= 0 {
        rows
    } else {
        let rest = with_entries(rows, items, kind, n - 1);
        match advisory_in(items[n - 1], kind) {
            Some(a) => rest.push(a),
            None => rest,
        }
    }
}

/// `rows` and the advisories that a list of a report holds, where it is one.
pub open spec fn with_list(rows: Seq<AdvisoryRowView>, list: JsonView, kind: Seq<char>) -> Seq<
    AdvisoryRowView,
> {
    match items_in(list) {
        Some(items) => with_entries(rows, items, kind, items.len() as int),
        None => rows,
    }
}

/// The advisories of a report: vulnerabilities, then warnings of unmaintained, yanked and
/// unsound crates.
pub open spec fn advisories_in(doc: JsonView) -> Seq<AdvisoryRowView> {
    let warnings = field_of(doc, "warnings"@);
    let rows = with_list(
        Seq::empty(),
        field_of(field_of(doc, "vulnerabilities"@), "list"@),
        "vulnerability"@,
    );
    let rows = with_list(rows, field_of(warnings, "unmaintained"@), "unmaintained"@);
    let rows = with_list(rows, field_of(warnings, "yanked"@), "yanked"@);
    with_list(rows, field_of(warnings, "unsound"@), "unsound"@)
}

fn add_list(rows: &mut Vec<AdvisoryRow>, owner: Option<&Json>, key: &str, kind: &str)
    ensures
        views(final(rows)@) == with_list(
            views(old(rows)@),
            field_of(
                match owner {
                    Some(o) => o@,
                    None => JsonView::Null,
                },
                key@,
            ),
            kind@,
        ),
{
    let items = match owner {
        Some(o) => match o.field_items(key) {
            Some(i) => i,
            None => {
                return;
            },
        },
        None => {
            return;
        },
    };
    let ghost start = views(rows@);
    let ghost iv = views(items@);
    assert(iv.len() == items@.len());
    let mut n: usize = 0;
    while n < items.len()
        invariant
            iv == views(items@),
            n <= items@.len(),
            views(rows@) == with_entries(start, iv, kind@, n as int),
        decreases items@.len() - n,
    {
        assert(iv[n as int] == items@[n as int]@);
        if let Some(a) = parse_entry(&items[n], kind) {
            rows.push(a);
        }
        n = n + 1;
    }
}

/// The advisories of a report.
pub fn collect_advisories(doc: &Json) -> (r: Vec<AdvisoryRow>)
    ensures
        views(r@) == advisories_in(doc@),
{
    let mut out: Vec<AdvisoryRow> = Vec::new();
    add_list(&mut out, doc.field("vulnerabilities"), "list", "vulnerability");
    add_list(&mut out, doc.field("warnings"), "unmaintained", "unmaintained");
    add_list(&mut out, doc.field("warnings"), "yanked", "yanked");
    add_list(&mut out, doc.field("warnings"), "unsound", "unsound");
    out
}

/// What `cargo audit` said.
pub enum AuditOutput {
    /// The advisories of its report.
    Report(Vec<AdvisoryRow>),
    /// It reported nothing, for the reason given.
    Skipped(&'static str),
    /// It failed, with this message.
    Failed(String),
}

/// Why a run without a report is passed over, if it is.
pub open spec fn skip_reason(stderr: Seq<char>) -> Option<Seq<char>> {
    if has_str(stderr, "no such command: `audit`"@) {
        Some("cargo audit is not installed. Install with: cargo install cargo-audit"@)
    } else if has_str(stderr, "advisory-db"@) && (has_str(stderr, "read-only path"@) || has_str(
        stderr,
        "lock file"@,
    )) {
        Some(
            "cargo audit advisory DB is not writable in this environment; rerun where ~/.cargo is writable."@,
        )
    } else {
        None
    }
}

/// Read the output of `cargo audit`. It fails where it finds vulnerabilities, so its report
/// counts whatever its exit code.
pub fn read_audit(stdout: &str, stderr: &str) -> (r: AuditOutput)
    ensures
        if stdout@.len() == 0 {
            match skip_reason(stderr@) {
                Some(why) => r matches AuditOutput::Skipped(w) && w@ == why,
                None => r matches AuditOutput::Failed(m) && m@
                    == "cargo audit returned no JSON output: "@ + crate::text::trimmed(stderr@),
            }
        } else {
            match json_read(stdout@) {
                Ok(doc) => r matches AuditOutput::Report(rows) && views(rows@) == advisories_in(
                    doc,
                ),
                Err(e) => r matches AuditOutput::Failed(m) && m@ == e,
            }
        },
{
    if stdout.is_empty() {
        if contains(stderr, "no such command: `audit`") {
            return AuditOutput::Skipped(
                "cargo audit is not installed. Install with: cargo install cargo-audit",
            );
        }
        if contains(stderr, "advisory-db") && (contains(stderr, "read-only path") || contains(
            stderr,
            "lock file",
        )) {
            return AuditOutput::Skipped(
                "cargo audit advisory DB is not writable in this environment; rerun where ~/.cargo is writable.",
            );
        }
        let why = crate::text::trim(stderr);
        return AuditOutput::Failed(
            crate::text::concat2("cargo audit returned no JSON output: ", &why),
        );
    }
    match json::read(stdout) {
        Ok(doc) => AuditOutput::Report(collect_advisories(&doc)),
        Err(e) => AuditOutput::Failed(e),
    }
}

/// How many of the first `n` advisories are of the kind.
pub open spec fn kind_count(rows: Seq<AdvisoryRowView>, kind: Seq<char>, n: int) -> nat
    decreases n,
{
    if n <= 0 {
        0
    } else {
        kind_count(rows, kind, n - 1) + if rows[n - 1].kind == kind {
            1nat
        } else {
            0nat
        }
    }
}

/// How many of the advisories are of the kind.
pub fn count_kind(rows: &Vec<AdvisoryRow>, kind: &str) -> (r: usize)
    ensures
        r == kind_count(views(rows@), kind@, rows@.len() as int),
{
    let mut count: usize = 0;
    let mut n: usize = 0;
    while n < rows.len()
        invariant
            count <= n <= rows@.len(),
            count == kind_count(views(rows@), kind@, n as int),
        decreases rows@.len() - n,
    {
        assert(views(rows@)[n as int] == rows@[n as int]@);
        if str_eq(&rows[n].kind, kind) {
            count = count + 1;
        }
        n = n + 1;
    }
    count
}

// ---------------------------------------------------------------------------
// What advisories say
// ---------------------------------------------------------------------------

/// How severe an advisory is: high where it can be used over the network, easily and without
/// privileges; medium where it can be used over the network at all; low where it can be used
/// locally; and else, or without a score, for information.
pub proof fn scores_give_severities(v: Seq<char>)
    ensures
        severity_of(None) == "informational"@,
        has_str(v, "AV:N"@) && has_str(v, "AC:L"@) && has_str(v, "PR:N"@) ==> severity_of(Some(v))
            == "high"@,
        has_str(v, "AV:N"@) && !(has_str(v, "AC:L"@) && has_str(v, "PR:N"@)) ==> severity_of(
            Some(v),
        ) == "medium"@,
        !has_str(v, "AV:N"@) && has_str(v, "AV:L"@) ==> severity_of(Some(v)) == "low"@,
        !has_str(v, "AV:N"@) && !has_str(v, "AV:L"@) ==> severity_of(Some(v)) == "informational"@,
{
}

/// An entry is an advisory where it names a package with its version and an advisory with its
/// title; it says what the entry says.
pub proof fn entries_are_advisories(v: JsonView, kind: Seq<char>)
    ensures
        ({
            let package = field_of(v, "package"@);
            let advisory = field_of(v, "advisory"@);
            match advisory_in(v, kind) {
                Some(a) => field_of(package, "name"@) == JsonView::Str(a.package_name) && field_of(
                    package,
                    "version"@,
                ) == JsonView::Str(a.version) && field_of(advisory, "id"@) == JsonView::Str(
                    a.advisory_id,
                ) && field_of(advisory, "title"@) == JsonView::Str(a.title) && a.kind == kind
                    && a.severity == severity_of(a.cvss) && (a.cvss is Some ==> field_of(
                    advisory,
                    "cvss"@,
                ) == JsonView::Str(a.cvss->0)) && (a.date is Some ==> field_of(advisory, "date"@)
                    == JsonView::Str(a.date->0)),
                None => !(field_of(package, "name"@) is Str && field_of(package, "version"@) is Str
                    && field_of(advisory, "id"@) is Str && field_of(advisory, "title"@) is Str),
            }
        }),
{
}

proof fn entries_are_added(
    rows: Seq<AdvisoryRowView>,
    list: JsonView,
    kind: Seq<char>,
    a: AdvisoryRowView,
)
    ensures
        with_list(rows, list, kind).contains(a) <==> rows.contains(a) || (list matches JsonView::Arr(
            items,
        ) && exists|i: int|
            0 <= i < items.len() && advisory_in(#[trigger] items[i], kind) == Some(a)),
{
    if let JsonView::Arr(items) = list {
        items_are_added(rows, items, kind, items.len() as int, a);
    }
}

proof fn items_are_added(
    rows: Seq<AdvisoryRowView>,
    items: Seq<JsonView>,
    kind: Seq<char>,
    n: int,
    a: AdvisoryRowView,
)
    requires
        0 <= n <= items.len(),
    ensures
        with_entries(rows, items, kind, n).contains(a) <==> rows.contains(a) || exists|i: int|
            0 <= i < n && advisory_in(#[trigger] items[i], kind) == Some(a),
    decreases n,
{
    if n > 0 {
        items_are_added(rows, items, kind, n - 1, a);
        let rest = with_entries(rows, items, kind, n - 1);
        let all = with_entries(rows, items, kind, n);
        if rest.contains(a) {
            let j = choose|j: int| 0 <= j < rest.len() && rest[j] == a;
            assert(all[j] == a);
        }
        if advisory_in(items[n - 1], kind) == Some(a) {
            assert(all[rest.len() as int] == a);
        }
        if all.contains(a) && !rest.contains(a) {
            let j = choose|j: int| 0 <= j < all.len() && all[j] == a;
            if j < rest.len() {
                assert(rest[j] == a);
            }
            assert(advisory_in(items[n - 1], kind) == Some(a));
        }
    }
}

/// The advisories of a report are its vulnerabilities and its warnings on crates that are
/// unmaintained, yanked or unsound, each of the kind of its list, and no others.
pub proof fn reports_hold_four_kinds(doc: JsonView, a: AdvisoryRowView)
    ensures
        ({
            let warnings = field_of(doc, "warnings"@);
            advisories_in(doc).contains(a) <==> lists(
                field_of(field_of(doc, "vulnerabilities"@), "list"@),
                "vulnerability"@,
                a,
            ) || lists(field_of(warnings, "unmaintained"@), "unmaintained"@, a) || lists(
                field_of(warnings, "yanked"@),
                "yanked"@,
                a,
            ) || lists(field_of(warnings, "unsound"@), "unsound"@, a)
        }),
{
    let warnings = field_of(doc, "warnings"@);
    let none = Seq::<AdvisoryRowView>::empty();
    let l1 = field_of(field_of(doc, "vulnerabilities"@), "list"@);
    let r1 = with_list(none, l1, "vulnerability"@);
    let r2 = with_list(r1, field_of(warnings, "unmaintained"@), "unmaintained"@);
    let r3 = with_list(r2, field_of(warnings, "yanked"@), "yanked"@);
    entries_are_added(none, l1, "vulnerability"@, a);
    entries_are_added(r1, field_of(warnings, "unmaintained"@), "unmaintained"@, a);
    entries_are_added(r2, field_of(warnings, "yanked"@), "yanked"@, a);
    entries_are_added(r3, field_of(warnings, "unsound"@), "unsound"@, a);
}

/// An entry of the list is the advisory, of that kind.
pub open spec fn lists(list: JsonView, kind: Seq<char>, a: AdvisoryRowView) -> bool {
    list matches JsonView::Arr(items) && exists|i: int|
        0 <= i < items.len() && advisory_in(#[trigger] items[i], kind) == Some(a)
}

/// A run without a report is passed over only where cargo audit is missing or its database
/// cannot be written.
pub proof fn failed_runs_are_told(stderr: Seq<char>)
    ensures
        skip_reason(stderr) is Some <==> has_str(stderr, "no such command: `audit`"@) || (has_str(
            stderr,
            "advisory-db"@,
        ) && (has_str(stderr, "read-only path"@) || has_str(stderr, "lock file"@))),
{
}

/// The advisories of a kind are counted.
pub proof fn kinds_are_counted(rows: Seq<AdvisoryRowView>, kind: Seq<char>, n: int)
    requires
        0 <= n <= rows.len(),
    ensures
        kind_count(rows, kind, n) == rows.take(n).filter(
            |a: AdvisoryRowView| a.kind == kind,
        ).len(),
    decreases n,
{
    reveal(Seq::filter);
    if n > 0 {
        kinds_are_counted(rows, kind, n - 1);
        assert(rows.take(n).drop_last() =~= rows.take(n - 1));
        assert(rows.take(n).last() == rows[n - 1]);
    }
}

/// The category of an advisory is the first that it lists, where that is a text; its score and
/// its date are those that it gives.
pub proof fn first_category_counts(v: JsonView, kind: Seq<char>, items: Seq<JsonView>)
    requires
        advisory_in(v, kind) is Some,
    ensures
        ({
            let advisory = field_of(v, "advisory"@);
            let a = advisory_in(v, kind)->0;
            &&& field_of(advisory, "categories"@) == JsonView::Arr(items) && items.len() > 0
                ==> a.category == text_in(items[0])
            &&& field_of(advisory, "categories"@) == JsonView::Arr(items) && items.len() == 0
                ==> a.category is None
            &&& !(field_of(advisory, "categories"@) is Arr) ==> a.category is None
            &&& a.cvss == text_in(field_of(advisory, "cvss"@))
            &&& a.date == text_in(field_of(advisory, "date"@))
        }),
{
}

} // verus!
