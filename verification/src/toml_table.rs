//! TOML documents: read and written by toml, and what their tables hold.

use vstd::prelude::*;

verus! {

/// toml's map from keys to values.
#[verifier::external_type_specification]
#[verifier::external_body]
#[verifier::reject_recursive_types(K)]
#[verifier::reject_recursive_types(V)]
pub struct ExTomlMap<K, V>(toml::map::Map<K, V>);

/// toml's value.
#[verifier::external_type_specification]
#[verifier::external_body]
pub struct ExTomlValue(toml::Value);

/// What stands under a key of a table.
pub enum Entry {
    Text(String),
    Table(toml::Table),
    Other(toml::Value),
}

/// What an [`Entry`] holds.
pub enum EntryView {
    Text(Seq<char>),
    Table(Map<Seq<char>, EntryView>),
    Other(toml::Value),
}

impl Entry {
    pub open spec fn view(&self) -> EntryView {
        match self {
            Entry::Text(s) => EntryView::Text(s@),
            Entry::Table(t) => EntryView::Table(table_entries(*t)),
            Entry::Other(v) => EntryView::Other(*v),
        }
    }
}

/// What a table of toml holds.
pub uninterp spec fn table_entries(t: toml::Table) -> Map<Seq<char>, EntryView>;

/// What an empty table holds.
pub open spec fn no_entries() -> Map<Seq<char>, EntryView> {
    Map::empty()
}

/// What `toml::from_str` reads a text as: the entries of a table, or why it is none.
pub uninterp spec fn toml_text(text: Seq<char>) -> Result<Map<Seq<char>, EntryView>, Seq<char>>;

/// The text that `toml::to_string_pretty` writes for a table with the entries, or why it
/// writes none.
pub uninterp spec fn toml_rendering(entries: Map<Seq<char>, EntryView>) -> Result<
    Seq<char>,
    Seq<char>,
>;

/// Calls `toml::from_str` for a table: the table that the text writes, or the error as text.
#[verifier::external_body]
pub(crate) fn parse_table(text: &str) -> (r: Result<toml::Table, String>)
    ensures
        match r {
            Ok(t) => toml_text(text@) matches Ok(m) && m == table_entries(t),
            Err(e) => toml_text(text@) matches Err(m) && m == e@,
        },
{
    toml::from_str::<toml::Table>(text).map_err(|e| e.to_string())
}

/// Calls `toml::Table::new`: a table that holds nothing.
#[verifier::external_body]
pub(crate) fn new_table() -> (r: toml::Table)
    ensures
        table_entries(r) == no_entries(),
{
    toml::Table::new()
}

/// Calls `toml::Table::get`: a copy of what stands under the key, if anything does.
#[verifier::external_body]
pub(crate) fn entry_at(t: &toml::Table, key: &str) -> (r: Option<Entry>)
    ensures
        match r {
            Some(e) => table_entries(*t).contains_key(key@) && e@ == table_entries(*t)[key@],
            None => !table_entries(*t).contains_key(key@),
        },
{
    match t.get(key) {
        Some(toml::Value::String(s)) => Some(Entry::Text(s.clone())),
        Some(toml::Value::Table(s)) => Some(Entry::Table(s.clone())),
        Some(v) => Some(Entry::Other(v.clone())),
        None => None,
    }
}

/// Calls `toml::Table::insert`: the text or table stands under the key then, in place of what
/// stood there before.
#[verifier::external_body]
pub(crate) fn put(t: &mut toml::Table, key: &str, e: Entry)
    requires
        !(e is Other),
    ensures
        table_entries(*final(t)) == table_entries(*old(t)).insert(key@, e@),
{
    let v = match e {
        Entry::Text(s) => toml::Value::String(s),
        Entry::Table(s) => toml::Value::Table(s),
        Entry::Other(v) => v,
    };
    t.insert(key.to_owned(), v);
}

/// Calls `toml::to_string_pretty`: the table as text, or the error as text.
#[verifier::external_body]
pub(crate) fn render(t: &toml::Table) -> (r: Result<String, String>)
    ensures
        match r {
            Ok(s) => toml_rendering(table_entries(*t)) matches Ok(m) && m == s@,
            Err(e) => toml_rendering(table_entries(*t)) matches Err(m) && m == e@,
        },
{
    toml::to_string_pretty(t).map_err(|e| e.to_string())
}

} // verus!
