//! JSON values: parsed by serde_json, then read as values of the library's own.

use vstd::prelude::*;

use crate::model::views;
use crate::text::str_eq;

verus! {

/// serde_json's value.
#[verifier::external_type_specification]
#[verifier::external_body]
pub struct ExValue(serde_json::Value);

/// What a JSON value holds. A number is an integer, or one that is none.
pub enum JsonView {
    Null,
    Bool(bool),
    Num(Option<int>),
    Str(Seq<char>),
    Arr(Seq<JsonView>),
    Obj(Seq<(Seq<char>, JsonView)>),
}

/// What a value of serde_json holds. The entries of an object stand in the order of its map.
pub uninterp spec fn json_of(v: serde_json::Value) -> JsonView;

/// What serde_json reads from a text; its complaint where the text is no JSON.
pub uninterp spec fn json_read(text: Seq<char>) -> Result<JsonView, Seq<char>>;

/// The value that a text writes; none where the text is no JSON.
pub open spec fn json_text(text: Seq<char>) -> Option<JsonView> {
    match json_read(text) {
        Ok(j) => Some(j),
        Err(_) => None,
    }
}

/// A JSON value. A number is an integer, or one that is none.
pub enum Json {
    Null,
    Bool(bool),
    Num(Option<i128>),
    Str(String),
    Arr(Vec<Json>),
    Obj(Vec<(String, Json)>),
}

impl Json {
    /// What the value holds.
    pub open spec fn view(&self) -> JsonView
        decreases self,
    {
        match self {
            Json::Null => JsonView::Null,
            Json::Bool(b) => JsonView::Bool(*b),
            Json::Num(n) => JsonView::Num(
                match n {
                    Some(i) => Some(*i as int),
                    None => None,
                },
            ),
            Json::Str(s) => JsonView::Str(s@),
            Json::Arr(v) => JsonView::Arr(
                Seq::new(
                    v@.len(),
                    |i: int|
                        if 0 <= i < v@.len() {
                            v@[i].view()
                        } else {
                            JsonView::Null
                        },
                ),
            ),
            Json::Obj(v) => JsonView::Obj(
                Seq::new(
                    v@.len(),
                    |i: int|
                        if 0 <= i < v@.len() {
                            (v@[i].0@, v@[i].1.view())
                        } else {
                            (Seq::empty(), JsonView::Null)
                        },
                ),
            ),
        }
    }
}

/// The outermost layer of a value of serde_json.
pub enum Shape {
    Null,
    Bool(bool),
    Num(Option<i128>),
    Str(String),
    Arr(Vec<serde_json::Value>),
    Obj(Vec<(String, serde_json::Value)>),
}

impl Shape {
    /// What a value of this shape holds.
    pub open spec fn json(&self) -> JsonView {
        match self {
            Shape::Null => JsonView::Null,
            Shape::Bool(b) => JsonView::Bool(*b),
            Shape::Num(n) => JsonView::Num(
                match n {
                    Some(i) => Some(*i as int),
                    None => None,
                },
            ),
            Shape::Str(s) => JsonView::Str(s@),
            Shape::Arr(v) => JsonView::Arr(Seq::new(v@.len(), |i: int| json_of(v@[i]))),
            Shape::Obj(v) => JsonView::Obj(
                Seq::new(v@.len(), |i: int| (v@[i].0@, json_of(v@[i].1))),
            ),
        }
    }
}

/// `serde_json::from_str` to a `serde_json::Value`, and the text of its error: what it reads
/// and what it complains of depend on the text alone.
#[verifier::external_body]
fn parse_value(text: &str) -> (r: Result<serde_json::Value, String>)
    ensures
        match r {
            Ok(v) => json_read(text@) matches Ok(j) && j == json_of(v),
            Err(e) => json_read(text@) matches Err(m) && m == e@,
        },
{
    serde_json::from_str::<serde_json::Value>(text).map_err(|e| e.to_string())
}

/// The variant of a `serde_json::Value` and what it holds; `serde_json::Number::as_i128`
/// gives a number as an integer, where it is one.
#[verifier::external_body]
fn shape_of(v: serde_json::Value) -> (r: Shape)
    ensures
        r.json() == json_of(v),
{
    match v {
        serde_json::Value::Null => Shape::Null,
        serde_json::Value::Bool(b) => Shape::Bool(b),
        serde_json::Value::Number(n) => Shape::Num(n.as_i128()),
        serde_json::Value::String(s) => Shape::Str(s),
        serde_json::Value::Array(a) => Shape::Arr(a),
        serde_json::Value::Object(o) => Shape::Obj(o.into_iter().collect()),
    }
}

fn convert(v: serde_json::Value) -> (r: Json)
    ensures
        r@ == json_of(v),
    decreases json_of(v),
{
    let ghost whole = json_of(v);
    match shape_of(v) {
        Shape::Null => Json::Null,
        Shape::Bool(b) => Json::Bool(b),
        Shape::Num(n) => Json::Num(n),
        Shape::Str(s) => Json::Str(s),
        Shape::Arr(items) => {
            let ghost given = items@;
            let mut out: Vec<Json> = Vec::new();
            for x in it: items
                invariant
                    it.seq() == given,
                    whole == json_of(v),
                    whole == JsonView::Arr(Seq::new(given.len(), |i: int| json_of(given[i]))),
                    out@.len() == it.index(),
                    forall|i: int| 0 <= i < out@.len() ==> (#[trigger] out@[i])@ == json_of(given[i]),
            {
                assert(x == given[it.index() as int]);
                assert(decreases_to!(whole => whole->Arr_0[it.index() as int]));
                assert(whole->Arr_0[it.index() as int] == json_of(x));
                out.push(convert(x));
            }
            let r = Json::Arr(out);
            assert(r@->Arr_0 =~= whole->Arr_0);
            r
        },
        Shape::Obj(items) => {
            let ghost given = items@;
            let mut out: Vec<(String, Json)> = Vec::new();
            for x in it: items
                invariant
                    it.seq() == given,
                    whole == json_of(v),
                    whole == JsonView::Obj(
                        Seq::new(given.len(), |i: int| (given[i].0@, json_of(given[i].1))),
                    ),
                    out@.len() == it.index(),
                    forall|i: int|
                        0 <= i < out@.len() ==> (#[trigger] out@[i]).0@ == given[i].0@
                            && out@[i].1@ == json_of(given[i].1),
            {
                let (key, value) = x;
                assert(x == given[it.index() as int]);
                assert(decreases_to!(whole => whole->Obj_0[it.index() as int].1));
                assert(whole->Obj_0[it.index() as int].1 == json_of(value));
                out.push((key, convert(value)));
            }
            let r = Json::Obj(out);
            assert(r@->Obj_0 =~= whole->Obj_0);
            r
        },
    }
}

/// The value that a text writes; none where the text is no JSON.
pub fn parse(text: &str) -> (r: Option<Json>)
    ensures
        match r {
            Some(j) => json_text(text@) == Some(j@),
            None => json_text(text@) is None,
        },
{
    match read(text) {
        Ok(j) => Some(j),
        Err(_) => None,
    }
}

/// The value that a text writes; serde_json's complaint where the text is no JSON.
pub fn read(text: &str) -> (r: Result<Json, String>)
    ensures
        match r {
            Ok(j) => json_read(text@) matches Ok(v) && v == j@,
            Err(e) => json_read(text@) matches Err(m) && m == e@,
        },
{
    match parse_value(text) {
        Ok(v) => Ok(convert(v)),
        Err(e) => Err(e),
    }
}

// ---------------------------------------------------------------------------
// Writing texts
// ---------------------------------------------------------------------------

/// How serde_json writes a text as JSON.
pub uninterp spec fn json_quoted(s: Seq<char>) -> Seq<char>;

/// `serde_json::to_string` on a text: what it writes depends on the text alone.
#[verifier::external_body]
pub(crate) fn quote_text(s: &str) -> (r: String)
    ensures
        r@ == json_quoted(s@),
{
    serde_json::to_string(s).unwrap_or_default()
}

// ---------------------------------------------------------------------------
// Reading values
// ---------------------------------------------------------------------------

impl DeepView for Json {
    type V = JsonView;

    open spec fn deep_view(&self) -> JsonView {
        self@
    }
}

/// The value of the first entry from `i` on with the key.
pub open spec fn entry_at(entries: Seq<(Seq<char>, JsonView)>, key: Seq<char>, i: int) -> Option<
    JsonView,
>
    decreases entries.len() - i,
{
    if i < 0 || i >= entries.len() {
        None
    } else if entries[i].0 == key {
        Some(entries[i].1)
    } else {
        entry_at(entries, key, i + 1)
    }
}

/// The value of an object's entry; `Null` where there is none, or where the value is no
/// object.
pub open spec fn field_of(j: JsonView, key: Seq<char>) -> JsonView {
    match j {
        JsonView::Obj(entries) => match entry_at(entries, key, 0) {
            Some(v) => v,
            None => JsonView::Null,
        },
        _ => JsonView::Null,
    }
}

/// The value is an object with an entry of the key.
pub open spec fn has_field(j: JsonView, key: Seq<char>) -> bool {
    match j {
        JsonView::Obj(entries) => entry_at(entries, key, 0) is Some,
        _ => false,
    }
}

/// The text that the value is, if it is one.
pub open spec fn text_in(j: JsonView) -> Option<Seq<char>> {
    match j {
        JsonView::Str(s) => Some(s),
        _ => None,
    }
}

/// The items of the value, if it is an array.
pub open spec fn items_in(j: JsonView) -> Option<Seq<JsonView>> {
    match j {
        JsonView::Arr(items) => Some(items),
        _ => None,
    }
}

/// The integer of the type `i64` that the value is, if it is one.
pub open spec fn i64_in(j: JsonView) -> Option<int> {
    match j {
        JsonView::Num(Some(n)) => if i64::MIN <= n <= i64::MAX {
            Some(n)
        } else {
            None
        },
        _ => None,
    }
}

/// The integer of the type `u64` that the value is, if it is one.
pub open spec fn u64_in(j: JsonView) -> Option<int> {
    match j {
        JsonView::Num(Some(n)) => if 0 <= n <= u64::MAX {
            Some(n)
        } else {
            None
        },
        _ => None,
    }
}

/// The truth value that the value is, if it is one.
pub open spec fn bool_in(j: JsonView) -> Option<bool> {
    match j {
        JsonView::Bool(b) => Some(b),
        _ => None,
    }
}

impl Json {
    /// The value of an object's entry; none where there is none, or where the value is no
    /// object.
    pub fn field(&self, key: &str) -> (r: Option<&Json>)
        ensures
            match r {
                Some(v) => field_of(self@, key@) == v@ && has_field(self@, key@),
                None => field_of(self@, key@) == JsonView::Null && !has_field(self@, key@),
            },
    {
        match self {
            Json::Obj(entries) => {
                let ghost ev = self@->Obj_0;
                let mut i: usize = 0;
                while i < entries.len()
                    invariant
                        i <= entries@.len(),
                        self@ == JsonView::Obj(ev),
                        ev.len() == entries@.len(),
                        forall|k: int|
                            0 <= k < entries@.len() ==> #[trigger] ev[k] == (
                                entries@[k].0@,
                                entries@[k].1@,
                            ),
                        entry_at(ev, key@, 0) == entry_at(ev, key@, i as int),
                    decreases entries@.len() - i,
                {
                    assert(ev[i as int].0 == entries@[i as int].0@);
                    if str_eq(&entries[i].0, key) {
                        return Some(&entries[i].1);
                    }
                    i = i + 1;
                }
                None
            },
            _ => None,
        }
    }

    /// The text that the value is, if it is one.
    pub fn text(&self) -> (r: Option<&String>)
        ensures
            r.deep_view() == text_in(self@),
    {
        match self {
            Json::Str(s) => Some(s),
            _ => None,
        }
    }

    /// The items of the value, if it is an array.
    pub fn items(&self) -> (r: Option<&Vec<Json>>)
        ensures
            match r {
                Some(v) => items_in(self@) == Some(views(v@)),
                None => items_in(self@) is None,
            },
    {
        match self {
            Json::Arr(v) => {
                assert(self@->Arr_0 =~= views(v@));
                Some(v)
            },
            _ => None,
        }
    }

    /// The integer that the value is, if it is one of the type `i64`.
    pub fn integer(&self) -> (r: Option<i64>)
        ensures
            match r {
                Some(n) => i64_in(self@) == Some(n as int),
                None => i64_in(self@) is None,
            },
    {
        match self {
            Json::Num(Some(n)) => if i64::MIN as i128 <= *n && *n <= i64::MAX as i128 {
                Some(*n as i64)
            } else {
                None
            },
            _ => None,
        }
    }

    /// The integer that the value is, if it is one of the type `u64`.
    pub fn uint(&self) -> (r: Option<u64>)
        ensures
            match r {
                Some(n) => u64_in(self@) == Some(n as int),
                None => u64_in(self@) is None,
            },
    {
        match self {
            Json::Num(Some(n)) => if 0 <= *n && *n <= u64::MAX as i128 {
                Some(*n as u64)
            } else {
                None
            },
            _ => None,
        }
    }

    /// The truth value that the value is, if it is one.
    pub fn boolean(&self) -> (r: Option<bool>)
        ensures
            r == bool_in(self@),
    {
        match self {
            Json::Bool(b) => Some(*b),
            _ => None,
        }
    }

    /// Whether the value is `null`.
    pub fn is_null(&self) -> (r: bool)
        ensures
            r == (self@ == JsonView::Null),
    {
        match self {
            Json::Null => true,
            _ => false,
        }
    }

    /// The text of an object's entry, if it is one.
    pub fn field_text(&self, key: &str) -> (r: Option<&String>)
        ensures
            r.deep_view() == text_in(field_of(self@, key@)),
    {
        match self.field(key) {
            Some(v) => v.text(),
            None => None,
        }
    }

    /// The items of an object's entry, if it is an array.
    pub fn field_items(&self, key: &str) -> (r: Option<&Vec<Json>>)
        ensures
            match r {
                Some(v) => items_in(field_of(self@, key@)) == Some(views(v@)),
                None => items_in(field_of(self@, key@)) is None,
            },
    {
        match self.field(key) {
            Some(v) => v.items(),
            None => None,
        }
    }

    /// The integer of an object's entry, if it is one of the type `i64`.
    pub fn field_int(&self, key: &str) -> (r: Option<i64>)
        ensures
            match r {
                Some(n) => i64_in(field_of(self@, key@)) == Some(n as int),
                None => i64_in(field_of(self@, key@)) is None,
            },
    {
        match self.field(key) {
            Some(v) => v.integer(),
            None => None,
        }
    }
}

proof fn entry_is_first(entries: Seq<(Seq<char>, JsonView)>, key: Seq<char>, i: int)
    requires
        0 <= i <= entries.len(),
    ensures
        entry_at(entries, key, i) is None <==> forall|j: int|
            i <= j < entries.len() ==> (#[trigger] entries[j]).0 != key,
        entry_at(entries, key, i) matches Some(v) ==> exists|k: int|
            i <= k < entries.len() && #[trigger] entries[k] == (key, v) && forall|j: int|
                i <= j < k ==> (#[trigger] entries[j]).0 != key,
    decreases entries.len() - i,
{
    if i < entries.len() {
        entry_is_first(entries, key, i + 1);
        if entries[i].0 == key {
            assert(entries[i] == (key, entry_at(entries, key, i)->0));
        }
    }
}

/// A field of an object is its first entry under the key. Without an entry, and in a value that
/// is no object, there is no such field, and it reads as null.
pub proof fn first_entry_is_the_field(entries: Seq<(Seq<char>, JsonView)>, key: Seq<char>, k: int)
    ensures
        0 <= k < entries.len() && entries[k].0 == key && (forall|j: int|
            0 <= j < k ==> (#[trigger] entries[j]).0 != key) ==> has_field(
            JsonView::Obj(entries),
            key,
        ) && field_of(JsonView::Obj(entries), key) == entries[k].1,
        (forall|j: int| 0 <= j < entries.len() ==> (#[trigger] entries[j]).0 != key) ==> !has_field(
            JsonView::Obj(entries),
            key,
        ) && field_of(JsonView::Obj(entries), key) == JsonView::Null,
{
    entry_is_first(entries, key, 0);
}

/// What is no object has no fields.
pub proof fn others_have_no_fields(j: JsonView, key: Seq<char>)
    requires
        !(j is Obj),
    ensures
        !has_field(j, key),
        field_of(j, key) == JsonView::Null,
{
}

/// A value reads as what it is, and as nothing else; a number reads as an integer of a size
/// where it is one and fits.
pub proof fn values_read_as_what_they_are(j: JsonView, n: int, s: Seq<char>)
    ensures
        text_in(j) == Some(s) <==> j == JsonView::Str(s),
        bool_in(j) is Some <==> j is Bool,
        items_in(j) is Some <==> j is Arr,
        i64_in(j) == Some(n) <==> j == JsonView::Num(Some(n)) && -0x8000_0000_0000_0000 <= n
            <= 0x7fff_ffff_ffff_ffff,
        u64_in(j) == Some(n) <==> j == JsonView::Num(Some(n)) && 0 <= n <= 0xffff_ffff_ffff_ffff,
{
}

} // verus!
