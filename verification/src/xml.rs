//! XML documents written through quick-xml. A document is the sequence of the events that
//! were handed to the writer; each function here says which events it adds.

use quick_xml::events::{BytesEnd, BytesStart, BytesText, Event};
use quick_xml::Writer;
use vstd::prelude::*;

use crate::text::{byte_len, byte_size, dec, usize_text};

verus! {

/// quick-xml's event writer.
#[verifier::external_type_specification]
#[verifier::external_body]
#[verifier::reject_recursive_types(W)]
pub struct ExWriter<W>(quick_xml::Writer<W>);

/// A writer that collects the document in memory, indented by two blanks per open tag.
pub struct XmlWriter {
    inner: Writer<Vec<u8>>,
}

/// What one event says: its tag and its attributes, unescaped, or the text between tags.
pub enum Node {
    Start(Seq<char>, Seq<(Seq<char>, Seq<char>)>),
    Empty(Seq<char>, Seq<(Seq<char>, Seq<char>)>),
    End(Seq<char>),
    Text(Seq<char>),
}

/// The events that a writer was handed so far, oldest first.
pub uninterp spec fn xml_events(w: XmlWriter) -> Seq<Node>;

/// The document that quick-xml makes of a sequence of events where it starts with an empty
/// buffer, indented by two blanks per open tag, with attribute values and texts escaped.
pub uninterp spec fn xml_text(events: Seq<Node>) -> Seq<char>;

/// No attributes.
pub open spec fn no_attrs() -> Seq<(Seq<char>, Seq<char>)> {
    Seq::empty()
}

/// The attributes of a tag, in the order in which they were given.
pub struct Attrs {
    items: Vec<(String, String)>,
}

impl Attrs {
    /// The names and values, in order.
    pub closed spec fn view(&self) -> Seq<(Seq<char>, Seq<char>)> {
        Seq::new(self.items@.len(), |i: int| (self.items@[i].0@, self.items@[i].1@))
    }

    /// No attributes.
    pub fn new() -> (r: Attrs)
        ensures
            r@ == no_attrs(),
    {
        let r = Attrs { items: Vec::new() };
        assert(r@ =~= no_attrs());
        r
    }

    /// These attributes and one more behind them.
    pub fn with(self, key: &str, value: &str) -> (r: Attrs)
        ensures
            r@ == self@.push((key@, value@)),
    {
        let mut r = self;
        r.items.push((key.to_owned(), value.to_owned()));
        assert(r@ =~= self@.push((key@, value@)));
        r
    }
}

/// One event as it is handed to the writer.
pub enum XmlEvent<'a> {
    Start(&'a str, &'a Attrs),
    Empty(&'a str, &'a Attrs),
    End(&'a str),
    Text(&'a str),
}

impl<'a> XmlEvent<'a> {
    /// What the event says.
    pub open spec fn node(&self) -> Node {
        match self {
            XmlEvent::Start(tag, attrs) => Node::Start(tag@, attrs@),
            XmlEvent::Empty(tag, attrs) => Node::Empty(tag@, attrs@),
            XmlEvent::End(tag) => Node::End(tag@),
            XmlEvent::Text(text) => Node::Text(text@),
        }
    }
}

/// `quick_xml::Writer::new_with_indent` over an empty buffer, indenting by two blanks: a
/// writer that was handed no event.
#[verifier::external_body]
pub fn new_writer() -> (w: XmlWriter)
    ensures
        xml_events(w) == Seq::<Node>::empty(),
{
    XmlWriter { inner: Writer::new_with_indent(Vec::new(), b' ', 2) }
}

/// `quick_xml::Writer::write_event`: the writer was handed one event more. Writing to a
/// buffer in memory does not fail.
#[verifier::external_body]
fn write_event(w: &mut XmlWriter, event: &XmlEvent<'_>)
    ensures
        xml_events(*final(w)) == xml_events(*old(w)).push(event.node()),
{
    let e = match event {
        XmlEvent::Start(tag, a) => Event::Start(
            BytesStart::new(*tag).with_attributes(a.items.iter().map(|p| (p.0.as_str(), p.1.as_str()))),
        ),
        XmlEvent::Empty(tag, a) => Event::Empty(
            BytesStart::new(*tag).with_attributes(a.items.iter().map(|p| (p.0.as_str(), p.1.as_str()))),
        ),
        XmlEvent::End(tag) => Event::End(BytesEnd::new(*tag)),
        XmlEvent::Text(text) => Event::Text(BytesText::new(text)),
    };
    w.inner.write_event(e).expect("a buffer in memory takes every write");
}

/// `quick_xml::Writer::into_inner`, read as UTF-8: the document that the writer made of the
/// events it was handed. Every writer comes from `new_writer` and starts with an empty buffer,
/// and quick-xml writes UTF-8 only.
#[verifier::external_body]
pub fn finish(w: XmlWriter) -> (r: String)
    ensures
        r@ == xml_text(xml_events(w)),
{
    String::from_utf8(w.inner.into_inner()).expect("xml output is always valid utf-8")
}

/// How many tokens a text takes, estimated at four bytes each.
pub open spec fn token_text(text: Seq<char>) -> Seq<char> {
    dec(byte_size(text) / 4)
}

/// How many tokens a text takes, estimated at four bytes each.
pub fn count_tokens(text: &str) -> (r: String)
    ensures
        r@ == token_text(text@),
{
    usize_text(byte_len(text) / 4)
}

/// How many tokens a document takes that is not written yet: that of its events as long as its
/// own count is left empty.
pub open spec fn tokens_of(uncounted: Seq<Node>) -> Seq<char> {
    token_text(xml_text(uncounted))
}

/// `events` and an empty tag behind them.
pub open spec fn with_empty(
    events: Seq<Node>,
    tag: Seq<char>,
    attrs: Seq<(Seq<char>, Seq<char>)>,
) -> Seq<Node> {
    events.push(Node::Empty(tag, attrs))
}

/// `events` and an opening tag behind them.
pub open spec fn with_open(
    events: Seq<Node>,
    tag: Seq<char>,
    attrs: Seq<(Seq<char>, Seq<char>)>,
) -> Seq<Node> {
    events.push(Node::Start(tag, attrs))
}

/// `events` and a closing tag behind them.
pub open spec fn with_close(events: Seq<Node>, tag: Seq<char>) -> Seq<Node> {
    events.push(Node::End(tag))
}

/// `events` and a tag around a text behind them.
pub open spec fn with_text(events: Seq<Node>, tag: Seq<char>, content: Seq<char>) -> Seq<Node> {
    events.push(Node::Start(tag, no_attrs())).push(Node::Text(content)).push(Node::End(tag))
}

/// Write a self-closing tag with attributes.
pub fn empty(w: &mut XmlWriter, tag: &str, attrs: &Attrs)
    ensures
        xml_events(*final(w)) == with_empty(xml_events(*old(w)), tag@, attrs@),
{
    write_event(w, &XmlEvent::Empty(tag, attrs));
}

/// Open a tag without attributes.
pub fn open(w: &mut XmlWriter, tag: &str)
    ensures
        xml_events(*final(w)) == with_open(xml_events(*old(w)), tag@, no_attrs()),
{
    let none = Attrs::new();
    write_event(w, &XmlEvent::Start(tag, &none));
}

/// Open a tag with attributes.
pub fn open_attrs(w: &mut XmlWriter, tag: &str, attrs: &Attrs)
    ensures
        xml_events(*final(w)) == with_open(xml_events(*old(w)), tag@, attrs@),
{
    write_event(w, &XmlEvent::Start(tag, attrs));
}

/// Close a tag.
pub fn close(w: &mut XmlWriter, tag: &str)
    ensures
        xml_events(*final(w)) == with_close(xml_events(*old(w)), tag@),
{
    write_event(w, &XmlEvent::End(tag));
}

/// Write a tag around a text.
pub fn text_tag(w: &mut XmlWriter, tag: &str, content: &str)
    ensures
        xml_events(*final(w)) == with_text(xml_events(*old(w)), tag@, content@),
{
    let none = Attrs::new();
    write_event(w, &XmlEvent::Start(tag, &none));
    write_event(w, &XmlEvent::Text(content));
    write_event(w, &XmlEvent::End(tag));
}

/// The events of `a` stand at the start of `b`.
pub open spec fn goes_on_from(a: Seq<Node>, b: Seq<Node>) -> bool {
    a.len() <= b.len() && forall|k: int| 0 <= k < a.len() ==> #[trigger] b[k] == a[k]
}

/// A tag with at least these attributes stands in the document.
pub open spec fn has_tag(
    ev: Seq<Node>,
    tag: Seq<char>,
    attrs: Seq<(Seq<char>, Seq<char>)>,
) -> bool {
    exists|k: int|
        0 <= k < ev.len() && match #[trigger] ev[k] {
            Node::Start(t, a) => t == tag && holds_all(a, attrs),
            Node::Empty(t, a) => t == tag && holds_all(a, attrs),
            _ => false,
        }
}

/// All of these attributes are among those.
pub open spec fn holds_all(
    a: Seq<(Seq<char>, Seq<char>)>,
    attrs: Seq<(Seq<char>, Seq<char>)>,
) -> bool {
    forall|i: int| 0 <= i < attrs.len() ==> a.contains(#[trigger] attrs[i])
}

/// Attributes hold themselves.
pub proof fn all_are_held(a: Seq<(Seq<char>, Seq<char>)>)
    ensures
        holds_all(a, a),
{
}

/// A tag that stands in a document stands in what goes on from it.
pub proof fn tags_stay(a: Seq<Node>, b: Seq<Node>, tag: Seq<char>, attrs: Seq<(Seq<char>, Seq<char>)>)
    requires
        goes_on_from(a, b),
        has_tag(a, tag, attrs),
    ensures
        has_tag(b, tag, attrs),
{
    let k = choose|k: int|
        0 <= k < a.len() && match #[trigger] a[k] {
            Node::Start(t, x) => t == tag && holds_all(x, attrs),
            Node::Empty(t, x) => t == tag && holds_all(x, attrs),
            _ => false,
        };
    assert(b[k] == a[k]);
}

} // verus!
