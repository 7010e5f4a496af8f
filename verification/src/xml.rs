//! XML events as read by `quick_xml`, in plain values.
use vstd::prelude::*;
use quick_xml::events::attributes::{AttrError, Attribute, Attributes};
use quick_xml::events::{BytesStart, Event};
use quick_xml::Reader;
use std::io::Cursor;

verus! {

/// One attribute of a start tag: `None` when `quick_xml` could not split it,
/// otherwise its raw key and its unescaped value (`None` when that failed).
pub type XmlAttr = Option<(Vec<u8>, Option<String>)>;

/// A start or empty tag: its raw name and attributes in source order.
pub struct XmlElement {
    pub name: Vec<u8>,
    pub attrs: Vec<XmlAttr>,
}

/// One event of an XML document as read by `quick_xml`; start tags keep the reader's value.
pub enum XmlToken {
    Start(BytesStart<'static>),
    Empty(BytesStart<'static>),
    Text(Vec<u8>),
    End(Vec<u8>),
    Other,
    Eof,
    Error,
}

/// An attribute as plain values.
pub type AttrView = Option<(Seq<u8>, Option<Seq<char>>)>;

/// An element as plain values.
pub struct ElementView {
    pub name: Seq<u8>,
    pub attrs: Seq<AttrView>,
}

/// An event as plain values.
pub enum EventView {
    Start(ElementView),
    Empty(ElementView),
    Text(Seq<u8>),
    End(Seq<u8>),
    Other,
    Eof,
    Error,
}

pub open spec fn attr_view(a: XmlAttr) -> AttrView {
    match a {
        None => None,
        Some((k, v)) => Some(
            (
                k@,
                match v {
                    None => None,
                    Some(s) => Some(s@),
                },
            ),
        ),
    }
}

pub open spec fn element_view(e: XmlElement) -> ElementView {
    ElementView { name: e.name@, attrs: e.attrs@.map_values(|a: XmlAttr| attr_view(a)) }
}

/// What a start tag read by `quick_xml` holds: its raw name and its attributes in source
/// order, each split and unescaped as the crate does it.
pub uninterp spec fn start_tag(e: BytesStart<'static>) -> ElementView;

pub open spec fn token_view(t: XmlToken) -> EventView {
    match t {
        XmlToken::Start(e) => EventView::Start(start_tag(e)),
        XmlToken::Empty(e) => EventView::Empty(start_tag(e)),
        XmlToken::Text(b) => EventView::Text(b@),
        XmlToken::End(n) => EventView::End(n@),
        XmlToken::Other => EventView::Other,
        XmlToken::Eof => EventView::Eof,
        XmlToken::Error => EventView::Error,
    }
}

/// The event ends the stream: the end of the document, or an error.
pub open spec fn is_final_event(e: EventView) -> bool {
    e is Eof || e is Error
}

/// A stream of events that ends with its only final event.
pub open spec fn ends_once(evs: Seq<EventView>) -> bool {
    &&& evs.len() > 0
    &&& is_final_event(evs.last())
    &&& forall|i: int| 0 <= i < evs.len() - 1 ==> !is_final_event(#[trigger] evs[i])
}

/// The events that `quick_xml` reads from a document with text trimming on, up to and
/// including the end of the document or the first error.
pub uninterp spec fn quick_xml_events(doc: Seq<u8>) -> Seq<EventView>;

/// A reader over a document held in memory.
pub type XmlReader = Reader<Cursor<Vec<u8>>>;

#[verifier::external_type_specification]
#[verifier::external_body]
#[verifier::reject_recursive_types(R)]
pub struct ExReader<R>(Reader<R>);

#[verifier::external_type_specification]
#[verifier::external_body]
pub struct ExBytesStart<'a>(BytesStart<'a>);

#[verifier::external_type_specification]
#[verifier::external_body]
pub struct ExAttributes<'a>(Attributes<'a>);

#[verifier::external_type_specification]
#[verifier::external_body]
pub struct ExAttribute<'a>(Attribute<'a>);

#[verifier::external_type_specification]
#[verifier::external_body]
pub struct ExAttrError(AttrError);

/// The events a reader has yet to give.
pub uninterp spec fn unread_events(r: XmlReader) -> Seq<EventView>;

/// The attributes an attribute iterator has yet to give, split and unescaped.
pub uninterp spec fn unread_attrs(it: Attributes<'_>) -> Seq<AttrView>;

/// Starts reading a document (`Reader::from_reader` with text trimming on). Claims that
/// the reader will give the document's events, which end with the end of the document or
/// the first error and contain no earlier end.
#[verifier::external_body]
pub(crate) fn xml_reader(doc: &[u8]) -> (r: XmlReader)
    ensures
        unread_events(r) == quick_xml_events(doc@),
        ends_once(unread_events(r)),
{
    let mut reader = Reader::from_reader(Cursor::new(doc.to_vec()));
    reader.config_mut().trim_text(true);
    reader
}

/// The next event (`Reader::read_event_into`), as an owned token.
#[verifier::external_body]
pub(crate) fn next_xml_event(r: &mut XmlReader) -> (t: XmlToken)
    requires
        unread_events(*old(r)).len() > 0,
    ensures
        token_view(t) == unread_events(*old(r))[0],
        unread_events(*final(r)) == unread_events(*old(r)).drop_first(),
{
    let mut buf = Vec::new();
    match r.read_event_into(&mut buf) {
        Ok(Event::Start(e)) => XmlToken::Start(e.into_owned()),
        Ok(Event::Empty(e)) => XmlToken::Empty(e.into_owned()),
        Ok(Event::Text(t)) => XmlToken::Text(t.to_vec()),
        Ok(Event::End(e)) => XmlToken::End(e.name().as_ref().to_vec()),
        Ok(Event::Eof) => XmlToken::Eof,
        Ok(_) => XmlToken::Other,
        Err(_) => XmlToken::Error,
    }
}

/// Reads all events of a document, up to and including the end or the first error.
pub fn read_xml_events(doc: &[u8]) -> (events: Vec<XmlToken>)
    ensures
        events@.map_values(|t: XmlToken| token_view(t)) == quick_xml_events(doc@),
{
    let mut reader = xml_reader(doc);
    let ghost all = unread_events(reader);
    let mut events: Vec<XmlToken> = Vec::new();
    loop
        invariant_except_break
            all == quick_xml_events(doc@),
            ends_once(all),
            events@.len() < all.len(),
            events@.map_values(|t: XmlToken| token_view(t)) + unread_events(reader) == all,
        ensures
            events@.map_values(|t: XmlToken| token_view(t)) == all,
            all == quick_xml_events(doc@),
        decreases unread_events(reader).len(),
    {
        let ghost seen = events@.map_values(|t: XmlToken| token_view(t));
        let ghost rest = unread_events(reader);
        assert(rest.len() > 0) by {
            assert(seen.len() == events@.len());
        }
        assert(all[seen.len() as int] == rest[0]);
        let t = next_xml_event(&mut reader);
        let last = match &t {
            XmlToken::Eof => true,
            XmlToken::Error => true,
            _ => false,
        };
        events.push(t);
        assert(events@.map_values(|t: XmlToken| token_view(t)) =~= seen.push(rest[0]));
        assert(seen.push(rest[0]) + rest.drop_first() =~= all);
        if last {
            assert(seen.len() == all.len() - 1) by {
                if seen.len() < all.len() - 1 {
                    assert(!is_final_event(all[seen.len() as int]));
                }
            }
            assert(rest.drop_first().len() == 0);
            assert(events@.map_values(|t: XmlToken| token_view(t)) =~= all);
            break;
        }
        assert(events@.len() < all.len()) by {
            if events@.len() == all.len() {
                assert(is_final_event(all.last()));
                assert(all.last() == rest[0]);
            }
        }
    }
    events
}

/// The raw name of a start tag (`BytesStart::name`).
#[verifier::external_body]
pub(crate) fn tag_name(e: &BytesStart<'static>) -> (n: Vec<u8>)
    ensures
        n@ == start_tag(*e).name,
{
    e.name().as_ref().to_vec()
}

/// The attributes of a start tag (`BytesStart::attributes`).
#[verifier::external_body]
pub(crate) fn tag_attributes<'a>(e: &'a BytesStart<'static>) -> (it: Attributes<'a>)
    ensures
        unread_attrs(it) == start_tag(*e).attrs,
{
    e.attributes()
}

/// The next attribute (`Attributes::next`), its raw key and its value unescaped with
/// `Attribute::unescape_value`; `Some(None)` for an attribute the crate could not split.
#[verifier::external_body]
pub(crate) fn next_attribute(it: &mut Attributes<'_>) -> (a: Option<XmlAttr>)
    ensures
        match a {
            None => unread_attrs(*old(it)).len() == 0 && unread_attrs(*final(it)) == unread_attrs(
                *old(it),
            ),
            Some(x) => unread_attrs(*old(it)).len() > 0 && attr_view(x) == unread_attrs(
                *old(it),
            )[0] && unread_attrs(*final(it)) == unread_attrs(*old(it)).drop_first(),
        },
{
    match it.next() {
        None => None,
        Some(Err(_)) => Some(None),
        Some(Ok(a)) => Some(Some((a.key.as_ref().to_vec(), a.unescape_value().ok().map(|v| v.into_owned())))),
    }
}

/// The name and attributes of a start tag.
pub fn xml_element(e: &BytesStart<'static>) -> (el: XmlElement)
    ensures
        element_view(el) == start_tag(*e),
{
    let name = tag_name(e);
    let mut it = tag_attributes(e);
    let ghost all = unread_attrs(it);
    let mut attrs: Vec<XmlAttr> = Vec::new();
    loop
        invariant_except_break
            attrs@.map_values(|a: XmlAttr| attr_view(a)) + unread_attrs(it) == all,
        ensures
            attrs@.map_values(|a: XmlAttr| attr_view(a)) == all,
        decreases unread_attrs(it).len(),
    {
        let ghost seen = attrs@.map_values(|a: XmlAttr| attr_view(a));
        let ghost rest = unread_attrs(it);
        match next_attribute(&mut it) {
            None => {
                assert(seen =~= all);
                break;
            },
            Some(a) => {
                attrs.push(a);
                assert(attrs@.map_values(|a: XmlAttr| attr_view(a)) =~= seen.push(rest[0]));
                assert(seen.push(rest[0]) + rest.drop_first() =~= all);
            },
        }
    }
    let el = XmlElement { name, attrs };
    assert(element_view(el).attrs =~= start_tag(*e).attrs);
    el
}

} // verus!
