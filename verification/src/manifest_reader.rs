//! Reading `AndroidManifest.xml` in either of its two forms: text XML (starting with `<`)
//! or binary AXML.
use vstd::prelude::*;
use crate::axml::{binary_manifest_spec, is_partial, parse_binary_chunks};
use crate::error::BackendError;
use crate::manifest::{
    apply_tag, apply_tag_spec, attrs_view, empty_manifest, new_manifest, strip_namespace,
    strip_namespace_spec, Attrs, AttrsView, ManifestInfo, ManifestView,
};
use crate::text::chars_of;
use crate::unicode::{utf8_lossy, utf8_lossy_spec};
use crate::warnings::{push_warning, texts, with_warning, MANIFEST_BINARY_PARTIAL};
use crate::xml::{
    element_view, quick_xml_events, read_xml_events, token_view, xml_element, ElementView,
    EventView, XmlToken,
};

verus! {

/// Every attribute of the element could be split and unescaped.
pub open spec fn attrs_readable(el: ElementView) -> bool {
    forall|i: int|
        0 <= i < el.attrs.len() ==> (#[trigger] el.attrs[i] matches Some((_, v)) && v is Some)
}

/// The attributes of a text element: keys decoded and stripped of their namespace.
pub open spec fn text_attrs(el: ElementView) -> AttrsView {
    Seq::new(
        el.attrs.len(),
        |i: int|
            (
                strip_namespace_spec(utf8_lossy_spec(el.attrs[i].unwrap().0)),
                el.attrs[i].unwrap().1.unwrap(),
            ),
    )
}

/// The manifest after the remaining events, or `None` on an XML error or an unreadable
/// attribute.
pub open spec fn text_walk(events: Seq<EventView>, m: ManifestView) -> Option<ManifestView>
    decreases events.len(),
{
    if events.len() == 0 {
        Some(m)
    } else {
        match events[0] {
            EventView::Start(el) => if attrs_readable(el) {
                text_walk(
                    events.drop_first(),
                    apply_tag_spec(utf8_lossy_spec(el.name), text_attrs(el), m),
                )
            } else {
                None
            },
            EventView::Empty(el) => if attrs_readable(el) {
                text_walk(
                    events.drop_first(),
                    apply_tag_spec(utf8_lossy_spec(el.name), text_attrs(el), m),
                )
            } else {
                None
            },
            EventView::Error => None,
            _ => text_walk(events.drop_first(), m),
        }
    }
}

/// What a text manifest declares, or `None` when it cannot be read.
pub open spec fn text_manifest_spec(doc: Seq<u8>) -> Option<ManifestView> {
    text_walk(quick_xml_events(doc), empty_manifest())
}

/// Whether the manifest is in text form.
pub open spec fn is_text_form(bytes: Seq<u8>) -> bool {
    bytes.len() > 0 && bytes[0] == 0x3c
}

/// What a manifest declares, in whichever form it is written.
pub open spec fn manifest_spec(bytes: Seq<u8>) -> Option<ManifestView> {
    if is_text_form(bytes) {
        text_manifest_spec(bytes)
    } else {
        binary_manifest_spec(bytes)
    }
}

/// The warnings after reading the manifest: a binary manifest without the package name or
/// an SDK level adds `MANIFEST_BINARY_PARTIAL`.
pub open spec fn manifest_warnings(bytes: Seq<u8>, ws: Seq<Seq<char>>) -> Seq<Seq<char>> {
    match manifest_spec(bytes) {
        Some(m) => if !is_text_form(bytes) && is_partial(m) {
            with_warning(ws, MANIFEST_BINARY_PARTIAL@)
        } else {
            ws
        },
        None => ws,
    }
}

/// The attributes of a text element in manifest form, or `None` when one is unreadable.
fn element_attrs(el: &crate::xml::XmlElement) -> (r: Option<Attrs>)
    ensures
        attrs_readable(element_view(*el)) ==> (r matches Some(a) && attrs_view(a@) == text_attrs(
            element_view(*el),
        )),
        !attrs_readable(element_view(*el)) ==> r is None,
{
    let ghost ev = element_view(*el);
    let mut out: Attrs = Vec::new();
    let mut i: usize = 0;
    while i < el.attrs.len()
        invariant
            i <= el.attrs.len(),
            ev == element_view(*el),
            out@.len() == i,
            forall|j: int| 0 <= j < i ==> (#[trigger] ev.attrs[j] matches Some((_, v)) && v is Some),
            forall|j: int| 0 <= j < i ==> #[trigger] attrs_view(out@)[j] == text_attrs(ev)[j],
        decreases el.attrs.len() - i,
    {
        match &el.attrs[i] {
            Some((k, Some(v))) => {
                let key = strip_namespace(&chars_of(utf8_lossy(k.as_slice()).as_str()));
                let val = chars_of(v.as_str());
                let ghost before = attrs_view(out@);
                out.push((key, val));
                assert(attrs_view(out@) =~= before.push((key@, val@)));
                assert forall|j: int| 0 <= j < i + 1 implies #[trigger] attrs_view(out@)[j]
                    == text_attrs(ev)[j] by {
                    if j < i {
                        assert(attrs_view(out@)[j] == before[j]);
                    }
                }
                i += 1;
            },
            _ => {
                assert(!(ev.attrs[i as int] matches Some((_, v)) && v is Some));
                return None;
            },
        }
    }
    assert(attrs_view(out@) =~= text_attrs(ev));
    Some(out)
}

/// Reads a manifest in text XML form.
pub fn parse_text_manifest(bytes: &[u8]) -> (r: Result<ManifestInfo, BackendError>)
    ensures
        match text_manifest_spec(bytes@) {
            Some(m) => r matches Ok(info) && info@ == m,
            None => r == Err::<ManifestInfo, BackendError>(BackendError::ManifestParseFailed),
        },
{
    let events = read_xml_events(bytes);
    let ghost evs = events@.map_values(|t: XmlToken| token_view(t));
    let mut info = new_manifest();
    let mut i: usize = 0;
    assert(evs.skip(0) == evs);
    while i < events.len()
        invariant
            i <= events.len(),
            evs == events@.map_values(|t: XmlToken| token_view(t)),
            evs == quick_xml_events(bytes@),
            text_walk(evs, empty_manifest()) == text_walk(evs.skip(i as int), info@),
        decreases events.len() - i,
    {
        let ghost rest = evs.skip(i as int);
        assert(rest[0] == token_view(events@[i as int]));
        assert(rest.drop_first() == evs.skip(i + 1));
        match &events[i] {
            XmlToken::Start(e) => {
                let el = xml_element(e);
                match element_attrs(&el) {
                    Some(attrs) => {
                        let tag = chars_of(utf8_lossy(el.name.as_slice()).as_str());
                        apply_tag(&tag, &attrs, &mut info);
                    },
                    None => return Err(BackendError::ManifestParseFailed),
                }
            },
            XmlToken::Empty(e) => {
                let el = xml_element(e);
                match element_attrs(&el) {
                    Some(attrs) => {
                        let tag = chars_of(utf8_lossy(el.name.as_slice()).as_str());
                        apply_tag(&tag, &attrs, &mut info);
                    },
                    None => return Err(BackendError::ManifestParseFailed),
                }
            },
            XmlToken::Error => return Err(BackendError::ManifestParseFailed),
            _ => {},
        }
        i += 1;
    }
    Ok(info)
}

/// Reads a manifest in binary form, warning when it lacks the package name or an SDK level.
pub fn parse_binary_manifest(bytes: &[u8], warnings: &mut Vec<String>) -> (r: Result<
    ManifestInfo,
    BackendError,
>)
    ensures
        match binary_manifest_spec(bytes@) {
            Some(m) => r matches Ok(info) && info@ == m && texts(final(warnings)@) == (if is_partial(
                m,
            ) {
                with_warning(texts(old(warnings)@), MANIFEST_BINARY_PARTIAL@)
            } else {
                texts(old(warnings)@)
            }),
            None => r == Err::<ManifestInfo, BackendError>(BackendError::ManifestParseFailed)
                && final(warnings)@ == old(warnings)@,
        },
{
    let info = match parse_binary_chunks(bytes) {
        Ok(info) => info,
        Err(e) => return Err(e),
    };
    let is_partial = info.package_name.is_none() || info.min_sdk_version.is_none()
        || info.target_sdk_version.is_none();
    if is_partial {
        push_warning(warnings, MANIFEST_BINARY_PARTIAL);
    }
    Ok(info)
}

/// Reads a manifest: text XML when it starts with `<`, binary AXML otherwise.
pub fn parse_manifest(bytes: &[u8], warnings: &mut Vec<String>) -> (r: Result<
    ManifestInfo,
    BackendError,
>)
    ensures
        match manifest_spec(bytes@) {
            Some(m) => r matches Ok(info) && info@ == m,
            None => r == Err::<ManifestInfo, BackendError>(BackendError::ManifestParseFailed),
        },
        texts(final(warnings)@) == manifest_warnings(bytes@, texts(old(warnings)@)),
{
    if bytes.len() > 0 && bytes[0] == 0x3c {
        return parse_text_manifest(bytes);
    }
    parse_binary_manifest(bytes, warnings)
}

} // verus!
