//! Resolving an `@string/...` application label from `res/values*/strings.xml`.
use vstd::prelude::*;
use crate::archive::{read_entry, read_matches, read_spec, zip_entries, Apk, EntryRead, EntryView};
use crate::manifest::{ManifestInfo, ManifestView};
use crate::text::{
    chars_eq, chars_of, contains_seq, ends_with, occurs_at, starts_with, string_of,
};
use crate::unicode::{utf8_decode, utf8_lossy, utf8_lossy_spec};
use crate::warnings::{push_warning, texts, with_warning, APP_NAME_UNRESOLVED};
use crate::xml::{
    quick_xml_events, read_xml_events, start_tag, token_view, xml_element, AttrView, EventView,
    XmlToken,
};
use vstd::utf8::valid_utf8;

verus! {

// ---------------------------------------------------------------------------
// The key of a string reference
// ---------------------------------------------------------------------------
/// The position of the last occurrence of `p` in `s`, or -1.
pub open spec fn last_occurrence(s: Seq<char>, p: Seq<char>) -> int
    decreases s.len(),
{
    if s.len() < p.len() {
        -1
    } else if occurs_at(s, p, s.len() - p.len()) {
        s.len() - p.len()
    } else if s.len() == 0 {
        -1
    } else {
        last_occurrence(s.drop_last(), p)
    }
}

/// Where the last occurrence of a pattern lies, and that none lies after it.
pub proof fn lemma_last_occurrence_pub(s: Seq<char>, p: Seq<char>)
    ensures
        last_occurrence(s, p) >= 0 ==> occurs_at(s, p, last_occurrence(s, p)),
        forall|j: int| last_occurrence(s, p) < j ==> !occurs_at(s, p, j),
        last_occurrence(s, p) >= -1,
{
    lemma_last_occurrence(s, p);
}

/// The resource key of a label: after `@string/`, or after the last `:string/` or a leading
/// `string/` of what follows `@`.
pub open spec fn string_key_spec(label: Seq<char>) -> Option<Seq<char>> {
    if "@string/"@.is_prefix_of(label) {
        Some(label.skip(8))
    } else if label.len() > 0 && label[0] == '@' {
        let raw = label.drop_first();
        if contains_seq(raw, ":string/"@) {
            Some(raw.skip(last_occurrence(raw, ":string/"@) + 8))
        } else if "string/"@.is_prefix_of(raw) {
            Some(raw.skip(7))
        } else {
            None
        }
    } else {
        None
    }
}

proof fn lemma_last_occurrence(s: Seq<char>, p: Seq<char>)
    ensures
        last_occurrence(s, p) >= 0 ==> occurs_at(s, p, last_occurrence(s, p)),
        forall|j: int| last_occurrence(s, p) < j ==> !occurs_at(s, p, j),
        last_occurrence(s, p) >= -1,
    decreases s.len(),
{
    if s.len() < p.len() {
    } else if occurs_at(s, p, s.len() - p.len()) {
    } else if s.len() == 0 {
    } else {
        lemma_last_occurrence(s.drop_last(), p);
        let l = last_occurrence(s.drop_last(), p);
        assert(last_occurrence(s, p) == l);
        if l >= 0 {
            assert(s.drop_last().subrange(l, l + p.len()) == s.subrange(l, l + p.len()));
        }
        assert forall|j: int| last_occurrence(s, p) < j implies !occurs_at(s, p, j) by {
            if occurs_at(s, p, j) && j < s.len() - p.len() {
                assert(s.drop_last().subrange(j, j + p.len()) == s.subrange(j, j + p.len()));
                assert(occurs_at(s.drop_last(), p, j));
            }
        }
    }
}

fn skip_chars(s: &[char], k: usize) -> (r: Vec<char>)
    requires
        k <= s.len(),
    ensures
        r@ == s@.skip(k as int),
{
    let mut r: Vec<char> = Vec::new();
    let mut i = k;
    while i < s.len()
        invariant
            k <= i <= s.len(),
            r@ == s@.subrange(k as int, i as int),
        decreases s.len() - i,
    {
        r.push(s[i]);
        i += 1;
        assert(s@.subrange(k as int, i as int) == s@.subrange(k as int, i - 1).push(s@[i - 1]));
    }
    r
}

/// The position of the last occurrence of `p` in `s`.
fn last_match(s: &[char], p: &[char]) -> (r: Option<usize>)
    ensures
        match r {
            Some(k) => k == last_occurrence(s@, p@) && k + p@.len() <= s@.len(),
            None => last_occurrence(s@, p@) == -1,
        },
{
    proof {
        lemma_last_occurrence(s@, p@);
    }
    if p.len() > s.len() {
        return None;
    }
    let mut i: usize = s.len() - p.len();
    loop
        invariant
            p@.len() <= s@.len(),
            i <= s@.len() - p@.len(),
            forall|j: int| i < j ==> !occurs_at(s@, p@, j),
        decreases i,
    {
        if crate::text::matches_at(s, p, i) {
            proof {
                lemma_last_occurrence(s@, p@);
                let l = last_occurrence(s@, p@);
                if l < i {
                    assert(!occurs_at(s@, p@, i as int));
                }
                if l > i {
                    assert(!occurs_at(s@, p@, l));
                }
            }
            return Some(i);
        }
        if i == 0 {
            proof {
                lemma_last_occurrence(s@, p@);
                let l = last_occurrence(s@, p@);
                if l >= 0 {
                    assert(occurs_at(s@, p@, l));
                }
            }
            return None;
        }
        i -= 1;
    }
}

/// The resource key a string reference names.
pub fn extract_string_key(label: &[char]) -> (r: Option<Vec<char>>)
    ensures
        match string_key_spec(label@) {
            Some(k) => r matches Some(x) && x@ == k,
            None => r is None,
        },
{
    proof {
        reveal_strlit("@string/");
        reveal_strlit(":string/");
        reveal_strlit("string/");
    }
    if starts_with(label, &chars_of("@string/")) {
        return Some(skip_chars(label, 8));
    }
    if label.len() > 0 && label[0] == '@' {
        let raw = skip_chars(label, 1);
        assert(raw@ == label@.drop_first());
        let pat = chars_of(":string/");
        proof {
            lemma_last_occurrence(raw@, pat@);
        }
        match last_match(&raw, &pat) {
            Some(k) => {
                assert(contains_seq(raw@, pat@));
                return Some(skip_chars(&raw, k + 8));
            },
            None => {
                assert(!contains_seq(raw@, pat@)) by {
                    if contains_seq(raw@, pat@) {
                        let j = choose|j: int| occurs_at(raw@, pat@, j);
                    }
                }
            },
        }
        if starts_with(&raw, &chars_of("string/")) {
            return Some(skip_chars(&raw, 7));
        }
    }
    None
}

// ---------------------------------------------------------------------------
// Looking a key up in a strings.xml document
// ---------------------------------------------------------------------------
/// The bytes of `string`.
pub open spec fn string_tag() -> Seq<u8> {
    seq![0x73u8, 0x74u8, 0x72u8, 0x69u8, 0x6eu8, 0x67u8]
}

/// The bytes of `name`.
pub open spec fn name_key() -> Seq<u8> {
    seq![0x6eu8, 0x61u8, 0x6du8, 0x65u8]
}

/// How the `name` attributes of a `<string>` tag compare with the key.
pub enum NameScan {
    /// A `name` attribute could not be unescaped: the lookup gives up.
    Abort,
    /// A `name` attribute equals the key.
    Matched,
    /// No `name` attribute equals the key.
    NoMatch,
}

/// Scans the attributes that could be split, in order, for a `name` equal to the key.
pub open spec fn scan_names(attrs: Seq<AttrView>, key: Seq<char>) -> NameScan
    decreases attrs.len(),
{
    if attrs.len() == 0 {
        NameScan::NoMatch
    } else {
        match attrs[0] {
            Some((k, v)) => if k == name_key() {
                match v {
                    None => NameScan::Abort,
                    Some(val) => if val == key {
                        NameScan::Matched
                    } else {
                        scan_names(attrs.drop_first(), key)
                    },
                }
            } else {
                scan_names(attrs.drop_first(), key)
            },
            None => scan_names(attrs.drop_first(), key),
        }
    }
}

/// The text of the first text event inside a `<string>` whose name is the key.
pub open spec fn find_walk(evs: Seq<EventView>, key: Seq<char>, in_target: bool) -> Option<
    Seq<char>,
>
    decreases evs.len(),
{
    if evs.len() == 0 {
        None
    } else {
        let rest = evs.drop_first();
        match evs[0] {
            EventView::Start(el) => if el.name == string_tag() {
                match scan_names(el.attrs, key) {
                    NameScan::Abort => None,
                    NameScan::Matched => find_walk(rest, key, true),
                    NameScan::NoMatch => find_walk(rest, key, in_target),
                }
            } else {
                find_walk(rest, key, in_target)
            },
            EventView::Text(t) => if in_target {
                Some(utf8_lossy_spec(t))
            } else {
                find_walk(rest, key, in_target)
            },
            EventView::End(n) => if n == string_tag() {
                find_walk(rest, key, false)
            } else {
                find_walk(rest, key, in_target)
            },
            EventView::Error => None,
            _ => find_walk(rest, key, in_target),
        }
    }
}

/// The value of string resource `key` in a strings.xml document.
pub open spec fn find_string_spec(doc: Seq<u8>, key: Seq<char>) -> Option<Seq<char>> {
    find_walk(quick_xml_events(doc), key, false)
}

fn bytes_eq(a: &[u8], b: &[u8]) -> (r: bool)
    ensures
        r == (a@ == b@),
{
    if a.len() != b.len() {
        return false;
    }
    let mut i: usize = 0;
    while i < a.len()
        invariant
            i <= a.len(),
            a.len() == b.len(),
            forall|j: int| 0 <= j < i ==> a@[j] == b@[j],
        decreases a.len() - i,
    {
        if a[i] != b[i] {
            return false;
        }
        i += 1;
    }
    assert(a@ =~= b@);
    true
}

fn string_tag_bytes() -> (r: Vec<u8>)
    ensures
        r@ == string_tag(),
{
    let r = vec![0x73u8, 0x74u8, 0x72u8, 0x69u8, 0x6eu8, 0x67u8];
    assert(r@ =~= string_tag());
    r
}

fn name_key_bytes() -> (r: Vec<u8>)
    ensures
        r@ == name_key(),
{
    let r = vec![0x6eu8, 0x61u8, 0x6du8, 0x65u8];
    assert(r@ =~= name_key());
    r
}

fn scan_element_names(el: &crate::xml::XmlElement, key: &[char]) -> (r: NameScan)
    ensures
        r == scan_names(crate::xml::element_view(*el).attrs, key@),
{
    let ghost av = crate::xml::element_view(*el).attrs;
    let nk = name_key_bytes();
    let mut i: usize = 0;
    assert(av.skip(0) == av);
    while i < el.attrs.len()
        invariant
            i <= el.attrs.len(),
            av == crate::xml::element_view(*el).attrs,
            nk@ == name_key(),
            scan_names(av, key@) == scan_names(av.skip(i as int), key@),
        decreases el.attrs.len() - i,
    {
        assert(av.skip(i as int)[0] == av[i as int]);
        assert(av.skip(i as int).drop_first() == av.skip(i + 1));
        match &el.attrs[i] {
            Some((k, v)) => {
                if bytes_eq(k.as_slice(), nk.as_slice()) {
                    match v {
                        None => return NameScan::Abort,
                        Some(val) => {
                            if chars_eq(&chars_of(val.as_str()), key) {
                                return NameScan::Matched;
                            }
                        },
                    }
                }
            },
            None => {},
        }
        i += 1;
    }
    NameScan::NoMatch
}

/// The value of string resource `key` in a strings.xml document.
pub fn find_string_in_xml(doc: &[u8], key: &[char]) -> (r: Option<String>)
    ensures
        match find_string_spec(doc@, key@) {
            Some(v) => r matches Some(x) && x@ == v,
            None => r is None,
        },
{
    let events = read_xml_events(doc);
    let ghost evs = events@.map_values(|t: XmlToken| token_view(t));
    let tag = string_tag_bytes();
    let mut in_target = false;
    let mut i: usize = 0;
    assert(evs.skip(0) == evs);
    while i < events.len()
        invariant
            i <= events.len(),
            tag@ == string_tag(),
            evs == events@.map_values(|t: XmlToken| token_view(t)),
            evs == quick_xml_events(doc@),
            find_walk(evs, key@, false) == find_walk(evs.skip(i as int), key@, in_target),
        decreases events.len() - i,
    {
        let ghost rest = evs.skip(i as int);
        assert(rest[0] == token_view(events@[i as int]));
        assert(rest.drop_first() == evs.skip(i + 1));
        match &events[i] {
            XmlToken::Start(e) => {
                let el = xml_element(e);
                if bytes_eq(el.name.as_slice(), tag.as_slice()) {
                    match scan_element_names(&el, key) {
                        NameScan::Abort => return None,
                        NameScan::Matched => {
                            in_target = true;
                        },
                        NameScan::NoMatch => {},
                    }
                }
            },
            XmlToken::Text(t) => {
                if in_target {
                    return Some(utf8_lossy(t.as_slice()));
                }
            },
            XmlToken::End(n) => {
                if bytes_eq(n.as_slice(), tag.as_slice()) {
                    in_target = false;
                }
            },
            XmlToken::Error => return None,
            _ => {},
        }
        i += 1;
    }
    None
}

// ---------------------------------------------------------------------------
// Resolving the label against the archive
// ---------------------------------------------------------------------------
/// A strings.xml other than the default one.
pub open spec fn is_extra_strings_file(name: Seq<char>) -> bool {
    "res/values"@.is_prefix_of(name) && "/strings.xml"@.is_suffix_of(name) && name
        != "res/values/strings.xml"@
}

/// The strings.xml files to search, default first, then the others in archive order.
pub open spec fn strings_candidates(names: Seq<Seq<char>>) -> Seq<Seq<char>> {
    seq!["res/values/strings.xml"@] + names.filter(|n: Seq<char>| is_extra_strings_file(n))
}

/// The value of `key` in the first candidate file that reads as UTF-8 and defines it.
pub open spec fn resource_lookup(es: Seq<EntryView>, cands: Seq<Seq<char>>, key: Seq<char>) -> Option<
    Seq<char>,
>
    decreases cands.len(),
{
    if cands.len() == 0 {
        None
    } else {
        let found = match read_spec(es, cands[0]) {
            Some(Some(b)) => if valid_utf8(b) {
                find_string_spec(b, key)
            } else {
                None
            },
            _ => None,
        };
        match found {
            Some(v) => Some(v),
            None => resource_lookup(es, cands.drop_first(), key),
        }
    }
}

/// The value of string resource `key` in the archive's strings.xml files.
pub fn read_string_resource(a: &mut Apk, names: &Vec<String>, key: &[char]) -> (r: Option<String>)
    ensures
        zip_entries(*final(a)) == zip_entries(*old(a)),
        match resource_lookup(
            zip_entries(*old(a)),
            strings_candidates(names@.map_values(|s: String| s@)),
            key@,
        ) {
            Some(v) => r matches Some(x) && x@ == v,
            None => r is None,
        },
{
    let ghost es = zip_entries(*a);
    let ghost nv = names@.map_values(|s: String| s@);
    let mut cands: Vec<String> = Vec::new();
    cands.push(crate::text::string_from("res/values/strings.xml"));
    let default_name = chars_of("res/values/strings.xml");
    let prefix = chars_of("res/values");
    let suffix = chars_of("/strings.xml");
    let mut i: usize = 0;
    assert(nv.take(0).filter(|n: Seq<char>| is_extra_strings_file(n)) =~= Seq::<Seq<char>>::empty());
    assert(cands@.map_values(|s: String| s@) =~= seq!["res/values/strings.xml"@]);
    while i < names.len()
        invariant
            i <= names.len(),
            nv == names@.map_values(|s: String| s@),
            default_name@ == "res/values/strings.xml"@,
            prefix@ == "res/values"@,
            suffix@ == "/strings.xml"@,
            cands@.map_values(|s: String| s@) == seq!["res/values/strings.xml"@] + nv.take(
                i as int,
            ).filter(|n: Seq<char>| is_extra_strings_file(n)),
        decreases names.len() - i,
    {
        let n = chars_of(names[i].as_str());
        let ghost before = cands@.map_values(|s: String| s@);
        proof {
            assert(nv.take(i + 1).drop_last() == nv.take(i as int));
            assert(nv.take(i + 1).last() == n@);
            nv.take(i as int).lemma_filter_push(n@, |n: Seq<char>| is_extra_strings_file(n));
            assert(nv.take(i as int).push(n@) == nv.take(i + 1));
        }
        if starts_with(&n, &prefix) && ends_with(&n, &suffix) && !chars_eq(&n, &default_name) {
            cands.push(string_of(&n));
            assert(cands@.map_values(|s: String| s@) =~= before.push(n@));
        }
        i += 1;
    }
    assert(nv.take(names.len() as int) == nv);
    let ghost cv = cands@.map_values(|s: String| s@);
    let mut k: usize = 0;
    assert(cv.skip(0) == cv);
    while k < cands.len()
        invariant
            k <= cands.len(),
            cv == cands@.map_values(|s: String| s@),
            zip_entries(*a) == es,
            es == zip_entries(*old(a)),
            cv == strings_candidates(names@.map_values(|s: String| s@)),
            resource_lookup(es, cv, key@) == resource_lookup(es, cv.skip(k as int), key@),
        decreases cands.len() - k,
    {
        let ghost rest = cv.skip(k as int);
        assert(rest[0] == cands@[k as int]@);
        assert(rest.drop_first() == cv.skip(k + 1));
        match read_entry(a, cands[k].as_str()) {
            EntryRead::Bytes(b) => {
                if utf8_decode(b.as_slice()).is_some() {
                    match find_string_in_xml(b.as_slice(), key) {
                        Some(v) => return Some(v),
                        None => {},
                    }
                }
            },
            _ => {},
        }
        k += 1;
    }
    None
}

/// The manifest and warnings after resolving the application label.
pub open spec fn resolved_label(label: Seq<char>, es: Seq<EntryView>, names: Seq<Seq<char>>) -> Option<
    Seq<char>,
> {
    match string_key_spec(label) {
        Some(key) => resource_lookup(es, strings_candidates(names), key),
        None => None,
    }
}

/// A label that refers to a resource: it resolves, or is dropped with a warning.
pub open spec fn resolve_app_name_spec(
    m: ManifestView,
    es: Seq<EntryView>,
    names: Seq<Seq<char>>,
    ws: Seq<Seq<char>>,
) -> (ManifestView, Seq<Seq<char>>) {
    match m.app_name {
        Some(label) => if label.len() > 0 && label[0] == '@' {
            match resolved_label(label, es, names) {
                Some(v) => (ManifestView { app_name: Some(v), ..m }, ws),
                None => (ManifestView { app_name: None, ..m }, with_warning(ws, APP_NAME_UNRESOLVED@)),
            }
        } else {
            (m, ws)
        },
        None => (m, ws),
    }
}

/// Resolves an application label that refers to a string resource.
pub fn resolve_app_name(
    manifest: &mut ManifestInfo,
    a: &mut Apk,
    names: &Vec<String>,
    warnings: &mut Vec<String>,
)
    ensures
        zip_entries(*final(a)) == zip_entries(*old(a)),
        (final(manifest)@, texts(final(warnings)@)) == resolve_app_name_spec(
            old(manifest)@,
            zip_entries(*old(a)),
            names@.map_values(|s: String| s@),
            texts(old(warnings)@),
        ),
{
    let label = match &manifest.app_name {
        Some(l) => chars_of(l.as_str()),
        None => return ,
    };
    if !(label.len() > 0 && label[0] == '@') {
        return ;
    }
    if let Some(key) = extract_string_key(&label) {
        if let Some(v) = read_string_resource(a, names, &key) {
            manifest.app_name = Some(v);
            return ;
        }
    }
    manifest.app_name = None;
    push_warning(warnings, APP_NAME_UNRESOLVED);
}

} // verus!
