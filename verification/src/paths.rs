//! Path and file URL text. Paths are read as std reads them on the platform named by a
//! `windows` flag: `/` separates components everywhere; on Windows `\` does too, and a
//! drive prefix such as `C:` is not a component. Other Windows prefixes (`\\server\share`,
//! `\\?\`) are read as ordinary components.
use vstd::prelude::*;
use crate::text::{
    ascii_lower_seq, chars_eq, chars_of, extend_chars, extend_str, is_ascii_alnum, replace_all,
    replace_chars, string_of, to_ascii_lower,
};
use crate::unicode::{utf8_lossy, utf8_lossy_spec};

verus! {

/// A component separator on the platform.
pub open spec fn is_sep(c: char, windows: bool) -> bool {
    c == '/' || (windows && c == '\\')
}

/// An ASCII letter.
pub open spec fn is_ascii_letter(c: char) -> bool {
    ('a' <= c && c <= 'z') || ('A' <= c && c <= 'Z')
}

/// The length of the path's prefix on the platform: 2 for a drive prefix such as `C:` on
/// Windows, else 0.
pub open spec fn prefix_len(p: Seq<char>, windows: bool) -> int {
    if windows && p.len() >= 2 && is_ascii_letter(p[0]) && p[1] == ':' {
        2
    } else {
        0
    }
}

/// The path without separators and `.` components at its end.
pub open spec fn trim_end(p: Seq<char>, windows: bool) -> Seq<char>
    decreases p.len(),
{
    if p.len() > 0 && is_sep(p.last(), windows) {
        trim_end(p.drop_last(), windows)
    } else if p.len() >= 2 && p.last() == '.' && is_sep(p[p.len() - 2], windows) {
        trim_end(p.drop_last(), windows)
    } else {
        p
    }
}

/// The text after the last separator.
pub open spec fn last_component(p: Seq<char>, windows: bool) -> Seq<char>
    decreases p.len(),
{
    if p.len() == 0 || is_sep(p.last(), windows) {
        Seq::empty()
    } else {
        last_component(p.drop_last(), windows).push(p.last())
    }
}

/// `Path::file_name`: the final component, after the prefix and ignoring trailing
/// separators and `.` components; none when it is empty, `.` or `..`.
pub open spec fn file_name_spec(p: Seq<char>, windows: bool) -> Option<Seq<char>> {
    let c = last_component(trim_end(p.skip(prefix_len(p, windows)), windows), windows);
    if c.len() == 0 || c == seq!['.'] || c == seq!['.', '.'] {
        None
    } else {
        Some(c)
    }
}

/// The index of the last `.` in a name, or -1.
pub open spec fn last_dot(name: Seq<char>) -> int
    decreases name.len(),
{
    if name.len() == 0 {
        -1
    } else if name.last() == '.' {
        name.len() - 1
    } else {
        last_dot(name.drop_last())
    }
}

/// A file name without its extension: the whole name when it has no `.` after its first
/// character, else the part before the last `.`.
pub open spec fn stem_of(name: Seq<char>) -> Seq<char> {
    if last_dot(name) <= 0 {
        name
    } else {
        name.take(last_dot(name))
    }
}

/// The extension of a file name: the part after the last `.`, when there is a `.` after
/// its first character.
pub open spec fn ext_of(name: Seq<char>) -> Option<Seq<char>> {
    if last_dot(name) <= 0 {
        None
    } else {
        Some(name.skip(last_dot(name) + 1))
    }
}

/// `Path::file_stem`.
pub open spec fn file_stem_spec(p: Seq<char>, windows: bool) -> Option<Seq<char>> {
    match file_name_spec(p, windows) {
        Some(n) => Some(stem_of(n)),
        None => None,
    }
}

/// `Path::extension`.
pub open spec fn extension_spec(p: Seq<char>, windows: bool) -> Option<Seq<char>> {
    match file_name_spec(p, windows) {
        Some(n) => ext_of(n),
        None => None,
    }
}

proof fn lemma_last_dot(name: Seq<char>)
    ensures
        -1 <= last_dot(name) < name.len(),
        last_dot(name) >= 0 ==> name[last_dot(name)] == '.',
        forall|j: int| last_dot(name) < j < name.len() ==> name[j] != '.',
    decreases name.len(),
{
    if name.len() > 0 && name.last() != '.' {
        lemma_last_dot(name.drop_last());
        assert forall|j: int| last_dot(name) < j < name.len() implies name[j] != '.' by {
            if j < name.len() - 1 {
                assert(name[j] == name.drop_last()[j]);
            }
        }
    }
}

proof fn lemma_trim_step(p: Seq<char>, windows: bool)
    requires
        p.len() > 0 && is_sep(p.last(), windows) || p.len() >= 2 && p.last() == '.' && is_sep(
            p[p.len() - 2],
            windows,
        ),
    ensures
        trim_end(p, windows) == trim_end(p.drop_last(), windows),
{
}

proof fn lemma_last_component(p: Seq<char>, s: int, windows: bool)
    requires
        0 <= s <= p.len(),
        s == 0 || is_sep(p[s - 1], windows),
        forall|j: int| s <= j < p.len() ==> !is_sep(p[j], windows),
    ensures
        last_component(p, windows) == p.skip(s),
    decreases p.len(),
{
    if p.len() > s {
        lemma_last_component(p.drop_last(), s, windows);
        assert(p.drop_last().skip(s).push(p.last()) =~= p.skip(s));
    } else {
        assert(p.skip(s).len() == 0);
    }
}

fn sep_at(p: &[char], k: usize, windows: bool) -> (b: bool)
    requires
        k < p.len(),
    ensures
        b == is_sep(p@[k as int], windows),
{
    p[k] == '/' || (windows && p[k] == '\\')
}

/// `Path::file_name` of a path.
pub fn file_name(p: &[char], windows: bool) -> (r: Option<Vec<char>>)
    ensures
        match file_name_spec(p@, windows) {
            Some(n) => r matches Some(x) && x@ == n,
            None => r is None,
        },
{
    let d: usize = if windows && p.len() >= 2 && (('a' <= p[0] && p[0] <= 'z') || ('A' <= p[0]
        && p[0] <= 'Z')) && p[1] == ':' {
        2
    } else {
        0
    };
    assert(d == prefix_len(p@, windows));
    let ghost body = p@.skip(d as int);
    let mut e: usize = p.len();
    assert(p@.subrange(d as int, e as int) == body);
    while e > d && (sep_at(p, e - 1, windows) || (e - d >= 2 && p[e - 1] == '.' && sep_at(
        p,
        e - 2,
        windows,
    )))
        invariant
            d <= e <= p.len(),
            d == prefix_len(p@, windows),
            body == p@.skip(d as int),
            trim_end(body, windows) == trim_end(p@.subrange(d as int, e as int), windows),
        decreases e,
    {
        let ghost cur = p@.subrange(d as int, e as int);
        proof {
            assert(cur.last() == p@[e - 1]);
            if e - d >= 2 {
                assert(cur[cur.len() - 2] == p@[e - 2]);
            }
            lemma_trim_step(cur, windows);
            assert(cur.drop_last() == p@.subrange(d as int, e - 1));
        }
        e -= 1;
    }
    proof {
        let cur = p@.subrange(d as int, e as int);
        if cur.len() > 0 {
            assert(cur.last() == p@[e - 1]);
        }
        if cur.len() >= 2 {
            assert(cur[cur.len() - 2] == p@[e - 2]);
        }
        assert(trim_end(cur, windows) == cur);
    }
    let mut s: usize = e;
    while s > d && !sep_at(p, s - 1, windows)
        invariant
            d <= s <= e <= p.len(),
            forall|j: int| s <= j < e ==> !is_sep(p@[j], windows),
        decreases s,
    {
        s -= 1;
    }
    let mut c: Vec<char> = Vec::new();
    let mut k = s;
    while k < e
        invariant
            s <= k <= e <= p.len(),
            c@ == p@.subrange(s as int, k as int),
        decreases e - k,
    {
        c.push(p[k]);
        k += 1;
        assert(p@.subrange(s as int, k as int) == p@.subrange(s as int, k - 1).push(p@[k - 1]));
    }
    proof {
        let cur = p@.subrange(d as int, e as int);
        assert forall|j: int| s - d <= j < cur.len() implies !is_sep(cur[j], windows) by {
            assert(cur[j] == p@[d + j]);
        }
        if s > d {
            assert(cur[s - d - 1] == p@[s - 1]);
        }
        lemma_last_component(cur, s - d, windows);
        assert(cur.skip(s - d) == p@.subrange(s as int, e as int));
    }
    if c.len() == 0 || (c.len() == 1 && c[0] == '.') || (c.len() == 2 && c[0] == '.' && c[1]
        == '.') {
        proof {
            if c@.len() == 1 {
                assert(c@ == seq!['.']);
            }
            if c@.len() == 2 {
                assert(c@ == seq!['.', '.']);
            }
        }
        return None;
    }
    proof {
        if c@ == seq!['.'] {
            assert(c@[0] == '.');
        }
        if c@ == seq!['.', '.'] {
            assert(c@[0] == '.' && c@[1] == '.');
        }
    }
    Some(c)
}

/// The position of the last `.` in a name, if any.
fn find_last_dot(name: &[char]) -> (r: Option<usize>)
    ensures
        match r {
            Some(k) => k == last_dot(name@),
            None => last_dot(name@) == -1,
        },
{
    let mut k: usize = name.len();
    while k > 0 && name[k - 1] != '.'
        invariant
            k <= name.len(),
            forall|j: int| k <= j < name.len() ==> name@[j] != '.',
        decreases k,
    {
        k -= 1;
    }
    proof {
        lemma_last_dot(name@);
    }
    if k == 0 {
        None
    } else {
        Some(k - 1)
    }
}

/// A file name split into its stem and extension.
pub fn split_ext(name: &[char]) -> (r: (Vec<char>, Option<Vec<char>>))
    ensures
        r.0@ == stem_of(name@),
        match ext_of(name@) {
            Some(e) => r.1 matches Some(x) && x@ == e,
            None => r.1 is None,
        },
{
    proof {
        lemma_last_dot(name@);
    }
    match find_last_dot(name) {
        Some(d) if d > 0 => {
            let mut stem: Vec<char> = Vec::new();
            let mut ext: Vec<char> = Vec::new();
            let mut k: usize = 0;
            while k < name.len()
                invariant
                    d < name.len(),
                    k <= name.len(),
                    stem@ == name@.take(if k <= d { k as int } else { d as int }),
                    ext@ == (if k <= d + 1 { Seq::empty() } else { name@.subrange(d + 1, k as int) }),
                decreases name.len() - k,
            {
                if k < d {
                    stem.push(name[k]);
                    assert(name@.take(k + 1) == name@.take(k as int).push(name@[k as int]));
                } else if k > d {
                    ext.push(name[k]);
                    assert(name@.subrange(d + 1, k + 1) =~= (if k <= d + 1 { Seq::empty() } else {
                        name@.subrange(d + 1, k as int)
                    }).push(name@[k as int]));
                }
                k += 1;
            }
            assert(name@.subrange(d + 1, name@.len() as int) == name@.skip(d + 1));
            proof {
                if name@.len() == d + 1 {
                    assert(name@.skip(d + 1) =~= Seq::<char>::empty());
                }
            }
            (stem, Some(ext))
        },
        _ => {
            let mut stem: Vec<char> = Vec::new();
            extend_chars(&mut stem, name);
            (stem, None)
        },
    }
}

/// `Path::file_stem` of a path.
pub fn file_stem(p: &[char], windows: bool) -> (r: Option<Vec<char>>)
    ensures
        match file_stem_spec(p@, windows) {
            Some(n) => r matches Some(x) && x@ == n,
            None => r is None,
        },
{
    match file_name(p, windows) {
        Some(n) => Some(split_ext(&n).0),
        None => None,
    }
}

/// `Path::extension` of a path.
pub fn extension(p: &[char], windows: bool) -> (r: Option<Vec<char>>)
    ensures
        match extension_spec(p@, windows) {
            Some(n) => r matches Some(x) && x@ == n,
            None => r is None,
        },
{
    match file_name(p, windows) {
        Some(n) => split_ext(&n).1,
        None => None,
    }
}

/// The path has the given extension, ignoring ASCII case.
pub open spec fn has_extension(p: Seq<char>, ext: Seq<char>, windows: bool) -> bool {
    extension_spec(p, windows) matches Some(e) && ascii_lower_seq(e) == ext
}

/// Whether the path's extension is `ext` (given in lowercase), ignoring ASCII case.
pub fn extension_is(p: &[char], ext: &str, windows: bool) -> (b: bool)
    ensures
        b == has_extension(p@, ext@, windows),
{
    match extension(p, windows) {
        Some(e) => chars_eq(&to_ascii_lower(&e), &chars_of(ext)),
        None => false,
    }
}

/// Whether the path names an APK or AAB file by its extension.
pub open spec fn is_supported_spec(p: Seq<char>, windows: bool) -> bool {
    has_extension(p, "apk"@, windows) || has_extension(p, "aab"@, windows)
}

/// Whether the path names an APK or AAB file by its extension (any ASCII case).
pub fn is_supported_input_path(path: &str, windows: bool) -> (b: bool)
    ensures
        b == is_supported_spec(path@, windows),
{
    let p = chars_of(path);
    extension_is(&p, "apk", windows) || extension_is(&p, "aab", windows)
}

// ---------------------------------------------------------------------------
// Names made safe for files
// ---------------------------------------------------------------------------
/// A character kept in file names, or `_` in its place.
pub open spec fn safe_char(c: char) -> char {
    if is_ascii_alnum(c) || c == '_' || c == '-' {
        c
    } else {
        '_'
    }
}

/// Every character outside ASCII letters, digits, `_` and `-` replaced by `_`.
pub open spec fn sanitize_spec(s: Seq<char>) -> Seq<char> {
    s.map_values(|c: char| safe_char(c))
}

/// Replaces every character outside ASCII letters, digits, `_` and `-` by `_`.
pub fn sanitize(raw: &[char]) -> (out: Vec<char>)
    ensures
        out@ == sanitize_spec(raw@),
{
    let mut out: Vec<char> = Vec::new();
    let mut i: usize = 0;
    while i < raw.len()
        invariant
            i <= raw.len(),
            out@ == sanitize_spec(raw@.take(i as int)),
        decreases raw.len() - i,
    {
        let c = raw[i];
        let keep = ('0' <= c && c <= '9') || ('a' <= c && c <= 'z') || ('A' <= c && c <= 'Z')
            || c == '_' || c == '-';
        out.push(if keep { c } else { '_' });
        i += 1;
        assert(raw@.take(i as int) == raw@.take(i - 1).push(c));
        assert(sanitize_spec(raw@.take(i as int)) =~= sanitize_spec(raw@.take(i - 1)).push(
            safe_char(c),
        ));
    }
    assert(raw@.take(raw.len() as int) == raw@);
    out
}

/// A sanitized file name, `app` when nothing is left.
pub open spec fn sanitize_filename_spec(raw: Seq<char>) -> Seq<char> {
    if raw.len() == 0 {
        "app"@
    } else {
        sanitize_spec(raw)
    }
}

/// Sanitizes a file name, falling back to `app` when it is empty.
pub fn sanitize_filename(raw: &str) -> (out: String)
    ensures
        out@ == sanitize_filename_spec(raw@),
{
    let r = chars_of(raw);
    if r.len() == 0 {
        return crate::text::string_from("app");
    }
    string_of(&sanitize(&r))
}

// ---------------------------------------------------------------------------
// File URLs
// ---------------------------------------------------------------------------
/// The value of an ASCII hexadecimal digit byte.
pub open spec fn hex_byte_value(b: u8) -> Option<nat> {
    if 0x30 <= b <= 0x39 {
        Some((b - 0x30) as nat)
    } else if 0x61 <= b <= 0x66 {
        Some((b - 0x61 + 10) as nat)
    } else if 0x41 <= b <= 0x46 {
        Some((b - 0x41 + 10) as nat)
    } else {
        None
    }
}

/// What `u8::from_str_radix(.., 16)` makes of a two-byte text: two hexadecimal digits, or
/// `+` and one.
pub open spec fn pct_pair(b1: u8, b2: u8) -> Option<u8> {
    if b1 == 0x2b {
        match hex_byte_value(b2) {
            Some(v) => Some(v as u8),
            None => None,
        }
    } else {
        match (hex_byte_value(b1), hex_byte_value(b2)) {
            (Some(h), Some(l)) => Some((h * 16 + l) as u8),
            _ => None,
        }
    }
}

/// The bytes with each `%` followed by a hexadecimal pair (and at least one more byte
/// after the `%`) replaced by the byte it denotes.
pub open spec fn pct_decode_bytes(b: Seq<u8>) -> Seq<u8>
    decreases b.len(),
{
    if b.len() == 0 {
        Seq::empty()
    } else if b[0] == 0x25 && 2 < b.len() && pct_pair(b[1], b[2]) is Some {
        seq![pct_pair(b[1], b[2]).unwrap()] + pct_decode_bytes(b.skip(3))
    } else {
        seq![b[0]] + pct_decode_bytes(b.drop_first())
    }
}

/// Every `%` the decoder examines is followed by two bytes that end on a character
/// boundary (the two bytes are taken as a string slice).
pub open spec fn pct_boundaries_ok(b: Seq<u8>) -> bool
    decreases b.len(),
{
    if b.len() == 0 {
        true
    } else if b[0] == 0x25 && 2 < b.len() {
        (b.len() == 3 || !(0x80 <= b[3] && b[3] <= 0xbf)) && if pct_pair(b[1], b[2]) is Some {
            pct_boundaries_ok(b.skip(3))
        } else {
            pct_boundaries_ok(b.drop_first())
        }
    } else {
        pct_boundaries_ok(b.drop_first())
    }
}

/// Percent-decoding of a text, decoded back to text with invalid UTF-8 replaced.
pub open spec fn percent_decode_spec(s: Seq<char>) -> Seq<char> {
    let b = pct_decode_bytes(vstd::utf8::encode_utf8(s));
    if vstd::utf8::valid_utf8(b) {
        vstd::utf8::decode_utf8(b)
    } else {
        utf8_lossy_spec(b)
    }
}

fn hex_val(b: u8) -> (r: Option<u8>)
    ensures
        match hex_byte_value(b) {
            Some(v) => r == Some(v as u8),
            None => r is None,
        },
{
    if 0x30 <= b && b <= 0x39 {
        Some(b - 0x30)
    } else if 0x61 <= b && b <= 0x66 {
        Some(b - 0x61 + 10)
    } else if 0x41 <= b && b <= 0x46 {
        Some(b - 0x41 + 10)
    } else {
        None
    }
}

fn pair_value(b1: u8, b2: u8) -> (r: Option<u8>)
    ensures
        r == pct_pair(b1, b2),
{
    if b1 == 0x2b {
        hex_val(b2)
    } else {
        match (hex_val(b1), hex_val(b2)) {
            (Some(h), Some(l)) => Some(h * 16 + l),
            _ => None,
        }
    }
}

/// Decodes `%XX` escapes; requires every examined escape to end on a character boundary.
pub fn percent_decode(raw: &str) -> (out: String)
    requires
        pct_boundaries_ok(vstd::utf8::encode_utf8(raw@)),
    ensures
        out@ == percent_decode_spec(raw@),
{
    let bytes = raw.as_bytes();
    let ghost b = bytes@;
    assert(b == vstd::utf8::encode_utf8(raw@));
    let mut out: Vec<u8> = Vec::new();
    let mut i: usize = 0;
    assert(b.skip(0) == b);
    while i < bytes.len()
        invariant
            i <= bytes.len(),
            b == bytes@,
            out@ + pct_decode_bytes(b.skip(i as int)) == pct_decode_bytes(b),
        decreases bytes.len() - i,
    {
        let ghost t = b.skip(i as int);
        assert(t.drop_first() == b.skip(i + 1));
        if bytes[i] == 0x25 && bytes.len() - i > 2 {
            assert(t.skip(3) == b.skip(i + 3));
            assert(t[1] == b[i + 1] && t[2] == b[i + 2]);
            match pair_value(bytes[i + 1], bytes[i + 2]) {
                Some(v) => {
                    assert(out@.push(v) + pct_decode_bytes(b.skip(i + 3)) == out@ + (seq![v]
                        + pct_decode_bytes(b.skip(i + 3))));
                    out.push(v);
                    i += 3;
                    continue ;
                },
                None => {},
            }
        }
        assert(out@.push(bytes@[i as int]) + pct_decode_bytes(b.skip(i + 1)) == out@ + (seq![
            bytes@[i as int],
        ] + pct_decode_bytes(b.skip(i + 1))));
        out.push(bytes[i]);
        i += 1;
    }
    assert(b.skip(i as int).len() == 0);
    assert(out@ + pct_decode_bytes(b.skip(i as int)) =~= out@);
    utf8_lossy(&out)
}

/// The local path a `file:///` URL names: on Windows the rest with `/` turned into `\`,
/// elsewhere the rest after a `/`.
pub open spec fn file_url_to_path_spec(raw: Seq<char>, windows: bool) -> Option<Seq<char>> {
    let prefix = "file:///"@;
    if prefix.is_prefix_of(raw) {
        let decoded = percent_decode_spec(raw.skip(prefix.len() as int));
        if windows {
            Some(replace_all(decoded, seq!['/'], seq!['\\']))
        } else {
            Some(seq!['/'] + decoded)
        }
    } else {
        None
    }
}

/// The local path of a `file:///` URL, or `None` for any other text.
pub fn file_url_to_path(raw: &str, windows: bool) -> (r: Option<String>)
    requires
        "file:///"@.is_prefix_of(raw@) ==> pct_boundaries_ok(
            vstd::utf8::encode_utf8(raw@.skip(8)),
        ),
    ensures
        match file_url_to_path_spec(raw@, windows) {
            Some(p) => r matches Some(x) && x@ == p,
            None => r is None,
        },
{
    proof {
        reveal_strlit("file:///");
    }
    let r = chars_of(raw);
    let prefix = chars_of("file:///");
    if !crate::text::starts_with(&r, &prefix) {
        return None;
    }
    let mut rest: Vec<char> = Vec::new();
    let mut k: usize = 8;
    while k < r.len()
        invariant
            8 <= k <= r.len(),
            rest@ == r@.subrange(8, k as int),
        decreases r.len() - k,
    {
        rest.push(r[k]);
        k += 1;
        assert(r@.subrange(8, k as int) == r@.subrange(8, k - 1).push(r@[k - 1]));
    }
    assert(rest@ == raw@.skip(8));
    let rest_s = string_of(&rest);
    let decoded = chars_of(percent_decode(rest_s.as_str()).as_str());
    let slash: [char; 1] = ['/'];
    let backslash: [char; 1] = ['\\'];
    assert(slash@ =~= seq!['/']);
    assert(backslash@ =~= seq!['\\']);
    if windows {
        Some(string_of(&replace_chars(&decoded, &slash, &backslash)))
    } else {
        let mut out: Vec<char> = Vec::new();
        out.push('/');
        extend_chars(&mut out, &decoded);
        Some(string_of(&out))
    }
}

/// The `file:///` URL of a local path, with `\` written as `/`.
pub open spec fn file_url_spec(path: Seq<char>) -> Seq<char> {
    "file:///"@ + replace_all(path, seq!['\\'], seq!['/'])
}

/// The `file:///` URL of a local path.
pub fn file_url_from_path(path: &str) -> (url: String)
    ensures
        url@ == file_url_spec(path@),
{
    let mut out: Vec<char> = Vec::new();
    extend_str(&mut out, "file:///");
    let p = chars_of(path);
    let slash: [char; 1] = ['/'];
    let backslash: [char; 1] = ['\\'];
    assert(slash@ =~= seq!['/']);
    assert(backslash@ =~= seq!['\\']);
    extend_chars(&mut out, &replace_chars(&p, &backslash, &slash));
    string_of(&out)
}

/// Whether percent-decoding these bytes stays on character boundaries.
fn pct_boundaries(bytes: &[u8]) -> (r: bool)
    ensures
        r == pct_boundaries_ok(bytes@),
{
    let ghost b = bytes@;
    let mut i: usize = 0;
    assert(b.skip(0) == b);
    while i < bytes.len()
        invariant
            i <= bytes.len(),
            b == bytes@,
            pct_boundaries_ok(b) == pct_boundaries_ok(b.skip(i as int)),
        decreases bytes.len() - i,
    {
        let ghost t = b.skip(i as int);
        assert(t.drop_first() == b.skip(i + 1));
        if bytes[i] == 0x25 && bytes.len() - i > 2 {
            assert(t.skip(3) == b.skip(i + 3));
            assert(t[1] == b[i + 1] && t[2] == b[i + 2]);
            if bytes.len() - i > 3 {
                assert(t[3] == b[i + 3]);
                if 0x80 <= bytes[i + 3] && bytes[i + 3] <= 0xbf {
                    return false;
                }
            }
            if pair_value(bytes[i + 1], bytes[i + 2]).is_some() {
                i += 3;
                continue ;
            }
        }
        i += 1;
    }
    assert(b.skip(i as int).len() == 0);
    true
}

/// Whether `file_url_to_path` can decode this text: it is no `file:///` URL, or its
/// percent escapes end on character boundaries.
pub fn file_url_decodable(raw: &str) -> (r: bool)
    ensures
        r == ("file:///"@.is_prefix_of(raw@) ==> pct_boundaries_ok(
            vstd::utf8::encode_utf8(raw@.skip(8)),
        )),
{
    proof {
        reveal_strlit("file:///");
    }
    let r = chars_of(raw);
    if !crate::text::starts_with(&r, &chars_of("file:///")) {
        return true;
    }
    let mut rest: Vec<char> = Vec::new();
    let mut k: usize = 8;
    while k < r.len()
        invariant
            8 <= k <= r.len(),
            rest@ == r@.subrange(8, k as int),
        decreases r.len() - k,
    {
        rest.push(r[k]);
        k += 1;
        assert(r@.subrange(8, k as int) == r@.subrange(8, k - 1).push(r@[k - 1]));
    }
    let rest_s = string_of(&rest);
    pct_boundaries(rest_s.as_str().as_bytes())
}

} // verus!
