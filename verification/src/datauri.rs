//! Icons as `data:` URLs for the desktop front end, and the name of an exported icon copy.
use vstd::prelude::*;
use base64::Engine;
use crate::paths::{extension, extension_spec, file_stem, file_stem_spec, sanitize_filename, sanitize_filename_spec};
use crate::text::{chars_of, ends_with, extend_chars, extend_str, string_of};
use crate::unicode::{to_lowercase, unicode_lower};

verus! {

/// The standard base64 alphabet.
pub open spec fn b64_char(v: int) -> char {
    if v < 26 {
        (('A' as int) + v) as char
    } else if v < 52 {
        (('a' as int) + v - 26) as char
    } else if v < 62 {
        (('0' as int) + v - 52) as char
    } else if v == 62 {
        '+'
    } else {
        '/'
    }
}

/// Standard base64 with `=` padding: each 3 bytes become 4 characters.
pub open spec fn base64_spec(b: Seq<u8>) -> Seq<char>
    decreases b.len(),
{
    if b.len() == 0 {
        Seq::empty()
    } else if b.len() == 1 {
        seq![b64_char(b[0] as int / 4), b64_char((b[0] as int % 4) * 16), '=', '=']
    } else if b.len() == 2 {
        seq![
            b64_char(b[0] as int / 4),
            b64_char((b[0] % 4) * 16 + b[1] / 16),
            b64_char((b[1] % 16) * 4),
            '=',
        ]
    } else {
        seq![
            b64_char(b[0] as int / 4),
            b64_char((b[0] % 4) * 16 + b[1] / 16),
            b64_char((b[1] % 16) * 4 + b[2] / 64),
            b64_char(b[2] as int % 64),
        ] + base64_spec(b.skip(3))
    }
}

/// Encodes bytes as standard padded base64 (`base64::engine::general_purpose::STANDARD`).
#[verifier::external_body]
pub(crate) fn base64_encode(b: &[u8]) -> (s: String)
    ensures
        s@ == base64_spec(b@),
{
    base64::engine::general_purpose::STANDARD.encode(b)
}

/// The `data:` URL of an icon file: WebP when its lowercased path ends with `.webp`, else PNG.
pub open spec fn icon_data_url_spec(path: Seq<char>, bytes: Seq<u8>) -> Seq<char> {
    let mime = if ".webp"@.is_suffix_of(unicode_lower(path)) {
        "image/webp"@
    } else {
        "image/png"@
    };
    "data:"@ + mime + ";base64,"@ + base64_spec(bytes)
}

/// The `data:` URL of an icon file with this content.
pub fn icon_data_url(file_path: &str, bytes: &[u8]) -> (r: String)
    ensures
        r@ == icon_data_url_spec(file_path@, bytes@),
{
    let lower = chars_of(to_lowercase(file_path).as_str());
    let mut out = chars_of("data:");
    if ends_with(&lower, &chars_of(".webp")) {
        extend_str(&mut out, "image/webp");
    } else {
        extend_str(&mut out, "image/png");
    }
    extend_str(&mut out, ";base64,");
    extend_str(&mut out, base64_encode(bytes).as_str());
    string_of(&out)
}

/// The name of an exported icon: the APK's sanitized file stem (`app` without one),
/// `-icon.`, and the icon file's extension (`png` without one).
pub open spec fn export_icon_name_spec(
    icon_path: Seq<char>,
    apk_path: Seq<char>,
    windows: bool,
) -> Seq<char> {
    let ext = match extension_spec(icon_path, windows) {
        Some(e) => e,
        None => "png"@,
    };
    let stem = match file_stem_spec(apk_path, windows) {
        Some(s) => s,
        None => "app"@,
    };
    sanitize_filename_spec(stem) + "-icon."@ + ext
}

/// The name of an exported icon.
pub fn export_icon_name(icon_path: &str, apk_path: &str, windows: bool) -> (r: String)
    ensures
        r@ == export_icon_name_spec(icon_path@, apk_path@, windows),
{
    let ext = match extension(&chars_of(icon_path), windows) {
        Some(e) => e,
        None => chars_of("png"),
    };
    let stem = match file_stem(&chars_of(apk_path), windows) {
        Some(s) => s,
        None => chars_of("app"),
    };
    let mut out = chars_of(sanitize_filename(string_of(&stem).as_str()).as_str());
    extend_str(&mut out, "-icon.");
    extend_chars(&mut out, &ext);
    string_of(&out)
}

} // verus!
