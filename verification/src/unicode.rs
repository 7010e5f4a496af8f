//! Text decoding and case mapping from the standard library.
use vstd::prelude::*;
use vstd::utf8::{decode_utf8, valid_utf8};

verus! {

/// What `String::from_utf8_lossy` makes of the bytes.
pub uninterp spec fn utf8_lossy_spec(b: Seq<u8>) -> Seq<char>;

/// What `String::from_utf16_lossy` makes of the code units.
pub uninterp spec fn utf16_lossy_spec(u: Seq<u16>) -> Seq<char>;

/// What `str::to_lowercase` makes of the characters.
pub uninterp spec fn unicode_lower(s: Seq<char>) -> Seq<char>;

/// What `str::to_uppercase` makes of the characters.
pub uninterp spec fn unicode_upper(s: Seq<char>) -> Seq<char>;

/// Decodes UTF-8, replacing invalid sequences (`String::from_utf8_lossy`).
/// Claims the named result, and that valid UTF-8 decodes exactly.
#[verifier::external_body]
pub(crate) fn utf8_lossy(b: &[u8]) -> (s: String)
    ensures
        s@ == utf8_lossy_spec(b@),
        valid_utf8(b@) ==> s@ == decode_utf8(b@),
{
    String::from_utf8_lossy(b).into_owned()
}

/// Decodes UTF-16, replacing invalid sequences (`String::from_utf16_lossy`).
#[verifier::external_body]
pub(crate) fn utf16_lossy(u: &[u16]) -> (s: String)
    ensures
        s@ == utf16_lossy_spec(u@),
{
    String::from_utf16_lossy(u)
}

/// Decodes strict UTF-8 (`std::str::from_utf8`): `None` exactly when the bytes are not
/// valid UTF-8.
#[verifier::external_body]
pub(crate) fn utf8_decode(b: &[u8]) -> (s: Option<String>)
    ensures
        s is Some <==> valid_utf8(b@),
        s matches Some(t) ==> t@ == decode_utf8(b@),
{
    std::str::from_utf8(b).ok().map(|t| t.to_owned())
}

/// Lowercases by Unicode rules (`str::to_lowercase`).
#[verifier::external_body]
pub(crate) fn to_lowercase(s: &str) -> (r: String)
    ensures
        r@ == unicode_lower(s@),
{
    s.to_lowercase()
}

/// Uppercases by Unicode rules (`str::to_uppercase`).
#[verifier::external_body]
pub(crate) fn to_uppercase(s: &str) -> (r: String)
    ensures
        r@ == unicode_upper(s@),
{
    s.to_uppercase()
}

} // verus!
