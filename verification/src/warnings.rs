//! Warning codes and the list they are collected in.
use vstd::prelude::*;
use crate::text::{chars_eq, chars_of, string_from};

verus! {

pub const CHANNEL_NOT_FOUND: &'static str = "CHANNEL_NOT_FOUND";

pub const ICON_NOT_FOUND: &'static str = "ICON_NOT_FOUND";

pub const APP_NAME_UNRESOLVED: &'static str = "APP_NAME_UNRESOLVED";

pub const SIGNATURE_PARTIAL: &'static str = "SIGNATURE_PARTIAL";

pub const SIGNATURE_BLOCK_DETECTED_UNPARSED: &'static str = "SIGNATURE_BLOCK_DETECTED_UNPARSED";

pub const MANIFEST_BINARY_PARTIAL: &'static str = "MANIFEST_BINARY_PARTIAL";

/// The texts of a list of strings.
pub open spec fn texts(v: Seq<String>) -> Seq<Seq<char>> {
    v.map_values(|s: String| s@)
}

/// The warning list after adding `code`: unchanged when it is already there, else with
/// `code` at the end.
pub open spec fn with_warning(ws: Seq<Seq<char>>, code: Seq<char>) -> Seq<Seq<char>> {
    if ws.contains(code) {
        ws
    } else {
        ws.push(code)
    }
}

/// Adds a warning code unless the list already holds it.
pub fn push_warning(warnings: &mut Vec<String>, code: &str)
    ensures
        texts(final(warnings)@) == with_warning(texts(old(warnings)@), code@),
{
    let c = chars_of(code);
    let mut i: usize = 0;
    while i < warnings.len()
        invariant
            i <= warnings.len(),
            c@ == code@,
            forall|j: int| 0 <= j < i ==> warnings@[j]@ != code@,
        decreases warnings.len() - i,
    {
        let w = chars_of(warnings[i].as_str());
        if chars_eq(&w, &c) {
            proof {
                assert(texts(warnings@)[i as int] == code@);
            }
            return;
        }
        i += 1;
    }
    proof {
        assert forall|j: int| 0 <= j < texts(warnings@).len() implies texts(warnings@)[j]
            != code@ by {
            assert(texts(warnings@)[j] == warnings@[j]@);
        }
    }
    let ghost before = warnings@;
    warnings.push(string_from(code));
    assert(texts(warnings@) =~= texts(before).push(code@));
}

} // verus!
