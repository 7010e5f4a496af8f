//! Choosing which input files to parse, and the progress lines printed while parsing.
use vstd::prelude::*;
use crate::paths::{is_supported_input_path, is_supported_spec};
use crate::render::{get_ext, get_ext_spec, get_file_name, get_file_name_spec};
use crate::text::{
    ascii_lower_seq, chars_eq, chars_of, decimal_u64, extend_chars, extend_str, int_decimal,
    string_of, to_ascii_lower,
};
use crate::unicode::{to_uppercase, unicode_upper};
use crate::warnings::texts;

verus! {

/// The supported candidates kept, and the keys already taken.
pub open spec fn select_spec(cands: Seq<Seq<char>>, keys: Seq<Seq<char>>, windows: bool) -> (
    Seq<Seq<char>>,
    Set<Seq<char>>,
)
    decreases cands.len(),
{
    if cands.len() == 0 || keys.len() < cands.len() {
        (Seq::empty(), Set::empty())
    } else {
        let n = (cands.len() - 1) as int;
        let (out, seen) = select_spec(cands.drop_last(), keys.take(n), windows);
        if is_supported_spec(cands[n], windows) && !seen.contains(keys[n]) {
            (out.push(cands[n]), seen.insert(keys[n]))
        } else {
            (out, seen)
        }
    }
}

/// Keeps, in order, each candidate with an APK/AAB extension whose key was not taken by an
/// earlier one (keys identify the same file, such as lowercased canonical paths).
pub fn select_inputs(cands: &Vec<String>, keys: &Vec<String>, windows: bool) -> (out: Vec<String>)
    requires
        cands@.len() == keys@.len(),
    ensures
        texts(out@) == select_spec(texts(cands@), texts(keys@), windows).0,
{
    let ghost cv = texts(cands@);
    let ghost kv = texts(keys@);
    let mut out: Vec<String> = Vec::new();
    let mut taken: Vec<Vec<char>> = Vec::new();
    let mut i: usize = 0;
    while i < cands.len()
        invariant
            i <= cands.len(),
            cands@.len() == keys@.len(),
            cv == texts(cands@),
            kv == texts(keys@),
            texts(out@) == select_spec(cv.take(i as int), kv.take(i as int), windows).0,
            taken@.map_values(|t: Vec<char>| t@).to_set() == select_spec(
                cv.take(i as int),
                kv.take(i as int),
                windows,
            ).1,
        decreases cands.len() - i,
    {
        assert(cv.take(i + 1).drop_last() == cv.take(i as int));
        assert(kv.take(i + 1).take(i as int) == kv.take(i as int));
        assert(cv.take(i + 1)[i as int] == cands@[i as int]@);
        assert(kv.take(i + 1)[i as int] == keys@[i as int]@);
        let ghost tv = taken@.map_values(|t: Vec<char>| t@);
        let ghost ov = texts(out@);
        if is_supported_input_path(cands[i].as_str(), windows) {
            let k = chars_of(keys[i].as_str());
            let mut seen = false;
            let mut j: usize = 0;
            while j < taken.len()
                invariant
                    j <= taken.len(),
                    tv == taken@.map_values(|t: Vec<char>| t@),
                    seen == (exists|q: int| 0 <= q < j && tv[q] == k@),
                decreases taken.len() - j,
            {
                if !seen && chars_eq(taken[j].as_slice(), &k) {
                    seen = true;
                    assert(tv[j as int] == k@);
                }
                j += 1;
            }
            assert(seen == tv.to_set().contains(k@)) by {
                if tv.to_set().contains(k@) {
                    assert(tv.contains(k@));
                }
            }
            if !seen {
                out.push(crate::text::copy_string(&cands[i]));
                taken.push(k);
                assert(texts(out@) =~= ov.push(cv[i as int]));
                assert(taken@.map_values(|t: Vec<char>| t@) =~= tv.push(kv[i as int]));
                proof { tv.lemma_push_to_set_commute(kv[i as int]); }
            }
        }
        i += 1;
    }
    assert(cv.take(cands.len() as int) == cv);
    assert(kv.take(cands.len() as int) == kv);
    out
}

/// The key of a path: its text in ASCII lowercase.
pub fn ascii_key(path: &str) -> (r: String)
    ensures
        r@ == ascii_lower_seq(path@),
{
    string_of(&to_ascii_lower(&chars_of(path)))
}

/// The line printed when parsing of file `index` (of `total`) starts; AAB files get a note
/// that conversion is slow.
pub open spec fn progress_start_spec(index: nat, total: nat, path: Seq<char>, windows: bool) -> Seq<
    char,
> {
    let ext = unicode_upper(get_ext_spec(path, windows));
    let head = "Parsing ["@ + int_decimal(index as int) + seq!['/'] + int_decimal(total as int)
        + "] "@ + get_file_name_spec(path, windows) + " ("@ + ext + ")... "@;
    if ext == "AAB"@ {
        head + "converting with bundletool, this may take a while... "@
    } else {
        head
    }
}

/// The line printed when parsing of a file starts.
pub fn progress_start_message(index: u64, total: u64, path: &str, windows: bool) -> (r: String)
    ensures
        r@ == progress_start_spec(index as nat, total as nat, path@, windows),
{
    let p = chars_of(path);
    let ext = chars_of(to_uppercase(string_of(&get_ext(&p, windows)).as_str()).as_str());
    let mut r = chars_of("Parsing [");
    extend_chars(&mut r, &decimal_u64(index));
    r.push('/');
    extend_chars(&mut r, &decimal_u64(total));
    extend_str(&mut r, "] ");
    extend_chars(&mut r, &get_file_name(&p, windows));
    extend_str(&mut r, " (");
    extend_chars(&mut r, &ext);
    extend_str(&mut r, ")... ");
    if chars_eq(&ext, &chars_of("AAB")) {
        extend_str(&mut r, "converting with bundletool, this may take a while... ");
    }
    string_of(&r)
}

/// The word printed when parsing of a file ends.
pub fn progress_done_message(success: bool) -> (r: &'static str)
    ensures
        r@ == (if success {
            "ok"@
        } else {
            "failed"@
        }),
{
    if success {
        "ok"
    } else {
        "failed"
    }
}

} // verus!
