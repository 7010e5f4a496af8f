//! Character-sequence utilities with their mathematical meaning.
//!
//! Strings are handled as `Vec<char>` inside the library and specified over
//! `Seq<char>`; `String` values are built and read at the edges.
use vstd::prelude::*;

verus! {

// ---------------------------------------------------------------------------
// Specifications
// ---------------------------------------------------------------------------
/// Unicode `White_Space` (the property behind `char::is_whitespace`).
pub open spec fn is_ws(c: char) -> bool {
    let u = c as u32;
    (9 <= u && u <= 13) || u == 32 || u == 0x85 || u == 0xA0 || u == 0x1680 || (0x2000 <= u
        && u <= 0x200A) || u == 0x2028 || u == 0x2029 || u == 0x202F || u == 0x205F || u == 0x3000
}

/// Every character is whitespace (what `s.trim().is_empty()` decides).
pub open spec fn is_blank(s: Seq<char>) -> bool {
    forall|i: int| 0 <= i < s.len() ==> is_ws(#[trigger] s[i])
}

/// `s` with leading whitespace removed.
pub open spec fn trim_start(s: Seq<char>) -> Seq<char>
    decreases s.len(),
{
    if s.len() > 0 && is_ws(s[0]) {
        trim_start(s.drop_first())
    } else {
        s
    }
}

/// `s` with trailing whitespace removed.
pub open spec fn trim_end(s: Seq<char>) -> Seq<char>
    decreases s.len(),
{
    if s.len() > 0 && is_ws(s.last()) {
        trim_end(s.drop_last())
    } else {
        s
    }
}

/// `s` with whitespace removed at both ends (`str::trim`).
pub open spec fn trim(s: Seq<char>) -> Seq<char> {
    trim_end(trim_start(s))
}

/// `p` occurs in `s` at position `i`.
pub open spec fn occurs_at(s: Seq<char>, p: Seq<char>, i: int) -> bool {
    0 <= i && i + p.len() <= s.len() && s.subrange(i, i + p.len()) == p
}

/// `p` occurs somewhere in `s` (`str::contains`).
pub open spec fn contains_seq(s: Seq<char>, p: Seq<char>) -> bool {
    exists|i: int| occurs_at(s, p, i)
}

/// `str::replace` with an empty pattern: `rep` before every character and at the end.
pub open spec fn replace_empty(s: Seq<char>, rep: Seq<char>) -> Seq<char>
    decreases s.len(),
{
    if s.len() == 0 {
        rep
    } else {
        rep + seq![s[0]] + replace_empty(s.drop_first(), rep)
    }
}

/// `str::replace`: every non-overlapping occurrence of `pat`, found from the left,
/// is replaced by `rep`.
pub open spec fn replace_all(s: Seq<char>, pat: Seq<char>, rep: Seq<char>) -> Seq<char>
    decreases s.len(),
{
    if pat.len() == 0 {
        replace_empty(s, rep)
    } else if s.len() < pat.len() {
        s
    } else if s.take(pat.len() as int) == pat {
        rep + replace_all(s.skip(pat.len() as int), pat, rep)
    } else {
        seq![s[0]] + replace_all(s.drop_first(), pat, rep)
    }
}

/// Parts joined with `sep` between consecutive parts (`[..].join(sep)`).
pub open spec fn join(parts: Seq<Seq<char>>, sep: Seq<char>) -> Seq<char>
    decreases parts.len(),
{
    if parts.len() == 0 {
        Seq::empty()
    } else if parts.len() == 1 {
        parts[0]
    } else {
        join(parts.drop_last(), sep) + sep + parts.last()
    }
}

/// Index of the first occurrence of `c` in `s`, or `s.len()`.
pub open spec fn index_of_or_len(s: Seq<char>, c: char) -> int
    decreases s.len(),
{
    if s.len() == 0 {
        0
    } else if s[0] == c {
        0
    } else {
        1 + index_of_or_len(s.drop_first(), c)
    }
}

/// `index_of_or_len` lies within the sequence bounds.
pub proof fn lemma_index_of_bounds(s: Seq<char>, c: char)
    ensures
        0 <= index_of_or_len(s, c) <= s.len(),
        forall|k: int| 0 <= k < index_of_or_len(s, c) ==> s[k] != c,
        index_of_or_len(s, c) < s.len() ==> s[index_of_or_len(s, c)] == c,
    decreases s.len(),
{
    if s.len() > 0 && s[0] != c {
        lemma_index_of_bounds(s.drop_first(), c);
        assert forall|k: int| 0 <= k < index_of_or_len(s, c) implies s[k] != c by {
            if k > 0 {
                assert(s[k] == s.drop_first()[k - 1]);
            }
        }
    }
}

/// The pieces of `s` between occurrences of `c` (`str::split(c)`).
pub open spec fn split_on(s: Seq<char>, c: char) -> Seq<Seq<char>>
    decreases s.len(),
{
    let e = index_of_or_len(s, c);
    proof {
        lemma_index_of_bounds(s, c);
    }
    if e >= s.len() {
        seq![s]
    } else {
        seq![s.take(e)] + split_on(s.skip(e + 1), c)
    }
}

/// ASCII letters lowered, everything else kept (`char::to_ascii_lowercase`).
pub open spec fn ascii_lower(c: char) -> char {
    if 'A' <= c && c <= 'Z' {
        ((c as u32) + 32) as char
    } else {
        c
    }
}

/// `str::to_ascii_lowercase`.
pub open spec fn ascii_lower_seq(s: Seq<char>) -> Seq<char> {
    s.map_values(|c: char| ascii_lower(c))
}

/// `c.is_ascii_alphanumeric()`.
pub open spec fn is_ascii_alnum(c: char) -> bool {
    ('0' <= c && c <= '9') || ('a' <= c && c <= 'z') || ('A' <= c && c <= 'Z')
}

/// The decimal digit for `d < 10`.
pub open spec fn digit_char(d: nat) -> char {
    (('0' as u32) + d) as char
}

/// Decimal digits of `n`, most significant first, without leading zeros.
pub open spec fn nat_decimal(n: nat) -> Seq<char>
    decreases n,
{
    if n < 10 {
        seq![digit_char(n)]
    } else {
        nat_decimal(n / 10) + seq![digit_char(n % 10)]
    }
}

/// Decimal text of an integer, with a leading `-` when negative (`Display` for integers).
pub open spec fn int_decimal(i: int) -> Seq<char> {
    if i < 0 {
        seq!['-'] + nat_decimal((-i) as nat)
    } else {
        nat_decimal(i as nat)
    }
}

/// The lowercase hexadecimal digit for `d < 16`.
pub open spec fn hex_char(d: nat) -> char {
    if d < 10 {
        (('0' as u32) + d) as char
    } else {
        (('a' as u32) + d - 10) as char
    }
}

/// The uppercase hexadecimal digit for `d < 16`.
pub open spec fn hex_char_upper(d: nat) -> char {
    if d < 10 {
        (('0' as u32) + d) as char
    } else {
        (('A' as u32) + d - 10) as char
    }
}

/// The low `width` hexadecimal digits of `n`, zero padded (`{:0width$x}` when `n` fits).
pub open spec fn hex_fixed(n: nat, width: nat) -> Seq<char>
    decreases width,
{
    if width == 0 {
        Seq::empty()
    } else {
        hex_fixed(n / 16, (width - 1) as nat) + seq![hex_char(n % 16)]
    }
}

/// Two lowercase hexadecimal digits per byte (`{:x}` of a digest).
pub open spec fn bytes_hex(b: Seq<u8>) -> Seq<char>
    decreases b.len(),
{
    if b.len() == 0 {
        Seq::empty()
    } else {
        bytes_hex(b.drop_last()) + hex_fixed(b.last() as nat, 2)
    }
}

/// Two uppercase hexadecimal digits per byte.
pub open spec fn bytes_hex_upper(b: Seq<u8>) -> Seq<char>
    decreases b.len(),
{
    if b.len() == 0 {
        Seq::empty()
    } else {
        bytes_hex_upper(b.drop_last()) + seq![
            hex_char_upper(b.last() as nat / 16),
            hex_char_upper(b.last() as nat % 16),
        ]
    }
}

// ---------------------------------------------------------------------------
// Conversions between `String`/`&str` and `Vec<char>`
// ---------------------------------------------------------------------------
/// Appends one character to a string (std's `String::push`).
#[verifier::external_body]
pub(crate) fn push_char(s: &mut String, c: char)
    ensures
        final(s)@ == old(s)@.push(c),
{
    s.push(c);
}

/// The characters of a string slice, in order.
pub fn chars_of(s: &str) -> (out: Vec<char>)
    ensures
        out@ == s@,
{
    let mut out: Vec<char> = Vec::new();
    for c in it: s.chars()
        invariant
            out@ == it.seq().take(it.index() as int),
            it.seq() == s@,
    {
        out.push(c);
    }
    out
}

/// A string holding exactly the given characters.
pub fn string_of(v: &[char]) -> (out: String)
    ensures
        out@ == v@,
{
    let mut out = String::new();
    let mut i: usize = 0;
    while i < v.len()
        invariant
            i <= v.len(),
            out@ == v@.take(i as int),
        decreases v.len() - i,
    {
        push_char(&mut out, v[i]);
        i += 1;
        assert(v@.take(i as int) == v@.take((i - 1) as int).push(v@[i - 1]));
    }
    assert(v@.take(v.len() as int) == v@);
    out
}

/// A string from a string slice.
pub fn string_from(s: &str) -> (out: String)
    ensures
        out@ == s@,
{
    let v = chars_of(s);
    string_of(&v)
}

/// A copy of a string.
pub fn copy_string(s: &String) -> (out: String)
    ensures
        out@ == s@,
{
    string_from(s.as_str())
}

/// Appends the characters of `src` to `dst`.
pub fn extend_chars(dst: &mut Vec<char>, src: &[char])
    ensures
        final(dst)@ == old(dst)@ + src@,
{
    let mut i: usize = 0;
    while i < src.len()
        invariant
            i <= src.len(),
            dst@ == old(dst)@ + src@.take(i as int),
        decreases src.len() - i,
    {
        dst.push(src[i]);
        i += 1;
        assert(src@.take(i as int) == src@.take((i - 1) as int).push(src@[i - 1]));
    }
    assert(src@.take(src.len() as int) == src@);
}

/// Appends the characters of a string slice to `dst`.
pub fn extend_str(dst: &mut Vec<char>, s: &str)
    ensures
        final(dst)@ == old(dst)@ + s@,
{
    let v = chars_of(s);
    extend_chars(dst, &v);
}

/// The character with an ASCII code.
pub fn ascii_char(b: u8) -> (c: char)
    requires
        b < 128,
    ensures
        c as u32 == b as u32,
{
    b as char
}

// ---------------------------------------------------------------------------
// Predicates
// ---------------------------------------------------------------------------
/// `c.is_whitespace()`.
pub fn is_whitespace(c: char) -> (b: bool)
    ensures
        b == is_ws(c),
{
    let u = c as u32;
    (9 <= u && u <= 13) || u == 32 || u == 0x85 || u == 0xA0 || u == 0x1680 || (0x2000 <= u
        && u <= 0x200A) || u == 0x2028 || u == 0x2029 || u == 0x202F || u == 0x205F || u == 0x3000
}

/// Whether every character is whitespace (`s.trim().is_empty()`).
pub fn blank(s: &[char]) -> (b: bool)
    ensures
        b == is_blank(s@),
{
    let mut i: usize = 0;
    while i < s.len()
        invariant
            i <= s.len(),
            forall|j: int| 0 <= j < i ==> is_ws(#[trigger] s@[j]),
        decreases s.len() - i,
    {
        if !is_whitespace(s[i]) {
            return false;
        }
        i += 1;
    }
    true
}

/// Two character sequences are equal.
pub fn chars_eq(a: &[char], b: &[char]) -> (r: bool)
    ensures
        r == (a@ == b@),
{
    if a.len() != b.len() {
        return false;
    }
    let mut i: usize = 0;
    while i < a.len()
        invariant
            i <= a.len(),
            a.len() == b.len(),
            forall|j: int| 0 <= j < i ==> a@[j] == b@[j],
        decreases a.len() - i,
    {
        if a[i] != b[i] {
            return false;
        }
        i += 1;
    }
    assert(a@ =~= b@);
    true
}

/// Whether `p` occurs in `s` at position `i`.
pub fn matches_at(s: &[char], p: &[char], i: usize) -> (r: bool)
    ensures
        r == occurs_at(s@, p@, i as int),
{
    if i > s.len() || p.len() > s.len() - i {
        return false;
    }
    let mut k: usize = 0;
    while k < p.len()
        invariant
            k <= p.len(),
            i + p.len() <= s.len(),
            forall|j: int| 0 <= j < k ==> s@[i + j] == p@[j],
        decreases p.len() - k,
    {
        if s[i + k] != p[k] {
            assert(s@.subrange(i as int, i + p.len())[k as int] != p@[k as int]);
            return false;
        }
        k += 1;
    }
    assert(s@.subrange(i as int, i + p.len()) =~= p@);
    true
}

/// Whether `s` starts with `p`.
pub fn starts_with(s: &[char], p: &[char]) -> (r: bool)
    ensures
        r == p@.is_prefix_of(s@),
{
    let r = matches_at(s, p, 0);
    assert(s@.subrange(0, p@.len() as int) == s@.take(p@.len() as int));
    r
}

/// Whether `s` ends with `p`.
pub fn ends_with(s: &[char], p: &[char]) -> (r: bool)
    ensures
        r == p@.is_suffix_of(s@),
{
    if p.len() > s.len() {
        return false;
    }
    matches_at(s, p, s.len() - p.len())
}

/// Whether `p` occurs anywhere in `s`.
pub fn contains(s: &[char], p: &[char]) -> (r: bool)
    ensures
        r == contains_seq(s@, p@),
{
    let mut i: usize = 0;
    while i < s.len()
        invariant
            i <= s.len(),
            forall|j: int| 0 <= j < i ==> !occurs_at(s@, p@, j),
        decreases s.len() - i,
    {
        if matches_at(s, p, i) {
            return true;
        }
        i += 1;
    }
    if matches_at(s, p, i) {
        return true;
    }
    assert forall|j: int| !occurs_at(s@, p@, j) by {
        if 0 <= j && j <= i {
        }
    }
    false
}

// ---------------------------------------------------------------------------
// Transformations
// ---------------------------------------------------------------------------
proof fn lemma_trim_start_blank(s: Seq<char>)
    ensures
        is_blank(s) ==> trim_start(s).len() == 0,
        !is_blank(s) ==> trim_start(s).len() > 0 && !is_ws(trim_start(s)[0]),
    decreases s.len(),
{
    if s.len() > 0 && is_ws(s[0]) {
        lemma_trim_start_blank(s.drop_first());
        if !is_blank(s) {
            let k = choose|k: int| 0 <= k < s.len() && !is_ws(#[trigger] s[k]);
            assert(s.drop_first()[k - 1] == s[k]);
        }
        if is_blank(s) {
            assert forall|i: int| 0 <= i < s.drop_first().len() implies is_ws(
                #[trigger] s.drop_first()[i],
            ) by {
                assert(s.drop_first()[i] == s[i + 1]);
            }
        }
    }
}

/// `s` without leading whitespace.
pub fn trim_start_chars(s: &[char]) -> (out: Vec<char>)
    ensures
        out@ == trim_start(s@),
{
    let mut i: usize = 0;
    assert(s@.skip(0) == s@);
    while i < s.len() && is_whitespace(s[i])
        invariant
            i <= s.len(),
            trim_start(s@) == trim_start(s@.skip(i as int)),
        decreases s.len() - i,
    {
        assert(s@.skip(i as int).drop_first() == s@.skip(i + 1));
        i += 1;
    }
    let mut out: Vec<char> = Vec::new();
    let mut k = i;
    while k < s.len()
        invariant
            i <= k <= s.len(),
            out@ == s@.subrange(i as int, k as int),
        decreases s.len() - k,
    {
        out.push(s[k]);
        k += 1;
        assert(s@.subrange(i as int, k as int) == s@.subrange(i as int, k - 1).push(s@[k - 1]));
    }
    assert(s@.skip(i as int) == s@.subrange(i as int, s.len() as int));
    out
}

/// `s` with whitespace removed at both ends.
pub fn trim_chars(s: &[char]) -> (out: Vec<char>)
    ensures
        out@ == trim(s@),
{
    let t = trim_start_chars(s);
    let mut e: usize = t.len();
    assert(t@.take(e as int) == t@);
    while e > 0 && is_whitespace(t[e - 1])
        invariant
            e <= t.len(),
            trim_end(t@) == trim_end(t@.take(e as int)),
        decreases e,
    {
        assert(t@.take(e as int).drop_last() == t@.take(e - 1));
        e -= 1;
    }
    let mut out: Vec<char> = Vec::new();
    let mut k: usize = 0;
    while k < e
        invariant
            k <= e <= t.len(),
            out@ == t@.take(k as int),
        decreases e - k,
    {
        out.push(t[k]);
        k += 1;
        assert(t@.take(k as int) == t@.take(k - 1).push(t@[k - 1]));
    }
    out
}

/// Characters of `s` with ASCII letters lowered.
pub fn to_ascii_lower(s: &[char]) -> (out: Vec<char>)
    ensures
        out@ == ascii_lower_seq(s@),
{
    let mut out: Vec<char> = Vec::new();
    let mut i: usize = 0;
    while i < s.len()
        invariant
            i <= s.len(),
            out@ == ascii_lower_seq(s@.take(i as int)),
        decreases s.len() - i,
    {
        let c = s[i];
        let l = if 'A' <= c && c <= 'Z' {
            ascii_char(((c as u32) + 32) as u8)
        } else {
            c
        };
        out.push(l);
        i += 1;
        assert(s@.take(i as int) == s@.take(i - 1).push(c));
        assert(ascii_lower_seq(s@.take(i as int)) =~= ascii_lower_seq(s@.take(i - 1)).push(l));
    }
    assert(s@.take(s.len() as int) == s@);
    out
}

proof fn lemma_replace_step(s: Seq<char>, pat: Seq<char>, rep: Seq<char>, i: int)
    requires
        pat.len() > 0,
        0 <= i < s.len(),
        i + pat.len() <= s.len(),
    ensures
        occurs_at(s, pat, i) ==> replace_all(s.skip(i), pat, rep) == rep + replace_all(
            s.skip(i + pat.len()),
            pat,
            rep,
        ),
        !occurs_at(s, pat, i) ==> replace_all(s.skip(i), pat, rep) == seq![s[i]] + replace_all(
            s.skip(i + 1),
            pat,
            rep,
        ),
{
    let t = s.skip(i);
    assert(t.take(pat.len() as int) == s.subrange(i, i + pat.len()));
    assert(t.skip(pat.len() as int) == s.skip(i + pat.len()));
    assert(t.drop_first() == s.skip(i + 1));
    assert(t[0] == s[i]);
}

/// `s` with every occurrence of `pat` replaced by `rep`, as `str::replace` does.
pub fn replace_chars(s: &[char], pat: &[char], rep: &[char]) -> (out: Vec<char>)
    ensures
        out@ == replace_all(s@, pat@, rep@),
{
    let mut out: Vec<char> = Vec::new();
    assert(s@.skip(0) == s@);
    assert(out@ + replace_all(s@, pat@, rep@) == replace_all(s@, pat@, rep@));
    if pat.len() == 0 {
        let mut i: usize = 0;
        while i < s.len()
            invariant
                i <= s.len(),
                pat@.len() == 0,
                out@ + replace_empty(s@.skip(i as int), rep@) == replace_all(s@, pat@, rep@),
            decreases s.len() - i,
        {
            proof {
                let t = s@.skip(i as int);
                assert(t.drop_first() == s@.skip(i + 1));
                assert(out@ + (rep@ + seq![s@[i as int]] + replace_empty(s@.skip(i + 1), rep@))
                    == (out@ + rep@ + seq![s@[i as int]]) + replace_empty(s@.skip(i + 1), rep@));
            }
            extend_chars(&mut out, rep);
            out.push(s[i]);
            i += 1;
        }
        assert(s@.skip(i as int).len() == 0);
        extend_chars(&mut out, rep);
        return out;
    }
    let mut i: usize = 0;
    while i < s.len()
        invariant
            i <= s.len(),
            pat@.len() > 0,
            out@ + replace_all(s@.skip(i as int), pat@, rep@) == replace_all(s@, pat@, rep@),
        decreases s.len() - i,
    {
        if pat.len() > s.len() - i {
            assert(s@.skip(i as int).len() < pat@.len());
            let mut k = i;
            while k < s.len()
                invariant
                    i <= k <= s.len(),
                    out@ + s@.skip(k as int) == replace_all(s@, pat@, rep@),
                decreases s.len() - k,
            {
                assert(s@.skip(k as int) == seq![s@[k as int]] + s@.skip(k + 1));
                out.push(s[k]);
                k += 1;
            }
            assert(s@.skip(k as int) =~= Seq::<char>::empty());
            assert(out@ + Seq::<char>::empty() == out@);
            return out;
        }
        proof {
            lemma_replace_step(s@, pat@, rep@, i as int);
        }
        if matches_at(s, pat, i) {
            extend_chars(&mut out, rep);
            i += pat.len();
        } else {
            out.push(s[i]);
            i += 1;
        }
    }
    assert(s@.skip(i as int).len() == 0);
    assert(replace_all(s@.skip(i as int), pat@, rep@) == s@.skip(i as int));
    assert(out@ + s@.skip(i as int) =~= out@);
    out
}

/// The parts joined with `sep` between them.
pub fn join_chars(parts: &Vec<Vec<char>>, sep: &[char]) -> (out: Vec<char>)
    ensures
        out@ == join(parts@.map_values(|p: Vec<char>| p@), sep@),
{
    let ghost ps = parts@.map_values(|p: Vec<char>| p@);
    let mut out: Vec<char> = Vec::new();
    let mut i: usize = 0;
    while i < parts.len()
        invariant
            i <= parts.len(),
            ps == parts@.map_values(|p: Vec<char>| p@),
            out@ == join(ps.take(i as int), sep@),
        decreases parts.len() - i,
    {
        if i > 0 {
            extend_chars(&mut out, sep);
        }
        extend_chars(&mut out, parts[i].as_slice());
        i += 1;
        assert(ps.take(i as int).drop_last() == ps.take(i - 1));
        assert(ps.take(i as int).last() == parts@[i - 1]@);
        if i == 1 {
            assert(ps.take(1) =~= seq![parts@[0]@]);
        }
    }
    assert(ps.take(parts.len() as int) == ps);
    out
}

/// Decimal text of `n` appended to `out`.
pub fn push_decimal(out: &mut Vec<char>, n: u64)
    ensures
        final(out)@ == old(out)@ + nat_decimal(n as nat),
    decreases n,
{
    if n >= 10 {
        push_decimal(out, n / 10);
    }
    let d = (n % 10) as u32;
    let c = ascii_char((48 + d) as u8);
    assert(c == digit_char((n % 10) as nat));
    out.push(c);
}

/// Decimal text of an unsigned integer.
pub fn decimal_u64(n: u64) -> (out: Vec<char>)
    ensures
        out@ == int_decimal(n as int),
{
    let mut out: Vec<char> = Vec::new();
    push_decimal(&mut out, n);
    out
}

/// Decimal text of a signed integer.
pub fn decimal_i64(n: i64) -> (out: Vec<char>)
    ensures
        out@ == int_decimal(n as int),
{
    let mut out: Vec<char> = Vec::new();
    if n < 0 {
        out.push('-');
        let m: u64 = (0i128 - (n as i128)) as u64;
        push_decimal(&mut out, m);
    } else {
        push_decimal(&mut out, n as u64);
    }
    out
}

/// The low `width` hexadecimal digits of `n` appended to `out`.
pub fn push_hex_fixed(out: &mut Vec<char>, n: u64, width: u32)
    ensures
        final(out)@ == old(out)@ + hex_fixed(n as nat, width as nat),
    decreases width,
{
    if width > 0 {
        push_hex_fixed(out, n / 16, width - 1);
        let d = (n % 16) as u32;
        let c = if d < 10 {
            ascii_char((48 + d) as u8)
        } else {
            ascii_char((97 + d - 10) as u8)
        };
        assert(c == hex_char((n % 16) as nat));
        out.push(c);
    }
}

/// Lowercase hexadecimal text of the bytes, two digits per byte.
pub fn hex_lower(b: &[u8]) -> (out: Vec<char>)
    ensures
        out@ == bytes_hex(b@),
{
    let mut out: Vec<char> = Vec::new();
    let mut i: usize = 0;
    while i < b.len()
        invariant
            i <= b.len(),
            out@ == bytes_hex(b@.take(i as int)),
        decreases b.len() - i,
    {
        push_hex_fixed(&mut out, b[i] as u64, 2);
        i += 1;
        assert(b@.take(i as int).drop_last() == b@.take(i - 1));
    }
    assert(b@.take(b.len() as int) == b@);
    out
}

/// Uppercase hexadecimal text of the bytes, two digits per byte.
pub fn hex_upper(b: &[u8]) -> (out: Vec<char>)
    ensures
        out@ == bytes_hex_upper(b@),
{
    let mut out: Vec<char> = Vec::new();
    let mut i: usize = 0;
    while i < b.len()
        invariant
            i <= b.len(),
            out@ == bytes_hex_upper(b@.take(i as int)),
        decreases b.len() - i,
    {
        let x = b[i] as u32;
        let hi = x / 16;
        let lo = x % 16;
        let c1 = if hi < 10 {
            ascii_char((48 + hi) as u8)
        } else {
            ascii_char((65 + hi - 10) as u8)
        };
        let c2 = if lo < 10 {
            ascii_char((48 + lo) as u8)
        } else {
            ascii_char((65 + lo - 10) as u8)
        };
        out.push(c1);
        out.push(c2);
        i += 1;
        assert(b@.take(i as int).drop_last() == b@.take(i - 1));
        assert(b@.take(i as int).last() == b@[i - 1]);
        assert(c1 == hex_char_upper(b@[i - 1] as nat / 16));
        assert(c2 == hex_char_upper(b@[i - 1] as nat % 16));
        assert(out@ =~= bytes_hex_upper(b@.take(i - 1)) + seq![c1, c2]);
    }
    assert(b@.take(b.len() as int) == b@);
    out
}

} // verus!
