//! Choosing the launcher icon among the archive's entries, and naming its exported copy.
use vstd::prelude::*;
use crate::digest::{sha256, sha256_spec};
use crate::order::{sorted_unique, strictly_sorted, vtexts};
use crate::paths::{extension, extension_spec, file_stem, file_stem_spec, sanitize, sanitize_spec};
use crate::text::{
    bytes_hex, chars_eq, chars_of, ends_with, extend_chars, extend_str, hex_lower, split_on,
    starts_with, string_of, index_of_or_len, lemma_index_of_bounds,
};

verus! {

/// Screen densities in the order icons are preferred; the empty one is the plain directory.
pub open spec fn densities() -> Seq<Seq<char>> {
    seq![
        "xxxhdpi"@,
        "xxhdpi"@,
        "xhdpi"@,
        "hdpi"@,
        "mdpi"@,
        "ldpi"@,
        "anydpi"@,
        "tvdpi"@,
        "nodpi"@,
        ""@,
    ]
}

/// Image formats in the order they are preferred.
pub open spec fn icon_exts() -> Seq<Seq<char>> {
    seq!["png"@, "webp"@]
}

/// Resource directories searched when the manifest names no usable icon.
pub open spec fn fallback_bases() -> Seq<Seq<char>> {
    seq!["mipmap"@, "drawable"@]
}

/// Icon names searched when the manifest names no usable icon.
pub open spec fn fallback_names() -> Seq<Seq<char>> {
    seq!["ic_launcher"@, "app_icon"@, "icon"@]
}

/// A resource directory with a density qualifier (none for the empty density).
pub open spec fn qualified(dir: Seq<char>, density: Seq<char>) -> Seq<char> {
    if density.len() == 0 {
        dir
    } else {
        dir + seq!['-'] + density
    }
}

/// `res/<dir>/<name>.<ext>`.
pub open spec fn res_path(dir: Seq<char>, name: Seq<char>, ext: Seq<char>) -> Seq<char> {
    "res/"@ + dir + seq!['/'] + name + seq!['.'] + ext
}

/// Candidate `k` (of 20) for a manifest icon of this resource type and name: densities in
/// order, each with both formats.
pub open spec fn manifest_candidate(icon_type: Seq<char>, name: Seq<char>, k: int) -> Seq<char> {
    res_path(qualified(icon_type, densities()[k / 2]), name, icon_exts()[k % 2])
}

/// Candidate `k` (of 120) of the fallback search: densities, then directories, then names,
/// then formats.
pub open spec fn fallback_candidate(k: int) -> Seq<char> {
    res_path(
        qualified(fallback_bases()[(k % 12) / 6], densities()[k / 12]),
        fallback_names()[(k % 6) / 2],
        icon_exts()[k % 2],
    )
}

/// One of the 120 fallback candidates.
pub open spec fn is_fallback_name(n: Seq<char>) -> bool {
    exists|k: int| 0 <= k < 120 && n == #[trigger] fallback_candidate(k)
}

/// Any PNG or WebP under a `mipmap` or `drawable` resource directory.
pub open spec fn is_loose_icon(n: Seq<char>) -> bool {
    ("res/mipmap"@.is_prefix_of(n) || "res/drawable"@.is_prefix_of(n)) && (".png"@.is_suffix_of(n)
        || ".webp"@.is_suffix_of(n))
}

/// The entries the fallback search chooses from: the fallback candidates present, or when
/// there are none, every loose icon.
pub open spec fn fallback_pool(names: Seq<Seq<char>>) -> Seq<Seq<char>> {
    let named = names.filter(|n: Seq<char>| is_fallback_name(n));
    if named.len() > 0 {
        named
    } else {
        names.filter(|n: Seq<char>| is_loose_icon(n))
    }
}

/// `s` without any leading `c`.
pub open spec fn trim_leading(s: Seq<char>, c: char) -> Seq<char>
    decreases s.len(),
{
    if s.len() > 0 && s[0] == c {
        trim_leading(s.drop_first(), c)
    } else {
        s
    }
}

/// `s` without any number of leading copies of a non-empty `p`.
pub open spec fn trim_prefix_repeated(s: Seq<char>, p: Seq<char>) -> Seq<char>
    decreases s.len(),
{
    if p.len() > 0 && p.is_prefix_of(s) {
        trim_prefix_repeated(s.skip(p.len() as int), p)
    } else {
        s
    }
}

/// The entries that a manifest icon reference points to, in preference order: for a
/// `@type/name` reference, the existing `res/type[-density]/name.(png|webp)` entries; a
/// value without `@` is taken as an entry name itself.
pub open spec fn manifest_icon_spec(icon: Seq<char>, names: Seq<Seq<char>>) -> Seq<Seq<char>> {
    if !(icon.len() > 0 && icon[0] == '@') {
        seq![icon]
    } else {
        let parts = split_on(trim_leading(icon, '@'), '/');
        if parts.len() != 2 {
            Seq::empty()
        } else {
            let icon_type = trim_prefix_repeated(parts[0], "android:"@);
            Seq::new(20, |k: int| manifest_candidate(icon_type, parts[1], k)).filter(
                |c: Seq<char>| names.contains(c),
            )
        }
    }
}

/// The icon entries to try, in order: those the manifest points to, else the sorted
/// distinct entries of the fallback pool.
pub open spec fn icon_candidates_ok(
    icon: Option<Seq<char>>,
    names: Seq<Seq<char>>,
    out: Seq<Seq<char>>,
) -> bool {
    let from_manifest = match icon {
        Some(i) => manifest_icon_spec(i, names),
        None => Seq::empty(),
    };
    if from_manifest.len() > 0 {
        out == from_manifest
    } else {
        strictly_sorted(out) && out.to_set() == fallback_pool(names).to_set()
    }
}

// ---------------------------------------------------------------------------
// Building candidates
// ---------------------------------------------------------------------------
fn density_at(d: usize) -> (r: &'static str)
    requires
        d < 10,
    ensures
        r@ == densities()[d as int],
{
    let t: [&'static str; 10] = [
        "xxxhdpi",
        "xxhdpi",
        "xhdpi",
        "hdpi",
        "mdpi",
        "ldpi",
        "anydpi",
        "tvdpi",
        "nodpi",
        "",
    ];
    t[d]
}

fn ext_at(e: usize) -> (r: &'static str)
    requires
        e < 2,
    ensures
        r@ == icon_exts()[e as int],
{
    if e == 0 {
        "png"
    } else {
        "webp"
    }
}

fn res_path_of(dir: &[char], density: &str, name: &[char], ext: &str) -> (r: Vec<char>)
    ensures
        r@ == res_path(qualified(dir@, density@), name@, ext@),
{
    let mut r: Vec<char> = Vec::new();
    extend_str(&mut r, "res/");
    extend_chars(&mut r, dir);
    let d = chars_of(density);
    if d.len() > 0 {
        r.push('-');
        extend_chars(&mut r, &d);
    }
    r.push('/');
    extend_chars(&mut r, name);
    r.push('.');
    extend_str(&mut r, ext);
    proof {
        if d@.len() == 0 {
            assert(qualified(dir@, density@) == dir@);
        }
    }
    assert(r@ =~= res_path(qualified(dir@, density@), name@, ext@));
    r
}

/// Fallback candidate `k`.
fn fallback_candidate_at(k: usize) -> (r: Vec<char>)
    requires
        k < 120,
    ensures
        r@ == fallback_candidate(k as int),
{
    let base = if (k % 12) / 6 == 0 {
        chars_of("mipmap")
    } else {
        chars_of("drawable")
    };
    let m = (k % 6) / 2;
    let name = if m == 0 {
        chars_of("ic_launcher")
    } else if m == 1 {
        chars_of("app_icon")
    } else {
        chars_of("icon")
    };
    res_path_of(&base, density_at(k / 12), &name, ext_at(k % 2))
}

/// Whether a name is one of the fallback candidates.
fn is_fallback(n: &[char], all: &Vec<Vec<char>>) -> (r: bool)
    requires
        all@.len() == 120,
        forall|k: int| 0 <= k < 120 ==> (#[trigger] all@[k])@ == fallback_candidate(k),
    ensures
        r == is_fallback_name(n@),
{
    let mut k: usize = 0;
    while k < 120
        invariant
            k <= 120,
            all@.len() == 120,
            forall|j: int| 0 <= j < 120 ==> (#[trigger] all@[j])@ == fallback_candidate(j),
            forall|j: int| 0 <= j < k ==> n@ != #[trigger] fallback_candidate(j),
        decreases 120 - k,
    {
        if chars_eq(n, all[k].as_slice()) {
            assert(n@ == fallback_candidate(k as int));
            return true;
        }
        k += 1;
    }
    false
}

/// Whether a name is a loose icon.
fn loose_icon(n: &[char]) -> (r: bool)
    ensures
        r == is_loose_icon(n@),
{
    (starts_with(n, &chars_of("res/mipmap")) || starts_with(n, &chars_of("res/drawable"))) && (
    ends_with(n, &chars_of(".png")) || ends_with(n, &chars_of(".webp")))
}

/// The sorted distinct entries of the fallback search.
pub fn fallback_icon_candidates(names: &Vec<Vec<char>>) -> (out: Vec<Vec<char>>)
    ensures
        strictly_sorted(vtexts(out@)),
        vtexts(out@).to_set() == fallback_pool(vtexts(names@)).to_set(),
{
    let ghost nv = vtexts(names@);
    let mut all: Vec<Vec<char>> = Vec::new();
    let mut k: usize = 0;
    while k < 120
        invariant
            k <= 120,
            all@.len() == k,
            forall|j: int| 0 <= j < k ==> (#[trigger] all@[j])@ == fallback_candidate(j),
        decreases 120 - k,
    {
        all.push(fallback_candidate_at(k));
        k += 1;
    }
    let mut named: Vec<Vec<char>> = Vec::new();
    let mut loose: Vec<Vec<char>> = Vec::new();
    let mut i: usize = 0;
    while i < names.len()
        invariant
            i <= names.len(),
            nv == vtexts(names@),
            all@.len() == 120,
            forall|j: int| 0 <= j < 120 ==> (#[trigger] all@[j])@ == fallback_candidate(j),
            vtexts(named@) == nv.take(i as int).filter(|n: Seq<char>| is_fallback_name(n)),
            vtexts(loose@) == nv.take(i as int).filter(|n: Seq<char>| is_loose_icon(n)),
        decreases names.len() - i,
    {
        let ghost bn = vtexts(named@);
        let ghost bl = vtexts(loose@);
        proof {
            assert(nv.take(i + 1) == nv.take(i as int).push(nv[i as int]));
            nv.take(i as int).lemma_filter_push(nv[i as int], |n: Seq<char>| is_fallback_name(n));
            nv.take(i as int).lemma_filter_push(nv[i as int], |n: Seq<char>| is_loose_icon(n));
        }
        let n = names[i].as_slice();
        if is_fallback(n, &all) {
            let mut c: Vec<char> = Vec::new();
            extend_chars(&mut c, n);
            named.push(c);
            assert(vtexts(named@) =~= bn.push(nv[i as int]));
        }
        if loose_icon(n) {
            let mut c: Vec<char> = Vec::new();
            extend_chars(&mut c, n);
            loose.push(c);
            assert(vtexts(loose@) =~= bl.push(nv[i as int]));
        }
        i += 1;
    }
    assert(nv.take(names.len() as int) == nv);
    if named.len() > 0 {
        sorted_unique(&named)
    } else {
        sorted_unique(&loose)
    }
}

proof fn lemma_split_two(s: Seq<char>, e: int)
    requires
        0 <= e < s.len(),
        s[e] == '/',
        forall|j: int| 0 <= j < s.len() && j != e ==> s[j] != '/',
    ensures
        split_on(s, '/') == seq![s.take(e), s.skip(e + 1)],
{
    lemma_index_of_bounds(s, '/');
    let e2 = index_of_or_len(s, '/');
    assert(e2 == e);
    let t = s.skip(e + 1);
    lemma_index_of_bounds(t, '/');
    if index_of_or_len(t, '/') < t.len() {
        assert(t[index_of_or_len(t, '/')] == s[e + 1 + index_of_or_len(t, '/')]);
    }
    assert(split_on(t, '/') == seq![t]);
}

proof fn lemma_split_not_two(s: Seq<char>)
    requires
        !exists|e: int|
            0 <= e < s.len() && s[e] == '/' && (forall|j: int|
                0 <= j < s.len() && j != e ==> s[j] != '/'),
    ensures
        split_on(s, '/').len() != 2,
{
    lemma_index_of_bounds(s, '/');
    let e = index_of_or_len(s, '/');
    if e < s.len() {
        let t = s.skip(e + 1);
        lemma_index_of_bounds(t, '/');
        let f = index_of_or_len(t, '/');
        if f >= t.len() {
            assert forall|j: int| 0 <= j < s.len() && j != e implies s[j] != '/' by {
                if j > e {
                    assert(s[j] == t[j - e - 1]);
                }
            }
            assert(false);
        } else {
            let u = t.skip(f + 1);
            lemma_split_len(u);
            assert(split_on(s, '/') == seq![s.take(e)] + split_on(t, '/'));
            assert(split_on(t, '/') == seq![t.take(f)] + split_on(u, '/'));
        }
    }
}

proof fn lemma_split_len(s: Seq<char>)
    ensures
        split_on(s, '/').len() >= 1,
    decreases s.len(),
{
    lemma_index_of_bounds(s, '/');
    let e = index_of_or_len(s, '/');
    if e < s.len() {
        lemma_split_len(s.skip(e + 1));
    }
}

/// The entries a manifest icon reference points to.
pub fn from_manifest_icon(icon: &[char], names: &Vec<Vec<char>>) -> (out: Vec<Vec<char>>)
    ensures
        vtexts(out@) == manifest_icon_spec(icon@, vtexts(names@)),
{
    let ghost nv = vtexts(names@);
    if !(icon.len() > 0 && icon[0] == '@') {
        let mut c: Vec<char> = Vec::new();
        extend_chars(&mut c, icon);
        let mut out: Vec<Vec<char>> = Vec::new();
        out.push(c);
        assert(vtexts(out@) =~= seq![icon@]);
        return out;
    }
    // the reference without its leading `@`s
    let mut s: usize = 0;
    assert(icon@.skip(0) == icon@);
    while s < icon.len() && icon[s] == '@'
        invariant
            s <= icon.len(),
            trim_leading(icon@, '@') == trim_leading(icon@.skip(s as int), '@'),
        decreases icon.len() - s,
    {
        assert(icon@.skip(s as int).drop_first() == icon@.skip(s + 1));
        s += 1;
    }
    let mut raw: Vec<char> = Vec::new();
    let mut k = s;
    while k < icon.len()
        invariant
            s <= k <= icon.len(),
            raw@ == icon@.subrange(s as int, k as int),
        decreases icon.len() - k,
    {
        raw.push(icon[k]);
        k += 1;
        assert(icon@.subrange(s as int, k as int) == icon@.subrange(s as int, k - 1).push(icon@[k - 1]));
    }
    assert(raw@ == icon@.skip(s as int));
    assert(raw@ == trim_leading(icon@, '@')) by {
        assert(icon@.skip(0) == icon@);
    }
    // exactly one `/` splits it into a type and a name
    let mut e: usize = 0;
    while e < raw.len() && raw[e] != '/'
        invariant
            e <= raw.len(),
            forall|j: int| 0 <= j < e ==> raw@[j] != '/',
        decreases raw.len() - e,
    {
        e += 1;
    }
    let mut j = e + 1;
    let mut single = e < raw.len();
    while single && j < raw.len()
        invariant
            e < raw.len() ==> e + 1 <= j,
            j <= raw.len() + 1,
            single ==> e < raw.len() && forall|x: int| e < x < j && x < raw.len() ==> raw@[x] != '/',
            e < raw.len() ==> raw@[e as int] == '/',
            !single ==> !exists|p: int|
                0 <= p < raw@.len() && raw@[p] == '/' && (forall|q: int|
                    0 <= q < raw@.len() && q != p ==> raw@[q] != '/'),
            forall|x: int| 0 <= x < e ==> raw@[x] != '/',
        decreases raw.len() + 1 - j,
    {
        if raw[j] == '/' {
            single = false;
            assert forall|p: int|
                0 <= p < raw@.len() && raw@[p] == '/' implies !(forall|q: int|
                0 <= q < raw@.len() && q != p ==> raw@[q] != '/') by {
                if p != e {
                    assert(raw@[e as int] == '/');
                } else {
                    assert(raw@[j as int] == '/');
                }
            }
        }
        j += 1;
    }
    if !single {
        proof {
            if e >= raw@.len() {
                assert forall|p: int|
                    0 <= p < raw@.len() && raw@[p] == '/' implies false by {}
            }
            lemma_split_not_two(raw@);
        }
        return Vec::new();
    }
    proof {
        lemma_split_two(raw@, e as int);
    }
    let mut head: Vec<char> = Vec::new();
    let mut x: usize = 0;
    while x < e
        invariant
            x <= e < raw.len(),
            head@ == raw@.take(x as int),
        decreases e - x,
    {
        head.push(raw[x]);
        x += 1;
        assert(raw@.take(x as int) == raw@.take(x - 1).push(raw@[x - 1]));
    }
    let mut name: Vec<char> = Vec::new();
    let mut y = e + 1;
    while y < raw.len()
        invariant
            e + 1 <= y <= raw.len(),
            name@ == raw@.subrange(e + 1, y as int),
        decreases raw.len() - y,
    {
        name.push(raw[y]);
        y += 1;
        assert(raw@.subrange(e + 1, y as int) == raw@.subrange(e + 1, y - 1).push(raw@[y - 1]));
    }
    assert(name@ == raw@.skip(e + 1));
    // the resource type without any `android:` prefix
    let ap = chars_of("android:");
    proof {
        reveal_strlit("android:");
    }
    let mut t: usize = 0;
    assert(head@.skip(0) == head@);
    while head.len() - t >= 8 && crate::text::matches_at(&head, &ap, t)
        invariant
            t <= head.len(),
            ap@ == "android:"@,
            ap@.len() == 8,
            trim_prefix_repeated(head@, ap@) == trim_prefix_repeated(head@.skip(t as int), ap@),
        decreases head.len() - t,
    {
        assert(head@.skip(t as int).take(8) == head@.subrange(t as int, t + 8));
        assert(head@.skip(t as int).skip(8) == head@.skip(t + 8));
        t += 8;
    }
    proof {
        let r = head@.skip(t as int);
        if ap@.is_prefix_of(r) {
            assert(r.subrange(0, 8) == head@.subrange(t as int, t + 8));
            assert(crate::text::occurs_at(head@, ap@, t as int));
        }
    }
    let mut icon_type: Vec<char> = Vec::new();
    let mut z = t;
    while z < head.len()
        invariant
            t <= z <= head.len(),
            icon_type@ == head@.subrange(t as int, z as int),
        decreases head.len() - z,
    {
        icon_type.push(head[z]);
        z += 1;
        assert(head@.subrange(t as int, z as int) == head@.subrange(t as int, z - 1).push(head@[z - 1]));
    }
    assert(icon_type@ == head@.skip(t as int));
    // candidates in preference order, kept when the archive has them
    let ghost all = Seq::new(20, |k: int| manifest_candidate(icon_type@, name@, k));
    let mut out: Vec<Vec<char>> = Vec::new();
    let mut c: usize = 0;
    while c < 20
        invariant
            c <= 20,
            nv == vtexts(names@),
            all == Seq::new(20, |k: int| manifest_candidate(icon_type@, name@, k)),
            vtexts(out@) == all.take(c as int).filter(|x: Seq<char>| nv.contains(x)),
        decreases 20 - c,
    {
        let cand = res_path_of(&icon_type, density_at(c / 2), &name, ext_at(c % 2));
        let ghost before = vtexts(out@);
        proof {
            assert(all.take(c + 1) == all.take(c as int).push(all[c as int]));
            all.take(c as int).lemma_filter_push(all[c as int], |x: Seq<char>| nv.contains(x));
        }
        let mut found = false;
        let mut q: usize = 0;
        while q < names.len()
            invariant
                q <= names.len(),
                nv == vtexts(names@),
                !found ==> forall|w: int| 0 <= w < q ==> nv[w] != cand@,
                found ==> nv.contains(cand@),
            decreases names.len() - q,
        {
            if !found && chars_eq(names[q].as_slice(), &cand) {
                found = true;
                assert(nv[q as int] == cand@);
            }
            q += 1;
        }
        if found {
            out.push(cand);
            assert(vtexts(out@) =~= before.push(all[c as int]));
        }
        c += 1;
    }
    assert(all.take(20) == all);
    out
}

/// The icon entries to try, in order.
pub fn icon_candidates(icon: Option<&String>, names: &Vec<Vec<char>>) -> (out: Vec<Vec<char>>)
    ensures
        icon_candidates_ok(
            match icon {
                Some(s) => Some(s@),
                None => None,
            },
            vtexts(names@),
            vtexts(out@),
        ),
{
    let from = match icon {
        Some(i) => from_manifest_icon(&chars_of(i.as_str()), names),
        None => Vec::new(),
    };
    if from.len() > 0 {
        return from;
    }
    fallback_icon_candidates(names)
}

// ---------------------------------------------------------------------------
// The exported copy's file name
// ---------------------------------------------------------------------------
/// `<stem>-<12 hex digits of SHA-256 of the entry name>.<entry extension>`, with the APK's
/// file stem sanitized (`app` when it has none) and `png` for an entry without extension.
pub open spec fn icon_file_name_spec(apk_path: Seq<char>, entry: Seq<char>, windows: bool) -> Seq<
    char,
> {
    let stem = match file_stem_spec(apk_path, windows) {
        Some(s) => s,
        None => "app"@,
    };
    let ext = match extension_spec(entry, windows) {
        Some(e) => e,
        None => "png"@,
    };
    sanitize_spec(stem) + seq!['-'] + bytes_hex(sha256_spec(vstd::utf8::encode_utf8(entry))).take(
        12,
    ) + seq!['.'] + ext
}

proof fn lemma_bytes_hex_len(b: Seq<u8>)
    ensures
        bytes_hex(b).len() == 2 * b.len(),
    decreases b.len(),
{
    if b.len() > 0 {
        lemma_bytes_hex_len(b.drop_last());
        lemma_hex_fixed_len(b.last() as nat, 2);
    }
}

proof fn lemma_hex_fixed_len(n: nat, w: nat)
    ensures
        crate::text::hex_fixed(n, w).len() == w,
    decreases w,
{
    if w > 0 {
        lemma_hex_fixed_len(n / 16, (w - 1) as nat);
    }
}

/// The file name under which an icon entry of this APK is exported.
pub fn icon_file_name(apk_path: &[char], entry_name: &str, windows: bool) -> (r: String)
    ensures
        r@ == icon_file_name_spec(apk_path@, entry_name@, windows),
{
    let stem = match file_stem(apk_path, windows) {
        Some(s) => s,
        None => chars_of("app"),
    };
    let digest = sha256(entry_name.as_bytes());
    let hex = hex_lower(&digest);
    proof {
        lemma_bytes_hex_len(digest@);
    }
    let ent = chars_of(entry_name);
    let ext = match extension(&ent, windows) {
        Some(e) => e,
        None => chars_of("png"),
    };
    let mut out = sanitize(&stem);
    out.push('-');
    let mut i: usize = 0;
    let ghost base = out@;
    while i < 12
        invariant
            i <= 12,
            hex@.len() == 64,
            out@ == base + hex@.take(i as int),
        decreases 12 - i,
    {
        out.push(hex[i]);
        i += 1;
        assert(hex@.take(i as int) == hex@.take(i - 1).push(hex@[i - 1]));
    }
    out.push('.');
    extend_chars(&mut out, &ext);
    string_of(&out)
}

} // verus!
