//! What an `AndroidManifest.xml` says, and how its elements fill it in.
use vstd::prelude::*;
use crate::text::{chars_eq, chars_of, string_of};

verus! {

/// The attributes of one element, in order; a later entry for the same key wins.
pub type Attrs = Vec<(Vec<char>, Vec<char>)>;

/// Attributes as plain values.
pub type AttrsView = Seq<(Seq<char>, Seq<char>)>;

/// What the manifest declares. `meta_data` lists `meta-data` name/value pairs in the order
/// they were met; a later pair for the same name overrides an earlier one.
pub struct ManifestInfo {
    pub package_name: Option<String>,
    pub app_name: Option<String>,
    pub app_icon: Option<String>,
    pub min_sdk_version: Option<i32>,
    pub target_sdk_version: Option<i32>,
    pub compile_sdk_version: Option<i32>,
    pub version_code: Option<i64>,
    pub version_name: Option<String>,
    pub permissions: Vec<String>,
    pub meta_data: Vec<(String, String)>,
}

/// The manifest as plain values.
pub struct ManifestView {
    pub package_name: Option<Seq<char>>,
    pub app_name: Option<Seq<char>>,
    pub app_icon: Option<Seq<char>>,
    pub min_sdk_version: Option<i32>,
    pub target_sdk_version: Option<i32>,
    pub compile_sdk_version: Option<i32>,
    pub version_code: Option<i64>,
    pub version_name: Option<Seq<char>>,
    pub permissions: Seq<Seq<char>>,
    pub meta_data: AttrsView,
}

pub open spec fn opt_text(o: Option<String>) -> Option<Seq<char>> {
    match o {
        Some(s) => Some(s@),
        None => None,
    }
}

pub open spec fn pairs_view(v: Seq<(String, String)>) -> AttrsView {
    v.map_values(|p: (String, String)| (p.0@, p.1@))
}

pub open spec fn attrs_view(v: Seq<(Vec<char>, Vec<char>)>) -> AttrsView {
    v.map_values(|p: (Vec<char>, Vec<char>)| (p.0@, p.1@))
}

impl View for ManifestInfo {
    type V = ManifestView;

    open spec fn view(&self) -> ManifestView {
        ManifestView {
            package_name: opt_text(self.package_name),
            app_name: opt_text(self.app_name),
            app_icon: opt_text(self.app_icon),
            min_sdk_version: self.min_sdk_version,
            target_sdk_version: self.target_sdk_version,
            compile_sdk_version: self.compile_sdk_version,
            version_code: self.version_code,
            version_name: opt_text(self.version_name),
            permissions: self.permissions@.map_values(|s: String| s@),
            meta_data: pairs_view(self.meta_data@),
        }
    }
}

/// A manifest that declares nothing.
pub open spec fn empty_manifest() -> ManifestView {
    ManifestView {
        package_name: None,
        app_name: None,
        app_icon: None,
        min_sdk_version: None,
        target_sdk_version: None,
        compile_sdk_version: None,
        version_code: None,
        version_name: None,
        permissions: Seq::empty(),
        meta_data: Seq::empty(),
    }
}

/// The value of the last pair with this key.
pub open spec fn lookup(attrs: AttrsView, key: Seq<char>) -> Option<Seq<char>>
    decreases attrs.len(),
{
    if attrs.len() == 0 {
        None
    } else if attrs.last().0 == key {
        Some(attrs.last().1)
    } else {
        lookup(attrs.drop_last(), key)
    }
}

// ---------------------------------------------------------------------------
// Integers as written in manifests
// ---------------------------------------------------------------------------
/// The value of a digit in the given radix (letters either case), if it is one.
pub open spec fn digit_value(c: char, radix: nat) -> Option<nat> {
    let v: int = if '0' <= c && c <= '9' {
        c as int - '0' as int
    } else if 'a' <= c && c <= 'z' {
        c as int - 'a' as int + 10
    } else if 'A' <= c && c <= 'Z' {
        c as int - 'A' as int + 10
    } else {
        99
    };
    if v < radix {
        Some(v as nat)
    } else {
        None
    }
}

/// Every character is a digit of the radix.
pub open spec fn all_digits(s: Seq<char>, radix: nat) -> bool {
    forall|i: int| 0 <= i < s.len() ==> (#[trigger] digit_value(s[i], radix)) is Some
}

/// The number the digits denote.
pub open spec fn digits_value(s: Seq<char>, radix: nat) -> nat
    decreases s.len(),
{
    if s.len() == 0 {
        0
    } else {
        digits_value(s.drop_last(), radix) * radix + digit_value(s.last(), radix).unwrap_or(0)
    }
}

/// An optionally signed (`+` or `-`) non-empty run of digits, as `from_str_radix` reads it.
pub open spec fn parse_radix(s: Seq<char>, radix: nat) -> Option<int> {
    let neg = s.len() > 0 && s[0] == '-';
    let body = if s.len() > 0 && (s[0] == '-' || s[0] == '+') {
        s.drop_first()
    } else {
        s
    };
    if body.len() == 0 || !all_digits(body, radix) {
        None
    } else if neg {
        Some(-(digits_value(body, radix) as int))
    } else {
        Some(digits_value(body, radix) as int)
    }
}

/// A manifest integer: hexadecimal after a `0x` prefix, else decimal.
pub open spec fn parse_manifest_int(s: Seq<char>) -> Option<int> {
    if seq!['0', 'x'].is_prefix_of(s) {
        parse_radix(s.skip(2), 16)
    } else {
        parse_radix(s, 10)
    }
}

/// `parse_i32` of the manifest reader: the integer when it fits in `i32`.
pub open spec fn parse_i32_spec(s: Seq<char>) -> Option<i32> {
    match parse_manifest_int(s) {
        Some(v) => if i32::MIN <= v <= i32::MAX {
            Some(v as i32)
        } else {
            None
        },
        None => None,
    }
}

/// `parse_i64` of the manifest reader: the integer when it fits in `i64`.
pub open spec fn parse_i64_spec(s: Seq<char>) -> Option<i64> {
    match parse_manifest_int(s) {
        Some(v) => if i64::MIN <= v <= i64::MAX {
            Some(v as i64)
        } else {
            None
        },
        None => None,
    }
}

proof fn lemma_digits_value_mono(s: Seq<char>, radix: nat, i: int)
    requires
        0 <= i <= s.len(),
        radix >= 1,
    ensures
        digits_value(s.take(i), radix) <= digits_value(s, radix),
    decreases s.len() - i,
{
    if i < s.len() {
        lemma_digits_value_mono(s, radix, i + 1);
        let t = s.take(i + 1);
        assert(t.drop_last() == s.take(i));
        assert(digits_value(t, radix) == digits_value(s.take(i), radix) * radix
            + digit_value(t.last(), radix).unwrap_or(0));
        assert(digits_value(s.take(i), radix) * radix >= digits_value(s.take(i), radix))
            by (nonlinear_arith)
            requires
                radix >= 1,
        ;
    } else {
        assert(s.take(i) == s);
    }
}

/// The value of a digit character in the radix.
fn digit_of(c: char, radix: u32) -> (d: Option<u32>)
    requires
        radix == 10 || radix == 16,
    ensures
        match digit_value(c, radix as nat) {
            Some(v) => d == Some(v as u32),
            None => d is None,
        },
{
    let v: u32 = if '0' <= c && c <= '9' {
        (c as u32) - ('0' as u32)
    } else if 'a' <= c && c <= 'z' {
        (c as u32) - ('a' as u32) + 10
    } else if 'A' <= c && c <= 'Z' {
        (c as u32) - ('A' as u32) + 10
    } else {
        99
    };
    if v < radix {
        Some(v)
    } else {
        None
    }
}

/// The integer `parse_radix` denotes when its magnitude is at most 2^64, else `None`.
fn parse_radix_bounded(s: &[char], radix: u32) -> (r: Option<i128>)
    requires
        radix == 10 || radix == 16,
    ensures
        match parse_radix(s@, radix as nat) {
            Some(v) => if -0x1_0000_0000_0000_0000 <= v <= 0x1_0000_0000_0000_0000 {
                r == Some(v as i128)
            } else {
                r is None
            },
            None => r is None,
        },
{
    let neg = s.len() > 0 && s[0] == '-';
    let start: usize = if s.len() > 0 && (s[0] == '-' || s[0] == '+') {
        1
    } else {
        0
    };
    let ghost body = s@.skip(start as int);
    assert(body == (if s@.len() > 0 && (s@[0] == '-' || s@[0] == '+') {
        s@.drop_first()
    } else {
        s@
    }));
    if start >= s.len() {
        return None;
    }
    let mut acc: u128 = 0;
    let mut i = start;
    while i < s.len()
        invariant
            start <= i <= s.len(),
            body == s@.skip(start as int),
            body == (if s@.len() > 0 && (s@[0] == '-' || s@[0] == '+') {
                s@.drop_first()
            } else {
                s@
            }),
            body.len() > 0,
            neg == (s@.len() > 0 && s@[0] == '-'),
            radix == 10 || radix == 16,
            all_digits(body.take(i - start), radix as nat),
            acc == digits_value(body.take(i - start), radix as nat),
            acc <= 0x1_0000_0000_0000_0000,
        decreases s.len() - i,
    {
        let ghost k = i - start;
        assert(body.take(k + 1).drop_last() == body.take(k));
        assert(body[k] == s@[i as int]);
        match digit_of(s[i], radix) {
            None => {
                assert(!all_digits(body, radix as nat)) by {
                    assert(digit_value(body[k], radix as nat) is None);
                }
                return None;
            },
            Some(d) => {
                let next = acc * (radix as u128) + (d as u128);
                i += 1;
                assert(digits_value(body.take(k + 1), radix as nat) == acc * radix + d);
                assert forall|j: int| 0 <= j < body.take(k + 1).len() implies (#[trigger] digit_value(
                    body.take(k + 1)[j],
                    radix as nat,
                )) is Some by {
                    if j < k {
                        assert(body.take(k + 1)[j] == body.take(k)[j]);
                    }
                }
                if next > 0x1_0000_0000_0000_0000 {
                    proof {
                        lemma_digits_value_mono(body, radix as nat, k + 1);
                    }
                    return None;
                }
                acc = next;
            },
        }
    }
    assert(body.take(s.len() - start) == body);
    if neg {
        Some(0 - (acc as i128))
    } else {
        Some(acc as i128)
    }
}

/// The characters after a leading `0x`, if there is one.
fn hex_body(s: &[char]) -> (r: Option<Vec<char>>)
    ensures
        seq!['0', 'x'].is_prefix_of(s@) ==> (r matches Some(b) && b@ == s@.skip(2)),
        !seq!['0', 'x'].is_prefix_of(s@) ==> r is None,
{
    if s.len() >= 2 && s[0] == '0' && s[1] == 'x' {
        let mut b: Vec<char> = Vec::new();
        let mut i: usize = 2;
        while i < s.len()
            invariant
                2 <= i <= s.len(),
                b@ == s@.subrange(2, i as int),
            decreases s.len() - i,
        {
            b.push(s[i]);
            i += 1;
            assert(s@.subrange(2, i as int) == s@.subrange(2, i - 1).push(s@[i - 1]));
        }
        assert(s@.subrange(0, 2) =~= seq!['0', 'x']);
        Some(b)
    } else {
        proof {
            if seq!['0', 'x'].is_prefix_of(s@) {
                assert(s@.subrange(0, 2)[0] == '0');
                assert(s@.subrange(0, 2)[1] == 'x');
            }
        }
        None
    }
}

fn parse_manifest_int_bounded(s: &[char]) -> (r: Option<i128>)
    ensures
        match parse_manifest_int(s@) {
            Some(v) => if -0x1_0000_0000_0000_0000 <= v <= 0x1_0000_0000_0000_0000 {
                r == Some(v as i128)
            } else {
                r is None
            },
            None => r is None,
        },
{
    match hex_body(s) {
        Some(b) => parse_radix_bounded(&b, 16),
        None => parse_radix_bounded(s, 10),
    }
}

/// A manifest integer that fits in `i32` (hexadecimal after `0x`, else decimal).
pub fn parse_i32(s: &[char]) -> (r: Option<i32>)
    ensures
        r == parse_i32_spec(s@),
{
    match parse_manifest_int_bounded(s) {
        Some(v) => if -0x8000_0000 <= v && v <= 0x7fff_ffff {
            Some(v as i32)
        } else {
            None
        },
        None => None,
    }
}

/// A manifest integer that fits in `i64` (hexadecimal after `0x`, else decimal).
pub fn parse_i64(s: &[char]) -> (r: Option<i64>)
    ensures
        r == parse_i64_spec(s@),
{
    match parse_manifest_int_bounded(s) {
        Some(v) => if -0x8000_0000_0000_0000 <= v && v <= 0x7fff_ffff_ffff_ffff {
            Some(v as i64)
        } else {
            None
        },
        None => None,
    }
}

// ---------------------------------------------------------------------------
// Names and attributes
// ---------------------------------------------------------------------------
/// The part of a name after its last `:` (the whole name when there is none).
pub open spec fn strip_namespace_spec(name: Seq<char>) -> Seq<char>
    decreases name.len(),
{
    if name.len() == 0 {
        name
    } else if name.last() == ':' {
        Seq::empty()
    } else {
        strip_namespace_spec(name.drop_last()).push(name.last())
    }
}

/// The name without its namespace prefix.
pub fn strip_namespace(name: &[char]) -> (r: Vec<char>)
    ensures
        r@ == strip_namespace_spec(name@),
{
    let mut k: usize = name.len();
    while k > 0 && name[k - 1] != ':'
        invariant
            k <= name.len(),
            forall|j: int| k <= j < name.len() ==> name@[j] != ':',
        decreases k,
    {
        k -= 1;
    }
    let mut r: Vec<char> = Vec::new();
    let mut i = k;
    while i < name.len()
        invariant
            k <= i <= name.len(),
            r@ == name@.subrange(k as int, i as int),
        decreases name.len() - i,
    {
        r.push(name[i]);
        i += 1;
        assert(name@.subrange(k as int, i as int) == name@.subrange(k as int, i - 1).push(
            name@[i - 1],
        ));
    }
    proof {
        lemma_strip_namespace(name@, k as int);
    }
    r
}

proof fn lemma_strip_namespace(name: Seq<char>, k: int)
    requires
        0 <= k <= name.len(),
        k == 0 || name[k - 1] == ':',
        forall|j: int| k <= j < name.len() ==> name[j] != ':',
    ensures
        strip_namespace_spec(name) == name.subrange(k, name.len() as int),
    decreases name.len(),
{
    if name.len() == 0 {
    } else if name.last() == ':' {
        assert(k == name.len());
    } else {
        if k == name.len() {
            assert(false);
        }
        lemma_strip_namespace(name.drop_last(), k);
        assert(name.drop_last().subrange(k, name.len() - 1).push(name.last()) =~= name.subrange(
            k,
            name.len() as int,
        ));
    }
}

/// The value of the last attribute with this key.
pub fn attr_get<'a>(attrs: &'a Attrs, key: &str) -> (r: Option<&'a Vec<char>>)
    ensures
        match lookup(attrs_view(attrs@), key@) {
            Some(v) => r matches Some(x) && x@ == v,
            None => r is None,
        },
{
    let k = chars_of(key);
    let ghost av = attrs_view(attrs@);
    let mut i: usize = attrs.len();
    assert(av.take(i as int) == av);
    while i > 0
        invariant
            i <= attrs.len(),
            av == attrs_view(attrs@),
            k@ == key@,
            lookup(av, key@) == lookup(av.take(i as int), key@),
        decreases i,
    {
        let ghost t = av.take(i as int);
        assert(t.last() == av[i - 1]);
        assert(t.drop_last() == av.take(i - 1));
        if chars_eq(attrs[i - 1].0.as_slice(), &k) {
            return Some(&attrs[i - 1].1);
        }
        i -= 1;
    }
    None
}

// ---------------------------------------------------------------------------
// Applying one element
// ---------------------------------------------------------------------------
/// The manifest after one element with these attributes.
pub open spec fn apply_tag_spec(tag: Seq<char>, attrs: AttrsView, m: ManifestView) -> ManifestView {
    if tag == "manifest"@ {
        let m1 = match lookup(attrs, "package"@) {
            Some(v) => ManifestView { package_name: Some(v), ..m },
            None => m,
        };
        let m2 = match lookup(attrs, "versionCode"@) {
            Some(v) => ManifestView { version_code: parse_i64_spec(v), ..m1 },
            None => m1,
        };
        let m3 = match lookup(attrs, "versionName"@) {
            Some(v) => ManifestView { version_name: Some(v), ..m2 },
            None => m2,
        };
        match lookup(attrs, "compileSdkVersion"@) {
            Some(v) => ManifestView { compile_sdk_version: parse_i32_spec(v), ..m3 },
            None => m3,
        }
    } else if tag == "uses-sdk"@ {
        let m1 = match lookup(attrs, "minSdkVersion"@) {
            Some(v) => ManifestView { min_sdk_version: parse_i32_spec(v), ..m },
            None => m,
        };
        match lookup(attrs, "targetSdkVersion"@) {
            Some(v) => ManifestView { target_sdk_version: parse_i32_spec(v), ..m1 },
            None => m1,
        }
    } else if tag == "uses-permission"@ {
        match lookup(attrs, "name"@) {
            Some(v) => ManifestView { permissions: m.permissions.push(v), ..m },
            None => m,
        }
    } else if tag == "application"@ {
        let m1 = match lookup(attrs, "label"@) {
            Some(v) => ManifestView { app_name: Some(v), ..m },
            None => m,
        };
        match lookup(attrs, "icon"@) {
            Some(v) => ManifestView { app_icon: Some(v), ..m1 },
            None => m1,
        }
    } else if tag == "meta-data"@ {
        match (lookup(attrs, "name"@), lookup(attrs, "value"@)) {
            (Some(n), Some(v)) => ManifestView { meta_data: m.meta_data.push((n, v)), ..m },
            _ => m,
        }
    } else {
        m
    }
}

/// Fills the manifest in from one element with these attributes.
pub fn apply_tag(tag: &[char], attrs: &Attrs, info: &mut ManifestInfo)
    ensures
        final(info)@ == apply_tag_spec(tag@, attrs_view(attrs@), old(info)@),
{
    let ghost av = attrs_view(attrs@);
    if chars_eq(tag, &chars_of("manifest")) {
        if let Some(v) = attr_get(attrs, "package") {
            info.package_name = Some(string_of(v));
        }
        if let Some(v) = attr_get(attrs, "versionCode") {
            info.version_code = parse_i64(v);
        }
        if let Some(v) = attr_get(attrs, "versionName") {
            info.version_name = Some(string_of(v));
        }
        if let Some(v) = attr_get(attrs, "compileSdkVersion") {
            info.compile_sdk_version = parse_i32(v);
        }
    } else if chars_eq(tag, &chars_of("uses-sdk")) {
        if let Some(v) = attr_get(attrs, "minSdkVersion") {
            info.min_sdk_version = parse_i32(v);
        }
        if let Some(v) = attr_get(attrs, "targetSdkVersion") {
            info.target_sdk_version = parse_i32(v);
        }
    } else if chars_eq(tag, &chars_of("uses-permission")) {
        if let Some(v) = attr_get(attrs, "name") {
            let ghost before = info.permissions@;
            info.permissions.push(string_of(v));
            assert(info.permissions@.map_values(|s: String| s@) =~= before.map_values(
                |s: String| s@,
            ).push(v@));
        }
    } else if chars_eq(tag, &chars_of("application")) {
        if let Some(v) = attr_get(attrs, "label") {
            info.app_name = Some(string_of(v));
        }
        if let Some(v) = attr_get(attrs, "icon") {
            info.app_icon = Some(string_of(v));
        }
    } else if chars_eq(tag, &chars_of("meta-data")) {
        if let Some(n) = attr_get(attrs, "name") {
            if let Some(v) = attr_get(attrs, "value") {
                let ghost before = info.meta_data@;
                info.meta_data.push((string_of(n), string_of(v)));
                assert(pairs_view(info.meta_data@) =~= pairs_view(before).push((n@, v@)));
            }
        }
    }
}

/// A manifest that declares nothing yet.
pub fn new_manifest() -> (m: ManifestInfo)
    ensures
        m@ == empty_manifest(),
{
    let m = ManifestInfo {
        package_name: None,
        app_name: None,
        app_icon: None,
        min_sdk_version: None,
        target_sdk_version: None,
        compile_sdk_version: None,
        version_code: None,
        version_name: None,
        permissions: Vec::new(),
        meta_data: Vec::new(),
    };
    assert(m@.permissions =~= Seq::<Seq<char>>::empty());
    assert(m@.meta_data =~= Seq::<(Seq<char>, Seq<char>)>::empty());
    m
}

} // verus!
