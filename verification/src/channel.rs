//! Which distribution channel an APK was built for. Sources in priority order: manifest
//! `meta-data`, a `META-INF/channel_*` entry, a vendor name in the file name.
use vstd::prelude::*;
use crate::manifest::{lookup, pairs_view, AttrsView, ManifestInfo, ManifestView};
use crate::paths::{file_stem, file_stem_spec};
use crate::text::{
    blank, chars_eq, chars_of, contains, contains_seq, is_blank, starts_with, string_from, string_of,
};
use crate::unicode::{to_lowercase, unicode_lower};
use crate::warnings::{push_warning, texts, with_warning, CHANNEL_NOT_FOUND};

verus! {

/// The meta-data names that carry a channel, in priority order.
pub open spec fn channel_keys() -> Seq<Seq<char>> {
    seq!["UMENG_CHANNEL"@, "CHANNEL"@, "channel"@, "umeng_channel"@]
}

/// The vendor names looked for in file names, in priority order.
pub open spec fn channel_tokens() -> Seq<Seq<char>> {
    seq![
        "huawei"@,
        "xiaomi"@,
        "oppo"@,
        "vivo"@,
        "tencent"@,
        "baidu"@,
        "googleplay"@,
        "samsung"@,
    ]
}

/// The value of the first key that is set to something other than whitespace.
pub open spec fn meta_channel_from(meta: AttrsView, keys: Seq<Seq<char>>) -> Option<Seq<char>>
    decreases keys.len(),
{
    if keys.len() == 0 {
        None
    } else {
        match lookup(meta, keys[0]) {
            Some(v) => if !is_blank(v) {
                Some(v)
            } else {
                meta_channel_from(meta, keys.drop_first())
            },
            None => meta_channel_from(meta, keys.drop_first()),
        }
    }
}

/// The channel the manifest's meta-data names.
pub open spec fn meta_channel(m: ManifestView) -> Option<Seq<char>> {
    meta_channel_from(m.meta_data, channel_keys())
}

/// The prefix of channel marker entries.
pub open spec fn marker_prefix() -> Seq<char> {
    "META-INF/channel_"@
}

/// The suffix of the first entry named `META-INF/channel_<suffix>` with a non-empty suffix.
pub open spec fn archive_channel(names: Seq<Seq<char>>) -> Option<Seq<char>>
    decreases names.len(),
{
    if names.len() == 0 {
        None
    } else if marker_prefix().is_prefix_of(names[0]) && names[0].len() > marker_prefix().len() {
        Some(names[0].skip(marker_prefix().len() as int))
    } else {
        archive_channel(names.drop_first())
    }
}

/// The first token that occurs in the text.
pub open spec fn first_token_in(text: Seq<char>, tokens: Seq<Seq<char>>) -> Option<Seq<char>>
    decreases tokens.len(),
{
    if tokens.len() == 0 {
        None
    } else if contains_seq(text, tokens[0]) {
        Some(tokens[0])
    } else {
        first_token_in(text, tokens.drop_first())
    }
}

/// The vendor token in the lowercased file stem of the path.
pub open spec fn filename_channel(path: Seq<char>, windows: bool) -> Option<Seq<char>> {
    match file_stem_spec(path, windows) {
        Some(stem) => first_token_in(unicode_lower(stem), channel_tokens()),
        None => None,
    }
}

/// The channel from the highest-priority source that names one.
pub open spec fn channel_spec(
    m: ManifestView,
    path: Seq<char>,
    names: Seq<Seq<char>>,
    windows: bool,
) -> Option<Seq<char>> {
    match meta_channel(m) {
        Some(c) => Some(c),
        None => match archive_channel(names) {
            Some(c) => Some(c),
            None => filename_channel(path, windows),
        },
    }
}

fn meta_lookup(meta: &Vec<(String, String)>, key: &str) -> (r: Option<Vec<char>>)
    ensures
        match lookup(pairs_view(meta@), key@) {
            Some(v) => r matches Some(x) && x@ == v,
            None => r is None,
        },
{
    let k = chars_of(key);
    let ghost mv = pairs_view(meta@);
    let mut i: usize = meta.len();
    assert(mv.take(i as int) == mv);
    while i > 0
        invariant
            i <= meta.len(),
            mv == pairs_view(meta@),
            k@ == key@,
            lookup(mv, key@) == lookup(mv.take(i as int), key@),
        decreases i,
    {
        let ghost t = mv.take(i as int);
        assert(t.last() == mv[i - 1]);
        assert(t.drop_last() == mv.take(i - 1));
        let name = chars_of(meta[i - 1].0.as_str());
        if chars_eq(&name, &k) {
            return Some(chars_of(meta[i - 1].1.as_str()));
        }
        i -= 1;
    }
    None
}

/// The channel named by the manifest's meta-data.
pub fn from_manifest_meta(manifest: &ManifestInfo) -> (r: Option<String>)
    ensures
        match meta_channel(manifest@) {
            Some(c) => r matches Some(x) && x@ == c,
            None => r is None,
        },
{
    let keys: [&str; 4] = ["UMENG_CHANNEL", "CHANNEL", "channel", "umeng_channel"];
    let ghost ks = channel_keys();
    assert(ks.skip(0) == ks);
    let mut i: usize = 0;
    while i < 4
        invariant
            i <= 4,
            ks == channel_keys(),
            forall|j: int| 0 <= j < 4 ==> (#[trigger] keys@[j])@ == ks[j],
            meta_channel(manifest@) == meta_channel_from(manifest@.meta_data, ks.skip(i as int)),
        decreases 4 - i,
    {
        assert(ks.skip(i as int)[0] == ks[i as int]);
        assert(ks.skip(i as int).drop_first() == ks.skip(i + 1));
        if let Some(v) = meta_lookup(&manifest.meta_data, keys[i]) {
            if !blank(&v) {
                return Some(string_of(&v));
            }
        }
        i += 1;
    }
    None
}

/// The channel named by a `META-INF/channel_*` entry.
pub fn from_archive_file(names: &Vec<String>) -> (r: Option<String>)
    ensures
        match archive_channel(names@.map_values(|s: String| s@)) {
            Some(c) => r matches Some(x) && x@ == c,
            None => r is None,
        },
{
    let ghost nv = names@.map_values(|s: String| s@);
    let prefix = chars_of("META-INF/channel_");
    proof {
        reveal_strlit("META-INF/channel_");
    }
    assert(nv.skip(0) == nv);
    let mut i: usize = 0;
    while i < names.len()
        invariant
            i <= names.len(),
            nv == names@.map_values(|s: String| s@),
            prefix@ == marker_prefix(),
            prefix@.len() == 17,
            archive_channel(nv) == archive_channel(nv.skip(i as int)),
        decreases names.len() - i,
    {
        assert(nv.skip(i as int)[0] == names@[i as int]@);
        assert(nv.skip(i as int).drop_first() == nv.skip(i + 1));
        let n = chars_of(names[i].as_str());
        if starts_with(&n, &prefix) && n.len() > 17 {
            let mut rest: Vec<char> = Vec::new();
            let mut k: usize = 17;
            while k < n.len()
                invariant
                    17 <= k <= n.len(),
                    rest@ == n@.subrange(17, k as int),
                decreases n.len() - k,
            {
                rest.push(n[k]);
                k += 1;
                assert(n@.subrange(17, k as int) == n@.subrange(17, k - 1).push(n@[k - 1]));
            }
            assert(n@.subrange(17, n@.len() as int) == n@.skip(17));
            return Some(string_of(&rest));
        }
        i += 1;
    }
    None
}

/// The vendor token found in the file name.
pub fn from_filename(path: &[char], windows: bool) -> (r: Option<String>)
    ensures
        match filename_channel(path@, windows) {
            Some(c) => r matches Some(x) && x@ == c,
            None => r is None,
        },
{
    let stem = match file_stem(path, windows) {
        Some(s) => s,
        None => return None,
    };
    let lower = chars_of(to_lowercase(string_of(&stem).as_str()).as_str());
    let tokens: [&str; 8] = [
        "huawei",
        "xiaomi",
        "oppo",
        "vivo",
        "tencent",
        "baidu",
        "googleplay",
        "samsung",
    ];
    let ghost ts = channel_tokens();
    assert(ts.skip(0) == ts);
    let mut i: usize = 0;
    while i < 8
        invariant
            i <= 8,
            ts == channel_tokens(),
            forall|j: int| 0 <= j < 8 ==> (#[trigger] tokens@[j])@ == ts[j],
            first_token_in(lower@, ts) == first_token_in(lower@, ts.skip(i as int)),
            filename_channel(path@, windows) == first_token_in(lower@, ts),
        decreases 8 - i,
    {
        assert(ts.skip(i as int)[0] == ts[i as int]);
        assert(ts.skip(i as int).drop_first() == ts.skip(i + 1));
        let t = chars_of(tokens[i]);
        if contains(&lower, &t) {
            return Some(string_from(tokens[i]));
        }
        i += 1;
    }
    None
}

/// The channel and the warnings: `unknown` and a `CHANNEL_NOT_FOUND` warning when no
/// source names one.
pub open spec fn resolve_channel_spec(
    m: ManifestView,
    path: Seq<char>,
    names: Seq<Seq<char>>,
    ws: Seq<Seq<char>>,
    windows: bool,
) -> (Seq<char>, Seq<Seq<char>>) {
    match channel_spec(m, path, names, windows) {
        Some(c) => (c, ws),
        None => ("unknown"@, with_warning(ws, CHANNEL_NOT_FOUND@)),
    }
}

/// Resolves the channel by priority.
pub fn resolve(
    manifest: &ManifestInfo,
    path: &[char],
    names: &Vec<String>,
    warnings: &mut Vec<String>,
    windows: bool,
) -> (c: String)
    ensures
        (c@, texts(final(warnings)@)) == resolve_channel_spec(
            manifest@,
            path@,
            names@.map_values(|s: String| s@),
            texts(old(warnings)@),
            windows,
        ),
{
    if let Some(c) = from_manifest_meta(manifest) {
        return c;
    }
    if let Some(c) = from_archive_file(names) {
        return c;
    }
    if let Some(c) = from_filename(path, windows) {
        return c;
    }
    push_warning(warnings, CHANNEL_NOT_FOUND);
    string_from("unknown")
}

} // verus!
