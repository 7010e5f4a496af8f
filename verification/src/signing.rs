//! Signatures (best effort: v1 certificate files are hashed, a v2+ signing block is only
//! detected) and native-library ABIs.
use vstd::prelude::*;
use crate::archive::{read_entry, read_spec, zip_entries, Apk, EntryRead, EntryView};
use crate::digest::{sha256, sha256_spec};
use crate::model::SignerInfo;
use crate::order::{lex_lt, strictly_sorted};
use crate::paths::{file_name, file_name_spec};
use crate::text::{bytes_hex_upper, chars_of, ends_with, hex_upper, starts_with, string_from, string_of};
use crate::unicode::{to_uppercase, unicode_upper};
use crate::warnings::{
    push_warning, texts, with_warning, SIGNATURE_BLOCK_DETECTED_UNPARSED, SIGNATURE_PARTIAL,
};

verus! {

/// A signer as plain values.
pub struct SignerView {
    pub scheme: Seq<char>,
    pub cert_sha256: Seq<char>,
    pub issuer: Seq<char>,
    pub subject: Seq<char>,
    pub valid_from: Seq<char>,
    pub valid_to: Seq<char>,
}

pub open spec fn signer_view(s: SignerInfo) -> SignerView {
    SignerView {
        scheme: s.scheme@,
        cert_sha256: s.cert_sha256@,
        issuer: s.issuer@,
        subject: s.subject@,
        valid_from: s.valid_from@,
        valid_to: s.valid_to@,
    }
}

pub open spec fn signer_views(v: Seq<SignerInfo>) -> Seq<SignerView> {
    v.map_values(|s: SignerInfo| signer_view(s))
}

/// A certificate file of a v1 signature: under `META-INF/`, ending `.RSA`, `.DSA` or `.EC`
/// (compared after uppercasing).
pub open spec fn is_cert_file(name: Seq<char>) -> bool {
    let u = unicode_upper(name);
    "META-INF/"@.is_prefix_of(u) && (".RSA"@.is_suffix_of(u) || ".DSA"@.is_suffix_of(u)
        || ".EC"@.is_suffix_of(u))
}

/// A file of a v1 signature: a certificate file or a `.SF` signature file.
pub open spec fn is_signature_file(name: Seq<char>) -> bool {
    let u = unicode_upper(name);
    "META-INF/"@.is_prefix_of(u) && (".SF"@.is_suffix_of(u) || ".RSA"@.is_suffix_of(u)
        || ".DSA"@.is_suffix_of(u) || ".EC"@.is_suffix_of(u))
}

/// The signer reported for a certificate file with this content: scheme `v1`, the uppercase
/// SHA-256 of the content, issuer `unknown`, the file name as subject, and no validity dates.
pub open spec fn signer_for(name: Seq<char>, content: Seq<u8>, windows: bool) -> SignerView {
    SignerView {
        scheme: "v1"@,
        cert_sha256: bytes_hex_upper(sha256_spec(content)),
        issuer: "unknown"@,
        subject: match file_name_spec(name, windows) {
            Some(n) => n,
            None => "unknown"@,
        },
        valid_from: Seq::empty(),
        valid_to: Seq::empty(),
    }
}

/// One signer per certificate file that can be read, in archive order.
pub open spec fn signers_spec(es: Seq<EntryView>, names: Seq<Seq<char>>, windows: bool) -> Seq<
    SignerView,
>
    decreases names.len(),
{
    if names.len() == 0 {
        Seq::empty()
    } else {
        let rest = signers_spec(es, names.drop_last(), windows);
        let n = names.last();
        if is_cert_file(n) {
            match read_spec(es, n) {
                Some(Some(b)) => rest.push(signer_for(n, b, windows)),
                _ => rest,
            }
        } else {
            rest
        }
    }
}

/// Some entry is a file of a v1 signature.
pub open spec fn has_signature_hint(names: Seq<Seq<char>>) -> bool {
    exists|i: int| 0 <= i < names.len() && is_signature_file(#[trigger] names[i])
}

fn upper_matches(u: &[char], with_sf: bool) -> (r: bool)
    ensures
        r == ("META-INF/"@.is_prefix_of(u@) && ((with_sf && ".SF"@.is_suffix_of(u@))
            || ".RSA"@.is_suffix_of(u@) || ".DSA"@.is_suffix_of(u@) || ".EC"@.is_suffix_of(u@))),
{
    starts_with(u, &chars_of("META-INF/")) && ((with_sf && ends_with(u, &chars_of(".SF")))
        || ends_with(u, &chars_of(".RSA")) || ends_with(u, &chars_of(".DSA")) || ends_with(
        u,
        &chars_of(".EC"),
    ))
}

/// Whether an entry name is a v1 certificate file.
pub fn cert_file(name: &str) -> (r: bool)
    ensures
        r == is_cert_file(name@),
{
    let u = chars_of(to_uppercase(name).as_str());
    upper_matches(&u, false)
}

/// Whether any entry is a file of a v1 signature.
pub fn has_any_signature_hint(names: &Vec<String>) -> (r: bool)
    ensures
        r == has_signature_hint(names@.map_values(|s: String| s@)),
{
    let ghost nv = names@.map_values(|s: String| s@);
    let mut i: usize = 0;
    while i < names.len()
        invariant
            i <= names.len(),
            nv == names@.map_values(|s: String| s@),
            forall|j: int| 0 <= j < i ==> !is_signature_file(#[trigger] nv[j]),
        decreases names.len() - i,
    {
        let u = chars_of(to_uppercase(names[i].as_str()).as_str());
        if upper_matches(&u, true) {
            assert(is_signature_file(nv[i as int]));
            return true;
        }
        i += 1;
    }
    false
}

proof fn lemma_hex_upper_len(b: Seq<u8>)
    ensures
        bytes_hex_upper(b).len() == 2 * b.len(),
    decreases b.len(),
{
    if b.len() > 0 {
        lemma_hex_upper_len(b.drop_last());
    }
}

/// The signer for a certificate file with this content.
fn make_signer(name: &str, content: &[u8], windows: bool) -> (s: SignerInfo)
    ensures
        signer_view(s) == signer_for(name@, content@, windows),
        s.cert_sha256@.len() == 64,
{
    let digest = sha256(content);
    proof {
        lemma_hex_upper_len(digest@);
    }
    let subject = match file_name(&chars_of(name), windows) {
        Some(n) => string_of(&n),
        None => string_from("unknown"),
    };
    SignerInfo {
        scheme: string_from("v1"),
        cert_sha256: string_of(&hex_upper(&digest)),
        issuer: string_from("unknown"),
        subject,
        valid_from: String::new(),
        valid_to: String::new(),
    }
}

/// One signer per v1 certificate file that can be read, each with a 64-character digest.
/// The warnings of the signature checks are added by `add_signature_warnings`, after the
/// icon step.
pub fn extract_signers(a: &mut Apk, names: &Vec<String>, windows: bool) -> (out: Vec<SignerInfo>)
    ensures
        zip_entries(*final(a)) == zip_entries(*old(a)),
        signer_views(out@) == signers_spec(
            zip_entries(*old(a)),
            names@.map_values(|s: String| s@),
            windows,
        ),
        forall|i: int| 0 <= i < out@.len() ==> (#[trigger] out@[i]).cert_sha256@.len() == 64,
{
    let ghost es = zip_entries(*a);
    let ghost nv = names@.map_values(|s: String| s@);
    let mut out: Vec<SignerInfo> = Vec::new();
    let mut i: usize = 0;
    while i < names.len()
        invariant
            i <= names.len(),
            nv == names@.map_values(|s: String| s@),
            zip_entries(*a) == es,
            signer_views(out@) == signers_spec(es, nv.take(i as int), windows),
            forall|k: int| 0 <= k < out@.len() ==> (#[trigger] out@[k]).cert_sha256@.len() == 64,
        decreases names.len() - i,
    {
        let ghost before = signer_views(out@);
        assert(nv.take(i + 1).drop_last() == nv.take(i as int));
        assert(nv.take(i + 1).last() == names@[i as int]@);
        if cert_file(names[i].as_str()) {
            match read_entry(a, names[i].as_str()) {
                EntryRead::Bytes(b) => {
                    out.push(make_signer(names[i].as_str(), &b, windows));
                    assert(signer_views(out@) =~= before.push(
                        signer_for(names@[i as int]@, b@, windows),
                    ));
                },
                _ => {},
            }
        }
        i += 1;
    }
    assert(nv.take(names.len() as int) == nv);
    out
}

/// The warnings after the signature checks, added in this order and each only when absent:
/// `SIGNATURE_BLOCK_DETECTED_UNPARSED` when a v2+ signing block was detected, then
/// `SIGNATURE_PARTIAL` when a signer was read or a v1 signature file is present.
pub open spec fn signature_warnings(
    ws: Seq<Seq<char>>,
    sig_block: bool,
    has_signers: bool,
    sig_hint: bool,
) -> Seq<Seq<char>> {
    let w1 = if sig_block {
        with_warning(ws, SIGNATURE_BLOCK_DETECTED_UNPARSED@)
    } else {
        ws
    };
    if has_signers || sig_hint {
        with_warning(w1, SIGNATURE_PARTIAL@)
    } else {
        w1
    }
}

/// The last step of reading the signatures: reports a detected signing block that is not
/// parsed, and that the signer information is partial when any sign of a signature exists.
pub fn add_signature_warnings(
    warnings: &mut Vec<String>,
    sig_block: bool,
    has_signers: bool,
    sig_hint: bool,
)
    ensures
        texts(final(warnings)@) == signature_warnings(
            texts(old(warnings)@),
            sig_block,
            has_signers,
            sig_hint,
        ),
{
    if sig_block {
        push_warning(warnings, SIGNATURE_BLOCK_DETECTED_UNPARSED);
    }
    if has_signers || sig_hint {
        push_warning(warnings, SIGNATURE_PARTIAL);
    }
}

// ---------------------------------------------------------------------------
// The v2+ signing block
// ---------------------------------------------------------------------------
/// The magic text that ends an APK signing block.
pub open spec fn sig_magic() -> Seq<u8> {
    seq![
        0x41u8, 0x50u8, 0x4bu8, 0x20u8, 0x53u8, 0x69u8, 0x67u8, 0x20u8,
        0x42u8, 0x6cu8, 0x6fu8, 0x63u8, 0x6bu8, 0x20u8, 0x34u8, 0x32u8,
    ]
}

/// How far from the end of the file the magic is looked for.
pub open spec fn tail_window() -> int {
    262144int
}

/// The last 256 KiB of the file (all of it when shorter).
pub open spec fn file_tail(b: Seq<u8>) -> Seq<u8> {
    if b.len() <= tail_window() {
        b
    } else {
        b.skip(b.len() - tail_window())
    }
}

/// The tail of the file holds the signing block magic.
pub open spec fn has_sig_block(b: Seq<u8>) -> bool {
    exists|i: int|
        0 <= i && i + 16 <= file_tail(b).len() && #[trigger] file_tail(b).subrange(i, i + 16)
            == sig_magic()
}

fn magic_bytes() -> (r: Vec<u8>)
    ensures
        r@ == sig_magic(),
{
    let r = vec![
        0x41u8, 0x50u8, 0x4bu8, 0x20u8, 0x53u8, 0x69u8, 0x67u8, 0x20u8,
        0x42u8, 0x6cu8, 0x6fu8, 0x63u8, 0x6bu8, 0x20u8, 0x34u8, 0x32u8,
    ];
    assert(r@ =~= sig_magic());
    r
}

/// Whether the last 256 KiB of the file hold an APK signing block's magic.
pub fn has_apk_sig_block(file: &[u8]) -> (r: bool)
    ensures
        r == has_sig_block(file@),
{
    let magic = magic_bytes();
    let start: usize = if file.len() > 262144 {
        file.len() - 262144
    } else {
        0
    };
    let ghost tail = file_tail(file@);
    assert(tail == file@.skip(start as int));
    let n = file.len() - start;
    if n < 16 {
        return false;
    }
    let mut i: usize = 0;
    while i <= n - 16
        invariant
            tail == file_tail(file@),
            n == tail.len(),
            n >= 16,
            tail == file@.skip(start as int),
            magic@ == sig_magic(),
            start + n == file.len(),
            i <= n - 15,
            forall|j: int| 0 <= j < i ==> #[trigger] tail.subrange(j, j + 16) != sig_magic(),
        decreases n - i,
    {
        let mut k: usize = 0;
        let mut same = true;
        while k < 16
            invariant
                k <= 16,
                i + 16 <= n,
                start + n == file.len(),
                tail == file@.skip(start as int),
                magic@ == sig_magic(),
                same == (forall|q: int| 0 <= q < k ==> file@[start + i + q] == magic@[q]),
            decreases 16 - k,
        {
            if file[start + i + k] != magic[k] {
                same = false;
            }
            k += 1;
        }
        if same {
            assert(tail.subrange(i as int, i + 16) =~= sig_magic());
            return true;
        }
        proof {
            let q = choose|q: int| 0 <= q < 16 && file@[start + i + q] != magic@[q];
            assert(tail.subrange(i as int, i + 16)[q] != sig_magic()[q]);
        }
        i += 1;
    }
    false
}

// ---------------------------------------------------------------------------
// ABIs
// ---------------------------------------------------------------------------
/// The ABIs recognised under `lib/`, in sorted order.
pub open spec fn known_abis() -> Seq<Seq<char>> {
    seq!["arm64-v8a"@, "armeabi-v7a"@, "x86"@, "x86_64"@]
}

/// Some entry lies under `lib/<abi>/`.
pub open spec fn abi_present(names: Seq<Seq<char>>, abi: Seq<char>) -> bool {
    exists|i: int| 0 <= i < names.len() && ("lib/"@ + abi + "/"@).is_prefix_of(#[trigger] names[i])
}

/// The known ABIs with native libraries in the archive, in sorted order.
pub open spec fn abis_spec(names: Seq<Seq<char>>) -> Seq<Seq<char>> {
    known_abis().filter(|a: Seq<char>| abi_present(names, a))
}

fn abi_at(k: usize) -> (r: &'static str)
    requires
        k < 4,
    ensures
        r@ == known_abis()[k as int],
{
    let t: [&'static str; 4] = ["arm64-v8a", "armeabi-v7a", "x86", "x86_64"];
    t[k]
}

/// The known ABIs with native libraries in the archive, in sorted order.
pub fn infer_abis(names: &Vec<String>) -> (out: Vec<String>)
    ensures
        out@.map_values(|s: String| s@) == abis_spec(names@.map_values(|s: String| s@)),
{
    let ghost nv = names@.map_values(|s: String| s@);
    let ghost ka = known_abis();
    let mut out: Vec<String> = Vec::new();
    let mut k: usize = 0;
    while k < 4
        invariant
            k <= 4,
            nv == names@.map_values(|s: String| s@),
            ka == known_abis(),
            out@.map_values(|s: String| s@) == ka.take(k as int).filter(
                |a: Seq<char>| abi_present(nv, a),
            ),
        decreases 4 - k,
    {
        let abi = abi_at(k);
        let mut prefix = chars_of("lib/");
        crate::text::extend_str(&mut prefix, abi);
        prefix.push('/');
        proof {
            reveal_strlit("/");
            assert(prefix@ == "lib/"@ + abi@ + "/"@);
        }
        let mut found = false;
        let mut i: usize = 0;
        while i < names.len()
            invariant
                i <= names.len(),
                nv == names@.map_values(|s: String| s@),
                prefix@ == "lib/"@ + abi@ + "/"@,
                found == (exists|j: int| 0 <= j < i && prefix@.is_prefix_of(#[trigger] nv[j])),
            decreases names.len() - i,
        {
            if !found && starts_with(&chars_of(names[i].as_str()), &prefix) {
                found = true;
                assert(prefix@.is_prefix_of(nv[i as int]));
            }
            i += 1;
        }
        let ghost before = out@.map_values(|s: String| s@);
        proof {
            assert(ka.take(k + 1) == ka.take(k as int).push(ka[k as int]));
            ka.take(k as int).lemma_filter_push(ka[k as int], |a: Seq<char>| abi_present(nv, a));
        }
        if found {
            out.push(string_from(abi));
            assert(out@.map_values(|s: String| s@) =~= before.push(abi@));
        }
        k += 1;
    }
    assert(ka.take(4) == ka);
    out
}

/// The known ABIs are listed in sorted order, so the list inferred is sorted too.
pub proof fn lemma_known_abis_sorted()
    ensures
        strictly_sorted(known_abis()),
{
    reveal_strlit("arm64-v8a");
    reveal_strlit("armeabi-v7a");
    reveal_strlit("x86");
    reveal_strlit("x86_64");
    reveal_with_fuel(lex_lt, 8);
    let k = known_abis();
    assert(k[0] == "arm64-v8a"@);
    assert(lex_lt(k[0], k[1]));
    assert(lex_lt(k[1], k[2]));
    assert(lex_lt(k[2], k[3]));
    assert(lex_lt(k[0], k[2]));
    assert(lex_lt(k[0], k[3]));
    assert(lex_lt(k[1], k[3]));
}

} // verus!
