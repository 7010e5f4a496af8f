//! Properties that hold across the parsing pipeline, stated over the specifications the
//! functions' contracts use.
use vstd::prelude::*;
use crate::order::{lex_lt, strictly_sorted};
use crate::archive::{opened_names, read_spec, zip_open, EntryView};
use crate::channel::{channel_keys, channel_spec, meta_channel, meta_channel_from, resolve_channel_spec};
use crate::axml::{
    attr_base, attr_spec, get_string_spec, start_element_spec, le16, le32, length8_spec, pool_entry_spec, string_pool_spec, units_spec, utf16_entry_spec,
    utf8_entry_spec,
};
use crate::xml::{AttrView, ElementView, EventView};
use crate::manifest::{
    strip_namespace_spec,    all_digits, apply_tag_spec, digit_value, digits_value, lookup, parse_i32_spec, parse_i64_spec,
    AttrsView,
};
use crate::error::{error_code, error_message, BackendError};
use crate::axml::typed_value_spec;
use crate::channel::{archive_channel, channel_tokens, filename_channel, first_token_in};
use crate::paths::{file_name_spec, file_stem_spec, has_extension, sanitize_spec};
use crate::digest::sha256_spec;
use crate::unicode::{unicode_lower, unicode_upper};
use crate::model::ApkInfoData;
use crate::signing::SignerView;
use crate::parser::{begin_error, data_spec, InputProbe};
use crate::resources::{find_walk, string_key_spec, find_string_spec, resource_lookup, strings_candidates};
use crate::unicode::{utf16_lossy_spec, utf8_lossy_spec};
use vstd::utf8::valid_utf8;
use crate::collect::select_spec;
use crate::icons::{
    densities, fallback_bases, fallback_candidate, fallback_names, icon_exts, qualified,
    res_path, fallback_pool, icon_candidates_ok, is_fallback_name, is_loose_icon, manifest_candidate,
    manifest_icon_spec, trim_leading, trim_prefix_repeated,
};
use crate::manifest::ManifestView;
use crate::manifest_reader::{manifest_spec, manifest_warnings};
use crate::parser::{
    dedup_spec, final_warnings, icon_url_spec, manifest_entry, pending_ok,
    sanitize_error_message_spec, PendingApk,
};
use crate::resources::resolve_app_name_spec;
use crate::signing::{
    file_tail, sig_magic, signer_for,
    has_sig_block, has_signature_hint, is_cert_file, is_signature_file, signer_views, signers_spec,
};
use crate::paths::{
    file_url_spec, file_url_to_path_spec, is_supported_spec, pct_decode_bytes,
    percent_decode_spec,
};
use crate::render::{
    bool_text, empty_text_spec, get_ext_spec, get_file_name_spec, join_or_empty_spec,
    list_lines_spec, signers_lines_spec, template_fields_spec, render_record_spec, signer_line_spec,
    summary_lines_spec, text_or, ParseRecord,
};
use crate::text::{
    hex_char_upper, ascii_lower_seq, bytes_hex_upper, hex_fixed, is_blank, digit_char, nat_decimal, contains_seq, index_of_or_len, int_decimal, join, lemma_index_of_bounds, occurs_at, replace_all,
    split_on,
};
use vstd::utf8::{
    char_u32_cast, encode_scalar, encode_utf8, encode_utf8_decode_utf8, encode_utf8_valid_utf8,
    has_width_1_encoding,
};
use crate::signing::{abis_spec, known_abis, lemma_known_abis_sorted, abi_present};
use crate::warnings::{
    texts, with_warning, APP_NAME_UNRESOLVED, CHANNEL_NOT_FOUND, ICON_NOT_FOUND,
    MANIFEST_BINARY_PARTIAL, SIGNATURE_BLOCK_DETECTED_UNPARSED, SIGNATURE_PARTIAL,
};

verus! {

/// Adding a warning never repeats one: a list without repeats stays without repeats, holds
/// the code afterwards, and keeps what it held, in order, at its front.
pub proof fn law_warning_added_once(ws: Seq<Seq<char>>, code: Seq<char>)
    requires
        ws.no_duplicates(),
    ensures
        with_warning(ws, code).no_duplicates(),
        with_warning(ws, code).contains(code),
        ws.is_prefix_of(with_warning(ws, code)),
{
    if !ws.contains(code) {
        let r = ws.push(code);
        assert(r[ws.len() as int] == code);
        assert forall|i: int, j: int|
            0 <= i < r.len() && 0 <= j < r.len() && i != j implies r[i] != r[j] by {
            if i == ws.len() {
                assert(ws[j] == r[j]);
            } else if j == ws.len() {
                assert(ws[i] == r[i]);
            }
        }
        assert(ws =~= r.take(ws.len() as int));
    } else {
        assert(ws =~= ws.take(ws.len() as int));
    }
}

/// The warning codes added after the icon and signature checks differ from one another.
proof fn lemma_late_codes_differ()
    ensures
        ICON_NOT_FOUND@ != SIGNATURE_BLOCK_DETECTED_UNPARSED@,
        ICON_NOT_FOUND@ != SIGNATURE_PARTIAL@,
        SIGNATURE_BLOCK_DETECTED_UNPARSED@ != SIGNATURE_PARTIAL@,
{
    reveal_strlit("ICON_NOT_FOUND");
    reveal_strlit("SIGNATURE_BLOCK_DETECTED_UNPARSED");
    reveal_strlit("SIGNATURE_PARTIAL");
    assert(ICON_NOT_FOUND@.len() != SIGNATURE_BLOCK_DETECTED_UNPARSED@.len());
    assert(ICON_NOT_FOUND@.len() != SIGNATURE_PARTIAL@.len());
    assert(SIGNATURE_BLOCK_DETECTED_UNPARSED@.len() != SIGNATURE_PARTIAL@.len());
}

/// The warnings of a finished parse: none repeats, the earlier ones come first, an icon
/// that was not written is reported as `ICON_NOT_FOUND` (and only then, unless it was
/// reported before), a detected signing block and any sign of a v1 signature are reported.
pub proof fn law_final_warnings(
    ws: Seq<Seq<char>>,
    icon_written: bool,
    sig_block: bool,
    has_signers: bool,
    sig_hint: bool,
)
    requires
        ws.no_duplicates(),
    ensures
        final_warnings(ws, icon_written, sig_block, has_signers, sig_hint).no_duplicates(),
        ws.is_prefix_of(final_warnings(ws, icon_written, sig_block, has_signers, sig_hint)),
        final_warnings(ws, icon_written, sig_block, has_signers, sig_hint).contains(
            ICON_NOT_FOUND@,
        ) <==> (!icon_written || ws.contains(ICON_NOT_FOUND@)),
        sig_block ==> final_warnings(ws, icon_written, sig_block, has_signers, sig_hint).contains(
            SIGNATURE_BLOCK_DETECTED_UNPARSED@,
        ),
        has_signers || sig_hint ==> final_warnings(
            ws,
            icon_written,
            sig_block,
            has_signers,
            sig_hint,
        ).contains(SIGNATURE_PARTIAL@),
{
    lemma_late_codes_differ();
    let w1 = if icon_written {
        ws
    } else {
        with_warning(ws, ICON_NOT_FOUND@)
    };
    law_warning_added_once(ws, ICON_NOT_FOUND@);
    let w2 = if sig_block {
        with_warning(w1, SIGNATURE_BLOCK_DETECTED_UNPARSED@)
    } else {
        w1
    };
    law_warning_added_once(w1, SIGNATURE_BLOCK_DETECTED_UNPARSED@);
    let w3 = final_warnings(ws, icon_written, sig_block, has_signers, sig_hint);
    law_warning_added_once(w2, SIGNATURE_PARTIAL@);
    assert(w1.contains(ICON_NOT_FOUND@) <==> w2.contains(ICON_NOT_FOUND@)) by {
        if sig_block && !w1.contains(SIGNATURE_BLOCK_DETECTED_UNPARSED@) {
            assert(w2 == w1.push(SIGNATURE_BLOCK_DETECTED_UNPARSED@));
            if w2.contains(ICON_NOT_FOUND@) {
                let k = choose|k: int| 0 <= k < w2.len() && w2[k] == ICON_NOT_FOUND@;
                assert(k < w1.len());
                assert(w1[k] == ICON_NOT_FOUND@);
            }
            if w1.contains(ICON_NOT_FOUND@) {
                let k = choose|k: int| 0 <= k < w1.len() && w1[k] == ICON_NOT_FOUND@;
                assert(w2[k] == ICON_NOT_FOUND@);
            }
        }
    }
    assert(w2.contains(ICON_NOT_FOUND@) <==> w3.contains(ICON_NOT_FOUND@)) by {
        if (has_signers || sig_hint) && !w2.contains(SIGNATURE_PARTIAL@) {
            assert(w3 == w2.push(SIGNATURE_PARTIAL@));
            if w3.contains(ICON_NOT_FOUND@) {
                let k = choose|k: int| 0 <= k < w3.len() && w3[k] == ICON_NOT_FOUND@;
                assert(k < w2.len());
                assert(w2[k] == ICON_NOT_FOUND@);
            }
            if w2.contains(ICON_NOT_FOUND@) {
                let k = choose|k: int| 0 <= k < w2.len() && w2[k] == ICON_NOT_FOUND@;
                assert(w3[k] == ICON_NOT_FOUND@);
            }
        }
    }
    assert(sig_block ==> w3.contains(SIGNATURE_BLOCK_DETECTED_UNPARSED@)) by {
        if sig_block {
            let k = choose|k: int| 0 <= k < w2.len() && w2[k] == SIGNATURE_BLOCK_DETECTED_UNPARSED@;
            assert(w3[k] == w2[k]);
        }
    }
    assert(ws.is_prefix_of(w3)) by {
        assert(ws.is_prefix_of(w1));
        assert(w1.is_prefix_of(w2));
        assert(w2.is_prefix_of(w3));
        assert forall|i: int| 0 <= i < ws.len() implies w3[i] == ws[i] by {
            assert(w1[i] == ws[i]);
            assert(w2[i] == w1[i]);
        }
    }
}

/// Deduplication keeps exactly the items of the input, each once.
pub proof fn law_dedup(s: Seq<Seq<char>>)
    ensures
        dedup_spec(s).no_duplicates(),
        forall|x: Seq<char>| dedup_spec(s).contains(x) <==> s.contains(x),
    decreases s.len(),
{
    if s.len() > 0 {
        let p = s.drop_last();
        law_dedup(p);
        let d = dedup_spec(p);
        law_warning_added_once(d, s.last());
        assert forall|x: Seq<char>| dedup_spec(s).contains(x) <==> s.contains(x) by {
            if s.contains(x) {
                let k = choose|k: int| 0 <= k < s.len() && s[k] == x;
                if k < p.len() {
                    assert(p[k] == x);
                    assert(p.contains(x));
                }
            }
            if p.contains(x) {
                let k = choose|k: int| 0 <= k < p.len() && p[k] == x;
                assert(s[k] == x);
            }
            if !d.contains(s.last()) {
                assert(dedup_spec(s) == d.push(s.last()));
                if dedup_spec(s).contains(x) {
                    let k = choose|k: int| 0 <= k < dedup_spec(s).len() && dedup_spec(s)[k] == x;
                    if k < d.len() {
                        assert(d[k] == x);
                    }
                }
                if d.contains(x) {
                    let k = choose|k: int| 0 <= k < d.len() && d[k] == x;
                    assert(dedup_spec(s)[k] == x);
                }
            }
        }
    }
}

/// Keeping some elements of a strictly sorted list leaves it strictly sorted.
proof fn lemma_filter_sorted(s: Seq<Seq<char>>, f: spec_fn(Seq<char>) -> bool)
    requires
        strictly_sorted(s),
    ensures
        strictly_sorted(s.filter(f)),
    decreases s.len(),
{
    if s.len() > 0 {
        let p = s.drop_last();
        let x = s.last();
        assert(strictly_sorted(p)) by {
            assert forall|i: int, j: int| 0 <= i < j < p.len() implies lex_lt(p[i], p[j]) by {
                assert(p[i] == s[i] && p[j] == s[j]);
            }
        }
        lemma_filter_sorted(p, f);
        assert(s == p.push(x));
        p.lemma_filter_push(x, f);
        if f(x) {
            let q = p.filter(f);
            let r = q.push(x);
            assert forall|i: int, j: int| 0 <= i < j < r.len() implies lex_lt(r[i], r[j]) by {
                if j == q.len() {
                    assert(q.contains(q[i]));
                    p.lemma_filter_contains_rev(f, q[i]);
                    let k = choose|k: int| 0 <= k < p.len() && p[k] == q[i];
                    assert(s[k] == p[k]);
                    assert(s[p.len() as int] == x);
                    assert(lex_lt(s[k], s[p.len() as int]));
                } else {
                    assert(r[i] == q[i] && r[j] == q[j]);
                }
            }
        }
    }
}

/// The ABIs reported are sorted and none repeats, whatever the archive holds.
pub proof fn law_abis_sorted(names: Seq<Seq<char>>)
    ensures
        strictly_sorted(abis_spec(names)),
{
    lemma_known_abis_sorted();
    lemma_filter_sorted(known_abis(), |a: Seq<char>| abi_present(names, a));
}

/// The warnings gathered before the icon is written never repeat.
pub proof fn law_pending_warnings_distinct(p: PendingApk, path: Seq<char>, file: Seq<u8>)
    requires
        pending_ok(p, path, file),
    ensures
        texts(p.warnings@).no_duplicates(),
{
    let es = zip_open(file).unwrap();
    let mb = read_spec(es, manifest_entry()).unwrap().unwrap();
    let names = opened_names(es);
    let w0 = manifest_warnings(mb, Seq::empty());
    assert(w0.no_duplicates()) by {
        law_warning_added_once(Seq::empty(), MANIFEST_BINARY_PARTIAL@);
    }
    let resolved = resolve_app_name_spec(manifest_spec(mb).unwrap(), es, names, w0);
    assert(resolved.1.no_duplicates()) by {
        law_warning_added_once(w0, APP_NAME_UNRESOLVED@);
    }
    law_warning_added_once(resolved.1, CHANNEL_NOT_FOUND@);
}

/// Every envelope of a successful parse lists each warning once.
pub proof fn law_envelope_warnings_distinct(
    p: PendingApk,
    path: Seq<char>,
    file: Seq<u8>,
    icon_written: bool,
)
    requires
        pending_ok(p, path, file),
    ensures
        final_warnings(
            texts(p.warnings@),
            icon_written,
            p.sig_block,
            p.signers@.len() > 0,
            p.sig_hint,
        ).no_duplicates(),
{
    law_pending_warnings_distinct(p, path, file);
    law_final_warnings(
        texts(p.warnings@),
        icon_written,
        p.sig_block,
        p.signers@.len() > 0,
        p.sig_hint,
    );
}

/// The channel is `unknown` with a `CHANNEL_NOT_FOUND` warning exactly when no source names
/// one; otherwise the warnings are left as they were.
pub proof fn law_unknown_channel_is_reported(
    m: ManifestView,
    path: Seq<char>,
    names: Seq<Seq<char>>,
    ws: Seq<Seq<char>>,
    windows: bool,
)
    requires
        !ws.contains(CHANNEL_NOT_FOUND@),
    ensures
        resolve_channel_spec(m, path, names, ws, windows).1.contains(CHANNEL_NOT_FOUND@) <==> channel_spec(m, path, names, windows) is None,
        channel_spec(m, path, names, windows) is None ==> resolve_channel_spec(m, path, names, ws, windows).0
            == "unknown"@,
        channel_spec(m, path, names, windows) is Some ==> resolve_channel_spec(m, path, names, ws, windows).1 == ws,
{
    if channel_spec(m, path, names, windows) is None {
        assert(ws.push(CHANNEL_NOT_FOUND@)[ws.len() as int] == CHANNEL_NOT_FOUND@);
    }
}

/// Every signer reported comes from a v1 certificate file and claims nothing the file was
/// not read for: scheme `v1`, issuer `unknown`, no validity dates; and a signer is only
/// reported when the archive shows signs of a v1 signature.
pub proof fn law_signers_claim_no_dates(es: Seq<EntryView>, names: Seq<Seq<char>>, windows: bool)
    ensures
        forall|i: int|
            0 <= i < signers_spec(es, names, windows).len() ==> {
                let s = #[trigger] signers_spec(es, names, windows)[i];
                &&& s.scheme == "v1"@
                &&& s.issuer == "unknown"@
                &&& s.valid_from.len() == 0
                &&& s.valid_to.len() == 0
            },
        signers_spec(es, names, windows).len() > 0 ==> has_signature_hint(names),
    decreases names.len(),
{
    if names.len() > 0 {
        let p = names.drop_last();
        law_signers_claim_no_dates(es, p, windows);
        let n = names.last();
        if is_cert_file(n) && read_spec(es, n) is Some && read_spec(es, n).unwrap() is Some {
            assert(is_signature_file(n));
            assert(names[names.len() - 1] == n);
        } else if signers_spec(es, p, windows).len() > 0 {
            let k = choose|k: int| 0 <= k < p.len() && is_signature_file(#[trigger] p[k]);
            assert(names[k] == p[k]);
        }
    }
}

/// The icon URL is empty exactly when no icon was written.
pub proof fn law_icon_url_empty_iff_not_written(written: Option<Seq<char>>)
    ensures
        icon_url_spec(written).len() == 0 <==> written is None,
{
    reveal_strlit("file:///");
}

/// A message that does not mention the path is reported unchanged.
pub proof fn law_message_without_path_unchanged(message: Seq<char>, path: Seq<char>)
    requires
        path.len() > 0,
        !contains_seq(message, path),
    ensures
        sanitize_error_message_spec(message, path) == message,
    decreases message.len(),
{
    if message.len() >= path.len() {
        assert(message.take(path.len() as int) != path) by {
            if message.take(path.len() as int) == path {
                assert(occurs_at(message, path, 0));
            }
        }
        let rest = message.drop_first();
        assert(!contains_seq(rest, path)) by {
            if contains_seq(rest, path) {
                let k = choose|k: int| occurs_at(rest, path, k);
                assert(message.subrange(k + 1, k + 1 + path.len()) == rest.subrange(
                    k,
                    k + path.len(),
                ));
                assert(occurs_at(message, path, k + 1));
            }
        }
        law_message_without_path_unchanged(rest, path);
        assert(message == seq![message[0]] + rest);
    }
}

/// Replacing one character by another is a character-wise map.
proof fn lemma_replace_char(s: Seq<char>, a: char, b: char)
    ensures
        replace_all(s, seq![a], seq![b]) == s.map_values(|c: char| if c == a { b } else { c }),
    decreases s.len(),
{
    let f = |c: char| if c == a { b } else { c };
    if s.len() > 0 {
        lemma_replace_char(s.drop_first(), a, b);
        assert(s.skip(1) == s.drop_first());
        if s.take(1) == seq![a] {
            assert(s[0] == s.take(1)[0]);
        } else {
            assert(s.take(1) =~= seq![s[0]]);
        }
        assert(s.map_values(f) =~= seq![f(s[0])] + s.drop_first().map_values(f));
    } else {
        assert(s.map_values(f) =~= s);
    }
}

/// Bytes without `%` come out of percent-decoding as they went in.
proof fn lemma_pct_decode_plain(b: Seq<u8>)
    requires
        forall|i: int| 0 <= i < b.len() ==> #[trigger] b[i] != 0x25u8,
    ensures
        pct_decode_bytes(b) == b,
    decreases b.len(),
{
    if b.len() > 0 {
        lemma_pct_decode_plain(b.drop_first());
        assert(b =~= seq![b[0]] + b.drop_first());
    }
}

/// No byte of the UTF-8 encoding of a character other than `%` is the byte of `%`.
proof fn lemma_scalar_not_percent(c: char)
    requires
        c != '%',
    ensures
        forall|i: int|
            0 <= i < encode_scalar(c as u32).len() ==> #[trigger] encode_scalar(c as u32)[i]
                != 0x25u8,
{
    let s = c as u32;
    char_u32_cast(c, s);
    assert(s != 0x25u32);
    if has_width_1_encoding(s) {
        assert(((s & 0x7F) as u8) != 0x25u8) by (bit_vector)
            requires
                s <= 0x7Fu32,
                s != 0x25u32,
        ;
    } else {
        let x6 = ((s >> 6u32) & 0x1Fu32) as u8;
        let x12 = ((s >> 12u32) & 0x0Fu32) as u8;
        let x18 = ((s >> 18u32) & 0x7u32) as u8;
        let c0 = (s & 0x3Fu32) as u8;
        let c6 = ((s >> 6u32) & 0x3Fu32) as u8;
        let c12 = ((s >> 12u32) & 0x3Fu32) as u8;
        assert((0xC0u8 | x6) != 0x25u8) by (bit_vector);
        assert((0xE0u8 | x12) != 0x25u8) by (bit_vector);
        assert((0xF0u8 | x18) != 0x25u8) by (bit_vector);
        assert((0x80u8 | c0) != 0x25u8) by (bit_vector);
        assert((0x80u8 | c6) != 0x25u8) by (bit_vector);
        assert((0x80u8 | c12) != 0x25u8) by (bit_vector);
    }
}

/// The UTF-8 encoding of a text without `%` holds no `%` byte.
proof fn lemma_encoding_has_no_percent(q: Seq<char>)
    requires
        !q.contains('%'),
    ensures
        forall|i: int| 0 <= i < encode_utf8(q).len() ==> #[trigger] encode_utf8(q)[i] != 0x25u8,
    decreases q.len(),
{
    if q.len() > 0 {
        let rest = q.drop_first();
        assert(!rest.contains('%')) by {
            if rest.contains('%') {
                let k = choose|k: int| 0 <= k < rest.len() && rest[k] == '%';
                assert(q[k + 1] == '%');
            }
        }
        lemma_encoding_has_no_percent(rest);
        assert(q[0] != '%') by {
            if q[0] == '%' {
                assert(q.contains('%'));
            }
        }
        lemma_scalar_not_percent(q[0]);
        let head = encode_scalar(q[0] as u32);
        assert(encode_utf8(q) == head + encode_utf8(rest));
        assert forall|i: int| 0 <= i < encode_utf8(q).len() implies encode_utf8(q)[i]
            != 0x25u8 by {
            if i < head.len() {
                assert(encode_utf8(q)[i] == head[i]);
            } else {
                assert(encode_utf8(q)[i] == encode_utf8(rest)[i - head.len()]);
            }
        }
    }
}

/// Percent-decoding leaves a text without `%` as it is.
proof fn lemma_percent_decode_plain(q: Seq<char>)
    requires
        !q.contains('%'),
    ensures
        percent_decode_spec(q) == q,
{
    lemma_encoding_has_no_percent(q);
    lemma_pct_decode_plain(encode_utf8(q));
    encode_utf8_valid_utf8(q);
    encode_utf8_decode_utf8(q);
}

/// Turning the URL's rest back into a path: the rest of the URL of `p` is `p` with `from`
/// written as `to`; that text has no `%` when `p` has none.
proof fn lemma_url_rest(p: Seq<char>)
    requires
        !p.contains('%'),
    ensures
        "file:///"@.is_prefix_of(file_url_spec(p)),
        file_url_spec(p).skip(8) == p.map_values(|c: char| if c == '\\' { '/' } else { c }),
        !p.map_values(|c: char| if c == '\\' { '/' } else { c }).contains('%'),
{
    reveal_strlit("file:///");
    lemma_replace_char(p, '\\', '/');
    let q = p.map_values(|c: char| if c == '\\' { '/' } else { c });
    assert(file_url_spec(p).skip(8) =~= q);
    if q.contains('%') {
        let k = choose|k: int| 0 <= k < q.len() && q[k] == '%';
        assert(p[k] == '%');
        assert(p.contains('%'));
    }
}

/// On Windows, the path read back from the `file:///` URL of a path is that path, for
/// paths written with `\` and without `%` or `/`.
pub proof fn law_file_url_round_trip_windows(p: Seq<char>)
    requires
        !p.contains('%'),
        !p.contains('/'),
    ensures
        file_url_to_path_spec(file_url_spec(p), true) == Some(p),
{
    reveal_strlit("file:///");
    lemma_url_rest(p);
    let q = p.map_values(|c: char| if c == '\\' { '/' } else { c });
    lemma_percent_decode_plain(q);
    lemma_replace_char(q, '/', '\\');
    let r = q.map_values(|c: char| if c == '/' { '\\' } else { c });
    assert forall|i: int| 0 <= i < p.len() implies r[i] == p[i] by {
        if p[i] == '/' {
            assert(p.contains('/'));
        }
    }
    assert(r =~= p);
}

/// Elsewhere, the path read back from the `file:///` URL of a path without `%` or `\` is
/// the path behind one more `/`.
pub proof fn law_file_url_round_trip_unix(p: Seq<char>)
    requires
        !p.contains('%'),
        !p.contains('\\'),
    ensures
        file_url_to_path_spec(file_url_spec(p), false) == Some(seq!['/'] + p),
{
    reveal_strlit("file:///");
    lemma_url_rest(p);
    let q = p.map_values(|c: char| if c == '\\' { '/' } else { c });
    lemma_percent_decode_plain(q);
    assert forall|i: int| 0 <= i < p.len() implies q[i] == p[i] by {
        if p[i] == '\\' {
            assert(p.contains('\\'));
        }
    }
    assert(q =~= p);
}

/// Every icon candidate is an entry of the archive, except a manifest icon given as a
/// plain entry name (not a `@type/name` reference), which is tried as it stands.
pub proof fn law_icon_candidates_are_entries(
    icon: Option<Seq<char>>,
    names: Seq<Seq<char>>,
    out: Seq<Seq<char>>,
)
    requires
        icon_candidates_ok(icon, names, out),
        icon matches Some(i) ==> i.len() > 0 && i[0] == '@',
    ensures
        forall|k: int| 0 <= k < out.len() ==> names.contains(#[trigger] out[k]),
{
    let from_manifest = match icon {
        Some(i) => manifest_icon_spec(i, names),
        None => Seq::empty(),
    };
    if from_manifest.len() > 0 {
        let i = icon.unwrap();
        let parts = split_on(trim_leading(i, '@'), '/');
        let icon_type = trim_prefix_repeated(parts[0], "android:"@);
        let all = Seq::new(20, |k: int| manifest_candidate(icon_type, parts[1], k));
        let f = |c: Seq<char>| names.contains(c);
        assert forall|k: int| 0 <= k < out.len() implies names.contains(#[trigger] out[k]) by {
            all.lemma_filter_pred(f, k);
        }
    } else {
        let pool = fallback_pool(names);
        assert forall|k: int| 0 <= k < out.len() implies names.contains(#[trigger] out[k]) by {
            assert(out.to_set().contains(out[k]));
            assert(pool.to_set().contains(out[k]));
            assert(pool.contains(out[k]));
            let named = names.filter(|n: Seq<char>| is_fallback_name(n));
            if named.len() > 0 {
                names.lemma_filter_contains_rev(|n: Seq<char>| is_fallback_name(n), out[k]);
            } else {
                names.lemma_filter_contains_rev(|n: Seq<char>| is_loose_icon(n), out[k]);
            }
        }
    }
}

/// No input is parsed twice: each file kept took a key no earlier file had, and every file
/// kept is an APK or AAB.
pub proof fn law_inputs_selected_once(cands: Seq<Seq<char>>, keys: Seq<Seq<char>>, windows: bool)
    ensures
        select_spec(cands, keys, windows).1.finite(),
        select_spec(cands, keys, windows).1.len() == select_spec(cands, keys, windows).0.len(),
        forall|k: int|
            0 <= k < select_spec(cands, keys, windows).0.len() ==> is_supported_spec(#[trigger] select_spec(cands, keys, windows).0[k], windows),
    decreases cands.len(),
{
    if cands.len() > 0 && keys.len() >= cands.len() {
        let n = (cands.len() - 1) as int;
        law_inputs_selected_once(cands.drop_last(), keys.take(n), windows);
        let prev = select_spec(cands.drop_last(), keys.take(n), windows);
        if is_supported_spec(cands[n], windows) && !prev.1.contains(keys[n]) {
            let cur = select_spec(cands, keys, windows);
            assert(cur.0 == prev.0.push(cands[n]));
            assert forall|k: int| 0 <= k < cur.0.len() implies is_supported_spec(#[trigger] cur.0[k], windows) by {
                if k < prev.0.len() {
                    assert(cur.0[k] == prev.0[k]);
                }
            }
        }
    }
}

/// The first `\n` of a text made of a line without `\n`, a `\n` and the rest ends that line.
proof fn lemma_split_front(a: Seq<char>, b: Seq<char>)
    requires
        !a.contains('\n'),
    ensures
        split_on(a + seq!['\n'] + b, '\n') == seq![a] + split_on(b, '\n'),
{
    let t = a + seq!['\n'] + b;
    lemma_index_of_bounds(t, '\n');
    let e = index_of_or_len(t, '\n');
    assert(t[a.len() as int] == '\n');
    if e < a.len() {
        assert(t[e] == a[e]);
        assert(a.contains('\n'));
    }
    assert(e == a.len());
    assert(t.take(e) =~= a);
    assert(t.skip(e + 1) =~= b);
}

/// A text without `\n` is one line.
proof fn lemma_split_single(a: Seq<char>)
    requires
        !a.contains('\n'),
    ensures
        split_on(a, '\n') == seq![a],
{
    lemma_index_of_bounds(a, '\n');
    let e = index_of_or_len(a, '\n');
    if e < a.len() {
        assert(a.contains('\n'));
    }
}

/// Joining two or more parts starts with the first part and the separator.
proof fn lemma_join_front(ls: Seq<Seq<char>>, sep: Seq<char>)
    requires
        ls.len() >= 2,
    ensures
        join(ls, sep) == ls[0] + sep + join(ls.drop_first(), sep),
    decreases ls.len(),
{
    if ls.len() == 2 {
        assert(ls.drop_last() =~= seq![ls[0]]);
        assert(ls.drop_first() =~= seq![ls[1]]);
        assert(join(ls.drop_last(), sep) == ls[0]);
        assert(join(ls.drop_first(), sep) == ls[1]);
        assert(ls.last() == ls[1]);
    } else {
        let p = ls.drop_last();
        lemma_join_front(p, sep);
        assert(p.drop_first() =~= ls.drop_first().drop_last());
        assert(ls.drop_first().last() == ls.last());
        assert(p[0] == ls[0]);
        assert(join(ls, sep) =~= ls[0] + sep + join(ls.drop_first(), sep));
    }
}

/// Lines without `\n` joined with `\n` split back into the same lines.
proof fn lemma_split_join(ls: Seq<Seq<char>>)
    requires
        ls.len() >= 1,
        forall|i: int| 0 <= i < ls.len() ==> !(#[trigger] ls[i]).contains('\n'),
    ensures
        split_on(join(ls, seq!['\n']), '\n') == ls,
    decreases ls.len(),
{
    if ls.len() == 1 {
        lemma_split_single(ls[0]);
        assert(seq![ls[0]] =~= ls);
    } else {
        let rest = ls.drop_first();
        assert forall|i: int| 0 <= i < rest.len() implies !(#[trigger] rest[i]).contains('\n') by {
            assert(rest[i] == ls[i + 1]);
        }
        lemma_split_join(rest);
        lemma_join_front(ls, seq!['\n']);
        assert(!ls[0].contains('\n'));
        lemma_split_front(ls[0], join(rest, seq!['\n']));
        assert(seq![ls[0]] + rest =~= ls);
    }
}

/// The built-in text summary of a record has 18 lines and then one line per signer: the
/// path first, the outcome second, the number of signers on line 15, and the signer lines
/// in order at the end. When no line holds a line break (no field of the record does), the
/// rendered text splits at its line breaks into exactly these lines.
pub proof fn law_summary_lines(r: ParseRecord, windows: bool)
    ensures
        summary_lines_spec(r).len() == 18 + r.envelope.data.signers@.len(),
        summary_lines_spec(r)[0] == "FilePath: "@ + r.path@,
        summary_lines_spec(r)[1] == "Success: "@ + bool_text(r.envelope.success),
        summary_lines_spec(r)[14] == "Signers: "@ + int_decimal(
            r.envelope.data.signers@.len() as int,
        ),
        forall|k: int|
            0 <= k < r.envelope.data.signers@.len() ==> #[trigger] summary_lines_spec(r)[18 + k]
                == signer_line_spec(k + 1, r.envelope.data.signers@[k]),
        (forall|i: int|
            0 <= i < summary_lines_spec(r).len() ==> !(#[trigger] summary_lines_spec(r)[i]).contains(
                '\n',
            )) ==> split_on(render_record_spec(r, None, windows), '\n') == summary_lines_spec(r),
{
    reveal_strlit("\n");
    assert("\n"@ =~= seq!['\n']);
    if forall|i: int|
        0 <= i < summary_lines_spec(r).len() ==> !(#[trigger] summary_lines_spec(r)[i]).contains(
            '\n',
        ) {
        lemma_split_join(summary_lines_spec(r));
    }
}

/// A resource path under a `mipmap` or `drawable` directory, in PNG or WebP, is a loose
/// icon.
proof fn lemma_res_path_loose(base: Seq<char>, density: Seq<char>, name: Seq<char>, ext: Seq<char>)
    requires
        base == "mipmap"@ || base == "drawable"@,
        ext == "png"@ || ext == "webp"@,
    ensures
        is_loose_icon(res_path(qualified(base, density), name, ext)),
{
    reveal_strlit("mipmap");
    reveal_strlit("drawable");
    reveal_strlit("png");
    reveal_strlit("webp");
    reveal_strlit("res/");
    reveal_strlit("res/mipmap");
    reveal_strlit("res/drawable");
    reveal_strlit(".png");
    reveal_strlit(".webp");
    let dir = qualified(base, density);
    let full = res_path(dir, name, ext);
    assert(full == "res/"@ + dir + seq!['/'] + name + seq!['.'] + ext);
    let pre = "res/"@ + base;
    assert(full.subrange(0, pre.len() as int) =~= pre);
    if base == "mipmap"@ {
        assert(pre =~= "res/mipmap"@);
    } else {
        assert(pre =~= "res/drawable"@);
    }
    let suf = seq!['.'] + ext;
    assert(full.subrange(full.len() - suf.len(), full.len() as int) =~= suf);
    if ext == "png"@ {
        assert(suf =~= ".png"@);
    } else {
        assert(suf =~= ".webp"@);
    }
}

/// Every named fallback candidate is a loose icon.
proof fn lemma_fallback_candidate_loose(k: int)
    requires
        0 <= k < 120,
    ensures
        is_loose_icon(fallback_candidate(k)),
{
    let b = (k % 12) / 6;
    let e = k % 2;
    assert(0 <= b < 2);
    assert(0 <= e < 2);
    assert(0 <= k / 12 < 10);
    assert(fallback_bases()[b] == "mipmap"@ || fallback_bases()[b] == "drawable"@);
    assert(icon_exts()[e] == "png"@ || icon_exts()[e] == "webp"@);
    lemma_res_path_loose(
        fallback_bases()[b],
        densities()[k / 12],
        fallback_names()[(k % 6) / 2],
        icon_exts()[e],
    );
}

/// Every entry of the fallback pool is an archive entry and a loose icon.
proof fn lemma_pool_loose(names: Seq<Seq<char>>, x: Seq<char>)
    requires
        fallback_pool(names).contains(x),
    ensures
        names.contains(x),
        is_loose_icon(x),
{
    let fnamed = |n: Seq<char>| is_fallback_name(n);
    let floose = |n: Seq<char>| is_loose_icon(n);
    let named = names.filter(fnamed);
    let pool = fallback_pool(names);
    let j = choose|j: int| 0 <= j < pool.len() && pool[j] == x;
    if named.len() > 0 {
        names.lemma_filter_pred(fnamed, j);
        names.lemma_filter_contains_rev(fnamed, x);
        let k = choose|k: int| 0 <= k < 120 && x == #[trigger] fallback_candidate(k);
        lemma_fallback_candidate_loose(k);
    } else {
        names.lemma_filter_pred(floose, j);
        names.lemma_filter_contains_rev(floose, x);
    }
}

/// The fallback icon candidates are archive entries, each a PNG or WebP under a `mipmap`
/// or `drawable` resource directory, in strictly increasing order; there are none exactly
/// when the archive holds no such entry.
pub proof fn law_fallback_icons(names: Seq<Seq<char>>, out: Seq<Seq<char>>)
    requires
        strictly_sorted(out),
        out.to_set() == fallback_pool(names).to_set(),
    ensures
        strictly_sorted(out),
        forall|k: int| 0 <= k < out.len() ==> names.contains(#[trigger] out[k]) && is_loose_icon(out[k]),
        out.len() == 0 <==> !(exists|i: int| 0 <= i < names.len() && is_loose_icon(#[trigger] names[i])),
{
    let fnamed = |n: Seq<char>| is_fallback_name(n);
    let floose = |n: Seq<char>| is_loose_icon(n);
    let named = names.filter(fnamed);
    let loose = names.filter(floose);
    let pool = fallback_pool(names);
    assert forall|k: int| 0 <= k < out.len() implies names.contains(#[trigger] out[k])
        && is_loose_icon(out[k]) by {
        assert(out.contains(out[k]));
        assert(out.to_set().contains(out[k]));
        assert(pool.to_set().contains(out[k]));
        assert(pool.contains(out[k]));
        lemma_pool_loose(names, out[k]);
    }
    if out.len() == 0 {
        assert forall|i: int| 0 <= i < names.len() implies !is_loose_icon(#[trigger] names[i]) by {
            if is_loose_icon(names[i]) {
                names.lemma_filter_contains(floose, i);
                assert(loose.contains(names[i]));
                if named.len() > 0 {
                    assert(pool.contains(named[0]));
                    assert(pool.to_set().contains(named[0]));
                } else {
                    assert(pool.contains(names[i]));
                    assert(pool.to_set().contains(names[i]));
                }
                assert(out.to_set().len() == 0);
            }
        }
    } else {
        assert(out.contains(out[0]));
        assert(out.to_set().contains(out[0]));
        assert(pool.to_set().contains(out[0]));
        assert(pool.contains(out[0]));
        lemma_pool_loose(names, out[0]);
        let i = choose|i: int| 0 <= i < names.len() && names[i] == out[0];
        assert(is_loose_icon(names[i]));
    }
}

/// What a list holds after adding a warning: what it held and the code.
proof fn lemma_with_warning_contains(ws: Seq<Seq<char>>, c: Seq<char>, x: Seq<char>)
    ensures
        with_warning(ws, c).contains(x) <==> ws.contains(x) || x == c,
{
    if !ws.contains(c) {
        let r = ws.push(c);
        assert(r[ws.len() as int] == c);
        if r.contains(x) {
            let k = choose|k: int| 0 <= k < r.len() && r[k] == x;
            if k < ws.len() {
                assert(ws[k] == x);
            }
        }
        if ws.contains(x) {
            let k = choose|k: int| 0 <= k < ws.len() && ws[k] == x;
            assert(r[k] == x);
        }
    }
}

/// The two signature warnings are added after the icon check, in this order, each exactly
/// when its condition holds and it is not there yet: `SIGNATURE_BLOCK_DETECTED_UNPARSED`
/// for a detected signing block, then `SIGNATURE_PARTIAL` when a signer was read or a v1
/// signature file is present. Nothing else is added.
pub proof fn law_signature_warnings(
    ws: Seq<Seq<char>>,
    icon_written: bool,
    sig_block: bool,
    has_signers: bool,
    sig_hint: bool,
)
    ensures
        ({
            let w1 = if icon_written {
                ws
            } else {
                with_warning(ws, ICON_NOT_FOUND@)
            };
            final_warnings(ws, icon_written, sig_block, has_signers, sig_hint) == w1 + (if sig_block
                && !w1.contains(SIGNATURE_BLOCK_DETECTED_UNPARSED@) {
                seq![SIGNATURE_BLOCK_DETECTED_UNPARSED@]
            } else {
                Seq::empty()
            }) + (if (has_signers || sig_hint) && !w1.contains(SIGNATURE_PARTIAL@) {
                seq![SIGNATURE_PARTIAL@]
            } else {
                Seq::empty()
            })
        }),
{
    lemma_late_codes_differ();
    let w1 = if icon_written {
        ws
    } else {
        with_warning(ws, ICON_NOT_FOUND@)
    };
    let w2 = if sig_block {
        with_warning(w1, SIGNATURE_BLOCK_DETECTED_UNPARSED@)
    } else {
        w1
    };
    lemma_with_warning_contains(w1, SIGNATURE_BLOCK_DETECTED_UNPARSED@, SIGNATURE_PARTIAL@);
    let a: Seq<Seq<char>> = if sig_block && !w1.contains(SIGNATURE_BLOCK_DETECTED_UNPARSED@) {
        seq![SIGNATURE_BLOCK_DETECTED_UNPARSED@]
    } else {
        Seq::empty()
    };
    let b: Seq<Seq<char>> = if (has_signers || sig_hint) && !w1.contains(SIGNATURE_PARTIAL@) {
        seq![SIGNATURE_PARTIAL@]
    } else {
        Seq::empty()
    };
    assert(w2 =~= w1 + a);
    assert(w2.contains(SIGNATURE_PARTIAL@) == w1.contains(SIGNATURE_PARTIAL@));
    assert(final_warnings(ws, icon_written, sig_block, has_signers, sig_hint) =~= w2 + b);
}

/// Whether the warnings gathered before the icon is written hold one of the two signature
/// codes: they never do.
proof fn lemma_pending_has_no_signature_codes(p: PendingApk, path: Seq<char>, file: Seq<u8>)
    requires
        pending_ok(p, path, file),
    ensures
        !texts(p.warnings@).contains(SIGNATURE_BLOCK_DETECTED_UNPARSED@),
        !texts(p.warnings@).contains(SIGNATURE_PARTIAL@),
{
    reveal_strlit("SIGNATURE_BLOCK_DETECTED_UNPARSED");
    reveal_strlit("SIGNATURE_PARTIAL");
    reveal_strlit("MANIFEST_BINARY_PARTIAL");
    reveal_strlit("APP_NAME_UNRESOLVED");
    reveal_strlit("CHANNEL_NOT_FOUND");
    let sb = SIGNATURE_BLOCK_DETECTED_UNPARSED@;
    let sp = SIGNATURE_PARTIAL@;
    assert(MANIFEST_BINARY_PARTIAL@ != sb && MANIFEST_BINARY_PARTIAL@ != sp) by {
        assert(MANIFEST_BINARY_PARTIAL@.len() != sb.len());
        assert(MANIFEST_BINARY_PARTIAL@.len() != sp.len());
    }
    assert(APP_NAME_UNRESOLVED@ != sb && APP_NAME_UNRESOLVED@ != sp) by {
        assert(APP_NAME_UNRESOLVED@.len() != sb.len());
        assert(APP_NAME_UNRESOLVED@.len() != sp.len());
    }
    assert(CHANNEL_NOT_FOUND@ != sb && CHANNEL_NOT_FOUND@ != sp) by {
        assert(CHANNEL_NOT_FOUND@.len() != sb.len());
        assert(CHANNEL_NOT_FOUND@[0] != sp[0]);
    }
    let es = zip_open(file).unwrap();
    let mb = read_spec(es, manifest_entry()).unwrap().unwrap();
    let names = opened_names(es);
    let e: Seq<Seq<char>> = Seq::empty();
    let w0 = manifest_warnings(mb, e);
    lemma_with_warning_contains(e, MANIFEST_BINARY_PARTIAL@, sb);
    lemma_with_warning_contains(e, MANIFEST_BINARY_PARTIAL@, sp);
    let resolved = resolve_app_name_spec(manifest_spec(mb).unwrap(), es, names, w0);
    lemma_with_warning_contains(w0, APP_NAME_UNRESOLVED@, sb);
    lemma_with_warning_contains(w0, APP_NAME_UNRESOLVED@, sp);
    lemma_with_warning_contains(resolved.1, CHANNEL_NOT_FOUND@, sb);
    lemma_with_warning_contains(resolved.1, CHANNEL_NOT_FOUND@, sp);
}

/// For a parsed APK, the signature warnings are added after the icon check exactly when
/// their conditions hold: `SIGNATURE_BLOCK_DETECTED_UNPARSED` when the file's last 256 KiB
/// hold the signing block magic, then `SIGNATURE_PARTIAL` when some entry is a v1
/// signature file (which every signer read comes from); nothing else is added.
pub proof fn law_parse_signature_warnings(
    p: PendingApk,
    path: Seq<char>,
    file: Seq<u8>,
    icon_written: bool,
)
    requires
        pending_ok(p, path, file),
    ensures
        ({
            let ws = texts(p.warnings@);
            let w1 = if icon_written {
                ws
            } else {
                with_warning(ws, ICON_NOT_FOUND@)
            };
            let names = opened_names(zip_open(file).unwrap());
            final_warnings(ws, icon_written, p.sig_block, p.signers@.len() > 0, p.sig_hint) == w1
                + (if has_sig_block(file) {
                seq![SIGNATURE_BLOCK_DETECTED_UNPARSED@]
            } else {
                Seq::empty()
            }) + (if has_signature_hint(names) {
                seq![SIGNATURE_PARTIAL@]
            } else {
                Seq::empty()
            })
        }),
{
    let ws = texts(p.warnings@);
    let es = zip_open(file).unwrap();
    let names = opened_names(es);
    lemma_pending_has_no_signature_codes(p, path, file);
    lemma_late_codes_differ();
    lemma_with_warning_contains(ws, ICON_NOT_FOUND@, SIGNATURE_BLOCK_DETECTED_UNPARSED@);
    lemma_with_warning_contains(ws, ICON_NOT_FOUND@, SIGNATURE_PARTIAL@);
    law_signers_claim_no_dates(es, names, p.windows);
    assert(signer_views(p.signers@).len() == p.signers@.len());
    law_signature_warnings(ws, icon_written, p.sig_block, p.signers@.len() > 0, p.sig_hint);
}

/// The positions of the candidates that the input selection keeps, in order.
pub open spec fn select_positions(cands: Seq<Seq<char>>, keys: Seq<Seq<char>>, windows: bool) -> Seq<
    int,
>
    decreases cands.len(),
{
    if cands.len() == 0 || keys.len() < cands.len() {
        Seq::empty()
    } else {
        let n = (cands.len() - 1) as int;
        let prev = select_positions(cands.drop_last(), keys.take(n), windows);
        if is_supported_spec(cands[n], windows) && !select_spec(
            cands.drop_last(),
            keys.take(n),
            windows,
        ).1.contains(keys[n]) {
            prev.push(n)
        } else {
            prev
        }
    }
}

/// The collected inputs keep the order of the candidates and give each key once: the files
/// kept are the candidates at increasing positions, with pairwise different keys, and a
/// candidate is kept exactly when it is an APK or AAB whose key no earlier kept file has.
pub proof fn law_inputs_in_order(cands: Seq<Seq<char>>, keys: Seq<Seq<char>>, windows: bool)
    requires
        cands.len() == keys.len(),
    ensures
        ({
            let out = select_spec(cands, keys, windows).0;
            let pos = select_positions(cands, keys, windows);
            &&& pos.len() == out.len()
            &&& forall|j: int|
                0 <= j < pos.len() ==> 0 <= #[trigger] pos[j] < cands.len() && out[j] == cands[pos[j]]
            &&& forall|j1: int, j2: int| 0 <= j1 < j2 < pos.len() ==> pos[j1] < pos[j2]
            &&& forall|j1: int, j2: int|
                0 <= j1 < j2 < pos.len() ==> keys[#[trigger] pos[j1]] != keys[#[trigger] pos[j2]]
            &&& forall|i: int|
                0 <= i < cands.len() ==> (pos.contains(i) <==> is_supported_spec(
                    #[trigger] cands[i],
                    windows,
                ) && forall|j: int| 0 <= j < pos.len() && pos[j] < i ==> keys[pos[j]] != keys[i])
        }),
    decreases cands.len(),
{
    lemma_selected_keys(cands, keys, windows);
    if cands.len() > 0 {
        let n = (cands.len() - 1) as int;
        let c0 = cands.drop_last();
        let k0 = keys.take(n);
        law_inputs_in_order(c0, k0, windows);
        lemma_selected_keys(c0, k0, windows);
        let prev = select_spec(c0, k0, windows);
        let pp = select_positions(c0, k0, windows);
        let out = select_spec(cands, keys, windows).0;
        let pos = select_positions(cands, keys, windows);
        let keep = is_supported_spec(cands[n], windows) && !prev.1.contains(keys[n]);
        assert forall|j: int| 0 <= j < pp.len() implies #[trigger] keys[pp[j]] == k0[pp[j]] && cands[pp[j]]
            == c0[pp[j]] by {}
        if keep {
            assert(pos == pp.push(n));
            assert(out == prev.0.push(cands[n]));
            assert forall|j: int| 0 <= j < pos.len() implies 0 <= #[trigger] pos[j] < cands.len()
                && out[j] == cands[pos[j]] by {
                if j < pp.len() {
                    assert(pos[j] == pp[j]);
                    assert(out[j] == prev.0[j]);
                }
            }
            assert forall|j1: int, j2: int| 0 <= j1 < j2 < pos.len() implies keys[#[trigger] pos[j1]]
                != keys[#[trigger] pos[j2]] by {
                if j2 == pp.len() {
                    assert(pos[j1] == pp[j1]);
                    assert(keys[pp[j1]] == k0[pp[j1]]);
                    if keys[pp[j1]] == keys[n] {
                        assert(prev.1.contains(keys[n]));
                    }
                } else {
                    assert(pos[j1] == pp[j1] && pos[j2] == pp[j2]);
                }
            }
            assert forall|i: int| 0 <= i < cands.len() implies (pos.contains(i) <==> is_supported_spec(
                #[trigger] cands[i],
                windows,
            ) && forall|j: int| 0 <= j < pos.len() && pos[j] < i ==> keys[pos[j]] != keys[i]) by {
                if i < n {
                    assert(cands[i] == c0[i]);
                    assert(keys[i] == k0[i]);
                    assert(pos.contains(i) <==> pp.contains(i)) by {
                        if pos.contains(i) {
                            let j = choose|j: int| 0 <= j < pos.len() && pos[j] == i;
                            assert(j < pp.len());
                            assert(pp[j] == i);
                        }
                        if pp.contains(i) {
                            let j = choose|j: int| 0 <= j < pp.len() && pp[j] == i;
                            assert(pos[j] == i);
                        }
                    }
                    assert((forall|j: int| 0 <= j < pos.len() && pos[j] < i ==> keys[pos[j]] != keys[i])
                        <==> (forall|j: int| 0 <= j < pp.len() && pp[j] < i ==> k0[pp[j]] != k0[i])) by {
                        if forall|j: int| 0 <= j < pp.len() && pp[j] < i ==> k0[pp[j]] != k0[i] {
                            assert forall|j: int| 0 <= j < pos.len() && pos[j] < i implies keys[pos[j]]
                                != keys[i] by {
                                assert(j < pp.len());
                                assert(pos[j] == pp[j]);
                            }
                        }
                        if forall|j: int| 0 <= j < pos.len() && pos[j] < i ==> keys[pos[j]] != keys[i] {
                            assert forall|j: int| 0 <= j < pp.len() && pp[j] < i implies k0[pp[j]]
                                != k0[i] by {
                                assert(pos[j] == pp[j]);
                            }
                        }
                    }
                } else {
                    assert(pos[pp.len() as int] == n);
                    assert(pos.contains(i));
                    assert forall|j: int| 0 <= j < pos.len() && pos[j] < i implies keys[pos[j]]
                        != keys[i] by {
                        assert(j < pp.len());
                        assert(pos[j] == pp[j]);
                        if keys[pp[j]] == keys[n] {
                            assert(prev.1.contains(keys[n]));
                        }
                    }
                }
            }
        } else {
            assert(pos == pp);
            assert(out == prev.0);
            assert forall|j: int| 0 <= j < pos.len() implies 0 <= #[trigger] pos[j] < cands.len()
                && out[j] == cands[pos[j]] by {}
            assert forall|i: int| 0 <= i < cands.len() implies (pos.contains(i) <==> is_supported_spec(
                #[trigger] cands[i],
                windows,
            ) && forall|j: int| 0 <= j < pos.len() && pos[j] < i ==> keys[pos[j]] != keys[i]) by {
                if i < n {
                    assert(cands[i] == c0[i]);
                    assert(keys[i] == k0[i]);
                    assert((forall|j: int| 0 <= j < pos.len() && pos[j] < i ==> keys[pos[j]] != keys[i])
                        <==> (forall|j: int| 0 <= j < pp.len() && pp[j] < i ==> k0[pp[j]] != k0[i]));
                } else {
                    if pos.contains(i) {
                        let j = choose|j: int| 0 <= j < pos.len() && pos[j] == i;
                        assert(pos[j] < n);
                    }
                    if is_supported_spec(cands[n], windows) {
                        assert(prev.1.contains(keys[n]));
                        let j = choose|j: int| 0 <= j < pp.len() && k0[pp[j]] == keys[n];
                        assert(pos[j] == pp[j] && pp[j] < i && keys[pos[j]] == keys[i]);
                    }
                }
            }
        }
    }
}

/// The keys taken by the input selection are those of the files kept.
proof fn lemma_selected_keys(cands: Seq<Seq<char>>, keys: Seq<Seq<char>>, windows: bool)
    requires
        cands.len() == keys.len(),
    ensures
        forall|x: Seq<char>|
            select_spec(cands, keys, windows).1.contains(x) <==> exists|j: int|
                0 <= j < select_positions(cands, keys, windows).len() && keys[select_positions(
                    cands,
                    keys,
                    windows,
                )[j]] == x,
        forall|j: int|
            0 <= j < select_positions(cands, keys, windows).len() ==> 0 <= #[trigger] select_positions(
                cands,
                keys,
                windows,
            )[j] < cands.len(),
        select_positions(cands, keys, windows).len() == select_spec(cands, keys, windows).0.len(),
    decreases cands.len(),
{
    if cands.len() > 0 {
        let n = (cands.len() - 1) as int;
        let c0 = cands.drop_last();
        let k0 = keys.take(n);
        lemma_selected_keys(c0, k0, windows);
        let prev = select_spec(c0, k0, windows);
        let pp = select_positions(c0, k0, windows);
        let pos = select_positions(cands, keys, windows);
        let keep = is_supported_spec(cands[n], windows) && !prev.1.contains(keys[n]);
        if keep {
            assert(pos == pp.push(n));
            assert forall|x: Seq<char>| select_spec(cands, keys, windows).1.contains(x) <==> exists|j: int|
                0 <= j < pos.len() && keys[pos[j]] == x by {
                if prev.1.contains(x) {
                    let j = choose|j: int| 0 <= j < pp.len() && k0[pp[j]] == x;
                    assert(pos[j] == pp[j] && keys[pos[j]] == x);
                }
                if x == keys[n] {
                    assert(pos[pp.len() as int] == n);
                }
                if exists|j: int| 0 <= j < pos.len() && keys[pos[j]] == x {
                    let j = choose|j: int| 0 <= j < pos.len() && keys[pos[j]] == x;
                    if j < pp.len() {
                        assert(pos[j] == pp[j] && k0[pp[j]] == x);
                    }
                }
            }
        } else {
            assert(pos == pp);
            assert forall|x: Seq<char>| select_spec(cands, keys, windows).1.contains(x) <==> exists|j: int|
                0 <= j < pos.len() && keys[pos[j]] == x by {
                if prev.1.contains(x) {
                    let j = choose|j: int| 0 <= j < pp.len() && k0[pp[j]] == x;
                    assert(keys[pos[j]] == x);
                }
                if exists|j: int| 0 <= j < pos.len() && keys[pos[j]] == x {
                    let j = choose|j: int| 0 <= j < pos.len() && keys[pos[j]] == x;
                    assert(k0[pp[j]] == x);
                }
            }
        }
    }
}

/// The text holds no line break.
pub open spec fn single_line(s: Seq<char>) -> bool {
    forall|i: int| 0 <= i < s.len() ==> s[i] != '\n'
}

/// No field of the record that the summary prints holds a line break.
pub open spec fn fields_single_line(r: ParseRecord) -> bool {
    let d = r.envelope.data;
    &&& single_line(r.path@)
    &&& single_line(d.package_name@)
    &&& single_line(d.app_name@)
    &&& single_line(d.channel@)
    &&& single_line(text_or(d.version_name, Seq::empty()))
    &&& single_line(d.icon_url@)
    &&& single_line(text_or(r.icon_exported_to, Seq::empty()))
    &&& forall|i: int| 0 <= i < d.permissions@.len() ==> single_line((#[trigger] d.permissions@[i])@)
    &&& forall|i: int| 0 <= i < d.abis@.len() ==> single_line((#[trigger] d.abis@[i])@)
    &&& forall|i: int|
        0 <= i < r.envelope.warnings@.len() ==> single_line((#[trigger] r.envelope.warnings@[i])@)
    &&& single_line(text_or(r.envelope.error_code, Seq::empty()))
    &&& single_line(text_or(r.envelope.error_message, Seq::empty()))
    &&& forall|i: int|
        0 <= i < d.signers@.len() ==> {
            let sg = #[trigger] d.signers@[i];
            &&& single_line(sg.scheme@)
            &&& single_line(sg.cert_sha256@)
            &&& single_line(sg.issuer@)
            &&& single_line(sg.subject@)
        }
}

proof fn lemma_cat(a: Seq<char>, b: Seq<char>)
    requires
        single_line(a),
        single_line(b),
    ensures
        single_line(a + b),
{
    assert forall|i: int| 0 <= i < (a + b).len() implies (a + b)[i] != '\n' by {
        if i < a.len() {
            assert((a + b)[i] == a[i]);
        } else {
            assert((a + b)[i] == b[i - a.len()]);
        }
    }
}

proof fn lemma_single_contains(s: Seq<char>)
    ensures
        single_line(s) <==> !s.contains('\n'),
{
    if s.contains('\n') {
        let k = choose|k: int| 0 <= k < s.len() && s[k] == '\n';
        assert(!single_line(s));
    }
}

proof fn lemma_nat_decimal_single(n: nat)
    ensures
        single_line(nat_decimal(n)),
    decreases n,
{
    if n >= 10 {
        lemma_nat_decimal_single(n / 10);
        assert(single_line(seq![digit_char(n % 10)]));
        lemma_cat(nat_decimal(n / 10), seq![digit_char(n % 10)]);
    }
}

proof fn lemma_int_decimal_single(i: int)
    ensures
        single_line(int_decimal(i)),
{
    if i < 0 {
        lemma_nat_decimal_single((-i) as nat);
        lemma_cat(seq!['-'], nat_decimal((-i) as nat));
    } else {
        lemma_nat_decimal_single(i as nat);
    }
}

proof fn lemma_join_single(parts: Seq<Seq<char>>, sep: Seq<char>)
    requires
        single_line(sep),
        forall|i: int| 0 <= i < parts.len() ==> single_line(#[trigger] parts[i]),
    ensures
        single_line(join(parts, sep)),
    decreases parts.len(),
{
    if parts.len() > 1 {
        let p = parts.drop_last();
        assert forall|i: int| 0 <= i < p.len() implies single_line(#[trigger] p[i]) by {
            assert(p[i] == parts[i]);
        }
        lemma_join_single(p, sep);
        lemma_cat(join(p, sep), sep);
        assert(single_line(parts.last()));
        lemma_cat(join(p, sep) + sep, parts.last());
    } else if parts.len() == 1 {
        assert(single_line(parts[0]));
    }
}

proof fn lemma_list_single(items: Seq<String>)
    requires
        forall|i: int| 0 <= i < items.len() ==> single_line((#[trigger] items[i])@),
    ensures
        single_line(join_or_empty_spec(texts(items))),
{
    reveal_strlit("none");
    reveal_strlit(", ");
    assert forall|i: int| 0 <= i < texts(items).len() implies single_line(#[trigger] texts(items)[i]) by {
        assert(texts(items)[i] == items[i]@);
    }
    lemma_join_single(texts(items), ", "@);
}

proof fn lemma_empty_text_single(v: Seq<char>)
    requires
        single_line(v),
    ensures
        single_line(empty_text_spec(v)),
{
    reveal_strlit("none");
}

/// No field of a record holding a line break makes every line of its summary a single line.
pub proof fn lemma_summary_lines_single(r: ParseRecord)
    requires
        fields_single_line(r),
    ensures
        forall|i: int|
            0 <= i < summary_lines_spec(r).len() ==> !(#[trigger] summary_lines_spec(r)[i]).contains(
                '\n',
            ),
{
    let d = r.envelope.data;
    reveal_strlit("FilePath: ");
    reveal_strlit("Success: ");
    reveal_strlit("PackageName: ");
    reveal_strlit("AppName: ");
    reveal_strlit("Channel: ");
    reveal_strlit("MinSdkVersion: ");
    reveal_strlit("TargetSdkVersion: ");
    reveal_strlit("CompileSdkVersion: ");
    reveal_strlit("VersionCode: ");
    reveal_strlit("VersionName: ");
    reveal_strlit("IconUrl: ");
    reveal_strlit("IconExportedTo: ");
    reveal_strlit("Permissions: ");
    reveal_strlit("ABIs: ");
    reveal_strlit("Signers: ");
    reveal_strlit("Warnings: ");
    reveal_strlit("ErrorCode: ");
    reveal_strlit("ErrorMessage: ");
    reveal_strlit("null");
    reveal_strlit("true");
    reveal_strlit("false");
    reveal_strlit("Signer#");
    reveal_strlit(": scheme=");
    reveal_strlit(", sha256=");
    reveal_strlit(", issuer=");
    reveal_strlit(", subject=");
    let ls = summary_lines_spec(r);
    lemma_cat("FilePath: "@, r.path@);
    lemma_cat("Success: "@, bool_text(r.envelope.success));
    lemma_cat("PackageName: "@, d.package_name@);
    lemma_cat("AppName: "@, d.app_name@);
    lemma_cat("Channel: "@, d.channel@);
    lemma_int_decimal_single(d.min_sdk_version as int);
    lemma_cat("MinSdkVersion: "@, int_decimal(d.min_sdk_version as int));
    lemma_int_decimal_single(d.target_sdk_version as int);
    lemma_cat("TargetSdkVersion: "@, int_decimal(d.target_sdk_version as int));
    let csv = match d.compile_sdk_version {
        Some(v) => int_decimal(v as int),
        None => "null"@,
    };
    if let Some(v) = d.compile_sdk_version {
        lemma_int_decimal_single(v as int);
    }
    lemma_cat("CompileSdkVersion: "@, csv);
    lemma_int_decimal_single(d.version_code as int);
    lemma_cat("VersionCode: "@, int_decimal(d.version_code as int));
    lemma_cat("VersionName: "@, text_or(d.version_name, "null"@));
    lemma_empty_text_single(d.icon_url@);
    lemma_cat("IconUrl: "@, empty_text_spec(d.icon_url@));
    lemma_empty_text_single(text_or(r.icon_exported_to, Seq::empty()));
    lemma_cat("IconExportedTo: "@, empty_text_spec(text_or(r.icon_exported_to, Seq::empty())));
    lemma_list_single(d.permissions@);
    lemma_cat("Permissions: "@, join_or_empty_spec(texts(d.permissions@)));
    lemma_list_single(d.abis@);
    lemma_cat("ABIs: "@, join_or_empty_spec(texts(d.abis@)));
    lemma_int_decimal_single(d.signers@.len() as int);
    lemma_cat("Signers: "@, int_decimal(d.signers@.len() as int));
    lemma_list_single(r.envelope.warnings@);
    lemma_cat("Warnings: "@, join_or_empty_spec(texts(r.envelope.warnings@)));
    lemma_empty_text_single(text_or(r.envelope.error_code, Seq::empty()));
    lemma_cat("ErrorCode: "@, empty_text_spec(text_or(r.envelope.error_code, Seq::empty())));
    lemma_empty_text_single(text_or(r.envelope.error_message, Seq::empty()));
    lemma_cat("ErrorMessage: "@, empty_text_spec(text_or(r.envelope.error_message, Seq::empty())));
    assert forall|k: int| 0 <= k < d.signers@.len() implies single_line(
        #[trigger] signer_line_spec(k + 1, d.signers@[k]),
    ) by {
        let sg = d.signers@[k];
        lemma_int_decimal_single(k + 1);
        lemma_empty_text_single(sg.scheme@);
        lemma_empty_text_single(sg.cert_sha256@);
        lemma_empty_text_single(sg.issuer@);
        lemma_empty_text_single(sg.subject@);
        let a1 = "Signer#"@ + int_decimal(k + 1);
        lemma_cat("Signer#"@, int_decimal(k + 1));
        let a2 = a1 + ": scheme="@;
        lemma_cat(a1, ": scheme="@);
        let a3 = a2 + empty_text_spec(sg.scheme@);
        lemma_cat(a2, empty_text_spec(sg.scheme@));
        let a4 = a3 + ", sha256="@;
        lemma_cat(a3, ", sha256="@);
        let a5 = a4 + empty_text_spec(sg.cert_sha256@);
        lemma_cat(a4, empty_text_spec(sg.cert_sha256@));
        let a6 = a5 + ", issuer="@;
        lemma_cat(a5, ", issuer="@);
        let a7 = a6 + empty_text_spec(sg.issuer@);
        lemma_cat(a6, empty_text_spec(sg.issuer@));
        let a8 = a7 + ", subject="@;
        lemma_cat(a7, ", subject="@);
        lemma_cat(a8, empty_text_spec(sg.subject@));
    }
    assert forall|i: int| 0 <= i < ls.len() implies !(#[trigger] ls[i]).contains('\n') by {
        if i >= 18 {
            assert(ls[i] == signer_line_spec(i - 18 + 1, d.signers@[i - 18]));
        }
        assert(single_line(ls[i]));
        lemma_single_contains(ls[i]);
    }
}

/// When no field of a record holds a line break, its built-in summary splits at line breaks
/// into exactly 18 lines and one line per signer, as `law_summary_lines` lists them.
pub proof fn law_summary_lines_of_fields(r: ParseRecord, windows: bool)
    requires
        fields_single_line(r),
    ensures
        split_on(render_record_spec(r, None, windows), '\n') == summary_lines_spec(r),
        split_on(render_record_spec(r, None, windows), '\n').len() == 18
            + r.envelope.data.signers@.len(),
{
    lemma_summary_lines_single(r);
    law_summary_lines(r, windows);
}

// ---------------------------------------------------------------------------
// What the operations read, in terms of their inputs
// ---------------------------------------------------------------------------
/// A length as a UTF-8 string pool writes it: one byte below 128, else two bytes with the
/// high bit of the first set.
pub open spec fn pool_len8(n: int) -> Seq<u8> {
    if n < 128 {
        seq![n as u8]
    } else {
        seq![(128 + n / 256) as u8, (n % 256) as u8]
    }
}

proof fn lemma_len8_reads(c: Seq<u8>, start: int, n: int)
    requires
        0 <= n < 0x8000,
        0 <= start,
        start + pool_len8(n).len() <= c.len(),
        c.subrange(start, start + pool_len8(n).len()) == pool_len8(n),
    ensures
        length8_spec(c, start) == Some((n, start + pool_len8(n).len())),
{
    let e = pool_len8(n);
    assert(c[start] == e[0]);
    if n >= 128 {
        assert(c[start + 1] == e[1]);
        assert(0 <= n / 256 < 128);
        assert((128 + n / 256) as u8 == 128 + n / 256);
        assert(((128 + n / 256) - 128) * 256 + n % 256 == n);
    }
}

/// A UTF-8 string pool entry written as its character count, its byte count and its bytes
/// reads back as those bytes decoded: the decoder skips both counts and takes exactly the
/// bytes counted.
pub proof fn law_utf8_pool_entry(c: Seq<u8>, start: int, chars: int, bytes: Seq<u8>)
    requires
        0 <= start,
        0 <= chars < 0x8000,
        bytes.len() < 0x8000,
        start + pool_len8(chars).len() + pool_len8(bytes.len() as int).len() + bytes.len()
            <= c.len(),
        c.subrange(
            start,
            start + pool_len8(chars).len() + pool_len8(bytes.len() as int).len() + bytes.len(),
        ) == pool_len8(chars) + pool_len8(bytes.len() as int) + bytes,
    ensures
        utf8_entry_spec(c, start) == Some(utf8_lossy_spec(bytes)),
{
    let e1 = pool_len8(chars);
    let e2 = pool_len8(bytes.len() as int);
    let off1 = start + e1.len();
    let off2 = off1 + e2.len();
    let all = e1 + e2 + bytes;
    assert(c.subrange(start, off1) =~= e1) by {
        assert forall|k: int| 0 <= k < e1.len() implies c.subrange(start, off1)[k] == e1[k] by {
            assert(c[start + k] == all[k]);
        }
    }
    lemma_len8_reads(c, start, chars);
    assert(c.subrange(off1, off2) =~= e2) by {
        assert forall|k: int| 0 <= k < e2.len() implies c.subrange(off1, off2)[k] == e2[k] by {
            assert(c[off1 + k] == all[e1.len() + k]);
        }
    }
    lemma_len8_reads(c, off1, bytes.len() as int);
    assert(c.subrange(off2, off2 + bytes.len()) =~= bytes) by {
        assert forall|k: int| 0 <= k < bytes.len() implies c.subrange(off2, off2 + bytes.len())[k]
            == bytes[k] by {
            assert(c[off2 + k] == all[e1.len() + e2.len() + k]);
        }
    }
}

/// The application label is looked up in the default `res/values/strings.xml` first: when
/// that file reads as UTF-8 and defines the key, its value is the answer, whatever other
/// `res/values*/strings.xml` files say.
pub proof fn law_default_strings_win(
    es: Seq<EntryView>,
    names: Seq<Seq<char>>,
    key: Seq<char>,
    doc: Seq<u8>,
    v: Seq<char>,
)
    requires
        read_spec(es, "res/values/strings.xml"@) == Some(Some(doc)),
        valid_utf8(doc),
        find_string_spec(doc, key) == Some(v),
    ensures
        resource_lookup(es, strings_candidates(names), key) == Some(v),
{
    assert(strings_candidates(names)[0] == "res/values/strings.xml"@);
}

/// The first of these values that is set to something other than whitespace.
pub open spec fn first_set(a: Option<Seq<char>>, b: Option<Seq<char>>, c: Option<Seq<char>>, d: Option<Seq<char>>) -> Option<Seq<char>> {
    if a matches Some(x) && !is_blank(x) {
        a
    } else if b matches Some(x) && !is_blank(x) {
        b
    } else if c matches Some(x) && !is_blank(x) {
        c
    } else if d matches Some(x) && !is_blank(x) {
        d
    } else {
        None
    }
}

/// The channel named by the manifest's meta-data is the value of the first of the keys
/// `UMENG_CHANNEL`, `CHANNEL`, `channel`, `umeng_channel` that is set to non-blank text.
pub proof fn law_meta_channel_keys(m: ManifestView)
    ensures
        meta_channel(m) == first_set(
            lookup(m.meta_data, "UMENG_CHANNEL"@),
            lookup(m.meta_data, "CHANNEL"@),
            lookup(m.meta_data, "channel"@),
            lookup(m.meta_data, "umeng_channel"@),
        ),
{
    let ks = channel_keys();
    let md = m.meta_data;
    assert(ks.drop_first() =~= seq!["CHANNEL"@, "channel"@, "umeng_channel"@]);
    assert(ks.drop_first().drop_first() =~= seq!["channel"@, "umeng_channel"@]);
    assert(ks.drop_first().drop_first().drop_first() =~= seq!["umeng_channel"@]);
    assert(ks.drop_first().drop_first().drop_first().drop_first().len() == 0);
    reveal_with_fuel(meta_channel_from, 5);
}

/// The value of the first field with this name.
pub open spec fn field_value(fields: Seq<(Seq<char>, Seq<char>)>, name: Seq<char>) -> Option<Seq<char>>
    decreases fields.len(),
{
    if fields.len() == 0 {
        None
    } else if fields[0].0 == name {
        Some(fields[0].1)
    } else {
        field_value(fields.drop_first(), name)
    }
}

proof fn lemma_field_value_at(fields: Seq<(Seq<char>, Seq<char>)>, name: Seq<char>, i: int)
    requires
        0 <= i < fields.len(),
        fields[i].0 == name,
        forall|j: int| 0 <= j < i ==> (#[trigger] fields[j]).0 != name,
    ensures
        field_value(fields, name) == Some(fields[i].1),
    decreases i,
{
    if i > 0 {
        let rest = fields.drop_first();
        assert forall|j: int| 0 <= j < i - 1 implies (#[trigger] rest[j]).0 != name by {
            assert(rest[j] == fields[j + 1]);
        }
        assert(fields[0].0 != name);
        lemma_field_value_at(rest, name, i - 1);
    }
}

/// Each template placeholder stands for its own part of the record: the numeric fields for
/// the decimal text of the matching number, the names for the matching names, the status
/// for the outcome.
pub proof fn law_template_fields(r: ParseRecord, windows: bool)
    ensures
        ({
            let f = template_fields_spec(r, windows);
            let d = r.envelope.data;
            &&& field_value(f, "packname"@) == Some(d.package_name@)
            &&& field_value(f, "app_name"@) == Some(d.app_name@)
            &&& field_value(f, "product_name"@) == Some(d.app_name@)
            &&& field_value(f, "channel"@) == Some(d.channel@)
            &&& field_value(f, "path"@) == Some(r.path@)
            &&& field_value(f, "min_sdk_version"@) == Some(int_decimal(d.min_sdk_version as int))
            &&& field_value(f, "target_sdk_version"@) == Some(
                int_decimal(d.target_sdk_version as int),
            )
            &&& field_value(f, "version_code"@) == Some(int_decimal(d.version_code as int))
            &&& field_value(f, "compile_sdk_version"@) == Some(
                match d.compile_sdk_version {
                    Some(v) => int_decimal(v as int),
                    None => "null"@,
                },
            )
            &&& field_value(f, "version_name"@) == Some(text_or(d.version_name, "null"@))
            &&& field_value(f, "status"@) == Some(
                if r.envelope.success {
                    "success"@
                } else {
                    "error"@
                },
            )
            &&& field_value(f, "error_code"@) == Some(text_or(r.envelope.error_code, "-"@))
            &&& field_value(f, "error_message"@) == Some(text_or(r.envelope.error_message, "-"@))
            &&& field_value(f, "permissions"@) == Some(list_lines_spec(texts(d.permissions@)))
            &&& field_value(f, "abis"@) == Some(list_lines_spec(texts(d.abis@)))
            &&& field_value(f, "warnings"@) == Some(list_lines_spec(texts(r.envelope.warnings@)))
            &&& field_value(f, "signers"@) == Some(signers_lines_spec(d.signers@))
            &&& field_value(f, "ext"@) == Some(get_ext_spec(r.path@, windows))
            &&& field_value(f, "file_name"@) == Some(get_file_name_spec(r.path@, windows))
        }),
{
    reveal_strlit("abis");
    reveal_strlit("app_name");
    reveal_strlit("channel");
    reveal_strlit("compile_sdk_version");
    reveal_strlit("error_code");
    reveal_strlit("error_message");
    reveal_strlit("ext");
    reveal_strlit("file_name");
    reveal_strlit("min_sdk_version");
    reveal_strlit("packname");
    reveal_strlit("path");
    reveal_strlit("permissions");
    reveal_strlit("product_name");
    reveal_strlit("signers");
    reveal_strlit("status");
    reveal_strlit("target_sdk_version");
    reveal_strlit("version_code");
    reveal_strlit("version_name");
    reveal_strlit("warnings");
    let f = template_fields_spec(r, windows);
    assert(f.len() == 19);
    assert(f[0].0 == "abis"@);
    assert(f[1].0 == "app_name"@);
    assert(f[2].0 == "channel"@);
    assert(f[3].0 == "compile_sdk_version"@);
    assert(f[4].0 == "error_code"@);
    assert(f[5].0 == "error_message"@);
    assert(f[6].0 == "ext"@);
    assert(f[7].0 == "file_name"@);
    assert(f[8].0 == "min_sdk_version"@);
    assert(f[9].0 == "packname"@);
    assert(f[10].0 == "path"@);
    assert(f[11].0 == "permissions"@);
    assert(f[12].0 == "product_name"@);
    assert(f[13].0 == "signers"@);
    assert(f[14].0 == "status"@);
    assert(f[15].0 == "target_sdk_version"@);
    assert(f[16].0 == "version_code"@);
    assert(f[17].0 == "version_name"@);
    assert(f[18].0 == "warnings"@);
    assert forall|j: int| 0 <= j < 9 implies (#[trigger] f[j]).0 != "packname"@ by {
        if j == 0 {
            assert("abis"@ != "packname"@);
        }
        if j == 1 {
            assert("app_name"@ != "packname"@) by {
                assert("app_name"@[0] != "packname"@[0]);
            }
        }
        if j == 2 {
            assert("channel"@ != "packname"@);
        }
        if j == 3 {
            assert("compile_sdk_version"@ != "packname"@);
        }
        if j == 4 {
            assert("error_code"@ != "packname"@);
        }
        if j == 5 {
            assert("error_message"@ != "packname"@);
        }
        if j == 6 {
            assert("ext"@ != "packname"@);
        }
        if j == 7 {
            assert("file_name"@ != "packname"@);
        }
        if j == 8 {
            assert("min_sdk_version"@ != "packname"@);
        }
    }
    lemma_field_value_at(f, "packname"@, 9);
    assert forall|j: int| 0 <= j < 1 implies (#[trigger] f[j]).0 != "app_name"@ by {
        if j == 0 {
            assert("abis"@ != "app_name"@);
        }
    }
    lemma_field_value_at(f, "app_name"@, 1);
    assert forall|j: int| 0 <= j < 12 implies (#[trigger] f[j]).0 != "product_name"@ by {
        if j == 0 {
            assert("abis"@ != "product_name"@);
        }
        if j == 1 {
            assert("app_name"@ != "product_name"@);
        }
        if j == 2 {
            assert("channel"@ != "product_name"@);
        }
        if j == 3 {
            assert("compile_sdk_version"@ != "product_name"@);
        }
        if j == 4 {
            assert("error_code"@ != "product_name"@);
        }
        if j == 5 {
            assert("error_message"@ != "product_name"@);
        }
        if j == 6 {
            assert("ext"@ != "product_name"@);
        }
        if j == 7 {
            assert("file_name"@ != "product_name"@);
        }
        if j == 8 {
            assert("min_sdk_version"@ != "product_name"@);
        }
        if j == 9 {
            assert("packname"@ != "product_name"@);
        }
        if j == 10 {
            assert("path"@ != "product_name"@);
        }
        if j == 11 {
            assert("permissions"@ != "product_name"@);
        }
    }
    lemma_field_value_at(f, "product_name"@, 12);
    assert forall|j: int| 0 <= j < 2 implies (#[trigger] f[j]).0 != "channel"@ by {
        if j == 0 {
            assert("abis"@ != "channel"@);
        }
        if j == 1 {
            assert("app_name"@ != "channel"@);
        }
    }
    lemma_field_value_at(f, "channel"@, 2);
    assert forall|j: int| 0 <= j < 10 implies (#[trigger] f[j]).0 != "path"@ by {
        if j == 0 {
            assert("abis"@ != "path"@) by {
                assert("abis"@[0] != "path"@[0]);
            }
        }
        if j == 1 {
            assert("app_name"@ != "path"@);
        }
        if j == 2 {
            assert("channel"@ != "path"@);
        }
        if j == 3 {
            assert("compile_sdk_version"@ != "path"@);
        }
        if j == 4 {
            assert("error_code"@ != "path"@);
        }
        if j == 5 {
            assert("error_message"@ != "path"@);
        }
        if j == 6 {
            assert("ext"@ != "path"@);
        }
        if j == 7 {
            assert("file_name"@ != "path"@);
        }
        if j == 8 {
            assert("min_sdk_version"@ != "path"@);
        }
        if j == 9 {
            assert("packname"@ != "path"@);
        }
    }
    lemma_field_value_at(f, "path"@, 10);
    assert forall|j: int| 0 <= j < 8 implies (#[trigger] f[j]).0 != "min_sdk_version"@ by {
        if j == 0 {
            assert("abis"@ != "min_sdk_version"@);
        }
        if j == 1 {
            assert("app_name"@ != "min_sdk_version"@);
        }
        if j == 2 {
            assert("channel"@ != "min_sdk_version"@);
        }
        if j == 3 {
            assert("compile_sdk_version"@ != "min_sdk_version"@);
        }
        if j == 4 {
            assert("error_code"@ != "min_sdk_version"@);
        }
        if j == 5 {
            assert("error_message"@ != "min_sdk_version"@);
        }
        if j == 6 {
            assert("ext"@ != "min_sdk_version"@);
        }
        if j == 7 {
            assert("file_name"@ != "min_sdk_version"@);
        }
    }
    lemma_field_value_at(f, "min_sdk_version"@, 8);
    assert forall|j: int| 0 <= j < 15 implies (#[trigger] f[j]).0 != "target_sdk_version"@ by {
        if j == 0 {
            assert("abis"@ != "target_sdk_version"@);
        }
        if j == 1 {
            assert("app_name"@ != "target_sdk_version"@);
        }
        if j == 2 {
            assert("channel"@ != "target_sdk_version"@);
        }
        if j == 3 {
            assert("compile_sdk_version"@ != "target_sdk_version"@);
        }
        if j == 4 {
            assert("error_code"@ != "target_sdk_version"@);
        }
        if j == 5 {
            assert("error_message"@ != "target_sdk_version"@);
        }
        if j == 6 {
            assert("ext"@ != "target_sdk_version"@);
        }
        if j == 7 {
            assert("file_name"@ != "target_sdk_version"@);
        }
        if j == 8 {
            assert("min_sdk_version"@ != "target_sdk_version"@);
        }
        if j == 9 {
            assert("packname"@ != "target_sdk_version"@);
        }
        if j == 10 {
            assert("path"@ != "target_sdk_version"@);
        }
        if j == 11 {
            assert("permissions"@ != "target_sdk_version"@);
        }
        if j == 12 {
            assert("product_name"@ != "target_sdk_version"@);
        }
        if j == 13 {
            assert("signers"@ != "target_sdk_version"@);
        }
        if j == 14 {
            assert("status"@ != "target_sdk_version"@);
        }
    }
    lemma_field_value_at(f, "target_sdk_version"@, 15);
    assert forall|j: int| 0 <= j < 16 implies (#[trigger] f[j]).0 != "version_code"@ by {
        if j == 0 {
            assert("abis"@ != "version_code"@);
        }
        if j == 1 {
            assert("app_name"@ != "version_code"@);
        }
        if j == 2 {
            assert("channel"@ != "version_code"@);
        }
        if j == 3 {
            assert("compile_sdk_version"@ != "version_code"@);
        }
        if j == 4 {
            assert("error_code"@ != "version_code"@);
        }
        if j == 5 {
            assert("error_message"@ != "version_code"@);
        }
        if j == 6 {
            assert("ext"@ != "version_code"@);
        }
        if j == 7 {
            assert("file_name"@ != "version_code"@);
        }
        if j == 8 {
            assert("min_sdk_version"@ != "version_code"@);
        }
        if j == 9 {
            assert("packname"@ != "version_code"@);
        }
        if j == 10 {
            assert("path"@ != "version_code"@);
        }
        if j == 11 {
            assert("permissions"@ != "version_code"@);
        }
        if j == 12 {
            assert("product_name"@ != "version_code"@) by {
                assert("product_name"@[0] != "version_code"@[0]);
            }
        }
        if j == 13 {
            assert("signers"@ != "version_code"@);
        }
        if j == 14 {
            assert("status"@ != "version_code"@);
        }
        if j == 15 {
            assert("target_sdk_version"@ != "version_code"@);
        }
    }
    lemma_field_value_at(f, "version_code"@, 16);
    assert forall|j: int| 0 <= j < 3 implies (#[trigger] f[j]).0 != "compile_sdk_version"@ by {
        if j == 0 {
            assert("abis"@ != "compile_sdk_version"@);
        }
        if j == 1 {
            assert("app_name"@ != "compile_sdk_version"@);
        }
        if j == 2 {
            assert("channel"@ != "compile_sdk_version"@);
        }
    }
    lemma_field_value_at(f, "compile_sdk_version"@, 3);
    assert forall|j: int| 0 <= j < 17 implies (#[trigger] f[j]).0 != "version_name"@ by {
        if j == 0 {
            assert("abis"@ != "version_name"@);
        }
        if j == 1 {
            assert("app_name"@ != "version_name"@);
        }
        if j == 2 {
            assert("channel"@ != "version_name"@);
        }
        if j == 3 {
            assert("compile_sdk_version"@ != "version_name"@);
        }
        if j == 4 {
            assert("error_code"@ != "version_name"@);
        }
        if j == 5 {
            assert("error_message"@ != "version_name"@);
        }
        if j == 6 {
            assert("ext"@ != "version_name"@);
        }
        if j == 7 {
            assert("file_name"@ != "version_name"@);
        }
        if j == 8 {
            assert("min_sdk_version"@ != "version_name"@);
        }
        if j == 9 {
            assert("packname"@ != "version_name"@);
        }
        if j == 10 {
            assert("path"@ != "version_name"@);
        }
        if j == 11 {
            assert("permissions"@ != "version_name"@);
        }
        if j == 12 {
            assert("product_name"@ != "version_name"@) by {
                assert("product_name"@[0] != "version_name"@[0]);
            }
        }
        if j == 13 {
            assert("signers"@ != "version_name"@);
        }
        if j == 14 {
            assert("status"@ != "version_name"@);
        }
        if j == 15 {
            assert("target_sdk_version"@ != "version_name"@);
        }
        if j == 16 {
            assert("version_code"@ != "version_name"@) by {
                assert("version_code"@[8] != "version_name"@[8]);
            }
        }
    }
    lemma_field_value_at(f, "version_name"@, 17);
    assert forall|j: int| 0 <= j < 14 implies (#[trigger] f[j]).0 != "status"@ by {
        if j == 0 {
            assert("abis"@ != "status"@);
        }
        if j == 1 {
            assert("app_name"@ != "status"@);
        }
        if j == 2 {
            assert("channel"@ != "status"@);
        }
        if j == 3 {
            assert("compile_sdk_version"@ != "status"@);
        }
        if j == 4 {
            assert("error_code"@ != "status"@);
        }
        if j == 5 {
            assert("error_message"@ != "status"@);
        }
        if j == 6 {
            assert("ext"@ != "status"@);
        }
        if j == 7 {
            assert("file_name"@ != "status"@);
        }
        if j == 8 {
            assert("min_sdk_version"@ != "status"@);
        }
        if j == 9 {
            assert("packname"@ != "status"@);
        }
        if j == 10 {
            assert("path"@ != "status"@);
        }
        if j == 11 {
            assert("permissions"@ != "status"@);
        }
        if j == 12 {
            assert("product_name"@ != "status"@);
        }
        if j == 13 {
            assert("signers"@ != "status"@);
        }
    }
    lemma_field_value_at(f, "status"@, 14);
    assert forall|j: int| 0 <= j < 4 implies (#[trigger] f[j]).0 != "error_code"@ by {
        if j == 0 {
            assert("abis"@ != "error_code"@);
        }
        if j == 1 {
            assert("app_name"@ != "error_code"@);
        }
        if j == 2 {
            assert("channel"@ != "error_code"@);
        }
        if j == 3 {
            assert("compile_sdk_version"@ != "error_code"@);
        }
    }
    lemma_field_value_at(f, "error_code"@, 4);
    assert forall|j: int| 0 <= j < 5 implies (#[trigger] f[j]).0 != "error_message"@ by {
        if j == 0 {
            assert("abis"@ != "error_message"@);
        }
        if j == 1 {
            assert("app_name"@ != "error_message"@);
        }
        if j == 2 {
            assert("channel"@ != "error_message"@);
        }
        if j == 3 {
            assert("compile_sdk_version"@ != "error_message"@);
        }
        if j == 4 {
            assert("error_code"@ != "error_message"@);
        }
    }
    lemma_field_value_at(f, "error_message"@, 5);
    assert forall|j: int| 0 <= j < 11 implies (#[trigger] f[j]).0 != "permissions"@ by {
        if j == 0 {
            assert("abis"@ != "permissions"@);
        }
        if j == 1 {
            assert("app_name"@ != "permissions"@);
        }
        if j == 2 {
            assert("channel"@ != "permissions"@);
        }
        if j == 3 {
            assert("compile_sdk_version"@ != "permissions"@);
        }
        if j == 4 {
            assert("error_code"@ != "permissions"@);
        }
        if j == 5 {
            assert("error_message"@ != "permissions"@);
        }
        if j == 6 {
            assert("ext"@ != "permissions"@);
        }
        if j == 7 {
            assert("file_name"@ != "permissions"@);
        }
        if j == 8 {
            assert("min_sdk_version"@ != "permissions"@);
        }
        if j == 9 {
            assert("packname"@ != "permissions"@);
        }
        if j == 10 {
            assert("path"@ != "permissions"@);
        }
    }
    lemma_field_value_at(f, "permissions"@, 11);
    assert forall|j: int| 0 <= j < 0 implies (#[trigger] f[j]).0 != "abis"@ by {
    }
    lemma_field_value_at(f, "abis"@, 0);
    assert forall|j: int| 0 <= j < 18 implies (#[trigger] f[j]).0 != "warnings"@ by {
        if j == 0 {
            assert("abis"@ != "warnings"@);
        }
        if j == 1 {
            assert("app_name"@ != "warnings"@) by {
                assert("app_name"@[0] != "warnings"@[0]);
            }
        }
        if j == 2 {
            assert("channel"@ != "warnings"@);
        }
        if j == 3 {
            assert("compile_sdk_version"@ != "warnings"@);
        }
        if j == 4 {
            assert("error_code"@ != "warnings"@);
        }
        if j == 5 {
            assert("error_message"@ != "warnings"@);
        }
        if j == 6 {
            assert("ext"@ != "warnings"@);
        }
        if j == 7 {
            assert("file_name"@ != "warnings"@);
        }
        if j == 8 {
            assert("min_sdk_version"@ != "warnings"@);
        }
        if j == 9 {
            assert("packname"@ != "warnings"@) by {
                assert("packname"@[0] != "warnings"@[0]);
            }
        }
        if j == 10 {
            assert("path"@ != "warnings"@);
        }
        if j == 11 {
            assert("permissions"@ != "warnings"@);
        }
        if j == 12 {
            assert("product_name"@ != "warnings"@);
        }
        if j == 13 {
            assert("signers"@ != "warnings"@);
        }
        if j == 14 {
            assert("status"@ != "warnings"@);
        }
        if j == 15 {
            assert("target_sdk_version"@ != "warnings"@);
        }
        if j == 16 {
            assert("version_code"@ != "warnings"@);
        }
        if j == 17 {
            assert("version_name"@ != "warnings"@);
        }
    }
    lemma_field_value_at(f, "warnings"@, 18);
    assert forall|j: int| 0 <= j < 13 implies (#[trigger] f[j]).0 != "signers"@ by {
        if j == 0 {
            assert("abis"@ != "signers"@);
        }
        if j == 1 {
            assert("app_name"@ != "signers"@);
        }
        if j == 2 {
            assert("channel"@ != "signers"@) by {
                assert("channel"@[0] != "signers"@[0]);
            }
        }
        if j == 3 {
            assert("compile_sdk_version"@ != "signers"@);
        }
        if j == 4 {
            assert("error_code"@ != "signers"@);
        }
        if j == 5 {
            assert("error_message"@ != "signers"@);
        }
        if j == 6 {
            assert("ext"@ != "signers"@);
        }
        if j == 7 {
            assert("file_name"@ != "signers"@);
        }
        if j == 8 {
            assert("min_sdk_version"@ != "signers"@);
        }
        if j == 9 {
            assert("packname"@ != "signers"@);
        }
        if j == 10 {
            assert("path"@ != "signers"@);
        }
        if j == 11 {
            assert("permissions"@ != "signers"@);
        }
        if j == 12 {
            assert("product_name"@ != "signers"@);
        }
    }
    lemma_field_value_at(f, "signers"@, 13);
    assert forall|j: int| 0 <= j < 6 implies (#[trigger] f[j]).0 != "ext"@ by {
        if j == 0 {
            assert("abis"@ != "ext"@);
        }
        if j == 1 {
            assert("app_name"@ != "ext"@);
        }
        if j == 2 {
            assert("channel"@ != "ext"@);
        }
        if j == 3 {
            assert("compile_sdk_version"@ != "ext"@);
        }
        if j == 4 {
            assert("error_code"@ != "ext"@);
        }
        if j == 5 {
            assert("error_message"@ != "ext"@);
        }
    }
    lemma_field_value_at(f, "ext"@, 6);
    assert forall|j: int| 0 <= j < 7 implies (#[trigger] f[j]).0 != "file_name"@ by {
        if j == 0 {
            assert("abis"@ != "file_name"@);
        }
        if j == 1 {
            assert("app_name"@ != "file_name"@);
        }
        if j == 2 {
            assert("channel"@ != "file_name"@);
        }
        if j == 3 {
            assert("compile_sdk_version"@ != "file_name"@);
        }
        if j == 4 {
            assert("error_code"@ != "file_name"@);
        }
        if j == 5 {
            assert("error_message"@ != "file_name"@);
        }
        if j == 6 {
            assert("ext"@ != "file_name"@);
        }
    }
    lemma_field_value_at(f, "file_name"@, 7);
}

/// A 16-bit value written little-endian.
pub open spec fn le_bytes16(v: int) -> Seq<u8> {
    seq![(v % 256) as u8, (v / 256) as u8]
}

/// A 32-bit value written little-endian.
pub open spec fn le_bytes32(v: int) -> Seq<u8> {
    le_bytes16(v % 65536) + le_bytes16(v / 65536)
}

/// A 16-bit value written little-endian reads back as itself.
pub proof fn law_le16_reads(b: Seq<u8>, off: int, v: int)
    requires
        0 <= v < 65536,
        0 <= off,
        off + 2 <= b.len(),
        b.subrange(off, off + 2) == le_bytes16(v),
    ensures
        le16(b, off) == v,
{
    assert(b[off] == le_bytes16(v)[0]);
    assert(b[off + 1] == le_bytes16(v)[1]);
}

/// A 32-bit value written little-endian reads back as itself.
pub proof fn law_le32_reads(b: Seq<u8>, off: int, v: int)
    requires
        0 <= v < 0x1_0000_0000,
        0 <= off,
        off + 4 <= b.len(),
        b.subrange(off, off + 4) == le_bytes32(v),
    ensures
        le32(b, off) == v,
{
    let e = le_bytes32(v);
    assert(b.subrange(off, off + 2) =~= le_bytes16(v % 65536)) by {
        assert(b[off] == e[0] && b[off + 1] == e[1]);
    }
    assert(b.subrange(off + 2, off + 4) =~= le_bytes16(v / 65536)) by {
        assert(b[off + 2] == e[2] && b[off + 3] == e[3]);
    }
    law_le16_reads(b, off, v % 65536);
    law_le16_reads(b, off + 2, v / 65536);
}

/// A UTF-16 string pool entry written as its unit count and its little-endian units reads
/// back as those units decoded.
pub proof fn law_utf16_pool_entry(c: Seq<u8>, start: int, units: Seq<u16>)
    requires
        0 <= start,
        units.len() < 0x8000,
        start + 2 + 2 * units.len() <= c.len(),
        c.subrange(start, start + 2) == le_bytes16(units.len() as int),
        forall|k: int|
            0 <= k < units.len() ==> c.subrange(start + 2 + 2 * k, start + 4 + 2 * k) == le_bytes16(
                #[trigger] units[k] as int,
            ),
    ensures
        utf16_entry_spec(c, start) == Some(utf16_lossy_spec(units)),
{
    law_le16_reads(c, start, units.len() as int);
    let got = units_spec(c, start + 2, units.len() as int);
    assert forall|k: int| 0 <= k < units.len() implies got[k] == units[k] by {
        law_le16_reads(c, start + 2 + 2 * k, units[k] as int);
    }
    assert(got =~= units);
}

/// A UTF-8 string pool as an APK builder writes it (string count at byte 8, the UTF-8 flag
/// in the flags at byte 16, the strings' start at byte 20, one offset per string from byte
/// 28, each string written as its character count, byte count and bytes) reads back as
/// exactly the strings written.
pub proof fn law_utf8_pool(c: Seq<u8>, strs: Seq<Seq<u8>>, chars: Seq<int>)
    requires
        chars.len() == strs.len(),
        c.len() >= 28 + 4 * strs.len(),
        le32(c, 8) == strs.len(),
        (le32(c, 16) as u32) & 0x100u32 != 0,
        forall|i: int|
            0 <= i < strs.len() ==> {
                let st = le32(c, 20) + le32(c, 28 + 4 * i);
                let e = pool_len8(chars[i]) + pool_len8(strs[i].len() as int) + #[trigger] strs[i];
                &&& 0 <= chars[i] < 0x8000
                &&& strs[i].len() < 0x8000
                &&& st + e.len() <= c.len()
                &&& c.subrange(st, st + e.len()) == e
            },
    ensures
        string_pool_spec(c) == Some(Seq::new(strs.len(), |i: int| utf8_lossy_spec(strs[i]))),
{
    assert forall|i: int| 0 <= i < le32(c, 8) implies (#[trigger] pool_entry_spec(c, i)) is Some
        && pool_entry_spec(c, i) == Some(utf8_lossy_spec(strs[i])) by {
        let st = le32(c, 20) + le32(c, 28 + 4 * i);
        assert(0 <= le32(c, 20) && 0 <= le32(c, 28 + 4 * i));
        let e = pool_len8(chars[i]) + pool_len8(strs[i].len() as int) + strs[i];
        assert(e.len() > 0);
        law_utf8_pool_entry(c, st, chars[i], strs[i]);
    }
    assert(Seq::new(le32(c, 8) as nat, |i: int| pool_entry_spec(c, i).unwrap()) =~= Seq::new(
        strs.len(),
        |i: int| utf8_lossy_spec(strs[i]),
    ));
}

/// Every error's message starts with its code and a colon.
pub proof fn law_error_message_starts_with_code(e: BackendError)
    ensures
        (error_code(e) + ": "@).is_prefix_of(error_message(e)),
{
    reveal_strlit(": ");
    match e {
        BackendError::InputNotFound => {
            reveal_strlit("INPUT_NOT_FOUND");
            reveal_strlit("INPUT_NOT_FOUND: file does not exist");
        },
        BackendError::InputNotApk => {
            reveal_strlit("INPUT_NOT_APK");
            reveal_strlit("INPUT_NOT_APK: file extension must be .apk for v1.0");
        },
        BackendError::InputNotFile => {
            reveal_strlit("INPUT_NOT_FILE");
            reveal_strlit("INPUT_NOT_FILE: path is not a regular file");
        },
        BackendError::ApkOpenFailed => {
            reveal_strlit("APK_OPEN_FAILED");
            reveal_strlit("APK_OPEN_FAILED: unable to open apk archive");
        },
        BackendError::ApkEntryReadFailed => {
            reveal_strlit("APK_ENTRY_READ_FAILED");
            reveal_strlit("APK_ENTRY_READ_FAILED: unable to read apk entry");
        },
        BackendError::ManifestNotFound => {
            reveal_strlit("MANIFEST_NOT_FOUND");
            reveal_strlit("MANIFEST_NOT_FOUND: AndroidManifest.xml is missing");
        },
        BackendError::ManifestParseFailed => {
            reveal_strlit("MANIFEST_PARSE_FAILED");
            reveal_strlit("MANIFEST_PARSE_FAILED: unable to parse AndroidManifest.xml");
        },
        BackendError::ParseLimitExceeded => {
            reveal_strlit("PARSE_LIMIT_EXCEEDED");
            reveal_strlit("PARSE_LIMIT_EXCEEDED: parser limit exceeded");
        },
        BackendError::BundletoolNotFound => {
            reveal_strlit("BUNDLETOOL_NOT_FOUND_AAB_UNAVAILABLE");
            reveal_strlit(
                "BUNDLETOOL_NOT_FOUND_AAB_UNAVAILABLE: bundletool.jar was not found, so app bundles cannot be parsed",
            );
        },
        BackendError::JavaNotFound => {
            reveal_strlit("JAVA_NOT_FOUND_AAB_UNAVAILABLE");
            reveal_strlit(
                "JAVA_NOT_FOUND_AAB_UNAVAILABLE: Java was not found, so bundletool cannot run",
            );
        },
        BackendError::AabConvertFailed => {
            reveal_strlit("AAB_CONVERT_FAILED");
            reveal_strlit("AAB_CONVERT_FAILED: bundletool did not produce a universal APK");
        },
    }
}

/// The text of a typed attribute value in a binary manifest, by its type byte: a string
/// index (0x03) names a pool string, or nothing when out of range; a decimal (0x10) is the
/// signed 32-bit value; a boolean (0x12) is `false` for 0 and `true` otherwise; a hexadecimal
/// number (0x11) and any other type are `0x` and eight hex digits; a reference (0x01) is
/// `@0x` and eight hex digits.
pub proof fn law_typed_values(strings: Seq<Seq<char>>, data: u32)
    ensures
        typed_value_spec(strings, 0x03, data) == (if (data as int) < strings.len() {
            strings[data as int]
        } else {
            Seq::empty()
        }),
        typed_value_spec(strings, 0x10, data) == int_decimal(
            if (data as int) < 0x8000_0000 {
                data as int
            } else {
                data as int - 0x1_0000_0000
            },
        ),
        typed_value_spec(strings, 0x12, data) == (if data == 0 {
            "false"@
        } else {
            "true"@
        }),
        typed_value_spec(strings, 0x11, data) == "0x"@ + hex_fixed(data as nat, 8),
        typed_value_spec(strings, 0x01, data) == "@0x"@ + hex_fixed(data as nat, 8),
        forall|t: u8|
            t != 0x01 && t != 0x03 && t != 0x10 && t != 0x11 && t != 0x12 ==> #[trigger] typed_value_spec(
                strings,
                t,
                data,
            ) == "0x"@ + hex_fixed(data as nat, 8),
{
}

/// A marker entry `META-INF/channel_<name>` with a non-empty name.
pub open spec fn is_marker(n: Seq<char>) -> bool {
    n.len() > 17 && "META-INF/channel_"@.is_prefix_of(n)
}

/// The channel an archive names: what follows `META-INF/channel_` in the first entry named
/// so with something more; none when no entry is.
pub proof fn law_archive_channel(names: Seq<Seq<char>>)
    ensures
        forall|i: int|
            0 <= i < names.len() && is_marker(#[trigger] names[i]) && (forall|j: int|
                0 <= j < i ==> !is_marker(#[trigger] names[j])) ==> archive_channel(names) == Some(
                names[i].skip(17),
            ),
        (forall|j: int| 0 <= j < names.len() ==> !is_marker(#[trigger] names[j]))
            ==> archive_channel(names) is None,
    decreases names.len(),
{
    reveal_strlit("META-INF/channel_");
    if names.len() > 0 {
        let rest = names.drop_first();
        law_archive_channel(rest);
        assert forall|i: int|
            0 <= i < names.len() && is_marker(#[trigger] names[i]) && (forall|j: int|
                0 <= j < i ==> !is_marker(#[trigger] names[j])) implies archive_channel(names)
            == Some(names[i].skip(17)) by {
            if i > 0 {
                assert(!is_marker(names[0]));
                assert(rest[i - 1] == names[i]);
                assert forall|j: int| 0 <= j < i - 1 implies !is_marker(#[trigger] rest[j]) by {
                    assert(rest[j] == names[j + 1]);
                }
            }
        }
        if forall|j: int| 0 <= j < names.len() ==> !is_marker(#[trigger] names[j]) {
            assert(!is_marker(names[0]));
            assert forall|j: int| 0 <= j < rest.len() implies !is_marker(#[trigger] rest[j]) by {
                assert(rest[j] == names[j + 1]);
            }
        }
    }
}

/// The vendor names looked for in a file name, in priority order.
pub open spec fn vendor_tokens() -> Seq<Seq<char>> {
    seq![
        "huawei"@,
        "xiaomi"@,
        "oppo"@,
        "vivo"@,
        "tencent"@,
        "baidu"@,
        "googleplay"@,
        "samsung"@,
    ]
}

/// The channel a file name names is the first of huawei, xiaomi, oppo, vivo, tencent,
/// baidu, googleplay, samsung that its lowercased stem contains; none when it contains none
/// or has no stem.
pub proof fn law_filename_channel(path: Seq<char>, windows: bool)
    ensures
        match file_stem_spec(path, windows) {
            None => filename_channel(path, windows) is None,
            Some(stem) => {
                let low = unicode_lower(stem);
                &&& forall|k: int|
                    0 <= k < 8 && contains_seq(low, #[trigger] vendor_tokens()[k]) && (forall|j: int|
                        0 <= j < k ==> !contains_seq(low, #[trigger] vendor_tokens()[j]))
                        ==> filename_channel(path, windows) == Some(vendor_tokens()[k])
                &&& (forall|k: int| 0 <= k < 8 ==> !contains_seq(low, #[trigger] vendor_tokens()[k]))
                    ==> filename_channel(path, windows) is None
            },
        },
{
    if let Some(stem) = file_stem_spec(path, windows) {
        let low = unicode_lower(stem);
        let t = vendor_tokens();
        assert(channel_tokens() =~= t);
        lemma_first_token(low, t);
    }
}

proof fn lemma_first_token(text: Seq<char>, t: Seq<Seq<char>>)
    ensures
        forall|k: int|
            0 <= k < t.len() && contains_seq(text, #[trigger] t[k]) && (forall|j: int|
                0 <= j < k ==> !contains_seq(text, #[trigger] t[j])) ==> first_token_in(text, t)
                == Some(t[k]),
        (forall|k: int| 0 <= k < t.len() ==> !contains_seq(text, #[trigger] t[k])) ==> first_token_in(
            text,
            t,
        ) is None,
    decreases t.len(),
{
    if t.len() > 0 {
        let rest = t.drop_first();
        lemma_first_token(text, rest);
        assert forall|k: int|
            0 <= k < t.len() && contains_seq(text, #[trigger] t[k]) && (forall|j: int|
                0 <= j < k ==> !contains_seq(text, #[trigger] t[j])) implies first_token_in(text, t)
            == Some(t[k]) by {
            if k > 0 {
                assert(!contains_seq(text, t[0]));
                assert(rest[k - 1] == t[k]);
                assert forall|j: int| 0 <= j < k - 1 implies !contains_seq(text, #[trigger] rest[j]) by {
                    assert(rest[j] == t[j + 1]);
                }
            }
        }
        if forall|k: int| 0 <= k < t.len() ==> !contains_seq(text, #[trigger] t[k]) {
            assert(!contains_seq(text, t[0]));
            assert forall|k: int| 0 <= k < rest.len() implies !contains_seq(text, #[trigger] rest[k]) by {
                assert(rest[k] == t[k + 1]);
            }
        }
    }
}

/// The channel comes from the highest-priority source that names one: the manifest's
/// meta-data, then a `META-INF/channel_*` entry, then the file name.
pub proof fn law_channel_priority(m: ManifestView, path: Seq<char>, names: Seq<Seq<char>>, windows: bool)
    ensures
        meta_channel(m) is Some ==> channel_spec(m, path, names, windows) == meta_channel(m),
        meta_channel(m) is None && archive_channel(names) is Some ==> channel_spec(
            m,
            path,
            names,
            windows,
        ) == archive_channel(names),
        meta_channel(m) is None && archive_channel(names) is None ==> channel_spec(
            m,
            path,
            names,
            windows,
        ) == filename_channel(path, windows),
{
}

/// An ABI is reported exactly when it is one of arm64-v8a, armeabi-v7a, x86, x86_64 and
/// some archive entry lies under `lib/<abi>/`.
pub proof fn law_abis_present(names: Seq<Seq<char>>, a: Seq<char>)
    ensures
        abis_spec(names).contains(a) <==> (a == "arm64-v8a"@ || a == "armeabi-v7a"@ || a == "x86"@
            || a == "x86_64"@) && exists|i: int|
            0 <= i < names.len() && ("lib/"@ + a + "/"@).is_prefix_of(#[trigger] names[i]),
{
    let f = |x: Seq<char>| abi_present(names, x);
    let k = known_abis();
    if abis_spec(names).contains(a) {
        k.lemma_filter_contains_rev(f, a);
        let j = choose|j: int| 0 <= j < abis_spec(names).len() && abis_spec(names)[j] == a;
        k.lemma_filter_pred(f, j);
    }
    if (a == "arm64-v8a"@ || a == "armeabi-v7a"@ || a == "x86"@ || a == "x86_64"@) && exists|i: int|
        0 <= i < names.len() && ("lib/"@ + a + "/"@).is_prefix_of(#[trigger] names[i]) {
        let idx = if a == "arm64-v8a"@ {
            0int
        } else if a == "armeabi-v7a"@ {
            1int
        } else if a == "x86"@ {
            2int
        } else {
            3int
        };
        assert(k[idx] == a);
        k.lemma_filter_contains(f, idx);
    }
}

/// What one manifest element sets: `<manifest>` its package, version code and name and
/// compile SDK; `<uses-sdk>` the minimum and target SDK levels; `<uses-permission>` adds its
/// name to the permissions; `<application>` the label and icon; `<meta-data>` adds its name
/// and value. An attribute that is absent leaves its field as it was, and no other field
/// changes.
pub proof fn law_apply_tag(tag: Seq<char>, attrs: AttrsView, m: ManifestView)
    ensures
        ({
            let r = apply_tag_spec(tag, attrs, m);
            let get = |k: Seq<char>| lookup(attrs, k);
            if tag == "manifest"@ {
                &&& r.package_name == (if get("package"@) is Some {
                    get("package"@)
                } else {
                    m.package_name
                })
                &&& r.version_code == (match get("versionCode"@) {
                    Some(v) => parse_i64_spec(v),
                    None => m.version_code,
                })
                &&& r.version_name == (if get("versionName"@) is Some {
                    get("versionName"@)
                } else {
                    m.version_name
                })
                &&& r.compile_sdk_version == (match get("compileSdkVersion"@) {
                    Some(v) => parse_i32_spec(v),
                    None => m.compile_sdk_version,
                })
                &&& r.min_sdk_version == m.min_sdk_version
                &&& r.target_sdk_version == m.target_sdk_version
                &&& r.app_name == m.app_name && r.app_icon == m.app_icon
                &&& r.permissions == m.permissions && r.meta_data == m.meta_data
            } else if tag == "uses-sdk"@ {
                &&& r.min_sdk_version == (match get("minSdkVersion"@) {
                    Some(v) => parse_i32_spec(v),
                    None => m.min_sdk_version,
                })
                &&& r.target_sdk_version == (match get("targetSdkVersion"@) {
                    Some(v) => parse_i32_spec(v),
                    None => m.target_sdk_version,
                })
                &&& r.package_name == m.package_name && r.version_code == m.version_code
                &&& r.compile_sdk_version == m.compile_sdk_version
                &&& r.app_name == m.app_name && r.permissions == m.permissions
            } else if tag == "uses-permission"@ {
                &&& r.permissions == (match get("name"@) {
                    Some(v) => m.permissions.push(v),
                    None => m.permissions,
                })
                &&& r.package_name == m.package_name && r.min_sdk_version == m.min_sdk_version
                &&& r.target_sdk_version == m.target_sdk_version && r.app_name == m.app_name
            } else if tag == "application"@ {
                &&& r.app_name == (if get("label"@) is Some {
                    get("label"@)
                } else {
                    m.app_name
                })
                &&& r.app_icon == (if get("icon"@) is Some {
                    get("icon"@)
                } else {
                    m.app_icon
                })
                &&& r.package_name == m.package_name && r.permissions == m.permissions
                &&& r.min_sdk_version == m.min_sdk_version
                &&& r.target_sdk_version == m.target_sdk_version
            } else if tag == "meta-data"@ {
                &&& r.meta_data == (match (get("name"@), get("value"@)) {
                    (Some(n), Some(v)) => m.meta_data.push((n, v)),
                    _ => m.meta_data,
                })
                &&& r.package_name == m.package_name && r.app_name == m.app_name
                &&& r.permissions == m.permissions
            } else {
                r == m
            }
        }),
{
}

proof fn lemma_digit_char_value(d: nat)
    requires
        d < 10,
    ensures
        digit_value(digit_char(d), 10) == Some(d),
        digit_char(d) != '-' && digit_char(d) != '+' && digit_char(d) != 'x',
{
}

proof fn lemma_nat_decimal_reads(n: nat)
    ensures
        all_digits(nat_decimal(n), 10),
        digits_value(nat_decimal(n), 10) == n,
        nat_decimal(n).len() > 0,
        forall|i: int|
            0 <= i < nat_decimal(n).len() ==> #[trigger] nat_decimal(n)[i] != '-'
                && nat_decimal(n)[i] != '+' && nat_decimal(n)[i] != 'x',
    decreases n,
{
    lemma_digit_char_value(n % 10);
    if n >= 10 {
        lemma_nat_decimal_reads(n / 10);
        let p = nat_decimal(n / 10);
        let s = nat_decimal(n);
        assert(s == p + seq![digit_char(n % 10)]);
        assert(s.drop_last() =~= p);
        assert forall|i: int| 0 <= i < s.len() implies (#[trigger] digit_value(s[i], 10)) is Some by {
            if i < p.len() {
                assert(s[i] == p[i]);
            }
        }
        assert forall|i: int| 0 <= i < s.len() implies #[trigger] s[i] != '-' && s[i] != '+' && s[i]
            != 'x' by {
            if i < p.len() {
                assert(s[i] == p[i]);
            }
        }
        assert(digits_value(s, 10) == digits_value(p, 10) * 10 + (n % 10));
        assert(digits_value(p, 10) == n / 10);
        assert((n / 10) * 10 + n % 10 == n);
    } else {
        let s = nat_decimal(n);
        assert(s.drop_last().len() == 0);
        assert(digits_value(s.drop_last(), 10) == 0);
        assert(s.last() == digit_char(n));
        assert(n % 10 == n);
        assert(digits_value(s, 10) == n);
    }
}

/// Reading a manifest number gives back any 32-bit number written in decimal.
pub proof fn law_parse_i32_decimal(n: i32)
    ensures
        parse_i32_spec(int_decimal(n as int)) == Some(n),
{
    let a: nat = if n < 0 {
        (-(n as int)) as nat
    } else {
        n as nat
    };
    lemma_nat_decimal_reads(a);
    let t = int_decimal(n as int);
    let digits = nat_decimal(a);
    if n < 0 {
        assert(t == seq!['-'] + digits);
        assert(t.drop_first() =~= digits);
        assert(!seq!['0', 'x'].is_prefix_of(t));
    } else {
        assert(t == digits);
        if seq!['0', 'x'].is_prefix_of(t) {
            assert(t[1] == 'x');
        }
    }
}

/// Reading a manifest number gives back any 64-bit number written in decimal.
pub proof fn law_parse_i64_decimal(n: i64)
    ensures
        parse_i64_spec(int_decimal(n as int)) == Some(n),
{
    let a: nat = if n < 0 {
        (-(n as int)) as nat
    } else {
        n as nat
    };
    lemma_nat_decimal_reads(a);
    let t = int_decimal(n as int);
    let digits = nat_decimal(a);
    if n < 0 {
        assert(t == seq!['-'] + digits);
        assert(t.drop_first() =~= digits);
        assert(!seq!['0', 'x'].is_prefix_of(t));
    } else {
        assert(t == digits);
        if seq!['0', 'x'].is_prefix_of(t) {
            assert(t[1] == 'x');
        }
    }
}

/// The resource key of a string label: what follows `@string/`, or what follows
/// `:string/` in a label naming a package (`@android:string/key`); labels that do not start
/// with `@` name no key.
pub proof fn law_string_key(pkg: Seq<char>, key: Seq<char>, label: Seq<char>)
    ensures
        string_key_spec("@string/"@ + key) == Some(key),
        !pkg.contains('/') && !contains_seq(key, ":string/"@) ==> string_key_spec(
            seq!['@'] + pkg + ":string/"@ + key,
        ) == Some(key),
        !(label.len() > 0 && label[0] == '@') ==> string_key_spec(label) is None,
{
    reveal_strlit("@string/");
    reveal_strlit(":string/");
    reveal_strlit("string/");
    assert(("@string/"@ + key).skip(8) =~= key);
    assert("@string/"@.is_prefix_of("@string/"@ + key)) by {
        assert(("@string/"@ + key).subrange(0, 8) =~= "@string/"@);
    }
    if !pkg.contains('/') && !contains_seq(key, ":string/"@) {
        let l = seq!['@'] + pkg + ":string/"@ + key;
        let raw = l.drop_first();
        assert(raw =~= pkg + ":string/"@ + key);
        // not the short form: a `/` would have to lie within the package
        if "@string/"@.is_prefix_of(l) {
            assert(l.subrange(0, 8) == "@string/"@);
            assert(l[7] == l.subrange(0, 8)[7]);
            assert("@string/"@[7] == '/');
            if pkg.len() >= 7 {
                assert(l[7] == pkg[6]);
                assert(pkg[6] == '/');
                assert(pkg.contains('/'));
            } else {
                let q = 1 + pkg.len() as int;
                assert(l[q] == ':');
                assert(l[q] == l.subrange(0, 8)[q]);
                assert("@string/"@[q] != ':');
            }
        }
        let at = pkg.len() as int;
        assert(occurs_at(raw, ":string/"@, at)) by {
            assert(raw.subrange(at, at + 8) =~= ":string/"@);
        }
        assert(raw.skip(at + 8) =~= key);
        lemma_last_occurrence_is(raw, ":string/"@, at, key);
    }
    if !(label.len() > 0 && label[0] == '@') && "@string/"@.is_prefix_of(label) {
        assert(label.subrange(0, 8) == "@string/"@);
        assert(label[0] == label.subrange(0, 8)[0]);
    }
}

proof fn lemma_last_occurrence_is(raw: Seq<char>, p: Seq<char>, at: int, key: Seq<char>)
    requires
        p == ":string/"@,
        0 <= at,
        raw.len() == at + 8 + key.len(),
        occurs_at(raw, p, at),
        raw.skip(at + 8) == key,
        !contains_seq(key, p),
    ensures
        crate::resources::last_occurrence(raw, p) == at,
{
    reveal_strlit(":string/");
    crate::resources::lemma_last_occurrence_pub(raw, p);
    let lo = crate::resources::last_occurrence(raw, p);
    assert(lo >= at) by {
        if lo < at {
            assert(!occurs_at(raw, p, at));
        }
    }
    if lo > at {
        assert(occurs_at(raw, p, lo));
        assert(raw.subrange(lo, lo + 8) == p);
        assert(raw[lo] == raw.subrange(lo, lo + 8)[0]);
        assert(p[0] == ':');
        assert(raw[lo] == ':');
        if lo < at + 8 {
            assert(raw.subrange(at, at + 8) == p);
            assert(raw[lo] == raw.subrange(at, at + 8)[lo - at]);
            assert(p[lo - at] != ':');
        } else {
            assert(occurs_at(key, p, lo - at - 8)) by {
                assert(key.subrange(lo - at - 8, lo - at) =~= raw.subrange(lo, lo + 8));
            }
        }
    }
}

/// A start-element chunk as an APK builder writes it reads back as its element name and
/// its attributes in order. The element header follows the chunk header (whose size is at
/// byte 2): the name's pool index at +4, the attributes' start (relative to the element
/// header) at +8, their record size at +10, their count at +12. Each attribute record holds
/// its name's pool index at +4, its raw value's pool index at +8 (`0xffffffff` for none),
/// its value type at +15 and its value data at +16; a raw value names a pool string,
/// otherwise the typed value is rendered.
pub proof fn law_start_element(
    c: Seq<u8>,
    strings: Seq<Seq<char>>,
    hs: int,
    name_idx: u32,
    astart: int,
    asize: int,
    recs: Seq<(u32, u32, u8, u32)>,
)
    requires
        c.len() >= 36,
        16 <= hs < 65536,
        0 <= astart < 65536,
        20 <= asize < 65536,
        recs.len() < 65536,
        hs + 20 <= c.len(),
        c.subrange(2, 4) == le_bytes16(hs),
        c.subrange(hs + 4, hs + 8) == le_bytes32(name_idx as int),
        c.subrange(hs + 8, hs + 10) == le_bytes16(astart),
        c.subrange(hs + 10, hs + 12) == le_bytes16(asize),
        c.subrange(hs + 12, hs + 14) == le_bytes16(recs.len() as int),
        forall|i: int|
            0 <= i < recs.len() ==> {
                let base = hs + astart + i * asize;
                let r = #[trigger] recs[i];
                &&& base + 20 <= c.len()
                &&& c.subrange(base + 4, base + 8) == le_bytes32(r.0 as int)
                &&& c.subrange(base + 8, base + 12) == le_bytes32(r.1 as int)
                &&& c[base + 15] == r.2
                &&& c.subrange(base + 16, base + 20) == le_bytes32(r.3 as int)
            },
    ensures
        start_element_spec(c, strings) == Some(
            (
                get_string_spec(strings, name_idx as int),
                Seq::new(
                    recs.len(),
                    |i: int|
                        (
                            get_string_spec(strings, recs[i].0 as int),
                            if recs[i].1 != 0xffff_ffffu32 {
                                get_string_spec(strings, recs[i].1 as int)
                            } else {
                                typed_value_spec(strings, recs[i].2, recs[i].3)
                            },
                        ),
                ),
            ),
        ),
{
    law_le16_reads(c, 2, hs);
    law_le32_reads(c, hs + 4, name_idx as int);
    law_le16_reads(c, hs + 8, astart);
    law_le16_reads(c, hs + 10, asize);
    law_le16_reads(c, hs + 12, recs.len() as int);
    assert forall|i: int| 0 <= i < recs.len() implies attr_base(c, i) == hs + astart + i * asize
        && attr_base(c, i) + 20 <= c.len() by {
        let r = recs[i];
    }
    assert(!exists|i: int| 0 <= i < le16(c, hs + 12) && #[trigger] attr_base(c, i) + 20 > c.len());
    let want = Seq::new(
        recs.len(),
        |i: int|
            (
                get_string_spec(strings, recs[i].0 as int),
                if recs[i].1 != 0xffff_ffffu32 {
                    get_string_spec(strings, recs[i].1 as int)
                } else {
                    typed_value_spec(strings, recs[i].2, recs[i].3)
                },
            ),
    );
    let got = Seq::new(le16(c, hs + 12) as nat, |i: int| attr_spec(c, strings, i));
    assert forall|i: int| 0 <= i < recs.len() implies got[i] == want[i] by {
        let base = hs + astart + i * asize;
        let r = recs[i];
        assert(attr_base(c, i) == base);
        law_le32_reads(c, base + 4, r.0 as int);
        law_le32_reads(c, base + 8, r.1 as int);
        law_le32_reads(c, base + 16, r.3 as int);
    }
    assert(got =~= want);
}

/// The events of `<string name="key">text</string>`.
pub open spec fn string_entry_events(key: Seq<char>, text: Seq<u8>) -> Seq<EventView> {
    let tag: Seq<u8> = seq![0x73u8, 0x74u8, 0x72u8, 0x69u8, 0x6eu8, 0x67u8];
    let name: Seq<u8> = seq![0x6eu8, 0x61u8, 0x6du8, 0x65u8];
    seq![
        EventView::Start(ElementView { name: tag, attrs: seq![Some((name, Some(key)))] }),
        EventView::Text(text),
        EventView::End(tag),
    ]
}

/// The events of several `<string>` entries in order.
pub open spec fn entries_events(es: Seq<(Seq<char>, Seq<u8>)>) -> Seq<EventView>
    decreases es.len(),
{
    if es.len() == 0 {
        Seq::empty()
    } else {
        string_entry_events(es[0].0, es[0].1) + entries_events(es.drop_first())
    }
}

/// The text of the first entry with this name.
pub open spec fn first_entry_text(es: Seq<(Seq<char>, Seq<u8>)>, key: Seq<char>) -> Option<Seq<u8>>
    decreases es.len(),
{
    if es.len() == 0 {
        None
    } else if es[0].0 == key {
        Some(es[0].1)
    } else {
        first_entry_text(es.drop_first(), key)
    }
}

/// Looking a key up in a strings.xml document whose root element holds `<string name=..>`
/// entries gives the text of the first entry with that name; when none has it, the lookup
/// goes on with what follows the root element.
pub proof fn law_find_string(
    root: ElementView,
    es: Seq<(Seq<char>, Seq<u8>)>,
    tail: Seq<EventView>,
    key: Seq<char>,
)
    requires
        root.name != seq![0x73u8, 0x74u8, 0x72u8, 0x69u8, 0x6eu8, 0x67u8],
    ensures
        find_walk(
            seq![EventView::Start(root)] + entries_events(es) + seq![EventView::End(root.name)] + tail,
            key,
            false,
        ) == match first_entry_text(es, key) {
            Some(t) => Some(utf8_lossy_spec(t)),
            None => find_walk(tail, key, false),
        },
{
    let doc = seq![EventView::Start(root)] + entries_events(es) + seq![EventView::End(root.name)]
        + tail;
    assert(doc.drop_first() =~= entries_events(es) + (seq![EventView::End(root.name)] + tail));
    lemma_entries_walk(es, seq![EventView::End(root.name)] + tail, key);
    let after = seq![EventView::End(root.name)] + tail;
    assert(after.drop_first() =~= tail);
}

proof fn lemma_entries_walk(es: Seq<(Seq<char>, Seq<u8>)>, rest: Seq<EventView>, key: Seq<char>)
    ensures
        find_walk(entries_events(es) + rest, key, false) == match first_entry_text(es, key) {
            Some(t) => Some(utf8_lossy_spec(t)),
            None => find_walk(rest, key, false),
        },
    decreases es.len(),
{
    if es.len() == 0 {
        assert(entries_events(es) + rest =~= rest);
    } else {
        let e = string_entry_events(es[0].0, es[0].1);
        let more = entries_events(es.drop_first()) + rest;
        let all = entries_events(es) + rest;
        assert(all =~= e + more);
        assert(all[0] == e[0]);
        assert(all.drop_first() =~= seq![e[1], e[2]] + more);
        let a1 = all.drop_first();
        assert(a1[0] == e[1]);
        assert(a1.drop_first() =~= seq![e[2]] + more);
        let a2 = a1.drop_first();
        assert(a2[0] == e[2]);
        assert(a2.drop_first() =~= more);
        let name: Seq<u8> = seq![0x6eu8, 0x61u8, 0x6du8, 0x65u8];
        let attrs: Seq<AttrView> = seq![Some((name, Some(es[0].0)))];
        assert(attrs.drop_first().len() == 0);
        assert(name == crate::resources::name_key());
        let tag: Seq<u8> = seq![0x73u8, 0x74u8, 0x72u8, 0x69u8, 0x6eu8, 0x67u8];
        assert(tag == crate::resources::string_tag());
        lemma_entries_walk(es.drop_first(), rest, key);
        if es[0].0 == key {
            assert(crate::resources::scan_names(attrs, key) is Matched);
            assert(find_walk(all, key, false) == find_walk(a1, key, true));
            assert(find_walk(a1, key, true) == Some(utf8_lossy_spec(es[0].1)));
        } else {
            assert(crate::resources::scan_names(attrs.drop_first(), key) is NoMatch);
            assert(crate::resources::scan_names(attrs, key) is NoMatch);
            assert(find_walk(all, key, false) == find_walk(a1, key, false));
            assert(find_walk(a1, key, false) == find_walk(a2, key, false));
            assert(find_walk(a2, key, false) == find_walk(more, key, false));
        }
    }
}

/// When every v1 certificate file of the archive can be read, there is one signer per
/// certificate file, in archive order: scheme `v1`, the uppercase hexadecimal SHA-256 of the
/// file's bytes, issuer `unknown`, the file's name as subject, and no validity dates.
pub proof fn law_signers_from_certificates(es: Seq<EntryView>, names: Seq<Seq<char>>, windows: bool)
    requires
        forall|i: int|
            0 <= i < names.len() && is_cert_file(#[trigger] names[i]) ==> read_spec(es, names[i]) matches Some(
                Some(_),
            ),
    ensures
        ({
            let certs = names.filter(|n: Seq<char>| is_cert_file(n));
            let sg = signers_spec(es, names, windows);
            &&& sg.len() == certs.len()
            &&& forall|i: int|
                0 <= i < sg.len() ==> {
                    let b = read_spec(es, certs[i]).unwrap().unwrap();
                    &&& (#[trigger] sg[i]).scheme == "v1"@
                    &&& sg[i].cert_sha256 == bytes_hex_upper(sha256_spec(b))
                    &&& sg[i].issuer == "unknown"@
                    &&& sg[i].subject == match file_name_spec(certs[i], windows) {
                        Some(n) => n,
                        None => "unknown"@,
                    }
                    &&& sg[i].valid_from.len() == 0
                    &&& sg[i].valid_to.len() == 0
                }
        }),
    decreases names.len(),
{
    let f = |n: Seq<char>| is_cert_file(n);
    if names.len() > 0 {
        let p = names.drop_last();
        assert forall|i: int| 0 <= i < p.len() && is_cert_file(#[trigger] p[i]) implies read_spec(
            es,
            p[i],
        ) matches Some(Some(_)) by {
            assert(p[i] == names[i]);
        }
        law_signers_from_certificates(es, p, windows);
        assert(names == p.push(names.last()));
        p.lemma_filter_push(names.last(), f);
        let n = names.last();
        if is_cert_file(n) {
            assert(names[names.len() - 1] == n);
        }
    }
}

/// Stripping the namespace keeps what follows the last `:`: a name without `:` is kept
/// whole, and `prefix:name` gives `name`.
pub proof fn law_strip_namespace(prefix: Seq<char>, name: Seq<char>)
    requires
        !name.contains(':'),
    ensures
        strip_namespace_spec(name) == name,
        strip_namespace_spec(prefix + seq![':'] + name) == name,
    decreases name.len(),
{
    if name.len() > 0 {
        let p = name.drop_last();
        assert(!p.contains(':')) by {
            if p.contains(':') {
                let k = choose|k: int| 0 <= k < p.len() && p[k] == ':';
                assert(name[k] == ':');
            }
        }
        assert(name.last() != ':') by {
            assert(name[name.len() - 1] == name.last());
        }
        law_strip_namespace(prefix, p);
        let full = prefix + seq![':'] + name;
        assert(full.drop_last() =~= prefix + seq![':'] + p);
        assert(full.last() == name.last());
        assert(p.push(name.last()) =~= name);
    } else {
        let full = prefix + seq![':'] + name;
        assert(full.last() == ':');
    }
}

/// The file names of a v1 signature, compared after uppercasing: under `META-INF/`, a
/// certificate ends `.RSA`, `.DSA` or `.EC`; a signature file is a certificate or ends `.SF`.
pub proof fn law_signature_file_names(n: Seq<char>)
    ensures
        is_cert_file(n) <==> "META-INF/"@.is_prefix_of(unicode_upper(n)) && (".RSA"@.is_suffix_of(
            unicode_upper(n),
        ) || ".DSA"@.is_suffix_of(unicode_upper(n)) || ".EC"@.is_suffix_of(unicode_upper(n))),
        is_signature_file(n) <==> is_cert_file(n) || "META-INF/"@.is_prefix_of(unicode_upper(n))
            && ".SF"@.is_suffix_of(unicode_upper(n)),
{
}

/// The icon search's preferences: densities from `xxxhdpi` down to `ldpi`, then `anydpi`,
/// `tvdpi`, `nodpi` and the plain directory; PNG before WebP; `mipmap` before `drawable`;
/// `ic_launcher`, then `app_icon`, then `icon`. A manifest reference `@type/name` is looked
/// for as `res/<type>[-<density>]/<name>.<ext>`, densities first, then formats.
pub proof fn law_icon_preferences(icon_type: Seq<char>, name: Seq<char>, k: int)
    requires
        0 <= k < 20,
    ensures
        densities() == seq![
            "xxxhdpi"@, "xxhdpi"@, "xhdpi"@, "hdpi"@, "mdpi"@, "ldpi"@, "anydpi"@, "tvdpi"@,
            "nodpi"@, ""@,
        ],
        icon_exts() == seq!["png"@, "webp"@],
        fallback_bases() == seq!["mipmap"@, "drawable"@],
        fallback_names() == seq!["ic_launcher"@, "app_icon"@, "icon"@],
        manifest_candidate(icon_type, name, k) == "res/"@ + (if k / 2 == 9 {
            icon_type
        } else {
            icon_type + seq!['-'] + densities()[k / 2]
        }) + seq!['/'] + name + seq!['.'] + icon_exts()[k % 2],
{
    reveal_strlit("");
    assert(""@.len() == 0);
    if k / 2 != 9 {
        reveal_strlit("xxxhdpi");
        reveal_strlit("xxhdpi");
        reveal_strlit("xhdpi");
        reveal_strlit("hdpi");
        reveal_strlit("mdpi");
        reveal_strlit("ldpi");
        reveal_strlit("anydpi");
        reveal_strlit("tvdpi");
        reveal_strlit("nodpi");
        assert(densities()[k / 2].len() > 0);
    }
}

/// The data reported falls back to the documented defaults: SDK levels and the version
/// code 1, no version name or compile SDK when the manifest has none, the package
/// `local.<lowercased sanitized file stem>` (or `unknown` without a stem) and the sanitized
/// stem as the app name (or `Unknown`); permissions are the manifest's without repeats.
pub proof fn law_data_defaults(
    d: ApkInfoData,
    path: Seq<char>,
    m: ManifestView,
    abis: Seq<Seq<char>>,
    channel: Seq<char>,
    icon_url: Seq<char>,
    signers: Seq<SignerView>,
    windows: bool,
)
    requires
        data_spec(d, path, m, abis, channel, icon_url, signers, windows),
    ensures
        m.min_sdk_version is None ==> d.min_sdk_version == 1,
        m.target_sdk_version is None ==> d.target_sdk_version == 1,
        m.version_code is None ==> d.version_code == 1,
        m.version_name is None ==> d.version_name is None,
        m.compile_sdk_version is None ==> d.compile_sdk_version is None,
        m.min_sdk_version matches Some(v) ==> d.min_sdk_version == v,
        m.target_sdk_version matches Some(v) ==> d.target_sdk_version == v,
        m.version_code matches Some(v) ==> d.version_code == v,
        m.package_name matches Some(p) ==> d.package_name@ == p,
        m.package_name is None ==> d.package_name@ == match file_stem_spec(path, windows) {
            Some(st) => "local."@ + ascii_lower_seq(sanitize_spec(st)),
            None => "unknown"@,
        },
        m.app_name matches Some(a) ==> d.app_name@ == a,
        m.app_name is None ==> d.app_name@ == match file_stem_spec(path, windows) {
            Some(st) => sanitize_spec(st),
            None => "Unknown"@,
        },
        forall|x: Seq<char>| texts(d.permissions@).contains(x) <==> m.permissions.contains(x),
        texts(d.permissions@).no_duplicates(),
        texts(d.abis@) == abis && d.channel@ == channel && d.icon_url@ == icon_url,
{
    law_dedup(m.permissions);
}

/// A v2+ signing block is detected exactly when the text `APK Sig Block 42` occurs within
/// the last 256 KiB of the file (the whole file when it is shorter).
pub proof fn law_signing_block(b: Seq<u8>)
    ensures
        has_sig_block(b) <==> exists|i: int|
            (if b.len() > 262144 {
                b.len() - 262144
            } else {
                0
            }) <= i && i + 16 <= b.len() && #[trigger] b.subrange(i, i + 16) == "APK Sig Block 42"@.map_values(
                |c: char| c as u8,
            ),
{
    reveal_strlit("APK Sig Block 42");
    let m = "APK Sig Block 42"@.map_values(|c: char| c as u8);
    assert(m =~= sig_magic());
    let st: int = if b.len() > 262144 {
        b.len() - 262144
    } else {
        0
    };
    let t = file_tail(b);
    assert(t =~= b.skip(st));
    if has_sig_block(b) {
        let i = choose|i: int| 0 <= i && i + 16 <= t.len() && #[trigger] t.subrange(i, i + 16) == sig_magic();
        assert(b.subrange(st + i, st + i + 16) =~= t.subrange(i, i + 16));
    }
    if exists|i: int| st <= i && i + 16 <= b.len() && #[trigger] b.subrange(i, i + 16) == m {
        let i = choose|i: int| st <= i && i + 16 <= b.len() && #[trigger] b.subrange(i, i + 16) == m;
        assert(t.subrange(i - st, i - st + 16) =~= b.subrange(i, i + 16));
    }
}

/// Uppercase hexadecimal: each byte as two digits from `0123456789ABCDEF`, high digit first.
pub proof fn law_hex_upper(b: Seq<u8>)
    ensures
        bytes_hex_upper(b).len() == 2 * b.len(),
        forall|i: int|
            0 <= i < b.len() ==> bytes_hex_upper(b)[2 * i] == "0123456789ABCDEF"@[(#[trigger] b[i]) as int / 16]
                && bytes_hex_upper(b)[2 * i + 1] == "0123456789ABCDEF"@[b[i] as int % 16],
    decreases b.len(),
{
    reveal_strlit("0123456789ABCDEF");
    if b.len() > 0 {
        let p = b.drop_last();
        law_hex_upper(p);
        let h = bytes_hex_upper(b);
        let hp = bytes_hex_upper(p);
        assert forall|d: nat| d < 16 implies #[trigger] hex_char_upper(d) == "0123456789ABCDEF"@[d as int] by {
        }
        assert forall|i: int| 0 <= i < b.len() implies h[2 * i] == "0123456789ABCDEF"@[(#[trigger] b[i]) as int / 16]
            && h[2 * i + 1] == "0123456789ABCDEF"@[b[i] as int % 16] by {
            if i < p.len() {
                assert(b[i] == p[i]);
                assert(h[2 * i] == hp[2 * i]);
                assert(h[2 * i + 1] == hp[2 * i + 1]);
            } else {
                assert(hex_char_upper(b.last() as nat / 16) == "0123456789ABCDEF"@[b[i] as int / 16]);
                assert(hex_char_upper(b.last() as nat % 16) == "0123456789ABCDEF"@[b[i] as int % 16]);
            }
        }
    }
}

/// Why an input stops before anything but its manifest is read: a missing path, a path that
/// is no file, an extension other than `.apk`/`.aab`, an APK that is no archive or whose
/// `AndroidManifest.xml` is missing, unreadable, empty or malformed; for an app bundle a
/// failed conversion, then the same checks on its universal APK.
pub proof fn law_begin_errors(path: Seq<char>, b: Vec<u8>, windows: bool)
    ensures
        begin_error(path, InputProbe::Missing, windows) == Some(BackendError::InputNotFound),
        begin_error(path, InputProbe::NotFile, windows) == Some(BackendError::InputNotFile),
        !has_extension(path, "apk"@, windows) && !has_extension(path, "aab"@, windows) ==> begin_error(
            path,
            InputProbe::Contents(b),
            windows,
        ) == Some(BackendError::InputNotApk),
        has_extension(path, "apk"@, windows) ==> (begin_error(path, InputProbe::Contents(b), windows)
            == match zip_open(b@) {
            None => Some(BackendError::ApkOpenFailed),
            Some(es) => match read_spec(es, "AndroidManifest.xml"@) {
                None => Some(BackendError::ManifestNotFound),
                Some(None) => Some(BackendError::ApkEntryReadFailed),
                Some(Some(mb)) => if mb.len() == 0 || manifest_spec(mb) is None {
                    Some(BackendError::ManifestParseFailed)
                } else {
                    None
                },
            },
        }),
        has_extension(path, "aab"@, windows) && !has_extension(path, "apk"@, windows) ==> begin_error(
            path,
            InputProbe::Converted(None),
            windows,
        ) == Some(BackendError::AabConvertFailed),
        has_extension(path, "aab"@, windows) && !has_extension(path, "apk"@, windows) ==> (
        begin_error(path, InputProbe::Converted(Some(b)), windows) == match zip_open(b@) {
            None => Some(BackendError::AabConvertFailed),
            Some(es) => match read_spec(es, "universal.apk"@) {
                Some(Some(u)) => match zip_open(u) {
                    None => Some(BackendError::ApkOpenFailed),
                    Some(ues) => match read_spec(ues, "AndroidManifest.xml"@) {
                        None => Some(BackendError::ManifestNotFound),
                        Some(None) => Some(BackendError::ApkEntryReadFailed),
                        Some(Some(mb)) => if mb.len() == 0 || manifest_spec(mb) is None {
                            Some(BackendError::ManifestParseFailed)
                        } else {
                            None
                        },
                    },
                },
                _ => Some(BackendError::AabConvertFailed),
            },
        }),
{
}

} // verus!
