//! Text output of parse results: the built-in summary, and user templates with `#field#`
//! placeholders (the same placeholders as the GUI's copy template).
use vstd::prelude::*;
use crate::model::{ApkInfoEnvelope, SignerInfo};
use crate::paths::{extension, extension_spec, file_name, file_name_spec};
use crate::text::{
    ascii_lower_seq, blank, chars_of, decimal_i64, decimal_u64, extend_chars, extend_str,
    int_decimal, is_blank, join, join_chars, replace_all, replace_chars, split_on, string_of,
    to_ascii_lower, trim, trim_chars,
};
use crate::warnings::texts;

verus! {

/// One parsed file: its path, its envelope, and where its icon was exported to, if anywhere.
pub struct ParseRecord {
    pub path: String,
    pub envelope: ApkInfoEnvelope,
    pub icon_exported_to: Option<String>,
}

// ---------------------------------------------------------------------------
// Small pieces
// ---------------------------------------------------------------------------
/// `none` for blank text, the text itself otherwise.
pub open spec fn empty_text_spec(v: Seq<char>) -> Seq<char> {
    if is_blank(v) {
        "none"@
    } else {
        v
    }
}

/// `none` for blank text, the text itself otherwise.
pub fn empty_text(v: &[char]) -> (r: Vec<char>)
    ensures
        r@ == empty_text_spec(v@),
{
    if blank(v) {
        chars_of("none")
    } else {
        let mut r: Vec<char> = Vec::new();
        extend_chars(&mut r, v);
        r
    }
}

/// `none` for an empty list, else the items joined with `, `.
pub open spec fn join_or_empty_spec(items: Seq<Seq<char>>) -> Seq<char> {
    if items.len() == 0 {
        "none"@
    } else {
        join(items, ", "@)
    }
}

fn texts_of(items: &Vec<String>) -> (r: Vec<Vec<char>>)
    ensures
        r@.map_values(|p: Vec<char>| p@) == texts(items@),
{
    let mut r: Vec<Vec<char>> = Vec::new();
    let mut i: usize = 0;
    while i < items.len()
        invariant
            i <= items.len(),
            r@.len() == i,
            forall|j: int| 0 <= j < i ==> #[trigger] r@[j]@ == items@[j]@,
        decreases items.len() - i,
    {
        r.push(chars_of(items[i].as_str()));
        i += 1;
    }
    assert(r@.map_values(|p: Vec<char>| p@) =~= texts(items@));
    r
}

/// `none` for an empty list, else the items joined with `, `.
pub fn join_or_empty(items: &Vec<String>) -> (r: Vec<char>)
    ensures
        r@ == join_or_empty_spec(texts(items@)),
{
    if items.len() == 0 {
        return chars_of("none");
    }
    join_chars(&texts_of(items), &chars_of(", "))
}

/// `-` for an empty list, else one `- item` line per item.
pub open spec fn list_lines_spec(items: Seq<Seq<char>>) -> Seq<char> {
    if items.len() == 0 {
        "-"@
    } else {
        join(items.map_values(|i: Seq<char>| "- "@ + i), "\n"@)
    }
}

/// `-` for an empty list, else one `- item` line per item.
pub fn list_to_template_lines(items: &Vec<String>) -> (r: Vec<char>)
    ensures
        r@ == list_lines_spec(texts(items@)),
{
    if items.len() == 0 {
        return chars_of("-");
    }
    let mut lines: Vec<Vec<char>> = Vec::new();
    let mut i: usize = 0;
    while i < items.len()
        invariant
            i <= items.len(),
            lines@.len() == i,
            forall|j: int| 0 <= j < i ==> #[trigger] lines@[j]@ == "- "@ + items@[j]@,
        decreases items.len() - i,
    {
        let mut l = chars_of("- ");
        extend_str(&mut l, items[i].as_str());
        lines.push(l);
        i += 1;
    }
    assert(lines@.map_values(|p: Vec<char>| p@) =~= texts(items@).map_values(
        |i: Seq<char>| "- "@ + i,
    ));
    join_chars(&lines, &chars_of("\n"))
}

/// The template block of one signer (`index` counts from one).
pub open spec fn signer_block_spec(index: int, s: SignerInfo) -> Seq<char> {
    join(
        seq![
            "Signer #"@ + int_decimal(index),
            "  scheme: "@ + empty_text_spec(s.scheme@),
            "  certSha256: "@ + empty_text_spec(s.cert_sha256@),
            "  issuer: "@ + empty_text_spec(s.issuer@),
            "  subject: "@ + empty_text_spec(s.subject@),
            "  validFrom: "@ + empty_text_spec(s.valid_from@),
            "  validTo: "@ + empty_text_spec(s.valid_to@),
        ],
        "\n"@,
    )
}

/// `-` without signers, else their blocks one after another.
pub open spec fn signers_lines_spec(signers: Seq<SignerInfo>) -> Seq<char> {
    if signers.len() == 0 {
        "-"@
    } else {
        join(Seq::new(signers.len(), |i: int| signer_block_spec(i + 1, signers[i])), "\n"@)
    }
}

fn labelled(label: &str, value: &[char]) -> (r: Vec<char>)
    ensures
        r@ == label@ + value@,
{
    let mut r = chars_of(label);
    extend_chars(&mut r, value);
    r
}

fn signer_block(index: usize, s: &SignerInfo) -> (r: Vec<char>)
    ensures
        r@ == signer_block_spec(index as int, *s),
{
    let mut parts: Vec<Vec<char>> = Vec::new();
    parts.push(labelled("Signer #", &decimal_u64(index as u64)));
    parts.push(labelled("  scheme: ", &empty_text(&chars_of(s.scheme.as_str()))));
    parts.push(labelled("  certSha256: ", &empty_text(&chars_of(s.cert_sha256.as_str()))));
    parts.push(labelled("  issuer: ", &empty_text(&chars_of(s.issuer.as_str()))));
    parts.push(labelled("  subject: ", &empty_text(&chars_of(s.subject.as_str()))));
    parts.push(labelled("  validFrom: ", &empty_text(&chars_of(s.valid_from.as_str()))));
    parts.push(labelled("  validTo: ", &empty_text(&chars_of(s.valid_to.as_str()))));
    let ghost want = seq![
        "Signer #"@ + int_decimal(index as int),
        "  scheme: "@ + empty_text_spec(s.scheme@),
        "  certSha256: "@ + empty_text_spec(s.cert_sha256@),
        "  issuer: "@ + empty_text_spec(s.issuer@),
        "  subject: "@ + empty_text_spec(s.subject@),
        "  validFrom: "@ + empty_text_spec(s.valid_from@),
        "  validTo: "@ + empty_text_spec(s.valid_to@),
    ];
    assert(parts@.map_values(|p: Vec<char>| p@) =~= want);
    join_chars(&parts, &chars_of("\n"))
}

/// The template text of a record's signers.
pub fn signers_to_template_lines(record: &ParseRecord) -> (r: Vec<char>)
    ensures
        r@ == signers_lines_spec(record.envelope.data.signers@),
{
    let signers = &record.envelope.data.signers;
    if signers.len() == 0 {
        return chars_of("-");
    }
    let mut blocks: Vec<Vec<char>> = Vec::new();
    let mut i: usize = 0;
    while i < signers.len()
        invariant
            i <= signers.len(),
            blocks@.len() == i,
            forall|j: int|
                0 <= j < i ==> #[trigger] blocks@[j]@ == signer_block_spec(j + 1, signers@[j]),
        decreases signers.len() - i,
    {
        blocks.push(signer_block(i + 1, &signers[i]));
        i += 1;
    }
    assert(blocks@.map_values(|p: Vec<char>| p@) =~= Seq::new(
        signers@.len(),
        |i: int| signer_block_spec(i + 1, signers@[i]),
    ));
    join_chars(&blocks, &chars_of("\n"))
}

/// The file name of a path, or the path itself when it has none.
pub open spec fn get_file_name_spec(path: Seq<char>, windows: bool) -> Seq<char> {
    match file_name_spec(path, windows) {
        Some(n) => n,
        None => path,
    }
}

/// The file name of a path, or the path itself when it has none.
pub fn get_file_name(path: &[char], windows: bool) -> (r: Vec<char>)
    ensures
        r@ == get_file_name_spec(path@, windows),
{
    match file_name(path, windows) {
        Some(n) => n,
        None => {
            let mut r: Vec<char> = Vec::new();
            extend_chars(&mut r, path);
            r
        },
    }
}

/// The extension of a path in ASCII lowercase, empty when it has none.
pub open spec fn get_ext_spec(path: Seq<char>, windows: bool) -> Seq<char> {
    match extension_spec(path, windows) {
        Some(e) => ascii_lower_seq(e),
        None => Seq::empty(),
    }
}

/// The extension of a path in ASCII lowercase, empty when it has none.
pub fn get_ext(path: &[char], windows: bool) -> (r: Vec<char>)
    ensures
        r@ == get_ext_spec(path@, windows),
{
    match extension(path, windows) {
        Some(e) => to_ascii_lower(&e),
        None => {
            let r: Vec<char> = Vec::new();
            assert(r@ =~= ascii_lower_seq(Seq::empty()));
            r
        },
    }
}

// ---------------------------------------------------------------------------
// Templates
// ---------------------------------------------------------------------------
/// An optional text, or a default.
pub open spec fn text_or(o: Option<String>, d: Seq<char>) -> Seq<char> {
    match o {
        Some(s) => s@,
        None => d,
    }
}

/// The placeholder fields of a record, sorted by name.
pub open spec fn template_fields_spec(r: ParseRecord, windows: bool) -> Seq<(Seq<char>, Seq<char>)> {
    let d = r.envelope.data;
    seq![
        ("abis"@, list_lines_spec(texts(d.abis@))),
        ("app_name"@, d.app_name@),
        ("channel"@, d.channel@),
        ("compile_sdk_version"@, match d.compile_sdk_version {
            Some(v) => int_decimal(v as int),
            None => "null"@,
        }),
        ("error_code"@, text_or(r.envelope.error_code, "-"@)),
        ("error_message"@, text_or(r.envelope.error_message, "-"@)),
        ("ext"@, get_ext_spec(r.path@, windows)),
        ("file_name"@, get_file_name_spec(r.path@, windows)),
        ("min_sdk_version"@, int_decimal(d.min_sdk_version as int)),
        ("packname"@, d.package_name@),
        ("path"@, r.path@),
        ("permissions"@, list_lines_spec(texts(d.permissions@))),
        ("product_name"@, d.app_name@),
        ("signers"@, signers_lines_spec(d.signers@)),
        ("status"@, if r.envelope.success {
            "success"@
        } else {
            "error"@
        }),
        ("target_sdk_version"@, int_decimal(d.target_sdk_version as int)),
        ("version_code"@, int_decimal(d.version_code as int)),
        ("version_name"@, text_or(d.version_name, "null"@)),
        ("warnings"@, list_lines_spec(texts(r.envelope.warnings@))),
    ]
}

fn opt_or(o: &Option<String>, d: &str) -> (r: Vec<char>)
    ensures
        r@ == text_or(*o, d@),
{
    match o {
        Some(s) => chars_of(s.as_str()),
        None => chars_of(d),
    }
}

fn field(key: &str, value: Vec<char>) -> (r: (Vec<char>, Vec<char>))
    ensures
        r.0@ == key@,
        r.1@ == value@,
{
    (chars_of(key), value)
}

/// The placeholder fields of a record, sorted by name.
pub fn template_fields(r: &ParseRecord, windows: bool) -> (fields: Vec<(Vec<char>, Vec<char>)>)
    ensures
        fields@.map_values(|f: (Vec<char>, Vec<char>)| (f.0@, f.1@)) == template_fields_spec(
            *r,
            windows,
        ),
{
    let d = &r.envelope.data;
    let path = chars_of(r.path.as_str());
    let mut f: Vec<(Vec<char>, Vec<char>)> = Vec::new();
    f.push(field("abis", list_to_template_lines(&d.abis)));
    f.push(field("app_name", chars_of(d.app_name.as_str())));
    f.push(field("channel", chars_of(d.channel.as_str())));
    f.push(
        field(
            "compile_sdk_version",
            match d.compile_sdk_version {
                Some(v) => decimal_i64(v as i64),
                None => chars_of("null"),
            },
        ),
    );
    f.push(field("error_code", opt_or(&r.envelope.error_code, "-")));
    f.push(field("error_message", opt_or(&r.envelope.error_message, "-")));
    f.push(field("ext", get_ext(&path, windows)));
    f.push(field("file_name", get_file_name(&path, windows)));
    f.push(field("min_sdk_version", decimal_i64(d.min_sdk_version as i64)));
    f.push(field("packname", chars_of(d.package_name.as_str())));
    f.push(field("path", path));
    f.push(field("permissions", list_to_template_lines(&d.permissions)));
    f.push(field("product_name", chars_of(d.app_name.as_str())));
    f.push(field("signers", signers_to_template_lines(r)));
    f.push(
        field(
            "status",
            if r.envelope.success {
                chars_of("success")
            } else {
                chars_of("error")
            },
        ),
    );
    f.push(field("target_sdk_version", decimal_i64(d.target_sdk_version as i64)));
    f.push(field("version_code", decimal_i64(d.version_code)));
    f.push(field("version_name", opt_or(&d.version_name, "null")));
    f.push(field("warnings", list_to_template_lines(&r.envelope.warnings)));
    assert(f@.map_values(|f: (Vec<char>, Vec<char>)| (f.0@, f.1@)) =~= template_fields_spec(
        *r,
        windows,
    ));
    f
}

/// The template after replacing `#key#` by each field's value, one field after another.
pub open spec fn fill_spec(t: Seq<char>, fields: Seq<(Seq<char>, Seq<char>)>) -> Seq<char>
    decreases fields.len(),
{
    if fields.len() == 0 {
        t
    } else {
        replace_all(
            fill_spec(t, fields.drop_last()),
            seq!['#'] + fields.last().0 + seq!['#'],
            fields.last().1,
        )
    }
}

/// Replaces each `#key#` placeholder by its field's value, in field order.
pub fn replace_template_placeholders(template: &[char], fields: &Vec<(Vec<char>, Vec<char>)>) -> (r:
    Vec<char>)
    ensures
        r@ == fill_spec(template@, fields@.map_values(|f: (Vec<char>, Vec<char>)| (f.0@, f.1@))),
{
    let ghost fv = fields@.map_values(|f: (Vec<char>, Vec<char>)| (f.0@, f.1@));
    let mut rendered: Vec<char> = Vec::new();
    extend_chars(&mut rendered, template);
    let mut i: usize = 0;
    while i < fields.len()
        invariant
            i <= fields.len(),
            fv == fields@.map_values(|f: (Vec<char>, Vec<char>)| (f.0@, f.1@)),
            rendered@ == fill_spec(template@, fv.take(i as int)),
        decreases fields.len() - i,
    {
        let mut pat: Vec<char> = Vec::new();
        pat.push('#');
        extend_chars(&mut pat, fields[i].0.as_slice());
        pat.push('#');
        assert(fv.take(i + 1).drop_last() == fv.take(i as int));
        assert(fv.take(i + 1).last() == fv[i as int]);
        assert(pat@ =~= seq!['#'] + fv[i as int].0 + seq!['#']);
        rendered = replace_chars(&rendered, &pat, fields[i].1.as_slice());
        i += 1;
    }
    assert(fv.take(fields.len() as int) == fv);
    rendered
}

/// A template comment line: once trimmed, it starts with `# `.
pub open spec fn is_comment_line(line: Seq<char>) -> bool {
    seq!['#', ' '].is_prefix_of(trim(line))
}

/// The template without comment lines and without carriage returns.
pub open spec fn strip_comments_spec(t: Seq<char>) -> Seq<char> {
    join(split_on(t, '\n').filter(|l: Seq<char>| !is_comment_line(l)), seq!['\n']).filter(
        |c: char| c != '\r',
    )
}

/// A record rendered through a template.
pub open spec fn render_template_spec(r: ParseRecord, t: Seq<char>, windows: bool) -> Seq<char> {
    fill_spec(strip_comments_spec(t), template_fields_spec(r, windows))
}

proof fn lemma_split_step(s: Seq<char>, cur: Seq<char>, c: char)
    requires
        forall|j: int| 0 <= j < cur.len() ==> cur[j] != '\n',
    ensures
        s.len() > 0 && s[0] != '\n' ==> split_on(cur + s, '\n') == split_on(
            cur.push(s[0]) + s.drop_first(),
            '\n',
        ),
        s.len() > 0 && s[0] == '\n' ==> split_on(cur + s, '\n') == seq![cur] + split_on(
            s.drop_first(),
            '\n',
        ),
        s.len() == 0 ==> split_on(cur + s, '\n') == seq![cur],
{
    let t = cur + s;
    crate::text::lemma_index_of_bounds(t, '\n');
    if s.len() > 0 && s[0] != '\n' {
        assert(cur.push(s[0]) + s.drop_first() =~= t);
    } else if s.len() > 0 {
        lemma_index_at(t, cur.len() as int);
        assert(t.take(cur.len() as int) =~= cur);
        assert(t.skip(cur.len() as int + 1) =~= s.drop_first());
    } else {
        lemma_index_at(t, cur.len() as int);
        assert(t =~= cur);
    }
}

proof fn lemma_index_at(t: Seq<char>, k: int)
    requires
        0 <= k <= t.len(),
        forall|j: int| 0 <= j < k ==> t[j] != '\n',
        k == t.len() || t[k] == '\n',
    ensures
        crate::text::index_of_or_len(t, '\n') == k,
    decreases t.len(),
{
    if t.len() > 0 && k > 0 {
        lemma_index_at(t.drop_first(), k - 1);
    }
}

/// The template without comment lines and carriage returns.
pub fn strip_comments(t: &[char]) -> (r: Vec<char>)
    ensures
        r@ == strip_comments_spec(t@),
{
    // split into lines
    let mut lines: Vec<Vec<char>> = Vec::new();
    let mut cur: Vec<char> = Vec::new();
    let mut i: usize = 0;
    assert(t@.skip(0) == t@);
    assert(cur@ + t@.skip(0) =~= t@);
    while i < t.len()
        invariant
            i <= t.len(),
            forall|j: int| 0 <= j < cur@.len() ==> cur@[j] != '\n',
            lines@.map_values(|p: Vec<char>| p@) + split_on(cur@ + t@.skip(i as int), '\n')
                == split_on(t@, '\n'),
        decreases t.len() - i,
    {
        let ghost s = t@.skip(i as int);
        proof {
            lemma_split_step(s, cur@, '\n');
            assert(s.drop_first() == t@.skip(i + 1));
            assert(s[0] == t@[i as int]);
        }
        let ghost before = lines@.map_values(|p: Vec<char>| p@);
        if t[i] == '\n' {
            let ghost old_cur = cur@;
            lines.push(cur);
            cur = Vec::new();
            assert(lines@.map_values(|p: Vec<char>| p@) =~= before.push(old_cur));
            assert(cur@ + t@.skip(i + 1) =~= t@.skip(i + 1));
            assert(before + (seq![old_cur] + split_on(t@.skip(i + 1), '\n')) =~= before.push(
                old_cur,
            ) + split_on(t@.skip(i + 1), '\n'));
        } else {
            cur.push(t[i]);
        }
        i += 1;
    }
    proof {
        lemma_split_step(t@.skip(i as int), cur@, '\n');
    }
    let ghost before = lines@.map_values(|p: Vec<char>| p@);
    let ghost last = cur@;
    lines.push(cur);
    assert(lines@.map_values(|p: Vec<char>| p@) =~= before.push(last));
    let ghost all = lines@.map_values(|p: Vec<char>| p@);
    assert(all =~= split_on(t@, '\n'));
    // keep the lines that are not comments
    let mut kept: Vec<Vec<char>> = Vec::new();
    let mut k: usize = 0;
    while k < lines.len()
        invariant
            k <= lines.len(),
            all == lines@.map_values(|p: Vec<char>| p@),
            kept@.map_values(|p: Vec<char>| p@) == all.take(k as int).filter(
                |l: Seq<char>| !is_comment_line(l),
            ),
        decreases lines.len() - k,
    {
        let ghost kb = kept@.map_values(|p: Vec<char>| p@);
        proof {
            assert(all.take(k + 1) == all.take(k as int).push(all[k as int]));
            all.take(k as int).lemma_filter_push(all[k as int], |l: Seq<char>| !is_comment_line(l));
        }
        let tl = trim_chars(lines[k].as_slice());
        let comment = tl.len() >= 2 && tl[0] == '#' && tl[1] == ' ';
        proof {
            if comment {
                assert(tl@.subrange(0, 2) =~= seq!['#', ' ']);
            }
            if seq!['#', ' '].is_prefix_of(tl@) {
                assert(tl@.subrange(0, 2)[0] == '#');
                assert(tl@.subrange(0, 2)[1] == ' ');
            }
        }
        if !comment {
            let mut c: Vec<char> = Vec::new();
            extend_chars(&mut c, lines[k].as_slice());
            kept.push(c);
            assert(kept@.map_values(|p: Vec<char>| p@) =~= kb.push(all[k as int]));
        }
        k += 1;
    }
    assert(all.take(lines.len() as int) == all);
    let joined = join_chars(&kept, &['\n']);
    // drop carriage returns
    let mut out: Vec<char> = Vec::new();
    let mut q: usize = 0;
    while q < joined.len()
        invariant
            q <= joined.len(),
            out@ == joined@.take(q as int).filter(|c: char| c != '\r'),
        decreases joined.len() - q,
    {
        proof {
            assert(joined@.take(q + 1) == joined@.take(q as int).push(joined@[q as int]));
            joined@.take(q as int).lemma_filter_push(joined@[q as int], |c: char| c != '\r');
        }
        if joined[q] != '\r' {
            out.push(joined[q]);
        }
        q += 1;
    }
    assert(joined@.take(joined.len() as int) == joined@);
    proof {
        let nl: [char; 1] = ['\n'];
        assert(nl@ =~= seq!['\n']);
    }
    out
}

/// A record rendered through a template.
pub fn render_template_record(record: &ParseRecord, template: &str, windows: bool) -> (r: Vec<
    char,
>)
    ensures
        r@ == render_template_spec(*record, template@, windows),
{
    let stripped = strip_comments(&chars_of(template));
    replace_template_placeholders(&stripped, &template_fields(record, windows))
}

// ---------------------------------------------------------------------------
// The built-in summary
// ---------------------------------------------------------------------------
/// The summary line of one signer (`index` counts from one).
pub open spec fn signer_line_spec(index: int, s: SignerInfo) -> Seq<char> {
    "Signer#"@ + int_decimal(index) + ": scheme="@ + empty_text_spec(s.scheme@) + ", sha256="@
        + empty_text_spec(s.cert_sha256@) + ", issuer="@ + empty_text_spec(s.issuer@)
        + ", subject="@ + empty_text_spec(s.subject@)
}

/// `true` or `false`.
pub open spec fn bool_text(b: bool) -> Seq<char> {
    if b {
        "true"@
    } else {
        "false"@
    }
}

/// The lines of the built-in summary of a record.
pub open spec fn summary_lines_spec(r: ParseRecord) -> Seq<Seq<char>> {
    let d = r.envelope.data;
    seq![
        "FilePath: "@ + r.path@,
        "Success: "@ + bool_text(r.envelope.success),
        "PackageName: "@ + d.package_name@,
        "AppName: "@ + d.app_name@,
        "Channel: "@ + d.channel@,
        "MinSdkVersion: "@ + int_decimal(d.min_sdk_version as int),
        "TargetSdkVersion: "@ + int_decimal(d.target_sdk_version as int),
        "CompileSdkVersion: "@ + match d.compile_sdk_version {
            Some(v) => int_decimal(v as int),
            None => "null"@,
        },
        "VersionCode: "@ + int_decimal(d.version_code as int),
        "VersionName: "@ + text_or(d.version_name, "null"@),
        "IconUrl: "@ + empty_text_spec(d.icon_url@),
        "IconExportedTo: "@ + empty_text_spec(text_or(r.icon_exported_to, Seq::empty())),
        "Permissions: "@ + join_or_empty_spec(texts(d.permissions@)),
        "ABIs: "@ + join_or_empty_spec(texts(d.abis@)),
        "Signers: "@ + int_decimal(d.signers@.len() as int),
        "Warnings: "@ + join_or_empty_spec(texts(r.envelope.warnings@)),
        "ErrorCode: "@ + empty_text_spec(text_or(r.envelope.error_code, Seq::empty())),
        "ErrorMessage: "@ + empty_text_spec(text_or(r.envelope.error_message, Seq::empty())),
    ] + Seq::new(d.signers@.len(), |i: int| signer_line_spec(i + 1, d.signers@[i]))
}

/// A record rendered as text: through the template when there is one, else the summary.
pub open spec fn render_record_spec(
    r: ParseRecord,
    template: Option<Seq<char>>,
    windows: bool,
) -> Seq<char> {
    match template {
        Some(t) => render_template_spec(r, t, windows),
        None => join(summary_lines_spec(r), "\n"@),
    }
}

fn signer_line(index: usize, s: &SignerInfo) -> (r: Vec<char>)
    ensures
        r@ == signer_line_spec(index as int, *s),
{
    let mut r = labelled("Signer#", &decimal_u64(index as u64));
    extend_str(&mut r, ": scheme=");
    extend_chars(&mut r, &empty_text(&chars_of(s.scheme.as_str())));
    extend_str(&mut r, ", sha256=");
    extend_chars(&mut r, &empty_text(&chars_of(s.cert_sha256.as_str())));
    extend_str(&mut r, ", issuer=");
    extend_chars(&mut r, &empty_text(&chars_of(s.issuer.as_str())));
    extend_str(&mut r, ", subject=");
    extend_chars(&mut r, &empty_text(&chars_of(s.subject.as_str())));
    r
}

/// A record rendered as text: through the template when there is one, else the summary.
pub fn render_text_record(record: &ParseRecord, template: Option<&str>, windows: bool) -> (r: String)
    ensures
        r@ == render_record_spec(
            *record,
            match template {
                Some(t) => Some(t@),
                None => None,
            },
            windows,
        ),
{
    if let Some(t) = template {
        return string_of(&render_template_record(record, t, windows));
    }
    let d = &record.envelope.data;
    let mut lines: Vec<Vec<char>> = Vec::new();
    lines.push(labelled("FilePath: ", &chars_of(record.path.as_str())));
    lines.push(
        labelled(
            "Success: ",
            &if record.envelope.success {
                chars_of("true")
            } else {
                chars_of("false")
            },
        ),
    );
    lines.push(labelled("PackageName: ", &chars_of(d.package_name.as_str())));
    lines.push(labelled("AppName: ", &chars_of(d.app_name.as_str())));
    lines.push(labelled("Channel: ", &chars_of(d.channel.as_str())));
    lines.push(labelled("MinSdkVersion: ", &decimal_i64(d.min_sdk_version as i64)));
    lines.push(labelled("TargetSdkVersion: ", &decimal_i64(d.target_sdk_version as i64)));
    lines.push(
        labelled(
            "CompileSdkVersion: ",
            &match d.compile_sdk_version {
                Some(v) => decimal_i64(v as i64),
                None => chars_of("null"),
            },
        ),
    );
    lines.push(labelled("VersionCode: ", &decimal_i64(d.version_code)));
    lines.push(labelled("VersionName: ", &opt_or(&d.version_name, "null")));
    lines.push(labelled("IconUrl: ", &empty_text(&chars_of(d.icon_url.as_str()))));
    lines.push(labelled("IconExportedTo: ", &empty_text(&opt_or(&record.icon_exported_to, ""))));
    lines.push(labelled("Permissions: ", &join_or_empty(&d.permissions)));
    lines.push(labelled("ABIs: ", &join_or_empty(&d.abis)));
    lines.push(labelled("Signers: ", &decimal_u64(d.signers.len() as u64)));
    lines.push(labelled("Warnings: ", &join_or_empty(&record.envelope.warnings)));
    lines.push(labelled("ErrorCode: ", &empty_text(&opt_or(&record.envelope.error_code, ""))));
    lines.push(
        labelled("ErrorMessage: ", &empty_text(&opt_or(&record.envelope.error_message, ""))),
    );
    let ghost head = lines@.map_values(|p: Vec<char>| p@);
    proof {
        reveal_strlit("");
    }
    assert(head =~= summary_lines_spec(*record).take(18));
    let mut i: usize = 0;
    while i < d.signers.len()
        invariant
            i <= d.signers.len(),
            d == record.envelope.data,
            lines@.map_values(|p: Vec<char>| p@) == summary_lines_spec(*record).take(18 + i),
        decreases d.signers.len() - i,
    {
        let ghost before = lines@.map_values(|p: Vec<char>| p@);
        lines.push(signer_line(i + 1, &d.signers[i]));
        assert(summary_lines_spec(*record).take(18 + i + 1) =~= summary_lines_spec(*record).take(
            18 + i,
        ).push(signer_line_spec(i + 1, d.signers@[i as int])));
        assert(lines@.map_values(|p: Vec<char>| p@) =~= before.push(
            signer_line_spec(i + 1, d.signers@[i as int]),
        ));
        i += 1;
    }
    assert(summary_lines_spec(*record).take(18 + d.signers.len()) == summary_lines_spec(*record));
    string_of(&join_chars(&lines, &chars_of("\n")))
}

/// Several records rendered, separated by a `---` line between blank lines.
pub open spec fn render_text_spec(
    records: Seq<ParseRecord>,
    template: Option<Seq<char>>,
    windows: bool,
) -> Seq<char> {
    join(
        records.map_values(|r: ParseRecord| render_record_spec(r, template, windows)),
        "\n\n---\n\n"@,
    )
}

/// Renders several records as text.
pub fn render_text(records: &Vec<ParseRecord>, template: Option<&str>, windows: bool) -> (r: String)
    ensures
        r@ == render_text_spec(
            records@,
            match template {
                Some(t) => Some(t@),
                None => None,
            },
            windows,
        ),
{
    let ghost tv = match template {
        Some(t) => Some(t@),
        None => None::<Seq<char>>,
    };
    let mut parts: Vec<Vec<char>> = Vec::new();
    let mut i: usize = 0;
    while i < records.len()
        invariant
            i <= records.len(),
            tv == match template {
                Some(t) => Some(t@),
                None => None::<Seq<char>>,
            },
            parts@.len() == i,
            forall|j: int|
                0 <= j < i ==> #[trigger] parts@[j]@ == render_record_spec(
                    records@[j],
                    tv,
                    windows,
                ),
        decreases records.len() - i,
    {
        parts.push(chars_of(render_text_record(&records[i], template, windows).as_str()));
        i += 1;
    }
    assert(parts@.map_values(|p: Vec<char>| p@) =~= records@.map_values(
        |r: ParseRecord| render_record_spec(r, tv, windows),
    ));
    string_of(&join_chars(&parts, &chars_of("\n\n---\n\n")))
}

} // verus!
