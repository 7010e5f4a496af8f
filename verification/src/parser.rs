//! Parsing one APK into an envelope. The caller probes the file system and, between the two
//! steps, writes the chosen icon to disk:
//! `parse_apk_begin` (validate, open, read everything) → write icon → `parse_apk_finish`.
use vstd::prelude::*;
use crate::archive::{
    list_entries, open_archive, opened_names, read_entry, read_spec, zip_entries, zip_open, Apk,
    EntryRead, EntryView,
};
use crate::channel::{resolve, resolve_channel_spec};
use crate::error::{error_code, error_message, BackendError};
use crate::icons::{icon_candidates, icon_candidates_ok, icon_file_name, icon_file_name_spec};
use crate::manifest::{ManifestInfo, ManifestView};
use crate::manifest_reader::{manifest_spec, manifest_warnings, parse_manifest};
use crate::model::{is_placeholder, ApkInfoData, ApkInfoEnvelope, SignerInfo};
use crate::order::vtexts;
use crate::paths::{
    file_name, file_name_spec, file_stem, file_stem_spec, file_url_from_path, file_url_spec,
    has_extension, sanitize, sanitize_spec,
};
use crate::resources::{resolve_app_name, resolve_app_name_spec};
use crate::signing::{
    add_signature_warnings, signature_warnings,
    abis_spec, extract_signers, has_any_signature_hint, has_apk_sig_block, has_sig_block,
    has_signature_hint, infer_abis, signer_views, signers_spec, SignerView,
};
use crate::text::{
    ascii_lower_seq, chars_eq, chars_of, copy_string, extend_chars, extend_str, replace_all,
    replace_chars, string_from, string_of, to_ascii_lower,
};
use crate::warnings::{
    push_warning, texts, with_warning, ICON_NOT_FOUND, SIGNATURE_BLOCK_DETECTED_UNPARSED,
    SIGNATURE_PARTIAL,
};

verus! {

// ---------------------------------------------------------------------------
// From manifest to data
// ---------------------------------------------------------------------------
/// The items in order of first occurrence, without repeats.
pub open spec fn dedup_spec(s: Seq<Seq<char>>) -> Seq<Seq<char>>
    decreases s.len(),
{
    if s.len() == 0 {
        Seq::empty()
    } else {
        let d = dedup_spec(s.drop_last());
        if d.contains(s.last()) {
            d
        } else {
            d.push(s.last())
        }
    }
}

/// Drops repeated items, keeping the first occurrence of each.
pub fn dedup(items: &Vec<String>) -> (out: Vec<String>)
    ensures
        texts(out@) == dedup_spec(texts(items@)),
{
    let ghost iv = texts(items@);
    let mut out: Vec<String> = Vec::new();
    let mut i: usize = 0;
    while i < items.len()
        invariant
            i <= items.len(),
            iv == texts(items@),
            texts(out@) == dedup_spec(iv.take(i as int)),
        decreases items.len() - i,
    {
        assert(iv.take(i + 1).drop_last() == iv.take(i as int));
        assert(iv.take(i + 1).last() == items@[i as int]@);
        let x = chars_of(items[i].as_str());
        let mut seen = false;
        let mut j: usize = 0;
        while j < out.len()
            invariant
                j <= out.len(),
                x@ == items@[i as int]@,
                seen == (exists|k: int| 0 <= k < j && texts(out@)[k] == x@),
            decreases out.len() - j,
        {
            if !seen && chars_eq(&chars_of(out[j].as_str()), &x) {
                seen = true;
                assert(texts(out@)[j as int] == x@);
            }
            j += 1;
        }
        let ghost before = texts(out@);
        if !seen {
            out.push(copy_string(&items[i]));
            assert(texts(out@) =~= before.push(x@));
        }
        i += 1;
    }
    assert(iv.take(items.len() as int) == iv);
    out
}

/// The package name used when the manifest gives none: `local.` and the lowercased,
/// sanitized file stem (the sanitized stem is ASCII, so ASCII lowering is its lowercase).
pub open spec fn infer_package_name_spec(path: Seq<char>, windows: bool) -> Seq<char> {
    match file_stem_spec(path, windows) {
        Some(s) => "local."@ + ascii_lower_seq(sanitize_spec(s)),
        None => "unknown"@,
    }
}

/// The app name used when the manifest gives none: the sanitized file stem.
pub open spec fn infer_app_name_spec(path: Seq<char>, windows: bool) -> Seq<char> {
    match file_stem_spec(path, windows) {
        Some(s) => sanitize_spec(s),
        None => "Unknown"@,
    }
}

/// The data reported for a parsed APK, with the documented defaults.
pub open spec fn data_spec(
    d: ApkInfoData,
    path: Seq<char>,
    m: ManifestView,
    abis: Seq<Seq<char>>,
    channel: Seq<char>,
    icon_url: Seq<char>,
    signers: Seq<SignerView>,
    windows: bool,
) -> bool {
    &&& d.package_name@ == match m.package_name {
        Some(p) => p,
        None => infer_package_name_spec(path, windows),
    }
    &&& d.app_name@ == match m.app_name {
        Some(a) => a,
        None => infer_app_name_spec(path, windows),
    }
    &&& d.icon_url@ == icon_url
    &&& d.min_sdk_version == match m.min_sdk_version {
        Some(v) => v,
        None => 1,
    }
    &&& d.target_sdk_version == match m.target_sdk_version {
        Some(v) => v,
        None => 1,
    }
    &&& d.compile_sdk_version == m.compile_sdk_version
    &&& d.version_code == match m.version_code {
        Some(v) => v,
        None => 1,
    }
    &&& crate::manifest::opt_text(d.version_name) == m.version_name
    &&& texts(d.permissions@) == dedup_spec(m.permissions)
    &&& signer_views(d.signers@) == signers
    &&& texts(d.abis@) == abis
    &&& d.channel@ == channel
}

/// Fills the reported data from the manifest and the other findings.
pub fn map_to_data(
    path: &[char],
    manifest: ManifestInfo,
    abis: Vec<String>,
    channel: String,
    icon_url: String,
    signers: Vec<SignerInfo>,
    windows: bool,
) -> (d: ApkInfoData)
    ensures
        data_spec(
            d,
            path@,
            manifest@,
            texts(abis@),
            channel@,
            icon_url@,
            signer_views(signers@),
            windows,
        ),
{
    let ghost m = manifest@;
    let package_name = match manifest.package_name {
        Some(p) => p,
        None => match file_stem(path, windows) {
            Some(s) => {
                let mut out = chars_of("local.");
                extend_chars(&mut out, &to_ascii_lower(&sanitize(&s)));
                string_of(&out)
            },
            None => string_from("unknown"),
        },
    };
    let app_name = match manifest.app_name {
        Some(a) => a,
        None => match file_stem(path, windows) {
            Some(s) => string_of(&sanitize(&s)),
            None => string_from("Unknown"),
        },
    };
    let permissions = dedup(&manifest.permissions);
    ApkInfoData {
        package_name,
        app_name,
        icon_url,
        min_sdk_version: match manifest.min_sdk_version {
            Some(v) => v,
            None => 1,
        },
        target_sdk_version: match manifest.target_sdk_version {
            Some(v) => v,
            None => 1,
        },
        compile_sdk_version: manifest.compile_sdk_version,
        version_code: match manifest.version_code {
            Some(v) => v,
            None => 1,
        },
        version_name: manifest.version_name,
        permissions,
        signers,
        abis,
        channel,
    }
}

// ---------------------------------------------------------------------------
// Error messages
// ---------------------------------------------------------------------------
/// The path reduced to its file name behind `<redacted>/` (`<redacted>` without one). Both
/// `/` and `\` count as separators here whatever the platform, so that no directory of a
/// Windows path shows in a message.
pub open spec fn sanitize_path_spec(path: Seq<char>) -> Seq<char> {
    match file_name_spec(path, true) {
        Some(n) => "<redacted>/"@ + n,
        None => "<redacted>"@,
    }
}

/// The path reduced to its file name, hiding the directories.
pub fn sanitize_path(path: &str) -> (r: String)
    ensures
        r@ == sanitize_path_spec(path@),
{
    match file_name(&chars_of(path), true) {
        Some(n) => {
            let mut out = chars_of("<redacted>/");
            extend_chars(&mut out, &n);
            string_of(&out)
        },
        None => string_from("<redacted>"),
    }
}

/// The message with every occurrence of the path replaced by its redacted form.
pub open spec fn sanitize_error_message_spec(message: Seq<char>, path: Seq<char>) -> Seq<char> {
    replace_all(message, path, sanitize_path_spec(path))
}

/// Hides the directories of the path wherever it occurs in the message.
pub fn sanitize_error_message(message: &str, path: &str) -> (r: String)
    ensures
        r@ == sanitize_error_message_spec(message@, path@),
{
    let redacted = chars_of(sanitize_path(path).as_str());
    string_of(&replace_chars(&chars_of(message), &chars_of(path), &redacted))
}

/// The envelope reported when parsing stops with an error.
pub open spec fn error_envelope_ok(env: ApkInfoEnvelope, e: BackendError, path: Seq<char>) -> bool {
    &&& !env.success
    &&& env.error_code matches Some(c) && c@ == error_code(e)
    &&& env.error_message matches Some(msg) && msg@ == sanitize_error_message_spec(
        error_message(e),
        path,
    )
    &&& is_placeholder(env.data)
    &&& env.warnings@.len() == 0
}

/// The envelope for an error.
pub fn error_envelope(e: BackendError, path: &str) -> (env: ApkInfoEnvelope)
    ensures
        error_envelope_ok(env, e, path@),
{
    ApkInfoEnvelope::err(
        e.code(),
        sanitize_error_message(e.message(), path),
        ApkInfoData::placeholder(),
        Vec::new(),
    )
}

// ---------------------------------------------------------------------------
// The two steps
// ---------------------------------------------------------------------------
/// What the caller learned about the input path.
pub enum InputProbe {
    /// Nothing exists at the path.
    Missing,
    /// The path exists but is not a regular file.
    NotFile,
    /// The file exists but could not be read.
    Unreadable,
    /// The file's content.
    Contents(Vec<u8>),
    /// For an app bundle: the archive of APKs that bundletool built from it in universal
    /// mode, or `None` when the conversion failed.
    Converted(Option<Vec<u8>>),
}

/// The name of the manifest entry.
pub open spec fn manifest_entry() -> Seq<char> {
    "AndroidManifest.xml"@
}

/// Why the bytes of an APK cannot be parsed, if they cannot: the archive does not open, or
/// its manifest is missing, unreadable, empty or malformed.
pub open spec fn apk_bytes_error(b: Seq<u8>) -> Option<BackendError> {
    match zip_open(b) {
        None => Some(BackendError::ApkOpenFailed),
        Some(es) => match read_spec(es, manifest_entry()) {
            None => Some(BackendError::ManifestNotFound),
            Some(None) => Some(BackendError::ApkEntryReadFailed),
            Some(Some(mb)) => if mb.len() == 0 || manifest_spec(mb) is None {
                Some(BackendError::ManifestParseFailed)
            } else {
                None
            },
        },
    }
}

/// The name of the universal APK in the archive that bundletool writes.
pub open spec fn universal_entry() -> Seq<char> {
    "universal.apk"@
}

/// The universal APK held by an archive of APKs, when the archive opens and the entry can
/// be read.
pub open spec fn universal_apk(apks: Seq<u8>) -> Option<Seq<u8>> {
    match zip_open(apks) {
        Some(es) => match read_spec(es, universal_entry()) {
            Some(Some(u)) => Some(u),
            _ => None,
        },
        None => None,
    }
}

/// The APK that is parsed for a path: the file itself for an `.apk`, the universal APK
/// converted from it for an `.aab`.
pub open spec fn apk_bytes(path: Seq<char>, probe: InputProbe, windows: bool) -> Option<Seq<u8>> {
    match probe {
        InputProbe::Contents(b) => if has_extension(path, "apk"@, windows) {
            Some(b@)
        } else {
            None
        },
        InputProbe::Converted(Some(a)) => if !has_extension(path, "apk"@, windows)
            && has_extension(path, "aab"@, windows) {
            universal_apk(a@)
        } else {
            None
        },
        _ => None,
    }
}

/// Why parsing stops, if it does, before anything but the manifest is read.
pub open spec fn begin_error(path: Seq<char>, probe: InputProbe, windows: bool) -> Option<
    BackendError,
> {
    match probe {
        InputProbe::Missing => Some(BackendError::InputNotFound),
        InputProbe::NotFile => Some(BackendError::InputNotFile),
        _ => if has_extension(path, "apk"@, windows) {
            match probe {
                InputProbe::Contents(b) => apk_bytes_error(b@),
                _ => Some(BackendError::ApkOpenFailed),
            }
        } else if has_extension(path, "aab"@, windows) {
            match probe {
                InputProbe::Converted(Some(a)) => match universal_apk(a@) {
                    Some(u) => apk_bytes_error(u),
                    None => Some(BackendError::AabConvertFailed),
                },
                _ => Some(BackendError::AabConvertFailed),
            }
        } else {
            Some(BackendError::InputNotApk)
        },
    }
}

/// What is known of the input path before it is read.
pub enum PathKind {
    /// Nothing exists at the path.
    Missing,
    /// The path exists but is not a regular file.
    NotFile,
    /// A regular file.
    File,
}

/// How to obtain the APK to parse.
pub enum InputPlan {
    /// Read the file and parse it as an APK.
    ReadApk,
    /// Convert the app bundle with `java -jar <bundletool> build-apks --mode=universal` and
    /// parse the universal APK it holds.
    ConvertBundle { bundletool: String, java: String },
    /// Stop: this is the envelope.
    Fail(ApkInfoEnvelope),
}

/// The error that stops an input before it is read, if any: missing or not a file, an
/// extension other than `.apk` and `.aab`, or, for an app bundle, a missing bundletool or
/// Java (bundletool first).
pub open spec fn plan_error(
    path: Seq<char>,
    kind: PathKind,
    has_bundletool: bool,
    has_java: bool,
    windows: bool,
) -> Option<BackendError> {
    match kind {
        PathKind::Missing => Some(BackendError::InputNotFound),
        PathKind::NotFile => Some(BackendError::InputNotFile),
        PathKind::File => if has_extension(path, "apk"@, windows) {
            None
        } else if has_extension(path, "aab"@, windows) {
            if !has_bundletool {
                Some(BackendError::BundletoolNotFound)
            } else if !has_java {
                Some(BackendError::JavaNotFound)
            } else {
                None
            }
        } else {
            Some(BackendError::InputNotApk)
        },
    }
}

/// Decides how an input is read: an APK is read as it is; an app bundle is converted with
/// the bundletool and Java found, and fails with a diagnostic code when either is missing.
pub fn plan_input(
    path: &str,
    kind: PathKind,
    bundletool: Option<String>,
    java: Option<String>,
    windows: bool,
) -> (r: InputPlan)
    ensures
        match plan_error(path@, kind, bundletool is Some, java is Some, windows) {
            Some(e) => r matches InputPlan::Fail(env) && error_envelope_ok(env, e, path@),
            None => if has_extension(path@, "apk"@, windows) {
                r is ReadApk
            } else {
                r matches InputPlan::ConvertBundle { bundletool: b, java: j } && Some(b)
                    == bundletool && Some(j) == java
            },
        },
{
    match kind {
        PathKind::Missing => return InputPlan::Fail(error_envelope(BackendError::InputNotFound, path)),
        PathKind::NotFile => return InputPlan::Fail(error_envelope(BackendError::InputNotFile, path)),
        PathKind::File => {},
    }
    let p = chars_of(path);
    if crate::paths::extension_is(&p, "apk", windows) {
        return InputPlan::ReadApk;
    }
    if !crate::paths::extension_is(&p, "aab", windows) {
        return InputPlan::Fail(error_envelope(BackendError::InputNotApk, path));
    }
    match bundletool {
        None => InputPlan::Fail(error_envelope(BackendError::BundletoolNotFound, path)),
        Some(b) => match java {
            None => InputPlan::Fail(error_envelope(BackendError::JavaNotFound, path)),
            Some(j) => InputPlan::ConvertBundle { bundletool: b, java: j },
        },
    }
}

/// An icon entry that could be read, with the file name to export it under.
pub struct IconCandidate {
    pub entry_name: String,
    pub file_name: String,
    pub bytes: Vec<u8>,
}

/// The readable icon entries among the candidates, in order.
pub open spec fn icon_writes_spec(
    path: Seq<char>,
    es: Seq<EntryView>,
    cands: Seq<Seq<char>>,
    windows: bool,
) -> Seq<(Seq<char>, Seq<char>, Seq<u8>)>
    decreases cands.len(),
{
    if cands.len() == 0 {
        Seq::empty()
    } else {
        let rest = icon_writes_spec(path, es, cands.drop_last(), windows);
        let c = cands.last();
        match read_spec(es, c) {
            Some(Some(b)) => rest.push((c, icon_file_name_spec(path, c, windows), b)),
            _ => rest,
        }
    }
}

pub open spec fn icon_views(v: Seq<IconCandidate>) -> Seq<(Seq<char>, Seq<char>, Seq<u8>)> {
    v.map_values(|c: IconCandidate| (c.entry_name@, c.file_name@, c.bytes@))
}

/// Everything learned from the archive, waiting for the icon to be written.
pub struct PendingApk {
    pub path: String,
    /// Whether paths are read as on Windows.
    pub windows: bool,
    pub manifest: ManifestInfo,
    pub abis: Vec<String>,
    pub channel: String,
    /// The icon entries to try, in order.
    pub icon_candidates: Vec<String>,
    /// The candidates that could be read, in order; the first one written becomes the icon.
    pub icons: Vec<IconCandidate>,
    pub signers: Vec<SignerInfo>,
    pub sig_block: bool,
    pub sig_hint: bool,
    pub warnings: Vec<String>,
}

/// What the first step finds for a file that passes validation.
pub open spec fn pending_ok(p: PendingApk, path: Seq<char>, file: Seq<u8>) -> bool {
    let es = zip_open(file).unwrap();
    let mb = read_spec(es, manifest_entry()).unwrap().unwrap();
    let names = opened_names(es);
    let resolved = resolve_app_name_spec(
        manifest_spec(mb).unwrap(),
        es,
        names,
        manifest_warnings(mb, Seq::empty()),
    );
    let channel = resolve_channel_spec(resolved.0, path, names, resolved.1, p.windows);
    &&& p.path@ == path
    &&& p.manifest@ == resolved.0
    &&& texts(p.abis@) == abis_spec(names)
    &&& p.channel@ == channel.0
    &&& icon_candidates_ok(resolved.0.app_icon, names, texts(p.icon_candidates@))
    &&& icon_views(p.icons@) == icon_writes_spec(path, es, texts(p.icon_candidates@), p.windows)
    &&& signer_views(p.signers@) == signers_spec(es, names, p.windows)
    &&& p.sig_block == has_sig_block(file)
    &&& p.sig_hint == has_signature_hint(names)
    &&& forall|i: int| 0 <= i < p.signers@.len() ==> (#[trigger] p.signers@[i]).cert_sha256@.len() == 64
    &&& texts(p.warnings@) == channel.1
}

fn readable_icons(a: &mut Apk, path: &[char], cands: &Vec<String>, windows: bool) -> (out: Vec<
    IconCandidate,
>)
    ensures
        zip_entries(*final(a)) == zip_entries(*old(a)),
        icon_views(out@) == icon_writes_spec(path@, zip_entries(*old(a)), texts(cands@), windows),
{
    let ghost es = zip_entries(*a);
    let ghost cv = texts(cands@);
    let mut out: Vec<IconCandidate> = Vec::new();
    let mut i: usize = 0;
    while i < cands.len()
        invariant
            i <= cands.len(),
            cv == texts(cands@),
            zip_entries(*a) == es,
            icon_views(out@) == icon_writes_spec(path@, es, cv.take(i as int), windows),
        decreases cands.len() - i,
    {
        assert(cv.take(i + 1).drop_last() == cv.take(i as int));
        assert(cv.take(i + 1).last() == cands@[i as int]@);
        let ghost before = icon_views(out@);
        match read_entry(a, cands[i].as_str()) {
            EntryRead::Bytes(b) => {
                let c = IconCandidate {
                    entry_name: copy_string(&cands[i]),
                    file_name: icon_file_name(path, cands[i].as_str(), windows),
                    bytes: b,
                };
                out.push(c);
                assert(icon_views(out@) =~= before.push(
                    (cands@[i as int]@, icon_file_name_spec(path@, cands@[i as int]@, windows), b@),
                ));
            },
            _ => {},
        }
        i += 1;
    }
    assert(cv.take(cands.len() as int) == cv);
    out
}

fn texts_to_strings(v: Vec<Vec<char>>) -> (out: Vec<String>)
    ensures
        texts(out@) == vtexts(v@),
{
    let mut out: Vec<String> = Vec::new();
    let mut i: usize = 0;
    while i < v.len()
        invariant
            i <= v.len(),
            out@.len() == i,
            forall|j: int| 0 <= j < i ==> #[trigger] out@[j]@ == v@[j]@,
        decreases v.len() - i,
    {
        out.push(string_of(v[i].as_slice()));
        i += 1;
    }
    assert(texts(out@) =~= vtexts(v@));
    out
}

fn strings_to_texts(v: &Vec<String>) -> (out: Vec<Vec<char>>)
    ensures
        vtexts(out@) == texts(v@),
{
    let mut out: Vec<Vec<char>> = Vec::new();
    let mut i: usize = 0;
    while i < v.len()
        invariant
            i <= v.len(),
            out@.len() == i,
            forall|j: int| 0 <= j < i ==> #[trigger] out@[j]@ == v@[j]@,
        decreases v.len() - i,
    {
        out.push(chars_of(v[i].as_str()));
        i += 1;
    }
    assert(vtexts(out@) =~= texts(v@));
    out
}

/// The first step for the bytes of an APK: opens the archive and reads everything except
/// the icon, which the caller writes to disk before `parse_apk_finish`.
fn parse_apk_bytes(path: &str, p: &[char], file: Vec<u8>, windows: bool) -> (r: Result<
    PendingApk,
    ApkInfoEnvelope,
>)
    requires
        p@ == path@,
    ensures
        match apk_bytes_error(file@) {
            Some(e) => r matches Err(env) && error_envelope_ok(env, e, path@),
            None => r matches Ok(pa) && pa.windows == windows && pending_ok(pa, path@, file@),
        },
{
    let sig_block = has_apk_sig_block(&file);
    let ghost fb = file@;
    let mut archive = match open_archive(file) {
        Some(a) => a,
        None => return Err(error_envelope(BackendError::ApkOpenFailed, path)),
    };
    let ghost es = zip_entries(archive);
    let mut warnings: Vec<String> = Vec::new();
    let manifest_bytes = match read_entry(&mut archive, "AndroidManifest.xml") {
        EntryRead::Missing => return Err(error_envelope(BackendError::ManifestNotFound, path)),
        EntryRead::Unreadable => return Err(
            error_envelope(BackendError::ApkEntryReadFailed, path),
        ),
        EntryRead::Bytes(b) => b,
    };
    if manifest_bytes.len() == 0 {
        return Err(error_envelope(BackendError::ManifestParseFailed, path));
    }
    assert(texts(warnings@) =~= Seq::<Seq<char>>::empty());
    let mut manifest = match parse_manifest(&manifest_bytes, &mut warnings) {
        Ok(m) => m,
        Err(e) => return Err(error_envelope(e, path)),
    };
    let names = list_entries(&mut archive);
    resolve_app_name(&mut manifest, &mut archive, &names, &mut warnings);
    let abis = infer_abis(&names);
    let channel = resolve(&manifest, p, &names, &mut warnings, windows);
    let name_texts = strings_to_texts(&names);
    let cands = texts_to_strings(icon_candidates(manifest.app_icon.as_ref(), &name_texts));
    let icons = readable_icons(&mut archive, p, &cands, windows);
    let signers = extract_signers(&mut archive, &names, windows);
    let sig_hint = has_any_signature_hint(&names);
    Ok(
        PendingApk {
            path: string_from(path),
            windows,
            manifest,
            abis,
            channel,
            icon_candidates: cands,
            icons,
            signers,
            sig_block,
            sig_hint,
            warnings,
        },
    )
}

/// The first step: validates the input, opens the APK (for an app bundle, the universal
/// APK converted from it) and reads everything except the icon, which the caller writes to
/// disk before `parse_apk_finish`. A converted bundle is parsed as its universal APK, under
/// the bundle's path.
pub fn parse_apk_begin(path: &str, probe: InputProbe, windows: bool) -> (r: Result<
    PendingApk,
    ApkInfoEnvelope,
>)
    ensures
        match begin_error(path@, probe, windows) {
            Some(e) => r matches Err(env) && error_envelope_ok(env, e, path@),
            None => apk_bytes(path@, probe, windows) matches Some(b) && r matches Ok(p) && p.windows
                == windows && pending_ok(p, path@, b),
        },
{
    let p = chars_of(path);
    match probe {
        InputProbe::Missing => return Err(error_envelope(BackendError::InputNotFound, path)),
        InputProbe::NotFile => return Err(error_envelope(BackendError::InputNotFile, path)),
        _ => {},
    }
    if crate::paths::extension_is(&p, "apk", windows) {
        return match probe {
            InputProbe::Contents(b) => parse_apk_bytes(path, &p, b, windows),
            _ => Err(error_envelope(BackendError::ApkOpenFailed, path)),
        };
    }
    if !crate::paths::extension_is(&p, "aab", windows) {
        return Err(error_envelope(BackendError::InputNotApk, path));
    }
    let apks = match probe {
        InputProbe::Converted(Some(a)) => a,
        _ => return Err(error_envelope(BackendError::AabConvertFailed, path)),
    };
    let mut archive = match open_archive(apks) {
        Some(a) => a,
        None => return Err(error_envelope(BackendError::AabConvertFailed, path)),
    };
    match read_entry(&mut archive, "universal.apk") {
        EntryRead::Bytes(u) => parse_apk_bytes(path, &p, u, windows),
        _ => Err(error_envelope(BackendError::AabConvertFailed, path)),
    }
}

/// The warnings after the icon and signature checks.
pub open spec fn final_warnings(
    ws: Seq<Seq<char>>,
    icon_written: bool,
    sig_block: bool,
    has_signers: bool,
    sig_hint: bool,
) -> Seq<Seq<char>> {
    let w1 = if icon_written {
        ws
    } else {
        with_warning(ws, ICON_NOT_FOUND@)
    };
    signature_warnings(w1, sig_block, has_signers, sig_hint)
}

/// The icon URL: the written file's URL, or empty when no icon could be written.
pub open spec fn icon_url_spec(written: Option<Seq<char>>) -> Seq<char> {
    match written {
        Some(w) => file_url_spec(w),
        None => Seq::empty(),
    }
}

/// The second step: given the path the icon was written to (if any), the final envelope.
pub fn parse_apk_finish(p: PendingApk, written_icon_path: Option<String>) -> (env: ApkInfoEnvelope)
    ensures
        env.success,
        env.error_code is None,
        env.error_message is None,
        data_spec(
            env.data,
            p.path@,
            p.manifest@,
            texts(p.abis@),
            p.channel@,
            icon_url_spec(crate::manifest::opt_text(written_icon_path)),
            signer_views(p.signers@),
            p.windows,
        ),
        texts(env.warnings@) == final_warnings(
            texts(p.warnings@),
            written_icon_path is Some,
            p.sig_block,
            p.signers@.len() > 0,
            p.sig_hint,
        ),
{
    let mut warnings = p.warnings;
    let icon_url = match &written_icon_path {
        Some(w) => file_url_from_path(w.as_str()),
        None => {
            push_warning(&mut warnings, ICON_NOT_FOUND);
            String::new()
        },
    };
    add_signature_warnings(&mut warnings, p.sig_block, p.signers.len() > 0, p.sig_hint);
    let path = chars_of(p.path.as_str());
    let data = map_to_data(&path, p.manifest, p.abis, p.channel, icon_url, p.signers, p.windows);
    ApkInfoEnvelope::ok(data, warnings)
}

} // verus!
