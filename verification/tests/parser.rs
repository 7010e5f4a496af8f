use apk_info::signing::add_signature_warnings;
use sha2::Digest;
use std::io::Write;

use apk_info::model::{ApkInfoData, ApkInfoEnvelope, SignerInfo};
use apk_info::parser::{
    parse_apk_begin, parse_apk_finish, plan_input, sanitize_error_message, InputPlan,
    InputProbe, PathKind,
};

fn build_zip(files: Vec<(&str, &[u8])>) -> Vec<u8> {
    let mut writer = zip::ZipWriter::new(std::io::Cursor::new(Vec::new()));
    let options = zip::write::SimpleFileOptions::default();
    for (entry, body) in files {
        writer.start_file(entry, options).expect("start file");
        writer.write_all(body).expect("write body");
    }
    writer.finish().expect("finish zip").into_inner()
}

/// Parses like the command line does, with every icon write succeeding under `/tmp/icons`.
fn parse_with_probe(path: &str, probe: InputProbe) -> ApkInfoEnvelope {
    match parse_apk_begin(path, probe, false) {
        Err(env) => env,
        Ok(pending) => {
            let written = pending
                .icons
                .first()
                .map(|icon| format!("/tmp/icons/{}", icon.file_name));
            parse_apk_finish(pending, written)
        }
    }
}

fn parse_zip(name: &str, files: Vec<(&str, &[u8])>) -> ApkInfoEnvelope {
    parse_with_probe(&format!("/tmp/work/{name}"), InputProbe::Contents(build_zip(files)))
}

#[test]
fn non_apk_returns_error_envelope() {
    let envelope = parse_with_probe("/tmp/work/demo.txt", InputProbe::Contents(b"x".to_vec()));
    assert!(!envelope.success);
    assert_eq!(envelope.error_code.as_deref(), Some("INPUT_NOT_APK"));
}

#[test]
fn broken_zip_returns_open_failed() {
    let envelope =
        parse_with_probe("/tmp/work/broken.apk", InputProbe::Contents(b"not-zip".to_vec()));
    assert!(!envelope.success);
    assert_eq!(envelope.error_code.as_deref(), Some("APK_OPEN_FAILED"));
}

#[test]
fn defaults_and_channel_priority_from_manifest() {
    let manifest = r#"<manifest package="com.demo.app" android:versionCode="100" xmlns:android="http://schemas.android.com/apk/res/android"> 
            <uses-sdk android:minSdkVersion="21" android:targetSdkVersion="34" />
            <application android:label="Demo" android:icon="@mipmap/ic_launcher">
                <meta-data android:name="UMENG_CHANNEL" android:value="manifest_channel" />
            </application>
            <uses-permission android:name="android.permission.INTERNET" />
        </manifest>"#;

    let envelope = parse_zip(
        "app-huawei-release.apk",
        vec![
            ("AndroidManifest.xml", manifest.as_bytes()),
            ("META-INF/channel_oppo", b""),
            ("res/mipmap-xxhdpi/ic_launcher.png", b"png"),
        ],
    );
    assert!(envelope.success);
    assert_eq!(envelope.data.package_name, "com.demo.app");
    assert_eq!(envelope.data.version_name, None);
    assert_eq!(envelope.data.compile_sdk_version, None);
    assert_eq!(envelope.data.channel, "manifest_channel");
    assert_eq!(envelope.data.permissions, vec!["android.permission.INTERNET"]);
    assert!(!envelope.data.icon_url.is_empty());
}

#[test]
fn app_name_from_string_resource_is_resolved() {
    let manifest = r#"<manifest package="com.demo.app" xmlns:android="http://schemas.android.com/apk/res/android">
            <application android:label="@string/app_name" />
        </manifest>"#;
    let strings = r#"<resources><string name="app_name">Demo App</string></resources>"#;
    let envelope = parse_zip(
        "demo.apk",
        vec![
            ("AndroidManifest.xml", manifest.as_bytes()),
            ("res/values/strings.xml", strings.as_bytes()),
        ],
    );
    assert!(envelope.success);
    assert_eq!(envelope.data.app_name, "Demo App");
    assert!(!envelope.warnings.iter().any(|w| w == "APP_NAME_UNRESOLVED"));
}

#[test]
fn app_name_from_prefixed_string_reference_is_resolved() {
    let manifest = r#"<manifest package="com.demo.app" xmlns:android="http://schemas.android.com/apk/res/android">
            <application android:label="@com.demo.app:string/app_name" />
        </manifest>"#;
    let strings = r#"<resources><string name="app_name">Demo App From Prefix</string></resources>"#;
    let envelope = parse_zip(
        "demo-prefix.apk",
        vec![
            ("AndroidManifest.xml", manifest.as_bytes()),
            ("res/values/strings.xml", strings.as_bytes()),
        ],
    );
    assert!(envelope.success);
    assert_eq!(envelope.data.app_name, "Demo App From Prefix");
}

#[test]
fn unknown_channel_sets_warning() {
    let manifest = r#"<manifest package="com.demo.app" xmlns:android="http://schemas.android.com/apk/res/android"></manifest>"#;
    let envelope = parse_zip("demo-release.apk", vec![("AndroidManifest.xml", manifest.as_bytes())]);
    assert!(envelope.success);
    assert_eq!(envelope.data.channel, "unknown");
    assert!(envelope.warnings.iter().any(|w| w == "CHANNEL_NOT_FOUND"));
}

#[test]
fn webp_icon_can_be_extracted() {
    let manifest = r#"<manifest package="com.demo.app" xmlns:android="http://schemas.android.com/apk/res/android">
            <application android:icon="@mipmap/ic_launcher" />
        </manifest>"#;
    let envelope = parse_zip(
        "icon-webp.apk",
        vec![
            ("AndroidManifest.xml", manifest.as_bytes()),
            ("res/mipmap-xxhdpi/ic_launcher.webp", b"webp"),
        ],
    );
    assert!(envelope.success);
    assert!(envelope.data.icon_url.ends_with(".webp"));
}

#[test]
fn error_message_is_sanitized() {
    let path = r"D:\sensitive\dir\sample.apk";
    let msg = format!("failed to parse {}", path);
    let sanitized = sanitize_error_message(&msg, path);
    assert!(!sanitized.contains(r"D:\sensitive\dir"));
    assert!(sanitized.contains("<redacted>/sample.apk"));
}

#[test]
fn tauri_and_direct_parser_are_consistent() {
    let manifest = r#"<manifest package="com.demo.app" xmlns:android="http://schemas.android.com/apk/res/android"></manifest>"#;
    let bytes = build_zip(vec![("AndroidManifest.xml", manifest.as_bytes())]);
    let direct = parse_with_probe("/tmp/work/demo.apk", InputProbe::Contents(bytes.clone()));
    let again = parse_with_probe(&String::from("/tmp/work/demo.apk"), InputProbe::Contents(bytes));

    assert_eq!(direct.success, again.success);
    assert_eq!(direct.data.package_name, again.data.package_name);
    assert_eq!(direct.data.channel, again.data.channel);
    assert_eq!(direct.data.permissions, again.data.permissions);
    assert_eq!(direct.data.signers.len(), again.data.signers.len());
    assert_eq!(direct.data.abis, again.data.abis);
}

#[test]
fn signer_dates_are_not_fabricated() {
    let manifest = r#"<manifest package="com.demo.app" xmlns:android="http://schemas.android.com/apk/res/android"></manifest>"#;
    let envelope = parse_zip(
        "signed.apk",
        vec![
            ("AndroidManifest.xml", manifest.as_bytes()),
            ("META-INF/CERT.RSA", b"dummy-cert"),
        ],
    );
    assert!(envelope.success);
    if let Some(first) = envelope.data.signers.first() {
        assert!(first.valid_from.is_empty());
        assert!(first.valid_to.is_empty());
    }
}

// ---------------------------------------------------------------------------
// Further cases of the parse pipeline
// ---------------------------------------------------------------------------

#[test]
fn missing_and_non_file_inputs_are_reported() {
    let missing = parse_with_probe("/tmp/work/none.apk", InputProbe::Missing);
    assert_eq!(missing.error_code.as_deref(), Some("INPUT_NOT_FOUND"));
    assert_eq!(
        missing.error_message.as_deref(),
        Some("INPUT_NOT_FOUND: file does not exist")
    );
    let dir = parse_with_probe("/tmp/work/dir.apk", InputProbe::NotFile);
    assert_eq!(dir.error_code.as_deref(), Some("INPUT_NOT_FILE"));
    let unreadable = parse_with_probe("/tmp/work/locked.apk", InputProbe::Unreadable);
    assert_eq!(unreadable.error_code.as_deref(), Some("APK_OPEN_FAILED"));
    assert_eq!(unreadable.data.package_name, "unknown");
    assert_eq!(unreadable.data.app_name, "Unknown");
    assert_eq!(unreadable.data.channel, "unknown");
    assert!(unreadable.warnings.is_empty());
}

#[test]
fn manifest_missing_empty_or_broken() {
    let no_manifest = parse_zip("a.apk", vec![("classes.dex", b"dex")]);
    assert_eq!(no_manifest.error_code.as_deref(), Some("MANIFEST_NOT_FOUND"));
    let empty = parse_zip("b.apk", vec![("AndroidManifest.xml", b"")]);
    assert_eq!(empty.error_code.as_deref(), Some("MANIFEST_PARSE_FAILED"));
    let broken = parse_zip("c.apk", vec![("AndroidManifest.xml", b"\x03\x00\x08\x00")]);
    assert_eq!(broken.error_code.as_deref(), Some("MANIFEST_PARSE_FAILED"));
    let bad_xml = parse_zip("d.apk", vec![("AndroidManifest.xml", b"<manifest package=\"a\"></other>")]);
    assert_eq!(bad_xml.error_code.as_deref(), Some("MANIFEST_PARSE_FAILED"));
}

#[test]
fn extension_check_ignores_case() {
    let manifest = r#"<manifest package="com.demo.app"></manifest>"#;
    let env = parse_with_probe(
        "/tmp/work/UPPER.APK",
        InputProbe::Contents(build_zip(vec![("AndroidManifest.xml", manifest.as_bytes())])),
    );
    assert!(env.success);
}

#[test]
fn defaults_come_from_file_name() {
    let manifest = r#"<manifest></manifest>"#;
    let envelope = parse_zip("My App!.apk", vec![("AndroidManifest.xml", manifest.as_bytes())]);
    assert!(envelope.success);
    assert_eq!(envelope.data.package_name, "local.my_app_");
    assert_eq!(envelope.data.app_name, "My_App_");
    assert_eq!(envelope.data.min_sdk_version, 1);
    assert_eq!(envelope.data.target_sdk_version, 1);
    assert_eq!(envelope.data.version_code, 1);
    assert!(envelope.data.signers.is_empty());
    assert!(envelope.data.abis.is_empty());
}

#[test]
fn manifest_fields_and_duplicate_permissions() {
    let manifest = r#"<manifest package="com.x" android:versionCode="0x10" android:versionName="2.0" android:compileSdkVersion="34">
        <uses-permission android:name="A" />
        <uses-permission android:name="B" />
        <uses-permission android:name="A" />
    </manifest>"#;
    let envelope = parse_zip("x.apk", vec![("AndroidManifest.xml", manifest.as_bytes())]);
    assert!(envelope.success);
    assert_eq!(envelope.data.version_code, 16);
    assert_eq!(envelope.data.version_name.as_deref(), Some("2.0"));
    assert_eq!(envelope.data.compile_sdk_version, Some(34));
    assert_eq!(envelope.data.permissions, vec!["A", "B"]);
}

#[test]
fn channel_from_archive_then_file_name() {
    let manifest = r#"<manifest package="com.demo.app"></manifest>"#;
    let from_archive = parse_zip(
        "app-huawei.apk",
        vec![("AndroidManifest.xml", manifest.as_bytes()), ("META-INF/channel_oppo", b"")],
    );
    assert_eq!(from_archive.data.channel, "oppo");
    let from_name = parse_zip("App-XiaoMi-1.apk", vec![("AndroidManifest.xml", manifest.as_bytes())]);
    assert_eq!(from_name.data.channel, "xiaomi");
    assert!(!from_name.warnings.iter().any(|w| w == "CHANNEL_NOT_FOUND"));
    let blank_meta = r#"<manifest package="p"><application><meta-data android:name="CHANNEL" android:value="  " /><meta-data android:name="channel" android:value="store" /></application></manifest>"#;
    let meta = parse_zip("a.apk", vec![("AndroidManifest.xml", blank_meta.as_bytes())]);
    assert_eq!(meta.data.channel, "store");
}

#[test]
fn unresolved_label_warns_and_falls_back() {
    let manifest = r#"<manifest package="com.demo.app"><application android:label="@string/missing" /></manifest>"#;
    let envelope = parse_zip("fallback-name.apk", vec![("AndroidManifest.xml", manifest.as_bytes())]);
    assert!(envelope.success);
    assert_eq!(envelope.data.app_name, "fallback-name");
    assert!(envelope.warnings.iter().any(|w| w == "APP_NAME_UNRESOLVED"));
}

#[test]
fn localized_strings_file_is_searched() {
    let manifest = r#"<manifest package="p"><application android:label="@string/title" /></manifest>"#;
    let strings = r#"<resources><string name="title">Titel</string></resources>"#;
    let envelope = parse_zip(
        "a.apk",
        vec![
            ("AndroidManifest.xml", manifest.as_bytes()),
            ("res/values-de/strings.xml", strings.as_bytes()),
        ],
    );
    assert_eq!(envelope.data.app_name, "Titel");
}

#[test]
fn icon_missing_warns_and_fallback_icon_is_found() {
    let manifest = r#"<manifest package="p"></manifest>"#;
    let none = parse_zip("a.apk", vec![("AndroidManifest.xml", manifest.as_bytes())]);
    assert!(none.data.icon_url.is_empty());
    assert!(none.warnings.iter().any(|w| w == "ICON_NOT_FOUND"));
    let fallback = parse_zip(
        "a.apk",
        vec![
            ("AndroidManifest.xml", manifest.as_bytes()),
            ("res/drawable-hdpi/icon.png", b"png"),
        ],
    );
    assert!(fallback.data.icon_url.starts_with("file:///"));
    assert!(fallback.data.icon_url.ends_with(".png"));
    assert!(!fallback.warnings.iter().any(|w| w == "ICON_NOT_FOUND"));
}

#[test]
fn icon_write_failure_leaves_no_icon() {
    let manifest = r#"<manifest package="p"><application android:icon="@mipmap/ic_launcher" /></manifest>"#;
    let bytes = build_zip(vec![
        ("AndroidManifest.xml", manifest.as_bytes()),
        ("res/mipmap-hdpi/ic_launcher.png", b"png"),
    ]);
    let pending = parse_apk_begin("/tmp/a.apk", InputProbe::Contents(bytes), false).ok().unwrap();
    assert_eq!(pending.icon_candidates, vec!["res/mipmap-hdpi/ic_launcher.png"]);
    let env = parse_apk_finish(pending, None);
    assert!(env.data.icon_url.is_empty());
    assert!(env.warnings.iter().any(|w| w == "ICON_NOT_FOUND"));
}

#[test]
fn signer_digest_and_signature_warnings() {
    let manifest = r#"<manifest package="p"></manifest>"#;
    let envelope = parse_zip(
        "signed.apk",
        vec![
            ("AndroidManifest.xml", manifest.as_bytes()),
            ("META-INF/CERT.RSA", b"dummy-cert"),
            ("META-INF/CERT.SF", b"sf"),
        ],
    );
    assert_eq!(envelope.data.signers.len(), 1);
    let signer = &envelope.data.signers[0];
    let expected: String = sha2::Sha256::digest(b"dummy-cert")
        .iter()
        .map(|b| format!("{b:02X}"))
        .collect();
    assert_eq!(signer.cert_sha256, expected);
    assert_eq!(signer.scheme, "v1");
    assert_eq!(signer.issuer, "unknown");
    assert_eq!(signer.subject, "CERT.RSA");
    assert!(envelope.warnings.iter().any(|w| w == "SIGNATURE_PARTIAL"));
    assert!(!envelope.warnings.iter().any(|w| w == "SIGNATURE_BLOCK_DETECTED_UNPARSED"));

    let sf_only = parse_zip(
        "s.apk",
        vec![("AndroidManifest.xml", manifest.as_bytes()), ("META-INF/x.sf", b"sf")],
    );
    assert!(sf_only.data.signers.is_empty());
    assert!(sf_only.warnings.iter().any(|w| w == "SIGNATURE_PARTIAL"));
}

#[test]
fn signing_block_magic_is_detected() {
    let manifest = r#"<manifest package="p"></manifest>"#;
    let mut bytes = build_zip(vec![("AndroidManifest.xml", manifest.as_bytes())]);
    // a zip archive may carry a comment; the magic placed there lies in the file's tail
    let end = bytes.len();
    bytes[end - 2] = 16;
    bytes[end - 1] = 0;
    bytes.extend_from_slice(b"APK Sig Block 42");
    let env = parse_with_probe("/tmp/work/v2.apk", InputProbe::Contents(bytes));
    assert!(env.success);
    assert!(env.warnings.iter().any(|w| w == "SIGNATURE_BLOCK_DETECTED_UNPARSED"));
}

#[test]
fn abis_are_sorted_and_distinct() {
    let manifest = r#"<manifest package="p"></manifest>"#;
    let envelope = parse_zip(
        "a.apk",
        vec![
            ("AndroidManifest.xml", manifest.as_bytes()),
            ("lib/x86_64/libA.so", b"so"),
            ("lib/arm64-v8a/libA.so", b"so"),
            ("lib/arm64-v8a/libB.so", b"so"),
            ("lib/mips/libA.so", b"so"),
        ],
    );
    assert_eq!(envelope.data.abis, vec!["arm64-v8a", "x86_64"]);
}

#[test]
fn warnings_are_never_repeated() {
    let manifest = r#"<manifest package="p"></manifest>"#;
    let envelope = parse_zip("plain.apk", vec![("AndroidManifest.xml", manifest.as_bytes())]);
    let mut seen = std::collections::BTreeSet::new();
    for w in &envelope.warnings {
        assert!(seen.insert(w.clone()));
    }
}

#[test]
fn envelope_constructors() {
    let ok = ApkInfoEnvelope::ok(ApkInfoData::placeholder(), vec!["W".to_string()]);
    assert!(ok.success);
    assert!(ok.error_code.is_none());
    assert_eq!(ok.warnings, vec!["W"]);
    let err = ApkInfoEnvelope::err("CODE", "message".to_string(), ApkInfoData::placeholder(), vec![]);
    assert!(!err.success);
    assert_eq!(err.error_code.as_deref(), Some("CODE"));
    assert_eq!(err.error_message.as_deref(), Some("message"));
    let data = ApkInfoData::placeholder();
    assert_eq!(data.package_name, "unknown");
    assert_eq!(data.icon_url, "");
    let _ = SignerInfo {
        scheme: String::new(),
        cert_sha256: String::new(),
        issuer: String::new(),
        subject: String::new(),
        valid_from: String::new(),
        valid_to: String::new(),
    };
}

#[test]
fn messages_without_the_path_are_unchanged() {
    assert_eq!(
        sanitize_error_message("APK_OPEN_FAILED: unable to open apk archive", "/tmp/x/app.apk"),
        "APK_OPEN_FAILED: unable to open apk archive"
    );
    assert_eq!(
        sanitize_error_message("at /tmp/x/app.apk and /tmp/x/app.apk", "/tmp/x/app.apk"),
        "at <redacted>/app.apk and <redacted>/app.apk"
    );
}

#[test]
fn lowercase_certificate_names_are_found() {
    let manifest = r#"<manifest package="p"></manifest>"#;
    let envelope = parse_zip(
        "signed.apk",
        vec![
            ("AndroidManifest.xml", manifest.as_bytes()),
            ("meta-inf/cert.rsa", b"c"),
        ],
    );
    assert_eq!(envelope.data.signers.len(), 1);
    assert_eq!(envelope.data.signers[0].subject, "cert.rsa");
    assert!(envelope.warnings.iter().any(|w| w == "SIGNATURE_PARTIAL"));
}

#[test]
fn signature_warnings_come_in_order_after_the_icon() {
    let manifest = r#"<manifest package="p"></manifest>"#;
    let mut bytes = build_zip(vec![
        ("AndroidManifest.xml", manifest.as_bytes()),
        ("META-INF/CERT.RSA", b"c"),
    ]);
    let end = bytes.len();
    bytes[end - 2] = 16;
    bytes[end - 1] = 0;
    bytes.extend_from_slice(b"APK Sig Block 42");
    let env = parse_with_probe("/tmp/work/a-huawei.apk", InputProbe::Contents(bytes));
    assert_eq!(
        env.warnings,
        vec!["ICON_NOT_FOUND", "SIGNATURE_BLOCK_DETECTED_UNPARSED", "SIGNATURE_PARTIAL"]
    );
}

fn fail_code(plan: InputPlan) -> Option<String> {
    match plan {
        InputPlan::Fail(env) => {
            assert!(!env.success);
            env.error_code
        }
        _ => None,
    }
}

#[test]
fn app_bundles_need_bundletool_and_java() {
    let tool = || Some("/t/bundletool.jar".to_string());
    let java = || Some("/usr/bin/java".to_string());
    assert!(matches!(plan_input("/x/a.apk", PathKind::File, None, None, false), InputPlan::ReadApk));
    match plan_input("/x/a.AAB", PathKind::File, tool(), java(), false) {
        InputPlan::ConvertBundle { bundletool, java } => {
            assert_eq!(bundletool, "/t/bundletool.jar");
            assert_eq!(java, "/usr/bin/java");
        }
        _ => panic!("expected a conversion"),
    }
    assert_eq!(
        fail_code(plan_input("/x/a.aab", PathKind::File, None, java(), false)).as_deref(),
        Some("BUNDLETOOL_NOT_FOUND_AAB_UNAVAILABLE")
    );
    assert_eq!(
        fail_code(plan_input("/x/a.aab", PathKind::File, tool(), None, false)).as_deref(),
        Some("JAVA_NOT_FOUND_AAB_UNAVAILABLE")
    );
    assert_eq!(
        fail_code(plan_input("/x/a.aab", PathKind::File, None, None, false)).as_deref(),
        Some("BUNDLETOOL_NOT_FOUND_AAB_UNAVAILABLE")
    );
    assert_eq!(
        fail_code(plan_input("/x/a.zip", PathKind::File, tool(), java(), false)).as_deref(),
        Some("INPUT_NOT_APK")
    );
    assert_eq!(
        fail_code(plan_input("/x/a.aab", PathKind::Missing, tool(), java(), false)).as_deref(),
        Some("INPUT_NOT_FOUND")
    );
    assert_eq!(
        fail_code(plan_input("/x/a.apk", PathKind::NotFile, None, None, false)).as_deref(),
        Some("INPUT_NOT_FILE")
    );
}

#[test]
fn converted_bundle_is_parsed_as_its_universal_apk() {
    let manifest = r#"<manifest package="com.demo.bundle"><uses-sdk android:minSdkVersion="24" /></manifest>"#;
    let apk = build_zip(vec![("AndroidManifest.xml", manifest.as_bytes())]);
    let apks = build_zip(vec![("toc.pb", b"toc"), ("universal.apk", &apk)]);
    let from_bundle = parse_with_probe("/tmp/work/demo.aab", InputProbe::Converted(Some(apks)));
    let direct = parse_with_probe("/tmp/work/demo.apk", InputProbe::Contents(apk));
    assert!(from_bundle.success);
    assert_eq!(from_bundle.data.package_name, "com.demo.bundle");
    assert_eq!(from_bundle.data.min_sdk_version, 24);
    assert_eq!(from_bundle.data.package_name, direct.data.package_name);
    assert_eq!(from_bundle.warnings, direct.warnings);

    let failed = parse_with_probe("/tmp/work/demo.aab", InputProbe::Converted(None));
    assert_eq!(failed.error_code.as_deref(), Some("AAB_CONVERT_FAILED"));
    let no_universal = build_zip(vec![("toc.pb", b"toc")]);
    let failed = parse_with_probe("/tmp/work/demo.aab", InputProbe::Converted(Some(no_universal)));
    assert_eq!(failed.error_code.as_deref(), Some("AAB_CONVERT_FAILED"));
    let broken_universal = build_zip(vec![("universal.apk", b"not a zip")]);
    let failed = parse_with_probe("/tmp/work/demo.aab", InputProbe::Converted(Some(broken_universal)));
    assert_eq!(failed.error_code.as_deref(), Some("APK_OPEN_FAILED"));
}

#[test]
fn signature_warning_step_adds_each_code_once() {
    let mut w = vec!["CHANNEL_NOT_FOUND".to_string()];
    add_signature_warnings(&mut w, true, false, true);
    assert_eq!(w, vec!["CHANNEL_NOT_FOUND", "SIGNATURE_BLOCK_DETECTED_UNPARSED", "SIGNATURE_PARTIAL"]);
    add_signature_warnings(&mut w, true, true, true);
    assert_eq!(w.len(), 3);
    let mut none: Vec<String> = Vec::new();
    add_signature_warnings(&mut none, false, false, false);
    assert!(none.is_empty());
}
