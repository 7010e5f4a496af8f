use apk_info::model::{ApkInfoData, ApkInfoEnvelope, SignerInfo};
use apk_info::render::{
    empty_text, join_or_empty, list_to_template_lines, render_text, render_text_record,
    replace_template_placeholders, template_fields, ParseRecord,
};

fn sample_record() -> ParseRecord {
    let mut data = ApkInfoData::placeholder();
    data.package_name = "com.example.demo".to_string();
    data.app_name = "Demo".to_string();
    data.min_sdk_version = 23;
    data.target_sdk_version = 35;
    data.compile_sdk_version = Some(35);
    data.version_code = 7;
    data.version_name = Some("1.2.3".to_string());
    data.permissions = vec!["android.permission.INTERNET".to_string()];
    data.abis = vec!["arm64-v8a".to_string()];
    data.signers = vec![SignerInfo {
        scheme: "v2".to_string(),
        cert_sha256: "ABCDEF".to_string(),
        issuer: "unknown".to_string(),
        subject: "CN=Demo".to_string(),
        valid_from: String::new(),
        valid_to: String::new(),
    }];

    ParseRecord {
        path: "D:/tmp/demo.apk".to_string(),
        envelope: ApkInfoEnvelope::ok(data, vec!["CHANNEL_NOT_FOUND".to_string()]),
        icon_exported_to: None,
    }
}

fn chars(s: &str) -> Vec<char> {
    s.chars().collect()
}

fn text(v: Vec<char>) -> String {
    v.into_iter().collect()
}

#[test]
fn template_renderer_uses_gui_placeholders_and_skips_comments() {
    let template = "# comment line\nPackage: #packname#\nPermissions:\n#permissions#\n#signers#";
    let rendered = render_text_record(&sample_record(), Some(template), false);

    assert!(!rendered.contains("# comment line"));
    assert!(rendered.contains("Package: com.example.demo"));
    assert!(rendered.contains("- android.permission.INTERNET"));
    assert!(rendered.contains("certSha256: ABCDEF"));
}

#[test]
fn template_renders_exactly() {
    let template = "  # note\r\nName: #app_name# (#status#)\n#file_name#|#ext#|#compile_sdk_version#|#error_code#\n#abis#\n#warnings#";
    let rendered = render_text_record(&sample_record(), Some(template), false);
    assert_eq!(
        rendered,
        "Name: Demo (success)\ndemo.apk|apk|35|-\n- arm64-v8a\n- CHANNEL_NOT_FOUND"
    );
}

#[test]
fn template_signer_block_is_complete() {
    let rendered = render_text_record(&sample_record(), Some("#signers#"), false);
    assert_eq!(
        rendered,
        "Signer #1\n  scheme: v2\n  certSha256: ABCDEF\n  issuer: unknown\n  subject: CN=Demo\n  validFrom: none\n  validTo: none"
    );
}

#[test]
fn default_summary_lists_every_field() {
    let rendered = render_text_record(&sample_record(), None, false);
    assert_eq!(rendered.lines().count(), 18 + 1);
    let expected = [
        "FilePath: D:/tmp/demo.apk",
        "Success: true",
        "PackageName: com.example.demo",
        "AppName: Demo",
        "Channel: unknown",
        "MinSdkVersion: 23",
        "TargetSdkVersion: 35",
        "CompileSdkVersion: 35",
        "VersionCode: 7",
        "VersionName: 1.2.3",
        "IconUrl: none",
        "IconExportedTo: none",
        "Permissions: android.permission.INTERNET",
        "ABIs: arm64-v8a",
        "Signers: 1",
        "Warnings: CHANNEL_NOT_FOUND",
        "ErrorCode: none",
        "ErrorMessage: none",
        "Signer#1: scheme=v2, sha256=ABCDEF, issuer=unknown, subject=CN=Demo",
    ]
    .join("\n");
    assert_eq!(rendered, expected);
}

#[test]
fn several_records_are_separated() {
    let records = vec![sample_record(), sample_record()];
    let rendered = render_text(&records, Some("#version_code#"), false);
    assert_eq!(rendered, "7\n\n---\n\n7");
}

#[test]
fn placeholders_are_replaced_in_field_order() {
    let fields = vec![(chars("a"), chars("#b#")), (chars("b"), chars("x"))];
    let out = replace_template_placeholders(&chars("#a# #b#"), &fields);
    assert_eq!(text(out), "x x");
    let f = template_fields(&sample_record(), false);
    assert_eq!(f.len(), 19);
    let keys: Vec<String> = f.iter().map(|(k, _)| text(k.clone())).collect();
    let mut sorted = keys.clone();
    sorted.sort();
    assert_eq!(keys, sorted);
}

#[test]
fn list_helpers() {
    assert_eq!(text(empty_text(&chars("  \t"))), "none");
    assert_eq!(text(empty_text(&chars(" x "))), " x ");
    assert_eq!(text(join_or_empty(&vec![])), "none");
    assert_eq!(text(join_or_empty(&vec!["a".to_string(), "b".to_string()])), "a, b");
    assert_eq!(text(list_to_template_lines(&vec![])), "-");
    assert_eq!(
        text(list_to_template_lines(&vec!["a".to_string(), "b".to_string()])),
        "- a\n- b"
    );
}

#[test]
fn negative_numbers_are_rendered() {
    let mut record = sample_record();
    record.envelope.data.min_sdk_version = -5;
    record.envelope.data.version_code = i64::MIN;
    let rendered = render_text_record(&record, Some("#min_sdk_version# #version_code#"), false);
    assert_eq!(rendered, "-5 -9223372036854775808");
}

#[test]
fn template_file_names_follow_the_platform() {
    let mut record = sample_record();
    record.path = r"D:\tmp\demo.APK".to_string();
    assert_eq!(render_text_record(&record, Some("#file_name# #ext#"), true), "demo.APK apk");
    assert_eq!(
        render_text_record(&record, Some("#file_name# #ext#"), false),
        r"D:\tmp\demo.APK apk"
    );
}
