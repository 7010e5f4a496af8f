use sha2::Digest;
use apk_info::cli::{parse_exit_code, use_compact_json};
use apk_info::collect::{ascii_key, progress_done_message, progress_start_message, select_inputs};
use apk_info::datauri::{export_icon_name, icon_data_url};
use apk_info::doctor::{aapt_file_name, build_doctor_report};
use apk_info::error::BackendError;
use apk_info::icons::{fallback_icon_candidates, from_manifest_icon, icon_file_name};
use apk_info::paths::{
    extension, file_name, file_stem, file_url_decodable, file_url_from_path, file_url_to_path,
    is_supported_input_path, percent_decode, sanitize_filename,
};
use apk_info::text::{decimal_i64, replace_chars};
use apk_info::warnings::push_warning;

fn chars(s: &str) -> Vec<char> {
    s.chars().collect()
}

fn text(v: Vec<char>) -> String {
    v.into_iter().collect()
}

fn texts(v: &[&str]) -> Vec<Vec<char>> {
    v.iter().map(|s| chars(s)).collect()
}

#[test]
fn path_components() {
    let name = |s: &str| file_name(&chars(s), false).map(text);
    let win_name = |s: &str| file_name(&chars(s), true).map(text);
    assert_eq!(name("a/b/c.apk").as_deref(), Some("c.apk"));
    assert_eq!(name(r"C:\x\y.apk").as_deref(), Some(r"C:\x\y.apk"));
    assert_eq!(win_name(r"C:\x\y.apk").as_deref(), Some("y.apk"));
    assert_eq!(win_name("C:"), None);
    assert_eq!(win_name("C:y.apk").as_deref(), Some("y.apk"));
    assert_eq!(name("C:y.apk").as_deref(), Some("C:y.apk"));
    assert_eq!(name("a/b/").as_deref(), Some("b"));
    assert_eq!(name("a/.."), None);
    assert_eq!(name(""), None);
    assert_eq!(name("foo.txt/.").as_deref(), Some("foo.txt"));
    assert_eq!(name("a/./").as_deref(), Some("a"));
    assert_eq!(win_name(r"a\.").as_deref(), Some("a"));
    assert_eq!(name("/."), None);
    assert_eq!(name("./."), None);
    assert_eq!(name("."), None);
    assert_eq!(name("a.").as_deref(), Some("a."));
    let stem = |s: &str| file_stem(&chars(s), false).map(text);
    assert_eq!(stem("x/app.release.apk").as_deref(), Some("app.release"));
    assert_eq!(stem(".hidden").as_deref(), Some(".hidden"));
    let ext = |s: &str| extension(&chars(s), false).map(text);
    assert_eq!(ext("a.APK").as_deref(), Some("APK"));
    assert_eq!(ext(".hidden"), None);
    assert_eq!(ext("noext"), None);
    assert!(is_supported_input_path("x/y.Apk", false));
    assert!(is_supported_input_path("y.aab", false));
    assert!(!is_supported_input_path("y.zip", false));
}

#[test]
fn file_names_are_sanitized() {
    assert_eq!(sanitize_filename("my app!"), "my_app_");
    assert_eq!(sanitize_filename(""), "app");
    assert_eq!(sanitize_filename("ok-_1"), "ok-_1");
}

#[test]
fn percent_decoding() {
    assert_eq!(percent_decode("a%20b"), "a b");
    assert_eq!(percent_decode("%41%42"), "AB");
    assert_eq!(percent_decode("%zz1"), "%zz1");
    assert_eq!(percent_decode("%+a1"), "\n1");
    assert_eq!(percent_decode("x%41"), "xA");
    assert_eq!(percent_decode("%4"), "%4");
    assert_eq!(percent_decode("100%"), "100%");
    assert_eq!(percent_decode("%c3%a9x"), "éx");
}

#[test]
fn file_urls_round_trip() {
    let url = file_url_from_path(r"C:\Temp\icons\a.png");
    assert_eq!(url, "file:///C:/Temp/icons/a.png");
    assert!(file_url_decodable(&url));
    assert_eq!(file_url_to_path(&url, true).as_deref(), Some(r"C:\Temp\icons\a.png"));
    let unix = file_url_from_path("/tmp/icons/a b.png");
    assert_eq!(unix, "file:////tmp/icons/a b.png");
    assert_eq!(file_url_to_path(&unix, false).as_deref(), Some("//tmp/icons/a b.png"));
    assert_eq!(file_url_to_path("http://x", false), None);
    assert!(file_url_decodable("not a url"));
}

#[test]
fn icon_candidates_from_manifest() {
    let entries = texts(&[
        "res/mipmap-hdpi/ic_launcher.png",
        "res/mipmap-xxxhdpi/ic_launcher.webp",
        "res/mipmap/ic_launcher.png",
    ]);
    let out: Vec<String> = from_manifest_icon(&chars("@android:mipmap/ic_launcher"), &entries)
        .into_iter()
        .map(text)
        .collect();
    assert_eq!(
        out,
        vec![
            "res/mipmap-xxxhdpi/ic_launcher.webp",
            "res/mipmap-hdpi/ic_launcher.png",
            "res/mipmap/ic_launcher.png",
        ]
    );
    assert!(from_manifest_icon(&chars("@a/b/c"), &entries).is_empty());
    let direct: Vec<String> = from_manifest_icon(&chars("res/x.png"), &entries)
        .into_iter()
        .map(text)
        .collect();
    assert_eq!(direct, vec!["res/x.png"]);
}

#[test]
fn fallback_icons_are_sorted() {
    let entries = texts(&[
        "res/mipmap-xxhdpi/icon.png",
        "res/drawable/app_icon.webp",
        "res/drawable-mdpi/other.png",
    ]);
    let out: Vec<String> = fallback_icon_candidates(&entries).into_iter().map(text).collect();
    assert_eq!(out, vec!["res/drawable/app_icon.webp", "res/mipmap-xxhdpi/icon.png"]);
    let loose = texts(&["res/mipmap-b/z.png", "res/drawable-a/y.webp", "res/raw/x.png", "res/mipmap-b/z.png"]);
    let out: Vec<String> = fallback_icon_candidates(&loose).into_iter().map(text).collect();
    assert_eq!(out, vec!["res/drawable-a/y.webp", "res/mipmap-b/z.png"]);
}

#[test]
fn icon_file_names() {
    let name = icon_file_name(&chars("/x/My App.apk"), "res/mipmap/ic.webp", false);
    let hex: String = sha2::Sha256::digest(b"res/mipmap/ic.webp")
        .iter()
        .map(|b| format!("{b:02x}"))
        .collect();
    assert_eq!(name, format!("My_App-{}.webp", &hex[..12]));
    assert!(icon_file_name(&chars(""), "res/icon", false).starts_with("app-"));
    assert!(icon_file_name(&chars(""), "res/icon", false).ends_with(".png"));
}

#[test]
fn base64_and_data_urls() {
    assert_eq!(icon_data_url("x.png", b""), "data:image/png;base64,");
    assert_eq!(icon_data_url("x.png", b"f"), "data:image/png;base64,Zg==");
    assert_eq!(icon_data_url("x.png", b"fo"), "data:image/png;base64,Zm8=");
    assert_eq!(icon_data_url("x.png", b"foobar"), "data:image/png;base64,Zm9vYmFy");
    assert_eq!(icon_data_url("A.WEBP", b"hi"), "data:image/webp;base64,aGk=");
    assert_eq!(icon_data_url("a.png", b"hi"), "data:image/png;base64,aGk=");
}

#[test]
fn export_names() {
    assert_eq!(export_icon_name("/tmp/i/x.webp", "/a/my app.apk", false), "my_app-icon.webp");
    assert_eq!(export_icon_name("/tmp/i/x", "", false), "app-icon.png");
}

#[test]
fn inputs_are_selected_once() {
    let cands = vec!["a.apk".to_string(), "b.txt".to_string(), "A.APK".to_string(), "c.aab".to_string()];
    let keys: Vec<String> = cands.iter().map(|c| ascii_key(c)).collect();
    assert_eq!(keys[2], "a.apk");
    assert_eq!(select_inputs(&cands, &keys, false), vec!["a.apk", "c.aab"]);
}

#[test]
fn progress_lines() {
    assert_eq!(progress_start_message(1, 2, "/x/a.apk", false), "Parsing [1/2] a.apk (APK)... ");
    assert_eq!(
        progress_start_message(2, 2, "/x/b.aab", false),
        "Parsing [2/2] b.aab (AAB)... converting with bundletool, this may take a while... "
    );
    assert_eq!(progress_done_message(true), "ok");
    assert_eq!(progress_done_message(false), "failed");
}

#[test]
fn doctor_report_exposes_readiness_flags() {
    let report = build_doctor_report(Some("/w".to_string()), None, None, None, None, None);
    assert!(report.ok);
    assert!(report.apk_ready);
    if !report.aab_ready {
        assert!(!report.warnings.is_empty());
    }
    assert_eq!(
        report.warnings,
        vec![
            "AAPT_NOT_FOUND_RUST_FALLBACK_AVAILABLE",
            "BUNDLETOOL_NOT_FOUND_AAB_UNAVAILABLE",
            "JAVA_NOT_FOUND_AAB_UNAVAILABLE"
        ]
    );
    let ready = build_doctor_report(None, None, Some("a".into()), Some("b".into()), Some("j".into()), None);
    assert!(ready.aab_ready);
    assert!(ready.warnings.is_empty());
    assert_eq!(ready.cwd, "unknown");
    assert_eq!(aapt_file_name(true), "aapt.exe");
    assert_eq!(aapt_file_name(false), "aapt");
}

#[test]
fn error_codes_and_messages() {
    assert_eq!(BackendError::InputNotApk.code(), "INPUT_NOT_APK");
    assert_eq!(BackendError::ParseLimitExceeded.code(), "PARSE_LIMIT_EXCEEDED");
    assert_eq!(
        BackendError::ManifestNotFound.message(),
        "MANIFEST_NOT_FOUND: AndroidManifest.xml is missing"
    );
}

#[test]
fn cli_decisions() {
    assert!(use_compact_json(true, false));
    assert!(!use_compact_json(true, true));
    assert_eq!(parse_exit_code(&vec![true, true]), 0);
    assert_eq!(parse_exit_code(&vec![true, false]), 2);
    assert_eq!(parse_exit_code(&vec![]), 0);
}

#[test]
fn warnings_are_added_once() {
    let mut w = Vec::new();
    push_warning(&mut w, "A");
    push_warning(&mut w, "B");
    push_warning(&mut w, "A");
    assert_eq!(w, vec!["A", "B"]);
}

#[test]
fn text_helpers() {
    assert_eq!(text(decimal_i64(0)), "0");
    assert_eq!(text(decimal_i64(-120)), "-120");
    assert_eq!(text(replace_chars(&chars("abc"), &chars(""), &chars("-"))), "-a-b-c-");
    assert_eq!(text(replace_chars(&chars("aaa"), &chars("aa"), &chars("b"))), "ba");
}

#[test]
fn fallback_icons_are_loose_entries_or_none() {
    let none = texts(&["res/raw/x.png", "res/mipmap/x.jpg", "assets/icon.png"]);
    assert!(fallback_icon_candidates(&none).is_empty());
    let some = texts(&["res/raw/x.png", "res/drawable-xhdpi/logo.png"]);
    let out: Vec<String> = fallback_icon_candidates(&some).into_iter().map(text).collect();
    assert_eq!(out, vec!["res/drawable-xhdpi/logo.png"]);
}

#[test]
fn inputs_keep_their_order() {
    let cands: Vec<String> = ["z.apk", "b.aab", "Z.apk", "a.apk", "b.AAB"].iter().map(|s| s.to_string()).collect();
    let keys: Vec<String> = cands.iter().map(|c| ascii_key(c)).collect();
    assert_eq!(select_inputs(&cands, &keys, false), vec!["z.apk", "b.aab", "a.apk"]);
}
