use apk_info::axml::{le_u16, le_u32, typed_value_to_string};
use apk_info::error::BackendError;
use apk_info::manifest::{parse_i32, parse_i64, strip_namespace};
use apk_info::manifest_reader::parse_manifest;
use apk_info::resources::{extract_string_key, find_string_in_xml};

fn chars(s: &str) -> Vec<char> {
    s.chars().collect()
}

fn text(v: Vec<char>) -> String {
    v.into_iter().collect()
}

fn u16le(v: u16) -> [u8; 2] {
    v.to_le_bytes()
}

fn u32le(v: u32) -> [u8; 4] {
    v.to_le_bytes()
}

fn string_pool(strings: &[&str]) -> Vec<u8> {
    let header = 28u32;
    let offsets_len = 4 * strings.len() as u32;
    let mut data = Vec::new();
    let mut offsets = Vec::new();
    for s in strings {
        offsets.push(data.len() as u32);
        let units: Vec<u16> = s.encode_utf16().collect();
        data.extend_from_slice(&u16le(units.len() as u16));
        for u in units {
            data.extend_from_slice(&u16le(u));
        }
        data.extend_from_slice(&u16le(0));
    }
    let strings_start = header + offsets_len;
    let size = strings_start + data.len() as u32;
    let mut c = Vec::new();
    c.extend_from_slice(&u16le(1));
    c.extend_from_slice(&u16le(28));
    c.extend_from_slice(&u32le(size));
    c.extend_from_slice(&u32le(strings.len() as u32));
    c.extend_from_slice(&u32le(0));
    c.extend_from_slice(&u32le(0));
    c.extend_from_slice(&u32le(strings_start));
    c.extend_from_slice(&u32le(0));
    for o in offsets {
        c.extend_from_slice(&u32le(o));
    }
    c.extend_from_slice(&data);
    c
}

/// attrs: (name index, raw value index or u32::MAX, type, data)
fn start_element(name: u32, attrs: &[(u32, u32, u8, u32)]) -> Vec<u8> {
    let size = 36 + 20 * attrs.len() as u32;
    let mut c = Vec::new();
    c.extend_from_slice(&u16le(0x0102));
    c.extend_from_slice(&u16le(16));
    c.extend_from_slice(&u32le(size));
    c.extend_from_slice(&u32le(1));
    c.extend_from_slice(&u32le(u32::MAX));
    c.extend_from_slice(&u32le(u32::MAX));
    c.extend_from_slice(&u32le(name));
    c.extend_from_slice(&u16le(20));
    c.extend_from_slice(&u16le(20));
    c.extend_from_slice(&u16le(attrs.len() as u16));
    c.extend_from_slice(&[0u8; 6]);
    for (n, raw, t, d) in attrs {
        c.extend_from_slice(&u32le(u32::MAX));
        c.extend_from_slice(&u32le(*n));
        c.extend_from_slice(&u32le(*raw));
        c.extend_from_slice(&u16le(8));
        c.push(0);
        c.push(*t);
        c.extend_from_slice(&u32le(*d));
    }
    c
}

fn document(chunks: Vec<Vec<u8>>) -> Vec<u8> {
    let body: Vec<u8> = chunks.concat();
    let mut d = Vec::new();
    d.extend_from_slice(&u16le(3));
    d.extend_from_slice(&u16le(8));
    d.extend_from_slice(&u32le(8 + body.len() as u32));
    d.extend_from_slice(&body);
    d
}

const STRINGS: [&str; 7] = [
    "manifest",
    "package",
    "com.bin.app",
    "uses-sdk",
    "minSdkVersion",
    "targetSdkVersion",
    "versionName",
];

#[test]
fn binary_manifest_is_read() {
    let doc = document(vec![
        string_pool(&STRINGS),
        start_element(0, &[(1, 2, 3, 2), (6, u32::MAX, 0x10, 0xffff_fffe)]),
        start_element(3, &[(4, u32::MAX, 0x10, 21), (5, u32::MAX, 0x11, 0x22)]),
    ]);
    let mut warnings = Vec::new();
    let info = parse_manifest(&doc, &mut warnings).ok().unwrap();
    assert_eq!(info.package_name.as_deref(), Some("com.bin.app"));
    assert_eq!(info.version_name.as_deref(), Some("-2"));
    assert_eq!(info.min_sdk_version, Some(21));
    assert_eq!(info.target_sdk_version, Some(34));
    assert!(warnings.is_empty());
}

#[test]
fn partial_binary_manifest_warns_once() {
    let doc = document(vec![string_pool(&STRINGS), start_element(0, &[(1, 2, 3, 2)])]);
    let mut warnings = vec!["MANIFEST_BINARY_PARTIAL".to_string()];
    let info = parse_manifest(&doc, &mut warnings).ok().unwrap();
    assert_eq!(info.package_name.as_deref(), Some("com.bin.app"));
    assert_eq!(info.min_sdk_version, None);
    assert_eq!(warnings, vec!["MANIFEST_BINARY_PARTIAL"]);
    let mut fresh = Vec::new();
    parse_manifest(&doc, &mut fresh).ok().unwrap();
    assert_eq!(fresh, vec!["MANIFEST_BINARY_PARTIAL"]);
}

#[test]
fn malformed_binary_manifests_fail() {
    let mut w = Vec::new();
    let short = parse_manifest(&[3, 0, 8], &mut w);
    assert!(matches!(short, Err(BackendError::ManifestParseFailed)));
    let wrong_type = parse_manifest(&[2, 0, 8, 0, 8, 0, 0, 0], &mut w);
    assert!(matches!(wrong_type, Err(BackendError::ManifestParseFailed)));
    let too_long = parse_manifest(&[3, 0, 8, 0, 99, 0, 0, 0], &mut w);
    assert!(matches!(too_long, Err(BackendError::ManifestParseFailed)));
    let mut bad_chunk = document(vec![string_pool(&STRINGS)]);
    bad_chunk[12] = 0;
    bad_chunk[13] = 0;
    bad_chunk[14] = 0;
    bad_chunk[15] = 0;
    assert!(matches!(parse_manifest(&bad_chunk, &mut w), Err(BackendError::ManifestParseFailed)));
    assert!(w.is_empty());
}

#[test]
fn utf8_string_pool_is_read() {
    let mut pool = Vec::new();
    let s = "manifest";
    let strings_start = 28 + 4;
    let mut data = vec![s.len() as u8, s.len() as u8];
    data.extend_from_slice(s.as_bytes());
    data.push(0);
    let size = strings_start + data.len() as u32;
    pool.extend_from_slice(&u16le(1));
    pool.extend_from_slice(&u16le(28));
    pool.extend_from_slice(&u32le(size));
    pool.extend_from_slice(&u32le(1));
    pool.extend_from_slice(&u32le(0));
    pool.extend_from_slice(&u32le(0x100));
    pool.extend_from_slice(&u32le(strings_start));
    pool.extend_from_slice(&u32le(0));
    pool.extend_from_slice(&u32le(0));
    pool.extend_from_slice(&data);
    let doc = document(vec![pool, start_element(0, &[])]);
    let mut w = Vec::new();
    let info = parse_manifest(&doc, &mut w).ok().unwrap();
    assert!(info.package_name.is_none());
    assert_eq!(w, vec!["MANIFEST_BINARY_PARTIAL"]);
}

#[test]
fn typed_values_are_rendered() {
    let strings = vec!["zero".to_string()];
    assert_eq!(text(typed_value_to_string(&strings, 0x03, 0)), "zero");
    assert_eq!(text(typed_value_to_string(&strings, 0x03, 5)), "");
    assert_eq!(text(typed_value_to_string(&strings, 0x10, 0xffff_ffff)), "-1");
    assert_eq!(text(typed_value_to_string(&strings, 0x11, 0xab)), "0x000000ab");
    assert_eq!(text(typed_value_to_string(&strings, 0x12, 0)), "false");
    assert_eq!(text(typed_value_to_string(&strings, 0x12, 7)), "true");
    assert_eq!(text(typed_value_to_string(&strings, 0x01, 0x7f01_0000)), "@0x7f010000");
    assert_eq!(text(typed_value_to_string(&strings, 0x05, 1)), "0x00000001");
}

#[test]
fn little_endian_reads() {
    let b = [0x34, 0x12, 0x78, 0x56];
    assert_eq!(le_u16(&b, 0).ok(), Some(0x1234));
    assert_eq!(le_u32(&b, 0).ok(), Some(0x5678_1234));
    assert!(le_u16(&b, 3).is_err());
    assert!(le_u32(&b, 1).is_err());
}

#[test]
fn manifest_integers() {
    assert_eq!(parse_i32(&chars("21")), Some(21));
    assert_eq!(parse_i32(&chars("+7")), Some(7));
    assert_eq!(parse_i32(&chars("-2147483648")), Some(i32::MIN));
    assert_eq!(parse_i32(&chars("2147483648")), None);
    assert_eq!(parse_i32(&chars("0x1F")), Some(31));
    assert_eq!(parse_i32(&chars("0xffffffff")), None);
    assert_eq!(parse_i64(&chars("0xffffffff")), Some(4294967295));
    assert_eq!(parse_i32(&chars("")), None);
    assert_eq!(parse_i32(&chars("-")), None);
    assert_eq!(parse_i32(&chars("1 ")), None);
    assert_eq!(parse_i64(&chars("99999999999999999999999")), None);
}

#[test]
fn namespaces_are_stripped() {
    assert_eq!(text(strip_namespace(&chars("android:name"))), "name");
    assert_eq!(text(strip_namespace(&chars("a:b:c"))), "c");
    assert_eq!(text(strip_namespace(&chars("plain"))), "plain");
}

#[test]
fn string_keys() {
    let key = |s: &str| extract_string_key(&chars(s)).map(text);
    assert_eq!(key("@string/app_name").as_deref(), Some("app_name"));
    assert_eq!(key("@com.demo:string/app_name").as_deref(), Some("app_name"));
    assert_eq!(key("@a:string/x:string/y").as_deref(), Some("y"));
    assert_eq!(key("@android:drawable/x"), None);
    assert_eq!(key("plain"), None);
}

#[test]
fn strings_xml_lookup() {
    let xml = br#"<resources><string name="a">A</string><string name="b">B &amp; C</string><string name="c"/></resources>"#;
    assert_eq!(find_string_in_xml(xml, &chars("a")).as_deref(), Some("A"));
    assert_eq!(find_string_in_xml(xml, &chars("b")).as_deref(), Some("B &amp; C"));
    assert_eq!(find_string_in_xml(xml, &chars("z")), None);
}

#[test]
fn text_manifest_keeps_last_attribute_and_meta_data() {
    let xml = br#"<manifest package="one"><uses-sdk android:minSdkVersion="9" minSdkVersion="10"/></manifest>"#;
    let mut w = Vec::new();
    let info = parse_manifest(xml, &mut w).ok().unwrap();
    assert_eq!(info.package_name.as_deref(), Some("one"));
    assert_eq!(info.min_sdk_version, Some(10));
    assert!(w.is_empty());
}
