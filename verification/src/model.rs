//! The result contract shared by every front end: an envelope around the data.
use vstd::prelude::*;
use crate::text::string_from;

verus! {

/// The outcome of parsing one APK.
pub struct ApkInfoEnvelope {
    pub success: bool,
    pub data: ApkInfoData,
    pub error_code: Option<String>,
    pub error_message: Option<String>,
    pub warnings: Vec<String>,
}

/// What was learned about an APK.
pub struct ApkInfoData {
    pub package_name: String,
    pub app_name: String,
    pub icon_url: String,
    pub min_sdk_version: i32,
    pub target_sdk_version: i32,
    pub compile_sdk_version: Option<i32>,
    pub version_code: i64,
    pub version_name: Option<String>,
    pub permissions: Vec<String>,
    pub signers: Vec<SignerInfo>,
    pub abis: Vec<String>,
    pub channel: String,
}

/// One signing certificate found in the APK.
pub struct SignerInfo {
    pub scheme: String,
    pub cert_sha256: String,
    pub issuer: String,
    pub subject: String,
    pub valid_from: String,
    pub valid_to: String,
}

/// The data reported when nothing could be learned.
pub open spec fn is_placeholder(d: ApkInfoData) -> bool {
    &&& d.package_name@ == "unknown"@
    &&& d.app_name@ == "Unknown"@
    &&& d.icon_url@ == Seq::<char>::empty()
    &&& d.min_sdk_version == 1
    &&& d.target_sdk_version == 1
    &&& d.compile_sdk_version is None
    &&& d.version_code == 1
    &&& d.version_name is None
    &&& d.permissions@.len() == 0
    &&& d.signers@.len() == 0
    &&& d.abis@.len() == 0
    &&& d.channel@ == "unknown"@
}

impl ApkInfoData {
    /// Data with every field at its documented default.
    pub fn placeholder() -> (d: Self)
        ensures
            is_placeholder(d),
    {
        ApkInfoData {
            package_name: string_from("unknown"),
            app_name: string_from("Unknown"),
            icon_url: String::new(),
            min_sdk_version: 1,
            target_sdk_version: 1,
            compile_sdk_version: None,
            version_code: 1,
            version_name: None,
            permissions: Vec::new(),
            signers: Vec::new(),
            abis: Vec::new(),
            channel: string_from("unknown"),
        }
    }
}

impl ApkInfoEnvelope {
    /// A successful envelope around the data.
    pub fn ok(data: ApkInfoData, warnings: Vec<String>) -> (e: Self)
        ensures
            e.success,
            e.data == data,
            e.error_code is None,
            e.error_message is None,
            e.warnings == warnings,
    {
        ApkInfoEnvelope { success: true, data, error_code: None, error_message: None, warnings }
    }

    /// A failed envelope carrying an error code and message.
    pub fn err(code: &str, message: String, data: ApkInfoData, warnings: Vec<String>) -> (e: Self)
        ensures
            !e.success,
            e.data == data,
            e.error_code matches Some(c) && c@ == code@,
            e.error_message == Some(message),
            e.warnings == warnings,
    {
        ApkInfoEnvelope {
            success: false,
            data,
            error_code: Some(string_from(code)),
            error_message: Some(message),
            warnings,
        }
    }
}

} // verus!
