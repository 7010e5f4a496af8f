//! The failures that stop an APK from being parsed.
use vstd::prelude::*;

verus! {

/// Why parsing an APK (or an app bundle converted to one) stopped.
#[derive(Clone, Copy, Debug, PartialEq, Eq, Structural)]
pub enum BackendError {
    InputNotFound,
    InputNotApk,
    InputNotFile,
    ApkOpenFailed,
    ApkEntryReadFailed,
    ManifestNotFound,
    ManifestParseFailed,
    ParseLimitExceeded,
    BundletoolNotFound,
    JavaNotFound,
    AabConvertFailed,
}

/// The stable machine-readable code of an error.
pub open spec fn error_code(e: BackendError) -> Seq<char> {
    match e {
        BackendError::InputNotFound => "INPUT_NOT_FOUND"@,
        BackendError::InputNotApk => "INPUT_NOT_APK"@,
        BackendError::InputNotFile => "INPUT_NOT_FILE"@,
        BackendError::ApkOpenFailed => "APK_OPEN_FAILED"@,
        BackendError::ApkEntryReadFailed => "APK_ENTRY_READ_FAILED"@,
        BackendError::ManifestNotFound => "MANIFEST_NOT_FOUND"@,
        BackendError::ManifestParseFailed => "MANIFEST_PARSE_FAILED"@,
        BackendError::ParseLimitExceeded => "PARSE_LIMIT_EXCEEDED"@,
        BackendError::BundletoolNotFound => "BUNDLETOOL_NOT_FOUND_AAB_UNAVAILABLE"@,
        BackendError::JavaNotFound => "JAVA_NOT_FOUND_AAB_UNAVAILABLE"@,
        BackendError::AabConvertFailed => "AAB_CONVERT_FAILED"@,
    }
}

/// The human-readable message of an error (its display text).
pub open spec fn error_message(e: BackendError) -> Seq<char> {
    match e {
        BackendError::InputNotFound => "INPUT_NOT_FOUND: file does not exist"@,
        BackendError::InputNotApk => "INPUT_NOT_APK: file extension must be .apk for v1.0"@,
        BackendError::InputNotFile => "INPUT_NOT_FILE: path is not a regular file"@,
        BackendError::ApkOpenFailed => "APK_OPEN_FAILED: unable to open apk archive"@,
        BackendError::ApkEntryReadFailed => "APK_ENTRY_READ_FAILED: unable to read apk entry"@,
        BackendError::ManifestNotFound => "MANIFEST_NOT_FOUND: AndroidManifest.xml is missing"@,
        BackendError::ManifestParseFailed => "MANIFEST_PARSE_FAILED: unable to parse AndroidManifest.xml"@,
        BackendError::ParseLimitExceeded => "PARSE_LIMIT_EXCEEDED: parser limit exceeded"@,
        BackendError::BundletoolNotFound => "BUNDLETOOL_NOT_FOUND_AAB_UNAVAILABLE: bundletool.jar was not found, so app bundles cannot be parsed"@,
        BackendError::JavaNotFound => "JAVA_NOT_FOUND_AAB_UNAVAILABLE: Java was not found, so bundletool cannot run"@,
        BackendError::AabConvertFailed => "AAB_CONVERT_FAILED: bundletool did not produce a universal APK"@,
    }
}

impl BackendError {
    /// The stable code of this error, such as `INPUT_NOT_APK`.
    pub fn code(&self) -> (r: &'static str)
        ensures
            r@ == error_code(*self),
    {
        match self {
            BackendError::InputNotFound => "INPUT_NOT_FOUND",
            BackendError::InputNotApk => "INPUT_NOT_APK",
            BackendError::InputNotFile => "INPUT_NOT_FILE",
            BackendError::ApkOpenFailed => "APK_OPEN_FAILED",
            BackendError::ApkEntryReadFailed => "APK_ENTRY_READ_FAILED",
            BackendError::ManifestNotFound => "MANIFEST_NOT_FOUND",
            BackendError::ManifestParseFailed => "MANIFEST_PARSE_FAILED",
            BackendError::ParseLimitExceeded => "PARSE_LIMIT_EXCEEDED",
            BackendError::BundletoolNotFound => "BUNDLETOOL_NOT_FOUND_AAB_UNAVAILABLE",
            BackendError::JavaNotFound => "JAVA_NOT_FOUND_AAB_UNAVAILABLE",
            BackendError::AabConvertFailed => "AAB_CONVERT_FAILED",
        }
    }

    /// The display text of this error: its code, a colon and a description.
    pub fn message(&self) -> (r: &'static str)
        ensures
            r@ == error_message(*self),
    {
        match self {
            BackendError::InputNotFound => "INPUT_NOT_FOUND: file does not exist",
            BackendError::InputNotApk => "INPUT_NOT_APK: file extension must be .apk for v1.0",
            BackendError::InputNotFile => "INPUT_NOT_FILE: path is not a regular file",
            BackendError::ApkOpenFailed => "APK_OPEN_FAILED: unable to open apk archive",
            BackendError::ApkEntryReadFailed => "APK_ENTRY_READ_FAILED: unable to read apk entry",
            BackendError::ManifestNotFound => "MANIFEST_NOT_FOUND: AndroidManifest.xml is missing",
            BackendError::ManifestParseFailed => "MANIFEST_PARSE_FAILED: unable to parse AndroidManifest.xml",
            BackendError::ParseLimitExceeded => "PARSE_LIMIT_EXCEEDED: parser limit exceeded",
            BackendError::BundletoolNotFound => "BUNDLETOOL_NOT_FOUND_AAB_UNAVAILABLE: bundletool.jar was not found, so app bundles cannot be parsed",
            BackendError::JavaNotFound => "JAVA_NOT_FOUND_AAB_UNAVAILABLE: Java was not found, so bundletool cannot run",
            BackendError::AabConvertFailed => "AAB_CONVERT_FAILED: bundletool did not produce a universal APK",
        }
    }
}

} // verus!
