//! The `doctor` report: which tools were found and what can be parsed with them.
use vstd::prelude::*;
use crate::text::string_from;
use crate::warnings::texts;

verus! {

/// What the runtime check found.
pub struct DoctorReport {
    pub ok: bool,
    pub apk_ready: bool,
    pub aab_ready: bool,
    pub cwd: String,
    pub exe: Option<String>,
    pub aapt: Option<String>,
    pub bundletool: Option<String>,
    pub java: Option<String>,
    pub tools_dir: Option<String>,
    pub warnings: Vec<String>,
}

/// The warnings for the missing tools, in a fixed order.
pub open spec fn doctor_warnings_spec(aapt: bool, bundletool: bool, java: bool) -> Seq<Seq<char>> {
    let w1: Seq<Seq<char>> = if aapt {
        Seq::empty()
    } else {
        seq!["AAPT_NOT_FOUND_RUST_FALLBACK_AVAILABLE"@]
    };
    let w2 = if bundletool {
        w1
    } else {
        w1.push("BUNDLETOOL_NOT_FOUND_AAB_UNAVAILABLE"@)
    };
    if java {
        w2
    } else {
        w2.push("JAVA_NOT_FOUND_AAB_UNAVAILABLE"@)
    }
}

/// The report from what was found: APKs can always be parsed (the built-in parser needs no
/// tool), AABs need both bundletool and Java.
pub fn build_doctor_report(
    cwd: Option<String>,
    exe: Option<String>,
    aapt: Option<String>,
    bundletool: Option<String>,
    java: Option<String>,
    tools_dir: Option<String>,
) -> (r: DoctorReport)
    ensures
        r.ok,
        r.apk_ready,
        r.aab_ready == (bundletool is Some && java is Some),
        r.cwd@ == match cwd {
            Some(c) => c@,
            None => "unknown"@,
        },
        r.exe == exe,
        r.aapt == aapt,
        r.bundletool == bundletool,
        r.java == java,
        r.tools_dir == tools_dir,
        texts(r.warnings@) == doctor_warnings_spec(aapt is Some, bundletool is Some, java is Some),
{
    let aab_ready = bundletool.is_some() && java.is_some();
    let mut warnings: Vec<String> = Vec::new();
    if aapt.is_none() {
        warnings.push(string_from("AAPT_NOT_FOUND_RUST_FALLBACK_AVAILABLE"));
    }
    if bundletool.is_none() {
        warnings.push(string_from("BUNDLETOOL_NOT_FOUND_AAB_UNAVAILABLE"));
    }
    if java.is_none() {
        warnings.push(string_from("JAVA_NOT_FOUND_AAB_UNAVAILABLE"));
    }
    assert(texts(warnings@) =~= doctor_warnings_spec(aapt is Some, bundletool is Some, java is Some));
    DoctorReport {
        ok: true,
        apk_ready: true,
        aab_ready,
        cwd: match cwd {
            Some(c) => c,
            None => string_from("unknown"),
        },
        exe,
        aapt,
        bundletool,
        java,
        tools_dir,
        warnings,
    }
}

/// The file name of the `aapt` tool on the platform.
pub fn aapt_file_name(windows: bool) -> (r: &'static str)
    ensures
        r@ == (if windows {
            "aapt.exe"@
        } else {
            "aapt"@
        }),
{
    if windows {
        "aapt.exe"
    } else {
        "aapt"
    }
}

/// The file name of the `java` launcher on the platform.
pub fn java_file_name(windows: bool) -> (r: &'static str)
    ensures
        r@ == (if windows {
            "java.exe"@
        } else {
            "java"@
        }),
{
    if windows {
        "java.exe"
    } else {
        "java"
    }
}

} // verus!
