//! The command line: what a run was asked to do, and how it ends.
use vstd::prelude::*;

verus! {

/// The parsed command line.
pub struct CliArgs {
    pub command: Commands,
}

/// The subcommands.
pub enum Commands {
    /// Parse APK/AAB files and print JSON or text.
    Parse {
        /// APK/AAB file paths, or directories when `recursive` is set.
        inputs: Vec<String>,
        /// Scan directories recursively for .apk/.aab files.
        recursive: bool,
        /// Print a text summary instead of JSON.
        text: bool,
        /// Print pretty JSON (the default).
        pretty: bool,
        /// Print compact single-line JSON.
        compact: bool,
        /// Do not report progress.
        quiet: bool,
        /// Write the output to this file instead of standard output.
        out: Option<String>,
        /// Export resolved icons to this directory.
        export_icon: Option<String>,
        /// Render text output through this template file.
        template: Option<String>,
    },
    /// Check the runtime and the bundled Android tools.
    Doctor {
        /// Print compact single-line JSON.
        compact: bool,
    },
}

/// JSON is compact only when asked for and pretty output was not.
pub fn use_compact_json(compact: bool, pretty: bool) -> (r: bool)
    ensures
        r == (compact && !pretty),
{
    compact && !pretty
}

/// The exit code of a parse run: 2 when any file failed, else 0.
pub fn parse_exit_code(successes: &Vec<bool>) -> (code: i32)
    ensures
        code == (if exists|i: int| 0 <= i < successes@.len() && !#[trigger] successes@[i] {
            2i32
        } else {
            0i32
        }),
{
    let mut i: usize = 0;
    while i < successes.len()
        invariant
            i <= successes.len(),
            forall|j: int| 0 <= j < i ==> #[trigger] successes@[j],
        decreases successes.len() - i,
    {
        if !successes[i] {
            return 2;
        }
        i += 1;
    }
    0
}

} // verus!
