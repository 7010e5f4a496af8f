# apk_info

A verified APK metadata reader: given the bytes of an APK, it reports the package name,
application name, versions, SDK levels, permissions, ABIs, distribution channel, launcher
icon and v1 signers in one JSON-shaped envelope, with warning codes for what could not be
determined and error codes for inputs that cannot be parsed.

## Layout

- `src/` — the library, verified with Verus.
  - `parser.rs` — the pipeline: `plan_input` (read an APK, or convert an app bundle with
    bundletool when it and Java are present), `parse_apk_begin`, then `parse_apk_finish`
    once the caller has written the chosen icon to disk; and the data mapping.
  - `manifest.rs`, `manifest_reader.rs`, `axml.rs`, `xml.rs` — text and binary
    `AndroidManifest.xml`.
  - `resources.rs`, `channel.rs`, `icons.rs`, `signing.rs` — application label, channel,
    icon candidates, signers and ABIs.
  - `archive.rs`, `unicode.rs`, `digest.rs`, `datauri.rs` — the calls into `zip`,
    `quick-xml`, `sha2`, `base64` and std's text functions, each behind a small trusted
    wrapper whose contract names or states its result.
  - `render.rs`, `collect.rs`, `cli.rs`, `doctor.rs`, `paths.rs` — the command line's
    decisions: text output and templates, input selection, exit codes, the `doctor` report,
    paths (read as std reads them on Windows or elsewhere, chosen by a flag) and `file:///`
    URLs.
  - `laws.rs` — properties that span functions (warnings never repeat, ABIs are sorted,
    icon URLs round-trip, ...).
- `tests/` — tests run against the compiled library.
- `app/` — the `apkinfoquick` command line: argument parsing with clap, the file system,
  running bundletool on app bundles,
  JSON output with serde, and the desktop shell's command bodies.
