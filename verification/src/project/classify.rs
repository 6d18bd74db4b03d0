//! What a source file is: a test, production code, both, or unknown; and
//! the order in which a file's kind is looked for: its extension, then its
//! project's manifest, then its content.
use crate::path_names::{path_extension, path_extension_of};
use crate::test_model::opt_seq;
use crate::text::str_eq;
use vstd::prelude::*;

verus! {

/// The kind of a source file.
#[derive(Debug, Clone, Copy, PartialEq, Eq, Structural)]
pub enum FileKind {
    Test,
    Production,
    Mixed,
    Unknown,
}

/// The kind of a Rust file from what it holds: test functions and a
/// `cfg(test)` module make it mixed, test functions alone a test, anything
/// else production code.
pub open spec fn kind_by_markers_spec(has_test_attr: bool, has_cfg_test: bool) -> FileKind {
    if has_test_attr && has_cfg_test {
        FileKind::Mixed
    } else if has_test_attr {
        FileKind::Test
    } else {
        FileKind::Production
    }
}

/// The kind of a Rust file from its test markers.
pub fn classify_by_markers(has_test_attr: bool, has_cfg_test: bool) -> (res: FileKind)
    ensures
        res == kind_by_markers_spec(has_test_attr, has_cfg_test),
{
    match (has_test_attr, has_cfg_test) {
        (true, true) => FileKind::Mixed,
        (true, false) => FileKind::Test,
        (false, true) => FileKind::Production,
        (false, false) => FileKind::Production,
    }
}

/// The languages whose files are classified.
pub enum DependencyLanguage {
    Rust,
    TsJs,
}

/// The extensions of JavaScript and TypeScript sources.
pub open spec fn is_ts_js_ext(e: Seq<char>) -> bool {
    e == "ts"@ || e == "tsx"@ || e == "js"@ || e == "jsx"@ || e == "mjs"@ || e == "cjs"@ || e == "mts"@ || e
        == "cts"@
}

/// What classifying a file asks for next: nothing (its kind is known), the
/// kind its project's manifest gives it, or the kind its content shows.
pub enum ClassifyStep {
    Known(FileKind),
    AskManifest,
    ReadContent,
}

/// A file of another language than the one asked for is of unknown kind;
/// else its manifest is asked first.
pub fn classify_start(language: DependencyLanguage, abs_path: &str) -> (res: ClassifyStep)
    ensures
        match language {
            DependencyLanguage::Rust => if path_extension_of(abs_path@) == Some("rs"@) {
                res is AskManifest
            } else {
                res == ClassifyStep::Known(FileKind::Unknown)
            },
            DependencyLanguage::TsJs => if (path_extension_of(abs_path@) matches Some(e) && is_ts_js_ext(e)) {
                res is AskManifest
            } else {
                res == ClassifyStep::Known(FileKind::Unknown)
            },
        },
{
    let ext = path_extension(abs_path);
    let ok = match &ext {
        Some(e) => match language {
            DependencyLanguage::Rust => str_eq(e.as_str(), "rs"),
            DependencyLanguage::TsJs => {
                let s = e.as_str();
                str_eq(s, "ts") || str_eq(s, "tsx") || str_eq(s, "js") || str_eq(s, "jsx") || str_eq(s, "mjs")
                    || str_eq(s, "cjs") || str_eq(s, "mts") || str_eq(s, "cts")
            },
        },
        None => false,
    };
    if ok {
        ClassifyStep::AskManifest
    } else {
        ClassifyStep::Known(FileKind::Unknown)
    }
}

/// The kind a manifest gives settles it; without one, the content is read.
pub fn classify_after_manifest(manifest_kind: Option<FileKind>) -> (res: ClassifyStep)
    ensures
        match manifest_kind {
            Some(k) => res == ClassifyStep::Known(k),
            None => res is ReadContent,
        },
{
    match manifest_kind {
        Some(k) => ClassifyStep::Known(k),
        None => ClassifyStep::ReadContent,
    }
}

/// The kind of a Rust file from its content's test markers; `None` when the
/// file could not be read, which leaves the kind unknown.
pub fn rust_kind_from_content(markers: Option<(bool, bool)>) -> (res: FileKind)
    ensures
        res == match markers {
            Some((t, c)) => kind_by_markers_spec(t, c),
            None => FileKind::Unknown,
        },
{
    match markers {
        Some((t, c)) => classify_by_markers(t, c),
        None => FileKind::Unknown,
    }
}

/// The names of the calls that make a JavaScript or TypeScript file a
/// test.
pub open spec fn is_test_fn_name_spec(name: Seq<char>) -> bool {
    name == "describe"@ || name == "it"@ || name == "test"@
}

pub fn is_test_fn_name(name: &str) -> (res: bool)
    ensures
        res == is_test_fn_name_spec(name@),
{
    str_eq(name, "describe") || str_eq(name, "it") || str_eq(name, "test")
}

/// The kind of a JavaScript or TypeScript file from its content: a test
/// when it calls `describe`, `it` or `test`, else production code; `None`
/// when the file could not be read, which leaves the kind unknown.
pub fn ts_js_kind_from_content(found_test_call: Option<bool>) -> (res: FileKind)
    ensures
        res == match found_test_call {
            Some(true) => FileKind::Test,
            Some(false) => FileKind::Production,
            None => FileKind::Unknown,
        },
{
    match found_test_call {
        Some(true) => FileKind::Test,
        Some(false) => FileKind::Production,
        None => FileKind::Unknown,
    }
}

} // verus!
