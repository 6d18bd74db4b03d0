//! The Jest settings in a package's `package.json` that say which files are
//! tests: `testMatch` globs, `testRegex` patterns, and the
//! `testPathIgnorePatterns` that make a file production code.
use crate::format::pattern::{regex_is_match, regex_is_match_of};
use crate::path_names::{path_strip_prefix, path_strip_prefix_of};
use crate::project::classify::FileKind;
use crate::jest_ownership::{backslashes_to_slashes, backslashes_to_slashes_str};
use crate::test_model::{json_member, member_of, JsonValue};
use crate::text::{owned, trim, trim_str, views};
use vstd::prelude::*;

verus! {

/// Whether `regex::Regex::new` compiles a pattern.
pub uninterp spec fn regex_valid_of(pattern: Seq<char>) -> bool;

/// Whether a pattern compiles: calls `regex::Regex::new`. Trusted: the
/// answer is the crate's.
#[verifier::external_body]
fn regex_is_valid(pattern: &str) -> (res: bool)
    ensures
        res == regex_valid_of(pattern@),
{
    regex::Regex::new(pattern).is_ok()
}

/// Whether a glob set built from the patterns (each that `Glob::new`
/// accepts) builds.
pub uninterp spec fn globset_builds_of(patterns: Seq<Seq<char>>) -> bool;

/// Whether the glob set of `patterns` builds: calls `globset::Glob::new`
/// for each pattern (keeping those it accepts), `GlobSetBuilder::add` and
/// `GlobSetBuilder::build`. Trusted: the answer is the crate's.
#[verifier::external_body]
fn globset_builds(patterns: &Vec<String>) -> (res: bool)
    ensures
        res == globset_builds_of(views(patterns@)),
{
    let mut b = globset::GlobSetBuilder::new();
    for p in patterns {
        if let Ok(g) = globset::Glob::new(p) {
            b.add(g);
        }
    }
    b.build().is_ok()
}

/// Whether the glob set built from the patterns matches a relative path.
pub uninterp spec fn globset_match_of(patterns: Seq<Seq<char>>, rel: Seq<char>) -> bool;

/// Whether the glob set of `patterns` (built as in [`globset_builds`])
/// matches `rel`: calls `GlobSet::is_match` on it. Trusted: the answer is
/// the crate's (`false` when the set does not build).
#[verifier::external_body]
fn globset_is_match(patterns: &Vec<String>, rel: &str) -> (res: bool)
    ensures
        res == globset_match_of(views(patterns@), rel@),
{
    let mut b = globset::GlobSetBuilder::new();
    for p in patterns {
        if let Ok(g) = globset::Glob::new(p) {
            b.add(g);
        }
    }
    match b.build() {
        Ok(gs) => gs.is_match(std::path::Path::new(rel)),
        Err(_) => false,
    }
}

/// The strings of a JSON array (other items left out); `None` for anything
/// but an array.
pub open spec fn string_items(v: JsonValue) -> Option<Seq<Seq<char>>> {
    match v {
        JsonValue::Array(items) => Some(strings_of(items@)),
        _ => None,
    }
}

pub open spec fn strings_of(items: Seq<JsonValue>) -> Seq<Seq<char>>
    decreases items.len(),
{
    if items.len() == 0 {
        Seq::empty()
    } else {
        match items.last() {
            JsonValue::Str(s) => strings_of(items.drop_last()).push(s@),
            _ => strings_of(items.drop_last()),
        }
    }
}

/// A JSON string as a list of one, or the strings of an array.
pub open spec fn string_or_items(v: JsonValue) -> Option<Seq<Seq<char>>> {
    match v {
        JsonValue::Str(s) => Some(seq![s@]),
        _ => string_items(v),
    }
}

fn as_string_vec(v: &JsonValue) -> (res: Option<Vec<String>>)
    ensures
        match res {
            Some(r) => string_items(*v) == Some(views(r@)),
            None => string_items(*v) is None,
        },
{
    match v {
        JsonValue::Array(items) => {
            let mut out: Vec<String> = Vec::new();
            let mut i: usize = 0;
            while i < items.len()
                invariant
                    i <= items.len(),
                    views(out@) == strings_of(items@.take(i as int)),
                decreases items.len() - i,
            {
                assert(items@.take(i + 1).drop_last() =~= items@.take(i as int));
                assert(items@.take(i + 1).last() == items@[i as int]);
                match &items[i] {
                    JsonValue::Str(s) => {
                        let ghost before = views(out@);
                        out.push(owned(s.as_str()));
                        assert(views(out@) =~= before.push(s@));
                    },
                    _ => {},
                }
                i = i + 1;
            }
            assert(items@.take(items.len() as int) =~= items@);
            Some(out)
        },
        _ => None,
    }
}

fn as_string_or_string_vec(v: &JsonValue) -> (res: Option<Vec<String>>)
    ensures
        match res {
            Some(r) => string_or_items(*v) == Some(views(r@)),
            None => string_or_items(*v) is None,
        },
{
    match v {
        JsonValue::Str(s) => {
            let mut out: Vec<String> = Vec::new();
            out.push(owned(s.as_str()));
            assert(views(out@) =~= seq![s@]);
            Some(out)
        },
        _ => as_string_vec(v),
    }
}

/// The patterns that compile, in order.
pub open spec fn valid_patterns(ps: Seq<Seq<char>>) -> Seq<Seq<char>>
    decreases ps.len(),
{
    if ps.len() == 0 {
        Seq::empty()
    } else if regex_valid_of(ps.last()) {
        valid_patterns(ps.drop_last()).push(ps.last())
    } else {
        valid_patterns(ps.drop_last())
    }
}

fn keep_valid(ps: &Vec<String>) -> (res: Vec<String>)
    ensures
        views(res@) == valid_patterns(views(ps@)),
{
    let mut out: Vec<String> = Vec::new();
    let mut i: usize = 0;
    while i < ps.len()
        invariant
            i <= ps.len(),
            views(out@) == valid_patterns(views(ps@).take(i as int)),
        decreases ps.len() - i,
    {
        assert(views(ps@).take(i + 1).drop_last() =~= views(ps@).take(i as int));
        assert(views(ps@).take(i + 1).last() == ps@[i as int]@);
        if regex_is_valid(ps[i].as_str()) {
            let ghost before = views(out@);
            out.push(owned(ps[i].as_str()));
            assert(views(out@) =~= before.push(ps@[i as int]@));
        }
        i = i + 1;
    }
    assert(views(ps@).take(ps.len() as int) =~= views(ps@));
    out
}

/// The globs that are not blank, in order.
pub open spec fn nonblank_globs(ps: Seq<Seq<char>>) -> Seq<Seq<char>>
    decreases ps.len(),
{
    if ps.len() == 0 {
        Seq::empty()
    } else if trim(ps.last()).len() > 0 {
        nonblank_globs(ps.drop_last()).push(ps.last())
    } else {
        nonblank_globs(ps.drop_last())
    }
}

fn keep_nonblank(ps: &Vec<String>) -> (res: Vec<String>)
    ensures
        views(res@) == nonblank_globs(views(ps@)),
{
    let mut out: Vec<String> = Vec::new();
    let mut i: usize = 0;
    while i < ps.len()
        invariant
            i <= ps.len(),
            views(out@) == nonblank_globs(views(ps@).take(i as int)),
        decreases ps.len() - i,
    {
        assert(views(ps@).take(i + 1).drop_last() =~= views(ps@).take(i as int));
        assert(views(ps@).take(i + 1).last() == ps@[i as int]@);
        if !trim_str(ps[i].as_str()).as_str().is_empty() {
            let ghost before = views(out@);
            out.push(owned(ps[i].as_str()));
            assert(views(out@) =~= before.push(ps@[i as int]@));
        }
        i = i + 1;
    }
    assert(views(ps@).take(ps.len() as int) =~= views(ps@));
    out
}

/// The Jest settings of a package that decide which files are tests.
pub struct TsJsManifest {
    pub test_match: Option<Vec<String>>,
    pub test_regex: Vec<String>,
    pub ignore_regex: Vec<String>,
    pub project_root: String,
}

pub struct TsJsManifestView {
    pub test_match: Option<Seq<Seq<char>>>,
    pub test_regex: Seq<Seq<char>>,
    pub ignore_regex: Seq<Seq<char>>,
    pub project_root: Seq<char>,
}

impl View for TsJsManifest {
    type V = TsJsManifestView;

    open spec fn view(&self) -> TsJsManifestView {
        TsJsManifestView {
            test_match: match self.test_match {
                Some(v) => Some(views(v@)),
                None => None,
            },
            test_regex: views(self.test_regex@),
            ignore_regex: views(self.ignore_regex@),
            project_root: self.project_root@,
        }
    }
}

/// The settings read from a package's JSON: the `jest` member of the
/// package object gives `testMatch` (the non-blank globs of a list, kept
/// when their set builds), `testRegex` and `testPathIgnorePatterns` (a
/// pattern or a list; those that compile); `None` without a `jest` member
/// or when none of these is set.
pub open spec fn manifest_from_package_spec(project_root: Seq<char>, package: JsonValue) -> Option<TsJsManifestView> {
    match package {
        JsonValue::Object(members) => match member_of(members@, "jest"@) {
            Some(JsonValue::Object(jest)) => {
                let test_match = match member_of(jest@, "testMatch"@) {
                    Some(v) => match string_items(v) {
                        Some(globs) => if globset_builds_of(nonblank_globs(globs)) {
                            Some(nonblank_globs(globs))
                        } else {
                            None
                        },
                        None => None,
                    },
                    None => None,
                };
                let test_regex = match member_of(jest@, "testRegex"@) {
                    Some(v) => match string_or_items(v) {
                        Some(ps) => valid_patterns(ps),
                        None => Seq::empty(),
                    },
                    None => Seq::empty(),
                };
                let ignore_regex = match member_of(jest@, "testPathIgnorePatterns"@) {
                    Some(v) => match string_or_items(v) {
                        Some(ps) => valid_patterns(ps),
                        None => Seq::empty(),
                    },
                    None => Seq::empty(),
                };
                if test_match is Some || test_regex.len() > 0 || ignore_regex.len() > 0 {
                    Some(TsJsManifestView { test_match, test_regex, ignore_regex, project_root })
                } else {
                    None
                }
            },
            _ => None,
        },
        _ => None,
    }
}

fn patterns_of(jest: &Vec<(String, JsonValue)>, key: &str) -> (res: Vec<String>)
    ensures
        views(res@) == match member_of(jest@, key@) {
            Some(v) => match string_or_items(v) {
                Some(ps) => valid_patterns(ps),
                None => Seq::empty(),
            },
            None => Seq::empty(),
        },
{
    match json_member(jest, key) {
        Some(v) => match as_string_or_string_vec(v) {
            Some(ps) => keep_valid(&ps),
            None => Vec::new(),
        },
        None => Vec::new(),
    }
}

impl TsJsManifest {
    /// The settings of the package at `project_root` (see
    /// [`manifest_from_package_spec`]); `package` is its decoded JSON.
    pub fn from_package_json(project_root: &str, package: &JsonValue) -> (res: Option<Self>)
        ensures
            match res {
                Some(m) => manifest_from_package_spec(project_root@, *package) == Some(m@),
                None => manifest_from_package_spec(project_root@, *package) is None,
            },
    {
        let members = match package {
            JsonValue::Object(m) => m,
            _ => {
                return None;
            },
        };
        let jest = match json_member(members, "jest") {
            Some(JsonValue::Object(j)) => j,
            _ => {
                return None;
            },
        };
        let test_match = match json_member(jest, "testMatch") {
            Some(v) => match as_string_vec(v) {
                Some(globs) => {
                    let kept = keep_nonblank(&globs);
                    if globset_builds(&kept) {
                        Some(kept)
                    } else {
                        None
                    }
                },
                None => None,
            },
            None => None,
        };
        let test_regex = patterns_of(jest, "testRegex");
        let ignore_regex = patterns_of(jest, "testPathIgnorePatterns");
        if test_match.is_some() || test_regex.len() > 0 || ignore_regex.len() > 0 {
            let m = TsJsManifest { test_match, test_regex, ignore_regex, project_root: owned(project_root) };
            Some(m)
        } else {
            None
        }
    }

    /// The kind the settings give a file (see [`ts_js_manifest_kind`]).
    pub fn classify(&self, abs_path: &str) -> (res: Option<FileKind>)
        ensures
            res == ts_js_manifest_kind(self@, abs_path@),
    {
        let rel = match path_strip_prefix(abs_path, self.project_root.as_str()) {
            Some(r) => backslashes_to_slashes_str(r.as_str()),
            None => {
                return None;
            },
        };
        if any_pattern_matches(&self.ignore_regex, rel.as_str()) {
            return Some(FileKind::Production);
        }
        let in_match = match &self.test_match {
            Some(globs) => globset_is_match(globs, rel.as_str()),
            None => false,
        };
        if in_match {
            return Some(FileKind::Test);
        }
        if any_pattern_matches(&self.test_regex, rel.as_str()) {
            Some(FileKind::Test)
        } else {
            None
        }
    }
}

/// Whether one of the patterns matches `text`.
pub open spec fn any_matches(ps: Seq<Seq<char>>, text: Seq<char>) -> bool {
    exists|i: int| 0 <= i < ps.len() && regex_is_match_of(#[trigger] ps[i], text)
}

fn any_pattern_matches(ps: &Vec<String>, text: &str) -> (res: bool)
    ensures
        res == any_matches(views(ps@), text@),
{
    let mut i: usize = 0;
    while i < ps.len()
        invariant
            i <= ps.len(),
            forall|j: int| 0 <= j < i ==> !regex_is_match_of(#[trigger] views(ps@)[j], text@),
        decreases ps.len() - i,
    {
        if regex_is_match(ps[i].as_str(), text) {
            assert(views(ps@)[i as int] == ps@[i as int]@);
            return true;
        }
        assert(views(ps@)[i as int] == ps@[i as int]@);
        i = i + 1;
    }
    false
}

/// The kind a package's settings give a file: none for a file outside the
/// package; production code when an ignore pattern matches its path
/// relative to the package (slashes forward); a test when a `testMatch`
/// glob or a `testRegex` pattern matches it; else none.
pub open spec fn ts_js_manifest_kind(m: TsJsManifestView, abs_path: Seq<char>) -> Option<FileKind> {
    match path_strip_prefix_of(abs_path, m.project_root) {
        None => None,
        Some(r) => {
            let rel = backslashes_to_slashes(r);
            if any_matches(m.ignore_regex, rel) {
                Some(FileKind::Production)
            } else if (m.test_match matches Some(g) && globset_match_of(g, rel)) {
                Some(FileKind::Test)
            } else if any_matches(m.test_regex, rel) {
                Some(FileKind::Test)
            } else {
                None
            }
        },
    }
}

} // verus!
