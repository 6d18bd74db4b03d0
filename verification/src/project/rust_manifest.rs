//! The targets a Cargo manifest names, as canonical paths: test targets and
//! production targets (library and binaries).
use crate::path_names::{canonicalize_path, path_join, path_join_of};
use crate::test_model::opt_seq;
use crate::jest_ownership::canonical_or;
use crate::project::classify::FileKind;
use crate::text::{owned, str_eq, views};
use vstd::prelude::*;

verus! {

/// The canonical paths of a crate's test targets and production targets.
#[derive(Debug, Clone)]
pub struct RustManifestPaths {
    test_files_abs: Vec<String>,
    production_files_abs: Vec<String>,
}

pub struct RustManifestView {
    pub tests: Seq<Seq<char>>,
    pub production: Seq<Seq<char>>,
}

impl View for RustManifestPaths {
    type V = RustManifestView;

    closed spec fn view(&self) -> RustManifestView {
        RustManifestView { tests: views(self.test_files_abs@), production: views(self.production_files_abs@) }
    }
}

/// A file named as a test target is a test; one named as a production
/// target is production code; others are not known from the manifest.
pub open spec fn manifest_kind(m: RustManifestView, canonical: Seq<char>) -> Option<FileKind> {
    if m.tests.contains(canonical) {
        Some(FileKind::Test)
    } else if m.production.contains(canonical) {
        Some(FileKind::Production)
    } else {
        None
    }
}

fn any_equal(v: &Vec<String>, x: &str) -> (res: bool)
    ensures
        res == views(v@).contains(x@),
{
    let mut i: usize = 0;
    while i < v.len()
        invariant
            i <= v.len(),
            forall|j: int| 0 <= j < i ==> v@[j]@ != x@,
        decreases v.len() - i,
    {
        if str_eq(v[i].as_str(), x) {
            assert(views(v@)[i as int] == x@);
            return true;
        }
        i = i + 1;
    }
    proof {
        if views(v@).contains(x@) {
            let j = choose|j: int| 0 <= j < views(v@).len() && views(v@)[j] == x@;
            assert(v@[j]@ == x@);
        }
    }
    false
}

impl RustManifestPaths {
    /// The manifest's targets, already canonical.
    pub fn new(test_files_abs: Vec<String>, production_files_abs: Vec<String>) -> (res: Self)
        ensures
            res@.tests == views(test_files_abs@),
            res@.production == views(production_files_abs@),
    {
        RustManifestPaths { test_files_abs, production_files_abs }
    }

    /// A manifest that names no target.
    pub fn empty() -> (res: Self)
        ensures
            res@.tests.len() == 0,
            res@.production.len() == 0,
    {
        RustManifestPaths { test_files_abs: Vec::new(), production_files_abs: Vec::new() }
    }

    /// The kind the manifest gives the file at the canonical path
    /// `canonical` (see [`manifest_kind`]).
    pub fn classify(&self, canonical: &str) -> (res: Option<FileKind>)
        ensures
            res == manifest_kind(self@, canonical@),
    {
        if any_equal(&self.test_files_abs, canonical) {
            return Some(FileKind::Test);
        }
        if any_equal(&self.production_files_abs, canonical) {
            return Some(FileKind::Production);
        }
        None
    }
}

/// The production targets' relative paths: the library's, then the
/// binaries'.
pub open spec fn production_rels_spec(lib_path: Option<Seq<char>>, bin_paths: Seq<Seq<char>>) -> Seq<Seq<char>> {
    match lib_path {
        Some(l) => seq![l] + bin_paths,
        None => bin_paths,
    }
}

/// Paths joined onto the crate's root.
pub open spec fn joined_to(crate_root: Seq<char>, rels: Seq<Seq<char>>) -> Seq<Seq<char>> {
    rels.map_values(|r: Seq<char>| path_join_of(crate_root, r))
}

fn join_all(crate_root: &str, rels: &Vec<String>) -> (res: Vec<String>)
    ensures
        views(res@) == joined_to(crate_root@, views(rels@)),
{
    let mut out: Vec<String> = Vec::new();
    let mut i: usize = 0;
    while i < rels.len()
        invariant
            i <= rels.len(),
            views(out@) == joined_to(crate_root@, views(rels@)).take(i as int),
        decreases rels.len() - i,
    {
        let ghost before = views(out@);
        out.push(path_join(crate_root, rels[i].as_str()));
        assert(views(out@) =~= before.push(path_join_of(crate_root@, rels@[i as int]@)));
        assert(joined_to(crate_root@, views(rels@)).take(i + 1) =~= joined_to(crate_root@, views(rels@)).take(
            i as int,
        ).push(path_join_of(crate_root@, rels@[i as int]@)));
        i = i + 1;
    }
    assert(joined_to(crate_root@, views(rels@)).take(rels.len() as int) =~= joined_to(crate_root@, views(rels@)));
    out
}

/// The target files a manifest names, from the paths it gives (each
/// relative to the crate's root): its tests, then its production targets,
/// the library's path before the binaries'.
pub fn target_paths(crate_root: &str, lib_path: Option<String>, bin_paths: Vec<String>, test_paths: Vec<String>) -> (res: (
    Vec<String>,
    Vec<String>,
))
    ensures
        views(res.0@) == joined_to(crate_root@, views(test_paths@)),
        views(res.1@) == joined_to(crate_root@, production_rels_spec(opt_seq(lib_path), views(bin_paths@))),
{
    let mut production_rels: Vec<String> = Vec::new();
    match &lib_path {
        Some(l) => production_rels.push(owned(l.as_str())),
        None => {},
    }
    let ghost start = views(production_rels@);
    let mut k: usize = 0;
    while k < bin_paths.len()
        invariant
            k <= bin_paths.len(),
            views(production_rels@) == start + views(bin_paths@).take(k as int),
        decreases bin_paths.len() - k,
    {
        let ghost before = views(production_rels@);
        production_rels.push(owned(bin_paths[k].as_str()));
        assert(views(production_rels@) =~= before.push(bin_paths@[k as int]@));
        assert(views(bin_paths@).take(k + 1) =~= views(bin_paths@).take(k as int).push(bin_paths@[k as int]@));
        k = k + 1;
    }
    assert(views(bin_paths@).take(bin_paths.len() as int) =~= views(bin_paths@));
    assert(views(production_rels@) =~= production_rels_spec(opt_seq(lib_path), views(bin_paths@)));
    (join_all(crate_root, &test_paths), join_all(crate_root, &production_rels))
}

/// Each path in the canonical form that the disk gave for it, else as it
/// is: `canonical[i]` is the disk's answer for `paths[i]`.
pub fn canonical_or_inputs(paths: &Vec<String>, canonical: &Vec<Option<String>>) -> (res: Vec<String>)
    requires
        canonical.len() == paths.len(),
    ensures
        res.len() == paths.len(),
        forall|i: int|
            0 <= i < paths.len() ==> (#[trigger] res@[i])@ == canonical_or(opt_seq(canonical@[i]), paths@[i]@),
{
    let mut out: Vec<String> = Vec::new();
    let mut i: usize = 0;
    while i < paths.len()
        invariant
            i <= paths.len(),
            canonical.len() == paths.len(),
            out.len() == i,
            forall|k: int| 0 <= k < i ==> (#[trigger] out@[k])@ == canonical_or(opt_seq(canonical@[k]), paths@[k]@),
        decreases paths.len() - i,
    {
        let p = match &canonical[i] {
            Some(c) => owned(c.as_str()),
            None => owned(paths[i].as_str()),
        };
        out.push(p);
        i = i + 1;
    }
    out
}

/// Each path in its canonical form when the disk gives one, else as it is;
/// the order and number of paths stay. The disk is asked for each path in
/// turn, and the answers go to [`canonical_or_inputs`]; what the disk
/// answers is not stated, so any path may come back in any form.
pub fn canonical_paths(paths: &Vec<String>) -> (res: Vec<String>)
    ensures
        res.len() == paths.len(),
{
    let mut answers: Vec<Option<String>> = Vec::new();
    let mut i: usize = 0;
    while i < paths.len()
        invariant
            i <= paths.len(),
            answers.len() == i,
        decreases paths.len() - i,
    {
        answers.push(canonicalize_path(paths[i].as_str()));
        i = i + 1;
    }
    canonical_or_inputs(paths, &answers)
}

} // verus!
