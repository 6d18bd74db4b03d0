//! The decisions of a Jest run between its outside steps: the bootstrap
//! command to run first, the Jest binary that must exist, the projects to
//! run, and which report is printed in the end.
use crate::jest_bridge::{looks_sparse, looks_sparse_spec};
use crate::jest_discovery::{jest_bin, jest_bin_spec};
use crate::path_names::path_exists;
use crate::text::{concat2, owned, trim, trim_str, views};
use vstd::prelude::*;

verus! {

/// The command to run before the tests: the configured one, trimmed, when
/// it is not blank.
pub fn bootstrap_command(configured: Option<&str>) -> (res: Option<String>)
    ensures
        match configured {
            Some(c) => if trim(c@).len() > 0 {
                res matches Some(r) && r@ == trim(c@)
            } else {
                res is None
            },
            None => res is None,
        },
{
    match configured {
        Some(c) => {
            let t = trim_str(c);
            if t.as_str().is_empty() {
                None
            } else {
                Some(t)
            }
        },
        None => None,
    }
}

/// A runner that is not installed, with a hint of where it was expected.
pub struct MissingRunner {
    pub runner: String,
    pub hint: String,
}

/// The Jest binary of the repository, when it exists there (whether it
/// does is read from the disk); else the runner is missing, with the hint
/// `expected` and the path.
pub fn ensure_jest_bin_exists(repo_root: &str) -> (res: Result<String, MissingRunner>)
    ensures
        match res {
            Ok(b) => b@ == jest_bin_spec(repo_root@),
            Err(e) => e.runner@ == "jest"@ && e.hint@ == "expected "@ + jest_bin_spec(repo_root@),
        },
{
    let bin = jest_bin(repo_root);
    if path_exists(bin.as_str()) {
        Ok(bin)
    } else {
        let hint = concat2("expected ", bin.as_str());
        Err(MissingRunner { runner: owned("jest"), hint })
    }
}

/// The projects a run goes through: the configuration files found, or the
/// repository itself when there are none.
pub fn project_configs_or_root(discovered: Vec<String>, repo_root: &str) -> (res: Vec<String>)
    ensures
        views(res@) == if discovered@.len() == 0 {
            seq![repo_root@]
        } else {
            views(discovered@)
        },
{
    if discovered.len() == 0 {
        let mut v: Vec<String> = Vec::new();
        v.push(owned(repo_root));
        assert(views(v@) =~= seq![repo_root@]);
        v
    } else {
        discovered
    }
}

/// Whether the report rendered from the bridge is joined by the one read
/// from Jest's own output: only when all files are shown and the bridge's
/// report looks sparse.
pub fn needs_raw_report(pretty: &str, only_failures: bool) -> (res: bool)
    ensures
        res == (!only_failures && looks_sparse_spec(pretty@)),
{
    !only_failures && looks_sparse(pretty)
}

/// The text printed for a report: nothing when it is blank.
pub fn report_to_print(text: &str) -> (res: Option<String>)
    ensures
        match res {
            Some(t) => t@ == text@ && trim(text@).len() > 0,
            None => trim(text@).len() == 0,
        },
{
    if trim_str(text).as_str().is_empty() {
        None
    } else {
        Some(owned(text))
    }
}

/// The exit code of a run: the tests' own, unless coverage is collected,
/// which then decides.
pub enum ExitDecision {
    Exit(i32),
    CollectCoverage,
}

pub fn exit_after_tests(collect_coverage: bool, exit_code: i32) -> (res: ExitDecision)
    ensures
        collect_coverage ==> res is CollectCoverage,
        !collect_coverage ==> res == ExitDecision::Exit(exit_code),
{
    if collect_coverage {
        ExitDecision::CollectCoverage
    } else {
        ExitDecision::Exit(exit_code)
    }
}

} // verus!
