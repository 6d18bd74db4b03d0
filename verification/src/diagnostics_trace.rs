//! The summary of a run's arguments written to the run trace, and where the
//! trace goes.
use crate::test_model::opt_seq;
use crate::text::{trim, trim_str};
use vstd::prelude::*;

verus! {

/// What the run trace records of the arguments.
#[derive(Debug, Clone)]
pub struct ArgsSummary {
    pub ci: bool,
    pub verbose: bool,
    pub watch: bool,
    pub no_cache: bool,
    pub sequential: bool,
    pub show_logs: bool,
    pub only_failures: bool,
    pub collect_coverage: bool,
    pub coverage_ui: String,
    pub changed: Option<String>,
    pub changed_depth: Option<u32>,
    pub selection_paths: Vec<String>,
    pub runner_args: Vec<String>,
}

/// The directory for diagnostics: the trimmed setting, unless it is blank.
pub open spec fn diagnostics_dir_spec(setting: Option<Seq<char>>) -> Option<Seq<char>> {
    match setting {
        Some(s) => if trim(s).len() == 0 {
            None
        } else {
            Some(trim(s))
        },
        None => None,
    }
}

/// The directory for diagnostics from the `HEADLAMP_DIAGNOSTICS_DIR`
/// setting (see [`diagnostics_dir_spec`]).
pub fn diagnostics_dir_from(setting: Option<&str>) -> (res: Option<String>)
    ensures
        opt_seq(res) == diagnostics_dir_spec(match setting {
            Some(s) => Some(s@),
            None => None,
        }),
{
    match setting {
        Some(s) => {
            let t = trim_str(s);
            if t.as_str().is_empty() {
                None
            } else {
                Some(t)
            }
        },
        None => None,
    }
}

} // verus!
