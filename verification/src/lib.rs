pub mod cli;
pub mod diagnostics_trace;
pub mod fast_related;
pub mod format;
pub mod git_changes;
pub mod help;
pub mod jest_args;
pub mod jest_bridge;
pub mod jest_config;
pub mod jest_discovery;
pub mod jest_ownership;
pub mod jest_run;
pub mod jest_selection;
pub mod jest_streaming;
pub mod live_progress;
pub mod ordered_set;
pub mod parallel_stride;
pub mod path_names;
pub mod profile;
pub mod pytest_args;
pub mod project;
pub mod text;
pub mod test_model;

use vstd::prelude::*;

verus! {

/// The version of this library.
pub fn core_version() -> (res: &'static str)
    ensures
        res@ == "0.1.0"@,
{
    "0.1.0"
}

} // verus!
