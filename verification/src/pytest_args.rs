//! The pytest run: its command line, the run time put into the model, and
//! the location of a failure read from pytest's long report.
use crate::format::failure_diagnostics::{slashes, slashes_str};
use crate::format::pattern::{captures2, regex_captures2_of};
use crate::test_model::{TestLocation, TestRunModel};
use crate::text::{
    concat2, contains, contains_str, ends_with, ends_with_str, lines, lines_of, owned, parse_i64_spec, parse_i64_str,
    split_once, split_once_str, starts_with, starts_with_str, str_eq, views,
};
use crate::path_names::{path_join, path_join_of};
use vstd::prelude::*;

verus! {

/// A `File "<path>", line <n>` line of a traceback.
pub const PY_FILE_LINE_PATTERN: &'static str = "^\\s*File\\s+\"([^\"]+)\",\\s+line\\s+(\\d+)(?:,|$)";

/// A `<path>:<n>: ` line of a report.
pub const PY_PATH_COLON_LINE_PATTERN: &'static str = "^\\s*([^:\\s]+):(\\d+):\\s*";

/// The pytest program.
pub fn pytest_bin() -> (res: &'static str)
    ensures
        res@ == "pytest"@,
{
    "pytest"
}

/// The runner's arguments with every lcov report sent to `lcov_path`
/// (`--cov-report=lcov:<x>` and `--cov-report lcov:<x>`), unless artifacts
/// are kept.
pub open spec fn rewrite_from(args: Seq<Seq<char>>, i: int, lcov_path: Seq<char>) -> Seq<Seq<char>>
    decreases args.len() - i,
{
    if i < 0 || i >= args.len() {
        Seq::empty()
    } else if starts_with(args[i], "--cov-report=lcov:"@) {
        seq!["--cov-report="@ + "lcov:"@ + lcov_path] + rewrite_from(args, i + 1, lcov_path)
    } else if args[i] == "--cov-report"@ && i + 1 < args.len() && starts_with(args[i + 1], "lcov:"@) {
        seq!["--cov-report"@, "lcov:"@ + lcov_path] + rewrite_from(args, i + 2, lcov_path)
    } else {
        seq![args[i]] + rewrite_from(args, i + 1, lcov_path)
    }
}

pub open spec fn rewrite_spec(keep_artifacts: bool, args: Seq<Seq<char>>, lcov_path: Seq<char>) -> Seq<Seq<char>> {
    if keep_artifacts {
        args
    } else {
        rewrite_from(args, 0, lcov_path)
    }
}

pub fn rewrite_pytest_runner_args_for_no_artifacts(
    keep_artifacts: bool,
    runner_args: &[String],
    lcov_path: &str,
) -> (res: Vec<String>)
    ensures
        views(res@) == rewrite_spec(keep_artifacts, views(runner_args@), lcov_path@),
{
    let ghost av = views(runner_args@);
    let mut out: Vec<String> = Vec::new();
    if keep_artifacts {
        let mut k: usize = 0;
        while k < runner_args.len()
            invariant
                k <= runner_args.len(),
                av == views(runner_args@),
                views(out@) == av.take(k as int),
            decreases runner_args.len() - k,
        {
            let ghost b = views(out@);
            out.push(owned(runner_args[k].as_str()));
            assert(views(out@) =~= b.push(av[k as int]));
            assert(av.take(k + 1) =~= av.take(k as int).push(av[k as int]));
            k = k + 1;
        }
        assert(av.take(runner_args.len() as int) =~= av);
        return out;
    }
    let lcov_value = concat2("lcov:", lcov_path);
    let mut i: usize = 0;
    assert(views(out@) + rewrite_from(av, 0, lcov_path@) =~= rewrite_from(av, 0, lcov_path@));
    while i < runner_args.len()
        invariant
            i <= runner_args.len(),
            av == views(runner_args@),
            lcov_value@ == "lcov:"@ + lcov_path@,
            views(out@) + rewrite_from(av, i as int, lcov_path@) == rewrite_from(av, 0, lcov_path@),
        decreases runner_args.len() - i,
    {
        let t = runner_args[i].as_str();
        assert(av[i as int] == t@);
        let ghost b = views(out@);
        if starts_with_str(t, "--cov-report=lcov:") {
            out.push(concat2("--cov-report=", lcov_value.as_str()));
            assert("--cov-report="@ + "lcov:"@ + lcov_path@ =~= "--cov-report="@ + ("lcov:"@ + lcov_path@));
            assert(views(out@) + rewrite_from(av, i + 1, lcov_path@) =~= b + rewrite_from(av, i as int, lcov_path@));
            i = i + 1;
        } else if str_eq(t, "--cov-report") && i + 1 < runner_args.len() && starts_with_str(
            runner_args[i + 1].as_str(),
            "lcov:",
        ) {
            assert(av[i + 1] == runner_args@[i + 1]@);
            out.push(owned("--cov-report"));
            out.push(owned(lcov_value.as_str()));
            assert(views(out@) + rewrite_from(av, i + 2, lcov_path@) =~= b + rewrite_from(av, i as int, lcov_path@));
            i = i + 2;
        } else {
            out.push(owned(t));
            assert(views(out@) + rewrite_from(av, i + 1, lcov_path@) =~= b + rewrite_from(av, i as int, lcov_path@));
            i = i + 1;
        }
    }
    assert(rewrite_from(av, i as int, lcov_path@) =~= Seq::<Seq<char>>::empty());
    assert(views(out@) + Seq::<Seq<char>>::empty() =~= views(out@));
    out
}

pub open spec fn pytest_base_args() -> Seq<Seq<char>> {
    seq!["-p"@, "headlamp_pytest_plugin"@, "--tb=long"@, "--no-header"@, "--no-summary"@, "-q"@]
}

/// An lcov report is asked for among the arguments.
pub open spec fn has_lcov_report(args: Seq<Seq<char>>) -> bool {
    (exists|k: int| 0 <= k < args.len() && starts_with(#[trigger] args[k], "--cov-report=lcov:"@)) || (exists|k: int|
        0 <= k && k + 1 < args.len() && #[trigger] args[k] == "--cov-report"@ && starts_with(args[k + 1], "lcov:"@))
}

/// The command line of a pytest run: the plugin and quiet flags, no cache
/// unless artifacts are kept, the runner's arguments (lcov reports moved),
/// the selected tests; with coverage, `--cov=.` unless a `--cov` flag is
/// given and an lcov report at `lcov_path` unless one is asked for.
pub open spec fn pytest_cmd_args_spec(
    keep_artifacts: bool,
    runner_args: Seq<Seq<char>>,
    collect_coverage: bool,
    selected: Seq<Seq<char>>,
    lcov_path: Seq<char>,
) -> Seq<Seq<char>> {
    let base = pytest_base_args() + (if !keep_artifacts {
        seq!["-p"@, "no:cacheprovider"@]
    } else {
        Seq::empty()
    }) + rewrite_spec(keep_artifacts, runner_args, lcov_path) + selected;
    let has_cov = exists|k: int| 0 <= k < runner_args.len() && starts_with(#[trigger] runner_args[k], "--cov"@);
    if collect_coverage {
        let lcov = has_lcov_report(base);
        let r1 = if !has_cov {
            base.push("--cov=."@)
        } else {
            base
        };
        if !lcov {
            r1.push("--cov-report=lcov:"@ + lcov_path)
        } else {
            r1
        }
    } else {
        base
    }
}

fn any_starts_with(v: &Vec<String>, p: &str) -> (res: bool)
    ensures
        res == exists|k: int| 0 <= k < v.len() && starts_with(#[trigger] views(v@)[k], p@),
{
    let ghost vv = views(v@);
    let mut i: usize = 0;
    while i < v.len()
        invariant
            i <= v.len(),
            vv == views(v@),
            forall|k: int| 0 <= k < i ==> !starts_with(#[trigger] vv[k], p@),
        decreases v.len() - i,
    {
        assert(vv[i as int] == v@[i as int]@);
        if starts_with_str(v[i].as_str(), p) {
            return true;
        }
        i = i + 1;
    }
    false
}

fn has_lcov_report_exec(v: &Vec<String>) -> (res: bool)
    ensures
        res == has_lcov_report(views(v@)),
{
    if any_starts_with(v, "--cov-report=lcov:") {
        return true;
    }
    let ghost vv = views(v@);
    let mut k: usize = 0;
    while v.len() > 1 && k < v.len() - 1
        invariant
            vv == views(v@),
            forall|j: int| 0 <= j < k && j + 1 < vv.len() ==> !(#[trigger] vv[j] == "--cov-report"@ && starts_with(
                vv[j + 1],
                "lcov:"@,
            )),
        decreases v.len() - k,
    {
        assert(vv[k as int] == v@[k as int]@);
        assert(vv[k + 1] == v@[k + 1]@);
        if str_eq(v[k].as_str(), "--cov-report") && starts_with_str(v[k + 1].as_str(), "lcov:") {
            return true;
        }
        k = k + 1;
    }
    false
}

/// The command line of a pytest run (see [`pytest_cmd_args_spec`]).
pub fn build_pytest_cmd_args(
    keep_artifacts: bool,
    runner_args: &[String],
    collect_coverage: bool,
    selected: &[String],
    lcov_path: &str,
) -> (res: Vec<String>)
    ensures
        views(res@) == pytest_cmd_args_spec(
            keep_artifacts,
            views(runner_args@),
            collect_coverage,
            views(selected@),
            lcov_path@,
        ),
{
    let mut cmd: Vec<String> = Vec::new();
    cmd.push(owned("-p"));
    cmd.push(owned("headlamp_pytest_plugin"));
    cmd.push(owned("--tb=long"));
    cmd.push(owned("--no-header"));
    cmd.push(owned("--no-summary"));
    cmd.push(owned("-q"));
    assert(views(cmd@) =~= pytest_base_args());
    let ghost b0 = views(cmd@);
    if !keep_artifacts {
        cmd.push(owned("-p"));
        cmd.push(owned("no:cacheprovider"));
    }
    assert(views(cmd@) =~= b0 + (if !keep_artifacts {
        seq!["-p"@, "no:cacheprovider"@]
    } else {
        Seq::empty()
    }));
    let rewritten = rewrite_pytest_runner_args_for_no_artifacts(keep_artifacts, runner_args, lcov_path);
    let ghost b1 = views(cmd@);
    let mut i: usize = 0;
    while i < rewritten.len()
        invariant
            i <= rewritten.len(),
            views(cmd@) == b1 + views(rewritten@).take(i as int),
        decreases rewritten.len() - i,
    {
        let ghost b = views(cmd@);
        cmd.push(owned(rewritten[i].as_str()));
        assert(views(cmd@) =~= b.push(rewritten@[i as int]@));
        assert(views(rewritten@).take(i + 1) =~= views(rewritten@).take(i as int).push(rewritten@[i as int]@));
        i = i + 1;
    }
    assert(views(rewritten@).take(rewritten.len() as int) =~= views(rewritten@));
    let ghost b2 = views(cmd@);
    let mut j: usize = 0;
    while j < selected.len()
        invariant
            j <= selected.len(),
            views(cmd@) == b2 + views(selected@).take(j as int),
        decreases selected.len() - j,
    {
        let ghost b = views(cmd@);
        cmd.push(owned(selected[j].as_str()));
        assert(views(cmd@) =~= b.push(selected@[j as int]@));
        assert(views(selected@).take(j + 1) =~= views(selected@).take(j as int).push(selected@[j as int]@));
        j = j + 1;
    }
    assert(views(selected@).take(selected.len() as int) =~= views(selected@));
    let ghost base = views(cmd@);
    let mut runner_copy: Vec<String> = Vec::new();
    let mut r: usize = 0;
    while r < runner_args.len()
        invariant
            r <= runner_args.len(),
            views(runner_copy@) == views(runner_args@).take(r as int),
        decreases runner_args.len() - r,
    {
        let ghost b = views(runner_copy@);
        runner_copy.push(owned(runner_args[r].as_str()));
        assert(views(runner_copy@) =~= b.push(runner_args@[r as int]@));
        assert(views(runner_args@).take(r + 1) =~= views(runner_args@).take(r as int).push(runner_args@[r as int]@));
        r = r + 1;
    }
    assert(views(runner_args@).take(runner_args.len() as int) =~= views(runner_args@));
    let has_cov = any_starts_with(&runner_copy, "--cov");
    if collect_coverage {
        let has_lcov = has_lcov_report_exec(&cmd);
        if !has_cov {
            let ghost b = views(cmd@);
            cmd.push(owned("--cov=."));
            assert(views(cmd@) =~= b.push("--cov=."@));
        }
        if !has_lcov {
            let ghost b = views(cmd@);
            cmd.push(concat2("--cov-report=lcov:", lcov_path));
            assert(views(cmd@) =~= b.push("--cov-report=lcov:"@ + lcov_path@));
        }
    }
    cmd
}

/// The run's start and length put into the model.
pub fn apply_run_timing_to_model(model: &mut TestRunModel, started_at_unix_ms: u64, elapsed_ms: u64)
    ensures
        final(model)@.start_time == started_at_unix_ms,
        final(model)@.aggregated == (crate::test_model::TestRunAggregated {
            start_time: started_at_unix_ms,
            run_time_ms: Some(elapsed_ms),
            ..old(model)@.aggregated
        }),
        final(model)@.test_results == old(model)@.test_results,
{
    model.start_time = started_at_unix_ms;
    model.aggregated.start_time = started_at_unix_ms;
    model.aggregated.run_time_ms = Some(elapsed_ms);
}

/// A location read from a captured file and line number: the file must
/// match the test's file (either ends the other) and the line be positive.
pub open spec fn location_from(caps: Option<(Seq<char>, Seq<char>)>, needle: Seq<char>) -> Option<TestLocation> {
    match caps {
        None => None,
        Some((file_raw, num)) => {
            let file = slashes(file_raw);
            match parse_i64_spec(num) {
                None => None,
                Some(n) => if (ends_with(file, needle) || ends_with(needle, file)) && n > 0 {
                    Some(TestLocation { line: n, column: 1 })
                } else {
                    None
                },
            }
        },
    }
}

/// The location a line names: a `File "...", line n` traceback line, or
/// else a `path:n:` line.
pub open spec fn line_location(line: Seq<char>, needle: Seq<char>) -> Option<TestLocation> {
    match location_from(regex_captures2_of(PY_FILE_LINE_PATTERN@, line), needle) {
        Some(l) => Some(l),
        None => location_from(regex_captures2_of(PY_PATH_COLON_LINE_PATTERN@, line), needle),
    }
}

/// The first location named by a line of the report.
pub open spec fn first_location(ls: Seq<Seq<char>>, needle: Seq<char>) -> Option<TestLocation>
    decreases ls.len(),
{
    if ls.len() == 0 {
        None
    } else {
        match line_location(ls[0], needle) {
            Some(l) => Some(l),
            None => first_location(ls.drop_first(), needle),
        }
    }
}

/// Where a failed test's report points into its own file (see
/// [`line_location`]), the first such line of the long report.
pub open spec fn longrepr_location_spec(nodeid_file: Seq<char>, longrepr: Seq<char>) -> Option<TestLocation> {
    first_location(lines(longrepr), slashes(nodeid_file))
}

fn location_from_exec(caps: Option<(String, String)>, needle: &str) -> (res: Option<TestLocation>)
    ensures
        res == location_from(
            match caps {
                Some((a, b)) => Some((a@, b@)),
                None => None,
            },
            needle@,
        ),
{
    match caps {
        None => None,
        Some((file_raw, num)) => {
            let file = slashes_str(file_raw.as_str());
            match parse_i64_str(num.as_str()) {
                None => None,
                Some(n) => {
                    if (ends_with_str(file.as_str(), needle) || ends_with_str(needle, file.as_str())) && n > 0 {
                        Some(TestLocation { line: n, column: 1 })
                    } else {
                        None
                    }
                },
            }
        },
    }
}

/// The location of a failure in its test file, read from pytest's long
/// report (see [`longrepr_location_spec`]).
pub fn infer_test_location_from_pytest_longrepr(nodeid_file: &str, longrepr: &str) -> (res: Option<TestLocation>)
    ensures
        res == longrepr_location_spec(nodeid_file@, longrepr@),
{
    let needle = slashes_str(nodeid_file);
    let ls = lines_of(longrepr);
    let ghost lv = views(ls@);
    let mut i: usize = 0;
    assert(lv.skip(0) =~= lv);
    while i < ls.len()
        invariant
            i <= ls.len(),
            lv == views(ls@),
            lv == lines(longrepr@),
            needle@ == slashes(nodeid_file@),
            first_location(lv, needle@) == first_location(lv.skip(i as int), needle@),
        decreases ls.len() - i,
    {
        let line = ls[i].as_str();
        assert(lv.skip(i as int)[0] == line@);
        let first = location_from_exec(captures2(PY_FILE_LINE_PATTERN, line), needle.as_str());
        let found = match first {
            Some(l) => Some(l),
            None => location_from_exec(captures2(PY_PATH_COLON_LINE_PATTERN, line), needle.as_str()),
        };
        if found.is_some() {
            return found;
        }
        assert(lv.skip(i as int).drop_first() =~= lv.skip(i + 1));
        i = i + 1;
    }
    assert(lv.skip(i as int) =~= Seq::<Seq<char>>::empty());
    None
}

/// A selection token that names a test file: a `.py` file, a path, or a
/// node id (`file::test`).
pub open spec fn is_pytest_path_token(t: Seq<char>) -> bool {
    ends_with(t, ".py"@) || contains(t, "/"@) || contains(t, "\\"@) || contains(t, "::"@)
}

/// The file of a token: what stands before its first `::`.
pub open spec fn token_file(t: Seq<char>) -> Seq<char> {
    match split_once(t, "::"@) {
        Some((f, _)) => f,
        None => t,
    }
}

/// The tokens that name files, each with the path of its file under the
/// repository, in order.
pub open spec fn pytest_candidates_spec(repo_root: Seq<char>, tokens: Seq<Seq<char>>) -> Seq<(Seq<char>, Seq<char>)>
    decreases tokens.len(),
{
    if tokens.len() == 0 {
        Seq::empty()
    } else {
        let r = pytest_candidates_spec(repo_root, tokens.drop_last());
        let t = tokens.last();
        if is_pytest_path_token(t) {
            r.push((t, path_join_of(repo_root, token_file(t))))
        } else {
            r
        }
    }
}

pub open spec fn pair_views(v: Seq<(String, String)>) -> Seq<(Seq<char>, Seq<char>)> {
    v.map_values(|p: (String, String)| (p.0@, p.1@))
}

/// The selection tokens that name files, with their files' paths (see
/// [`pytest_candidates_spec`]); which of those exist the caller reads from
/// the disk.
pub fn pytest_candidate_files(repo_root: &str, tokens: &Vec<String>) -> (res: Vec<(String, String)>)
    ensures
        pair_views(res@) == pytest_candidates_spec(repo_root@, views(tokens@)),
{
    let ghost tv = views(tokens@);
    let mut out: Vec<(String, String)> = Vec::new();
    let mut i: usize = 0;
    while i < tokens.len()
        invariant
            i <= tokens.len(),
            tv == views(tokens@),
            pair_views(out@) == pytest_candidates_spec(repo_root@, tv.take(i as int)),
        decreases tokens.len() - i,
    {
        assert(tv.take(i + 1).drop_last() =~= tv.take(i as int));
        assert(tv.take(i + 1).last() == tokens@[i as int]@);
        let t = tokens[i].as_str();
        let is_path = ends_with_str(t, ".py") || contains_str(t, "/") || contains_str(t, "\\") || contains_str(t, "::");
        if is_path {
            let file = match split_once_str(t, "::") {
                Some((f, _)) => f,
                None => owned(t),
            };
            let abs = path_join(repo_root, file.as_str());
            let ghost before = pair_views(out@);
            let ghost pv = (t@, abs@);
            out.push((owned(t), abs));
            assert(pair_views(out@) =~= before.push(pv));
        }
        i = i + 1;
    }
    assert(tv.take(tokens.len() as int) =~= tv);
    out
}

/// Which tests a pytest run selects: the tokens whose files are known
/// tests; else, the files named that exist but are no tests, whose tests
/// are found from them; else all tests when nothing changed; else the tests
/// of the changed files.
pub enum PytestSelection {
    Explicit(Vec<String>),
    FromSeeds(Vec<String>),
    AllTests,
    FromChanged,
}

/// The existing candidates, split into known tests (their tokens) and
/// other files (their paths).
pub open spec fn split_candidates(
    cands: Seq<(Seq<char>, Seq<char>)>,
    exists: Seq<bool>,
    all_tests: Seq<Seq<char>>,
) -> (Seq<Seq<char>>, Seq<Seq<char>>)
    decreases cands.len(),
{
    if cands.len() == 0 || exists.len() != cands.len() {
        (Seq::empty(), Seq::empty())
    } else {
        let r = split_candidates(cands.drop_last(), exists.drop_last(), all_tests);
        let c = cands.last();
        if !exists.last() {
            r
        } else if all_tests.contains(c.1) {
            (r.0.push(c.0), r.1)
        } else {
            (r.0, r.1.push(c.1))
        }
    }
}

pub open spec fn selection_view(s: PytestSelection) -> (nat, Seq<Seq<char>>) {
    match s {
        PytestSelection::Explicit(v) => (0, views(v@)),
        PytestSelection::FromSeeds(v) => (1, views(v@)),
        PytestSelection::AllTests => (2, Seq::empty()),
        PytestSelection::FromChanged => (3, Seq::empty()),
    }
}

/// What a pytest run selects (see [`PytestSelection`]); `exists[i]` tells
/// whether the file of `candidates[i]` exists.
pub open spec fn pytest_selection_spec(
    cands: Seq<(Seq<char>, Seq<char>)>,
    exists: Seq<bool>,
    all_tests: Seq<Seq<char>>,
    nothing_changed: bool,
) -> (nat, Seq<Seq<char>>) {
    let (explicit, seeds) = split_candidates(cands, exists, all_tests);
    if explicit.len() > 0 {
        (0, explicit)
    } else if seeds.len() > 0 {
        (1, seeds)
    } else if nothing_changed {
        (2, Seq::empty())
    } else {
        (3, Seq::empty())
    }
}

pub fn pytest_selection_plan(
    candidates: &Vec<(String, String)>,
    exists: &Vec<bool>,
    all_tests: &Vec<String>,
    nothing_changed: bool,
) -> (res: PytestSelection)
    requires
        exists.len() == candidates.len(),
    ensures
        selection_view(res) == pytest_selection_spec(pair_views(candidates@), exists@, views(all_tests@), nothing_changed),
{
    let ghost cv = pair_views(candidates@);
    let mut explicit: Vec<String> = Vec::new();
    let mut seeds: Vec<String> = Vec::new();
    let mut i: usize = 0;
    while i < candidates.len()
        invariant
            i <= candidates.len(),
            exists.len() == candidates.len(),
            cv == pair_views(candidates@),
            (views(explicit@), views(seeds@)) == split_candidates(cv.take(i as int), exists@.take(i as int), views(all_tests@)),
        decreases candidates.len() - i,
    {
        assert(cv.take(i + 1).drop_last() =~= cv.take(i as int));
        assert(exists@.take(i + 1).drop_last() =~= exists@.take(i as int));
        assert(cv.take(i + 1).last() == (candidates@[i as int].0@, candidates@[i as int].1@));
        assert(exists@.take(i + 1).last() == exists@[i as int]);
        if exists[i] {
            let abs = candidates[i].1.as_str();
            if crate::fast_related::contains_string(all_tests, abs) {
                let ghost before = views(explicit@);
                explicit.push(owned(candidates[i].0.as_str()));
                assert(views(explicit@) =~= before.push(candidates@[i as int].0@));
            } else {
                let ghost before = views(seeds@);
                seeds.push(owned(abs));
                assert(views(seeds@) =~= before.push(candidates@[i as int].1@));
            }
        }
        i = i + 1;
    }
    assert(cv.take(candidates.len() as int) =~= cv);
    assert(exists@.take(candidates.len() as int) =~= exists@);
    if explicit.len() > 0 {
        PytestSelection::Explicit(explicit)
    } else if seeds.len() > 0 {
        PytestSelection::FromSeeds(seeds)
    } else if nothing_changed {
        PytestSelection::AllTests
    } else {
        PytestSelection::FromChanged
    }
}

} // verus!
