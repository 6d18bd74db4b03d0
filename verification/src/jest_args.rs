//! The command line of a Jest run for one project: the base flags, the
//! configuration, cache, coverage and selection arguments; and the lines
//! of Jest's output that report coverage thresholds not met.
use crate::fast_related::contains_string;
use crate::jest_selection::exclude_globs_spec;
use crate::path_names::{path_file_name, path_file_name_of, path_join, path_join_of, path_strip_prefix,
    path_strip_prefix_of};
use crate::format::failure_diagnostics::{slashes, slashes_str};
use crate::test_model::opt_seq;
use crate::text::{
    chars_of, concat2, contains, owned, split_once, split_once_str, starts_with, starts_with_str, str_eq,
    string_of, strip_prefix, strip_prefix_str, strip_suffix, strip_suffix_str, trim, trim_str, views,
};
use crate::fast_related::{dedup_first, dedup_first_strings};
use crate::test_model::{copy_suites, TestRunModel, TestRunView};
use vstd::prelude::*;

verus! {

/// What a Jest run reads of the command line.
pub struct JestRunOptions {
    pub runner_args: Vec<String>,
    pub show_logs: bool,
    pub no_cache: bool,
    pub sequential: bool,
    pub collect_coverage: bool,
    pub selection_paths: Vec<String>,
}

/// The flags every Jest run gets: test locations, the setup file, colours,
/// no failure without tests, verbose output, the bridge reporter and the
/// default one; `--runTestsByPath` unless the selection is only a name
/// pattern.
pub open spec fn base_cmd_args_spec(setup_path: Seq<char>, reporter_path: Seq<char>, name_pattern_only: bool) -> Seq<
    Seq<char>,
> {
    let base = seq![
        "--testLocationInResults"@,
        "--setupFilesAfterEnv"@,
        setup_path,
        "--colors"@,
        "--passWithNoTests"@,
        "--verbose"@,
        "--reporters"@,
        reporter_path,
        "--reporters"@,
        "default"@,
    ];
    if name_pattern_only {
        base
    } else {
        base.push("--runTestsByPath"@)
    }
}

pub fn build_base_cmd_args(setup_path: &str, reporter_path: &str, name_pattern_only_for_discovery: bool) -> (res:
    Vec<String>)
    ensures
        views(res@) == base_cmd_args_spec(setup_path@, reporter_path@, name_pattern_only_for_discovery),
{
    let mut v: Vec<String> = Vec::new();
    v.push(owned("--testLocationInResults"));
    v.push(owned("--setupFilesAfterEnv"));
    v.push(owned(setup_path));
    v.push(owned("--colors"));
    v.push(owned("--passWithNoTests"));
    v.push(owned("--verbose"));
    v.push(owned("--reporters"));
    v.push(owned(reporter_path));
    v.push(owned("--reporters"));
    v.push(owned("default"));
    if !name_pattern_only_for_discovery {
        v.push(owned("--runTestsByPath"));
    }
    assert(views(v@) =~= base_cmd_args_spec(setup_path@, reporter_path@, name_pattern_only_for_discovery));
    v
}

/// A token that says whether to use watchman.
pub open spec fn is_watchman_flag(t: Seq<char>) -> bool {
    t == "--no-watchman"@ || t == "--watchman"@ || starts_with(t, "--watchman="@)
}

/// The arguments with `--no-watchman` added unless a watchman flag is
/// given.
pub open spec fn watchman_spec(args: Seq<Seq<char>>) -> Seq<Seq<char>> {
    if exists|k: int| 0 <= k < args.len() && is_watchman_flag(#[trigger] args[k]) {
        args
    } else {
        args.push("--no-watchman"@)
    }
}

pub fn ensure_watchman_disabled_by_default(jest_args: &mut Vec<String>)
    ensures
        views(final(jest_args)@) == watchman_spec(views(old(jest_args)@)),
{
    let ghost av = views(jest_args@);
    let mut i: usize = 0;
    while i < jest_args.len()
        invariant
            i <= jest_args.len(),
            av == views(jest_args@),
            forall|k: int| 0 <= k < i ==> !is_watchman_flag(#[trigger] av[k]),
        decreases jest_args.len() - i,
    {
        let t = jest_args[i].as_str();
        assert(av[i as int] == t@);
        if str_eq(t, "--no-watchman") || str_eq(t, "--watchman") || starts_with_str(t, "--watchman=") {
            assert(is_watchman_flag(av[i as int]));
            return;
        }
        i = i + 1;
    }
    let ghost before = views(jest_args@);
    jest_args.push(owned("--no-watchman"));
    assert(views(jest_args@) =~= before.push("--no-watchman"@));
}

/// `--no-cache` added when asked for and not given; `--runInBand` added
/// for a sequential run.
pub open spec fn cache_flags_spec(args: Seq<Seq<char>>, no_cache: bool, sequential: bool) -> Seq<Seq<char>> {
    let a = if no_cache && !args.contains("--no-cache"@) {
        args.push("--no-cache"@)
    } else {
        args
    };
    if sequential {
        a.push("--runInBand"@)
    } else {
        a
    }
}

pub fn append_cache_and_execution_flags(cmd_args: &mut Vec<String>, no_cache: bool, sequential: bool)
    ensures
        views(final(cmd_args)@) == cache_flags_spec(views(old(cmd_args)@), no_cache, sequential),
{
    proof {
        reveal_strlit("--no-cache");
    }
    if no_cache && !contains_string(cmd_args, "--no-cache") {
        let ghost before = views(cmd_args@);
        cmd_args.push(owned("--no-cache"));
        assert(views(cmd_args@) =~= before.push("--no-cache"@));
    }
    if sequential {
        let ghost before = views(cmd_args@);
        cmd_args.push(owned("--runInBand"));
        assert(views(cmd_args@) =~= before.push("--runInBand"@));
    }
}

/// A character kept in a directory name: ASCII letters and digits, `.`,
/// `_` and `-`; others become `_`.
pub open spec fn dir_safe_char(c: char) -> char {
    if ('a' <= c && c <= 'z') || ('A' <= c && c <= 'Z') || ('0' <= c && c <= '9') || c == '.' || c == '_' || c
        == '-' {
        c
    } else {
        '_'
    }
}

/// The coverage directory name of a configuration: its file name (or
/// `default`), each unsafe character turned into `_`.
pub open spec fn coverage_dir_suffix_spec(cfg_path: Seq<char>) -> Seq<char> {
    let base = match path_file_name_of(cfg_path) {
        Some(n) => n,
        None => "default"@,
    };
    base.map_values(|c: char| dir_safe_char(c))
}

pub fn coverage_dir_suffix_for_config(cfg_path: &str) -> (res: String)
    ensures
        res@ == coverage_dir_suffix_spec(cfg_path@),
{
    let base = match path_file_name(cfg_path) {
        Some(n) => n,
        None => owned("default"),
    };
    let v = chars_of(base.as_str());
    let mut out: Vec<char> = Vec::new();
    let mut i: usize = 0;
    while i < v.len()
        invariant
            i <= v.len(),
            v@ == base@,
            out@ == base@.map_values(|c: char| dir_safe_char(c)).take(i as int),
        decreases v.len() - i,
    {
        let c = v[i];
        let keep = ('a' <= c && c <= 'z') || ('A' <= c && c <= 'Z') || ('0' <= c && c <= '9') || c == '.' || c
            == '_' || c == '-';
        out.push(
            if keep {
                c
            } else {
                '_'
            },
        );
        assert(base@.map_values(|c: char| dir_safe_char(c)).take(i + 1) =~= base@.map_values(
            |c: char| dir_safe_char(c),
        ).take(i as int).push(dir_safe_char(c)));
        i = i + 1;
    }
    assert(base@.map_values(|c: char| dir_safe_char(c)).take(v.len() as int) =~= base@.map_values(
        |c: char| dir_safe_char(c),
    ));
    string_of(&out)
}

/// `<coverage_root>/jest/<suffix>`.
pub open spec fn coverage_dir_spec(cfg_path: Seq<char>, coverage_root: Seq<char>) -> Seq<char> {
    path_join_of(path_join_of(coverage_root, "jest"@), coverage_dir_suffix_spec(cfg_path))
}

pub fn coverage_dir_for_config_in_root(cfg_path: &str, coverage_root: &str) -> (res: String)
    ensures
        res@ == coverage_dir_spec(cfg_path@, coverage_root@),
{
    let jest = path_join(coverage_root, "jest");
    let suffix = coverage_dir_suffix_for_config(cfg_path);
    path_join(jest.as_str(), suffix.as_str())
}

/// A relative path that stays inside the repository.
pub open spec fn inside_repo(rel: Seq<char>) -> bool {
    rel.len() > 0 && !starts_with(rel, "../"@) && !starts_with(rel, "./../"@)
}

/// A relative path written with a leading `./`.
pub open spec fn dot_relative(rel: Seq<char>) -> Seq<char> {
    if starts_with(rel, "./"@) {
        rel
    } else {
        "./"@ + rel
    }
}

/// `--collectCoverageFrom <path>` for each selected production file (a
/// path with a `/` that is no test file) that lies inside the repository,
/// in order.
pub open spec fn collect_coverage_spec(repo_root: Seq<char>, paths: Seq<Seq<char>>, is_test: Seq<bool>) -> Seq<
    Seq<char>,
>
    decreases paths.len(),
{
    if paths.len() == 0 || is_test.len() != paths.len() {
        Seq::empty()
    } else {
        let r = collect_coverage_spec(repo_root, paths.drop_last(), is_test.drop_last());
        let abs = paths.last();
        if contains(abs, seq!['/']) && !is_test.last() {
            match path_strip_prefix_of(abs, repo_root) {
                Some(p) => if inside_repo(slashes(p)) {
                    r + seq!["--collectCoverageFrom"@, dot_relative(slashes(p))]
                } else {
                    r
                },
                None => r,
            }
        } else {
            r
        }
    }
}

/// The `--collectCoverageFrom` arguments (see [`collect_coverage_spec`]);
/// `is_test[i]` tells whether path `i` is a test file.
pub fn collect_coverage_from_args(repo_root: &str, selection_paths_abs: &[String], is_test: &Vec<bool>) -> (res:
    Vec<String>)
    requires
        is_test.len() == selection_paths_abs.len(),
    ensures
        views(res@) == collect_coverage_spec(repo_root@, views(selection_paths_abs@), is_test@),
{
    let ghost pv = views(selection_paths_abs@);
    let mut out: Vec<String> = Vec::new();
    let mut i: usize = 0;
    proof {
        reveal_strlit("../");
        reveal_strlit("./../");
        reveal_strlit("./");
    }
    while i < selection_paths_abs.len()
        invariant
            i <= selection_paths_abs.len(),
            is_test.len() == selection_paths_abs.len(),
            pv == views(selection_paths_abs@),
            views(out@) == collect_coverage_spec(repo_root@, pv.take(i as int), is_test@.take(i as int)),
        decreases selection_paths_abs.len() - i,
    {
        assert(pv.take(i + 1).drop_last() =~= pv.take(i as int));
        assert(is_test@.take(i + 1).drop_last() =~= is_test@.take(i as int));
        assert(pv.take(i + 1).last() == selection_paths_abs@[i as int]@);
        let abs = selection_paths_abs[i].as_str();
        if crate::text::contains_char(abs, '/') && !is_test[i] {
            match path_strip_prefix(abs, repo_root) {
                Some(p) => {
                    let rel = slashes_str(p.as_str());
                    if !rel.as_str().is_empty() && !starts_with_str(rel.as_str(), "../") && !starts_with_str(
                        rel.as_str(),
                        "./../",
                    ) {
                        let shown = if starts_with_str(rel.as_str(), "./") {
                            rel
                        } else {
                            concat2("./", rel.as_str())
                        };
                        let ghost before = views(out@);
                        let ghost sv = shown@;
                        out.push(owned("--collectCoverageFrom"));
                        out.push(shown);
                        assert(views(out@) =~= before + seq!["--collectCoverageFrom"@, sv]);
                    }
                },
                None => {},
            }
        }
        i = i + 1;
    }
    assert(pv.take(selection_paths_abs.len() as int) =~= pv);
    assert(is_test@.take(selection_paths_abs.len() as int) =~= is_test@);
    out
}

/// A token that asks for coverage.
pub open spec fn is_coverage_flag(t: Seq<char>) -> bool {
    t == "--coverage"@ || starts_with(t, "--coverage="@)
}

pub open spec fn default_coverage_flags() -> Seq<Seq<char>> {
    seq![
        "--coverage"@,
        "--coverageProvider=babel"@,
        "--coverageReporters=lcov"@,
        "--coverageReporters=json"@,
        "--coverageReporters=text-summary"@,
    ]
}

/// Nothing when coverage is not collected; else the default coverage
/// flags unless coverage is asked for already, the coverage directory of
/// the configuration, and the `--collectCoverageFrom` arguments.
pub open spec fn coverage_flags_spec(
    args: Seq<Seq<char>>,
    collect_coverage: bool,
    cfg_path: Seq<char>,
    coverage_root: Seq<char>,
    repo_root: Seq<char>,
    paths: Seq<Seq<char>>,
    is_test: Seq<bool>,
) -> Seq<Seq<char>> {
    if !collect_coverage {
        args
    } else {
        let a = if exists|k: int| 0 <= k < args.len() && is_coverage_flag(#[trigger] args[k]) {
            args
        } else {
            args + default_coverage_flags()
        };
        a.push("--coverageDirectory="@ + coverage_dir_spec(cfg_path, coverage_root)) + collect_coverage_spec(
            repo_root,
            paths,
            is_test,
        )
    }
}

pub fn append_coverage_flags(
    cmd_args: &mut Vec<String>,
    collect_coverage: bool,
    cfg_path: &str,
    coverage_root: &str,
    repo_root: &str,
    selection_paths_abs: &[String],
    is_test: &Vec<bool>,
)
    requires
        is_test.len() == selection_paths_abs.len(),
    ensures
        views(final(cmd_args)@) == coverage_flags_spec(
            views(old(cmd_args)@),
            collect_coverage,
            cfg_path@,
            coverage_root@,
            repo_root@,
            views(selection_paths_abs@),
            is_test@,
        ),
{
    if !collect_coverage {
        return;
    }
    let ghost av = views(cmd_args@);
    let mut found_cov = false;
    let mut i: usize = 0;
    while i < cmd_args.len()
        invariant
            i <= cmd_args.len(),
            av == views(cmd_args@),
            found_cov <==> exists|k: int| 0 <= k < i && is_coverage_flag(#[trigger] av[k]),
        decreases cmd_args.len() - i,
    {
        let t = cmd_args[i].as_str();
        assert(av[i as int] == t@);
        if str_eq(t, "--coverage") || starts_with_str(t, "--coverage=") {
            found_cov = true;
        }
        i = i + 1;
    }
    if !found_cov {
        let ghost before = views(cmd_args@);
        cmd_args.push(owned("--coverage"));
        cmd_args.push(owned("--coverageProvider=babel"));
        cmd_args.push(owned("--coverageReporters=lcov"));
        cmd_args.push(owned("--coverageReporters=json"));
        cmd_args.push(owned("--coverageReporters=text-summary"));
        assert(views(cmd_args@) =~= before + default_coverage_flags());
    }
    let dir = coverage_dir_for_config_in_root(cfg_path, coverage_root);
    let ghost before = views(cmd_args@);
    cmd_args.push(concat2("--coverageDirectory=", dir.as_str()));
    assert(views(cmd_args@) =~= before.push("--coverageDirectory="@ + dir@));
    let extra = collect_coverage_from_args(repo_root, selection_paths_abs, is_test);
    let ghost mid = views(cmd_args@);
    let mut j: usize = 0;
    while j < extra.len()
        invariant
            j <= extra.len(),
            views(cmd_args@) == mid + views(extra@).take(j as int),
        decreases extra.len() - j,
    {
        let ghost b = views(cmd_args@);
        cmd_args.push(owned(extra[j].as_str()));
        assert(views(cmd_args@) =~= b.push(extra@[j as int]@));
        assert(views(extra@).take(j + 1) =~= views(extra@).take(j as int).push(extra@[j as int]@));
        j = j + 1;
    }
    assert(views(extra@).take(extra.len() as int) =~= views(extra@));
}

/// The project's tests when it has any; else the selected paths, unless
/// the selection is only a name pattern.
pub open spec fn selection_args_spec(
    args: Seq<Seq<char>>,
    tests_for_project: Seq<Seq<char>>,
    name_pattern_only: bool,
    selection_paths: Seq<Seq<char>>,
) -> Seq<Seq<char>> {
    if tests_for_project.len() > 0 {
        args + tests_for_project
    } else if !name_pattern_only {
        args + selection_paths
    } else {
        args
    }
}

fn extend_strings(out: &mut Vec<String>, items: &[String])
    ensures
        views(final(out)@) == views(old(out)@) + views(items@),
{
    let ghost start = views(out@);
    let mut j: usize = 0;
    while j < items.len()
        invariant
            j <= items.len(),
            views(out@) == start + views(items@).take(j as int),
        decreases items.len() - j,
    {
        let ghost b = views(out@);
        out.push(owned(items[j].as_str()));
        assert(views(out@) =~= b.push(items@[j as int]@));
        assert(views(items@).take(j + 1) =~= views(items@).take(j as int).push(items@[j as int]@));
        j = j + 1;
    }
    assert(views(items@).take(items.len() as int) =~= views(items@));
}

pub fn append_test_selection_args(
    cmd_args: &mut Vec<String>,
    tests_for_project: &[String],
    name_pattern_only_for_discovery: bool,
    selection_paths: &[String],
)
    ensures
        views(final(cmd_args)@) == selection_args_spec(
            views(old(cmd_args)@),
            views(tests_for_project@),
            name_pattern_only_for_discovery,
            views(selection_paths@),
        ),
{
    if tests_for_project.len() > 0 {
        extend_strings(cmd_args, tests_for_project);
        return;
    }
    if !name_pattern_only_for_discovery {
        extend_strings(cmd_args, selection_paths);
    } else {
        assert(views(cmd_args@) =~= views(cmd_args@));
    }
}

/// The whole command line of a project's run: the base flags, its
/// configuration and the runner's arguments, the watchman, cache and
/// coverage flags, `--no-silent` when logs are shown, and the selection.
pub open spec fn build_cmd_args_spec(
    base_cmd_args: Seq<Seq<char>>,
    cfg_path: Seq<char>,
    cfg_token: Seq<char>,
    tests_for_project: Seq<Seq<char>>,
    runner_args: Seq<Seq<char>>,
    show_logs: bool,
    no_cache: bool,
    sequential: bool,
    collect_coverage: bool,
    selection_paths: Seq<Seq<char>>,
    name_pattern_only: bool,
    coverage_root: Seq<char>,
    repo_root: Seq<char>,
    selection_paths_abs: Seq<Seq<char>>,
    is_test: Seq<bool>,
) -> Seq<Seq<char>> {
    let s0 = base_cmd_args + seq!["--config"@, cfg_token] + runner_args;
    let s1 = watchman_spec(s0);
    let s2 = cache_flags_spec(s1, no_cache, sequential);
    let s3 = coverage_flags_spec(
        s2,
        collect_coverage,
        cfg_path,
        coverage_root,
        repo_root,
        selection_paths_abs,
        is_test,
    );
    let s4 = if show_logs {
        s3.push("--no-silent"@)
    } else {
        s3
    };
    selection_args_spec(s4, tests_for_project, name_pattern_only, selection_paths)
}

/// The command line of a project's run (see [`build_cmd_args_spec`]).
pub fn build_cmd_args(
    base_cmd_args: &[String],
    cfg_path: &str,
    cfg_token: &str,
    tests_for_project: &[String],
    opts: &JestRunOptions,
    name_pattern_only_for_discovery: bool,
    coverage_root: &str,
    repo_root: &str,
    selection_paths_abs: &[String],
    is_test: &Vec<bool>,
) -> (res: Vec<String>)
    requires
        is_test.len() == selection_paths_abs.len(),
    ensures
        views(res@) == build_cmd_args_spec(
            views(base_cmd_args@),
            cfg_path@,
            cfg_token@,
            views(tests_for_project@),
            views(opts.runner_args@),
            opts.show_logs,
            opts.no_cache,
            opts.sequential,
            opts.collect_coverage,
            views(opts.selection_paths@),
            name_pattern_only_for_discovery,
            coverage_root@,
            repo_root@,
            views(selection_paths_abs@),
            is_test@,
        ),
{
    let mut cmd_args: Vec<String> = Vec::new();
    assert(views(cmd_args@) =~= Seq::<Seq<char>>::empty());
    extend_strings(&mut cmd_args, base_cmd_args);
    let ghost b = views(cmd_args@);
    cmd_args.push(owned("--config"));
    cmd_args.push(owned(cfg_token));
    assert(views(cmd_args@) =~= b + seq!["--config"@, cfg_token@]);
    extend_strings(&mut cmd_args, opts.runner_args.as_slice());
    assert(views(cmd_args@) =~= views(base_cmd_args@) + seq!["--config"@, cfg_token@] + views(opts.runner_args@));
    ensure_watchman_disabled_by_default(&mut cmd_args);
    append_cache_and_execution_flags(&mut cmd_args, opts.no_cache, opts.sequential);
    append_coverage_flags(
        &mut cmd_args,
        opts.collect_coverage,
        cfg_path,
        coverage_root,
        repo_root,
        selection_paths_abs,
        is_test,
    );
    if opts.show_logs {
        let ghost b2 = views(cmd_args@);
        cmd_args.push(owned("--no-silent"));
        assert(views(cmd_args@) =~= b2.push("--no-silent"@));
    }
    append_test_selection_args(
        &mut cmd_args,
        tests_for_project,
        name_pattern_only_for_discovery,
        opts.selection_paths.as_slice(),
    );
    cmd_args
}

/// A project is skipped when it has no tests to run, unless paths were
/// not selected and the selection is only a name pattern.
pub open spec fn skip_project_spec(selection_paths_abs_len: nat, tests_len: nat, name_pattern_only: bool) -> bool {
    tests_len == 0 && (selection_paths_abs_len > 0 || !name_pattern_only)
}

pub fn should_skip_project(
    selection_paths_abs: &[String],
    tests_for_project: &[String],
    name_pattern_only_for_discovery: bool,
) -> (res: bool)
    ensures
        res == skip_project_spec(
            selection_paths_abs.len() as nat,
            tests_for_project.len() as nat,
            name_pattern_only_for_discovery,
        ),
{
    tests_for_project.len() == 0 && (selection_paths_abs.len() > 0 || !name_pattern_only_for_discovery)
}

/// The threshold summary is printed when the run failed and threshold
/// failures were read from its output.
pub fn should_print_coverage_threshold_failure_summary(exit_code: i32, coverage_failure_lines: &Vec<String>) -> (res:
    bool)
    ensures
        res == (exit_code != 0 && coverage_failure_lines.len() > 0),
{
    exit_code != 0 && coverage_failure_lines.len() > 0
}

/// The text with its first character in ASCII upper case; an empty text
/// gives the NUL character, as a missing first character defaults to it.
pub open spec fn titlecase_first_spec(text: Seq<char>) -> Seq<char> {
    if text.len() == 0 {
        seq!['\0']
    } else {
        seq![crate::text::ascii_upper_char(text[0])] + text.drop_first()
    }
}

pub fn titlecase_first(text: &str) -> (res: String)
    ensures
        res@ == titlecase_first_spec(text@),
{
    let v = chars_of(text);
    if v.len() == 0 {
        let mut out: Vec<char> = Vec::new();
        out.push('\0');
        return string_of(&out);
    }
    let mut out: Vec<char> = Vec::new();
    out.push(crate::text::ascii_upper_char_exec(v[0]));
    let mut i: usize = 1;
    while i < v.len()
        invariant
            1 <= i <= v.len(),
            v@ == text@,
            out@ == seq![crate::text::ascii_upper_char(text@[0])] + text@.subrange(1, i as int),
        decreases v.len() - i,
    {
        out.push(v[i]);
        assert(text@.subrange(1, i + 1) =~= text@.subrange(1, i as int).push(v@[i as int]));
        i = i + 1;
    }
    assert(text@.subrange(1, v.len() as int) =~= text@.drop_first());
    string_of(&out)
}

/// The parts of a `Jest: "global" coverage threshold for <metric> (<n>%)
/// not met: <m>%` line: the metric with its first letter in upper case,
/// and the expected and actual percentages as written.
pub open spec fn global_threshold_parts_spec(line: Seq<char>) -> Option<(Seq<char>, Seq<char>, Seq<char>)> {
    match strip_prefix(line, "Jest: \"global\" coverage threshold for "@) {
        None => None,
        Some(rest) => match split_once(rest, " ("@) {
            None => None,
            Some((metric_raw, rest2)) => match split_once(rest2, "%)"@) {
                None => None,
                Some((expected_raw, rest3)) => match split_once(rest3, "not met:"@) {
                    None => None,
                    Some((_, actual_part)) => match strip_suffix(trim(actual_part), seq!['%']) {
                        None => None,
                        Some(a) => Some((titlecase_first_spec(trim(metric_raw)), trim(expected_raw), trim(a))),
                    },
                },
            },
        },
    }
}

/// The parts of a global threshold failure line (see
/// [`global_threshold_parts_spec`]); the percentages are read and shown by
/// the caller.
pub fn global_threshold_parts(line: &str) -> (res: Option<(String, String, String)>)
    ensures
        match res {
            Some((m, e, a)) => global_threshold_parts_spec(line@) == Some((m@, e@, a@)),
            None => global_threshold_parts_spec(line@) is None,
        },
{
    let rest = strip_prefix_str(line, "Jest: \"global\" coverage threshold for ")?;
    let (metric_raw, rest2) = split_once_str(rest.as_str(), " (")?;
    let (expected_raw, rest3) = split_once_str(rest2.as_str(), "%)")?;
    let (_, actual_part) = split_once_str(rest3.as_str(), "not met:")?;
    proof {
        reveal_strlit("%");
        assert("%"@ =~= seq!['%']);
    }
    let a = strip_suffix_str(trim_str(actual_part.as_str()).as_str(), "%")?;
    Some((titlecase_first(trim_str(metric_raw.as_str()).as_str()), trim_str(expected_raw.as_str()), trim_str(a.as_str())))
}


/// What one project's Jest run gave.
pub struct ProjectRunOutput {
    pub exit_code: i32,
    pub bridge: Option<TestRunModel>,
    pub captured_stdout: Vec<String>,
    pub captured_stderr: Vec<String>,
    pub coverage_failure_lines: Vec<String>,
    pub raw_output: String,
}

/// What the runs of all projects gave together.
pub struct AggregatedProjectRuns {
    pub exit_code: i32,
    pub bridges: Vec<TestRunModel>,
    pub captured_stdout: Vec<String>,
    pub captured_stderr: Vec<String>,
    pub coverage_failure_lines: Vec<String>,
    pub raw_output_all: Vec<String>,
}

/// The highest exit code, and 0 when there is none above it.
pub open spec fn agg_exit(rs: Seq<ProjectRunOutput>) -> i32
    decreases rs.len(),
{
    if rs.len() == 0 {
        0
    } else {
        let m = agg_exit(rs.drop_last());
        if rs.last().exit_code > m {
            rs.last().exit_code
        } else {
            m
        }
    }
}

/// The run models that were read, project after project.
pub open spec fn agg_bridges(rs: Seq<ProjectRunOutput>) -> Seq<TestRunView>
    decreases rs.len(),
{
    if rs.len() == 0 {
        Seq::empty()
    } else {
        match rs.last().bridge {
            Some(b) => agg_bridges(rs.drop_last()).push(b@),
            None => agg_bridges(rs.drop_last()),
        }
    }
}

/// Output lines of the kind `k` (0 stdout, 1 stderr, 2 coverage failures),
/// project after project.
pub open spec fn agg_lines(rs: Seq<ProjectRunOutput>, k: nat) -> Seq<Seq<char>>
    decreases rs.len(),
{
    if rs.len() == 0 {
        Seq::empty()
    } else {
        agg_lines(rs.drop_last(), k) + views(
            if k == 0 {
                rs.last().captured_stdout@
            } else if k == 1 {
                rs.last().captured_stderr@
            } else {
                rs.last().coverage_failure_lines@
            },
        )
    }
}

/// Exit codes combined by maximum, models, output and raw output collected
/// in project order, coverage failure lines each kept once, first seen
/// first.
pub open spec fn aggregated_runs_ok(rs: Seq<ProjectRunOutput>, a: AggregatedProjectRuns) -> bool {
    &&& a.exit_code == agg_exit(rs)
    &&& a.bridges@.map_values(|m: TestRunModel| m@) == agg_bridges(rs)
    &&& views(a.captured_stdout@) == agg_lines(rs, 0)
    &&& views(a.captured_stderr@) == agg_lines(rs, 1)
    &&& views(a.coverage_failure_lines@) == dedup_first(agg_lines(rs, 2))
    &&& views(a.raw_output_all@) == rs.map_values(|r: ProjectRunOutput| r.raw_output@)
}

fn push_all(out: &mut Vec<String>, items: &Vec<String>)
    ensures
        views(final(out)@) == views(old(out)@) + views(items@),
{
    extend_strings(out, items.as_slice());
}

/// Combines the runs of all projects (see [`aggregated_runs_ok`]).
pub fn aggregate_project_runs(per_project_results: Vec<ProjectRunOutput>) -> (res: AggregatedProjectRuns)
    ensures
        aggregated_runs_ok(per_project_results@, res),
{
    let rs = per_project_results;
    let ghost all = rs@;
    let mut exit_code: i32 = 0;
    let mut bridges: Vec<TestRunModel> = Vec::new();
    let mut out: Vec<String> = Vec::new();
    let mut err: Vec<String> = Vec::new();
    let mut cov: Vec<String> = Vec::new();
    let mut raw: Vec<String> = Vec::new();
    let mut i: usize = 0;
    while i < rs.len()
        invariant
            i <= rs.len(),
            all == rs@,
            exit_code == agg_exit(all.take(i as int)),
            bridges@.map_values(|m: TestRunModel| m@) == agg_bridges(all.take(i as int)),
            views(out@) == agg_lines(all.take(i as int), 0),
            views(err@) == agg_lines(all.take(i as int), 1),
            views(cov@) == agg_lines(all.take(i as int), 2),
            views(raw@) == all.take(i as int).map_values(|r: ProjectRunOutput| r.raw_output@),
        decreases rs.len() - i,
    {
        let r = &rs[i];
        assert(all.take(i + 1).drop_last() =~= all.take(i as int));
        assert(all.take(i + 1).last() == *r);
        if r.exit_code > exit_code {
            exit_code = r.exit_code;
        }
        match &r.bridge {
            Some(b) => {
                let ghost before = bridges@.map_values(|m: TestRunModel| m@);
                let copy = TestRunModel {
                    start_time: b.start_time,
                    test_results: copy_suites(&b.test_results),
                    aggregated: b.aggregated,
                };
                bridges.push(copy);
                assert(bridges@.map_values(|m: TestRunModel| m@) =~= before.push(b@));
            },
            None => {},
        }
        push_all(&mut out, &r.captured_stdout);
        push_all(&mut err, &r.captured_stderr);
        push_all(&mut cov, &r.coverage_failure_lines);
        let ghost rb = views(raw@);
        raw.push(owned(r.raw_output.as_str()));
        assert(views(raw@) =~= rb.push(r.raw_output@));
        assert(all.take(i + 1).map_values(|r: ProjectRunOutput| r.raw_output@) =~= all.take(i as int).map_values(
            |r: ProjectRunOutput| r.raw_output@,
        ).push(r.raw_output@));
        i = i + 1;
    }
    assert(all.take(rs.len() as int) =~= all);
    let coverage_failure_lines = dedup_first_strings(cov);
    AggregatedProjectRuns {
        exit_code,
        bridges,
        captured_stdout: out,
        captured_stderr: err,
        coverage_failure_lines,
        raw_output_all: raw,
    }
}


proof fn lemma_steps_extend(
    s2: Seq<Seq<char>>,
    collect_coverage: bool,
    cfg_path: Seq<char>,
    coverage_root: Seq<char>,
    repo_root: Seq<char>,
    paths: Seq<Seq<char>>,
    is_test: Seq<bool>,
    show_logs: bool,
    tests: Seq<Seq<char>>,
    name_pattern_only: bool,
    selection_paths: Seq<Seq<char>>,
)
    ensures
        ({
            let s3 = coverage_flags_spec(s2, collect_coverage, cfg_path, coverage_root, repo_root, paths, is_test);
            let s4 = if show_logs {
                s3.push("--no-silent"@)
            } else {
                s3
            };
            let s5 = selection_args_spec(s4, tests, name_pattern_only, selection_paths);
            s5.len() >= s2.len() && s5.subrange(0, s2.len() as int) == s2
        }),
{
    let s3 = coverage_flags_spec(s2, collect_coverage, cfg_path, coverage_root, repo_root, paths, is_test);
    let s4 = if show_logs {
        s3.push("--no-silent"@)
    } else {
        s3
    };
    let s5 = selection_args_spec(s4, tests, name_pattern_only, selection_paths);
    assert(s3.len() >= s2.len() && s3.subrange(0, s2.len() as int) =~= s2);
    assert(s4.len() >= s3.len() && s4.subrange(0, s3.len() as int) =~= s3);
    assert(s5.len() >= s4.len() && s5.subrange(0, s4.len() as int) =~= s4);
    assert(s5.subrange(0, s2.len() as int) =~= s4.subrange(0, s3.len() as int).subrange(0, s2.len() as int));
}

/// A project's command line starts with the base flags and its
/// configuration (`--config <token>`), and always says whether to use
/// watchman.
pub proof fn law_cmd_args_config_and_watchman(
    base_cmd_args: Seq<Seq<char>>,
    cfg_path: Seq<char>,
    cfg_token: Seq<char>,
    tests_for_project: Seq<Seq<char>>,
    runner_args: Seq<Seq<char>>,
    show_logs: bool,
    no_cache: bool,
    sequential: bool,
    collect_coverage: bool,
    selection_paths: Seq<Seq<char>>,
    name_pattern_only: bool,
    coverage_root: Seq<char>,
    repo_root: Seq<char>,
    selection_paths_abs: Seq<Seq<char>>,
    is_test: Seq<bool>,
)
    ensures
        ({
            let r = build_cmd_args_spec(
                base_cmd_args,
                cfg_path,
                cfg_token,
                tests_for_project,
                runner_args,
                show_logs,
                no_cache,
                sequential,
                collect_coverage,
                selection_paths,
                name_pattern_only,
                coverage_root,
                repo_root,
                selection_paths_abs,
                is_test,
            );
            &&& r.len() >= base_cmd_args.len() + 2
            &&& r.subrange(0, base_cmd_args.len() as int) == base_cmd_args
            &&& r[base_cmd_args.len() as int] == "--config"@
            &&& r[base_cmd_args.len() + 1int] == cfg_token
            &&& exists|k: int| 0 <= k < r.len() && is_watchman_flag(#[trigger] r[k])
        }),
{
    let s0 = base_cmd_args + seq!["--config"@, cfg_token] + runner_args;
    let s1 = watchman_spec(s0);
    let s2 = cache_flags_spec(s1, no_cache, sequential);
    lemma_steps_extend(
        s2,
        collect_coverage,
        cfg_path,
        coverage_root,
        repo_root,
        selection_paths_abs,
        is_test,
        show_logs,
        tests_for_project,
        name_pattern_only,
        selection_paths,
    );
    let r = build_cmd_args_spec(
        base_cmd_args,
        cfg_path,
        cfg_token,
        tests_for_project,
        runner_args,
        show_logs,
        no_cache,
        sequential,
        collect_coverage,
        selection_paths,
        name_pattern_only,
        coverage_root,
        repo_root,
        selection_paths_abs,
        is_test,
    );
    assert(s1.len() >= s0.len() && s1.subrange(0, s0.len() as int) =~= s0);
    assert(s2.len() >= s1.len() && s2.subrange(0, s1.len() as int) =~= s1);
    let w = choose|k: int| 0 <= k < s1.len() && is_watchman_flag(#[trigger] s1[k]);
    if exists|k: int| 0 <= k < s1.len() && is_watchman_flag(#[trigger] s1[k]) {
        assert(r[w] == s2[w]) by {
            assert(r.subrange(0, s2.len() as int)[w] == r[w]);
        }
        assert(s2[w] == s1[w]) by {
            assert(s2.subrange(0, s1.len() as int)[w] == s2[w]);
        }
        assert(is_watchman_flag(r[w]));
    } else {
        if exists|k: int| 0 <= k < s0.len() && is_watchman_flag(#[trigger] s0[k]) {
            let k = choose|k: int| 0 <= k < s0.len() && is_watchman_flag(#[trigger] s0[k]);
            assert(s1 == s0);
            assert(false);
        }
        assert(s1 == s0.push("--no-watchman"@));
        assert(is_watchman_flag(s1[s0.len() as int]));
        assert(false);
    }
    assert(r[base_cmd_args.len() as int] == s0[base_cmd_args.len() as int]) by {
        assert(r.subrange(0, s2.len() as int)[base_cmd_args.len() as int] == r[base_cmd_args.len() as int]);
        assert(s2.subrange(0, s1.len() as int)[base_cmd_args.len() as int] == s2[base_cmd_args.len() as int]);
        assert(s1.subrange(0, s0.len() as int)[base_cmd_args.len() as int] == s1[base_cmd_args.len() as int]);
    }
    assert(r[base_cmd_args.len() + 1int] == s0[base_cmd_args.len() + 1int]) by {
        assert(r.subrange(0, s2.len() as int)[base_cmd_args.len() + 1int] == r[base_cmd_args.len() + 1int]);
        assert(s2.subrange(0, s1.len() as int)[base_cmd_args.len() + 1int] == s2[base_cmd_args.len() + 1int]);
        assert(s1.subrange(0, s0.len() as int)[base_cmd_args.len() + 1int] == s1[base_cmd_args.len() + 1int]);
    }
    assert(r.subrange(0, base_cmd_args.len() as int) =~= base_cmd_args) by {
        assert forall|i: int| 0 <= i < base_cmd_args.len() implies r.subrange(0, base_cmd_args.len() as int)[i]
            == base_cmd_args[i] by {
            assert(r.subrange(0, s2.len() as int)[i] == r[i]);
            assert(s2.subrange(0, s1.len() as int)[i] == s2[i]);
            assert(s1.subrange(0, s0.len() as int)[i] == s1[i]);
        }
    }
}


/// The combined exit code of project runs is the highest of their codes
/// and never below 0: it is at least every project's code, it is some
/// project's code unless it is 0, it is 0 when there is no project, and
/// when a project exited with a failing (positive) code the combined code
/// is failing too.
pub proof fn law_combined_exit_code(rs: Seq<ProjectRunOutput>, a: AggregatedProjectRuns)
    requires
        aggregated_runs_ok(rs, a),
    ensures
        a.exit_code >= 0,
        forall|i: int| 0 <= i < rs.len() ==> a.exit_code >= (#[trigger] rs[i]).exit_code,
        a.exit_code == 0 || exists|i: int| 0 <= i < rs.len() && (#[trigger] rs[i]).exit_code == a.exit_code,
        rs.len() == 0 ==> a.exit_code == 0,
        (exists|i: int| 0 <= i < rs.len() && (#[trigger] rs[i]).exit_code > 0) ==> a.exit_code > 0,
{
    lemma_agg_exit_max(rs);
}

proof fn lemma_agg_exit_max(rs: Seq<ProjectRunOutput>)
    ensures
        agg_exit(rs) >= 0,
        forall|i: int| 0 <= i < rs.len() ==> agg_exit(rs) >= (#[trigger] rs[i]).exit_code,
        agg_exit(rs) == 0 || exists|i: int| 0 <= i < rs.len() && (#[trigger] rs[i]).exit_code == agg_exit(rs),
    decreases rs.len(),
{
    if rs.len() > 0 {
        let p = rs.drop_last();
        lemma_agg_exit_max(p);
        assert forall|i: int| 0 <= i < rs.len() implies agg_exit(rs) >= (#[trigger] rs[i]).exit_code by {
            if i < p.len() {
                assert(rs[i] == p[i]);
            }
        }
        if agg_exit(rs) != 0 {
            if agg_exit(rs) == rs.last().exit_code {
                assert(rs[rs.len() - 1].exit_code == agg_exit(rs));
            } else {
                let k = choose|k: int| 0 <= k < p.len() && (#[trigger] p[k]).exit_code == agg_exit(p);
                assert(rs[k] == p[k]);
            }
        }
    }
}

} // verus!
