use headlamp::jest_args::{
    aggregate_project_runs, append_cache_and_execution_flags, append_coverage_flags, append_test_selection_args,
    build_base_cmd_args, build_cmd_args, collect_coverage_from_args, coverage_dir_for_config_in_root,
    coverage_dir_suffix_for_config, ensure_watchman_disabled_by_default, global_threshold_parts,
    should_print_coverage_threshold_failure_summary, should_skip_project, titlecase_first, JestRunOptions,
    ProjectRunOutput,
};
use headlamp::jest_selection::{
    append_missing_paths_preserving_order, exclude_globs_for_selection, production_seeds_abs, selection_is_tests_only,
    selection_key, selection_key_for_production_seeds,
};
use headlamp::test_model::{TestRunAggregated, TestRunModel};

fn s(v: &[&str]) -> Vec<String> {
    v.iter().map(|x| x.to_string()).collect()
}

#[test]
fn base_flags() {
    let with_paths = build_base_cmd_args("/t/setup.cjs", "/t/reporter.cjs", false);
    assert_eq!(
        with_paths,
        s(&[
            "--testLocationInResults",
            "--setupFilesAfterEnv",
            "/t/setup.cjs",
            "--colors",
            "--passWithNoTests",
            "--verbose",
            "--reporters",
            "/t/reporter.cjs",
            "--reporters",
            "default",
            "--runTestsByPath",
        ])
    );
    let by_name = build_base_cmd_args("a", "b", true);
    assert_eq!(by_name.len(), 10);
    assert_eq!(by_name.last().unwrap(), "default");
}

#[test]
fn watchman_and_cache_flags() {
    let mut a = s(&["x"]);
    ensure_watchman_disabled_by_default(&mut a);
    assert_eq!(a, s(&["x", "--no-watchman"]));
    let mut b = s(&["--watchman=false"]);
    ensure_watchman_disabled_by_default(&mut b);
    assert_eq!(b, s(&["--watchman=false"]));
    let mut c = s(&["--no-cache"]);
    append_cache_and_execution_flags(&mut c, true, true);
    assert_eq!(c, s(&["--no-cache", "--runInBand"]));
    let mut d: Vec<String> = vec![];
    append_cache_and_execution_flags(&mut d, true, false);
    assert_eq!(d, s(&["--no-cache"]));
}

#[test]
fn coverage_directories() {
    assert_eq!(coverage_dir_suffix_for_config("/r/jest.config ts@.js"), "jest.config_ts_.js");
    assert_eq!(coverage_dir_suffix_for_config("/"), "default");
    assert_eq!(coverage_dir_for_config_in_root("/r/jest.config.js", "/cov"), "/cov/jest/jest.config.js");
}

#[test]
fn collect_coverage_from_selected_production_files() {
    let paths = s(&["/r/src/a.ts", "/r/src/a.test.ts", "/elsewhere/b.ts", "rel.ts", "/r/src/c.ts"]);
    let is_test = vec![false, true, false, false, false];
    assert_eq!(
        collect_coverage_from_args("/r", &paths, &is_test),
        s(&["--collectCoverageFrom", "./src/a.ts", "--collectCoverageFrom", "./src/c.ts"])
    );
}

#[test]
fn coverage_flags_are_added_once() {
    let mut a = s(&["--coverage=true"]);
    append_coverage_flags(&mut a, true, "/r/jest.config.js", "/cov", "/r", &[], &vec![]);
    assert_eq!(a, s(&["--coverage=true", "--coverageDirectory=/cov/jest/jest.config.js"]));
    let mut b: Vec<String> = vec![];
    append_coverage_flags(&mut b, true, "/r/jest.config.js", "/cov", "/r", &[], &vec![]);
    assert_eq!(b.len(), 6);
    assert_eq!(b[0], "--coverage");
    let mut c = s(&["x"]);
    append_coverage_flags(&mut c, false, "/r/jest.config.js", "/cov", "/r", &[], &vec![]);
    assert_eq!(c, s(&["x"]));
}

#[test]
fn selection_arguments() {
    let mut a: Vec<String> = vec![];
    append_test_selection_args(&mut a, &s(&["t1"]), false, &s(&["p"]));
    assert_eq!(a, s(&["t1"]));
    let mut b: Vec<String> = vec![];
    append_test_selection_args(&mut b, &[], false, &s(&["p"]));
    assert_eq!(b, s(&["p"]));
    let mut c: Vec<String> = vec![];
    append_test_selection_args(&mut c, &[], true, &s(&["p"]));
    assert!(c.is_empty());
    assert!(should_skip_project(&s(&["/a"]), &[], true));
    assert!(should_skip_project(&[], &[], false));
    assert!(!should_skip_project(&[], &[], true));
    assert!(!should_skip_project(&[], &s(&["t"]), false));
}

#[test]
fn whole_project_command_line() {
    let opts = JestRunOptions {
        runner_args: s(&["--ci"]),
        show_logs: true,
        no_cache: true,
        sequential: false,
        collect_coverage: false,
        selection_paths: s(&["src"]),
    };
    let cmd = build_cmd_args(&s(&["--colors"]), "/r/jest.config.js", "jest.config.js", &[], &opts, false, "/cov", "/r", &[], &vec![]);
    assert_eq!(
        cmd,
        s(&["--colors", "--config", "jest.config.js", "--ci", "--no-watchman", "--no-cache", "--no-silent", "src"])
    );
}

#[test]
fn coverage_summary_helpers() {
    assert!(should_print_coverage_threshold_failure_summary(1, &s(&["x"])));
    assert!(!should_print_coverage_threshold_failure_summary(0, &s(&["x"])));
    assert!(!should_print_coverage_threshold_failure_summary(1, &vec![]));
    assert_eq!(titlecase_first("lines"), "Lines");
    assert_eq!(titlecase_first(""), "\0");
    assert_eq!(
        global_threshold_parts("Jest: \"global\" coverage threshold for lines (80%) not met: 75.5%"),
        Some(("Lines".to_string(), "80".to_string(), "75.5".to_string()))
    );
    assert_eq!(global_threshold_parts("other"), None);
}

#[test]
fn selections() {
    assert_eq!(exclude_globs_for_selection(&s(&["**/tests/**", "dist/**"])), s(&["dist/**"]));
    assert_eq!(
        append_missing_paths_preserving_order(s(&["a", "b"]), s(&["b", "c", "c"])),
        s(&["a", "b", "c", "c"])
    );
    assert_eq!(selection_key_for_production_seeds("/r", &s(&["/r/b.ts", "/x/y.ts", "/r/a.ts", "/r/b.ts"])), "a.ts|b.ts");
    let paths = s(&["/r/a.ts", "/r/a.test.ts"]);
    assert!(!selection_is_tests_only(&paths, &vec![false, true]));
    assert!(selection_is_tests_only(&paths, &vec![true, true]));
    assert!(!selection_is_tests_only(&[], &vec![]));
    assert_eq!(production_seeds_abs(&paths, &vec![false, true]), s(&["/r/a.ts"]));
    assert_eq!(selection_key("/r", &paths, false, &s(&["/r/b.ts", "/r/a.ts"])), Some("b.ts|a.ts".to_string()));
    assert_eq!(selection_key("/r", &paths, true, &[]), None);
}

fn model(start: u64) -> TestRunModel {
    TestRunModel {
        start_time: start,
        test_results: vec![],
        aggregated: TestRunAggregated {
            num_total_test_suites: 0,
            num_passed_test_suites: 0,
            num_failed_test_suites: 0,
            num_total_tests: 0,
            num_passed_tests: 0,
            num_failed_tests: 0,
            num_pending_tests: 0,
            num_todo_tests: 0,
            num_timed_out_tests: None,
            num_timed_out_test_suites: None,
            start_time: start,
            success: true,
            run_time_ms: None,
        },
    }
}

#[test]
fn project_runs_are_combined() {
    let runs = vec![
        ProjectRunOutput {
            exit_code: 1,
            bridge: Some(model(1)),
            captured_stdout: s(&["o1"]),
            captured_stderr: vec![],
            coverage_failure_lines: s(&["c", "d"]),
            raw_output: "r1".to_string(),
        },
        ProjectRunOutput {
            exit_code: 0,
            bridge: None,
            captured_stdout: s(&["o2"]),
            captured_stderr: s(&["e2"]),
            coverage_failure_lines: s(&["d", "e"]),
            raw_output: "r2".to_string(),
        },
    ];
    let a = aggregate_project_runs(runs);
    assert_eq!(a.exit_code, 1);
    assert_eq!(a.bridges.len(), 1);
    assert_eq!(a.bridges[0].start_time, 1);
    assert_eq!(a.captured_stdout, s(&["o1", "o2"]));
    assert_eq!(a.captured_stderr, s(&["e2"]));
    assert_eq!(a.coverage_failure_lines, s(&["c", "d", "e"]));
    assert_eq!(a.raw_output_all, s(&["r1", "r2"]));
    let none = aggregate_project_runs(vec![]);
    assert_eq!(none.exit_code, 0);
}

#[test]
fn should_print_coverage_threshold_failure_summary_only_when_threshold_lines_exist() {
    let empty: Vec<String> = Vec::new();
    assert!(!should_print_coverage_threshold_failure_summary(1, &empty));
    assert!(!should_print_coverage_threshold_failure_summary(0, &empty));

    let mut non_empty: Vec<String> = Vec::new();
    non_empty.push("Lines: 99.00% < 100% (short 1.00%)".to_string());
    assert!(should_print_coverage_threshold_failure_summary(1, &non_empty));
    assert!(!should_print_coverage_threshold_failure_summary(0, &non_empty));
}
