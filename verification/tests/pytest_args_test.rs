use headlamp::pytest_args::{
    apply_run_timing_to_model, build_pytest_cmd_args, infer_test_location_from_pytest_longrepr, pytest_bin,
    rewrite_pytest_runner_args_for_no_artifacts,
};
use headlamp::test_model::{TestLocation, TestRunAggregated, TestRunModel};

fn s(v: &[&str]) -> Vec<String> {
    v.iter().map(|x| x.to_string()).collect()
}

#[test]
fn lcov_reports_are_moved_when_artifacts_are_not_kept() {
    let args = s(&["-k", "x", "--cov-report=lcov:old.info", "--cov-report", "lcov:other", "--cov-report", "html"]);
    assert_eq!(
        rewrite_pytest_runner_args_for_no_artifacts(false, &args, "/s/lcov.info"),
        s(&["-k", "x", "--cov-report=lcov:/s/lcov.info", "--cov-report", "lcov:/s/lcov.info", "--cov-report", "html"])
    );
    assert_eq!(rewrite_pytest_runner_args_for_no_artifacts(true, &args, "/s/lcov.info"), args);
    assert_eq!(
        rewrite_pytest_runner_args_for_no_artifacts(false, &s(&["--cov-report"]), "p"),
        s(&["--cov-report"])
    );
}

#[test]
fn pytest_command_line() {
    assert_eq!(pytest_bin(), "pytest");
    let plain = build_pytest_cmd_args(true, &s(&["-x"]), false, &s(&["tests/test_a.py"]), "cov.info");
    assert_eq!(
        plain,
        s(&["-p", "headlamp_pytest_plugin", "--tb=long", "--no-header", "--no-summary", "-q", "-x", "tests/test_a.py"])
    );
    let cov = build_pytest_cmd_args(false, &[], true, &[], "/s/lcov.info");
    assert_eq!(
        cov,
        s(&[
            "-p",
            "headlamp_pytest_plugin",
            "--tb=long",
            "--no-header",
            "--no-summary",
            "-q",
            "-p",
            "no:cacheprovider",
            "--cov=.",
            "--cov-report=lcov:/s/lcov.info",
        ])
    );
    let given = build_pytest_cmd_args(true, &s(&["--cov=pkg", "--cov-report=lcov:mine.info"]), true, &[], "x");
    assert_eq!(given.len(), 8);
    assert_eq!(given[6], "--cov=pkg");
}

#[test]
fn run_timing_goes_into_the_model() {
    let mut m = TestRunModel {
        start_time: 0,
        test_results: vec![],
        aggregated: TestRunAggregated {
            num_total_test_suites: 1,
            num_passed_test_suites: 1,
            num_failed_test_suites: 0,
            num_total_tests: 0,
            num_passed_tests: 0,
            num_failed_tests: 0,
            num_pending_tests: 0,
            num_todo_tests: 0,
            num_timed_out_tests: None,
            num_timed_out_test_suites: None,
            start_time: 0,
            success: true,
            run_time_ms: None,
        },
    };
    apply_run_timing_to_model(&mut m, 1000, 25);
    assert_eq!(m.start_time, 1000);
    assert_eq!(m.aggregated.start_time, 1000);
    assert_eq!(m.aggregated.run_time_ms, Some(25));
    assert_eq!(m.aggregated.num_total_test_suites, 1);
}

#[test]
fn failure_locations_from_long_reports() {
    let longrepr = "def test_x():\n  File \"/repo/other.py\", line 3, in f\n  File \"/repo/tests/test_a.py\", line 12, in test_x\ntests/test_a.py:14: AssertionError";
    assert_eq!(
        infer_test_location_from_pytest_longrepr("tests/test_a.py", longrepr),
        Some(TestLocation { line: 12, column: 1 })
    );
    assert_eq!(
        infer_test_location_from_pytest_longrepr("tests\\test_a.py", "tests/test_a.py:14: AssertionError"),
        Some(TestLocation { line: 14, column: 1 })
    );
    assert_eq!(infer_test_location_from_pytest_longrepr("tests/test_a.py", "tests/test_a.py:0: x"), None);
    assert_eq!(infer_test_location_from_pytest_longrepr("tests/test_a.py", "nothing"), None);
}

#[test]
fn pytest_selection_tokens_and_plan() {
    use_selection();
}

fn use_selection() {
    let tokens = vec![
        "tests/test_a.py::test_x".to_string(),
        "-k".to_string(),
        "src/mod.py".to_string(),
        "name_only".to_string(),
        "pkg\\b.py".to_string(),
    ];
    let cands = headlamp::pytest_args::pytest_candidate_files("/r", &tokens);
    assert_eq!(
        cands,
        vec![
            ("tests/test_a.py::test_x".to_string(), "/r/tests/test_a.py".to_string()),
            ("src/mod.py".to_string(), "/r/src/mod.py".to_string()),
            ("pkg\\b.py".to_string(), "/r/pkg\\b.py".to_string()),
        ]
    );
    let all_tests = vec!["/r/tests/test_a.py".to_string()];
    match headlamp::pytest_args::pytest_selection_plan(&cands, &vec![true, true, false], &all_tests, true) {
        headlamp::pytest_args::PytestSelection::Explicit(v) => assert_eq!(v, vec!["tests/test_a.py::test_x".to_string()]),
        _ => panic!("expected the explicit tests"),
    }
    match headlamp::pytest_args::pytest_selection_plan(&cands, &vec![false, true, false], &all_tests, true) {
        headlamp::pytest_args::PytestSelection::FromSeeds(v) => assert_eq!(v, vec!["/r/src/mod.py".to_string()]),
        _ => panic!("expected seeds"),
    }
    assert!(matches!(
        headlamp::pytest_args::pytest_selection_plan(&cands, &vec![false, false, false], &all_tests, true),
        headlamp::pytest_args::PytestSelection::AllTests
    ));
    assert!(matches!(
        headlamp::pytest_args::pytest_selection_plan(&cands, &vec![false, false, false], &all_tests, false),
        headlamp::pytest_args::PytestSelection::FromChanged
    ));
}
