use headlamp::jest_bridge::{
    filter_bridge_for_name_pattern_only, looks_like_assertion_failure, looks_sparse, merge_bridge_json,
    merge_sparse_bridge_and_raw, missing_fail_header_code_frame, normalize_abs_posix,
    reorder_test_results_original_style, should_skip_run_tests_by_path_for_name_pattern_only, split_footer,
};
use headlamp::test_model::{TestCaseResult, TestRunAggregated, TestRunModel, TestSuiteResult};

fn s(v: &[&str]) -> Vec<String> {
    v.iter().map(|x| x.to_string()).collect()
}

fn case(name: &str, status: &str) -> TestCaseResult {
    TestCaseResult {
        title: name.to_string(),
        full_name: name.to_string(),
        status: status.to_string(),
        timed_out: None,
        duration: 0,
        location: None,
        failure_messages: vec![],
        failure_details: None,
    }
}

fn suite(path: &str, status: &str, cases: Vec<TestCaseResult>) -> TestSuiteResult {
    TestSuiteResult {
        test_file_path: path.to_string(),
        status: status.to_string(),
        timed_out: None,
        failure_message: String::new(),
        failure_details: None,
        test_exec_error: None,
        console: None,
        test_results: cases,
    }
}

fn agg(total_suites: u64, success: bool, run_time: Option<u64>) -> TestRunAggregated {
    TestRunAggregated {
        num_total_test_suites: total_suites,
        num_passed_test_suites: total_suites,
        num_failed_test_suites: 0,
        num_total_tests: 2,
        num_passed_tests: 2,
        num_failed_tests: 0,
        num_pending_tests: 1,
        num_todo_tests: 0,
        num_timed_out_tests: None,
        num_timed_out_test_suites: Some(1),
        start_time: 5,
        success,
        run_time_ms: run_time,
    }
}

fn paths(v: &[TestSuiteResult]) -> Vec<String> {
    v.iter().map(|f| f.test_file_path.clone()).collect()
}

#[test]
fn sparse_when_a_bare_error_is_shown() {
    assert!(looks_sparse("FAIL x\nError:\n\nmore"));
    assert!(!looks_sparse("Error:\n\n    Message:\n  boom"));
    assert!(!looks_sparse("all good"));
}

#[test]
fn sparse_when_the_code_frame_is_missing() {
    let text = "FAIL  src/a.test.ts\n  x\n  Expected: 1\n  Received: 2";
    assert!(looks_sparse(text));
    let framed = "FAIL  src/a.test.ts\n  > 12 | expect(a).toBe(1)\n  Expected: 1";
    assert!(!looks_sparse(framed));
    assert!(missing_fail_header_code_frame(&s(&["FAIL  a", "b", "c"])));
    assert!(!missing_fail_header_code_frame(&s(&["no header"])));
    assert!(looks_like_assertion_failure("Assertion: x"));
    assert!(!looks_like_assertion_failure("nothing"));
}

#[test]
fn footer_split_and_sparse_merge() {
    assert_eq!(
        split_footer("a\nTest Files 1\nb\nTest Files 2\nc"),
        ("a\nTest Files 1\nb".to_string(), "Test Files 2\nc".to_string())
    );
    assert_eq!(split_footer("no footer"), ("no footer".to_string(), String::new()));
    let merged = merge_sparse_bridge_and_raw("bridge body  \nTest Files 1 failed", "raw body\nTest Files 9");
    assert_eq!(merged, "bridge body\nraw body\nTest Files 1 failed");
    assert_eq!(merge_sparse_bridge_and_raw("", "raw"), "raw");
}

#[test]
fn name_pattern_only_selection() {
    let none: Vec<String> = vec![];
    assert!(should_skip_run_tests_by_path_for_name_pattern_only(true, false, &none, &none, &s(&["-t", "adds"])));
    assert!(should_skip_run_tests_by_path_for_name_pattern_only(
        true,
        false,
        &none,
        &none,
        &s(&["--testNamePattern=adds"])
    ));
    assert!(!should_skip_run_tests_by_path_for_name_pattern_only(false, false, &none, &none, &s(&["-t", "x"])));
    assert!(!should_skip_run_tests_by_path_for_name_pattern_only(true, true, &none, &none, &s(&["-t", "x"])));
    assert!(!should_skip_run_tests_by_path_for_name_pattern_only(true, false, &s(&["/a"]), &none, &s(&["-t"])));
    assert!(!should_skip_run_tests_by_path_for_name_pattern_only(true, false, &none, &none, &s(&["--ci"])));
}

#[test]
fn name_pattern_filter_keeps_what_ran() {
    let mut broken = suite("/r/c.test.ts", "failed", vec![case("z", "pending")]);
    broken.failure_message = "Cannot find module".to_string();
    let model = TestRunModel {
        start_time: 7,
        test_results: vec![
            suite("/r/a.test.ts", "passed", vec![case("a1", "passed"), case("a2", "pending")]),
            suite("/r/b.test.ts", "passed", vec![case("b1", "skipped")]),
            broken,
            suite("/r/d.test.ts", "failed", vec![case("d1", "failed"), case("d2", "passed")]),
        ],
        aggregated: agg(4, true, Some(99)),
    };
    let out = filter_bridge_for_name_pattern_only(model);
    assert_eq!(paths(&out.test_results), s(&["/r/a.test.ts", "/r/c.test.ts", "/r/d.test.ts"]));
    assert_eq!(out.test_results[0].test_results.len(), 1);
    assert!(out.test_results[1].test_results.is_empty());
    let a = out.aggregated;
    assert_eq!(a.num_total_test_suites, 3);
    assert_eq!(a.num_failed_test_suites, 2);
    assert_eq!(a.num_passed_test_suites, 1);
    assert_eq!(a.num_total_tests, 3);
    assert_eq!(a.num_passed_tests, 2);
    assert_eq!(a.num_failed_tests, 1);
    assert_eq!(a.num_pending_tests, 0);
    assert!(!a.success);
    assert_eq!(a.run_time_ms, Some(99));
    assert_eq!(out.start_time, 7);
}

#[test]
fn normalizing_paths() {
    assert_eq!(normalize_abs_posix("/a\\b", Some("/cwd")), "/a/b");
    assert_eq!(normalize_abs_posix("x\\y.ts", Some("/cwd")), "/cwd/x/y.ts");
    assert_eq!(normalize_abs_posix("x.ts", None), "x.ts");
}

#[test]
fn report_order_reverses_a_clean_unranked_run() {
    let mut v = vec![suite("/a", "passed", vec![]), suite("/b", "passed", vec![]), suite("/c", "passed", vec![])];
    reorder_test_results_original_style(&mut v, &vec![], Some("/"));
    assert_eq!(paths(&v), s(&["/c", "/b", "/a"]));
}

#[test]
fn report_order_sorts_by_rank_then_path() {
    let mut v = vec![
        suite("/z", "passed", vec![]),
        suite("/b", "passed", vec![]),
        suite("/a", "passed", vec![]),
        suite("/m", "passed", vec![]),
    ];
    let ranks = vec![("/m".to_string(), 0i64), ("/z".to_string(), 1i64)];
    reorder_test_results_original_style(&mut v, &ranks, Some("/"));
    assert_eq!(paths(&v), s(&["/m", "/z", "/a", "/b"]));

    let mut w = vec![suite("/b", "passed", vec![]), suite("/a", "failed", vec![])];
    reorder_test_results_original_style(&mut w, &vec![], Some("/"));
    assert_eq!(paths(&w), s(&["/a", "/b"]));
}

#[test]
fn merging_project_runs() {
    assert!(merge_bridge_json(&[], &vec![], None).is_none());
    let one = TestRunModel {
        start_time: 3,
        test_results: vec![suite("/a", "passed", vec![]), suite("/b", "passed", vec![])],
        aggregated: agg(2, true, None),
    };
    let merged_one = merge_bridge_json(&[one.clone()], &vec![], Some("/")).unwrap();
    assert_eq!(paths(&merged_one.test_results), s(&["/b", "/a"]));
    assert_eq!(merged_one.start_time, 3);

    let mut two = TestRunModel {
        start_time: 1,
        test_results: vec![suite("/c", "failed", vec![case("c", "failed")])],
        aggregated: agg(1, false, Some(10)),
    };
    two.aggregated.num_timed_out_tests = Some(2);
    let merged = merge_bridge_json(&[one, two], &vec![], Some("/")).unwrap();
    assert_eq!(paths(&merged.test_results), s(&["/a", "/b", "/c"]));
    assert_eq!(merged.start_time, 1);
    let a = merged.aggregated;
    assert_eq!(a.start_time, 1);
    assert_eq!(a.num_total_test_suites, 3);
    assert_eq!(a.num_total_tests, 4);
    assert_eq!(a.num_pending_tests, 2);
    assert_eq!(a.num_timed_out_tests, Some(2));
    assert_eq!(a.num_timed_out_test_suites, Some(2));
    assert_eq!(a.run_time_ms, Some(10));
    assert!(!a.success);
}
