//! A run model for a failure outside any test (the runner could not start,
//! a build broke): one failed suite holding one failed test.
use crate::test_model::{TestCaseResult, TestRunAggregated, TestRunModel, TestSuiteResult};
use crate::text::owned;
use vstd::prelude::*;

verus! {

/// One failed suite `suite_path` with one failed test `test_name` whose
/// failure message is `failure_message`; the counts say one suite and one
/// test, both failed, and the run is not a success.
pub fn build_infra_failure_test_run_model(
    suite_path: &str,
    test_name: &str,
    failure_message: &str,
) -> (res: TestRunModel)
    ensures
        res@.start_time == 0,
        res@.test_results.len() == 1,
        res@.test_results[0].test_file_path == suite_path@,
        res@.test_results[0].status == "failed"@,
        res@.test_results[0].timed_out is None,
        res@.test_results[0].failure_message.len() == 0,
        res@.test_results[0].failure_details is None,
        res@.test_results[0].test_exec_error is None,
        res@.test_results[0].console is None,
        res@.test_results[0].test_results.len() == 1,
        res@.test_results[0].test_results[0].title == test_name@,
        res@.test_results[0].test_results[0].full_name == test_name@,
        res@.test_results[0].test_results[0].status == "failed"@,
        res@.test_results[0].test_results[0].timed_out is None,
        res@.test_results[0].test_results[0].duration == 0,
        res@.test_results[0].test_results[0].location is None,
        res@.test_results[0].test_results[0].failure_messages == seq![failure_message@],
        res@.test_results[0].test_results[0].failure_details is None,
        res.aggregated == (TestRunAggregated {
            num_total_test_suites: 1,
            num_passed_test_suites: 0,
            num_failed_test_suites: 1,
            num_total_tests: 1,
            num_passed_tests: 0,
            num_failed_tests: 1,
            num_pending_tests: 0,
            num_todo_tests: 0,
            num_timed_out_tests: None,
            num_timed_out_test_suites: None,
            start_time: 0,
            success: false,
            run_time_ms: Some(0),
        }),
{
    let mut messages: Vec<String> = Vec::new();
    messages.push(owned(failure_message));
    let case = TestCaseResult {
        title: owned(test_name),
        full_name: owned(test_name),
        status: owned("failed"),
        timed_out: None,
        duration: 0,
        location: None,
        failure_messages: messages,
        failure_details: None,
    };
    let mut cases: Vec<TestCaseResult> = Vec::new();
    cases.push(case);
    let suite = TestSuiteResult {
        test_file_path: owned(suite_path),
        status: owned("failed"),
        timed_out: None,
        failure_message: String::new(),
        failure_details: None,
        test_exec_error: None,
        console: None,
        test_results: cases,
    };
    let mut suites: Vec<TestSuiteResult> = Vec::new();
    suites.push(suite);
    let res = TestRunModel {
        start_time: 0,
        test_results: suites,
        aggregated: TestRunAggregated {
            num_total_test_suites: 1,
            num_passed_test_suites: 0,
            num_failed_test_suites: 1,
            num_total_tests: 1,
            num_passed_tests: 0,
            num_failed_tests: 1,
            num_pending_tests: 0,
            num_todo_tests: 0,
            num_timed_out_tests: None,
            num_timed_out_test_suites: None,
            start_time: 0,
            success: false,
            run_time_ms: Some(0),
        },
    };
    assert(res@.test_results[0].test_results[0].failure_messages =~= seq![failure_message@]);
    res
}

} // verus!
