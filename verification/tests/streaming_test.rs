use headlamp::jest_streaming::{
    merge_console_entries_into_bridge_json, JestStreamingAdapter, OutputStream, StreamAction,
};
use headlamp::test_model::{TestConsoleEntry, TestRunAggregated, TestRunModel, TestSuiteResult};

fn suite(path: &str, console: Option<Vec<TestConsoleEntry>>) -> TestSuiteResult {
    TestSuiteResult {
        test_file_path: path.to_string(),
        status: "passed".to_string(),
        timed_out: None,
        failure_message: String::new(),
        failure_details: None,
        test_exec_error: None,
        console,
        test_results: vec![],
    }
}

fn entry(message: &str) -> TestConsoleEntry {
    TestConsoleEntry { message: Some(message.to_string()), entry_type: None, origin: None }
}

fn messages(entries: &Option<Vec<TestConsoleEntry>>) -> Vec<String> {
    entries
        .as_ref()
        .map(|v| v.iter().map(|e| e.message.clone().unwrap_or_default()).collect())
        .unwrap_or_default()
}

#[test]
fn plain_lines_are_captured_and_echoed() {
    let mut a = JestStreamingAdapter::new(true);
    assert_eq!(a.on_start(), Some("jest".to_string()));
    let out = a.on_line(OutputStream::Stdout, "PASS a.test.ts");
    assert!(matches!(out.as_slice(), [StreamAction::PrintStdout(t)] if t == "PASS a.test.ts"));
    let err = a.on_line(OutputStream::Stderr, "warning");
    assert!(matches!(err.as_slice(), [StreamAction::PrintStderr(t)] if t == "warning"));
    assert_eq!(a.captured_stdout, vec!["PASS a.test.ts".to_string()]);
    assert_eq!(a.captured_stderr, vec!["warning".to_string()]);
}

#[test]
fn quiet_adapter_only_captures() {
    let mut a = JestStreamingAdapter::new(false);
    assert!(a.on_line(OutputStream::Stdout, "line").is_empty());
    assert_eq!(a.captured_stdout, vec!["line".to_string()]);
}

#[test]
fn bridge_lines_are_kept_by_test_path() {
    let mut a = JestStreamingAdapter::new(true);
    let l1 = "[JEST-BRIDGE-EVENT] {\"type\":\"console\",\"testPath\":\"C:\\\\repo\\\\a.test.ts\"}";
    let l2 = "[JEST-BRIDGE-EVENT] {\"type\":\"httpAbort\",\"testPath\":\"C:/repo/a.test.ts\"}";
    let l3 = "[JEST-BRIDGE-EVENT] {\"type\":\"console\",\"testPath\":\"/repo/b.test.ts\"}";
    let blank = "[JEST-BRIDGE-EVENT] {\"type\":\"console\",\"testPath\":\"  \"}";
    let broken = "[JEST-BRIDGE-EVENT] not json";
    for l in [l1, l2, l3, blank, broken] {
        assert!(a.on_line(OutputStream::Stdout, l).is_empty());
    }
    assert!(a.captured_stdout.is_empty());
    let keys: Vec<&str> = a.extra_bridge_entries_by_test_path.iter().map(|(k, _)| k.as_str()).collect();
    assert_eq!(keys, vec!["C:/repo/a.test.ts", "/repo/b.test.ts"]);
    let a_entries = &a.extra_bridge_entries_by_test_path[0].1;
    assert_eq!(a_entries.iter().map(|e| e.message.clone().unwrap()).collect::<Vec<_>>(), vec![l1.to_string(), l2.to_string()]);
    assert_eq!(a_entries[0].entry_type, None);
}

#[test]
fn kept_events_join_their_files_console() {
    let mut model = TestRunModel {
        start_time: 5,
        test_results: vec![
            suite("C:\\repo\\a.test.ts", Some(vec![entry("own")])),
            suite("/repo/b.test.ts", None),
            suite("/repo/c.test.ts", None),
        ],
        aggregated: TestRunAggregated {
            num_total_test_suites: 3,
            num_passed_test_suites: 3,
            num_failed_test_suites: 0,
            num_total_tests: 0,
            num_passed_tests: 0,
            num_failed_tests: 0,
            num_pending_tests: 0,
            num_todo_tests: 0,
            num_timed_out_tests: None,
            num_timed_out_test_suites: None,
            start_time: 5,
            success: true,
            run_time_ms: None,
        },
    };
    let extra = vec![
        ("C:/repo/a.test.ts".to_string(), vec![entry("e1"), entry("e2")]),
        ("/repo/b.test.ts".to_string(), vec![entry("e3")]),
        ("/repo/c.test.ts".to_string(), vec![]),
    ];
    merge_console_entries_into_bridge_json(&mut model, &extra);
    assert_eq!(model.start_time, 5);
    assert_eq!(messages(&model.test_results[0].console), vec!["own", "e1", "e2"]);
    assert_eq!(messages(&model.test_results[1].console), vec!["e3"]);
    assert!(model.test_results[2].console.is_none());
}
