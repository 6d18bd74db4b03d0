use headlamp::format::cargo_test::parse_cargo_test_output;
use headlamp::format::libtest_json::{LibtestJsonEvent, LibtestJsonStreamParser};
use headlamp::format::stacks::strip_ansi_simple;
use headlamp::live_progress::{frame_physical_line_count, render_run_frame_with_columns, RenderRunFrameArgs};
use headlamp::parallel_stride::{stride_indices, worker_count};

fn test_event(event: &str, name: &str) -> LibtestJsonEvent {
    LibtestJsonEvent::Test { event: event.to_string(), name: name.to_string(), duration: None, stdout: None }
}

#[test]
fn cargo_run_counts_failed_and_other_results() {
    let out = "     Running tests/a.rs (target/debug/deps/a-1)\nrunning 3 tests\ntest one ... ok\ntest two ... FAILED\ntest three ... ignored\n\n     Running tests/b.rs (target/debug/deps/b-1)\nrunning 0 tests\n";
    let m = parse_cargo_test_output("/repo", out).expect("a suite had a test");
    assert_eq!(m.test_results.len(), 1);
    assert_eq!(m.test_results[0].test_results.len(), 3);
    assert_eq!(m.test_results[0].status, "failed");
    assert_eq!(m.aggregated.num_total_test_suites, 1);
    assert_eq!(m.aggregated.num_total_tests, 3);
    assert_eq!(m.aggregated.num_failed_tests, 1);
    assert_eq!(m.aggregated.num_passed_tests, 2);
    assert_eq!(m.aggregated.num_pending_tests, 0);
    assert!(!m.aggregated.success);
}

#[test]
fn cargo_run_without_test_lines_gives_none() {
    let out = "     Running tests/a.rs (target/debug/deps/a-1)\nrunning 0 tests\n\ntest result: ok. 0 passed\n";
    assert!(parse_cargo_test_output("/repo", out).is_none());
}

#[test]
fn libtest_results_by_name_with_last_status() {
    let mut p = LibtestJsonStreamParser::new("/repo", "tests/it.rs");
    assert!(p.push_event(test_event("ok", "zeta")).is_some());
    assert!(p.push_event(test_event("failed", "alpha")).is_some());
    assert!(p.push_event(test_event("started", "beta")).is_none());
    assert!(p.push_event(LibtestJsonEvent::Other).is_none());
    assert!(p.push_event(test_event("ok", "alpha")).is_some());
    let m = p.finalize().expect("tests reported");
    let tests = &m.test_results[0].test_results;
    let titles: Vec<&str> = tests.iter().map(|t| t.title.as_str()).collect();
    assert_eq!(titles, vec!["alpha", "zeta"]);
    assert_eq!(tests[0].status, "passed");
    assert_eq!(tests[1].status, "passed");
    assert_eq!(m.test_results[0].status, "passed");
    assert_eq!(m.aggregated.num_failed_tests, 0);
    assert!(m.aggregated.success);
}

#[test]
fn libtest_without_status_events_gives_none() {
    let mut p = LibtestJsonStreamParser::new("/repo", "tests/it.rs");
    assert!(p.push_event(test_event("started", "a")).is_none());
    assert!(p.finalize().is_none());
}

#[test]
fn wrapped_frame_takes_one_row_per_line() {
    let f = render_run_frame_with_columns(RenderRunFrameArgs {
        current_label: "a-rather-long-label-that-wraps-several-times",
        done_units: 1,
        total_units: 2,
        spinner_index: 0,
        elapsed_seconds: 3,
        idle_seconds: 0,
        recent: "",
        columns: 10,
    });
    let lines = f.split('\n').count();
    assert!(lines > 2);
    assert_eq!(frame_physical_line_count(&f, 10), lines);
}

#[test]
fn physical_rows_of_unwrapped_lines() {
    assert_eq!(frame_physical_line_count("abc\ndefgh", 4), 3);
    assert_eq!(frame_physical_line_count("", 80), 1);
}

#[test]
fn plain_text_is_not_stripped() {
    assert_eq!(strip_ansi_simple("plain text\nsecond line"), "plain text\nsecond line");
    assert_eq!(strip_ansi_simple("\u{1b}[32mgreen\u{1b}[0m"), "green");
}

#[test]
fn stride_workers_run_each_item_once() {
    for (concurrency, total) in [(0usize, 5usize), (2, 5), (3, 7), (10, 4)] {
        let workers = worker_count(concurrency, total);
        let mut seen = vec![0usize; total];
        for start in 0..workers {
            let idx = stride_indices(start, workers, total);
            assert!(idx.windows(2).all(|w| w[0] < w[1]));
            for i in idx {
                seen[i] += 1;
            }
        }
        assert!(seen.iter().all(|&n| n == 1));
    }
    assert_eq!(worker_count(4, 0), 1);
    assert!(stride_indices(0, 1, 0).is_empty());
}
