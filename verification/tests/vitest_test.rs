use headlamp::format::ansi::{bold, dim, yellow};
use headlamp::format::bridge_console::{AssertionEvt, HttpEvent};
use headlamp::format::bridge_http::render_http_card;
use headlamp::format::console::ConsoleEntry;
use headlamp::format::vitest::console::{extract_expected_received_values, filter_console_to_failed_tests};
use headlamp::format::vitest::footer::{
    aggregated_from_suites, drop_blank_line_before_time_line, vitest_footer_at,
};
use headlamp::test_model::{TestCaseResult, TestSuiteResult};

fn s(v: &[&str]) -> Vec<String> {
    v.iter().map(|x| x.to_string()).collect()
}

fn http(ts: u64, kind: &str, method: &str, url: &str, route: Option<&str>, status: Option<i64>, dur: Option<i64>, file: &str, name: &str) -> HttpEvent {
    HttpEvent {
        timestamp_ms: ts,
        kind: Some(kind.to_string()),
        method: Some(method.to_string()),
        url: Some(url.to_string()),
        route: route.map(|r| r.to_string()),
        status_code: status,
        duration_ms: dur,
        content_type: Some("application/json".to_string()),
        request_id: None,
        json: None,
        body_preview: None,
        test_path: Some(file.to_string()),
        current_test_name: Some(name.to_string()),
    }
}

#[test]
fn http_card_for_a_status_mismatch() {
    let file = "/abs/users.test.ts";
    let name = "GET /users returns 200";
    let events = vec![http(10, "response", "GET", "/users?x=1", Some("/users"), Some(500), Some(12), file, name)];
    let card = render_http_card(
        "src/routes/users.test.ts",
        name,
        "returns 200",
        "Expected: 200\nReceived: 500",
        file,
        &[],
        &events,
    );
    let header = format!(
        "  HTTP:\n    GET /users  ? x=1 {} 500 {} {}\n      Expected: {}   Received: {}",
        dim("->"),
        dim("(12ms)"),
        dim("(application/json)"),
        yellow("200"),
        yellow("500")
    );
    assert_eq!(card, vec![header, "\n".to_string()]);
}

#[test]
fn http_card_for_an_aborted_request() {
    let file = "/abs/slow.test.ts";
    let name = "slow call";
    let evt = AssertionEvt {
        timestamp_ms: Some(100),
        matcher: None,
        expected_number: None,
        received_number: None,
        message: Some("Error: socket hang up".to_string()),
        stack: None,
        test_path: Some(file.to_string()),
        current_test_name: Some(name.to_string()),
        expected_preview: None,
        actual_preview: None,
    };
    let events = vec![
        http(50, "abort", "GET", "/fast", Some("/fast"), None, None, file, name),
        http(120, "abort", "POST", "/slow", Some("/slow"), None, None, file, name),
    ];
    let card = render_http_card("x.ts", name, name, "", file, &[evt], &events);
    assert_eq!(
        card,
        vec![format!("  HTTP:\n    POST /slow {} {} \n", dim("->"), yellow("connection aborted"))]
    );
}

#[test]
fn http_card_absent_when_not_about_http() {
    let card = render_http_card("src/math.spec.ts", "adds numbers", "adds numbers", "1 != 2", "/abs/m.ts", &[], &[]);
    assert!(card.is_empty());
}

fn case(name: &str, status: &str) -> TestCaseResult {
    TestCaseResult {
        title: name.to_string(),
        full_name: name.to_string(),
        status: status.to_string(),
        timed_out: None,
        duration: 0,
        location: None,
        failure_messages: vec![],
        failure_details: None,
    }
}

fn suite(status: &str, cases: Vec<TestCaseResult>) -> TestSuiteResult {
    TestSuiteResult {
        test_file_path: "f".to_string(),
        status: status.to_string(),
        timed_out: None,
        failure_message: String::new(),
        failure_details: None,
        test_exec_error: None,
        console: None,
        test_results: cases,
    }
}

fn log(name: Option<&str>, msg: &str) -> ConsoleEntry {
    ConsoleEntry {
        entry_type: Some("log".to_string()),
        message: Some(msg.to_string()),
        origin: None,
        test_path: None,
        current_test_name: name.map(|n| n.to_string()),
    }
}

#[test]
fn console_is_narrowed_to_failed_tests() {
    let file = suite("failed", vec![case("a", "passed"), case("b", "failed")]);
    let out = filter_console_to_failed_tests(&file, vec![log(Some("a"), "1"), log(Some("b"), "2"), log(None, "3")]);
    let msgs: Vec<String> = out.iter().map(|e| e.message.clone().unwrap()).collect();
    assert_eq!(msgs, s(&["2"]));
    let none = filter_console_to_failed_tests(&file, vec![log(Some("a"), "1")]);
    assert_eq!(none.len(), 1);
}

#[test]
fn expected_and_received_values() {
    assert_eq!(
        extract_expected_received_values(&s(&["\u{1b}[31mExpected: 1\u{1b}[0m", "Received: 2"])),
        (Some("1".to_string()), Some("2".to_string()))
    );
    assert_eq!(
        extract_expected_received_values(&s(&["  left: `3`", "  right: `4`"])),
        (Some("`4`".to_string()), Some("`3`".to_string()))
    );
    assert_eq!(
        extract_expected_received_values(&s(&["E   assert 1 == 2"])),
        (Some("2".to_string()), Some("1".to_string()))
    );
    assert_eq!(extract_expected_received_values(&s(&["nothing"])), (None, None));
}

#[test]
fn footer_counts_and_text() {
    let suites = vec![
        suite("passed", vec![case("a", "passed"), case("b", "failed")]),
        suite("failed", vec![]),
    ];
    let agg = aggregated_from_suites(&suites, Some(1500), 0);
    assert_eq!(agg.num_failed_test_suites, 2);
    assert_eq!(agg.num_passed_test_suites, 0);
    assert_eq!(agg.num_total_tests, 2);
    assert_eq!(agg.num_failed_tests, 1);
    assert!(!agg.success);
    let footer = vitest_footer_at(&agg, false, 0);
    let expected = format!(
        "{} 2 failed {}\n{}     1 failed{}1 passed {}\n{}      1s 500ms",
        bold("Test Files"),
        dim("(2)"),
        bold("Tests"),
        dim(" | "),
        dim("(2)"),
        bold("Time")
    );
    assert_eq!(footer, expected);
    assert_eq!(drop_blank_line_before_time_line("a\n\n  \nTime 1s"), "a\n\nTime 1s");
}
