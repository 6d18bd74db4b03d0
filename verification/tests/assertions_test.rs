use headlamp::format::ansi::{bold, white, yellow};
use headlamp::format::colors::{failure, success};
use headlamp::format::vitest::assertions::{
    failure_bullet, fallback_message_lines, find_expect_line, normalize_message_line,
    primary_block_for_failed_assertion, render_assertion_block, render_expected_received_sections,
    render_message_section_like_legacy, render_pretty_expected_received,
};
use headlamp::test_model::{TestCaseResult, TestSuiteResult};

fn s(v: &[&str]) -> Vec<String> {
    v.iter().map(|x| x.to_string()).collect()
}

fn case(messages: Vec<String>) -> TestCaseResult {
    TestCaseResult {
        title: "t".to_string(),
        full_name: "t".to_string(),
        status: "failed".to_string(),
        timed_out: None,
        duration: 0,
        location: None,
        failure_messages: messages,
        failure_details: None,
    }
}

fn file(msg: &str) -> TestSuiteResult {
    TestSuiteResult {
        test_file_path: "/a.test.ts".to_string(),
        status: "failed".to_string(),
        timed_out: None,
        failure_message: msg.to_string(),
        failure_details: None,
        test_exec_error: None,
        console: None,
        test_results: vec![],
    }
}

#[test]
fn message_lines_are_cleaned() {
    assert_eq!(normalize_message_line("  E   assert 1 == 2"), "assert 1 == 2");
    assert_eq!(normalize_message_line("thread 'main' panicked at src/x.rs:1:2:"), "");
    assert_eq!(normalize_message_line("panicked at src/x.rs:1:2:"), "");
    assert_eq!(normalize_message_line(" stack backtrace: "), "");
    assert_eq!(normalize_message_line("Error:   boom"), "boom");
    assert_eq!(normalize_message_line("AssertionError: a != b"), "a != b");
    assert_eq!(normalize_message_line("note: run with `RUST_BACKTRACE=1`"), "");
    assert_eq!(normalize_message_line("TypeError: x is undefined"), "x is undefined");
    assert_eq!(normalize_message_line("IOException: disk"), "disk");
    assert_eq!(normalize_message_line("key: value"), "key: value");
    assert_eq!(normalize_message_line("Elephant"), "Elephant");
}

#[test]
fn fallback_message_is_deduplicated_and_short() {
    let msgs = s(&[
        "Error: boom",
        "",
        "    at f (a.js:1:1)",
        "  12 | code",
        "boom",
        "a",
        "b",
        "c",
        "d",
        "e",
        "f",
    ]);
    assert_eq!(fallback_message_lines(&msgs), s(&["boom", "at f (a.js:1:1)", "a", "b", "c", "d"]));
}

#[test]
fn expectation_line_and_primary_block() {
    let msgs = s(&["intro", "  \u{1b}[2mexpect(received).rejects.toThrow()", "  expect(a).toBe(b)"]);
    assert_eq!(find_expect_line(&msgs), Some("  expect(a).toBe(b)".to_string()));
    assert_eq!(find_expect_line(&s(&["x"])), None);
    assert_eq!(primary_block_for_failed_assertion(&file("file msg"), &case(s(&["a", "b"]))), "a\nb");
    assert_eq!(primary_block_for_failed_assertion(&file("file msg"), &case(vec![])), "file msg");
    assert_eq!(failure_bullet("x", false), "\u{d7} ".to_string() + &white("x"));
}

#[test]
fn expected_and_received_blocks() {
    let pretty = render_pretty_expected_received("1\n2", "3", false);
    assert_eq!(
        pretty,
        vec![
            format!("    {}", bold("Expected")),
            "      1".to_string(),
            "      2".to_string(),
            format!("    {}", bold("Received")),
            "      3".to_string(),
            String::new(),
        ]
    );
    let colored = render_pretty_expected_received("1", "2", true);
    assert_eq!(colored[1], format!("      {}", success("1", true)));
    assert_eq!(colored[3], format!("      {}", failure("2", true)));

    let sections = render_expected_received_sections(&s(&["Expected: 1", "Received: 2"]), false);
    assert_eq!(
        sections,
        vec![
            format!("    {}", bold("Expected")),
            "      1".to_string(),
            format!("    {}", bold("Received")),
            "      2".to_string(),
            String::new(),
        ]
    );
    assert!(render_expected_received_sections(&s(&["nothing"]), false).is_empty());
}

#[test]
fn message_section() {
    let preview = s(&["      at x"]);
    let out = render_message_section_like_legacy(&s(&[]), Some("   expect(a).toBe(1)"), false, &preview);
    assert_eq!(
        out,
        vec![
            format!("    {}", bold("Assertion:")),
            format!("    {}", yellow("expect(a).toBe(1)")),
            "      at x".to_string(),
            String::new(),
        ]
    );
    let msg = render_message_section_like_legacy(&s(&["Error: boom", "Expected: 1"]), None, true, &vec![]);
    assert_eq!(msg, vec![format!("    {}", bold("Message:")), format!("    {}", yellow("boom")), String::new()]);
    assert!(render_message_section_like_legacy(&s(&[]), None, false, &vec![]).is_empty());
}

#[test]
fn assertion_block() {
    let msgs = s(&[
        "intro",
        "expect(a).toBe(1)",
        "",
        "  > 12 | expect(a).toBe(1)",
        "       |           ^",
        "Expected: 1",
        "Received: 2",
        "  at Object.<anonymous> (a.test.ts:12:5)",
        "after",
    ]);
    let out = render_assertion_block(&msgs);
    assert_eq!(
        out,
        vec![
            format!("    {}", bold("Assertion:")),
            format!("    {}", yellow("    expect(a).toBe(1)")),
            format!("    {}", yellow("    Expected: 1")),
            format!("    {}", yellow("    Received: 2")),
            format!("    {}", yellow("    Expected: 1")),
            format!("    {}", yellow("    Received: 2")),
            format!("    {}", yellow("    Received: 2")),
            String::new(),
        ]
    );
    assert!(render_assertion_block(&s(&["no expectation"])).is_empty());
}
