use headlamp::format::ansi::dim;
use headlamp::format::details::lines_from_details;
use headlamp::format::vitest::file_failure::render_file_level_failure;
use headlamp::test_model::{JsonValue, TestSuiteResult};

fn s(v: &[&str]) -> Vec<String> {
    v.iter().map(|x| x.to_string()).collect()
}

fn text(t: &str) -> JsonValue {
    JsonValue::Str(t.to_string())
}

fn obj(members: Vec<(&str, JsonValue)>) -> JsonValue {
    JsonValue::Object(members.into_iter().map(|(k, v)| (k.to_string(), v)).collect())
}

#[test]
fn details_are_sorted_into_stacks_and_messages() {
    let details = vec![
        text("Error: boom\n    at f (a.js:1:2)"),
        text("plain message"),
        obj(vec![
            ("message", text("m1")),
            ("stack", text("s1")),
            ("matcherResult", obj(vec![("expected", text("1")), ("received", text("2"))])),
            ("errors", JsonValue::Array(vec![obj(vec![("message", text("inner"))])])),
        ]),
        JsonValue::Array(vec![text("x"), JsonValue::Number("3".to_string()), JsonValue::Null]),
    ];
    let (stacks, messages) = lines_from_details(Some(&details));
    assert_eq!(stacks, s(&["Error: boom", "    at f (a.js:1:2)", "s1", "s1"]));
    assert_eq!(messages, s(&["plain message", "m1", "1", "2", "m1", "inner", "1", "2", "x"]));
    let (a, b) = lines_from_details(None);
    assert!(a.is_empty() && b.is_empty());
}

#[test]
fn nesting_is_followed_three_levels_down() {
    let level = |inner: JsonValue| obj(vec![("errors", JsonValue::Array(vec![inner]))]);
    let three = level(level(level(obj(vec![("message", text("d3"))]))));
    let (_, m3) = lines_from_details(Some(&vec![JsonValue::Array(vec![three])]));
    assert_eq!(m3, s(&["d3"]));
    let four = level(level(level(level(obj(vec![("message", text("d4"))])))));
    let (_, m4) = lines_from_details(Some(&vec![JsonValue::Array(vec![four])]));
    assert!(m4.is_empty());
    let two = level(level(obj(vec![("message", text("d2")), ("cause", text("c"))])));
    let (_, m2) = lines_from_details(Some(&vec![two]));
    assert_eq!(m2, s(&["d2", "c"]));
    let blank = obj(vec![("message", text("   ")), ("stack", JsonValue::Bool(true))]);
    let (st, ms) = lines_from_details(Some(&vec![blank]));
    assert!(st.is_empty() && ms.is_empty());
}

fn file(msg: &str) -> TestSuiteResult {
    TestSuiteResult {
        test_file_path: "/a.test.ts".to_string(),
        status: "failed".to_string(),
        timed_out: None,
        failure_message: msg.to_string(),
        failure_details: None,
        test_exec_error: None,
        console: None,
        test_results: vec![],
    }
}

#[test]
fn file_level_failure() {
    let details = vec![text("Error: x\n at y (z:1:1)")];
    let out = render_file_level_failure(&file("Boom"), Some(&details), true, &[], false);
    assert_eq!(
        out,
        vec![
            dim("    Message:"),
            "      Boom".to_string(),
            String::new(),
            dim("    Stack:"),
            "      Error: x".to_string(),
            "       at y (z:1:1)".to_string(),
            String::new(),
        ]
    );
    assert!(render_file_level_failure(&file("Boom"), Some(&details), false, &[], false).is_empty());
    assert!(render_file_level_failure(&file("  "), Some(&details), true, &[], false).is_empty());
}
