use headlamp::format::ansi::{dim, gray, osc8};
use headlamp::format::bridge_console::{
    bridge_event_json_text, bridge_event_kind, collect_bridge_console, AssertionEvt, BridgeConsoleItem,
    BridgeEventKind, BridgePayload, ConsoleBatchEntry, HttpResponseFields,
};
use headlamp::format::paths::EditorEnv;
use headlamp::format::raw_jest::push_stack_section;
use headlamp::format::vitest::assertions::{editor_loc_link, merged_for_stack_for_failed_assertion};

fn s(v: &[&str]) -> Vec<String> {
    v.iter().map(|x| x.to_string()).collect()
}

fn o(x: &str) -> Option<String> {
    Some(x.to_string())
}

fn response(url: &str, test_path: Option<String>) -> HttpResponseFields {
    HttpResponseFields {
        method: o("GET"),
        url: o(url),
        route: None,
        status_code: Some(200),
        duration_ms: Some(5),
        content_type: o("application/json"),
        request_id: None,
        json: o("{\"ok\":true}"),
        body_preview: None,
        test_path,
        current_test_name: o("own name"),
    }
}

#[test]
fn event_text_follows_the_last_marker() {
    assert_eq!(
        bridge_event_json_text("log [JEST-BRIDGE-EVENT] x [JEST-BRIDGE-EVENT]  {\"type\":\"console\"} "),
        Some("{\"type\":\"console\"}".to_string())
    );
    assert_eq!(bridge_event_json_text("plain console line"), None);
}

#[test]
fn event_kinds_by_type() {
    assert!(matches!(bridge_event_kind("httpResponse"), BridgeEventKind::HttpResponse));
    assert!(matches!(bridge_event_kind("httpResponseBatch"), BridgeEventKind::HttpResponseBatch));
    assert!(matches!(bridge_event_kind("httpAbort"), BridgeEventKind::HttpAbort));
    assert!(matches!(bridge_event_kind("assertionFailure"), BridgeEventKind::AssertionFailure));
    assert!(matches!(bridge_event_kind("console"), BridgeEventKind::Console));
    assert!(matches!(bridge_event_kind("consoleBatch"), BridgeEventKind::ConsoleBatch));
    assert!(matches!(bridge_event_kind("HTTPRESPONSE"), BridgeEventKind::Other));
}

#[test]
fn console_items_are_gathered_into_their_lists() {
    let items = vec![
        BridgeConsoleItem::Plain { entry_type: o("log"), origin: o("a.test.ts:3"), text: "hello".to_string() },
        BridgeConsoleItem::Event { timestamp_ms: Some(10), payload: BridgePayload::HttpResponse(response("/a", o("a.test.ts"))) },
        BridgeConsoleItem::Event {
            timestamp_ms: None,
            payload: BridgePayload::HttpResponseBatch {
                events: Some(vec![response("/b", o("ignored")), response("/c", None)]),
                test_path: o("batch.test.ts"),
                current_test_name: o("batch test"),
            },
        },
        BridgeConsoleItem::Event {
            timestamp_ms: Some(30),
            payload: BridgePayload::HttpAbort {
                method: o("POST"),
                url: o("/d"),
                route: None,
                duration_ms: Some(7),
                test_path: None,
                current_test_name: None,
            },
        },
        BridgeConsoleItem::Event {
            timestamp_ms: Some(40),
            payload: BridgePayload::AssertionFailure(AssertionEvt {
                timestamp_ms: Some(40),
                matcher: o("toBe"),
                expected_number: Some(1),
                received_number: Some(2),
                message: o("boom"),
                stack: None,
                test_path: None,
                current_test_name: None,
                expected_preview: None,
                actual_preview: None,
            }),
        },
        BridgeConsoleItem::Event {
            timestamp_ms: Some(50),
            payload: BridgePayload::Console { level: o("warn"), message: o("careful"), test_path: o("t.ts"), current_test_name: None },
        },
        BridgeConsoleItem::Event {
            timestamp_ms: Some(60),
            payload: BridgePayload::ConsoleBatch(Some(vec![
                ConsoleBatchEntry { entry_type: o("info"), message: o("one") },
                ConsoleBatchEntry { entry_type: None, message: o("two") },
            ])),
        },
        BridgeConsoleItem::Event { timestamp_ms: Some(70), payload: BridgePayload::Skip },
        BridgeConsoleItem::Unreadable,
    ];
    let (http, assertions, console) = collect_bridge_console(&items, 99);

    assert_eq!(http.len(), 4);
    assert_eq!((http[0].timestamp_ms, http[0].url.as_deref(), http[0].kind.as_deref()), (10, Some("/a"), Some("response")));
    assert_eq!(http[0].test_path.as_deref(), Some("a.test.ts"));
    assert_eq!(http[0].current_test_name.as_deref(), Some("own name"));
    assert_eq!((http[1].timestamp_ms, http[1].url.as_deref()), (99, Some("/b")));
    assert_eq!(http[1].test_path.as_deref(), Some("batch.test.ts"));
    assert_eq!(http[1].current_test_name.as_deref(), Some("batch test"));
    assert_eq!(http[2].url.as_deref(), Some("/c"));
    assert_eq!(http[2].test_path.as_deref(), Some("batch.test.ts"));
    assert_eq!((http[3].kind.as_deref(), http[3].status_code, http[3].duration_ms), (Some("abort"), None, Some(7)));
    assert_eq!(http[3].json, None);

    assert_eq!(assertions.len(), 1);
    assert_eq!(assertions[0].message.as_deref(), Some("boom"));

    assert_eq!(console.len(), 4);
    assert_eq!((console[0].entry_type.as_deref(), console[0].message.as_deref()), (Some("log"), Some("hello")));
    assert_eq!(console[0].origin.as_deref(), Some("a.test.ts:3"));
    assert_eq!(console[0].test_path, None);
    assert_eq!((console[1].entry_type.as_deref(), console[1].message.as_deref()), (Some("warn"), Some("careful")));
    assert_eq!(console[1].test_path.as_deref(), Some("t.ts"));
    assert_eq!(console[1].origin, None);
    assert_eq!((console[2].entry_type.as_deref(), console[2].message.as_deref()), (Some("info"), Some("one")));
    assert_eq!((console[3].entry_type.as_deref(), console[3].message.as_deref()), (None, Some("two")));
}

#[test]
fn stack_section_keeps_six_project_frames() {
    let collapsed = s(&[
        "Error: boom",
        "    at f (/repo/src/a.ts:1:1)",
        "    at g (/elsewhere/b.ts:2:2)",
        "    at h (/repo/src/c.ts:3:3)",
        "    at i (/repo/src/d.ts:4:4)",
        "    at j (/repo/src/e.ts:5:5)",
        "    at k (/repo/src/f.ts:6:6)",
        "    at l (/repo/src/g.ts:7:7)",
        "    at m (/repo/src/h.ts:8:8)",
    ]);
    let mut out = s(&["before"]);
    push_stack_section(&mut out, true, "/repo/", &collapsed);
    assert_eq!(
        out,
        vec![
            "before".to_string(),
            dim("    Stack:"),
            "          at f (/repo/src/a.ts:1:1)".to_string(),
            "          at h (/repo/src/c.ts:3:3)".to_string(),
            "          at i (/repo/src/d.ts:4:4)".to_string(),
            "          at j (/repo/src/e.ts:5:5)".to_string(),
            "          at k (/repo/src/f.ts:6:6)".to_string(),
            "          at l (/repo/src/g.ts:7:7)".to_string(),
            String::new(),
        ]
    );
    let mut hidden = s(&["before"]);
    push_stack_section(&mut hidden, false, "/repo/", &collapsed);
    assert_eq!(hidden, s(&["before"]));
    let mut none = Vec::new();
    push_stack_section(&mut none, true, "/nowhere/", &collapsed);
    assert!(none.is_empty());
}

#[test]
fn merged_stack_lines_fold_noisy_frames() {
    let merged = merged_for_stack_for_failed_assertion(
        &s(&["Error: boom"]),
        &s(&["    at x (node_modules/lib/a.js:1:1)", "    at y (node_modules/lib/b.js:1:1)", "    at z (/repo/src/a.ts:1:1)"]),
    );
    assert_eq!(
        merged,
        vec![
            "Error: boom".to_string(),
            gray("      \u{2026} 2 stack frames hidden"),
            "    at z (/repo/src/a.ts:1:1)".to_string(),
        ]
    );
}

#[test]
fn location_link_names_file_and_line() {
    let env = EditorEnv { coverage_editor: None, term_program: None, vscode_ipc_hook: false };
    let link = editor_loc_link(Some(("/nonexistent-headlamp/src/a.ts".to_string(), 12, 3)), None, &env);
    assert_eq!(link, Some(osc8("a.ts:12", "file:///nonexistent-headlamp/src/a.ts#L12")));
    assert_eq!(editor_loc_link(None, Some("code"), &env), None);
    let code = editor_loc_link(Some(("/nonexistent-headlamp/b.ts".to_string(), 4, 0)), Some("code"), &env);
    assert_eq!(code, Some(osc8("b.ts:4", "vscode://file//nonexistent-headlamp/b.ts:4")));
}
