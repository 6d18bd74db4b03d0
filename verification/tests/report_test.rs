use headlamp::format::ansi::{dim, white};
use headlamp::format::console::{build_console_section, ConsoleEntry};
use headlamp::format::details::{condense_blank_runs, merge_msg_lines, push_string_detail};
use headlamp::format::failure_diagnostics::{
    is_walk_match, location_from_captures, normalize_raw_file, parse_rust_panic_location, walk_suffix,
};
use headlamp::format::infra_failure::build_infra_failure_test_run_model;
use headlamp::format::paths::{editor_href, linkify_with_href, prefer_vscode, EditorEnv};

fn s(v: &[&str]) -> Vec<String> {
    v.iter().map(|x| x.to_string()).collect()
}

fn entry(ty: Option<&str>, msg: Option<&str>, origin: Option<&str>) -> ConsoleEntry {
    ConsoleEntry {
        entry_type: ty.map(|x| x.to_string()),
        message: msg.map(|x| x.to_string()),
        origin: origin.map(|x| x.to_string()),
        test_path: None,
        current_test_name: None,
    }
}

#[test]
fn console_section_is_empty_without_entries() {
    assert!(build_console_section(&[], true).is_empty());
    assert!(build_console_section(&[], false).is_empty());
}

#[test]
fn console_full_logs_list_every_entry() {
    let entries = vec![
        entry(Some("LOG"), Some("hello"), Some("a.js:1")),
        entry(None, Some("plain"), None),
    ];
    let out = build_console_section(&entries, true);
    let bullet = format!("      {} ", dim("•"));
    assert_eq!(
        out,
        vec![
            dim("    Logs:"),
            format!("{}{}: hello {}", bullet, white("log"), dim("(a.js:1)")),
            format!("{}plain", bullet),
            String::new(),
        ]
    );
}

#[test]
fn console_errors_keep_the_three_longest() {
    let entries = vec![
        entry(Some("error"), Some("bb"), None),
        entry(Some("warn"), Some("not an error message at all"), None),
        entry(Some("ERROR"), Some("dddd"), None),
        entry(Some("error"), Some("   "), None),
        entry(Some("error"), Some("a"), None),
        entry(Some("error"), Some("cc"), None),
    ];
    let out = build_console_section(&entries, false);
    let bullet = format!("      {} ", dim("•"));
    assert_eq!(
        out,
        vec![
            dim("    Console errors:"),
            format!("{}dddd", bullet),
            format!("{}bb", bullet),
            format!("{}cc", bullet),
            String::new(),
        ]
    );
}

#[test]
fn condense_folds_blank_runs() {
    let out = condense_blank_runs(&s(&["a", "", "  ", "b", " ", "c", ""]));
    assert_eq!(out, s(&["a", "", "b", "", "c", ""]));
    assert_eq!(condense_blank_runs(&out), out);
}

#[test]
fn merge_adds_only_new_messages() {
    let out = merge_msg_lines("first\n\n\nsecond", &s(&["  first ", "third", "", "third"]));
    assert_eq!(out, s(&["first", "", "second", "third"]));
    let blank = merge_msg_lines("   ", &s(&["x"]));
    assert_eq!(blank, s(&["x"]));
}

#[test]
fn string_details_are_sorted_into_stacks_and_messages() {
    let mut stacks = vec![];
    let mut messages = vec![];
    push_string_detail("Error\n    at f (a.js:1:2)", &mut stacks, &mut messages);
    push_string_detail("expected 1\nreceived 2", &mut stacks, &mut messages);
    assert_eq!(stacks, s(&["Error", "    at f (a.js:1:2)"]));
    assert_eq!(messages, s(&["expected 1", "received 2"]));
}

#[test]
fn rust_panic_location_is_read() {
    assert_eq!(
        parse_rust_panic_location("thread 'x' panicked at src/lib.rs:12:5:"),
        Some(("src/lib.rs".to_string(), 12, 5))
    );
    assert_eq!(
        parse_rust_panic_location("  thread 'main' panicked at tests/a.rs:3:9  "),
        Some(("tests/a.rs".to_string(), 3, 9))
    );
    assert_eq!(
        parse_rust_panic_location("panicked at assertion failed: src/m.rs:40:1"),
        Some(("src/m.rs".to_string(), 40, 1))
    );
    assert_eq!(parse_rust_panic_location("no panic here"), None);
    assert_eq!(
        location_from_captures(Some(("f.rs".to_string(), "99999999999999999999".to_string(), "1".to_string()))),
        None
    );
}

#[test]
fn raw_file_names_are_cleaned() {
    assert_eq!(normalize_raw_file("  \"./src\\a.ts`  "), Some("src/a.ts".to_string()));
    assert_eq!(normalize_raw_file("   "), None);
    assert_eq!(walk_suffix("//a/b.rs"), "/a/b.rs");
    assert!(is_walk_match("/repo/a/b.rs", "/a/b.rs"));
    assert!(!is_walk_match("/repo/a/c.rs", "/a/b.rs"));
}

#[test]
fn infra_failure_model_has_one_failed_test() {
    let m = build_infra_failure_test_run_model("build", "cargo", "linker error");
    assert_eq!(m.test_results.len(), 1);
    assert_eq!(m.test_results[0].test_file_path, "build");
    assert_eq!(m.test_results[0].status, "failed");
    assert_eq!(m.test_results[0].test_results[0].failure_messages, s(&["linker error"]));
    assert_eq!(m.aggregated.num_failed_tests, 1);
    assert!(!m.aggregated.success);
    assert_eq!(m.aggregated.run_time_ms, Some(0));
}

#[test]
fn editor_links() {
    let env = EditorEnv { coverage_editor: None, term_program: Some("VSCode".to_string()), vscode_ipc_hook: false };
    assert!(prefer_vscode(None, &env));
    let plain = EditorEnv { coverage_editor: Some("vim".to_string()), term_program: None, vscode_ipc_hook: false };
    assert!(!prefer_vscode(None, &plain));
    assert!(prefer_vscode(Some("Code"), &plain));
    assert_eq!(editor_href("/a/b.ts", Some(7), true), "vscode://file//a/b.ts:7");
    assert_eq!(editor_href("/a/b.ts", Some(7), false), "file:///a/b.ts#L7");
    assert_eq!(editor_href("/a/b.ts", None, false), "file:///a/b.ts");
    assert_eq!(
        linkify_with_href("file:///x", "name  "),
        "\u{1b}]8;;file:///x\u{7}name\u{1b}]8;;\u{7}  "
    );
}
