use headlamp::format::ansi::dim;
use headlamp::format::raw_jest::{
    build_failure_header_text, collect_failure, compute_had_parsed, extract_bridge_path, extract_console_inline,
    merge_unique_blocks, minimal_message_lines, parse_chunks, parse_suite, push_console_errors_section,
    push_failure_message_section, rel_path, Chunk,
};

fn s(v: &[&str]) -> Vec<String> {
    v.iter().map(|x| x.to_string()).collect()
}

fn describe(c: &Chunk) -> String {
    match c {
        Chunk::FailureBlock { title, lines } => format!("failure[{title}]x{}", lines.len()),
        Chunk::PassFail { badge, rel } => format!("{badge}:{rel}"),
        Chunk::Summary { line } => format!("summary:{line}"),
        Chunk::Stack { line } => format!("stack:{}", line.trim()),
        Chunk::Other { line } => format!("other:{line}"),
    }
}

#[test]
fn jest_output_splits_into_pieces() {
    let raw = "PASS src/a.test.ts\n\u{1b}[31mFAIL\u{1b}[39m src/b.test.ts\n  \u{25cf} suite \u{203a} fails\n\n    expect(received).toBe(expected)\n\n      at Object.<anonymous> (src/b.test.ts:3:5)\n\nTest Suites: 1 failed, 1 passed, 2 total\nTests:       1 failed, 1 passed, 2 total\n    at lonely (x.js:1:1)\nrandom";
    let chunks = parse_chunks(raw);
    let shown: Vec<String> = chunks.iter().map(describe).collect();
    assert_eq!(
        shown,
        s(&[
            "PASS:src/a.test.ts",
            "FAIL:src/b.test.ts",
            "failure[suite \u{203a} fails]x6",
            "summary:Test Suites: 1 failed, 1 passed, 2 total",
            "summary:Tests:       1 failed, 1 passed, 2 total",
            "stack:at lonely (x.js:1:1)",
            "other:random",
        ])
    );
}

#[test]
fn failure_block_runs_to_the_next_piece_after_a_blank() {
    let lines = s(&["  \u{25cf}\u{25cf} t", "PASS x", "", "FAIL y"]);
    let (chunk, next) = collect_failure(&lines, 0);
    assert_eq!(next, 3);
    assert_eq!(describe(&chunk), "failure[t]x3");
}

#[test]
fn result_lines() {
    assert_eq!(parse_suite("  PASS  src/x.ts"), Some(("PASS".to_string(), "src/x.ts".to_string())));
    assert_eq!(parse_suite("PASSED x"), None);
}

#[test]
fn unique_lines_merge() {
    assert_eq!(merge_unique_blocks("a\nb\na", None), "a\nb");
    assert_eq!(merge_unique_blocks("a\nb", Some("b\nc")), "a\nb\n\nc");
    assert_eq!(merge_unique_blocks("a", Some("  ")), "a");
    assert_eq!(merge_unique_blocks("", Some("x")), "\n\nx");
    assert_eq!(merge_unique_blocks("\u{1b}[1ma\u{1b}[22m", Some("a")), "\u{1b}[1ma\u{1b}[22m\n");
}

#[test]
fn paths_and_headers() {
    assert_eq!(rel_path("/repo/src\\a.ts", "/repo"), "src/a.ts");
    assert_eq!(rel_path("/repo/x /repo/y", "/repo"), "x y");
    assert_eq!(rel_path("/other/a.ts", "/repo"), "/other/a.ts");
    assert_eq!(build_failure_header_text("adds", "src/a.ts"), "src/a.ts > adds");
    assert_eq!(build_failure_header_text("adds", ""), "adds");
    assert!(compute_had_parsed(&s(&["x", "  FAIL y"]), false, false));
    assert!(!compute_had_parsed(&s(&["x"]), false, false));
    assert!(compute_had_parsed(&s(&[]), true, false));
}

#[test]
fn message_lines_start_at_the_hint() {
    let lines = s(&[
        "  \u{25cf} t",
        "",
        "    \u{1b}[2mexpect(received).toBe(expected)\u{1b}[22m",
        "    Expected: 1",
        "",
        "    more",
    ]);
    assert_eq!(
        minimal_message_lines(&lines),
        s(&["    expect(received).toBe(expected)", "    Expected: 1"])
    );
    let no_hint = s(&["first", "second", "    at f (a.js:1:1)", "third"]);
    assert_eq!(minimal_message_lines(&no_hint), s(&["first", "second"]));
}

#[test]
fn console_errors_longest_first() {
    let lines = s(&[
        "  console.error(\"a\")",
        "Error: bb",
        "nothing",
        "   console.warn (\"cccc\")  ",
        "Error: dd",
        "console.log(\"x\")",
    ]);
    assert_eq!(
        extract_console_inline(&lines),
        s(&["console.warn (\"cccc\")", "console.error(\"a\")", "Error: bb"])
    );
}

#[test]
fn sections() {
    let mut out: Vec<String> = vec!["top".to_string()];
    push_failure_message_section(&mut out, &s(&["Error: boom", "", "x"]));
    assert_eq!(out, vec!["top".to_string(), dim("    Message:"), "      Error: boom".to_string(), String::new()]);
    let mut none: Vec<String> = vec![];
    push_console_errors_section(&mut none, &s(&["plain"]));
    assert!(none.is_empty());
}

#[test]
fn bridge_results_path() {
    let raw = "Test results written to: /tmp/jest-bridge-1.json\nTest results written to:  'out/jest-bridge-2.json'";
    assert_eq!(extract_bridge_path(raw, "C:\\work"), Some("C:/work/out/jest-bridge-2.json".to_string()));
    assert_eq!(
        extract_bridge_path("Test results written to: /tmp/jest-bridge-1.json", "/w"),
        Some("/tmp/jest-bridge-1.json".to_string())
    );
    assert_eq!(extract_bridge_path("nothing here", "/w"), None);
}
