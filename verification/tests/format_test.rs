use headlamp::format::ansi::{bg_gray, bold, dim, gray, osc8, red, white};
use headlamp::format::colors::{bg_failure, color_enabled, failure, skip, success, warn};
use headlamp::format::stacks::{collapse_stacks, is_stack_line, strip_ansi_simple};
use headlamp::format::time::{
    format_duration, format_duration_at_least, format_duration_with, format_system_time_delta,
    Duration, PrettyDurationOptions, TimeUnit,
};

#[test]
fn ansi_wraps_with_sgr_codes() {
    assert_eq!(bold("x"), "\u{1b}[1mx\u{1b}[22m");
    assert_eq!(dim("x"), "\u{1b}[2mx\u{1b}[22m");
    assert_eq!(red("x"), "\u{1b}[31mx\u{1b}[39m");
    assert_eq!(gray("x"), "\u{1b}[90mx\u{1b}[39m");
    assert_eq!(white("x"), "\u{1b}[97mx\u{1b}[39m");
    assert!(bg_gray("x").contains('x'));
    let link = osc8("label", "file:///a");
    assert!(link.contains("file:///a"));
    assert!(link.contains("label"));
}

#[test]
fn colors_follow_the_palette() {
    assert_eq!(success("ok", true), "\u{1b}[38;2;34;197;94mok\u{1b}[0m");
    assert_eq!(failure("no", true), "\u{1b}[38;2;255;35;35mno\u{1b}[0m");
    assert_eq!(bg_failure("no", true), "\u{1b}[48;2;255;35;35mno\u{1b}[0m");
    assert_eq!(skip("s", true), warn("s", true));
}

#[test]
fn colors_off_leave_text_alone() {
    assert_eq!(success("ok", false), "ok");
    assert_eq!(bg_failure("no", false), "no");
}

#[test]
fn color_enabled_rules() {
    assert!(!color_enabled(Some("1"), None, None, Some("1"), true));
    assert!(color_enabled(Some("  "), None, None, None, true));
    assert!(!color_enabled(None, Some(" 0 "), None, None, true));
    assert!(!color_enabled(None, None, Some("dumb"), None, true));
    assert!(color_enabled(None, None, Some("dumb"), Some("1"), false));
    assert!(!color_enabled(None, None, None, Some("0"), true));
    assert!(color_enabled(None, None, None, Some(""), true));
    assert!(!color_enabled(None, None, None, None, false));
}

#[test]
fn durations_pick_two_largest_units() {
    assert_eq!(format_duration(Duration::from_millis(1500)), "1s 500ms");
    assert_eq!(format_duration(Duration::from_secs(3723)), "1h 2m");
    assert_eq!(format_duration(Duration::from_secs(60)), "1m");
    assert_eq!(format_duration(Duration::from_nanos(0)), "<1ns");
    assert_eq!(format_duration(Duration::from_nanos(1500)), "1µs 500ns");
}

#[test]
fn durations_below_the_minimum_unit() {
    assert_eq!(
        format_duration_at_least(Duration::from_millis(300), TimeUnit::Second),
        "<1s"
    );
    assert_eq!(
        format_duration_at_least(Duration::from_secs(5), TimeUnit::Second),
        "5s"
    );
}

#[test]
fn durations_with_three_components() {
    let opts = PrettyDurationOptions { max_components: 3, min_unit: None };
    assert_eq!(format_duration_with(Duration::from_secs(90061), opts), "1d 1h 1m");
    let one = PrettyDurationOptions { max_components: 1, min_unit: None };
    assert_eq!(format_duration_with(Duration::from_secs(90061), one), "1d");
    let d = PrettyDurationOptions::default();
    assert_eq!(d.max_components, 2);
}

#[test]
fn system_time_delta_direction() {
    let now = Duration::from_secs(100);
    assert_eq!(format_system_time_delta(now, Duration::from_secs(130)), "in 30s");
    assert_eq!(format_system_time_delta(now, Duration::from_secs(40)), "1m ago");
}

#[test]
fn stack_lines_are_recognised() {
    assert!(is_stack_line("    at foo (a.js:1:2)"));
    assert!(!is_stack_line("chat about it"));
    assert!(is_stack_line("attack at dawn"));
    assert!(!is_stack_line("at start"));
}

#[test]
fn strip_ansi_removes_escapes() {
    assert_eq!(strip_ansi_simple("\u{1b}[31mred\u{1b}[39m plain"), "red plain");
}

#[test]
fn collapse_stacks_hides_noisy_frames() {
    let lines = vec![
        "Error: boom".to_string(),
        "    at a (node_modules/x.js:1:1)".to_string(),
        "    at b (node_modules/y.js:1:1)".to_string(),
        "    at c (src/app.js:3:4)".to_string(),
        "    at node:internal/x:1:1".to_string(),
    ];
    let out = collapse_stacks(&lines);
    assert_eq!(
        out,
        vec![
            "Error: boom".to_string(),
            gray("      … 2 stack frames hidden"),
            "    at c (src/app.js:3:4)".to_string(),
            gray("      … 1 stack frame hidden"),
        ]
    );
}
