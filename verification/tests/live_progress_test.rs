use headlamp::live_progress::{
    classify_runner_line_for_progress, frame_physical_line_count, live_progress_mode_with_env_ci,
    outcome_from_status, recent_summary, render_finished_test_line, render_run_frame_with_columns,
    trim_hint, LiveProgressMode, RenderRunFrameArgs, TestOutcome,
};
use headlamp::format::time::Duration;

#[test]
fn live_progress_mode_ci_flag_is_plain() {
    assert_eq!(
        live_progress_mode_with_env_ci(false, true, false),
        LiveProgressMode::Plain
    );
    assert_eq!(
        live_progress_mode_with_env_ci(true, true, false),
        LiveProgressMode::Plain
    );
}

#[test]
fn live_progress_mode_env_ci_is_plain() {
    assert_eq!(
        live_progress_mode_with_env_ci(false, false, true),
        LiveProgressMode::Plain
    );
    assert_eq!(
        live_progress_mode_with_env_ci(true, false, true),
        LiveProgressMode::Plain
    );
}

#[test]
fn live_progress_mode_tty_non_ci_is_interactive() {
    assert_eq!(
        live_progress_mode_with_env_ci(true, false, false),
        LiveProgressMode::Interactive
    );
}

#[test]
fn live_progress_mode_non_tty_non_ci_is_off() {
    assert_eq!(
        live_progress_mode_with_env_ci(false, false, false),
        LiveProgressMode::Off
    );
}

#[test]
fn trim_hint_collapses_whitespace() {
    assert_eq!(trim_hint("  a \t b\n c  ", 80), "a b c");
}

#[test]
fn trim_hint_cuts_to_six_widths_at_least_120() {
    let long = "x".repeat(500);
    assert_eq!(trim_hint(&long, 10).chars().count(), 120);
    assert_eq!(trim_hint(&long, 50).chars().count(), 300);
    let longer = "y".repeat(5000);
    assert_eq!(trim_hint(&longer, 1000).chars().count(), 1200);
}

#[test]
fn classify_keeps_prefixed_lines() {
    assert_eq!(
        classify_runner_line_for_progress("  PASS  src/a.test.ts ", 80),
        Some("PASS src/a.test.ts".to_string())
    );
    assert_eq!(
        classify_runner_line_for_progress("Downloading crates ...", 80),
        Some("Downloading crates ...".to_string())
    );
    assert_eq!(classify_runner_line_for_progress("   ", 80), None);
    assert_eq!(classify_runner_line_for_progress("hello world", 80), None);
}

#[test]
fn recent_summary_orders_by_score() {
    assert_eq!(recent_summary(None, None), "no activity yet");
    assert_eq!(
        recent_summary(Some("Finished dev".to_string()), Some("error: boom".to_string())),
        "stderr: error: boom\nstdout: Finished dev"
    );
    assert_eq!(
        recent_summary(Some("RUNS a".to_string()), Some("error: boom".to_string())),
        "stdout: RUNS a\nstderr: error: boom"
    );
}

#[test]
fn run_frame_has_two_lines() {
    let frame = render_run_frame_with_columns(RenderRunFrameArgs {
        current_label: "jest",
        done_units: 1,
        total_units: 3,
        spinner_index: 11,
        elapsed_seconds: 5,
        idle_seconds: 2,
        recent: "  ",
        columns: 80,
    });
    assert_eq!(frame, "RUN [\u{2819} +5s] (1/3) jest\nidle 2s");
}

#[test]
fn run_frame_wraps_long_lines() {
    let frame = render_run_frame_with_columns(RenderRunFrameArgs {
        current_label: "",
        done_units: 0,
        total_units: 1,
        spinner_index: 0,
        elapsed_seconds: 0,
        idle_seconds: 0,
        recent: "abcdefghijklmno",
        columns: 10,
    });
    let second: Vec<&str> = frame.split('\n').skip(2).collect();
    assert_eq!(second, vec!["abcdefghij", "klmno"]);
}

#[test]
fn physical_line_count_counts_wrapped_rows() {
    assert_eq!(frame_physical_line_count("", 80), 1);
    assert_eq!(frame_physical_line_count("abc\ndef", 80), 2);
    assert_eq!(frame_physical_line_count("\u{1b}[31mabcdefghij\u{1b}[0m", 4), 3);
}

#[test]
fn outcome_from_status_maps_words() {
    assert_eq!(outcome_from_status(" PASSED "), TestOutcome::Pass);
    assert_eq!(outcome_from_status("ok"), TestOutcome::Pass);
    assert_eq!(outcome_from_status("fail"), TestOutcome::Fail);
    assert_eq!(outcome_from_status("pending"), TestOutcome::Skip);
    assert_eq!(outcome_from_status("weird"), TestOutcome::Unknown);
}

#[test]
fn finished_test_line_layout() {
    assert_eq!(
        render_finished_test_line(TestOutcome::Pass, Some(Duration::from_millis(1500)), "a.rs", "t1"),
        "PASS [1s 500ms] a.rs::t1"
    );
    assert_eq!(
        render_finished_test_line(TestOutcome::Unknown, None, "a.rs", "  "),
        "DONE [--] a.rs"
    );
}
