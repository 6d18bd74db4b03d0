use headlamp::cli::{
    base_flag, debug_terminal_enabled, extract_runner, parse_runner, runner_label, should_print_help, Runner,
};

fn s(v: &[&str]) -> Vec<String> {
    v.iter().map(|x| x.to_string()).collect()
}

#[test]
fn runner_names_parse_case_insensitively() {
    assert_eq!(parse_runner("jest"), Some(Runner::Jest));
    assert_eq!(parse_runner(" Pytest "), Some(Runner::Pytest));
    assert_eq!(parse_runner("CARGO-TEST"), Some(Runner::CargoTest));
    assert_eq!(parse_runner("cargo-nextest"), Some(Runner::CargoNextest));
    assert_eq!(parse_runner("mocha"), None);
    assert_eq!(parse_runner(""), None);
}

#[test]
fn runner_labels() {
    assert_eq!(runner_label(Runner::Jest), "jest");
    assert_eq!(runner_label(Runner::Pytest), "pytest");
    assert_eq!(runner_label(Runner::CargoTest), "cargo-test");
    assert_eq!(runner_label(Runner::CargoNextest), "cargo-nextest");
}

#[test]
fn base_flag_stops_at_equals() {
    assert_eq!(base_flag("--runner=jest"), "--runner");
    assert_eq!(base_flag("--runner"), "--runner");
    assert_eq!(base_flag("a=b=c"), "a");
}

#[test]
fn help_is_asked_by_either_flag() {
    assert!(should_print_help(&s(&["--ci", "--help"])));
    assert!(should_print_help(&s(&["-h"])));
    assert!(!should_print_help(&s(&["--helpful", "-hh"])));
    assert!(!should_print_help(&s(&[])));
}

#[test]
fn extract_runner_defaults_to_jest() {
    let (r, rest) = extract_runner(&s(&["src/a.test.ts", "--ci"])).unwrap();
    assert_eq!(r, Runner::Jest);
    assert_eq!(rest, s(&["src/a.test.ts", "--ci"]));
}

#[test]
fn extract_runner_takes_both_forms() {
    let (r, rest) = extract_runner(&s(&["--runner=pytest", "-k", "x"])).unwrap();
    assert_eq!(r, Runner::Pytest);
    assert_eq!(rest, s(&["-k", "x"]));

    let (r, rest) = extract_runner(&s(&["a", "--runner", "cargo-nextest", "b"])).unwrap();
    assert_eq!(r, Runner::CargoNextest);
    assert_eq!(rest, s(&["a", "b"]));

    // the last one given wins
    let (r, rest) = extract_runner(&s(&["--runner=jest", "--runner", "cargo-test"])).unwrap();
    assert_eq!(r, Runner::CargoTest);
    assert!(rest.is_empty());
}

#[test]
fn extract_runner_keeps_a_trailing_bare_flag() {
    let (r, rest) = extract_runner(&s(&["x", "--runner"])).unwrap();
    assert_eq!(r, Runner::Jest);
    assert_eq!(rest, s(&["x", "--runner"]));
}

#[test]
fn extract_runner_reports_an_unknown_runner() {
    assert_eq!(extract_runner(&s(&["--runner=mocha"])), Err("mocha".to_string()));
    assert_eq!(extract_runner(&s(&["--runner", "ava", "x"])), Err("ava".to_string()));
}

#[test]
fn terminal_debug_switch() {
    assert!(!debug_terminal_enabled(None));
    assert!(!debug_terminal_enabled(Some("")));
    assert!(!debug_terminal_enabled(Some("  ")));
    assert!(!debug_terminal_enabled(Some(" 0 ")));
    assert!(debug_terminal_enabled(Some("1")));
    assert!(debug_terminal_enabled(Some("yes")));
}

#[test]
fn workspace_root_and_watch_rules() {
    use_cli_rules();
}

fn use_cli_rules() {
    assert_eq!(headlamp::cli::workspace_root_override("/w", Some("  /abs/root ")), Some("/abs/root".to_string()));
    assert_eq!(headlamp::cli::workspace_root_override("/w", Some("sub/dir")), Some("/w/sub/dir".to_string()));
    assert_eq!(headlamp::cli::workspace_root_override("/w", Some("   ")), None);
    assert_eq!(headlamp::cli::workspace_root_override("/w", None), None);
    assert_eq!(headlamp::cli::watch_ci_conflict(true, true), Some("headlamp: --watch is not allowed with --ci"));
    assert_eq!(headlamp::cli::watch_ci_conflict(true, false), None);
    assert_eq!(headlamp::cli::watch_ci_conflict(false, true), None);
}
