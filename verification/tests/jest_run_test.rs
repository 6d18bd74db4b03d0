use headlamp::jest_run::{
    bootstrap_command, ensure_jest_bin_exists, exit_after_tests, needs_raw_report, project_configs_or_root,
    report_to_print, ExitDecision,
};

#[test]
fn bootstrap_runs_only_when_configured() {
    assert_eq!(bootstrap_command(Some("  npm run build  ")), Some("npm run build".to_string()));
    assert_eq!(bootstrap_command(Some("   ")), None);
    assert_eq!(bootstrap_command(None), None);
}

#[test]
fn missing_jest_names_where_it_was_expected() {
    match ensure_jest_bin_exists("/nonexistent-headlamp-repo") {
        Ok(_) => panic!("expected jest to be missing"),
        Err(e) => {
            assert_eq!(e.runner, "jest");
            assert_eq!(e.hint, "expected /nonexistent-headlamp-repo/node_modules/.bin/jest");
        }
    }
}

#[test]
fn projects_default_to_the_repository() {
    assert_eq!(project_configs_or_root(vec![], "/r"), vec!["/r".to_string()]);
    let found = vec!["/r/jest.config.js".to_string()];
    assert_eq!(project_configs_or_root(found.clone(), "/r"), found);
}

#[test]
fn report_choices() {
    assert!(!needs_raw_report("anything", true));
    assert!(needs_raw_report("x\nError:\n\nmore", false));
    assert!(!needs_raw_report("x\nError:\n\n    Message:\n", false));
    assert_eq!(report_to_print("  \n "), None);
    assert_eq!(report_to_print("PASS a"), Some("PASS a".to_string()));
    assert!(matches!(exit_after_tests(true, 1), ExitDecision::CollectCoverage));
    assert!(matches!(exit_after_tests(false, 3), ExitDecision::Exit(3)));
}
