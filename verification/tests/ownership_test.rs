use headlamp::jest_discovery::{
    list_failure_message, list_tests_args, list_tests_for_project_args, resilient_step, ListOutcome, ResilientStep,
};
use headlamp::jest_ownership::{
    normalize_abs_posix, ownership_after_patterns, ownership_finish, ownership_start,
    relative_patterns_for_candidates, OwnershipStep,
};

fn s(v: &[&str]) -> Vec<String> {
    v.iter().map(|x| x.to_string()).collect()
}

#[test]
fn candidate_patterns_relative_to_the_config() {
    assert_eq!(
        relative_patterns_for_candidates("/r/app", &s(&["/r/app/src/a.test.ts", "/r/lib/b.test.ts", "rel\\c.ts"])),
        s(&["src/a.test.ts", "../lib/b.test.ts", "rel/c.ts"])
    );
}

#[test]
fn ownership_steps() {
    match ownership_start("/r", "/r/app/jest.config.js", &[]) {
        OwnershipStep::Done { tests } => assert!(tests.is_empty()),
        _ => panic!("expected no work"),
    }
    let (token, dir, patterns) = match ownership_start("/r", "/r/app/jest.config.js", &s(&["/r/app/x.test.ts"])) {
        OwnershipStep::ListWithPatterns { cfg_token, config_dir, patterns } => (cfg_token, config_dir, patterns),
        _ => panic!("expected a listing"),
    };
    assert_eq!(token, "app/jest.config.js");
    assert_eq!(dir, "/r/app");
    assert_eq!(patterns, s(&["x.test.ts"]));
    match ownership_after_patterns(s(&["/b", "/a", "/b"]), token.clone(), dir.clone(), patterns.clone()) {
        OwnershipStep::Done { tests } => assert_eq!(tests, s(&["/a", "/b"])),
        _ => panic!("expected done"),
    }
    match ownership_after_patterns(vec![], token, dir.clone(), patterns.clone()) {
        OwnershipStep::ListAll { patterns: p, .. } => assert_eq!(p, patterns),
        _ => panic!("expected a full listing"),
    }
    assert_eq!(ownership_finish(s(&["/z", "/y"]), &dir, &patterns), s(&["/y", "/z"]));
    assert_eq!(ownership_finish(vec![], &dir, &patterns), s(&["/r/app/x.test.ts"]));
}

#[test]
fn canonical_paths_fall_back_to_the_input() {
    assert_eq!(normalize_abs_posix("/definitely/missing\\file.ts"), "/definitely/missing/file.ts");
    assert_eq!(normalize_abs_posix("/"), "/");
}

#[test]
fn listing_arguments_and_failures() {
    assert_eq!(list_tests_args(&s(&["--ci"])), s(&["--ci", "--listTests"]));
    assert_eq!(
        list_tests_for_project_args(&s(&["--ci"]), "jest.config.js"),
        s(&["--ci", "--config", "jest.config.js", "--listTests"])
    );
    assert_eq!(list_failure_message(3, "  \n"), "exit 3");
    assert_eq!(list_failure_message(-1, ""), "exit -1");
    assert_eq!(list_failure_message(1, "boom"), "boom");
}

#[test]
fn resilient_listing() {
    match resilient_step(ListOutcome::Listed { tests: s(&["/a"]) }, &[]) {
        ResilientStep::Done { tests } => assert_eq!(tests, s(&["/a"])),
        _ => panic!(),
    }
    match resilient_step(ListOutcome::TimedOut, &[]) {
        ResilientStep::Done { tests } => assert!(tests.is_empty()),
        _ => panic!(),
    }
    assert!(matches!(resilient_step(ListOutcome::TimedOut, &s(&["/p.ts"])), ResilientStep::FindRelated));
    match resilient_step(ListOutcome::Failed { message: "x".to_string() }, &[]) {
        ResilientStep::Fail { message } => assert_eq!(message, "x"),
        _ => panic!(),
    }
}
