use headlamp::fast_related::{
    fast_search_needed, fast_search_step, related_tests_from_rg_candidates, rg_candidate_paths, stable_repo_key_hash_12,
    FastSearchStep, RgOutcome,
};
use headlamp::format::cargo_test::CargoTestDialect;
use headlamp::format::unstructured_engine::UnstructuredStreamParser;
use headlamp::jest_config::{append_config_arg_for, existing_jest_configs};

fn s(v: &[&str]) -> Vec<String> {
    v.iter().map(|x| x.to_string()).collect()
}

#[test]
fn search_output_keeps_existing_paths_sorted_once() {
    let out = "b.test.ts\n\n/abs/a.test.ts\nc.test.ts\nb.test.ts\n";
    assert_eq!(
        rg_candidate_paths(out, "/r"),
        s(&["/r/b.test.ts", "/abs/a.test.ts", "/r/c.test.ts", "/r/b.test.ts"])
    );
    assert_eq!(
        related_tests_from_rg_candidates(out, "/r", &vec![true, true, false, true]),
        s(&["/abs/a.test.ts", "/r/b.test.ts"])
    );
    assert!(related_tests_from_rg_candidates(out, "/r", &vec![false, false, false, false]).is_empty());
}

#[test]
fn search_is_skipped_or_read_by_its_end() {
    assert!(!fast_search_needed(&[], &s(&["x"])));
    assert!(!fast_search_needed(&s(&["/r/a.ts"]), &vec![]));
    assert!(fast_search_needed(&s(&["/r/a.ts"]), &s(&["a"])));
    assert!(matches!(fast_search_step(RgOutcome::NotInstalled), FastSearchStep::NoTests));
    assert!(matches!(fast_search_step(RgOutcome::TimedOut), FastSearchStep::NoTests));
    assert!(matches!(fast_search_step(RgOutcome::RunFailed), FastSearchStep::Error));
    assert!(matches!(fast_search_step(RgOutcome::Exited(Some(0))), FastSearchStep::ReadOutput));
    assert!(matches!(fast_search_step(RgOutcome::Exited(Some(1))), FastSearchStep::ReadOutput));
    assert!(matches!(fast_search_step(RgOutcome::Exited(Some(2))), FastSearchStep::NoTests));
    assert!(matches!(fast_search_step(RgOutcome::Exited(None)), FastSearchStep::NoTests));
}

#[test]
fn configs_found_by_their_flags() {
    assert_eq!(
        existing_jest_configs("/r", &vec![false, true, false, true, false, false]),
        s(&["/r/jest.config.js", "/r/jest.config.ts"])
    );
    assert!(existing_jest_configs("/r", &vec![false; 6]).is_empty());
    assert_eq!(
        append_config_arg_for(&s(&["--ci"]), "/r", &vec![false, false, true, false, false, false]),
        s(&["--ci", "--config", "jest.config.mjs"])
    );
    assert_eq!(append_config_arg_for(&s(&["--ci"]), "/r", &vec![false; 6]), s(&["--ci"]));
}

#[test]
fn repo_key_is_twelve_hex_digits() {
    let k = stable_repo_key_hash_12("/some/repo/.git");
    assert_eq!(k.len(), 12);
    assert!(k.chars().all(|c| c.is_ascii_digit() || ('a'..='f').contains(&c)));
}

#[test]
fn default_parser_reads_like_one_given_the_default_dialect() {
    let lines = ["     Running tests/it.rs (target/debug/deps/it-1)", "running 1 test", "test a ... ok", ""];
    let mut p1 = UnstructuredStreamParser::<CargoTestDialect>::new_default("/repo");
    let mut p2 = UnstructuredStreamParser::new("/repo", CargoTestDialect);
    for l in lines {
        assert_eq!(p1.push_line(l).len(), p2.push_line(l).len());
    }
    let m1 = p1.finalize().expect("a run");
    let m2 = p2.finalize().expect("a run");
    assert_eq!(m1.test_results.len(), m2.test_results.len());
    assert_eq!(m1.test_results[0].test_file_path, m2.test_results[0].test_file_path);
}
