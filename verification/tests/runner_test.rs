use headlamp::core_version;
use headlamp::diagnostics_trace::diagnostics_dir_from;
use headlamp::fast_related::{
    build_seed_terms_ts_like, gitdir_from_git_file, normalize_related, related_tests_from_rg_output,
    rg_args, sha1_12, sort_paths_for_ts_parity, stable_repo_key_hash_12,
};
use headlamp::format::libtest_json::{json_object_line, LibtestJsonEvent, LibtestJsonStreamParser};
use headlamp::format::nextest::{
    parse_nextest_libtest_json_output, simplify_nextest_test_name, NextestEvent, NextestMeta,
    NextestStreamParser,
};
use headlamp::format::time::Duration;
use headlamp::help::help_text;
use headlamp::jest_config::{append_config_arg_with, config_token, list_all_jest_configs};
use headlamp::jest_discovery::{
    args_for_discovery, jest_bin, listed_tests_from_output, selection_key_for, test_status_suffix,
};
use headlamp::jest_ownership::{absolute_candidates_from_relative, dedup_sorted, match_candidate_suffixes};
use headlamp::profile::{enabled_from, span, ProfileSpan};
use headlamp::project::classify::{
    classify_after_manifest, classify_by_markers, classify_start, is_test_fn_name, rust_kind_from_content,
    ts_js_kind_from_content, ClassifyStep, DependencyLanguage, FileKind,
};
use headlamp::project::rust_manifest::{canonical_paths, target_paths, RustManifestPaths};

fn s(v: &[&str]) -> Vec<String> {
    v.iter().map(|x| x.to_string()).collect()
}

#[test]
fn libtest_events_build_one_suite() {
    let mut p = LibtestJsonStreamParser::new("/repo", "tests/it.rs");
    assert!(p.push_line("running 2 tests", None).is_none());
    let u = p
        .push_event(LibtestJsonEvent::Test {
            event: "ok".to_string(),
            name: "b_test".to_string(),
            duration: Some(Duration::from_millis(1500)),
            stdout: None,
        })
        .expect("reported");
    assert_eq!(u.status, "passed");
    let u2 = p.push_line(
        " {\"type\":\"test\"} ",
        Some(LibtestJsonEvent::Test {
            event: "failed".to_string(),
            name: "a_test".to_string(),
            duration: None,
            stdout: Some("thread 'a_test' panicked at tests/it.rs:4:5:\nboom".to_string()),
        }),
    );
    assert_eq!(u2.map(|u| u.status), Some("failed".to_string()));
    assert!(p
        .push_event(LibtestJsonEvent::Test {
            event: "started".to_string(),
            name: "c".to_string(),
            duration: None,
            stdout: None,
        })
        .is_none());
    let m = p.finalize().expect("model");
    let suite = &m.test_results[0];
    assert_eq!(suite.test_file_path, "/repo/tests/it.rs");
    assert_eq!(suite.status, "failed");
    let titles: Vec<&str> = suite.test_results.iter().map(|t| t.title.as_str()).collect();
    assert_eq!(titles, vec!["a_test", "b_test"]);
    let failed = &suite.test_results[0];
    assert_eq!(failed.location.map(|l| (l.line, l.column)), Some((4, 5)));
    assert_eq!(suite.test_results[1].duration, 1500);
    assert_eq!(m.aggregated.num_failed_tests, 1);
    assert_eq!(m.aggregated.num_passed_tests, 1);
    assert!(!m.aggregated.success);
}

#[test]
fn libtest_without_tests_gives_no_model() {
    assert!(LibtestJsonStreamParser::new("/repo", "x.rs").finalize().is_none());
    assert_eq!(json_object_line("  {\"a\":1}  "), Some("{\"a\":1}".to_string()));
    assert_eq!(json_object_line("{ half"), None);
}

#[test]
fn nextest_groups_tests_by_binary() {
    let root = "/nonexistent-repo-for-tests";
    let mut p = NextestStreamParser::new(root);
    assert!(p
        .push_line(
            "{\"type\":\"suite\"}",
            Some(NextestEvent::Suite {
                event: "started".to_string(),
                nextest: Some(NextestMeta {
                    crate_name: "mycrate".to_string(),
                    test_binary: "it".to_string(),
                    kind: "test".to_string(),
                }),
            }),
        )
        .is_none());
    assert!(p.push_line("   Compiling mycrate", None).is_none());
    let u = p
        .push_line(
            "{\"type\":\"test\"}",
            Some(NextestEvent::Test {
                event: "failed".to_string(),
                name: "mycrate::it$module::case_one".to_string(),
                duration: None,
                duration_ms: 250,
                stdout: Some("line1\n  \nline2".to_string()),
            }),
        )
        .expect("reported");
    assert_eq!(u.test_name, "module::case_one");
    assert_eq!(u.suite_path, format!("{root}/tests/it.rs"));
    assert_eq!(u.duration.map(|d| (d.secs, d.subsec_nanos)), Some((0, 250_000_000)));
    let m = p.finalize().expect("model");
    assert_eq!(m.test_results.len(), 1);
    let suite = &m.test_results[0];
    assert_eq!(suite.status, "failed");
    let logs: Vec<String> = suite
        .console
        .as_ref()
        .expect("logs")
        .iter()
        .map(|e| e.message.clone().unwrap_or_default())
        .collect();
    assert_eq!(logs, s(&["line1", "line2", "Compiling mycrate"]));
    assert_eq!(suite.test_results[0].failure_messages, s(&["line1\n  \nline2"]));
    assert_eq!(m.aggregated.num_total_tests, 1);
    assert_eq!(m.aggregated.num_failed_test_suites, 1);
    assert!(!m.aggregated.success);
}

#[test]
fn nextest_whole_output() {
    let out = "{\"type\":\"test\"}\nnoise";
    let decoded = vec![
        Some(NextestEvent::Test {
            event: "ok".to_string(),
            name: "c::lib$t".to_string(),
            duration: None,
            duration_ms: 0,
            stdout: None,
        }),
        None,
    ];
    let m = parse_nextest_libtest_json_output("/nonexistent-root", out, decoded).expect("model");
    assert_eq!(m.test_results[0].test_file_path, "/nonexistent-root/tests/lib.rs");
    assert!(m.aggregated.success);
    assert_eq!(simplify_nextest_test_name("a::b$c::d"), "c::d");
    assert_eq!(simplify_nextest_test_name("plain"), "plain");
}

#[test]
fn repo_keys_hash_with_sha1() {
    assert_eq!(sha1_12("abc"), "a9993e364706");
    assert_eq!(stable_repo_key_hash_12("abc"), "a9993e364706");
    assert_eq!(
        gitdir_from_git_file("# x\nGitDir: ../.git/worktrees/w \n"),
        Some("../.git/worktrees/w".to_string())
    );
    assert_eq!(gitdir_from_git_file("gitdir:   \n"), None);
}

#[test]
fn related_paths_order() {
    let mut v = s(&["a", "c", "b"]);
    sort_paths_for_ts_parity(&mut v);
    assert_eq!(v, s(&["c", "b", "a"]));
    assert_eq!(normalize_related(s(&["b", "a", "b", "c"])), s(&["c", "b", "a"]));
}

#[test]
fn seed_terms_and_search_arguments() {
    let terms = build_seed_terms_ts_like(
        "/repo",
        &s(&["/repo/src/utils/math.TS", "/repo/src/utils/math.TS"]),
    );
    assert_eq!(terms, s(&["src/utils/math", "math", "utils/math"]));
    let args = rg_args(&s(&["g1"]), &s(&["ex"]), &s(&["t"]), "/r");
    assert_eq!(
        args,
        s(&[
            "--no-messages", "--line-number", "--color", "never", "--files-with-matches", "-S", "-F",
            "--no-ignore", "-g", "g1", "-g", "!ex", "-e", "t", "/r",
        ])
    );
    let found = related_tests_from_rg_output("tmp\n  \nnonexistent-xyz-123\ntmp\n", "/");
    assert_eq!(found, s(&["/tmp"]));
}

#[test]
fn jest_configs_and_arguments() {
    assert_eq!(config_token("/repo", "/repo/jest.config.js"), "jest.config.js");
    assert_eq!(config_token("/repo", "/other/jest.config.js"), "/other/jest.config.js");
    assert_eq!(
        append_config_arg_with(&s(&["--ci"]), "/repo", Some("/repo/jest.config.js")),
        s(&["--ci", "--config", "jest.config.js"])
    );
    assert_eq!(
        append_config_arg_with(&s(&["--config", "x"]), "/repo", Some("/repo/jest.config.js")),
        s(&["--config", "x"])
    );
    assert!(list_all_jest_configs("/nonexistent-root-xyz").is_empty());
    assert_eq!(jest_bin("/repo"), "/repo/node_modules/.bin/jest");
}

#[test]
fn discovery_arguments_drop_watch_and_coverage() {
    let out = args_for_discovery(&s(&[
        "run",
        "--watch",
        "--coverage",
        "out",
        "--coverageReporters=lcov",
        "-t",
        "x",
        "--coverageDirectory",
        "-v",
    ]));
    assert_eq!(out, s(&["-t", "x", "-v", "--no-watchman"]));
    assert_eq!(args_for_discovery(&out), out);
    assert_eq!(args_for_discovery(&s(&["--no-watchman"])), s(&["--no-watchman"]));
}

#[test]
fn listings_and_keys() {
    assert_eq!(
        listed_tests_from_output("  \n", "/a/x.test.ts\n\n /b/y.test.ts "),
        s(&["/a/x.test.ts", "/b/y.test.ts"])
    );
    assert_eq!(
        selection_key_for("/repo", &s(&["/repo/b.ts", "/repo/a.ts", "/other/c.ts"])),
        "/other/c.ts|a.ts|b.ts"
    );
    assert_eq!(test_status_suffix(vec![]), "");
    assert_eq!(test_status_suffix(s(&["b", "a", "b"])), ":fcd127ff");
}

#[test]
fn project_ownership_helpers() {
    assert_eq!(
        match_candidate_suffixes(s(&["/p/src/a.test.ts", "/p/src/b.test.ts"]), &s(&["src/a.test.ts"])),
        s(&["/p/src/a.test.ts"])
    );
    assert_eq!(dedup_sorted(s(&["b", "a", "b"])), s(&["a", "b"]));
    assert_eq!(absolute_candidates_from_relative("/p", &s(&["x/y.ts"])), s(&["/p/x/y.ts"]));
}

#[test]
fn file_kinds() {
    assert_eq!(classify_by_markers(true, true), FileKind::Mixed);
    assert_eq!(classify_by_markers(true, false), FileKind::Test);
    assert_eq!(classify_by_markers(false, true), FileKind::Production);
    let m = RustManifestPaths::new(s(&["/c/tests/t.rs"]), s(&["/c/src/lib.rs"]));
    assert_eq!(m.classify("/c/src/lib.rs"), Some(FileKind::Production));
    assert_eq!(m.classify("/c/tests/t.rs"), Some(FileKind::Test));
    assert_eq!(m.classify("/c/other.rs"), None);
}

#[test]
fn profiling_and_misc() {
    assert!(enabled_from(Some("yes")));
    assert!(!enabled_from(Some("no")));
    assert!(ProfileSpan::new("x", false).is_none());
    let sp = span("load", true).expect("span");
    assert_eq!(sp.report_line(Duration::from_secs(2)), "[headlamp-profile] load took 2s");
    assert!(help_text().contains("--coverage"));
    assert_eq!(core_version(), "0.1.0");
    assert_eq!(diagnostics_dir_from(Some("  /tmp/d ")), Some("/tmp/d".to_string()));
    assert_eq!(diagnostics_dir_from(Some("   ")), None);
}

#[test]
fn manifest_targets_are_joined_to_the_crate_root() {
    let (tests, production) = target_paths(
        "/nonexistent-headlamp-crate",
        Some("src/lib.rs".to_string()),
        s(&["src/bin/a.rs", "src/bin/b.rs"]),
        s(&["tests/it.rs"]),
    );
    assert_eq!(tests, s(&["/nonexistent-headlamp-crate/tests/it.rs"]));
    assert_eq!(
        production,
        s(&[
            "/nonexistent-headlamp-crate/src/lib.rs",
            "/nonexistent-headlamp-crate/src/bin/a.rs",
            "/nonexistent-headlamp-crate/src/bin/b.rs",
        ])
    );
    let (_, only_bins) = target_paths("/c", None, s(&["main.rs"]), vec![]);
    assert_eq!(only_bins, s(&["/c/main.rs"]));
    assert_eq!(canonical_paths(&tests), tests);
}

#[test]
fn classification_starts_with_the_extension() {
    assert!(matches!(classify_start(DependencyLanguage::Rust, "/c/src/lib.rs"), ClassifyStep::AskManifest));
    assert!(matches!(
        classify_start(DependencyLanguage::Rust, "/c/src/a.ts"),
        ClassifyStep::Known(FileKind::Unknown)
    ));
    assert!(matches!(classify_start(DependencyLanguage::TsJs, "/w/a.test.mts"), ClassifyStep::AskManifest));
    assert!(matches!(classify_start(DependencyLanguage::TsJs, "/w/README"), ClassifyStep::Known(FileKind::Unknown)));
    assert!(matches!(classify_after_manifest(Some(FileKind::Test)), ClassifyStep::Known(FileKind::Test)));
    assert!(matches!(classify_after_manifest(None), ClassifyStep::ReadContent));
    assert_eq!(rust_kind_from_content(Some((true, true))), FileKind::Mixed);
    assert_eq!(rust_kind_from_content(Some((false, true))), FileKind::Production);
    assert_eq!(rust_kind_from_content(None), FileKind::Unknown);
    assert_eq!(ts_js_kind_from_content(Some(true)), FileKind::Test);
    assert_eq!(ts_js_kind_from_content(Some(false)), FileKind::Production);
    assert_eq!(ts_js_kind_from_content(None), FileKind::Unknown);
    assert!(is_test_fn_name("describe") && is_test_fn_name("it") && is_test_fn_name("test"));
    assert!(!is_test_fn_name("expect"));
}
