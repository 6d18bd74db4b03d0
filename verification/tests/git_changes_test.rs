use headlamp::git_changes::{
    changed_paths_kept, commit_range_for, diff_range, first_git_output_line, git_command_args,
    git_output_lines, merge_base_candidates, select_release_baseline, stable_version_of_tag,
    staged_diff_base, ChangedMode, CommitRange,
};

fn s(v: &[&str]) -> Vec<String> {
    v.iter().map(|x| x.to_string()).collect()
}

fn tag(name: &str, version: &str, commit: &str) -> (String, String, String) {
    (name.to_string(), version.to_string(), commit.to_string())
}

#[test]
fn git_runs_in_the_repository_with_any_owner() {
    assert_eq!(
        git_command_args("/repo", &s(&["diff-files", "--name-only", "--"])),
        s(&["-C", "/repo", "-c", "safe.directory=*", "diff-files", "--name-only", "--"])
    );
    assert_eq!(
        git_command_args("/repo", &s(&["diff", "--cached"])),
        s(&["-C", "/repo", "-c", "safe.directory=*", "-c", "alias.diff=diff", "diff", "--cached"])
    );
}

#[test]
fn git_output_is_read_as_trimmed_lines() {
    assert_eq!(git_output_lines("  a.ts \n\n b.ts\r\n   \n"), s(&["a.ts", "b.ts"]));
    assert_eq!(first_git_output_line("\n abc123 \nzzz\n"), "abc123");
    assert_eq!(first_git_output_line(""), "");
}

#[test]
fn staged_changes_compare_with_head_or_empty_tree() {
    assert_eq!(staged_diff_base(true), "HEAD");
    assert_eq!(staged_diff_base(false), "4b825dc642cb6eb9a060e54bf8d69288fbee4904");
}

#[test]
fn modes_choose_their_commits() {
    for mode in [ChangedMode::All, ChangedMode::Staged, ChangedMode::Unstaged] {
        assert!(matches!(commit_range_for(mode), CommitRange::Uncommitted));
    }
    assert!(matches!(commit_range_for(ChangedMode::LastCommit), CommitRange::LastCommit));
    assert!(matches!(commit_range_for(ChangedMode::Branch), CommitRange::SinceMergeBase));
    assert!(matches!(commit_range_for(ChangedMode::LastRelease), CommitRange::SinceReleaseTag));
    assert_eq!(diff_range(CommitRange::Uncommitted, None), None);
    assert_eq!(diff_range(CommitRange::LastCommit, None), Some(("HEAD^".to_string(), "HEAD".to_string())));
    assert_eq!(diff_range(CommitRange::SinceMergeBase, Some("abc")), Some(("abc".to_string(), "HEAD".to_string())));
    assert_eq!(diff_range(CommitRange::SinceMergeBase, None), Some(("HEAD^".to_string(), "HEAD".to_string())));
    assert_eq!(
        diff_range(CommitRange::SinceReleaseTag, Some("v1.2.0")),
        Some(("refs/tags/v1.2.0".to_string(), "HEAD".to_string()))
    );
    assert_eq!(diff_range(CommitRange::SinceReleaseTag, None), None);
    assert_eq!(merge_base_candidates(), s(&["origin/HEAD", "origin/main", "origin/master"]));
}

#[test]
fn changed_paths_drop_noise_and_repeats() {
    let kept = changed_paths_kept(
        &s(&["/r/src/a.ts", "/r/node_modules/x/i.js", "/r/coverage/lcov.info"]),
        &s(&["/r/src/b.ts", "/r/src/a.ts", "/r/.yalc/p/i.js", "/r/yalc.lock", "/r/src/c.ts"]),
    );
    assert_eq!(kept, s(&["/r/src/a.ts", "/r/src/b.ts", "/r/src/c.ts"]));
}

#[test]
fn tags_name_stable_versions() {
    assert_eq!(stable_version_of_tag("v1.2.3"), Some("1.2.3".to_string()));
    assert_eq!(stable_version_of_tag("release-2.0.0+build.7"), Some("2.0.0+build.7".to_string()));
    assert_eq!(stable_version_of_tag("v2.0.0-rc.1"), None);
    assert_eq!(stable_version_of_tag("nightly"), None);
    assert_eq!(stable_version_of_tag("v1.02.3"), None);
}

#[test]
fn release_baseline_is_below_the_release_on_head() {
    let tags = vec![tag("v1.0.0", "1.0.0", "c1"), tag("v1.1.0", "1.1.0", "c2"), tag("v2.0.0", "2.0.0", "head")];
    assert_eq!(select_release_baseline("head", &tags), Some("v1.1.0".to_string()));
    assert_eq!(select_release_baseline("other", &tags), Some("v2.0.0".to_string()));
    assert_eq!(select_release_baseline("head", &vec![tag("v2.0.0", "2.0.0", "head")]), None);
    assert_eq!(select_release_baseline("head", &vec![]), None);
    let unordered = vec![tag("v1.10.0", "1.10.0", "c3"), tag("v1.9.0", "1.9.0", "c4")];
    assert_eq!(select_release_baseline("head", &unordered), Some("v1.10.0".to_string()));
}

#[test]
fn last_commit_keeps_committed_staged_and_unstaged() {
    let range = diff_range(commit_range_for(ChangedMode::LastCommit), None);
    assert_eq!(range, Some(("HEAD^".to_string(), "HEAD".to_string())));
    let kept = changed_paths_kept(
        &s(&["/repo/committed.txt"]),
        &s(&["/repo/staged.txt", "/repo/unstaged.txt"]),
    );
    assert!(kept.contains(&"/repo/committed.txt".to_string()));
    assert!(kept.contains(&"/repo/staged.txt".to_string()));
    assert!(kept.contains(&"/repo/unstaged.txt".to_string()));
}

#[test]
fn staged_mode_keeps_every_uncommitted_change() {
    assert_eq!(diff_range(commit_range_for(ChangedMode::Staged), None), None);
    let kept = changed_paths_kept(&vec![], &s(&["/repo/staged.txt", "/repo/unstaged.txt"]));
    assert_eq!(kept, s(&["/repo/staged.txt", "/repo/unstaged.txt"]));
}
