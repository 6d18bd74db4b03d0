use headlamp::fast_related::{
    related_cache_key, related_from_cache_hit, repo_key_from_canonical, repo_key_source, short_commit_id,
    stable_repo_key_input, GitEntry, RepoKeySource,
};
use headlamp::jest_selection::{
    augment_with_route_tests, directness_ranks, ranks_by_index, refined_selection, related_after_fast_search,
    related_selection_start, refine_step, AfterFastSearch, RefineStep, RelatedStart,
};

fn s(v: &[&str]) -> Vec<String> {
    v.iter().map(|x| x.to_string()).collect()
}

fn r(v: &[(&str, i64)]) -> Vec<(String, i64)> {
    v.iter().map(|(k, i)| (k.to_string(), *i)).collect()
}

#[test]
fn tests_only_selection_is_its_own_answer() {
    let paths = s(&["/repo/a.test.ts", "/repo/b.test.ts"]);
    match related_selection_start(true, Some("key"), &paths) {
        RelatedStart::Selected(v) => assert_eq!(v, paths),
        RelatedStart::SearchFast => panic!("expected the selection itself"),
    }
}

#[test]
fn selection_without_key_selects_nothing() {
    match related_selection_start(false, None, &s(&["/repo/src/a.ts"])) {
        RelatedStart::Selected(v) => assert!(v.is_empty()),
        RelatedStart::SearchFast => panic!("expected an empty selection"),
    }
}

#[test]
fn selection_with_key_searches() {
    assert!(matches!(
        related_selection_start(false, Some("src/a.ts"), &s(&["/repo/src/a.ts"])),
        RelatedStart::SearchFast
    ));
}

#[test]
fn after_search_steps() {
    assert!(matches!(related_after_fast_search(2, true), AfterFastSearch::AugmentThenRefine));
    assert!(matches!(related_after_fast_search(2, false), AfterFastSearch::AugmentWithRouteTests));
    assert!(matches!(related_after_fast_search(0, true), AfterFastSearch::DiscoverAndRefine));
    assert!(matches!(related_after_fast_search(0, false), AfterFastSearch::SelectByImports));
}

#[test]
fn route_tests_come_first_sorted_and_once() {
    let out = augment_with_route_tests(
        s(&["/r/z.test.ts", "/r/b.test.ts", "/r/z.test.ts"]),
        s(&["/r/a.test.ts", "/r/b.test.ts"]),
    );
    assert_eq!(out, s(&["/r/b.test.ts", "/r/z.test.ts", "/r/a.test.ts"]));
}

#[test]
fn ranks_follow_positions_last_one_wins() {
    let ranks = ranks_by_index(&s(&["/r/a.ts", "/r/b.ts", "/r/a.ts"]), None);
    assert_eq!(ranks, r(&[("/r/a.ts", 2), ("/r/b.ts", 1), ("/r/a.ts", 0)]));
    let first_a = ranks.iter().find(|(k, _)| k == "/r/a.ts").map(|(_, i)| *i);
    assert_eq!(first_a, Some(2));
}

#[test]
fn ranks_normalize_relative_paths() {
    let ranks = ranks_by_index(&s(&["src\\a.ts", "/abs/b.ts"]), Some("/work"));
    assert_eq!(ranks, r(&[("/abs/b.ts", 1), ("/work/src/a.ts", 0)]));
}

#[test]
fn directness_puts_related_before_route_tests() {
    let ranks = directness_ranks(s(&["/r/x.test.ts"]), s(&["/r/x.test.ts", "/r/y.test.ts"]), None);
    assert_eq!(ranks, r(&[("/r/y.test.ts", 1), ("/r/x.test.ts", 0)]));
}

#[test]
fn refined_selection_is_sorted_and_ranked() {
    let (sel, ranks) = refined_selection(s(&["/r/b.test.ts", "/r/a.test.ts"]), None);
    assert_eq!(sel, s(&["/r/a.test.ts", "/r/b.test.ts"]));
    assert_eq!(ranks, r(&[("/r/b.test.ts", 1), ("/r/a.test.ts", 0)]));
}

#[test]
fn cache_key_names_the_commit_or_nohead() {
    assert_eq!(related_cache_key(Some("abcd1234"), "src/a.ts"), "abcd1234::src/a.ts");
    assert_eq!(related_cache_key(None, "src/a.ts|src/b.ts"), "nohead::src/a.ts|src/b.ts");
}

#[test]
fn commit_id_is_cut_to_eight() {
    assert_eq!(short_commit_id("0123456789abcdef"), "01234567");
    assert_eq!(short_commit_id("abc"), "abc");
}

#[test]
fn cache_hit_used_only_when_every_path_exists() {
    let hit = s(&["/r/a.test.ts", "/r/c.test.ts", "/r/c.test.ts", "/r/b.test.ts"]);
    assert_eq!(
        related_from_cache_hit(Some(hit.clone()), &vec![true, true, true, true]),
        Some(s(&["/r/c.test.ts", "/r/b.test.ts", "/r/a.test.ts"]))
    );
    assert_eq!(related_from_cache_hit(Some(hit), &vec![true, false, true, true]), None);
    assert_eq!(related_from_cache_hit(None, &vec![]), None);
}

#[test]
fn repo_key_of_a_worktree_is_two_levels_above_its_gitdir() {
    let key = stable_repo_key_input(
        "/nonexistent-headlamp-repo",
        GitEntry::File("gitdir: /nonexistent-headlamp-main/.git/worktrees/wt\n".to_string()),
    );
    assert_eq!(key, "/nonexistent-headlamp-main/.git");
}

#[test]
fn repo_key_of_a_relative_gitdir_is_joined_to_the_root() {
    let key = stable_repo_key_input(
        "/nonexistent-headlamp-repo",
        GitEntry::File("gitdir: ../main/.git/worktrees/wt".to_string()),
    );
    assert_eq!(key, "/nonexistent-headlamp-repo/../main/.git");
}

#[test]
fn repo_key_without_git_is_the_root() {
    assert_eq!(stable_repo_key_input("/nonexistent-headlamp-repo", GitEntry::Missing), "/nonexistent-headlamp-repo");
    assert_eq!(
        stable_repo_key_input("/nonexistent-headlamp-repo", GitEntry::File("nothing here".to_string())),
        "/nonexistent-headlamp-repo"
    );
    assert_eq!(
        stable_repo_key_input("/nonexistent-headlamp-repo", GitEntry::Dir),
        "/nonexistent-headlamp-repo/.git"
    );
}

#[test]
fn repo_key_sources() {
    assert!(matches!(repo_key_source("/r", &GitEntry::Dir), RepoKeySource::Path(p) if p == "/r/.git"));
    assert!(matches!(
        repo_key_source("/r", &GitEntry::File("gitdir: wt/.git".to_string())),
        RepoKeySource::GitDirOf(p) if p == "/r/wt/.git"
    ));
    assert!(matches!(
        repo_key_source("/r", &GitEntry::File("gitdir: /m/.git/worktrees/x".to_string())),
        RepoKeySource::GitDirOf(p) if p == "/m/.git/worktrees/x"
    ));
    assert!(matches!(repo_key_source("/r", &GitEntry::Missing), RepoKeySource::Path(p) if p == "/r"));
}

#[test]
fn repo_key_from_the_canonical_form() {
    let dir = RepoKeySource::Path("/r/.git".to_string());
    assert_eq!(repo_key_from_canonical(&dir, Some("/real/r/.git".to_string())), "/real/r/.git");
    assert_eq!(repo_key_from_canonical(&dir, None), "/r/.git");
    let wt = RepoKeySource::GitDirOf("/m/.git/worktrees/x".to_string());
    assert_eq!(repo_key_from_canonical(&wt, None), "/m/.git");
    assert_eq!(repo_key_from_canonical(&wt, Some("/real/m/.git/worktrees/x".to_string())), "/real/m/.git");
    let top = RepoKeySource::GitDirOf("/".to_string());
    assert_eq!(repo_key_from_canonical(&top, None), "/");
}

#[test]
fn refinement_keeps_candidates_found() {
    match refine_step(s(&["/r/a.test.ts"])) {
        RefineStep::KeepCandidates(v) => assert_eq!(v, s(&["/r/a.test.ts"])),
        RefineStep::DiscoverAll => panic!("expected the candidates"),
    }
    assert!(matches!(refine_step(vec![]), RefineStep::DiscoverAll));
}
