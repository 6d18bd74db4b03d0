//! Which files a Jest run selects: production seeds and test files of the
//! selection, the keys its caches use, and the globs it excludes. Whether a
//! path is a test file is read from the file itself, so callers pass that
//! answer in.
use crate::fast_related::{
    contains_string, dedup_adjacent, dedup_adjacent_strings, dedup_first, dedup_first_strings, sort_strings, sort_strs,
};
use crate::jest_bridge::{normalize_abs_posix, normalize_abs_posix_spec, rank_of, rank_views};
use crate::live_progress::opt_str_view;
use crate::jest_discovery::repo_relative;
use crate::path_names::{path_strip_prefix, path_strip_prefix_of, to_slash};
use crate::text::{join, join_strs, owned, str_eq, views};
use vstd::prelude::*;

verus! {

/// The exclusion globs of a selection: all but `**/tests/**`.
pub open spec fn exclude_globs_spec(globs: Seq<Seq<char>>) -> Seq<Seq<char>>
    decreases globs.len(),
{
    if globs.len() == 0 {
        Seq::empty()
    } else if globs.last() == "**/tests/**"@ {
        exclude_globs_spec(globs.drop_last())
    } else {
        exclude_globs_spec(globs.drop_last()).push(globs.last())
    }
}

pub fn exclude_globs_for_selection(exclude_globs: &[String]) -> (res: Vec<String>)
    ensures
        views(res@) == exclude_globs_spec(views(exclude_globs@)),
{
    let ghost gv = views(exclude_globs@);
    let mut out: Vec<String> = Vec::new();
    let mut i: usize = 0;
    while i < exclude_globs.len()
        invariant
            i <= exclude_globs.len(),
            gv == views(exclude_globs@),
            views(out@) == exclude_globs_spec(gv.take(i as int)),
        decreases exclude_globs.len() - i,
    {
        assert(gv.take(i + 1).drop_last() =~= gv.take(i as int));
        assert(gv.take(i + 1).last() == exclude_globs@[i as int]@);
        if !str_eq(exclude_globs[i].as_str(), "**/tests/**") {
            let ghost before = views(out@);
            out.push(owned(exclude_globs[i].as_str()));
            assert(views(out@) =~= before.push(exclude_globs@[i as int]@));
        }
        i = i + 1;
    }
    assert(gv.take(exclude_globs.len() as int) =~= gv);
    out
}

/// The extras that `base` does not hold, in order (repeats among the
/// extras stay).
pub open spec fn missing_from(base: Seq<Seq<char>>, extras: Seq<Seq<char>>) -> Seq<Seq<char>>
    decreases extras.len(),
{
    if extras.len() == 0 {
        Seq::empty()
    } else if base.contains(extras.last()) {
        missing_from(base, extras.drop_last())
    } else {
        missing_from(base, extras.drop_last()).push(extras.last())
    }
}

/// `base`, then the extras it does not hold.
pub fn append_missing_paths_preserving_order(base: Vec<String>, extras: Vec<String>) -> (res: Vec<String>)
    ensures
        views(res@) == views(base@) + missing_from(views(base@), views(extras@)),
{
    let ghost bv = views(base@);
    let ghost ev = views(extras@);
    let mut out: Vec<String> = Vec::new();
    let mut k: usize = 0;
    while k < base.len()
        invariant
            k <= base.len(),
            bv == views(base@),
            views(out@) == bv.take(k as int),
        decreases base.len() - k,
    {
        let ghost before = views(out@);
        out.push(owned(base[k].as_str()));
        assert(views(out@) =~= before.push(bv[k as int]));
        assert(bv.take(k + 1) =~= bv.take(k as int).push(bv[k as int]));
        k = k + 1;
    }
    assert(bv.take(base.len() as int) =~= bv);
    let mut i: usize = 0;
    while i < extras.len()
        invariant
            i <= extras.len(),
            bv == views(base@),
            ev == views(extras@),
            views(out@) == bv + missing_from(bv, ev.take(i as int)),
        decreases extras.len() - i,
    {
        assert(ev.take(i + 1).drop_last() =~= ev.take(i as int));
        assert(ev.take(i + 1).last() == extras@[i as int]@);
        if !contains_string(&base, extras[i].as_str()) {
            let ghost before = views(out@);
            out.push(owned(extras[i].as_str()));
            assert(views(out@) =~= before.push(ev[i as int]));
        }
        i = i + 1;
    }
    assert(ev.take(extras.len() as int) =~= ev);
    out
}

/// The repository-relative paths of the seeds that lie under the root.
pub open spec fn seeds_under_root(repo_root: Seq<char>, seeds: Seq<Seq<char>>) -> Seq<Seq<char>>
    decreases seeds.len(),
{
    if seeds.len() == 0 {
        Seq::empty()
    } else {
        match path_strip_prefix_of(seeds.last(), repo_root) {
            Some(r) => seeds_under_root(repo_root, seeds.drop_last()).push(r),
            None => seeds_under_root(repo_root, seeds.drop_last()),
        }
    }
}

/// The key of the production seeds: their distinct repository-relative
/// paths (seeds outside the root left out), sorted, joined by `|`.
pub open spec fn production_seeds_key_spec(repo_root: Seq<char>, seeds: Seq<Seq<char>>) -> Seq<char> {
    join(dedup_adjacent(sort_strs(seeds_under_root(repo_root, seeds), false)), seq!['|'])
}

pub fn selection_key_for_production_seeds(repo_root: &str, production_seeds: &[String]) -> (res: String)
    ensures
        res@ == production_seeds_key_spec(repo_root@, views(production_seeds@)),
{
    let ghost sv = views(production_seeds@);
    let mut parts: Vec<String> = Vec::new();
    let mut i: usize = 0;
    while i < production_seeds.len()
        invariant
            i <= production_seeds.len(),
            sv == views(production_seeds@),
            views(parts@) == seeds_under_root(repo_root@, sv.take(i as int)),
        decreases production_seeds.len() - i,
    {
        assert(sv.take(i + 1).drop_last() =~= sv.take(i as int));
        assert(sv.take(i + 1).last() == production_seeds@[i as int]@);
        match path_strip_prefix(production_seeds[i].as_str(), repo_root) {
            Some(r) => {
                let ghost before = views(parts@);
                let ghost rv = r@;
                parts.push(r);
                assert(views(parts@) =~= before.push(rv));
            },
            None => {},
        }
        i = i + 1;
    }
    assert(sv.take(production_seeds.len() as int) =~= sv);
    let sorted = sort_strings(parts, false);
    let uniq = dedup_adjacent_strings(sorted);
    proof {
        reveal_strlit("|");
        assert("|"@ =~= seq!['|']);
    }
    join_strs(&uniq, "|")
}

/// A selection made of test files only: not empty, and every path is a
/// test file (`is_test[i]` tells whether path `i` is one).
pub open spec fn tests_only_spec(paths: Seq<Seq<char>>, is_test: Seq<bool>) -> bool {
    paths.len() > 0 && forall|k: int| 0 <= k < is_test.len() ==> #[trigger] is_test[k]
}

pub fn selection_is_tests_only(selection_paths_abs: &[String], is_test: &Vec<bool>) -> (res: bool)
    requires
        is_test.len() == selection_paths_abs.len(),
    ensures
        res == tests_only_spec(views(selection_paths_abs@), is_test@),
{
    if selection_paths_abs.len() == 0 {
        return false;
    }
    let mut i: usize = 0;
    while i < is_test.len()
        invariant
            i <= is_test.len(),
            forall|k: int| 0 <= k < i ==> #[trigger] is_test@[k],
        decreases is_test.len() - i,
    {
        if !is_test[i] {
            return false;
        }
        i = i + 1;
    }
    true
}

/// The paths that are not test files, in order.
pub open spec fn production_seeds_spec(paths: Seq<Seq<char>>, is_test: Seq<bool>) -> Seq<Seq<char>>
    decreases paths.len(),
{
    if paths.len() == 0 || is_test.len() != paths.len() {
        Seq::empty()
    } else if is_test.last() {
        production_seeds_spec(paths.drop_last(), is_test.drop_last())
    } else {
        production_seeds_spec(paths.drop_last(), is_test.drop_last()).push(paths.last())
    }
}

pub fn production_seeds_abs(selection_paths_abs: &[String], is_test: &Vec<bool>) -> (res: Vec<String>)
    requires
        is_test.len() == selection_paths_abs.len(),
    ensures
        views(res@) == production_seeds_spec(views(selection_paths_abs@), is_test@),
{
    let ghost pv = views(selection_paths_abs@);
    let mut out: Vec<String> = Vec::new();
    let mut i: usize = 0;
    while i < selection_paths_abs.len()
        invariant
            i <= selection_paths_abs.len(),
            is_test.len() == selection_paths_abs.len(),
            pv == views(selection_paths_abs@),
            views(out@) == production_seeds_spec(pv.take(i as int), is_test@.take(i as int)),
        decreases selection_paths_abs.len() - i,
    {
        assert(pv.take(i + 1).drop_last() =~= pv.take(i as int));
        assert(is_test@.take(i + 1).drop_last() =~= is_test@.take(i as int));
        assert(pv.take(i + 1).last() == selection_paths_abs@[i as int]@);
        if !is_test[i] {
            let ghost before = views(out@);
            out.push(owned(selection_paths_abs[i].as_str()));
            assert(views(out@) =~= before.push(pv[i as int]));
        }
        i = i + 1;
    }
    assert(pv.take(selection_paths_abs.len() as int) =~= pv);
    assert(is_test@.take(selection_paths_abs.len() as int) =~= is_test@);
    out
}

/// The key of a selection: none when nothing is selected or only test
/// files are; else the production seeds' repository-relative paths, in
/// order, joined by `|`.
pub open spec fn selection_key_spec(
    repo_root: Seq<char>,
    selection_paths_abs: Seq<Seq<char>>,
    tests_only: bool,
    seeds: Seq<Seq<char>>,
) -> Option<Seq<char>> {
    if selection_paths_abs.len() == 0 || tests_only {
        None
    } else {
        Some(join(seeds.map_values(|p: Seq<char>| repo_relative(repo_root, p)), seq!['|']))
    }
}

pub fn selection_key(
    repo_root: &str,
    selection_paths_abs: &[String],
    selection_is_tests_only: bool,
    production_seeds_abs: &[String],
) -> (res: Option<String>)
    ensures
        crate::test_model::opt_seq(res) == selection_key_spec(
            repo_root@,
            views(selection_paths_abs@),
            selection_is_tests_only,
            views(production_seeds_abs@),
        ),
{
    if selection_paths_abs.len() == 0 || selection_is_tests_only {
        return None;
    }
    let ghost sv = views(production_seeds_abs@);
    let mut rel: Vec<String> = Vec::new();
    let mut i: usize = 0;
    while i < production_seeds_abs.len()
        invariant
            i <= production_seeds_abs.len(),
            sv == views(production_seeds_abs@),
            views(rel@) == sv.take(i as int).map_values(|p: Seq<char>| repo_relative(repo_root@, p)),
        decreases production_seeds_abs.len() - i,
    {
        let r = match path_strip_prefix(production_seeds_abs[i].as_str(), repo_root) {
            Some(r) => r,
            None => to_slash(production_seeds_abs[i].as_str()),
        };
        let ghost before = views(rel@);
        let ghost rv = r@;
        rel.push(r);
        assert(views(rel@) =~= before.push(rv));
        assert(sv.take(i + 1) =~= sv.take(i as int).push(sv[i as int]));
        assert(views(rel@) =~= sv.take(i + 1).map_values(|p: Seq<char>| repo_relative(repo_root@, p)));
        i = i + 1;
    }
    assert(sv.take(production_seeds_abs.len() as int) =~= sv);
    proof {
        reveal_strlit("|");
        assert("|"@ =~= seq!['|']);
    }
    assert(views(selection_paths_abs@).len() == selection_paths_abs.len());
    Some(join_strs(&rel, "|"))
}


/// Where finding the related tests starts: a selection of test files only
/// is itself the answer, a selection without a key selects nothing, and
/// any other goes to the search of test files for the seeds' names.
pub enum RelatedStart {
    Selected(Vec<String>),
    SearchFast,
}

pub fn related_selection_start(
    selection_is_tests_only: bool,
    selection_key: Option<&str>,
    selection_paths_abs: &[String],
) -> (res: RelatedStart)
    ensures
        selection_is_tests_only ==> (res matches RelatedStart::Selected(v) && views(v@) == views(
            selection_paths_abs@,
        )),
        !selection_is_tests_only && selection_key is None ==> (res matches RelatedStart::Selected(v)
            && v@.len() == 0),
        !selection_is_tests_only && selection_key is Some ==> res is SearchFast,
{
    if selection_is_tests_only {
        let mut out: Vec<String> = Vec::new();
        let mut i: usize = 0;
        while i < selection_paths_abs.len()
            invariant
                i <= selection_paths_abs.len(),
                views(out@) == views(selection_paths_abs@).take(i as int),
            decreases selection_paths_abs.len() - i,
        {
            let ghost before = views(out@);
            out.push(owned(selection_paths_abs[i].as_str()));
            assert(views(out@) =~= before.push(selection_paths_abs@[i as int]@));
            assert(views(selection_paths_abs@).take(i + 1) =~= views(selection_paths_abs@).take(i as int).push(
                selection_paths_abs@[i as int]@,
            ));
            i = i + 1;
        }
        assert(views(selection_paths_abs@).take(selection_paths_abs.len() as int) =~= views(
            selection_paths_abs@,
        ));
        return RelatedStart::Selected(out);
    }
    match selection_key {
        None => RelatedStart::Selected(Vec::new()),
        Some(_) => RelatedStart::SearchFast,
    }
}

/// What follows the search of test files: tests found are joined by the
/// tests of the seeds' HTTP routes, and on a run on changed files that list
/// then goes through the transitive refinement (see [`refine_step`]); with
/// none found, a run on changed files refines an empty list (it lists all
/// tests and keeps those that reach a seed), and any other run selects by
/// the import graph.
pub enum AfterFastSearch {
    AugmentWithRouteTests,
    AugmentThenRefine,
    DiscoverAndRefine,
    SelectByImports,
}

pub fn related_after_fast_search(found_count: usize, changed_given: bool) -> (res: AfterFastSearch)
    ensures
        found_count > 0 && !changed_given ==> res is AugmentWithRouteTests,
        found_count > 0 && changed_given ==> res is AugmentThenRefine,
        found_count == 0 && changed_given ==> res is DiscoverAndRefine,
        found_count == 0 && !changed_given ==> res is SelectByImports,
{
    if found_count > 0 {
        if changed_given {
            AfterFastSearch::AugmentThenRefine
        } else {
            AfterFastSearch::AugmentWithRouteTests
        }
    } else if changed_given {
        AfterFastSearch::DiscoverAndRefine
    } else {
        AfterFastSearch::SelectByImports
    }
}

/// The first decision of the transitive refinement: candidates found
/// already are the selection as they are (with no ranks); with none, all
/// tests are listed and those that reach a seed kept (see
/// [`refined_selection`]).
pub enum RefineStep {
    KeepCandidates(Vec<String>),
    DiscoverAll,
}

pub fn refine_step(candidates: Vec<String>) -> (res: RefineStep)
    ensures
        candidates@.len() > 0 ==> (res matches RefineStep::KeepCandidates(v) && v@ == candidates@),
        candidates@.len() == 0 ==> res is DiscoverAll,
{
    if candidates.len() > 0 {
        RefineStep::KeepCandidates(candidates)
    } else {
        RefineStep::DiscoverAll
    }
}

/// The tests of the seeds' HTTP routes, in order, then the related tests,
/// each path once where it first occurs.
pub open spec fn route_augmented_spec(route_tests: Seq<Seq<char>>, related: Seq<Seq<char>>) -> Seq<Seq<char>> {
    dedup_first(sort_strs(route_tests, false) + related)
}

pub fn augment_with_route_tests(route_tests: Vec<String>, related: Vec<String>) -> (res: Vec<String>)
    ensures
        views(res@) == route_augmented_spec(views(route_tests@), views(related@)),
{
    let mut all = sort_strings(route_tests, false);
    let ghost sorted = views(all@);
    let mut i: usize = 0;
    while i < related.len()
        invariant
            i <= related.len(),
            views(all@) == sorted + views(related@).take(i as int),
        decreases related.len() - i,
    {
        let ghost before = views(all@);
        all.push(owned(related[i].as_str()));
        assert(views(all@) =~= before.push(related@[i as int]@));
        assert(views(related@).take(i + 1) =~= views(related@).take(i as int).push(related@[i as int]@));
        i = i + 1;
    }
    assert(views(related@).take(related.len() as int) =~= views(related@));
    dedup_first_strings(all)
}

/// Each path normalized against the working directory.
pub open spec fn normalized_paths(paths: Seq<Seq<char>>, cwd: Option<Seq<char>>) -> Seq<Seq<char>> {
    paths.map_values(|p: Seq<char>| normalize_abs_posix_spec(p, cwd))
}

/// The ranks of keys by position, the last position first, so that the
/// first entry for a key holds its last position.
pub open spec fn index_ranks(keys: Seq<Seq<char>>) -> Seq<(Seq<char>, i64)> {
    Seq::new(keys.len(), |i: int| (keys[keys.len() - 1 - i], (keys.len() - 1 - i) as i64))
}

/// The last position of `key` in `keys`.
pub open spec fn last_index_of(keys: Seq<Seq<char>>, key: Seq<char>) -> Option<int>
    decreases keys.len(),
{
    if keys.len() == 0 {
        None
    } else if keys.last() == key {
        Some(keys.len() - 1)
    } else {
        last_index_of(keys.drop_last(), key)
    }
}

/// The rank of a path among paths ranked by position is the last position
/// at which its normalized form occurs; a path that does not occur has no
/// rank (`i64::MAX`).
pub proof fn law_index_ranks(keys: Seq<Seq<char>>, key: Seq<char>)
    requires
        keys.len() <= i64::MAX,
    ensures
        rank_of(index_ranks(keys), key) == match last_index_of(keys, key) {
            Some(i) => i as i64,
            None => i64::MAX,
        },
    decreases keys.len(),
{
    if keys.len() > 0 {
        law_index_ranks(keys.drop_last(), key);
        assert(index_ranks(keys).drop_first() =~= index_ranks(keys.drop_last()));
    }
}

/// The paths ranked by position, each by its normalized form (see
/// [`index_ranks`] and [`law_index_ranks`]).
pub fn ranks_by_index(paths: &Vec<String>, cwd: Option<&str>) -> (res: Vec<(String, i64)>)
    requires
        paths.len() <= i64::MAX,
    ensures
        rank_views(res@) == index_ranks(normalized_paths(views(paths@), opt_str_view(cwd))),
{
    let ghost keys = normalized_paths(views(paths@), opt_str_view(cwd));
    let n = paths.len();
    let mut out: Vec<(String, i64)> = Vec::new();
    let mut k: usize = n;
    while k > 0
        invariant
            k <= n,
            n == paths.len(),
            n <= i64::MAX,
            keys == normalized_paths(views(paths@), opt_str_view(cwd)),
            keys.len() == n,
            rank_views(out@) =~= index_ranks(keys).take((n - k) as int),
        decreases k,
    {
        k = k - 1;
        let key = normalize_abs_posix(paths[k].as_str(), cwd);
        let ghost before = rank_views(out@);
        out.push((key, k as i64));
        assert(rank_views(out@) =~= before.push((keys[k as int], k as i64)));
        assert(index_ranks(keys).take((n - k) as int) =~= index_ranks(keys).take((n - k - 1) as int).push(
            (keys[k as int], k as i64),
        ));
    }
    assert(index_ranks(keys).take(n as int) =~= index_ranks(keys));
    out
}

/// The ranks of the related tests by how directly they follow from the
/// seeds: the tests found for the seeds' names first, then the tests of the
/// seeds' HTTP routes that are not among them, each ranked by its position.
pub fn directness_ranks(related: Vec<String>, route_tests: Vec<String>, cwd: Option<&str>) -> (res: Vec<
    (String, i64),
>)
    requires
        related.len() + route_tests.len() <= i64::MAX,
    ensures
        rank_views(res@) == index_ranks(
            normalized_paths(
                views(related@) + missing_from(views(related@), views(route_tests@)),
                opt_str_view(cwd),
            ),
        ),
{
    let augmented = append_missing_paths_preserving_order(related, route_tests);
    proof {
        lemma_missing_from_len(views(related@), views(route_tests@));
    }
    ranks_by_index(&augmented, cwd)
}

proof fn lemma_missing_from_len(base: Seq<Seq<char>>, extras: Seq<Seq<char>>)
    ensures
        missing_from(base, extras).len() <= extras.len(),
    decreases extras.len(),
{
    if extras.len() > 0 {
        lemma_missing_from_len(base, extras.drop_last());
    }
}

/// The tests that reach a seed, as a run on changed files selects them:
/// sorted, each ranked by its position.
pub fn refined_selection(kept: Vec<String>, cwd: Option<&str>) -> (res: (Vec<String>, Vec<(String, i64)>))
    requires
        kept.len() <= i64::MAX,
    ensures
        views(res.0@) == sort_strs(views(kept@), false),
        rank_views(res.1@) == index_ranks(normalized_paths(sort_strs(views(kept@), false), opt_str_view(cwd))),
{
    let ghost kv = views(kept@);
    let sorted = sort_strings(kept, false);
    proof {
        crate::fast_related::lemma_sort_strs_len(kv, false);
    }
    let ranks = ranks_by_index(&sorted, cwd);
    (sorted, ranks)
}

} // verus!
