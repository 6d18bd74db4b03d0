//! Which candidate test files belong to one Jest project: matching the
//! project's listed tests against the candidates, and the fallbacks.
use crate::fast_related::{dedup_adjacent, dedup_adjacent_strings, sort_strings, sort_strs};
use crate::path_names::{path_join, path_join_of, to_slash, to_slash_of};
use crate::text::{chars_of, concat2, ends_with, ends_with_str, owned, split_char, split_char_str, string_of, views};
use crate::jest_bridge::is_rooted;
use crate::jest_config::{config_token, config_token_spec};
use crate::path_names::{canonicalize_path, path_diff, path_diff_of, path_parent, path_parent_of};
use crate::test_model::opt_seq;
use vstd::prelude::*;

verus! {

/// A listed test matches a relative pattern when it ends with the pattern
/// (after a slash or not) or with the pattern's last segment.
pub open spec fn matches_pattern(abs: Seq<char>, rel: Seq<char>) -> bool {
    let base = split_char(rel, '/').last();
    ends_with(abs, seq!['/'] + rel) || ends_with(abs, rel) || ends_with(abs, seq!['/'] + base) || ends_with(abs, base)
}

/// Whether some pattern matches.
pub open spec fn matches_any(abs: Seq<char>, rels: Seq<Seq<char>>) -> bool {
    exists|k: int| 0 <= k < rels.len() && matches_pattern(abs, #[trigger] rels[k])
}

/// The listed tests that match a pattern, in order.
pub open spec fn matching(all: Seq<Seq<char>>, rels: Seq<Seq<char>>) -> Seq<Seq<char>>
    decreases all.len(),
{
    if all.len() == 0 {
        Seq::empty()
    } else {
        let r = matching(all.drop_last(), rels);
        if matches_any(all.last(), rels) {
            r.push(all.last())
        } else {
            r
        }
    }
}

fn matches_pattern_exec(abs: &str, rel: &str) -> (res: bool)
    ensures
        res == matches_pattern(abs@, rel@),
{
    let segs = split_char_str(rel, '/');
    proof {
        crate::text::lemma_split_char_nonempty(rel@, '/');
        reveal_strlit("/");
        assert("/"@ =~= seq!['/']);
    }
    let base = segs[segs.len() - 1].as_str();
    let with_slash = concat2("/", rel);
    let base_slash = concat2("/", base);
    ends_with_str(abs, with_slash.as_str()) || ends_with_str(abs, rel) || ends_with_str(abs, base_slash.as_str())
        || ends_with_str(abs, base)
}

/// The listed tests of a project that match one of the candidates'
/// relative patterns.
pub fn match_candidate_suffixes(all_in_project: Vec<String>, relative_patterns: &[String]) -> (res: Vec<String>)
    ensures
        views(res@) == matching(views(all_in_project@), views(relative_patterns@)),
{
    let mut out: Vec<String> = Vec::new();
    let mut i: usize = 0;
    let ghost av = views(all_in_project@);
    let ghost rv = views(relative_patterns@);
    assert(av.take(0) =~= Seq::<Seq<char>>::empty());
    while i < all_in_project.len()
        invariant
            i <= all_in_project.len(),
            av == views(all_in_project@),
            rv == views(relative_patterns@),
            views(out@) == matching(av.take(i as int), rv),
        decreases all_in_project.len() - i,
    {
        assert(av.take(i + 1).drop_last() =~= av.take(i as int));
        assert(av.take(i + 1).last() == all_in_project@[i as int]@);
        let abs = all_in_project[i].as_str();
        let mut found = false;
        let mut k: usize = 0;
        while k < relative_patterns.len()
            invariant
                k <= relative_patterns.len(),
                rv == views(relative_patterns@),
                found == exists|j: int| 0 <= j < k && matches_pattern(abs@, #[trigger] rv[j]),
            decreases relative_patterns.len() - k,
        {
            assert(rv[k as int] == relative_patterns@[k as int]@);
            if matches_pattern_exec(abs, relative_patterns[k].as_str()) {
                found = true;
            }
            k = k + 1;
        }
        if found {
            let ghost before = views(out@);
            out.push(owned(abs));
            assert(views(out@) =~= before.push(abs@));
        }
        i = i + 1;
    }
    assert(av.take(all_in_project.len() as int) =~= av);
    out
}

/// Every backslash turned into a slash.
pub open spec fn backslashes_to_slashes(s: Seq<char>) -> Seq<char> {
    s.map_values(|c: char|
        if c == '\\' {
            '/'
        } else {
            c
        })
}

pub fn backslashes_to_slashes_str(s: &str) -> (res: String)
    ensures
        res@ == backslashes_to_slashes(s@),
{
    let v = chars_of(s);
    let mut out: Vec<char> = Vec::new();
    let mut i: usize = 0;
    while i < v.len()
        invariant
            i <= v.len(),
            v@ == s@,
            out@ == backslashes_to_slashes(s@).take(i as int),
        decreases v.len() - i,
    {
        let c = v[i];
        out.push(
            if c == '\\' {
                '/'
            } else {
                c
            },
        );
        assert(backslashes_to_slashes(s@).take(i + 1) =~= backslashes_to_slashes(s@).take(i as int).push(
            backslashes_to_slashes(s@)[i as int],
        ));
        i = i + 1;
    }
    assert(backslashes_to_slashes(s@).take(v.len() as int) =~= backslashes_to_slashes(s@));
    string_of(&out)
}

/// Each relative pattern joined onto the configuration's directory, with
/// forward slashes.
pub open spec fn absolute_from_relative_spec(config_dir: Seq<char>, rels: Seq<Seq<char>>) -> Seq<Seq<char>> {
    rels.map_values(|r: Seq<char>| backslashes_to_slashes(to_slash_of(path_join_of(config_dir, r))))
}

/// The candidates as paths under the configuration's directory.
pub fn absolute_candidates_from_relative(config_dir: &str, relative_patterns: &Vec<String>) -> (res: Vec<String>)
    ensures
        views(res@) == absolute_from_relative_spec(config_dir@, views(relative_patterns@)),
{
    let mut out: Vec<String> = Vec::new();
    let mut i: usize = 0;
    while i < relative_patterns.len()
        invariant
            i <= relative_patterns.len(),
            views(out@) == absolute_from_relative_spec(config_dir@, views(relative_patterns@).take(i as int)),
        decreases relative_patterns.len() - i,
    {
        let joined = path_join(config_dir, relative_patterns[i].as_str());
        let slashed = to_slash(joined.as_str());
        let p = backslashes_to_slashes_str(slashed.as_str());
        let ghost before = views(out@);
        let ghost pv = p@;
        out.push(p);
        assert(views(out@) =~= before.push(pv));
        assert(views(relative_patterns@).take(i + 1) =~= views(relative_patterns@).take(i as int).push(
            relative_patterns@[i as int]@,
        ));
        i = i + 1;
    }
    assert(views(relative_patterns@).take(relative_patterns.len() as int) =~= views(relative_patterns@));
    out
}

/// The paths sorted, each once.
pub fn dedup_sorted(items: Vec<String>) -> (res: Vec<String>)
    ensures
        views(res@) == dedup_adjacent(sort_strs(views(items@), false)),
{
    let sorted = sort_strings(items, false);
    dedup_adjacent_strings(sorted)
}


/// The pattern of a candidate relative to the configuration's directory:
/// an absolute candidate made relative (kept as it is when that fails), a
/// relative one kept; slashes forward.
pub open spec fn relative_pattern(config_dir: Seq<char>, cand: Seq<char>) -> Seq<char> {
    let p = if is_rooted(cand) {
        match path_diff_of(cand, config_dir) {
            Some(r) => r,
            None => cand,
        }
    } else {
        cand
    };
    backslashes_to_slashes(p)
}

pub open spec fn relative_patterns_spec(config_dir: Seq<char>, cands: Seq<Seq<char>>) -> Seq<Seq<char>> {
    cands.map_values(|c: Seq<char>| relative_pattern(config_dir, c))
}

/// The candidates as patterns relative to the configuration's directory
/// (see [`relative_pattern`]).
pub fn relative_patterns_for_candidates(config_dir: &str, candidates_abs: &[String]) -> (res: Vec<String>)
    ensures
        views(res@) == relative_patterns_spec(config_dir@, views(candidates_abs@)),
{
    let ghost cv = views(candidates_abs@);
    let mut out: Vec<String> = Vec::new();
    let mut i: usize = 0;
    while i < candidates_abs.len()
        invariant
            i <= candidates_abs.len(),
            cv == views(candidates_abs@),
            views(out@) == relative_patterns_spec(config_dir@, cv.take(i as int)),
        decreases candidates_abs.len() - i,
    {
        let c = candidates_abs[i].as_str();
        assert(cv[i as int] == c@);
        let v = chars_of(c);
        let p = if v.len() > 0 && v[0] == '/' {
            match path_diff(c, config_dir) {
                Some(r) => r,
                None => owned(c),
            }
        } else {
            owned(c)
        };
        let q = backslashes_to_slashes_str(p.as_str());
        let ghost before = views(out@);
        let ghost qv = q@;
        out.push(q);
        assert(views(out@) =~= before.push(qv));
        assert(cv.take(i + 1) =~= cv.take(i as int).push(cv[i as int]));
        assert(relative_patterns_spec(config_dir@, cv.take(i + 1)) =~= relative_patterns_spec(
            config_dir@,
            cv.take(i as int),
        ).push(relative_pattern(config_dir@, cv[i as int])));
        i = i + 1;
    }
    assert(cv.take(candidates_abs.len() as int) =~= cv);
    out
}

/// The canonical form when there is one, else the path itself.
pub open spec fn canonical_or(c: Option<Seq<char>>, input: Seq<char>) -> Seq<char> {
    match c {
        Some(x) => x,
        None => input,
    }
}

/// The path `input` in the canonical form `canonical` that the disk gave
/// for it (the path itself when none was given), slashes forward.
pub fn normalize_abs_posix_with(input: &str, canonical: Option<String>) -> (res: String)
    ensures
        res@ == backslashes_to_slashes(canonical_or(opt_seq(canonical), input@)),
{
    let base = match canonical {
        Some(x) => x,
        None => owned(input),
    };
    backslashes_to_slashes_str(base.as_str())
}

/// A path in its canonical form when the disk gives one (else as it is),
/// slashes forward: the disk is asked for `input`'s canonical form, and the
/// answer goes to [`normalize_abs_posix_with`].
pub fn normalize_abs_posix(input: &str) -> (res: String)
    ensures
        exists|c: Option<Seq<char>>| res@ == backslashes_to_slashes(#[trigger] canonical_or(c, input@)),
{
    let c = canonicalize_path(input);
    let ghost cv = opt_seq(c);
    let res = normalize_abs_posix_with(input, c);
    assert(res@ == backslashes_to_slashes(canonical_or(cv, input@)));
    res
}

/// What finding a project's tests among the candidates asks for next:
/// listing the project's tests that match the patterns, listing all its
/// tests, or nothing more, with the tests found.
pub enum OwnershipStep {
    ListWithPatterns { cfg_token: String, config_dir: String, patterns: Vec<String> },
    ListAll { cfg_token: String, config_dir: String, patterns: Vec<String> },
    Done { tests: Vec<String> },
}

/// The directory of a configuration file: its parent, or the repository
/// root when it has none.
pub open spec fn config_dir_spec(repo_root: Seq<char>, config_path: Seq<char>) -> Seq<char> {
    match path_parent_of(config_path) {
        Some(p) => p,
        None => repo_root,
    }
}

/// The first step: nothing to do without candidates; else list the
/// project's tests that match the candidates' patterns.
pub open spec fn ownership_start_ok(
    repo_root: Seq<char>,
    config_path: Seq<char>,
    cands: Seq<Seq<char>>,
    step: OwnershipStep,
) -> bool {
    if cands.len() == 0 {
        step matches OwnershipStep::Done { tests } && tests@.len() == 0
    } else {
        let dir = config_dir_spec(repo_root, config_path);
        step matches OwnershipStep::ListWithPatterns { cfg_token, config_dir, patterns } && cfg_token@
            == config_token_spec(repo_root, config_path) && config_dir@ == dir && views(patterns@)
            == relative_patterns_spec(dir, cands)
    }
}

/// Starts finding which candidates belong to the project of `config_path`
/// (see [`ownership_start_ok`]).
pub fn ownership_start(repo_root: &str, config_path: &str, candidates_abs: &[String]) -> (res: OwnershipStep)
    ensures
        ownership_start_ok(repo_root@, config_path@, views(candidates_abs@), res),
{
    if candidates_abs.len() == 0 {
        return OwnershipStep::Done { tests: Vec::new() };
    }
    let config_dir = match path_parent(config_path) {
        Some(p) => p,
        None => owned(repo_root),
    };
    let cfg_token = config_token(repo_root, config_path);
    let patterns = relative_patterns_for_candidates(config_dir.as_str(), candidates_abs);
    OwnershipStep::ListWithPatterns { cfg_token, config_dir, patterns }
}

/// After the listing by patterns (its paths normalized): done with those,
/// sorted and each once, when there are any; else list all the project's
/// tests.
pub fn ownership_after_patterns(
    attempt_norm: Vec<String>,
    cfg_token: String,
    config_dir: String,
    patterns: Vec<String>,
) -> (res: OwnershipStep)
    ensures
        attempt_norm.len() > 0 ==> (res matches OwnershipStep::Done { tests } && views(tests@) == dedup_adjacent(
            sort_strs(views(attempt_norm@), false),
        )),
        attempt_norm.len() == 0 ==> (res matches OwnershipStep::ListAll { cfg_token: t, config_dir: d, patterns: p }
            && t@ == cfg_token@ && d@ == config_dir@ && views(p@) == views(patterns@)),
{
    if attempt_norm.len() > 0 {
        OwnershipStep::Done { tests: dedup_sorted(attempt_norm) }
    } else {
        OwnershipStep::ListAll { cfg_token, config_dir, patterns }
    }
}

/// After listing all the project's tests: the ones matching a pattern
/// (normalized), sorted and each once, when there are any; else the
/// patterns taken under the configuration's directory, sorted and each
/// once.
pub fn ownership_finish(by_suffix_norm: Vec<String>, config_dir: &str, patterns: &Vec<String>) -> (res: Vec<String>)
    ensures
        by_suffix_norm.len() > 0 ==> views(res@) == dedup_adjacent(sort_strs(views(by_suffix_norm@), false)),
        by_suffix_norm.len() == 0 ==> views(res@) == dedup_adjacent(
            sort_strs(absolute_from_relative_spec(config_dir@, views(patterns@)), false),
        ),
{
    if by_suffix_norm.len() > 0 {
        dedup_sorted(by_suffix_norm)
    } else {
        dedup_sorted(absolute_candidates_from_relative(config_dir, patterns))
    }
}

} // verus!
