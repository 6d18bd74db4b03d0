//! Listing the tests Jest knows of: the arguments used for the listing,
//! reading the listing, where the Jest binary lies, and the keys under which
//! listings are cached.
use crate::fast_related::{contains_string, hex_encode, hex_lower, lemma_hex_lower_len, sha1_digest, sha1_of, sort_strings, sort_strs, dedup_adjacent, dedup_adjacent_strings};
use crate::path_names::{path_join, path_join_of, path_strip_prefix, path_strip_prefix_of, to_slash, to_slash_of};
use crate::text::{
    chars_of, concat2, is_blank, is_blank_str, join, join_strs, lines, lines_of, owned, starts_with,
    starts_with_str, str_eq, string_of_range, trim, trim_str, views,
};
use vstd::prelude::*;
use vstd::utf8::encode_utf8;

verus! {

/// Flags that make Jest watch for changes.
pub open spec fn is_watch_flag(t: Seq<char>) -> bool {
    t == "--watch"@ || t == "-w"@ || t == "--watchAll"@
}

/// The coverage flags, which a listing does not need.
pub open spec fn coverage_prefixes() -> Seq<Seq<char>> {
    seq![
        "--coverage"@,
        "--coverageReporters"@,
        "--coverageDirectory"@,
        "--coverage.reporter"@,
        "--coverage.reportsDirectory"@,
    ]
}

/// A coverage flag, alone or as `flag=value`.
pub open spec fn is_coverage_token(t: Seq<char>) -> bool {
    exists|k: int|
        0 <= k < 5 && (t == #[trigger] coverage_prefixes()[k] || starts_with(
            t,
            coverage_prefixes()[k] + seq!['='],
        ))
}

/// The arguments without `run`, watch flags and coverage flags (with the
/// value that follows a bare coverage flag, when it does not start with
/// `-`).
pub open spec fn discovery_filter(toks: Seq<Seq<char>>) -> Seq<Seq<char>>
    decreases toks.len(),
{
    if toks.len() == 0 {
        Seq::empty()
    } else {
        let t = toks[0];
        if t == "run"@ || is_watch_flag(t) {
            discovery_filter(toks.drop_first())
        } else if is_coverage_token(t) {
            if coverage_prefixes().contains(t) && toks.len() > 1 && !starts_with(toks[1], seq!['-']) {
                discovery_filter(toks.skip(2))
            } else {
                discovery_filter(toks.drop_first())
            }
        } else {
            seq![t] + discovery_filter(toks.drop_first())
        }
    }
}

/// The arguments of a listing: the runner's arguments filtered (see
/// [`discovery_filter`]), with `--no-watchman` added unless present.
pub open spec fn args_for_discovery_spec(args: Seq<Seq<char>>) -> Seq<Seq<char>> {
    let out = discovery_filter(args);
    if out.contains("--no-watchman"@) {
        out
    } else {
        out.push("--no-watchman"@)
    }
}

fn is_watch_flag_str(t: &str) -> (res: bool)
    ensures
        res == is_watch_flag(t@),
{
    str_eq(t, "--watch") || str_eq(t, "-w") || str_eq(t, "--watchAll")
}

fn coverage_check(t: &str) -> (res: (bool, bool))
    ensures
        res.0 == is_coverage_token(t@),
        res.1 == coverage_prefixes().contains(t@),
{
    let prefixes = ["--coverage", "--coverageReporters", "--coverageDirectory", "--coverage.reporter", "--coverage.reportsDirectory"];
    assert(prefixes@.map_values(|p: &str| p@) =~= coverage_prefixes());
    let mut any = false;
    let mut exact = false;
    let mut k: usize = 0;
    while k < 5
        invariant
            k <= 5,
            prefixes@.map_values(|p: &str| p@) == coverage_prefixes(),
            any == exists|j: int|
                0 <= j < k && (t@ == #[trigger] coverage_prefixes()[j] || starts_with(
                    t@,
                    coverage_prefixes()[j] + seq!['='],
                )),
            exact == exists|j: int| 0 <= j < k && t@ == #[trigger] coverage_prefixes()[j],
        decreases 5 - k,
    {
        assert(prefixes@[k as int]@ == coverage_prefixes()[k as int]);
        let with_eq = concat2(prefixes[k], "=");
        proof {
            reveal_strlit("=");
            assert("="@ =~= seq!['=']);
        }
        if str_eq(t, prefixes[k]) {
            exact = true;
            any = true;
        }
        if starts_with_str(t, with_eq.as_str()) {
            any = true;
        }
        k = k + 1;
    }
    proof {
        if coverage_prefixes().contains(t@) {
            let j = choose|j: int| 0 <= j < coverage_prefixes().len() && coverage_prefixes()[j] == t@;
            assert(t@ == coverage_prefixes()[j]);
        }
        if exact {
            let j = choose|j: int| 0 <= j < 5 && t@ == #[trigger] coverage_prefixes()[j];
            assert(coverage_prefixes()[j] == t@);
        }
    }
    (any, exact)
}

/// The arguments for listing the tests: the runner's arguments without
/// `run`, watch and coverage flags, with `--no-watchman`.
pub fn args_for_discovery(jest_args: &[String]) -> (res: Vec<String>)
    ensures
        views(res@) == args_for_discovery_spec(views(jest_args@)),
{
    let ghost all = views(jest_args@);
    let mut out: Vec<String> = Vec::new();
    let mut i: usize = 0;
    assert(all.skip(0) =~= all);
    assert(views(out@) + discovery_filter(all.skip(0)) =~= discovery_filter(all));
    while i < jest_args.len()
        invariant
            i <= jest_args.len(),
            all == views(jest_args@),
            discovery_filter(all) == views(out@) + discovery_filter(all.skip(i as int)),
        decreases jest_args.len() - i,
    {
        let ghost rest = all.skip(i as int);
        assert(rest[0] == jest_args@[i as int]@);
        assert(rest.drop_first() =~= all.skip(i + 1));
        let tok = jest_args[i].as_str();
        proof {
            reveal_strlit("run");
        }
        if str_eq(tok, "run") || is_watch_flag_str(tok) {
            i = i + 1;
            continue;
        }
        let (is_cov, exact) = coverage_check(tok);
        if is_cov {
            let consumes = exact && i + 1 < jest_args.len() && !starts_with_str(jest_args[i + 1].as_str(), "-");
            proof {
                reveal_strlit("-");
                assert("-"@ =~= seq!['-']);
                if i + 1 < jest_args.len() {
                    assert(rest[1] == jest_args@[i + 1]@);
                    assert(rest.skip(2) =~= all.skip(i + 2));
                }
            }
            i = if consumes {
                i + 2
            } else {
                i + 1
            };
            continue;
        }
        let ghost before = views(out@);
        out.push(owned(tok));
        assert(views(out@) =~= before.push(tok@));
        assert(before + (seq![tok@] + discovery_filter(all.skip(i + 1))) =~= views(out@) + discovery_filter(
            all.skip(i + 1),
        ));
        i = i + 1;
    }
    assert(all.skip(jest_args.len() as int) =~= Seq::<Seq<char>>::empty());
    assert(views(out@) + Seq::<Seq<char>>::empty() =~= views(out@));
    proof {
        reveal_strlit("--no-watchman");
    }
    if contains_string(&out, "--no-watchman") {
        out
    } else {
        let ghost before = views(out@);
        out.push(owned("--no-watchman"));
        assert(views(out@) =~= before.push("--no-watchman"@));
        out
    }
}

/// A token that the listing keeps as it is.
pub open spec fn clean_token(t: Seq<char>) -> bool {
    t != "run"@ && !is_watch_flag(t) && !is_coverage_token(t)
}

proof fn lemma_filter_output_clean(toks: Seq<Seq<char>>)
    ensures
        forall|i: int| 0 <= i < discovery_filter(toks).len() ==> clean_token(#[trigger] discovery_filter(toks)[i]),
    decreases toks.len(),
{
    if toks.len() > 0 {
        let t = toks[0];
        let f = discovery_filter(toks);
        let r = discovery_filter(toks.drop_first());
        lemma_filter_output_clean(toks.drop_first());
        if t == "run"@ || is_watch_flag(t) {
            assert(f == r);
        } else if is_coverage_token(t) {
            if coverage_prefixes().contains(t) && toks.len() > 1 && !starts_with(toks[1], seq!['-']) {
                lemma_filter_output_clean(toks.skip(2));
                assert(f == discovery_filter(toks.skip(2)));
            } else {
                assert(f == r);
            }
        } else {
            assert(f == seq![t] + r);
            assert forall|i: int| 0 <= i < f.len() implies clean_token(#[trigger] f[i]) by {
                if i > 0 {
                    assert(f[i] == r[i - 1]);
                }
            }
        }
    }
}

proof fn lemma_filter_clean_identity(toks: Seq<Seq<char>>)
    requires
        forall|i: int| 0 <= i < toks.len() ==> clean_token(#[trigger] toks[i]),
    ensures
        discovery_filter(toks) == toks,
    decreases toks.len(),
{
    if toks.len() > 0 {
        assert(clean_token(toks[0]));
        let r = toks.drop_first();
        assert forall|i: int| 0 <= i < r.len() implies clean_token(#[trigger] r[i]) by {
            assert(r[i] == toks[i + 1]);
        }
        lemma_filter_clean_identity(r);
        assert(seq![toks[0]] + r =~= toks);
    }
}

/// `a` is `b` with some items left out (order kept).
pub open spec fn is_subsequence(a: Seq<Seq<char>>, b: Seq<Seq<char>>) -> bool
    decreases b.len(),
{
    if a.len() == 0 {
        true
    } else if b.len() == 0 {
        false
    } else {
        (a[0] == b[0] && is_subsequence(a.drop_first(), b.drop_first())) || is_subsequence(a, b.drop_first())
    }
}

proof fn lemma_subsequence_push_right(a: Seq<Seq<char>>, b: Seq<Seq<char>>, x: Seq<char>)
    requires
        is_subsequence(a, b),
    ensures
        is_subsequence(a, b.push(x)),
    decreases b.len(),
{
    if a.len() > 0 && b.len() > 0 {
        assert(b.push(x).drop_first() =~= b.drop_first().push(x));
        assert(b.push(x)[0] == b[0]);
        if a[0] == b[0] && is_subsequence(a.drop_first(), b.drop_first()) {
            lemma_subsequence_push_right(a.drop_first(), b.drop_first(), x);
        } else {
            lemma_subsequence_push_right(a, b.drop_first(), x);
        }
    }
}

proof fn lemma_subsequence_push_both(a: Seq<Seq<char>>, b: Seq<Seq<char>>, x: Seq<char>)
    requires
        is_subsequence(a, b),
    ensures
        is_subsequence(a.push(x), b.push(x)),
    decreases b.len(),
{
    let ap = a.push(x);
    let bp = b.push(x);
    if b.len() == 0 {
        assert(a.len() == 0);
        assert(ap.drop_first() =~= Seq::<Seq<char>>::empty());
        assert(bp.drop_first() =~= Seq::<Seq<char>>::empty());
        assert(ap[0] == bp[0]);
        assert(is_subsequence(ap.drop_first(), bp.drop_first()));
    } else {
        assert(bp.drop_first() =~= b.drop_first().push(x));
        assert(bp[0] == b[0]);
        if a.len() == 0 {
            lemma_subsequence_push_both(a, b.drop_first(), x);
            assert(is_subsequence(ap, bp.drop_first()));
        } else if a[0] == b[0] && is_subsequence(a.drop_first(), b.drop_first()) {
            assert(ap.drop_first() =~= a.drop_first().push(x));
            assert(ap[0] == a[0]);
            lemma_subsequence_push_both(a.drop_first(), b.drop_first(), x);
            assert(is_subsequence(ap.drop_first(), bp.drop_first()));
        } else {
            lemma_subsequence_push_both(a, b.drop_first(), x);
            assert(is_subsequence(ap, bp.drop_first()));
        }
    }
}

proof fn lemma_filter_subsequence(toks: Seq<Seq<char>>)
    ensures
        is_subsequence(discovery_filter(toks), toks),
    decreases toks.len(),
{
    if toks.len() > 0 {
        let t = toks[0];
        let f = discovery_filter(toks);
        let r = discovery_filter(toks.drop_first());
        lemma_filter_subsequence(toks.drop_first());
        if t == "run"@ || is_watch_flag(t) {
            assert(f == r);
        } else if is_coverage_token(t) {
            if coverage_prefixes().contains(t) && toks.len() > 1 && !starts_with(toks[1], seq!['-']) {
                lemma_filter_subsequence(toks.skip(2));
                let f2 = discovery_filter(toks.skip(2));
                assert(f == f2);
                assert(toks.drop_first().drop_first() =~= toks.skip(2));
                if f2.len() > 0 {
                    assert(is_subsequence(f2, toks.drop_first()));
                }
            } else {
                assert(f == r);
            }
        } else {
            assert(f == seq![t] + r);
            assert(f[0] == t);
            assert(f.drop_first() =~= r);
        }
    }
}

/// The listing's arguments are the runner's arguments with some left out,
/// and `--no-watchman` added at the end when it was not there.
pub proof fn law_args_for_discovery_subsequence(args: Seq<Seq<char>>)
    ensures
        is_subsequence(args_for_discovery_spec(args), args.push("--no-watchman"@)),
{
    let f = discovery_filter(args);
    lemma_filter_subsequence(args);
    if f.contains("--no-watchman"@) {
        lemma_subsequence_push_right(f, args, "--no-watchman"@);
    } else {
        lemma_subsequence_push_both(f, args, "--no-watchman"@);
    }
}

/// The listing's arguments always hold `--no-watchman` and never `run`,
/// a watch flag or a coverage flag; preparing them again changes nothing.
pub proof fn law_args_for_discovery(args: Seq<Seq<char>>)
    ensures
        args_for_discovery_spec(args).contains("--no-watchman"@),
        forall|i: int|
            0 <= i < args_for_discovery_spec(args).len() ==> #[trigger] args_for_discovery_spec(args)[i]
                == "--no-watchman"@ || clean_token(args_for_discovery_spec(args)[i]),
        args_for_discovery_spec(args_for_discovery_spec(args)) == args_for_discovery_spec(args),
{
    let f = discovery_filter(args);
    lemma_filter_output_clean(args);
    let out = args_for_discovery_spec(args);
    if !f.contains("--no-watchman"@) {
        assert(out[out.len() - 1] == "--no-watchman"@);
    }
    assert(clean_token("--no-watchman"@)) by {
        reveal_strlit("--no-watchman");
        reveal_strlit("run");
        reveal_strlit("--watch");
        reveal_strlit("-w");
        reveal_strlit("--watchAll");
        assert forall|k: int| 0 <= k < 5 implies !("--no-watchman"@ == #[trigger] coverage_prefixes()[k] || starts_with(
            "--no-watchman"@,
            coverage_prefixes()[k] + seq!['='],
        )) by {
            reveal_strlit("--coverage");
            reveal_strlit("--coverageReporters");
            reveal_strlit("--coverageDirectory");
            reveal_strlit("--coverage.reporter");
            reveal_strlit("--coverage.reportsDirectory");
            let q = coverage_prefixes()[k];
            assert(("--no-watchman"@)[2] == 'n');
            assert(q[2] == 'c');
            assert(q.len() > 2);
            if starts_with("--no-watchman"@, q + seq!['=']) {
                assert(("--no-watchman"@).take((q + seq!['=']).len() as int)[2] == (q + seq!['='])[2]);
            }
        }
    }
    assert forall|i: int| 0 <= i < out.len() implies #[trigger] out[i] == "--no-watchman"@ || clean_token(out[i]) by {
        if i < f.len() {
            assert(out[i] == f[i]);
        }
    }
    lemma_filter_clean_identity(out);
    assert(out.contains("--no-watchman"@)) by {
        if f.contains("--no-watchman"@) {
        } else {
            assert(out[out.len() - 1] == "--no-watchman"@);
        }
    }
}

/// The tests a listing printed: the trimmed, non-empty lines of its
/// standard output, or of its error output when the standard output is
/// blank, with forward slashes.
pub open spec fn listed_tests_spec(stdout: Seq<char>, stderr: Seq<char>) -> Seq<Seq<char>> {
    let text = if trim(stdout).len() == 0 {
        stderr
    } else {
        stdout
    };
    listed_lines(lines(text))
}

pub open spec fn listed_lines(ls: Seq<Seq<char>>) -> Seq<Seq<char>>
    decreases ls.len(),
{
    if ls.len() == 0 {
        Seq::empty()
    } else {
        let r = listed_lines(ls.drop_last());
        let t = trim(ls.last());
        if t.len() == 0 {
            r
        } else {
            r.push(to_slash_of(t))
        }
    }
}

/// The tests a listing printed (see [`listed_tests_spec`]).
pub fn listed_tests_from_output(stdout: &str, stderr: &str) -> (res: Vec<String>)
    ensures
        views(res@) == listed_tests_spec(stdout@, stderr@),
{
    let text = if trim_str(stdout).as_str().is_empty() {
        stderr
    } else {
        stdout
    };
    let ls = lines_of(text);
    let mut out: Vec<String> = Vec::new();
    let mut i: usize = 0;
    assert(views(ls@).take(0) =~= Seq::<Seq<char>>::empty());
    while i < ls.len()
        invariant
            i <= ls.len(),
            views(out@) == listed_lines(views(ls@).take(i as int)),
        decreases ls.len() - i,
    {
        assert(views(ls@).take(i + 1).drop_last() =~= views(ls@).take(i as int));
        assert(views(ls@).take(i + 1).last() == ls@[i as int]@);
        let t = trim_str(ls[i].as_str());
        if !t.as_str().is_empty() {
            let ghost before = views(out@);
            let p = to_slash(t.as_str());
            let ghost pv = p@;
            out.push(p);
            assert(views(out@) =~= before.push(pv));
        }
        i = i + 1;
    }
    assert(views(ls@).take(ls.len() as int) =~= views(ls@));
    out
}

/// Where the Jest binary of a repository lies.
pub open spec fn jest_bin_spec(repo_root: Seq<char>) -> Seq<char> {
    path_join_of(path_join_of(path_join_of(repo_root, "node_modules"@), ".bin"@), "jest"@)
}

/// The Jest binary of the repository: `node_modules/.bin/jest`.
pub fn jest_bin(repo_root: &str) -> (res: String)
    ensures
        res@ == jest_bin_spec(repo_root@),
{
    let a = path_join(repo_root, "node_modules");
    let b = path_join(a.as_str(), ".bin");
    path_join(b.as_str(), "jest")
}

/// A path relative to the repository root when it lies under it, else the
/// path itself, with forward slashes.
pub open spec fn repo_relative(repo_root: Seq<char>, abs: Seq<char>) -> Seq<char> {
    match path_strip_prefix_of(abs, repo_root) {
        Some(r) => r,
        None => to_slash_of(abs),
    }
}

/// The key of a selection of production files: their repository-relative
/// paths, sorted, joined by `|`.
pub open spec fn selection_key_spec(repo_root: Seq<char>, paths: Seq<Seq<char>>) -> Seq<char> {
    join(sort_strs(paths.map_values(|p: Seq<char>| repo_relative(repo_root, p)), false), seq!['|'])
}

/// The key of a selection of production files (see [`selection_key_spec`]).
pub fn selection_key_for(repo_root: &str, paths: &[String]) -> (res: String)
    ensures
        res@ == selection_key_spec(repo_root@, views(paths@)),
{
    let mut rel: Vec<String> = Vec::new();
    let mut i: usize = 0;
    while i < paths.len()
        invariant
            i <= paths.len(),
            views(rel@) == views(paths@).take(i as int).map_values(|p: Seq<char>| repo_relative(repo_root@, p)),
        decreases paths.len() - i,
    {
        let r = match path_strip_prefix(paths[i].as_str(), repo_root) {
            Some(r) => r,
            None => to_slash(paths[i].as_str()),
        };
        let ghost before = views(rel@);
        let ghost rv = r@;
        rel.push(r);
        assert(views(rel@) =~= before.push(rv));
        assert(views(paths@).take(i + 1) =~= views(paths@).take(i as int).push(paths@[i as int]@));
        assert(views(rel@) =~= views(paths@).take(i + 1).map_values(|p: Seq<char>| repo_relative(repo_root@, p)));
        i = i + 1;
    }
    assert(views(paths@).take(paths.len() as int) =~= views(paths@));
    let sorted = sort_strings(rel, false);
    proof {
        reveal_strlit("|");
        assert("|"@ =~= seq!['|']);
    }
    join_strs(&sorted, "|")
}

/// The part of a listing's cache key that changes with the test files
/// that differ from the last commit: `:` and the first 8 hex digits of the
/// SHA-1 digest of their sorted, distinct paths joined by line breaks;
/// empty when there are none.
pub open spec fn test_status_suffix_spec(test_paths: Seq<Seq<char>>) -> Seq<char> {
    let uniq = dedup_adjacent(sort_strs(test_paths, false));
    if uniq.len() == 0 {
        Seq::empty()
    } else {
        seq![':'] + hex_lower(sha1_of(encode_utf8(join(uniq, seq!['\n'])))).take(8)
    }
}

/// The cache key part for the changed test files (see
/// [`test_status_suffix_spec`]).
pub fn test_status_suffix(test_paths: Vec<String>) -> (res: String)
    ensures
        res@ == test_status_suffix_spec(views(test_paths@)),
{
    let sorted = sort_strings(test_paths, false);
    let uniq = dedup_adjacent_strings(sorted);
    if uniq.len() == 0 {
        return String::new();
    }
    proof {
        reveal_strlit("\n");
        assert("\n"@ =~= seq!['\n']);
        reveal_strlit(":");
    }
    let joined = join_strs(&uniq, "\n");
    let digest = sha1_digest(joined.as_str());
    let h = hex_encode(digest.as_slice());
    proof {
        lemma_hex_lower_len(digest@);
    }
    let v = chars_of(h.as_str());
    let short = string_of_range(&v, 0, 8);
    let r = concat2(":", short.as_str());
    assert(r@ =~= test_status_suffix_spec(views(test_paths@)));
    r
}


/// The arguments of a listing: the runner's arguments and `--listTests`.
pub fn list_tests_args(jest_args: &[String]) -> (res: Vec<String>)
    ensures
        views(res@) == views(jest_args@).push("--listTests"@),
{
    let mut out: Vec<String> = Vec::new();
    let mut i: usize = 0;
    while i < jest_args.len()
        invariant
            i <= jest_args.len(),
            views(out@) == views(jest_args@).take(i as int),
        decreases jest_args.len() - i,
    {
        let ghost before = views(out@);
        out.push(owned(jest_args[i].as_str()));
        assert(views(out@) =~= before.push(jest_args@[i as int]@));
        assert(views(jest_args@).take(i + 1) =~= views(jest_args@).take(i as int).push(jest_args@[i as int]@));
        i = i + 1;
    }
    assert(views(jest_args@).take(jest_args.len() as int) =~= views(jest_args@));
    let ghost before = views(out@);
    out.push(owned("--listTests"));
    assert(views(out@) =~= before.push("--listTests"@));
    out
}

/// The arguments of a project's listing: the runner's arguments, the
/// project's configuration, and `--listTests`.
pub fn list_tests_for_project_args(jest_args: &[String], cfg_token: &str) -> (res: Vec<String>)
    ensures
        views(res@) == views(jest_args@) + seq!["--config"@, cfg_token@, "--listTests"@],
{
    let mut out: Vec<String> = Vec::new();
    let mut i: usize = 0;
    while i < jest_args.len()
        invariant
            i <= jest_args.len(),
            views(out@) == views(jest_args@).take(i as int),
        decreases jest_args.len() - i,
    {
        let ghost before = views(out@);
        out.push(owned(jest_args[i].as_str()));
        assert(views(out@) =~= before.push(jest_args@[i as int]@));
        assert(views(jest_args@).take(i + 1) =~= views(jest_args@).take(i as int).push(jest_args@[i as int]@));
        i = i + 1;
    }
    assert(views(jest_args@).take(jest_args.len() as int) =~= views(jest_args@));
    let ghost before = views(out@);
    out.push(owned("--config"));
    out.push(owned(cfg_token));
    out.push(owned("--listTests"));
    assert(views(out@) =~= before + seq!["--config"@, cfg_token@, "--listTests"@]);
    out
}

/// The message of a listing that failed: its error output, or `exit <code>`
/// when that is blank.
pub open spec fn list_failure_message_spec(exit_code: i32, stderr: Seq<char>) -> Seq<char> {
    if trim(stderr).len() == 0 {
        "exit "@ + crate::text::dec_int(exit_code as int)
    } else {
        stderr
    }
}

pub fn list_failure_message(exit_code: i32, stderr: &str) -> (res: String)
    ensures
        res@ == list_failure_message_spec(exit_code, stderr@),
{
    if trim_str(stderr).as_str().is_empty() {
        let n = crate::text::i64_to_dec(exit_code as i64);
        concat2("exit ", n.as_str())
    } else {
        owned(stderr)
    }
}

/// How a listing ended.
pub enum ListOutcome {
    Listed { tests: Vec<String> },
    TimedOut,
    Failed { message: String },
}

/// What a resilient listing does after its first try.
pub enum ResilientStep {
    Done { tests: Vec<String> },
    FindRelated,
    Fail { message: String },
}

/// A listing that timed out gives no tests when there are no related
/// production files, and falls back to finding their related tests when
/// there are; a listing that failed otherwise fails.
pub open spec fn resilient_step_ok(outcome: ListOutcome, related_count: nat, step: ResilientStep) -> bool {
    match outcome {
        ListOutcome::Listed { tests } => step matches ResilientStep::Done { tests: t } && views(t@) == views(
            tests@,
        ),
        ListOutcome::TimedOut => if related_count == 0 {
            step matches ResilientStep::Done { tests: t } && t@.len() == 0
        } else {
            step is FindRelated
        },
        ListOutcome::Failed { message } => step matches ResilientStep::Fail { message: m } && m@ == message@,
    }
}

pub fn resilient_step(outcome: ListOutcome, related_production_paths_abs: &[String]) -> (res: ResilientStep)
    ensures
        resilient_step_ok(outcome, related_production_paths_abs.len() as nat, res),
{
    match outcome {
        ListOutcome::Listed { tests } => ResilientStep::Done { tests },
        ListOutcome::TimedOut => {
            if related_production_paths_abs.len() == 0 {
                ResilientStep::Done { tests: Vec::new() }
            } else {
                ResilientStep::FindRelated
            }
        },
        ListOutcome::Failed { message } => ResilientStep::Fail { message },
    }
}

} // verus!
