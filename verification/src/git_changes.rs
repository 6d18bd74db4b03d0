//! The files a change selects, read from git: the arguments of each git
//! query, reading its output, which commits a mode compares, the release
//! tag a "last release" run starts from, and the paths kept in the end.
//! The queries themselves are run by the caller.
use crate::format::pattern::{capture1, regex_capture1_of};
use crate::path_names::{to_slash, to_slash_of};
use crate::test_model::opt_seq;
use crate::text::{concat2, contains, contains_str, ends_with, ends_with_str, lines, lines_of, owned, str_eq, trim, trim_str, views};
use crate::fast_related::contains_string;
use vstd::prelude::*;

verus! {

/// Which changes select files.
#[derive(PartialEq, Eq, Structural)]
pub enum ChangedMode {
    All,
    Staged,
    Unstaged,
    Branch,
    LastCommit,
    LastRelease,
}

/// The arguments of a git query in `repo_root`: `-C` the root, the
/// repository allowed whatever its owner, and a query that starts with
/// `diff` kept from aliases.
pub open spec fn git_command_args_spec(repo_root: Seq<char>, args: Seq<Seq<char>>) -> Seq<Seq<char>> {
    seq!["-C"@, repo_root, "-c"@, "safe.directory=*"@] + (if args.len() > 0 && args[0] == "diff"@ {
        seq!["-c"@, "alias.diff=diff"@]
    } else {
        Seq::empty()
    }) + args
}

pub fn git_command_args(repo_root: &str, args: &Vec<String>) -> (res: Vec<String>)
    ensures
        views(res@) == git_command_args_spec(repo_root@, views(args@)),
{
    let mut out: Vec<String> = Vec::new();
    out.push(owned("-C"));
    out.push(owned(repo_root));
    out.push(owned("-c"));
    out.push(owned("safe.directory=*"));
    let ghost head = views(out@);
    if args.len() > 0 && str_eq(args[0].as_str(), "diff") {
        out.push(owned("-c"));
        out.push(owned("alias.diff=diff"));
    }
    let ghost mid = views(out@);
    let mut i: usize = 0;
    while i < args.len()
        invariant
            i <= args.len(),
            views(out@) == mid + views(args@).take(i as int),
        decreases args.len() - i,
    {
        let ghost before = views(out@);
        out.push(owned(args[i].as_str()));
        assert(views(out@) =~= before.push(args@[i as int]@));
        assert(views(args@).take(i + 1) =~= views(args@).take(i as int).push(args@[i as int]@));
        i = i + 1;
    }
    assert(views(args@).take(args.len() as int) =~= views(args@));
    assert(views(out@) =~= git_command_args_spec(repo_root@, views(args@)));
    out
}

/// The lines of git's output, trimmed, blank ones left out.
pub open spec fn nonblank_trimmed(ls: Seq<Seq<char>>) -> Seq<Seq<char>>
    decreases ls.len(),
{
    if ls.len() == 0 {
        Seq::empty()
    } else {
        let r = nonblank_trimmed(ls.drop_last());
        let t = trim(ls.last());
        if t.len() == 0 {
            r
        } else {
            r.push(t)
        }
    }
}

/// The lines git printed (see [`nonblank_trimmed`]).
pub fn git_output_lines(stdout: &str) -> (res: Vec<String>)
    ensures
        views(res@) == nonblank_trimmed(lines(stdout@)),
{
    let ls = lines_of(stdout);
    let ghost lv = views(ls@);
    let mut out: Vec<String> = Vec::new();
    let mut i: usize = 0;
    while i < ls.len()
        invariant
            i <= ls.len(),
            lv == views(ls@),
            lv == lines(stdout@),
            views(out@) == nonblank_trimmed(lv.take(i as int)),
        decreases ls.len() - i,
    {
        assert(lv.take(i + 1).drop_last() =~= lv.take(i as int));
        assert(lv.take(i + 1).last() == ls@[i as int]@);
        let t = trim_str(ls[i].as_str());
        if !t.as_str().is_empty() {
            let ghost before = views(out@);
            let ghost tv = t@;
            out.push(t);
            assert(views(out@) =~= before.push(tv));
        }
        i = i + 1;
    }
    assert(lv.take(ls.len() as int) =~= lv);
    out
}

/// The first line git printed, or nothing.
pub fn first_git_output_line(stdout: &str) -> (res: String)
    ensures
        res@ == if nonblank_trimmed(lines(stdout@)).len() > 0 {
            nonblank_trimmed(lines(stdout@))[0]
        } else {
            Seq::empty()
        },
{
    let ls = git_output_lines(stdout);
    if ls.len() > 0 {
        owned(ls[0].as_str())
    } else {
        String::new()
    }
}

/// The tree staged changes are compared with: `HEAD`, or the empty tree in
/// a repository without commits.
pub fn staged_diff_base(has_head: bool) -> (res: &'static str)
    ensures
        res@ == if has_head {
            "HEAD"@
        } else {
            "4b825dc642cb6eb9a060e54bf8d69288fbee4904"@
        },
{
    if has_head {
        "HEAD"
    } else {
        "4b825dc642cb6eb9a060e54bf8d69288fbee4904"
    }
}

/// The commits a mode compares, besides the uncommitted changes that every
/// mode takes: none; the last commit; `HEAD` against where the branch
/// left the default branch; or `HEAD` against the last release tag.
pub enum CommitRange {
    Uncommitted,
    LastCommit,
    SinceMergeBase,
    SinceReleaseTag,
}

pub fn commit_range_for(mode: ChangedMode) -> (res: CommitRange)
    ensures
        (mode == ChangedMode::All || mode == ChangedMode::Staged || mode == ChangedMode::Unstaged)
            <==> res is Uncommitted,
        mode == ChangedMode::LastCommit <==> res is LastCommit,
        mode == ChangedMode::Branch <==> res is SinceMergeBase,
        mode == ChangedMode::LastRelease <==> res is SinceReleaseTag,
{
    match mode {
        ChangedMode::All | ChangedMode::Staged | ChangedMode::Unstaged => CommitRange::Uncommitted,
        ChangedMode::LastCommit => CommitRange::LastCommit,
        ChangedMode::Branch => CommitRange::SinceMergeBase,
        ChangedMode::LastRelease => CommitRange::SinceReleaseTag,
    }
}

/// The remote branches whose merge base with `HEAD` a branch run tries,
/// in order.
pub fn merge_base_candidates() -> (res: Vec<String>)
    ensures
        views(res@) == seq!["origin/HEAD"@, "origin/main"@, "origin/master"@],
{
    let mut out: Vec<String> = Vec::new();
    out.push(owned("origin/HEAD"));
    out.push(owned("origin/main"));
    out.push(owned("origin/master"));
    assert(views(out@) =~= seq!["origin/HEAD"@, "origin/main"@, "origin/master"@]);
    out
}

/// The commits compared for a mode, left and right: `HEAD^` and `HEAD` for
/// the last commit; the merge base found (else `HEAD^`) and `HEAD` for a
/// branch; the tag's ref and `HEAD` for a release.
pub open spec fn diff_range_spec(range: CommitRange, found: Option<Seq<char>>) -> Option<(Seq<char>, Seq<char>)> {
    match range {
        CommitRange::Uncommitted => None,
        CommitRange::LastCommit => Some(("HEAD^"@, "HEAD"@)),
        CommitRange::SinceMergeBase => match found {
            Some(b) => Some((b, "HEAD"@)),
            None => Some(("HEAD^"@, "HEAD"@)),
        },
        CommitRange::SinceReleaseTag => match found {
            Some(t) => Some(("refs/tags/"@ + t, "HEAD"@)),
            None => None,
        },
    }
}

/// The commits to compare (see [`diff_range_spec`]); `found` is the merge
/// base or release tag found, when the mode looks for one.
pub fn diff_range(range: CommitRange, found: Option<&str>) -> (res: Option<(String, String)>)
    ensures
        match res {
            Some((l, r)) => diff_range_spec(range, crate::live_progress::opt_str_view(found)) == Some((l@, r@)),
            None => diff_range_spec(range, crate::live_progress::opt_str_view(found)) is None,
        },
{
    match range {
        CommitRange::Uncommitted => None,
        CommitRange::LastCommit => Some((owned("HEAD^"), owned("HEAD"))),
        CommitRange::SinceMergeBase => match found {
            Some(b) => Some((owned(b), owned("HEAD"))),
            None => Some((owned("HEAD^"), owned("HEAD"))),
        },
        CommitRange::SinceReleaseTag => match found {
            Some(t) => Some((concat2("refs/tags/", t), owned("HEAD"))),
            None => None,
        },
    }
}

/// Whether a changed path is noise: installed packages, coverage output,
/// or yalc's store and lock.
pub open spec fn is_noise_path(key: Seq<char>) -> bool {
    contains(key, "/node_modules/"@) || contains(key, "/coverage/"@) || contains(key, "/.yalc/"@) || ends_with(
        key,
        "/yalc.lock"@,
    )
}

/// The slash forms of paths.
pub open spec fn slash_keys(paths: Seq<Seq<char>>) -> Seq<Seq<char>> {
    paths.map_values(|p: Seq<char>| to_slash_of(p))
}

/// The changed paths kept from the compared commits and the uncommitted
/// changes, in that order: noise left out, each path once (by its slash
/// form), where it first occurs.
pub open spec fn kept_changes(paths: Seq<Seq<char>>) -> Seq<Seq<char>>
    decreases paths.len(),
{
    if paths.len() == 0 {
        Seq::empty()
    } else {
        let r = kept_changes(paths.drop_last());
        let key = to_slash_of(paths.last());
        if is_noise_path(key) || slash_keys(r).contains(key) {
            r
        } else {
            r.push(paths.last())
        }
    }
}

/// The changed files (see [`kept_changes`]): the paths from the compared
/// commits, then the uncommitted ones.
pub fn changed_paths_kept(commit_paths: &Vec<String>, uncommitted: &Vec<String>) -> (res: Vec<String>)
    ensures
        views(res@) == kept_changes(views(commit_paths@) + views(uncommitted@)),
{
    let mut all: Vec<String> = Vec::new();
    let mut a: usize = 0;
    while a < commit_paths.len()
        invariant
            a <= commit_paths.len(),
            views(all@) == views(commit_paths@).take(a as int),
        decreases commit_paths.len() - a,
    {
        let ghost before = views(all@);
        all.push(owned(commit_paths[a].as_str()));
        assert(views(all@) =~= before.push(commit_paths@[a as int]@));
        assert(views(commit_paths@).take(a + 1) =~= views(commit_paths@).take(a as int).push(commit_paths@[a as int]@));
        a = a + 1;
    }
    assert(views(commit_paths@).take(commit_paths.len() as int) =~= views(commit_paths@));
    let mut b: usize = 0;
    while b < uncommitted.len()
        invariant
            b <= uncommitted.len(),
            views(all@) == views(commit_paths@) + views(uncommitted@).take(b as int),
        decreases uncommitted.len() - b,
    {
        let ghost before = views(all@);
        all.push(owned(uncommitted[b].as_str()));
        assert(views(all@) =~= before.push(uncommitted@[b as int]@));
        assert(views(uncommitted@).take(b + 1) =~= views(uncommitted@).take(b as int).push(uncommitted@[b as int]@));
        b = b + 1;
    }
    assert(views(uncommitted@).take(uncommitted.len() as int) =~= views(uncommitted@));
    let ghost av = views(all@);
    let mut out: Vec<String> = Vec::new();
    let mut keys = crate::ordered_set::index_set_new();
    let mut i: usize = 0;
    assert(slash_keys(views(out@)) =~= Seq::<Seq<char>>::empty());
    while i < all.len()
        invariant
            i <= all.len(),
            av == views(all@),
            views(out@) == kept_changes(av.take(i as int)),
            crate::ordered_set::index_set_items(keys) == slash_keys(views(out@)),
        decreases all.len() - i,
    {
        assert(av.take(i + 1).drop_last() =~= av.take(i as int));
        assert(av.take(i + 1).last() == all@[i as int]@);
        let key = to_slash(all[i].as_str());
        let noise = contains_str(key.as_str(), "/node_modules/") || contains_str(key.as_str(), "/coverage/")
            || contains_str(key.as_str(), "/.yalc/") || ends_with_str(key.as_str(), "/yalc.lock");
        if !noise {
            let ghost before = views(out@);
            let ghost kv = key@;
            let ghost pv = all@[i as int]@;
            let fresh = crate::ordered_set::index_set_insert(&mut keys, key);
            if fresh {
                out.push(owned(all[i].as_str()));
                assert(views(out@) =~= before.push(pv));
                assert(slash_keys(views(out@)) =~= slash_keys(before).push(to_slash_of(pv)));
            }
        }
        i = i + 1;
    }
    assert(av.take(all.len() as int) =~= av);
    out
}

/// The version-like pattern a release tag holds: three numbers, an
/// optional pre-release and build part, after an optional `v`, standing at
/// the start or after a character that is no letter or digit.
pub const SEMVER_IN_TAG_PATTERN: &'static str =
    "(?:^|[^0-9A-Za-z])v?(?P<ver>\\d+\\.\\d+\\.\\d+(?:-[0-9A-Za-z.-]+)?(?:\\+[0-9A-Za-z.-]+)?)";

/// Whether `semver::Version::parse` reads `text` as a version with no
/// pre-release part.
pub uninterp spec fn semver_stable_of(text: Seq<char>) -> bool;

/// Whether `text` is a stable version: calls `semver::Version::parse` and
/// reads the `pre` field of the result. Trusted: the answer is the crate's
/// (`false` when the text does not parse).
#[verifier::external_body]
fn semver_is_stable(text: &str) -> (res: bool)
    ensures
        res == semver_stable_of(text@),
{
    match semver::Version::parse(text) {
        Ok(v) => v.pre.is_empty(),
        Err(_) => false,
    }
}

/// Whether both texts parse as versions and the first is below the second
/// in the crate's order of versions.
pub uninterp spec fn semver_lt_of(a: Seq<char>, b: Seq<char>) -> bool;

/// Compares two versions given as text: calls `semver::Version::parse` on
/// each and the `<` of `semver::Version`. Trusted: the answer is the
/// crate's (`false` when either text does not parse).
#[verifier::external_body]
fn semver_lt(a: &str, b: &str) -> (res: bool)
    ensures
        res == semver_lt_of(a@, b@),
{
    match (semver::Version::parse(a), semver::Version::parse(b)) {
        (Ok(x), Ok(y)) => x < y,
        _ => false,
    }
}

/// The stable version a tag names: the version-like part it holds, when
/// that part is a version without pre-release.
pub open spec fn stable_version_of_tag_spec(tag: Seq<char>) -> Option<Seq<char>> {
    match regex_capture1_of(SEMVER_IN_TAG_PATTERN@, tag) {
        Some(v) => if semver_stable_of(v) {
            Some(v)
        } else {
            None
        },
        None => None,
    }
}

pub fn stable_version_of_tag(tag: &str) -> (res: Option<String>)
    ensures
        opt_seq(res) == stable_version_of_tag_spec(tag@),
{
    match capture1(SEMVER_IN_TAG_PATTERN, tag) {
        Some(v) => {
            if semver_is_stable(v.as_str()) {
                Some(v)
            } else {
                None
            }
        },
        None => None,
    }
}

/// A release tag that `HEAD` reaches: its name, its version and its
/// commit.
pub open spec fn tag_views(v: Seq<(String, String, String)>) -> Seq<(Seq<char>, Seq<char>, Seq<char>)> {
    v.map_values(|t: (String, String, String)| (t.0@, t.1@, t.2@))
}

/// Whether a tag passes a filter: standing on the commit `arg` (kind 0),
/// below the version `arg` (kind 1), or any tag (another kind).
pub open spec fn admits(kind: u8, arg: Seq<char>, t: (Seq<char>, Seq<char>, Seq<char>)) -> bool {
    if kind == 0 {
        t.2 == arg
    } else if kind == 1 {
        semver_lt_of(t.1, arg)
    } else {
        true
    }
}

/// The greatest of the tags that pass the filter, the last one among equals
/// (each tag replaces the best so far unless it is below it).
pub open spec fn greatest_tag(tags: Seq<(Seq<char>, Seq<char>, Seq<char>)>, kind: u8, arg: Seq<char>) -> Option<
    (Seq<char>, Seq<char>, Seq<char>),
>
    decreases tags.len(),
{
    if tags.len() == 0 {
        None
    } else {
        let best = greatest_tag(tags.drop_last(), kind, arg);
        let t = tags.last();
        if !admits(kind, arg, t) {
            best
        } else {
            match best {
                Some(b) => if semver_lt_of(t.1, b.1) {
                    Some(b)
                } else {
                    Some(t)
                },
                None => Some(t),
            }
        }
    }
}

/// The tag a "last release" run compares with: among the stable tags that
/// `HEAD` reaches, the greatest one below the greatest version on `HEAD`
/// itself, or, when no such tag stands on `HEAD`, the greatest one.
pub open spec fn release_baseline_spec(head: Seq<char>, tags: Seq<(Seq<char>, Seq<char>, Seq<char>)>) -> Option<
    Seq<char>,
> {
    match greatest_tag(tags, 0, head) {
        Some(cur) => match greatest_tag(tags, 1, cur.1) {
            Some(b) => Some(b.0),
            None => None,
        },
        None => match greatest_tag(tags, 2, Seq::empty()) {
            Some(b) => Some(b.0),
            None => None,
        },
    }
}

fn copy_tag(t: &(String, String, String)) -> (res: (String, String, String))
    ensures
        (res.0@, res.1@, res.2@) == (t.0@, t.1@, t.2@),
{
    (owned(t.0.as_str()), owned(t.1.as_str()), owned(t.2.as_str()))
}

/// The greatest tag that passes the filter (see [`greatest_tag`]).
fn scan_greatest(tags: &Vec<(String, String, String)>, kind: u8, arg: &str) -> (res: Option<(String, String, String)>)
    ensures
        match res {
            Some(r) => greatest_tag(tag_views(tags@), kind, arg@) == Some((r.0@, r.1@, r.2@)),
            None => greatest_tag(tag_views(tags@), kind, arg@) is None,
        },
{
    let ghost tv = tag_views(tags@);
    let mut best: Option<(String, String, String)> = None;
    let mut i: usize = 0;
    while i < tags.len()
        invariant
            i <= tags.len(),
            tv == tag_views(tags@),
            match best {
                Some(b) => greatest_tag(tv.take(i as int), kind, arg@) == Some((b.0@, b.1@, b.2@)),
                None => greatest_tag(tv.take(i as int), kind, arg@) is None,
            },
        decreases tags.len() - i,
    {
        assert(tv.take(i + 1).drop_last() =~= tv.take(i as int));
        assert(tv.take(i + 1).last() == (tags@[i as int].0@, tags@[i as int].1@, tags@[i as int].2@));
        let t = &tags[i];
        let admitted = if kind == 0 {
            str_eq(t.2.as_str(), arg)
        } else if kind == 1 {
            semver_lt(t.1.as_str(), arg)
        } else {
            true
        };
        if admitted {
            let replace = match &best {
                Some(b) => !semver_lt(t.1.as_str(), b.1.as_str()),
                None => true,
            };
            if replace {
                best = Some(copy_tag(t));
            }
        }
        i = i + 1;
    }
    assert(tv.take(tags.len() as int) =~= tv);
    best
}

/// The tag a "last release" run compares with (see
/// [`release_baseline_spec`]); `tags` are the stable tags `HEAD` reaches,
/// each with its version and commit.
pub fn select_release_baseline(head: &str, tags: &Vec<(String, String, String)>) -> (res: Option<String>)
    ensures
        opt_seq(res) == release_baseline_spec(head@, tag_views(tags@)),
{
    match scan_greatest(tags, 0, head) {
        Some(cur) => match scan_greatest(tags, 1, cur.1.as_str()) {
            Some(b) => Some(b.0),
            None => None,
        },
        None => {
            let found = scan_greatest(tags, 2, "");
            proof {
                reveal_strlit("");
                assert(""@ =~= Seq::<char>::empty());
            }
            match found {
                Some(b) => Some(b.0),
                None => None,
            }
        },
    }
}

} // verus!
