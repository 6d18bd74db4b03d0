//! Finding the tests related to changed files by searching test files for
//! the changed files' names: the search terms, the search's arguments,
//! reading its answer, the order of the related paths, and the key of the
//! repository in the cache.
use crate::jest_bridge::is_rooted;
use crate::jest_ownership::canonical_or;
use crate::path_names::{
    canonicalize_path, path_exists, path_join, path_join_of, path_parent, path_parent_of, path_strip_prefix,
    path_strip_prefix_of,
};
use crate::test_model::opt_seq;
use crate::text::{
    ascii_lower, ascii_lower_str, chars_of, concat2, ends_with, lines, lines_of, owned, push_str,
    concat3, seq_lt, split_char, split_char_str, starts_with, starts_with_str, str_eq, str_lt,
    string_of_range, trim, trim_str, views,
};
use vstd::prelude::*;
use vstd::utf8::encode_utf8;

verus! {

/// What SHA-1 gives for a sequence of bytes.
pub uninterp spec fn sha1_of(data: Seq<u8>) -> Seq<u8>;

/// The SHA-1 digest of the UTF-8 bytes of `text`: calls
/// `sha1::Sha1::digest`. Trusted: the result is the crate's digest, which
/// is 20 bytes long.
#[verifier::external_body]
pub(crate) fn sha1_digest(text: &str) -> (res: Vec<u8>)
    ensures
        res@ == sha1_of(encode_utf8(text@)),
        res.len() == 20,
{
    <sha1::Sha1 as sha1::Digest>::digest(text.as_bytes()).to_vec()
}

/// The lower-case hexadecimal digit of `n` (below 16).
pub open spec fn hex_digit(n: nat) -> char {
    seq!['0', '1', '2', '3', '4', '5', '6', '7', '8', '9', 'a', 'b', 'c', 'd', 'e', 'f'][n as int]
}

/// Each byte as two lower-case hexadecimal digits, high digit first.
pub open spec fn hex_lower(bytes: Seq<u8>) -> Seq<char>
    decreases bytes.len(),
{
    if bytes.len() == 0 {
        Seq::empty()
    } else {
        hex_lower(bytes.drop_last()) + seq![
            hex_digit((bytes.last() / 16) as nat),
            hex_digit((bytes.last() % 16) as nat),
        ]
    }
}

pub proof fn lemma_hex_lower_len(bytes: Seq<u8>)
    ensures
        hex_lower(bytes).len() == 2 * bytes.len(),
    decreases bytes.len(),
{
    if bytes.len() > 0 {
        lemma_hex_lower_len(bytes.drop_last());
    }
}

/// `data` in lower-case hexadecimal: calls `hex::encode`. Trusted: as the
/// crate documents, each byte becomes two lower-case hex digits.
#[verifier::external_body]
pub(crate) fn hex_encode(data: &[u8]) -> (res: String)
    ensures
        res@ == hex_lower(data@),
{
    hex::encode(data)
}

/// The first 12 hex digits of the SHA-1 digest of `text`.
pub open spec fn sha1_12_spec(text: Seq<char>) -> Seq<char> {
    hex_lower(sha1_of(encode_utf8(text))).take(12)
}

/// A lower-case hexadecimal digit.
pub open spec fn is_lower_hex(c: char) -> bool {
    ('0' <= c && c <= '9') || ('a' <= c && c <= 'f')
}

pub proof fn lemma_hex_lower_digits(bytes: Seq<u8>)
    ensures
        forall|i: int| 0 <= i < hex_lower(bytes).len() ==> is_lower_hex(#[trigger] hex_lower(bytes)[i]),
    decreases bytes.len(),
{
    if bytes.len() > 0 {
        lemma_hex_lower_digits(bytes.drop_last());
        lemma_hex_lower_len(bytes.drop_last());
        let r = hex_lower(bytes.drop_last());
        let hi = (bytes.last() / 16) as nat;
        let lo = (bytes.last() % 16) as nat;
        assert(hi < 16 && lo < 16);
        let digits = seq!['0', '1', '2', '3', '4', '5', '6', '7', '8', '9', 'a', 'b', 'c', 'd', 'e', 'f'];
        assert(forall|k: int| 0 <= k < 16 ==> is_lower_hex(#[trigger] digits[k]));
        assert(is_lower_hex(hex_digit(hi)) && is_lower_hex(hex_digit(lo)));
        assert forall|i: int| 0 <= i < hex_lower(bytes).len() implies is_lower_hex(#[trigger] hex_lower(bytes)[i]) by {
            if i < r.len() {
                assert(hex_lower(bytes)[i] == r[i]);
            }
        }
    }
}

/// The first 12 hex digits of the SHA-1 digest of `text`: twelve
/// lower-case hexadecimal digits.
pub fn sha1_12(text: &str) -> (res: String)
    ensures
        res@ == sha1_12_spec(text@),
        res@.len() == 12,
        forall|i: int| 0 <= i < 12 ==> is_lower_hex(#[trigger] res@[i]),
{
    let digest = sha1_digest(text);
    let h = hex_encode(digest.as_slice());
    proof {
        lemma_hex_lower_len(digest@);
        lemma_hex_lower_digits(digest@);
    }
    let v = chars_of(h.as_str());
    let r = string_of_range(&v, 0, 12);
    assert(r@ =~= sha1_12_spec(text@));
    r
}

/// The cache key of a repository: the first 12 hex digits of the SHA-1
/// digest of what identifies it (the path of its git directory, or of the
/// repository itself).
pub fn stable_repo_key_hash_12(key_input: &str) -> (res: String)
    ensures
        res@ == sha1_12_spec(key_input@),
        res@.len() == 12,
        forall|i: int| 0 <= i < 12 ==> is_lower_hex(#[trigger] res@[i]),
{
    sha1_12(key_input)
}

/// What stands at `.git` in a repository: a directory, a file with its
/// text (a worktree or submodule points at its git directory there), or
/// nothing that could be read.
pub enum GitEntry {
    Dir,
    File(String),
    Missing,
}

/// The path whose canonical form identifies a repository: the `.git`
/// directory itself, or a git directory (of a worktree or submodule) whose
/// grandparent does, or the root itself.
pub enum RepoKeySource {
    Path(String),
    GitDirOf(String),
}

/// A git directory made absolute against the repository root.
pub open spec fn gitdir_abs_spec(repo_root: Seq<char>, g: Seq<char>) -> Seq<char> {
    if is_rooted(g) {
        g
    } else {
        path_join_of(repo_root, g)
    }
}

/// Where a repository's key comes from: its `.git` directory; for a `.git`
/// file that names a git directory, that directory (made absolute against
/// the root); else the root.
pub open spec fn repo_key_source_spec(repo_root: Seq<char>, git_entry: GitEntry) -> (bool, Seq<char>) {
    match git_entry {
        GitEntry::Dir => (false, path_join_of(repo_root, ".git"@)),
        GitEntry::File(raw) => match gitdir_spec(raw@) {
            Some(g) => (true, gitdir_abs_spec(repo_root, g)),
            None => (false, repo_root),
        },
        GitEntry::Missing => (false, repo_root),
    }
}

pub open spec fn source_view(s: RepoKeySource) -> (bool, Seq<char>) {
    match s {
        RepoKeySource::Path(p) => (false, p@),
        RepoKeySource::GitDirOf(p) => (true, p@),
    }
}

/// Where a repository's key comes from (see [`repo_key_source_spec`]).
pub fn repo_key_source(repo_root: &str, git_entry: &GitEntry) -> (res: RepoKeySource)
    ensures
        source_view(res) == repo_key_source_spec(repo_root@, *git_entry),
{
    match git_entry {
        GitEntry::Dir => RepoKeySource::Path(path_join(repo_root, ".git")),
        GitEntry::File(raw) => match gitdir_from_git_file(raw.as_str()) {
            Some(g) => {
                let gv = chars_of(g.as_str());
                if gv.len() > 0 && gv[0] == '/' {
                    RepoKeySource::GitDirOf(g)
                } else {
                    RepoKeySource::GitDirOf(path_join(repo_root, g.as_str()))
                }
            },
            None => RepoKeySource::Path(owned(repo_root)),
        },
        GitEntry::Missing => RepoKeySource::Path(owned(repo_root)),
    }
}

/// The directory two levels above `path`, or `path` itself when it has
/// none.
pub open spec fn grandparent_or_self(path: Seq<char>) -> Seq<char> {
    match path_parent_of(path) {
        Some(p) => match path_parent_of(p) {
            Some(g) => g,
            None => path,
        },
        None => path,
    }
}

/// A repository's key from the canonical form of its source (`None` when
/// the disk gave none, and the source path stands): that form, or for a
/// git directory the directory two levels above it.
pub open spec fn repo_key_spec(source: (bool, Seq<char>), canonical: Option<Seq<char>>) -> Seq<char> {
    let c = canonical_or(canonical, source.1);
    if source.0 {
        grandparent_or_self(c)
    } else {
        c
    }
}

pub fn repo_key_from_canonical(source: &RepoKeySource, canonical: Option<String>) -> (res: String)
    ensures
        res@ == repo_key_spec(source_view(*source), opt_seq(canonical)),
{
    match source {
        RepoKeySource::Path(p) => match canonical {
            Some(c) => c,
            None => owned(p.as_str()),
        },
        RepoKeySource::GitDirOf(p) => {
            let c = match canonical {
                Some(c) => c,
                None => owned(p.as_str()),
            };
            let ghost cv = c@;
            let res = match path_parent(c.as_str()) {
                Some(parent) => match path_parent(parent.as_str()) {
                    Some(gp) => gp,
                    None => c,
                },
                None => c,
            };
            assert(res@ == grandparent_or_self(cv));
            res
        },
    }
}

/// What identifies a repository in the cache: the canonical path of its
/// `.git` directory; for a `.git` file that names a git directory, the
/// directory two levels above that one (canonical, made absolute against
/// the root); else the canonical root (see [`repo_key_spec`]). The
/// canonical form is what the disk gives, and is not stated.
pub fn stable_repo_key_input(repo_root: &str, git_entry: GitEntry) -> (res: String)
    ensures
        exists|c: Option<Seq<char>>|
            res@ == #[trigger] repo_key_spec(repo_key_source_spec(repo_root@, git_entry), c),
{
    let source = repo_key_source(repo_root, &git_entry);
    let path = match &source {
        RepoKeySource::Path(p) => p,
        RepoKeySource::GitDirOf(p) => p,
    };
    let canonical = canonicalize_path(path.as_str());
    let ghost cv = opt_seq(canonical);
    let res = repo_key_from_canonical(&source, canonical);
    assert(res@ == repo_key_spec(repo_key_source_spec(repo_root@, git_entry), cv));
    res
}

/// The abbreviated name of a commit: the first 8 characters of its id.
pub fn short_commit_id(full_id: &str) -> (res: String)
    ensures
        res@ == full_id@.take(if full_id@.len() < 8 { full_id@.len() as int } else { 8 }),
{
    let v = chars_of(full_id);
    let n: usize = if v.len() < 8 { v.len() } else { 8 };
    let r = string_of_range(&v, 0, n);
    assert(r@ =~= full_id@.take(n as int));
    r
}

/// The key of a selection's entry in the cache of related tests: the
/// abbreviated commit of `HEAD` (`nohead` without one), `::`, and the
/// selection's key.
pub fn related_cache_key(head: Option<&str>, selection_key: &str) -> (res: String)
    ensures
        res@ == match head {
            Some(h) => h@,
            None => "nohead"@,
        } + "::"@ + selection_key@,
{
    match head {
        Some(h) => concat3(h, "::", selection_key),
        None => concat3("nohead", "::", selection_key),
    }
}

/// Whether every entry of `flags` is true.
pub open spec fn all_true(flags: Seq<bool>) -> bool {
    forall|i: int| 0 <= i < flags.len() ==> #[trigger] flags[i]
}

/// The related tests a cache entry gives, when every path of it still
/// exists (`exists[i]` tells of `hit[i]`): in reverse lexicographic order,
/// neighbouring repeats cut; `None` sends the caller to search afresh.
pub fn related_from_cache_hit(hit: Option<Vec<String>>, exists: &Vec<bool>) -> (res: Option<Vec<String>>)
    requires
        hit matches Some(h) ==> h.len() == exists.len(),
    ensures
        match hit {
            Some(h) => if all_true(exists@) {
                res matches Some(r) && views(r@) == dedup_adjacent(sort_strs(views(h@), true))
            } else {
                res is None
            },
            None => res is None,
        },
{
    match hit {
        None => None,
        Some(h) => {
            let mut i: usize = 0;
            while i < exists.len()
                invariant
                    i <= exists.len(),
                    forall|j: int| 0 <= j < i ==> #[trigger] exists@[j],
                decreases exists.len() - i,
            {
                if !exists[i] {
                    return None;
                }
                i = i + 1;
            }
            let mut cached = h;
            sort_paths_for_ts_parity(&mut cached);
            Some(dedup_adjacent_strings(cached))
        },
    }
}

/// The git directory a `.git` file points at: the rest of its first line
/// that starts with `gitdir:` (in any case), trimmed; `None` when there is
/// no such line or the rest is empty.
pub open spec fn gitdir_spec(raw: Seq<char>) -> Option<Seq<char>> {
    match first_gitdir_line(lines(raw)) {
        Some(l) => {
            let rest = trim(l.skip(7));
            if rest.len() == 0 {
                None
            } else {
                Some(rest)
            }
        },
        None => None,
    }
}

/// The first trimmed line that starts with `gitdir:` in any case.
pub open spec fn first_gitdir_line(ls: Seq<Seq<char>>) -> Option<Seq<char>>
    decreases ls.len(),
{
    if ls.len() == 0 {
        None
    } else if starts_with(ascii_lower(trim(ls[0])), "gitdir:"@) {
        Some(trim(ls[0]))
    } else {
        first_gitdir_line(ls.drop_first())
    }
}

/// The git directory named by the text of a `.git` file.
pub fn gitdir_from_git_file(raw: &str) -> (res: Option<String>)
    ensures
        opt_seq(res) == gitdir_spec(raw@),
{
    let ls = lines_of(raw);
    let mut i: usize = 0;
    assert(views(ls@).skip(0) =~= views(ls@));
    while i < ls.len()
        invariant
            i <= ls.len(),
            views(ls@) == lines(raw@),
            first_gitdir_line(lines(raw@)) == first_gitdir_line(views(ls@).skip(i as int)),
        decreases ls.len() - i,
    {
        let ghost rest = views(ls@).skip(i as int);
        assert(rest[0] == ls@[i as int]@);
        assert(rest.drop_first() =~= views(ls@).skip(i + 1));
        let t = trim_str(ls[i].as_str());
        let lower = ascii_lower_str(t.as_str());
        if starts_with_str(lower.as_str(), "gitdir:") {
            let v = chars_of(t.as_str());
            proof {
                reveal_strlit("gitdir:");
                assert(lower@.len() == t@.len());
            }
            let after = string_of_range(&v, 7, v.len());
            assert(after@ =~= t@.skip(7));
            let r = trim_str(after.as_str());
            if r.as_str().is_empty() {
                return None;
            }
            return Some(r);
        }
        i = i + 1;
    }
    None
}

/// How many leading paths stay before `x` in a sorted list: those not after
/// it (in reverse order when `desc`).
pub open spec fn count_before(s: Seq<Seq<char>>, x: Seq<char>, desc: bool) -> nat
    decreases s.len(),
{
    if s.len() == 0 {
        0
    } else if (if desc {
        seq_lt(s[0], x)
    } else {
        seq_lt(x, s[0])
    }) {
        0
    } else {
        1 + count_before(s.drop_first(), x, desc)
    }
}

/// Stable sort of texts: ascending, or descending when `desc`; equal texts
/// keep their order.
pub open spec fn sort_strs(s: Seq<Seq<char>>, desc: bool) -> Seq<Seq<char>>
    decreases s.len(),
{
    if s.len() == 0 {
        s
    } else {
        let r = sort_strs(s.drop_last(), desc);
        r.insert(count_before(r, s.last(), desc) as int, s.last())
    }
}

/// Runs of equal neighbours cut to their first item (`Vec::dedup`).
pub open spec fn dedup_adjacent(s: Seq<Seq<char>>) -> Seq<Seq<char>>
    decreases s.len(),
{
    if s.len() == 0 {
        s
    } else {
        let r = dedup_adjacent(s.drop_last());
        if r.len() > 0 && r.last() == s.last() {
            r
        } else {
            r.push(s.last())
        }
    }
}

/// Each text once, where it first occurs.
pub open spec fn dedup_first(s: Seq<Seq<char>>) -> Seq<Seq<char>>
    decreases s.len(),
{
    if s.len() == 0 {
        s
    } else {
        let r = dedup_first(s.drop_last());
        if r.contains(s.last()) {
            r
        } else {
            r.push(s.last())
        }
    }
}

proof fn lemma_count_before_step(s: Seq<Seq<char>>, i: int, x: Seq<char>, desc: bool)
    requires
        0 <= i < s.len(),
        !(if desc {
            seq_lt(s[i], x)
        } else {
            seq_lt(x, s[i])
        }),
    ensures
        count_before(s.skip(i), x, desc) == 1 + count_before(s.skip(i + 1), x, desc),
{
    assert(s.skip(i).drop_first() =~= s.skip(i + 1));
}

/// Whether `x` goes before `e` in the sort (ascending or descending).
fn goes_after(e: &str, x: &str, desc: bool) -> (res: bool)
    ensures
        res == (if desc {
            seq_lt(e@, x@)
        } else {
            seq_lt(x@, e@)
        }),
{
    if desc {
        str_lt(e, x)
    } else {
        str_lt(x, e)
    }
}

fn insert_sorted(v: &mut Vec<String>, x: String, desc: bool)
    ensures
        views(final(v)@) == views(old(v)@).insert(count_before(views(old(v)@), x@, desc) as int, x@),
{
    let ghost s = views(v@);
    let mut i: usize = 0;
    assert(s.skip(0) =~= s);
    while i < v.len() && !goes_after(v[i].as_str(), x.as_str(), desc)
        invariant
            i <= v.len(),
            s == views(v@),
            count_before(s, x@, desc) == i + count_before(s.skip(i as int), x@, desc),
        decreases v.len() - i,
    {
        proof {
            lemma_count_before_step(s, i as int, x@, desc);
        }
        i = i + 1;
    }
    proof {
        if i < v.len() {
            assert(s.skip(i as int)[0] == s[i as int]);
        } else {
            assert(s.skip(i as int).len() == 0);
        }
    }
    let ghost xv = x@;
    v.insert(i, x);
    assert(views(v@) =~= s.insert(i as int, xv));
}

/// `paths` sorted stably, ascending or (with `desc`) descending.
pub fn sort_strings(paths: Vec<String>, desc: bool) -> (res: Vec<String>)
    ensures
        views(res@) == sort_strs(views(paths@), desc),
{
    let mut out: Vec<String> = Vec::new();
    let mut rest = paths;
    let ghost all = views(rest@);
    let n = rest.len();
    let mut i: usize = 0;
    assert(all.take(0) =~= Seq::<Seq<char>>::empty());
    while i < n
        invariant
            i <= n,
            n == all.len(),
            rest.len() == n - i,
            views(rest@) == all.skip(i as int),
            views(out@) == sort_strs(all.take(i as int), desc),
        decreases n - i,
    {
        assert(views(rest@)[0] == all[i as int]);
        let ghost before = rest@;
        let x = rest.remove(0);
        assert(rest@ =~= before.drop_first());
        assert(views(rest@) =~= views(before).drop_first());
        assert(all.skip(i as int).drop_first() =~= all.skip(i + 1));
        assert(views(rest@) =~= all.skip(i + 1));
        assert(all.take(i + 1).drop_last() =~= all.take(i as int));
        assert(all.take(i + 1).last() == x@);
        insert_sorted(&mut out, x, desc);
        i = i + 1;
    }
    assert(all.take(n as int) =~= all);
    out
}

/// Puts related test paths in reverse lexicographic order, the order the
/// tests then run in.
pub fn sort_paths_for_ts_parity(paths: &mut Vec<String>)
    ensures
        views(final(paths)@) == sort_strs(views(old(paths)@), true),
{
    let mut taken: Vec<String> = Vec::new();
    std::mem::swap(&mut taken, paths);
    *paths = sort_strings(taken, true);
}

/// `v` without the repeats of neighbouring equal texts.
pub fn dedup_adjacent_strings(v: Vec<String>) -> (res: Vec<String>)
    ensures
        views(res@) == dedup_adjacent(views(v@)),
{
    let mut out: Vec<String> = Vec::new();
    let mut i: usize = 0;
    assert(views(v@).take(0) =~= Seq::<Seq<char>>::empty());
    while i < v.len()
        invariant
            i <= v.len(),
            views(out@) == dedup_adjacent(views(v@).take(i as int)),
        decreases v.len() - i,
    {
        assert(views(v@).take(i + 1).drop_last() =~= views(v@).take(i as int));
        assert(views(v@).take(i + 1).last() == v@[i as int]@);
        let ghost before = views(out@);
        let keep = if out.len() > 0 {
            !str_eq(out[out.len() - 1].as_str(), v[i].as_str())
        } else {
            true
        };
        if keep {
            out.push(owned(v[i].as_str()));
            assert(views(out@) =~= before.push(v@[i as int]@));
        } else {
            assert(before.last() == out@[out.len() - 1]@);
        }
        i = i + 1;
    }
    assert(views(v@).take(v.len() as int) =~= views(v@));
    out
}

pub(crate) fn contains_string(v: &Vec<String>, x: &str) -> (res: bool)
    ensures
        res == views(v@).contains(x@),
{
    let mut i: usize = 0;
    while i < v.len()
        invariant
            i <= v.len(),
            forall|j: int| 0 <= j < i ==> v@[j]@ != x@,
        decreases v.len() - i,
    {
        if str_eq(v[i].as_str(), x) {
            assert(views(v@)[i as int] == x@);
            return true;
        }
        i = i + 1;
    }
    proof {
        if views(v@).contains(x@) {
            let j = choose|j: int| 0 <= j < views(v@).len() && views(v@)[j] == x@;
            assert(v@[j]@ == x@);
        }
    }
    false
}

/// `v` with each text kept once, where it first occurs.
pub fn dedup_first_strings(v: Vec<String>) -> (res: Vec<String>)
    ensures
        views(res@) == dedup_first(views(v@)),
{
    let mut set = crate::ordered_set::index_set_new();
    let mut i: usize = 0;
    assert(views(v@).take(0) =~= Seq::<Seq<char>>::empty());
    while i < v.len()
        invariant
            i <= v.len(),
            crate::ordered_set::index_set_items(set) == dedup_first(views(v@).take(i as int)),
        decreases v.len() - i,
    {
        assert(views(v@).take(i + 1).drop_last() =~= views(v@).take(i as int));
        assert(views(v@).take(i + 1).last() == v@[i as int]@);
        crate::ordered_set::index_set_insert(&mut set, owned(v[i].as_str()));
        i = i + 1;
    }
    assert(views(v@).take(v.len() as int) =~= views(v@));
    crate::ordered_set::index_set_into_vec(set)
}

/// Related test paths as they are cached and run: each once, in reverse
/// lexicographic order.
pub fn normalize_related(paths: Vec<String>) -> (res: Vec<String>)
    ensures
        views(res@) == dedup_adjacent(sort_strs(dedup_first(views(paths@)), true)),
{
    let mut uniq = dedup_first_strings(paths);
    sort_paths_for_ts_parity(&mut uniq);
    dedup_adjacent_strings(uniq)
}

/// The extensions of JavaScript and TypeScript sources, removed from seed
/// paths.
pub open spec fn js_ts_exts() -> Seq<Seq<char>> {
    seq![".ts"@, ".tsx"@, ".js"@, ".jsx"@, ".mjs"@, ".mts"@, ".cjs"@, ".cts"@]
}

/// The first listed extension that the path ends with, in any case.
pub open spec fn first_ext(lower: Seq<char>, exts: Seq<Seq<char>>) -> Option<Seq<char>>
    decreases exts.len(),
{
    if exts.len() == 0 {
        None
    } else if ends_with(lower, exts[0]) {
        Some(exts[0])
    } else {
        first_ext(lower, exts.drop_first())
    }
}

/// The path without its JavaScript or TypeScript extension.
pub open spec fn strip_js_ts_ext(rel: Seq<char>) -> Seq<char> {
    match first_ext(ascii_lower(rel), js_ts_exts()) {
        Some(e) => rel.take(rel.len() - e.len()),
        None => rel,
    }
}

/// Every backslash turned into a slash.
pub open spec fn to_slashes(s: Seq<char>) -> Seq<char> {
    s.map_values(|c: char|
        if c == '\\' {
            '/'
        } else {
            c
        })
}

/// The last `n` items (all when there are fewer).
pub open spec fn last_items(s: Seq<Seq<char>>, n: nat) -> Seq<Seq<char>> {
    if s.len() > n {
        s.skip(s.len() - n)
    } else {
        s
    }
}

/// The search terms of one seed: its repository-relative path without
/// extension, its base name, and its last two path segments.
pub open spec fn seed_terms_of(repo_root: Seq<char>, seed: Seq<char>) -> Seq<Seq<char>> {
    let rel = match path_strip_prefix_of(seed, repo_root) {
        Some(r) => r,
        None => seed,
    };
    let without_ext = strip_js_ts_ext(to_slashes(rel));
    let segs = split_char(without_ext, '/');
    let base = segs.last();
    let tail2 = crate::text::join(last_items(segs, 2), seq!['/']);
    seq![without_ext, base, tail2]
}

/// Adds the terms that are not blank and not there yet.
pub open spec fn add_terms(acc: Seq<Seq<char>>, terms: Seq<Seq<char>>) -> Seq<Seq<char>>
    decreases terms.len(),
{
    if terms.len() == 0 {
        acc
    } else {
        let a = add_terms(acc, terms.drop_last());
        let t = terms.last();
        if trim(t).len() == 0 || a.contains(t) {
            a
        } else {
            a.push(t)
        }
    }
}

/// The search terms of all seeds, each once, in order of first use.
pub open spec fn seed_terms_spec(repo_root: Seq<char>, seeds: Seq<Seq<char>>) -> Seq<Seq<char>>
    decreases seeds.len(),
{
    if seeds.len() == 0 {
        Seq::empty()
    } else {
        add_terms(seed_terms_spec(repo_root, seeds.drop_last()), seed_terms_of(repo_root, seeds.last()))
    }
}

fn strip_js_ts_ext_str(rel: &str) -> (res: String)
    ensures
        res@ == strip_js_ts_ext(rel@),
{
    let lower = ascii_lower_str(rel);
    let exts = [".ts", ".tsx", ".js", ".jsx", ".mjs", ".mts", ".cjs", ".cts"];
    assert(exts@.map_values(|e: &str| e@) =~= js_ts_exts()) by {
        reveal_strlit(".ts");
        reveal_strlit(".tsx");
        reveal_strlit(".js");
        reveal_strlit(".jsx");
        reveal_strlit(".mjs");
        reveal_strlit(".mts");
        reveal_strlit(".cjs");
        reveal_strlit(".cts");
    }
    let mut k: usize = 0;
    let ghost ev = js_ts_exts();
    assert(ev.skip(0) =~= ev);
    while k < 8
        invariant
            k <= 8,
            ev == js_ts_exts(),
            exts@.map_values(|e: &str| e@) == ev,
            lower@ == ascii_lower(rel@),
            first_ext(lower@, ev) == first_ext(lower@, ev.skip(k as int)),
        decreases 8 - k,
    {
        assert(ev.skip(k as int)[0] == exts@[k as int]@);
        assert(ev.skip(k as int).drop_first() =~= ev.skip(k + 1));
        if crate::text::ends_with_str(lower.as_str(), exts[k]) {
            let v = chars_of(rel);
            let e = chars_of(exts[k]);
            assert(lower@.len() == rel@.len());
            let r = string_of_range(&v, 0, v.len() - e.len());
            assert(r@ =~= strip_js_ts_ext(rel@));
            return r;
        }
        k = k + 1;
    }
    assert(ev.skip(8) =~= Seq::<Seq<char>>::empty());
    owned(rel)
}

fn to_slashes_str(s: &str) -> (res: String)
    ensures
        res@ == to_slashes(s@),
{
    let v = chars_of(s);
    let mut out: Vec<char> = Vec::new();
    let mut i: usize = 0;
    while i < v.len()
        invariant
            i <= v.len(),
            v@ == s@,
            out@ == to_slashes(s@).take(i as int),
        decreases v.len() - i,
    {
        let c = v[i];
        out.push(
            if c == '\\' {
                '/'
            } else {
                c
            },
        );
        assert(to_slashes(s@).take(i + 1) =~= to_slashes(s@).take(i as int).push(to_slashes(s@)[i as int]));
        i = i + 1;
    }
    assert(to_slashes(s@).take(v.len() as int) =~= to_slashes(s@));
    crate::text::string_of(&out)
}

/// The three search terms of one seed (see [`seed_terms_of`]).
fn terms_of_seed(repo_root: &str, seed: &str) -> (res: Vec<String>)
    ensures
        views(res@) == seed_terms_of(repo_root@, seed@),
{
    let rel = match path_strip_prefix(seed, repo_root) {
        Some(r) => r,
        None => owned(seed),
    };
    let slashed = to_slashes_str(rel.as_str());
    let without_ext = strip_js_ts_ext_str(slashed.as_str());
    let segs = split_char_str(without_ext.as_str(), '/');
    proof {
        crate::text::lemma_split_char_nonempty(without_ext@, '/');
    }
    let base = owned(segs[segs.len() - 1].as_str());
    let start: usize = if segs.len() > 2 {
        segs.len() - 2
    } else {
        0
    };
    let mut last: Vec<String> = Vec::new();
    let mut j: usize = start;
    while j < segs.len()
        invariant
            start <= j <= segs.len(),
            views(last@) == views(segs@).subrange(start as int, j as int),
        decreases segs.len() - j,
    {
        let ghost b = views(last@);
        last.push(owned(segs[j].as_str()));
        assert(views(last@) =~= b.push(segs@[j as int]@));
        assert(views(segs@).subrange(start as int, j + 1) =~= views(segs@).subrange(
            start as int,
            j as int,
        ).push(segs@[j as int]@));
        j = j + 1;
    }
    assert(views(last@) =~= last_items(views(segs@), 2));
    proof {
        reveal_strlit("/");
        assert("/"@ =~= seq!['/']);
    }
    let tail2 = crate::text::join_strs(&last, "/");
    let mut out: Vec<String> = Vec::new();
    out.push(without_ext);
    out.push(base);
    out.push(tail2);
    assert(views(out@) =~= seed_terms_of(repo_root@, seed@));
    out
}

/// The terms to search test files for, from the changed files `seeds`:
/// each seed's path relative to `repo_root` without its JS/TS extension,
/// its base name and its last two segments; blank terms dropped, each
/// term once.
pub fn build_seed_terms_ts_like(repo_root: &str, seeds: &[String]) -> (res: Vec<String>)
    ensures
        views(res@) == seed_terms_spec(repo_root@, views(seeds@)),
{
    let mut acc: Vec<String> = Vec::new();
    let mut i: usize = 0;
    assert(views(seeds@).take(0) =~= Seq::<Seq<char>>::empty());
    while i < seeds.len()
        invariant
            i <= seeds.len(),
            views(acc@) == seed_terms_spec(repo_root@, views(seeds@).take(i as int)),
        decreases seeds.len() - i,
    {
        assert(views(seeds@).take(i + 1).drop_last() =~= views(seeds@).take(i as int));
        assert(views(seeds@).take(i + 1).last() == seeds@[i as int]@);
        let terms = terms_of_seed(repo_root, seeds[i].as_str());
        let ghost a0 = views(acc@);
        let mut k: usize = 0;
        assert(views(terms@).take(0) =~= Seq::<Seq<char>>::empty());
        while k < terms.len()
            invariant
                k <= terms.len(),
                views(acc@) == add_terms(a0, views(terms@).take(k as int)),
            decreases terms.len() - k,
        {
            assert(views(terms@).take(k + 1).drop_last() =~= views(terms@).take(k as int));
            assert(views(terms@).take(k + 1).last() == terms@[k as int]@);
            let ghost before = views(acc@);
            let t = terms[k].as_str();
            if !trim_str(t).as_str().is_empty() && !contains_string(&acc, t) {
                acc.push(owned(t));
                assert(views(acc@) =~= before.push(t@));
            }
            k = k + 1;
        }
        assert(views(terms@).take(terms.len() as int) =~= views(terms@));
        i = i + 1;
    }
    assert(views(seeds@).take(seeds.len() as int) =~= views(seeds@));
    acc
}

/// The fixed flags of the search: no messages, line numbers, no colour,
/// names of matching files only, smart case, fixed strings, ignore files
/// not read.
pub open spec fn rg_base_args() -> Seq<Seq<char>> {
    seq![
        "--no-messages"@,
        "--line-number"@,
        "--color"@,
        "never"@,
        "--files-with-matches"@,
        "-S"@,
        "-F"@,
        "--no-ignore"@,
    ]
}

/// `flag` before each item.
pub open spec fn flagged(flag: Seq<char>, items: Seq<Seq<char>>) -> Seq<Seq<char>>
    decreases items.len(),
{
    if items.len() == 0 {
        Seq::empty()
    } else {
        flagged(flag, items.drop_last()) + seq![flag, items.last()]
    }
}

/// The arguments of the search: the fixed flags, `-g` and each test glob,
/// `-g` and each excluded glob behind `!`, `-e` and each term, then the
/// repository root.
pub open spec fn rg_args_spec(
    test_globs: Seq<Seq<char>>,
    exclude_globs: Seq<Seq<char>>,
    terms: Seq<Seq<char>>,
    repo_root: Seq<char>,
) -> Seq<Seq<char>> {
    rg_base_args() + flagged("-g"@, test_globs) + flagged(
        "-g"@,
        exclude_globs.map_values(|g: Seq<char>| seq!['!'] + g),
    ) + flagged("-e"@, terms) + seq![repo_root]
}

fn push_flagged(out: &mut Vec<String>, flag: &str, items: &Vec<String>)
    ensures
        views(final(out)@) == views(old(out)@) + flagged(flag@, views(items@)),
{
    let ghost start = views(out@);
    let mut i: usize = 0;
    assert(views(items@).take(0) =~= Seq::<Seq<char>>::empty());
    assert(start + flagged(flag@, Seq::<Seq<char>>::empty()) =~= start);
    while i < items.len()
        invariant
            i <= items.len(),
            views(out@) == start + flagged(flag@, views(items@).take(i as int)),
        decreases items.len() - i,
    {
        assert(views(items@).take(i + 1).drop_last() =~= views(items@).take(i as int));
        assert(views(items@).take(i + 1).last() == items@[i as int]@);
        let ghost before = views(out@);
        out.push(owned(flag));
        out.push(owned(items[i].as_str()));
        assert(views(out@) =~= before + seq![flag@, items@[i as int]@]);
        i = i + 1;
    }
    assert(views(items@).take(items.len() as int) =~= views(items@));
}

/// The arguments of the search for related tests (see [`rg_args_spec`]).
pub fn rg_args(test_globs: &Vec<String>, exclude_globs: &Vec<String>, terms: &Vec<String>, repo_root: &str) -> (res:
    Vec<String>)
    ensures
        views(res@) == rg_args_spec(views(test_globs@), views(exclude_globs@), views(terms@), repo_root@),
{
    let mut out: Vec<String> = Vec::new();
    out.push(owned("--no-messages"));
    out.push(owned("--line-number"));
    out.push(owned("--color"));
    out.push(owned("never"));
    out.push(owned("--files-with-matches"));
    out.push(owned("-S"));
    out.push(owned("-F"));
    out.push(owned("--no-ignore"));
    assert(views(out@) =~= rg_base_args());
    push_flagged(&mut out, "-g", test_globs);
    let mut negated: Vec<String> = Vec::new();
    proof {
        reveal_strlit("!");
        assert("!"@ =~= seq!['!']);
    }
    let mut i: usize = 0;
    while i < exclude_globs.len()
        invariant
            i <= exclude_globs.len(),
            views(negated@) == views(exclude_globs@).take(i as int).map_values(
                |g: Seq<char>| seq!['!'] + g,
            ),
        decreases exclude_globs.len() - i,
    {
        let ghost before = views(negated@);
        proof {
            reveal_strlit("!");
            assert("!"@ =~= seq!['!']);
        }
        negated.push(concat2("!", exclude_globs[i].as_str()));
        assert(views(negated@) =~= before.push(seq!['!'] + exclude_globs@[i as int]@));
        assert(views(exclude_globs@).take(i + 1) =~= views(exclude_globs@).take(i as int).push(
            exclude_globs@[i as int]@,
        ));
        assert(views(negated@) =~= views(exclude_globs@).take(i + 1).map_values(
            |g: Seq<char>| seq!['!'] + g,
        ));
        i = i + 1;
    }
    assert(views(exclude_globs@).take(exclude_globs.len() as int) =~= views(exclude_globs@));
    push_flagged(&mut out, "-g", &negated);
    push_flagged(&mut out, "-e", terms);
    out.push(owned(repo_root));
    out
}

/// The paths the search printed, each joined onto the repository root
/// (an absolute path stays as it is).
pub open spec fn rg_candidates(stdout: Seq<char>, repo_root: Seq<char>) -> Seq<Seq<char>>
    decreases lines(stdout).len(),
{
    candidates_of(lines(stdout), repo_root)
}

pub open spec fn candidates_of(ls: Seq<Seq<char>>, repo_root: Seq<char>) -> Seq<Seq<char>>
    decreases ls.len(),
{
    if ls.len() == 0 {
        Seq::empty()
    } else {
        let r = candidates_of(ls.drop_last(), repo_root);
        let t = trim(ls.last());
        if t.len() == 0 {
            r
        } else {
            r.push(path_join_of(repo_root, t))
        }
    }
}

/// The items of `s` whose mark in `keep` is set.
pub open spec fn select(s: Seq<Seq<char>>, keep: Seq<bool>) -> Seq<Seq<char>>
    decreases s.len(),
{
    if s.len() == 0 || keep.len() != s.len() {
        Seq::empty()
    } else {
        let r = select(s.drop_last(), keep.drop_last());
        if keep.last() {
            r.push(s.last())
        } else {
            r
        }
    }
}

/// The paths the search printed, joined onto the repository root (see
/// [`rg_candidates`]).
pub fn rg_candidate_paths(stdout: &str, repo_root: &str) -> (res: Vec<String>)
    ensures
        views(res@) == rg_candidates(stdout@, repo_root@),
{
    let ls = lines_of(stdout);
    let mut out: Vec<String> = Vec::new();
    let mut i: usize = 0;
    assert(views(ls@).take(0) =~= Seq::<Seq<char>>::empty());
    while i < ls.len()
        invariant
            i <= ls.len(),
            views(ls@) == lines(stdout@),
            views(out@) == candidates_of(views(ls@).take(i as int), repo_root@),
        decreases ls.len() - i,
    {
        assert(views(ls@).take(i + 1).drop_last() =~= views(ls@).take(i as int));
        assert(views(ls@).take(i + 1).last() == ls@[i as int]@);
        let t = trim_str(ls[i].as_str());
        if !t.as_str().is_empty() {
            let abs = path_join(repo_root, t.as_str());
            let ghost before = views(out@);
            let ghost av = abs@;
            out.push(abs);
            assert(views(out@) =~= before.push(av));
        }
        i = i + 1;
    }
    assert(views(ls@).take(ls.len() as int) =~= views(ls@));
    out
}

/// The items of `v` whose mark in `keep` is set, in order.
pub fn select_strings(v: &Vec<String>, keep: &Vec<bool>) -> (res: Vec<String>)
    requires
        keep.len() == v.len(),
    ensures
        views(res@) == select(views(v@), keep@),
{
    let mut out: Vec<String> = Vec::new();
    let mut i: usize = 0;
    while i < v.len()
        invariant
            i <= v.len(),
            keep.len() == v.len(),
            views(out@) == select(views(v@).take(i as int), keep@.take(i as int)),
        decreases v.len() - i,
    {
        assert(views(v@).take(i + 1).drop_last() =~= views(v@).take(i as int));
        assert(keep@.take(i + 1).drop_last() =~= keep@.take(i as int));
        assert(views(v@).take(i + 1).last() == v@[i as int]@);
        assert(keep@.take(i + 1).last() == keep@[i as int]);
        if keep[i] {
            let ghost before = views(out@);
            out.push(owned(v[i].as_str()));
            assert(views(out@) =~= before.push(v@[i as int]@));
        }
        i = i + 1;
    }
    assert(views(v@).take(v.len() as int) =~= views(v@));
    assert(keep@.take(v.len() as int) =~= keep@);
    out
}

/// The related tests from the search's output: the printed paths whose
/// mark in `exists` is set (`exists[i]` tells whether the `i`th printed
/// path exists), each once, in ascending order.
pub fn related_tests_from_rg_candidates(stdout: &str, repo_root: &str, exists: &Vec<bool>) -> (res: Vec<String>)
    requires
        exists.len() == rg_candidates(stdout@, repo_root@).len(),
    ensures
        views(res@) == sort_strs(dedup_first(select(rg_candidates(stdout@, repo_root@), exists@)), false),
{
    let cands = rg_candidate_paths(stdout, repo_root);
    let found = select_strings(&cands, exists);
    let uniq = dedup_first_strings(found);
    sort_strings(uniq, false)
}

/// The related tests from the search's output: the printed paths that
/// exist on the disk, each once, in ascending order (see
/// [`related_tests_from_rg_candidates`]). Which paths exist is read from
/// the disk and is not stated.
pub fn related_tests_from_rg_output(stdout: &str, repo_root: &str) -> (res: Vec<String>)
    ensures
        exists|keep: Seq<bool>|
            keep.len() == rg_candidates(stdout@, repo_root@).len() && views(res@) == sort_strs(
                dedup_first(select(rg_candidates(stdout@, repo_root@), keep)),
                false,
            ),
{
    let cands = rg_candidate_paths(stdout, repo_root);
    let mut exists: Vec<bool> = Vec::new();
    let mut i: usize = 0;
    while i < cands.len()
        invariant
            i <= cands.len(),
            exists.len() == i,
        decreases cands.len() - i,
    {
        exists.push(path_exists(cands[i].as_str()));
        i = i + 1;
    }
    related_tests_from_rg_candidates(stdout, repo_root, &exists)
}

/// How the search ended, as the caller saw it: the search tool is not
/// installed, the search timed out, it exited with a code, or it could not
/// be run at all.
pub enum RgOutcome {
    NotInstalled,
    TimedOut,
    Exited(Option<i32>),
    RunFailed,
}

/// What searching for the related tests asks for or gives: nothing to
/// search for (no seeds, or no term from them) or a search that failed
/// gives no tests; a search tool that could not be run is an error; a
/// finished search is read from its output.
pub enum FastSearchStep {
    NoTests,
    Error,
    ReadOutput,
}

/// Whether a search is run at all: not without seeds or search terms.
pub fn fast_search_needed(seeds: &[String], terms: &Vec<String>) -> (res: bool)
    ensures
        res == (seeds@.len() > 0 && terms@.len() > 0),
{
    seeds.len() > 0 && terms.len() > 0
}

/// What the search's end means: a search tool that is missing, a search
/// that timed out, or one that exited with a code other than 0 (found) or
/// 1 (nothing found) gives no tests; a search that could not be run is an
/// error; else its output is read.
pub fn fast_search_step(outcome: RgOutcome) -> (res: FastSearchStep)
    ensures
        match outcome {
            RgOutcome::NotInstalled => res is NoTests,
            RgOutcome::TimedOut => res is NoTests,
            RgOutcome::RunFailed => res is Error,
            RgOutcome::Exited(code) => if code == Some(0i32) || code == Some(1i32) {
                res is ReadOutput
            } else {
                res is NoTests
            },
        },
{
    match outcome {
        RgOutcome::NotInstalled => FastSearchStep::NoTests,
        RgOutcome::TimedOut => FastSearchStep::NoTests,
        RgOutcome::RunFailed => FastSearchStep::Error,
        RgOutcome::Exited(code) => match code {
            Some(c) => if c == 0 || c == 1 {
                FastSearchStep::ReadOutput
            } else {
                FastSearchStep::NoTests
            },
            None => FastSearchStep::NoTests,
        },
    }
}

/// `a` goes before `b` in the order of the sort: ascending, or descending
/// when `desc`.
pub open spec fn goes_before(a: Seq<char>, b: Seq<char>, desc: bool) -> bool {
    if desc {
        seq_lt(b, a)
    } else {
        seq_lt(a, b)
    }
}

proof fn lemma_goes_before_order(a: Seq<char>, b: Seq<char>, c: Seq<char>, desc: bool)
    ensures
        goes_before(a, b, desc) ==> !goes_before(b, a, desc),
        !goes_before(a, a, desc),
        (goes_before(a, b, desc) && goes_before(b, c, desc)) ==> goes_before(a, c, desc),
        (!goes_before(b, a, desc) && !goes_before(c, b, desc)) ==> !goes_before(c, a, desc),
        (goes_before(a, b, desc) && !goes_before(c, b, desc)) ==> goes_before(a, c, desc),
{
    crate::text::lemma_seq_lt_irreflexive(a);
    crate::text::lemma_seq_lt_total(a, b);
    crate::text::lemma_seq_lt_total(b, c);
    crate::text::lemma_seq_lt_total(a, c);
    if seq_lt(a, b) {
        crate::text::lemma_seq_lt_asymmetric(a, b);
    }
    if seq_lt(b, a) {
        crate::text::lemma_seq_lt_asymmetric(b, a);
    }
    if seq_lt(a, c) {
        crate::text::lemma_seq_lt_asymmetric(a, c);
    }
    if seq_lt(c, a) {
        crate::text::lemma_seq_lt_asymmetric(c, a);
    }
    if seq_lt(b, c) {
        crate::text::lemma_seq_lt_asymmetric(b, c);
    }
    if seq_lt(c, b) {
        crate::text::lemma_seq_lt_asymmetric(c, b);
    }
    if seq_lt(a, b) && seq_lt(b, c) {
        crate::text::lemma_seq_lt_transitive(a, b, c);
    }
    if seq_lt(c, b) && seq_lt(b, a) {
        crate::text::lemma_seq_lt_transitive(c, b, a);
    }
}

/// Texts in the order of the sort (equal ones side by side).
pub open spec fn sorted_by(s: Seq<Seq<char>>, desc: bool) -> bool {
    forall|i: int, j: int| 0 <= i < j < s.len() ==> !goes_before(#[trigger] s[j], #[trigger] s[i], desc)
}

proof fn lemma_count_before_bounds(s: Seq<Seq<char>>, x: Seq<char>, desc: bool)
    ensures
        count_before(s, x, desc) <= s.len(),
        forall|i: int| 0 <= i < count_before(s, x, desc) ==> !goes_before(x, #[trigger] s[i], desc),
        count_before(s, x, desc) < s.len() ==> goes_before(x, s[count_before(s, x, desc) as int], desc),
    decreases s.len(),
{
    if s.len() > 0 && !goes_before(x, s[0], desc) {
        lemma_count_before_bounds(s.drop_first(), x, desc);
        assert forall|i: int| 0 <= i < count_before(s, x, desc) implies !goes_before(x, #[trigger] s[i], desc) by {
            if i > 0 {
                assert(s[i] == s.drop_first()[i - 1]);
            }
        }
        if count_before(s, x, desc) < s.len() {
            assert(s[count_before(s, x, desc) as int] == s.drop_first()[count_before(s.drop_first(), x, desc) as int]);
        }
    }
}

proof fn lemma_sort_strs_sorted(s: Seq<Seq<char>>, desc: bool)
    ensures
        sorted_by(sort_strs(s, desc), desc),
        sort_strs(s, desc).to_multiset() == s.to_multiset(),
        sort_strs(s, desc).len() == s.len(),
    decreases s.len(),
{
    broadcast use vstd::seq_lib::to_multiset_build, vstd::seq_lib::to_multiset_insert;

    if s.len() > 0 {
        lemma_sort_strs_sorted(s.drop_last(), desc);
        let r = sort_strs(s.drop_last(), desc);
        let x = s.last();
        lemma_count_before_bounds(r, x, desc);
        let p = count_before(r, x, desc) as int;
        let t = r.insert(p, x);
        assert forall|i: int, j: int| 0 <= i < j < t.len() implies !goes_before(#[trigger] t[j], #[trigger] t[i], desc) by {
            if j < p {
                assert(t[i] == r[i] && t[j] == r[j]);
            } else if j == p {
                assert(t[j] == x && t[i] == r[i]);
            } else if i < p {
                assert(t[i] == r[i] && t[j] == r[j - 1]);
                lemma_goes_before_order(x, r[p], r[j - 1], desc);
                lemma_goes_before_order(r[i], x, r[j - 1], desc);
                if j - 1 > p {
                    assert(!goes_before(r[j - 1], r[p], desc));
                }
                lemma_goes_before_order(r[j - 1], x, r[i], desc);
            } else if i == p {
                assert(t[i] == x && t[j] == r[j - 1]);
                lemma_goes_before_order(x, r[p], r[j - 1], desc);
                if j - 1 > p {
                    assert(!goes_before(r[j - 1], r[p], desc));
                }
                lemma_goes_before_order(r[j - 1], x, x, desc);
                lemma_goes_before_order(x, r[j - 1], r[p], desc);
            } else {
                assert(t[i] == r[i - 1] && t[j] == r[j - 1]);
            }
        }
        assert(s =~= s.drop_last().push(x));
    } else {
        assert(s.to_multiset() =~= sort_strs(s, desc).to_multiset());
    }
}

/// Sorting keeps the length.
pub proof fn lemma_sort_strs_len(s: Seq<Seq<char>>, desc: bool)
    ensures
        sort_strs(s, desc).len() == s.len(),
    decreases s.len(),
{
    if s.len() > 0 {
        lemma_sort_strs_len(s.drop_last(), desc);
        lemma_count_before_bounds(sort_strs(s.drop_last(), desc), s.last(), desc);
    }
}

/// The stable sort keeps every text as often as it occurs and puts them
/// in order: no text comes after one it goes before.
pub proof fn law_sort_strs(s: Seq<Seq<char>>, desc: bool)
    ensures
        sort_strs(s, desc).to_multiset() == s.to_multiset(),
        forall|i: int, j: int|
            0 <= i < j < sort_strs(s, desc).len() ==> !goes_before(
                #[trigger] sort_strs(s, desc)[j],
                #[trigger] sort_strs(s, desc)[i],
                desc,
            ),
{
    lemma_sort_strs_sorted(s, desc);
}


proof fn lemma_dedup_adjacent_sorted(t: Seq<Seq<char>>, desc: bool)
    requires
        sorted_by(t, desc),
    ensures
        forall|i: int, j: int| 0 <= i < j < dedup_adjacent(t).len() ==> goes_before(
            #[trigger] dedup_adjacent(t)[i],
            #[trigger] dedup_adjacent(t)[j],
            desc,
        ),
        forall|x: Seq<char>| dedup_adjacent(t).contains(x) <==> t.contains(x),
        dedup_adjacent(t).len() > 0 ==> dedup_adjacent(t).last() == t.last(),
    decreases t.len(),
{
    if t.len() > 0 {
        let u = t.drop_last();
        assert(sorted_by(u, desc)) by {
            assert forall|i: int, j: int| 0 <= i < j < u.len() implies !goes_before(#[trigger] u[j], #[trigger] u[i], desc) by {
                assert(u[i] == t[i] && u[j] == t[j]);
            }
        }
        lemma_dedup_adjacent_sorted(u, desc);
        let r = dedup_adjacent(u);
        let x = t.last();
        if r.len() > 0 && r.last() == x {
            assert forall|y: Seq<char>| r.contains(y) <==> t.contains(y) by {
                if t.contains(y) {
                    let k = choose|k: int| 0 <= k < t.len() && t[k] == y;
                    if k < u.len() {
                        assert(u[k] == y);
                        assert(u.contains(y));
                        assert(r.contains(y));
                    } else {
                        assert(r[r.len() - 1] == y);
                        assert(r.contains(y));
                    }
                }
                if r.contains(y) {
                    assert(u.contains(y));
                    let k = choose|k: int| 0 <= k < u.len() && u[k] == y;
                    assert(t[k] == y);
                }
            }
        } else {
            let w = r.push(x);
            if r.len() > 0 {
                assert(u.contains(r.last()));
                let k = choose|k: int| 0 <= k < u.len() && u[k] == r.last();
                assert(t[k] == r.last());
                assert(!goes_before(t[t.len() - 1], t[k], desc));
                crate::text::lemma_seq_lt_total(r.last(), x);
                assert(goes_before(r.last(), x, desc));
            }
            assert forall|i: int, j: int| 0 <= i < j < w.len() implies goes_before(#[trigger] w[i], #[trigger] w[j], desc) by {
                if j < r.len() {
                    assert(w[i] == r[i] && w[j] == r[j]);
                } else {
                    assert(w[j] == x);
                    assert(w[i] == r[i]);
                    if i < r.len() - 1 {
                        lemma_goes_before_order(r[i], r[r.len() - 1], x, desc);
                    }
                }
            }
            assert forall|y: Seq<char>| w.contains(y) <==> t.contains(y) by {
                if t.contains(y) {
                    let k = choose|k: int| 0 <= k < t.len() && t[k] == y;
                    if k < u.len() {
                        assert(u[k] == y);
                        assert(u.contains(y));
                        assert(r.contains(y));
                        let m = choose|m: int| 0 <= m < r.len() && r[m] == y;
                        assert(w[m] == y);
                    } else {
                        assert(w[w.len() - 1] == y);
                    }
                }
                if w.contains(y) {
                    let m = choose|m: int| 0 <= m < w.len() && w[m] == y;
                    if m < r.len() {
                        assert(r[m] == y);
                        assert(u.contains(y));
                        let k = choose|k: int| 0 <= k < u.len() && u[k] == y;
                        assert(t[k] == y);
                    } else {
                        assert(t[t.len() - 1] == y);
                    }
                }
            }
        }
    }
}

/// Sorting and dropping repeats gives each text once, in strictly
/// ascending order, and exactly the texts of the input.
pub proof fn law_dedup_sorted(s: Seq<Seq<char>>)
    ensures
        forall|i: int, j: int|
            0 <= i < j < dedup_adjacent(sort_strs(s, false)).len() ==> seq_lt(
                #[trigger] dedup_adjacent(sort_strs(s, false))[i],
                #[trigger] dedup_adjacent(sort_strs(s, false))[j],
            ),
        forall|x: Seq<char>| dedup_adjacent(sort_strs(s, false)).contains(x) <==> s.contains(x),
{
    broadcast use vstd::seq_lib::to_multiset_contains;

    lemma_sort_strs_sorted(s, false);
    lemma_dedup_adjacent_sorted(sort_strs(s, false), false);
    assert forall|x: Seq<char>| sort_strs(s, false).contains(x) <==> s.contains(x) by {
        assert(sort_strs(s, false).to_multiset().count(x) == s.to_multiset().count(x));
    }
}


/// Related test paths as they are cached and run hold each path once, in
/// strictly reverse lexicographic order, and exactly the paths found.
pub proof fn law_normalize_related(paths: Seq<Seq<char>>)
    ensures
        forall|i: int, j: int|
            0 <= i < j < dedup_adjacent(sort_strs(dedup_first(paths), true)).len() ==> seq_lt(
                #[trigger] dedup_adjacent(sort_strs(dedup_first(paths), true))[j],
                #[trigger] dedup_adjacent(sort_strs(dedup_first(paths), true))[i],
            ),
        forall|x: Seq<char>| dedup_adjacent(sort_strs(dedup_first(paths), true)).contains(x) <==> paths.contains(x),
{
    broadcast use vstd::seq_lib::to_multiset_contains;

    let d = dedup_first(paths);
    lemma_sort_strs_sorted(d, true);
    lemma_dedup_adjacent_sorted(sort_strs(d, true), true);
    assert forall|x: Seq<char>| sort_strs(d, true).contains(x) <==> d.contains(x) by {
        assert(sort_strs(d, true).to_multiset().count(x) == d.to_multiset().count(x));
    }
    lemma_dedup_first_contains(paths);
}

proof fn lemma_dedup_first_contains(s: Seq<Seq<char>>)
    ensures
        forall|x: Seq<char>| dedup_first(s).contains(x) <==> s.contains(x),
    decreases s.len(),
{
    if s.len() > 0 {
        let u = s.drop_last();
        lemma_dedup_first_contains(u);
        let r = dedup_first(u);
        assert forall|x: Seq<char>| dedup_first(s).contains(x) <==> s.contains(x) by {
            if s.contains(x) {
                let k = choose|k: int| 0 <= k < s.len() && s[k] == x;
                if k < u.len() {
                    assert(u[k] == x);
                    assert(u.contains(x));
                    let m = choose|m: int| 0 <= m < r.len() && r[m] == x;
                    if !r.contains(s.last()) {
                        assert(r.push(s.last())[m] == x);
                    }
                } else if !r.contains(s.last()) {
                    assert(r.push(s.last())[r.len() as int] == x);
                }
            }
            if dedup_first(s).contains(x) {
                let m = choose|m: int| 0 <= m < dedup_first(s).len() && dedup_first(s)[m] == x;
                if m < r.len() {
                    assert(dedup_first(s)[m] == r[m]);
                    assert(r.contains(x));
                    assert(u.contains(x));
                    let k = choose|k: int| 0 <= k < u.len() && u[k] == x;
                    assert(s[k] == x);
                } else {
                    assert(s[s.len() - 1] == x);
                }
            }
        }
    }
}


proof fn lemma_dedup_first_unique(s: Seq<Seq<char>>)
    ensures
        forall|x: Seq<char>| #[trigger] dedup_first(s).to_multiset().count(x) <= 1,
    decreases s.len(),
{
    broadcast use vstd::seq_lib::to_multiset_contains, vstd::seq_lib::to_multiset_build;

    if s.len() > 0 {
        lemma_dedup_first_unique(s.drop_last());
        let r = dedup_first(s.drop_last());
        if !r.contains(s.last()) {
            assert forall|x: Seq<char>| #[trigger] dedup_first(s).to_multiset().count(x) <= 1 by {
                assert(dedup_first(s) == r.push(s.last()));
                assert(r.push(s.last()).to_multiset() =~= r.to_multiset().insert(s.last()));
                if x == s.last() {
                    assert(r.to_multiset().count(x) == 0);
                }
            }
        }
    }
}

/// The related tests read from a search are in ascending order, hold each
/// path once, and are exactly the printed paths that exist.
pub proof fn law_related_tests_from_rg(stdout: Seq<char>, repo_root: Seq<char>, exists: Seq<bool>)
    requires
        exists.len() == rg_candidates(stdout, repo_root).len(),
    ensures
        ({
            let res = sort_strs(dedup_first(select(rg_candidates(stdout, repo_root), exists)), false);
            &&& forall|i: int, j: int| 0 <= i < j < res.len() ==> !seq_lt(#[trigger] res[j], #[trigger] res[i])
            &&& forall|x: Seq<char>| #[trigger] res.to_multiset().count(x) <= 1
            &&& forall|x: Seq<char>|
                res.contains(x) <==> #[trigger] select(rg_candidates(stdout, repo_root), exists).contains(x)
        }),
{
    broadcast use vstd::seq_lib::to_multiset_contains;

    let sel = select(rg_candidates(stdout, repo_root), exists);
    let d = dedup_first(sel);
    let res = sort_strs(d, false);
    lemma_sort_strs_sorted(d, false);
    lemma_dedup_first_unique(sel);
    lemma_dedup_first_contains(sel);
    assert forall|x: Seq<char>| #[trigger] res.to_multiset().count(x) <= 1 by {
        assert(res.to_multiset().count(x) == d.to_multiset().count(x));
    }
    assert forall|x: Seq<char>| res.contains(x) <==> #[trigger] sel.contains(x) by {
        assert(res.to_multiset().count(x) == d.to_multiset().count(x));
    }
    assert forall|i: int, j: int| 0 <= i < j < res.len() implies !seq_lt(#[trigger] res[j], #[trigger] res[i]) by {
        assert(!goes_before(res[j], res[i], false));
    }
}

} // verus!
