//! Test results kept in order of their titles, one per title: the map from
//! test name to result that the JSON stream parsers fill.
use crate::format::failure_diagnostics::{location_from_captures_spec, parse_rust_panic_location, regex_captures3, RUST_PANICKED_AT_PATTERN};
use crate::path_names::{path_file_name, path_file_name_of};
use crate::test_model::{case_views, TestCaseResult, TestCaseView, TestLocation};
use crate::text::{
    is_blank, lemma_seq_lt_irreflexive, lemma_seq_lt_total, lemma_seq_lt_transitive, lines, lines_of,
    owned, seq_lt, str_eq, str_lt, trim, trim_str,
};
use vstd::prelude::*;

verus! {

/// How many leading results have a title before `key`.
pub open spec fn count_title_lt(s: Seq<TestCaseView>, key: Seq<char>) -> nat
    decreases s.len(),
{
    if s.len() == 0 || !seq_lt(s[0].title, key) {
        0
    } else {
        1 + count_title_lt(s.drop_first(), key)
    }
}

/// The result titled `key`, looked up where an ordered list keeps it.
pub open spec fn case_lookup(s: Seq<TestCaseView>, key: Seq<char>) -> Option<TestCaseView> {
    let p = count_title_lt(s, key) as int;
    if p < s.len() && s[p].title == key {
        Some(s[p])
    } else {
        None
    }
}

/// The list without the result titled `key`.
pub open spec fn case_remove(s: Seq<TestCaseView>, key: Seq<char>) -> Seq<TestCaseView> {
    let p = count_title_lt(s, key) as int;
    if p < s.len() && s[p].title == key {
        s.remove(p)
    } else {
        s
    }
}

/// The list with `c` placed before the first result whose title is not
/// before its own.
pub open spec fn case_insert(s: Seq<TestCaseView>, c: TestCaseView) -> Seq<TestCaseView> {
    s.insert(count_title_lt(s, c.title) as int, c)
}

proof fn lemma_count_title_step(s: Seq<TestCaseView>, i: int, key: Seq<char>)
    requires
        0 <= i < s.len(),
        seq_lt(s[i].title, key),
    ensures
        count_title_lt(s.skip(i), key) == 1 + count_title_lt(s.skip(i + 1), key),
{
    assert(s.skip(i).drop_first() =~= s.skip(i + 1));
}

/// Where a result titled `key` stands, or would stand.
pub fn case_position(v: &Vec<TestCaseResult>, key: &str) -> (p: usize)
    ensures
        p == count_title_lt(case_views(v@), key@),
        p <= v.len(),
{
    let ghost s = case_views(v@);
    let mut i: usize = 0;
    assert(s.skip(0) =~= s);
    while i < v.len() && str_lt(v[i].title.as_str(), key)
        invariant
            i <= v.len(),
            s == case_views(v@),
            count_title_lt(s, key@) == i + count_title_lt(s.skip(i as int), key@),
        decreases v.len() - i,
    {
        proof {
            lemma_count_title_step(s, i as int, key@);
        }
        i = i + 1;
    }
    proof {
        if i < v.len() {
            assert(s.skip(i as int)[0] == s[i as int]);
        } else {
            assert(s.skip(i as int).len() == 0);
        }
    }
    i
}

/// Takes the result titled `key` out of the list.
pub fn case_take(v: &mut Vec<TestCaseResult>, key: &str) -> (res: Option<TestCaseResult>)
    ensures
        case_views(final(v)@) == case_remove(case_views(old(v)@), key@),
        match res {
            Some(c) => case_lookup(case_views(old(v)@), key@) == Some(c@),
            None => case_lookup(case_views(old(v)@), key@) is None,
        },
{
    let ghost s = case_views(v@);
    let p = case_position(v, key);
    if p < v.len() && str_eq(v[p].title.as_str(), key) {
        let c = v.remove(p);
        assert(case_views(v@) =~= s.remove(p as int));
        Some(c)
    } else {
        None
    }
}

/// Puts `c` into the list where its title belongs.
pub fn case_put(v: &mut Vec<TestCaseResult>, c: TestCaseResult)
    ensures
        case_views(final(v)@) == case_insert(case_views(old(v)@), c@),
{
    let ghost s = case_views(v@);
    let ghost cv = c@;
    let p = case_position(v, c.title.as_str());
    v.insert(p, c);
    assert(case_views(v@) =~= s.insert(p as int, cv));
}

/// A result not run yet: the title and full name are the test's name,
/// the status `pending`.
pub open spec fn pending_case(name: Seq<char>, duration: u64) -> TestCaseView {
    TestCaseView {
        title: name,
        full_name: name,
        status: "pending"@,
        timed_out: None,
        duration,
        location: None,
        failure_messages: Seq::empty(),
        failure_details: None,
    }
}

pub fn new_pending_case(name: &str, duration: u64) -> (res: TestCaseResult)
    ensures
        res@ == pending_case(name@, duration),
{
    let res = TestCaseResult {
        title: owned(name),
        full_name: owned(name),
        status: owned("pending"),
        timed_out: None,
        duration,
        location: None,
        failure_messages: Vec::new(),
        failure_details: None,
    };
    assert(res@.failure_messages =~= Seq::<Seq<char>>::empty());
    res
}

/// The location of the first line of `ls` that is a panic header naming
/// one.
pub open spec fn first_panic_location(ls: Seq<Seq<char>>) -> Option<(Seq<char>, i64, i64)>
    decreases ls.len(),
{
    if ls.len() == 0 {
        None
    } else {
        match location_from_captures_spec(regex_captures3(RUST_PANICKED_AT_PATTERN@, trim(ls[0]))) {
            Some(l) => Some(l),
            None => first_panic_location(ls.drop_first()),
        }
    }
}

/// The failure location a test's output names, kept only when the panic
/// happened in the suite's own file (same file name) at a positive line
/// and column.
pub open spec fn suite_location_spec(stdout: Seq<char>, suite_path: Seq<char>) -> Option<TestLocation> {
    let suite_file = match path_file_name_of(suite_path) {
        Some(n) => n,
        None => Seq::empty(),
    };
    if trim(suite_file).len() == 0 {
        None
    } else {
        match first_panic_location(lines(stdout)) {
            Some((file, l, c)) => if path_file_name_of(file) == Some(suite_file) && l > 0 && c > 0 {
                Some(TestLocation { line: l, column: c })
            } else {
                None
            },
            None => None,
        }
    }
}

/// The failure location in `stdout` that lies in the suite's own file.
pub fn suite_location(stdout: &str, suite_path: &str) -> (res: Option<TestLocation>)
    ensures
        res == suite_location_spec(stdout@, suite_path@),
{
    let suite_file = match path_file_name(suite_path) {
        Some(n) => n,
        None => String::new(),
    };
    if trim_str(suite_file.as_str()).as_str().is_empty() {
        return None;
    }
    let ls = lines_of(stdout);
    let mut i: usize = 0;
    assert(views_skip0(ls@));
    while i < ls.len()
        invariant
            i <= ls.len(),
            crate::text::views(ls@) == lines(stdout@),
            suite_file@ == (match path_file_name_of(suite_path@) {
                Some(n) => n,
                None => Seq::empty(),
            }),
            trim(suite_file@).len() > 0,
            first_panic_location(lines(stdout@)) == first_panic_location(
                crate::text::views(ls@).skip(i as int),
            ),
        decreases ls.len() - i,
    {
        let ghost rest = crate::text::views(ls@).skip(i as int);
        assert(rest[0] == ls@[i as int]@);
        assert(rest.drop_first() =~= crate::text::views(ls@).skip(i + 1));
        let parsed = parse_rust_panic_location(ls[i].as_str());
        assert(first_panic_location(rest) == match location_from_captures_spec(
            regex_captures3(RUST_PANICKED_AT_PATTERN@, trim(rest[0])),
        ) {
            Some(l) => Some(l),
            None => first_panic_location(rest.drop_first()),
        });
        match parsed {
            Some((file, l, c)) => {
                assert(first_panic_location(lines(stdout@)) == Some((file@, l, c)));
                let same = match path_file_name(file.as_str()) {
                    Some(n) => str_eq(n.as_str(), suite_file.as_str()),
                    None => false,
                };
                if same && l > 0 && c > 0 {
                    return Some(TestLocation { line: l, column: c });
                }
                return None;
            },
            None => {},
        }
        i = i + 1;
    }
    None
}

spec fn views_skip0(v: Seq<String>) -> bool {
    crate::text::views(v).skip(0) =~= crate::text::views(v)
}

/// How many results have status `st`.
pub open spec fn count_status(s: Seq<TestCaseView>, st: Seq<char>) -> nat
    decreases s.len(),
{
    if s.len() == 0 {
        0
    } else {
        count_status(s.drop_last(), st) + if s.last().status == st {
            1nat
        } else {
            0nat
        }
    }
}

pub proof fn lemma_count_status_bound(s: Seq<TestCaseView>, st: Seq<char>)
    ensures
        count_status(s, st) <= s.len(),
    decreases s.len(),
{
    if s.len() > 0 {
        lemma_count_status_bound(s.drop_last(), st);
    }
}

/// How many of the results have status `st`.
pub fn count_with_status(v: &Vec<TestCaseResult>, st: &str) -> (res: u64)
    requires
        v.len() <= u64::MAX,
    ensures
        res == count_status(case_views(v@), st@),
{
    let mut n: u64 = 0;
    let mut i: usize = 0;
    while i < v.len()
        invariant
            i <= v.len() <= u64::MAX,
            n == count_status(case_views(v@).take(i as int), st@),
            n <= i,
        decreases v.len() - i,
    {
        assert(case_views(v@).take(i + 1).drop_last() =~= case_views(v@).take(i as int));
        if str_eq(v[i].status.as_str(), st) {
            n = n + 1;
        }
        i = i + 1;
    }
    assert(case_views(v@).take(v.len() as int) =~= case_views(v@));
    n
}


/// The place of a title is within the list.
pub proof fn lemma_count_title_le(s: Seq<TestCaseView>, key: Seq<char>)
    ensures
        count_title_lt(s, key) <= s.len(),
    decreases s.len(),
{
    if s.len() > 0 && seq_lt(s[0].title, key) {
        lemma_count_title_le(s.drop_first(), key);
    }
}

/// After a result is put in, the list holds it.
pub proof fn lemma_case_insert_holds(s: Seq<TestCaseView>, c: TestCaseView)
    ensures
        case_insert(s, c).len() == s.len() + 1,
        case_insert(s, c)[count_title_lt(s, c.title) as int] == c,
{
    lemma_count_title_le(s, c.title);
}


/// The titles strictly increase: the list is ordered by title and holds
/// each title once.
pub open spec fn titles_sorted(s: Seq<TestCaseView>) -> bool {
    forall|i: int, j: int| #![trigger s[i], s[j]] 0 <= i < j < s.len() ==> seq_lt(s[i].title, s[j].title)
}

proof fn lemma_count_title_sorted(s: Seq<TestCaseView>, key: Seq<char>)
    requires
        titles_sorted(s),
    ensures
        count_title_lt(s, key) <= s.len(),
        forall|i: int| 0 <= i < count_title_lt(s, key) ==> seq_lt((#[trigger] s[i]).title, key),
        forall|i: int| count_title_lt(s, key) <= i < s.len() ==> !seq_lt((#[trigger] s[i]).title, key),
    decreases s.len(),
{
    lemma_count_title_le(s, key);
    if s.len() > 0 {
        if seq_lt(s[0].title, key) {
            let t = s.drop_first();
            assert forall|i: int, j: int| #![trigger t[i], t[j]] 0 <= i < j < t.len() implies seq_lt(
                t[i].title,
                t[j].title,
            ) by {
                assert(t[i] == s[i + 1]);
                assert(t[j] == s[j + 1]);
            }
            lemma_count_title_sorted(t, key);
            assert forall|i: int| 0 <= i < count_title_lt(s, key) implies seq_lt((#[trigger] s[i]).title, key) by {
                if i > 0 {
                    assert(s[i] == t[i - 1]);
                }
            }
            assert forall|i: int| count_title_lt(s, key) <= i < s.len() implies !seq_lt(
                (#[trigger] s[i]).title,
                key,
            ) by {
                assert(s[i] == t[i - 1]);
            }
        } else {
            assert forall|i: int| 0 <= i < s.len() implies !seq_lt((#[trigger] s[i]).title, key) by {
                if i > 0 && seq_lt(s[i].title, key) {
                    assert(seq_lt(s[0].title, s[i].title));
                    lemma_seq_lt_transitive(s[0].title, s[i].title, key);
                }
            }
        }
    }
}

/// In a list ordered by title, a title can stand only where its place is.
proof fn lemma_sorted_title_at(s: Seq<TestCaseView>, key: Seq<char>, i: int)
    requires
        titles_sorted(s),
        0 <= i < s.len(),
        s[i].title == key,
    ensures
        i == count_title_lt(s, key),
{
    lemma_count_title_sorted(s, key);
    let p = count_title_lt(s, key) as int;
    lemma_seq_lt_irreflexive(key);
    if i < p {
        assert(seq_lt(s[i].title, key));
    }
    if i > p {
        assert(seq_lt(s[p].title, s[i].title));
        assert(!seq_lt(s[p].title, key));
    }
}

/// Putting `c` in the place of the result with its title keeps a list
/// ordered by title ordered; it holds `c`, and otherwise the results of the
/// list whose title is not `c`'s, each still there.
pub proof fn lemma_case_replace(s: Seq<TestCaseView>, c: TestCaseView)
    requires
        titles_sorted(s),
    ensures
        ({
            let r = case_insert(case_remove(s, c.title), c);
            &&& titles_sorted(r)
            &&& r[count_title_lt(case_remove(s, c.title), c.title) as int] == c
            &&& count_title_lt(case_remove(s, c.title), c.title) < r.len()
            &&& forall|j: int|
                0 <= j < r.len() ==> (#[trigger] r[j]) == c || exists|i: int|
                    0 <= i < s.len() && s[i] == r[j] && s[i].title != c.title
            &&& forall|i: int|
                0 <= i < s.len() && (#[trigger] s[i]).title != c.title ==> exists|j: int|
                    0 <= j < r.len() && r[j] == s[i]
        }),
{
    let key = c.title;
    lemma_count_title_sorted(s, key);
    let p = count_title_lt(s, key) as int;
    let found = p < s.len() && s[p].title == key;
    let rm = case_remove(s, key);
    // where each result of `s` but the removed one stands in `rm`
    assert forall|i: int| 0 <= i < s.len() && (#[trigger] s[i]).title != key implies (if found && i > p {
        rm[i - 1] == s[i]
    } else {
        rm[i] == s[i] && i < rm.len()
    }) by {
        if found {
            assert(i != p);
        }
    }
    assert forall|j: int| 0 <= j < rm.len() implies (#[trigger] rm[j]) == s[if found && j >= p {
        j + 1
    } else {
        j
    }] by {}
    // `rm` is ordered and holds no result titled `key`
    assert forall|i: int, j: int| #![trigger rm[i], rm[j]] 0 <= i < j < rm.len() implies seq_lt(
        rm[i].title,
        rm[j].title,
    ) by {
        let a = if found && i >= p {
            i + 1
        } else {
            i
        };
        let b = if found && j >= p {
            j + 1
        } else {
            j
        };
        assert(rm[i] == s[a]);
        assert(rm[j] == s[b]);
        assert(a < b);
    }
    assert forall|j: int| 0 <= j < rm.len() implies (#[trigger] rm[j]).title != key by {
        let a = if found && j >= p {
            j + 1
        } else {
            j
        };
        assert(rm[j] == s[a]);
        if s[a].title == key {
            lemma_sorted_title_at(s, key, a);
        }
    }
    lemma_count_title_sorted(rm, key);
    let q = count_title_lt(rm, key) as int;
    let r = case_insert(rm, c);
    assert(r == rm.insert(q, c));
    assert forall|k: int| 0 <= k < rm.len() implies (if k < q {
        seq_lt((#[trigger] rm[k]).title, key)
    } else {
        seq_lt(key, rm[k].title)
    }) by {
        if k >= q {
            lemma_seq_lt_total(rm[k].title, key);
        }
    }
    assert forall|i: int, j: int| #![trigger r[i], r[j]] 0 <= i < j < r.len() implies seq_lt(
        r[i].title,
        r[j].title,
    ) by {
        if j < q {
            assert(r[i] == rm[i] && r[j] == rm[j]);
        } else if j == q {
            assert(r[i] == rm[i]);
        } else if i == q {
            assert(r[j] == rm[j - 1]);
        } else if i < q {
            assert(r[i] == rm[i] && r[j] == rm[j - 1]);
            lemma_seq_lt_transitive(rm[i].title, key, rm[j - 1].title);
        } else {
            assert(r[i] == rm[i - 1] && r[j] == rm[j - 1]);
        }
    }
    assert forall|j: int| 0 <= j < r.len() implies (#[trigger] r[j]) == c || exists|i: int|
        0 <= i < s.len() && s[i] == r[j] && s[i].title != c.title by {
        if j != q {
            let k = if j < q {
                j
            } else {
                j - 1
            };
            assert(r[j] == rm[k]);
            let a = if found && k >= p {
                k + 1
            } else {
                k
            };
            assert(rm[k] == s[a]);
            assert(s[a].title != key);
        }
    }
    assert forall|i: int| 0 <= i < s.len() && (#[trigger] s[i]).title != c.title implies exists|j: int|
        0 <= j < r.len() && r[j] == s[i] by {
        let k = if found && i > p {
            i - 1
        } else {
            i
        };
        assert(rm[k] == s[i]);
        let j = if k < q {
            k
        } else {
            k + 1
        };
        assert(r[j] == rm[k]);
    }
}

} // verus!
