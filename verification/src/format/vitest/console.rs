//! The console lines and the expected/received values shown under failed
//! tests in the Vitest-style report.
use crate::format::console::{copy_console_entry, entry_views, ConsoleEntry, ConsoleEntryView};
use crate::format::stacks::{ansi_stripped, strip_ansi_simple};
use crate::test_model::{case_views, opt_seq, TestCaseView, TestSuiteResult};
use crate::text::{
    split_once, split_once_str, str_eq, strip_prefix, strip_prefix_str, trim, trim_start, trim_start_str,
    trim_str, views,
};
use vstd::prelude::*;

verus! {

/// The full names of the failed tests of a suite.
pub open spec fn failed_names(cases: Seq<TestCaseView>) -> Seq<Seq<char>>
    decreases cases.len(),
{
    if cases.len() == 0 {
        Seq::empty()
    } else {
        let r = failed_names(cases.drop_last());
        if cases.last().status == "failed"@ {
            r.push(cases.last().full_name)
        } else {
            r
        }
    }
}

/// An entry logged by one of the failed tests.
pub open spec fn entry_of_failed(e: ConsoleEntryView, names: Seq<Seq<char>>) -> bool {
    match e.current_test_name {
        Some(n) => names.contains(n),
        None => false,
    }
}

pub open spec fn entries_of_failed(es: Seq<ConsoleEntryView>, names: Seq<Seq<char>>) -> Seq<ConsoleEntryView>
    decreases es.len(),
{
    if es.len() == 0 {
        es
    } else {
        let r = entries_of_failed(es.drop_last(), names);
        if entry_of_failed(es.last(), names) {
            r.push(es.last())
        } else {
            r
        }
    }
}

/// The entries logged by the suite's failed tests, when any are; else all
/// entries.
pub open spec fn filter_console_spec(cases: Seq<TestCaseView>, es: Seq<ConsoleEntryView>) -> Seq<ConsoleEntryView> {
    let names = failed_names(cases);
    if names.len() == 0 {
        es
    } else {
        let kept = entries_of_failed(es, names);
        if kept.len() == 0 {
            es
        } else {
            kept
        }
    }
}

fn names_contain(names: &Vec<String>, n: &str) -> (res: bool)
    ensures
        res == views(names@).contains(n@),
{
    let mut i: usize = 0;
    while i < names.len()
        invariant
            i <= names.len(),
            forall|j: int| 0 <= j < i ==> names@[j]@ != n@,
        decreases names.len() - i,
    {
        if str_eq(names[i].as_str(), n) {
            assert(views(names@)[i as int] == n@);
            return true;
        }
        i = i + 1;
    }
    proof {
        if views(names@).contains(n@) {
            let j = choose|j: int| 0 <= j < views(names@).len() && views(names@)[j] == n@;
            assert(names@[j]@ == n@);
        }
    }
    false
}

/// The console entries to show under a suite whose tests failed: those
/// logged by a failed test, when there are such entries.
pub fn filter_console_to_failed_tests(file: &TestSuiteResult, console_entries: Vec<ConsoleEntry>) -> (res: Vec<
    ConsoleEntry,
>)
    ensures
        entry_views(res@) == filter_console_spec(case_views(file.test_results@), entry_views(console_entries@)),
{
    let ghost cv = case_views(file.test_results@);
    let mut names: Vec<String> = Vec::new();
    let mut i: usize = 0;
    assert(cv.take(0) =~= Seq::<TestCaseView>::empty());
    while i < file.test_results.len()
        invariant
            i <= file.test_results.len(),
            cv == case_views(file.test_results@),
            views(names@) == failed_names(cv.take(i as int)),
        decreases file.test_results.len() - i,
    {
        assert(cv.take(i + 1).drop_last() =~= cv.take(i as int));
        assert(cv.take(i + 1).last() == file.test_results@[i as int]@);
        let t = &file.test_results[i];
        if str_eq(t.status.as_str(), "failed") {
            let ghost before = views(names@);
            names.push(crate::text::owned(t.full_name.as_str()));
            assert(views(names@) =~= before.push(t.full_name@));
        }
        i = i + 1;
    }
    assert(cv.take(file.test_results.len() as int) =~= cv);
    if names.len() == 0 {
        return console_entries;
    }
    let ghost es = entry_views(console_entries@);
    let mut kept: Vec<ConsoleEntry> = Vec::new();
    let mut k: usize = 0;
    assert(es.take(0) =~= Seq::<ConsoleEntryView>::empty());
    while k < console_entries.len()
        invariant
            k <= console_entries.len(),
            es == entry_views(console_entries@),
            entry_views(kept@) == entries_of_failed(es.take(k as int), views(names@)),
        decreases console_entries.len() - k,
    {
        assert(es.take(k + 1).drop_last() =~= es.take(k as int));
        assert(es.take(k + 1).last() == console_entries@[k as int]@);
        let e = &console_entries[k];
        let hit = match &e.current_test_name {
            Some(cn) => names_contain(&names, cn.as_str()),
            None => false,
        };
        if hit {
            let ghost before = entry_views(kept@);
            kept.push(copy_console_entry(e));
            assert(entry_views(kept@) =~= before.push(e@));
        }
        k = k + 1;
    }
    assert(es.take(console_entries.len() as int) =~= es);
    if kept.len() == 0 {
        console_entries
    } else {
        kept
    }
}

/// The rest, trimmed, of the first line that starts with `prefix` (after
/// its leading whitespace, when `skip_ws`).
pub open spec fn first_after_prefix(ls: Seq<Seq<char>>, prefix: Seq<char>, skip_ws: bool) -> Option<Seq<char>>
    decreases ls.len(),
{
    if ls.len() == 0 {
        None
    } else {
        let l = if skip_ws {
            trim_start(ls[0])
        } else {
            ls[0]
        };
        match strip_prefix(l, prefix) {
            Some(rest) => Some(trim(rest)),
            None => first_after_prefix(ls.drop_first(), prefix, skip_ws),
        }
    }
}

/// A pytest line with `E ` removed, when present after leading whitespace.
pub open spec fn pytest_candidate(ln: Seq<char>) -> Seq<char> {
    let t = trim_start(ln);
    match strip_prefix(t, "E "@) {
        Some(r) => r,
        None => t,
    }
}

/// The two sides of the first `assert <left> == <right>` line.
pub open spec fn first_assert_eq(ls: Seq<Seq<char>>) -> Option<(Seq<char>, Seq<char>)>
    decreases ls.len(),
{
    if ls.len() == 0 {
        None
    } else {
        let t = trim(pytest_candidate(ls[0]));
        match strip_prefix(t, "assert "@) {
            Some(rest) => match split_once(rest, " == "@) {
                Some((l, r)) => Some((trim(l), trim(r))),
                None => first_assert_eq(ls.drop_first()),
            },
            None => first_assert_eq(ls.drop_first()),
        }
    }
}

/// The expected and received values a failure's messages give, read
/// without ANSI styling: from `Expected: `/`Received: ` lines, else from
/// `left: `/`right: ` lines (right is expected), else from a pytest
/// `assert <left> == <right>` line (right is expected).
pub open spec fn expected_received_spec(msgs: Seq<Seq<char>>) -> (Option<Seq<char>>, Option<Seq<char>>) {
    let stripped = msgs.map_values(|m: Seq<char>| ansi_stripped(m));
    let expected = first_after_prefix(stripped, "Expected: "@, false);
    let received = first_after_prefix(stripped, "Received: "@, false);
    if expected is Some || received is Some {
        (expected, received)
    } else {
        let left = first_after_prefix(stripped, "left: "@, true);
        let right = first_after_prefix(stripped, "right: "@, true);
        if left is Some || right is Some {
            (right, left)
        } else {
            match first_assert_eq(stripped) {
                Some((l, r)) => (Some(r), Some(l)),
                None => (None, None),
            }
        }
    }
}

fn first_after_prefix_exec(ls: &Vec<String>, prefix: &str, skip_ws: bool) -> (res: Option<String>)
    ensures
        opt_seq(res) == first_after_prefix(views(ls@), prefix@, skip_ws),
{
    let ghost lv = views(ls@);
    let mut i: usize = 0;
    assert(lv.skip(0) =~= lv);
    while i < ls.len()
        invariant
            i <= ls.len(),
            lv == views(ls@),
            first_after_prefix(lv, prefix@, skip_ws) == first_after_prefix(lv.skip(i as int), prefix@, skip_ws),
        decreases ls.len() - i,
    {
        assert(lv.skip(i as int)[0] == ls@[i as int]@);
        assert(lv.skip(i as int).drop_first() =~= lv.skip(i + 1));
        let l = if skip_ws {
            trim_start_str(ls[i].as_str())
        } else {
            crate::text::owned(ls[i].as_str())
        };
        match strip_prefix_str(l.as_str(), prefix) {
            Some(rest) => {
                return Some(trim_str(rest.as_str()));
            },
            None => {},
        }
        i = i + 1;
    }
    None
}

fn first_assert_eq_exec(ls: &Vec<String>) -> (res: Option<(String, String)>)
    ensures
        match res {
            Some((l, r)) => first_assert_eq(views(ls@)) == Some((l@, r@)),
            None => first_assert_eq(views(ls@)) is None,
        },
{
    let ghost lv = views(ls@);
    let mut i: usize = 0;
    assert(lv.skip(0) =~= lv);
    while i < ls.len()
        invariant
            i <= ls.len(),
            lv == views(ls@),
            first_assert_eq(lv) == first_assert_eq(lv.skip(i as int)),
        decreases ls.len() - i,
    {
        assert(lv.skip(i as int)[0] == ls@[i as int]@);
        assert(lv.skip(i as int).drop_first() =~= lv.skip(i + 1));
        let t0 = trim_start_str(ls[i].as_str());
        let cand = match strip_prefix_str(t0.as_str(), "E ") {
            Some(r) => r,
            None => t0,
        };
        let t = trim_str(cand.as_str());
        match strip_prefix_str(t.as_str(), "assert ") {
            Some(rest) => match split_once_str(rest.as_str(), " == ") {
                Some((l, r)) => {
                    return Some((trim_str(l.as_str()), trim_str(r.as_str())));
                },
                None => {},
            },
            None => {},
        }
        i = i + 1;
    }
    None
}

/// The expected and received values in a failure's messages (see
/// [`expected_received_spec`]).
pub fn extract_expected_received_values(messages: &[String]) -> (res: (Option<String>, Option<String>))
    ensures
        (opt_seq(res.0), opt_seq(res.1)) == expected_received_spec(views(messages@)),
{
    let mut stripped: Vec<String> = Vec::new();
    let mut i: usize = 0;
    while i < messages.len()
        invariant
            i <= messages.len(),
            views(stripped@) == views(messages@).take(i as int).map_values(|m: Seq<char>| ansi_stripped(m)),
        decreases messages.len() - i,
    {
        let ghost before = views(stripped@);
        let st = strip_ansi_simple(messages[i].as_str());
        let ghost sv = st@;
        stripped.push(st);
        assert(views(stripped@) =~= before.push(sv));
        assert(views(messages@).take(i + 1) =~= views(messages@).take(i as int).push(messages@[i as int]@));
        i = i + 1;
    }
    assert(views(messages@).take(messages.len() as int) =~= views(messages@));
    let expected = first_after_prefix_exec(&stripped, "Expected: ", false);
    let received = first_after_prefix_exec(&stripped, "Received: ", false);
    if expected.is_some() || received.is_some() {
        return (expected, received);
    }
    let left = first_after_prefix_exec(&stripped, "left: ", true);
    let right = first_after_prefix_exec(&stripped, "right: ", true);
    if left.is_some() || right.is_some() {
        return (right, left);
    }
    match first_assert_eq_exec(&stripped) {
        Some((l, r)) => (Some(r), Some(l)),
        None => (None, None),
    }
}

} // verus!
