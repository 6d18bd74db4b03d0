//! The JSON event stream of libtest (`--format json`) for one test binary:
//! each test event updates the result of its test, and the results make one
//! suite at the end.
use crate::format::case_map::{
    case_insert, case_lookup, case_put, case_remove, case_take, count_status, count_with_status,
    lemma_case_replace, lemma_count_status_bound, new_pending_case, pending_case, suite_location,
    suite_location_spec, titles_sorted,
};
use crate::format::time::Duration;
use crate::path_names::{path_join, path_join_of};
use crate::test_model::{
    case_views, opt_seq, TestCaseResult, TestCaseView, TestRunAggregated, TestRunModel,
    TestSuiteResult,
};
use crate::text::{ends_with, ends_with_str, is_blank, is_blank_str, owned, starts_with, starts_with_str, str_eq, trim, trim_str};
use vstd::prelude::*;

verus! {

/// What a test event reports, for showing progress.
#[derive(Debug, Clone)]
pub struct LibtestJsonStreamUpdate {
    pub test_name: String,
    pub status: String,
    pub duration: Option<Duration>,
    pub stdout: Option<String>,
}

/// One decoded line of the stream: a test event (`type` is `test`) with
/// its event name, test name, run time and output, or any other object.
#[derive(Debug, Clone)]
pub enum LibtestJsonEvent {
    Test { event: String, name: String, duration: Option<Duration>, stdout: Option<String> },
    Other,
}

/// The JSON object text of a line: the trimmed line when it is braced.
pub open spec fn json_object_text(line: Seq<char>) -> Option<Seq<char>> {
    let t = trim(line);
    if t.len() > 0 && starts_with(t, seq!['{']) && ends_with(t, seq!['}']) {
        Some(t)
    } else {
        None
    }
}

/// The trimmed line when it may hold a JSON object (it starts with `{`
/// and ends with `}`); other lines are no events.
pub fn json_object_line(line: &str) -> (res: Option<String>)
    ensures
        opt_seq(res) == json_object_text(line@),
{
    proof {
        reveal_strlit("{");
        reveal_strlit("}");
        assert("{"@ =~= seq!['{']);
        assert("}"@ =~= seq!['}']);
    }
    let t = trim_str(line);
    if !t.as_str().is_empty() && starts_with_str(t.as_str(), "{") && ends_with_str(t.as_str(), "}") {
        Some(t)
    } else {
        None
    }
}

/// The status a libtest event gives a test: `ok` passes, `failed` fails,
/// `ignored` is pending; other events change nothing.
pub open spec fn libtest_status(event: Seq<char>) -> Option<Seq<char>> {
    if event == "ok"@ {
        Some("passed"@)
    } else if event == "failed"@ {
        Some("failed"@)
    } else if event == "ignored"@ {
        Some("pending"@)
    } else {
        None
    }
}

/// Whole milliseconds of a run time (0 when none), as `Duration::as_millis`
/// cut to 64 bits.
pub open spec fn millis_of(d: Option<Duration>) -> u64 {
    match d {
        Some(d) => (d.secs * 1000 + d.subsec_nanos / 1_000_000) as u64,
        None => 0,
    }
}

/// The result of a test after an event: its earlier result (or a pending
/// one) with the new status and run time; a failure with output keeps the
/// output as its message and the location it names in the suite's file.
pub open spec fn updated_case(
    existing: Option<TestCaseView>,
    name: Seq<char>,
    status: Seq<char>,
    millis: u64,
    stdout: Option<Seq<char>>,
    suite_path: Seq<char>,
) -> TestCaseView {
    let base = match existing {
        Some(c) => c,
        None => pending_case(name, 0),
    };
    let c1 = TestCaseView { status, duration: millis, ..base };
    match stdout {
        Some(o) => if status == "failed"@ && !is_blank(o) {
            TestCaseView {
                failure_messages: seq![o],
                location: suite_location_spec(o, suite_path),
                ..c1
            }
        } else {
            c1
        },
        None => c1,
    }
}

/// The results after a test event that gives status `status`.
pub open spec fn after_event(
    tests: Seq<TestCaseView>,
    name: Seq<char>,
    status: Seq<char>,
    millis: u64,
    stdout: Option<Seq<char>>,
    suite_path: Seq<char>,
) -> Seq<TestCaseView> {
    case_insert(
        case_remove(tests, name),
        updated_case(case_lookup(tests, name), name, status, millis, stdout, suite_path),
    )
}

/// Whole milliseconds of a run time, as `Duration::as_millis` cut to 64 bits.
pub fn duration_millis(d: Option<Duration>) -> (res: u64)
    ensures
        res == millis_of(d),
{
    match d {
        Some(d) => {
            let ms: u128 = (d.secs as u128) * 1000 + (d.subsec_nanos as u128) / 1_000_000;
            #[verifier::truncate]
            (ms as u64)
        },
        None => 0,
    }
}

/// The earlier result of a test, brought up to date by an event.
pub fn update_case(
    existing: Option<TestCaseResult>,
    name: &str,
    status: &str,
    millis: u64,
    stdout: &Option<String>,
    suite_path: &str,
) -> (res: TestCaseResult)
    ensures
        res@ == updated_case(
            match existing {
                Some(c) => Some(c@),
                None => None,
            },
            name@,
            status@,
            millis,
            opt_seq(*stdout),
            suite_path@,
        ),
{
    let mut c = match existing {
        Some(c) => c,
        None => new_pending_case(name, 0),
    };
    c.status = owned(status);
    c.duration = millis;
    proof {
        reveal_strlit("failed");
    }
    match stdout {
        Some(o) => {
            if str_eq(status, "failed") && !is_blank_str(o.as_str()) {
                let mut msgs: Vec<String> = Vec::new();
                msgs.push(owned(o.as_str()));
                c.failure_messages = msgs;
                c.location = suite_location(o.as_str(), suite_path);
                assert(c@.failure_messages =~= seq![o@]);
            }
        },
        None => {},
    }
    c
}

/// The parser's state: where the suite's file lies and the results so far,
/// in order of their titles.
pub struct LibtestJsonStreamParser {
    repo_root: String,
    suite_source_path: String,
    tests_by_name: Vec<TestCaseResult>,
}

pub struct LibtestParserView {
    pub repo_root: Seq<char>,
    pub suite_source_path: Seq<char>,
    pub tests: Seq<TestCaseView>,
}

impl View for LibtestJsonStreamParser {
    type V = LibtestParserView;

    closed spec fn view(&self) -> LibtestParserView {
        LibtestParserView {
            repo_root: self.repo_root@,
            suite_source_path: self.suite_source_path@,
            tests: case_views(self.tests_by_name@),
        }
    }
}

/// The run model of a finished stream: one suite, the file `repo_root`
/// joined with the suite's path, holding the results in title order;
/// `None` when no test reported.
pub open spec fn libtest_model_ok(p: LibtestParserView, m: TestRunModel) -> bool {
    let failed = count_status(p.tests, "failed"@);
    &&& m@.start_time == 0
    &&& m@.test_results.len() == 1
    &&& m@.test_results[0].test_file_path == path_join_of(p.repo_root, p.suite_source_path)
    &&& m@.test_results[0].status == (if failed > 0 {
        "failed"@
    } else {
        "passed"@
    })
    &&& m@.test_results[0].timed_out is None
    &&& m@.test_results[0].failure_message.len() == 0
    &&& m@.test_results[0].failure_details is None
    &&& m@.test_results[0].test_exec_error is None
    &&& m@.test_results[0].console is None
    &&& m@.test_results[0].test_results == p.tests
    &&& m.aggregated == (TestRunAggregated {
        num_total_test_suites: 1,
        num_passed_test_suites: if failed == 0 {
            1
        } else {
            0
        },
        num_failed_test_suites: if failed > 0 {
            1
        } else {
            0
        },
        num_total_tests: p.tests.len() as u64,
        num_passed_tests: count_status(p.tests, "passed"@) as u64,
        num_failed_tests: failed as u64,
        num_pending_tests: count_status(p.tests, "pending"@) as u64,
        num_todo_tests: 0,
        num_timed_out_tests: None,
        num_timed_out_test_suites: None,
        start_time: 0,
        success: failed == 0,
        run_time_ms: None,
    })
}

impl LibtestJsonStreamParser {
    /// A parser for the suite whose source file is `suite_source_path`
    /// under `repo_root`, with no results yet.
    pub fn new(repo_root: &str, suite_source_path: &str) -> (res: Self)
        ensures
            res@.repo_root == repo_root@,
            res@.suite_source_path == suite_source_path@,
            res@.tests.len() == 0,
    {
        let res = LibtestJsonStreamParser {
            repo_root: owned(repo_root),
            suite_source_path: owned(suite_source_path),
            tests_by_name: Vec::new(),
        };
        assert(res@.tests =~= Seq::<TestCaseView>::empty());
        res
    }

    /// Applies one decoded event: a test event with a known status
    /// replaces the test's result and is reported; anything else changes
    /// nothing.
    pub fn push_event(&mut self, event: LibtestJsonEvent) -> (res: Option<LibtestJsonStreamUpdate>)
        ensures
            final(self)@.repo_root == old(self)@.repo_root,
            final(self)@.suite_source_path == old(self)@.suite_source_path,
            match event {
                LibtestJsonEvent::Test { event: ev, name, duration, stdout } => match libtest_status(ev@) {
                    Some(st) => {
                        &&& final(self)@.tests == after_event(
                            old(self)@.tests,
                            name@,
                            st,
                            millis_of(duration),
                            opt_seq(stdout),
                            old(self)@.suite_source_path,
                        )
                        &&& res matches Some(u) && u.test_name@ == name@ && u.status@ == st && u.duration
                            == duration && opt_seq(u.stdout) == opt_seq(stdout)
                    },
                    None => res is None && final(self)@ == old(self)@,
                },
                LibtestJsonEvent::Other => res is None && final(self)@ == old(self)@,
            },
    {
        match event {
            LibtestJsonEvent::Test { event, name, duration, stdout } => {
                proof {
                    reveal_strlit("ok");
                    reveal_strlit("failed");
                    reveal_strlit("ignored");
                }
                let status = if str_eq(event.as_str(), "ok") {
                    owned("passed")
                } else if str_eq(event.as_str(), "failed") {
                    owned("failed")
                } else if str_eq(event.as_str(), "ignored") {
                    owned("pending")
                } else {
                    return None;
                };
                let millis = duration_millis(duration);
                let existing = case_take(&mut self.tests_by_name, name.as_str());
                let c = update_case(
                    existing,
                    name.as_str(),
                    status.as_str(),
                    millis,
                    &stdout,
                    self.suite_source_path.as_str(),
                );
                case_put(&mut self.tests_by_name, c);
                Some(LibtestJsonStreamUpdate { test_name: name, status, duration, stdout })
            },
            LibtestJsonEvent::Other => None,
        }
    }

    /// Handles one output line, given what the line decodes to as a libtest
    /// event (`None` when it is not one): only braced lines count.
    pub fn push_line(&mut self, line: &str, decoded: Option<LibtestJsonEvent>) -> (res: Option<
        LibtestJsonStreamUpdate,
    >)
        ensures
            json_object_text(line@) is None ==> res is None && final(self)@ == old(self)@,
            json_object_text(line@) is Some && decoded is None ==> res is None && final(self)@ == old(
                self,
            )@,
            final(self)@.repo_root == old(self)@.repo_root,
            final(self)@.suite_source_path == old(self)@.suite_source_path,
            json_object_text(line@) is Some && decoded is Some ==> match decoded.unwrap() {
                LibtestJsonEvent::Test { event: ev, name, duration, stdout } => match libtest_status(ev@) {
                    Some(st) => final(self)@.tests == after_event(
                        old(self)@.tests,
                        name@,
                        st,
                        millis_of(duration),
                        opt_seq(stdout),
                        old(self)@.suite_source_path,
                    ) && res is Some,
                    None => res is None && final(self)@ == old(self)@,
                },
                LibtestJsonEvent::Other => res is None && final(self)@ == old(self)@,
            },
    {
        if json_object_line(line).is_none() {
            return None;
        }
        match decoded {
            Some(ev) => self.push_event(ev),
            None => None,
        }
    }

    /// The run model: one suite holding every result in title order, its
    /// status `failed` when a test failed; `None` when no test reported.
    pub fn finalize(self) -> (res: Option<TestRunModel>)
        ensures
            self@.tests.len() == 0 ==> res is None,
            self@.tests.len() > 0 ==> (res matches Some(m) && libtest_model_ok(self@, m)),
    {
        let ghost pv = self@;
        let test_file_path = path_join(self.repo_root.as_str(), self.suite_source_path.as_str());
        if self.tests_by_name.len() == 0 {
            return None;
        }
        let total = self.tests_by_name.len() as u64;
        let failed = count_with_status(&self.tests_by_name, "failed");
        let passed = count_with_status(&self.tests_by_name, "passed");
        let pending = count_with_status(&self.tests_by_name, "pending");
        let status = if failed > 0 {
            owned("failed")
        } else {
            owned("passed")
        };
        let tests = self.tests_by_name;
        let mut suites: Vec<TestSuiteResult> = Vec::new();
        suites.push(
            TestSuiteResult {
                test_file_path,
                status,
                timed_out: None,
                failure_message: String::new(),
                failure_details: None,
                test_exec_error: None,
                console: None,
                test_results: tests,
            },
        );
        let m = TestRunModel {
            start_time: 0,
            test_results: suites,
            aggregated: TestRunAggregated {
                num_total_test_suites: 1,
                num_passed_test_suites: if failed == 0 {
                    1
                } else {
                    0
                },
                num_failed_test_suites: if failed > 0 {
                    1
                } else {
                    0
                },
                num_total_tests: total,
                num_passed_tests: passed,
                num_failed_tests: failed,
                num_pending_tests: pending,
                num_todo_tests: 0,
                num_timed_out_tests: None,
                num_timed_out_test_suites: None,
                start_time: 0,
                success: failed == 0,
                run_time_ms: None,
            },
        };
        assert(libtest_model_ok(pv, m));
        Some(m)
    }
}


/// Every test event with a status leaves a result for its test with that
/// status, so a parser that saw one has a test and finishes with a run;
/// events without a status leave the results as they were (see
/// `push_line`), so a parser that saw none finishes with none.
pub proof fn law_libtest_event_records(
    tests: Seq<TestCaseView>,
    name: Seq<char>,
    status: Seq<char>,
    millis: u64,
    stdout: Option<Seq<char>>,
    suite_path: Seq<char>,
)
    ensures
        after_event(tests, name, status, millis, stdout, suite_path).len() >= 1,
        exists|i: int|
            0 <= i < after_event(tests, name, status, millis, stdout, suite_path).len() && (#[trigger] after_event(
                tests,
                name,
                status,
                millis,
                stdout,
                suite_path,
            )[i]).title == name && after_event(tests, name, status, millis, stdout, suite_path)[i].status == status,
{
    let r = case_remove(tests, name);
    let c = updated_case(case_lookup(tests, name), name, status, millis, stdout, suite_path);
    crate::format::case_map::lemma_case_insert_holds(r, c);
    crate::format::case_map::lemma_count_title_le(tests, name);
    if case_lookup(tests, name) is Some {
        assert(c.title == case_lookup(tests, name)->Some_0.title);
        assert(c.title == name);
    }
    assert(c.title == name);
    assert(c.status == status);
    crate::format::case_map::lemma_count_title_le(r, c.title);
    let i = crate::format::case_map::count_title_lt(r, c.title) as int;
    let a = after_event(tests, name, status, millis, stdout, suite_path);
    assert(a == crate::format::case_map::case_insert(r, c));
    assert(0 <= i < a.len());
    assert(a[i] == c);
    assert(a[i].title == name && a[i].status == status);
}


/// The results after test events with a status (`ok`, `failed`,
/// `ignored`), each given as its test's name, status, run time and output;
/// the only events that change the results (see `push_line`).
pub open spec fn apply_status_events(
    tests: Seq<TestCaseView>,
    evs: Seq<(Seq<char>, Seq<char>, u64, Option<Seq<char>>)>,
    suite_path: Seq<char>,
) -> Seq<TestCaseView>
    decreases evs.len(),
{
    if evs.len() == 0 {
        tests
    } else {
        let e = evs.last();
        after_event(apply_status_events(tests, evs.drop_last(), suite_path), e.0, e.1, e.2, e.3, suite_path)
    }
}

/// A fresh parser holds no result until a test event with a status comes,
/// and holds one from then on, so finishing gives a run exactly when such
/// an event was pushed; the last event's test holds its status.
pub proof fn law_libtest_finalize_when(
    evs: Seq<(Seq<char>, Seq<char>, u64, Option<Seq<char>>)>,
    suite_path: Seq<char>,
)
    ensures
        apply_status_events(Seq::empty(), evs, suite_path).len() == 0 <==> evs.len() == 0,
        evs.len() > 0 ==> exists|i: int|
            0 <= i < apply_status_events(Seq::empty(), evs, suite_path).len() && (#[trigger] apply_status_events(
                Seq::empty(),
                evs,
                suite_path,
            )[i]).title == evs.last().0 && apply_status_events(Seq::empty(), evs, suite_path)[i].status
                == evs.last().1,
{
    if evs.len() > 0 {
        let e = evs.last();
        let prev = apply_status_events(Seq::empty(), evs.drop_last(), suite_path);
        law_libtest_event_records(prev, e.0, e.1, e.2, e.3, suite_path);
        let a = apply_status_events(Seq::empty(), evs, suite_path);
        assert(a == after_event(prev, e.0, e.1, e.2, e.3, suite_path));
        let i = choose|i: int|
            0 <= i < after_event(prev, e.0, e.1, e.2, e.3, suite_path).len() && (#[trigger] after_event(
                prev,
                e.0,
                e.1,
                e.2,
                e.3,
                suite_path,
            )[i]).title == e.0 && after_event(prev, e.0, e.1, e.2, e.3, suite_path)[i].status == e.1;
        assert(a[i].title == evs.last().0 && a[i].status == evs.last().1);
    }
}


/// The status that the last event naming `name` gave, if one did.
pub open spec fn last_status(evs: Seq<(Seq<char>, Seq<char>, u64, Option<Seq<char>>)>, name: Seq<char>) -> Option<
    Seq<char>,
>
    decreases evs.len(),
{
    if evs.len() == 0 {
        None
    } else if evs.last().0 == name {
        Some(evs.last().1)
    } else {
        last_status(evs.drop_last(), name)
    }
}

/// Whatever test events with a status a fresh parser is given, its results
/// are one per test named, in order of the names (each name once), and
/// each carries the status of the last event that named it; there is none
/// exactly when no such event came. Finishing (see `finalize`) puts these
/// results, in this order, in the one suite it gives.
pub proof fn law_libtest_results(
    evs: Seq<(Seq<char>, Seq<char>, u64, Option<Seq<char>>)>,
    suite_path: Seq<char>,
)
    ensures
        ({
            let r = apply_status_events(Seq::empty(), evs, suite_path);
            &&& titles_sorted(r)
            &&& forall|i: int| 0 <= i < r.len() ==> last_status(evs, (#[trigger] r[i]).title) == Some(r[i].status)
            &&& forall|name: Seq<char>|
                (#[trigger] last_status(evs, name)) is Some ==> exists|i: int| 0 <= i < r.len() && r[i].title == name
            &&& (r.len() == 0 <==> evs.len() == 0)
        }),
    decreases evs.len(),
{
    law_libtest_finalize_when(evs, suite_path);
    if evs.len() > 0 {
        let e = evs.last();
        let pe = evs.drop_last();
        law_libtest_results(pe, suite_path);
        let prev = apply_status_events(Seq::empty(), pe, suite_path);
        let c = updated_case(case_lookup(prev, e.0), e.0, e.1, e.2, e.3, suite_path);
        assert(c.title == e.0);
        assert(c.status == e.1);
        lemma_case_replace(prev, c);
        let r = apply_status_events(Seq::empty(), evs, suite_path);
        assert(r == case_insert(case_remove(prev, c.title), c));
        assert forall|i: int| 0 <= i < r.len() implies last_status(evs, (#[trigger] r[i]).title) == Some(r[i].status) by {
            if r[i] != c {
                let k = choose|k: int| 0 <= k < prev.len() && prev[k] == r[i] && prev[k].title != c.title;
                assert(last_status(pe, prev[k].title) == Some(prev[k].status));
            }
        }
        assert forall|name: Seq<char>| (#[trigger] last_status(evs, name)) is Some implies exists|i: int|
            0 <= i < r.len() && r[i].title == name by {
            if name == e.0 {
                let q = crate::format::case_map::count_title_lt(case_remove(prev, c.title), c.title) as int;
                assert(r[q] == c);
            } else {
                assert(last_status(pe, name) is Some);
                let k = choose|k: int| 0 <= k < prev.len() && prev[k].title == name;
                assert(prev[k].title != c.title);
                let j = choose|j: int| 0 <= j < r.len() && r[j] == prev[k];
                assert(r[j].title == name);
            }
        }
    }
}

} // verus!
