//! The runner-independent model of a test run: suites, test cases, console
//! entries and aggregate counts, with a mathematical view of each.
use crate::text::views;
use vstd::prelude::*;

verus! {

/// The view of an optional string.
pub open spec fn opt_seq(o: Option<String>) -> Option<Seq<char>> {
    match o {
        Some(s) => Some(s@),
        None => None,
    }
}

/// The view of an optional list of strings.
pub open spec fn opt_seqs(o: Option<Vec<String>>) -> Option<Seq<Seq<char>>> {
    match o {
        Some(v) => Some(views(v@)),
        None => None,
    }
}

/// Line and column of a failure inside a test file.
#[derive(Clone, Copy, Debug, PartialEq, Eq, Structural)]
pub struct TestLocation {
    pub line: i64,
    pub column: i64,
}

/// One console line captured while a suite ran. The message is kept as text.
#[derive(Clone, Debug)]
pub struct TestConsoleEntry {
    pub message: Option<String>,
    pub entry_type: Option<String>,
    pub origin: Option<String>,
}

pub struct TestConsoleEntryView {
    pub message: Option<Seq<char>>,
    pub entry_type: Option<Seq<char>>,
    pub origin: Option<Seq<char>>,
}

impl View for TestConsoleEntry {
    type V = TestConsoleEntryView;

    open spec fn view(&self) -> TestConsoleEntryView {
        TestConsoleEntryView {
            message: opt_seq(self.message),
            entry_type: opt_seq(self.entry_type),
            origin: opt_seq(self.origin),
        }
    }
}

/// The result of one test. Failure details are kept as JSON texts.
#[derive(Clone, Debug)]
pub struct TestCaseResult {
    pub title: String,
    pub full_name: String,
    pub status: String,
    pub timed_out: Option<bool>,
    pub duration: u64,
    pub location: Option<TestLocation>,
    pub failure_messages: Vec<String>,
    pub failure_details: Option<Vec<String>>,
}

pub struct TestCaseView {
    pub title: Seq<char>,
    pub full_name: Seq<char>,
    pub status: Seq<char>,
    pub timed_out: Option<bool>,
    pub duration: u64,
    pub location: Option<TestLocation>,
    pub failure_messages: Seq<Seq<char>>,
    pub failure_details: Option<Seq<Seq<char>>>,
}

impl View for TestCaseResult {
    type V = TestCaseView;

    open spec fn view(&self) -> TestCaseView {
        TestCaseView {
            title: self.title@,
            full_name: self.full_name@,
            status: self.status@,
            timed_out: self.timed_out,
            duration: self.duration,
            location: self.location,
            failure_messages: views(self.failure_messages@),
            failure_details: opt_seqs(self.failure_details),
        }
    }
}

/// The result of one test file.
#[derive(Clone, Debug)]
pub struct TestSuiteResult {
    pub test_file_path: String,
    pub status: String,
    pub timed_out: Option<bool>,
    pub failure_message: String,
    pub failure_details: Option<Vec<String>>,
    pub test_exec_error: Option<String>,
    pub console: Option<Vec<TestConsoleEntry>>,
    pub test_results: Vec<TestCaseResult>,
}

pub struct TestSuiteView {
    pub test_file_path: Seq<char>,
    pub status: Seq<char>,
    pub timed_out: Option<bool>,
    pub failure_message: Seq<char>,
    pub failure_details: Option<Seq<Seq<char>>>,
    pub test_exec_error: Option<Seq<char>>,
    pub console: Option<Seq<TestConsoleEntryView>>,
    pub test_results: Seq<TestCaseView>,
}

/// The views of the entries of a list.
pub open spec fn console_views(v: Seq<TestConsoleEntry>) -> Seq<TestConsoleEntryView> {
    v.map_values(|e: TestConsoleEntry| e@)
}

pub open spec fn case_views(v: Seq<TestCaseResult>) -> Seq<TestCaseView> {
    v.map_values(|e: TestCaseResult| e@)
}

pub open spec fn suite_views(v: Seq<TestSuiteResult>) -> Seq<TestSuiteView> {
    v.map_values(|e: TestSuiteResult| e@)
}

impl View for TestSuiteResult {
    type V = TestSuiteView;

    open spec fn view(&self) -> TestSuiteView {
        TestSuiteView {
            test_file_path: self.test_file_path@,
            status: self.status@,
            timed_out: self.timed_out,
            failure_message: self.failure_message@,
            failure_details: opt_seqs(self.failure_details),
            test_exec_error: opt_seq(self.test_exec_error),
            console: match self.console {
                Some(c) => Some(console_views(c@)),
                None => None,
            },
            test_results: case_views(self.test_results@),
        }
    }
}

/// Counts over a whole run.
#[derive(Clone, Copy, Debug)]
pub struct TestRunAggregated {
    pub num_total_test_suites: u64,
    pub num_passed_test_suites: u64,
    pub num_failed_test_suites: u64,
    pub num_total_tests: u64,
    pub num_passed_tests: u64,
    pub num_failed_tests: u64,
    pub num_pending_tests: u64,
    pub num_todo_tests: u64,
    pub num_timed_out_tests: Option<u64>,
    pub num_timed_out_test_suites: Option<u64>,
    pub start_time: u64,
    pub success: bool,
    pub run_time_ms: Option<u64>,
}

/// A whole run.
#[derive(Clone, Debug)]
pub struct TestRunModel {
    pub start_time: u64,
    pub test_results: Vec<TestSuiteResult>,
    pub aggregated: TestRunAggregated,
}

pub struct TestRunView {
    pub start_time: u64,
    pub test_results: Seq<TestSuiteView>,
    pub aggregated: TestRunAggregated,
}

impl View for TestRunModel {
    type V = TestRunView;

    open spec fn view(&self) -> TestRunView {
        TestRunView {
            start_time: self.start_time,
            test_results: suite_views(self.test_results@),
            aggregated: self.aggregated,
        }
    }
}


/// A copy of an optional string.
pub fn copy_opt_str(o: &Option<String>) -> (res: Option<String>)
    ensures
        opt_seq(res) == opt_seq(*o),
{
    match o {
        Some(s) => Some(crate::text::owned(s.as_str())),
        None => None,
    }
}

/// A copy of each string of a list.
pub fn copy_str_list(v: &Vec<String>) -> (res: Vec<String>)
    ensures
        views(res@) == views(v@),
{
    let mut out: Vec<String> = Vec::new();
    let mut i: usize = 0;
    while i < v.len()
        invariant
            i <= v.len(),
            views(out@) == views(v@).take(i as int),
        decreases v.len() - i,
    {
        let ghost before = views(out@);
        out.push(crate::text::owned(v[i].as_str()));
        assert(views(out@) =~= before.push(v@[i as int]@));
        assert(views(v@).take(i + 1) =~= views(v@).take(i as int).push(v@[i as int]@));
        i = i + 1;
    }
    assert(views(v@).take(v.len() as int) =~= views(v@));
    out
}

/// A copy of an optional list of strings.
pub fn copy_opt_str_list(o: &Option<Vec<String>>) -> (res: Option<Vec<String>>)
    ensures
        opt_seqs(res) == opt_seqs(*o),
{
    match o {
        Some(v) => Some(copy_str_list(v)),
        None => None,
    }
}

/// A copy of a test result.
pub fn copy_case(c: &TestCaseResult) -> (res: TestCaseResult)
    ensures
        res@ == c@,
{
    TestCaseResult {
        title: crate::text::owned(c.title.as_str()),
        full_name: crate::text::owned(c.full_name.as_str()),
        status: crate::text::owned(c.status.as_str()),
        timed_out: c.timed_out,
        duration: c.duration,
        location: c.location,
        failure_messages: copy_str_list(&c.failure_messages),
        failure_details: copy_opt_str_list(&c.failure_details),
    }
}

/// A copy of each test result of a list.
pub fn copy_cases(v: &Vec<TestCaseResult>) -> (res: Vec<TestCaseResult>)
    ensures
        case_views(res@) == case_views(v@),
{
    let mut out: Vec<TestCaseResult> = Vec::new();
    let mut i: usize = 0;
    while i < v.len()
        invariant
            i <= v.len(),
            case_views(out@) == case_views(v@).take(i as int),
        decreases v.len() - i,
    {
        let ghost before = case_views(out@);
        out.push(copy_case(&v[i]));
        assert(case_views(out@) =~= before.push(v@[i as int]@));
        assert(case_views(v@).take(i + 1) =~= case_views(v@).take(i as int).push(v@[i as int]@));
        i = i + 1;
    }
    assert(case_views(v@).take(v.len() as int) =~= case_views(v@));
    out
}

/// A copy of a console entry.
pub fn copy_console_entry_of(e: &TestConsoleEntry) -> (res: TestConsoleEntry)
    ensures
        res@ == e@,
{
    TestConsoleEntry {
        message: copy_opt_str(&e.message),
        entry_type: copy_opt_str(&e.entry_type),
        origin: copy_opt_str(&e.origin),
    }
}

/// A copy of each console entry of a list.
pub fn copy_console_entries(v: &Vec<TestConsoleEntry>) -> (res: Vec<TestConsoleEntry>)
    ensures
        console_views(res@) == console_views(v@),
{
    let mut out: Vec<TestConsoleEntry> = Vec::new();
    let mut i: usize = 0;
    while i < v.len()
        invariant
            i <= v.len(),
            console_views(out@) == console_views(v@).take(i as int),
        decreases v.len() - i,
    {
        let ghost before = console_views(out@);
        out.push(copy_console_entry_of(&v[i]));
        assert(console_views(out@) =~= before.push(v@[i as int]@));
        assert(console_views(v@).take(i + 1) =~= console_views(v@).take(i as int).push(v@[i as int]@));
        i = i + 1;
    }
    assert(console_views(v@).take(v.len() as int) =~= console_views(v@));
    out
}

/// A copy of a suite whose test results are `cases`.
pub fn copy_suite_with_cases(f: &TestSuiteResult, cases: Vec<TestCaseResult>) -> (res: TestSuiteResult)
    ensures
        res@ == (TestSuiteView { test_results: case_views(cases@), ..f@ }),
{
    TestSuiteResult {
        test_file_path: crate::text::owned(f.test_file_path.as_str()),
        status: crate::text::owned(f.status.as_str()),
        timed_out: f.timed_out,
        failure_message: crate::text::owned(f.failure_message.as_str()),
        failure_details: copy_opt_str_list(&f.failure_details),
        test_exec_error: copy_opt_str(&f.test_exec_error),
        console: match &f.console {
            Some(c) => Some(copy_console_entries(c)),
            None => None,
        },
        test_results: cases,
    }
}

/// A copy of a suite.
pub fn copy_suite(f: &TestSuiteResult) -> (res: TestSuiteResult)
    ensures
        res@ == f@,
{
    copy_suite_with_cases(f, copy_cases(&f.test_results))
}


/// A copy of each suite of a list.
pub fn copy_suites(v: &Vec<TestSuiteResult>) -> (res: Vec<TestSuiteResult>)
    ensures
        suite_views(res@) == suite_views(v@),
{
    let mut out: Vec<TestSuiteResult> = Vec::new();
    let mut i: usize = 0;
    while i < v.len()
        invariant
            i <= v.len(),
            suite_views(out@) == suite_views(v@).take(i as int),
        decreases v.len() - i,
    {
        let ghost before = suite_views(out@);
        out.push(copy_suite(&v[i]));
        assert(suite_views(out@) =~= before.push(v@[i as int]@));
        assert(suite_views(v@).take(i + 1) =~= suite_views(v@).take(i as int).push(v@[i as int]@));
        i = i + 1;
    }
    assert(suite_views(v@).take(v.len() as int) =~= suite_views(v@));
    out
}


/// A JSON value as the library reads it: object members in their order.
#[derive(Debug)]
pub enum JsonValue {
    Null,
    Bool(bool),
    Number(String),
    Str(String),
    Array(Vec<JsonValue>),
    Object(Vec<(String, JsonValue)>),
}

/// The member `key` of an object (the first one of that name).
pub open spec fn member_of(members: Seq<(String, JsonValue)>, key: Seq<char>) -> Option<JsonValue>
    decreases members.len(),
{
    if members.len() == 0 {
        None
    } else if members[0].0@ == key {
        Some(members[0].1)
    } else {
        member_of(members.drop_first(), key)
    }
}

/// The member `key` of an object.
pub fn json_member<'a>(members: &'a Vec<(String, JsonValue)>, key: &str) -> (res: Option<&'a JsonValue>)
    ensures
        match res {
            Some(v) => member_of(members@, key@) == Some(*v),
            None => member_of(members@, key@) is None,
        },
{
    let mut i: usize = 0;
    assert(members@.skip(0) =~= members@);
    while i < members.len()
        invariant
            i <= members.len(),
            member_of(members@, key@) == member_of(members@.skip(i as int), key@),
        decreases members.len() - i,
    {
        assert(members@.skip(i as int)[0] == members@[i as int]);
        if crate::text::str_eq(members[i].0.as_str(), key) {
            return Some(&members[i].1);
        }
        assert(members@.skip(i as int).drop_first() =~= members@.skip(i + 1));
        i = i + 1;
    }
    None
}

} // verus!
