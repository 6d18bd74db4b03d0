//! A line-oriented parser for plain-text test runner output. A dialect says
//! how to recognise suite headers, test lines and failure blocks; the engine
//! turns the lines into suites and, at the end, into a run model.
use crate::test_model::{
    case_views, console_views, opt_seq, suite_views, TestCaseResult, TestCaseView,
    TestConsoleEntry, TestConsoleEntryView, TestRunAggregated, TestRunModel, TestSuiteResult,
    TestSuiteView,
};
use crate::text::{
    concat3, ends_with, ends_with_str, is_blank, is_blank_str, owned, starts_with,
    starts_with_str, str_eq, trim, trim_str, views,
};
use vstd::prelude::*;

verus! {

/// What the stream parser reports for one line.
#[derive(Debug, Clone)]
pub enum UnstructuredStreamEvent {
    SuiteStarted { suite_path: String },
    TestFinished { suite_path: String, test_name: String, status: String },
    OutputLine { suite_path: String, test_name: Option<String>, line: String },
}

pub enum StreamEventView {
    SuiteStarted { suite_path: Seq<char> },
    TestFinished { suite_path: Seq<char>, test_name: Seq<char>, status: Seq<char> },
    OutputLine { suite_path: Seq<char>, test_name: Option<Seq<char>>, line: Seq<char> },
}

impl View for UnstructuredStreamEvent {
    type V = StreamEventView;

    open spec fn view(&self) -> StreamEventView {
        match self {
            UnstructuredStreamEvent::SuiteStarted { suite_path } => StreamEventView::SuiteStarted {
                suite_path: suite_path@,
            },
            UnstructuredStreamEvent::TestFinished { suite_path, test_name, status } =>
                StreamEventView::TestFinished {
                suite_path: suite_path@,
                test_name: test_name@,
                status: status@,
            },
            UnstructuredStreamEvent::OutputLine { suite_path, test_name, line } =>
                StreamEventView::OutputLine {
                suite_path: suite_path@,
                test_name: opt_seq(*test_name),
                line: line@,
            },
        }
    }
}

pub open spec fn event_views(v: Seq<UnstructuredStreamEvent>) -> Seq<StreamEventView> {
    v.map_values(|e: UnstructuredStreamEvent| e@)
}

/// A recognised test line: finished with a status, or still running.
#[derive(Debug, Clone)]
pub enum ParsedTestLine {
    Completed { name: String, status: String },
    Pending { name: String, inline_output: Option<String> },
}

pub enum ParsedTestLineView {
    Completed { name: Seq<char>, status: Seq<char> },
    Pending { name: Seq<char>, inline_output: Option<Seq<char>> },
}

impl View for ParsedTestLine {
    type V = ParsedTestLineView;

    open spec fn view(&self) -> ParsedTestLineView {
        match self {
            ParsedTestLine::Completed { name, status } => ParsedTestLineView::Completed {
                name: name@,
                status: status@,
            },
            ParsedTestLine::Pending { name, inline_output } => ParsedTestLineView::Pending {
                name: name@,
                inline_output: opt_seq(*inline_output),
            },
        }
    }
}

pub open spec fn opt_parsed(o: Option<ParsedTestLine>) -> Option<ParsedTestLineView> {
    match o {
        Some(p) => Some(p@),
        None => None,
    }
}

/// A failure block found at a line: the failed test's name, how many lines it
/// takes, and the failure text.
pub open spec fn opt_block(o: Option<(String, usize, String)>) -> Option<(Seq<char>, nat, Seq<char>)> {
    match o {
        Some((n, c, t)) => Some((n@, c as nat, t@)),
        None => None,
    }
}

/// How one runner's plain-text output is read.
pub trait UnstructuredDialect: Sized {
    spec fn spec_origin(&self) -> Seq<char>;

    spec fn spec_suite_header(&self, line: Seq<char>) -> Option<Seq<char>>;

    spec fn spec_test_line(&self, line: Seq<char>) -> Option<ParsedTestLineView>;

    spec fn spec_status_only(&self, line: Seq<char>) -> Option<Seq<char>>;

    spec fn spec_failure_block(&self, lines: Seq<Seq<char>>, start: int) -> Option<
        (Seq<char>, nat, Seq<char>),
    >;

    spec fn spec_panic_block(&self, lines: Seq<Seq<char>>, start: int) -> Option<
        (Seq<char>, nat, Seq<char>),
    >;

    spec fn spec_output_header(&self, line: Seq<char>) -> Option<Seq<char>>;

    spec fn spec_keep_console(&self, line: Seq<char>) -> bool;

    /// A block found at `start` takes at least that line and no line past the end.
    proof fn lemma_blocks_consume(&self, lines: Seq<Seq<char>>, start: int)
        requires
            0 <= start < lines.len(),
        ensures
            self.spec_failure_block(lines, start) matches Some((_, c, _)) ==> 1 <= c <= lines.len()
                - start,
            self.spec_panic_block(lines, start) matches Some((_, c, _)) ==> 1 <= c <= lines.len()
                - start,
    ;

    fn origin(&self) -> (res: String)
        ensures
            res@ == self.spec_origin(),
    ;

    /// The dialect's default value, which a parser starts with when no
    /// dialect is given.
    spec fn spec_default_dialect() -> Self;

    fn default_dialect() -> (res: Self)
        ensures
            res == Self::spec_default_dialect(),
    ;

    fn parse_suite_header_source_path(&self, line: &str) -> (res: Option<String>)
        ensures
            opt_seq(res) == self.spec_suite_header(line@),
    ;

    fn parse_test_line(&self, line: &str) -> (res: Option<ParsedTestLine>)
        ensures
            opt_parsed(res) == self.spec_test_line(line@),
    ;

    fn parse_status_only_line(&self, line: &str) -> (res: Option<String>)
        ensures
            opt_seq(res) == self.spec_status_only(line@),
    ;

    fn parse_failure_block(&self, lines: &Vec<String>, start_index: usize) -> (res: Option<
        (String, usize, String),
    >)
        requires
            start_index < lines.len(),
        ensures
            opt_block(res) == self.spec_failure_block(views(lines@), start_index as int),
    ;

    fn parse_panic_block(&self, lines: &Vec<String>, start_index: usize) -> (res: Option<
        (String, usize, String),
    >)
        requires
            start_index < lines.len(),
        ensures
            opt_block(res) == self.spec_panic_block(views(lines@), start_index as int),
    ;

    fn is_output_section_header(&self, line: &str) -> (res: Option<String>)
        ensures
            opt_seq(res) == self.spec_output_header(line@),
    ;

    fn should_keep_as_console_line(&self, line: &str) -> (res: bool)
        ensures
            res == self.spec_keep_console(line@),
    ;
}

/// `repo_relative` made absolute against `repo_root` (as `Path::join` does on
/// Unix): kept when it already starts with `/`.
pub open spec fn absolutize_spec(repo_root: Seq<char>, repo_relative: Seq<char>) -> Seq<char> {
    if starts_with(repo_relative, seq!['/']) {
        repo_relative
    } else if repo_root.len() == 0 {
        repo_relative
    } else if ends_with(repo_root, seq!['/']) {
        repo_root + repo_relative
    } else {
        repo_root + seq!['/'] + repo_relative
    }
}

pub fn absolutize_repo_relative(repo_root: &str, repo_relative: &str) -> (res: String)
    ensures
        res@ == absolutize_spec(repo_root@, repo_relative@),
{
    proof {
        reveal_strlit("/");
        assert("/"@ =~= seq!['/']);
    }
    if starts_with_str(repo_relative, "/") {
        return owned(repo_relative);
    }
    if repo_root.is_empty() {
        return owned(repo_relative);
    }
    if ends_with_str(repo_root, "/") {
        return crate::text::concat2(repo_root, repo_relative);
    }
    concat3(repo_root, "/", repo_relative)
}

/// A test case as this engine creates it: title and full name are the name.
pub open spec fn new_case(name: Seq<char>, status: Seq<char>) -> TestCaseView {
    TestCaseView {
        title: name,
        full_name: name,
        status,
        timed_out: None,
        duration: 0,
        location: None,
        failure_messages: Seq::empty(),
        failure_details: None,
    }
}

/// A console entry of type `log`.
pub open spec fn log_entry(message: Seq<char>, origin: Seq<char>) -> TestConsoleEntryView {
    TestConsoleEntryView {
        message: Some(message),
        entry_type: Some("log"@),
        origin: Some(origin),
    }
}

/// The state while the lines of one suite are read.
pub struct ScanState {
    pub tests: Seq<TestCaseView>,
    pub failures: Seq<(Seq<char>, Seq<char>)>,
    pub console: Seq<TestConsoleEntryView>,
    pub last_pending: Option<int>,
}

pub open spec fn scan_start() -> ScanState {
    ScanState { tests: Seq::empty(), failures: Seq::empty(), console: Seq::empty(), last_pending: None }
}

pub open spec fn with_status(t: TestCaseView, status: Seq<char>) -> TestCaseView {
    TestCaseView { status, ..t }
}

/// Reads the lines of a suite from index `i` on: test lines add cases, a
/// status-only line completes the last pending case, failure and panic
/// blocks record a failure text by test name, and other lines that the
/// dialect keeps become console entries.
pub open spec fn scan<D: UnstructuredDialect>(d: D, lines: Seq<Seq<char>>, i: int, st: ScanState) -> ScanState
    decreases lines.len() - i,
{
    if i < 0 || i >= lines.len() {
        st
    } else {
        let line = lines[i];
        match d.spec_test_line(line) {
            Some(ParsedTestLineView::Completed { name, status }) => scan(
                d,
                lines,
                i + 1,
                ScanState { tests: st.tests.push(new_case(name, status)), last_pending: None, ..st },
            ),
            Some(ParsedTestLineView::Pending { name, inline_output }) => {
                let tests = st.tests.push(new_case(name, "pending"@));
                let console = match inline_output {
                    Some(x) => if !is_blank(x) {
                        st.console.push(log_entry(x, d.spec_origin()))
                    } else {
                        st.console
                    },
                    None => st.console,
                };
                scan(
                    d,
                    lines,
                    i + 1,
                    ScanState {
                        tests,
                        console,
                        last_pending: Some(tests.len() - 1),
                        failures: st.failures,
                    },
                )
            },
            None => match d.spec_status_only(line) {
                Some(status) => {
                    let tests = match st.last_pending {
                        Some(k) => if 0 <= k < st.tests.len() {
                            st.tests.update(k, with_status(st.tests[k], status))
                        } else {
                            st.tests
                        },
                        None => st.tests,
                    };
                    scan(d, lines, i + 1, ScanState { tests, last_pending: None, ..st })
                },
                None => match d.spec_failure_block(lines, i) {
                    Some((name, consumed, text)) => if consumed >= 1 && i + consumed <= lines.len() {
                        scan(
                            d,
                            lines,
                            i + consumed,
                            ScanState { failures: st.failures.push((name, text)), ..st },
                        )
                    } else {
                        st
                    },
                    None => match d.spec_panic_block(lines, i) {
                        Some((name, consumed, text)) => if consumed >= 1 && i + consumed
                            <= lines.len() {
                            scan(
                                d,
                                lines,
                                i + consumed,
                                ScanState { failures: st.failures.push((name, text)), ..st },
                            )
                        } else {
                            st
                        },
                        None => {
                            let console = if d.spec_keep_console(line) {
                                st.console.push(log_entry(line, d.spec_origin()))
                            } else {
                                st.console
                            };
                            scan(d, lines, i + 1, ScanState { console, ..st })
                        },
                    },
                },
            },
        }
    }
}

/// The text recorded last for `name`, if any.
pub open spec fn lookup_last(failures: Seq<(Seq<char>, Seq<char>)>, name: Seq<char>) -> Option<
    Seq<char>,
>
    decreases failures.len(),
{
    if failures.len() == 0 {
        None
    } else if failures.last().0 == name {
        Some(failures.last().1)
    } else {
        lookup_last(failures.drop_last(), name)
    }
}

/// A failed case gets the failure text recorded for its full name.
pub open spec fn apply_failure(t: TestCaseView, failures: Seq<(Seq<char>, Seq<char>)>) -> TestCaseView {
    if t.status == "failed"@ && lookup_last(failures, t.full_name) is Some {
        TestCaseView {
            failure_messages: seq![lookup_last(failures, t.full_name)->0],
            ..t
        }
    } else {
        t
    }
}

pub open spec fn any_failed(tests: Seq<TestCaseView>) -> bool {
    exists|k: int| 0 <= k < tests.len() && (#[trigger] tests[k]).status == "failed"@
}

/// The suite that the lines of a block give.
pub open spec fn suite_spec<D: UnstructuredDialect>(
    repo_root: Seq<char>,
    d: D,
    source_path: Seq<char>,
    lines: Seq<Seq<char>>,
) -> TestSuiteView {
    let st = scan(d, lines, 0, scan_start());
    let tests = st.tests.map_values(|t: TestCaseView| apply_failure(t, st.failures));
    TestSuiteView {
        test_file_path: absolutize_spec(repo_root, source_path),
        status: if any_failed(tests) {
            "failed"@
        } else {
            "passed"@
        },
        timed_out: None,
        failure_message: Seq::empty(),
        failure_details: None,
        test_exec_error: None,
        console: if st.console.len() > 0 {
            Some(st.console)
        } else {
            None
        },
        test_results: tests,
    }
}

fn make_case(name: &str, status: &str) -> (res: TestCaseResult)
    ensures
        res@ == new_case(name@, status@),
{
    let res = TestCaseResult {
        title: owned(name),
        full_name: owned(name),
        status: owned(status),
        timed_out: None,
        duration: 0,
        location: None,
        failure_messages: Vec::new(),
        failure_details: None,
    };
    assert(res@.failure_messages =~= Seq::<Seq<char>>::empty());
    res
}

fn make_log_entry(message: &str, origin: String) -> (res: TestConsoleEntry)
    ensures
        res@ == log_entry(message@, origin@),
{
    TestConsoleEntry {
        message: Some(owned(message)),
        entry_type: Some(owned("log")),
        origin: Some(origin),
    }
}

fn find_failure(failures: &Vec<(String, String)>, name: &str) -> (res: Option<String>)
    ensures
        opt_seq(res) == lookup_last(pair_views(failures@), name@),
{
    let mut i = failures.len();
    assert(pair_views(failures@).take(i as int) == pair_views(failures@));
    while i > 0
        invariant
            i <= failures.len(),
            lookup_last(pair_views(failures@), name@) == lookup_last(
                pair_views(failures@).take(i as int),
                name@,
            ),
        decreases i,
    {
        let ghost pv = pair_views(failures@).take(i as int);
        assert(pv.drop_last() == pair_views(failures@).take(i - 1));
        assert(pv.last() == (failures@[i - 1].0@, failures@[i - 1].1@));
        if str_eq(failures[i - 1].0.as_str(), name) {
            return Some(owned(failures[i - 1].1.as_str()));
        }
        i = i - 1;
    }
    assert(pair_views(failures@).take(0) =~= Seq::<(Seq<char>, Seq<char>)>::empty());
    None
}

pub open spec fn pair_views(v: Seq<(String, String)>) -> Seq<(Seq<char>, Seq<char>)> {
    v.map_values(|p: (String, String)| (p.0@, p.1@))
}

/// The suite that a block of lines gives under dialect `d`.
pub fn parse_suite_block<D: UnstructuredDialect>(
    repo_root: &str,
    dialect: &D,
    source_path: &str,
    lines: &Vec<String>,
) -> (res: TestSuiteResult)
    ensures
        res@ == suite_spec(repo_root@, *dialect, source_path@, views(lines@)),
{
    let mut tests: Vec<TestCaseResult> = Vec::new();
    let mut failures: Vec<(String, String)> = Vec::new();
    let mut console_entries: Vec<TestConsoleEntry> = Vec::new();
    let mut last_pending: Option<usize> = None;
    let ghost lv = views(lines@);
    let mut line_index: usize = 0;
    assert(case_views(tests@) =~= Seq::<TestCaseView>::empty());
    assert(pair_views(failures@) =~= Seq::<(Seq<char>, Seq<char>)>::empty());
    assert(console_views(console_entries@) =~= Seq::<TestConsoleEntryView>::empty());
    while line_index < lines.len()
        invariant
            lv == views(lines@),
            scan(*dialect, lv, 0, scan_start()) == scan(
                *dialect,
                lv,
                line_index as int,
                ScanState {
                    tests: case_views(tests@),
                    failures: pair_views(failures@),
                    console: console_views(console_entries@),
                    last_pending: match last_pending {
                        Some(k) => Some(k as int),
                        None => None,
                    },
                },
            ),
            last_pending matches Some(k) ==> k < tests.len(),
        decreases lines.len() - line_index,
    {
        let line = lines[line_index].as_str();
        assert(lv[line_index as int] == line@);
        let ghost st = ScanState {
            tests: case_views(tests@),
            failures: pair_views(failures@),
            console: console_views(console_entries@),
            last_pending: match last_pending {
                Some(k) => Some(k as int),
                None => None,
            },
        };
        if let Some(parsed) = dialect.parse_test_line(line) {
            match parsed {
                ParsedTestLine::Completed { name, status } => {
                    last_pending = None;
                    tests.push(make_case(name.as_str(), status.as_str()));
                    assert(case_views(tests@) =~= st.tests.push(new_case(name@, status@)));
                },
                ParsedTestLine::Pending { name, inline_output } => {
                    tests.push(make_case(name.as_str(), "pending"));
                    assert(case_views(tests@) =~= st.tests.push(new_case(name@, "pending"@)));
                    last_pending = Some(tests.len() - 1);
                    match inline_output {
                        Some(inline) => {
                            if !is_blank_str(inline.as_str()) {
                                let e = make_log_entry(inline.as_str(), dialect.origin());
                                console_entries.push(e);
                                assert(console_views(console_entries@) =~= st.console.push(
                                    log_entry(inline@, dialect.spec_origin()),
                                ));
                            }
                        },
                        None => {},
                    }
                },
            }
            line_index = line_index + 1;
            continue ;
        }
        if let Some(status) = dialect.parse_status_only_line(line) {
            match last_pending {
                Some(index) => {
                    let ghost old_tests = case_views(tests@);
                    let ghost old_case = tests@[index as int];
                    TestCaseResult::set_status_in(&mut tests, index, status);
                    assert(case_views(tests@) =~= old_tests.update(
                        index as int,
                        with_status(old_tests[index as int], status@),
                    ));
                },
                None => {},
            }
            last_pending = None;
            line_index = line_index + 1;
            continue ;
        }
        if let Some((failed_name, consumed, failure_text)) = dialect.parse_failure_block(
            lines,
            line_index,
        ) {
            proof {
                dialect.lemma_blocks_consume(lv, line_index as int);
            }
            failures.push((failed_name, failure_text));
            assert(pair_views(failures@) =~= st.failures.push((failed_name@, failure_text@)));
            line_index = line_index + consumed;
            continue ;
        }
        if let Some((failed_name, consumed, failure_text)) = dialect.parse_panic_block(
            lines,
            line_index,
        ) {
            proof {
                dialect.lemma_blocks_consume(lv, line_index as int);
            }
            failures.push((failed_name, failure_text));
            assert(pair_views(failures@) =~= st.failures.push((failed_name@, failure_text@)));
            line_index = line_index + consumed;
            continue ;
        }
        if dialect.should_keep_as_console_line(line) {
            let e = make_log_entry(line, dialect.origin());
            console_entries.push(e);
            assert(console_views(console_entries@) =~= st.console.push(
                log_entry(line@, dialect.spec_origin()),
            ));
        }
        line_index = line_index + 1;
    }
    let ghost fin = ScanState {
        tests: case_views(tests@),
        failures: pair_views(failures@),
        console: console_views(console_entries@),
        last_pending: match last_pending {
            Some(k) => Some(k as int),
            None => None,
        },
    };
    assert(scan(*dialect, lv, 0, scan_start()) == fin);
    let mut final_tests: Vec<TestCaseResult> = Vec::new();
    let mut any_fail = false;
    let mut j: usize = 0;
    while j < tests.len()
        invariant
            j <= tests.len(),
            case_views(final_tests@) == case_views(tests@).take(j as int).map_values(
                |t: TestCaseView| apply_failure(t, pair_views(failures@)),
            ),
            any_fail == any_failed(case_views(final_tests@)),
        decreases tests.len() - j,
    {
        let t = &tests[j];
        let mut msgs: Vec<String> = Vec::new();
        let is_failed = str_eq(t.status.as_str(), "failed");
        let mut failure_messages_given = false;
        if is_failed {
            match find_failure(&failures, t.full_name.as_str()) {
                Some(text) => {
                    msgs.push(text);
                    assert(views(msgs@) =~= seq![lookup_last(pair_views(failures@), t.full_name@)->0]);
                    failure_messages_given = true;
                },
                None => {},
            }
        }
        let copy = TestCaseResult {
            title: owned(t.title.as_str()),
            full_name: owned(t.full_name.as_str()),
            status: owned(t.status.as_str()),
            timed_out: t.timed_out,
            duration: t.duration,
            location: t.location,
            failure_messages: if failure_messages_given {
                msgs
            } else {
                copy_strings(&t.failure_messages)
            },
            failure_details: copy_opt_strings(&t.failure_details),
        };
        assert(is_failed == (t@.status == "failed"@));
        assert(failure_messages_given == (t@.status == "failed"@ && lookup_last(
            pair_views(failures@),
            t@.full_name,
        ) is Some));
        assert(copy@ == apply_failure(t@, pair_views(failures@)));
        let ghost before = case_views(final_tests@);
        final_tests.push(copy);
        assert(case_views(final_tests@) =~= before.push(copy@));
        assert(case_views(tests@).take(j + 1) =~= case_views(tests@).take(j as int).push(t@));
        if is_failed {
            any_fail = true;
        }
        proof {
            let nv = case_views(final_tests@);
            assert(copy@.status == t@.status);
            assert(before.len() == j);
            if any_failed(before) {
                let k = choose|k: int| 0 <= k < before.len() && (#[trigger] before[k]).status == "failed"@;
                assert(nv[k] == before[k]);
            }
            if is_failed {
                assert(nv[j as int] == copy@);
            }
            if any_failed(nv) {
                let k = choose|k: int| 0 <= k < nv.len() && (#[trigger] nv[k]).status == "failed"@;
                if k < j {
                    assert(before[k] == nv[k]);
                } else {
                    assert(nv[k] == copy@);
                }
            }
        }
        j = j + 1;
    }
    assert(case_views(tests@).take(tests.len() as int) == case_views(tests@));
    let has_console = console_entries.len() > 0;
    let res = TestSuiteResult {
        test_file_path: absolutize_repo_relative(repo_root, source_path),
        status: if any_fail {
            owned("failed")
        } else {
            owned("passed")
        },
        timed_out: None,
        failure_message: String::new(),
        failure_details: None,
        test_exec_error: None,
        console: if has_console {
            Some(console_entries)
        } else {
            None
        },
        test_results: final_tests,
    };
    assert(res@ == suite_spec(repo_root@, *dialect, source_path@, views(lines@)));
    res
}

/// A copy of each string of a list.
pub fn copy_strings(v: &Vec<String>) -> (res: Vec<String>)
    ensures
        views(res@) == views(v@),
{
    let mut out: Vec<String> = Vec::new();
    let mut i: usize = 0;
    while i < v.len()
        invariant
            i <= v.len(),
            views(out@) == views(v@).take(i as int),
        decreases v.len() - i,
    {
        out.push(owned(v[i].as_str()));
        assert(views(v@).take(i + 1) =~= views(v@).take(i as int).push(v@[i as int]@));
        assert(views(out@) =~= views(v@).take(i + 1));
        i = i + 1;
    }
    assert(views(v@).take(v.len() as int) == views(v@));
    out
}

/// A copy of an optional list of strings.
pub fn copy_opt_strings(v: &Option<Vec<String>>) -> (res: Option<Vec<String>>)
    ensures
        crate::test_model::opt_seqs(res) == crate::test_model::opt_seqs(*v),
{
    match v {
        Some(x) => Some(copy_strings(x)),
        None => None,
    }
}

/// A copy of an optional string.
pub fn copy_opt(v: &Option<String>) -> (res: Option<String>)
    ensures
        opt_seq(res) == opt_seq(*v),
{
    match v {
        Some(x) => Some(owned(x.as_str())),
        None => None,
    }
}

impl TestCaseResult {
    /// Replaces the status of one case in a list.
    fn set_status_in(v: &mut Vec<TestCaseResult>, index: usize, status: String)
        requires
            index < old(v).len(),
        ensures
            final(v).len() == old(v).len(),
            case_views(final(v)@) == case_views(old(v)@).update(
                index as int,
                with_status(old(v)@[index as int]@, status@),
            ),
    {
        let ghost old_v = v@;
        let t = &v[index];
        let copy = TestCaseResult {
            title: owned(t.title.as_str()),
            full_name: owned(t.full_name.as_str()),
            status,
            timed_out: t.timed_out,
            duration: t.duration,
            location: t.location,
            failure_messages: copy_strings(&t.failure_messages),
            failure_details: copy_opt_strings(&t.failure_details),
        };
        v.set(index, copy);
        assert(case_views(v@) =~= case_views(old_v).update(
            index as int,
            with_status(old_v[index as int]@, status@),
        ));
    }
}

/// `a + b`, capped at `u64::MAX`.
pub open spec fn sat_add(a: u64, b: nat) -> u64 {
    if a + b > u64::MAX {
        u64::MAX
    } else {
        (a + b) as u64
    }
}

/// Cases that did not fail and cases that failed, counted with capped sums.
pub open spec fn pass_fail_counts(tests: Seq<TestCaseView>) -> (u64, u64)
    decreases tests.len(),
{
    if tests.len() == 0 {
        (0, 0)
    } else {
        let (p, f) = pass_fail_counts(tests.drop_last());
        if tests.last().status == "failed"@ {
            (p, sat_add(f, 1))
        } else {
            (sat_add(p, 1), f)
        }
    }
}

pub open spec fn initial_aggregate() -> TestRunAggregated {
    TestRunAggregated {
        num_total_test_suites: 0,
        num_passed_test_suites: 0,
        num_failed_test_suites: 0,
        num_total_tests: 0,
        num_passed_tests: 0,
        num_failed_tests: 0,
        num_pending_tests: 0,
        num_todo_tests: 0,
        num_timed_out_tests: None,
        num_timed_out_test_suites: None,
        start_time: 0,
        success: true,
        run_time_ms: Some(0),
    }
}

/// Adds one suite to the counts: a suite whose status is `failed` counts as
/// failed; its cases count as passed unless their status is `failed`.
pub open spec fn aggregate_step(acc: TestRunAggregated, suite: TestSuiteView) -> TestRunAggregated {
    let suite_failed = suite.status == "failed"@;
    let (p, f) = pass_fail_counts(suite.test_results);
    TestRunAggregated {
        num_total_test_suites: sat_add(acc.num_total_test_suites, 1),
        num_passed_test_suites: sat_add(
            acc.num_passed_test_suites,
            if suite_failed {
                0
            } else {
                1
            },
        ),
        num_failed_test_suites: sat_add(
            acc.num_failed_test_suites,
            if suite_failed {
                1
            } else {
                0
            },
        ),
        num_total_tests: sat_add(acc.num_total_tests, sat_add(p, f as nat) as nat),
        num_passed_tests: sat_add(acc.num_passed_tests, p as nat),
        num_failed_tests: sat_add(acc.num_failed_tests, f as nat),
        success: acc.success && !suite_failed,
        ..acc
    }
}

pub open spec fn aggregate(suites: Seq<TestSuiteView>) -> TestRunAggregated
    decreases suites.len(),
{
    if suites.len() == 0 {
        initial_aggregate()
    } else {
        aggregate_step(aggregate(suites.drop_last()), suites.last())
    }
}

/// The run model of a list of suites.
pub open spec fn run_model_spec(suites: Seq<TestSuiteView>) -> crate::test_model::TestRunView {
    crate::test_model::TestRunView { start_time: 0, test_results: suites, aggregated: aggregate(suites) }
}

fn pass_fail_counts_exec(tests: &Vec<TestCaseResult>) -> (res: (u64, u64))
    ensures
        res == pass_fail_counts(case_views(tests@)),
{
    let mut p: u64 = 0;
    let mut f: u64 = 0;
    let mut i: usize = 0;
    assert(case_views(tests@).take(0) =~= Seq::<TestCaseView>::empty());
    while i < tests.len()
        invariant
            i <= tests.len(),
            (p, f) == pass_fail_counts(case_views(tests@).take(i as int)),
        decreases tests.len() - i,
    {
        assert(case_views(tests@).take(i + 1).drop_last() =~= case_views(tests@).take(i as int));
        assert(case_views(tests@).take(i + 1).last() == tests@[i as int]@);
        if str_eq(tests[i].status.as_str(), "failed") {
            f = f.saturating_add(1);
        } else {
            p = p.saturating_add(1);
        }
        i = i + 1;
    }
    assert(case_views(tests@).take(tests.len() as int) == case_views(tests@));
    (p, f)
}

/// Builds the run model of `suites`, with the counts summed over them.
pub fn build_test_run_model(suites: Vec<TestSuiteResult>) -> (res: TestRunModel)
    ensures
        res@ == run_model_spec(suite_views(suites@)),
{
    let mut acc = TestRunAggregated {
        num_total_test_suites: 0,
        num_passed_test_suites: 0,
        num_failed_test_suites: 0,
        num_total_tests: 0,
        num_passed_tests: 0,
        num_failed_tests: 0,
        num_pending_tests: 0,
        num_todo_tests: 0,
        num_timed_out_tests: None,
        num_timed_out_test_suites: None,
        start_time: 0,
        success: true,
        run_time_ms: Some(0),
    };
    let mut i: usize = 0;
    assert(suite_views(suites@).take(0) =~= Seq::<TestSuiteView>::empty());
    while i < suites.len()
        invariant
            i <= suites.len(),
            acc == aggregate(suite_views(suites@).take(i as int)),
        decreases suites.len() - i,
    {
        assert(suite_views(suites@).take(i + 1).drop_last() =~= suite_views(suites@).take(i as int));
        assert(suite_views(suites@).take(i + 1).last() == suites@[i as int]@);
        let suite = &suites[i];
        let suite_failed = str_eq(suite.status.as_str(), "failed");
        let (p, f) = pass_fail_counts_exec(&suite.test_results);
        acc = TestRunAggregated {
            num_total_test_suites: acc.num_total_test_suites.saturating_add(1),
            num_passed_test_suites: acc.num_passed_test_suites.saturating_add(
                if suite_failed {
                    0
                } else {
                    1
                },
            ),
            num_failed_test_suites: acc.num_failed_test_suites.saturating_add(
                if suite_failed {
                    1
                } else {
                    0
                },
            ),
            num_total_tests: acc.num_total_tests.saturating_add(p.saturating_add(f)),
            num_passed_tests: acc.num_passed_tests.saturating_add(p),
            num_failed_tests: acc.num_failed_tests.saturating_add(f),
            success: acc.success && !suite_failed,
            ..acc
        };
        i = i + 1;
    }
    assert(suite_views(suites@).take(suites.len() as int) == suite_views(suites@));
    TestRunModel { start_time: 0, test_results: suites, aggregated: acc }
}

/// The suite being read: its source path, its lines so far, and the test
/// whose captured output is being read, if any.
pub struct CurrentView {
    pub source_path: Seq<char>,
    pub lines: Seq<Seq<char>>,
    pub active: Option<Seq<char>>,
}

/// The abstract state of a stream parser.
pub struct StreamState<D> {
    pub repo_root: Seq<char>,
    pub dialect: D,
    pub suites: Seq<TestSuiteView>,
    pub current: Option<CurrentView>,
}

/// Ends the suite being read: it is kept when it has at least one case.
pub open spec fn flush_spec<D: UnstructuredDialect>(st: StreamState<D>) -> StreamState<D> {
    match st.current {
        None => st,
        Some(c) => {
            let suite = suite_spec(st.repo_root, st.dialect, c.source_path, c.lines);
            StreamState {
                suites: if suite.test_results.len() > 0 {
                    st.suites.push(suite)
                } else {
                    st.suites
                },
                current: None,
                ..st
            }
        },
    }
}

/// One line fed to the stream parser: the new state and the events reported.
pub open spec fn push_line_spec<D: UnstructuredDialect>(st: StreamState<D>, line: Seq<char>) -> (
    StreamState<D>,
    Seq<StreamEventView>,
) {
    match st.dialect.spec_suite_header(line) {
        Some(src) => {
            let f = flush_spec(st);
            (
                StreamState {
                    current: Some(CurrentView { source_path: src, lines: Seq::empty(), active: None }),
                    ..f
                },
                seq![StreamEventView::SuiteStarted { suite_path: absolutize_spec(st.repo_root, src) }],
            )
        },
        None => match st.current {
            None => (st, Seq::empty()),
            Some(c) => {
                let lines = c.lines.push(line);
                let path = absolutize_spec(st.repo_root, c.source_path);
                match st.dialect.spec_test_line(line) {
                    Some(ParsedTestLineView::Completed { name, status }) => (
                        StreamState {
                            current: Some(CurrentView { lines, active: None, ..c }),
                            ..st
                        },
                        seq![
                            StreamEventView::TestFinished {
                                suite_path: path,
                                test_name: name,
                                status,
                            },
                        ],
                    ),
                    Some(ParsedTestLineView::Pending { .. }) => (
                        StreamState { current: Some(CurrentView { lines, ..c }), ..st },
                        Seq::empty(),
                    ),
                    None => match st.dialect.spec_output_header(line) {
                        Some(name) => (
                            StreamState {
                                current: Some(CurrentView { lines, active: Some(name), ..c }),
                                ..st
                            },
                            seq![
                                StreamEventView::OutputLine {
                                    suite_path: path,
                                    test_name: Some(name),
                                    line: trim(line),
                                },
                            ],
                        ),
                        None => (
                            StreamState { current: Some(CurrentView { lines, ..c }), ..st },
                            if !is_blank(line) {
                                seq![
                                    StreamEventView::OutputLine {
                                        suite_path: path,
                                        test_name: c.active,
                                        line,
                                    },
                                ]
                            } else {
                                Seq::empty()
                            },
                        ),
                    },
                }
            },
        },
    }
}

/// The model at the end of the stream: the suites with cases, if any.
pub open spec fn finalize_spec<D: UnstructuredDialect>(st: StreamState<D>) -> Option<
    crate::test_model::TestRunView,
> {
    let f = flush_spec(st);
    if f.suites.len() > 0 {
        Some(run_model_spec(f.suites))
    } else {
        None
    }
}

struct SuiteState {
    source_path: String,
    lines: Vec<String>,
    active_output_test_name: Option<String>,
}

/// Reads runner output line by line under a dialect.
pub struct UnstructuredStreamParser<D: UnstructuredDialect> {
    repo_root: String,
    dialect: D,
    suites: Vec<TestSuiteResult>,
    current: Option<SuiteState>,
}

impl<D: UnstructuredDialect> UnstructuredStreamParser<D> {
    /// The abstract state of the parser.
    pub closed spec fn state(&self) -> StreamState<D> {
        StreamState {
            repo_root: self.repo_root@,
            dialect: self.dialect,
            suites: suite_views(self.suites@),
            current: match self.current {
                Some(c) => Some(
                    CurrentView {
                        source_path: c.source_path@,
                        lines: views(c.lines@),
                        active: opt_seq(c.active_output_test_name),
                    },
                ),
                None => None,
            },
        }
    }

    /// A parser that has read nothing yet.
    pub fn new(repo_root: &str, dialect: D) -> (res: Self)
        ensures
            res.state() == (StreamState {
                repo_root: repo_root@,
                dialect,
                suites: Seq::empty(),
                current: None,
            }),
    {
        let res = UnstructuredStreamParser {
            repo_root: owned(repo_root),
            dialect,
            suites: Vec::new(),
            current: None,
        };
        assert(suite_views(res.suites@) =~= Seq::<TestSuiteView>::empty());
        res
    }

    /// A parser with the dialect's default value: in the same state as
    /// `new(repo_root, D::default_dialect())`.
    pub fn new_default(repo_root: &str) -> (res: Self)
        ensures
            res.state() == (StreamState {
                repo_root: repo_root@,
                dialect: D::spec_default_dialect(),
                suites: Seq::empty(),
                current: None,
            }),
    {
        Self::new(repo_root, D::default_dialect())
    }

    fn flush_current_suite(&mut self)
        ensures
            final(self).state() == flush_spec(old(self).state()),
    {
        let cur = self.current.take();
        match cur {
            None => {},
            Some(state) => {
                let suite = parse_suite_block(
                    self.repo_root.as_str(),
                    &self.dialect,
                    state.source_path.as_str(),
                    &state.lines,
                );
                if suite.test_results.len() > 0 {
                    let ghost before = suite_views(self.suites@);
                    self.suites.push(suite);
                    assert(suite_views(self.suites@) =~= before.push(suite@));
                }
            },
        }
    }

    /// Feeds one line; returns what it reports (see [`push_line_spec`]).
    pub fn push_line(&mut self, line: &str) -> (res: Vec<UnstructuredStreamEvent>)
        ensures
            final(self).state() == push_line_spec(old(self).state(), line@).0,
            event_views(res@) == push_line_spec(old(self).state(), line@).1,
    {
        let mut events: Vec<UnstructuredStreamEvent> = Vec::new();
        if let Some(source_path) = self.dialect.parse_suite_header_source_path(line) {
            self.flush_current_suite();
            let abs_suite_path = absolutize_repo_relative(self.repo_root.as_str(), source_path.as_str());
            let new_lines: Vec<String> = Vec::new();
            assert(views(new_lines@) =~= Seq::<Seq<char>>::empty());
            self.current = Some(
                SuiteState { source_path, lines: new_lines, active_output_test_name: None },
            );
            events.push(UnstructuredStreamEvent::SuiteStarted { suite_path: abs_suite_path });
            assert(event_views(events@) =~= push_line_spec(old(self).state(), line@).1);
            assert(self.state() =~~= push_line_spec(old(self).state(), line@).0);
            return events;
        }
        let cur = self.current.take();
        let Some(mut state) = cur else {
            assert(event_views(events@) =~= Seq::<StreamEventView>::empty());
            return events;
        };
        let ghost old_lines = views(state.lines@);
        state.lines.push(owned(line));
        assert(views(state.lines@) =~= old_lines.push(line@));
        let abs_suite_path = absolutize_repo_relative(self.repo_root.as_str(), state.source_path.as_str());
        if let Some(parsed) = self.dialect.parse_test_line(line) {
            match parsed {
                ParsedTestLine::Completed { name, status } => {
                    state.active_output_test_name = None;
                    events.push(
                        UnstructuredStreamEvent::TestFinished {
                            suite_path: abs_suite_path,
                            test_name: name,
                            status,
                        },
                    );
                },
                ParsedTestLine::Pending { .. } => {},
            }
            self.current = Some(state);
            assert(event_views(events@) =~= push_line_spec(old(self).state(), line@).1);
            assert(self.state() =~~= push_line_spec(old(self).state(), line@).0);
            return events;
        }
        if let Some(name) = self.dialect.is_output_section_header(line) {
            state.active_output_test_name = Some(owned(name.as_str()));
            events.push(
                UnstructuredStreamEvent::OutputLine {
                    suite_path: abs_suite_path,
                    test_name: Some(name),
                    line: trim_str(line),
                },
            );
            self.current = Some(state);
            assert(event_views(events@) =~= push_line_spec(old(self).state(), line@).1);
            assert(self.state() =~~= push_line_spec(old(self).state(), line@).0);
            return events;
        }
        if !is_blank_str(line) {
            let active = copy_opt(&state.active_output_test_name);
            events.push(
                UnstructuredStreamEvent::OutputLine {
                    suite_path: abs_suite_path,
                    test_name: active,
                    line: owned(line),
                },
            );
        }
        self.current = Some(state);
        assert(event_views(events@) =~= push_line_spec(old(self).state(), line@).1);
        assert(self.state() =~~= push_line_spec(old(self).state(), line@).0);
        events
    }

    /// Ends the stream: the model of the suites read, or `None` when no suite
    /// had a case.
    pub fn finalize(self) -> (res: Option<TestRunModel>)
        ensures
            match res {
                Some(m) => finalize_spec(self.state()) == Some(m@),
                None => finalize_spec(self.state()) is None,
            },
    {
        let mut me = self;
        me.flush_current_suite();
        if me.suites.len() > 0 {
            Some(build_test_run_model(me.suites))
        } else {
            None
        }
    }
}


/// The state after feeding `lines`, one after another.
pub open spec fn run_lines<D: UnstructuredDialect>(st: StreamState<D>, lines: Seq<Seq<char>>) -> StreamState<D>
    decreases lines.len(),
{
    if lines.len() == 0 {
        st
    } else {
        push_line_spec(run_lines(st, lines.drop_last()), lines.last()).0
    }
}

/// Every kept suite holds at least one test.
pub open spec fn suites_nonempty(s: Seq<TestSuiteView>) -> bool {
    forall|i: int| 0 <= i < s.len() ==> (#[trigger] s[i]).test_results.len() > 0
}

proof fn lemma_flush_keeps_nonempty<D: UnstructuredDialect>(st: StreamState<D>)
    requires
        suites_nonempty(st.suites),
    ensures
        suites_nonempty(flush_spec(st).suites),
{
    match st.current {
        None => {},
        Some(c) => {
            let suite = suite_spec(st.repo_root, st.dialect, c.source_path, c.lines);
            if suite.test_results.len() > 0 {
                let n = st.suites.push(suite);
                assert forall|i: int| 0 <= i < n.len() implies (#[trigger] n[i]).test_results.len() > 0 by {
                    if i < st.suites.len() {
                        assert(n[i] == st.suites[i]);
                    }
                }
            }
        },
    }
}

proof fn lemma_run_lines_nonempty<D: UnstructuredDialect>(st: StreamState<D>, lines: Seq<Seq<char>>)
    requires
        suites_nonempty(st.suites),
    ensures
        suites_nonempty(run_lines(st, lines).suites),
    decreases lines.len(),
{
    if lines.len() > 0 {
        lemma_run_lines_nonempty(st, lines.drop_last());
        let prev = run_lines(st, lines.drop_last());
        lemma_flush_keeps_nonempty(prev);
    }
}

proof fn lemma_aggregate_shape(suites: Seq<TestSuiteView>)
    ensures
        aggregate(suites).num_pending_tests == 0,
        aggregate(suites).run_time_ms == Some(0u64),
        aggregate(suites).start_time == 0,
        suites.len() <= u64::MAX ==> aggregate(suites).num_total_test_suites == suites.len(),
    decreases suites.len(),
{
    if suites.len() > 0 {
        lemma_aggregate_shape(suites.drop_last());
    }
}

/// Whatever lines a fresh parser is fed, finishing gives no run exactly
/// when no suite with a test was kept; a run holds exactly the kept suites,
/// in order, each with at least one test, starts at time 0 with a run time
/// of 0, has no pending test, and counts its suites.
pub proof fn law_stream_finalize<D: UnstructuredDialect>(repo_root: Seq<char>, dialect: D, lines: Seq<Seq<char>>)
    ensures
        ({
            let st = run_lines(
                StreamState { repo_root, dialect, suites: Seq::empty(), current: None },
                lines,
            );
            let f = flush_spec(st);
            &&& (finalize_spec(st) is None <==> f.suites.len() == 0)
            &&& (finalize_spec(st) matches Some(m) ==> {
                &&& m.test_results == f.suites
                &&& suites_nonempty(m.test_results)
                &&& m.start_time == 0
                &&& m.aggregated.num_pending_tests == 0
                &&& m.aggregated.run_time_ms == Some(0u64)
                &&& (m.test_results.len() <= u64::MAX ==> m.aggregated.num_total_test_suites
                    == m.test_results.len())
            })
        }),
{
    let st0 = StreamState { repo_root, dialect, suites: Seq::<TestSuiteView>::empty(), current: None };
    let st = run_lines(st0, lines);
    lemma_run_lines_nonempty(st0, lines);
    lemma_flush_keeps_nonempty(st);
    lemma_aggregate_shape(flush_spec(st).suites);
}


/// Before any suite header, a line that is no header is dropped: the parser
/// reports nothing and stays as it was.
pub proof fn law_unmatched_line_before_header<D: UnstructuredDialect>(st: StreamState<D>, line: Seq<char>)
    requires
        st.current is None,
        st.dialect.spec_suite_header(line) is None,
    ensures
        push_line_spec(st, line) == (st, Seq::<StreamEventView>::empty()),
{
}

/// Lines fed before any suite header leave a fresh parser as it was, so
/// they change nothing that later lines or finishing give.
pub proof fn law_lines_before_header<D: UnstructuredDialect>(st: StreamState<D>, lines: Seq<Seq<char>>)
    requires
        st.current is None,
        forall|i: int| 0 <= i < lines.len() ==> st.dialect.spec_suite_header(#[trigger] lines[i]) is None,
    ensures
        run_lines(st, lines) == st,
    decreases lines.len(),
{
    if lines.len() > 0 {
        let p = lines.drop_last();
        assert forall|i: int| 0 <= i < p.len() implies st.dialect.spec_suite_header(#[trigger] p[i]) is None by {
            assert(p[i] == lines[i]);
        }
        law_lines_before_header(st, p);
        assert(st.dialect.spec_suite_header(lines[lines.len() - 1]) is None);
    }
}


/// Whether reading a suite's lines from index `i` meets a test line before
/// it stops: status lines and other lines are passed over, failure and
/// panic blocks are skipped whole, and a block that does not fit stops the
/// reading (as [`scan`] does).
pub open spec fn has_test_line<D: UnstructuredDialect>(d: D, lines: Seq<Seq<char>>, i: int) -> bool
    decreases lines.len() - i,
{
    if i < 0 || i >= lines.len() {
        false
    } else {
        let line = lines[i];
        if d.spec_test_line(line) is Some {
            true
        } else if d.spec_status_only(line) is Some {
            has_test_line(d, lines, i + 1)
        } else {
            match d.spec_failure_block(lines, i) {
                Some((_, consumed, _)) => if consumed >= 1 && i + consumed <= lines.len() {
                    has_test_line(d, lines, i + consumed)
                } else {
                    false
                },
                None => match d.spec_panic_block(lines, i) {
                    Some((_, consumed, _)) => if consumed >= 1 && i + consumed <= lines.len() {
                        has_test_line(d, lines, i + consumed)
                    } else {
                        false
                    },
                    None => has_test_line(d, lines, i + 1),
                },
            }
        }
    }
}

proof fn lemma_scan_tests<D: UnstructuredDialect>(d: D, lines: Seq<Seq<char>>, i: int, st: ScanState)
    ensures
        scan(d, lines, i, st).tests.len() >= st.tests.len(),
        scan(d, lines, i, st).tests.len() > 0 <==> (st.tests.len() > 0 || has_test_line(d, lines, i)),
    decreases lines.len() - i,
{
    if !(i < 0 || i >= lines.len()) {
        let line = lines[i];
        match d.spec_test_line(line) {
            Some(ParsedTestLineView::Completed { name, status }) => {
                lemma_scan_tests(
                    d,
                    lines,
                    i + 1,
                    ScanState { tests: st.tests.push(new_case(name, status)), last_pending: None, ..st },
                );
            },
            Some(ParsedTestLineView::Pending { name, inline_output }) => {
                let tests = st.tests.push(new_case(name, "pending"@));
                let console = match inline_output {
                    Some(x) => if !is_blank(x) {
                        st.console.push(log_entry(x, d.spec_origin()))
                    } else {
                        st.console
                    },
                    None => st.console,
                };
                lemma_scan_tests(
                    d,
                    lines,
                    i + 1,
                    ScanState { tests, console, last_pending: Some(tests.len() - 1), failures: st.failures },
                );
            },
            None => match d.spec_status_only(line) {
                Some(status) => {
                    let tests = match st.last_pending {
                        Some(k) => if 0 <= k < st.tests.len() {
                            st.tests.update(k, with_status(st.tests[k], status))
                        } else {
                            st.tests
                        },
                        None => st.tests,
                    };
                    lemma_scan_tests(d, lines, i + 1, ScanState { tests, last_pending: None, ..st });
                },
                None => match d.spec_failure_block(lines, i) {
                    Some((name, consumed, text)) => if consumed >= 1 && i + consumed <= lines.len() {
                        lemma_scan_tests(
                            d,
                            lines,
                            i + consumed,
                            ScanState { failures: st.failures.push((name, text)), ..st },
                        );
                    },
                    None => match d.spec_panic_block(lines, i) {
                        Some((name, consumed, text)) => if consumed >= 1 && i + consumed <= lines.len() {
                            lemma_scan_tests(
                                d,
                                lines,
                                i + consumed,
                                ScanState { failures: st.failures.push((name, text)), ..st },
                            );
                        },
                        None => {
                            let console = if d.spec_keep_console(line) {
                                st.console.push(log_entry(line, d.spec_origin()))
                            } else {
                                st.console
                            };
                            lemma_scan_tests(d, lines, i + 1, ScanState { console, ..st });
                        },
                    },
                },
            },
        }
    }
}

/// A suite block's lines give a suite with a test exactly when reading
/// them meets a test line.
pub proof fn lemma_suite_has_tests<D: UnstructuredDialect>(
    repo_root: Seq<char>,
    d: D,
    source_path: Seq<char>,
    lines: Seq<Seq<char>>,
)
    ensures
        suite_spec(repo_root, d, source_path, lines).test_results.len() > 0 <==> has_test_line(d, lines, 0),
{
    lemma_scan_tests(d, lines, 0, scan_start());
}

/// The suite blocks of a stream: the blocks closed by a later header, and
/// the block still open (each a header's source path and the lines after
/// it); lines before the first header belong to no block.
pub open spec fn split_blocks<D: UnstructuredDialect>(d: D, lines: Seq<Seq<char>>) -> (
    Seq<(Seq<char>, Seq<Seq<char>>)>,
    Option<(Seq<char>, Seq<Seq<char>>)>,
)
    decreases lines.len(),
{
    if lines.len() == 0 {
        (Seq::empty(), None)
    } else {
        let (done, open) = split_blocks(d, lines.drop_last());
        let l = lines.last();
        match d.spec_suite_header(l) {
            Some(src) => (
                match open {
                    Some(b) => done.push(b),
                    None => done,
                },
                Some((src, Seq::<Seq<char>>::empty())),
            ),
            None => match open {
                Some(b) => (done, Some((b.0, b.1.push(l)))),
                None => (done, None),
            },
        }
    }
}

/// All the suite blocks of a stream, in header order.
pub open spec fn all_blocks<D: UnstructuredDialect>(d: D, lines: Seq<Seq<char>>) -> Seq<(Seq<char>, Seq<Seq<char>>)> {
    let (done, open) = split_blocks(d, lines);
    match open {
        Some(b) => done.push(b),
        None => done,
    }
}

/// The suites of the blocks that hold a test line, in order.
pub open spec fn kept_block_suites<D: UnstructuredDialect>(
    repo_root: Seq<char>,
    d: D,
    blocks: Seq<(Seq<char>, Seq<Seq<char>>)>,
) -> Seq<TestSuiteView>
    decreases blocks.len(),
{
    if blocks.len() == 0 {
        Seq::empty()
    } else {
        let r = kept_block_suites(repo_root, d, blocks.drop_last());
        let b = blocks.last();
        if has_test_line(d, b.1, 0) {
            r.push(suite_spec(repo_root, d, b.0, b.1))
        } else {
            r
        }
    }
}

proof fn lemma_run_lines_blocks<D: UnstructuredDialect>(repo_root: Seq<char>, dialect: D, lines: Seq<Seq<char>>)
    ensures
        ({
            let st = run_lines(StreamState { repo_root, dialect, suites: Seq::empty(), current: None }, lines);
            let (done, open) = split_blocks(dialect, lines);
            &&& st.repo_root == repo_root
            &&& st.dialect == dialect
            &&& st.suites == kept_block_suites(repo_root, dialect, done)
            &&& (st.current is None <==> open is None)
            &&& (open matches Some(b) ==> st.current->Some_0.source_path == b.0 && st.current->Some_0.lines
                == b.1)
        }),
    decreases lines.len(),
{
    if lines.len() > 0 {
        lemma_run_lines_blocks(repo_root, dialect, lines.drop_last());
        let prev = run_lines(
            StreamState { repo_root, dialect, suites: Seq::empty(), current: None },
            lines.drop_last(),
        );
        let (done, open) = split_blocks(dialect, lines.drop_last());
        let l = lines.last();
        match dialect.spec_suite_header(l) {
            Some(src) => {
                match open {
                    Some(b) => {
                        lemma_suite_has_tests(repo_root, dialect, b.0, b.1);
                        assert(done.push(b).drop_last() =~= done);
                    },
                    None => {},
                }
            },
            None => {},
        }
    }
}

/// Whatever lines a fresh parser is fed, finishing gives no run exactly
/// when no suite block (the lines after a header, up to the next header)
/// meets a test line before a block stops its reading; a run holds the
/// suites of exactly the blocks that do, in header order, each with at
/// least one test, and starts at time 0 with a run time of 0.
pub proof fn law_finalize_by_blocks<D: UnstructuredDialect>(repo_root: Seq<char>, dialect: D, lines: Seq<Seq<char>>)
    ensures
        ({
            let st = run_lines(StreamState { repo_root, dialect, suites: Seq::empty(), current: None }, lines);
            let blocks = all_blocks(dialect, lines);
            &&& (finalize_spec(st) is None <==> forall|k: int|
                0 <= k < blocks.len() ==> !has_test_line(dialect, (#[trigger] blocks[k]).1, 0))
            &&& (finalize_spec(st) matches Some(m) ==> {
                &&& m.test_results == kept_block_suites(repo_root, dialect, blocks)
                &&& suites_nonempty(m.test_results)
                &&& m.start_time == 0
                &&& m.aggregated.run_time_ms == Some(0u64)
            })
        }),
{
    let st0 = StreamState { repo_root, dialect, suites: Seq::<TestSuiteView>::empty(), current: None };
    let st = run_lines(st0, lines);
    let blocks = all_blocks(dialect, lines);
    lemma_run_lines_blocks(repo_root, dialect, lines);
    law_stream_finalize(repo_root, dialect, lines);
    let (done, open) = split_blocks(dialect, lines);
    match open {
        Some(b) => {
            lemma_suite_has_tests(repo_root, dialect, b.0, b.1);
            assert(done.push(b).drop_last() =~= done);
        },
        None => {},
    }
    assert(flush_spec(st).suites == kept_block_suites(repo_root, dialect, blocks));
    lemma_kept_empty_iff(repo_root, dialect, blocks);
}

proof fn lemma_kept_empty_iff<D: UnstructuredDialect>(
    repo_root: Seq<char>,
    d: D,
    blocks: Seq<(Seq<char>, Seq<Seq<char>>)>,
)
    ensures
        kept_block_suites(repo_root, d, blocks).len() == 0 <==> forall|k: int|
            0 <= k < blocks.len() ==> !has_test_line(d, (#[trigger] blocks[k]).1, 0),
    decreases blocks.len(),
{
    if blocks.len() > 0 {
        let p = blocks.drop_last();
        lemma_kept_empty_iff(repo_root, d, p);
        if forall|k: int| 0 <= k < blocks.len() ==> !has_test_line(d, (#[trigger] blocks[k]).1, 0) {
            assert forall|k: int| 0 <= k < p.len() implies !has_test_line(d, (#[trigger] p[k]).1, 0) by {
                assert(p[k] == blocks[k]);
            }
            assert(!has_test_line(d, blocks[blocks.len() - 1].1, 0));
        }
        if kept_block_suites(repo_root, d, blocks).len() == 0 {
            assert forall|k: int| 0 <= k < blocks.len() implies !has_test_line(d, (#[trigger] blocks[k]).1, 0) by {
                if k < p.len() {
                    assert(p[k] == blocks[k]);
                }
            }
        }
    }
}


/// How many results failed.
pub open spec fn failed_count(tests: Seq<TestCaseView>) -> nat
    decreases tests.len(),
{
    if tests.len() == 0 {
        0
    } else {
        failed_count(tests.drop_last()) + if tests.last().status == "failed"@ {
            1nat
        } else {
            0nat
        }
    }
}

/// How many failed results the suites hold in all.
pub open spec fn suites_failed_tests(suites: Seq<TestSuiteView>) -> nat
    decreases suites.len(),
{
    if suites.len() == 0 {
        0
    } else {
        suites_failed_tests(suites.drop_last()) + failed_count(suites.last().test_results)
    }
}

/// How many results the suites hold in all.
pub open spec fn suites_total_tests(suites: Seq<TestSuiteView>) -> nat
    decreases suites.len(),
{
    if suites.len() == 0 {
        0
    } else {
        suites_total_tests(suites.drop_last()) + suites.last().test_results.len()
    }
}

/// A suite's status is `failed` exactly when one of its results failed.
pub open spec fn status_agrees(s: TestSuiteView) -> bool {
    (s.status == "failed"@) <==> any_failed(s.test_results)
}

proof fn lemma_failed_count(tests: Seq<TestCaseView>)
    ensures
        failed_count(tests) <= tests.len(),
        any_failed(tests) <==> failed_count(tests) > 0,
        tests.len() <= u64::MAX ==> pass_fail_counts(tests) == (
            (tests.len() - failed_count(tests)) as u64,
            failed_count(tests) as u64,
        ),
    decreases tests.len(),
{
    if tests.len() > 0 {
        let p = tests.drop_last();
        lemma_failed_count(p);
        if any_failed(p) {
            let k = choose|k: int| 0 <= k < p.len() && (#[trigger] p[k]).status == "failed"@;
            assert(tests[k] == p[k]);
        }
        if any_failed(tests) {
            let k = choose|k: int| 0 <= k < tests.len() && (#[trigger] tests[k]).status == "failed"@;
            if k < p.len() {
                assert(p[k] == tests[k]);
            }
        }
        if tests.last().status == "failed"@ {
            assert(tests[tests.len() - 1].status == "failed"@);
        }
    }
}

proof fn lemma_aggregate_counts(suites: Seq<TestSuiteView>)
    requires
        suites_nonempty(suites),
        suites_total_tests(suites) <= u64::MAX,
    ensures
        suites.len() <= suites_total_tests(suites),
        suites_failed_tests(suites) <= suites_total_tests(suites),
        aggregate(suites).num_total_test_suites == suites.len(),
        aggregate(suites).num_total_tests == suites_total_tests(suites),
        aggregate(suites).num_failed_tests == suites_failed_tests(suites),
        aggregate(suites).num_passed_tests == suites_total_tests(suites) - suites_failed_tests(suites),
        aggregate(suites).success <==> forall|k: int| 0 <= k < suites.len() ==> (#[trigger] suites[k]).status
            != "failed"@,
    decreases suites.len(),
{
    if suites.len() > 0 {
        let p = suites.drop_last();
        assert forall|i: int| 0 <= i < p.len() implies (#[trigger] p[i]).test_results.len() > 0 by {
            assert(p[i] == suites[i]);
        }
        lemma_aggregate_counts(p);
        let l = suites.last();
        assert(l == suites[suites.len() - 1]);
        lemma_failed_count(l.test_results);
        if forall|k: int| 0 <= k < suites.len() ==> (#[trigger] suites[k]).status != "failed"@ {
            assert forall|k: int| 0 <= k < p.len() implies (#[trigger] p[k]).status != "failed"@ by {
                assert(p[k] == suites[k]);
            }
        }
        if forall|k: int| 0 <= k < p.len() ==> (#[trigger] p[k]).status != "failed"@ {
            if l.status != "failed"@ {
                assert forall|k: int| 0 <= k < suites.len() implies (#[trigger] suites[k]).status != "failed"@ by {
                    if k < p.len() {
                        assert(p[k] == suites[k]);
                    }
                }
            }
        }
    }
}

proof fn lemma_no_failed_suites(suites: Seq<TestSuiteView>)
    requires
        forall|k: int| 0 <= k < suites.len() ==> status_agrees(#[trigger] suites[k]),
    ensures
        (forall|k: int| 0 <= k < suites.len() ==> (#[trigger] suites[k]).status != "failed"@) <==> suites_failed_tests(
            suites,
        ) == 0,
    decreases suites.len(),
{
    if suites.len() > 0 {
        let p = suites.drop_last();
        assert forall|k: int| 0 <= k < p.len() implies status_agrees(#[trigger] p[k]) by {
            assert(p[k] == suites[k]);
        }
        lemma_no_failed_suites(p);
        let l = suites.last();
        assert(l == suites[suites.len() - 1]);
        assert(status_agrees(l));
        lemma_failed_count(l.test_results);
        if forall|k: int| 0 <= k < suites.len() ==> (#[trigger] suites[k]).status != "failed"@ {
            assert forall|k: int| 0 <= k < p.len() implies (#[trigger] p[k]).status != "failed"@ by {
                assert(p[k] == suites[k]);
            }
        }
        if suites_failed_tests(suites) == 0 {
            assert forall|k: int| 0 <= k < suites.len() implies (#[trigger] suites[k]).status != "failed"@ by {
                if k < p.len() {
                    assert(p[k] == suites[k]);
                }
            }
        }
    }
}

proof fn lemma_kept_agree<D: UnstructuredDialect>(
    repo_root: Seq<char>,
    d: D,
    blocks: Seq<(Seq<char>, Seq<Seq<char>>)>,
)
    ensures
        forall|k: int|
            0 <= k < kept_block_suites(repo_root, d, blocks).len() ==> status_agrees(
                #[trigger] kept_block_suites(repo_root, d, blocks)[k],
            ),
    decreases blocks.len(),
{
    if blocks.len() > 0 {
        lemma_kept_agree(repo_root, d, blocks.drop_last());
        let b = blocks.last();
        let sv = suite_spec(repo_root, d, b.0, b.1);
        reveal_strlit("passed");
        reveal_strlit("failed");
        assert("passed"@[0] != "failed"@[0]);
        assert(status_agrees(sv));
        let r = kept_block_suites(repo_root, d, blocks.drop_last());
        let kb = kept_block_suites(repo_root, d, blocks);
        assert forall|k: int| 0 <= k < kb.len() implies status_agrees(#[trigger] kb[k]) by {
            if k < r.len() {
                assert(kb[k] == r[k]);
            } else {
                assert(kb[k] == sv);
            }
        }
    }
}

/// Whatever lines a fresh parser is fed, a run it finishes with counts its
/// results: as many failed tests as the suites hold failed results, every
/// other result as passed (ignored ones too), none pending, as many tests
/// and suites as it holds, and it succeeds exactly when no test failed
/// (when the results number no more than `u64::MAX`, so that no count is
/// capped).
pub proof fn law_finalize_counts<D: UnstructuredDialect>(repo_root: Seq<char>, dialect: D, lines: Seq<Seq<char>>)
    ensures
        ({
            let st = run_lines(StreamState { repo_root, dialect, suites: Seq::empty(), current: None }, lines);
            finalize_spec(st) matches Some(m) ==> suites_total_tests(m.test_results) <= u64::MAX ==> {
                let a = m.aggregated;
                &&& a.num_total_test_suites == m.test_results.len()
                &&& a.num_total_tests == suites_total_tests(m.test_results)
                &&& a.num_failed_tests == suites_failed_tests(m.test_results)
                &&& a.num_passed_tests == suites_total_tests(m.test_results) - suites_failed_tests(
                    m.test_results,
                )
                &&& a.num_pending_tests == 0
                &&& (a.success <==> a.num_failed_tests == 0)
            }
        }),
{
    let st0 = StreamState { repo_root, dialect, suites: Seq::<TestSuiteView>::empty(), current: None };
    let st = run_lines(st0, lines);
    law_finalize_by_blocks(repo_root, dialect, lines);
    law_stream_finalize(repo_root, dialect, lines);
    if let Some(m) = finalize_spec(st) {
        if suites_total_tests(m.test_results) <= u64::MAX {
            lemma_kept_agree(repo_root, dialect, all_blocks(dialect, lines));
            lemma_aggregate_counts(m.test_results);
            lemma_no_failed_suites(m.test_results);
        }
    }
}


/// The name and status of a completed test line (empty for any other).
pub open spec fn completed_parts(o: Option<ParsedTestLineView>) -> (Seq<char>, Seq<char>) {
    match o {
        Some(ParsedTestLineView::Completed { name, status }) => (name, status),
        _ => (Seq::empty(), Seq::empty()),
    }
}

proof fn lemma_scan_completed<D: UnstructuredDialect>(d: D, lines: Seq<Seq<char>>, i: int, st: ScanState)
    requires
        0 <= i <= lines.len(),
        forall|k: int| i <= k < lines.len() ==> (#[trigger] d.spec_test_line(lines[k])) matches Some(
            ParsedTestLineView::Completed { .. },
        ),
    ensures
        scan(d, lines, i, st).tests.len() == st.tests.len() + (lines.len() - i),
        forall|k: int| 0 <= k < st.tests.len() ==> #[trigger] scan(d, lines, i, st).tests[k] == st.tests[k],
        forall|k: int|
            i <= k < lines.len() ==> #[trigger] scan(d, lines, i, st).tests[st.tests.len() + k - i] == new_case(
                completed_parts(d.spec_test_line(lines[k])).0,
                completed_parts(d.spec_test_line(lines[k])).1,
            ),
    decreases lines.len() - i,
{
    if i < lines.len() {
        let parts = completed_parts(d.spec_test_line(lines[i]));
        assert(d.spec_test_line(lines[i]) matches Some(ParsedTestLineView::Completed { .. }));
        let st2 = ScanState {
            tests: st.tests.push(new_case(parts.0, parts.1)),
            last_pending: None,
            ..st
        };
        assert(scan(d, lines, i, st) == scan(d, lines, i + 1, st2));
        lemma_scan_completed(d, lines, i + 1, st2);
        let r = scan(d, lines, i, st);
        assert forall|k: int| 0 <= k < st.tests.len() implies #[trigger] r.tests[k] == st.tests[k] by {
            assert(r.tests[k] == st2.tests[k]);
        }
        assert forall|k: int| i <= k < lines.len() implies #[trigger] r.tests[st.tests.len() + k - i] == new_case(
            completed_parts(d.spec_test_line(lines[k])).0,
            completed_parts(d.spec_test_line(lines[k])).1,
        ) by {
            if k == i {
                assert(r.tests[st.tests.len() + k - i] == st2.tests[st.tests.len() as int]);
            } else {
                assert(r.tests[st.tests.len() + k - i] == r.tests[st2.tests.len() + k - (i + 1)]);
            }
        }
    }
}

/// A suite block made only of completed test lines gives one case per
/// line, in order, each with the name and status its line reads.
pub proof fn law_completed_lines_give_cases<D: UnstructuredDialect>(
    repo_root: Seq<char>,
    d: D,
    source_path: Seq<char>,
    lines: Seq<Seq<char>>,
)
    requires
        forall|k: int| 0 <= k < lines.len() ==> (#[trigger] d.spec_test_line(lines[k])) matches Some(
            ParsedTestLineView::Completed { .. },
        ),
    ensures
        suite_spec(repo_root, d, source_path, lines).test_results.len() == lines.len(),
        forall|k: int|
            0 <= k < lines.len() ==> (#[trigger] suite_spec(repo_root, d, source_path, lines).test_results[k]).title
                == completed_parts(d.spec_test_line(lines[k])).0 && suite_spec(
                repo_root,
                d,
                source_path,
                lines,
            ).test_results[k].status == completed_parts(d.spec_test_line(lines[k])).1,
{
    lemma_scan_completed(d, lines, 0, scan_start());
    let st = scan(d, lines, 0, scan_start());
    let t = suite_spec(repo_root, d, source_path, lines).test_results;
    assert forall|k: int| 0 <= k < lines.len() implies (#[trigger] t[k]).title == completed_parts(
        d.spec_test_line(lines[k]),
    ).0 && t[k].status == completed_parts(d.spec_test_line(lines[k])).1 by {
        assert(st.tests[0 + k - 0] == st.tests[k]);
        assert(t[k] == apply_failure(st.tests[k], st.failures));
    }
}

} // verus!
