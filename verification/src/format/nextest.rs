//! The libtest-JSON stream of cargo-nextest: suite events name the test
//! binaries, test events update results grouped by binary, and plain text
//! lines are kept as logs of the first suite.
use crate::format::case_map::{
    case_insert, case_lookup, case_put, case_remove, case_take, count_status, count_with_status,
    lemma_count_status_bound, new_pending_case, pending_case, suite_location, suite_location_spec,
};
use crate::format::libtest_json::{json_object_line, json_object_text};
use crate::format::time::Duration;
use crate::path_names::{path_exists, path_join, path_join_of};
use crate::test_model::{
    case_views, console_views, opt_seq, TestCaseResult, TestCaseView, TestConsoleEntry,
    TestConsoleEntryView, TestRunAggregated, TestRunModel, TestSuiteResult, TestSuiteView,
};
use crate::text::{
    concat3, is_blank, is_blank_str, lines, lines_of, owned, seq_lt, split_char, split_char_str,
    split_once, split_once_str, str_eq, str_lt, trim, trim_str, views,
};
use vstd::prelude::*;

verus! {

/// What a test event reports, for showing progress.
#[derive(Debug, Clone)]
pub struct NextestStreamUpdate {
    pub suite_path: String,
    pub test_name: String,
    pub status: String,
    pub duration: Option<Duration>,
    pub stdout: Option<String>,
}

/// The test binary a suite event names.
#[derive(Debug, Clone)]
pub struct NextestMeta {
    pub crate_name: String,
    pub test_binary: String,
    pub kind: String,
}

/// One decoded line of the stream. A test's run time comes both as a
/// duration and as whole milliseconds (0 when the event gives none).
#[derive(Debug, Clone)]
pub enum NextestEvent {
    Suite { event: String, nextest: Option<NextestMeta> },
    Test {
        event: String,
        name: String,
        duration: Option<Duration>,
        duration_ms: u64,
        stdout: Option<String>,
    },
}

/// A suite is one test binary of one crate.
#[derive(Debug, Clone)]
pub struct SuiteKey {
    pub crate_name: String,
    pub test_binary: String,
    pub kind: String,
}

pub struct SuiteKeyView {
    pub crate_name: Seq<char>,
    pub test_binary: Seq<char>,
    pub kind: Seq<char>,
}

impl View for SuiteKey {
    type V = SuiteKeyView;

    open spec fn view(&self) -> SuiteKeyView {
        SuiteKeyView {
            crate_name: self.crate_name@,
            test_binary: self.test_binary@,
            kind: self.kind@,
        }
    }
}

/// Keys in order of crate, then binary, then kind.
pub open spec fn key_lt(a: SuiteKeyView, b: SuiteKeyView) -> bool {
    ||| seq_lt(a.crate_name, b.crate_name)
    ||| a.crate_name == b.crate_name && seq_lt(a.test_binary, b.test_binary)
    ||| a.crate_name == b.crate_name && a.test_binary == b.test_binary && seq_lt(a.kind, b.kind)
}

/// One suite being filled: its results in title order and its logs.
pub struct SuiteAcc {
    pub key: SuiteKey,
    pub tests: Vec<TestCaseResult>,
    pub console_entries: Vec<TestConsoleEntry>,
}

pub struct SuiteAccView {
    pub key: SuiteKeyView,
    pub tests: Seq<TestCaseView>,
    pub console: Seq<TestConsoleEntryView>,
}

impl View for SuiteAcc {
    type V = SuiteAccView;

    open spec fn view(&self) -> SuiteAccView {
        SuiteAccView {
            key: self.key@,
            tests: case_views(self.tests@),
            console: console_views(self.console_entries@),
        }
    }
}

pub open spec fn acc_views(v: Seq<SuiteAcc>) -> Seq<SuiteAccView> {
    v.map_values(|a: SuiteAcc| a@)
}

pub open spec fn kind_views(v: Seq<(String, String, String)>) -> Seq<(Seq<char>, Seq<char>, Seq<char>)> {
    v.map_values(|t: (String, String, String)| (t.0@, t.1@, t.2@))
}

/// The parser's state: the repository root, the suites in key order, the
/// kinds that suite events gave each crate and binary, and the plain text
/// lines seen.
pub struct NextestStreamParser {
    repo_root: String,
    suites: Vec<SuiteAcc>,
    kinds: Vec<(String, String, String)>,
    loose_log_lines: Vec<String>,
}

pub struct NextestParserView {
    pub repo_root: Seq<char>,
    pub suites: Seq<SuiteAccView>,
    pub kinds: Seq<(Seq<char>, Seq<char>, Seq<char>)>,
    pub loose: Seq<Seq<char>>,
}

impl View for NextestStreamParser {
    type V = NextestParserView;

    closed spec fn view(&self) -> NextestParserView {
        NextestParserView {
            repo_root: self.repo_root@,
            suites: acc_views(self.suites@),
            kinds: kind_views(self.kinds@),
            loose: views(self.loose_log_lines@),
        }
    }
}

/// The kind last recorded for a crate and binary.
pub open spec fn kind_lookup(ks: Seq<(Seq<char>, Seq<char>, Seq<char>)>, c: Seq<char>, b: Seq<char>) -> Option<
    Seq<char>,
>
    decreases ks.len(),
{
    if ks.len() == 0 {
        None
    } else if ks.last().0 == c && ks.last().1 == b {
        Some(ks.last().2)
    } else {
        kind_lookup(ks.drop_last(), c, b)
    }
}

/// How many leading suites have a key before `k`.
pub open spec fn count_key_lt(s: Seq<SuiteAccView>, k: SuiteKeyView) -> nat
    decreases s.len(),
{
    if s.len() == 0 || !key_lt(s[0].key, k) {
        0
    } else {
        1 + count_key_lt(s.drop_first(), k)
    }
}

pub open spec fn empty_acc(k: SuiteKeyView) -> SuiteAccView {
    SuiteAccView { key: k, tests: Seq::empty(), console: Seq::empty() }
}

/// Whether the suite where `k` belongs is the suite of `k`.
pub open spec fn has_suite(s: Seq<SuiteAccView>, k: SuiteKeyView) -> bool {
    let p = count_key_lt(s, k) as int;
    p < s.len() && s[p].key == k
}

/// The suites with one for `k` added where it belongs, unless it is there.
pub open spec fn ensure_suite(s: Seq<SuiteAccView>, k: SuiteKeyView) -> Seq<SuiteAccView> {
    if has_suite(s, k) {
        s
    } else {
        s.insert(count_key_lt(s, k) as int, empty_acc(k))
    }
}

/// The crate, binary and kind of a test named `crate::binary$path`: the
/// kind recorded for them, else `test`; `None` without a `::`.
pub open spec fn suite_key_spec(name: Seq<char>, ks: Seq<(Seq<char>, Seq<char>, Seq<char>)>) -> Option<SuiteKeyView> {
    match split_once(name, "::"@) {
        None => None,
        Some((c, rest)) => {
            let b = match split_once(rest, seq!['$']) {
                Some((b, _)) => b,
                None => rest,
            };
            Some(
                SuiteKeyView {
                    crate_name: c,
                    test_binary: b,
                    kind: match kind_lookup(ks, c, b) {
                        Some(k) => k,
                        None => "test"@,
                    },
                },
            )
        },
    }
}

/// The test's own name: what follows the first `$` (up to a next one),
/// the whole name when there is no `$`.
pub open spec fn simplify_name_spec(full: Seq<char>) -> Seq<char> {
    let parts = split_char(full, '$');
    if parts.len() > 1 {
        parts[1]
    } else {
        full
    }
}

/// The source file shown for a suite: under the crate's own directory
/// when it holds a manifest, else under the repository root; `src/lib.rs`
/// for a library, `tests/<binary>.rs` for a test, `benches/<binary>.rs`
/// for a bench, the binary's name otherwise.
pub open spec fn display_path_spec(repo_root: Seq<char>, k: SuiteKeyView, has_manifest: bool) -> Seq<char> {
    let pkg = if has_manifest {
        path_join_of(repo_root, k.crate_name)
    } else {
        repo_root
    };
    let rel = if k.kind == "lib"@ {
        "src/lib.rs"@
    } else if k.kind == "test"@ {
        "tests/"@ + k.test_binary + ".rs"@
    } else if k.kind == "bench"@ {
        "benches/"@ + k.test_binary + ".rs"@
    } else {
        k.test_binary
    };
    path_join_of(pkg, rel)
}

/// The status a test event gives: `ok` passes, `failed` fails, `ignored`
/// is pending.
pub open spec fn nextest_status(event: Seq<char>) -> Option<Seq<char>> {
    if event == "ok"@ {
        Some("passed"@)
    } else if event == "failed"@ {
        Some("failed"@)
    } else if event == "ignored"@ {
        Some("pending"@)
    } else {
        None
    }
}

/// A test's result after an event: its earlier result (or a pending one
/// with the event's run time) with the new status and run time; a failure
/// with output keeps the output as its message and, when it had none, the
/// location the output names in the suite's file.
pub open spec fn nextest_case(
    existing: Option<TestCaseView>,
    name: Seq<char>,
    status: Seq<char>,
    millis: u64,
    stdout: Option<Seq<char>>,
    suite_path: Seq<char>,
) -> TestCaseView {
    let base = match existing {
        Some(c) => c,
        None => pending_case(name, millis),
    };
    let c1 = TestCaseView { status, duration: millis, ..base };
    match stdout {
        Some(o) => if status == "failed"@ && !is_blank(o) {
            let c2 = TestCaseView { failure_messages: seq![o], ..c1 };
            if c2.location is None {
                TestCaseView { location: suite_location_spec(o, suite_path), ..c2 }
            } else {
                c2
            }
        } else {
            c1
        },
        None => c1,
    }
}

/// A log entry of the suite made from one line of output.
pub open spec fn log_entry_view(line: Seq<char>) -> TestConsoleEntryView {
    TestConsoleEntryView {
        message: Some(line),
        entry_type: Some("log"@),
        origin: Some("cargo-nextest"@),
    }
}

/// Log entries of the trimmed, non-empty lines.
pub open spec fn log_entries(ls: Seq<Seq<char>>) -> Seq<TestConsoleEntryView>
    decreases ls.len(),
{
    if ls.len() == 0 {
        Seq::empty()
    } else {
        let rest = log_entries(ls.drop_last());
        let t = trim(ls.last());
        if t.len() == 0 {
            rest
        } else {
            rest.push(log_entry_view(t))
        }
    }
}

/// The log entries a test's output adds to its suite.
pub open spec fn output_entries(stdout: Option<Seq<char>>) -> Seq<TestConsoleEntryView> {
    match stdout {
        Some(o) => if is_blank(o) {
            Seq::empty()
        } else {
            log_entries(lines(o))
        },
        None => Seq::empty(),
    }
}

/// The suites after a test event of suite `k` for test `name`.
pub open spec fn after_test_event(
    s: Seq<SuiteAccView>,
    k: SuiteKeyView,
    name: Seq<char>,
    status: Seq<char>,
    millis: u64,
    stdout: Option<Seq<char>>,
    suite_path: Seq<char>,
) -> Seq<SuiteAccView> {
    let e = ensure_suite(s, k);
    let p = count_key_lt(s, k) as int;
    let acc = e[p];
    let c = nextest_case(case_lookup(acc.tests, name), name, status, millis, stdout, suite_path);
    e.update(
        p,
        SuiteAccView {
            key: acc.key,
            tests: case_insert(case_remove(acc.tests, name), c),
            console: acc.console + output_entries(stdout),
        },
    )
}

/// The test's own name (see [`simplify_name_spec`]).
pub fn simplify_nextest_test_name(full: &str) -> (res: String)
    ensures
        res@ == simplify_name_spec(full@),
{
    let parts = split_char_str(full, '$');
    if parts.len() > 1 {
        owned(parts[1].as_str())
    } else {
        owned(full)
    }
}

fn kind_lookup_exec(ks: &Vec<(String, String, String)>, c: &str, b: &str) -> (res: Option<String>)
    ensures
        opt_seq(res) == kind_lookup(kind_views(ks@), c@, b@),
{
    let mut i: usize = ks.len();
    let ghost kv = kind_views(ks@);
    assert(kv.take(ks.len() as int) =~= kv);
    while i > 0
        invariant
            i <= ks.len(),
            kv == kind_views(ks@),
            kind_lookup(kv, c@, b@) == kind_lookup(kv.take(i as int), c@, b@),
        decreases i,
    {
        assert(kv.take(i as int).drop_last() =~= kv.take(i - 1));
        assert(kv.take(i as int).last() == kv[i - 1]);
        if str_eq(ks[i - 1].0.as_str(), c) && str_eq(ks[i - 1].1.as_str(), b) {
            return Some(owned(ks[i - 1].2.as_str()));
        }
        i = i - 1;
    }
    None
}

/// The suite a test belongs to (see [`suite_key_spec`]).
pub fn suite_key_from_test_name(full_name: &str, ks: &Vec<(String, String, String)>) -> (res: Option<SuiteKey>)
    ensures
        match res {
            Some(k) => suite_key_spec(full_name@, kind_views(ks@)) == Some(k@),
            None => suite_key_spec(full_name@, kind_views(ks@)) is None,
        },
{
    proof {
        reveal_strlit("$");
        assert("$"@ =~= seq!['$']);
    }
    let (c, rest) = match split_once_str(full_name, "::") {
        Some(p) => p,
        None => {
            return None;
        },
    };
    let b = match split_once_str(rest.as_str(), "$") {
        Some((b, _)) => b,
        None => rest,
    };
    let kind = match kind_lookup_exec(ks, c.as_str(), b.as_str()) {
        Some(k) => k,
        None => owned("test"),
    };
    Some(SuiteKey { crate_name: c, test_binary: b, kind })
}

/// The source file shown for a suite; whether the crate's directory holds
/// a manifest is read from the disk.
pub fn suite_display_path(repo_root: &str, key: &SuiteKey) -> (res: String)
    ensures
        exists|b: bool| res@ == display_path_spec(repo_root@, key@, b),
{
    let candidate = path_join(repo_root, key.crate_name.as_str());
    let manifest = path_join(candidate.as_str(), "Cargo.toml");
    let has_manifest = path_exists(manifest.as_str());
    let res = suite_display_path_with(repo_root, key, has_manifest);
    assert(res@ == display_path_spec(repo_root@, key@, has_manifest));
    res
}

/// The source file shown for a suite, given whether the crate's directory
/// holds a manifest.
pub fn suite_display_path_with(repo_root: &str, key: &SuiteKey, has_manifest: bool) -> (res: String)
    ensures
        res@ == display_path_spec(repo_root@, key@, has_manifest),
{
    let pkg = if has_manifest {
        path_join(repo_root, key.crate_name.as_str())
    } else {
        owned(repo_root)
    };
    proof {
        reveal_strlit("lib");
        reveal_strlit("test");
        reveal_strlit("bench");
    }
    let rel = if str_eq(key.kind.as_str(), "lib") {
        owned("src/lib.rs")
    } else if str_eq(key.kind.as_str(), "test") {
        concat3("tests/", key.test_binary.as_str(), ".rs")
    } else if str_eq(key.kind.as_str(), "bench") {
        concat3("benches/", key.test_binary.as_str(), ".rs")
    } else {
        owned(key.test_binary.as_str())
    };
    path_join(pkg.as_str(), rel.as_str())
}

fn key_lt_exec(a: &SuiteKey, b: &SuiteKey) -> (res: bool)
    ensures
        res == key_lt(a@, b@),
{
    if str_lt(a.crate_name.as_str(), b.crate_name.as_str()) {
        return true;
    }
    if !str_eq(a.crate_name.as_str(), b.crate_name.as_str()) {
        return false;
    }
    if str_lt(a.test_binary.as_str(), b.test_binary.as_str()) {
        return true;
    }
    if !str_eq(a.test_binary.as_str(), b.test_binary.as_str()) {
        return false;
    }
    str_lt(a.kind.as_str(), b.kind.as_str())
}

fn key_eq_exec(a: &SuiteKey, b: &SuiteKey) -> (res: bool)
    ensures
        res == (a@ == b@),
{
    str_eq(a.crate_name.as_str(), b.crate_name.as_str()) && str_eq(
        a.test_binary.as_str(),
        b.test_binary.as_str(),
    ) && str_eq(a.kind.as_str(), b.kind.as_str())
}

proof fn lemma_count_key_step(s: Seq<SuiteAccView>, i: int, k: SuiteKeyView)
    requires
        0 <= i < s.len(),
        key_lt(s[i].key, k),
    ensures
        count_key_lt(s.skip(i), k) == 1 + count_key_lt(s.skip(i + 1), k),
{
    assert(s.skip(i).drop_first() =~= s.skip(i + 1));
}

fn suite_position(v: &Vec<SuiteAcc>, k: &SuiteKey) -> (p: usize)
    ensures
        p == count_key_lt(acc_views(v@), k@),
        p <= v.len(),
{
    let ghost s = acc_views(v@);
    let mut i: usize = 0;
    assert(s.skip(0) =~= s);
    while i < v.len() && key_lt_exec(&v[i].key, k)
        invariant
            i <= v.len(),
            s == acc_views(v@),
            count_key_lt(s, k@) == i + count_key_lt(s.skip(i as int), k@),
        decreases v.len() - i,
    {
        proof {
            lemma_count_key_step(s, i as int, k@);
        }
        i = i + 1;
    }
    proof {
        if i < v.len() {
            assert(s.skip(i as int)[0] == s[i as int]);
        } else {
            assert(s.skip(i as int).len() == 0);
        }
    }
    i
}

fn copy_key(k: &SuiteKey) -> (res: SuiteKey)
    ensures
        res@ == k@,
{
    SuiteKey {
        crate_name: owned(k.crate_name.as_str()),
        test_binary: owned(k.test_binary.as_str()),
        kind: owned(k.kind.as_str()),
    }
}

/// Adds an empty suite for `k` where it belongs unless it is there; gives
/// the suite's position.
fn ensure_suite_exec(v: &mut Vec<SuiteAcc>, k: &SuiteKey) -> (p: usize)
    ensures
        acc_views(final(v)@) == ensure_suite(acc_views(old(v)@), k@),
        p == count_key_lt(acc_views(old(v)@), k@),
        p < final(v).len(),
        final(v)@[p as int]@.key == k@,
{
    let ghost s = acc_views(v@);
    let p = suite_position(v, k);
    if p < v.len() && key_eq_exec(&v[p].key, k) {
        return p;
    }
    let acc = SuiteAcc { key: copy_key(k), tests: Vec::new(), console_entries: Vec::new() };
    assert(acc@.tests =~= Seq::<TestCaseView>::empty());
    assert(acc@.console =~= Seq::<TestConsoleEntryView>::empty());
    assert(acc@ == empty_acc(k@));
    v.insert(p, acc);
    assert(acc_views(v@) =~= s.insert(p as int, empty_acc(k@)));
    p
}

fn log_entry(line: &str) -> (res: TestConsoleEntry)
    ensures
        res@ == log_entry_view(line@),
{
    TestConsoleEntry {
        message: Some(owned(line)),
        entry_type: Some(owned("log")),
        origin: Some(owned("cargo-nextest")),
    }
}

/// Adds a log entry for each trimmed, non-empty line of a test's output.
fn extend_console_entries(entries: &mut Vec<TestConsoleEntry>, stdout: &Option<String>)
    ensures
        console_views(final(entries)@) == console_views(old(entries)@) + output_entries(opt_seq(*stdout)),
{
    let ghost start = console_views(entries@);
    match stdout {
        Some(o) => {
            if is_blank_str(o.as_str()) {
                assert(start + Seq::<TestConsoleEntryView>::empty() =~= start);
                return;
            }
            let ls = lines_of(o.as_str());
            let ghost lv = views(ls@);
            let mut i: usize = 0;
            assert(start + log_entries(lv.take(0)) =~= start) by {
                assert(lv.take(0) =~= Seq::<Seq<char>>::empty());
            }
            while i < ls.len()
                invariant
                    i <= ls.len(),
                    lv == views(ls@),
                    console_views(entries@) == start + log_entries(lv.take(i as int)),
                decreases ls.len() - i,
            {
                assert(lv.take(i + 1).drop_last() =~= lv.take(i as int));
                assert(lv.take(i + 1).last() == ls@[i as int]@);
                let t = trim_str(ls[i].as_str());
                let ghost before = console_views(entries@);
                if !t.as_str().is_empty() {
                    entries.push(log_entry(t.as_str()));
                    assert(console_views(entries@) =~= before.push(log_entry_view(t@)));
                }
                i = i + 1;
            }
            assert(lv.take(ls.len() as int) =~= lv);
        },
        None => {
            assert(start + Seq::<TestConsoleEntryView>::empty() =~= start);
        },
    }
}

/// The result of a test brought up to date by a test event.
fn update_nextest_case(
    existing: Option<TestCaseResult>,
    name: &str,
    status: &str,
    millis: u64,
    stdout: &Option<String>,
    suite_path: &str,
) -> (res: TestCaseResult)
    ensures
        res@ == nextest_case(
            match existing {
                Some(c) => Some(c@),
                None => None,
            },
            name@,
            status@,
            millis,
            opt_seq(*stdout),
            suite_path@,
        ),
{
    let mut c = match existing {
        Some(c) => c,
        None => new_pending_case(name, millis),
    };
    c.status = owned(status);
    c.duration = millis;
    proof {
        reveal_strlit("failed");
    }
    match stdout {
        Some(o) => {
            if str_eq(status, "failed") && !is_blank_str(o.as_str()) {
                let mut msgs: Vec<String> = Vec::new();
                msgs.push(owned(o.as_str()));
                c.failure_messages = msgs;
                assert(c@.failure_messages =~= seq![o@]);
                if c.location.is_none() {
                    c.location = suite_location(o.as_str(), suite_path);
                }
            }
        },
        None => {},
    }
    c
}

/// The run model of the suites that hold results: counts over them and
/// the clock reading `start_time`.
pub open spec fn nextest_aggregate(suites: Seq<TestSuiteView>, start_time: u64) -> TestRunAggregated {
    let failed_suites = count_suite_status(suites, "failed"@);
    let failed_tests = sum_status(suites, "failed"@);
    TestRunAggregated {
        num_total_test_suites: suites.len() as u64,
        num_passed_test_suites: (suites.len() - failed_suites) as u64,
        num_failed_test_suites: failed_suites as u64,
        num_total_tests: sum_len(suites),
        num_passed_tests: sum_status(suites, "passed"@),
        num_failed_tests: failed_tests,
        num_pending_tests: sum_status(suites, "pending"@),
        num_todo_tests: 0,
        num_timed_out_tests: None,
        num_timed_out_test_suites: None,
        start_time,
        success: failed_suites == 0 && failed_tests == 0,
        run_time_ms: None,
    }
}

/// How many suites have status `st`.
pub open spec fn count_suite_status(s: Seq<TestSuiteView>, st: Seq<char>) -> nat
    decreases s.len(),
{
    if s.len() == 0 {
        0
    } else {
        count_suite_status(s.drop_last(), st) + if s.last().status == st {
            1nat
        } else {
            0nat
        }
    }
}

/// The number of results over all suites (capped at `u64::MAX`).
pub open spec fn sum_len(s: Seq<TestSuiteView>) -> u64
    decreases s.len(),
{
    if s.len() == 0 {
        0
    } else {
        crate::format::unstructured_engine::sat_add(sum_len(s.drop_last()), s.last().test_results.len())
    }
}

/// The number of results with status `st` over all suites (capped at
/// `u64::MAX`).
pub open spec fn sum_status(s: Seq<TestSuiteView>, st: Seq<char>) -> u64
    decreases s.len(),
{
    if s.len() == 0 {
        0
    } else {
        crate::format::unstructured_engine::sat_add(
            sum_status(s.drop_last(), st),
            count_status(s.last().test_results, st),
        )
    }
}

proof fn lemma_count_suite_status_bound(s: Seq<TestSuiteView>, st: Seq<char>)
    ensures
        count_suite_status(s, st) <= s.len(),
    decreases s.len(),
{
    if s.len() > 0 {
        lemma_count_suite_status_bound(s.drop_last(), st);
    }
}

/// The run model of `suites` with the counts over them.
pub fn build_run_model(suites: Vec<TestSuiteResult>, start_time: u64) -> (res: TestRunModel)
    ensures
        res@.start_time == start_time,
        res@.test_results == crate::test_model::suite_views(suites@),
        res.aggregated == nextest_aggregate(crate::test_model::suite_views(suites@), start_time),
{
    let ghost sv = crate::test_model::suite_views(suites@);
    let mut failed_suites: u64 = 0;
    let mut total_tests: u64 = 0;
    let mut passed: u64 = 0;
    let mut failed: u64 = 0;
    let mut pending: u64 = 0;
    let mut i: usize = 0;
    while i < suites.len()
        invariant
            i <= suites.len(),
            sv == crate::test_model::suite_views(suites@),
            failed_suites == count_suite_status(sv.take(i as int), "failed"@),
            failed_suites <= i,
            total_tests == sum_len(sv.take(i as int)),
            passed == sum_status(sv.take(i as int), "passed"@),
            failed == sum_status(sv.take(i as int), "failed"@),
            pending == sum_status(sv.take(i as int), "pending"@),
        decreases suites.len() - i,
    {
        assert(sv.take(i + 1).drop_last() =~= sv.take(i as int));
        assert(sv.take(i + 1).last() == suites@[i as int]@);
        let s = &suites[i];
        if str_eq(s.status.as_str(), "failed") {
            failed_suites = failed_suites + 1;
        }
        total_tests = total_tests.saturating_add(s.test_results.len() as u64);
        proof {
            lemma_count_status_bound(case_views(s.test_results@), "passed"@);
            lemma_count_status_bound(case_views(s.test_results@), "failed"@);
            lemma_count_status_bound(case_views(s.test_results@), "pending"@);
        }
        passed = passed.saturating_add(count_with_status(&s.test_results, "passed"));
        failed = failed.saturating_add(count_with_status(&s.test_results, "failed"));
        pending = pending.saturating_add(count_with_status(&s.test_results, "pending"));
        i = i + 1;
    }
    assert(sv.take(suites.len() as int) =~= sv);
    let total_suites = suites.len() as u64;
    TestRunModel {
        start_time,
        test_results: suites,
        aggregated: TestRunAggregated {
            num_total_test_suites: total_suites,
            num_passed_test_suites: total_suites - failed_suites,
            num_failed_test_suites: failed_suites,
            num_total_tests: total_tests,
            num_passed_tests: passed,
            num_failed_tests: failed,
            num_pending_tests: pending,
            num_todo_tests: 0,
            num_timed_out_tests: None,
            num_timed_out_test_suites: None,
            start_time,
            success: failed_suites == 0 && failed == 0,
            run_time_ms: None,
        },
    }
}

/// A finished suite: its results in title order, `failed` when one failed,
/// its logs when it has any, shown at `path`.
pub open spec fn finalized_suite(acc: SuiteAccView, path: Seq<char>) -> TestSuiteView {
    TestSuiteView {
        test_file_path: path,
        status: if count_status(acc.tests, "failed"@) > 0 {
            "failed"@
        } else {
            "passed"@
        },
        timed_out: None,
        failure_message: Seq::empty(),
        failure_details: None,
        test_exec_error: None,
        console: if acc.console.len() == 0 {
            None
        } else {
            Some(acc.console)
        },
        test_results: acc.tests,
    }
}

/// The plain text lines as log entries.
pub open spec fn loose_entries(ls: Seq<Seq<char>>) -> Seq<TestConsoleEntryView> {
    ls.map_values(|l: Seq<char>| log_entry_view(l))
}

/// The suites at the end of the stream: the plain text lines become logs
/// of the first suite.
pub open spec fn with_loose(p: NextestParserView) -> Seq<SuiteAccView> {
    if p.loose.len() > 0 && p.suites.len() > 0 {
        p.suites.update(
            0,
            SuiteAccView { console: p.suites[0].console + loose_entries(p.loose), ..p.suites[0] },
        )
    } else {
        p.suites
    }
}

/// The suites that hold results.
pub open spec fn nonempty_suites(s: Seq<SuiteAccView>) -> Seq<SuiteAccView>
    decreases s.len(),
{
    if s.len() == 0 {
        Seq::empty()
    } else if s.last().tests.len() == 0 {
        nonempty_suites(s.drop_last())
    } else {
        nonempty_suites(s.drop_last()).push(s.last())
    }
}

/// A run model that finishes the stream `p`: each suite that holds results,
/// in key order, shown at its source file.
pub open spec fn nextest_model_ok(p: NextestParserView, m: TestRunModel) -> bool {
    let kept = nonempty_suites(with_loose(p));
    &&& m@.test_results.len() == kept.len()
    &&& forall|i: int|
        0 <= i < kept.len() ==> #[trigger] m@.test_results[i] == finalized_suite(
            kept[i],
            m@.test_results[i].test_file_path,
        ) && exists|b: bool|
            m@.test_results[i].test_file_path == display_path_spec(p.repo_root, kept[i].key, b)
    &&& m.aggregated == nextest_aggregate(m@.test_results, m@.start_time)
}

/// The state after a suite event.
pub open spec fn suite_event_next(o: NextestParserView, event: Seq<char>, nextest: Option<NextestMeta>) -> NextestParserView {
    match nextest {
        None => o,
        Some(m) => {
            let k = SuiteKeyView { crate_name: m.crate_name@, test_binary: m.test_binary@, kind: m.kind@ };
            NextestParserView {
                kinds: o.kinds.push((m.crate_name@, m.test_binary@, m.kind@)),
                suites: if event == "started"@ || event == "ok"@ || event == "failed"@ {
                    ensure_suite(o.suites, k)
                } else {
                    o.suites
                },
                ..o
            }
        },
    }
}

/// The run time a test event reports: the event's own, else its whole
/// milliseconds when there are any.
pub open spec fn reported_duration(duration: Option<Duration>, duration_ms: u64) -> Option<Duration> {
    match duration {
        Some(d) => Some(d),
        None => if duration_ms > 0 {
            Some(
                Duration {
                    secs: duration_ms / 1000,
                    subsec_nanos: ((duration_ms % 1000) * 1_000_000) as u32,
                },
            )
        } else {
            None
        },
    }
}

/// A test event took state `o` to `n` and reported `res`: with a known
/// status and a suite named in the test's name the result is updated in the
/// suite (whose source file was read from the disk as one of two places),
/// otherwise nothing happens.
pub open spec fn test_event_ok(
    o: NextestParserView,
    event: Seq<char>,
    name: Seq<char>,
    duration: Option<Duration>,
    duration_ms: u64,
    stdout: Option<Seq<char>>,
    n: NextestParserView,
    res: Option<NextestStreamUpdate>,
) -> bool {
    if nextest_status(event) is None || suite_key_spec(name, o.kinds) is None {
        res is None && n == o
    } else {
        let k = suite_key_spec(name, o.kinds).unwrap();
        let st = nextest_status(event).unwrap();
        &&& res is Some
        &&& res.unwrap().test_name@ == simplify_name_spec(name)
        &&& res.unwrap().status@ == st
        &&& exists|b: bool| res.unwrap().suite_path@ == display_path_spec(o.repo_root, k, b)
        &&& n == NextestParserView {
            suites: after_test_event(o.suites, k, simplify_name_spec(name), st, duration_ms, stdout, res.unwrap().suite_path@),
            ..o
        }
        &&& res.unwrap().duration == reported_duration(duration, duration_ms)
        &&& opt_seq(res.unwrap().stdout) == stdout
    }
}

/// One output line took state `o` to `n` and reported `res`.
pub open spec fn push_line_ok(
    o: NextestParserView,
    line: Seq<char>,
    decoded: Option<NextestEvent>,
    n: NextestParserView,
    res: Option<NextestStreamUpdate>,
) -> bool {
    if trim(line).len() == 0 {
        res is None && n == o
    } else if json_object_text(line) is None {
        res is None && n == NextestParserView { loose: o.loose.push(trim(line)), ..o }
    } else {
        match decoded {
            None => res is None && n == o,
            Some(NextestEvent::Suite { event, nextest }) => res is None && n == suite_event_next(o, event@, nextest),
            Some(NextestEvent::Test { event, name, duration, duration_ms, stdout }) => test_event_ok(
                o,
                event@,
                name@,
                duration,
                duration_ms,
                opt_seq(stdout),
                n,
                res,
            ),
        }
    }
}

/// The state of a parser that has seen nothing in `repo_root`.
pub open spec fn initial_state(repo_root: Seq<char>) -> NextestParserView {
    NextestParserView { repo_root, suites: Seq::empty(), kinds: Seq::empty(), loose: Seq::empty() }
}

/// The result of finishing in state `p`.
pub open spec fn finalize_ok(p: NextestParserView, res: Option<TestRunModel>) -> bool {
    &&& (nonempty_suites(with_loose(p)).len() == 0 <==> res is None)
    &&& (res matches Some(m) ==> nextest_model_ok(p, m))
}

impl NextestStreamParser {
    /// A parser for a run in `repo_root`, with nothing seen yet.
    pub fn new(repo_root: &str) -> (res: Self)
        ensures
            res@.repo_root == repo_root@,
            res@.suites.len() == 0,
            res@.kinds.len() == 0,
            res@.loose.len() == 0,
    {
        NextestStreamParser {
            repo_root: owned(repo_root),
            suites: Vec::new(),
            kinds: Vec::new(),
            loose_log_lines: Vec::new(),
        }
    }

    /// A suite event records the binary's kind and, when the suite starts
    /// or ends, makes sure the suite exists.
    fn handle_suite_event(&mut self, event: String, nextest: Option<NextestMeta>)
        ensures
            final(self)@.repo_root == old(self)@.repo_root,
            final(self)@.loose == old(self)@.loose,
            match nextest {
                None => final(self)@ == old(self)@,
                Some(m) => {
                    let k = SuiteKeyView {
                        crate_name: m.crate_name@,
                        test_binary: m.test_binary@,
                        kind: m.kind@,
                    };
                    &&& final(self)@.kinds == old(self)@.kinds.push((m.crate_name@, m.test_binary@, m.kind@))
                    &&& final(self)@.suites == if event@ == "started"@ || event@ == "ok"@ || event@
                        == "failed"@ {
                        ensure_suite(old(self)@.suites, k)
                    } else {
                        old(self)@.suites
                    }
                },
            },
    {
        let meta = match nextest {
            Some(m) => m,
            None => {
                return;
            },
        };
        let key = SuiteKey { crate_name: meta.crate_name, test_binary: meta.test_binary, kind: meta.kind };
        let ghost kv = kind_views(self.kinds@);
        self.kinds.push(
            (owned(key.crate_name.as_str()), owned(key.test_binary.as_str()), owned(key.kind.as_str())),
        );
        assert(kind_views(self.kinds@) =~= kv.push((key.crate_name@, key.test_binary@, key.kind@)));
        proof {
            reveal_strlit("started");
            reveal_strlit("ok");
            reveal_strlit("failed");
        }
        if str_eq(event.as_str(), "started") || str_eq(event.as_str(), "ok") || str_eq(
            event.as_str(),
            "failed",
        ) {
            ensure_suite_exec(&mut self.suites, &key);
        }
    }

    /// A test event with a known status updates the test's result in its
    /// suite and the suite's logs, and is reported.
    fn handle_test_event(
        &mut self,
        event: String,
        name: String,
        duration: Option<Duration>,
        duration_ms: u64,
        stdout: Option<String>,
    ) -> (res: Option<NextestStreamUpdate>)
        ensures
            final(self)@.repo_root == old(self)@.repo_root,
            final(self)@.kinds == old(self)@.kinds,
            final(self)@.loose == old(self)@.loose,
            nextest_status(event@) is None || suite_key_spec(name@, old(self)@.kinds) is None ==> res is None
                && final(self)@ == old(self)@,
            nextest_status(event@) is Some && suite_key_spec(name@, old(self)@.kinds) is Some ==> res is Some,
            res matches Some(u) ==> u.test_name@ == simplify_name_spec(name@),
            res matches Some(u) ==> Some(u.status@) == nextest_status(event@),
            res matches Some(u) ==> exists|b: bool|
                u.suite_path@ == display_path_spec(
                    old(self)@.repo_root,
                    suite_key_spec(name@, old(self)@.kinds).unwrap(),
                    b,
                ),
            res matches Some(u) ==> final(self)@.suites == after_test_event(
                old(self)@.suites,
                suite_key_spec(name@, old(self)@.kinds).unwrap(),
                simplify_name_spec(name@),
                u.status@,
                duration_ms,
                opt_seq(stdout),
                u.suite_path@,
            ),
            res matches Some(u) ==> u.duration == match duration {
                Some(d) => Some(d),
                None => if duration_ms > 0 {
                    Some(
                        Duration {
                            secs: duration_ms / 1000,
                            subsec_nanos: ((duration_ms % 1000) * 1_000_000) as u32,
                        },
                    )
                } else {
                    None
                },
            },
            res matches Some(u) ==> opt_seq(u.stdout) == opt_seq(stdout),
    {
        proof {
            reveal_strlit("ok");
            reveal_strlit("failed");
            reveal_strlit("ignored");
        }
        let status = if str_eq(event.as_str(), "ok") {
            owned("passed")
        } else if str_eq(event.as_str(), "failed") {
            owned("failed")
        } else if str_eq(event.as_str(), "ignored") {
            owned("pending")
        } else {
            return None;
        };
        let key = match suite_key_from_test_name(name.as_str(), &self.kinds) {
            Some(k) => k,
            None => {
                return None;
            },
        };
        let display_name = simplify_nextest_test_name(name.as_str());
        let suite_path = suite_display_path(self.repo_root.as_str(), &key);
        let ghost b0 = choose|b: bool| suite_path@ == display_path_spec(self.repo_root@, key@, b);
        assert(suite_path@ == display_path_spec(old(self)@.repo_root, suite_key_spec(name@, old(self)@.kinds).unwrap(), b0));
        let ghost s0 = acc_views(self.suites@);
        let p = ensure_suite_exec(&mut self.suites, &key);
        let ghost e = acc_views(self.suites@);
        let mut acc = self.suites.remove(p);
        assert(acc@ == e[p as int]);
        let existing = case_take(&mut acc.tests, display_name.as_str());
        let c = update_nextest_case(
            existing,
            display_name.as_str(),
            status.as_str(),
            duration_ms,
            &stdout,
            suite_path.as_str(),
        );
        case_put(&mut acc.tests, c);
        extend_console_entries(&mut acc.console_entries, &stdout);
        let ghost accv = acc@;
        self.suites.insert(p, acc);
        assert(acc_views(self.suites@) =~= e.update(p as int, accv));
        let d = match duration {
            Some(d) => Some(d),
            None => if duration_ms > 0 {
                Some(Duration::from_millis(duration_ms))
            } else {
                None
            },
        };
        proof {
            if duration is None && duration_ms > 0 {
                let dd = d.unwrap();
                assert(dd.secs * 1_000_000_000 + dd.subsec_nanos == duration_ms * 1_000_000);
                assert(dd.subsec_nanos < 1_000_000_000);
            }
        }
        Some(NextestStreamUpdate { suite_path, test_name: display_name, status, duration: d, stdout })
    }

    /// Handles one output line, given what a braced line decodes to (`None`
    /// when it is no event): plain text lines are kept for the logs.
    pub fn push_line(&mut self, line: &str, decoded: Option<NextestEvent>) -> (res: Option<NextestStreamUpdate>)
        ensures
            push_line_ok(old(self)@, line@, decoded, final(self)@, res),
    {
        let trimmed = trim_str(line);
        if trimmed.as_str().is_empty() {
            return None;
        }
        match json_object_line(line) {
            None => {
                let ghost lv = views(self.loose_log_lines@);
                self.loose_log_lines.push(trimmed);
                assert(views(self.loose_log_lines@) =~= lv.push(trim(line@)));
                return None;
            },
            Some(_) => {},
        }
        match decoded {
            Some(NextestEvent::Suite { event, nextest }) => {
                let ghost o = self@;
                let ghost ev = event@;
                let ghost nx = nextest;
                self.handle_suite_event(event, nextest);
                assert(self@ == suite_event_next(o, ev, nx));
                None
            },
            Some(NextestEvent::Test { event, name, duration, duration_ms, stdout }) => {
                let ghost o = self@;
                let ghost ev = event@;
                let ghost nm = name@;
                let ghost so = opt_seq(stdout);
                let r = self.handle_test_event(event, name, duration, duration_ms, stdout);
                proof {
                    if r is Some {
                        let u = r.unwrap();
                        let k = suite_key_spec(nm, o.kinds).unwrap();
                        let b0 = choose|b: bool| u.suite_path@ == display_path_spec(o.repo_root, k, b);
                        assert(u.suite_path@ == display_path_spec(o.repo_root, k, b0));
                    }
                }
                assert(test_event_ok(o, ev, nm, duration, duration_ms, so, self@, r));
                r
            },
            None => None,
        }
    }

    /// The run model: the suites that hold results, in key order, the
    /// plain text lines as logs of the first suite; `None` when no suite
    /// holds a result.
    pub fn finalize(self) -> (res: Option<TestRunModel>)
        ensures
            finalize_ok(self@, res),
    {
        let ghost pv = self@;
        let mut suites = self.suites;
        let loose = self.loose_log_lines;
        let repo_root = self.repo_root;
        if loose.len() > 0 && suites.len() > 0 {
            let ghost sv0 = acc_views(suites@);
            let mut first = suites.remove(0);
            assert(first@ == sv0[0]);
            let ghost c0 = console_views(first.console_entries@);
            let mut i: usize = 0;
            while i < loose.len()
                invariant
                    i <= loose.len(),
                    first@.key == sv0[0].key,
                    first@.tests == sv0[0].tests,
                    console_views(first.console_entries@) == c0 + loose_entries(views(loose@).take(i as int)),
                decreases loose.len() - i,
            {
                let ghost before = console_views(first.console_entries@);
                first.console_entries.push(log_entry(loose[i].as_str()));
                assert(loose_entries(views(loose@).take(i + 1)) =~= loose_entries(
                    views(loose@).take(i as int),
                ).push(log_entry_view(loose@[i as int]@)));
                assert(console_views(first.console_entries@) =~= before.push(log_entry_view(loose@[i as int]@)));
                i = i + 1;
            }
            assert(views(loose@).take(loose.len() as int) =~= views(loose@));
            let ghost fv = first@;
            suites.insert(0, first);
            assert(acc_views(suites@) =~= sv0.update(0, fv));
        }
        let ghost wl = acc_views(suites@);
        assert(wl == with_loose(pv));
        let mut out: Vec<TestSuiteResult> = Vec::new();
        let ghost mut kept: Seq<SuiteAccView> = Seq::empty();
        let n = suites.len();
        let mut j: usize = 0;
        assert(wl.take(0) =~= Seq::<SuiteAccView>::empty());
        while j < n
            invariant
                n == wl.len(),
                j <= n,
                suites.len() == n - j,
                acc_views(suites@) == wl.skip(j as int),
                kept == nonempty_suites(wl.take(j as int)),
                out.len() == kept.len(),
                repo_root@ == pv.repo_root,
                forall|i: int|
                    0 <= i < kept.len() ==> #[trigger] out@[i]@ == finalized_suite(
                        kept[i],
                        out@[i]@.test_file_path,
                    ) && exists|b: bool|
                        out@[i]@.test_file_path == display_path_spec(pv.repo_root, kept[i].key, b),
            decreases n - j,
        {
            assert(wl.take(j + 1).drop_last() =~= wl.take(j as int));
            assert(acc_views(suites@)[0] == wl[j as int]);
            let ghost before_suites = suites@;
            let acc = suites.remove(0);
            assert(suites@ =~= before_suites.drop_first());
            assert(acc_views(suites@) =~= acc_views(before_suites).drop_first());
            assert(acc_views(before_suites).drop_first() =~= wl.skip(j + 1));
            assert(wl.take(j + 1).last() == acc@);
            if acc.tests.len() > 0 {
                let ghost av = acc@;
                let path = suite_display_path(repo_root.as_str(), &acc.key);
                let ghost b0 = choose|b: bool| path@ == display_path_spec(repo_root@, acc.key@, b);
                assert(path@ == display_path_spec(pv.repo_root, av.key, b0));
                let failed = count_with_status(&acc.tests, "failed");
                let status = if failed > 0 {
                    owned("failed")
                } else {
                    owned("passed")
                };
                let console = if acc.console_entries.len() == 0 {
                    None
                } else {
                    Some(acc.console_entries)
                };
                let suite = TestSuiteResult {
                    test_file_path: path,
                    status,
                    timed_out: None,
                    failure_message: String::new(),
                    failure_details: None,
                    test_exec_error: None,
                    console,
                    test_results: acc.tests,
                };
                assert(suite@ == finalized_suite(av, suite@.test_file_path));
                let ghost sv = suite@;
                assert(exists|b: bool| sv.test_file_path == display_path_spec(pv.repo_root, av.key, b));
                let ghost prev_out = out@;
                out.push(suite);
                assert(out@[out.len() - 1]@ == sv);
                proof {
                    kept = kept.push(av);
                    assert forall|i: int| 0 <= i < kept.len() implies #[trigger] out@[i]@ == finalized_suite(
                        kept[i],
                        out@[i]@.test_file_path,
                    ) && exists|b: bool|
                        out@[i]@.test_file_path == display_path_spec(pv.repo_root, kept[i].key, b) by {
                        if i < kept.len() - 1 {
                            assert(out@[i] == prev_out[i]);
                        }
                    }
                }
            }
            j = j + 1;
        }
        assert(wl.take(n as int) =~= wl);
        if out.len() == 0 {
            return None;
        }
        let start_time = crate::format::time::unix_millis_now(0);
        let m = build_run_model(out, start_time);
        Some(m)
    }
}

/// Reads a whole nextest output into a run model, given what each of its
/// lines decodes to: the lines are fed in order to a new parser and the
/// parser is finished (see [`NextestStreamParser::finalize`]).
pub fn parse_nextest_libtest_json_output(
    repo_root: &str,
    combined_output: &str,
    decoded: Vec<Option<NextestEvent>>,
) -> (res: Option<TestRunModel>)
    requires
        decoded.len() == lines(combined_output@).len(),
    ensures
        exists|states: Seq<NextestParserView>, reports: Seq<Option<NextestStreamUpdate>>|
            states.len() == decoded.len() + 1 && reports.len() == decoded.len() && states[0]
                == initial_state(repo_root@) && (forall|i: int|
                0 <= i < decoded.len() ==> #[trigger] push_line_ok(
                    states[i],
                    lines(combined_output@)[i],
                    decoded@[i],
                    states[i + 1],
                    reports[i],
                )) && finalize_ok(states[decoded.len() as int], res),
{
    let ls = lines_of(combined_output);
    let mut parser = NextestStreamParser::new(repo_root);
    let ghost mut states: Seq<NextestParserView> = seq![parser@];
    let ghost mut reports: Seq<Option<NextestStreamUpdate>> = Seq::empty();
    assert(parser@ =~= initial_state(repo_root@)) by {
        assert(parser@.suites =~= Seq::<SuiteAccView>::empty());
        assert(parser@.kinds =~= Seq::<(Seq<char>, Seq<char>, Seq<char>)>::empty());
        assert(parser@.loose =~= Seq::<Seq<char>>::empty());
    }
    let ghost all = decoded@;
    let mut rest = decoded;
    let n = ls.len();
    let mut i: usize = 0;
    while i < n
        invariant
            i <= n,
            n == ls.len(),
            views(ls@) == lines(combined_output@),
            all.len() == n,
            rest@ == all.skip(i as int),
            states.len() == i + 1,
            reports.len() == i,
            states[0] == initial_state(repo_root@),
            states[i as int] == parser@,
            forall|j: int|
                0 <= j < i ==> #[trigger] push_line_ok(
                    states[j],
                    lines(combined_output@)[j],
                    all[j],
                    states[j + 1],
                    reports[j],
                ),
        decreases n - i,
    {
        assert(rest@[0] == all[i as int]);
        let ev = rest.remove(0);
        assert(rest@ =~= all.skip(i + 1));
        let ghost before = parser@;
        assert(ls@[i as int]@ == lines(combined_output@)[i as int]);
        let r = parser.push_line(ls[i].as_str(), ev);
        proof {
            let old_states = states;
            let old_reports = reports;
            states = states.push(parser@);
            reports = reports.push(r);
            assert forall|j: int|
                0 <= j < i + 1 implies #[trigger] push_line_ok(
                states[j],
                lines(combined_output@)[j],
                all[j],
                states[j + 1],
                reports[j],
            ) by {
                if j < i {
                    assert(states[j] == old_states[j]);
                    assert(states[j + 1] == old_states[j + 1]);
                    assert(reports[j] == old_reports[j]);
                }
            }
        }
        i = i + 1;
    }
    let res = parser.finalize();
    assert(finalize_ok(states[n as int], res));
    res
}


proof fn lemma_count_key_le(s: Seq<SuiteAccView>, k: SuiteKeyView)
    ensures
        count_key_lt(s, k) <= s.len(),
    decreases s.len(),
{
    if s.len() > 0 && key_lt(s[0].key, k) {
        lemma_count_key_le(s.drop_first(), k);
    }
}

/// After a test event of suite `k` for test `name` that gives `status`,
/// the suite of `k` holds a result titled `name` with that status (at the
/// places returned).
proof fn lemma_after_test_event_holds(
    s: Seq<SuiteAccView>,
    k: SuiteKeyView,
    name: Seq<char>,
    status: Seq<char>,
    millis: u64,
    stdout: Option<Seq<char>>,
    suite_path: Seq<char>,
) -> (ij: (int, int))
    ensures
        ({
            let n = after_test_event(s, k, name, status, millis, stdout, suite_path);
            &&& 0 <= ij.0 < n.len()
            &&& 0 <= ij.1 < n[ij.0].tests.len()
            &&& n[ij.0].key == k
            &&& n[ij.0].tests[ij.1].title == name
            &&& n[ij.0].tests[ij.1].status == status
        }),
{
    lemma_count_key_le(s, k);
    let e = ensure_suite(s, k);
    let p = count_key_lt(s, k) as int;
    assert(e[p].key == k && p < e.len());
    let acc = e[p];
    let c = nextest_case(case_lookup(acc.tests, name), name, status, millis, stdout, suite_path);
    assert(c.title == name && c.status == status);
    let r = case_remove(acc.tests, name);
    crate::format::case_map::lemma_case_insert_holds(r, c);
    let q = crate::format::case_map::count_title_lt(r, c.title) as int;
    crate::format::case_map::lemma_count_title_le(r, c.title);
    let n = after_test_event(s, k, name, status, millis, stdout, suite_path);
    assert(n[p].tests[q] == c);
    assert(n[p].key == k);
    (p, q)
}

/// A nextest test event records its test by its event word: `ok` as
/// passed, `failed` as failed and `ignored` as pending (never failed), in
/// the suite its name belongs to, and reports that status; only a `failed`
/// event gives the status `failed`; an event with another word, or a test
/// name with no suite, changes nothing and reports nothing.
pub proof fn law_nextest_event_status(
    o: NextestParserView,
    event: Seq<char>,
    name: Seq<char>,
    duration: Option<Duration>,
    duration_ms: u64,
    stdout: Option<Seq<char>>,
    n: NextestParserView,
    res: Option<NextestStreamUpdate>,
)
    requires
        test_event_ok(o, event, name, duration, duration_ms, stdout, n, res),
    ensures
        res matches Some(u) ==> (event == "ok"@ && u.status@ == "passed"@) || (event == "failed"@ && u.status@
            == "failed"@) || (event == "ignored"@ && u.status@ == "pending"@),
        res is None ==> n == o,
        !(event == "ok"@ || event == "failed"@ || event == "ignored"@) ==> res is None,
        suite_key_spec(name, o.kinds) is Some && event == "ok"@ ==> exists|i: int, j: int|
            #![trigger n.suites[i].tests[j]]
            0 <= i < n.suites.len() && 0 <= j < n.suites[i].tests.len() && n.suites[i].key == suite_key_spec(
                name,
                o.kinds,
            ).unwrap() && n.suites[i].tests[j].title == simplify_name_spec(name) && n.suites[i].tests[j].status
                == "passed"@,
        suite_key_spec(name, o.kinds) is Some && event == "failed"@ ==> exists|i: int, j: int|
            #![trigger n.suites[i].tests[j]]
            0 <= i < n.suites.len() && 0 <= j < n.suites[i].tests.len() && n.suites[i].key == suite_key_spec(
                name,
                o.kinds,
            ).unwrap() && n.suites[i].tests[j].title == simplify_name_spec(name) && n.suites[i].tests[j].status
                == "failed"@,
        suite_key_spec(name, o.kinds) is Some && event == "ignored"@ ==> exists|i: int, j: int|
            #![trigger n.suites[i].tests[j]]
            0 <= i < n.suites.len() && 0 <= j < n.suites[i].tests.len() && n.suites[i].key == suite_key_spec(
                name,
                o.kinds,
            ).unwrap() && n.suites[i].tests[j].title == simplify_name_spec(name) && n.suites[i].tests[j].status
                == "pending"@,
{
    reveal_strlit("ok");
    reveal_strlit("failed");
    reveal_strlit("ignored");
    reveal_strlit("passed");
    reveal_strlit("pending");
    assert("ok"@.len() != "failed"@.len());
    assert("ok"@.len() != "ignored"@.len());
    assert("failed"@.len() != "ignored"@.len());
    if nextest_status(event) is Some && suite_key_spec(name, o.kinds) is Some {
        let k = suite_key_spec(name, o.kinds).unwrap();
        let st = nextest_status(event).unwrap();
        let (i, j) = lemma_after_test_event_holds(
            o.suites,
            k,
            simplify_name_spec(name),
            st,
            duration_ms,
            stdout,
            res.unwrap().suite_path@,
        );
        assert(n.suites[i].tests[j].title == simplify_name_spec(name));
        assert(n.suites[i].tests[j].status == st);
    }
}

} // verus!
