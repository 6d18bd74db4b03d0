//! What the Jest runner does with the run model read from its bridge
//! reporter: merging the models of several projects, keeping only the tests
//! a name pattern ran, and deciding when the rendered report is too sparse
//! and should be merged with the raw output.
use crate::format::stacks::{ansi_stripped, strip_ansi_simple};
use crate::text::{
    contains, contains_char, contains_str, is_ascii_digit, is_ascii_digit_char, is_blank, is_blank_str, join,
    join_strs, lines, lines_of, owned, starts_with, starts_with_str, str_eq, trim, trim_end, trim_end_str,
    trim_start, trim_start_str, trim_str, views, chars_of,
};
use crate::format::case_map::{count_status, count_with_status, lemma_count_status_bound};
use crate::test_model::{
    case_views, copy_case, copy_suite_with_cases, suite_views, TestCaseResult, TestCaseView, TestRunAggregated,
    TestRunModel, TestRunView, TestSuiteResult, TestSuiteView,
};
use crate::jest_ownership::{backslashes_to_slashes, backslashes_to_slashes_str};
use crate::path_names::{path_join, path_join_of};
use crate::test_model::{copy_suite, copy_suites};
use crate::text::{lemma_seq_lt_asymmetric, lemma_seq_lt_irreflexive, lemma_seq_lt_total, lemma_seq_lt_transitive, seq_lt, str_lt};
use vstd::prelude::*;

verus! {

/// Text that reads like an assertion failure: it mentions `Expected`,
/// `Received` or `Assertion:`.
pub open spec fn looks_like_assertion_failure_spec(text: Seq<char>) -> bool {
    contains(text, "Expected"@) || contains(text, "Received"@) || contains(text, "Assertion:"@)
}

/// Whether `text` reads like an assertion failure (see
/// [`looks_like_assertion_failure_spec`]).
pub fn looks_like_assertion_failure(text: &str) -> (res: bool)
    ensures
        res == looks_like_assertion_failure_spec(text@),
{
    contains_str(text, "Expected") || contains_str(text, "Received") || contains_str(text, "Assertion:")
}

/// A `FAIL  <file>` header line.
pub open spec fn is_fail_header(line: Seq<char>) -> bool {
    starts_with(trim_start(line), "FAIL  "@) || starts_with(trim_start(line), " FAIL  "@)
}

/// A line of a code frame: it holds a `|` and a digit.
pub open spec fn is_code_frame_like(line: Seq<char>) -> bool {
    let t = trim_start(line);
    contains(t, seq!['|']) && exists|k: int| 0 <= k < t.len() && is_ascii_digit(#[trigger] t[k])
}

/// The first header line at or after `i`.
pub open spec fn first_fail_header(ls: Seq<Seq<char>>, i: int) -> Option<int>
    decreases ls.len() - i,
{
    if i < 0 || i >= ls.len() {
        None
    } else if is_fail_header(ls[i]) {
        Some(i)
    } else {
        first_fail_header(ls, i + 1)
    }
}

/// A `FAIL` header is shown, and none of the eight lines after it looks
/// like a code frame.
pub open spec fn missing_fail_header_code_frame_spec(ls: Seq<Seq<char>>) -> bool {
    match first_fail_header(ls, 0) {
        None => false,
        Some(i) => !exists|j: int| i + 1 <= j < ls.len() && j < i + 9 && is_code_frame_like(#[trigger] ls[j]),
    }
}

proof fn lemma_first_fail_header(ls: Seq<Seq<char>>, i: int)
    requires
        0 <= i,
    ensures
        match first_fail_header(ls, i) {
            Some(k) => i <= k < ls.len() && is_fail_header(ls[k]) && forall|j: int|
                i <= j < k ==> !is_fail_header(#[trigger] ls[j]),
            None => forall|j: int| i <= j < ls.len() ==> !is_fail_header(#[trigger] ls[j]),
        },
    decreases ls.len() - i,
{
    if i < ls.len() && !is_fail_header(ls[i]) {
        lemma_first_fail_header(ls, i + 1);
    }
}

fn is_fail_header_exec(line: &str) -> (res: bool)
    ensures
        res == is_fail_header(line@),
{
    let t = trim_start_str(line);
    starts_with_str(t.as_str(), "FAIL  ") || starts_with_str(t.as_str(), " FAIL  ")
}

fn is_code_frame_like_exec(line: &str) -> (res: bool)
    ensures
        res == is_code_frame_like(line@),
{
    let t = trim_start_str(line);
    if !contains_char(t.as_str(), '|') {
        proof {
            assert(seq!['|'] == seq!['|']);
        }
        return false;
    }
    let v = chars_of(t.as_str());
    let mut k: usize = 0;
    while k < v.len()
        invariant
            k <= v.len(),
            v@ == trim_start(line@),
            contains(trim_start(line@), seq!['|']),
            forall|j: int| 0 <= j < k ==> !is_ascii_digit(#[trigger] v@[j]),
        decreases v.len() - k,
    {
        if is_ascii_digit_char(v[k]) {
            assert(is_ascii_digit(v@[k as int]));
            return true;
        }
        k = k + 1;
    }
    false
}

/// Whether a `FAIL` header is shown without a code frame in the eight
/// lines after it (see [`missing_fail_header_code_frame_spec`]).
pub fn missing_fail_header_code_frame(ls: &Vec<String>) -> (res: bool)
    ensures
        res == missing_fail_header_code_frame_spec(views(ls@)),
{
    let ghost lv = views(ls@);
    let mut i: usize = 0;
    while i < ls.len()
        invariant
            i <= ls.len(),
            lv == views(ls@),
            first_fail_header(lv, 0) == first_fail_header(lv, i as int),
        ensures
            i <= ls.len(),
            first_fail_header(lv, 0) == first_fail_header(lv, i as int),
            i < ls.len() ==> is_fail_header(lv[i as int]),
        decreases ls.len() - i,
    {
        if is_fail_header_exec(ls[i].as_str()) {
            break;
        }
        i = i + 1;
    }
    if i >= ls.len() {
        return false;
    }
    assert(first_fail_header(lv, 0) == Some(i as int));
    let mut j: usize = i + 1;
    while j < ls.len() && j - i < 9
        invariant
            i < ls.len(),
            i + 1 <= j,
            j <= i + 9,
            lv == views(ls@),
            first_fail_header(lv, 0) == Some(i as int),
            forall|k: int| i + 1 <= k < j && k < lv.len() ==> !is_code_frame_like(#[trigger] lv[k]),
        decreases ls.len() - j,
    {
        if is_code_frame_like_exec(ls[j].as_str()) {
            assert(is_code_frame_like(lv[j as int]) && i + 1 <= j < lv.len() && j < i + 9);
            return false;
        }
        j = j + 1;
    }
    true
}

/// An `Error:` line directly followed by a blank one.
pub open spec fn has_error_blank(ls: Seq<Seq<char>>) -> bool {
    exists|k: int| 0 <= k && k + 1 < ls.len() && #[trigger] trim(ls[k]) == "Error:"@ && trim(ls[k + 1]).len() == 0
}

/// A rendered report is sparse when it shows a failure header without its
/// code frame for an assertion failure, or when it shows a bare `Error:`
/// followed by a blank line and none of the usual sections.
pub open spec fn looks_sparse_spec(pretty: Seq<char>) -> bool {
    let simple = ansi_stripped(pretty);
    let ls = lines(simple);
    if missing_fail_header_code_frame_spec(ls) && looks_like_assertion_failure_spec(simple) {
        true
    } else if !has_error_blank(ls) {
        false
    } else {
        !(contains(simple, "Message:"@) || contains(simple, "Thrown:"@) || contains(simple, "Events:"@)
            || contains(simple, "Console errors:"@))
    }
}

/// Whether a rendered report is too sparse (see [`looks_sparse_spec`]).
pub fn looks_sparse(pretty: &str) -> (res: bool)
    ensures
        res == looks_sparse_spec(pretty@),
{
    let simple = strip_ansi_simple(pretty);
    let ls = lines_of(simple.as_str());
    let ghost lv = views(ls@);
    if missing_fail_header_code_frame(&ls) && looks_like_assertion_failure(simple.as_str()) {
        return true;
    }
    let mut found = false;
    let mut k: usize = 0;
    while ls.len() > 1 && k < ls.len() - 1
        invariant_except_break
            !found,
        invariant
            lv == views(ls@),
            forall|j: int| 0 <= j < k && j + 1 < lv.len() ==> !(#[trigger] trim(lv[j]) == "Error:"@ && trim(lv[j + 1]).len() == 0),
        ensures
            found ==> has_error_blank(lv),
            !found ==> forall|j: int| 0 <= j && j + 1 < lv.len() ==> !(#[trigger] trim(lv[j]) == "Error:"@ && trim(lv[j + 1]).len() == 0),
        decreases ls.len() - k,
    {
        let a = trim_str(ls[k].as_str());
        let b = trim_str(ls[k + 1].as_str());
        if str_eq(a.as_str(), "Error:") && b.as_str().is_empty() {
            found = true;
            assert(trim(lv[k as int]) == "Error:"@ && trim(lv[k + 1]).len() == 0);
            break;
        }
        k = k + 1;
    }
    if !found {
        assert(!has_error_blank(lv));
        return false;
    }
    !(contains_str(simple.as_str(), "Message:") || contains_str(simple.as_str(), "Thrown:") || contains_str(
        simple.as_str(),
        "Events:",
    ) || contains_str(simple.as_str(), "Console errors:"))
}


/// The index of the last line that starts the footer (`Test Files `).
pub open spec fn last_footer_index(ls: Seq<Seq<char>>) -> Option<int>
    decreases ls.len(),
{
    if ls.len() == 0 {
        None
    } else if starts_with(ls.last(), "Test Files "@) {
        Some(ls.len() - 1)
    } else {
        last_footer_index(ls.drop_last())
    }
}

/// The report above its footer and the footer, the footer starting at the
/// last `Test Files ` line; all of it is body when there is no such line.
pub open spec fn split_footer_spec(text: Seq<char>) -> (Seq<char>, Seq<char>) {
    let ls = lines(text);
    match last_footer_index(ls) {
        None => (text, Seq::empty()),
        Some(i) => (join(ls.take(i), "\n"@), join(ls.skip(i), "\n"@)),
    }
}

proof fn lemma_last_footer_index(ls: Seq<Seq<char>>)
    ensures
        last_footer_index(ls) matches Some(i) ==> 0 <= i < ls.len(),
    decreases ls.len(),
{
    if ls.len() > 0 {
        lemma_last_footer_index(ls.drop_last());
    }
}

fn slice_strings(v: &Vec<String>, lo: usize, hi: usize) -> (res: Vec<String>)
    requires
        lo <= hi <= v.len(),
    ensures
        views(res@) == views(v@).subrange(lo as int, hi as int),
{
    let mut out: Vec<String> = Vec::new();
    let mut i: usize = lo;
    while i < hi
        invariant
            lo <= i <= hi,
            hi <= v.len(),
            views(out@) == views(v@).subrange(lo as int, i as int),
        decreases hi - i,
    {
        let ghost before = views(out@);
        out.push(owned(v[i].as_str()));
        assert(views(out@) =~= before.push(v@[i as int]@));
        assert(views(v@).subrange(lo as int, i + 1) =~= views(v@).subrange(lo as int, i as int).push(
            v@[i as int]@,
        ));
        i = i + 1;
    }
    out
}

/// Splits a rendered report into body and footer (see [`split_footer_spec`]).
pub fn split_footer(text: &str) -> (res: (String, String))
    ensures
        (res.0@, res.1@) == split_footer_spec(text@),
{
    let ls = lines_of(text);
    let ghost lv = views(ls@);
    let mut i: usize = ls.len();
    assert(lv.take(ls.len() as int) =~= lv);
    while i > 0
        invariant
            i <= ls.len(),
            lv == views(ls@),
            last_footer_index(lv) == last_footer_index(lv.take(i as int)),
        ensures
            last_footer_index(lv) == if i == 0 {
                None
            } else {
                Some(i - 1)
            },
        decreases i,
    {
        if starts_with_str(ls[i - 1].as_str(), "Test Files ") {
            assert(lv.take(i as int).last() == lv[i - 1]);
            break;
        }
        assert(lv.take(i as int).drop_last() =~= lv.take(i - 1));
        i = i - 1;
    }
    if i == 0 {
        return (owned(text), String::new());
    }
    let k = i - 1;
    let body = slice_strings(&ls, 0, k);
    let footer = slice_strings(&ls, k, ls.len());
    assert(lv.subrange(0, k as int) =~= lv.take(k as int));
    assert(lv.subrange(k as int, lv.len() as int) =~= lv.skip(k as int));
    (join_strs(&body, "\n"), join_strs(&footer, "\n"))
}

/// The pieces that are not empty, in order.
pub open spec fn nonempty_pieces(ps: Seq<Seq<char>>) -> Seq<Seq<char>>
    decreases ps.len(),
{
    if ps.len() == 0 {
        Seq::empty()
    } else if ps.last().len() > 0 {
        nonempty_pieces(ps.drop_last()).push(ps.last())
    } else {
        nonempty_pieces(ps.drop_last())
    }
}

/// The bridge report's body, then the raw report's body, then the bridge
/// report's footer, each without trailing whitespace, empty ones left out,
/// one per line.
pub open spec fn merge_sparse_spec(bridge_pretty: Seq<char>, raw_pretty: Seq<char>) -> Seq<char> {
    let b = split_footer_spec(bridge_pretty);
    let r = split_footer_spec(raw_pretty);
    join(nonempty_pieces(seq![trim_end(b.0), trim_end(r.0), trim_end(b.1)]), "\n"@)
}

/// Merges a sparse bridge report with the report of the raw output (see
/// [`merge_sparse_spec`]).
pub fn merge_sparse_bridge_and_raw(bridge_pretty: &str, raw_pretty: &str) -> (res: String)
    ensures
        res@ == merge_sparse_spec(bridge_pretty@, raw_pretty@),
{
    let (bridge_body, bridge_footer) = split_footer(bridge_pretty);
    let (raw_body, _raw_footer) = split_footer(raw_pretty);
    let a = trim_end_str(bridge_body.as_str());
    let b = trim_end_str(raw_body.as_str());
    let c = trim_end_str(bridge_footer.as_str());
    let ghost ps = seq![a@, b@, c@];
    let mut out: Vec<String> = Vec::new();
    if a.as_str().is_empty() {
    } else {
        out.push(a);
    }
    assert(views(out@) =~= nonempty_pieces(ps.take(1))) by {
        assert(ps.take(1).drop_last() =~= Seq::<Seq<char>>::empty());
        assert(nonempty_pieces(Seq::<Seq<char>>::empty()) =~= Seq::<Seq<char>>::empty());
        assert(ps.take(1).last() == a@);
    }
    if b.as_str().is_empty() {
    } else {
        let ghost before = views(out@);
        out.push(b);
        assert(views(out@) =~= before.push(ps[1]));
    }
    assert(views(out@) =~= nonempty_pieces(ps.take(2))) by {
        assert(ps.take(2).drop_last() =~= ps.take(1));
    }
    if c.as_str().is_empty() {
    } else {
        let ghost before = views(out@);
        out.push(c);
        assert(views(out@) =~= before.push(ps[2]));
    }
    assert(views(out@) =~= nonempty_pieces(ps)) by {
        assert(ps.drop_last() =~= ps.take(2));
    }
    join_strs(&out, "\n")
}

/// A token that sets a test name pattern.
pub open spec fn is_name_pattern_token(t: Seq<char>) -> bool {
    t == "-t"@ || t == "--testNamePattern"@ || starts_with(t, "--testNamePattern="@)
}

/// Running tests by path is skipped when a selection was given, but only as
/// a test name pattern: no changed-files mode, no selected paths.
pub open spec fn skip_by_path_spec(
    selection_specified: bool,
    changed_given: bool,
    selection_paths_abs: Seq<Seq<char>>,
    selection_paths: Seq<Seq<char>>,
    runner_args: Seq<Seq<char>>,
) -> bool {
    &&& selection_specified
    &&& !changed_given
    &&& selection_paths_abs.len() == 0
    &&& selection_paths.len() == 0
    &&& exists|k: int| 0 <= k < runner_args.len() && is_name_pattern_token(#[trigger] runner_args[k])
}

/// Whether running tests by path is skipped (see [`skip_by_path_spec`]).
pub fn should_skip_run_tests_by_path_for_name_pattern_only(
    selection_specified: bool,
    changed_given: bool,
    selection_paths_abs: &[String],
    selection_paths: &[String],
    runner_args: &[String],
) -> (res: bool)
    ensures
        res == skip_by_path_spec(
            selection_specified,
            changed_given,
            views(selection_paths_abs@),
            views(selection_paths@),
            views(runner_args@),
        ),
{
    if !selection_specified || changed_given {
        return false;
    }
    if selection_paths_abs.len() > 0 || selection_paths.len() > 0 {
        return false;
    }
    let ghost av = views(runner_args@);
    assert(views(selection_paths_abs@).len() == 0 && views(selection_paths@).len() == 0);
    let mut i: usize = 0;
    while i < runner_args.len()
        invariant
            i <= runner_args.len(),
            av == views(runner_args@),
            selection_specified && !changed_given,
            views(selection_paths_abs@).len() == 0 && views(selection_paths@).len() == 0,
            forall|k: int| 0 <= k < i ==> !is_name_pattern_token(#[trigger] av[k]),
        decreases runner_args.len() - i,
    {
        let t = runner_args[i].as_str();
        assert(av[i as int] == t@);
        if str_eq(t, "-t") || str_eq(t, "--testNamePattern") || starts_with_str(t, "--testNamePattern=") {
            assert(is_name_pattern_token(av[i as int]));
            return true;
        }
        i = i + 1;
    }
    false
}


/// A test that a name pattern ran: it passed or failed.
pub open spec fn ran(c: TestCaseView) -> bool {
    c.status == "passed"@ || c.status == "failed"@
}

/// The tests that ran, in order.
pub open spec fn ran_cases(cs: Seq<TestCaseView>) -> Seq<TestCaseView>
    decreases cs.len(),
{
    if cs.len() == 0 {
        Seq::empty()
    } else if ran(cs.last()) {
        ran_cases(cs.drop_last()).push(cs.last())
    } else {
        ran_cases(cs.drop_last())
    }
}

/// A suite that failed outside its tests.
pub open spec fn suite_has_failure(f: TestSuiteView) -> bool {
    !is_blank(f.failure_message) || f.test_exec_error is Some
}

/// A suite with only the tests that ran.
pub open spec fn with_ran_cases(f: TestSuiteView) -> TestSuiteView {
    TestSuiteView { test_results: ran_cases(f.test_results), ..f }
}

/// The suites kept, each with only the tests that ran: those left with a
/// test, and those that failed outside their tests.
pub open spec fn kept_suites(fs: Seq<TestSuiteView>) -> Seq<TestSuiteView>
    decreases fs.len(),
{
    if fs.len() == 0 {
        Seq::empty()
    } else {
        let t = with_ran_cases(fs.last());
        if t.test_results.len() > 0 || suite_has_failure(fs.last()) {
            kept_suites(fs.drop_last()).push(t)
        } else {
            kept_suites(fs.drop_last())
        }
    }
}

/// The number of tests with status `st` over all suites.
pub open spec fn total_status(fs: Seq<TestSuiteView>, st: Seq<char>) -> nat
    decreases fs.len(),
{
    if fs.len() == 0 {
        0
    } else {
        total_status(fs.drop_last(), st) + count_status(fs.last().test_results, st)
    }
}

/// The number of tests over all suites.
pub open spec fn total_cases(fs: Seq<TestSuiteView>) -> nat
    decreases fs.len(),
{
    if fs.len() == 0 {
        0
    } else {
        total_cases(fs.drop_last()) + fs.last().test_results.len()
    }
}

/// A kept suite counts as failed when it failed outside its tests or one of
/// its tests failed.
pub open spec fn kept_suite_failed(f: TestSuiteView) -> bool {
    suite_has_failure(f) || count_status(f.test_results, "failed"@) > 0
}

pub open spec fn count_kept_failed(fs: Seq<TestSuiteView>) -> nat
    decreases fs.len(),
{
    if fs.len() == 0 {
        0
    } else {
        count_kept_failed(fs.drop_last()) + if kept_suite_failed(fs.last()) {
            1nat
        } else {
            0nat
        }
    }
}

/// The model cut down to what a test name pattern ran, with the counts
/// recomputed over what is left (pending and todo counts become zero).
pub open spec fn name_pattern_only_spec(m: TestRunView) -> TestRunView {
    let kept = kept_suites(m.test_results);
    let failed = total_status(kept, "failed"@);
    let passed = total_status(kept, "passed"@);
    let failed_suites = count_kept_failed(kept);
    TestRunView {
        test_results: kept,
        aggregated: TestRunAggregated {
            num_total_test_suites: kept.len() as u64,
            num_passed_test_suites: (kept.len() - failed_suites) as u64,
            num_failed_test_suites: failed_suites as u64,
            num_total_tests: (failed + passed) as u64,
            num_passed_tests: passed as u64,
            num_failed_tests: failed as u64,
            num_pending_tests: 0,
            num_todo_tests: 0,
            success: failed == 0 && failed_suites == 0,
            ..m.aggregated
        },
        ..m
    }
}

proof fn lemma_ran_cases(cs: Seq<TestCaseView>)
    ensures
        count_status(ran_cases(cs), "failed"@) + count_status(ran_cases(cs), "passed"@) == ran_cases(cs).len(),
        ran_cases(cs).len() <= cs.len(),
    decreases cs.len(),
{
    if cs.len() > 0 {
        lemma_ran_cases(cs.drop_last());
        let r = ran_cases(cs.drop_last());
        if ran(cs.last()) {
            reveal_strlit("passed");
            reveal_strlit("failed");
            assert("passed"@[0] != "failed"@[0]);
            assert(r.push(cs.last()).drop_last() =~= r);
            assert(r.push(cs.last()).last() == cs.last());
        }
    }
}

proof fn lemma_count_kept_failed_bound(fs: Seq<TestSuiteView>)
    ensures
        count_kept_failed(fs) <= fs.len(),
    decreases fs.len(),
{
    if fs.len() > 0 {
        lemma_count_kept_failed_bound(fs.drop_last());
    }
}

proof fn lemma_total_cases_prefix(fs: Seq<TestSuiteView>, i: int)
    requires
        0 <= i <= fs.len(),
    ensures
        total_cases(fs.take(i)) <= total_cases(fs),
    decreases fs.len(),
{
    if i < fs.len() {
        assert(fs.drop_last().take(i) =~= fs.take(i));
        lemma_total_cases_prefix(fs.drop_last(), i);
    } else {
        assert(fs.take(i) =~= fs);
    }
}

/// The tests of a list that ran.
fn ran_cases_of(v: &Vec<TestCaseResult>) -> (res: Vec<TestCaseResult>)
    ensures
        case_views(res@) == ran_cases(case_views(v@)),
{
    let ghost cv = case_views(v@);
    let mut out: Vec<TestCaseResult> = Vec::new();
    let mut j: usize = 0;
    while j < v.len()
        invariant
            j <= v.len(),
            cv == case_views(v@),
            case_views(out@) == ran_cases(cv.take(j as int)),
        decreases v.len() - j,
    {
        assert(cv.take(j + 1).drop_last() =~= cv.take(j as int));
        assert(cv.take(j + 1).last() == v@[j as int]@);
        let c = &v[j];
        if str_eq(c.status.as_str(), "passed") || str_eq(c.status.as_str(), "failed") {
            let ghost before = case_views(out@);
            out.push(copy_case(c));
            assert(case_views(out@) =~= before.push(c@));
        }
        j = j + 1;
    }
    assert(cv.take(v.len() as int) =~= cv);
    out
}

/// Keeps only what a test name pattern ran (see [`name_pattern_only_spec`]).
pub fn filter_bridge_for_name_pattern_only(bridge: TestRunModel) -> (res: TestRunModel)
    requires
        total_cases(suite_views(bridge.test_results@)) <= u64::MAX,
    ensures
        res@ == name_pattern_only_spec(bridge@),
{
    let ghost fs = suite_views(bridge.test_results@);
    let mut kept: Vec<TestSuiteResult> = Vec::new();
    let mut failed: u64 = 0;
    let mut passed: u64 = 0;
    let mut failed_suites: u64 = 0;
    let mut i: usize = 0;
    while i < bridge.test_results.len()
        invariant
            i <= bridge.test_results.len(),
            fs == suite_views(bridge.test_results@),
            total_cases(fs) <= u64::MAX,
            suite_views(kept@) == kept_suites(fs.take(i as int)),
            failed == total_status(suite_views(kept@), "failed"@),
            passed == total_status(suite_views(kept@), "passed"@),
            failed + passed == total_cases(suite_views(kept@)),
            total_cases(suite_views(kept@)) <= total_cases(fs.take(i as int)),
            failed_suites == count_kept_failed(suite_views(kept@)),
            failed_suites <= kept.len(),
            kept.len() <= i,
        decreases bridge.test_results.len() - i,
    {
        proof {
            lemma_total_cases_prefix(fs, i + 1);
            assert(fs.take(i + 1).drop_last() =~= fs.take(i as int));
            assert(fs.take(i + 1).last() == bridge.test_results@[i as int]@);
        }
        let f = &bridge.test_results[i];
        let cases = ran_cases_of(&f.test_results);
        proof {
            lemma_ran_cases(case_views(f.test_results@));
            lemma_count_status_bound(case_views(cases@), "failed"@);
            lemma_count_status_bound(case_views(cases@), "passed"@);
        }
        let has_failure = !is_blank_str(f.failure_message.as_str()) || f.test_exec_error.is_some();
        if cases.len() > 0 || has_failure {
            let nf = count_with_status(&cases, "failed");
            let np = count_with_status(&cases, "passed");
            let t = copy_suite_with_cases(f, cases);
            assert(t@ == with_ran_cases(f@));
            let ghost before = suite_views(kept@);
            kept.push(t);
            proof {
                assert(suite_views(kept@) =~= before.push(t@));
                assert(suite_views(kept@).drop_last() =~= before);
            }
            failed = failed + nf;
            passed = passed + np;
            if has_failure || nf > 0 {
                failed_suites = failed_suites + 1;
            }
        }
        i = i + 1;
    }
    assert(fs.take(bridge.test_results.len() as int) =~= fs);
    proof {
        lemma_count_kept_failed_bound(suite_views(kept@));
    }
    let n = kept.len() as u64;
    let success = failed == 0 && failed_suites == 0;
    let aggregated = TestRunAggregated {
        num_total_test_suites: n,
        num_passed_test_suites: n - failed_suites,
        num_failed_test_suites: failed_suites,
        num_total_tests: failed + passed,
        num_passed_tests: passed,
        num_failed_tests: failed,
        num_pending_tests: 0,
        num_todo_tests: 0,
        success,
        ..bridge.aggregated
    };
    TestRunModel { start_time: bridge.start_time, test_results: kept, aggregated }
}


/// A path that starts at the root.
pub open spec fn is_rooted(p: Seq<char>) -> bool {
    p.len() > 0 && p[0] == '/'
}

/// A path with forward slashes, made absolute against `cwd` when it is
/// relative and the working directory is known.
pub open spec fn normalize_abs_posix_spec(input: Seq<char>, cwd: Option<Seq<char>>) -> Seq<char> {
    let posix = backslashes_to_slashes(input);
    if is_rooted(posix) {
        posix
    } else {
        match cwd {
            Some(c) => backslashes_to_slashes(path_join_of(c, posix)),
            None => posix,
        }
    }
}

/// Normalizes a path (see [`normalize_abs_posix_spec`]); `cwd` is the
/// working directory, when it is known.
pub fn normalize_abs_posix(input: &str, cwd: Option<&str>) -> (res: String)
    ensures
        res@ == normalize_abs_posix_spec(
            input@,
            match cwd {
                Some(c) => Some(c@),
                None => None,
            },
        ),
{
    let posix = backslashes_to_slashes_str(input);
    let pv = chars_of(posix.as_str());
    if pv.len() > 0 && pv[0] == '/' {
        return posix;
    }
    match cwd {
        Some(c) => {
            let joined = path_join(c, posix.as_str());
            backslashes_to_slashes_str(joined.as_str())
        },
        None => posix,
    }
}

/// The rank of the first entry for `key`, or `i64::MAX` when there is none.
pub open spec fn rank_of(ranks: Seq<(Seq<char>, i64)>, key: Seq<char>) -> i64
    decreases ranks.len(),
{
    if ranks.len() == 0 {
        i64::MAX
    } else if ranks[0].0 == key {
        ranks[0].1
    } else {
        rank_of(ranks.drop_first(), key)
    }
}

pub open spec fn rank_views(v: Seq<(String, i64)>) -> Seq<(Seq<char>, i64)> {
    v.map_values(|e: (String, i64)| (e.0@, e.1))
}

fn rank_lookup(ranks: &Vec<(String, i64)>, key: &str) -> (res: i64)
    ensures
        res == rank_of(rank_views(ranks@), key@),
{
    let ghost rv = rank_views(ranks@);
    let mut i: usize = 0;
    assert(rv.skip(0) =~= rv);
    while i < ranks.len()
        invariant
            i <= ranks.len(),
            rv == rank_views(ranks@),
            rank_of(rv, key@) == rank_of(rv.skip(i as int), key@),
        decreases ranks.len() - i,
    {
        assert(rv.skip(i as int)[0] == (ranks@[i as int].0@, ranks@[i as int].1));
        if str_eq(ranks[i].0.as_str(), key) {
            return ranks[i].1;
        }
        assert(rv.skip(i as int).drop_first() =~= rv.skip(i + 1));
        i = i + 1;
    }
    i64::MAX
}

/// A suite that failed, by its status or one of its tests.
pub open spec fn file_failed(f: TestSuiteView) -> bool {
    f.status == "failed"@ || count_status(f.test_results, "failed"@) > 0
}

/// The order key of a suite: its rank, then its normalized path.
pub open spec fn order_key(
    f: TestSuiteView,
    ranks: Seq<(Seq<char>, i64)>,
    cwd: Option<Seq<char>>,
) -> (i64, Seq<char>) {
    let p = normalize_abs_posix_spec(f.test_file_path, cwd);
    (rank_of(ranks, p), p)
}

/// Key `a` comes strictly after key `b`.
pub open spec fn key_after(a: (i64, Seq<char>), b: (i64, Seq<char>)) -> bool {
    a.0 > b.0 || (a.0 == b.0 && seq_lt(b.1, a.1))
}

/// `x` inserted into `s` after every element whose key does not come after
/// its own, scanning from the end (one step of a stable insertion sort).
pub open spec fn insert_keyed(
    s: Seq<(i64, Seq<char>, TestSuiteView)>,
    x: (i64, Seq<char>, TestSuiteView),
) -> Seq<(i64, Seq<char>, TestSuiteView)>
    decreases s.len(),
{
    if s.len() == 0 {
        seq![x]
    } else if key_after((s.last().0, s.last().1), (x.0, x.1)) {
        insert_keyed(s.drop_last(), x).push(s.last())
    } else {
        s.push(x)
    }
}

/// The stable sort of keyed suites by key.
pub open spec fn sort_keyed(s: Seq<(i64, Seq<char>, TestSuiteView)>) -> Seq<(i64, Seq<char>, TestSuiteView)>
    decreases s.len(),
{
    if s.len() == 0 {
        Seq::empty()
    } else {
        insert_keyed(sort_keyed(s.drop_last()), s.last())
    }
}

pub open spec fn keyed(
    fs: Seq<TestSuiteView>,
    ranks: Seq<(Seq<char>, i64)>,
    cwd: Option<Seq<char>>,
) -> Seq<(i64, Seq<char>, TestSuiteView)> {
    fs.map_values(|f: TestSuiteView| (order_key(f, ranks, cwd).0, order_key(f, ranks, cwd).1, f))
}

pub open spec fn unkeyed(s: Seq<(i64, Seq<char>, TestSuiteView)>) -> Seq<TestSuiteView> {
    s.map_values(|e: (i64, Seq<char>, TestSuiteView)| e.2)
}

/// The suites in the order of the report: reversed when nothing is ranked
/// and nothing failed, else stably sorted by rank, then by normalized path.
pub open spec fn reorder_spec(
    fs: Seq<TestSuiteView>,
    ranks: Seq<(Seq<char>, i64)>,
    cwd: Option<Seq<char>>,
) -> Seq<TestSuiteView> {
    if ranks.len() == 0 && forall|k: int| 0 <= k < fs.len() ==> !file_failed(#[trigger] fs[k]) {
        fs.reverse()
    } else {
        unkeyed(sort_keyed(keyed(fs, ranks, cwd)))
    }
}

/// Where `insert_keyed` puts `x`: after the last element that does not
/// come after it.
pub open spec fn insert_pos(s: Seq<(i64, Seq<char>, TestSuiteView)>, x: (i64, Seq<char>, TestSuiteView)) -> int
    decreases s.len(),
{
    if s.len() == 0 {
        0
    } else if key_after((s.last().0, s.last().1), (x.0, x.1)) {
        insert_pos(s.drop_last(), x)
    } else {
        s.len() as int
    }
}

proof fn lemma_insert_keyed(s: Seq<(i64, Seq<char>, TestSuiteView)>, x: (i64, Seq<char>, TestSuiteView))
    ensures
        0 <= insert_pos(s, x) <= s.len(),
        insert_keyed(s, x) == s.insert(insert_pos(s, x), x),
    decreases s.len(),
{
    if s.len() > 0 && key_after((s.last().0, s.last().1), (x.0, x.1)) {
        lemma_insert_keyed(s.drop_last(), x);
        let p = insert_pos(s.drop_last(), x);
        assert(s.drop_last().insert(p, x).push(s.last()) =~= s.insert(p, x));
    } else if s.len() > 0 {
        assert(s.push(x) =~= s.insert(s.len() as int, x));
    } else {
        assert(seq![x] =~= s.insert(0, x));
    }
}

/// The key of a suite (see [`order_key`]).
fn key_of(f: &TestSuiteResult, ranks: &Vec<(String, i64)>, cwd: Option<&str>) -> (res: (i64, String))
    ensures
        (res.0, res.1@) == order_key(
            f@,
            rank_views(ranks@),
            match cwd {
                Some(c) => Some(c@),
                None => None,
            },
        ),
{
    let p = normalize_abs_posix(f.test_file_path.as_str(), cwd);
    let r = rank_lookup(ranks, p.as_str());
    (r, p)
}

fn key_after_exec(a: &(i64, String, TestSuiteResult), b: &(i64, String, TestSuiteResult)) -> (res: bool)
    ensures
        res == key_after((a.0, a.1@), (b.0, b.1@)),
{
    a.0 > b.0 || (a.0 == b.0 && str_lt(b.1.as_str(), a.1.as_str()))
}

pub open spec fn keyed_views(v: Seq<(i64, String, TestSuiteResult)>) -> Seq<(i64, Seq<char>, TestSuiteView)> {
    v.map_values(|e: (i64, String, TestSuiteResult)| (e.0, e.1@, e.2@))
}

/// Whether one of the tests failed.
fn has_failed_case(cases: &Vec<TestCaseResult>) -> (res: bool)
    ensures
        res == (count_status(case_views(cases@), "failed"@) > 0),
{
    let ghost cv = case_views(cases@);
    let mut j: usize = 0;
    while j < cases.len()
        invariant
            j <= cases.len(),
            cv == case_views(cases@),
            count_status(cv.take(j as int), "failed"@) == 0,
        decreases cases.len() - j,
    {
        assert(cv.take(j + 1).drop_last() =~= cv.take(j as int));
        assert(cv.take(j + 1).last() == cases@[j as int]@);
        if str_eq(cases[j].status.as_str(), "failed") {
            assert(count_status(cv.take(j + 1), "failed"@) > 0);
            proof {
                lemma_count_status_prefix(cv, j + 1);
            }
            return true;
        }
        j = j + 1;
    }
    assert(cv.take(cases.len() as int) =~= cv);
    false
}

/// Whether any suite failed.
fn any_file_failed(v: &Vec<TestSuiteResult>) -> (res: bool)
    ensures
        res == exists|k: int| 0 <= k < v.len() && file_failed(#[trigger] suite_views(v@)[k]),
{
    let ghost fv = suite_views(v@);
    let mut i: usize = 0;
    while i < v.len()
        invariant
            i <= v.len(),
            fv == suite_views(v@),
            forall|k: int| 0 <= k < i ==> !file_failed(#[trigger] fv[k]),
        decreases v.len() - i,
    {
        let f = &v[i];
        assert(fv[i as int] == f@);
        if str_eq(f.status.as_str(), "failed") || has_failed_case(&f.test_results) {
            assert(file_failed(fv[i as int]));
            return true;
        }
        i = i + 1;
    }
    false
}

proof fn lemma_count_status_prefix(s: Seq<TestCaseView>, i: int)
    requires
        0 <= i <= s.len(),
    ensures
        count_status(s.take(i), "failed"@) <= count_status(s, "failed"@),
    decreases s.len(),
{
    if i < s.len() {
        assert(s.drop_last().take(i) =~= s.take(i));
        lemma_count_status_prefix(s.drop_last(), i);
    } else {
        assert(s.take(i) =~= s);
    }
}

/// Puts the suites in the order of the report (see [`reorder_spec`]).
pub fn reorder_test_results_original_style(
    test_results: &mut Vec<TestSuiteResult>,
    ranks: &Vec<(String, i64)>,
    cwd: Option<&str>,
)
    ensures
        suite_views(final(test_results)@) == reorder_spec(
            suite_views(old(test_results)@),
            rank_views(ranks@),
            match cwd {
                Some(c) => Some(c@),
                None => None,
            },
        ),
{
    let ghost fs = suite_views(test_results@);
    let ghost cw = match cwd {
        Some(c) => Some(c@),
        None => None,
    };
    let ghost rv = rank_views(ranks@);
    let failed = any_file_failed(test_results);
    if ranks.len() == 0 && !failed {
        let mut out: Vec<TestSuiteResult> = Vec::new();
        let mut i: usize = test_results.len();
        while i > 0
            invariant
                i <= test_results.len(),
                fs == suite_views(test_results@),
                suite_views(out@) == fs.reverse().take(test_results.len() - i),
            decreases i,
        {
            let ghost before = suite_views(out@);
            out.push(copy_suite(&test_results[i - 1]));
            assert(suite_views(out@) =~= before.push(fs[i - 1]));
            assert(fs.reverse().take(test_results.len() - i + 1) =~= fs.reverse().take(
                test_results.len() - i,
            ).push(fs[i - 1]));
            i = i - 1;
        }
        assert(fs.reverse().take(test_results.len() as int) =~= fs.reverse());
        assert(rv.len() == 0);
        *test_results = out;
        return;
    }
    assert(!(rv.len() == 0 && forall|k: int| 0 <= k < fs.len() ==> !file_failed(#[trigger] fs[k])));
    let mut sorted: Vec<(i64, String, TestSuiteResult)> = Vec::new();
    let mut i: usize = 0;
    let ghost ks = keyed(fs, rv, cw);
    while i < test_results.len()
        invariant
            i <= test_results.len(),
            fs == suite_views(test_results@),
            ks == keyed(fs, rv, cw),
            rv == rank_views(ranks@),
            cw == match cwd {
                Some(c) => Some(c@),
                None => None,
            },
            keyed_views(sorted@) == sort_keyed(ks.take(i as int)),
        decreases test_results.len() - i,
    {
        let f = &test_results[i];
        let (r, p) = key_of(f, ranks, cwd);
        let x = (r, p, copy_suite(f));
        let ghost xv = (x.0, x.1@, x.2@);
        assert(xv == ks[i as int]);
        let mut j: usize = sorted.len();
        proof {
            lemma_insert_keyed(keyed_views(sorted@), xv);
        }
        assert(keyed_views(sorted@).take(j as int) =~= keyed_views(sorted@));
        while j > 0 && key_after_exec(&sorted[j - 1], &x)
            invariant
                j <= sorted.len(),
                xv == (x.0, x.1@, x.2@),
                insert_pos(keyed_views(sorted@), xv) == insert_pos(keyed_views(sorted@).take(j as int), xv),
            decreases j,
        {
            assert(keyed_views(sorted@).take(j as int).drop_last() =~= keyed_views(sorted@).take(j - 1));
            assert(keyed_views(sorted@).take(j as int).last() == keyed_views(sorted@)[j - 1]);
            j = j - 1;
        }
        proof {
            if j > 0 {
                assert(keyed_views(sorted@).take(j as int).last() == keyed_views(sorted@)[j - 1]);
            }
            assert(insert_pos(keyed_views(sorted@).take(j as int), xv) == j);
        }
        let ghost before = keyed_views(sorted@);
        sorted.insert(j, x);
        assert(keyed_views(sorted@) =~= before.insert(j as int, xv));
        assert(ks.take(i + 1).drop_last() =~= ks.take(i as int));
        i = i + 1;
    }
    assert(ks.take(test_results.len() as int) =~= ks);
    let mut out: Vec<TestSuiteResult> = Vec::new();
    let mut k: usize = 0;
    let ghost sv = keyed_views(sorted@);
    while k < sorted.len()
        invariant
            k <= sorted.len(),
            sv == keyed_views(sorted@),
            suite_views(out@) == unkeyed(sv).take(k as int),
        decreases sorted.len() - k,
    {
        let ghost before = suite_views(out@);
        out.push(copy_suite(&sorted[k].2));
        assert(suite_views(out@) =~= before.push(sv[k as int].2));
        assert(unkeyed(sv).take(k + 1) =~= unkeyed(sv).take(k as int).push(sv[k as int].2));
        k = k + 1;
    }
    assert(unkeyed(sv).take(sorted.len() as int) =~= unkeyed(sv));
    *test_results = out;
}


pub open spec fn run_views(v: Seq<TestRunModel>) -> Seq<TestRunView> {
    v.map_values(|m: TestRunModel| m@)
}

pub open spec fn opt0(o: Option<u64>) -> nat {
    match o {
        Some(v) => v as nat,
        None => 0,
    }
}

/// The count numbered `k` of an aggregate: the suite counts (0 to 2), the
/// test counts (3 to 7), the timed-out counts (8, 9) and the run time (10),
/// an absent one read as zero.
pub open spec fn agg_field(a: TestRunAggregated, k: nat) -> nat {
    if k == 0 {
        a.num_total_test_suites as nat
    } else if k == 1 {
        a.num_passed_test_suites as nat
    } else if k == 2 {
        a.num_failed_test_suites as nat
    } else if k == 3 {
        a.num_total_tests as nat
    } else if k == 4 {
        a.num_passed_tests as nat
    } else if k == 5 {
        a.num_failed_tests as nat
    } else if k == 6 {
        a.num_pending_tests as nat
    } else if k == 7 {
        a.num_todo_tests as nat
    } else if k == 8 {
        opt0(a.num_timed_out_tests)
    } else if k == 9 {
        opt0(a.num_timed_out_test_suites)
    } else {
        opt0(a.run_time_ms)
    }
}

/// The sum of count `k` over all runs.
pub open spec fn sum_field(ms: Seq<TestRunView>, k: nat) -> nat
    decreases ms.len(),
{
    if ms.len() == 0 {
        0
    } else {
        sum_field(ms.drop_last(), k) + agg_field(ms.last().aggregated, k)
    }
}

/// Every sum fits in a `u64`.
pub open spec fn sums_fit(ms: Seq<TestRunView>) -> bool {
    forall|k: nat| k <= 10 ==> #[trigger] sum_field(ms, k) <= u64::MAX
}

/// The earliest start time.
pub open spec fn min_start(ms: Seq<TestRunView>) -> u64
    decreases ms.len(),
{
    if ms.len() <= 1 {
        if ms.len() == 1 {
            ms[0].start_time
        } else {
            0
        }
    } else {
        let m = min_start(ms.drop_last());
        if ms.last().start_time < m {
            ms.last().start_time
        } else {
            m
        }
    }
}

/// The suites of all runs, run after run.
pub open spec fn concat_suites(ms: Seq<TestRunView>) -> Seq<TestSuiteView>
    decreases ms.len(),
{
    if ms.len() == 0 {
        Seq::empty()
    } else {
        concat_suites(ms.drop_last()) + ms.last().test_results
    }
}

pub open spec fn all_success(ms: Seq<TestRunView>) -> bool {
    forall|k: int| 0 <= k < ms.len() ==> (#[trigger] ms[k]).aggregated.success
}

/// One model for the runs of several projects: none for no run, the run
/// itself for one (its suites put in report order), else the suites of all
/// runs in report order, the earliest start, the counts and run times
/// added up, and success when every run succeeded.
pub open spec fn merge_bridge_spec(
    ms: Seq<TestRunView>,
    ranks: Seq<(Seq<char>, i64)>,
    cwd: Option<Seq<char>>,
) -> Option<TestRunView> {
    if ms.len() == 0 {
        None
    } else if ms.len() == 1 {
        Some(TestRunView { test_results: reorder_spec(ms[0].test_results, ranks, cwd), ..ms[0] })
    } else {
        let st = min_start(ms);
        Some(
            TestRunView {
                start_time: st,
                test_results: reorder_spec(concat_suites(ms), ranks, cwd),
                aggregated: TestRunAggregated {
                    num_total_test_suites: sum_field(ms, 0) as u64,
                    num_passed_test_suites: sum_field(ms, 1) as u64,
                    num_failed_test_suites: sum_field(ms, 2) as u64,
                    num_total_tests: sum_field(ms, 3) as u64,
                    num_passed_tests: sum_field(ms, 4) as u64,
                    num_failed_tests: sum_field(ms, 5) as u64,
                    num_pending_tests: sum_field(ms, 6) as u64,
                    num_todo_tests: sum_field(ms, 7) as u64,
                    num_timed_out_tests: Some(sum_field(ms, 8) as u64),
                    num_timed_out_test_suites: Some(sum_field(ms, 9) as u64),
                    start_time: st,
                    success: all_success(ms),
                    run_time_ms: Some(sum_field(ms, 10) as u64),
                },
            },
        )
    }
}

proof fn lemma_sum_field_prefix(ms: Seq<TestRunView>, i: int, k: nat)
    requires
        0 <= i <= ms.len(),
    ensures
        sum_field(ms.take(i), k) <= sum_field(ms, k),
    decreases ms.len(),
{
    if i < ms.len() {
        assert(ms.drop_last().take(i) =~= ms.take(i));
        lemma_sum_field_prefix(ms.drop_last(), i, k);
    } else {
        assert(ms.take(i) =~= ms);
    }
}

fn add_field(acc: u64, v: u64, Ghost(ms): Ghost<Seq<TestRunView>>, Ghost(i): Ghost<int>, Ghost(k): Ghost<nat>) -> (res: u64)
    requires
        0 <= i < ms.len(),
        acc == sum_field(ms.take(i), k),
        v == agg_field(ms[i].aggregated, k),
        sum_field(ms, k) <= u64::MAX,
    ensures
        res == sum_field(ms.take(i + 1), k),
{
    proof {
        lemma_sum_field_prefix(ms, i + 1, k);
        assert(ms.take(i + 1).drop_last() =~= ms.take(i));
    }
    acc + v
}

fn opt_or_zero(o: Option<u64>) -> (res: u64)
    ensures
        res == opt0(o),
{
    match o {
        Some(v) => v,
        None => 0,
    }
}

/// Merges the models of several project runs (see [`merge_bridge_spec`]);
/// `ranks` gives the rank of each normalized test path, `cwd` the working
/// directory when it is known.
pub fn merge_bridge_json(items: &[TestRunModel], ranks: &Vec<(String, i64)>, cwd: Option<&str>) -> (res: Option<
    TestRunModel,
>)
    requires
        items.len() >= 2 ==> sums_fit(run_views(items@)),
    ensures
        match res {
            Some(m) => merge_bridge_spec(
                run_views(items@),
                rank_views(ranks@),
                match cwd {
                    Some(c) => Some(c@),
                    None => None,
                },
            ) == Some(m@),
            None => merge_bridge_spec(
                run_views(items@),
                rank_views(ranks@),
                match cwd {
                    Some(c) => Some(c@),
                    None => None,
                },
            ) is None,
        },
{
    let ghost ms = run_views(items@);
    if items.len() == 0 {
        return None;
    }
    if items.len() == 1 {
        let only = &items[0];
        assert(ms[0] == only@);
        let mut suites = copy_suites(&only.test_results);
        reorder_test_results_original_style(&mut suites, ranks, cwd);
        return Some(TestRunModel { start_time: only.start_time, test_results: suites, aggregated: only.aggregated });
    }
    proof {
        assert(sum_field(ms, 0) <= u64::MAX);
        assert(sum_field(ms, 1) <= u64::MAX);
        assert(sum_field(ms, 2) <= u64::MAX);
        assert(sum_field(ms, 3) <= u64::MAX);
        assert(sum_field(ms, 4) <= u64::MAX);
        assert(sum_field(ms, 5) <= u64::MAX);
        assert(sum_field(ms, 6) <= u64::MAX);
        assert(sum_field(ms, 7) <= u64::MAX);
        assert(sum_field(ms, 8) <= u64::MAX);
        assert(sum_field(ms, 9) <= u64::MAX);
        assert(sum_field(ms, 10) <= u64::MAX);
    }
    let mut start = items[0].start_time;
    let mut sums: [u64; 11] = [0u64; 11];
    let mut success = true;
    let mut all: Vec<TestSuiteResult> = Vec::new();
    let mut i: usize = 0;
    assert(ms.take(1) =~= seq![ms[0]]);
    while i < items.len()
        invariant
            2 <= items.len(),
            i <= items.len(),
            ms == run_views(items@),
            forall|k: nat| k <= 10 ==> #[trigger] sum_field(ms, k) <= u64::MAX,
            forall|k: int| 0 <= k <= 10 ==> sums@[k] == sum_field(ms.take(i as int), k as nat),
            start == if i == 0 {
                ms[0].start_time
            } else {
                min_start(ms.take(i as int))
            },
            success == all_success(ms.take(i as int)),
            suite_views(all@) == concat_suites(ms.take(i as int)),
        decreases items.len() - i,
    {
        let m = &items[i];
        assert(ms[i as int] == m@);
        assert(ms.take(i + 1).drop_last() =~= ms.take(i as int));
        assert(ms.take(i + 1).last() == m@);
        let a = m.aggregated;
        let ghost gi = i as int;
        let mut k: usize = 0;
        let vals: [u64; 11] = [
            a.num_total_test_suites,
            a.num_passed_test_suites,
            a.num_failed_test_suites,
            a.num_total_tests,
            a.num_passed_tests,
            a.num_failed_tests,
            a.num_pending_tests,
            a.num_todo_tests,
            opt_or_zero(a.num_timed_out_tests),
            opt_or_zero(a.num_timed_out_test_suites),
            opt_or_zero(a.run_time_ms),
        ];
        assert(forall|k: int| 0 <= k <= 10 ==> vals@[k] == agg_field(ms[gi].aggregated, k as nat));
        let ghost old_sums = sums@;
        while k < 11
            invariant
                0 <= gi < ms.len(),
                ms == run_views(items@),
                k <= 11,
                forall|j: nat| j <= 10 ==> #[trigger] sum_field(ms, j) <= u64::MAX,
                forall|j: int| 0 <= j <= 10 ==> vals@[j] == agg_field(ms[gi].aggregated, j as nat),
                forall|j: int| 0 <= j <= 10 ==> old_sums[j] == sum_field(ms.take(gi), j as nat),
                forall|j: int| 0 <= j < k ==> sums@[j] == sum_field(ms.take(gi + 1), j as nat),
                forall|j: int| k <= j <= 10 ==> sums@[j] == old_sums[j],
            decreases 11 - k,
        {
            assert(sum_field(ms, k as nat) <= u64::MAX);
            assert(sums@[k as int] == old_sums[k as int]);
            let nv = add_field(sums[k], vals[k], Ghost(ms), Ghost(gi), Ghost(k as nat));
            sums[k] = nv;
            k = k + 1;
        }
        if i > 0 && m.start_time < start {
            start = m.start_time;
        }
        proof {
            if i == 0 {
                assert(ms.take(1) =~= seq![ms[0]]);
            }
        }
        proof {
            let t1 = ms.take(i + 1);
            let t0 = ms.take(i as int);
            if all_success(t0) && a.success {
                assert forall|k: int| 0 <= k < t1.len() implies (#[trigger] t1[k]).aggregated.success by {
                    if k < i {
                        assert(t1[k] == t0[k]);
                    }
                }
            }
            if !all_success(t0) {
                let w = choose|k: int| 0 <= k < t0.len() && !(#[trigger] t0[k]).aggregated.success;
                assert(t1[w] == t0[w]);
            }
            if !a.success {
                assert(t1[i as int] == m@);
            }
        }
        success = success && a.success;
        let ghost before = suite_views(all@);
        let mut j: usize = 0;
        while j < m.test_results.len()
            invariant
                j <= m.test_results.len(),
                suite_views(all@) == before + suite_views(m.test_results@).take(j as int),
            decreases m.test_results.len() - j,
        {
            let ghost b2 = suite_views(all@);
            all.push(copy_suite(&m.test_results[j]));
            assert(suite_views(all@) =~= b2.push(m.test_results@[j as int]@));
            assert(suite_views(m.test_results@).take(j + 1) =~= suite_views(m.test_results@).take(j as int).push(
                m.test_results@[j as int]@,
            ));
            j = j + 1;
        }
        assert(suite_views(m.test_results@).take(m.test_results.len() as int) =~= suite_views(m.test_results@));
        assert(m@.test_results == suite_views(m.test_results@));
        i = i + 1;
    }
    assert(ms.take(items.len() as int) =~= ms);
    reorder_test_results_original_style(&mut all, ranks, cwd);
    let aggregated = TestRunAggregated {
        num_total_test_suites: sums[0],
        num_passed_test_suites: sums[1],
        num_failed_test_suites: sums[2],
        num_total_tests: sums[3],
        num_passed_tests: sums[4],
        num_failed_tests: sums[5],
        num_pending_tests: sums[6],
        num_todo_tests: sums[7],
        num_timed_out_tests: Some(sums[8]),
        num_timed_out_test_suites: Some(sums[9]),
        start_time: start,
        success,
        run_time_ms: Some(sums[10]),
    };
    Some(TestRunModel { start_time: start, test_results: all, aggregated })
}


proof fn lemma_ran_cases_idempotent(cs: Seq<TestCaseView>)
    ensures
        ran_cases(ran_cases(cs)) == ran_cases(cs),
        forall|j: int| 0 <= j < ran_cases(cs).len() ==> ran(#[trigger] ran_cases(cs)[j]),
    decreases cs.len(),
{
    if cs.len() > 0 {
        lemma_ran_cases_idempotent(cs.drop_last());
        let r = ran_cases(cs.drop_last());
        if ran(cs.last()) {
            assert(r.push(cs.last()).drop_last() =~= r);
            assert(r.push(cs.last()).last() == cs.last());
            assert forall|j: int| 0 <= j < r.push(cs.last()).len() implies ran(#[trigger] r.push(cs.last())[j]) by {
                if j < r.len() {
                    assert(r.push(cs.last())[j] == r[j]);
                }
            }
        }
    }
}

proof fn lemma_kept_suites(fs: Seq<TestSuiteView>)
    ensures
        kept_suites(kept_suites(fs)) == kept_suites(fs),
        kept_suites(fs).len() <= fs.len(),
        total_cases(kept_suites(fs)) <= total_cases(fs),
        total_status(kept_suites(fs), "failed"@) + total_status(kept_suites(fs), "passed"@) == total_cases(
            kept_suites(fs),
        ),
        count_kept_failed(kept_suites(fs)) <= kept_suites(fs).len(),
        forall|i: int, j: int|
            0 <= i < kept_suites(fs).len() && 0 <= j < kept_suites(fs)[i].test_results.len() ==> ran(
                #[trigger] kept_suites(fs)[i].test_results[j],
            ),
    decreases fs.len(),
{
    lemma_count_kept_failed_bound(kept_suites(fs));
    if fs.len() > 0 {
        lemma_kept_suites(fs.drop_last());
        let r = kept_suites(fs.drop_last());
        let f = fs.last();
        let t = with_ran_cases(f);
        lemma_ran_cases_idempotent(f.test_results);
        lemma_ran_cases(f.test_results);
        if t.test_results.len() > 0 || suite_has_failure(f) {
            let k = r.push(t);
            assert(k.drop_last() =~= r);
            assert(k.last() == t);
            assert(with_ran_cases(t) == t);
            assert(suite_has_failure(t) == suite_has_failure(f));
            assert(kept_suites(k) == kept_suites(r).push(t));
            assert forall|i: int, j: int| 0 <= i < k.len() && 0 <= j < k[i].test_results.len() implies ran(
                #[trigger] k[i].test_results[j],
            ) by {
                if i < r.len() {
                    assert(k[i] == r[i]);
                }
            }
        }
    }
}

/// What a name pattern ran, counted again: every test kept passed or
/// failed; passed and failed suites add up to all suites and passed and
/// failed tests to all tests; the run succeeds exactly when no test and no
/// suite failed; and keeping what a name pattern ran a second time changes
/// nothing.
pub proof fn law_name_pattern_only(m: TestRunView)
    requires
        total_cases(m.test_results) <= u64::MAX,
        m.test_results.len() <= u64::MAX,
    ensures
        forall|i: int, j: int|
            0 <= i < name_pattern_only_spec(m).test_results.len() && 0 <= j < name_pattern_only_spec(
                m,
            ).test_results[i].test_results.len() ==> ran(
                #[trigger] name_pattern_only_spec(m).test_results[i].test_results[j],
            ),
        name_pattern_only_spec(m).aggregated.num_passed_test_suites + name_pattern_only_spec(
            m,
        ).aggregated.num_failed_test_suites == name_pattern_only_spec(m).aggregated.num_total_test_suites,
        name_pattern_only_spec(m).aggregated.num_passed_tests + name_pattern_only_spec(m).aggregated.num_failed_tests
            == name_pattern_only_spec(m).aggregated.num_total_tests,
        name_pattern_only_spec(m).aggregated.success <==> (name_pattern_only_spec(m).aggregated.num_failed_tests == 0
            && name_pattern_only_spec(m).aggregated.num_failed_test_suites == 0),
        name_pattern_only_spec(name_pattern_only_spec(m)) == name_pattern_only_spec(m),
{
    lemma_kept_suites(m.test_results);
    let r = name_pattern_only_spec(m);
    assert(r.test_results == kept_suites(m.test_results));
    assert(name_pattern_only_spec(r).test_results == r.test_results);
    assert(name_pattern_only_spec(r).aggregated == r.aggregated);
}


proof fn lemma_sort_keyed_permutes(s: Seq<(i64, Seq<char>, TestSuiteView)>)
    ensures
        unkeyed(sort_keyed(s)).to_multiset() == unkeyed(s).to_multiset(),
        sort_keyed(s).len() == s.len(),
    decreases s.len(),
{
    broadcast use vstd::seq_lib::to_multiset_build, vstd::seq_lib::to_multiset_insert;

    if s.len() > 0 {
        let prev = sort_keyed(s.drop_last());
        lemma_sort_keyed_permutes(s.drop_last());
        lemma_insert_keyed(prev, s.last());
        let p = insert_pos(prev, s.last());
        assert(unkeyed(prev.insert(p, s.last())) =~= unkeyed(prev).insert(p, s.last().2));
        assert(unkeyed(s) =~= unkeyed(s.drop_last()).push(s.last().2));
        assert(unkeyed(prev).insert(p, s.last().2).to_multiset() == unkeyed(prev).to_multiset().insert(s.last().2));
        assert(unkeyed(s.drop_last()).push(s.last().2).to_multiset() == unkeyed(s.drop_last()).to_multiset().insert(
            s.last().2,
        ));
        assert(sort_keyed(s) == prev.insert(p, s.last()));
        assert(unkeyed(sort_keyed(s)).to_multiset() == unkeyed(prev).insert(p, s.last().2).to_multiset());
    } else {
        assert(s =~= Seq::<(i64, Seq<char>, TestSuiteView)>::empty());
        assert(sort_keyed(s) =~= s);
    }
}

/// Putting suites in report order neither loses nor repeats one: the
/// result holds the same suites, as often as the input does.
pub proof fn law_reorder_permutes(fs: Seq<TestSuiteView>, ranks: Seq<(Seq<char>, i64)>, cwd: Option<Seq<char>>)
    ensures
        reorder_spec(fs, ranks, cwd).to_multiset() == fs.to_multiset(),
        reorder_spec(fs, ranks, cwd).len() == fs.len(),
{
    if ranks.len() == 0 && forall|k: int| 0 <= k < fs.len() ==> !file_failed(#[trigger] fs[k]) {
        fs.lemma_reverse_to_multiset();
    } else {
        let ks = keyed(fs, ranks, cwd);
        lemma_sort_keyed_permutes(ks);
        assert(unkeyed(ks) =~= fs);
    }
}


proof fn lemma_key_order(a: (i64, Seq<char>), b: (i64, Seq<char>), c: (i64, Seq<char>))
    ensures
        key_after(a, b) ==> !key_after(b, a),
        (!key_after(a, b) && !key_after(b, c)) ==> !key_after(a, c),
        (key_after(a, b) && !key_after(c, b)) ==> key_after(a, c),
{
    lemma_seq_lt_total(a.1, b.1);
    lemma_seq_lt_total(b.1, c.1);
    lemma_seq_lt_total(a.1, c.1);
    lemma_seq_lt_irreflexive(a.1);
    lemma_seq_lt_irreflexive(b.1);
    if seq_lt(b.1, a.1) {
        lemma_seq_lt_asymmetric(b.1, a.1);
    }
    if seq_lt(a.1, b.1) && seq_lt(b.1, c.1) {
        lemma_seq_lt_transitive(a.1, b.1, c.1);
    }
    if seq_lt(c.1, b.1) && seq_lt(b.1, a.1) {
        lemma_seq_lt_transitive(c.1, b.1, a.1);
    }
    if seq_lt(c.1, a.1) {
        lemma_seq_lt_asymmetric(c.1, a.1);
    }
    if seq_lt(a.1, c.1) {
        lemma_seq_lt_asymmetric(a.1, c.1);
    }
    if seq_lt(b.1, c.1) {
        lemma_seq_lt_asymmetric(b.1, c.1);
    }
    if seq_lt(a.1, b.1) {
        lemma_seq_lt_asymmetric(a.1, b.1);
    }
    if seq_lt(c.1, b.1) {
        lemma_seq_lt_asymmetric(c.1, b.1);
    }
}

pub open spec fn entry_key(e: (i64, Seq<char>, TestSuiteView)) -> (i64, Seq<char>) {
    (e.0, e.1)
}

/// Keyed suites in key order.
pub open spec fn keys_sorted(s: Seq<(i64, Seq<char>, TestSuiteView)>) -> bool {
    forall|i: int, j: int| 0 <= i < j < s.len() ==> !key_after(entry_key(#[trigger] s[i]), entry_key(#[trigger] s[j]))
}

proof fn lemma_insert_pos_bounds(s: Seq<(i64, Seq<char>, TestSuiteView)>, x: (i64, Seq<char>, TestSuiteView))
    ensures
        0 <= insert_pos(s, x) <= s.len(),
        forall|i: int| insert_pos(s, x) <= i < s.len() ==> key_after(entry_key(#[trigger] s[i]), entry_key(x)),
        insert_pos(s, x) > 0 ==> !key_after(entry_key(s[insert_pos(s, x) - 1]), entry_key(x)),
    decreases s.len(),
{
    if s.len() > 0 && key_after(entry_key(s.last()), entry_key(x)) {
        lemma_insert_pos_bounds(s.drop_last(), x);
        let p = insert_pos(s.drop_last(), x);
        assert forall|i: int| p <= i < s.len() implies key_after(entry_key(#[trigger] s[i]), entry_key(x)) by {
            if i < s.len() - 1 {
                assert(s[i] == s.drop_last()[i]);
            }
        }
        if p > 0 {
            assert(s[p - 1] == s.drop_last()[p - 1]);
        }
    }
}

proof fn lemma_insert_keyed_sorted(s: Seq<(i64, Seq<char>, TestSuiteView)>, x: (i64, Seq<char>, TestSuiteView))
    requires
        keys_sorted(s),
    ensures
        keys_sorted(insert_keyed(s, x)),
{
    lemma_insert_keyed(s, x);
    lemma_insert_pos_bounds(s, x);
    let p = insert_pos(s, x);
    let r = s.insert(p, x);
    assert forall|i: int, j: int| 0 <= i < j < r.len() implies !key_after(
        entry_key(#[trigger] r[i]),
        entry_key(#[trigger] r[j]),
    ) by {
        if j < p {
            assert(r[i] == s[i] && r[j] == s[j]);
        } else if j == p {
            assert(r[j] == x);
            assert(r[i] == s[i]);
            if i < p - 1 {
                lemma_key_order(entry_key(s[i]), entry_key(s[p - 1]), entry_key(x));
            }
        } else if i < p {
            assert(r[i] == s[i] && r[j] == s[j - 1]);
        } else if i == p {
            assert(r[i] == x && r[j] == s[j - 1]);
            lemma_key_order(entry_key(s[j - 1]), entry_key(x), entry_key(x));
        } else {
            assert(r[i] == s[i - 1] && r[j] == s[j - 1]);
        }
    }
}

/// Each entry carries the key of its suite.
pub open spec fn keys_match(s: Seq<(i64, Seq<char>, TestSuiteView)>, ranks: Seq<(Seq<char>, i64)>, cwd: Option<
    Seq<char>,
>) -> bool {
    forall|i: int| 0 <= i < s.len() ==> entry_key(#[trigger] s[i]) == order_key(s[i].2, ranks, cwd)
}

proof fn lemma_sort_keyed_sorted(s: Seq<(i64, Seq<char>, TestSuiteView)>, ranks: Seq<(Seq<char>, i64)>, cwd: Option<
    Seq<char>,
>)
    requires
        keys_match(s, ranks, cwd),
    ensures
        keys_sorted(sort_keyed(s)),
        keys_match(sort_keyed(s), ranks, cwd),
    decreases s.len(),
{
    if s.len() > 0 {
        assert(keys_match(s.drop_last(), ranks, cwd)) by {
            assert forall|i: int| 0 <= i < s.drop_last().len() implies entry_key(#[trigger] s.drop_last()[i])
                == order_key(s.drop_last()[i].2, ranks, cwd) by {
                assert(s.drop_last()[i] == s[i]);
            }
        }
        lemma_sort_keyed_sorted(s.drop_last(), ranks, cwd);
        let prev = sort_keyed(s.drop_last());
        lemma_insert_keyed_sorted(prev, s.last());
        lemma_insert_keyed(prev, s.last());
        let p = insert_pos(prev, s.last());
        let r = prev.insert(p, s.last());
        assert forall|i: int| 0 <= i < r.len() implies entry_key(#[trigger] r[i]) == order_key(r[i].2, ranks, cwd) by {
            if i < p {
                assert(r[i] == prev[i]);
            } else if i > p {
                assert(r[i] == prev[i - 1]);
            }
        }
    } else {
        assert(sort_keyed(s) =~= Seq::<(i64, Seq<char>, TestSuiteView)>::empty());
    }
}

/// When ranks are given or a suite failed, the report lists the suites by
/// rank, and suites of equal rank by their normalized paths: no suite
/// comes after one whose key is smaller.
pub proof fn law_reorder_sorted(fs: Seq<TestSuiteView>, ranks: Seq<(Seq<char>, i64)>, cwd: Option<Seq<char>>)
    requires
        !(ranks.len() == 0 && forall|k: int| 0 <= k < fs.len() ==> !file_failed(#[trigger] fs[k])),
    ensures
        forall|i: int, j: int|
            0 <= i < j < reorder_spec(fs, ranks, cwd).len() ==> !key_after(
                order_key(#[trigger] reorder_spec(fs, ranks, cwd)[i], ranks, cwd),
                order_key(#[trigger] reorder_spec(fs, ranks, cwd)[j], ranks, cwd),
            ),
{
    let ks = keyed(fs, ranks, cwd);
    assert(keys_match(ks, ranks, cwd));
    lemma_sort_keyed_sorted(ks, ranks, cwd);
    let sk = sort_keyed(ks);
    let r = unkeyed(sk);
    assert(reorder_spec(fs, ranks, cwd) == r);
    assert forall|i: int, j: int| 0 <= i < j < r.len() implies !key_after(
        order_key(#[trigger] r[i], ranks, cwd),
        order_key(#[trigger] r[j], ranks, cwd),
    ) by {
        assert(r[i] == sk[i].2 && r[j] == sk[j].2);
        assert(entry_key(sk[i]) == order_key(sk[i].2, ranks, cwd));
        assert(entry_key(sk[j]) == order_key(sk[j].2, ranks, cwd));
    }
}

} // verus!
