//! The summary at the foot of the Vitest-style report: counts of files and
//! tests by outcome, and the run time.
use crate::format::ansi::{bold, dim, styled};
use crate::format::colors::{color_hex_spec, failure, skip, success, todo};
use crate::format::nextest::{count_suite_status, sum_len, sum_status};
use crate::format::case_map::{count_status, count_with_status, lemma_count_status_bound};
use crate::format::stacks::{ansi_stripped, strip_ansi_simple};
use crate::format::time::{format_duration, pretty_duration, Duration};
use crate::format::unstructured_engine::sat_add;
use crate::test_model::{case_views, suite_views, TestCaseView, TestRunAggregated, TestSuiteResult, TestSuiteView};
use crate::text::{
    concat2, dec, ends_with, is_blank, is_blank_str, join, join_strs, lines, lines_of, owned, push_str, starts_with,
    starts_with_str, str_eq, trim_start, trim_start_str, u64_to_dec, views,
};
use vstd::prelude::*;

verus! {

/// How many results have timed out.
pub open spec fn count_timed_out(s: Seq<TestCaseView>) -> nat
    decreases s.len(),
{
    if s.len() == 0 {
        0
    } else {
        count_timed_out(s.drop_last()) + if s.last().timed_out == Some(true) {
            1nat
        } else {
            0nat
        }
    }
}

/// Timed-out results over all suites (capped at `u64::MAX`).
pub open spec fn sum_timed_out(s: Seq<TestSuiteView>) -> u64
    decreases s.len(),
{
    if s.len() == 0 {
        0
    } else {
        sat_add(sum_timed_out(s.drop_last()), count_timed_out(s.last().test_results))
    }
}

/// A suite that failed: its own status says so, or one of its tests failed.
pub open spec fn suite_failed(s: TestSuiteView) -> bool {
    s.status == "failed"@ || count_status(s.test_results, "failed"@) > 0
}

pub open spec fn count_failed_suites(s: Seq<TestSuiteView>) -> nat
    decreases s.len(),
{
    if s.len() == 0 {
        0
    } else {
        count_failed_suites(s.drop_last()) + if suite_failed(s.last()) {
            1nat
        } else {
            0nat
        }
    }
}

pub open spec fn count_timed_out_suites(s: Seq<TestSuiteView>) -> nat
    decreases s.len(),
{
    if s.len() == 0 {
        0
    } else {
        count_timed_out_suites(s.drop_last()) + if s.last().timed_out == Some(true) {
            1nat
        } else {
            0nat
        }
    }
}

/// The counts of the suites shown in the report.
pub open spec fn aggregated_spec(s: Seq<TestSuiteView>, run_time_ms: Option<u64>, start_time: u64) -> TestRunAggregated {
    let failed_suites = count_failed_suites(s);
    let failed_tests = sum_status(s, "failed"@);
    TestRunAggregated {
        num_total_test_suites: s.len() as u64,
        num_passed_test_suites: (s.len() - failed_suites) as u64,
        num_failed_test_suites: failed_suites as u64,
        num_total_tests: sum_len(s),
        num_passed_tests: sum_status(s, "passed"@),
        num_failed_tests: failed_tests,
        num_pending_tests: sum_status(s, "pending"@),
        num_todo_tests: sum_status(s, "todo"@),
        num_timed_out_tests: Some(sum_timed_out(s)),
        num_timed_out_test_suites: Some(count_timed_out_suites(s) as u64),
        start_time,
        success: failed_tests == 0 && failed_suites == 0,
        run_time_ms,
    }
}

proof fn lemma_suite_counts_bound(s: Seq<TestSuiteView>)
    ensures
        count_failed_suites(s) <= s.len(),
        count_timed_out_suites(s) <= s.len(),
    decreases s.len(),
{
    if s.len() > 0 {
        lemma_count_suite_counts_prefix(s);
    }
}

proof fn lemma_count_suite_counts_prefix(s: Seq<TestSuiteView>)
    ensures
        count_failed_suites(s) <= s.len(),
        count_timed_out_suites(s) <= s.len(),
    decreases s.len(),
{
    if s.len() > 0 {
        lemma_count_suite_counts_prefix(s.drop_last());
    }
}

proof fn lemma_count_timed_out_bound(s: Seq<TestCaseView>)
    ensures
        count_timed_out(s) <= s.len(),
    decreases s.len(),
{
    if s.len() > 0 {
        lemma_count_timed_out_bound(s.drop_last());
    }
}

fn count_timed_out_exec(v: &Vec<crate::test_model::TestCaseResult>) -> (res: u64)
    ensures
        res == count_timed_out(case_views(v@)),
{
    let mut n: u64 = 0;
    let mut i: usize = 0;
    while i < v.len()
        invariant
            i <= v.len(),
            n == count_timed_out(case_views(v@).take(i as int)),
            n <= i,
        decreases v.len() - i,
    {
        assert(case_views(v@).take(i + 1).drop_last() =~= case_views(v@).take(i as int));
        let hit = match v[i].timed_out {
            Some(b) => b,
            None => false,
        };
        if hit {
            n = n + 1;
        }
        i = i + 1;
    }
    assert(case_views(v@).take(v.len() as int) =~= case_views(v@));
    n
}

/// The counts of the suites shown (see [`aggregated_spec`]).
pub fn aggregated_from_suites(suites: &[TestSuiteResult], run_time_ms: Option<u64>, start_time: u64) -> (res:
    TestRunAggregated)
    ensures
        res == aggregated_spec(suite_views(suites@), run_time_ms, start_time),
{
    let ghost sv = suite_views(suites@);
    let mut failed: u64 = 0;
    let mut passed: u64 = 0;
    let mut pending: u64 = 0;
    let mut todo_n: u64 = 0;
    let mut timed_out: u64 = 0;
    let mut total_tests: u64 = 0;
    let mut failed_suites: u64 = 0;
    let mut timed_out_suites: u64 = 0;
    let mut i: usize = 0;
    while i < suites.len()
        invariant
            i <= suites.len(),
            sv == suite_views(suites@),
            failed == sum_status(sv.take(i as int), "failed"@),
            passed == sum_status(sv.take(i as int), "passed"@),
            pending == sum_status(sv.take(i as int), "pending"@),
            todo_n == sum_status(sv.take(i as int), "todo"@),
            timed_out == sum_timed_out(sv.take(i as int)),
            total_tests == sum_len(sv.take(i as int)),
            failed_suites == count_failed_suites(sv.take(i as int)),
            timed_out_suites == count_timed_out_suites(sv.take(i as int)),
            failed_suites <= i,
            timed_out_suites <= i,
        decreases suites.len() - i,
    {
        assert(sv.take(i + 1).drop_last() =~= sv.take(i as int));
        assert(sv.take(i + 1).last() == suites@[i as int]@);
        let s = &suites[i];
        proof {
            lemma_count_status_bound(case_views(s.test_results@), "passed"@);
            lemma_count_status_bound(case_views(s.test_results@), "failed"@);
            lemma_count_status_bound(case_views(s.test_results@), "pending"@);
            lemma_count_status_bound(case_views(s.test_results@), "todo"@);
            lemma_count_timed_out_bound(case_views(s.test_results@));
        }
        let f = count_with_status(&s.test_results, "failed");
        failed = failed.saturating_add(f);
        passed = passed.saturating_add(count_with_status(&s.test_results, "passed"));
        pending = pending.saturating_add(count_with_status(&s.test_results, "pending"));
        todo_n = todo_n.saturating_add(count_with_status(&s.test_results, "todo"));
        timed_out = timed_out.saturating_add(count_timed_out_exec(&s.test_results));
        total_tests = total_tests.saturating_add(s.test_results.len() as u64);
        if str_eq(s.status.as_str(), "failed") || f > 0 {
            failed_suites = failed_suites + 1;
        }
        let suite_timed_out = match s.timed_out {
            Some(b) => b,
            None => false,
        };
        if suite_timed_out {
            timed_out_suites = timed_out_suites + 1;
        }
        i = i + 1;
    }
    assert(sv.take(suites.len() as int) =~= sv);
    let total = suites.len() as u64;
    TestRunAggregated {
        num_total_test_suites: total,
        num_passed_test_suites: total - failed_suites,
        num_failed_test_suites: failed_suites,
        num_total_tests: total_tests,
        num_passed_tests: passed,
        num_failed_tests: failed,
        num_pending_tests: pending,
        num_todo_tests: todo_n,
        num_timed_out_tests: Some(timed_out),
        num_timed_out_test_suites: Some(timed_out_suites),
        start_time,
        success: failed == 0 && failed_suites == 0,
        run_time_ms,
    }
}

/// The counts shown partition the suites: passed and failed suites add up
/// to all suites, and the run is a success exactly when no test and no
/// suite failed.
pub proof fn law_footer_counts(s: Seq<TestSuiteView>, run_time_ms: Option<u64>, start_time: u64)
    requires
        s.len() <= u64::MAX,
    ensures
        aggregated_spec(s, run_time_ms, start_time).num_passed_test_suites + aggregated_spec(
            s,
            run_time_ms,
            start_time,
        ).num_failed_test_suites == s.len(),
        aggregated_spec(s, run_time_ms, start_time).success <==> (aggregated_spec(s, run_time_ms, start_time).num_failed_tests
            == 0 && aggregated_spec(s, run_time_ms, start_time).num_failed_test_suites == 0),
{
    lemma_count_suite_counts_prefix(s);
}

/// One coloured count (`<n> <word>`), shown only when it is not zero.
pub open spec fn count_piece(n: u64, word: Seq<char>, hex: Seq<char>, use_color: bool) -> Seq<Seq<char>> {
    if n > 0 {
        seq![color_hex_spec(use_color, true, hex, dec(n as nat) + seq![' '] + word)]
    } else {
        Seq::empty()
    }
}

pub open spec fn dim_spec(t: Seq<char>) -> Seq<char> {
    styled("\u{1b}[2m"@, t, "\u{1b}[22m"@)
}

pub open spec fn bold_spec(t: Seq<char>) -> Seq<char> {
    styled("\u{1b}[1m"@, t, "\u{1b}[22m"@)
}

/// The file counts: failed, passed, skipped.
pub open spec fn file_pieces(agg: TestRunAggregated, use_color: bool) -> Seq<Seq<char>> {
    count_piece(agg.num_failed_test_suites, "failed"@, "#ff2323"@, use_color) + count_piece(
        agg.num_passed_test_suites,
        "passed"@,
        "#22c55e"@,
        use_color,
    ) + count_piece(agg.num_pending_tests, "skipped"@, "#eab308"@, use_color)
}

/// The test counts: failed, passed, skipped, todo, timed out.
pub open spec fn test_pieces(agg: TestRunAggregated, use_color: bool) -> Seq<Seq<char>> {
    count_piece(agg.num_failed_tests, "failed"@, "#ff2323"@, use_color) + count_piece(
        agg.num_passed_tests,
        "passed"@,
        "#22c55e"@,
        use_color,
    ) + count_piece(agg.num_pending_tests, "skipped"@, "#eab308"@, use_color) + count_piece(
        agg.num_todo_tests,
        "todo"@,
        "#38bdf8"@,
        use_color,
    ) + match agg.num_timed_out_tests {
        Some(n) => count_piece(n, "timed out"@, "#ff2323"@, use_color),
        None => Seq::empty(),
    }
}

/// The run time in milliseconds: the recorded one, else the time since
/// the start by the clock reading `now_ms`.
pub open spec fn time_ms_spec(agg: TestRunAggregated, now_ms: u64) -> u64 {
    match agg.run_time_ms {
        Some(t) => t,
        None => if now_ms >= agg.start_time {
            (now_ms - agg.start_time) as u64
        } else {
            0
        },
    }
}

/// The line of file counts.
pub open spec fn files_line(agg: TestRunAggregated, use_color: bool) -> Seq<char> {
    bold_spec("Test Files"@) + seq![' '] + join(file_pieces(agg, use_color), dim_spec(" | "@)) + seq![' ']
        + dim_spec(seq!['('] + dec(agg.num_total_test_suites as nat) + seq![')'])
}

/// The line of test counts.
pub open spec fn tests_line(agg: TestRunAggregated, use_color: bool) -> Seq<char> {
    bold_spec("Tests"@) + "     "@ + join(test_pieces(agg, use_color), dim_spec(" | "@)) + seq![' '] + dim_spec(
        seq!['('] + dec(agg.num_total_tests as nat) + seq![')'],
    )
}

/// The line of the run time.
pub open spec fn time_line(agg: TestRunAggregated, now_ms: u64) -> Seq<char> {
    bold_spec("Time"@) + "      "@ + pretty_duration(time_ms_spec(agg, now_ms) as nat * 1_000_000, 2, None)
}

/// The three footer lines before blank lines are dropped.
pub open spec fn footer_text(agg: TestRunAggregated, use_color: bool, now_ms: u64) -> Seq<char> {
    files_line(agg, use_color) + seq!['\n'] + tests_line(agg, use_color) + seq!['\n'] + time_line(agg, now_ms)
}

/// Whether line `i` stays: it is not blank, or it is the last, or the next
/// line is not the time line.
pub open spec fn keeps_line(ls: Seq<Seq<char>>, i: int) -> bool {
    !is_blank(ls[i]) || i + 1 >= ls.len() || !starts_with(trim_start(ansi_stripped(ls[i + 1])), "Time "@)
}

pub open spec fn kept_upto(ls: Seq<Seq<char>>, n: int) -> Seq<Seq<char>>
    decreases n,
{
    if n <= 0 {
        Seq::empty()
    } else if keeps_line(ls, n - 1) {
        kept_upto(ls, n - 1).push(ls[n - 1])
    } else {
        kept_upto(ls, n - 1)
    }
}

/// The text without the blank lines right before the time line.
pub open spec fn drop_blank_before_time_spec(text: Seq<char>) -> Seq<char> {
    join(kept_upto(lines(text), lines(text).len() as int), seq!['\n'])
}

/// The text without the blank lines right before the time line.
pub fn drop_blank_line_before_time_line(text: &str) -> (res: String)
    ensures
        res@ == drop_blank_before_time_spec(text@),
{
    let ls = lines_of(text);
    let ghost lv = views(ls@);
    let mut kept: Vec<String> = Vec::new();
    let mut i: usize = 0;
    proof {
        reveal_strlit("Time ");
    }
    while i < ls.len()
        invariant
            i <= ls.len(),
            lv == views(ls@),
            lv == lines(text@),
            views(kept@) == kept_upto(lv, i as int),
        decreases ls.len() - i,
    {
        let keep = if !is_blank_str(ls[i].as_str()) {
            true
        } else if i + 1 >= ls.len() {
            true
        } else {
            let stripped = strip_ansi_simple(ls[i + 1].as_str());
            let t = trim_start_str(stripped.as_str());
            !starts_with_str(t.as_str(), "Time ")
        };
        assert(keep == keeps_line(lv, i as int));
        if keep {
            let ghost before = views(kept@);
            kept.push(owned(ls[i].as_str()));
            assert(views(kept@) =~= before.push(lv[i as int]));
        }
        i = i + 1;
    }
    proof {
        reveal_strlit("\n");
        assert("\n"@ =~= seq!['\n']);
    }
    join_strs(&kept, "\n")
}

fn push_count(pieces: &mut Vec<String>, n: u64, word: &str, kind: u8, use_color: bool)
    requires
        kind < 4,
    ensures
        views(final(pieces)@) == views(old(pieces)@) + count_piece(
            n,
            word@,
            if kind == 0 {
                "#ff2323"@
            } else if kind == 1 {
                "#22c55e"@
            } else if kind == 2 {
                "#eab308"@
            } else {
                "#38bdf8"@
            },
            use_color,
        ),
{
    let ghost before = views(pieces@);
    if n == 0 {
        assert(before + Seq::<Seq<char>>::empty() =~= before);
        return;
    }
    let mut text = u64_to_dec(n);
    push_str(&mut text, " ");
    push_str(&mut text, word);
    proof {
        reveal_strlit(" ");
        assert(" "@ =~= seq![' ']);
    }
    let piece = if kind == 0 {
        failure(text.as_str(), use_color)
    } else if kind == 1 {
        success(text.as_str(), use_color)
    } else if kind == 2 {
        skip(text.as_str(), use_color)
    } else {
        todo(text.as_str(), use_color)
    };
    let ghost pv = piece@;
    pieces.push(piece);
    assert(views(pieces@) =~= before.push(pv));
}

fn files_line_exec(agg: &TestRunAggregated, use_color: bool) -> (res: String)
    ensures
        res@ == files_line(*agg, use_color),
{
    let mut files: Vec<String> = Vec::new();
    push_count(&mut files, agg.num_failed_test_suites, "failed", 0, use_color);
    push_count(&mut files, agg.num_passed_test_suites, "passed", 1, use_color);
    push_count(&mut files, agg.num_pending_tests, "skipped", 2, use_color);
    proof {
        reveal_strlit("failed");
        reveal_strlit("passed");
        reveal_strlit("skipped");
        reveal_strlit(" ");
        reveal_strlit("(");
        reveal_strlit(")");
    }
    assert(views(files@) =~= file_pieces(*agg, use_color));
    let sep = dim(" | ");
    let mut out = bold("Test Files");
    push_str(&mut out, " ");
    push_str(&mut out, join_strs(&files, sep.as_str()).as_str());
    push_str(&mut out, " ");
    let mut n1 = concat2("(", u64_to_dec(agg.num_total_test_suites).as_str());
    push_str(&mut n1, ")");
    push_str(&mut out, dim(n1.as_str()).as_str());
    assert(out@ =~= files_line(*agg, use_color));
    out
}

fn tests_line_exec(agg: &TestRunAggregated, use_color: bool) -> (res: String)
    ensures
        res@ == tests_line(*agg, use_color),
{
    let mut tests: Vec<String> = Vec::new();
    push_count(&mut tests, agg.num_failed_tests, "failed", 0, use_color);
    push_count(&mut tests, agg.num_passed_tests, "passed", 1, use_color);
    push_count(&mut tests, agg.num_pending_tests, "skipped", 2, use_color);
    push_count(&mut tests, agg.num_todo_tests, "todo", 3, use_color);
    let ghost before_t = views(tests@);
    match agg.num_timed_out_tests {
        Some(n) => push_count(&mut tests, n, "timed out", 0, use_color),
        None => {
            assert(before_t + Seq::<Seq<char>>::empty() =~= before_t);
        },
    }
    proof {
        reveal_strlit("failed");
        reveal_strlit("passed");
        reveal_strlit("skipped");
        reveal_strlit("todo");
        reveal_strlit("timed out");
        reveal_strlit(" ");
        reveal_strlit("(");
        reveal_strlit(")");
    }
    assert(views(tests@) =~= test_pieces(*agg, use_color));
    let sep = dim(" | ");
    let mut out = bold("Tests");
    push_str(&mut out, "     ");
    push_str(&mut out, join_strs(&tests, sep.as_str()).as_str());
    push_str(&mut out, " ");
    let mut n2 = concat2("(", u64_to_dec(agg.num_total_tests).as_str());
    push_str(&mut n2, ")");
    push_str(&mut out, dim(n2.as_str()).as_str());
    assert(out@ =~= tests_line(*agg, use_color));
    out
}

fn time_line_exec(agg: &TestRunAggregated, now_ms: u64) -> (res: String)
    ensures
        res@ == time_line(*agg, now_ms),
{
    let time_ms: u64 = match agg.run_time_ms {
        Some(t) => t,
        None => if now_ms >= agg.start_time {
            now_ms - agg.start_time
        } else {
            0
        },
    };
    let mut out = bold("Time");
    push_str(&mut out, "      ");
    push_str(&mut out, format_duration(Duration::from_millis(time_ms)).as_str());
    out
}

/// The footer for the counts `agg`, the clock reading `now_ms` standing in
/// for a missing run time (see [`footer_text`]).
pub fn vitest_footer_at(agg: &TestRunAggregated, use_color: bool, now_ms: u64) -> (res: String)
    ensures
        res@ == drop_blank_before_time_spec(footer_text(*agg, use_color, now_ms)),
{
    let mut out = files_line_exec(agg, use_color);
    push_str(&mut out, "\n");
    push_str(&mut out, tests_line_exec(agg, use_color).as_str());
    push_str(&mut out, "\n");
    push_str(&mut out, time_line_exec(agg, now_ms).as_str());
    proof {
        reveal_strlit("\n");
    }
    assert(out@ =~= footer_text(*agg, use_color, now_ms));
    drop_blank_line_before_time_line(out.as_str())
}

/// The footer for the counts `agg`; a missing run time is measured on the
/// system clock.
pub fn vitest_footer(agg: &TestRunAggregated, use_color: bool) -> (res: String)
    ensures
        exists|now_ms: u64| res@ == drop_blank_before_time_spec(#[trigger] footer_text(*agg, use_color, now_ms)),
{
    let now = crate::format::time::unix_millis_now(agg.start_time);
    vitest_footer_at(agg, use_color, now)
}


/// The footer's count lines close on their totals: the Test Files line
/// ends with the number of suites in parentheses, the Tests line with the
/// number of tests in parentheses (each then the end of the dim style),
/// and the footer is those two lines and the time line, in that order.
pub proof fn law_footer_totals(agg: TestRunAggregated, use_color: bool, now_ms: u64)
    ensures
        ends_with(
            files_line(agg, use_color),
            seq!['('] + dec(agg.num_total_test_suites as nat) + seq![')'] + "\u{1b}[22m"@,
        ),
        ends_with(
            tests_line(agg, use_color),
            seq!['('] + dec(agg.num_total_tests as nat) + seq![')'] + "\u{1b}[22m"@,
        ),
        starts_with(footer_text(agg, use_color, now_ms), files_line(agg, use_color) + seq!['\n'] + tests_line(
            agg,
            use_color,
        ) + seq!['\n']),
{
    let f = seq!['('] + dec(agg.num_total_test_suites as nat) + seq![')'] + "\u{1b}[22m"@;
    let fl = files_line(agg, use_color);
    assert(fl.skip(fl.len() - f.len()) =~= f);
    let t = seq!['('] + dec(agg.num_total_tests as nat) + seq![')'] + "\u{1b}[22m"@;
    let tl = tests_line(agg, use_color);
    assert(tl.skip(tl.len() - t.len()) =~= t);
    let head = fl + seq!['\n'] + tl + seq!['\n'];
    let ft = footer_text(agg, use_color, now_ms);
    assert(ft.take(head.len() as int) =~= head);
}

} // verus!
