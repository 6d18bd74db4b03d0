//! The `cargo test` dialect: libtest's plain output (`Running <path>`,
//! `test name ... ok`, panic blocks) read into the run model.
use crate::format::stacks::{ansi_stripped, is_stack_line, is_stack_line_spec, strip_ansi_simple};
use crate::format::unstructured_engine::{
    all_blocks, event_views, finalize_spec, has_test_line, kept_block_suites, law_finalize_by_blocks,
    law_completed_lines_give_cases, law_finalize_counts, opt_block, push_line_spec, run_lines, suites_failed_tests, suites_nonempty,
    suite_spec, suites_total_tests, ParsedTestLine, ParsedTestLineView, StreamState, UnstructuredDialect,
    UnstructuredStreamEvent, UnstructuredStreamParser,
};
use crate::test_model::{opt_seq, TestRunModel};
use crate::text::{
    chars_of, concat2, contains, find, match_at, contains_char, contains_str, ends_with, ends_with_str, is_blank,
    is_blank_str, is_ws, is_ws_char, join, join_strs, lines, lines_of, owned, split_once,
    split_once_str, starts_with, starts_with_str, str_eq, string_of_range, strip_prefix,
    strip_prefix_str, strip_suffix, strip_suffix_str, trim, trim_end, trim_end_str, trim_start,
    trim_start_str, trim_str, views,
};
use vstd::prelude::*;

verus! {

/// Events of the `cargo test` stream parser.
pub type CargoTestStreamEvent = UnstructuredStreamEvent;

/// The `cargo test` dialect.
#[derive(Debug, Clone, Copy)]
pub struct CargoTestDialect;

/// Number of leading characters that are not whitespace.
pub open spec fn word_len(s: Seq<char>) -> nat
    decreases s.len(),
{
    if s.len() > 0 && !is_ws(s[0]) {
        1 + word_len(s.drop_first())
    } else {
        0
    }
}

/// The source path of a `Running <path> (...)` header, with an ANSI-styled
/// header read after stripping, and a `unittests ` prefix dropped.
pub open spec fn suite_header_spec(line: Seq<char>) -> Option<Seq<char>> {
    let stripped = if contains(line, seq!['\u{1b}']) {
        ansi_stripped(line)
    } else {
        line
    };
    match strip_prefix(trim(stripped), "Running"@) {
        None => None,
        Some(rest0) => {
            let rest = trim_start(rest0);
            let path_like = match split_once(rest, " ("@) {
                Some((a, _)) => a,
                None => rest,
            };
            let cleaned = trim(path_like);
            let cleaned2 = trim(
                match strip_prefix(cleaned, "unittests "@) {
                    Some(x) => x,
                    None => cleaned,
                },
            );
            if cleaned2.len() > 0 {
                Some(cleaned2)
            } else {
                None
            }
        },
    }
}

/// `test <name> ... <status>`: `ok`, `FAILED` and `ignored` finish the test
/// as passed, failed or pending; any other word leaves it pending.
pub open spec fn test_line_spec(line: Seq<char>) -> Option<ParsedTestLineView> {
    match strip_prefix(trim(line), "test "@) {
        None => None,
        Some(rest) => match split_once(rest, " ... "@) {
            None => None,
            Some((name, tail)) => {
                let t = trim(tail);
                let word = t.take(word_len(t) as int);
                if word == "ok"@ {
                    Some(ParsedTestLineView::Completed { name, status: "passed"@ })
                } else if word == "FAILED"@ {
                    Some(ParsedTestLineView::Completed { name, status: "failed"@ })
                } else if word == "ignored"@ {
                    Some(ParsedTestLineView::Completed { name, status: "pending"@ })
                } else {
                    Some(ParsedTestLineView::Pending { name, inline_output: None })
                }
            },
        },
    }
}

/// A line holding only `ok` or `FAILED`.
pub open spec fn status_only_spec(line: Seq<char>) -> Option<Seq<char>> {
    if trim(line) == "ok"@ {
        Some("passed"@)
    } else if trim(line) == "FAILED"@ {
        Some("failed"@)
    } else {
        None
    }
}

/// `---- <name> ----`, the header of a test's captured output.
pub open spec fn output_header_spec(line: Seq<char>) -> Option<Seq<char>> {
    let t = trim(line);
    if !(starts_with(t, "---- "@) && ends_with(t, " ----"@)) {
        None
    } else {
        match strip_prefix(t, "---- "@) {
            None => None,
            Some(a) => match strip_suffix(a, " ----"@) {
                None => None,
                Some(b) => Some(trim(b)),
            },
        }
    }
}

/// Lines kept as console output: not blank and not libtest's own lines.
pub open spec fn keep_console_spec(line: Seq<char>) -> bool {
    let t = trim(line);
    !(t.len() == 0 || starts_with(t, "running "@) || starts_with(t, "test "@) || starts_with(
        t,
        "test result:"@,
    ))
}

/// Whether the line at `index` starts the next section after a panic block:
/// it follows a blank line and is `failures:`, `test result:` or `Running `.
pub open spec fn is_section_boundary(lines: Seq<Seq<char>>, index: int) -> bool {
    let t = trim(lines[index]);
    is_blank(lines[index - 1]) && (t == "failures:"@ || starts_with(t, "test result:"@)
        || starts_with(t, "Running "@))
}

/// The index where a panic block that has reached `i` ends.
pub open spec fn block_end(lines: Seq<Seq<char>>, i: int) -> int
    decreases lines.len() - i,
{
    if i >= lines.len() {
        lines.len() as int
    } else if is_section_boundary(lines, i) {
        i
    } else {
        block_end(lines, i + 1)
    }
}

/// A panic block starting at `start`: `thread '<name>' ...` then every line
/// up to the next section.
pub open spec fn panic_block_spec(lines: Seq<Seq<char>>, start: int) -> Option<
    (Seq<char>, nat, Seq<char>),
> {
    if !(0 <= start < lines.len()) {
        None
    } else {
        match strip_prefix(trim_start(lines[start]), "thread '"@) {
            None => None,
            Some(r) => match split_once(r, "'"@) {
                None => None,
                Some((name, _)) => {
                    let end = block_end(lines, start + 1);
                    Some((name, (end - start) as nat, panic_message_spec(lines.subrange(start, end))))
                },
            },
        }
    }
}

/// What the message of a panic block keeps, line by line.
pub struct MsgAcc {
    pub out: Seq<Seq<char>>,
    pub had_assertion: bool,
    pub had_left_right: bool,
}

pub open spec fn is_noise_line(t: Seq<char>) -> bool {
    t == "stack backtrace:"@ || t
        == "note: run with `RUST_BACKTRACE=1` environment variable to display a backtrace"@
}

/// One line of a panic block: the panic headline becomes `panicked at <loc>`;
/// assertion, `left:`/`right:`, stack and message lines are kept; blank and
/// backtrace notes are dropped.
pub open spec fn msg_step(acc: MsgAcc, raw: Seq<char>) -> MsgAcc {
    let trimmed = trim_end(ansi_stripped(raw));
    if trimmed.len() == 0 || starts_with(trimmed, "note: run with `RUST_BACKTRACE="@) {
        acc
    } else if split_once(trimmed, "' panicked at "@) is Some {
        let location = match split_once(trimmed, "' panicked at "@) {
            Some((_, rest)) => trim(rest),
            None => Seq::empty(),
        };
        if location.len() > 0 {
            MsgAcc { out: acc.out.push("panicked at "@ + trim(location)), ..acc }
        } else {
            acc
        }
    } else if starts_with(trimmed, "assertion "@) && contains(trimmed, " failed"@) {
        MsgAcc { out: acc.out.push(trimmed), had_assertion: true, ..acc }
    } else if starts_with(trim_start(trimmed), "left: "@) || starts_with(
        trim_start(trimmed),
        "right: "@,
    ) {
        MsgAcc { out: acc.out.push(trimmed), had_left_right: true, ..acc }
    } else if is_stack_line_spec(trimmed) {
        MsgAcc { out: acc.out.push(trimmed), ..acc }
    } else if !is_noise_line(trimmed) && !is_blank(trimmed) {
        MsgAcc { out: acc.out.push(trimmed), ..acc }
    } else {
        acc
    }
}

pub open spec fn msg_fold(lines: Seq<Seq<char>>) -> MsgAcc
    decreases lines.len(),
{
    if lines.len() == 0 {
        MsgAcc { out: Seq::empty(), had_assertion: false, had_left_right: false }
    } else {
        msg_step(msg_fold(lines.drop_last()), lines.last())
    }
}

/// The first line that is not blank once stripped of ANSI styling and
/// trailing whitespace, or the empty text.
pub open spec fn first_non_empty_stripped(lines: Seq<Seq<char>>) -> Seq<char>
    decreases lines.len(),
{
    if lines.len() == 0 {
        Seq::empty()
    } else if !is_blank(trim_end(ansi_stripped(lines[0]))) {
        trim_end(ansi_stripped(lines[0]))
    } else {
        first_non_empty_stripped(lines.drop_first())
    }
}

/// The failure message of a panic block.
pub open spec fn panic_message_spec(lines: Seq<Seq<char>>) -> Seq<char> {
    let acc = msg_fold(lines);
    if acc.out.len() == 0 {
        first_non_empty_stripped(lines)
    } else if acc.had_left_right && !acc.had_assertion {
        join(seq!["assertion failed"@] + acc.out, seq!['\n'])
    } else {
        join(acc.out, seq!['\n'])
    }
}

pub proof fn lemma_block_end_bounds(lines: Seq<Seq<char>>, i: int)
    requires
        0 <= i <= lines.len(),
    ensures
        i <= block_end(lines, i) <= lines.len(),
    decreases lines.len() - i,
{
    if i < lines.len() && !is_section_boundary(lines, i) {
        lemma_block_end_bounds(lines, i + 1);
    }
}

fn word_prefix(s: &str) -> (res: String)
    ensures
        res@ == s@.take(word_len(s@) as int),
{
    let v = chars_of(s);
    let mut i: usize = 0;
    assert(s@.skip(0) == s@);
    while i < v.len() && !is_ws_char(v[i])
        invariant
            i <= v.len(),
            v@ == s@,
            word_len(s@) == i + word_len(s@.skip(i as int)),
        decreases v.len() - i,
    {
        assert(s@.skip(i as int).drop_first() == s@.skip(i + 1));
        i = i + 1;
    }
    assert(word_len(s@.skip(i as int)) == 0);
    assert(v@.subrange(0, i as int) == s@.take(i as int));
    string_of_range(&v, 0, i)
}

fn suite_header_exec(line: &str) -> (res: Option<String>)
    ensures
        opt_seq(res) == suite_header_spec(line@),
{
    let stripped = if contains_char(line, '\u{1b}') {
        strip_ansi_simple(line)
    } else {
        owned(line)
    };
    let trimmed = trim_str(stripped.as_str());
    let rest0 = strip_prefix_str(trimmed.as_str(), "Running")?;
    let rest = trim_start_str(rest0.as_str());
    let path_like = match split_once_str(rest.as_str(), " (") {
        Some((a, _)) => a,
        None => owned(rest.as_str()),
    };
    let cleaned = trim_str(path_like.as_str());
    let cleaned2 = match strip_prefix_str(cleaned.as_str(), "unittests ") {
        Some(x) => trim_str(x.as_str()),
        None => trim_str(cleaned.as_str()),
    };
    if cleaned2.as_str().is_empty() {
        None
    } else {
        Some(cleaned2)
    }
}

fn test_line_exec(line: &str) -> (res: Option<ParsedTestLine>)
    ensures
        crate::format::unstructured_engine::opt_parsed(res) == test_line_spec(line@),
{
    let t = trim_str(line);
    let rest = strip_prefix_str(t.as_str(), "test ")?;
    let (name, tail) = split_once_str(rest.as_str(), " ... ")?;
    let tt = trim_str(tail.as_str());
    let word = word_prefix(tt.as_str());
    if str_eq(word.as_str(), "ok") {
        Some(ParsedTestLine::Completed { name, status: owned("passed") })
    } else if str_eq(word.as_str(), "FAILED") {
        Some(ParsedTestLine::Completed { name, status: owned("failed") })
    } else if str_eq(word.as_str(), "ignored") {
        Some(ParsedTestLine::Completed { name, status: owned("pending") })
    } else {
        Some(ParsedTestLine::Pending { name, inline_output: None })
    }
}

fn status_only_exec(line: &str) -> (res: Option<String>)
    ensures
        opt_seq(res) == status_only_spec(line@),
{
    let t = trim_str(line);
    if str_eq(t.as_str(), "ok") {
        Some(owned("passed"))
    } else if str_eq(t.as_str(), "FAILED") {
        Some(owned("failed"))
    } else {
        None
    }
}

fn output_header_exec(line: &str) -> (res: Option<String>)
    ensures
        opt_seq(res) == output_header_spec(line@),
{
    let t = trim_str(line);
    if !(starts_with_str(t.as_str(), "---- ") && ends_with_str(t.as_str(), " ----")) {
        return None;
    }
    let a = strip_prefix_str(t.as_str(), "---- ")?;
    let b = strip_suffix_str(a.as_str(), " ----")?;
    Some(trim_str(b.as_str()))
}

fn keep_console_exec(line: &str) -> (res: bool)
    ensures
        res == keep_console_spec(line@),
{
    let t = trim_str(line);
    !(t.as_str().is_empty() || starts_with_str(t.as_str(), "running ") || starts_with_str(
        t.as_str(),
        "test ",
    ) || starts_with_str(t.as_str(), "test result:"))
}

fn push_panic_line(out: &mut Vec<String>, acc_assert: &mut bool, acc_lr: &mut bool, raw: &str)
    ensures
        msg_step(
            MsgAcc { out: views(old(out)@), had_assertion: *old(acc_assert), had_left_right: *old(acc_lr) },
            raw@,
        ) == (MsgAcc { out: views(final(out)@), had_assertion: *final(acc_assert), had_left_right: *final(acc_lr) }),
{
    let ghost start = views(out@);
    let stripped = strip_ansi_simple(raw);
    let trimmed = trim_end_str(stripped.as_str());
    if trimmed.as_str().is_empty() || starts_with_str(trimmed.as_str(), "note: run with `RUST_BACKTRACE=") {
        return ;
    }
    if let Some((_prefix, rest)) = split_once_str(trimmed.as_str(), "' panicked at ") {
        let location = trim_str(rest.as_str());
        if !location.as_str().is_empty() {
            let loc2 = trim_str(location.as_str());
            out.push(concat2("panicked at ", loc2.as_str()));
            assert(views(out@) =~= start.push("panicked at "@ + trim(location@)));
        }
        return ;
    }
    if starts_with_str(trimmed.as_str(), "assertion ") && contains_str(trimmed.as_str(), " failed") {
        out.push(owned(trimmed.as_str()));
        assert(views(out@) =~= start.push(trimmed@));
        *acc_assert = true;
        return ;
    }
    let ts = trim_start_str(trimmed.as_str());
    if starts_with_str(ts.as_str(), "left: ") || starts_with_str(ts.as_str(), "right: ") {
        out.push(owned(trimmed.as_str()));
        assert(views(out@) =~= start.push(trimmed@));
        *acc_lr = true;
        return ;
    }
    if is_stack_line(trimmed.as_str()) {
        out.push(owned(trimmed.as_str()));
        assert(views(out@) =~= start.push(trimmed@));
        return ;
    }
    let noise = str_eq(trimmed.as_str(), "stack backtrace:") || str_eq(
        trimmed.as_str(),
        "note: run with `RUST_BACKTRACE=1` environment variable to display a backtrace",
    );
    if !noise && !is_blank_str(trimmed.as_str()) {
        out.push(owned(trimmed.as_str()));
        assert(views(out@) =~= start.push(trimmed@));
    }
}

fn first_non_empty_stripped_line(lines: &Vec<String>) -> (res: String)
    ensures
        res@ == first_non_empty_stripped(views(lines@)),
{
    let mut i: usize = 0;
    assert(views(lines@).skip(0) == views(lines@));
    while i < lines.len()
        invariant
            i <= lines.len(),
            first_non_empty_stripped(views(lines@)) == first_non_empty_stripped(
                views(lines@).skip(i as int),
            ),
        decreases lines.len() - i,
    {
        let ghost rest = views(lines@).skip(i as int);
        assert(rest[0] == lines@[i as int]@);
        assert(rest.drop_first() == views(lines@).skip(i + 1));
        let stripped = strip_ansi_simple(lines[i].as_str());
        let t = trim_end_str(stripped.as_str());
        if !is_blank_str(t.as_str()) {
            return t;
        }
        i = i + 1;
    }
    assert(views(lines@).skip(lines.len() as int) =~= Seq::<Seq<char>>::empty());
    String::new()
}

/// The failure message of the lines of a panic block.
pub fn extract_failure_message_from_panic_block(lines: &Vec<String>) -> (res: String)
    ensures
        res@ == panic_message_spec(views(lines@)),
{
    let mut out: Vec<String> = Vec::new();
    let mut had_assertion_line = false;
    let mut had_left_right = false;
    let mut i: usize = 0;
    assert(views(lines@).take(0) =~= Seq::<Seq<char>>::empty());
    assert(views(out@) =~= Seq::<Seq<char>>::empty());
    while i < lines.len()
        invariant
            i <= lines.len(),
            msg_fold(views(lines@).take(i as int)) == (MsgAcc {
                out: views(out@),
                had_assertion: had_assertion_line,
                had_left_right: had_left_right,
            }),
        decreases lines.len() - i,
    {
        assert(views(lines@).take(i + 1).drop_last() =~= views(lines@).take(i as int));
        assert(views(lines@).take(i + 1).last() == lines@[i as int]@);
        push_panic_line(&mut out, &mut had_assertion_line, &mut had_left_right, lines[i].as_str());
        i = i + 1;
    }
    assert(views(lines@).take(lines.len() as int) == views(lines@));
    if out.len() == 0 {
        return first_non_empty_stripped_line(lines);
    }
    if had_left_right && !had_assertion_line {
        let ghost before = views(out@);
        out.insert(0, owned("assertion failed"));
        assert(views(out@) =~= seq!["assertion failed"@] + before);
    }
    proof {
        reveal_strlit("\n");
        assert("\n"@ =~= seq!['\n']);
    }
    join_strs(&out, "\n")
}

fn is_section_boundary_exec(lines: &Vec<String>, index: usize) -> (res: bool)
    requires
        1 <= index < lines.len(),
    ensures
        res == is_section_boundary(views(lines@), index as int),
{
    let t = trim_str(lines[index].as_str());
    is_blank_str(lines[index - 1].as_str()) && (str_eq(t.as_str(), "failures:") || starts_with_str(
        t.as_str(),
        "test result:",
    ) || starts_with_str(t.as_str(), "Running "))
}

fn panic_block_exec(lines: &Vec<String>, start_index: usize) -> (res: Option<(String, usize, String)>)
    requires
        start_index < lines.len(),
    ensures
        opt_block(res) == panic_block_spec(views(lines@), start_index as int),
{
    let first = lines[start_index].as_str();
    let ts = trim_start_str(first);
    let r = strip_prefix_str(ts.as_str(), "thread '")?;
    let (name, _) = split_once_str(r.as_str(), "'")?;
    let mut collected: Vec<String> = Vec::new();
    collected.push(owned(first));
    let mut index = start_index + 1;
    assert(views(collected@) =~= views(lines@).subrange(start_index as int, index as int));
    proof {
        lemma_block_end_bounds(views(lines@), index as int);
    }
    while index < lines.len() && !is_section_boundary_exec(lines, index)
        invariant
            start_index < index <= lines.len(),
            block_end(views(lines@), start_index + 1) == block_end(views(lines@), index as int),
            views(collected@) == views(lines@).subrange(start_index as int, index as int),
        decreases lines.len() - index,
    {
        let ghost before = views(collected@);
        collected.push(owned(lines[index].as_str()));
        assert(views(collected@) =~= before.push(lines@[index as int]@));
        assert(views(collected@) =~= views(lines@).subrange(start_index as int, index + 1));
        index = index + 1;
    }
    let consumed = index - start_index;
    Some((name, consumed, extract_failure_message_from_panic_block(&collected)))
}

impl Default for CargoTestDialect {
    fn default() -> (r: Self)
        ensures
            r == CargoTestDialect,
    {
        CargoTestDialect
    }
}

impl UnstructuredDialect for CargoTestDialect {
    open spec fn spec_origin(&self) -> Seq<char> {
        "cargo-test"@
    }

    open spec fn spec_default_dialect() -> Self {
        CargoTestDialect
    }

    fn default_dialect() -> (res: Self) {
        CargoTestDialect::default()
    }

    open spec fn spec_suite_header(&self, line: Seq<char>) -> Option<Seq<char>> {
        suite_header_spec(line)
    }

    open spec fn spec_test_line(&self, line: Seq<char>) -> Option<ParsedTestLineView> {
        test_line_spec(line)
    }

    open spec fn spec_status_only(&self, line: Seq<char>) -> Option<Seq<char>> {
        status_only_spec(line)
    }

    open spec fn spec_failure_block(&self, lines: Seq<Seq<char>>, start: int) -> Option<
        (Seq<char>, nat, Seq<char>),
    > {
        None
    }

    open spec fn spec_panic_block(&self, lines: Seq<Seq<char>>, start: int) -> Option<
        (Seq<char>, nat, Seq<char>),
    > {
        panic_block_spec(lines, start)
    }

    open spec fn spec_output_header(&self, line: Seq<char>) -> Option<Seq<char>> {
        output_header_spec(line)
    }

    open spec fn spec_keep_console(&self, line: Seq<char>) -> bool {
        keep_console_spec(line)
    }

    proof fn lemma_blocks_consume(&self, lines: Seq<Seq<char>>, start: int) {
        lemma_block_end_bounds(lines, start + 1);
    }

    fn origin(&self) -> (res: String) {
        owned("cargo-test")
    }

    fn parse_suite_header_source_path(&self, line: &str) -> (res: Option<String>) {
        suite_header_exec(line)
    }

    fn parse_test_line(&self, line: &str) -> (res: Option<ParsedTestLine>) {
        test_line_exec(line)
    }

    fn parse_status_only_line(&self, line: &str) -> (res: Option<String>) {
        status_only_exec(line)
    }

    fn parse_failure_block(&self, lines: &Vec<String>, start_index: usize) -> (res: Option<
        (String, usize, String),
    >) {
        None
    }

    fn parse_panic_block(&self, lines: &Vec<String>, start_index: usize) -> (res: Option<
        (String, usize, String),
    >) {
        panic_block_exec(lines, start_index)
    }

    fn is_output_section_header(&self, line: &str) -> (res: Option<String>) {
        output_header_exec(line)
    }

    fn should_keep_as_console_line(&self, line: &str) -> (res: bool) {
        keep_console_exec(line)
    }
}

/// Reads `cargo test` output line by line.
pub struct CargoTestStreamParser {
    inner: UnstructuredStreamParser<CargoTestDialect>,
}

impl CargoTestStreamParser {
    pub closed spec fn state(&self) -> StreamState<CargoTestDialect> {
        self.inner.state()
    }

    /// A parser with nothing read; suite paths are made absolute against `repo_root`.
    pub fn new(repo_root: &str) -> (res: Self)
        ensures
            res.state() == (StreamState {
                repo_root: repo_root@,
                dialect: CargoTestDialect,
                suites: Seq::empty(),
                current: None,
            }),
    {
        CargoTestStreamParser { inner: UnstructuredStreamParser::new(repo_root, CargoTestDialect) }
    }

    /// Feeds one line of output.
    pub fn push_line(&mut self, line: &str) -> (res: Vec<CargoTestStreamEvent>)
        ensures
            final(self).state() == push_line_spec(old(self).state(), line@).0,
            event_views(res@) == push_line_spec(old(self).state(), line@).1,
    {
        self.inner.push_line(line)
    }

    /// The model of what was read, or `None` when no suite had a test.
    pub fn finalize(self) -> (res: Option<TestRunModel>)
        ensures
            match res {
                Some(m) => finalize_spec(self.state()) == Some(m@),
                None => finalize_spec(self.state()) is None,
            },
    {
        self.inner.finalize()
    }
}

/// Feeds each line in turn.
pub open spec fn feed_lines<D: UnstructuredDialect>(st: StreamState<D>, ls: Seq<Seq<char>>) -> StreamState<D>
    decreases ls.len(),
{
    if ls.len() == 0 {
        st
    } else {
        feed_lines(push_line_spec(st, ls[0]).0, ls.drop_first())
    }
}

/// The run model of a whole `cargo test` output.
pub open spec fn cargo_test_output_spec(repo_root: Seq<char>, combined_output: Seq<char>) -> Option<
    crate::test_model::TestRunView,
> {
    finalize_spec(
        feed_lines(
            StreamState {
                repo_root,
                dialect: CargoTestDialect,
                suites: Seq::empty(),
                current: None,
            },
            lines(combined_output),
        ),
    )
}

/// Reads a whole `cargo test` output.
pub fn parse_cargo_test_output(repo_root: &str, combined_output: &str) -> (res: Option<TestRunModel>)
    ensures
        match res {
            Some(m) => cargo_test_output_spec(repo_root@, combined_output@) == Some(m@),
            None => cargo_test_output_spec(repo_root@, combined_output@) is None,
        },
{
    let mut parser = CargoTestStreamParser::new(repo_root);
    let ls = lines_of(combined_output);
    let ghost start = parser.state();
    let mut i: usize = 0;
    assert(views(ls@).skip(0) == views(ls@));
    while i < ls.len()
        invariant
            i <= ls.len(),
            feed_lines(start, views(ls@)) == feed_lines(parser.state(), views(ls@).skip(i as int)),
        decreases ls.len() - i,
    {
        assert(views(ls@).skip(i as int)[0] == ls@[i as int]@);
        assert(views(ls@).skip(i as int).drop_first() == views(ls@).skip(i + 1));
        let _ = parser.push_line(ls[i].as_str());
        i = i + 1;
    }
    assert(views(ls@).skip(ls.len() as int) =~= Seq::<Seq<char>>::empty());
    parser.finalize()
}


proof fn lemma_run_lines_first<D: UnstructuredDialect>(st: StreamState<D>, ls: Seq<Seq<char>>)
    requires
        ls.len() > 0,
    ensures
        run_lines(st, ls) == run_lines(push_line_spec(st, ls[0]).0, ls.drop_first()),
    decreases ls.len(),
{
    if ls.len() == 1 {
        assert(ls.drop_last() =~= Seq::<Seq<char>>::empty());
        assert(ls.drop_first() =~= Seq::<Seq<char>>::empty());
    } else {
        lemma_run_lines_first(st, ls.drop_last());
        assert(ls.drop_last().drop_first() =~= ls.drop_first().drop_last());
        assert(ls.drop_first().last() == ls.last());
        assert(ls.drop_last()[0] == ls[0]);
    }
}

proof fn lemma_feed_is_run<D: UnstructuredDialect>(st: StreamState<D>, ls: Seq<Seq<char>>)
    ensures
        feed_lines(st, ls) == run_lines(st, ls),
    decreases ls.len(),
{
    if ls.len() > 0 {
        lemma_feed_is_run(push_line_spec(st, ls[0]).0, ls.drop_first());
        lemma_run_lines_first(st, ls);
    }
}

/// Whatever lines a `cargo test` parser fresh from `new` is fed (a whole
/// output is read as its lines, in order), finishing gives no run exactly
/// when no suite block (the lines after a `Running` header, up to the next
/// header) holds a `test <name> ... <status>` line before a failure or
/// panic block ends its reading. A run holds the suites of exactly the
/// blocks that do, in order, each with at least one test; when the results
/// number no more than `u64::MAX`, it counts as many suites and tests as it
/// holds, as many failed tests as the suites hold failed results, every
/// other result as passed (ignored ones too), none pending, and succeeds
/// exactly when no test failed.
pub proof fn law_cargo_test_finalize(repo_root: Seq<char>, lines_fed: Seq<Seq<char>>)
    ensures
        ({
            let st = run_lines(
                StreamState { repo_root, dialect: CargoTestDialect, suites: Seq::empty(), current: None },
                lines_fed,
            );
            let blocks = all_blocks(CargoTestDialect, lines_fed);
            &&& (finalize_spec(st) is None <==> forall|k: int|
                0 <= k < blocks.len() ==> !has_test_line(CargoTestDialect, (#[trigger] blocks[k]).1, 0))
            &&& (finalize_spec(st) matches Some(m) ==> {
                &&& m.test_results == kept_block_suites(repo_root, CargoTestDialect, blocks)
                &&& suites_nonempty(m.test_results)
                &&& (suites_total_tests(m.test_results) <= u64::MAX ==> {
                    let a = m.aggregated;
                    &&& a.num_total_test_suites == m.test_results.len()
                    &&& a.num_total_tests == suites_total_tests(m.test_results)
                    &&& a.num_failed_tests == suites_failed_tests(m.test_results)
                    &&& a.num_passed_tests == suites_total_tests(m.test_results) - suites_failed_tests(
                        m.test_results,
                    )
                    &&& a.num_pending_tests == 0
                    &&& (a.success <==> a.num_failed_tests == 0)
                })
            })
        }),
        forall|out: Seq<char>|
            #![trigger cargo_test_output_spec(repo_root, out)]
            cargo_test_output_spec(repo_root, out) == finalize_spec(
                run_lines(
                    StreamState {
                        repo_root,
                        dialect: CargoTestDialect,
                        suites: Seq::empty(),
                        current: None,
                    },
                    lines(out),
                ),
            ),
{
    law_finalize_by_blocks(repo_root, CargoTestDialect, lines_fed);
    law_finalize_counts(repo_root, CargoTestDialect, lines_fed);
    assert forall|out: Seq<char>|
        #![trigger cargo_test_output_spec(repo_root, out)]
        cargo_test_output_spec(repo_root, out) == finalize_spec(
            run_lines(
                StreamState { repo_root, dialect: CargoTestDialect, suites: Seq::empty(), current: None },
                lines(out),
            ),
        ) by {
        lemma_feed_is_run(
            StreamState { repo_root, dialect: CargoTestDialect, suites: Seq::empty(), current: None },
            lines(out),
        );
    }
}


proof fn lemma_trim_unchanged(s: Seq<char>)
    requires
        s.len() > 0,
        !is_ws(s[0]),
        !is_ws(s[s.len() - 1]),
    ensures
        trim(s) == s,
{
    crate::text::lemma_lead_ws_char(s, 0);
    assert(trim_start(s) =~= s);
    crate::text::lemma_trail_ws_char(s, 0);
    assert(trim_end(s) =~= s);
}

proof fn lemma_word_len_whole(s: Seq<char>)
    requires
        forall|i: int| 0 <= i < s.len() ==> !is_ws(#[trigger] s[i]),
    ensures
        word_len(s) == s.len(),
    decreases s.len(),
{
    if s.len() > 0 {
        assert forall|i: int| 0 <= i < s.drop_first().len() implies !is_ws(#[trigger] s.drop_first()[i]) by {
            assert(s.drop_first()[i] == s[i + 1]);
        }
        lemma_word_len_whole(s.drop_first());
    }
}

/// The parts of `test <name> ... <word>` for a name without spaces.
proof fn lemma_test_line_parts(name: Seq<char>, word: Seq<char>)
    requires
        forall|i: int| 0 <= i < name.len() ==> name[i] != ' ',
        word.len() > 0,
        forall|i: int| 0 <= i < word.len() ==> !is_ws(#[trigger] word[i]),
    ensures
        ({
            let t = trim(word);
            test_line_spec("test "@ + name + " ... "@ + word) == if t.take(word_len(t) as int) == "ok"@ {
                Some(ParsedTestLineView::Completed { name, status: "passed"@ })
            } else if t.take(word_len(t) as int) == "FAILED"@ {
                Some(ParsedTestLineView::Completed { name, status: "failed"@ })
            } else if t.take(word_len(t) as int) == "ignored"@ {
                Some(ParsedTestLineView::Completed { name, status: "pending"@ })
            } else {
                Some(ParsedTestLineView::Pending { name, inline_output: None })
            }
        }),
        trim(word).take(word_len(trim(word)) as int) == word,
{
    reveal_strlit("test ");
    reveal_strlit(" ... ");
    let sep = " ... "@;
    let line = "test "@ + name + sep + word;
    assert(line[0] == 't');
    assert(line[line.len() - 1] == word[word.len() - 1]);
    lemma_trim_unchanged(line);
    assert(line.take(5) =~= "test "@);
    let rest = line.skip(5);
    assert(rest =~= name + sep + word);
    let n = name.len() as int;
    assert(rest.subrange(n, n + 5) =~= sep);
    assert(match_at(rest, sep, n));
    crate::text::lemma_find_from_props(rest, sep, 0);
    match find(rest, sep) {
        Some(k) => {
            assert(rest.subrange(k, k + 5)[0] == rest[k]);
            if k < n {
                assert(rest[k] == name[k]);
            }
            if k > n {
                assert(!match_at(rest, sep, n));
            }
        },
        None => {},
    }
    assert(find(rest, sep) == Some(n));
    assert(rest.take(n) =~= name);
    assert(rest.skip(n + 5) =~= word);
    lemma_trim_unchanged(word);
    lemma_word_len_whole(word);
    assert(word.take(word.len() as int) =~= word);
}

/// A `cargo test` line `test <name> ... ok` completes test `<name>` as
/// passed, one ending `... FAILED` as failed and one ending `... ignored`
/// as pending, whatever the name (test names hold no spaces).
pub proof fn law_cargo_test_line_status(name: Seq<char>)
    requires
        forall|i: int| 0 <= i < name.len() ==> name[i] != ' ',
    ensures
        CargoTestDialect.spec_test_line("test "@ + name + " ... ok"@) == Some(
            ParsedTestLineView::Completed { name, status: "passed"@ },
        ),
        CargoTestDialect.spec_test_line("test "@ + name + " ... FAILED"@) == Some(
            ParsedTestLineView::Completed { name, status: "failed"@ },
        ),
        CargoTestDialect.spec_test_line("test "@ + name + " ... ignored"@) == Some(
            ParsedTestLineView::Completed { name, status: "pending"@ },
        ),
{
    reveal_strlit(" ... ok");
    reveal_strlit(" ... FAILED");
    reveal_strlit(" ... ignored");
    reveal_strlit(" ... ");
    reveal_strlit("ok");
    reveal_strlit("FAILED");
    reveal_strlit("ignored");
    assert(" ... ok"@ =~= " ... "@ + "ok"@);
    assert(" ... FAILED"@ =~= " ... "@ + "FAILED"@);
    assert(" ... ignored"@ =~= " ... "@ + "ignored"@);
    assert forall|i: int| 0 <= i < "ok"@.len() implies !is_ws(#[trigger] "ok"@[i]) by {}
    assert forall|i: int| 0 <= i < "FAILED"@.len() implies !is_ws(#[trigger] "FAILED"@[i]) by {}
    assert forall|i: int| 0 <= i < "ignored"@.len() implies !is_ws(#[trigger] "ignored"@[i]) by {}
    lemma_test_line_parts(name, "ok"@);
    lemma_test_line_parts(name, "FAILED"@);
    lemma_test_line_parts(name, "ignored"@);
    assert("test "@ + name + " ... ok"@ =~= "test "@ + name + " ... "@ + "ok"@);
    assert("test "@ + name + " ... FAILED"@ =~= "test "@ + name + " ... "@ + "FAILED"@);
    assert("test "@ + name + " ... ignored"@ =~= "test "@ + name + " ... "@ + "ignored"@);
}


/// A `cargo test` suite block of lines `test <name> ... <word>`, with
/// space-free names and each word `ok`, `FAILED` or `ignored`, gives one
/// test per line, in order, named by its line: passed for `ok`, failed for
/// `FAILED`, pending for `ignored`.
pub proof fn law_cargo_suite_statuses(
    repo_root: Seq<char>,
    source_path: Seq<char>,
    names: Seq<Seq<char>>,
    words: Seq<Seq<char>>,
)
    requires
        names.len() == words.len(),
        forall|k: int, i: int| 0 <= k < names.len() && 0 <= i < names[k].len() ==> #[trigger] names[k][i] != ' ',
        forall|k: int|
            0 <= k < words.len() ==> (#[trigger] words[k]) == "ok"@ || words[k] == "FAILED"@ || words[k]
                == "ignored"@,
    ensures
        ({
            let ls = Seq::new(names.len(), |k: int| "test "@ + names[k] + " ... "@ + words[k]);
            let t = suite_spec(repo_root, CargoTestDialect, source_path, ls).test_results;
            &&& t.len() == names.len()
            &&& forall|k: int| 0 <= k < names.len() ==> (#[trigger] t[k]).title == names[k]
            &&& forall|k: int| 0 <= k < names.len() && words[k] == "ok"@ ==> (#[trigger] t[k]).status == "passed"@
            &&& forall|k: int| 0 <= k < names.len() && words[k] == "FAILED"@ ==> (#[trigger] t[k]).status
                == "failed"@
            &&& forall|k: int| 0 <= k < names.len() && words[k] == "ignored"@ ==> (#[trigger] t[k]).status
                == "pending"@
        }),
{
    reveal_strlit(" ... ok");
    reveal_strlit(" ... FAILED");
    reveal_strlit(" ... ignored");
    reveal_strlit(" ... ");
    reveal_strlit("ok");
    reveal_strlit("FAILED");
    reveal_strlit("ignored");
    let ls = Seq::new(names.len(), |k: int| "test "@ + names[k] + " ... "@ + words[k]);
    assert forall|k: int| 0 <= k < ls.len() implies (#[trigger] CargoTestDialect.spec_test_line(ls[k])) == Some(
        ParsedTestLineView::Completed {
            name: names[k],
            status: if words[k] == "ok"@ {
                "passed"@
            } else if words[k] == "FAILED"@ {
                "failed"@
            } else {
                "pending"@
            },
        },
    ) by {
        assert forall|i: int| 0 <= i < names[k].len() implies names[k][i] != ' ' by {
            assert(names[k][i] != ' ');
        }
        law_cargo_test_line_status(names[k]);
        if words[k] == "ok"@ {
            assert(ls[k] =~= "test "@ + names[k] + " ... ok"@);
        } else if words[k] == "FAILED"@ {
            assert(ls[k] =~= "test "@ + names[k] + " ... FAILED"@);
        } else {
            assert(ls[k] =~= "test "@ + names[k] + " ... ignored"@);
        }
    }
    law_completed_lines_give_cases(repo_root, CargoTestDialect, source_path, ls);
}

} // verus!
