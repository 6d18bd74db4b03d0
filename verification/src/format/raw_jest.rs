//! Jest's own console output read back into pieces: failure blocks, the
//! `PASS`/`FAIL` line of each file, summary lines, stack frames and the
//! rest; and the pieces of the report that are built from them.
use crate::fast_related::contains_string;
use crate::format::pattern::{captures2, last_capture1, regex_captures2_of, regex_is_match, regex_is_match_of,
    regex_last_capture1_of};
use crate::format::stacks::{ansi_stripped, is_stack_line, is_stack_line_spec, strip_ansi_simple};
use crate::text::{
    chars_of, concat2, is_blank, is_blank_str, join, join_strs, owned, split_char, split_char_str, starts_with,
    starts_with_str, string_of_range, trim, trim_start, trim_start_str, trim_str, views,
};
use crate::format::failure_diagnostics::{slashes, slashes_str, trim_quotes, trim_quotes_str};
use crate::format::ansi::dim;
use crate::text::{find, find_str, lemma_find_from_props, is_blank_str as blank_str};
use vstd::prelude::*;

verus! {

/// A failure block starts with `●`.
pub const FAILURE_START_PATTERN: &'static str = "^\\s*\u{25cf}\\s+";

/// A file's result line starts with `PASS` or `FAIL`.
pub const SUITE_LINE_PATTERN: &'static str = "^\\s*(PASS|FAIL)\\s+";

/// The summary lines at the end of a run.
pub const SUMMARY_LINE_PATTERN: &'static str = "^\\s*(Test Suites:|Tests:|Snapshots:|Time:|Ran all)";

/// The badge and the file of a result line.
pub const SUITE_CAPTURE_PATTERN: &'static str = "^\\s*(PASS|FAIL)\\s+(.+)$";

/// One piece of Jest's output.
#[derive(Debug, Clone)]
pub enum Chunk {
    FailureBlock { title: String, lines: Vec<String> },
    PassFail { badge: String, rel: String },
    Summary { line: String },
    Stack { line: String },
    Other { line: String },
}

pub enum ChunkView {
    FailureBlock { title: Seq<char>, lines: Seq<Seq<char>> },
    PassFail { badge: Seq<char>, rel: Seq<char> },
    Summary { line: Seq<char> },
    Stack { line: Seq<char> },
    Other { line: Seq<char> },
}

impl View for Chunk {
    type V = ChunkView;

    open spec fn view(&self) -> ChunkView {
        match self {
            Chunk::FailureBlock { title, lines } => ChunkView::FailureBlock { title: title@, lines: views(lines@) },
            Chunk::PassFail { badge, rel } => ChunkView::PassFail { badge: badge@, rel: rel@ },
            Chunk::Summary { line } => ChunkView::Summary { line: line@ },
            Chunk::Stack { line } => ChunkView::Stack { line: line@ },
            Chunk::Other { line } => ChunkView::Other { line: line@ },
        }
    }
}

pub open spec fn chunk_views(v: Seq<Chunk>) -> Seq<ChunkView> {
    v.map_values(|c: Chunk| c@)
}

/// The line without ANSI styling.
pub open spec fn plain(line: Seq<char>) -> Seq<char> {
    ansi_stripped(line)
}

pub open spec fn is_failure_start(line: Seq<char>) -> bool {
    regex_is_match_of(FAILURE_START_PATTERN@, plain(line))
}

pub open spec fn is_suite_line(line: Seq<char>) -> bool {
    regex_is_match_of(SUITE_LINE_PATTERN@, plain(line))
}

pub open spec fn is_summary_line(line: Seq<char>) -> bool {
    regex_is_match_of(SUMMARY_LINE_PATTERN@, plain(line))
}

/// A line that begins a new piece.
pub open spec fn starts_piece(line: Seq<char>) -> bool {
    is_failure_start(line) || is_suite_line(line) || is_summary_line(line)
}

/// Number of leading `c` characters.
pub open spec fn lead_count(s: Seq<char>, c: char) -> nat
    decreases s.len(),
{
    if s.len() > 0 && s[0] == c {
        1 + lead_count(s.drop_first(), c)
    } else {
        0
    }
}

/// The title of a failure block: its first line without styling, leading
/// whitespace and bullets, trimmed.
pub open spec fn failure_title(line: Seq<char>) -> Seq<char> {
    let t = trim_start(plain(line));
    trim(t.skip(lead_count(t, '\u{25cf}') as int))
}

/// Where the failure block that started before `i` ends: at the first line
/// from `i` on that begins a new piece right after a blank line, or at the
/// end.
pub open spec fn failure_end(ls: Seq<Seq<char>>, i: int) -> int
    decreases ls.len() - i,
{
    if i >= ls.len() || i < 1 {
        ls.len() as int
    } else if starts_piece(ls[i]) && is_blank(plain(ls[i - 1])) {
        i
    } else {
        failure_end(ls, i + 1)
    }
}

/// The badge and file of a result line.
pub open spec fn parse_suite_spec(line_text: Seq<char>) -> Option<(Seq<char>, Seq<char>)> {
    regex_captures2_of(SUITE_CAPTURE_PATTERN@, line_text)
}

/// The pieces of the lines from `i` on.
pub open spec fn chunks_from(ls: Seq<Seq<char>>, i: int) -> Seq<ChunkView>
    decreases ls.len() - i,
{
    if i < 0 || i >= ls.len() {
        Seq::empty()
    } else {
        let l = ls[i];
        if is_failure_start(l) {
            let e0 = failure_end(ls, i + 1);
            let e = if e0 > i && e0 <= ls.len() {
                e0
            } else {
                i + 1
            };
            seq![ChunkView::FailureBlock { title: failure_title(l), lines: ls.subrange(i, e) }] + chunks_from(ls, e)
        } else {
            let c = if is_suite_line(l) {
                match parse_suite_spec(plain(l)) {
                    Some((badge, rel)) => ChunkView::PassFail { badge, rel },
                    None => ChunkView::Other { line: l },
                }
            } else if is_summary_line(l) {
                ChunkView::Summary { line: l }
            } else if is_stack_line_spec(plain(l)) {
                ChunkView::Stack { line: l }
            } else {
                ChunkView::Other { line: l }
            };
            seq![c] + chunks_from(ls, i + 1)
        }
    }
}

/// The pieces of Jest's output, split on `\n`.
pub open spec fn parse_chunks_spec(raw: Seq<char>) -> Seq<ChunkView> {
    chunks_from(split_char(raw, '\n'), 0)
}

proof fn lemma_failure_end(ls: Seq<Seq<char>>, i: int)
    requires
        1 <= i,
    ensures
        i <= failure_end(ls, i) <= ls.len() || (i > ls.len() && failure_end(ls, i) == ls.len()),
        forall|j: int| i <= j < failure_end(ls, i) ==> !(starts_piece(#[trigger] ls[j]) && is_blank(plain(ls[j - 1]))),
    decreases ls.len() - i,
{
    if i < ls.len() && !(starts_piece(ls[i]) && is_blank(plain(ls[i - 1]))) {
        lemma_failure_end(ls, i + 1);
    }
}

/// The title of a failure block (see [`failure_title`]).
fn failure_title_exec(line: &str) -> (res: String)
    ensures
        res@ == failure_title(line@),
{
    let t = trim_start_str(strip_ansi_simple(line).as_str());
    let v = chars_of(t.as_str());
    let mut k: usize = 0;
    assert(v@.skip(0) =~= v@);
    while k < v.len() && v[k] == '\u{25cf}'
        invariant
            k <= v.len(),
            v@ == t@,
            lead_count(t@, '\u{25cf}') == k + lead_count(v@.skip(k as int), '\u{25cf}'),
        decreases v.len() - k,
    {
        assert(v@.skip(k as int).drop_first() =~= v@.skip(k + 1));
        k = k + 1;
    }
    let rest = string_of_range(&v, k, v.len());
    assert(rest@ == t@.skip(k as int));
    trim_str(rest.as_str())
}

fn starts_piece_exec(line: &str) -> (res: bool)
    ensures
        res == starts_piece(line@),
{
    let simple = strip_ansi_simple(line);
    regex_is_match(FAILURE_START_PATTERN, simple.as_str()) || regex_is_match(SUITE_LINE_PATTERN, simple.as_str())
        || regex_is_match(SUMMARY_LINE_PATTERN, simple.as_str())
}

/// The failure block that starts at `start` and the index after it.
pub fn collect_failure(all_lines: &Vec<String>, start_index: usize) -> (res: (Chunk, usize))
    requires
        start_index < all_lines.len(),
    ensures
        res.1 == failure_end(views(all_lines@), start_index + 1),
        res.0@ == (ChunkView::FailureBlock {
            title: failure_title(all_lines@[start_index as int]@),
            lines: views(all_lines@).subrange(start_index as int, res.1 as int),
        }),
{
    let ghost lv = views(all_lines@);
    let title = failure_title_exec(all_lines[start_index].as_str());
    let mut buf: Vec<String> = Vec::new();
    buf.push(owned(all_lines[start_index].as_str()));
    let mut i: usize = start_index + 1;
    assert(views(buf@) =~= lv.subrange(start_index as int, i as int));
    while i < all_lines.len()
        invariant
            start_index < i <= all_lines.len(),
            lv == views(all_lines@),
            failure_end(lv, start_index + 1) == failure_end(lv, i as int),
            views(buf@) == lv.subrange(start_index as int, i as int),
        ensures
            start_index < i <= all_lines.len(),
            failure_end(lv, start_index + 1) == i,
            views(buf@) == lv.subrange(start_index as int, i as int),
        decreases all_lines.len() - i,
    {
        let next_is_start = starts_piece_exec(all_lines[i].as_str());
        let prev_blank = is_blank_str(strip_ansi_simple(all_lines[i - 1].as_str()).as_str());
        if next_is_start && prev_blank {
            break;
        }
        let ghost before = views(buf@);
        buf.push(owned(all_lines[i].as_str()));
        assert(views(buf@) =~= before.push(lv[i as int]));
        assert(lv.subrange(start_index as int, i + 1) =~= lv.subrange(start_index as int, i as int).push(lv[i as int]));
        i = i + 1;
    }
    (Chunk::FailureBlock { title, lines: buf }, i)
}

/// The badge and file of a result line (see [`parse_suite_spec`]).
pub fn parse_suite(line_text: &str) -> (res: Option<(String, String)>)
    ensures
        match res {
            Some((b, r)) => parse_suite_spec(line_text@) == Some((b@, r@)),
            None => parse_suite_spec(line_text@) is None,
        },
{
    captures2(SUITE_CAPTURE_PATTERN, line_text)
}

/// Splits Jest's output into pieces (see [`parse_chunks_spec`]).
pub fn parse_chunks(raw: &str) -> (res: Vec<Chunk>)
    ensures
        chunk_views(res@) == parse_chunks_spec(raw@),
{
    let lines = split_char_str(raw, '\n');
    let ghost lv = views(lines@);
    let mut out: Vec<Chunk> = Vec::new();
    let mut i: usize = 0;
    while i < lines.len()
        invariant
            i <= lines.len(),
            lv == views(lines@),
            lv == split_char(raw@, '\n'),
            chunks_from(lv, 0) == chunk_views(out@) + chunks_from(lv, i as int),
        decreases lines.len() - i,
    {
        let line = lines[i].as_str();
        assert(lv[i as int] == line@);
        let simple = strip_ansi_simple(line);
        let ghost before = chunk_views(out@);
        if regex_is_match(FAILURE_START_PATTERN, simple.as_str()) {
            let (chunk, next) = collect_failure(&lines, i);
            proof {
                lemma_failure_end(lv, i + 1);
            }
            out.push(chunk);
            assert(chunk_views(out@) =~= before.push(chunk@));
            assert(chunks_from(lv, i as int) == seq![chunk@] + chunks_from(lv, next as int));
            assert(chunk_views(out@) + chunks_from(lv, next as int) =~= before + (seq![chunk@] + chunks_from(
                lv,
                next as int,
            )));
            i = next;
        } else {
            let chunk = if regex_is_match(SUITE_LINE_PATTERN, simple.as_str()) {
                match parse_suite(simple.as_str()) {
                    Some((badge, rel)) => Chunk::PassFail { badge, rel },
                    None => Chunk::Other { line: owned(line) },
                }
            } else if regex_is_match(SUMMARY_LINE_PATTERN, simple.as_str()) {
                Chunk::Summary { line: owned(line) }
            } else if is_stack_line(simple.as_str()) {
                Chunk::Stack { line: owned(line) }
            } else {
                Chunk::Other { line: owned(line) }
            };
            out.push(chunk);
            assert(chunk_views(out@) =~= before.push(chunk@));
            assert(chunks_from(lv, i as int) == seq![chunk@] + chunks_from(lv, i + 1));
            assert(chunk_views(out@) + chunks_from(lv, i + 1) =~= before + (seq![chunk@] + chunks_from(lv, i + 1)));
            i = i + 1;
        }
    }
    assert(chunks_from(lv, i as int) =~= Seq::<ChunkView>::empty());
    assert(chunk_views(out@) + Seq::<ChunkView>::empty() =~= chunk_views(out@));
    out
}


/// The state of a line filter that keeps each line whose plain text was
/// not seen before: the lines kept and the plain texts seen.
pub open spec fn unique_step(st: (Seq<Seq<char>>, Seq<Seq<char>>), line: Seq<char>) -> (
    Seq<Seq<char>>,
    Seq<Seq<char>>,
) {
    let key = plain(line);
    if st.1.contains(key) {
        st
    } else {
        (st.0.push(line), st.1.push(key))
    }
}

pub open spec fn unique_fold(st: (Seq<Seq<char>>, Seq<Seq<char>>), ls: Seq<Seq<char>>) -> (
    Seq<Seq<char>>,
    Seq<Seq<char>>,
)
    decreases ls.len(),
{
    if ls.len() == 0 {
        st
    } else {
        unique_step(unique_fold(st, ls.drop_last()), ls.last())
    }
}

/// Adds the lines of `text` whose plain text was not seen yet.
pub fn push_unique_lines(out: &mut Vec<String>, seen: &mut Vec<String>, text: &str)
    ensures
        (views(final(out)@), views(final(seen)@)) == unique_fold(
            (views(old(out)@), views(old(seen)@)),
            split_char(text@, '\n'),
        ),
{
    let ls = split_char_str(text, '\n');
    let ghost lv = views(ls@);
    let ghost st0 = (views(out@), views(seen@));
    let mut i: usize = 0;
    while i < ls.len()
        invariant
            i <= ls.len(),
            lv == views(ls@),
            lv == split_char(text@, '\n'),
            (views(out@), views(seen@)) == unique_fold(st0, lv.take(i as int)),
        decreases ls.len() - i,
    {
        assert(lv.take(i + 1).drop_last() =~= lv.take(i as int));
        assert(lv.take(i + 1).last() == ls@[i as int]@);
        let key = strip_ansi_simple(ls[i].as_str());
        if !contains_string(seen, key.as_str()) {
            let ghost b0 = views(out@);
            let ghost b1 = views(seen@);
            seen.push(key);
            out.push(owned(ls[i].as_str()));
            assert(views(out@) =~= b0.push(ls@[i as int]@));
            assert(views(seen@) =~= b1.push(plain(ls@[i as int]@)));
        }
        i = i + 1;
    }
    assert(lv.take(ls.len() as int) =~= lv);
}

/// The native report's lines, then, when the bridge report is not blank,
/// a blank line (if anything came before) and its lines; a line whose
/// plain text was already shown is left out. The blank separator is never
/// counted as seen.
pub open spec fn merge_unique_spec(native: Seq<char>, bridge: Option<Seq<char>>) -> Seq<char> {
    let st1 = unique_fold((Seq::empty(), Seq::empty()), split_char(native, '\n'));
    let st2 = match bridge {
        Some(b) => if !is_blank(b) {
            let st = if st1.0.len() > 0 {
                (st1.0.push(Seq::empty()), st1.1)
            } else {
                st1
            };
            unique_fold(st, split_char(b, '\n'))
        } else {
            st1
        },
        None => st1,
    };
    join(st2.0, "\n"@)
}

/// Merges the native report with the bridge report (see
/// [`merge_unique_spec`]).
pub fn merge_unique_blocks(native: &str, bridge: Option<&str>) -> (res: String)
    ensures
        res@ == merge_unique_spec(
            native@,
            match bridge {
                Some(b) => Some(b@),
                None => None,
            },
        ),
{
    let mut out: Vec<String> = Vec::new();
    let mut seen: Vec<String> = Vec::new();
    assert(views(out@) =~= Seq::<Seq<char>>::empty());
    assert(views(seen@) =~= Seq::<Seq<char>>::empty());
    push_unique_lines(&mut out, &mut seen, native);
    match bridge {
        Some(b) => {
            if !is_blank_str(b) {
                if out.len() > 0 {
                    let ghost before = views(out@);
                    out.push(String::new());
                    assert(views(out@) =~= before.push(Seq::<char>::empty()));
                }
                push_unique_lines(&mut out, &mut seen, b);
            }
        },
        None => {},
    }
    join_strs(&out, "\n")
}

/// Every occurrence of `p` (not empty) replaced by `r`, left to right.
pub open spec fn replace_all(s: Seq<char>, p: Seq<char>, r: Seq<char>) -> Seq<char>
    decreases s.len(),
{
    if p.len() == 0 {
        s
    } else {
        match find(s, p) {
            None => s,
            Some(i) => {
                proof {
                    lemma_find_from_props(s, p, 0);
                }
                s.take(i) + r + replace_all(s.skip(i + p.len()), p, r)
            },
        }
    }
}

fn replace_all_str(s: &str, p: &str, r: &str) -> (res: String)
    requires
        p@.len() > 0,
    ensures
        res@ == replace_all(s@, p@, r@),
{
    let pn = chars_of(p).len();
    let mut out = String::new();
    let mut rest = owned(s);
    assert(out@ + replace_all(rest@, p@, r@) =~= replace_all(s@, p@, r@));
    loop
        invariant
            p@.len() > 0,
            pn == p@.len(),
            out@ + replace_all(rest@, p@, r@) == replace_all(s@, p@, r@),
        decreases rest@.len(),
    {
        match find_str(rest.as_str(), p) {
            None => {
                let ghost o = out@;
                crate::text::push_str(&mut out, rest.as_str());
                assert(out@ == o + rest@);
                return out;
            },
            Some(i) => {
                proof {
                    lemma_find_from_props(rest@, p@, 0);
                }
                let v = chars_of(rest.as_str());
                assert(v@ == rest@);
                assert(i + pn <= v.len());
                let head = string_of_range(&v, 0, i);
                let tail = string_of_range(&v, i + pn, v.len());
                let ghost o = out@;
                crate::text::push_str(&mut out, head.as_str());
                crate::text::push_str(&mut out, r);
                assert(out@ == o + rest@.take(i as int) + r@);
                assert(tail@ == rest@.skip(i + p@.len()));
                assert(out@ + replace_all(tail@, p@, r@) =~= o + (rest@.take(i as int) + r@ + replace_all(
                    rest@.skip(i + p@.len()),
                    p@,
                    r@,
                )));
                rest = tail;
            },
        }
    }
}

/// A path shown relative to the working directory: slashes forward, and
/// every `<cwd>/` removed.
pub open spec fn rel_path_spec(abs: Seq<char>, cwd: Seq<char>) -> Seq<char> {
    replace_all(slashes(abs), cwd + seq!['/'], Seq::empty())
}

/// `abs` relative to `cwd` (see [`rel_path_spec`]).
pub fn rel_path(abs: &str, cwd: &str) -> (res: String)
    ensures
        res@ == rel_path_spec(abs@, cwd@),
{
    let a = slashes_str(abs);
    let prefix = concat2(cwd, "/");
    proof {
        reveal_strlit("/");
        reveal_strlit("");
        assert("/"@ =~= seq!['/']);
        assert(""@ =~= Seq::<char>::empty());
    }
    replace_all_str(a.as_str(), prefix.as_str(), "")
}

/// The header of a failure block: `<file> > <title>`, or the title alone
/// when the file is not known.
pub open spec fn failure_header_spec(title: Seq<char>, rel_file: Seq<char>) -> Seq<char> {
    if rel_file.len() > 0 {
        rel_file + " > "@ + title
    } else {
        title
    }
}

pub fn build_failure_header_text(title: &str, rel_file: &str) -> (res: String)
    ensures
        res@ == failure_header_spec(title@, rel_file@),
{
    if !rel_file.is_empty() {
        let mut out = concat2(rel_file, " > ");
        crate::text::push_str(&mut out, title);
        out
    } else {
        owned(title)
    }
}

/// A rendered line that shows a file result.
pub open spec fn shows_file_result(line: Seq<char>) -> bool {
    starts_with(trim_start(plain(line)), "PASS "@) || starts_with(trim_start(plain(line)), "FAIL "@)
}

/// Whether anything was read from the output: a file or a failure was
/// seen, or a rendered line shows a file result.
pub open spec fn had_parsed_spec(out: Seq<Seq<char>>, any_files: bool, any_failures: bool) -> bool {
    any_files || any_failures || exists|k: int| 0 <= k < out.len() && shows_file_result(#[trigger] out[k])
}

pub fn compute_had_parsed(out: &Vec<String>, any_files: bool, any_failures: bool) -> (res: bool)
    ensures
        res == had_parsed_spec(views(out@), any_files, any_failures),
{
    if any_files || any_failures {
        return true;
    }
    let ghost ov = views(out@);
    let mut i: usize = 0;
    while i < out.len()
        invariant
            i <= out.len(),
            ov == views(out@),
            forall|k: int| 0 <= k < i ==> !shows_file_result(#[trigger] ov[k]),
        decreases out.len() - i,
    {
        let t = trim_start_str(strip_ansi_simple(out[i].as_str()).as_str());
        if starts_with_str(t.as_str(), "PASS ") || starts_with_str(t.as_str(), "FAIL ") {
            assert(shows_file_result(ov[i as int]));
            return true;
        }
        i = i + 1;
    }
    false
}


/// A line that names an expectation (`expect(...).to...`).
pub const EXPECT_HINT_PATTERN: &'static str = "expect\\(.+?\\)\\.(?:to|not\\.)";

/// A line that names an error.
pub const ERROR_HINT_PATTERN: &'static str = "\\bError:?\\b";

/// A `console.error(` or `console.warn(` call.
pub const CONSOLE_CALL_PATTERN: &'static str = "\\bconsole\\.(error|warn)\\s*\\(";

/// Where the bridge reporter wrote its results.
pub const BRIDGE_PATH_PATTERN: &'static str = "Test results written to:\\s+([^\\n\\r]+jest-bridge-[^\\s'\"]+\\.json)";

pub open spec fn plains(ls: Seq<Seq<char>>) -> Seq<Seq<char>> {
    ls.map_values(|l: Seq<char>| plain(l))
}

/// A line where the message of a failure starts.
pub open spec fn is_message_hint(p: Seq<char>) -> bool {
    regex_is_match_of(EXPECT_HINT_PATTERN@, p) || regex_is_match_of(ERROR_HINT_PATTERN@, p)
}

/// The first hint line at or after `i`, or the number of lines.
pub open spec fn first_hint(ps: Seq<Seq<char>>, i: int) -> int
    decreases ps.len() - i,
{
    if i < 0 || i >= ps.len() {
        ps.len() as int
    } else if is_message_hint(ps[i]) {
        i
    } else {
        first_hint(ps, i + 1)
    }
}

/// The lines from `i` up to the first blank line or stack frame.
pub open spec fn message_run(ps: Seq<Seq<char>>, i: int) -> Seq<Seq<char>>
    decreases ps.len() - i,
{
    if i < 0 || i >= ps.len() || is_blank(ps[i]) || is_stack_line_spec(ps[i]) {
        Seq::empty()
    } else {
        seq![ps[i]] + message_run(ps, i + 1)
    }
}

/// The message of a failure block, without styling: from the first line
/// that names an expectation or an error (or from the top when none does)
/// up to the first blank line or stack frame.
pub open spec fn minimal_message_spec(lines: Seq<Seq<char>>) -> Seq<Seq<char>> {
    let ps = plains(lines);
    let h = first_hint(ps, 0);
    message_run(
        ps,
        if h < ps.len() {
            h
        } else {
            0
        },
    )
}

pub(crate) fn plain_lines(lines: &Vec<String>) -> (res: Vec<String>)
    ensures
        views(res@) == plains(views(lines@)),
{
    let mut out: Vec<String> = Vec::new();
    let mut i: usize = 0;
    while i < lines.len()
        invariant
            i <= lines.len(),
            views(out@) == plains(views(lines@)).take(i as int),
        decreases lines.len() - i,
    {
        let ghost before = views(out@);
        out.push(strip_ansi_simple(lines[i].as_str()));
        assert(views(out@) =~= before.push(plain(lines@[i as int]@)));
        assert(plains(views(lines@)).take(i + 1) =~= plains(views(lines@)).take(i as int).push(
            plain(lines@[i as int]@),
        ));
        i = i + 1;
    }
    assert(plains(views(lines@)).take(lines.len() as int) =~= plains(views(lines@)));
    out
}

/// The message lines of a failure block (see [`minimal_message_spec`]).
pub fn minimal_message_lines(lines: &Vec<String>) -> (res: Vec<String>)
    ensures
        views(res@) == minimal_message_spec(views(lines@)),
{
    let ps = plain_lines(lines);
    let ghost pv = views(ps@);
    let mut h: usize = 0;
    while h < ps.len()
        invariant
            h <= ps.len(),
            pv == views(ps@),
            first_hint(pv, 0) == first_hint(pv, h as int),
        ensures
            h <= ps.len(),
            first_hint(pv, 0) == h,
        decreases ps.len() - h,
    {
        let t = ps[h].as_str();
        assert(pv[h as int] == t@);
        if regex_is_match(EXPECT_HINT_PATTERN, t) || regex_is_match(ERROR_HINT_PATTERN, t) {
            break;
        }
        h = h + 1;
    }
    let start = if h < ps.len() {
        h
    } else {
        0
    };
    let mut acc: Vec<String> = Vec::new();
    let mut i: usize = start;
    assert(views(acc@) + message_run(pv, i as int) =~= message_run(pv, start as int));
    assert(message_run(pv, start as int) == minimal_message_spec(views(lines@)));
    while i < ps.len()
        invariant
            i <= ps.len(),
            pv == views(ps@),
            views(acc@) + message_run(pv, i as int) == message_run(pv, start as int),
            message_run(pv, start as int) == minimal_message_spec(views(lines@)),
        decreases ps.len() - i,
    {
        let t = ps[i].as_str();
        assert(pv[i as int] == t@);
        if is_blank_str(t) || is_stack_line(t) {
            assert(message_run(pv, i as int) =~= Seq::<Seq<char>>::empty());
            assert(views(acc@) + Seq::<Seq<char>>::empty() =~= views(acc@));
            return acc;
        }
        let ghost before = views(acc@);
        acc.push(owned(t));
        assert(views(acc@) =~= before.push(t@));
        assert(views(acc@) + message_run(pv, i + 1) =~= before + (seq![t@] + message_run(pv, i + 1)));
        i = i + 1;
    }
    assert(message_run(pv, i as int) =~= Seq::<Seq<char>>::empty());
    assert(views(acc@) + Seq::<Seq<char>>::empty() =~= views(acc@));
    acc
}

/// A plain line that shows a console error or warning.
pub open spec fn is_console_error_line(p: Seq<char>) -> bool {
    regex_is_match_of(CONSOLE_CALL_PATTERN@, p) || starts_with(trim_start(p), "Error:"@)
}

/// The console error lines, trimmed, blank ones left out.
pub open spec fn console_candidates(ps: Seq<Seq<char>>) -> Seq<Seq<char>>
    decreases ps.len(),
{
    if ps.len() == 0 {
        Seq::empty()
    } else {
        let r = console_candidates(ps.drop_last());
        let p = ps.last();
        if is_console_error_line(p) && trim(p).len() > 0 {
            r.push(trim(p))
        } else {
            r
        }
    }
}

/// The length of a text in UTF-8 bytes, as `str::len` gives it.
pub open spec fn byte_len(s: Seq<char>) -> usize {
    vstd::utf8::encode_utf8(s).len() as usize
}

/// `x` put after every element at least as long (one step of a stable
/// sort, longest first).
pub open spec fn insert_by_len(s: Seq<Seq<char>>, x: Seq<char>) -> Seq<Seq<char>>
    decreases s.len(),
{
    if s.len() == 0 {
        seq![x]
    } else if byte_len(s.last()) < byte_len(x) {
        insert_by_len(s.drop_last(), x).push(s.last())
    } else {
        s.push(x)
    }
}

pub open spec fn insert_by_len_pos(s: Seq<Seq<char>>, x: Seq<char>) -> int
    decreases s.len(),
{
    if s.len() == 0 {
        0
    } else if byte_len(s.last()) < byte_len(x) {
        insert_by_len_pos(s.drop_last(), x)
    } else {
        s.len() as int
    }
}

/// The stable sort of texts, longest first.
pub open spec fn sort_by_len_desc(s: Seq<Seq<char>>) -> Seq<Seq<char>>
    decreases s.len(),
{
    if s.len() == 0 {
        Seq::empty()
    } else {
        insert_by_len(sort_by_len_desc(s.drop_last()), s.last())
    }
}

proof fn lemma_insert_by_len(s: Seq<Seq<char>>, x: Seq<char>)
    ensures
        0 <= insert_by_len_pos(s, x) <= s.len(),
        insert_by_len(s, x) == s.insert(insert_by_len_pos(s, x), x),
    decreases s.len(),
{
    if s.len() > 0 && byte_len(s.last()) < byte_len(x) {
        lemma_insert_by_len(s.drop_last(), x);
        let p = insert_by_len_pos(s.drop_last(), x);
        assert(s.drop_last().insert(p, x).push(s.last()) =~= s.insert(p, x));
    } else if s.len() > 0 {
        assert(s.push(x) =~= s.insert(s.len() as int, x));
    } else {
        assert(seq![x] =~= s.insert(0, x));
    }
}

/// The console errors of a failure block: the console error lines without
/// styling, trimmed, longest first, at most three.
pub open spec fn console_inline_spec(lines: Seq<Seq<char>>) -> Seq<Seq<char>> {
    let c = sort_by_len_desc(console_candidates(plains(lines)));
    if c.len() > 3 {
        c.take(3)
    } else {
        c
    }
}

/// The console errors of a failure block (see [`console_inline_spec`]).
pub fn extract_console_inline(lines: &Vec<String>) -> (res: Vec<String>)
    ensures
        views(res@) == console_inline_spec(views(lines@)),
{
    let ps = plain_lines(lines);
    let ghost pv = views(ps@);
    let mut sorted: Vec<String> = Vec::new();
    let mut i: usize = 0;
    while i < ps.len()
        invariant
            i <= ps.len(),
            pv == views(ps@),
            views(sorted@) == sort_by_len_desc(console_candidates(pv.take(i as int))),
        decreases ps.len() - i,
    {
        let p = ps[i].as_str();
        assert(pv.take(i + 1).drop_last() =~= pv.take(i as int));
        assert(pv.take(i + 1).last() == p@);
        let t = trim_str(p);
        if (regex_is_match(CONSOLE_CALL_PATTERN, p) || starts_with_str(trim_start_str(p).as_str(), "Error:"))
            && !t.as_str().is_empty() {
            let ghost sv = views(sorted@);
            proof {
                lemma_insert_by_len(sv, t@);
                let r = console_candidates(pv.take(i as int));
                assert(console_candidates(pv.take(i + 1)) == r.push(t@));
                assert(r.push(t@).drop_last() =~= r);
                assert(sort_by_len_desc(r.push(t@)) == insert_by_len(sort_by_len_desc(r), t@));
            }
            let n = t.as_str().len();
            let mut j: usize = sorted.len();
            assert(sv.take(j as int) =~= sv);
            while j > 0 && sorted[j - 1].as_str().len() < n
                invariant
                    j <= sorted.len(),
                    sv == views(sorted@),
                    n == byte_len(t@),
                    insert_by_len_pos(sv, t@) == insert_by_len_pos(sv.take(j as int), t@),
                decreases j,
            {
                assert(sv.take(j as int).drop_last() =~= sv.take(j - 1));
                assert(sv.take(j as int).last() == sv[j - 1]);
                assert(sorted@[j - 1]@ == sv[j - 1]);
                j = j - 1;
            }
            proof {
                if j > 0 {
                    assert(sv.take(j as int).last() == sv[j - 1]);
                    assert(sorted@[j - 1]@ == sv[j - 1]);
                }
                assert(insert_by_len_pos(sv.take(j as int), t@) == j);
            }
            sorted.insert(j, t);
            assert(views(sorted@) =~= sv.insert(j as int, t@));
        }
        i = i + 1;
    }
    assert(pv.take(ps.len() as int) =~= pv);
    if sorted.len() > 3 {
        sorted.truncate(3);
        assert(views(sorted@) =~= sort_by_len_desc(console_candidates(pv)).take(3));
    }
    sorted
}

/// `    Message:` (dimmed), the message lines indented by six spaces, and a
/// blank line; nothing when there is no message.
pub open spec fn section_spec(label: Seq<char>, body: Seq<Seq<char>>) -> Seq<Seq<char>> {
    if body.len() == 0 {
        Seq::empty()
    } else {
        seq![crate::format::vitest::footer::dim_spec(label)] + body.map_values(|l: Seq<char>| "      "@ + l)
            + seq![Seq::<char>::empty()]
    }
}

pub(crate) fn push_section(out: &mut Vec<String>, label: &str, body: &Vec<String>)
    ensures
        views(final(out)@) == views(old(out)@) + section_spec(label@, views(body@)),
{
    if body.len() == 0 {
        assert(views(out@) + Seq::<Seq<char>>::empty() =~= views(out@));
        return;
    }
    let ghost start = views(out@);
    out.push(dim(label));
    let ghost bv = views(body@);
    let ghost ind = bv.map_values(|l: Seq<char>| "      "@ + l);
    let mut i: usize = 0;
    assert(views(out@) =~= start + seq![crate::format::vitest::footer::dim_spec(label@)] + ind.take(0));
    while i < body.len()
        invariant
            i <= body.len(),
            bv == views(body@),
            ind == bv.map_values(|l: Seq<char>| "      "@ + l),
            views(out@) == start + seq![crate::format::vitest::footer::dim_spec(label@)] + ind.take(i as int),
        decreases body.len() - i,
    {
        let ghost before = views(out@);
        out.push(concat2("      ", body[i].as_str()));
        assert(views(out@) =~= before.push(ind[i as int]));
        assert(ind.take(i + 1) =~= ind.take(i as int).push(ind[i as int]));
        i = i + 1;
    }
    assert(ind.take(body.len() as int) =~= ind);
    let ghost before = views(out@);
    out.push(String::new());
    assert(views(out@) =~= before.push(Seq::<char>::empty()));
}

/// Adds the message section of a failure block.
pub fn push_failure_message_section(out: &mut Vec<String>, lines: &Vec<String>)
    ensures
        views(final(out)@) == views(old(out)@) + section_spec("    Message:"@, minimal_message_spec(views(lines@))),
{
    let minimal = minimal_message_lines(lines);
    push_section(out, "    Message:", &minimal);
}

/// Adds the console errors section of a failure block.
pub fn push_console_errors_section(out: &mut Vec<String>, lines: &Vec<String>)
    ensures
        views(final(out)@) == views(old(out)@) + section_spec("    Console errors:"@, console_inline_spec(views(lines@))),
{
    let inline = extract_console_inline(lines);
    push_section(out, "    Console errors:", &inline);
}

/// The stack frames of a failure worth showing: the lines, ANSI styling
/// removed, that are stack frames and match the project's pattern; the
/// first six of them.
pub open spec fn project_stack_lines(collapsed: Seq<Seq<char>>, project_hint: Seq<char>) -> Seq<Seq<char>> {
    let kept = project_frames(collapsed, project_hint);
    if kept.len() <= 6 {
        kept
    } else {
        kept.take(6)
    }
}

/// The lines, ANSI styling removed, that are stack frames in the project.
pub open spec fn project_frames(collapsed: Seq<Seq<char>>, project_hint: Seq<char>) -> Seq<Seq<char>>
    decreases collapsed.len(),
{
    if collapsed.len() == 0 {
        Seq::empty()
    } else {
        let ln = ansi_stripped(collapsed.last());
        let r = project_frames(collapsed.drop_last(), project_hint);
        if is_stack_line_spec(ln) && regex_is_match_of(project_hint, ln) {
            r.push(ln)
        } else {
            r
        }
    }
}

proof fn lemma_project_frames_take(collapsed: Seq<Seq<char>>, project_hint: Seq<char>, i: int)
    requires
        0 <= i < collapsed.len(),
    ensures
        project_frames(collapsed.take(i + 1), project_hint) == {
            let ln = ansi_stripped(collapsed[i]);
            let r = project_frames(collapsed.take(i), project_hint);
            if is_stack_line_spec(ln) && regex_is_match_of(project_hint, ln) {
                r.push(ln)
            } else {
                r
            }
        },
{
    assert(collapsed.take(i + 1).drop_last() =~= collapsed.take(i));
}

proof fn lemma_project_frames_grow(collapsed: Seq<Seq<char>>, project_hint: Seq<char>, i: int, j: int)
    requires
        0 <= i <= j <= collapsed.len(),
    ensures
        project_frames(collapsed.take(i), project_hint).len() <= project_frames(collapsed.take(j), project_hint).len(),
        project_frames(collapsed.take(i), project_hint) == project_frames(collapsed.take(j), project_hint).take(
            project_frames(collapsed.take(i), project_hint).len() as int,
        ),
    decreases j - i,
{
    if i < j {
        lemma_project_frames_grow(collapsed, project_hint, i, j - 1);
        lemma_project_frames_take(collapsed, project_hint, j - 1);
    }
}

/// The stack section of a failure block: nothing unless stacks are shown;
/// else the project's stack frames (see [`project_stack_lines`]) under the
/// label `Stack:`.
pub fn push_stack_section(out: &mut Vec<String>, show_stacks: bool, project_hint: &str, collapsed: &Vec<String>)
    ensures
        !show_stacks ==> final(out)@ == old(out)@,
        show_stacks ==> views(final(out)@) == views(old(out)@) + section_spec(
            "    Stack:"@,
            project_stack_lines(views(collapsed@), project_hint@),
        ),
{
    if !show_stacks {
        return;
    }
    let ghost cv = views(collapsed@);
    let mut kept: Vec<String> = Vec::new();
    let mut i: usize = 0;
    while i < collapsed.len() && kept.len() < 6
        invariant
            i <= collapsed.len(),
            cv == views(collapsed@),
            kept.len() <= 6,
            views(kept@) == project_frames(cv.take(i as int), project_hint@),
        decreases collapsed.len() - i,
    {
        proof {
            lemma_project_frames_take(cv, project_hint@, i as int);
        }
        let ln = strip_ansi_simple(collapsed[i].as_str());
        if is_stack_line(ln.as_str()) && regex_is_match(project_hint, ln.as_str()) {
            let ghost before = views(kept@);
            let ghost lv = ln@;
            kept.push(ln);
            assert(views(kept@) =~= before.push(lv));
        }
        i = i + 1;
    }
    proof {
        lemma_project_frames_grow(cv, project_hint@, i as int, cv.len() as int);
        assert(cv.take(cv.len() as int) =~= cv);
        let all = project_frames(cv, project_hint@);
        if i < cv.len() {
            assert(kept.len() == 6);
            assert(all.take(6) =~= views(kept@));
        } else {
            assert(views(kept@) =~= all);
        }
    }
    push_section(out, "    Stack:", &kept);
}

/// The path of the bridge results file that the output names last,
/// trimmed and unquoted; a relative one is taken from `cwd` (slashes
/// forward).
pub open spec fn bridge_path_spec(raw: Seq<char>, cwd: Seq<char>) -> Option<Seq<char>> {
    match regex_last_capture1_of(BRIDGE_PATH_PATTERN@, raw) {
        None => None,
        Some(m) => {
            let p = trim_quotes(trim(m));
            if starts_with(p, seq!['/']) {
                Some(p)
            } else {
                Some(slashes(cwd) + seq!['/'] + p)
            }
        },
    }
}

/// Where the bridge reporter wrote its results (see [`bridge_path_spec`]).
pub fn extract_bridge_path(raw: &str, cwd: &str) -> (res: Option<String>)
    ensures
        crate::test_model::opt_seq(res) == bridge_path_spec(raw@, cwd@),
{
    let m = last_capture1(BRIDGE_PATH_PATTERN, raw);
    match m {
        None => None,
        Some(m) => {
            let p = trim_quotes_str(trim_str(m.as_str()).as_str());
            proof {
                reveal_strlit("/");
                assert("/"@ =~= seq!['/']);
            }
            if starts_with_str(p.as_str(), "/") {
                Some(p)
            } else {
                let mut out = slashes_str(cwd);
                crate::text::push_str(&mut out, "/");
                crate::text::push_str(&mut out, p.as_str());
                Some(out)
            }
        },
    }
}


/// The plain texts seen are those of the lines kept, each once.
pub open spec fn unique_state_ok(st: (Seq<Seq<char>>, Seq<Seq<char>>)) -> bool {
    &&& st.1 == plains(st.0)
    &&& forall|i: int, j: int| 0 <= i < j < st.0.len() ==> plain(#[trigger] st.0[i]) != plain(#[trigger] st.0[j])
}

proof fn lemma_unique_fold(st: (Seq<Seq<char>>, Seq<Seq<char>>), ls: Seq<Seq<char>>)
    requires
        unique_state_ok(st),
    ensures
        unique_state_ok(unique_fold(st, ls)),
        forall|k: int| 0 <= k < ls.len() ==> unique_fold(st, ls).1.contains(plain(#[trigger] ls[k])),
        forall|k: int| 0 <= k < st.1.len() ==> unique_fold(st, ls).1.contains(#[trigger] st.1[k]),
    decreases ls.len(),
{
    if ls.len() > 0 {
        lemma_unique_fold(st, ls.drop_last());
        let p = unique_fold(st, ls.drop_last());
        let x = ls.last();
        let key = plain(x);
        if !p.1.contains(key) {
            let q = (p.0.push(x), p.1.push(key));
            assert(q.1 =~= plains(q.0));
            assert forall|i: int, j: int| 0 <= i < j < q.0.len() implies plain(#[trigger] q.0[i]) != plain(
                #[trigger] q.0[j],
            ) by {
                if j == q.0.len() - 1 {
                    assert(q.0[i] == p.0[i]);
                    assert(p.1[i] == plain(p.0[i]));
                } else {
                    assert(q.0[i] == p.0[i] && q.0[j] == p.0[j]);
                }
            }
            assert forall|k: int| 0 <= k < ls.len() implies q.1.contains(plain(#[trigger] ls[k])) by {
                if k < ls.len() - 1 {
                    assert(ls.drop_last()[k] == ls[k]);
                    let m = choose|m: int| 0 <= m < p.1.len() && p.1[m] == plain(ls[k]);
                    assert(q.1[m] == p.1[m]);
                } else {
                    assert(q.1[q.1.len() - 1] == key);
                }
            }
            assert forall|k: int| 0 <= k < st.1.len() implies q.1.contains(#[trigger] st.1[k]) by {
                let m = choose|m: int| 0 <= m < p.1.len() && p.1[m] == st.1[k];
                assert(q.1[m] == p.1[m]);
            }
        } else {
            assert forall|k: int| 0 <= k < ls.len() implies p.1.contains(plain(#[trigger] ls[k])) by {
                if k < ls.len() - 1 {
                    assert(ls.drop_last()[k] == ls[k]);
                }
            }
        }
    }
}

/// Keeping lines whose plain text was not seen shows no plain text twice,
/// and shows every line's plain text once.
pub proof fn law_unique_lines(ls: Seq<Seq<char>>)
    ensures
        forall|i: int, j: int|
            0 <= i < j < unique_fold((Seq::empty(), Seq::empty()), ls).0.len() ==> plain(
                #[trigger] unique_fold((Seq::empty(), Seq::empty()), ls).0[i],
            ) != plain(#[trigger] unique_fold((Seq::empty(), Seq::empty()), ls).0[j]),
        forall|k: int|
            0 <= k < ls.len() ==> plains(unique_fold((Seq::empty(), Seq::empty()), ls).0).contains(
                plain(#[trigger] ls[k]),
            ),
{
    let st0: (Seq<Seq<char>>, Seq<Seq<char>>) = (Seq::empty(), Seq::empty());
    assert(st0.1 =~= plains(st0.0));
    lemma_unique_fold(st0, ls);
}


pub open spec fn longest_first(s: Seq<Seq<char>>) -> bool {
    forall|i: int, j: int| 0 <= i < j < s.len() ==> byte_len(#[trigger] s[i]) >= byte_len(#[trigger] s[j])
}

proof fn lemma_insert_by_len_pos(s: Seq<Seq<char>>, x: Seq<char>)
    ensures
        forall|i: int| insert_by_len_pos(s, x) <= i < s.len() ==> byte_len(#[trigger] s[i]) < byte_len(x),
        insert_by_len_pos(s, x) > 0 ==> byte_len(s[insert_by_len_pos(s, x) - 1]) >= byte_len(x),
    decreases s.len(),
{
    lemma_insert_by_len(s, x);
    if s.len() > 0 && byte_len(s.last()) < byte_len(x) {
        lemma_insert_by_len_pos(s.drop_last(), x);
        lemma_insert_by_len(s.drop_last(), x);
        let p = insert_by_len_pos(s.drop_last(), x);
        assert forall|i: int| p <= i < s.len() implies byte_len(#[trigger] s[i]) < byte_len(x) by {
            if i < s.len() - 1 {
                assert(s[i] == s.drop_last()[i]);
            }
        }
        if p > 0 {
            assert(s[p - 1] == s.drop_last()[p - 1]);
        }
    }
}

proof fn lemma_sort_by_len_desc(s: Seq<Seq<char>>)
    ensures
        longest_first(sort_by_len_desc(s)),
        sort_by_len_desc(s).len() == s.len(),
    decreases s.len(),
{
    if s.len() > 0 {
        lemma_sort_by_len_desc(s.drop_last());
        let r = sort_by_len_desc(s.drop_last());
        let x = s.last();
        lemma_insert_by_len(r, x);
        lemma_insert_by_len_pos(r, x);
        let p = insert_by_len_pos(r, x);
        let t = r.insert(p, x);
        assert forall|i: int, j: int| 0 <= i < j < t.len() implies byte_len(#[trigger] t[i]) >= byte_len(
            #[trigger] t[j],
        ) by {
            if j < p {
                assert(t[i] == r[i] && t[j] == r[j]);
            } else if j == p {
                assert(t[i] == r[i] && t[j] == x);
                assert(byte_len(r[i]) >= byte_len(r[p - 1]));
            } else if i < p {
                assert(t[i] == r[i] && t[j] == r[j - 1]);
            } else if i == p {
                assert(t[i] == x && t[j] == r[j - 1]);
            } else {
                assert(t[i] == r[i - 1] && t[j] == r[j - 1]);
            }
        }
    } else {
        assert(sort_by_len_desc(s) =~= Seq::<Seq<char>>::empty());
    }
}

/// The console errors of a failure block are at most three, longest
/// first.
pub proof fn law_console_inline(lines: Seq<Seq<char>>)
    ensures
        console_inline_spec(lines).len() <= 3,
        forall|i: int, j: int|
            0 <= i < j < console_inline_spec(lines).len() ==> byte_len(#[trigger] console_inline_spec(lines)[i])
                >= byte_len(#[trigger] console_inline_spec(lines)[j]),
{
    let c = sort_by_len_desc(console_candidates(plains(lines)));
    lemma_sort_by_len_desc(console_candidates(plains(lines)));
    if c.len() > 3 {
        assert forall|i: int, j: int| 0 <= i < j < c.take(3).len() implies byte_len(#[trigger] c.take(3)[i])
            >= byte_len(#[trigger] c.take(3)[j]) by {
            assert(c.take(3)[i] == c[i] && c.take(3)[j] == c[j]);
        }
    }
}


/// The file of a failure block, relative to the working directory: the
/// file part of the first project location its lines name; empty when
/// they name none.
pub open spec fn rel_file_for_failure_spec(lines: Seq<Seq<char>>, project_hint: Seq<char>, cwd: Seq<char>) -> Seq<
    char,
> {
    match crate::format::stacks::first_test_location_spec(lines, project_hint) {
        Some(loc) => rel_path_spec(split_char(loc, ':')[0], cwd),
        None => Seq::empty(),
    }
}

pub fn rel_file_for_failure(lines: &[String], project_hint: &str, cwd: &str) -> (res: String)
    ensures
        res@ == rel_file_for_failure_spec(views(lines@), project_hint@, cwd@),
{
    match crate::format::stacks::first_test_location(lines, project_hint) {
        Some(loc) => {
            let parts = split_char_str(loc.as_str(), ':');
            proof {
                crate::text::lemma_split_char_nonempty(loc@, ':');
            }
            rel_path(parts[0].as_str(), cwd)
        },
        None => String::new(),
    }
}

} // verus!
