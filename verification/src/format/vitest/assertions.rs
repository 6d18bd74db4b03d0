//! The sections of the report that show one failed assertion: its message,
//! the expected and received values, and the assertion's own lines.
use crate::fast_related::{dedup_first, dedup_first_strings};
use crate::format::ansi::{bold, styled, white, yellow};
use crate::format::colors::{color_hex_spec, failure, success};
use crate::format::pattern::{regex_is_match, regex_is_match_of};
use crate::format::stacks::{ansi_stripped, is_stack_line, is_stack_line_spec, strip_ansi_simple};
use crate::format::vitest::console::{expected_received_spec, extract_expected_received_values};
use crate::test_model::{opt_seq, TestCaseResult, TestSuiteResult};
use crate::text::{
    concat2, concat3, contains, dec_int, i64_to_dec, push_char, push_str, contains_str, ends_with, ends_with_str, is_blank, join, join_strs, lines,
    lines_of, owned, split_once, split_once_str, starts_with, starts_with_str, str_eq, strip_prefix,
    strip_prefix_str, trim, trim_end, trim_end_str, trim_start, trim_start_str, trim_str, views,
};
use crate::format::raw_jest::{plain_lines, plains};
use crate::format::paths::{href_spec, preferred_editor_href, prefer_vscode_spec, EditorEnv};
use crate::format::stacks::{collapse_from, collapse_stacks};
use crate::path_names::{path_file_name, path_file_name_of, to_slash_of};
use vstd::prelude::*;

verus! {

/// A line of a code frame (`  12 |` or `> 12 |`).
pub const CODE_FRAME_LINE_PATTERN: &'static str = "^\\s*(>?\\s*\\d+\\s*\\|)";

pub open spec fn bold_of(t: Seq<char>) -> Seq<char> {
    styled("\u{1b}[1m"@, t, "\u{1b}[22m"@)
}

pub open spec fn yellow_of(t: Seq<char>) -> Seq<char> {
    styled("\u{1b}[33m"@, t, "\u{1b}[39m"@)
}

pub open spec fn white_of(t: Seq<char>) -> Seq<char> {
    styled("\u{1b}[97m"@, t, "\u{1b}[39m"@)
}

pub open spec fn success_of(t: Seq<char>, use_color: bool) -> Seq<char> {
    color_hex_spec(use_color, true, "#22c55e"@, t)
}

pub open spec fn failure_of(t: Seq<char>, use_color: bool) -> Seq<char> {
    color_hex_spec(use_color, true, "#ff2323"@, t)
}

/// The failure text of an assertion: its messages, one per line, or the
/// file's failure message when it has none.
pub open spec fn primary_block_spec(file_failure_message: Seq<char>, messages: Seq<Seq<char>>) -> Seq<char> {
    if messages.len() > 0 {
        join(messages, "\n"@)
    } else {
        file_failure_message
    }
}

pub fn primary_block_for_failed_assertion(file: &TestSuiteResult, assertion: &TestCaseResult) -> (res: String)
    ensures
        res@ == primary_block_spec(file@.failure_message, assertion@.failure_messages),
{
    if assertion.failure_messages.len() > 0 {
        join_strs(&assertion.failure_messages, "\n")
    } else {
        owned(file.failure_message.as_str())
    }
}

/// `×` in the failure colour, then the text in white.
pub open spec fn failure_bullet_spec(text: Seq<char>, use_color: bool) -> Seq<char> {
    failure_of("\u{d7}"@, use_color) + " "@ + white_of(text)
}

pub fn failure_bullet(text: &str, use_color: bool) -> (res: String)
    ensures
        res@ == failure_bullet_spec(text@, use_color),
{
    let mut out = failure("\u{d7}", use_color);
    crate::text::push_str(&mut out, " ");
    crate::text::push_str(&mut out, white(text).as_str());
    out
}

/// A message line that starts an expectation (and is not about a rejected
/// promise).
pub open spec fn is_expect_line(line: Seq<char>) -> bool {
    let t = trim_start(ansi_stripped(line));
    starts_with(t, "expect("@) && !starts_with(t, "expect(received).rejects"@)
}

/// The first expectation line, if any.
pub open spec fn find_expect_spec(ms: Seq<Seq<char>>, i: int) -> Option<Seq<char>>
    decreases ms.len() - i,
{
    if i < 0 || i >= ms.len() {
        None
    } else if is_expect_line(ms[i]) {
        Some(ms[i])
    } else {
        find_expect_spec(ms, i + 1)
    }
}

/// The first expectation line of the messages (see [`find_expect_spec`]).
pub fn find_expect_line(messages: &[String]) -> (res: Option<String>)
    ensures
        opt_seq(res) == find_expect_spec(views(messages@), 0),
{
    let ghost mv = views(messages@);
    let mut i: usize = 0;
    while i < messages.len()
        invariant
            i <= messages.len(),
            mv == views(messages@),
            find_expect_spec(mv, 0) == find_expect_spec(mv, i as int),
        decreases messages.len() - i,
    {
        let t = trim_start_str(strip_ansi_simple(messages[i].as_str()).as_str());
        assert(mv[i as int] == messages@[i as int]@);
        if starts_with_str(t.as_str(), "expect(") && !starts_with_str(t.as_str(), "expect(received).rejects") {
            return Some(owned(messages[i].as_str()));
        }
        i = i + 1;
    }
    None
}

pub open spec fn indent_each(prefix: Seq<char>, ls: Seq<Seq<char>>, f: spec_fn(Seq<char>) -> Seq<char>) -> Seq<
    Seq<char>,
> {
    ls.map_values(|l: Seq<char>| prefix + f(l))
}

/// `Expected` (bold), each expected line in the success colour, `Received`
/// (bold), each received line in the failure colour, and a blank line.
pub open spec fn pretty_expected_received_spec(expected: Seq<char>, received: Seq<char>, use_color: bool) -> Seq<
    Seq<char>,
> {
    seq!["    "@ + bold_of("Expected"@)] + lines(expected).map_values(
        |l: Seq<char>| "      "@ + success_of(l, use_color),
    ) + seq!["    "@ + bold_of("Received"@)] + lines(received).map_values(
        |l: Seq<char>| "      "@ + failure_of(l, use_color),
    ) + seq![Seq::<char>::empty()]
}

fn push_colored_lines(out: &mut Vec<String>, text: &str, good: bool, use_color: bool)
    ensures
        views(final(out)@) == views(old(out)@) + lines(text@).map_values(
            |l: Seq<char>|
                "      "@ + if good {
                    success_of(l, use_color)
                } else {
                    failure_of(l, use_color)
                },
        ),
{
    let ls = lines_of(text);
    let ghost lv = views(ls@);
    let ghost start = views(out@);
    let ghost mapped = lv.map_values(
        |l: Seq<char>|
            "      "@ + if good {
                success_of(l, use_color)
            } else {
                failure_of(l, use_color)
            },
    );
    let mut i: usize = 0;
    assert(start + mapped.take(0) =~= start);
    while i < ls.len()
        invariant
            i <= ls.len(),
            lv == views(ls@),
            mapped == lv.map_values(
                |l: Seq<char>|
                    "      "@ + if good {
                        success_of(l, use_color)
                    } else {
                        failure_of(l, use_color)
                    },
            ),
            views(out@) == start + mapped.take(i as int),
        decreases ls.len() - i,
    {
        let colored = if good {
            success(ls[i].as_str(), use_color)
        } else {
            failure(ls[i].as_str(), use_color)
        };
        let ghost before = views(out@);
        out.push(concat2("      ", colored.as_str()));
        assert(views(out@) =~= before.push(mapped[i as int]));
        assert(mapped.take(i + 1) =~= mapped.take(i as int).push(mapped[i as int]));
        i = i + 1;
    }
    assert(mapped.take(ls.len() as int) =~= mapped);
}

/// The expected and received values shown in full (see
/// [`pretty_expected_received_spec`]).
pub fn render_pretty_expected_received(expected: &str, received: &str, use_color: bool) -> (res: Vec<String>)
    ensures
        views(res@) == pretty_expected_received_spec(expected@, received@, use_color),
{
    let mut out: Vec<String> = Vec::new();
    let ghost e = lines(expected@).map_values(|l: Seq<char>| "      "@ + success_of(l, use_color));
    let ghost r = lines(received@).map_values(|l: Seq<char>| "      "@ + failure_of(l, use_color));
    out.push(concat2("    ", bold("Expected").as_str()));
    assert(views(out@) =~= seq!["    "@ + bold_of("Expected"@)]);
    let ghost s1 = views(out@);
    push_colored_lines(&mut out, expected, true, use_color);
    assert(lines(expected@).map_values(
        |l: Seq<char>|
            "      "@ + if true {
                success_of(l, use_color)
            } else {
                failure_of(l, use_color)
            },
    ) =~= e);
    assert(views(out@) =~= s1 + e);
    let ghost s2 = views(out@);
    out.push(concat2("    ", bold("Received").as_str()));
    assert(views(out@) =~= s2.push("    "@ + bold_of("Received"@)));
    let ghost s3 = views(out@);
    push_colored_lines(&mut out, received, false, use_color);
    assert(lines(received@).map_values(
        |l: Seq<char>|
            "      "@ + if false {
                success_of(l, use_color)
            } else {
                failure_of(l, use_color)
            },
    ) =~= r);
    assert(views(out@) =~= s3 + r);
    let ghost s4 = views(out@);
    out.push(String::new());
    assert(views(out@) =~= s4.push(Seq::<char>::empty()));
    assert(views(out@) =~= pretty_expected_received_spec(expected@, received@, use_color));
    out
}

/// `Expected` with the expected value and `Received` with the received
/// value, when either is found in the messages; nothing when neither is.
pub open spec fn expected_received_sections_spec(messages: Seq<Seq<char>>, use_color: bool) -> Seq<Seq<char>> {
    let (e, r) = expected_received_spec(messages);
    if e is None && r is None {
        Seq::empty()
    } else {
        seq!["    "@ + bold_of("Expected"@)] + match e {
            Some(v) => seq!["      "@ + success_of(v, use_color)],
            None => Seq::empty(),
        } + seq!["    "@ + bold_of("Received"@)] + match r {
            Some(v) => seq!["      "@ + failure_of(v, use_color)],
            None => Seq::empty(),
        } + seq![Seq::<char>::empty()]
    }
}

pub fn render_expected_received_sections(messages: &[String], use_color: bool) -> (res: Vec<String>)
    ensures
        views(res@) == expected_received_sections_spec(views(messages@), use_color),
{
    let (expected, received) = extract_expected_received_values(messages);
    let mut out: Vec<String> = Vec::new();
    if expected.is_none() && received.is_none() {
        assert(views(out@) =~= Seq::<Seq<char>>::empty());
        return out;
    }
    out.push(concat2("    ", bold("Expected").as_str()));
    let ghost a = views(out@);
    match &expected {
        Some(v) => out.push(concat2("      ", success(v.as_str(), use_color).as_str())),
        None => {},
    }
    let ghost b = views(out@);
    out.push(concat2("    ", bold("Received").as_str()));
    match &received {
        Some(v) => out.push(concat2("      ", failure(v.as_str(), use_color).as_str())),
        None => {},
    }
    out.push(String::new());
    assert(views(out@) =~= expected_received_sections_spec(views(messages@), use_color));
    out
}

/// The text after `: ` when what comes before it names an error or an
/// exception.
pub open spec fn error_tail(t: Seq<char>) -> Option<Seq<char>> {
    match split_once(t, ": "@) {
        Some((head, rest)) => if ends_with(head, "Error"@) || ends_with(head, "Exception"@) {
            Some(trim_start(rest))
        } else {
            None
        },
        None => None,
    }
}

/// A message line cleaned for the report: a leading `E ` marker dropped;
/// Rust panic headers, backtrace notes and `stack backtrace:` emptied; an
/// `Error: `, `AssertionError: ` or `<Name>Error: ` prefix removed.
pub open spec fn normalize_message_line_spec(line: Seq<char>) -> Seq<char> {
    let t0 = trim_start(line);
    let t = match strip_prefix(t0, "E "@) {
        Some(r) => trim_start(r),
        None => t0,
    };
    if starts_with(t, "thread '"@) && contains(t, "' panicked at "@) {
        Seq::empty()
    } else if starts_with(t, "panicked at "@) {
        Seq::empty()
    } else if trim(t) == "stack backtrace:"@ {
        Seq::empty()
    } else if strip_prefix(t, "Error: "@) is Some {
        trim_start(strip_prefix(t, "Error: "@)->0)
    } else if strip_prefix(t, "AssertionError: "@) is Some {
        trim_start(strip_prefix(t, "AssertionError: "@)->0)
    } else if starts_with(t, "note: Some details are omitted"@) {
        Seq::empty()
    } else if starts_with(t, "note: run with `RUST_BACKTRACE="@) {
        Seq::empty()
    } else if error_tail(t) is Some {
        error_tail(t)->0
    } else {
        t
    }
}

/// Cleans one message line (see [`normalize_message_line_spec`]).
pub fn normalize_message_line(line: &str) -> (res: String)
    ensures
        res@ == normalize_message_line_spec(line@),
{
    let t0 = trim_start_str(line);
    let t = match strip_prefix_str(t0.as_str(), "E ") {
        Some(r) => trim_start_str(r.as_str()),
        None => t0,
    };
    let t = t.as_str();
    if starts_with_str(t, "thread '") && contains_str(t, "' panicked at ") {
        return String::new();
    }
    if starts_with_str(t, "panicked at ") {
        return String::new();
    }
    if str_eq(trim_str(t).as_str(), "stack backtrace:") {
        return String::new();
    }
    if let Some(rest) = strip_prefix_str(t, "Error: ") {
        return trim_start_str(rest.as_str());
    }
    if let Some(rest) = strip_prefix_str(t, "AssertionError: ") {
        return trim_start_str(rest.as_str());
    }
    if starts_with_str(t, "note: Some details are omitted") {
        return String::new();
    }
    if starts_with_str(t, "note: run with `RUST_BACKTRACE=") {
        return String::new();
    }
    if let Some((head, rest)) = split_once_str(t, ": ") {
        if ends_with_str(head.as_str(), "Error") || ends_with_str(head.as_str(), "Exception") {
            return trim_start_str(rest.as_str());
        }
    }
    owned(t)
}

/// A message line kept for the fallback message: not blank, no stack frame
/// and no code frame.
pub open spec fn keeps_for_message(ln: Seq<char>) -> bool {
    let t = trim_start(ln);
    !(t.len() == 0 || is_stack_line_spec(t) || regex_is_match_of(CODE_FRAME_LINE_PATTERN@, t))
}

/// The cleaned message lines, in order.
pub open spec fn fallback_candidates(ms: Seq<Seq<char>>) -> Seq<Seq<char>>
    decreases ms.len(),
{
    if ms.len() == 0 {
        Seq::empty()
    } else {
        let r = fallback_candidates(ms.drop_last());
        let ln = trim_end(ansi_stripped(ms.last()));
        if keeps_for_message(ln) && !is_blank(normalize_message_line_spec(ln)) {
            r.push(normalize_message_line_spec(ln))
        } else {
            r
        }
    }
}

pub open spec fn at_most(s: Seq<Seq<char>>, n: nat) -> Seq<Seq<char>> {
    if s.len() > n {
        s.take(n as int)
    } else {
        s
    }
}

/// The message when no expectation line is found: the first twelve cleaned
/// message lines, each shown once, at most six.
pub open spec fn fallback_message_spec(ms: Seq<Seq<char>>) -> Seq<Seq<char>> {
    at_most(dedup_first(at_most(fallback_candidates(ms), 12)), 6)
}

/// The fallback message lines (see [`fallback_message_spec`]).
pub fn fallback_message_lines(messages: &[String]) -> (res: Vec<String>)
    ensures
        views(res@) == fallback_message_spec(views(messages@)),
{
    let ghost mv = views(messages@);
    let mut raw: Vec<String> = Vec::new();
    let mut i: usize = 0;
    while i < messages.len()
        invariant
            i <= messages.len(),
            mv == views(messages@),
            views(raw@) == fallback_candidates(mv.take(i as int)),
        decreases messages.len() - i,
    {
        assert(mv.take(i + 1).drop_last() =~= mv.take(i as int));
        assert(mv.take(i + 1).last() == messages@[i as int]@);
        let ln = trim_end_str(strip_ansi_simple(messages[i].as_str()).as_str());
        let t = trim_start_str(ln.as_str());
        if !(t.as_str().is_empty() || is_stack_line(t.as_str()) || regex_is_match(
            CODE_FRAME_LINE_PATTERN,
            t.as_str(),
        )) {
            let n = normalize_message_line(ln.as_str());
            if !crate::text::is_blank_str(n.as_str()) {
                let ghost before = views(raw@);
                raw.push(n);
                assert(views(raw@) =~= before.push(normalize_message_line_spec(ln@)));
            }
        }
        i = i + 1;
    }
    assert(mv.take(messages.len() as int) =~= mv);
    if raw.len() > 12 {
        raw.truncate(12);
    }
    assert(views(raw@) =~= at_most(fallback_candidates(mv), 12));
    let mut out = dedup_first_strings(raw);
    if out.len() > 6 {
        out.truncate(6);
    }
    assert(views(out@) =~= fallback_message_spec(mv));
    out
}

/// A body line of a diff that is left out when the values are shown in
/// full.
pub open spec fn is_diff_line(ln: Seq<char>) -> bool {
    let t = trim_start(ln);
    starts_with(t, "Expected:"@) || starts_with(t, "Received:"@) || starts_with(t, "Difference:"@) || starts_with(
        t,
        "- Expected"@,
    ) || starts_with(t, "+ Received"@)
}

pub open spec fn without_diff(ls: Seq<Seq<char>>) -> Seq<Seq<char>>
    decreases ls.len(),
{
    if ls.len() == 0 {
        Seq::empty()
    } else if is_diff_line(ls.last()) {
        without_diff(ls.drop_last())
    } else {
        without_diff(ls.drop_last()).push(ls.last())
    }
}

/// The message section: `Assertion:` with the expectation line (trimmed at
/// the start) when there is one, else `Message:` with the fallback message;
/// diff lines dropped when the values are shown in full; then the stack
/// preview and a blank line. Nothing when both body and preview are empty.
pub open spec fn message_section_spec(
    messages: Seq<Seq<char>>,
    expect_line_simple: Option<Seq<char>>,
    suppress_diff: bool,
    stack_preview: Seq<Seq<char>>,
) -> Seq<Seq<char>> {
    let label = if expect_line_simple is Some {
        "Assertion:"@
    } else {
        "Message:"@
    };
    let body = match expect_line_simple {
        Some(ln) => seq![trim_start(ln)],
        None => fallback_message_spec(messages),
    };
    let shown = if suppress_diff {
        without_diff(body)
    } else {
        body
    };
    if shown.len() == 0 && stack_preview.len() == 0 {
        Seq::empty()
    } else {
        seq!["    "@ + bold_of(label)] + shown.map_values(|ln: Seq<char>| "    "@ + yellow_of(ln)) + stack_preview
            + seq![Seq::<char>::empty()]
    }
}

/// The message section (see [`message_section_spec`]).
pub fn render_message_section_like_legacy(
    messages: &[String],
    expect_line_simple: Option<&str>,
    suppress_diff: bool,
    stack_preview: &Vec<String>,
) -> (res: Vec<String>)
    ensures
        views(res@) == message_section_spec(
            views(messages@),
            match expect_line_simple {
                Some(l) => Some(l@),
                None => None,
            },
            suppress_diff,
            views(stack_preview@),
        ),
{
    let label = if expect_line_simple.is_some() {
        "Assertion:"
    } else {
        "Message:"
    };
    let body: Vec<String> = match expect_line_simple {
        Some(ln) => {
            let mut b: Vec<String> = Vec::new();
            b.push(trim_start_str(ln));
            assert(views(b@) =~= seq![trim_start(ln@)]);
            b
        },
        None => fallback_message_lines(messages),
    };
    let ghost bv = views(body@);
    let ghost spec_body = match expect_line_simple {
        Some(ln) => seq![trim_start(ln@)],
        None => fallback_message_spec(views(messages@)),
    };
    assert(bv == spec_body);
    let shown: Vec<String> = if suppress_diff {
        let mut kept: Vec<String> = Vec::new();
        let mut i: usize = 0;
        while i < body.len()
            invariant
                i <= body.len(),
                bv == views(body@),
                views(kept@) == without_diff(bv.take(i as int)),
            decreases body.len() - i,
        {
            assert(bv.take(i + 1).drop_last() =~= bv.take(i as int));
            assert(bv.take(i + 1).last() == body@[i as int]@);
            let t = trim_start_str(body[i].as_str());
            let t = t.as_str();
            if !(starts_with_str(t, "Expected:") || starts_with_str(t, "Received:") || starts_with_str(
                t,
                "Difference:",
            ) || starts_with_str(t, "- Expected") || starts_with_str(t, "+ Received")) {
                let ghost before = views(kept@);
                kept.push(owned(body[i].as_str()));
                assert(views(kept@) =~= before.push(body@[i as int]@));
            }
            i = i + 1;
        }
        assert(bv.take(body.len() as int) =~= bv);
        kept
    } else {
        body
    };
    let ghost spec_shown = if suppress_diff {
        without_diff(spec_body)
    } else {
        spec_body
    };
    assert(views(shown@) == spec_shown);
    let mut out: Vec<String> = Vec::new();
    if shown.len() == 0 && stack_preview.len() == 0 {
        assert(views(out@) =~= Seq::<Seq<char>>::empty());
        return out;
    }
    out.push(concat2("    ", bold(label).as_str()));
    proof {
        reveal_strlit("Assertion:");
        reveal_strlit("Message:");
    }
    assert(views(out@) =~= seq![
        "    "@ + bold_of(
            if expect_line_simple is Some {
                "Assertion:"@
            } else {
                "Message:"@
            },
        ),
    ]);
    let ghost sv = views(shown@);
    let ghost mapped = sv.map_values(|ln: Seq<char>| "    "@ + yellow_of(ln));
    let ghost head = views(out@);
    let mut i: usize = 0;
    assert(head + mapped.take(0) =~= head);
    while i < shown.len()
        invariant
            i <= shown.len(),
            sv == views(shown@),
            mapped == sv.map_values(|ln: Seq<char>| "    "@ + yellow_of(ln)),
            views(out@) == head + mapped.take(i as int),
        decreases shown.len() - i,
    {
        let ghost before = views(out@);
        out.push(concat2("    ", yellow(shown[i].as_str()).as_str()));
        assert(views(out@) =~= before.push(mapped[i as int]));
        assert(mapped.take(i + 1) =~= mapped.take(i as int).push(mapped[i as int]));
        i = i + 1;
    }
    assert(mapped.take(shown.len() as int) =~= mapped);
    let ghost mid = views(out@);
    let mut j: usize = 0;
    while j < stack_preview.len()
        invariant
            j <= stack_preview.len(),
            views(out@) == mid + views(stack_preview@).take(j as int),
        decreases stack_preview.len() - j,
    {
        let ghost before = views(out@);
        out.push(owned(stack_preview[j].as_str()));
        assert(views(out@) =~= before.push(stack_preview@[j as int]@));
        assert(views(stack_preview@).take(j + 1) =~= views(stack_preview@).take(j as int).push(
            stack_preview@[j as int]@,
        ));
        j = j + 1;
    }
    assert(views(stack_preview@).take(stack_preview.len() as int) =~= views(stack_preview@));
    assert(views(out@) == head + mapped + views(stack_preview@));
    let ghost pre = views(out@);
    out.push(String::new());
    assert(views(out@) =~= pre.push(Seq::<char>::empty()));
    assert(views(out@) =~= message_section_spec(
        views(messages@),
        match expect_line_simple {
            Some(l) => Some(l@),
            None => None,
        },
        suppress_diff,
        views(stack_preview@),
    ));
    out
}


/// The first line, from `i` on, that starts an expectation, or the number
/// of lines.
pub open spec fn assertion_start(ps: Seq<Seq<char>>, i: int) -> int
    decreases ps.len() - i,
{
    if i < 0 || i >= ps.len() {
        ps.len() as int
    } else if starts_with(trim_start(ps[i]), "expect("@) {
        i
    } else {
        assertion_start(ps, i + 1)
    }
}

/// A line of the assertion that is not shown: blank, or part of a code
/// frame.
pub open spec fn hidden_assertion_line(ln: Seq<char>) -> bool {
    let t = trim(ansi_stripped(ln));
    t.len() == 0 || regex_is_match_of(CODE_FRAME_LINE_PATTERN@, t) || (starts_with(t, "|"@) && contains(t, "^"@))
}

/// The assertion's lines from `i` up to the first stack frame (`at ...`),
/// each shown indented in yellow, hidden ones left out.
pub open spec fn assertion_lines(ps: Seq<Seq<char>>, i: int) -> Seq<Seq<char>>
    decreases ps.len() - i,
{
    if i < 0 || i >= ps.len() || starts_with(trim_start(ps[i]), "at "@) {
        Seq::empty()
    } else if hidden_assertion_line(ps[i]) {
        assertion_lines(ps, i + 1)
    } else {
        seq!["    "@ + yellow_of("    "@ + ps[i])] + assertion_lines(ps, i + 1)
    }
}

/// The assertion block: nothing when no message line starts an
/// expectation; else `Assertion:` (bold), the assertion's lines, the
/// expected value, the received value (shown twice), and a blank line.
pub open spec fn assertion_block_spec(messages: Seq<Seq<char>>) -> Seq<Seq<char>> {
    let ps = plains(messages);
    let st = assertion_start(ps, 0);
    if st >= ps.len() {
        Seq::empty()
    } else {
        let (e, r) = expected_received_spec(messages);
        seq!["    "@ + bold_of("Assertion:"@)] + assertion_lines(ps, st) + match e {
            Some(v) => seq!["    "@ + yellow_of("    Expected: "@ + v)],
            None => Seq::empty(),
        } + match r {
            Some(v) => seq!["    "@ + yellow_of("    Received: "@ + v), "    "@ + yellow_of("    Received: "@ + v)],
            None => Seq::empty(),
        } + seq![Seq::<char>::empty()]
    }
}

/// The assertion block (see [`assertion_block_spec`]).
pub fn render_assertion_block(messages: &Vec<String>) -> (res: Vec<String>)
    ensures
        views(res@) == assertion_block_spec(views(messages@)),
{
    let stripped = plain_lines(messages);
    let ghost ps = views(stripped@);
    let mut start: usize = 0;
    while start < stripped.len()
        invariant
            start <= stripped.len(),
            ps == views(stripped@),
            assertion_start(ps, 0) == assertion_start(ps, start as int),
        ensures
            start <= stripped.len(),
            assertion_start(ps, 0) == start,
        decreases stripped.len() - start,
    {
        assert(ps[start as int] == stripped@[start as int]@);
        if starts_with_str(trim_start_str(stripped[start].as_str()).as_str(), "expect(") {
            break;
        }
        start = start + 1;
    }
    let mut out: Vec<String> = Vec::new();
    if start >= stripped.len() {
        assert(views(out@) =~= Seq::<Seq<char>>::empty());
        return out;
    }
    out.push(concat2("    ", bold("Assertion:").as_str()));
    let (expected, received) = extract_expected_received_values(messages.as_slice());
    let ghost head = views(out@);
    assert(head =~= seq!["    "@ + bold_of("Assertion:"@)]);
    let mut i: usize = start;
    assert(head + assertion_lines(ps, start as int) =~= views(out@) + assertion_lines(ps, i as int));
    while i < stripped.len()
        invariant
            start <= i <= stripped.len(),
            ps == views(stripped@),
            head + assertion_lines(ps, start as int) == views(out@) + assertion_lines(ps, i as int),
        ensures
            head + assertion_lines(ps, start as int) == views(out@),
        decreases stripped.len() - i,
    {
        let line = stripped[i].as_str();
        assert(ps[i as int] == line@);
        if starts_with_str(trim_start_str(line).as_str(), "at ") {
            assert(assertion_lines(ps, i as int) =~= Seq::<Seq<char>>::empty());
            assert(views(out@) + Seq::<Seq<char>>::empty() =~= views(out@));
            break;
        }
        let t = trim_str(strip_ansi_simple(line).as_str());
        let t = t.as_str();
        proof {
            reveal_strlit("|");
            reveal_strlit("^");
        }
        let hidden = t.is_empty() || regex_is_match(CODE_FRAME_LINE_PATTERN, t) || (starts_with_str(t, "|")
            && contains_str(t, "^"));
        if !hidden {
            let ghost before = views(out@);
            out.push(concat2("    ", yellow(concat2("    ", line).as_str()).as_str()));
            assert(views(out@) + assertion_lines(ps, i + 1) =~= before + assertion_lines(ps, i as int));
        }
        i = i + 1;
    }
    proof {
        if i >= stripped.len() {
            assert(assertion_lines(ps, i as int) =~= Seq::<Seq<char>>::empty());
        }
    }
    let ghost mid = views(out@);
    assert(mid == head + assertion_lines(ps, start as int));
    let ghost er = expected_received_spec(views(messages@));
    assert(er == (opt_seq(expected), opt_seq(received)));
    match &expected {
        Some(v) => out.push(concat2("    ", yellow(concat2("    Expected: ", v.as_str()).as_str()).as_str())),
        None => {},
    }
    let ghost mid2 = views(out@);
    assert(mid2 =~= mid + match er.0 {
        Some(v) => seq!["    "@ + yellow_of("    Expected: "@ + v)],
        None => Seq::empty(),
    });
    match &received {
        Some(v) => {
            out.push(concat2("    ", yellow(concat2("    Received: ", v.as_str()).as_str()).as_str()));
            out.push(concat2("    ", yellow(concat2("    Received: ", v.as_str()).as_str()).as_str()));
        },
        None => {},
    }
    let ghost mid3 = views(out@);
    assert(mid3 =~= mid2 + match er.1 {
        Some(v) => seq!["    "@ + yellow_of("    Received: "@ + v), "    "@ + yellow_of("    Received: "@ + v)],
        None => Seq::empty(),
    });
    out.push(String::new());
    assert(views(out@) =~= mid3.push(Seq::<char>::empty()));
    assert(ps == plains(views(messages@)));
    assert(views(out@) =~= assertion_block_spec(views(messages@)));
    out
}


/// The lines a failed assertion's stack is read from: its messages, then
/// its stack lines, with runs of noisy frames folded.
pub fn merged_for_stack_for_failed_assertion(messages: &Vec<String>, stacks: &Vec<String>) -> (res: Vec<String>)
    requires
        messages.len() + stacks.len() < u64::MAX,
    ensures
        views(res@) == collapse_from(views(messages@) + views(stacks@), 0),
{
    let mut all: Vec<String> = Vec::new();
    let mut i: usize = 0;
    while i < messages.len()
        invariant
            i <= messages.len(),
            views(all@) == views(messages@).take(i as int),
        decreases messages.len() - i,
    {
        let ghost before = views(all@);
        all.push(owned(messages[i].as_str()));
        assert(views(all@) =~= before.push(messages@[i as int]@));
        assert(views(messages@).take(i + 1) =~= views(messages@).take(i as int).push(messages@[i as int]@));
        i = i + 1;
    }
    assert(views(messages@).take(messages.len() as int) =~= views(messages@));
    let mut j: usize = 0;
    while j < stacks.len()
        invariant
            j <= stacks.len(),
            views(all@) == views(messages@) + views(stacks@).take(j as int),
        decreases stacks.len() - j,
    {
        let ghost before = views(all@);
        all.push(owned(stacks[j].as_str()));
        assert(views(all@) =~= before.push(stacks@[j as int]@));
        assert(views(stacks@).take(j + 1) =~= views(stacks@).take(j as int).push(stacks@[j as int]@));
        j = j + 1;
    }
    assert(views(stacks@).take(stacks.len() as int) =~= views(stacks@));
    collapse_stacks(&all)
}

/// The visible text of the link to a location: the file's name (empty
/// without one), a colon and the line.
pub open spec fn loc_link_text(file: Seq<char>, line: i64) -> Seq<char> {
    let name = match path_file_name_of(file) {
        Some(n) => n,
        None => Seq::empty(),
    };
    name + seq![':'] + dec_int(line as int)
}

/// The terminal hyperlink to the deepest project location of a failure:
/// its file's name and line, opening the file at that line in the preferred
/// editor (the path made canonical on the disk when it can be); `None`
/// without a location.
pub fn editor_loc_link(deepest: Option<(String, i64, i64)>, hint: Option<&str>, env: &EditorEnv) -> (res: Option<
    String,
>)
    ensures
        deepest is None <==> res is None,
        deepest matches Some(d) ==> res matches Some(r) && exists|canonical: Seq<char>|
            r@ == crate::format::ansi::osc8_spec(
                loc_link_text(d.0@, d.1),
                href_spec(
                    #[trigger] to_slash_of(canonical),
                    Some(d.1),
                    prefer_vscode_spec(
                        match hint {
                            Some(h) => Some(h@),
                            None => None,
                        },
                        *env,
                    ),
                ),
            ),
{
    match deepest {
        None => None,
        Some((file, line, _)) => {
            let href = preferred_editor_href(file.as_str(), Some(line), hint, env);
            let mut base = match path_file_name(file.as_str()) {
                Some(n) => n,
                None => String::new(),
            };
            push_char(&mut base, ':');
            push_str(&mut base, i64_to_dec(line).as_str());
            assert(base@ =~= loc_link_text(file@, line));
            let link = crate::format::ansi::osc8(base.as_str(), href.as_str());
            Some(link)
        },
    }
}

} // verus!
