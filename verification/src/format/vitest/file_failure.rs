//! The failure of a whole test file (one that failed outside its tests).
use crate::format::ansi::dim;
use crate::format::console::{build_console_section, console_section_spec, ConsoleEntry};
use crate::format::details::{lines_from_details, lines_from_details_spec, merge_msg_lines, merge_msg_lines_spec};
use crate::format::raw_jest::{push_section, section_spec};
use crate::test_model::{JsonValue, TestSuiteResult};
use crate::text::{concat2, is_blank, is_blank_str, views};
use vstd::prelude::*;

verus! {

pub open spec fn at_most6(s: Seq<Seq<char>>) -> Seq<Seq<char>> {
    if s.len() > 6 {
        s.take(6)
    } else {
        s
    }
}

/// Nothing when the file has no failure message and no execution error;
/// else, when stacks are shown, the message lines (the failure message
/// merged with the details' messages) and at most six stack lines, each as
/// a dimmed section; then the console section.
pub open spec fn file_level_failure_spec(
    failure_message: Seq<char>,
    has_exec_error: bool,
    details: Option<Seq<JsonValue>>,
    show_stacks: bool,
    console: Seq<ConsoleEntry>,
    show_logs: bool,
) -> Seq<Seq<char>> {
    if is_blank(failure_message) && !has_exec_error {
        Seq::empty()
    } else {
        let acc = lines_from_details_spec(details);
        let msg_lines = merge_msg_lines_spec(failure_message, acc.1);
        let shown = if show_stacks {
            section_spec("    Message:"@, msg_lines) + section_spec("    Stack:"@, at_most6(acc.0))
        } else {
            Seq::empty()
        };
        shown + console_section_spec(console, show_logs)
    }
}

/// The failure of a whole file (see [`file_level_failure_spec`]);
/// `details` are the file's failure details, read.
pub fn render_file_level_failure(
    file: &TestSuiteResult,
    details: Option<&Vec<JsonValue>>,
    show_stacks: bool,
    console_list: &[ConsoleEntry],
    show_logs: bool,
) -> (res: Vec<String>)
    ensures
        views(res@) == file_level_failure_spec(
            file@.failure_message,
            file@.test_exec_error is Some,
            match details {
                Some(d) => Some(d@),
                None => None,
            },
            show_stacks,
            console_list@,
            show_logs,
        ),
{
    let mut out: Vec<String> = Vec::new();
    if is_blank_str(file.failure_message.as_str()) && file.test_exec_error.is_none() {
        assert(views(out@) =~= Seq::<Seq<char>>::empty());
        return out;
    }
    let (stacks, messages) = lines_from_details(details);
    let msg_lines = merge_msg_lines(file.failure_message.as_str(), messages.as_slice());
    assert(views(out@) =~= Seq::<Seq<char>>::empty());
    if show_stacks {
        push_section(&mut out, "    Message:", &msg_lines);
        let mut top: Vec<String> = Vec::new();
        let mut k: usize = 0;
        while k < stacks.len() && k < 6
            invariant
                k <= stacks.len(),
                k <= 6,
                views(top@) == views(stacks@).take(k as int),
            decreases stacks.len() - k,
        {
            let ghost b = views(top@);
            top.push(crate::text::owned(stacks[k].as_str()));
            assert(views(top@) =~= b.push(stacks@[k as int]@));
            assert(views(stacks@).take(k + 1) =~= views(stacks@).take(k as int).push(stacks@[k as int]@));
            k = k + 1;
        }
        assert(views(top@) =~= at_most6(views(stacks@)));
        push_section(&mut out, "    Stack:", &top);
    }
    let console = build_console_section(console_list, show_logs);
    let ghost before = views(out@);
    let mut j: usize = 0;
    while j < console.len()
        invariant
            j <= console.len(),
            views(out@) == before + views(console@).take(j as int),
        decreases console.len() - j,
    {
        let ghost b = views(out@);
        out.push(crate::text::owned(console[j].as_str()));
        assert(views(out@) =~= b.push(console@[j as int]@));
        assert(views(console@).take(j + 1) =~= views(console@).take(j as int).push(console@[j as int]@));
        j = j + 1;
    }
    assert(views(console@).take(console.len() as int) =~= views(console@));
    out
}

} // verus!
