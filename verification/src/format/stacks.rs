//! Stack-trace lines: recognising them, removing ANSI styling, and folding
//! runs of noisy frames into a single "hidden" note.
use crate::format::ansi;
use crate::text::{chars_of, concat3, contains, contains_str, dec, is_ws, is_ws_char, u64_to_dec, views};
use vstd::prelude::*;

verus! {

/// What `strip_ansi_escapes::strip_str` gives for a text.
pub uninterp spec fn ansi_stripped(text: Seq<char>) -> Seq<char>;

/// A control character as the stripping's parser sees it: a C0 control
/// (below U+0020, the escape character among them) or a C1 control
/// (U+0080 to U+009F).
pub open spec fn is_control_char(c: char) -> bool {
    (c as u32) < 0x20 || (0x80 <= (c as u32) && (c as u32) <= 0x9f)
}

/// A text whose only control characters are line breaks.
pub open spec fn is_plain_text(t: Seq<char>) -> bool {
    forall|i: int| 0 <= i < t.len() ==> (#[trigger] t[i]) == '\n' || !is_control_char(t[i])
}

/// Removes ANSI escape sequences: calls `strip_ansi_escapes::strip_str`.
/// Trusted: the result is the crate's stripping of `text`; and a text with
/// no control character but line breaks comes back as it is (the parser
/// prints every other character and writes a line break for `\n`).
/// Nothing more is stated of what it removes.
#[verifier::external_body]
fn strip_ansi_str(text: &str) -> (res: String)
    ensures
        res@ == ansi_stripped(text@),
        is_plain_text(text@) ==> res@ == text@,
{
    strip_ansi_escapes::strip_str(text)
}

/// `text` without ANSI escape sequences.
pub fn strip_ansi_simple(text: &str) -> (res: String)
    ensures
        res@ == ansi_stripped(text@),
        is_plain_text(text@) ==> res@ == text@,
{
    strip_ansi_str(text)
}

/// A line in which `at` stands between whitespace (the pattern `\s+at\s+`).
pub open spec fn is_stack_line_spec(line: Seq<char>) -> bool {
    exists|i: int|
        0 <= i && i + 3 < line.len() && is_ws(#[trigger] line[i]) && line[i + 1] == 'a' && line[i + 2]
            == 't' && is_ws(line[i + 3])
}

/// Whether `line` looks like a stack frame (`\s+at\s+` occurs in it).
pub fn is_stack_line(line: &str) -> (res: bool)
    ensures
        res == is_stack_line_spec(line@),
{
    let v = chars_of(line);
    let mut i: usize = 0;
    while i < v.len() && v.len() - i > 3
        invariant
            v@ == line@,
            forall|j: int|
                0 <= j < i ==> !(j + 3 < v@.len() && is_ws(#[trigger] v@[j]) && v@[j + 1] == 'a'
                    && v@[j + 2] == 't' && is_ws(v@[j + 3])),
        decreases v.len() - i,
    {
        if is_ws_char(v[i]) && v[i + 1] == 'a' && v[i + 2] == 't' && is_ws_char(v[i + 3]) {
            return true;
        }
        i = i + 1;
    }
    proof {
        assert forall|j: int|
            0 <= j && j + 3 < line@.len() && is_ws(#[trigger] line@[j]) && line@[j + 1] == 'a' && line@[j
                + 2] == 't' implies !is_ws(line@[j + 3]) by {
            assert(j < i);
        }
    }
    false
}

/// A stack line from `node_modules/` or node's own internals.
pub open spec fn is_noisy_frame(ln: Seq<char>) -> bool {
    contains(ln, "node_modules/"@) || contains(ln, " at node:"@)
}

/// The note that replaces `hidden` noisy frames.
pub open spec fn hidden_note(hidden: nat) -> Seq<char> {
    ansi::styled(
        "\u{1b}[90m"@,
        "      \u{2026} "@ + dec(hidden) + " stack frame"@ + (if hidden == 1 {
            Seq::empty()
        } else {
            seq!['s']
        }) + " hidden"@,
        "\u{1b}[39m"@,
    )
}

/// Lines out of `collapse_stacks`: every line is kept except noisy stack
/// frames; each run of those is replaced, where the run ends, by one note.
pub open spec fn collapse_from(lines: Seq<Seq<char>>, hidden: nat) -> Seq<Seq<char>>
    decreases lines.len(),
{
    if lines.len() == 0 {
        if hidden > 0 {
            seq![hidden_note(hidden)]
        } else {
            Seq::empty()
        }
    } else {
        let raw = lines[0];
        let ln = ansi_stripped(raw);
        if is_stack_line_spec(ln) && is_noisy_frame(ln) {
            collapse_from(lines.drop_first(), hidden + 1)
        } else {
            (if hidden > 0 {
                seq![hidden_note(hidden)]
            } else {
                Seq::empty()
            }) + seq![raw] + collapse_from(lines.drop_first(), 0)
        }
    }
}

fn hidden_note_exec(hidden: u64) -> (res: String)
    ensures
        res@ == hidden_note(hidden as nat),
{
    proof {
        reveal_strlit("s");
        reveal_strlit("");
    }
    let plural = if hidden == 1 {
        ""
    } else {
        "s"
    };
    let mut body = concat3("      \u{2026} ", u64_to_dec(hidden).as_str(), " stack frame");
    crate::text::push_str(&mut body, plural);
    crate::text::push_str(&mut body, " hidden");
    assert(plural@ == (if hidden == 1 {
        Seq::<char>::empty()
    } else {
        seq!['s']
    }));
    ansi::gray(body.as_str())
}

/// Folds runs of `node_modules/` and `node:` frames into one
/// "… N stack frames hidden" note each; every other line is kept as it is.
pub fn collapse_stacks(lines: &Vec<String>) -> (res: Vec<String>)
    requires
        lines.len() < u64::MAX,
    ensures
        views(res@) == collapse_from(views(lines@), 0),
{
    let mut out: Vec<String> = Vec::new();
    let mut hidden: u64 = 0;
    let mut i: usize = 0;
    assert(views(lines@).skip(0) == views(lines@));
    while i < lines.len()
        invariant
            i <= lines.len() < u64::MAX,
            hidden <= i,
            collapse_from(views(lines@), 0) == views(out@) + collapse_from(
                views(lines@).skip(i as int),
                hidden as nat,
            ),
        decreases lines.len() - i,
    {
        let ghost rest = views(lines@).skip(i as int);
        assert(rest[0] == lines@[i as int]@);
        assert(rest.drop_first() == views(lines@).skip(i + 1));
        let ln = strip_ansi_simple(lines[i].as_str());
        let noisy = is_stack_line(ln.as_str()) && (contains_str(ln.as_str(), "node_modules/")
            || contains_str(ln.as_str(), " at node:"));
        if noisy {
            hidden = hidden + 1;
        } else {
            let ghost before = views(out@);
            let ghost h = hidden as nat;
            if hidden > 0 {
                out.push(hidden_note_exec(hidden));
                hidden = 0;
            }
            out.push(crate::text::owned(lines[i].as_str()));
            assert(views(out@) =~= before + (if h > 0 {
                seq![hidden_note(h)]
            } else {
                Seq::empty()
            }) + seq![lines@[i as int]@]);
        }
        i = i + 1;
    }
    let ghost before = out@;
    if hidden > 0 {
        out.push(hidden_note_exec(hidden));
    }
    assert(views(lines@).skip(lines.len() as int) =~= Seq::<Seq<char>>::empty());
    assert(views(out@) =~= views(before) + collapse_from(Seq::empty(), hidden as nat));
    out
}


/// A location in parentheses: `(<file>:<line>:<col>)`.
pub const PAREN_LOCATION_PATTERN: &'static str = "\\(([^()]+?:\\d+:\\d+)\\)";

/// A location at the end of a line: ` <file>:<line>:<col>`.
pub const TRAILING_LOCATION_PATTERN: &'static str = "\\s([\\w./-]+?:\\d+:\\d+)\\s*$";

/// The location a line names that lies in the project: the one in
/// parentheses, else the one at the end of the line.
pub open spec fn line_test_location(line: Seq<char>, project_hint: Seq<char>) -> Option<Seq<char>> {
    match crate::format::pattern::regex_capture1_of(PAREN_LOCATION_PATTERN@, line) {
        Some(c) if crate::format::pattern::regex_is_match_of(project_hint, c) => Some(c),
        _ => match crate::format::pattern::regex_capture1_of(TRAILING_LOCATION_PATTERN@, line) {
            Some(c) if crate::format::pattern::regex_is_match_of(project_hint, c) => Some(c),
            _ => None,
        },
    }
}

/// The first project location named by the lines.
pub open spec fn first_test_location_spec(lines: Seq<Seq<char>>, project_hint: Seq<char>) -> Option<Seq<char>>
    decreases lines.len(),
{
    if lines.len() == 0 {
        None
    } else {
        match line_test_location(lines[0], project_hint) {
            Some(c) => Some(c),
            None => first_test_location_spec(lines.drop_first(), project_hint),
        }
    }
}

/// The first location in the project that the lines name (see
/// [`first_test_location_spec`]); `project_hint` is the pattern of the
/// project's paths.
pub fn first_test_location(lines: &[String], project_hint: &str) -> (res: Option<String>)
    ensures
        crate::test_model::opt_seq(res) == first_test_location_spec(views(lines@), project_hint@),
{
    let ghost lv = views(lines@);
    let mut i: usize = 0;
    assert(lv.skip(0) =~= lv);
    while i < lines.len()
        invariant
            i <= lines.len(),
            lv == views(lines@),
            first_test_location_spec(lv, project_hint@) == first_test_location_spec(lv.skip(i as int), project_hint@),
        decreases lines.len() - i,
    {
        let ln = lines[i].as_str();
        assert(lv.skip(i as int)[0] == ln@);
        match crate::format::pattern::capture1(PAREN_LOCATION_PATTERN, ln) {
            Some(c) => {
                if crate::format::pattern::regex_is_match(project_hint, c.as_str()) {
                    return Some(c);
                }
            },
            None => {},
        }
        match crate::format::pattern::capture1(TRAILING_LOCATION_PATTERN, ln) {
            Some(c) => {
                if crate::format::pattern::regex_is_match(project_hint, c.as_str()) {
                    return Some(c);
                }
            },
            None => {},
        }
        assert(lv.skip(i as int).drop_first() =~= lv.skip(i + 1));
        i = i + 1;
    }
    assert(lv.skip(i as int) =~= Seq::<Seq<char>>::empty());
    None
}

} // verus!
