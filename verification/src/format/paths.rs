//! Links from output to source files: the editor URL of a file and line,
//! and a padded cell of text made into a terminal hyperlink.
use crate::path_names::{canonicalize_path, to_slash, to_slash_of};
use crate::jest_ownership::canonical_or;
use crate::test_model::opt_seq;
use crate::text::{concat2, dec_int, i64_to_dec, lowercase_of, owned, push_char, push_str, str_eq, to_lowercase_str, trim_end, trim_end_str};
use vstd::prelude::*;
use vstd::utf8::encode_utf8;

verus! {

/// What the environment says of the editor: the `COVERAGE_EDITOR` and
/// `TERM_PROGRAM` settings, and whether `VSCODE_IPC_HOOK` is set.
#[derive(Debug, Clone)]
pub struct EditorEnv {
    pub coverage_editor: Option<String>,
    pub term_program: Option<String>,
    pub vscode_ipc_hook: bool,
}

pub open spec fn opt_text(o: Option<String>) -> Option<Seq<char>> {
    match o {
        Some(s) => Some(s@),
        None => None,
    }
}

/// Links open in VS Code when the editor hint (or else the coverage editor
/// setting) is `code` or `vscode` in any case, when the terminal is VS
/// Code's, or when VS Code's IPC hook is set.
pub open spec fn prefer_vscode_spec(hint: Option<Seq<char>>, env: EditorEnv) -> bool {
    let h = match hint {
        Some(h) => h,
        None => match opt_text(env.coverage_editor) {
            Some(e) => e,
            None => Seq::empty(),
        },
    };
    let hl = lowercase_of(h);
    ||| hl == "code"@
    ||| hl == "vscode"@
    ||| (match opt_text(env.term_program) {
        Some(t) => lowercase_of(t) == "vscode"@,
        None => false,
    })
    ||| env.vscode_ipc_hook
}

/// Whether links should open in VS Code (see [`prefer_vscode_spec`]).
pub fn prefer_vscode(hint: Option<&str>, env: &EditorEnv) -> (res: bool)
    ensures
        res == prefer_vscode_spec(match hint {
            Some(h) => Some(h@),
            None => None,
        }, *env),
{
    let h = match hint {
        Some(h) => owned(h),
        None => match &env.coverage_editor {
            Some(e) => owned(e.as_str()),
            None => String::new(),
        },
    };
    let hl = to_lowercase_str(h.as_str());
    if str_eq(hl.as_str(), "code") || str_eq(hl.as_str(), "vscode") {
        return true;
    }
    let term = match &env.term_program {
        Some(t) => str_eq(to_lowercase_str(t.as_str()).as_str(), "vscode"),
        None => false,
    };
    term || env.vscode_ipc_hook
}

/// The URL that opens `abs` (at `line`, when given): a `vscode://file/`
/// URL with `:line`, or a `file://` URL with `#Lline`.
pub open spec fn href_spec(abs: Seq<char>, line: Option<i64>, vscode: bool) -> Seq<char> {
    if vscode {
        match line {
            Some(l) => "vscode://file/"@ + abs + seq![':'] + dec_int(l as int),
            None => "vscode://file/"@ + abs,
        }
    } else {
        match line {
            Some(l) => "file://"@ + abs + "#L"@ + dec_int(l as int),
            None => "file://"@ + abs,
        }
    }
}

/// The URL that opens the file at the slash path `abs`.
pub fn editor_href(abs: &str, line: Option<i64>, vscode: bool) -> (res: String)
    ensures
        res@ == href_spec(abs@, line, vscode),
{
    let mut out = if vscode {
        concat2("vscode://file/", abs)
    } else {
        concat2("file://", abs)
    };
    match line {
        Some(l) => {
            if vscode {
                push_char(&mut out, ':');
            } else {
                push_str(&mut out, "#L");
            }
            push_str(&mut out, i64_to_dec(l).as_str());
        },
        None => {},
    }
    out
}

/// The URL that opens `abs_path` in the preferred editor, given the
/// canonical form that the disk gave for it (the path itself when none
/// was given).
pub fn editor_href_with(
    abs_path: &str,
    canonical: Option<String>,
    line: Option<i64>,
    hint: Option<&str>,
    env: &EditorEnv,
) -> (res: String)
    ensures
        res@ == href_spec(
            to_slash_of(canonical_or(opt_seq(canonical), abs_path@)),
            line,
            prefer_vscode_spec(match hint {
                Some(h) => Some(h@),
                None => None,
            }, *env),
        ),
{
    let base = match canonical {
        Some(c) => c,
        None => owned(abs_path),
    };
    let slashed = to_slash(base.as_str());
    let vscode = prefer_vscode(hint, env);
    editor_href(slashed.as_str(), line, vscode)
}

/// The URL that opens `abs_path` in the preferred editor; the disk is
/// asked for the path's canonical form, and the answer goes to
/// [`editor_href_with`].
pub fn preferred_editor_href(abs_path: &str, line: Option<i64>, hint: Option<&str>, env: &EditorEnv) -> (res:
    String)
    ensures
        exists|c: Option<Seq<char>>|
            res@ == href_spec(
                #[trigger] to_slash_of(canonical_or(c, abs_path@)),
                line,
                prefer_vscode_spec(match hint {
                    Some(h) => Some(h@),
                    None => None,
                }, *env),
            ),
{
    let canonical = canonicalize_path(abs_path);
    let ghost cv = opt_seq(canonical);
    let res = editor_href_with(abs_path, canonical, line, hint, env);
    assert(res@ == href_spec(
        to_slash_of(canonical_or(cv, abs_path@)),
        line,
        prefer_vscode_spec(match hint {
            Some(h) => Some(h@),
            None => None,
        }, *env),
    ));
    res
}

/// `padded` as a terminal hyperlink to `href`: its text without trailing
/// whitespace inside the link, then as many spaces as that whitespace took
/// bytes.
pub open spec fn linkify_spec(href: Seq<char>, padded: Seq<char>) -> Seq<char> {
    let trimmed = trim_end(padded);
    let a = encode_utf8(padded).len() as usize;
    let b = encode_utf8(trimmed).len() as usize;
    let pad_n: nat = if a > b {
        (a - b) as nat
    } else {
        0
    };
    "\u{1b}]8;;"@ + href + seq!['\u{7}'] + trimmed + "\u{1b}]8;;\u{7}"@ + Seq::new(pad_n, |i: int| ' ')
}

/// `padded` as a terminal hyperlink to `href` (see [`linkify_spec`]).
pub fn linkify_with_href(href: &str, padded: &str) -> (res: String)
    ensures
        res@ == linkify_spec(href@, padded@),
{
    let trimmed = trim_end_str(padded);
    let a = padded.len();
    let b = trimmed.as_str().len();
    let pad: usize = if a > b {
        a - b
    } else {
        0
    };
    let mut out = concat2("\u{1b}]8;;", href);
    push_char(&mut out, '\u{7}');
    push_str(&mut out, trimmed.as_str());
    push_str(&mut out, "\u{1b}]8;;\u{7}");
    let ghost head = out@;
    let mut i: usize = 0;
    while i < pad
        invariant
            i <= pad,
            out@ == head + Seq::new(i as nat, |j: int| ' '),
        decreases pad - i,
    {
        push_char(&mut out, ' ');
        assert(Seq::new((i + 1) as nat, |j: int| ' ') =~= Seq::new(i as nat, |j: int| ' ').push(' '));
        i = i + 1;
    }
    proof {
        reveal_strlit("\u{1b}]8;;");
        reveal_strlit("\u{1b}]8;;\u{7}");
    }
    assert(out@ =~= linkify_spec(href@, padded@));
    out
}

/// `padded` as a terminal hyperlink to `abs_path` in the preferred editor.
pub fn linkify_padded(abs_path: &str, line: Option<i64>, hint: Option<&str>, padded: &str, env: &EditorEnv) -> (res:
    String)
    ensures
        exists|canonical: Seq<char>|
            res@ == linkify_spec(
                href_spec(
                    #[trigger] to_slash_of(canonical),
                    line,
                    prefer_vscode_spec(match hint {
                        Some(h) => Some(h@),
                        None => None,
                    }, *env),
                ),
                padded@,
            ),
{
    let url = preferred_editor_href(abs_path, line, hint, env);
    linkify_with_href(url.as_str(), padded)
}

} // verus!
