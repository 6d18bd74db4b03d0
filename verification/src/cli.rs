//! The command line: which runner to use, whether help is asked for, and
//! the arguments left for the runner.
use crate::jest_bridge::is_rooted;
use crate::path_names::{path_join, path_join_of};
use crate::text::{
    ascii_lower, ascii_lower_str, chars_of, contains, contains_char, owned, split_once, split_once_str, str_eq, trim,
    trim_str, views,
};
use vstd::prelude::*;

verus! {

/// The test runners.
#[derive(Debug, Clone, Copy, PartialEq, Eq, Structural)]
pub enum Runner {
    Jest,
    Pytest,
    CargoTest,
    CargoNextest,
}

/// The flag name of a token: what comes before its first `=`.
pub open spec fn base_flag_spec(t: Seq<char>) -> Seq<char> {
    match split_once(t, seq!['=']) {
        Some((k, _)) => k,
        None => t,
    }
}

/// The flag name of a token (see [`base_flag_spec`]).
pub fn base_flag(t: &str) -> (res: String)
    ensures
        res@ == base_flag_spec(t@),
{
    proof {
        reveal_strlit("=");
        assert("="@ =~= seq!['=']);
    }
    match split_once_str(t, "=") {
        Some((k, _)) => k,
        None => owned(t),
    }
}

/// The runner a name stands for, in any case and with surrounding space.
pub open spec fn parse_runner_spec(raw: Seq<char>) -> Option<Runner> {
    let s = ascii_lower(trim(raw));
    if s == "jest"@ {
        Some(Runner::Jest)
    } else if s == "pytest"@ {
        Some(Runner::Pytest)
    } else if s == "cargo-nextest"@ {
        Some(Runner::CargoNextest)
    } else if s == "cargo-test"@ {
        Some(Runner::CargoTest)
    } else {
        None
    }
}

/// The runner a name stands for (see [`parse_runner_spec`]).
pub fn parse_runner(raw: &str) -> (res: Option<Runner>)
    ensures
        res == parse_runner_spec(raw@),
{
    let t = trim_str(raw);
    let s = ascii_lower_str(t.as_str());
    if str_eq(s.as_str(), "jest") {
        Some(Runner::Jest)
    } else if str_eq(s.as_str(), "pytest") {
        Some(Runner::Pytest)
    } else if str_eq(s.as_str(), "cargo-nextest") {
        Some(Runner::CargoNextest)
    } else if str_eq(s.as_str(), "cargo-test") {
        Some(Runner::CargoTest)
    } else {
        None
    }
}

/// The name of a runner.
pub open spec fn runner_label_spec(r: Runner) -> Seq<char> {
    match r {
        Runner::Jest => "jest"@,
        Runner::Pytest => "pytest"@,
        Runner::CargoTest => "cargo-test"@,
        Runner::CargoNextest => "cargo-nextest"@,
    }
}

/// The name of a runner.
pub fn runner_label(r: Runner) -> (res: &'static str)
    ensures
        res@ == runner_label_spec(r),
{
    match r {
        Runner::Jest => "jest",
        Runner::Pytest => "pytest",
        Runner::CargoTest => "cargo-test",
        Runner::CargoNextest => "cargo-nextest",
    }
}

/// Help is asked for by `--help` or `-h` anywhere.
pub fn should_print_help(argv: &[String]) -> (res: bool)
    ensures
        res == (views(argv@).contains("--help"@) || views(argv@).contains("-h"@)),
{
    let mut i: usize = 0;
    while i < argv.len()
        invariant
            i <= argv.len(),
            forall|j: int| 0 <= j < i ==> argv@[j]@ != "--help"@ && argv@[j]@ != "-h"@,
        decreases argv.len() - i,
    {
        if str_eq(argv[i].as_str(), "--help") || str_eq(argv[i].as_str(), "-h") {
            assert(views(argv@)[i as int] == argv@[i as int]@);
            return true;
        }
        i = i + 1;
    }
    proof {
        if views(argv@).contains("--help"@) {
            let j = choose|j: int| 0 <= j < views(argv@).len() && views(argv@)[j] == "--help"@;
            assert(argv@[j]@ == "--help"@);
        }
        if views(argv@).contains("-h"@) {
            let j = choose|j: int| 0 <= j < views(argv@).len() && views(argv@)[j] == "-h"@;
            assert(argv@[j]@ == "-h"@);
        }
    }
    false
}

/// The runner chosen by `--runner <name>` or `--runner=<name>` (the last
/// one wins) and the other arguments, read from token `i` on; an unknown
/// runner name is the error.
pub open spec fn extract_rec(argv: Seq<Seq<char>>, i: int, runner: Option<Runner>, out: Seq<Seq<char>>) -> Result<
    (Option<Runner>, Seq<Seq<char>>),
    Seq<char>,
>
    decreases argv.len() - i,
{
    if i < 0 || i >= argv.len() {
        Ok((runner, out))
    } else {
        let tok = argv[i];
        let has_eq = contains(tok, seq!['=']);
        let value: Option<Seq<char>> = if base_flag_spec(tok) == "--runner"@ {
            if has_eq {
                match split_once(tok, seq!['=']) {
                    Some((_, v)) => Some(v),
                    None => None,
                }
            } else if i + 1 < argv.len() {
                Some(argv[i + 1])
            } else {
                None
            }
        } else {
            None
        };
        match value {
            Some(v) => match parse_runner_spec(v) {
                None => Err(v),
                Some(r) => extract_rec(
                    argv,
                    i + if has_eq {
                        1int
                    } else {
                        2int
                    },
                    Some(r),
                    out,
                ),
            },
            None => extract_rec(argv, i + 1, runner, out.push(tok)),
        }
    }
}

/// The runner (Jest unless chosen) and the arguments left for it; an
/// unknown runner name is the error.
pub open spec fn extract_runner_spec(argv: Seq<Seq<char>>) -> Result<(Runner, Seq<Seq<char>>), Seq<char>> {
    match extract_rec(argv, 0, None, Seq::empty()) {
        Ok((r, out)) => Ok(
            (
                match r {
                    Some(r) => r,
                    None => Runner::Jest,
                },
                out,
            ),
        ),
        Err(v) => Err(v),
    }
}

pub open spec fn opt_text(o: Option<String>) -> Option<Seq<char>> {
    match o {
        Some(s) => Some(s@),
        None => None,
    }
}

/// The runner and the runner's arguments (see [`extract_runner_spec`]);
/// the error holds the unknown runner name.
pub fn extract_runner(argv: &[String]) -> (res: Result<(Runner, Vec<String>), String>)
    ensures
        match res {
            Ok((r, out)) => extract_runner_spec(views(argv@)) == Ok::<(Runner, Seq<Seq<char>>), Seq<char>>((r, views(out@))),
            Err(v) => extract_runner_spec(views(argv@)) == Err::<(Runner, Seq<Seq<char>>), Seq<char>>(v@),
        },
{
    let ghost av = views(argv@);
    let mut out: Vec<String> = Vec::new();
    let mut runner: Option<Runner> = None;
    let mut i: usize = 0;
    proof {
        reveal_strlit("--runner");
        reveal_strlit("=");
        assert("="@ =~= seq!['=']);
    }
    assert(views(out@) =~= Seq::<Seq<char>>::empty());
    while i < argv.len()
        invariant
            i <= argv.len(),
            av == views(argv@),
            extract_rec(av, 0, None, Seq::empty()) == extract_rec(av, i as int, runner, views(out@)),
        decreases argv.len() - i,
    {
        proof {
            reveal_strlit("--runner");
            reveal_strlit("=");
            assert("="@ =~= seq!['=']);
        }
        let tok = argv[i].as_str();
        assert(av[i as int] == tok@);
        let has_eq = contains_char(tok, '=');
        let value: Option<String> = if str_eq(base_flag(tok).as_str(), "--runner") {
            if has_eq {
                match split_once_str(tok, "=") {
                    Some((_, v)) => Some(v),
                    None => None,
                }
            } else if i + 1 < argv.len() {
                assert(av[i + 1] == argv@[i + 1]@);
                Some(owned(argv[i + 1].as_str()))
            } else {
                None
            }
        } else {
            None
        };
        assert(extract_rec(av, i as int, runner, views(out@)) == match opt_text(value) {
            Some(v) => match parse_runner_spec(v) {
                None => Err(v),
                Some(r) => extract_rec(
                    av,
                    i + if has_eq {
                        1int
                    } else {
                        2int
                    },
                    Some(r),
                    views(out@),
                ),
            },
            None => extract_rec(av, i + 1, runner, views(out@).push(tok@)),
        });
        match value {
            Some(v) => match parse_runner(v.as_str()) {
                None => {
                    return Err(v);
                },
                Some(r) => {
                    runner = Some(r);
                    i = if has_eq {
                        i + 1
                    } else {
                        i + 2
                    };
                },
            },
            None => {
                let ghost before = views(out@);
                out.push(owned(tok));
                assert(views(out@) =~= before.push(tok@));
                i = i + 1;
            },
        }
    }
    let r = match runner {
        Some(r) => r,
        None => Runner::Jest,
    };
    Ok((r, out))
}

/// Terminal diagnostics are printed when the switch is set to something
/// other than blank or `0`.
pub open spec fn debug_terminal_spec(value: Option<Seq<char>>) -> bool {
    match value {
        Some(v) => trim(v).len() > 0 && trim(v) != "0"@,
        None => false,
    }
}

/// Whether terminal diagnostics are asked for (see [`debug_terminal_spec`]).
pub fn debug_terminal_enabled(value: Option<&str>) -> (res: bool)
    ensures
        res == debug_terminal_spec(match value {
            Some(v) => Some(v@),
            None => None,
        }),
{
    match value {
        Some(v) => {
            let t = trim_str(v);
            !t.as_str().is_empty() && !str_eq(t.as_str(), "0")
        },
        None => false,
    }
}

/// The root a run uses when one is given: the configured workspace root,
/// trimmed, taken from the working directory when relative; `None` when
/// none is given or it is blank.
pub open spec fn workspace_root_spec(cwd: Seq<char>, configured: Option<Seq<char>>) -> Option<Seq<char>> {
    match configured {
        Some(c) => {
            let t = trim(c);
            if t.len() == 0 {
                None
            } else if is_rooted(t) {
                Some(t)
            } else {
                Some(path_join_of(cwd, t))
            }
        },
        None => None,
    }
}

pub fn workspace_root_override(cwd: &str, configured: Option<&str>) -> (res: Option<String>)
    ensures
        crate::test_model::opt_seq(res) == workspace_root_spec(cwd@, crate::live_progress::opt_str_view(configured)),
{
    match configured {
        Some(c) => {
            let t = trim_str(c);
            let v = chars_of(t.as_str());
            if v.len() == 0 {
                None
            } else if v[0] == '/' {
                Some(t)
            } else {
                Some(path_join(cwd, t.as_str()))
            }
        },
        None => None,
    }
}

/// The complaint about a run asked to watch in CI, which is refused.
pub fn watch_ci_conflict(watch: bool, ci: bool) -> (res: Option<&'static str>)
    ensures
        (watch && ci) ==> (res matches Some(m) && m@ == "headlamp: --watch is not allowed with --ci"@),
        !(watch && ci) ==> res is None,
{
    if watch && ci {
        Some("headlamp: --watch is not allowed with --ci")
    } else {
        None
    }
}

} // verus!
