//! The console section printed under a failed test: every log line when
//! full logs are asked for, otherwise the longest few console errors.
use crate::format::ansi::{dim, styled, white};
use crate::format::stacks::{ansi_stripped, strip_ansi_simple};
use crate::text::{
    concat2, is_blank, is_blank_str, lowercase_of, owned, push_str, str_eq, to_lowercase_str, trim,
    trim_str, views,
};
use vstd::prelude::*;
use vstd::utf8::encode_utf8;

verus! {

/// One console call recorded while a test ran.
#[derive(Debug, Clone)]
pub struct ConsoleEntry {
    pub entry_type: Option<String>,
    pub message: Option<String>,
    pub origin: Option<String>,
    pub test_path: Option<String>,
    pub current_test_name: Option<String>,
}

pub struct ConsoleEntryView {
    pub entry_type: Option<Seq<char>>,
    pub message: Option<Seq<char>>,
    pub origin: Option<Seq<char>>,
    pub test_path: Option<Seq<char>>,
    pub current_test_name: Option<Seq<char>>,
}

impl View for ConsoleEntry {
    type V = ConsoleEntryView;

    open spec fn view(&self) -> ConsoleEntryView {
        ConsoleEntryView {
            entry_type: crate::test_model::opt_seq(self.entry_type),
            message: crate::test_model::opt_seq(self.message),
            origin: crate::test_model::opt_seq(self.origin),
            test_path: crate::test_model::opt_seq(self.test_path),
            current_test_name: crate::test_model::opt_seq(self.current_test_name),
        }
    }
}

pub open spec fn entry_views(v: Seq<ConsoleEntry>) -> Seq<ConsoleEntryView> {
    v.map_values(|e: ConsoleEntry| e@)
}

/// A copy of a console entry.
pub fn copy_console_entry(e: &ConsoleEntry) -> (res: ConsoleEntry)
    ensures
        res@ == e@,
{
    ConsoleEntry {
        entry_type: crate::format::bridge_console::copy_opt_text(&e.entry_type),
        message: crate::format::bridge_console::copy_opt_text(&e.message),
        origin: crate::format::bridge_console::copy_opt_text(&e.origin),
        test_path: crate::format::bridge_console::copy_opt_text(&e.test_path),
        current_test_name: crate::format::bridge_console::copy_opt_text(&e.current_test_name),
    }
}

/// The text of an optional string, empty when absent.
pub open spec fn or_empty(o: Option<String>) -> Seq<char> {
    match o {
        Some(s) => s@,
        None => Seq::empty(),
    }
}

pub open spec fn dim_spec(t: Seq<char>) -> Seq<char> {
    styled("\u{1b}[2m"@, t, "\u{1b}[22m"@)
}

pub open spec fn white_spec(t: Seq<char>) -> Seq<char> {
    styled("\u{1b}[97m"@, t, "\u{1b}[39m"@)
}

/// The indented, dimmed bullet that starts every console line.
pub open spec fn bullet() -> Seq<char> {
    "      "@ + dim_spec("\u{2022}"@) + " "@
}

/// The log line of one entry: its lower-cased type, its message and, dimmed
/// in brackets, its origin.
pub open spec fn log_line(e: ConsoleEntry) -> Seq<char> {
    let type_text = lowercase_of(or_empty(e.entry_type));
    let origin = or_empty(e.origin);
    let type_fmt = if type_text.len() == 0 {
        Seq::empty()
    } else {
        white_spec(type_text) + ": "@
    };
    let origin_fmt = if origin.len() == 0 {
        Seq::empty()
    } else {
        " "@ + dim_spec("("@ + origin + ")"@)
    };
    bullet() + type_fmt + or_empty(e.message) + origin_fmt
}

/// The log lines that show something once styling is removed, in order.
pub open spec fn kept_log_lines(es: Seq<ConsoleEntry>) -> Seq<Seq<char>>
    decreases es.len(),
{
    if es.len() == 0 {
        Seq::empty()
    } else {
        let rest = kept_log_lines(es.drop_last());
        let l = log_line(es.last());
        if trim(ansi_stripped(l)).len() == 0 {
            rest
        } else {
            rest.push(l)
        }
    }
}

/// The last `n` items (all of them when there are fewer).
pub open spec fn last_n(s: Seq<Seq<char>>, n: nat) -> Seq<Seq<char>> {
    if s.len() > n {
        s.skip(s.len() - n)
    } else {
        s
    }
}

/// The first `n` items (all of them when there are fewer).
pub open spec fn first_n<A>(s: Seq<A>, n: nat) -> Seq<A> {
    if s.len() > n {
        s.take(n as int)
    } else {
        s
    }
}

/// The console errors with a non-blank message, each with the length of
/// its message in bytes.
pub open spec fn scored_errors(es: Seq<ConsoleEntry>) -> Seq<(Seq<char>, nat)>
    decreases es.len(),
{
    if es.len() == 0 {
        Seq::empty()
    } else {
        let rest = scored_errors(es.drop_last());
        let e = es.last();
        let m = or_empty(e.message);
        if lowercase_of(or_empty(e.entry_type)) == "error"@ && !is_blank(m) {
            rest.push((m, (encode_utf8(m).len() as usize) as nat))
        } else {
            rest
        }
    }
}

/// How many leading items score at least `k`.
pub open spec fn count_ge(s: Seq<(Seq<char>, nat)>, k: nat) -> nat
    decreases s.len(),
{
    if s.len() == 0 || s[0].1 < k {
        0
    } else {
        1 + count_ge(s.drop_first(), k)
    }
}

/// `x` placed after the leading items that score at least as much.
pub open spec fn insert_desc(s: Seq<(Seq<char>, nat)>, x: (Seq<char>, nat)) -> Seq<(Seq<char>, nat)> {
    let p = count_ge(s, x.1) as int;
    s.take(p) + seq![x] + s.skip(p)
}

/// Stable sort by score, highest first: items of equal score keep their order.
pub open spec fn sort_desc(s: Seq<(Seq<char>, nat)>) -> Seq<(Seq<char>, nat)>
    decreases s.len(),
{
    if s.len() == 0 {
        s
    } else {
        insert_desc(sort_desc(s.drop_last()), s.last())
    }
}

/// The console section of a failed test.
pub open spec fn console_section_spec(es: Seq<ConsoleEntry>, full: bool) -> Seq<Seq<char>> {
    if es.len() == 0 {
        Seq::empty()
    } else if full {
        let lines = last_n(kept_log_lines(es), 150);
        if lines.len() == 0 {
            Seq::empty()
        } else {
            seq![dim_spec("    Logs:"@)] + lines + seq![Seq::<char>::empty()]
        }
    } else {
        let top = first_n(sort_desc(scored_errors(es)), 3);
        if top.len() == 0 {
            Seq::empty()
        } else {
            seq![dim_spec("    Console errors:"@)] + top.map_values(
                |p: (Seq<char>, nat)| bullet() + p.0,
            ) + seq![Seq::<char>::empty()]
        }
    }
}

pub open spec fn pairs_view(v: Seq<(String, usize)>) -> Seq<(Seq<char>, nat)> {
    v.map_values(|p: (String, usize)| (p.0@, p.1 as nat))
}

fn or_empty_str(o: &Option<String>) -> (res: &str)
    ensures
        res@ == or_empty(*o),
{
    proof {
        reveal_strlit("");
    }
    match o {
        Some(s) => s.as_str(),
        None => "",
    }
}

fn bullet_text() -> (res: String)
    ensures
        res@ == bullet(),
{
    let mut out = owned("      ");
    push_str(&mut out, dim("\u{2022}").as_str());
    push_str(&mut out, " ");
    out
}

fn log_line_text(e: &ConsoleEntry) -> (res: String)
    ensures
        res@ == log_line(*e),
{
    let type_text = to_lowercase_str(or_empty_str(&e.entry_type));
    let origin = or_empty_str(&e.origin);
    let mut out = bullet_text();
    if !type_text.as_str().is_empty() {
        push_str(&mut out, white(type_text.as_str()).as_str());
        push_str(&mut out, ": ");
    }
    push_str(&mut out, or_empty_str(&e.message));
    if !origin.is_empty() {
        push_str(&mut out, " ");
        let mut bracketed = concat2("(", origin);
        push_str(&mut bracketed, ")");
        push_str(&mut out, dim(bracketed.as_str()).as_str());
    }
    out
}

proof fn lemma_count_ge_step(s: Seq<(Seq<char>, nat)>, i: int, k: nat)
    requires
        0 <= i < s.len(),
        s[i].1 >= k,
    ensures
        count_ge(s.skip(i), k) == 1 + count_ge(s.skip(i + 1), k),
{
    assert(s.skip(i).drop_first() =~= s.skip(i + 1));
}

fn insert_desc_vec(v: &mut Vec<(String, usize)>, x: (String, usize))
    ensures
        pairs_view(final(v)@) == insert_desc(pairs_view(old(v)@), (x.0@, x.1 as nat)),
{
    let ghost pv = pairs_view(v@);
    let ghost k = x.1 as nat;
    let mut i: usize = 0;
    assert(pv.skip(0) =~= pv);
    while i < v.len() && v[i].1 >= x.1
        invariant
            i <= v.len(),
            pv == pairs_view(v@),
            k == x.1 as nat,
            count_ge(pv, k) == i + count_ge(pv.skip(i as int), k),
        decreases v.len() - i,
    {
        proof {
            lemma_count_ge_step(pv, i as int, k);
        }
        i = i + 1;
    }
    proof {
        if i < v.len() {
            assert(pv.skip(i as int)[0].1 < k);
        } else {
            assert(pv.skip(i as int).len() == 0);
        }
    }
    let ghost xv = (x.0@, x.1 as nat);
    v.insert(i, x);
    assert(pairs_view(v@) =~= pv.take(i as int) + seq![xv] + pv.skip(i as int));
}

/// The console section under a failed test: with `full`, every log line
/// that shows something (the last 150) under `Logs:`; otherwise up to three
/// console errors, longest message first, under `Console errors:`. Both end
/// with an empty line; nothing is shown when there is nothing to show.
pub fn build_console_section(entries: &[ConsoleEntry], full: bool) -> (res: Vec<String>)
    ensures
        views(res@) == console_section_spec(entries@, full),
{
    if entries.len() == 0 {
        return Vec::new();
    }
    proof {
        reveal_strlit("error");
    }
    if full {
        let mut kept: Vec<String> = Vec::new();
        let mut i: usize = 0;
        while i < entries.len()
            invariant
                i <= entries.len(),
                views(kept@) == kept_log_lines(entries@.take(i as int)),
            decreases entries.len() - i,
        {
            assert(entries@.take(i + 1).drop_last() =~= entries@.take(i as int));
            let line = log_line_text(&entries[i]);
            let stripped = strip_ansi_simple(line.as_str());
            let shown = trim_str(stripped.as_str());
            if !shown.as_str().is_empty() {
                kept.push(line);
            }
            assert(views(kept@) =~= kept_log_lines(entries@.take(i + 1)));
            i = i + 1;
        }
        assert(entries@.take(entries.len() as int) =~= entries@);
        if kept.len() == 0 {
            return Vec::new();
        }
        let start: usize = if kept.len() > 150 {
            kept.len() - 150
        } else {
            0
        };
        let mut out: Vec<String> = Vec::new();
        out.push(dim("    Logs:"));
        let mut j: usize = start;
        while j < kept.len()
            invariant
                start <= j <= kept.len(),
                views(out@) == seq![dim_spec("    Logs:"@)] + views(kept@).subrange(start as int, j as int),
            decreases kept.len() - j,
        {
            let ghost before = views(out@);
            out.push(owned(kept[j].as_str()));
            assert(views(out@) =~= before.push(kept@[j as int]@));
            assert(views(kept@).subrange(start as int, j + 1) =~= views(kept@).subrange(
                start as int,
                j as int,
            ).push(kept@[j as int]@));
            j = j + 1;
        }
        let ghost before = views(out@);
        out.push(String::new());
        assert(views(kept@).subrange(start as int, kept.len() as int) =~= last_n(
            views(kept@),
            150,
        ));
        assert(views(out@) =~= before.push(Seq::<char>::empty()));
        assert(views(out@) =~= console_section_spec(entries@, full));
        out
    } else {
        let mut sorted: Vec<(String, usize)> = Vec::new();
        let mut i: usize = 0;
        while i < entries.len()
            invariant
                i <= entries.len(),
                pairs_view(sorted@) == sort_desc(scored_errors(entries@.take(i as int))),
            decreases entries.len() - i,
        {
            assert(entries@.take(i + 1).drop_last() =~= entries@.take(i as int));
            let ghost prev = scored_errors(entries@.take(i as int));
            let e = &entries[i];
            let ty = to_lowercase_str(or_empty_str(&e.entry_type));
            let m = or_empty_str(&e.message);
            if str_eq(ty.as_str(), "error") && !is_blank_str(m) {
                let score = m.len();
                let ghost x = (m@, score as nat);
                assert(entries@.take(i + 1).last() == entries@[i as int]);
                assert(scored_errors(entries@.take(i + 1)) == prev.push(x));
                assert(prev.push(x).drop_last() =~= prev);
                insert_desc_vec(&mut sorted, (owned(m), score));
            } else {
                assert(scored_errors(entries@.take(i + 1)) == prev);
            }
            i = i + 1;
        }
        assert(entries@.take(entries.len() as int) =~= entries@);
        if sorted.len() == 0 {
            return Vec::new();
        }
        let n: usize = if sorted.len() > 3 {
            3
        } else {
            sorted.len()
        };
        let ghost top = first_n(sort_desc(scored_errors(entries@)), 3);
        assert(top =~= pairs_view(sorted@).take(n as int));
        let mut out: Vec<String> = Vec::new();
        out.push(dim("    Console errors:"));
        let mut j: usize = 0;
        while j < n
            invariant
                n <= sorted.len(),
                j <= n,
                top == pairs_view(sorted@).take(n as int),
                views(out@) == seq![dim_spec("    Console errors:"@)] + top.take(j as int).map_values(
                    |p: (Seq<char>, nat)| bullet() + p.0,
                ),
            decreases n - j,
        {
            let ghost before = views(out@);
            let mut line = bullet_text();
            push_str(&mut line, sorted[j].0.as_str());
            out.push(line);
            assert(views(out@) =~= before.push(bullet() + sorted@[j as int].0@));
            assert(top.take(j + 1) =~= top.take(j as int).push(top[j as int]));
            assert(top[j as int].0 == sorted@[j as int].0@);
            assert(top.take(j + 1).map_values(|p: (Seq<char>, nat)| bullet() + p.0) =~= top.take(
                j as int,
            ).map_values(|p: (Seq<char>, nat)| bullet() + p.0).push(bullet() + top[j as int].0));
            assert(views(out@) =~= seq![dim_spec("    Console errors:"@)] + top.take(j + 1).map_values(
                |p: (Seq<char>, nat)| bullet() + p.0,
            ));
            j = j + 1;
        }
        let ghost before = views(out@);
        out.push(String::new());
        assert(top.take(n as int) =~= top);
        assert(views(out@) =~= before.push(Seq::<char>::empty()));
        out
    }
}

} // verus!
