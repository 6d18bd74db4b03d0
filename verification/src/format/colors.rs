//! Semantic 24-bit colours (success, failure, ...) and the rule that decides
//! whether colour is used at all.
use crate::text::{str_eq, chars_of, dec, is_blank, is_blank_str, owned, push_str, trim, trim_str, u64_to_dec};
use vstd::prelude::*;

verus! {

/// Whether colour output is on, from the values of `NO_COLOR`, `CLICOLOR`,
/// `TERM` and `FORCE_COLOR` (each `None` when unset) and whether standard
/// output is a terminal.
pub open spec fn color_enabled_spec(
    no_color: Option<Seq<char>>,
    clicolor: Option<Seq<char>>,
    term: Option<Seq<char>>,
    force_color: Option<Seq<char>>,
    output_is_terminal: bool,
) -> bool {
    let no_color_set = no_color matches Some(v) && !is_blank(v);
    let clicolor_disabled = clicolor matches Some(v) && trim(v) == seq!['0'];
    let is_dumb_term = term matches Some(v) && trim(v) == seq!['d', 'u', 'm', 'b'];
    let force: Option<bool> = match force_color {
        None => None,
        Some(v) => if trim(v).len() == 0 {
            None
        } else if trim(v) == seq!['0'] {
            Some(false)
        } else {
            Some(true)
        },
    };
    if no_color_set {
        false
    } else if clicolor_disabled {
        false
    } else if is_dumb_term && force != Some(true) {
        false
    } else {
        match force {
            Some(b) => b,
            None => output_is_terminal,
        }
    }
}

/// Decides whether colour output is on (see [`color_enabled_spec`]).
pub fn color_enabled(
    no_color: Option<&str>,
    clicolor: Option<&str>,
    term: Option<&str>,
    force_color: Option<&str>,
    output_is_terminal: bool,
) -> (res: bool)
    ensures
        res == color_enabled_spec(
            opt_view(no_color),
            opt_view(clicolor),
            opt_view(term),
            opt_view(force_color),
            output_is_terminal,
        ),
{
    proof {
        reveal_strlit("0");
        reveal_strlit("dumb");
        reveal_strlit("");
        assert("0"@ =~= seq!['0']);
        assert("dumb"@ =~= seq!['d', 'u', 'm', 'b']);
        assert(""@ =~= Seq::<char>::empty());
    }
    let no_color_set = match no_color {
        Some(v) => !is_blank_str(v),
        None => false,
    };
    if no_color_set {
        return false;
    }
    let clicolor_disabled = match clicolor {
        Some(v) => {
            let t = trim_str(v);
            str_eq(t.as_str(), "0")
        },
        None => false,
    };
    if clicolor_disabled {
        return false;
    }
    let is_dumb_term = match term {
        Some(v) => {
            let t = trim_str(v);
            str_eq(t.as_str(), "dumb")
        },
        None => false,
    };
    let force: Option<bool> = match force_color {
        None => None,
        Some(v) => {
            let t = trim_str(v);
            if t.as_str().is_empty() {
                None
            } else if str_eq(t.as_str(), "0") {
                Some(false)
            } else {
                Some(true)
            }
        },
    };
    let forced_on = match force {
        Some(b) => b,
        None => false,
    };
    if is_dumb_term && !forced_on {
        return false;
    }
    match force {
        Some(b) => b,
        None => output_is_terminal,
    }
}

/// The views of an optional string.
pub open spec fn opt_view(s: Option<&str>) -> Option<Seq<char>> {
    match s {
        Some(v) => Some(v@),
        None => None,
    }
}

pub open spec fn hex_val(c: char) -> int {
    if '0' <= c && c <= '9' {
        c as int - '0' as int
    } else if 'a' <= c && c <= 'f' {
        c as int - 'a' as int + 10
    } else if 'A' <= c && c <= 'F' {
        c as int - 'A' as int + 10
    } else {
        -1
    }
}

pub open spec fn is_hex(c: char) -> bool {
    hex_val(c) >= 0
}

/// `u8::from_str_radix(pair, 16)` for a two-character text: an optional `+`
/// then hex digits.
pub open spec fn hex_pair(a: char, b: char) -> Option<u8> {
    if a == '+' {
        if is_hex(b) {
            Some(hex_val(b) as u8)
        } else {
            None
        }
    } else if is_hex(a) && is_hex(b) {
        Some((hex_val(a) * 16 + hex_val(b)) as u8)
    } else {
        None
    }
}

/// Number of leading `#` characters.
pub open spec fn lead_hashes(s: Seq<char>) -> nat
    decreases s.len(),
{
    if s.len() > 0 && s[0] == '#' {
        1 + lead_hashes(s.drop_first())
    } else {
        0
    }
}

/// The six hex digits that a colour text stands for: `#abc` doubles each
/// digit, `#aabbcc` is kept; surrounding whitespace and leading `#` are dropped.
pub open spec fn hex_digits_of(hex: Seq<char>) -> Option<Seq<char>> {
    let t = trim(hex);
    let n = t.skip(lead_hashes(t) as int);
    if n.len() == 3 {
        Some(seq![n[0], n[0], n[1], n[1], n[2], n[2]])
    } else if n.len() == 6 {
        Some(n)
    } else {
        None
    }
}

pub open spec fn parse_hex_rgb_spec(hex: Seq<char>) -> Option<(u8, u8, u8)> {
    match hex_digits_of(hex) {
        None => None,
        Some(f) => match (hex_pair(f[0], f[1]), hex_pair(f[2], f[3]), hex_pair(f[4], f[5])) {
            (Some(r), Some(g), Some(b)) => Some((r, g, b)),
            _ => None,
        },
    }
}

pub open spec fn is_ascii_text(s: Seq<char>) -> bool {
    forall|i: int| 0 <= i < s.len() ==> (#[trigger] s[i] as u32) < 128
}

fn hex_val_exec(c: char) -> (res: i32)
    ensures
        res == hex_val(c),
{
    if '0' <= c && c <= '9' {
        (c as u32 - '0' as u32) as i32
    } else if 'a' <= c && c <= 'f' {
        (c as u32 - 'a' as u32 + 10) as i32
    } else if 'A' <= c && c <= 'F' {
        (c as u32 - 'A' as u32 + 10) as i32
    } else {
        -1
    }
}

fn hex_pair_exec(a: char, b: char) -> (res: Option<u8>)
    ensures
        res == hex_pair(a, b),
{
    let vb = hex_val_exec(b);
    if a == '+' {
        if vb >= 0 {
            Some(vb as u8)
        } else {
            None
        }
    } else {
        let va = hex_val_exec(a);
        if va >= 0 && vb >= 0 {
            Some((va * 16 + vb) as u8)
        } else {
            None
        }
    }
}

/// Parses `#rgb` or `#rrggbb` into its three channels. The text must be
/// ASCII, as the channels are read by byte position.
fn parse_hex_rgb(hex: &str) -> (res: Option<(u8, u8, u8)>)
    requires
        is_ascii_text(hex@),
    ensures
        res == parse_hex_rgb_spec(hex@),
{
    let t = trim_str(hex);
    let v = chars_of(t.as_str());
    let mut k: usize = 0;
    assert(v@.skip(0) == v@);
    while k < v.len() && v[k] == '#'
        invariant
            k <= v.len(),
            v@ == trim(hex@),
            lead_hashes(v@) == k + lead_hashes(v@.skip(k as int)),
        decreases v.len() - k,
    {
        assert(v@.skip(k as int).drop_first() == v@.skip(k + 1));
        k = k + 1;
    }
    assert(lead_hashes(v@.skip(k as int)) == 0);
    let n = v.len() - k;
    let f: Vec<char> = if n == 3 {
        let mut f: Vec<char> = Vec::new();
        f.push(v[k]);
        f.push(v[k]);
        f.push(v[k + 1]);
        f.push(v[k + 1]);
        f.push(v[k + 2]);
        f.push(v[k + 2]);
        f
    } else if n == 6 {
        let mut f: Vec<char> = Vec::new();
        let mut i: usize = 0;
        while i < 6
            invariant
                i <= 6,
                k + 6 == v.len(),
                f@ == v@.skip(k as int).take(i as int),
            decreases 6 - i,
        {
            f.push(v[k + i]);
            assert(v@.skip(k as int).take(i + 1) == v@.skip(k as int).take(i as int).push(v@[k + i]));
            i = i + 1;
        }
        f
    } else {
        return None;
    };
    assert(hex_digits_of(hex@) == Some(f@));
    match (hex_pair_exec(f[0], f[1]), hex_pair_exec(f[2], f[3]), hex_pair_exec(f[4], f[5])) {
        (Some(r), Some(g), Some(b)) => Some((r, g, b)),
        _ => None,
    }
}

/// `text` drawn in a 24-bit foreground (`fg` true) or background colour.
pub open spec fn rgb_styled(fg: bool, r: u8, g: u8, b: u8, text: Seq<char>) -> Seq<char> {
    seq!['\u{1b}', '['] + (if fg {
        seq!['3', '8']
    } else {
        seq!['4', '8']
    }) + seq![';', '2', ';'] + dec(r as nat) + seq![';'] + dec(g as nat) + seq![';'] + dec(
        b as nat,
    ) + seq!['m'] + text + seq!['\u{1b}', '[', '0', 'm']
}

/// What colouring `text` with the colour `hex` gives.
pub open spec fn color_hex_spec(use_color: bool, fg: bool, hex: Seq<char>, text: Seq<char>) -> Seq<
    char,
> {
    if !use_color {
        text
    } else {
        match parse_hex_rgb_spec(hex) {
            None => text,
            Some((r, g, b)) => rgb_styled(fg, r, g, b, text),
        }
    }
}

fn color_hex(use_color: bool, fg: bool, hex: &str, text: &str) -> (res: String)
    requires
        is_ascii_text(hex@),
    ensures
        res@ == color_hex_spec(use_color, fg, hex@, text@),
{
    if !use_color {
        return owned(text);
    }
    let Some((r, g, b)) = parse_hex_rgb(hex) else {
        return owned(text);
    };
    proof {
        reveal_strlit("\u{1b}[38;2;");
        reveal_strlit("\u{1b}[48;2;");
        reveal_strlit(";");
        reveal_strlit("m");
        reveal_strlit("\u{1b}[0m");
    }
    let mut out = if fg {
        owned("\u{1b}[38;2;")
    } else {
        owned("\u{1b}[48;2;")
    };
    push_str(&mut out, u64_to_dec(r as u64).as_str());
    push_str(&mut out, ";");
    push_str(&mut out, u64_to_dec(g as u64).as_str());
    push_str(&mut out, ";");
    push_str(&mut out, u64_to_dec(b as u64).as_str());
    push_str(&mut out, "m");
    push_str(&mut out, text);
    push_str(&mut out, "\u{1b}[0m");
    assert(out@ =~= rgb_styled(fg, r, g, b, text@));
    out
}

proof fn lemma_palette_ascii()
    ensures
        is_ascii_text("#22c55e"@),
        is_ascii_text("#eab308"@),
        is_ascii_text("#ff2323"@),
        is_ascii_text("#3b82f6"@),
        is_ascii_text("#38bdf8"@),
{
    reveal_strlit("#22c55e");
    reveal_strlit("#eab308");
    reveal_strlit("#ff2323");
    reveal_strlit("#3b82f6");
    reveal_strlit("#38bdf8");
}

/// Green (`#22c55e`) text, when colour is on.
pub fn success(text: &str, use_color: bool) -> (res: String)
    ensures
        res@ == color_hex_spec(use_color, true, "#22c55e"@, text@),
{
    proof {
        lemma_palette_ascii();
    }
    color_hex(use_color, true, "#22c55e", text)
}

/// Yellow (`#eab308`) text, when colour is on.
pub fn warn(text: &str, use_color: bool) -> (res: String)
    ensures
        res@ == color_hex_spec(use_color, true, "#eab308"@, text@),
{
    proof {
        lemma_palette_ascii();
    }
    color_hex(use_color, true, "#eab308", text)
}

/// Red (`#ff2323`) text, when colour is on.
pub fn failure(text: &str, use_color: bool) -> (res: String)
    ensures
        res@ == color_hex_spec(use_color, true, "#ff2323"@, text@),
{
    proof {
        lemma_palette_ascii();
    }
    color_hex(use_color, true, "#ff2323", text)
}

/// Blue (`#3b82f6`) text, when colour is on.
pub fn run(text: &str, use_color: bool) -> (res: String)
    ensures
        res@ == color_hex_spec(use_color, true, "#3b82f6"@, text@),
{
    proof {
        lemma_palette_ascii();
    }
    color_hex(use_color, true, "#3b82f6", text)
}

/// Skipped tests share the warning colour.
pub fn skip(text: &str, use_color: bool) -> (res: String)
    ensures
        res@ == color_hex_spec(use_color, true, "#eab308"@, text@),
{
    warn(text, use_color)
}

/// Sky blue (`#38bdf8`) text, when colour is on.
pub fn todo(text: &str, use_color: bool) -> (res: String)
    ensures
        res@ == color_hex_spec(use_color, true, "#38bdf8"@, text@),
{
    proof {
        lemma_palette_ascii();
    }
    color_hex(use_color, true, "#38bdf8", text)
}

/// Text on a green (`#22c55e`) background, when colour is on.
pub fn bg_success(text: &str, use_color: bool) -> (res: String)
    ensures
        res@ == color_hex_spec(use_color, false, "#22c55e"@, text@),
{
    proof {
        lemma_palette_ascii();
    }
    color_hex(use_color, false, "#22c55e", text)
}

/// Text on a red (`#ff2323`) background, when colour is on.
pub fn bg_failure(text: &str, use_color: bool) -> (res: String)
    ensures
        res@ == color_hex_spec(use_color, false, "#ff2323"@, text@),
{
    proof {
        lemma_palette_ascii();
    }
    color_hex(use_color, false, "#ff2323", text)
}

/// Text on a blue (`#3b82f6`) background, when colour is on.
pub fn bg_run(text: &str, use_color: bool) -> (res: String)
    ensures
        res@ == color_hex_spec(use_color, false, "#3b82f6"@, text@),
{
    proof {
        lemma_palette_ascii();
    }
    color_hex(use_color, false, "#3b82f6", text)
}

/// With colour off, every colour function hands the text back unchanged.
pub proof fn law_no_color_is_identity(hex: Seq<char>, fg: bool, text: Seq<char>)
    ensures
        color_hex_spec(false, fg, hex, text) == text,
{
}

/// `NO_COLOR` set to a non-blank value turns colour off whatever else is set.
pub proof fn law_no_color_wins(
    no_color: Seq<char>,
    clicolor: Option<Seq<char>>,
    term: Option<Seq<char>>,
    force_color: Option<Seq<char>>,
    output_is_terminal: bool,
)
    requires
        !is_blank(no_color),
    ensures
        !color_enabled_spec(Some(no_color), clicolor, term, force_color, output_is_terminal),
{
}

} // verus!
