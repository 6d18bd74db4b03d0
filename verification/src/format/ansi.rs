//! ANSI escape sequences that style terminal text.
use vstd::prelude::*;

verus! {

/// `text` between an opening and a closing escape sequence.
pub open spec fn styled(open: Seq<char>, text: Seq<char>, close: Seq<char>) -> Seq<char> {
    open + text + close
}

/// The select-graphic-rendition sequence `ESC [ code m`.
pub open spec fn sgr(code: Seq<char>) -> Seq<char> {
    seq!['\u{1b}', '['] + code + seq!['m']
}

fn wrap(open: &str, text: &str, close: &str) -> (res: String)
    ensures
        res@ == styled(open@, text@, close@),
{
    crate::text::concat3(open, text, close)
}

/// `text` in the `bold` style: `ESC[1m` before it and `ESC[22m` after it.
pub fn bold(text: &str) -> (res: String)
    ensures
        res@ == styled("\u{1b}[1m"@, text@, "\u{1b}[22m"@),
{
    wrap("\u{1b}[1m", text, "\u{1b}[22m")
}

/// `text` in the `dim` style: `ESC[2m` before it and `ESC[22m` after it.
pub fn dim(text: &str) -> (res: String)
    ensures
        res@ == styled("\u{1b}[2m"@, text@, "\u{1b}[22m"@),
{
    wrap("\u{1b}[2m", text, "\u{1b}[22m")
}

/// `text` in the `black` style: `ESC[30m` before it and `ESC[39m` after it.
pub fn black(text: &str) -> (res: String)
    ensures
        res@ == styled("\u{1b}[30m"@, text@, "\u{1b}[39m"@),
{
    wrap("\u{1b}[30m", text, "\u{1b}[39m")
}

/// `text` in the `red` style: `ESC[31m` before it and `ESC[39m` after it.
pub fn red(text: &str) -> (res: String)
    ensures
        res@ == styled("\u{1b}[31m"@, text@, "\u{1b}[39m"@),
{
    wrap("\u{1b}[31m", text, "\u{1b}[39m")
}

/// `text` in the `yellow` style: `ESC[33m` before it and `ESC[39m` after it.
pub fn yellow(text: &str) -> (res: String)
    ensures
        res@ == styled("\u{1b}[33m"@, text@, "\u{1b}[39m"@),
{
    wrap("\u{1b}[33m", text, "\u{1b}[39m")
}

/// `text` in the `green` style: `ESC[32m` before it and `ESC[39m` after it.
pub fn green(text: &str) -> (res: String)
    ensures
        res@ == styled("\u{1b}[32m"@, text@, "\u{1b}[39m"@),
{
    wrap("\u{1b}[32m", text, "\u{1b}[39m")
}

/// `text` in the `magenta` style: `ESC[35m` before it and `ESC[39m` after it.
pub fn magenta(text: &str) -> (res: String)
    ensures
        res@ == styled("\u{1b}[35m"@, text@, "\u{1b}[39m"@),
{
    wrap("\u{1b}[35m", text, "\u{1b}[39m")
}

/// `text` in the `gray` style: `ESC[90m` before it and `ESC[39m` after it.
pub fn gray(text: &str) -> (res: String)
    ensures
        res@ == styled("\u{1b}[90m"@, text@, "\u{1b}[39m"@),
{
    wrap("\u{1b}[90m", text, "\u{1b}[39m")
}

/// `text` in the `cyan` style: `ESC[36m` before it and `ESC[39m` after it.
pub fn cyan(text: &str) -> (res: String)
    ensures
        res@ == styled("\u{1b}[36m"@, text@, "\u{1b}[39m"@),
{
    wrap("\u{1b}[36m", text, "\u{1b}[39m")
}

/// `text` in the `white` style: `ESC[97m` before it and `ESC[39m` after it.
pub fn white(text: &str) -> (res: String)
    ensures
        res@ == styled("\u{1b}[97m"@, text@, "\u{1b}[39m"@),
{
    wrap("\u{1b}[97m", text, "\u{1b}[39m")
}

/// `text` in the `bg_red` style: `ESC[41m` before it and `ESC[49m` after it.
pub fn bg_red(text: &str) -> (res: String)
    ensures
        res@ == styled("\u{1b}[41m"@, text@, "\u{1b}[49m"@),
{
    wrap("\u{1b}[41m", text, "\u{1b}[49m")
}

/// `text` in the `bg_green` style: `ESC[42m` before it and `ESC[49m` after it.
pub fn bg_green(text: &str) -> (res: String)
    ensures
        res@ == styled("\u{1b}[42m"@, text@, "\u{1b}[49m"@),
{
    wrap("\u{1b}[42m", text, "\u{1b}[49m")
}

/// `text` in the `bg_magenta` style: `ESC[45m` before it and `ESC[49m` after it.
pub fn bg_magenta(text: &str) -> (res: String)
    ensures
        res@ == styled("\u{1b}[45m"@, text@, "\u{1b}[49m"@),
{
    wrap("\u{1b}[45m", text, "\u{1b}[49m")
}

/// `text` in the `bg_cyan` style: `ESC[46m` before it and `ESC[49m` after it.
pub fn bg_cyan(text: &str) -> (res: String)
    ensures
        res@ == styled("\u{1b}[46m"@, text@, "\u{1b}[49m"@),
{
    wrap("\u{1b}[46m", text, "\u{1b}[49m")
}

/// `text` in the `bg_gray` style: `ESC[100m` before it and `ESC[49m` after it.
pub fn bg_gray(text: &str) -> (res: String)
    ensures
        res@ == styled("\u{1b}[100m"@, text@, "\u{1b}[49m"@),
{
    wrap("\u{1b}[100m", text, "\u{1b}[49m")
}

/// `text` as a terminal hyperlink (OSC 8) to `url`.
pub open spec fn osc8_spec(text: Seq<char>, url: Seq<char>) -> Seq<char> {
    "\u{1b}]8;;"@ + url + "\u{7}"@ + text + "\u{1b}]8;;\u{7}"@
}

/// An OSC 8 hyperlink to `url` labelled `text`.
pub fn osc8(text: &str, url: &str) -> (res: String)
    ensures
        res@ == osc8_spec(text@, url@),
{
    let mut out = crate::text::concat3("\u{1b}]8;;", url, "\u{7}");
    crate::text::push_str(&mut out, text);
    crate::text::push_str(&mut out, "\u{1b}]8;;\u{7}");
    out
}

} // verus!
