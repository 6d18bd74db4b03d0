//! Live progress while a runner works: which mode to show, the hint taken
//! from a runner's output line, and the text of a progress frame.
use crate::format::stacks::{ansi_stripped, is_plain_text, strip_ansi_simple};
use crate::format::time::{format_duration, format_duration_at_least, pretty_duration, Duration, TimeUnit};
use crate::test_model::opt_seq;
use crate::text::{
    parse_u64_spec, parse_u64_str,
    ascii_lower, ascii_lower_str, chars_of, concat2, contains, contains_str, dec, is_blank,
    is_blank_str, is_ws, is_ws_char, join, lemma_split_char_empty, lemma_split_char_joined,
    lemma_split_char_nonempty, lemma_split_char_push, lines, owned, push_char, push_str, split_char,
    split_char_str, starts_with, starts_with_str, str_eq, string_of_range, trim, trim_str,
    u64_to_dec, views,
};
use vstd::prelude::*;

verus! {

/// How progress is shown.
#[derive(Debug, Clone, Copy, PartialEq, Eq, Structural)]
pub enum LiveProgressMode {
    Off,
    Plain,
    Interactive,
}

/// The mode for a run: plain in CI (asked for, or `CI` set in the
/// environment), interactive on a terminal, off otherwise.
pub fn live_progress_mode_with_env_ci(stdout_is_tty: bool, ci: bool, env_ci: bool) -> (res:
    LiveProgressMode)
    ensures
        (ci || env_ci) ==> res == LiveProgressMode::Plain,
        (!ci && !env_ci && stdout_is_tty) ==> res == LiveProgressMode::Interactive,
        (!ci && !env_ci && !stdout_is_tty) ==> res == LiveProgressMode::Off,
{
    if ci || env_ci {
        return LiveProgressMode::Plain;
    }
    if stdout_is_tty && !env_ci {
        return LiveProgressMode::Interactive;
    }
    LiveProgressMode::Off
}

/// The fields of a JSON object line that progress reads: `type`, `event`,
/// `name`, and `crate`, `test_binary`, `kind` under `nextest`; each is the
/// empty text when missing or not a string.
#[derive(Debug, Clone)]
pub struct JsonEventFields {
    pub ty: String,
    pub event: String,
    pub name: String,
    pub nextest_crate: String,
    pub nextest_test_binary: String,
    pub nextest_kind: String,
}

/// Number of leading whitespace characters.
pub open spec fn ws_len(s: Seq<char>) -> nat
    decreases s.len(),
{
    if s.len() > 0 && is_ws(s[0]) {
        1 + ws_len(s.drop_first())
    } else {
        0
    }
}

/// Number of leading characters that are not whitespace.
pub open spec fn nonws_len(s: Seq<char>) -> nat
    decreases s.len(),
{
    if s.len() > 0 && !is_ws(s[0]) {
        1 + nonws_len(s.drop_first())
    } else {
        0
    }
}

/// `str::split_whitespace`: the non-empty runs of non-whitespace.
pub open spec fn words(s: Seq<char>) -> Seq<Seq<char>>
    decreases s.len(),
{
    let t = s.skip(ws_len(s) as int);
    if t.len() == 0 {
        Seq::empty()
    } else {
        let n = nonws_len(t);
        if n == 0 {
            Seq::empty()
        } else {
            proof {
                lemma_ws_len_bound(s);
                lemma_nonws_len_bound(t);
            }
            seq![t.take(n as int)] + words(t.skip(n as int))
        }
    }
}

/// The longest hint shown: six terminal widths, between 120 and 1200.
pub open spec fn max_hint_chars(columns: nat) -> nat {
    let m = if columns * 6 > usize::MAX {
        usize::MAX as nat
    } else {
        columns * 6
    };
    if m < 120 {
        120
    } else if m > 1200 {
        1200
    } else {
        m
    }
}

/// Whitespace runs collapsed to one space, cut to the longest hint.
pub open spec fn trim_hint_spec(raw: Seq<char>, columns: nat) -> Seq<char> {
    let compact = join(words(raw), seq![' ']);
    if compact.len() <= max_hint_chars(columns) {
        compact
    } else {
        compact.take(max_hint_chars(columns) as int)
    }
}

pub proof fn lemma_ws_len_bound(s: Seq<char>)
    ensures
        ws_len(s) <= s.len(),
    decreases s.len(),
{
    if s.len() > 0 && is_ws(s[0]) {
        lemma_ws_len_bound(s.drop_first());
    }
}

pub proof fn lemma_nonws_len_bound(s: Seq<char>)
    ensures
        nonws_len(s) <= s.len(),
    decreases s.len(),
{
    if s.len() > 0 && !is_ws(s[0]) {
        lemma_nonws_len_bound(s.drop_first());
    }
}

/// `s.split_whitespace()`.
pub fn split_whitespace_str(s: &str) -> (res: Vec<String>)
    ensures
        views(res@) == words(s@),
{
    let v = chars_of(s);
    let mut out: Vec<String> = Vec::new();
    let mut pos: usize = 0;
    assert(s@.skip(0) == s@);
    assert(views(out@) =~= Seq::<Seq<char>>::empty());
    while pos < v.len()
        invariant
            pos <= v.len(),
            v@ == s@,
            words(s@) == views(out@) + words(s@.skip(pos as int)),
        decreases v.len() - pos,
    {
        let ghost rest = s@.skip(pos as int);
        let mut a = pos;
        while a < v.len() && is_ws_char(v[a])
            invariant
                pos <= a <= v.len(),
                v@ == s@,
                ws_len(rest) == (a - pos) + ws_len(s@.skip(a as int)),
            decreases v.len() - a,
        {
            assert(s@.skip(a as int).drop_first() == s@.skip(a + 1));
            a = a + 1;
        }
        assert(ws_len(s@.skip(a as int)) == 0);
        assert(rest.skip(ws_len(rest) as int) == s@.skip(a as int));
        let mut b = a;
        while b < v.len() && !is_ws_char(v[b])
            invariant
                a <= b <= v.len(),
                v@ == s@,
                nonws_len(s@.skip(a as int)) == (b - a) + nonws_len(s@.skip(b as int)),
            decreases v.len() - b,
        {
            assert(s@.skip(b as int).drop_first() == s@.skip(b + 1));
            b = b + 1;
        }
        assert(nonws_len(s@.skip(b as int)) == 0);
        if a == b {
            assert(s@.skip(a as int).len() == 0 || nonws_len(s@.skip(a as int)) == 0);
            assert(words(rest) == Seq::<Seq<char>>::empty());
            assert(s@.skip(v.len() as int) =~= Seq::<char>::empty());
            assert(words(s@.skip(v.len() as int)) == Seq::<Seq<char>>::empty());
            assert(views(out@) + Seq::<Seq<char>>::empty() =~= views(out@));
            pos = v.len();
        } else {
            let ghost before = views(out@);
            let w = string_of_range(&v, a, b);
            out.push(w);
            assert(views(out@) =~= before.push(w@));
            assert(s@.skip(a as int).take((b - a) as int) == w@);
            assert(s@.skip(a as int).skip((b - a) as int) == s@.skip(b as int));
            assert(words(rest) == seq![w@] + words(s@.skip(b as int)));
            assert(views(out@) + words(s@.skip(b as int)) =~= before + (seq![w@] + words(
                s@.skip(b as int),
            )));
            pos = b;
        }
    }
    assert(s@.skip(pos as int) =~= Seq::<char>::empty());
    assert(views(out@) + words(s@.skip(pos as int)) =~= views(out@));
    out
}

/// Whitespace runs of `raw` collapsed to one space, cut to the longest hint
/// for a terminal of `columns` columns.
pub fn trim_hint(raw: &str, columns: usize) -> (res: String)
    ensures
        res@ == trim_hint_spec(raw@, columns as nat),
{
    let ws = split_whitespace_str(raw);
    proof {
        reveal_strlit(" ");
        assert(" "@ =~= seq![' ']);
    }
    let compact = crate::text::join_strs(&ws, " ");
    let m: usize = if columns > usize::MAX / 6 {
        usize::MAX
    } else {
        columns * 6
    };
    let max_chars: usize = if m < 120 {
        120
    } else if m > 1200 {
        1200
    } else {
        m
    };
    let cv = chars_of(compact.as_str());
    if cv.len() <= max_chars {
        return compact;
    }
    string_of_range(&cv, 0, max_chars)
}

/// The hint of a JSON event line: `<type> <event>: <name>` for a test event,
/// `suite <event>: ...` for a suite event, the line itself when it mentions a
/// failure, an error or a panic.
pub open spec fn json_hint_spec(line: Seq<char>, fields: Option<JsonFieldsView>, columns: nat) -> Option<
    Seq<char>,
> {
    let s = trim(line);
    if !starts_with(s, seq!['{']) {
        None
    } else {
        match fields {
            None => None,
            Some(f) => if f.event.len() > 0 && f.name.len() > 0 {
                let tag = if f.ty.len() == 0 {
                    "event"@
                } else {
                    f.ty
                };
                Some(trim_hint_spec(tag + seq![' '] + f.event + ": "@ + f.name, columns))
            } else if f.ty == "suite"@ && f.event.len() > 0 {
                let label = if f.nextest_crate.len() > 0 && f.nextest_test_binary.len() > 0 {
                    f.nextest_crate + "::"@ + f.nextest_test_binary
                } else if f.nextest_test_binary.len() > 0 {
                    f.nextest_test_binary
                } else {
                    Seq::empty()
                };
                let kind_prefix = if f.nextest_kind.len() == 0 {
                    Seq::empty()
                } else {
                    f.nextest_kind + seq![' ']
                };
                if label.len() > 0 {
                    Some(trim_hint_spec("suite "@ + f.event + ": "@ + kind_prefix + label, columns))
                } else {
                    Some(trim_hint_spec("suite "@ + f.event, columns))
                }
            } else {
                let lower = ascii_lower(s);
                if contains(lower, "failed"@) || contains(lower, "error"@) || contains(lower, "panic"@) {
                    Some(trim_hint_spec(s, columns))
                } else {
                    None
                }
            },
        }
    }
}

pub struct JsonFieldsView {
    pub ty: Seq<char>,
    pub event: Seq<char>,
    pub name: Seq<char>,
    pub nextest_crate: Seq<char>,
    pub nextest_test_binary: Seq<char>,
    pub nextest_kind: Seq<char>,
}

pub open spec fn fields_view(f: Option<JsonEventFields>) -> Option<JsonFieldsView> {
    match f {
        Some(x) => Some(
            JsonFieldsView {
                ty: x.ty@,
                event: x.event@,
                name: x.name@,
                nextest_crate: x.nextest_crate@,
                nextest_test_binary: x.nextest_test_binary@,
                nextest_kind: x.nextest_kind@,
            },
        ),
        None => None,
    }
}

fn json_hint(line: &str, fields: &Option<JsonEventFields>, columns: usize) -> (res: Option<String>)
    ensures
        opt_seq(res) == json_hint_spec(line@, fields_view(*fields), columns as nat),
{
    proof {
        reveal_strlit("{");
        assert("{"@ =~= seq!['{']);
        reveal_strlit(" ");
        assert(" "@ =~= seq![' ']);
    }
    let s = trim_str(line);
    if !starts_with_str(s.as_str(), "{") {
        return None;
    }
    let f = match fields {
        Some(f) => f,
        None => {
            return None;
        },
    };
    if !f.event.as_str().is_empty() && !f.name.as_str().is_empty() {
        let tag = if f.ty.as_str().is_empty() {
            owned("event")
        } else {
            owned(f.ty.as_str())
        };
        let mut text = concat2(tag.as_str(), " ");
        push_str(&mut text, f.event.as_str());
        push_str(&mut text, ": ");
        push_str(&mut text, f.name.as_str());
        return Some(trim_hint(text.as_str(), columns));
    }
    if str_eq(f.ty.as_str(), "suite") && !f.event.as_str().is_empty() {
        let label = if !f.nextest_crate.as_str().is_empty() && !f.nextest_test_binary.as_str().is_empty() {
            crate::text::concat3(f.nextest_crate.as_str(), "::", f.nextest_test_binary.as_str())
        } else if !f.nextest_test_binary.as_str().is_empty() {
            owned(f.nextest_test_binary.as_str())
        } else {
            String::new()
        };
        let kind_prefix = if f.nextest_kind.as_str().is_empty() {
            String::new()
        } else {
            concat2(f.nextest_kind.as_str(), " ")
        };
        if !label.as_str().is_empty() {
            let mut text = concat2("suite ", f.event.as_str());
            push_str(&mut text, ": ");
            push_str(&mut text, kind_prefix.as_str());
            push_str(&mut text, label.as_str());
            return Some(trim_hint(text.as_str(), columns));
        }
        let text = concat2("suite ", f.event.as_str());
        return Some(trim_hint(text.as_str(), columns));
    }
    let lower = ascii_lower_str(s.as_str());
    if contains_str(lower.as_str(), "failed") || contains_str(lower.as_str(), "error") || contains_str(
        lower.as_str(),
        "panic",
    ) {
        return Some(trim_hint(s.as_str(), columns));
    }
    None
}

/// The prefixes that mark a line worth showing as it is.
pub open spec fn hint_prefixes() -> Seq<Seq<char>> {
    seq![
        "START "@,
        "RUNS "@,
        "PASS "@,
        "FAIL "@,
        "Compiling "@,
        "Finished "@,
        "Running "@,
        "test "@,
        "error:"@,
    ]
}

/// A line is worth showing when it has a known prefix or mentions a
/// download, install, build, run or failure.
pub open spec fn progress_line_matches(s: Seq<char>) -> bool {
    let lower = ascii_lower(s);
    (exists|k: int| 0 <= k < hint_prefixes().len() && starts_with(s, #[trigger] hint_prefixes()[k]))
        || contains(lower, "downloading"@) || contains(lower, "installing"@) || contains(
        lower,
        "resolving"@,
    ) || contains(lower, "collecting"@) || contains(lower, "building"@) || contains(
        lower,
        "compiling"@,
    ) || contains(lower, "running"@) || contains(lower, "executing"@) || contains(lower, "failed"@)
        || contains(lower, "fail "@) || contains(lower, "timeout"@)
}

/// The progress hint of a runner output line (`fields` are the JSON fields
/// of the trimmed line when it is a JSON object).
pub open spec fn classify_spec(line: Seq<char>, fields: Option<JsonFieldsView>, columns: nat) -> Option<
    Seq<char>,
> {
    let s = trim(line);
    if s.len() == 0 {
        None
    } else if json_hint_spec(s, fields, columns) is Some {
        json_hint_spec(s, fields, columns)
    } else if progress_line_matches(s) {
        Some(trim_hint_spec(s, columns))
    } else {
        None
    }
}

/// The hint that progress shows for a line of runner output, if any,
/// given the JSON fields of the trimmed line when it is a JSON object.
pub fn classify_runner_line_with_fields(line: &str, fields: &Option<JsonEventFields>, columns: usize) -> (res:
    Option<String>)
    ensures
        opt_seq(res) == classify_spec(line@, fields_view(*fields), columns as nat),
{
    let s = trim_str(line);
    if s.as_str().is_empty() {
        return None;
    }
    proof {
        assert(trim(trim(line@)) == trim(line@)) by {
            crate::text::lemma_trim_idempotent(line@);
        }
    }
    let j = json_hint(s.as_str(), fields, columns);
    if j.is_some() {
        return j;
    }
    let prefixes = ["START ", "RUNS ", "PASS ", "FAIL ", "Compiling ", "Finished ", "Running ", "test ", "error:"];
    let mut k: usize = 0;
    let mut found = false;
    while k < 9
        invariant
            k <= 9,
            prefixes@.len() == 9,
            forall|i: int| 0 <= i < 9 ==> (#[trigger] prefixes@[i])@ == hint_prefixes()[i],
            found == (exists|i: int| 0 <= i < k && starts_with(s@, #[trigger] hint_prefixes()[i])),
        decreases 9 - k,
    {
        if starts_with_str(s.as_str(), prefixes[k]) {
            found = true;
        }
        k = k + 1;
    }
    let lower = ascii_lower_str(s.as_str());
    let l = lower.as_str();
    if found || contains_str(l, "downloading") || contains_str(l, "installing") || contains_str(
        l,
        "resolving",
    ) || contains_str(l, "collecting") || contains_str(l, "building") || contains_str(l, "compiling")
        || contains_str(l, "running") || contains_str(l, "executing") || contains_str(l, "failed")
        || contains_str(l, "fail ") || contains_str(l, "timeout") {
        return Some(trim_hint(s.as_str(), columns));
    }
    None
}

/// The JSON pointers of the fields that progress reads.
pub open spec fn field_pointers() -> Seq<Seq<char>> {
    seq!["/type"@, "/event"@, "/name"@, "/nextest/crate"@, "/nextest/test_binary"@, "/nextest/kind"@]
}

/// What the string values at `pointers` are in the JSON object `text`, as
/// `serde_json` reads them (`None` when `text` is no JSON object; a field
/// that is missing or not a string reads as `None`).
pub uninterp spec fn json_string_fields_of(text: Seq<char>, pointers: Seq<Seq<char>>) -> Option<
    Seq<Option<Seq<char>>>,
>;

pub open spec fn opt_views(v: Seq<Option<String>>) -> Seq<Option<Seq<char>>> {
    v.map_values(|o: Option<String>| opt_seq(o))
}

pub open spec fn strs_view(v: Seq<&str>) -> Seq<Seq<char>> {
    v.map_values(|s: &str| s@)
}

/// The string values at `pointers` in the JSON object `text`: calls
/// `serde_json::from_str` into a `Value`, `Value::is_object`,
/// `Value::pointer` and `Value::as_str`. Trusted: the result is what the
/// crate reads, one entry per pointer.
#[verifier::external_body]
pub(crate) fn json_string_fields(text: &str, pointers: &[&str]) -> (res: Option<Vec<Option<String>>>)
    ensures
        match res {
            Some(v) => json_string_fields_of(text@, strs_view(pointers@)) == Some(opt_views(v@))
                && v.len() == pointers.len(),
            None => json_string_fields_of(text@, strs_view(pointers@)) is None,
        },
{
    let value: serde_json::Value = serde_json::from_str(text).ok()?;
    if !value.is_object() {
        return None;
    }
    Some(pointers.iter().map(|p| value.pointer(p).and_then(|x| x.as_str()).map(|x| x.to_string())).collect())
}

pub open spec fn or_empty_seq(o: Option<Seq<char>>) -> Seq<char> {
    match o {
        Some(s) => s,
        None => Seq::empty(),
    }
}

/// The fields of a JSON object line that progress reads (each empty when
/// missing or not a string); `None` when the text is no JSON object.
pub open spec fn fields_of_json(text: Seq<char>) -> Option<JsonFieldsView> {
    match json_string_fields_of(text, field_pointers()) {
        Some(v) => Some(
            JsonFieldsView {
                ty: or_empty_seq(v[0]),
                event: or_empty_seq(v[1]),
                name: or_empty_seq(v[2]),
                nextest_crate: or_empty_seq(v[3]),
                nextest_test_binary: or_empty_seq(v[4]),
                nextest_kind: or_empty_seq(v[5]),
            },
        ),
        None => None,
    }
}

fn or_empty_string(o: &Option<String>) -> (res: String)
    ensures
        res@ == or_empty_seq(opt_seq(*o)),
{
    match o {
        Some(s) => owned(s.as_str()),
        None => String::new(),
    }
}

/// The fields of a JSON object line that progress reads.
pub fn json_event_fields(text: &str) -> (res: Option<JsonEventFields>)
    ensures
        fields_view(res) == fields_of_json(text@),
{
    let pointers = ["/type", "/event", "/name", "/nextest/crate", "/nextest/test_binary", "/nextest/kind"];
    proof {
        assert(strs_view(pointers@) =~= field_pointers());
    }
    match json_string_fields(text, &pointers) {
        Some(v) => {
            assert(opt_views(v@)[0] == opt_seq(v@[0]));
            assert(opt_views(v@)[1] == opt_seq(v@[1]));
            assert(opt_views(v@)[2] == opt_seq(v@[2]));
            assert(opt_views(v@)[3] == opt_seq(v@[3]));
            assert(opt_views(v@)[4] == opt_seq(v@[4]));
            assert(opt_views(v@)[5] == opt_seq(v@[5]));
            Some(
                JsonEventFields {
                    ty: or_empty_string(&v[0]),
                    event: or_empty_string(&v[1]),
                    name: or_empty_string(&v[2]),
                    nextest_crate: or_empty_string(&v[3]),
                    nextest_test_binary: or_empty_string(&v[4]),
                    nextest_kind: or_empty_string(&v[5]),
                },
            )
        },
        None => None,
    }
}

/// The hint that progress shows for a line of runner output, if any: a
/// JSON event line is described by its fields, other lines are kept (with
/// whitespace collapsed) when they look like progress.
pub fn classify_runner_line_for_progress(line: &str, columns: usize) -> (res: Option<String>)
    ensures
        opt_seq(res) == classify_spec(line@, fields_of_json(trim(line@)), columns as nat),
{
    let s = trim_str(line);
    proof {
        reveal_strlit("{");
        assert("{"@ =~= seq!['{']);
    }
    let fields = if starts_with_str(s.as_str(), "{") {
        json_event_fields(s.as_str())
    } else {
        None
    };
    proof {
        crate::text::lemma_trim_idempotent(line@);
        if !starts_with(trim(line@), seq!['{']) {
            assert(json_hint_spec(trim(line@), fields_view(fields), columns as nat) is None);
            assert(json_hint_spec(trim(line@), fields_of_json(trim(line@)), columns as nat) is None);
        }
    }
    classify_runner_line_with_fields(line, &fields, columns)
}

pub open spec fn opt_str_view(o: Option<&str>) -> Option<Seq<char>> {
    match o {
        Some(e) => Some(e@),
        None => None,
    }
}

/// How many columns the terminal has: its own width when known and at
/// least 20, else the `COLUMNS` setting when it reads as a number of at
/// least 20, else 120.
pub open spec fn columns_spec(tty_width: Option<u16>, columns_env: Option<Seq<char>>) -> nat {
    match tty_width {
        Some(w) if w >= 20 => w as nat,
        _ => match columns_env {
            Some(e) => match parse_u64_spec(e) {
                Some(v) if v <= usize::MAX && v >= 20 => v as nat,
                _ => 120,
            },
            None => 120,
        },
    }
}

/// The terminal's width in columns: calls `terminal_size::terminal_size`.
/// Trusted for nothing: the answer depends on the terminal, and no
/// contract is stated.
#[verifier::external_body]
fn terminal_width() -> Option<u16> {
    terminal_size::terminal_size().map(|(terminal_size::Width(w), _)| w)
}

/// The number of columns to draw for (see [`columns_spec`]).
pub fn terminal_columns_from(tty_width: Option<u16>, columns_env: Option<&str>) -> (res: usize)
    ensures
        res == columns_spec(tty_width, opt_str_view(columns_env)),
{
    match tty_width {
        Some(w) => {
            if w >= 20 {
                return w as usize;
            }
        },
        None => {},
    }
    match columns_env {
        Some(e) => match parse_u64_str(e) {
            Some(v) => {
                if v <= usize::MAX as u64 && v >= 20 {
                    v as usize
                } else {
                    120
                }
            },
            None => 120,
        },
        None => 120,
    }
}

/// The number of columns of the terminal, falling back on `columns_env`
/// (the `COLUMNS` setting) and then on 120.
pub fn terminal_columns(columns_env: Option<&str>) -> (res: usize)
    ensures
        exists|w: Option<u16>|
            res == #[trigger] columns_spec(w, opt_str_view(columns_env)),
{
    let w = terminal_width();
    terminal_columns_from(w, columns_env)
}

/// What progress shows for a line of runner output on this terminal.
pub fn classify_runner_line_on_terminal(line: &str, columns_env: Option<&str>) -> (res: Option<String>)
    ensures
        exists|w: Option<u16>|
            opt_seq(res) == classify_spec(
                line@,
                fields_of_json(trim(line@)),
                #[trigger] columns_spec(w, opt_str_view(columns_env)),
            ),
{
    let columns = terminal_columns(columns_env);
    classify_runner_line_for_progress(line, columns)
}

/// How much a hint says about what is happening right now.
pub open spec fn hint_score_spec(hint: Seq<char>) -> int {
    if starts_with(hint, "START "@) || starts_with(hint, "RUNS "@) {
        100
    } else if starts_with(hint, "test "@) || starts_with(hint, "Running "@) {
        90
    } else if starts_with(hint, "FAIL "@) || starts_with(hint, "error:"@) || contains(
        ascii_lower(hint),
        "failed"@,
    ) {
        95
    } else if starts_with(hint, "Finished "@) {
        10
    } else {
        50
    }
}

fn hint_score(hint: &str) -> (res: i32)
    ensures
        res == hint_score_spec(hint@),
{
    if starts_with_str(hint, "START ") || starts_with_str(hint, "RUNS ") {
        return 100;
    }
    if starts_with_str(hint, "test ") || starts_with_str(hint, "Running ") {
        return 90;
    }
    if starts_with_str(hint, "FAIL ") || starts_with_str(hint, "error:") || contains_str(
        ascii_lower_str(hint).as_str(),
        "failed",
    ) {
        return 95;
    }
    if starts_with_str(hint, "Finished ") {
        return 10;
    }
    50
}

/// The recent-activity text of a frame: the last stdout and stderr hints,
/// the more telling one first.
pub open spec fn recent_summary_spec(stdout: Option<Seq<char>>, stderr: Option<Seq<char>>) -> Seq<char> {
    match (stdout, stderr) {
        (None, None) => "no activity yet"@,
        (Some(s), None) => "stdout: "@ + s,
        (None, Some(e)) => "stderr: "@ + e,
        (Some(s), Some(e)) => if hint_score_spec(e) > hint_score_spec(s) {
            "stderr: "@ + e + seq!['\n'] + "stdout: "@ + s
        } else {
            "stdout: "@ + s + seq!['\n'] + "stderr: "@ + e
        },
    }
}

pub fn recent_summary(stdout: Option<String>, stderr: Option<String>) -> (res: String)
    ensures
        res@ == recent_summary_spec(opt_seq(stdout), opt_seq(stderr)),
{
    match (stdout, stderr) {
        (None, None) => owned("no activity yet"),
        (Some(s), None) => concat2("stdout: ", s.as_str()),
        (None, Some(e)) => concat2("stderr: ", e.as_str()),
        (Some(s), Some(e)) => {
            let (first_label, first, second_label, second) = if hint_score(e.as_str()) > hint_score(
                s.as_str(),
            ) {
                ("stderr: ", e, "stdout: ", s)
            } else {
                ("stdout: ", s, "stderr: ", e)
            };
            let mut out = concat2(first_label, first.as_str());
            push_char(&mut out, '\n');
            push_str(&mut out, second_label);
            push_str(&mut out, second.as_str());
            out
        },
    }
}

/// What `unicode_width::UnicodeWidthChar::width` gives for a character.
pub uninterp spec fn char_width_of(c: char) -> Option<usize>;

/// Display width of one character: calls `UnicodeWidthChar::width`.
/// Trusted: the result is the crate's width of `c`; it is `None` exactly
/// for the control characters below U+0020 and from U+007F to U+009F,
/// printable ASCII is one column wide, and no width exceeds 3 (the
/// crate's table holds two-bit entries, its exceptions widths up to 3).
#[verifier::external_body]
fn char_width(c: char) -> (res: Option<usize>)
    ensures
        res == char_width_of(c),
        res is None <==> ((c as u32) < 0x20 || (0x7f <= (c as u32) && (c as u32) < 0xa0)),
        (0x20 <= (c as u32) && (c as u32) < 0x7f) ==> res == Some(1usize),
        res matches Some(w) ==> w <= 3,
{
    unicode_width::UnicodeWidthChar::width(c)
}

pub open spec fn width_or_zero(c: char) -> nat {
    match char_width_of(c) {
        Some(w) => w as nat,
        None => 0,
    }
}

pub open spec fn sat_usize(a: nat, b: nat) -> nat {
    if a + b > usize::MAX {
        usize::MAX as nat
    } else {
        a + b
    }
}

/// State of hard wrapping: text so far and the current column.
pub open spec fn wrap_step(acc: (Seq<char>, nat), ch: char, width: nat) -> (Seq<char>, nat) {
    let (out, col) = acc;
    if ch == '\n' {
        (out.push('\n'), 0)
    } else {
        let w = width_or_zero(ch);
        let (out2, col2) = if col > 0 && sat_usize(col, w) > width {
            (out.push('\n'), 0nat)
        } else {
            (out, col)
        };
        let c3 = sat_usize(col2, w);
        (out2.push(ch), if c3 < width {
            c3
        } else {
            width
        })
    }
}

pub open spec fn wrap_fold(text: Seq<char>, width: nat) -> (Seq<char>, nat)
    decreases text.len(),
{
    if text.len() == 0 {
        (Seq::empty(), 0)
    } else {
        wrap_step(wrap_fold(text.drop_last(), width), text.last(), width)
    }
}

/// `text` with a line break inserted before any character that would pass
/// `columns` (at least 10) display columns.
pub open spec fn hard_wrap_spec(text: Seq<char>, columns: nat) -> Seq<char> {
    wrap_fold(text, if columns < 10 {
        10
    } else {
        columns
    }).0
}

/// Every line of `s` (the pieces between line breaks) takes at most `w`
/// display columns.
pub open spec fn rows_fit(s: Seq<char>, w: nat) -> bool {
    forall|k: int|
        0 <= k < split_char(s, '\n').len() ==> display_width(#[trigger] split_char(s, '\n')[k]) <= w
}

fn hard_wrap_to_terminal_width(text: &str, columns: usize) -> (res: String)
    ensures
        res@ == hard_wrap_spec(text@, columns as nat),
        rows_fit(res@, if columns < 10 {
            10
        } else {
            columns as nat
        }),
        is_plain_text(text@) ==> is_plain_text(res@),
{
    let width: usize = if columns < 10 {
        10
    } else {
        columns
    };
    let v = chars_of(text);
    let mut out = String::new();
    let mut col: usize = 0;
    let mut i: usize = 0;
    assert(text@.take(0) =~= Seq::<char>::empty());
    proof {
        lemma_find_empty_newline();
    }
    while i < v.len()
        invariant
            i <= v.len(),
            v@ == text@,
            width >= 10,
            width == (if columns < 10 {
                10
            } else {
                columns
            }),
            wrap_fold(text@.take(i as int), width as nat) == (out@, col as nat),
            rows_fit(out@, width as nat),
            col <= width,
            display_width(split_char(out@, '\n').last()) == col,
            split_char(out@, '\n').len() >= 1,
            is_plain_text(text@) ==> is_plain_text(out@),
        decreases v.len() - i,
    {
        assert(text@.take(i + 1).drop_last() =~= text@.take(i as int));
        assert(text@.take(i + 1).last() == v@[i as int]);
        let ch = v[i];
        let ghost o0 = out@;
        if ch == '\n' {
            push_char(&mut out, '\n');
            col = 0;
            proof {
                lemma_push_newline_fit(o0, width as nat);
                if is_plain_text(text@) {
                    lemma_push_plain(o0, '\n');
                }
            }
        } else {
            let w = match char_width(ch) {
                Some(w) => w,
                None => 0,
            };
            assert(w == width_or_zero(ch));
            assert(w <= 3);
            if col > 0 && col.saturating_add(w) > width {
                let ghost o1 = out@;
                push_char(&mut out, '\n');
                col = 0;
                proof {
                    lemma_push_newline_fit(o1, width as nat);
                    if is_plain_text(text@) {
                        lemma_push_plain(o1, '\n');
                    }
                }
            }
            let ghost o2 = out@;
            let c3 = col.saturating_add(w);
            assert(c3 == sat_usize(col as nat, w as nat));
            assert(c3 <= width);
            push_char(&mut out, ch);
            proof {
                lemma_split_char_push(o2, '\n', ch);
                let p = split_char(o2, '\n');
                let q = split_char(out@, '\n');
                assert(p.last().push(ch).drop_last() =~= p.last());
                assert(display_width(p.last().push(ch)) == c3);
                assert forall|k: int| 0 <= k < q.len() implies display_width(#[trigger] q[k]) <= width as nat by {
                    if k < q.len() - 1 {
                        assert(q[k] == p[k]);
                    }
                }
                if is_plain_text(text@) {
                    assert(text@[i as int] == ch);
                    lemma_push_plain(o2, ch);
                }
            }
            col = if c3 < width {
                c3
            } else {
                width
            };
        }
        i = i + 1;
    }
    assert(text@.take(v.len() as int) == text@);
    out
}

proof fn lemma_find_empty_newline()
    ensures
        split_char(Seq::<char>::empty(), '\n') == seq![Seq::<char>::empty()],
        rows_fit(Seq::<char>::empty(), 0),
{
    lemma_split_char_empty('\n');
    assert(display_width(Seq::<char>::empty()) == 0);
}

proof fn lemma_push_newline_fit(o: Seq<char>, w: nat)
    requires
        rows_fit(o, w),
    ensures
        rows_fit(o.push('\n'), w),
        display_width(split_char(o.push('\n'), '\n').last()) == 0,
        split_char(o.push('\n'), '\n').len() >= 1,
{
    lemma_split_char_push(o, '\n', '\n');
    let p = split_char(o, '\n');
    let q = split_char(o.push('\n'), '\n');
    assert forall|k: int| 0 <= k < q.len() implies display_width(#[trigger] q[k]) <= w by {
        if k < p.len() {
            assert(q[k] == p[k]);
        }
    }
}

proof fn lemma_push_plain(o: Seq<char>, ch: char)
    requires
        is_plain_text(o),
        ch == '\n' || !crate::format::stacks::is_control_char(ch),
    ensures
        is_plain_text(o.push(ch)),
{
    assert forall|k: int| 0 <= k < o.push(ch).len() implies (#[trigger] o.push(ch)[k]) == '\n'
        || !crate::format::stacks::is_control_char(o.push(ch)[k]) by {
        if k < o.len() {
            assert(o.push(ch)[k] == o[k]);
        }
    }
}

/// Each line hard-wrapped, joined by line breaks.
pub open spec fn wrap_lines_spec(ls: Seq<Seq<char>>, columns: nat) -> Seq<char> {
    join(ls.map_values(|l: Seq<char>| hard_wrap_spec(l, columns)), seq!['\n'])
}

proof fn lemma_plain_concat(a: Seq<char>, b: Seq<char>)
    requires
        is_plain_text(a),
        is_plain_text(b),
    ensures
        is_plain_text(a + b),
{
    assert forall|k: int| 0 <= k < (a + b).len() implies (#[trigger] (a + b)[k]) == '\n'
        || !crate::format::stacks::is_control_char((a + b)[k]) by {
        if k < a.len() {
            assert((a + b)[k] == a[k]);
        } else {
            assert((a + b)[k] == b[k - a.len()]);
        }
    }
}

proof fn lemma_join_lines_fit(parts: Seq<Seq<char>>, w: nat)
    requires
        forall|k: int| 0 <= k < parts.len() ==> rows_fit(#[trigger] parts[k], w),
    ensures
        rows_fit(join(parts, seq!['\n']), w),
        (forall|k: int| 0 <= k < parts.len() ==> is_plain_text(#[trigger] parts[k])) ==> is_plain_text(
            join(parts, seq!['\n']),
        ),
    decreases parts.len(),
{
    if parts.len() == 0 {
        lemma_find_empty_newline();
        assert(display_width(Seq::<char>::empty()) == 0);
    } else if parts.len() == 1 {
        assert(rows_fit(parts[0], w));
    } else {
        let dl = parts.drop_last();
        assert forall|k: int| 0 <= k < dl.len() implies rows_fit(#[trigger] dl[k], w) by {
            assert(dl[k] == parts[k]);
        }
        lemma_join_lines_fit(dl, w);
        let a = join(dl, seq!['\n']);
        let b = parts.last();
        assert(rows_fit(b, w)) by {
            assert(b == parts[parts.len() - 1]);
        }
        lemma_split_char_joined(a, b, '\n');
        let q = split_char(a + seq!['\n'] + b, '\n');
        assert forall|k: int| 0 <= k < q.len() implies display_width(#[trigger] q[k]) <= w by {
            if k < split_char(a, '\n').len() {
                assert(q[k] == split_char(a, '\n')[k]);
            } else {
                assert(q[k] == split_char(b, '\n')[k - split_char(a, '\n').len()]);
            }
        }
        if forall|k: int| 0 <= k < parts.len() ==> is_plain_text(#[trigger] parts[k]) {
            assert forall|k: int| 0 <= k < dl.len() implies is_plain_text(#[trigger] dl[k]) by {
                assert(dl[k] == parts[k]);
            }
            assert(is_plain_text(b)) by {
                assert(b == parts[parts.len() - 1]);
            }
            assert(is_plain_text(seq!['\n']));
            lemma_plain_concat(a, seq!['\n']);
            lemma_plain_concat(a + seq!['\n'], b);
        }
    }
}

fn hard_wrap_lines_to_terminal_width(lines: &Vec<String>, columns: usize) -> (res: String)
    ensures
        res@ == wrap_lines_spec(views(lines@), columns as nat),
        rows_fit(res@, if columns < 10 {
            10
        } else {
            columns as nat
        }),
        (forall|k: int| 0 <= k < lines.len() ==> is_plain_text(#[trigger] lines@[k]@)) ==> is_plain_text(
            res@,
        ),
{
    let ghost wd: nat = if columns < 10 {
        10
    } else {
        columns as nat
    };
    let mut wrapped: Vec<String> = Vec::new();
    let mut i: usize = 0;
    while i < lines.len()
        invariant
            i <= lines.len(),
            wd == (if columns < 10 {
                10
            } else {
                columns as nat
            }),
            views(wrapped@) == views(lines@).take(i as int).map_values(
                |l: Seq<char>| hard_wrap_spec(l, columns as nat),
            ),
            wrapped.len() == i,
            forall|k: int| 0 <= k < i ==> rows_fit(#[trigger] wrapped@[k]@, wd),
            forall|k: int| 0 <= k < i ==> is_plain_text(lines@[k]@) ==> is_plain_text(#[trigger] wrapped@[k]@),
        decreases lines.len() - i,
    {
        let ghost before = views(wrapped@);
        wrapped.push(hard_wrap_to_terminal_width(lines[i].as_str(), columns));
        assert(views(wrapped@) =~= before.push(hard_wrap_spec(lines@[i as int]@, columns as nat)));
        assert(views(lines@).take(i + 1) =~= views(lines@).take(i as int).push(lines@[i as int]@));
        assert(views(wrapped@) =~= views(lines@).take(i + 1).map_values(
            |l: Seq<char>| hard_wrap_spec(l, columns as nat),
        ));
        i = i + 1;
    }
    assert(views(lines@).take(lines.len() as int) == views(lines@));
    proof {
        reveal_strlit("\n");
        assert("\n"@ =~= seq!['\n']);
        let parts = views(wrapped@);
        assert forall|k: int| 0 <= k < parts.len() implies rows_fit(#[trigger] parts[k], wd) by {
            assert(parts[k] == wrapped@[k]@);
        }
        if forall|k: int| 0 <= k < lines.len() ==> is_plain_text(#[trigger] lines@[k]@) {
            assert forall|k: int| 0 <= k < parts.len() implies is_plain_text(#[trigger] parts[k]) by {
                assert(parts[k] == wrapped@[k]@);
                assert(is_plain_text(lines@[k]@));
            }
        }
        lemma_join_lines_fit(parts, wd);
    }
    crate::text::join_strs(&wrapped, "\n")
}

/// The spinner's frames.
pub open spec fn spinner_frames() -> Seq<char> {
    seq!['\u{280b}', '\u{2819}', '\u{2839}', '\u{2838}', '\u{283c}', '\u{2834}', '\u{2826}', '\u{2827}', '\u{2807}', '\u{280f}']
}

/// What a progress frame shows.
pub struct RenderRunFrameArgs<'a> {
    pub current_label: &'a str,
    pub done_units: usize,
    pub total_units: usize,
    pub spinner_index: usize,
    pub elapsed_seconds: u64,
    pub idle_seconds: u64,
    pub recent: &'a str,
    pub columns: usize,
}

/// The two lines of an interactive frame, before wrapping.
pub open spec fn frame_lines_spec(
    current_label: Seq<char>,
    done_units: nat,
    total_units: nat,
    spinner_index: nat,
    elapsed_seconds: nat,
    idle_seconds: nat,
    recent: Seq<char>,
) -> Seq<Seq<char>> {
    let spinner = spinner_frames()[(spinner_index % 10) as int];
    let elapsed = pretty_duration(elapsed_seconds * 1_000_000_000, 2, Some(TimeUnit::Second));
    let first = "RUN ["@ + seq![spinner] + " +"@ + elapsed + "] ("@ + dec(done_units) + seq!['/'] + dec(
        total_units,
    ) + ") "@ + current_label;
    let second = if trim(recent).len() == 0 {
        "idle "@ + pretty_duration(idle_seconds * 1_000_000_000, 2, Some(TimeUnit::Second))
    } else {
        trim(recent)
    };
    seq![first, second]
}

proof fn lemma_dec_plain(n: nat)
    ensures
        is_plain_text(dec(n)),
    decreases n,
{
    if n < 10 {
        assert(dec(n) == seq![crate::text::digit_char(n)]);
    } else {
        lemma_dec_plain(n / 10);
        lemma_push_plain(dec(n / 10), crate::text::digit_char(n % 10));
    }
}

proof fn lemma_unit_plain(u: TimeUnit)
    ensures
        is_plain_text(crate::format::time::unit_suffix(u)),
        is_plain_text(crate::format::time::less_than_one(u)),
{
    let t = crate::format::time::unit_suffix(u);
    assert forall|k: int| 0 <= k < t.len() implies (#[trigger] t[k]) == '\n'
        || !crate::format::stacks::is_control_char(t[k]) by {}
    assert(is_plain_text(seq!['<', '1']));
    lemma_plain_concat(seq!['<', '1'], t);
}

proof fn lemma_component_plain(v: nat, u: TimeUnit)
    ensures
        is_plain_text(crate::format::time::component(v, u)),
{
    lemma_dec_plain(v);
    lemma_unit_plain(u);
    lemma_plain_concat(dec(v), crate::format::time::unit_suffix(u));
}

proof fn lemma_pretty_duration_plain(total: nat, max_components: nat, min_unit: Option<TimeUnit>)
    ensures
        is_plain_text(pretty_duration(total, max_components, min_unit)),
{
    lemma_unit_plain(TimeUnit::Nanosecond);
    if let Some(u) = min_unit {
        lemma_unit_plain(u);
    }
    let u1 = crate::format::time::largest_unit(total);
    let v1 = total / crate::format::time::unit_nanos(u1);
    let r1 = total % crate::format::time::unit_nanos(u1);
    lemma_component_plain(v1, u1);
    let u2 = crate::format::time::largest_unit(r1);
    let v2 = r1 / crate::format::time::unit_nanos(u2);
    let r2 = r1 % crate::format::time::unit_nanos(u2);
    lemma_component_plain(v2, u2);
    let one = crate::format::time::component(v1, u1);
    assert(is_plain_text(seq![' ']));
    lemma_plain_concat(one, seq![' ']);
    lemma_plain_concat(one + seq![' '], crate::format::time::component(v2, u2));
    let two = one + seq![' '] + crate::format::time::component(v2, u2);
    let u3 = crate::format::time::largest_unit(r2);
    let v3 = r2 / crate::format::time::unit_nanos(u3);
    lemma_component_plain(v3, u3);
    lemma_plain_concat(two, seq![' ']);
    lemma_plain_concat(two + seq![' '], crate::format::time::component(v3, u3));
}

proof fn lemma_plain_subrange(t: Seq<char>, a: int, b: int)
    requires
        is_plain_text(t),
        0 <= a <= b <= t.len(),
    ensures
        is_plain_text(t.subrange(a, b)),
{
    assert forall|k: int| 0 <= k < t.subrange(a, b).len() implies (#[trigger] t.subrange(a, b)[k]) == '\n'
        || !crate::format::stacks::is_control_char(t.subrange(a, b)[k]) by {
        assert(t.subrange(a, b)[k] == t[a + k]);
    }
}

/// With a plain label and plain recent output, both lines of a frame are
/// plain text.
proof fn lemma_frame_lines_plain(
    current_label: Seq<char>,
    done_units: nat,
    total_units: nat,
    spinner_index: nat,
    elapsed_seconds: nat,
    idle_seconds: nat,
    recent: Seq<char>,
)
    requires
        is_plain_text(current_label),
        is_plain_text(recent),
    ensures
        ({
            let fl = frame_lines_spec(
                current_label,
                done_units,
                total_units,
                spinner_index,
                elapsed_seconds,
                idle_seconds,
                recent,
            );
            &&& fl.len() == 2
            &&& is_plain_text(fl[0])
            &&& is_plain_text(fl[1])
        }),
{
    reveal_strlit("RUN [");
    reveal_strlit(" +");
    reveal_strlit("] (");
    reveal_strlit(") ");
    reveal_strlit("idle ");
    let spinner = spinner_frames()[(spinner_index % 10) as int];
    let elapsed = pretty_duration(elapsed_seconds * 1_000_000_000, 2, Some(TimeUnit::Second));
    lemma_pretty_duration_plain(elapsed_seconds * 1_000_000_000, 2, Some(TimeUnit::Second));
    lemma_pretty_duration_plain(idle_seconds * 1_000_000_000, 2, Some(TimeUnit::Second));
    lemma_dec_plain(done_units);
    lemma_dec_plain(total_units);
    assert(is_plain_text("RUN ["@));
    assert(is_plain_text(seq![spinner]));
    assert(is_plain_text(" +"@));
    assert(is_plain_text("] ("@));
    assert(is_plain_text(seq!['/']));
    assert(is_plain_text(") "@));
    assert(is_plain_text("idle "@));
    let p1 = "RUN ["@ + seq![spinner];
    lemma_plain_concat("RUN ["@, seq![spinner]);
    lemma_plain_concat(p1, " +"@);
    lemma_plain_concat(p1 + " +"@, elapsed);
    let p2 = p1 + " +"@ + elapsed;
    lemma_plain_concat(p2, "] ("@);
    lemma_plain_concat(p2 + "] ("@, dec(done_units));
    let p3 = p2 + "] ("@ + dec(done_units);
    lemma_plain_concat(p3, seq!['/']);
    lemma_plain_concat(p3 + seq!['/'], dec(total_units));
    let p4 = p3 + seq!['/'] + dec(total_units);
    lemma_plain_concat(p4, ") "@);
    lemma_plain_concat(p4 + ") "@, current_label);
    lemma_plain_concat(
        "idle "@,
        pretty_duration(idle_seconds * 1_000_000_000, 2, Some(TimeUnit::Second)),
    );
    let ts = crate::text::trim_start(recent);
    crate::text::lemma_lead_ws_bound(recent);
    crate::text::lemma_trail_ws_bound(ts);
    assert(ts == recent.subrange(crate::text::lead_ws(recent) as int, recent.len() as int));
    lemma_plain_subrange(recent, crate::text::lead_ws(recent) as int, recent.len() as int);
    assert(trim(recent) == ts.subrange(0, ts.len() - crate::text::trail_ws(ts)));
    lemma_plain_subrange(ts, 0, ts.len() - crate::text::trail_ws(ts));
}

proof fn lemma_rows_for_fit(width: nat, columns: nat)
    requires
        columns >= 1,
        width <= columns,
    ensures
        rows_for(width, columns) == 1,
{
    let c = columns as int;
    let wi = width as int;
    assert((wi + c - 1) / c <= 1) by (nonlinear_arith)
        requires
            c >= 1,
            0 <= wi <= c,
    ;
}

proof fn lemma_rows_sum_fit(ls: Seq<Seq<char>>, columns: nat)
    requires
        columns >= 1,
        ls.len() <= usize::MAX,
        forall|k: int| 0 <= k < ls.len() ==> display_width(#[trigger] ls[k]) <= columns,
    ensures
        rows_sum(ls, columns) == ls.len(),
    decreases ls.len(),
{
    if ls.len() > 0 {
        let p = ls.drop_last();
        assert forall|k: int| 0 <= k < p.len() implies display_width(#[trigger] p[k]) <= columns by {
            assert(p[k] == ls[k]);
        }
        lemma_rows_sum_fit(p, columns);
        assert(display_width(ls.last()) <= columns) by {
            assert(ls.last() == ls[ls.len() - 1]);
        }
        lemma_rows_for_fit(display_width(ls.last()), columns);
    }
}

/// A frame whose every line fits in `columns` columns takes one terminal
/// row per line.
pub proof fn law_fitting_lines_take_one_row(frame: Seq<char>, columns: nat)
    requires
        columns >= 1,
        rows_fit(frame, columns),
        split_char(frame, '\n').len() <= usize::MAX,
    ensures
        rows_sum(split_char(frame, '\n'), columns) == split_char(frame, '\n').len(),
{
    lemma_rows_sum_fit(split_char(frame, '\n'), columns);
}

/// An interactive progress frame, wrapped to `columns`.
pub fn render_run_frame_with_columns(args: RenderRunFrameArgs<'_>) -> (res: String)
    ensures
        rows_fit(res@, if args.columns < 10 {
            10
        } else {
            args.columns as nat
        }),
        is_plain_text(args.current_label@) && is_plain_text(args.recent@) ==> is_plain_text(res@),
        args.columns >= 10 && split_char(res@, '\n').len() <= usize::MAX ==> rows_sum(
            split_char(res@, '\n'),
            args.columns as nat,
        ) == split_char(res@, '\n').len(),
        res@ == wrap_lines_spec(
            frame_lines_spec(
                args.current_label@,
                args.done_units as nat,
                args.total_units as nat,
                args.spinner_index as nat,
                args.elapsed_seconds as nat,
                args.idle_seconds as nat,
                args.recent@,
            ),
            args.columns as nat,
        ),
{
    let frames = ['\u{280b}', '\u{2819}', '\u{2839}', '\u{2838}', '\u{283c}', '\u{2834}', '\u{2826}', '\u{2827}', '\u{2807}', '\u{280f}'];
    assert(frames@ =~= spinner_frames());
    let spinner = frames[args.spinner_index % 10];
    let elapsed = format_duration_at_least(Duration::from_secs(args.elapsed_seconds), TimeUnit::Second);
    proof {
        reveal_strlit("RUN [");
        reveal_strlit(" +");
        reveal_strlit("] (");
        reveal_strlit(") ");
        reveal_strlit("idle ");
    }
    let mut first = owned("RUN [");
    push_char(&mut first, spinner);
    push_str(&mut first, " +");
    push_str(&mut first, elapsed.as_str());
    push_str(&mut first, "] (");
    push_str(&mut first, u64_to_dec(args.done_units as u64).as_str());
    push_char(&mut first, '/');
    push_str(&mut first, u64_to_dec(args.total_units as u64).as_str());
    push_str(&mut first, ") ");
    push_str(&mut first, args.current_label);
    let recent = trim_str(args.recent);
    let second = if recent.as_str().is_empty() {
        let idle = format_duration_at_least(Duration::from_secs(args.idle_seconds), TimeUnit::Second);
        concat2("idle ", idle.as_str())
    } else {
        recent
    };
    let mut lines: Vec<String> = Vec::new();
    lines.push(first);
    lines.push(second);
    let ghost fl = frame_lines_spec(
        args.current_label@,
        args.done_units as nat,
        args.total_units as nat,
        args.spinner_index as nat,
        args.elapsed_seconds as nat,
        args.idle_seconds as nat,
        args.recent@,
    );
    assert(lines@[0]@ =~= fl[0]);
    assert(lines@[1]@ =~= fl[1]);
    assert(views(lines@) =~= fl);
    proof {
        if is_plain_text(args.current_label@) && is_plain_text(args.recent@) {
            lemma_frame_lines_plain(
                args.current_label@,
                args.done_units as nat,
                args.total_units as nat,
                args.spinner_index as nat,
                args.elapsed_seconds as nat,
                args.idle_seconds as nat,
                args.recent@,
            );
            assert forall|k: int| 0 <= k < lines.len() implies is_plain_text(#[trigger] lines@[k]@) by {
                assert(lines@[k]@ == fl[k]);
            }
        }
    }
    let res = hard_wrap_lines_to_terminal_width(&lines, args.columns);
    proof {
        if args.columns >= 10 && split_char(res@, '\n').len() <= usize::MAX {
            law_fitting_lines_take_one_row(res@, args.columns as nat);
        }
    }
    res
}

/// Rows a line takes on a terminal of `columns` columns (at least one).
pub open spec fn rows_for(width: nat, columns: nat) -> nat {
    let c = if columns < 1 {
        1
    } else {
        columns
    };
    let r = (width + c - 1) as int / c as int;
    if r < 1 {
        1
    } else {
        r as nat
    }
}

pub open spec fn display_width(text: Seq<char>) -> nat
    decreases text.len(),
{
    if text.len() == 0 {
        0
    } else {
        sat_usize(display_width(text.drop_last()), width_or_zero(text.last()))
    }
}

pub open spec fn rows_sum(ls: Seq<Seq<char>>, columns: nat) -> nat
    decreases ls.len(),
{
    if ls.len() == 0 {
        0
    } else {
        sat_usize(rows_sum(ls.drop_last(), columns), rows_for(display_width(ls.last()), columns))
    }
}

/// Terminal rows that a frame takes once its ANSI styling is removed.
pub open spec fn frame_rows_spec(frame: Seq<char>, columns: nat) -> nat {
    let n = rows_sum(split_char(ansi_stripped(frame), '\n'), columns);
    if n < 1 {
        1
    } else {
        n
    }
}

fn unicode_display_width(text: &str) -> (res: usize)
    ensures
        res == display_width(text@),
{
    let v = chars_of(text);
    let mut total: usize = 0;
    let mut i: usize = 0;
    assert(text@.take(0) =~= Seq::<char>::empty());
    while i < v.len()
        invariant
            i <= v.len(),
            v@ == text@,
            total == display_width(text@.take(i as int)),
        decreases v.len() - i,
    {
        assert(text@.take(i + 1).drop_last() =~= text@.take(i as int));
        assert(text@.take(i + 1).last() == v@[i as int]);
        let w = match char_width(v[i]) {
            Some(w) => w,
            None => 0,
        };
        total = total.saturating_add(w);
        i = i + 1;
    }
    assert(text@.take(v.len() as int) == text@);
    total
}

/// How many terminal rows a frame takes.
pub fn frame_physical_line_count(frame: &str, columns: usize) -> (res: usize)
    ensures
        res == frame_rows_spec(frame@, columns as nat),
        res >= 1,
        is_plain_text(frame@) ==> res == (if rows_sum(split_char(frame@, '\n'), columns as nat) < 1 {
            1
        } else {
            rows_sum(split_char(frame@, '\n'), columns as nat)
        }),
{
    let stripped = strip_ansi_simple(frame);
    let parts = split_char_str(stripped.as_str(), '\n');
    let c: usize = if columns < 1 {
        1
    } else {
        columns
    };
    let mut total: usize = 0;
    let mut i: usize = 0;
    assert(views(parts@).take(0) =~= Seq::<Seq<char>>::empty());
    while i < parts.len()
        invariant
            i <= parts.len(),
            c >= 1,
            c == (if columns < 1 {
                1
            } else {
                columns
            }),
            total == rows_sum(views(parts@).take(i as int), columns as nat),
        decreases parts.len() - i,
    {
        assert(views(parts@).take(i + 1).drop_last() =~= views(parts@).take(i as int));
        assert(views(parts@).take(i + 1).last() == parts@[i as int]@);
        let w = unicode_display_width(parts[i].as_str());
        let q = w / c;
        let r = if w % c == 0 {
            q
        } else {
            assert(q < usize::MAX) by (nonlinear_arith)
                requires
                    q == w / c,
                    w % c != 0,
                    c >= 1,
                    w <= usize::MAX,
            ;
            q + 1
        };
        proof {
            let wi = w as int;
            let ci = c as int;
            let qi = q as int;
            assert(wi == ci * qi + wi % ci) by (nonlinear_arith)
                requires
                    qi == wi / ci,
                    ci >= 1,
            ;
            assert(0 <= wi % ci < ci) by (nonlinear_arith)
                requires
                    ci >= 1,
            ;
            if w % c == 0 {
                assert((wi + ci - 1) / ci == qi) by (nonlinear_arith)
                    requires
                        wi == ci * qi,
                        ci >= 1,
                ;
            } else {
                assert((wi + ci - 1) / ci == qi + 1) by (nonlinear_arith)
                    requires
                        wi == ci * qi + wi % ci,
                        0 < wi % ci < ci,
                        ci >= 1,
                ;
            }
        }
        let rows = if r < 1 {
            1
        } else {
            r
        };
        total = total.saturating_add(rows);
        i = i + 1;
    }
    assert(views(parts@).take(parts.len() as int) == views(parts@));
    if total < 1 {
        1
    } else {
        total
    }
}

/// How a finished test went.
#[derive(Debug, Clone, Copy, PartialEq, Eq, Structural)]
pub enum TestOutcome {
    Pass,
    Fail,
    Skip,
    Unknown,
}

/// The outcome a runner status stands for (case and surrounding space
/// ignored): `passed`/`ok`/`pass`, `failed`/`fail`,
/// `ignored`/`skipped`/`pending`.
pub open spec fn outcome_spec(status: Seq<char>) -> TestOutcome {
    let s = ascii_lower(trim(status));
    if s == "passed"@ || s == "ok"@ || s == "pass"@ {
        TestOutcome::Pass
    } else if s == "failed"@ || s == "fail"@ {
        TestOutcome::Fail
    } else if s == "ignored"@ || s == "skipped"@ || s == "pending"@ {
        TestOutcome::Skip
    } else {
        TestOutcome::Unknown
    }
}

pub fn outcome_from_status(status: &str) -> (res: TestOutcome)
    ensures
        res == outcome_spec(status@),
{
    let t = trim_str(status);
    let s = ascii_lower_str(t.as_str());
    let s = s.as_str();
    if str_eq(s, "passed") || str_eq(s, "ok") || str_eq(s, "pass") {
        TestOutcome::Pass
    } else if str_eq(s, "failed") || str_eq(s, "fail") {
        TestOutcome::Fail
    } else if str_eq(s, "ignored") || str_eq(s, "skipped") || str_eq(s, "pending") {
        TestOutcome::Skip
    } else {
        TestOutcome::Unknown
    }
}

pub open spec fn outcome_label(o: TestOutcome) -> Seq<char> {
    match o {
        TestOutcome::Pass => "PASS"@,
        TestOutcome::Fail => "FAIL"@,
        TestOutcome::Skip => "SKIP"@,
        TestOutcome::Unknown => "DONE"@,
    }
}

/// `<LABEL> [<duration or -->] <suite>` followed by `::<test>` when the
/// test name is not blank.
pub open spec fn finished_line_spec(
    outcome: TestOutcome,
    duration: Option<Duration>,
    suite_path: Seq<char>,
    test_name: Seq<char>,
) -> Seq<char> {
    outcome_label(outcome) + " ["@ + match duration {
        Some(d) => pretty_duration(d.total_nanos(), 2, None),
        None => "--"@,
    } + "] "@ + suite_path + if is_blank(test_name) {
        Seq::empty()
    } else {
        "::"@ + test_name
    }
}

pub fn render_finished_test_line(
    outcome: TestOutcome,
    duration: Option<Duration>,
    suite_path: &str,
    test_name: &str,
) -> (res: String)
    ensures
        res@ == finished_line_spec(outcome, duration, suite_path@, test_name@),
{
    let mut out = match outcome {
        TestOutcome::Pass => owned("PASS"),
        TestOutcome::Fail => owned("FAIL"),
        TestOutcome::Skip => owned("SKIP"),
        TestOutcome::Unknown => owned("DONE"),
    };
    push_str(&mut out, " [");
    match duration {
        Some(d) => push_str(&mut out, format_duration(d).as_str()),
        None => push_str(&mut out, "--"),
    }
    push_str(&mut out, "] ");
    push_str(&mut out, suite_path);
    if !is_blank_str(test_name) {
        push_str(&mut out, "::");
        push_str(&mut out, test_name);
    }
    out
}

/// An interactive progress frame, wrapped to the terminal's width
/// (`columns_env` is the `COLUMNS` setting).
pub fn render_run_frame(
    current_label: &str,
    done_units: usize,
    total_units: usize,
    spinner_index: usize,
    elapsed_seconds: u64,
    idle_seconds: u64,
    recent: &str,
    columns_env: Option<&str>,
) -> (res: String)
    ensures
        exists|w: Option<u16>|
            res@ == wrap_lines_spec(
                frame_lines_spec(
                    current_label@,
                    done_units as nat,
                    total_units as nat,
                    spinner_index as nat,
                    elapsed_seconds as nat,
                    idle_seconds as nat,
                    recent@,
                ),
                #[trigger] columns_spec(w, opt_str_view(columns_env)),
            ),
{
    let columns = terminal_columns(columns_env);
    render_run_frame_with_columns(
        RenderRunFrameArgs {
            current_label,
            done_units,
            total_units,
            spinner_index,
            elapsed_seconds,
            idle_seconds,
            recent,
            columns,
        },
    )
}

/// The two lines of a plain progress report, before wrapping.
pub open spec fn plain_lines_spec(
    current_label: Seq<char>,
    done_units: nat,
    total_units: nat,
    elapsed_seconds: nat,
    idle_seconds: nat,
    recent: Seq<char>,
) -> Seq<Seq<char>> {
    let elapsed = pretty_duration(elapsed_seconds * 1_000_000_000, 2, Some(TimeUnit::Second));
    let idle = pretty_duration(idle_seconds * 1_000_000_000, 2, Some(TimeUnit::Second));
    let total = if total_units < 1 {
        1
    } else {
        total_units
    };
    let first = "RUN (+"@ + elapsed + ") ("@ + dec(done_units) + seq!['/'] + dec(total) + ") "@
        + current_label;
    let second = if trim(recent).len() == 0 {
        "idle "@ + idle
    } else {
        "idle "@ + idle + " | "@ + trim(recent)
    };
    seq![first, second]
}

/// A plain progress report (for CI logs), wrapped to `columns`.
pub fn render_plain_line(
    current_label: &str,
    done_units: usize,
    total_units: usize,
    elapsed_seconds: u64,
    idle_seconds: u64,
    recent: &str,
    columns: usize,
) -> (res: String)
    ensures
        res@ == wrap_lines_spec(
            plain_lines_spec(
                current_label@,
                done_units as nat,
                total_units as nat,
                elapsed_seconds as nat,
                idle_seconds as nat,
                recent@,
            ),
            columns as nat,
        ),
{
    proof {
        reveal_strlit("RUN (+");
        reveal_strlit(") (");
        reveal_strlit(") ");
        reveal_strlit("idle ");
        reveal_strlit(" | ");
    }
    let elapsed = format_duration_at_least(Duration::from_secs(elapsed_seconds), TimeUnit::Second);
    let idle = format_duration_at_least(Duration::from_secs(idle_seconds), TimeUnit::Second);
    let total: usize = if total_units < 1 {
        1
    } else {
        total_units
    };
    let mut first = owned("RUN (+");
    push_str(&mut first, elapsed.as_str());
    push_str(&mut first, ") (");
    push_str(&mut first, u64_to_dec(done_units as u64).as_str());
    push_char(&mut first, '/');
    push_str(&mut first, u64_to_dec(total as u64).as_str());
    push_str(&mut first, ") ");
    push_str(&mut first, current_label);
    let r = trim_str(recent);
    let mut second = concat2("idle ", idle.as_str());
    if !r.as_str().is_empty() {
        push_str(&mut second, " | ");
        push_str(&mut second, r.as_str());
    }
    let mut lines: Vec<String> = Vec::new();
    lines.push(first);
    lines.push(second);
    let ghost pl = plain_lines_spec(
        current_label@,
        done_units as nat,
        total_units as nat,
        elapsed_seconds as nat,
        idle_seconds as nat,
        recent@,
    );
    assert(lines@[0]@ =~= pl[0]);
    assert(lines@[1]@ =~= pl[1]);
    assert(views(lines@) =~= pl);
    hard_wrap_lines_to_terminal_width(&lines, columns)
}

/// The escape text that clears a frame of `rows` rows from its last row
/// up: clear the row, then move up and clear, once per further row.
pub open spec fn clear_frame_spec(rows: nat) -> Seq<char>
    decreases rows,
{
    if rows == 0 {
        Seq::empty()
    } else if rows == 1 {
        "\u{1b}[2K\r"@
    } else {
        clear_frame_spec((rows - 1) as nat) + "\u{1b}[1A\u{1b}[2K\r"@
    }
}

/// The text that clears the previous frame of `rows` rows.
pub fn clear_previous_frame_text(rows: usize) -> (res: String)
    ensures
        res@ == clear_frame_spec(rows as nat),
{
    if rows == 0 {
        return String::new();
    }
    let mut out = owned("\u{1b}[2K\r");
    let mut i: usize = 1;
    while i < rows
        invariant
            1 <= i <= rows,
            out@ == clear_frame_spec(i as nat),
        decreases rows - i,
    {
        push_str(&mut out, "\u{1b}[1A\u{1b}[2K\r");
        i = i + 1;
    }
    out
}

/// What the ticker knows at one tick.
pub struct TickInput {
    pub label: String,
    pub done_units: usize,
    pub total_units: usize,
    pub spinner_index: usize,
    pub elapsed_seconds: u64,
    pub idle_seconds: u64,
    pub stdout_hint: Option<String>,
    pub stderr_hint: Option<String>,
    pub columns: usize,
    pub prev_rows: usize,
    pub stdout_is_tty: bool,
}

/// What the ticker does at one tick: write `write` to stdout, remember that
/// the frame on screen now takes `rows` rows, and sleep `sleep_millis`.
pub struct TickAction {
    pub write: String,
    pub rows: usize,
    pub sleep_millis: u64,
}

/// An interactive tick: clear the previous frame and draw the new one
/// (with at least one unit in the total), then sleep 120 ms.
pub fn interactive_tick(t: &TickInput) -> (res: TickAction)
    ensures
        res.write@ == clear_frame_spec(t.prev_rows as nat) + wrap_lines_spec(
            frame_lines_spec(
                t.label@,
                t.done_units as nat,
                if t.total_units < 1 {
                    1
                } else {
                    t.total_units as nat
                },
                t.spinner_index as nat,
                t.elapsed_seconds as nat,
                t.idle_seconds as nat,
                recent_summary_spec(opt_seq(t.stdout_hint), opt_seq(t.stderr_hint)),
            ),
            t.columns as nat,
        ),
        res.rows == frame_rows_spec(
            wrap_lines_spec(
                frame_lines_spec(
                    t.label@,
                    t.done_units as nat,
                    if t.total_units < 1 {
                        1
                    } else {
                        t.total_units as nat
                    },
                    t.spinner_index as nat,
                    t.elapsed_seconds as nat,
                    t.idle_seconds as nat,
                    recent_summary_spec(opt_seq(t.stdout_hint), opt_seq(t.stderr_hint)),
                ),
                t.columns as nat,
            ),
            t.columns as nat,
        ),
        res.sleep_millis == 120,
{
    let so = copy_opt_string(&t.stdout_hint);
    let se = copy_opt_string(&t.stderr_hint);
    let recent = recent_summary(so, se);
    let total: usize = if t.total_units < 1 {
        1
    } else {
        t.total_units
    };
    let frame = render_run_frame_with_columns(
        RenderRunFrameArgs {
            current_label: t.label.as_str(),
            done_units: t.done_units,
            total_units: total,
            spinner_index: t.spinner_index,
            elapsed_seconds: t.elapsed_seconds,
            idle_seconds: t.idle_seconds,
            recent: recent.as_str(),
            columns: t.columns,
        },
    );
    let rows = frame_physical_line_count(frame.as_str(), t.columns);
    let mut write = clear_previous_frame_text(t.prev_rows);
    push_str(&mut write, frame.as_str());
    TickAction { write, rows, sleep_millis: 120 }
}

fn copy_opt_string(o: &Option<String>) -> (res: Option<String>)
    ensures
        opt_seq(res) == opt_seq(*o),
{
    match o {
        Some(s) => Some(owned(s.as_str())),
        None => None,
    }
}

/// A plain tick: nothing while no label is set (sleep 200 ms) or while
/// the run was active in the last 5 seconds (sleep 2 s); otherwise the
/// plain report, over the previous one on a terminal or as a new line in a
/// log, then sleep 2 s.
pub fn plain_tick(t: &TickInput) -> (res: TickAction)
    ensures
        is_blank(t.label@) ==> res.write@.len() == 0 && res.rows == t.prev_rows && res.sleep_millis
            == 200,
        !is_blank(t.label@) && t.idle_seconds < 5 ==> res.write@.len() == 0 && res.rows == t.prev_rows
            && res.sleep_millis == 2000,
        !is_blank(t.label@) && t.idle_seconds >= 5 ==> {
            let line = wrap_lines_spec(
                plain_lines_spec(
                    t.label@,
                    t.done_units as nat,
                    t.total_units as nat,
                    t.elapsed_seconds as nat,
                    t.idle_seconds as nat,
                    recent_summary_spec(opt_seq(t.stdout_hint), opt_seq(t.stderr_hint)),
                ),
                t.columns as nat,
            );
            &&& res.sleep_millis == 2000
            &&& t.stdout_is_tty ==> res.write@ == clear_frame_spec(t.prev_rows as nat) + line
                && res.rows == frame_rows_spec(line, t.columns as nat)
            &&& !t.stdout_is_tty ==> res.write@ == line.push('\n') && res.rows == t.prev_rows
        },
{
    if is_blank_str(t.label.as_str()) {
        return TickAction { write: String::new(), rows: t.prev_rows, sleep_millis: 200 };
    }
    if t.idle_seconds < 5 {
        return TickAction { write: String::new(), rows: t.prev_rows, sleep_millis: 2000 };
    }
    let so = copy_opt_string(&t.stdout_hint);
    let se = copy_opt_string(&t.stderr_hint);
    let recent = recent_summary(so, se);
    let line = render_plain_line(
        t.label.as_str(),
        t.done_units,
        t.total_units,
        t.elapsed_seconds,
        t.idle_seconds,
        recent.as_str(),
        t.columns,
    );
    if t.stdout_is_tty {
        let rows = frame_physical_line_count(line.as_str(), t.columns);
        let mut write = clear_previous_frame_text(t.prev_rows);
        push_str(&mut write, line.as_str());
        TickAction { write, rows, sleep_millis: 2000 }
    } else {
        let mut write = line;
        push_char(&mut write, '\n');
        TickAction { write, rows: t.prev_rows, sleep_millis: 2000 }
    }
}


/// A runner's status maps to an outcome by its word, case and surrounding
/// space ignored: `failed` or `fail` is always a failure, and only
/// `passed`, `ok` or `pass` is a pass; only `failed` or `fail` is a
/// failure. So the status every parser gives a failed test (`failed`)
/// shows as FAIL, in any case.
pub proof fn law_outcome_by_word(status: Seq<char>)
    ensures
        ascii_lower(trim(status)) == "failed"@ || ascii_lower(trim(status)) == "fail"@ ==> outcome_spec(status)
            == TestOutcome::Fail,
        outcome_spec(status) == TestOutcome::Pass ==> (ascii_lower(trim(status)) == "passed"@ || ascii_lower(
            trim(status),
        ) == "ok"@ || ascii_lower(trim(status)) == "pass"@),
        outcome_spec(status) == TestOutcome::Fail ==> (ascii_lower(trim(status)) == "failed"@ || ascii_lower(
            trim(status),
        ) == "fail"@),
        outcome_label(outcome_spec(status)) == "FAIL"@ <==> outcome_spec(status) == TestOutcome::Fail,
{
    reveal_strlit("failed");
    reveal_strlit("fail");
    reveal_strlit("passed");
    reveal_strlit("ok");
    reveal_strlit("pass");
    reveal_strlit("FAIL");
    reveal_strlit("PASS");
    reveal_strlit("SKIP");
    reveal_strlit("DONE");
    assert("failed"@ != "passed"@) by {
        assert("failed"@[0] != "passed"@[0]);
    }
    assert("failed"@.len() != "ok"@.len());
    assert("failed"@.len() != "pass"@.len());
    assert("fail"@ != "pass"@) by {
        assert("fail"@[0] != "pass"@[0]);
    }
    assert("fail"@.len() != "ok"@.len());
    assert("fail"@.len() != "passed"@.len());
    assert("PASS"@ != "FAIL"@) by {
        assert("PASS"@[0] != "FAIL"@[0]);
    }
    assert("SKIP"@ != "FAIL"@) by {
        assert("SKIP"@[0] != "FAIL"@[0]);
    }
    assert("DONE"@ != "FAIL"@) by {
        assert("DONE"@[0] != "FAIL"@[0]);
    }
}

} // verus!
