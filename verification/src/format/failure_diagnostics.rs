//! Where a failure happened: the file, line and column of a Rust panic, and
//! the clean-up of a file name quoted in runner output.
use crate::text::{
    chars_of, concat2, ends_with_str, parse_i64_spec, parse_i64_str, starts_with, string_of,
    string_of_range, strip_prefix, strip_prefix_str, trim, trim_str,
};
use vstd::prelude::*;

verus! {

/// The pattern of a Rust panic header that names its location.
pub const RUST_PANICKED_AT_PATTERN: &'static str = "panicked at (?:[^:]+: )?([^:\\s]+):(\\d+):(\\d+):?$";

/// What capture groups 1, 2 and 3 of the first match of `pattern` in
/// `text` hold, as the `regex` crate finds them.
pub uninterp spec fn regex_captures3(pattern: Seq<char>, text: Seq<char>) -> Option<
    (Seq<char>, Seq<char>, Seq<char>),
>;

/// Groups 1 to 3 of the first match of `pattern` in `text`: calls
/// `regex::Regex::new` and `Regex::captures`. Trusted: the result is the
/// crate's captures (`None` when the pattern does not compile, nothing
/// matches, or a group took no part); nothing more is stated of them.
#[verifier::external_body]
fn captures3(pattern: &str, text: &str) -> (res: Option<(String, String, String)>)
    ensures
        match res {
            Some((a, b, c)) => regex_captures3(pattern@, text@) == Some((a@, b@, c@)),
            None => regex_captures3(pattern@, text@) is None,
        },
{
    let caps = regex::Regex::new(pattern).ok()?.captures(text)?;
    Some((caps.get(1)?.as_str().to_string(), caps.get(2)?.as_str().to_string(), caps.get(3)?.as_str().to_string()))
}

/// File, line and column from the three captured texts: both numbers must
/// read as `i64`.
pub open spec fn location_from_captures_spec(caps: Option<(Seq<char>, Seq<char>, Seq<char>)>) -> Option<
    (Seq<char>, i64, i64),
> {
    match caps {
        Some((f, l, c)) => match (parse_i64_spec(l), parse_i64_spec(c)) {
            (Some(ln), Some(col)) => Some((f, ln, col)),
            _ => None,
        },
        None => None,
    }
}

pub open spec fn opt_triple(o: Option<(String, String, String)>) -> Option<(Seq<char>, Seq<char>, Seq<char>)> {
    match o {
        Some((a, b, c)) => Some((a@, b@, c@)),
        None => None,
    }
}

pub open spec fn opt_location(o: Option<(String, i64, i64)>) -> Option<(Seq<char>, i64, i64)> {
    match o {
        Some((f, l, c)) => Some((f@, l, c)),
        None => None,
    }
}

/// The location named by the captured file, line and column texts.
pub fn location_from_captures(caps: Option<(String, String, String)>) -> (res: Option<(String, i64, i64)>)
    ensures
        opt_location(res) == location_from_captures_spec(opt_triple(caps)),
{
    match caps {
        Some((f, l, c)) => {
            let ln = parse_i64_str(l.as_str());
            let col = parse_i64_str(c.as_str());
            match (ln, col) {
                (Some(ln), Some(col)) => Some((f, ln, col)),
                _ => None,
            }
        },
        None => None,
    }
}

/// File, line and column of a `panicked at <file>:<line>:<col>` header
/// (surrounding whitespace ignored).
pub fn parse_rust_panic_location(line: &str) -> (res: Option<(String, i64, i64)>)
    ensures
        opt_location(res) == location_from_captures_spec(
            regex_captures3(RUST_PANICKED_AT_PATTERN@, trim(line@)),
        ),
{
    let trimmed = trim_str(line);
    let caps = captures3(RUST_PANICKED_AT_PATTERN, trimmed.as_str());
    location_from_captures(caps)
}

pub open spec fn is_quote(c: char) -> bool {
    c == '"' || c == '\'' || c == '`'
}

/// Number of leading quote characters.
pub open spec fn lead_quotes(s: Seq<char>) -> nat
    decreases s.len(),
{
    if s.len() > 0 && is_quote(s[0]) {
        1 + lead_quotes(s.drop_first())
    } else {
        0
    }
}

/// Number of trailing quote characters.
pub open spec fn trail_quotes(s: Seq<char>) -> nat
    decreases s.len(),
{
    if s.len() > 0 && is_quote(s.last()) {
        1 + trail_quotes(s.drop_last())
    } else {
        0
    }
}

/// Quotes removed from both ends.
pub open spec fn trim_quotes(s: Seq<char>) -> Seq<char> {
    let t = s.skip(lead_quotes(s) as int);
    t.take(t.len() - trail_quotes(t))
}

/// Every backslash turned into a slash.
pub open spec fn slashes(s: Seq<char>) -> Seq<char> {
    s.map_values(|c: char|
        if c == '\\' {
            '/'
        } else {
            c
        })
}

/// A file name as runner output quotes it, cleaned: trimmed, unquoted,
/// with forward slashes and no leading `./`; `None` when it is blank.
pub open spec fn normalize_raw_file_spec(raw: Seq<char>) -> Option<Seq<char>> {
    let t = trim(raw);
    if t.len() == 0 {
        None
    } else {
        let u = slashes(trim_quotes(t));
        match strip_prefix(u, "./"@) {
            Some(r) => Some(r),
            None => Some(u),
        }
    }
}

proof fn lemma_lead_quotes(s: Seq<char>, k: int)
    requires
        0 <= k <= s.len(),
        forall|j: int| 0 <= j < k ==> is_quote(#[trigger] s[j]),
        k < s.len() ==> !is_quote(s[k]),
    ensures
        lead_quotes(s) == k,
    decreases s.len(),
{
    if k > 0 {
        assert forall|j: int| 0 <= j < k - 1 implies is_quote(#[trigger] s.drop_first()[j]) by {
            assert(s.drop_first()[j] == s[j + 1]);
        }
        if k - 1 < s.drop_first().len() {
            assert(s.drop_first()[k - 1] == s[k]);
        }
        lemma_lead_quotes(s.drop_first(), k - 1);
    }
}

proof fn lemma_trail_quotes(s: Seq<char>, k: int)
    requires
        0 <= k <= s.len(),
        forall|j: int| s.len() - k <= j < s.len() ==> is_quote(#[trigger] s[j]),
        k < s.len() ==> !is_quote(s[s.len() - k - 1]),
    ensures
        trail_quotes(s) == k,
    decreases s.len(),
{
    if k > 0 {
        assert(is_quote(s[s.len() - 1]));
        assert forall|j: int| s.drop_last().len() - (k - 1) <= j < s.drop_last().len() implies is_quote(
            #[trigger] s.drop_last()[j],
        ) by {
            assert(s.drop_last()[j] == s[j]);
        }
        if k - 1 < s.drop_last().len() {
            assert(s.drop_last()[s.drop_last().len() - (k - 1) - 1] == s[s.len() - k - 1]);
        }
        lemma_trail_quotes(s.drop_last(), k - 1);
    }
}

fn is_quote_char(c: char) -> (res: bool)
    ensures
        res == is_quote(c),
{
    c == '"' || c == '\'' || c == '`'
}

/// The text with quotes removed from both ends.
pub(crate) fn trim_quotes_str(s: &str) -> (res: String)
    ensures
        res@ == trim_quotes(s@),
{
    let v = chars_of(s);
    let mut a: usize = 0;
    while a < v.len() && is_quote_char(v[a])
        invariant
            a <= v.len(),
            v@ == s@,
            forall|j: int| 0 <= j < a ==> is_quote(#[trigger] v@[j]),
        decreases v.len() - a,
    {
        a = a + 1;
    }
    proof {
        lemma_lead_quotes(s@, a as int);
    }
    let mut b: usize = v.len();
    while b > a && is_quote_char(v[b - 1])
        invariant
            a <= b <= v.len(),
            v@ == s@,
            forall|j: int| b <= j < v.len() ==> is_quote(#[trigger] v@[j]),
        decreases b - a,
    {
        b = b - 1;
    }
    let ghost t = s@.skip(a as int);
    proof {
        assert forall|j: int| t.len() - (v.len() - b) <= j < t.len() implies is_quote(#[trigger] t[j]) by {
            assert(t[j] == v@[a + j]);
        }
        if v.len() - b < t.len() {
            assert(t[t.len() - (v.len() - b) - 1] == v@[b - 1]);
        }
        lemma_trail_quotes(t, (v.len() - b) as int);
    }
    let r = string_of_range(&v, a, b);
    assert(r@ =~= trim_quotes(s@));
    r
}

/// The text with every backslash turned into a slash.
pub(crate) fn slashes_str(s: &str) -> (res: String)
    ensures
        res@ == slashes(s@),
{
    let v = chars_of(s);
    let mut out: Vec<char> = Vec::new();
    let mut i: usize = 0;
    while i < v.len()
        invariant
            i <= v.len(),
            v@ == s@,
            out@ == slashes(s@).take(i as int),
        decreases v.len() - i,
    {
        let c = v[i];
        out.push(
            if c == '\\' {
                '/'
            } else {
                c
            },
        );
        assert(slashes(s@).take(i + 1) =~= slashes(s@).take(i as int).push(slashes(s@)[i as int]));
        i = i + 1;
    }
    assert(slashes(s@).take(v.len() as int) =~= slashes(s@));
    string_of(&out)
}

/// The file name a runner printed, cleaned up (see [`normalize_raw_file_spec`]).
pub fn normalize_raw_file(raw_file: &str) -> (res: Option<String>)
    ensures
        opt_seq_of(res) == normalize_raw_file_spec(raw_file@),
{
    let t = trim_str(raw_file);
    if t.as_str().is_empty() {
        return None;
    }
    let q = trim_quotes_str(t.as_str());
    let u = slashes_str(q.as_str());
    match strip_prefix_str(u.as_str(), "./") {
        Some(r) => Some(r),
        None => Some(u),
    }
}

pub open spec fn opt_seq_of(o: Option<String>) -> Option<Seq<char>> {
    match o {
        Some(s) => Some(s@),
        None => None,
    }
}

/// The tail a found path must end with: `/` and the name without leading
/// slashes.
pub open spec fn walk_suffix_spec(normalized: Seq<char>) -> Seq<char> {
    let k = choose_lead_slashes(normalized);
    seq!['/'] + normalized.skip(k as int)
}

/// Number of leading slashes.
pub open spec fn choose_lead_slashes(s: Seq<char>) -> nat
    decreases s.len(),
{
    if s.len() > 0 && s[0] == '/' {
        1 + choose_lead_slashes(s.drop_first())
    } else {
        0
    }
}

proof fn lemma_lead_slashes(s: Seq<char>, k: int)
    requires
        0 <= k <= s.len(),
        forall|j: int| 0 <= j < k ==> #[trigger] s[j] == '/',
        k < s.len() ==> s[k] != '/',
    ensures
        choose_lead_slashes(s) == k,
    decreases s.len(),
{
    if k > 0 {
        assert forall|j: int| 0 <= j < k - 1 implies #[trigger] s.drop_first()[j] == '/' by {
            assert(s.drop_first()[j] == s[j + 1]);
        }
        if k - 1 < s.drop_first().len() {
            assert(s.drop_first()[k - 1] == s[k]);
        }
        lemma_lead_slashes(s.drop_first(), k - 1);
    }
}

/// The tail that a path found by walking must end with.
pub fn walk_suffix(normalized: &str) -> (res: String)
    ensures
        res@ == walk_suffix_spec(normalized@),
{
    let v = chars_of(normalized);
    let mut a: usize = 0;
    while a < v.len() && v[a] == '/'
        invariant
            a <= v.len(),
            v@ == normalized@,
            forall|j: int| 0 <= j < a ==> #[trigger] v@[j] == '/',
        decreases v.len() - a,
    {
        a = a + 1;
    }
    proof {
        lemma_lead_slashes(normalized@, a as int);
    }
    let rest = string_of_range(&v, a, v.len());
    let r = concat2("/", rest.as_str());
    proof {
        reveal_strlit("/");
    }
    assert(r@ =~= walk_suffix_spec(normalized@));
    r
}

/// A walked file is taken when its slash path ends with the suffix.
pub fn is_walk_match(path_slash: &str, suffix: &str) -> (res: bool)
    ensures
        res == crate::text::ends_with(path_slash@, suffix@),
{
    ends_with_str(path_slash, suffix)
}

} // verus!
