//! Text primitives over `Seq<char>`: the mathematical meaning of the string
//! operations the formatters use (trimming, prefix tests, searching, splitting
//! into lines, joining), together with executable versions proved against them.
use vstd::prelude::*;

verus! {

/// The view of each string in a sequence.
pub open spec fn views(v: Seq<String>) -> Seq<Seq<char>> {
    v.map_values(|x: String| x@)
}

/// Unicode `White_Space`, the set that `char::is_whitespace` tests.
pub open spec fn is_ws(c: char) -> bool {
    ||| ('\u{9}' <= c && c <= '\u{d}')
    ||| c == ' '
    ||| c == '\u{85}'
    ||| c == '\u{a0}'
    ||| c == '\u{1680}'
    ||| ('\u{2000}' <= c && c <= '\u{200a}')
    ||| c == '\u{2028}'
    ||| c == '\u{2029}'
    ||| c == '\u{202f}'
    ||| c == '\u{205f}'
    ||| c == '\u{3000}'
}

/// Number of leading whitespace characters.
pub open spec fn lead_ws(s: Seq<char>) -> nat
    decreases s.len(),
{
    if s.len() > 0 && is_ws(s[0]) {
        1 + lead_ws(s.drop_first())
    } else {
        0
    }
}

/// Number of trailing whitespace characters.
pub open spec fn trail_ws(s: Seq<char>) -> nat
    decreases s.len(),
{
    if s.len() > 0 && is_ws(s.last()) {
        1 + trail_ws(s.drop_last())
    } else {
        0
    }
}

pub open spec fn trim_start(s: Seq<char>) -> Seq<char> {
    s.skip(lead_ws(s) as int)
}

pub open spec fn trim_end(s: Seq<char>) -> Seq<char> {
    s.take(s.len() - trail_ws(s))
}

/// `str::trim`: whitespace removed from both ends.
pub open spec fn trim(s: Seq<char>) -> Seq<char> {
    trim_end(trim_start(s))
}

/// The text is empty or made of whitespace only (`s.trim().is_empty()`).
pub open spec fn is_blank(s: Seq<char>) -> bool {
    forall|i: int| 0 <= i < s.len() ==> is_ws(#[trigger] s[i])
}

pub open spec fn starts_with(s: Seq<char>, p: Seq<char>) -> bool {
    p.len() <= s.len() && s.take(p.len() as int) == p
}

pub open spec fn ends_with(s: Seq<char>, p: Seq<char>) -> bool {
    p.len() <= s.len() && s.skip(s.len() - p.len()) == p
}

/// `p` occurs in `s` starting at index `i`.
pub open spec fn match_at(s: Seq<char>, p: Seq<char>, i: int) -> bool {
    0 <= i && i + p.len() <= s.len() && s.subrange(i, i + p.len()) == p
}

/// First occurrence of `p` in `s` at an index of at least `i`.
pub open spec fn find_from(s: Seq<char>, p: Seq<char>, i: int) -> Option<int>
    decreases s.len() + 1 - i,
{
    if i < 0 || i + p.len() > s.len() {
        None
    } else if match_at(s, p, i) {
        Some(i)
    } else {
        find_from(s, p, i + 1)
    }
}

/// `str::find`.
pub open spec fn find(s: Seq<char>, p: Seq<char>) -> Option<int> {
    find_from(s, p, 0)
}

/// `str::contains`.
pub open spec fn contains(s: Seq<char>, p: Seq<char>) -> bool {
    find(s, p) is Some
}

/// Last occurrence of `p` in `s` at an index of at most `i`.
pub open spec fn rfind_upto(s: Seq<char>, p: Seq<char>, i: int) -> Option<int>
    decreases i + 1,
{
    if i < 0 {
        None
    } else if match_at(s, p, i) {
        Some(i)
    } else {
        rfind_upto(s, p, i - 1)
    }
}

/// `str::rfind`.
pub open spec fn rfind(s: Seq<char>, p: Seq<char>) -> Option<int> {
    rfind_upto(s, p, s.len() - p.len())
}

/// `str::split_once`.
pub open spec fn split_once(s: Seq<char>, p: Seq<char>) -> Option<(Seq<char>, Seq<char>)> {
    match find(s, p) {
        Some(i) => Some((s.take(i), s.skip(i + p.len()))),
        None => None,
    }
}

/// `str::strip_prefix`.
pub open spec fn strip_prefix(s: Seq<char>, p: Seq<char>) -> Option<Seq<char>> {
    if starts_with(s, p) {
        Some(s.skip(p.len() as int))
    } else {
        None
    }
}

/// `str::strip_suffix`.
pub open spec fn strip_suffix(s: Seq<char>, p: Seq<char>) -> Option<Seq<char>> {
    if ends_with(s, p) {
        Some(s.take(s.len() - p.len()))
    } else {
        None
    }
}

/// Removes one trailing carriage return.
pub open spec fn strip_cr(t: Seq<char>) -> Seq<char> {
    if t.len() > 0 && t.last() == '\r' {
        t.drop_last()
    } else {
        t
    }
}

/// `str::lines`: pieces ended by `\n` (with a `\r` before it removed);
/// a final line ending adds no empty line.
pub open spec fn lines(s: Seq<char>) -> Seq<Seq<char>>
    decreases s.len(),
{
    if s.len() == 0 {
        Seq::empty()
    } else {
        match find(s, seq!['\n']) {
            None => seq![s],
            Some(i) => {
                proof {
                    lemma_find_from_props(s, seq!['\n'], 0);
                }
                seq![strip_cr(s.take(i))] + lines(s.skip(i + 1))
            },
        }
    }
}

/// `str::split` on a one-character separator.
pub open spec fn split_char(s: Seq<char>, c: char) -> Seq<Seq<char>>
    decreases s.len(),
{
    match find(s, seq![c]) {
        None => seq![s],
        Some(i) => {
            proof {
                lemma_find_from_props(s, seq![c], 0);
            }
            seq![s.take(i)] + split_char(s.skip(i + 1), c)
        },
    }
}

/// `[T]::join` on strings.
pub open spec fn join(parts: Seq<Seq<char>>, sep: Seq<char>) -> Seq<char>
    decreases parts.len(),
{
    if parts.len() == 0 {
        Seq::empty()
    } else if parts.len() == 1 {
        parts[0]
    } else {
        join(parts.drop_last(), sep) + sep + parts.last()
    }
}

pub open spec fn ascii_lower_char(c: char) -> char {
    if 'A' <= c && c <= 'Z' {
        ((c as u32) + 32) as char
    } else {
        c
    }
}

/// `str::to_ascii_lowercase`.
pub open spec fn ascii_lower(s: Seq<char>) -> Seq<char> {
    s.map_values(|c: char| ascii_lower_char(c))
}

pub open spec fn ascii_upper_char(c: char) -> char {
    if 'a' <= c && c <= 'z' {
        ((c as u32) - 32) as char
    } else {
        c
    }
}

pub open spec fn is_ascii_digit(c: char) -> bool {
    '0' <= c && c <= '9'
}

pub open spec fn digit_char(d: nat) -> char
    recommends
        d < 10,
{
    (('0' as u32) + d) as char
}

/// Decimal text of a natural number, without leading zeros.
pub open spec fn dec(n: nat) -> Seq<char>
    decreases n,
{
    if n < 10 {
        seq![digit_char(n)]
    } else {
        dec(n / 10).push(digit_char(n % 10))
    }
}

/// Decimal text of an integer, with a leading `-` when negative.
pub open spec fn dec_int(n: int) -> Seq<char> {
    if n < 0 {
        seq!['-'] + dec((-n) as nat)
    } else {
        dec(n as nat)
    }
}

/// Value of a sequence of ASCII digits.
pub open spec fn digits_value(s: Seq<char>) -> nat
    decreases s.len(),
{
    if s.len() == 0 {
        0
    } else {
        digits_value(s.drop_last()) * 10 + ((s.last() as u32) - ('0' as u32)) as nat
    }
}

pub open spec fn all_digits(s: Seq<char>) -> bool {
    forall|i: int| 0 <= i < s.len() ==> is_ascii_digit(#[trigger] s[i])
}

/// What `str::parse::<u64>` gives for text of ASCII digits with an optional
/// leading `+`.
pub open spec fn parse_u64_spec(s: Seq<char>) -> Option<u64> {
    let body = if s.len() > 0 && s[0] == '+' {
        s.drop_first()
    } else {
        s
    };
    if body.len() > 0 && all_digits(body) && digits_value(body) <= u64::MAX {
        Some(digits_value(body) as u64)
    } else {
        None
    }
}

/// What `str::parse::<i64>` gives: an optional sign, then ASCII digits.
pub open spec fn parse_i64_spec(s: Seq<char>) -> Option<i64> {
    if s.len() > 0 && s[0] == '-' {
        let body = s.drop_first();
        if body.len() > 0 && all_digits(body) && digits_value(body) <= 0x8000_0000_0000_0000 {
            Some((0 - digits_value(body)) as i64)
        } else {
            None
        }
    } else {
        let body = if s.len() > 0 && s[0] == '+' {
            s.drop_first()
        } else {
            s
        };
        if body.len() > 0 && all_digits(body) && digits_value(body) <= i64::MAX {
            Some(digits_value(body) as i64)
        } else {
            None
        }
    }
}


/// Lexicographic order of texts by character code, the order of `str`'s
/// `<` (UTF-8 byte order agrees with code point order).
pub open spec fn seq_lt(a: Seq<char>, b: Seq<char>) -> bool
    decreases a.len(),
{
    if a.len() == 0 {
        b.len() > 0
    } else if b.len() == 0 {
        false
    } else if a[0] != b[0] {
        (a[0] as u32) < (b[0] as u32)
    } else {
        seq_lt(a.drop_first(), b.drop_first())
    }
}

// ---------------------------------------------------------------------------
// Executable operations
// ---------------------------------------------------------------------------
/// Appends one character: `String::push`, which vstd leaves unspecified.
/// Trusted: the new text is the old text followed by `c`.
#[verifier::external_body]
fn string_push(s: &mut String, c: char)
    ensures
        final(s)@ == old(s)@.push(c),
{
    s.push(c);
}

/// What `str::to_lowercase` gives for a text.
pub uninterp spec fn lowercase_of(s: Seq<char>) -> Seq<char>;

/// Unicode lower case: calls `str::to_lowercase`. Trusted: the result is
/// std's lower-casing of `s`; nothing more is stated of it.
#[verifier::external_body]
pub(crate) fn to_lowercase_str(s: &str) -> (res: String)
    ensures
        res@ == lowercase_of(s@),
{
    s.to_lowercase()
}

/// Copies the characters of `s` into a vector.
pub fn chars_of(s: &str) -> (res: Vec<char>)
    ensures
        res@ == s@,
{
    let mut out: Vec<char> = Vec::new();
    for c in it: s.chars()
        invariant
            out@ == it.seq().take(it.index() as int),
    {
        out.push(c);
    }
    out
}

/// The text made of `v[lo..hi]`.
pub fn string_of_range(v: &Vec<char>, lo: usize, hi: usize) -> (res: String)
    requires
        lo <= hi <= v.len(),
    ensures
        res@ == v@.subrange(lo as int, hi as int),
{
    let mut out = String::new();
    let mut i = lo;
    while i < hi
        invariant
            lo <= i <= hi <= v.len(),
            out@ == v@.subrange(lo as int, i as int),
        decreases hi - i,
    {
        string_push(&mut out, v[i]);
        assert(v@.subrange(lo as int, i + 1) == v@.subrange(lo as int, i as int).push(v@[i as int]));
        i = i + 1;
    }
    out
}

/// The text made of the characters of `v`.
pub fn string_of(v: &Vec<char>) -> (res: String)
    ensures
        res@ == v@,
{
    let r = string_of_range(v, 0, v.len());
    assert(v@.subrange(0, v.len() as int) == v@);
    r
}

/// Appends `t` to `s`.
pub fn push_str(s: &mut String, t: &str)
    ensures
        final(s)@ == old(s)@ + t@,
{
    s.append(t);
}

/// Appends one character to `s`.
pub fn push_char(s: &mut String, c: char)
    ensures
        final(s)@ == old(s)@.push(c),
{
    string_push(s, c);
}

/// Owned copy of `s`.
pub fn owned(s: &str) -> (res: String)
    ensures
        res@ == s@,
{
    s.to_owned()
}

/// `a` followed by `b`.
pub fn concat2(a: &str, b: &str) -> (res: String)
    ensures
        res@ == a@ + b@,
{
    let mut out = a.to_owned();
    out.append(b);
    out
}

/// `a`, `b` and `c` one after another.
pub fn concat3(a: &str, b: &str, c: &str) -> (res: String)
    ensures
        res@ == a@ + b@ + c@,
{
    let mut out = a.to_owned();
    out.append(b);
    out.append(c);
    out
}

/// `char::is_whitespace`.
pub fn is_ws_char(c: char) -> (res: bool)
    ensures
        res == is_ws(c),
{
    ('\u{9}' <= c && c <= '\u{d}') || c == ' ' || c == '\u{85}' || c == '\u{a0}' || c == '\u{1680}'
        || ('\u{2000}' <= c && c <= '\u{200a}') || c == '\u{2028}' || c == '\u{2029}' || c
        == '\u{202f}' || c == '\u{205f}' || c == '\u{3000}'
}

/// Whether `p` occurs in `s` at index `i`.
pub fn vec_match_at(s: &Vec<char>, p: &Vec<char>, i: usize) -> (res: bool)
    ensures
        res == match_at(s@, p@, i as int),
{
    if i > s.len() || p.len() > s.len() - i {
        return false;
    }
    let mut j: usize = 0;
    while j < p.len()
        invariant
            i + p.len() <= s.len(),
            j <= p.len(),
            forall|k: int| 0 <= k < j ==> s@[i + k] == p@[k],
        decreases p.len() - j,
    {
        if s[i + j] != p[j] {
            assert(s@.subrange(i as int, i + p.len())[j as int] != p@[j as int]);
            return false;
        }
        j = j + 1;
    }
    assert(s@.subrange(i as int, i + p.len()) =~= p@);
    true
}

/// First occurrence of `p` in `s` at index `i` or later.
pub fn vec_find_from(s: &Vec<char>, p: &Vec<char>, i: usize) -> (res: Option<usize>)
    ensures
        match res {
            Some(k) => find_from(s@, p@, i as int) == Some(k as int),
            None => find_from(s@, p@, i as int) is None,
        },
{
    let mut k = i;
    while k <= s.len() && p.len() <= s.len() - k
        invariant
            i <= k,
            find_from(s@, p@, i as int) == find_from(s@, p@, k as int),
        decreases s.len() + 1 - k,
    {
        if vec_match_at(s, p, k) {
            return Some(k);
        }
        if k == s.len() {
            proof {
                if p@.len() == 0 {
                    assert(s@.subrange(k as int, k as int) =~= p@);
                }
            }
            return None;
        }
        k = k + 1;
    }
    None
}

/// Last occurrence of `p` in `s`.
pub fn vec_rfind(s: &Vec<char>, p: &Vec<char>) -> (res: Option<usize>)
    ensures
        match res {
            Some(k) => rfind(s@, p@) == Some(k as int),
            None => rfind(s@, p@) is None,
        },
{
    if p.len() > s.len() {
        assert(rfind_upto(s@, p@, s@.len() - p@.len()) is None);
        return None;
    }
    let mut k: usize = s.len() - p.len();
    loop
        invariant
            k <= s.len() - p.len(),
            p.len() <= s.len(),
            rfind(s@, p@) == rfind_upto(s@, p@, k as int),
        decreases k,
    {
        if vec_match_at(s, p, k) {
            return Some(k);
        }
        if k == 0 {
            assert(rfind_upto(s@, p@, -1) is None);
            return None;
        }
        k = k - 1;
    }
}

/// `s.find(p)`, as an index into the characters of `s`.
pub fn find_str(s: &str, p: &str) -> (res: Option<usize>)
    ensures
        match res {
            Some(k) => find(s@, p@) == Some(k as int),
            None => find(s@, p@) is None,
        },
{
    let sv = chars_of(s);
    let pv = chars_of(p);
    vec_find_from(&sv, &pv, 0)
}

/// `s.contains(p)`.
pub fn contains_str(s: &str, p: &str) -> (res: bool)
    ensures
        res == contains(s@, p@),
{
    find_str(s, p).is_some()
}

/// `s.contains(c)`.
pub fn contains_char(s: &str, c: char) -> (res: bool)
    ensures
        res == contains(s@, seq![c]),
{
    let sv = chars_of(s);
    let mut pv: Vec<char> = Vec::new();
    pv.push(c);
    assert(pv@ == seq![c]);
    vec_find_from(&sv, &pv, 0).is_some()
}

/// `s.starts_with(p)`.
pub fn starts_with_str(s: &str, p: &str) -> (res: bool)
    ensures
        res == starts_with(s@, p@),
{
    let sv = chars_of(s);
    let pv = chars_of(p);
    let r = vec_match_at(&sv, &pv, 0);
    proof {
        if p@.len() <= s@.len() {
            assert(s@.subrange(0, p@.len() as int) == s@.take(p@.len() as int));
        }
    }
    r
}

/// `s.ends_with(p)`.
pub fn ends_with_str(s: &str, p: &str) -> (res: bool)
    ensures
        res == ends_with(s@, p@),
{
    let sv = chars_of(s);
    let pv = chars_of(p);
    if pv.len() > sv.len() {
        return false;
    }
    let r = vec_match_at(&sv, &pv, sv.len() - pv.len());
    proof {
        assert(s@.subrange(s@.len() - p@.len(), s@.len() as int) == s@.skip(s@.len() - p@.len()));
    }
    r
}

/// `s.trim_start()`.
pub fn trim_start_str(s: &str) -> (res: String)
    ensures
        res@ == trim_start(s@),
{
    let v = chars_of(s);
    let mut i: usize = 0;
    while i < v.len() && is_ws_char(v[i])
        invariant
            i <= v.len(),
            forall|j: int| 0 <= j < i ==> is_ws(#[trigger] v@[j]),
        decreases v.len() - i,
    {
        i = i + 1;
    }
    proof {
        lemma_lead_ws_char(s@, i as int);
        assert(v@.subrange(i as int, v@.len() as int) == s@.skip(i as int));
    }
    string_of_range(&v, i, v.len())
}

/// `s.trim_end()`.
pub fn trim_end_str(s: &str) -> (res: String)
    ensures
        res@ == trim_end(s@),
{
    let v = chars_of(s);
    let mut k: usize = 0;
    while k < v.len() && is_ws_char(v[v.len() - 1 - k])
        invariant
            k <= v.len(),
            forall|j: int| v.len() - k <= j < v.len() ==> is_ws(#[trigger] v@[j]),
        decreases v.len() - k,
    {
        k = k + 1;
    }
    proof {
        lemma_trail_ws_char(s@, k as int);
        assert(v@.subrange(0, v.len() - k) == s@.take(s@.len() - k));
    }
    string_of_range(&v, 0, v.len() - k)
}

/// `s.trim()`.
pub fn trim_str(s: &str) -> (res: String)
    ensures
        res@ == trim(s@),
{
    let t = trim_start_str(s);
    trim_end_str(t.as_str())
}

/// `s.trim().is_empty()`.
pub fn is_blank_str(s: &str) -> (res: bool)
    ensures
        res == is_blank(s@),
{
    let v = chars_of(s);
    let mut i: usize = 0;
    while i < v.len()
        invariant
            i <= v.len(),
            v@ == s@,
            forall|j: int| 0 <= j < i ==> is_ws(#[trigger] v@[j]),
        decreases v.len() - i,
    {
        if !is_ws_char(v[i]) {
            return false;
        }
        i = i + 1;
    }
    true
}

/// `s.strip_prefix(p)`.
pub fn strip_prefix_str(s: &str, p: &str) -> (res: Option<String>)
    ensures
        match res {
            Some(r) => strip_prefix(s@, p@) == Some(r@),
            None => strip_prefix(s@, p@) is None,
        },
{
    if starts_with_str(s, p) {
        let v = chars_of(s);
        let n = chars_of(p).len();
        Some(string_of_range(&v, n, v.len()))
    } else {
        None
    }
}

/// `s.strip_suffix(p)`.
pub fn strip_suffix_str(s: &str, p: &str) -> (res: Option<String>)
    ensures
        match res {
            Some(r) => strip_suffix(s@, p@) == Some(r@),
            None => strip_suffix(s@, p@) is None,
        },
{
    if ends_with_str(s, p) {
        let v = chars_of(s);
        let n = chars_of(p).len();
        Some(string_of_range(&v, 0, v.len() - n))
    } else {
        None
    }
}

/// `s.split_once(p)`.
pub fn split_once_str(s: &str, p: &str) -> (res: Option<(String, String)>)
    ensures
        match res {
            Some((a, b)) => split_once(s@, p@) == Some((a@, b@)),
            None => split_once(s@, p@) is None,
        },
{
    let v = chars_of(s);
    let pv = chars_of(p);
    match vec_find_from(&v, &pv, 0) {
        Some(i) => {
            proof {
                lemma_find_from_props(v@, pv@, 0);
                assert(match_at(v@, pv@, i as int));
                assert(i + pv@.len() <= v@.len());
            }
            let a = string_of_range(&v, 0, i);
            assert(i + pv.len() <= v.len());
            let start: usize = i + pv.len();
            let b = string_of_range(&v, start, v.len());
            Some((a, b))
        },
        None => None,
    }
}

/// `s.rfind(p)`, as an index into the characters of `s`.
pub fn rfind_str(s: &str, p: &str) -> (res: Option<usize>)
    ensures
        match res {
            Some(k) => rfind(s@, p@) == Some(k as int),
            None => rfind(s@, p@) is None,
        },
{
    let sv = chars_of(s);
    let pv = chars_of(p);
    vec_rfind(&sv, &pv)
}

/// `s.lines()`.
pub fn lines_of(s: &str) -> (res: Vec<String>)
    ensures
        views(res@) == lines(s@),
{
    let v = chars_of(s);
    let mut nl: Vec<char> = Vec::new();
    nl.push('\n');
    assert(nl@ == seq!['\n']);
    let mut out: Vec<String> = Vec::new();
    let mut pos: usize = 0;
    assert(s@.skip(0) == s@);
    while pos < v.len()
        invariant
            pos <= v.len(),
            v@ == s@,
            nl@ == seq!['\n'],
            lines(s@) == views(out@) + lines(s@.skip(pos as int)),
        decreases v.len() - pos,
    {
        let rest = string_of_range(&v, pos, v.len());
        let rv = chars_of(rest.as_str());
        assert(rv@ == s@.skip(pos as int));
        match vec_find_from(&rv, &nl, 0) {
            Some(i) => {
                proof {
                    lemma_find_from_props(rv@, nl@, 0);
                }
                let mut end = i;
                if end > 0 && rv[end - 1] == '\r' {
                    end = end - 1;
                }
                let line = string_of_range(&rv, 0, end);
                assert(line@ == strip_cr(rv@.take(i as int)));
                let ghost old_out = out@;
                out.push(line);
                assert(views(out@) == views(old_out).push(line@));
                assert(rv@.skip(i + 1) == s@.skip(pos + i + 1));
                assert(lines(rv@) == seq![strip_cr(rv@.take(i as int))] + lines(rv@.skip(i + 1)));
                assert(views(out@) + lines(s@.skip(pos + i + 1)) =~= views(old_out) + (seq![line@]
                    + lines(s@.skip(pos + i + 1))));
                pos = pos + i + 1;
            },
            None => {
                let ghost old_out = out@;
                out.push(rest);
                assert(views(out@) == views(old_out).push(rv@));
                assert(lines(rv@) == seq![rv@]);
                assert(s@.skip(v.len() as int) =~= Seq::<char>::empty());
                assert(views(out@) + lines(s@.skip(v.len() as int)) =~= views(old_out) + seq![rv@]);
                pos = v.len();
            },
        }
    }
    assert(s@.skip(pos as int) =~= Seq::<char>::empty());
    assert(views(out@) + lines(s@.skip(pos as int)) =~= views(out@));
    out
}

/// `s.split(c)`.
pub fn split_char_str(s: &str, c: char) -> (res: Vec<String>)
    ensures
        views(res@) == split_char(s@, c),
{
    let v = chars_of(s);
    let mut sep: Vec<char> = Vec::new();
    sep.push(c);
    assert(sep@ == seq![c]);
    let mut out: Vec<String> = Vec::new();
    let mut pos: usize = 0;
    assert(s@.skip(0) == s@);
    loop
        invariant
            pos <= v.len(),
            v@ == s@,
            sep@ == seq![c],
            split_char(s@, c) == views(out@) + split_char(s@.skip(pos as int), c),
        decreases v.len() - pos,
    {
        let rest = string_of_range(&v, pos, v.len());
        let rv = chars_of(rest.as_str());
        assert(rv@ == s@.skip(pos as int));
        match vec_find_from(&rv, &sep, 0) {
            Some(i) => {
                proof {
                    lemma_find_from_props(rv@, sep@, 0);
                }
                let piece = string_of_range(&rv, 0, i);
                let ghost old_out = out@;
                out.push(piece);
                assert(views(out@) == views(old_out).push(piece@));
                assert(rv@.skip(i + 1) == s@.skip(pos + i + 1));
                assert(views(out@) + split_char(s@.skip(pos + i + 1), c) =~= views(old_out) + (seq![
                    piece@,
                ] + split_char(s@.skip(pos + i + 1), c)));
                pos = pos + i + 1;
            },
            None => {
                let ghost old_out = out@;
                out.push(rest);
                assert(views(out@) == views(old_out).push(rv@));
                assert(views(out@) =~= views(old_out) + seq![rv@]);
                return out;
            },
        }
    }
}

/// `parts.join(sep)`.
pub fn join_strs(parts: &Vec<String>, sep: &str) -> (res: String)
    ensures
        res@ == join(views(parts@), sep@),
{
    let mut out = String::new();
    let mut i: usize = 0;
    while i < parts.len()
        invariant
            i <= parts.len(),
            out@ == join(views(parts@).take(i as int), sep@),
        decreases parts.len() - i,
    {
        let ghost vs = views(parts@);
        assert(vs.take(i + 1).drop_last() == vs.take(i as int));
        assert(vs.take(i + 1).last() == parts@[i as int]@);
        if i > 0 {
            out.append(sep);
        } else {
            assert(vs.take(1) == seq![parts@[0]@]);
        }
        out.append(parts[i].as_str());
        i = i + 1;
    }
    assert(views(parts@).take(parts.len() as int) == views(parts@));
    out
}

/// `s.to_ascii_lowercase()`.
pub fn ascii_lower_str(s: &str) -> (res: String)
    ensures
        res@ == ascii_lower(s@),
{
    let v = chars_of(s);
    let mut out = String::new();
    let mut i: usize = 0;
    while i < v.len()
        invariant
            i <= v.len(),
            v@ == s@,
            out@ == ascii_lower(s@.take(i as int)),
        decreases v.len() - i,
    {
        let c = v[i];
        let lc = if 'A' <= c && c <= 'Z' {
            char_from_code((c as u32) + 32)
        } else {
            c
        };
        assert(lc == ascii_lower_char(c));
        string_push(&mut out, lc);
        assert(ascii_lower(s@.take(i + 1)) =~= ascii_lower(s@.take(i as int)).push(lc));
        i = i + 1;
    }
    assert(s@.take(v.len() as int) == s@);
    out
}

/// The character with an ASCII code point.
fn char_from_code(code: u32) -> (c: char)
    requires
        code < 128,
    ensures
        c == code as char,
{
    let b = code as u8;
    b as char
}

/// `ch.to_ascii_uppercase()`.
pub fn ascii_upper_char_exec(c: char) -> (res: char)
    ensures
        res == ascii_upper_char(c),
{
    if 'a' <= c && c <= 'z' {
        char_from_code((c as u32) - 32)
    } else {
        c
    }
}

/// `ch.is_ascii_digit()`.
pub fn is_ascii_digit_char(c: char) -> (res: bool)
    ensures
        res == is_ascii_digit(c),
{
    '0' <= c && c <= '9'
}

/// Decimal text of `n` (`n.to_string()`).
pub fn u128_to_dec(n: u128) -> (res: String)
    ensures
        res@ == dec(n as nat),
{
    let mut digits: Vec<char> = Vec::new();
    let mut m = n;
    // digits are collected least significant first
    while m >= 10
        invariant
            m <= n,
            dec(n as nat) == dec(m as nat) + digits@.reverse(),
        decreases m,
    {
        let d = m % 10;
        let ghost old_digits = digits@;
        digits.push(char_from_code(48 + (d as u32)));
        assert(dec(m as nat) == dec((m / 10) as nat).push(digit_char((m % 10) as nat)));
        assert(digits@.reverse() =~= seq![digit_char(d as nat)] + old_digits.reverse());
        assert(dec((m / 10) as nat) + digits@.reverse() =~= dec((m / 10) as nat).push(
            digit_char(d as nat),
        ) + old_digits.reverse());
        m = m / 10;
    }
    let ghost old_digits = digits@;
    digits.push(char_from_code(48 + (m as u32)));
    assert(dec(m as nat) == seq![digit_char(m as nat)]);
    assert(digits@.reverse() =~= seq![digit_char(m as nat)] + old_digits.reverse());
    assert(dec(n as nat) == digits@.reverse());
    let mut out = String::new();
    let mut i = digits.len();
    while i > 0
        invariant
            i <= digits.len(),
            out@ == digits@.reverse().take((digits.len() - i) as int),
        decreases i,
    {
        i = i - 1;
        string_push(&mut out, digits[i]);
        assert(digits@.reverse().take((digits.len() - i) as int) =~= digits@.reverse().take(
            (digits.len() - i - 1) as int,
        ).push(digits@[i as int]));
    }
    assert(digits@.reverse().take(digits.len() as int) == digits@.reverse());
    out
}

/// Decimal text of `n` (`n.to_string()`).
pub fn u64_to_dec(n: u64) -> (res: String)
    ensures
        res@ == dec(n as nat),
{
    u128_to_dec(n as u128)
}

/// Decimal text of `n`, with a leading `-` when negative (`n.to_string()`).
pub fn i64_to_dec(n: i64) -> (res: String)
    ensures
        res@ == dec_int(n as int),
{
    if n < 0 {
        let m: i128 = 0 - (n as i128);
        let digits = u128_to_dec(m as u128);
        proof {
            reveal_strlit("-");
        }
        concat2("-", digits.as_str())
    } else {
        u128_to_dec(n as u128)
    }
}

/// Value of the ASCII digits `v[lo..hi]`, or `None` when it exceeds `limit`.
fn digits_value_upto(v: &Vec<char>, lo: usize, hi: usize, limit: u64) -> (res: Option<u64>)
    requires
        lo <= hi <= v.len(),
        all_digits(v@.subrange(lo as int, hi as int)),
        limit >= 9,
    ensures
        match res {
            Some(x) => x == digits_value(v@.subrange(lo as int, hi as int)) && x <= limit,
            None => digits_value(v@.subrange(lo as int, hi as int)) > limit,
        },
{
    let mut acc: u64 = 0;
    let mut i = lo;
    while i < hi
        invariant
            lo <= i <= hi <= v.len(),
            all_digits(v@.subrange(lo as int, hi as int)),
            acc == digits_value(v@.subrange(lo as int, i as int)),
            acc <= limit,
            limit >= 9,
        decreases hi - i,
    {
        assert(v@.subrange(lo as int, hi as int)[i - lo] == v@[i as int]);
        let d = (v[i] as u32) - ('0' as u32);
        assert(d <= 9);
        let ghost sub = v@.subrange(lo as int, i + 1);
        assert(sub.drop_last() == v@.subrange(lo as int, i as int));
        assert(sub.last() == v@[i as int]);
        assert(digits_value(sub) == acc * 10 + d);
        if acc > (limit - (d as u64)) / 10 {
            proof {
                lemma_digits_value_prefix_mono(v@.subrange(lo as int, hi as int), (i + 1 - lo) as int);
                assert(v@.subrange(lo as int, hi as int).take((i + 1 - lo) as int) == sub);
                assert(acc * 10 + d > limit) by (nonlinear_arith)
                    requires
                        acc > (limit - d) / 10,
                        d <= 9,
                        d <= limit,
                ;
            }
            return None;
        }
        proof {
            assert(acc * 10 + d <= limit) by (nonlinear_arith)
                requires
                    acc <= (limit - d) / 10,
                    d <= limit,
            ;
        }
        acc = acc * 10 + (d as u64);
        i = i + 1;
    }
    Some(acc)
}

pub proof fn lemma_digits_value_prefix_mono(s: Seq<char>, k: int)
    requires
        0 <= k <= s.len(),
        all_digits(s),
    ensures
        digits_value(s.take(k)) <= digits_value(s),
    decreases s.len(),
{
    if k < s.len() {
        lemma_digits_value_prefix_mono(s.drop_last(), k);
        assert(s.drop_last().take(k) == s.take(k));
        assert(digits_value(s.drop_last()) <= digits_value(s)) by (nonlinear_arith)
            requires
                digits_value(s) == digits_value(s.drop_last()) * 10 + ((s.last() as u32) - ('0' as u32)) as nat,
        ;
    } else {
        assert(s.take(k) == s);
    }
}

/// Whether `v[lo..hi]` is made of ASCII digits.
fn all_digits_range(v: &Vec<char>, lo: usize, hi: usize) -> (res: bool)
    requires
        lo <= hi <= v.len(),
    ensures
        res == all_digits(v@.subrange(lo as int, hi as int)),
{
    let mut i = lo;
    while i < hi
        invariant
            lo <= i <= hi <= v.len(),
            forall|j: int| lo <= j < i ==> is_ascii_digit(#[trigger] v@[j]),
        decreases hi - i,
    {
        if !is_ascii_digit_char(v[i]) {
            assert(v@.subrange(lo as int, hi as int)[i - lo] == v@[i as int]);
            return false;
        }
        i = i + 1;
    }
    assert forall|j: int| 0 <= j < hi - lo implies is_ascii_digit(
        #[trigger] v@.subrange(lo as int, hi as int)[j],
    ) by {
        assert(v@.subrange(lo as int, hi as int)[j] == v@[lo + j]);
    }
    true
}

/// `s.parse::<u64>()`.
pub fn parse_u64_str(s: &str) -> (res: Option<u64>)
    ensures
        res == parse_u64_spec(s@),
{
    let v = chars_of(s);
    let lo: usize = if v.len() > 0 && v[0] == '+' {
        1
    } else {
        0
    };
    assert(v@.subrange(lo as int, v.len() as int) == (if s@.len() > 0 && s@[0] == '+' {
        s@.drop_first()
    } else {
        s@
    }));
    if lo == v.len() || !all_digits_range(&v, lo, v.len()) {
        return None;
    }
    digits_value_upto(&v, lo, v.len(), u64::MAX)
}

/// `s.parse::<i64>()`.
pub fn parse_i64_str(s: &str) -> (res: Option<i64>)
    ensures
        res == parse_i64_spec(s@),
{
    let v = chars_of(s);
    if v.len() > 0 && v[0] == '-' {
        assert(v@.subrange(1, v.len() as int) == s@.drop_first());
        if v.len() == 1 || !all_digits_range(&v, 1, v.len()) {
            return None;
        }
        match digits_value_upto(&v, 1, v.len(), 0x8000_0000_0000_0000u64) {
            Some(x) => {
                let r: i128 = 0 - (x as i128);
                Some(r as i64)
            },
            None => None,
        }
    } else {
        let lo: usize = if v.len() > 0 && v[0] == '+' {
            1
        } else {
            0
        };
        assert(v@.subrange(lo as int, v.len() as int) == (if s@.len() > 0 && s@[0] == '+' {
            s@.drop_first()
        } else {
            s@
        }));
        if lo == v.len() || !all_digits_range(&v, lo, v.len()) {
            return None;
        }
        match digits_value_upto(&v, lo, v.len(), 0x7fff_ffff_ffff_ffffu64) {
            Some(x) => Some(x as i64),
            None => None,
        }
    }
}

/// `a < b` for texts.
pub fn str_lt(a: &str, b: &str) -> (res: bool)
    ensures
        res == seq_lt(a@, b@),
{
    let av = chars_of(a);
    let bv = chars_of(b);
    let mut i: usize = 0;
    assert(a@.skip(0) =~= a@);
    assert(b@.skip(0) =~= b@);
    while i < av.len() && i < bv.len() && av[i] == bv[i]
        invariant
            i <= av.len(),
            i <= bv.len(),
            av@ == a@,
            bv@ == b@,
            seq_lt(a@, b@) == seq_lt(a@.skip(i as int), b@.skip(i as int)),
        decreases av.len() - i,
    {
        assert(a@.skip(i as int).drop_first() =~= a@.skip(i + 1));
        assert(b@.skip(i as int).drop_first() =~= b@.skip(i + 1));
        i = i + 1;
    }
    if i == av.len() {
        return i < bv.len();
    }
    if i == bv.len() {
        return false;
    }
    (av[i] as u32) < (bv[i] as u32)
}

/// `a == b` on texts.
pub fn str_eq(a: &str, b: &str) -> (res: bool)
    ensures
        res == (a@ == b@),
{
    let av = chars_of(a);
    let bv = chars_of(b);
    if av.len() != bv.len() {
        return false;
    }
    let r = vec_match_at(&av, &bv, 0);
    proof {
        assert(a@.subrange(0, a@.len() as int) == a@);
    }
    r
}

// ---------------------------------------------------------------------------
// Lemmas
// ---------------------------------------------------------------------------
pub proof fn lemma_lead_ws_bound(s: Seq<char>)
    ensures
        lead_ws(s) <= s.len(),
        forall|j: int| 0 <= j < lead_ws(s) ==> is_ws(#[trigger] s[j]),
        lead_ws(s) < s.len() ==> !is_ws(s[lead_ws(s) as int]),
    decreases s.len(),
{
    if s.len() > 0 && is_ws(s[0]) {
        lemma_lead_ws_bound(s.drop_first());
        assert forall|j: int| 0 <= j < lead_ws(s) implies is_ws(#[trigger] s[j]) by {
            if j > 0 {
                assert(s[j] == s.drop_first()[j - 1]);
            }
        }
    }
}

pub proof fn lemma_lead_ws_char(s: Seq<char>, k: int)
    requires
        0 <= k <= s.len(),
        forall|j: int| 0 <= j < k ==> is_ws(#[trigger] s[j]),
        k < s.len() ==> !is_ws(s[k]),
    ensures
        lead_ws(s) == k,
    decreases s.len(),
{
    if k > 0 {
        assert(is_ws(s[0]));
        assert forall|j: int| 0 <= j < k - 1 implies is_ws(#[trigger] s.drop_first()[j]) by {
            assert(s.drop_first()[j] == s[j + 1]);
        }
        if k - 1 < s.drop_first().len() {
            assert(s.drop_first()[k - 1] == s[k]);
        }
        lemma_lead_ws_char(s.drop_first(), k - 1);
    }
}

pub proof fn lemma_trail_ws_bound(s: Seq<char>)
    ensures
        trail_ws(s) <= s.len(),
        forall|j: int| s.len() - trail_ws(s) <= j < s.len() ==> is_ws(#[trigger] s[j]),
        trail_ws(s) < s.len() ==> !is_ws(s[s.len() - trail_ws(s) - 1]),
    decreases s.len(),
{
    if s.len() > 0 && is_ws(s.last()) {
        lemma_trail_ws_bound(s.drop_last());
        assert forall|j: int| s.len() - trail_ws(s) <= j < s.len() implies is_ws(#[trigger] s[j]) by {
            if j < s.len() - 1 {
                assert(s[j] == s.drop_last()[j]);
            }
        }
        if trail_ws(s) < s.len() {
            assert(s[s.len() - trail_ws(s) - 1] == s.drop_last()[s.drop_last().len() - trail_ws(s.drop_last()) - 1]);
        }
    }
}

pub proof fn lemma_trail_ws_char(s: Seq<char>, k: int)
    requires
        0 <= k <= s.len(),
        forall|j: int| s.len() - k <= j < s.len() ==> is_ws(#[trigger] s[j]),
        k < s.len() ==> !is_ws(s[s.len() - k - 1]),
    ensures
        trail_ws(s) == k,
    decreases s.len(),
{
    if k > 0 {
        assert(is_ws(s[s.len() - 1]));
        assert forall|j: int| s.drop_last().len() - (k - 1) <= j < s.drop_last().len() implies is_ws(
            #[trigger] s.drop_last()[j],
        ) by {
            assert(s.drop_last()[j] == s[j]);
        }
        if k - 1 < s.drop_last().len() {
            assert(s.drop_last()[s.drop_last().len() - (k - 1) - 1] == s[s.len() - k - 1]);
        }
        lemma_trail_ws_char(s.drop_last(), k - 1);
    }
}

/// Blank text is exactly text whose trim is empty.
pub proof fn lemma_blank_iff_trim_empty(s: Seq<char>)
    ensures
        is_blank(s) <==> trim(s).len() == 0,
        is_blank(s) <==> trim_start(s).len() == 0,
        is_blank(s) <==> trim_end(s).len() == 0,
{
    lemma_lead_ws_bound(s);
    lemma_trail_ws_bound(s);
    lemma_trail_ws_bound(trim_start(s));
    if is_blank(s) {
        lemma_lead_ws_char(s, s.len() as int);
        lemma_trail_ws_char(s, s.len() as int);
    }
    if trim_start(s).len() > 0 {
        assert(!is_ws(s[lead_ws(s) as int]));
        assert(trim_start(s)[0] == s[lead_ws(s) as int]);
        if trim_end(trim_start(s)).len() == 0 {
            assert(is_ws(trim_start(s)[0]));
        }
    }
    if trim_end(s).len() == 0 && s.len() > 0 {
        assert forall|i: int| 0 <= i < s.len() implies is_ws(#[trigger] s[i]) by {}
    }
}

/// Trimming twice is trimming once.
pub proof fn lemma_trim_idempotent(s: Seq<char>)
    ensures
        trim(trim(s)) == trim(s),
{
    let u = trim_start(s);
    let t = trim(s);
    lemma_lead_ws_bound(s);
    lemma_trail_ws_bound(u);
    if t.len() == 0 {
        lemma_lead_ws_char(t, 0);
        lemma_trail_ws_char(t, 0);
        assert(trim(t) =~= t);
    } else {
        assert(t[0] == u[0]);
        assert(u[0] == s[lead_ws(s) as int]);
        assert(t[t.len() - 1] == u[u.len() - trail_ws(u) - 1]);
        lemma_lead_ws_char(t, 0);
        assert(trim_start(t) =~= t);
        lemma_trail_ws_char(t, 0);
        assert(trim(t) =~= t);
    }
}

/// Splitting gives at least one piece.
pub proof fn lemma_split_char_nonempty(s: Seq<char>, c: char)
    ensures
        split_char(s, c).len() >= 1,
{
}

proof fn lemma_find_char_at(s: Seq<char>, c: char, i: int)
    requires
        0 <= i < s.len(),
        s[i] == c,
        forall|j: int| 0 <= j < i ==> s[j] != c,
    ensures
        find(s, seq![c]) == Some(i),
{
    lemma_find_from_props(s, seq![c], 0);
    assert(s.subrange(i, i + 1) =~= seq![c]);
    assert(match_at(s, seq![c], i));
    match find(s, seq![c]) {
        Some(k) => {
            assert(s.subrange(k, k + 1)[0] == s[k]);
            if k > i {
                assert(!match_at(s, seq![c], i));
            }
        },
        None => {},
    }
}

proof fn lemma_find_char_none(s: Seq<char>, c: char)
    requires
        forall|j: int| 0 <= j < s.len() ==> s[j] != c,
    ensures
        find(s, seq![c]) is None,
{
    lemma_find_from_props(s, seq![c], 0);
    match find(s, seq![c]) {
        Some(k) => {
            assert(s.subrange(k, k + 1)[0] == s[k]);
        },
        None => {},
    }
}

/// Splitting the empty text gives one empty piece.
pub proof fn lemma_split_char_empty(c: char)
    ensures
        split_char(Seq::<char>::empty(), c) == seq![Seq::<char>::empty()],
{
    lemma_find_char_none(Seq::<char>::empty(), c);
}

/// Splitting a text with one more character: a separator starts a new,
/// empty piece; any other character ends the last piece.
pub proof fn lemma_split_char_push(s: Seq<char>, c: char, x: char)
    ensures
        split_char(s.push(x), c) == (if x == c {
            split_char(s, c).push(Seq::<char>::empty())
        } else {
            split_char(s, c).drop_last().push(split_char(s, c).last().push(x))
        }),
    decreases s.len(),
{
    lemma_find_from_props(s, seq![c], 0);
    lemma_find_char_none(Seq::<char>::empty(), c);
    assert(split_char(Seq::<char>::empty(), c) == seq![Seq::<char>::empty()]);
    let sx = s.push(x);
    match find(s, seq![c]) {
        None => {
            assert forall|j: int| 0 <= j < s.len() implies s[j] != c by {
                if s[j] == c {
                    assert(s.subrange(j, j + 1) =~= seq![c]);
                    assert(match_at(s, seq![c], j));
                }
            }
            if x == c {
                lemma_find_char_at(sx, c, s.len() as int);
                assert(sx.take(s.len() as int) =~= s);
                assert(sx.skip(s.len() as int + 1) =~= Seq::<char>::empty());
                assert(split_char(sx, c) =~= seq![s, Seq::<char>::empty()]);
            } else {
                lemma_find_char_none(sx, c);
                assert(split_char(sx, c) =~= seq![sx]);
            }
        },
        Some(i) => {
            assert(s.subrange(i, i + 1)[0] == s[i]);
            assert forall|j: int| 0 <= j < i implies sx[j] != c by {
                if s[j] == c {
                    assert(s.subrange(j, j + 1) =~= seq![c]);
                    assert(match_at(s, seq![c], j));
                }
            }
            lemma_find_char_at(sx, c, i);
            let t = s.skip(i + 1);
            assert(sx.take(i) =~= s.take(i));
            assert(sx.skip(i + 1) =~= t.push(x));
            lemma_split_char_push(t, c, x);
            lemma_split_char_nonempty(t, c);
            assert(split_char(s, c) == seq![s.take(i)] + split_char(t, c));
            assert(split_char(sx, c) == seq![s.take(i)] + split_char(t.push(x), c));
            if x == c {
                assert(split_char(sx, c) =~= split_char(s, c).push(Seq::<char>::empty()));
            } else {
                assert(split_char(sx, c) =~= split_char(s, c).drop_last().push(split_char(s, c).last().push(x)));
            }
        },
    }
}

/// The pieces of two texts joined by the separator are the pieces of the
/// first followed by those of the second.
pub proof fn lemma_split_char_joined(a: Seq<char>, b: Seq<char>, c: char)
    ensures
        split_char(a + seq![c] + b, c) == split_char(a, c) + split_char(b, c),
    decreases b.len(),
{
    lemma_find_char_none(Seq::<char>::empty(), c);
    assert(split_char(Seq::<char>::empty(), c) == seq![Seq::<char>::empty()]);
    if b.len() == 0 {
        assert(b =~= Seq::<char>::empty());
        assert(a + seq![c] + b =~= a.push(c));
        lemma_split_char_push(a, c, c);
        assert(split_char(b, c) =~= seq![Seq::<char>::empty()]);
    } else {
        let b1 = b.drop_last();
        let x = b.last();
        lemma_split_char_joined(a, b1, c);
        assert(a + seq![c] + b =~= (a + seq![c] + b1).push(x));
        assert(b =~= b1.push(x));
        lemma_split_char_push(a + seq![c] + b1, c, x);
        lemma_split_char_push(b1, c, x);
        lemma_split_char_nonempty(b1, c);
        if x == c {
            assert(split_char(a + seq![c] + b, c) =~= split_char(a, c) + split_char(b, c));
        } else {
            assert(split_char(a + seq![c] + b, c) =~= split_char(a, c) + split_char(b, c));
        }
    }
}

pub proof fn lemma_find_from_props(s: Seq<char>, p: Seq<char>, i: int)
    requires
        0 <= i,
    ensures
        find_from(s, p, i) matches Some(k) ==> i <= k && match_at(s, p, k) && forall|j: int|
            i <= j < k ==> !match_at(s, p, j),
        find_from(s, p, i) is None ==> forall|j: int| i <= j ==> !match_at(s, p, j),
    decreases s.len() + 1 - i,
{
    if i + p.len() > s.len() {
    } else if match_at(s, p, i) {
    } else {
        lemma_find_from_props(s, p, i + 1);
    }
}


/// No text comes before itself.
/// What `rfind_upto` finds is an occurrence at or before `i`.
pub proof fn lemma_rfind_upto_props(s: Seq<char>, p: Seq<char>, i: int)
    ensures
        rfind_upto(s, p, i) matches Some(k) ==> 0 <= k <= i && match_at(s, p, k),
    decreases i + 1,
{
    if i >= 0 && !match_at(s, p, i) {
        lemma_rfind_upto_props(s, p, i - 1);
    }
}

/// What `rfind` finds is an occurrence that fits in the text.
pub proof fn lemma_rfind_props(s: Seq<char>, p: Seq<char>)
    ensures
        rfind(s, p) matches Some(k) ==> 0 <= k && k + p.len() <= s.len() && match_at(s, p, k),
{
    lemma_rfind_upto_props(s, p, s.len() - p.len());
}

pub proof fn lemma_seq_lt_irreflexive(a: Seq<char>)
    ensures
        !seq_lt(a, a),
    decreases a.len(),
{
    if a.len() > 0 {
        lemma_seq_lt_irreflexive(a.drop_first());
    }
}

/// The order of texts is transitive.
pub proof fn lemma_seq_lt_transitive(a: Seq<char>, b: Seq<char>, c: Seq<char>)
    requires
        seq_lt(a, b),
        seq_lt(b, c),
    ensures
        seq_lt(a, c),
    decreases a.len(),
{
    if a.len() > 0 && b.len() > 0 && c.len() > 0 && a[0] == b[0] && b[0] == c[0] {
        lemma_seq_lt_transitive(a.drop_first(), b.drop_first(), c.drop_first());
    }
}

/// Two different texts are ordered one way or the other.
pub proof fn lemma_seq_lt_total(a: Seq<char>, b: Seq<char>)
    ensures
        a == b || seq_lt(a, b) || seq_lt(b, a),
    decreases a.len(),
{
    if a.len() > 0 && b.len() > 0 {
        if a[0] == b[0] {
            lemma_seq_lt_total(a.drop_first(), b.drop_first());
            if a.drop_first() == b.drop_first() {
                assert(a =~= seq![a[0]] + a.drop_first());
                assert(b =~= seq![b[0]] + b.drop_first());
            }
        } else {
            let x = a[0];
            let y = b[0];
            vstd::utf8::char_u32_cast(x, x as u32);
            vstd::utf8::char_u32_cast(y, y as u32);
            assert((x as u32) != (y as u32));
        }
    } else if a.len() == 0 && b.len() == 0 {
        assert(a =~= b);
    }
}

/// Two texts are not each before the other.
pub proof fn lemma_seq_lt_asymmetric(a: Seq<char>, b: Seq<char>)
    requires
        seq_lt(a, b),
    ensures
        !seq_lt(b, a),
{
    if seq_lt(b, a) {
        lemma_seq_lt_transitive(a, b, a);
        lemma_seq_lt_irreflexive(a);
    }
}

} // verus!
