//! The HTTP card under a failed assertion: which HTTP exchange of the test
//! the failure is about, and how it is shown.
use crate::format::ansi::{dim, styled, yellow};
use crate::format::bridge_console::{
    copy_assertion_evt, copy_http_event, copy_opt_text, evt_views, http_views, AssertionEvt,
    AssertionEvtView, HttpEvent, HttpEventView,
};
use crate::format::time::{format_duration, pretty_duration, Duration};
use crate::live_progress::{split_whitespace_str, words};
use crate::test_model::opt_seq;
use crate::text::{
    all_digits, ascii_lower, ascii_lower_str, chars_of, concat2, contains, contains_str, dec, dec_int,
    digits_value, find, find_str, i64_to_dec, is_ascii_digit, is_ascii_digit_char, is_blank, is_blank_str,
    join, join_strs, owned, parse_i64_spec, parse_i64_str, push_str, split_once, split_once_str, starts_with,
    str_eq, string_of_range, trim, trim_str, views,
};
use vstd::prelude::*;

verus! {

pub open spec fn or_empty(o: Option<Seq<char>>) -> Seq<char> {
    match o {
        Some(s) => s,
        None => Seq::empty(),
    }
}

/// Two test names match when one holds the other.
pub open spec fn name_matches_spec(left: Option<Seq<char>>, right: Option<Seq<char>>) -> bool {
    match (left, right) {
        (Some(l), Some(r)) => l == r || contains(l, r) || contains(r, l),
        _ => false,
    }
}

/// An event belongs to a test when it names the test's file and a
/// matching test name.
pub open spec fn same_test_ctx_spec(
    left_path: Option<Seq<char>>,
    left_name: Option<Seq<char>>,
    right_path: Seq<char>,
    right_name: Seq<char>,
) -> bool {
    left_path == Some(right_path) && name_matches_spec(left_name, Some(right_name))
}

fn opt_str(o: &Option<String>) -> (res: Option<&str>)
    ensures
        match res {
            Some(s) => opt_seq(*o) == Some(s@),
            None => o is None,
        },
{
    match o {
        Some(s) => Some(s.as_str()),
        None => None,
    }
}

fn name_matches(left: Option<&str>, right: Option<&str>) -> (res: bool)
    ensures
        res == name_matches_spec(match left {
            Some(l) => Some(l@),
            None => None,
        }, match right {
            Some(r) => Some(r@),
            None => None,
        }),
{
    match (left, right) {
        (Some(l), Some(r)) => str_eq(l, r) || contains_str(l, r) || contains_str(r, l),
        _ => false,
    }
}

fn same_test_ctx(left_path: &Option<String>, left_name: &Option<String>, right_path: &str, right_name: &str) -> (res:
    bool)
    ensures
        res == same_test_ctx_spec(opt_seq(*left_path), opt_seq(*left_name), right_path@, right_name@),
{
    let path_ok = match left_path {
        Some(p) => str_eq(p.as_str(), right_path),
        None => false,
    };
    path_ok && name_matches(opt_str(left_name), Some(right_path_name(right_name)))
}

fn right_path_name(s: &str) -> (res: &str)
    ensures
        res@ == s@,
{
    s
}

/// A message that tells of a broken connection.
pub open spec fn is_transport_error_spec(msg: Option<Seq<char>>) -> bool {
    let lower = ascii_lower(or_empty(msg));
    contains(lower, "socket hang up"@) || contains(lower, "econnreset"@) || contains(lower, "etimedout"@)
        || contains(lower, "econnrefused"@) || contains(lower, "write epipe"@)
}

fn is_transport_error(msg: &Option<String>) -> (res: bool)
    ensures
        res == is_transport_error_spec(opt_seq(*msg)),
{
    let lower = match msg {
        Some(m) => ascii_lower_str(m.as_str()),
        None => String::new(),
    };
    assert(ascii_lower(Seq::<char>::empty()) =~= Seq::<char>::empty());
    let l = lower.as_str();
    contains_str(l, "socket hang up") || contains_str(l, "econnreset") || contains_str(l, "etimedout")
        || contains_str(l, "econnrefused") || contains_str(l, "write epipe")
}

/// A number in the range of HTTP status codes, 100 to 599.
pub open spec fn is_http_status_spec(value: Option<i64>) -> bool {
    match value {
        Some(n) => 100 <= n <= 599,
        None => false,
    }
}

fn is_http_status_number(value: Option<i64>) -> (res: bool)
    ensures
        res == is_http_status_spec(value),
{
    match value {
        Some(n) => 100 <= n && n <= 599,
        None => false,
    }
}

/// A test file whose path suggests it tests HTTP routes.
pub open spec fn file_suggests_http_spec(rel_path: Seq<char>) -> bool {
    let lower = ascii_lower(rel_path);
    contains(lower, "/routes/"@) || contains(lower, "/route/"@) || contains(lower, "/api/"@) || contains(
        lower,
        "/controller"@,
    ) || contains(lower, "/e2e"@) || contains(lower, "/integration"@) || contains(lower, ".test."@)
}

fn file_suggests_http(rel_path: &str) -> (res: bool)
    ensures
        res == file_suggests_http_spec(rel_path@),
{
    let lower = ascii_lower_str(rel_path);
    let l = lower.as_str();
    contains_str(l, "/routes/") || contains_str(l, "/route/") || contains_str(l, "/api/") || contains_str(
        l,
        "/controller",
    ) || contains_str(l, "/e2e") || contains_str(l, "/integration") || contains_str(l, ".test.")
}

/// The HTTP methods a test title may start with.
pub open spec fn http_methods() -> Seq<Seq<char>> {
    seq!["GET"@, "POST"@, "PUT"@, "PATCH"@, "DELETE"@, "HEAD"@, "OPTIONS"@]
}

/// The first listed method equal to `w` up to ASCII case.
pub open spec fn method_of(w: Seq<char>, ms: Seq<Seq<char>>) -> Option<Seq<char>>
    decreases ms.len(),
{
    if ms.len() == 0 {
        None
    } else if ascii_lower(w) == ascii_lower(ms[0]) {
        Some(ms[0])
    } else {
        method_of(w, ms.drop_first())
    }
}

pub open spec fn nth_word(title: Seq<char>, n: int) -> Seq<char> {
    if words(title).len() > n {
        words(title)[n]
    } else {
        Seq::empty()
    }
}

/// The method and path a test title starts with, as in `GET /users`: the
/// first word when it is a method (in any case), the second when it
/// starts with `/`.
pub open spec fn title_hints(title: Seq<char>) -> (Option<Seq<char>>, Option<Seq<char>>) {
    let first = nth_word(title, 0);
    let second = nth_word(title, 1);
    (method_of(first, http_methods()), if starts_with(second, seq!['/']) {
        Some(second)
    } else {
        None
    })
}

fn parse_method_path_from_title(title: &str) -> (res: (Option<String>, Option<String>))
    ensures
        (opt_seq(res.0), opt_seq(res.1)) == title_hints(title@),
{
    let ws = split_whitespace_str(title);
    let first = if ws.len() > 0 {
        owned(ws[0].as_str())
    } else {
        String::new()
    };
    let second = if ws.len() > 1 {
        owned(ws[1].as_str())
    } else {
        String::new()
    };
    let methods = ["GET", "POST", "PUT", "PATCH", "DELETE", "HEAD", "OPTIONS"];
    assert(methods@.map_values(|m: &str| m@) =~= http_methods());
    let fl = ascii_lower_str(first.as_str());
    let mut method: Option<String> = None;
    let mut k: usize = 0;
    let ghost ms = http_methods();
    assert(ms.skip(0) =~= ms);
    while k < 7
        invariant
            k <= 7,
            ms == http_methods(),
            methods@.map_values(|m: &str| m@) == ms,
            fl@ == ascii_lower(first@),
            method is None ==> method_of(first@, ms) == method_of(first@, ms.skip(k as int)),
            method is Some ==> opt_seq(method) == method_of(first@, ms),
        decreases 7 - k,
    {
        assert(ms.skip(k as int)[0] == methods@[k as int]@);
        assert(ms.skip(k as int).drop_first() =~= ms.skip(k + 1));
        if method.is_none() {
            let ml = ascii_lower_str(methods[k]);
            if str_eq(fl.as_str(), ml.as_str()) {
                method = Some(owned(methods[k]));
            }
        }
        k = k + 1;
    }
    proof {
        if method is None {
            assert(ms.skip(7) =~= Seq::<Seq<char>>::empty());
        }
    }
    proof {
        reveal_strlit("/");
        assert("/"@ =~= seq!['/']);
    }
    let path = if crate::text::starts_with_str(second.as_str(), "/") {
        Some(second)
    } else {
        None
    };
    (method, path)
}

/// A title that names a method or a path.
pub open spec fn title_suggests_http_spec(title: Seq<char>) -> bool {
    title_hints(title).0 is Some || title_hints(title).1 is Some
}

/// An assertion about a status: its numbers are HTTP statuses, or its
/// matcher, message or title speaks of a status.
pub open spec fn has_status_semantics_spec(a: AssertionEvtView, title: Seq<char>) -> bool {
    if is_http_status_spec(a.expected_number) || is_http_status_spec(a.received_number) {
        true
    } else {
        let combined = ascii_lower(or_empty(a.matcher) + seq![' '] + or_empty(a.message) + seq![' '] + title);
        contains(combined, "status"@) || contains(combined, "statuscode"@) || contains(combined, "tohavestatus"@)
    }
}

fn has_status_semantics(a: &AssertionEvt, title: &str) -> (res: bool)
    ensures
        res == has_status_semantics_spec(a@, title@),
{
    if is_http_status_number(a.expected_number) || is_http_status_number(a.received_number) {
        return true;
    }
    let mut combined = match &a.matcher {
        Some(m) => owned(m.as_str()),
        None => String::new(),
    };
    push_str(&mut combined, " ");
    match &a.message {
        Some(m) => push_str(&mut combined, m.as_str()),
        None => {},
    }
    push_str(&mut combined, " ");
    push_str(&mut combined, title);
    proof {
        reveal_strlit(" ");
        assert(" "@ =~= seq![' ']);
    }
    assert(combined@ =~= or_empty(a@.matcher) + seq![' '] + or_empty(a@.message) + seq![' '] + title@);
    let lower = ascii_lower_str(combined.as_str());
    let l = lower.as_str();
    contains_str(l, "status") || contains_str(l, "statuscode") || contains_str(l, "tohavestatus")
}

/// Whether the failure is about HTTP at all.
pub open spec fn is_http_relevant_spec(
    rel_path: Seq<char>,
    title: Seq<char>,
    a: AssertionEvtView,
    http_count: nat,
    transport: bool,
) -> bool {
    transport || http_count > 0 || title_suggests_http_spec(title) || has_status_semantics_spec(a, title)
        || file_suggests_http_spec(rel_path)
}

fn is_http_relevant(rel_path: &str, title: &str, a: &AssertionEvt, http_count: usize, transport: bool) -> (res:
    bool)
    ensures
        res == is_http_relevant_spec(rel_path@, title@, a@, http_count as nat, transport),
{
    if transport || http_count > 0 {
        return true;
    }
    let (m, p) = parse_method_path_from_title(title);
    m.is_some() || p.is_some() || has_status_semantics(a, title) || file_suggests_http(rel_path)
}

/// Where a request went: its method, its route (or else its URL) and
/// ` ? ` with the URL's query, the blank ones left out.
pub open spec fn summarize_url_spec(method: Option<Seq<char>>, url: Option<Seq<char>>, route: Option<Seq<char>>) -> Seq<
    char,
> {
    let base = match route {
        Some(r) => r,
        None => or_empty(url),
    };
    let qs = match url {
        Some(u) => match split_once(u, seq!['?']) {
            Some((_, q)) => " ? "@ + q,
            None => Seq::empty(),
        },
        None => Seq::empty(),
    };
    trim(join(nonblank(seq![or_empty(method), base, qs]), seq![' ']))
}

/// The items that are not blank.
pub open spec fn nonblank(s: Seq<Seq<char>>) -> Seq<Seq<char>>
    decreases s.len(),
{
    if s.len() == 0 {
        s
    } else if trim(s.last()).len() == 0 {
        nonblank(s.drop_last())
    } else {
        nonblank(s.drop_last()).push(s.last())
    }
}

fn summarize_url(method: &Option<String>, url: &Option<String>, route: &Option<String>) -> (res: String)
    ensures
        res@ == summarize_url_spec(opt_seq(*method), opt_seq(*url), opt_seq(*route)),
{
    let base = match route {
        Some(r) => owned(r.as_str()),
        None => match url {
            Some(u) => owned(u.as_str()),
            None => String::new(),
        },
    };
    proof {
        reveal_strlit("?");
        assert("?"@ =~= seq!['?']);
        reveal_strlit(" ? ");
        reveal_strlit(" ");
        assert(" "@ =~= seq![' ']);
    }
    let qs = match url {
        Some(u) => match split_once_str(u.as_str(), "?") {
            Some((_, q)) => concat2(" ? ", q.as_str()),
            None => String::new(),
        },
        None => String::new(),
    };
    let m = match method {
        Some(m) => owned(m.as_str()),
        None => String::new(),
    };
    let ghost parts = seq![m@, base@, qs@];
    let mut kept: Vec<String> = Vec::new();
    if !trim_str(m.as_str()).as_str().is_empty() {
        kept.push(m);
    }
    assert(views(kept@) =~= nonblank(parts.take(1))) by {
        assert(parts.take(1).drop_last() =~= Seq::<Seq<char>>::empty());
        assert(parts.take(1).last() == m@);
        assert(nonblank(Seq::<Seq<char>>::empty()) =~= Seq::<Seq<char>>::empty());
    }
    if !trim_str(base.as_str()).as_str().is_empty() {
        let ghost b = views(kept@);
        kept.push(base);
        assert(views(kept@) =~= b.push(parts[1]));
    }
    assert(parts.take(2).drop_last() =~= parts.take(1));
    assert(views(kept@) =~= nonblank(parts.take(2)));
    if !trim_str(qs.as_str()).as_str().is_empty() {
        let ghost b = views(kept@);
        kept.push(qs);
        assert(views(kept@) =~= b.push(parts[2]));
    }
    assert(parts.take(3).drop_last() =~= parts.take(2));
    assert(parts.take(3) =~= parts);
    let joined = join_strs(&kept, " ");
    trim_str(joined.as_str())
}

/// The digits that follow `label` in `text` (after any non-digits), when
/// `label` occurs; a number is read only when there are exactly three.
pub open spec fn three_digits_after_spec(text: Seq<char>, label: Seq<char>) -> Option<i64> {
    match find(text, label) {
        None => None,
        Some(i) => {
            let after = text.skip(i + label.len());
            let digits = after.skip(lead_non_digits(after) as int);
            let run = digits.take(lead_digits(digits) as int);
            if run.len() == 3 {
                parse_i64_spec(run)
            } else {
                None
            }
        },
    }
}

/// Number of leading characters that are not ASCII digits.
pub open spec fn lead_non_digits(s: Seq<char>) -> nat
    decreases s.len(),
{
    if s.len() > 0 && !is_ascii_digit(s[0]) {
        1 + lead_non_digits(s.drop_first())
    } else {
        0
    }
}

/// Number of leading ASCII digits.
pub open spec fn lead_digits(s: Seq<char>) -> nat
    decreases s.len(),
{
    if s.len() > 0 && is_ascii_digit(s[0]) {
        1 + lead_digits(s.drop_first())
    } else {
        0
    }
}

proof fn lemma_lead_count(s: Seq<char>, k: int, digits: bool)
    requires
        0 <= k <= s.len(),
        forall|j: int| 0 <= j < k ==> is_ascii_digit(#[trigger] s[j]) == digits,
        k < s.len() ==> is_ascii_digit(s[k]) != digits,
    ensures
        digits ==> lead_digits(s) == k,
        !digits ==> lead_non_digits(s) == k,
    decreases k,
{
    if k > 0 {
        assert forall|j: int| 0 <= j < k - 1 implies is_ascii_digit(#[trigger] s.drop_first()[j]) == digits by {
            assert(s.drop_first()[j] == s[j + 1]);
        }
        if k - 1 < s.drop_first().len() {
            assert(s.drop_first()[k - 1] == s[k]);
        }
        lemma_lead_count(s.drop_first(), k - 1, digits);
    }
}

fn find_three_digit_after_label(text: &str, label: &str) -> (res: Option<i64>)
    ensures
        res == three_digits_after_spec(text@, label@),
{
    let idx = match find_str(text, label) {
        Some(i) => i,
        None => {
            return None;
        },
    };
    let v = chars_of(text);
    let lv = chars_of(label);
    proof {
        crate::text::lemma_find_from_props(text@, label@, 0);
    }
    assert(idx + lv.len() <= v.len());
    let start = idx + lv.len();
    let ghost after = text@.skip(start as int);
    let mut a = start;
    while a < v.len() && !is_ascii_digit_char(v[a])
        invariant
            start <= a <= v.len(),
            v@ == text@,
            after == text@.skip(start as int),
            forall|j: int| start <= j < a ==> !is_ascii_digit(#[trigger] v@[j]),
        decreases v.len() - a,
    {
        a = a + 1;
    }
    proof {
        assert forall|j: int| 0 <= j < a - start implies is_ascii_digit(#[trigger] after[j]) == false by {
            assert(after[j] == v@[start + j]);
        }
        if a < v.len() {
            assert(after[a - start] == v@[a as int]);
        }
        lemma_lead_count(after, a - start, false);
    }
    let ghost digits = after.skip(a - start);
    let mut b = a;
    while b < v.len() && is_ascii_digit_char(v[b])
        invariant
            a <= b <= v.len(),
            v@ == text@,
            forall|j: int| a <= j < b ==> is_ascii_digit(#[trigger] v@[j]),
        decreases v.len() - b,
    {
        b = b + 1;
    }
    proof {
        assert(digits =~= text@.skip(a as int));
        assert forall|j: int| 0 <= j < b - a implies is_ascii_digit(#[trigger] digits[j]) == true by {
            assert(digits[j] == v@[a + j]);
        }
        if b < v.len() {
            assert(digits[b - a] == v@[b as int]);
        }
        lemma_lead_count(digits, b - a, true);
    }
    if b - a != 3 {
        return None;
    }
    let run = string_of_range(&v, a, b);
    assert(run@ =~= digits.take(3));
    parse_i64_str(run.as_str())
}

/// The expected and received numbers a failure text gives after
/// `Expected:` and `Received:`, when both are three digits.
pub open spec fn infer_numbers_spec(text: Seq<char>) -> Option<(Option<i64>, Option<i64>)> {
    match (three_digits_after_spec(text, "Expected:"@), three_digits_after_spec(text, "Received:"@)) {
        (Some(e), Some(r)) => Some((Some(e), Some(r))),
        _ => None,
    }
}

fn infer_http_numbers_from_text(text: &str) -> (res: Option<(Option<i64>, Option<i64>)>)
    ensures
        res == infer_numbers_spec(text@),
{
    let expected = match find_three_digit_after_label(text, "Expected:") {
        Some(e) => e,
        None => {
            return None;
        },
    };
    let received = match find_three_digit_after_label(text, "Received:") {
        Some(r) => r,
        None => {
            return None;
        },
    };
    Some((Some(expected), Some(received)))
}

/// How well a request's method and path match the title's hints: a method
/// match counts 1 (times 10, or times 50 on top of a path match); the same
/// path counts 500, a path ending in the hint 300, one holding it 200.
pub open spec fn route_similarity_spec(
    hint_method: Option<Seq<char>>,
    hint_path: Option<Seq<char>>,
    event_method: Option<Seq<char>>,
    event_path: Option<Seq<char>>,
) -> int {
    if hint_method is None && hint_path is None {
        0
    } else {
        let method_ok: int = match (hint_method, event_method) {
            (Some(h), Some(e)) => if h == e {
                1
            } else {
                0
            },
            _ => 0,
        };
        match event_path {
            None => method_ok * 10,
            Some(route) => {
                let hp = or_empty(hint_path);
                if hp.len() > 0 && route == hp {
                    500 + method_ok * 50
                } else if hp.len() > 0 && crate::text::ends_with(route, hp) {
                    300 + method_ok * 50
                } else if hp.len() > 0 && contains(route, hp) {
                    200 + method_ok * 50
                } else {
                    method_ok * 10
                }
            },
        }
    }
}

fn route_similarity_score(
    hint_method: &Option<String>,
    hint_path: &Option<String>,
    event_method: &Option<String>,
    event_path: &Option<String>,
) -> (res: i64)
    ensures
        res == route_similarity_spec(opt_seq(*hint_method), opt_seq(*hint_path), opt_seq(*event_method), opt_seq(*event_path)),
{
    if hint_method.is_none() && hint_path.is_none() {
        return 0;
    }
    let method_ok: i64 = match (hint_method, event_method) {
        (Some(h), Some(e)) => if str_eq(h.as_str(), e.as_str()) {
            1
        } else {
            0
        },
        _ => 0,
    };
    let route = match event_path {
        Some(r) => r.as_str(),
        None => {
            return method_ok * 10;
        },
    };
    let hp = match hint_path {
        Some(h) => h.as_str(),
        None => "",
    };
    proof {
        reveal_strlit("");
    }
    if !hp.is_empty() && str_eq(route, hp) {
        return 500 + method_ok * 50;
    }
    if !hp.is_empty() && crate::text::ends_with_str(route, hp) {
        return 300 + method_ok * 50;
    }
    if !hp.is_empty() && contains_str(route, hp) {
        return 200 + method_ok * 50;
    }
    method_ok * 10
}

/// How likely a request is the one the assertion is about: a status equal
/// to the received number 1500, to the expected number 1200, an error
/// status 800; plus the route similarity; plus 80 for a route, else 40
/// for a URL.
pub open spec fn score_spec(
    a: AssertionEvtView,
    hints: (Option<Seq<char>>, Option<Seq<char>>),
    c: HttpEventView,
) -> int {
    let status_score: int = match (a.received_number, a.expected_number, c.status_code) {
        (Some(r), _, Some(s)) if r == s => 1500,
        (_, Some(e), Some(s)) if e == s => 1200,
        (_, _, Some(s)) if s >= 400 => 800,
        _ => 0,
    };
    let event_path = match c.route {
        Some(r) => Some(r),
        None => c.url,
    };
    let specificity: int = if trim(or_empty(c.route)).len() == 0 {
        if trim(or_empty(c.url)).len() == 0 {
            0
        } else {
            40
        }
    } else {
        80
    };
    status_score + route_similarity_spec(hints.0, hints.1, c.method, event_path) + specificity
}

fn score_http_for_assertion(
    a: &AssertionEvt,
    method_hint: &Option<String>,
    path_hint: &Option<String>,
    c: &HttpEvent,
) -> (res: i64)
    ensures
        res == score_spec(a@, (opt_seq(*method_hint), opt_seq(*path_hint)), c@),
{
    let status_score: i64 = match (a.received_number, a.expected_number, c.status_code) {
        (Some(r), _, Some(s)) if r == s => 1500,
        (_, Some(e), Some(s)) if e == s => 1200,
        (_, _, Some(s)) if s >= 400 => 800,
        _ => 0,
    };
    let event_path = match &c.route {
        Some(r) => Some(owned(r.as_str())),
        None => copy_opt_text(&c.url),
    };
    let route_score = route_similarity_score(method_hint, path_hint, &c.method, &event_path);
    let route_blank = match &c.route {
        Some(r) => is_blank_str(r.as_str()),
        None => true,
    };
    let url_blank = match &c.url {
        Some(u) => is_blank_str(u.as_str()),
        None => true,
    };
    proof {
        crate::text::lemma_blank_iff_trim_empty(or_empty(c@.route));
        crate::text::lemma_blank_iff_trim_empty(or_empty(c@.url));
        crate::text::lemma_blank_iff_trim_empty(Seq::<char>::empty());
    }
    let specificity: i64 = if route_blank {
        if url_blank {
            0
        } else {
            40
        }
    } else {
        80
    };
    status_score + route_score + specificity
}

/// The events of the test: those naming its file and a matching name.
pub open spec fn same_test_events(es: Seq<HttpEventView>, path: Seq<char>, name: Seq<char>) -> Seq<HttpEventView>
    decreases es.len(),
{
    if es.len() == 0 {
        es
    } else {
        let r = same_test_events(es.drop_last(), path, name);
        if same_test_ctx_spec(es.last().test_path, es.last().current_test_name, path, name) {
            r.push(es.last())
        } else {
            r
        }
    }
}

fn http_in_same_test(http_sorted: &[HttpEvent], test_path: &str, name: &str) -> (res: Vec<HttpEvent>)
    ensures
        http_views(res@) == same_test_events(http_views(http_sorted@), test_path@, name@),
{
    let ghost hv = http_views(http_sorted@);
    let mut out: Vec<HttpEvent> = Vec::new();
    let mut i: usize = 0;
    assert(hv.take(0) =~= Seq::<HttpEventView>::empty());
    while i < http_sorted.len()
        invariant
            i <= http_sorted.len(),
            hv == http_views(http_sorted@),
            http_views(out@) == same_test_events(hv.take(i as int), test_path@, name@),
        decreases http_sorted.len() - i,
    {
        assert(hv.take(i + 1).drop_last() =~= hv.take(i as int));
        assert(hv.take(i + 1).last() == http_sorted@[i as int]@);
        let e = &http_sorted[i];
        if same_test_ctx(&e.test_path, &e.current_test_name, test_path, name) {
            let ghost before = http_views(out@);
            out.push(copy_http_event(e));
            assert(http_views(out@) =~= before.push(e@));
        }
        i = i + 1;
    }
    assert(hv.take(http_sorted.len() as int) =~= hv);
    out
}

/// The assertion event of the test (the first one naming it), or an empty
/// one that names the test.
pub open spec fn corresponding_spec(
    es: Seq<AssertionEvtView>,
    path: Seq<char>,
    name: Seq<char>,
    title: Seq<char>,
) -> AssertionEvtView
    decreases es.len(),
{
    if es.len() == 0 {
        AssertionEvtView {
            timestamp_ms: None,
            matcher: None,
            expected_number: None,
            received_number: None,
            message: None,
            stack: None,
            test_path: Some(path),
            current_test_name: Some(title),
            expected_preview: None,
            actual_preview: None,
        }
    } else if same_test_ctx_spec(es[0].test_path, es[0].current_test_name, path, name) {
        es[0]
    } else {
        corresponding_spec(es.drop_first(), path, name, title)
    }
}

fn find_corresponding_assertion_event(events: &[AssertionEvt], path: &str, name: &str, title: &str) -> (res:
    AssertionEvt)
    ensures
        res@ == corresponding_spec(evt_views(events@), path@, name@, title@),
{
    let ghost ev = evt_views(events@);
    let mut i: usize = 0;
    assert(ev.skip(0) =~= ev);
    while i < events.len()
        invariant
            i <= events.len(),
            ev == evt_views(events@),
            corresponding_spec(ev, path@, name@, title@) == corresponding_spec(ev.skip(i as int), path@, name@, title@),
        decreases events.len() - i,
    {
        assert(ev.skip(i as int)[0] == events@[i as int]@);
        assert(ev.skip(i as int).drop_first() =~= ev.skip(i + 1));
        let e = &events[i];
        if same_test_ctx(&e.test_path, &e.current_test_name, path, name) {
            return copy_assertion_evt(e);
        }
        i = i + 1;
    }
    assert(ev.skip(events.len() as int) =~= Seq::<AssertionEvtView>::empty());
    AssertionEvt {
        timestamp_ms: None,
        matcher: None,
        expected_number: None,
        received_number: None,
        message: None,
        stack: None,
        test_path: Some(owned(path)),
        current_test_name: Some(owned(title)),
        expected_preview: None,
        actual_preview: None,
    }
}

/// Whether an event is an aborted request.
pub open spec fn is_abort(e: HttpEventView) -> bool {
    e.kind == Some("abort"@)
}

/// The failure is about a broken connection: its message says so, or a
/// request of the test was aborted.
pub open spec fn is_transport_card_spec(a: AssertionEvtView, per_test: Seq<HttpEventView>) -> bool {
    is_transport_error_spec(a.message) || exists|i: int| 0 <= i < per_test.len() && is_abort(#[trigger] per_test[i])
}

fn is_abort_exec(e: &HttpEvent) -> (res: bool)
    ensures
        res == is_abort(e@),
{
    match &e.kind {
        Some(k) => str_eq(k.as_str(), "abort"),
        None => false,
    }
}

fn is_transport_card(a: &AssertionEvt, per_test: &Vec<HttpEvent>) -> (res: bool)
    ensures
        res == is_transport_card_spec(a@, http_views(per_test@)),
{
    let mut has_abort = false;
    let mut i: usize = 0;
    while i < per_test.len()
        invariant
            i <= per_test.len(),
            has_abort == exists|j: int| 0 <= j < i && is_abort(#[trigger] http_views(per_test@)[j]),
        decreases per_test.len() - i,
    {
        assert(http_views(per_test@)[i as int] == per_test@[i as int]@);
        if is_abort_exec(&per_test[i]) {
            has_abort = true;
        }
        i = i + 1;
    }
    is_transport_error(&a.message) || has_abort
}

/// The assertion with numbers read from the failure text when it carries
/// no HTTP status of its own.
pub open spec fn infer_missing_spec(a: AssertionEvtView, text: Seq<char>) -> AssertionEvtView {
    if !is_http_status_spec(a.expected_number) && !is_http_status_spec(a.received_number) {
        match infer_numbers_spec(text) {
            Some((e, r)) => AssertionEvtView {
                expected_number: match e {
                    Some(x) => Some(x),
                    None => a.expected_number,
                },
                received_number: match r {
                    Some(x) => Some(x),
                    None => a.received_number,
                },
                ..a
            },
            None => a,
        }
    } else {
        a
    }
}

fn infer_missing_http_numbers(a: &AssertionEvt, text: &str) -> (res: AssertionEvt)
    ensures
        res@ == infer_missing_spec(a@, text@),
{
    let mut corr = copy_assertion_evt(a);
    if !is_http_status_number(corr.expected_number) && !is_http_status_number(corr.received_number) {
        match infer_http_numbers_from_text(text) {
            Some((e, r)) => {
                corr.expected_number = match e {
                    Some(x) => Some(x),
                    None => corr.expected_number,
                };
                corr.received_number = match r {
                    Some(x) => Some(x),
                    None => corr.received_number,
                };
            },
            None => {},
        }
    }
    corr
}

/// The events that may be the one: those of the test, or all when the
/// assertion itself belongs to the test; failing that, those of the file.
pub open spec fn candidate_pool(
    a: AssertionEvtView,
    es: Seq<HttpEventView>,
    path: Seq<char>,
    name: Seq<char>,
) -> Seq<HttpEventView> {
    let first = pool_of(a, es, path, name);
    if first.len() > 0 {
        first
    } else {
        file_events(es, path)
    }
}

pub open spec fn pool_of(a: AssertionEvtView, es: Seq<HttpEventView>, path: Seq<char>, name: Seq<char>) -> Seq<
    HttpEventView,
>
    decreases es.len(),
{
    if es.len() == 0 {
        es
    } else {
        let r = pool_of(a, es.drop_last(), path, name);
        if same_test_ctx_spec(es.last().test_path, es.last().current_test_name, path, name) || same_test_ctx_spec(
            a.test_path,
            a.current_test_name,
            path,
            name,
        ) {
            r.push(es.last())
        } else {
            r
        }
    }
}

pub open spec fn file_events(es: Seq<HttpEventView>, path: Seq<char>) -> Seq<HttpEventView>
    decreases es.len(),
{
    if es.len() == 0 {
        es
    } else {
        let r = file_events(es.drop_last(), path);
        if es.last().test_path == Some(path) {
            r.push(es.last())
        } else {
            r
        }
    }
}

/// The index of the last event with the highest score.
pub open spec fn best_index(
    pool: Seq<HttpEventView>,
    a: AssertionEvtView,
    hints: (Option<Seq<char>>, Option<Seq<char>>),
) -> int
    decreases pool.len(),
{
    if pool.len() <= 1 {
        0
    } else {
        let b = best_index(pool.drop_last(), a, hints);
        if score_spec(a, hints, pool.last()) >= score_spec(a, hints, pool[b]) {
            pool.len() - 1
        } else {
            b
        }
    }
}

/// The event the assertion is about: the best-scoring candidate (the last
/// among equals), when it scores at least 1200.
pub open spec fn pick_relevant_spec(
    a: AssertionEvtView,
    es: Seq<HttpEventView>,
    path: Seq<char>,
    name: Seq<char>,
    title: Seq<char>,
) -> Option<HttpEventView> {
    let pool = candidate_pool(a, es, path, name);
    let hints = title_hints(title);
    if pool.len() == 0 {
        None
    } else {
        let b = best_index(pool, a, hints);
        if score_spec(a, hints, pool[b]) >= 1200 {
            Some(pool[b])
        } else {
            None
        }
    }
}

proof fn lemma_best_index_bound(pool: Seq<HttpEventView>, a: AssertionEvtView, hints: (Option<Seq<char>>, Option<Seq<char>>))
    requires
        pool.len() > 0,
    ensures
        0 <= best_index(pool, a, hints) < pool.len(),
    decreases pool.len(),
{
    if pool.len() > 1 {
        lemma_best_index_bound(pool.drop_last(), a, hints);
    }
}

proof fn lemma_score_bounds(a: AssertionEvtView, hints: (Option<Seq<char>>, Option<Seq<char>>), c: HttpEventView)
    ensures
        0 <= score_spec(a, hints, c) <= 1500 + 550 + 80,
{
}

fn pick_relevant_http(
    a: &AssertionEvt,
    http_sorted: &[HttpEvent],
    path: &str,
    name: &str,
    title: &str,
) -> (res: Option<HttpEvent>)
    ensures
        match res {
            Some(e) => pick_relevant_spec(a@, http_views(http_sorted@), path@, name@, title@) == Some(e@),
            None => pick_relevant_spec(a@, http_views(http_sorted@), path@, name@, title@) is None,
        },
{
    let (method_hint, path_hint) = parse_method_path_from_title(title);
    let ghost hints = title_hints(title@);
    let ghost hv = http_views(http_sorted@);
    let assertion_matches = same_test_ctx(&a.test_path, &a.current_test_name, path, name);
    let mut pool: Vec<HttpEvent> = Vec::new();
    let mut i: usize = 0;
    assert(hv.take(0) =~= Seq::<HttpEventView>::empty());
    while i < http_sorted.len()
        invariant
            i <= http_sorted.len(),
            hv == http_views(http_sorted@),
            assertion_matches == same_test_ctx_spec(a@.test_path, a@.current_test_name, path@, name@),
            http_views(pool@) == pool_of(a@, hv.take(i as int), path@, name@),
        decreases http_sorted.len() - i,
    {
        assert(hv.take(i + 1).drop_last() =~= hv.take(i as int));
        assert(hv.take(i + 1).last() == http_sorted@[i as int]@);
        let e = &http_sorted[i];
        if same_test_ctx(&e.test_path, &e.current_test_name, path, name) || assertion_matches {
            let ghost before = http_views(pool@);
            pool.push(copy_http_event(e));
            assert(http_views(pool@) =~= before.push(e@));
        }
        i = i + 1;
    }
    assert(hv.take(http_sorted.len() as int) =~= hv);
    if pool.len() == 0 {
        let mut j: usize = 0;
        assert(hv.take(0) =~= Seq::<HttpEventView>::empty());
        while j < http_sorted.len()
            invariant
                j <= http_sorted.len(),
                hv == http_views(http_sorted@),
                http_views(pool@) == file_events(hv.take(j as int), path@),
            decreases http_sorted.len() - j,
        {
            assert(hv.take(j + 1).drop_last() =~= hv.take(j as int));
            assert(hv.take(j + 1).last() == http_sorted@[j as int]@);
            let e = &http_sorted[j];
            let same_file = match &e.test_path {
                Some(p) => str_eq(p.as_str(), path),
                None => false,
            };
            if same_file {
                let ghost before = http_views(pool@);
                pool.push(copy_http_event(e));
                assert(http_views(pool@) =~= before.push(e@));
            }
            j = j + 1;
        }
        assert(hv.take(http_sorted.len() as int) =~= hv);
    }
    let ghost pv = http_views(pool@);
    assert(pv == candidate_pool(a@, hv, path@, name@));
    if pool.len() == 0 {
        return None;
    }
    let mut best: usize = 0;
    let mut best_score = score_http_for_assertion(a, &method_hint, &path_hint, &pool[0]);
    let mut k: usize = 1;
    assert(pv.take(1).len() == 1);
    while k < pool.len()
        invariant
            1 <= k <= pool.len(),
            pv == http_views(pool@),
            hints == (opt_seq(method_hint), opt_seq(path_hint)),
            best < k,
            best as int == best_index(pv.take(k as int), a@, hints),
            best_score == score_spec(a@, hints, pv[best as int]),
        decreases pool.len() - k,
    {
        assert(pv.take(k + 1).drop_last() =~= pv.take(k as int));
        assert(pv.take(k + 1).last() == pv[k as int]);
        assert(pv.take(k as int)[best as int] == pv[best as int]);
        let sc = score_http_for_assertion(a, &method_hint, &path_hint, &pool[k]);
        if sc >= best_score {
            best = k;
            best_score = sc;
        }
        k = k + 1;
    }
    assert(pv.take(pool.len() as int) =~= pv);
    if best_score >= 1200 {
        Some(copy_http_event(&pool[best]))
    } else {
        None
    }
}

/// ` (<duration>) ` after the status when the duration is known (not
/// negative), else one space; `around` adds the trailing space.
pub open spec fn duration_text(duration_ms: Option<i64>, trailing: bool) -> Seq<char> {
    match duration_ms {
        Some(n) => if n >= 0 {
            " "@ + styled("\u{1b}[2m"@, "("@ + pretty_duration(n as nat * 1_000_000, 2, None) + ")"@, "\u{1b}[22m"@)
                + if trailing {
                " "@
            } else {
                Seq::empty()
            }
        } else {
            if trailing {
                " "@
            } else {
                Seq::empty()
            }
        },
        None => if trailing {
            " "@
        } else {
            Seq::empty()
        },
    }
}

fn duration_piece(duration_ms: Option<i64>, trailing: bool) -> (res: String)
    ensures
        res@ == duration_text(duration_ms, trailing),
{
    proof {
        reveal_strlit(" ");
        reveal_strlit("(");
        reveal_strlit(")");
    }
    match duration_ms {
        Some(n) => {
            if n >= 0 {
                let mut inner = concat2("(", format_duration(Duration::from_millis(n as u64)).as_str());
                push_str(&mut inner, ")");
                let mut out = concat2(" ", dim(inner.as_str()).as_str());
                if trailing {
                    push_str(&mut out, " ");
                }
                return out;
            }
        },
        None => {},
    }
    if trailing {
        owned(" ")
    } else {
        String::new()
    }
}

/// A dimmed piece when the text is not blank.
pub open spec fn dim_piece(o: Option<Seq<char>>, before: Seq<char>, after: Seq<char>) -> Seq<char> {
    match o {
        Some(s) => if trim(s).len() == 0 {
            Seq::empty()
        } else {
            styled("\u{1b}[2m"@, before + s + after, "\u{1b}[22m"@)
        },
        None => Seq::empty(),
    }
}

fn dim_piece_exec(o: &Option<String>, before: &str, after: &str) -> (res: String)
    ensures
        res@ == dim_piece(opt_seq(*o), before@, after@),
{
    match o {
        Some(s) => {
            if trim_str(s.as_str()).as_str().is_empty() {
                String::new()
            } else {
                let mut t = concat2(before, s.as_str());
                push_str(&mut t, after);
                dim(t.as_str())
            }
        },
        None => String::new(),
    }
}

pub open spec fn yellow_spec(t: Seq<char>) -> Seq<char> {
    styled("\u{1b}[33m"@, t, "\u{1b}[39m"@)
}

/// The request's line (where, `->`, status, duration, content type,
/// request id) and, when the assertion has an expected number, the
/// expected and received values.
pub open spec fn header_spec(r: HttpEventView, a: AssertionEvtView) -> Seq<char> {
    let status = match r.status_code {
        Some(n) => dec_int(n as int),
        None => "?"@,
    };
    let header = "  HTTP:\n    "@ + summarize_url_spec(r.method, r.url, r.route) + " "@ + styled(
        "\u{1b}[2m"@,
        "->"@,
        "\u{1b}[22m"@,
    ) + " "@ + status + duration_text(r.duration_ms, true) + dim_piece(r.content_type, "("@, ")"@) + dim_piece(
        r.request_id,
        "  reqId="@,
        Seq::empty(),
    );
    let exp = match (a.expected_number, a.received_number) {
        (Some(e), Some(x)) => "\n      Expected: "@ + yellow_spec(dec_int(e as int)) + "   Received: "@ + yellow_spec(
            dec_int(x as int),
        ),
        (Some(e), None) => "\n      Expected: "@ + yellow_spec(dec_int(e as int)) + "   Received: "@ + yellow_spec(
            status,
        ),
        _ => Seq::empty(),
    };
    header + exp
}

#[verifier::rlimit(40)]
fn render_http_header_and_expectations(r: &HttpEvent, a: &AssertionEvt) -> (res: String)
    ensures
        res@ == header_spec(r@, a@),
{
    proof {
        reveal_strlit("?");
        reveal_strlit("");
    }
    let status = match r.status_code {
        Some(n) => i64_to_dec(n),
        None => owned("?"),
    };
    let mut out = owned("  HTTP:\n    ");
    push_str(&mut out, summarize_url(&r.method, &r.url, &r.route).as_str());
    push_str(&mut out, " ");
    push_str(&mut out, dim("->").as_str());
    push_str(&mut out, " ");
    push_str(&mut out, status.as_str());
    push_str(&mut out, duration_piece(r.duration_ms, true).as_str());
    push_str(&mut out, dim_piece_exec(&r.content_type, "(", ")").as_str());
    push_str(&mut out, dim_piece_exec(&r.request_id, "  reqId=", "").as_str());
    match (a.expected_number, a.received_number) {
        (Some(e), Some(x)) => {
            push_str(&mut out, "\n      Expected: ");
            push_str(&mut out, yellow(i64_to_dec(e).as_str()).as_str());
            push_str(&mut out, "   Received: ");
            push_str(&mut out, yellow(i64_to_dec(x).as_str()).as_str());
        },
        (Some(e), None) => {
            push_str(&mut out, "\n      Expected: ");
            push_str(&mut out, yellow(i64_to_dec(e).as_str()).as_str());
            push_str(&mut out, "   Received: ");
            push_str(&mut out, yellow(status.as_str()).as_str());
        },
        _ => {},
    }
    out
}

/// Distance of an event's time from the base time, the times taken as
/// signed 64-bit numbers.
pub open spec fn ts_distance(e: HttpEventView, base: i64) -> int {
    let d = (e.timestamp_ms as i64) as int - base as int;
    if d < 0 {
        -d
    } else {
        d
    }
}

/// The index of the first abort nearest in time to `base`, if any.
pub open spec fn nearest_abort(es: Seq<HttpEventView>, base: i64) -> Option<int>
    decreases es.len(),
{
    if es.len() == 0 {
        None
    } else {
        let r = nearest_abort(es.drop_last(), base);
        if !is_abort(es.last()) {
            r
        } else {
            match r {
                None => Some(es.len() - 1),
                Some(j) => if ts_distance(es.last(), base) < ts_distance(es[j], base) {
                    Some(es.len() - 1)
                } else {
                    Some(j)
                },
            }
        }
    }
}

proof fn lemma_nearest_abort_bound(es: Seq<HttpEventView>, base: i64)
    ensures
        nearest_abort(es, base) matches Some(j) ==> 0 <= j < es.len() && is_abort(es[j]),
    decreases es.len(),
{
    if es.len() > 0 {
        lemma_nearest_abort_bound(es.drop_last(), base);
        let r = nearest_abort(es.drop_last(), base);
        if let Some(j) = r {
            assert(es.drop_last()[j] == es[j]);
        }
    }
}

/// The card of a broken connection: the aborted request nearest in time
/// to the assertion, marked `connection aborted`; nothing without one.
pub open spec fn transport_card_spec(a: AssertionEvtView, per_test: Seq<HttpEventView>) -> Seq<Seq<char>> {
    let base: i64 = match a.timestamp_ms {
        Some(t) => t as i64,
        None => 0,
    };
    match nearest_abort(per_test, base) {
        None => Seq::empty(),
        Some(j) => {
            let e = per_test[j];
            seq![
                "  HTTP:\n    "@ + summarize_url_spec(e.method, e.url, e.route) + " "@ + styled(
                    "\u{1b}[2m"@,
                    "->"@,
                    "\u{1b}[22m"@,
                ) + " "@ + yellow_spec("connection aborted"@) + duration_text(e.duration_ms, false) + " \n"@,
            ]
        },
    }
}

fn render_transport_http_card(a: &AssertionEvt, per_test: &Vec<HttpEvent>) -> (res: Vec<String>)
    ensures
        views(res@) == transport_card_spec(a@, http_views(per_test@)),
{
    let base: i64 = match a.timestamp_ms {
        Some(t) => t as i64,
        None => 0,
    };
    let ghost pv = http_views(per_test@);
    let mut best: Option<usize> = None;
    let mut best_d: u128 = 0;
    let mut i: usize = 0;
    assert(pv.take(0) =~= Seq::<HttpEventView>::empty());
    while i < per_test.len()
        invariant
            i <= per_test.len(),
            pv == http_views(per_test@),
            best == match nearest_abort(pv.take(i as int), base) {
                Some(j) => Some(j as usize),
                None => None::<usize>,
            },
            nearest_abort(pv.take(i as int), base) matches Some(j) ==> 0 <= j < i && best_d == ts_distance(pv[j], base),
        decreases per_test.len() - i,
    {
        assert(pv.take(i + 1).drop_last() =~= pv.take(i as int));
        assert(pv.take(i + 1).last() == per_test@[i as int]@);
        proof {
            lemma_nearest_abort_bound(pv.take(i as int), base);
            if let Some(j) = nearest_abort(pv.take(i as int), base) {
                assert(pv.take(i as int)[j] == pv[j]);
                assert(pv.take(i + 1)[j] == pv[j]);
            }
        }
        let e = &per_test[i];
        if is_abort_exec(e) {
            let t = e.timestamp_ms as i64;
            let d: i128 = (t as i128) - (base as i128);
            let ad: u128 = if d < 0 {
                (0 - d) as u128
            } else {
                d as u128
            };
            assert(ad == ts_distance(e@, base));
            match best {
                None => {
                    best = Some(i);
                    best_d = ad;
                },
                Some(_) => {
                    if ad < best_d {
                        best = Some(i);
                        best_d = ad;
                    }
                },
            }
        }
        i = i + 1;
    }
    assert(pv.take(per_test.len() as int) =~= pv);
    proof {
        lemma_nearest_abort_bound(pv, base);
    }
    let j = match best {
        Some(j) => j,
        None => {
            return Vec::new();
        },
    };
    let e = &per_test[j];
    let mut out = owned("  HTTP:\n    ");
    push_str(&mut out, summarize_url(&e.method, &e.url, &e.route).as_str());
    push_str(&mut out, " ");
    push_str(&mut out, dim("->").as_str());
    push_str(&mut out, " ");
    push_str(&mut out, yellow("connection aborted").as_str());
    push_str(&mut out, duration_piece(e.duration_ms, false).as_str());
    push_str(&mut out, " \n");
    let mut v: Vec<String> = Vec::new();
    let ghost ov = out@;
    v.push(out);
    assert(views(v@) =~= seq![ov]);
    v
}

/// The HTTP card shown under a failed assertion: nothing when the failure
/// is not about HTTP; the aborted request for a broken connection; else the
/// request the assertion is about (with expected and received values)
/// followed by an empty line, or nothing when no request fits.
pub open spec fn http_card_spec(
    rel_path: Seq<char>,
    full_name: Seq<char>,
    title: Seq<char>,
    failure_text: Seq<char>,
    file_path: Seq<char>,
    events: Seq<AssertionEvtView>,
    http: Seq<HttpEventView>,
) -> Seq<Seq<char>> {
    let per_test = same_test_events(http, file_path, full_name);
    let corr = corresponding_spec(events, file_path, full_name, title);
    let transport = is_transport_card_spec(corr, per_test);
    if !is_http_relevant_spec(rel_path, full_name, corr, per_test.len(), transport) {
        Seq::empty()
    } else if transport {
        transport_card_spec(corr, per_test)
    } else {
        let c2 = infer_missing_spec(corr, failure_text);
        match pick_relevant_spec(c2, http, file_path, full_name, full_name) {
            None => Seq::empty(),
            Some(r) => seq![header_spec(r, c2), "\n"@],
        }
    }
}

/// The HTTP card under a failed assertion (see [`http_card_spec`]).
pub fn render_http_card(
    rel_path: &str,
    assertion_full_name: &str,
    assertion_title: &str,
    assertion_failure_text: &str,
    file_test_path_abs: &str,
    assertion_events: &[AssertionEvt],
    http_sorted: &[HttpEvent],
) -> (res: Vec<String>)
    ensures
        views(res@) == http_card_spec(
            rel_path@,
            assertion_full_name@,
            assertion_title@,
            assertion_failure_text@,
            file_test_path_abs@,
            evt_views(assertion_events@),
            http_views(http_sorted@),
        ),
{
    let per_test = http_in_same_test(http_sorted, file_test_path_abs, assertion_full_name);
    let corr = find_corresponding_assertion_event(
        assertion_events,
        file_test_path_abs,
        assertion_full_name,
        assertion_title,
    );
    let transport = is_transport_card(&corr, &per_test);
    if !is_http_relevant(rel_path, assertion_full_name, &corr, per_test.len(), transport) {
        return Vec::new();
    }
    if transport {
        return render_transport_http_card(&corr, &per_test);
    }
    let c2 = infer_missing_http_numbers(&corr, assertion_failure_text);
    match pick_relevant_http(&c2, http_sorted, file_test_path_abs, assertion_full_name, assertion_full_name) {
        None => Vec::new(),
        Some(r) => {
            let mut v: Vec<String> = Vec::new();
            v.push(render_http_header_and_expectations(&r, &c2));
            v.push(owned("\n"));
            proof {
                reveal_strlit("\n");
            }
            assert(views(v@) =~= seq![header_spec(r@, c2@), "\n"@]);
            v
        },
    }
}

} // verus!
