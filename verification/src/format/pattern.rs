//! Regular-expression searches, made by the `regex` crate.
use crate::test_model::opt_seq;
use vstd::prelude::*;

verus! {

/// Whether the `regex` crate finds `pattern` in `text`.
pub uninterp spec fn regex_is_match_of(pattern: Seq<char>, text: Seq<char>) -> bool;

/// Whether `pattern` matches somewhere in `text`: calls `regex::Regex::new`
/// and `Regex::is_match`. Trusted: the answer is the crate's (`false` when
/// the pattern does not compile); nothing more is stated of it.
#[verifier::external_body]
pub(crate) fn regex_is_match(pattern: &str, text: &str) -> (res: bool)
    ensures
        res == regex_is_match_of(pattern@, text@),
{
    match regex::Regex::new(pattern) {
        Ok(re) => re.is_match(text),
        Err(_) => false,
    }
}

/// What capture groups 1 and 2 of the first match of `pattern` in `text`
/// hold, as the `regex` crate finds them.
pub uninterp spec fn regex_captures2_of(pattern: Seq<char>, text: Seq<char>) -> Option<(Seq<char>, Seq<char>)>;

/// Groups 1 and 2 of the first match of `pattern` in `text`: calls
/// `regex::Regex::new` and `Regex::captures`. Trusted: the result is the
/// crate's captures (`None` when the pattern does not compile, nothing
/// matches, or a group took no part); nothing more is stated of them.
#[verifier::external_body]
pub(crate) fn captures2(pattern: &str, text: &str) -> (res: Option<(String, String)>)
    ensures
        match res {
            Some((a, b)) => regex_captures2_of(pattern@, text@) == Some((a@, b@)),
            None => regex_captures2_of(pattern@, text@) is None,
        },
{
    let caps = regex::Regex::new(pattern).ok()?.captures(text)?;
    Some((caps.get(1)?.as_str().to_string(), caps.get(2)?.as_str().to_string()))
}

/// What capture group 1 holds in the last match of `pattern` in `text`, as
/// the `regex` crate finds the matches.
pub uninterp spec fn regex_last_capture1_of(pattern: Seq<char>, text: Seq<char>) -> Option<Seq<char>>;

/// Group 1 of the last match of `pattern` in `text`: calls
/// `regex::Regex::new` and `Regex::captures_iter`. Trusted: the result is
/// the crate's (`None` when the pattern does not compile, nothing matches,
/// or the group took no part in the last match); nothing more is stated.
#[verifier::external_body]
pub(crate) fn last_capture1(pattern: &str, text: &str) -> (res: Option<String>)
    ensures
        opt_seq(res) == regex_last_capture1_of(pattern@, text@),
{
    let re = regex::Regex::new(pattern).ok()?;
    let last = re.captures_iter(text).last()?;
    Some(last.get(1)?.as_str().to_string())
}


/// What capture group 1 of the first match of `pattern` in `text` holds,
/// as the `regex` crate finds it.
pub uninterp spec fn regex_capture1_of(pattern: Seq<char>, text: Seq<char>) -> Option<Seq<char>>;

/// Group 1 of the first match of `pattern` in `text`: calls
/// `regex::Regex::new` and `Regex::captures`. Trusted: the result is the
/// crate's capture (`None` when the pattern does not compile, nothing
/// matches, or the group took no part); nothing more is stated of it.
#[verifier::external_body]
pub(crate) fn capture1(pattern: &str, text: &str) -> (res: Option<String>)
    ensures
        opt_seq(res) == regex_capture1_of(pattern@, text@),
{
    let caps = regex::Regex::new(pattern).ok()?.captures(text)?;
    Some(caps.get(1)?.as_str().to_string())
}

} // verus!
