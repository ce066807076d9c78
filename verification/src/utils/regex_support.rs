//! The regular-expression engine (the `regex` crate) that pattern matching relies on.

use vstd::prelude::*;

verus! {

/// What the `regex` crate answers when `pattern` is compiled with
/// `Regex::new` and run with `Regex::is_match` against `text`: `None` when the
/// pattern does not compile, else whether it matches somewhere in `text`.
pub uninterp spec fn regex_search_result(pattern: Seq<char>, text: Seq<char>) -> Option<bool>;

/// Calls `regex::Regex::new(pattern)` and, when that succeeds,
/// `Regex::is_match(text)`. The contract claims only that the answer is
/// determined by the two strings (compilation and matching are deterministic).
#[verifier::external_body]
pub(crate) fn regex_search(pattern: &str, text: &str) -> (r: Option<bool>)
    ensures
        r == regex_search_result(pattern@, text@),
{
    match regex::Regex::new(pattern) {
        Ok(re) => Some(re.is_match(text)),
        Err(_) => None,
    }
}

/// The characters that `regex::escape` prefixes with a backslash
/// (`regex_syntax::is_meta_character`).
pub open spec fn is_regex_meta(c: char) -> bool {
    c == '\\' || c == '.' || c == '+' || c == '*' || c == '?' || c == '(' || c == ')' || c == '|'
        || c == '[' || c == ']' || c == '{' || c == '}' || c == '^' || c == '$' || c == '#'
        || c == '&' || c == '-' || c == '~'
}

/// `s` with a backslash before each regex meta character.
pub open spec fn spec_regex_escape(s: Seq<char>) -> Seq<char>
    decreases s.len(),
{
    if s.len() == 0 {
        Seq::empty()
    } else if is_regex_meta(s.last()) {
        spec_regex_escape(s.drop_last()) + seq!['\\', s.last()]
    } else {
        spec_regex_escape(s.drop_last()).push(s.last())
    }
}

/// Calls `regex::escape`, which (as its source shows) copies `text` character
/// by character, putting a backslash before each meta character.
#[verifier::external_body]
pub(crate) fn regex_escape(text: &str) -> (r: String)
    ensures
        r@ == spec_regex_escape(text@),
{
    regex::escape(text)
}

/// What the `regex` crate answers when `pattern` is compiled with
/// `regex::bytes::Regex::new` and `Regex::captures` is run on `text`:
/// `None` when the pattern does not compile or does not match; otherwise the
/// bytes captured by the group named `group` in the leftmost-first match
/// (`None` when that group took no part in the match).
pub uninterp spec fn regex_capture_result(pattern: Seq<char>, text: Seq<u8>, group: Seq<char>) -> Option<
    Option<Seq<u8>>,
>;

/// Calls `regex::bytes::Regex::new(pattern)`, then `captures(text)` and
/// `Captures::name(group)`. The contract claims only that the answer is
/// determined by the arguments; a pattern that does not compile is answered
/// like a pattern that does not match.
#[verifier::external_body]
pub(crate) fn regex_capture(pattern: &str, text: &[u8], group: &str) -> (r: Option<Option<Vec<u8>>>)
    ensures
        match (r, regex_capture_result(pattern@, text@, group@)) {
            (None, None) => true,
            (Some(None), Some(None)) => true,
            (Some(Some(v)), Some(Some(w))) => v@ == w,
            _ => false,
        },
{
    let re = match regex::bytes::Regex::new(pattern) {
        Ok(re) => re,
        Err(_) => return None,
    };
    match re.captures(text) {
        None => None,
        Some(caps) => Some(caps.name(group).map(|m| m.as_bytes().to_vec())),
    }
}

/// What the `regex` crate gives for `Regex::new(pattern)` followed by
/// `Regex::replace_all(text, replacement)`: `None` when the pattern does not
/// compile, else the text with every match replaced.
pub uninterp spec fn regex_replace_all_result(
    pattern: Seq<char>,
    text: Seq<char>,
    replacement: Seq<char>,
) -> Option<Seq<char>>;

/// Calls `regex::Regex::new(pattern)` and, when that succeeds,
/// `Regex::replace_all(text, replacement)`. The contract claims only that the
/// answer is determined by the three strings.
#[verifier::external_body]
pub(crate) fn regex_replace_all(pattern: &str, text: &str, replacement: &str) -> (r: Option<String>)
    ensures
        match (r, regex_replace_all_result(pattern@, text@, replacement@)) {
            (None, None) => true,
            (Some(s), Some(t)) => s@ == t,
            _ => false,
        },
{
    match regex::Regex::new(pattern) {
        Ok(re) => Some(re.replace_all(text, replacement).into_owned()),
        Err(_) => None,
    }
}

/// What the `regex` crate gives for `Regex::new(pattern)` followed by
/// `Regex::captures_iter(text)`, keeping group number `group` of each
/// successive match (`None` where that group took no part): `None` when the
/// pattern does not compile.
pub uninterp spec fn regex_group_captures_result(pattern: Seq<char>, text: Seq<char>, group: nat) -> Option<
    Seq<Option<Seq<char>>>,
>;

/// Calls `regex::Regex::new(pattern)` and, when that succeeds, collects
/// `Captures::get(group)` over `Regex::captures_iter(text)`. The contract
/// claims only that the answer is determined by the arguments.
#[verifier::external_body]
pub(crate) fn regex_group_captures(pattern: &str, text: &str, group: usize) -> (r: Option<Vec<Option<String>>>)
    ensures
        match (r, regex_group_captures_result(pattern@, text@, group as nat)) {
            (None, None) => true,
            (Some(v), Some(w)) => v@.len() == w.len() && forall|i: int|
                0 <= i < w.len() ==> match (#[trigger] v@[i], w[i]) {
                    (None, None) => true,
                    (Some(a), Some(b)) => a@ == b,
                    _ => false,
                },
            _ => false,
        },
{
    let re = match regex::Regex::new(pattern) {
        Ok(re) => re,
        Err(_) => return None,
    };
    Some(re.captures_iter(text).map(|c| c.get(group).map(|m| m.as_str().to_string())).collect())
}

} // verus!
