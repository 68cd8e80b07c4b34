//! Pattern matching through the `regex` crate.
use vstd::prelude::*;

verus! {

/// Whether `text` matches the regular expression `pattern`; `None` when the
/// pattern does not compile.
pub uninterp spec fn regex_match_v(pattern: Seq<char>, text: Seq<char>) -> Option<bool>;

/// The text of the first capture group of the first match of `pattern` in
/// `text`: `Some(None)` when nothing matches; `None` when the pattern does
/// not compile, or when it matches but group 1 is missing or took no part in
/// the match.
pub uninterp spec fn regex_capture_v(pattern: Seq<char>, text: Seq<char>) -> Option<Option<Seq<char>>>;

/// `regex::Regex::new(pattern)` followed by `Regex::is_match(text)`. Its
/// result is named, not stated: the regular-expression semantics are the
/// crate's.
#[verifier::external_body]
pub(crate) fn regex_is_match(pattern: &str, text: &str) -> (r: Option<bool>)
    ensures
        r == regex_match_v(pattern@, text@),
{
    match regex::Regex::new(pattern) {
        Ok(re) => Some(re.is_match(text)),
        Err(_) => None,
    }
}

/// `regex::Regex::new(pattern)` followed by `Regex::captures(text)` and the
/// text of group 1. Its result is named, not stated.
#[verifier::external_body]
pub(crate) fn regex_capture1(pattern: &str, text: &str) -> (r: Option<Option<String>>)
    ensures
        match r {
            Some(Some(s)) => regex_capture_v(pattern@, text@) == Some(Some(s@)),
            Some(None) => regex_capture_v(pattern@, text@) == Some(None::<Seq<char>>),
            None => regex_capture_v(pattern@, text@) is None,
        },
{
    let re = match regex::Regex::new(pattern) {
        Ok(re) => re,
        Err(_) => return None,
    };
    match re.captures(text) {
        Some(caps) => caps.get(1).map(|m| Some(m.as_str().to_string())),
        None => Some(None),
    }
}

/// The pattern that component keys must match.
pub open spec fn component_key_pattern() -> Seq<char> {
    "^[a-zA-Z][\\w\\.-]*\\.[\\w\\.-]+$"@
}

/// A component key: one of the built-in `questions` and `template`, or a
/// key such as `qa.process`: a letter, then word characters, dots or
/// dashes, with at least one dot that is followed by more of them.
pub open spec fn valid_component_key(key: Seq<char>) -> bool {
    key == "questions"@ || key == "template"@ || regex_match_v(component_key_pattern(), key) == Some(true)
}

pub fn is_valid_component_key(key: &str) -> (r: bool)
    ensures
        r == valid_component_key(key@),
{
    if crate::text::str_eq(key, "questions") || crate::text::str_eq(key, "template") {
        return true;
    }
    match regex_is_match("^[a-zA-Z][\\w\\.-]*\\.[\\w\\.-]+$", key) {
        Some(b) => b,
        None => false,
    }
}

} // verus!
