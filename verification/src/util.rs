//! Regular-expression matching of user-supplied patterns.
use vstd::prelude::*;

verus! {

/// Whether `regex::Regex::new` accepts `pattern` (valid syntax, within the
/// default size limit).
pub uninterp spec fn regex_compiles(pattern: Seq<char>) -> bool;

/// Whether `regex::Regex::is_match` finds a match of the compiled `pattern`
/// anywhere in `text`.
pub uninterp spec fn regex_finds(pattern: Seq<char>, text: Seq<char>) -> bool;

/// Compiles `pattern` with `regex::Regex::new` and, when that succeeds, tests
/// `text` with `regex::Regex::is_match`. The result is `None` exactly when the
/// pattern does not compile, and otherwise whether a match was found; both are
/// given by name only, as functions of the pattern and the text.
#[verifier::external_body]
pub(crate) fn regex_search(pattern: &str, text: &str) -> (r: Option<bool>)
    ensures
        r == (if regex_compiles(pattern@) {
            Some(regex_finds(pattern@, text@))
        } else {
            None::<bool>
        }),
{
    match regex::Regex::new(pattern) {
        Ok(re) => Some(re.is_match(text)),
        Err(_) => None,
    }
}

/// Whether `pattern` is a valid regex that matches somewhere in `text`.
pub open spec fn regex_match_spec(pattern: Seq<char>, text: Seq<char>) -> bool {
    regex_compiles(pattern) && regex_finds(pattern, text)
}

/// Match a string against a regex pattern; an invalid pattern matches nothing.
pub fn regex_match(pattern: &str, text: &str) -> (r: bool)
    ensures
        r == regex_match_spec(pattern@, text@),
{
    match regex_search(pattern, text) {
        Some(found) => found,
        None => false,
    }
}

} // verus!
