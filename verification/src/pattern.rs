//! Regular expressions, matched by the `regex` crate.

use vstd::prelude::*;

verus! {

/// What the `regex` crate makes of a pattern and a text: `None` where it
/// does not accept the pattern, else whether the pattern matches somewhere
/// in the text. Its syntax and matching rules fill a manual, so the verdict
/// is named here and not spelled out.
pub uninterp spec fn regex_verdict(pattern: Seq<char>, text: Seq<char>) -> Option<bool>;

/// Compiles `pattern` with `regex::Regex::new` and searches `text` with
/// `Regex::is_match`. A pattern that the crate refuses gives `None`. The
/// outcome depends on the two strings alone.
#[verifier::external_body]
pub(crate) fn search(pattern: &str, text: &str) -> (verdict: Option<bool>)
    ensures
        verdict == regex_verdict(pattern@, text@),
{
    match regex::Regex::new(pattern) {
        Ok(re) => Some(re.is_match(text)),
        Err(_) => None,
    }
}

} // verus!
