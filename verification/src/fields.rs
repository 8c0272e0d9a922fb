//! The three field rules: IP address, MAC address and hostname.
//!
//! Each rule trims the cell, and then either yields the cleaned value or
//! fails with a reason. The empty reason marks a cell that is blank, which
//! for a MAC address or a hostname is no error.

use vstd::prelude::*;
use crate::pattern::{regex_verdict, search};
use crate::text::{blank, chars_of, lemma_trimmed_blank, trim, trimmed, unicode_lowercase};

verus! {

broadcast use vstd::string::group_string_axioms;

/// Four octets from 0 to 255, written without leading zeros, with dots
/// between them.
pub const IPADDR_PATTERN: &'static str =
    r"^((25[0-5]|(2[0-4]|1[0-9]|[1-9]|)[0-9])(\.)){3}(25[0-5]|(2[0-4]|1[0-9]|[1-9]|)[0-9])$";

/// Six groups of two lowercase hexadecimal digits, with colons between them.
pub const MACADDR_PATTERN: &'static str = r"^[a-f0-9]{2}(:[a-f0-9]{2}){5}$";

/// Letters, digits, hyphens, dots and spaces only.
pub const HOSTNAME_PATTERN: &'static str = r"^([a-zA-Z0-9-\. ]*)$";

pub const IPADDR_REASON: &'static str = "ipaddr failed regex check";

pub const MACADDR_REASON: &'static str = "macaddr failed regex check";

pub const HOSTNAME_REASON: &'static str = "hostname failed regex check";

/// The outcome of a field rule: the cleaned value, or the reason of the
/// failure.
pub type Cleaned = Result<Seq<char>, Seq<char>>;

/// The outcome of a field rule as the executable functions return it.
pub open spec fn cleaned_view(r: Result<String, String>) -> Cleaned {
    match r {
        Ok(value) => Ok(value@),
        Err(reason) => Err(reason@),
    }
}

/// A candidate passes where the pattern was accepted and matched; anything
/// else fails with `reason`.
pub open spec fn judged(candidate: Seq<char>, verdict: Option<bool>, reason: Seq<char>) -> Cleaned {
    if verdict == Some(true) {
        Ok(candidate)
    } else {
        Err(reason)
    }
}

/// The rule for an IP address.
pub open spec fn cleaned_ipaddr(cell: Seq<char>) -> Cleaned {
    let t = trimmed(cell);
    judged(t, regex_verdict(IPADDR_PATTERN@, t), IPADDR_REASON@)
}

/// `s` with a colon in place of every hyphen.
pub open spec fn with_colons(s: Seq<char>) -> Seq<char> {
    s.map_values(|c: char| if c == '-' { ':' } else { c })
}

/// What the MAC pattern is tried on: the trimmed cell with colons for
/// hyphens, in lowercase.
pub open spec fn macaddr_candidate(cell: Seq<char>) -> Seq<char> {
    unicode_lowercase(with_colons(trimmed(cell)))
}

/// The rule for a MAC address. A blank cell fails with the empty reason.
pub open spec fn cleaned_macaddr(cell: Seq<char>) -> Cleaned {
    if trimmed(cell).len() == 0 {
        Err(Seq::empty())
    } else {
        let m = macaddr_candidate(cell);
        judged(m, regex_verdict(MACADDR_PATTERN@, m), MACADDR_REASON@)
    }
}

/// The rule for a hostname. A blank cell fails with the empty reason.
pub open spec fn cleaned_hostname(cell: Seq<char>) -> Cleaned {
    let t = trimmed(cell);
    if t.len() == 0 {
        Err(Seq::empty())
    } else {
        judged(t, regex_verdict(HOSTNAME_PATTERN@, t), HOSTNAME_REASON@)
    }
}

/// A MAC address or a hostname fails with the empty reason exactly when the
/// cell holds nothing but whitespace; an IP address never does.
pub proof fn lemma_empty_reason_means_blank(cell: Seq<char>)
    ensures
        cleaned_macaddr(cell) == Err::<Seq<char>, Seq<char>>(Seq::empty()) <==> blank(cell),
        cleaned_hostname(cell) == Err::<Seq<char>, Seq<char>>(Seq::empty()) <==> blank(cell),
        cleaned_ipaddr(cell) != Err::<Seq<char>, Seq<char>>(Seq::empty()),
{
    reveal_strlit("ipaddr failed regex check");
    reveal_strlit("macaddr failed regex check");
    reveal_strlit("hostname failed regex check");
    lemma_trimmed_blank(cell);
    assert(IPADDR_REASON@.len() > 0);
    assert(MACADDR_REASON@.len() > 0);
    assert(HOSTNAME_REASON@.len() > 0);
}

/// Decides on a candidate once the pattern has been tried on it.
pub fn judge(candidate: String, verdict: Option<bool>, reason: &str) -> (r: Result<String, String>)
    ensures
        cleaned_view(r) == judged(candidate@, verdict, reason@),
{
    match verdict {
        Some(true) => Ok(candidate),
        _ => Err(reason.to_owned()),
    }
}

/// Cleans and checks a dotted-decimal IPv4 address. A blank cell fails like
/// any other text that is no address.
pub fn clean_ipaddr(s: &str) -> (r: Result<String, String>)
    ensures
        cleaned_view(r) == cleaned_ipaddr(s@),
{
    let t = trim(s);
    let verdict = search(IPADDR_PATTERN, t.as_str());
    judge(t, verdict, IPADDR_REASON)
}

/// `s` with a colon in place of every hyphen.
pub fn colons_for_hyphens(s: &str) -> (t: String)
    ensures
        t@ == with_colons(s@),
{
    let v = chars_of(s);
    let mut t = String::new();
    let mut i: usize = 0;
    while i < v.len()
        invariant
            i <= v.len(),
            v@ == s@,
            t@ == with_colons(s@.take(i as int)),
        decreases v.len() - i,
    {
        let c = v[i];
        t.push(if c == '-' { ':' } else { c });
        i += 1;
        assert(t@ =~= with_colons(s@.take(i as int)));
    }
    assert(s@.take(i as int) =~= s@);
    t
}

/// Cleans and checks a MAC address: hyphens become colons and letters
/// lowercase. A blank cell fails with the empty reason.
pub fn clean_mac(s: &str) -> (r: Result<String, String>)
    ensures
        cleaned_view(r) == cleaned_macaddr(s@),
{
    let t = trim(s);
    if t.as_str().is_empty() {
        return Err(String::new());
    }
    let m = colons_for_hyphens(t.as_str()).as_str().to_lowercase();
    let verdict = search(MACADDR_PATTERN, m.as_str());
    judge(m, verdict, MACADDR_REASON)
}

/// Cleans and checks a hostname. A blank cell fails with the empty reason.
pub fn clean_hostname(s: &str) -> (r: Result<String, String>)
    ensures
        cleaned_view(r) == cleaned_hostname(s@),
{
    let t = trim(s);
    if t.as_str().is_empty() {
        return Err(String::new());
    }
    let verdict = search(HOSTNAME_PATTERN, t.as_str());
    judge(t, verdict, HOSTNAME_REASON)
}

} // verus!
