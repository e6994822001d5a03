//! Severity of a threat by its feed category.
use vstd::prelude::*;
use vstd::string::StringExecFns;
use crate::keyed::same_chars;
use crate::text::chars_of;

verus! {

/// What `str::to_lowercase` gives for a string.
pub uninterp spec fn lower_of(s: Seq<char>) -> Seq<char>;

/// Relies on `str::to_lowercase`: the result depends on the characters alone.
#[verifier::external_body]
fn lowercased(s: &str) -> (r: String)
    ensures
        r@ == lower_of(s@),
{
    s.to_lowercase()
}

/// The severity of an already lower-cased category: `high` for malware and
/// attack patterns, `medium` for payload delivery and network activity, `low` otherwise.
pub open spec fn severity_of(c: Seq<char>) -> Seq<char> {
    if c == "malware"@ || c == "attack-pattern"@ {
        "high"@
    } else if c == "payload-delivery"@ || c == "network-activity"@ {
        "medium"@
    } else {
        "low"@
    }
}

/// The severity of a lower-cased category.
pub fn severity_for(c: &str) -> (r: String)
    ensures
        r@ == severity_of(c@),
{
    let v = chars_of(c);
    if same_chars(&v, &chars_of("malware")) || same_chars(&v, &chars_of("attack-pattern")) {
        String::from_str("high")
    } else if same_chars(&v, &chars_of("payload-delivery")) || same_chars(&v, &chars_of("network-activity")) {
        String::from_str("medium")
    } else {
        String::from_str("low")
    }
}

/// The severity of a category, in any case.
pub fn determine_severity(category: &str) -> (r: String)
    ensures
        r@ == severity_of(lower_of(category@)),
{
    let l = lowercased(category);
    severity_for(l.as_str())
}

} // verus!
