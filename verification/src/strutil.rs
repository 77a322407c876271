//! Small trusted wrappers around std string functions that vstd gives no
//! specification to, and the case-insensitive prefix test built on them.

use vstd::prelude::*;

verus! {

/// What `str::to_lowercase` returns: a function of the characters alone.
pub uninterp spec fn lower_of(s: Seq<char>) -> Seq<char>;

/// Relies on `<str as PartialEq>::eq`: true exactly when the two strings
/// consist of the same characters.
#[verifier::external_body]
pub fn str_eq(a: &str, b: &str) -> (r: bool)
    ensures
        r == (a@ == b@),
{
    a == b
}

/// Relies on `str::to_lowercase`: the result depends on the characters of
/// the input alone, and an empty string stays empty.
#[verifier::external_body]
pub fn to_lowercase(s: &str) -> (r: String)
    ensures
        r@ == lower_of(s@),
        s@.len() == 0 ==> r@.len() == 0,
{
    s.to_lowercase()
}

/// Relies on `str::starts_with`: true exactly when `p` is a prefix of `s`.
#[verifier::external_body]
pub fn starts_with(s: &str, p: &str) -> (r: bool)
    ensures
        r == p@.is_prefix_of(s@),
{
    s.starts_with(p)
}

/// Whether `p` names a case-insensitive prefix of `s`: lowercased, `p` is
/// a prefix of lowercased `s`.
pub open spec fn ci_prefix_of(p: Seq<char>, s: Seq<char>) -> bool {
    lower_of(p).is_prefix_of(lower_of(s))
}

/// Case-insensitive prefix test, by lowercasing both sides.
pub fn is_ci_prefix(p: &str, s: &str) -> (r: bool)
    ensures
        r == ci_prefix_of(p@, s@),
{
    let sl = to_lowercase(s);
    let pl = to_lowercase(p);
    starts_with(sl.as_str(), pl.as_str())
}

} // verus!
