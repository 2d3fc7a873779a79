//! Calls into std's text handling that vstd gives no specification for.
use vstd::prelude::*;
use crate::semantics::lower_of;

verus! {

/// Relies on `str::chars`: it yields the characters of `s` in order, which is
/// what `s@` is.
#[verifier::external_body]
pub(crate) fn chars_of(s: &str) -> (r: Vec<char>)
    ensures
        r@ == s@,
{
    s.chars().collect()
}

/// Relies on `FromIterator<&char> for String`: the string holds the given
/// characters in order.
#[verifier::external_body]
pub(crate) fn string_of(cs: &[char]) -> (r: String)
    ensures
        r@ == cs@,
{
    cs.iter().collect()
}

/// Relies on `char::to_lowercase`: the characters it yields for `c`, which
/// depend on `c` alone.
#[verifier::external_body]
pub(crate) fn lowercase(c: char) -> (r: Vec<char>)
    ensures
        r@ == lower_of(c),
{
    c.to_lowercase().collect()
}

} // verus!
