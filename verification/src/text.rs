//! Text helpers.

use vstd::prelude::*;

verus! {

/// The upper-case form of a text, as the standard library's Unicode tables define it.
pub uninterp spec fn uppercase(s: Seq<char>) -> Seq<char>;

/// Calls `str::to_uppercase` of the standard library. Taken on trust: the text returned
/// is the upper-case form of `s`, a function of `s` alone.
#[verifier::external_body]
pub(crate) fn to_uppercase(s: &str) -> (upper: String)
    ensures
        upper@ == uppercase(s@),
{
    s.to_uppercase()
}

} // verus!
