//! Comparison of names that a configuration gives as strings.

use vstd::prelude::*;
use vstd::string::*;

verus! {

/// The lower-case form of a string.
pub uninterp spec fn lowercase_of(s: Seq<char>) -> Seq<char>;

/// Calls `str::to_lowercase`. Trusted: the result is a function of the
/// string alone, its lower-case form.
#[verifier::external_body]
pub(crate) fn lowercase(s: &str) -> (lowered: String)
    ensures
        lowered@ == lowercase_of(s@),
{
    s.to_lowercase()
}

/// Tells whether a string is the given name.
pub fn is_name(s: &str, name: &str) -> (same: bool)
    ensures
        same == (s@ == name@),
{
    let left = String::from_str(s);
    let right = String::from_str(name);
    left == right
}

} // verus!
