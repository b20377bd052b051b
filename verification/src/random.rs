//! Random names for folders, bookmarks and keys.
use vstd::prelude::*;
use rand::distr::{Alphanumeric, SampleString};

verus! {

/// Whether `c` is an ASCII letter or digit.
pub open spec fn is_alphanumeric(c: char) -> bool {
    ||| 'a' <= c <= 'z'
    ||| 'A' <= c <= 'Z'
    ||| '0' <= c <= '9'
}

/// `SampleString::sample_string` of `rand::distr::Alphanumeric` on
/// `rand::rng()`: a string of `length` random characters, each an ASCII
/// letter or digit (`a-z`, `A-Z`, `0-9`). Which characters come is left
/// open.
#[verifier::external_body]
fn sample_alphanumeric(length: usize) -> (s: String)
    ensures
        s@.len() == length,
        forall|i: int| 0 <= i < s@.len() ==> is_alphanumeric(#[trigger] s@[i]),
{
    Alphanumeric.sample_string(&mut rand::rng(), length)
}

/// A random text of `length` ASCII letters and digits.
pub fn rand_str(length: usize) -> (s: String)
    ensures
        s@.len() == length,
        forall|i: int| 0 <= i < s@.len() ==> is_alphanumeric(#[trigger] s@[i]),
{
    sample_alphanumeric(length)
}

} // verus!
