//! Trusted boundary to the identifier and randomness crates. Each item
//! here is believed on the strength of the named outside function's own
//! documentation; nothing else in the library is taken on trust.

use vstd::prelude::*;

verus! {

/// The characters a hyphenated identifier consists of: lowercase
/// hexadecimal digits and hyphens.
pub open spec fn is_uuid_char(c: char) -> bool {
    (48 <= c as int <= 57) || (97 <= c as int <= 102) || c == '-'
}

/// Relies on `uuid::Uuid::new_v4` and its `Display` form: a fresh random
/// identifier rendered hyphenated, 36 lowercase hex-or-hyphen characters.
#[verifier::external_body]
pub(crate) fn fresh_uuid() -> (r: String)
    ensures
        r@.len() == 36,
        forall|i: int| 0 <= i < r@.len() ==> is_uuid_char(r@[i]),
{
    uuid::Uuid::new_v4().to_string()
}

/// Nothing can be promised of a random draw.
pub assume_specification<T>[ rand::random::<T> ]() -> (r: T)
    where
        rand::distributions::Standard: rand::distributions::Distribution<T>,
;

} // verus!
