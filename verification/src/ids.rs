//! Fresh identifiers drawn from the machine's randomness.

use vstd::prelude::*;

verus! {

/// Relies on `uuid::Uuid::new_v4` and the `Display` impl of `Uuid`: a fresh
/// random version-4 UUID rendered in the hyphenated form, 36 characters of
/// lowercase hexadecimal digits and hyphens. Nothing is assumed about which
/// identifier comes back.
#[verifier::external_body]
pub(crate) fn new_id() -> (r: String)
    ensures
        r@.len() == 36,
        forall|i: int|
            0 <= i < r@.len() ==> r@[i] == '-' || ('0' <= r@[i] && r@[i] <= '9') || ('a' <= r@[i]
                && r@[i] <= 'f'),
{
    uuid::Uuid::new_v4().to_string()
}

} // verus!
