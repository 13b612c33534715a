//! Caller identities.
//!
//! An identity is a `candid::Principal`. The ledger never looks inside one:
//! it stores the value, hands it back, and asks whether two of them are equal.

use candid::Principal;
use vstd::prelude::*;

verus! {

/// Makes `candid::Principal` known to the verifier as an opaque value.
#[verifier::external_type_specification]
#[verifier::external_body]
pub struct ExPrincipal(candid::Principal);

/// Compares two identities with `Principal`'s own `==`.
///
/// Trusted: `Principal` derives `PartialEq` over its length byte and its
/// zero-padded byte array, so `==` holds exactly when the two values are the
/// same value.
#[verifier::external_body]
pub(crate) fn same_principal(a: &Principal, b: &Principal) -> (same: bool)
    ensures
        same == (*a == *b),
{
    a == b
}

} // verus!
