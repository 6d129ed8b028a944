//! Account identifiers, checked by the rules of `miden_objects`.
use vstd::prelude::*;

use crate::digest::{AccountId, MODULUS};

verus! {

/// The fewest one bits that an account identifier has.
pub const MIN_ACCOUNT_ONES: u64 = 5;

/// The number of one bits of `x`.
pub open spec fn ones(x: u64) -> nat
    decreases x,
{
    if x == 0 {
        0
    } else {
        (x % 2) as nat + ones(x / 2)
    }
}

/// The storage mode, held in the two highest bits.
pub open spec fn storage_bits(id: u64) -> u64 {
    id / 0x4000_0000_0000_0000
}

/// A well-formed account identifier: a canonical field element with enough
/// one bits, whose storage mode is public (`0b00`) or private (`0b10`).
pub open spec fn valid_account_id(id: u64) -> bool {
    &&& id < MODULUS
    &&& ones(id) >= MIN_ACCOUNT_ONES
    &&& (storage_bits(id) == 0 || storage_bits(id) == 2)
}

/// Relies on `AccountId::try_from(u64)` of `miden_objects`: it accepts exactly
/// a canonical field element with at least `MIN_ACCOUNT_ONES` one bits whose
/// storage bits are public or private.
#[verifier::external_body]
pub(crate) fn is_valid_account_id(id: AccountId) -> (r: bool)
    ensures
        r == valid_account_id(id),
{
    miden_objects::accounts::AccountId::try_from(id).is_ok()
}

} // verus!
