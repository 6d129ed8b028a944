//! Text renderings of digests, account identifiers and heights.
use vstd::arithmetic::power2::pow2;
use vstd::prelude::*;

use miden_objects::crypto::hash::rpo::RpoDigest;
use miden_objects::Felt;

use crate::digest::{AccountId, Digest, MODULUS};

verus! {

/// The lower-case hexadecimal digit of `n`, for `0 <= n < 16`.
pub open spec fn hex_char(n: int) -> char {
    seq!['0', '1', '2', '3', '4', '5', '6', '7', '8', '9', 'a', 'b', 'c', 'd', 'e', 'f'][n]
}

/// Byte `j` of `x`, counting from the least significant.
pub open spec fn byte_of(x: u64, j: int) -> int {
    ((x as nat / pow2((8 * j) as nat)) % 256) as int
}

/// The eight little-endian bytes of `x`, two digits each, high digit first.
pub open spec fn felt_hex(x: u64) -> Seq<char> {
    Seq::new(
        16,
        |i: int|
            if i % 2 == 0 {
                hex_char(byte_of(x, i / 2) / 16)
            } else {
                hex_char(byte_of(x, i / 2) % 16)
            },
    )
}

/// A digest as `0x` and the hexadecimal of its 32 bytes.
pub open spec fn digest_hex(d: Digest) -> Seq<char> {
    seq!['0', 'x'] + felt_hex(d.e0) + felt_hex(d.e1) + felt_hex(d.e2) + felt_hex(d.e3)
}

/// An account identifier as `0x` and sixteen hexadecimal digits.
pub open spec fn account_hex(id: u64) -> Seq<char> {
    seq!['0', 'x'] + Seq::new(16, |i: int| hex_char(((id as nat / pow2((4 * (15 - i)) as nat)) % 16) as int))
}

/// The decimal digits of `n`.
pub open spec fn decimal(n: nat) -> Seq<char>
    decreases n,
{
    if n < 10 {
        seq![hex_char(n as int)]
    } else {
        decimal(n / 10) + seq![hex_char((n % 10) as int)]
    }
}

/// Relies on `RpoDigest::to_hex`: `0x`, then two lower-case digits for each
/// of the little-endian bytes of the four elements.
#[verifier::external_body]
pub(crate) fn digest_text(d: &Digest) -> (r: String)
    requires
        d.wf(),
    ensures
        r@ == digest_hex(*d),
{
    RpoDigest::new([Felt::new(d.e0), Felt::new(d.e1), Felt::new(d.e2), Felt::new(d.e3)]).to_hex()
}

/// Relies on the `Display` of `miden_objects`'s `AccountId`: `0x` and sixteen
/// lower-case hexadecimal digits.
#[verifier::external_body]
pub(crate) fn account_id_text(id: AccountId) -> (r: String)
    requires
        id < MODULUS,
    ensures
        r@ == account_hex(id),
{
    miden_objects::accounts::AccountId::new_unchecked(Felt::new(id)).to_string()
}

/// Relies on `u32::to_string`: the decimal digits, without leading zeros.
#[verifier::external_body]
pub(crate) fn decimal_text(n: u32) -> (r: String)
    ensures
        r@ == decimal(n as nat),
{
    n.to_string()
}

/// Relies on `String::push_str`: appends `t`.
#[verifier::external_body]
pub(crate) fn push_text(s: &mut String, t: &str)
    ensures
        final(s)@ == old(s)@ + t@,
{
    s.push_str(t)
}

} // verus!
