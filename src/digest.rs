use vstd::prelude::*;

verus! {

/// The order of the base field: `2^64 - 2^32 + 1`.
pub const MODULUS: u64 = 0xFFFF_FFFF_0000_0001;

/// Height of a block; zero is the genesis block.
pub type BlockNumber = u32;

/// A digest of four field elements, each held as its canonical integer.
#[derive(Clone, Copy, Debug, PartialEq, Eq, Structural)]
pub struct Digest {
    pub e0: u64,
    pub e1: u64,
    pub e2: u64,
    pub e3: u64,
}

/// The identifier of an account.
pub type AccountId = u64;

/// A nullifier is the digest that marks a note as consumed.
pub type Nullifier = Digest;

/// A note is identified by a digest.
pub type NoteId = Digest;

/// A leaf value of the map: four field elements, as canonical integers.
pub type Word = [u64; 4];

pub open spec fn is_felt(v: u64) -> bool {
    v < MODULUS
}

impl Digest {
    /// Every element is a canonical field element.
    pub open spec fn wf(self) -> bool {
        is_felt(self.e0) && is_felt(self.e1) && is_felt(self.e2) && is_felt(self.e3)
    }

    pub fn new(e0: u64, e1: u64, e2: u64, e3: u64) -> (r: Digest)
        ensures
            r == (Digest { e0, e1, e2, e3 }),
    {
        Digest { e0, e1, e2, e3 }
    }

    /// The digest whose elements are all zero.
    pub fn zero() -> (r: Digest)
        ensures
            r == zero_digest(),
            r.wf(),
    {
        Digest { e0: 0, e1: 0, e2: 0, e3: 0 }
    }
}

pub open spec fn zero_digest() -> Digest {
    Digest { e0: 0, e1: 0, e2: 0, e3: 0 }
}

} // verus!
