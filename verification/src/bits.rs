//! Routing hints of an edge, kept in a `bitvec::vec::BitVec`.
//!
//! Nothing in this file is proved: each function states what the bit
//! vector's source shows.

use bitvec::vec::BitVec;
use vstd::prelude::*;

verus! {

/// The hints of one edge: one bit for each region id, from 0 upwards.
#[verifier::external_body]
#[derive(Debug)]
pub struct RegionBits {
    bits: BitVec,
}

/// The bits that a bit vector holds, in order.
pub uninterp spec fn bit_seq(b: RegionBits) -> Seq<bool>;

/// The most bits that a bit vector can hold.
pub open spec fn max_bits() -> int {
    usize::MAX as int / 8
}

/// `BitVec::from_iter` on booleans: the vector holds the given bits in the
/// given order. Over `max_bits()` bits the outside call panics.
#[verifier::external_body]
pub(crate) fn bits_from_bools(flags: Vec<bool>) -> (b: RegionBits)
    requires
        flags@.len() <= max_bits(),
    ensures
        bit_seq(b) == flags@,
{
    RegionBits { bits: BitVec::from_iter(flags) }
}

/// `BitSlice::get` with an index: the bit at that place, `None` past the end.
#[verifier::external_body]
pub(crate) fn bits_get(b: &RegionBits, index: usize) -> (bit: Option<bool>)
    ensures
        bit == (if index < bit_seq(*b).len() {
            Some(bit_seq(*b)[index as int])
        } else {
            None
        }),
{
    b.bits.get(index).map(|r| *r)
}

} // verus!
