//! Trusted boundary around `fixedbitset::FixedBitSet`, the dense bit buffer
//! that stores one boolean state per grid cell.

use vstd::prelude::*;
use fixedbitset::FixedBitSet;

verus! {

#[verifier::external_type_specification]
#[verifier::external_body]
pub struct ExFixedBitSet(FixedBitSet);

/// The boolean contents of a bit set, one entry per bit index, in index order.
pub uninterp spec fn bits_of(bs: FixedBitSet) -> Seq<bool>;

/// Relies on `FixedBitSet::with_capacity`: a set with `bits` bits, all
/// initially clear.
#[verifier::external_body]
pub(crate) fn bitset_with_capacity(bits: usize) -> (r: FixedBitSet)
    ensures
        bits_of(r).len() == bits,
        forall|i: int| 0 <= i < bits ==> !bits_of(r)[i],
{
    FixedBitSet::with_capacity(bits)
}

/// Relies on `FixedBitSet::set`: writes one bit and keeps every other bit;
/// it panics when the index is out of range, which the precondition rules out.
#[verifier::external_body]
pub(crate) fn bitset_set(bs: &mut FixedBitSet, bit: usize, enabled: bool)
    requires
        bit < bits_of(*old(bs)).len(),
    ensures
        bits_of(*final(bs)) == bits_of(*old(bs)).update(bit as int, enabled),
{
    bs.set(bit, enabled)
}

/// Relies on `FixedBitSet::contains`: returns the stored bit for an in-range
/// index.
#[verifier::external_body]
pub(crate) fn bitset_contains(bs: &FixedBitSet, bit: usize) -> (r: bool)
    requires
        bit < bits_of(*bs).len(),
    ensures
        r == bits_of(*bs)[bit as int],
{
    bs.contains(bit)
}

} // verus!
