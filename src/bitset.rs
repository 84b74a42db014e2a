//! The calls into `fixedbitset` that the grid relies on, each with the
//! contract that the crate's source gives it.

use fixedbitset::FixedBitSet;
use vstd::prelude::*;

verus! {

#[verifier::external_type_specification]
#[verifier::external_body]
pub struct ExFixedBitSet(FixedBitSet);

/// The bits that a `FixedBitSet` holds, in index order; the length of the
/// sequence is the set's `len()`.
pub uninterp spec fn bits_of(s: FixedBitSet) -> Seq<bool>;

/// Relies on `FixedBitSet::with_capacity`: a set of `n` bits, all clear.
#[verifier::external_body]
pub(crate) fn bitset_with_capacity(n: usize) -> (r: FixedBitSet)
    ensures
        bits_of(r) == Seq::new(n as nat, |i: int| false),
{
    FixedBitSet::with_capacity(n)
}

/// Relies on `FixedBitSet::len`: the number of bits, set or clear.
#[verifier::external_body]
pub(crate) fn bitset_len(s: &FixedBitSet) -> (r: usize)
    ensures
        r == bits_of(*s).len(),
{
    s.len()
}

/// Relies on `FixedBitSet::contains`: whether bit `i` is set.
#[verifier::external_body]
pub(crate) fn bitset_contains(s: &FixedBitSet, i: usize) -> (r: bool)
    ensures
        i < bits_of(*s).len() ==> r == bits_of(*s)[i as int],
{
    s.contains(i)
}

/// Relies on `FixedBitSet::set`: bit `i` becomes `enabled`, the others stay.
/// It panics when `i` is not below `len()`.
#[verifier::external_body]
pub(crate) fn bitset_set(s: &mut FixedBitSet, i: usize, enabled: bool)
    requires
        i < bits_of(*old(s)).len(),
    ensures
        bits_of(*final(s)) == bits_of(*old(s)).update(i as int, enabled),
{
    s.set(i, enabled)
}

/// Relies on `FixedBitSet::toggle`: bit `i` is inverted, the others stay.
/// It panics when `i` is not below `len()`.
#[verifier::external_body]
pub(crate) fn bitset_toggle(s: &mut FixedBitSet, i: usize)
    requires
        i < bits_of(*old(s)).len(),
    ensures
        bits_of(*final(s)) == bits_of(*old(s)).update(i as int, !bits_of(*old(s))[i as int]),
{
    s.toggle(i)
}

/// Relies on `FixedBitSet::clear`: every bit is cleared, the length stays.
#[verifier::external_body]
pub(crate) fn bitset_clear(s: &mut FixedBitSet)
    ensures
        bits_of(*final(s)) == Seq::new(bits_of(*old(s)).len(), |i: int| false),
{
    s.clear()
}

/// Relies on `FixedBitSet`'s `Clone`: a copy with the same bits.
#[verifier::external_body]
pub(crate) fn bitset_clone(s: &FixedBitSet) -> (r: FixedBitSet)
    ensures
        bits_of(r) == bits_of(*s),
{
    s.clone()
}

/// Relies on `FixedBitSet::as_slice`: the set's `u32` blocks, bit `i` being
/// bit `i % 32` of block `i / 32`.
#[verifier::external_body]
pub(crate) fn bitset_as_slice(s: &FixedBitSet) -> (r: &[u32])
    ensures
        r@.len() == (bits_of(*s).len() + 31) / 32,
        forall|i: int|
            0 <= i < bits_of(*s).len() ==> #[trigger] bits_of(*s)[i] == ((r@[i / 32] >> ((i
                % 32) as u32)) & 1u32 == 1u32),
{
    s.as_slice()
}

} // verus!
