//! The contracts under which the grid code uses `fixedbitset::FixedBitSet`.
//!
//! Nothing in this file is proved: each item states what the bit set's own
//! source shows, and the rest of the library is verified against it.

use fixedbitset::FixedBitSet;
use vstd::prelude::*;

verus! {

/// `fixedbitset::FixedBitSet`, a set of bits of fixed length. Verified code
/// sees nothing inside it: what it holds is `contents`.
#[verifier::external_type_specification]
#[verifier::external_body]
pub struct ExFixedBitSet(fixedbitset::FixedBitSet);

/// The bits that a `FixedBitSet` holds, in index order. Its length is the
/// set's length in bits.
pub uninterp spec fn contents(set: FixedBitSet) -> Seq<bool>;

/// Bit `k` of a 32-bit block, counted from the least significant bit.
pub open spec fn word_bit(word: u32, k: int) -> bool {
    (word >> (k as u32)) & 1u32 == 1u32
}

/// `words` is the block image of `bits`: bit `i` sits in block `i / 32` at
/// position `i % 32`. Nothing is said of the unused positions of the last
/// block.
pub open spec fn packed_in_words(words: Seq<u32>, bits: Seq<bool>) -> bool {
    &&& words.len() == (bits.len() + 31) / 32
    &&& forall|i: int| 0 <= i < bits.len() ==> word_bit(words[i / 32], i % 32) == #[trigger] bits[i]
}

/// `FixedBitSet::with_capacity`: a set of `bits` bits, all of them clear.
pub assume_specification[ FixedBitSet::with_capacity ](bits: usize) -> (set: FixedBitSet)
    ensures
        contents(set) == Seq::new(bits as nat, |i: int| false),
;

/// `FixedBitSet::contains`: the value of bit `bit`, for a `bit` within the
/// set's length.
pub assume_specification[ FixedBitSet::contains ](set: &FixedBitSet, bit: usize) -> (on: bool)
    ensures
        bit < contents(*set).len() ==> on == contents(*set)[bit as int],
;

/// `FixedBitSet::set`: bit `bit` takes the value `enabled` and every other
/// bit keeps its own. The method panics on a `bit` beyond the length, which
/// `requires` leaves out.
pub assume_specification[ FixedBitSet::set ](set: &mut FixedBitSet, bit: usize, enabled: bool)
    requires
        bit < contents(*old(set)).len(),
    ensures
        contents(*final(set)) == contents(*old(set)).update(bit as int, enabled),
;

/// `FixedBitSet::clone`: the copy holds the same bits.
pub assume_specification[ <FixedBitSet as Clone>::clone ](set: &FixedBitSet) -> (copy: FixedBitSet)
    ensures
        contents(copy) == contents(*set),
;

/// `FixedBitSet::as_slice`: the set's `u32` blocks, one for every 32 bits
/// of its length, bit `i` in block `i / 32` at position `i % 32`.
pub assume_specification[ FixedBitSet::as_slice ](set: &FixedBitSet) -> (words: &[u32])
    ensures
        packed_in_words(words@, contents(*set)),
;

} // verus!
