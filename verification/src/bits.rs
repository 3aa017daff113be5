//! Single bits and bit ranges of a 64-bit word, read and written through the
//! `bitfield` crate.

use bitfield::{Bit, BitRange};
use vstd::prelude::*;

verus! {

/// Whether bit number `bit` of `word` is set; bit 0 is the least significant.
pub open spec fn bit_is_set(word: u64, bit: u64) -> bool {
    (word >> bit) & 1 == 1
}

/// `word` with bit number `bit` set.
pub open spec fn with_bit(word: u64, bit: u64) -> u64 {
    word | (1u64 << bit)
}

/// `word` with bit number `bit` cleared.
pub open spec fn without_bit(word: u64, bit: u64) -> u64 {
    word & !(1u64 << bit)
}

/// The bits `msb` down to `lsb` of `word`, moved down to bit 0.
pub open spec fn bits(word: u64, msb: u64, lsb: u64) -> u64 {
    (word >> lsb) & (0xFFFF_FFFF_FFFF_FFFFu64 >> ((63 + lsb - msb) as u64))
}

/// Whether `after` can be reached from `before` by clearing bits alone.
pub open spec fn only_cleared(before: u64, after: u64) -> bool {
    after & !before == 0
}

/// Clearing no bit is clearing bits alone, and so is clearing bits and then
/// clearing more.
pub proof fn lemma_only_cleared(first: u64, second: u64, third: u64)
    by (bit_vector)
    ensures
        only_cleared(first, first),
        only_cleared(first, second) && only_cleared(second, third) ==> only_cleared(first, third),
{
}

/// `bitfield::Bit::bit` on a `u64`. Not proved: that the call tells whether
/// bit number `index` of `word` is set. The crate shifts by `63 - index`,
/// which overflows from bit 64 on.
#[verifier::external_body]
pub(crate) fn bit(word: &u64, index: usize) -> (set: bool)
    requires
        index < 64,
    ensures
        set == bit_is_set(*word, index as u64),
{
    Bit::bit(word, index)
}

/// `bitfield::Bit::set_bit` on a `u64`. Not proved: that the call sets bit
/// number `index` of `word` to `value` and leaves every other bit alone. The
/// crate shifts by `63 - index`, which overflows from bit 64 on.
#[verifier::external_body]
pub(crate) fn set_bit(word: &mut u64, index: usize, value: bool)
    requires
        index < 64,
    ensures
        *final(word) == if value {
            with_bit(*old(word), index as u64)
        } else {
            without_bit(*old(word), index as u64)
        },
{
    Bit::set_bit(word, index, value)
}

/// `bitfield::BitRange::<u64>::bit_range` on a `u64`. Not proved: that the
/// call returns the bits `msb` down to `lsb` of `word`, moved down to bit 0.
/// The crate shifts by `63 - msb` and by `63 - msb + lsb`, which overflow
/// unless `lsb <= msb < 64`.
#[verifier::external_body]
pub(crate) fn bit_range(word: &u64, msb: usize, lsb: usize) -> (field: u64)
    requires
        lsb <= msb < 64,
    ensures
        field == bits(*word, msb as u64, lsb as u64),
{
    BitRange::<u64>::bit_range(word, msb, lsb)
}

} // verus!
