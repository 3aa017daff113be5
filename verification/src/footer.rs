//! The footer of a bootable image.

use crate::bits::{
    bit, bit_is_set, bit_range, bits, lemma_only_cleared, only_cleared, set_bit, without_bit,
};
use vstd::prelude::*;

verus! {

/// The most significant bit of the checksum.
pub const CHECKSUM_MSB: usize = 23;

/// The least significant bit of the checksum.
pub const CHECKSUM_LSB: usize = 0;

/// The most significant bit of the version.
pub const VERSION_MSB: usize = 31;

/// The least significant bit of the version.
pub const VERSION_LSB: usize = 24;

/// The most significant bit of the length.
pub const LENGTH_MSB: usize = 55;

/// The least significant bit of the length.
pub const LENGTH_LSB: usize = 32;

/// The bit that is cleared to mark the image valid.
pub const VALID_BIT: usize = 56;

/// The bit that is cleared to mark the image invalid.
pub const INVALID_BIT: usize = 57;

/// The bit that is cleared to mark the image as having booted with success.
pub const SUCCESS_BIT: usize = 58;

/// The bit that is cleared to mark the image as having failed to boot.
pub const FAILURE_BIT: usize = 59;

/// The lowest bit of the attempt counter. Each set bit of the counter is one
/// boot attempt that remains.
pub const ATTEMPTS_LSB: usize = 60;

/// The highest bit of the attempt counter.
pub const ATTEMPTS_MSB: usize = 63;

/// Each field is as wide as its bit range.
proof fn lemma_field_widths(word: u64)
    by (bit_vector)
    ensures
        bits(word, 23, 0) < 0x100_0000,
        bits(word, 31, 24) < 0x100,
        bits(word, 55, 32) < 0x100_0000,
{
}

/// The footer for a bootable image.
///
/// The word is flashed with every bit set except for the checksum, the version
/// and the length, and it follows the image it describes, so that the checksum
/// comes right behind the image.
pub struct Footer(pub u64);

impl Footer {
    /// The checksum field.
    pub open spec fn spec_checksum(&self) -> u32 {
        bits(self.0, CHECKSUM_MSB as u64, CHECKSUM_LSB as u64) as u32
    }

    /// The version field.
    pub open spec fn spec_version(&self) -> u32 {
        bits(self.0, VERSION_MSB as u64, VERSION_LSB as u64) as u32
    }

    /// The length field.
    pub open spec fn spec_length(&self) -> u32 {
        bits(self.0, LENGTH_MSB as u64, LENGTH_LSB as u64) as u32
    }

    /// Returns the checksum of the image.
    #[verifier::when_used_as_spec(spec_checksum)]
    pub fn checksum(&self) -> (checksum: u32)
        ensures
            checksum == self.spec_checksum(),
            checksum < 0x100_0000,
    {
        let field = bit_range(&self.0, CHECKSUM_MSB, CHECKSUM_LSB);
        proof {
            lemma_field_widths(self.0);
        }
        field as u32
    }

    /// Returns the version of the image.
    #[verifier::when_used_as_spec(spec_version)]
    pub fn version(&self) -> (version: u32)
        ensures
            version == self.spec_version(),
            version < 0x100,
    {
        let field = bit_range(&self.0, VERSION_MSB, VERSION_LSB);
        proof {
            lemma_field_widths(self.0);
        }
        field as u32
    }

    /// Returns the length (in bytes) of the image.
    #[verifier::when_used_as_spec(spec_length)]
    pub fn length(&self) -> (length: u32)
        ensures
            length == self.spec_length(),
            length < 0x100_0000,
    {
        let field = bit_range(&self.0, LENGTH_MSB, LENGTH_LSB);
        proof {
            lemma_field_widths(self.0);
        }
        field as u32
    }

    /// Whether the valid flag is asserted: its bit is clear.
    pub open spec fn spec_valid(&self) -> bool {
        !bit_is_set(self.0, VALID_BIT as u64)
    }

    /// Whether the invalid flag is asserted: its bit is clear.
    pub open spec fn spec_invalid(&self) -> bool {
        !bit_is_set(self.0, INVALID_BIT as u64)
    }

    /// Whether the success flag is asserted: its bit is clear.
    pub open spec fn spec_success(&self) -> bool {
        !bit_is_set(self.0, SUCCESS_BIT as u64)
    }

    /// Whether the failure flag is asserted: its bit is clear.
    pub open spec fn spec_failure(&self) -> bool {
        !bit_is_set(self.0, FAILURE_BIT as u64)
    }

    /// How many bits of the attempt counter below bit `end` are set.
    pub open spec fn attempts_below(&self, end: nat) -> nat
        decreases end,
    {
        if end <= ATTEMPTS_LSB {
            0
        } else {
            let place = (end - 1) as nat;
            self.attempts_below(place) + if bit_is_set(self.0, place as u64) {
                1nat
            } else {
                0nat
            }
        }
    }

    /// The boot attempts that remain: the number of set bits in the counter.
    pub open spec fn spec_attempts(&self) -> usize {
        self.attempts_below((ATTEMPTS_MSB + 1) as nat) as usize
    }

    /// This footer with the valid flag asserted.
    pub open spec fn with_valid(&self) -> Footer {
        Footer(without_bit(self.0, VALID_BIT as u64))
    }

    /// This footer with the invalid flag asserted.
    pub open spec fn with_invalid(&self) -> Footer {
        Footer(without_bit(self.0, INVALID_BIT as u64))
    }

    /// This footer with one attempt less: the lowest set bit of the counter is
    /// cleared. With no attempt left it is the same footer.
    pub open spec fn decremented(&self) -> Footer {
        if bit_is_set(self.0, 60) {
            Footer(without_bit(self.0, 60))
        } else if bit_is_set(self.0, 61) {
            Footer(without_bit(self.0, 61))
        } else if bit_is_set(self.0, 62) {
            Footer(without_bit(self.0, 62))
        } else if bit_is_set(self.0, 63) {
            Footer(without_bit(self.0, 63))
        } else {
            *self
        }
    }

    /// This footer after `count` decrements.
    pub open spec fn decremented_times(&self, count: nat) -> Footer
        decreases count,
    {
        if count == 0 {
            *self
        } else {
            self.decremented_times((count - 1) as nat).decremented()
        }
    }

    /// The address at which the image of a footer at `address` starts, if the
    /// length fits in front of the footer.
    pub open spec fn spec_start_address(&self, address: u32) -> Option<u32> {
        if self.spec_length() <= address {
            Some((address - self.spec_length()) as u32)
        } else {
            None
        }
    }

    /// Returns true if the image has been marked valid.
    #[verifier::when_used_as_spec(spec_valid)]
    pub fn valid(&self) -> (valid: bool)
        ensures
            valid == self.spec_valid(),
    {
        !bit(&self.0, VALID_BIT)
    }

    /// Marks the image as being valid.
    pub fn set_valid(&mut self)
        ensures
            *final(self) == old(self).with_valid(),
            final(self).spec_valid(),
            only_cleared(old(self).0, final(self).0),
    {
        proof {
            lemma_set_valid(*self);
        }
        set_bit(&mut self.0, VALID_BIT, false)
    }

    /// Returns true if the image has been marked invalid.
    #[verifier::when_used_as_spec(spec_invalid)]
    pub fn invalid(&self) -> (invalid: bool)
        ensures
            invalid == self.spec_invalid(),
    {
        !bit(&self.0, INVALID_BIT)
    }

    /// Marks the image as being invalid.
    pub fn set_invalid(&mut self)
        ensures
            *final(self) == old(self).with_invalid(),
            final(self).spec_invalid(),
            only_cleared(old(self).0, final(self).0),
    {
        proof {
            lemma_set_invalid(*self);
        }
        set_bit(&mut self.0, INVALID_BIT, false)
    }

    /// Returns true if the image has been marked as having successfully booted.
    #[verifier::when_used_as_spec(spec_success)]
    pub fn success(&self) -> (success: bool)
        ensures
            success == self.spec_success(),
    {
        !bit(&self.0, SUCCESS_BIT)
    }

    /// Returns true if the image has been marked as having failed to boot.
    #[verifier::when_used_as_spec(spec_failure)]
    pub fn failure(&self) -> (failure: bool)
        ensures
            failure == self.spec_failure(),
    {
        !bit(&self.0, FAILURE_BIT)
    }

    /// Returns the number of remaining boot attempts.
    #[verifier::when_used_as_spec(spec_attempts)]
    pub fn attempts(&self) -> (attempts: usize)
        ensures
            attempts == self.spec_attempts(),
            attempts <= 4,
    {
        let mut attempts: usize = 0;
        let mut index: usize = ATTEMPTS_LSB;
        while index <= ATTEMPTS_MSB
            invariant
                60 <= index <= 64,
                attempts == self.attempts_below(index as nat),
                attempts <= index - 60,
            decreases 64 - index,
        {
            if bit(&self.0, index) {
                attempts += 1;
            }
            index += 1;
        }
        attempts
    }

    /// Decrements the number of remaining boot attempts by one. With none
    /// left the footer stays as it is.
    pub fn decrement_attempts(&mut self)
        ensures
            *final(self) == old(self).decremented(),
            final(self).spec_attempts() == if old(self).spec_attempts() > 0 {
                old(self).spec_attempts() - 1
            } else {
                0
            },
            only_cleared(old(self).0, final(self).0),
    {
        proof {
            lemma_decrement_attempts(*self);
        }
        let mut index: usize = ATTEMPTS_LSB;
        while index <= ATTEMPTS_MSB
            invariant
                60 <= index <= 64,
                *self == *old(self),
                only_cleared(old(self).0, old(self).decremented().0),
                old(self).decremented().spec_attempts() == if old(self).spec_attempts() > 0 {
                    old(self).spec_attempts() - 1
                } else {
                    0
                },
                forall|place: u64| 60 <= place < index ==> !bit_is_set(self.0, place),
            decreases 64 - index,
        {
            if bit(&self.0, index) {
                set_bit(&mut self.0, index, false);
                return ;
            }
            index += 1;
        }
    }

    /// Returns the address to the start of the image, for a footer that
    /// stands at `address`: `None` where the length does not fit in front of
    /// the footer.
    pub fn start_address(&self, address: u32) -> (start: Option<u32>)
        ensures
            start == self.spec_start_address(address),
    {
        address.checked_sub(self.length())
    }
}

/// What clearing one of the upper eight bits does to another bit and to the
/// fields below them.
proof fn lemma_clear_bit(word: u64, place: u64, other: u64)
    by (bit_vector)
    requires
        56 <= place < 64,
        other < 64,
    ensures
        bit_is_set(without_bit(word, place), other) == (other != place && bit_is_set(
            word,
            other,
        )),
        bits(without_bit(word, place), 23, 0) == bits(word, 23, 0),
        bits(without_bit(word, place), 31, 24) == bits(word, 31, 24),
        bits(without_bit(word, place), 55, 32) == bits(word, 55, 32),
        only_cleared(word, without_bit(word, place)),
        !bit_is_set(word, place) ==> without_bit(word, place) == word,
{
}

/// Clearing a flag or a bit of the counter leaves the other seven and the
/// three fields as they were, and clears nothing twice.
proof fn lemma_clear_upper_bit(footer: Footer, place: u64)
    requires
        56 <= place < 64,
    ensures
        ({
            let cleared = Footer(without_bit(footer.0, place));
            &&& forall|other: u64|
                56 <= other < 64 ==> #[trigger] bit_is_set(cleared.0, other) == (other != place
                    && bit_is_set(footer.0, other))
            &&& cleared.spec_checksum() == footer.spec_checksum()
            &&& cleared.spec_version() == footer.spec_version()
            &&& cleared.spec_length() == footer.spec_length()
            &&& only_cleared(footer.0, cleared.0)
            &&& !bit_is_set(footer.0, place) ==> cleared == footer
        }),
{
    let cleared = Footer(without_bit(footer.0, place));
    assert forall|other: u64| 56 <= other < 64 implies #[trigger] bit_is_set(cleared.0, other) == (
    other != place && bit_is_set(footer.0, other)) by {
        lemma_clear_bit(footer.0, place, other);
    }
    lemma_clear_bit(footer.0, place, place);
}

/// The attempts that remain, counted bit by bit.
pub proof fn lemma_attempts_unfold(footer: Footer)
    ensures
        footer.spec_attempts() == (if bit_is_set(footer.0, 60) {
            1nat
        } else {
            0nat
        }) + (if bit_is_set(footer.0, 61) {
            1nat
        } else {
            0nat
        }) + (if bit_is_set(footer.0, 62) {
            1nat
        } else {
            0nat
        }) + (if bit_is_set(footer.0, 63) {
            1nat
        } else {
            0nat
        }),
{
    reveal_with_fuel(Footer::attempts_below, 5);
}

/// Marking an image valid asserts that flag and changes nothing else; a
/// second marking changes nothing at all.
pub proof fn lemma_set_valid(footer: Footer)
    ensures
        footer.with_valid().spec_valid(),
        footer.with_valid().spec_invalid() == footer.spec_invalid(),
        footer.with_valid().spec_success() == footer.spec_success(),
        footer.with_valid().spec_failure() == footer.spec_failure(),
        footer.with_valid().spec_attempts() == footer.spec_attempts(),
        footer.with_valid().spec_checksum() == footer.spec_checksum(),
        footer.with_valid().spec_version() == footer.spec_version(),
        footer.with_valid().spec_length() == footer.spec_length(),
        only_cleared(footer.0, footer.with_valid().0),
        footer.spec_valid() ==> footer.with_valid() == footer,
        footer.with_valid().with_valid() == footer.with_valid(),
{
    lemma_clear_upper_bit(footer, 56);
    lemma_clear_upper_bit(footer.with_valid(), 56);
    lemma_attempts_unfold(footer);
    lemma_attempts_unfold(footer.with_valid());
}

/// Marking an image invalid asserts that flag and changes nothing else; a
/// second marking changes nothing at all.
pub proof fn lemma_set_invalid(footer: Footer)
    ensures
        footer.with_invalid().spec_invalid(),
        footer.with_invalid().spec_valid() == footer.spec_valid(),
        footer.with_invalid().spec_success() == footer.spec_success(),
        footer.with_invalid().spec_failure() == footer.spec_failure(),
        footer.with_invalid().spec_attempts() == footer.spec_attempts(),
        footer.with_invalid().spec_checksum() == footer.spec_checksum(),
        footer.with_invalid().spec_version() == footer.spec_version(),
        footer.with_invalid().spec_length() == footer.spec_length(),
        only_cleared(footer.0, footer.with_invalid().0),
        footer.spec_invalid() ==> footer.with_invalid() == footer,
        footer.with_invalid().with_invalid() == footer.with_invalid(),
{
    lemma_clear_upper_bit(footer, 57);
    lemma_clear_upper_bit(footer.with_invalid(), 57);
    lemma_attempts_unfold(footer);
    lemma_attempts_unfold(footer.with_invalid());
}

/// A decrement takes one attempt away while there is one, and changes nothing
/// else. With no attempt left it changes nothing at all.
pub proof fn lemma_decrement_attempts(footer: Footer)
    ensures
        footer.spec_attempts() <= 4,
        footer.spec_attempts() > 0 ==> footer.decremented().spec_attempts()
            == footer.spec_attempts() - 1,
        footer.spec_attempts() == 0 ==> footer.decremented() == footer,
        footer.decremented().spec_valid() == footer.spec_valid(),
        footer.decremented().spec_invalid() == footer.spec_invalid(),
        footer.decremented().spec_success() == footer.spec_success(),
        footer.decremented().spec_failure() == footer.spec_failure(),
        footer.decremented().spec_checksum() == footer.spec_checksum(),
        footer.decremented().spec_version() == footer.spec_version(),
        footer.decremented().spec_length() == footer.spec_length(),
        only_cleared(footer.0, footer.decremented().0),
{
    lemma_attempts_unfold(footer);
    lemma_attempts_unfold(footer.decremented());
    if bit_is_set(footer.0, 60) {
        lemma_clear_upper_bit(footer, 60);
    } else if bit_is_set(footer.0, 61) {
        lemma_clear_upper_bit(footer, 61);
    } else if bit_is_set(footer.0, 62) {
        lemma_clear_upper_bit(footer, 62);
    } else if bit_is_set(footer.0, 63) {
        lemma_clear_upper_bit(footer, 63);
    } else {
        assert(only_cleared(footer.0, footer.0)) by {
            lemma_clear_upper_bit(footer, 60);
        }
    }
}

/// Across any run of decrements the attempts that remain never rise and never
/// fall below zero: after `count` decrements they are `count` fewer, or zero
/// where there were not that many, and from zero on the footer no longer
/// changes.
pub proof fn lemma_attempts_after_decrements(footer: Footer, count: nat)
    ensures
        footer.decremented_times(count).spec_attempts() == if footer.spec_attempts() >= count {
            footer.spec_attempts() - count
        } else {
            0
        },
        footer.decremented_times(count + 1).spec_attempts() <= footer.decremented_times(
            count,
        ).spec_attempts(),
        footer.decremented_times(count).spec_attempts() == 0 ==> footer.decremented_times(
            count + 1,
        ) == footer.decremented_times(count),
        only_cleared(footer.0, footer.decremented_times(count).0),
    decreases count,
{
    lemma_decrement_attempts(footer.decremented_times(count));
    if count > 0 {
        let before = (count - 1) as nat;
        lemma_attempts_after_decrements(footer, before);
        lemma_decrement_attempts(footer.decremented_times(before));
        lemma_only_cleared(
            footer.0,
            footer.decremented_times(before).0,
            footer.decremented_times(count).0,
        );
    } else {
        lemma_only_cleared(footer.0, footer.0, footer.0);
    }
}

} // verus!
