//! Bootable images and the choice between two of them.

use crate::bits::{lemma_only_cleared, only_cleared};
use crate::crc;
use crate::footer::{lemma_decrement_attempts, lemma_set_invalid, lemma_set_valid, Footer};
use core::cmp::Ordering;
use vstd::prelude::*;
use vstd::slice::slice_subrange;

verus! {

/// A stretch of memory that can be read: `bytes` holds what stands at the
/// addresses from `base` on.
#[derive(Clone, Copy)]
pub struct Memory<'a> {
    pub base: u32,
    pub bytes: &'a [u8],
}

impl<'a> Memory<'a> {
    /// The `length` bytes from address `start` on, if all of them lie in this
    /// stretch.
    pub open spec fn spec_read(&self, start: u32, length: nat) -> Option<Seq<u8>> {
        if self.base <= start && start - self.base + length <= self.bytes@.len() {
            Some(self.bytes@.subrange(start - self.base, start - self.base + length))
        } else {
            None
        }
    }

    /// Reads the `length` bytes from address `start` on. Returns `None` where
    /// some of them lie outside this stretch.
    pub fn read(&self, start: u32, length: usize) -> (bytes: Option<&'a [u8]>)
        ensures
            match bytes {
                Some(bytes) => self.spec_read(start, length as nat) == Some(bytes@),
                None => self.spec_read(start, length as nat) is None,
            },
    {
        if start < self.base {
            return None;
        }
        let offset: usize = (start - self.base) as usize;
        if offset > self.bytes.len() || length > self.bytes.len() - offset {
            return None;
        }
        Some(slice_subrange(self.bytes, offset, offset + length))
    }
}

/// The footer as a verification leaves it. `checked` holds the image followed
/// by the three bytes of its checksum, or `None` where they cannot be had.
///
/// An image that was never judged is marked valid or invalid by its checksum.
/// Any other footer stays as it is.
pub open spec fn verified(footer: Footer, checked: Option<Seq<u8>>) -> Footer {
    if footer.spec_success() || footer.spec_failure() || footer.spec_invalid()
        || footer.spec_valid() {
        footer
    } else {
        match checked {
            Some(bytes) => if crc::remainder(bytes) == 0 {
                footer.with_valid()
            } else {
                footer.with_invalid()
            },
            None => footer,
        }
    }
}

/// Whether an image can be booted, by its footer and by `checked`, the image
/// followed by the three bytes of its checksum.
///
/// An image that has booted with success can be booted. One that has failed
/// to boot or is known to be invalid cannot. Any other image needs a checksum
/// that holds, known from before or found now, and an attempt that is left.
pub open spec fn bootable(footer: Footer, checked: Option<Seq<u8>>) -> bool {
    if footer.spec_success() {
        true
    } else if footer.spec_failure() || footer.spec_invalid() {
        false
    } else if footer.spec_valid() {
        footer.spec_attempts() > 0
    } else {
        match checked {
            Some(bytes) => crc::remainder(bytes) == 0 && footer.spec_attempts() > 0,
            None => false,
        }
    }
}

/// A bootable image: the footer that follows it, the address at which that
/// footer stands, and the memory that holds the image.
pub struct Image<'a> {
    pub footer: &'a mut Footer,
    pub address: u32,
    pub memory: Memory<'a>,
}

impl<'a> Image<'a> {
    /// The image followed by the three bytes of its checksum, which stand
    /// where the footer begins. `None` where the length does not fit in front
    /// of the footer, or where the memory does not hold all of these bytes.
    pub open spec fn spec_checked(&self) -> Option<Seq<u8>> {
        match self.footer.spec_start_address(self.address) {
            Some(start) => self.memory.spec_read(start, self.footer.spec_length() as nat + 3),
            None => None,
        }
    }

    /// The version of this image.
    pub open spec fn spec_version(&self) -> u32 {
        self.footer.spec_version()
    }

    /// Whether `self` is `before` with its footer as verification leaves it.
    pub open spec fn verified_from(&self, before: &Image) -> bool {
        &&& *self.footer == verified(*before.footer, before.spec_checked())
        &&& self.address == before.address
        &&& self.memory == before.memory
    }

    /// Creates an image from its footer, the address at which the footer
    /// stands, and the memory that holds the image.
    pub fn from(footer: &'a mut Footer, address: u32, memory: Memory<'a>) -> (image: Image<'a>)
        ensures
            *image.footer == *old(footer),
            image.address == address,
            image.memory == memory,
            *final(footer) == *final(image.footer),
    {
        Image { footer, address, memory }
    }

    /// Reads the image and the three bytes of its checksum.
    fn checked(&self) -> (bytes: Option<&'a [u8]>)
        ensures
            match bytes {
                Some(bytes) => self.spec_checked() == Some(bytes@),
                None => self.spec_checked() is None,
            },
    {
        match self.footer.start_address(self.address) {
            Some(start) => self.memory.read(start, self.footer.length() as usize + 3),
            None => None,
        }
    }

    /// Determines if the image can be booted.
    ///
    /// If the image has not been marked as having succeeded or failed to
    /// boot, nor as valid or invalid, its checksum is verified and the
    /// validity recorded.
    pub fn verify_bootable(&mut self) -> (can_boot: bool)
        ensures
            can_boot == bootable(*old(self).footer, old(self).spec_checked()),
            final(self).verified_from(old(self)),
            only_cleared(old(self).footer.0, final(self).footer.0),
            *final(final(self).footer) == *final(old(self).footer),
    {
        proof {
            lemma_verification_marks_validity_only(*self.footer, self.spec_checked());
        }
        if self.footer.success() {
            return true;
        }
        if self.footer.failure() || self.footer.invalid() {
            return false;
        }
        if !self.footer.valid() {
            let checked = match self.checked() {
                Some(bytes) => bytes,
                None => return false,
            };
            proof {
                lemma_set_valid(*self.footer);
                lemma_set_invalid(*self.footer);
            }
            if crc::is_valid(checked) {
                self.footer.set_valid()
            } else {
                self.footer.set_invalid();
                return false;
            }
        }
        self.footer.attempts() > 0
    }

    /// Prepares the image for boot and returns the address to jump to, the
    /// start of the image; `None` where the length does not fit in front of
    /// the footer.
    ///
    /// If the image has not been marked as having successfully booted, the
    /// number of remaining boot attempts is decremented: the attempt is
    /// charged before the image runs.
    pub fn boot(&mut self) -> (entry: Option<u32>)
        ensures
            *final(self).footer == if old(self).footer.spec_success() {
                *old(self).footer
            } else {
                old(self).footer.decremented()
            },
            entry == old(self).footer.spec_start_address(old(self).address),
            only_cleared(old(self).footer.0, final(self).footer.0),
            final(self).address == old(self).address,
            final(self).memory == old(self).memory,
            *final(final(self).footer) == *final(old(self).footer),
    {
        proof {
            lemma_decrement_attempts(*self.footer);
            lemma_only_cleared(self.footer.0, self.footer.0, self.footer.0);
        }
        if !self.footer.success() {
            self.footer.decrement_attempts();
        }
        self.footer.start_address(self.address)
    }

    /// Compares this image with `other` by version, the greater version being
    /// the newer image. Nothing else of the two images is compared: images of
    /// one version are equal here, whatever else sets them apart.
    pub fn compare(&self, other: &Image) -> (order: Ordering)
        ensures
            match order {
                Ordering::Less => self.spec_version() < other.spec_version(),
                Ordering::Equal => self.spec_version() == other.spec_version(),
                Ordering::Greater => self.spec_version() > other.spec_version(),
            },
    {
        let this = self.footer.version();
        let that = other.footer.version();
        if this < that {
            Ordering::Less
        } else if this == that {
            Ordering::Equal
        } else {
            Ordering::Greater
        }
    }
}

/// Whether the choice between two images falls on the first: it can be
/// booted, and the second cannot or is older.
pub open spec fn first_chosen(
    first_bootable: bool,
    first_version: u32,
    second_bootable: bool,
    second_version: u32,
) -> bool {
    first_bootable && (!second_bootable || first_version > second_version)
}

/// Whether the choice between two images falls on the second: it can be
/// booted, and the first cannot or is no newer.
pub open spec fn second_chosen(
    first_bootable: bool,
    first_version: u32,
    second_bootable: bool,
    second_version: u32,
) -> bool {
    second_bootable && (!first_bootable || first_version <= second_version)
}

/// Returns the newer, bootable image of the given images.
///
/// This first determines which of the images are bootable, updating the
/// validity of each if necessary. If both images are bootable, the newer of
/// the two is returned, and the second where they are of one version.
/// Otherwise, the only bootable image is returned, if any.
pub fn select<'a, 'b>(image_a: &'a mut Image<'b>, image_b: &'a mut Image<'b>) -> (chosen: Option<
    &'a mut Image<'b>,
>)
    ensures
        ({
            let a_bootable = bootable(*old(image_a).footer, old(image_a).spec_checked());
            let b_bootable = bootable(*old(image_b).footer, old(image_b).spec_checked());
            let a_version = old(image_a).footer.spec_version();
            let b_version = old(image_b).footer.spec_version();
            if first_chosen(a_bootable, a_version, b_bootable, b_version) {
                &&& chosen is Some
                &&& chosen.unwrap().verified_from(old(image_a))
                &&& *final(chosen.unwrap().footer) == *final(old(image_a).footer)
                &&& *final(image_a) == *final(chosen.unwrap())
                &&& final(image_b).verified_from(old(image_b))
                &&& *final(final(image_b).footer) == *final(old(image_b).footer)
            } else if second_chosen(a_bootable, a_version, b_bootable, b_version) {
                &&& chosen is Some
                &&& chosen.unwrap().verified_from(old(image_b))
                &&& *final(chosen.unwrap().footer) == *final(old(image_b).footer)
                &&& *final(image_b) == *final(chosen.unwrap())
                &&& final(image_a).verified_from(old(image_a))
                &&& *final(final(image_a).footer) == *final(old(image_a).footer)
            } else {
                &&& chosen is None
                &&& final(image_a).verified_from(old(image_a))
                &&& *final(final(image_a).footer) == *final(old(image_a).footer)
                &&& final(image_b).verified_from(old(image_b))
                &&& *final(final(image_b).footer) == *final(old(image_b).footer)
            }
        }),
{
    proof {
        lemma_verification_marks_validity_only(*image_a.footer, image_a.spec_checked());
        lemma_verification_marks_validity_only(*image_b.footer, image_b.spec_checked());
    }
    match (image_a.verify_bootable(), image_b.verify_bootable()) {
        (true, true) => {
            match image_a.compare(image_b) {
                Ordering::Greater => Some(image_a),
                _ => Some(image_b),
            }
        },
        (true, false) => Some(image_a),
        (false, true) => Some(image_b),
        (false, false) => None,
    }
}

/// Verification changes the two validity flags at most: version, length,
/// checksum, attempts and the flags of success and failure stay, and no bit
/// is set.
pub proof fn lemma_verification_marks_validity_only(footer: Footer, checked: Option<Seq<u8>>)
    ensures
        verified(footer, checked).spec_version() == footer.spec_version(),
        verified(footer, checked).spec_length() == footer.spec_length(),
        verified(footer, checked).spec_checksum() == footer.spec_checksum(),
        verified(footer, checked).spec_attempts() == footer.spec_attempts(),
        verified(footer, checked).spec_success() == footer.spec_success(),
        verified(footer, checked).spec_failure() == footer.spec_failure(),
        only_cleared(footer.0, verified(footer, checked).0),
{
    lemma_set_valid(footer);
    lemma_set_invalid(footer);
    lemma_only_cleared(footer.0, footer.0, footer.0);
}

/// A verdict is reached once. After a verification that could read the
/// image, or of a footer that was marked valid before, a second verification
/// changes nothing and answers as the first did, whatever the memory holds
/// by then: the checksum is not consulted again. A second verification over
/// the same bytes does so in every case.
pub proof fn lemma_verification_is_cached(
    footer: Footer,
    checked: Option<Seq<u8>>,
    later: Option<Seq<u8>>,
)
    ensures
        verified(verified(footer, checked), checked) == verified(footer, checked),
        bootable(verified(footer, checked), checked) == bootable(footer, checked),
        footer.spec_valid() || checked is Some ==> {
            &&& verified(verified(footer, checked), later) == verified(footer, checked)
            &&& bootable(verified(footer, checked), later) == bootable(footer, checked)
        },
{
    lemma_set_valid(footer);
    lemma_set_invalid(footer);
}

} // verus!
