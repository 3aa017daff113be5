use std::cmp::Ordering;
use switcher::crc::calculate;
use switcher::{select, Footer, Image, Memory};

/// A footer word: version and length, the four flag bits (valid, invalid,
/// success, failure from bit 0 up; a clear bit asserts the flag) and the four
/// bits of the attempt counter.
fn word(version: u64, length: u64, flags: u64, attempts: u64) -> u64 {
    version << 24 | length << 32 | flags << 56 | attempts << 60
}

const NOT_CHECKED: u64 = 0b1111;
const VALID: u64 = 0b1110;
const INVALID: u64 = 0b1101;
const SUCCESS: u64 = 0b1011;
const FAILURE: u64 = 0b0111;

/// The counter with so many attempts left.
fn left(attempts: u32) -> u64 {
    (0xF << (4 - attempts)) & 0xF
}

/// Two images in one arena. The first is `01 02 03 04` with its footer at
/// address 4, the second is `ABCDEFGH` with its footer at address 24. Each is
/// followed by its checksum.
fn arena() -> Vec<u8> {
    let mut bytes = vec![0xFF; 32];
    bytes[0..4].copy_from_slice(&[1, 2, 3, 4]);
    bytes[4..7].copy_from_slice(&[0x62, 0x9D, 0x29]);
    bytes[16..24].copy_from_slice(b"ABCDEFGH");
    let checksum = calculate(b"ABCDEFGH");
    bytes[24] = (checksum >> 16) as u8;
    bytes[25] = (checksum >> 8) as u8;
    bytes[26] = checksum as u8;
    bytes
}

const FIRST: u32 = 4;
const SECOND: u32 = 24;

fn memory(bytes: &[u8]) -> Memory<'_> {
    Memory { base: 0, bytes }
}

#[test]
fn memory_reads_what_lies_inside() {
    let bytes = [10u8, 11, 12, 13, 14];
    let memory = Memory { base: 100, bytes: &bytes };
    assert_eq!(memory.read(100, 5), Some(&bytes[..]));
    assert_eq!(memory.read(101, 3), Some(&bytes[1..4]));
    assert_eq!(memory.read(104, 1), Some(&bytes[4..5]));
    assert_eq!(memory.read(102, 0), Some(&bytes[2..2]));
    assert_eq!(memory.read(105, 0), Some(&bytes[5..5]));
}

#[test]
fn memory_refuses_what_lies_outside() {
    let bytes = [10u8, 11, 12, 13, 14];
    let memory = Memory { base: 100, bytes: &bytes };
    assert_eq!(memory.read(99, 1), None);
    assert_eq!(memory.read(0, 0), None);
    assert_eq!(memory.read(100, 6), None);
    assert_eq!(memory.read(104, 2), None);
    assert_eq!(memory.read(105, 1), None);
    assert_eq!(memory.read(106, 0), None);
    assert_eq!(memory.read(100, usize::MAX), None);
    assert_eq!(memory.read(u32::MAX, 1), None);
}

#[test]
fn from_binds_the_parts() {
    let bytes = arena();
    let mut footer = Footer(word(2, 4, NOT_CHECKED, left(4)));
    let image = Image::from(&mut footer, FIRST, memory(&bytes));
    assert_eq!(image.address, FIRST);
    assert_eq!(image.memory.base, 0);
    assert_eq!(image.memory.bytes, &bytes[..]);
    assert_eq!(image.footer.0, word(2, 4, NOT_CHECKED, left(4)));
}

#[test]
fn success_is_bootable_without_a_look_at_the_image() {
    let mut bytes = arena();
    bytes[2] ^= 0x40;
    let start = word(2, 4, SUCCESS, left(0));
    let mut footer = Footer(start);
    let mut image = Image::from(&mut footer, FIRST, memory(&bytes));
    assert!(image.verify_bootable());
    assert_eq!(footer.0, start);
}

#[test]
fn success_overrides_failure_and_invalid() {
    let bytes = arena();
    let start = word(2, 4, 0b0000, left(0));
    let mut footer = Footer(start);
    let mut image = Image::from(&mut footer, FIRST, memory(&bytes));
    assert!(image.verify_bootable());
    assert_eq!(footer.0, start);
}

#[test]
fn failure_is_not_bootable() {
    let bytes = arena();
    let start = word(2, 4, FAILURE, left(4));
    let mut footer = Footer(start);
    let mut image = Image::from(&mut footer, FIRST, memory(&bytes));
    assert!(!image.verify_bootable());
    assert_eq!(footer.0, start);
    // Not even where it was found valid before.
    let start = word(2, 4, FAILURE & VALID, left(4));
    let mut footer = Footer(start);
    let mut image = Image::from(&mut footer, FIRST, memory(&bytes));
    assert!(!image.verify_bootable());
    assert_eq!(footer.0, start);
}

#[test]
fn marked_invalid_is_not_bootable() {
    let bytes = arena();
    let start = word(2, 4, INVALID, left(4));
    let mut footer = Footer(start);
    let mut image = Image::from(&mut footer, FIRST, memory(&bytes));
    assert!(!image.verify_bootable());
    assert_eq!(footer.0, start);
    // Invalid wins over valid.
    let start = word(2, 4, INVALID & VALID, left(4));
    let mut footer = Footer(start);
    let mut image = Image::from(&mut footer, FIRST, memory(&bytes));
    assert!(!image.verify_bootable());
    assert_eq!(footer.0, start);
}

#[test]
fn good_checksum_marks_valid() {
    let bytes = arena();
    let mut footer = Footer(word(2, 4, NOT_CHECKED, left(4)));
    let mut image = Image::from(&mut footer, FIRST, memory(&bytes));
    assert!(image.verify_bootable());
    assert_eq!(footer.0, word(2, 4, VALID, left(4)));
    let mut footer = Footer(word(1, 8, NOT_CHECKED, left(1)));
    let mut image = Image::from(&mut footer, SECOND, memory(&bytes));
    assert!(image.verify_bootable());
    assert_eq!(footer.0, word(1, 8, VALID, left(1)));
}

#[test]
fn good_checksum_without_attempts_marks_valid_but_does_not_boot() {
    let bytes = arena();
    let mut footer = Footer(word(2, 4, NOT_CHECKED, left(0)));
    let mut image = Image::from(&mut footer, FIRST, memory(&bytes));
    assert!(!image.verify_bootable());
    assert_eq!(footer.0, word(2, 4, VALID, left(0)));
}

#[test]
fn bad_checksum_marks_invalid() {
    let mut bytes = arena();
    bytes[3] = 5;
    let mut footer = Footer(word(2, 4, NOT_CHECKED, left(4)));
    let mut image = Image::from(&mut footer, FIRST, memory(&bytes));
    assert!(!image.verify_bootable());
    assert_eq!(footer.0, word(2, 4, INVALID, left(4)));
}

#[test]
fn wrong_length_marks_invalid() {
    let bytes = arena();
    let mut footer = Footer(word(2, 3, NOT_CHECKED, left(4)));
    let mut image = Image::from(&mut footer, FIRST, memory(&bytes));
    assert!(!image.verify_bootable());
    assert_eq!(footer.0, word(2, 3, INVALID, left(4)));
}

#[test]
fn checksum_covers_the_three_bytes_behind_the_image() {
    let mut bytes = arena();
    bytes[6] ^= 1;
    let mut footer = Footer(word(2, 4, NOT_CHECKED, left(4)));
    let mut image = Image::from(&mut footer, FIRST, memory(&bytes));
    assert!(!image.verify_bootable());
    assert_eq!(footer.0, word(2, 4, INVALID, left(4)));
    // The byte behind them is not covered.
    let mut bytes = arena();
    bytes[7] ^= 1;
    let mut footer = Footer(word(2, 4, NOT_CHECKED, left(4)));
    let mut image = Image::from(&mut footer, FIRST, memory(&bytes));
    assert!(image.verify_bootable());
}

#[test]
fn length_beyond_the_address_is_not_bootable_and_not_marked() {
    let bytes = arena();
    let start = word(2, 5, NOT_CHECKED, left(4));
    let mut footer = Footer(start);
    let mut image = Image::from(&mut footer, FIRST, memory(&bytes));
    assert!(!image.verify_bootable());
    assert_eq!(footer.0, start);
    let start = 0xFFFF_FFFF_FFFF_FFFF;
    let mut footer = Footer(start);
    let mut image = Image::from(&mut footer, SECOND, memory(&bytes));
    assert!(!image.verify_bootable());
    assert_eq!(footer.0, start);
}

#[test]
fn image_outside_the_memory_is_not_bootable_and_not_marked() {
    let bytes = arena();
    // The checksum would end behind the memory.
    let start = word(2, 4, NOT_CHECKED, left(4));
    let mut footer = Footer(start);
    let mut image = Image::from(&mut footer, 30, memory(&bytes));
    assert!(!image.verify_bootable());
    assert_eq!(footer.0, start);
    // The image would begin in front of the memory.
    let mut footer = Footer(start);
    let mut image = Image::from(&mut footer, 0x1004, Memory { base: 0x1001, bytes: &bytes });
    assert!(!image.verify_bootable());
    assert_eq!(footer.0, start);
}

#[test]
fn addresses_count_from_the_base_of_the_memory() {
    let bytes = arena();
    let mut footer = Footer(word(2, 4, NOT_CHECKED, left(4)));
    let mut image = Image::from(&mut footer, 0x1004, Memory { base: 0x1000, bytes: &bytes });
    assert!(image.verify_bootable());
    assert_eq!(footer.0, word(2, 4, VALID, left(4)));
}

#[test]
fn empty_image_with_zero_checksum_is_valid() {
    let bytes = [0u8, 0, 0];
    let mut footer = Footer(word(2, 0, NOT_CHECKED, left(4)));
    let mut image = Image::from(&mut footer, 0, memory(&bytes));
    assert!(image.verify_bootable());
    assert_eq!(footer.0, word(2, 0, VALID, left(4)));
}

#[test]
fn valid_is_bootable_while_attempts_are_left() {
    let mut bytes = arena();
    bytes[0] = 0;
    for attempts in 0..=4 {
        let start = word(2, 4, VALID, left(attempts));
        let mut footer = Footer(start);
        let mut image = Image::from(&mut footer, FIRST, memory(&bytes));
        assert_eq!(image.verify_bootable(), attempts > 0);
        assert_eq!(footer.0, start);
    }
}

#[test]
fn second_verification_answers_as_the_first() {
    let bytes = arena();
    let mut footer = Footer(word(2, 4, NOT_CHECKED, left(3)));
    let mut image = Image::from(&mut footer, FIRST, memory(&bytes));
    let first = image.verify_bootable();
    let after_first = image.footer.0;
    let second = image.verify_bootable();
    assert!(first);
    assert_eq!(second, first);
    assert_eq!(image.footer.0, after_first);
    assert_eq!(image.footer.attempts(), 3);
}

#[test]
fn second_verification_does_not_read_the_image_again() {
    let bytes = arena();
    let mut footer = Footer(word(2, 4, NOT_CHECKED, left(3)));
    let mut image = Image::from(&mut footer, FIRST, memory(&bytes));
    assert!(image.verify_bootable());
    let after_first = footer.0;
    // The image rots, the verdict stays.
    let mut rotten = arena();
    rotten[1] ^= 0x10;
    let mut image = Image::from(&mut footer, FIRST, memory(&rotten));
    assert!(image.verify_bootable());
    assert_eq!(footer.0, after_first);
    // A bad verdict stays too, though the image is good again.
    let mut footer = Footer(word(2, 4, NOT_CHECKED, left(3)));
    let mut image = Image::from(&mut footer, FIRST, memory(&rotten));
    assert!(!image.verify_bootable());
    let after_first = footer.0;
    let mut image = Image::from(&mut footer, FIRST, memory(&bytes));
    assert!(!image.verify_bootable());
    assert_eq!(footer.0, after_first);
}

#[test]
fn verification_only_clears_bits() {
    let good = arena();
    let mut bad = arena();
    bad[0] = 9;
    for flags in 0..16u64 {
        for bytes in [&good, &bad] {
            let start = word(2, 4, flags, left(2));
            let mut footer = Footer(start);
            let mut image = Image::from(&mut footer, FIRST, memory(bytes));
            image.verify_bootable();
            assert_eq!(footer.0 & !start, 0);
            assert_eq!(footer.0 | 3 << 56, start | 3 << 56);
        }
    }
}

#[test]
fn boot_charges_an_attempt() {
    let bytes = arena();
    let mut footer = Footer(word(2, 4, VALID, left(3)));
    let mut image = Image::from(&mut footer, FIRST, memory(&bytes));
    assert_eq!(image.boot(), Some(0));
    assert_eq!(footer.0, word(2, 4, VALID, left(2)));
    let mut footer = Footer(word(1, 8, VALID, left(1)));
    let mut image = Image::from(&mut footer, SECOND, memory(&bytes));
    assert_eq!(image.boot(), Some(16));
    assert_eq!(footer.0, word(1, 8, VALID, left(0)));
}

#[test]
fn boot_after_success_charges_nothing() {
    let bytes = arena();
    let start = word(1, 8, SUCCESS & VALID, left(2));
    let mut footer = Footer(start);
    let mut image = Image::from(&mut footer, SECOND, memory(&bytes));
    assert_eq!(image.boot(), Some(16));
    assert_eq!(footer.0, start);
}

#[test]
fn boot_with_a_length_beyond_the_address_has_no_entry() {
    let bytes = arena();
    let mut footer = Footer(word(1, 25, VALID, left(2)));
    let mut image = Image::from(&mut footer, SECOND, memory(&bytes));
    assert_eq!(image.boot(), None);
    assert_eq!(footer.0, word(1, 25, VALID, left(1)));
}

#[test]
fn compare_goes_by_version_alone() {
    let bytes = arena();
    let mut low = Footer(word(2, 4, SUCCESS, left(4)));
    let mut high = Footer(word(3, 8, FAILURE, left(0)));
    let mut same = Footer(word(3, 1, NOT_CHECKED, left(2)));
    let low = Image::from(&mut low, FIRST, memory(&bytes));
    let high = Image::from(&mut high, SECOND, memory(&bytes));
    let same = Image::from(&mut same, 12, memory(&bytes));
    assert_eq!(high.compare(&low), Ordering::Greater);
    assert_eq!(low.compare(&high), Ordering::Less);
    assert_eq!(high.compare(&same), Ordering::Equal);
    assert_eq!(same.compare(&high), Ordering::Equal);
    assert_eq!(low.compare(&low), Ordering::Equal);
}

#[test]
fn select_returns_the_higher_version() {
    let bytes = arena();
    let mut a = Footer(word(2, 4, VALID, left(3)));
    let mut b = Footer(word(5, 8, VALID, left(1)));
    let mut image_a = Image::from(&mut a, FIRST, memory(&bytes));
    let mut image_b = Image::from(&mut b, SECOND, memory(&bytes));
    let chosen = select(&mut image_a, &mut image_b);
    assert_eq!(chosen.map(|image| image.address), Some(SECOND));
    // And the other way round.
    let mut a = Footer(word(5, 4, VALID, left(3)));
    let mut b = Footer(word(2, 8, VALID, left(1)));
    let mut image_a = Image::from(&mut a, FIRST, memory(&bytes));
    let mut image_b = Image::from(&mut b, SECOND, memory(&bytes));
    let chosen = select(&mut image_a, &mut image_b);
    assert_eq!(chosen.map(|image| image.address), Some(FIRST));
}

#[test]
fn select_returns_the_only_bootable_image() {
    let mut bytes = arena();
    bytes[1] = 0;
    let mut a = Footer(word(2, 4, NOT_CHECKED, left(4)));
    let mut b = Footer(word(1, 8, VALID, left(2)));
    let mut image_a = Image::from(&mut a, FIRST, memory(&bytes));
    let mut image_b = Image::from(&mut b, SECOND, memory(&bytes));
    let chosen = select(&mut image_a, &mut image_b);
    assert_eq!(chosen.map(|image| image.address), Some(SECOND));
    assert_eq!(a.0, word(2, 4, INVALID, left(4)));
    assert_eq!(b.0, word(1, 8, VALID, left(2)));
    // The first alone can be booted.
    let bytes = arena();
    let mut a = Footer(word(1, 4, NOT_CHECKED, left(4)));
    let mut b = Footer(word(2, 8, INVALID, left(2)));
    let mut image_a = Image::from(&mut a, FIRST, memory(&bytes));
    let mut image_b = Image::from(&mut b, SECOND, memory(&bytes));
    let chosen = select(&mut image_a, &mut image_b);
    assert_eq!(chosen.map(|image| image.address), Some(FIRST));
    assert_eq!(a.0, word(1, 4, VALID, left(4)));
}

#[test]
fn select_returns_none_where_both_checksums_fail() {
    let mut bytes = arena();
    bytes[1] = 0;
    bytes[20] = 0;
    let mut a = Footer(word(2, 4, NOT_CHECKED, left(4)));
    let mut b = Footer(word(1, 8, NOT_CHECKED, left(4)));
    let mut image_a = Image::from(&mut a, FIRST, memory(&bytes));
    let mut image_b = Image::from(&mut b, SECOND, memory(&bytes));
    assert!(select(&mut image_a, &mut image_b).is_none());
    assert_eq!(a.0, word(2, 4, INVALID, left(4)));
    assert_eq!(b.0, word(1, 8, INVALID, left(4)));
}

#[test]
fn select_takes_a_confirmed_image_whose_checksum_fails_now() {
    let mut bytes = arena();
    bytes[1] = 0;
    // The first has booted with success and is the newer one.
    let mut a = Footer(word(6, 4, SUCCESS, left(0)));
    let mut b = Footer(word(5, 8, VALID, left(2)));
    let mut image_a = Image::from(&mut a, FIRST, memory(&bytes));
    assert!(image_a.verify_bootable());
    let mut image_b = Image::from(&mut b, SECOND, memory(&bytes));
    let chosen = select(&mut image_a, &mut image_b);
    assert_eq!(chosen.map(|image| image.address), Some(FIRST));
    assert_eq!(a.0, word(6, 4, SUCCESS, left(0)));
}

#[test]
fn select_between_two_bootable_images_goes_by_version_alone() {
    let mut bytes = arena();
    bytes[1] = 0;
    // The first has booted with success, the second is valid and newer: both
    // can be booted, so the newer one is returned.
    let mut a = Footer(word(2, 4, SUCCESS, left(0)));
    let mut b = Footer(word(5, 8, VALID, left(2)));
    let mut image_a = Image::from(&mut a, FIRST, memory(&bytes));
    let mut image_b = Image::from(&mut b, SECOND, memory(&bytes));
    let chosen = select(&mut image_a, &mut image_b);
    assert_eq!(chosen.map(|image| image.address), Some(SECOND));
}

#[test]
fn select_returns_none_where_both_are_exhausted() {
    let bytes = arena();
    let mut a = Footer(word(2, 4, VALID, left(0)));
    let mut b = Footer(word(5, 8, VALID, left(0)));
    let mut image_a = Image::from(&mut a, FIRST, memory(&bytes));
    let mut image_b = Image::from(&mut b, SECOND, memory(&bytes));
    assert!(select(&mut image_a, &mut image_b).is_none());
    assert_eq!(a.0, word(2, 4, VALID, left(0)));
    assert_eq!(b.0, word(5, 8, VALID, left(0)));
}

#[test]
fn select_returns_the_second_of_equal_versions() {
    let bytes = arena();
    let mut a = Footer(word(3, 4, VALID, left(4)));
    let mut b = Footer(word(3, 8, VALID, left(1)));
    let mut image_a = Image::from(&mut a, FIRST, memory(&bytes));
    let mut image_b = Image::from(&mut b, SECOND, memory(&bytes));
    let chosen = select(&mut image_a, &mut image_b);
    assert_eq!(chosen.map(|image| image.address), Some(SECOND));
    // Swapped, it is the other image.
    let mut image_a = Image::from(&mut a, FIRST, memory(&bytes));
    let mut image_b = Image::from(&mut b, SECOND, memory(&bytes));
    let chosen = select(&mut image_b, &mut image_a);
    assert_eq!(chosen.map(|image| image.address), Some(FIRST));
}

#[test]
fn select_verifies_both_images() {
    let bytes = arena();
    let mut a = Footer(word(2, 4, NOT_CHECKED, left(4)));
    let mut b = Footer(word(5, 8, NOT_CHECKED, left(4)));
    let mut image_a = Image::from(&mut a, FIRST, memory(&bytes));
    let mut image_b = Image::from(&mut b, SECOND, memory(&bytes));
    let chosen = select(&mut image_a, &mut image_b);
    assert_eq!(chosen.map(|image| image.address), Some(SECOND));
    assert_eq!(a.0, word(2, 4, VALID, left(4)));
    assert_eq!(b.0, word(5, 8, VALID, left(4)));
}

#[test]
fn select_then_boot_charges_the_chosen_image() {
    let bytes = arena();
    let mut a = Footer(word(2, 4, NOT_CHECKED, left(4)));
    let mut b = Footer(word(5, 8, NOT_CHECKED, left(4)));
    let mut image_a = Image::from(&mut a, FIRST, memory(&bytes));
    let mut image_b = Image::from(&mut b, SECOND, memory(&bytes));
    let entry = match select(&mut image_a, &mut image_b) {
        Some(image) => image.boot(),
        None => None,
    };
    assert_eq!(entry, Some(16));
    assert_eq!(a.0, word(2, 4, VALID, left(4)));
    assert_eq!(b.0, word(5, 8, VALID, left(3)));
}

#[test]
fn an_image_runs_out_of_attempts() {
    let bytes = arena();
    let mut footer = Footer(word(2, 4, NOT_CHECKED, left(4)));
    for boots in 1..=4 {
        let mut image = Image::from(&mut footer, FIRST, memory(&bytes));
        assert!(image.verify_bootable());
        assert_eq!(image.boot(), Some(0));
        assert_eq!(footer.attempts(), 4 - boots);
    }
    let mut image = Image::from(&mut footer, FIRST, memory(&bytes));
    assert!(!image.verify_bootable());
    assert_eq!(footer.0, word(2, 4, VALID, left(0)));
}
