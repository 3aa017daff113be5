//! The 24-bit cyclic redundancy check that guards an image.
//!
//! A message is read as a polynomial over GF(2), most significant bit of each
//! byte first, and divided by `x^24 + CRC_POLYNOMIAL`. The remainder of the
//! message followed by 24 zero bits is its checksum; a message followed by its
//! checksum divides evenly.

use vstd::prelude::*;

verus! {

/// The generator polynomial in normal representation: the term `x^24` is implied.
pub const CRC_POLYNOMIAL: u32 = 0x5D6DCB;

/// The remainder `r` (below `2^24`) after one more message bit: `r * x + bit`,
/// reduced by the generator when the term `x^24` appears.
pub open spec fn shift_in(r: u32, bit: bool) -> u32 {
    let shifted = ((r << 1) & 0xFF_FFFF) | (if bit { 1u32 } else { 0u32 });
    if r & 0x80_0000 != 0 {
        shifted ^ CRC_POLYNOMIAL
    } else {
        shifted
    }
}

/// The remainder `r` after the `count` most significant bits of `byte`.
pub open spec fn shift_in_bits(r: u32, byte: u8, count: nat) -> u32
    decreases count,
{
    if count == 0 {
        r
    } else {
        let before = (count - 1) as nat;
        shift_in(shift_in_bits(r, byte, before), byte & (0x80u8 >> before) != 0)
    }
}

/// The remainder `r` after the eight bits of `byte`.
pub open spec fn shift_in_byte(r: u32, byte: u8) -> u32 {
    shift_in_bits(r, byte, 8)
}

/// Division carried on: the remainder `r` after all of `message`.
pub open spec fn divide(r: u32, message: Seq<u8>) -> u32
    decreases message.len(),
{
    if message.len() == 0 {
        r
    } else {
        shift_in_byte(divide(r, message.drop_last()), message.last())
    }
}

/// The remainder of `message` divided by the generator.
pub open spec fn remainder(message: Seq<u8>) -> u32 {
    divide(0, message)
}

/// The checksum of `message`: the remainder of `message * x^24`.
pub open spec fn checksum_of(message: Seq<u8>) -> u32 {
    remainder(message + seq![0u8, 0u8, 0u8])
}

/// The three bytes that store a checksum behind its message, most significant
/// byte first.
pub open spec fn checksum_bytes(checksum: u32) -> Seq<u8> {
    seq![
        #[verifier::truncate]
        ((checksum >> 16) as u8),
        #[verifier::truncate]
        ((checksum >> 8) as u8),
        #[verifier::truncate]
        (checksum as u8),
    ]
}

/// One turn of the 32-bit register, which holds the remainder in its upper
/// 24 bits and the byte in progress in its lower 8: the turn takes in the top
/// bit of that byte.
proof fn lemma_register_turn(register: u32, next: u32)
    by (bit_vector)
    requires
        next == if register & 0x8000_0000 != 0 {
            (register << 1) ^ (CRC_POLYNOMIAL << 8)
        } else {
            register << 1
        },
    ensures
        next >> 8 == shift_in(register >> 8, register & 0x80 != 0),
        next & 0xFF == (register << 1) & 0xFF,
{
}

/// The lower 8 bits of the register after `step` turns hold what is left of
/// `byte`, so the bit taken in next is bit `7 - step` of `byte`.
proof fn lemma_byte_in_progress(register: u32, byte: u8, step: u32)
    by (bit_vector)
    requires
        step < 8,
        register & 0xFF == ((byte as u32) << step) & 0xFF,
    ensures
        (register & 0x80 != 0) == (byte & (0x80u8 >> step) != 0),
        (register << 1) & 0xFF == ((byte as u32) << ((step + 1) as u32)) & 0xFF,
{
}

/// Loading a byte into the empty lower 8 bits leaves the remainder alone.
proof fn lemma_load_byte(register: u32, byte: u8)
    by (bit_vector)
    requires
        register & 0xFF == 0,
    ensures
        (register | (byte as u32)) >> 8 == register >> 8,
        (register | (byte as u32)) & 0xFF == ((byte as u32) << 0u32) & 0xFF,
        ((byte as u32) << 8u32) & 0xFF == 0,
{
}

/// Division of a longer message goes on from the remainder of its front part.
pub proof fn lemma_divide_concat(r: u32, front: Seq<u8>, back: Seq<u8>)
    ensures
        divide(r, front + back) == divide(divide(r, front), back),
    decreases back.len(),
{
    if back.len() == 0 {
        assert(front + back =~= front);
    } else {
        assert((front + back).drop_last() =~= front + back.drop_last());
        lemma_divide_concat(r, front, back.drop_last());
    }
}

/// A division step keeps the remainder below `2^24`.
proof fn lemma_shift_in_bound(r: u32, bit: bool)
    by (bit_vector)
    ensures
        shift_in(r, bit) < 0x100_0000,
{
}

/// A division step is linear over GF(2): the step of a sum is the sum of the
/// steps.
proof fn lemma_shift_in_linear(a: u32, b: u32, x: bool, y: bool)
    by (bit_vector)
    ensures
        shift_in(a ^ b, x != y) == shift_in(a, x) ^ shift_in(b, y),
{
}

/// Bit `7 - place` of a sum of two bytes is the sum of their bits there.
proof fn lemma_bit_of_sum(x: u8, y: u8, place: u32)
    by (bit_vector)
    requires
        place < 8,
    ensures
        ((x ^ y) & (0x80u8 >> place) != 0) == ((x & (0x80u8 >> place) != 0) != (y & (0x80u8
            >> place) != 0)),
{
}

/// Taking in some bits of a byte is linear over GF(2).
proof fn lemma_shift_in_bits_linear(a: u32, b: u32, x: u8, y: u8, count: nat)
    requires
        count <= 8,
    ensures
        shift_in_bits(a ^ b, x ^ y, count) == shift_in_bits(a, x, count) ^ shift_in_bits(
            b,
            y,
            count,
        ),
    decreases count,
{
    if count > 0 {
        let before = (count - 1) as nat;
        lemma_shift_in_bits_linear(a, b, x, y, before);
        lemma_bit_of_sum(x, y, before as u32);
        lemma_shift_in_linear(
            shift_in_bits(a, x, before),
            shift_in_bits(b, y, before),
            x & (0x80u8 >> before) != 0,
            y & (0x80u8 >> before) != 0,
        );
    }
}

/// A remainder with room to spare takes a bit in without reduction.
proof fn lemma_shift_in_small(r: u32, byte: u8, before: u32)
    by (bit_vector)
    requires
        before < 8,
        r < 0x1_0000,
    ensures
        shift_in((r << before) | ((byte as u32) >> ((8 - before) as u32)), byte & (0x80u8
            >> before) != 0) == ((r << ((before + 1) as u32)) | ((byte as u32) >> ((7
            - before) as u32))),
{
}

/// A remainder below `2^16` takes in `count` bits of a byte without
/// reduction: the bits are appended to it.
proof fn lemma_shift_in_bits_small(r: u32, byte: u8, count: nat)
    requires
        count <= 8,
        r < 0x1_0000,
    ensures
        shift_in_bits(r, byte, count) == (r << (count as u32)) | ((byte as u32) >> ((8
            - count) as u32)),
    decreases count,
{
    if count == 0 {
        assert(r == (r << 0u32) | ((byte as u32) >> 8u32)) by (bit_vector);
    } else {
        let before = (count - 1) as nat;
        lemma_shift_in_bits_small(r, byte, before);
        lemma_shift_in_small(r, byte, before as u32);
    }
}

/// Taking in a byte is linear over GF(2), and a remainder below `2^16` takes
/// one in without reduction.
proof fn lemma_shift_in_byte(a: u32, b: u32, x: u8, y: u8)
    ensures
        shift_in_byte(a ^ b, x ^ y) == shift_in_byte(a, x) ^ shift_in_byte(b, y),
        b < 0x1_0000 ==> shift_in_byte(b, y) == (b << 8) | (y as u32),
        shift_in_byte(a, x) < 0x100_0000,
{
    lemma_shift_in_bits_linear(a, b, x, y, 8);
    if b < 0x1_0000 {
        lemma_shift_in_bits_small(b, y, 8);
        assert((b << 8u32) | ((y as u32) >> 0u32) == (b << 8) | (y as u32)) by (bit_vector);
    }
    lemma_shift_in_bound(shift_in_bits(a, x, 7), x & (0x80u8 >> 7nat) != 0);
}

/// Division by three more bytes, written out.
proof fn lemma_divide_three(r: u32, a: u8, b: u8, c: u8)
    ensures
        divide(r, seq![a, b, c]) == shift_in_byte(shift_in_byte(shift_in_byte(r, a), b), c),
{
    let three = seq![a, b, c];
    let two = seq![a, b];
    let one = seq![a];
    assert(three.drop_last() =~= two);
    assert(two.drop_last() =~= one);
    assert(one.drop_last() =~= Seq::<u8>::empty());
    assert(divide(r, one) == shift_in_byte(divide(r, one.drop_last()), a));
    assert(divide(r, two) == shift_in_byte(divide(r, two.drop_last()), b));
}

/// The bytes of a checksum, put together again, and the sums that the proof
/// of `lemma_checksum_completes` meets.
proof fn lemma_checksum_bytes(r: u32, s: u32, a: u8, b: u8, c: u8)
    by (bit_vector)
    requires
        r < 0x100_0000,
        a == #[verifier::truncate]
        ((r >> 16) as u8),
        b == #[verifier::truncate]
        ((r >> 8) as u8),
        c == #[verifier::truncate]
        (r as u8),
    ensures
        s ^ 0 == s,
        0u8 ^ a == a,
        0u8 ^ b == b,
        0u8 ^ c == c,
        (0u32 << 8) | (a as u32) == a as u32,
        (a as u32) < 0x1_0000,
        (((a as u32) << 8) | (b as u32)) < 0x1_0000,
        (((((a as u32) << 8) | (b as u32)) << 8) | (c as u32)) == r,
        r ^ r == 0,
{
}

/// A message followed by the three bytes of its checksum leaves no
/// remainder.
pub proof fn lemma_checksum_completes(message: Seq<u8>)
    ensures
        checksum_of(message) < 0x100_0000,
        remainder(message + checksum_bytes(checksum_of(message))) == 0,
{
    let s = remainder(message);
    let r = checksum_of(message);
    let bytes = checksum_bytes(r);
    let a = bytes[0];
    let b = bytes[1];
    let c = bytes[2];
    assert(bytes =~= seq![a, b, c]);
    // The checksum is the remainder `s` after three zero bytes.
    let s1 = shift_in_byte(s, 0);
    let s2 = shift_in_byte(s1, 0);
    let s3 = shift_in_byte(s2, 0);
    lemma_divide_concat(0, message, seq![0u8, 0u8, 0u8]);
    lemma_divide_three(s, 0, 0, 0);
    assert(r == s3);
    lemma_shift_in_byte(s2, 0, 0, 0);
    lemma_checksum_bytes(r, s, a, b, c);
    // With the checksum's bytes in place of the zeros, each byte adds to the
    // remainder what it would leave behind on its own.
    let ab = ((a as u32) << 8) | (b as u32);
    lemma_shift_in_byte(s, 0, 0, a);
    assert(shift_in_byte(s, a) == s1 ^ (a as u32));
    lemma_shift_in_byte(s1, a as u32, 0, b);
    assert(shift_in_byte(s1 ^ (a as u32), b) == s2 ^ ab);
    lemma_shift_in_byte(s2, ab, 0, c);
    assert(shift_in_byte(s2 ^ ab, c) == s3 ^ r);
    lemma_divide_concat(0, message, checksum_bytes(r));
    lemma_divide_three(s, a, b, c);
}

/// Shifts `val` left by one bit and reports the bit that fell off the top.
fn shift_left(val: u32) -> (out: (u32, bool))
    ensures
        out.0 == val << 1,
        out.1 == (val & 0x8000_0000 != 0),
{
    let carry = (val & (1 << 31)) != 0;
    assert((1u32 << 31) == 0x8000_0000u32) by (bit_vector);
    (val << 1, carry)
}

/// Takes `bytes` through the register, eight turns for each.
fn shift_through(register: u32, bytes: &[u8]) -> (out: u32)
    requires
        register & 0xFF == 0,
    ensures
        out & 0xFF == 0,
        out >> 8 == divide(register >> 8, bytes@),
{
    // The remainder is kept in the three most significant bytes of the
    // register. The least significant byte holds the byte of the message that
    // is being shifted through.
    let mut crc: u32 = register;
    let mut i: usize = 0;
    while i < bytes.len()
        invariant
            i <= bytes.len(),
            crc & 0xFF == 0,
            crc >> 8 == divide(register >> 8, bytes@.take(i as int)),
        decreases bytes.len() - i,
    {
        let byte: u8 = bytes[i];
        let ghost before: u32 = crc >> 8;
        proof {
            lemma_load_byte(crc, byte);
        }
        crc |= byte as u32;
        let mut step: u32 = 0;
        while step < 8
            invariant
                step <= 8,
                crc >> 8 == shift_in_bits(before, byte, step as nat),
                crc & 0xFF == ((byte as u32) << step) & 0xFF,
            decreases 8 - step,
        {
            let ghost turned: u32 = crc;
            crc =
            match shift_left(crc) {
                (crc, false) => crc,
                (crc, true) => crc ^ (CRC_POLYNOMIAL << 8),
            };
            proof {
                lemma_register_turn(turned, crc);
                lemma_byte_in_progress(turned, byte, step);
            }
            step += 1;
        }
        proof {
            assert(bytes@.take(i + 1).drop_last() =~= bytes@.take(i as int));
        }
        i += 1;
    }
    proof {
        assert(bytes@.take(i as int) =~= bytes@);
    }
    crc
}

/// Divides `data` followed by `padding` and returns the remainder.
fn crc(data: &[u8], padding: &[u8]) -> (r: u32)
    ensures
        r == remainder(data@ + padding@),
{
    proof {
        assert(0u32 & 0xFF == 0 && 0u32 >> 8 == 0) by (bit_vector);
        lemma_divide_concat(0, data@, padding@);
    }
    let register = shift_through(0, data);
    let register = shift_through(register, padding);
    // The lower byte is spent: what is left is the remainder.
    register >> 8
}

/// The checksum of `data`: the remainder of `data` followed by three zero
/// bytes, which take the whole of `data` through the 24-bit register.
pub fn calculate(data: &[u8]) -> (checksum: u32)
    ensures
        checksum == checksum_of(data@),
        checksum < 0x100_0000,
{
    let padding: [u8; 3] = [0, 0, 0];
    proof {
        assert(padding@ =~= seq![0u8, 0u8, 0u8]);
        lemma_checksum_completes(data@);
    }
    crc(data, padding.as_slice())
}

/// Whether `data`, an image followed by the three bytes of its checksum,
/// divides evenly.
pub fn is_valid(data: &[u8]) -> (valid: bool)
    ensures
        valid == (remainder(data@) == 0),
{
    let empty: [u8; 0] = [];
    proof {
        assert(data@ + empty@ =~= data@);
    }
    crc(data, empty.as_slice()) == 0
}

} // verus!
