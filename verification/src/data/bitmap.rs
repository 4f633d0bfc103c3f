//! Packed bit arrays: least significant bit first in insert buffers, most
//! significant bit first in query results.

use vstd::prelude::*;

verus! {

/// Bit `i` of a bit array packed most significant bit first.
pub open spec fn msb_bit(bytes: Seq<u8>, i: int) -> bool {
    (bytes[i / 8] >> (7 - i % 8) as u8) & 1u8 == 1u8
}

/// Bit `i` of a bit array packed least significant bit first.
pub open spec fn lsb_bit(bytes: Seq<u8>, i: int) -> bool {
    (bytes[i / 8] >> (i % 8) as u8) & 1u8 == 1u8
}

/// The number of bytes that `count` packed bits take.
pub open spec fn packed_len(count: int) -> int {
    (count + 7) / 8
}

/// Bit `i` of `bits` as a number; past the end it is zero.
pub open spec fn bit_value(bits: Seq<bool>, i: int) -> int {
    if 0 <= i < bits.len() && bits[i] {
        1
    } else {
        0
    }
}

/// Byte `j` of `bits` packed least significant bit first.
#[verifier::opaque]
pub open spec fn lsb_byte(bits: Seq<bool>, j: int) -> u8 {
    (bit_value(bits, 8 * j) + 2 * bit_value(bits, 8 * j + 1) + 4 * bit_value(bits, 8 * j + 2) + 8
        * bit_value(bits, 8 * j + 3) + 16 * bit_value(bits, 8 * j + 4) + 32 * bit_value(
        bits,
        8 * j + 5,
    ) + 64 * bit_value(bits, 8 * j + 6) + 128 * bit_value(bits, 8 * j + 7)) as u8
}

/// The first `len` bytes of `bits` packed least significant bit first, with
/// zero bits past its end.
pub open spec fn lsb_packed(bits: Seq<bool>, len: nat) -> Seq<u8> {
    Seq::new(len, |j: int| lsb_byte(bits, j))
}

fn bit_u8(bits: &[bool], i: usize) -> (b: u8)
    ensures
        b == bit_value(bits@, i as int),
{
    if i < bits.len() && bits[i] {
        1
    } else {
        0
    }
}

/// Packs `bits` least significant bit first into `ceil(bits.len() / 8)` bytes;
/// the unused high bits of the last byte are zero.
pub fn pack_bits_lsb_first(bits: &[bool]) -> (packed: Vec<u8>)
    ensures
        packed@ == lsb_packed(bits@, packed_len(bits@.len() as int) as nat),
{
    let mut packed: Vec<u8> = Vec::new();
    let mut base: usize = 0;
    while base < bits.len()
        invariant
            base <= bits@.len() + 7,
            base == 8 * packed@.len() || (base >= bits@.len() && packed@.len() == packed_len(
                bits@.len() as int,
            )),
            packed@.len() <= packed_len(bits@.len() as int),
            packed@ == lsb_packed(bits@, packed@.len()),
        decreases bits@.len() - base,
    {
        let mut byte: u8 = bit_u8(bits, base);
        if bits.len() - base > 1 {
            byte = byte + 2 * bit_u8(bits, base + 1);
        }
        if bits.len() - base > 2 {
            byte = byte + 4 * bit_u8(bits, base + 2);
        }
        if bits.len() - base > 3 {
            byte = byte + 8 * bit_u8(bits, base + 3);
        }
        if bits.len() - base > 4 {
            byte = byte + 16 * bit_u8(bits, base + 4);
        }
        if bits.len() - base > 5 {
            byte = byte + 32 * bit_u8(bits, base + 5);
        }
        if bits.len() - base > 6 {
            byte = byte + 64 * bit_u8(bits, base + 6);
        }
        if bits.len() - base > 7 {
            byte = byte + 128 * bit_u8(bits, base + 7);
        }
        packed.push(byte);
        reveal(lsb_byte);
        assert(packed@ =~= lsb_packed(bits@, packed@.len()));
        base = if bits.len() - base > 8 {
            base + 8
        } else {
            bits.len()
        };
    }
    packed
}

/// Unpacks `count` bits stored most significant bit first, or `None` when
/// `bytes` holds fewer than `ceil(count / 8)` bytes.
pub fn unpack_bits_msb_first(bytes: &[u8], count: usize) -> (bits: Option<Vec<bool>>)
    ensures
        bits is Some <==> packed_len(count as int) <= bytes@.len(),
        bits matches Some(b) ==> b@ == Seq::new(count as nat, |i: int| msb_bit(bytes@, i)),
{
    if count > 0 && (count - 1) / 8 >= bytes.len() {
        return None;
    }
    let mut bits: Vec<bool> = Vec::new();
    let mut i: usize = 0;
    while i < count
        invariant
            i <= count,
            packed_len(count as int) <= bytes@.len(),
            bits@ == Seq::new(i as nat, |k: int| msb_bit(bytes@, k)),
        decreases count - i,
    {
        let shift: u8 = (7 - i % 8) as u8;
        let bit: u8 = (bytes[i / 8] >> shift) & 1u8;
        bits.push(bit == 1);
        i += 1;
        assert(bits@ =~= Seq::new(i as nat, |k: int| msb_bit(bytes@, k)));
    }
    Some(bits)
}

/// Every packed bit can be read back, and the padding bits read as zero.
pub proof fn law_packed_bits_read_back(bits: Seq<bool>, len: nat, i: int)
    requires
        0 <= i < 8 * len,
    ensures
        lsb_bit(lsb_packed(bits, len), i) == (i < bits.len() && bits[i]),
{
    reveal(lsb_byte);
    let j = i / 8;
    let byte = lsb_byte(bits, j);
    let b0 = bit_value(bits, 8 * j) as u8;
    let b1 = bit_value(bits, 8 * j + 1) as u8;
    let b2 = bit_value(bits, 8 * j + 2) as u8;
    let b3 = bit_value(bits, 8 * j + 3) as u8;
    let b4 = bit_value(bits, 8 * j + 4) as u8;
    let b5 = bit_value(bits, 8 * j + 5) as u8;
    let b6 = bit_value(bits, 8 * j + 6) as u8;
    let b7 = bit_value(bits, 8 * j + 7) as u8;
    assert(byte == b0 + 2 * b1 + 4 * b2 + 8 * b3 + 16 * b4 + 32 * b5 + 64 * b6 + 128 * b7);
    assert(((byte >> 0u8) & 1u8 == b0) && ((byte >> 1u8) & 1u8 == b1) && ((byte >> 2u8) & 1u8
        == b2) && ((byte >> 3u8) & 1u8 == b3) && ((byte >> 4u8) & 1u8 == b4) && ((byte >> 5u8)
        & 1u8 == b5) && ((byte >> 6u8) & 1u8 == b6) && ((byte >> 7u8) & 1u8 == b7))
        by (bit_vector)
        requires
            b0 <= 1 && b1 <= 1 && b2 <= 1 && b3 <= 1 && b4 <= 1 && b5 <= 1 && b6 <= 1 && b7 <= 1,
            byte == b0 + 2 * b1 + 4 * b2 + 8 * b3 + 16 * b4 + 32 * b5 + 64 * b6 + 128 * b7,
    ;
    assert(8 * j + i % 8 == i);
}

} // verus!
