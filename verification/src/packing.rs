//! The byte image of a grid: one bit per cell in row-major order, the first
//! cell of each byte in its least significant bit.

use vstd::prelude::*;

verus! {

/// Bit `k` of a byte, counted from the least significant bit.
pub open spec fn byte_bit(byte: u8, k: int) -> bool {
    (byte >> (k as u8)) & 1u8 == 1u8
}

/// The number of bytes that hold `n` bits.
pub open spec fn bytes_for(n: int) -> int {
    (n + 7) / 8
}

/// The first `n` bits of `bytes`.
pub open spec fn unpacked(bytes: Seq<u8>, n: int) -> Seq<bool> {
    Seq::new(n as nat, |i: int| byte_bit(bytes[i / 8], i % 8))
}

/// 1 for a set bit, 0 for a clear one; a place beyond the end of `bits`
/// counts as clear.
pub open spec fn flag(bits: Seq<bool>, i: int) -> u8 {
    if 0 <= i < bits.len() && bits[i] {
        1u8
    } else {
        0u8
    }
}

/// Eight flags as one byte, the first in the least significant bit.
pub open spec fn join(b0: u8, b1: u8, b2: u8, b3: u8, b4: u8, b5: u8, b6: u8, b7: u8) -> u8 {
    b0 | (b1 << 1u8) | (b2 << 2u8) | (b3 << 3u8) | (b4 << 4u8) | (b5 << 5u8) | (b6 << 6u8) | (b7
        << 7u8)
}

/// Byte `j` of the image of `bits`.
pub open spec fn packed_byte(bits: Seq<bool>, j: int) -> u8 {
    join(
        flag(bits, 8 * j),
        flag(bits, 8 * j + 1),
        flag(bits, 8 * j + 2),
        flag(bits, 8 * j + 3),
        flag(bits, 8 * j + 4),
        flag(bits, 8 * j + 5),
        flag(bits, 8 * j + 6),
        flag(bits, 8 * j + 7),
    )
}

/// The byte image of `bits`; the unused bits of the last byte are clear.
pub open spec fn packed(bits: Seq<bool>) -> Seq<u8> {
    Seq::new(bytes_for(bits.len() as int) as nat, |j: int| packed_byte(bits, j))
}

/// Each bit of a joined byte is the flag that was put there.
proof fn lemma_join(b0: u8, b1: u8, b2: u8, b3: u8, b4: u8, b5: u8, b6: u8, b7: u8)
    requires
        b0 <= 1,
        b1 <= 1,
        b2 <= 1,
        b3 <= 1,
        b4 <= 1,
        b5 <= 1,
        b6 <= 1,
        b7 <= 1,
    ensures
        byte_bit(join(b0, b1, b2, b3, b4, b5, b6, b7), 0) == (b0 == 1),
        byte_bit(join(b0, b1, b2, b3, b4, b5, b6, b7), 1) == (b1 == 1),
        byte_bit(join(b0, b1, b2, b3, b4, b5, b6, b7), 2) == (b2 == 1),
        byte_bit(join(b0, b1, b2, b3, b4, b5, b6, b7), 3) == (b3 == 1),
        byte_bit(join(b0, b1, b2, b3, b4, b5, b6, b7), 4) == (b4 == 1),
        byte_bit(join(b0, b1, b2, b3, b4, b5, b6, b7), 5) == (b5 == 1),
        byte_bit(join(b0, b1, b2, b3, b4, b5, b6, b7), 6) == (b6 == 1),
        byte_bit(join(b0, b1, b2, b3, b4, b5, b6, b7), 7) == (b7 == 1),
{
    let byte = join(b0, b1, b2, b3, b4, b5, b6, b7);
    assert(((byte >> 0u8) & 1u8 == 1u8) == (b0 == 1) && ((byte >> 1u8) & 1u8 == 1u8) == (b1 == 1)
        && ((byte >> 2u8) & 1u8 == 1u8) == (b2 == 1) && ((byte >> 3u8) & 1u8 == 1u8) == (b3 == 1)
        && ((byte >> 4u8) & 1u8 == 1u8) == (b4 == 1) && ((byte >> 5u8) & 1u8 == 1u8) == (b5 == 1)
        && ((byte >> 6u8) & 1u8 == 1u8) == (b6 == 1) && ((byte >> 7u8) & 1u8 == 1u8) == (b7 == 1))
        by (bit_vector)
        requires
            byte == b0 | (b1 << 1u8) | (b2 << 2u8) | (b3 << 3u8) | (b4 << 4u8) | (b5 << 5u8) | (b6
                << 6u8) | (b7 << 7u8),
            b0 <= 1,
            b1 <= 1,
            b2 <= 1,
            b3 <= 1,
            b4 <= 1,
            b5 <= 1,
            b6 <= 1,
            b7 <= 1,
    ;
}

/// Packing a pattern of any length and reading the same number of bits back
/// gives the pattern: what `set_state` makes of the byte image of a pattern
/// as long as the grid is that pattern, also where the length is no
/// multiple of 8.
pub proof fn lemma_round_trip(bits: Seq<bool>)
    ensures
        packed(bits).len() == bytes_for(bits.len() as int),
        unpacked(packed(bits), bits.len() as int) == bits,
{
    let image = packed(bits);
    assert forall|i: int| 0 <= i < bits.len() implies byte_bit(image[i / 8], i % 8) == bits[i] by {
        let j = i / 8;
        let k = i % 8;
        assert(0 <= j < bytes_for(bits.len() as int));
        assert(image[j] == packed_byte(bits, j));
        lemma_join(
            flag(bits, 8 * j),
            flag(bits, 8 * j + 1),
            flag(bits, 8 * j + 2),
            flag(bits, 8 * j + 3),
            flag(bits, 8 * j + 4),
            flag(bits, 8 * j + 5),
            flag(bits, 8 * j + 6),
            flag(bits, 8 * j + 7),
        );
        assert(i == 8 * j + k);
    }
    assert(unpacked(image, bits.len() as int) =~= bits);
}

} // verus!
