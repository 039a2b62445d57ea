//! The two-bitplane pixel encoding of a Game Boy tile row.
//!
//! A row of eight pixels is stored as two bytes: the first holds the low bit
//! of each pixel, the second the high bit. Bit 7 belongs to the leftmost
//! pixel. The stored two-bit value counts down from white, so the gray level
//! of a pixel is three minus the stored value.

use vstd::arithmetic::power2::{lemma2_to64, pow2};
use vstd::prelude::*;

verus! {

/// Largest gray level of a pixel.
pub const MAX_LEVEL: u8 = 3;

/// Bit `k` of `byte`, bit 0 being the least significant.
pub open spec fn bit_of(byte: u8, k: nat) -> nat {
    (byte as nat / pow2(k)) % 2
}

/// Two-bit value that the bitplane bytes `low` and `high` store at bit `k`.
pub open spec fn stored_value(low: u8, high: u8, k: nat) -> nat {
    bit_of(low, k) + 2 * bit_of(high, k)
}

/// Gray level of the pixel that the bitplane bytes `low` and `high` hold at
/// bit `k`: the stored value, inverted.
pub open spec fn pixel_level(low: u8, high: u8, k: nat) -> nat {
    (MAX_LEVEL - stored_value(low, high, k)) as nat
}

/// A gray level is at most `MAX_LEVEL`, and a stored value and its gray
/// level add up to `MAX_LEVEL`.
pub proof fn lemma_pixel_level_range(low: u8, high: u8, k: nat)
    ensures
        pixel_level(low, high, k) <= MAX_LEVEL,
        pixel_level(low, high, k) + stored_value(low, high, k) == MAX_LEVEL,
{
}

/// Masking a shifted byte with one extracts the bit at the shift distance.
proof fn lemma_shift_mask_is_bit(byte: u8, k: u8)
    requires
        k < 8,
    ensures
        (byte >> k) & 1 == bit_of(byte, k as nat),
{
    lemma2_to64();
    if k == 0 {
        assert((byte >> 0) & 1 == (byte / 1) % 2) by (bit_vector);
    } else if k == 1 {
        assert((byte >> 1) & 1 == (byte / 2) % 2) by (bit_vector);
    } else if k == 2 {
        assert((byte >> 2) & 1 == (byte / 4) % 2) by (bit_vector);
    } else if k == 3 {
        assert((byte >> 3) & 1 == (byte / 8) % 2) by (bit_vector);
    } else if k == 4 {
        assert((byte >> 4) & 1 == (byte / 16) % 2) by (bit_vector);
    } else if k == 5 {
        assert((byte >> 5) & 1 == (byte / 32) % 2) by (bit_vector);
    } else if k == 6 {
        assert((byte >> 6) & 1 == (byte / 64) % 2) by (bit_vector);
    } else {
        assert((byte >> 7) & 1 == (byte / 128) % 2) by (bit_vector);
    }
}

/// Decodes the pixel that the bitplane bytes `low` and `high` hold at bit
/// `k`, and returns its gray level.
pub fn pixel_value_from_bitplanes(low: u8, high: u8, k: u8) -> (level: u8)
    requires
        k < 8,
    ensures
        level == pixel_level(low, high, k as nat),
        level <= MAX_LEVEL,
{
    let low_bit: u8 = (low >> k) & 0x01;
    let high_bit: u8 = (high >> k) & 0x01;
    proof {
        lemma_shift_mask_is_bit(low, k);
        lemma_shift_mask_is_bit(high, k);
        assert(high_bit << 1 == 2 * high_bit) by (bit_vector)
            requires
                high_bit <= 1,
        ;
    }
    let mut pixel_value: u8 = low_bit + (high_bit << 1);
    proof {
        assert(pixel_value ^ 3 == 3 - pixel_value) by (bit_vector)
            requires
                pixel_value <= 3,
        ;
    }
    pixel_value ^= 3;
    pixel_value
}

} // verus!
