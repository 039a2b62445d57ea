use obscurus::bitplane::{pixel_value_from_bitplanes, MAX_LEVEL};

#[test]
fn test_clear_bits_give_the_highest_level() {
    for k in 0..8u8 {
        assert_eq!(pixel_value_from_bitplanes(0x00, 0x00, k), 3);
    }
    assert_eq!(MAX_LEVEL, 3);
}

#[test]
fn test_set_bits_give_level_zero() {
    for k in 0..8u8 {
        assert_eq!(pixel_value_from_bitplanes(0xff, 0xff, k), 0);
    }
}

#[test]
fn test_low_plane_counts_one() {
    for k in 0..8u8 {
        assert_eq!(pixel_value_from_bitplanes(0xff, 0x00, k), 2);
    }
}

#[test]
fn test_high_plane_counts_two() {
    for k in 0..8u8 {
        assert_eq!(pixel_value_from_bitplanes(0x00, 0xff, k), 1);
    }
}

#[test]
fn test_each_bit_is_read_alone() {
    // low = 0b1010_0110, high = 0b0110_0011
    let low: u8 = 0xa6;
    let high: u8 = 0x63;
    let expected: [u8; 8] = [1, 0, 2, 3, 3, 0, 1, 2];
    for k in 0..8u8 {
        assert_eq!(pixel_value_from_bitplanes(low, high, k), expected[k as usize]);
    }
}

#[test]
fn test_levels_stay_in_range() {
    for low in 0..=255u8 {
        for high in 0..=255u8 {
            for k in 0..8u8 {
                assert!(pixel_value_from_bitplanes(low, high, k) <= MAX_LEVEL);
            }
        }
    }
}
