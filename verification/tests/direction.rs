use path_walker::direction::{
    is_single_direction, mask_has_dir, rotate_mask_left, rotate_mask_right,
};

#[test]
fn rotation_right_moves_each_bit_down() {
    assert_eq!(rotate_mask_right(0x04, 2), 0x01);
    assert_eq!(rotate_mask_right(0x01, 1), 0x80);
    assert_eq!(rotate_mask_right(0x81, 1), 0xC0);
    assert_eq!(rotate_mask_right(0x05, 0), 0x05);
    assert_eq!(rotate_mask_right(0xB7, 8), 0xB7);
}

#[test]
fn rotation_left_moves_each_bit_up() {
    assert_eq!(rotate_mask_left(0x01, 2), 0x04);
    assert_eq!(rotate_mask_left(0x80, 1), 0x01);
    assert_eq!(rotate_mask_left(0xC0, 1), 0x81);
    assert_eq!(rotate_mask_left(0x05, 0), 0x05);
}

#[test]
fn rotation_matches_circular_bit_rotation_for_all_masks() {
    for turns in 0..20u32 {
        for mask in 0..=255u8 {
            assert_eq!(rotate_mask_right(mask, turns), mask.rotate_right(turns));
            assert_eq!(rotate_mask_left(mask, turns), mask.rotate_left(turns));
        }
    }
}

#[test]
fn rotating_by_h_then_by_eight_minus_h_is_identity() {
    for h in 0..8u32 {
        for mask in 0..=255u8 {
            let turned = rotate_mask_right(mask, h);
            assert_eq!(rotate_mask_right(turned, (8 - h) % 8), mask);
            assert_eq!(rotate_mask_left(turned, h), mask);
        }
    }
}

#[test]
fn rotation_by_a_heading_is_one_to_one() {
    for h in 0..8u32 {
        let mut seen = [false; 256];
        for mask in 0..=255u8 {
            let turned = rotate_mask_right(mask, h) as usize;
            assert!(!seen[turned]);
            seen[turned] = true;
        }
    }
}

#[test]
fn large_turn_counts_wrap_around() {
    assert_eq!(rotate_mask_right(0x12, u32::MAX), 0x12u8.rotate_right(u32::MAX));
    assert_eq!(rotate_mask_left(0x12, u32::MAX), 0x12u8.rotate_left(u32::MAX));
}

#[test]
fn single_direction_means_exactly_one_bit() {
    for mask in 0..=255u8 {
        assert_eq!(is_single_direction(mask), mask.count_ones() == 1);
    }
}

#[test]
fn mask_has_dir_tests_one_bit() {
    for mask in 0..=255u8 {
        for octant in 0..8u32 {
            assert_eq!(mask_has_dir(mask, octant), mask & (1 << octant) != 0);
        }
    }
    assert!(mask_has_dir(0x05, 0));
    assert!(!mask_has_dir(0x05, 1));
    assert!(mask_has_dir(0x05, 2));
}
