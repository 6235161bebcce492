//! Direction masks, headings and the eight compass octants.
//!
//! Octant `i` (0 to 7) is bit `i` of a mask. Octant 0 points along +x and
//! the index grows in 45 degree steps through +y, -x and -y. A heading is an
//! octant index; a mask seen from a heading is the mask rotated right by it.

use vstd::prelude::*;

verus! {

/// The weight of bit `i` in a byte: two to the power `i`, for `i` from 0 to 8.
pub open spec fn bit_weight(i: int) -> int {
    if i <= 0 {
        1
    } else if i == 1 {
        2
    } else if i == 2 {
        4
    } else if i == 3 {
        8
    } else if i == 4 {
        16
    } else if i == 5 {
        32
    } else if i == 6 {
        64
    } else if i == 7 {
        128
    } else {
        256
    }
}

/// True when `mask` has an edge toward octant `i`.
pub open spec fn has_dir(mask: u8, i: int) -> bool {
    (mask as int / bit_weight(i)) % 2 == 1
}

/// The mask with the single octant `i` set, for `i` from 0 to 7.
pub open spec fn dir_bit(i: int) -> u8 {
    bit_weight(i) as u8
}

/// True when exactly one octant is set in `mask`.
pub open spec fn is_single_dir(mask: u8) -> bool {
    exists|i: int| 0 <= i < 8 && mask == #[trigger] dir_bit(i)
}

/// The octant of a single-octant mask; 8 for any other mask.
pub open spec fn dir_index(mask: u8) -> int {
    if mask == 0x01 {
        0
    } else if mask == 0x02 {
        1
    } else if mask == 0x04 {
        2
    } else if mask == 0x08 {
        3
    } else if mask == 0x10 {
        4
    } else if mask == 0x20 {
        5
    } else if mask == 0x40 {
        6
    } else if mask == 0x80 {
        7
    } else {
        8
    }
}

/// `mask` rotated right by `turns` octants: octant `i` of the result is
/// octant `(i + turns) % 8` of `mask`.
pub open spec fn rotate_right(mask: u8, turns: int) -> u8 {
    let s = turns % 8;
    (mask as int / bit_weight(s) + (mask as int % bit_weight(s)) * bit_weight(8 - s)) as u8
}

/// `mask` rotated left by `turns` octants: octant `(i + turns) % 8` of the
/// result is octant `i` of `mask`.
pub open spec fn rotate_left(mask: u8, turns: int) -> u8 {
    rotate_right(mask, 8 - turns % 8)
}

/// Rotation by shifts is rotation by division and remainder.
proof fn lemma_shift_rotation(m: u8)
    by (bit_vector)
    ensures
        (m >> 1u8) | (m << 7u8) == m / 2 + (m % 2) * 128,
        (m >> 2u8) | (m << 6u8) == m / 4 + (m % 4) * 64,
        (m >> 3u8) | (m << 5u8) == m / 8 + (m % 8) * 32,
        (m >> 4u8) | (m << 4u8) == m / 16 + (m % 16) * 16,
        (m >> 5u8) | (m << 3u8) == m / 32 + (m % 32) * 8,
        (m >> 6u8) | (m << 2u8) == m / 64 + (m % 64) * 4,
        (m >> 7u8) | (m << 1u8) == m / 128 + (m % 128) * 2,
{
}

/// Rotates `mask` right by `turns` octants.
pub fn rotate_mask_right(mask: u8, turns: u32) -> (out: u8)
    ensures
        out == rotate_right(mask, turns as int),
{
    let s: u32 = turns % 8;
    proof {
        lemma_shift_rotation(mask);
    }
    if s == 0 {
        mask
    } else {
        (mask >> s) | (mask << (8 - s))
    }
}

/// Rotates `mask` left by `turns` octants.
pub fn rotate_mask_left(mask: u8, turns: u32) -> (out: u8)
    ensures
        out == rotate_left(mask, turns as int),
{
    rotate_mask_right(mask, 8 - turns % 8)
}

/// The x component of the unit step toward `octant`.
pub open spec fn delta_x(octant: int) -> int {
    if octant == 0 || octant == 1 || octant == 7 {
        1
    } else if octant == 3 || octant == 4 || octant == 5 {
        -1
    } else {
        0
    }
}

/// The y component of the unit step toward `octant`.
pub open spec fn delta_y(octant: int) -> int {
    if octant == 1 || octant == 2 || octant == 3 {
        1
    } else if octant == 5 || octant == 6 || octant == 7 {
        -1
    } else {
        0
    }
}

/// A bit tested by a shift is a bit tested by division.
proof fn lemma_shift_tests(m: u8)
    by (bit_vector)
    ensures
        ((m >> 0u8) & 1u8 == 1u8) == (m % 2 == 1),
        ((m >> 1u8) & 1u8 == 1u8) == ((m / 2) % 2 == 1),
        ((m >> 2u8) & 1u8 == 1u8) == ((m / 4) % 2 == 1),
        ((m >> 3u8) & 1u8 == 1u8) == ((m / 8) % 2 == 1),
        ((m >> 4u8) & 1u8 == 1u8) == ((m / 16) % 2 == 1),
        ((m >> 5u8) & 1u8 == 1u8) == ((m / 32) % 2 == 1),
        ((m >> 6u8) & 1u8 == 1u8) == ((m / 64) % 2 == 1),
        ((m >> 7u8) & 1u8 == 1u8) == ((m / 128) % 2 == 1),
{
}

/// Right rotation by `s` octants written with shifts.
spec fn shift_rotate(m: u8, s: u8) -> u8 {
    if s == 0 {
        m
    } else {
        (m >> s) | (m << ((8 - s) as u8))
    }
}

/// Bit `i` of a mask rotated right by `s` is bit `(i + s) % 8` of the mask.
proof fn lemma_shifted_octants(m: u8, s: u8, i: u8)
    by (bit_vector)
    requires
        s < 8,
        i < 8,
    ensures
        ((shift_rotate(m, s) >> i) & 1u8 == 1u8) == ((m >> (((i + s) % 8) as u8)) & 1u8 == 1u8),
{
}

/// Rotation by `s` and rotation by `(8 - s) % 8` undo each other.
proof fn lemma_shift_rotate_undone(m: u8, s: u8)
    by (bit_vector)
    requires
        s < 8,
    ensures
        shift_rotate(shift_rotate(m, s), ((8 - s) % 8) as u8) == m,
        shift_rotate(shift_rotate(m, ((8 - s) % 8) as u8), s) == m,
{
}

/// `rotate_right` is the rotation written with shifts.
proof fn lemma_rotate_right_is_shift(mask: u8, turns: int)
    ensures
        rotate_right(mask, turns) == shift_rotate(mask, (turns % 8) as u8),
{
    lemma_shift_rotation(mask);
}

/// `has_dir` is the test of one bit.
proof fn lemma_has_dir_is_shift_test(m: u8, i: int)
    requires
        0 <= i < 8,
    ensures
        has_dir(m, i) == ((m >> (i as u8)) & 1u8 == 1u8),
{
    lemma_shift_tests(m);
}

/// Octant `i` of a right-rotated mask is octant `(i + turns) % 8` of the
/// mask itself.
pub proof fn lemma_rotate_right_moves_octants(mask: u8, turns: int, i: int)
    requires
        0 <= turns,
        0 <= i < 8,
    ensures
        has_dir(rotate_right(mask, turns), i) == has_dir(mask, (i + turns) % 8),
{
    let s = turns % 8;
    let j = (i + turns) % 8;
    assert(j == (i + s) % 8);
    lemma_rotate_right_is_shift(mask, turns);
    lemma_has_dir_is_shift_test(rotate_right(mask, turns), i);
    lemma_has_dir_is_shift_test(mask, j);
    lemma_shifted_octants(mask, s as u8, i as u8);
}

/// Rotating right and then left by the same number of octants gives the
/// mask back.
pub proof fn lemma_rotate_left_undoes_right(mask: u8, turns: int)
    requires
        0 <= turns,
    ensures
        rotate_left(rotate_right(mask, turns), turns) == mask,
{
    let s = turns % 8;
    let back = 8 - s;
    assert(back % 8 == (8 - s) % 8);
    lemma_rotate_right_is_shift(mask, turns);
    lemma_rotate_right_is_shift(rotate_right(mask, turns), back);
    lemma_shift_rotate_undone(mask, s as u8);
}

/// Rotating left and then right by the same number of octants gives the
/// mask back.
pub proof fn lemma_rotate_right_undoes_left(mask: u8, turns: int)
    requires
        0 <= turns,
    ensures
        rotate_right(rotate_left(mask, turns), turns) == mask,
{
    let s = turns % 8;
    let back = 8 - s;
    assert(back % 8 == (8 - s) % 8);
    lemma_rotate_right_is_shift(mask, back);
    lemma_rotate_right_is_shift(rotate_left(mask, turns), turns);
    lemma_shift_rotate_undone(mask, s as u8);
}

/// The eight masks with a single bit.
proof fn lemma_single_bits(i: u8)
    by (bit_vector)
    requires
        i < 8,
    ensures
        i == 0 ==> 1u8 << i == 1,
        i == 1 ==> 1u8 << i == 2,
        i == 2 ==> 1u8 << i == 4,
        i == 3 ==> 1u8 << i == 8,
        i == 4 ==> 1u8 << i == 16,
        i == 5 ==> 1u8 << i == 32,
        i == 6 ==> 1u8 << i == 64,
        i == 7 ==> 1u8 << i == 128,
{
}

/// Rotating the single bit `i` left by `s` gives the single bit `(i + s) % 8`.
proof fn lemma_shift_rotate_single(i: u8, s: u8)
    by (bit_vector)
    requires
        i < 8,
        s < 8,
    ensures
        shift_rotate(1u8 << i, ((8 - s) % 8) as u8) == 1u8 << (((i + s) % 8) as u8),
{
}

/// Rotating the single octant `i` left by `turns` gives the single octant
/// `(i + turns) % 8`.
pub proof fn lemma_rotate_left_single_dir(i: int, turns: int)
    requires
        0 <= i < 8,
        0 <= turns,
    ensures
        rotate_left(dir_bit(i), turns) == dir_bit((i + turns) % 8),
{
    let s = turns % 8;
    let back = 8 - s;
    let j = (i + turns) % 8;
    assert(j == (i + s) % 8);
    assert(back % 8 == (8 - s) % 8);
    lemma_single_bits(i as u8);
    lemma_single_bits(j as u8);
    lemma_rotate_right_is_shift(dir_bit(i), back);
    lemma_shift_rotate_single(i as u8, s as u8);
}

/// The bit that is set in a single-bit mask is the one at its index.
proof fn lemma_lowest_set_bit(m: u8, t: u8)
    by (bit_vector)
    requires
        t < 8,
        (m >> t) & 1u8 == 1u8,
        m == 1 || m == 2 || m == 4 || m == 8 || m == 16 || m == 32 || m == 64 || m == 128,
    ensures
        m == 1 ==> t == 0,
        m == 2 ==> t == 1,
        m == 4 ==> t == 2,
        m == 8 ==> t == 3,
        m == 16 ==> t == 4,
        m == 32 ==> t == 5,
        m == 64 ==> t == 6,
        m == 128 ==> t == 7,
{
}

/// The octant of a single-octant mask is its number of trailing zero bits.
pub proof fn lemma_single_dir_index(mask: u8)
    requires
        is_single_dir(mask),
    ensures
        0 <= dir_index(mask) < 8,
        mask == dir_bit(dir_index(mask)),
        vstd::std_specs::bits::u8_trailing_zeros(mask) == dir_index(mask),
{
    let i = choose|i: int| 0 <= i < 8 && mask == #[trigger] dir_bit(i);
    let t = vstd::std_specs::bits::u8_trailing_zeros(mask);
    vstd::std_specs::bits::axiom_u8_trailing_zeros(mask);
    lemma_lowest_set_bit(mask, t as u8);
}

/// A mask has a single bit when it is not zero and shares no bit with its
/// predecessor.
proof fn lemma_single_bit_test(m: u8)
    by (bit_vector)
    ensures
        (m != 0 && m & ((m - 1) as u8) == 0) == (m == 1 || m == 2 || m == 4 || m == 8 || m == 16
            || m == 32 || m == 64 || m == 128),
{
}

/// Tests whether exactly one octant is set in `mask`.
pub fn is_single_direction(mask: u8) -> (single: bool)
    ensures
        single == is_single_dir(mask),
{
    proof {
        lemma_single_bit_test(mask);
        if is_single_dir(mask) {
            lemma_single_dir_index(mask);
        } else {
            assert(mask != dir_bit(0) && mask != dir_bit(1) && mask != dir_bit(2) && mask
                != dir_bit(3) && mask != dir_bit(4) && mask != dir_bit(5) && mask != dir_bit(6)
                && mask != dir_bit(7));
        }
    }
    mask != 0 && mask & (mask - 1) == 0
}

/// Tests whether `mask` has an edge toward `octant`.
pub fn mask_has_dir(mask: u8, octant: u32) -> (set: bool)
    requires
        octant < 8,
    ensures
        set == has_dir(mask, octant as int),
{
    proof {
        lemma_has_dir_is_shift_test(mask, octant as int);
    }
    (mask >> octant) & 1 == 1
}

/// Rotation by a heading is a bijection on masks: rotating by `h` and then
/// by `(8 - h) % 8` returns the mask, no two masks rotate to the same one,
/// and every mask is the rotation of its own left rotation.
pub proof fn lemma_rotation_is_bijection(h: int)
    requires
        0 <= h < 8,
    ensures
        forall|m: u8| rotate_right(#[trigger] rotate_right(m, h), (8 - h) % 8) == m,
        forall|a: u8, b: u8| #[trigger]
            rotate_right(a, h) == #[trigger] rotate_right(b, h) ==> a == b,
        forall|m: u8| rotate_right(#[trigger] rotate_left(m, h), h) == m,
{
    assert forall|m: u8| rotate_right(#[trigger] rotate_right(m, h), (8 - h) % 8) == m by {
        lemma_rotate_left_undoes_right(m, h);
    }
    assert forall|m: u8| rotate_right(#[trigger] rotate_left(m, h), h) == m by {
        lemma_rotate_right_undoes_left(m, h);
    }
}

/// A step toward an octant and a step toward the opposite octant cancel.
pub proof fn lemma_opposite_octants_cancel(octant: int)
    requires
        0 <= octant < 8,
    ensures
        delta_x((octant + 4) % 8) == -delta_x(octant),
        delta_y((octant + 4) % 8) == -delta_y(octant),
{
}

} // verus!
