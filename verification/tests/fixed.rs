use raycaster::fixed::{floor_div, floor_ratio, isqrt, offset_in_cell, split_cell, ONE};
use raycaster::texture::{select_or_default, select_texture, wrap};

#[test]
fn cells_and_offsets() {
    assert_eq!(ONE, 65536);
    assert_eq!(split_cell(98304), (1, 32768));
    assert_eq!(split_cell(0), (0, 0));
    assert_eq!(split_cell(-1), (-1, 65535));
    assert_eq!(split_cell(-65536), (-1, 0));
    assert_eq!(split_cell(-65537), (-2, 65535));
    assert_eq!(split_cell(i32::MAX), (32767, 65535));
    assert_eq!(split_cell(i32::MIN), (-32768, 0));
    assert_eq!(offset_in_cell(-1), 65535);
    assert_eq!(offset_in_cell(65536 * 1_000_000_000_000 + 17), 17);
    assert_eq!(offset_in_cell(-65536 * 1_000_000_000_000 + 17), 17);
}

#[test]
fn division_rounds_down() {
    assert_eq!(floor_div(7, 2), 3);
    assert_eq!(floor_div(-7, 2), -4);
    assert_eq!(floor_div(-8, 2), -4);
    assert_eq!(floor_div(0, 5), 0);
    assert_eq!(floor_div(-1, 1_000_000), -1);
    assert_eq!(floor_ratio(7, -2), -4);
    assert_eq!(floor_ratio(-7, -2), 3);
    assert_eq!(floor_ratio(-7, 2), -4);
    assert_eq!(floor_ratio(7, 0), 0);
}

#[test]
fn square_roots_round_down() {
    assert_eq!(isqrt(0), 0);
    assert_eq!(isqrt(1), 1);
    assert_eq!(isqrt(3), 1);
    assert_eq!(isqrt(4), 2);
    assert_eq!(isqrt(99), 9);
    assert_eq!(isqrt(8589934592), 92681);
    assert_eq!(isqrt((1u128 << 64) + 12345), 4294967296);
    assert_eq!(isqrt(1_000_000_000_000_000_000_000_000_000_000), 1_000_000_000_000_000);
    assert_eq!(isqrt(u128::MAX), u64::MAX);
}

#[test]
fn texel_wrap_at_the_texture_width_is_zero() {
    for w in [1u32, 2, 4, 64, 1024, 1 << 31] {
        assert_eq!(wrap(w, w), 0);
        assert_eq!(wrap(w - 1, w), w - 1);
        assert_eq!(wrap(0, w), 0);
    }
    assert_eq!(wrap(64 + 5, 64), 5);
    assert_eq!(wrap(3 * 64 + 63, 64), 63);
    assert_eq!(wrap(u32::MAX, 256), 255);
    assert!(wrap(5, 6) < 6);
    assert_eq!(wrap(6, 6), 4);
}

#[test]
fn cell_values_select_textures() {
    assert_eq!(select_texture(1, 3), Some(0));
    assert_eq!(select_texture(3, 3), Some(2));
    assert_eq!(select_texture(4, 3), Some(0));
    assert_eq!(select_texture(0, 3), Some(0));
    assert_eq!(select_texture(u32::MAX, 3), Some(0));
    assert_eq!(select_texture(1, 0), None);
    assert_eq!(select_or_default(0, 2), Some(0));
    assert_eq!(select_or_default(1, 2), Some(1));
    assert_eq!(select_or_default(2, 2), Some(0));
    assert_eq!(select_or_default(0, 0), None);
}
