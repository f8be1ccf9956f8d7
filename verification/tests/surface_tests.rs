//! Stride-addressed pixel writes, clearing and glyph blending.

use rs_console::surface::Surface;

#[test]
fn allocation_fails_when_the_stride_cannot_hold_a_row() {
    assert!(Surface::new(2, 2, 7).is_none());
    assert!(Surface::new(2, 2, 8).is_some());
}

#[test]
fn a_fresh_surface_is_zeroed_with_stride_times_height_bytes() {
    let surf = Surface::new(3, 2, 16).unwrap();
    let bytes = surf.to_bytes();
    assert_eq!(bytes.len(), 32);
    assert!(bytes.iter().all(|b| *b == 0));
}

#[test]
fn write_pixel_addresses_through_the_stride() {
    let mut surf = Surface::new(2, 2, 12).unwrap();
    surf.write_pixel(1, 1, 9);
    let bytes = surf.to_bytes();
    let base = 1 * 12 + 4 * 1;
    assert_eq!(bytes[base], 9);
    assert_eq!(bytes[base + 1], 9);
    assert_eq!(bytes[base + 2], 9);
    assert_eq!(bytes[base + 3], 255);
    assert!(bytes.iter().enumerate().all(|(i, b)| (base..base + 4).contains(&i) || *b == 0));
}

#[test]
fn clear_zeroes_everything() {
    let mut surf = Surface::new(2, 2, 8).unwrap();
    surf.write_pixel(0, 0, 200);
    surf.clear();
    assert!(surf.to_bytes().iter().all(|b| *b == 0));
}

#[test]
fn blit_writes_covered_pixels_and_leaves_zero_coverage_alone() {
    let mut surf = Surface::new(4, 4, 16).unwrap();
    surf.write_pixel(1, 0, 7);
    let bm = vec![0u8, 200, 100, 0];
    surf.blit_glyph(&bm, 2, 0, 0);
    let bytes = surf.to_bytes();
    // Cell pixel (0, 0) has no coverage: the earlier bytes stay.
    assert_eq!(bytes[0], 0);
    // Cell pixel (1, 0) is covered.
    assert_eq!(bytes[4], 200);
    assert_eq!(bytes[7], 255);
    // Cell pixel (0, 1) is covered.
    assert_eq!(bytes[16], 100);
    // Cell pixel (1, 1) has no coverage: the pixel written before stays.
    // (1, 0) was overwritten by coverage, so probe (1, 1) which maps to
    // row 1, column 1 and was never painted.
    assert_eq!(bytes[16 + 4], 0);
}

#[test]
fn blit_keeps_old_bytes_under_zero_coverage() {
    let mut surf = Surface::new(2, 1, 8).unwrap();
    surf.write_pixel(0, 0, 7);
    let bm = vec![0u8, 50];
    surf.blit_glyph(&bm, 2, 0, 0);
    let bytes = surf.to_bytes();
    assert_eq!(bytes[0], 7);
    assert_eq!(bytes[3], 255);
    assert_eq!(bytes[4], 50);
}

#[test]
fn blit_clamps_pixels_outside_the_surface() {
    let mut surf = Surface::new(2, 2, 8).unwrap();
    let bm = vec![255u8; 16];
    surf.blit_glyph(&bm, 4, -1, 1);
    let bytes = surf.to_bytes();
    // Only the pixels that land inside the 2x2 surface were written:
    // target row 1 takes cell columns 1 and 2 of cell row 0, the rest
    // falls off the edges or below the last row.
    assert_eq!(bytes[8], 255);
    assert_eq!(bytes[12], 255);
    assert!(bytes[0] == 0 && bytes[4] == 0);
}
