//! Tests for the canvas store: construction invariants, pixel reads and
//! writes, and the shard address mapping.

use pixelflut::color::Color;
use pixelflut::pixmap::{Pixmap, PixmapError};

#[test]
fn construction_rejects_zero_width() {
    assert_eq!(Pixmap::new(0, 600, 10).unwrap_err(), PixmapError::ZeroWidth);
}

#[test]
fn construction_rejects_zero_height() {
    assert_eq!(Pixmap::new(800, 0, 10).unwrap_err(), PixmapError::ZeroHeight);
}

#[test]
fn construction_rejects_zero_shards() {
    assert_eq!(Pixmap::new(800, 600, 0).unwrap_err(), PixmapError::ZeroShards);
}

#[test]
fn construction_rejects_too_many_shards() {
    assert_eq!(Pixmap::new(4, 2, 8).unwrap_err(), PixmapError::TooManyShards);
    assert_eq!(Pixmap::new(4, 2, 9).unwrap_err(), PixmapError::TooManyShards);
}

#[test]
fn construction_rejects_uneven_shards() {
    assert_eq!(Pixmap::new(800, 600, 7).unwrap_err(), PixmapError::UnevenShards);
}

#[test]
fn construction_accepts_valid_dimensions() {
    let pixmap = Pixmap::new(800, 600, 10).unwrap();
    assert_eq!(pixmap.size(), (800, 600));
    assert_eq!(pixmap.get_pixel(0, 0), Some(Color(0, 0, 0)));
    assert_eq!(pixmap.get_pixel(799, 599), Some(Color(0, 0, 0)));
}

#[test]
fn default_canvas_is_800_by_600() {
    let pixmap = Pixmap::default();
    assert_eq!(pixmap.size(), (800, 600));
    assert_eq!(pixmap.get_pixel(799, 599), Some(Color(0, 0, 0)));
}

#[test]
fn set_then_get_returns_written_color() {
    let mut pixmap = Pixmap::new(800, 600, 10).unwrap();
    assert!(pixmap.set_pixel(10, 10, Color(255, 0, 0)));
    assert_eq!(pixmap.get_pixel(10, 10), Some(Color(255, 0, 0)));
    assert!(pixmap.set_pixel(0, 0, Color(1, 2, 3)));
    assert!(pixmap.set_pixel(799, 599, Color(4, 5, 6)));
    assert_eq!(pixmap.get_pixel(0, 0), Some(Color(1, 2, 3)));
    assert_eq!(pixmap.get_pixel(799, 599), Some(Color(4, 5, 6)));
}

#[test]
fn set_is_idempotent() {
    let mut once = Pixmap::new(16, 16, 4).unwrap();
    let mut twice = Pixmap::new(16, 16, 4).unwrap();
    once.set_pixel(3, 7, Color(9, 8, 7));
    twice.set_pixel(3, 7, Color(9, 8, 7));
    twice.set_pixel(3, 7, Color(9, 8, 7));
    for x in 0..16 {
        for y in 0..16 {
            assert_eq!(once.get_pixel(x, y), twice.get_pixel(x, y));
        }
    }
}

#[test]
fn out_of_range_get_returns_nothing() {
    let pixmap = Pixmap::new(800, 600, 10).unwrap();
    assert_eq!(pixmap.get_pixel(800, 0), None);
    assert_eq!(pixmap.get_pixel(0, 600), None);
    assert_eq!(pixmap.get_pixel(usize::MAX, usize::MAX), None);
}

#[test]
fn out_of_range_set_changes_nothing() {
    let mut pixmap = Pixmap::new(8, 4, 2).unwrap();
    assert!(pixmap.set_pixel(2, 2, Color(1, 1, 1)));
    assert!(!pixmap.set_pixel(8, 0, Color(9, 9, 9)));
    assert!(!pixmap.set_pixel(0, 4, Color(9, 9, 9)));
    for x in 0..8 {
        for y in 0..4 {
            let expected = if (x, y) == (2, 2) { Color(1, 1, 1) } else { Color(0, 0, 0) };
            assert_eq!(pixmap.get_pixel(x, y), Some(expected));
        }
    }
}

#[test]
fn address_mapping_is_a_bijection() {
    let pixmap = Pixmap::new(4, 4, 2).unwrap();
    let mut seen = Vec::new();
    for y in 0..4 {
        for x in 0..4 {
            let pair = pixmap.get_pixel_index(x, y);
            assert!(pair.0 < 2);
            assert!(pair.1 < 8);
            assert!(!seen.contains(&pair), "two coordinates alias one slot");
            seen.push(pair);
        }
    }
    assert_eq!(seen.len(), 16);
}

#[test]
fn address_mapping_matches_flattened_order() {
    let pixmap = Pixmap::new(4, 2, 2).unwrap();
    assert_eq!(pixmap.get_pixel_index(0, 0), (0, 0));
    assert_eq!(pixmap.get_pixel_index(3, 0), (0, 3));
    assert_eq!(pixmap.get_pixel_index(0, 1), (1, 0));
    assert_eq!(pixmap.get_pixel_index(3, 1), (1, 3));
}

#[test]
fn coordinate_bounds_check() {
    let pixmap = Pixmap::new(8, 4, 2).unwrap();
    assert!(pixmap.are_coordinates_inside(0, 0));
    assert!(pixmap.are_coordinates_inside(7, 3));
    assert!(!pixmap.are_coordinates_inside(8, 0));
    assert!(!pixmap.are_coordinates_inside(0, 4));
}

#[test]
fn color_packs_and_unpacks_little_endian() {
    let c = Color::from_u32(0x00C0FFEE);
    assert_eq!(c, Color(0xEE, 0xFF, 0xC0));
    assert_eq!(c.to_u32(), 0x00C0FFEE);
    assert_eq!(Color::from_u32(0xFFC0FFEE), Color(0xEE, 0xFF, 0xC0));
    assert_eq!(Color(0, 0, 0).to_u32(), 0);
    assert_eq!(Color::black(), Color(0, 0, 0));
}
