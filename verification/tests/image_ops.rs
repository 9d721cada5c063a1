use image::{Rgba, RgbaImage};

use spritec::renderer::draw::{compose, scale_image};
use spritec::renderer::layout::LayoutOffset;
use spritec::scale::{copy, scale, truncate_centered, PixelBuffer};

fn px(v: u8) -> Rgba<u8> {
    Rgba([v, v / 2, 255 - v, 255])
}

/// An image whose pixel at (x, y) is `px(10 * y + x + 1)`
fn numbered(width: u32, height: u32) -> PixelBuffer {
    let mut image = RgbaImage::new(width, height);
    for y in 0..height {
        for x in 0..width {
            image.put_pixel(x, y, px((10 * y + x + 1) as u8));
        }
    }
    PixelBuffer { image }
}

fn filled(width: u32, height: u32, v: u8) -> PixelBuffer {
    let mut image = RgbaImage::new(width, height);
    for y in 0..height {
        for x in 0..width {
            image.put_pixel(x, y, px(v));
        }
    }
    PixelBuffer { image }
}

fn at(buffer: &PixelBuffer, x: u32, y: u32) -> Rgba<u8> {
    *buffer.image.get_pixel(x, y)
}

#[test]
fn composing_nothing_gives_a_transparent_black_image() {
    let buffer = compose(3, 2, &vec![]);
    assert_eq!(buffer.image.dimensions(), (3, 2));
    for y in 0..2 {
        for x in 0..3 {
            assert_eq!(at(&buffer, x, y), Rgba([0, 0, 0, 0]));
        }
    }
}

#[test]
fn scale_repeats_each_pixel_in_a_box() {
    let source = numbered(2, 3);
    let mut target = filled(6, 6, 99);
    scale(&source, &mut target);
    for y in 0..6 {
        for x in 0..6 {
            assert_eq!(at(&target, x, y), at(&source, x / 3, y / 2), "at ({}, {})", x, y);
        }
    }
}

#[test]
fn scale_by_one_copies() {
    let source = numbered(3, 3);
    let mut target = filled(3, 3, 0);
    scale(&source, &mut target);
    assert_eq!(target.image, source.image);
}

#[test]
fn copy_places_source_at_offset_and_keeps_the_rest() {
    let source = numbered(2, 2);
    let mut target = filled(5, 4, 7);
    copy(&source, &mut target, (3, 1));
    for y in 0..4 {
        for x in 0..5 {
            let expected = if (3..5).contains(&x) && (1..3).contains(&y) {
                at(&source, x - 3, y - 1)
            } else {
                px(7)
            };
            assert_eq!(at(&target, x, y), expected, "at ({}, {})", x, y);
        }
    }
}

#[test]
fn truncate_centered_takes_the_middle() {
    let source = numbered(5, 4);
    let mut target = filled(2, 2, 0);
    truncate_centered(&source, &mut target);
    // offset = (5 / 2 - 2 / 2, 4 / 2 - 2 / 2) = (1, 1)
    for y in 0..2 {
        for x in 0..2 {
            assert_eq!(at(&target, x, y), at(&source, x + 1, y + 1));
        }
    }
}

#[test]
fn compose_draws_pieces_in_order_over_transparent_black() {
    let pieces = vec![
        (LayoutOffset { x: 0, y: 0 }, filled(2, 2, 1)),
        (LayoutOffset { x: 1, y: 1 }, filled(2, 1, 2)),
    ];
    let image = compose(4, 3, &pieces);
    assert_eq!(image.image.dimensions(), (4, 3));
    assert_eq!(at(&image, 0, 0), px(1));
    assert_eq!(at(&image, 1, 0), px(1));
    assert_eq!(at(&image, 0, 1), px(1));
    // The later piece is drawn over the earlier one
    assert_eq!(at(&image, 1, 1), px(2));
    assert_eq!(at(&image, 2, 1), px(2));
    assert_eq!(at(&image, 3, 0), Rgba([0, 0, 0, 0]));
    assert_eq!(at(&image, 0, 2), Rgba([0, 0, 0, 0]));
}

#[test]
fn scale_image_multiplies_dimensions() {
    let source = numbered(2, 1);
    let scaled = scale_image(&source, 3);
    assert_eq!(scaled.image.dimensions(), (6, 3));
    for y in 0..3 {
        for x in 0..6 {
            assert_eq!(at(&scaled, x, y), at(&source, x / 3, 0));
        }
    }
}

#[test]
fn disjoint_pieces_compose_the_same_in_any_order() {
    let first = || (LayoutOffset { x: 0, y: 0 }, numbered(2, 2));
    let second = || (LayoutOffset { x: 2, y: 1 }, filled(2, 2, 7));
    let forward = compose(4, 3, &vec![first(), second()]);
    let backward = compose(4, 3, &vec![second(), first()]);
    assert_eq!(forward.image, backward.image);
    let source = numbered(2, 2);
    for y in 0..2 {
        for x in 0..2 {
            assert_eq!(at(&forward, x, y), at(&source, x, y));
        }
    }
    assert_eq!(at(&forward, 3, 2), px(7));
    assert_eq!(at(&forward, 3, 0), Rgba([0, 0, 0, 0]));
}

#[test]
fn buffer_dimensions_are_public() {
    let buffer = numbered(3, 2);
    assert_eq!((buffer.width(), buffer.height()), (3, 2));
}
