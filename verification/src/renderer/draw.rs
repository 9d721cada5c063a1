//! Putting the images drawn for a layout together into the final image

use vstd::prelude::*;

use crate::scale::{copy, image_height, image_width, rgba_image_dims, rgba_image_pixels, scale, scaled_source_pixel, PixelBuffer};
use super::layout::{draw_list_disjoint, pixels_disjoint, LayoutOffset};
use super::rendered_image::{RenderedImage, Size};

verus! {

/// The ID of the data associated with a renderer
///
/// This can be used to read the data after rendering has been performed. The struct is *not*
/// Clone or Copy, which helps enforce that the data is read once and then destroyed.
#[derive(Debug, PartialEq, Eq, Hash)]
pub struct RenderId(pub usize);

/// The pixel at (x, y) of an image composed of the given pieces: that of the last piece drawn
/// over (x, y), or transparent black where no piece is drawn
pub open spec fn composed_pixel(pieces: Seq<(LayoutOffset, PixelBuffer)>, x: u32, y: u32) -> [u8; 4]
    decreases pieces.len(),
{
    if pieces.len() == 0 {
        [0u8, 0u8, 0u8, 0u8]
    } else {
        let (offset, image) = pieces.last();
        let (width, height) = rgba_image_dims(image);
        if offset.x <= x < offset.x + width && offset.y <= y < offset.y + height {
            rgba_image_pixels(image)[((x - offset.x) as u32, (y - offset.y) as u32)]
        } else {
            composed_pixel(pieces.drop_last(), x, y)
        }
    }
}

/// Every piece lies inside a `width` by `height` image
pub open spec fn pieces_inside(pieces: Seq<(LayoutOffset, PixelBuffer)>, width: u32, height: u32) -> bool {
    forall|i: int|
        0 <= i < pieces.len() ==> {
            &&& (#[trigger] pieces[i]).0.x + rgba_image_dims(pieces[i].1).0 <= width
            &&& pieces[i].0.y + rgba_image_dims(pieces[i].1).1 <= height
        }
}

/// The size of a piece's image
pub open spec fn piece_size(image: PixelBuffer) -> Size {
    Size { width: rgba_image_dims(image).0, height: rgba_image_dims(image).1 }
}

/// The piece is drawn over the pixel at (x, y)
pub open spec fn piece_covers(piece: (LayoutOffset, PixelBuffer), x: u32, y: u32) -> bool {
    &&& piece.0.x <= x < piece.0.x + rgba_image_dims(piece.1).0
    &&& piece.0.y <= y < piece.0.y + rgba_image_dims(piece.1).1
}

/// No two pieces overlap
pub open spec fn pieces_disjoint(pieces: Seq<(LayoutOffset, PixelBuffer)>) -> bool {
    forall|i: int, j: int|
        0 <= i < j < pieces.len() ==> pixels_disjoint(
            (#[trigger] pieces[i]).0,
            piece_size(pieces[i].1),
            (#[trigger] pieces[j]).0,
            piece_size(pieces[j].1),
        )
}

/// The pieces but the last still do not overlap
proof fn lemma_pieces_disjoint_drop_last(pieces: Seq<(LayoutOffset, PixelBuffer)>)
    requires
        pieces.len() > 0,
        pieces_disjoint(pieces),
    ensures
        pieces_disjoint(pieces.drop_last()),
{
    let rest = pieces.drop_last();
    assert forall|i: int, j: int| 0 <= i < j < rest.len() implies pixels_disjoint(
        (#[trigger] rest[i]).0,
        piece_size(rest[i].1),
        (#[trigger] rest[j]).0,
        piece_size(rest[j].1),
    ) by {
        assert(rest[i] == pieces[i]);
        assert(rest[j] == pieces[j]);
        assert(pixels_disjoint(pieces[i].0, piece_size(pieces[i].1), pieces[j].0, piece_size(pieces[j].1)));
    }
}

/// When no two pieces overlap, the order in which they are drawn does not matter: the composed
/// image shows, at every pixel that a piece covers, that piece's own pixel
pub proof fn lemma_composed_pixel_in_piece(pieces: Seq<(LayoutOffset, PixelBuffer)>, i: int, x: u32, y: u32)
    requires
        pieces_disjoint(pieces),
        0 <= i < pieces.len(),
        piece_covers(pieces[i], x, y),
    ensures
        composed_pixel(pieces, x, y) == rgba_image_pixels(pieces[i].1)[(
            (x - pieces[i].0.x) as u32,
            (y - pieces[i].0.y) as u32,
        )],
    decreases pieces.len(),
{
    let last = pieces.len() - 1;
    if i < last {
        assert(pixels_disjoint(pieces[i].0, piece_size(pieces[i].1), pieces[last].0, piece_size(pieces[last].1)));
        assert(!piece_covers(pieces[last], x, y));
        lemma_pieces_disjoint_drop_last(pieces);
        assert(pieces.drop_last()[i] == pieces[i]);
        lemma_composed_pixel_in_piece(pieces.drop_last(), i, x, y);
    }
}

/// The composed image is transparent black wherever no piece is drawn
pub proof fn lemma_composed_pixel_outside_pieces(pieces: Seq<(LayoutOffset, PixelBuffer)>, x: u32, y: u32)
    requires
        forall|i: int| 0 <= i < pieces.len() ==> !piece_covers(#[trigger] pieces[i], x, y),
    ensures
        composed_pixel(pieces, x, y) == [0u8, 0u8, 0u8, 0u8],
    decreases pieces.len(),
{
    if pieces.len() > 0 {
        assert(!piece_covers(pieces[pieces.len() - 1], x, y));
        assert forall|i: int| 0 <= i < pieces.drop_last().len() implies !piece_covers(
            #[trigger] pieces.drop_last()[i],
            x,
            y,
        ) by {
            assert(pieces.drop_last()[i] == pieces[i]);
        }
        lemma_composed_pixel_outside_pieces(pieces.drop_last(), x, y);
    }
}

/// Each piece is the image drawn for the entry of the draw list at the same position: it is
/// drawn at that entry's offset and has that entry's size
pub open spec fn drawn_from<D>(pieces: Seq<(LayoutOffset, PixelBuffer)>, list: Seq<(LayoutOffset, RenderedImage<D>)>) -> bool {
    &&& pieces.len() == list.len()
    &&& forall|i: int|
        0 <= i < pieces.len() ==> {
            &&& (#[trigger] pieces[i]).0 == list[i].0
            &&& piece_size(pieces[i].1) == list[i].1.size
        }
}

/// The images drawn for a draw list in which no two images overlap do not overlap either
pub proof fn lemma_drawn_pieces_disjoint<D>(
    pieces: Seq<(LayoutOffset, PixelBuffer)>,
    list: Seq<(LayoutOffset, RenderedImage<D>)>,
)
    requires
        draw_list_disjoint(list),
        drawn_from(pieces, list),
    ensures
        pieces_disjoint(pieces),
{
    assert forall|i: int, j: int| 0 <= i < j < pieces.len() implies pixels_disjoint(
        (#[trigger] pieces[i]).0,
        piece_size(pieces[i].1),
        (#[trigger] pieces[j]).0,
        piece_size(pieces[j].1),
    ) by {
        assert(pixels_disjoint(list[i].0, list[i].1.size, list[j].0, list[j].1.size));
    }
}

/// Draws the pieces, in order, each at its offset, into a new transparent image of the given
/// size, and returns that image
pub fn compose(width: u32, height: u32, pieces: &Vec<(LayoutOffset, PixelBuffer)>) -> (image: PixelBuffer)
    requires
        4 * (width as int) <= usize::MAX,
        4 * (width as int) * (height as int) <= usize::MAX,
        pieces_inside(pieces@, width, height),
    ensures
        rgba_image_dims(image) == (width, height),
        forall|x: u32, y: u32|
            x < width && y < height ==> #[trigger] rgba_image_pixels(image)[(x, y)] == composed_pixel(
                pieces@,
                x,
                y,
            ),
{
    let mut image = PixelBuffer::new(width, height);
    let mut i: usize = 0;
    while i < pieces.len()
        invariant
            i <= pieces.len(),
            pieces_inside(pieces@, width, height),
            rgba_image_dims(image) == (width, height),
            forall|x: u32, y: u32|
                x < width && y < height ==> #[trigger] rgba_image_pixels(image)[(x, y)]
                    == composed_pixel(pieces@.take(i as int), x, y),
        decreases pieces.len() - i,
    {
        let (offset, piece) = &pieces[i];
        assert(pieces@[i as int].0.x + rgba_image_dims(pieces@[i as int].1).0 <= width);
        assert(pieces@[i as int].0.y + rgba_image_dims(pieces@[i as int].1).1 <= height);
        let ghost before = image;
        copy(piece, &mut image, (offset.x, offset.y));
        assert(pieces@.take(i + 1).drop_last() =~= pieces@.take(i as int));
        assert(pieces@.take(i + 1).last() == pieces@[i as int]);
        i += 1;
    }
    assert(pieces@.take(i as int) =~= pieces@);
    image
}

/// Scales the given image up by a whole factor, with no anti-aliasing or other interpolation of
/// any kind: every pixel becomes a `factor` by `factor` square
pub fn scale_image(image: &PixelBuffer, factor: u32) -> (scaled: PixelBuffer)
    requires
        factor > 0,
        rgba_image_dims(*image).0 > 0,
        rgba_image_dims(*image).1 > 0,
        rgba_image_dims(*image).0 * factor <= u32::MAX,
        rgba_image_dims(*image).1 * factor <= u32::MAX,
        4 * (rgba_image_dims(*image).0 * factor) * (rgba_image_dims(*image).1 * factor) <= usize::MAX,
    ensures
        rgba_image_dims(scaled) == (
            (rgba_image_dims(*image).0 * factor) as u32,
            (rgba_image_dims(*image).1 * factor) as u32,
        ),
        forall|x: u32, y: u32|
            x < rgba_image_dims(scaled).0 && y < rgba_image_dims(scaled).1
                ==> #[trigger] rgba_image_pixels(scaled)[(x, y)] == scaled_source_pixel(
                *image,
                factor,
                factor,
                x,
                y,
            ),
{
    let width = image_width(image);
    let height = image_height(image);
    assert(4 * (width * factor) <= 4 * (width * factor) * (height * factor)) by (nonlinear_arith)
        requires
            height > 0,
            factor > 0,
    ;
    let mut scaled = PixelBuffer::new(width * factor, height * factor);
    proof {
        vstd::arithmetic::div_mod::lemma_mod_multiples_basic(factor as int, width as int);
        vstd::arithmetic::div_mod::lemma_mod_multiples_basic(factor as int, height as int);
        vstd::arithmetic::div_mod::lemma_div_multiples_vanish(factor as int, width as int);
        vstd::arithmetic::div_mod::lemma_div_multiples_vanish(factor as int, height as int);
        vstd::arithmetic::mul::lemma_mul_is_commutative(factor as int, width as int);
        vstd::arithmetic::mul::lemma_mul_is_commutative(factor as int, height as int);
    }
    scale(image, &mut scaled);
    scaled
}

} // verus!
