//! Copying, cropping and nearest-neighbour scaling of RGBA images

use vstd::prelude::*;

use image::{Rgba, RgbaImage};

verus! {

/// An RGBA image with eight bits per channel, as the `image` crate stores it.
///
/// Its contents are not read directly by the proofs: what it holds is named by
/// [`rgba_image_pixels`] and [`rgba_image_dims`], and each operation on it states its effect over
/// those two names.
#[verifier::external_body]
pub struct PixelBuffer {
    /// The image itself
    pub image: RgbaImage,
}

/// The pixels of an image buffer, by (x, y) position, each as its red, green, blue and alpha
/// channels
pub uninterp spec fn rgba_image_pixels(image: PixelBuffer) -> Map<(u32, u32), [u8; 4]>;

/// The (width, height) dimensions of an image buffer
pub uninterp spec fn rgba_image_dims(image: PixelBuffer) -> (u32, u32);

impl PixelBuffer {
    /// `ImageBuffer::new`: a buffer of the given dimensions whose every pixel is transparent
    /// black. The call works out the buffer's length in bytes as 4 times the width, then times
    /// the height, and panics when either step overflows `usize`, which the precondition rules
    /// out.
    #[verifier::external_body]
    pub(crate) fn new(width: u32, height: u32) -> (buffer: Self)
        requires
            4 * (width as int) <= usize::MAX,
            4 * (width as int) * (height as int) <= usize::MAX,
        ensures
            rgba_image_dims(buffer) == (width, height),
            forall|x: u32, y: u32|
                x < width && y < height ==> #[trigger] rgba_image_pixels(buffer)[(x, y)] == [
                    0u8,
                    0u8,
                    0u8,
                    0u8,
                ],
    {
        PixelBuffer { image: RgbaImage::new(width, height) }
    }
}

impl PixelBuffer {
    /// The width of the image, in pixels
    pub fn width(&self) -> (width: u32)
        ensures
            width == rgba_image_dims(*self).0,
    {
        image_width(self)
    }

    /// The height of the image, in pixels
    pub fn height(&self) -> (height: u32)
        ensures
            height == rgba_image_dims(*self).1,
    {
        image_height(self)
    }
}

/// `ImageBuffer::width`: the width the image was created with
#[verifier::external_body]
pub(crate) fn image_width(image: &PixelBuffer) -> (width: u32)
    ensures
        width == rgba_image_dims(*image).0,
{
    image.image.width()
}

/// `ImageBuffer::height`: the height the image was created with
#[verifier::external_body]
pub(crate) fn image_height(image: &PixelBuffer) -> (height: u32)
    ensures
        height == rgba_image_dims(*image).1,
{
    image.image.height()
}

/// `ImageBuffer::get_pixel`: the channels of the pixel at (x, y), which must be in bounds
/// (the call panics otherwise)
#[verifier::external_body]
fn image_get_pixel(image: &PixelBuffer, x: u32, y: u32) -> (pixel: [u8; 4])
    requires
        x < rgba_image_dims(*image).0,
        y < rgba_image_dims(*image).1,
    ensures
        pixel == rgba_image_pixels(*image)[(x, y)],
{
    image.image.get_pixel(x, y).0
}

/// `ImageBuffer::put_pixel`: overwrites the pixel at (x, y), which must be in bounds (the call
/// panics otherwise), and leaves every other pixel and the dimensions as they were
#[verifier::external_body]
fn image_put_pixel(image: &mut PixelBuffer, x: u32, y: u32, pixel: [u8; 4])
    requires
        x < rgba_image_dims(*old(image)).0,
        y < rgba_image_dims(*old(image)).1,
    ensures
        rgba_image_dims(*final(image)) == rgba_image_dims(*old(image)),
        rgba_image_pixels(*final(image)) == rgba_image_pixels(*old(image)).insert((x, y), pixel),
{
    image.image.put_pixel(x, y, Rgba(pixel))
}

/// Truncates a source buffer to the dimensions of the target
///
/// Aligns the target so it copies the pixels in the center/middle of the source
pub fn truncate_centered(source: &PixelBuffer, target: &mut PixelBuffer)
    requires
        rgba_image_dims(*old(target)).0 <= rgba_image_dims(*source).0,
        rgba_image_dims(*old(target)).1 <= rgba_image_dims(*source).1,
    ensures
        rgba_image_dims(*final(target)) == rgba_image_dims(*old(target)),
        forall|x: u32, y: u32|
            #![trigger rgba_image_pixels(*final(target))[(x, y)]]
            {
                let (sw, sh) = rgba_image_dims(*source);
                let (tw, th) = rgba_image_dims(*old(target));
                rgba_image_pixels(*final(target))[(x, y)] == if x < tw && y < th {
                    rgba_image_pixels(*source)[(
                        (x + (sw / 2 - tw / 2)) as u32,
                        (y + (sh / 2 - th / 2)) as u32,
                    )]
                } else {
                    rgba_image_pixels(*old(target))[(x, y)]
                }
            },
{
    let source_width = image_width(source);
    let source_height = image_height(source);

    let target_width = image_width(target);
    let target_height = image_height(target);

    // The offset within the source to copy pixels from
    let offset_x = source_width / 2 - target_width / 2;
    let offset_y = source_height / 2 - target_height / 2;

    let ghost start = rgba_image_pixels(*target);
    let mut x: u32 = 0;
    while x < target_width
        invariant
            source_width == rgba_image_dims(*source).0,
            source_height == rgba_image_dims(*source).1,
            target_width <= source_width,
            target_height <= source_height,
            offset_x == source_width / 2 - target_width / 2,
            offset_y == source_height / 2 - target_height / 2,
            rgba_image_dims(*target) == (target_width, target_height),
            x <= target_width,
            forall|i: u32, j: u32|
                #![trigger rgba_image_pixels(*target)[(i, j)]]
                rgba_image_pixels(*target)[(i, j)] == if i < x && j < target_height {
                    rgba_image_pixels(*source)[((i + offset_x) as u32, (j + offset_y) as u32)]
                } else {
                    start[(i, j)]
                },
        decreases target_width - x,
    {
        let mut y: u32 = 0;
        while y < target_height
            invariant
                source_width == rgba_image_dims(*source).0,
                source_height == rgba_image_dims(*source).1,
                target_width <= source_width,
                target_height <= source_height,
                offset_x == source_width / 2 - target_width / 2,
                offset_y == source_height / 2 - target_height / 2,
                rgba_image_dims(*target) == (target_width, target_height),
                x < target_width,
                y <= target_height,
                forall|i: u32, j: u32|
                    #![trigger rgba_image_pixels(*target)[(i, j)]]
                    rgba_image_pixels(*target)[(i, j)] == if (i < x && j < target_height) || (i == x
                        && j < y) {
                        rgba_image_pixels(*source)[((i + offset_x) as u32, (j + offset_y) as u32)]
                    } else {
                        start[(i, j)]
                    },
            decreases target_height - y,
        {
            let source_x = x + offset_x;
            let source_y = y + offset_y;
            let pixel = image_get_pixel(source, source_x, source_y);

            image_put_pixel(target, x, y, pixel);
            y += 1;
        }
        x += 1;
    }
}

/// The source pixel that nearest-neighbour scaling by whole factors puts at (x, y) of the
/// target: the one whose scaled box covers (x, y)
pub open spec fn scaled_source_pixel(
    source: PixelBuffer,
    scale_x: u32,
    scale_y: u32,
    x: u32,
    y: u32,
) -> [u8; 4] {
    rgba_image_pixels(source)[(x / scale_x, y / scale_y)]
}

/// Scales the given source image to fit into the target image.
///
/// The target image dimensions must be a multiple of the source image dimensions. No interpolation
/// is performed during the scaling operation.
pub fn scale(source: &PixelBuffer, target: &mut PixelBuffer)
    requires
        rgba_image_dims(*source).0 > 0,
        rgba_image_dims(*source).1 > 0,
        rgba_image_dims(*old(target)).0 % rgba_image_dims(*source).0 == 0,
        rgba_image_dims(*old(target)).1 % rgba_image_dims(*source).1 == 0,
    ensures
        rgba_image_dims(*final(target)) == rgba_image_dims(*old(target)),
        forall|x: u32, y: u32|
            #![trigger rgba_image_pixels(*final(target))[(x, y)]]
            {
                let (sw, sh) = rgba_image_dims(*source);
                let (tw, th) = rgba_image_dims(*old(target));
                rgba_image_pixels(*final(target))[(x, y)] == if x < tw && y < th {
                    scaled_source_pixel(*source, tw / sw, th / sh, x, y)
                } else {
                    rgba_image_pixels(*old(target))[(x, y)]
                }
            },
{
    let source_width = image_width(source);
    let source_height = image_height(source);

    let target_width = image_width(target);
    let target_height = image_height(target);

    let scale_x = target_width / source_width;
    let scale_y = target_height / source_height;

    // The dimensions are whole multiples of each other, so the division does not truncate
    proof {
        vstd::arithmetic::div_mod::lemma_fundamental_div_mod(
            target_width as int,
            source_width as int,
        );
        vstd::arithmetic::div_mod::lemma_fundamental_div_mod(
            target_height as int,
            source_height as int,
        );
        vstd::arithmetic::mul::lemma_mul_is_commutative(source_width as int, scale_x as int);
        vstd::arithmetic::mul::lemma_mul_is_commutative(source_height as int, scale_y as int);
    }
    assert(source_width * scale_x == target_width);
    assert(source_height * scale_y == target_height);

    let ghost start = rgba_image_pixels(*target);
    let ghost dims = rgba_image_dims(*target);
    let ghost src = *source;

    // Blit the pixels with no anti-aliasing
    let mut x: u32 = 0;
    while x < source_width
        invariant
            src == *source,
            source_width == rgba_image_dims(*source).0,
            source_height == rgba_image_dims(*source).1,
            dims == (target_width, target_height),
            rgba_image_dims(*target) == dims,
            source_width * scale_x == target_width,
            source_height * scale_y == target_height,
            x <= source_width,
            forall|a: u32, b: u32|
                #![trigger rgba_image_pixels(*target)[(a, b)]]
                rgba_image_pixels(*target)[(a, b)] == if a < x * scale_x && b < target_height {
                    scaled_source_pixel(src, scale_x, scale_y, a, b)
                } else {
                    start[(a, b)]
                },
        decreases source_width - x,
    {
        assert(x * scale_x + scale_x <= target_width) by (nonlinear_arith)
            requires
                x < source_width,
                source_width * scale_x == target_width,
        ;
        let base_x = x * scale_x;
        let mut y: u32 = 0;
        while y < source_height
            invariant
                src == *source,
                source_width == rgba_image_dims(*source).0,
                source_height == rgba_image_dims(*source).1,
                dims == (target_width, target_height),
                rgba_image_dims(*target) == dims,
                source_width * scale_x == target_width,
                source_height * scale_y == target_height,
                x < source_width,
                base_x == x * scale_x,
                base_x + scale_x <= target_width,
                y <= source_height,
                forall|a: u32, b: u32|
                    #![trigger rgba_image_pixels(*target)[(a, b)]]
                    rgba_image_pixels(*target)[(a, b)] == if (a < base_x && b < target_height)
                        || (base_x <= a < base_x + scale_x && b < y * scale_y) {
                        scaled_source_pixel(src, scale_x, scale_y, a, b)
                    } else {
                        start[(a, b)]
                    },
            decreases source_height - y,
        {
            assert(y * scale_y + scale_y <= target_height) by (nonlinear_arith)
                requires
                    y < source_height,
                    source_height * scale_y == target_height,
            ;
            let base_y = y * scale_y;
            let pixel = image_get_pixel(source, x, y);

            // Copy the color to every pixel in the scaled box
            let mut i: u32 = 0;
            while i < scale_x
                invariant
                    src == *source,
                    source_width == rgba_image_dims(*source).0,
                    source_height == rgba_image_dims(*source).1,
                    dims == (target_width, target_height),
                    rgba_image_dims(*target) == dims,
                    x < source_width,
                    y < source_height,
                    base_x == x * scale_x,
                    base_y == y * scale_y,
                    base_x + scale_x <= target_width,
                    base_y + scale_y <= target_height,
                    pixel == rgba_image_pixels(src)[(x, y)],
                    i <= scale_x,
                    forall|a: u32, b: u32|
                        #![trigger rgba_image_pixels(*target)[(a, b)]]
                        rgba_image_pixels(*target)[(a, b)] == if (a < base_x && b < target_height)
                            || (base_x <= a < base_x + scale_x && b < base_y) || (base_x <= a
                            < base_x + i && base_y <= b < base_y + scale_y) {
                            scaled_source_pixel(src, scale_x, scale_y, a, b)
                        } else {
                            start[(a, b)]
                        },
                decreases scale_x - i,
            {
                let mut j: u32 = 0;
                while j < scale_y
                    invariant
                        src == *source,
                        dims == (target_width, target_height),
                        rgba_image_dims(*target) == dims,
                        x < source_width,
                        y < source_height,
                        base_x == x * scale_x,
                        base_y == y * scale_y,
                        base_x + scale_x <= target_width,
                        base_y + scale_y <= target_height,
                        pixel == rgba_image_pixels(src)[(x, y)],
                        i < scale_x,
                        j <= scale_y,
                        forall|a: u32, b: u32|
                            #![trigger rgba_image_pixels(*target)[(a, b)]]
                            rgba_image_pixels(*target)[(a, b)] == if (a < base_x && b
                                < target_height) || (base_x <= a < base_x + scale_x && b < base_y)
                                || (base_x <= a < base_x + i && base_y <= b < base_y + scale_y)
                                || (a == base_x + i && base_y <= b < base_y + j) {
                                scaled_source_pixel(src, scale_x, scale_y, a, b)
                            } else {
                                start[(a, b)]
                            },
                    decreases scale_y - j,
                {
                    let sx = base_x + i;
                    let sy = base_y + j;
                    proof {
                        vstd::arithmetic::div_mod::lemma_fundamental_div_mod_converse(
                            sx as int,
                            scale_x as int,
                            x as int,
                            i as int,
                        );
                        vstd::arithmetic::div_mod::lemma_fundamental_div_mod_converse(
                            sy as int,
                            scale_y as int,
                            y as int,
                            j as int,
                        );
                    }
                    assert(scaled_source_pixel(src, scale_x, scale_y, sx, sy) == pixel);
                    image_put_pixel(target, sx, sy, pixel);
                    j += 1;
                }
                i += 1;
            }
            assert((y + 1) * scale_y == base_y + scale_y) by (nonlinear_arith)
                requires
                    base_y == y * scale_y,
            ;
            y += 1;
        }
        assert(source_height * scale_y == target_height);
        assert((x + 1) * scale_x == base_x + scale_x) by (nonlinear_arith)
            requires
                base_x == x * scale_x,
        ;
        x += 1;
    }
    assert(x * scale_x == target_width);
}

/// Copy the entire source buffer into the given target buffer starting at the given offset.
pub fn copy(source: &PixelBuffer, target: &mut PixelBuffer, offset: (u32, u32))
    requires
        offset.0 + rgba_image_dims(*source).0 <= rgba_image_dims(*old(target)).0,
        offset.1 + rgba_image_dims(*source).1 <= rgba_image_dims(*old(target)).1,
    ensures
        rgba_image_dims(*final(target)) == rgba_image_dims(*old(target)),
        forall|x: u32, y: u32|
            #![trigger rgba_image_pixels(*final(target))[(x, y)]]
            {
                let (sw, sh) = rgba_image_dims(*source);
                rgba_image_pixels(*final(target))[(x, y)] == if offset.0 <= x < offset.0 + sw
                    && offset.1 <= y < offset.1 + sh {
                    rgba_image_pixels(*source)[((x - offset.0) as u32, (y - offset.1) as u32)]
                } else {
                    rgba_image_pixels(*old(target))[(x, y)]
                }
            },
{
    let (offset_x, offset_y) = offset;
    let source_width = image_width(source);
    let source_height = image_height(source);

    let ghost start = rgba_image_pixels(*target);
    let ghost target_dims = rgba_image_dims(*target);
    let mut x: u32 = 0;
    while x < source_width
        invariant
            source_width == rgba_image_dims(*source).0,
            source_height == rgba_image_dims(*source).1,
            offset_x + source_width <= target_dims.0,
            offset_y + source_height <= target_dims.1,
            rgba_image_dims(*target) == target_dims,
            x <= source_width,
            forall|i: u32, j: u32|
                #![trigger rgba_image_pixels(*target)[(i, j)]]
                rgba_image_pixels(*target)[(i, j)] == if offset_x <= i < offset_x + x && offset_y
                    <= j < offset_y + source_height {
                    rgba_image_pixels(*source)[((i - offset_x) as u32, (j - offset_y) as u32)]
                } else {
                    start[(i, j)]
                },
        decreases source_width - x,
    {
        let mut y: u32 = 0;
        while y < source_height
            invariant
                source_width == rgba_image_dims(*source).0,
                source_height == rgba_image_dims(*source).1,
                offset_x + source_width <= target_dims.0,
                offset_y + source_height <= target_dims.1,
                rgba_image_dims(*target) == target_dims,
                x < source_width,
                y <= source_height,
                forall|i: u32, j: u32|
                    #![trigger rgba_image_pixels(*target)[(i, j)]]
                    rgba_image_pixels(*target)[(i, j)] == if (offset_x <= i < offset_x + x && offset_y
                        <= j < offset_y + source_height) || (i == offset_x + x && offset_y <= j
                        < offset_y + y) {
                        rgba_image_pixels(*source)[((i - offset_x) as u32, (j - offset_y) as u32)]
                    } else {
                        start[(i, j)]
                    },
            decreases source_height - y,
        {
            let pixel = image_get_pixel(source, x, y);

            // Copy the color to the pixel at the same position relative to the offset
            let cx = x + offset_x;
            let cy = y + offset_y;
            image_put_pixel(target, cx, cy, pixel);
            y += 1;
        }
        x += 1;
    }
}

} // verus!
