//! Dithering pixel by pixel: against a tiled blue-noise mask, and after a
//! random offset.
//!
//! Each pixel is decided on its own, whatever becomes of the others.

use super::{all_pixels_binary, is_binary, quantize, quantized, BLACK, WHITE};
use crate::plotting::luma::{
    get_pixel, image_height, image_samples, image_width, lemma_write_pixel, pixel_at, put_pixel,
    sample_count, Luma16Image,
};
use vstd::prelude::*;

verus! {

/// The pixel `(x2, y2)` comes before the pixel `(x, y)` in raster order.
pub open spec fn comes_before(x2: int, y2: int, x: int, y: int) -> bool {
    y2 < y || (y2 == y && x2 < x)
}

/// White for a sample above the sample of the mask, black otherwise.
pub open spec fn mask_quantized(value: u16, mask_value: u16) -> u16 {
    if value > mask_value {
        WHITE
    } else {
        BLACK
    }
}

/// White for a sample above the sample of the mask, black otherwise.
pub fn mask_quantize(value: u16, mask_value: u16) -> (result: u16)
    ensures
        result == mask_quantized(value, mask_value),
        is_binary(result),
{
    if value > mask_value {
        WHITE
    } else {
        BLACK
    }
}

/// `after` is what thresholding against a tiled mask makes of `before`: the
/// pixel `(x, y)` is white where it was brighter than the pixel of the mask
/// at `(x, y)`, taken modulo the width and the height of the mask, and black
/// otherwise. What the buffer holds after the image is unchanged.
pub open spec fn is_masked_image(
    before: Seq<u16>,
    after: Seq<u16>,
    width: nat,
    height: nat,
    mask: Seq<u16>,
    mask_width: nat,
    mask_height: nat,
) -> bool {
    &&& after.len() == before.len()
    &&& forall|x: int, y: int|
        0 <= x < width && 0 <= y < height ==> #[trigger] pixel_at(after, width, x, y)
            == mask_quantized(
            pixel_at(before, width, x, y),
            pixel_at(mask, mask_width, x % (mask_width as int), y % (mask_height as int)),
        )
    &&& forall|i: int| width * height <= i < after.len() ==> #[trigger] after[i] == before[i]
}

/// Blue-noise dithering: every pixel is thresholded against the pixel of
/// `mask` at the same place, the mask being repeated over the image. Every
/// pixel ends black or white.
pub fn blue_noise(img: &mut Luma16Image, mask: &Luma16Image)
    requires
        image_width(*mask) > 0,
        image_height(*mask) > 0,
    ensures
        image_width(*final(img)) == image_width(*old(img)),
        image_height(*final(img)) == image_height(*old(img)),
        is_masked_image(
            image_samples(*old(img)),
            image_samples(*final(img)),
            image_width(*old(img)),
            image_height(*old(img)),
            image_samples(*mask),
            image_width(*mask),
            image_height(*mask),
        ),
        all_pixels_binary(
            image_samples(*final(img)),
            image_width(*old(img)),
            image_height(*old(img)),
        ),
{
    let width = img.width();
    let height = img.height();
    let mask_width = mask.width();
    let mask_height = mask.height();
    let n = sample_count(img);
    let mut y: u32 = 0;
    while y < height
        invariant
            y <= height,
            width == image_width(*old(img)),
            height == image_height(*old(img)),
            mask_width == image_width(*mask),
            mask_height == image_height(*mask),
            mask_width > 0,
            mask_height > 0,
            image_width(*img) == width,
            image_height(*img) == height,
            image_samples(*img).len() == n,
            image_samples(*old(img)).len() == n,
            width * height <= n,
            forall|x2: int, y2: int|
                0 <= x2 < width && 0 <= y2 < height ==> #[trigger] pixel_at(
                    image_samples(*img),
                    width as nat,
                    x2,
                    y2,
                ) == if y2 < y {
                    mask_quantized(
                        pixel_at(image_samples(*old(img)), width as nat, x2, y2),
                        pixel_at(
                            image_samples(*mask),
                            mask_width as nat,
                            x2 % (mask_width as int),
                            y2 % (mask_height as int),
                        ),
                    )
                } else {
                    pixel_at(image_samples(*old(img)), width as nat, x2, y2)
                },
            forall|i: int|
                width * height <= i < n ==> #[trigger] image_samples(*img)[i] == image_samples(
                    *old(img),
                )[i],
        decreases height - y,
    {
        let mut x: u32 = 0;
        while x < width
            invariant
                x <= width,
                y < height,
                width == image_width(*old(img)),
                height == image_height(*old(img)),
                mask_width == image_width(*mask),
                mask_height == image_height(*mask),
                mask_width > 0,
                mask_height > 0,
                image_width(*img) == width,
                image_height(*img) == height,
                image_samples(*img).len() == n,
                image_samples(*old(img)).len() == n,
                width * height <= n,
                forall|x2: int, y2: int|
                    0 <= x2 < width && 0 <= y2 < height ==> #[trigger] pixel_at(
                        image_samples(*img),
                        width as nat,
                        x2,
                        y2,
                    ) == if comes_before(x2, y2, x as int, y as int) {
                        mask_quantized(
                            pixel_at(image_samples(*old(img)), width as nat, x2, y2),
                            pixel_at(
                                image_samples(*mask),
                                mask_width as nat,
                                x2 % (mask_width as int),
                                y2 % (mask_height as int),
                            ),
                        )
                    } else {
                        pixel_at(image_samples(*old(img)), width as nat, x2, y2)
                    },
                forall|i: int|
                    width * height <= i < n ==> #[trigger] image_samples(*img)[i] == image_samples(
                        *old(img),
                    )[i],
            decreases width - x,
        {
            let mask_value = get_pixel(mask, x % mask_width, y % mask_height);
            let value = mask_quantize(get_pixel(img, x, y), mask_value);
            proof {
                lemma_write_pixel(
                    image_samples(*img),
                    width as nat,
                    height as nat,
                    x as int,
                    y as int,
                    value,
                );
            }
            put_pixel(img, x, y, value);
            x += 1;
        }
        y += 1;
    }
}

/// The generator of random numbers that `rand` keeps for each thread.
#[verifier::external_type_specification]
#[verifier::external_body]
pub struct ExThreadRng(rand::rngs::ThreadRng);

/// Wraps `rand::thread_rng`, which hands out the generator of the current
/// thread. Nothing is claimed of it. It panics where the system has no
/// randomness to seed the generator with.
#[verifier::external_body]
fn thread_rng() -> rand::rngs::ThreadRng {
    rand::thread_rng()
}

/// Wraps `Rng::gen` for `i16`, which draws a random number. Nothing is
/// claimed of the number drawn. It panics where the system has no randomness
/// left when the generator is due to be seeded anew.
#[verifier::external_body]
fn random_offset(rng: &mut rand::rngs::ThreadRng) -> i16 {
    rand::Rng::gen(rng)
}

/// White where the sample and the offset together lie above the middle of
/// the scale, black otherwise.
pub open spec fn random_quantized(value: u16, offset: i16) -> u16 {
    quantized(value + offset)
}

/// White where the sample and the offset together lie above the middle of
/// the scale, black otherwise.
pub fn random_quantize(value: u16, offset: i16) -> (result: u16)
    ensures
        result == random_quantized(value, offset),
        is_binary(result),
{
    quantize(value as i64 + offset as i64)
}

/// Some offset turns the sample `before` into the sample `after`.
pub open spec fn is_random_outcome(before: u16, after: u16) -> bool {
    exists|offset: i16| after == #[trigger] random_quantized(before, offset)
}

/// `after` is what random dithering can make of `before`: every pixel is
/// what `random_quantized` makes of it for some offset. What the buffer
/// holds after the image is unchanged.
pub open spec fn is_random_image(before: Seq<u16>, after: Seq<u16>, width: nat, height: nat) -> bool {
    &&& after.len() == before.len()
    &&& forall|x: int, y: int|
        0 <= x < width && 0 <= y < height ==> is_random_outcome(
            pixel_at(before, width, x, y),
            #[trigger] pixel_at(after, width, x, y),
        )
    &&& forall|i: int| width * height <= i < after.len() ==> #[trigger] after[i] == before[i]
}

/// Random dithering: every pixel is thresholded at the middle of the scale
/// after a random offset, drawn for it alone, is added to it. Every pixel
/// ends black or white. The offsets come from the generator that `rand`
/// keeps for the thread, which fails only where the system has no randomness
/// to seed it with.
pub fn random(img: &mut Luma16Image)
    ensures
        image_width(*final(img)) == image_width(*old(img)),
        image_height(*final(img)) == image_height(*old(img)),
        is_random_image(
            image_samples(*old(img)),
            image_samples(*final(img)),
            image_width(*old(img)),
            image_height(*old(img)),
        ),
        all_pixels_binary(
            image_samples(*final(img)),
            image_width(*old(img)),
            image_height(*old(img)),
        ),
{
    let width = img.width();
    let height = img.height();
    let n = sample_count(img);
    let mut rng = thread_rng();
    let mut y: u32 = 0;
    while y < height
        invariant
            y <= height,
            width == image_width(*old(img)),
            height == image_height(*old(img)),
            image_width(*img) == width,
            image_height(*img) == height,
            image_samples(*img).len() == n,
            image_samples(*old(img)).len() == n,
            width * height <= n,
            forall|x2: int, y2: int|
                0 <= x2 < width && 0 <= y2 < height ==> if y2 < y {
                    &&& is_random_outcome(
                        pixel_at(image_samples(*old(img)), width as nat, x2, y2),
                        #[trigger] pixel_at(image_samples(*img), width as nat, x2, y2),
                    )
                    &&& is_binary(pixel_at(image_samples(*img), width as nat, x2, y2))
                } else {
                    pixel_at(image_samples(*img), width as nat, x2, y2) == pixel_at(
                        image_samples(*old(img)),
                        width as nat,
                        x2,
                        y2,
                    )
                },
            forall|i: int|
                width * height <= i < n ==> #[trigger] image_samples(*img)[i] == image_samples(
                    *old(img),
                )[i],
        decreases height - y,
    {
        let mut x: u32 = 0;
        while x < width
            invariant
                x <= width,
                y < height,
                width == image_width(*old(img)),
                height == image_height(*old(img)),
                image_width(*img) == width,
                image_height(*img) == height,
                image_samples(*img).len() == n,
                image_samples(*old(img)).len() == n,
                width * height <= n,
                forall|x2: int, y2: int|
                    0 <= x2 < width && 0 <= y2 < height ==> if comes_before(
                        x2,
                        y2,
                        x as int,
                        y as int,
                    ) {
                        &&& is_random_outcome(
                            pixel_at(image_samples(*old(img)), width as nat, x2, y2),
                            #[trigger] pixel_at(image_samples(*img), width as nat, x2, y2),
                        )
                        &&& is_binary(pixel_at(image_samples(*img), width as nat, x2, y2))
                    } else {
                        pixel_at(image_samples(*img), width as nat, x2, y2) == pixel_at(
                            image_samples(*old(img)),
                            width as nat,
                            x2,
                            y2,
                        )
                    },
                forall|i: int|
                    width * height <= i < n ==> #[trigger] image_samples(*img)[i] == image_samples(
                        *old(img),
                    )[i],
            decreases width - x,
        {
            let offset = random_offset(&mut rng);
            let value = random_quantize(get_pixel(img, x, y), offset);
            proof {
                lemma_write_pixel(
                    image_samples(*img),
                    width as nat,
                    height as nat,
                    x as int,
                    y as int,
                    value,
                );
            }
            put_pixel(img, x, y, value);
            x += 1;
        }
        y += 1;
    }
}

} // verus!
