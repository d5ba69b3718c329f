//! Error diffusion in raster order: Floyd-Steinberg and Atkinson dithering.
//!
//! Both go through the samples of the image from the first to the last. Each
//! sample turns black or white, and what it was brighter or darker than that,
//! its quantization error, is passed on in shares to samples after it. A
//! share may be negative: a pixel that turns white darkens its neighbours. A
//! sample that a share would carry below black or above white stays at black
//! or white.

use super::laws::{
    lemma_atkinson_gives_black_and_white, lemma_floyd_steinberg_gives_black_and_white,
};
use super::{
    all_pixels_binary, all_samples_binary, lemma_binary_samples_are_binary_pixels, quantize,
    quantized, BLACK, WHITE,
};
use crate::plotting::luma::{
    image_height, image_samples, image_width, sample, sample_count, set_sample, Luma16Image,
};
use vstd::prelude::*;

verus! {

/// The quantization error of a pixel of brightness `value`: what it is
/// brighter than the black or white that it turns to. It is negative for a
/// pixel that turns white.
pub open spec fn quantization_error(value: u16) -> int {
    value - quantized(value as int)
}

/// `count` parts of `error` where `parts` make the whole, rounded to the
/// nearest whole number, and away from zero where two are as near.
pub open spec fn rounded_parts(error: int, count: int, parts: int) -> int {
    if error < 0 {
        -((2 * (-error * count) + parts) / (2 * parts))
    } else {
        (2 * (error * count) + parts) / (2 * parts)
    }
}

/// A brightness as a sample: black for what lies below black, white for what
/// lies above white.
pub open spec fn clamped(brightness: int) -> u16 {
    if brightness < BLACK {
        BLACK
    } else if brightness > WHITE {
        WHITE
    } else {
        brightness as u16
    }
}

/// The samples after `share` is added to the one at `at`, which stays within
/// black and white; unchanged where `at` lies outside them.
pub open spec fn diffused(samples: Seq<u16>, at: int, share: int) -> Seq<u16> {
    if 0 <= at < samples.len() {
        samples.update(at, clamped(samples[at] + share))
    } else {
        samples
    }
}

/// The quantization error of a pixel of brightness `value`.
pub fn quantization_error_of(value: u16) -> (error: i32)
    ensures
        error == quantization_error(value),
        -0x7FFF <= error <= 0x7FFF,
{
    value as i32 - quantize(value as i64) as i32
}

/// `count` parts of `error` where `parts` make the whole, rounded to the
/// nearest whole number, and away from zero where two are as near.
fn rounded_parts_of(error: i32, count: i32, parts: i32) -> (share: i32)
    requires
        -0x7FFF <= error <= 0x7FFF,
        1 <= count <= parts <= 16,
    ensures
        share == rounded_parts(error as int, count as int, parts as int),
        -0x7FFF <= share <= 0x7FFF,
{
    let size = if error < 0 {
        -error
    } else {
        error
    };
    assert(0 <= size * count <= 0x7FFF * 16) by (nonlinear_arith)
        requires
            0 <= size <= 0x7FFF,
            1 <= count <= 16,
    ;
    assert(size * count <= size * parts) by (nonlinear_arith)
        requires
            0 <= size,
            count <= parts,
    ;
    let whole = (2 * (size * count) + parts) / (2 * parts);
    assert(whole <= size) by (nonlinear_arith)
        requires
            whole == (2 * (size * count) + parts) / (2 * parts),
            size * count <= size * parts,
            0 <= size,
            1 <= parts,
    ;
    if error < 0 {
        -whole
    } else {
        whole
    }
}

/// Adds `share` to the sample that lies `offset` places after `i`, where
/// there is one.
fn diffuse(img: &mut Luma16Image, i: usize, offset: u64, share: i32)
    requires
        i < image_samples(*old(img)).len(),
        -0x7FFF <= share <= 0x7FFF,
    ensures
        image_samples(*final(img)) == diffused(image_samples(*old(img)), i + offset, share as int),
        image_width(*final(img)) == image_width(*old(img)),
        image_height(*final(img)) == image_height(*old(img)),
{
    let n = sample_count(img);
    if offset < (n - i) as u64 {
        let at = i + offset as usize;
        let sum = sample(img, at) as i32 + share;
        let value = if sum < 0 {
            BLACK
        } else if sum > 0xFFFF {
            WHITE
        } else {
            sum as u16
        };
        set_sample(img, at, value);
    }
}

/// What a pixel of brightness `value` passes on to a neighbour of the given
/// weight under Floyd-Steinberg: `weight` sixteenths of its quantization
/// error, rounded.
pub open spec fn floyd_steinberg_share(value: u16, weight: int) -> int {
    rounded_parts(quantization_error(value), weight, 16)
}

/// One step of Floyd-Steinberg: the sample at `i` passes 7, 3, 5 and 1
/// sixteenths of its quantization error on to the samples 1, `width - 1`,
/// `width` and `width + 1` places after it (in an image: to the right, below
/// left, below and below right), in this order, and then turns black or
/// white.
pub open spec fn floyd_steinberg_step(samples: Seq<u16>, width: nat, i: int) -> Seq<u16> {
    let value = samples[i];
    let s1 = diffused(samples, i + 1, floyd_steinberg_share(value, 7));
    let s2 = diffused(s1, i + width - 1, floyd_steinberg_share(value, 3));
    let s3 = diffused(s2, i + width, floyd_steinberg_share(value, 5));
    let s4 = diffused(s3, i + width + 1, floyd_steinberg_share(value, 1));
    s4.update(i, quantized(value as int))
}

/// The samples after the first `n` steps of Floyd-Steinberg.
pub open spec fn floyd_steinberg_upto(samples: Seq<u16>, width: nat, n: nat) -> Seq<u16>
    decreases n,
{
    if n == 0 {
        samples
    } else {
        floyd_steinberg_step(floyd_steinberg_upto(samples, width, (n - 1) as nat), width, n - 1)
    }
}

/// The samples after Floyd-Steinberg dithering: one step for each sample,
/// from the first to the last. An image without columns is left as it is.
pub open spec fn floyd_steinberg_image(samples: Seq<u16>, width: nat) -> Seq<u16> {
    if width == 0 {
        samples
    } else {
        floyd_steinberg_upto(samples, width, samples.len())
    }
}

/// `weight` sixteenths of the quantization error of a pixel of brightness
/// `value`, rounded.
pub fn floyd_steinberg_share_of(value: u16, weight: u32) -> (share: i32)
    requires
        1 <= weight <= 7,
    ensures
        share == floyd_steinberg_share(value, weight as int),
        -0x7FFF <= share <= 0x7FFF,
{
    rounded_parts_of(quantization_error_of(value), weight as i32, 16)
}

/// Floyd-Steinberg dithering: error diffusion in raster order over the
/// samples of the image. Every sample ends black or white.
pub fn floyd_steinberg(img: &mut Luma16Image)
    ensures
        image_width(*final(img)) == image_width(*old(img)),
        image_height(*final(img)) == image_height(*old(img)),
        image_samples(*final(img)) == floyd_steinberg_image(
            image_samples(*old(img)),
            image_width(*old(img)),
        ),
        image_samples(*final(img)).len() == image_samples(*old(img)).len(),
        image_width(*old(img)) > 0 ==> all_samples_binary(image_samples(*final(img))),
        all_pixels_binary(
            image_samples(*final(img)),
            image_width(*old(img)),
            image_height(*old(img)),
        ),
{
    let width = img.width() as u64;
    let n = sample_count(img);
    if width == 0 {
        return ;
    }
    let mut i: usize = 0;
    while i < n
        invariant
            i <= n,
            width == image_width(*old(img)),
            0 < width <= u32::MAX,
            image_width(*img) == image_width(*old(img)),
            image_height(*img) == image_height(*old(img)),
            n == image_samples(*old(img)).len(),
            n == image_samples(*img).len(),
            image_samples(*img) == floyd_steinberg_upto(
                image_samples(*old(img)),
                width as nat,
                i as nat,
            ),
        decreases n - i,
    {
        let value = sample(img, i);
        diffuse(img, i, 1, floyd_steinberg_share_of(value, 7));
        diffuse(img, i, width - 1, floyd_steinberg_share_of(value, 3));
        diffuse(img, i, width, floyd_steinberg_share_of(value, 5));
        diffuse(img, i, width + 1, floyd_steinberg_share_of(value, 1));
        set_sample(img, i, quantize(value as i64));
        i += 1;
    }
    proof {
        lemma_floyd_steinberg_gives_black_and_white(image_samples(*old(img)), width as nat);
        lemma_binary_samples_are_binary_pixels(
            image_samples(*img),
            image_width(*img),
            image_height(*img),
        );
    }
}

/// What a pixel of brightness `value` passes on to each of its neighbours
/// under Atkinson: an eighth of its quantization error, rounded.
pub open spec fn atkinson_share(value: u16) -> int {
    rounded_parts(quantization_error(value), 1, 8)
}

/// One step of Atkinson: the sample at `i` passes an eighth of its
/// quantization error on to each of the samples 1, 2, `width - 1`, `width`,
/// `width + 1` and `2 * width` places after it, in this order, and then turns
/// black or white. Six eighths of the error are passed on in all; the other
/// two are dropped.
pub open spec fn atkinson_step(samples: Seq<u16>, width: nat, i: int) -> Seq<u16> {
    let value = samples[i];
    let share = atkinson_share(value);
    let s1 = diffused(samples, i + 1, share);
    let s2 = diffused(s1, i + 2, share);
    let s3 = diffused(s2, i + width - 1, share);
    let s4 = diffused(s3, i + width, share);
    let s5 = diffused(s4, i + width + 1, share);
    let s6 = diffused(s5, i + 2 * width, share);
    s6.update(i, quantized(value as int))
}

/// The samples after the first `n` steps of Atkinson.
pub open spec fn atkinson_upto(samples: Seq<u16>, width: nat, n: nat) -> Seq<u16>
    decreases n,
{
    if n == 0 {
        samples
    } else {
        atkinson_step(atkinson_upto(samples, width, (n - 1) as nat), width, n - 1)
    }
}

/// The samples after Atkinson dithering: one step for each sample, from the
/// first to the last. An image without columns is left as it is.
pub open spec fn atkinson_image(samples: Seq<u16>, width: nat) -> Seq<u16> {
    if width == 0 {
        samples
    } else {
        atkinson_upto(samples, width, samples.len())
    }
}

/// An eighth of the quantization error of a pixel of brightness `value`,
/// rounded.
pub fn atkinson_share_of(value: u16) -> (share: i32)
    ensures
        share == atkinson_share(value),
        -0x7FFF <= share <= 0x7FFF,
{
    rounded_parts_of(quantization_error_of(value), 1, 8)
}

/// Atkinson dithering: error diffusion in raster order over the samples of
/// the image, which passes on six eighths of a pixel's quantization error.
/// Every sample ends black or white.
pub fn atkinson(img: &mut Luma16Image)
    ensures
        image_width(*final(img)) == image_width(*old(img)),
        image_height(*final(img)) == image_height(*old(img)),
        image_samples(*final(img)) == atkinson_image(
            image_samples(*old(img)),
            image_width(*old(img)),
        ),
        image_samples(*final(img)).len() == image_samples(*old(img)).len(),
        image_width(*old(img)) > 0 ==> all_samples_binary(image_samples(*final(img))),
        all_pixels_binary(
            image_samples(*final(img)),
            image_width(*old(img)),
            image_height(*old(img)),
        ),
{
    let width = img.width() as u64;
    let n = sample_count(img);
    if width == 0 {
        return ;
    }
    let mut i: usize = 0;
    while i < n
        invariant
            i <= n,
            width == image_width(*old(img)),
            0 < width <= u32::MAX,
            image_width(*img) == image_width(*old(img)),
            image_height(*img) == image_height(*old(img)),
            n == image_samples(*old(img)).len(),
            n == image_samples(*img).len(),
            image_samples(*img) == atkinson_upto(image_samples(*old(img)), width as nat, i as nat),
        decreases n - i,
    {
        let value = sample(img, i);
        let share = atkinson_share_of(value);
        diffuse(img, i, 1, share);
        diffuse(img, i, 2, share);
        diffuse(img, i, width - 1, share);
        diffuse(img, i, width, share);
        diffuse(img, i, width + 1, share);
        diffuse(img, i, 2 * width, share);
        set_sample(img, i, quantize(value as i64));
        i += 1;
    }
    proof {
        lemma_atkinson_gives_black_and_white(image_samples(*old(img)), width as nat);
        lemma_binary_samples_are_binary_pixels(
            image_samples(*img),
            image_width(*img),
            image_height(*img),
        );
    }
}

} // verus!
