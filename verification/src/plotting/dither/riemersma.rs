//! Riemersma dithering: error diffusion along the generalized Hilbert curve.
//!
//! The pixels are visited in the order of the curve. Each is adjusted by the
//! errors of the 32 pixels visited before it, which count the less the
//! longer ago they were made.

use super::laws::lemma_riemersma_gives_black_and_white;
use super::{all_pixels_binary, quantize, quantized};
use crate::plotting::gilbert::{gilbert_cell, gilbert_d2xy, magnitude};
use crate::plotting::luma::{
    get_pixel, image_height, image_samples, image_width, lemma_write_pixel, pixel_index,
    put_pixel, sample_count, Luma16Image,
};
use vstd::prelude::*;

verus! {

/// The number of errors that Riemersma dithering carries along the curve.
pub const HISTORY_LENGTH: usize = 32;

/// The unit of the weights of the carried errors: a weight of this size
/// counts an error in full.
pub const WEIGHT_UNIT: u64 = 0x100_0000_0000;

/// The weights of the errors of the history, in units of `WEIGHT_UNIT`: a
/// quarter for the oldest error, at place 0, and from there a steady rise, by
/// the same factor from each place to the next, to the full weight of the
/// latest error, at place 31.
pub const ERROR_WEIGHTS: [u64; 32] = [
    274_877_906_944,
    287_449_213_883,
    300_595_458_837,
    314_342_936_107,
    328_719_142_540,
    343_752_832_528,
    359_474_075_523,
    375_914_316_175,
    393_106_437_230,
    411_084_825_297,
    429_885_439_629,
    449_545_884_044,
    470_105_482_138,
    491_605_355_938,
    514_088_508_153,
    537_599_908_185,
    562_186_582_070,
    587_897_706_543,
    614_784_707_394,
    642_901_362_327,
    672_303_908_524,
    703_051_155_127,
    735_204_600_863,
    768_828_557_053,
    803_990_276_239,
    840_760_086_702,
    879_211_533_127,
    919_421_523_702,
    961_470_483_946,
    1_005_442_517_570,
    1_051_425_574_698,
    1_099_511_627_776,
];

/// The weight of the error at place `j` of the history.
pub open spec fn error_weight(j: int) -> int {
    ERROR_WEIGHTS@[j] as int
}

/// The weight of the error at place `j` of the history.
fn error_weight_of(j: usize) -> (weight: u64)
    requires
        j < HISTORY_LENGTH,
    ensures
        weight == error_weight(j as int),
        weight <= WEIGHT_UNIT,
{
    ERROR_WEIGHTS[j]
}

/// The error at place `j` of the history by its weight, rounded to the
/// nearest whole, and away from zero where two are as near.
pub open spec fn weighted_error(error: int, j: int) -> int {
    let share = (magnitude(error) * error_weight(j) + WEIGHT_UNIT / 2) / (WEIGHT_UNIT as int);
    if error < 0 {
        -share
    } else {
        share
    }
}

/// The error at place `j` of the history by its weight.
pub fn weigh(error: i32, j: usize) -> (share: i64)
    requires
        j < HISTORY_LENGTH,
        -0xFFFF <= error <= 0xFFFF,
    ensures
        share == weighted_error(error as int, j as int),
        -0xFFFF <= share <= 0xFFFF,
{
    let weight = error_weight_of(j);
    let size: u64 = if error < 0 {
        (-error) as u64
    } else {
        error as u64
    };
    assert(size * weight <= 0xFFFF * 0x100_0000_0000) by (nonlinear_arith)
        requires
            size <= 0xFFFF,
            weight <= 0x100_0000_0000,
    ;
    let share = ((size * weight + WEIGHT_UNIT / 2) / WEIGHT_UNIT) as i64;
    if error < 0 {
        -share
    } else {
        share
    }
}

/// The weighted errors at the first `n` places of the history, added up.
pub open spec fn adjustment_upto(history: Seq<i32>, n: nat) -> int
    decreases n,
{
    if n == 0 {
        0
    } else {
        adjustment_upto(history, (n - 1) as nat) + weighted_error(history[n - 1] as int, n - 1)
    }
}

/// What the history of errors adds to the brightness of the next pixel: all
/// its weighted errors, added up.
pub open spec fn adjustment(history: Seq<i32>) -> int {
    adjustment_upto(history, history.len())
}

/// Every error of the history lies between minus white and white.
pub open spec fn errors_in_range(history: Seq<i32>) -> bool {
    forall|j: int| 0 <= j < history.len() ==> -0xFFFF <= #[trigger] history[j] <= 0xFFFF
}

/// What the history of errors adds to the brightness of the next pixel.
fn adjustment_of(errors: &Vec<i32>) -> (sum: i64)
    requires
        errors@.len() == HISTORY_LENGTH,
        errors_in_range(errors@),
    ensures
        sum == adjustment(errors@),
        -32 * 0xFFFF <= sum <= 32 * 0xFFFF,
{
    let mut sum: i64 = 0;
    let mut j: usize = 0;
    while j < HISTORY_LENGTH
        invariant
            j <= HISTORY_LENGTH,
            errors@.len() == HISTORY_LENGTH,
            errors_in_range(errors@),
            sum == adjustment_upto(errors@, j as nat),
            -j * 0xFFFF <= sum <= j * 0xFFFF,
        decreases HISTORY_LENGTH - j,
    {
        sum = sum + weigh(errors[j], j);
        j += 1;
    }
    sum
}

/// What Riemersma dithering has in hand between two pixels: the samples of
/// the image and the errors of the pixels last visited, the latest last.
pub struct RiemersmaState {
    pub samples: Seq<u16>,
    pub history: Seq<i32>,
}

/// One step of Riemersma: the pixel that the curve reaches after `k` steps
/// turns white where its brightness and the adjustment from the history lie
/// above the middle of the scale, and black otherwise. What its own
/// brightness differs from that by enters the history as the latest error,
/// and the oldest error leaves.
pub open spec fn riemersma_step(
    state: RiemersmaState,
    width: nat,
    height: nat,
    k: int,
) -> RiemersmaState {
    let cell = gilbert_cell(k, width as int, height as int);
    let at = pixel_index(width, cell.0, cell.1);
    let source = state.samples[at];
    let value = quantized(source + adjustment(state.history));
    RiemersmaState {
        samples: state.samples.update(at, value),
        history: state.history.drop_first().push((source - value) as i32),
    }
}

/// The samples and the history after the first `n` steps of Riemersma,
/// which starts with a history of 32 errors of zero.
pub open spec fn riemersma_upto(samples: Seq<u16>, width: nat, height: nat, n: nat) -> RiemersmaState
    decreases n,
{
    if n == 0 {
        RiemersmaState { samples, history: Seq::new(HISTORY_LENGTH as nat, |j: int| 0i32) }
    } else {
        riemersma_step(riemersma_upto(samples, width, height, (n - 1) as nat), width, height, n - 1)
    }
}

/// The samples after Riemersma dithering: one step for each pixel, along the
/// generalized Hilbert curve over the image.
pub open spec fn riemersma_image(samples: Seq<u16>, width: nat, height: nat) -> Seq<u16> {
    riemersma_upto(samples, width, height, width * height).samples
}

/// Riemersma dithering: error diffusion along the generalized Hilbert curve
/// over the image, where each pixel is adjusted by the weighted errors of
/// the 32 pixels before it on the curve. Every pixel ends black or white.
pub fn riemersma(img: &mut Luma16Image)
    requires
        image_width(*old(img)) * image_height(*old(img)) <= 0x1_0000_0000,
    ensures
        image_width(*final(img)) == image_width(*old(img)),
        image_height(*final(img)) == image_height(*old(img)),
        image_samples(*final(img)) == riemersma_image(
            image_samples(*old(img)),
            image_width(*old(img)),
            image_height(*old(img)),
        ),
        image_samples(*final(img)).len() == image_samples(*old(img)).len(),
        all_pixels_binary(
            image_samples(*final(img)),
            image_width(*old(img)),
            image_height(*old(img)),
        ),
{
    let width = img.width();
    let height = img.height();
    let n = sample_count(img);
    assert(width * height <= 0xFFFF_FFFF * 0xFFFF_FFFF) by (nonlinear_arith)
        requires
            width <= 0xFFFF_FFFF,
            height <= 0xFFFF_FFFF,
    ;
    let count = width as u64 * height as u64;
    let mut errors = vec![0_i32; HISTORY_LENGTH];
    assert(errors@ =~= riemersma_upto(
        image_samples(*img),
        width as nat,
        height as nat,
        0,
    ).history);
    let mut curve_idx: u64 = 0;
    while curve_idx < count
        invariant
            curve_idx <= count,
            count == width * height,
            count <= 0x1_0000_0000,
            width == image_width(*old(img)),
            height == image_height(*old(img)),
            image_width(*img) == width,
            image_height(*img) == height,
            image_samples(*img).len() == n,
            image_samples(*old(img)).len() == n,
            width * height <= n,
            errors@.len() == HISTORY_LENGTH,
            errors_in_range(errors@),
            image_samples(*img) == riemersma_upto(
                image_samples(*old(img)),
                width as nat,
                height as nat,
                curve_idx as nat,
            ).samples,
            errors@ == riemersma_upto(
                image_samples(*old(img)),
                width as nat,
                height as nat,
                curve_idx as nat,
            ).history,
        decreases count - curve_idx,
    {
        let (x, y) = gilbert_d2xy(curve_idx as u32, width, height);
        let adjust = adjustment_of(&errors);
        let source_pixel = get_pixel(img, x, y);
        let quantized_pixel = quantize(source_pixel as i64 + adjust);
        let error = source_pixel as i32 - quantized_pixel as i32;
        proof {
            lemma_write_pixel(
                image_samples(*img),
                width as nat,
                height as nat,
                x as int,
                y as int,
                quantized_pixel,
            );
            assert(errors@.push(error).remove(0) =~= errors@.drop_first().push(error));
        }
        errors.push(error);
        errors.remove(0);

        put_pixel(img, x, y, quantized_pixel);
        curve_idx += 1;
    }
    proof {
        lemma_riemersma_gives_black_and_white(
            image_samples(*old(img)),
            width as nat,
            height as nat,
        );
    }
}

} // verus!
