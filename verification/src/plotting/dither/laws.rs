//! What holds of the algorithms that diffuse errors: they leave every pixel
//! black or white, and they leave a black-and-white image as it is, so that
//! dithering twice gives what dithering once gives.

use super::error_diffusion::{
    atkinson_image, atkinson_share, atkinson_step, atkinson_upto, diffused,
    floyd_steinberg_image, floyd_steinberg_share, floyd_steinberg_step, floyd_steinberg_upto,
    quantization_error,
};
use super::riemersma::{
    adjustment_upto, error_weight, riemersma_image, riemersma_step, riemersma_upto,
    weighted_error, RiemersmaState, HISTORY_LENGTH,
};
use super::{all_pixels_binary, all_samples_binary, is_binary};
use crate::plotting::gilbert::gilbert_cell;
use crate::plotting::gilbert_laws::{
    lemma_gilbert_in_grid, lemma_gilbert_no_repeat, lemma_gilbert_reached,
};
use crate::plotting::luma::{
    lemma_pixel_index_in_image, lemma_write_pixel, pixel_at, pixel_index,
};
use vstd::prelude::*;

verus! {

/// Under Floyd-Steinberg a neighbour of weight `weight` receives `weight`
/// sixteenths of the quantization error, to within half a unit, and the four
/// neighbours together receive the whole error, to within two units.
pub proof fn lemma_floyd_steinberg_shares_are_sixteenths(value: u16, weight: int)
    requires
        1 <= weight <= 7,
    ensures
        -8 <= 16 * floyd_steinberg_share(value, weight) - weight * quantization_error(value) <= 8,
        -2 <= floyd_steinberg_share(value, 7) + floyd_steinberg_share(value, 3)
            + floyd_steinberg_share(value, 5) + floyd_steinberg_share(value, 1)
            - quantization_error(value) <= 2,
{
    let error = quantization_error(value);
    assert(error * 7 == 7 * error && error * 3 == 3 * error && error * 5 == 5 * error && error
        * 1 == error && error * weight == weight * error) by (nonlinear_arith);
    assert(-error * 7 == -(7 * error) && -error * 3 == -(3 * error) && -error * 5 == -(5 * error)
        && -error * 1 == -error && -error * weight == -(weight * error)) by (nonlinear_arith);
}

/// Under Atkinson each neighbour receives an eighth of the quantization
/// error, to within half a unit, so that the six neighbours together receive
/// six eighths of it, to within three units, and two eighths are dropped.
pub proof fn lemma_atkinson_shares_are_eighths(value: u16)
    ensures
        -4 <= 8 * atkinson_share(value) - quantization_error(value) <= 4,
        -12 <= 4 * (6 * atkinson_share(value)) - 3 * quantization_error(value) <= 12,
{
    let error = quantization_error(value);
    assert(error * 1 == error && -error * 1 == -error) by (nonlinear_arith);
}

/// The first `n` steps of Floyd-Steinberg leave the first `n` samples black
/// or white, and as many samples as there were.
proof fn lemma_floyd_steinberg_upto_binary(samples: Seq<u16>, width: nat, n: nat)
    requires
        width > 0,
        n <= samples.len(),
    ensures
        floyd_steinberg_upto(samples, width, n).len() == samples.len(),
        forall|j: int|
            0 <= j < n ==> is_binary(#[trigger] floyd_steinberg_upto(samples, width, n)[j]),
    decreases n,
{
    if n > 0 {
        lemma_floyd_steinberg_upto_binary(samples, width, (n - 1) as nat);
    }
}

/// Floyd-Steinberg dithering leaves every sample black or white.
pub proof fn lemma_floyd_steinberg_gives_black_and_white(samples: Seq<u16>, width: nat)
    requires
        width > 0,
    ensures
        floyd_steinberg_image(samples, width).len() == samples.len(),
        all_samples_binary(floyd_steinberg_image(samples, width)),
{
    lemma_floyd_steinberg_upto_binary(samples, width, samples.len());
}

/// The first `n` steps of Atkinson leave the first `n` samples black or
/// white, and as many samples as there were.
proof fn lemma_atkinson_upto_binary(samples: Seq<u16>, width: nat, n: nat)
    requires
        width > 0,
        n <= samples.len(),
    ensures
        atkinson_upto(samples, width, n).len() == samples.len(),
        forall|j: int| 0 <= j < n ==> is_binary(#[trigger] atkinson_upto(samples, width, n)[j]),
    decreases n,
{
    if n > 0 {
        lemma_atkinson_upto_binary(samples, width, (n - 1) as nat);
    }
}

/// Atkinson dithering leaves every sample black or white.
pub proof fn lemma_atkinson_gives_black_and_white(samples: Seq<u16>, width: nat)
    requires
        width > 0,
    ensures
        atkinson_image(samples, width).len() == samples.len(),
        all_samples_binary(atkinson_image(samples, width)),
{
    lemma_atkinson_upto_binary(samples, width, samples.len());
}

/// The first `n` steps of Riemersma leave the pixels that the curve has
/// visited in them black or white, as many samples as there were, a history
/// of 32 errors, and what the buffer holds after the image as it was.
proof fn lemma_riemersma_upto_binary(samples: Seq<u16>, width: nat, height: nat, n: nat)
    requires
        width * height <= samples.len(),
        n <= width * height,
    ensures
        ({
            let state = riemersma_upto(samples, width, height, n);
            &&& state.samples.len() == samples.len()
            &&& state.history.len() == HISTORY_LENGTH
            &&& forall|k: int|
                0 <= k < n ==> is_binary(
                    pixel_at(
                        state.samples,
                        width,
                        (#[trigger] gilbert_cell(k, width as int, height as int)).0,
                        gilbert_cell(k, width as int, height as int).1,
                    ),
                )
            &&& forall|i: int|
                width * height <= i < samples.len() ==> #[trigger] state.samples[i] == samples[i]
        }),
    decreases n,
{
    if n > 0 {
        let before = riemersma_upto(samples, width, height, (n - 1) as nat);
        let after = riemersma_step(before, width, height, n - 1);
        lemma_riemersma_upto_binary(samples, width, height, (n - 1) as nat);
        assert(width > 0 && height > 0) by (nonlinear_arith)
            requires
                0 < n <= width * height,
        ;
        let cell = gilbert_cell(n - 1, width as int, height as int);
        lemma_gilbert_in_grid(n - 1, width as int, height as int);
        lemma_write_pixel(
            before.samples,
            width,
            height,
            cell.0,
            cell.1,
            after.samples[pixel_index(width, cell.0, cell.1)],
        );
        lemma_pixel_index_in_image(width, height, cell.0, cell.1);
        assert forall|k: int| 0 <= k < n implies is_binary(
            pixel_at(
                after.samples,
                width,
                (#[trigger] gilbert_cell(k, width as int, height as int)).0,
                gilbert_cell(k, width as int, height as int).1,
            ),
        ) by {
            if k < n - 1 {
                lemma_gilbert_in_grid(k, width as int, height as int);
                lemma_gilbert_no_repeat(k, n - 1, width as int, height as int);
            }
        }
    }
}

/// Riemersma dithering leaves every pixel black or white, and what the
/// buffer holds after the image as it was.
pub proof fn lemma_riemersma_gives_black_and_white(samples: Seq<u16>, width: nat, height: nat)
    requires
        width * height <= samples.len(),
    ensures
        riemersma_image(samples, width, height).len() == samples.len(),
        all_pixels_binary(riemersma_image(samples, width, height), width, height),
        forall|i: int|
            width * height <= i < samples.len() ==> #[trigger] riemersma_image(
                samples,
                width,
                height,
            )[i] == samples[i],
{
    lemma_riemersma_upto_binary(samples, width, height, width * height);
    assert forall|x: int, y: int| 0 <= x < width && 0 <= y < height implies is_binary(
        #[trigger] pixel_at(riemersma_image(samples, width, height), width, x, y),
    ) by {
        let k = lemma_gilbert_reached(x, y, width as int, height as int);
        assert(gilbert_cell(k, width as int, height as int) == (x, y));
    }
}

/// Passing nothing on leaves the samples as they are.
proof fn lemma_nothing_diffused(samples: Seq<u16>, at: int)
    ensures
        diffused(samples, at, 0) == samples,
{
    assert(diffused(samples, at, 0) =~= samples);
}

/// A step of Floyd-Steinberg leaves black-and-white samples as they are.
proof fn lemma_floyd_steinberg_step_keeps(samples: Seq<u16>, width: nat, i: int)
    requires
        all_samples_binary(samples),
        0 <= i < samples.len(),
    ensures
        floyd_steinberg_step(samples, width, i) =~= samples,
{
    lemma_nothing_diffused(samples, i + 1);
    lemma_nothing_diffused(samples, i + width - 1);
    lemma_nothing_diffused(samples, i + width);
    lemma_nothing_diffused(samples, i + width + 1);
}

/// Floyd-Steinberg dithering leaves an image of black and white samples as
/// it is.
pub proof fn lemma_floyd_steinberg_keeps_black_and_white(samples: Seq<u16>, width: nat)
    requires
        all_samples_binary(samples),
    ensures
        floyd_steinberg_image(samples, width) == samples,
{
    if width > 0 {
        lemma_floyd_steinberg_upto_keeps(samples, width, samples.len());
    }
}

/// The first steps of Floyd-Steinberg leave black-and-white samples as they
/// are.
proof fn lemma_floyd_steinberg_upto_keeps(samples: Seq<u16>, width: nat, n: nat)
    requires
        all_samples_binary(samples),
        n <= samples.len(),
    ensures
        floyd_steinberg_upto(samples, width, n) == samples,
    decreases n,
{
    if n > 0 {
        lemma_floyd_steinberg_upto_keeps(samples, width, (n - 1) as nat);
        lemma_floyd_steinberg_step_keeps(samples, width, n - 1);
    }
}

/// A step of Atkinson leaves black-and-white samples as they are.
proof fn lemma_atkinson_step_keeps(samples: Seq<u16>, width: nat, i: int)
    requires
        all_samples_binary(samples),
        0 <= i < samples.len(),
    ensures
        atkinson_step(samples, width, i) =~= samples,
{
    assert(atkinson_share(samples[i]) == 0);
    lemma_nothing_diffused(samples, i + 1);
    lemma_nothing_diffused(samples, i + 2);
    lemma_nothing_diffused(samples, i + width - 1);
    lemma_nothing_diffused(samples, i + width);
    lemma_nothing_diffused(samples, i + width + 1);
    lemma_nothing_diffused(samples, i + 2 * width);
}

/// The first steps of Atkinson leave black-and-white samples as they are.
proof fn lemma_atkinson_upto_keeps(samples: Seq<u16>, width: nat, n: nat)
    requires
        all_samples_binary(samples),
        n <= samples.len(),
    ensures
        atkinson_upto(samples, width, n) == samples,
    decreases n,
{
    if n > 0 {
        lemma_atkinson_upto_keeps(samples, width, (n - 1) as nat);
        lemma_atkinson_step_keeps(samples, width, n - 1);
    }
}

/// Atkinson dithering leaves an image of black and white samples as it is.
pub proof fn lemma_atkinson_keeps_black_and_white(samples: Seq<u16>, width: nat)
    requires
        all_samples_binary(samples),
    ensures
        atkinson_image(samples, width) == samples,
{
    if width > 0 {
        lemma_atkinson_upto_keeps(samples, width, samples.len());
    }
}

/// A history without errors adds nothing to the brightness of a pixel.
proof fn lemma_no_errors_no_adjustment(history: Seq<i32>, n: nat)
    requires
        n <= history.len(),
        forall|j: int| 0 <= j < history.len() ==> #[trigger] history[j] == 0,
    ensures
        adjustment_upto(history, n) == 0,
    decreases n,
{
    if n > 0 {
        lemma_no_errors_no_adjustment(history, (n - 1) as nat);
        assert(weighted_error(0, n - 1) == 0) by (nonlinear_arith)
            requires
                0 <= error_weight(n - 1),
        {
            assert(0 * error_weight(n - 1) == 0);
        }
    }
}

/// The first steps of Riemersma leave black-and-white pixels as they are,
/// and the history without errors.
proof fn lemma_riemersma_upto_keeps(samples: Seq<u16>, width: nat, height: nat, n: nat)
    requires
        width * height <= samples.len(),
        all_pixels_binary(samples, width, height),
        n <= width * height,
    ensures
        riemersma_upto(samples, width, height, n) == (RiemersmaState {
            samples,
            history: Seq::new(HISTORY_LENGTH as nat, |j: int| 0i32),
        }),
    decreases n,
{
    if n > 0 {
        let zeros = Seq::new(HISTORY_LENGTH as nat, |j: int| 0i32);
        let before = RiemersmaState { samples, history: zeros };
        lemma_riemersma_upto_keeps(samples, width, height, (n - 1) as nat);
        lemma_no_errors_no_adjustment(zeros, HISTORY_LENGTH as nat);
        assert(width > 0 && height > 0) by (nonlinear_arith)
            requires
                0 < n <= width * height,
        ;
        lemma_gilbert_in_grid(n - 1, width as int, height as int);
        let cell = gilbert_cell(n - 1, width as int, height as int);
        lemma_pixel_index_in_image(width, height, cell.0, cell.1);
        assert(is_binary(pixel_at(samples, width, cell.0, cell.1)));
        let after = riemersma_step(before, width, height, n - 1);
        assert(after.samples =~= samples);
        assert(after.history =~= zeros);
    }
}

/// Riemersma dithering leaves an image of black and white pixels as it is.
pub proof fn lemma_riemersma_keeps_black_and_white(samples: Seq<u16>, width: nat, height: nat)
    requires
        width * height <= samples.len(),
        all_pixels_binary(samples, width, height),
    ensures
        riemersma_image(samples, width, height) == samples,
{
    lemma_riemersma_upto_keeps(samples, width, height, width * height);
}

/// Floyd-Steinberg dithering twice gives what it gives once.
pub proof fn lemma_floyd_steinberg_twice(samples: Seq<u16>, width: nat)
    ensures
        floyd_steinberg_image(floyd_steinberg_image(samples, width), width)
            == floyd_steinberg_image(samples, width),
{
    if width > 0 {
        lemma_floyd_steinberg_gives_black_and_white(samples, width);
        lemma_floyd_steinberg_keeps_black_and_white(
            floyd_steinberg_image(samples, width),
            width,
        );
    }
}

/// Atkinson dithering twice gives what it gives once.
pub proof fn lemma_atkinson_twice(samples: Seq<u16>, width: nat)
    ensures
        atkinson_image(atkinson_image(samples, width), width) == atkinson_image(samples, width),
{
    if width > 0 {
        lemma_atkinson_gives_black_and_white(samples, width);
        lemma_atkinson_keeps_black_and_white(atkinson_image(samples, width), width);
    }
}

/// Riemersma dithering twice gives what it gives once.
pub proof fn lemma_riemersma_twice(samples: Seq<u16>, width: nat, height: nat)
    requires
        width * height <= samples.len(),
    ensures
        riemersma_image(riemersma_image(samples, width, height), width, height)
            == riemersma_image(samples, width, height),
{
    lemma_riemersma_gives_black_and_white(samples, width, height);
    lemma_riemersma_keeps_black_and_white(
        riemersma_image(samples, width, height),
        width,
        height,
    );
}

} // verus!
