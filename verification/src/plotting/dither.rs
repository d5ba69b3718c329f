//! Dithering: reducing a grayscale image to black and white pixels.
//!
//! Five algorithms are offered. Each is stated as a mathematical function or
//! relation on the samples of the image, and each leaves every pixel either
//! black or white.

pub mod error_diffusion;
pub mod falloff;
pub mod laws;
pub mod riemersma;
pub mod threshold;

pub use error_diffusion::{
    atkinson, atkinson_share_of, floyd_steinberg, floyd_steinberg_share_of,
    quantization_error_of,
};
pub use riemersma::{riemersma, weigh, ERROR_WEIGHTS, HISTORY_LENGTH, WEIGHT_UNIT};
pub use threshold::{blue_noise, mask_quantize, random, random_quantize};

use super::luma::{
    image_height, image_samples, image_width, lemma_pixel_index_in_image, pixel_at, Luma16Image,
};
use error_diffusion::{atkinson_image, floyd_steinberg_image};
use riemersma::riemersma_image;
use threshold::{is_masked_image, is_random_image};
use vstd::prelude::*;

verus! {

/// The sample of a black pixel.
pub const BLACK: u16 = 0;

/// The sample of a white pixel.
pub const WHITE: u16 = 0xFFFF;

/// The middle of the scale: a sample above it counts as white.
pub const MID_SCALE: u16 = 0x7FFF;

/// The dithering algorithms.
#[derive(Debug, Copy, Clone, PartialEq, Eq, Structural)]
pub enum DitherAlgorithm {
    FloydSteinberg,
    Atkinson,
    BlueNoise,
    Random,
    Riemersma,
}

impl DitherAlgorithm {
    /// The name by which the algorithm is selected.
    pub open spec fn spec_name(self) -> Seq<char> {
        match self {
            DitherAlgorithm::FloydSteinberg => "floyd-steinberg"@,
            DitherAlgorithm::Atkinson => "atkinson"@,
            DitherAlgorithm::BlueNoise => "blue-noise"@,
            DitherAlgorithm::Random => "random"@,
            DitherAlgorithm::Riemersma => "riemersma"@,
        }
    }

    /// The name by which the algorithm is selected.
    pub fn name(&self) -> (name: &'static str)
        ensures
            name@ == self.spec_name(),
    {
        match self {
            DitherAlgorithm::FloydSteinberg => "floyd-steinberg",
            DitherAlgorithm::Atkinson => "atkinson",
            DitherAlgorithm::BlueNoise => "blue-noise",
            DitherAlgorithm::Random => "random",
            DitherAlgorithm::Riemersma => "riemersma",
        }
    }
}

/// A sample is black or white.
pub open spec fn is_binary(value: u16) -> bool {
    value == BLACK || value == WHITE
}

/// Every sample is black or white.
pub open spec fn all_samples_binary(samples: Seq<u16>) -> bool {
    forall|i: int| 0 <= i < samples.len() ==> is_binary(#[trigger] samples[i])
}

/// Every pixel of the image of `width` by `height` pixels over `samples` is
/// black or white.
pub open spec fn all_pixels_binary(samples: Seq<u16>, width: nat, height: nat) -> bool {
    forall|x: int, y: int|
        0 <= x < width && 0 <= y < height ==> is_binary(#[trigger] pixel_at(samples, width, x, y))
}

/// White for a brightness above the middle of the scale, black otherwise.
pub open spec fn quantized(brightness: int) -> u16 {
    if brightness > MID_SCALE {
        WHITE
    } else {
        BLACK
    }
}

/// White for a brightness above the middle of the scale, black otherwise.
pub fn quantize(brightness: i64) -> (value: u16)
    ensures
        value == quantized(brightness as int),
        is_binary(value),
{
    if brightness > MID_SCALE as i64 {
        WHITE
    } else {
        BLACK
    }
}

/// Where every sample of the buffer is black or white, so is every pixel of
/// the image.
pub proof fn lemma_binary_samples_are_binary_pixels(samples: Seq<u16>, width: nat, height: nat)
    requires
        width * height <= samples.len(),
        all_samples_binary(samples),
    ensures
        all_pixels_binary(samples, width, height),
{
    assert forall|x: int, y: int| 0 <= x < width && 0 <= y < height implies is_binary(
        #[trigger] pixel_at(samples, width, x, y),
    ) by {
        lemma_pixel_index_in_image(width, height, x, y);
    }
}

/// The algorithm can be run on the image: blue-noise dithering needs a mask
/// that is not empty, and Riemersma dithering an image of at most 2^32
/// pixels, so that every step of the curve over it has a 32-bit index.
pub open spec fn can_dither(
    algorithm: DitherAlgorithm,
    img: Luma16Image,
    mask: Option<&Luma16Image>,
) -> bool {
    match algorithm {
        DitherAlgorithm::BlueNoise => mask.is_some() && image_width(*mask.unwrap()) > 0
            && image_height(*mask.unwrap()) > 0,
        DitherAlgorithm::Riemersma => image_width(img) * image_height(img) <= 0x1_0000_0000,
        _ => true,
    }
}

/// `after` is what the algorithm makes of the image `before`: an image of
/// the same size whose samples are those that the algorithm defines.
pub open spec fn is_dithered(
    algorithm: DitherAlgorithm,
    before: Luma16Image,
    after: Luma16Image,
    mask: Option<&Luma16Image>,
) -> bool {
    let width = image_width(before);
    let height = image_height(before);
    &&& image_width(after) == width
    &&& image_height(after) == height
    &&& image_samples(after).len() == image_samples(before).len()
    &&& match algorithm {
        DitherAlgorithm::FloydSteinberg => image_samples(after) == floyd_steinberg_image(
            image_samples(before),
            width,
        ),
        DitherAlgorithm::Atkinson => image_samples(after) == atkinson_image(
            image_samples(before),
            width,
        ),
        DitherAlgorithm::BlueNoise => mask.is_some() && is_masked_image(
            image_samples(before),
            image_samples(after),
            width,
            height,
            image_samples(*mask.unwrap()),
            image_width(*mask.unwrap()),
            image_height(*mask.unwrap()),
        ),
        DitherAlgorithm::Random => is_random_image(
            image_samples(before),
            image_samples(after),
            width,
            height,
        ),
        DitherAlgorithm::Riemersma => image_samples(after) == riemersma_image(
            image_samples(before),
            width,
            height,
        ),
    }
}

/// Dithers the image in place with the given algorithm. `mask` is the
/// blue-noise mask, which only blue-noise dithering reads. Every pixel of
/// the image ends black or white.
pub fn dither(algorithm: DitherAlgorithm, img: &mut Luma16Image, mask: Option<&Luma16Image>)
    requires
        can_dither(algorithm, *old(img), mask),
    ensures
        is_dithered(algorithm, *old(img), *final(img), mask),
        all_pixels_binary(
            image_samples(*final(img)),
            image_width(*old(img)),
            image_height(*old(img)),
        ),
{
    match algorithm {
        DitherAlgorithm::FloydSteinberg => floyd_steinberg(img),
        DitherAlgorithm::Atkinson => atkinson(img),
        DitherAlgorithm::BlueNoise => blue_noise(img, mask.unwrap()),
        DitherAlgorithm::Random => random(img),
        DitherAlgorithm::Riemersma => riemersma(img),
    }
}

/// Dithers the image in place with the given algorithm where the algorithm
/// can be run on it, and says whether it did. The image is left as it is
/// where it did not.
pub fn try_dither(
    algorithm: DitherAlgorithm,
    img: &mut Luma16Image,
    mask: Option<&Luma16Image>,
) -> (done: bool)
    ensures
        done == can_dither(algorithm, *old(img), mask),
        done ==> is_dithered(algorithm, *old(img), *final(img), mask),
        done ==> all_pixels_binary(
            image_samples(*final(img)),
            image_width(*old(img)),
            image_height(*old(img)),
        ),
        !done ==> *final(img) == *old(img),
{
    let ready = match algorithm {
        DitherAlgorithm::BlueNoise => match mask {
            Some(m) => m.width() > 0 && m.height() > 0,
            None => false,
        },
        DitherAlgorithm::Riemersma => {
            let width = img.width();
            let height = img.height();
            assert(width * height <= 0xFFFF_FFFF * 0xFFFF_FFFF) by (nonlinear_arith)
                requires
                    width <= 0xFFFF_FFFF,
                    height <= 0xFFFF_FFFF,
            ;
            width as u64 * height as u64 <= 0x1_0000_0000
        },
        _ => true,
    };
    if ready {
        dither(algorithm, img, mask);
    }
    ready
}

} // verus!
