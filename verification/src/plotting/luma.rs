//! Grayscale images of 16 bits per pixel, kept in an `image::ImageBuffer`.
//!
//! The buffer itself is outside the reach of the verifier. What it holds is
//! named by three specification functions, [`image_samples`],
//! [`image_width`] and [`image_height`], and every access goes through a
//! small function whose contract states, over those names, what the `image`
//! crate does.

use vstd::prelude::*;

verus! {

/// An image of `width` by `height` pixels with one 16-bit sample per pixel,
/// rows first, in a buffer that may be longer than the image.
#[verifier::external_body]
pub struct Luma16Image {
    buffer: image::ImageBuffer<image::Luma<u16>, Vec<u16>>,
}

/// The samples in the image's buffer: those of the pixels, row after row,
/// and after them whatever else the buffer holds.
pub uninterp spec fn image_samples(img: Luma16Image) -> Seq<u16>;

/// The number of pixels in a row of the image.
pub uninterp spec fn image_width(img: Luma16Image) -> nat;

/// The number of rows of the image.
pub uninterp spec fn image_height(img: Luma16Image) -> nat;

/// The place that the pixel `(x, y)` has in the buffer of an image whose
/// rows are `width` pixels long.
pub open spec fn pixel_index(width: nat, x: int, y: int) -> int {
    y * width + x
}

/// The sample of the pixel `(x, y)` among `samples`, for rows of `width`
/// pixels.
pub open spec fn pixel_at(samples: Seq<u16>, width: nat, x: int, y: int) -> u16 {
    samples[pixel_index(width, x, y)]
}

/// Wraps `ImageBuffer::from_raw`, which takes the buffer where it holds at
/// least `width * height` samples and hands back nothing otherwise.
#[verifier::external_body]
fn buffer_from_raw(width: u32, height: u32, samples: Vec<u16>) -> (r: Option<Luma16Image>)
    ensures
        r.is_some() <==> width * height <= samples@.len(),
        r.is_some() ==> image_samples(r.unwrap()) == samples@,
        r.is_some() ==> image_width(r.unwrap()) == width,
        r.is_some() ==> image_height(r.unwrap()) == height,
{
    match image::ImageBuffer::from_raw(width, height, samples) {
        Some(buffer) => Some(Luma16Image { buffer }),
        None => None,
    }
}

/// Wraps `ImageBuffer::into_raw`, which gives the buffer back.
#[verifier::external_body]
fn buffer_into_raw(img: Luma16Image) -> (samples: Vec<u16>)
    ensures
        samples@ == image_samples(img),
{
    img.buffer.into_raw()
}

/// Wraps `ImageBuffer::width`.
#[verifier::external_body]
fn buffer_width(img: &Luma16Image) -> (width: u32)
    ensures
        width == image_width(*img),
{
    img.buffer.width()
}

/// Wraps `ImageBuffer::height`.
#[verifier::external_body]
fn buffer_height(img: &Luma16Image) -> (height: u32)
    ensures
        height == image_height(*img),
{
    img.buffer.height()
}

/// Wraps the length of the slice that an `ImageBuffer` dereferences to: the
/// whole buffer. No `ImageBuffer` is made unless the buffer holds the pixels
/// of the image.
#[verifier::external_body]
pub(crate) fn sample_count(img: &Luma16Image) -> (n: usize)
    ensures
        n == image_samples(*img).len(),
        image_width(*img) * image_height(*img) <= n,
{
    img.buffer.len()
}

/// Wraps indexing into the slice that an `ImageBuffer` dereferences to.
#[verifier::external_body]
pub(crate) fn sample(img: &Luma16Image, i: usize) -> (value: u16)
    requires
        i < image_samples(*img).len(),
    ensures
        value == image_samples(*img)[i as int],
{
    let samples: &[u16] = &img.buffer;
    samples[i]
}

/// Wraps assigning through an index into the slice that an `ImageBuffer`
/// dereferences to: one sample changes, and nothing else.
#[verifier::external_body]
pub(crate) fn set_sample(img: &mut Luma16Image, i: usize, value: u16)
    requires
        i < image_samples(*old(img)).len(),
    ensures
        image_samples(*final(img)) == image_samples(*old(img)).update(i as int, value),
        image_width(*final(img)) == image_width(*old(img)),
        image_height(*final(img)) == image_height(*old(img)),
{
    let samples: &mut [u16] = &mut img.buffer;
    samples[i] = value;
}

/// Wraps `ImageBuffer::get_pixel`, which reads the pixel `(x, y)` at the
/// place `y * width + x` of the buffer and panics outside the image.
#[verifier::external_body]
pub(crate) fn get_pixel(img: &Luma16Image, x: u32, y: u32) -> (value: u16)
    requires
        x < image_width(*img),
        y < image_height(*img),
    ensures
        value == pixel_at(image_samples(*img), image_width(*img), x as int, y as int),
{
    img.buffer.get_pixel(x, y).0[0]
}

/// Wraps `ImageBuffer::put_pixel`, which writes the pixel `(x, y)` at the
/// place `y * width + x` of the buffer and panics outside the image.
#[verifier::external_body]
pub(crate) fn put_pixel(img: &mut Luma16Image, x: u32, y: u32, value: u16)
    requires
        x < image_width(*old(img)),
        y < image_height(*old(img)),
    ensures
        image_samples(*final(img)) == image_samples(*old(img)).update(
            pixel_index(image_width(*old(img)), x as int, y as int),
            value,
        ),
        image_width(*final(img)) == image_width(*old(img)),
        image_height(*final(img)) == image_height(*old(img)),
{
    img.buffer.put_pixel(x, y, image::Luma([value]));
}

impl Luma16Image {
    /// An image of `width` by `height` pixels over `samples`, given row
    /// after row; `None` where there are fewer samples than pixels.
    pub fn from_raw(width: u32, height: u32, samples: Vec<u16>) -> (r: Option<Luma16Image>)
        ensures
            r.is_some() <==> width * height <= samples@.len(),
            r.is_some() ==> image_samples(r.unwrap()) == samples@,
            r.is_some() ==> image_width(r.unwrap()) == width,
            r.is_some() ==> image_height(r.unwrap()) == height,
    {
        buffer_from_raw(width, height, samples)
    }

    /// The samples of the image, row after row.
    pub fn into_raw(self) -> (samples: Vec<u16>)
        ensures
            samples@ == image_samples(self),
    {
        buffer_into_raw(self)
    }

    /// The number of pixels in a row.
    pub fn width(&self) -> (width: u32)
        ensures
            width == image_width(*self),
    {
        buffer_width(self)
    }

    /// The number of rows.
    pub fn height(&self) -> (height: u32)
        ensures
            height == image_height(*self),
    {
        buffer_height(self)
    }
}

/// A pixel inside an image lies inside the image's buffer.
pub proof fn lemma_pixel_index_in_image(width: nat, height: nat, x: int, y: int)
    requires
        0 <= x < width,
        0 <= y < height,
    ensures
        0 <= pixel_index(width, x, y) < width * height,
{
    assert(0 <= y * width + x < width * height) by (nonlinear_arith)
        requires
            0 <= x < width,
            0 <= y < height,
    ;
}

/// Two different pixels of an image have different places in its buffer.
pub proof fn lemma_pixel_index_differs(width: nat, x1: int, y1: int, x2: int, y2: int)
    requires
        0 <= x1 < width,
        0 <= x2 < width,
        x1 != x2 || y1 != y2,
    ensures
        pixel_index(width, x1, y1) != pixel_index(width, x2, y2),
{
    assert(y1 * width + x1 != y2 * width + x2) by (nonlinear_arith)
        requires
            0 <= x1 < width,
            0 <= x2 < width,
            x1 != x2 || y1 != y2,
    ;
}

/// What writing `value` to the pixel `(x, y)` does to the pixels of an
/// image: that pixel holds `value`, every other pixel is as before, and so
/// is what the buffer holds after the image.
pub proof fn lemma_write_pixel(
    samples: Seq<u16>,
    width: nat,
    height: nat,
    x: int,
    y: int,
    value: u16,
)
    requires
        0 <= x < width,
        0 <= y < height,
        width * height <= samples.len(),
    ensures
        ({
            let after = samples.update(pixel_index(width, x, y), value);
            &&& after.len() == samples.len()
            &&& pixel_at(after, width, x, y) == value
            &&& forall|x2: int, y2: int|
                0 <= x2 < width && 0 <= y2 < height && (x2 != x || y2 != y) ==> #[trigger] pixel_at(
                    after,
                    width,
                    x2,
                    y2,
                ) == pixel_at(samples, width, x2, y2)
            &&& forall|i: int| width * height <= i < samples.len() ==> #[trigger] after[i] == samples[i]
        }),
{
    let after = samples.update(pixel_index(width, x, y), value);
    lemma_pixel_index_in_image(width, height, x, y);
    assert forall|x2: int, y2: int|
        0 <= x2 < width && 0 <= y2 < height && (x2 != x || y2 != y) implies #[trigger] pixel_at(
        after,
        width,
        x2,
        y2,
    ) == pixel_at(samples, width, x2, y2) by {
        lemma_pixel_index_differs(width, x, y, x2, y2);
        lemma_pixel_index_in_image(width, height, x2, y2);
    }
}

} // verus!
