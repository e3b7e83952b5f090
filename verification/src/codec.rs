//! The image codec and the resampler, which the `image` crate provides.

use crate::raster::{Raster, RasterImage};
use image::codecs::png::PngEncoder;
use image::imageops::{resize, FilterType};
use image::{ColorType, ImageBuffer, Rgba};
use vstd::prelude::*;

verus! {

/// The error type of the `image` crate. Nothing is known of a value but that
/// the codec failed.
#[verifier::external_type_specification]
#[verifier::external_body]
pub struct ExImageError(image::ImageError);

/// The PNG file that the codec writes for an RGBA image of the given
/// dimensions and samples, or `None` where it refuses the image.
pub uninterp spec fn png_encoded(pixels: Seq<u8>, width: u32, height: u32) -> Option<Seq<u8>>;

/// The image that the codec reads out of `data`, converted to RGBA with 8 bits
/// per channel, or `None` where it cannot read one.
pub uninterp spec fn decoded_image(data: Seq<u8>) -> Option<Raster>;

/// Whether the resampler can scale `source` to a square of `size` pixels: the
/// source has pixels to sample, and the intermediate buffer, as wide as the
/// source and `size` rows high, is no longer than a buffer can be.
pub open spec fn resizable(source: Raster, size: u32) -> bool {
    &&& source.width > 0
    &&& source.height > 0
    &&& size > 0
    &&& 4 * source.width * size <= isize::MAX
}

/// Calls `image::codecs::png::PngEncoder::new` on an empty buffer and `encode`
/// with the colour type RGBA8. Trusted: the buffer that comes back is a
/// function of the samples and the dimensions alone, named [`png_encoded`]; an
/// error of the codec is `None` there.
#[verifier::external_body]
pub(crate) fn png_encode(data: &[u8], width: u32, height: u32) -> (res: Result<
    Vec<u8>,
    image::ImageError,
>)
    requires
        data@.len() == 4 * width * height,
    ensures
        match res {
            Ok(buffer) => png_encoded(data@, width, height) == Some(buffer@),
            Err(_) => png_encoded(data@, width, height) is None,
        },
{
    let mut buffer: Vec<u8> = Vec::new();
    match PngEncoder::new(&mut buffer).encode(data, width, height, ColorType::Rgba8) {
        Ok(()) => Ok(buffer),
        Err(e) => Err(e),
    }
}

/// Calls `image::load_from_memory`, which guesses the format of `data` and
/// decodes it, and `DynamicImage::into_rgba8`. Trusted: the outcome is a
/// function of the bytes alone, named [`decoded_image`], and the image that
/// comes back holds four bytes per pixel. The codec allocates what the header
/// inside `data` declares before it reads the samples, so the call is taken to
/// return only as far as the machine can hold the declared image.
#[verifier::external_body]
pub(crate) fn load_from_memory(data: &[u8]) -> (res: Result<RasterImage, image::ImageError>)
    ensures
        match res {
            Ok(img) => decoded_image(data@) == Some(img@) && img@.wf(),
            Err(_) => decoded_image(data@) is None,
        },
{
    match image::load_from_memory(data) {
        Ok(img) => {
            let rgba = img.into_rgba8();
            Ok(RasterImage { width: rgba.width(), height: rgba.height(), pixels: rgba.into_raw() })
        },
        Err(e) => Err(e),
    }
}

/// Calls `image::imageops::resize` with the `Lanczos3` filter, on the samples
/// of `source` viewed as an `ImageBuffer`. Trusted: the buffer view exists
/// because the samples are four bytes per pixel; the result is `size` pixels
/// wide and high and holds four bytes per pixel. Its samples come out of
/// floating-point arithmetic and nothing is said of them.
#[verifier::external_body]
pub(crate) fn resize_square(source: &RasterImage, size: u32) -> (scaled: Option<RasterImage>)
    requires
        resizable(source@, size),
    ensures
        scaled is Some,
        scaled->Some_0@.width == size,
        scaled->Some_0@.height == size,
        scaled->Some_0@.wf(),
{
    match ImageBuffer::<Rgba<u8>, &[u8]>::from_raw(source.width, source.height, &source.pixels) {
        Some(view) => {
            let out = resize(&view, size, size, FilterType::Lanczos3);
            Some(RasterImage { width: out.width(), height: out.height(), pixels: out.into_raw() })
        },
        None => None,
    }
}

} // verus!
