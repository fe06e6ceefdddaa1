//! Scaling an image down so that its long edge has 256 pixels.

use vstd::prelude::*;
use crate::raster::Image;

verus! {

/// The length in pixels that the longer edge of a scaled image gets.
pub const LONG_SIDE: u32 = 256;

/// The width and height that an image of the given size is scaled to: the
/// longer edge becomes `LONG_SIDE`, the shorter one keeps the proportion,
/// rounded down. An image as wide as high counts as upright.
pub open spec fn scaled_size(width: u32, height: u32) -> (int, int) {
    if height < width {
        (LONG_SIDE as int, LONG_SIDE * height / (width as int))
    } else {
        (LONG_SIDE * width / (height as int), LONG_SIDE as int)
    }
}

/// Computes the size that an image is scaled to.
pub fn resized_dimensions(width: u32, height: u32) -> (size: (u32, u32))
    requires
        width > 0 || height > 0,
    ensures
        size.0 == scaled_size(width, height).0,
        size.1 == scaled_size(width, height).1,
        size.0 <= LONG_SIDE,
        size.1 <= LONG_SIDE,
        size.0 == LONG_SIDE || size.1 == LONG_SIDE,
{
    let long: u64 = LONG_SIDE as u64;
    if height < width {
        let short: u64 = long * (height as u64) / (width as u64);
        assert(short <= 256) by (nonlinear_arith)
            requires
                short == 256 * (height as int) / (width as int),
                0 <= height < width,
        ;
        (LONG_SIDE, short as u32)
    } else {
        let short: u64 = long * (width as u64) / (height as u64);
        assert(short <= 256) by (nonlinear_arith)
            requires
                short == 256 * (width as int) / (height as int),
                0 <= width <= height,
                height > 0,
        ;
        (short as u32, LONG_SIDE)
    }
}

/// Resamples an image with `photon_rs::transform::resize` and the Lanczos3
/// filter. Trusted: the result has the size asked for and a buffer of four
/// bytes for each of its pixels, and where the size asked for is that of the
/// source, the result is a copy of it. Nothing else is claimed of the bytes.
/// The source must hold a pixel. The resampling allocates `width *
/// new_height` pixels of sixteen bytes and `new_width * new_height` pixels of
/// four bytes: neither buffer may exceed what a vector can hold.
#[verifier::external_body]
fn resample_lanczos3(source: &Image, new_width: u32, new_height: u32) -> (scaled: Image)
    requires
        source.wf(),
        source.width > 0,
        source.height > 0,
        16 * source.width * new_height <= isize::MAX,
        4 * new_width * new_height <= isize::MAX,
    ensures
        scaled.width == new_width,
        scaled.height == new_height,
        scaled.wf(),
        new_width == source.width && new_height == source.height ==> scaled.pixels@
            == source.pixels@,
{
    let image = photon_rs::PhotonImage::new(source.pixels.clone(), source.width, source.height);
    let scaled = photon_rs::transform::resize(
        &image,
        new_width,
        new_height,
        photon_rs::transform::SamplingFilter::Lanczos3,
    );
    Image { pixels: scaled.get_raw_pixels(), width: scaled.get_width(), height: scaled.get_height() }
}

/// Scales an image so that its long edge has `LONG_SIDE` pixels. An image
/// that has the scaled size already keeps its pixels; of the pixels of any
/// other result only their number is known.
///
/// The image must hold a pixel, and a buffer of `LONG_SIDE` rows as wide as
/// the image, at sixteen bytes a pixel, must be one that a vector can hold.
pub fn resize_image(image: &Image) -> (scaled: Image)
    requires
        image.wf(),
        image.width > 0,
        image.height > 0,
        16 * image.width * LONG_SIDE <= isize::MAX,
    ensures
        scaled.wf(),
        scaled.width == scaled_size(image.width, image.height).0,
        scaled.height == scaled_size(image.width, image.height).1,
        scaled.width == image.width && scaled.height == image.height ==> scaled.pixels@
            == image.pixels@,
{
    let size = resized_dimensions(image.get_width(), image.get_height());
    assert(16 * image.width * size.1 <= 16 * image.width * 256) by (nonlinear_arith)
        requires
            size.1 <= 256,
    ;
    assert(4 * size.0 * size.1 <= 4 * 256 * 256) by (nonlinear_arith)
        requires
            size.0 <= 256,
            size.1 <= 256,
    ;
    assert(4 * 256 * 256 <= isize::MAX);
    resample_lanczos3(image, size.0, size.1)
}

} // verus!
