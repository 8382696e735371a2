//! Contrast enhancement by equalizing the histogram of the whole image.

use vstd::prelude::*;
use crate::buffer::{view_of, GrayBuffer, GrayView, ImageView, PixelBuffer};
use crate::error::InvalidInput;

verus! {

/// The samples of a grayscale image after `imageproc` has equalized its
/// histogram: each level is replaced by 255 times the share of the pixels
/// that are no brighter, formed in single precision and cut to a whole
/// number.
pub uninterp spec fn equalized_levels(pixels: Seq<u8>) -> Seq<u8>;

/// `imageproc::contrast::equalize_histogram`. Trusted: it keeps the
/// dimensions and the number of samples, and what it puts in them depends on
/// the samples alone.
#[verifier::external_body]
fn equalize_levels(gray: &GrayBuffer) -> (out: GrayBuffer)
    ensures
        out@.width == gray@.width,
        out@.height == gray@.height,
        out@.pixels == equalized_levels(gray@.pixels),
        out@.pixels.len() == gray@.pixels.len(),
{
    let img = image::GrayImage::from_raw(gray.width, gray.height, gray.data.clone()).unwrap();
    let out = imageproc::contrast::equalize_histogram(&img);
    GrayBuffer { width: gray.width, height: gray.height, data: out.into_raw() }
}

/// The image with the histogram of its grayscale equalized.
pub open spec fn equalized(v: ImageView) -> ImageView {
    GrayView {
        width: v.width,
        height: v.height,
        pixels: equalized_levels(v.luma().pixels),
    }.to_rgb()
}

/// Equalizes the histogram of the grayscale of the whole image; the result
/// has the equalized level in each of its three colour channels. This is
/// global equalization: no tiles, no clip limit.
pub fn apply_clahe(img: &PixelBuffer) -> (res: Result<PixelBuffer, InvalidInput>)
    ensures
        view_of(res) == Ok::<ImageView, InvalidInput>(equalized(img@)),
        res is Ok && res->Ok_0@.pixels.len() == img@.pixels.len(),
{
    let gray = img.to_luma();
    let out = equalize_levels(&gray);
    Ok(out.to_rgb())
}

} // verus!
