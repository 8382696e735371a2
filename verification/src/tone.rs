//! Brightness, contrast and sharpness.
//!
//! The three factors are given in thousandths: a brightness of 200 stands for
//! 0.2, a contrast of 1500 for 1.5. Each new channel value is the exact
//! rational result, rounded down and held to `0..=255`.

use vstd::prelude::*;
use crate::buffer::{clamp, push_pixel, raw_alpha, raw_rgb, view_of, ImageView, PixelBuffer, Rgb};
use crate::buffer::{lemma_index_in_range, lemma_index_join};
use crate::error::InvalidInput;

verus! {

/// `v` held to the range of a channel.
pub open spec fn clamp_u8(v: int) -> u8 {
    clamp(v, 0, 255) as u8
}

/// The quotient `t / d`, rounded down and held to the range of a channel.
pub fn clamped_quotient(t: i64, d: i64) -> (level: u8)
    requires
        d > 0,
    ensures
        level == clamp_u8(t as int / d as int),
{
    if t < 0 {
        assert(t as int / d as int <= 0) by (nonlinear_arith)
            requires
                t < 0,
                d > 0,
        ;
        0
    } else {
        let q: i64 = t / d;
        if q > 255 {
            255
        } else {
            q as u8
        }
    }
}

/// A channel value moved by `brightness` thousandths of the full range.
pub open spec fn brightened_level(c: u8, brightness: int) -> u8 {
    clamp_u8((1000 * c + 255 * brightness) / 1000)
}

/// A colour with each channel brightened.
pub open spec fn brightened_rgb(p: Rgb, brightness: int) -> Rgb {
    Rgb {
        r: brightened_level(p.r, brightness),
        g: brightened_level(p.g, brightness),
        b: brightened_level(p.b, brightness),
    }
}

/// An image with each pixel brightened.
pub open spec fn brightened(v: ImageView, brightness: int) -> ImageView {
    ImageView {
        width: v.width,
        height: v.height,
        pixels: Seq::new(v.pixels.len(), |i: int| brightened_rgb(v.pixels[i], brightness)),
    }
}

fn brighten_level(c: u8, brightness: i32) -> (level: u8)
    ensures
        level == brightened_level(c, brightness as int),
{
    clamped_quotient(1000 * (c as i64) + 255 * (brightness as i64), 1000)
}

/// Adds `brightness` thousandths of the full range to the three colour
/// channels of every pixel.
pub fn adjust_brightness(img: &PixelBuffer, brightness: i32) -> (out: PixelBuffer)
    ensures
        out@ == brightened(img@, brightness as int),
{
    let n: usize = img.pixel_len();
    let width: u32 = img.width();
    let height: u32 = img.height();
    let mut raw: Vec<u8> = Vec::new();
    let mut i: usize = 0;
    while i < n
        invariant
            n == img@.pixels.len(),
            4 * n <= usize::MAX,
            i <= n,
            raw@.len() == 4 * i,
            forall|j: int| 0 <= j < i ==> #[trigger] raw_rgb(raw@, j) == brightened_rgb(img@.pixels[j], brightness as int),
            forall|j: int| 0 <= j < i ==> #[trigger] raw_alpha(raw@, j) == 255,
        decreases n - i,
    {
        let p: Rgb = img.pixel_at(i);
        let q = Rgb {
            r: brighten_level(p.r, brightness),
            g: brighten_level(p.g, brightness),
            b: brighten_level(p.b, brightness),
        };
        push_pixel(&mut raw, q);
        i = i + 1;
    }
    let out = PixelBuffer::assemble(width, height, raw);
    assert(out@.pixels =~= brightened(img@, brightness as int).pixels);
    out
}

/// A channel value with its distance from the middle level 128 scaled by
/// `contrast` thousandths.
pub open spec fn contrasted_level(c: u8, contrast: int) -> u8 {
    clamp_u8(((c - 128) * contrast + 128000) / 1000)
}

/// A colour with the contrast of each channel scaled.
pub open spec fn contrasted_rgb(p: Rgb, contrast: int) -> Rgb {
    Rgb {
        r: contrasted_level(p.r, contrast),
        g: contrasted_level(p.g, contrast),
        b: contrasted_level(p.b, contrast),
    }
}

/// An image with the contrast of each pixel scaled.
pub open spec fn contrasted(v: ImageView, contrast: int) -> ImageView {
    ImageView {
        width: v.width,
        height: v.height,
        pixels: Seq::new(v.pixels.len(), |i: int| contrasted_rgb(v.pixels[i], contrast)),
    }
}

fn contrast_level(c: u8, contrast: i32) -> (level: u8)
    ensures
        level == contrasted_level(c, contrast as int),
{
    let d: i64 = c as i64 - 128;
    assert(-128 * 0x8000_0000 <= d * (contrast as i64) <= 128 * 0x8000_0000) by (nonlinear_arith)
        requires
            -128 <= d <= 127,
            -0x8000_0000 <= contrast as i64 <= 0x7FFF_FFFF,
    ;
    clamped_quotient(d * (contrast as i64) + 128000, 1000)
}

/// Scales the distance of each colour channel from the middle level 128 by
/// `contrast` thousandths.
pub fn adjust_contrast(img: &PixelBuffer, contrast: i32) -> (out: PixelBuffer)
    ensures
        out@ == contrasted(img@, contrast as int),
{
    let n: usize = img.pixel_len();
    let width: u32 = img.width();
    let height: u32 = img.height();
    let mut raw: Vec<u8> = Vec::new();
    let mut i: usize = 0;
    while i < n
        invariant
            n == img@.pixels.len(),
            4 * n <= usize::MAX,
            i <= n,
            raw@.len() == 4 * i,
            forall|j: int| 0 <= j < i ==> #[trigger] raw_rgb(raw@, j) == contrasted_rgb(img@.pixels[j], contrast as int),
            forall|j: int| 0 <= j < i ==> #[trigger] raw_alpha(raw@, j) == 255,
        decreases n - i,
    {
        let p: Rgb = img.pixel_at(i);
        let q = Rgb {
            r: contrast_level(p.r, contrast),
            g: contrast_level(p.g, contrast),
            b: contrast_level(p.b, contrast),
        };
        push_pixel(&mut raw, q);
        i = i + 1;
    }
    let out = PixelBuffer::assemble(width, height, raw);
    assert(out@.pixels =~= contrasted(img@, contrast as int).pixels);
    out
}

/// Scaling the contrast by a factor and then by its reciprocal gives a value
/// back that is never above the original and falls short of it by less than
/// one level plus the reciprocal factor, wherever neither step is clamped.
pub proof fn lemma_contrast_round_trip(x: u8, contrast: int, reciprocal: int)
    requires
        contrast > 0,
        reciprocal > 0,
        contrast * reciprocal == 1_000_000,
        0 <= (x - 128) * contrast + 128000 < 256000,
        0 <= (contrasted_level(x, contrast) - 128) * reciprocal + 128000 < 256000,
    ensures
        contrasted_level(contrasted_level(x, contrast), reciprocal) <= x,
        1000 * (x - contrasted_level(contrasted_level(x, contrast), reciprocal)) < 1000 + reciprocal,
{
    let t1 = (x - 128) * contrast + 128000;
    let y = t1 / 1000;
    let e1 = t1 % 1000;
    assert(contrasted_level(x, contrast) == y);
    let t2 = (y - 128) * reciprocal + 128000;
    let z = t2 / 1000;
    let e2 = t2 % 1000;
    assert(contrasted_level(y as u8, reciprocal) == z);
    assert(1000 * y + e1 == t1);
    assert(1000 * z + e2 == t2);
    assert(1_000_000 * (x - z) == e1 * reciprocal + 1000 * e2) by (nonlinear_arith)
        requires
            1000 * y + e1 == (x - 128) * contrast + 128000,
            1000 * z + e2 == (y - 128) * reciprocal + 128000,
            contrast * reciprocal == 1_000_000,
    ;
    assert(0 <= e1 * reciprocal < 1000 * reciprocal) by (nonlinear_arith)
        requires
            0 <= e1 < 1000,
            reciprocal > 0,
    ;
}

/// A channel value pushed away from the sum of its four neighbours:
/// `center + amount * (center - neighbours / 4)` with `amount` twice the
/// excess of `sharpness` over one.
pub open spec fn sharpened_level(center: u8, neighbours: int, sharpness: int) -> u8 {
    clamp_u8((2000 * center + (sharpness - 1000) * (4 * center - neighbours)) / 2000)
}

/// The sharpened colour at a position: the border of the image is kept, every
/// other pixel is pushed away from its neighbours above, below, left and
/// right.
pub open spec fn sharpened_rgb(v: ImageView, x: int, y: int, sharpness: int) -> Rgb {
    if 1 <= x < v.width - 1 && 1 <= y < v.height - 1 {
        let c = v.at(x, y);
        let l = v.at(x - 1, y);
        let r = v.at(x + 1, y);
        let u = v.at(x, y - 1);
        let d = v.at(x, y + 1);
        Rgb {
            r: sharpened_level(c.r, l.r + r.r + u.r + d.r, sharpness),
            g: sharpened_level(c.g, l.g + r.g + u.g + d.g, sharpness),
            b: sharpened_level(c.b, l.b + r.b + u.b + d.b, sharpness),
        }
    } else {
        v.at(x, y)
    }
}

/// An image with every pixel sharpened.
pub open spec fn sharpened(v: ImageView, sharpness: int) -> ImageView {
    ImageView {
        width: v.width,
        height: v.height,
        pixels: Seq::new(
            v.pixels.len(),
            |k: int| sharpened_rgb(v, k % (v.width as int), k / (v.width as int), sharpness),
        ),
    }
}

/// What sharpening gives: the image itself for a factor of at most one, a
/// refusal for an image with fewer than three rows or columns, the sharpened
/// image otherwise.
pub open spec fn sharpen_result(v: ImageView, sharpness: int) -> Result<ImageView, InvalidInput> {
    if sharpness <= 1000 {
        Ok(v)
    } else if v.width < 3 || v.height < 3 {
        Err(InvalidInput::TooSmall)
    } else {
        Ok(sharpened(v, sharpness))
    }
}

fn sharpen_level(center: u8, l: u8, r: u8, u: u8, d: u8, sharpness: i32) -> (level: u8)
    ensures
        level == sharpened_level(center, l + r + u + d, sharpness as int),
{
    let neighbours: i64 = l as i64 + r as i64 + u as i64 + d as i64;
    let excess: i64 = sharpness as i64 - 1000;
    let away: i64 = 4 * (center as i64) - neighbours;
    assert(-1020 * 0x8000_1000 <= excess * away <= 1020 * 0x8000_1000) by (nonlinear_arith)
        requires
            -1020 <= away <= 1020,
            -0x8000_1000 <= excess <= 0x8000_1000,
    ;
    clamped_quotient(2000 * (center as i64) + excess * away, 2000)
}

/// Sharpens with an unsharp mask over the four direct neighbours. A factor of
/// at most one (1000) leaves the image as it is.
pub fn adjust_sharpness(img: &PixelBuffer, sharpness: i32) -> (res: Result<PixelBuffer, InvalidInput>)
    ensures
        view_of(res) == sharpen_result(img@, sharpness as int),
{
    if sharpness <= 1000 {
        return Ok(img.duplicate());
    }
    let width: u32 = img.width();
    let height: u32 = img.height();
    if width < 3 || height < 3 {
        return Err(InvalidInput::TooSmall);
    }
    let n: usize = img.pixel_len();
    let mut raw: Vec<u8> = Vec::new();
    let mut y: u32 = 0;
    let mut k: usize = 0;
    while y < height
        invariant
            img@.wf(),
            width == img@.width,
            height == img@.height,
            3 <= width,
            3 <= height,
            n == width * height,
            4 * n <= usize::MAX,
            y <= height,
            k == y * width,
            raw@.len() == 4 * k,
            forall|j: int| 0 <= j < k ==> #[trigger] raw_rgb(raw@, j) == sharpened_rgb(img@, j % (width as int), j / (width as int), sharpness as int),
            forall|j: int| 0 <= j < k ==> #[trigger] raw_alpha(raw@, j) == 255,
        decreases height - y,
    {
        let mut x: u32 = 0;
        while x < width
            invariant
                img@.wf(),
                width == img@.width,
                height == img@.height,
                3 <= width,
                3 <= height,
                n == width * height,
                4 * n <= usize::MAX,
                y < height,
                x <= width,
                k == y * width + x,
                raw@.len() == 4 * k,
                forall|j: int| 0 <= j < k ==> #[trigger] raw_rgb(raw@, j) == sharpened_rgb(img@, j % (width as int), j / (width as int), sharpness as int),
                forall|j: int| 0 <= j < k ==> #[trigger] raw_alpha(raw@, j) == 255,
            decreases width - x,
        {
            proof {
                lemma_index_in_range(x as int, y as int, width as int, height as int);
                lemma_index_join(x as int, y as int, width as int);
            }
            let c: Rgb = img.get_pixel(x, y);
            let q: Rgb = if 1 <= x && x < width - 1 && 1 <= y && y < height - 1 {
                let l: Rgb = img.get_pixel(x - 1, y);
                let r: Rgb = img.get_pixel(x + 1, y);
                let u: Rgb = img.get_pixel(x, y - 1);
                let d: Rgb = img.get_pixel(x, y + 1);
                Rgb {
                    r: sharpen_level(c.r, l.r, r.r, u.r, d.r, sharpness),
                    g: sharpen_level(c.g, l.g, r.g, u.g, d.g, sharpness),
                    b: sharpen_level(c.b, l.b, r.b, u.b, d.b, sharpness),
                }
            } else {
                c
            };
            assert(q == sharpened_rgb(img@, x as int, y as int, sharpness as int));
            push_pixel(&mut raw, q);
            x = x + 1;
            k = k + 1;
        }
        y = y + 1;
        assert(k == y * width) by (nonlinear_arith)
            requires
                k == (y - 1) * width + width,
        ;
    }
    assert(k == n) by (nonlinear_arith)
        requires
            k == y * width,
            y == height,
            n == width * height,
    ;
    let out = PixelBuffer::assemble(width, height, raw);
    assert(out@.pixels =~= sharpened(img@, sharpness as int).pixels);
    Ok(out)
}

/// A brightness of zero and a contrast of one change nothing.
pub proof fn lemma_tone_identity(v: ImageView)
    ensures
        brightened(v, 0) == v,
        contrasted(v, 1000) == v,
{
    assert forall|i: int| 0 <= i < v.pixels.len() implies #[trigger] brightened(v, 0).pixels[i]
        == v.pixels[i] && contrasted(v, 1000).pixels[i] == v.pixels[i] by {
        let p = v.pixels[i];
        assert(brightened_rgb(p, 0) == p);
        assert(contrasted_rgb(p, 1000) == p);
    }
    assert(brightened(v, 0).pixels =~= v.pixels);
    assert(contrasted(v, 1000).pixels =~= v.pixels);
}

} // verus!
