//! Erosion, dilation, opening and closing with a 3 by 3 square.
//!
//! The operators work on the grayscale of the image. Erosion gives each
//! pixel the least level of the square around it, dilation the greatest; at
//! the edges the square is cut off at the image.

use vstd::prelude::*;
use crate::buffer::{clamp, view_of, GrayBuffer, GrayView, ImageView, PixelBuffer};
use crate::buffer::{lemma_index_in_range, lemma_index_join};
use crate::error::InvalidInput;
use crate::window::{lemma_window_extremes, lemma_window_extremes_bounded, window_extremes};
use crate::window::{window_level, window_max, window_min, window_size};

verus! {

/// The level that erosion gives the pixel with linear index `k`.
pub open spec fn eroded_level(g: GrayView, k: int) -> u8 {
    window_min(g, k % (g.width as int), k / (g.width as int), 1, 9)
}

/// The level that dilation gives the pixel with linear index `k`.
pub open spec fn dilated_level(g: GrayView, k: int) -> u8 {
    window_max(g, k % (g.width as int), k / (g.width as int), 1, 9)
}

/// The eroded image: each pixel has the least level of the 3 by 3 square
/// around it.
pub open spec fn eroded(g: GrayView) -> GrayView {
    GrayView {
        width: g.width,
        height: g.height,
        pixels: Seq::new(g.pixels.len(), |k: int| eroded_level(g, k)),
    }
}

/// The dilated image: each pixel has the greatest level of the 3 by 3 square
/// around it.
pub open spec fn dilated(g: GrayView) -> GrayView {
    GrayView {
        width: g.width,
        height: g.height,
        pixels: Seq::new(g.pixels.len(), |k: int| dilated_level(g, k)),
    }
}

/// Erosion followed by dilation.
pub open spec fn opened(g: GrayView) -> GrayView {
    dilated(eroded(g))
}

/// Dilation followed by erosion.
pub open spec fn closed(g: GrayView) -> GrayView {
    eroded(dilated(g))
}

/// Whether an image has the three rows and three columns that the square
/// needs.
pub open spec fn fits_square(v: ImageView) -> bool {
    v.width >= 3 && v.height >= 3
}

/// What erosion gives: a refusal for an image with fewer than three rows or
/// columns, the eroded grayscale in all three channels otherwise.
pub open spec fn erosion_result(v: ImageView) -> Result<ImageView, InvalidInput> {
    if fits_square(v) {
        Ok(eroded(v.luma()).to_rgb())
    } else {
        Err(InvalidInput::TooSmall)
    }
}

/// What dilation gives: a refusal for an image with fewer than three rows or
/// columns, the dilated grayscale in all three channels otherwise.
pub open spec fn dilation_result(v: ImageView) -> Result<ImageView, InvalidInput> {
    if fits_square(v) {
        Ok(dilated(v.luma()).to_rgb())
    } else {
        Err(InvalidInput::TooSmall)
    }
}

/// What opening gives: a refusal for an image with fewer than three rows or
/// columns, the opened grayscale in all three channels otherwise.
pub open spec fn opening_result(v: ImageView) -> Result<ImageView, InvalidInput> {
    if fits_square(v) {
        Ok(opened(v.luma()).to_rgb())
    } else {
        Err(InvalidInput::TooSmall)
    }
}

/// What closing gives: a refusal for an image with fewer than three rows or
/// columns, the closed grayscale in all three channels otherwise.
pub open spec fn closing_result(v: ImageView) -> Result<ImageView, InvalidInput> {
    if fits_square(v) {
        Ok(closed(v.luma()).to_rgb())
    } else {
        Err(InvalidInput::TooSmall)
    }
}

/// Gives each pixel the least (or, with `greatest`, the greatest) level of
/// the 3 by 3 square around it.
fn square_filter(gray: &GrayBuffer, greatest: bool) -> (out: GrayBuffer)
    ensures
        out@ == (if greatest {
            dilated(gray@)
        } else {
            eroded(gray@)
        }),
{
    let width: u32 = gray.width();
    let height: u32 = gray.height();
    let n: usize = gray.pixel_len();
    let mut levels: Vec<u8> = Vec::new();
    let mut y: u32 = 0;
    let mut k: usize = 0;
    assert(window_size(1) == 9) by (nonlinear_arith);
    while y < height
        invariant
            gray@.wf(),
            width == gray@.width,
            height == gray@.height,
            n == width * height,
            y <= height,
            k == y * width,
            levels@.len() == k,
            window_size(1) == 9,
            forall|j: int| 0 <= j < k ==> #[trigger] levels@[j] == (if greatest {
                dilated_level(gray@, j)
            } else {
                eroded_level(gray@, j)
            }),
        decreases height - y,
    {
        let mut x: u32 = 0;
        while x < width
            invariant
                gray@.wf(),
                width == gray@.width,
                height == gray@.height,
                n == width * height,
                y < height,
                x <= width,
                k == y * width + x,
                levels@.len() == k,
                window_size(1) == 9,
                forall|j: int| 0 <= j < k ==> #[trigger] levels@[j] == (if greatest {
                    dilated_level(gray@, j)
                } else {
                    eroded_level(gray@, j)
                }),
            decreases width - x,
        {
            proof {
                lemma_index_in_range(x as int, y as int, width as int, height as int);
                lemma_index_join(x as int, y as int, width as int);
            }
            let (least, most) = window_extremes(gray, x, y, 1);
            levels.push(if greatest {
                most
            } else {
                least
            });
            x = x + 1;
            k = k + 1;
        }
        y = y + 1;
        assert(k == y * width) by (nonlinear_arith)
            requires
                k == (y - 1) * width + width,
        ;
    }
    assert(k == n) by (nonlinear_arith)
        requires
            k == y * width,
            y == height,
            n == width * height,
    ;
    let out = GrayBuffer::assemble(width, height, levels);
    proof {
        if greatest {
            assert(out@.pixels =~= dilated(gray@).pixels);
        } else {
            assert(out@.pixels =~= eroded(gray@).pixels);
        }
    }
    out
}

/// Erodes a grayscale image with the 3 by 3 square.
pub fn erode(gray: &GrayBuffer) -> (out: GrayBuffer)
    ensures
        out@ == eroded(gray@),
{
    square_filter(gray, false)
}

/// Dilates a grayscale image with the 3 by 3 square.
pub fn dilate(gray: &GrayBuffer) -> (out: GrayBuffer)
    ensures
        out@ == dilated(gray@),
{
    square_filter(gray, true)
}

/// Erodes the grayscale of an image.
pub fn apply_erosion(img: &PixelBuffer) -> (res: Result<PixelBuffer, InvalidInput>)
    ensures
        view_of(res) == erosion_result(img@),
{
    if img.width() < 3 || img.height() < 3 {
        return Err(InvalidInput::TooSmall);
    }
    let gray = img.to_luma();
    Ok(erode(&gray).to_rgb())
}

/// Dilates the grayscale of an image.
pub fn apply_dilation(img: &PixelBuffer) -> (res: Result<PixelBuffer, InvalidInput>)
    ensures
        view_of(res) == dilation_result(img@),
{
    if img.width() < 3 || img.height() < 3 {
        return Err(InvalidInput::TooSmall);
    }
    let gray = img.to_luma();
    Ok(dilate(&gray).to_rgb())
}

/// Opens the grayscale of an image: erosion, then dilation.
pub fn apply_opening(img: &PixelBuffer) -> (res: Result<PixelBuffer, InvalidInput>)
    ensures
        view_of(res) == opening_result(img@),
{
    if img.width() < 3 || img.height() < 3 {
        return Err(InvalidInput::TooSmall);
    }
    let gray = img.to_luma();
    Ok(dilate(&erode(&gray)).to_rgb())
}

/// Closes the grayscale of an image: dilation, then erosion.
pub fn apply_closing(img: &PixelBuffer) -> (res: Result<PixelBuffer, InvalidInput>)
    ensures
        view_of(res) == closing_result(img@),
{
    if img.width() < 3 || img.height() < 3 {
        return Err(InvalidInput::TooSmall);
    }
    let gray = img.to_luma();
    Ok(erode(&dilate(&gray)).to_rgb())
}

/// A pixel stands alone against a level: every other pixel of the image that
/// is at most two rows and two columns away from it has that level.
pub open spec fn stands_alone(g: GrayView, x: int, y: int, around: u8) -> bool {
    forall|i: int, j: int|
        0 <= i < g.width && 0 <= j < g.height && x - 2 <= i <= x + 2 && y - 2 <= j <= y + 2 && !(i
            == x && j == y) ==> #[trigger] g.at(i, j) == around
}

/// What erosion and dilation give at a position.
pub proof fn lemma_filtered_at(g: GrayView, x: int, y: int)
    requires
        g.wf(),
        0 <= x < g.width,
        0 <= y < g.height,
    ensures
        eroded(g).at(x, y) == window_min(g, x, y, 1, 9),
        dilated(g).at(x, y) == window_max(g, x, y, 1, 9),
{
    lemma_index_in_range(x, y, g.width as int, g.height as int);
    lemma_index_join(x, y, g.width as int);
}

/// Next to a pixel that stands alone against a level, and at the pixel
/// itself, the square of every position holds a sample of that level.
proof fn lemma_square_meets_level(g: GrayView, x: int, y: int, cx: int, cy: int, around: u8)
    requires
        g.wf(),
        g.width >= 3,
        g.height >= 3,
        0 <= x < g.width,
        0 <= y < g.height,
        0 <= cx < g.width,
        0 <= cy < g.height,
        x - 1 <= cx <= x + 1,
        y - 1 <= cy <= y + 1,
        stands_alone(g, x, y, around),
    ensures
        exists|j: int| 0 <= j < 9 && window_level(g, cx, cy, 1, j) == around,
{
    if cx == x && cy == y {
        if x + 1 < g.width {
            assert(g.at(x + 1, y) == around);
            assert(window_level(g, cx, cy, 1, 5) == g.at(x + 1, y));
        } else {
            assert(g.at(x - 1, y) == around);
            assert(window_level(g, cx, cy, 1, 3) == g.at(x - 1, y));
        }
    } else {
        assert(g.at(cx, cy) == around);
        assert(window_level(g, cx, cy, 1, 4) == g.at(cx, cy));
    }
}

/// Opening takes away a speck: a pixel that stands alone against black is
/// black after opening, however bright it was.
pub proof fn lemma_opening_removes_speck(g: GrayView, x: int, y: int)
    requires
        g.wf(),
        g.width >= 3,
        g.height >= 3,
        0 <= x < g.width,
        0 <= y < g.height,
        stands_alone(g, x, y, 0),
    ensures
        opened(g).at(x, y) == 0,
{
    let e = eroded(g);
    assert forall|j: int| 0 <= j < 9 implies #[trigger] window_level(e, x, y, 1, j) <= 0 by {
        let cx = clamp(x + j % 3 - 1, 0, g.width - 1);
        let cy = clamp(y + j / 3 - 1, 0, g.height - 1);
        assert(window_level(e, x, y, 1, j) == e.at(cx, cy));
        lemma_filtered_at(g, cx, cy);
        lemma_square_meets_level(g, x, y, cx, cy, 0);
        let w = choose|w: int| 0 <= w < 9 && window_level(g, cx, cy, 1, w) == 0;
        lemma_window_extremes(g, cx, cy, 1, 9, w);
    }
    lemma_window_extremes_bounded(e, x, y, 1, 9, 0, 0);
    lemma_filtered_at(e, x, y);
}

/// Closing fills a hole: a pixel that stands alone against white is white
/// after closing, however dark it was.
pub proof fn lemma_closing_fills_hole(g: GrayView, x: int, y: int)
    requires
        g.wf(),
        g.width >= 3,
        g.height >= 3,
        0 <= x < g.width,
        0 <= y < g.height,
        stands_alone(g, x, y, 255),
    ensures
        closed(g).at(x, y) == 255,
{
    let d = dilated(g);
    assert forall|j: int| 0 <= j < 9 implies #[trigger] window_level(d, x, y, 1, j) >= 255 by {
        let cx = clamp(x + j % 3 - 1, 0, g.width - 1);
        let cy = clamp(y + j / 3 - 1, 0, g.height - 1);
        assert(window_level(d, x, y, 1, j) == d.at(cx, cy));
        lemma_filtered_at(g, cx, cy);
        lemma_square_meets_level(g, x, y, cx, cy, 255);
        let w = choose|w: int| 0 <= w < 9 && window_level(g, cx, cy, 1, w) == 255;
        lemma_window_extremes(g, cx, cy, 1, 9, w);
    }
    lemma_window_extremes_bounded(d, x, y, 1, 9, 255, 255);
    lemma_filtered_at(d, x, y);
}

} // verus!
