//! Measuring how sharp, how rich in contrast, how noisy and how bright an
//! image is.
//!
//! All four scores are given in thousandths and rounded down: a blur score
//! of 30000 stands for 30.

use vstd::prelude::*;
use crate::binarization::sum_levels;
use crate::buffer::{GrayBuffer, GrayView, PixelBuffer, MAX_PIXELS};
use crate::buffer::{lemma_index_in_range, lemma_index_join, lemma_index_split};
use crate::error::InvalidInput;
use crate::numeric::{integer_sqrt, isqrt, lemma_isqrt_of_square};
use crate::window::{lemma_window_bounds, window_level, window_size, window_square_sum};
use crate::window::{window_sum, window_sums};

verus! {

/// The four scores of an image, each in thousandths.
#[derive(Clone, Copy, Debug, PartialEq, Eq, Structural)]
pub struct ImageQualityMetrics {
    /// Sharpness, from 0 to 100000; higher is sharper.
    pub blur_score: u32,
    /// Contrast, from 0 to 100000; higher is richer.
    pub contrast_score: u32,
    /// Noise, from 0 to 100000; lower is cleaner.
    pub noise_level: u32,
    /// Mean gray level, from 0 to 255000.
    pub brightness_level: u32,
}

/// The top of the scale of the blur, contrast and noise scores.
pub const SCORE_MAX: u32 = 100_000;

/// The response of the Laplacian at a position: eight times the sample less
/// its eight neighbours.
pub open spec fn laplacian(g: GrayView, x: int, y: int) -> int {
    8 * g.at(x, y) - g.at(x - 1, y - 1) - g.at(x, y - 1) - g.at(x + 1, y - 1) - g.at(x - 1, y)
        - g.at(x + 1, y) - g.at(x - 1, y + 1) - g.at(x, y + 1) - g.at(x + 1, y + 1)
}

/// The sum of the squared Laplacian over the first `k` pixels that are not on
/// the border, counted row by row.
pub open spec fn laplacian_energy(g: GrayView, k: nat) -> int
    decreases k,
{
    if k == 0 {
        0
    } else {
        let j = k - 1;
        let inner = g.width - 2;
        let l = laplacian(g, 1 + j % inner, 1 + j / inner);
        laplacian_energy(g, j as nat) + l * l
    }
}

/// `v` or the top of the scale, whichever is less.
pub open spec fn capped(v: int) -> int {
    if v > SCORE_MAX {
        SCORE_MAX as int
    } else {
        v
    }
}

/// The blur score: the mean squared Laplacian over the pixels that are not
/// on the border, divided by 1000.
pub open spec fn blur_score(g: GrayView) -> int {
    let count = (g.width - 2) * (g.height - 2);
    capped(laplacian_energy(g, count as nat) / count)
}

/// The sum of the squares of the samples.
pub open spec fn square_sum(px: Seq<u8>) -> nat
    decreases px.len(),
{
    if px.len() == 0 {
        0
    } else {
        square_sum(px.drop_last()) + (px.last() * px.last()) as nat
    }
}

/// `v` where it is positive, zero otherwise.
pub open spec fn positive_part(v: int) -> nat {
    if v > 0 {
        v as nat
    } else {
        0
    }
}

/// The contrast score: the standard deviation of the samples divided by
/// 2.55. With `n` samples of sum `s` and sum of squares `q`, the deviation is
/// the root of `n * q - s * s` over `n`.
pub open spec fn contrast_score(px: Seq<u8>) -> int {
    let n = px.len() as int;
    let spread = n * square_sum(px) - sum_levels(px) * sum_levels(px);
    capped(isqrt(positive_part(spread) * 10_000_000_000) as int / (255 * n))
}

/// The brightness level: the mean of the samples.
pub open spec fn brightness_level(px: Seq<u8>) -> int {
    (1000 * sum_levels(px)) as int / (px.len() as int)
}

/// How many noise samples are taken along an axis of the given length: one
/// at every fifth position, with three positions kept free at both ends.
pub open spec fn grid_count(len: int) -> int {
    if len < 7 {
        0
    } else {
        (len - 7) / 5 + 1
    }
}

/// The standard deviation of the 7 by 7 window around a position, in
/// thousandths.
pub open spec fn local_deviation(g: GrayView, x: int, y: int) -> int {
    let s = window_sum(g, x, y, 3, 49);
    let q = window_square_sum(g, x, y, 3, 49);
    isqrt(positive_part(49 * q - s * s) * 1_000_000) as int / 49
}

/// The sum of the local deviations at the first `k` noise samples, counted
/// row by row.
pub open spec fn deviation_sum(g: GrayView, k: nat) -> int
    decreases k,
{
    if k == 0 {
        0
    } else {
        let j = k - 1;
        let across = grid_count(g.width as int);
        deviation_sum(g, j as nat) + local_deviation(g, 3 + 5 * (j % across), 3 + 5 * (j / across))
    }
}

/// The noise level: the mean local deviation over the noise samples, or zero
/// where the image is too small for a single sample.
pub open spec fn noise_level(g: GrayView) -> int {
    let count = grid_count(g.width as int) * grid_count(g.height as int);
    if count == 0 {
        0
    } else {
        capped(deviation_sum(g, count as nat) / count)
    }
}

/// The four scores of a grayscale image with at least three rows and columns.
pub open spec fn quality_of(g: GrayView) -> ImageQualityMetrics {
    ImageQualityMetrics {
        blur_score: blur_score(g) as u32,
        contrast_score: contrast_score(g.pixels) as u32,
        noise_level: noise_level(g) as u32,
        brightness_level: brightness_level(g.pixels) as u32,
    }
}

/// What the assessment gives: a refusal for an image with fewer than three
/// rows or columns, its scores otherwise.
pub open spec fn quality_result(g: GrayView) -> Result<ImageQualityMetrics, InvalidInput> {
    if g.width < 3 || g.height < 3 {
        Err(InvalidInput::TooSmall)
    } else {
        Ok(quality_of(g))
    }
}

fn laplacian_at(gray: &GrayBuffer, x: u32, y: u32) -> (l: i64)
    requires
        1 <= x,
        x + 1 < gray@.width,
        1 <= y,
        y + 1 < gray@.height,
    ensures
        l == laplacian(gray@, x as int, y as int),
        -2040 <= l <= 2040,
{
    8 * (gray.get(x, y) as i64) - gray.get(x - 1, y - 1) as i64 - gray.get(x, y - 1) as i64
        - gray.get(x + 1, y - 1) as i64 - gray.get(x - 1, y) as i64 - gray.get(x + 1, y) as i64
        - gray.get(x - 1, y + 1) as i64 - gray.get(x, y + 1) as i64 - gray.get(x + 1, y + 1) as i64
}

fn measure_blur(gray: &GrayBuffer) -> (score: u32)
    requires
        gray@.width >= 3,
        gray@.height >= 3,
    ensures
        score == blur_score(gray@),
        score <= SCORE_MAX,
{
    let width: u32 = gray.width();
    let height: u32 = gray.height();
    let inner: u32 = width - 2;
    let rows: u32 = height - 2;
    let mut energy: u64 = 0;
    let mut k: u64 = 0;
    let mut y: u32 = 1;
    proof {
        lemma_index_in_range(inner - 1, rows - 1, inner as int, rows as int);
        assert(inner * rows <= width * height) by (nonlinear_arith)
            requires
                0 <= inner <= width,
                0 <= rows <= height,
        ;
        assert((rows * inner) == inner * rows) by (nonlinear_arith);
    }
    while y < height - 1
        invariant
            gray@.wf(),
            width == gray@.width,
            height == gray@.height,
            width >= 3,
            height >= 3,
            inner == width - 2,
            rows == height - 2,
            1 <= y <= height - 1,
            k == (y - 1) * inner,
            inner * rows <= MAX_PIXELS,
            energy == laplacian_energy(gray@, k as nat),
            energy <= 4161600 * k,
        decreases height - y,
    {
        let mut x: u32 = 1;
        while x < width - 1
            invariant
                gray@.wf(),
                width == gray@.width,
                height == gray@.height,
                width >= 3,
                height >= 3,
                inner == width - 2,
                rows == height - 2,
                1 <= y < height - 1,
                1 <= x <= width - 1,
                k == (y - 1) * inner + (x - 1),
                inner * rows <= MAX_PIXELS,
                energy == laplacian_energy(gray@, k as nat),
                energy <= 4161600 * k,
            decreases width - x,
        {
            proof {
                lemma_index_in_range(x - 1, y - 1, inner as int, rows as int);
                lemma_index_join(x - 1, y - 1, inner as int);
            }
            let l: i64 = laplacian_at(gray, x, y);
            assert(0 <= l * l <= 4161600) by (nonlinear_arith)
                requires
                    -2040 <= l <= 2040,
            ;
            energy = energy + (l * l) as u64;
            x = x + 1;
            k = k + 1;
        }
        y = y + 1;
        assert(k == (y - 1) * inner) by (nonlinear_arith)
            requires
                k == (y - 2) * inner + inner,
        ;
    }
    assert(k == inner * rows) by (nonlinear_arith)
        requires
            k == (y - 1) * inner,
            y == height - 1,
            rows == height - 2,
    ;
    let mean: u64 = energy / k;
    if mean > SCORE_MAX as u64 {
        SCORE_MAX
    } else {
        mean as u32
    }
}

/// The sum of the samples and the sum of their squares.
fn sample_sums(gray: &GrayBuffer) -> (res: (u64, u64))
    ensures
        res.0 == sum_levels(gray@.pixels),
        res.1 == square_sum(gray@.pixels),
        res.0 <= 255 * gray@.pixels.len(),
        res.1 <= 65025 * gray@.pixels.len(),
{
    let n: usize = gray.pixel_len();
    let ghost px = gray@.pixels;
    let mut sum: u64 = 0;
    let mut squares: u64 = 0;
    let mut i: usize = 0;
    assert(px.take(0) =~= Seq::<u8>::empty());
    while i < n
        invariant
            gray@.wf(),
            px == gray@.pixels,
            n == px.len(),
            n <= MAX_PIXELS,
            i <= n,
            sum == sum_levels(px.take(i as int)),
            squares == square_sum(px.take(i as int)),
            sum <= 255 * i,
            squares <= 65025 * i,
        decreases n - i,
    {
        proof {
            let after = px.take(i + 1);
            assert(after.drop_last() =~= px.take(i as int));
            assert(after.last() == px[i as int]);
        }
        let level: u64 = gray.level_at(i) as u64;
        assert(level * level <= 65025) by (nonlinear_arith)
            requires
                level <= 255,
        ;
        sum = sum + level;
        squares = squares + level * level;
        i = i + 1;
    }
    assert(px.take(n as int) =~= px);
    (sum, squares)
}

fn measure_contrast(n: u64, sum: u64, squares: u64) -> (score: u32)
    requires
        1 <= n <= MAX_PIXELS,
        sum <= 255 * n,
        squares <= 65025 * n,
    ensures
        score == capped(
            isqrt(positive_part(n * squares - sum * sum) * 10_000_000_000) as int / (255 * n),
        ),
        score <= SCORE_MAX,
{
    assert(n * squares <= 65025 * MAX_PIXELS * MAX_PIXELS && sum * sum <= 65025 * MAX_PIXELS
        * MAX_PIXELS) by (nonlinear_arith)
        requires
            1 <= n <= MAX_PIXELS,
            sum <= 255 * n,
            squares <= 65025 * n,
    ;
    let whole: u128 = n as u128 * squares as u128;
    let square: u128 = sum as u128 * sum as u128;
    let spread: u128 = if whole > square {
        whole - square
    } else {
        0
    };
    let root: u128 = integer_sqrt(spread * 10_000_000_000);
    let score: u128 = root / (255 * n as u128);
    if score > SCORE_MAX as u128 {
        SCORE_MAX
    } else {
        score as u32
    }
}

fn deviation_at(gray: &GrayBuffer, x: u32, y: u32) -> (d: u64)
    ensures
        d == local_deviation(gray@, x as int, y as int),
        d <= 0x1_0000_0000,
{
    let (sum, squares) = window_sums(gray, x, y, 3);
    proof {
        assert(window_size(3) == 49) by (nonlinear_arith);
        lemma_window_bounds(gray@, x as int, y as int, 3, 49);
    }
    assert(sum * sum <= 12495 * 12495) by (nonlinear_arith)
        requires
            sum <= 12495,
    ;
    let whole: u128 = 49 * squares as u128;
    let square: u128 = sum as u128 * sum as u128;
    let spread: u128 = if whole > square {
        whole - square
    } else {
        0
    };
    let root: u128 = integer_sqrt(spread * 1_000_000);
    proof {
        crate::numeric::lemma_isqrt((spread * 1_000_000) as nat);
        assert(root < 0x1_0000_0000) by (nonlinear_arith)
            requires
                root * root <= spread * 1_000_000,
                spread <= 49 * 3186225,
        {
            if root >= 0x1_0000_0000 {
                assert(root * root >= 0x1_0000_0000 * 0x1_0000_0000);
            }
        }
    }
    (root / 49) as u64
}

fn grid(len: u32) -> (count: u32)
    ensures
        count == grid_count(len as int),
        count > 0 ==> 3 + 5 * (count - 1) + 3 < len,
{
    if len < 7 {
        0
    } else {
        (len - 7) / 5 + 1
    }
}

fn measure_noise(gray: &GrayBuffer) -> (score: u32)
    ensures
        score == noise_level(gray@),
        score <= SCORE_MAX,
{
    let across: u32 = grid(gray.width());
    let down: u32 = grid(gray.height());
    if across == 0 || down == 0 {
        assert(across * down == 0) by (nonlinear_arith)
            requires
                across == 0 || down == 0,
        ;
        return 0;
    }
    assert(0 < across * down <= 0xFFFF_FFFF * 0xFFFF_FFFF) by (nonlinear_arith)
        requires
            0 < across <= 0xFFFF_FFFF,
            0 < down <= 0xFFFF_FFFF,
    ;
    let count: u64 = across as u64 * down as u64;
    let mut total: u128 = 0;
    let mut k: u64 = 0;
    let mut gy: u32 = 0;
    while gy < down
        invariant
            across == grid_count(gray@.width as int),
            across > 0,
            5 * across + 1 <= u32::MAX,
            5 * down + 1 <= u32::MAX,
            count == across * down,
            gy <= down,
            k == gy * across,
            total == deviation_sum(gray@, k as nat),
            total <= 0x1_0000_0000 * k,
        decreases down - gy,
    {
        let mut gx: u32 = 0;
        while gx < across
            invariant
                across == grid_count(gray@.width as int),
                across > 0,
                5 * across + 1 <= u32::MAX,
                5 * down + 1 <= u32::MAX,
                count == across * down,
                gy < down,
                gx <= across,
                k == gy * across + gx,
                total == deviation_sum(gray@, k as nat),
                total <= 0x1_0000_0000 * k,
            decreases across - gx,
        {
            proof {
                lemma_index_in_range(gx as int, gy as int, across as int, down as int);
                lemma_index_join(gx as int, gy as int, across as int);
                assert(down * across == across * down) by (nonlinear_arith);
            }
            let d: u64 = deviation_at(gray, 3 + 5 * gx, 3 + 5 * gy);
            total = total + d as u128;
            gx = gx + 1;
            k = k + 1;
        }
        gy = gy + 1;
        assert(k == gy * across) by (nonlinear_arith)
            requires
                k == (gy - 1) * across + across,
        ;
    }
    assert(k == count) by (nonlinear_arith)
        requires
            k == gy * across,
            gy == down,
            count == across * down,
    ;
    let mean: u128 = total / (count as u128);
    if mean > SCORE_MAX as u128 {
        SCORE_MAX
    } else {
        mean as u32
    }
}

/// Measures the sharpness, the contrast, the noise and the brightness of an
/// image from its grayscale. An image with fewer than three rows or columns
/// has no pixel off the border and is turned away.
pub fn assess_image_quality(img: &PixelBuffer) -> (res: Result<ImageQualityMetrics, InvalidInput>)
    ensures
        res == quality_result(img@.luma()),
        res matches Ok(m) ==> m.blur_score <= SCORE_MAX && m.contrast_score <= SCORE_MAX
            && m.noise_level <= SCORE_MAX && m.brightness_level <= 255_000,
{
    if img.width() < 3 || img.height() < 3 {
        return Err(InvalidInput::TooSmall);
    }
    let gray = img.to_luma();
    let n: u64 = gray.pixel_len() as u64;
    let blur: u32 = measure_blur(&gray);
    let (sum, squares) = sample_sums(&gray);
    let contrast: u32 = measure_contrast(n, sum, squares);
    let noise: u32 = measure_noise(&gray);
    let brightness: u64 = 1000 * sum / n;
    assert(brightness <= 255000) by (nonlinear_arith)
        requires
            brightness == (1000 * sum) as int / (n as int),
            sum <= 255 * n,
            n > 0,
    ;
    Ok(
        ImageQualityMetrics {
            blur_score: blur,
            contrast_score: contrast,
            noise_level: noise,
            brightness_level: brightness as u32,
        },
    )
}

/// Every sample has the same level.
pub open spec fn is_flat(g: GrayView, level: u8) -> bool {
    forall|i: int| 0 <= i < g.pixels.len() ==> #[trigger] g.pixels[i] == level
}

/// In a flat image every position, and the nearest position to any place
/// outside, holds the one level.
proof fn lemma_flat_at(g: GrayView, level: u8, x: int, y: int)
    requires
        g.wf(),
        is_flat(g, level),
    ensures
        g.at_clamped(x, y) == level,
        0 <= x < g.width && 0 <= y < g.height ==> g.at(x, y) == level,
{
    let cx = crate::buffer::clamp(x, 0, g.width - 1);
    let cy = crate::buffer::clamp(y, 0, g.height - 1);
    lemma_index_in_range(cx, cy, g.width as int, g.height as int);
    assert(g.pixels[cy * g.width + cx] == level);
}

proof fn lemma_flat_energy(g: GrayView, level: u8, k: nat)
    requires
        g.wf(),
        g.width >= 3,
        g.height >= 3,
        is_flat(g, level),
        k <= (g.width - 2) * (g.height - 2),
    ensures
        laplacian_energy(g, k) == 0,
    decreases k,
{
    if k > 0 {
        lemma_flat_energy(g, level, (k - 1) as nat);
        let j = k - 1;
        let inner = g.width - 2;
        lemma_index_split(j, inner, g.height - 2);
        let x = 1 + j % inner;
        let y = 1 + j / inner;
        lemma_flat_at(g, level, x, y);
        lemma_flat_at(g, level, x - 1, y - 1);
        lemma_flat_at(g, level, x, y - 1);
        lemma_flat_at(g, level, x + 1, y - 1);
        lemma_flat_at(g, level, x - 1, y);
        lemma_flat_at(g, level, x + 1, y);
        lemma_flat_at(g, level, x - 1, y + 1);
        lemma_flat_at(g, level, x, y + 1);
        lemma_flat_at(g, level, x + 1, y + 1);
        assert(laplacian(g, x, y) == 0);
    }
}

proof fn lemma_flat_sums(px: Seq<u8>, level: u8)
    requires
        forall|i: int| 0 <= i < px.len() ==> #[trigger] px[i] == level,
    ensures
        sum_levels(px) == level * px.len(),
        square_sum(px) == level * level * px.len(),
    decreases px.len(),
{
    if px.len() > 0 {
        let rest = px.drop_last();
        assert forall|i: int| 0 <= i < rest.len() implies #[trigger] rest[i] == level by {
            assert(rest[i] == px[i]);
        }
        lemma_flat_sums(rest, level);
        assert(px.last() == px[px.len() - 1]);
        assert(level * px.len() == level * rest.len() + level) by (nonlinear_arith)
            requires
                px.len() == rest.len() + 1,
        ;
        assert(level * level * px.len() == level * level * rest.len() + level * level)
            by (nonlinear_arith)
            requires
                px.len() == rest.len() + 1,
        ;
    } else {
        assert(level * 0 == 0);
        assert(level * level * 0 == 0);
    }
}

proof fn lemma_flat_window(g: GrayView, level: u8, x: int, y: int, radius: int, k: nat)
    requires
        g.wf(),
        is_flat(g, level),
    ensures
        window_sum(g, x, y, radius, k) == level * k,
        window_square_sum(g, x, y, radius, k) == level * level * k,
    decreases k,
{
    if k > 0 {
        lemma_flat_window(g, level, x, y, radius, (k - 1) as nat);
        let j = k - 1;
        lemma_flat_at(g, level, x + j % (2 * radius + 1) - radius, y + j / (2 * radius + 1) - radius);
        assert(window_level(g, x, y, radius, j) == level);
        assert(level * k == level * (k - 1) + level) by (nonlinear_arith);
        assert(level * level * k == level * level * (k - 1) + level * level) by (nonlinear_arith);
    } else {
        assert(level * 0 == 0);
        assert(level * level * 0 == 0);
    }
}

proof fn lemma_flat_deviation(g: GrayView, level: u8, k: nat)
    requires
        g.wf(),
        is_flat(g, level),
    ensures
        deviation_sum(g, k) == 0,
    decreases k,
{
    if k > 0 {
        lemma_flat_deviation(g, level, (k - 1) as nat);
        let j = k - 1;
        let across = grid_count(g.width as int);
        let x = 3 + 5 * (j % across);
        let y = 3 + 5 * (j / across);
        lemma_flat_window(g, level, x, y, 3, 49);
        let s = window_sum(g, x, y, 3, 49);
        let q = window_square_sum(g, x, y, 3, 49);
        assert(49 * q - s * s == 0) by (nonlinear_arith)
            requires
                s == level * 49,
                q == level * level * 49,
        ;
        lemma_isqrt_of_square(0);
        assert(0 * 1_000_000 == 0);
        assert(0nat * 0nat == 0nat);
        assert(local_deviation(g, x, y) == 0);
    }
}

/// A flat image, one of a single gray level, scores zero for sharpness, for
/// contrast and for noise, and its brightness is its level.
pub proof fn lemma_flat_image_scores(g: GrayView, level: u8)
    requires
        g.wf(),
        g.width >= 3,
        g.height >= 3,
        is_flat(g, level),
    ensures
        blur_score(g) == 0,
        contrast_score(g.pixels) == 0,
        noise_level(g) == 0,
        brightness_level(g.pixels) == 1000 * level,
{
    let count = (g.width - 2) * (g.height - 2);
    assert(count > 0) by (nonlinear_arith)
        requires
            count == (g.width - 2) * (g.height - 2),
            g.width >= 3,
            g.height >= 3,
    ;
    lemma_flat_energy(g, level, count as nat);
    assert(0int / count == 0) by (nonlinear_arith)
        requires
            count > 0,
    ;
    let n = g.pixels.len() as int;
    lemma_index_in_range(0, 0, g.width as int, g.height as int);
    lemma_flat_sums(g.pixels, level);
    let s = sum_levels(g.pixels) as int;
    let q = square_sum(g.pixels) as int;
    assert(n * q - s * s == 0) by (nonlinear_arith)
        requires
            s == level * n,
            q == level * level * n,
    ;
    lemma_isqrt_of_square(0);
    assert(0nat * 0nat == 0nat);
    assert(0int / (255 * n) == 0) by (nonlinear_arith)
        requires
            n > 0,
    ;
    assert((1000 * s) / n == 1000 * level) by (nonlinear_arith)
        requires
            s == level * n,
            n > 0,
    ;
    let samples = grid_count(g.width as int) * grid_count(g.height as int);
    if samples != 0 {
        assert(samples > 0) by (nonlinear_arith)
            requires
                samples == grid_count(g.width as int) * grid_count(g.height as int),
                grid_count(g.width as int) >= 0,
                grid_count(g.height as int) >= 0,
                samples != 0,
        ;
        lemma_flat_deviation(g, level, samples as nat);
        assert(0int / samples == 0) by (nonlinear_arith)
            requires
                samples > 0,
        ;
    }
}

} // verus!
