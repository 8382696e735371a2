//! Square windows around a pixel.
//!
//! A window of radius `r` holds the `(2r + 1)^2` positions that are at most
//! `r` rows and `r` columns away from its centre. A position outside the
//! image stands for the nearest position inside it.

use vstd::prelude::*;
use crate::buffer::{GrayBuffer, GrayView};

verus! {

/// The `j`-th sample of the square window of the given radius around a
/// position, counted row by row; positions outside the image stand for the
/// nearest position inside it.
pub open spec fn window_level(g: GrayView, x: int, y: int, radius: int, j: int) -> u8 {
    g.at_clamped(x + j % (2 * radius + 1) - radius, y + j / (2 * radius + 1) - radius)
}

/// The sum of the first `k` samples of the window.
pub open spec fn window_sum(g: GrayView, x: int, y: int, radius: int, k: nat) -> int
    decreases k,
{
    if k == 0 {
        0
    } else {
        window_sum(g, x, y, radius, (k - 1) as nat) + window_level(g, x, y, radius, k - 1)
    }
}

/// The sum of the squares of the first `k` samples of the window.
pub open spec fn window_square_sum(g: GrayView, x: int, y: int, radius: int, k: nat) -> int
    decreases k,
{
    if k == 0 {
        0
    } else {
        window_square_sum(g, x, y, radius, (k - 1) as nat) + window_level(g, x, y, radius, k - 1)
            * window_level(g, x, y, radius, k - 1)
    }
}

/// The number of samples in a square window.
pub open spec fn window_size(radius: int) -> nat {
    ((2 * radius + 1) * (2 * radius + 1)) as nat
}

/// The sum of a window's samples and the sum of their squares, held against
/// the number of samples.
pub proof fn lemma_window_bounds(g: GrayView, x: int, y: int, radius: int, k: nat)
    ensures
        0 <= window_sum(g, x, y, radius, k) <= 255 * k,
        0 <= window_square_sum(g, x, y, radius, k) <= 255 * window_sum(g, x, y, radius, k),
    decreases k,
{
    if k > 0 {
        lemma_window_bounds(g, x, y, radius, (k - 1) as nat);
        let v = window_level(g, x, y, radius, k - 1);
        assert(0 <= v * v <= 255 * v) by (nonlinear_arith)
            requires
                0 <= v <= 255,
        ;
    }
}

/// The sum and the sum of squares over the square window of the given radius
/// around a position, with positions outside the image standing for the
/// nearest position inside it.
pub fn window_sums(gray: &GrayBuffer, x: u32, y: u32, radius: u32) -> (res: (u64, u64))
    requires
        radius <= 64,
    ensures
        res.0 == window_sum(gray@, x as int, y as int, radius as int, window_size(radius as int)),
        res.1 == window_square_sum(
            gray@,
            x as int,
            y as int,
            radius as int,
            window_size(radius as int),
        ),
{
    let side: u32 = 2 * radius + 1;
    assert(side * side <= 129 * 129) by (nonlinear_arith)
        requires
            side <= 129,
    ;
    let count: u32 = side * side;
    let mut sum: u64 = 0;
    let mut squares: u64 = 0;
    let mut j: u32 = 0;
    while j < count
        invariant
            side == 2 * radius + 1,
            radius <= 64,
            count == side * side,
            count <= 129 * 129,
            j <= count,
            sum == window_sum(gray@, x as int, y as int, radius as int, j as nat),
            squares == window_square_sum(gray@, x as int, y as int, radius as int, j as nat),
        decreases count - j,
    {
        proof {
            lemma_window_bounds(gray@, x as int, y as int, radius as int, j as nat);
        }
        let dx: i64 = (j % side) as i64 - radius as i64;
        let dy: i64 = (j / side) as i64 - radius as i64;
        let level: u64 = gray.get_clamped(x as i64 + dx, y as i64 + dy) as u64;
        assert(level * level <= 65025) by (nonlinear_arith)
            requires
                level <= 255,
        ;
        sum = sum + level;
        squares = squares + level * level;
        j = j + 1;
    }
    (sum, squares)
}

/// The least of the first `k` samples of the window; 255 for none.
pub open spec fn window_min(g: GrayView, x: int, y: int, radius: int, k: nat) -> u8
    decreases k,
{
    if k == 0 {
        255
    } else {
        let rest = window_min(g, x, y, radius, (k - 1) as nat);
        let level = window_level(g, x, y, radius, k - 1);
        if level < rest {
            level
        } else {
            rest
        }
    }
}

/// The greatest of the first `k` samples of the window; 0 for none.
pub open spec fn window_max(g: GrayView, x: int, y: int, radius: int, k: nat) -> u8
    decreases k,
{
    if k == 0 {
        0
    } else {
        let rest = window_max(g, x, y, radius, (k - 1) as nat);
        let level = window_level(g, x, y, radius, k - 1);
        if level > rest {
            level
        } else {
            rest
        }
    }
}

/// The least sample of a window is below or at each of its samples, and the
/// greatest is above or at each.
pub proof fn lemma_window_extremes(g: GrayView, x: int, y: int, radius: int, k: nat, j: int)
    requires
        0 <= j < k,
    ensures
        window_min(g, x, y, radius, k) <= window_level(g, x, y, radius, j),
        window_max(g, x, y, radius, k) >= window_level(g, x, y, radius, j),
    decreases k,
{
    if j < k - 1 {
        lemma_window_extremes(g, x, y, radius, (k - 1) as nat, j);
    }
}

/// Where every sample of a window is at least `low`, so is the least of them;
/// where every sample is at most `high`, so is the greatest.
pub proof fn lemma_window_extremes_bounded(
    g: GrayView,
    x: int,
    y: int,
    radius: int,
    k: nat,
    low: u8,
    high: u8,
)
    ensures
        (forall|j: int| 0 <= j < k ==> #[trigger] window_level(g, x, y, radius, j) >= low)
            ==> window_min(g, x, y, radius, k) >= low,
        (forall|j: int| 0 <= j < k ==> #[trigger] window_level(g, x, y, radius, j) <= high)
            ==> window_max(g, x, y, radius, k) <= high,
    decreases k,
{
    if k > 0 {
        lemma_window_extremes_bounded(g, x, y, radius, (k - 1) as nat, low, high);
    }
}

/// The least and the greatest sample of the square window of the given radius
/// around a position.
pub fn window_extremes(gray: &GrayBuffer, x: u32, y: u32, radius: u32) -> (res: (u8, u8))
    requires
        radius <= 64,
    ensures
        res.0 == window_min(gray@, x as int, y as int, radius as int, window_size(radius as int)),
        res.1 == window_max(gray@, x as int, y as int, radius as int, window_size(radius as int)),
{
    let side: u32 = 2 * radius + 1;
    assert(side * side <= 129 * 129) by (nonlinear_arith)
        requires
            side <= 129,
    ;
    let count: u32 = side * side;
    let mut least: u8 = 255;
    let mut greatest: u8 = 0;
    let mut j: u32 = 0;
    while j < count
        invariant
            side == 2 * radius + 1,
            radius <= 64,
            count == side * side,
            count <= 129 * 129,
            j <= count,
            least == window_min(gray@, x as int, y as int, radius as int, j as nat),
            greatest == window_max(gray@, x as int, y as int, radius as int, j as nat),
        decreases count - j,
    {
        let dx: i64 = (j % side) as i64 - radius as i64;
        let dy: i64 = (j / side) as i64 - radius as i64;
        let level: u8 = gray.get_clamped(x as i64 + dx, y as i64 + dy);
        if level < least {
            least = level;
        }
        if level > greatest {
            greatest = level;
        }
        j = j + 1;
    }
    (least, greatest)
}

} // verus!
