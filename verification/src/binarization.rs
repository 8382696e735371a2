//! Turning an image into pure black and white.
//!
//! Every method works on the grayscale of the image and gives an image whose
//! pixels are black (0, 0, 0) or white (255, 255, 255).

use vstd::prelude::*;
use crate::buffer::{clamp, gray_rgb, view_of, GrayBuffer, GrayView, ImageView, PixelBuffer, MAX_PIXELS};
use crate::buffer::{lemma_index_in_range, lemma_index_join, lemma_index_split};
use crate::error::InvalidInput;
use crate::window::{lemma_window_bounds, window_size, window_square_sum, window_sum};
use crate::window::window_sums;

verus! {

/// How many samples have exactly the given level.
pub open spec fn count_level(px: Seq<u8>, level: int) -> nat
    decreases px.len(),
{
    if px.len() == 0 {
        0
    } else {
        count_level(px.drop_last(), level) + if px.last() == level {
            1nat
        } else {
            0nat
        }
    }
}

/// How many samples are at most `t`.
pub open spec fn count_upto(px: Seq<u8>, t: int) -> nat
    decreases px.len(),
{
    if px.len() == 0 {
        0
    } else {
        count_upto(px.drop_last(), t) + if px.last() <= t {
            1nat
        } else {
            0nat
        }
    }
}

/// The sum of the samples that are at most `t`.
pub open spec fn sum_upto(px: Seq<u8>, t: int) -> nat
    decreases px.len(),
{
    if px.len() == 0 {
        0
    } else {
        sum_upto(px.drop_last(), t) + if px.last() <= t {
            px.last() as nat
        } else {
            0nat
        }
    }
}

/// The sum of all samples.
pub open spec fn sum_levels(px: Seq<u8>) -> nat {
    sum_upto(px, 255)
}

/// Raising the bound by one level adds the samples of that level.
pub proof fn lemma_upto_step(px: Seq<u8>, t: int)
    ensures
        count_upto(px, t) == count_upto(px, t - 1) + count_level(px, t),
        sum_upto(px, t) == sum_upto(px, t - 1) + t * count_level(px, t),
    decreases px.len(),
{
    if px.len() > 0 {
        lemma_upto_step(px.drop_last(), t);
        let c = count_level(px.drop_last(), t);
        assert(t * (c + 1) == t * c + t) by (nonlinear_arith);
    } else {
        assert(t * 0 == 0);
    }
}

/// The counts and sums below a bound, held against the whole.
pub proof fn lemma_upto_bounds(px: Seq<u8>, t: int)
    ensures
        count_upto(px, t) <= px.len(),
        t < 0 ==> count_upto(px, t) == 0 && sum_upto(px, t) == 0,
        t >= 255 ==> count_upto(px, t) == px.len() && sum_upto(px, t) == sum_levels(px),
        sum_upto(px, t) <= sum_levels(px),
        sum_upto(px, t) <= 255 * count_upto(px, t),
        sum_levels(px) - sum_upto(px, t) <= 255 * (px.len() - count_upto(px, t)),
        count_level(px, t) <= px.len(),
    decreases px.len(),
{
    if px.len() > 0 {
        lemma_upto_bounds(px.drop_last(), t);
    }
}

/// Both classes that the bound `t` separates have a member.
pub open spec fn class_split(px: Seq<u8>, t: int) -> bool {
    0 < count_upto(px, t) < px.len()
}

/// The numerator of the between-class variance at `t`. With `wb` and `wf` the
/// sizes of the two classes and `mb` and `mf` their means, the variance
/// `wb * wf * (mb - mf)^2` is this numerator over `spread_denominator`.
pub open spec fn spread_numerator(px: Seq<u8>, t: int) -> int {
    let d = sum_upto(px, t) * px.len() - sum_levels(px) * count_upto(px, t);
    d * d
}

/// The denominator of the between-class variance at `t`: the product of the
/// sizes of the two classes.
pub open spec fn spread_denominator(px: Seq<u8>, t: int) -> int {
    count_upto(px, t) * (px.len() - count_upto(px, t))
}

/// The between-class variance at `a` is greater than that at `b`.
pub open spec fn variance_exceeds(px: Seq<u8>, a: int, b: int) -> bool {
    spread_numerator(px, a) * spread_denominator(px, b) > spread_numerator(px, b)
        * spread_denominator(px, a)
}

/// A level that can be chosen: both of its classes have a member and its
/// between-class variance is above zero.
pub open spec fn otsu_candidate(px: Seq<u8>, t: int) -> bool {
    &&& 0 <= t <= 255
    &&& class_split(px, t)
    &&& spread_numerator(px, t) > 0
}

/// `t` is the first level of greatest between-class variance, or zero where
/// no level can be chosen.
pub open spec fn is_otsu_threshold(px: Seq<u8>, t: int) -> bool {
    if exists|c: int| otsu_candidate(px, c) {
        &&& otsu_candidate(px, t)
        &&& forall|c: int| otsu_candidate(px, c) ==> !variance_exceeds(px, c, t)
        &&& forall|c: int| otsu_candidate(px, c) && c < t ==> variance_exceeds(px, t, c)
    } else {
        t == 0
    }
}

/// The best level among those below `n`, found by looking at them in order.
pub open spec fn otsu_scan(px: Seq<u8>, n: nat) -> int
    decreases n,
{
    if n == 0 {
        0
    } else {
        let prev = otsu_scan(px, (n - 1) as nat);
        let t = n - 1;
        if otsu_candidate(px, t) && (!otsu_candidate(px, prev) || variance_exceeds(px, t, prev)) {
            t
        } else {
            prev
        }
    }
}

/// The threshold of Otsu's method.
pub open spec fn otsu_threshold(px: Seq<u8>) -> int {
    otsu_scan(px, 256)
}

/// Of three fractions with positive denominators: if the first is not
/// greater than the second and the third is greater than the second, the
/// third is greater than the first.
proof fn lemma_variance_order(n1: int, d1: int, n2: int, d2: int, n3: int, d3: int)
    requires
        d1 > 0,
        d2 > 0,
        d3 > 0,
        n1 >= 0,
        n2 >= 0,
        n3 >= 0,
        !(n1 * d2 > n2 * d1),
        n3 * d2 > n2 * d3,
    ensures
        n3 * d1 > n1 * d3,
{
    assert(n1 * d2 * d3 <= n2 * d1 * d3) by (nonlinear_arith)
        requires
            n1 * d2 <= n2 * d1,
            d3 > 0,
    ;
    assert(n3 * d2 * d1 > n2 * d3 * d1) by (nonlinear_arith)
        requires
            n3 * d2 > n2 * d3,
            d1 > 0,
    ;
    assert(n3 * d1 > n1 * d3) by (nonlinear_arith)
        requires
            n1 * d2 * d3 <= n2 * d1 * d3,
            n3 * d2 * d1 > n2 * d3 * d1,
            d2 > 0,
    ;
}

/// A split level has a positive denominator and a numerator that is not
/// negative.
proof fn lemma_spread_signs(px: Seq<u8>, t: int)
    requires
        class_split(px, t),
    ensures
        spread_denominator(px, t) > 0,
        spread_numerator(px, t) >= 0,
{
    let a = count_upto(px, t) as int;
    let b = px.len() - count_upto(px, t);
    assert(a * b > 0) by (nonlinear_arith)
        requires
            a > 0,
            b > 0,
    ;
    let d = sum_upto(px, t) * px.len() - sum_levels(px) * count_upto(px, t);
    assert(d * d >= 0) by (nonlinear_arith);
}

/// What the scan has found after the levels below `n`.
pub open spec fn scan_holds(px: Seq<u8>, n: nat, best: int) -> bool {
    if exists|c: int| c < n && otsu_candidate(px, c) {
        &&& best < n
        &&& otsu_candidate(px, best)
        &&& forall|c: int| c < n && otsu_candidate(px, c) ==> !variance_exceeds(px, c, best)
        &&& forall|c: int| otsu_candidate(px, c) && c < best ==> variance_exceeds(px, best, c)
    } else {
        best == 0
    }
}

/// The scan finds the first level of greatest variance among those it has
/// looked at.
pub proof fn lemma_otsu_scan(px: Seq<u8>, n: nat)
    ensures
        scan_holds(px, n, otsu_scan(px, n)),
    decreases n,
{
    if n == 0 {
        assert(!exists|c: int| c < 0 && otsu_candidate(px, c));
    } else {
        let m = (n - 1) as nat;
        let t = n - 1;
        lemma_otsu_scan(px, m);
        let prev = otsu_scan(px, m);
        let best = otsu_scan(px, n);
        let had = exists|c: int| c < m && otsu_candidate(px, c);
        if otsu_candidate(px, t) {
            lemma_spread_signs(px, t);
            if had {
                lemma_spread_signs(px, prev);
                if variance_exceeds(px, t, prev) {
                    assert forall|c: int| c < n && otsu_candidate(px, c) implies !variance_exceeds(
                        px,
                        c,
                        t,
                    ) by {
                        if c < m {
                            lemma_spread_signs(px, c);
                            lemma_variance_order(
                                spread_numerator(px, c),
                                spread_denominator(px, c),
                                spread_numerator(px, prev),
                                spread_denominator(px, prev),
                                spread_numerator(px, t),
                                spread_denominator(px, t),
                            );
                        }
                    }
                    assert forall|c: int| otsu_candidate(px, c) && c < t implies variance_exceeds(
                        px,
                        t,
                        c,
                    ) by {
                        lemma_spread_signs(px, c);
                        lemma_variance_order(
                            spread_numerator(px, c),
                            spread_denominator(px, c),
                            spread_numerator(px, prev),
                            spread_denominator(px, prev),
                            spread_numerator(px, t),
                            spread_denominator(px, t),
                        );
                    }
                } else {
                    assert(best == prev);
                }
            } else {
                assert(prev == 0);
                if t > 0 {
                    assert(!otsu_candidate(px, prev)) by {
                        if otsu_candidate(px, prev) {
                            assert(0 < m && otsu_candidate(px, 0));
                        }
                    }
                }
                assert(best == t);
                assert forall|c: int| otsu_candidate(px, c) && c < t implies variance_exceeds(
                    px,
                    t,
                    c,
                ) by {
                    assert(c < m && otsu_candidate(px, c));
                }
            }
            assert(t < n && otsu_candidate(px, t));
        } else {
            assert(best == prev);
            if had {
                let w = choose|c: int| c < m && otsu_candidate(px, c);
                assert(w < n && otsu_candidate(px, w));
            } else {
                assert forall|c: int| c < n implies !otsu_candidate(px, c) by {
                    if c < m {
                    }
                }
            }
        }
    }
}

/// The threshold of Otsu's method is the first level of greatest
/// between-class variance, or zero where no level has two classes of
/// different means. It is never the top level.
pub proof fn lemma_otsu_threshold(px: Seq<u8>)
    ensures
        is_otsu_threshold(px, otsu_threshold(px)),
        0 <= otsu_threshold(px) <= 254,
{
    lemma_otsu_scan(px, 256);
    let t = otsu_threshold(px);
    if exists|c: int| otsu_candidate(px, c) {
        let w = choose|c: int| otsu_candidate(px, c);
        assert(w < 256 && otsu_candidate(px, w));
        lemma_upto_bounds(px, t);
    } else {
        assert forall|c: int| c < 256 implies !otsu_candidate(px, c) by {}
    }
}

/// The 256 counts of a grayscale image: how many pixels have each level.
pub fn histogram(gray: &GrayBuffer) -> (hist: Vec<u32>)
    ensures
        hist@.len() == 256,
        forall|v: int| 0 <= v < 256 ==> #[trigger] hist@[v] == count_level(gray@.pixels, v),
{
    let n: usize = gray.pixel_len();
    let mut hist: Vec<u32> = Vec::new();
    let mut v: usize = 0;
    while v < 256
        invariant
            v <= 256,
            hist@.len() == v,
            forall|k: int| 0 <= k < v ==> #[trigger] hist@[k] == 0,
        decreases 256 - v,
    {
        hist.push(0);
        v = v + 1;
    }
    let mut i: usize = 0;
    assert(gray@.pixels.take(0) =~= Seq::<u8>::empty());
    while i < n
        invariant
            gray@.wf(),
            n == gray@.pixels.len(),
            i <= n,
            hist@.len() == 256,
            forall|k: int| 0 <= k < 256 ==> #[trigger] hist@[k] == count_level(gray@.pixels.take(i as int), k),
        decreases n - i,
    {
        let level: usize = gray.level_at(i) as usize;
        proof {
            let before = gray@.pixels.take(i as int);
            let after = gray@.pixels.take(i + 1);
            assert(after.drop_last() =~= before);
            assert(after.last() == gray@.pixels[i as int]);
            lemma_upto_bounds(before, level as int);
        }
        let count: u32 = hist[level];
        hist.set(level, count + 1);
        i = i + 1;
    }
    assert(gray@.pixels.take(n as int) =~= gray@.pixels);
    hist
}

/// The quotient and the remainder of `d * d` by `p`, for a `d` whose square
/// may not fit in 128 bits.
fn square_over(d: u128, p: u128) -> (res: (u128, u128))
    requires
        0 < p < 0x1_0000_0000_0000_0000,
        d <= 255 * p,
    ensures
        res.0 * p + res.1 == d * d,
        res.1 < p,
        res.0 <= 0x1_0000 * p,
{
    let q: u128 = d / p;
    let r: u128 = d % p;
    assert(q <= 255) by (nonlinear_arith)
        requires
            q == d / p,
            d <= 255 * p,
            p > 0,
    ;
    assert(d == q * p + r) by (nonlinear_arith)
        requires
            q == d / p,
            r == d % p,
            p > 0,
    ;
    assert(r * r < 0x1_0000_0000_0000_0000 * 0x1_0000_0000_0000_0000) by (nonlinear_arith)
        requires
            r < 0x1_0000_0000_0000_0000,
    ;
    let rr: u128 = r * r;
    let s: u128 = rr / p;
    let u: u128 = rr % p;
    assert(rr == s * p + u && s <= r) by (nonlinear_arith)
        requires
            s == rr / p,
            u == rr % p,
            rr == r * r,
            r < p,
            p > 0,
    ;
    assert(q * q <= 65025) by (nonlinear_arith)
        requires
            q <= 255,
    ;
    assert(q * q * p <= 65025 * p) by (nonlinear_arith)
        requires
            q * q <= 65025,
    ;
    assert(2 * q * r <= 510 * p) by (nonlinear_arith)
        requires
            q <= 255,
            r < p,
    ;
    let whole: u128 = q * q * p + 2 * q * r + s;
    assert(whole * p + u == d * d) by (nonlinear_arith)
        requires
            whole == q * q * p + 2 * q * r + s,
            d == q * p + r,
            r * r == s * p + u,
    ;
    (whole, u)
}

/// Whether the first of two fractions is the greater, each given by the
/// quotient and the remainder of its numerator by its denominator.
fn fraction_exceeds(w1: u128, u1: u128, d1: u128, w2: u128, u2: u128, d2: u128) -> (gt: bool)
    requires
        0 < d1 < 0x1_0000_0000_0000_0000,
        0 < d2 < 0x1_0000_0000_0000_0000,
        u1 < d1,
        u2 < d2,
    ensures
        gt == ((w1 * d1 + u1) * d2 > (w2 * d2 + u2) * d1),
{
    assert(u1 * d2 < 0x1_0000_0000_0000_0000 * 0x1_0000_0000_0000_0000 && u2 * d1
        < 0x1_0000_0000_0000_0000 * 0x1_0000_0000_0000_0000) by (nonlinear_arith)
        requires
            u1 < d1 < 0x1_0000_0000_0000_0000,
            u2 < d2 < 0x1_0000_0000_0000_0000,
    ;
    proof {
        let lhs = (w1 * d1 + u1) * d2;
        let rhs = (w2 * d2 + u2) * d1;
        assert(lhs - rhs == (w1 - w2) * (d1 * d2) + (u1 * d2 - u2 * d1)) by (nonlinear_arith)
            requires
                lhs == (w1 * d1 + u1) * d2,
                rhs == (w2 * d2 + u2) * d1,
        ;
        assert(-(d1 * d2) < u1 * d2 - u2 * d1 < d1 * d2) by (nonlinear_arith)
            requires
                0 <= u1 < d1,
                0 <= u2 < d2,
        ;
        if w1 > w2 {
            assert((w1 - w2) * (d1 * d2) >= d1 * d2) by (nonlinear_arith)
                requires
                    w1 - w2 >= 1,
                    d1 * d2 > 0,
            ;
        }
        if w1 < w2 {
            assert((w1 - w2) * (d1 * d2) <= -(d1 * d2)) by (nonlinear_arith)
                requires
                    w1 - w2 <= -1,
                    d1 * d2 > 0,
            ;
        }
        if w1 == w2 {
            assert((w1 - w2) * (d1 * d2) == 0) by (nonlinear_arith)
                requires
                    w1 - w2 == 0,
            ;
        }
        assert(d1 * d2 > 0) by (nonlinear_arith)
            requires
                d1 > 0,
                d2 > 0,
        ;
    }
    if w1 != w2 {
        w1 > w2
    } else {
        u1 * d2 > u2 * d1
    }
}

/// The threshold of Otsu's method for a grayscale image: the first level of
/// greatest between-class variance, or zero where no level separates two
/// classes of different means.
pub fn calculate_otsu_threshold(gray: &GrayBuffer) -> (t: u8)
    ensures
        t == otsu_threshold(gray@.pixels),
        is_otsu_threshold(gray@.pixels, t as int),
        t <= 254,
{
    let hist = histogram(gray);
    let n: u64 = gray.pixel_len() as u64;
    let ghost px = gray@.pixels;
    let mut total: u64 = 0;
    let mut v: usize = 0;
    proof {
        lemma_upto_bounds(px, -1);
    }
    while v < 256
        invariant
            v <= 256,
            hist@.len() == 256,
            forall|k: int| 0 <= k < 256 ==> #[trigger] hist@[k] == count_level(px, k),
            px.len() <= MAX_PIXELS,
            total == sum_upto(px, v - 1),
        decreases 256 - v,
    {
        proof {
            lemma_upto_step(px, v as int);
            lemma_upto_bounds(px, v as int);
            assert(v * count_level(px, v as int) <= 255 * MAX_PIXELS) by (nonlinear_arith)
                requires
                    v <= 255,
                    count_level(px, v as int) <= MAX_PIXELS,
            ;
        }
        total = total + (v as u64) * (hist[v] as u64);
        v = v + 1;
    }
    let mut wb: u64 = 0;
    let mut sb: u64 = 0;
    let mut best: u8 = 0;
    let mut have: bool = false;
    let mut bw: u128 = 0;
    let mut bu: u128 = 0;
    let mut bp: u128 = 1;
    let mut t: usize = 0;
    while t < 256
        invariant
            t <= 256,
            hist@.len() == 256,
            forall|k: int| 0 <= k < 256 ==> #[trigger] hist@[k] == count_level(px, k),
            px.len() <= MAX_PIXELS,
            n == px.len(),
            total == sum_levels(px),
            wb == count_upto(px, t - 1),
            sb == sum_upto(px, t - 1),
            best == otsu_scan(px, t as nat),
            have == (best < t && otsu_candidate(px, best as int)),
            have ==> bp == spread_denominator(px, best as int) && bw * bp + bu == spread_numerator(
                px,
                best as int,
            ),
            0 < bp < 0x1_0000_0000_0000_0000,
            bu < bp,
        decreases 256 - t,
    {
        proof {
            lemma_upto_step(px, t as int);
            lemma_upto_bounds(px, t as int);
            lemma_otsu_scan(px, t as nat);
            assert(t * count_level(px, t as int) <= 255 * MAX_PIXELS) by (nonlinear_arith)
                requires
                    t <= 255,
                    count_level(px, t as int) <= MAX_PIXELS,
            ;
        }
        wb = wb + hist[t] as u64;
        sb = sb + (t as u64) * (hist[t] as u64);
        let ghost prev = best as int;
        if wb > 0 && wb < n {
            let wf: u64 = n - wb;
            assert(sb * n <= 255 * MAX_PIXELS * MAX_PIXELS && total * wb <= 255 * MAX_PIXELS
                * MAX_PIXELS && wb * wf < 0x1_0000_0000_0000_0000) by (nonlinear_arith)
                requires
                    sb <= 255 * wb,
                    wb <= MAX_PIXELS,
                    n <= MAX_PIXELS,
                    wf <= MAX_PIXELS,
                    total <= 255 * n,
                    MAX_PIXELS == 0xFFFF_FFFF,
            ;
            let a: u128 = sb as u128 * n as u128;
            let b: u128 = total as u128 * wb as u128;
            let d: u128 = if a >= b {
                a - b
            } else {
                b - a
            };
            let p: u128 = wb as u128 * wf as u128;
            proof {
                lemma_spread_signs(px, t as int);
                assert(d * d == spread_numerator(px, t as int)) by (nonlinear_arith)
                    requires
                        d == a - b || d == b - a,
                        spread_numerator(px, t as int) == (a - b) * (a - b),
                ;
                assert(d <= 255 * p) by (nonlinear_arith)
                    requires
                        d == a - b || d == b - a,
                        a == sb * n,
                        b == total * wb,
                        p == wb * wf,
                        n == wb + wf,
                        0 <= sb <= 255 * wb,
                        0 <= total - sb <= 255 * wf,
                        wb > 0,
                        wf > 0,
                {
                    assert(a - b == sb * wf - (total - sb) * wb);
                    assert(sb * wf <= 255 * wb * wf);
                    assert((total - sb) * wb <= 255 * wf * wb);
                    assert(sb * wf >= 0);
                    assert((total - sb) * wb >= 0);
                }
            }
            if d > 0 {
                assert(d * d > 0) by (nonlinear_arith)
                    requires
                        d > 0,
                ;
                let (w, u) = square_over(d, p);
                let better: bool = if have {
                    fraction_exceeds(w, u, p, bw, bu, bp)
                } else {
                    true
                };
                assert(otsu_scan(px, (t + 1) as nat) == (if better {
                    t as int
                } else {
                    prev
                }));
                if better {
                    best = t as u8;
                    have = true;
                    bw = w;
                    bu = u;
                    bp = p;
                }
            } else {
                assert(d * d == 0) by (nonlinear_arith)
                    requires
                        d == 0,
                ;
            }
        }
        t = t + 1;
    }
    proof {
        lemma_otsu_threshold(px);
    }
    best
}

/// White for a level above the threshold, black otherwise.
pub open spec fn binary_level(level: u8, threshold: int) -> u8 {
    if level > threshold {
        255
    } else {
        0
    }
}

/// A grayscale image with every level above the threshold turned white and
/// every other level black.
pub open spec fn thresholded(g: GrayView, threshold: int) -> GrayView {
    GrayView {
        width: g.width,
        height: g.height,
        pixels: Seq::new(g.pixels.len(), |i: int| binary_level(g.pixels[i], threshold)),
    }
}

/// `imageproc::contrast::threshold` with `ThresholdType::Binary`. Trusted: it
/// keeps the dimensions and replaces each sample by 255 where it is greater
/// than the threshold and by 0 where it is not.
#[verifier::external_body]
fn threshold_levels(gray: &GrayBuffer, threshold: u8) -> (out: GrayBuffer)
    ensures
        out@ == thresholded(gray@, threshold as int),
{
    let img = image::GrayImage::from_raw(gray.width, gray.height, gray.data.clone()).unwrap();
    let kind = imageproc::contrast::ThresholdType::Binary;
    let out = imageproc::contrast::threshold(&img, threshold, kind);
    GrayBuffer { width: gray.width, height: gray.height, data: out.into_raw() }
}

/// Turns every level above the threshold white and every other level black.
pub fn threshold_gray(gray: &GrayBuffer, threshold: u8) -> (out: GrayBuffer)
    ensures
        out@ == thresholded(gray@, threshold as int),
{
    threshold_levels(gray, threshold)
}

/// The image that Otsu's method gives: the grayscale, cut at its Otsu
/// threshold.
pub open spec fn otsu_binarized(v: ImageView) -> ImageView {
    thresholded(v.luma(), otsu_threshold(v.luma().pixels)).to_rgb()
}

/// Binarizes with the threshold of Otsu's method.
pub fn apply_otsu_threshold(img: &PixelBuffer) -> (res: Result<PixelBuffer, InvalidInput>)
    ensures
        view_of(res) == Ok::<ImageView, InvalidInput>(otsu_binarized(img@)),
{
    let gray = img.to_luma();
    let threshold = calculate_otsu_threshold(&gray);
    let binary = threshold_levels(&gray, threshold);
    Ok(binary.to_rgb())
}

/// The mean level of the samples, rounded down.
pub open spec fn mean_level(px: Seq<u8>) -> int {
    sum_levels(px) as int / px.len() as int
}

/// The mean level of a grayscale image, rounded down.
pub fn calculate_mean_level(gray: &GrayBuffer) -> (mean: u8)
    ensures
        mean == mean_level(gray@.pixels),
{
    let n: usize = gray.pixel_len();
    let ghost px = gray@.pixels;
    let mut sum: u64 = 0;
    let mut i: usize = 0;
    assert(px.take(0) =~= Seq::<u8>::empty());
    while i < n
        invariant
            gray@.wf(),
            px == gray@.pixels,
            n == px.len(),
            i <= n,
            sum == sum_levels(px.take(i as int)),
            sum <= 255 * i,
        decreases n - i,
    {
        proof {
            let after = px.take(i + 1);
            assert(after.drop_last() =~= px.take(i as int));
            assert(after.last() == px[i as int]);
        }
        sum = sum + gray.level_at(i) as u64;
        i = i + 1;
    }
    assert(px.take(n as int) =~= px);
    let mean: u64 = sum / (n as u64);
    assert(mean <= 255) by (nonlinear_arith)
        requires
            mean == sum / (n as u64),
            sum <= 255 * n,
            n > 0,
    ;
    mean as u8
}

/// The image that the mean method gives: the grayscale, cut at its mean
/// level.
pub open spec fn mean_binarized(v: ImageView) -> ImageView {
    thresholded(v.luma(), mean_level(v.luma().pixels)).to_rgb()
}

/// Binarizes with the mean gray level of the whole image as the threshold.
pub fn apply_mean_threshold(img: &PixelBuffer) -> (res: Result<PixelBuffer, InvalidInput>)
    ensures
        view_of(res) == Ok::<ImageView, InvalidInput>(mean_binarized(img@)),
{
    let gray = img.to_luma();
    let threshold = calculate_mean_level(&gray);
    let binary = threshold_levels(&gray, threshold);
    Ok(binary.to_rgb())
}

/// The rule of Sauvola's method for one pixel. With `m` the mean and `d` the
/// standard deviation of the 15 by 15 window around it, the pixel is white
/// where its level is above `m * (1 + (d / 128 - 1) / 2)`. Here the rule is
/// cleared of its fractions and of the root: with `s` the sum of the 225
/// samples and `q` the sum of their squares, `m` is `s / 225` and `d` is the
/// root of `225 * q - s * s` over 225, so the level `p` is above the bound
/// where `256 * 225^2 * p - 128 * 225 * s` is positive and its square is
/// greater than `s * s * (225 * q - s * s)`.
pub open spec fn sauvola_foreground(g: GrayView, x: int, y: int) -> bool {
    let s = window_sum(g, x, y, 7, 225);
    let q = window_square_sum(g, x, y, 7, 225);
    let lift = 256 * 225 * 225 * g.at(x, y) - 128 * 225 * s;
    lift > 0 && lift * lift > s * s * (225 * q - s * s)
}

/// The level that Sauvola's method gives the pixel with linear index `k`.
pub open spec fn sauvola_level(g: GrayView, k: int) -> u8 {
    if sauvola_foreground(g, k % (g.width as int), k / (g.width as int)) {
        255
    } else {
        0
    }
}

/// The image that Sauvola's method gives.
pub open spec fn sauvola_binarized(v: ImageView) -> ImageView {
    GrayView {
        width: v.width,
        height: v.height,
        pixels: Seq::new(v.pixels.len(), |k: int| sauvola_level(v.luma(), k)),
    }.to_rgb()
}

fn sauvola_pixel(gray: &GrayBuffer, x: u32, y: u32) -> (white: bool)
    requires
        x < gray@.width,
        y < gray@.height,
    ensures
        white == sauvola_foreground(gray@, x as int, y as int),
{
    let (sum, squares) = window_sums(gray, x, y, 7);
    proof {
        lemma_window_bounds(gray@, x as int, y as int, 7, 225);
    }
    let level: i128 = gray.get(x, y) as i128;
    let s: i128 = sum as i128;
    let q: i128 = squares as i128;
    assert(window_size(7) == 225) by (nonlinear_arith);
    let lift: i128 = 12960000 * level - 28800 * s;
    if lift <= 0 {
        return false;
    }
    assert(lift * lift <= 3304800000 * 3304800000) by (nonlinear_arith)
        requires
            0 < lift <= 3304800000,
    ;
    assert(0 <= s * s <= 57375 * 57375) by (nonlinear_arith)
        requires
            0 <= s <= 57375,
    ;
    let spread: i128 = 225 * q - s * s;
    assert(-(57375 * 57375) * 3291890625 <= (s * s) * spread <= (57375 * 57375) * 3291890625)
        by (nonlinear_arith)
        requires
            0 <= s * s <= 57375 * 57375,
            -3291890625 <= spread <= 3291890625,
    ;
    lift * lift > (s * s) * spread
}

/// Binarizes with Sauvola's method: each pixel is held against a threshold
/// made from the mean and the standard deviation of the 15 by 15 window
/// around it.
pub fn apply_sauvola_threshold(img: &PixelBuffer) -> (res: Result<PixelBuffer, InvalidInput>)
    ensures
        view_of(res) == Ok::<ImageView, InvalidInput>(sauvola_binarized(img@)),
{
    let gray = img.to_luma();
    let width: u32 = gray.width();
    let height: u32 = gray.height();
    let n: usize = gray.pixel_len();
    let mut levels: Vec<u8> = Vec::new();
    let mut y: u32 = 0;
    let mut k: usize = 0;
    while y < height
        invariant
            gray@.wf(),
            width == gray@.width,
            height == gray@.height,
            n == width * height,
            y <= height,
            k == y * width,
            levels@.len() == k,
            forall|j: int| 0 <= j < k ==> #[trigger] levels@[j] == sauvola_level(gray@, j),
        decreases height - y,
    {
        let mut x: u32 = 0;
        while x < width
            invariant
                gray@.wf(),
                width == gray@.width,
                height == gray@.height,
                n == width * height,
                y < height,
                x <= width,
                k == y * width + x,
                levels@.len() == k,
                forall|j: int| 0 <= j < k ==> #[trigger] levels@[j] == sauvola_level(gray@, j),
            decreases width - x,
        {
            proof {
                lemma_index_in_range(x as int, y as int, width as int, height as int);
                lemma_index_join(x as int, y as int, width as int);
            }
            let white: bool = sauvola_pixel(&gray, x, y);
            levels.push(if white {
                255
            } else {
                0
            });
            x = x + 1;
            k = k + 1;
        }
        y = y + 1;
        assert(k == y * width) by (nonlinear_arith)
            requires
                k == (y - 1) * width + width,
        ;
    }
    assert(k == n) by (nonlinear_arith)
        requires
            k == y * width,
            y == height,
            n == width * height,
    ;
    let binary = GrayBuffer::assemble(width, height, levels);
    assert(binary@.pixels =~= Seq::new(img@.pixels.len(), |k: int| sauvola_level(img@.luma(), k)));
    Ok(binary.to_rgb())
}

/// The sum of the samples of row `y` from column `x0` to column `x1`, both
/// included.
pub open spec fn span_sum(g: GrayView, y: int, x0: int, x1: int) -> int
    decreases x1 - x0 + 1,
{
    if x1 < x0 {
        0
    } else {
        span_sum(g, y, x0, x1 - 1) + g.at(x1, y)
    }
}

/// The sum of the samples of the block from column `x0` to column `x1` and
/// from row `y0` to row `y1`, all included.
pub open spec fn block_sum(g: GrayView, x0: int, y0: int, x1: int, y1: int) -> int
    decreases y1 - y0 + 1,
{
    if y1 < y0 {
        0
    } else {
        block_sum(g, x0, y0, x1, y1 - 1) + span_sum(g, y1, x0, x1)
    }
}

/// The mean, rounded down, of the samples that lie inside the image and at
/// most `radius` rows and columns away from a position.
pub open spec fn block_mean(g: GrayView, x: int, y: int, radius: int) -> int {
    let x0 = clamp(x - radius, 0, g.width - 1);
    let x1 = clamp(x + radius, 0, g.width - 1);
    let y0 = clamp(y - radius, 0, g.height - 1);
    let y1 = clamp(y + radius, 0, g.height - 1);
    block_sum(g, x0, y0, x1, y1) / ((x1 - x0 + 1) * (y1 - y0 + 1))
}

/// The level that the local-mean rule gives the pixel with linear index `k`:
/// white where the pixel is at least as bright as the mean of the block of
/// the given radius around it.
pub open spec fn adaptive_level(g: GrayView, radius: int, k: int) -> u8 {
    let x = k % (g.width as int);
    let y = k / (g.width as int);
    if g.at(x, y) >= block_mean(g, x, y, radius) {
        255
    } else {
        0
    }
}

/// A grayscale image with every pixel held against the mean of its block.
pub open spec fn adaptive_thresholded(g: GrayView, radius: int) -> GrayView {
    GrayView {
        width: g.width,
        height: g.height,
        pixels: Seq::new(g.pixels.len(), |k: int| adaptive_level(g, radius, k)),
    }
}

/// The radius of the block that the local-mean rule looks at.
pub const ADAPTIVE_BLOCK_RADIUS: u32 = 15;

/// The largest pixel count that the local-mean rule takes: the block sums are
/// formed in 32 bits from two sums over the image.
pub const ADAPTIVE_MAX_PIXELS: usize = 8_421_504;

/// `imageproc::contrast::adaptive_threshold`. Trusted: it keeps the
/// dimensions and makes a pixel white where its sample is at least the sum
/// of the samples in the block around it (the block cut off at the image's
/// edges) divided, rounding down, by their number, and black where it is
/// not. It refuses a radius of zero, and it adds two sums over the image in
/// 32 bits, which the bound on the pixel count keeps from overflowing.
#[verifier::external_body]
fn adaptive_levels(gray: &GrayBuffer, radius: u32) -> (out: GrayBuffer)
    requires
        gray@.pixels.len() <= ADAPTIVE_MAX_PIXELS,
        1 <= radius <= 0xFFFF,
    ensures
        out@ == adaptive_thresholded(gray@, radius as int),
{
    let img = image::GrayImage::from_raw(gray.width, gray.height, gray.data.clone()).unwrap();
    let out = imageproc::contrast::adaptive_threshold(&img, radius);
    GrayBuffer { width: gray.width, height: gray.height, data: out.into_raw() }
}

/// What the local-mean rule gives: a refusal for an image of more than
/// `ADAPTIVE_MAX_PIXELS` pixels, the binarized image otherwise.
pub open spec fn adaptive_result(v: ImageView) -> Result<ImageView, InvalidInput> {
    if v.pixels.len() > ADAPTIVE_MAX_PIXELS {
        Err(InvalidInput::TooLarge)
    } else {
        Ok(adaptive_thresholded(v.luma(), ADAPTIVE_BLOCK_RADIUS as int).to_rgb())
    }
}

/// Binarizes by holding each pixel against the mean of the block of radius 15
/// around it, the block cut off at the image's edges.
pub fn apply_adaptive_threshold(img: &PixelBuffer) -> (res: Result<PixelBuffer, InvalidInput>)
    ensures
        view_of(res) == adaptive_result(img@),
{
    if img.pixel_len() > ADAPTIVE_MAX_PIXELS {
        return Err(InvalidInput::TooLarge);
    }
    let gray = img.to_luma();
    let binary = adaptive_levels(&gray, ADAPTIVE_BLOCK_RADIUS);
    Ok(binary.to_rgb())
}

/// Every sample is black or white.
pub open spec fn is_binary(g: GrayView) -> bool {
    forall|i: int| 0 <= i < g.pixels.len() ==> #[trigger] g.pixels[i] == 0 || g.pixels[i] == 255
}

/// The grayscale of a gray image in colour is the gray image.
pub proof fn lemma_luma_of_gray(g: GrayView)
    ensures
        g.to_rgb().luma() == g,
{
    assert forall|i: int| 0 <= i < g.pixels.len() implies #[trigger] g.to_rgb().luma().pixels[i]
        == g.pixels[i] by {
        let l = g.pixels[i];
        assert(g.to_rgb().pixels[i] == gray_rgb(l));
        assert(2126 * l + 7152 * l + 722 * l == 10000 * l);
    }
    assert(g.to_rgb().luma().pixels =~= g.pixels);
}

/// Cutting an image gives a black-and-white image, and cutting a
/// black-and-white image anywhere below the top level leaves it as it is.
pub proof fn lemma_threshold_binary(g: GrayView, t: int)
    ensures
        is_binary(thresholded(g, t)),
        is_binary(g) && 0 <= t <= 254 ==> thresholded(g, t) == g,
{
    if is_binary(g) && 0 <= t <= 254 {
        assert(thresholded(g, t).pixels =~= g.pixels);
    }
}

/// Otsu's method leaves every black-and-white image as it is.
pub proof fn lemma_otsu_keeps_binary(g: GrayView)
    requires
        is_binary(g),
    ensures
        otsu_binarized(g.to_rgb()) == g.to_rgb(),
{
    lemma_luma_of_gray(g);
    lemma_otsu_threshold(g.pixels);
    lemma_threshold_binary(g, otsu_threshold(g.pixels));
}

/// Binarizing twice with Otsu's method gives what binarizing once gives.
pub proof fn lemma_otsu_idempotent(v: ImageView)
    ensures
        otsu_binarized(otsu_binarized(v)) == otsu_binarized(v),
{
    let once = thresholded(v.luma(), otsu_threshold(v.luma().pixels));
    lemma_threshold_binary(v.luma(), otsu_threshold(v.luma().pixels));
    lemma_otsu_keeps_binary(once);
}

/// Where every sample is at least `low`, the sum is at least `low` times
/// their number; where one sample is zero, the sum is at most 255 times the
/// number of the others.
pub proof fn lemma_sum_range(px: Seq<u8>, low: int)
    ensures
        (forall|i: int| 0 <= i < px.len() ==> #[trigger] px[i] >= low) ==> sum_levels(px) >= low
            * px.len(),
        (exists|i: int| 0 <= i < px.len() && #[trigger] px[i] == 0) ==> sum_levels(px) <= 255 * (
        px.len() - 1),
        sum_levels(px) <= 255 * px.len(),
    decreases px.len(),
{
    if px.len() > 0 {
        let rest = px.drop_last();
        lemma_sum_range(rest, low);
        if forall|i: int| 0 <= i < px.len() ==> #[trigger] px[i] >= low {
            assert forall|i: int| 0 <= i < rest.len() implies #[trigger] rest[i] >= low by {
                assert(rest[i] == px[i]);
            }
            assert(low * px.len() == low * rest.len() + low) by (nonlinear_arith)
                requires
                    px.len() == rest.len() + 1,
            ;
            assert(px.last() == px[px.len() - 1]);
        }
        if exists|i: int| 0 <= i < px.len() && #[trigger] px[i] == 0 {
            let w = choose|i: int| 0 <= i < px.len() && #[trigger] px[i] == 0;
            if w < rest.len() {
                assert(rest[w] == 0);
            }
        }
    } else {
        assert(low * 0 == 0);
    }
}

/// Binarizing twice with the mean as the threshold gives what binarizing
/// once gives.
pub proof fn lemma_mean_idempotent(v: ImageView)
    ensures
        mean_binarized(mean_binarized(v)) == mean_binarized(v),
{
    let g = v.luma();
    let m = mean_level(g.pixels);
    let once = thresholded(g, m);
    let n = g.pixels.len() as int;
    lemma_luma_of_gray(once);
    lemma_threshold_binary(g, m);
    if n == 0 {
        assert(thresholded(once, mean_level(once.pixels)).pixels =~= once.pixels);
    } else {
        lemma_sum_range(g.pixels, m + 1);
        lemma_sum_range(once.pixels, 0);
        let s = sum_levels(g.pixels) as int;
        assert(m * n <= s < (m + 1) * n) by (nonlinear_arith)
            requires
                m == s / n,
                n > 0,
        ;
        assert(0 <= m) by (nonlinear_arith)
            requires
                m == s / n,
                n > 0,
                s >= 0,
        ;
        if forall|i: int| 0 <= i < g.pixels.len() ==> #[trigger] g.pixels[i] >= m + 1 {
            assert(false);
        }
        let dark = choose|i: int| 0 <= i < g.pixels.len() && !(#[trigger] g.pixels[i] >= m + 1);
        assert(once.pixels[dark] == 0);
        let s2 = sum_levels(once.pixels) as int;
        let m2 = mean_level(once.pixels);
        assert(0 <= m2 <= 254) by (nonlinear_arith)
            requires
                m2 == s2 / n,
                n > 0,
                0 <= s2 <= 255 * (n - 1),
        ;
        lemma_threshold_binary(once, m2);
    }
}

/// Sauvola's rule makes a white pixel white and a black pixel black,
/// whatever lies around them.
pub proof fn lemma_sauvola_extremes(g: GrayView, x: int, y: int)
    requires
        g.wf(),
        0 <= x < g.width,
        0 <= y < g.height,
    ensures
        g.at(x, y) == 255 ==> sauvola_foreground(g, x, y),
        g.at(x, y) == 0 ==> !sauvola_foreground(g, x, y),
{
    lemma_window_bounds(g, x, y, 7, 225);
    let s = window_sum(g, x, y, 7, 225);
    let q = window_square_sum(g, x, y, 7, 225);
    let p = g.at(x, y) as int;
    let lift = 256 * 225 * 225 * p - 128 * 225 * s;
    let spread = 225 * q - s * s;
    assert(lift == 12960000 * p - 28800 * s) by (nonlinear_arith)
        requires
            lift == 256 * 225 * 225 * p - 128 * 225 * s,
    ;
    if p == 255 {
        assert(lift >= 1652400000);
        assert(lift * lift >= 1652400000 * 1652400000) by (nonlinear_arith)
            requires
                lift >= 1652400000,
        ;
        assert(4 * spread <= 57375 * 57375) by (nonlinear_arith)
            requires
                spread == 225 * q - s * s,
                q <= 255 * s,
                0 <= s <= 57375,
        {
            assert(spread <= s * (57375 - s));
            assert((57375 - 2 * s) * (57375 - 2 * s) >= 0);
        }
        assert(0 <= s * s <= 57375 * 57375) by (nonlinear_arith)
            requires
                0 <= s <= 57375,
        ;
        assert(4 * ((s * s) * spread) <= (57375 * 57375) * (57375 * 57375)) by (nonlinear_arith)
            requires
                4 * spread <= 57375 * 57375,
                0 <= s * s <= 57375 * 57375,
        {
            let a = s * s;
            if spread >= 0 {
                assert(a * (4 * spread) <= (57375 * 57375) * (4 * spread));
                assert((57375 * 57375) * (4 * spread) <= (57375 * 57375) * (57375 * 57375));
            } else {
                assert(a * spread <= 0);
            }
        }
        assert(lift * lift > (s * s) * spread) by (nonlinear_arith)
            requires
                lift * lift >= 1652400000 * 1652400000,
                4 * ((s * s) * spread) <= (57375 * 57375) * (57375 * 57375),
        ;
        assert(lift > 0);
        assert(sauvola_foreground(g, x, y));
    }
}

/// Sauvola's method leaves every black-and-white image as it is.
pub proof fn lemma_sauvola_keeps_binary(g: GrayView)
    requires
        g.wf(),
        is_binary(g),
    ensures
        sauvola_binarized(g.to_rgb()) == g.to_rgb(),
{
    lemma_luma_of_gray(g);
    let out = GrayView {
        width: g.width,
        height: g.height,
        pixels: Seq::new(g.pixels.len(), |k: int| sauvola_level(g, k)),
    };
    assert forall|k: int| 0 <= k < g.pixels.len() implies #[trigger] out.pixels[k]
        == g.pixels[k] by {
        lemma_index_split(k, g.width as int, g.height as int);
        let x = k % (g.width as int);
        let y = k / (g.width as int);
        assert(g.at(x, y) == g.pixels[k]);
        lemma_sauvola_extremes(g, x, y);
    }
    assert(out.pixels =~= g.pixels);
    assert(g.to_rgb().pixels.len() == g.pixels.len());
    assert(sauvola_binarized(g.to_rgb()) == out.to_rgb());
}

/// Binarizing twice with Sauvola's method gives what binarizing once gives.
pub proof fn lemma_sauvola_idempotent(v: ImageView)
    requires
        v.wf(),
    ensures
        sauvola_binarized(sauvola_binarized(v)) == sauvola_binarized(v),
{
    let once = GrayView {
        width: v.width,
        height: v.height,
        pixels: Seq::new(v.pixels.len(), |k: int| sauvola_level(v.luma(), k)),
    };
    assert(is_binary(once));
    lemma_sauvola_keeps_binary(once);
}

/// There is only one first level of greatest between-class variance.
pub proof fn lemma_otsu_unique(px: Seq<u8>, a: int, b: int)
    requires
        is_otsu_threshold(px, a),
        is_otsu_threshold(px, b),
    ensures
        a == b,
{
}

/// Every sample is one of two levels.
pub open spec fn two_levels(px: Seq<u8>, low: u8, high: u8) -> bool {
    forall|i: int| 0 <= i < px.len() ==> #[trigger] px[i] == low || px[i] == high
}

/// The counts and sums of a sequence of two levels.
proof fn lemma_two_level_sums(px: Seq<u8>, low: u8, high: u8, t: int)
    requires
        low < high,
        two_levels(px, low, high),
    ensures
        t < low ==> count_upto(px, t) == 0,
        low <= t < high ==> count_upto(px, t) == count_level(px, low as int) && sum_upto(px, t)
            == low * count_level(px, low as int),
        t >= high ==> count_upto(px, t) == px.len(),
        sum_levels(px) == low * count_level(px, low as int) + high * count_level(px, high as int),
        count_level(px, low as int) + count_level(px, high as int) == px.len(),
        forall|i: int| 0 <= i < px.len() && px[i] == low ==> count_level(px, low as int) >= 1,
        forall|i: int| 0 <= i < px.len() && px[i] == high ==> count_level(px, high as int) >= 1,
    decreases px.len(),
{
    if px.len() > 0 {
        let rest = px.drop_last();
        assert(two_levels(rest, low, high)) by {
            assert forall|i: int| 0 <= i < rest.len() implies #[trigger] rest[i] == low || rest[i]
                == high by {
                assert(rest[i] == px[i]);
            }
        }
        lemma_two_level_sums(rest, low, high, t);
        lemma_two_level_sums(rest, low, high, 255);
        let a = count_level(rest, low as int);
        let b = count_level(rest, high as int);
        assert(px.last() == px[px.len() - 1]);
        assert(low * (a + 1) == low * a + low) by (nonlinear_arith);
        assert(high * (b + 1) == high * b + high) by (nonlinear_arith);
        assert forall|i: int| 0 <= i < px.len() && px[i] == low implies count_level(
            px,
            low as int,
        ) >= 1 by {
            if i < rest.len() {
                assert(rest[i] == px[i]);
            }
        }
        assert forall|i: int| 0 <= i < px.len() && px[i] == high implies count_level(
            px,
            high as int,
        ) >= 1 by {
            if i < rest.len() {
                assert(rest[i] == px[i]);
            }
        }
    } else {
        assert(low * 0 == 0 && high * 0 == 0);
    }
}

/// For an image of two levels that both occur, the threshold of Otsu's
/// method is the lower level: every level from the lower one up to the one
/// below the higher one separates the two in the same way, and the first of
/// them is chosen. So the lower level turns black and the higher one white.
pub proof fn lemma_otsu_two_levels(px: Seq<u8>, low: u8, high: u8)
    requires
        low < high,
        two_levels(px, low, high),
        exists|i: int| 0 <= i < px.len() && px[i] == low,
        exists|i: int| 0 <= i < px.len() && px[i] == high,
    ensures
        otsu_threshold(px) == low,
        binary_level(low, otsu_threshold(px)) == 0,
        binary_level(high, otsu_threshold(px)) == 255,
{
    let n = px.len() as int;
    let a = count_level(px, low as int) as int;
    let b = count_level(px, high as int) as int;
    let total = sum_levels(px) as int;
    lemma_two_level_sums(px, low, high, low as int);
    assert(total == low * a + high * b);
    assert(a >= 1 && b >= 1);
    assert forall|c: int| low <= c < high implies spread_numerator(px, c) == spread_numerator(
        px,
        low as int,
    ) && spread_denominator(px, c) == spread_denominator(px, low as int) && class_split(px, c) by {
        lemma_two_level_sums(px, low, high, c);
    }
    assert forall|c: int| c < low || c >= high implies !class_split(px, c) by {
        lemma_two_level_sums(px, low, high, c);
    }
    let d = (low * a) * n - total * a;
    assert(d == -(a * b * (high - low))) by (nonlinear_arith)
        requires
            d == (low * a) * n - total * a,
            total == low * a + high * b,
            n == a + b,
    ;
    assert(a * b * (high - low) > 0) by (nonlinear_arith)
        requires
            a >= 1,
            b >= 1,
            high - low >= 1,
    ;
    assert(d * d > 0) by (nonlinear_arith)
        requires
            d < 0,
    ;
    assert(spread_numerator(px, low as int) == d * d);
    assert(otsu_candidate(px, low as int));
    assert(is_otsu_threshold(px, low as int)) by {
        assert forall|c: int| otsu_candidate(px, c) implies !variance_exceeds(px, c, low as int) by {
            assert(low <= c < high);
        }
    }
    lemma_otsu_threshold(px);
    lemma_otsu_unique(px, low as int, otsu_threshold(px));
}

/// The sum of a block is at most 255 times the number of its samples.
pub proof fn lemma_block_sum_range(g: GrayView, x0: int, y0: int, x1: int, y1: int)
    requires
        x0 <= x1 + 1,
        y0 <= y1 + 1,
    ensures
        0 <= block_sum(g, x0, y0, x1, y1) <= 255 * ((x1 - x0 + 1) * (y1 - y0 + 1)),
    decreases y1 - y0 + 1,
{
    if y1 >= y0 {
        lemma_block_sum_range(g, x0, y0, x1, y1 - 1);
        lemma_span_sum_range(g, y1, x0, x1);
        assert((x1 - x0 + 1) * (y1 - y0 + 1) == (x1 - x0 + 1) * (y1 - 1 - y0 + 1) + (x1 - x0 + 1))
            by (nonlinear_arith);
    } else {
        assert((x1 - x0 + 1) * (y1 - y0 + 1) == 0) by (nonlinear_arith)
            requires
                y1 - y0 + 1 == 0,
        ;
    }
}

/// The sum of a span is at most 255 times the number of its samples.
pub proof fn lemma_span_sum_range(g: GrayView, y: int, x0: int, x1: int)
    requires
        x0 <= x1 + 1,
    ensures
        0 <= span_sum(g, y, x0, x1) <= 255 * (x1 - x0 + 1),
    decreases x1 - x0 + 1,
{
    if x1 >= x0 {
        lemma_span_sum_range(g, y, x0, x1 - 1);
    }
}

/// The mean of a block lies in the range of a sample.
pub proof fn lemma_block_mean_range(g: GrayView, x: int, y: int, radius: int)
    requires
        g.wf(),
        radius >= 0,
        0 <= x < g.width,
        0 <= y < g.height,
    ensures
        0 <= block_mean(g, x, y, radius) <= 255,
{
    let x0 = clamp(x - radius, 0, g.width - 1);
    let x1 = clamp(x + radius, 0, g.width - 1);
    let y0 = clamp(y - radius, 0, g.height - 1);
    let y1 = clamp(y + radius, 0, g.height - 1);
    lemma_block_sum_range(g, x0, y0, x1, y1);
    let count = (x1 - x0 + 1) * (y1 - y0 + 1);
    let sum = block_sum(g, x0, y0, x1, y1);
    assert(count > 0) by (nonlinear_arith)
        requires
            count == (x1 - x0 + 1) * (y1 - y0 + 1),
            x1 - x0 + 1 > 0,
            y1 - y0 + 1 > 0,
    ;
    assert(0 <= sum / count <= 255) by (nonlinear_arith)
        requires
            0 <= sum <= 255 * count,
            count > 0,
    ;
}

/// The local-mean rule leaves a black-and-white image as it is exactly
/// where every black pixel has some white in the block around it, enough to
/// lift the block's mean to one. A black pixel in a block of mean zero turns
/// white, so binarizing twice with this rule need not give what binarizing
/// once gives.
pub proof fn lemma_adaptive_keeps_binary(g: GrayView, radius: int)
    requires
        g.wf(),
        is_binary(g),
        radius >= 0,
    ensures
        adaptive_thresholded(g, radius) == g <==> (forall|k: int|
            0 <= k < g.pixels.len() && g.pixels[k] == 0 ==> block_mean(
                g,
                k % (g.width as int),
                k / (g.width as int),
                radius,
            ) >= 1),
{
    let out = adaptive_thresholded(g, radius);
    let lit = forall|k: int|
        0 <= k < g.pixels.len() && g.pixels[k] == 0 ==> block_mean(
            g,
            k % (g.width as int),
            k / (g.width as int),
            radius,
        ) >= 1;
    assert forall|k: int| 0 <= k < g.pixels.len() implies (#[trigger] out.pixels[k] == g.pixels[k]
        <==> (g.pixels[k] == 0 ==> block_mean(
        g,
        k % (g.width as int),
        k / (g.width as int),
        radius,
    ) >= 1)) by {
        lemma_index_split(k, g.width as int, g.height as int);
        let x = k % (g.width as int);
        let y = k / (g.width as int);
        assert(g.at(x, y) == g.pixels[k]);
        lemma_block_mean_range(g, x, y, radius);
    }
    if lit {
        assert(out.pixels =~= g.pixels);
    }
    if out == g {
        assert forall|k: int| 0 <= k < g.pixels.len() && g.pixels[k] == 0 implies block_mean(
            g,
            k % (g.width as int),
            k / (g.width as int),
            radius,
        ) >= 1 by {
            assert(out.pixels[k] == g.pixels[k]);
        }
    }
}

} // verus!
