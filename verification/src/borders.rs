//! Cutting away dark borders.
//!
//! A row or a column counts as content where the sum of its gray levels is
//! above a tenth of what an all-white row or column would give. The image is
//! cut down to the rows and columns from the first to the last with content,
//! with a margin around them, unless that would take away less than a
//! twentieth of its area.

use vstd::prelude::*;
use crate::binarization::span_sum;
use crate::buffer::{GrayBuffer, GrayView, ImageView, PixelBuffer};
use crate::buffer::lemma_index_in_range;

verus! {

/// The sum of the samples of column `x` from row `y0` to row `y1`, both
/// included.
pub open spec fn rise_sum(g: GrayView, x: int, y0: int, y1: int) -> int
    decreases y1 - y0 + 1,
{
    if y1 < y0 {
        0
    } else {
        rise_sum(g, x, y0, y1 - 1) + g.at(x, y1)
    }
}

/// The sum of the samples of row `y`.
pub open spec fn row_sum(g: GrayView, y: int) -> int {
    span_sum(g, y, 0, g.width - 1)
}

/// The sum of the samples of column `x`.
pub open spec fn column_sum(g: GrayView, x: int) -> int {
    rise_sum(g, x, 0, g.height - 1)
}

/// Row `y` has content: its sum is above a tenth of 255 times its length.
pub open spec fn content_row(g: GrayView, y: int) -> bool {
    10 * row_sum(g, y) > 255 * g.width
}

/// Column `x` has content: its sum is above a tenth of 255 times its length.
pub open spec fn content_column(g: GrayView, x: int) -> bool {
    10 * column_sum(g, x) > 255 * g.height
}

/// `t` is the first row with content, or the first row where none has any.
pub open spec fn is_first_content_row(g: GrayView, t: int) -> bool {
    if exists|y: int| 0 <= y < g.height && content_row(g, y) {
        &&& 0 <= t < g.height
        &&& content_row(g, t)
        &&& forall|y: int| 0 <= y < t ==> !content_row(g, y)
    } else {
        t == 0
    }
}

/// `b` is the last row with content, or the last row where none has any.
pub open spec fn is_last_content_row(g: GrayView, b: int) -> bool {
    if exists|y: int| 0 <= y < g.height && content_row(g, y) {
        &&& 0 <= b < g.height
        &&& content_row(g, b)
        &&& forall|y: int| b < y < g.height ==> !content_row(g, y)
    } else {
        b == g.height - 1
    }
}

/// `l` is the first column with content, or the first column where none has
/// any.
pub open spec fn is_first_content_column(g: GrayView, l: int) -> bool {
    if exists|x: int| 0 <= x < g.width && content_column(g, x) {
        &&& 0 <= l < g.width
        &&& content_column(g, l)
        &&& forall|x: int| 0 <= x < l ==> !content_column(g, x)
    } else {
        l == 0
    }
}

/// `r` is the last column with content, or the last column where none has
/// any.
pub open spec fn is_last_content_column(g: GrayView, r: int) -> bool {
    if exists|x: int| 0 <= x < g.width && content_column(g, x) {
        &&& 0 <= r < g.width
        &&& content_column(g, r)
        &&& forall|x: int| r < x < g.width ==> !content_column(g, x)
    } else {
        r == g.width - 1
    }
}

/// The first row with content.
pub open spec fn first_content_row(g: GrayView) -> int {
    choose|t: int| is_first_content_row(g, t)
}

/// The last row with content.
pub open spec fn last_content_row(g: GrayView) -> int {
    choose|b: int| is_last_content_row(g, b)
}

/// The first column with content.
pub open spec fn first_content_column(g: GrayView) -> int {
    choose|l: int| is_first_content_column(g, l)
}

/// The last column with content.
pub open spec fn last_content_column(g: GrayView) -> int {
    choose|r: int| is_last_content_column(g, r)
}

/// The margin kept around the content along an axis of the given length: a
/// fiftieth of the length, and two pixels at the least.
pub open spec fn margin(len: int) -> int {
    if len / 50 > 2 {
        len / 50
    } else {
        2
    }
}

/// A rectangle of pixels inside an image.
#[derive(Clone, Copy, Debug, PartialEq, Eq, Structural)]
pub struct CropBox {
    pub left: u32,
    pub top: u32,
    pub width: u32,
    pub height: u32,
}

/// The first position of the kept range along an axis: the first position
/// with content, less the margin, and not before the start.
pub open spec fn range_start(first: int, len: int) -> int {
    if first - margin(len) > 0 {
        first - margin(len)
    } else {
        0
    }
}

/// The last position of the kept range along an axis: the last position with
/// content, plus the margin, and not beyond the end.
pub open spec fn range_end(last: int, len: int) -> int {
    if last + margin(len) < len - 1 {
        last + margin(len)
    } else {
        len - 1
    }
}

/// The rectangle that holds the content of an image and the margin around it.
pub open spec fn content_box(g: GrayView) -> CropBox {
    let left = range_start(first_content_column(g), g.width as int);
    let right = range_end(last_content_column(g), g.width as int);
    let top = range_start(first_content_row(g), g.height as int);
    let bottom = range_end(last_content_row(g), g.height as int);
    CropBox {
        left: left as u32,
        top: top as u32,
        width: (right - left + 1) as u32,
        height: (bottom - top + 1) as u32,
    }
}

/// The part of an image inside a rectangle.
pub open spec fn cropped(v: ImageView, b: CropBox) -> ImageView {
    ImageView {
        width: b.width as nat,
        height: b.height as nat,
        pixels: Seq::new(
            (b.width * b.height) as nat,
            |k: int| v.at(b.left + k % (b.width as int), b.top + k / (b.width as int)),
        ),
    }
}

/// Whether cutting down to the rectangle is worth it: it is not where the
/// rectangle has more than 95 hundredths of the image's area.
pub open spec fn worth_cropping(v: ImageView, b: CropBox) -> bool {
    100 * (b.width * b.height) <= 95 * (v.width * v.height)
}

/// The image without its borders.
pub open spec fn borders_removed(v: ImageView) -> ImageView {
    let b = content_box(v.luma());
    if worth_cropping(v, b) {
        cropped(v, b)
    } else {
        v
    }
}

fn row_total(gray: &GrayBuffer, y: u32) -> (sum: u64)
    requires
        y < gray@.height,
    ensures
        sum == row_sum(gray@, y as int),
        sum <= 255 * gray@.width,
{
    let width: u32 = gray.width();
    let mut sum: u64 = 0;
    let mut x: u32 = 0;
    while x < width
        invariant
            width == gray@.width,
            y < gray@.height,
            x <= width,
            sum == span_sum(gray@, y as int, 0, x - 1),
            sum <= 255 * x,
        decreases width - x,
    {
        sum = sum + gray.get(x, y) as u64;
        x = x + 1;
    }
    sum
}

fn column_total(gray: &GrayBuffer, x: u32) -> (sum: u64)
    requires
        x < gray@.width,
    ensures
        sum == column_sum(gray@, x as int),
        sum <= 255 * gray@.height,
{
    let height: u32 = gray.height();
    let mut sum: u64 = 0;
    let mut y: u32 = 0;
    while y < height
        invariant
            height == gray@.height,
            x < gray@.width,
            y <= height,
            sum == rise_sum(gray@, x as int, 0, y - 1),
            sum <= 255 * y,
        decreases height - y,
    {
        sum = sum + gray.get(x, y) as u64;
        y = y + 1;
    }
    sum
}

fn has_content_row(gray: &GrayBuffer, y: u32) -> (content: bool)
    requires
        y < gray@.height,
    ensures
        content == content_row(gray@, y as int),
{
    10 * row_total(gray, y) > 255 * (gray.width() as u64)
}

fn has_content_column(gray: &GrayBuffer, x: u32) -> (content: bool)
    requires
        x < gray@.width,
    ensures
        content == content_column(gray@, x as int),
{
    10 * column_total(gray, x) > 255 * (gray.height() as u64)
}

fn find_content_rows(gray: &GrayBuffer) -> (res: (u32, u32))
    ensures
        res.0 == first_content_row(gray@),
        res.1 == last_content_row(gray@),
        res.0 <= res.1 < gray@.height,
{
    let height: u32 = gray.height();
    let ghost g = gray@;
    let mut top: u32 = 0;
    while top < height && !has_content_row(gray, top)
        invariant
            g == gray@,
            height == g.height,
            top <= height,
            forall|y: int| 0 <= y < top ==> !content_row(g, y),
        decreases height - top,
    {
        top = top + 1;
    }
    if top == height {
        assert(is_first_content_row(g, 0));
        assert(is_last_content_row(g, height - 1));
        assert forall|t: int| is_first_content_row(g, t) implies t == 0 by {}
        assert forall|b: int| is_last_content_row(g, b) implies b == height - 1 by {}
        return (0, height - 1);
    }
    let mut bottom: u32 = height - 1;
    while !has_content_row(gray, bottom)
        invariant
            g == gray@,
            height == g.height,
            top <= bottom < height,
            content_row(g, top as int),
            forall|y: int| bottom < y < height ==> !content_row(g, y),
        decreases bottom,
    {
        bottom = bottom - 1;
    }
    proof {
        assert(is_first_content_row(g, top as int));
        assert(is_last_content_row(g, bottom as int));
        assert forall|t: int| is_first_content_row(g, t) implies t == top by {
            if t < top {
            } else if t > top {
                assert(!content_row(g, top as int));
            }
        }
        assert forall|b: int| is_last_content_row(g, b) implies b == bottom by {
            if b > bottom {
            } else if b < bottom {
                assert(!content_row(g, bottom as int));
            }
        }
    }
    (top, bottom)
}

fn find_content_columns(gray: &GrayBuffer) -> (res: (u32, u32))
    ensures
        res.0 == first_content_column(gray@),
        res.1 == last_content_column(gray@),
        res.0 <= res.1 < gray@.width,
{
    let width: u32 = gray.width();
    let ghost g = gray@;
    let mut left: u32 = 0;
    while left < width && !has_content_column(gray, left)
        invariant
            g == gray@,
            width == g.width,
            left <= width,
            forall|x: int| 0 <= x < left ==> !content_column(g, x),
        decreases width - left,
    {
        left = left + 1;
    }
    if left == width {
        assert(is_first_content_column(g, 0));
        assert(is_last_content_column(g, width - 1));
        assert forall|l: int| is_first_content_column(g, l) implies l == 0 by {}
        assert forall|r: int| is_last_content_column(g, r) implies r == width - 1 by {}
        return (0, width - 1);
    }
    let mut right: u32 = width - 1;
    while !has_content_column(gray, right)
        invariant
            g == gray@,
            width == g.width,
            left <= right < width,
            content_column(g, left as int),
            forall|x: int| right < x < width ==> !content_column(g, x),
        decreases right,
    {
        right = right - 1;
    }
    proof {
        assert(is_first_content_column(g, left as int));
        assert(is_last_content_column(g, right as int));
        assert forall|l: int| is_first_content_column(g, l) implies l == left by {
            if l < left {
            } else if l > left {
                assert(!content_column(g, left as int));
            }
        }
        assert forall|r: int| is_last_content_column(g, r) implies r == right by {
            if r > right {
            } else if r < right {
                assert(!content_column(g, right as int));
            }
        }
    }
    (left, right)
}

fn kept_range(first: u32, last: u32, len: u32) -> (res: (u32, u32))
    requires
        first < len,
        last < len,
    ensures
        res.0 == range_start(first as int, len as int),
        res.1 == range_end(last as int, len as int),
        res.0 <= first,
        last <= res.1 < len,
{
    let around: u32 = if len / 50 > 2 {
        len / 50
    } else {
        2
    };
    let start: u32 = if first > around {
        first - around
    } else {
        0
    };
    let end: u32 = if (last as u64) + (around as u64) < (len as u64) - 1 {
        last + around
    } else {
        len - 1
    };
    (start, end)
}

/// The rectangle that holds the content of a grayscale image and the margin
/// around it.
pub fn find_content_box(gray: &GrayBuffer) -> (b: CropBox)
    ensures
        b == content_box(gray@),
        1 <= b.width,
        1 <= b.height,
        b.left + b.width <= gray@.width,
        b.top + b.height <= gray@.height,
{
    let (first_column, last_column) = find_content_columns(gray);
    let (first_row, last_row) = find_content_rows(gray);
    let (left, right) = kept_range(first_column, last_column, gray.width());
    let (top, bottom) = kept_range(first_row, last_row, gray.height());
    CropBox { left, top, width: right - left + 1, height: bottom - top + 1 }
}

/// `image::imageops::crop_imm`, copied out into an image of its own. Trusted:
/// for a rectangle that lies inside the image, the result has the
/// rectangle's width and height, and its pixel at column `i` of row `j` is
/// the image's pixel at column `left + i` of row `top + j`.
#[verifier::external_body]
fn crop_pixels(img: &PixelBuffer, b: CropBox) -> (out: PixelBuffer)
    requires
        1 <= b.width,
        1 <= b.height,
        b.left + b.width <= img@.width,
        b.top + b.height <= img@.height,
    ensures
        out@ == cropped(img@, b),
{
    let source = image::RgbaImage::from_raw(img.width, img.height, img.data.clone()).unwrap();
    let part = image::imageops::crop_imm(&source, b.left, b.top, b.width, b.height).to_image();
    PixelBuffer { width: b.width, height: b.height, data: part.into_raw() }
}

/// Cuts an image down to its content and a margin around it. Where the cut
/// would leave more than 95 hundredths of the area, the image is given back
/// as it is.
pub fn remove_borders(img: &PixelBuffer) -> (out: PixelBuffer)
    ensures
        out@ == borders_removed(img@),
{
    let gray = img.to_luma();
    let b = find_content_box(&gray);
    let width: u32 = img.width();
    let height: u32 = img.height();
    proof {
        lemma_index_in_range(b.width - 1, b.height - 1, width as int, height as int);
        assert((b.height - 1) * width + (b.width - 1) >= (b.height - 1) * b.width + (b.width - 1))
            by (nonlinear_arith)
            requires
                b.width <= width,
                b.height >= 1,
        ;
        assert((b.height - 1) * b.width + (b.width - 1) == b.width * b.height - 1)
            by (nonlinear_arith);
    }
    let kept: u64 = b.width as u64 * b.height as u64;
    let whole: u64 = img.pixel_len() as u64;
    if 100 * kept > 95 * whole {
        img.duplicate()
    } else {
        crop_pixels(img, b)
    }
}

proof fn lemma_first_row_from(g: GrayView, k: int)
    requires
        0 <= k <= g.height,
        forall|y: int| 0 <= y < k ==> !content_row(g, y),
    ensures
        exists|t: int| is_first_content_row(g, t),
    decreases g.height - k,
{
    if k == g.height {
        assert(is_first_content_row(g, 0));
    } else if content_row(g, k) {
        assert(is_first_content_row(g, k));
    } else {
        lemma_first_row_from(g, k + 1);
    }
}

proof fn lemma_last_row_from(g: GrayView, k: int)
    requires
        -1 <= k < g.height,
        forall|y: int| k < y < g.height ==> !content_row(g, y),
    ensures
        exists|b: int| is_last_content_row(g, b),
    decreases k + 1,
{
    if k == -1 {
        assert(is_last_content_row(g, g.height - 1));
    } else if content_row(g, k) {
        assert(is_last_content_row(g, k));
    } else {
        lemma_last_row_from(g, k - 1);
    }
}

proof fn lemma_first_column_from(g: GrayView, k: int)
    requires
        0 <= k <= g.width,
        forall|x: int| 0 <= x < k ==> !content_column(g, x),
    ensures
        exists|l: int| is_first_content_column(g, l),
    decreases g.width - k,
{
    if k == g.width {
        assert(is_first_content_column(g, 0));
    } else if content_column(g, k) {
        assert(is_first_content_column(g, k));
    } else {
        lemma_first_column_from(g, k + 1);
    }
}

proof fn lemma_last_column_from(g: GrayView, k: int)
    requires
        -1 <= k < g.width,
        forall|x: int| k < x < g.width ==> !content_column(g, x),
    ensures
        exists|r: int| is_last_content_column(g, r),
    decreases k + 1,
{
    if k == -1 {
        assert(is_last_content_column(g, g.width - 1));
    } else if content_column(g, k) {
        assert(is_last_content_column(g, k));
    } else {
        lemma_last_column_from(g, k - 1);
    }
}

/// The rectangle of the content lies inside the image, and every row and
/// every column with content lies inside the rectangle, at least the margin
/// away from its edges or as far as the image reaches.
pub proof fn lemma_content_box_holds_content(g: GrayView)
    requires
        g.wf(),
    ensures
        ({
            let b = content_box(g);
            &&& 1 <= b.width
            &&& 1 <= b.height
            &&& b.left + b.width <= g.width
            &&& b.top + b.height <= g.height
            &&& forall|y: int|
                0 <= y < g.height && content_row(g, y) ==> {
                    &&& b.top <= y < b.top + b.height
                    &&& (b.top == 0 || b.top <= y - margin(g.height as int))
                    &&& (b.top + b.height == g.height || y + margin(g.height as int) < b.top
                        + b.height)
                }
            &&& forall|x: int|
                0 <= x < g.width && content_column(g, x) ==> {
                    &&& b.left <= x < b.left + b.width
                    &&& (b.left == 0 || b.left <= x - margin(g.width as int))
                    &&& (b.left + b.width == g.width || x + margin(g.width as int) < b.left
                        + b.width)
                }
        }),
{
    lemma_first_row_from(g, 0);
    lemma_last_row_from(g, g.height - 1);
    lemma_first_column_from(g, 0);
    lemma_last_column_from(g, g.width - 1);
    let top = first_content_row(g);
    let bottom = last_content_row(g);
    let left = first_content_column(g);
    let right = last_content_column(g);
    assert(is_first_content_row(g, top));
    assert(is_last_content_row(g, bottom));
    assert(is_first_content_column(g, left));
    assert(is_last_content_column(g, right));
    assert(0 <= top <= bottom < g.height) by {
        if exists|y: int| 0 <= y < g.height && content_row(g, y) {
            if bottom < top {
                assert(!content_row(g, top));
            }
        }
    }
    assert(0 <= left <= right < g.width) by {
        if exists|x: int| 0 <= x < g.width && content_column(g, x) {
            if right < left {
                assert(!content_column(g, left));
            }
        }
    }
    assert(g.width <= g.width * g.height && g.height <= g.width * g.height) by (nonlinear_arith)
        requires
            g.width >= 1,
            g.height >= 1,
    ;
    let b = content_box(g);
    let box_top = range_start(top, g.height as int);
    let box_bottom = range_end(bottom, g.height as int);
    let box_left = range_start(left, g.width as int);
    let box_right = range_end(right, g.width as int);
    assert(b.top == box_top && b.height == box_bottom - box_top + 1);
    assert(b.left == box_left && b.width == box_right - box_left + 1);
    assert forall|y: int| 0 <= y < g.height && content_row(g, y) implies top <= y <= bottom by {
        if y < top {
            assert(!content_row(g, y));
        }
        if y > bottom {
            assert(!content_row(g, y));
        }
    }
    assert forall|x: int| 0 <= x < g.width && content_column(g, x) implies left <= x <= right by {
        if x < left {
            assert(!content_column(g, x));
        }
        if x > right {
            assert(!content_column(g, x));
        }
    }
}

} // verus!
