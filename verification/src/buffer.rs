//! Pixel buffers and their mathematical views.
//!
//! A colour buffer keeps four 8-bit samples per pixel (red, green, blue,
//! alpha), row by row, with alpha fixed at 255. Its view is the sequence of
//! its colours; the grayscale of a buffer is computed when asked for.

use vstd::prelude::*;
use crate::error::InvalidInput;

verus! {

/// The colour of one pixel. Alpha is not part of it: every pixel is opaque.
#[derive(Clone, Copy, Debug, PartialEq, Eq, Structural)]
pub struct Rgb {
    pub r: u8,
    pub g: u8,
    pub b: u8,
}

/// The largest pixel count that a buffer may have.
pub const MAX_PIXELS: u64 = 0xFFFF_FFFF;

/// `v` held to the range `lo..=hi`.
pub open spec fn clamp(v: int, lo: int, hi: int) -> int {
    if v < lo {
        lo
    } else if v > hi {
        hi
    } else {
        v
    }
}

/// The luminance of a colour: the weighted sum of its channels with the
/// weights 0.2126, 0.7152 and 0.0722, rounded down.
pub open spec fn luma_value(p: Rgb) -> u8 {
    ((2126 * p.r + 7152 * p.g + 722 * p.b) / 10000) as u8
}

/// The gray colour of a given level.
pub open spec fn gray_rgb(level: u8) -> Rgb {
    Rgb { r: level, g: level, b: level }
}

/// What a grayscale buffer holds: its dimensions and one sample per pixel,
/// row by row.
pub struct GrayView {
    pub width: nat,
    pub height: nat,
    pub pixels: Seq<u8>,
}

impl GrayView {
    /// Both dimensions are at least one, the pixel count fits in 32 bits and
    /// there is exactly one sample per pixel.
    pub open spec fn wf(self) -> bool {
        &&& 1 <= self.width
        &&& 1 <= self.height
        &&& self.width * self.height <= MAX_PIXELS
        &&& self.pixels.len() == self.width * self.height
    }

    /// The sample at column `x` of row `y`.
    pub open spec fn at(self, x: int, y: int) -> u8 {
        self.pixels[y * self.width + x]
    }

    /// The sample at the valid position nearest to column `x` of row `y`.
    pub open spec fn at_clamped(self, x: int, y: int) -> u8 {
        self.at(clamp(x, 0, self.width - 1), clamp(y, 0, self.height - 1))
    }

    /// The colour image with this level in each of the three channels.
    pub open spec fn to_rgb(self) -> ImageView {
        ImageView {
            width: self.width,
            height: self.height,
            pixels: Seq::new(self.pixels.len(), |i: int| gray_rgb(self.pixels[i])),
        }
    }
}

/// What a colour buffer holds: its dimensions and one colour per pixel, row
/// by row.
pub struct ImageView {
    pub width: nat,
    pub height: nat,
    pub pixels: Seq<Rgb>,
}

impl ImageView {
    /// Both dimensions are at least one, the pixel count fits in 32 bits and
    /// there is exactly one colour per pixel.
    pub open spec fn wf(self) -> bool {
        &&& 1 <= self.width
        &&& 1 <= self.height
        &&& self.width * self.height <= MAX_PIXELS
        &&& self.pixels.len() == self.width * self.height
    }

    /// The colour at column `x` of row `y`.
    pub open spec fn at(self, x: int, y: int) -> Rgb {
        self.pixels[y * self.width + x]
    }

    /// The colour at the valid position nearest to column `x` of row `y`.
    pub open spec fn at_clamped(self, x: int, y: int) -> Rgb {
        self.at(clamp(x, 0, self.width - 1), clamp(y, 0, self.height - 1))
    }

    /// The grayscale of the image: the luminance of each pixel.
    pub open spec fn luma(self) -> GrayView {
        GrayView {
            width: self.width,
            height: self.height,
            pixels: Seq::new(self.pixels.len(), |i: int| luma_value(self.pixels[i])),
        }
    }
}

/// The colour that four consecutive samples of a raw array stand for.
pub open spec fn raw_rgb(raw: Seq<u8>, i: int) -> Rgb {
    Rgb { r: raw[4 * i], g: raw[4 * i + 1], b: raw[4 * i + 2] }
}

/// The alpha sample of pixel `i` of a raw array.
pub open spec fn raw_alpha(raw: Seq<u8>, i: int) -> u8 {
    raw[4 * i + 3]
}

/// The raw array of a sequence of colours: four samples per pixel, alpha 255.
pub open spec fn raw_of(pixels: Seq<Rgb>) -> Seq<u8> {
    Seq::new(
        4 * pixels.len(),
        |k: int|
            if k % 4 == 0 {
                pixels[k / 4].r
            } else if k % 4 == 1 {
                pixels[k / 4].g
            } else if k % 4 == 2 {
                pixels[k / 4].b
            } else {
                255u8
            },
    )
}

/// A position inside an image has a linear index inside its pixel array.
pub proof fn lemma_index_in_range(x: int, y: int, w: int, h: int)
    requires
        0 <= x < w,
        0 <= y < h,
    ensures
        0 <= y * w + x < w * h,
{
    assert(y * w + x < w * h) by (nonlinear_arith)
        requires
            0 <= x < w,
            0 <= y < h,
    {
        assert(y * w + w <= h * w) by {
            assert((y + 1) * w <= h * w);
        }
    }
    assert(0 <= y * w) by (nonlinear_arith)
        requires
            0 <= y,
            0 < w,
    ;
}

/// A linear index inside the pixel array splits into a row and a column.
pub proof fn lemma_index_split(k: int, w: int, h: int)
    requires
        0 <= k < w * h,
        0 < w,
    ensures
        0 <= k % w < w,
        0 <= k / w < h,
        (k / w) * w + k % w == k,
{
    vstd::arithmetic::div_mod::lemma_fundamental_div_mod(k, w);
    vstd::arithmetic::div_mod::lemma_mod_bound(k, w);
    assert(0 <= k / w < h) by (nonlinear_arith)
        requires
            0 <= k < w * h,
            0 < w,
            k == w * (k / w) + k % w,
            0 <= k % w < w,
    ;
    assert((k / w) * w == w * (k / w)) by (nonlinear_arith);
}

/// A row and a column join into a linear index that splits back into them.
pub proof fn lemma_index_join(x: int, y: int, w: int)
    requires
        0 <= x < w,
        0 <= y,
    ensures
        (y * w + x) % w == x,
        (y * w + x) / w == y,
{
    assert(y * w == w * y) by (nonlinear_arith);
    vstd::arithmetic::div_mod::lemma_fundamental_div_mod_converse(y * w + x, w, y, x);
}

/// An owned grayscale image with one 8-bit sample per pixel.
pub struct GrayBuffer {
    pub(crate) width: u32,
    pub(crate) height: u32,
    pub(crate) data: Vec<u8>,
}

impl View for GrayBuffer {
    type V = GrayView;

    open(crate) spec fn view(&self) -> GrayView {
        GrayView { width: self.width as nat, height: self.height as nat, pixels: self.data@ }
    }
}

impl GrayBuffer {
    #[verifier::type_invariant]
    pub(crate) open spec fn inv(&self) -> bool {
        self@.wf()
    }

    /// Takes ownership of a sample array. It is turned away when a dimension
    /// is zero, when there are more than `MAX_PIXELS` pixels, or when the
    /// array's length is not the pixel count.
    pub fn from_raw(width: u32, height: u32, data: Vec<u8>) -> (res: Result<GrayBuffer, InvalidInput>)
        ensures
            (width == 0 || height == 0) ==> res == Err::<GrayBuffer, _>(InvalidInput::Empty),
            (width > 0 && height > 0 && width * height > MAX_PIXELS) ==> res == Err::<GrayBuffer, _>(
                InvalidInput::TooLarge,
            ),
            (width > 0 && height > 0 && width * height <= MAX_PIXELS && data@.len() != width
                * height) ==> res == Err::<GrayBuffer, _>(InvalidInput::LengthMismatch),
            (width > 0 && height > 0 && width * height <= MAX_PIXELS && data@.len() == width
                * height) ==> res is Ok && res->Ok_0@ == (GrayView {
                width: width as nat,
                height: height as nat,
                pixels: data@,
            }),
    {
        if width == 0 || height == 0 {
            return Err(InvalidInput::Empty);
        }
        let count: u64 = pixel_count(width, height);
        if count > MAX_PIXELS {
            return Err(InvalidInput::TooLarge);
        }
        if data.len() as u64 != count {
            return Err(InvalidInput::LengthMismatch);
        }
        Ok(GrayBuffer { width, height, data })
    }

    /// The number of columns.
    pub fn width(&self) -> (w: u32)
        ensures
            w == self@.width,
            self@.wf(),
    {
        proof {
            use_type_invariant(self);
        }
        self.width
    }

    /// The number of rows.
    pub fn height(&self) -> (h: u32)
        ensures
            h == self@.height,
            self@.wf(),
    {
        proof {
            use_type_invariant(self);
        }
        self.height
    }

    /// Builds a buffer from samples whose number is known to fit.
    pub(crate) fn assemble(width: u32, height: u32, data: Vec<u8>) -> (out: GrayBuffer)
        requires
            1 <= width,
            1 <= height,
            width * height <= MAX_PIXELS,
            data@.len() == width * height,
        ensures
            out@ == (GrayView { width: width as nat, height: height as nat, pixels: data@ }),
    {
        GrayBuffer { width, height, data }
    }

    /// The number of pixels.
    pub fn pixel_len(&self) -> (n: usize)
        ensures
            n == self@.width * self@.height,
            n == self@.pixels.len(),
            1 <= n <= MAX_PIXELS,
            self@.wf(),
    {
        proof {
            use_type_invariant(self);
            lemma_index_in_range(0, 0, self.width as int, self.height as int);
        }
        self.data.len()
    }

    /// The sample of the pixel with linear index `i`.
    pub fn level_at(&self, i: usize) -> (level: u8)
        requires
            i < self@.pixels.len(),
        ensures
            level == self@.pixels[i as int],
    {
        self.data[i]
    }

    /// The samples, row by row.
    pub fn as_raw(&self) -> (raw: &Vec<u8>)
        ensures
            raw@ == self@.pixels,
            self@.wf(),
    {
        proof {
            use_type_invariant(self);
        }
        &self.data
    }

    /// The sample at column `x` of row `y`.
    pub fn get(&self, x: u32, y: u32) -> (level: u8)
        requires
            x < self@.width,
            y < self@.height,
        ensures
            level == self@.at(x as int, y as int),
    {
        proof {
            use_type_invariant(self);
            lemma_index_in_range(x as int, y as int, self.width as int, self.height as int);
        }
        self.data[(y as u64 * self.width as u64 + x as u64) as usize]
    }

    /// The sample at the valid position nearest to column `x` of row `y`.
    pub fn get_clamped(&self, x: i64, y: i64) -> (level: u8)
        ensures
            level == self@.at_clamped(x as int, y as int),
    {
        proof {
            use_type_invariant(self);
        }
        let cx: u32 = clamp_coordinate(x, self.width);
        let cy: u32 = clamp_coordinate(y, self.height);
        self.get(cx, cy)
    }

    /// The colour image with this level in each of the three channels.
    pub fn to_rgb(&self) -> (out: PixelBuffer)
        ensures
            out@ == self@.to_rgb(),
    {
        proof {
            use_type_invariant(self);
        }
        let n: usize = self.data.len();
        let mut raw: Vec<u8> = Vec::new();
        let mut i: usize = 0;
        while i < n
            invariant
                n == self.data@.len(),
                n <= MAX_PIXELS,
                i <= n,
                raw@.len() == 4 * i,
                forall|j: int| 0 <= j < i ==> #[trigger] raw_rgb(raw@, j) == gray_rgb(self.data@[j]),
                forall|j: int| 0 <= j < i ==> #[trigger] raw_alpha(raw@, j) == 255,
            decreases n - i,
        {
            let level: u8 = self.data[i];
            push_pixel(&mut raw, Rgb { r: level, g: level, b: level });
            i = i + 1;
        }
        let out = PixelBuffer { width: self.width, height: self.height, data: raw };
        assert(out@.pixels =~= self@.to_rgb().pixels);
        out
    }
}

/// The number of pixels of a `width` by `height` image.
pub fn pixel_count(width: u32, height: u32) -> (n: u64)
    ensures
        n == width * height,
{
    assert(width * height <= 0xFFFF_FFFF * 0xFFFF_FFFF) by (nonlinear_arith)
        requires
            width <= 0xFFFF_FFFF,
            height <= 0xFFFF_FFFF,
    ;
    width as u64 * height as u64
}

/// The valid coordinate nearest to `v` along an axis of length `len`.
pub fn clamp_coordinate(v: i64, len: u32) -> (c: u32)
    requires
        len >= 1,
    ensures
        c == clamp(v as int, 0, len - 1),
{
    if v < 0 {
        0
    } else if v > (len - 1) as i64 {
        len - 1
    } else {
        v as u32
    }
}

/// What a stage's result stands for: the view of the buffer, or the refusal.
pub open spec fn view_of<E>(res: Result<PixelBuffer, E>) -> Result<ImageView, E> {
    match res {
        Ok(buffer) => Ok(buffer@),
        Err(e) => Err(e),
    }
}

/// Appends the four samples of one opaque pixel to a raw array.
pub(crate) fn push_pixel(raw: &mut Vec<u8>, p: Rgb)
    requires
        old(raw)@.len() % 4 == 0,
    ensures
        final(raw)@.len() == old(raw)@.len() + 4,
        forall|j: int| 0 <= j < old(raw)@.len() / 4 ==> #[trigger] raw_rgb(final(raw)@, j) == raw_rgb(old(raw)@, j),
        forall|j: int| 0 <= j < old(raw)@.len() / 4 ==> #[trigger] raw_alpha(final(raw)@, j) == raw_alpha(old(raw)@, j),
        raw_rgb(final(raw)@, old(raw)@.len() as int / 4) == p,
        raw_alpha(final(raw)@, old(raw)@.len() as int / 4) == 255,
{
    raw.push(p.r);
    raw.push(p.g);
    raw.push(p.b);
    raw.push(255);
}

/// An owned colour image: four 8-bit samples per pixel (red, green, blue,
/// alpha), row by row, every pixel opaque.
pub struct PixelBuffer {
    pub(crate) width: u32,
    pub(crate) height: u32,
    pub(crate) data: Vec<u8>,
}

impl View for PixelBuffer {
    type V = ImageView;

    open(crate) spec fn view(&self) -> ImageView {
        ImageView {
            width: self.width as nat,
            height: self.height as nat,
            pixels: Seq::new((self.data@.len() / 4) as nat, |i: int| raw_rgb(self.data@, i)),
        }
    }
}

impl PixelBuffer {
    #[verifier::type_invariant]
    pub(crate) open spec fn inv(&self) -> bool {
        &&& 1 <= self.width
        &&& 1 <= self.height
        &&& self.width * self.height <= MAX_PIXELS
        &&& self.data@.len() == 4 * (self.width * self.height)
        &&& forall|i: int| 0 <= i < self.width * self.height ==> #[trigger] raw_alpha(self.data@, i) == 255
    }

    /// The number of columns.
    pub fn width(&self) -> (w: u32)
        ensures
            w == self@.width,
            self@.wf(),
    {
        proof {
            use_type_invariant(self);
        }
        self.width
    }

    /// The number of rows.
    pub fn height(&self) -> (h: u32)
        ensures
            h == self@.height,
            self@.wf(),
    {
        proof {
            use_type_invariant(self);
        }
        self.height
    }

    /// Builds a buffer from a raw array that is already opaque.
    pub(crate) fn assemble(width: u32, height: u32, raw: Vec<u8>) -> (out: PixelBuffer)
        requires
            1 <= width,
            1 <= height,
            width * height <= MAX_PIXELS,
            raw@.len() == 4 * (width * height),
            forall|i: int| 0 <= i < width * height ==> #[trigger] raw_alpha(raw@, i) == 255,
        ensures
            out@.width == width,
            out@.height == height,
            out@.pixels.len() == width * height,
            forall|i: int| 0 <= i < width * height ==> #[trigger] out@.pixels[i] == raw_rgb(raw@, i),
    {
        PixelBuffer { width, height, data: raw }
    }

    /// The number of pixels.
    pub fn pixel_len(&self) -> (n: usize)
        ensures
            n == self@.width * self@.height,
            n == self@.pixels.len(),
            1 <= n <= MAX_PIXELS,
            4 * n <= usize::MAX,
            self@.wf(),
    {
        proof {
            use_type_invariant(self);
            lemma_index_in_range(0, 0, self.width as int, self.height as int);
        }
        self.data.len() / 4
    }

    /// Takes ownership of a raw array of four samples per pixel. It is turned
    /// away when a dimension is zero, when there are more than `MAX_PIXELS`
    /// pixels, or when the array's length is not four times the pixel count.
    /// The colours are kept; transparency is dropped, so that every pixel of
    /// the buffer is opaque.
    pub fn from_raw(width: u32, height: u32, data: Vec<u8>) -> (res: Result<PixelBuffer, InvalidInput>)
        ensures
            (width == 0 || height == 0) ==> res == Err::<PixelBuffer, _>(InvalidInput::Empty),
            (width > 0 && height > 0 && width * height > MAX_PIXELS) ==> res == Err::<PixelBuffer, _>(
                InvalidInput::TooLarge,
            ),
            (width > 0 && height > 0 && width * height <= MAX_PIXELS && data@.len() != 4 * (width
                * height)) ==> res == Err::<PixelBuffer, _>(InvalidInput::LengthMismatch),
            (width > 0 && height > 0 && width * height <= MAX_PIXELS && data@.len() == 4 * (width
                * height)) ==> res is Ok && res->Ok_0@ == (ImageView {
                width: width as nat,
                height: height as nat,
                pixels: Seq::new((width * height) as nat, |i: int| raw_rgb(data@, i)),
            }),
    {
        if width == 0 || height == 0 {
            return Err(InvalidInput::Empty);
        }
        let count: u64 = pixel_count(width, height);
        if count > MAX_PIXELS {
            return Err(InvalidInput::TooLarge);
        }
        if data.len() as u64 != 4 * count {
            return Err(InvalidInput::LengthMismatch);
        }
        let ghost given = data@;
        let mut data = data;
        let n: usize = data.len() / 4;
        let mut i: usize = 0;
        while i < n
            invariant
                n == width * height,
                data@.len() == 4 * n,
                4 * n <= usize::MAX,
                given.len() == 4 * n,
                i <= n,
                forall|j: int| 0 <= j < n ==> #[trigger] raw_rgb(data@, j) == raw_rgb(given, j),
                forall|j: int| 0 <= j < i ==> #[trigger] raw_alpha(data@, j) == 255,
            decreases n - i,
        {
            let ghost before = data@;
            data.set(4 * i + 3, 255);
            proof {
                assert forall|j: int| 0 <= j < n implies #[trigger] raw_rgb(data@, j) == raw_rgb(
                    given,
                    j,
                ) by {
                    assert(raw_rgb(before, j) == raw_rgb(given, j));
                }
                assert forall|j: int| 0 <= j < i + 1 implies #[trigger] raw_alpha(data@, j)
                    == 255 by {
                    if j < i {
                        assert(raw_alpha(before, j) == 255);
                    }
                }
            }
            i = i + 1;
        }
        let out = PixelBuffer { width, height, data };
        assert(out@.pixels =~= Seq::new((width * height) as nat, |i: int| raw_rgb(given, i)));
        Ok(out)
    }

    /// The raw array: four samples per pixel (red, green, blue, alpha), row
    /// by row, every alpha sample 255.
    pub fn as_raw(&self) -> (raw: &Vec<u8>)
        ensures
            raw@ == raw_of(self@.pixels),
            self@.wf(),
    {
        proof {
            use_type_invariant(self);
            assert forall|k: int| 0 <= k < self.data@.len() implies self.data@[k] == raw_of(
                self@.pixels,
            )[k] by {
                let i = k / 4;
                assert(raw_alpha(self.data@, i) == 255);
                assert(self@.pixels[i] == raw_rgb(self.data@, i));
            }
            assert(self.data@ =~= raw_of(self@.pixels));
        }
        &self.data
    }

    /// The colour at column `x` of row `y`.
    pub fn get_pixel(&self, x: u32, y: u32) -> (p: Rgb)
        requires
            x < self@.width,
            y < self@.height,
        ensures
            p == self@.at(x as int, y as int),
    {
        proof {
            use_type_invariant(self);
            lemma_index_in_range(x as int, y as int, self.width as int, self.height as int);
        }
        let i: usize = (y as u64 * self.width as u64 + x as u64) as usize;
        self.pixel_at(i)
    }

    /// The colour of the pixel with linear index `i`.
    pub fn pixel_at(&self, i: usize) -> (p: Rgb)
        requires
            i < self@.pixels.len(),
        ensures
            p == self@.pixels[i as int],
    {
        proof {
            use_type_invariant(self);
        }
        let len: usize = self.data.len();
        assert(4 * i + 3 < len);
        Rgb { r: self.data[4 * i], g: self.data[4 * i + 1], b: self.data[4 * i + 2] }
    }

    /// The colour at the valid position nearest to column `x` of row `y`.
    pub fn get_clamped(&self, x: i64, y: i64) -> (p: Rgb)
        ensures
            p == self@.at_clamped(x as int, y as int),
    {
        proof {
            use_type_invariant(self);
        }
        let cx: u32 = clamp_coordinate(x, self.width);
        let cy: u32 = clamp_coordinate(y, self.height);
        self.get_pixel(cx, cy)
    }

    /// A second buffer with the same contents.
    pub fn duplicate(&self) -> (out: PixelBuffer)
        ensures
            out@ == self@,
    {
        proof {
            use_type_invariant(self);
        }
        let data = self.data.clone();
        assert(data@ =~= self.data@);
        PixelBuffer { width: self.width, height: self.height, data }
    }

    /// The grayscale of the image: the luminance of each pixel.
    pub fn to_luma(&self) -> (gray: GrayBuffer)
        ensures
            gray@ == self@.luma(),
    {
        proof {
            use_type_invariant(self);
        }
        let n: usize = self.data.len() / 4;
        let mut levels: Vec<u8> = Vec::new();
        let mut i: usize = 0;
        while i < n
            invariant
                n == self.width * self.height,
                self.data@.len() == 4 * n,
                4 * n <= usize::MAX,
                i <= n,
                levels@.len() == i,
                forall|j: int| 0 <= j < i ==> #[trigger] levels@[j] == luma_value(raw_rgb(self.data@, j)),
            decreases n - i,
        {
            let p = Rgb { r: self.data[4 * i], g: self.data[4 * i + 1], b: self.data[4 * i + 2] };
            levels.push(luma_of(p));
            i = i + 1;
        }
        let gray = GrayBuffer { width: self.width, height: self.height, data: levels };
        assert(gray@.pixels =~= self@.luma().pixels);
        gray
    }
}

/// The luminance that the `image` crate's `Pixel::to_luma` gives an 8-bit RGB
/// pixel. Trusted: the crate multiplies the channels by 2126, 7152 and 722 in
/// 32-bit arithmetic, adds them up and divides by 10000, rounding down.
#[verifier::external_body]
fn luma_of(p: Rgb) -> (level: u8)
    ensures
        level == luma_value(p),
{
    image::Pixel::to_luma(&image::Rgb([p.r, p.g, p.b])).0[0]
}

} // verus!
