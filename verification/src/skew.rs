//! Finding the turn to give a skewed image.
//!
//! Two ways are offered. One takes the angles of the straight lines found in
//! an edge map, averages them and calls for a turn by the negative of the
//! mean. The other tries turns from -10 to +10 degrees in steps of a tenth
//! on a black-and-white copy, keeps the turn after which the ink gathers
//! most sharply in rows, and calls for a turn by the negative of that one.
//! Neither turns the image: each names the turn, or says that the image
//! should be left alone.

use vstd::prelude::*;
use crate::binarization::{calculate_otsu_threshold, otsu_threshold, threshold_gray, thresholded};
use crate::buffer::{GrayBuffer, GrayView, PixelBuffer, MAX_PIXELS};
use crate::buffer::lemma_index_in_range;
use crate::error::InvalidInput;

verus! {

/// A turn about the centre of the image, in degrees, as a fraction. A
/// positive turn is clockwise.
#[derive(Clone, Copy, Debug, PartialEq, Eq, Structural)]
pub struct Rotation {
    pub numerator: i128,
    pub denominator: i128,
}

/// The angle of a line brought into the range from -45 to 45 degrees: lines
/// nearer to the vertical are measured from the vertical, lines beyond 135
/// degrees from the half turn.
pub open spec fn normalized_angle(theta: int) -> int {
    if 45 < theta < 135 {
        theta - 90
    } else if theta >= 135 {
        theta - 180
    } else {
        theta
    }
}

/// An angle counts where its normalized form is no more than 45 degrees
/// away from zero.
pub open spec fn angle_counts(theta: int) -> bool {
    -45 <= normalized_angle(theta) <= 45
}

/// How many of the angles count.
pub open spec fn counted_angles(angles: Seq<u32>) -> nat
    decreases angles.len(),
{
    if angles.len() == 0 {
        0
    } else {
        counted_angles(angles.drop_last()) + if angle_counts(angles.last() as int) {
            1nat
        } else {
            0nat
        }
    }
}

/// The sum of the normalized angles that count.
pub open spec fn angle_sum(angles: Seq<u32>) -> int
    decreases angles.len(),
{
    if angles.len() == 0 {
        0
    } else {
        angle_sum(angles.drop_last()) + if angle_counts(angles.last() as int) {
            normalized_angle(angles.last() as int)
        } else {
            0
        }
    }
}

/// The absolute value.
pub open spec fn magnitude(v: int) -> int {
    if v < 0 {
        -v
    } else {
        v
    }
}

/// The turn that the angles of an image's lines call for: the negative of
/// the mean of the angles that count. There is none where no angle counts or
/// where the mean is less than half a degree away from zero.
pub open spec fn line_rotation(angles: Seq<u32>) -> Option<Rotation> {
    let count = counted_angles(angles) as int;
    let sum = angle_sum(angles);
    if count == 0 || 2 * magnitude(sum) < count {
        None
    } else {
        Some(Rotation { numerator: (-sum) as i128, denominator: count as i128 })
    }
}

/// The turn that the angles of an image's lines call for.
pub fn rotation_from_lines(angles: &Vec<u32>) -> (turn: Option<Rotation>)
    ensures
        turn == line_rotation(angles@),
{
    let n: usize = angles.len();
    let mut count: i128 = 0;
    let mut sum: i128 = 0;
    let mut i: usize = 0;
    assert(angles@.take(0) =~= Seq::<u32>::empty());
    while i < n
        invariant
            n == angles@.len(),
            i <= n,
            count == counted_angles(angles@.take(i as int)),
            sum == angle_sum(angles@.take(i as int)),
            0 <= count <= i,
            -45 * count <= sum <= 45 * count,
        decreases n - i,
    {
        proof {
            let after = angles@.take(i + 1);
            assert(after.drop_last() =~= angles@.take(i as int));
            assert(after.last() == angles@[i as int]);
        }
        let theta: i128 = angles[i] as i128;
        let normal: i128 = if 45 < theta && theta < 135 {
            theta - 90
        } else if theta >= 135 {
            theta - 180
        } else {
            theta
        };
        if -45 <= normal && normal <= 45 {
            count = count + 1;
            sum = sum + normal;
        }
        i = i + 1;
    }
    assert(angles@.take(n as int) =~= angles@);
    let size: i128 = if sum < 0 {
        -sum
    } else {
        sum
    };
    if count == 0 || 2 * size < count {
        None
    } else {
        Some(Rotation { numerator: -sum, denominator: count })
    }
}

/// The number of votes that a line needs to be taken for one.
pub const LINE_VOTE_THRESHOLD: u32 = 200;

/// The radius within which only the line with the most votes is kept.
pub const LINE_SUPPRESSION_RADIUS: u32 = 8;

/// `imageproc::hough::detect_lines`, with the angle of each line it finds.
/// Trusted: every angle is a whole number of degrees below 180. Which lines
/// are found rests on sines and cosines in single precision, so nothing more
/// is said of them. The squares of the two dimensions are added in 32 bits,
/// which the bound keeps from overflowing.
#[verifier::external_body]
fn hough_line_angles(edges: &GrayBuffer, votes: u32, radius: u32) -> (angles: Vec<u32>)
    requires
        edges@.width * edges@.width + edges@.height * edges@.height <= u32::MAX,
        radius <= 0xFFFF,
    ensures
        forall|i: int| 0 <= i < angles@.len() ==> #[trigger] angles@[i] < 180,
{
    let img = image::GrayImage::from_raw(edges.width, edges.height, edges.data.clone()).unwrap();
    let options = imageproc::hough::LineDetectionOptions {
        vote_threshold: votes,
        suppression_radius: radius,
    };
    imageproc::hough::detect_lines(&img, options).iter().map(|line| line.angle_in_degrees).collect()
}

/// Whether an edge map is small enough for the search for lines: the sum of
/// the squares of its dimensions has to fit in 32 bits.
pub open spec fn fits_line_search(g: GrayView) -> bool {
    g.width * g.width + g.height * g.height <= u32::MAX
}

/// Every turn that `line_rotation` gives is at least half a degree and at
/// most 45 degrees away from zero.
pub proof fn lemma_line_rotation_range(angles: Seq<u32>)
    requires
        angles.len() <= usize::MAX,
    ensures
        line_rotation(angles) matches Some(turn) ==> {
            &&& turn.denominator > 0
            &&& 2 * magnitude(turn.numerator as int) >= turn.denominator
            &&& magnitude(turn.numerator as int) <= 45 * turn.denominator
            &&& turn.denominator <= angles.len()
        },
{
    lemma_angle_sum_range(angles);
}

/// The sum of the angles that count is at most 45 times their number away
/// from zero.
pub proof fn lemma_angle_sum_range(angles: Seq<u32>)
    ensures
        -45 * counted_angles(angles) <= angle_sum(angles) <= 45 * counted_angles(angles),
        counted_angles(angles) <= angles.len(),
    decreases angles.len(),
{
    if angles.len() > 0 {
        lemma_angle_sum_range(angles.drop_last());
    }
}

/// Looks for straight lines in an edge map (every sample above zero is an
/// edge) and names the turn that their angles call for. An edge map too
/// large for the search is turned away. Otherwise the answer is
/// `line_rotation` of the angles of the lines that were found, each of them
/// below 180 degrees; whatever they are, a turn that is named is at least
/// half a degree and at most 45 degrees away from zero.
pub fn detect_line_skew(edges: &GrayBuffer) -> (res: Result<Option<Rotation>, InvalidInput>)
    ensures
        !fits_line_search(edges@) <==> res == Err::<Option<Rotation>, _>(InvalidInput::TooLarge),
        fits_line_search(edges@) ==> res is Ok,
        res matches Ok(found) ==> exists|angles: Seq<u32>|
            (forall|i: int| 0 <= i < angles.len() ==> #[trigger] angles[i] < 180) && found
                == line_rotation(angles),
        res matches Ok(Some(turn)) ==> {
            &&& turn.denominator > 0
            &&& 2 * magnitude(turn.numerator as int) >= turn.denominator
            &&& magnitude(turn.numerator as int) <= 45 * turn.denominator
        },
{
    let width: u64 = edges.width() as u64;
    let height: u64 = edges.height() as u64;
    assert(width * width <= 0xFFFF_FFFF * 0xFFFF_FFFF && height * height <= 0xFFFF_FFFF
        * 0xFFFF_FFFF) by (nonlinear_arith)
        requires
            width <= 0xFFFF_FFFF,
            height <= 0xFFFF_FFFF,
    ;
    if width * width > 0xFFFF_FFFF || height * height > 0xFFFF_FFFF || width * width + height
        * height > 0xFFFF_FFFF {
        return Err(InvalidInput::TooLarge);
    }
    let angles = hough_line_angles(edges, LINE_VOTE_THRESHOLD, LINE_SUPPRESSION_RADIUS);
    let found: usize = angles.len();
    proof {
        assert(found <= usize::MAX);
        lemma_line_rotation_range(angles@);
    }
    Ok(rotation_from_lines(&angles))
}

/// The black-and-white copy on which turns are tried: the grayscale of the
/// image, cut at its Otsu threshold.
pub fn binarize_for_projection(img: &PixelBuffer) -> (binary: GrayBuffer)
    ensures
        binary@ == thresholded(img@.luma(), otsu_threshold(img@.luma().pixels)),
{
    let gray = img.to_luma();
    let threshold = calculate_otsu_threshold(&gray);
    threshold_gray(&gray, threshold)
}

/// How many of the first `k` samples of row `y` are ink, that is, black.
pub open spec fn ink_in_row(g: GrayView, y: int, k: nat) -> nat
    decreases k,
{
    if k == 0 {
        0
    } else {
        ink_in_row(g, y, (k - 1) as nat) + if g.at(k - 1, y) == 0 {
            1nat
        } else {
            0nat
        }
    }
}

/// The ink of the first `k` rows.
pub open spec fn ink_total(g: GrayView, k: nat) -> nat
    decreases k,
{
    if k == 0 {
        0
    } else {
        ink_total(g, (k - 1) as nat) + ink_in_row(g, k - 1, g.width)
    }
}

/// The sum of the squares of the ink counts of the first `k` rows.
pub open spec fn ink_square_total(g: GrayView, k: nat) -> nat
    decreases k,
{
    if k == 0 {
        0
    } else {
        ink_square_total(g, (k - 1) as nat) + ink_in_row(g, k - 1, g.width) * ink_in_row(
            g,
            k - 1,
            g.width,
        )
    }
}

/// How sharply the ink gathers in rows: the variance of the ink counts of
/// the rows, times the square of the number of rows.
pub open spec fn projection_spread(g: GrayView) -> int {
    g.height * ink_square_total(g, g.height) - ink_total(g, g.height) * ink_total(g, g.height)
}

fn row_ink(gray: &GrayBuffer, y: u32) -> (ink: u32)
    requires
        y < gray@.height,
    ensures
        ink == ink_in_row(gray@, y as int, gray@.width),
        ink <= gray@.width,
{
    let width: u32 = gray.width();
    let mut ink: u32 = 0;
    let mut x: u32 = 0;
    while x < width
        invariant
            width == gray@.width,
            y < gray@.height,
            x <= width,
            ink == ink_in_row(gray@, y as int, x as nat),
            ink <= x,
        decreases width - x,
    {
        if gray.get(x, y) == 0 {
            ink = ink + 1;
        }
        x = x + 1;
    }
    ink
}

/// How sharply the ink of a black-and-white image gathers in rows.
pub fn measure_projection_spread(gray: &GrayBuffer) -> (spread: i128)
    ensures
        spread == projection_spread(gray@),
{
    let width: u32 = gray.width();
    let height: u32 = gray.height();
    let mut total: u128 = 0;
    let mut squares: u128 = 0;
    let mut y: u32 = 0;
    proof {
        lemma_index_in_range(0, 0, width as int, height as int);
    }
    while y < height
        invariant
            gray@.wf(),
            width == gray@.width,
            height == gray@.height,
            y <= height,
            total == ink_total(gray@, y as nat),
            squares == ink_square_total(gray@, y as nat),
            total <= y * width,
            squares <= y * (width * width),
        decreases height - y,
    {
        let ink: u128 = row_ink(gray, y) as u128;
        proof {
            assert(ink * ink <= width * width) by (nonlinear_arith)
                requires
                    0 <= ink <= width,
            ;
            assert((y + 1) * width == y * width + width) by (nonlinear_arith);
            assert((y + 1) * (width * width) == y * (width * width) + width * width)
                by (nonlinear_arith);
            assert((y + 1) * (width * width) <= 0x1_0000_0000 * (0x1_0000_0000 * 0x1_0000_0000))
                by (nonlinear_arith)
                requires
                    y + 1 <= 0x1_0000_0000,
                    0 <= width <= 0x1_0000_0000,
            ;
            assert((y + 1) * width <= 0x1_0000_0000 * 0x1_0000_0000) by (nonlinear_arith)
                requires
                    y + 1 <= 0x1_0000_0000,
                    0 <= width <= 0x1_0000_0000,
            ;
        }
        total = total + ink;
        squares = squares + ink * ink;
        y = y + 1;
    }
    proof {
        let n = width * height;
        assert(height * (height * (width * width)) == n * n) by (nonlinear_arith)
            requires
                n == width * height,
        ;
        assert(height * squares <= height * (height * (width * width))) by (nonlinear_arith)
            requires
                squares <= height * (width * width),
                height >= 0,
        ;
        assert(n * n <= MAX_PIXELS * MAX_PIXELS) by (nonlinear_arith)
            requires
                0 <= n <= MAX_PIXELS,
        ;
        assert(total * total <= n * n) by (nonlinear_arith)
            requires
                0 <= total <= n,
                n == width * height,
                total <= height * width,
        ;
        assert(height * width == width * height) by (nonlinear_arith);
    }
    (height as u128 * squares) as i128 - (total * total) as i128
}

/// The first turn that is tried, in tenths of a degree.
pub const FIRST_TURN: i32 = -100;

/// The last turn that is tried, in tenths of a degree.
pub const LAST_TURN: i32 = 100;

/// The least turn, in tenths of a degree, that is worth making.
pub const LEAST_TURN: i32 = 3;

/// Where a search over turns stands.
pub struct SearchView {
    /// The width of the images that are compared.
    pub width: nat,
    /// The height of the images that are compared.
    pub height: nat,
    /// The turn to try next, in tenths of a degree.
    pub next: int,
    /// The best turn so far, in tenths of a degree.
    pub best: int,
    /// The spread after the best turn so far.
    pub best_spread: int,
}

impl SearchView {
    /// The search before any turn has been tried: the best turn is none at
    /// all, with a spread of zero to beat.
    pub open spec fn initial(width: nat, height: nat) -> SearchView {
        SearchView { width, height, next: FIRST_TURN as int, best: 0, best_spread: 0 }
    }

    /// Whether every turn has been tried.
    pub open spec fn finished(self) -> bool {
        self.next > LAST_TURN
    }

    /// The search after the turn `self.next` has been tried and has given
    /// the spread `spread`: that turn is the best where its spread is above
    /// the best so far.
    pub open spec fn advanced(self, spread: int) -> SearchView {
        SearchView {
            width: self.width,
            height: self.height,
            next: self.next + 1,
            best: if spread > self.best_spread {
                self.next
            } else {
                self.best
            },
            best_spread: if spread > self.best_spread {
                spread
            } else {
                self.best_spread
            },
        }
    }

    /// The search after a run of turns has been tried, given their spreads
    /// in order.
    pub open spec fn after(self, spreads: Seq<int>) -> SearchView
        decreases spreads.len(),
    {
        if spreads.len() == 0 {
            self
        } else {
            self.after(spreads.drop_last()).advanced(spreads.last())
        }
    }

    /// The turn that the search calls for: the negative of the best turn.
    /// There is none where the best turn is less than three tenths of a
    /// degree away from zero.
    pub open spec fn correction(self) -> Option<Rotation> {
        if magnitude(self.best) < LEAST_TURN {
            None
        } else {
            Some(Rotation { numerator: (-self.best) as i128, denominator: 10 })
        }
    }
}

/// The search for the turn after which the ink of an image gathers most
/// sharply in rows. The caller turns the black-and-white copy by each turn
/// that `next_angle` names and hands the turned copy to `record`.
pub struct ProjectionSearch {
    pub(crate) width: u32,
    pub(crate) height: u32,
    pub(crate) next: i32,
    pub(crate) best: i32,
    pub(crate) best_spread: i128,
}

impl View for ProjectionSearch {
    type V = SearchView;

    open(crate) spec fn view(&self) -> SearchView {
        SearchView {
            width: self.width as nat,
            height: self.height as nat,
            next: self.next as int,
            best: self.best as int,
            best_spread: self.best_spread as int,
        }
    }
}

impl ProjectionSearch {
    #[verifier::type_invariant]
    pub(crate) open spec fn inv(&self) -> bool {
        &&& FIRST_TURN <= self.next <= LAST_TURN + 1
        &&& FIRST_TURN <= self.best <= LAST_TURN
        &&& 0 <= self.best_spread
    }

    /// Starts a search over turns of the given black-and-white copy.
    pub fn start(binary: &GrayBuffer) -> (search: ProjectionSearch)
        ensures
            search@ == SearchView::initial(binary@.width, binary@.height),
    {
        ProjectionSearch {
            width: binary.width(),
            height: binary.height(),
            next: FIRST_TURN,
            best: 0,
            best_spread: 0,
        }
    }

    /// The turn to try next, in tenths of a degree, or nothing when all have
    /// been tried.
    pub fn next_angle(&self) -> (turn: Option<i32>)
        ensures
            turn == (if self@.finished() {
                None
            } else {
                Some(self@.next as i32)
            }),
            turn matches Some(t) ==> FIRST_TURN <= t <= LAST_TURN,
    {
        proof {
            use_type_invariant(self);
        }
        if self.next > LAST_TURN {
            None
        } else {
            Some(self.next)
        }
    }

    /// Takes the copy turned by the turn that `next_angle` named. A copy of
    /// other dimensions than the one the search was started with is turned
    /// away, and so is any copy once every turn has been tried; the search
    /// then stays where it was.
    pub fn record(&mut self, rotated: &GrayBuffer) -> (res: Result<(), InvalidInput>)
        ensures
            old(self)@.finished() ==> res == Err::<(), _>(InvalidInput::Unexpected) && final(self)@
                == old(self)@,
            !old(self)@.finished() && (rotated@.width != old(self)@.width || rotated@.height
                != old(self)@.height) ==> res == Err::<(), _>(InvalidInput::LengthMismatch)
                && final(self)@ == old(self)@,
            !old(self)@.finished() && rotated@.width == old(self)@.width && rotated@.height == old(
                self,
            )@.height ==> res == Ok::<(), InvalidInput>(()) && final(self)@ == old(
                self,
            )@.advanced(projection_spread(rotated@)),
    {
        proof {
            use_type_invariant(&*self);
        }
        if self.next > LAST_TURN {
            return Err(InvalidInput::Unexpected);
        }
        if rotated.width() != self.width || rotated.height() != self.height {
            return Err(InvalidInput::LengthMismatch);
        }
        let spread: i128 = measure_projection_spread(rotated);
        if spread > self.best_spread {
            self.best = self.next;
            self.best_spread = spread;
        }
        self.next = self.next + 1;
        Ok(())
    }

    /// The turn that the search calls for, to be asked for when every turn
    /// has been tried.
    pub fn correction(&self) -> (turn: Option<Rotation>)
        ensures
            turn == self@.correction(),
    {
        proof {
            use_type_invariant(self);
        }
        let size: i32 = if self.best < 0 {
            -self.best
        } else {
            self.best
        };
        if size < LEAST_TURN {
            None
        } else {
            Some(Rotation { numerator: -(self.best as i128), denominator: 10 })
        }
    }
}

/// After a run of turns tried from the start, the best turn is the first
/// whose spread is the greatest of the run, provided that this spread is
/// above zero; where no spread is above zero, the best turn is none at all.
pub proof fn lemma_search_keeps_first_maximum(width: nat, height: nat, spreads: Seq<int>)
    ensures
        ({
            let s = SearchView::initial(width, height).after(spreads);
            let i = s.best - FIRST_TURN;
            &&& s.next == FIRST_TURN + spreads.len()
            &&& s.best_spread >= 0
            &&& forall|j: int| 0 <= j < spreads.len() ==> spreads[j] <= s.best_spread
            &&& s.best_spread == 0 ==> s.best == 0
            &&& s.best_spread > 0 ==> {
                &&& 0 <= i < spreads.len()
                &&& spreads[i] == s.best_spread
                &&& forall|j: int| 0 <= j < i ==> spreads[j] < s.best_spread
            }
        }),
    decreases spreads.len(),
{
    if spreads.len() > 0 {
        lemma_search_keeps_first_maximum(width, height, spreads.drop_last());
        let before = SearchView::initial(width, height).after(spreads.drop_last());
        let s = SearchView::initial(width, height).after(spreads);
        assert(s == before.advanced(spreads.last()));
        assert forall|j: int| 0 <= j < spreads.len() implies spreads[j] <= s.best_spread by {
            if j < spreads.len() - 1 {
                assert(spreads.drop_last()[j] == spreads[j]);
            }
        }
        if s.best_spread > 0 {
            let i = s.best - FIRST_TURN;
            assert forall|j: int| 0 <= j < i implies spreads[j] < s.best_spread by {
                assert(spreads.drop_last()[j] == spreads[j]);
            }
            if !(spreads.last() > before.best_spread) {
                assert(spreads.drop_last()[i] == spreads[i]);
            }
        }
    }
}

} // verus!
