//! The density field and the rejection sampler that seeds a run from it.
use vstd::prelude::*;
use rand::Rng;
use rand::rngs::ThreadRng;
use crate::math::Point;
use crate::weighted_voronoi::StippleError;

verus! {

/// The weight of a black pixel, and the number of values an acceptance draw can take.
pub const WEIGHT_RANGE: u32 = 255_000;

/// The number of consecutive rejected draws after which the sampler gives up.
pub const RETRY_CAP: u32 = 1_000_000;

/// One pixel of the source image.
#[derive(Clone, Copy, Debug, PartialEq, Eq, Structural)]
pub struct Pixel {
    pub r: u8,
    pub g: u8,
    pub b: u8,
}

/// The weight of a pixel: `WEIGHT_RANGE` less its luminance `299 r + 587 g + 114 b`, so
/// that darker pixels weigh more. It is the fraction `1 - (0.299 r + 0.587 g + 0.114 b) / 255`
/// of `WEIGHT_RANGE`.
pub open spec fn weight_of(p: Pixel) -> int {
    255_000 - (299 * p.r + 587 * p.g + 114 * p.b)
}

/// Computes the weight of one pixel.
pub fn luminance_weight(p: Pixel) -> (w: u32)
    ensures
        w == weight_of(p),
        w <= WEIGHT_RANGE,
{
    let lum: u32 = 299 * (p.r as u32) + 587 * (p.g as u32) + 114 * (p.b as u32);
    255_000 - lum
}

/// Turns the pixels of an image into density weights, one for one.
pub fn as_bytes(pixels: &Vec<Pixel>) -> (weights: Vec<u32>)
    ensures
        weights@.len() == pixels@.len(),
        forall|i: int| 0 <= i < pixels@.len() ==> #[trigger] weights@[i] == weight_of(pixels@[i]),
{
    let mut weights: Vec<u32> = Vec::new();
    let mut i: usize = 0;
    while i < pixels.len()
        invariant
            i <= pixels.len(),
            weights@.len() == i,
            forall|j: int| 0 <= j < i ==> #[trigger] weights@[j] == weight_of(pixels@[j]),
        decreases pixels.len() - i,
    {
        weights.push(luminance_weight(pixels[i]));
        i += 1;
    }
    weights
}

/// A grid of non-negative weights, one per pixel, row by row. Each pixel covers `cell`
/// by `cell` positions of the lattice.
#[derive(Debug)]
pub struct DensityField {
    pub width: u32,
    pub height: u32,
    pub cell: u32,
    pub weights: Vec<u32>,
}

impl DensityField {
    /// The grid holds one weight per pixel, and its extent fits the lattice.
    pub open spec fn wf(&self) -> bool {
        &&& self.cell > 0
        &&& self.weights@.len() == self.width * self.height
        &&& self.width * self.cell <= i32::MAX
        &&& self.height * self.cell <= i32::MAX
    }

    /// The extent of the field along x, in lattice positions.
    pub open spec fn span_x(&self) -> int {
        self.width * self.cell
    }

    /// The extent of the field along y, in lattice positions.
    pub open spec fn span_y(&self) -> int {
        self.height * self.cell
    }

    /// The weight of the pixel in column `px` and row `py`.
    pub open spec fn weight_at(&self, px: int, py: int) -> int {
        self.weights@[py * self.width + px] as int
    }

    /// The weight of the pixel that covers the lattice position `(x, y)`.
    pub open spec fn weight_over(&self, x: int, y: int) -> int {
        self.weight_at(x / (self.cell as int), y / (self.cell as int))
    }

    /// No pixel has a positive weight.
    pub open spec fn all_zero(&self) -> bool {
        forall|i: int| 0 <= i < self.weights@.len() ==> #[trigger] self.weights@[i] == 0
    }

    /// There is a pixel, and every pixel weighs at least `WEIGHT_RANGE`: no acceptance
    /// draw falls short of any weight, so no position is rejected.
    pub open spec fn saturated(&self) -> bool {
        &&& self.weights@.len() > 0
        &&& forall|i: int|
            0 <= i < self.weights@.len() ==> #[trigger] self.weights@[i] >= WEIGHT_RANGE
    }

    /// What a draw gives: the position `(x, y)` where the acceptance draw falls below the
    /// weight of the pixel over it, nothing where the draw is rejected.
    pub open spec fn kept(&self, x: u32, y: u32, draw: u32) -> Option<Point> {
        if draw < self.weight_over(x as int, y as int) {
            Some(Point { x: x as i32, y: y as i32 })
        } else {
            None
        }
    }

    /// `d` is a draw that the sampler can make on this field: a position in the field
    /// and an acceptance draw below `WEIGHT_RANGE`.
    pub open spec fn can_draw(&self, d: (u32, u32, u32)) -> bool {
        d.0 < self.span_x() && d.1 < self.span_y() && d.2 < WEIGHT_RANGE
    }

    /// `log` is a run of `RETRY_CAP` draws on this field, every one of them rejected.
    pub open spec fn exhausted_by(&self, log: Seq<(u32, u32, u32)>) -> bool {
        &&& log.len() == RETRY_CAP
        &&& forall|i: int|
            0 <= i < log.len() ==> self.can_draw(#[trigger] log[i]) && self.kept(
                log[i].0,
                log[i].1,
                log[i].2,
            ) is None
    }

    /// `p` lies in the field, over a pixel of positive weight.
    pub open spec fn admits(&self, p: Point) -> bool {
        &&& 0 <= p.x < self.span_x()
        &&& 0 <= p.y < self.span_y()
        &&& self.weight_over(p.x as int, p.y as int) > 0
    }

    /// Builds a field, or nothing where the weights do not fill the grid or the grid does
    /// not fit the lattice.
    pub fn new(width: u32, height: u32, cell: u32, weights: Vec<u32>) -> (r: Option<DensityField>)
        ensures
            match r {
                Some(f) => f.wf() && f.width == width && f.height == height && f.cell == cell
                    && f.weights == weights,
                None => !(DensityField { width, height, cell, weights }).wf(),
            },
    {
        let f = DensityField { width, height, cell, weights };
        if f.is_well_formed() {
            Some(f)
        } else {
            None
        }
    }

    /// Tests `wf`.
    pub fn is_well_formed(&self) -> (r: bool)
        ensures
            r == self.wf(),
    {
        let w: u64 = self.width as u64;
        let h: u64 = self.height as u64;
        let c: u64 = self.cell as u64;
        assert(w * h <= 0xffff_ffff * 0xffff_ffff && w * c <= 0xffff_ffff * 0xffff_ffff && h * c
            <= 0xffff_ffff * 0xffff_ffff) by (nonlinear_arith)
            requires
                0 <= w <= 0xffff_ffff,
                0 <= h <= 0xffff_ffff,
                0 <= c <= 0xffff_ffff,
        ;
        c > 0 && self.weights.len() as u64 == w * h && w * c <= 0x7fff_ffff && h * c <= 0x7fff_ffff
    }

    /// Reads the weight of the pixel that covers the lattice position `(x, y)`.
    pub fn weight(&self, x: u32, y: u32) -> (w: u32)
        requires
            self.wf(),
            x < self.span_x(),
            y < self.span_y(),
        ensures
            w == self.weight_over(x as int, y as int),
            0 <= (x as int) / (self.cell as int) < self.width,
            0 <= (y as int) / (self.cell as int) < self.height,
            0 <= ((y as int) / (self.cell as int)) * self.width + (x as int) / (self.cell as int)
                < self.weights@.len(),
    {
        let px: u32 = x / self.cell;
        let py: u32 = y / self.cell;
        proof {
            lemma_cell_of(x as int, self.cell as int, self.width as int);
            lemma_cell_of(y as int, self.cell as int, self.height as int);
            lemma_row_major(px as int, py as int, self.width as int, self.height as int);
        }
        let row: u64 = py as u64;
        let w: u64 = self.width as u64;
        assert(row * w <= 0xffff_ffff * 0xffff_ffff) by (nonlinear_arith)
            requires
                0 <= row <= 0xffff_ffff,
                0 <= w <= 0xffff_ffff,
        ;
        let index: u64 = row * w + (px as u64);
        let n: usize = self.weights.len();
        assert(index < n);
        self.weights[index as usize]
    }

    /// The acceptance test of rejection sampling: the position `(x, y)` is kept where the
    /// uniform draw falls below the weight of its pixel.
    pub fn accepts(&self, x: u32, y: u32, draw: u32) -> (r: bool)
        requires
            self.wf(),
            x < self.span_x(),
            y < self.span_y(),
        ensures
            r == (draw < self.weight_over(x as int, y as int)),
            r ==> self.admits(Point { x: x as i32, y: y as i32 }),
            self.all_zero() ==> !r,
            self.saturated() && draw < WEIGHT_RANGE ==> r,
    {
        draw < self.weight(x, y)
    }

    /// The ranges that the sampler draws from: a position along x, a position along y,
    /// and an acceptance value, each uniform below its bound.
    pub fn draw_ranges(&self) -> (r: (u32, u32, u32))
        requires
            self.wf(),
        ensures
            r.0 == self.span_x(),
            r.1 == self.span_y(),
            r.2 == WEIGHT_RANGE,
    {
        assert(self.width * self.cell >= 0 && self.height * self.cell >= 0) by (nonlinear_arith);
        (self.width * self.cell, self.height * self.cell, WEIGHT_RANGE)
    }

    /// One step of rejection sampling: what the draw `(x, y, draw)` gives.
    pub fn sample_step(&self, x: u32, y: u32, draw: u32) -> (r: Option<Point>)
        requires
            self.wf(),
            x < self.span_x(),
            y < self.span_y(),
        ensures
            r == self.kept(x, y, draw),
            r matches Some(p) ==> self.admits(p),
            self.all_zero() ==> r is None,
            self.saturated() && draw < WEIGHT_RANGE ==> r is Some,
    {
        if self.accepts(x, y, draw) {
            Some(Point { x: x as i32, y: y as i32 })
        } else {
            None
        }
    }
}

/// The count of rejections after one more, or nothing where that one reaches
/// `RETRY_CAP` and the sampler gives up.
pub fn retry_after(tries: u32) -> (r: Option<u32>)
    requires
        tries < RETRY_CAP,
    ensures
        r == if tries + 1 < RETRY_CAP {
            Some((tries + 1) as u32)
        } else {
            None
        },
{
    if tries + 1 < RETRY_CAP {
        Some(tries + 1)
    } else {
        None
    }
}

/// A position below `n * c` lies in one of the `n` cells of width `c`.
pub proof fn lemma_cell_of(x: int, c: int, n: int)
    requires
        0 <= x < n * c,
        c > 0,
    ensures
        0 <= x / c < n,
{
    crate::math::lemma_div_bounds(x, c);
    let q = x / c;
    assert(q < n) by (nonlinear_arith)
        requires
            q * c <= x,
            x < n * c,
            c > 0,
    ;
}

/// The row-major index of a pixel of a `w` by `h` grid lies in the grid.
pub proof fn lemma_row_major(px: int, py: int, w: int, h: int)
    requires
        0 <= px < w,
        0 <= py < h,
    ensures
        0 <= py * w + px < w * h,
{
    assert(0 <= py * w + px < w * h) by (nonlinear_arith)
        requires
            0 <= px < w,
            0 <= py < h,
    ;
}

/// The thread-local generator of the `rand` crate.
#[verifier::external_type_specification]
#[verifier::external_body]
pub struct ExThreadRng(rand::rngs::ThreadRng);

/// `rand::rng`: hands out a handle to the thread's generator; nothing is claimed of it.
pub assume_specification[ rand::rng ]() -> (r: ThreadRng);

/// Calls `rand::Rng::random_range` on `0..bound`. The range is not empty, so the call
/// returns, and what it returns lies in the range; nothing else is claimed of the draw.
#[verifier::external_body]
pub(crate) fn random_below(rng: &mut ThreadRng, bound: u32) -> (r: u32)
    requires
        bound > 0,
    ensures
        r < bound,
{
    rng.random_range(0..bound)
}

/// Samples one point: draws from `draw_ranges` and takes what `sample_step` gives, until
/// a draw is kept or `RETRY_CAP` draws in a row were rejected. Hands back the rejected
/// draws with the outcome. On a field without pixels there is nothing to draw from.
fn sample_one(field: &DensityField, rng: &mut ThreadRng) -> (r: (
    Option<Point>,
    Ghost<Seq<(u32, u32, u32)>>,
))
    requires
        field.wf(),
    ensures
        r.0 matches Some(p) ==> field.admits(p),
        r.0 is None ==> field.weights@.len() == 0 || field.exhausted_by(r.1@),
        field.all_zero() ==> r.0 is None,
        field.saturated() ==> r.0 is Some,
{
    let ghost mut log: Seq<(u32, u32, u32)> = Seq::empty();
    let ranges = field.draw_ranges();
    if ranges.0 == 0 || ranges.1 == 0 {
        assert(field.weights@.len() == 0) by (nonlinear_arith)
            requires
                field.weights@.len() == field.width * field.height,
                field.width * field.cell == 0 || field.height * field.cell == 0,
                field.cell > 0,
        ;
        return (None, Ghost(log));
    }
    let mut tries: u32 = 0;
    loop
        invariant
            field.wf(),
            ranges.0 == field.span_x(),
            ranges.1 == field.span_y(),
            ranges.2 == WEIGHT_RANGE,
            ranges.0 > 0,
            ranges.1 > 0,
            tries < RETRY_CAP,
            log.len() == tries,
            forall|i: int|
                0 <= i < log.len() ==> field.can_draw(#[trigger] log[i]) && field.kept(
                    log[i].0,
                    log[i].1,
                    log[i].2,
                ) is None,
        decreases RETRY_CAP - tries,
    {
        let x = random_below(rng, ranges.0);
        let y = random_below(rng, ranges.1);
        let draw = random_below(rng, ranges.2);
        match field.sample_step(x, y, draw) {
            Some(p) => {
                return (Some(p), Ghost(log));
            },
            None => {
                proof {
                    log = log.push((x, y, draw));
                }
                match retry_after(tries) {
                    Some(t) => {
                        tries = t;
                    },
                    None => {
                        return (None, Ghost(log));
                    },
                }
            },
        }
    }
}

/// Seeds a run: draws `count` points by rejection sampling, so that a point falls over a
/// pixel with a probability in proportion to the pixel's weight. Each point is what
/// `sample_step` gives for a draw from `draw_ranges`, so it lies over a pixel of positive
/// weight. Fails with `EmptyDensity` only where the field has no pixel or `RETRY_CAP`
/// draws in a row were rejected, as they all are on a field without weight; on a
/// saturated field none is, and the points are handed out.
pub fn load_points(field: &DensityField, count: usize) -> (r: Result<Vec<Point>, StippleError>)
    requires
        field.wf(),
    ensures
        match r {
            Ok(points) => points@.len() == count && forall|i: int|
                0 <= i < count ==> field.admits(#[trigger] points@[i]),
            Err(e) => e == StippleError::EmptyDensity && count > 0 && (field.weights@.len() == 0
                || exists|log: Seq<(u32, u32, u32)>| #[trigger] field.exhausted_by(log)),
        },
        field.all_zero() && count > 0 ==> r is Err,
        field.saturated() || count == 0 ==> r is Ok,
{
    let mut points: Vec<Point> = Vec::new();
    let mut rng = rand::rng();
    while points.len() < count
        invariant
            field.wf(),
            points@.len() <= count,
            field.all_zero() ==> points@.len() == 0,
            forall|i: int| 0 <= i < points@.len() ==> field.admits(#[trigger] points@[i]),
        decreases count - points@.len(),
    {
        let (sample, rejected) = sample_one(field, &mut rng);
        match sample {
            Some(p) => {
                points.push(p);
            },
            None => {
                assert(field.weights@.len() == 0 || field.exhausted_by(rejected@));
                return Err(StippleError::EmptyDensity);
            },
        }
    }
    Ok(points)
}

} // verus!
