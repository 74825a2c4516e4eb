//! The density-weighted relaxation: every site moves toward the weighted centroid of the
//! pixels it owns, with overshoot and a little noise.
use vstd::prelude::*;
use crate::density::{DensityField, lemma_cell_of, load_points, random_below};
use crate::math::{Point, quot, div_toward_zero, lemma_div_bounds};
use crate::weighted_voronoi::{StippleError, lemma_mul_bound};

verus! {

/// Numerator of the factor by which a site moves toward its weighted centroid.
pub const OVERSHOOT_NUM: i64 = 9;

/// Denominator of the factor by which a site moves toward its weighted centroid.
pub const OVERSHOOT_DEN: i64 = 5;

/// A stippling run: the density field and the current sites.
#[derive(Debug)]
pub struct Stipple {
    pub field: DensityField,
    pub points: Vec<Point>,
}

/// The lattice coordinate of the centre of the `p`-th cell along an axis.
pub open spec fn centre(p: int, cell: int) -> int {
    p * cell + cell / 2
}

/// The total weight of the first `k` pixels that `site` owns.
pub open spec fn mass_upto(f: DensityField, owners: Seq<usize>, site: int, k: nat) -> int
    decreases k,
{
    if k == 0 {
        0
    } else if owners[k - 1] == site {
        mass_upto(f, owners, site, (k - 1) as nat) + f.weights@[k - 1]
    } else {
        mass_upto(f, owners, site, (k - 1) as nat)
    }
}

/// The sum over the first `k` pixels that `site` owns of weight times the x coordinate
/// of the pixel's centre.
pub open spec fn pull_x_upto(f: DensityField, owners: Seq<usize>, site: int, k: nat) -> int
    decreases k,
{
    if k == 0 {
        0
    } else if owners[k - 1] == site {
        pull_x_upto(f, owners, site, (k - 1) as nat) + f.weights@[k - 1] * centre(
            (k - 1) % (f.width as int),
            f.cell as int,
        )
    } else {
        pull_x_upto(f, owners, site, (k - 1) as nat)
    }
}

/// The sum over the first `k` pixels that `site` owns of weight times the y coordinate
/// of the pixel's centre.
pub open spec fn pull_y_upto(f: DensityField, owners: Seq<usize>, site: int, k: nat) -> int
    decreases k,
{
    if k == 0 {
        0
    } else if owners[k - 1] == site {
        pull_y_upto(f, owners, site, (k - 1) as nat) + f.weights@[k - 1] * centre(
            (k - 1) / (f.width as int),
            f.cell as int,
        )
    } else {
        pull_y_upto(f, owners, site, (k - 1) as nat)
    }
}

/// The weighted centroid of the pixels that `site` owns, or `at` where they weigh
/// nothing.
pub open spec fn weighted_target(f: DensityField, owners: Seq<usize>, site: int, at: Point) -> (
    int,
    int,
) {
    let n = f.weights@.len();
    let m = mass_upto(f, owners, site, n);
    if m == 0 {
        (at.x as int, at.y as int)
    } else {
        (pull_x_upto(f, owners, site, n) / m, pull_y_upto(f, owners, site, n) / m)
    }
}

/// `v` where it is a coordinate of the lattice, else the lattice's limit on its side.
pub open spec fn within_lattice(v: int) -> int {
    if v < i32::MIN {
        i32::MIN as int
    } else if v > i32::MAX {
        i32::MAX as int
    } else {
        v
    }
}

/// One coordinate of a site after a step: from `at` toward `to` by `OVERSHOOT_NUM /
/// OVERSHOOT_DEN` of their distance, displaced by `noise`.
pub open spec fn stepped(at: int, to: int, noise: int) -> int {
    at + quot((to - at) * 9, 5) + noise
}

/// `noise` is an offset that a wiggle of width `wiggle` can produce: at most half the
/// width, either way.
pub open spec fn is_noise(noise: int, wiggle: u16) -> bool {
    -(wiggle / 2) <= noise <= wiggle / 2
}

/// `after` is where a step can take the site `before` whose weighted centroid is `to`:
/// the stepped position for some noise, held back only by the limits of the lattice.
pub open spec fn is_step(before: Point, after: Point, to: (int, int), wiggle: u16) -> bool {
    exists|dx: int, dy: int|
        is_noise(dx, wiggle) && is_noise(dy, wiggle) && after.x == within_lattice(
            #[trigger] stepped(before.x as int, to.0, dx),
        ) && after.y == within_lattice(#[trigger] stepped(before.y as int, to.1, dy))
}

/// Computes one coordinate of a site after a step. The result is the stepped position
/// itself wherever that is a coordinate of the lattice.
pub fn step_axis(at: i32, to: i32, noise: i32) -> (r: i32)
    ensures
        r == within_lattice(stepped(at as int, to as int, noise as int)),
        i32::MIN <= stepped(at as int, to as int, noise as int) <= i32::MAX ==> r == stepped(
            at as int,
            to as int,
            noise as int,
        ),
{
    let d: i128 = to as i128 - at as i128;
    proof {
        crate::math::lemma_quot_bounds(d * 9, 5);
    }
    let v: i128 = at as i128 + div_toward_zero(d * 9, 5) + noise as i128;
    if v < i32::MIN as i128 {
        i32::MIN
    } else if v > i32::MAX as i128 {
        i32::MAX
    } else {
        v as i32
    }
}

/// The number of values that a noise draw for a wiggle of width `wiggle` is taken from:
/// one for each offset from half the width below to half the width above.
pub fn noise_range(wiggle: u16) -> (r: u32)
    ensures
        r == 2 * (wiggle / 2) + 1,
{
    2 * ((wiggle / 2) as u32) + 1
}

/// The offset that the noise draw `draw` stands for.
pub fn noise_of(draw: u32, wiggle: u16) -> (r: i32)
    requires
        draw < 2 * (wiggle / 2) + 1,
    ensures
        r == draw - wiggle / 2,
        is_noise(r as int, wiggle),
{
    draw as i32 - (wiggle / 2) as i32
}

/// The running sums of one site.
struct Pull {
    mass: u128,
    x: u128,
    y: u128,
}

/// The sums of `acc` are those of the first `k` pixels, for every site.
spec fn sums_upto(acc: Seq<Pull>, f: DensityField, owners: Seq<usize>, k: nat) -> bool {
    forall|s: int|
        0 <= s < acc.len() ==> {
            &&& (#[trigger] acc[s]).mass == mass_upto(f, owners, s, k)
            &&& acc[s].x == pull_x_upto(f, owners, s, k)
            &&& acc[s].y == pull_y_upto(f, owners, s, k)
            &&& acc[s].mass <= k * 0x1_0000_0000
            &&& acc[s].x <= acc[s].mass * (f.span_x() - 1)
            &&& acc[s].y <= acc[s].mass * (f.span_y() - 1)
        }
}

/// A sum of weights times coordinates below `span` is at most the weight times `span - 1`.
proof fn lemma_pull_bound(sum: int, mass: int, w: int, c: int, span: int)
    requires
        0 <= sum <= mass * (span - 1),
        0 <= w,
        0 <= c <= span - 1,
        0 <= mass,
    ensures
        0 <= sum + w * c <= (mass + w) * (span - 1),
        mass * (span - 1) >= 0,
{
    assert(0 <= w * c <= w * (span - 1)) by (nonlinear_arith)
        requires
            0 <= w,
            0 <= c <= span - 1,
    ;
    assert((mass + w) * (span - 1) == mass * (span - 1) + w * (span - 1)) by (nonlinear_arith);
    assert(mass * (span - 1) >= 0) by (nonlinear_arith)
        requires
            mass >= 0,
            span - 1 >= 0,
    ;
}

/// Sums, for every site, the weight and the weighted centre of the pixels it owns.
fn gather(f: &DensityField, owners: &Vec<usize>, sites: usize) -> (acc: Vec<Pull>)
    requires
        f.wf(),
        owners@.len() == f.weights@.len(),
        forall|i: int| 0 <= i < owners@.len() ==> #[trigger] owners@[i] < sites,
    ensures
        acc@.len() == sites,
        sums_upto(acc@, *f, owners@, f.weights@.len()),
{
    let mut acc: Vec<Pull> = Vec::new();
    while acc.len() < sites
        invariant
            acc@.len() <= sites,
            sums_upto(acc@, *f, owners@, 0),
        decreases sites - acc@.len(),
    {
        proof {
            assert(0 * (f.span_x() - 1) == 0 && 0 * (f.span_y() - 1) == 0) by (nonlinear_arith);
        }
        acc.push(Pull { mass: 0, x: 0, y: 0 });
    }
    let n = f.weights.len();
    let mut k: usize = 0;
    while k < n
        invariant
            k <= n,
            n == f.weights@.len(),
            f.wf(),
            owners@.len() == n,
            acc@.len() == sites,
            forall|i: int| 0 <= i < owners@.len() ==> #[trigger] owners@[i] < sites,
            sums_upto(acc@, *f, owners@, k as nat),
        decreases n - k,
    {
        let w = f.weights[k];
        let o = owners[k];
        assert(f.width > 0) by (nonlinear_arith)
            requires
                f.weights@.len() == f.width * f.height,
                f.weights@.len() > 0,
        ;
        let px: usize = k % (f.width as usize);
        let py: usize = k / (f.width as usize);
        proof {
            assert(f.height * f.width == f.width * f.height) by (nonlinear_arith);
            lemma_cell_of(k as int, f.width as int, f.height as int);
            lemma_mul_bound(px as int, f.cell as int, f.width - 1, f.cell as int);
            lemma_mul_bound(py as int, f.cell as int, f.height - 1, f.cell as int);
            assert((f.width - 1) * f.cell == f.width * f.cell - f.cell) by (nonlinear_arith);
            assert((f.height - 1) * f.cell == f.height * f.cell - f.cell) by (nonlinear_arith);
            assert(0 <= px * f.cell && 0 <= py * f.cell) by (nonlinear_arith)
                requires
                    px >= 0,
                    py >= 0,
                    f.cell > 0,
            ;
        }
        let cx: u64 = (px as u64) * (f.cell as u64) + (f.cell as u64) / 2;
        let cy: u64 = (py as u64) * (f.cell as u64) + (f.cell as u64) / 2;
        assert(cx == centre(k as int % (f.width as int), f.cell as int));
        assert(cy == centre(k as int / (f.width as int), f.cell as int));
        let old_pull = &acc[o];
        proof {
            lemma_pull_bound(
                old_pull.x as int,
                old_pull.mass as int,
                w as int,
                cx as int,
                f.span_x(),
            );
            lemma_pull_bound(
                old_pull.y as int,
                old_pull.mass as int,
                w as int,
                cy as int,
                f.span_y(),
            );
            lemma_mul_bound(
                (old_pull.mass + w) as int,
                f.span_x() - 1,
                (k + 1) * 0x1_0000_0000,
                0x7fff_ffff,
            );
            lemma_mul_bound(
                (old_pull.mass + w) as int,
                f.span_y() - 1,
                (k + 1) * 0x1_0000_0000,
                0x7fff_ffff,
            );
            lemma_mul_bound(w as int, cx as int, 0x1_0000_0000, 0x7fff_ffff);
            lemma_mul_bound(w as int, cy as int, 0x1_0000_0000, 0x7fff_ffff);
        }
        let pull = Pull {
            mass: old_pull.mass + w as u128,
            x: old_pull.x + (w as u128) * (cx as u128),
            y: old_pull.y + (w as u128) * (cy as u128),
        };
        acc.set(o, pull);
        k += 1;
    }
    acc
}

impl Stipple {
    /// Starts a run with `n` sites drawn from the field by rejection sampling.
    pub fn new(field: DensityField, n: usize) -> (r: Result<Stipple, StippleError>)
        requires
            field.wf(),
        ensures
            match r {
                Ok(s) => s.field == field && s.points@.len() == n && forall|i: int|
                    0 <= i < n ==> field.admits(#[trigger] s.points@[i]),
                Err(e) => e == StippleError::EmptyDensity && n > 0 && (field.weights@.len() == 0
                    || exists|log: Seq<(u32, u32, u32)>| #[trigger] field.exhausted_by(log)),
            },
            field.all_zero() && n > 0 ==> r is Err,
            field.saturated() || n == 0 ==> r is Ok,
    {
        match load_points(&field, n) {
            Ok(points) => Ok(Stipple { field, points }),
            Err(e) => Err(e),
        }
    }

    /// One density-weighted relaxation step. `owners` names, for each pixel of the field
    /// row by row, the site nearest to the pixel's centre. Every site moves from where it
    /// is toward the weighted centroid of its pixels, by `OVERSHOOT_NUM / OVERSHOOT_DEN`
    /// of the distance and a random offset of at most half of `wiggle`; a site whose
    /// pixels weigh nothing only wiggles. Only the limits of the lattice hold a site back.
    pub fn next(&mut self, owners: &Vec<usize>, wiggle: u16)
        requires
            old(self).field.wf(),
            owners@.len() == old(self).field.weights@.len(),
            forall|i: int| 0 <= i < owners@.len() ==> #[trigger] owners@[i] < old(self).points@.len(),
        ensures
            final(self).field == old(self).field,
            final(self).points@.len() == old(self).points@.len(),
            forall|i: int|
                0 <= i < old(self).points@.len() ==> is_step(
                    old(self).points@[i],
                    #[trigger] final(self).points@[i],
                    weighted_target(old(self).field, owners@, i, old(self).points@[i]),
                    wiggle,
                ),
    {
        let sites = self.points.len();
        let acc = gather(&self.field, owners, sites);
        let mut rng = rand::rng();
        let mut moved: Vec<Point> = Vec::new();
        let mut i: usize = 0;
        while i < sites
            invariant
                i <= sites,
                sites == self.points@.len(),
                acc@.len() == sites,
                self.field.wf(),
                sums_upto(acc@, self.field, owners@, self.field.weights@.len()),
                moved@.len() == i,
                forall|j: int|
                    0 <= j < i ==> is_step(
                        self.points@[j],
                        #[trigger] moved@[j],
                        weighted_target(self.field, owners@, j, self.points@[j]),
                        wiggle,
                    ),
            decreases sites - i,
        {
            let p = self.points[i];
            let pull = &acc[i];
            let to: Point = if pull.mass == 0 {
                p
            } else {
                proof {
                    lemma_div_bounds(pull.x as int, pull.mass as int);
                    lemma_div_bounds(pull.y as int, pull.mass as int);
                    let qx = pull.x as int / pull.mass as int;
                    let qy = pull.y as int / pull.mass as int;
                    assert(qx <= self.field.span_x() - 1) by (nonlinear_arith)
                        requires
                            qx * pull.mass <= pull.x,
                            pull.x <= pull.mass * (self.field.span_x() - 1),
                            pull.mass > 0,
                    ;
                    assert(qy <= self.field.span_y() - 1) by (nonlinear_arith)
                        requires
                            qy * pull.mass <= pull.y,
                            pull.y <= pull.mass * (self.field.span_y() - 1),
                            pull.mass > 0,
                    ;
                }
                Point { x: (pull.x / pull.mass) as i32, y: (pull.y / pull.mass) as i32 }
            };
            let dx: i32 = noise_of(random_below(&mut rng, noise_range(wiggle)), wiggle);
            let dy: i32 = noise_of(random_below(&mut rng, noise_range(wiggle)), wiggle);
            let q = Point { x: step_axis(p.x, to.x, dx), y: step_axis(p.y, to.y, dy) };
            proof {
                let t = weighted_target(self.field, owners@, i as int, p);
                assert(t.0 == to.x && t.1 == to.y);
                assert(is_step(p, q, t, wiggle));
            }
            moved.push(q);
            i += 1;
        }
        self.points = moved;
    }
}

} // verus!
