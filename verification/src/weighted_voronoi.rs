//! Voronoi cells as polygons: extraction from per-site edge lists, shoelace centroids,
//! seed association and the damped relaxation step.
use vstd::prelude::*;
use crate::math::{
    Point,
    nearest,
    nearest_point,
    quot,
    quot_away,
    div_toward_zero,
    div_away_from_zero,
    lemma_div_bounds,
    lemma_quot_away_bounds,
};

verus! {

/// Numerator of the damping rate that `Polygon::relax` applies.
pub const LERP_NUM: u32 = 1;

/// Denominator of the damping rate that `Polygon::relax` applies.
pub const LERP_DEN: u32 = 100;

/// The longest boundary whose area and moments fit the 128-bit accumulators.
pub const MAX_VERTICES: usize = 0x7fff_ffff;

/// What can go wrong in a stippling run.
#[derive(Clone, Copy, Debug, PartialEq, Eq, Structural)]
pub enum StippleError {
    /// The density field offered no acceptable sample within the retry cap.
    EmptyDensity,
    /// The triangulation rejected a point that coincides with an existing vertex.
    DuplicateInsertion,
    /// The boundary has no area, or so little for its moments that the centroid leaves
    /// the lattice.
    DegeneratePolygon,
    /// There was no candidate seed to associate a cell with.
    UnresolvedSeed,
}

/// A damping rate `num / den`.
#[derive(Clone, Copy, Debug, PartialEq, Eq, Structural)]
pub struct Rate {
    pub num: u32,
    pub den: u32,
}

impl Rate {
    /// The rate is a fraction between zero and one, both included.
    pub open spec fn is_fraction(self) -> bool {
        self.den > 0 && self.num <= self.den
    }
}

/// One edge of a Voronoi cell; an endpoint is absent where the edge runs to infinity.
#[derive(Clone, Copy, Debug, PartialEq, Eq, Structural)]
pub struct VoronoiEdge {
    pub from: Option<Point>,
    pub to: Option<Point>,
}

impl VoronoiEdge {
    /// Both endpoints are finite.
    pub open spec fn is_finite(self) -> bool {
        self.from is Some && self.to is Some
    }
}

/// The boundary of one Voronoi cell.
#[derive(Debug)]
pub struct Polygon {
    pub points: Vec<Point>,
    pub seed: Option<Point>,
    pub enclosed: bool,
}

/// The cross product of the position vectors of `a` and `b`.
pub open spec fn cross(a: Point, b: Point) -> int {
    a.x * b.y - b.x * a.y
}

/// The vertex that follows position `i` on the closed loop `s`.
pub open spec fn successor(s: Seq<Point>, i: int) -> Point {
    if i + 1 < s.len() {
        s[i + 1]
    } else {
        s[0]
    }
}

/// The sum of the cross products of the first `k` edges of the closed loop `s`.
pub open spec fn area_upto(s: Seq<Point>, k: nat) -> int
    decreases k,
{
    if k == 0 {
        0
    } else {
        area_upto(s, (k - 1) as nat) + cross(s[k - 1], successor(s, k - 1))
    }
}

/// The first moment about the y axis of the first `k` edges, times six.
pub open spec fn moment_x_upto(s: Seq<Point>, k: nat) -> int
    decreases k,
{
    if k == 0 {
        0
    } else {
        moment_x_upto(s, (k - 1) as nat) + (s[k - 1].x + successor(s, k - 1).x) * cross(
            s[k - 1],
            successor(s, k - 1),
        )
    }
}

/// The first moment about the x axis of the first `k` edges, times six.
pub open spec fn moment_y_upto(s: Seq<Point>, k: nat) -> int
    decreases k,
{
    if k == 0 {
        0
    } else {
        moment_y_upto(s, (k - 1) as nat) + (s[k - 1].y + successor(s, k - 1).y) * cross(
            s[k - 1],
            successor(s, k - 1),
        )
    }
}

/// Twice the signed area that the closed loop `s` encloses (the shoelace sum).
pub open spec fn twice_area(s: Seq<Point>) -> int {
    area_upto(s, s.len())
}

/// Six times the first moment of the loop about the y axis.
pub open spec fn moment_x(s: Seq<Point>) -> int {
    moment_x_upto(s, s.len())
}

/// Six times the first moment of the loop about the x axis.
pub open spec fn moment_y(s: Seq<Point>) -> int {
    moment_y_upto(s, s.len())
}

/// `v` is a coordinate of the lattice.
pub open spec fn on_lattice(v: int) -> bool {
    i32::MIN <= v <= i32::MAX
}

/// The centroid of the closed loop `s`, each coordinate rounded toward zero: the moment
/// over three times the doubled area. There is none where the area is zero or the
/// quotient leaves the lattice.
pub open spec fn centroid_of(s: Seq<Point>) -> Option<Point> {
    let a = twice_area(s);
    let cx = quot(moment_x(s), 3 * a);
    let cy = quot(moment_y(s), 3 * a);
    if a != 0 && on_lattice(cx) && on_lattice(cy) {
        Some(Point { x: cx as i32, y: cy as i32 })
    } else {
        None
    }
}

/// The position a fraction `rate` of the way from `v0` to `v1`, the step rounded away
/// from zero, so that a step toward another position is never lost to rounding.
pub open spec fn lerp_spec(v0: int, v1: int, rate: Rate) -> int {
    v0 + quot_away((v1 - v0) * rate.num, rate.den as int)
}

/// The seed after one relaxation step at `rate`: moved toward the centroid where the
/// cell is enclosed, has a seed and has a centroid, and unchanged otherwise.
pub open spec fn relaxed_seed(
    points: Seq<Point>,
    seed: Option<Point>,
    enclosed: bool,
    rate: Rate,
) -> Option<Point> {
    match (seed, centroid_of(points)) {
        (Some(s), Some(c)) => if enclosed {
            Some(
                Point {
                    x: lerp_spec(s.x as int, c.x as int, rate) as i32,
                    y: lerp_spec(s.y as int, c.y as int, rate) as i32,
                },
            )
        } else {
            seed
        },
        _ => seed,
    }
}

/// The seeds of the polygons of `s` that have one, in order.
pub open spec fn resolved_seeds(s: Seq<Polygon>) -> Seq<Point>
    decreases s.len(),
{
    if s.len() == 0 {
        Seq::empty()
    } else {
        match s.last().seed {
            Some(p) => resolved_seeds(s.drop_last()).push(p),
            None => resolved_seeds(s.drop_last()),
        }
    }
}

/// The boundary points that a cell's edges contribute: for each edge with two finite
/// endpoints its end, then its start.
pub open spec fn cell_points(edges: Seq<VoronoiEdge>) -> Seq<Point>
    decreases edges.len(),
{
    if edges.len() == 0 {
        Seq::empty()
    } else {
        let e = edges.last();
        if e.is_finite() {
            cell_points(edges.drop_last()).push(e.to.unwrap()).push(e.from.unwrap())
        } else {
            cell_points(edges.drop_last())
        }
    }
}

/// Every edge of the cell has two finite endpoints.
pub open spec fn all_finite(edges: Seq<VoronoiEdge>) -> bool {
    forall|i: int| 0 <= i < edges.len() ==> (#[trigger] edges[i]).is_finite()
}

/// A cell is enclosed where it has an edge and none of its edges runs to infinity.
pub open spec fn cell_enclosed(edges: Seq<VoronoiEdge>) -> bool {
    all_finite(edges) && cell_points(edges).len() > 0
}

/// The seed that owns a boundary: the candidate nearest to its centroid.
pub open spec fn owning_seed(points: Seq<Point>, seeds: Seq<Point>) -> Option<Point> {
    match centroid_of(points) {
        Some(c) => nearest(c, seeds),
        None => None,
    }
}

/// `p` is the polygon of the cell with the edges `edges`, associated against `seeds`.
pub open spec fn is_cell_polygon(p: Polygon, edges: Seq<VoronoiEdge>, seeds: Seq<Point>) -> bool {
    &&& p.points@ == cell_points(edges)
    &&& p.enclosed == cell_enclosed(edges)
    &&& p.seed == owning_seed(cell_points(edges), seeds)
}

/// The seeds that one iteration commits: for each cell in turn, the seed nearest to the
/// cell's centroid, relaxed at `rate` where the cell is enclosed; a cell without such a
/// seed contributes nothing.
pub open spec fn committed(faces: Seq<Vec<VoronoiEdge>>, seeds: Seq<Point>, rate: Rate) -> Seq<Point>
    decreases faces.len(),
{
    if faces.len() == 0 {
        Seq::empty()
    } else {
        let edges = faces.last()@;
        let points = cell_points(edges);
        match relaxed_seed(points, owning_seed(points, seeds), cell_enclosed(edges), rate) {
            Some(p) => committed(faces.drop_last(), seeds, rate).push(p),
            None => committed(faces.drop_last(), seeds, rate),
        }
    }
}

/// The segments that draw the closed loop `s`: from each point to the one that follows
/// it, the last of them back to the first.
pub open spec fn loop_segments(s: Seq<Point>) -> Seq<(Point, Point)> {
    Seq::new(s.len(), |i: int| (s[i], successor(s, i)))
}

/// A cell has at most two boundary points for each of its edges.
pub proof fn lemma_cell_points_len(edges: Seq<VoronoiEdge>)
    ensures
        cell_points(edges).len() <= 2 * edges.len(),
    decreases edges.len(),
{
    if edges.len() > 0 {
        lemma_cell_points_len(edges.drop_last());
    }
}

/// Extracting the cells, relaxing each polygon and committing their seeds, one step
/// after the other, gives the seed set that `iterate` commits.
pub proof fn lemma_commit_of_relaxed(
    faces: Seq<Vec<VoronoiEdge>>,
    seeds: Seq<Point>,
    rate: Rate,
    before: Seq<Polygon>,
    after: Seq<Polygon>,
)
    requires
        before.len() == faces.len(),
        after.len() == faces.len(),
        forall|i: int| 0 <= i < faces.len() ==> is_cell_polygon(#[trigger] before[i], faces[i]@, seeds),
        forall|i: int|
            0 <= i < faces.len() ==> (#[trigger] after[i]).seed == relaxed_seed(
                before[i].points@,
                before[i].seed,
                before[i].enclosed,
                rate,
            ),
    ensures
        resolved_seeds(after) == committed(faces, seeds, rate),
    decreases faces.len(),
{
    if faces.len() > 0 {
        let k = faces.len() - 1;
        assert(is_cell_polygon(before[k], faces[k]@, seeds));
        assert(after[k].seed == relaxed_seed(
            before[k].points@,
            before[k].seed,
            before[k].enclosed,
            rate,
        ));
        lemma_commit_of_relaxed(
            faces.drop_last(),
            seeds,
            rate,
            before.drop_last(),
            after.drop_last(),
        );
    }
}

/// A product is bounded by the product of the bounds of its factors.
pub proof fn lemma_mul_bound(a: int, b: int, ma: int, mb: int)
    requires
        -ma <= a <= ma,
        -mb <= b <= mb,
    ensures
        -(ma * mb) <= a * b <= ma * mb,
{
    assert(-(ma * mb) <= a * b <= ma * mb) by (nonlinear_arith)
        requires
            -ma <= a <= ma,
            -mb <= b <= mb,
    ;
}

/// Moving a fraction of the way from `v0` to `v1` stays between the two, and leaves `v0`
/// wherever the two differ and the rate is not zero.
pub proof fn lemma_lerp_between(v0: int, v1: int, rate: Rate)
    requires
        rate.is_fraction(),
    ensures
        v0 <= v1 ==> v0 <= lerp_spec(v0, v1, rate) <= v1,
        v1 <= v0 ==> v1 <= lerp_spec(v0, v1, rate) <= v0,
        v0 != v1 && rate.num > 0 ==> lerp_spec(v0, v1, rate) != v0,
{
    let d = v1 - v0;
    let e = if d >= 0 { d } else { -d };
    let n = rate.num as int;
    let m = rate.den as int;
    assert(0 <= e * n <= e * m) by (nonlinear_arith)
        requires
            e >= 0,
            0 <= n <= m,
    ;
    assert(d >= 0 ==> d * n == e * n);
    assert(d < 0 ==> d * n == -(e * n)) by (nonlinear_arith)
        requires
            e == -d || d >= 0,
    ;
    assert(e > 0 && n > 0 ==> e * n > 0) by (nonlinear_arith);
    lemma_quot_away_bounds(d * n, m);
    lemma_div_bounds(e * n, m);
    vstd::arithmetic::div_mod::lemma_fundamental_div_mod(e * n, m);
    vstd::arithmetic::div_mod::lemma_mod_bound(e * n, m);
    let q = (e * n) / m;
    let r = (e * n) % m;
    assert(m * q == q * m) by (nonlinear_arith);
    assert(q <= e && (r != 0 ==> q + 1 <= e)) by (nonlinear_arith)
        requires
            e * n == q * m + r,
            0 <= r < m,
            e * n <= e * m,
            q >= 0,
            e >= 0,
    ;
}

/// A seed that already sits on the centroid is a fixed point of the relaxation step,
/// whatever the rate.
pub proof fn lemma_lerp_fixed_point(c: int, rate: Rate)
    requires
        rate.den != 0,
    ensures
        lerp_spec(c, c, rate) == c,
{
    assert((c - c) * rate.num == 0) by (nonlinear_arith);
    lemma_quot_away_bounds(0, rate.den as int);
}

/// The running shoelace sums over the first `k` edges of a boundary.
struct Sums {
    area: i128,
    mx: i128,
    my: i128,
}

/// Adds the term of edge `i` of the closed loop to the running sums.
fn add_edge(points: &Vec<Point>, i: usize, acc: Sums) -> (r: Sums)
    requires
        i < points@.len() <= MAX_VERTICES,
        acc.area == area_upto(points@, i as nat),
        acc.mx == moment_x_upto(points@, i as nat),
        acc.my == moment_y_upto(points@, i as nat),
        -(i * 0x8000_0000_0000_0000) <= acc.area <= i * 0x8000_0000_0000_0000,
        -(i * 0x8000_0000_0000_0000_0000_0000) <= acc.mx <= i * 0x8000_0000_0000_0000_0000_0000,
        -(i * 0x8000_0000_0000_0000_0000_0000) <= acc.my <= i * 0x8000_0000_0000_0000_0000_0000,
    ensures
        r.area == area_upto(points@, (i + 1) as nat),
        r.mx == moment_x_upto(points@, (i + 1) as nat),
        r.my == moment_y_upto(points@, (i + 1) as nat),
        -((i + 1) * 0x8000_0000_0000_0000) <= r.area <= (i + 1) * 0x8000_0000_0000_0000,
        -((i + 1) * 0x8000_0000_0000_0000_0000_0000) <= r.mx <= (i + 1)
            * 0x8000_0000_0000_0000_0000_0000,
        -((i + 1) * 0x8000_0000_0000_0000_0000_0000) <= r.my <= (i + 1)
            * 0x8000_0000_0000_0000_0000_0000,
{
    let v0 = points[i];
    let v1 = if i + 1 < points.len() { points[i + 1] } else { points[0] };
    assert(v1 == successor(points@, i as int));
    let x0: i128 = v0.x as i128;
    let y0: i128 = v0.y as i128;
    let x1: i128 = v1.x as i128;
    let y1: i128 = v1.y as i128;
    proof {
        lemma_mul_bound(x0 as int, y1 as int, 0x8000_0000, 0x8000_0000);
        lemma_mul_bound(x1 as int, y0 as int, 0x8000_0000, 0x8000_0000);
    }
    let cross_p: i128 = x0 * y1 - x1 * y0;
    assert(cross_p == cross(v0, v1));
    let sx: i128 = x0 + x1;
    let sy: i128 = y0 + y1;
    proof {
        lemma_mul_bound(sx as int, cross_p as int, 0x1_0000_0000, 0x8000_0000_0000_0000);
        lemma_mul_bound(sy as int, cross_p as int, 0x1_0000_0000, 0x8000_0000_0000_0000);
    }
    Sums { area: acc.area + cross_p, mx: acc.mx + sx * cross_p, my: acc.my + sy * cross_p }
}

impl Polygon {
    /// A cell with no boundary and no seed, not enclosed.
    pub fn new() -> (p: Polygon)
        ensures
            p.points@.len() == 0,
            p.seed is None,
            !p.enclosed,
    {
        Polygon { points: Vec::new(), seed: None, enclosed: false }
    }

    /// Moves `v0` toward `v1` by the fraction `rate` of their distance, the step rounded
    /// away from zero: only a seed on its centroid, or a rate of zero, stays.
    pub fn lerp(v0: i32, v1: i32, rate: Rate) -> (r: i32)
        requires
            rate.is_fraction(),
        ensures
            r == lerp_spec(v0 as int, v1 as int, rate),
            v0 == v1 ==> r == v0,
            v0 <= v1 ==> v0 <= r <= v1,
            v1 <= v0 ==> v1 <= r <= v0,
            v0 != v1 && rate.num > 0 ==> r != v0,
    {
        let d: i128 = v1 as i128 - v0 as i128;
        proof {
            lemma_mul_bound(d as int, rate.num as int, 0x1_0000_0000, 0x1_0000_0000);
            lemma_lerp_between(v0 as int, v1 as int, rate);
        }
        let step: i128 = div_away_from_zero(d * (rate.num as i128), rate.den as i128);
        (v0 as i128 + step) as i32
    }

    /// Sums the shoelace terms of the whole boundary.
    fn sums(&self) -> (r: Sums)
        requires
            self.points@.len() <= MAX_VERTICES,
        ensures
            r.area == twice_area(self.points@),
            r.mx == moment_x(self.points@),
            r.my == moment_y(self.points@),
            -0x4000_0000_0000_0000_0000_0000 <= r.area <= 0x4000_0000_0000_0000_0000_0000,
            -0x4000_0000_0000_0000_0000_0000_0000_0000 <= r.mx
                <= 0x4000_0000_0000_0000_0000_0000_0000_0000,
            -0x4000_0000_0000_0000_0000_0000_0000_0000 <= r.my
                <= 0x4000_0000_0000_0000_0000_0000_0000_0000,
    {
        let n = self.points.len();
        let mut acc = Sums { area: 0, mx: 0, my: 0 };
        let mut i: usize = 0;
        while i < n
            invariant
                i <= n,
                n == self.points@.len(),
                n <= MAX_VERTICES,
                acc.area == area_upto(self.points@, i as nat),
                acc.mx == moment_x_upto(self.points@, i as nat),
                acc.my == moment_y_upto(self.points@, i as nat),
                -(i * 0x8000_0000_0000_0000) <= acc.area <= i * 0x8000_0000_0000_0000,
                -(i * 0x8000_0000_0000_0000_0000_0000) <= acc.mx <= i
                    * 0x8000_0000_0000_0000_0000_0000,
                -(i * 0x8000_0000_0000_0000_0000_0000) <= acc.my <= i
                    * 0x8000_0000_0000_0000_0000_0000,
            decreases n - i,
        {
            acc = add_edge(&self.points, i, acc);
            i += 1;
        }
        acc
    }

    /// Twice the signed area of the boundary, taken as a closed loop: positive where the
    /// boundary runs counter-clockwise.
    pub fn twice_signed_area(&self) -> (a: i128)
        requires
            self.points@.len() <= MAX_VERTICES,
        ensures
            a == twice_area(self.points@),
    {
        self.sums().area
    }

    /// The centroid of the boundary by the shoelace formula, the last point joined to the
    /// first. Fails with `DegeneratePolygon` exactly where the boundary has no centroid
    /// on the lattice.
    pub fn centroid(&self) -> (r: Result<Point, StippleError>)
        requires
            self.points@.len() <= MAX_VERTICES,
        ensures
            match r {
                Ok(c) => centroid_of(self.points@) == Some(c),
                Err(e) => e == StippleError::DegeneratePolygon && centroid_of(self.points@) is None,
            },
            twice_area(self.points@) == 0 ==> r is Err,
    {
        let s = self.sums();
        if s.area == 0 {
            return Err(StippleError::DegeneratePolygon);
        }
        let cx: i128 = div_toward_zero(s.mx, 3 * s.area);
        let cy: i128 = div_toward_zero(s.my, 3 * s.area);
        if cx < -0x8000_0000 || cx > 0x7fff_ffff || cy < -0x8000_0000 || cy > 0x7fff_ffff {
            return Err(StippleError::DegeneratePolygon);
        }
        Ok(Point { x: cx as i32, y: cy as i32 })
    }

    /// Resolves the seed that owns this cell: the candidate nearest to the centroid.
    /// Fails with `DegeneratePolygon` where there is no centroid, and with
    /// `UnresolvedSeed` where there is one and no candidate.
    pub fn resolve_seed(&self, seeds: &Vec<Point>) -> (r: Result<Point, StippleError>)
        requires
            self.points@.len() <= MAX_VERTICES,
        ensures
            match r {
                Ok(p) => owning_seed(self.points@, seeds@) == Some(p),
                Err(e) => owning_seed(self.points@, seeds@) is None && (e
                    == StippleError::DegeneratePolygon <==> centroid_of(self.points@) is None) && (e
                    == StippleError::UnresolvedSeed <==> centroid_of(self.points@) is Some),
            },
            r is Ok <==> centroid_of(self.points@) is Some && seeds@.len() > 0,
    {
        match self.centroid() {
            Err(e) => Err(e),
            Ok(c) => match nearest_point(c, seeds) {
                Some(p) => Ok(p),
                None => Err(StippleError::UnresolvedSeed),
            },
        }
    }

    /// The segments to draw for this cell: those of its closed boundary where it is
    /// enclosed, none otherwise.
    pub fn outline(&self) -> (r: Vec<(Point, Point)>)
        ensures
            r@ == if self.enclosed {
                loop_segments(self.points@)
            } else {
                Seq::empty()
            },
    {
        let mut r: Vec<(Point, Point)> = Vec::new();
        if self.enclosed {
            let n = self.points.len();
            let mut i: usize = 0;
            while i < n
                invariant
                    i <= n,
                    n == self.points@.len(),
                    r@.len() == i,
                    forall|j: int| 0 <= j < i ==> #[trigger] r@[j] == (self.points@[j], successor(self.points@, j)),
                decreases n - i,
            {
                let a = self.points[i];
                let b = if i + 1 < n { self.points[i + 1] } else { self.points[0] };
                r.push((a, b));
                i += 1;
            }
            assert(r@ =~= loop_segments(self.points@));
        }
        r
    }

    /// One relaxation step at `rate`: an enclosed cell with a seed and a centroid moves
    /// its seed toward the centroid; any other cell keeps what it has.
    pub fn relax_with(&mut self, rate: Rate)
        requires
            old(self).points@.len() <= MAX_VERTICES,
            rate.is_fraction(),
        ensures
            final(self).points@ == old(self).points@,
            final(self).enclosed == old(self).enclosed,
            final(self).seed == relaxed_seed(
                old(self).points@,
                old(self).seed,
                old(self).enclosed,
                rate,
            ),
    {
        if self.enclosed {
            if let Some(seed) = self.seed {
                if let Ok(c) = self.centroid() {
                    let x = Self::lerp(seed.x, c.x, rate);
                    let y = Self::lerp(seed.y, c.y, rate);
                    self.seed = Some(Point { x, y });
                }
            }
        }
    }

    /// One relaxation step at the fixed rate `LERP_NUM / LERP_DEN`.
    pub fn relax(&mut self)
        requires
            old(self).points@.len() <= MAX_VERTICES,
        ensures
            final(self).points@ == old(self).points@,
            final(self).enclosed == old(self).enclosed,
            final(self).seed == relaxed_seed(
                old(self).points@,
                old(self).seed,
                old(self).enclosed,
                (Rate { num: LERP_NUM, den: LERP_DEN }),
            ),
    {
        self.relax_with(Rate { num: LERP_NUM, den: LERP_DEN });
    }
}

/// Commits an iteration: replaces `points` by the seeds of the polygons that have one,
/// in the polygons' order.
pub fn update_points(polygons: &Vec<Polygon>, points: &mut Vec<Point>)
    ensures
        final(points)@ == resolved_seeds(polygons@),
{
    points.clear();
    let mut i: usize = 0;
    while i < polygons.len()
        invariant
            i <= polygons.len(),
            points@ == resolved_seeds(polygons@.take(i as int)),
        decreases polygons.len() - i,
    {
        proof {
            assert(polygons@.take(i + 1).drop_last() =~= polygons@.take(i as int));
        }
        if let Some(seed) = polygons[i].seed {
            points.push(seed);
        }
        i += 1;
    }
    proof {
        assert(polygons@.take(i as int) =~= polygons@);
    }
}

/// Builds the polygon of one site from its adjacent Voronoi edges and associates it with
/// the nearest of `seed_points`.
pub fn cell_polygon(edges: &Vec<VoronoiEdge>, seed_points: &Vec<Point>) -> (p: Polygon)
    requires
        2 * edges@.len() <= MAX_VERTICES,
    ensures
        is_cell_polygon(p, edges@, seed_points@),
{
    let mut polygon = Polygon::new();
    let mut enclosed: bool = true;
    let mut i: usize = 0;
    while i < edges.len()
        invariant
            i <= edges.len(),
            polygon.points@ == cell_points(edges@.take(i as int)),
            enclosed == all_finite(edges@.take(i as int)),
        decreases edges.len() - i,
    {
        let edge = edges[i];
        proof {
            let t = edges@.take(i + 1);
            assert(t.drop_last() =~= edges@.take(i as int));
            assert(t.last() == edge);
            if all_finite(t) {
                assert forall|j: int| 0 <= j < i implies (#[trigger] edges@.take(i as int)[j]).is_finite() by {
                    assert(t[j].is_finite());
                }
                assert(t[i as int].is_finite());
            }
            if all_finite(edges@.take(i as int)) && edge.is_finite() {
                assert forall|j: int| 0 <= j < t.len() implies (#[trigger] t[j]).is_finite() by {
                    if j < i {
                        assert(edges@.take(i as int)[j].is_finite());
                    }
                }
            }
        }
        match (edge.from, edge.to) {
            (Some(start), Some(end)) => {
                polygon.points.push(end);
                polygon.points.push(start);
            },
            _ => {
                enclosed = false;
            },
        }
        i += 1;
    }
    proof {
        assert(edges@.take(i as int) =~= edges@);
        lemma_cell_points_len(edges@);
    }
    polygon.seed =
    match polygon.resolve_seed(seed_points) {
        Ok(p) => Some(p),
        Err(_) => None,
    };
    polygon.enclosed = enclosed && polygon.points.len() > 0;
    polygon
}

/// Produces one polygon per site of a Voronoi diagram, given each site's adjacent edges,
/// each polygon associated with the nearest of `seed_points`.
pub fn voronoi_polygons(faces: &Vec<Vec<VoronoiEdge>>, seed_points: &Vec<Point>) -> (polygons: Vec<
    Polygon,
>)
    requires
        forall|i: int| 0 <= i < faces@.len() ==> 2 * (#[trigger] faces@[i])@.len() <= MAX_VERTICES,
    ensures
        polygons@.len() == faces@.len(),
        forall|i: int|
            0 <= i < faces@.len() ==> is_cell_polygon(
                #[trigger] polygons@[i],
                faces@[i]@,
                seed_points@,
            ),
{
    let mut polygons: Vec<Polygon> = Vec::new();
    let mut i: usize = 0;
    while i < faces.len()
        invariant
            i <= faces.len(),
            polygons@.len() == i,
            forall|j: int| 0 <= j < faces@.len() ==> 2 * (#[trigger] faces@[j])@.len() <= MAX_VERTICES,
            forall|j: int|
                0 <= j < i ==> is_cell_polygon(#[trigger] polygons@[j], faces@[j]@, seed_points@),
        decreases faces.len() - i,
    {
        let polygon = cell_polygon(&faces[i], seed_points);
        polygons.push(polygon);
        i += 1;
    }
    polygons
}

/// One iteration of the relaxation loop on the cells of the diagram of `seeds`:
/// extracts each cell, associates it with its nearest seed, relaxes it at `rate`, and
/// commits the seeds of the cells that have one as the new seed set. Hands back the
/// number of cells that had none and were dropped.
pub fn iterate(faces: &Vec<Vec<VoronoiEdge>>, seeds: &mut Vec<Point>, rate: Rate) -> (dropped:
    usize)
    requires
        forall|i: int| 0 <= i < faces@.len() ==> 2 * (#[trigger] faces@[i])@.len() <= MAX_VERTICES,
        rate.is_fraction(),
    ensures
        final(seeds)@ == committed(faces@, old(seeds)@, rate),
        dropped + final(seeds)@.len() == faces@.len(),
{
    let mut next: Vec<Point> = Vec::new();
    let mut dropped: usize = 0;
    let mut i: usize = 0;
    while i < faces.len()
        invariant
            i <= faces.len(),
            dropped + next@.len() == i,
            rate.is_fraction(),
            forall|j: int| 0 <= j < faces@.len() ==> 2 * (#[trigger] faces@[j])@.len() <= MAX_VERTICES,
            next@ == committed(faces@.take(i as int), seeds@, rate),
        decreases faces.len() - i,
    {
        let mut polygon = cell_polygon(&faces[i], seeds);
        proof {
            assert(faces@.take(i + 1).drop_last() =~= faces@.take(i as int));
            assert(faces@.take(i + 1).last() == faces@[i as int]);
            lemma_cell_points_len(faces@[i as int]@);
        }
        polygon.relax_with(rate);
        match polygon.seed {
            Some(p) => {
                next.push(p);
            },
            None => {
                dropped += 1;
            },
        }
        i += 1;
    }
    proof {
        assert(faces@.take(i as int) =~= faces@);
    }
    *seeds = next;
    dropped
}

} // verus!
