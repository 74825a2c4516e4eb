//! Lattice points, exact squared distances, the nearest-seed matcher and
//! division rounded toward zero.
use vstd::prelude::*;

verus! {

/// A position on the integer lattice that the image plane is laid over.
#[derive(Clone, Copy, Debug, PartialEq, Eq, Structural)]
pub struct Point {
    pub x: i32,
    pub y: i32,
}

impl Point {
    pub fn new(x: i32, y: i32) -> (p: Point)
        ensures
            p.x == x,
            p.y == y,
    {
        Point { x, y }
    }
}

/// The quotient of `n` by `d`, rounded toward zero.
pub open spec fn quot(n: int, d: int) -> int {
    if n >= 0 {
        if d > 0 {
            n / d
        } else {
            -(n / (-d))
        }
    } else {
        if d > 0 {
            -((-n) / d)
        } else {
            (-n) / (-d)
        }
    }
}

/// Bounds on a quotient of non-negative numbers: `n / d` is the largest `q` with `q * d <= n`.
pub proof fn lemma_div_bounds(n: int, d: int)
    requires
        n >= 0,
        d > 0,
    ensures
        0 <= n / d <= n,
        (n / d) * d <= n < (n / d) * d + d,
{
    vstd::arithmetic::div_mod::lemma_fundamental_div_mod(n, d);
    vstd::arithmetic::div_mod::lemma_mod_bound(n, d);
    vstd::arithmetic::div_mod::lemma_div_pos_is_pos(n, d);
    let q = n / d;
    assert(d * q == q * d) by (nonlinear_arith);
    assert(q <= q * d) by (nonlinear_arith)
        requires
            q >= 0,
            d >= 1,
    ;
}

/// The quotient rounded toward zero is no larger in magnitude than the dividend and has
/// the sign that the operands give it.
pub proof fn lemma_quot_bounds(n: int, d: int)
    requires
        d != 0,
    ensures
        n >= 0 ==> -n <= quot(n, d) <= n,
        n <= 0 ==> n <= quot(n, d) <= -n,
        n == 0 ==> quot(n, d) == 0,
        (n >= 0 && d > 0) || (n <= 0 && d < 0) ==> quot(n, d) >= 0,
        (n >= 0 && d < 0) || (n <= 0 && d > 0) ==> quot(n, d) <= 0,
{
    let an = if n >= 0 { n } else { -n };
    let ad = if d > 0 { d } else { -d };
    lemma_div_bounds(an, ad);
}

/// Division of 128-bit integers, rounded toward zero.
pub fn div_toward_zero(n: i128, d: i128) -> (q: i128)
    requires
        d != 0,
        n > i128::MIN,
        d > i128::MIN,
    ensures
        q == quot(n as int, d as int),
{
    let an: i128 = if n < 0 { -n } else { n };
    let ad: i128 = if d < 0 { -d } else { d };
    proof {
        lemma_div_bounds(an as int, ad as int);
    }
    let m: i128 = an / ad;
    if (n < 0) != (d < 0) {
        -m
    } else {
        m
    }
}

/// The quotient of `n` by `d`, rounded away from zero: the least magnitude that is no
/// less than that of the exact quotient, with its sign.
pub open spec fn quot_away(n: int, d: int) -> int {
    let an = if n >= 0 { n } else { -n };
    let ad = if d > 0 { d } else { -d };
    let m = if an % ad == 0 { an / ad } else { an / ad + 1 };
    if (n >= 0) == (d > 0) {
        m
    } else {
        -m
    }
}

/// Rounding away from zero gives zero only for zero, and never more than the dividend
/// where the divisor is at least one in magnitude.
pub proof fn lemma_quot_away_bounds(n: int, d: int)
    requires
        d != 0,
    ensures
        n == 0 ==> quot_away(n, d) == 0,
        n != 0 ==> quot_away(n, d) != 0,
        n >= 0 ==> -n <= quot_away(n, d) <= n,
        n <= 0 ==> n <= quot_away(n, d) <= -n,
{
    let an = if n >= 0 { n } else { -n };
    let ad = if d > 0 { d } else { -d };
    lemma_div_bounds(an, ad);
    vstd::arithmetic::div_mod::lemma_fundamental_div_mod(an, ad);
    vstd::arithmetic::div_mod::lemma_mod_bound(an, ad);
    let q = an / ad;
    let r = an % ad;
    assert(ad * q == q * ad) by (nonlinear_arith);
    if r != 0 {
        assert(q + 1 <= an) by (nonlinear_arith)
            requires
                an == q * ad + r,
                0 < r < ad,
                q >= 0,
        ;
    } else if an != 0 {
        assert(q != 0) by (nonlinear_arith)
            requires
                an == q * ad,
                an != 0,
        ;
    }
}

/// Division of 128-bit integers, rounded away from zero.
pub fn div_away_from_zero(n: i128, d: i128) -> (q: i128)
    requires
        d != 0,
        n > i128::MIN,
        d > i128::MIN,
    ensures
        q == quot_away(n as int, d as int),
{
    let an: i128 = if n < 0 { -n } else { n };
    let ad: i128 = if d < 0 { -d } else { d };
    proof {
        lemma_quot_away_bounds(n as int, d as int);
        lemma_div_bounds(an as int, ad as int);
    }
    let m: i128 = if an % ad == 0 { an / ad } else { an / ad + 1 };
    if (n < 0) != (d < 0) {
        -m
    } else {
        m
    }
}

/// The square of the Euclidean distance between two lattice points.
pub open spec fn dist2(a: Point, b: Point) -> int {
    (a.x - b.x) * (a.x - b.x) + (a.y - b.y) * (a.y - b.y)
}

/// The candidate of `s` that a left-to-right scan keeps: the first one at the least
/// distance from `c`, or nothing where `s` is empty.
pub open spec fn nearest(c: Point, s: Seq<Point>) -> Option<Point>
    decreases s.len(),
{
    if s.len() == 0 {
        None
    } else {
        match nearest(c, s.drop_last()) {
            None => Some(s.last()),
            Some(p) => if dist2(c, s.last()) < dist2(c, p) {
                Some(s.last())
            } else {
                Some(p)
            },
        }
    }
}

/// `i` is the first position of `s` whose point is at the least distance from `c`.
pub open spec fn is_first_nearest(c: Point, s: Seq<Point>, i: int) -> bool {
    &&& 0 <= i < s.len()
    &&& forall|j: int| 0 <= j < s.len() ==> dist2(c, s[i]) <= dist2(c, #[trigger] s[j])
    &&& forall|j: int| 0 <= j < i ==> dist2(c, s[i]) < dist2(c, #[trigger] s[j])
}

/// The matcher's answer is no farther from the query than any candidate, and it is the
/// earliest candidate of which that holds.
pub proof fn lemma_nearest_is_minimum(c: Point, s: Seq<Point>)
    ensures
        s.len() == 0 <==> nearest(c, s) is None,
        s.len() > 0 ==> exists|i: int| is_first_nearest(c, s, i) && nearest(c, s) == Some(s[i]),
    decreases s.len(),
{
    if s.len() > 0 {
        let t = s.drop_last();
        lemma_nearest_is_minimum(c, t);
        if t.len() == 0 {
            assert(is_first_nearest(c, s, 0));
        } else {
            let i = choose|i: int| is_first_nearest(c, t, i) && nearest(c, t) == Some(t[i]);
            assert forall|j: int| 0 <= j < t.len() implies t[j] == s[j] by {}
            if dist2(c, s.last()) < dist2(c, t[i]) {
                let k = s.len() - 1;
                assert forall|j: int| 0 <= j < k implies dist2(c, s[k]) < dist2(c, #[trigger] s[j]) by {
                    assert(dist2(c, t[i]) <= dist2(c, t[j]));
                }
                assert(is_first_nearest(c, s, k));
            } else {
                assert forall|j: int| 0 <= j < s.len() implies dist2(c, s[i]) <= dist2(
                    c,
                    #[trigger] s[j],
                ) by {
                    if j < t.len() {
                        assert(dist2(c, t[i]) <= dist2(c, t[j]));
                    }
                }
                assert forall|j: int| 0 <= j < i implies dist2(c, s[i]) < dist2(c, #[trigger] s[j]) by {
                    assert(dist2(c, t[i]) < dist2(c, t[j]));
                }
                assert(is_first_nearest(c, s, i));
            }
        }
    }
}

/// The squared Euclidean distance between `a` and `b`, computed exactly.
pub fn squared_dist(a: Point, b: &Point) -> (d: u128)
    ensures
        d == dist2(a, *b),
{
    let dx: i64 = a.x as i64 - b.x as i64;
    let dy: i64 = a.y as i64 - b.y as i64;
    let ax: u128 = if dx < 0 { (-dx) as u128 } else { dx as u128 };
    let ay: u128 = if dy < 0 { (-dy) as u128 } else { dy as u128 };
    assert(ax * ax <= 0x1_0000_0000 * 0x1_0000_0000) by (nonlinear_arith)
        requires
            ax <= 0x1_0000_0000,
    ;
    assert(ay * ay <= 0x1_0000_0000 * 0x1_0000_0000) by (nonlinear_arith)
        requires
            ay <= 0x1_0000_0000,
    ;
    assert(ax * ax == (a.x - b.x) * (a.x - b.x)) by (nonlinear_arith)
        requires
            ax == a.x - b.x || ax == -(a.x - b.x),
    ;
    assert(ay * ay == (a.y - b.y) * (a.y - b.y)) by (nonlinear_arith)
        requires
            ay == a.y - b.y || ay == -(a.y - b.y),
    ;
    ax * ax + ay * ay
}

/// Finds the candidate closest to `c`: the first of those at the least Euclidean
/// distance, `None` exactly where there is no candidate.
pub fn nearest_point(c: Point, points: &Vec<Point>) -> (r: Option<Point>)
    ensures
        r == nearest(c, points@),
        r is None <==> points@.len() == 0,
        r matches Some(p) ==> exists|i: int|
            is_first_nearest(c, points@, i) && p == points@[i],
{
    let mut best: Option<(u128, Point)> = None;
    let mut i: usize = 0;
    while i < points.len()
        invariant
            i <= points.len(),
            match best {
                None => nearest(c, points@.take(i as int)) is None,
                Some((d, p)) => nearest(c, points@.take(i as int)) == Some(p) && d == dist2(c, p),
            },
        decreases points.len() - i,
    {
        let p = points[i];
        let d = squared_dist(c, &p);
        proof {
            assert(points@.take(i + 1).drop_last() =~= points@.take(i as int));
            assert(points@.take(i + 1).last() == p);
        }
        match best {
            None => {
                best = Some((d, p));
            },
            Some((bd, _)) => {
                if d < bd {
                    best = Some((d, p));
                }
            },
        }
        i += 1;
    }
    proof {
        assert(points@.take(i as int) =~= points@);
        lemma_nearest_is_minimum(c, points@);
    }
    match best {
        None => None,
        Some((_, p)) => Some(p),
    }
}

} // verus!
