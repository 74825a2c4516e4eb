//! Where the shoelace centroid lies: for a boundary that chords cut into triangles wound
//! one way, inside the convex hull of the boundary.
use vstd::prelude::*;
use crate::math::{Point, quot, lemma_div_bounds};
use crate::weighted_voronoi::{
    area_upto,
    centroid_of,
    cross,
    moment_x,
    moment_x_upto,
    moment_y,
    moment_y_upto,
    successor,
    twice_area,
};

verus! {

/// Twice the signed area of the triangle `p`, `v`, `q`: positive where it is wound
/// counter-clockwise.
pub open spec fn corner(p: Point, v: Point, q: Point) -> int {
    (v.x - p.x) * (q.y - p.y) - (q.x - p.x) * (v.y - p.y)
}

/// The stretch of the boundary from position `i` to position `j`, closed by the chord
/// from `j` back to `i`, is cut by chords into triangles on its vertices, each flat or
/// wound the way of `sign` (counter-clockwise for 1, clockwise for -1): the chord is a
/// side of one triangle, whose third corner `m` parts the stretch into two that are cut
/// likewise. A triangulation of a simple polygon by its diagonals cuts the whole
/// boundary so, from its first position to its last.
pub open spec fn triangulated(s: Seq<Point>, i: int, j: int, sign: int) -> bool
    decreases j - i,
{
    j <= i + 1 || exists|m: int|
        i < m < j && sign * #[trigger] corner(s[i], s[m], s[j]) >= 0 && triangulated(s, i, m, sign)
            && triangulated(s, m, j, sign)
}

/// Twice the signed area of the triangle on the first vertex of `s` and the vertices at
/// `i` and `i + 1`.
pub open spec fn fan_term(s: Seq<Point>, i: int) -> int {
    corner(s[0], s[i], s[i + 1])
}

/// Every triangle of the fan about the first vertex is flat or turns the way of `sign`.
/// The boundary of a convex polygon is such a boundary.
pub open spec fn fan_oriented(s: Seq<Point>, sign: int) -> bool {
    forall|i: int| 1 <= i < s.len() - 1 ==> sign * #[trigger] fan_term(s, i) >= 0
}

/// The value at `p` of the linear form `a x + b y + c`.
pub open spec fn side(a: int, b: int, c: int, p: Point) -> int {
    a * p.x + b * p.y + c
}

/// Every vertex of `s` lies in the half-plane `a x + b y + c >= 0`.
pub open spec fn in_half_plane(s: Seq<Point>, a: int, b: int, c: int) -> bool {
    forall|i: int| 0 <= i < s.len() ==> side(a, b, c, #[trigger] s[i]) >= 0
}

/// The shoelace area of the edges from position `i` to position `j`, closed by the chord
/// from `j` back to `i`.
pub open spec fn sub_area(s: Seq<Point>, i: int, j: int) -> int {
    area_upto(s, j as nat) - area_upto(s, i as nat) + cross(s[j], s[i])
}

/// The x moment of the edges from position `i` to position `j`, closed by the chord from
/// `j` back to `i`.
pub open spec fn sub_moment_x(s: Seq<Point>, i: int, j: int) -> int {
    moment_x_upto(s, j as nat) - moment_x_upto(s, i as nat) + (s[j].x + s[i].x) * cross(s[j], s[i])
}

/// The y moment of the edges from position `i` to position `j`, closed by the chord from
/// `j` back to `i`.
pub open spec fn sub_moment_y(s: Seq<Point>, i: int, j: int) -> int {
    moment_y_upto(s, j as nat) - moment_y_upto(s, i as nat) + (s[j].y + s[i].y) * cross(s[j], s[i])
}

/// The linear form `a x + b y + c` summed over a region, from the region's moments and
/// area.
pub open spec fn form_over(a: int, b: int, c: int, mx: int, my: int, area: int) -> int {
    a * mx + b * my + c * (3 * area)
}

/// A product of two sums of three terms each, written out.
proof fn lemma_expand(u: int, v: int, w: int, p: int, q: int, r: int)
    ensures
        (u + v + w) * (p + q + r) == u * p + u * q + u * r + v * p + v * q + v * r + w * p + w * q
            + w * r,
{
    assert((u + v + w) * (p + q + r) == u * p + u * q + u * r + v * p + v * q + v * r + w * p + w
        * q + w * r) by (nonlinear_arith);
}

/// Three factors may be multiplied in either of these orders.
proof fn lemma_swap(u: int, v: int, w: int)
    ensures
        u * (v * w) == v * (u * w),
        u * (v * w) == w * (v * u),
        u * (v * w) == w * (u * v),
{
    assert(u * (v * w) == v * (u * w)) by (nonlinear_arith);
    assert(u * (v * w) == w * (v * u)) by (nonlinear_arith);
    assert(u * (v * w) == w * (u * v)) by (nonlinear_arith);
}

/// The moment identity of a triangle over its edge products `ea` (from the second
/// corner to the third), `el` (third to first) and `ek` (second to first), for one
/// coordinate `u0`, `uk`, `ul` of the corners.
proof fn lemma_moment_step(u0: int, uk: int, ul: int, ea: int, el: int, ek: int)
    requires
        u0 * ea + uk * el - ul * ek == 0,
    ensures
        (uk + ul) * ea + (ul + u0) * el - (uk + u0) * ek == (u0 + uk + ul) * (ea + el - ek),
{
    lemma_expand(0, uk, ul, ea, 0, 0);
    lemma_expand(u0, 0, ul, 0, el, 0);
    lemma_expand(u0, uk, 0, 0, 0, ek);
    lemma_expand(u0, uk, ul, ea, el, -ek);
    assert(u0 * (-ek) == -(u0 * ek) && uk * (-ek) == -(uk * ek) && ul * (-ek) == -(ul * ek))
        by (nonlinear_arith);
}

/// The shoelace terms of the three sides of a triangle sum to its doubled area, and
/// their moments to that area times the sum of its corners.
pub proof fn lemma_triangle_step(x0: int, y0: int, xk: int, yk: int, xl: int, yl: int)
    ensures
        ({
            let ckl = xk * yl - xl * yk;
            let cl0 = xl * y0 - x0 * yl;
            let ck0 = xk * y0 - x0 * yk;
            let t = (xk - x0) * (yl - y0) - (xl - x0) * (yk - y0);
            &&& ckl + cl0 - ck0 == t
            &&& (xk + xl) * ckl + (xl + x0) * cl0 - (xk + x0) * ck0 == (x0 + xk + xl) * t
            &&& (yk + yl) * ckl + (yl + y0) * cl0 - (yk + y0) * ck0 == (y0 + yk + yl) * t
        }),
{
    let ckl = xk * yl - xl * yk;
    let cl0 = xl * y0 - x0 * yl;
    let ck0 = xk * y0 - x0 * yk;
    let t = (xk - x0) * (yl - y0) - (xl - x0) * (yk - y0);
    assert(ckl + cl0 - ck0 == t) by (nonlinear_arith)
        requires
            ckl == xk * yl - xl * yk,
            cl0 == xl * y0 - x0 * yl,
            ck0 == xk * y0 - x0 * yk,
            t == (xk - x0) * (yl - y0) - (xl - x0) * (yk - y0),
    ;
    assert(x0 * ckl == x0 * (xk * yl) - x0 * (xl * yk) && xk * cl0 == xk * (xl * y0) - xk * (x0
        * yl) && xl * ck0 == xl * (xk * y0) - xl * (x0 * yk)) by (nonlinear_arith)
        requires
            ckl == xk * yl - xl * yk,
            cl0 == xl * y0 - x0 * yl,
            ck0 == xk * y0 - x0 * yk,
    ;
    lemma_swap(x0, xk, yl);
    lemma_swap(x0, xl, yk);
    lemma_swap(xk, xl, y0);
    lemma_moment_step(x0, xk, xl, ckl, cl0, ck0);
    assert(y0 * ckl == y0 * (xk * yl) - y0 * (xl * yk) && yk * cl0 == yk * (xl * y0) - yk * (x0
        * yl) && yl * ck0 == yl * (xk * y0) - yl * (x0 * yk)) by (nonlinear_arith)
        requires
            ckl == xk * yl - xl * yk,
            cl0 == xl * y0 - x0 * yl,
            ck0 == xk * y0 - x0 * yk,
    ;
    lemma_swap(y0, xk, yl);
    lemma_swap(y0, xl, yk);
    lemma_swap(yk, x0, yl);
    lemma_moment_step(y0, yk, yl, ckl, cl0, ck0);
}

/// The weighted sum of one triangle is on the side of `sign`.
proof fn lemma_weighted_term(sign: int, t: int, l0: int, lk: int, ll: int)
    requires
        sign * t >= 0,
        l0 >= 0,
        lk >= 0,
        ll >= 0,
    ensures
        sign * (t * (l0 + lk + ll)) >= 0,
{
    assert(sign * (t * (l0 + lk + ll)) >= 0) by (nonlinear_arith)
        requires
            sign * t >= 0,
            l0 + lk + ll >= 0,
    ;
}

/// The linear form summed over a triangle's corners, times the triangle's area, is the
/// form applied to the triangle's moments and area.
proof fn lemma_form_of_triangle(
    a: int,
    b: int,
    c: int,
    t: int,
    x0: int,
    y0: int,
    xk: int,
    yk: int,
    xl: int,
    yl: int,
)
    ensures
        a * ((x0 + xk + xl) * t) + b * ((y0 + yk + yl) * t) + c * (3 * t) == t * ((a * x0 + b * y0
            + c) + (a * xk + b * yk + c) + (a * xl + b * yl + c)),
{
    let sx = x0 + xk + xl;
    let sy = y0 + yk + yl;
    lemma_expand(a, 0, 0, x0, xk, xl);
    lemma_expand(b, 0, 0, y0, yk, yl);
    lemma_expand(t, 0, 0, a * sx, b * sy, 3 * c);
    lemma_swap(t, a, sx);
    lemma_swap(t, b, sy);
    lemma_swap(t, 3, c);
    assert(sx * t == t * sx && sy * t == t * sy && 3 * t == t * 3) by (nonlinear_arith);
}

/// A stretch that is cut into triangles wound the way of `sign` has its area on the
/// side of `sign`, and so the linear form over it, where every vertex lies in the form's
/// half-plane.
pub proof fn lemma_sub_polygon(s: Seq<Point>, sign: int, a: int, b: int, c: int, i: int, j: int)
    requires
        0 <= i <= j < s.len(),
        sign == 1 || sign == -1,
        triangulated(s, i, j, sign),
        in_half_plane(s, a, b, c),
    ensures
        sign * sub_area(s, i, j) >= 0,
        sign * form_over(a, b, c, sub_moment_x(s, i, j), sub_moment_y(s, i, j), sub_area(s, i, j))
            >= 0,
    decreases j - i,
{
    let pi = s[i];
    let pj = s[j];
    if j == i {
        assert(cross(pi, pi) == 0) by (nonlinear_arith)
            requires
                cross(pi, pi) == pi.x * pi.y - pi.x * pi.y,
        ;
        lemma_expand(pi.x + pi.x, 0, 0, 0, 0, 0);
        lemma_expand(pi.y + pi.y, 0, 0, 0, 0, 0);
        lemma_expand(a, b, c, 0, 0, 0);
        lemma_expand(sign, 0, 0, 0, 0, 0);
        assert(sub_area(s, i, j) == 0);
        assert(sub_moment_x(s, i, j) == 0);
        assert(sub_moment_y(s, i, j) == 0);
        assert(a * 0 == 0 && b * 0 == 0 && c * (3 * 0) == 0);
    } else if j == i + 1 {
        assert(successor(s, i) == pj);
        let e = cross(pi, pj);
        assert(cross(pj, pi) == -e) by (nonlinear_arith)
            requires
                cross(pj, pi) == pj.x * pi.y - pi.x * pj.y,
                e == pi.x * pj.y - pj.x * pi.y,
        ;
        assert(area_upto(s, j as nat) == area_upto(s, i as nat) + e);
        assert(moment_x_upto(s, j as nat) == moment_x_upto(s, i as nat) + (pi.x + pj.x) * e);
        assert(moment_y_upto(s, j as nat) == moment_y_upto(s, i as nat) + (pi.y + pj.y) * e);
        lemma_expand(pi.x + pj.x, 0, 0, e, -e, 0);
        lemma_expand(pi.y + pj.y, 0, 0, e, -e, 0);
        lemma_expand(a, b, c, 0, 0, 0);
        lemma_expand(sign, 0, 0, 0, 0, 0);
        assert(sub_area(s, i, j) == 0);
        assert(sub_moment_x(s, i, j) == 0);
        assert(sub_moment_y(s, i, j) == 0);
        assert(a * 0 == 0 && b * 0 == 0 && c * (3 * 0) == 0);
    } else {
        let m = choose|m: int|
            i < m < j && sign * #[trigger] corner(s[i], s[m], s[j]) >= 0 && triangulated(
                s,
                i,
                m,
                sign,
            ) && triangulated(s, m, j, sign);
        let pm = s[m];
        lemma_sub_polygon(s, sign, a, b, c, i, m);
        lemma_sub_polygon(s, sign, a, b, c, m, j);
        lemma_triangle_step(
            pi.x as int,
            pi.y as int,
            pm.x as int,
            pm.y as int,
            pj.x as int,
            pj.y as int,
        );
        let t = corner(pi, pm, pj);
        let cmj = cross(pm, pj);
        let cji = cross(pj, pi);
        let cmi = cross(pm, pi);
        assert(cross(pj, pm) == -cmj) by (nonlinear_arith)
            requires
                cross(pj, pm) == pj.x * pm.y - pm.x * pj.y,
                cmj == pm.x * pj.y - pj.x * pm.y,
        ;
        lemma_expand(pj.x + pm.x, 0, 0, cmj, -cmj, 0);
        lemma_expand(pj.y + pm.y, 0, 0, cmj, -cmj, 0);
        let tx = (pi.x + pm.x + pj.x) * t;
        let ty = (pi.y + pm.y + pj.y) * t;
        assert(sub_area(s, i, j) == sub_area(s, i, m) + sub_area(s, m, j) + t);
        assert(sub_moment_x(s, i, j) == sub_moment_x(s, i, m) + sub_moment_x(s, m, j) + tx);
        assert(sub_moment_y(s, i, j) == sub_moment_y(s, i, m) + sub_moment_y(s, m, j) + ty);
        let l0 = side(a, b, c, pi);
        let lk = side(a, b, c, pm);
        let ll = side(a, b, c, pj);
        lemma_weighted_term(sign, t, l0, lk, ll);
        lemma_form_of_triangle(
            a,
            b,
            c,
            t,
            pi.x as int,
            pi.y as int,
            pm.x as int,
            pm.y as int,
            pj.x as int,
            pj.y as int,
        );
        let d = t * (l0 + lk + ll);
        let w1 = form_over(
            a,
            b,
            c,
            sub_moment_x(s, i, m),
            sub_moment_y(s, i, m),
            sub_area(s, i, m),
        );
        let w2 = form_over(
            a,
            b,
            c,
            sub_moment_x(s, m, j),
            sub_moment_y(s, m, j),
            sub_area(s, m, j),
        );
        let w = form_over(
            a,
            b,
            c,
            sub_moment_x(s, i, j),
            sub_moment_y(s, i, j),
            sub_area(s, i, j),
        );
        lemma_expand(a, 0, 0, sub_moment_x(s, i, m), sub_moment_x(s, m, j), tx);
        lemma_expand(b, 0, 0, sub_moment_y(s, i, m), sub_moment_y(s, m, j), ty);
        lemma_expand(c, 0, 0, 3 * sub_area(s, i, m), 3 * sub_area(s, m, j), 3 * t);
        assert(w == w1 + w2 + d);
        lemma_expand(sign, 0, 0, w1, w2, d);
        lemma_expand(sign, 0, 0, sub_area(s, i, m), sub_area(s, m, j), t);
    }
}

/// The shoelace centroid lies in the convex hull of the boundary. For a boundary that
/// chords cut into triangles wound one way, as a triangulation cuts a simple polygon,
/// the area has the sign of the winding, and every linear inequality `a x + b y + c >= 0`
/// that all vertices meet is met by the exact centroid `(moment_x / (3 twice_area),
/// moment_y / (3 twice_area))`. The inequality is stated multiplied through by
/// `3 twice_area`, whose sign is that of the winding.
pub proof fn lemma_centroid_in_hull(s: Seq<Point>, sign: int, a: int, b: int, c: int)
    requires
        s.len() > 0,
        sign == 1 || sign == -1,
        triangulated(s, 0, s.len() - 1, sign),
        in_half_plane(s, a, b, c),
    ensures
        sign * twice_area(s) >= 0,
        sign * (a * moment_x(s) + b * moment_y(s) + c * (3 * twice_area(s))) >= 0,
{
    let k = s.len() - 1;
    lemma_sub_polygon(s, sign, a, b, c, 0, k);
    assert(successor(s, k) == s[0]);
    assert(twice_area(s) == sub_area(s, 0, k));
    assert(moment_x(s) == sub_moment_x(s, 0, k));
    assert(moment_y(s) == sub_moment_y(s, 0, k));
}

/// A boundary whose fan about the first vertex winds one way is cut into triangles by
/// the chords of that fan.
pub proof fn lemma_fan_is_triangulated(s: Seq<Point>, sign: int, j: int)
    requires
        0 <= j < s.len(),
        fan_oriented(s, sign),
    ensures
        triangulated(s, 0, j, sign),
    decreases j,
{
    if j > 1 {
        lemma_fan_is_triangulated(s, sign, j - 1);
        assert(sign * fan_term(s, j - 1) >= 0);
        assert(sign * corner(s[0], s[j - 1], s[j]) >= 0);
        assert(triangulated(s, j - 1, j, sign));
        assert(triangulated(s, 0, j - 1, sign));
    }
}

/// The centroid of a boundary whose fan about the first vertex winds one way, as that of
/// a convex polygon does, lies in the convex hull of the boundary.
pub proof fn lemma_fan_centroid_in_hull(s: Seq<Point>, sign: int, a: int, b: int, c: int)
    requires
        s.len() > 0,
        sign == 1 || sign == -1,
        fan_oriented(s, sign),
        in_half_plane(s, a, b, c),
    ensures
        sign * twice_area(s) >= 0,
        sign * (a * moment_x(s) + b * moment_y(s) + c * (3 * twice_area(s))) >= 0,
{
    lemma_fan_is_triangulated(s, sign, s.len() - 1);
    lemma_centroid_in_hull(s, sign, a, b, c);
}

/// A quotient rounded toward zero lies between two integers that the exact quotient
/// lies between.
pub proof fn lemma_quot_between(n: int, d: int, lo: int, hi: int)
    requires
        d != 0,
        d > 0 ==> lo * d <= n <= hi * d,
        d < 0 ==> hi * d <= n <= lo * d,
    ensures
        lo <= quot(n, d) <= hi,
{
    let an = if n >= 0 { n } else { -n };
    let ad = if d > 0 { d } else { -d };
    lemma_div_bounds(an, ad);
    let m = an / ad;
    if (n >= 0) == (d > 0) {
        assert(quot(n, d) == m);
        assert(lo <= m <= hi) by (nonlinear_arith)
            requires
                m * ad <= an < m * ad + ad,
                ad > 0,
                (d > 0 && ad == d && an == n && lo * d <= n <= hi * d) || (d < 0 && ad == -d && an
                    == -n && hi * d <= n <= lo * d),
        ;
    } else {
        assert(quot(n, d) == -m);
        assert(lo <= -m <= hi) by (nonlinear_arith)
            requires
                m * ad <= an < m * ad + ad,
                ad > 0,
                (d > 0 && ad == d && an == -n && lo * d <= n <= hi * d) || (d < 0 && ad == -d && an
                    == n && hi * d <= n <= lo * d),
        ;
    }
}

/// The moment of a boundary cut into triangles wound one way lies between the bounds of
/// its vertices'
/// coordinates, times three times the doubled area.
proof fn lemma_moment_between(s: Seq<Point>, sign: int, lo: int, hi: int, along_x: bool)
    requires
        s.len() > 0,
        sign == 1 || sign == -1,
        triangulated(s, 0, s.len() - 1, sign),
        forall|i: int|
            0 <= i < s.len() ==> lo <= (if along_x {
                (#[trigger] s[i]).x
            } else {
                s[i].y
            }) <= hi,
    ensures
        sign * twice_area(s) >= 0,
        ({
            let n = if along_x { moment_x(s) } else { moment_y(s) };
            let d = 3 * twice_area(s);
            &&& d > 0 ==> lo * d <= n <= hi * d
            &&& d < 0 ==> hi * d <= n <= lo * d
        }),
{
    let a: int = if along_x { 1 } else { 0 };
    let b: int = if along_x { 0 } else { 1 };
    assert forall|i: int| 0 <= i < s.len() implies side(a, b, -lo, #[trigger] s[i]) >= 0 by {
        assert(lo <= (if along_x { s[i].x } else { s[i].y }));
    }
    assert forall|i: int| 0 <= i < s.len() implies side(-a, -b, hi, #[trigger] s[i]) >= 0 by {
        assert((if along_x { s[i].x } else { s[i].y }) <= hi);
    }
    lemma_centroid_in_hull(s, sign, a, b, -lo);
    lemma_centroid_in_hull(s, sign, -a, -b, hi);
    let n = if along_x { moment_x(s) } else { moment_y(s) };
    let d = 3 * twice_area(s);
    assert(a * moment_x(s) + b * moment_y(s) == n);
    assert((-a) * moment_x(s) + (-b) * moment_y(s) == -n);
    assert((-lo) * d == -(lo * d)) by (nonlinear_arith);
    assert(sign * (n - lo * d) >= 0);
    assert(sign * (hi * d - n) >= 0);
    assert(sign * d == 3 * (sign * twice_area(s))) by (nonlinear_arith)
        requires
            d == 3 * twice_area(s),
    ;
}

/// A boundary that is cut into triangles wound one way, and has area, has its centroid
/// on the lattice, inside the box that bounds its vertices.
pub proof fn lemma_centroid_in_box(
    s: Seq<Point>,
    sign: int,
    lo_x: int,
    hi_x: int,
    lo_y: int,
    hi_y: int,
)
    requires
        s.len() > 0,
        sign == 1 || sign == -1,
        triangulated(s, 0, s.len() - 1, sign),
        twice_area(s) != 0,
        forall|i: int| 0 <= i < s.len() ==> lo_x <= (#[trigger] s[i]).x <= hi_x,
        forall|i: int| 0 <= i < s.len() ==> lo_y <= (#[trigger] s[i]).y <= hi_y,
    ensures
        centroid_of(s) matches Some(c) && lo_x <= c.x <= hi_x && lo_y <= c.y <= hi_y,
{
    let d = 3 * twice_area(s);
    lemma_moment_between(s, sign, lo_x, hi_x, true);
    lemma_moment_between(s, sign, lo_y, hi_y, false);
    lemma_quot_between(moment_x(s), d, lo_x, hi_x);
    lemma_quot_between(moment_y(s), d, lo_y, hi_y);
    lemma_moment_between(s, sign, i32::MIN as int, i32::MAX as int, true);
    lemma_moment_between(s, sign, i32::MIN as int, i32::MAX as int, false);
    lemma_quot_between(moment_x(s), d, i32::MIN as int, i32::MAX as int);
    lemma_quot_between(moment_y(s), d, i32::MIN as int, i32::MAX as int);
}

} // verus!
