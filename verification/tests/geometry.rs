use spade::Triangulation;
use stippling::math::{div_away_from_zero, div_toward_zero, nearest_point, squared_dist, Point};
use stippling::sites::{distinct_sites, find_site, insert_site};
use stippling::weighted_voronoi::{
    cell_polygon, iterate, update_points, voronoi_polygons, Polygon, Rate, StippleError,
    VoronoiEdge, LERP_DEN, LERP_NUM,
};

fn pt(x: i32, y: i32) -> Point {
    Point::new(x, y)
}

fn poly(points: &[(i32, i32)]) -> Polygon {
    let mut p = Polygon::new();
    for &(x, y) in points {
        p.points.push(pt(x, y));
    }
    p
}

fn edge(from: Option<(i32, i32)>, to: Option<(i32, i32)>) -> VoronoiEdge {
    VoronoiEdge { from: from.map(|(x, y)| pt(x, y)), to: to.map(|(x, y)| pt(x, y)) }
}

#[test]
fn square_has_centroid_two_two_and_area_sixteen() {
    let p = poly(&[(0, 0), (4, 0), (4, 4), (0, 4)]);
    assert_eq!(p.centroid(), Ok(pt(2, 2)));
    assert_eq!(p.twice_signed_area(), 2 * 16);
}

#[test]
fn clockwise_square_has_negative_area_and_same_centroid() {
    let p = poly(&[(0, 4), (4, 4), (4, 0), (0, 0)]);
    assert_eq!(p.twice_signed_area(), -32);
    assert_eq!(p.centroid(), Ok(pt(2, 2)));
}

#[test]
fn centroid_of_triangle_is_exact_where_it_is_on_the_lattice() {
    let p = poly(&[(0, 0), (9, 0), (0, 6)]);
    assert_eq!(p.twice_signed_area(), 54);
    assert_eq!(p.centroid(), Ok(pt(3, 2)));
}

#[test]
fn centroid_rounds_toward_zero() {
    assert_eq!(poly(&[(0, 0), (1, 0), (0, 1)]).centroid(), Ok(pt(0, 0)));
    assert_eq!(poly(&[(0, 0), (-1, 0), (0, -1)]).centroid(), Ok(pt(0, 0)));
    assert_eq!(poly(&[(0, 0), (5, 0), (0, 5)]).centroid(), Ok(pt(1, 1)));
    assert_eq!(poly(&[(0, 0), (-5, 0), (0, -5)]).centroid(), Ok(pt(-1, -1)));
}

#[test]
fn centroid_fails_on_boundaries_without_area() {
    assert_eq!(Polygon::new().centroid(), Err(StippleError::DegeneratePolygon));
    assert_eq!(poly(&[(3, 3)]).centroid(), Err(StippleError::DegeneratePolygon));
    assert_eq!(poly(&[(0, 0), (5, 5)]).centroid(), Err(StippleError::DegeneratePolygon));
    assert_eq!(poly(&[(0, 0), (1, 1), (2, 2), (7, 7)]).centroid(), Err(StippleError::DegeneratePolygon));
}

#[test]
fn centroid_fails_where_it_leaves_the_lattice() {
    let p = poly(&[(0, 0), (2147483647, 0), (-2147483647, 1), (1, 1)]);
    assert_eq!(p.twice_signed_area(), -1);
    assert_eq!(p.centroid(), Err(StippleError::DegeneratePolygon));
}

#[test]
fn centroid_of_extreme_square() {
    let lo = i32::MIN;
    let hi = i32::MAX;
    let p = poly(&[(lo, lo), (hi, lo), (hi, hi), (lo, hi)]);
    let side = hi as i128 - lo as i128;
    assert_eq!(p.twice_signed_area(), 2 * side * side);
    assert_eq!(p.centroid(), Ok(pt(0, 0)));
}

#[test]
fn centroid_of_convex_polygon_lies_in_its_hull() {
    let vertices = [(1, 1), (9, 2), (12, 7), (6, 11), (0, 6)];
    let p = poly(&vertices);
    let c = p.centroid().unwrap();
    assert_eq!(c, pt(5, 5));
    let n = vertices.len();
    for i in 0..n {
        let (ax, ay) = vertices[i];
        let (bx, by) = vertices[(i + 1) % n];
        let turn = (bx - ax) * (c.y - ay) - (by - ay) * (c.x - ax);
        assert!(turn >= 0);
    }
}

#[test]
fn division_rounds_toward_zero() {
    assert_eq!(div_toward_zero(7, 2), 3);
    assert_eq!(div_toward_zero(-7, 2), -3);
    assert_eq!(div_toward_zero(7, -2), -3);
    assert_eq!(div_toward_zero(-7, -2), 3);
    assert_eq!(div_toward_zero(0, -5), 0);
    assert_eq!(div_toward_zero(6, 3), 2);
}

#[test]
fn squared_distance_is_exact() {
    assert_eq!(squared_dist(pt(0, 0), &pt(3, 4)), 25);
    assert_eq!(squared_dist(pt(-1, -1), &pt(-1, -1)), 0);
    let far = squared_dist(pt(i32::MIN, i32::MIN), &pt(i32::MAX, i32::MAX));
    assert_eq!(far, 2 * 4294967295u128 * 4294967295u128);
}

#[test]
fn nearest_point_of_nothing_is_none() {
    assert_eq!(nearest_point(pt(1, 2), &vec![]), None);
}

#[test]
fn nearest_point_is_no_farther_than_any_candidate() {
    let candidates = vec![pt(10, 10), pt(-3, 4), pt(2, 2), pt(7, -1), pt(0, 6)];
    let query = pt(1, 1);
    let found = nearest_point(query, &candidates).unwrap();
    assert_eq!(found, pt(2, 2));
    for c in &candidates {
        assert!(squared_dist(query, &found) <= squared_dist(query, c));
    }
}

#[test]
fn nearest_point_keeps_the_first_of_equals() {
    let candidates = vec![pt(5, 0), pt(0, 5), pt(-5, 0), pt(0, -5)];
    assert_eq!(nearest_point(pt(0, 0), &candidates), Some(pt(5, 0)));
    let candidates = vec![pt(9, 9), pt(0, 5), pt(5, 0)];
    assert_eq!(nearest_point(pt(0, 0), &candidates), Some(pt(0, 5)));
}

#[test]
fn lerp_is_exact() {
    let hundredth = Rate { num: 1, den: 100 };
    assert_eq!(Polygon::lerp(0, 100, hundredth), 1);
    assert_eq!(Polygon::lerp(0, 101, hundredth), 2);
    assert_eq!(Polygon::lerp(0, 99, hundredth), 1);
    assert_eq!(Polygon::lerp(0, 1, hundredth), 1);
    assert_eq!(Polygon::lerp(0, -250, hundredth), -3);
    assert_eq!(Polygon::lerp(0, -200, hundredth), -2);
    assert_eq!(Polygon::lerp(10, 1010, Rate { num: 1, den: 10 }), 110);
    assert_eq!(Polygon::lerp(-7, 5, Rate { num: 1, den: 2 }), -1);
    assert_eq!(Polygon::lerp(-7, 4, Rate { num: 1, den: 2 }), -1);
    assert_eq!(Polygon::lerp(3, 8, Rate { num: 0, den: 4 }), 3);
    assert_eq!(Polygon::lerp(3, 8, Rate { num: 4, den: 4 }), 8);
    assert_eq!(Polygon::lerp(i32::MIN, i32::MAX, Rate { num: 1, den: 2 }), 0);
    assert_eq!(Polygon::lerp(i32::MAX, i32::MIN, Rate { num: 3, den: 3 }), i32::MIN);
}

#[test]
fn lerp_reaches_the_target_step_by_step() {
    let hundredth = Rate { num: 1, den: 100 };
    let mut v = 0;
    let mut steps = 0;
    while v != 37 {
        let next = Polygon::lerp(v, 37, hundredth);
        assert!(v < next && next <= 37);
        v = next;
        steps += 1;
    }
    assert_eq!(steps, 37);
    let mut w = 5;
    while w != -5 {
        let next = Polygon::lerp(w, -5, Rate { num: 1, den: 3 });
        assert!(-5 <= next && next < w);
        w = next;
    }
}

#[test]
fn division_rounds_away_from_zero() {
    assert_eq!(div_away_from_zero(7, 2), 4);
    assert_eq!(div_away_from_zero(-7, 2), -4);
    assert_eq!(div_away_from_zero(7, -2), -4);
    assert_eq!(div_away_from_zero(-7, -2), 4);
    assert_eq!(div_away_from_zero(6, 3), 2);
    assert_eq!(div_away_from_zero(-6, 3), -2);
    assert_eq!(div_away_from_zero(0, -5), 0);
    assert_eq!(div_away_from_zero(1, 1000), 1);
}

#[test]
fn lerp_from_a_point_to_itself_stays() {
    for &c in &[0, 1, -1, 12345, i32::MIN, i32::MAX] {
        for &(num, den) in &[(0u32, 1u32), (1, 100), (1, 10), (7, 9), (5, 5)] {
            assert_eq!(Polygon::lerp(c, c, Rate { num, den }), c);
        }
    }
}

#[test]
fn relax_moves_an_enclosed_seed_a_hundredth_of_the_way() {
    let mut p = poly(&[(0, 0), (4000, 0), (4000, 4000), (0, 4000)]);
    p.seed = Some(pt(1000, 3000));
    p.enclosed = true;
    p.relax();
    assert_eq!((LERP_NUM, LERP_DEN), (1, 100));
    assert_eq!(p.seed, Some(pt(1010, 2990)));
    assert!(p.enclosed);
    assert_eq!(p.points.len(), 4);
}

#[test]
fn relax_with_takes_the_rate() {
    let mut p = poly(&[(0, 0), (40, 0), (40, 40), (0, 40)]);
    p.seed = Some(pt(0, 40));
    p.enclosed = true;
    p.relax_with(Rate { num: 1, den: 4 });
    assert_eq!(p.seed, Some(pt(5, 35)));
}

#[test]
fn relax_leaves_open_cells_alone() {
    let mut p = poly(&[(0, 0), (4000, 0), (4000, 4000), (0, 4000)]);
    p.seed = Some(pt(1000, 3000));
    p.enclosed = false;
    p.relax();
    assert_eq!(p.seed, Some(pt(1000, 3000)));
}

#[test]
fn relax_leaves_cells_without_seed_or_area_alone() {
    let mut p = poly(&[(0, 0), (4000, 0), (4000, 4000), (0, 4000)]);
    p.enclosed = true;
    p.relax();
    assert_eq!(p.seed, None);
    let mut flat = poly(&[(0, 0), (10, 10), (20, 20)]);
    flat.seed = Some(pt(500, 500));
    flat.enclosed = true;
    flat.relax();
    assert_eq!(flat.seed, Some(pt(500, 500)));
}

#[test]
fn resolve_seed_names_its_failures() {
    let square = poly(&[(0, 0), (4, 0), (4, 4), (0, 4)]);
    assert_eq!(square.resolve_seed(&vec![]), Err(StippleError::UnresolvedSeed));
    assert_eq!(square.resolve_seed(&vec![pt(9, 9), pt(3, 3)]), Ok(pt(3, 3)));
    let flat = poly(&[(0, 0), (1, 1)]);
    assert_eq!(flat.resolve_seed(&vec![pt(1, 1)]), Err(StippleError::DegeneratePolygon));
    assert_eq!(flat.resolve_seed(&vec![]), Err(StippleError::DegeneratePolygon));
}

#[test]
fn update_points_keeps_resolved_seeds_in_order() {
    let mut a = Polygon::new();
    a.seed = Some(pt(1, 1));
    let b = Polygon::new();
    let mut c = Polygon::new();
    c.seed = Some(pt(3, 3));
    c.enclosed = true;
    let mut points = vec![pt(9, 9), pt(8, 8), pt(7, 7), pt(6, 6)];
    update_points(&vec![a, b, c], &mut points);
    assert_eq!(points, vec![pt(1, 1), pt(3, 3)]);
    update_points(&vec![], &mut points);
    assert_eq!(points, vec![]);
}

#[test]
fn cell_appends_end_then_start_of_each_edge() {
    let edges = vec![
        edge(Some((0, 0)), Some((4, 0))),
        edge(Some((4, 0)), Some((4, 4))),
        edge(Some((4, 4)), Some((0, 4))),
        edge(Some((0, 4)), Some((0, 0))),
    ];
    let p = cell_polygon(&edges, &vec![pt(100, 100), pt(1, 2)]);
    assert_eq!(
        p.points,
        vec![pt(4, 0), pt(0, 0), pt(4, 4), pt(4, 0), pt(0, 4), pt(4, 4), pt(0, 0), pt(0, 4)]
    );
    assert!(p.enclosed);
    assert_eq!(p.twice_signed_area(), -32);
    assert_eq!(p.centroid(), Ok(pt(2, 2)));
    assert_eq!(p.seed, Some(pt(1, 2)));
}

#[test]
fn cell_with_an_infinite_edge_is_open_and_keeps_its_finite_edges() {
    let edges = vec![
        edge(Some((0, 0)), Some((4, 0))),
        edge(Some((4, 0)), None),
        edge(None, Some((0, 4))),
        edge(Some((0, 4)), Some((0, 0))),
    ];
    let p = cell_polygon(&edges, &vec![]);
    assert!(!p.enclosed);
    assert_eq!(p.points, vec![pt(4, 0), pt(0, 0), pt(0, 0), pt(0, 4)]);
    assert_eq!(p.seed, None);
}

#[test]
fn cell_with_an_edge_without_endpoints_is_open() {
    let edges = vec![
        edge(Some((0, 0)), Some((4, 0))),
        edge(None, None),
        edge(Some((4, 4)), Some((0, 0))),
    ];
    let p = cell_polygon(&edges, &vec![pt(0, 0)]);
    assert!(!p.enclosed);
    assert_eq!(p.points.len(), 4);
}

#[test]
fn cell_without_edges_is_open() {
    let p = cell_polygon(&vec![], &vec![pt(0, 0)]);
    assert!(!p.enclosed);
    assert!(p.points.is_empty());
    assert_eq!(p.seed, None);
}

#[test]
fn voronoi_polygons_gives_one_polygon_per_site() {
    let closed = vec![
        edge(Some((0, 0)), Some((6, 0))),
        edge(Some((6, 0)), Some((0, 6))),
        edge(Some((0, 6)), Some((0, 0))),
    ];
    let open = vec![edge(Some((0, 0)), Some((6, 0))), edge(Some((6, 0)), None)];
    let seeds = vec![pt(50, 50), pt(2, 2)];
    let polygons = voronoi_polygons(&vec![closed, open, vec![]], &seeds);
    assert_eq!(polygons.len(), 3);
    assert!(polygons[0].enclosed);
    assert_eq!(polygons[0].seed, Some(pt(2, 2)));
    assert_eq!(polygons[0].points.len(), 6);
    assert!(!polygons[1].enclosed);
    assert_eq!(polygons[1].points, vec![pt(6, 0), pt(0, 0)]);
    assert_eq!(polygons[1].seed, None);
    assert!(!polygons[2].enclosed);
}

#[test]
fn outline_closes_the_boundary() {
    let mut p = poly(&[(0, 0), (4, 0), (4, 4)]);
    assert_eq!(p.outline(), vec![]);
    p.enclosed = true;
    assert_eq!(
        p.outline(),
        vec![(pt(0, 0), pt(4, 0)), (pt(4, 0), pt(4, 4)), (pt(4, 4), pt(0, 0))]
    );
}

#[test]
fn iterate_relaxes_enclosed_cells_and_keeps_the_seeds_of_open_ones() {
    let closed = vec![
        edge(Some((0, 0)), Some((400, 0))),
        edge(Some((400, 0)), Some((400, 400))),
        edge(Some((400, 400)), Some((0, 400))),
        edge(Some((0, 400)), Some((0, 0))),
    ];
    let open = vec![
        edge(Some((1000, 0)), Some((1400, 0))),
        edge(Some((1400, 0)), Some((1400, 400))),
        edge(Some((1400, 400)), Some((1000, 0))),
        edge(Some((1000, 0)), None),
    ];
    let unresolved = vec![edge(None, Some((3, 3)))];
    let mut seeds = vec![pt(100, 300), pt(1200, 100)];
    let dropped = iterate(&vec![closed, open, unresolved], &mut seeds, Rate { num: 1, den: 10 });
    assert_eq!(seeds, vec![pt(110, 290), pt(1200, 100)]);
    assert_eq!(dropped, 1);
}

#[test]
fn iterate_on_no_cells_empties_the_seed_set() {
    let mut seeds = vec![pt(1, 1)];
    assert_eq!(iterate(&vec![], &mut seeds, Rate { num: 1, den: 10 }), 0);
    assert!(seeds.is_empty());
}

fn lattice(p: spade::Point2<f64>) -> Point {
    pt(p.x.round() as i32, p.y.round() as i32)
}

#[test]
fn square_with_centre_has_open_corner_cells() {
    let mut triangulation: spade::DelaunayTriangulation<spade::Point2<f64>> =
        spade::DelaunayTriangulation::new();
    let sites = [(0.0, 0.0), (10.0, 0.0), (10.0, 10.0), (0.0, 10.0), (5.0, 5.0)];
    for &(x, y) in &sites {
        triangulation.insert(spade::Point2::new(x, y)).unwrap();
    }
    let mut owners = Vec::new();
    let mut faces = Vec::new();
    for face in triangulation.voronoi_faces() {
        owners.push(lattice(face.as_delaunay_vertex().position()));
        let mut edges = Vec::new();
        for e in face.adjacent_edges() {
            edges.push(VoronoiEdge {
                from: e.from().position().map(lattice),
                to: e.to().position().map(lattice),
            });
        }
        faces.push(edges);
    }
    let seeds = vec![pt(0, 0), pt(10, 0), pt(10, 10), pt(0, 10), pt(5, 5)];
    let polygons = voronoi_polygons(&faces, &seeds);
    assert_eq!(polygons.len(), 5);
    for (owner, polygon) in owners.iter().zip(&polygons) {
        if *owner != pt(5, 5) {
            assert!(!polygon.enclosed);
        } else {
            // Every edge of the centre's cell joins two circumcentres.
            assert!(polygon.enclosed);
            assert_eq!(polygon.points.len(), 8);
            assert_eq!(polygon.twice_signed_area().abs(), 100);
            assert_eq!(polygon.centroid(), Ok(pt(5, 5)));
            assert_eq!(polygon.seed, Some(pt(5, 5)));
        }
    }
}

#[test]
fn coincident_point_is_a_duplicate_insertion() {
    let mut sites = vec![pt(1, 1), pt(2, 2)];
    assert_eq!(insert_site(&mut sites, pt(2, 2)), Err(StippleError::DuplicateInsertion));
    assert_eq!(sites, vec![pt(1, 1), pt(2, 2)]);
    assert_eq!(insert_site(&mut sites, pt(2, 1)), Ok(2));
    assert_eq!(sites, vec![pt(1, 1), pt(2, 2), pt(2, 1)]);
    assert_eq!(find_site(&sites, pt(2, 1)), Some(2));
    assert_eq!(find_site(&sites, pt(1, 2)), None);
}

#[test]
fn distinct_sites_skip_repeats_and_keep_order() {
    let seeds = vec![pt(3, 3), pt(1, 1), pt(3, 3), pt(2, 2), pt(1, 1), pt(3, 3)];
    assert_eq!(distinct_sites(&seeds), vec![pt(3, 3), pt(1, 1), pt(2, 2)]);
    assert_eq!(distinct_sites(&vec![]), vec![]);
}

#[test]
fn find_site_gives_the_first_position() {
    let sites = vec![pt(1, 1), pt(2, 2), pt(1, 1), pt(2, 2)];
    assert_eq!(find_site(&sites, pt(2, 2)), Some(1));
    assert_eq!(find_site(&sites, pt(1, 1)), Some(0));
}

#[test]
fn relax_moves_a_seed_that_is_close_to_its_centroid() {
    let mut p = poly(&[(0, 0), (40, 0), (40, 40), (0, 40)]);
    p.seed = Some(pt(19, 25));
    p.enclosed = true;
    p.relax();
    assert_eq!(p.seed, Some(pt(20, 24)));
    p.relax();
    assert_eq!(p.seed, Some(pt(20, 23)));
}

#[test]
fn centroid_of_concave_polygon_lies_in_its_box() {
    // An L whose fan about the first vertex does not wind one way.
    let vertices = [(6, 0), (6, 2), (2, 2), (2, 6), (0, 6), (0, 0)];
    let p = poly(&vertices);
    assert_eq!(p.twice_signed_area(), 40);
    let c = p.centroid().unwrap();
    assert_eq!(c, pt(2, 2));
    assert!(0 <= c.x && c.x <= 6 && 0 <= c.y && c.y <= 6);
    // The half-plane x + y <= 8 holds every vertex, and the centroid.
    for &(x, y) in &vertices {
        assert!(x + y <= 8);
    }
    assert!(c.x + c.y <= 8);
}
