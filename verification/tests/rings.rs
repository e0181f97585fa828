use omap::geo_types::{Coord, LineString};
use omap::objects::BezierPath;
use svg_to_omap_point_symbol::binary64::Binary64;
use svg_to_omap_point_symbol::inside::{Edge, Surroundings};
use svg_to_omap_point_symbol::outline::MapPoint;
use svg_to_omap_point_symbol::rings::{
    boundary_kind, classify_parents, closest_outer_ancestor, group_rings, path_to_polygons,
    Boundary, Contour, FillRule, NEGLIGIBLE_AREA_BITS,
};

/// An axis-parallel square; `clockwise` decides how it is traversed.
#[derive(Clone, Copy)]
struct Square {
    left: f64,
    bottom: f64,
    side: f64,
    clockwise: bool,
}

fn square(left: f64, bottom: f64, side: f64) -> Square {
    Square {
        left,
        bottom,
        side,
        clockwise: false,
    }
}

fn reversed(square: Square) -> Square {
    Square {
        clockwise: !square.clockwise,
        ..square
    }
}

fn held(number: f64) -> Binary64 {
    Binary64 {
        bits: number.to_bits(),
    }
}

fn path(square: Square) -> BezierPath {
    BezierPath::from(LineString::from(corners(square)))
}

fn corners(square: Square) -> Vec<(f64, f64)> {
    let Square {
        left, bottom, side, ..
    } = square;
    let mut points = vec![
        (left, bottom),
        (left + side, bottom),
        (left + side, bottom + side),
        (left, bottom + side),
        (left, bottom),
    ];
    if square.clockwise {
        points.reverse();
    }
    points
}

fn edges(square: Square) -> Vec<Edge> {
    corners(square)
        .windows(2)
        .map(|edge| Edge {
            first_y: held(edge[0].1),
            second_y: held(edge[1].1),
            crossing_x: held(edge[0].0),
        })
        .collect()
}

fn contours(squares: &[Square]) -> Vec<Contour> {
    squares
        .iter()
        .map(|own| {
            let area = own.side * own.side;
            let start = MapPoint {
                x: held(own.left),
                y: held(own.bottom),
            };
            let mut surroundings = Surroundings::new(Some(start));
            for other in squares {
                surroundings = surroundings.with_ring(&edges(*other));
            }
            Contour {
                path: path(*own),
                signed_area: held(if own.clockwise { -area } else { area }),
                surroundings,
            }
        })
        .collect()
}

fn groups(squares: &[Square], rule: FillRule) -> Vec<(usize, Vec<usize>)> {
    group_rings(&contours(squares), rule)
        .into_iter()
        .map(|group| (group.outer, group.holes))
        .collect()
}

fn first_point(path: &BezierPath) -> Coord {
    path.geometry().segments().next().unwrap().start()
}

#[test]
fn negligible_means_the_rounding_unit() {
    assert_eq!(NEGLIGIBLE_AREA_BITS, f64::EPSILON.to_bits());
}

#[test]
fn the_smallest_enclosing_contour_is_the_parent() {
    let nested = contours(&[
        square(2.0, 2.0, 1.0),
        square(0.0, 0.0, 10.0),
        square(1.0, 1.0, 5.0),
        square(20.0, 20.0, 1.0),
    ]);
    assert_eq!(classify_parents(&nested), [Some(2), None, Some(1), None]);
}

#[test]
fn of_equally_small_contours_the_first_is_the_parent() {
    let mut twice = contours(&[
        square(0.0, 0.0, 10.0),
        square(0.0, 0.0, 10.0),
        square(1.0, 1.0, 1.0),
    ]);
    twice[1].signed_area.bits |= 1 << 63;
    assert_eq!(classify_parents(&twice), [None, None, Some(0)]);
}

#[test]
fn a_contour_without_a_start_has_no_parent() {
    let mut list = contours(&[square(1.0, 1.0, 1.0), square(0.0, 0.0, 10.0)]);
    assert_eq!(classify_parents(&list), [Some(1), None]);
    list[0].surroundings = Surroundings::new(None)
        .with_ring(&edges(square(1.0, 1.0, 1.0)))
        .with_ring(&edges(square(0.0, 0.0, 10.0)));
    assert_eq!(classify_parents(&list), [None, None]);
}

#[test]
fn even_odd_alternates_with_depth() {
    let nested = [
        square(0.0, 0.0, 10.0),
        square(1.0, 1.0, 8.0),
        square(2.0, 2.0, 6.0),
        square(3.0, 3.0, 4.0),
    ];
    assert_eq!(
        groups(&nested, FillRule::EvenOdd),
        [(0, vec![1]), (2, vec![3])]
    );
}

#[test]
fn non_zero_cuts_only_where_the_windings_cancel() {
    let outer = square(0.0, 0.0, 10.0);
    let inner = square(1.0, 1.0, 8.0);
    assert_eq!(groups(&[outer, inner], FillRule::NonZero), [(0, vec![])]);
    assert_eq!(
        groups(&[outer, reversed(inner)], FillRule::NonZero),
        [(0, vec![1])]
    );
    let core = square(2.0, 2.0, 6.0);
    assert_eq!(
        groups(&[outer, reversed(inner), core], FillRule::NonZero),
        [(0, vec![1]), (2, vec![])]
    );
}

#[test]
fn a_hole_belongs_to_the_closest_filled_contour() {
    let outer = square(0.0, 0.0, 20.0);
    let doubled = square(1.0, 1.0, 18.0);
    let back = reversed(square(2.0, 2.0, 16.0));
    let hole = reversed(square(3.0, 3.0, 14.0));
    assert_eq!(
        groups(&[outer, doubled, back, hole], FillRule::NonZero),
        [(0, vec![3])]
    );
    let list = contours(&[outer, doubled, back, hole]);
    let parents = classify_parents(&list);
    let boundaries: Vec<Boundary> = (0..4)
        .map(|index| boundary_kind(index, &list, &parents, FillRule::NonZero))
        .collect();
    assert_eq!(
        boundaries,
        [
            Boundary::Outer,
            Boundary::Redundant,
            Boundary::Redundant,
            Boundary::Hole
        ]
    );
    assert_eq!(
        closest_outer_ancestor(3, &list, &parents, &boundaries),
        Some(0)
    );
    assert_eq!(closest_outer_ancestor(0, &list, &parents, &boundaries), None);
}

#[test]
fn the_direction_of_travel_is_free() {
    let shapes = [
        square(0.0, 0.0, 10.0),
        reversed(square(1.0, 1.0, 8.0)),
        square(2.0, 2.0, 6.0),
        square(30.0, 0.0, 4.0),
    ];
    let mirrored: Vec<Square> = shapes.iter().map(|shape| reversed(*shape)).collect();
    for rule in [FillRule::NonZero, FillRule::EvenOdd] {
        assert_eq!(groups(&shapes, rule), groups(&mirrored, rule));
    }
}

#[test]
fn negligible_contours_are_left_out() {
    let speck = square(5.0, 5.0, 1.0e-8);
    let shapes = [speck, square(0.0, 0.0, 10.0)];
    for rule in [FillRule::NonZero, FillRule::EvenOdd] {
        assert_eq!(groups(&shapes, rule), [(1, vec![])]);
    }
    let mut list = contours(&[square(0.0, 0.0, 1.0)]);
    list[0].signed_area.bits = f64::NAN.to_bits();
    assert!(group_rings(&list, FillRule::NonZero).is_empty());
    list[0].signed_area.bits = f64::EPSILON.to_bits();
    assert!(group_rings(&list, FillRule::NonZero).is_empty());
    list[0].signed_area.bits = f64::EPSILON.to_bits() + 1;
    assert_eq!(group_rings(&list, FillRule::NonZero).len(), 1);
}

#[test]
fn polygons_have_their_holes() {
    let list = contours(&[
        square(0.0, 0.0, 10.0),
        square(1.0, 1.0, 2.0),
        square(5.0, 5.0, 2.0),
        square(20.0, 0.0, 3.0),
    ]);
    let polygons = path_to_polygons(&list, FillRule::EvenOdd).unwrap();
    assert_eq!(polygons.len(), 2);
    assert_eq!(first_point(polygons[0].exterior()), Coord { x: 0.0, y: 0.0 });
    let holes: Vec<Coord> = polygons[0].interiors().iter().map(first_point).collect();
    assert_eq!(holes, [Coord { x: 1.0, y: 1.0 }, Coord { x: 5.0, y: 5.0 }]);
    assert_eq!(
        first_point(polygons[1].exterior()),
        Coord { x: 20.0, y: 0.0 }
    );
    assert!(polygons[1].interiors().is_empty());
}

#[test]
fn no_contours_give_no_polygons() {
    assert!(path_to_polygons(&Vec::new(), FillRule::NonZero)
        .unwrap()
        .is_empty());
}

#[test]
fn a_disconnected_ring_gives_no_polygon() {
    let mut list = contours(&[square(0.0, 0.0, 10.0)]);
    for segment in list[0].path.segments_mut() {
        *segment = omap::objects::BezierSegment::new(
            segment.end(),
            None,
            Coord { x: 50.0, y: 50.0 },
        );
    }
    let error = path_to_polygons(&list, FillRule::NonZero).unwrap_err();
    assert_eq!(
        error.message(),
        "could not create an OMAP polygon: invalid Bézier path"
    );
}
