use svg_to_omap_point_symbol::binary64::Binary64;
use svg_to_omap_point_symbol::inside::{point_in_polygon, Edge, Surroundings};
use svg_to_omap_point_symbol::outline::MapPoint;

fn held(number: f64) -> Binary64 {
    Binary64 {
        bits: number.to_bits(),
    }
}

fn edges(point: (f64, f64), ring: &[(f64, f64)]) -> Vec<Edge> {
    ring.windows(2)
        .map(|edge| {
            let (first, second) = (edge[0], edge[1]);
            let slope = (second.0 - first.0) / (second.1 - first.1);
            Edge {
                first_y: held(first.1),
                second_y: held(second.1),
                crossing_x: held(slope * (point.1 - first.1) + first.0),
            }
        })
        .collect()
}

fn inside(x: f64, y: f64, ring: &[(f64, f64)]) -> bool {
    let point = MapPoint {
        x: held(x),
        y: held(y),
    };
    point_in_polygon(point, &edges((x, y), ring))
}

const SQUARE: [(f64, f64); 5] = [
    (0.0, 0.0),
    (4.0, 0.0),
    (4.0, 4.0),
    (0.0, 4.0),
    (0.0, 0.0),
];

#[test]
fn points_in_and_around_a_square() {
    assert!(inside(1.0, 1.0, &SQUARE));
    assert!(inside(3.9, 0.1, &SQUARE));
    for (x, y) in [(-1.0, 1.0), (5.0, 1.0), (1.0, 5.0), (1.0, -1.0)] {
        assert!(!inside(x, y, &SQUARE));
    }
}

#[test]
fn left_and_lower_edges_belong_to_a_square() {
    assert!(inside(0.0, 0.0, &SQUARE));
    assert!(inside(0.0, 2.0, &SQUARE));
    assert!(!inside(4.0, 2.0, &SQUARE));
    assert!(!inside(2.0, 4.0, &SQUARE));
}

#[test]
fn the_direction_of_edges_is_free() {
    let mut reversed = SQUARE;
    reversed.reverse();
    for (x, y) in [(1.0, 1.0), (-1.0, 1.0), (5.0, 1.0), (2.0, 3.9)] {
        assert_eq!(inside(x, y, &reversed), inside(x, y, &SQUARE));
    }
}

#[test]
fn a_notch_is_outside() {
    let notched = [
        (0.0, 0.0),
        (6.0, 0.0),
        (6.0, 6.0),
        (3.0, 2.0),
        (0.0, 6.0),
        (0.0, 0.0),
    ];
    assert!(!inside(3.0, 4.0, &notched));
    assert!(inside(1.0, 4.0, &notched));
    assert!(inside(5.0, 4.0, &notched));
    assert!(inside(3.0, 1.0, &notched));
}

#[test]
fn a_ring_without_edges_has_no_inside() {
    assert!(!inside(0.0, 0.0, &[]));
    assert!(!inside(f64::NAN, f64::NAN, &SQUARE));
}

#[test]
fn surroundings_remember_the_answers() {
    let start = MapPoint {
        x: held(1.0),
        y: held(1.0),
    };
    let small = [(2.0, 2.0), (3.0, 2.0), (3.0, 3.0), (2.0, 3.0), (2.0, 2.0)];
    let surroundings = Surroundings::new(Some(start))
        .with_ring(&edges((1.0, 1.0), &SQUARE))
        .with_ring(&edges((1.0, 1.0), &small))
        .with_ring(&edges((1.0, 1.0), &SQUARE));
    assert!(surroundings.is_in(0));
    assert!(!surroundings.is_in(1));
    assert!(surroundings.is_in(2));
    assert!(!surroundings.is_in(3));
}

#[test]
fn without_a_point_nothing_is_inside() {
    let surroundings = Surroundings::new(None).with_ring(&edges((1.0, 1.0), &SQUARE));
    assert!(!surroundings.is_in(0));
}
