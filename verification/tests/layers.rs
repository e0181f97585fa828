use omap::geo_types::LineString;
use omap::objects::{BezierPath, BezierPolygon};
use svg_to_omap_point_symbol::drawing::Color;
use svg_to_omap_point_symbol::layers::{merge_adjacent_layers, PaintLayer};

const RED: Color = Color {
    red: 255,
    green: 0,
    blue: 0,
};
const BLUE: Color = Color {
    red: 0,
    green: 0,
    blue: 255,
};

fn polygon(x: f64) -> BezierPolygon {
    let ring = LineString::from(vec![(x, 0.0), (x + 1.0, 0.0), (x, 1.0), (x, 0.0)]);
    BezierPolygon::new(BezierPath::from(ring), Vec::new()).unwrap()
}

fn layer(color: Color, places: &[f64]) -> PaintLayer {
    PaintLayer {
        color,
        polygons: places.iter().map(|x| polygon(*x)).collect(),
    }
}

fn places(layers: &[PaintLayer]) -> Vec<(Color, Vec<f64>)> {
    layers
        .iter()
        .map(|layer| {
            let places = layer
                .polygons
                .iter()
                .map(|polygon| {
                    let segment = polygon.exterior().geometry().segments().next().unwrap();
                    segment.start().x
                })
                .collect();
            (layer.color, places)
        })
        .collect()
}

#[test]
fn neighbours_of_one_color_are_joined() {
    let joined = merge_adjacent_layers(vec![
        layer(RED, &[0.0]),
        layer(RED, &[1.0, 2.0]),
        layer(BLUE, &[3.0]),
        layer(BLUE, &[4.0]),
        layer(BLUE, &[5.0]),
    ]);
    assert_eq!(
        places(&joined),
        [(RED, vec![0.0, 1.0, 2.0]), (BLUE, vec![3.0, 4.0, 5.0])]
    );
}

#[test]
fn equal_colors_with_another_between_stay_apart() {
    let kept = merge_adjacent_layers(vec![
        layer(RED, &[0.0]),
        layer(BLUE, &[1.0]),
        layer(RED, &[2.0]),
    ]);
    assert_eq!(
        places(&kept),
        [(RED, vec![0.0]), (BLUE, vec![1.0]), (RED, vec![2.0])]
    );
}

#[test]
fn joining_twice_is_joining_once() {
    let once = merge_adjacent_layers(vec![
        layer(RED, &[0.0]),
        layer(RED, &[1.0]),
        layer(BLUE, &[2.0]),
    ]);
    let before = places(&once);
    assert_eq!(places(&merge_adjacent_layers(once)), before);
}

#[test]
fn nothing_is_joined_to_nothing() {
    assert!(merge_adjacent_layers(Vec::new()).is_empty());
}
