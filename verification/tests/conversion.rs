use std::num::NonZeroU32;

use omap::colors::{Cmyk, Color as MapColor, ColorId, Rgb, SymbolColor};
use omap::geo_types::LineString;
use omap::objects::BezierPath;
use omap::symbols::{Element, PointSymbol};
use svg_to_omap_point_symbol::binary64::Binary64;
use svg_to_omap_point_symbol::collect::{
    collect_group, collect_path, fill_layer, needs_outline, stroke_layer,
};
use svg_to_omap_point_symbol::convert::{convert_svg, convert_svg_if_possible, Conversion};
use svg_to_omap_point_symbol::drawing::{
    BlendMode, Color, Drawing, Fill, Gradient, Group, Node, Opacity, Outline, Paint, PaintOrder,
    Shape, Stroke, StrokeOutline,
};
use svg_to_omap_point_symbol::error::ConversionError;
use svg_to_omap_point_symbol::inside::{Edge, Surroundings};
use svg_to_omap_point_symbol::options::{Code, ConversionOptions};
use svg_to_omap_point_symbol::outline::MapPoint;
use svg_to_omap_point_symbol::rings::{Contour, FillRule};

const RED: Color = Color {
    red: 255,
    green: 0,
    blue: 0,
};
const GREEN: Color = Color {
    red: 0,
    green: 128,
    blue: 0,
};

fn held(number: f64) -> Binary64 {
    Binary64 {
        bits: number.to_bits(),
    }
}

fn opacity(value: f64) -> Opacity {
    Opacity {
        value: held(value),
        text: format!("{value:.3}"),
    }
}

/// A square of side one with its lower left corner at `(x, 0)`.
fn outline(x: f64) -> Outline {
    let ring = vec![(x, 0.0), (x + 1.0, 0.0), (x + 1.0, 1.0), (x, 1.0), (x, 0.0)];
    Ok(vec![Contour {
        path: BezierPath::from(LineString::from(ring)),
        signed_area: held(1.0),
        surroundings: Surroundings::new(None),
    }])
}

fn fill(color: Color, x: f64) -> Fill {
    Fill {
        opacity: opacity(1.0),
        paint: Paint::Color(color),
        rule: FillRule::NonZero,
        outline: outline(x),
    }
}

fn stroke(color: Color, x: f64) -> Stroke {
    Stroke {
        opacity: opacity(1.0),
        paint: Paint::Color(color),
        outline: StrokeOutline::Covered(outline(x)),
    }
}

fn shape(fill: Option<Fill>, stroke: Option<Stroke>) -> Shape {
    Shape {
        id: String::new(),
        visible: true,
        paint_order: PaintOrder::FillAndStroke,
        fill,
        stroke,
    }
}

fn filled(color: Color, x: f64) -> Node {
    Node::Shape(shape(Some(fill(color, x)), None))
}

fn group(children: Vec<Node>) -> Group {
    Group {
        opacity: opacity(1.0),
        blend_mode: BlendMode::Normal,
        has_clip_path: false,
        has_mask: false,
        has_filters: false,
        children,
    }
}

fn drawing(children: Vec<Node>) -> Drawing {
    Drawing {
        width_mm: held(25.4),
        height_mm: held(12.7),
        root: group(children),
    }
}

fn convert(children: Vec<Node>) -> Conversion {
    convert_svg(
        &drawing(children),
        &ConversionOptions::new("Tree".to_owned()),
    )
    .unwrap()
}

fn failure(children: Vec<Node>) -> String {
    convert_svg(
        &drawing(children),
        &ConversionOptions::new("Tree".to_owned()),
    )
    .unwrap_err()
    .message()
    .to_owned()
}

fn symbol(conversion: &Conversion) -> &PointSymbol {
    let mut symbols = conversion.map.symbols.iter_point_symbols();
    let (_, symbol) = symbols.next().unwrap();
    assert!(symbols.next().is_none());
    symbol
}

/// Name and printing name of every color, from the highest priority down.
fn color_names(conversion: &Conversion) -> Vec<(String, String)> {
    conversion
        .map
        .colors
        .values()
        .map(|color| match color {
            MapColor::SpotColor(spot) => (spot.color_name.clone(), spot.spotcolor_name.clone()),
            MapColor::MixedColor(_) => panic!("only spot colors are made"),
        })
        .collect()
}

/// Place and color of every element, in drawing order.
fn elements(conversion: &Conversion) -> Vec<(f64, ColorId)> {
    symbol(conversion)
        .elements
        .iter()
        .map(|element| match element {
            Element::Area { symbol, object } => {
                let color = match symbol.color {
                    SymbolColor::Color(id) => id,
                    _ => panic!("every area has a color"),
                };
                assert_eq!(symbol.common.code, omap::Code::new(0, 0, 0));
                assert_eq!(symbol.common.name, "");
                let segment = object.geometry().exterior().geometry().segments().next();
                (segment.unwrap().start().x, color)
            }
            _ => panic!("only areas are made"),
        })
        .collect()
}

/// Place and priority of every element, in drawing order.
fn priorities(conversion: &Conversion) -> Vec<(f64, usize)> {
    elements(conversion)
        .into_iter()
        .map(|(x, id)| (x, conversion.map.colors.priority_of(id).unwrap()))
        .collect()
}

#[test]
fn an_empty_drawing_gives_an_empty_symbol() {
    let conversion = convert(Vec::new());
    assert_eq!(conversion.paint_layers, 0);
    assert_eq!(conversion.area_elements, 0);
    assert!(conversion.warnings.is_empty());
    assert!(conversion.map.colors.is_empty());
    assert_eq!(conversion.map.symbols.len(), 1);
    assert!(symbol(&conversion).elements.is_empty());
    assert_eq!(f64::from_bits(conversion.width_mm.bits), 25.4);
    assert_eq!(f64::from_bits(conversion.height_mm.bits), 12.7);
}

#[test]
fn the_map_is_made_to_the_options() {
    let mut options = ConversionOptions::new("Lone tree".to_owned());
    options.map_scale = 4_000;
    options.symbol_code = Code {
        major: 417,
        minor: 2,
        patch: 1,
    };
    let conversion = convert_svg(&drawing(vec![filled(RED, 0.0)]), &options).unwrap();
    assert_eq!(
        conversion.map.geo_referencing.scale_denominator,
        NonZeroU32::new(4_000).unwrap()
    );
    assert_eq!(symbol(&conversion).common.name, "Lone tree");
    assert_eq!(
        symbol(&conversion).common.code,
        omap::Code::new(417, 2, 1)
    );
    assert!(conversion.map.validate().is_ok());
}

#[test]
fn refused_options_are_reported_before_the_artwork() {
    let broken = Node::Shape(shape(
        Some(Fill {
            outline: Err(ConversionError::new("broken".to_owned())),
            ..fill(RED, 0.0)
        }),
        None,
    ));
    let result = convert_svg(&drawing(vec![broken]), &ConversionOptions::new(" ".to_owned()));
    assert_eq!(
        result.unwrap_err().message(),
        "the symbol name cannot be empty"
    );
}

#[test]
fn later_paint_has_the_higher_priority() {
    let conversion = convert(vec![
        filled(RED, 0.0),
        filled(GREEN, 1.0),
        filled(RED, 2.0),
        filled(RED, 3.0),
    ]);
    assert_eq!(conversion.paint_layers, 3);
    assert_eq!(conversion.area_elements, 4);
    assert_eq!(
        priorities(&conversion),
        [(0.0, 2), (1.0, 1), (2.0, 0), (3.0, 0)]
    );
    let expected = [
        ("SVG layer 3 (#ff0000)", "svg-layer-3"),
        ("SVG layer 2 (#008000)", "svg-layer-2"),
        ("SVG layer 1 (#ff0000)", "svg-layer-1"),
    ];
    let names = color_names(&conversion);
    assert_eq!(names.len(), expected.len());
    for (name, expected) in names.iter().zip(expected) {
        assert_eq!((name.0.as_str(), name.1.as_str()), expected);
    }
}

#[test]
fn color_names_differ_beyond_ten_layers() {
    let nodes = (0..25)
        .map(|i| filled(if i % 2 == 0 { RED } else { GREEN }, f64::from(i)))
        .collect();
    let conversion = convert(nodes);
    assert_eq!(conversion.paint_layers, 25);
    let names = color_names(&conversion);
    for (i, first) in names.iter().enumerate() {
        for second in &names[..i] {
            assert_ne!(first.0, second.0);
            assert_ne!(first.1, second.1);
        }
    }
    assert_eq!(names[0].1, "svg-layer-25");
    assert_eq!(names[24].0, "SVG layer 1 (#ff0000)");
}

#[test]
fn colors_are_opaque_and_have_the_inks_of_the_screen_color() {
    let conversion = convert(vec![filled(
        Color {
            red: 51,
            green: 102,
            blue: 204,
        },
        0.0,
    )]);
    let color = conversion.map.colors.values().next().unwrap();
    assert!(color.is_knockout());
    let inks = color.cmyk(&conversion.map.colors).unwrap();
    let rgb: Rgb = "#3366cc".parse().unwrap();
    let expected = Cmyk::from(rgb);
    assert_eq!(
        inks.as_rounded_fractions(6),
        expected.as_rounded_fractions(6)
    );
    assert_eq!(inks.as_rounded_fractions(3), [0.75, 0.5, 0.0, 0.2]);
}

#[test]
fn a_stroke_is_painted_over_its_fill_unless_reversed() {
    let both = shape(Some(fill(RED, 0.0)), Some(stroke(GREEN, 1.0)));
    let reversed = Shape {
        paint_order: PaintOrder::StrokeAndFill,
        ..shape(Some(fill(RED, 2.0)), Some(stroke(GREEN, 3.0)))
    };
    let conversion = convert(vec![Node::Shape(both), Node::Shape(reversed)]);
    let places: Vec<f64> = elements(&conversion).iter().map(|e| e.0).collect();
    assert_eq!(places, [0.0, 1.0, 3.0, 2.0]);
    assert_eq!(conversion.paint_layers, 3);
}

#[test]
fn nested_groups_and_text_are_painted_in_place() {
    let conversion = convert(vec![
        filled(RED, 0.0),
        Node::Group(group(vec![filled(GREEN, 1.0), filled(RED, 2.0)])),
        Node::Text(group(vec![filled(GREEN, 3.0)])),
        filled(GREEN, 4.0),
    ]);
    let places: Vec<f64> = elements(&conversion).iter().map(|e| e.0).collect();
    assert_eq!(places, [0.0, 1.0, 2.0, 3.0, 4.0]);
    assert_eq!(conversion.paint_layers, 4);
}

#[test]
fn hidden_parts_leave_no_trace() {
    let broken = || Fill {
        outline: Err(ConversionError::new("broken".to_owned())),
        ..fill(RED, 0.0)
    };
    let hidden_group = Group {
        opacity: opacity(0.0),
        has_mask: true,
        ..group(vec![Node::Image, Node::Shape(shape(Some(broken()), None))])
    };
    let hidden_text = Group {
        opacity: opacity(0.000001),
        ..group(vec![Node::Image])
    };
    let hidden_shape = Shape {
        visible: false,
        ..shape(Some(broken()), None)
    };
    let hidden_paint = shape(
        Some(Fill {
            opacity: opacity(0.0),
            ..broken()
        }),
        Some(Stroke {
            opacity: opacity(0.0),
            outline: StrokeOutline::DashFailed,
            ..stroke(RED, 0.0)
        }),
    );
    let conversion = convert(vec![
        Node::Group(hidden_group),
        Node::Text(hidden_text),
        Node::Shape(hidden_shape),
        Node::Shape(hidden_paint),
    ]);
    assert_eq!(conversion.paint_layers, 0);
    assert!(conversion.warnings.is_empty());
}

#[test]
fn effects_of_a_group_are_ignored_and_reported_once() {
    let styled = || Group {
        opacity: opacity(0.25),
        blend_mode: BlendMode::ColorDodge,
        has_clip_path: true,
        has_mask: true,
        has_filters: true,
        ..group(vec![filled(RED, 0.0)])
    };
    let conversion = convert(vec![Node::Group(styled()), Node::Group(styled())]);
    assert_eq!(conversion.area_elements, 2);
    assert_eq!(
        conversion.warnings,
        [
            "an SVG group uses opacity 0.250; it was made fully opaque",
            "SVG blend mode ColorDodge was ignored and rendered as normal paint",
            "an SVG clip path was ignored; its artwork was converted unclipped",
            "an SVG mask was ignored; its artwork was converted unmasked",
            "one or more SVG filters were ignored while converting their artwork",
        ]
    );
}

#[test]
fn images_are_skipped_and_reported() {
    let conversion = convert(vec![Node::Image, filled(RED, 0.0), Node::Image]);
    assert_eq!(conversion.area_elements, 1);
    assert_eq!(
        conversion.warnings,
        ["a raster or embedded SVG image was skipped; convert it to paths to include it"]
    );
}

#[test]
fn patterns_and_gradients_are_reported_under_the_name_of_the_shape() {
    let mut named = shape(
        Some(Fill {
            paint: Paint::Pattern,
            outline: Err(ConversionError::new("not looked at".to_owned())),
            ..fill(RED, 0.0)
        }),
        Some(Stroke {
            paint: Paint::LinearGradient(Gradient {
                average: GREEN,
                stop_opacities: vec![held(0.5), held(1.0)],
            }),
            opacity: opacity(0.5),
            ..stroke(RED, 1.0)
        }),
    );
    named.id = "frame".to_owned();
    let conversion = convert(vec![Node::Shape(named)]);
    assert_eq!(
        color_names(&conversion)[0].0,
        "SVG layer 1 (#008000)".to_owned()
    );
    assert_eq!(
        conversion.warnings,
        [
            "frame uses an SVG paint pattern; that paint was skipped",
            "frame uses opacity 0.500; it was made fully opaque",
            "frame uses a linear gradient; it was replaced with #008000",
            "frame has transparent gradient stops; they were made fully opaque",
        ]
    );
}

#[test]
fn an_unnamed_shape_is_described() {
    let mut warnings = Vec::new();
    let faint = Fill {
        opacity: opacity(0.9),
        ..fill(RED, 0.0)
    };
    let layer = fill_layer(&shape(Some(faint), None), &mut warnings).unwrap();
    assert_eq!(layer.unwrap().color, RED);
    assert_eq!(
        warnings,
        ["an unnamed SVG path uses opacity 0.900; it was made fully opaque"]
    );
}

#[test]
fn lines_that_cannot_be_outlined_are_failures() {
    let undashed = Stroke {
        outline: StrokeOutline::DashFailed,
        ..stroke(RED, 0.0)
    };
    assert_eq!(
        failure(vec![Node::Shape(shape(None, Some(undashed)))]),
        "could not apply the dash pattern of an unnamed SVG path"
    );
    let mut thin = shape(
        None,
        Some(Stroke {
            outline: StrokeOutline::ExpansionFailed,
            ..stroke(RED, 0.0)
        }),
    );
    thin.id = "hair".to_owned();
    assert_eq!(
        failure(vec![Node::Shape(thin)]),
        "could not expand the stroke of hair into an outline"
    );
}

#[test]
fn the_first_failure_stops_the_conversion() {
    let broken = |message: &str| {
        Node::Shape(shape(
            Some(Fill {
                outline: Err(ConversionError::new(message.to_owned())),
                ..fill(RED, 0.0)
            }),
            None,
        ))
    };
    assert_eq!(
        failure(vec![
            filled(RED, 0.0),
            Node::Group(group(vec![broken("first")])),
            broken("second")
        ]),
        "first"
    );
}

#[test]
fn a_failing_shape_paints_neither_fill_nor_stroke() {
    let mut layers = Vec::new();
    let mut warnings = Vec::new();
    let half = shape(
        Some(Fill {
            opacity: opacity(0.5),
            ..fill(RED, 0.0)
        }),
        Some(Stroke {
            outline: StrokeOutline::DashFailed,
            ..stroke(RED, 0.0)
        }),
    );
    assert!(collect_path(&half, &mut layers, &mut warnings).is_err());
    assert!(layers.is_empty());
    assert_eq!(warnings.len(), 1);
}

#[test]
fn layers_below_a_failure_are_kept() {
    let mut layers = Vec::new();
    let mut warnings = Vec::new();
    let nodes = vec![
        filled(RED, 0.0),
        Node::Shape(shape(
            None,
            Some(Stroke {
                outline: StrokeOutline::DashFailed,
                ..stroke(RED, 0.0)
            }),
        )),
        filled(GREEN, 1.0),
        Node::Image,
    ];
    assert!(collect_group(&group(nodes), &mut layers, &mut warnings).is_err());
    assert_eq!(layers.len(), 1);
    assert!(warnings.is_empty());
}

#[test]
fn outlines_that_cover_nothing_paint_nothing() {
    let mut warnings = Vec::new();
    let empty = shape(
        Some(Fill {
            outline: Ok(Vec::new()),
            ..fill(RED, 0.0)
        }),
        Some(Stroke {
            outline: StrokeOutline::Covered(Ok(Vec::new())),
            ..stroke(RED, 0.0)
        }),
    );
    assert!(fill_layer(&empty, &mut warnings).unwrap().is_none());
    assert!(stroke_layer(&empty, &mut warnings).unwrap().is_none());
    assert!(fill_layer(&shape(None, None), &mut warnings)
        .unwrap()
        .is_none());
    assert!(warnings.is_empty());
}

#[test]
fn strokes_are_filled_without_regard_to_crossings() {
    let ring = |x: f64, side: f64| {
        BezierPath::from(LineString::from(vec![
            (x, x),
            (x + side, x),
            (x + side, x + side),
            (x, x + side),
            (x, x),
        ]))
    };
    let start = MapPoint {
        x: held(1.0),
        y: held(1.0),
    };
    let nested = || {
        let around = vec![Edge {
            first_y: held(0.0),
            second_y: held(10.0),
            crossing_x: held(10.0),
        }];
        Ok(vec![
            Contour {
                path: ring(0.0, 10.0),
                signed_area: held(100.0),
                surroundings: Surroundings::new(None),
            },
            Contour {
                path: ring(1.0, 2.0),
                signed_area: held(4.0),
                surroundings: Surroundings::new(Some(start)).with_ring(&around),
            },
        ])
    };
    let both = shape(
        Some(Fill {
            rule: FillRule::EvenOdd,
            outline: nested(),
            ..fill(RED, 0.0)
        }),
        Some(Stroke {
            outline: StrokeOutline::Covered(nested()),
            ..stroke(GREEN, 0.0)
        }),
    );
    let mut warnings = Vec::new();
    let inside = fill_layer(&both, &mut warnings).unwrap().unwrap();
    let edge = stroke_layer(&both, &mut warnings).unwrap().unwrap();
    assert_eq!(inside.polygons[0].interiors().len(), 1);
    assert_eq!(edge.polygons[0].interiors().len(), 0);
}

#[test]
fn outlines_are_needed_of_what_shows_and_has_a_color() {
    let gradient = Paint::RadialGradient(Gradient {
        average: GREEN,
        stop_opacities: Vec::new(),
    });
    assert!(needs_outline(&opacity(0.5), &Paint::Color(RED)));
    assert!(needs_outline(&opacity(1.0), &gradient));
    assert!(!needs_outline(&opacity(0.0), &Paint::Color(RED)));
    assert!(!needs_outline(&opacity(1.0), &Paint::Pattern));
}

#[test]
fn without_a_scale_there_is_no_map() {
    let mut options = ConversionOptions::new("Tree".to_owned());
    let artwork = drawing(vec![filled(RED, 0.0)]);
    let converted = convert_svg_if_possible(&artwork, &options).unwrap().unwrap();
    assert_eq!(converted.area_elements, 1);
    assert!(converted.map.validate().is_ok());
    options.map_scale = 0;
    assert!(convert_svg_if_possible(&artwork, &options).is_none());
}

#[test]
fn every_blend_mode_has_its_name() {
    let modes = [
        (BlendMode::Normal, "Normal"),
        (BlendMode::Multiply, "Multiply"),
        (BlendMode::Screen, "Screen"),
        (BlendMode::Overlay, "Overlay"),
        (BlendMode::Darken, "Darken"),
        (BlendMode::Lighten, "Lighten"),
        (BlendMode::ColorDodge, "ColorDodge"),
        (BlendMode::ColorBurn, "ColorBurn"),
        (BlendMode::HardLight, "HardLight"),
        (BlendMode::SoftLight, "SoftLight"),
        (BlendMode::Difference, "Difference"),
        (BlendMode::Exclusion, "Exclusion"),
        (BlendMode::Hue, "Hue"),
        (BlendMode::Saturation, "Saturation"),
        (BlendMode::Color, "Color"),
        (BlendMode::Luminosity, "Luminosity"),
        (BlendMode::PlusLighter, "PlusLighter"),
    ];
    for (mode, name) in modes {
        assert_eq!(mode.name(), name);
    }
}

#[test]
fn an_error_carries_its_message() {
    assert_eq!(ConversionError::new("why".to_owned()).message(), "why");
}
