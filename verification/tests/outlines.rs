use svg_to_omap_point_symbol::binary64::Binary64;
use svg_to_omap_point_symbol::outline::{
    split_contours, Course, MapPoint, PathCommand, Segment,
};

fn point(x: f64, y: f64) -> MapPoint {
    MapPoint {
        x: Binary64 { bits: x.to_bits() },
        y: Binary64 { bits: y.to_bits() },
    }
}

fn line(start: MapPoint, end: MapPoint) -> Segment {
    Segment {
        start,
        course: Course::Line,
        end,
    }
}

fn split(commands: Vec<PathCommand>) -> Result<Vec<Vec<Segment>>, String> {
    let mut contours = Vec::new();
    match split_contours(&commands, &mut contours) {
        Ok(()) => Ok(contours),
        Err(error) => Err(error.message().to_owned()),
    }
}

#[test]
fn an_open_contour_is_closed_by_a_line() {
    let (a, b, c) = (point(0.0, 0.0), point(1.0, 0.0), point(1.0, 1.0));
    assert_eq!(
        split(vec![
            PathCommand::MoveTo(a),
            PathCommand::LineTo(b),
            PathCommand::LineTo(c),
        ]),
        Ok(vec![vec![line(a, b), line(b, c), line(c, a)]])
    );
}

#[test]
fn a_contour_that_returns_needs_no_closing_line() {
    let (a, b) = (point(0.0, 0.0), point(1.0, 0.0));
    assert_eq!(
        split(vec![
            PathCommand::MoveTo(a),
            PathCommand::LineTo(b),
            PathCommand::LineTo(point(-0.0, 0.0)),
            PathCommand::Close,
        ]),
        Ok(vec![vec![line(a, b), line(b, point(-0.0, 0.0))]])
    );
}

#[test]
fn curves_keep_their_control_points() {
    let (a, b, c, d) = (
        point(0.0, 0.0),
        point(1.0, 0.0),
        point(1.0, 1.0),
        point(2.0, 3.0),
    );
    assert_eq!(
        split(vec![
            PathCommand::MoveTo(a),
            PathCommand::QuadTo(b, c),
            PathCommand::CubicTo(b, d, a),
            PathCommand::Close,
        ]),
        Ok(vec![vec![
            Segment {
                start: a,
                course: Course::Quadratic(b),
                end: c
            },
            Segment {
                start: c,
                course: Course::Cubic(b, d),
                end: a
            },
        ]])
    );
}

#[test]
fn every_move_begins_a_contour() {
    let (a, b, c, d) = (
        point(0.0, 0.0),
        point(1.0, 0.0),
        point(5.0, 5.0),
        point(6.0, 5.0),
    );
    assert_eq!(
        split(vec![
            PathCommand::MoveTo(a),
            PathCommand::LineTo(b),
            PathCommand::MoveTo(c),
            PathCommand::LineTo(d),
        ]),
        Ok(vec![
            vec![line(a, b), line(b, a)],
            vec![line(c, d), line(d, c)]
        ])
    );
}

#[test]
fn drawing_goes_on_from_the_start_after_closing() {
    let (a, b, c) = (point(0.0, 0.0), point(1.0, 0.0), point(1.0, 1.0));
    assert_eq!(
        split(vec![
            PathCommand::MoveTo(a),
            PathCommand::LineTo(b),
            PathCommand::Close,
            PathCommand::LineTo(c),
        ]),
        Ok(vec![
            vec![line(a, b), line(b, a)],
            vec![line(a, c), line(c, a)]
        ])
    );
}

#[test]
fn moves_alone_draw_nothing() {
    let a = point(0.0, 0.0);
    assert_eq!(split(Vec::new()), Ok(Vec::new()));
    assert_eq!(
        split(vec![
            PathCommand::MoveTo(a),
            PathCommand::MoveTo(a),
            PathCommand::Close,
            PathCommand::Close,
        ]),
        Ok(Vec::new())
    );
}

#[test]
fn drawing_needs_a_start() {
    let a = point(0.0, 0.0);
    assert_eq!(
        split(vec![PathCommand::LineTo(a)]),
        Err("SVG path segment appears before its move command".to_owned())
    );
    assert_eq!(
        split(vec![PathCommand::CubicTo(a, a, a)]),
        Err("SVG path segment appears before its move command".to_owned())
    );
    assert_eq!(
        split(vec![PathCommand::QuadTo(a, a)]),
        Err("SVG quadratic curve appears before its move command".to_owned())
    );
}

#[test]
fn closing_twice_loses_the_start() {
    let (a, b) = (point(0.0, 0.0), point(1.0, 0.0));
    assert_eq!(
        split(vec![
            PathCommand::MoveTo(a),
            PathCommand::LineTo(b),
            PathCommand::Close,
            PathCommand::Close,
            PathCommand::LineTo(b),
        ]),
        Err("SVG path segment appears before its move command".to_owned())
    );
}

#[test]
fn completed_contours_are_kept_when_a_later_command_fails() {
    let (a, b) = (point(0.0, 0.0), point(1.0, 0.0));
    let mut contours = Vec::new();
    let commands = vec![
        PathCommand::MoveTo(a),
        PathCommand::LineTo(b),
        PathCommand::Close,
        PathCommand::Close,
        PathCommand::LineTo(b),
    ];
    assert!(split_contours(&commands, &mut contours).is_err());
    assert_eq!(contours, [vec![line(a, b), line(b, a)]]);
}
