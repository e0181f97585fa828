//! From drawing commands to closed contours.
//!
//! A pen follows the commands. Whatever it has drawn when it is lifted, or when the
//! path is closed or ends, becomes a contour; a straight line leads back to the start
//! where the pen did not return by itself.

use crate::binary64::Binary64;
use crate::error::ConversionError;
use vstd::prelude::*;

verus! {

/// A point in millimetres on paper, relative to the centre of the symbol.
#[derive(Debug, Clone, Copy, PartialEq, Eq, Structural)]
pub struct MapPoint {
    /// To the right.
    pub x: Binary64,
    /// Upwards.
    pub y: Binary64,
}

/// One command of a path.
#[derive(Debug, Clone, Copy, PartialEq, Eq, Structural)]
pub enum PathCommand {
    /// Lift the pen and put it down elsewhere.
    MoveTo(MapPoint),
    /// Draw a straight line.
    LineTo(MapPoint),
    /// Draw a curve with one control point.
    QuadTo(MapPoint, MapPoint),
    /// Draw a curve with two control points.
    CubicTo(MapPoint, MapPoint, MapPoint),
    /// Return to where the pen was put down.
    Close,
}

/// How a segment gets from its start to its end.
#[derive(Debug, Clone, Copy, PartialEq, Eq, Structural)]
pub enum Course {
    /// Straight.
    Line,
    /// By a curve with one control point.
    Quadratic(MapPoint),
    /// By a curve with two control points.
    Cubic(MapPoint, MapPoint),
}

/// One piece of a contour.
#[derive(Debug, Clone, Copy, PartialEq, Eq, Structural)]
pub struct Segment {
    /// Where it begins.
    pub start: MapPoint,
    /// How it runs.
    pub course: Course,
    /// Where it ends.
    pub end: MapPoint,
}

impl MapPoint {
    /// Whether two points have numerically equal coordinates.
    pub open spec fn same_place(self, other: MapPoint) -> bool {
        self.x.same(other.x) && self.y.same(other.y)
    }

    /// Whether two points have numerically equal coordinates.
    pub fn equals(self, other: MapPoint) -> (result: bool)
        ensures
            result == self.same_place(other),
    {
        self.x.equals(other.x) && self.y.equals(other.y)
    }
}

/// The pen on its way through a path.
pub struct Pen {
    /// The contours that are complete.
    pub contours: Seq<Seq<Segment>>,
    /// The pieces of the contour that is being drawn.
    pub segments: Seq<Segment>,
    /// Where that contour begins, once this is known.
    pub start: Option<MapPoint>,
    /// Where the pen is, once it has been put down.
    pub current: Option<MapPoint>,
    /// Why the path cannot be followed any further.
    pub failure: Option<Seq<char>>,
}

/// A contour with the line that closes it, if it needs one.
pub open spec fn closed_contour(
    segments: Seq<Segment>,
    start: MapPoint,
    current: MapPoint,
) -> Seq<Segment> {
    if current.same_place(start) {
        segments
    } else {
        segments.push(Segment { start: current, course: Course::Line, end: start })
    }
}

/// Why a contour cannot be completed.
pub open spec fn finish_failure(
    segments: Seq<Segment>,
    start: Option<MapPoint>,
    current: Option<MapPoint>,
) -> Option<Seq<char>> {
    if segments.len() == 0 {
        None
    } else if start is None {
        Some("SVG contour has no start point"@)
    } else if current is None {
        Some("SVG contour has no end point"@)
    } else {
        None
    }
}

impl Pen {
    /// The pen before the first command.
    pub open spec fn fresh() -> Pen {
        Pen {
            contours: Seq::empty(),
            segments: Seq::empty(),
            start: None,
            current: None,
            failure: None,
        }
    }

    /// Completes the contour that is being drawn.
    pub open spec fn finish(self) -> Pen {
        if self.segments.len() == 0 {
            self
        } else if finish_failure(self.segments, self.start, self.current) is Some {
            Pen { failure: finish_failure(self.segments, self.start, self.current), ..self }
        } else {
            Pen {
                contours: self.contours.push(
                    closed_contour(
                        self.segments,
                        self.start.unwrap(),
                        self.current.unwrap(),
                    ),
                ),
                segments: Seq::empty(),
                ..self
            }
        }
    }

    /// Draws one piece from where the pen is.
    pub open spec fn draw(self, course: Course, end: MapPoint) -> Pen {
        match self.current {
            None => Pen {
                failure: Some("SVG path segment appears before its move command"@),
                ..self
            },
            Some(from) => Pen {
                segments: self.segments.push(Segment { start: from, course, end }),
                start: Some(
                    match self.start {
                        Some(start) => start,
                        None => from,
                    },
                ),
                current: Some(end),
                ..self
            },
        }
    }

    /// Follows one command.
    pub open spec fn follow(self, command: PathCommand) -> Pen {
        if self.failure is Some {
            self
        } else {
            match command {
                PathCommand::MoveTo(point) => {
                    let finished = self.finish();
                    if finished.failure is Some {
                        finished
                    } else {
                        Pen { start: Some(point), current: Some(point), ..finished }
                    }
                },
                PathCommand::LineTo(end) => self.draw(Course::Line, end),
                PathCommand::QuadTo(handle, end) => if self.current is None {
                    Pen {
                        failure: Some("SVG quadratic curve appears before its move command"@),
                        ..self
                    }
                } else {
                    self.draw(Course::Quadratic(handle), end)
                },
                PathCommand::CubicTo(handle1, handle2, end) => self.draw(
                    Course::Cubic(handle1, handle2),
                    end,
                ),
                PathCommand::Close => {
                    let finished = self.finish();
                    if finished.failure is Some {
                        finished
                    } else {
                        Pen { start: None, current: finished.start, ..finished }
                    }
                },
            }
        }
    }

    /// The pen after some commands.
    pub open spec fn after(commands: Seq<PathCommand>) -> Pen
        decreases commands.len(),
    {
        if commands.len() == 0 {
            Pen::fresh()
        } else {
            Pen::after(commands.drop_last()).follow(commands.last())
        }
    }

    /// The pen at the end of a path.
    pub open spec fn at_end(commands: Seq<PathCommand>) -> Pen {
        let pen = Pen::after(commands);
        if pen.failure is Some {
            pen
        } else {
            pen.finish()
        }
    }
}

/// Contours as plain sequences.
pub open spec fn contour_views(contours: Seq<Vec<Segment>>) -> Seq<Seq<Segment>> {
    Seq::new(contours.len(), |i: int| contours[i]@)
}

/// Draws one piece from where the pen is.
fn append_segment(
    segments: &mut Vec<Segment>,
    start: &mut Option<MapPoint>,
    current: &mut Option<MapPoint>,
    course: Course,
    end: MapPoint,
) -> (result: Result<(), ConversionError>)
    ensures
        match *old(current) {
            Some(from) => {
                &&& result is Ok
                &&& final(segments)@ == old(segments)@.push(Segment { start: from, course, end })
                &&& *final(start) == Some(
                    match *old(start) {
                        Some(point) => point,
                        None => from,
                    },
                )
                &&& *final(current) == Some(end)
            },
            None => {
                &&& result matches Err(error) && error@
                    == "SVG path segment appears before its move command"@
                &&& final(segments)@ == old(segments)@
                &&& *final(start) == *old(start)
                &&& *final(current) == *old(current)
            },
        },
{
    match *current {
        None => Err(
            ConversionError::new("SVG path segment appears before its move command".to_owned()),
        ),
        Some(from) => {
            if start.is_none() {
                *start = Some(from);
            }
            segments.push(Segment { start: from, course, end });
            *current = Some(end);
            Ok(())
        },
    }
}

/// Completes the contour that is being drawn.
fn finish_contour(
    contours: &mut Vec<Vec<Segment>>,
    segments: &mut Vec<Segment>,
    start: Option<MapPoint>,
    current: Option<MapPoint>,
) -> (result: Result<(), ConversionError>)
    ensures
        match finish_failure(old(segments)@, start, current) {
            Some(message) => {
                &&& result matches Err(error) && error@ == message
                &&& final(contours)@ == old(contours)@
                &&& final(segments)@ == old(segments)@
            },
            None => {
                &&& result is Ok
                &&& final(segments)@.len() == 0
                &&& contour_views(final(contours)@) == if old(segments)@.len() == 0 {
                    contour_views(old(contours)@)
                } else {
                    contour_views(old(contours)@).push(
                        closed_contour(old(segments)@, start.unwrap(), current.unwrap()),
                    )
                }
            },
        },
{
    if segments.len() == 0 {
        return Ok(());
    }
    let start = match start {
        Some(point) => point,
        None => {
            return Err(ConversionError::new("SVG contour has no start point".to_owned()));
        },
    };
    let current = match current {
        Some(point) => point,
        None => {
            return Err(ConversionError::new("SVG contour has no end point".to_owned()));
        },
    };
    let mut finished: Vec<Segment> = Vec::new();
    std::mem::swap(&mut finished, segments);
    if !current.equals(start) {
        finished.push(Segment { start: current, course: Course::Line, end: start });
    }
    let ghost contour = finished@;
    contours.push(finished);
    assert(contour_views(contours@) == contour_views(old(contours)@).push(contour));
    Ok(())
}

/// Splits a path into closed contours, which are appended to `contours`. On failure the
/// contours that were complete before it have been appended.
pub fn split_contours(commands: &Vec<PathCommand>, contours: &mut Vec<Vec<Segment>>) -> (result:
    Result<(), ConversionError>)
    ensures
        contour_views(final(contours)@) == contour_views(old(contours)@) + Pen::at_end(
            commands@,
        ).contours,
        final(contours)@.len() == old(contours)@.len() + Pen::at_end(commands@).contours.len(),
        forall|i: int|
            0 <= i < old(contours)@.len() ==> (#[trigger] final(contours)@[i])@ == old(
                contours,
            )@[i]@,
        forall|i: int|
            0 <= i < Pen::at_end(commands@).contours.len() ==> #[trigger] Pen::at_end(
                commands@,
            ).contours[i] == final(contours)@[old(contours)@.len() + i]@,
        match Pen::at_end(commands@).failure {
            None => result is Ok,
            Some(message) => result matches Err(error) && error@ == message,
        },
{
    let mut segments: Vec<Segment> = Vec::new();
    let mut start: Option<MapPoint> = None;
    let mut current: Option<MapPoint> = None;
    let ghost before = contour_views(contours@);
    let mut position: usize = 0;
    proof {
        assert(commands@.take(0).len() == 0);
        assert(before + Seq::<Seq<Segment>>::empty() == before);
    }
    while position < commands.len()
        invariant
            position <= commands.len(),
            before == contour_views(old(contours)@),
            Pen::after(commands@.take(position as int)).failure is None,
            Pen::after(commands@.take(position as int)).segments == segments@,
            Pen::after(commands@.take(position as int)).start == start,
            Pen::after(commands@.take(position as int)).current == current,
            contour_views(contours@) == before + Pen::after(
                commands@.take(position as int),
            ).contours,
        decreases commands.len() - position,
    {
        let ghost pen = Pen::after(commands@.take(position as int));
        let ghost next = Pen::after(commands@.take(position as int + 1));
        proof {
            assert(commands@.take(position as int + 1).drop_last() == commands@.take(
                position as int,
            ));
            assert(next == pen.follow(commands@[position as int]));
            lemma_failure_is_final(commands@, position as int + 1);
            lemma_appended(old(contours)@, contours@, pen.contours);
            assert(before + pen.finish().contours == if segments@.len() == 0
                || pen.finish().failure is Some {
                before + pen.contours
            } else {
                (before + pen.contours).push(pen.finish().contours.last())
            });
        }
        match commands[position] {
            PathCommand::MoveTo(point) => {
                finish_contour(contours, &mut segments, start, current)?;
                start = Some(point);
                current = Some(point);
            },
            PathCommand::LineTo(end) => {
                append_segment(&mut segments, &mut start, &mut current, Course::Line, end)?;
            },
            PathCommand::QuadTo(handle, end) => {
                if current.is_none() {
                    return Err(
                        ConversionError::new(
                            "SVG quadratic curve appears before its move command".to_owned(),
                        ),
                    );
                }
                append_segment(
                    &mut segments,
                    &mut start,
                    &mut current,
                    Course::Quadratic(handle),
                    end,
                )?;
            },
            PathCommand::CubicTo(handle1, handle2, end) => {
                append_segment(
                    &mut segments,
                    &mut start,
                    &mut current,
                    Course::Cubic(handle1, handle2),
                    end,
                )?;
            },
            PathCommand::Close => {
                finish_contour(contours, &mut segments, start, current)?;
                current = start;
                start = None;
            },
        }
        position += 1;
    }
    proof {
        assert(commands@.take(position as int) == commands@);
        let pen = Pen::after(commands@);
        assert(before + pen.finish().contours == if segments@.len() == 0 || pen.finish().failure
            is Some {
            before + pen.contours
        } else {
            (before + pen.contours).push(pen.finish().contours.last())
        });
    }
    let result = finish_contour(contours, &mut segments, start, current);
    proof {
        lemma_appended(old(contours)@, contours@, Pen::at_end(commands@).contours);
    }
    result
}

/// Contours that are appended come after those that were there.
proof fn lemma_appended(
    before: Seq<Vec<Segment>>,
    after: Seq<Vec<Segment>>,
    more: Seq<Seq<Segment>>,
)
    requires
        contour_views(after) == contour_views(before) + more,
    ensures
        after.len() == before.len() + more.len(),
        forall|i: int| 0 <= i < before.len() ==> (#[trigger] after[i])@ == before[i]@,
        forall|i: int| 0 <= i < more.len() ==> #[trigger] more[i] == after[before.len() + i]@,
{
    assert(contour_views(after).len() == after.len());
    assert forall|i: int| 0 <= i < before.len() implies (#[trigger] after[i])@ == before[i]@ by {
        assert(contour_views(after)[i] == contour_views(before)[i]);
    }
    assert forall|i: int| 0 <= i < more.len() implies #[trigger] more[i] == after[before.len()
        + i]@ by {
        assert(contour_views(after)[before.len() + i] == more[i]);
    }
}

/// Once a path cannot be followed, the rest of it changes nothing.
proof fn lemma_failure_is_final(commands: Seq<PathCommand>, count: int)
    requires
        0 <= count <= commands.len(),
    ensures
        Pen::after(commands.take(count)).failure is Some ==> Pen::after(commands) == Pen::after(
            commands.take(count),
        ),
    decreases commands.len(),
{
    if count == commands.len() {
        assert(commands.take(count) == commands);
    } else {
        assert(commands.drop_last().take(count) == commands.take(count));
        lemma_failure_is_final(commands.drop_last(), count);
    }
}

} // verus!
