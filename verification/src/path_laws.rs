//! What a path draws, said of its commands.
//!
//! The drawing commands of a path come in runs, between moves and closes. Every run becomes
//! one contour.

use crate::outline::{Course, MapPoint, PathCommand, Pen, Segment};
use crate::outline_laws;
use vstd::prelude::*;

verus! {

/// Whether a command draws something.
pub open spec fn draws(command: PathCommand) -> bool {
    !(command is MoveTo) && !(command is Close)
}

/// How a command gets to its end.
pub open spec fn course_of(command: PathCommand) -> Course {
    match command {
        PathCommand::QuadTo(handle, _) => Course::Quadratic(handle),
        PathCommand::CubicTo(handle1, handle2, _) => Course::Cubic(handle1, handle2),
        _ => Course::Line,
    }
}

/// The point that a command leads to.
pub open spec fn end_of(command: PathCommand) -> MapPoint {
    match command {
        PathCommand::MoveTo(point) => point,
        PathCommand::LineTo(end) => end,
        PathCommand::QuadTo(_, end) => end,
        PathCommand::CubicTo(_, _, end) => end,
        PathCommand::Close => arbitrary(),
    }
}

/// Whether the commands from `first` up to `next` are a run: all of them draw, and they have
/// no drawing neighbours.
pub open spec fn is_run(commands: Seq<PathCommand>, first: int, next: int) -> bool {
    &&& 0 <= first < next <= commands.len()
    &&& forall|i: int| first <= i < next ==> draws(#[trigger] commands[i])
    &&& first == 0 || !draws(commands[first - 1])
    &&& next == commands.len() || !draws(commands[next])
}

/// How many runs a path has.
pub open spec fn run_count(commands: Seq<PathCommand>) -> nat
    decreases commands.len(),
{
    if commands.len() == 0 {
        0
    } else if draws(commands.last()) && (commands.len() == 1 || !draws(
        commands[commands.len() - 2],
    )) {
        run_count(commands.drop_last()) + 1
    } else {
        run_count(commands.drop_last())
    }
}

/// Whether `position` is that of the last move before the command at `index`.
pub open spec fn is_last_move(commands: Seq<PathCommand>, index: int, position: int) -> bool {
    &&& 0 <= position < index <= commands.len()
    &&& commands[position] is MoveTo
    &&& forall|i: int| position < i < index ==> !(#[trigger] commands[i] is MoveTo)
}

/// Whether there is nowhere to draw from at a command: nothing was moved to before, or the
/// path was closed twice in a row.
pub open spec fn is_stray(commands: Seq<PathCommand>, index: int) -> bool {
    ||| forall|i: int| 0 <= i < index ==> !(#[trigger] commands[i] is MoveTo)
    ||| index >= 2 && commands[index - 1] is Close && commands[index - 2] is Close
}

/// Whether every drawing command has somewhere to draw from.
pub open spec fn is_drawable(commands: Seq<PathCommand>) -> bool {
    forall|i: int| 0 <= i < commands.len() && draws(#[trigger] commands[i]) ==> !is_stray(
        commands,
        i,
    )
}

/// The shorter path has the same last move.
proof fn lemma_last_move_before(commands: Seq<PathCommand>, position: int)
    requires
        commands.len() > 0,
        is_last_move(commands, commands.len() as int, position),
        !(commands.last() is MoveTo),
    ensures
        is_last_move(commands.drop_last(), commands.len() - 1, position),
{
    let earlier = commands.drop_last();
    assert(position < commands.len() - 1);
    assert(earlier[position] == commands[position]);
    assert forall|i: int| position < i < earlier.len() implies !(#[trigger] earlier[i]
        is MoveTo) by {
        assert(earlier[i] == commands[i]);
    }
}

/// Where the pen is after some commands.
proof fn lemma_place(commands: Seq<PathCommand>, position: int)
    requires
        Pen::after(commands).failure is None,
        is_last_move(commands, commands.len() as int, position),
    ensures
        ({
            let pen = Pen::after(commands);
            let begin = end_of(commands[position]);
            &&& pen.start matches Some(start) ==> start == begin
            &&& !(commands.last() is Close) ==> pen.start is Some
            &&& pen.current == if draws(commands.last()) {
                Some(end_of(commands.last()))
            } else if commands.last() is Close && commands.len() >= 2
                && commands[commands.len() - 2] is Close {
                None
            } else {
                Some(begin)
            }
            &&& commands.last() is Close ==> pen.start is None
        }),
    decreases commands.len(),
{
    let earlier = commands.drop_last();
    let pen = Pen::after(earlier);
    outline_laws::lemma_after_is_regular(earlier);
    outline_laws::lemma_finish_is_regular(pen);
    assert(commands.last() == commands[commands.len() - 1]);
    if !(commands.last() is MoveTo) {
        lemma_last_move_before(commands, position);
        lemma_place(earlier, position);
        assert(earlier[position] == commands[position]);
        assert(earlier.last() == commands[commands.len() - 2]);
        if earlier.len() >= 2 {
            assert(earlier[earlier.len() - 2] == commands[earlier.len() - 2]);
        }
    } else {
        assert(position == commands.len() - 1);
    }
}

/// Without a move the pen is nowhere.
proof fn lemma_nowhere(commands: Seq<PathCommand>)
    requires
        Pen::after(commands).failure is None,
        forall|i: int| 0 <= i < commands.len() ==> !(#[trigger] commands[i] is MoveTo),
    ensures
        Pen::after(commands).start is None,
        Pen::after(commands).current is None,
    decreases commands.len(),
{
    if commands.len() > 0 {
        let earlier = commands.drop_last();
        outline_laws::lemma_after_is_regular(earlier);
        outline_laws::lemma_finish_is_regular(Pen::after(earlier));
        assert forall|i: int| 0 <= i < earlier.len() implies !(#[trigger] earlier[i]
            is MoveTo) by {
            assert(earlier[i] == commands[i]);
        }
        lemma_nowhere(earlier);
        assert(!(commands[commands.len() - 1] is MoveTo));
    }
}

/// There is a last move if there is any.
proof fn lemma_last_move(commands: Seq<PathCommand>, index: int) -> (position: int)
    requires
        0 <= index <= commands.len(),
        exists|i: int| 0 <= i < index && #[trigger] commands[i] is MoveTo,
    ensures
        is_last_move(commands, index, position),
    decreases index,
{
    if commands[index - 1] is MoveTo {
        index - 1
    } else {
        let i = choose|i: int| 0 <= i < index && #[trigger] commands[i] is MoveTo;
        assert(i < index - 1);
        lemma_last_move(commands, index - 1)
    }
}

/// The pen is nowhere exactly where a drawing command would be stray.
proof fn lemma_stray(commands: Seq<PathCommand>)
    requires
        Pen::after(commands).failure is None,
    ensures
        Pen::after(commands).current is None <==> is_stray(commands, commands.len() as int),
{
    if exists|i: int| 0 <= i < commands.len() && #[trigger] commands[i] is MoveTo {
        let position = lemma_last_move(commands, commands.len() as int);
        lemma_place(commands, position);
        assert(commands.last() == commands[commands.len() - 1]);
        assert(commands[position] is MoveTo);
    } else {
        lemma_nowhere(commands);
    }
}

/// What is stray in a path is stray in its beginning.
proof fn lemma_stray_in_beginning(commands: Seq<PathCommand>, count: int, index: int)
    requires
        0 <= index <= count <= commands.len(),
    ensures
        is_stray(commands.take(count), index) == is_stray(commands, index),
{
    let beginning = commands.take(count);
    assert forall|i: int| 0 <= i < index implies #[trigger] beginning[i] == commands[i] by {}
    if forall|i: int| 0 <= i < index ==> !(#[trigger] beginning[i] is MoveTo) {
        assert forall|i: int| 0 <= i < index implies !(#[trigger] commands[i] is MoveTo) by {
            assert(beginning[i] == commands[i]);
        }
    }
    if forall|i: int| 0 <= i < index ==> !(#[trigger] commands[i] is MoveTo) {
        assert forall|i: int| 0 <= i < index implies !(#[trigger] beginning[i] is MoveTo) by {
            assert(beginning[i] == commands[i]);
        }
    }
}

/// A drawable path has a drawable beginning.
proof fn lemma_drawable_beginning(commands: Seq<PathCommand>, count: int)
    requires
        0 <= count <= commands.len(),
        forall|i: int| 0 <= i < count && draws(#[trigger] commands[i]) ==> !is_stray(commands, i),
    ensures
        is_drawable(commands.take(count)),
{
    let beginning = commands.take(count);
    assert forall|i: int| 0 <= i < beginning.len() && draws(#[trigger] beginning[i]) implies
        !is_stray(beginning, i) by {
        assert(beginning[i] == commands[i]);
        lemma_stray_in_beginning(commands, count, i);
    }
}

/// A drawable path can be followed.
proof fn lemma_drawable(commands: Seq<PathCommand>)
    requires
        is_drawable(commands),
    ensures
        Pen::after(commands).failure is None,
    decreases commands.len(),
{
    if commands.len() > 0 {
        let earlier = commands.drop_last();
        assert(earlier =~= commands.take(commands.len() - 1));
        lemma_drawable_beginning(commands, commands.len() - 1);
        lemma_drawable(earlier);
        outline_laws::lemma_after_is_regular(earlier);
        outline_laws::lemma_finish_is_regular(Pen::after(earlier));
        lemma_stray(earlier);
        lemma_stray_in_beginning(commands, commands.len() - 1, commands.len() - 1);
        assert(commands.last() == commands[commands.len() - 1]);
    }
}

/// A path in which every drawing command has somewhere to draw from can be split.
pub proof fn law_drawable_paths_can_be_split(commands: Seq<PathCommand>)
    requires
        is_drawable(commands),
    ensures
        Pen::at_end(commands).failure is None,
{
    lemma_drawable(commands);
    outline_laws::lemma_after_is_regular(commands);
    outline_laws::lemma_finish_is_regular(Pen::after(commands));
}

/// The first drawing command that has nowhere to draw from stops the splitting, with a
/// message of its own for curves with one control point. The contours are those of the path
/// up to it.
pub proof fn law_the_first_stray_command_fails(commands: Seq<PathCommand>, index: int)
    requires
        0 <= index < commands.len(),
        draws(commands[index]),
        is_stray(commands, index),
        forall|i: int| 0 <= i < index && draws(#[trigger] commands[i]) ==> !is_stray(commands, i),
    ensures
        Pen::at_end(commands).failure == Some(
            if commands[index] is QuadTo {
                "SVG quadratic curve appears before its move command"@
            } else {
                "SVG path segment appears before its move command"@
            },
        ),
        Pen::at_end(commands.take(index)).failure is None,
        Pen::at_end(commands).contours == Pen::at_end(commands.take(index)).contours,
{
    let beginning = commands.take(index);
    let upto = commands.take(index + 1);
    lemma_drawable_beginning(commands, index);
    lemma_drawable(beginning);
    lemma_stray(beginning);
    lemma_stray_in_beginning(commands, index, index);
    assert(upto.drop_last() =~= beginning);
    assert(upto.last() == commands[index]);
    let pen = Pen::after(beginning);
    outline_laws::lemma_after_is_regular(beginning);
    outline_laws::lemma_finish_is_regular(pen);
    assert(pen.current is None);
    assert(pen.segments.len() == 0);
    assert(Pen::after(upto).failure is Some);
    lemma_stopped(commands, index + 1);
}

/// After a failure nothing changes.
proof fn lemma_stopped(commands: Seq<PathCommand>, count: int)
    requires
        0 <= count <= commands.len(),
        Pen::after(commands.take(count)).failure is Some,
    ensures
        Pen::after(commands) == Pen::after(commands.take(count)),
    decreases commands.len(),
{
    if count == commands.len() {
        assert(commands.take(count) =~= commands);
    } else {
        assert(commands.drop_last().take(count) =~= commands.take(count));
        lemma_stopped(commands.drop_last(), count);
    }
}

/// Every command of a path that can be split is reached without a failure.
proof fn lemma_beginning_is_fine(commands: Seq<PathCommand>, count: int)
    requires
        0 <= count <= commands.len(),
        Pen::after(commands).failure is None,
    ensures
        Pen::after(commands.take(count)).failure is None,
{
    if Pen::after(commands.take(count)).failure is Some {
        lemma_stopped(commands, count);
    }
}

/// A path that can be split has no stray commands.
pub proof fn law_paths_that_can_be_split_are_drawable(commands: Seq<PathCommand>)
    requires
        Pen::at_end(commands).failure is None,
    ensures
        is_drawable(commands),
{
    outline_laws::lemma_after_is_regular(commands);
    outline_laws::lemma_finish_is_regular(Pen::after(commands));
    assert forall|i: int| 0 <= i < commands.len() && draws(#[trigger] commands[i]) implies
        !is_stray(commands, i) by {
        let beginning = commands.take(i);
        let upto = commands.take(i + 1);
        lemma_beginning_is_fine(commands, i);
        lemma_beginning_is_fine(commands, i + 1);
        assert(upto.drop_last() =~= beginning);
        assert(upto.last() == commands[i]);
        lemma_stray(beginning);
        lemma_stray_in_beginning(commands, i, i);
    }
}

/// Complete contours and the one that is being drawn count the runs.
proof fn lemma_runs(commands: Seq<PathCommand>)
    requires
        Pen::after(commands).failure is None,
    ensures
        Pen::after(commands).segments.len() > 0 <==> commands.len() > 0 && draws(commands.last()),
        Pen::after(commands).contours.len() + (if Pen::after(commands).segments.len() > 0 {
            1int
        } else {
            0
        }) == run_count(commands),
    decreases commands.len(),
{
    if commands.len() > 0 {
        let earlier = commands.drop_last();
        outline_laws::lemma_after_is_regular(earlier);
        outline_laws::lemma_finish_is_regular(Pen::after(earlier));
        lemma_runs(earlier);
        if commands.len() >= 2 {
            assert(earlier.last() == commands[commands.len() - 2]);
        }
    }
}

/// A path that can be split has as many contours as runs.
pub proof fn law_every_run_becomes_one_contour(commands: Seq<PathCommand>)
    requires
        Pen::at_end(commands).failure is None,
    ensures
        Pen::at_end(commands).contours.len() == run_count(commands),
{
    outline_laws::lemma_after_is_regular(commands);
    outline_laws::lemma_finish_is_regular(Pen::after(commands));
    lemma_runs(commands);
}

/// Contours that are complete stay as they are.
proof fn lemma_contours_stay(commands: Seq<PathCommand>, count: int)
    requires
        0 <= count <= commands.len(),
    ensures
        Pen::after(commands.take(count)).contours.is_prefix_of(Pen::after(commands).contours),
        Pen::after(commands).contours.is_prefix_of(Pen::at_end(commands).contours),
    decreases commands.len(),
{
    if count == commands.len() {
        assert(commands.take(count) =~= commands);
    } else {
        let earlier = commands.drop_last();
        assert(earlier.take(count) =~= commands.take(count));
        lemma_contours_stay(earlier, count);
        assert(Pen::after(earlier).contours.is_prefix_of(Pen::after(commands).contours));
    }
}

/// Whether segments are what a run draws from a point.
pub open spec fn draw_run(
    commands: Seq<PathCommand>,
    first: int,
    next: int,
    begin: MapPoint,
    segments: Seq<Segment>,
) -> bool {
    forall|i: int|
        first <= i < next ==> (#[trigger] segments[i - first]) == (Segment {
            start: if i == first {
                begin
            } else {
                end_of(commands[i - 1])
            },
            course: course_of(commands[i]),
            end: end_of(commands[i]),
        })
}

/// What the pen has drawn within a run.
proof fn lemma_open_run(commands: Seq<PathCommand>, first: int, position: int)
    requires
        Pen::after(commands).failure is None,
        is_run(commands, first, commands.len() as int),
        is_last_move(commands, first, position),
    ensures
        Pen::after(commands).segments.len() == commands.len() - first,
        draw_run(
            commands,
            first,
            commands.len() as int,
            end_of(commands[position]),
            Pen::after(commands).segments,
        ),
        Pen::after(commands).contours.len() == run_count(commands.take(first)),
    decreases commands.len(),
{
    let earlier = commands.drop_last();
    let last = commands.len() - 1;
    let pen = Pen::after(earlier);
    assert(commands.last() == commands[last]);
    assert(draws(commands[last]));
    assert(commands.take(last) =~= earlier);
    lemma_beginning_is_fine(commands, last);
    lemma_runs(earlier);
    assert(is_last_move(earlier, last, position)) by {
        assert(earlier[position] == commands[position]);
        assert forall|i: int| position < i < last implies !(#[trigger] earlier[i] is MoveTo) by {
            assert(earlier[i] == commands[i]);
            if i >= first {
                assert(draws(commands[i]));
            }
        }
    }
    lemma_place(earlier, position);
    assert(earlier[position] == commands[position]);
    assert(earlier.last() == commands[last - 1]);
    if first < last {
        assert(is_run(earlier, first, last)) by {
            assert forall|i: int| first <= i < last implies draws(#[trigger] earlier[i]) by {
                assert(earlier[i] == commands[i]);
            }
            assert(earlier[first - 1] == commands[first - 1]);
        }
        assert(is_last_move(earlier, first, position)) by {
            assert forall|i: int| position < i < first implies !(#[trigger] earlier[i]
                is MoveTo) by {
                assert(earlier[i] == commands[i]);
            }
        }
        lemma_open_run(earlier, first, position);
        assert(earlier.take(first) =~= commands.take(first));
        assert(draws(commands[last - 1]));
        let drawn = Pen::after(commands).segments;
        assert forall|i: int| first <= i < commands.len() implies (#[trigger] drawn[i - first])
            == (Segment {
            start: if i == first {
                end_of(commands[position])
            } else {
                end_of(commands[i - 1])
            },
            course: course_of(commands[i]),
            end: end_of(commands[i]),
        }) by {
            if i < last {
                assert(drawn[i - first] == pen.segments[i - first]);
                assert(earlier[i] == commands[i]);
                if i > first {
                    assert(earlier[i - 1] == commands[i - 1]);
                }
            }
        }
    }
}

/// Every run of a path becomes the contour with the number of runs before it. It begins at
/// the point of the last move, has one segment for every command of the run, which leads in
/// its own way from where the command before it ended to its own end, and then, only if that
/// is another place, a straight line back to its beginning.
pub proof fn law_a_contour_is_what_its_run_draws(
    commands: Seq<PathCommand>,
    first: int,
    next: int,
    position: int,
)
    requires
        Pen::at_end(commands).failure is None,
        is_run(commands, first, next),
        is_last_move(commands, first, position),
    ensures
        ({
            let contours = Pen::at_end(commands).contours;
            let number = run_count(commands.take(first)) as int;
            let contour = contours[number];
            let begin = end_of(commands[position]);
            let end = end_of(commands[next - 1]);
            &&& number < contours.len()
            &&& draw_run(commands, first, next, begin, contour)
            &&& if end.x.same(begin.x) && end.y.same(begin.y) {
                contour.len() == next - first
            } else {
                &&& contour.len() == next - first + 1
                &&& contour.last() == (Segment { start: end, course: Course::Line, end: begin })
            }
        }),
{
    outline_laws::lemma_after_is_regular(commands);
    outline_laws::lemma_finish_is_regular(Pen::after(commands));
    let upto = commands.take(next);
    lemma_beginning_is_fine(commands, next);
    assert(is_run(upto, first, next)) by {
        assert forall|i: int| first <= i < next implies draws(#[trigger] upto[i]) by {
            assert(upto[i] == commands[i]);
        }
        assert(upto[first - 1] == commands[first - 1]);
    }
    assert(is_last_move(upto, first, position)) by {
        assert(upto[position] == commands[position]);
        assert forall|i: int| position < i < first implies !(#[trigger] upto[i] is MoveTo) by {
            assert(upto[i] == commands[i]);
        }
    }
    lemma_open_run(upto, first, position);
    assert(is_last_move(upto, next, position)) by {
        assert forall|i: int| position < i < next implies !(#[trigger] upto[i] is MoveTo) by {
            if i >= first {
                assert(draws(upto[i]));
            }
        }
    }
    lemma_place(upto, position);
    assert(upto.last() == commands[next - 1]);
    assert(upto.take(first) =~= commands.take(first));
    let pen = Pen::after(upto);
    outline_laws::lemma_after_is_regular(upto);
    outline_laws::lemma_finish_is_regular(pen);
    let number = run_count(commands.take(first)) as int;
    let contour = pen.finish().contours[number];
    assert forall|i: int| first <= i < next implies (#[trigger] contour[i - first]) == (Segment {
        start: if i == first {
            end_of(commands[position])
        } else {
            end_of(commands[i - 1])
        },
        course: course_of(commands[i]),
        end: end_of(commands[i]),
    }) by {
        assert(contour[i - first] == pen.segments[i - first]);
        assert(upto[i] == commands[i]);
        if i > first {
            assert(upto[i - 1] == commands[i - 1]);
        }
    }
    if next == commands.len() {
        assert(upto =~= commands);
    } else {
        let further = commands.take(next + 1);
        assert(further.drop_last() =~= upto);
        assert(further.last() == commands[next]);
        assert(Pen::after(further).contours == pen.finish().contours);
        lemma_contours_stay(commands, next + 1);
        assert(Pen::after(further).contours[number] == Pen::after(commands).contours[number]);
        assert(Pen::after(commands).contours[number] == Pen::at_end(commands).contours[number]);
    }
}

/// Before every run of a path that can be split there is a move.
pub proof fn law_every_run_follows_a_move(commands: Seq<PathCommand>, first: int, next: int)
    requires
        Pen::at_end(commands).failure is None,
        is_run(commands, first, next),
    ensures
        exists|position: int| is_last_move(commands, first, position),
{
    law_paths_that_can_be_split_are_drawable(commands);
    assert(draws(commands[first]));
    assert(!is_stray(commands, first));
    let position = lemma_last_move(commands, first);
    assert(is_last_move(commands, first, position));
}

} // verus!
