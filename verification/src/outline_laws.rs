//! What holds of every path that is split into contours.

use crate::outline;
use crate::outline::{PathCommand, Pen, Segment};
use vstd::prelude::*;

verus! {

/// Whether every piece begins where the one before it ends.
pub open spec fn is_connected(segments: Seq<Segment>) -> bool {
    forall|i: int, j: int|
        0 <= i && j == i + 1 && j < segments.len() ==> (#[trigger] segments[i]).end == (
        #[trigger] segments[j]).start
}

/// Whether pieces form a ring: they are connected, and the last one ends where the first
/// one begins.
pub open spec fn is_ring(segments: Seq<Segment>) -> bool {
    &&& segments.len() > 0
    &&& is_connected(segments)
    &&& segments.last().end == segments[0].start || segments.last().end.same_place(
        segments[0].start,
    )
}

/// What holds of the pen at any time.
pub open spec fn is_regular(pen: Pen) -> bool {
    &&& is_connected(pen.segments)
    &&& pen.segments.len() > 0 ==> {
        &&& pen.start == Some(pen.segments[0].start)
        &&& pen.current == Some(pen.segments.last().end)
    }
    &&& forall|i: int| 0 <= i < pen.contours.len() ==> is_ring(#[trigger] pen.contours[i])
    &&& pen.failure matches Some(message) ==> is_missing_start(message)
}

/// Whether a message says that something was drawn before the pen was put down.
pub open spec fn is_missing_start(message: Seq<char>) -> bool {
    ||| message == "SVG path segment appears before its move command"@
    ||| message == "SVG quadratic curve appears before its move command"@
}

/// Completing a contour keeps the pen in order and cannot fail.
pub proof fn lemma_finish_is_regular(pen: Pen)
    requires
        is_regular(pen),
    ensures
        is_regular(pen.finish()),
        pen.finish().failure == pen.failure,
{
    if pen.segments.len() > 0 {
        let ring = outline::closed_contour(pen.segments, pen.start.unwrap(), pen.current.unwrap());
        assert(is_ring(ring));
    }
}

/// The pen is in order after any commands.
pub proof fn lemma_after_is_regular(commands: Seq<PathCommand>)
    ensures
        is_regular(Pen::after(commands)),
    decreases commands.len(),
{
    if commands.len() > 0 {
        let pen = Pen::after(commands.drop_last());
        lemma_after_is_regular(commands.drop_last());
        lemma_finish_is_regular(pen);
        let next = pen.follow(commands.last());
        assert(is_regular(next));
    }
}

/// Every contour is a ring, whatever the commands are.
pub proof fn law_contours_are_rings(commands: Seq<PathCommand>)
    ensures
        forall|i: int|
            0 <= i < Pen::at_end(commands).contours.len() ==> is_ring(
                #[trigger] Pen::at_end(commands).contours[i],
            ),
{
    lemma_after_is_regular(commands);
    lemma_finish_is_regular(Pen::after(commands));
}

/// A path fails only if it draws before the pen was put down; a contour that was begun
/// can always be completed.
pub proof fn law_only_a_missing_start_fails(commands: Seq<PathCommand>)
    ensures
        Pen::at_end(commands).failure matches Some(message) ==> is_missing_start(message),
{
    lemma_after_is_regular(commands);
    lemma_finish_is_regular(Pen::after(commands));
}

/// Whether a path begins by putting the pen down and never closes a contour twice.
pub open spec fn is_well_formed(commands: Seq<PathCommand>) -> bool {
    &&& commands.len() > 0 ==> commands[0] is MoveTo
    &&& forall|i: int, j: int|
        0 <= i && j == i + 1 && j < commands.len() ==> !((#[trigger] commands[i]) is Close && (
        #[trigger] commands[j]) is Close)
}

/// On its way through a well-formed path the pen is down, and knows where the contour began.
proof fn lemma_well_formed_pen(commands: Seq<PathCommand>)
    requires
        is_well_formed(commands),
    ensures
        Pen::after(commands).failure is None,
        commands.len() > 0 ==> Pen::after(commands).current is Some,
        commands.len() > 0 && !(commands.last() is Close) ==> Pen::after(commands).start is Some,
    decreases commands.len(),
{
    if commands.len() > 0 {
        let earlier = commands.drop_last();
        assert(is_well_formed(earlier)) by {
            if earlier.len() > 0 {
                assert(earlier[0] == commands[0]);
            }
            assert forall|i: int, j: int|
                0 <= i && j == i + 1 && j < earlier.len() implies !((#[trigger] earlier[i]) is Close
                && (#[trigger] earlier[j]) is Close) by {
                assert(earlier[i] == commands[i] && earlier[j] == commands[j]);
            }
        }
        lemma_well_formed_pen(earlier);
        lemma_after_is_regular(earlier);
        lemma_finish_is_regular(Pen::after(earlier));
        if earlier.len() > 0 {
            let last = commands.len() - 1;
            assert(earlier.last() == commands[last - 1]);
            assert(!(commands[last - 1] is Close && commands[last] is Close));
        } else {
            assert(commands.last() == commands[0]);
        }
    }
}

/// A path that begins by putting the pen down and never closes a contour twice can
/// always be split.
pub proof fn law_well_formed_paths_never_fail(commands: Seq<PathCommand>)
    requires
        is_well_formed(commands),
    ensures
        Pen::at_end(commands).failure is None,
{
    lemma_well_formed_pen(commands);
    lemma_after_is_regular(commands);
    lemma_finish_is_regular(Pen::after(commands));
}

/// How many commands of a path draw something.
pub open spec fn drawing_count(commands: Seq<PathCommand>) -> nat
    decreases commands.len(),
{
    if commands.len() == 0 {
        0
    } else if commands.last() is MoveTo || commands.last() is Close {
        drawing_count(commands.drop_last())
    } else {
        drawing_count(commands.drop_last()) + 1
    }
}

/// How many pieces some contours have together.
pub open spec fn segment_count(contours: Seq<Seq<Segment>>) -> nat
    decreases contours.len(),
{
    if contours.len() == 0 {
        0
    } else {
        segment_count(contours.drop_last()) + contours.last().len()
    }
}

/// Completing a contour adds one piece at most.
proof fn lemma_finish_counts(pen: Pen)
    requires
        is_regular(pen),
    ensures
        pen.finish().segments.len() == 0,
        segment_count(pen.contours) + pen.segments.len() <= segment_count(pen.finish().contours),
        segment_count(pen.finish().contours) - pen.finish().contours.len() <= segment_count(
            pen.contours,
        ) + pen.segments.len() - pen.contours.len(),
{
    lemma_finish_is_regular(pen);
    if pen.segments.len() > 0 {
        assert(pen.finish().contours.drop_last() == pen.contours);
    }
}

/// So far there is one piece for every drawing command, and at most one more for every contour.
proof fn lemma_counts(commands: Seq<PathCommand>)
    requires
        Pen::after(commands).failure is None,
    ensures
        ({
            let pen = Pen::after(commands);
            let drawn = segment_count(pen.contours) + pen.segments.len();
            drawn - pen.contours.len() <= drawing_count(commands) <= drawn
        }),
    decreases commands.len(),
{
    if commands.len() > 0 {
        let pen = Pen::after(commands.drop_last());
        lemma_after_is_regular(commands.drop_last());
        lemma_counts(commands.drop_last());
        lemma_finish_counts(pen);
    }
}

/// Nothing that is drawn gets lost: the contours have one piece for every drawing
/// command, and at most one more each, which closes them.
pub proof fn law_every_drawing_command_becomes_a_segment(commands: Seq<PathCommand>)
    requires
        Pen::at_end(commands).failure is None,
    ensures
        drawing_count(commands) <= segment_count(Pen::at_end(commands).contours)
            <= drawing_count(commands) + Pen::at_end(commands).contours.len(),
{
    let pen = Pen::after(commands);
    lemma_after_is_regular(commands);
    lemma_finish_is_regular(pen);
    lemma_counts(commands);
    lemma_finish_counts(pen);
}

} // verus!
