//! What holds of every outline that is sorted into polygons.

use crate::binary64::SIGN_BIT;
use crate::rings;
use crate::rings::{Boundary, Contour, FillRule};
use vstd::prelude::*;

verus! {

/// The contours around a contour are contours of the same outline, and none of them is
/// negligible unless it is.
pub proof fn lemma_ancestors(contours: Seq<Contour>, index: int)
    requires
        0 <= index < contours.len(),
    ensures
        forall|k: int|
            0 <= k < rings::ancestors(contours, index).len() ==> {
                &&& 0 <= #[trigger] rings::ancestors(contours, index)[k] < contours.len()
                &&& !rings::is_negligible(contours, index) ==> !rings::is_negligible(
                    contours,
                    rings::ancestors(contours, index)[k],
                )
            },
    decreases SIGN_BIT - rings::area(contours, index).magnitude(),
{
    rings::lemma_parent(contours, index);
    match rings::parent(contours, index) {
        Some(p) => {
            assert(rings::is_candidate(contours, index, p));
            lemma_ancestors(contours, p);
            let outside = rings::ancestors(contours, index);
            assert(outside == seq![p] + rings::ancestors(contours, p));
            assert forall|k: int| 0 <= k < outside.len() implies {
                &&& 0 <= #[trigger] outside[k] < contours.len()
                &&& !rings::is_negligible(contours, index) ==> !rings::is_negligible(
                    contours,
                    outside[k],
                )
            } by {
                if k > 0 {
                    assert(outside[k] == rings::ancestors(contours, p)[k - 1]);
                }
            }
        },
        None => {},
    }
}

/// Where the ground just outside a contour is filled, an outer boundary lies further
/// out, and the contours up to it have the same on both sides.
proof fn lemma_filled_outside(contours: Seq<Contour>, rule: FillRule, index: int) -> (steps: int)
    requires
        0 <= index < contours.len(),
        !rings::is_negligible(contours, index),
        rings::is_filled(contours, rule, rings::ancestors(contours, index)),
    ensures
        0 <= steps < rings::ancestors(contours, index).len(),
        rings::role(contours, rule, rings::ancestors(contours, index)[steps]) == Boundary::Outer,
        rings::closest_outer(contours, rule, index) == Some(
            rings::ancestors(contours, index)[steps],
        ),
        forall|k: int|
            0 <= k < steps ==> rings::role(
                contours,
                rule,
                #[trigger] rings::ancestors(contours, index)[k],
            ) == Boundary::Redundant,
    decreases SIGN_BIT - rings::area(contours, index).magnitude(),
{
    rings::lemma_parent(contours, index);
    lemma_ancestors(contours, index);
    let outside = rings::ancestors(contours, index);
    assert(outside.len() > 0);
    let p = rings::parent(contours, index).unwrap();
    assert(rings::is_candidate(contours, index, p));
    let further = rings::ancestors(contours, p);
    assert(outside == seq![p] + further);
    assert(outside[0] == p);
    assert(outside.drop_first() == further);
    if rings::is_filled(contours, rule, further) {
        let rest = lemma_filled_outside(contours, rule, p);
        assert(rings::role(contours, rule, p) == Boundary::Redundant);
        assert forall|k: int| 0 <= k < rest + 1 implies rings::role(
            contours,
            rule,
            #[trigger] outside[k],
        ) == Boundary::Redundant by {
            if k > 0 {
                assert(outside[k] == further[k - 1]);
            }
        }
        rest + 1
    } else {
        assert(rings::role(contours, rule, p) == Boundary::Outer);
        0
    }
}

/// The polygons of an outline are bounded by exactly its outer contours.
pub proof fn lemma_outers_members(contours: Seq<Contour>, rule: FillRule, count: nat)
    ensures
        forall|i: int| #[trigger]
            rings::outers(contours, rule, count).contains(i) <==> 0 <= i < count && rings::role(
                contours,
                rule,
                i,
            ) == Boundary::Outer,
    decreases count,
{
    if count > 0 {
        let earlier = rings::outers(contours, rule, (count - 1) as nat);
        lemma_outers_members(contours, rule, (count - 1) as nat);
        assert forall|i: int| #[trigger]
            rings::outers(contours, rule, count).contains(i) <==> 0 <= i < count && rings::role(
                contours,
                rule,
                i,
            ) == Boundary::Outer by {
            if rings::role(contours, rule, count - 1) == Boundary::Outer {
                lemma_push_contains(earlier, count - 1, i);
            }
            assert(earlier.contains(i) <==> 0 <= i < count - 1 && rings::role(contours, rule, i)
                == Boundary::Outer);
        }
    }
}

/// The holes of a polygon are exactly the contours that are holes of it.
pub proof fn lemma_holes_members(contours: Seq<Contour>, rule: FillRule, outer: int, count: nat)
    ensures
        forall|i: int| #[trigger]
            rings::holes(contours, rule, outer, count).contains(i) <==> 0 <= i < count
                && rings::is_hole_of(contours, rule, i, outer),
    decreases count,
{
    if count > 0 {
        let earlier = rings::holes(contours, rule, outer, (count - 1) as nat);
        lemma_holes_members(contours, rule, outer, (count - 1) as nat);
        assert forall|i: int| #[trigger]
            rings::holes(contours, rule, outer, count).contains(i) <==> 0 <= i < count
                && rings::is_hole_of(contours, rule, i, outer) by {
            if rings::is_hole_of(contours, rule, count - 1, outer) {
                lemma_push_contains(earlier, count - 1, i);
            }
            assert(earlier.contains(i) <==> 0 <= i < count - 1 && rings::is_hole_of(
                contours,
                rule,
                i,
                outer,
            ));
        }
    }
}

/// A longer list holds what the shorter one held, and the new item.
proof fn lemma_push_contains(list: Seq<int>, item: int, other: int)
    ensures
        list.push(item).contains(other) <==> list.contains(other) || other == item,
{
    let longer = list.push(item);
    if list.contains(other) {
        let i = choose|i: int| 0 <= i < list.len() && list[i] == other;
        assert(longer[i] == other);
    }
    if other == item {
        assert(longer[list.len() as int] == other);
    }
    if longer.contains(other) && other != item {
        let i = choose|i: int| 0 <= i < longer.len() && longer[i] == other;
        assert(list[i] == other);
    }
}

/// No hole is lost and none is cut out twice: every contour that is a hole belongs to
/// exactly one polygon of the outline.
pub proof fn law_every_hole_is_cut_out_once(contours: Seq<Contour>, rule: FillRule, hole: int)
    requires
        0 <= hole < contours.len(),
        rings::role(contours, rule, hole) == Boundary::Hole,
    ensures
        exists|outer: int|
            {
                &&& rings::outers(contours, rule, contours.len()).contains(outer)
                &&& #[trigger] rings::holes(contours, rule, outer, contours.len()).contains(hole)
                &&& forall|other: int| #[trigger]
                    rings::holes(contours, rule, other, contours.len()).contains(hole) ==> other
                        == outer
            },
{
    let steps = lemma_filled_outside(contours, rule, hole);
    lemma_ancestors(contours, hole);
    let outer = rings::ancestors(contours, hole)[steps];
    lemma_outers_members(contours, rule, contours.len());
    lemma_holes_members(contours, rule, outer, contours.len());
    assert(rings::outers(contours, rule, contours.len()).contains(outer));
    assert(rings::holes(contours, rule, outer, contours.len()).contains(hole));
    assert forall|other: int| #[trigger]
        rings::holes(contours, rule, other, contours.len()).contains(hole) implies other
        == outer by {
        lemma_holes_members(contours, rule, other, contours.len());
    }
}

/// Between a hole and the polygon that it is cut out of there is no other boundary: the
/// contours in between are filled on both sides.
pub proof fn law_hole_lies_directly_in_its_polygon(
    contours: Seq<Contour>,
    rule: FillRule,
    hole: int,
    outer: int,
)
    requires
        0 <= hole < contours.len(),
        rings::is_hole_of(contours, rule, hole, outer),
    ensures
        exists|steps: int|
            {
                &&& 0 <= steps < rings::ancestors(contours, hole).len()
                &&& #[trigger] rings::ancestors(contours, hole)[steps] == outer
                &&& rings::role(contours, rule, outer) == Boundary::Outer
                &&& forall|k: int|
                    0 <= k < steps ==> rings::role(
                        contours,
                        rule,
                        #[trigger] rings::ancestors(contours, hole)[k],
                    ) == Boundary::Redundant
            },
{
    let steps = lemma_filled_outside(contours, rule, hole);
    assert(rings::ancestors(contours, hole)[steps] == outer);
}

/// A contour that lies in no other bounds a polygon, unless it is negligible.
pub proof fn law_outermost_contour_bounds_a_polygon(
    contours: Seq<Contour>,
    rule: FillRule,
    index: int,
)
    requires
        0 <= index < contours.len(),
        rings::parent(contours, index) is None,
        !rings::is_negligible(contours, index),
    ensures
        rings::role(contours, rule, index) == Boundary::Outer,
{
    let own = seq![index] + rings::ancestors(contours, index);
    assert(own.len() == 1);
    assert(own.drop_last().len() == 0);
    assert(rings::winding(contours, own) == rings::winding(contours, own.drop_last())
        + rings::sign(contours, index));
}

/// Under the even-odd rule outer boundaries and holes alternate with the depth, and a
/// hole belongs to the contour directly around it.
pub proof fn law_even_odd_alternates(contours: Seq<Contour>, index: int)
    requires
        0 <= index < contours.len(),
        !rings::is_negligible(contours, index),
    ensures
        rings::role(contours, FillRule::EvenOdd, index) == if rings::ancestors(
            contours,
            index,
        ).len() % 2 == 0 {
            Boundary::Outer
        } else {
            Boundary::Hole
        },
        rings::ancestors(contours, index).len() % 2 == 1 ==> rings::closest_outer(
            contours,
            FillRule::EvenOdd,
            index,
        ) == rings::parent(contours, index),
{
    let outside = rings::ancestors(contours, index);
    assert((seq![index] + outside).len() == outside.len() + 1);
    if outside.len() % 2 == 1 {
        let steps = lemma_filled_outside(contours, FillRule::EvenOdd, index);
        if steps > 0 {
            let p = outside[0];
            rings::lemma_parent(contours, index);
            lemma_ancestors(contours, index);
            assert(rings::role(contours, FillRule::EvenOdd, p) == Boundary::Redundant);
            let further = rings::ancestors(contours, p);
            assert(outside == seq![p] + further);
            assert((seq![p] + further).len() == further.len() + 1);
            assert(false);
        }
    }
}

/// Whether the second outline is the first one with every contour travelled the other
/// way.
pub open spec fn is_reversal(contours: Seq<Contour>, reversed: Seq<Contour>) -> bool {
    &&& contours.len() == reversed.len()
    &&& forall|i: int|
        0 <= i < contours.len() ==> {
            &&& (#[trigger] contours[i]).signed_area.magnitude()
                == reversed[i].signed_area.magnitude()
            &&& contours[i].signed_area.is_negative() != reversed[i].signed_area.is_negative()
            &&& forall|outer: int|
                #![trigger rings::encloses(reversed, outer, i)]
                rings::encloses(contours, outer, i) == rings::encloses(reversed, outer, i)
        }
}

/// Nothing depends on the direction in which an outline as a whole is travelled.
pub proof fn law_direction_of_travel_is_free(
    contours: Seq<Contour>,
    reversed: Seq<Contour>,
    rule: FillRule,
    index: int,
)
    requires
        is_reversal(contours, reversed),
        0 <= index < contours.len(),
    ensures
        rings::role(contours, rule, index) == rings::role(reversed, rule, index),
        rings::closest_outer(contours, rule, index) == rings::closest_outer(reversed, rule, index),
{
    lemma_reversal_ancestors(contours, reversed, index);
    lemma_reversal_role(contours, reversed, rule, index);
    assert forall|i: int| 0 <= i < contours.len() implies rings::role(contours, rule, i)
        == rings::role(reversed, rule, i) by {
        lemma_reversal_role(contours, reversed, rule, i);
    }
    assert(rings::roles(contours, rule) == rings::roles(reversed, rule));
}

/// The contours around a contour stay the same.
proof fn lemma_reversal_ancestors(contours: Seq<Contour>, reversed: Seq<Contour>, index: int)
    requires
        is_reversal(contours, reversed),
        0 <= index < contours.len(),
    ensures
        rings::ancestors(contours, index) == rings::ancestors(reversed, index),
    decreases SIGN_BIT - rings::area(contours, index).magnitude(),
{
    assert forall|i: int| 0 <= i < contours.len() implies #[trigger] rings::area(contours, i)
        == rings::area(reversed, i) by {
        assert(contours[i].signed_area.magnitude() == reversed[i].signed_area.magnitude());
    }
    assert(contours[index].signed_area.magnitude() == reversed[index].signed_area.magnitude());
    assert forall|c: int| #[trigger]
        rings::is_candidate(contours, index, c) == rings::is_candidate(reversed, index, c) by {
        if 0 <= c < contours.len() {
            assert(rings::area(contours, c) == rings::area(reversed, c));
            assert(rings::encloses(contours, c, index) == rings::encloses(reversed, c, index));
        }
    }
    rings::lemma_parent(contours, index);
    rings::lemma_parent(reversed, index);
    match rings::parent(contours, index) {
        Some(p) => {
            assert(rings::is_candidate(reversed, index, p));
            assert(rings::is_nearest(reversed, index, p)) by {
                assert forall|other: int| #[trigger]
                    rings::is_candidate(reversed, index, other) implies {
                    ||| rings::area(reversed, p).units() < rings::area(reversed, other).units()
                    ||| rings::area(reversed, p).units() == rings::area(reversed, other).units()
                        && p <= other
                } by {
                    assert(rings::is_candidate(contours, index, other));
                    assert(rings::area(contours, other) == rings::area(reversed, other));
                    assert(rings::area(contours, p) == rings::area(reversed, p));
                }
            }
            lemma_reversal_ancestors(contours, reversed, p);
        },
        None => {
            if rings::parent(reversed, index) is Some {
                let q = rings::parent(reversed, index).unwrap();
                assert(rings::is_candidate(contours, index, q));
            }
        },
    }
}

/// Windings change their sign.
proof fn lemma_reversal_winding(contours: Seq<Contour>, reversed: Seq<Contour>, list: Seq<int>)
    requires
        is_reversal(contours, reversed),
        forall|k: int| 0 <= k < list.len() ==> 0 <= #[trigger] list[k] < contours.len(),
    ensures
        rings::winding(contours, list) == -rings::winding(reversed, list),
    decreases list.len(),
{
    if list.len() > 0 {
        assert(0 <= list[list.len() - 1] < contours.len());
        assert(contours[list.last()].signed_area.is_negative()
            != reversed[list.last()].signed_area.is_negative());
        lemma_reversal_winding(contours, reversed, list.drop_last());
    }
}

/// Every contour keeps its role.
proof fn lemma_reversal_role(
    contours: Seq<Contour>,
    reversed: Seq<Contour>,
    rule: FillRule,
    index: int,
)
    requires
        is_reversal(contours, reversed),
        0 <= index < contours.len(),
    ensures
        rings::role(contours, rule, index) == rings::role(reversed, rule, index),
{
    assert(contours[index].signed_area.magnitude() == reversed[index].signed_area.magnitude());
    lemma_reversal_ancestors(contours, reversed, index);
    lemma_ancestors(contours, index);
    let outside = rings::ancestors(contours, index);
    lemma_reversal_winding(contours, reversed, outside);
    lemma_reversal_winding(contours, reversed, seq![index] + outside);
}

} // verus!
