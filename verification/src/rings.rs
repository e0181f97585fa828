//! From the closed contours of one outline to the polygons that fill it.
//!
//! A contour that bounds filled ground against unfilled ground on its outside
//! becomes a polygon; one that bounds it the other way round becomes a hole of the
//! nearest such polygon around it. Which ground is filled is a matter of the fill
//! rule and of the contours that enclose it.

use crate::binary64;
use crate::binary64::{Binary64, INFINITY_BITS, SIGN_BIT};
use crate::document;
use crate::error::ConversionError;
use crate::inside::Surroundings;
use omap::objects::{BezierPath, BezierPolygon};
use vstd::prelude::*;
use vstd::string::*;

verus! {

/// A contour whose area does not exceed this is dropped.
pub const NEGLIGIBLE_AREA_BITS: u64 = 0x3cb0_0000_0000_0000;

/// How enclosing contours decide whether ground is filled.
#[derive(Debug, Clone, Copy, PartialEq, Eq, Structural)]
pub enum FillRule {
    /// Filled where the contours do not wind around in balance.
    NonZero,
    /// Filled where an odd number of contours lies around.
    EvenOdd,
}

/// What a contour separates.
#[derive(Debug, Clone, Copy, PartialEq, Eq, Structural)]
pub enum Boundary {
    /// Filled inside, unfilled outside.
    Outer,
    /// Unfilled inside, filled outside.
    Hole,
    /// The same on both sides.
    Redundant,
}

/// A closed contour together with what was measured of it.
pub struct Contour {
    /// The exact curve.
    pub path: BezierPath,
    /// The enclosed area, positive for one direction of travel.
    pub signed_area: Binary64,
    /// Where its start lies among the contours of the outline, this one included.
    pub surroundings: Surroundings,
}

/// Whether contour `outer` lies around the start of contour `inner`.
pub open spec fn encloses(contours: Seq<Contour>, outer: int, inner: int) -> bool {
    contours[inner].surroundings.lies_in(outer)
}

/// The size of a contour, as a number that can be compared.
pub open spec fn area(contours: Seq<Contour>, index: int) -> Binary64 {
    contours[index].signed_area.absolute()
}

/// Whether `candidate` lies around `child` and is the larger of the two.
pub open spec fn is_candidate(contours: Seq<Contour>, child: int, candidate: int) -> bool {
    &&& 0 <= candidate < contours.len()
    &&& candidate != child
    &&& area(contours, child).less(area(contours, candidate))
    &&& encloses(contours, candidate, child)
}

/// Whether `candidate` is the smallest of the contours around `child`, the first one
/// where several are equally small.
pub open spec fn is_nearest(contours: Seq<Contour>, child: int, candidate: int) -> bool {
    &&& is_candidate(contours, child, candidate)
    &&& forall|other: int| #[trigger]
        is_candidate(contours, child, other) ==> {
            ||| area(contours, candidate).units() < area(contours, other).units()
            ||| area(contours, candidate).units() == area(contours, other).units() && candidate
                <= other
        }
}

/// The contour directly around `child`.
pub open spec fn parent(contours: Seq<Contour>, child: int) -> Option<int> {
    if exists|candidate: int| is_candidate(contours, child, candidate) {
        Some(choose|candidate: int| is_nearest(contours, child, candidate))
    } else {
        None
    }
}

/// Among the candidates below `bound`, if there are any, one is nearest.
proof fn lemma_nearest_below(contours: Seq<Contour>, child: int, bound: int) -> (best: Option<int>)
    requires
        0 <= bound,
    ensures
        best is None ==> forall|other: int|
            other < bound ==> !#[trigger] is_candidate(contours, child, other),
        best matches Some(b) ==> {
            &&& b < bound
            &&& is_candidate(contours, child, b)
            &&& forall|other: int| #[trigger]
                is_candidate(contours, child, other) && other < bound ==> {
                    ||| area(contours, b).units() < area(contours, other).units()
                    ||| area(contours, b).units() == area(contours, other).units() && b <= other
                }
        },
    decreases bound,
{
    if bound == 0 {
        None
    } else {
        let last = bound - 1;
        match lemma_nearest_below(contours, child, last) {
            None => if is_candidate(contours, child, last) {
                Some(last)
            } else {
                None
            },
            Some(b) => if is_candidate(contours, child, last) && area(contours, last).units()
                < area(contours, b).units() {
                Some(last)
            } else {
                Some(b)
            },
        }
    }
}

/// The parent is the nearest contour around its child, and is larger than it.
pub proof fn lemma_parent(contours: Seq<Contour>, child: int)
    ensures
        parent(contours, child) matches Some(p) ==> {
            &&& is_nearest(contours, child, p)
            &&& area(contours, child).magnitude() < area(contours, p).magnitude() <= INFINITY_BITS
        },
        forall|candidate: int| #[trigger]
            is_nearest(contours, child, candidate) ==> parent(contours, child) == Some(candidate),
{
    if exists|candidate: int| is_candidate(contours, child, candidate) {
        let best = lemma_nearest_below(contours, child, contours.len() as int);
        assert(best is Some);
        assert(is_nearest(contours, child, best.unwrap()));
        let p = choose|candidate: int| is_nearest(contours, child, candidate);
        binary64::lemma_magnitude_order_iff(
            area(contours, child).magnitude(),
            area(contours, p).magnitude(),
        );
        assert forall|candidate: int| #[trigger]
            is_nearest(contours, child, candidate) implies candidate == p by {
            assert(is_candidate(contours, child, candidate));
            assert(is_candidate(contours, child, p));
        }
    }
}

/// The contours around a contour, from the nearest outwards.
pub open spec fn ancestors(contours: Seq<Contour>, index: int) -> Seq<int>
    decreases SIGN_BIT - area(contours, index).magnitude(),
{
    match parent(contours, index) {
        Some(p) => {
            proof {
                lemma_parent(contours, index);
            }
            seq![p] + ancestors(contours, p)
        },
        None => Seq::empty(),
    }
}

/// How often the contours of a list wind around, with their direction of travel.
pub open spec fn winding(contours: Seq<Contour>, enclosing: Seq<int>) -> int
    decreases enclosing.len(),
{
    if enclosing.len() == 0 {
        0
    } else {
        winding(contours, enclosing.drop_last()) + sign(contours, enclosing.last())
    }
}

/// The direction of travel of one contour.
pub open spec fn sign(contours: Seq<Contour>, index: int) -> int {
    if contours[index].signed_area.is_negative() {
        -1
    } else {
        1
    }
}

/// Whether ground is filled that lies inside the contours of a list and no others.
pub open spec fn is_filled(contours: Seq<Contour>, rule: FillRule, enclosing: Seq<int>) -> bool {
    match rule {
        FillRule::EvenOdd => enclosing.len() % 2 == 1,
        FillRule::NonZero => winding(contours, enclosing) != 0,
    }
}

/// What a contour separates, from what is filled on either side of it.
pub open spec fn boundary(contours: Seq<Contour>, rule: FillRule, index: int) -> Boundary {
    let outside = ancestors(contours, index);
    match (
        is_filled(contours, rule, outside),
        is_filled(contours, rule, seq![index] + outside),
    ) {
        (false, true) => Boundary::Outer,
        (true, false) => Boundary::Hole,
        _ => Boundary::Redundant,
    }
}

/// Whether a contour is too small to bound anything.
pub open spec fn is_negligible(contours: Seq<Contour>, index: int) -> bool {
    !(Binary64 { bits: NEGLIGIBLE_AREA_BITS }).less(area(contours, index))
}

/// The part a contour plays: none if it is negligible, else what it separates.
pub open spec fn role(contours: Seq<Contour>, rule: FillRule, index: int) -> Boundary {
    if is_negligible(contours, index) {
        Boundary::Redundant
    } else {
        boundary(contours, rule, index)
    }
}

/// The parts that all contours of an outline play.
pub open spec fn roles(contours: Seq<Contour>, rule: FillRule) -> Seq<Boundary> {
    Seq::new(contours.len(), |i: int| role(contours, rule, i))
}

/// The first contour of a list that is a polygon's outer boundary.
pub open spec fn first_outer(boundaries: Seq<Boundary>, chain: Seq<int>) -> Option<int>
    decreases chain.len(),
{
    if chain.len() == 0 {
        None
    } else if boundaries[chain[0]] == Boundary::Outer {
        Some(chain[0])
    } else {
        first_outer(boundaries, chain.drop_first())
    }
}

/// The nearest outer boundary around a contour.
pub open spec fn closest_outer(contours: Seq<Contour>, rule: FillRule, index: int) -> Option<int> {
    first_outer(roles(contours, rule), ancestors(contours, index))
}

/// Whether contour `hole` is cut out of the polygon that `outer` bounds.
pub open spec fn is_hole_of(
    contours: Seq<Contour>,
    rule: FillRule,
    hole: int,
    outer: int,
) -> bool {
    &&& role(contours, rule, hole) == Boundary::Hole
    &&& closest_outer(contours, rule, hole) == Some(outer)
}

/// The contours that bound a polygon, among the first `count`.
pub open spec fn outers(contours: Seq<Contour>, rule: FillRule, count: nat) -> Seq<int>
    decreases count,
{
    if count == 0 {
        Seq::empty()
    } else if role(contours, rule, count - 1) == Boundary::Outer {
        outers(contours, rule, (count - 1) as nat).push(count - 1)
    } else {
        outers(contours, rule, (count - 1) as nat)
    }
}

/// The contours that are cut out of the polygon that `outer` bounds, among the first
/// `count`.
pub open spec fn holes(contours: Seq<Contour>, rule: FillRule, outer: int, count: nat) -> Seq<int>
    decreases count,
{
    if count == 0 {
        Seq::empty()
    } else if is_hole_of(contours, rule, count - 1, outer) {
        holes(contours, rule, outer, (count - 1) as nat).push(count - 1)
    } else {
        holes(contours, rule, outer, (count - 1) as nat)
    }
}

/// The curves of some contours.
pub open spec fn paths(contours: Seq<Contour>, indices: Seq<int>) -> Seq<BezierPath> {
    Seq::new(indices.len(), |i: int| contours[indices[i]].path)
}

/// What becomes of the polygon that `outer` bounds.
pub open spec fn polygon_of(contours: Seq<Contour>, rule: FillRule, outer: int) -> Option<
    BezierPolygon,
> {
    document::polygon_from_rings(
        contours[outer].path,
        paths(contours, holes(contours, rule, outer, contours.len())),
    )
}

/// The polygons that some outer boundaries give, if all of them can be built.
pub open spec fn polygons_of(contours: Seq<Contour>, rule: FillRule, bounds: Seq<int>) -> Option<
    Seq<BezierPolygon>,
>
    decreases bounds.len(),
{
    if bounds.len() == 0 {
        Some(Seq::empty())
    } else {
        match (
            polygons_of(contours, rule, bounds.drop_last()),
            polygon_of(contours, rule, bounds.last()),
        ) {
            (Some(earlier), Some(polygon)) => Some(earlier.push(polygon)),
            _ => None,
        }
    }
}

/// The polygons that fill an outline, if all of them can be built.
pub open spec fn polygons(contours: Seq<Contour>, rule: FillRule) -> Option<Seq<BezierPolygon>> {
    polygons_of(contours, rule, outers(contours, rule, contours.len()))
}

/// The explanation of a polygon that cannot be built.
pub open spec fn polygon_failure() -> Seq<char> {
    "could not create an OMAP polygon: "@ + "invalid Bézier path"@
}

/// A list of parents as indices.
pub open spec fn are_parents(contours: Seq<Contour>, parents: Seq<Option<usize>>) -> bool {
    &&& parents.len() == contours.len()
    &&& forall|i: int|
        0 <= i < contours.len() ==> match #[trigger] parents[i] {
            Some(p) => parent(contours, i) == Some(p as int),
            None => parent(contours, i) is None,
        }
}

/// Finds the contour directly around every contour.
pub fn classify_parents(contours: &Vec<Contour>) -> (parents: Vec<Option<usize>>)
    ensures
        are_parents(contours@, parents@),
        parents@.len() == contours@.len(),
        forall|i: int|
            0 <= i < contours@.len() ==> (#[trigger] parents@[i] is Some <==> parent(
                contours@,
                i,
            ) is Some),
        forall|i: int|
            0 <= i < contours@.len() && #[trigger] parents@[i] is Some ==> parent(contours@, i)
                == Some(parents@[i]->Some_0 as int),
{
    let mut parents: Vec<Option<usize>> = Vec::new();
    let mut child: usize = 0;
    while child < contours.len()
        invariant
            child <= contours.len(),
            parents.len() == child,
            forall|i: int|
                0 <= i < child ==> match #[trigger] parents@[i] {
                    Some(p) => parent(contours@, i) == Some(p as int),
                    None => parent(contours@, i) is None,
                },
        decreases contours.len() - child,
    {
        let child_area = contours[child].signed_area.abs();
        let mut best: Option<usize> = None;
        let mut candidate: usize = 0;
        while candidate < contours.len()
            invariant
                child < contours.len(),
                candidate <= contours.len(),
                child_area == area(contours@, child as int),
                best is None ==> forall|other: int|
                    other < candidate ==> !#[trigger] is_candidate(
                        contours@,
                        child as int,
                        other,
                    ),
                best matches Some(b) ==> {
                    &&& b < candidate
                    &&& is_candidate(contours@, child as int, b as int)
                    &&& forall|other: int| #[trigger]
                        is_candidate(contours@, child as int, other) && other < candidate ==> {
                            ||| area(contours@, b as int).units() < area(contours@, other).units()
                            ||| area(contours@, b as int).units() == area(contours@, other).units()
                                && b <= other
                        }
                },
            decreases contours.len() - candidate,
        {
            let candidate_area = contours[candidate].signed_area.abs();
            if candidate != child && child_area.is_less_than(candidate_area)
                && contours[child].surroundings.is_in(candidate) {
                assert(is_candidate(contours@, child as int, candidate as int));
                match best {
                    None => {
                        best = Some(candidate);
                    },
                    Some(b) => {
                        if candidate_area.is_less_than(contours[b].signed_area.abs()) {
                            best = Some(candidate);
                        }
                    },
                }
            } else {
                assert(!is_candidate(contours@, child as int, candidate as int));
            }
            candidate += 1;
        }
        proof {
            lemma_parent(contours@, child as int);
            match best {
                Some(b) => {
                    assert(is_nearest(contours@, child as int, b as int));
                },
                None => {},
            }
        }
        parents.push(best);
        child += 1;
    }
    parents
}

/// The direction of travel of a contour.
fn winding_sign(signed_area: Binary64) -> (result: i64)
    ensures
        result == if signed_area.is_negative() {
            -1int
        } else {
            1int
        },
{
    if signed_area.is_sign_positive() {
        1
    } else {
        -1
    }
}

/// Winding counts add up.
pub proof fn lemma_winding_concat(contours: Seq<Contour>, first: Seq<int>, second: Seq<int>)
    ensures
        winding(contours, first + second) == winding(contours, first) + winding(contours, second),
    decreases second.len(),
{
    if second.len() == 0 {
        assert(first + second == first);
    } else {
        assert((first + second).drop_last() == first + second.drop_last());
        lemma_winding_concat(contours, first, second.drop_last());
    }
}

/// Decides what a contour separates.
pub fn boundary_kind(
    index: usize,
    contours: &Vec<Contour>,
    parents: &Vec<Option<usize>>,
    rule: FillRule,
) -> (result: Boundary)
    requires
        index < contours.len(),
        are_parents(contours@, parents@),
    ensures
        result == boundary(contours@, rule, index as int),
{
    let mut odd_depth = false;
    let mut outside_winding: i64 = 0;
    let mut current: usize = index;
    let ghost mut passed: Seq<int> = Seq::empty();
    proof {
        assert(passed + ancestors(contours@, index as int) == ancestors(contours@, index as int));
    }
    while parents[current].is_some()
        invariant
            index < contours.len(),
            current < contours.len(),
            are_parents(contours@, parents@),
            ancestors(contours@, index as int) == passed + ancestors(contours@, current as int),
            outside_winding == winding(contours@, passed),
            odd_depth == (passed.len() % 2 == 1),
            outside_winding == 0 || area(contours@, current as int).magnitude() <= INFINITY_BITS,
            -area(contours@, current as int).magnitude() <= outside_winding <= area(
                contours@,
                current as int,
            ).magnitude(),
        decreases SIGN_BIT - area(contours@, current as int).magnitude(),
    {
        let enclosing: usize = parents[current].unwrap();
        proof {
            lemma_parent(contours@, current as int);
            assert(is_candidate(contours@, current as int, enclosing as int));
            assert(ancestors(contours@, current as int) == seq![enclosing as int] + ancestors(
                contours@,
                enclosing as int,
            ));
            assert(passed.push(enclosing as int).drop_last() == passed);
            assert(passed + (seq![enclosing as int] + ancestors(contours@, enclosing as int))
                == passed.push(enclosing as int) + ancestors(contours@, enclosing as int));
            passed = passed.push(enclosing as int);
        }
        odd_depth = !odd_depth;
        outside_winding = outside_winding + winding_sign(contours[enclosing].signed_area);
        current = enclosing;
    }
    let inside_winding: i64 = outside_winding + winding_sign(contours[index].signed_area);
    proof {
        assert(ancestors(contours@, current as int).len() == 0);
        assert(passed == ancestors(contours@, index as int));
        let own = seq![index as int];
        lemma_winding_concat(contours@, own, passed);
        assert(own.drop_last().len() == 0);
        assert(winding(contours@, own) == winding(contours@, own.drop_last()) + sign(
            contours@,
            index as int,
        ));
    }
    let (outside_filled, inside_filled) = match rule {
        FillRule::EvenOdd => (odd_depth, !odd_depth),
        FillRule::NonZero => (outside_winding != 0, inside_winding != 0),
    };
    match (outside_filled, inside_filled) {
        (false, true) => Boundary::Outer,
        (true, false) => Boundary::Hole,
        _ => Boundary::Redundant,
    }
}

/// Finds the nearest outer boundary around a contour.
pub fn closest_outer_ancestor(
    index: usize,
    contours: &Vec<Contour>,
    parents: &Vec<Option<usize>>,
    boundaries: &Vec<Boundary>,
) -> (result: Option<usize>)
    requires
        index < contours.len(),
        are_parents(contours@, parents@),
        boundaries.len() == contours.len(),
    ensures
        match result {
            Some(outer) => outer < contours.len() && first_outer(
                boundaries@,
                ancestors(contours@, index as int),
            ) == Some(outer as int),
            None => first_outer(boundaries@, ancestors(contours@, index as int)) is None,
        },
{
    let mut current: usize = index;
    while parents[current].is_some()
        invariant
            index < contours.len(),
            current < contours.len(),
            are_parents(contours@, parents@),
            boundaries.len() == contours.len(),
            first_outer(boundaries@, ancestors(contours@, index as int)) == first_outer(
                boundaries@,
                ancestors(contours@, current as int),
            ),
        decreases SIGN_BIT - area(contours@, current as int).magnitude(),
    {
        let enclosing: usize = parents[current].unwrap();
        proof {
            lemma_parent(contours@, current as int);
            assert(is_candidate(contours@, current as int, enclosing as int));
            assert(ancestors(contours@, current as int).drop_first() == ancestors(
                contours@,
                enclosing as int,
            ));
        }
        if boundaries[enclosing] == Boundary::Outer {
            return Some(enclosing);
        }
        current = enclosing;
    }
    None
}

/// The contours of one polygon, by their position in the outline.
#[derive(Debug)]
pub struct RingGroup {
    /// The contour that bounds the polygon.
    pub outer: usize,
    /// The contours that are cut out of it.
    pub holes: Vec<usize>,
}

/// Positions as mathematical integers.
pub open spec fn positions(indices: Seq<usize>) -> Seq<int> {
    Seq::new(indices.len(), |i: int| indices[i] as int)
}

/// Whether a list of groups holds exactly the polygons of an outline, in order.
pub open spec fn are_groups(
    contours: Seq<Contour>,
    rule: FillRule,
    bounds: Seq<int>,
    groups: Seq<RingGroup>,
) -> bool {
    &&& groups.len() == bounds.len()
    &&& forall|k: int|
        0 <= k < groups.len() ==> {
            &&& (#[trigger] groups[k]).outer == bounds[k]
            &&& positions(groups[k].holes@) == holes(contours, rule, bounds[k], contours.len())
        }
}

/// Finds the part that every contour plays.
fn contour_roles(
    contours: &Vec<Contour>,
    parents: &Vec<Option<usize>>,
    rule: FillRule,
) -> (boundaries: Vec<Boundary>)
    requires
        are_parents(contours@, parents@),
    ensures
        boundaries@ == roles(contours@, rule),
{
    let mut boundaries: Vec<Boundary> = Vec::new();
    let negligible = Binary64 { bits: NEGLIGIBLE_AREA_BITS };
    let mut index: usize = 0;
    while index < contours.len()
        invariant
            index <= contours.len(),
            are_parents(contours@, parents@),
            negligible == (Binary64 { bits: NEGLIGIBLE_AREA_BITS }),
            boundaries.len() == index,
            forall|i: int| 0 <= i < index ==> #[trigger] boundaries@[i] == role(contours@, rule, i),
        decreases contours.len() - index,
    {
        if negligible.is_less_than(contours[index].signed_area.abs()) {
            boundaries.push(boundary_kind(index, contours, parents, rule));
        } else {
            boundaries.push(Boundary::Redundant);
        }
        index += 1;
    }
    boundaries
}

/// Lists the holes of the polygon that one contour bounds.
fn holes_of(
    outer: usize,
    contours: &Vec<Contour>,
    parents: &Vec<Option<usize>>,
    boundaries: &Vec<Boundary>,
    rule: FillRule,
) -> (result: Vec<usize>)
    requires
        are_parents(contours@, parents@),
        boundaries@ == roles(contours@, rule),
    ensures
        positions(result@) == holes(contours@, rule, outer as int, contours@.len()),
        forall|i: int| 0 <= i < result.len() ==> #[trigger] result@[i] < contours.len(),
{
    let mut result: Vec<usize> = Vec::new();
    let mut index: usize = 0;
    while index < contours.len()
        invariant
            index <= contours.len(),
            are_parents(contours@, parents@),
            boundaries@ == roles(contours@, rule),
            positions(result@) == holes(contours@, rule, outer as int, index as nat),
            forall|i: int| 0 <= i < result.len() ==> #[trigger] result@[i] < contours.len(),
        decreases contours.len() - index,
    {
        if boundaries[index] == Boundary::Hole {
            let closest = closest_outer_ancestor(index, contours, parents, boundaries);
            if closest.is_some() && closest.unwrap() == outer {
                let ghost earlier = result@;
                result.push(index);
                assert(positions(result@) == positions(earlier).push(index as int));
            }
        }
        index += 1;
    }
    result
}

/// Sorts the contours of an outline into polygons, each with its holes.
pub fn group_rings(contours: &Vec<Contour>, rule: FillRule) -> (groups: Vec<RingGroup>)
    ensures
        are_groups(contours@, rule, outers(contours@, rule, contours@.len()), groups@),
        groups@.len() == outers(contours@, rule, contours@.len()).len(),
        forall|k: int|
            0 <= k < groups@.len() ==> (#[trigger] groups@[k]).outer == outers(
                contours@,
                rule,
                contours@.len(),
            )[k],
        forall|k: int, i: int|
            0 <= k < groups@.len() && 0 <= i < groups@[k].holes@.len() ==> (
            #[trigger] groups@[k].holes@[i]) == holes(
                contours@,
                rule,
                groups@[k].outer as int,
                contours@.len(),
            )[i],
        forall|k: int|
            0 <= k < groups@.len() ==> (#[trigger] groups@[k]).holes@.len() == holes(
                contours@,
                rule,
                groups@[k].outer as int,
                contours@.len(),
            ).len(),
        forall|k: int|
            0 <= k < groups.len() ==> {
                &&& (#[trigger] groups@[k]).outer < contours.len()
                &&& forall|i: int|
                    0 <= i < groups@[k].holes.len() ==> #[trigger] groups@[k].holes@[i]
                        < contours.len()
            },
{
    let parents = classify_parents(contours);
    let boundaries = contour_roles(contours, &parents, rule);
    let mut groups: Vec<RingGroup> = Vec::new();
    let mut outer: usize = 0;
    while outer < contours.len()
        invariant
            outer <= contours.len(),
            are_parents(contours@, parents@),
            boundaries@ == roles(contours@, rule),
            are_groups(contours@, rule, outers(contours@, rule, outer as nat), groups@),
            forall|k: int|
                0 <= k < groups.len() ==> {
                    &&& (#[trigger] groups@[k]).outer < contours.len()
                    &&& forall|i: int|
                        0 <= i < groups@[k].holes.len() ==> #[trigger] groups@[k].holes@[i]
                            < contours.len()
                },
        decreases contours.len() - outer,
    {
        if boundaries[outer] == Boundary::Outer {
            let holes = holes_of(outer, contours, &parents, &boundaries, rule);
            groups.push(RingGroup { outer, holes });
        }
        outer += 1;
    }
    proof {
        assert forall|k: int, i: int|
            0 <= k < groups@.len() && 0 <= i < groups@[k].holes@.len() implies (
        #[trigger] groups@[k].holes@[i]) == holes(
            contours@,
            rule,
            groups@[k].outer as int,
            contours@.len(),
        )[i] by {
            assert(positions(groups@[k].holes@)[i] == groups@[k].holes@[i] as int);
        }
        assert forall|k: int| 0 <= k < groups@.len() implies (
        #[trigger] groups@[k]).holes@.len() == holes(
            contours@,
            rule,
            groups@[k].outer as int,
            contours@.len(),
        ).len() by {
            assert(positions(groups@[k].holes@).len() == groups@[k].holes@.len());
        }
    }
    groups
}

/// Builds the polygons that fill an outline.
pub fn path_to_polygons(contours: &Vec<Contour>, rule: FillRule) -> (result: Result<
    Vec<BezierPolygon>,
    ConversionError,
>)
    ensures
        match polygons(contours@, rule) {
            Some(expected) => result matches Ok(built) && built@ == expected,
            None => result matches Err(error) && error@ == polygon_failure(),
        },
        result matches Err(error) ==> error@ == "could not create an OMAP polygon: "@
            + "invalid Bézier path"@,
{
    let groups = group_rings(contours, rule);
    let ghost bounds = outers(contours@, rule, contours@.len());
    let mut built: Vec<BezierPolygon> = Vec::new();
    let mut position: usize = 0;
    proof {
        assert(bounds.take(0).len() == 0);
    }
    while position < groups.len()
        invariant
            position <= groups.len(),
            bounds == outers(contours@, rule, contours@.len()),
            are_groups(contours@, rule, bounds, groups@),
            forall|k: int|
                0 <= k < groups.len() ==> {
                    &&& (#[trigger] groups@[k]).outer < contours.len()
                    &&& forall|i: int|
                        0 <= i < groups@[k].holes.len() ==> #[trigger] groups@[k].holes@[i]
                            < contours.len()
                },
            polygons_of(contours@, rule, bounds.take(position as int)) == Some(built@),
        decreases groups.len() - position,
    {
        let group = &groups[position];
        let ghost done = bounds.take(position as int + 1);
        proof {
            assert(done.drop_last() == bounds.take(position as int));
            assert(done.last() == bounds[position as int]);
        }
        let interiors = clone_paths(contours, &group.holes);
        match document::new_polygon(contours[group.outer].path.clone(), interiors) {
            Ok(polygon) => {
                built.push(polygon);
            },
            Err(text) => {
                proof {
                    lemma_polygons_of_prefix(contours@, rule, bounds, position as int + 1);
                }
                let mut message = "could not create an OMAP polygon: ".to_owned();
                message.append(text.as_str());
                return Err(ConversionError::new(message));
            },
        }
        position += 1;
    }
    proof {
        assert(bounds.take(position as int) == bounds);
    }
    Ok(built)
}

/// Copies the curves of some contours.
fn clone_paths(contours: &Vec<Contour>, indices: &Vec<usize>) -> (result: Vec<BezierPath>)
    requires
        forall|i: int| 0 <= i < indices.len() ==> #[trigger] indices@[i] < contours.len(),
    ensures
        result@ == paths(contours@, positions(indices@)),
{
    let mut result: Vec<BezierPath> = Vec::new();
    let mut position: usize = 0;
    while position < indices.len()
        invariant
            position <= indices.len(),
            forall|i: int| 0 <= i < indices.len() ==> #[trigger] indices@[i] < contours.len(),
            result@ == paths(contours@, positions(indices@.take(position as int))),
        decreases indices.len() - position,
    {
        result.push(contours[indices[position]].path.clone());
        position += 1;
    }
    proof {
        assert(indices@.take(position as int) == indices@);
    }
    result
}

/// If one of the first polygons cannot be built, the outline cannot be filled.
proof fn lemma_polygons_of_prefix(
    contours: Seq<Contour>,
    rule: FillRule,
    bounds: Seq<int>,
    count: int,
)
    requires
        0 <= count <= bounds.len(),
        polygons_of(contours, rule, bounds.take(count)) is None,
    ensures
        polygons_of(contours, rule, bounds) is None,
    decreases bounds.len(),
{
    if count == bounds.len() {
        assert(bounds.take(count) == bounds);
    } else {
        assert(bounds.drop_last().take(count) == bounds.take(count));
        lemma_polygons_of_prefix(contours, rule, bounds.drop_last(), count);
    }
}

} // verus!
