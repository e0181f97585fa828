//! What it means to fill an outline, said of labels on its contours.
//!
//! Every contour is labelled with the contour directly around it, with how deep it lies, with
//! how often its inside is wound around, and with the polygon that it would be cut out of.
//! Each label follows from that of the contour directly around. The polygons of an outline are
//! then read off the labels.

use crate::document;
use crate::ring_laws;
use crate::rings;
use crate::rings::{Boundary, Contour, FillRule};
use crate::binary64::{Binary64, INFINITY_BITS, SIGN_BIT};
use omap::objects::BezierPolygon;
use vstd::arithmetic::power2;
use vstd::prelude::*;

verus! {

/// Labels on the contours of an outline.
pub struct Labels {
    /// The contour directly around each contour.
    pub around: Seq<Option<int>>,
    /// How many contours lie around the inside of each contour, itself included.
    pub depth: Seq<int>,
    /// How often the inside of each contour is wound around.
    pub turns: Seq<int>,
    /// The nearest contour around each contour that bounds a polygon.
    pub owner: Seq<Option<int>>,
}

/// The size of a contour.
pub open spec fn size(contour: Contour) -> int {
    if contour.signed_area.units() < 0 {
        -contour.signed_area.units()
    } else {
        contour.signed_area.units()
    }
}

/// Whether one contour is larger than another and has the start of the other inside.
pub open spec fn surrounds(contours: Seq<Contour>, outer: int, inner: int) -> bool {
    &&& 0 <= outer < contours.len()
    &&& outer != inner
    &&& !contours[outer].signed_area.is_nan()
    &&& !contours[inner].signed_area.is_nan()
    &&& size(contours[inner]) < size(contours[outer])
    &&& contours[inner].surroundings.lies_in(outer)
}

/// Whether a contour is larger than the rounding unit of the numbers: two to the power of
/// minus fifty-two square millimetres.
pub open spec fn is_large(contour: Contour) -> bool {
    !contour.signed_area.is_nan() && size(contour) > power2::pow2(1022)
}

impl Labels {
    /// How deep the ground just outside a contour lies.
    pub open spec fn depth_outside(self, index: int) -> int {
        match self.around[index] {
            None => 0,
            Some(outer) => self.depth[outer],
        }
    }

    /// How often the ground just outside a contour is wound around.
    pub open spec fn turns_outside(self, index: int) -> int {
        match self.around[index] {
            None => 0,
            Some(outer) => self.turns[outer],
        }
    }

    /// Whether the ground just outside a contour is filled.
    pub open spec fn filled_outside(self, rule: FillRule, index: int) -> bool {
        match rule {
            FillRule::EvenOdd => self.depth_outside(index) % 2 == 1,
            FillRule::NonZero => self.turns_outside(index) != 0,
        }
    }

    /// Whether the ground just inside a contour is filled.
    pub open spec fn filled_inside(self, rule: FillRule, index: int) -> bool {
        match rule {
            FillRule::EvenOdd => self.depth[index] % 2 == 1,
            FillRule::NonZero => self.turns[index] != 0,
        }
    }

    /// Whether a contour bounds a polygon.
    pub open spec fn bounds(self, contours: Seq<Contour>, rule: FillRule, index: int) -> bool {
        &&& is_large(contours[index])
        &&& !self.filled_outside(rule, index)
        &&& self.filled_inside(rule, index)
    }

    /// Whether a contour is cut out of the polygon that another one bounds.
    pub open spec fn is_cut_out(
        self,
        contours: Seq<Contour>,
        rule: FillRule,
        index: int,
        outer: int,
    ) -> bool {
        &&& is_large(contours[index])
        &&& self.filled_outside(rule, index)
        &&& !self.filled_inside(rule, index)
        &&& self.owner[index] == Some(outer)
    }

    /// Whether the label of one contour follows from that of the contour around it.
    pub open spec fn fits_at(self, contours: Seq<Contour>, rule: FillRule, index: int) -> bool {
        &&& match self.around[index] {
            None => forall|other: int| !#[trigger] surrounds(contours, other, index),
            Some(outer) => {
                &&& surrounds(contours, outer, index)
                &&& forall|other: int| #[trigger]
                    surrounds(contours, other, index) ==> size(contours[outer]) < size(
                        contours[other],
                    ) || size(contours[outer]) == size(contours[other]) && outer <= other
            },
        }
        &&& self.depth[index] == self.depth_outside(index) + 1
        &&& self.turns[index] == self.turns_outside(index) + if contours[index].signed_area.bits
            >= 0x8000_0000_0000_0000u64 {
            -1int
        } else {
            1int
        }
        &&& self.owner[index] == match self.around[index] {
            None => None,
            Some(outer) => if self.bounds(contours, rule, outer) {
                Some(outer)
            } else {
                self.owner[outer]
            },
        }
    }

    /// Whether the labels are those of an outline.
    pub open spec fn fit(self, contours: Seq<Contour>, rule: FillRule) -> bool {
        &&& self.around.len() == contours.len()
        &&& self.depth.len() == contours.len()
        &&& self.turns.len() == contours.len()
        &&& self.owner.len() == contours.len()
        &&& forall|index: int|
            0 <= index < contours.len() ==> #[trigger] self.fits_at(contours, rule, index)
    }
}

/// Whether a list names some contours in order, each once.
pub open spec fn is_ascending(list: Seq<int>) -> bool {
    forall|i: int, j: int| 0 <= i < j < list.len() ==> #[trigger] list[i] < #[trigger] list[j]
}

/// Whether a list names, in order, the contours that bound polygons.
pub open spec fn names_bounds(
    labels: Labels,
    contours: Seq<Contour>,
    rule: FillRule,
    list: Seq<int>,
) -> bool {
    &&& is_ascending(list)
    &&& forall|index: int| #[trigger]
        list.contains(index) <==> 0 <= index < contours.len() && labels.bounds(
            contours,
            rule,
            index,
        )
}

/// Whether a list names, in order, the contours that are cut out of one polygon.
pub open spec fn names_cuts(
    labels: Labels,
    contours: Seq<Contour>,
    rule: FillRule,
    outer: int,
    list: Seq<int>,
) -> bool {
    &&& is_ascending(list)
    &&& forall|index: int| #[trigger]
        list.contains(index) <==> 0 <= index < contours.len() && labels.is_cut_out(
            contours,
            rule,
            index,
            outer,
        )
}

/// Size and order of numbers without their sign.
proof fn lemma_sizes(contours: Seq<Contour>, index: int)
    ensures
        rings::area(contours, index).units() == size(contours[index]),
        rings::area(contours, index).is_nan() == contours[index].signed_area.is_nan(),
        rings::is_negligible(contours, index) == !is_large(contours[index]),
{
    let area = contours[index].signed_area;
    assert(area.absolute().magnitude() == area.magnitude());
    let negligible = Binary64 { bits: rings::NEGLIGIBLE_AREA_BITS };
    power2::lemma_pow2_adds(970, 52);
    power2::lemma_pow2_adds(32, 20);
    power2::lemma2_to64();
    assert(power2::pow2(52) == 0x10_0000_0000_0000);
    assert(negligible.units() == 0x10_0000_0000_0000 * power2::pow2(970));
    let unit = power2::pow2(970);
    assert(0x10_0000_0000_0000 * unit == unit * 0x10_0000_0000_0000) by (nonlinear_arith);
}

/// The label for the contour around is the one that the classification finds.
proof fn lemma_around(labels: Labels, contours: Seq<Contour>, rule: FillRule, index: int)
    requires
        labels.fit(contours, rule),
        0 <= index < contours.len(),
    ensures
        labels.around[index] == rings::parent(contours, index),
        labels.around[index] matches Some(outer) ==> {
            &&& 0 <= outer < contours.len()
            &&& rings::area(contours, index).magnitude() < rings::area(contours, outer).magnitude()
                <= INFINITY_BITS
        },
{
    assert(labels.fits_at(contours, rule, index));
    assert forall|other: int| #[trigger]
        rings::is_candidate(contours, index, other) == surrounds(contours, other, index) by {
        lemma_sizes(contours, index);
        lemma_sizes(contours, other);
    }
    rings::lemma_parent(contours, index);
    match labels.around[index] {
        None => {
            if exists|other: int| rings::is_candidate(contours, index, other) {
                let other = choose|other: int| rings::is_candidate(contours, index, other);
                assert(surrounds(contours, other, index));
            }
        },
        Some(outer) => {
            assert(rings::is_candidate(contours, index, outer));
            assert forall|other: int| #[trigger]
                rings::is_candidate(contours, index, other) implies {
                ||| rings::area(contours, outer).units() < rings::area(contours, other).units()
                ||| rings::area(contours, outer).units() == rings::area(contours, other).units()
                    && outer <= other
            } by {
                assert(surrounds(contours, other, index));
                lemma_sizes(contours, outer);
                lemma_sizes(contours, other);
            }
            assert(rings::is_nearest(contours, index, outer));
        },
    }
}

/// Depth and turns are those of the contours around.
proof fn lemma_depth_and_turns(labels: Labels, contours: Seq<Contour>, rule: FillRule, index: int)
    requires
        labels.fit(contours, rule),
        0 <= index < contours.len(),
    ensures
        labels.depth[index] == rings::ancestors(contours, index).len() + 1,
        labels.turns[index] == rings::winding(
            contours,
            seq![index] + rings::ancestors(contours, index),
        ),
        labels.depth_outside(index) == rings::ancestors(contours, index).len(),
        labels.turns_outside(index) == rings::winding(contours, rings::ancestors(contours, index)),
        labels.filled_outside(rule, index) == rings::is_filled(
            contours,
            rule,
            rings::ancestors(contours, index),
        ),
        labels.filled_inside(rule, index) == rings::is_filled(
            contours,
            rule,
            seq![index] + rings::ancestors(contours, index),
        ),
        labels.bounds(contours, rule, index) == (rings::role(contours, rule, index)
            == Boundary::Outer),
    decreases SIGN_BIT - rings::area(contours, index).magnitude(),
{
    assert(labels.fits_at(contours, rule, index));
    lemma_around(labels, contours, rule, index);
    lemma_sizes(contours, index);
    let outside = rings::ancestors(contours, index);
    match labels.around[index] {
        None => {
            assert(outside == Seq::<int>::empty());
        },
        Some(outer) => {
            lemma_depth_and_turns(labels, contours, rule, outer);
            assert(outside == seq![outer] + rings::ancestors(contours, outer));
        },
    }
    rings::lemma_winding_concat(contours, seq![index], outside);
    assert(seq![index].drop_last() =~= Seq::empty());
    assert(rings::winding(contours, seq![index]) == rings::winding(
        contours,
        seq![index].drop_last(),
    ) + rings::sign(contours, index));
}

/// The label for the polygon is the nearest outer boundary.
proof fn lemma_owner(labels: Labels, contours: Seq<Contour>, rule: FillRule, index: int)
    requires
        labels.fit(contours, rule),
        0 <= index < contours.len(),
    ensures
        labels.owner[index] == rings::closest_outer(contours, rule, index),
    decreases SIGN_BIT - rings::area(contours, index).magnitude(),
{
    assert(labels.fits_at(contours, rule, index));
    lemma_around(labels, contours, rule, index);
    match labels.around[index] {
        None => {},
        Some(outer) => {
            lemma_owner(labels, contours, rule, outer);
            lemma_depth_and_turns(labels, contours, rule, outer);
            let further = rings::ancestors(contours, outer);
            let outside = rings::ancestors(contours, index);
            assert(outside == seq![outer] + further);
            assert(outside.drop_first() =~= further);
        },
    }
}

/// Ascending lists of the same numbers are the same.
proof fn lemma_ascending_lists_agree(first: Seq<int>, second: Seq<int>)
    requires
        is_ascending(first),
        is_ascending(second),
        forall|x: int| #[trigger] first.contains(x) <==> second.contains(x),
    ensures
        first == second,
    decreases first.len(),
{
    if first.len() == 0 {
        if second.len() > 0 {
            assert(second.contains(second[0]));
            assert(first.contains(second[0]));
        }
        assert(first =~= second);
    } else {
        let a = first.last();
        assert(first.contains(a));
        assert(second.contains(a));
        let b = second.last();
        assert(second.contains(b));
        assert(first.contains(b));
        let i = choose|i: int| 0 <= i < first.len() && first[i] == b;
        let j = choose|j: int| 0 <= j < second.len() && second[j] == a;
        assert(a == b) by {
            if i < first.len() - 1 {
                assert(first[i] < first[first.len() - 1]);
            }
            if j < second.len() - 1 {
                assert(second[j] < second[second.len() - 1]);
            }
        }
        let c = first.drop_last();
        let d = second.drop_last();
        assert forall|x: int| #[trigger] c.contains(x) <==> d.contains(x) by {
            if c.contains(x) {
                let k = choose|k: int| 0 <= k < c.len() && c[k] == x;
                assert(first[k] == x && first[k] < first[first.len() - 1]);
                assert(first.contains(x));
                let l = choose|l: int| 0 <= l < second.len() && second[l] == x;
                assert(d[l] == x);
            }
            if d.contains(x) {
                let k = choose|k: int| 0 <= k < d.len() && d[k] == x;
                assert(second[k] == x && second[k] < second[second.len() - 1]);
                assert(second.contains(x));
                assert(first.contains(x));
                let l = choose|l: int| 0 <= l < first.len() && first[l] == x;
                assert(c[l] == x);
            }
        }
        assert forall|i: int, j: int| 0 <= i < j < c.len() implies #[trigger] c[i]
            < #[trigger] c[j] by {
            assert(c[i] == first[i] && c[j] == first[j]);
        }
        assert forall|i: int, j: int| 0 <= i < j < d.len() implies #[trigger] d[i]
            < #[trigger] d[j] by {
            assert(d[i] == second[i] && d[j] == second[j]);
        }
        lemma_ascending_lists_agree(c, d);
        assert(first =~= c.push(a));
        assert(second =~= d.push(b));
    }
}

/// The lists that the classification makes are ascending.
proof fn lemma_lists_ascend(contours: Seq<Contour>, rule: FillRule, outer: int, count: nat)
    ensures
        is_ascending(rings::outers(contours, rule, count)),
        is_ascending(rings::holes(contours, rule, outer, count)),
    decreases count,
{
    ring_laws::lemma_outers_members(contours, rule, count);
    ring_laws::lemma_holes_members(contours, rule, outer, count);
    if count > 0 {
        let less = (count - 1) as nat;
        lemma_lists_ascend(contours, rule, outer, less);
        ring_laws::lemma_outers_members(contours, rule, less);
        ring_laws::lemma_holes_members(contours, rule, outer, less);
        let a = rings::outers(contours, rule, less);
        let b = rings::holes(contours, rule, outer, less);
        assert forall|i: int| 0 <= i < a.len() implies #[trigger] a[i] < less by {
            assert(a.contains(a[i]));
        }
        assert forall|i: int| 0 <= i < b.len() implies #[trigger] b[i] < less by {
            assert(b.contains(b[i]));
        }
    }
}

/// An outline can be labelled in one way only: what the classification says of a contour is
/// what any fitting labels say.
pub proof fn law_labels_are_unique(
    labels: Labels,
    contours: Seq<Contour>,
    rule: FillRule,
    index: int,
)
    requires
        labels.fit(contours, rule),
        0 <= index < contours.len(),
    ensures
        rings::parent(contours, index) == labels.around[index],
        rings::role(contours, rule, index) == if labels.bounds(contours, rule, index) {
            Boundary::Outer
        } else if is_large(contours[index]) && labels.filled_outside(rule, index)
            && !labels.filled_inside(rule, index) {
            Boundary::Hole
        } else {
            Boundary::Redundant
        },
        rings::closest_outer(contours, rule, index) == labels.owner[index],
        rings::boundary(contours, rule, index) == if labels.filled_outside(rule, index)
            == labels.filled_inside(rule, index) {
            Boundary::Redundant
        } else if labels.filled_inside(rule, index) {
            Boundary::Outer
        } else {
            Boundary::Hole
        },
        rings::ancestors(contours, index) == match labels.around[index] {
            None => Seq::<int>::empty(),
            Some(outer) => seq![outer] + rings::ancestors(contours, outer),
        },
{
    lemma_around(labels, contours, rule, index);
    lemma_depth_and_turns(labels, contours, rule, index);
    lemma_owner(labels, contours, rule, index);
    lemma_sizes(contours, index);
}

/// Every outline can be labelled.
pub proof fn law_every_outline_has_labels(contours: Seq<Contour>, rule: FillRule)
    ensures
        exists|labels: Labels| labels.fit(contours, rule),
{
    let labels = Labels {
        around: Seq::new(contours.len(), |i: int| rings::parent(contours, i)),
        depth: Seq::new(contours.len(), |i: int| (rings::ancestors(contours, i).len() + 1) as int),
        turns: Seq::new(
            contours.len(),
            |i: int| rings::winding(contours, seq![i] + rings::ancestors(contours, i)),
        ),
        owner: Seq::new(contours.len(), |i: int| rings::closest_outer(contours, rule, i)),
    };
    assert forall|index: int| 0 <= index < contours.len() implies #[trigger] labels.fits_at(
        contours,
        rule,
        index,
    ) by {
        rings::lemma_parent(contours, index);
        assert forall|other: int| #[trigger]
            surrounds(contours, other, index) == rings::is_candidate(contours, index, other) by {
            lemma_sizes(contours, index);
            lemma_sizes(contours, other);
        }
        let outside = rings::ancestors(contours, index);
        rings::lemma_winding_concat(contours, seq![index], outside);
        assert(seq![index].drop_last() =~= Seq::empty());
        assert(rings::winding(contours, seq![index]) == rings::winding(
            contours,
            seq![index].drop_last(),
        ) + rings::sign(contours, index));
        match rings::parent(contours, index) {
            None => {
                assert(outside == Seq::<int>::empty());
                assert forall|other: int| !#[trigger] surrounds(contours, other, index) by {
                    assert(!rings::is_candidate(contours, index, other));
                }
            },
            Some(outer) => {
                assert(rings::is_nearest(contours, index, outer));
                assert(rings::is_candidate(contours, index, outer));
                assert(surrounds(contours, outer, index));
                assert forall|other: int| #[trigger]
                    surrounds(contours, other, index) implies size(contours[outer]) < size(
                    contours[other],
                ) || size(contours[outer]) == size(contours[other]) && outer <= other by {
                    lemma_sizes(contours, outer);
                    lemma_sizes(contours, other);
                    assert(rings::is_candidate(contours, index, other));
                }
                let further = rings::ancestors(contours, outer);
                assert(outside == seq![outer] + further);
                assert(outside.drop_first() =~= further);
                lemma_sizes(contours, outer);
                rings::lemma_parent(contours, outer);
                match rings::parent(contours, outer) {
                    None => {
                        assert(further == Seq::<int>::empty());
                    },
                    Some(next) => {
                        assert(rings::is_candidate(contours, outer, next));
                        assert(further == seq![next] + rings::ancestors(contours, next));
                    },
                }
                assert(labels.filled_outside(rule, outer) == rings::is_filled(
                    contours,
                    rule,
                    further,
                ));
                assert(labels.filled_inside(rule, outer) == rings::is_filled(
                    contours,
                    rule,
                    seq![outer] + further,
                ));
                assert(labels.bounds(contours, rule, outer) == (rings::role(contours, rule, outer)
                    == Boundary::Outer));
            },
        }
    }
    assert(labels.fit(contours, rule));
}

/// The rings that make up one polygon.
pub open spec fn cut_polygon(contours: Seq<Contour>, outer: int, cuts: Seq<int>) -> Option<
    BezierPolygon,
> {
    document::polygon_from_rings(
        contours[outer].path,
        Seq::new(cuts.len(), |i: int| contours[cuts[i]].path),
    )
}

/// An outline is filled by one polygon for every contour that bounds filled ground, in the
/// order of these contours, with exactly those contours cut out of it that bound unfilled
/// ground within it. This holds under either fill rule. There are no polygons only if one of
/// them cannot be built.
pub proof fn law_polygons_fill_the_outline(
    labels: Labels,
    contours: Seq<Contour>,
    rule: FillRule,
    bounds: Seq<int>,
    cuts: Seq<Seq<int>>,
)
    requires
        labels.fit(contours, rule),
        names_bounds(labels, contours, rule, bounds),
        cuts.len() == bounds.len(),
        forall|k: int|
            0 <= k < bounds.len() ==> names_cuts(
                labels,
                contours,
                rule,
                bounds[k],
                #[trigger] cuts[k],
            ),
    ensures
        match rings::polygons(contours, rule) {
            Some(polygons) => {
                &&& polygons.len() == bounds.len()
                &&& forall|k: int|
                    0 <= k < bounds.len() ==> cut_polygon(contours, bounds[k], #[trigger] cuts[k])
                        == Some(polygons[k])
            },
            None => exists|k: int|
                0 <= k < bounds.len() && cut_polygon(contours, bounds[k], #[trigger] cuts[k])
                    is None,
        },
{
    let outers = rings::outers(contours, rule, contours.len());
    ring_laws::lemma_outers_members(contours, rule, contours.len());
    lemma_lists_ascend(contours, rule, 0, contours.len());
    assert forall|index: int| #[trigger] outers.contains(index) <==> bounds.contains(index) by {
        if 0 <= index < contours.len() {
            lemma_depth_and_turns(labels, contours, rule, index);
        }
    }
    lemma_ascending_lists_agree(outers, bounds);
    assert forall|k: int| 0 <= k < bounds.len() implies cut_polygon(
        contours,
        bounds[k],
        #[trigger] cuts[k],
    ) == rings::polygon_of(contours, rule, bounds[k]) by {
        let outer = bounds[k];
        let holes = rings::holes(contours, rule, outer, contours.len());
        ring_laws::lemma_holes_members(contours, rule, outer, contours.len());
        lemma_lists_ascend(contours, rule, outer, contours.len());
        assert(names_cuts(labels, contours, rule, outer, cuts[k]));
        assert forall|index: int| #[trigger] holes.contains(index) <==> cuts[k].contains(index) by {
            if 0 <= index < contours.len() {
                law_labels_are_unique(labels, contours, rule, index);
            }
        }
        lemma_ascending_lists_agree(holes, cuts[k]);
        assert(Seq::new(cuts[k].len(), |i: int| contours[cuts[k][i]].path) =~= rings::paths(
            contours,
            holes,
        ));
    }
    lemma_polygons_of(contours, rule, bounds);
    match rings::polygons(contours, rule) {
        Some(polygons) => {
            assert forall|k: int| 0 <= k < bounds.len() implies cut_polygon(
                contours,
                bounds[k],
                #[trigger] cuts[k],
            ) == Some(polygons[k]) by {
                assert(rings::polygon_of(contours, rule, bounds[k]) == Some(polygons[k]));
            }
        },
        None => {
            let k = choose|k: int|
                0 <= k < bounds.len() && rings::polygon_of(
                    contours,
                    rule,
                    #[trigger] bounds[k],
                ) is None;
            assert(cut_polygon(contours, bounds[k], cuts[k]) is None);
        },
    }
}

/// The polygons of some boundaries are those of each of them.
proof fn lemma_polygons_of(contours: Seq<Contour>, rule: FillRule, bounds: Seq<int>)
    ensures
        match rings::polygons_of(contours, rule, bounds) {
            Some(polygons) => {
                &&& polygons.len() == bounds.len()
                &&& forall|k: int|
                    0 <= k < bounds.len() ==> rings::polygon_of(
                        contours,
                        rule,
                        #[trigger] bounds[k],
                    ) == Some(polygons[k])
            },
            None => exists|k: int|
                0 <= k < bounds.len() && rings::polygon_of(contours, rule, #[trigger] bounds[k])
                    is None,
        },
    decreases bounds.len(),
{
    if bounds.len() > 0 {
        let earlier = bounds.drop_last();
        lemma_polygons_of(contours, rule, earlier);
        match rings::polygons_of(contours, rule, earlier) {
            None => {
                let k = choose|k: int|
                    0 <= k < earlier.len() && rings::polygon_of(
                        contours,
                        rule,
                        #[trigger] earlier[k],
                    ) is None;
                assert(bounds[k] == earlier[k]);
            },
            Some(polygons) => {
                assert forall|k: int| 0 <= k < earlier.len() implies rings::polygon_of(
                    contours,
                    rule,
                    #[trigger] bounds[k],
                ) == Some(polygons[k]) by {
                    assert(bounds[k] == earlier[k]);
                }
                assert(bounds[bounds.len() - 1] == bounds.last());
            },
        }
    }
}

/// The lists that [`law_polygons_fill_the_outline`] speaks of exist for every outline.
pub proof fn law_every_outline_has_bounds_and_cuts(
    labels: Labels,
    contours: Seq<Contour>,
    rule: FillRule,
    outer: int,
)
    requires
        labels.fit(contours, rule),
    ensures
        exists|bounds: Seq<int>| names_bounds(labels, contours, rule, bounds),
        exists|cuts: Seq<int>| names_cuts(labels, contours, rule, outer, cuts),
{
    let bounds = rings::outers(contours, rule, contours.len());
    let cuts = rings::holes(contours, rule, outer, contours.len());
    ring_laws::lemma_outers_members(contours, rule, contours.len());
    ring_laws::lemma_holes_members(contours, rule, outer, contours.len());
    lemma_lists_ascend(contours, rule, outer, contours.len());
    assert forall|index: int|
        0 <= index < contours.len() implies #[trigger] labels.fits_at(contours, rule, index) && (
    rings::role(contours, rule, index) == Boundary::Outer <==> labels.bounds(
        contours,
        rule,
        index,
    )) && (rings::is_hole_of(contours, rule, index, outer) <==> labels.is_cut_out(
        contours,
        rule,
        index,
        outer,
    )) by {
        law_labels_are_unique(labels, contours, rule, index);
    }
    assert forall|index: int| #[trigger]
        bounds.contains(index) <==> 0 <= index < contours.len() && labels.bounds(
            contours,
            rule,
            index,
        ) by {
        if 0 <= index < contours.len() {
            assert(labels.fits_at(contours, rule, index));
        }
    }
    assert forall|index: int| #[trigger]
        cuts.contains(index) <==> 0 <= index < contours.len() && labels.is_cut_out(
            contours,
            rule,
            index,
            outer,
        ) by {
        if 0 <= index < contours.len() {
            assert(labels.fits_at(contours, rule, index));
        }
    }
    assert(names_bounds(labels, contours, rule, bounds));
    assert(names_cuts(labels, contours, rule, outer, cuts));
}

/// Of some contours, from the inside out, the first that is an outer boundary is picked, and
/// none only if there is none.
pub proof fn law_the_nearest_outer_boundary_is_picked(
    boundaries: Seq<Boundary>,
    chain: Seq<int>,
)
    ensures
        match rings::first_outer(boundaries, chain) {
            Some(outer) => exists|k: int|
                {
                    &&& 0 <= k < chain.len()
                    &&& #[trigger] chain[k] == outer
                    &&& boundaries[outer] == Boundary::Outer
                    &&& forall|i: int|
                        0 <= i < k ==> boundaries[#[trigger] chain[i]] != Boundary::Outer
                },
            None => forall|i: int|
                0 <= i < chain.len() ==> boundaries[#[trigger] chain[i]] != Boundary::Outer,
        },
    decreases chain.len(),
{
    if chain.len() > 0 {
        if boundaries[chain[0]] == Boundary::Outer {
            assert(chain[0] == rings::first_outer(boundaries, chain).unwrap());
        } else {
            let rest = chain.drop_first();
            law_the_nearest_outer_boundary_is_picked(boundaries, rest);
            match rings::first_outer(boundaries, rest) {
                Some(outer) => {
                    let k = choose|k: int|
                        {
                            &&& 0 <= k < rest.len()
                            &&& #[trigger] rest[k] == outer
                            &&& boundaries[outer] == Boundary::Outer
                            &&& forall|i: int|
                                0 <= i < k ==> boundaries[#[trigger] rest[i]] != Boundary::Outer
                        };
                    assert(chain[k + 1] == outer);
                    assert forall|i: int| 0 <= i < k + 1 implies boundaries[#[trigger] chain[i]]
                        != Boundary::Outer by {
                        if i > 0 {
                            assert(rest[i - 1] == chain[i]);
                        }
                    }
                },
                None => {
                    assert forall|i: int| 0 <= i < chain.len() implies boundaries[
                    #[trigger] chain[i]] != Boundary::Outer by {
                        if i > 0 {
                            assert(rest[i - 1] == chain[i]);
                        }
                    }
                },
            }
        }
    }
}

} // verus!
