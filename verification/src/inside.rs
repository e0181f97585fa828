//! Whether a point lies inside a ring.
//!
//! A ray runs from the point to the right. The point is inside if the ray crosses an odd
//! number of the ring's edges.

use crate::binary64::Binary64;
use crate::outline::MapPoint;
use vstd::prelude::*;

verus! {

/// A straight edge of a ring, as seen from a point.
#[derive(Debug, Clone, Copy, PartialEq, Eq, Structural)]
pub struct Edge {
    /// The height of one end.
    pub first_y: Binary64,
    /// The height of the other end.
    pub second_y: Binary64,
    /// Where the line through both ends is at the height of the point; of no meaning if both
    /// ends are on the same side of that height.
    pub crossing_x: Binary64,
}

impl Edge {
    /// Whether the two ends are on different sides of the point's height. An end at that
    /// height counts as below it.
    pub open spec fn spans(self, y: Binary64) -> bool {
        y.less(self.first_y) != y.less(self.second_y)
    }

    /// Whether the ray from the point crosses the edge.
    pub open spec fn is_crossed_from(self, point: MapPoint) -> bool {
        self.spans(point.y) && point.x.less(self.crossing_x)
    }

    /// The same edge with its ends exchanged.
    pub open spec fn reversed(self) -> Edge {
        Edge { first_y: self.second_y, second_y: self.first_y, crossing_x: self.crossing_x }
    }
}

/// How many edges the ray from a point crosses.
pub open spec fn crossing_count(point: MapPoint, edges: Seq<Edge>) -> nat
    decreases edges.len(),
{
    if edges.len() == 0 {
        0
    } else {
        crossing_count(point, edges.drop_last()) + if edges.last().is_crossed_from(point) {
            1nat
        } else {
            0
        }
    }
}

/// Whether a point lies inside a ring.
pub open spec fn is_inside(point: MapPoint, edges: Seq<Edge>) -> bool {
    crossing_count(point, edges) % 2 == 1
}

/// Decides whether a point lies inside a ring.
pub fn point_in_polygon(point: MapPoint, edges: &Vec<Edge>) -> (inside: bool)
    ensures
        inside == is_inside(point, edges@),
{
    let mut inside = false;
    let mut position: usize = 0;
    while position < edges.len()
        invariant
            position <= edges.len(),
            inside == is_inside(point, edges@.take(position as int)),
        decreases edges.len() - position,
    {
        proof {
            let upto = edges@.take(position as int + 1);
            assert(upto.drop_last() == edges@.take(position as int));
        }
        let edge = edges[position];
        if point.y.is_less_than(edge.first_y) != point.y.is_less_than(edge.second_y) {
            if point.x.is_less_than(edge.crossing_x) {
                inside = !inside;
            }
        }
        position += 1;
    }
    proof {
        assert(edges@.take(position as int) == edges@);
    }
    inside
}

/// Where a point lies among some rings.
///
/// Rings are shown to it one after the other. What it sees of them is not kept, only whether
/// it lies inside.
pub struct Surroundings {
    start: Option<MapPoint>,
    inside: Vec<bool>,
    seen: Ghost<Seq<Seq<Edge>>>,
}

impl Surroundings {
    /// The point, if there is one.
    pub closed spec fn start(self) -> Option<MapPoint> {
        self.start
    }

    /// The edges of every ring, as seen from the point.
    pub closed spec fn seen(self) -> Seq<Seq<Edge>> {
        self.seen@
    }

    /// Whether the point lies inside a ring. Without a point, nothing does.
    pub open spec fn lies_in(self, ring: int) -> bool {
        &&& 0 <= ring < self.seen().len()
        &&& self.start() matches Some(point) && is_inside(point, self.seen()[ring])
    }

    /// What is kept of every ring is whether the point lies inside.
    #[verifier::type_invariant]
    spec fn is_faithful(self) -> bool {
        &&& self.inside@.len() == self.seen().len()
        &&& forall|i: int|
            0 <= i < self.inside@.len() ==> #[trigger] self.inside@[i] == self.lies_in(i)
    }

    /// A point, or none, that has not been shown any ring yet.
    pub fn new(start: Option<MapPoint>) -> (surroundings: Self)
        ensures
            surroundings.start() == start,
            surroundings.seen() == Seq::<Seq<Edge>>::empty(),
            forall|ring: int| !#[trigger] surroundings.lies_in(ring),
    {
        Surroundings { start, inside: Vec::new(), seen: Ghost(Seq::empty()) }
    }

    /// Shows the point one more ring.
    pub fn with_ring(self, edges: &Vec<Edge>) -> (surroundings: Self)
        ensures
            surroundings.start() == self.start(),
            surroundings.seen() == self.seen().push(edges@),
            forall|ring: int|
                ring != self.seen().len() ==> #[trigger] surroundings.lies_in(ring)
                    == self.lies_in(ring),
            surroundings.lies_in(self.seen().len() as int) == match self.start() {
                Some(point) => is_inside(point, edges@),
                None => false,
            },
    {
        proof {
            use_type_invariant(&self);
        }
        let ghost before = self;
        let answer = match self.start {
            Some(point) => point_in_polygon(point, edges),
            None => false,
        };
        let start = self.start;
        let mut inside = self.inside;
        inside.push(answer);
        let ghost seen = before.seen@.push(edges@);
        proof {
            let after = Surroundings { start, inside, seen: Ghost(seen) };
            assert forall|i: int| 0 <= i < inside@.len() implies #[trigger] inside@[i]
                == after.lies_in(i) by {
                if i < before.inside@.len() {
                    assert(before.inside@[i] == before.lies_in(i));
                }
            }
        }
        Surroundings { start, inside, seen: Ghost(seen) }
    }

    /// Decides whether the point lies inside a ring, by the ring's number.
    pub fn is_in(&self, ring: usize) -> (result: bool)
        ensures
            result == self.lies_in(ring as int),
    {
        proof {
            use_type_invariant(self);
        }
        ring < self.inside.len() && self.inside[ring]
    }
}

/// A point that is level with no part of a ring, or to the right of every part that it is
/// level with, is outside.
pub proof fn law_nothing_beside_a_ring_is_inside(point: MapPoint, edges: Seq<Edge>)
    requires
        forall|i: int|
            0 <= i < edges.len() ==> (!(#[trigger] edges[i]).spans(point.y)) || !point.x.less(
                edges[i].crossing_x,
            ),
    ensures
        !is_inside(point, edges),
    decreases edges.len(),
{
    if edges.len() > 0 {
        let fewer = edges.drop_last();
        assert forall|i: int| 0 <= i < fewer.len() implies (!(#[trigger] fewer[i]).spans(point.y))
            || !point.x.less(fewer[i].crossing_x) by {
            assert(fewer[i] == edges[i]);
        }
        law_nothing_beside_a_ring_is_inside(point, fewer);
        assert(edges.last() == edges[edges.len() - 1]);
    }
}

/// The direction in which the edges are travelled does not matter.
pub proof fn law_direction_of_edges_is_free(
    point: MapPoint,
    edges: Seq<Edge>,
    reversed: Seq<Edge>,
)
    requires
        edges.len() == reversed.len(),
        forall|i: int|
            0 <= i < edges.len() ==> #[trigger] reversed[i] == edges[i] || reversed[i]
                == edges[i].reversed(),
    ensures
        is_inside(point, reversed) == is_inside(point, edges),
        crossing_count(point, reversed) == crossing_count(point, edges),
    decreases edges.len(),
{
    if edges.len() > 0 {
        let fewer = edges.drop_last();
        let fewer_reversed = reversed.drop_last();
        assert forall|i: int| 0 <= i < fewer.len() implies #[trigger] fewer_reversed[i] == fewer[i]
            || fewer_reversed[i] == fewer[i].reversed() by {
            assert(fewer_reversed[i] == reversed[i]);
        }
        law_direction_of_edges_is_free(point, fewer, fewer_reversed);
        assert(reversed.last() == reversed[reversed.len() - 1]);
    }
}

/// A ring without edges has nothing inside. Every further edge that has the point's height
/// between its ends, and is to the right of the point at that height, turns inside into
/// outside and outside into inside; any other edge changes nothing.
pub proof fn law_an_edge_to_the_right_changes_sides(
    point: MapPoint,
    edges: Seq<Edge>,
    edge: Edge,
)
    ensures
        !is_inside(point, Seq::empty()),
        point.y.less(edge.first_y) != point.y.less(edge.second_y) && point.x.less(edge.crossing_x)
            ==> is_inside(point, edges.push(edge)) == !is_inside(point, edges),
        point.y.less(edge.first_y) == point.y.less(edge.second_y) || !point.x.less(edge.crossing_x)
            ==> is_inside(point, edges.push(edge)) == is_inside(point, edges),
{
    assert(edges.push(edge).drop_last() =~= edges);
}

/// The order of the edges does not matter: exchanging two changes nothing.
pub proof fn law_order_of_edges_is_free(point: MapPoint, edges: Seq<Edge>, i: int, j: int)
    requires
        0 <= i < j < edges.len(),
    ensures
        is_inside(point, edges.update(i, edges[j]).update(j, edges[i])) == is_inside(point, edges),
{
    lemma_exchange(point, edges, i, j);
}

/// Exchanging two edges keeps the number of crossings.
proof fn lemma_exchange(point: MapPoint, edges: Seq<Edge>, i: int, j: int)
    requires
        0 <= i < j < edges.len(),
    ensures
        crossing_count(point, edges.update(i, edges[j]).update(j, edges[i])) == crossing_count(
            point,
            edges,
        ),
    decreases edges.len(),
{
    let exchanged = edges.update(i, edges[j]).update(j, edges[i]);
    if j < edges.len() - 1 {
        lemma_exchange(point, edges.drop_last(), i, j);
        assert(exchanged.drop_last() =~= edges.drop_last().update(i, edges[j]).update(
            j,
            edges[i],
        ));
    } else {
        lemma_replace(point, edges.drop_last(), i, edges[j]);
        assert(exchanged.drop_last() =~= edges.drop_last().update(i, edges[j]));
    }
}

/// Replacing an edge changes the number of crossings by what the two edges differ in.
proof fn lemma_replace(point: MapPoint, edges: Seq<Edge>, i: int, edge: Edge)
    requires
        0 <= i < edges.len(),
    ensures
        crossing_count(point, edges.update(i, edge)) + (if edges[i].is_crossed_from(point) {
            1int
        } else {
            0
        }) == crossing_count(point, edges) + (if edge.is_crossed_from(point) {
            1int
        } else {
            0
        }),
    decreases edges.len(),
{
    if i < edges.len() - 1 {
        lemma_replace(point, edges.drop_last(), i, edge);
        assert(edges.update(i, edge).drop_last() =~= edges.drop_last().update(i, edge));
    } else {
        assert(edges.update(i, edge).drop_last() =~= edges.drop_last());
    }
}

} // verus!
