//! Paint layers: what is painted in one color in one go.

use crate::drawing::Color;
use omap::objects::BezierPolygon;
use vstd::prelude::*;

verus! {

/// Polygons of one color, painted over everything before them.
#[derive(Debug)]
pub struct PaintLayer {
    /// The color.
    pub color: Color,
    /// The polygons.
    pub polygons: Vec<BezierPolygon>,
}

/// A paint layer as a plain value.
#[verifier::ext_equal]
pub struct Layer {
    /// The color.
    pub color: Color,
    /// The polygons.
    pub polygons: Seq<BezierPolygon>,
}

impl View for PaintLayer {
    type V = Layer;

    open spec fn view(&self) -> Layer {
        Layer { color: self.color, polygons: self.polygons@ }
    }
}

/// Paint layers as plain values.
pub open spec fn layer_views(layers: Seq<PaintLayer>) -> Seq<Layer> {
    Seq::new(layers.len(), |i: int| layers[i]@)
}

/// Layers with one more painted on top: it joins the topmost one if their colors agree.
pub open spec fn overlaid(layers: Seq<Layer>, layer: Layer) -> Seq<Layer> {
    if layers.len() > 0 && layers.last().color == layer.color {
        layers.drop_last().push(
            Layer { color: layer.color, polygons: layers.last().polygons + layer.polygons },
        )
    } else {
        layers.push(layer)
    }
}

/// Layers with neighbours of the same color joined.
pub open spec fn merged(layers: Seq<Layer>) -> Seq<Layer>
    decreases layers.len(),
{
    if layers.len() == 0 {
        Seq::empty()
    } else {
        overlaid(merged(layers.drop_last()), layers.last())
    }
}

/// Joins neighbouring layers of the same color.
pub fn merge_adjacent_layers(layers: Vec<PaintLayer>) -> (result: Vec<PaintLayer>)
    ensures
        layer_views(result@) == merged(layer_views(layers@)),
{
    let ghost views = layer_views(layers@);
    let mut result: Vec<PaintLayer> = Vec::new();
    proof {
        assert(layer_views(result@) == merged(views.take(0)));
    }
    for next in iter: layers
        invariant
            views == layer_views(iter.seq()),
            layer_views(result@) == merged(views.take(iter.index())),
    {
        let mut layer = next;
        let ghost before = layer_views(result@);
        let ghost upper = layer@;
        proof {
            assert(upper == views[iter.index()]);
            assert(views.take(iter.index() + 1).drop_last() == views.take(iter.index()));
        }
        let count: usize = result.len();
        if count > 0 && result[count - 1].color == layer.color {
            proof {
                assert(before.last() == result@[count - 1]@);
            }
            result[count - 1].polygons.append(&mut layer.polygons);
        } else {
            result.push(layer);
        }
        proof {
            assert(layer_views(result@) =~~= overlaid(before, upper));
        }
    }
    proof {
        assert(views.take(views.len() as int) == views);
    }
    result
}

/// What is painted, polygon by polygon, each with its color.
pub open spec fn painting(layers: Seq<Layer>) -> Seq<(Color, BezierPolygon)>
    decreases layers.len(),
{
    if layers.len() == 0 {
        Seq::empty()
    } else {
        painting(layers.drop_last()) + Seq::new(
            layers.last().polygons.len(),
            |i: int| (layers.last().color, layers.last().polygons[i]),
        )
    }
}

/// Whether no two neighbouring layers have the same color.
pub open spec fn neighbours_differ(layers: Seq<Layer>) -> bool {
    forall|i: int, j: int|
        0 <= i && j == i + 1 && j < layers.len() ==> (#[trigger] layers[i]).color != (
        #[trigger] layers[j]).color
}

/// Joining layers changes nothing of what is painted, nor in what color and order.
pub proof fn law_merging_keeps_the_painting(layers: Seq<Layer>)
    ensures
        painting(merged(layers)) == painting(layers),
    decreases layers.len(),
{
    if layers.len() > 0 {
        let below = merged(layers.drop_last());
        let layer = layers.last();
        law_merging_keeps_the_painting(layers.drop_last());
        if below.len() > 0 && below.last().color == layer.color {
            assert(overlaid(below, layer).drop_last() == below.drop_last());
            assert(painting(overlaid(below, layer)) =~= painting(below) + Seq::new(
                layer.polygons.len(),
                |i: int| (layer.color, layer.polygons[i]),
            ));
        } else {
            assert(overlaid(below, layer).drop_last() == below);
        }
    }
}

/// After joining, neighbouring layers have different colors: layers of one color in a row
/// have become one.
pub proof fn law_merged_neighbours_differ(layers: Seq<Layer>)
    ensures
        neighbours_differ(merged(layers)),
    decreases layers.len(),
{
    if layers.len() > 0 {
        law_merged_neighbours_differ(layers.drop_last());
        let below = merged(layers.drop_last());
        assert(neighbours_differ(below));
        let result = overlaid(below, layers.last());
        assert forall|i: int, j: int| 0 <= i && j == i + 1 && j < result.len() implies (
        #[trigger] result[i]).color != (#[trigger] result[j]).color by {
            assert(result[i].color == below[i].color);
            if j < below.len() {
                assert(result[j].color == below[j].color);
            }
        }
    }
}

/// Layers of one color stay apart where another color lies between them: what has no
/// equal neighbours is left as it is.
pub proof fn law_separate_layers_stay_separate(layers: Seq<Layer>)
    requires
        neighbours_differ(layers),
    ensures
        merged(layers) == layers,
    decreases layers.len(),
{
    if layers.len() > 0 {
        let below = layers.drop_last();
        assert(neighbours_differ(below)) by {
            assert forall|i: int, j: int| 0 <= i && j == i + 1 && j < below.len() implies (
            #[trigger] below[i]).color != (#[trigger] below[j]).color by {
                assert(below[i] == layers[i] && below[j] == layers[j]);
            }
        }
        law_separate_layers_stay_separate(below);
        if below.len() > 0 {
            assert(layers[below.len() - 1].color != layers[below.len() as int].color);
        }
        assert(below.push(layers.last()) == layers);
    }
}

/// Joining twice is joining once.
pub proof fn law_merging_is_idempotent(layers: Seq<Layer>)
    ensures
        merged(merged(layers)) == merged(layers),
{
    law_merged_neighbours_differ(layers);
    law_separate_layers_stay_separate(merged(layers));
}

/// Layers as plain values have the colors and the polygons of the layers, in their places.
pub proof fn law_layers_keep_their_places(layers: Seq<PaintLayer>)
    ensures
        layer_views(layers).len() == layers.len(),
        forall|i: int|
            0 <= i < layers.len() ==> {
                &&& (#[trigger] layer_views(layers)[i]).color == layers[i].color
                &&& layer_views(layers)[i].polygons == layers[i].polygons@
            },
{
}

/// One more layer joins the topmost one if their colors agree, behind what that one holds;
/// else it comes on top. The layers below stay as they are.
pub proof fn law_a_layer_joins_its_own_color_only(layers: Seq<Layer>, layer: Layer)
    ensures
        ({
            let below = merged(layers);
            let joined = merged(layers.push(layer));
            if below.len() > 0 && below.last().color == layer.color {
                &&& joined.len() == below.len()
                &&& joined.drop_last() == below.drop_last()
                &&& joined.last().color == layer.color
                &&& joined.last().polygons == below.last().polygons + layer.polygons
            } else {
                &&& joined.len() == below.len() + 1
                &&& joined.drop_last() == below
                &&& joined.last() == layer
            }
        }),
        merged(Seq::empty()).len() == 0,
{
    assert(layers.push(layer).drop_last() =~= layers);
    let below = merged(layers);
    let joined = merged(layers.push(layer));
    if below.len() > 0 && below.last().color == layer.color {
        assert(joined.drop_last() =~= below.drop_last());
    } else {
        assert(joined.drop_last() =~= below);
    }
}

/// What is painted are the polygons of the layers, one after the other.
pub proof fn law_painting_goes_layer_by_layer(layers: Seq<Layer>, layer: Layer)
    ensures
        painting(Seq::empty()).len() == 0,
        painting(layers.push(layer)).len() == painting(layers).len() + layer.polygons.len(),
        painting(layers).is_prefix_of(painting(layers.push(layer))),
        forall|i: int|
            0 <= i < layer.polygons.len() ==> #[trigger] layer.polygons[i] == painting(
                layers.push(layer),
            )[painting(layers).len() + i].1 && painting(layers.push(layer))[painting(layers).len()
                + i].0 == layer.color,
{
    assert(layers.push(layer).drop_last() =~= layers);
}

} // verus!
