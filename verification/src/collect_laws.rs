//! What holds of every artwork on its way to paint layers.

use crate::collect;
use crate::collect::Yield;
use crate::drawing::{
    Color, Fill, Gradient, Group, Node, Opacity, Paint, PaintOrder, Shape, Stroke, StrokeOutline,
};
use crate::error::ConversionError;
use crate::fill_laws;
use crate::layers;
use crate::layers::{Layer, PaintLayer};
use crate::paint;
use crate::rings;
use crate::rings::{Contour, FillRule};
use crate::warnings;
use omap::objects::BezierPolygon;
use vstd::prelude::*;

verus! {

/// Putting parts on top of each other does not depend on how they are bracketed.
pub proof fn law_painting_order_is_all_that_counts(first: Yield, second: Yield, third: Yield)
    ensures
        first.and_on_top(second).and_on_top(third) == first.and_on_top(second.and_on_top(third)),
{
    assert(first.and_on_top(second).and_on_top(third) =~= first.and_on_top(
        second.and_on_top(third),
    ));
}

/// Artwork is painted from its first part to its last: later parts come on top, and are not
/// reached once an earlier part has failed.
pub proof fn law_parts_are_painted_in_order(lower: Seq<Node>, upper: Seq<Node>)
    ensures
        collect::nodes_yield(lower + upper) == collect::nodes_yield(lower).and_on_top(
            collect::nodes_yield(upper),
        ),
    decreases upper.len(),
{
    let below = collect::nodes_yield(lower);
    if upper.len() == 0 {
        assert(lower + upper =~= lower);
        assert(below.and_on_top(Yield::nothing()) =~= below);
    } else {
        assert((lower + upper).drop_last() =~= lower + upper.drop_last());
        law_parts_are_painted_in_order(lower, upper.drop_last());
        law_painting_order_is_all_that_counts(
            below,
            collect::nodes_yield(upper.drop_last()),
            collect::node_yield(upper.last()),
        );
        assert(collect::nodes_yield(lower + upper) == collect::nodes_yield(
            lower + upper.drop_last(),
        ).and_on_top(collect::node_yield(upper.last())));
        assert(collect::nodes_yield(upper) == collect::nodes_yield(upper.drop_last()).and_on_top(
            collect::node_yield(upper.last()),
        ));
    }
}

/// Whether a part of the artwork does not show.
pub open spec fn is_hidden(node: Node) -> bool {
    match node {
        Node::Group(group) => warnings::is_invisible(group.opacity.value),
        Node::Text(letters) => warnings::is_invisible(letters.opacity.value),
        Node::Shape(shape) => !shape.visible,
        Node::Image => false,
    }
}

/// A part that does not show leaves no trace: no paint, no warning and no failure.
pub proof fn law_hidden_parts_leave_no_trace(lower: Seq<Node>, hidden: Node, upper: Seq<Node>)
    requires
        is_hidden(hidden),
    ensures
        collect::nodes_yield(lower.push(hidden) + upper) == collect::nodes_yield(lower + upper),
{
    let below = collect::nodes_yield(lower);
    law_parts_are_painted_in_order(lower.push(hidden), upper);
    law_parts_are_painted_in_order(lower, upper);
    assert(lower.push(hidden).drop_last() =~= lower);
    assert(collect::nodes_yield(lower.push(hidden)) == below.and_on_top(
        collect::node_yield(hidden),
    ));
    assert(collect::node_yield(hidden) == Yield::nothing());
    assert(below.and_on_top(Yield::nothing()) =~= below);
}

/// A paint that does not show leaves no trace either.
pub proof fn law_hidden_paint_leaves_no_trace(
    opacity: Opacity,
    paint: Paint,
    description: Seq<char>,
    polygons: Result<Seq<BezierPolygon>, Seq<char>>,
)
    requires
        warnings::is_invisible(opacity.value),
    ensures
        collect::painted(opacity, paint, description, polygons) == Yield::nothing(),
{
}

/// The outline of what does not show, or has no color, is not looked at: another one, or
/// one that failed, makes no difference.
pub proof fn law_unneeded_outlines_make_no_difference(
    opacity: Opacity,
    paint: Paint,
    description: Seq<char>,
    polygons: Result<Seq<BezierPolygon>, Seq<char>>,
    others: Result<Seq<BezierPolygon>, Seq<char>>,
)
    requires
        warnings::is_invisible(opacity.value) || paint::color_of(paint) is None,
    ensures
        collect::painted(opacity, paint, description, polygons) == collect::painted(
            opacity,
            paint,
            description,
            others,
        ),
{
}

/// Clip paths, masks, filters, blend modes and partial transparency change nothing of what a
/// group paints.
pub proof fn law_group_effects_change_no_paint(plain: Group, styled: Group)
    requires
        plain.children@ == styled.children@,
        !warnings::is_invisible(plain.opacity.value),
        !warnings::is_invisible(styled.opacity.value),
    ensures
        collect::group_yield(plain).layers == collect::group_yield(styled).layers,
        collect::group_yield(plain).failure == collect::group_yield(styled).failure,
{
    let parts = collect::nodes_yield(plain.children@);
    assert(Seq::empty() + parts.layers =~= parts.layers);
}

/// Partial transparency becomes full opacity: it changes nothing of what is painted.
pub proof fn law_transparency_changes_no_paint(
    opaque: Opacity,
    transparent: Opacity,
    paint: Paint,
    description: Seq<char>,
    polygons: Result<Seq<BezierPolygon>, Seq<char>>,
)
    requires
        !warnings::is_invisible(opaque.value),
        !warnings::is_invisible(transparent.value),
    ensures
        collect::painted(opaque, paint, description, polygons).layers == collect::painted(
            transparent,
            paint,
            description,
            polygons,
        ).layers,
        collect::painted(opaque, paint, description, polygons).failure == collect::painted(
            transparent,
            paint,
            description,
            polygons,
        ).failure,
{
}

/// A gradient paints what its average color paints.
pub proof fn law_gradients_paint_their_average(
    opacity: Opacity,
    gradient: Gradient,
    description: Seq<char>,
    polygons: Result<Seq<BezierPolygon>, Seq<char>>,
)
    ensures
        ({
            let plain = collect::painted(
                opacity,
                Paint::Color(gradient.average),
                description,
                polygons,
            );
            let linear = collect::painted(
                opacity,
                Paint::LinearGradient(gradient),
                description,
                polygons,
            );
            let radial = collect::painted(
                opacity,
                Paint::RadialGradient(gradient),
                description,
                polygons,
            );
            &&& linear.layers == plain.layers && linear.failure == plain.failure
            &&& radial.layers == plain.layers && radial.failure == plain.failure
        }),
{
}

/// Patterns and images are skipped: they paint nothing and stop nothing.
pub proof fn law_patterns_and_images_are_skipped(
    opacity: Opacity,
    description: Seq<char>,
    polygons: Result<Seq<BezierPolygon>, Seq<char>>,
)
    ensures
        collect::painted(opacity, Paint::Pattern, description, polygons).layers.len() == 0,
        collect::painted(opacity, Paint::Pattern, description, polygons).failure is None,
        collect::node_yield(Node::Image).layers.len() == 0,
        collect::node_yield(Node::Image).failure is None,
{
}

/// Every fallback is reported: whatever is painted other than in its own opaque color, or
/// skipped for its paint, gives a warning, and nothing else does.
pub proof fn law_exactly_the_fallbacks_are_reported(
    opacity: Opacity,
    paint: Paint,
    description: Seq<char>,
    polygons: Result<Seq<BezierPolygon>, Seq<char>>,
)
    requires
        !warnings::is_invisible(opacity.value),
    ensures
        collect::painted(opacity, paint, description, polygons).warnings.len() == 0 <==> !(
        warnings::is_transparent(opacity.value)) && paint is Color,
{
}

/// Every effect of a group that is ignored is reported, and nothing else is.
pub proof fn law_exactly_the_ignored_effects_are_reported(group: Group)
    ensures
        collect::group_warnings(group).len() == 0 <==> {
            &&& !warnings::is_transparent(group.opacity.value)
            &&& group.blend_mode is Normal
            &&& !group.has_clip_path
            &&& !group.has_mask
            &&& !group.has_filters
        },
{
}

/// Where nothing fails, every part keeps its warnings and its layers.
pub proof fn law_every_part_counts(nodes: Seq<Node>, position: int)
    requires
        0 <= position < nodes.len(),
        collect::nodes_yield(nodes).failure is None,
    ensures
        ({
            let all = collect::nodes_yield(nodes);
            let below = collect::nodes_yield(nodes.take(position));
            let part = collect::node_yield(nodes[position]);
            &&& (below.warnings + part.warnings).is_prefix_of(all.warnings)
            &&& (below.layers + part.layers).is_prefix_of(all.layers)
            &&& part.failure is None
        }),
{
    let upto = nodes.take(position + 1);
    let rest = nodes.skip(position + 1);
    assert(upto + rest =~= nodes);
    law_parts_are_painted_in_order(upto, rest);
    assert(upto.drop_last() =~= nodes.take(position));
    assert(collect::nodes_yield(upto) == collect::nodes_yield(nodes.take(position)).and_on_top(
        collect::node_yield(nodes[position]),
    ));
}

/// The paint order decides which of fill and stroke is on top, and nothing else.
pub proof fn law_paint_order_decides_what_is_on_top(shape: Shape)
    requires
        collect::fill_yield(shape).failure is None,
        collect::stroke_yield(shape).failure is None,
    ensures
        collect::shape_yield(shape).failure is None,
        collect::shape_yield(shape).layers == match shape.paint_order {
            PaintOrder::FillAndStroke => collect::fill_yield(shape).layers + collect::stroke_yield(
                shape,
            ).layers,
            PaintOrder::StrokeAndFill => collect::stroke_yield(shape).layers + collect::fill_yield(
                shape,
            ).layers,
        },
{
}

/// How messages refer to a shape: by its name, if it has one.
pub proof fn law_shapes_are_described_by_their_names(shape: Shape)
    ensures
        shape.id@.len() > 0 ==> shape.described() == shape.id@,
        shape.id@.len() == 0 ==> shape.described() == "an unnamed SVG path"@,
{
}

/// The color in which a paint is shown.
pub open spec fn shown_color(paint: Paint) -> Option<Color> {
    match paint {
        Paint::Color(color) => Some(color),
        Paint::LinearGradient(gradient) | Paint::RadialGradient(gradient) => Some(
            gradient.average,
        ),
        Paint::Pattern => None,
    }
}

/// A fill that shows and has a color paints all polygons of its outline, by its own rule, in
/// that color and in one layer; no polygons, no layer.
pub proof fn law_a_fill_paints_every_polygon(
    shape: Shape,
    fill: Fill,
    contours: Vec<Contour>,
    color: Color,
    polygons: Seq<BezierPolygon>,
)
    requires
        shape.fill == Some(fill),
        !warnings::is_invisible(fill.opacity.value),
        shown_color(fill.paint) == Some(color),
        fill.outline == Ok::<Vec<Contour>, ConversionError>(contours),
        rings::polygons(contours@, fill.rule) == Some(polygons),
    ensures
        collect::fill_yield(shape).failure is None,
        polygons.len() > 0 ==> collect::fill_yield(shape).layers == seq![Layer { color, polygons }],
        polygons.len() == 0 ==> collect::fill_yield(shape).layers.len() == 0,
{
}

/// A stroke that shows and has a color paints all polygons of what the line covers, every
/// dash of it, in that color and in one layer. What the line covers is filled wherever the
/// windings do not cancel.
pub proof fn law_a_stroke_paints_every_polygon(
    shape: Shape,
    stroke: Stroke,
    contours: Vec<Contour>,
    color: Color,
    polygons: Seq<BezierPolygon>,
)
    requires
        shape.stroke == Some(stroke),
        !warnings::is_invisible(stroke.opacity.value),
        shown_color(stroke.paint) == Some(color),
        stroke.outline == StrokeOutline::Covered(Ok::<Vec<Contour>, ConversionError>(contours)),
        rings::polygons(contours@, FillRule::NonZero) == Some(polygons),
    ensures
        collect::stroke_yield(shape).failure is None,
        polygons.len() > 0 ==> collect::stroke_yield(shape).layers == seq![
            Layer { color, polygons },
        ],
        polygons.len() == 0 ==> collect::stroke_yield(shape).layers.len() == 0,
{
}

/// A stroke paints as many polygons as the outline of what it covers has outer boundaries:
/// none of its dashes is lost.
pub proof fn law_no_dash_is_lost(
    shape: Shape,
    stroke: Stroke,
    contours: Vec<Contour>,
    labels: fill_laws::Labels,
    bounds: Seq<int>,
)
    requires
        shape.stroke == Some(stroke),
        !warnings::is_invisible(stroke.opacity.value),
        shown_color(stroke.paint) is Some,
        stroke.outline == StrokeOutline::Covered(Ok::<Vec<Contour>, ConversionError>(contours)),
        collect::stroke_yield(shape).failure is None,
        labels.fit(contours@, FillRule::NonZero),
        fill_laws::names_bounds(labels, contours@, FillRule::NonZero, bounds),
    ensures
        bounds.len() == 0 ==> collect::stroke_yield(shape).layers.len() == 0,
        bounds.len() > 0 ==> {
            &&& collect::stroke_yield(shape).layers.len() == 1
            &&& collect::stroke_yield(shape).layers[0].polygons.len() == bounds.len()
        },
{
    let cuts = Seq::new(
        bounds.len(),
        |k: int|
            choose|cuts: Seq<int>|
                fill_laws::names_cuts(labels, contours@, FillRule::NonZero, bounds[k], cuts),
    );
    assert forall|k: int| 0 <= k < bounds.len() implies fill_laws::names_cuts(
        labels,
        contours@,
        FillRule::NonZero,
        bounds[k],
        #[trigger] cuts[k],
    ) by {
        fill_laws::law_every_outline_has_bounds_and_cuts(
            labels,
            contours@,
            FillRule::NonZero,
            bounds[k],
        );
    }
    fill_laws::law_polygons_fill_the_outline(labels, contours@, FillRule::NonZero, bounds, cuts);
    assert(rings::polygons(contours@, FillRule::NonZero) is Some);
    law_a_stroke_paints_every_polygon(
        shape,
        stroke,
        contours,
        shown_color(stroke.paint).unwrap(),
        rings::polygons(contours@, FillRule::NonZero).unwrap(),
    );
}

/// A fill that shows and has a color fails exactly if its outline has failed, with the same
/// explanation, or if one of its polygons cannot be built; it then paints nothing.
pub proof fn law_fills_fail_with_their_outlines(shape: Shape, fill: Fill)
    requires
        shape.fill == Some(fill),
        !warnings::is_invisible(fill.opacity.value),
        shown_color(fill.paint) is Some,
    ensures
        fill.outline matches Err(error) ==> collect::fill_yield(shape).failure == Some(error@),
        fill.outline matches Ok(contours) ==> collect::fill_yield(shape).failure
            == match rings::polygons(contours@, fill.rule) {
            Some(_) => None::<Seq<char>>,
            None => Some("could not create an OMAP polygon: "@ + "invalid Bézier path"@),
        },
        collect::fill_yield(shape).failure is Some ==> collect::fill_yield(shape).layers.len()
            == 0,
{
}

/// A stroke that shows and has a color fails exactly if its line cannot be broken into dashes,
/// or cannot be widened, or if the outline of what it covers fails; it then paints nothing.
pub proof fn law_strokes_fail_with_their_outlines(
    shape: Shape,
    stroke: Stroke,
    description: Seq<char>,
)
    requires
        shape.stroke == Some(stroke),
        !warnings::is_invisible(stroke.opacity.value),
        shown_color(stroke.paint) is Some,
        description == if shape.id@.len() == 0 {
            "an unnamed SVG path"@
        } else {
            shape.id@
        },
    ensures
        collect::stroke_yield(shape).failure == match stroke.outline {
            StrokeOutline::DashFailed => Some(
                "could not apply the dash pattern of "@ + description,
            ),
            StrokeOutline::ExpansionFailed => Some(
                "could not expand the stroke of "@ + description + " into an outline"@,
            ),
            StrokeOutline::Covered(Err(error)) => Some(error@),
            StrokeOutline::Covered(Ok(contours)) => match rings::polygons(
                contours@,
                FillRule::NonZero,
            ) {
                Some(_) => None,
                None => Some("could not create an OMAP polygon: "@ + "invalid Bézier path"@),
            },
        },
        collect::stroke_yield(shape).failure is Some ==> collect::stroke_yield(shape).layers.len()
            == 0,
{
}

/// A shape without a fill has nothing inside, and one without a stroke no line; the same goes
/// for what does not show. What has no color only gives warnings.
pub proof fn law_what_is_not_painted_yields_no_layer(shape: Shape)
    ensures
        ({
            let inside = collect::fill_yield(shape);
            let line = collect::stroke_yield(shape);
            &&& (match shape.fill {
                None => true,
                Some(fill) => warnings::is_invisible(fill.opacity.value),
            }) ==> inside.layers.len() == 0 && inside.warnings.len() == 0 && inside.failure is None
            &&& (match shape.stroke {
                None => true,
                Some(stroke) => warnings::is_invisible(stroke.opacity.value),
            }) ==> line.layers.len() == 0 && line.warnings.len() == 0 && line.failure is None
            &&& (shape.fill matches Some(fill) && shown_color(fill.paint) is None)
                ==> inside.layers.len() == 0 && inside.failure is None
            &&& (shape.stroke matches Some(stroke) && shown_color(stroke.paint) is None)
                ==> line.layers.len() == 0 && line.failure is None
        }),
{
}

/// Whatever shows is reported: first its opacity, then its paint, whether or not it can be
/// painted in the end.
pub proof fn law_what_shows_is_reported(shape: Shape, description: Seq<char>)
    requires
        description == if shape.id@.len() == 0 {
            "an unnamed SVG path"@
        } else {
            shape.id@
        },
    ensures
        shape.fill matches Some(fill) ==> (!warnings::is_invisible(fill.opacity.value)
            ==> collect::fill_yield(shape).warnings == warnings::opacity_warnings(
            fill.opacity,
            description,
        ) + paint::paint_warnings(fill.paint, description)),
        shape.stroke matches Some(stroke) ==> (!warnings::is_invisible(stroke.opacity.value)
            ==> collect::stroke_yield(shape).warnings == warnings::opacity_warnings(
            stroke.opacity,
            description,
        ) + paint::paint_warnings(stroke.paint, description)),
{
}

/// Fill and stroke of a shape are painted one over the other, as the paint order says. What
/// comes second is not reached if what comes first fails, and if either fails neither is
/// painted; the warnings that were reached stay.
pub proof fn law_fill_and_stroke_belong_together(shape: Shape)
    ensures
        ({
            let (lower, upper) = if shape.paint_order is FillAndStroke {
                (collect::fill_yield(shape), collect::stroke_yield(shape))
            } else {
                (collect::stroke_yield(shape), collect::fill_yield(shape))
            };
            let both = collect::shape_yield(shape);
            if lower.failure is Some {
                &&& both.failure == lower.failure
                &&& both.layers.len() == 0
                &&& both.warnings == lower.warnings
            } else {
                &&& both.failure == upper.failure
                &&& both.warnings == lower.warnings + upper.warnings
                &&& upper.failure is Some ==> both.layers.len() == 0
                &&& upper.failure is None ==> both.layers == lower.layers + upper.layers
            }
        }),
{
}

/// A group that does not show comes to nothing. Else it first gives the warnings about its
/// own effects, in a fixed order, and then comes to what its parts come to.
pub proof fn law_a_group_is_its_parts(group: Group)
    ensures
        ({
            let own = warnings::opacity_warnings(group.opacity, "an SVG group"@) + (
            if group.blend_mode is Normal {
                Seq::<Seq<char>>::empty()
            } else {
                seq![
                    "SVG blend mode "@ + group.blend_mode.named()
                        + " was ignored and rendered as normal paint"@,
                ]
            }) + (if group.has_clip_path {
                seq!["an SVG clip path was ignored; its artwork was converted unclipped"@]
            } else {
                Seq::<Seq<char>>::empty()
            }) + (if group.has_mask {
                seq!["an SVG mask was ignored; its artwork was converted unmasked"@]
            } else {
                Seq::<Seq<char>>::empty()
            }) + (if group.has_filters {
                seq!["one or more SVG filters were ignored while converting their artwork"@]
            } else {
                Seq::<Seq<char>>::empty()
            });
            let whole = collect::group_yield(group);
            let parts = collect::nodes_yield(group.children@);
            if warnings::is_invisible(group.opacity.value) {
                &&& whole.warnings.len() == 0
                &&& whole.layers.len() == 0
                &&& whole.failure is None
            } else {
                &&& whole.warnings == own + parts.warnings
                &&& whole.layers == parts.layers
                &&& whole.failure == parts.failure
            }
        }),
{
    let parts = collect::nodes_yield(group.children@);
    assert(Seq::empty() + parts.layers =~= parts.layers);
}

/// No parts come to nothing. One more part comes on top of the others, unless one of them has
/// failed: then it is not reached.
pub proof fn law_one_more_part_comes_on_top(nodes: Seq<Node>, node: Node)
    ensures
        ({
            let nothing = collect::nodes_yield(Seq::empty());
            &&& nothing.warnings.len() == 0
            &&& nothing.layers.len() == 0
            &&& nothing.failure is None
        }),
        ({
            let below = collect::nodes_yield(nodes);
            let top = collect::node_yield(node);
            let all = collect::nodes_yield(nodes.push(node));
            if below.failure is Some {
                all == below
            } else {
                &&& all.warnings == below.warnings + top.warnings
                &&& all.layers == below.layers + top.layers
                &&& all.failure == top.failure
            }
        }),
{
    assert(nodes.push(node).drop_last() =~= nodes);
    assert(nodes.push(node).last() == node);
    assert(collect::nodes_yield(nodes.push(node)) == collect::nodes_yield(
        nodes.push(node).drop_last(),
    ).and_on_top(collect::node_yield(node)));
}

/// A part that is a group, or text, comes to what the group comes to; a shape to what is
/// painted of it, if it is visible; an image to a warning.
pub proof fn law_parts_come_to_what_they_are(node: Node)
    ensures
        match node {
            Node::Group(group) => collect::node_yield(node) == collect::group_yield(group),
            Node::Text(letters) => collect::node_yield(node) == collect::group_yield(letters),
            Node::Shape(shape) => if shape.visible {
                collect::node_yield(node) == collect::shape_yield(shape)
            } else {
                &&& collect::node_yield(node).warnings.len() == 0
                &&& collect::node_yield(node).layers.len() == 0
                &&& collect::node_yield(node).failure is None
            },
            Node::Image => {
                &&& collect::node_yield(node).warnings == seq![
                    "a raster or embedded SVG image was skipped; convert it to paths to include it"@,
                ]
                &&& collect::node_yield(node).layers.len() == 0
                &&& collect::node_yield(node).failure is None
            },
        },
{
}

/// What a part comes to is what it leaves behind: its layers on top of those that were there,
/// its warnings after those that were given, and its failure as the error.
pub proof fn law_what_happened_is_what_a_part_comes_to(
    part: Yield,
    old_layers: Seq<PaintLayer>,
    new_layers: Seq<PaintLayer>,
    old_warnings: Seq<String>,
    new_warnings: Seq<String>,
    result: Result<(), ConversionError>,
)
    requires
        part.happened(old_layers, new_layers, old_warnings, new_warnings, result),
    ensures
        new_layers.len() == old_layers.len() + part.layers.len(),
        forall|i: int|
            0 <= i < old_layers.len() ==> (#[trigger] new_layers[i]).color == old_layers[i].color
                && new_layers[i].polygons@ == old_layers[i].polygons@,
        forall|i: int|
            0 <= i < part.layers.len() ==> (#[trigger] part.layers[i]).color == new_layers[
                old_layers.len() + i].color && part.layers[i].polygons == new_layers[
                old_layers.len() + i].polygons@,
        warnings::texts(new_warnings) == warnings::noted_all(
            warnings::texts(old_warnings),
            part.warnings,
        ),
        result is Err <==> part.failure is Some,
        result matches Err(error) ==> part.failure == Some(error@),
{
    let before = layers::layer_views(old_layers);
    let after = layers::layer_views(new_layers);
    assert(after.len() == new_layers.len());
    assert(before.len() == old_layers.len());
    assert forall|i: int| 0 <= i < old_layers.len() implies (#[trigger] new_layers[i]).color
        == old_layers[i].color && new_layers[i].polygons@ == old_layers[i].polygons@ by {
        assert(after[i] == before[i]);
    }
    assert forall|i: int| 0 <= i < part.layers.len() implies (#[trigger] part.layers[i]).color
        == new_layers[old_layers.len() + i].color && part.layers[i].polygons == new_layers[
        old_layers.len() + i].polygons@ by {
        assert(after[before.len() + i] == part.layers[i]);
    }
}

/// What is handed back of a fill or a stroke is its layer, if it has one, and its failure as
/// the error.
pub proof fn law_what_is_given_is_what_a_part_comes_to(
    part: Yield,
    old_warnings: Seq<String>,
    new_warnings: Seq<String>,
    result: Result<Option<PaintLayer>, ConversionError>,
)
    requires
        part.is_given(old_warnings, new_warnings, result),
    ensures
        warnings::texts(new_warnings) == warnings::noted_all(
            warnings::texts(old_warnings),
            part.warnings,
        ),
        result is Err <==> part.failure is Some,
        result matches Err(error) ==> part.failure == Some(error@),
        result matches Ok(None) ==> part.layers.len() == 0,
        result matches Ok(Some(layer)) ==> {
            &&& part.layers.len() == 1
            &&& part.layers[0].color == layer.color
            &&& part.layers[0].polygons == layer.polygons@
        },
{
}

} // verus!
