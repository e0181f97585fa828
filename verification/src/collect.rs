//! From the artwork to its paint layers, in the order in which they are painted.

use crate::drawing::{
    BlendMode, Color, Group, Node, Opacity, Outline, Paint, PaintOrder, Shape, StrokeOutline,
};
use crate::error::ConversionError;
use crate::layers;
use crate::layers::{Layer, PaintLayer};
use crate::paint;
use crate::paint::paint_color;
use crate::rings;
use crate::rings::{path_to_polygons, FillRule};
use crate::warnings;
use crate::warnings::{opacity_hides, push_warning, warn_if_transparent};
use omap::objects::BezierPolygon;
use vstd::prelude::*;
use vstd::string::*;

verus! {

/// What a part of the artwork comes to.
#[verifier::ext_equal]
pub struct Yield {
    /// The warnings that it gives, in order and with repetitions.
    pub warnings: Seq<Seq<char>>,
    /// The layers that it paints, from the bottom up.
    pub layers: Seq<Layer>,
    /// Why the conversion stops there.
    pub failure: Option<Seq<char>>,
}

impl Yield {
    /// Nothing at all.
    pub open spec fn nothing() -> Yield {
        Yield { warnings: Seq::empty(), layers: Seq::empty(), failure: None }
    }

    /// Warnings alone.
    pub open spec fn only_warnings(warnings: Seq<Seq<char>>) -> Yield {
        Yield { warnings, layers: Seq::empty(), failure: None }
    }

    /// One part followed by another, which is not reached if the first one fails.
    pub open spec fn and_on_top(self, next: Yield) -> Yield {
        if self.failure is Some {
            self
        } else {
            Yield {
                warnings: self.warnings + next.warnings,
                layers: self.layers + next.layers,
                failure: next.failure,
            }
        }
    }

    /// Two parts that are painted together: if either fails, neither is painted.
    pub open spec fn together_with(self, next: Yield) -> Yield {
        let both = self.and_on_top(next);
        if both.failure is Some {
            Yield { layers: Seq::empty(), ..both }
        } else {
            both
        }
    }

    /// What this part leaves behind of the lists it was given, and how it ends.
    pub open spec fn happened(
        self,
        old_layers: Seq<PaintLayer>,
        new_layers: Seq<PaintLayer>,
        old_warnings: Seq<String>,
        new_warnings: Seq<String>,
        result: Result<(), ConversionError>,
    ) -> bool {
        &&& layers::layer_views(new_layers) == layers::layer_views(old_layers) + self.layers
        &&& warnings::texts(new_warnings) == warnings::noted_all(
            warnings::texts(old_warnings),
            self.warnings,
        )
        &&& match self.failure {
            None => result is Ok,
            Some(failure) => result matches Err(error) && error@ == failure,
        }
    }
}

/// The polygons that fill an outline, or why it cannot be filled.
pub open spec fn filled(outline: Outline, rule: FillRule) -> Result<
    Seq<BezierPolygon>,
    Seq<char>,
> {
    match outline {
        Err(error) => Err(error@),
        Ok(contours) => match rings::polygons(contours@, rule) {
            None => Err(rings::polygon_failure()),
            Some(polygons) => Ok(polygons),
        },
    }
}

/// What painting some polygons comes to. Nothing is painted that does not show, that has
/// no color, or that covers nothing.
pub open spec fn painted(
    opacity: Opacity,
    paint: Paint,
    description: Seq<char>,
    polygons: Result<Seq<BezierPolygon>, Seq<char>>,
) -> Yield {
    if warnings::is_invisible(opacity.value) {
        Yield::nothing()
    } else {
        let warnings = warnings::opacity_warnings(opacity, description) + paint::paint_warnings(
            paint,
            description,
        );
        match (paint::color_of(paint), polygons) {
            (None, _) => Yield::only_warnings(warnings),
            (Some(_), Err(failure)) => Yield {
                warnings,
                layers: Seq::empty(),
                failure: Some(failure),
            },
            (Some(color), Ok(polygons)) => Yield {
                warnings,
                layers: if polygons.len() == 0 {
                    Seq::empty()
                } else {
                    seq![Layer { color, polygons }]
                },
                failure: None,
            },
        }
    }
}

/// What the inside of a shape comes to.
pub open spec fn fill_yield(shape: Shape) -> Yield {
    match shape.fill {
        None => Yield::nothing(),
        Some(fill) => painted(
            fill.opacity,
            fill.paint,
            shape.described(),
            filled(fill.outline, fill.rule),
        ),
    }
}

/// The polygons that a line covers, or why there are none.
pub open spec fn covered(outline: StrokeOutline, description: Seq<char>) -> Result<
    Seq<BezierPolygon>,
    Seq<char>,
> {
    match outline {
        StrokeOutline::DashFailed => Err(
            "could not apply the dash pattern of "@ + description,
        ),
        StrokeOutline::ExpansionFailed => Err(
            "could not expand the stroke of "@ + description + " into an outline"@,
        ),
        StrokeOutline::Covered(outline) => filled(outline, FillRule::NonZero),
    }
}

/// What the line along the edge of a shape comes to.
pub open spec fn stroke_yield(shape: Shape) -> Yield {
    match shape.stroke {
        None => Yield::nothing(),
        Some(stroke) => painted(
            stroke.opacity,
            stroke.paint,
            shape.described(),
            covered(stroke.outline, shape.described()),
        ),
    }
}

/// What a shape comes to.
pub open spec fn shape_yield(shape: Shape) -> Yield {
    match shape.paint_order {
        PaintOrder::FillAndStroke => fill_yield(shape).together_with(stroke_yield(shape)),
        PaintOrder::StrokeAndFill => stroke_yield(shape).together_with(fill_yield(shape)),
    }
}

/// One warning or none.
pub open spec fn warning_if(condition: bool, warning: Seq<char>) -> Seq<Seq<char>> {
    if condition {
        seq![warning]
    } else {
        Seq::empty()
    }
}

/// The warnings about effects that apply to a group as a whole.
pub open spec fn group_warnings(group: Group) -> Seq<Seq<char>> {
    warnings::opacity_warnings(group.opacity, "an SVG group"@) + warning_if(
        group.blend_mode != BlendMode::Normal,
        "SVG blend mode "@ + group.blend_mode.named()
            + " was ignored and rendered as normal paint"@,
    ) + warning_if(
        group.has_clip_path,
        "an SVG clip path was ignored; its artwork was converted unclipped"@,
    ) + warning_if(
        group.has_mask,
        "an SVG mask was ignored; its artwork was converted unmasked"@,
    ) + warning_if(
        group.has_filters,
        "one or more SVG filters were ignored while converting their artwork"@,
    )
}

/// What a group comes to.
pub open spec fn group_yield(group: Group) -> Yield
    decreases group,
{
    if warnings::is_invisible(group.opacity.value) {
        Yield::nothing()
    } else {
        Yield::only_warnings(group_warnings(group)).and_on_top(nodes_yield(group.children@))
    }
}

/// What some parts come to, one on top of the other.
pub open spec fn nodes_yield(nodes: Seq<Node>) -> Yield
    decreases nodes,
{
    if nodes.len() == 0 {
        Yield::nothing()
    } else {
        nodes_yield(nodes.drop_last()).and_on_top(node_yield(nodes.last()))
    }
}

/// What one part comes to.
pub open spec fn node_yield(node: Node) -> Yield
    decreases node,
{
    match node {
        Node::Group(group) => group_yield(group),
        Node::Text(letters) => group_yield(letters),
        Node::Shape(shape) => if shape.visible {
            shape_yield(shape)
        } else {
            Yield::nothing()
        },
        Node::Image => Yield::only_warnings(
            seq![
                "a raster or embedded SVG image was skipped; convert it to paths to include it"@,
            ],
        ),
    }
}

/// One layer or none, as a list of plain values.
pub open spec fn layer_list(layer: Option<PaintLayer>) -> Seq<Layer> {
    match layer {
        Some(layer) => seq![layer@],
        None => Seq::empty(),
    }
}

impl Yield {
    /// What this part gives when its layer is handed back, and what it leaves behind of
    /// the list of warnings.
    pub open spec fn is_given(
        self,
        old_warnings: Seq<String>,
        new_warnings: Seq<String>,
        result: Result<Option<PaintLayer>, ConversionError>,
    ) -> bool {
        &&& warnings::texts(new_warnings) == warnings::noted_all(
            warnings::texts(old_warnings),
            self.warnings,
        )
        &&& match self.failure {
            None => result matches Ok(layer) && layer_list(layer) == self.layers,
            Some(failure) => result matches Err(error) && error@ == failure,
        }
    }
}

/// Builds the polygons that fill an outline.
fn fill_outline(outline: &Outline, rule: FillRule) -> (result: Result<
    Vec<BezierPolygon>,
    ConversionError,
>)
    ensures
        match filled(*outline, rule) {
            Ok(expected) => result matches Ok(polygons) && polygons@ == expected,
            Err(failure) => result matches Err(error) && error@ == failure,
        },
{
    match outline {
        Ok(contours) => path_to_polygons(contours, rule),
        Err(error) => Err(ConversionError::new(error.message().to_owned())),
    }
}

/// Finds the color in which something is painted, if it shows and has one.
fn visible_color(
    opacity: &Opacity,
    paint: &Paint,
    description: &str,
    warnings: &mut Vec<String>,
) -> (color: Option<Color>)
    ensures
        color == if warnings::is_invisible(opacity.value) {
            None
        } else {
            paint::color_of(*paint)
        },
        warnings::texts(final(warnings)@) == if warnings::is_invisible(opacity.value) {
            warnings::texts(old(warnings)@)
        } else {
            warnings::noted_all(
                warnings::texts(old(warnings)@),
                warnings::opacity_warnings(*opacity, description@) + paint::paint_warnings(
                    *paint,
                    description@,
                ),
            )
        },
{
    if opacity_hides(opacity.value) {
        return None;
    }
    proof {
        warnings::lemma_noted_concat(
            warnings::texts(warnings@),
            warnings::opacity_warnings(*opacity, description@),
            paint::paint_warnings(*paint, description@),
        );
    }
    warn_if_transparent(opacity, description, warnings);
    paint_color(paint, description, warnings)
}

/// Decides whether the outline of something is looked at: only of what shows and has a color.
pub fn needs_outline(opacity: &Opacity, paint: &Paint) -> (result: bool)
    ensures
        result == (!warnings::is_invisible(opacity.value) && paint::color_of(*paint) is Some),
{
    !opacity_hides(opacity.value) && match paint {
        Paint::Pattern => false,
        _ => true,
    }
}

/// Paints the inside of a shape.
pub fn fill_layer(shape: &Shape, warnings: &mut Vec<String>) -> (result: Result<
    Option<PaintLayer>,
    ConversionError,
>)
    ensures
        fill_yield(*shape).is_given(old(warnings)@, final(warnings)@, result),
{
    let fill = match &shape.fill {
        Some(fill) => fill,
        None => {
            return Ok(None);
        },
    };
    let color = match visible_color(&fill.opacity, &fill.paint, shape.description(), warnings) {
        Some(color) => color,
        None => {
            return Ok(None);
        },
    };
    match fill_outline(&fill.outline, fill.rule) {
        Err(error) => Err(error),
        Ok(polygons) => {
            if polygons.len() == 0 {
                Ok(None)
            } else {
                Ok(Some(PaintLayer { color, polygons }))
            }
        },
    }
}

/// Paints the line along the edge of a shape.
pub fn stroke_layer(shape: &Shape, warnings: &mut Vec<String>) -> (result: Result<
    Option<PaintLayer>,
    ConversionError,
>)
    ensures
        stroke_yield(*shape).is_given(old(warnings)@, final(warnings)@, result),
{
    let stroke = match &shape.stroke {
        Some(stroke) => stroke,
        None => {
            return Ok(None);
        },
    };
    let color = match visible_color(
        &stroke.opacity,
        &stroke.paint,
        shape.description(),
        warnings,
    ) {
        Some(color) => color,
        None => {
            return Ok(None);
        },
    };
    let outline = match &stroke.outline {
        StrokeOutline::DashFailed => {
            let mut message = "could not apply the dash pattern of ".to_owned();
            message.append(shape.description());
            return Err(ConversionError::new(message));
        },
        StrokeOutline::ExpansionFailed => {
            let mut message = "could not expand the stroke of ".to_owned();
            message.append(shape.description());
            message.append(" into an outline");
            return Err(ConversionError::new(message));
        },
        StrokeOutline::Covered(outline) => outline,
    };
    match fill_outline(outline, FillRule::NonZero) {
        Err(error) => Err(error),
        Ok(polygons) => {
            if polygons.len() == 0 {
                Ok(None)
            } else {
                Ok(Some(PaintLayer { color, polygons }))
            }
        },
    }
}

/// Paints one layer on top of the others, if there is one.
fn push_layer(layers: &mut Vec<PaintLayer>, layer: Option<PaintLayer>)
    ensures
        layers::layer_views(final(layers)@) == layers::layer_views(old(layers)@) + layer_list(
            layer,
        ),
{
    match layer {
        Some(layer) => {
            layers.push(layer);
        },
        None => {},
    }
    assert(layers::layer_views(layers@) =~= layers::layer_views(old(layers)@) + layer_list(layer));
}

/// Collects the layers of a shape.
pub fn collect_path(
    shape: &Shape,
    layers: &mut Vec<PaintLayer>,
    warnings: &mut Vec<String>,
) -> (result: Result<(), ConversionError>)
    ensures
        shape_yield(*shape).happened(
            old(layers)@,
            final(layers)@,
            old(warnings)@,
            final(warnings)@,
            result,
        ),
{
    let ghost before = warnings::texts(warnings@);
    let ghost fill = fill_yield(*shape);
    let ghost stroke = stroke_yield(*shape);
    proof {
        warnings::lemma_noted_concat(before, fill.warnings, stroke.warnings);
        warnings::lemma_noted_concat(before, stroke.warnings, fill.warnings);
    }
    let (lower, upper) = match shape.paint_order {
        PaintOrder::FillAndStroke => {
            let lower = fill_layer(shape, warnings)?;
            let upper = stroke_layer(shape, warnings)?;
            (lower, upper)
        },
        PaintOrder::StrokeAndFill => {
            let lower = stroke_layer(shape, warnings)?;
            let upper = fill_layer(shape, warnings)?;
            (lower, upper)
        },
    };
    push_layer(layers, lower);
    push_layer(layers, upper);
    assert(layers::layer_views(layers@) =~= layers::layer_views(old(layers)@) + shape_yield(
        *shape,
    ).layers);
    Ok(())
}

/// Warns about effects that apply to a group as a whole.
fn warn_about_group(group: &Group, warnings: &mut Vec<String>)
    ensures
        warnings::texts(final(warnings)@) == warnings::noted_all(
            warnings::texts(old(warnings)@),
            group_warnings(*group),
        ),
{
    let ghost before = warnings::texts(warnings@);
    let ghost opacity = warnings::opacity_warnings(group.opacity, "an SVG group"@);
    let ghost blend = warning_if(
        group.blend_mode != BlendMode::Normal,
        "SVG blend mode "@ + group.blend_mode.named()
            + " was ignored and rendered as normal paint"@,
    );
    let ghost clip = warning_if(
        group.has_clip_path,
        "an SVG clip path was ignored; its artwork was converted unclipped"@,
    );
    let ghost mask = warning_if(
        group.has_mask,
        "an SVG mask was ignored; its artwork was converted unmasked"@,
    );
    let ghost filters = warning_if(
        group.has_filters,
        "one or more SVG filters were ignored while converting their artwork"@,
    );
    proof {
        warnings::lemma_noted_concat(before, opacity, blend);
        warnings::lemma_noted_concat(before, opacity + blend, clip);
        warnings::lemma_noted_concat(before, opacity + blend + clip, mask);
        warnings::lemma_noted_concat(before, opacity + blend + clip + mask, filters);
    }
    warn_if_transparent(&group.opacity, "an SVG group", warnings);
    if group.blend_mode != BlendMode::Normal {
        let mut warning = "SVG blend mode ".to_owned();
        warning.append(group.blend_mode.name());
        warning.append(" was ignored and rendered as normal paint");
        proof {
            warnings::lemma_noted_one(warnings::texts(warnings@), warning@);
        }
        push_warning(warnings, warning);
    }
    if group.has_clip_path {
        proof {
            warnings::lemma_noted_one(warnings::texts(warnings@), clip[0]);
        }
        push_warning(
            warnings,
            "an SVG clip path was ignored; its artwork was converted unclipped".to_owned(),
        );
    }
    if group.has_mask {
        proof {
            warnings::lemma_noted_one(warnings::texts(warnings@), mask[0]);
        }
        push_warning(
            warnings,
            "an SVG mask was ignored; its artwork was converted unmasked".to_owned(),
        );
    }
    if group.has_filters {
        proof {
            warnings::lemma_noted_one(warnings::texts(warnings@), filters[0]);
        }
        push_warning(
            warnings,
            "one or more SVG filters were ignored while converting their artwork".to_owned(),
        );
    }
}

/// Once a part fails, the parts above it are not reached.
proof fn lemma_failure_is_final(nodes: Seq<Node>, count: int)
    requires
        0 <= count <= nodes.len(),
    ensures
        nodes_yield(nodes.take(count)).failure is Some ==> nodes_yield(nodes) == nodes_yield(
            nodes.take(count),
        ),
    decreases nodes.len(),
{
    if count == nodes.len() {
        assert(nodes.take(count) == nodes);
    } else {
        assert(nodes.drop_last().take(count) == nodes.take(count));
        lemma_failure_is_final(nodes.drop_last(), count);
    }
}

/// Collects the layers of a group.
#[verifier::rlimit(40)]
#[verifier::spinoff_prover]
pub fn collect_group(
    group: &Group,
    layers: &mut Vec<PaintLayer>,
    warnings: &mut Vec<String>,
) -> (result: Result<(), ConversionError>)
    ensures
        group_yield(*group).happened(
            old(layers)@,
            final(layers)@,
            old(warnings)@,
            final(warnings)@,
            result,
        ),
    decreases group,
{
    if opacity_hides(group.opacity.value) {
        assert(layers::layer_views(layers@) =~= layers::layer_views(old(layers)@)
            + Yield::nothing().layers);
        return Ok(());
    }
    warn_about_group(group, warnings);
    let ghost first = Yield::only_warnings(group_warnings(*group));
    let ghost nodes = group.children@;
    let mut position: usize = 0;
    proof {
        assert(nodes.take(0).len() == 0);
        assert(first.and_on_top(nodes_yield(nodes.take(0))) =~= first);
        assert(layers::layer_views(layers@) =~= layers::layer_views(old(layers)@) + first.layers);
    }
    while position < group.children.len()
        invariant
            position <= group.children.len(),
            nodes == group.children@,
            !warnings::is_invisible(group.opacity.value),
            first == Yield::only_warnings(group_warnings(*group)),
            nodes_yield(nodes.take(position as int)).failure is None,
            first.and_on_top(nodes_yield(nodes.take(position as int))).happened(
                old(layers)@,
                layers@,
                old(warnings)@,
                warnings@,
                Ok(()),
            ),
        decreases group.children.len() - position,
    {
        let ghost below = first.and_on_top(nodes_yield(nodes.take(position as int)));
        let ghost part = node_yield(nodes[position as int]);
        let ghost layers_below = layers@;
        let ghost warnings_below = warnings@;
        proof {
            let upto = nodes.take(position as int + 1);
            assert(upto.drop_last() == nodes.take(position as int));
            assert(upto.last() == nodes[position as int]);
            assert(nodes_yield(upto) == nodes_yield(nodes.take(position as int)).and_on_top(part));
            assert(first.and_on_top(nodes_yield(upto)) =~= below.and_on_top(part));
            lemma_failure_is_final(nodes, position as int + 1);
            warnings::lemma_noted_concat(
                warnings::texts(old(warnings)@),
                below.warnings,
                part.warnings,
            );
            assert(layers::layer_views(old(layers)@) + (below.layers + part.layers)
                =~= layers::layer_views(old(layers)@) + below.layers + part.layers);
            assert(layers::layer_views(layers_below) + Seq::<Layer>::empty()
                =~= layers::layer_views(layers_below));
        }
        match &group.children[position] {
            Node::Group(child) => {
                collect_group(child, layers, warnings)?;
            },
            Node::Shape(shape) => {
                if shape.visible {
                    collect_path(shape, layers, warnings)?;
                }
            },
            Node::Text(letters) => {
                collect_group(letters, layers, warnings)?;
            },
            Node::Image => {
                proof {
                    warnings::lemma_noted_one(warnings::texts(warnings@), part.warnings[0]);
                }
                push_warning(
                    warnings,
                    "a raster or embedded SVG image was skipped; convert it to paths to include it".to_owned(),
                );
            },
        }
        position += 1;
    }
    proof {
        assert(nodes.take(position as int) == nodes);
    }
    Ok(())
}

} // verus!
