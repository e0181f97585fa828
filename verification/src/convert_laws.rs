//! What holds of every converted map.

use crate::collect;
use crate::convert;
use crate::convert::Conversion;
use crate::document;
use crate::document::{MapColor, MapSymbol, SymbolElement};
use crate::drawing::{Color, Drawing, Group, Node, Shape};
use crate::error::ConversionError;
use crate::layers;
use crate::layers::Layer;
use crate::options::{Code, ConversionOptions};
use crate::paint;
use crate::text;
use crate::warnings;
use omap::objects::BezierPolygon;
use omap::Omap;
use vstd::prelude::*;

verus! {

/// The elements of the point symbol of a map that has just this symbol.
pub open spec fn elements(map: Omap) -> Seq<SymbolElement> {
    match document::map_symbols(map)[0] {
        MapSymbol::Point(symbol) => document::symbol_elements(symbol),
        MapSymbol::Other => Seq::empty(),
    }
}

/// Whether an element of a map's point symbol has the color at a position of the map's
/// list of colors.
pub open spec fn is_colored(map: Omap, element: int, position: int) -> bool {
    &&& 0 <= position < document::map_colors(map).len()
    &&& elements(map)[element] matches SymbolElement::Area { color, .. }
        && document::map_colors(map)[position].id == color
}

/// Whether an element shows a painted polygon, in the color in which it is painted.
pub open spec fn shows(
    map: Omap,
    element: int,
    position: int,
    painted: (Color, BezierPolygon),
) -> bool {
    &&& is_colored(map, element, position)
    &&& elements(map)[element] matches SymbolElement::Area { polygon, .. } && polygon == painted.1
    &&& forall|notation: Seq<char>| #[trigger]
        paint::notes_color(notation, painted.0) ==> document::map_colors(map)[position].cmyk
            == document::rgb_to_cmyk(document::parsed_rgb(notation).unwrap())
    &&& document::map_colors(map)[position].knockout
}

/// Whether an element shows a painted polygon, in a color of the map.
pub open spec fn is_shown(
    map: Omap,
    element: int,
    painted: (Color, BezierPolygon),
) -> bool {
    exists|position: int| #[trigger] shows(map, element, position, painted)
}

/// The layer of one element.
proof fn lemma_element_layer(list: Seq<Layer>, colors: Seq<MapColor>, count: nat, k: int) -> (layer:
    int)
    requires
        count <= list.len(),
        0 <= k < layers::painting(list.take(count as int)).len(),
    ensures
        0 <= layer < count,
        k < convert::layer_areas(list, colors, count).len(),
        layers::painting(list.take(count as int))[k].0 == list[layer].color,
        convert::layer_areas(list, colors, count)[k] == (SymbolElement::Area {
            code: Code { major: 0, minor: 0, patch: 0 },
            name: Seq::empty(),
            color: convert::layer_color(colors, layer).id,
            polygon: layers::painting(list.take(count as int))[k].1,
        }),
    decreases count,
{
    assert(list.take(count as int).drop_last() == list.take(count - 1));
    let lower = layers::painting(list.take(count - 1));
    convert::lemma_layer_areas_length(list, colors, (count - 1) as nat);
    if k < lower.len() {
        lemma_element_layer(list, colors, (count - 1) as nat, k)
    } else {
        count - 1
    }
}

/// The layers of two elements are in the order of the elements.
proof fn lemma_element_layers(
    list: Seq<Layer>,
    colors: Seq<MapColor>,
    count: nat,
    k: int,
    l: int,
) -> (result: (int, int))
    requires
        count <= list.len(),
        0 <= k <= l < layers::painting(list.take(count as int)).len(),
    ensures
        0 <= result.0 <= result.1 < count,
        l < convert::layer_areas(list, colors, count).len(),
        convert::layer_areas(list, colors, count)[k] matches SymbolElement::Area { color, .. }
            && color == convert::layer_color(colors, result.0).id,
        convert::layer_areas(list, colors, count)[l] matches SymbolElement::Area { color, .. }
            && color == convert::layer_color(colors, result.1).id,
    decreases count,
{
    assert(list.take(count as int).drop_last() == list.take(count - 1));
    let lower = layers::painting(list.take(count - 1));
    convert::lemma_layer_areas_length(list, colors, (count - 1) as nat);
    if l < lower.len() {
        lemma_element_layers(list, colors, (count - 1) as nat, k, l)
    } else if k < lower.len() {
        (lemma_element_layer(list, colors, (count - 1) as nat, k), count - 1)
    } else {
        (count - 1, count - 1)
    }
}

/// The map shows what the artwork paints: its elements are the painted polygons in the order
/// of painting, each in its color, and every color replaces what lies below it.
pub proof fn law_map_shows_the_painting(
    map: Omap,
    list: Seq<Layer>,
    scale: nat,
    code: Code,
    name: Seq<char>,
)
    requires
        convert::is_map_of(map, layers::merged(list), scale, code, name),
    ensures
        elements(map).len() == layers::painting(list).len(),
        forall|k: int|
            0 <= k < elements(map).len() ==> #[trigger] is_shown(
                map,
                k,
                layers::painting(list)[k],
            ),
{
    let merged = layers::merged(list);
    let colors = document::map_colors(map);
    layers::law_merging_keeps_the_painting(list);
    convert::lemma_layer_areas_length(merged, colors, merged.len());
    assert(merged.take(merged.len() as int) == merged);
    assert forall|k: int| 0 <= k < elements(map).len() implies #[trigger] is_shown(
        map,
        k,
        layers::painting(list)[k],
    ) by {
        let layer = lemma_element_layer(merged, colors, merged.len(), k);
        assert(convert::layer_color(colors, layer).knockout);
        paint::law_colors_read_back(merged[layer].color);
        assert(shows(map, k, colors.len() - 1 - layer, layers::painting(list)[k]));
    }
}

/// The list of colors preserves the drawing order: what is painted later has a color of the
/// same or of a higher priority.
pub proof fn law_colors_preserve_the_drawing_order(
    map: Omap,
    list: Seq<Layer>,
    scale: nat,
    code: Code,
    name: Seq<char>,
    lower: int,
    upper: int,
    lower_position: int,
    upper_position: int,
)
    requires
        convert::is_map_of(map, layers::merged(list), scale, code, name),
        0 <= lower <= upper < elements(map).len(),
        is_colored(map, lower, lower_position),
        is_colored(map, upper, upper_position),
    ensures
        upper_position <= lower_position,
{
    let merged = layers::merged(list);
    let colors = document::map_colors(map);
    convert::lemma_layer_areas_length(merged, colors, merged.len());
    assert(merged.take(merged.len() as int) == merged);
    let (first, second) = lemma_element_layers(merged, colors, merged.len(), lower, upper);
    assert(colors[colors.len() - 1 - first].id == colors[lower_position].id);
    assert(colors[colors.len() - 1 - second].id == colors[upper_position].id);
}

/// A converted map is valid: it passes the validation of the document.
pub proof fn law_converted_maps_are_valid(
    map: Omap,
    list: Seq<Layer>,
    scale: nat,
    code: Code,
    name: Seq<char>,
)
    requires
        convert::is_map_of(map, list, scale, code, name),
    ensures
        document::is_simple(map),
        document::refers_to_own_colors(map),
{
}

/// No two colors of a converted map have the same name, on screen or in print.
pub proof fn law_color_names_differ(
    map: Omap,
    list: Seq<Layer>,
    scale: nat,
    code: Code,
    name: Seq<char>,
    first: int,
    second: int,
)
    requires
        convert::is_map_of(map, list, scale, code, name),
        0 <= first < second < document::map_colors(map).len(),
    ensures
        document::map_colors(map)[first].name != document::map_colors(map)[second].name,
        document::map_colors(map)[first].spot_name != document::map_colors(map)[second].spot_name,
{
    let colors = document::map_colors(map);
    let i = colors.len() - 1 - first;
    let j = colors.len() - 1 - second;
    assert(colors[first] == convert::layer_color(colors, i));
    assert(colors[second] == convert::layer_color(colors, j));
    let a = text::decimal((i + 1) as nat);
    let b = text::decimal((j + 1) as nat);
    let label = "svg-layer-"@;
    if colors[first].spot_name == colors[second].spot_name {
        assert((label + a).skip(label.len() as int) =~= a);
        assert((label + b).skip(label.len() as int) =~= b);
        text::lemma_decimal_injective((i + 1) as nat, (j + 1) as nat);
    }
    let start = "SVG layer "@;
    let p = paint::hex(list[i].color);
    let q = paint::hex(list[j].color);
    assert(p.len() == q.len());
    if colors[first].name == colors[second].name {
        let x = colors[first].name;
        let y = colors[second].name;
        let close = " ("@.len() + p.len() + ")"@.len();
        assert(x.len() == start.len() + a.len() + close);
        assert(y.len() == start.len() + b.len() + close);
        assert(x.subrange(start.len() as int, (start.len() + a.len()) as int) =~= a);
        assert(y.subrange(start.len() as int, (start.len() + b.len()) as int) =~= b);
        text::lemma_decimal_injective((i + 1) as nat, (j + 1) as nat);
    }
}

/// A conversion warns of exactly what the artwork gives rise to, of everything once.
pub proof fn law_every_warning_is_given_once(
    drawing: Drawing,
    options: ConversionOptions,
    result: Result<Conversion, ConversionError>,
)
    requires
        convert::is_conversion_of(drawing, options, result),
        result is Ok,
    ensures
        ({
            let given = warnings::texts(result->Ok_0.warnings@);
            &&& given.no_duplicates()
            &&& forall|warning: Seq<char>| #[trigger]
                given.contains(warning) <==> collect::group_yield(
                    drawing.root,
                ).warnings.contains(warning)
        }),
{
    warnings::law_no_warning_is_repeated(
        Seq::empty(),
        collect::group_yield(drawing.root).warnings,
    );
    warnings::law_no_warning_is_lost(Seq::empty(), collect::group_yield(drawing.root).warnings);
}

/// How many fills and strokes a group has, its parts included.
pub open spec fn group_paints(group: Group) -> nat
    decreases group,
{
    nodes_paints(group.children@)
}

/// How many fills and strokes some parts have together.
pub open spec fn nodes_paints(nodes: Seq<Node>) -> nat
    decreases nodes,
{
    if nodes.len() == 0 {
        0
    } else {
        nodes_paints(nodes.drop_last()) + node_paints(nodes.last())
    }
}

/// How many fills and strokes one part has.
pub open spec fn node_paints(node: Node) -> nat
    decreases node,
{
    match node {
        Node::Group(group) => group_paints(group),
        Node::Text(letters) => group_paints(letters),
        Node::Shape(shape) => shape_paints(shape),
        Node::Image => 0,
    }
}

/// How many fills and strokes a shape has.
pub open spec fn shape_paints(shape: Shape) -> nat {
    (if shape.fill is Some { 1nat } else { 0 }) + (if shape.stroke is Some { 1nat } else { 0 })
}

/// A group paints no more layers than it has fills and strokes.
proof fn lemma_group_layers(group: Group)
    ensures
        collect::group_yield(group).layers.len() <= group_paints(group),
    decreases group,
{
    lemma_nodes_layers(group.children@);
}

/// Some parts paint no more layers than they have fills and strokes.
proof fn lemma_nodes_layers(nodes: Seq<Node>)
    ensures
        collect::nodes_yield(nodes).layers.len() <= nodes_paints(nodes),
    decreases nodes,
{
    if nodes.len() > 0 {
        lemma_nodes_layers(nodes.drop_last());
        assert(nodes_paints(nodes) == nodes_paints(nodes.drop_last()) + node_paints(nodes.last()));
        assert(collect::nodes_yield(nodes) == collect::nodes_yield(nodes.drop_last()).and_on_top(
            collect::node_yield(nodes.last()),
        ));
        match nodes.last() {
            Node::Group(group) => lemma_group_layers(group),
            Node::Text(letters) => lemma_group_layers(letters),
            Node::Shape(_) => {},
            Node::Image => {},
        }
    }
}

/// Joining makes no more layers.
proof fn lemma_merged_length(list: Seq<Layer>)
    ensures
        layers::merged(list).len() <= list.len(),
    decreases list.len(),
{
    if list.len() > 0 {
        lemma_merged_length(list.drop_last());
    }
}

/// A conversion counts as elements exactly the polygons that the artwork paints, and as
/// layers no more than it has fills and strokes.
pub proof fn law_counts_agree_with_the_map(
    drawing: Drawing,
    options: ConversionOptions,
    result: Result<Conversion, ConversionError>,
)
    requires
        convert::is_conversion_of(drawing, options, result),
        result is Ok,
    ensures
        ({
            let conversion = result->Ok_0;
            let painted = collect::group_yield(drawing.root).layers;
            &&& conversion.area_elements == elements(conversion.map).len()
            &&& conversion.area_elements == layers::painting(painted).len()
            &&& conversion.paint_layers == document::map_colors(conversion.map).len()
            &&& conversion.paint_layers <= group_paints(drawing.root)
        }),
{
    let painted = collect::group_yield(drawing.root).layers;
    law_map_shows_the_painting(
        result->Ok_0.map,
        painted,
        options.map_scale as nat,
        options.symbol_code,
        options.symbol_name@,
    );
    layers::law_merging_keeps_the_painting(painted);
    lemma_group_layers(drawing.root);
    lemma_merged_length(painted);
}

/// The color of a layer is named by the number of the layer, counted from one at the bottom,
/// and by the notation of the layer's own color. Its inks are those of this notation, channel
/// by channel. It replaces what lies below it, and has a handle of its own. The color of the
/// topmost layer comes first.
pub proof fn law_colors_are_those_of_the_layers(
    map: Omap,
    list: Seq<Layer>,
    scale: nat,
    code: Code,
    name: Seq<char>,
    index: int,
    notation: Seq<char>,
    number: Seq<char>,
)
    requires
        convert::is_map_of(map, list, scale, code, name),
        0 <= index < list.len(),
        paint::notes_color(notation, list[index].color),
        text::is_decimal(number),
        text::read_decimal(number) == index + 1,
    ensures
        ({
            let colors = document::map_colors(map);
            let color = colors[list.len() - 1 - index];
            &&& colors.len() == list.len()
            &&& color.cmyk == document::rgb_to_cmyk(document::parsed_rgb(notation).unwrap())
            &&& color.name == "SVG layer "@ + number + " ("@ + notation + ")"@
            &&& color.spot_name == "svg-layer-"@ + number
            &&& color.knockout
            &&& forall|other: int|
                0 <= other < colors.len() && other != list.len() - 1 - index
                    ==> (#[trigger] colors[other]).id != color.id
        }),
{
    let colors = document::map_colors(map);
    paint::law_colors_read_back(list[index].color);
    text::law_decimal_notation_is_unique(number, (index + 1) as nat);
    assert(convert::layer_color(colors, index) == colors[list.len() - 1 - index]);
    assert forall|other: int|
        0 <= other < colors.len() && other != list.len() - 1 - index implies (
    #[trigger] colors[other]).id != colors[list.len() - 1 - index].id by {
        let own = list.len() - 1 - index;
        if other < own {
            assert(colors[other].id != colors[own].id);
        } else {
            assert(colors[own].id != colors[other].id);
        }
    }
}

/// The elements of a layer come after those of the layers below it, one for every polygon of
/// the layer and in their order. Each is an area without a name, of the layer's color.
pub proof fn law_areas_are_those_of_the_layers(
    map: Omap,
    list: Seq<Layer>,
    scale: nat,
    code: Code,
    name: Seq<char>,
    index: int,
    place: int,
)
    requires
        convert::is_map_of(map, list, scale, code, name),
        0 <= index < list.len(),
        0 <= place < list[index].polygons.len(),
    ensures
        ({
            let below = layers::painting(list.take(index)).len() as int;
            &&& below + place < elements(map).len()
            &&& elements(map)[below + place] == (SymbolElement::Area {
                code: Code { major: 0, minor: 0, patch: 0 },
                name: Seq::empty(),
                color: document::map_colors(map)[list.len() - 1 - index].id,
                polygon: list[index].polygons[place],
            })
        }),
        elements(map).len() == layers::painting(list).len(),
{
    let colors = document::map_colors(map);
    convert::lemma_layer_areas_length(list, colors, index as nat);
    convert::lemma_layer_areas_length(list, colors, list.len());
    assert(list.take(list.len() as int) =~= list);
    lemma_areas_stay(list, colors, (index + 1) as nat, list.len());
    let below = convert::layer_areas(list, colors, index as nat);
    let upto = convert::layer_areas(list, colors, (index + 1) as nat);
    assert(upto[below.len() + place] == convert::areas(
        list[index].polygons,
        convert::layer_color(colors, index).id,
    )[place]);
}

/// The elements of the layers below come first.
proof fn lemma_areas_stay(list: Seq<Layer>, colors: Seq<MapColor>, fewer: nat, count: nat)
    requires
        fewer <= count,
    ensures
        convert::layer_areas(list, colors, fewer).is_prefix_of(
            convert::layer_areas(list, colors, count),
        ),
    decreases count,
{
    if fewer < count {
        lemma_areas_stay(list, colors, fewer, (count - 1) as nat);
    }
}

/// A conversion fails with the objection to its options, if there is one, else with the
/// failure of the artwork, if there is one. Else it gives a map with the scale, the code and
/// the name of the options, with one symbol and nothing on it, the sizes of the drawing, and
/// what the artwork is warned of.
pub proof fn law_a_conversion_is_made_to_its_options(
    drawing: Drawing,
    options: ConversionOptions,
    result: Result<Conversion, ConversionError>,
)
    requires
        convert::is_conversion_of(drawing, options, result),
    ensures
        ({
            let artwork = collect::group_yield(drawing.root);
            &&& options.objection() matches Some(objection) ==> (result matches Err(error)
                && error@ == objection)
            &&& options.objection() is None && artwork.failure is Some ==> (result matches Err(error)
                && artwork.failure == Some(error@))
            &&& options.objection() is None && artwork.failure is None ==> result is Ok
            &&& result matches Ok(conversion) ==> {
                &&& document::map_scale(conversion.map) == options.map_scale
                &&& document::map_object_count(conversion.map) == 0
                &&& document::map_symbols(conversion.map).len() == 1
                &&& document::map_symbols(conversion.map)[0] matches MapSymbol::Point(symbol)
                    && document::symbol_code(symbol) == options.symbol_code
                    && document::symbol_name(symbol) == options.symbol_name@
                &&& conversion.width_mm == drawing.width_mm
                &&& conversion.height_mm == drawing.height_mm
                &&& conversion.paint_layers == layers::merged(artwork.layers).len()
                &&& convert::is_map_of(
                    conversion.map,
                    layers::merged(artwork.layers),
                    options.map_scale as nat,
                    options.symbol_code,
                    options.symbol_name@,
                )
                &&& warnings::texts(conversion.warnings@) == warnings::noted_all(
                    Seq::empty(),
                    artwork.warnings,
                )
            }
        }),
{
}

/// A map can be made of whatever has a scale, up to a number of layers that no artwork of
/// ordinary size comes near; what fails anyway can be answered for in any case.
pub proof fn law_maps_can_be_made(drawing: Drawing, options: ConversionOptions)
    requires
        options.map_scale > 0,
    ensures
        layers::merged(collect::group_yield(drawing.root).layers).len() <= 0xffff_fffe
            ==> convert::can_be_made(drawing, options),
        options.objection() is Some || collect::group_yield(drawing.root).failure is Some
            ==> convert::can_be_made(drawing, options),
{
}

} // verus!
