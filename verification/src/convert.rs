//! The conversion as a whole: artwork in, map out.

use crate::collect;
use crate::collect::collect_group;
use crate::binary64::Binary64;
use crate::document;
use crate::document::{
    add_point_symbol, cmyk_from_rgb, element_count, insert_color, new_map, new_point_symbol,
    parse_rgb, push_area_element, validate_map, MapColor, MapSymbol, SymbolElement,
};
use crate::drawing::{Color, Drawing};
use crate::error::ConversionError;
use crate::layers;
use crate::layers::{merge_adjacent_layers, Layer, PaintLayer};
use crate::options::{validate_options, Code, ConversionOptions};
use crate::paint;
use crate::paint::color_hex;
use crate::text;
use crate::text::decimal_text;
use crate::warnings;
use omap::colors::{Cmyk, ColorId};
use omap::objects::BezierPolygon;
use omap::symbols::PointSymbol;
use omap::Omap;
use vstd::prelude::*;
use vstd::string::*;

verus! {

/// The converted map and useful conversion statistics.
#[derive(Debug)]
pub struct Conversion {
    /// An otherwise empty OMAP document containing one point symbol.
    pub map: Omap,
    /// Physical SVG viewport width in millimetres.
    pub width_mm: Binary64,
    /// Physical SVG viewport height in millimetres.
    pub height_mm: Binary64,
    /// Number of SVG fill/stroke paint layers converted.
    pub paint_layers: usize,
    /// Number of area elements created inside the point symbol.
    pub area_elements: usize,
    /// Non-fatal SVG features that were approximated or skipped.
    pub warnings: Vec<String>,
}

/// The display name of the color of a layer, the layers being counted from zero.
pub open spec fn color_name(index: int, color: Color) -> Seq<char> {
    "SVG layer "@ + text::decimal((index + 1) as nat) + " ("@ + paint::hex(color) + ")"@
}

/// The printing name of the color of a layer.
pub open spec fn spot_name(index: int) -> Seq<char> {
    "svg-layer-"@ + text::decimal((index + 1) as nat)
}

/// The ink values of a color.
pub open spec fn inks(color: Color) -> Cmyk {
    document::rgb_to_cmyk(document::parsed_rgb(paint::hex(color)).unwrap())
}

/// The handle of the color of a layer. The color of the topmost layer comes first in the
/// map.
pub open spec fn layer_color(colors: Seq<MapColor>, index: int) -> MapColor {
    colors[colors.len() - 1 - index]
}

/// Whether a map has exactly one color for every layer: later layers have priority over
/// earlier ones and replace what lies below them.
pub open spec fn are_layer_colors(colors: Seq<MapColor>, layers: Seq<Layer>) -> bool {
    &&& colors.len() == layers.len()
    &&& forall|i: int|
        0 <= i < layers.len() ==> {
            let color = #[trigger] layer_color(colors, i);
            &&& color.name == color_name(i, layers[i].color)
            &&& color.spot_name == spot_name(i)
            &&& color.cmyk == inks(layers[i].color)
            &&& color.knockout
        }
    &&& forall|i: int, j: int|
        0 <= i < j < colors.len() ==> (#[trigger] colors[i]).id != (#[trigger] colors[j]).id
}

/// The elements for some polygons of one color.
pub open spec fn areas(
    polygons: Seq<BezierPolygon>,
    color: ColorId,
) -> Seq<SymbolElement> {
    Seq::new(
        polygons.len(),
        |i: int|
            SymbolElement::Area {
                code: Code { major: 0, minor: 0, patch: 0 },
                name: Seq::empty(),
                color,
                polygon: polygons[i],
            },
    )
}

/// The elements for the first `count` layers: one area for every polygon, in the color of
/// its layer.
pub open spec fn layer_areas(
    layers: Seq<Layer>,
    colors: Seq<MapColor>,
    count: nat,
) -> Seq<SymbolElement>
    decreases count,
{
    if count == 0 {
        Seq::empty()
    } else {
        layer_areas(layers, colors, (count - 1) as nat) + areas(
            layers[count - 1].polygons,
            layer_color(colors, count - 1).id,
        )
    }
}

/// Whether a map is empty but for one point symbol that shows some layers.
pub open spec fn is_map_of(
    map: Omap,
    layers: Seq<Layer>,
    scale: nat,
    code: Code,
    name: Seq<char>,
) -> bool {
    let colors = document::map_colors(map);
    &&& document::map_scale(map) == scale
    &&& document::map_object_count(map) == 0
    &&& are_layer_colors(colors, layers)
    &&& document::map_symbols(map).len() == 1
    &&& document::map_symbols(map)[0] matches MapSymbol::Point(symbol) && {
        &&& document::symbol_code(symbol) == code
        &&& document::symbol_name(symbol) == name
        &&& document::symbol_elements(symbol) == layer_areas(layers, colors, layers.len())
        &&& forall|id: ColorId| #[trigger]
            document::symbol_colors(symbol).contains(id) ==> document::has_color(colors, id)
    }
}

/// What converting some artwork with some options results in.
pub open spec fn is_conversion_of(
    drawing: Drawing,
    options: ConversionOptions,
    result: Result<Conversion, ConversionError>,
) -> bool {
    let artwork = collect::group_yield(drawing.root);
    let list = layers::merged(artwork.layers);
    match (options.objection(), artwork.failure) {
        (Some(objection), _) => result matches Err(error) && error@ == objection,
        (None, Some(failure)) => result matches Err(error) && error@ == failure,
        (None, None) => result matches Ok(conversion) && {
            &&& is_map_of(
                conversion.map,
                list,
                options.map_scale as nat,
                options.symbol_code,
                options.symbol_name@,
            )
            &&& conversion.width_mm == drawing.width_mm
            &&& conversion.height_mm == drawing.height_mm
            &&& conversion.paint_layers == list.len()
            &&& conversion.area_elements == layers::painting(list).len()
            &&& warnings::texts(conversion.warnings@) == warnings::noted_all(
                Seq::empty(),
                artwork.warnings,
            )
        },
    }
}

/// Whether a map can be made: it has a scale, and no more colors than a map can hold, of
/// which it needs one for every layer.
pub open spec fn can_be_made(drawing: Drawing, options: ConversionOptions) -> bool {
    let artwork = collect::group_yield(drawing.root);
    &&& options.map_scale != 0
    &&& options.objection() is None && artwork.failure is None ==> layers::merged(
        artwork.layers,
    ).len() < u32::MAX
}

/// The notation of a color is one that parses.
proof fn lemma_hex_is_hex_color(color: Color)
    ensures
        document::is_hex_color(paint::hex(color)),
{
    reveal_strlit("#");
}

/// Elements of layers do not depend on the colors of layers above them.
proof fn lemma_layer_areas_below(
    list: Seq<Layer>,
    colors: Seq<MapColor>,
    new: MapColor,
    count: nat,
)
    requires
        count <= colors.len(),
    ensures
        layer_areas(list, colors.insert(0, new), count) == layer_areas(list, colors, count),
    decreases count,
{
    if count > 0 {
        lemma_layer_areas_below(list, colors, new, (count - 1) as nat);
        assert(layer_color(colors.insert(0, new), count - 1) == layer_color(colors, count - 1));
    }
}

/// There is one element for every polygon that is painted.
pub proof fn lemma_layer_areas_length(list: Seq<Layer>, colors: Seq<MapColor>, count: nat)
    requires
        count <= list.len(),
    ensures
        layer_areas(list, colors, count).len() == layers::painting(list.take(count as int)).len(),
    decreases count,
{
    if count > 0 {
        lemma_layer_areas_length(list, colors, (count - 1) as nat);
        assert(list.take(count as int).drop_last() == list.take(count - 1));
    }
}

/// What has been built so far: the colors and the elements of the first `count` layers.
spec fn is_underway(
    map: Omap,
    symbol: PointSymbol,
    list: Seq<Layer>,
    count: int,
    options: ConversionOptions,
) -> bool {
    let colors = document::map_colors(map);
    &&& document::map_scale(map) == options.map_scale
    &&& document::map_object_count(map) == 0
    &&& document::map_symbols(map).len() == 0
    &&& are_layer_colors(colors, list.take(count))
    &&& document::symbol_code(symbol) == options.symbol_code
    &&& document::symbol_name(symbol) == options.symbol_name@
    &&& document::symbol_elements(symbol) == layer_areas(list, colors, count as nat)
    &&& forall|id: ColorId| #[trigger]
        document::symbol_colors(symbol).contains(id) ==> document::has_color(colors, id)
}

/// Gives a layer its color, above the colors of the layers below it.
fn add_layer_color(map: &mut Omap, index: usize, color: Color) -> (id: ColorId)
    requires
        document::map_colors(*old(map)).len() + 1 < u32::MAX,
        index < usize::MAX,
    ensures
        !document::has_color(document::map_colors(*old(map)), id),
        document::map_colors(*final(map)) == document::map_colors(*old(map)).insert(
            0,
            (MapColor {
                id,
                name: color_name(index as int, color),
                spot_name: spot_name(index as int),
                cmyk: inks(color),
                knockout: true,
            }),
        ),
        document::map_scale(*final(map)) == document::map_scale(*old(map)),
        document::map_symbols(*final(map)) == document::map_symbols(*old(map)),
        document::map_object_count(*final(map)) == document::map_object_count(*old(map)),
{
    let hex = color_hex(color);
    proof {
        lemma_hex_is_hex_color(color);
    }
    let rgb = parse_rgb(hex.as_str()).unwrap();
    let number = decimal_text(index + 1);
    let mut name = "SVG layer ".to_owned();
    name.append(number.as_str());
    name.append(" (");
    name.append(hex.as_str());
    name.append(")");
    let mut printed = "svg-layer-".to_owned();
    printed.append(number.as_str());
    // Paint is opaque and replaces what is below it.
    insert_color(map, 0, name, printed, cmyk_from_rgb(rgb), true).unwrap()
}

/// Adds the polygons of a layer to a point symbol, in one color.
fn add_layer_areas(symbol: &mut PointSymbol, polygons: &Vec<BezierPolygon>, color: ColorId)
    ensures
        document::symbol_elements(*final(symbol)) == document::symbol_elements(*old(symbol))
            + areas(polygons@, color),
        document::symbol_code(*final(symbol)) == document::symbol_code(*old(symbol)),
        document::symbol_name(*final(symbol)) == document::symbol_name(*old(symbol)),
        forall|id: ColorId| #[trigger]
            document::symbol_colors(*final(symbol)).contains(id) ==> id == color
                || document::symbol_colors(*old(symbol)).contains(id),
{
    proof {
        reveal_strlit("");
    }
    let mut position: usize = 0;
    while position < polygons.len()
        invariant
            position <= polygons.len(),
            ""@.len() == 0,
            document::symbol_elements(*symbol) == document::symbol_elements(*old(symbol)) + areas(
                polygons@.take(position as int),
                color,
            ),
            document::symbol_code(*symbol) == document::symbol_code(*old(symbol)),
            document::symbol_name(*symbol) == document::symbol_name(*old(symbol)),
            forall|id: ColorId| #[trigger]
                document::symbol_colors(*symbol).contains(id) ==> id == color
                    || document::symbol_colors(*old(symbol)).contains(id),
        decreases polygons.len() - position,
    {
        push_area_element(
            symbol,
            Code { major: 0, minor: 0, patch: 0 },
            "",
            color,
            polygons[position].clone(),
        );
        proof {
            assert(""@ =~= Seq::<char>::empty());
        }
        position += 1;
    }
    proof {
        assert(polygons@.take(position as int) == polygons@);
    }
}

/// One more layer keeps what has been built in order.
proof fn lemma_underway_step(
    map: Omap,
    new_map: Omap,
    symbol: PointSymbol,
    new_symbol: PointSymbol,
    list: Seq<Layer>,
    count: int,
    options: ConversionOptions,
    new: MapColor,
)
    requires
        0 <= count < list.len(),
        is_underway(map, symbol, list, count, options),
        !document::has_color(document::map_colors(map), new.id),
        new.name == color_name(count, list[count].color),
        new.spot_name == spot_name(count),
        new.cmyk == inks(list[count].color),
        new.knockout,
        document::map_colors(new_map) == document::map_colors(map).insert(0, new),
        document::map_scale(new_map) == document::map_scale(map),
        document::map_symbols(new_map) == document::map_symbols(map),
        document::map_object_count(new_map) == document::map_object_count(map),
        document::symbol_elements(new_symbol) == document::symbol_elements(symbol) + areas(
            list[count].polygons,
            new.id,
        ),
        document::symbol_code(new_symbol) == document::symbol_code(symbol),
        document::symbol_name(new_symbol) == document::symbol_name(symbol),
        forall|id: ColorId| #[trigger]
            document::symbol_colors(new_symbol).contains(id) ==> id == new.id
                || document::symbol_colors(symbol).contains(id),
    ensures
        is_underway(new_map, new_symbol, list, count + 1, options),
{
    let colors = document::map_colors(map);
    let new_colors = document::map_colors(new_map);
    let done = list.take(count + 1);
    assert(new_colors.len() == done.len());
    assert forall|i: int| 0 <= i < done.len() implies {
        let color = #[trigger] layer_color(new_colors, i);
        &&& color.name == color_name(i, done[i].color)
        &&& color.spot_name == spot_name(i)
        &&& color.cmyk == inks(done[i].color)
        &&& color.knockout
    } by {
        if i < count {
            assert(layer_color(new_colors, i) == layer_color(colors, i));
            assert(done[i] == list.take(count)[i]);
        }
    }
    assert forall|i: int, j: int| 0 <= i < j < new_colors.len() implies (
    #[trigger] new_colors[i]).id != (#[trigger] new_colors[j]).id by {
        assert(new_colors[j] == colors[j - 1]);
        if i > 0 {
            assert(new_colors[i] == colors[i - 1]);
        }
    }
    lemma_layer_areas_below(list, colors, new, count as nat);
    assert(layer_color(new_colors, count) == new);
    assert forall|id: ColorId| #[trigger]
        document::symbol_colors(new_symbol).contains(id) implies document::has_color(
        new_colors,
        id,
    ) by {
        if id == new.id {
            assert(new_colors[0].id == id);
        } else {
            let i = choose|i: int| 0 <= i < colors.len() && #[trigger] colors[i].id == id;
            assert(new_colors[i + 1].id == id);
        }
    }
}

/// Converts artwork into an empty map containing a single point symbol, where a map can be
/// made.
pub fn convert_svg_if_possible(drawing: &Drawing, options: &ConversionOptions) -> (result: Option<
    Result<Conversion, ConversionError>,
>)
    ensures
        match result {
            Some(result) => {
                &&& can_be_made(*drawing, *options)
                &&& is_conversion_of(*drawing, *options, result)
            },
            None => !can_be_made(*drawing, *options),
        },
{
    if options.map_scale == 0 {
        return None;
    }
    match validate_options(options) {
        Err(error) => {
            return Some(Err(error));
        },
        Ok(()) => {},
    }

    let mut collected: Vec<PaintLayer> = Vec::new();
    let mut warnings: Vec<String> = Vec::new();
    let ghost artwork = collect::group_yield(drawing.root);
    proof {
        assert(layers::layer_views(collected@) =~= Seq::empty());
        assert(warnings::texts(warnings@) =~= Seq::empty());
        assert(Seq::<Layer>::empty() + artwork.layers =~= artwork.layers);
    }
    match collect_group(&drawing.root, &mut collected, &mut warnings) {
        Err(error) => {
            return Some(Err(error));
        },
        Ok(()) => {},
    }
    let merged = merge_adjacent_layers(collected);
    let ghost list = layers::layer_views(merged@);
    if merged.len() as u64 >= u32::MAX as u64 {
        return None;
    }

    let mut map = new_map(options.map_scale);
    let mut symbol = new_point_symbol(options.symbol_code, options.symbol_name.as_str());
    let mut index: usize = 0;
    while index < merged.len()
        invariant
            index <= merged.len(),
            merged.len() < u32::MAX,
            list == layers::layer_views(merged@),
            is_underway(map, symbol, list, index as int, *options),
        decreases merged.len() - index,
    {
        let ghost map_below = map;
        let ghost symbol_below = symbol;
        proof {
            assert(list[index as int] == merged@[index as int]@);
        }
        let id = add_layer_color(&mut map, index, merged[index].color);
        add_layer_areas(&mut symbol, &merged[index].polygons, id);
        proof {
            lemma_underway_step(
                map_below,
                map,
                symbol_below,
                symbol,
                list,
                index as int,
                *options,
                document::map_colors(map)[0],
            );
        }
        index += 1;
    }
    proof {
        assert(list.take(index as int) == list);
        lemma_layer_areas_length(list, document::map_colors(map), list.len());
    }

    let area_elements: usize = element_count(&symbol);
    add_point_symbol(&mut map, symbol);
    validate_map(&map).unwrap();

    Some(
        Ok(
            Conversion {
                map,
                width_mm: drawing.width_mm,
                height_mm: drawing.height_mm,
                paint_layers: merged.len(),
                area_elements,
                warnings,
            },
        ),
    )
}

/// Converts artwork into an empty map containing a single point symbol.
///
/// OMAP has no direct equivalent for gradients, transparency, clipping, masks, filters,
/// blending, patterns, or raster images. Unsupported effects are approximated or skipped
/// and reported in [`Conversion::warnings`].
pub fn convert_svg(drawing: &Drawing, options: &ConversionOptions) -> (result: Result<
    Conversion,
    ConversionError,
>)
    requires
        can_be_made(*drawing, *options),
    ensures
        is_conversion_of(*drawing, *options, result),
{
    convert_svg_if_possible(drawing, options).unwrap()
}

} // verus!
