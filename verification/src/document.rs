//! The OMAP document, as the `omap` crate keeps it.
//!
//! Everything here is a claim about that crate: its types are declared, what a
//! document holds gets a name, and each call is wrapped with a contract over those
//! names. Nothing in this file is proved.

use crate::options::Code;
use omap::colors::{Cmyk, ColorId, Rgb, SpotColor, SymbolColor};
use omap::objects::{AreaObject, BezierPath, BezierPolygon};
use omap::symbols::{AreaSymbol, Element, PointSymbol};
use omap::Omap;
use vstd::prelude::*;

verus! {

#[verifier::external_type_specification]
#[verifier::external_body]
pub struct ExOmap(omap::Omap);

#[verifier::external_type_specification]
#[verifier::external_body]
pub struct ExPointSymbol(omap::symbols::PointSymbol);

#[verifier::external_type_specification]
#[verifier::external_body]
pub struct ExColorId(omap::colors::ColorId);

#[verifier::external_type_specification]
#[verifier::external_body]
pub struct ExRgb(omap::colors::Rgb);

#[verifier::external_type_specification]
#[verifier::external_body]
pub struct ExCmyk(omap::colors::Cmyk);

#[verifier::external_type_specification]
#[verifier::external_body]
pub struct ExBezierPath(omap::objects::BezierPath);

#[verifier::external_type_specification]
#[verifier::external_body]
pub struct ExBezierPolygon(omap::objects::BezierPolygon);

#[verifier::external_type_specification]
#[verifier::external_body]
pub struct ExError(omap::Error);

#[verifier::external_type_specification]
#[verifier::external_body]
pub struct ExValidationError(omap::ValidationError);

/// A spot color of a map.
pub struct MapColor {
    /// The handle by which symbols refer to the color.
    pub id: ColorId,
    /// The display name.
    pub name: Seq<char>,
    /// The name used in printing.
    pub spot_name: Seq<char>,
    /// The ink values.
    pub cmyk: Cmyk,
    /// Whether the color replaces what lies below it.
    pub knockout: bool,
}

/// One element of a point symbol.
pub enum SymbolElement {
    /// An area of one color.
    Area {
        /// The code of the area's own symbol.
        code: Code,
        /// The name of the area's own symbol.
        name: Seq<char>,
        /// The fill color.
        color: ColorId,
        /// The shape.
        polygon: BezierPolygon,
    },
    /// An element of another kind.
    Other,
}

/// One symbol of a map.
pub enum MapSymbol {
    /// A point symbol.
    Point(PointSymbol),
    /// A symbol of another kind.
    Other,
}

/// The scale denominator of a map.
pub uninterp spec fn map_scale(map: Omap) -> nat;

/// The colors of a map, from the highest drawing priority down.
pub uninterp spec fn map_colors(map: Omap) -> Seq<MapColor>;

/// The symbols of a map, in file order.
pub uninterp spec fn map_symbols(map: Omap) -> Seq<MapSymbol>;

/// How many objects lie on a map.
pub uninterp spec fn map_object_count(map: Omap) -> nat;

/// The code of a point symbol.
pub uninterp spec fn symbol_code(symbol: PointSymbol) -> Code;

/// The display name of a point symbol.
pub uninterp spec fn symbol_name(symbol: PointSymbol) -> Seq<char>;

/// The elements of a point symbol, in drawing order.
pub uninterp spec fn symbol_elements(symbol: PointSymbol) -> Seq<SymbolElement>;

/// The map colors that a point symbol refers to.
pub uninterp spec fn symbol_colors(symbol: PointSymbol) -> Set<ColorId>;

/// What `Rgb::from_str` reads from a text.
pub uninterp spec fn parsed_rgb(text: Seq<char>) -> Option<Rgb>;

/// The ink values that `Cmyk::from` gives a screen color.
pub uninterp spec fn rgb_to_cmyk(rgb: Rgb) -> Cmyk;

/// What `BezierPolygon::new` makes of an exterior ring and interior rings.
pub uninterp spec fn polygon_from_rings(
    exterior: BezierPath,
    interiors: Seq<BezierPath>,
) -> Option<BezierPolygon>;

/// Whether a text is a number sign followed by six hexadecimal digits.
pub open spec fn is_hex_color(text: Seq<char>) -> bool {
    &&& text.len() == 7
    &&& text[0] == '#'
    &&& forall|i: int|
        1 <= i < 7 ==> {
            ||| '0' <= #[trigger] text[i] <= '9'
            ||| 'a' <= text[i] <= 'f'
        }
}

/// Whether a map has a color with this handle.
pub open spec fn has_color(colors: Seq<MapColor>, id: ColorId) -> bool {
    exists|i: int| 0 <= i < colors.len() && #[trigger] colors[i].id == id
}

/// Whether a map has no objects and no symbols but point symbols.
pub open spec fn is_simple(map: Omap) -> bool {
    &&& map_object_count(map) == 0
    &&& forall|i: int|
        0 <= i < map_symbols(map).len() ==> (#[trigger] map_symbols(map)[i]) is Point
}

/// Whether the point symbols of a map refer to colors of the map only.
pub open spec fn refers_to_own_colors(map: Omap) -> bool {
    forall|i: int, id: ColorId|
        0 <= i < map_symbols(map).len() && #[trigger] symbol_colors(
            map_symbols(map)[i]->Point_0,
        ).contains(id) ==> has_color(map_colors(map), id)
}

/// Calls `Omap::new`: a map of the given scale without colors, symbols or objects.
#[verifier::external_body]
pub(crate) fn new_map(scale: u32) -> (map: Omap)
    requires
        scale != 0,
    ensures
        map_scale(map) == scale,
        map_colors(map) == Seq::<MapColor>::empty(),
        map_symbols(map) == Seq::<MapSymbol>::empty(),
        map_object_count(map) == 0,
{
    Omap::new(std::num::NonZeroU32::new(scale).unwrap())
}

/// Calls `str::parse`, that is `Rgb::from_str`. It accepts every text of a number
/// sign and six hexadecimal digits.
#[verifier::external_body]
pub(crate) fn parse_rgb(text: &str) -> (result: Result<Rgb, omap::Error>)
    ensures
        is_hex_color(text@) ==> result is Ok,
        result matches Ok(rgb) ==> parsed_rgb(text@) == Some(rgb),
        result is Err ==> parsed_rgb(text@) is None,
{
    text.parse()
}

/// Calls `Cmyk::from`.
#[verifier::external_body]
pub(crate) fn cmyk_from_rgb(rgb: Rgb) -> (cmyk: Cmyk)
    ensures
        cmyk == rgb_to_cmyk(rgb),
{
    Cmyk::from(rgb)
}

/// Calls `ColorSet::insert` with a color made by `SpotColor::new`. The color gets a
/// handle that no other color has, at position `index` if there is one; the rest of
/// the map stays as it is.
#[verifier::external_body]
pub(crate) fn insert_color(
    map: &mut Omap,
    index: usize,
    name: String,
    spot_name: String,
    cmyk: Cmyk,
    knockout: bool,
) -> (result: Result<ColorId, omap::Error>)
    requires
        map_colors(*old(map)).len() + 1 < u32::MAX,
    ensures
        result is Ok <==> index <= map_colors(*old(map)).len(),
        result is Err ==> *final(map) == *old(map),
        result matches Ok(id) ==> {
            &&& !has_color(map_colors(*old(map)), id)
            &&& map_colors(*final(map)) == map_colors(*old(map)).insert(
                index as int,
                (MapColor { id, name: name@, spot_name: spot_name@, cmyk, knockout }),
            )
        },
        map_scale(*final(map)) == map_scale(*old(map)),
        map_symbols(*final(map)) == map_symbols(*old(map)),
        map_object_count(*final(map)) == map_object_count(*old(map)),
{
    let mut color = SpotColor::new(name, spot_name, cmyk);
    color.knockout = knockout;
    map.colors.insert(index, color)
}

/// Calls `PointSymbol::new`: a symbol without elements that refers to no color.
#[verifier::external_body]
pub(crate) fn new_point_symbol(code: Code, name: &str) -> (symbol: PointSymbol)
    ensures
        symbol_code(symbol) == code,
        symbol_name(symbol) == name@,
        symbol_elements(symbol) == Seq::<SymbolElement>::empty(),
        symbol_colors(symbol) == Set::<ColorId>::empty(),
{
    PointSymbol::new(omap::Code::new(code.major, code.minor, code.patch), name)
}

/// Appends to a point symbol's elements an area made by `AreaSymbol::new`,
/// `AreaSymbol::with_color` and `AreaObject::new_element`. The symbol then also refers
/// to the area's color; its code and name stay as they are.
#[verifier::external_body]
pub(crate) fn push_area_element(
    symbol: &mut PointSymbol,
    code: Code,
    name: &str,
    color: ColorId,
    polygon: BezierPolygon,
)
    ensures
        symbol_elements(*final(symbol)) == symbol_elements(*old(symbol)).push(
            (SymbolElement::Area { code, name: name@, color, polygon }),
        ),
        symbol_colors(*final(symbol)) == symbol_colors(*old(symbol)).insert(color),
        symbol_code(*final(symbol)) == symbol_code(*old(symbol)),
        symbol_name(*final(symbol)) == symbol_name(*old(symbol)),
{
    let own_code = omap::Code::new(code.major, code.minor, code.patch);
    symbol.elements.push(Element::Area {
        symbol: Box::new(AreaSymbol::new(own_code, name).with_color(SymbolColor::Color(color))),
        object: Box::new(AreaObject::new_element(polygon)),
    });
}

/// Reads the length of a point symbol's list of elements.
#[verifier::external_body]
pub(crate) fn element_count(symbol: &PointSymbol) -> (count: usize)
    ensures
        count == symbol_elements(*symbol).len(),
{
    symbol.elements.len()
}

/// Calls `SymbolSet::add_point_symbol`: the symbol comes last, and the rest of the map
/// stays as it is.
#[verifier::external_body]
pub(crate) fn add_point_symbol(map: &mut Omap, symbol: PointSymbol)
    requires
        map_symbols(*old(map)).len() + 1 < u32::MAX,
    ensures
        map_symbols(*final(map)) == map_symbols(*old(map)).push(MapSymbol::Point(symbol)),
        map_scale(*final(map)) == map_scale(*old(map)),
        map_colors(*final(map)) == map_colors(*old(map)),
        map_object_count(*final(map)) == map_object_count(*old(map)),
{
    map.symbols.add_point_symbol(symbol);
}

/// Calls `Omap::validate`. A map without objects, all of whose symbols are point symbols, is
/// accepted exactly if they refer to colors of the map only.
#[verifier::external_body]
pub(crate) fn validate_map(map: &Omap) -> (result: Result<(), omap::ValidationError>)
    ensures
        is_simple(*map) ==> (result is Ok <==> refers_to_own_colors(*map)),
{
    map.validate()
}

/// Calls `BezierPolygon::new`. Its only error is `Error::InvalidBezierPath`, for a ring that
/// is not valid in itself; the text of that error is handed on.
#[verifier::external_body]
pub(crate) fn new_polygon(exterior: BezierPath, interiors: Vec<BezierPath>) -> (result: Result<
    BezierPolygon,
    String,
>)
    ensures
        match result {
            Ok(polygon) => polygon_from_rings(exterior, interiors@) == Some(polygon),
            Err(text) => {
                &&& polygon_from_rings(exterior, interiors@) is None
                &&& text@ == "invalid Bézier path"@
            },
        },
{
    BezierPolygon::new(exterior, interiors).map_err(|error| error.to_string())
}

/// The derived `Clone` of `BezierPath`: the copy is the same curve.
pub assume_specification[ <BezierPath as Clone>::clone ](path: &BezierPath) -> (copy: BezierPath)
    ensures
        copy == *path,
;

/// The derived `Clone` of `BezierPolygon`: the copy is the same polygon.
pub assume_specification[ <BezierPolygon as Clone>::clone ](polygon: &BezierPolygon) -> (copy:
    BezierPolygon)
    ensures
        copy == *polygon,
;

} // verus!
