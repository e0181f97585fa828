//! From paint to the one color that stands for it.

use crate::binary64::Binary64;
use crate::drawing::{Color, Gradient, Paint};
use crate::text;
use crate::warnings;
use crate::warnings::push_warning;
use vstd::arithmetic::power2;
use vstd::prelude::*;
use vstd::string::*;

verus! {

/// One millionth below one, in single precision: the opacity below which a color stop
/// counts as transparent.
pub const OPAQUE_STOP_BITS: u64 = 0x3fef_fffd_e000_0000;

/// A color in hexadecimal notation.
pub open spec fn hex(color: Color) -> Seq<char> {
    "#"@ + text::hex_byte(color.red) + text::hex_byte(color.green) + text::hex_byte(color.blue)
}

/// Whether a color stop shines through.
pub open spec fn is_transparent_stop(opacity: Binary64) -> bool {
    opacity.less(Binary64 { bits: OPAQUE_STOP_BITS })
}

/// The warnings about the color stops of a gradient.
pub open spec fn stop_warnings(opacities: Seq<Binary64>, description: Seq<char>) -> Seq<Seq<char>> {
    if exists|i: int| 0 <= i < opacities.len() && is_transparent_stop(#[trigger] opacities[i]) {
        seq![description + " has transparent gradient stops; they were made fully opaque"@]
    } else {
        Seq::empty()
    }
}

/// The warnings about a gradient.
pub open spec fn gradient_warnings(
    kind: Seq<char>,
    gradient: Gradient,
    description: Seq<char>,
) -> Seq<Seq<char>> {
    seq![description + kind + "; it was replaced with "@ + hex(gradient.average)] + stop_warnings(
        gradient.stop_opacities@,
        description,
    )
}

/// The warnings about a paint.
pub open spec fn paint_warnings(paint: Paint, description: Seq<char>) -> Seq<Seq<char>> {
    match paint {
        Paint::Color(_) => Seq::empty(),
        Paint::LinearGradient(gradient) => gradient_warnings(
            " uses a linear gradient"@,
            gradient,
            description,
        ),
        Paint::RadialGradient(gradient) => gradient_warnings(
            " uses a radial gradient"@,
            gradient,
            description,
        ),
        Paint::Pattern => seq![description + " uses an SVG paint pattern; that paint was skipped"@],
    }
}

/// The color that stands for a paint, if one does.
pub open spec fn color_of(paint: Paint) -> Option<Color> {
    match paint {
        Paint::Color(color) => Some(color),
        Paint::LinearGradient(gradient) => Some(gradient.average),
        Paint::RadialGradient(gradient) => Some(gradient.average),
        Paint::Pattern => None,
    }
}

/// Writes a color in hexadecimal notation.
pub fn color_hex(color: Color) -> (result: String)
    ensures
        result@ == hex(color),
{
    let mut result = "#".to_owned();
    text::append_hex_byte(&mut result, color.red);
    text::append_hex_byte(&mut result, color.green);
    text::append_hex_byte(&mut result, color.blue);
    result
}

/// Warns about color stops that shine through.
pub fn warn_for_transparent_stops(
    opacities: &Vec<Binary64>,
    description: &str,
    warnings: &mut Vec<String>,
)
    ensures
        warnings::texts(final(warnings)@) == warnings::noted_all(
            warnings::texts(old(warnings)@),
            stop_warnings(opacities@, description@),
        ),
{
    let opaque = Binary64 { bits: OPAQUE_STOP_BITS };
    let mut position: usize = 0;
    while position < opacities.len()
        invariant
            position <= opacities.len(),
            opaque == (Binary64 { bits: OPAQUE_STOP_BITS }),
            warnings@ == old(warnings)@,
            forall|i: int| 0 <= i < position ==> !is_transparent_stop(#[trigger] opacities@[i]),
        decreases opacities.len() - position,
    {
        if opacities[position].is_less_than(opaque) {
            let mut warning = description.to_owned();
            warning.append(" has transparent gradient stops; they were made fully opaque");
            proof {
                assert(is_transparent_stop(opacities@[position as int]));
                warnings::lemma_noted_one(warnings::texts(warnings@), warning@);
            }
            push_warning(warnings, warning);
            return;
        }
        position += 1;
    }
}

/// Replaces a gradient by its average color.
fn gradient_color(
    kind: &str,
    gradient: &Gradient,
    description: &str,
    warnings: &mut Vec<String>,
) -> (color: Color)
    ensures
        color == gradient.average,
        warnings::texts(final(warnings)@) == warnings::noted_all(
            warnings::texts(old(warnings)@),
            gradient_warnings(kind@, *gradient, description@),
        ),
{
    let mut warning = description.to_owned();
    warning.append(kind);
    warning.append("; it was replaced with ");
    let color_text = color_hex(gradient.average);
    warning.append(color_text.as_str());
    proof {
        warnings::lemma_noted_one(warnings::texts(warnings@), warning@);
        warnings::lemma_noted_concat(
            warnings::texts(warnings@),
            seq![warning@],
            stop_warnings(gradient.stop_opacities@, description@),
        );
    }
    push_warning(warnings, warning);
    warn_for_transparent_stops(&gradient.stop_opacities, description, warnings);
    gradient.average
}

/// Finds the color that stands for a paint.
pub fn paint_color(paint: &Paint, description: &str, warnings: &mut Vec<String>) -> (color: Option<
    Color,
>)
    ensures
        color == color_of(*paint),
        warnings::texts(final(warnings)@) == warnings::noted_all(
            warnings::texts(old(warnings)@),
            paint_warnings(*paint, description@),
        ),
{
    match paint {
        Paint::Color(color) => Some(*color),
        Paint::LinearGradient(gradient) => Some(
            gradient_color(" uses a linear gradient", gradient, description, warnings),
        ),
        Paint::RadialGradient(gradient) => Some(
            gradient_color(" uses a radial gradient", gradient, description, warnings),
        ),
        Paint::Pattern => {
            let mut warning = description.to_owned();
            warning.append(" uses an SVG paint pattern; that paint was skipped");
            proof {
                warnings::lemma_noted_one(warnings::texts(warnings@), warning@);
            }
            push_warning(warnings, warning);
            None
        },
    }
}

/// Whether a text is the notation of a color: a number sign, then two hexadecimal digits for
/// the red, the green and the blue channel.
pub open spec fn notes_color(text: Seq<char>, color: Color) -> bool {
    &&& text.len() == 7
    &&& text[0] == '#'
    &&& forall|i: int| 1 <= i < 7 ==> text::is_hex_digit(#[trigger] text[i])
    &&& text::read_digit(text[1]) * 16 + text::read_digit(text[2]) == color.red
    &&& text::read_digit(text[3]) * 16 + text::read_digit(text[4]) == color.green
    &&& text::read_digit(text[5]) * 16 + text::read_digit(text[6]) == color.blue
}

/// A color is written channel by channel, in the one way in which it can be read back.
pub proof fn law_colors_read_back(color: Color)
    ensures
        notes_color(hex(color), color),
        forall|text: Seq<char>| #[trigger] notes_color(text, color) ==> text == hex(color),
{
    reveal_strlit("#");
    let own = hex(color);
    text::law_hexadecimal_bytes_read_back(color.red);
    text::law_hexadecimal_bytes_read_back(color.green);
    text::law_hexadecimal_bytes_read_back(color.blue);
    let red = text::hex_byte(color.red);
    let green = text::hex_byte(color.green);
    let blue = text::hex_byte(color.blue);
    assert(own[1] == red[0] && own[2] == red[1]);
    assert(own[3] == green[0] && own[4] == green[1]);
    assert(own[5] == blue[0] && own[6] == blue[1]);
    assert(notes_color(own, color));
    assert forall|text: Seq<char>| #[trigger] notes_color(text, color) implies text == own by {
        assert forall|i: int| 0 <= i < 7 implies text[i] == own[i] by {
            assert(text::is_hex_digit(text[1]) && text::is_hex_digit(text[2]));
            assert(text::is_hex_digit(text[3]) && text::is_hex_digit(text[4]));
            assert(text::is_hex_digit(text[5]) && text::is_hex_digit(text[6]));
            lemma_digits_agree(text[1], text[2], own[1], own[2]);
            lemma_digits_agree(text[3], text[4], own[3], own[4]);
            lemma_digits_agree(text[5], text[6], own[5], own[6]);
        }
        assert(text =~= own);
    }
}

/// Two digits of the same value are the same digits.
proof fn lemma_digits_agree(a: char, b: char, c: char, d: char)
    requires
        text::is_hex_digit(a),
        text::is_hex_digit(b),
        text::is_hex_digit(c),
        text::is_hex_digit(d),
        text::read_digit(a) * 16 + text::read_digit(b) == text::read_digit(c) * 16
            + text::read_digit(d),
    ensures
        a == c,
        b == d,
{
}

/// A color stop shines through exactly if its opacity is more than seventeen steps below one,
/// in steps of two to the power of minus twenty-four, the precision of opacities.
pub proof fn law_stops_shine_through_below_one(opacity: Binary64)
    ensures
        is_transparent_stop(opacity) <==> !opacity.is_nan() && opacity.units() * 0x100_0000
            < (0x100_0000 - 17) * power2::pow2(1074),
{
    let unit = power2::pow2(1021);
    power2::lemma_pow2_adds(1021, 53);
    power2::lemma_pow2_adds(32, 21);
    power2::lemma2_to64();
    assert(power2::pow2(53) == 0x20_0000_0000_0000);
    let opaque = Binary64 { bits: OPAQUE_STOP_BITS };
    assert(opaque.units() == 0x1f_fffd_e000_0000 * unit);
    assert(unit * 0x20_0000_0000_0000 == 0x20_0000_0000_0000 * unit) by (nonlinear_arith);
    assert(power2::pow2(1074) == 0x20_0000_0000_0000 * unit);
}

/// A gradient gives a warning about its stops exactly if one of them shines through.
pub proof fn law_transparent_stops_are_reported(
    opacities: Seq<Binary64>,
    description: Seq<char>,
    opacity: Binary64,
)
    ensures
        stop_warnings(Seq::empty(), description).len() == 0,
        stop_warnings(opacities.push(opacity), description) == if is_transparent_stop(opacity) {
            seq![description + " has transparent gradient stops; they were made fully opaque"@]
        } else {
            stop_warnings(opacities, description)
        },
{
    let more = opacities.push(opacity);
    if is_transparent_stop(opacity) {
        assert(is_transparent_stop(more[opacities.len() as int]));
    } else {
        if exists|i: int| 0 <= i < opacities.len() && is_transparent_stop(#[trigger] opacities[i]) {
            let i = choose|i: int|
                0 <= i < opacities.len() && is_transparent_stop(#[trigger] opacities[i]);
            assert(is_transparent_stop(more[i]));
        }
        if exists|i: int| 0 <= i < more.len() && is_transparent_stop(#[trigger] more[i]) {
            let i = choose|i: int| 0 <= i < more.len() && is_transparent_stop(#[trigger] more[i]);
            assert(is_transparent_stop(opacities[i]));
        }
    }
}

/// A plain color stands for itself without a warning; a gradient is replaced by its average,
/// which the warning names, with a further warning about its stops; a pattern has no color.
pub proof fn law_paints_are_replaced_as_reported(
    color: Color,
    gradient: Gradient,
    description: Seq<char>,
    notation: Seq<char>,
)
    requires
        notes_color(notation, gradient.average),
    ensures
        color_of(Paint::Color(color)) == Some(color),
        color_of(Paint::LinearGradient(gradient)) == Some(gradient.average),
        color_of(Paint::RadialGradient(gradient)) == Some(gradient.average),
        color_of(Paint::Pattern) == None::<Color>,
        paint_warnings(Paint::Color(color), description).len() == 0,
        paint_warnings(Paint::LinearGradient(gradient), description) == seq![
            description + " uses a linear gradient"@ + "; it was replaced with "@ + notation,
        ] + stop_warnings(gradient.stop_opacities@, description),
        paint_warnings(Paint::RadialGradient(gradient), description) == seq![
            description + " uses a radial gradient"@ + "; it was replaced with "@ + notation,
        ] + stop_warnings(gradient.stop_opacities@, description),
        paint_warnings(Paint::Pattern, description) == seq![
            description + " uses an SVG paint pattern; that paint was skipped"@,
        ],
{
    law_colors_read_back(gradient.average);
}

} // verus!
