//! What the user can choose, and what is refused.

use crate::binary64;
use crate::binary64::Binary64;
use crate::error::ConversionError;
use vstd::prelude::*;
use vstd::string::*;

verus! {

/// Ninety-six: the pixels per inch that apply unless others are chosen.
pub const DEFAULT_DPI_BITS: u64 = 0x4058_0000_0000_0000;

/// A symbol code of the form `A.B.C`.
#[derive(Debug, Clone, Copy, PartialEq, Eq, Structural)]
pub struct Code {
    /// The first number.
    pub major: u16,
    /// The second number.
    pub minor: u16,
    /// The third number.
    pub patch: u16,
}

/// Options controlling the conversion.
#[derive(Debug, Clone)]
pub struct ConversionOptions {
    /// Name of the point symbol in Mapper.
    pub symbol_name: String,
    /// Numeric symbol code in Mapper.
    pub symbol_code: Code,
    /// Scale denominator stored on the otherwise empty map; never zero.
    pub map_scale: u32,
    /// CSS pixel density used to resolve SVG physical units.
    pub dpi: Binary64,
    /// Optional physical width override for the SVG viewport.
    pub width_mm: Option<Binary64>,
}

/// Whether a number can serve as a density or as a width.
pub open spec fn is_usable(number: Binary64) -> bool {
    number.finite() && number.units() > 0
}

/// Whether a character has the Unicode property `White_Space`.
pub open spec fn is_white_space(c: char) -> bool {
    let code = c as int;
    ||| 0x9 <= code <= 0xd
    ||| code == 0x20
    ||| code == 0x85
    ||| code == 0xa0
    ||| code == 0x1680
    ||| 0x2000 <= code <= 0x200a
    ||| code == 0x2028
    ||| code == 0x2029
    ||| code == 0x202f
    ||| code == 0x205f
    ||| code == 0x3000
}

/// A text without white space at its beginning.
pub open spec fn trimmed_start(text: Seq<char>) -> Seq<char>
    decreases text.len(),
{
    if text.len() > 0 && is_white_space(text[0]) {
        trimmed_start(text.drop_first())
    } else {
        text
    }
}

/// A text without white space at its end.
pub open spec fn trimmed_end(text: Seq<char>) -> Seq<char>
    decreases text.len(),
{
    if text.len() > 0 && is_white_space(text.last()) {
        trimmed_end(text.drop_last())
    } else {
        text
    }
}

/// Decides whether a character has the Unicode property `White_Space`.
fn is_white(c: char) -> (result: bool)
    ensures
        result == is_white_space(c),
{
    let code: u32 = c as u32;
    (0x9 <= code && code <= 0xd) || code == 0x20 || code == 0x85 || code == 0xa0 || code == 0x1680
        || (0x2000 <= code && code <= 0x200a) || code == 0x2028 || code == 0x2029 || code == 0x202f
        || code == 0x205f || code == 0x3000
}

/// Decides whether nothing is left of a text without the white space around it.
fn is_blank(text: &str) -> (result: bool)
    ensures
        result == (trimmed_end(trimmed_start(text@)).len() == 0),
{
    proof {
        law_blank_names_are_empty(text@);
    }
    for c in iter: text.chars()
        invariant
            iter.seq() == text@,
            forall|i: int| 0 <= i < iter.index() ==> is_white_space(#[trigger] text@[i]),
            trimmed_end(trimmed_start(text@)).len() == 0 <==> forall|i: int|
                0 <= i < text@.len() ==> is_white_space(#[trigger] text@[i]),
    {
        if !is_white(c) {
            assert(!is_white_space(text@[iter.index()]));
            return false;
        }
    }
    true
}

impl ConversionOptions {
    /// Options with conventional defaults.
    pub fn new(symbol_name: String) -> (options: Self)
        ensures
            options.symbol_name@ == symbol_name@,
            options.symbol_code == (Code { major: 900, minor: 0, patch: 0 }),
            options.map_scale == 10_000,
            options.dpi == (Binary64 { bits: DEFAULT_DPI_BITS }),
            options.width_mm is None,
    {
        ConversionOptions {
            symbol_name,
            symbol_code: Code { major: 900, minor: 0, patch: 0 },
            map_scale: 10_000,
            dpi: Binary64 { bits: DEFAULT_DPI_BITS },
            width_mm: None,
        }
    }

    /// Why the options are refused, if they are.
    pub open spec fn objection(self) -> Option<Seq<char>> {
        if !is_usable(self.dpi) {
            Some("DPI must be a positive finite number"@)
        } else if self.width_mm is Some && !is_usable(self.width_mm.unwrap()) {
            Some("the width override must be a positive finite number"@)
        } else if trimmed_end(trimmed_start(self.symbol_name@)).len() == 0 {
            Some("the symbol name cannot be empty"@)
        } else {
            None
        }
    }
}

/// Checks that options can be used.
pub fn validate_options(options: &ConversionOptions) -> (result: Result<(), ConversionError>)
    ensures
        match options.objection() {
            None => result is Ok,
            Some(message) => result matches Err(error) && error@ == message,
        },
{
    if !options.dpi.is_positive_and_finite() {
        return Err(ConversionError::new("DPI must be a positive finite number".to_owned()));
    }
    match options.width_mm {
        Some(width) => {
            if !width.is_positive_and_finite() {
                return Err(
                    ConversionError::new(
                        "the width override must be a positive finite number".to_owned(),
                    ),
                );
            }
        },
        None => {},
    }
    if is_blank(options.symbol_name.as_str()) {
        return Err(ConversionError::new("the symbol name cannot be empty".to_owned()));
    }
    Ok(())
}

/// Exactly the names that consist of white space alone count as empty.
pub proof fn law_blank_names_are_empty(name: Seq<char>)
    ensures
        trimmed_end(trimmed_start(name)).len() == 0 <==> forall|i: int|
            0 <= i < name.len() ==> is_white_space(#[trigger] name[i]),
    decreases name.len(),
{
    if name.len() > 0 && is_white_space(name[0]) {
        let rest = name.drop_first();
        law_blank_names_are_empty(rest);
        if forall|i: int| 0 <= i < name.len() ==> is_white_space(#[trigger] name[i]) {
            assert forall|i: int| 0 <= i < rest.len() implies is_white_space(#[trigger] rest[i]) by {
                assert(rest[i] == name[i + 1]);
            }
        }
        if forall|i: int| 0 <= i < rest.len() ==> is_white_space(#[trigger] rest[i]) {
            assert forall|i: int| 0 <= i < name.len() implies is_white_space(#[trigger] name[i]) by {
                if i > 0 {
                    assert(name[i] == rest[i - 1]);
                }
            }
        }
    } else if name.len() > 0 {
        lemma_trimmed_end_keeps_start(name);
    }
}

/// The conventional options are refused only for an empty name.
pub proof fn law_conventional_options_need_only_a_name(options: ConversionOptions)
    requires
        options.dpi == (Binary64 { bits: DEFAULT_DPI_BITS }),
        options.width_mm is None,
    ensures
        options.objection() is None <==> exists|i: int|
            0 <= i < options.symbol_name@.len() && !is_white_space(
                #[trigger] options.symbol_name@[i],
            ),
{
    law_blank_names_are_empty(options.symbol_name@);
    binary64::lemma_magnitude_order(0, DEFAULT_DPI_BITS as nat);
}

/// A text that does not begin with white space keeps its beginning.
proof fn lemma_trimmed_end_keeps_start(text: Seq<char>)
    requires
        text.len() > 0,
        !is_white_space(text[0]),
    ensures
        trimmed_end(text).len() > 0,
    decreases text.len(),
{
    if is_white_space(text.last()) {
        assert(text.drop_last()[0] == text[0]);
        lemma_trimmed_end_keeps_start(text.drop_last());
    }
}

/// A number is usable exactly if its pattern is above that of zero and below that of infinity.
pub proof fn law_usable_numbers_are_positive_and_finite(number: Binary64)
    ensures
        is_usable(number) <==> 0 < number.bits < 0x7ff0_0000_0000_0000,
{
    binary64::lemma_magnitude_order_iff(number.magnitude(), 0);
    assert(binary64::magnitude_units(0) == 0);
}

/// The white-space characters are those of Unicode: five control characters from the
/// tabulator on, the space, the next line, the spaces that do not break, the spaces of
/// typography and the separators of lines and paragraphs.
pub proof fn law_white_space_is_that_of_unicode(c: char)
    ensures
        is_white_space(c) <==> seq![
            0x9int,
            0xa,
            0xb,
            0xc,
            0xd,
            0x20,
            0x85,
            0xa0,
            0x1680,
            0x2000,
            0x2001,
            0x2002,
            0x2003,
            0x2004,
            0x2005,
            0x2006,
            0x2007,
            0x2008,
            0x2009,
            0x200a,
            0x2028,
            0x2029,
            0x202f,
            0x205f,
            0x3000,
        ].contains(c as int),
{
    let list = seq![
        0x9int, 0xa, 0xb, 0xc, 0xd, 0x20, 0x85, 0xa0, 0x1680, 0x2000, 0x2001, 0x2002, 0x2003,
        0x2004, 0x2005, 0x2006, 0x2007, 0x2008, 0x2009, 0x200a, 0x2028, 0x2029, 0x202f, 0x205f,
        0x3000,
    ];
    let code = c as int;
    assert(list.len() == 25);
    if is_white_space(c) {
        let i: int = if code <= 0xd {
            code - 0x9
        } else if code == 0x20 {
            5
        } else if code == 0x85 {
            6
        } else if code == 0xa0 {
            7
        } else if code == 0x1680 {
            8
        } else if code <= 0x200a {
            code - 0x2000 + 9
        } else if code == 0x2028 {
            20
        } else if code == 0x2029 {
            21
        } else if code == 0x202f {
            22
        } else if code == 0x205f {
            23
        } else {
            24
        };
        assert(list[i] == code);
    }
}

/// Options are refused for their density first, then for their width, then for their name,
/// and for nothing else.
pub proof fn law_options_are_refused_in_order(options: ConversionOptions)
    ensures
        ({
            let blank = forall|i: int|
                0 <= i < options.symbol_name@.len() ==> is_white_space(
                    #[trigger] options.symbol_name@[i],
                );
            let narrow = options.width_mm matches Some(width) && !is_usable(width);
            &&& !is_usable(options.dpi) ==> options.objection() == Some(
                "DPI must be a positive finite number"@,
            )
            &&& is_usable(options.dpi) && narrow ==> options.objection() == Some(
                "the width override must be a positive finite number"@,
            )
            &&& is_usable(options.dpi) && !narrow && blank ==> options.objection() == Some(
                "the symbol name cannot be empty"@,
            )
            &&& is_usable(options.dpi) && !narrow && !blank ==> options.objection() is None
        }),
{
    law_blank_names_are_empty(options.symbol_name@);
}

} // verus!
