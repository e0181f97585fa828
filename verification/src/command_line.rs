//! What the command line asks for, and what it is told.
//!
//! A path is a path of the platform that the library is compiled for.

use crate::binary64::Binary64;
use crate::options;
use crate::options::{Code, ConversionOptions};
use crate::text;
use crate::text::decimal_text;
use std::path::{Path, PathBuf};
use vstd::prelude::*;
use vstd::string::*;

verus! {

#[verifier::external_type_specification]
#[verifier::external_body]
pub struct ExPath(std::path::Path);

#[verifier::external_type_specification]
#[verifier::external_body]
pub struct ExPathBuf(std::path::PathBuf);

/// The path that `Path::with_extension` makes of a path and an extension.
pub uninterp spec fn path_with_extension(path: &Path, extension: Seq<char>) -> PathBuf;

/// What `Path::file_stem` gives, where that is text.
pub uninterp spec fn path_file_stem(path: &Path) -> Option<Seq<char>>;

/// How a text looks in double quotes, with special characters escaped.
pub uninterp spec fn quoted_text(text: Seq<char>) -> Seq<char>;

/// Calls `Path::with_extension`, which panics on an extension that holds a path separator.
#[verifier::external_body]
fn with_extension(path: &Path, extension: &str) -> (result: PathBuf)
    requires
        forall|i: int|
            0 <= i < extension@.len() ==> #[trigger] extension@[i] != '/' && extension@[i] != '\\',
    ensures
        result == path_with_extension(path, extension@),
{
    path.with_extension(extension)
}

/// Calls `Path::file_stem`; a name that is not text counts as none.
#[verifier::external_body]
fn file_stem(path: &Path) -> (stem: Option<String>)
    ensures
        match stem {
            Some(stem) => path_file_stem(path) == Some(stem@),
            None => path_file_stem(path) is None,
        },
{
    path.file_stem().and_then(|name| name.to_str()).map(|name| name.to_owned())
}

/// Formats a text with `{:?}`.
#[verifier::external_body]
fn quoted(text: &str) -> (result: String)
    ensures
        result@ == quoted_text(text@),
{
    format!("{text:?}")
}

/// Where the map goes unless another place is chosen: beside the input, under its name with
/// another extension.
pub fn default_output_path(input: &Path) -> (output: PathBuf)
    ensures
        output == path_with_extension(input, "omap"@),
{
    proof {
        reveal_strlit("omap");
    }
    with_extension(input, "omap")
}

/// Where the map goes.
pub fn output_path(chosen: Option<PathBuf>, input: &Path) -> (output: PathBuf)
    ensures
        output == match chosen {
            Some(chosen) => chosen,
            None => path_with_extension(input, "omap"@),
        },
{
    match chosen {
        Some(chosen) => chosen,
        None => default_output_path(input),
    }
}

/// The name of the symbol: the chosen one, else that of the input file, else a general one.
pub open spec fn name_for(chosen: Option<String>, stem: Option<Seq<char>>) -> Seq<char> {
    match (chosen, stem) {
        (Some(chosen), _) => chosen@,
        (None, Some(stem)) => stem,
        (None, None) => "SVG symbol"@,
    }
}

/// Picks the name of the symbol from the chosen one and the name of the input file.
pub fn symbol_name(chosen: Option<String>, stem: Option<String>) -> (name: String)
    ensures
        name@ == name_for(
            chosen,
            match stem {
                Some(stem) => Some(stem@),
                None => None,
            },
        ),
        chosen matches Some(chosen) ==> name@ == chosen@,
        chosen is None ==> (stem matches Some(stem) ==> name@ == stem@),
        chosen is None && stem is None ==> name@ == "SVG symbol"@,
{
    match chosen {
        Some(chosen) => chosen,
        None => match stem {
            Some(stem) => stem,
            None => "SVG symbol".to_owned(),
        },
    }
}

/// The options for converting an input file.
pub fn conversion_options(
    input: &Path,
    name: Option<String>,
    code: Code,
    map_scale: u32,
    dpi: Binary64,
    width_mm: Option<Binary64>,
) -> (options: ConversionOptions)
    ensures
        options.symbol_name@ == name_for(name, path_file_stem(input)),
        name matches Some(name) ==> options.symbol_name@ == name@,
        name is None ==> (path_file_stem(input) matches Some(stem) ==> options.symbol_name@
            == stem),
        name is None && path_file_stem(input) is None ==> options.symbol_name@ == "SVG symbol"@,
        options.symbol_code == code,
        options.map_scale == map_scale,
        options.dpi == dpi,
        options.width_mm == width_mm,
{
    let mut options = ConversionOptions::new(symbol_name(name, file_stem(input)));
    options.symbol_code = code;
    options.map_scale = map_scale;
    options.dpi = dpi;
    options.width_mm = width_mm;
    options
}

/// Whether a character is a decimal digit.
pub open spec fn is_digit(c: char) -> bool {
    '0' <= c <= '9'
}

/// The value of some decimal digits.
pub open spec fn digits_value(digits: Seq<char>) -> nat
    decreases digits.len(),
{
    if digits.len() == 0 {
        0
    } else {
        digits_value(digits.drop_last()) * 10 + (digits.last() as int - '0' as int) as nat
    }
}

/// A number of one part of a code: digits, after a plus sign or not.
pub open spec fn part_value(part: Seq<char>) -> Option<u16> {
    let digits = if part.len() > 0 && part[0] == '+' {
        part.drop_first()
    } else {
        part
    };
    if digits.len() > 0 && (forall|i: int| 0 <= i < digits.len() ==> is_digit(#[trigger] digits[i]))
        && digits_value(digits) <= u16::MAX {
        Some(digits_value(digits) as u16)
    } else {
        None
    }
}

/// The parts of a text between its dots.
pub open spec fn dotted_parts(text: Seq<char>) -> Seq<Seq<char>>
    decreases text.len(),
{
    if text.len() == 0 {
        seq![Seq::empty()]
    } else {
        let parts = dotted_parts(text.drop_last());
        if text.last() == '.' {
            parts.push(Seq::empty())
        } else {
            parts.drop_last().push(parts.last().push(text.last()))
        }
    }
}

/// The number of a part of a code; a part that is not there counts as zero.
pub open spec fn optional_part_value(parts: Seq<Seq<char>>, index: int) -> Option<u16> {
    if index < parts.len() {
        part_value(parts[index])
    } else {
        Some(0)
    }
}

/// The code that a text stands for: one number, or two or three with dots between them.
pub open spec fn parsed_code(text: Seq<char>) -> Option<Code> {
    let parts = dotted_parts(text);
    match (
        optional_part_value(parts, 0),
        optional_part_value(parts, 1),
        optional_part_value(parts, 2),
    ) {
        (Some(major), Some(minor), Some(patch)) => if parts.len() <= 3 {
            Some(Code { major, minor, patch })
        } else {
            None
        },
        _ => None,
    }
}

/// Calls `Code::from_str`. It accepts one to three decimal numbers of sixteen bits with
/// dots between them; each may have a plus sign, and numbers left out are zero.
#[verifier::external_body]
fn code_from_str(raw: &str) -> (code: Option<Code>)
    ensures
        code == parsed_code(raw@),
{
    match raw.parse::<omap::Code>() {
        Ok(code) => Some(Code { major: code.major, minor: code.minor, patch: code.patch }),
        Err(_) => None,
    }
}

/// Reads a symbol code.
pub fn parse_code(raw: &str) -> (result: Result<Code, String>)
    ensures
        match parsed_code(raw@) {
            Some(code) => result == Ok::<Code, String>(code),
            None => result matches Err(message) && message@ == "invalid symbol code "@
                + quoted_text(raw@) + "; expected A[.B[.C]]"@,
        },
{
    match code_from_str(raw) {
        Some(code) => Ok(code),
        None => {
            let mut message = "invalid symbol code ".to_owned();
            message.append(quoted(raw).as_str());
            message.append("; expected A[.B[.C]]");
            Err(message)
        },
    }
}

/// Accepts a number that was read from `raw` if it can serve as a density or as a width.
/// `parsed` is that number, or nothing if `raw` is not a number at all.
pub fn check_positive_number(raw: &str, parsed: Option<Binary64>) -> (result: Result<
    Binary64,
    String,
>)
    ensures
        match parsed {
            None => result matches Err(message) && message@ == "invalid positive number "@
                + quoted_text(raw@),
            Some(number) => if options::is_usable(number) {
                result == Ok::<Binary64, String>(number)
            } else {
                result matches Err(message) && message@
                    == "value must be a positive finite number"@
            },
        },
{
    match parsed {
        None => {
            let mut message = "invalid positive number ".to_owned();
            message.append(quoted(raw).as_str());
            Err(message)
        },
        Some(number) => {
            if number.is_positive_and_finite() {
                Ok(number)
            } else {
                Err("value must be a positive finite number".to_owned())
            }
        },
    }
}

/// What the user is told in the end. The sizes are texts with three decimals.
pub fn summary(
    output: &str,
    width_mm: &str,
    height_mm: &str,
    paint_layers: usize,
    area_elements: usize,
) -> (line: String)
    ensures
        line@ == "Wrote "@ + output@ + ": "@ + width_mm@ + " x "@ + height_mm@ + " mm, "@
            + text::decimal(paint_layers as nat) + " paint layers, "@ + text::decimal(
            area_elements as nat,
        ) + " point-symbol elements"@,
{
    let mut line = "Wrote ".to_owned();
    line.append(output);
    line.append(": ");
    line.append(width_mm);
    line.append(" x ");
    line.append(height_mm);
    line.append(" mm, ");
    line.append(decimal_text(paint_layers).as_str());
    line.append(" paint layers, ");
    line.append(decimal_text(area_elements).as_str());
    line.append(" point-symbol elements");
    line
}

/// Numbers left out of a code are zero: writing one more zero changes nothing.
pub proof fn law_numbers_left_out_are_zero(text: Seq<char>)
    requires
        dotted_parts(text).len() < 3,
    ensures
        parsed_code(text + seq!['.', '0']) == parsed_code(text),
{
    let parts = dotted_parts(text);
    let longer = text + seq!['.', '0'];
    let dot = text.push('.');
    assert(dot.drop_last() =~= text);
    assert(longer.drop_last() =~= dot);
    assert(dotted_parts(dot) == parts.push(Seq::empty()));
    assert(dotted_parts(longer) =~= parts.push(Seq::<char>::empty().push('0')));
    let zero = Seq::<char>::empty().push('0');
    assert(zero.drop_last() =~= Seq::empty());
    assert(digits_value(zero.drop_last()) == 0);
    assert(part_value(zero) == Some(0u16));
    lemma_some_part(text);
}

/// There is always at least one part.
proof fn lemma_some_part(text: Seq<char>)
    ensures
        dotted_parts(text).len() > 0,
    decreases text.len(),
{
    if text.len() > 0 {
        lemma_some_part(text.drop_last());
    }
}

/// The value of decimal digits is the number that they stand for.
proof fn lemma_digits_value(digits: Seq<char>)
    requires
        forall|i: int| 0 <= i < digits.len() ==> '0' <= #[trigger] digits[i] <= '9',
    ensures
        digits_value(digits) == text::read_decimal(digits),
    decreases digits.len(),
{
    if digits.len() > 0 {
        let front = digits.drop_last();
        assert(digits.last() == digits[digits.len() - 1]);
        assert forall|i: int| 0 <= i < front.len() implies '0' <= #[trigger] front[i] <= '9' by {
            assert(front[i] == digits[i]);
        }
        lemma_digits_value(front);
    }
}

/// A text without dots has one part, and behind a dot it is one part more.
proof fn lemma_parts(front: Seq<char>, part: Seq<char>)
    requires
        forall|i: int| 0 <= i < part.len() ==> #[trigger] part[i] != '.',
    ensures
        dotted_parts(part) == seq![part],
        dotted_parts(front.push('.') + part) == dotted_parts(front).push(part),
    decreases part.len(),
{
    let whole = front.push('.') + part;
    if part.len() == 0 {
        assert(part =~= Seq::empty());
        assert(whole =~= front.push('.'));
        assert(whole.drop_last() =~= front);
    } else {
        let less = part.drop_last();
        assert(part.last() == part[part.len() - 1]);
        assert forall|i: int| 0 <= i < less.len() implies #[trigger] less[i] != '.' by {
            assert(less[i] == part[i]);
        }
        lemma_parts(front, less);
        assert(whole.drop_last() =~= front.push('.') + less);
        assert(part =~= less.push(part.last()));
        assert(seq![less].drop_last() =~= Seq::empty());
        assert(dotted_parts(part) =~= seq![part]);
        assert(dotted_parts(whole) =~= dotted_parts(front).push(part));
    }
}

/// A number in decimal notation is a part of its value.
proof fn lemma_part_value(part: Seq<char>, value: u16)
    requires
        text::is_decimal(part),
        text::read_decimal(part) == value,
    ensures
        part_value(part) == Some(value),
        forall|i: int| 0 <= i < part.len() ==> #[trigger] part[i] != '.',
{
    lemma_digits_value(part);
    assert('0' <= part[0] <= '9');
}

/// One, two or three numbers of sixteen bits in decimal notation, with dots between them, are
/// the code of these numbers; four are none.
pub proof fn law_codes_read_back(
    major: u16,
    minor: u16,
    patch: u16,
    first: Seq<char>,
    second: Seq<char>,
    third: Seq<char>,
    fourth: Seq<char>,
)
    requires
        text::is_decimal(first),
        text::is_decimal(second),
        text::is_decimal(third),
        text::is_decimal(fourth),
        text::read_decimal(first) == major,
        text::read_decimal(second) == minor,
        text::read_decimal(third) == patch,
    ensures
        parsed_code(first) == Some(Code { major, minor: 0, patch: 0 }),
        parsed_code(first.push('.') + second) == Some(Code { major, minor, patch: 0 }),
        parsed_code((first.push('.') + second).push('.') + third) == Some(
            Code { major, minor, patch },
        ),
        parsed_code(((first.push('.') + second).push('.') + third).push('.') + fourth)
            == None::<Code>,
{
    lemma_part_value(first, major);
    lemma_part_value(second, minor);
    lemma_part_value(third, patch);
    assert forall|i: int| 0 <= i < fourth.len() implies #[trigger] fourth[i] != '.' by {
        assert('0' <= fourth[i] <= '9');
    }
    let two = first.push('.') + second;
    let three = two.push('.') + third;
    lemma_parts(Seq::empty(), first);
    lemma_parts(first, second);
    lemma_parts(two, third);
    lemma_parts(three, fourth);
}

} // verus!
