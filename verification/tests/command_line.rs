use std::path::{Path, PathBuf};
use svg_to_omap_point_symbol::binary64::Binary64;
use svg_to_omap_point_symbol::command_line::{
    check_positive_number, conversion_options, default_output_path, output_path, parse_code,
    summary, symbol_name,
};
use svg_to_omap_point_symbol::options::Code;

fn held(number: f64) -> Binary64 {
    Binary64 {
        bits: number.to_bits(),
    }
}

fn code(major: u16, minor: u16, patch: u16) -> Code {
    Code {
        major,
        minor,
        patch,
    }
}

#[test]
fn the_extension_is_replaced() {
    assert_eq!(
        default_output_path(Path::new("input.svg")),
        PathBuf::from("input.omap")
    );
    assert_eq!(
        default_output_path(Path::new("a/b.c/tree.min.svg")),
        PathBuf::from("a/b.c/tree.min.omap")
    );
    assert_eq!(
        default_output_path(Path::new("tree")),
        PathBuf::from("tree.omap")
    );
}

#[test]
fn a_chosen_output_comes_first() {
    let input = Path::new("input.svg");
    assert_eq!(
        output_path(Some(PathBuf::from("other.xmap")), input),
        PathBuf::from("other.xmap")
    );
    assert_eq!(output_path(None, input), PathBuf::from("input.omap"));
}

#[test]
fn the_name_falls_back_to_the_file_and_then_to_a_general_one() {
    let name = Some("Tree".to_owned());
    let stem = Some("input".to_owned());
    assert_eq!(symbol_name(name, stem.clone()), "Tree");
    assert_eq!(symbol_name(None, stem), "input");
    assert_eq!(symbol_name(None, None), "SVG symbol");
}

#[test]
fn options_are_taken_from_the_command_line() {
    let options = conversion_options(
        Path::new("art/tree.svg"),
        None,
        code(1, 2, 3),
        15_000,
        held(72.0),
        Some(held(5.0)),
    );
    assert_eq!(options.symbol_name, "tree");
    assert_eq!(options.symbol_code, code(1, 2, 3));
    assert_eq!(options.map_scale, 15_000);
    assert_eq!(options.dpi, held(72.0));
    assert_eq!(options.width_mm, Some(held(5.0)));
    let unnamed = conversion_options(Path::new(".."), None, code(1, 0, 0), 1, held(1.0), None);
    assert_eq!(unnamed.symbol_name, "SVG symbol");
}

#[test]
fn codes_have_one_to_three_numbers() {
    assert_eq!(parse_code("900"), Ok(code(900, 0, 0)));
    assert_eq!(parse_code("900.1"), Ok(code(900, 1, 0)));
    assert_eq!(parse_code("1.22.333"), Ok(code(1, 22, 333)));
    assert_eq!(parse_code("+7.007"), Ok(code(7, 7, 0)));
    assert_eq!(parse_code("65535.0.65535"), Ok(code(65535, 0, 65535)));
}

#[test]
fn numbers_left_out_are_zero() {
    assert_eq!(parse_code("900"), parse_code("900.0"));
    assert_eq!(parse_code("900.4"), parse_code("900.4.0"));
}

#[test]
fn other_codes_are_refused() {
    for raw in [
        "", ".", "1.", ".1", "1..2", "1.2.3.4", "-1", "+", "++1", "1 ", " 1", "a", "65536",
        "1.65536", "1,2", "1_0", "\u{663}",
    ] {
        assert_eq!(
            parse_code(raw),
            Err(format!("invalid symbol code {raw:?}; expected A[.B[.C]]"))
        );
    }
}

#[test]
fn special_characters_are_escaped_in_messages() {
    assert_eq!(
        parse_code("a\"\n"),
        Err("invalid symbol code \"a\\\"\\n\"; expected A[.B[.C]]".to_owned())
    );
}

#[test]
fn positive_numbers_are_accepted() {
    for raw in ["96", "0.5", "1e-300"] {
        let number = held(raw.parse::<f64>().unwrap());
        assert_eq!(check_positive_number(raw, Some(number)), Ok(number));
    }
}

#[test]
fn other_numbers_are_refused() {
    for raw in ["0", "-0", "-3", "inf", "NaN"] {
        let number = held(raw.parse::<f64>().unwrap());
        assert_eq!(
            check_positive_number(raw, Some(number)),
            Err("value must be a positive finite number".to_owned())
        );
    }
    assert_eq!(
        check_positive_number("wide", None),
        Err("invalid positive number \"wide\"".to_owned())
    );
}

#[test]
fn the_summary_names_sizes_and_counts() {
    assert_eq!(
        summary("tree.omap", "25.400", "12.700", 3, 14),
        "Wrote tree.omap: 25.400 x 12.700 mm, 3 paint layers, 14 point-symbol elements"
    );
}
