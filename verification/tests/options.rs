use svg_to_omap_point_symbol::binary64::Binary64;
use svg_to_omap_point_symbol::options::{validate_options, Code, ConversionOptions};

fn held(number: f64) -> Binary64 {
    Binary64 {
        bits: number.to_bits(),
    }
}

fn objection(options: &ConversionOptions) -> Option<String> {
    validate_options(options)
        .err()
        .map(|error| error.message().to_owned())
}

#[test]
fn conventional_options() {
    let options = ConversionOptions::new("Tree".to_owned());
    assert_eq!(options.symbol_name, "Tree");
    assert_eq!(
        options.symbol_code,
        Code {
            major: 900,
            minor: 0,
            patch: 0
        }
    );
    assert_eq!(options.map_scale, 10_000);
    assert_eq!(f64::from_bits(options.dpi.bits), 96.0);
    assert_eq!(options.width_mm, None);
    assert_eq!(objection(&options), None);
}

#[test]
fn density_must_be_positive_and_finite() {
    for dpi in [0.0, -0.0, -96.0, f64::INFINITY, f64::NEG_INFINITY, f64::NAN] {
        let mut options = ConversionOptions::new("Tree".to_owned());
        options.dpi = held(dpi);
        assert_eq!(
            objection(&options).as_deref(),
            Some("DPI must be a positive finite number")
        );
    }
    for dpi in [f64::from_bits(1), 72.0, f64::MAX] {
        let mut options = ConversionOptions::new("Tree".to_owned());
        options.dpi = held(dpi);
        assert_eq!(objection(&options), None);
    }
}

#[test]
fn width_must_be_positive_and_finite() {
    for width in [0.0, -1.0, f64::INFINITY, f64::NAN] {
        let mut options = ConversionOptions::new("Tree".to_owned());
        options.width_mm = Some(held(width));
        assert_eq!(
            objection(&options).as_deref(),
            Some("the width override must be a positive finite number")
        );
    }
    let mut options = ConversionOptions::new("Tree".to_owned());
    options.width_mm = Some(held(7.5));
    assert_eq!(objection(&options), None);
}

#[test]
fn a_name_of_white_space_is_empty() {
    for name in ["", " ", "\t\n\u{b}\u{c}\r", "\u{85}\u{a0}\u{1680}", "\u{2000}\u{200a}"] {
        assert_eq!(
            objection(&ConversionOptions::new(name.to_owned())).as_deref(),
            Some("the symbol name cannot be empty")
        );
    }
    for name in ["\u{2028}\u{2029}\u{202f}\u{205f}\u{3000}"] {
        assert!(objection(&ConversionOptions::new(name.to_owned())).is_some());
    }
    for name in [" a ", "\u{200b}", "\u{feff}", "\u{180e}", ".", "\u{0}"] {
        assert_eq!(objection(&ConversionOptions::new(name.to_owned())), None);
    }
}

#[test]
fn every_white_space_character_counts() {
    for code in 0..=0x10ffffu32 {
        if let Some(c) = char::from_u32(code) {
            let listed = matches!(
                code,
                0x9..=0xd
                    | 0x20
                    | 0x85
                    | 0xa0
                    | 0x1680
                    | 0x2000..=0x200a
                    | 0x2028
                    | 0x2029
                    | 0x202f
                    | 0x205f
                    | 0x3000
            );
            assert_eq!(c.is_whitespace(), listed, "{code:x}");
        }
    }
}

#[test]
fn the_first_objection_is_reported() {
    let mut options = ConversionOptions::new(" ".to_owned());
    options.width_mm = Some(held(-1.0));
    assert_eq!(
        objection(&options).as_deref(),
        Some("the width override must be a positive finite number")
    );
    options.dpi = held(0.0);
    assert_eq!(
        objection(&options).as_deref(),
        Some("DPI must be a positive finite number")
    );
}
