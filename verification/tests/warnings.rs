use svg_to_omap_point_symbol::binary64::Binary64;
use svg_to_omap_point_symbol::drawing::Opacity;
use svg_to_omap_point_symbol::warnings::{
    opacity_hides, opacity_shines_through, push_warning, warn_if_transparent, ONE_BITS,
    OPACITY_EPSILON_BITS,
};

fn held(number: f64) -> Binary64 {
    Binary64 {
        bits: number.to_bits(),
    }
}

fn opacity(value: f64) -> Opacity {
    Opacity {
        value: held(value),
        text: format!("{value:.3}"),
    }
}

#[test]
fn constants_are_the_numbers_they_stand_for() {
    assert_eq!(OPACITY_EPSILON_BITS, 1.0e-6f64.to_bits());
    assert_eq!(ONE_BITS, 1.0f64.to_bits());
}

#[test]
fn a_warning_is_given_once() {
    let mut warnings = Vec::new();
    push_warning(&mut warnings, "first".to_owned());
    push_warning(&mut warnings, "second".to_owned());
    push_warning(&mut warnings, "first".to_owned());
    assert_eq!(warnings, ["first", "second"]);
}

#[test]
fn different_warnings_are_all_kept() {
    let mut warnings = Vec::new();
    for text in ["", "a", "A", "a ", "b"] {
        push_warning(&mut warnings, text.to_owned());
    }
    assert_eq!(warnings, ["", "a", "A", "a ", "b"]);
}

#[test]
fn opacity_up_to_one_millionth_hides() {
    let epsilon = 1.0e-6f64;
    for value in [0.0, -0.0, 1.0e-7, epsilon] {
        assert!(opacity_hides(held(value)), "{value}");
    }
    for value in [f64::from_bits(epsilon.to_bits() + 1), 0.5, 1.0, f64::NAN] {
        assert!(!opacity_hides(held(value)), "{value}");
    }
}

#[test]
fn shining_through_agrees_with_the_difference_to_one() {
    let mut values = vec![0.0, 0.25, 0.5, 0.999, 1.0, 1.5, 2.0, f64::INFINITY, f64::NAN];
    for center in [1.0 - 1.0e-6, 1.0, 1.0 + 1.0e-6f64] {
        for step in 0..200u64 {
            values.push(f64::from_bits(center.to_bits() - 100 + step));
        }
    }
    for value in values {
        assert_eq!(
            opacity_shines_through(held(value)),
            (value - 1.0).abs() > 1.0e-6,
            "{value}"
        );
    }
}

#[test]
fn transparency_is_reported_with_three_decimals() {
    let mut warnings = Vec::new();
    warn_if_transparent(&opacity(0.5), "an SVG group", &mut warnings);
    warn_if_transparent(&opacity(1.0), "the frame", &mut warnings);
    assert_eq!(
        warnings,
        ["an SVG group uses opacity 0.500; it was made fully opaque"]
    );
}
