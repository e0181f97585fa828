use svg_to_omap_point_symbol::binary64::Binary64;
use svg_to_omap_point_symbol::drawing::{Color, Gradient, Paint};
use svg_to_omap_point_symbol::paint::{
    color_hex, paint_color, warn_for_transparent_stops, OPAQUE_STOP_BITS,
};

fn held(number: f64) -> Binary64 {
    Binary64 {
        bits: number.to_bits(),
    }
}

fn color(red: u8, green: u8, blue: u8) -> Color {
    Color { red, green, blue }
}

fn gradient(opacities: &[f32]) -> Gradient {
    Gradient {
        average: color(128, 0, 255),
        stop_opacities: opacities.iter().map(|o| held(f64::from(*o))).collect(),
    }
}

#[test]
fn the_stop_threshold_is_single_precision() {
    assert_eq!(
        OPAQUE_STOP_BITS,
        f64::from(1.0f32 - 1.0e-6f64 as f32).to_bits()
    );
}

#[test]
fn hexadecimal_colors() {
    assert_eq!(color_hex(color(0, 0, 0)), "#000000");
    assert_eq!(color_hex(color(255, 16, 1)), "#ff1001");
    assert_eq!(color_hex(color(171, 205, 239)), "#abcdef");
}

#[test]
fn a_plain_color_stands_for_itself() {
    let mut warnings = Vec::new();
    let found = paint_color(&Paint::Color(color(1, 2, 3)), "a", &mut warnings);
    assert_eq!(found, Some(color(1, 2, 3)));
    assert!(warnings.is_empty());
}

#[test]
fn gradients_become_their_average() {
    let mut warnings = Vec::new();
    let linear = Paint::LinearGradient(gradient(&[1.0, 1.0]));
    let radial = Paint::RadialGradient(gradient(&[0.5]));
    assert_eq!(
        paint_color(&linear, "a", &mut warnings),
        Some(color(128, 0, 255))
    );
    assert_eq!(
        paint_color(&radial, "b", &mut warnings),
        Some(color(128, 0, 255))
    );
    assert_eq!(
        warnings,
        [
            "a uses a linear gradient; it was replaced with #8000ff",
            "b uses a radial gradient; it was replaced with #8000ff",
            "b has transparent gradient stops; they were made fully opaque",
        ]
    );
}

#[test]
fn patterns_are_skipped() {
    let mut warnings = Vec::new();
    assert_eq!(paint_color(&Paint::Pattern, "a", &mut warnings), None);
    assert_eq!(
        warnings,
        ["a uses an SVG paint pattern; that paint was skipped"]
    );
}

#[test]
fn transparent_stops_agree_with_single_precision() {
    let threshold = 1.0f32 - 1.0e-6f64 as f32;
    for step in 0..40u32 {
        let opacity = f32::from_bits(threshold.to_bits() - 20 + step);
        let mut warnings = Vec::new();
        let stops = vec![held(1.0), held(f64::from(opacity))];
        warn_for_transparent_stops(&stops, "a", &mut warnings);
        assert_eq!(warnings.len() == 1, opacity < threshold, "{opacity}");
    }
}

#[test]
fn no_stops_give_no_warning() {
    let mut warnings = Vec::new();
    warn_for_transparent_stops(&Vec::new(), "a", &mut warnings);
    assert!(warnings.is_empty());
}
