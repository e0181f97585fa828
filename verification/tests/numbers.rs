use svg_to_omap_point_symbol::binary64::Binary64;
use svg_to_omap_point_symbol::text::{append_hex_byte, decimal_text};

fn held(number: f64) -> Binary64 {
    Binary64 {
        bits: number.to_bits(),
    }
}

fn samples() -> Vec<f64> {
    vec![
        0.0,
        -0.0,
        f64::from_bits(1),
        -f64::from_bits(1),
        f64::MIN_POSITIVE,
        -f64::MIN_POSITIVE,
        f64::EPSILON,
        1.0e-6,
        0.5,
        1.0 - f64::EPSILON,
        1.0,
        1.0 + f64::EPSILON,
        -1.0,
        25.4,
        96.0,
        -96.0,
        f64::MAX,
        f64::MIN,
        f64::INFINITY,
        f64::NEG_INFINITY,
        f64::NAN,
        -f64::NAN,
    ]
}

#[test]
fn comparisons_agree_with_the_machine() {
    for first in samples() {
        for second in samples() {
            let (a, b) = (held(first), held(second));
            assert_eq!(a.is_less_than(b), first < second, "{first} < {second}");
            assert_eq!(a.is_at_most(b), first <= second, "{first} <= {second}");
            assert_eq!(a.equals(b), first == second, "{first} == {second}");
        }
    }
}

#[test]
fn properties_agree_with_the_machine() {
    for number in samples() {
        let value = held(number);
        assert_eq!(value.is_finite(), number.is_finite(), "{number}");
        assert_eq!(value.is_sign_positive(), number.is_sign_positive());
        assert_eq!(value.abs().bits, number.abs().to_bits());
        assert_eq!(
            value.is_positive_and_finite(),
            number.is_finite() && number > 0.0
        );
    }
}

#[test]
fn decimal_notation() {
    for number in [0, 1, 9, 10, 99, 100, 1234567890, usize::MAX] {
        assert_eq!(decimal_text(number), number.to_string());
    }
}

#[test]
fn hexadecimal_notation() {
    for byte in 0..=255u8 {
        let mut text = "x".to_owned();
        append_hex_byte(&mut text, byte);
        assert_eq!(text, format!("x{byte:02x}"));
    }
}
