use mase::binary64;
use mase::text;

fn bits(x: f64) -> u64 {
    x.to_bits()
}

#[test]
fn constants_are_the_numbers_they_name() {
    assert_eq!(f64::from_bits(binary64::ZERO), 0.0);
    assert_eq!(f64::from_bits(binary64::ONE_THOUSANDTH), 0.001);
    assert_eq!(f64::from_bits(binary64::ONE_HUNDREDTH), 0.01);
    assert_eq!(f64::from_bits(binary64::ONE_TENTH), 0.1);
    assert_eq!(f64::from_bits(binary64::THREE_TENTHS), 0.3);
    assert_eq!(f64::from_bits(binary64::ONE_HALF), 0.5);
    assert_eq!(f64::from_bits(binary64::SEVEN_TENTHS), 0.7);
    assert_eq!(f64::from_bits(binary64::EIGHT_TENTHS), 0.8);
    assert_eq!(f64::from_bits(binary64::ONE), 1.0);
    assert_eq!(f64::from_bits(binary64::MINUS_ONE), -1.0);
    assert_eq!(f64::from_bits(binary64::TWO), 2.0);
    assert_eq!(f64::from_bits(binary64::THREE), 3.0);
    assert_eq!(f64::from_bits(binary64::FOUR), 4.0);
    assert_eq!(f64::from_bits(binary64::FIVE), 5.0);
    assert_eq!(f64::from_bits(binary64::TEN), 10.0);
    assert_eq!(f64::from_bits(binary64::TWENTY), 20.0);
    assert_eq!(f64::from_bits(binary64::ONE_HUNDRED_TWENTY), 120.0);
    assert_eq!(f64::from_bits(binary64::FOUR_HUNDRED_FORTY), 440.0);
    assert_eq!(f64::from_bits(binary64::ONE_THOUSAND), 1000.0);
    assert_eq!(f64::from_bits(binary64::TWENTY_THOUSAND), 20000.0);
    assert_eq!(f64::from_bits(binary64::FORTY_FOUR_THOUSAND_ONE_HUNDRED), 44100.0);
    assert_eq!(f64::from_bits(binary64::INFINITY_BITS), f64::INFINITY);
}

#[test]
fn comparisons_agree_with_f64() {
    let values = [
        0.0, -0.0, 1.0, -1.0, 0.5, -0.5, 1e-300, -1e-300, 5e-324, -5e-324, 1e300, -1e300,
        f64::MAX, f64::MIN, f64::INFINITY, f64::NEG_INFINITY, f64::NAN, -f64::NAN, 20.0, 20000.0,
    ];
    for &a in &values {
        for &b in &values {
            assert_eq!(binary64::lt(bits(a), bits(b)), a < b, "{} < {}", a, b);
            assert_eq!(binary64::le(bits(a), bits(b)), a <= b, "{} <= {}", a, b);
        }
        assert_eq!(binary64::is_nan_bits(bits(a)), a.is_nan());
        let c = f64::from_bits(binary64::clamp(bits(a), bits(-1.0), bits(1.0)));
        let expected = a.clamp(-1.0, 1.0);
        assert!(c == expected || (c.is_nan() && expected.is_nan()), "clamp {}", a);
    }
}

#[test]
fn decimal_strings() {
    assert_eq!(text::decimal_string(0), "0");
    assert_eq!(text::decimal_string(7), "7");
    assert_eq!(text::decimal_string(10), "10");
    assert_eq!(text::decimal_string(1234567890), "1234567890");
    assert_eq!(text::decimal_string(u64::MAX), u64::MAX.to_string());
}

#[test]
fn string_helpers() {
    assert!(text::str_eq("abc", "abc"));
    assert!(!text::str_eq("abc", "abd"));
    assert!(!text::str_eq("abc", "ab"));
    assert!(text::str_eq("", ""));
    assert_eq!(text::find_char("a.b.c", '.'), Some(1));
    assert_eq!(text::find_char("abc", '.'), None);
    assert_eq!(text::find_char("ééx", 'x'), Some(2));
    assert_eq!(text::concat("ab", "cd"), "abcd");
    assert_eq!(text::owned("x"), "x");
}
