use rpncalc::significand::{is_canonical, normalize};
use rpncalc::value::{digit_count, ComplexValue, FloatValue, Magnitude};

fn finite(significand: Vec<u8>, exponent: i64) -> Magnitude {
    Magnitude::Finite { significand, exponent }
}

#[test]
fn digit_count_is_a_fifth_of_the_bits_less_two() {
    assert_eq!(digit_count(1024), Some(202));
    assert_eq!(digit_count(53), Some(8));
    assert_eq!(digit_count(10), Some(0));
    assert_eq!(digit_count(14), Some(0));
    assert_eq!(digit_count(15), Some(1));
    assert_eq!(digit_count(u32::MAX), Some(858993457));
}

#[test]
fn digit_count_needs_ten_bits() {
    assert_eq!(digit_count(9), None);
    assert_eq!(digit_count(1), None);
    assert_eq!(digit_count(0), None);
}

#[test]
fn canonical_significand_is_odd_without_leading_zero() {
    assert!(is_canonical(&vec![1], 1));
    assert!(is_canonical(&vec![3], 2));
    assert!(is_canonical(&vec![0xcd, 0xcc], 16));
    assert!(!is_canonical(&vec![], 8));
    assert!(!is_canonical(&vec![2], 8));
    assert!(!is_canonical(&vec![1, 0], 16));
    assert!(!is_canonical(&vec![0], 8));
}

#[test]
fn canonical_significand_fits_the_precision() {
    assert!(is_canonical(&vec![255], 8));
    assert!(!is_canonical(&vec![255], 7));
    assert!(is_canonical(&vec![1, 1], 9));
    assert!(!is_canonical(&vec![1, 1], 8));
    assert!(is_canonical(&vec![1, 0, 128], 24));
    assert!(!is_canonical(&vec![1, 0, 128], 23));
    assert!(!is_canonical(&vec![3], 1));
}

#[test]
fn new_checks_precision_and_significand() {
    assert!(FloatValue::new(0, false, Magnitude::Zero).is_none());
    assert!(FloatValue::new(1, false, Magnitude::Zero).is_some());
    assert!(FloatValue::new(8, true, Magnitude::Infinite).is_some());
    assert!(FloatValue::new(8, false, Magnitude::NotANumber).is_some());
    assert!(FloatValue::new(8, false, finite(vec![5], -3)).is_some());
    assert!(FloatValue::new(8, false, finite(vec![4], 0)).is_none());
    assert!(FloatValue::new(8, false, finite(vec![1, 1], 0)).is_none());
    assert!(FloatValue::new(0, false, finite(vec![1], 0)).is_none());
}

#[test]
fn new_keeps_the_parts() {
    let value = FloatValue::new(64, true, finite(vec![0xcd, 0x0c], -7)).expect("canonical");
    assert_eq!(value.precision(), 64);
    assert!(value.is_sign_negative());
    assert_eq!(value.magnitude(), &finite(vec![0xcd, 0x0c], -7));
    assert!(!value.is_zero());
    assert!(!value.is_unit());
}

#[test]
fn zero_keeps_its_sign() {
    let plus = FloatValue::new(32, false, Magnitude::Zero).expect("a precision");
    let minus = FloatValue::new(32, true, Magnitude::Zero).expect("a precision");
    assert!(plus.is_zero() && !plus.is_sign_negative());
    assert!(minus.is_zero() && minus.is_sign_negative());
    assert!(!plus.is_unit());
}

#[test]
fn unit_is_one_of_either_sign() {
    let one = FloatValue::new(32, false, finite(vec![1], 0)).expect("canonical");
    let minus_one = FloatValue::new(32, true, finite(vec![1], 0)).expect("canonical");
    let two = FloatValue::new(32, false, finite(vec![1], 1)).expect("canonical");
    let half = FloatValue::new(32, false, finite(vec![1], -1)).expect("canonical");
    let three = FloatValue::new(32, false, finite(vec![3], 0)).expect("canonical");
    let big = FloatValue::new(32, false, finite(vec![1, 1], 0)).expect("canonical");
    let infinite = FloatValue::new(32, false, Magnitude::Infinite).expect("a precision");
    let nan = FloatValue::new(32, false, Magnitude::NotANumber).expect("a precision");
    assert!(one.is_unit());
    assert!(minus_one.is_unit());
    assert!(!two.is_unit());
    assert!(!half.is_unit());
    assert!(!three.is_unit());
    assert!(!big.is_unit());
    assert!(!infinite.is_unit() && !infinite.is_zero());
    assert!(!nan.is_unit() && !nan.is_zero());
}

#[test]
fn clone_keeps_the_value() {
    let value = FloatValue::new(64, true, finite(vec![0xcd, 0x0c], -7)).expect("canonical");
    assert_eq!(value.clone(), value);
    let complex = ComplexValue { re: value.clone(), im: value };
    assert_eq!(complex.clone(), complex);
}

#[test]
fn from_real_has_a_positive_zero_imaginary_part() {
    let re = FloatValue::new(64, true, finite(vec![3], 0)).expect("canonical");
    let value = ComplexValue::from_real(re.clone());
    assert_eq!(value.re, re);
    assert!(value.im.is_zero());
    assert!(!value.im.is_sign_negative());
    assert_eq!(value.im.precision(), 64);
}

#[test]
fn normalize_takes_out_the_factors_two() {
    assert_eq!(normalize(vec![12], 0), Some((vec![3], 2)));
    assert_eq!(normalize(vec![3], -5), Some((vec![3], -5)));
    assert_eq!(normalize(vec![0, 1], 0), Some((vec![1], 8)));
    assert_eq!(normalize(vec![0, 0, 0x80], -23), Some((vec![1], 0)));
    assert_eq!(normalize(vec![0x00, 0xd0], -13), Some((vec![13], -1)));
    assert_eq!(normalize(vec![0x34, 0x12], 7), Some((vec![0x8d, 0x04], 9)));
    assert_eq!(normalize(vec![0, 0xff, 0xff], 1), Some((vec![0xff, 0xff], 9)));
}

#[test]
fn normalize_takes_off_leading_zero_digits() {
    assert_eq!(normalize(vec![5, 0, 0], 1), Some((vec![5], 1)));
    assert_eq!(normalize(vec![6, 0], 1), Some((vec![3], 2)));
}

#[test]
fn normalize_of_zero_has_no_digits() {
    assert_eq!(normalize(vec![], 4), Some((vec![], 4)));
    assert_eq!(normalize(vec![0, 0], i64::MAX), Some((vec![], i64::MAX)));
}

#[test]
fn normalize_stops_at_the_largest_exponent() {
    assert_eq!(normalize(vec![1], i64::MAX), Some((vec![1], i64::MAX)));
    assert_eq!(normalize(vec![2], i64::MAX - 1), Some((vec![1], i64::MAX)));
    assert_eq!(normalize(vec![2], i64::MAX), None);
    assert_eq!(normalize(vec![0, 1], i64::MAX - 7), None);
}

#[test]
fn from_parts_makes_the_significand_odd() {
    let six = FloatValue::from_parts(16, false, vec![0x00, 0xc0], -13).expect("sixteen bits");
    assert_eq!(six.magnitude(), &finite(vec![3], 1));
    assert_eq!(six.precision(), 16);
    assert!(!six.is_sign_negative());
    let one = FloatValue::from_parts(16, true, vec![0x00, 0x80], -15).expect("sixteen bits");
    assert!(one.is_unit());
    assert!(one.is_sign_negative());
    assert_eq!(one, FloatValue::new(16, true, finite(vec![1], 0)).expect("canonical"));
}

#[test]
fn from_parts_of_no_digits_is_zero() {
    let zero = FloatValue::from_parts(16, true, vec![], 0).expect("a precision");
    assert!(zero.is_zero());
    assert!(zero.is_sign_negative());
    let also = FloatValue::from_parts(16, false, vec![0, 0, 0], i64::MAX).expect("a precision");
    assert_eq!(also.magnitude(), &Magnitude::Zero);
}

#[test]
fn from_parts_checks_precision_and_exponent() {
    assert!(FloatValue::from_parts(0, false, vec![1], 0).is_none());
    assert!(FloatValue::from_parts(8, false, vec![0xff], 0).is_some());
    assert!(FloatValue::from_parts(7, false, vec![0xff], 0).is_none());
    assert!(FloatValue::from_parts(7, false, vec![0xfe], 0).is_some());
    assert!(FloatValue::from_parts(1, false, vec![0, 0, 1], 0).is_some());
    assert!(FloatValue::from_parts(8, false, vec![2], i64::MAX).is_none());
}

#[test]
fn negative_is_a_set_sign_bit_on_what_is_not_zero() {
    let minus_zero = FloatValue::new(32, true, Magnitude::Zero).expect("a precision");
    let plus_zero = FloatValue::new(32, false, Magnitude::Zero).expect("a precision");
    let minus_one = FloatValue::new(32, true, finite(vec![1], 0)).expect("canonical");
    let one = FloatValue::new(32, false, finite(vec![1], 0)).expect("canonical");
    let minus_infinity = FloatValue::new(32, true, Magnitude::Infinite).expect("a precision");
    assert!(minus_zero.is_sign_negative() && !minus_zero.is_negative());
    assert!(!plus_zero.is_negative());
    assert!(minus_one.is_negative());
    assert!(!one.is_negative());
    assert!(minus_infinity.is_negative());
}
