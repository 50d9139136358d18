use rpncalc::calculator::{Calculator, Rendering};
use rpncalc::decimal::MalformedRender;
use rpncalc::display::{compose, display, trim};
use rpncalc::value::{ComplexValue, FloatValue, Magnitude};

fn shown_real(negative: bool, n: u64) -> FloatValue {
    let magnitude = if n == 0 {
        Magnitude::Zero
    } else {
        let shift = n.trailing_zeros();
        let mut odd = n >> shift;
        let mut significand = Vec::new();
        while odd > 0 {
            significand.push((odd & 0xff) as u8);
            odd >>= 8;
        }
        Magnitude::Finite { significand, exponent: shift as i64 }
    };
    FloatValue::new(1024, negative, magnitude).expect("a canonical significand")
}

fn shown(re: i64, im: i64) -> ComplexValue {
    ComplexValue {
        re: shown_real(re < 0, re.unsigned_abs()),
        im: shown_real(im < 0, im.unsigned_abs()),
    }
}

fn rendering(re: &str, im: &str) -> Rendering {
    Rendering { re: String::from(re), im: String::from(im) }
}

#[test]
fn trim_takes_zeros_and_point() {
    assert_eq!(trim("1.500"), "1.5");
    assert_eq!(trim("7.0000"), "7");
    assert_eq!(trim("0.0"), "0");
    assert_eq!(trim("-0.250"), "-0.25");
    assert_eq!(trim("1.05"), "1.05");
    assert_eq!(trim("inf.0"), "inf");
}

#[test]
fn trim_takes_zeros_of_a_text_without_point() {
    assert_eq!(trim("100"), "1");
    assert_eq!(trim("0"), "");
    assert_eq!(trim("000"), "");
    assert_eq!(trim(""), "");
}

#[test]
fn trim_takes_one_point_at_most() {
    assert_eq!(trim("10."), "10");
    assert_eq!(trim("1.."), "1.");
    assert_eq!(trim("1..00"), "1.");
    assert_eq!(trim("."), "");
    assert_eq!(trim(".0.0"), ".0");
}

#[test]
fn trim_leaves_other_texts() {
    assert_eq!(trim("abc"), "abc");
    assert_eq!(trim("0a"), "0a");
    assert_eq!(trim("1.5 "), "1.5 ");
    assert_eq!(trim("10\n"), "10\n");
}

#[test]
fn compose_leaves_out_a_zero_imaginary_part() {
    assert_eq!(compose(&shown(3, 0), "3.5", "0"), "3.5");
    assert_eq!(compose(&shown(0, 0), "0", "0"), "0");
    assert_eq!(compose(&shown(-3, 0), "-3", "whatever"), "-3");
}

#[test]
fn compose_leaves_out_a_zero_real_part() {
    assert_eq!(compose(&shown(0, 2), "0", "2"), "2i");
    assert_eq!(compose(&shown(0, -2), "0", "-2"), "-2i");
}

#[test]
fn compose_joins_both_parts() {
    assert_eq!(compose(&shown(1, 4), "1.2", "4"), "1.2 + 4i");
    assert_eq!(compose(&shown(1, -4), "1.2", "-4"), "1.2 + -4i");
    assert_eq!(compose(&shown(-1, 4), "-1.2", "4"), "-1.2 + 4i");
}

#[test]
fn compose_writes_a_unit_imaginary_part_as_its_sign() {
    assert_eq!(compose(&shown(0, 1), "0", "1"), "i");
    assert_eq!(compose(&shown(0, -1), "0", "-1"), "-i");
    assert_eq!(compose(&shown(3, 1), "3", "1"), "3 + i");
    assert_eq!(compose(&shown(3, -1), "3", "-1"), "3 + -i");
}

#[test]
fn compose_writes_other_imaginary_parts_in_full() {
    let half = ComplexValue {
        re: shown_real(false, 0),
        im: FloatValue::new(1024, false, Magnitude::Finite { significand: vec![1], exponent: -1 })
            .expect("canonical"),
    };
    assert_eq!(compose(&half, "0", "0.5"), "0.5i");
    assert_eq!(compose(&shown(0, 2), "0", "2"), "2i");
    assert_eq!(compose(&shown(0, 257), "0", "257"), "257i");
}

#[test]
fn display_formats_trims_and_composes() {
    assert_eq!(display(&shown(7, 0), "7.0000", "0"), Ok(String::from("7")));
    assert_eq!(display(&shown(12, 0), "1.2000e1", "0"), Ok(String::from("12")));
    assert_eq!(display(&shown(2, 3), "2.0000", "3.0000"), Ok(String::from("2 + 3i")));
    assert_eq!(display(&shown(-2, -3), "-2.0000", "-3.0000"), Ok(String::from("-2 + -3i")));
    assert_eq!(display(&shown(0, 1), "0", "1.0000"), Ok(String::from("i")));
    assert_eq!(display(&shown(0, -1), "0", "-1.0000"), Ok(String::from("-i")));
    assert_eq!(display(&shown(0, 0), "0", "0"), Ok(String::from("0")));
}

#[test]
fn display_trims_whole_numbers_without_point() {
    assert_eq!(display(&shown(1200, 0), "1.2e3", "0"), Ok(String::from("12")));
}

#[test]
fn display_rejects_a_malformed_render_of_either_part() {
    assert_eq!(display(&shown(7, 0), "7e0", "0"), Err(MalformedRender));
    assert_eq!(display(&shown(7, 0), "7.0", "0.0e"), Err(MalformedRender));
    assert_eq!(display(&shown(-7, 0), "7.0", "0"), Err(MalformedRender));
    assert_eq!(display(&shown(7, -2), "7.0", "2.0"), Err(MalformedRender));
}

#[test]
fn render_all_gives_one_line_for_each_value_bottom_first() {
    let mut calc = Calculator::new();
    calc.push(shown(7, 0));
    calc.push(shown(0, 1));
    calc.push(shown(2, 3));
    let renders =
        vec![rendering("7.000", "0"), rendering("0", "1.000"), rendering("2.000", "3.000")];
    assert_eq!(
        calc.render_all(&renders),
        Ok(vec![String::from("7"), String::from("i"), String::from("2 + 3i")])
    );
}

#[test]
fn render_all_of_an_empty_stack_is_empty() {
    let calc = Calculator::new();
    assert_eq!(calc.render_all(&vec![]), Ok(vec![]));
}

#[test]
fn render_all_rejects_a_malformed_render() {
    let mut calc = Calculator::new();
    calc.push(shown(7, 0));
    calc.push(shown(2, 3));
    let renders = vec![rendering("7.000", "0"), rendering("2.000", "3e")];
    assert_eq!(calc.render_all(&renders), Err(MalformedRender));
}

#[test]
fn render_all_needs_one_rendering_for_each_value() {
    let mut calc = Calculator::new();
    calc.push(shown(7, 0));
    assert_eq!(calc.render_all(&vec![]), Err(MalformedRender));
    let renders = vec![rendering("7.000", "0"), rendering("2.000", "3.000")];
    assert_eq!(calc.render_all(&renders), Err(MalformedRender));
}

#[test]
fn display_of_special_values_keeps_their_markers() {
    let infinite = ComplexValue {
        re: FloatValue::new(64, true, Magnitude::Infinite).expect("a precision"),
        im: FloatValue::new(64, false, Magnitude::NotANumber).expect("a precision"),
    };
    assert_eq!(display(&infinite, "-inf", "NaN"), Ok(String::from("-inf + NaNi")));
    let real = ComplexValue {
        re: FloatValue::new(64, false, Magnitude::NotANumber).expect("a precision"),
        im: FloatValue::new(64, false, Magnitude::Zero).expect("a precision"),
    };
    assert_eq!(display(&real, "NaN", "0"), Ok(String::from("NaN")));
}

#[test]
fn typed_decimals_come_back_as_typed() {
    let cases = [
        ("12.5", "1.2500000e1"),
        ("12.5", "12.500000"),
        ("0.001", "1.0000000e-3"),
        ("250", "2.5000000e2"),
        ("1234567.8", "1.2345678e6"),
        ("0.5", "5.0000000e-1"),
        ("3", "3.0000000"),
    ];
    for (typed, render) in cases {
        assert_eq!(display(&shown(5, 0), render, "0"), Ok(String::from(typed)));
    }
}

#[test]
fn whole_numbers_lose_their_zeros_where_no_point_is_left() {
    assert_eq!(display(&shown(5, 0), "2.5e3", "0"), Ok(String::from("25")));
    assert_eq!(display(&shown(5, 0), "1.0e1", "0"), Ok(String::from("1")));
}

#[test]
fn display_of_a_negative_zero_has_no_sign() {
    let minus_zero = FloatValue::new(1024, true, Magnitude::Zero).expect("a precision");
    let plus_zero = FloatValue::new(1024, false, Magnitude::Zero).expect("a precision");
    let real = ComplexValue { re: minus_zero.clone(), im: plus_zero.clone() };
    assert_eq!(display(&real, "-0", "0"), Ok(String::from("0")));
    let both = ComplexValue { re: minus_zero.clone(), im: minus_zero.clone() };
    assert_eq!(display(&both, "-0", "-0"), Ok(String::from("0")));
    let imaginary = ComplexValue { re: minus_zero, im: shown_real(true, 2) };
    assert_eq!(display(&imaginary, "-0", "-2.000"), Ok(String::from("-2i")));
    let beside = ComplexValue { re: shown_real(true, 3), im: plus_zero };
    assert_eq!(display(&beside, "-3.000", "0"), Ok(String::from("-3")));
}

#[test]
fn display_needs_the_minus_of_a_negative_component() {
    assert_eq!(display(&shown(-3, 0), "3.000", "0"), Err(MalformedRender));
}

#[test]
fn whole_numbers_without_point_come_back_unless_they_end_in_zero() {
    assert_eq!(display(&shown(5, 0), "1.25e2", "0"), Ok(String::from("125")));
    assert_eq!(display(&shown(5, 0), "1.25e3", "0"), Ok(String::from("125")));
    assert_eq!(display(&shown(-5, 0), "-7.0e1", "0"), Ok(String::from("-7")));
}
