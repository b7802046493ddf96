use calc_core::grouping::{
    add_thousands_separators, format_with_separators, strip_separators, triads_format,
    trim_number,
};
use calc_core::render::{eng_exponent, engineering_string, int_to_string, u64_to_string};

#[test]
fn trimming_removes_zeros_then_the_point() {
    assert_eq!(trim_number("3.140000000000000000"), "3.14");
    assert_eq!(trim_number("100.000000000000000000"), "100");
    assert_eq!(trim_number("0.000000000000000000"), "0");
    assert_eq!(trim_number("-2.500000000000000000"), "-2.5");
    assert_eq!(trim_number("7"), "7");
}

#[test]
fn trimming_restores_minimal_decimals() {
    // The regular style renders with eighteen decimal places and trims;
    // a value whose decimal form is exact comes back unchanged.
    for s in ["10", "3", "0.5", "123.25", "1.5", "0.0625", "-42", "-0.75"] {
        let v: f64 = s.parse().unwrap();
        let rendered = format!("{:.18}", v);
        assert_eq!(trim_number(&rendered), s, "not restored: {:?}", s);
    }
    // A string the formatter itself produced reproduces itself too.
    let shown = trim_number(&format!("{:.18}", 0.1_f64));
    let again: f64 = shown.parse().unwrap();
    assert_eq!(trim_number(&format!("{:.18}", again)), shown);
}

#[test]
fn thousands_separators_group_by_threes() {
    assert_eq!(add_thousands_separators("1234567"), "1,234,567");
    assert_eq!(add_thousands_separators("123456"), "123,456");
    assert_eq!(add_thousands_separators("1234"), "1,234");
    assert_eq!(add_thousands_separators("123"), "123");
    assert_eq!(add_thousands_separators("-1234"), "-1,234");
    assert_eq!(add_thousands_separators("-123"), "-123");
    assert_eq!(format_with_separators("6227020800"), "6,227,020,800");
    assert_eq!(format_with_separators("120"), "120");
}

#[test]
fn triads_group_only_the_integer_portion() {
    assert_eq!(triads_format("1234567.891000000000000000"), "1,234,567.891");
    assert_eq!(triads_format("-1234.500000000000000000"), "-1,234.5");
    assert_eq!(triads_format("999.000000000000000000"), "999");
    assert_eq!(triads_format("1000.000000000000000000"), "1,000");
}

#[test]
fn stripping_separators_undoes_grouping() {
    assert_eq!(strip_separators("1,234,567.891"), "1234567.891");
    assert_eq!(strip_separators("no commas"), "no commas");
    let v = 1234567.25_f64;
    let grouped = triads_format(&format!("{:.18}", v));
    let back: f64 = strip_separators(&grouped).parse().unwrap();
    assert_eq!(back, v);
    let w = -9876543.5_f64;
    let grouped = triads_format(&format!("{:.18}", w));
    let back: f64 = strip_separators(&grouped).parse().unwrap();
    assert_eq!(back, w);
}

#[test]
fn engineering_exponent_is_a_multiple_of_three() {
    for e in -40..=40 {
        let r = eng_exponent(e);
        assert_eq!(r % 3, 0);
        assert!(r <= e && e < r + 3, "misaligned for {}: {}", e, r);
    }
    assert_eq!(eng_exponent(0), 0);
    assert_eq!(eng_exponent(5), 3);
    assert_eq!(eng_exponent(-4), -6);
    assert_eq!(eng_exponent(-3), -3);
}

#[test]
fn engineering_exponent_for_float_magnitudes() {
    for v in [0.0004_f64, 5.0, 999.0, 1e-7, 6.02e23, 123456.0, 2.5e-16] {
        let exponent = v.abs().log10().floor() as i32;
        let eng = eng_exponent(exponent);
        assert_eq!(eng % 3, 0, "not a triple for {}", v);
        let mantissa = v.abs() / 10f64.powi(eng);
        assert!(mantissa >= 1.0 && mantissa < 1000.0, "mantissa {} for {}", mantissa, v);
    }
}

#[test]
fn engineering_strings_assemble_sign_mantissa_and_exponent() {
    assert_eq!(engineering_string(false, "2.5", 3), "2.5e3");
    assert_eq!(engineering_string(true, "400", -6), "-400e-6");
    assert_eq!(engineering_string(false, "1", 0), "1e0");
}

#[test]
fn decimal_renderings() {
    assert_eq!(u64_to_string(0), "0");
    assert_eq!(u64_to_string(7), "7");
    assert_eq!(u64_to_string(1234567890), "1234567890");
    assert_eq!(int_to_string(0), "0");
    assert_eq!(int_to_string(42), "42");
    assert_eq!(int_to_string(-6), "-6");
    assert_eq!(int_to_string(i32::MIN), "-2147483648");
}
