use resistor_series::fmtnum::{fmt_min_dec, fmt_one_dec, fmt_two_dec, fmt_u64};
use resistor_series::tables::{
    other_suffix_for_case, power_for_case, str_eq, unit_suffix_for_case,
};

#[test]
fn renders_plain_integers() {
    assert_eq!(fmt_u64(0), "0");
    assert_eq!(fmt_u64(7), "7");
    assert_eq!(fmt_u64(100), "100");
    assert_eq!(fmt_u64(909), "909");
    assert_eq!(fmt_u64(1000), "1000");
}

#[test]
fn renders_two_decimals() {
    assert_eq!(fmt_two_dec(100), "1.00");
    assert_eq!(fmt_two_dec(147), "1.47");
    assert_eq!(fmt_two_dec(909), "9.09");
    assert_eq!(fmt_two_dec(1000), "10.00");
}

#[test]
fn renders_one_decimal() {
    assert_eq!(fmt_one_dec(100), "10.0");
    assert_eq!(fmt_one_dec(825), "82.5");
    assert_eq!(fmt_one_dec(909), "90.9");
}

#[test]
fn renders_shortest_form() {
    assert_eq!(fmt_min_dec(100), "1");
    assert_eq!(fmt_min_dec(150), "1.5");
    assert_eq!(fmt_min_dec(147), "1.47");
    assert_eq!(fmt_min_dec(200), "2");
    assert_eq!(fmt_min_dec(750), "7.5");
    assert_eq!(fmt_min_dec(909), "9.09");
}

#[test]
fn compares_strings_by_characters() {
    assert!(str_eq("0402", "0402"));
    assert!(!str_eq("0402", "0403"));
    assert!(!str_eq("04", "0402"));
    assert!(str_eq("", ""));
}

#[test]
fn suffix_and_power_tables() {
    assert_eq!(unit_suffix_for_case("0402"), "LLCT-ND");
    assert_eq!(unit_suffix_for_case("2512"), "AFCT-ND");
    assert_eq!(unit_suffix_for_case("abc"), "XXXX-ND");
    assert_eq!(other_suffix_for_case("1218"), "KANCT-ND");
    assert_eq!(other_suffix_for_case("0603"), "HCT-ND");
    assert_eq!(other_suffix_for_case(""), "XXX-ND");
    assert_eq!(power_for_case("2010"), "3/4");
    assert_eq!(power_for_case("1210"), "1/2");
    assert_eq!(power_for_case("x"), "0");
}
