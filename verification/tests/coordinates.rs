use p2p_network_visualizer::coordinate::{parse_coordinate, push_coordinate, COORDINATE_LIMIT};

fn text_of(v: i64) -> String {
    let mut s = String::new();
    push_coordinate(&mut s, v);
    s
}

#[test]
fn parses_whole_and_fractional_numbers() {
    assert_eq!(parse_coordinate("12"), Some(12_000));
    assert_eq!(parse_coordinate("12.5"), Some(12_500));
    assert_eq!(parse_coordinate("0.125"), Some(125));
    assert_eq!(parse_coordinate("5."), Some(5_000));
    assert_eq!(parse_coordinate(".25"), Some(250));
    assert_eq!(parse_coordinate("+3"), Some(3_000));
    assert_eq!(parse_coordinate("-7.75"), Some(-7_750));
    assert_eq!(parse_coordinate("-0"), Some(0));
}

#[test]
fn rounds_to_thousandths_half_away_from_zero() {
    assert_eq!(parse_coordinate("0.0004"), Some(0));
    assert_eq!(parse_coordinate("0.0005"), Some(1));
    assert_eq!(parse_coordinate("-0.0005"), Some(-1));
    assert_eq!(parse_coordinate("1.23456"), Some(1_235));
}

#[test]
fn rejects_what_is_not_a_decimal_numeral() {
    assert_eq!(parse_coordinate(""), None);
    assert_eq!(parse_coordinate("."), None);
    assert_eq!(parse_coordinate("-"), None);
    assert_eq!(parse_coordinate("abc"), None);
    assert_eq!(parse_coordinate("e3"), None);
    assert_eq!(parse_coordinate("1e"), None);
    assert_eq!(parse_coordinate("1e+"), None);
    assert_eq!(parse_coordinate("1e3.5"), None);
    assert_eq!(parse_coordinate(".e3"), None);
    assert_eq!(parse_coordinate("inf"), None);
    assert_eq!(parse_coordinate("NaN"), None);
    assert_eq!(parse_coordinate(" 12"), None);
    assert_eq!(parse_coordinate("1.2.3"), None);
    assert_eq!(parse_coordinate("12x"), None);
}

#[test]
fn parses_exponent_forms() {
    assert_eq!(parse_coordinate("1e3"), Some(1_000_000));
    assert_eq!(parse_coordinate("1E3"), Some(1_000_000));
    assert_eq!(parse_coordinate("2.5e+2"), Some(250_000));
    assert_eq!(parse_coordinate("-4e-1"), Some(-400));
    assert_eq!(parse_coordinate("1.5E-3"), Some(2));
    assert_eq!(parse_coordinate("1e-4"), Some(0));
    assert_eq!(parse_coordinate("5e-4"), Some(1));
    assert_eq!(parse_coordinate("1.e2"), Some(100_000));
    assert_eq!(parse_coordinate(".5e1"), Some(5_000));
    assert_eq!(parse_coordinate("0012.50e0"), Some(12_500));
    assert_eq!(parse_coordinate("0e999999999999999999999999"), Some(0));
    assert_eq!(parse_coordinate("1e-999999999999999999999999"), Some(0));
    assert_eq!(parse_coordinate("1e999999999999999999999999"), None);
}

#[test]
fn rejects_coordinates_beyond_the_limit() {
    assert_eq!(parse_coordinate("9000000000000000"), Some(COORDINATE_LIMIT));
    assert_eq!(parse_coordinate("-9000000000000000"), Some(-COORDINATE_LIMIT));
    assert_eq!(parse_coordinate("9e15"), Some(COORDINATE_LIMIT));
    assert_eq!(parse_coordinate("9000000000000000.001"), None);
    assert_eq!(parse_coordinate("9.0000000000000001e15"), None);
    assert_eq!(parse_coordinate("99999999999999999999999"), None);
}

#[test]
fn writes_coordinates_as_pixels() {
    assert_eq!(text_of(400_000), "400");
    assert_eq!(text_of(12_500), "12.5");
    assert_eq!(text_of(12_050), "12.05");
    assert_eq!(text_of(12_005), "12.005");
    assert_eq!(text_of(-1), "-0.001");
    assert_eq!(text_of(0), "0");
    assert_eq!(text_of(-35_000), "-35");
}

#[test]
fn written_coordinates_read_back() {
    for v in [0i64, 1, -1, 999, 1_000, 12_340, -400_000, 123_456_789, COORDINATE_LIMIT, -COORDINATE_LIMIT] {
        assert_eq!(parse_coordinate(&text_of(v)), Some(v));
    }
}

#[test]
fn writing_appends() {
    let mut s = String::from("x=");
    push_coordinate(&mut s, 1_500);
    assert_eq!(s, "x=1.5");
}
