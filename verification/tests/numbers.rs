use csv_parser::parse_i32;

#[test]
fn parse_i32_reads_plain_numbers() {
    assert_eq!(parse_i32("0"), Some(0));
    assert_eq!(parse_i32("7"), Some(7));
    assert_eq!(parse_i32("170"), Some(170));
    assert_eq!(parse_i32("0042"), Some(42));
}

#[test]
fn parse_i32_takes_one_sign_in_front() {
    assert_eq!(parse_i32("+5"), Some(5));
    assert_eq!(parse_i32("-5"), Some(-5));
    assert_eq!(parse_i32("-0"), Some(0));
    assert_eq!(parse_i32("+"), None);
    assert_eq!(parse_i32("-"), None);
    assert_eq!(parse_i32("--5"), None);
    assert_eq!(parse_i32("+-5"), None);
    assert_eq!(parse_i32("5-"), None);
}

#[test]
fn parse_i32_refuses_what_is_no_number() {
    assert_eq!(parse_i32(""), None);
    assert_eq!(parse_i32("Alex"), None);
    assert_eq!(parse_i32(" 5"), None);
    assert_eq!(parse_i32("5 "), None);
    assert_eq!(parse_i32("1_000"), None);
    assert_eq!(parse_i32("1.5"), None);
    assert_eq!(parse_i32("12a"), None);
    assert_eq!(parse_i32("\u{663}"), None);
}

#[test]
fn parse_i32_stops_at_32_bits() {
    assert_eq!(parse_i32("2147483647"), Some(i32::MAX));
    assert_eq!(parse_i32("2147483648"), None);
    assert_eq!(parse_i32("-2147483648"), Some(i32::MIN));
    assert_eq!(parse_i32("-2147483649"), None);
    assert_eq!(parse_i32("00000000002147483647"), Some(i32::MAX));
    assert_eq!(parse_i32("99999999999999999999999999"), None);
    assert_eq!(parse_i32("-99999999999999999999999999"), None);
    assert_eq!(parse_i32("21474836470"), None);
}

#[test]
fn parse_i32_agrees_with_the_standard_library() {
    let samples = [
        "", "0", "-0", "+0", "1", "-1", "+1", "12", "0012", "2147483647", "2147483648",
        "-2147483648", "-2147483649", "4294967296", "+2147483647", "+2147483648", "a", "1a",
        "a1", " 1", "1 ", "+", "-", "++1", "1+", "1-1", "0x10", "1e3", "\u{ff11}", "٣", "1,2",
        "999999999", "9999999999", "-999999999", "-9999999999", "000", "-000", "+-1", "-+1",
    ];
    for text in samples {
        assert_eq!(parse_i32(text), text.parse::<i32>().ok(), "on {:?}", text);
    }
    for n in [-100000, -1000, -11, -10, -9, -1, 0, 1, 9, 10, 11, 99, 100, 101, 65536, 1000000] {
        assert_eq!(parse_i32(&format!("{}", n)), Some(n));
    }
}
