use just_tile::text::{decimal_string, joined, parse_u64};

#[test]
fn numbers_are_written_in_decimal() {
    assert_eq!(decimal_string(0), "0");
    assert_eq!(decimal_string(9), "9");
    assert_eq!(decimal_string(10), "10");
    assert_eq!(decimal_string(1048576), "1048576");
    assert_eq!(decimal_string(u64::MAX), u64::MAX.to_string());
}

#[test]
fn numbers_are_read_like_the_standard_library_reads_them() {
    for text in [
        "", "+", "-", "0", "+0", "-0", "007", "12", "+12", "++12", " 12", "12 ", "1 2", "0x10",
        "18446744073709551615", "18446744073709551616", "99999999999999999999999", "1e3", "١",
        "000000000000000000000000000018446744073709551615",
    ] {
        assert_eq!(parse_u64(text), text.parse::<u64>().ok(), "{}", text);
    }
}

#[test]
fn written_numbers_read_back() {
    for n in [0u64, 1, 42, 999_999_999_999, u64::MAX - 1, u64::MAX] {
        assert_eq!(parse_u64(&decimal_string(n)), Some(n));
    }
}

#[test]
fn pieces_of_text_are_joined() {
    assert_eq!(joined("a", ""), "a");
    assert_eq!(joined("über ", "ß"), "über ß");
}
