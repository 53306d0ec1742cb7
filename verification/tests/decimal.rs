use jj_version::decimal::{decimal_string, parse_usize};

#[test]
fn parse_usize_reads_digits() {
    assert_eq!(parse_usize("42"), Some(42));
    assert_eq!(parse_usize("0"), Some(0));
    assert_eq!(parse_usize("007"), Some(7));
    assert_eq!(parse_usize("+7"), Some(7));
}

#[test]
fn parse_usize_refuses_what_std_refuses() {
    for s in ["", "+", "-1", "-0", " 1", "1 ", "1_000", "0x10", "++1", "1a", "٣"] {
        assert_eq!(parse_usize(s), None, "input {s:?}");
        assert!(s.parse::<usize>().is_err());
    }
}

#[test]
fn parse_usize_overflow() {
    let max = usize::MAX.to_string();
    assert_eq!(parse_usize(&max), Some(usize::MAX));
    let over = format!("{max}0");
    assert_eq!(parse_usize(&over), None);
    let one_more = (usize::MAX as u128 + 1).to_string();
    assert_eq!(parse_usize(&one_more), None);
}

#[test]
fn parse_usize_matches_std() {
    for s in ["1", "12", "+12", "99999", "00", "4294967296", "18446744073709551615", "18446744073709551616"] {
        assert_eq!(parse_usize(s), s.parse::<usize>().ok(), "input {s:?}");
    }
}

#[test]
fn decimal_string_writes_digits() {
    assert_eq!(decimal_string(0), "0");
    assert_eq!(decimal_string(9), "9");
    assert_eq!(decimal_string(10), "10");
    assert_eq!(decimal_string(1234567890), "1234567890");
    assert_eq!(decimal_string(usize::MAX), usize::MAX.to_string());
}

#[test]
fn decimal_string_reads_back() {
    for n in [0usize, 1, 4, 10, 99, 100, 65535, usize::MAX - 1, usize::MAX] {
        assert_eq!(parse_usize(&decimal_string(n)), Some(n));
    }
}
