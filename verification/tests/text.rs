use market_connectors::text::{decimal, is_nul_free, signed_decimal};

#[test]
fn decimal_writes_plain_numerals() {
    assert_eq!(decimal(0), "0");
    assert_eq!(decimal(9), "9");
    assert_eq!(decimal(10), "10");
    assert_eq!(decimal(1_700_000_000_123), "1700000000123");
    assert_eq!(decimal(u64::MAX), "18446744073709551615");
}

#[test]
fn signed_decimal_writes_the_sign() {
    assert_eq!(signed_decimal(0), "0");
    assert_eq!(signed_decimal(-1), "-1");
    assert_eq!(signed_decimal(i32::MAX), "2147483647");
    assert_eq!(signed_decimal(i32::MIN), "-2147483648");
}

#[test]
fn decimal_reads_back() {
    for n in [0u64, 7, 42, 100, 65_536, u64::MAX] {
        assert_eq!(decimal(n).parse::<u64>().unwrap(), n);
    }
}

#[test]
fn nul_characters_are_found() {
    assert!(is_nul_free(""));
    assert!(is_nul_free("tcp://127.0.0.1:10210"));
    assert!(!is_nul_free("\0"));
    assert!(!is_nul_free("rb\u{0}2410"));
    assert!(is_nul_free("\u{87ba}\u{7eb9}"));
}
