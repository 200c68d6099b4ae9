use zram_generator::size::{disksize, fits_memory, parse_fraction, Fraction, MemoryLimit};
use zram_generator::text::{decimal_string, parse_u64, NumberError};

#[test]
fn parse_u64_cases() {
    assert_eq!(parse_u64("0"), Ok(0));
    assert_eq!(parse_u64("+42"), Ok(42));
    assert_eq!(parse_u64("18446744073709551615"), Ok(u64::MAX));
    assert_eq!(parse_u64("18446744073709551616"), Err(NumberError::Overflow));
    assert_eq!(parse_u64(""), Err(NumberError::Empty));
    assert_eq!(parse_u64("+"), Err(NumberError::InvalidDigit));
    assert_eq!(parse_u64("-1"), Err(NumberError::InvalidDigit));
    assert_eq!(parse_u64("1 "), Err(NumberError::InvalidDigit));
}

fn fr(negative: bool, digits: &str, scale: i64) -> Fraction {
    Fraction { negative, digits: digits.chars().collect(), scale }
}

#[test]
fn parse_fraction_cases() {
    assert_eq!(parse_fraction("0.25"), Some(fr(false, "025", -2)));
    assert_eq!(parse_fraction("1"), Some(fr(false, "1", 0)));
    assert_eq!(parse_fraction("2."), Some(fr(false, "2", 0)));
    assert_eq!(parse_fraction(".5"), Some(fr(false, "5", -1)));
    assert_eq!(parse_fraction("+1.5"), Some(fr(false, "15", -1)));
    assert_eq!(parse_fraction("-0.5"), Some(fr(true, "05", -1)));
    assert_eq!(parse_fraction("0.3333333333333333333333"), Some(fr(false, "03333333333333333333333", -22)));
    assert_eq!(parse_fraction("."), None);
    assert_eq!(parse_fraction(""), None);
    assert_eq!(parse_fraction("1.2.3"), None);
    assert_eq!(parse_fraction("abc"), None);
}

#[test]
fn parse_fraction_exponents() {
    assert_eq!(parse_fraction("1e-1"), Some(fr(false, "1", -1)));
    assert_eq!(parse_fraction("2.5E2"), Some(fr(false, "25", 1)));
    assert_eq!(parse_fraction("1e+2"), Some(fr(false, "1", 2)));
    assert_eq!(parse_fraction("1e-25"), Some(fr(false, "1", -25)));
    assert_eq!(parse_fraction("0e99999"), Some(fr(false, "0", 99999)));
    assert_eq!(parse_fraction("5e"), None);
    assert_eq!(parse_fraction("5e-"), None);
    assert_eq!(parse_fraction("e5"), None);
    assert_eq!(parse_fraction("1e2e3"), None);
}

#[test]
fn parse_fraction_special_values() {
    assert_eq!(parse_fraction("nan"), Some(fr(true, "0", 0)));
    assert_eq!(parse_fraction("NaN"), Some(fr(true, "0", 0)));
    assert_eq!(parse_fraction("inf"), Some(fr(false, "1", i64::MAX)));
    assert_eq!(parse_fraction("+Infinity"), Some(fr(false, "1", i64::MAX)));
    assert_eq!(parse_fraction("-INF"), Some(fr(true, "1", i64::MAX)));
    assert_eq!(parse_fraction("infin"), None);
    let nan = parse_fraction("nan").unwrap();
    assert_eq!(disksize(&nan, 4096 * 1024), Some(0));
    let inf = parse_fraction("inf").unwrap();
    assert_eq!(disksize(&inf, 4096 * 1024), None);
    assert_eq!(disksize(&inf, 0), Some(0));
    let minus_inf = parse_fraction("-inf").unwrap();
    assert_eq!(disksize(&minus_inf, 4096 * 1024), Some(0));
}

#[test]
fn fits_memory_cases() {
    assert!(fits_memory(MemoryLimit::Bounded(2048), 2048 * 1024));
    assert!(!fits_memory(MemoryLimit::Bounded(2048), 2048 * 1024 + 1));
    assert!(fits_memory(MemoryLimit::Unlimited, u64::MAX));
    assert!(fits_memory(MemoryLimit::Bounded(u64::MAX), u64::MAX));
}

#[test]
fn disksize_formula() {
    let half = fr(false, "5", -1);
    assert_eq!(disksize(&half, 4096 * 1024), Some(2147483648));
    // 1.5 MB of memory, a half: 0.75 MB, which truncates to nothing.
    assert_eq!(disksize(&half, 1536), Some(0));
    // 3 MB, a third as 0.33: 0.99 MB truncates to 0 before scaling.
    assert_eq!(disksize(&fr(false, "33", -2), 3072), Some(0));
    // A third written with many digits, of 3072 MB: just under 1024 MB.
    let third = parse_fraction("0.3333333333333333333333").unwrap();
    assert_eq!(disksize(&third, 3072 * 1024), Some(1023 * 1048576));
    assert_eq!(disksize(&fr(false, "1", -25), 1 << 40), Some(0));
    assert_eq!(disksize(&fr(false, "2", 3), 1024), Some(2000 * 1048576));
    assert_eq!(disksize(&fr(true, "5", -1), 4096 * 1024), Some(0));
    assert_eq!(disksize(&fr(false, "1", 30), 1024), None);
    assert_eq!(disksize(&fr(false, "1", 30), 0), Some(0));
    assert_eq!(disksize(&fr(false, &"9".repeat(40), 0), 1), None);
    assert_eq!(disksize(&fr(false, "18446744073709551615", 0), u64::MAX), None);
}

#[test]
fn decimal_string_cases() {
    assert_eq!(decimal_string(0), "0");
    assert_eq!(decimal_string(7), "7");
    assert_eq!(decimal_string(2147483648), "2147483648");
    assert_eq!(decimal_string(u64::MAX), "18446744073709551615");
}
