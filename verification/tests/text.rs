use rdkafka_admin::error::{check_c_string, c_compatible, KafkaError, NulError};
use rdkafka_admin::text::{find_nul, format_i32, format_u64, format_usize, parse_i32};

#[test]
fn formats_unsigned_numbers() {
    assert_eq!(format_u64(0), "0");
    assert_eq!(format_u64(9), "9");
    assert_eq!(format_u64(10), "10");
    assert_eq!(format_u64(18_446_744_073_709_551_615), "18446744073709551615");
    assert_eq!(format_usize(42), "42");
}

#[test]
fn formats_signed_numbers() {
    assert_eq!(format_i32(0), "0");
    assert_eq!(format_i32(-1), "-1");
    assert_eq!(format_i32(1234), "1234");
    assert_eq!(format_i32(i32::MIN), "-2147483648");
    assert_eq!(format_i32(i32::MAX), "2147483647");
}

#[test]
fn parses_like_std() {
    for s in ["0", "7", "+7", "-7", "007", "-0", "2147483647", "-2147483648", "", "+", "-",
              "2147483648", "-2147483649", "1a", " 1", "1 ", "+-1", "--1", "\u{661}\u{662}"] {
        assert_eq!(parse_i32(s), s.parse::<i32>().ok(), "input {:?}", s);
    }
}

#[test]
fn parse_reads_back_format() {
    for i in [0, 1, -1, 42, -42, 1_000_000, i32::MIN, i32::MAX] {
        assert_eq!(parse_i32(&format_i32(i)), Some(i));
    }
}

#[test]
fn finds_first_zero_byte() {
    assert_eq!(find_nul("abc"), None);
    assert_eq!(find_nul(""), None);
    assert_eq!(find_nul("a\0b\0"), Some(1));
    assert_eq!(find_nul("\u{e9}\0"), Some(2));
}

#[test]
fn c_string_check_reports_first_zero_byte() {
    assert_eq!(check_c_string("topic"), Ok(()));
    assert_eq!(check_c_string(""), Ok(()));
    assert_eq!(
        check_c_string("to\0pic\0"),
        Err(NulError { position: 2, bytes: b"to\0pic\0".to_vec() })
    );
    assert_eq!(
        check_c_string("\u{fc}\0x"),
        Err(NulError { position: 2, bytes: vec![0xc3, 0xbc, 0, b'x'] })
    );
}

#[test]
fn c_compatible_gives_nul_error() {
    assert_eq!(c_compatible("ok"), Ok(()));
    assert_eq!(
        c_compatible("a\0"),
        Err(KafkaError::Nul(NulError { position: 1, bytes: vec![b'a', 0] }))
    );
}
