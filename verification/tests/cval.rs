use std::time::Duration;

use config::cval::duration::DurationValue;
use config::cval::strings::OsStrValue;
use config::cval::Cval;
use config::errors::{
    ConfigParseEntryError, DurationField, IntErrorKind, ParseDurationError, ReprParseConfigEntryError,
};

fn duration(text: &str) -> Result<Cval<Duration>, ConfigParseEntryError> {
    Cval::<Duration>::try_from_bytes(text.as_bytes().to_vec())
}

fn duration_error(text: &str) -> ParseDurationError {
    match duration(text) {
        Err(ConfigParseEntryError(ReprParseConfigEntryError::ParseDuration(e))) => e,
        other => panic!("{text}: expected a duration error, got {:?}", other.map(|c| c.0)),
    }
}

#[test]
fn parse_success() {
    let cases: [(&str, u64, u32); 28] = [
        ("0", 0, 0),
        ("0:0", 0, 0),
        ("0:0:0", 0, 0),
        ("0:0:0:0", 0, 0),
        ("0.0", 0, 0),
        ("0:0.0", 0, 0),
        ("0:0:0.0", 0, 0),
        ("0:0:0:0.0", 0, 0),
        ("1", 1, 0),
        ("10", 10, 0),
        ("59", 59, 0),
        ("60", 60, 0),
        ("100", 100, 0),
        ("18446744073709551615", u64::MAX, 0),
        ("1:2", 62, 0),
        ("1:2:3", 3723, 0),
        ("1:2:3:4", 93784, 0),
        ("1.2", 1, 2),
        ("1:2.3", 62, 3),
        ("1:2:3.4", 3723, 4),
        ("1:2:3:4.5", 93784, 5),
        ("1.1000000000", 2, 0),
        ("1.1000000001", 2, 1),
        ("1.9999999999", 10, 999999999),
        ("1:61", 121, 0),
        ("1:62:3", 7323, 0),
        ("1:25:3:4", 176584, 0),
        ("99:25:3:4", 8643784, 0),
    ];
    for (text, secs, nanos) in cases {
        let parsed = duration(text);
        assert!(parsed.is_ok(), "{text}");
        assert_eq!(parsed.unwrap().0, DurationValue { secs, subsec_nanos: nanos }, "{text}");
    }
}

#[test]
fn parse_format_error() {
    let cases = [
        "a", "abcdefg", "a:b", "a:0", "a0", "0a", "0:a", "0:0.a", "0:0a", "a:0:0a", "a:0:0.a", "0:0:0.a",
        "a:0:0:0", "0:0:0:0.a", "0:0:0:0.0.a", "0:0:0:0.0a", "a0:0:0:0.0",
    ];
    for text in cases {
        assert_eq!(duration_error(text), ParseDurationError::Format, "{text}");
    }
}

#[test]
fn parse_integer_error() {
    let cases = [
        "18446744073709551616",
        "18446744073709551616:0",
        "18446744073709551616:0:0",
        "18446744073709551616:0:0:0",
        "18446744073709551616.0",
        "18446744073709551616:0.0",
        "18446744073709551616:0:0.0",
        "18446744073709551616:0:0:0.0",
    ];
    for text in cases {
        assert!(matches!(duration_error(text), ParseDurationError::ParseFieldInt(..)), "{text}");
    }
}

#[test]
fn parse_overflow_error() {
    let cases = [
        "1:18446744073709551615",
        "1:0:18446744073709551615",
        "1:0:0:18446744073709551615",
        "18446744073709551615.1000000000",
        "0.340282366920938463463374607431768211455",
        "307445734561825861:0",
        "5124095576030433:0:0",
        "213503982334603:0:0:0",
    ];
    for text in cases {
        assert!(matches!(duration_error(text), ParseDurationError::FieldOverflows(..)), "{text}");
    }
}

#[test]
fn duration_field_errors_name_the_field() {
    assert_eq!(
        duration_error("18446744073709551616:0"),
        ParseDurationError::ParseFieldInt(DurationField::Minutes, b"18446744073709551616".to_vec(), IntErrorKind::PosOverflow)
    );
    assert_eq!(
        duration_error("1.340282366920938463463374607431768211456"),
        ParseDurationError::ParseFieldInt(
            DurationField::Nanoseconds,
            b"340282366920938463463374607431768211456".to_vec(),
            IntErrorKind::PosOverflow
        )
    );
    assert_eq!(
        duration_error("307445734561825861:0"),
        ParseDurationError::FieldOverflows(b"307445734561825861:0".to_vec())
    );
}

#[test]
fn duration_renders_as_written() {
    let cases: [(u64, u32, &str); 6] = [
        (0, 0, "0"),
        (59, 0, "59:59:59"),
        (1, 2, "1:1:1.2"),
        (93784, 5, "1:7384:184:4.5"),
        (3599, 0, "3599:3599:59"),
        (86400, 0, "1:0:0:0.0"),
    ];
    for (secs, nanos, text) in cases {
        let c = Cval::<Duration>::from_repr(DurationValue { secs, subsec_nanos: nanos });
        assert_eq!(c.render(), text.as_bytes().to_vec(), "{secs}.{nanos}");
    }
}

fn int_error<T: ?Sized + config::cval::ICval>(text: &str) -> ConfigParseEntryError {
    match Cval::<T>::try_from_bytes(text.as_bytes().to_vec()) {
        Err(e) => e,
        Ok(_) => panic!("{text} should not parse"),
    }
}

#[test]
fn integers_parse_as_decimal_text() {
    assert_eq!(Cval::<u8>::try_from_bytes(b"255".to_vec()).unwrap().0, 255);
    assert_eq!(Cval::<u8>::try_from_bytes(b"+7".to_vec()).unwrap().0, 7);
    assert_eq!(Cval::<i8>::try_from_bytes(b"-128".to_vec()).unwrap().0, -128);
    assert_eq!(Cval::<i64>::try_from_bytes(b"-9223372036854775808".to_vec()).unwrap().0, i64::MIN);
    assert_eq!(Cval::<u128>::try_from_bytes(b"340282366920938463463374607431768211455".to_vec()).unwrap().0, u128::MAX);
    assert_eq!(Cval::<i128>::try_from_bytes(b"-170141183460469231731687303715884105728".to_vec()).unwrap().0, i128::MIN);
    assert_eq!(Cval::<usize>::try_from_bytes(b"0000042".to_vec()).unwrap().0, 42);
}

#[test]
fn integer_errors_follow_the_text() {
    let e = |k| ConfigParseEntryError(ReprParseConfigEntryError::ParseInteger(k));
    assert_eq!(int_error::<u8>(""), e(IntErrorKind::Empty));
    assert_eq!(int_error::<u8>("+"), e(IntErrorKind::InvalidDigit));
    assert_eq!(int_error::<i8>("-"), e(IntErrorKind::InvalidDigit));
    assert_eq!(int_error::<u8>("-1"), e(IntErrorKind::InvalidDigit));
    assert_eq!(int_error::<u8>("256"), e(IntErrorKind::PosOverflow));
    assert_eq!(int_error::<i8>("-129"), e(IntErrorKind::NegOverflow));
    assert_eq!(int_error::<u8>("12a"), e(IntErrorKind::InvalidDigit));
    assert_eq!(int_error::<u8>("999a"), e(IntErrorKind::PosOverflow));
    assert_eq!(int_error::<u32>("1 "), e(IntErrorKind::InvalidDigit));
}

#[test]
fn integers_reject_invalid_utf8_first() {
    let r = Cval::<u16>::try_from_bytes(vec![0xff, 0x31]);
    assert!(matches!(r, Err(ConfigParseEntryError(ReprParseConfigEntryError::ParseUtf8))));
}

#[test]
fn integers_render_in_decimal() {
    assert_eq!(Cval::<i32>::from_repr(-42).render(), b"-42".to_vec());
    assert_eq!(Cval::<u64>::from_repr(0).render(), b"0".to_vec());
    assert_eq!(Cval::<i128>::from_repr(i128::MIN).render(), b"-170141183460469231731687303715884105728".to_vec());
    for v in [-1000i64, -1, 0, 1, 99, 12345678] {
        let text = Cval::<i64>::from_repr(v).render();
        assert_eq!(Cval::<i64>::try_from_bytes(text).unwrap().0, v);
    }
}

#[test]
fn booleans_read_their_words_in_any_case() {
    for w in ["true", "TRUE", "Enable", "yes", "t", "Y"] {
        assert!(Cval::<bool>::try_from_bytes(w.as_bytes().to_vec()).unwrap().0, "{w}");
    }
    for w in ["false", "DISABLE", "No", "f", "n"] {
        assert!(!Cval::<bool>::try_from_bytes(w.as_bytes().to_vec()).unwrap().0, "{w}");
    }
    for w in ["", "yess", "on", "1"] {
        assert!(matches!(
            Cval::<bool>::try_from_bytes(w.as_bytes().to_vec()),
            Err(ConfigParseEntryError(ReprParseConfigEntryError::ParseBoolean))
        ));
    }
    assert_eq!(Cval::<bool>::from_repr(true).render(), b"true".to_vec());
    assert_eq!(Cval::<bool>::from_repr(false).render(), b"false".to_vec());
}

#[test]
fn chars_are_read_as_exactly_one_character_and_written_as_utf8() {
    assert_eq!(Cval::<char>::try_from_bytes(b"a".to_vec()).unwrap().0, 'a');
    assert_eq!(Cval::<char>::try_from_bytes("é".as_bytes().to_vec()).unwrap().0, 'é');
    assert_eq!(Cval::<char>::try_from_bytes("😀".as_bytes().to_vec()).unwrap().0, '😀');
    for input in [&b"ab"[..], b"", "é!".as_bytes()] {
        assert!(matches!(
            Cval::<char>::try_from_bytes(input.to_vec()),
            Err(ConfigParseEntryError(ReprParseConfigEntryError::ParseChar))
        ));
    }
    assert!(matches!(
        Cval::<char>::try_from_bytes(vec![0xc3]),
        Err(ConfigParseEntryError(ReprParseConfigEntryError::ParseUtf8))
    ));
    for c in ['a', 'é', '€', '😀'] {
        let mut buf = [0u8; 4];
        assert_eq!(Cval::<char>::from_repr(c).render(), c.encode_utf8(&mut buf).as_bytes().to_vec());
    }
}

#[test]
fn strings_hold_their_bytes() {
    assert_eq!(Cval::<str>::try_from_bytes(b"hello".to_vec()).unwrap().0, b"hello".to_vec());
    assert!(matches!(
        Cval::<str>::try_from_bytes(vec![0x80]),
        Err(ConfigParseEntryError(ReprParseConfigEntryError::ParseUtf8))
    ));
    assert_eq!(Cval::<OsStrValue>::try_from_bytes(vec![0x80, 0x41]).unwrap().0, vec![0x80, 0x41]);
    assert_eq!(Cval::<std::path::Path>::try_from_bytes(b"/etc/x".to_vec()).unwrap().0, b"/etc/x".to_vec());
}

#[test]
fn os_strings_and_paths_are_written_as_text() {
    // Valid UTF-8 is written as it is; each invalid sequence becomes U+FFFD.
    assert_eq!(Cval::<OsStrValue>::from_repr(b"a b".to_vec()).render(), b"a b".to_vec());
    assert_eq!(
        Cval::<OsStrValue>::from_repr(vec![0x66, 0xff, 0x67]).render(),
        vec![0x66, 0xef, 0xbf, 0xbd, 0x67]
    );
    assert_eq!(
        Cval::<std::path::Path>::from_repr(vec![0x2f, 0xc3]).render(),
        vec![0x2f, 0xef, 0xbf, 0xbd]
    );
}

#[test]
fn duration_refuses_stray_colons() {
    // The format is [[[dd:]hh:]mm:]ss[.nn]: no colon before the first field
    // and none just before the dot.
    for text in [":5:6", "5:.3", ":1:5", "::1:2:3", ":1:2:.3", ":5", "5:", "1::.5", ":.5", "1:.:5"] {
        assert_eq!(duration_error(text), ParseDurationError::Format, "{text}");
    }
    let cases: [(&str, u64, u32); 3] = [("1:5", 65, 0), ("1:2:3", 3723, 0), ("1:2:3:4", 93784, 0)];
    for (text, secs, nanos) in cases {
        assert_eq!(duration(text).unwrap().0, DurationValue { secs, subsec_nanos: nanos }, "{text}");
    }
}
