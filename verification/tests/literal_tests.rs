use wat_parser::literals::{
    convert_u32_to_data, parse_float, parse_hexnum, parse_hexnum_u32, parse_num, parse_sign,
    parse_string, parse_u32, unescape_string,
};
use wat_parser::wat::{WatFloat, WatSign};

#[test]
fn decimal_numbers() {
    assert_eq!(parse_u32(b"0"), Some(0));
    assert_eq!(parse_u32(b"42"), Some(42));
    assert_eq!(parse_u32(b"007"), Some(7));
    assert_eq!(parse_u32(b"1_000_000"), Some(1_000_000));
    assert_eq!(parse_u32(b"4294967295"), Some(u32::MAX));
    assert_eq!(parse_u32(b"4294967296"), None);
    assert_eq!(parse_u32(b"99999999999999999999999"), None);
    assert_eq!(parse_u32(b""), None);
    assert_eq!(parse_u32(b"+1"), None);
    assert_eq!(parse_u32(b"1_"), None);
    assert_eq!(parse_u32(b"12a"), None);
}

#[test]
fn hexadecimal_numbers() {
    assert_eq!(parse_u32(b"0x0"), Some(0));
    assert_eq!(parse_u32(b"0x1F"), Some(31));
    assert_eq!(parse_u32(b"0xff_ff"), Some(0xffff));
    assert_eq!(parse_u32(b"0xFFFFFFFF"), Some(u32::MAX));
    assert_eq!(parse_u32(b"0x100000000"), None);
    assert_eq!(parse_u32(b"0x"), None);
    assert_eq!(parse_u32(b"0xg"), None);
    assert_eq!(parse_hexnum_u32(b"10"), Some(16));
    assert_eq!(parse_hexnum_u32(b"aBcD"), Some(0xabcd));
    assert_eq!(parse_hexnum_u32(b"0x10"), None);
    assert_eq!(parse_hexnum_u32(b""), None);
    assert_eq!(parse_hexnum_u32(b"000000000000001"), Some(1));
}

#[test]
fn numbers_as_little_endian_bytes() {
    assert_eq!(convert_u32_to_data(None), None);
    assert_eq!(convert_u32_to_data(Some(0)), Some(vec![0]));
    assert_eq!(convert_u32_to_data(Some(1)), Some(vec![1]));
    assert_eq!(convert_u32_to_data(Some(255)), Some(vec![255]));
    assert_eq!(convert_u32_to_data(Some(256)), Some(vec![0, 1]));
    assert_eq!(convert_u32_to_data(Some(0x10000)), Some(vec![0, 0, 1]));
    assert_eq!(convert_u32_to_data(Some(0x12345678)), Some(vec![0x78, 0x56, 0x34, 0x12]));
    assert_eq!(convert_u32_to_data(Some(u32::MAX)), Some(vec![255, 255, 255, 255]));
    assert_eq!(parse_num(b"258"), Some(vec![2, 1]));
    assert_eq!(parse_num(b"0x0102"), Some(vec![2, 1]));
    assert_eq!(parse_num(b"1234567890"), Some(vec![0xd2, 0x02, 0x96, 0x49]));
    assert_eq!(parse_num(b"x"), None);
    assert_eq!(parse_num(b"4294967296"), None);
    assert_eq!(parse_hexnum(b"ff00"), Some(vec![0, 255]));
    assert_eq!(parse_hexnum(b"z"), None);
}

#[test]
fn signs() {
    assert!(matches!(parse_sign(b"-1"), WatSign::Negative));
    assert!(matches!(parse_sign(b"+1"), WatSign::Positive));
    assert!(matches!(parse_sign(b"1"), WatSign::Positive));
    assert!(matches!(parse_sign(b""), WatSign::Positive));
}

#[test]
fn floats() {
    assert!(matches!(parse_float(b"inf"), Some(WatFloat::Inf(WatSign::Positive))));
    assert!(matches!(parse_float(b"-inf"), Some(WatFloat::Inf(WatSign::Negative))));
    assert!(matches!(parse_float(b"+nan"), Some(WatFloat::NaN(WatSign::Positive, None))));
    match parse_float(b"-nan:0x7f_ff") {
        Some(WatFloat::NaN(WatSign::Negative, Some(payload))) => assert_eq!(payload, [0xff, 0x7f]),
        other => panic!("{:?}", other),
    }
    assert!(parse_float(b"nan:0x1ffffffff").is_none());
    match parse_float(b"-1.5e3") {
        Some(WatFloat::Number(WatSign::Negative, mantissa, 0)) => assert!(mantissa.is_empty()),
        other => panic!("{:?}", other),
    }
    match parse_float(b"0x1p4") {
        Some(WatFloat::Number(WatSign::Positive, mantissa, 0)) => assert!(mantissa.is_empty()),
        other => panic!("{:?}", other),
    }
    assert!(parse_float(b"abc").is_none());
    assert!(parse_float(b"").is_none());
    assert!(parse_float(b"1e").is_none());
}

#[test]
fn plain_strings_stand_for_themselves() {
    assert_eq!(parse_string(b"\"env\"").as_deref(), Some("env"));
    assert_eq!(parse_string(b"\"\"").as_deref(), Some(""));
    let mut body = Vec::new();
    for b in 0x20u8..0x7f {
        if b != b'"' && b != b'\\' {
            body.push(b);
        }
    }
    let mut literal = vec![b'"'];
    literal.extend_from_slice(&body);
    literal.push(b'"');
    assert_eq!(unescape_string(&literal), Some(body.clone()));
    assert_eq!(parse_string(&literal).map(String::into_bytes), Some(body));
}

#[test]
fn unicode_escapes_become_utf8() {
    assert_eq!(unescape_string(b"\"\\u{48}\\u{69}\""), Some(vec![0x48, 0x69]));
    assert_eq!(parse_string(b"\"\\u{48}\\u{69}\"").as_deref(), Some("Hi"));
    assert_eq!(unescape_string(b"\"\\u{7f}\""), Some(vec![0x7f]));
    assert_eq!(unescape_string(b"\"\\u{80}\""), Some(vec![0xc2, 0x80]));
    assert_eq!(unescape_string(b"\"\\u{e9}\""), Some(vec![0xc3, 0xa9]));
    assert_eq!(unescape_string(b"\"\\u{7ff}\""), Some(vec![0xdf, 0xbf]));
    assert_eq!(unescape_string(b"\"\\u{800}\""), Some(vec![0xe0, 0xa0, 0x80]));
    assert_eq!(unescape_string(b"\"\\u{20AC}\""), Some(vec![0xe2, 0x82, 0xac]));
    assert_eq!(unescape_string(b"\"\\u{ffff}\""), Some(vec![0xef, 0xbf, 0xbf]));
    assert_eq!(unescape_string(b"\"\\u{10000}\""), Some(vec![0xf0, 0x90, 0x80, 0x80]));
    assert_eq!(unescape_string(b"\"\\u{1_F600}\""), Some(vec![0xf0, 0x9f, 0x98, 0x80]));
    assert_eq!(unescape_string(b"\"\\u{10FFFF}\""), Some(vec![0xf4, 0x8f, 0xbf, 0xbf]));
    assert_eq!(parse_string(b"\"a\\u{1F600}b\"").as_deref(), Some("a\u{1F600}b"));
    assert_eq!(parse_string(b"\"\\u{0}\"").as_deref(), Some("\0"));
}

#[test]
fn code_points_that_are_no_scalar_values() {
    assert_eq!(unescape_string(b"\"\\u{D800}\""), None);
    assert_eq!(unescape_string(b"\"\\u{DFFF}\""), None);
    assert_eq!(unescape_string(b"\"\\u{110000}\""), None);
    assert_eq!(unescape_string(b"\"\\u{FFFFFFFFF}\""), None);
    assert_eq!(unescape_string(b"\"\\u{D7FF}\""), Some(vec![0xed, 0x9f, 0xbf]));
    assert_eq!(unescape_string(b"\"\\u{E000}\""), Some(vec![0xee, 0x80, 0x80]));
}

#[test]
fn simple_and_byte_escapes() {
    assert_eq!(
        unescape_string(b"\"\\t\\n\\r\\\"\\'\\\\\""),
        Some(vec![0x09, 0x0a, 0x0d, b'"', b'\'', b'\\'])
    );
    assert_eq!(unescape_string(b"\"\\00\\7f\\fF\\A0x\""), Some(vec![0x00, 0x7f, 0xff, 0xa0, b'x']));
    assert_eq!(parse_string(b"\"a\\41\\tb\"").as_deref(), Some("aA\tb"));
    assert_eq!(parse_string(b"\"\\c3\\a9\"").as_deref(), Some("\u{e9}"));
}

#[test]
fn malformed_literals() {
    assert_eq!(unescape_string(b""), None);
    assert_eq!(unescape_string(b"\""), None);
    assert_eq!(unescape_string(b"abc"), None);
    assert_eq!(unescape_string(b"\"abc"), None);
    assert_eq!(unescape_string(b"\"\\\""), None);
    assert_eq!(unescape_string(b"\"\\q\""), None);
    assert_eq!(unescape_string(b"\"\\4\""), None);
    assert_eq!(unescape_string(b"\"\\u{}\""), None);
    assert_eq!(unescape_string(b"\"\\u{1_}\""), None);
    assert_eq!(unescape_string(b"\"\\u{12\""), None);
    assert!(parse_string(b"\"\\q\"").is_none());
    assert!(parse_string(b"x").is_none());
}

#[test]
fn bytes_that_are_not_utf8_make_no_text() {
    assert_eq!(unescape_string(b"\"\\ff\""), Some(vec![0xff]));
    assert!(parse_string(b"\"\\ff\"").is_none());
    assert!(parse_string(b"\"\\c3\"").is_none());
    assert!(parse_string(b"\"\xc0\x80\"").is_none());
    assert!(parse_string(b"\"\\ed\\a0\\80\"").is_none());
    assert_eq!(parse_string("\"é€😀\"".as_bytes()).as_deref(), Some("é€😀"));
}
