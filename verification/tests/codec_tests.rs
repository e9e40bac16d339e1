use identity_linker::codec::{decode, encode, DecodeError, Decoded};
use identity_linker::text::{format_i64, parse_i64};

fn hex40(fill: char) -> String {
    let mut s = String::from("0x");
    for _ in 0..40 {
        s.push(fill);
    }
    s
}

#[test]
fn decode_identity_triple_keeps_exact_casing() {
    let addr = "0xAbCdEf0123456789aBcDeF0123456789AbCdEf01";
    let payload = format!("{}, 11111111111111111111111111111111, 1700000000", addr);
    match decode(payload.as_bytes()).expect("triple must decode") {
        Decoded::Identity(m) => {
            assert_eq!(m.source_address, addr);
            assert_eq!(m.target_address, "11111111111111111111111111111111");
            assert_eq!(m.asserted_at, 1700000000);
        }
        Decoded::NotAnIdentityMessage(_) => panic!("triple taken for a status string"),
    }
}

#[test]
fn decode_two_fields_is_invalid_format() {
    let r = decode(b"0xabc, 11111111111111111111111111111111");
    assert_eq!(r.err(), Some(DecodeError::InvalidMessageFormat));
}

#[test]
fn decode_non_utf8_is_invalid_format() {
    let r = decode(&[0xff, 0xfe, 0x00, 0x41]);
    assert_eq!(r.err(), Some(DecodeError::InvalidMessageFormat));
}

#[test]
fn decode_plain_text_is_not_an_identity_message() {
    match decode(b"all systems nominal").expect("plain text must decode") {
        Decoded::NotAnIdentityMessage(s) => assert_eq!(s, "all systems nominal"),
        Decoded::Identity(_) => panic!("status string taken for a triple"),
    }
}

#[test]
fn decode_bad_timestamp_is_invalid_format() {
    let r = decode(b"a, b, soon");
    assert_eq!(r.err(), Some(DecodeError::InvalidMessageFormat));
    let r = decode(b"a, b, ");
    assert_eq!(r.err(), Some(DecodeError::InvalidMessageFormat));
}

#[test]
fn decode_ignores_fields_after_the_third() {
    match decode(b"a, b, 5, junk").expect("must decode") {
        Decoded::Identity(m) => {
            assert_eq!(m.source_address, "a");
            assert_eq!(m.target_address, "b");
            assert_eq!(m.asserted_at, 5);
        }
        Decoded::NotAnIdentityMessage(_) => panic!("triple taken for a status string"),
    }
}

#[test]
fn decode_trims_surrounding_whitespace_only() {
    match decode("\t a b \u{a0},\u{3000}c d ,  -7 ".as_bytes()).expect("must decode") {
        Decoded::Identity(m) => {
            assert_eq!(m.source_address, "a b");
            assert_eq!(m.target_address, "c d");
            assert_eq!(m.asserted_at, -7);
        }
        Decoded::NotAnIdentityMessage(_) => panic!("triple taken for a status string"),
    }
}

#[test]
fn encode_then_decode_round_trips() {
    let src = hex40('c');
    let tgt = "11111111111111111111111111111111";
    let payload = encode(&src, tgt, -1234567890123456789);
    assert_eq!(
        payload,
        format!("{},{},-1234567890123456789", src, tgt).into_bytes()
    );
    match decode(&payload).expect("encoded triple must decode") {
        Decoded::Identity(m) => {
            assert_eq!(m.source_address, src);
            assert_eq!(m.target_address, tgt);
            assert_eq!(m.asserted_at, -1234567890123456789);
        }
        Decoded::NotAnIdentityMessage(_) => panic!("triple taken for a status string"),
    }
}

#[test]
fn format_i64_exact_values() {
    assert_eq!(format_i64(0), "0");
    assert_eq!(format_i64(42), "42");
    assert_eq!(format_i64(-1), "-1");
    assert_eq!(format_i64(i64::MAX), "9223372036854775807");
    assert_eq!(format_i64(i64::MIN), "-9223372036854775808");
}

#[test]
fn parse_i64_grammar_and_range() {
    assert_eq!(parse_i64("123"), Some(123));
    assert_eq!(parse_i64("+123"), Some(123));
    assert_eq!(parse_i64("-123"), Some(-123));
    assert_eq!(parse_i64("0007"), Some(7));
    assert_eq!(parse_i64("9223372036854775807"), Some(i64::MAX));
    assert_eq!(parse_i64("-9223372036854775808"), Some(i64::MIN));
    assert_eq!(parse_i64("9223372036854775808"), None);
    assert_eq!(parse_i64("-9223372036854775809"), None);
    assert_eq!(parse_i64("99999999999999999999999999"), None);
    assert_eq!(parse_i64(""), None);
    assert_eq!(parse_i64("-"), None);
    assert_eq!(parse_i64("+"), None);
    assert_eq!(parse_i64("12 3"), None);
    assert_eq!(parse_i64("1,0"), None);
    assert_eq!(parse_i64("abc"), None);
}
