use srbin::error::DecodeError;
use srbin::hex::{bytes_to_text, decode_hex, hex_digit_value, hex_pair_value, hex_to_string};

#[test]
fn digit_values_cover_both_cases() {
    assert_eq!(hex_digit_value(b'0'), Some(0));
    assert_eq!(hex_digit_value(b'9'), Some(9));
    assert_eq!(hex_digit_value(b'A'), Some(10));
    assert_eq!(hex_digit_value(b'F'), Some(15));
    assert_eq!(hex_digit_value(b'a'), Some(10));
    assert_eq!(hex_digit_value(b'f'), Some(15));
}

#[test]
fn digit_values_reject_neighbours() {
    for c in [b'/', b':', b'@', b'G', b'`', b'g', b' ', b'+', b'-', 0u8, 0xFFu8] {
        assert_eq!(hex_digit_value(c), None);
    }
}

#[test]
fn exactly_twenty_two_bytes_are_digits() {
    let digits = (0u8..=255).filter(|c| hex_digit_value(*c).is_some()).count();
    assert_eq!(digits, 22);
}

#[test]
fn pair_value_is_high_times_sixteen_plus_low() {
    assert_eq!(hex_pair_value(b'0', b'0'), Some(0x00));
    assert_eq!(hex_pair_value(b'1', b'3'), Some(19));
    assert_eq!(hex_pair_value(b'7', b'C'), Some(0x7C));
    assert_eq!(hex_pair_value(b'f', b'F'), Some(0xFF));
    assert_eq!(hex_pair_value(b'G', b'0'), None);
    assert_eq!(hex_pair_value(b'0', b'G'), None);
}

#[test]
fn decode_hex_reads_pairs_in_order() {
    assert_eq!(decode_hex(b"0001FEff"), Ok(vec![0x00, 0x01, 0xFE, 0xFF]));
    assert_eq!(decode_hex(b"285F"), Ok(vec![0x28, 0x5F]));
}

#[test]
fn decode_hex_of_nothing_is_nothing() {
    assert_eq!(decode_hex(b""), Ok(vec![]));
}

#[test]
fn decode_hex_odd_length() {
    assert_eq!(decode_hex(b"A"), Err(DecodeError::OddPayloadLength));
    assert_eq!(decode_hex(b"ABC"), Err(DecodeError::OddPayloadLength));
}

#[test]
fn decode_hex_bad_digit() {
    assert_eq!(decode_hex(b"AG"), Err(DecodeError::MalformedHeader));
    assert_eq!(decode_hex(b"00 1"), Err(DecodeError::MalformedHeader));
    assert_eq!(decode_hex(b"+F"), Err(DecodeError::MalformedHeader));
}

#[test]
fn decode_hex_reports_odd_length_before_bad_digit() {
    assert_eq!(decode_hex(b"ZZZ"), Err(DecodeError::OddPayloadLength));
}

#[test]
fn hex_to_string_spells_hello() {
    assert_eq!(hex_to_string("68656C6C6F"), Ok(String::from("hello")));
}

#[test]
fn hex_to_string_appends_every_character() {
    assert_eq!(hex_to_string("6869"), Ok(String::from("hi")));
    assert_ne!(hex_to_string("6869"), Ok(String::new()));
}

#[test]
fn hex_to_string_of_nothing_is_empty() {
    assert_eq!(hex_to_string(""), Ok(String::new()));
}

#[test]
fn hex_to_string_maps_each_byte_to_its_code_point() {
    assert_eq!(hex_to_string("E9"), Ok(String::from("\u{E9}")));
    assert_eq!(hex_to_string("00FF"), Ok(String::from("\u{0}\u{FF}")));
}

#[test]
fn hex_to_string_errors() {
    assert_eq!(hex_to_string("686"), Err(DecodeError::OddPayloadLength));
    assert_eq!(hex_to_string("6G"), Err(DecodeError::MalformedHeader));
    assert_eq!(hex_to_string("+F"), Err(DecodeError::MalformedHeader));
    assert_eq!(hex_to_string("\u{6F64}6"), Err(DecodeError::MalformedHeader));
}

#[test]
fn bytes_to_text_keeps_length_in_characters() {
    let text = bytes_to_text(&vec![0x41, 0x80, 0xFF]);
    assert_eq!(text.chars().count(), 3);
    assert_eq!(text, "A\u{80}\u{FF}");
}
