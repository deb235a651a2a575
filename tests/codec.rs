use keyboard_backlight::codec::{decode_color, decode_hex, encode, Color, DecodeError};
use keyboard_backlight::decimal::{format_u8, parse_u8};

#[test]
fn encode_example() {
    assert_eq!(encode(Color { red: 255, green: 0, blue: 128 }), "0xff0080");
}

#[test]
fn decode_example() {
    assert_eq!(decode_hex("ff0080"), Ok(vec![255, 0, 128]));
}

#[test]
fn encode_black_and_white() {
    assert_eq!(encode(Color { red: 0, green: 0, blue: 0 }), "0x000000");
    assert_eq!(encode(Color { red: 255, green: 255, blue: 255 }), "0xffffff");
    assert_eq!(encode(Color { red: 17, green: 34, blue: 51 }), "0x112233");
    assert_eq!(encode(Color { red: 10, green: 171, blue: 9 }), "0x0aab09");
}

#[test]
fn round_trip_every_channel_value() {
    for v in 0..=255u8 {
        let colors = [
            Color { red: v, green: 0, blue: 0 },
            Color { red: 0, green: v, blue: 0 },
            Color { red: 0, green: 0, blue: v },
            Color { red: v, green: 255 - v, blue: v / 3 },
        ];
        for c in colors {
            let text = encode(c);
            assert_eq!(decode_color(&text[2..]), Ok(c));
            assert_eq!(decode_hex(&text[2..]), Ok(vec![c.red, c.green, c.blue]));
        }
    }
}

#[test]
fn encode_has_prefix_and_six_lowercase_digits() {
    for v in 0..=255u8 {
        let text = encode(Color { red: v, green: v ^ 0x5a, blue: 255 - v });
        assert_eq!(text.len(), 8);
        assert!(text.starts_with("0x"));
        assert!(text[2..].chars().all(|c| c.is_ascii_digit() || ('a'..='f').contains(&c)));
    }
}

#[test]
fn decode_accepts_uppercase() {
    assert_eq!(decode_hex("FF0a8B"), Ok(vec![255, 10, 139]));
}

#[test]
fn decode_empty_gives_no_bytes() {
    assert_eq!(decode_hex(""), Ok(vec![]));
}

#[test]
fn decode_odd_length_fails() {
    assert_eq!(decode_hex("ff008"), Err(DecodeError::OddLength));
    assert_eq!(decode_hex("f"), Err(DecodeError::OddLength));
}

#[test]
fn decode_non_hex_fails() {
    assert_eq!(decode_hex("gg0080"), Err(DecodeError::InvalidDigit(0)));
    assert_eq!(decode_hex("ff0g80"), Err(DecodeError::InvalidDigit(3)));
    assert_eq!(decode_hex("+f0080"), Err(DecodeError::InvalidDigit(0)));
    assert_eq!(decode_hex("ff00 8"), Err(DecodeError::InvalidDigit(4)));
    assert_eq!(decode_hex("ffé0"), Err(DecodeError::InvalidDigit(2)));
}

#[test]
fn decode_color_needs_six_digits() {
    assert_eq!(decode_color("1122"), Err(DecodeError::TooShort));
    assert_eq!(decode_color(""), Err(DecodeError::TooShort));
    assert_eq!(decode_color("11223"), Err(DecodeError::OddLength));
    assert_eq!(decode_color("112x33"), Err(DecodeError::InvalidDigit(3)));
}

#[test]
fn decode_color_ignores_later_pairs() {
    assert_eq!(decode_color("11223344"), Ok(Color { red: 17, green: 34, blue: 51 }));
}

#[test]
fn parse_u8_reads_trimmed_decimal() {
    assert_eq!(parse_u8("42\n"), Some(42));
    assert_eq!(parse_u8("  0 "), Some(0));
    assert_eq!(parse_u8("255"), Some(255));
    assert_eq!(parse_u8("+7"), Some(7));
    assert_eq!(parse_u8("007"), Some(7));
    assert_eq!(parse_u8("\u{3000}9\u{a0}"), Some(9));
}

#[test]
fn parse_u8_rejects_malformed() {
    assert_eq!(parse_u8(""), None);
    assert_eq!(parse_u8("  \n"), None);
    assert_eq!(parse_u8("+"), None);
    assert_eq!(parse_u8("256"), None);
    assert_eq!(parse_u8("1000"), None);
    assert_eq!(parse_u8("-0"), None);
    assert_eq!(parse_u8("1a"), None);
    assert_eq!(parse_u8("4 2"), None);
}

#[test]
fn parse_u8_agrees_with_std() {
    for v in 0..=300u32 {
        let text = format!(" {}\n", v);
        assert_eq!(parse_u8(&text), text.trim().parse::<u8>().ok());
    }
}

#[test]
fn format_u8_writes_decimal() {
    assert_eq!(format_u8(0), "0");
    assert_eq!(format_u8(9), "9");
    assert_eq!(format_u8(10), "10");
    assert_eq!(format_u8(42), "42");
    assert_eq!(format_u8(100), "100");
    assert_eq!(format_u8(255), "255");
    for v in 0..=255u8 {
        assert_eq!(format_u8(v), v.to_string());
    }
}
