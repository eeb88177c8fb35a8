use tagged_hash::hex::{decode_fixed, format_hex, format_hex_reverse, FromHex, HexIterator, ToHex};
use tagged_hash::Error;

#[test]
fn hex_roundtrip() {
    let expected = "0123456789abcdef";
    let expected_up = "0123456789ABCDEF";

    let parse: Vec<u8> = FromHex::from_hex(expected).expect("parse lowercase string");
    assert_eq!(parse, vec![0x01, 0x23, 0x45, 0x67, 0x89, 0xab, 0xcd, 0xef]);
    let ser = parse.to_hex();
    assert_eq!(ser, expected);

    let parse: Vec<u8> = FromHex::from_hex(expected_up).expect("parse uppercase string");
    assert_eq!(parse, vec![0x01, 0x23, 0x45, 0x67, 0x89, 0xab, 0xcd, 0xef]);
    let ser = parse.to_hex();
    assert_eq!(ser, expected);

    let parse: [u8; 8] = decode_fixed::<8>(expected_up).expect("parse uppercase string");
    assert_eq!(parse, [0x01, 0x23, 0x45, 0x67, 0x89, 0xab, 0xcd, 0xef]);
    let ser = parse.to_hex();
    assert_eq!(ser, expected);
}

#[test]
fn hex_error() {
    let oddlen = "0123456789abcdef0";
    let badchar1 = "Z123456789abcdef";
    let badchar2 = "012Y456789abcdeb";
    let badchar3 = "\u{ab}23456789abcdef";

    assert_eq!(Vec::<u8>::from_hex(oddlen), Err(Error::OddLengthString(17)));
    assert_eq!(decode_fixed::<4>(oddlen), Err(Error::OddLengthString(17)));
    assert_eq!(decode_fixed::<8>(oddlen), Err(Error::OddLengthString(17)));
    assert_eq!(Vec::<u8>::from_hex(badchar1), Err(Error::InvalidChar('Z')));
    assert_eq!(Vec::<u8>::from_hex(badchar2), Err(Error::InvalidChar('Y')));
    assert_eq!(Vec::<u8>::from_hex(badchar3), Err(Error::InvalidChar('\u{ab}')));
}

#[test]
fn hex_empty() {
    let parse: Vec<u8> = FromHex::from_hex("").expect("parse empty string");
    assert_eq!(parse, Vec::<u8>::new());
    assert_eq!(parse.to_hex(), "");
    let parse: [u8; 0] = decode_fixed::<0>("").expect("parse empty string");
    assert_eq!(parse, [0u8; 0]);
}

#[test]
fn hex_encode_all_byte_values() {
    let mut all: Vec<u8> = Vec::new();
    for b in 0..=255u8 {
        all.push(b);
    }
    let text = all.to_hex();
    assert_eq!(text.len(), 512);
    assert_eq!(&text[..8], "00010203");
    assert_eq!(&text[504..], "fcfdfeff");
    let back: Vec<u8> = FromHex::from_hex(text.as_str()).expect("parse re-encoded string");
    assert_eq!(back, all);
    let upper = text.to_uppercase();
    let back_up: Vec<u8> = FromHex::from_hex(upper.as_str()).expect("parse uppercase string");
    assert_eq!(back_up, all);
}

#[test]
fn hex_fixed_length_mismatch() {
    assert_eq!(decode_fixed::<4>("0102030405"), Err(Error::InvalidLength(8, 10)));
    assert_eq!(decode_fixed::<8>("010203"), Err(Error::InvalidLength(16, 6)));
    let parse: [u8; 2] = decode_fixed::<2>("beef").expect("parse two bytes");
    assert_eq!(parse, [0xbe, 0xef]);
    let parse: [u8; 32] =
        decode_fixed::<32>("000102030405060708090a0b0c0d0e0f101112131415161718191a1b1c1d1e1f")
            .expect("parse thirty-two bytes");
    assert_eq!(parse[0], 0x00);
    assert_eq!(parse[31], 0x1f);
}

#[test]
fn hex_fixed_large_sizes() {
    let zeros = "00".repeat(512);
    let parse: [u8; 512] = decode_fixed::<512>(zeros.as_str()).expect("parse 512 zero bytes");
    assert_eq!(parse, [0u8; 512]);
    let parse: [u8; 33] = decode_fixed::<33>(&"ab".repeat(33)).expect("parse 33 bytes");
    assert_eq!(parse, [0xabu8; 33]);
}

#[test]
fn hex_high_digit_reported_before_low() {
    // both characters of the pair are invalid: the high one is reported
    assert_eq!(Vec::<u8>::from_hex("ZZ"), Err(Error::InvalidChar('Z')));
    // only the low one is invalid
    assert_eq!(Vec::<u8>::from_hex("0Z"), Err(Error::InvalidChar('Z')));
}

#[test]
fn hex_format_appends() {
    let mut out = String::from("bytes: ");
    format_hex(&[0xde, 0xad, 0xbe, 0xef], &mut out);
    assert_eq!(out, "bytes: deadbeef");
    let mut rev = String::new();
    format_hex_reverse(&[0xde, 0xad, 0xbe, 0xef], &mut rev);
    assert_eq!(rev, "efbeadde");
}

#[test]
fn hex_iterator_yields_bytes() {
    let mut it = HexIterator { sl: "deadBEef" };
    assert_eq!(it.next(), Some(Ok(0xde)));
    assert_eq!(it.next(), Some(Ok(0xad)));
    assert_eq!(it.next(), Some(Ok(0xbe)));
    assert_eq!(it.next(), Some(Ok(0xef)));
    assert_eq!(it.next(), None);
}

#[test]
fn hex_iterator_repeats_errors() {
    let mut it = HexIterator { sl: "abc" };
    assert_eq!(it.next(), Some(Err(Error::OddLengthString(3))));
    assert_eq!(it.next(), Some(Err(Error::OddLengthString(3))));
    let mut it = HexIterator { sl: "aXcd" };
    assert_eq!(it.next(), Some(Err(Error::InvalidChar('X'))));
    assert_eq!(it.next(), Some(Err(Error::InvalidChar('X'))));
}
