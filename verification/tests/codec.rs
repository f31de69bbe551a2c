//! The compact scheme, little-endian helpers and text utilities, checked
//! on concrete values and against the reference wire codec.

use extrinsic_builder::scale::{decode_compact, encode_compact, encode_compact_magnitude,
    le_bytes_u128, le_value_u64, magnitude_bytes_u64};
use extrinsic_builder::text::{parse_int, parse_uint, to_hex, unhex};
use parity_scale_codec::{Compact, Encode};

#[test]
fn compact_small_values_take_one_byte() {
    assert_eq!(encode_compact(0), vec![0x00]);
    assert_eq!(encode_compact(1), vec![0x04]);
    assert_eq!(encode_compact(63), vec![0xfc]);
}

#[test]
fn compact_two_byte_class() {
    assert_eq!(encode_compact(64), vec![0x01, 0x01]);
    assert_eq!(encode_compact(1000), vec![0xa1, 0x0f]);
    assert_eq!(encode_compact(0x3fff), vec![0xfd, 0xff]);
}

#[test]
fn compact_four_byte_class() {
    assert_eq!(encode_compact(0x4000), vec![0x02, 0x00, 0x01, 0x00]);
    assert_eq!(encode_compact(0x3fff_ffff), vec![0xfe, 0xff, 0xff, 0xff]);
}

#[test]
fn compact_big_number_class() {
    assert_eq!(encode_compact(0x4000_0000), vec![0x03, 0x00, 0x00, 0x00, 0x40]);
    assert_eq!(
        encode_compact(u64::MAX),
        vec![0x13, 0xff, 0xff, 0xff, 0xff, 0xff, 0xff, 0xff, 0xff]
    );
}

#[test]
fn compact_matches_reference_codec() {
    for v in [
        0u64,
        1,
        42,
        63,
        64,
        1000,
        0x3fff,
        0x4000,
        123_456_789,
        0x3fff_ffff,
        0x4000_0000,
        0xdead_beef_cafe,
        u64::MAX,
    ] {
        assert_eq!(encode_compact(v), Compact(v).encode(), "value {v}");
    }
}

#[test]
fn compact_magnitude_form_agrees_with_word_form() {
    for v in [0u64, 5, 64, 1000, 0x4000_0000, u64::MAX] {
        let mag = magnitude_bytes_u64(v);
        assert_eq!(encode_compact_magnitude(&mag), encode_compact(v));
    }
}

#[test]
fn compact_decodes_what_it_encodes() {
    for v in [0u64, 1, 63, 64, 1000, 0x3fff, 0x4000, 0x3fff_ffff, 0x4000_0000, u64::MAX] {
        let mut enc = encode_compact(v);
        enc.push(0xAB); // trailing bytes must be left alone
        let (mag, next) = decode_compact(&enc, 0).expect("canonical encoding must decode");
        assert_eq!(le_value_u64(&mag), v);
        assert_eq!(next, enc.len() - 1);
        assert_eq!(enc[next], 0xAB);
    }
}

#[test]
fn compact_decode_rejects_truncated_input() {
    assert_eq!(decode_compact(&vec![], 0), None);
    assert_eq!(decode_compact(&vec![0x01], 0), None); // two-byte class cut short
    assert_eq!(decode_compact(&vec![0x02, 0x00], 0), None); // four-byte class cut short
    assert_eq!(decode_compact(&vec![0x03, 0x00, 0x00, 0x00], 0), None); // big class cut short
}

#[test]
fn little_endian_bytes_and_values() {
    assert_eq!(le_bytes_u128(0x1234, 2), vec![0x34, 0x12]);
    assert_eq!(le_bytes_u128(1, 4), vec![1, 0, 0, 0]);
    assert_eq!(le_value_u64(&vec![0x34, 0x12]), 0x1234);
    assert_eq!(magnitude_bytes_u64(0), Vec::<u8>::new());
    assert_eq!(magnitude_bytes_u64(0x0100), vec![0x00, 0x01]);
}

#[test]
fn hex_decoding_accepts_prefix_and_rejects_junk() {
    assert_eq!(unhex("0x0a0b"), Some(vec![0x0a, 0x0b]));
    assert_eq!(unhex("0A0B"), Some(vec![0x0a, 0x0b]));
    assert_eq!(unhex(""), Some(vec![]));
    assert_eq!(unhex("abc"), None); // odd digit count
    assert_eq!(unhex("zz"), None);
}

#[test]
fn hex_encoding_is_lowercase_pairs() {
    assert_eq!(to_hex(&vec![0x0a, 0xff, 0x00]), "0aff00".to_string());
    assert_eq!(to_hex(&vec![]), "".to_string());
}

#[test]
fn unsigned_parsing_decimal_and_hex() {
    assert_eq!(parse_uint("123"), Some(123));
    assert_eq!(parse_uint("0"), Some(0));
    assert_eq!(parse_uint("0xff"), Some(255));
    assert_eq!(parse_uint("0x"), None);
    assert_eq!(parse_uint(""), None);
    assert_eq!(parse_uint("12a"), None);
    assert_eq!(parse_uint("340282366920938463463374607431768211455"), Some(u128::MAX));
    assert_eq!(parse_uint("340282366920938463463374607431768211456"), None);
}

#[test]
fn signed_parsing_with_sign_and_bounds() {
    assert_eq!(parse_int("-5"), Some(-5));
    assert_eq!(parse_int("5"), Some(5));
    assert_eq!(parse_int("-0x10"), Some(-16));
    assert_eq!(parse_int("-"), None);
    assert_eq!(parse_int("170141183460469231731687303715884105727"), Some(i128::MAX));
    assert_eq!(parse_int("-170141183460469231731687303715884105728"), Some(i128::MIN));
    assert_eq!(parse_int("-170141183460469231731687303715884105729"), None);
}
