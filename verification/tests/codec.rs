//! Tests of the base-62 codec and the share token format.

use ssss::base62::char_to_remainder;
use ssss::base62::decode;
use ssss::base62::encode;
use ssss::error::SsssError;
use ssss::share_codec::decode_share;
use ssss::share_codec::encode_share;
use ssss::share_codec::transpose;

#[test]
fn transpose_empty_works() {
    let empty_vec: Vec<Vec<u8>> = vec![];
    assert!(transpose(&empty_vec).is_empty());
}

#[test]
fn transpose_swaps_rows_and_columns() {
    let table: Vec<Vec<u8>> = vec![vec![1, 2, 3], vec![4, 5, 6]];
    assert_eq!(transpose(&table), vec![vec![1, 4], vec![2, 5], vec![3, 6]]);
}

#[test]
fn codec_round_trip() {
    let cases: Vec<Vec<u8>> = vec![
        vec![],
        vec![0],
        vec![255],
        vec![0, 0, 0],
        b"correct horse battery staple".to_vec(),
        (0..=255).collect(),
    ];
    for bytes in cases {
        let token = encode(&bytes);
        assert_eq!(decode(&token).unwrap(), bytes);
    }
}

#[test]
fn encode_is_randomized() {
    let bytes = b"same payload".to_vec();
    let a = encode(&bytes);
    let b = encode(&bytes);
    assert_ne!(a, b);
    assert_eq!(decode(&a).unwrap(), bytes);
    assert_eq!(decode(&b).unwrap(), bytes);
}

#[test]
fn encode_empty_is_empty() {
    assert_eq!(encode(&[]), "");
    assert_eq!(decode("").unwrap(), Vec::<u8>::new());
}

#[test]
fn decode_fixed_token() {
    assert_eq!(decode("ZtbZV9ub5pEi26").unwrap(), vec![65]);
}

#[test]
fn decode_share_fixed_token() {
    let (idx, payload) = decode_share("XsbZV9ub5pEi26:PbPM8bvXPJU9IS2f1".to_string()).unwrap();
    assert_eq!(idx, 1);
    assert_eq!(payload, b"abc".to_vec());
}

#[test]
fn share_round_trip() {
    let token = encode_share((4, vec![10, 20, 30])).unwrap();
    let (idx, payload) = decode_share(token).unwrap();
    assert_eq!(idx, 5);
    assert_eq!(payload, vec![10, 20, 30]);
}

#[test]
fn malformed_share_fails() {
    let result = decode_share("not-a-valid-token".to_string());
    assert_eq!(result.unwrap_err(), SsssError::InvalidShareFormat);
}

#[test]
fn two_colons_fail() {
    let result = decode_share("ab:cd:ef".to_string());
    assert_eq!(result.unwrap_err(), SsssError::InvalidShareFormat);
}

#[test]
fn bad_character_is_reported() {
    let result = decode_share("!:A".to_string());
    assert_eq!(result.unwrap_err(), SsssError::BadCharacter { c: '!' });
    let msg = SsssError::BadCharacter { c: '!' }.message();
    assert_eq!(msg, "The character '!' is not a valid base62 character");
}

#[test]
fn short_index_part_fails() {
    let result = decode_share("A:A".to_string());
    assert_eq!(result.unwrap_err(), SsssError::InvalidShareFormat);
}

#[test]
fn index_out_of_range_fails() {
    let result = encode_share((255, vec![1]));
    assert_eq!(result.unwrap_err(), SsssError::IndexOutOfRange { index: 255 });
}

#[test]
fn char_to_remainder_classes() {
    assert_eq!(char_to_remainder('0').unwrap(), 0);
    assert_eq!(char_to_remainder('9').unwrap(), 9);
    assert_eq!(char_to_remainder('A').unwrap(), 10);
    assert_eq!(char_to_remainder('Z').unwrap(), 35);
    assert_eq!(char_to_remainder('a').unwrap(), 36);
    assert_eq!(char_to_remainder('z').unwrap(), 61);
    assert_eq!(
        char_to_remainder(':').unwrap_err(),
        SsssError::BadCharacter { c: ':' }
    );
}
