use crab_city::encoding::{crockford_decode, crockford_encode};

#[test]
fn crockford_roundtrip() {
    let data = b"hello crab city!";
    let encoded = crockford_encode(data);
    let decoded = crockford_decode(&encoded).unwrap();
    assert_eq!(data.as_slice(), decoded.as_slice());
}

#[test]
fn crockford_alphabet_and_case() {
    assert_eq!(crockford_encode(&[0xff]), "ZW");
    assert_eq!(crockford_encode(&[0x00, 0x00]), "0000");
    assert_eq!(crockford_decode("zw").unwrap(), vec![0xff]);
    assert!(crockford_decode("U").is_err());
    assert!(crockford_decode("I0").is_err());
}

#[test]
fn decode_errors_name_the_cause() {
    assert_eq!(crockford_decode("U").unwrap_err(), "invalid crockford char: U");
    assert_eq!(crockford_decode("ab-c").unwrap_err(), "invalid crockford char: -");
    let length = data_encoding::BASE32_NOPAD.decode(b"A").unwrap_err();
    assert_eq!(crockford_decode("0").unwrap_err(), format!("base32 decode: {length}"));
    let trailing = data_encoding::BASE32_NOPAD.decode(b"AB").unwrap_err();
    assert_eq!(crockford_decode("01").unwrap_err(), format!("base32 decode: {trailing}"));
    assert!(crockford_decode("01").unwrap_err().starts_with("base32 decode: non-zero trailing bits at "));
}

#[test]
fn decode_is_case_insensitive_on_encoded_text() {
    let bytes = vec![1u8, 2, 3, 250, 99];
    let encoded = crockford_encode(&bytes);
    assert_eq!(crockford_decode(&encoded.to_lowercase()).unwrap(), bytes);
}
