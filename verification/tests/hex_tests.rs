use cbor_bridge::errors::BridgeError;
use cbor_bridge::hexcode::{hex_decode, hex_encode};

#[test]
fn encodes_empty() {
    assert_eq!(hex_encode(&vec![]), "");
}

#[test]
fn encodes_lowercase() {
    assert_eq!(hex_encode(&vec![0xde, 0xad, 0xbe, 0xef]), "deadbeef");
    assert_eq!(hex_encode(&vec![0x00, 0x0f, 0xf0, 0xff]), "000ff0ff");
}

#[test]
fn decodes_lowercase() {
    assert_eq!(hex_decode("deadbeef"), Ok(vec![0xde, 0xad, 0xbe, 0xef]));
    assert_eq!(hex_decode(""), Ok(vec![]));
}

#[test]
fn decodes_mixed_case() {
    assert_eq!(hex_decode("DEADbeEF"), Ok(vec![0xde, 0xad, 0xbe, 0xef]));
}

#[test]
fn rejects_odd_length() {
    assert_eq!(hex_decode("abc"), Err(BridgeError::InvalidHex));
}

#[test]
fn rejects_bad_character() {
    assert_eq!(hex_decode("zz"), Err(BridgeError::InvalidHex));
    assert_eq!(hex_decode("0g"), Err(BridgeError::InvalidHex));
}

#[test]
fn round_trips_bytes() {
    let b: Vec<u8> = (0u16..=255).map(|x| x as u8).collect();
    assert_eq!(hex_decode(&hex_encode(&b)), Ok(b));
}

#[test]
fn round_trips_strings() {
    let h = "00ff10a5";
    assert_eq!(hex_encode(&hex_decode(h).unwrap()), h);
}
