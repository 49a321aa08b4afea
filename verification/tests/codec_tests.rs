//! End-to-end scenarios through the real binary codec: the library does
//! the hex and JSON sides, ciborium the bytes.

use cbor_bridge::bridge::{decode_result_envelope, encode_result_envelope};
use cbor_bridge::convert::{from_json, to_json};
use cbor_bridge::hexcode::{hex_decode, hex_encode};
use cbor_bridge::model::{CborValue, JsonValue};
use ciborium::value::Value;

fn to_ciborium(v: &CborValue) -> Value {
    match v {
        CborValue::Integer(n) => Value::Integer(
            ciborium::value::Integer::try_from(*n).expect("integer out of CBOR range"),
        ),
        CborValue::Bytes(b) => Value::Bytes(b.clone()),
        CborValue::Text(s) => Value::Text(s.clone()),
        CborValue::Float(bits) => Value::Float(f64::from_bits(*bits)),
        CborValue::Bool(b) => Value::Bool(*b),
        CborValue::Null => Value::Null,
        CborValue::Array(items) => Value::Array(items.iter().map(to_ciborium).collect()),
        CborValue::Dict(pairs) => Value::Map(
            pairs
                .iter()
                .map(|(k, v)| (to_ciborium(k), to_ciborium(v)))
                .collect(),
        ),
        CborValue::Tag(t, inner) => Value::Tag(*t, Box::new(to_ciborium(inner))),
    }
}

fn from_ciborium(v: &Value) -> CborValue {
    match v {
        Value::Integer(i) => CborValue::Integer(i128::from(*i)),
        Value::Bytes(b) => CborValue::Bytes(b.clone()),
        Value::Text(s) => CborValue::Text(s.clone()),
        Value::Float(f) => CborValue::Float(f.to_bits()),
        Value::Bool(b) => CborValue::Bool(*b),
        Value::Null => CborValue::Null,
        Value::Array(items) => CborValue::Array(items.iter().map(from_ciborium).collect()),
        Value::Map(pairs) => CborValue::Dict(
            pairs
                .iter()
                .map(|(k, v)| (from_ciborium(k), from_ciborium(v)))
                .collect(),
        ),
        Value::Tag(t, inner) => CborValue::Tag(*t, Box::new(from_ciborium(inner))),
        _ => CborValue::Null,
    }
}

fn obj(entries: Vec<(&str, JsonValue)>) -> JsonValue {
    JsonValue::Object(entries.into_iter().map(|(k, v)| (k.to_string(), v)).collect())
}

#[test]
fn encodes_forty_two() {
    let value = from_json(&JsonValue::Int(42));
    assert_eq!(value, CborValue::Integer(42));
    let mut bytes = Vec::new();
    ciborium::into_writer(&to_ciborium(&value), &mut bytes).unwrap();
    assert_eq!(hex_encode(&bytes), "182a");
    assert_eq!(
        encode_result_envelope(&bytes, None),
        obj(vec![
            ("success", JsonValue::Bool(true)),
            ("hex", JsonValue::Str("182a".to_string())),
        ])
    );
}

#[test]
fn decodes_forty_two() {
    let bytes = hex_decode("182a").unwrap();
    let value: Value = ciborium::from_reader(&bytes[..]).unwrap();
    let v = from_ciborium(&value);
    assert_eq!(v, CborValue::Integer(42));
    assert_eq!(to_json(&v), JsonValue::Int(42));
    assert_eq!(
        decode_result_envelope(&v, None),
        obj(vec![
            ("success", JsonValue::Bool(true)),
            ("result", JsonValue::Int(42)),
        ])
    );
}

#[test]
fn bytes_marker_survives_the_codec() {
    let request = obj(vec![(
        "__cbor_bytes__",
        JsonValue::Str("deadbeef".to_string()),
    )]);
    let value = from_json(&request);
    assert_eq!(value, CborValue::Bytes(vec![0xde, 0xad, 0xbe, 0xef]));
    let mut bytes = Vec::new();
    ciborium::into_writer(&to_ciborium(&value), &mut bytes).unwrap();
    assert_eq!(hex_encode(&bytes), "44deadbeef");

    let back: Value = ciborium::from_reader(&bytes[..]).unwrap();
    assert_eq!(to_json(&from_ciborium(&back)), request);
}

#[test]
fn text_round_trips_through_the_codec() {
    let v = CborValue::Text("hello".to_string());
    let mut bytes = Vec::new();
    ciborium::into_writer(&to_ciborium(&v), &mut bytes).unwrap();
    let back: Value = ciborium::from_reader(&bytes[..]).unwrap();
    assert_eq!(from_ciborium(&back), v);
    assert_eq!(to_json(&v), JsonValue::Str("hello".to_string()));
}
