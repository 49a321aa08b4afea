use cbor_bridge::convert::{from_json, to_json};
use cbor_bridge::model::{CborValue, JsonValue, NAN_BITS, NEG_INF_BITS, POS_INF_BITS};

fn obj(entries: Vec<(&str, JsonValue)>) -> JsonValue {
    JsonValue::Object(entries.into_iter().map(|(k, v)| (k.to_string(), v)).collect())
}

#[test]
fn safe_integer_is_native() {
    assert_eq!(to_json(&CborValue::Integer(42)), JsonValue::Int(42));
    assert_eq!(
        to_json(&CborValue::Integer(9007199254740991)),
        JsonValue::Int(9007199254740991)
    );
    assert_eq!(
        to_json(&CborValue::Integer(-9007199254740991)),
        JsonValue::Int(-9007199254740991)
    );
}

#[test]
fn big_integer_becomes_string() {
    assert_eq!(
        to_json(&CborValue::Integer(9007199254740992)),
        JsonValue::Str("9007199254740992".to_string())
    );
    assert_eq!(
        to_json(&CborValue::Integer(-9007199254740992)),
        JsonValue::Str("-9007199254740992".to_string())
    );
}

#[test]
fn numeric_string_comes_back_as_integer() {
    assert_eq!(
        from_json(&JsonValue::Str("9007199254740992".to_string())),
        CborValue::Integer(9007199254740992)
    );
    assert_eq!(
        from_json(&JsonValue::Str("-7".to_string())),
        CborValue::Integer(-7)
    );
    assert_eq!(
        from_json(&JsonValue::Str("hello".to_string())),
        CborValue::Text("hello".to_string())
    );
}

#[test]
fn bytes_marker() {
    assert_eq!(
        to_json(&CborValue::Bytes(vec![0xde, 0xad, 0xbe, 0xef])),
        obj(vec![("__cbor_bytes__", JsonValue::Str("deadbeef".to_string()))])
    );
    assert_eq!(
        from_json(&obj(vec![(
            "__cbor_bytes__",
            JsonValue::Str("deadbeef".to_string())
        )])),
        CborValue::Bytes(vec![0xde, 0xad, 0xbe, 0xef])
    );
}

#[test]
fn special_floats_to_markers() {
    assert_eq!(
        to_json(&CborValue::Float(f64::NAN.to_bits())),
        obj(vec![("__cbor_float__", JsonValue::Str("NaN".to_string()))])
    );
    assert_eq!(
        to_json(&CborValue::Float(f64::INFINITY.to_bits())),
        obj(vec![("__cbor_float__", JsonValue::Str("Infinity".to_string()))])
    );
    assert_eq!(
        to_json(&CborValue::Float(f64::NEG_INFINITY.to_bits())),
        obj(vec![("__cbor_float__", JsonValue::Str("-Infinity".to_string()))])
    );
}

#[test]
fn special_floats_from_markers() {
    let nan = from_json(&obj(vec![("__cbor_float__", JsonValue::Str("NaN".to_string()))]));
    assert_eq!(nan, CborValue::Float(NAN_BITS));
    if let CborValue::Float(bits) = nan {
        assert!(f64::from_bits(bits).is_nan());
    } else {
        panic!("expected a float");
    }
    assert_eq!(
        from_json(&obj(vec![("__cbor_float__", JsonValue::Str("Infinity".to_string()))])),
        CborValue::Float(POS_INF_BITS)
    );
    assert_eq!(POS_INF_BITS, f64::INFINITY.to_bits());
    assert_eq!(
        from_json(&obj(vec![("__cbor_float__", JsonValue::Str("-Infinity".to_string()))])),
        CborValue::Float(NEG_INF_BITS)
    );
    assert_eq!(NEG_INF_BITS, f64::NEG_INFINITY.to_bits());
}

#[test]
fn unknown_float_marker_degrades_to_null() {
    assert_eq!(
        from_json(&obj(vec![("__cbor_float__", JsonValue::Str("wide".to_string()))])),
        CborValue::Null
    );
}

#[test]
fn finite_float_stays_native() {
    let bits = 3.5f64.to_bits();
    assert_eq!(to_json(&CborValue::Float(bits)), JsonValue::Float(bits));
    assert_eq!(from_json(&JsonValue::Float(bits)), CborValue::Float(bits));
}

#[test]
fn tag_marker() {
    let v = CborValue::Tag(1, Box::new(CborValue::Integer(1363896240)));
    let j = to_json(&v);
    assert_eq!(
        j,
        obj(vec![
            ("__cbor_tag__", JsonValue::Int(1)),
            ("__cbor_value__", JsonValue::Int(1363896240)),
        ])
    );
    assert_eq!(from_json(&j), v);
}

#[test]
fn tag_without_value_reads_as_map() {
    let j = obj(vec![("__cbor_tag__", JsonValue::Int(1))]);
    assert_eq!(
        from_json(&j),
        CborValue::Dict(vec![(
            CborValue::Text("__cbor_tag__".to_string()),
            CborValue::Integer(1)
        )])
    );
}

#[test]
fn undefined_marker_collapses_to_null() {
    assert_eq!(
        from_json(&obj(vec![("__cbor_undefined__", JsonValue::Bool(true))])),
        CborValue::Null
    );
}

#[test]
fn malformed_bytes_marker_falls_through_to_map() {
    let j = obj(vec![("__cbor_bytes__", JsonValue::Str("zz".to_string()))]);
    assert_eq!(
        from_json(&j),
        CborValue::Dict(vec![(
            CborValue::Text("__cbor_bytes__".to_string()),
            CborValue::Text("zz".to_string())
        )])
    );
}

#[test]
fn map_keys_are_stringified() {
    let v = CborValue::Dict(vec![
        (CborValue::Text("name".to_string()), CborValue::Bool(true)),
        (CborValue::Integer(7), CborValue::Null),
        (CborValue::Bytes(vec![0xab]), CborValue::Integer(1)),
    ]);
    assert_eq!(
        to_json(&v),
        obj(vec![
            ("name", JsonValue::Bool(true)),
            ("7", JsonValue::Null),
            ("ab", JsonValue::Int(1)),
        ])
    );
}

#[test]
fn colliding_keys_last_write_wins() {
    let v = CborValue::Dict(vec![
        (CborValue::Text("a".to_string()), CborValue::Integer(1)),
        (CborValue::Text("b".to_string()), CborValue::Integer(2)),
        (CborValue::Text("a".to_string()), CborValue::Integer(3)),
    ]);
    assert_eq!(
        to_json(&v),
        obj(vec![("a", JsonValue::Int(3)), ("b", JsonValue::Int(2))])
    );
}

#[test]
fn round_trips_nested_value() {
    let v = CborValue::Array(vec![
        CborValue::Integer(1),
        CborValue::Text("abc".to_string()),
        CborValue::Bool(true),
        CborValue::Null,
        CborValue::Bytes(vec![1, 2, 3]),
        CborValue::Float(2.5f64.to_bits()),
        CborValue::Dict(vec![(
            CborValue::Text("k".to_string()),
            CborValue::Integer(-2),
        )]),
        CborValue::Tag(32, Box::new(CborValue::Text("x y".to_string()))),
        CborValue::Integer(-9007199254740993),
    ]);
    assert_eq!(from_json(&to_json(&v)), v);
}
