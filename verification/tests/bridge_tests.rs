use cbor_bridge::bridge::{
    cli_action, decode_result_envelope, encode_result_envelope, failure_envelope, health_body,
    not_found_body, route_request, CliAction, Route,
};
use cbor_bridge::errors::BridgeError;
use cbor_bridge::intstr::{format_i128, parse_int};
use cbor_bridge::model::{CborValue, JsonValue};

fn obj(entries: Vec<(&str, JsonValue)>) -> JsonValue {
    JsonValue::Object(entries.into_iter().map(|(k, v)| (k.to_string(), v)).collect())
}

#[test]
fn routes_the_three_endpoints() {
    assert_eq!(route_request("GET", "/health"), Route::Health);
    assert_eq!(route_request("POST", "/decode"), Route::Decode);
    assert_eq!(route_request("POST", "/encode"), Route::Encode);
}

#[test]
fn routes_everything_else_to_not_found() {
    assert_eq!(route_request("GET", "/nope"), Route::NotFound);
    assert_eq!(route_request("POST", "/health"), Route::NotFound);
    assert_eq!(route_request("GET", "/decode"), Route::NotFound);
    assert_eq!(route_request("PUT", "/encode"), Route::NotFound);
}

#[test]
fn not_found_body_shape() {
    assert_eq!(
        not_found_body(),
        obj(vec![("error", JsonValue::Str("Not found".to_string()))])
    );
}

#[test]
fn health_body_shape() {
    assert_eq!(
        health_body(),
        obj(vec![
            ("status", JsonValue::Str("ok".to_string())),
            ("library", JsonValue::Str("ciborium".to_string())),
            ("language", JsonValue::Str("rust".to_string())),
        ])
    );
}

#[test]
fn cli_actions() {
    assert_eq!(cli_action("encode"), CliAction::Encode);
    assert_eq!(cli_action("decode"), CliAction::Decode);
    assert_eq!(cli_action("frobnicate"), CliAction::Unknown);
}

#[test]
fn failure_envelope_shape() {
    assert_eq!(
        failure_envelope("Invalid hex"),
        obj(vec![
            ("success", JsonValue::Bool(false)),
            ("error", JsonValue::Str("Invalid hex".to_string())),
        ])
    );
}

#[test]
fn encode_envelope_shape() {
    assert_eq!(
        encode_result_envelope(&vec![0x18, 0x2a], None),
        obj(vec![
            ("success", JsonValue::Bool(true)),
            ("hex", JsonValue::Str("182a".to_string())),
        ])
    );
    let d = 1.25f64.to_bits();
    assert_eq!(
        encode_result_envelope(&vec![], Some(d)),
        obj(vec![
            ("success", JsonValue::Bool(true)),
            ("hex", JsonValue::Str(String::new())),
            ("duration_ms", JsonValue::Float(d)),
        ])
    );
}

#[test]
fn decode_envelope_shape() {
    assert_eq!(
        decode_result_envelope(&CborValue::Integer(42), None),
        obj(vec![
            ("success", JsonValue::Bool(true)),
            ("result", JsonValue::Int(42)),
        ])
    );
}

#[test]
fn error_messages() {
    assert_eq!(BridgeError::InvalidHex.message(), "Invalid hex");
    assert_eq!(BridgeError::MalformedJson.message(), "Invalid JSON");
    assert_eq!(BridgeError::CodecError.message(), "CBOR codec error");
}

#[test]
fn formats_integers() {
    assert_eq!(format_i128(0), "0");
    assert_eq!(format_i128(-1), "-1");
    assert_eq!(format_i128(9007199254740992), "9007199254740992");
    assert_eq!(
        format_i128(i128::MIN),
        "-170141183460469231731687303715884105728"
    );
    assert_eq!(
        format_i128(i128::MAX),
        "170141183460469231731687303715884105727"
    );
}

#[test]
fn parses_integers() {
    assert_eq!(parse_int("0"), Some(0));
    assert_eq!(parse_int("-0"), Some(0));
    assert_eq!(parse_int("007"), Some(7));
    assert_eq!(parse_int("9007199254740992"), Some(9007199254740992));
    assert_eq!(
        parse_int("-170141183460469231731687303715884105728"),
        Some(i128::MIN)
    );
    assert_eq!(parse_int("170141183460469231731687303715884105728"), None);
    assert_eq!(parse_int(""), None);
    assert_eq!(parse_int("-"), None);
    assert_eq!(parse_int("+5"), None);
    assert_eq!(parse_int("12a"), None);
    assert_eq!(parse_int("1.5"), None);
}

#[test]
fn format_then_parse_is_identity() {
    for n in [0i128, 1, -1, 42, -9007199254740993, i128::MIN, i128::MAX] {
        assert_eq!(parse_int(&format_i128(n)), Some(n));
    }
}
