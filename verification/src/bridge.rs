use vstd::prelude::*;

use crate::convert::{to_json, to_json_s};
use crate::hexcode::{hex_encode, hex_seq};
use crate::model::{CborValue, JsonValue, JsonV};

verus! {

/// The routes the HTTP bridge serves; anything else is not found.
#[derive(PartialEq, Eq, Structural, Debug, Clone, Copy)]
pub enum Route {
    Health,
    Decode,
    Encode,
    NotFound,
}

pub open spec fn route_spec(method: Seq<char>, path: Seq<char>) -> Route {
    if method == "GET"@ && path == "/health"@ {
        Route::Health
    } else if method == "POST"@ && path == "/decode"@ {
        Route::Decode
    } else if method == "POST"@ && path == "/encode"@ {
        Route::Encode
    } else {
        Route::NotFound
    }
}

/// Dispatches a request line: health checks on GET /health, the two
/// conversion endpoints on POST, and not-found for every other pair.
pub fn route_request(method: &str, path: &str) -> (r: Route)
    ensures
        r == route_spec(method@, path@),
{
    let m = method.to_owned();
    let p = path.to_owned();
    if m == String::from_str("GET") && p == String::from_str("/health") {
        Route::Health
    } else if m == String::from_str("POST") && p == String::from_str("/decode") {
        Route::Decode
    } else if m == String::from_str("POST") && p == String::from_str("/encode") {
        Route::Encode
    } else {
        Route::NotFound
    }
}

/// The verbs the command-line bridge accepts.
#[derive(PartialEq, Eq, Structural, Debug, Clone, Copy)]
pub enum CliAction {
    Encode,
    Decode,
    Unknown,
}

pub open spec fn cli_action_spec(arg: Seq<char>) -> CliAction {
    if arg == "encode"@ {
        CliAction::Encode
    } else if arg == "decode"@ {
        CliAction::Decode
    } else {
        CliAction::Unknown
    }
}

/// Dispatches the first command-line argument.
pub fn cli_action(arg: &str) -> (r: CliAction)
    ensures
        r == cli_action_spec(arg@),
{
    let a = arg.to_owned();
    if a == String::from_str("encode") {
        CliAction::Encode
    } else if a == String::from_str("decode") {
        CliAction::Decode
    } else {
        CliAction::Unknown
    }
}

/// The failure envelope: `success` false and a human-readable message.
pub fn failure_envelope(message: &str) -> (r: JsonValue)
    ensures
        r.dv() == JsonV::Object(
            seq![("success"@, JsonV::Bool(false)), ("error"@, JsonV::Str(message@))],
        ),
{
    let mut entries: Vec<(String, JsonValue)> = Vec::new();
    entries.push((String::from_str("success"), JsonValue::Bool(false)));
    entries.push((String::from_str("error"), JsonValue::Str(message.to_owned())));
    let r = JsonValue::Object(entries);
    proof {
        reveal_with_fuel(crate::model::JsonValue::dv, 3);
        assert(r.dv()->Object_0 =~= seq![
            ("success"@, JsonV::Bool(false)),
            ("error"@, JsonV::Str(message@)),
        ]);
    }
    r
}

/// The success envelope of the encode endpoint: the hex form of the
/// encoded bytes, and the elapsed milliseconds when the caller measured
/// them (as the bits of an IEEE 754 double).
pub fn encode_result_envelope(bytes: &Vec<u8>, duration_bits: Option<u64>) -> (r: JsonValue)
    ensures
        duration_bits is None ==> r.dv() == JsonV::Object(
            seq![("success"@, JsonV::Bool(true)), ("hex"@, JsonV::Str(hex_seq(bytes@)))],
        ),
        duration_bits matches Some(d) ==> r.dv() == JsonV::Object(
            seq![
                ("success"@, JsonV::Bool(true)),
                ("hex"@, JsonV::Str(hex_seq(bytes@))),
                ("duration_ms"@, JsonV::Float(d)),
            ],
        ),
{
    let mut entries: Vec<(String, JsonValue)> = Vec::new();
    entries.push((String::from_str("success"), JsonValue::Bool(true)));
    entries.push((String::from_str("hex"), JsonValue::Str(hex_encode(bytes))));
    match duration_bits {
        Some(d) => {
            entries.push((String::from_str("duration_ms"), JsonValue::Float(d)));
            let r = JsonValue::Object(entries);
            proof {
                reveal_with_fuel(crate::model::JsonValue::dv, 3);
                assert(r.dv()->Object_0 =~= seq![
                    ("success"@, JsonV::Bool(true)),
                    ("hex"@, JsonV::Str(hex_seq(bytes@))),
                    ("duration_ms"@, JsonV::Float(d)),
                ]);
            }
            r
        },
        None => {
            let r = JsonValue::Object(entries);
            proof {
                reveal_with_fuel(crate::model::JsonValue::dv, 3);
                assert(r.dv()->Object_0 =~= seq![
                    ("success"@, JsonV::Bool(true)),
                    ("hex"@, JsonV::Str(hex_seq(bytes@))),
                ]);
            }
            r
        },
    }
}

/// The success envelope of the decode endpoint: the JSON image of the
/// decoded value, and the elapsed milliseconds when the caller measured
/// them.
pub fn decode_result_envelope(value: &CborValue, duration_bits: Option<u64>) -> (r: JsonValue)
    ensures
        duration_bits is None ==> r.dv() == JsonV::Object(
            seq![
                ("success"@, JsonV::Bool(true)),
                ("result"@, to_json_s(value.dv())),
            ],
        ),
        duration_bits matches Some(d) ==> r.dv() == JsonV::Object(
            seq![
                ("success"@, JsonV::Bool(true)),
                ("result"@, to_json_s(value.dv())),
                ("duration_ms"@, JsonV::Float(d)),
            ],
        ),
{
    let converted = to_json(value);
    let mut entries: Vec<(String, JsonValue)> = Vec::new();
    entries.push((String::from_str("success"), JsonValue::Bool(true)));
    entries.push((String::from_str("result"), converted));
    match duration_bits {
        Some(d) => {
            entries.push((String::from_str("duration_ms"), JsonValue::Float(d)));
            let r = JsonValue::Object(entries);
            proof {
                reveal_with_fuel(crate::model::JsonValue::dv, 2);
                assert(r.dv()->Object_0 =~= seq![
                    ("success"@, JsonV::Bool(true)),
                    ("result"@, to_json_s(value.dv())),
                    ("duration_ms"@, JsonV::Float(d)),
                ]);
            }
            r
        },
        None => {
            let r = JsonValue::Object(entries);
            proof {
                reveal_with_fuel(crate::model::JsonValue::dv, 2);
                assert(r.dv()->Object_0 =~= seq![
                    ("success"@, JsonV::Bool(true)),
                    ("result"@, to_json_s(value.dv())),
                ]);
            }
            r
        },
    }
}

/// The body every unmapped route is answered with.
pub fn not_found_body() -> (r: JsonValue)
    ensures
        r.dv() == JsonV::Object(seq![("error"@, JsonV::Str("Not found"@))]),
{
    let mut entries: Vec<(String, JsonValue)> = Vec::new();
    entries.push((String::from_str("error"), JsonValue::Str(String::from_str("Not found"))));
    let r = JsonValue::Object(entries);
    proof {
        reveal_with_fuel(crate::model::JsonValue::dv, 3);
        assert(r.dv()->Object_0 =~= seq![("error"@, JsonV::Str("Not found"@))]);
    }
    r
}

/// The health-check body: status and the identity of the binary codec
/// this bridge is built around.
pub fn health_body() -> (r: JsonValue)
    ensures
        r.dv() == JsonV::Object(
            seq![
                ("status"@, JsonV::Str("ok"@)),
                ("library"@, JsonV::Str("ciborium"@)),
                ("language"@, JsonV::Str("rust"@)),
            ],
        ),
{
    let mut entries: Vec<(String, JsonValue)> = Vec::new();
    entries.push((String::from_str("status"), JsonValue::Str(String::from_str("ok"))));
    entries.push((String::from_str("library"), JsonValue::Str(String::from_str("ciborium"))));
    entries.push((String::from_str("language"), JsonValue::Str(String::from_str("rust"))));
    let r = JsonValue::Object(entries);
    proof {
        reveal_with_fuel(crate::model::JsonValue::dv, 3);
        assert(r.dv()->Object_0 =~= seq![
            ("status"@, JsonV::Str("ok"@)),
            ("library"@, JsonV::Str("ciborium"@)),
            ("language"@, JsonV::Str("rust"@)),
        ]);
    }
    r
}

} // verus!
