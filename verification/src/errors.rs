use vstd::prelude::*;

verus! {

/// The faults a bridge request can run into: malformed hexadecimal input,
/// a request body that is not valid JSON, or a byte stream or value tree
/// that the binary codec rejected.
#[derive(Clone, Copy, PartialEq, Eq, Debug)]
pub enum BridgeError {
    InvalidHex,
    MalformedJson,
    CodecError,
}

impl BridgeError {
    /// A short human-readable description of the fault.
    pub fn message(&self) -> (r: String)
        ensures
            *self == BridgeError::InvalidHex ==> r@ == "Invalid hex"@,
            *self == BridgeError::MalformedJson ==> r@ == "Invalid JSON"@,
            *self == BridgeError::CodecError ==> r@ == "CBOR codec error"@,
    {
        match self {
            BridgeError::InvalidHex => String::from_str("Invalid hex"),
            BridgeError::MalformedJson => String::from_str("Invalid JSON"),
            BridgeError::CodecError => String::from_str("CBOR codec error"),
        }
    }
}

} // verus!
