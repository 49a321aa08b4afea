use vstd::prelude::*;

verus! {

broadcast use vstd::std_specs::vec::group_vec_axioms;

/// A decoded binary value: the tree the binary codec produces and
/// consumes.  A float is carried as the bits of its IEEE 754 double,
/// so that conversion keeps it exactly.
#[derive(Debug, PartialEq)]
pub enum CborValue {
    Integer(i128),
    Bytes(Vec<u8>),
    Text(String),
    Float(u64),
    Bool(bool),
    Null,
    Array(Vec<CborValue>),
    Dict(Vec<(CborValue, CborValue)>),
    Tag(u64, Box<CborValue>),
}

/// The mathematical shape of a binary value.
pub enum CborV {
    Integer(int),
    Bytes(Seq<u8>),
    Text(Seq<char>),
    Float(u64),
    Bool(bool),
    Null,
    Array(Seq<CborV>),
    Dict(Seq<(CborV, CborV)>),
    Tag(u64, Box<CborV>),
}

impl CborValue {
    /// The mathematical value this tree stands for.
    pub open spec fn dv(self) -> CborV
        decreases self,
    {
        match self {
            CborValue::Integer(n) => CborV::Integer(n as int),
            CborValue::Bytes(b) => CborV::Bytes(b@),
            CborValue::Text(s) => CborV::Text(s@),
            CborValue::Float(bits) => CborV::Float(bits),
            CborValue::Bool(b) => CborV::Bool(b),
            CborValue::Null => CborV::Null,
            CborValue::Array(items) => CborV::Array(
                Seq::new(
                    items@.len(),
                    |i: int| if 0 <= i < items@.len() { items[i].dv() } else { CborV::Null },
                ),
            ),
            CborValue::Dict(pairs) => CborV::Dict(
                Seq::new(
                    pairs@.len(),
                    |i: int| if 0 <= i < pairs@.len() {
                        (pairs[i].0.dv(), pairs[i].1.dv())
                    } else {
                        (CborV::Null, CborV::Null)
                    },
                ),
            ),
            CborValue::Tag(t, inner) => CborV::Tag(t, Box::new((*inner).dv())),
        }
    }
}

/// A JSON value, the wire form of a conversion.  A number is either an
/// integer or the bits of a finite IEEE 754 double; an object is a
/// sequence of key-value pairs in insertion order.
#[derive(Debug, PartialEq)]
pub enum JsonValue {
    Null,
    Bool(bool),
    Int(i128),
    Float(u64),
    Str(String),
    Array(Vec<JsonValue>),
    Object(Vec<(String, JsonValue)>),
}

/// The mathematical shape of a JSON value.
pub enum JsonV {
    Null,
    Bool(bool),
    Int(int),
    Float(u64),
    Str(Seq<char>),
    Array(Seq<JsonV>),
    Object(Seq<(Seq<char>, JsonV)>),
}

impl JsonValue {
    /// The mathematical value this tree stands for.
    pub open spec fn dv(self) -> JsonV
        decreases self,
    {
        match self {
            JsonValue::Null => JsonV::Null,
            JsonValue::Bool(b) => JsonV::Bool(b),
            JsonValue::Int(n) => JsonV::Int(n as int),
            JsonValue::Float(bits) => JsonV::Float(bits),
            JsonValue::Str(s) => JsonV::Str(s@),
            JsonValue::Array(items) => JsonV::Array(
                Seq::new(
                    items@.len(),
                    |i: int| if 0 <= i < items@.len() { items[i].dv() } else { JsonV::Null },
                ),
            ),
            JsonValue::Object(entries) => JsonV::Object(
                Seq::new(
                    entries@.len(),
                    |i: int| if 0 <= i < entries@.len() {
                        (entries[i].0@, entries[i].1.dv())
                    } else {
                        (Seq::empty(), JsonV::Null)
                    },
                ),
            ),
        }
    }
}

/// Exponent field of an IEEE 754 double given as bits.
pub open spec fn f64_exponent(bits: u64) -> u64 {
    (bits >> 52) & 0x7ff
}

/// Fraction field of an IEEE 754 double given as bits.
pub open spec fn f64_fraction(bits: u64) -> u64 {
    bits & 0xfffffffffffff
}

pub open spec fn is_nan_bits(bits: u64) -> bool {
    f64_exponent(bits) == 0x7ff && f64_fraction(bits) != 0
}

pub open spec fn is_finite_bits(bits: u64) -> bool {
    f64_exponent(bits) != 0x7ff
}

/// The bits of positive infinity.
pub const POS_INF_BITS: u64 = 0x7ff0000000000000;

/// The bits of negative infinity.
pub const NEG_INF_BITS: u64 = 0xfff0000000000000;

/// The bits of the canonical quiet NaN.
pub const NAN_BITS: u64 = 0x7ff8000000000000;

} // verus!
