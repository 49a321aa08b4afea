use vstd::prelude::*;

use crate::hexcode::{hex_seq, hex_ok, hex_decode_seq, hex_encode, hex_decode};
use crate::intstr::{int_seq, dec_seq, parse_int_seq, format_i128, format_u128, parse_int};
use crate::json_safe_integer;
use crate::model::{CborV, JsonV, CborValue, JsonValue};
use crate::model::{is_nan_bits, is_finite_bits, POS_INF_BITS, NEG_INF_BITS, NAN_BITS};

verus! {

broadcast use vstd::std_specs::vec::group_vec_axioms;

// ---------------------------------------------------------------------------
// The marker protocol: reserved keys that let a JSON object carry a value
// kind JSON cannot natively express.
// ---------------------------------------------------------------------------

pub open spec fn bytes_key() -> Seq<char> {
    "__cbor_bytes__"@
}

pub open spec fn float_key() -> Seq<char> {
    "__cbor_float__"@
}

pub open spec fn tag_key() -> Seq<char> {
    "__cbor_tag__"@
}

pub open spec fn tag_value_key() -> Seq<char> {
    "__cbor_value__"@
}

pub open spec fn undefined_key() -> Seq<char> {
    "__cbor_undefined__"@
}

pub open spec fn is_marker_key(k: Seq<char>) -> bool {
    k == bytes_key() || k == float_key() || k == tag_key() || k == tag_value_key()
        || k == undefined_key()
}

/// The reserved keys differ pairwise.
pub proof fn lemma_marker_keys_distinct()
    ensures
        bytes_key() != float_key(),
        bytes_key() != tag_key(),
        bytes_key() != tag_value_key(),
        bytes_key() != undefined_key(),
        float_key() != tag_key(),
        float_key() != tag_value_key(),
        float_key() != undefined_key(),
        tag_key() != tag_value_key(),
        tag_key() != undefined_key(),
        tag_value_key() != undefined_key(),
{
    reveal_strlit("__cbor_bytes__");
    reveal_strlit("__cbor_float__");
    reveal_strlit("__cbor_tag__");
    reveal_strlit("__cbor_value__");
    reveal_strlit("__cbor_undefined__");
    assert(bytes_key().len() == 14);
    assert(float_key().len() == 14);
    assert(tag_key().len() == 12);
    assert(tag_value_key().len() == 14);
    assert(undefined_key().len() == 18);
    assert(bytes_key()[7] != float_key()[7]);
    assert(bytes_key()[7] != tag_value_key()[7]);
    assert(float_key()[7] != tag_value_key()[7]);
}

// ---------------------------------------------------------------------------
// JSON objects as ordered key-value sequences.
// ---------------------------------------------------------------------------

/// Index of the first entry bearing `key`, or -1 when no entry does.
pub open spec fn obj_index(entries: Seq<(Seq<char>, JsonV)>, key: Seq<char>) -> int
    decreases entries.len(),
{
    if entries.len() == 0 {
        -1
    } else if entries[0].0 == key {
        0
    } else {
        let r = obj_index(entries.drop_first(), key);
        if r < 0 {
            -1
        } else {
            1 + r
        }
    }
}

/// First value bearing `key`, if any entry does.
pub open spec fn obj_get(entries: Seq<(Seq<char>, JsonV)>, key: Seq<char>) -> Option<JsonV> {
    let i = obj_index(entries, key);
    if i < 0 {
        None
    } else {
        Some(entries[i].1)
    }
}

/// `obj_index` finds the first entry bearing the key, and fails exactly
/// when no entry bears it.
pub proof fn lemma_obj_index(entries: Seq<(Seq<char>, JsonV)>, key: Seq<char>)
    ensures
        obj_index(entries, key) < 0 ==> forall|i: int|
            0 <= i < entries.len() ==> entries[i].0 != key,
        obj_index(entries, key) >= 0 ==> 0 <= obj_index(entries, key) < entries.len()
            && entries[obj_index(entries, key)].0 == key
            && forall|i: int| 0 <= i < obj_index(entries, key) ==> entries[i].0 != key,
    decreases entries.len(),
{
    if entries.len() > 0 && entries[0].0 != key {
        let rest = entries.drop_first();
        lemma_obj_index(rest, key);
        let r = obj_index(entries, key);
        if obj_index(rest, key) < 0 {
            assert forall|i: int| 0 <= i < entries.len() implies entries[i].0 != key by {
                if i > 0 {
                    assert(rest[i - 1] == entries[i]);
                }
            }
        } else {
            assert(r == 1 + obj_index(rest, key));
            assert(entries[r] == rest[r - 1]);
            assert forall|i: int| 0 <= i < r implies entries[i].0 != key by {
                if i > 0 {
                    assert(rest[i - 1] == entries[i]);
                }
            }
        }
    }
}

/// Replaces the value at the first entry bearing `key`, keeping its place,
/// or appends a new entry at the end.
pub open spec fn obj_upsert(
    entries: Seq<(Seq<char>, JsonV)>,
    key: Seq<char>,
    value: JsonV,
) -> Seq<(Seq<char>, JsonV)>
    decreases entries.len(),
{
    if entries.len() == 0 {
        seq![(key, value)]
    } else if entries[0].0 == key {
        seq![(key, value)] + entries.drop_first()
    } else {
        seq![entries[0]] + obj_upsert(entries.drop_first(), key, value)
    }
}

/// Upserting a key absent from the entries appends it.
pub proof fn lemma_obj_upsert_absent(
    entries: Seq<(Seq<char>, JsonV)>,
    key: Seq<char>,
    value: JsonV,
)
    requires
        forall|i: int| 0 <= i < entries.len() ==> entries[i].0 != key,
    ensures
        obj_upsert(entries, key, value) == entries + seq![(key, value)],
    decreases entries.len(),
{
    if entries.len() == 0 {
        assert(obj_upsert(entries, key, value) =~= entries + seq![(key, value)]);
    } else {
        let rest = entries.drop_first();
        assert(forall|i: int| 0 <= i < rest.len() ==> rest[i] == entries[i + 1]);
        lemma_obj_upsert_absent(rest, key, value);
        assert(obj_upsert(entries, key, value) =~= entries + seq![(key, value)]);
    }
}

// ---------------------------------------------------------------------------
// The value converter, mathematically.
// ---------------------------------------------------------------------------

/// How a map key is turned into a JSON object key: text passes through,
/// an integer becomes its decimal form, a byte string its hex form, and
/// any other kind a fixed best-effort description (a documented lossy
/// fallback, since JSON cannot key on arbitrary values).
pub open spec fn key_string(k: CborV) -> Seq<char> {
    match k {
        CborV::Text(s) => s,
        CborV::Integer(n) => int_seq(n),
        CborV::Bytes(b) => hex_seq(b),
        CborV::Bool(b) => if b { "true"@ } else { "false"@ },
        CborV::Null => "null"@,
        CborV::Float(bits) => "float:"@ + dec_seq(bits as nat),
        CborV::Array(_) => "array"@,
        CborV::Dict(_) => "map"@,
        CborV::Tag(_, _) => "tag"@,
    }
}

/// The image of a binary value in JSON, total over all values.
pub open spec fn to_json_s(v: CborV) -> JsonV
    decreases v,
{
    match v {
        CborV::Integer(n) => if json_safe_integer(n) {
            JsonV::Int(n)
        } else {
            JsonV::Str(int_seq(n))
        },
        CborV::Bytes(b) => JsonV::Object(seq![(bytes_key(), JsonV::Str(hex_seq(b)))]),
        CborV::Text(s) => JsonV::Str(s),
        CborV::Float(bits) => if is_nan_bits(bits) {
            JsonV::Object(seq![(float_key(), JsonV::Str("NaN"@))])
        } else if bits == POS_INF_BITS {
            JsonV::Object(seq![(float_key(), JsonV::Str("Infinity"@))])
        } else if bits == NEG_INF_BITS {
            JsonV::Object(seq![(float_key(), JsonV::Str("-Infinity"@))])
        } else {
            JsonV::Float(bits)
        },
        CborV::Bool(b) => JsonV::Bool(b),
        CborV::Null => JsonV::Null,
        CborV::Array(items) => JsonV::Array(
            Seq::new(
                items.len(),
                |i: int| if 0 <= i < items.len() { to_json_s(items[i]) } else { JsonV::Null },
            ),
        ),
        CborV::Dict(pairs) => JsonV::Object(dict_to_obj(pairs)),
        CborV::Tag(t, inner) => JsonV::Object(
            seq![(tag_key(), JsonV::Int(t as int)), (tag_value_key(), to_json_s(*inner))],
        ),
    }
}

/// The object a map converts to: each pair in order, its key stringified
/// and its value converted, a repeated key overwriting the value at the
/// place the key first took (last write wins).
pub open spec fn dict_to_obj(pairs: Seq<(CborV, CborV)>) -> Seq<(Seq<char>, JsonV)>
    decreases pairs,
{
    if pairs.len() == 0 {
        Seq::empty()
    } else {
        obj_upsert(
            dict_to_obj(pairs.drop_last()),
            key_string(pairs.last().0),
            to_json_s(pairs.last().1),
        )
    }
}

/// The byte sequence a bytes marker carries, when the object bears one
/// with a payload that decodes.
pub open spec fn bytes_payload(entries: Seq<(Seq<char>, JsonV)>) -> Option<Seq<u8>> {
    match obj_get(entries, bytes_key()) {
        Some(JsonV::Str(h)) => if hex_ok(h) {
            Some(hex_decode_seq(h))
        } else {
            None
        },
        _ => None,
    }
}

/// The value a float marker denotes, when the object bears one with a
/// string payload: a recognized name gives the non-finite float, any other
/// string degrades to null.
pub open spec fn float_payload(entries: Seq<(Seq<char>, JsonV)>) -> Option<CborV> {
    match obj_get(entries, float_key()) {
        Some(JsonV::Str(s)) => if s == "NaN"@ {
            Some(CborV::Float(NAN_BITS))
        } else if s == "Infinity"@ {
            Some(CborV::Float(POS_INF_BITS))
        } else if s == "-Infinity"@ {
            Some(CborV::Float(NEG_INF_BITS))
        } else {
            Some(CborV::Null)
        },
        _ => None,
    }
}

/// The tag number an object carries, when it bears a tag marker whose
/// value is an unsigned 64-bit integer.
pub open spec fn tag_number(entries: Seq<(Seq<char>, JsonV)>) -> Option<u64> {
    match obj_get(entries, tag_key()) {
        Some(JsonV::Int(t)) => if 0 <= t <= u64::MAX {
            Some(t as u64)
        } else {
            None
        },
        _ => None,
    }
}

/// The preimage of a JSON value, total: malformed markers degrade to the
/// ordinary-map reading rather than failing.
///
/// One integer policy holds throughout: an integral number becomes an
/// integer whole, and a string becomes an integer exactly when it reads
/// as a decimal integer that fits 128 signed bits (so oversized integers
/// that went out through the string fallback come back as integers), and
/// text otherwise.
pub open spec fn from_json_s(j: JsonV) -> CborV
    decreases j,
{
    match j {
        JsonV::Null => CborV::Null,
        JsonV::Bool(b) => CborV::Bool(b),
        JsonV::Int(n) => CborV::Integer(n),
        JsonV::Float(bits) => CborV::Float(bits),
        JsonV::Str(s) => match parse_int_seq(s) {
            Some(n) => CborV::Integer(n as int),
            None => CborV::Text(s),
        },
        JsonV::Array(items) => CborV::Array(
            Seq::new(
                items.len(),
                |i: int| if 0 <= i < items.len() { from_json_s(items[i]) } else { CborV::Null },
            ),
        ),
        JsonV::Object(entries) => match bytes_payload(entries) {
            Some(b) => CborV::Bytes(b),
            None => match float_payload(entries) {
                Some(v) => v,
                None => {
                    let vi = obj_index(entries, tag_value_key());
                    match tag_number(entries) {
                        Some(t) => if 0 <= vi < entries.len() {
                            CborV::Tag(t, Box::new(from_json_s(entries[vi].1)))
                        } else if obj_index(entries, undefined_key()) >= 0 {
                            CborV::Null
                        } else {
                            from_json_dict(entries)
                        },
                        None => if obj_index(entries, undefined_key()) >= 0 {
                            CborV::Null
                        } else {
                            from_json_dict(entries)
                        },
                    }
                },
            },
        },
    }
}

/// The ordinary-map reading of a JSON object: every key becomes a text
/// key, every value is converted, pair order preserved.
pub open spec fn from_json_dict(entries: Seq<(Seq<char>, JsonV)>) -> CborV
    decreases entries,
{
    CborV::Dict(
        Seq::new(
            entries.len(),
            |i: int| if 0 <= i < entries.len() {
                (CborV::Text(entries[i].0), from_json_s(entries[i].1))
            } else {
                (CborV::Null, CborV::Null)
            },
        ),
    )
}

// ---------------------------------------------------------------------------
// Well-formedness: the fragment of the value model on which conversion
// loses nothing.
// ---------------------------------------------------------------------------

/// A value survives the round trip when every integer fits 128 signed
/// bits, every text does not itself read as a decimal integer, every
/// float is finite, and every map has pairwise-distinct text keys none of
/// which is a reserved marker key.
pub open spec fn wf(v: CborV) -> bool
    decreases v,
{
    match v {
        CborV::Integer(n) => i128::MIN <= n <= i128::MAX,
        CborV::Bytes(_) => true,
        CborV::Text(s) => parse_int_seq(s) is None,
        CborV::Float(bits) => is_finite_bits(bits),
        CborV::Bool(_) => true,
        CborV::Null => true,
        CborV::Array(items) => forall|i: int| 0 <= i < items.len() ==> wf(#[trigger] items[i]),
        CborV::Dict(pairs) => (forall|i: int|
            0 <= i < pairs.len() ==> ((#[trigger] pairs[i]).0 is Text
                && !is_marker_key(pairs[i].0->Text_0) && wf(pairs[i].1))) && (forall|i: int, j: int|
            0 <= i < j < pairs.len() ==> pairs[i].0->Text_0 != pairs[j].0->Text_0),
        CborV::Tag(_, inner) => wf(*inner),
    }
}

// ---------------------------------------------------------------------------
// The round-trip laws.
// ---------------------------------------------------------------------------

proof fn lemma_obj_index_single(k: Seq<char>, v: JsonV, key: Seq<char>)
    ensures
        k == key ==> obj_index(seq![(k, v)], key) == 0,
        k != key ==> obj_index(seq![(k, v)], key) == -1,
{
    let entries: Seq<(Seq<char>, JsonV)> = seq![(k, v)];
    assert(entries.drop_first() =~= Seq::<(Seq<char>, JsonV)>::empty());
    assert(obj_index(Seq::<(Seq<char>, JsonV)>::empty(), key) == -1);
}

proof fn lemma_obj_index_pair(k1: Seq<char>, v1: JsonV, k2: Seq<char>, v2: JsonV, key: Seq<char>)
    ensures
        k1 == key ==> obj_index(seq![(k1, v1), (k2, v2)], key) == 0,
        k1 != key && k2 == key ==> obj_index(seq![(k1, v1), (k2, v2)], key) == 1,
        k1 != key && k2 != key ==> obj_index(seq![(k1, v1), (k2, v2)], key) == -1,
{
    let entries: Seq<(Seq<char>, JsonV)> = seq![(k1, v1), (k2, v2)];
    assert(entries.drop_first() =~= seq![(k2, v2)]);
    lemma_obj_index_single(k2, v2, key);
}

/// With pairwise-distinct keys the conversion of a map touches no entry
/// twice: the object lists each pair in order.
proof fn lemma_dict_to_obj_distinct(pairs: Seq<(CborV, CborV)>)
    requires
        forall|i: int, j: int|
            0 <= i < j < pairs.len()
                ==> key_string(#[trigger] pairs[i].0) != key_string(#[trigger] pairs[j].0),
    ensures
        dict_to_obj(pairs).len() == pairs.len(),
        forall|i: int| 0 <= i < pairs.len()
            ==> #[trigger] dict_to_obj(pairs)[i]
                == (key_string(pairs[i].0), to_json_s(pairs[i].1)),
    decreases pairs.len(),
{
    if pairs.len() > 0 {
        let front = pairs.drop_last();
        assert(forall|i: int| 0 <= i < front.len() ==> front[i] == pairs[i]);
        lemma_dict_to_obj_distinct(front);
        let e = dict_to_obj(front);
        let k = key_string(pairs.last().0);
        assert forall|i: int| 0 <= i < e.len() implies e[i].0 != k by {
            assert(e[i] == (key_string(pairs[i].0), to_json_s(pairs[i].1)));
        }
        lemma_obj_upsert_absent(e, k, to_json_s(pairs.last().1));
    }
}

/// Law: converting a well-formed binary value to JSON and back gives the
/// value unchanged.  Well-formedness (`wf`) asks exactly what the marker
/// protocol cannot help losing: text must not itself read as a decimal
/// integer, floats must be finite, and map keys must be distinct text
/// that is no reserved marker key.
pub proof fn lemma_round_trip(v: CborV)
    requires
        wf(v),
    ensures
        from_json_s(to_json_s(v)) == v,
    decreases v,
{
    lemma_marker_keys_distinct();
    match v {
        CborV::Integer(n) => {
            if json_safe_integer(n) {
                assert(to_json_s(v) == JsonV::Int(n));
                assert(from_json_s(JsonV::Int(n)) == CborV::Integer(n));
            } else {
                crate::intstr::lemma_parse_int_round_trip(n as i128);
                assert(int_seq((n as i128) as int) == int_seq(n));
                assert(parse_int_seq(int_seq(n)) == Some(n as i128));
                assert(to_json_s(v) == JsonV::Str(int_seq(n)));
                assert(from_json_s(JsonV::Str(int_seq(n))) == CborV::Integer((n as i128) as int));
            }
        },
        CborV::Bytes(b) => {
            let h = hex_seq(b);
            lemma_obj_index_single(bytes_key(), JsonV::Str(h), bytes_key());
            crate::hexcode::lemma_hex_round_trip(b);
        },
        CborV::Text(_) => {},
        CborV::Float(bits) => {
            assert((0x7ff0000000000000u64 >> 52) & 0x7ff == 0x7ff) by (bit_vector);
            assert((0xfff0000000000000u64 >> 52) & 0x7ff == 0x7ff) by (bit_vector);
            assert(bits != POS_INF_BITS && bits != NEG_INF_BITS && !is_nan_bits(bits));
            assert(to_json_s(v) == JsonV::Float(bits));
        },
        CborV::Bool(_) => {},
        CborV::Null => {},
        CborV::Array(items) => {
            let js = to_json_s(v);
            let w = from_json_s(js);
            assert forall|i: int| 0 <= i < items.len() implies #[trigger] w->Array_0[i]
                == items[i] by {
                assert(js->Array_0[i] == to_json_s(items[i]));
                assert(wf(items[i]));
                lemma_round_trip(items[i]);
            }
            assert(w->Array_0 =~= items);
        },
        CborV::Dict(pairs) => {
            assert forall|i: int, j: int| 0 <= i < j < pairs.len()
                implies key_string(#[trigger] pairs[i].0) != key_string(
                #[trigger] pairs[j].0,
            ) by {
                assert(pairs[i].0 is Text && pairs[j].0 is Text);
            }
            lemma_dict_to_obj_distinct(pairs);
            let entries = dict_to_obj(pairs);
            lemma_obj_index(entries, bytes_key());
            if obj_index(entries, bytes_key()) >= 0 {
                let i = obj_index(entries, bytes_key());
                assert(entries[i] == (key_string(pairs[i].0), to_json_s(pairs[i].1)));
                assert(false);
            }
            lemma_obj_index(entries, float_key());
            if obj_index(entries, float_key()) >= 0 {
                let i = obj_index(entries, float_key());
                assert(entries[i] == (key_string(pairs[i].0), to_json_s(pairs[i].1)));
                assert(false);
            }
            lemma_obj_index(entries, tag_key());
            if obj_index(entries, tag_key()) >= 0 {
                let i = obj_index(entries, tag_key());
                assert(entries[i] == (key_string(pairs[i].0), to_json_s(pairs[i].1)));
                assert(false);
            }
            lemma_obj_index(entries, tag_value_key());
            if obj_index(entries, tag_value_key()) >= 0 {
                let i = obj_index(entries, tag_value_key());
                assert(entries[i] == (key_string(pairs[i].0), to_json_s(pairs[i].1)));
                assert(false);
            }
            lemma_obj_index(entries, undefined_key());
            if obj_index(entries, undefined_key()) >= 0 {
                let i = obj_index(entries, undefined_key());
                assert(entries[i] == (key_string(pairs[i].0), to_json_s(pairs[i].1)));
                assert(false);
            }
            let w = from_json_s(to_json_s(v));
            assert(w == from_json_dict(entries));
            assert forall|i: int| 0 <= i < pairs.len() implies #[trigger] w->Dict_0[i]
                == pairs[i] by {
                assert(entries[i] == (key_string(pairs[i].0), to_json_s(pairs[i].1)));
                assert(wf(pairs[i].1));
                lemma_round_trip(pairs[i].1);
                assert(CborV::Text(pairs[i].0->Text_0) == pairs[i].0);
            }
            assert(w->Dict_0 =~= pairs);
        },
        CborV::Tag(t, inner) => {
            let jin = to_json_s(*inner);
            let entries: Seq<(Seq<char>, JsonV)> = seq![
                (tag_key(), JsonV::Int(t as int)),
                (tag_value_key(), jin),
            ];
            lemma_obj_index_pair(tag_key(), JsonV::Int(t as int), tag_value_key(), jin,
                bytes_key());
            lemma_obj_index_pair(tag_key(), JsonV::Int(t as int), tag_value_key(), jin,
                float_key());
            lemma_obj_index_pair(tag_key(), JsonV::Int(t as int), tag_value_key(), jin,
                tag_key());
            lemma_obj_index_pair(tag_key(), JsonV::Int(t as int), tag_value_key(), jin,
                tag_value_key());
            assert(wf(*inner));
            lemma_round_trip(*inner);
            assert(from_json_s(to_json_s(v)) == CborV::Tag(t, Box::new(from_json_s(jin))));
        },
    }
}

// ---------------------------------------------------------------------------
// The value converter, executably.
// ---------------------------------------------------------------------------

/// The mathematical entries of an object held as a vector.
pub open spec fn entries_dv(entries: Seq<(String, JsonValue)>) -> Seq<(Seq<char>, JsonV)> {
    Seq::new(entries.len(), |i: int| (entries[i].0@, entries[i].1.dv()))
}

/// `obj_upsert` either overwrites in place at the first index bearing the
/// key, or appends.
proof fn lemma_obj_upsert_characterize(
    entries: Seq<(Seq<char>, JsonV)>,
    key: Seq<char>,
    value: JsonV,
)
    ensures
        obj_index(entries, key) < 0 ==> obj_upsert(entries, key, value) == entries + seq![
            (key, value),
        ],
        obj_index(entries, key) >= 0 ==> obj_upsert(entries, key, value) == entries.update(
            obj_index(entries, key),
            (key, value),
        ),
    decreases entries.len(),
{
    lemma_obj_index(entries, key);
    if obj_index(entries, key) < 0 {
        lemma_obj_upsert_absent(entries, key, value);
    } else if entries.len() > 0 {
        if entries[0].0 == key {
            assert(obj_upsert(entries, key, value) =~= entries.update(0, (key, value)));
        } else {
            let rest = entries.drop_first();
            assert(forall|i: int| 0 <= i < rest.len() ==> rest[i] == entries[i + 1]);
            lemma_obj_upsert_characterize(rest, key, value);
            let ri = obj_index(rest, key);
            assert(obj_index(entries, key) == 1 + ri);
            assert(obj_upsert(entries, key, value) =~= entries.update(1 + ri, (key, value)));
        }
    }
}

/// Index of the first entry bearing `key`, if any.
fn obj_find(entries: &Vec<(String, JsonValue)>, key: &String) -> (r: Option<usize>)
    ensures
        match r {
            Some(i) => 0 <= i < entries@.len() && obj_index(entries_dv(entries@), key@) == i as int,
            None => obj_index(entries_dv(entries@), key@) < 0,
        },
{
    let ghost edv = entries_dv(entries@);
    let mut i: usize = 0;
    while i < entries.len()
        invariant
            i <= entries@.len(),
            edv == entries_dv(entries@),
            forall|k: int| 0 <= k < i ==> #[trigger] edv[k].0 != key@,
        decreases entries@.len() - i,
    {
        if entries[i].0 == *key {
            proof {
                assert(edv[i as int].0 == key@);
                lemma_obj_index(edv, key@);
                let oi = obj_index(edv, key@);
                if oi < 0 {
                    assert(false);
                } else if oi < i {
                    assert(edv[oi].0 != key@);
                } else if oi > i {
                    assert(edv[i as int].0 != key@);
                }
            }
            return Some(i);
        }
        i = i + 1;
    }
    proof {
        lemma_obj_index(edv, key@);
    }
    None
}

/// Overwrites the value at the first entry bearing `key`, keeping its
/// place, or appends a new entry at the end.
fn obj_upsert_exec(entries: &mut Vec<(String, JsonValue)>, key: String, value: JsonValue)
    ensures
        entries_dv(final(entries)@) == obj_upsert(entries_dv(old(entries)@), key@, value.dv()),
{
    proof {
        lemma_obj_upsert_characterize(entries_dv(entries@), key@, value.dv());
    }
    match obj_find(entries, &key) {
        Some(i) => {
            entries.set(i, (key, value));
            proof {
                assert(entries_dv(entries@) =~= obj_upsert(
                    entries_dv(old(entries)@),
                    key@,
                    value.dv(),
                ));
            }
        },
        None => {
            entries.push((key, value));
            proof {
                assert(entries_dv(entries@) =~= obj_upsert(
                    entries_dv(old(entries)@),
                    key@,
                    value.dv(),
                ));
            }
        },
    }
}

/// The JSON object key a map key is turned into.
fn key_string_exec(k: &CborValue) -> (r: String)
    ensures
        r@ == key_string(k.dv()),
{
    match k {
        CborValue::Text(s) => s.clone(),
        CborValue::Integer(n) => format_i128(*n),
        CborValue::Bytes(b) => hex_encode(b),
        CborValue::Bool(b) => if *b {
            String::from_str("true")
        } else {
            String::from_str("false")
        },
        CborValue::Null => String::from_str("null"),
        CborValue::Float(bits) => {
            let mut r = String::from_str("float:");
            let digits = format_u128(*bits as u128);
            r.append(digits.as_str());
            r
        },
        CborValue::Array(_) => String::from_str("array"),
        CborValue::Dict(_) => String::from_str("map"),
        CborValue::Tag(_, _) => String::from_str("tag"),
    }
}

/// Converts a binary value to its JSON image.  Total: every value has a
/// defined image, and nothing fails.
#[verifier::loop_isolation(false)]
pub fn to_json(v: &CborValue) -> (r: JsonValue)
    ensures
        r.dv() == to_json_s(v.dv()),
    decreases *v,
{
    match v {
        CborValue::Integer(n) => {
            if crate::is_json_safe_integer(*n) {
                JsonValue::Int(*n)
            } else {
                JsonValue::Str(format_i128(*n))
            }
        },
        CborValue::Bytes(b) => {
            let mut entries: Vec<(String, JsonValue)> = Vec::new();
            entries.push((String::from_str("__cbor_bytes__"), JsonValue::Str(hex_encode(b))));
            let r = JsonValue::Object(entries);
            proof {
                reveal_with_fuel(crate::model::JsonValue::dv, 3);
                assert(r.dv()->Object_0 =~= to_json_s(v.dv())->Object_0);
            }
            r
        },
        CborValue::Text(s) => JsonValue::Str(s.clone()),
        CborValue::Float(bits) => {
            let e = (*bits >> 52) & 0x7ff;
            if e == 0x7ff {
                let frac = *bits & 0xfffffffffffff;
                let name = if frac != 0 {
                    String::from_str("NaN")
                } else if *bits >> 63 == 0 {
                    proof {
                        assert(bits == 0x7ff0000000000000u64) by (bit_vector)
                            requires
                                (bits >> 52) & 0x7ff == 0x7ff,
                                bits & 0xfffffffffffff == 0,
                                bits >> 63 == 0,
                        ;
                    }
                    String::from_str("Infinity")
                } else {
                    proof {
                        assert(bits == 0xfff0000000000000u64) by (bit_vector)
                            requires
                                (bits >> 52) & 0x7ff == 0x7ff,
                                bits & 0xfffffffffffff == 0,
                                bits >> 63 != 0,
                        ;
                    }
                    String::from_str("-Infinity")
                };
                let mut entries: Vec<(String, JsonValue)> = Vec::new();
                entries.push((String::from_str("__cbor_float__"), JsonValue::Str(name)));
                let r = JsonValue::Object(entries);
                proof {
                    reveal_with_fuel(crate::model::JsonValue::dv, 3);
                    assert(r.dv()->Object_0 =~= to_json_s(v.dv())->Object_0);
                }
                r
            } else {
                proof {
                    assert((0x7ff0000000000000u64 >> 52) & 0x7ff == 0x7ff) by (bit_vector);
                    assert((0xfff0000000000000u64 >> 52) & 0x7ff == 0x7ff) by (bit_vector);
                }
                JsonValue::Float(*bits)
            }
        },
        CborValue::Bool(b) => JsonValue::Bool(*b),
        CborValue::Null => JsonValue::Null,
        CborValue::Array(items) => {
            let ghost target = to_json_s(v.dv())->Array_0;
            proof {
                assert(forall|k: int| 0 <= k < items@.len()
                    ==> #[trigger] target[k] == to_json_s(items@[k].dv()));
            }
            let mut out: Vec<JsonValue> = Vec::new();
            let mut i: usize = 0;
            while i < items.len()
                invariant
                    i <= items@.len(),
                    out@.len() == i,
                    target.len() == items@.len(),
                    forall|k: int| 0 <= k < items@.len()
                        ==> #[trigger] target[k] == to_json_s(items@[k].dv()),
                    forall|k: int| 0 <= k < i ==> #[trigger] out@[k].dv() == target[k],
                decreases items@.len() - i,
            {
                proof {
                    assert(decreases_to!(*v => (*v)->Array_0));
                    assert(decreases_to!((*v)->Array_0 => (*v)->Array_0@));
                    assert(decreases_to!((*v)->Array_0@ => (*v)->Array_0@[i as int]));
                    assert(decreases_to!(*v => items@[i as int]));
                }
                let ji = to_json(&items[i]);
                out.push(ji);
                i = i + 1;
            }
            let r = JsonValue::Array(out);
            proof {
                assert(out@.len() == items@.len());
                assert(r.dv() is Array);
                assert(r.dv()->Array_0.len() == out@.len());
                assert forall|k: int| 0 <= k < out@.len() implies r.dv()->Array_0[k]
                    == target[k] by {
                    assert(r.dv()->Array_0[k] == out@[k].dv());
                    assert(out@[k].dv() == target[k]);
                }
                assert(r.dv()->Array_0 =~= target);
                assert(r.dv() == to_json_s(v.dv()));
            }
            r
        },
        CborValue::Dict(pairs) => {
            let ghost pd = v.dv()->Dict_0;
            let mut obj: Vec<(String, JsonValue)> = Vec::new();
            let mut i: usize = 0;
            while i < pairs.len()
                invariant
                    i <= pairs@.len(),
                    pd == v.dv()->Dict_0,
                    pd.len() == pairs@.len(),
                    forall|k: int| 0 <= k < pairs@.len() ==> #[trigger] pd[k] == (
                        pairs@[k].0.dv(),
                        pairs@[k].1.dv(),
                    ),
                    entries_dv(obj@) == dict_to_obj(pd.take(i as int)),
                decreases pairs@.len() - i,
            {
                proof {
                    assert(decreases_to!(*v => (*v)->Dict_0));
                    assert(decreases_to!((*v)->Dict_0 => (*v)->Dict_0@));
                    assert(decreases_to!((*v)->Dict_0@ => (*v)->Dict_0@[i as int]));
                    assert(decreases_to!((*v)->Dict_0@[i as int] => (*v)->Dict_0@[i as int].1));
                    assert(decreases_to!(*v => pairs@[i as int].1));
                }
                let key = key_string_exec(&pairs[i].0);
                let val = to_json(&pairs[i].1);
                obj_upsert_exec(&mut obj, key, val);
                proof {
                    let t = pd.take(i + 1 as int);
                    assert(t.drop_last() =~= pd.take(i as int));
                    assert(t.last() == pd[i as int]);
                }
                i = i + 1;
            }
            proof {
                assert(pd.take(pairs@.len() as int) =~= pd);
            }
            let r = JsonValue::Object(obj);
            proof {
                assert(r.dv()->Object_0 =~= entries_dv(obj@));
                assert(r.dv() == to_json_s(v.dv()));
            }
            r
        },
        CborValue::Tag(t, inner) => {
            let mut entries: Vec<(String, JsonValue)> = Vec::new();
            entries.push((String::from_str("__cbor_tag__"), JsonValue::Int(*t as i128)));
            entries.push((String::from_str("__cbor_value__"), to_json(&**inner)));
            let r = JsonValue::Object(entries);
            proof {
                reveal_with_fuel(crate::model::JsonValue::dv, 3);
                assert(r.dv()->Object_0 =~= to_json_s(v.dv())->Object_0);
            }
            r
        },
    }
}

/// The decoded byte string, when the object bears a bytes marker whose
/// payload decodes.
fn bytes_payload_exec(entries: &Vec<(String, JsonValue)>) -> (r: Option<Vec<u8>>)
    ensures
        match r {
            Some(b) => bytes_payload(entries_dv(entries@)) == Some(b@),
            None => bytes_payload(entries_dv(entries@)) is None,
        },
{
    let key = String::from_str("__cbor_bytes__");
    match obj_find(entries, &key) {
        Some(i) => match &entries[i].1 {
            JsonValue::Str(h) => match hex_decode(h.as_str()) {
                Ok(b) => Some(b),
                Err(_) => None,
            },
            _ => None,
        },
        None => None,
    }
}

/// The float a float marker denotes, when the object bears one with a
/// string payload.
fn float_payload_exec(entries: &Vec<(String, JsonValue)>) -> (r: Option<CborValue>)
    ensures
        match r {
            Some(v) => float_payload(entries_dv(entries@)) == Some(v.dv()),
            None => float_payload(entries_dv(entries@)) is None,
        },
{
    let key = String::from_str("__cbor_float__");
    match obj_find(entries, &key) {
        Some(i) => match &entries[i].1 {
            JsonValue::Str(s) => {
                if *s == String::from_str("NaN") {
                    Some(CborValue::Float(NAN_BITS))
                } else if *s == String::from_str("Infinity") {
                    Some(CborValue::Float(POS_INF_BITS))
                } else if *s == String::from_str("-Infinity") {
                    Some(CborValue::Float(NEG_INF_BITS))
                } else {
                    Some(CborValue::Null)
                }
            },
            _ => None,
        },
        None => None,
    }
}

/// The tag number, when the object bears a tag marker whose value is an
/// unsigned 64-bit integer.
fn tag_number_exec(entries: &Vec<(String, JsonValue)>) -> (r: Option<u64>)
    ensures
        r == tag_number(entries_dv(entries@)),
{
    let key = String::from_str("__cbor_tag__");
    match obj_find(entries, &key) {
        Some(i) => match &entries[i].1 {
            JsonValue::Int(t) => {
                if 0 <= *t && *t <= u64::MAX as i128 {
                    Some(*t as u64)
                } else {
                    None
                }
            },
            _ => None,
        },
        None => None,
    }
}

/// Converts a JSON value back to a binary value.  Total: a malformed
/// marker degrades to the ordinary-map reading rather than failing.
#[verifier::loop_isolation(false)]
pub fn from_json(j: &JsonValue) -> (r: CborValue)
    ensures
        r.dv() == from_json_s(j.dv()),
    decreases *j,
{
    match j {
        JsonValue::Null => CborValue::Null,
        JsonValue::Bool(b) => CborValue::Bool(*b),
        JsonValue::Int(n) => CborValue::Integer(*n),
        JsonValue::Float(bits) => CborValue::Float(*bits),
        JsonValue::Str(s) => match parse_int(s.as_str()) {
            Some(n) => CborValue::Integer(n),
            None => CborValue::Text(s.clone()),
        },
        JsonValue::Array(items) => {
            let ghost target = from_json_s(j.dv())->Array_0;
            proof {
                assert(forall|k: int| 0 <= k < items@.len()
                    ==> #[trigger] target[k] == from_json_s(items@[k].dv()));
            }
            let mut out: Vec<CborValue> = Vec::new();
            let mut i: usize = 0;
            while i < items.len()
                invariant
                    i <= items@.len(),
                    out@.len() == i,
                    target.len() == items@.len(),
                    forall|k: int| 0 <= k < items@.len()
                        ==> #[trigger] target[k] == from_json_s(items@[k].dv()),
                    forall|k: int| 0 <= k < i ==> #[trigger] out@[k].dv() == target[k],
                decreases items@.len() - i,
            {
                proof {
                    assert(decreases_to!(*j => (*j)->Array_0));
                    assert(decreases_to!((*j)->Array_0 => (*j)->Array_0@));
                    assert(decreases_to!((*j)->Array_0@ => (*j)->Array_0@[i as int]));
                    assert(decreases_to!(*j => items@[i as int]));
                }
                let ci = from_json(&items[i]);
                out.push(ci);
                i = i + 1;
            }
            let r = CborValue::Array(out);
            proof {
                assert(out@.len() == items@.len());
                assert(r.dv() is Array);
                assert(r.dv()->Array_0.len() == out@.len());
                assert forall|k: int| 0 <= k < out@.len() implies r.dv()->Array_0[k]
                    == target[k] by {
                    assert(r.dv()->Array_0[k] == out@[k].dv());
                    assert(out@[k].dv() == target[k]);
                }
                assert(r.dv()->Array_0 =~= target);
                assert(r.dv() == from_json_s(j.dv()));
            }
            r
        },
        JsonValue::Object(entries) => {
            let ghost edv = j.dv()->Object_0;
            proof {
                assert(edv =~= entries_dv(entries@));
            }
            if let Some(b) = bytes_payload_exec(entries) {
                return CborValue::Bytes(b);
            }
            if let Some(fv) = float_payload_exec(entries) {
                return fv;
            }
            let tvk = String::from_str("__cbor_value__");
            let tag = tag_number_exec(entries);
            if let Some(t) = tag {
                if let Some(vi) = obj_find(entries, &tvk) {
                    proof {
                        assert(decreases_to!(*j => (*j)->Object_0));
                        assert(decreases_to!((*j)->Object_0 => (*j)->Object_0@));
                        assert(decreases_to!((*j)->Object_0@ => (*j)->Object_0@[vi as int]));
                        assert(decreases_to!((*j)->Object_0@[vi as int]
                            => (*j)->Object_0@[vi as int].1));
                    }
                    let inner = from_json(&entries[vi].1);
                    return CborValue::Tag(t, Box::new(inner));
                }
            }
            let undef = String::from_str("__cbor_undefined__");
            if let Some(_ui) = obj_find(entries, &undef) {
                return CborValue::Null;
            }
            let ghost target = from_json_dict(edv)->Dict_0;
            proof {
                assert(forall|k: int| 0 <= k < entries@.len()
                    ==> #[trigger] target[k] == (
                        CborV::Text(edv[k].0),
                        from_json_s(edv[k].1),
                    ));
            }
            let mut out: Vec<(CborValue, CborValue)> = Vec::new();
            let mut i: usize = 0;
            while i < entries.len()
                invariant
                    i <= entries@.len(),
                    out@.len() == i,
                    edv == entries_dv(entries@),
                    target.len() == entries@.len(),
                    forall|k: int| 0 <= k < entries@.len()
                        ==> #[trigger] target[k] == (
                            CborV::Text(edv[k].0),
                            from_json_s(edv[k].1),
                        ),
                    forall|k: int| 0 <= k < i ==> #[trigger] out@[k].0.dv() == target[k].0
                        && out@[k].1.dv() == target[k].1,
                decreases entries@.len() - i,
            {
                proof {
                    assert(decreases_to!(*j => (*j)->Object_0));
                    assert(decreases_to!((*j)->Object_0 => (*j)->Object_0@));
                    assert(decreases_to!((*j)->Object_0@ => (*j)->Object_0@[i as int]));
                    assert(decreases_to!((*j)->Object_0@[i as int]
                        => (*j)->Object_0@[i as int].1));
                }
                let k = entries[i].0.clone();
                let cv = from_json(&entries[i].1);
                out.push((CborValue::Text(k), cv));
                i = i + 1;
            }
            let r = CborValue::Dict(out);
            proof {
                assert(out@.len() == entries@.len());
                assert(r.dv() is Dict);
                assert(r.dv()->Dict_0.len() == out@.len());
                assert forall|k: int| 0 <= k < out@.len() implies r.dv()->Dict_0[k]
                    == target[k] by {
                    assert(r.dv()->Dict_0[k] == (out@[k].0.dv(), out@[k].1.dv()));
                    assert(out@[k].0.dv() == target[k].0 && out@[k].1.dv() == target[k].1);
                }
                assert(r.dv()->Dict_0 =~= target);
                assert(r.dv() == from_json_dict(edv));
                assert(r.dv() == from_json_s(j.dv()));
            }
            r
        },
    }
}

/// Law: each non-finite float converts to its marker object, and the
/// marker converts back: infinities exactly, and any NaN to the canonical
/// quiet NaN.
pub proof fn lemma_special_floats(bits: u64)
    requires
        !is_finite_bits(bits),
    ensures
        is_nan_bits(bits) ==> to_json_s(CborV::Float(bits))
            == JsonV::Object(seq![(float_key(), JsonV::Str("NaN"@))]),
        bits == POS_INF_BITS ==> to_json_s(CborV::Float(bits))
            == JsonV::Object(seq![(float_key(), JsonV::Str("Infinity"@))]),
        bits == NEG_INF_BITS ==> to_json_s(CborV::Float(bits))
            == JsonV::Object(seq![(float_key(), JsonV::Str("-Infinity"@))]),
        is_nan_bits(bits) ==> from_json_s(to_json_s(CborV::Float(bits)))
            == CborV::Float(NAN_BITS),
        !is_nan_bits(bits) ==> from_json_s(to_json_s(CborV::Float(bits)))
            == CborV::Float(bits),
{
    lemma_marker_keys_distinct();
    reveal_strlit("NaN");
    reveal_strlit("Infinity");
    reveal_strlit("-Infinity");
    assert(bits == 0x7ff0000000000000 || bits == 0xfff0000000000000
        || ((bits >> 52) & 0x7ff == 0x7ff && bits & 0xfffffffffffff != 0)) by (bit_vector)
        requires
            (bits >> 52) & 0x7ff == 0x7ff,
    ;
    assert((0x7ff8000000000000u64 >> 52) & 0x7ff == 0x7ff
        && 0x7ff8000000000000u64 & 0xfffffffffffff != 0) by (bit_vector);
    assert((0x7ff0000000000000u64 >> 52) & 0x7ff == 0x7ff
        && 0x7ff0000000000000u64 & 0xfffffffffffff == 0) by (bit_vector);
    assert((0xfff0000000000000u64 >> 52) & 0x7ff == 0x7ff
        && 0xfff0000000000000u64 & 0xfffffffffffff == 0) by (bit_vector);
    assert("NaN"@.len() == 3);
    assert("Infinity"@.len() == 8);
    assert("-Infinity"@.len() == 9);
    if is_nan_bits(bits) {
        lemma_obj_index_single(float_key(), JsonV::Str("NaN"@), bytes_key());
        lemma_obj_index_single(float_key(), JsonV::Str("NaN"@), float_key());
    } else if bits == POS_INF_BITS {
        lemma_obj_index_single(float_key(), JsonV::Str("Infinity"@), bytes_key());
        lemma_obj_index_single(float_key(), JsonV::Str("Infinity"@), float_key());
        assert("Infinity"@ != "NaN"@);
    } else {
        lemma_obj_index_single(float_key(), JsonV::Str("-Infinity"@), bytes_key());
        lemma_obj_index_single(float_key(), JsonV::Str("-Infinity"@), float_key());
        assert("-Infinity"@ != "NaN"@);
        assert("-Infinity"@ != "Infinity"@);
    }
}

} // verus!
