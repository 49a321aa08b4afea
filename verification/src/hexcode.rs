use vstd::prelude::*;

use crate::errors::BridgeError;

verus! {

/// The lowercase hexadecimal digit character for a value below sixteen.
pub open spec fn hex_digit(v: u8) -> char {
    if v == 0 { '0' } else if v == 1 { '1' } else if v == 2 { '2' } else if v == 3 { '3' }
    else if v == 4 { '4' } else if v == 5 { '5' } else if v == 6 { '6' } else if v == 7 { '7' }
    else if v == 8 { '8' } else if v == 9 { '9' } else if v == 10 { 'a' } else if v == 11 { 'b' }
    else if v == 12 { 'c' } else if v == 13 { 'd' } else if v == 14 { 'e' } else { 'f' }
}

/// Numeric value of a hexadecimal digit character, upper or lower case;
/// 255 marks a character that is no hexadecimal digit.
pub open spec fn hex_char_value(c: char) -> u8 {
    if c == '0' { 0 } else if c == '1' { 1 } else if c == '2' { 2 } else if c == '3' { 3 }
    else if c == '4' { 4 } else if c == '5' { 5 } else if c == '6' { 6 } else if c == '7' { 7 }
    else if c == '8' { 8 } else if c == '9' { 9 }
    else if c == 'a' || c == 'A' { 10 } else if c == 'b' || c == 'B' { 11 }
    else if c == 'c' || c == 'C' { 12 } else if c == 'd' || c == 'D' { 13 }
    else if c == 'e' || c == 'E' { 14 } else if c == 'f' || c == 'F' { 15 }
    else { 255 }
}

pub open spec fn is_hex_char(c: char) -> bool {
    hex_char_value(c) < 16
}

/// The hexadecimal encoding of a byte sequence: two lowercase digits per byte.
pub open spec fn hex_seq(b: Seq<u8>) -> Seq<char>
    decreases b.len(),
{
    if b.len() == 0 {
        Seq::empty()
    } else {
        hex_seq(b.drop_last()) + seq![hex_digit(b.last() / 16), hex_digit(b.last() % 16)]
    }
}

/// A string is decodable hex when its length is even and every character
/// is a hexadecimal digit.
pub open spec fn hex_ok(s: Seq<char>) -> bool {
    s.len() % 2 == 0 && forall|i: int| 0 <= i < s.len() ==> is_hex_char(s[i])
}

/// The bytes that a decodable hex string denotes.
pub open spec fn hex_decode_seq(s: Seq<char>) -> Seq<u8> {
    Seq::new(
        (s.len() / 2) as nat,
        |i: int| (hex_char_value(s[2 * i]) * 16 + hex_char_value(s[2 * i + 1])) as u8,
    )
}

fn hex_digit_str(v: u8) -> (s: &'static str)
    requires
        v < 16,
    ensures
        s@ =~= seq![hex_digit(v)],
{
    proof {
        reveal_strlit("0"); reveal_strlit("1"); reveal_strlit("2"); reveal_strlit("3");
        reveal_strlit("4"); reveal_strlit("5"); reveal_strlit("6"); reveal_strlit("7");
        reveal_strlit("8"); reveal_strlit("9"); reveal_strlit("a"); reveal_strlit("b");
        reveal_strlit("c"); reveal_strlit("d"); reveal_strlit("e"); reveal_strlit("f");
    }
    if v == 0 { "0" } else if v == 1 { "1" } else if v == 2 { "2" } else if v == 3 { "3" }
    else if v == 4 { "4" } else if v == 5 { "5" } else if v == 6 { "6" } else if v == 7 { "7" }
    else if v == 8 { "8" } else if v == 9 { "9" } else if v == 10 { "a" } else if v == 11 { "b" }
    else if v == 12 { "c" } else if v == 13 { "d" } else if v == 14 { "e" } else { "f" }
}

/// Encodes a byte sequence as a lowercase hexadecimal string.
pub fn hex_encode(bytes: &Vec<u8>) -> (r: String)
    ensures
        r@ == hex_seq(bytes@),
{
    let mut r = String::new();
    let mut i: usize = 0;
    while i < bytes.len()
        invariant
            i <= bytes.len(),
            r@ == hex_seq(bytes@.take(i as int)),
        decreases bytes.len() - i,
    {
        let b = bytes[i];
        r.append(hex_digit_str(b / 16));
        r.append(hex_digit_str(b % 16));
        proof {
            let pre = bytes@.take(i + 1 as int);
            assert(pre.drop_last() =~= bytes@.take(i as int));
            assert(pre.last() == bytes@[i as int]);
            assert(r@ =~= hex_seq(pre));
        }
        i = i + 1;
    }
    proof {
        assert(bytes@.take(bytes@.len() as int) =~= bytes@);
    }
    r
}

fn hex_value(c: char) -> (v: u8)
    ensures
        v == hex_char_value(c),
{
    if c == '0' { 0 } else if c == '1' { 1 } else if c == '2' { 2 } else if c == '3' { 3 }
    else if c == '4' { 4 } else if c == '5' { 5 } else if c == '6' { 6 } else if c == '7' { 7 }
    else if c == '8' { 8 } else if c == '9' { 9 }
    else if c == 'a' || c == 'A' { 10 } else if c == 'b' || c == 'B' { 11 }
    else if c == 'c' || c == 'C' { 12 } else if c == 'd' || c == 'D' { 13 }
    else if c == 'e' || c == 'E' { 14 } else if c == 'f' || c == 'F' { 15 }
    else { 255 }
}

/// Decodes a hexadecimal string, upper or lower case.  Rejects a string of
/// odd length, or one holding a character outside the hexadecimal digits.
pub fn hex_decode(s: &str) -> (r: Result<Vec<u8>, BridgeError>)
    ensures
        hex_ok(s@) ==> (r matches Ok(b) && b@ == hex_decode_seq(s@)),
        !hex_ok(s@) ==> (r matches Err(e) && e == BridgeError::InvalidHex),
{
    let n = s.unicode_len();
    if n % 2 != 0 {
        return Err(BridgeError::InvalidHex);
    }
    let mut out: Vec<u8> = Vec::new();
    let mut i: usize = 0;
    while i < n
        invariant
            n == s@.len(),
            n % 2 == 0,
            i % 2 == 0,
            i <= n,
            forall|j: int| 0 <= j < i ==> is_hex_char(s@[j]),
            out@.len() == i / 2,
            forall|k: int| 0 <= k < out@.len()
                ==> out@[k] == (hex_char_value(s@[2 * k]) * 16 + hex_char_value(s@[2 * k + 1])) as u8,
        decreases n - i,
    {
        let hi = hex_value(s.get_char(i));
        let lo = hex_value(s.get_char(i + 1));
        if hi >= 16 || lo >= 16 {
            return Err(BridgeError::InvalidHex);
        }
        out.push(hi * 16 + lo);
        i = i + 2;
    }
    proof {
        assert(out@ =~= hex_decode_seq(s@));
    }
    Ok(out)
}

/// Every character the hexadecimal encoding emits is a lowercase
/// hexadecimal digit, and the encoding of a byte sequence is even in length.
pub proof fn lemma_hex_seq_ok(b: Seq<u8>)
    ensures
        hex_ok(hex_seq(b)),
        hex_seq(b).len() == 2 * b.len(),
    decreases b.len(),
{
    if b.len() > 0 {
        lemma_hex_seq_ok(b.drop_last());
    }
}

/// Law: decoding the hexadecimal encoding of any byte sequence gives the
/// sequence back.
pub proof fn lemma_hex_round_trip(b: Seq<u8>)
    ensures
        hex_ok(hex_seq(b)),
        hex_decode_seq(hex_seq(b)) == b,
    decreases b.len(),
{
    lemma_hex_seq_ok(b);
    if b.len() == 0 {
        assert(hex_decode_seq(hex_seq(b)) =~= b);
    } else {
        lemma_hex_round_trip(b.drop_last());
        let s = hex_seq(b);
        let pre = hex_seq(b.drop_last());
        lemma_hex_seq_ok(b.drop_last());
        assert forall|i: int| 0 <= i < b.len() implies hex_decode_seq(s)[i] == b[i] by {
            let x = b.last();
            if i < b.len() - 1 {
                assert(s[2 * i] == pre[2 * i]);
                assert(s[2 * i + 1] == pre[2 * i + 1]);
                assert(hex_decode_seq(pre)[i] == b.drop_last()[i]);
            } else {
                assert(s[2 * i] == hex_digit(x / 16));
                assert(s[2 * i + 1] == hex_digit(x % 16));
                assert(hex_char_value(hex_digit(x / 16)) == x / 16);
                assert(hex_char_value(hex_digit(x % 16)) == x % 16);
            }
        }
        assert(hex_decode_seq(s) =~= b);
    }
}

pub open spec fn is_lower_hex_char(c: char) -> bool {
    is_hex_char(c) && hex_digit(hex_char_value(c)) == c
}

/// Law: encoding the bytes that an even-length lowercase hexadecimal string
/// denotes gives the string back.
pub proof fn lemma_hex_round_trip_str(s: Seq<char>)
    requires
        s.len() % 2 == 0,
        forall|i: int| 0 <= i < s.len() ==> is_lower_hex_char(s[i]),
    ensures
        hex_seq(hex_decode_seq(s)) == s,
    decreases s.len(),
{
    let b = hex_decode_seq(s);
    if s.len() == 0 {
        assert(hex_seq(b) =~= s);
    } else {
        let t = s.take(s.len() - 2);
        lemma_hex_round_trip_str(t);
        assert(hex_decode_seq(t) =~= b.drop_last());
        let x = b.last();
        let chi = s[s.len() - 2];
        let clo = s[s.len() - 1];
        assert(x == (hex_char_value(chi) * 16 + hex_char_value(clo)) as u8);
        assert(x / 16 == hex_char_value(chi) && x % 16 == hex_char_value(clo)) by {
            assert(hex_char_value(chi) < 16 && hex_char_value(clo) < 16);
        }
        assert(hex_digit(x / 16) == chi);
        assert(hex_digit(x % 16) == clo);
        assert(hex_seq(b) =~= s);
    }
}

} // verus!
