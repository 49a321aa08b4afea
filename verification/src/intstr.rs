use vstd::prelude::*;

verus! {

/// The decimal digit character for a value below ten.
pub open spec fn digit_char(v: u8) -> char {
    if v == 0 { '0' } else if v == 1 { '1' } else if v == 2 { '2' } else if v == 3 { '3' }
    else if v == 4 { '4' } else if v == 5 { '5' } else if v == 6 { '6' } else if v == 7 { '7' }
    else if v == 8 { '8' } else { '9' }
}

/// Numeric value of a decimal digit character; 255 marks a non-digit.
pub open spec fn digit_value(c: char) -> u8 {
    if c == '0' { 0 } else if c == '1' { 1 } else if c == '2' { 2 } else if c == '3' { 3 }
    else if c == '4' { 4 } else if c == '5' { 5 } else if c == '6' { 6 } else if c == '7' { 7 }
    else if c == '8' { 8 } else if c == '9' { 9 } else { 255 }
}

pub open spec fn is_digit_char(c: char) -> bool {
    digit_value(c) < 10
}

/// The decimal representation of a natural number, most significant digit first.
pub open spec fn dec_seq(n: nat) -> Seq<char>
    decreases n,
{
    if n < 10 {
        seq![digit_char(n as u8)]
    } else {
        dec_seq(n / 10) + seq![digit_char((n % 10) as u8)]
    }
}

/// The decimal representation of an integer: a minus sign for a negative
/// value, then the digits of its magnitude.
pub open spec fn int_seq(n: int) -> Seq<char> {
    if n < 0 {
        seq!['-'] + dec_seq((-n) as nat)
    } else {
        dec_seq(n as nat)
    }
}

pub open spec fn is_digit_seq(s: Seq<char>) -> bool {
    forall|i: int| 0 <= i < s.len() ==> is_digit_char(s[i])
}

/// The natural number a sequence of decimal digits denotes.
pub open spec fn digits_value(s: Seq<char>) -> nat
    decreases s.len(),
{
    if s.len() == 0 {
        0
    } else {
        digits_value(s.drop_last()) * 10 + digit_value(s.last()) as nat
    }
}

/// The integer a string denotes, if the string consists of an optional
/// minus sign followed by one or more decimal digits and the value fits a
/// signed 128-bit integer; `None` otherwise.
pub open spec fn parse_int_seq(s: Seq<char>) -> Option<i128> {
    if s.len() > 0 && s[0] == '-' {
        let d = s.skip(1);
        if d.len() > 0 && is_digit_seq(d) && digits_value(d) <= 0x80000000000000000000000000000000 {
            Some((-(digits_value(d) as int)) as i128)
        } else {
            None
        }
    } else if s.len() > 0 && is_digit_seq(s) && digits_value(s) <= i128::MAX as nat {
        Some(digits_value(s) as i128)
    } else {
        None
    }
}

fn digit_str(v: u8) -> (s: &'static str)
    requires
        v < 10,
    ensures
        s@ =~= seq![digit_char(v)],
{
    proof {
        reveal_strlit("0"); reveal_strlit("1"); reveal_strlit("2"); reveal_strlit("3");
        reveal_strlit("4"); reveal_strlit("5"); reveal_strlit("6"); reveal_strlit("7");
        reveal_strlit("8"); reveal_strlit("9");
    }
    if v == 0 { "0" } else if v == 1 { "1" } else if v == 2 { "2" } else if v == 3 { "3" }
    else if v == 4 { "4" } else if v == 5 { "5" } else if v == 6 { "6" } else if v == 7 { "7" }
    else if v == 8 { "8" } else { "9" }
}

/// Formats an unsigned 128-bit integer in decimal.
pub fn format_u128(n: u128) -> (r: String)
    ensures
        r@ == dec_seq(n as nat),
    decreases n,
{
    if n < 10 {
        let r = String::from_str(digit_str(n as u8));
        proof {
            assert(r@ =~= dec_seq(n as nat));
        }
        r
    } else {
        let q = format_u128(n / 10);
        let r = q.concat(digit_str((n % 10) as u8));
        proof {
            assert(r@ =~= dec_seq(n as nat));
        }
        r
    }
}

/// Formats a signed 128-bit integer in decimal.
pub fn format_i128(n: i128) -> (r: String)
    ensures
        r@ == int_seq(n as int),
{
    if n >= 0 {
        format_u128(n as u128)
    } else {
        let mag: u128 = ((-(n + 1)) as u128) + 1;
        proof {
            assert(mag as int == -(n as int));
        }
        let mut r = String::from_str("-");
        let digits = format_u128(mag);
        r.append(digits.as_str());
        proof {
            reveal_strlit("-");
            assert(r@ =~= int_seq(n as int));
        }
        r
    }
}

fn digit_of(c: char) -> (v: u8)
    ensures
        v == digit_value(c),
{
    if c == '0' { 0 } else if c == '1' { 1 } else if c == '2' { 2 } else if c == '3' { 3 }
    else if c == '4' { 4 } else if c == '5' { 5 } else if c == '6' { 6 } else if c == '7' { 7 }
    else if c == '8' { 8 } else if c == '9' { 9 } else { 255 }
}

/// The value a digit sequence denotes never shrinks as the sequence grows
/// to the right.
proof fn lemma_digits_value_grows(s: Seq<char>, i: int)
    requires
        0 <= i <= s.len(),
    ensures
        digits_value(s.take(i)) <= digits_value(s),
    decreases s.len() - i,
{
    if i < s.len() {
        assert(s.take(i + 1).drop_last() =~= s.take(i));
        assert(digits_value(s.take(i + 1))
            == digits_value(s.take(i)) * 10 + digit_value(s.take(i + 1).last()) as nat);
        lemma_digits_value_grows(s, i + 1);
        assert(s.take(s.len() as int) =~= s);
    } else {
        assert(s.take(s.len() as int) =~= s);
    }
}

/// Parses an optional minus sign followed by decimal digits; rejects any
/// other shape, and any value outside the signed 128-bit range.
pub fn parse_int(s: &str) -> (r: Option<i128>)
    ensures
        r == parse_int_seq(s@),
{
    let n = s.unicode_len();
    if n == 0 {
        return None;
    }
    let neg = s.get_char(0) == '-';
    let start: usize = if neg { 1 } else { 0 };
    if n == start {
        return None;
    }
    let bound: u128 = 0x80000000000000000000000000000000;
    let ghost d = if neg { s@.skip(1) } else { s@ };
    proof {
        assert(d.len() == n - start);
    }
    let mut acc: u128 = 0;
    let mut i: usize = start;
    while i < n
        invariant
            n == s@.len(),
            start <= i <= n,
            start == if neg { 1int } else { 0int },
            start < n,
            neg == (s@[0] == '-'),
            d == (if neg { s@.skip(1) } else { s@ }),
            bound == 0x80000000000000000000000000000000,
            forall|j: int| 0 <= j < i - start ==> is_digit_char(d[j]),
            acc == digits_value(d.take(i - start)),
            acc <= bound,
        decreases n - i,
    {
        let c = s.get_char(i);
        let v = digit_of(c);
        proof {
            assert(d[i - start] == s@[i as int]);
        }
        if v >= 10 {
            proof {
                assert(!is_digit_char(d[i - start]));
                assert(!is_digit_seq(d));
            }
            return None;
        }
        proof {
            assert(d.take(i + 1 - start).drop_last() =~= d.take(i - start));
            assert(d.take(i + 1 - start).last() == d[i - start]);
        }
        if acc > (bound - v as u128) / 10 {
            proof {
                assert(acc * 10 + v > bound) by {
                    let x = bound - v as u128;
                    assert(acc >= x / 10 + 1);
                    assert((x / 10 + 1) * 10 == (x / 10) * 10 + 10) by (nonlinear_arith);
                    assert(acc * 10 >= (x / 10 + 1) * 10) by (nonlinear_arith)
                        requires acc >= x / 10 + 1;
                    assert((x / 10) * 10 + x % 10 == x);
                }
                assert(digits_value(d.take(i + 1 - start)) > bound);
                lemma_digits_value_grows(d, i + 1 - start);
                assert(digits_value(d) > bound);
            }
            return None;
        }
        proof {
            assert(acc * 10 + v <= bound);
            assert(acc * 10 == (acc as int) * 10);
        }
        acc = acc * 10 + v as u128;
        i = i + 1;
    }
    proof {
        assert(d.take(n - start) =~= d);
        assert(is_digit_seq(d));
    }
    if neg {
        if acc == bound {
            Some(i128::MIN)
        } else {
            Some(-(acc as i128))
        }
    } else {
        if acc <= i128::MAX as u128 {
            Some(acc as i128)
        } else {
            None
        }
    }
}

/// The decimal representation of a natural number is a nonempty digit
/// sequence denoting the number itself.
pub proof fn lemma_dec_seq_value(n: nat)
    ensures
        dec_seq(n).len() > 0,
        is_digit_seq(dec_seq(n)),
        digits_value(dec_seq(n)) == n,
    decreases n,
{
    if n < 10 {
        assert(digits_value(dec_seq(n)) == digits_value(dec_seq(n).drop_last()) * 10
            + digit_value(dec_seq(n).last()) as nat);
        assert(dec_seq(n).drop_last() =~= Seq::<char>::empty());
    } else {
        lemma_dec_seq_value(n / 10);
        let s = dec_seq(n);
        assert(s.drop_last() =~= dec_seq(n / 10));
        assert(s.last() == digit_char((n % 10) as u8));
        assert(digits_value(s) == (n / 10) * 10 + n % 10);
        assert((n / 10) * 10 + n % 10 == n);
        assert forall|i: int| 0 <= i < s.len() implies is_digit_char(s[i]) by {
            if i < s.len() - 1 {
                assert(s[i] == dec_seq(n / 10)[i]);
            }
        }
    }
}

/// Law: parsing the decimal representation of any signed 128-bit integer
/// gives the integer back.
pub proof fn lemma_parse_int_round_trip(n: i128)
    ensures
        parse_int_seq(int_seq(n as int)) == Some(n),
{
    let s = int_seq(n as int);
    if n >= 0 {
        lemma_dec_seq_value(n as nat);
        assert(s == dec_seq(n as nat));
        assert(is_digit_char(s[0]));
        assert(s[0] != '-');
    } else {
        let mag = (-(n as int)) as nat;
        lemma_dec_seq_value(mag);
        assert(s[0] == '-');
        assert(s.skip(1) =~= dec_seq(mag));
        assert(mag <= 0x80000000000000000000000000000000);
        assert((-(digits_value(dec_seq(mag)) as int)) as i128 == n);
    }
}

} // verus!
