//! The numeric encoder: decimal text for 64-bit integers, and the JSON token
//! for a 64-bit float.
//!
//! A float is handled through its IEEE-754 bit pattern: the non-finite
//! special cases are decided here by bit tests, while the decimal text of a
//! finite value is supplied by the caller, who obtains it from a
//! shortest-round-trip rendering routine.

use vstd::prelude::*;

verus! {

/// The one-character text of a decimal digit.
pub open spec fn digit_text(d: nat) -> Seq<char> {
    if d == 0 {
        "0"@
    } else if d == 1 {
        "1"@
    } else if d == 2 {
        "2"@
    } else if d == 3 {
        "3"@
    } else if d == 4 {
        "4"@
    } else if d == 5 {
        "5"@
    } else if d == 6 {
        "6"@
    } else if d == 7 {
        "7"@
    } else if d == 8 {
        "8"@
    } else {
        "9"@
    }
}

/// The decimal digits of `v`, most significant first; empty for zero.
pub open spec fn dec_digits(v: nat) -> Seq<char>
    decreases v,
{
    if v == 0 {
        Seq::empty()
    } else {
        dec_digits(v / 10) + digit_text(v % 10)
    }
}

/// The decimal text of an unsigned value: `"0"` for zero, the digits with no
/// leading zero otherwise.
pub open spec fn u64_dec_text(v: nat) -> Seq<char> {
    if v == 0 {
        "0"@
    } else {
        dec_digits(v)
    }
}

/// The decimal text of a signed value: a leading minus sign for negatives.
pub open spec fn i64_dec_text(v: int) -> Seq<char> {
    if v >= 0 {
        u64_dec_text(v as nat)
    } else {
        "-"@ + dec_digits((-v) as nat)
    }
}

/// Whether the double with bit pattern `bits` is a NaN: exponent all ones,
/// mantissa nonzero.
pub open spec fn f64_bits_is_nan(bits: u64) -> bool {
    (bits >> 52) & 0x7ff == 0x7ff && bits & 0xf_ffff_ffff_ffff != 0
}

/// Whether the double with bit pattern `bits` is positive infinity.
pub open spec fn f64_bits_is_pos_inf(bits: u64) -> bool {
    bits == 0x7ff0_0000_0000_0000
}

/// Whether the double with bit pattern `bits` is negative infinity.
pub open spec fn f64_bits_is_neg_inf(bits: u64) -> bool {
    bits == 0xfff0_0000_0000_0000
}

/// The JSON token for the double with bit pattern `bits`: quoted sentinel
/// tokens for the non-finite values, the given decimal text otherwise.
pub open spec fn f64_token_text(bits: u64, finite_text: Seq<char>) -> Seq<char> {
    if f64_bits_is_nan(bits) {
        "\"Nan\""@
    } else if f64_bits_is_pos_inf(bits) {
        "\"Infinity\""@
    } else if f64_bits_is_neg_inf(bits) {
        "\"-Infinity\""@
    } else {
        finite_text
    }
}

/// The one-character string for a decimal digit.
fn digit_str(d: u64) -> (r: &'static str)
    requires
        d < 10,
    ensures
        r@ == digit_text(d as nat),
{
    if d == 0 {
        "0"
    } else if d == 1 {
        "1"
    } else if d == 2 {
        "2"
    } else if d == 3 {
        "3"
    } else if d == 4 {
        "4"
    } else if d == 5 {
        "5"
    } else if d == 6 {
        "6"
    } else if d == 7 {
        "7"
    } else if d == 8 {
        "8"
    } else {
        "9"
    }
}

/// Appends the decimal digits of `val` to `out`, most significant first;
/// appends nothing for zero.
pub fn utoa_alg(out: &mut String, val: u64)
    ensures
        final(out)@ == old(out)@ + dec_digits(val as nat),
    decreases val,
{
    if val > 0 {
        utoa_alg(out, val / 10);
        out.append(digit_str(val % 10));
        proof {
            assert(out@ =~= old(out)@ + dec_digits(val as nat));
        }
    } else {
        proof {
            assert(out@ =~= old(out)@ + dec_digits(0));
        }
    }
}

/// The decimal text of an unsigned 64-bit value.
pub fn utoa_base10(val: u64) -> (r: String)
    ensures
        r@ == u64_dec_text(val as nat),
{
    if val == 0 {
        String::from_str("0")
    } else {
        let mut s = String::new();
        utoa_alg(&mut s, val);
        proof {
            assert(s@ =~= u64_dec_text(val as nat));
        }
        s
    }
}

/// The decimal text of a signed 64-bit value.  The magnitude of `i64::MIN`
/// does not fit in `i64`, so it is written as its known unsigned value
/// rather than computed by negation.
pub fn itoa_base10(val: i64) -> (r: String)
    ensures
        r@ == i64_dec_text(val as int),
{
    if val >= 0 {
        utoa_base10(val as u64)
    } else {
        let mag: u64 = if val == i64::MIN {
            9223372036854775808
        } else {
            (-val) as u64
        };
        let mut s = String::from_str("-");
        utoa_alg(&mut s, mag);
        proof {
            assert(s@ =~= i64_dec_text(val as int));
        }
        s
    }
}

/// The JSON token for the double with bit pattern `bits`.  NaN, positive
/// infinity and negative infinity render as the quoted tokens `"Nan"`,
/// `"Infinity"` and `"-Infinity"`, whatever `finite_text` holds; a finite
/// value renders as `finite_text`, which the caller obtains from a
/// shortest-round-trip decimal rendering of the same double.
pub fn f64_to_str(bits: u64, finite_text: String) -> (r: String)
    ensures
        r@ == f64_token_text(bits, finite_text@),
{
    if (bits >> 52) & 0x7ff == 0x7ff && bits & 0xf_ffff_ffff_ffff != 0 {
        String::from_str("\"Nan\"")
    } else if bits == 0x7ff0_0000_0000_0000 {
        String::from_str("\"Infinity\"")
    } else if bits == 0xfff0_0000_0000_0000 {
        String::from_str("\"-Infinity\"")
    } else {
        finite_text
    }
}

/// The value of one decimal digit character; 10 for any other character.
pub open spec fn digit_value(c: char) -> nat {
    if c == '0' {
        0
    } else if c == '1' {
        1
    } else if c == '2' {
        2
    } else if c == '3' {
        3
    } else if c == '4' {
        4
    } else if c == '5' {
        5
    } else if c == '6' {
        6
    } else if c == '7' {
        7
    } else if c == '8' {
        8
    } else if c == '9' {
        9
    } else {
        10
    }
}

/// The unsigned value of a sequence of decimal digit characters.
pub open spec fn parse_dec(s: Seq<char>) -> nat
    decreases s.len(),
{
    if s.len() == 0 {
        0
    } else {
        parse_dec(s.drop_last()) * 10 + digit_value(s.last())
    }
}

/// The signed value of decimal text with an optional leading minus sign.
pub open spec fn parse_signed_dec(s: Seq<char>) -> int {
    if s.len() > 0 && s[0] == '-' {
        -(parse_dec(s.subrange(1, s.len() as int)) as int)
    } else {
        parse_dec(s) as int
    }
}

proof fn lemma_digit_text(d: nat)
    requires
        d < 10,
    ensures
        digit_text(d).len() == 1,
        digit_value(digit_text(d)[0]) == d,
        d != 0 ==> digit_text(d)[0] != '0',
        digit_text(d)[0] != '-',
{
    reveal_strlit("0");
    reveal_strlit("1");
    reveal_strlit("2");
    reveal_strlit("3");
    reveal_strlit("4");
    reveal_strlit("5");
    reveal_strlit("6");
    reveal_strlit("7");
    reveal_strlit("8");
    reveal_strlit("9");
}

proof fn lemma_dec_digits_round_trip(v: nat)
    ensures
        parse_dec(dec_digits(v)) == v,
        v > 0 ==> dec_digits(v).len() > 0,
        v > 0 ==> dec_digits(v)[0] != '0' && dec_digits(v)[0] != '-',
    decreases v,
{
    if v > 0 {
        lemma_dec_digits_round_trip(v / 10);
        lemma_digit_text(v % 10);
        let s = dec_digits(v);
        assert(s.drop_last() =~= dec_digits(v / 10));
        assert(s.last() == digit_text(v % 10)[0]);
        if v / 10 == 0 {
            assert(s[0] == digit_text(v % 10)[0]);
        } else {
            assert(s[0] == dec_digits(v / 10)[0]);
        }
    }
}

/// Law: the decimal text of an unsigned 64-bit value, parsed back as a
/// base-10 integer, is the value again, and the text has no leading zero
/// except for the value zero itself.
pub proof fn lemma_unsigned_decimal_round_trip(v: u64)
    ensures
        parse_dec(u64_dec_text(v as nat)) == v,
        u64_dec_text(v as nat).len() > 0,
        v != 0 ==> u64_dec_text(v as nat)[0] != '0',
        v == 0 ==> u64_dec_text(v as nat) == "0"@,
{
    if v == 0 {
        reveal_strlit("0");
        let s = u64_dec_text(0);
        assert(s.drop_last() =~= Seq::<char>::empty());
        assert(parse_dec(s) == parse_dec(s.drop_last()) * 10 + digit_value(s.last()));
    } else {
        lemma_dec_digits_round_trip(v as nat);
    }
}

/// Law: the decimal text of a signed 64-bit value, `i64::MIN` included,
/// parsed back as a signed base-10 integer, is the value again.
pub proof fn lemma_signed_decimal_round_trip(v: i64)
    ensures
        parse_signed_dec(i64_dec_text(v as int)) == v,
{
    if v >= 0 {
        lemma_unsigned_decimal_round_trip(v as u64);
        if v == 0 {
            reveal_strlit("0");
        } else {
            lemma_dec_digits_round_trip(v as nat);
        }
        assert(i64_dec_text(v as int)[0] != '-');
    } else {
        reveal_strlit("-");
        let m: nat = (-(v as int)) as nat;
        lemma_dec_digits_round_trip(m);
        let s = i64_dec_text(v as int);
        assert(s[0] == '-');
        assert(s.subrange(1, s.len() as int) =~= dec_digits(m));
    }
}

} // verus!

