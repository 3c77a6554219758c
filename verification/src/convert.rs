//! The digit converter: an unsigned 128-bit value to a digit string in a
//! radix from 2 to 32, and the matching numeral parser.

use vstd::prelude::*;
use vstd::arithmetic::div_mod::{lemma_div_decreases, lemma_fundamental_div_mod};
use vstd::string::{StrSliceExecFns, StringExecFns};

verus! {

/// A radix the converter supports: 2 through 32 inclusive.
pub open spec fn valid_radix(b: u32) -> bool {
    2 <= b <= 32
}

/// The character for one digit value: `0`-`9` for 0 through 9, then `A`-`V`
/// for 10 through 31.
pub open spec fn digit_char(d: nat) -> char
    recommends
        d < 32,
{
    if d < 10 {
        ((d + 48) as u8) as char
    } else {
        ((d + 55) as u8) as char
    }
}

/// The digit value a character stands for, case-insensitive; 36 for a
/// character that is no digit at all, so that it exceeds every radix in range.
pub open spec fn digit_value(c: char) -> nat {
    if '0' <= c && c <= '9' {
        (c as int - 48) as nat
    } else if 'A' <= c && c <= 'Z' {
        (c as int - 55) as nat
    } else if 'a' <= c && c <= 'z' {
        (c as int - 87) as nat
    } else {
        36
    }
}

/// Whether `c` is a digit of radix `b`.
pub open spec fn is_digit(c: char, b: nat) -> bool {
    digit_value(c) < b
}

/// Whether every character of `s` is a digit of radix `b`.
pub open spec fn all_digits(s: Seq<char>, b: nat) -> bool {
    forall|i: int| 0 <= i < s.len() ==> is_digit(s[i], b)
}

/// The base-`b` digit string of `v`, most significant digit first.
/// The digit string of zero is empty.
pub open spec fn digits_of(v: nat, b: nat) -> Seq<char>
    recommends
        2 <= b,
    decreases v,
    via digits_of_decreases
{
    if v == 0 || b < 2 {
        Seq::empty()
    } else {
        digits_of(v / b, b).push(digit_char(v % b))
    }
}

#[via_fn]
proof fn digits_of_decreases(v: nat, b: nat) {
    if !(v == 0 || b < 2) {
        lemma_div_decreases(v as int, b as int);
    }
}

/// The value of a digit string read most significant digit first.
pub open spec fn digits_value(s: Seq<char>, b: nat) -> nat
    decreases s.len(),
{
    if s.len() == 0 {
        0
    } else {
        digits_value(s.drop_last(), b) * b + digit_value(s.last())
    }
}

/// The digit part of a numeral: one leading `+` sign, if any, is skipped.
pub open spec fn numeral_body(s: Seq<char>) -> Seq<char> {
    if s.len() > 0 && s[0] == '+' {
        s.drop_first()
    } else {
        s
    }
}

/// Whether `s` is a well-formed numeral in radix `b`: at most one leading
/// `+`, then at least one digit, and nothing but digits of `b`.
pub open spec fn numeral_ok(s: Seq<char>, b: nat) -> bool {
    numeral_body(s).len() > 0 && all_digits(numeral_body(s), b)
}

/// The value of a well-formed numeral in radix `b`.
pub open spec fn numeral_value(s: Seq<char>, b: nat) -> nat {
    digits_value(numeral_body(s), b)
}

/// The one failure of the digit converter: a radix outside 2 through 32.
#[derive(Clone, Copy, Debug, PartialEq, Eq, Structural)]
pub enum ConvertError {
    RadixOutOfRange,
}

/// Relies on `String::push`, which appends the given character to the end
/// of the string.
#[verifier::external_body]
pub(crate) fn push_char(s: &mut String, c: char)
    ensures
        final(s)@ == old(s)@.push(c),
{
    s.push(c);
}

/// The character for a digit value below 32.
pub fn digit_to_char(d: u8) -> (c: char)
    requires
        d < 32,
    ensures
        c == digit_char(d as nat),
{
    if d < 10 {
        (d + 48) as char
    } else {
        (d + 55) as char
    }
}

/// Converts `*num` to its digit string in radix `base`, most significant
/// digit first; zero becomes the empty string. Every radix outside 2
/// through 32 is rejected with `RadixOutOfRange`.
pub fn as_string_base(num: &u128, base: u32) -> (r: Result<String, ConvertError>)
    ensures
        match r {
            Ok(s) => valid_radix(base) && s@ == digits_of(*num as nat, base as nat),
            Err(e) => !valid_radix(base) && e == ConvertError::RadixOutOfRange,
        },
{
    if base < 2 || base > 32 {
        return Err(ConvertError::RadixOutOfRange);
    }
    let b128: u128 = base as u128;
    let ghost bn: nat = base as nat;
    let mut str_num = String::new();
    let mut tmp: u128 = *num;
    while tmp > 0
        invariant
            2 <= base <= 32,
            b128 == base as u128,
            bn == base as nat,
            digits_of(*num as nat, bn) =~= digits_of(tmp as nat, bn) + str_num@,
        decreases tmp,
    {
        let d: u8 = (tmp % b128) as u8;
        let ch = digit_to_char(d);
        let mut piece = String::new();
        push_char(&mut piece, ch);
        let joined = piece.concat(str_num.as_str());
        proof {
            assert(digits_of(tmp as nat, bn) == digits_of((tmp / b128) as nat, bn).push(
                digit_char(d as nat),
            ));
            assert(digits_of((tmp / b128) as nat, bn) + joined@ =~= digits_of(tmp as nat, bn)
                + str_num@);
            lemma_div_decreases(tmp as int, b128 as int);
        }
        str_num = joined;
        tmp = tmp / b128;
    }
    proof {
        assert(str_num@ =~= digits_of(*num as nat, bn));
    }
    Ok(str_num)
}

/// Decodes one character as a digit of radix `base`, either case.
pub fn char_digit(c: char, base: u32) -> (r: Option<u8>)
    requires
        valid_radix(base),
    ensures
        match r {
            Some(d) => is_digit(c, base as nat) && d as nat == digit_value(c),
            None => !is_digit(c, base as nat),
        },
{
    let u = c as u32;
    let d: u32 = if 48 <= u && u <= 57 {
        u - 48
    } else if 65 <= u && u <= 90 {
        u - 55
    } else if 97 <= u && u <= 122 {
        u - 87
    } else {
        return None;
    };
    if d < base {
        Some(d as u8)
    } else {
        None
    }
}

/// A prefix of a digit string is never worth more than the whole.
proof fn lemma_digits_value_prefix_le(s: Seq<char>, b: nat, i: int, j: int)
    requires
        1 <= b,
        0 <= i <= j <= s.len(),
    ensures
        digits_value(s.take(i), b) <= digits_value(s.take(j), b),
    decreases j - i,
{
    if i < j {
        lemma_digits_value_prefix_le(s, b, i, j - 1);
        assert(s.take(j).drop_last() =~= s.take(j - 1));
        let prev = digits_value(s.take(j - 1), b);
        assert(digits_value(s.take(j), b) == prev * b + digit_value(s.take(j).last()));
        assert(prev <= prev * b) by (nonlinear_arith)
            requires
                b >= 1,
        ;
    }
}

/// Parses a numeral in radix `base`: one optional leading `+`, then at
/// least one digit, either case. Yields the value exactly when the numeral
/// is well formed and its value fits in 128 bits.
pub fn parse_in_radix(s: &str, base: u32) -> (r: Option<u128>)
    requires
        valid_radix(base),
    ensures
        match r {
            Some(v) => numeral_ok(s@, base as nat) && v as nat == numeral_value(s@, base as nat),
            None => !(numeral_ok(s@, base as nat) && numeral_value(s@, base as nat) <= u128::MAX),
        },
{
    let ghost bn: nat = base as nat;
    let n = s.unicode_len();
    if n == 0 {
        return None;
    }
    let start: usize = if s.get_char(0) == '+' {
        1
    } else {
        0
    };
    if n == start {
        return None;
    }
    let ghost body: Seq<char> = numeral_body(s@);
    proof {
        assert(body =~= s@.skip(start as int));
    }
    let mut v: u128 = 0;
    let mut i: usize = start;
    while i < n
        invariant
            valid_radix(base),
            bn == base as nat,
            start <= i <= n,
            n == s@.len(),
            start < n,
            body == numeral_body(s@),
            body =~= s@.skip(start as int),
            all_digits(body.take(i - start), bn),
            v as nat == digits_value(body.take(i - start), bn),
        decreases n - i,
    {
        let c = s.get_char(i);
        let ghost pos: int = i - start;
        proof {
            assert(body[pos] == s@[i as int]);
        }
        let d: u8 = match char_digit(c, base) {
            Some(d) => d,
            None => {
                proof {
                    assert(!is_digit(body[pos], bn));
                }
                return None;
            },
        };
        let prod: u128 = match v.checked_mul(base as u128) {
            Some(p) => p,
            None => {
                proof {
                    lemma_value_step(body, bn, pos);
                    assert(digits_value(body.take(pos + 1), bn) > u128::MAX) by (nonlinear_arith)
                        requires
                            digits_value(body.take(pos + 1), bn) == digits_value(
                                body.take(pos),
                                bn,
                            ) * bn + digit_value(body[pos]),
                            (v as nat) * bn > u128::MAX,
                            v as nat == digits_value(body.take(pos), bn),
                    ;
                    lemma_digits_value_prefix_le(body, bn, pos + 1, body.len() as int);
                    assert(body.take(body.len() as int) =~= body);
                }
                return None;
            },
        };
        let next: u128 = match prod.checked_add(d as u128) {
            Some(x) => x,
            None => {
                proof {
                    lemma_value_step(body, bn, pos);
                    lemma_digits_value_prefix_le(body, bn, pos + 1, body.len() as int);
                    assert(body.take(body.len() as int) =~= body);
                }
                return None;
            },
        };
        proof {
            lemma_value_step(body, bn, pos);
        }
        v = next;
        i = i + 1;
    }
    proof {
        assert(body.take(n - start) =~= body);
    }
    Some(v)
}

/// One parsing step: the value of a prefix one digit longer.
proof fn lemma_value_step(s: Seq<char>, b: nat, i: int)
    requires
        0 <= i < s.len(),
    ensures
        digits_value(s.take(i + 1), b) == digits_value(s.take(i), b) * b + digit_value(s[i]),
        all_digits(s.take(i), b) && is_digit(s[i], b) ==> all_digits(s.take(i + 1), b),
{
    assert(s.take(i + 1).drop_last() =~= s.take(i));
    assert(s.take(i + 1).last() == s[i]);
    if all_digits(s.take(i), b) && is_digit(s[i], b) {
        assert forall|j: int| 0 <= j < i + 1 implies is_digit(#[trigger] s.take(i + 1)[j], b) by {
            if j < i {
                assert(s.take(i + 1)[j] == s.take(i)[j]);
            }
        }
    }
}

/// What the digit alphabet does on one digit: reading the character back
/// gives the digit, the character is never a sign, and only the zero digit
/// maps to `0`.
proof fn lemma_digit_char_value(d: nat)
    requires
        d < 32,
    ensures
        digit_value(digit_char(d)) == d,
        digit_char(d) != '+',
        (d == 0 <==> digit_char(d) == '0'),
{
}

/// Law: every character the converter emits is a digit below the radix, the
/// digit string of a positive value is non-empty, and it never starts with
/// a leading zero (nor a sign).
pub proof fn lemma_digits_of_wf(v: nat, b: nat)
    requires
        2 <= b <= 32,
    ensures
        all_digits(digits_of(v, b), b),
        v > 0 ==> digits_of(v, b).len() > 0,
        v > 0 ==> digits_of(v, b)[0] != '0',
        v > 0 ==> digits_of(v, b)[0] != '+',
    decreases v,
{
    if v > 0 {
        lemma_div_decreases(v as int, b as int);
        lemma_digits_of_wf(v / b, b);
        lemma_digit_char_value(v % b);
        lemma_fundamental_div_mod(v as int, b as int);
        let prefix = digits_of(v / b, b);
        assert(digits_of(v, b) == prefix.push(digit_char(v % b)));
        assert forall|i: int| 0 <= i < digits_of(v, b).len() implies is_digit(
            #[trigger] digits_of(v, b)[i],
            b,
        ) by {
            if i < prefix.len() {
                assert(digits_of(v, b)[i] == prefix[i]);
            }
        }
        if v / b == 0 {
            assert(v % b == v);
        } else {
            assert(digits_of(v, b)[0] == prefix[0]);
        }
    }
}

/// Law: reading the converter's digit string back, digit by digit, yields
/// the value it came from, for every value and every radix in range.
pub proof fn lemma_digits_round_trip(v: nat, b: nat)
    requires
        2 <= b <= 32,
    ensures
        digits_value(digits_of(v, b), b) == v,
    decreases v,
{
    if v > 0 {
        lemma_div_decreases(v as int, b as int);
        lemma_digits_round_trip(v / b, b);
        lemma_digit_char_value(v % b);
        lemma_fundamental_div_mod(v as int, b as int);
        let ds = digits_of(v, b);
        assert(ds == digits_of(v / b, b).push(digit_char(v % b)));
        assert(ds.len() > 0);
        assert(ds.drop_last() =~= digits_of(v / b, b));
        assert(ds.last() == digit_char(v % b));
        assert(digits_value(ds, b) == digits_value(ds.drop_last(), b) * b + digit_value(ds.last()));
        assert(digits_value(ds.drop_last(), b) == v / b);
        assert(digit_value(ds.last()) == v % b);
        assert(v == b * (v / b) + v % b);
    }
}

/// Law: for every positive value and every radix in [2, 32], the digit
/// string parses back, as a numeral in the same radix, to the value itself.
/// (Zero is left out: its digit string is empty, which is no numeral — the
/// documented quirk of the converter.)
pub proof fn lemma_round_trip(v: nat, b: nat)
    requires
        2 <= b <= 32,
        1 <= v,
    ensures
        numeral_ok(digits_of(v, b), b),
        numeral_value(digits_of(v, b), b) == v,
{
    lemma_digits_of_wf(v, b);
    lemma_digits_round_trip(v, b);
    assert(numeral_body(digits_of(v, b)) == digits_of(v, b));
}

/// Law: the digit string of zero is empty, whatever the radix.
pub proof fn lemma_zero_digits(b: nat)
    ensures
        digits_of(0, b) == Seq::<char>::empty(),
{
}

} // verus!
