//! Decimal numbers in the 32-bit unsigned range.
//!
//! A numeric field is a run of decimal digits, optionally preceded by a
//! single `+`. Leading zeros are allowed; a sign alone, an empty field, any
//! other character, or a value above `u32::MAX` makes the field malformed.

use crate::text::texts;
use vstd::prelude::*;
use vstd::std_specs::iter::IteratorSpec;

verus! {

/// Whether `c` is one of the decimal digits `0` to `9`.
pub open spec fn is_digit(c: char) -> bool {
    '0' <= c <= '9'
}

/// The value of the decimal digit `c`.
pub open spec fn digit_value(c: char) -> nat
    recommends
        is_digit(c),
{
    (c as u32 - '0' as u32) as nat
}

/// Whether every character of `s` is a decimal digit.
pub open spec fn all_digits(s: Seq<char>) -> bool {
    forall|i: int| 0 <= i < s.len() ==> is_digit(#[trigger] s[i])
}

/// The number that the digit string `s` denotes in base ten; the empty string denotes zero.
pub open spec fn decimal_value(s: Seq<char>) -> nat
    recommends
        all_digits(s),
    decreases s.len(),
{
    if s.len() == 0 {
        0
    } else {
        decimal_value(s.drop_last()) * 10 + digit_value(s.last())
    }
}

/// The digits of a numeric field: the field itself, without a leading `+` if it has one.
pub open spec fn digits_of(field: Seq<char>) -> Seq<char> {
    if field.len() > 0 && field[0] == '+' {
        field.drop_first()
    } else {
        field
    }
}

/// The number that a field denotes, if it is a well-formed number that fits in 32 bits.
pub open spec fn number_of(field: Seq<char>) -> Option<u32> {
    let digits = digits_of(field);
    if digits.len() > 0 && all_digits(digits) && decimal_value(digits) <= u32::MAX {
        Some(decimal_value(digits) as u32)
    } else {
        None
    }
}

/// The number in field `i` of a line, if the line has such a field and the
/// field is a number.
pub open spec fn number_at(fields: Seq<Seq<char>>, i: int) -> Option<u32> {
    if 0 <= i < fields.len() {
        number_of(fields[i])
    } else {
        None
    }
}

/// A field of one digit denotes the value of that digit.
pub proof fn lemma_number_of_digit(field: Seq<char>)
    requires
        field.len() == 1,
        is_digit(field[0]),
    ensures
        number_of(field) == Some(digit_value(field[0]) as u32),
{
    assert(digits_of(field) =~= field);
    assert(field.drop_last() =~= Seq::<char>::empty());
    reveal_with_fuel(decimal_value, 2);
}

/// A field that starts with anything but a digit or `+` is no number.
pub proof fn lemma_number_starts_with_digit(field: Seq<char>)
    requires
        field.len() > 0,
        !is_digit(field[0]),
        field[0] != '+',
    ensures
        number_of(field) is None,
{
    assert(digits_of(field) =~= field);
}

/// A digit string denotes at least as much as any of its prefixes.
pub proof fn lemma_decimal_value_prefix(s: Seq<char>, n: int)
    requires
        0 <= n <= s.len(),
    ensures
        decimal_value(s.subrange(0, n)) <= decimal_value(s),
    decreases s.len(),
{
    if n == s.len() {
        assert(s.subrange(0, n) =~= s);
    } else {
        assert(s.drop_last().subrange(0, n) =~= s.subrange(0, n));
        lemma_decimal_value_prefix(s.drop_last(), n);
    }
}

/// Reads a numeric field: `Some` of its value where the field is a number
/// that fits in 32 bits, `None` otherwise.
pub fn parse_number(field: &str) -> (r: Option<u32>)
    ensures
        r == number_of(field@),
{
    // The value of the digits read so far.
    let mut acc: u32 = 0;
    // Whether no character has been read yet, and whether a digit has been.
    let mut first: bool = true;
    let mut any: bool = false;
    // Where the digits start: after the sign, if there is one.
    let ghost skip: int = if field@.len() > 0 && field@[0] == '+' { 1 } else { 0 };
    for c in it: field.chars()
        invariant
            it.seq() == field@,
            skip == if field@.len() > 0 && field@[0] == '+' { 1int } else { 0int },
            first == (it.index() == 0),
            any == (it.index() > skip),
            it.index() >= skip ==> all_digits(field@.subrange(skip, it.index() as int)),
            it.index() >= skip ==> acc == decimal_value(field@.subrange(skip, it.index() as int)),
            it.index() < skip ==> acc == 0,
    {
        let ghost k = it.index() as int;
        let ghost digits = digits_of(field@);
        proof {
            assert(digits =~= field@.subrange(skip, field@.len() as int));
        }
        if first && c == '+' {
            first = false;
            assert(field@.subrange(skip, k + 1) =~= Seq::<char>::empty());
        } else {
            first = false;
            if !('0' <= c && c <= '9') {
                proof {
                    assert(digits[k - skip] == c);
                }
                return None;
            }
            let d: u32 = c as u32 - '0' as u32;
            proof {
                let next = field@.subrange(skip, k + 1);
                assert(next.drop_last() =~= field@.subrange(skip, k));
                assert(next.last() == c);
                assert(decimal_value(next) == acc * 10 + d);
                assert(next =~= digits.subrange(0, k + 1 - skip));
                lemma_decimal_value_prefix(digits, k + 1 - skip);
            }
            if acc > (u32::MAX - d) / 10 {
                // The digits up to here already denote more than 32 bits hold.
                return None;
            }
            acc = acc * 10 + d;
            any = true;
        }
    }
    proof {
        assert(digits_of(field@) =~= field@.subrange(skip, field@.len() as int));
    }
    if any {
        Some(acc)
    } else {
        None
    }
}

/// Reads the number in field `i` of a line.
pub(crate) fn read_number(fields: &[&str], i: usize) -> (r: Option<u32>)
    ensures
        r == number_at(texts(fields@), i as int),
{
    if i < fields.len() {
        parse_number(fields[i])
    } else {
        None
    }
}

} // verus!
