//! Decimal integer literals: what a piece of text denotes as a signed 32-bit
//! integer, and the ways in which it can fail to denote one.

use crate::charset::{
    digit_of, digit_value, is_digit, lemma_run_length_bounds, lemma_run_length_is, run_length,
    CharClass,
};
use crate::text::{ascii_prefix, char_at};
use vstd::prelude::*;

verus! {

/// Why a piece of text is not a signed 32-bit decimal integer.
#[derive(Debug, Clone, Copy, PartialEq, Eq, Structural)]
pub enum IntErrorKind {
    /// The text is empty.
    Empty,
    /// The text holds a character that is no decimal digit where a digit is due,
    /// or consists of a sign alone.
    InvalidDigit,
    /// The number is too large for 32 bits.
    PosOverflow,
    /// The number is too small for 32 bits.
    NegOverflow,
}

/// The number that a string of decimal digits denotes, most significant digit first.
/// Leading zeros do not count; the empty string denotes zero.
pub open spec fn decimal_value(digits: Seq<char>) -> nat
    decreases digits.len(),
{
    if digits.len() == 0 {
        0
    } else {
        decimal_value(digits.drop_last()) * 10 + digit_value(digits.last())
    }
}

/// The digits of `text` once an optional leading sign is taken off.
pub open spec fn unsigned_part(text: Seq<char>) -> Seq<char> {
    if text.len() > 0 && (text[0] == '+' || text[0] == '-') {
        text.drop_first()
    } else {
        text
    }
}

/// The signed 32-bit integer that `text` denotes in base 10.
///
/// The text is an optional sign, `+` or `-`, followed by at least one decimal
/// digit. It is read from the left, and the first obstacle decides the error:
/// a run of digits that leaves the 32-bit range overflows, whatever follows it;
/// otherwise a character that is no digit is an invalid digit.
pub open spec fn parse_i32(text: Seq<char>) -> Result<i32, IntErrorKind> {
    let negative = text.len() > 0 && text[0] == '-';
    let body = unsigned_part(text);
    let run = body.take(run_length(body, CharClass::Digit) as int);
    let magnitude = decimal_value(run);
    if text.len() == 0 {
        Err(IntErrorKind::Empty)
    } else if body.len() == 0 {
        Err(IntErrorKind::InvalidDigit)
    } else if !negative && magnitude > i32::MAX {
        Err(IntErrorKind::PosOverflow)
    } else if negative && -magnitude < i32::MIN {
        Err(IntErrorKind::NegOverflow)
    } else if run.len() < body.len() {
        Err(IntErrorKind::InvalidDigit)
    } else if negative {
        Ok((-magnitude) as i32)
    } else {
        Ok(magnitude as i32)
    }
}

/// A number literal as the tokenizer produces it, and small enough for 32
/// bits: a non-empty string of decimal digits that denotes at most `i32::MAX`.
pub open spec fn is_literal(text: Seq<char>) -> bool {
    &&& text.len() > 0
    &&& forall|i: int| 0 <= i < text.len() ==> is_digit(#[trigger] text[i])
    &&& decimal_value(text) <= i32::MAX
}

/// A literal denotes its decimal value.
pub proof fn lemma_parse_literal(text: Seq<char>)
    requires
        is_literal(text),
    ensures
        parse_i32(text) == Ok::<i32, IntErrorKind>(decimal_value(text) as i32),
{
    lemma_run_length_is(text, CharClass::Digit, text.len());
    assert(text.take(text.len() as int) =~= text);
}

/// Appending a digit multiplies the value by ten and adds the digit.
pub proof fn lemma_decimal_value_push(digits: Seq<char>, c: char)
    ensures
        decimal_value(digits.push(c)) == decimal_value(digits) * 10 + digit_value(c),
{
    assert(digits.push(c).drop_last() =~= digits);
}

/// A string of digits denotes at least as much as any of its prefixes.
pub proof fn lemma_decimal_value_prefix(digits: Seq<char>, n: int)
    requires
        0 <= n <= digits.len(),
    ensures
        decimal_value(digits.take(n)) <= decimal_value(digits),
    decreases digits.len(),
{
    if n < digits.len() {
        let shorter = digits.drop_last();
        assert(shorter.take(n) =~= digits.take(n));
        lemma_decimal_value_prefix(shorter, n);
    } else {
        assert(digits.take(n) =~= digits);
    }
}

/// Reads `text` as a signed 32-bit integer in base 10.
pub fn parse_decimal(text: &str) -> (result: Result<i32, IntErrorKind>)
    ensures
        result == parse_i32(text@),
{
    let first = match char_at(text, 0) {
        Some(first) => first,
        None => {
            return Err(IntErrorKind::Empty);
        },
    };
    let negative = first == '-';
    let start: usize = if first == '+' || first == '-' {
        1
    } else {
        0
    };
    let ghost body = unsigned_part(text@);
    let ghost class = CharClass::Digit;
    let limit: u64 = if negative {
        0x8000_0000
    } else {
        0x7fff_ffff
    };
    let mut magnitude: u64 = 0;
    let mut i: usize = start;
    loop
        invariant
            start <= i,
            ascii_prefix(text@, i as int),
            class == CharClass::Digit,
            text@.len() > 0,
            negative == (text@[0] == '-'),
            body == unsigned_part(text@),
            body == text@.skip(start as int),
            limit == if negative { 0x8000_0000u64 } else { 0x7fff_ffffu64 },
            forall|j: int| 0 <= j < i - start ==> is_digit(#[trigger] body[j]),
            magnitude == decimal_value(body.take(i - start)),
            magnitude <= limit,
        ensures
            i == text@.len(),
        decreases text@.len() - i,
    {
        let c = match char_at(text, i) {
            Some(c) => c,
            None => {
                break ;
            },
        };
        let ghost run = body.take(i - start);
        if !CharClass::Digit.holds(c) {
            proof {
                lemma_run_length_is(body, class, (i - start) as nat);
            }
            return Err(IntErrorKind::InvalidDigit);
        }
        let grown: u64 = magnitude * 10 + digit_of(c) as u64;
        proof {
            assert(body.take(i - start + 1) =~= run.push(c));
            lemma_decimal_value_push(run, c);
        }
        if grown > limit {
            proof {
                let whole = body.take(run_length(body, class) as int);
                lemma_run_length_bounds(body, class);
                assert(whole.take(i - start + 1) =~= body.take(i - start + 1));
                lemma_decimal_value_prefix(whole, i - start + 1);
            }
            return if negative {
                Err(IntErrorKind::NegOverflow)
            } else {
                Err(IntErrorKind::PosOverflow)
            };
        }
        magnitude = grown;
        i = i + 1;
    }
    if i == start {
        return Err(IntErrorKind::InvalidDigit);
    }
    proof {
        lemma_run_length_is(body, class, body.len());
    }
    if negative {
        if magnitude == 0x8000_0000 {
            Ok(i32::MIN)
        } else {
            Ok(-(magnitude as i32))
        }
    } else {
        Ok(magnitude as i32)
    }
}

} // verus!
