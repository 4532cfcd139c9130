//! Decimal parsing of unsigned integers, with the reason of each failure.

use vstd::prelude::*;
use vstd::std_specs::iter::IteratorSpec;

verus! {

/// Why a string is not an unsigned decimal number within a bound.
#[derive(Clone, Copy, Debug, PartialEq, Eq, Structural)]
pub enum ParseFailure {
    /// The string holds no character at all.
    Empty,
    /// A character is no decimal digit, or a sign stands alone.
    InvalidDigit,
    /// The digits read so far already exceed the bound.
    Overflow,
}

/// The value of an ASCII decimal digit.
pub open spec fn digit_value(c: char) -> Option<nat> {
    if 0x30 <= c as u32 <= 0x39 {
        Some((c as u32 - 0x30) as nat)
    } else {
        None
    }
}

/// Whether every character of `s` is an ASCII decimal digit.
pub open spec fn all_digits(s: Seq<char>) -> bool {
    forall|i: int| 0 <= i < s.len() ==> digit_value(#[trigger] s[i]) is Some
}

/// The number that a string of decimal digits denotes, most significant first.
pub open spec fn decimal_value(s: Seq<char>) -> nat
    decreases s.len(),
{
    if s.len() == 0 {
        0
    } else {
        10 * decimal_value(s.drop_last()) + match digit_value(s.last()) {
            Some(d) => d,
            None => 0,
        }
    }
}

/// Reads `s` digit by digit from the left and stops at the first character
/// that is no digit or that takes the value over `max`.
pub open spec fn parse_digits(s: Seq<char>, max: nat) -> Result<nat, ParseFailure>
    decreases s.len(),
{
    if s.len() == 0 {
        Ok(0)
    } else {
        match parse_digits(s.drop_last(), max) {
            Err(e) => Err(e),
            Ok(v) => match digit_value(s.last()) {
                None => Err(ParseFailure::InvalidDigit),
                Some(d) => if 10 * v + d > max {
                    Err(ParseFailure::Overflow)
                } else {
                    Ok(10 * v + d)
                },
            },
        }
    }
}

/// The digits of `s`: `s` itself, or what follows one leading `+`.
pub open spec fn unsigned_digits(s: Seq<char>) -> Seq<char> {
    if s.len() > 0 && s[0] == '+' {
        s.drop_first()
    } else {
        s
    }
}

/// Parses an optional `+` followed by at least one decimal digit into a number
/// of at most `max`.
pub open spec fn parse_unsigned(s: Seq<char>, max: nat) -> Result<nat, ParseFailure> {
    if s.len() == 0 {
        Err(ParseFailure::Empty)
    } else if unsigned_digits(s).len() == 0 {
        Err(ParseFailure::InvalidDigit)
    } else {
        parse_digits(unsigned_digits(s), max)
    }
}

/// A failure on a prefix is the failure of the whole string.
pub proof fn lemma_parse_digits_prefix_err(s: Seq<char>, k: int, max: nat)
    requires
        0 <= k <= s.len(),
        parse_digits(s.take(k), max) is Err,
    ensures
        parse_digits(s, max) == parse_digits(s.take(k), max),
    decreases s.len() - k,
{
    if k == s.len() {
        assert(s.take(k) =~= s);
    } else {
        assert(s.take(k + 1).drop_last() =~= s.take(k));
        lemma_parse_digits_prefix_err(s, k + 1, max);
    }
}

/// `parse_digits` succeeds exactly on strings of digits whose value is within
/// the bound, and then gives that value.
pub proof fn lemma_parse_digits_value(s: Seq<char>, max: nat)
    ensures
        parse_digits(s, max) is Ok <==> all_digits(s) && decimal_value(s) <= max,
        parse_digits(s, max) is Ok ==> parse_digits(s, max) == Ok::<nat, ParseFailure>(
            decimal_value(s),
        ),
    decreases s.len(),
{
    if s.len() > 0 {
        let front = s.drop_last();
        lemma_parse_digits_value(front, max);
        if all_digits(s) {
            assert forall|i: int| 0 <= i < front.len() implies digit_value(
                #[trigger] front[i],
            ) is Some by {
                assert(front[i] == s[i]);
            }
        }
        if all_digits(front) && digit_value(s.last()) is Some {
            assert forall|i: int| 0 <= i < s.len() implies digit_value(#[trigger] s[i]) is Some by {
                if i < front.len() {
                    assert(front[i] == s[i]);
                }
            }
        }
    }
}

/// Reads one more digit behind a value already read.
fn push_digit(acc: usize, c: char, max: usize) -> (r: Result<usize, ParseFailure>)
    ensures
        r matches Ok(v) ==> digit_value(c) matches Some(d) && v == 10 * acc + d && v <= max,
        r == Err::<usize, ParseFailure>(ParseFailure::InvalidDigit) <==> digit_value(c) is None,
        r == Err::<usize, ParseFailure>(ParseFailure::Overflow) <==> (digit_value(c) matches Some(d)
            && 10 * acc + d > max),
        r != Err::<usize, ParseFailure>(ParseFailure::Empty),
{
    let u: u32 = c as u32;
    if u < 0x30 || u > 0x39 {
        return Err(ParseFailure::InvalidDigit);
    }
    let d: usize = (u - 0x30) as usize;
    match acc.checked_mul(10) {
        None => Err(ParseFailure::Overflow),
        Some(scaled) => match scaled.checked_add(d) {
            None => Err(ParseFailure::Overflow),
            Some(v) => if v > max {
                Err(ParseFailure::Overflow)
            } else {
                Ok(v)
            },
        },
    }
}

/// Parses `s` as an unsigned decimal number of at most `max`.
pub fn parse_bounded(s: &str, max: usize) -> (r: Result<usize, ParseFailure>)
    ensures
        match r {
            Ok(v) => parse_unsigned(s@, max as nat) == Ok::<nat, ParseFailure>(v as nat),
            Err(e) => parse_unsigned(s@, max as nat) == Err::<nat, ParseFailure>(e),
        },
{
    let mut it = s.chars();
    let ghost digits = unsigned_digits(s@);
    let ghost mut k: int = 0;
    let mut any = false;
    let mut acc: usize = 0;
    match it.next() {
        None => {
            return Err(ParseFailure::Empty);
        },
        Some(c) => {
            if c != '+' {
                proof {
                    assert(digits.take(1).drop_last() =~= Seq::<char>::empty());
                }
                match push_digit(0, c, max) {
                    Err(e) => {
                        proof {
                            lemma_parse_digits_prefix_err(digits, 1, max as nat);
                        }
                        return Err(e);
                    },
                    Ok(v) => {
                        acc = v;
                        any = true;
                        proof {
                            k = 1;
                        }
                    },
                }
            } else {
                proof {
                    assert(parse_digits(Seq::<char>::empty(), max as nat) == Ok::<nat, ParseFailure>(0));
                }
            }
        },
    }
    loop
        invariant
            digits == unsigned_digits(s@),
            s@.len() > 0,
            0 <= k <= digits.len(),
            it.remaining() == digits.skip(k),
            parse_digits(digits.take(k), max as nat) == Ok::<nat, ParseFailure>(acc as nat),
            any <==> k > 0,
        decreases digits.len() - k,
    {
        match it.next() {
            None => {
                proof {
                    assert(digits.take(k) =~= digits);
                }
                if any {
                    return Ok(acc);
                } else {
                    return Err(ParseFailure::InvalidDigit);
                }
            },
            Some(c) => {
                proof {
                    assert(digits.take(k + 1).drop_last() =~= digits.take(k));
                }
                match push_digit(acc, c, max) {
                    Err(e) => {
                        proof {
                            lemma_parse_digits_prefix_err(digits, k + 1, max as nat);
                        }
                        return Err(e);
                    },
                    Ok(v) => {
                        acc = v;
                        any = true;
                        proof {
                            k = k + 1;
                        }
                    },
                }
            },
        }
    }
}

/// Parses `s` as a `usize`: an optional `+`, then decimal digits.
pub fn parse_usize(s: &str) -> (r: Result<usize, ParseFailure>)
    ensures
        match r {
            Ok(v) => parse_unsigned(s@, usize::MAX as nat) == Ok::<nat, ParseFailure>(v as nat),
            Err(e) => parse_unsigned(s@, usize::MAX as nat) == Err::<nat, ParseFailure>(e),
        },
{
    parse_bounded(s, usize::MAX)
}

/// Parses `s` as a `u8`: an optional `+`, then decimal digits.
pub fn parse_u8(s: &str) -> (r: Result<u8, ParseFailure>)
    ensures
        match r {
            Ok(v) => parse_unsigned(s@, u8::MAX as nat) == Ok::<nat, ParseFailure>(v as nat),
            Err(e) => parse_unsigned(s@, u8::MAX as nat) == Err::<nat, ParseFailure>(e),
        },
{
    match parse_bounded(s, 255) {
        Ok(v) => Ok(v as u8),
        Err(e) => Err(e),
    }
}

} // verus!
