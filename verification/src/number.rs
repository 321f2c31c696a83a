//! Integers typed as text.
//!
//! The accepted form is an optional sign and at least one ASCII digit, with
//! nothing around it; a minus sign is accepted only where the target range
//! reaches below zero. The text is read from left to right and the first
//! thing that goes wrong decides the fault.

use crate::text::{self, chars_of, digit, value_of_digit};
use vstd::prelude::*;

verus! {

/// Why a text is not an integer of the wanted range.
#[derive(Debug, Clone, Copy, PartialEq, Eq, Structural)]
pub enum IntFault {
    /// The text is empty.
    Empty,
    /// A character is not a digit, or no digit follows the sign.
    InvalidDigit,
    /// The number lies above the range.
    TooLarge,
    /// The number lies below the range.
    TooSmall,
}

impl IntFault {
    /// The fault in words.
    pub open spec fn text(self) -> Seq<char> {
        match self {
            IntFault::Empty => "cannot parse integer from empty string"@,
            IntFault::InvalidDigit => "invalid digit found in string"@,
            IntFault::TooLarge => "number too large to fit in target type"@,
            IntFault::TooSmall => "number too small to fit in target type"@,
        }
    }

    /// The fault in words.
    pub fn message(self) -> (r: &'static str)
        ensures
            r@ == self.text(),
    {
        match self {
            IntFault::Empty => "cannot parse integer from empty string",
            IntFault::InvalidDigit => "invalid digit found in string",
            IntFault::TooLarge => "number too large to fit in target type",
            IntFault::TooSmall => "number too small to fit in target type",
        }
    }
}

/// Only digits occur in `t`.
pub open spec fn all_digits(t: Seq<char>) -> bool {
    forall|i: int| 0 <= i < t.len() ==> text::is_digit(#[trigger] t[i])
}

/// The number the digits `t` stand for.
pub open spec fn digits_value(t: Seq<char>) -> nat
    decreases t.len(),
{
    if t.len() == 0 {
        0
    } else {
        digits_value(t.drop_last()) * 10 + text::digit_value(t.last())
    }
}

/// The integer that the text `t` stands for, whatever its size: an optional
/// sign and at least one digit.
pub open spec fn numeral(t: Seq<char>) -> Option<int> {
    let signed = t.len() > 0 && (t[0] == '+' || t[0] == '-');
    let digits = if signed {
        t.skip(1)
    } else {
        t
    };
    if digits.len() == 0 || !all_digits(digits) {
        None
    } else if signed && t[0] == '-' {
        Some(-digits_value(digits))
    } else {
        Some(digits_value(digits) as int)
    }
}

/// The number the digits `s` stand for, negated if `negative`, or the first
/// fault met from left to right.
pub open spec fn scan_digits(s: Seq<char>, negative: bool, min: int, max: int) -> Result<
    int,
    IntFault,
>
    decreases s.len(),
{
    if s.len() == 0 {
        Ok(0)
    } else {
        match scan_digits(s.drop_last(), negative, min, max) {
            Err(fault) => Err(fault),
            Ok(v) => {
                let c = s.last();
                if !text::is_digit(c) {
                    Err(IntFault::InvalidDigit)
                } else {
                    let d = text::digit_value(c) as int;
                    let w = if negative {
                        v * 10 - d
                    } else {
                        v * 10 + d
                    };
                    if w > max {
                        Err(IntFault::TooLarge)
                    } else if w < min {
                        Err(IntFault::TooSmall)
                    } else {
                        Ok(w)
                    }
                }
            },
        }
    }
}

/// The integer in `min..=max` that the text `s` stands for.
pub open spec fn integer(s: Seq<char>, min: int, max: int) -> Result<int, IntFault> {
    if s.len() == 0 {
        Err(IntFault::Empty)
    } else if s.len() == 1 && (s[0] == '+' || s[0] == '-') {
        Err(IntFault::InvalidDigit)
    } else if s[0] == '+' {
        scan_digits(s.skip(1), false, min, max)
    } else if s[0] == '-' && min < 0 {
        scan_digits(s.skip(1), true, min, max)
    } else {
        scan_digits(s, false, min, max)
    }
}

/// The integer of type `u16` that `s` stands for.
pub open spec fn u16_of(s: Seq<char>) -> Result<int, IntFault> {
    integer(s, 0, 0xFFFF)
}

/// The integer of type `i16` that `s` stands for.
pub open spec fn i16_of(s: Seq<char>) -> Result<int, IntFault> {
    integer(s, -0x8000, 0x7FFF)
}

/// The integer of type `u64` that `s` stands for.
pub open spec fn u64_of(s: Seq<char>) -> Result<int, IntFault> {
    integer(s, 0, 0xFFFF_FFFF_FFFF_FFFF)
}

proof fn lemma_fault_sticks(s: Seq<char>, k: int, negative: bool, min: int, max: int)
    requires
        0 <= k <= s.len(),
        scan_digits(s.take(k), negative, min, max) is Err,
    ensures
        scan_digits(s, negative, min, max) == scan_digits(s.take(k), negative, min, max),
    decreases s.len() - k,
{
    if k < s.len() {
        assert(s.drop_last().take(k) =~= s.take(k));
        lemma_fault_sticks(s.drop_last(), k, negative, min, max);
    } else {
        assert(s.take(k) =~= s);
    }
}

proof fn lemma_scan_in_range(s: Seq<char>, negative: bool, min: int, max: int)
    requires
        min <= 0 <= max,
    ensures
        scan_digits(s, negative, min, max) matches Ok(v) ==> min <= v <= max,
    decreases s.len(),
{
    if s.len() > 0 {
        lemma_scan_in_range(s.drop_last(), negative, min, max);
    }
}

/// Whatever text is read, the number it stands for lies in the range.
pub proof fn law_integer_in_range(s: Seq<char>, min: int, max: int)
    requires
        min <= 0 <= max,
    ensures
        integer(s, min, max) matches Ok(v) ==> min <= v <= max,
{
    lemma_scan_in_range(s.skip(1), false, min, max);
    lemma_scan_in_range(s.skip(1), true, min, max);
    lemma_scan_in_range(s, false, min, max);
}

pub proof fn lemma_scan_value(s: Seq<char>, negative: bool, min: int, max: int)
    requires
        min <= 0 <= max,
    ensures
        scan_digits(s, negative, min, max) is Ok ==> all_digits(s),
        all_digits(s) ==> scan_digits(s, negative, min, max) == ranged(
            if negative {
                -digits_value(s)
            } else {
                digits_value(s) as int
            },
            min,
            max,
        ),
    decreases s.len(),
{
    if s.len() > 0 {
        let rest = s.drop_last();
        lemma_scan_value(rest, negative, min, max);
        if all_digits(s) {
            assert forall|i: int| 0 <= i < rest.len() implies text::is_digit(
                #[trigger] rest[i],
            ) by {
                assert(rest[i] == s[i]);
            }
            assert(text::is_digit(s[s.len() - 1]));
        }
        if scan_digits(s, negative, min, max) is Ok {
            assert forall|i: int| 0 <= i < s.len() implies text::is_digit(#[trigger] s[i]) by {
                if i < rest.len() {
                    assert(text::is_digit(rest[i]));
                }
            }
        }
    }
}

/// `v` if it lies in `min..=max`.
pub open spec fn ranged(v: int, min: int, max: int) -> Result<int, IntFault> {
    if v > max {
        Err(IntFault::TooLarge)
    } else if v < min {
        Err(IntFault::TooSmall)
    } else {
        Ok(v)
    }
}

/// A text in the form of an integer is taken exactly if the integer lies in
/// the range, and no other text is taken. Where the range does not reach below
/// zero, a text with a minus sign is not in the form.
pub proof fn law_integer_is_a_numeral_in_range(s: Seq<char>, min: int, max: int)
    requires
        min <= 0 <= max,
    ensures
        match numeral(s) {
            Some(v) => integer(s, min, max) == if s[0] == '-' && min == 0 {
                Err(IntFault::InvalidDigit)
            } else {
                ranged(v, min, max)
            },
            None => integer(s, min, max) is Err,
        },
{
    lemma_scan_value(s.skip(1), false, min, max);
    lemma_scan_value(s.skip(1), true, min, max);
    lemma_scan_value(s, false, min, max);
    if s.len() > 0 && (s[0] == '+' || s[0] == '-') {
        assert(!text::is_digit(s[0]));
        if s[0] == '-' && min == 0 {
            reveal_with_fuel(scan_digits, 2);
            assert(s.take(1).drop_last() =~= Seq::empty());
            assert(s.take(1).last() == s[0]);
            assert(scan_digits(s.take(1), false, min, max) == Err::<int, IntFault>(
                IntFault::InvalidDigit,
            ));
            lemma_fault_sticks(s, 1, false, min, max);
        }
    }
}

/// Whether `s` has the form of an integer, whatever its size.
pub fn is_numeral(s: &str) -> (r: bool)
    ensures
        r == (numeral(s@) is Some),
{
    let cs = chars_of(s);
    if cs.len() == 0 {
        return false;
    }
    let from: usize = if cs[0] == '+' || cs[0] == '-' {
        1
    } else {
        0
    };
    let ghost digits = s@.skip(from as int);
    assert(s@.skip(0) =~= s@);
    if from == cs.len() {
        return false;
    }
    let mut i: usize = from;
    while i < cs.len()
        invariant
            from <= i <= cs@.len(),
            digits == cs@.skip(from as int),
            numeral(s@) is Some <==> all_digits(digits),
            forall|k: int| 0 <= k < i - from ==> text::is_digit(#[trigger] digits[k]),
        decreases cs@.len() - i,
    {
        if !digit(cs[i]) {
            assert(!text::is_digit(digits[i - from]));
            return false;
        }
        i = i + 1;
    }
    true
}

fn scan(cs: &Vec<char>, from: usize, negative: bool, min: i128, max: i128) -> (r: Result<
    i128,
    IntFault,
>)
    requires
        from <= cs@.len(),
        -0x1_0000_0000_0000_0000 < min <= 0 <= max < 0x1_0000_0000_0000_0000,
    ensures
        match r {
            Ok(v) => scan_digits(cs@.skip(from as int), negative, min as int, max as int) == Ok::<
                int,
                IntFault,
            >(v as int),
            Err(fault) => scan_digits(cs@.skip(from as int), negative, min as int, max as int)
                == Err::<int, IntFault>(fault),
        },
{
    let ghost s = cs@.skip(from as int);
    let mut v: i128 = 0;
    let mut i: usize = from;
    while i < cs.len()
        invariant
            from <= i <= cs@.len(),
            s == cs@.skip(from as int),
            -0x1_0000_0000_0000_0000 < min <= v <= max < 0x1_0000_0000_0000_0000,
            scan_digits(s.take(i - from), negative, min as int, max as int) == Ok::<int, IntFault>(
                v as int,
            ),
        decreases cs@.len() - i,
    {
        let c = cs[i];
        proof {
            assert(s.take(i - from + 1).drop_last() =~= s.take(i - from));
            assert(s.take(i - from + 1).last() == c);
        }
        if !digit(c) {
            proof {
                lemma_fault_sticks(s, i - from + 1, negative, min as int, max as int);
            }
            return Err(IntFault::InvalidDigit);
        }
        let d: i128 = value_of_digit(c) as i128;
        let w: i128 = if negative {
            v * 10 - d
        } else {
            v * 10 + d
        };
        if w > max {
            proof {
                lemma_fault_sticks(s, i - from + 1, negative, min as int, max as int);
            }
            return Err(IntFault::TooLarge);
        }
        if w < min {
            proof {
                lemma_fault_sticks(s, i - from + 1, negative, min as int, max as int);
            }
            return Err(IntFault::TooSmall);
        }
        v = w;
        i = i + 1;
    }
    proof {
        assert(s.take(i - from) =~= s);
    }
    Ok(v)
}

/// Reads `s` as an integer in `min..=max`.
pub fn parse_integer(s: &str, min: i128, max: i128) -> (r: Result<i128, IntFault>)
    requires
        -0x1_0000_0000_0000_0000 < min <= 0 <= max < 0x1_0000_0000_0000_0000,
    ensures
        match r {
            Ok(v) => integer(s@, min as int, max as int) == Ok::<int, IntFault>(v as int) && min
                <= v <= max,
            Err(fault) => integer(s@, min as int, max as int) == Err::<int, IntFault>(fault),
        },
{
    let cs = chars_of(s);
    proof {
        law_integer_in_range(s@, min as int, max as int);
        assert(cs@.skip(0) =~= cs@);
    }
    if cs.len() == 0 {
        return Err(IntFault::Empty);
    }
    let first = cs[0];
    if cs.len() == 1 && (first == '+' || first == '-') {
        Err(IntFault::InvalidDigit)
    } else if first == '+' {
        scan(&cs, 1, false, min, max)
    } else if first == '-' && min < 0 {
        scan(&cs, 1, true, min, max)
    } else {
        scan(&cs, 0, false, min, max)
    }
}

/// Reads `s` as a `u16`.
pub fn parse_u16(s: &str) -> (r: Result<u16, IntFault>)
    ensures
        match r {
            Ok(v) => u16_of(s@) == Ok::<int, IntFault>(v as int),
            Err(fault) => u16_of(s@) == Err::<int, IntFault>(fault),
        },
{
    match parse_integer(s, 0, 0xFFFF) {
        Ok(v) => Ok(v as u16),
        Err(fault) => Err(fault),
    }
}

/// Reads `s` as an `i16`.
pub fn parse_i16(s: &str) -> (r: Result<i16, IntFault>)
    ensures
        match r {
            Ok(v) => i16_of(s@) == Ok::<int, IntFault>(v as int),
            Err(fault) => i16_of(s@) == Err::<int, IntFault>(fault),
        },
{
    match parse_integer(s, -0x8000, 0x7FFF) {
        Ok(v) => Ok(v as i16),
        Err(fault) => Err(fault),
    }
}

/// Reads `s` as a `u64`.
pub fn parse_u64(s: &str) -> (r: Result<u64, IntFault>)
    ensures
        match r {
            Ok(v) => u64_of(s@) == Ok::<int, IntFault>(v as int),
            Err(fault) => u64_of(s@) == Err::<int, IntFault>(fault),
        },
{
    match parse_integer(s, 0, 0xFFFF_FFFF_FFFF_FFFF) {
        Ok(v) => Ok(v as u64),
        Err(fault) => Err(fault),
    }
}

// ---------------------------------------------------------------------
// What is printed can be read back
// ---------------------------------------------------------------------

pub proof fn lemma_decimal_digits(n: nat)
    ensures
        text::decimal(n).len() > 0,
        forall|i: int|
            0 <= i < text::decimal(n).len() ==> text::is_digit(
                #[trigger] text::decimal(n)[i],
            ),
    decreases n,
{
    if n >= 10 {
        lemma_decimal_digits(n / 10);
    }
}

proof fn lemma_scan_decimal(n: nat, negative: bool, min: int, max: int)
    requires
        min <= 0 <= max,
        if negative {
            min <= -n
        } else {
            n <= max
        },
    ensures
        scan_digits(text::decimal(n), negative, min, max) == Ok::<int, IntFault>(
            if negative {
                -n
            } else {
                n as int
            },
        ),
    decreases n,
{
    let s = text::decimal(n);
    assert(text::digit_value(text::digit_char(n % 10)) == n % 10);
    if n < 10 {
        reveal_with_fuel(scan_digits, 2);
        assert(s.drop_last() =~= Seq::empty());
    } else {
        lemma_scan_decimal(n / 10, negative, min, max);
        assert(s.drop_last() =~= text::decimal(n / 10));
    }
}

/// An integer of the range, printed in decimal, reads back as itself.
pub proof fn law_printed_integer_reads_back(i: int, min: int, max: int)
    requires
        min <= i <= max,
        min <= 0 <= max,
    ensures
        integer(text::signed_decimal(i), min, max) == Ok::<int, IntFault>(i),
{
    let s = text::signed_decimal(i);
    if i < 0 {
        lemma_decimal_digits((-i) as nat);
        lemma_scan_decimal((-i) as nat, true, min, max);
        assert(s.skip(1) =~= text::decimal((-i) as nat));
        assert(s[0] == '-');
    } else {
        lemma_decimal_digits(i as nat);
        lemma_scan_decimal(i as nat, false, min, max);
        assert(text::is_digit(s[0]));
    }
}


/// An integer, printed in decimal, has the form of an integer and stands for
/// itself.
pub proof fn law_printed_integer_is_a_numeral(i: int)
    ensures
        numeral(text::signed_decimal(i)) == Some(i),
{
    let size = if i < 0 {
        -i
    } else {
        i
    };
    law_printed_integer_reads_back(i, -size, size);
    law_integer_is_a_numeral_in_range(text::signed_decimal(i), -size, size);
}

} // verus!
