//! Decimal numbers typed as text, read to single precision.
//!
//! The accepted form is that of a single-precision literal: an optional sign,
//! then `inf`, `infinity` or `nan` in any case, or digits with at most one
//! decimal point and an optional exponent. [`number`] gives the exact
//! fraction such a text stands for; [`read`] rounds it to single precision.

use crate::binary32::{self, round_to_24, unit_of};
use crate::text::{self, char_of_digit, chars_of, digit, lowercase, same, value_of_digit};
use crate::number::{all_digits, digits_value, lemma_decimal_digits, numeral};
use vstd::arithmetic::div_mod::lemma_fundamental_div_mod;
use vstd::prelude::*;

verus! {

/// What a text stands for as a decimal number.
pub enum Number {
    /// The text is empty.
    Empty,
    /// The text is not a number.
    Invalid,
    /// The text spells "not a number".
    NotANumber,
    /// The text spells an infinity.
    Infinite { negative: bool },
    /// The number `num / den`, negated if `negative`.
    Finite { negative: bool, num: nat, den: nat },
}

/// Where `a` or `b` first occurs in `t`, or the length of `t`.
pub open spec fn mark(t: Seq<char>, a: char, b: char) -> nat
    decreases t.len(),
{
    if t.len() == 0 || t[0] == a || t[0] == b {
        0
    } else {
        1 + mark(t.skip(1), a, b)
    }
}

/// 10 to the power of `k`.
pub open spec fn pow10(k: nat) -> nat
    decreases k,
{
    if k == 0 {
        1
    } else {
        10 * pow10((k - 1) as nat)
    }
}

/// The numerator of `d` times 10 to the power of `scale`.
pub open spec fn numerator(d: nat, scale: int) -> nat {
    if scale >= 0 {
        d * pow10(scale as nat)
    } else {
        d
    }
}

/// The denominator of a number scaled by 10 to the power of `scale`.
pub open spec fn denominator(scale: int) -> nat {
    if scale >= 0 {
        1
    } else {
        pow10((-scale) as nat)
    }
}

/// The number that the text `t` after the sign stands for.
pub open spec fn unsigned_number(t: Seq<char>, negative: bool) -> Number {
    let e = mark(t, 'e', 'E') as int;
    let m = t.take(e);
    let p = mark(m, '.', '.') as int;
    let whole = m.take(p);
    let part = if p < m.len() {
        m.skip(p + 1)
    } else {
        Seq::empty()
    };
    let exp = if e < t.len() {
        numeral(t.skip(e + 1))
    } else {
        Some(0)
    };
    if !all_digits(whole) || !all_digits(part) || whole.len() + part.len() == 0 {
        Number::Invalid
    } else {
        match exp {
            None => Number::Invalid,
            Some(x) => {
                let scale = x - part.len();
                Number::Finite {
                    negative,
                    num: numerator(digits_value(whole + part), scale),
                    den: denominator(scale),
                }
            },
        }
    }
}

/// The number that the text `s` stands for.
pub open spec fn number(s: Seq<char>) -> Number {
    if s.len() == 0 {
        Number::Empty
    } else {
        let negative = s[0] == '-';
        let t = if s[0] == '-' || s[0] == '+' {
            s.skip(1)
        } else {
            s
        };
        if text::lower(t) == "inf"@ || text::lower(t) == "infinity"@ {
            Number::Infinite { negative }
        } else if text::lower(t) == "nan"@ {
            Number::NotANumber
        } else {
            unsigned_number(t, negative)
        }
    }
}

/// How large the single-precision number is that a text was rounded to.
#[derive(Debug, Clone, Copy, PartialEq, Eq, Structural)]
pub enum Size {
    /// At most 1/31; `zero` tells whether it is zero.
    Tiny { zero: bool },
    /// That many times 2^-29.
    Units(u64),
    /// At least 8192.
    Huge,
}

/// What was read from a text.
#[derive(Debug, Clone, Copy, PartialEq, Eq, Structural)]
pub enum Reading {
    /// The text is empty.
    Empty,
    /// The text is not a number.
    Invalid,
    /// The text spells "not a number".
    NotANumber,
    /// The text spells an infinity.
    Infinite { negative: bool },
    /// A number, rounded to single precision.
    Finite { negative: bool, size: Size },
}

impl Size {
    /// `self` is the size of the single-precision number `y` (see
    /// [`binary32::nearest`]).
    pub open spec fn measures(self, y: nat) -> bool {
        match self {
            Size::Tiny { zero } => 31 * y <= binary32::one() && zero == (y == 0),
            Size::Units(u) => y == u * binary32::step29() && 0x100_0000 <= u < 0x800_0000_0000,
            Size::Huge => y >= 8192 * binary32::one(),
        }
    }
}

impl Reading {
    /// `self` is what a text that stands for `n` reads as.
    pub open spec fn of(self, n: Number) -> bool {
        match n {
            Number::Empty => self == Reading::Empty,
            Number::Invalid => self == Reading::Invalid,
            Number::NotANumber => self == Reading::NotANumber,
            Number::Infinite { negative } => self == (Reading::Infinite { negative }),
            Number::Finite { negative, num, den } => self matches Reading::Finite {
                negative: sign,
                size,
            } && sign == negative && size.measures(binary32::nearest(num, den)),
        }
    }
}

// ---------------------------------------------------------------------
// Facts about digits
// ---------------------------------------------------------------------

proof fn lemma_pow10_pos(k: nat)
    ensures
        pow10(k) > 0,
        pow10(k) > k,
    decreases k,
{
    if k > 0 {
        lemma_pow10_pos((k - 1) as nat);
    }
}

proof fn lemma_pow10_sum(a: nat, b: nat)
    ensures
        pow10(a + b) == pow10(a) * pow10(b),
    decreases a,
{
    if a > 0 {
        let c = (a - 1) as nat;
        lemma_pow10_sum(c, b);
        assert((10 * pow10(c)) * pow10(b) == 10 * (pow10(c) * pow10(b))) by (nonlinear_arith);
    } else {
        assert(pow10(a) == 1);
        assert(1 * pow10(b) == pow10(b));
    }
}

proof fn lemma_pow10_order(a: nat, b: nat)
    requires
        a <= b,
    ensures
        pow10(a) <= pow10(b),
{
    let c = (b - a) as nat;
    lemma_pow10_sum(a, c);
    lemma_pow10_pos(a);
    lemma_pow10_pos(c);
    let (x, y) = (pow10(a), pow10(c));
    assert(x <= x * y) by (nonlinear_arith)
        requires
            x > 0,
            y > 0,
    ;
}

proof fn lemma_pow10_values()
    ensures
        pow10(1) == 10,
        pow10(4) == 10000,
        pow10(29) == 100000000000000000000000000000nat,
        pow10(33) == 1000000000000000000000000000000000nat,
        pow10(34) == 10000000000000000000000000000000000nat,
        pow10(46) == 10000000000000000000000000000000000000000000000nat,
{
    assert(pow10(1) == 10) by {
        reveal_with_fuel(pow10, 2);
    }
    assert(pow10(4) == 10000) by {
        reveal_with_fuel(pow10, 5);
    }
    assert(pow10(12) == 1000000000000) by {
        reveal_with_fuel(pow10, 13);
    }
    let t = pow10(12);
    lemma_pow10_sum(12, 12);
    assert(t * t == 1000000000000000000000000nat) by (nonlinear_arith)
        requires
            t == 1000000000000,
    ;
    assert(pow10(5) == 100000) by {
        reveal_with_fuel(pow10, 6);
    }
    lemma_pow10_sum(5, 24);
    assert(pow10(29) == 100000 * pow10(24));
    lemma_pow10_sum(4, 29);
    assert(pow10(33) == 10000 * pow10(29));
    assert(pow10(34) == 10 * pow10(33));
    lemma_pow10_sum(12, 34);
    assert(pow10(46) == 1000000000000 * pow10(34));
}

/// The digits in front of and behind a place make up the value.
proof fn lemma_digits_split(t: Seq<char>, j: int)
    requires
        0 <= j <= t.len(),
    ensures
        digits_value(t) == digits_value(t.take(j)) * pow10((t.len() - j) as nat) + digits_value(
            t.skip(j),
        ),
    decreases t.len() - j,
{
    if j == t.len() {
        assert(t.take(j) =~= t);
        assert(t.skip(j) =~= Seq::empty());
        assert(digits_value(t) * 1 == digits_value(t));
    } else {
        let d = t.drop_last();
        lemma_digits_split(d, j);
        assert(d.take(j) =~= t.take(j));
        assert(t.skip(j).drop_last() =~= d.skip(j));
        let (a, p, b) = (
            digits_value(t.take(j)),
            pow10((d.len() - j) as nat),
            digits_value(d.skip(j)),
        );
        assert((a * p + b) * 10 == a * (10 * p) + b * 10) by (nonlinear_arith);
        assert(pow10((t.len() - j) as nat) == 10 * p);
    }
}

proof fn lemma_digits_below(t: Seq<char>)
    requires
        all_digits(t),
    ensures
        digits_value(t) < pow10(t.len()),
    decreases t.len(),
{
    if t.len() > 0 {
        assert forall|i: int| 0 <= i < t.drop_last().len() implies text::is_digit(
            #[trigger] t.drop_last()[i],
        ) by {
            assert(text::is_digit(t[i]));
        }
        lemma_digits_below(t.drop_last());
        assert(text::is_digit(t[t.len() - 1]));
    }
}

/// A sequence of digits stands for zero exactly if every digit is a zero.
proof fn lemma_digits_zero(t: Seq<char>)
    requires
        all_digits(t),
    ensures
        digits_value(t) == 0 <==> (forall|i: int| 0 <= i < t.len() ==> #[trigger] t[i] == '0'),
    decreases t.len(),
{
    if t.len() > 0 {
        let d = t.drop_last();
        assert forall|i: int| 0 <= i < d.len() implies text::is_digit(#[trigger] d[i]) by {
            assert(text::is_digit(t[i]));
        }
        lemma_digits_zero(d);
        assert(text::is_digit(t[t.len() - 1]));
        assert(text::digit_value(t.last()) == 0 <==> t.last() == '0');
        if digits_value(t) == 0 {
            assert forall|i: int| 0 <= i < t.len() implies #[trigger] t[i] == '0' by {
                if i < d.len() {
                    assert(d[i] == '0');
                }
            }
        } else if forall|i: int| 0 <= i < t.len() ==> #[trigger] t[i] == '0' {
            assert forall|i: int| 0 <= i < d.len() implies #[trigger] d[i] == '0' by {
                assert(t[i] == '0');
            }
            assert(t[t.len() - 1] == '0');
        }
    }
}

proof fn lemma_all_digits_parts(t: Seq<char>, j: int)
    requires
        all_digits(t),
        0 <= j <= t.len(),
    ensures
        all_digits(t.take(j)),
        all_digits(t.skip(j)),
{
    assert forall|i: int| 0 <= i < t.take(j).len() implies text::is_digit(
        #[trigger] t.take(j)[i],
    ) by {
        assert(text::is_digit(t[i]));
    }
    assert forall|i: int| 0 <= i < t.skip(j).len() implies text::is_digit(
        #[trigger] t.skip(j)[i],
    ) by {
        assert(text::is_digit(t[i + j]));
    }
}

proof fn lemma_take_push(t: Seq<char>, i: int)
    requires
        0 <= i < t.len(),
    ensures
        digits_value(t.take(i + 1)) == digits_value(t.take(i)) * 10 + text::digit_value(t[i]),
{
    assert(t.take(i + 1).drop_last() =~= t.take(i));
    assert(t.take(i + 1).last() == t[i]);
}


// ---------------------------------------------------------------------
// Reading
// ---------------------------------------------------------------------

/// Where `a` or `b` first occurs in `cs[from..to]`, or `to`.
fn find_mark(cs: &Vec<char>, from: usize, to: usize, a: char, b: char) -> (k: usize)
    requires
        from <= to <= cs@.len(),
    ensures
        from <= k <= to,
        k - from == mark(cs@.subrange(from as int, to as int), a, b),
{
    let mut k: usize = from;
    while k < to && cs[k] != a && cs[k] != b
        invariant
            from <= k <= to <= cs@.len(),
            k - from + mark(cs@.subrange(k as int, to as int), a, b) == mark(
                cs@.subrange(from as int, to as int),
                a,
                b,
            ),
        decreases to - k,
    {
        proof {
            let t = cs@.subrange(k as int, to as int);
            assert(t[0] == cs@[k as int]);
            assert(t.skip(1) =~= cs@.subrange(k + 1, to as int));
        }
        k = k + 1;
    }
    proof {
        let t = cs@.subrange(k as int, to as int);
        if k < to {
            assert(t[0] == cs@[k as int]);
        }
    }
    k
}

/// Appends the digits `cs[from..to]` to `out` and returns `true`, or returns
/// `false` if anything but a digit is among them.
fn push_digits(cs: &Vec<char>, from: usize, to: usize, out: &mut Vec<char>) -> (r: bool)
    requires
        from <= to <= cs@.len(),
    ensures
        r == all_digits(cs@.subrange(from as int, to as int)),
        r ==> final(out)@ == old(out)@ + cs@.subrange(from as int, to as int),
{
    let ghost t = cs@.subrange(from as int, to as int);
    let ghost start = out@;
    let mut k: usize = from;
    while k < to
        invariant
            from <= k <= to <= cs@.len(),
            t == cs@.subrange(from as int, to as int),
            out@ == start + t.take(k - from),
            all_digits(t.take(k - from)),
        decreases to - k,
    {
        assert(t[k - from] == cs@[k as int]);
        if !digit(cs[k]) {
            return false;
        }
        out.push(cs[k]);
        k = k + 1;
        proof {
            let i = k - from;
            assert(t.take(i) =~= t.take(i - 1).push(t[i - 1]));
            assert(out@ =~= start + t.take(i));
            assert forall|j: int| 0 <= j < t.take(i).len() implies text::is_digit(
                #[trigger] t.take(i)[j],
            ) by {
                if j < i - 1 {
                    assert(text::is_digit(t.take(i - 1)[j]));
                }
            }
        }
    }
    proof {
        assert(t.take(to - from) =~= t);
    }
    true
}

/// Exponents beyond this are as good as infinite.
const FAR: i128 = 1_000_000_000_000_000_000_000_000_000_000;

/// `x` cut back to `-FAR..=FAR`.
spec fn capped(x: int) -> int {
    if x > FAR {
        FAR as int
    } else if x < -FAR {
        -FAR
    } else {
        x
    }
}

/// The exponent written in `cs[from..]`, cut back to `-FAR..=FAR`.
fn read_exponent(cs: &Vec<char>, from: usize) -> (r: Option<i128>)
    requires
        from <= cs@.len(),
    ensures
        match numeral(cs@.skip(from as int)) {
            None => r is None,
            Some(x) => r matches Some(y) && y == capped(x),
        },
{
    let ghost t = cs@.skip(from as int);
    let to = cs.len();
    let signed = from < to && (cs[from] == '+' || cs[from] == '-');
    let start: usize = if signed {
        from + 1
    } else {
        from
    };
    let ghost digits = cs@.subrange(start as int, to as int);
    proof {
        if from < to {
            assert(t[0] == cs@[from as int]);
            assert(t.skip(1) =~= cs@.subrange(from + 1, to as int));
        }
        assert(t =~= cs@.subrange(from as int, to as int));
    }
    if start == to {
        return None;
    }
    let mut v: i128 = 0;
    let mut k: usize = start;
    while k < to
        invariant
            start <= k <= to,
            to == cs@.len(),
            digits == cs@.subrange(start as int, to as int),
            t == cs@.skip(from as int),
            signed == (t.len() > 0 && (t[0] == '+' || t[0] == '-')),
            digits == (if signed {
                t.skip(1)
            } else {
                t
            }),
            0 <= v <= FAR,
            v == capped(digits_value(digits.take(k - start)) as int),
            all_digits(digits.take(k - start)),
        decreases to - k,
    {
        assert(digits[k - start] == cs@[k as int]);
        if !digit(cs[k]) {
            return None;
        }
        proof {
            let i = k - start;
            lemma_take_push(digits, i);
            assert(digits.take(i + 1) =~= digits.take(i).push(digits[i]));
            assert forall|j: int| 0 <= j < digits.take(i + 1).len() implies text::is_digit(
                #[trigger] digits.take(i + 1)[j],
            ) by {
                if j < i {
                    assert(text::is_digit(digits.take(i)[j]));
                }
            }
        }
        let w: i128 = v * 10 + value_of_digit(cs[k]) as i128;
        v = if w > FAR {
            FAR
        } else {
            w
        };
        k = k + 1;
    }
    assert(digits.take(to - start) =~= digits);
    if signed && cs[from] == '-' {
        Some(-v)
    } else {
        Some(v)
    }
}

/// `k` is `t`, or both are beyond every length a text can have.
spec fn near(k: int, t: int) -> bool {
    ||| k == t
    ||| k >= 0x2_0000_0000_0000_0000 && t >= 0x2_0000_0000_0000_0000
    ||| k <= -0x2_0000_0000_0000_0000 && t <= -0x2_0000_0000_0000_0000
}

/// 10^33.
const LIMIT: u128 = 1_000_000_000_000_000_000_000_000_000_000_000;

/// The whole part of `d` times 10 to the power of `k`.
spec fn shifted(d: nat, k: int) -> nat {
    if k >= 0 {
        d * pow10(k as nat)
    } else {
        d / pow10((-k) as nat)
    }
}

/// Whether digits are lost in [`shifted`].
spec fn cut_off(d: nat, k: int) -> bool {
    k < 0 && d % pow10((-k) as nat) != 0
}

proof fn lemma_shift_right(t: Seq<char>, k: int)
    requires
        all_digits(t),
        k < 0,
    ensures
        t.len() + k <= 0 ==> shifted(digits_value(t), k) == 0 && cut_off(digits_value(t), k) == (
        digits_value(t) != 0),
        t.len() + k > 0 ==> shifted(digits_value(t), k) == digits_value(t.take(t.len() + k))
            && cut_off(digits_value(t), k) == (digits_value(t.skip(t.len() + k)) != 0),
{
    let d = digits_value(t);
    let p = pow10((-k) as nat);
    lemma_pow10_pos((-k) as nat);
    lemma_digits_below(t);
    if t.len() + k <= 0 {
        lemma_pow10_order(t.len(), (-k) as nat);
        binary32::lemma_div_mod(d, p, 0, d);
    } else {
        let j = t.len() + k;
        lemma_digits_split(t, j);
        lemma_all_digits_parts(t, j);
        lemma_digits_below(t.skip(j));
        binary32::lemma_div_mod(d, p, digits_value(t.take(j)), digits_value(t.skip(j)));
    }
}

/// Digits taken from a longer text stand for a smaller number.
proof fn lemma_digits_grow(t: Seq<char>, i: int, j: int)
    requires
        0 <= i <= j <= t.len(),
    ensures
        digits_value(t.take(i)) <= digits_value(t.take(j)),
{
    lemma_digits_split(t.take(j), i);
    assert(t.take(j).take(i) =~= t.take(i));
    let (a, p) = (digits_value(t.take(i)), pow10((j - i) as nat));
    lemma_pow10_pos((j - i) as nat);
    assert(a <= a * p) by (nonlinear_arith)
        requires
            p > 0,
    ;
}

/// The whole part of `digits` times 10^`k`, and whether digits are lost, or
/// `None` if it reaches [`LIMIT`].
fn shift(digits: &Vec<char>, k: i128, Ghost(t): Ghost<int>) -> (r: Option<(u128, bool)>)
    requires
        all_digits(digits@),
        near(k as int, t),
        -2 * FAR <= k <= 2 * FAR,
    ensures
        ({
            let n = shifted(digits_value(digits@), t);
            match r {
                None => n >= LIMIT,
                Some((m, lost)) => m as nat == n && m < LIMIT && lost == cut_off(
                    digits_value(digits@),
                    t,
                ),
            }
        }),
{
    let len = digits.len();
    let ghost ds = digits@;
    let ghost d = digits_value(ds);
    let keep: usize = if k >= 0 {
        len
    } else if len as i128 + k <= 0 {
        0
    } else {
        (len as i128 + k) as usize
    };
    proof {
        if t < 0 {
            lemma_shift_right(ds, t);
        }
        assert(ds.take(ds.len() as int) =~= ds);
        assert(ds.skip(0) =~= ds);
        assert(ds.take(0) =~= Seq::empty());
        lemma_pow10_values();
    }
    let mut n: u128 = 0;
    let mut i: usize = 0;
    while i < keep
        invariant
            i <= keep <= len,
            len == digits@.len(),
            ds == digits@,
            d == digits_value(ds),
            all_digits(ds),
            n as nat == digits_value(ds.take(i as int)),
            n < LIMIT,
            k >= 0 ==> t >= 0 && keep == len,
            k < 0 ==> t < 0,
            k < 0 && keep > 0 ==> t == k && keep == len + k,
            t < 0 && keep > 0 ==> shifted(d, t) == digits_value(ds.take(keep as int)),
        decreases keep - i,
    {
        proof {
            lemma_take_push(ds, i as int);
            assert(text::is_digit(ds[i as int]));
        }
        n = n * 10 + value_of_digit(digits[i]) as u128;
        i = i + 1;
        if n >= LIMIT {
            proof {
                lemma_digits_grow(ds, i as int, keep as int);
                if k >= 0 {
                    assert(ds.take(len as int) =~= ds);
                    lemma_pow10_pos(t as nat);
                    let p = pow10(t as nat);
                    assert(d <= d * p) by (nonlinear_arith)
                        requires
                            p > 0,
                    ;
                }
            }
            return None;
        }
    }
    if k < 0 {
        let mut lost: bool = false;
        let mut j: usize = keep;
        while j < len
            invariant
                keep <= j <= len,
                len == digits@.len(),
                ds == digits@,
                lost == !(forall|x: int| keep <= x < j ==> #[trigger] ds[x] == '0'),
            decreases len - j,
        {
            if digits[j] != '0' {
                lost = true;
            }
            j = j + 1;
        }
        proof {
            let rest = ds.skip(keep as int);
            lemma_all_digits_parts(ds, keep as int);
            lemma_digits_zero(rest);
            if !lost {
                assert forall|x: int| 0 <= x < rest.len() implies #[trigger] rest[x] == '0' by {
                    assert(ds[x + keep] == '0');
                }
            } else {
                let x = choose|x: int| keep <= x < len && #[trigger] ds[x] != '0';
                assert(rest[x - keep] != '0');
            }
        }
        return Some((n, lost));
    }
    let mut j: i128 = 0;
    assert(pow10(0) == 1);
    assert(d * 1 == d);
    while j < k && n > 0
        invariant
            d == digits_value(digits@),
            0 <= j <= k,
            near(k as int, t),
            n as nat == d * pow10(j as nat),
            n < LIMIT,
        decreases k - j,
    {
        proof {
            let p = pow10(j as nat);
            assert((d * p) * 10 == d * (10 * p)) by (nonlinear_arith);
            assert(pow10((j + 1) as nat) == 10 * p);
            lemma_shift_count(d, j as nat);
        }
        n = n * 10;
        j = j + 1;
        if n >= LIMIT {
            proof {
                let rest = (t - j) as nat;
                lemma_pow10_sum(j as nat, rest);
                assert(j as nat + rest == t as nat);
                lemma_pow10_pos(rest);
                let (p, q) = (pow10(j as nat), pow10(rest));
                assert(d * (p * q) >= d * p) by (nonlinear_arith)
                    requires
                        q > 0,
                ;
            }
            return None;
        }
    }
    proof {
        let p = pow10(j as nat);
        lemma_pow10_pos(j as nat);
        if n == 0 {
            assert(d == 0) by (nonlinear_arith)
                requires
                    d * p == 0,
                    p > 0,
            ;
            assert(0 * pow10(t as nat) == 0);
        } else {
            lemma_shift_count(d, j as nat);
        }
    }
    Some((n, false))
}

/// A number shifted far to the left does not stay small.
proof fn lemma_shift_count(d: nat, j: nat)
    requires
        0 < d * pow10(j) < LIMIT,
    ensures
        j < 33,
{
    let p = pow10(j);
    assert(d > 0 && p <= d * p) by (nonlinear_arith)
        requires
            0 < d * p,
            d >= 0,
            p >= 0,
    ;
    if j >= 33 {
        lemma_pow10_order(33, j);
        lemma_pow10_values();
    }
}


/// 5^29.
const FIVES: u128 = 186_264_514_923_095_703_125;

/// A fraction in units of 10^-29, with what is left over: returns the rest
/// `r` with `num * 10^29 == n * den + r`.
proof fn lemma_tenths29(d: nat, t: int) -> (r: nat)
    ensures
        denominator(t) > 0,
        r < denominator(t),
        numerator(d, t) * pow10(29) == shifted(d, t + 29) * denominator(t) + r,
        (r > 0) == cut_off(d, t + 29),
{
    let k = t + 29;
    let p29 = pow10(29);
    let den = denominator(t);
    if t < 0 {
        lemma_pow10_pos((-t) as nat);
    }
    if t >= 0 {
        lemma_pow10_sum(t as nat, 29);
        let p = pow10(t as nat);
        assert((d * p) * p29 == d * (p * p29)) by (nonlinear_arith);
        assert(t as nat + 29 == k as nat);
        assert((d * (p * p29)) * 1 == d * (p * p29));
        0
    } else if k >= 0 {
        lemma_pow10_sum(k as nat, (-t) as nat);
        let p = pow10(k as nat);
        assert(k as nat + (-t) as nat == 29);
        assert((d * p) * den == d * (p * den)) by (nonlinear_arith);
        0
    } else {
        let p = pow10((-k) as nat);
        lemma_pow10_pos((-k) as nat);
        lemma_pow10_pos(29);
        lemma_pow10_sum((-k) as nat, 29);
        assert((-k) as nat + 29 == (-t) as nat);
        lemma_fundamental_div_mod(d as int, p as int);
        let (q, r) = (d / p, d % p);
        assert(d * p29 == q * (p * p29) + r * p29) by (nonlinear_arith)
            requires
                d == p * q + r,
        ;
        assert(r * p29 < p * p29) by (nonlinear_arith)
            requires
                r < p,
                p29 > 0,
        ;
        assert((r * p29 > 0) == (r > 0)) by (nonlinear_arith)
            requires
                p29 > 0,
                r >= 0,
        ;
        r * p29
    }
}

/// From units of 10^-29 to units of 2^-29: returns the rest `s` with
/// `num * 2^29 == q * den + s`.
proof fn lemma_binary29(num: nat, den: nat, n: nat, r: nat, q: nat, r5: nat) -> (s: nat)
    requires
        den > 0,
        num * pow10(29) == n * den + r,
        r < den,
        n == q * FIVES + r5,
        r5 < FIVES,
    ensures
        num * 0x2000_0000 == q * den + s,
        s < den,
        (s > 0) == (r > 0 || r5 > 0),
{
    lemma_pow10_values();
    let f = FIVES as int;
    let a = num * 0x2000_0000;
    let s = a - q * den;
    assert(num * pow10(29) == a * f) by (nonlinear_arith)
        requires
            pow10(29) == 100000000000000000000000000000nat,
            f == 186_264_514_923_095_703_125,
            a == num * 0x2000_0000,
    ;
    assert(n * den == (q * den) * f + r5 * den) by (nonlinear_arith)
        requires
            n == q * f + r5,
    ;
    assert(s * f == r5 * den + r) by (nonlinear_arith)
        requires
            a * f == (q * den) * f + r5 * den + r,
            s == a - q * den,
    ;
    assert(r5 * den + r < f * den && r5 * den >= 0) by (nonlinear_arith)
        requires
            0 <= r5 < f,
            0 <= r < den,
    ;
    assert(0 <= s < den) by (nonlinear_arith)
        requires
            0 <= s * f < f * den,
            f > 0,
    ;
    assert((s > 0) == (r > 0 || r5 > 0)) by (nonlinear_arith)
        requires
            s * f == r5 * den + r,
            f > 0,
            den > 0,
            r >= 0,
            r5 >= 0,
            s >= 0,
    ;
    s as nat
}

/// A fraction below 2^-5 rounds to no more than 1/31.
proof fn lemma_tiny(num: nat, den: nat, q: nat, s: nat)
    requires
        den > 0,
        num * 0x2000_0000 == q * den + s,
        s < den,
        q < 0x100_0000,
    ensures
        31 * binary32::nearest(num, den) <= binary32::one(),
{
    let n = num * binary32::one();
    let big = binary32::step29() as int;
    let fine = n / den;
    binary32::lemma_round24_close(n, den);
    lemma_fundamental_div_mod(n as int, den as int);
    assert(n == (num * 0x2000_0000) * big) by (nonlinear_arith)
        requires
            n == num * 0x20000000000000000000000000000000000000nat,
            big == 0x1000000000000000000000000000000nat,
    ;
    assert(fine < 0x100_0000 * big) by (nonlinear_arith)
        requires
            n == den * fine + n % den,
            n % den >= 0,
            n == (q * den + s) * big,
            q + 1 <= 0x100_0000,
            s < den,
            big > 0,
            den > 0,
    ;
}

/// A fraction of at least 10^4 rounds to at least 8192.
proof fn lemma_huge(num: nat, den: nat, n: nat, r: nat)
    requires
        den > 0,
        num * pow10(29) == n * den + r,
        n >= LIMIT,
    ensures
        binary32::nearest(num, den) >= 8192 * binary32::one(),
{
    lemma_pow10_values();
    let m = num * binary32::one();
    let one = binary32::one() as int;
    let fine = m / den;
    assert(num >= 10000 * den) by (nonlinear_arith)
        requires
            num * 100000000000000000000000000000nat == n * den + r,
            n >= 1000000000000000000000000000000000nat,
            r >= 0,
            den > 0,
    ;
    binary32::lemma_round24_close(m, den);
    lemma_fundamental_div_mod(m as int, den as int);
    assert(fine >= 10000 * one) by (nonlinear_arith)
        requires
            m == num * one,
            num >= 10000 * den,
            m == den * fine + m % den,
            m % den < den,
            den > 0,
            one > 0,
    ;
}

/// A number rounds to zero exactly if it lies at or below half the smallest
/// positive one.
proof fn lemma_rounds_to_zero(num: nat, den: nat)
    requires
        den > 0,
    ensures
        (binary32::nearest(num, den) == 0) == (2 * (num * binary32::one()) <= den),
{
    let n = num * binary32::one();
    let q = n / den;
    let u = binary32::unit(q);
    binary32::lemma_unit_bounds(q);
    lemma_fundamental_div_mod(n as int, den as int);
    if q >= 0x80_0000 {
        binary32::lemma_round24_close(n, den);
        assert(n >= den) by (nonlinear_arith)
            requires
                n == den * q + n % den,
                q >= 1,
                n % den >= 0,
                den > 0,
        ;
    } else {
        assert(u == 1);
        assert(den * 1 == den);
        assert(binary32::nearest(num, den) == binary32::half_even(n, den) * 1);
        assert(q > 0 ==> n >= den) by (nonlinear_arith)
            requires
                n == den * q + n % den,
                n % den >= 0,
                den > 0,
        ;
        if q == 0 {
            assert(den * q == 0) by (nonlinear_arith)
                requires
                    q == 0,
            ;
        }
    }
}


/// 1 if doubling the digit at `i` carries, else 0.
spec fn carry(t: Seq<char>, i: int) -> nat {
    if i < t.len() && text::digit_value(t[i]) >= 5 {
        1
    } else {
        0
    }
}

/// The digits of twice the number that `v` stands for.
fn double(v: &Vec<char>) -> (r: Vec<char>)
    requires
        all_digits(v@),
        v@.len() > 0,
        v@[0] != '0',
    ensures
        all_digits(r@),
        digits_value(r@) == 2 * digits_value(v@),
        r@.len() > 0,
        r@[0] != '0',
{
    let ghost t = v@;
    let mut out: Vec<char> = Vec::new();
    assert(text::is_digit(t[0]));
    if value_of_digit(v[0]) >= 5 {
        out.push('1');
        assert(out@.drop_last() =~= Seq::empty());
    }
    assert(t.take(0) =~= Seq::empty());
    let mut i: usize = 0;
    while i < v.len()
        invariant
            i <= v@.len(),
            t == v@,
            t.len() > 0,
            t[0] != '0',
            all_digits(t),
            all_digits(out@),
            digits_value(out@) == 2 * digits_value(t.take(i as int)) + carry(t, i as int),
            i == 0 ==> out@ == (if carry(t, 0) == 1 {
                seq!['1']
            } else {
                Seq::empty()
            }),
            i > 0 ==> out@.len() > 0 && out@[0] != '0',
        decreases v@.len() - i,
    {
        proof {
            lemma_take_push(t, i as int);
            assert(text::is_digit(t[i as int]));
            if i + 1 < t.len() {
                assert(text::is_digit(t[i + 1]));
            }
        }
        let d: u8 = value_of_digit(v[i]);
        let low: u8 = if d >= 5 {
            2 * d - 10
        } else {
            2 * d
        };
        let next: u8 = if i + 1 < v.len() && value_of_digit(v[i + 1]) >= 5 {
            1
        } else {
            0
        };
        let ghost before = out@;
        out.push(char_of_digit(low + next));
        i = i + 1;
        proof {
            assert(out@.drop_last() =~= before);
            assert(text::digit_value(out@.last()) == low + next);
            assert forall|j: int| 0 <= j < out@.len() implies text::is_digit(#[trigger] out@[j]) by {
                if j < before.len() {
                    assert(text::is_digit(before[j]));
                }
            }
            if before.len() > 0 {
                assert(out@[0] == before[0]);
            } else {
                assert(text::digit_value(t[0]) > 0);
            }
        }
    }
    assert(t.take(t.len() as int) =~= t);
    out
}

/// Digits without a leading zero against a power of ten.
proof fn lemma_against_power(t: Seq<char>, k: nat)
    requires
        all_digits(t),
        t.len() > 0,
        t[0] != '0',
    ensures
        t.len() <= k ==> digits_value(t) <= pow10(k),
        t.len() > k + 1 ==> digits_value(t) > pow10(k),
        t.len() == k + 1 ==> (digits_value(t) <= pow10(k)) == (t[0] == '1' && forall|i: int|
            1 <= i < t.len() ==> #[trigger] t[i] == '0'),
        digits_value(t) > 0,
{
    lemma_digits_below(t);
    lemma_digits_split(t, 1);
    lemma_all_digits_parts(t, 1);
    let head = t.take(1);
    let rest = t.skip(1);
    assert(head.drop_last() =~= Seq::empty());
    assert(digits_value(head) == text::digit_value(t[0])) by {
        assert(digits_value(head.drop_last()) == 0);
        assert(head.last() == t[0]);
    }
    assert(text::is_digit(t[0]));
    let h = text::digit_value(t[0]);
    assert(h >= 1);
    let p = pow10((t.len() - 1) as nat);
    lemma_pow10_pos((t.len() - 1) as nat);
    assert(h * p >= p && (h >= 2 ==> h * p >= 2 * p) && (h == 1 ==> h * p == p))
        by (nonlinear_arith)
        requires
            h >= 1,
            p > 0,
    ;
    lemma_digits_zero(rest);
    if t.len() <= k {
        lemma_pow10_order(t.len(), k);
    } else if t.len() > k + 1 {
        lemma_pow10_order(k + 1, (t.len() - 1) as nat);
        lemma_pow10_pos(k);
    } else {
        assert(h == 1 <==> t[0] == '1');
        if forall|i: int| 1 <= i < t.len() ==> #[trigger] t[i] == '0' {
            assert forall|i: int| 0 <= i < rest.len() implies #[trigger] rest[i] == '0' by {
                assert(t[i + 1] == '0');
            }
        }
        if digits_value(rest) == 0 {
            assert forall|i: int| 1 <= i < t.len() implies #[trigger] t[i] == '0' by {
                assert(rest[i - 1] == '0');
            }
        }
    }
}

/// 2^150.
spec fn twos150() -> nat {
    2 * binary32::one()
}

proof fn lemma_twos150()
    ensures
        binary32::twos(150) == twos150(),
        twos150() < pow10(46),
{
    assert(binary32::twos(30) == 0x4000_0000) by {
        reveal_with_fuel(binary32::twos, 31);
    }
    binary32::lemma_twos_sum(30, 30);
    binary32::lemma_twos_sum(60, 60);
    binary32::lemma_twos_sum(120, 30);
    let t = 0x4000_0000nat;
    assert(t * t == 0x1000_0000_0000_0000nat) by (nonlinear_arith)
        requires
            t == 0x4000_0000,
    ;
    let w = 0x1000_0000_0000_0000nat;
    assert(w * w == 0x1000000000000000000000000000000nat) by (nonlinear_arith)
        requires
            w == 0x1000_0000_0000_0000nat,
    ;
    lemma_pow10_values();
}

/// `digits` without their leading zeros.
fn significant(digits: &Vec<char>) -> (r: Vec<char>)
    requires
        all_digits(digits@),
    ensures
        all_digits(r@),
        digits_value(r@) == digits_value(digits@),
        r@.len() <= digits@.len(),
        r@.len() > 0 ==> r@[0] != '0',
{
    let ghost t = digits@;
    let mut out: Vec<char> = Vec::new();
    let mut i: usize = 0;
    assert(t.take(0) =~= Seq::empty());
    while i < digits.len()
        invariant
            i <= digits@.len(),
            t == digits@,
            all_digits(t),
            all_digits(out@),
            out@.len() <= i,
            digits_value(out@) == digits_value(t.take(i as int)),
            out@.len() > 0 ==> out@[0] != '0',
        decreases digits@.len() - i,
    {
        proof {
            lemma_take_push(t, i as int);
            assert(text::is_digit(t[i as int]));
        }
        if out.len() > 0 || digits[i] != '0' {
            let ghost before = out@;
            out.push(digits[i]);
            proof {
                assert(out@.drop_last() =~= before);
                assert forall|j: int| 0 <= j < out@.len() implies text::is_digit(
                    #[trigger] out@[j],
                ) by {
                    if j < before.len() {
                        assert(text::is_digit(before[j]));
                    }
                }
                if before.len() > 0 {
                    assert(out@[0] == before[0]);
                }
            }
        }
        i = i + 1;
    }
    assert(t.take(t.len() as int) =~= t);
    out
}

/// Whether the digits scaled by 10^`scale` round to zero.
fn negligible(digits: &Vec<char>, scale: i128, Ghost(t): Ghost<int>) -> (r: bool)
    requires
        all_digits(digits@),
        near(scale as int, t),
        -2 * FAR <= scale <= 2 * FAR,
    ensures
        r == (binary32::nearest(
            numerator(digits_value(digits@), t),
            denominator(t),
        ) == 0),
{
    let ghost d = digits_value(digits@);
    let mut w = significant(digits);
    proof {
        if t < 0 {
            lemma_pow10_pos((-t) as nat);
        }
        lemma_rounds_to_zero(numerator(d, t), denominator(t));
        lemma_twos150();
    }
    if w.len() == 0 {
        assert(d == 0);
        assert(0 * pow10(t as nat) == 0);
        return true;
    }
    proof {
        lemma_against_power(w@, 0);
    }
    if scale >= 0 {
        proof {
            let p = pow10(t as nat);
            lemma_pow10_pos(t as nat);
            assert(d * p > 0) by (nonlinear_arith)
                requires
                    d > 0,
                    p > 0,
            ;
        }
        return false;
    }
    let k: i128 = -scale;
    let ghost need = d * twos150();
    assert(2 * (d * binary32::one()) == need);
    if k >= w.len() as i128 + 46 {
        proof {
            let len = w@.len();
            lemma_digits_below(w@);
            lemma_pow10_sum(len, 46);
            lemma_pow10_order(len + 46, (-t) as nat);
            let (a, b, c) = (pow10(len), pow10(46), twos150());
            assert(d * c <= a * b) by (nonlinear_arith)
                requires
                    0 <= d < a,
                    0 <= c < b,
            ;
        }
        return true;
    }
    let mut i: u32 = 0;
    assert(binary32::twos(0) == 1);
    assert(d * 1 == d);
    while i < 150
        invariant
            i <= 150,
            all_digits(w@),
            w@.len() > 0,
            w@[0] != '0',
            digits_value(w@) == d * binary32::twos(i as nat),
        decreases 150 - i,
    {
        proof {
            let x = binary32::twos(i as nat);
            assert(2 * (d * x) == d * (2 * x)) by (nonlinear_arith);
            assert(binary32::twos((i + 1) as nat) == 2 * x);
        }
        w = double(&w);
        i = i + 1;
    }
    proof {
        lemma_against_power(w@, (-t) as nat);
    }
    let len = w.len() as i128;
    if len <= k {
        return true;
    }
    if len > k + 1 {
        return false;
    }
    if w[0] != '1' {
        return false;
    }
    let mut power: bool = true;
    let mut j: usize = 1;
    while j < w.len()
        invariant
            1 <= j <= w@.len(),
            power == (forall|x: int| 1 <= x < j ==> #[trigger] w@[x] == '0'),
        decreases w@.len() - j,
    {
        if w[j] != '0' {
            power = false;
        }
        j = j + 1;
    }
    power
}

/// The size of the single-precision number nearest to the digits scaled by
/// 10^`scale`.
fn measure(digits: &Vec<char>, scale: i128, Ghost(t): Ghost<int>) -> (r: Size)
    requires
        all_digits(digits@),
        near(scale as int, t),
        near(scale + 29, t + 29),
        -FAR - 0x1_0000_0000_0000_0000 <= scale <= FAR + 0x1_0000_0000_0000_0000,
    ensures
        r.measures(binary32::nearest(numerator(digits_value(digits@), t), denominator(t))),
{
    let ghost d = digits_value(digits@);
    let ghost num = numerator(d, t);
    let ghost den = denominator(t);
    let ghost r = lemma_tenths29(d, t);
    let (n, lost) = match shift(digits, scale + 29, Ghost(t + 29)) {
        None => {
            proof {
                lemma_huge(num, den, shifted(d, t + 29), r);
            }
            return Size::Huge;
        },
        Some(pair) => pair,
    };
    let q128: u128 = n / FIVES;
    let r5: u128 = n % FIVES;
    assert(q128 < 0x800_0000_0000 - 0x10_0000);
    let q: u64 = q128 as u64;
    let ghost s = lemma_binary29(num, den, n as nat, r, q as nat, r5 as nat);
    if q < 0x100_0000 {
        proof {
            lemma_tiny(num, den, q as nat, s);
        }
        return Size::Tiny { zero: negligible(digits, scale, Ghost(t)) };
    }
    let u = unit_of(q);
    let a: u64 = q / u;
    let rem: u64 = q % u;
    let half: u64 = u / 2;
    proof {
        binary32::lemma_unit_bounds(q as nat);
        lemma_fundamental_div_mod(q as int, u as int);
        let (a0, u0) = (a as nat, u as nat);
        assert(u0 * a0 == a0 * u0) by (nonlinear_arith);
        binary32::lemma_nearest29(num, den, q as nat, s, a as nat, rem as nat);
        assert(u0 * (a0 + 1) == u0 * a0 + u0) by (nonlinear_arith);
        let big = binary32::step29();
        assert(big * (u0 * a0) == (a0 * u0) * big) by (nonlinear_arith);
        assert(big * (u0 * (a0 + 1)) == (a0 * u0 + u0) * big) by (nonlinear_arith);
    }
    if rem > half || (rem == half && (lost || r5 > 0 || a % 2 == 1)) {
        Size::Units(a * u + u)
    } else {
        proof {
            assert(a * u >= 0x100_0000) by (nonlinear_arith)
                requires
                    q == a * u + rem,
                    rem < u,
                    q >= 0x100_0000,
                    u >= 1,
                    0x80_0000 * u <= q,
                    q < 0x100_0000 * u,
                    u % 2 == 0,
            ;
        }
        Size::Units(a * u)
    }
}


/// Reads the number written in `cs[from..]`, behind the sign.
fn read_unsigned(cs: &Vec<char>, from: usize, negative: bool) -> (r: Reading)
    requires
        from <= cs@.len(),
    ensures
        r.of(unsigned_number(cs@.skip(from as int), negative)),
{
    let ghost t = cs@.skip(from as int);
    let len = cs.len();
    let e = find_mark(cs, from, len, 'e', 'E');
    let p = find_mark(cs, from, e, '.', '.');
    let ghost m = t.take(e - from);
    proof {
        assert(cs@.subrange(from as int, len as int) =~= t);
        assert(cs@.subrange(from as int, e as int) =~= m);
        assert(cs@.subrange(from as int, p as int) =~= m.take(p - from));
        if p < e {
            assert(cs@.subrange(p + 1, e as int) =~= m.skip(p - from + 1));
        } else {
            assert(cs@.subrange(e as int, e as int) =~= Seq::empty());
        }
        if e < len {
            assert(cs@.skip(e + 1) =~= t.skip(e - from + 1));
        }
    }
    let behind: usize = if p < e {
        p + 1
    } else {
        e
    };
    let mut digits: Vec<char> = Vec::new();
    if !push_digits(cs, from, p, &mut digits) {
        return Reading::Invalid;
    }
    if !push_digits(cs, behind, e, &mut digits) {
        return Reading::Invalid;
    }
    let ghost whole = m.take(p - from);
    let ghost part = cs@.subrange(behind as int, e as int);
    proof {
        assert(digits@ =~= whole + part);
        assert forall|i: int| 0 <= i < digits@.len() implies text::is_digit(
            #[trigger] digits@[i],
        ) by {
            if i < whole.len() {
                assert(text::is_digit(whole[i]));
            } else {
                assert(text::is_digit(part[i - whole.len()]));
            }
        }
    }
    let exp: i128 = if e < len {
        match read_exponent(cs, e + 1) {
            None => {
                return Reading::Invalid;
            },
            Some(x) => x,
        }
    } else {
        0
    };
    if digits.len() == 0 {
        return Reading::Invalid;
    }
    let ghost x = if e < len {
        numeral(cs@.skip(e + 1))->0
    } else {
        0
    };
    let size = measure(
        &digits,
        exp - (e - behind) as i128,
        Ghost(x - part.len()),
    );
    Reading::Finite { negative, size }
}

/// Reads the text `s` as a single-precision number.
pub fn read(s: &str) -> (r: Reading)
    ensures
        r.of(number(s@)),
{
    let cs = chars_of(s);
    let len = cs.len();
    if len == 0 {
        return Reading::Empty;
    }
    let negative = cs[0] == '-';
    let from: usize = if cs[0] == '-' || cs[0] == '+' {
        1
    } else {
        0
    };
    let rest = s.substring_char(from, len);
    proof {
        assert(rest@ =~= cs@.skip(from as int));
        assert(cs@.skip(0) =~= cs@);
    }
    let word = lowercase(rest);
    if same(word.as_str(), "inf") || same(word.as_str(), "infinity") {
        return Reading::Infinite { negative };
    }
    if same(word.as_str(), "nan") {
        return Reading::NotANumber;
    }
    read_unsigned(&cs, from, negative)
}


// ---------------------------------------------------------------------
// Ten times a number
// ---------------------------------------------------------------------

/// The single-precision number `y` times ten, rounded to an integer with ties
/// away from zero.
pub open spec fn tenths_of(y: nat) -> nat {
    (2 * binary32::round24(10 * y, 1) + binary32::one()) / (2 * binary32::one())
}

/// Ten times a number as an integer, or `None` if it exceeds 32768.
pub fn tenths(size: Size) -> (r: Option<u64>)
    ensures
        forall|y: nat| #[trigger]
            size.measures(y) ==> match r {
                Some(t) => t as nat == tenths_of(y),
                None => tenths_of(y) > 32768,
            },
        r matches Some(t) ==> t < 0x1_0000_0000,
{
    match size {
        Size::Tiny { zero } => {
            assert forall|y: nat| #[trigger] size.measures(y) implies tenths_of(y) == 0 by {
                binary32::lemma_round24_close(10 * y, 1);
                assert((10 * y) / 1 == 10 * y);
                let z = binary32::round24(10 * y, 1);
                let one = binary32::one();
                assert(2 * z + one < 2 * one);
                binary32::lemma_div_mod(2 * z + one, 2 * one, 0, 2 * z + one);
            }
            Some(0)
        },
        Size::Huge => {
            assert forall|y: nat| #[trigger] size.measures(y) implies tenths_of(y) > 32768 by {
                binary32::lemma_round24_close(10 * y, 1);
                assert((10 * y) / 1 == 10 * y);
                let z = binary32::round24(10 * y, 1);
                let one = binary32::one();
                assert(2 * z + one >= 32769 * (2 * one));
                let (n, d) = (2 * z + one, 2 * one);
                let q = n / d;
                lemma_fundamental_div_mod(n as int, d as int);
                assert(q >= 32769) by (nonlinear_arith)
                    requires
                        n == d * q + n % d,
                        n % d < d,
                        n >= 32769 * d,
                        d > 0,
                ;
            }
            None
        },
        Size::Units(u) => {
            if u >= 0x800_0000_0000 || u < 0x100_0000 {
                return None;
            }
            let z: u64 = round_to_24(10 * u);
            proof {
                binary32::lemma_round24_close((10 * u) as nat, 1);
                assert((10 * u) as nat / 1 == 10 * u);
            }
            let t: u64 = (2 * z + 0x2000_0000) / 0x4000_0000;
            assert forall|y: nat| #[trigger] size.measures(y) implies tenths_of(y) == t by {
                let big = binary32::step29();
                let m = (10 * u) as nat;
                binary32::lemma_round24_scale(m);
                assert(10 * y == m * big);
                let n = (2 * z + 0x2000_0000) as nat;
                let d = 0x4000_0000nat;
                assert(2 * (z * big) + binary32::one() == n * big);
                assert(2 * binary32::one() == d * big);
                let r = n % d;
                assert(n * big == (t as nat) * (d * big) + r * big) by (nonlinear_arith)
                    requires
                        n == t * d + r,
                ;
                assert(r * big < d * big);
                binary32::lemma_div_mod(n * big, d * big, t as nat, r * big);
            }
            Some(t)
        },
    }
}


// ---------------------------------------------------------------------
// What is printed can be read back
// ---------------------------------------------------------------------

proof fn lemma_mark_at(t: Seq<char>, k: int, a: char, b: char)
    requires
        0 <= k <= t.len(),
        forall|i: int| 0 <= i < k ==> #[trigger] t[i] != a && t[i] != b,
        k < t.len() ==> t[k] == a || t[k] == b,
    ensures
        mark(t, a, b) == k,
    decreases k,
{
    if k > 0 {
        assert(t[0] != a && t[0] != b);
        assert forall|i: int| 0 <= i < k - 1 implies #[trigger] t.skip(1)[i] != a && t.skip(1)[i]
            != b by {
            assert(t[i + 1] != a);
        }
        lemma_mark_at(t.skip(1), k - 1, a, b);
    }
}

proof fn lemma_decimal_value(n: nat)
    ensures
        digits_value(text::decimal(n)) == n,
    decreases n,
{
    let s = text::decimal(n);
    assert(text::digit_value(text::digit_char(n % 10)) == n % 10);
    if n < 10 {
        assert(s.drop_last() =~= Seq::empty());
        assert(digits_value(s.drop_last()) == 0);
    } else {
        lemma_decimal_value(n / 10);
        assert(s.drop_last() =~= text::decimal(n / 10));
    }
}

/// A number printed with one decimal place stands for itself.
pub proof fn law_printed_tenths_stand_for_themselves(size: nat, negative: bool)
    ensures
        ({
            let t = text::decimal(size / 10) + "."@ + text::decimal(size % 10);
            number(
                if negative {
                    "-"@ + t
                } else {
                    t
                },
            ) == (Number::Finite { negative, num: size, den: 10 })
        }),
{
    reveal_strlit(".");
    reveal_strlit("-");
    reveal_strlit("inf");
    reveal_strlit("infinity");
    reveal_strlit("nan");
    let a = text::decimal(size / 10);
    let b = text::decimal(size % 10);
    let t = a + "."@ + b;
    let s = if negative {
        "-"@ + t
    } else {
        t
    };
    lemma_decimal_digits(size / 10);
    lemma_decimal_digits(size % 10);
    assert(text::is_digit(a[0]) && t[0] == a[0]);
    assert(text::lower(t)[0] == t[0]);
    if negative {
        assert(s.skip(1) =~= t);
    }
    assert forall|i: int| 0 <= i < t.len() implies (#[trigger] t[i] == '.' <==> i == a.len())
        && t[i] != 'e' && t[i] != 'E' by {
        if i < a.len() {
            assert(text::is_digit(a[i]) && t[i] == a[i]);
        } else if i > a.len() {
            assert(text::is_digit(b[i - a.len() - 1]) && t[i] == b[i - a.len() - 1]);
        }
    }
    lemma_mark_at(t, t.len() as int, 'e', 'E');
    assert(t.take(t.len() as int) =~= t);
    lemma_mark_at(t, a.len() as int, '.', '.');
    assert(t.take(a.len() as int) =~= a);
    assert(t.skip((a.len() + 1) as int) =~= b);
    assert(b.len() == 1);
    assert((a + b).drop_last() =~= a);
    assert((a + b).last() == b[0]);
    lemma_decimal_value(size / 10);
    assert(text::digit_value(text::digit_char(size % 10)) == size % 10);
    lemma_pow10_values();
}

/// Up to 32768 tenths, reading a number in single precision and multiplying
/// it by ten gives back the tenths it was printed from.
pub proof fn law_tenths_survive_single_precision(size: nat)
    requires
        size <= 32768,
    ensures
        tenths_of(binary32::nearest(size, 10)) == size,
{
    let one = binary32::one();
    let n = size * one;
    let q = n / 10;
    let y = binary32::nearest(size, 10);
    binary32::lemma_round24_close(n, 10);
    binary32::lemma_round24_close(10 * y, 1);
    assert((10 * y) / 1 == 10 * y);
    let z = binary32::round24(10 * y, 1);
    assert(n <= 32768 * one) by (nonlinear_arith)
        requires
            n == size * one,
            size <= 32768,
    ;
    assert(size * (2 * one) == 2 * n) by (nonlinear_arith)
        requires
            n == size * one,
    ;
    let rest = 2 * z + one - 2 * n;
    assert(0 <= rest < 2 * one);
    binary32::lemma_div_mod(2 * z + one, 2 * one, size, rest as nat);
}


/// A sequence of digits stands for the integer they spell.
pub proof fn lemma_digits_number(t: Seq<char>, negative: bool)
    requires
        all_digits(t),
        t.len() > 0,
    ensures
        unsigned_number(t, negative) == (Number::Finite {
            negative,
            num: digits_value(t),
            den: 1,
        }),
        text::lower(t) != "inf"@,
        text::lower(t) != "infinity"@,
        text::lower(t) != "nan"@,
{
    reveal_strlit("inf");
    reveal_strlit("infinity");
    reveal_strlit("nan");
    assert(text::is_digit(t[0]));
    assert(text::lower(t)[0] == t[0]);
    assert forall|i: int| 0 <= i < t.len() implies #[trigger] t[i] != '.' && t[i] != 'e' && t[i]
        != 'E' by {
        assert(text::is_digit(t[i]));
    }
    let n = t.len() as int;
    lemma_mark_at(t, n, 'e', 'E');
    lemma_mark_at(t, n, '.', '.');
    assert(t.take(n) =~= t);
    assert(t + Seq::<char>::empty() =~= t);
    assert(pow10(0) == 1);
    assert(digits_value(t) * 1 == digits_value(t));
}

/// An integer printed in decimal stands for itself.
pub proof fn law_printed_integer_stands_for_itself(n: nat)
    ensures
        number(text::decimal(n)) == (Number::Finite { negative: false, num: n, den: 1 }),
{
    let t = text::decimal(n);
    lemma_decimal_digits(n);
    lemma_decimal_value(n);
    assert(text::is_digit(t[0]));
    lemma_digits_number(t, false);
}


/// Ten times a number of moderate size, rounded to an integer, is the nearest
/// integer to within what single precision adds.
pub proof fn lemma_tenths_are_close(num: nat, den: nat)
    requires
        den > 0,
        num <= 4000 * den,
    ensures
        100 * tenths_of(binary32::nearest(num, den)) * den <= 1000 * num + 51 * den,
        100 * tenths_of(binary32::nearest(num, den)) * den + 51 * den >= 1000 * num,
{
    let one = binary32::one();
    let n = num * one;
    let q = n / den;
    let y = binary32::nearest(num, den);
    let z = binary32::round24(10 * y, 1);
    let t = tenths_of(y);
    lemma_fundamental_div_mod(n as int, den as int);
    assert(den * q <= n < den * (q + 1)) by (nonlinear_arith)
        requires
            n == den * q + n % den,
            0 <= n % den < den,
    ;
    assert(q <= 4000 * one) by (nonlinear_arith)
        requires
            den * q <= num * one,
            num <= 4000 * den,
            den > 0,
            one > 0,
    ;
    binary32::lemma_round24_close(n, den);
    binary32::lemma_round24_close(10 * y, 1);
    assert((10 * y) / 1 == 10 * y);
    lemma_fundamental_div_mod((2 * z + one) as int, (2 * one) as int);
    let rem = ((2 * z + one) % (2 * one)) as int;
    assert(0 <= rem < 2 * one);
    let a = t * one;
    assert((2 * one) * t == 2 * a) by (nonlinear_arith)
        requires
            a == t * one,
    ;
    assert(2 * z + one == 2 * a + rem);
    assert(100 * a <= 1000 * q + 51 * one);
    assert(100 * a + 51 * one >= 1000 * (q + 1));
    assert((100 * t * den) * one <= (1000 * num + 51 * den) * one) by (nonlinear_arith)
        requires
            a == t * one,
            100 * a <= 1000 * q + 51 * one,
            den * q <= num * one,
            den > 0,
    ;
    assert((100 * t * den + 51 * den) * one >= (1000 * num) * one) by (nonlinear_arith)
        requires
            a == t * one,
            100 * a + 51 * one >= 1000 * (q + 1),
            num * one < den * (q + 1),
            den > 0,
    ;
    assert(100 * t * den <= 1000 * num + 51 * den) by (nonlinear_arith)
        requires
            (100 * t * den) * one <= (1000 * num + 51 * den) * one,
            one > 0,
    ;
    assert(100 * t * den + 51 * den >= 1000 * num) by (nonlinear_arith)
        requires
            (100 * t * den + 51 * den) * one >= (1000 * num) * one,
            one > 0,
    ;
}

/// Ten times a large number exceeds what a word can hold.
pub proof fn lemma_tenths_are_large(num: nat, den: nat)
    requires
        den > 0,
        num > 4000 * den,
    ensures
        tenths_of(binary32::nearest(num, den)) > 32769,
{
    let one = binary32::one();
    let n = num * one;
    let q = n / den;
    let y = binary32::nearest(num, den);
    let z = binary32::round24(10 * y, 1);
    let t = tenths_of(y);
    lemma_fundamental_div_mod(n as int, den as int);
    let rest = (n % den) as int;
    assert(n < den * (q + 1)) by (nonlinear_arith)
        requires
            n == den * q + rest,
            rest < den,
    ;
    assert(q + 1 >= 4000 * one) by (nonlinear_arith)
        requires
            num * one < den * (q + 1),
            num > 4000 * den,
            den > 0,
            one > 0,
    ;
    binary32::lemma_round24_close(n, den);
    binary32::lemma_round24_close(10 * y, 1);
    assert((10 * y) / 1 == 10 * y);
    assert(2 * z + one >= 32770 * (2 * one));
    lemma_fundamental_div_mod((2 * z + one) as int, (2 * one) as int);
    let rem = ((2 * z + one) % (2 * one)) as int;
    assert(t >= 32770) by (nonlinear_arith)
        requires
            2 * z + one == (2 * one) * t + rem,
            rem < 2 * one,
            2 * z + one >= 32770 * (2 * one),
            one > 0,
    ;
}

} // verus!
