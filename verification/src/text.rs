//! The string operations the rest of the crate is built from: trimming,
//! ASCII case folding, decimal and hexadecimal numbers, column padding.
//!
//! Texts are modelled as the sequence of their characters (`s@`).

use vstd::prelude::*;

verus! {

/// `String::push` appends one character to the text.
pub assume_specification[ String::push ](s: &mut String, c: char)
    ensures
        final(s)@ == old(s)@.push(c),
;

/// `String::pop` takes the last character off the text and returns it, or
/// leaves an empty text alone and returns `None`.
pub assume_specification[ String::pop ](s: &mut String) -> (r: Option<char>)
    ensures
        old(s)@.len() == 0 ==> r is None && final(s)@ == old(s)@,
        old(s)@.len() > 0 ==> r == Some(old(s)@.last()) && final(s)@ == old(s)@.drop_last(),
;

// ---------------------------------------------------------------------
// Characters
// ---------------------------------------------------------------------

/// An ASCII decimal digit.
pub open spec fn is_digit(c: char) -> bool {
    '0' <= c <= '9'
}

/// The number an ASCII decimal digit stands for.
pub open spec fn digit_value(c: char) -> nat {
    (c as u32 - '0' as u32) as nat
}

/// The ASCII decimal digit that stands for `d`, for `d < 10`.
pub open spec fn digit_char(d: nat) -> char {
    ('0' as u32 + d) as char
}

/// The characters with the Unicode property `White_Space`.
pub open spec fn is_space(c: char) -> bool {
    let u = c as u32;
    ||| 0x09 <= u <= 0x0D
    ||| u == 0x20
    ||| u == 0x85
    ||| u == 0xA0
    ||| u == 0x1680
    ||| 0x2000 <= u <= 0x200A
    ||| u == 0x2028
    ||| u == 0x2029
    ||| u == 0x202F
    ||| u == 0x205F
    ||| u == 0x3000
}

/// `c` with an ASCII upper-case letter turned into its lower-case form.
pub open spec fn lower_char(c: char) -> char {
    if 'A' <= c <= 'Z' {
        (c as u32 + 32) as char
    } else {
        c
    }
}

/// Whether `c` has the Unicode property `White_Space`.
pub fn space(c: char) -> (r: bool)
    ensures
        r == is_space(c),
{
    let u: u32 = c as u32;
    (0x09 <= u && u <= 0x0D) || u == 0x20 || u == 0x85 || u == 0xA0 || u == 0x1680 || (0x2000 <= u
        && u <= 0x200A) || u == 0x2028 || u == 0x2029 || u == 0x202F || u == 0x205F || u == 0x3000
}

/// Whether `c` is an ASCII decimal digit.
pub fn digit(c: char) -> (r: bool)
    ensures
        r == is_digit(c),
{
    '0' <= c && c <= '9'
}

/// The number the digit `c` stands for.
pub fn value_of_digit(c: char) -> (r: u8)
    requires
        is_digit(c),
    ensures
        r as nat == digit_value(c),
        r < 10,
{
    c as u8 - 48
}

/// The digit that stands for `d`.
pub fn char_of_digit(d: u8) -> (r: char)
    requires
        d < 10,
    ensures
        r == digit_char(d as nat),
{
    (d + 48) as char
}

fn to_lower(c: char) -> (r: char)
    ensures
        r == lower_char(c),
{
    if 'A' <= c && c <= 'Z' {
        (c as u8 + 32) as char
    } else {
        c
    }
}

// ---------------------------------------------------------------------
// Whole texts
// ---------------------------------------------------------------------

/// The characters of `s`.
pub fn chars_of(s: &str) -> (r: Vec<char>)
    ensures
        r@ == s@,
{
    let mut out: Vec<char> = Vec::new();
    for c in it: s.chars()
        invariant
            it.seq() == s@,
            out@ == s@.take(it.index() as int),
    {
        out.push(c);
    }
    out
}

/// Whether two texts are the same.
pub fn same(a: &str, b: &str) -> (r: bool)
    ensures
        r == (a@ == b@),
{
    a.to_owned() == b.to_owned()
}

/// `s` without its leading white space.
pub open spec fn skip_space(s: Seq<char>) -> Seq<char>
    decreases s.len(),
{
    if s.len() > 0 && is_space(s[0]) {
        skip_space(s.skip(1))
    } else {
        s
    }
}

/// `s` without its trailing white space.
pub open spec fn drop_space(s: Seq<char>) -> Seq<char>
    decreases s.len(),
{
    if s.len() > 0 && is_space(s.last()) {
        drop_space(s.drop_last())
    } else {
        s
    }
}

/// `s` without the white space at its two ends.
pub open spec fn trimmed(s: Seq<char>) -> Seq<char> {
    drop_space(skip_space(s))
}

proof fn lemma_skip_space(s: Seq<char>, k: int)
    requires
        0 <= k <= s.len(),
        forall|i: int| 0 <= i < k ==> is_space(#[trigger] s[i]),
    ensures
        skip_space(s) == skip_space(s.skip(k)),
    decreases k,
{
    if k > 0 {
        assert(is_space(s[0]));
        lemma_skip_space(s.skip(1), k - 1);
        assert(s.skip(1).skip(k - 1) =~= s.skip(k));
    } else {
        assert(s.skip(0) =~= s);
    }
}

proof fn lemma_drop_space(s: Seq<char>, k: int)
    requires
        0 <= k <= s.len(),
        forall|i: int| k <= i < s.len() ==> is_space(#[trigger] s[i]),
    ensures
        drop_space(s) == drop_space(s.take(k)),
    decreases s.len() - k,
{
    if k < s.len() {
        assert(is_space(s[s.len() - 1]));
        lemma_drop_space(s.drop_last(), k);
        assert(s.drop_last().take(k) =~= s.take(k));
    } else {
        assert(s.take(k) =~= s);
    }
}

/// How many white-space characters `cs` starts with.
fn leading_space(cs: &Vec<char>) -> (k: usize)
    ensures
        k <= cs@.len(),
        forall|i: int| 0 <= i < k ==> is_space(#[trigger] cs@[i]),
        k < cs@.len() ==> !is_space(cs@[k as int]),
{
    let mut k: usize = 0;
    while k < cs.len() && space(cs[k])
        invariant
            k <= cs@.len(),
            forall|i: int| 0 <= i < k ==> is_space(#[trigger] cs@[i]),
        decreases cs@.len() - k,
    {
        k = k + 1;
    }
    k
}

/// `s` without its leading white space.
pub fn trim_start(s: &str) -> (r: &str)
    ensures
        r@ == skip_space(s@),
{
    let cs = chars_of(s);
    let from = leading_space(&cs);
    proof {
        lemma_skip_space(s@, from as int);
        assert(s@.skip(from as int) =~= s@.subrange(from as int, s@.len() as int));
        if from < s@.len() {
            assert(s@.skip(from as int)[0] == s@[from as int]);
        }
    }
    s.substring_char(from, cs.len())
}

/// `s` without the white space at its two ends.
pub fn trim(s: &str) -> (r: &str)
    ensures
        r@ == trimmed(s@),
{
    let inner = trim_start(s);
    let cs = chars_of(inner);
    let mut to: usize = cs.len();
    while to > 0 && space(cs[to - 1])
        invariant
            to <= cs@.len(),
            cs@ == inner@,
            forall|i: int| to <= i < cs@.len() ==> is_space(#[trigger] cs@[i]),
        decreases to,
    {
        to = to - 1;
    }
    proof {
        lemma_drop_space(inner@, to as int);
        assert(inner@.take(to as int) =~= inner@.subrange(0, to as int));
        if to > 0 {
            assert(inner@.take(to as int).last() == inner@[to - 1]);
        }
    }
    inner.substring_char(0, to)
}

/// A text that neither starts nor ends with white space stays as it is.
pub proof fn lemma_already_trimmed(s: Seq<char>)
    requires
        s.len() > 0,
        !is_space(s[0]),
        !is_space(s.last()),
    ensures
        trimmed(s) == s,
{
}

/// `s` with its ASCII letters in lower case.
pub open spec fn lower(s: Seq<char>) -> Seq<char> {
    s.map_values(|c: char| lower_char(c))
}

/// `s` with its ASCII letters in lower case.
pub fn lowercase(s: &str) -> (r: String)
    ensures
        r@ == lower(s@),
{
    let mut out = String::new();
    for c in it: s.chars()
        invariant
            it.seq() == s@,
            out@ == lower(s@.take(it.index() as int)),
    {
        out.push(to_lower(c));
        proof {
            let i = it.index() as int;
            assert(lower(s@.take(i + 1)) =~= lower(s@.take(i)).push(lower_char(s@[i])));
        }
    }
    proof {
        assert(s@.take(s@.len() as int) =~= s@);
    }
    out
}

/// `n` spaces.
pub open spec fn spaces(n: nat) -> Seq<char> {
    Seq::new(n, |i: int| ' ')
}

/// `s` followed by the spaces that fill it up to `width` characters.
pub open spec fn padded(s: Seq<char>, width: nat) -> Seq<char> {
    if s.len() < width {
        s + spaces((width - s.len()) as nat)
    } else {
        s
    }
}

/// Appends `n` spaces to `out`.
pub fn push_spaces(out: &mut String, n: usize)
    ensures
        final(out)@ == old(out)@ + spaces(n as nat),
{
    let ghost start = out@;
    let mut i: usize = 0;
    while i < n
        invariant
            i <= n,
            out@ == start + spaces(i as nat),
        decreases n - i,
    {
        out.push(' ');
        i = i + 1;
        assert(out@ =~= start + spaces(i as nat));
    }
    assert(start + spaces(0) =~= start);
}

/// Appends `s` to `out`, filled up to `width` characters with spaces.
pub fn push_padded(out: &mut String, s: &str, width: usize)
    ensures
        final(out)@ == old(out)@ + padded(s@, width as nat),
{
    let ghost start = out@;
    out.append(s);
    let n = s.unicode_len();
    if n < width {
        push_spaces(out, width - n);
        assert(out@ =~= start + padded(s@, width as nat));
    }
}

// ---------------------------------------------------------------------
// Numbers as text
// ---------------------------------------------------------------------

/// `n` in decimal.
pub open spec fn decimal(n: nat) -> Seq<char>
    decreases n,
{
    if n < 10 {
        seq![digit_char(n)]
    } else {
        decimal(n / 10).push(digit_char(n % 10))
    }
}

/// `i` in decimal, with a minus sign where it is negative.
pub open spec fn signed_decimal(i: int) -> Seq<char> {
    if i < 0 {
        seq!['-'] + decimal((-i) as nat)
    } else {
        decimal(i as nat)
    }
}

/// The upper-case hexadecimal digit that stands for `d`, for `d < 16`.
pub open spec fn hex_char(d: nat) -> char {
    if d < 10 {
        digit_char(d)
    } else {
        ('A' as u32 + (d - 10)) as char
    }
}

/// `n` in upper-case hexadecimal.
pub open spec fn hexadecimal(n: nat) -> Seq<char>
    decreases n,
{
    if n < 16 {
        seq![hex_char(n)]
    } else {
        hexadecimal(n / 16).push(hex_char(n % 16))
    }
}

/// `n` in upper-case hexadecimal, with a leading zero where it has one digit.
pub open spec fn hexadecimal_byte(n: nat) -> Seq<char> {
    if n < 16 {
        seq!['0', hex_char(n)]
    } else {
        hexadecimal(n)
    }
}

/// Appends `n` in decimal to `out`.
pub fn push_decimal(out: &mut String, n: u64)
    ensures
        final(out)@ == old(out)@ + decimal(n as nat),
    decreases n,
{
    let ghost start = out@;
    if n >= 10 {
        push_decimal(out, n / 10);
    }
    out.push(char_of_digit((n % 10) as u8));
    assert(out@ =~= start + decimal(n as nat));
}

/// `n` in decimal.
pub fn decimal_text(n: u64) -> (r: String)
    ensures
        r@ == decimal(n as nat),
{
    let mut out = String::new();
    push_decimal(&mut out, n);
    assert(Seq::<char>::empty() + decimal(n as nat) =~= decimal(n as nat));
    out
}

/// `i` in decimal, with a minus sign where it is negative.
pub fn signed_text(i: i16) -> (r: String)
    ensures
        r@ == signed_decimal(i as int),
{
    let mut out = String::new();
    if i < 0 {
        out.push('-');
        push_decimal(&mut out, (-(i as i32)) as u64);
    } else {
        push_decimal(&mut out, i as u64);
    }
    assert(out@ =~= signed_decimal(i as int));
    out
}

fn char_of_hex(d: u8) -> (r: char)
    requires
        d < 16,
    ensures
        r == hex_char(d as nat),
{
    if d < 10 {
        char_of_digit(d)
    } else {
        (d + 55) as char
    }
}

fn push_hexadecimal(out: &mut String, n: u16)
    ensures
        final(out)@ == old(out)@ + hexadecimal(n as nat),
    decreases n,
{
    let ghost start = out@;
    if n >= 16 {
        push_hexadecimal(out, n / 16);
    }
    out.push(char_of_hex((n % 16) as u8));
    assert(out@ =~= start + hexadecimal(n as nat));
}

/// Appends `n` in upper-case hexadecimal to `out`, with at least two digits.
pub fn push_hexadecimal_byte(out: &mut String, n: u16)
    ensures
        final(out)@ == old(out)@ + hexadecimal_byte(n as nat),
{
    let ghost start = out@;
    if n < 16 {
        out.push('0');
        out.push(char_of_hex(n as u8));
        assert(out@ =~= start + hexadecimal_byte(n as nat));
    } else {
        push_hexadecimal(out, n);
    }
}

/// What an optional text holds.
pub open spec fn optional(s: Option<String>) -> Option<Seq<char>> {
    match s {
        Some(t) => Some(t@),
        None => None,
    }
}

/// A result with its value and its error replaced by what they stand for.
pub open spec fn viewed<T: View, E: View>(r: Result<T, E>) -> Result<T::V, E::V> {
    match r {
        Ok(v) => Ok(v@),
        Err(e) => Err(e@),
    }
}

/// A result with its error replaced by what the error stands for.
pub open spec fn outcome<T, E: View>(r: Result<T, E>) -> Result<T, E::V> {
    match r {
        Ok(v) => Ok(v),
        Err(e) => Err(e@),
    }
}


// ---------------------------------------------------------------------
// Laws
// ---------------------------------------------------------------------

/// Skipping white space cuts off exactly the white space in front.
pub proof fn law_skipped_white_space(s: Seq<char>)
    ensures
        exists|i: int|
            0 <= i <= s.len() && skip_space(s) == #[trigger] s.skip(i) && (forall|k: int|
                0 <= k < i ==> is_space(#[trigger] s[k])) && (i < s.len() ==> !is_space(s[i])),
    decreases s.len(),
{
    if s.len() > 0 && is_space(s[0]) {
        let rest = s.skip(1);
        law_skipped_white_space(rest);
        let i = choose|i: int|
            0 <= i <= rest.len() && skip_space(rest) == #[trigger] rest.skip(i) && (forall|k: int|
                0 <= k < i ==> is_space(#[trigger] rest[k])) && (i < rest.len() ==> !is_space(
                rest[i],
            ));
        assert(s.skip(i + 1) =~= rest.skip(i));
        assert forall|k: int| 0 <= k < i + 1 implies is_space(#[trigger] s[k]) by {
            if k > 0 {
                assert(is_space(rest[k - 1]));
            }
        }
    } else {
        assert(s.skip(0) =~= s);
    }
}

/// Turning a text to lower case keeps its length and every character but the
/// letters A to Z, which become a to z.
pub proof fn law_lower_case(s: Seq<char>, i: int)
    requires
        0 <= i < s.len(),
    ensures
        lower(s).len() == s.len(),
        if 'A' <= s[i] <= 'Z' {
            'a' <= lower(s)[i] <= 'z' && lower(s)[i] as u32 - 'a' as u32 == s[i] as u32 - 'A' as u32
        } else {
            lower(s)[i] == s[i]
        },
{
}

/// Filling up keeps the text in front, adds nothing but spaces, and reaches the
/// width exactly where the text is not longer already.
pub proof fn law_padded(s: Seq<char>, width: nat)
    ensures
        padded(s, width).len() == if s.len() < width {
            width
        } else {
            s.len()
        },
        padded(s, width).take(s.len() as int) == s,
        forall|i: int|
            s.len() <= i < padded(s, width).len() ==> #[trigger] padded(s, width)[i] == ' ',
{
    assert(padded(s, width).take(s.len() as int) =~= s);
}

/// A byte in hexadecimal is its two digits, the high one first.
pub proof fn law_hexadecimal_byte(n: nat)
    requires
        n < 256,
    ensures
        hexadecimal_byte(n).len() == 2,
        hexadecimal_byte(n)[0] == hex_char(n / 16),
        hexadecimal_byte(n)[1] == hex_char(n % 16),
        forall|d: nat|
            d < 10 ==> #[trigger] hex_char(d) as u32 == '0' as u32 + d,
        forall|d: nat|
            10 <= d < 16 ==> #[trigger] hex_char(d) as u32 == 'A' as u32 + (d - 10),
{
    reveal_with_fuel(hexadecimal, 3);
}


/// Trimming cuts off exactly the white space at the two ends.
pub proof fn law_trimmed_white_space(s: Seq<char>)
    ensures
        exists|i: int, j: int|
            0 <= i <= j <= s.len() && trimmed(s) == #[trigger] s.subrange(i, j) && (forall|k: int|
                0 <= k < i ==> is_space(#[trigger] s[k])) && (forall|k: int|
                j <= k < s.len() ==> is_space(#[trigger] s[k])) && (i < j ==> !is_space(s[i])
                && !is_space(s[j - 1])),
{
    law_skipped_white_space(s);
    let i = choose|i: int|
        0 <= i <= s.len() && skip_space(s) == #[trigger] s.skip(i) && (forall|k: int|
            0 <= k < i ==> is_space(#[trigger] s[k])) && (i < s.len() ==> !is_space(s[i]));
    let t = s.skip(i);
    lemma_dropped(t);
    let n = choose|n: int|
        0 <= n <= t.len() && drop_space(t) == #[trigger] t.take(n) && (forall|k: int|
            n <= k < t.len() ==> is_space(#[trigger] t[k])) && (n > 0 ==> !is_space(t[n - 1]));
    assert(t.take(n) =~= s.subrange(i, i + n));
    assert forall|k: int| i + n <= k < s.len() implies is_space(#[trigger] s[k]) by {
        assert(is_space(t[k - i]));
    }
    if n > 0 {
        assert(t[n - 1] == s[i + n - 1]);
    }
}

proof fn lemma_dropped(t: Seq<char>)
    ensures
        exists|n: int|
            0 <= n <= t.len() && drop_space(t) == #[trigger] t.take(n) && (forall|k: int|
                n <= k < t.len() ==> is_space(#[trigger] t[k])) && (n > 0 ==> !is_space(t[n - 1])),
    decreases t.len(),
{
    if t.len() > 0 && is_space(t.last()) {
        let rest = t.drop_last();
        lemma_dropped(rest);
        let n = choose|n: int|
            0 <= n <= rest.len() && drop_space(rest) == #[trigger] rest.take(n) && (forall|k: int|
                n <= k < rest.len() ==> is_space(#[trigger] rest[k])) && (n > 0 ==> !is_space(
                rest[n - 1],
            ));
        assert(rest.take(n) =~= t.take(n));
        assert forall|k: int| n <= k < t.len() implies is_space(#[trigger] t[k]) by {
            if k < rest.len() {
                assert(is_space(rest[k]));
            }
        }
        if n > 0 {
            assert(rest[n - 1] == t[n - 1]);
        }
    } else {
        assert(t.take(t.len() as int) =~= t);
    }
}

/// The number that hexadecimal digits stand for.
pub open spec fn hexadecimal_value(s: Seq<char>) -> nat
    decreases s.len(),
{
    if s.len() == 0 {
        0
    } else {
        let c = s.last();
        let d = if c <= '9' {
            c as u32 - '0' as u32
        } else {
            c as u32 - 'A' as u32 + 10
        };
        hexadecimal_value(s.drop_last()) * 16 + d as nat
    }
}

/// A number in hexadecimal stands for itself, and has no leading zero but to
/// make two digits.
pub proof fn law_hexadecimal_stands_for_itself(n: nat)
    ensures
        hexadecimal_value(hexadecimal(n)) == n,
        hexadecimal_value(hexadecimal_byte(n)) == n,
        n >= 16 ==> hexadecimal_byte(n) == hexadecimal(n),
        hexadecimal_byte(n).len() >= 2,
    decreases n,
{
    reveal_with_fuel(hexadecimal_value, 3);
    if n < 16 {
        assert(hexadecimal(n).drop_last() =~= Seq::empty());
        assert(hexadecimal_byte(n).drop_last() =~= seq!['0']);
        assert(seq!['0'].drop_last() =~= Seq::empty());
    } else {
        law_hexadecimal_stands_for_itself(n / 16);
        assert(hexadecimal(n).drop_last() =~= hexadecimal(n / 16));
        if n / 16 < 16 {
            assert(hexadecimal(n / 16).len() == 1);
        }
    }
}


/// A result stands for the value it holds, or for what its error stands for.
pub proof fn law_results_as_they_are<T: View, E: View>(value: T, error: E, s: String)
    ensures
        outcome(Ok::<T, E>(value)) == Ok::<T, E::V>(value),
        outcome(Err::<T, E>(error)) == Err::<T, E::V>(error@),
        viewed(Ok::<T, E>(value)) == Ok::<T::V, E::V>(value@),
        viewed(Err::<T, E>(error)) == Err::<T::V, E::V>(error@),
        optional(Some(s)) == Some(s@),
        optional(None) is None,
{
}

} // verus!
