//! Reading numbers from text.

use vstd::prelude::*;
use vstd::slice::slice_subrange;

use crate::text::{after_prefix, ascii_digit, chars_of, starts_with};

verus! {

// ---------------------------------------------------------------------------
// Integers.
// ---------------------------------------------------------------------------

/// The value of a digit, the letters being the digits from 10 on.
pub open spec fn digit_value(c: char) -> Option<nat> {
    if '0' <= c <= '9' {
        Some((c as u32 - '0' as u32) as nat)
    } else if 'a' <= c <= 'z' {
        Some((c as u32 - 'a' as u32 + 10) as nat)
    } else if 'A' <= c <= 'Z' {
        Some((c as u32 - 'A' as u32 + 10) as nat)
    } else {
        None
    }
}

/// Whether `c` is a digit of a number system.
pub open spec fn is_digit_of(c: char, radix: nat) -> bool {
    digit_value(c) is Some && digit_value(c)->Some_0 < radix
}

/// The number that digits stand for.
pub open spec fn digits_value(digits: Seq<char>, radix: nat) -> nat
    decreases digits.len(),
{
    if digits.len() == 0 {
        0
    } else {
        digits_value(digits.drop_last(), radix) * radix + digit_value(digits.last())->Some_0
    }
}

/// Whether a text is one digit or more.
pub open spec fn is_digits(s: Seq<char>, radix: nat) -> bool {
    s.len() > 0 && forall|i: int| 0 <= i < s.len() ==> is_digit_of(#[trigger] s[i], radix)
}

/// The integer that a text stands for: digits, with a sign before them or
/// not.
pub open spec fn integer_value(s: Seq<char>, radix: nat) -> Option<int> {
    if s.len() > 0 && s[0] == '-' {
        if is_digits(s.skip(1), radix) {
            Some(-(digits_value(s.skip(1), radix) as int))
        } else {
            None
        }
    } else if s.len() > 0 && s[0] == '+' {
        if is_digits(s.skip(1), radix) {
            Some(digits_value(s.skip(1), radix) as int)
        } else {
            None
        }
    } else if is_digits(s, radix) {
        Some(digits_value(s, radix) as int)
    } else {
        None
    }
}

/// The 64-bit integer that a text stands for.
pub open spec fn small_integer(s: Seq<char>, radix: nat) -> Option<i64> {
    match integer_value(s, radix) {
        Some(n) => if i64::MIN <= n <= i64::MAX {
            Some(n as i64)
        } else {
            None
        },
        None => None,
    }
}

/// `s` without `prefix` at its start, however often it stands there.
pub open spec fn without_prefix(s: Seq<char>, prefix: Seq<char>) -> Seq<char>
    decreases s.len(),
{
    if prefix.len() > 0 && starts_with(s, prefix) {
        without_prefix(s.skip(prefix.len() as int), prefix)
    } else {
        s
    }
}

/// The value of a digit in a number system.
fn digit_of(c: char, radix: u32) -> (r: Option<u32>)
    requires
        radix <= 36,
    ensures
        match r {
            Some(d) => is_digit_of(c, radix as nat) && d == digit_value(c)->Some_0,
            None => !is_digit_of(c, radix as nat),
        },
{
    let d: u32 = if '0' <= c && c <= '9' {
        c as u32 - 48
    } else if 'a' <= c && c <= 'z' {
        c as u32 - 97 + 10
    } else if 'A' <= c && c <= 'Z' {
        c as u32 - 65 + 10
    } else {
        return None;
    };
    if d < radix {
        Some(d)
    } else {
        None
    }
}

/// The number that the first digits stand for is at most that of all.
proof fn lemma_digits_value_grows(s: Seq<char>, n: int, radix: nat)
    requires
        0 <= n <= s.len(),
        radix > 0,
    ensures
        digits_value(s.take(n), radix) <= digits_value(s, radix),
    decreases s.len() - n,
{
    if n < s.len() {
        lemma_digits_value_grows(s, n + 1, radix);
        let before = digits_value(s.take(n), radix);
        assert(s.take(n + 1).drop_last() =~= s.take(n));
        assert(before <= before * radix) by (nonlinear_arith)
            requires
                radix > 0,
        ;
    } else {
        assert(s.take(n) =~= s);
    }
}

/// The number that digits stand for, where it is below `limit`.
fn bounded_value(s: &[char], radix: u32, limit: i128) -> (r: Option<i128>)
    requires
        0 < radix <= 36,
        0 < limit <= 0x1_0000_0000_0000_0000,
    ensures
        match r {
            Some(n) => is_digits(s@, radix as nat) && n == digits_value(s@, radix as nat) && n
                < limit,
            None => !is_digits(s@, radix as nat) || digits_value(s@, radix as nat) >= limit,
        },
{
    if s.len() == 0 {
        return None;
    }
    let mut n: i128 = 0;
    for i in 0..s.len()
        invariant
            0 < radix <= 36,
            0 < limit <= 0x1_0000_0000_0000_0000,
            0 <= n < limit,
            n == digits_value(s@.take(i as int), radix as nat),
            forall|j: int| 0 <= j < i ==> is_digit_of(#[trigger] s@[j], radix as nat),
    {
        match digit_of(s[i], radix) {
            Some(d) => {
                assert(s@.take(i + 1).drop_last() =~= s@.take(i as int));
                assert(0 <= n * radix <= 0x1_0000_0000_0000_0000 * 36) by (nonlinear_arith)
                    requires
                        0 <= n <= 0x1_0000_0000_0000_0000,
                        0 < radix <= 36,
                ;
                n = n * (radix as i128) + d as i128;
                if n >= limit {
                    proof {
                        lemma_digits_value_grows(s@, i + 1, radix as nat);
                    }
                    return None;
                }
            },
            None => {
                return None;
            },
        }
    }
    assert(s@.take(s@.len() as int) =~= s@);
    Some(n)
}

/// The 64-bit integer that a text stands for, as `i64::from_str_radix` reads
/// it.
pub fn read_integer(s: &[char], radix: u32) -> (r: Option<i64>)
    requires
        2 <= radix <= 36,
    ensures
        r == small_integer(s@, radix as nat),
{
    if s.len() > 0 && s[0] == '-' {
        match bounded_value(slice_subrange(s, 1, s.len()), radix, 0x8000_0000_0000_0001) {
            Some(n) => Some((-n) as i64),
            None => None,
        }
    } else if s.len() > 0 && s[0] == '+' {
        match bounded_value(slice_subrange(s, 1, s.len()), radix, 0x8000_0000_0000_0000) {
            Some(n) => Some(n as i64),
            None => None,
        }
    } else {
        match bounded_value(s, radix, 0x8000_0000_0000_0000) {
            Some(n) => Some(n as i64),
            None => None,
        }
    }
}

/// A slice without a prefix at its start, however often it stands there.
pub fn stripped<'a>(s: &'a [char], prefix: &str) -> (r: &'a [char])
    requires
        prefix@.len() > 0,
    ensures
        r@ == without_prefix(s@, prefix@),
{
    let mut rest = s;
    loop
        invariant
            prefix@.len() > 0,
            without_prefix(rest@, prefix@) == without_prefix(s@, prefix@),
        decreases rest@.len(),
    {
        match after_prefix(rest, prefix) {
            Some(next) => {
                rest = next;
            },
            None => {
                return rest;
            },
        }
    }
}

// ---------------------------------------------------------------------------
// Decimal fractions.
// ---------------------------------------------------------------------------

/// Whether all characters are digits of ASCII.
pub open spec fn all_digits(s: Seq<char>) -> bool {
    forall|i: int| 0 <= i < s.len() ==> ascii_digit(#[trigger] s[i])
}

/// `s` without a sign at its start.
pub open spec fn unsigned(s: Seq<char>) -> Seq<char> {
    if s.len() > 0 && (s[0] == '+' || s[0] == '-') {
        s.skip(1)
    } else {
        s
    }
}

/// The position of the first `a` or `b`, or the length where there is none.
pub open spec fn position_of(s: Seq<char>, a: char, b: char) -> nat
    decreases s.len(),
{
    if s.len() == 0 || s[0] == a || s[0] == b {
        0
    } else {
        1 + position_of(s.skip(1), a, b)
    }
}

/// A letter of ASCII in lower case.
pub open spec fn lower(c: char) -> char {
    if 'A' <= c <= 'Z' {
        (c as u32 + 32) as char
    } else {
        c
    }
}

/// Whether a text is a word, in upper or lower case.
pub open spec fn is_word(s: Seq<char>, word: Seq<char>) -> bool {
    s.map_values(|c: char| lower(c)) == word
}

/// Digits with at most one point among them, and at least one digit.
pub open spec fn is_mantissa(s: Seq<char>) -> bool {
    let point = position_of(s, '.', '.');
    if point < s.len() {
        all_digits(s.take(point as int)) && all_digits(s.skip(point as int + 1)) && s.len() > 1
    } else {
        all_digits(s) && s.len() > 0
    }
}

/// A mantissa, with an exponent after it or not.
pub open spec fn is_decimal(s: Seq<char>) -> bool {
    let e = position_of(s, 'e', 'E');
    if e < s.len() {
        let exponent = unsigned(s.skip(e as int + 1));
        is_mantissa(s.take(e as int)) && all_digits(exponent) && exponent.len() > 0
    } else {
        is_mantissa(s)
    }
}

/// Whether a text is a floating-point number in decimal notation: a number
/// or one of the words for the values that are none, with a sign before it or
/// not.
pub open spec fn is_float(s: Seq<char>) -> bool {
    let body = unsigned(s);
    is_decimal(body) || is_word(body, "inf"@) || is_word(body, "infinity"@) || is_word(
        body,
        "nan"@,
    )
}

fn only_digits(s: &[char]) -> (r: bool)
    ensures
        r == all_digits(s@),
{
    for i in 0..s.len()
        invariant
            forall|j: int| 0 <= j < i ==> ascii_digit(#[trigger] s@[j]),
    {
        if !('0' <= s[i] && s[i] <= '9') {
            return false;
        }
    }
    true
}

fn without_sign(s: &[char]) -> (r: &[char])
    ensures
        r@ == unsigned(s@),
{
    if s.len() > 0 && (s[0] == '+' || s[0] == '-') {
        slice_subrange(s, 1, s.len())
    } else {
        s
    }
}

fn find_either(s: &[char], a: char, b: char) -> (r: usize)
    ensures
        r == position_of(s@, a, b),
        r <= s@.len(),
{
    let mut i: usize = 0;
    assert(s@.skip(0) =~= s@);
    while i < s.len() && s[i] != a && s[i] != b
        invariant
            i <= s@.len(),
            position_of(s@, a, b) == i + position_of(s@.skip(i as int), a, b),
        decreases s@.len() - i,
    {
        assert(s@.skip(i as int).skip(1) =~= s@.skip(i + 1));
        i += 1;
    }
    i
}

fn reads_mantissa(s: &[char]) -> (r: bool)
    ensures
        r == is_mantissa(s@),
{
    let point = find_either(s, '.', '.');
    if point < s.len() {
        only_digits(slice_subrange(s, 0, point)) && only_digits(
            slice_subrange(s, point + 1, s.len()),
        ) && s.len() > 1
    } else {
        only_digits(s) && s.len() > 0
    }
}

fn reads_decimal(s: &[char]) -> (r: bool)
    ensures
        r == is_decimal(s@),
{
    let e = find_either(s, 'e', 'E');
    if e < s.len() {
        let exponent = without_sign(slice_subrange(s, e + 1, s.len()));
        reads_mantissa(slice_subrange(s, 0, e)) && only_digits(exponent) && exponent.len() > 0
    } else {
        reads_mantissa(s)
    }
}

fn reads_word(s: &[char], word: &str) -> (r: bool)
    ensures
        r == is_word(s@, word@),
{
    let chars = chars_of(word);
    if s.len() != chars.len() {
        return false;
    }
    for i in 0..s.len()
        invariant
            s@.len() == chars@.len(),
            chars@ == word@,
            forall|j: int| 0 <= j < i ==> lower(#[trigger] s@[j]) == word@[j],
    {
        let c = if 'A' <= s[i] && s[i] <= 'Z' {
            (s[i] as u8 + 32) as char
        } else {
            s[i]
        };
        assert(c == lower(s@[i as int]));
        if c != chars[i] {
            assert(s@.map_values(|c: char| lower(c))[i as int] != word@[i as int]);
            return false;
        }
    }
    assert(s@.map_values(|c: char| lower(c)) =~= word@);
    true
}

/// Whether a text is a floating-point number in decimal notation.
pub fn reads_float(s: &[char]) -> (r: bool)
    ensures
        r == is_float(s@),
{
    let body = without_sign(s);
    reads_decimal(body) || reads_word(body, "inf") || reads_word(body, "infinity") || reads_word(
        body,
        "nan",
    )
}

} // verus!
