//! The values of numbers.

use vstd::arithmetic::power::pow;
use vstd::prelude::*;

use crate::ast_analyzer::value_of;
use crate::number::{
    all_digits, digit_value, digits_value, integer_value, is_decimal, is_digit_of, is_digits,
    is_float, is_mantissa, position_of, small_integer, unsigned, without_prefix,
};
use crate::report::LiteralModel;
use crate::source_text::span_text;
use crate::syntax::{Base, ExprTree, LitNode, NumberLit};
use crate::text::{ascii_digit, decimal, digit, starts_with};
use crate::types::OriginModel;

verus! {

/// Digits count from `0` to `9`, and on from `a` to `z` in either case.
pub proof fn digits_have_their_value(n: nat)
    requires
        n < 10,
    ensures
        digit_value(digit(n)) == Some(n),
        digit_value('a') == Some(10nat) && digit_value('f') == Some(15nat),
        digit_value('A') == Some(10nat) && digit_value('F') == Some(15nat),
        digit_value('z') == Some(35nat) && digit_value('Z') == Some(35nat),
        digit_value('_') is None && digit_value('.') is None && digit_value('-') is None,
{
}

/// The value of digits is positional: those in front count a power of the
/// base more for each digit behind them.
pub proof fn digits_are_positional(a: Seq<char>, b: Seq<char>, radix: nat)
    ensures
        digits_value(a + b, radix) == digits_value(a, radix) * pow(radix as int, b.len())
            + digits_value(b, radix),
    decreases b.len(),
{
    reveal(pow);
    if b.len() == 0 {
        assert(a + b =~= a);
        assert(pow(radix as int, 0) == 1);
    } else {
        let front = b.drop_last();
        digits_are_positional(a, front, radix);
        assert((a + b).drop_last() =~= a + front);
        assert((a + b).last() == b.last());
        let x = digits_value(a, radix) as int;
        let y = pow(radix as int, front.len());
        let z = digits_value(front, radix) as int;
        let r = radix as int;
        assert(pow(r, b.len()) == r * y);
        assert((x * y + z) * r == x * (r * y) + z * r) by (nonlinear_arith);
    }
}

/// A number reads back from its decimal notation, with a sign or without.
pub proof fn decimal_numbers_read_back(n: nat)
    ensures
        integer_value(decimal(n), 10) == Some(n as int),
        integer_value(seq!['-'] + decimal(n), 10) == Some(-(n as int)),
        integer_value(seq!['+'] + decimal(n), 10) == Some(n as int),
        n <= i64::MAX ==> small_integer(decimal(n), 10) == Some(n as i64),
        n > i64::MAX ==> small_integer(decimal(n), 10) is None,
{
    lemma_decimal(n);
    let s = decimal(n);
    assert(is_digits(s, 10));
    assert(digit_value(s[0]) is Some);
    assert((seq!['-'] + s).skip(1) =~= s);
    assert((seq!['+'] + s).skip(1) =~= s);
}

proof fn lemma_decimal(n: nat)
    ensures
        digits_value(decimal(n), 10) == n,
        is_digits(decimal(n), 10),
    decreases n,
{
    if n < 10 {
        assert(decimal(n).drop_last() =~= Seq::empty());
        assert(digits_value(decimal(n).drop_last(), 10) == 0);
    } else {
        lemma_decimal(n / 10);
        assert(decimal(n).drop_last() =~= decimal(n / 10));
        assert(decimal(n).last() == digit(n % 10));
    }
}

proof fn lemma_other_prefix(s: Seq<char>, a: char, b: char)
    requires
        s.len() < 2 || s[0] != a || s[1] != b,
    ensures
        without_prefix(s, seq![a, b]) == s,
{
    if starts_with(s, seq![a, b]) {
        assert(s.subrange(0, 2) == seq![a, b]);
        assert(s.subrange(0, 2)[0] == s[0] && s.subrange(0, 2)[1] == s[1]);
    }
}

proof fn lemma_own_prefix(s: Seq<char>, a: char, b: char)
    requires
        s.len() < 2 || s[1] != b,
    ensures
        without_prefix(seq![a, b] + s, seq![a, b]) == s,
{
    let whole = seq![a, b] + s;
    assert(whole.subrange(0, 2) =~= seq![a, b]);
    assert(starts_with(whole, seq![a, b]));
    assert(whole.skip(2) =~= s);
    lemma_other_prefix(s, a, b);
}

/// The letter in front of the digits of a base.
pub open spec fn prefix_of(base: Base) -> Seq<char> {
    match base {
        Base::Binary => seq!['0', 'b'],
        Base::Octal => seq!['0', 'o'],
        Base::Hex => seq!['0', 'x'],
        Base::Decimal => Seq::empty(),
        Base::Other => Seq::empty(),
    }
}

/// The number of digits of a base.
pub open spec fn digits_of(base: Base) -> nat {
    match base {
        Base::Binary => 2,
        Base::Octal => 8,
        Base::Hex => 16,
        Base::Decimal => 10,
        Base::Other => 10,
    }
}

/// A number literal without a fraction has the value of its digits in its
/// base, behind `0b`, `0o` or `0x`, if it fits in 64 bits; otherwise nothing
/// is known of it.
pub proof fn integers_have_their_value(
    lit: NumberLit,
    digits: Seq<char>,
    source: Seq<char>,
    registry: Map<Seq<char>, OriginModel>,
)
    requires
        lit.text matches Some(text) && !text.is_fractional && is_digits(
            digits,
            digits_of(text.base),
        ) && span_text(source, text.number) == prefix_of(text.base) + digits,
    ensures
        ({
            let n = digits_value(digits, digits_of(lit.text->Some_0.base));
            let value = value_of(ExprTree::Lit(LitNode::Number(lit)), source, registry);
            if n <= i64::MAX {
                value == LiteralModel::Int(n as i64)
            } else {
                value is Dynamic
            }
        }),
{
    let text = lit.text->Some_0;
    let whole = prefix_of(text.base) + digits;
    let radix = digits_of(text.base);
    reveal_strlit("0b");
    reveal_strlit("0o");
    reveal_strlit("0x");
    assert("0b"@ =~= seq!['0', 'b']);
    assert("0o"@ =~= seq!['0', 'o']);
    assert("0x"@ =~= seq!['0', 'x']);
    assert(digits.len() > 1 ==> is_digit_of(digits[1], radix));
    assert(is_digit_of(digits[0], radix));
    if text.base is Binary {
        lemma_own_prefix(digits, '0', 'b');
        lemma_other_prefix(digits, '0', 'o');
        lemma_other_prefix(digits, '0', 'x');
    } else if text.base is Octal {
        assert(whole[1] == 'o');
        lemma_other_prefix(whole, '0', 'b');
        lemma_own_prefix(digits, '0', 'o');
        lemma_other_prefix(digits, '0', 'x');
    } else if text.base is Hex {
        assert(whole[1] == 'x');
        lemma_other_prefix(whole, '0', 'b');
        lemma_other_prefix(whole, '0', 'o');
        lemma_own_prefix(digits, '0', 'x');
    } else {
        assert(whole =~= digits);
        lemma_other_prefix(digits, '0', 'b');
        lemma_other_prefix(digits, '0', 'o');
        lemma_other_prefix(digits, '0', 'x');
    }
    assert(digits[0] != '-' && digits[0] != '+');
    assert(integer_value(digits, radix) == Some(digits_value(digits, radix) as int));
}

proof fn lemma_no_position(s: Seq<char>, a: char, b: char)
    requires
        forall|i: int| 0 <= i < s.len() ==> #[trigger] s[i] != a && s[i] != b,
    ensures
        position_of(s, a, b) == s.len(),
    decreases s.len(),
{
    if s.len() > 0 {
        assert(s[0] != a && s[0] != b);
        assert forall|i: int| 0 <= i < s.skip(1).len() implies #[trigger] s.skip(1)[i] != a
            && s.skip(1)[i] != b by {
            assert(s[i + 1] != a && s[i + 1] != b);
        }
        lemma_no_position(s.skip(1), a, b);
    }
}

proof fn lemma_position_behind(s: Seq<char>, rest: Seq<char>, a: char, b: char)
    requires
        forall|i: int| 0 <= i < s.len() ==> #[trigger] s[i] != a && s[i] != b,
        rest.len() > 0,
        rest[0] == a || rest[0] == b,
    ensures
        position_of(s + rest, a, b) == s.len(),
    decreases s.len(),
{
    if s.len() > 0 {
        assert(s[0] != a && s[0] != b);
        assert forall|i: int| 0 <= i < s.skip(1).len() implies #[trigger] s.skip(1)[i] != a
            && s.skip(1)[i] != b by {
            assert(s[i + 1] != a && s[i + 1] != b);
        }
        lemma_position_behind(s.skip(1), rest, a, b);
        assert((s + rest).skip(1) =~= s.skip(1) + rest);
    } else {
        assert(s + rest =~= rest);
    }
}

/// A number literal with a fraction has the digits that it is written with as
/// its value.
pub proof fn fractions_have_their_value(
    lit: NumberLit,
    whole: Seq<char>,
    fraction: Seq<char>,
    source: Seq<char>,
    registry: Map<Seq<char>, OriginModel>,
)
    requires
        all_digits(whole),
        all_digits(fraction),
        whole.len() > 0,
        lit.text matches Some(text) && text.is_fractional && span_text(source, text.number)
            == whole + seq!['.'] + fraction,
    ensures
        value_of(ExprTree::Lit(LitNode::Number(lit)), source, registry) == LiteralModel::Float(
            whole + seq!['.'] + fraction,
        ),
{
    let rest = seq!['.'] + fraction;
    let s = whole + seq!['.'] + fraction;
    assert(s =~= whole + rest);
    assert forall|i: int| 0 <= i < whole.len() implies #[trigger] whole[i] != '.' by {
        assert(ascii_digit(whole[i]));
    }
    lemma_position_behind(whole, rest, '.', '.');
    assert(s.take(whole.len() as int) =~= whole);
    assert(s.skip(whole.len() as int + 1) =~= fraction);
    assert(is_mantissa(s));
    assert forall|i: int| 0 <= i < s.len() implies #[trigger] s[i] != 'e' && s[i] != 'E' by {
        if i < whole.len() {
            assert(s[i] == whole[i] && ascii_digit(whole[i]));
        } else if i > whole.len() {
            assert(s[i] == fraction[i - whole.len() - 1]);
            assert(ascii_digit(fraction[i - whole.len() - 1]));
        }
    }
    lemma_no_position(s, 'e', 'E');
    assert(is_decimal(s));
    assert(s[0] == whole[0] && ascii_digit(whole[0]));
    assert(unsigned(s) == s);
}

/// A number with a fraction may have an exponent, with a sign or without: it
/// is accepted exactly if the digits before it are and it has digits itself.
pub proof fn exponents_have_digits(
    front: Seq<char>,
    e: char,
    sign: Seq<char>,
    exponent: Seq<char>,
)
    requires
        front.len() > 0,
        front[0] != '+' && front[0] != '-',
        e == 'e' || e == 'E',
        forall|i: int| 0 <= i < front.len() ==> #[trigger] front[i] != 'e' && front[i] != 'E',
        sign.len() == 0 || sign == seq!['+'] || sign == seq!['-'],
        all_digits(exponent),
    ensures
        is_decimal(front + seq![e] + sign + exponent) <==> is_mantissa(front) && exponent.len()
            > 0,
{
    let rest = seq![e] + sign + exponent;
    let s = front + seq![e] + sign + exponent;
    assert(s =~= front + rest);
    lemma_position_behind(front, rest, 'e', 'E');
    assert(s.take(front.len() as int) =~= front);
    let behind = s.skip(front.len() as int + 1);
    assert(behind =~= sign + exponent);
    if sign.len() == 0 {
        assert(behind =~= exponent);
        if exponent.len() > 0 {
            assert(ascii_digit(exponent[0]));
        }
        assert(unsigned(behind) == exponent);
    } else {
        assert(behind.skip(1) =~= exponent);
        assert(unsigned(behind) == exponent);
    }
}

/// A number without an exponent is accepted exactly if it consists of digits
/// with at most one point, and has a digit.
pub proof fn mantissas_have_digits(whole: Seq<char>, fraction: Seq<char>)
    requires
        all_digits(whole),
    ensures
        is_mantissa(whole) <==> whole.len() > 0,
        is_mantissa(whole + seq!['.'] + fraction) <==> all_digits(fraction) && whole.len()
            + fraction.len() > 0,
{
    assert forall|i: int| 0 <= i < whole.len() implies #[trigger] whole[i] != '.' by {
        assert(ascii_digit(whole[i]));
    }
    lemma_no_position(whole, '.', '.');
    let rest = seq!['.'] + fraction;
    let s = whole + seq!['.'] + fraction;
    assert(s =~= whole + rest);
    lemma_position_behind(whole, rest, '.', '.');
    assert(s.take(whole.len() as int) =~= whole);
    assert(s.skip(whole.len() as int + 1) =~= fraction);
}

/// Nothing is known of a number that is not written out in the source, nor of
/// one with a fraction whose digits are none.
pub proof fn other_numbers_are_unknown(
    lit: NumberLit,
    source: Seq<char>,
    registry: Map<Seq<char>, OriginModel>,
)
    requires
        lit.text matches Some(text) ==> text.is_fractional && !is_float(
            span_text(source, text.number),
        ),
    ensures
        value_of(ExprTree::Lit(LitNode::Number(lit)), source, registry) is Dynamic,
{
}

} // verus!
