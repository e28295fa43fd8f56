//! Positions in a source, and the texts that spans stand for.

use vstd::prelude::*;
use vstd::utf8::{
    encode_scalar, encode_utf8, encode_utf8_decode_utf8, last_continuation_byte,
    leading_byte_width_1, leading_byte_width_2, leading_byte_width_3, leading_byte_width_4,
    second_last_continuation_byte, third_last_continuation_byte,
};

use crate::source_text::{line_feeds, line_number, span_text, str_value, text_before, unescaped};
use crate::syntax::{Span, StrLit};

verus! {

/// The length of a text in bytes.
pub open spec fn byte_length(s: Seq<char>) -> nat {
    encode_utf8(s).len()
}

/// The number of line feeds in a text.
pub open spec fn feeds_in(s: Seq<char>) -> nat
    decreases s.len(),
{
    if s.len() == 0 {
        0
    } else {
        feeds_in(s.drop_first()) + if s[0] == '\n' {
            1nat
        } else {
            0
        }
    }
}

/// A text has at most four bytes for each character.
pub proof fn characters_have_at_most_four_bytes(s: Seq<char>)
    ensures
        byte_length(s) <= 4 * s.len(),
    decreases s.len(),
{
    if s.len() > 0 {
        characters_have_at_most_four_bytes(s.drop_first());
    }
}

proof fn lemma_encode_both(a: Seq<char>, b: Seq<char>)
    ensures
        encode_utf8(a + b) == encode_utf8(a) + encode_utf8(b),
    decreases a.len(),
{
    if a.len() == 0 {
        assert(a + b =~= b);
        assert(encode_utf8(a) + encode_utf8(b) =~= encode_utf8(b));
    } else {
        assert((a + b).drop_first() =~= a.drop_first() + b);
        lemma_encode_both(a.drop_first(), b);
        assert(encode_utf8(a + b) =~= encode_utf8(a) + encode_utf8(b));
    }
}

proof fn lemma_feeds_in_both(a: Seq<u8>, b: Seq<u8>)
    ensures
        line_feeds(a + b) == line_feeds(a) + line_feeds(b),
    decreases b.len(),
{
    if b.len() == 0 {
        assert(a + b =~= a);
    } else {
        assert((a + b).drop_last() =~= a + b.drop_last());
        lemma_feeds_in_both(a, b.drop_last());
    }
}

/// Of the bytes of a character only that of a line feed is one.
proof fn lemma_feeds_in_char(c: char)
    ensures
        line_feeds(encode_scalar(c as u32)) == if c == '\n' {
            1nat
        } else {
            0
        },
{
    let v = c as u32;
    let bytes = encode_scalar(v);
    assert(v <= 0x7f ==> leading_byte_width_1(v) == v) by {
        assert(v <= 0x7f ==> (v & 0x7F) as u8 == v) by (bit_vector);
    }
    assert(leading_byte_width_2(v) >= 0x80) by {
        assert(0xC0 | ((v >> 6) & 0x1F) as u8 >= 0x80) by (bit_vector);
    }
    assert(leading_byte_width_3(v) >= 0x80) by {
        assert(0xE0 | ((v >> 12) & 0x0F) as u8 >= 0x80) by (bit_vector);
    }
    assert(leading_byte_width_4(v) >= 0x80) by {
        assert(0xF0 | ((v >> 18) & 0x7) as u8 >= 0x80) by (bit_vector);
    }
    assert(last_continuation_byte(v) >= 0x80) by {
        assert(0x80 | (v & 0x3F) as u8 >= 0x80) by (bit_vector);
    }
    assert(second_last_continuation_byte(v) >= 0x80) by {
        assert(0x80 | ((v >> 6) & 0x3F) as u8 >= 0x80) by (bit_vector);
    }
    assert(third_last_continuation_byte(v) >= 0x80) by {
        assert(0x80 | ((v >> 12) & 0x3F) as u8 >= 0x80) by (bit_vector);
    }
    reveal_with_fuel(line_feeds, 5);
    assert(c == '\n' <==> v == 10);
    if v <= 0x7f {
        assert(bytes.drop_last() =~= Seq::empty());
    } else {
        assert(forall|i: int| 0 <= i < bytes.len() ==> bytes[i] >= 0x80);
        lemma_no_feeds(bytes);
    }
}

proof fn lemma_no_feeds(bytes: Seq<u8>)
    requires
        forall|i: int| 0 <= i < bytes.len() ==> #[trigger] bytes[i] != 10,
    ensures
        line_feeds(bytes) == 0,
    decreases bytes.len(),
{
    if bytes.len() > 0 {
        assert(bytes.last() == bytes[bytes.len() - 1]);
        lemma_no_feeds(bytes.drop_last());
    }
}

proof fn lemma_feeds_in_text(s: Seq<char>)
    ensures
        line_feeds(encode_utf8(s)) == feeds_in(s),
    decreases s.len(),
{
    if s.len() > 0 {
        lemma_feeds_in_both(encode_scalar(s[0] as u32), encode_utf8(s.drop_first()));
        lemma_feeds_in_char(s[0]);
        lemma_feeds_in_text(s.drop_first());
    }
}

/// The line of a position is one more than there are line feeds before it.
pub proof fn lines_are_counted_from_one(before: Seq<char>, after: Seq<char>)
    ensures
        line_number(before + after, byte_length(before) as int) == feeds_in(before) + 1,
{
    lemma_encode_both(before, after);
    assert(encode_utf8(before + after).take(byte_length(before) as int) =~= encode_utf8(before));
    lemma_feeds_in_text(before);
}

/// What is before a position is the text up to it.
pub proof fn texts_before_positions(before: Seq<char>, after: Seq<char>)
    ensures
        text_before(before + after, byte_length(before) as int) == before,
{
    lemma_encode_both(before, after);
    let bytes = encode_utf8(before + after);
    assert(bytes.subrange(0, byte_length(before) as int) =~= encode_utf8(before));
    encode_utf8_decode_utf8(before);
}

/// A span stands for the text between its positions.
pub proof fn spans_stand_for_their_texts(
    before: Seq<char>,
    text: Seq<char>,
    after: Seq<char>,
    span: Span,
)
    requires
        span.start == byte_length(before),
        span.end == byte_length(before) + byte_length(text),
    ensures
        span_text(before + text + after, span) == text,
{
    lemma_encode_both(before + text, after);
    lemma_encode_both(before, text);
    let bytes = encode_utf8(before + text + after);
    assert(bytes.subrange(span.start as int, span.end as int) =~= encode_utf8(text));
    encode_utf8_decode_utf8(text);
}

/// A text without a backslash stands for itself.
pub proof fn plain_texts_stand_for_themselves(s: Seq<char>)
    requires
        !s.contains('\\'),
    ensures
        unescaped(s) == s,
    decreases s.len(),
{
    if s.len() > 0 {
        assert(s.contains(s[0]));
        assert(!s.skip(1).contains('\\')) by {
            if s.skip(1).contains('\\') {
                let k = choose|k: int| 0 <= k < s.skip(1).len() && s.skip(1)[k] == '\\';
                assert(s[k + 1] == '\\');
            }
        }
        plain_texts_stand_for_themselves(s.skip(1));
        assert(seq![s[0]] + s.skip(1) =~= s);
    }
}

/// The character that stands for another one behind a backslash: a line feed
/// for `n`, a tab for `t`, a carriage return for `r` and a null for `0`. Any
/// other character stands for itself.
pub open spec fn escapes_to(c: char, meant: char) -> bool {
    if c == 'n' {
        meant == '\n'
    } else if c == 't' {
        meant == '\t'
    } else if c == 'r' {
        meant == '\r'
    } else if c == '0' {
        meant == '\0'
    } else {
        meant == c
    }
}

/// An escape sequence stands for one character, and what is in front of it
/// and behind it for what it does on its own.
pub proof fn escape_sequences_are_replaced(
    before: Seq<char>,
    c: char,
    meant: char,
    rest: Seq<char>,
)
    requires
        !before.contains('\\'),
        escapes_to(c, meant),
    ensures
        unescaped(before + seq!['\\', c] + rest) == before + seq![meant] + unescaped(rest),
    decreases before.len(),
{
    let s = before + seq!['\\', c] + rest;
    if before.len() == 0 {
        assert(s[0] == '\\' && s[1] == c);
        assert(s.skip(2) =~= rest);
        assert(before + seq![meant] + unescaped(rest) =~= seq![meant] + unescaped(rest));
    } else {
        assert(before.contains(before[0]));
        assert(!before.skip(1).contains('\\')) by {
            if before.skip(1).contains('\\') {
                let k = choose|k: int|
                    0 <= k < before.skip(1).len() && before.skip(1)[k] == '\\';
                assert(before[k + 1] == '\\');
            }
        }
        escape_sequences_are_replaced(before.skip(1), c, meant, rest);
        assert(s.skip(1) =~= before.skip(1) + seq!['\\', c] + rest);
        assert(seq![before[0]] + (before.skip(1) + seq![meant] + unescaped(rest)) =~= before
            + seq![meant] + unescaped(rest));
    }
}

/// A string literal stands for what is between its quotes, with the escape
/// sequences replaced where it has any.
pub proof fn strings_stand_for_their_content(
    before: Seq<char>,
    content: Seq<char>,
    after: Seq<char>,
    lit: StrLit,
)
    requires
        lit.text matches Some(text) && text.wrapped,
        lit.span.start == byte_length(before),
        lit.span.end == byte_length(before) + 1 + byte_length(content) + 1,
    ensures
        str_value(before + seq!['"'] + content + seq!['"'] + after, lit)
            == if lit.text->Some_0.escaped {
            unescaped(content)
        } else {
            content
        },
{
    let open = before + seq!['"'];
    let close = seq!['"'] + after;
    let source = before + seq!['"'] + content + seq!['"'] + after;
    assert(source =~= open + content + close);
    lemma_encode_both(before, seq!['"']);
    assert(byte_length(seq!['"']) == 1) by {
        assert(seq!['"'].drop_first() =~= Seq::empty());
        assert(encode_utf8(seq!['"'].drop_first()).len() == 0);
        assert(encode_scalar('"' as u32).len() == 1);
    }
    let span = Span { start: (lit.span.start + 1) as usize, end: (lit.span.end - 1) as usize };
    assert(byte_length(open) == byte_length(before) + 1);
    spans_stand_for_their_texts(open, content, close, span);
}

/// A string literal without quotes in its span stands for the text of the
/// span.
pub proof fn bare_strings_stand_for_their_span(source: Seq<char>, lit: StrLit)
    requires
        lit.text matches Some(text) && !text.wrapped,
    ensures
        str_value(source, lit) == if lit.text->Some_0.escaped {
            unescaped(span_text(source, lit.span))
        } else {
            span_text(source, lit.span)
        },
{
}

} // verus!
