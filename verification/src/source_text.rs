//! The texts that the spans of a syntax tree stand for.

use vstd::prelude::*;
use vstd::utf8::{
    decode_utf8, encode_utf8, encode_utf8_decode_utf8, encode_utf8_valid_utf8, is_char_boundary,
    is_char_boundary_iff_not_is_continuation_byte, is_char_boundary_start_end_of_seq,
    valid_utf8_split,
};

use crate::syntax::{Span, StrLit};
use crate::text::chars_of;

verus! {

/// Whether `at` is a position between two characters of the source, counted
/// in bytes.
pub open spec fn is_position(source: Seq<char>, at: int) -> bool {
    0 <= at <= encode_utf8(source).len() && is_char_boundary(encode_utf8(source), at)
}

/// Whether a span covers whole characters of the source.
pub open spec fn fits(source: Seq<char>, span: Span) -> bool {
    span.start <= span.end && is_position(source, span.start as int) && is_position(
        source,
        span.end as int,
    )
}

/// The text that a span covers.
pub open spec fn span_text(source: Seq<char>, span: Span) -> Seq<char> {
    decode_utf8(encode_utf8(source).subrange(span.start as int, span.end as int))
}

/// The text before a position.
pub open spec fn text_before(source: Seq<char>, at: int) -> Seq<char> {
    decode_utf8(encode_utf8(source).subrange(0, at))
}

/// The number of line feeds among bytes.
pub open spec fn line_feeds(bytes: Seq<u8>) -> nat
    decreases bytes.len(),
{
    if bytes.len() == 0 {
        0
    } else {
        line_feeds(bytes.drop_last()) + if bytes.last() == 10 {
            1nat
        } else {
            0
        }
    }
}

/// The number, from 1, of the line in which a position stands.
pub open spec fn line_number(source: Seq<char>, at: int) -> nat {
    line_feeds(encode_utf8(source).take(at)) + 1
}

/// The text that the span of a string literal covers, without the quotes.
pub open spec fn content_span(lit: StrLit) -> Span {
    match lit.text {
        Some(text) => if text.wrapped {
            Span { start: (lit.span.start + 1) as usize, end: (lit.span.end - 1) as usize }
        } else {
            lit.span
        },
        None => lit.span,
    }
}

/// Whether a string literal covers whole characters of the source, the quotes
/// among them where they belong to its span.
pub open spec fn str_fits(source: Seq<char>, lit: StrLit) -> bool {
    match lit.text {
        Some(text) => fits(source, content_span(lit)) && (text.wrapped ==> lit.span.start + 2
            <= lit.span.end),
        None => true,
    }
}

/// The value of a string literal: its text, with the escape sequences
/// expanded.
pub open spec fn str_value(source: Seq<char>, lit: StrLit) -> Seq<char> {
    match lit.text {
        Some(text) => if text.escaped {
            unescaped(span_text(source, content_span(lit)))
        } else {
            span_text(source, content_span(lit))
        },
        None => Seq::empty(),
    }
}

/// The character that a backslash before `c` stands for.
pub open spec fn escape(c: char) -> char {
    if c == 'n' {
        '\n'
    } else if c == 't' {
        '\t'
    } else if c == 'r' {
        '\r'
    } else if c == '0' {
        '\0'
    } else {
        c
    }
}

/// A text with its escape sequences expanded; a backslash at the end stands
/// for nothing.
pub open spec fn unescaped(s: Seq<char>) -> Seq<char>
    decreases s.len(),
{
    if s.len() == 0 {
        Seq::empty()
    } else if s[0] != '\\' {
        seq![s[0]] + unescaped(s.skip(1))
    } else if s.len() == 1 {
        Seq::empty()
    } else {
        seq![escape(s[1])] + unescaped(s.skip(2))
    }
}

/// The text that a span covers.
pub fn slice<'a>(source: &'a str, span: Span) -> (r: &'a str)
    requires
        fits(source@, span),
    ensures
        r@ == span_text(source@, span),
{
    let ghost bytes = encode_utf8(source@);
    let (_, rest) = source.split_at(span.start);
    proof {
        let tail = bytes.subrange(span.start as int, bytes.len() as int);
        encode_utf8_valid_utf8(source@);
        valid_utf8_split(bytes, span.start as int);
        if span.end < bytes.len() {
            is_char_boundary_iff_not_is_continuation_byte(bytes, span.end as int);
            is_char_boundary_iff_not_is_continuation_byte(tail, span.end - span.start);
        } else {
            is_char_boundary_start_end_of_seq(tail);
        }
        assert(tail.subrange(0, span.end - span.start) =~= bytes.subrange(
            span.start as int,
            span.end as int,
        ));
    }
    let (text, _) = rest.split_at(span.end - span.start);
    proof {
        encode_utf8_decode_utf8(text@);
    }
    text
}

/// The text before a position.
pub fn text_up_to<'a>(source: &'a str, at: usize) -> (r: &'a str)
    requires
        is_position(source@, at as int),
    ensures
        r@ == text_before(source@, at as int),
{
    let (text, _) = source.split_at(at);
    proof {
        encode_utf8_decode_utf8(text@);
    }
    text
}

/// The number, from 1, of the line on which a span starts.
pub fn line_of(source: &str, span: Span) -> (r: usize)
    requires
        is_position(source@, span.start as int),
        span.start < usize::MAX,
    ensures
        r == line_number(source@, span.start as int),
{
    let bytes = source.as_bytes();
    let mut count: usize = 0;
    for i in 0..span.start
        invariant
            bytes@ == encode_utf8(source@),
            span.start <= bytes@.len(),
            span.start < usize::MAX,
            count == line_feeds(bytes@.take(i as int)),
            count <= i,
    {
        assert(bytes@.take(i + 1).drop_last() =~= bytes@.take(i as int));
        if bytes[i] == 10 {
            count += 1;
        }
    }
    count + 1
}

/// The value of a string literal as it is written in the source: without the
/// quotes, with the escape sequences expanded. A literal that does not stand
/// in the source has an empty one.
pub fn lit_str_value(source: &str, lit: StrLit) -> (r: String)
    requires
        str_fits(source@, lit),
    ensures
        r@ == str_value(source@, lit),
{
    match lit.text {
        Some(text) => {
            let span = if text.wrapped {
                Span { start: lit.span.start + 1, end: lit.span.end - 1 }
            } else {
                lit.span
            };
            let raw = slice(source, span);
            if text.escaped {
                unescape(raw)
            } else {
                raw.to_owned()
            }
        },
        None => String::new(),
    }
}

/// A text with its escape sequences expanded.
pub fn unescape(input: &str) -> (r: String)
    ensures
        r@ == unescaped(input@),
{
    let chars = chars_of(input);
    let mut out = String::new();
    let mut i: usize = 0;
    assert(chars@.skip(0) =~= chars@);
    assert(out@ + unescaped(chars@) =~= unescaped(chars@));
    while i < chars.len()
        invariant
            i <= chars@.len(),
            out@ + unescaped(chars@.skip(i as int)) == unescaped(chars@),
        decreases chars@.len() - i,
    {
        let ghost rest = chars@.skip(i as int);
        let ghost before = out@;
        let c = chars[i];
        if c != '\\' {
            out.push(c);
            assert(rest.skip(1) =~= chars@.skip(i + 1));
            assert(before + (seq![c] + unescaped(rest.skip(1))) =~= out@ + unescaped(rest.skip(1)));
            i += 1;
        } else if i + 1 < chars.len() {
            let next = chars[i + 1];
            let expanded = match next {
                'n' => '\n',
                't' => '\t',
                'r' => '\r',
                '0' => '\0',
                other => other,
            };
            out.push(expanded);
            assert(rest.skip(2) =~= chars@.skip(i + 2));
            assert(before + (seq![expanded] + unescaped(rest.skip(2))) =~= out@ + unescaped(
                rest.skip(2),
            ));
            i += 2;
        } else {
            i += 1;
            assert(chars@.skip(i as int) =~= Seq::<char>::empty());
        }
    }
    assert(chars@.skip(i as int) =~= Seq::<char>::empty());
    assert(out@ + unescaped(Seq::<char>::empty()) =~= out@);
    out
}

} // verus!
