//! Text as sequences of characters: the string operations that the parsers
//! and the messages are made of, each against a specification over
//! `Seq<char>`.

use vstd::prelude::*;
use vstd::slice::slice_subrange;

verus! {

// ---------------------------------------------------------------------------
// Character classes.
// ---------------------------------------------------------------------------

/// The characters with the Unicode property `White_Space`.
pub open spec fn is_space(c: char) -> bool {
    ||| '\u{9}' <= c <= '\u{d}'
    ||| c == ' '
    ||| c == '\u{85}'
    ||| c == '\u{a0}'
    ||| c == '\u{1680}'
    ||| '\u{2000}' <= c <= '\u{200a}'
    ||| c == '\u{2028}'
    ||| c == '\u{2029}'
    ||| c == '\u{202f}'
    ||| c == '\u{205f}'
    ||| c == '\u{3000}'
}

/// The letters of ASCII.
pub open spec fn ascii_letter(c: char) -> bool {
    'a' <= c <= 'z' || 'A' <= c <= 'Z'
}

/// The digits of ASCII.
pub open spec fn ascii_digit(c: char) -> bool {
    '0' <= c <= '9'
}

/// What `char::is_alphabetic` tells of a character.
pub uninterp spec fn unicode_alphabetic(c: char) -> bool;

/// What `char::is_alphanumeric` tells of a character.
pub uninterp spec fn unicode_alphanumeric(c: char) -> bool;

/// What `char::is_uppercase` tells of a character.
pub uninterp spec fn unicode_uppercase(c: char) -> bool;

/// The alphabetic characters: the letters of ASCII, and beyond ASCII what
/// Unicode calls alphabetic, no white space among it.
pub open spec fn alphabetic(c: char) -> bool {
    if c <= '\u{7f}' {
        ascii_letter(c)
    } else {
        !is_space(c) && unicode_alphabetic(c)
    }
}

/// The alphanumeric characters: the letters and digits of ASCII, and beyond
/// ASCII what Unicode calls alphabetic or numeric, no white space among it.
pub open spec fn alphanumeric(c: char) -> bool {
    if c <= '\u{7f}' {
        ascii_letter(c) || ascii_digit(c)
    } else {
        !is_space(c) && unicode_alphanumeric(c)
    }
}

/// The uppercase characters: `A` to `Z`, and beyond ASCII what Unicode calls
/// uppercase.
pub open spec fn uppercase(c: char) -> bool {
    if c <= '\u{7f}' {
        'A' <= c <= 'Z'
    } else {
        unicode_uppercase(c)
    }
}

/// `char::is_whitespace` is true of the characters with the property
/// `White_Space`, and of no others.
pub assume_specification[ char::is_whitespace ](c: char) -> (r: bool)
    ensures
        r == is_space(c),
;

/// `char::is_alphabetic` depends on the character alone; among the ASCII
/// characters it is true of the letters, and it is true of no white space.
pub assume_specification[ char::is_alphabetic ](c: char) -> (r: bool)
    ensures
        r == unicode_alphabetic(c),
        r == alphabetic(c),
;

/// `char::is_alphanumeric` depends on the character alone; among the ASCII
/// characters it is true of the letters and the digits, and it is true of no
/// white space. It is true of what `char::is_alphabetic` is true of.
pub assume_specification[ char::is_alphanumeric ](c: char) -> (r: bool)
    ensures
        r == unicode_alphanumeric(c),
        r == alphanumeric(c),
        unicode_alphabetic(c) ==> r,
;

/// `char::is_uppercase` depends on the character alone; among the ASCII
/// characters it is true of `A` to `Z`.
pub assume_specification[ char::is_uppercase ](c: char) -> (r: bool)
    ensures
        r == unicode_uppercase(c),
        r == uppercase(c),
;

/// `String::push` appends one character to the string.
pub assume_specification[ std::string::String::push ](s: &mut std::string::String, c: char)
    ensures
        final(s)@ == old(s)@.push(c),
;

// ---------------------------------------------------------------------------
// Trimming, prefixes, occurrences.
// ---------------------------------------------------------------------------

/// `s` without the white space at its start.
pub open spec fn trim_start(s: Seq<char>) -> Seq<char>
    decreases s.len(),
{
    if s.len() > 0 && is_space(s[0]) {
        trim_start(s.skip(1))
    } else {
        s
    }
}

/// `s` without the white space at its end.
pub open spec fn trim_end(s: Seq<char>) -> Seq<char>
    decreases s.len(),
{
    if s.len() > 0 && is_space(s.last()) {
        trim_end(s.drop_last())
    } else {
        s
    }
}

/// `s` without the white space at both ends.
pub open spec fn trim(s: Seq<char>) -> Seq<char> {
    trim_end(trim_start(s))
}

/// Whether `pattern` stands in `s` at position `at`.
pub open spec fn occurs_at(s: Seq<char>, pattern: Seq<char>, at: int) -> bool {
    0 <= at && at + pattern.len() <= s.len() && s.subrange(at, at + pattern.len()) == pattern
}

/// Whether `s` starts with `prefix`.
pub open spec fn starts_with(s: Seq<char>, prefix: Seq<char>) -> bool {
    occurs_at(s, prefix, 0)
}

/// Whether `s` ends with `suffix`.
pub open spec fn ends_with(s: Seq<char>, suffix: Seq<char>) -> bool {
    occurs_at(s, suffix, s.len() - suffix.len())
}

/// Whether `pattern` stands anywhere in `s`.
pub open spec fn contains_text(s: Seq<char>, pattern: Seq<char>) -> bool {
    exists|at: int| occurs_at(s, pattern, at)
}

/// The last position before `limit` at which `pattern` stands in `s`.
pub open spec fn last_occurrence(s: Seq<char>, pattern: Seq<char>, limit: nat) -> Option<int>
    decreases limit,
{
    if limit == 0 {
        None
    } else if occurs_at(s, pattern, limit - 1) {
        Some(limit - 1)
    } else {
        last_occurrence(s, pattern, (limit - 1) as nat)
    }
}

// ---------------------------------------------------------------------------
// Lines and joining.
// ---------------------------------------------------------------------------

/// The length of the first line of `s`, without its line feed.
pub open spec fn line_length(s: Seq<char>) -> nat
    decreases s.len(),
{
    if s.len() == 0 || s[0] == '\n' {
        0
    } else {
        1 + line_length(s.skip(1))
    }
}

/// A line that a line feed ended, without the carriage return before it.
pub open spec fn without_return(line: Seq<char>) -> Seq<char> {
    if line.len() > 0 && line.last() == '\r' {
        line.drop_last()
    } else {
        line
    }
}

/// The lines of `s`, without their line ends. A line end is a line feed,
/// with a carriage return before it or not; after the last line it is
/// optional.
pub open spec fn lines(s: Seq<char>) -> Seq<Seq<char>>
    decreases s.len(),
{
    if s.len() == 0 {
        Seq::empty()
    } else if line_length(s) < s.len() {
        seq![without_return(s.take(line_length(s) as int))] + lines(
            s.skip(line_length(s) as int + 1),
        )
    } else {
        seq![s]
    }
}

/// `parts` one after the other, with `separator` between each two.
pub open spec fn join(parts: Seq<Seq<char>>, separator: Seq<char>) -> Seq<char>
    decreases parts.len(),
{
    if parts.len() == 0 {
        Seq::empty()
    } else if parts.len() == 1 {
        parts[0]
    } else {
        join(parts.drop_last(), separator) + separator + parts.last()
    }
}

/// The texts of a sequence of strings.
pub open spec fn texts(strings: Seq<String>) -> Seq<Seq<char>> {
    strings.map_values(|s: String| s@)
}

/// The texts of a sequence of character slices.
pub open spec fn slice_texts(slices: Seq<&[char]>) -> Seq<Seq<char>> {
    slices.map_values(|s: &[char]| s@)
}

/// The decimal digit for `d`.
pub open spec fn digit(d: nat) -> char {
    ('0' as u32 + d) as char
}

/// `n` in decimal notation.
pub open spec fn decimal(n: nat) -> Seq<char>
    decreases n,
{
    if n < 10 {
        seq![digit(n)]
    } else {
        decimal(n / 10).push(digit(n % 10))
    }
}

// ---------------------------------------------------------------------------
// The operations.
// ---------------------------------------------------------------------------

/// The characters of a string.
pub fn chars_of(s: &str) -> (r: Vec<char>)
    ensures
        r@ == s@,
{
    let mut out: Vec<char> = Vec::new();
    for c in it: s.chars()
        invariant
            it.seq() == s@,
            out@ == s@.take(it.index()),
    {
        out.push(c);
    }
    out
}

/// Appends characters to a string.
pub fn push_chars(out: &mut String, s: &[char])
    ensures
        final(out)@ == old(out)@ + s@,
{
    for i in 0..s.len()
        invariant
            out@ == old(out)@ + s@.take(i as int),
    {
        out.push(s[i]);
    }
}

/// The string with the given characters.
pub fn string_of(s: &[char]) -> (r: String)
    ensures
        r@ == s@,
{
    let mut out = String::new();
    push_chars(&mut out, s);
    out
}

/// Whether two strings have the same text.
pub fn same_text(a: &str, b: &str) -> (r: bool)
    ensures
        r == (a@ == b@),
{
    a.to_owned() == b.to_owned()
}

/// Appends a number in decimal notation.
pub fn push_decimal(out: &mut String, n: usize)
    ensures
        final(out)@ == old(out)@ + decimal(n as nat),
    decreases n,
{
    if n >= 10 {
        push_decimal(out, n / 10);
    }
    let d: u8 = (n % 10) as u8;
    out.push((48 + d) as char);
}

/// `trim_start` of a slice.
pub fn trimmed_start(s: &[char]) -> (r: &[char])
    ensures
        r@ == trim_start(s@),
{
    let mut i: usize = 0;
    assert(s@.skip(0) =~= s@);
    while i < s.len() && s[i].is_whitespace()
        invariant
            i <= s@.len(),
            trim_start(s@) == trim_start(s@.skip(i as int)),
        decreases s@.len() - i,
    {
        assert(s@.skip(i as int).skip(1) =~= s@.skip(i + 1));
        i += 1;
    }
    slice_subrange(s, i, s.len())
}

/// `trim_end` of a slice.
pub fn trimmed_end(s: &[char]) -> (r: &[char])
    ensures
        r@ == trim_end(s@),
{
    let mut n: usize = s.len();
    assert(s@.take(n as int) =~= s@);
    while n > 0 && s[n - 1].is_whitespace()
        invariant
            n <= s@.len(),
            trim_end(s@) == trim_end(s@.take(n as int)),
        decreases n,
    {
        assert(s@.take(n as int).drop_last() =~= s@.take(n - 1));
        n -= 1;
    }
    slice_subrange(s, 0, n)
}

/// `trim` of a slice.
pub fn trimmed(s: &[char]) -> (r: &[char])
    ensures
        r@ == trim(s@),
{
    trimmed_end(trimmed_start(s))
}

/// Whether `pattern` stands in `s` at position `at`.
pub fn found_at(s: &[char], pattern: &[char], at: usize) -> (r: bool)
    ensures
        r == occurs_at(s@, pattern@, at as int),
{
    if at > s.len() || pattern.len() > s.len() - at {
        return false;
    }
    for i in 0..pattern.len()
        invariant
            at + pattern.len() <= s.len(),
            forall|j: int| 0 <= j < i ==> s@[at + j] == #[trigger] pattern@[j],
    {
        if s[at + i] != pattern[i] {
            assert(s@.subrange(at as int, at + pattern@.len())[i as int] != pattern@[i as int]);
            return false;
        }
    }
    assert(s@.subrange(at as int, at + pattern@.len()) =~= pattern@);
    true
}

/// What follows `prefix` in `s`, where `s` starts with it.
pub fn after_prefix<'a>(s: &'a [char], prefix: &str) -> (r: Option<&'a [char]>)
    ensures
        match r {
            Some(rest) => starts_with(s@, prefix@) && rest@ == s@.skip(prefix@.len() as int),
            None => !starts_with(s@, prefix@),
        },
{
    let pattern = chars_of(prefix);
    if found_at(s, pattern.as_slice(), 0) {
        Some(slice_subrange(s, pattern.len(), s.len()))
    } else {
        None
    }
}

/// What precedes `suffix` in `s`, where `s` ends with it.
pub fn before_suffix<'a>(s: &'a [char], suffix: &str) -> (r: Option<&'a [char]>)
    ensures
        match r {
            Some(rest) => ends_with(s@, suffix@) && rest@ == s@.take(s@.len() - suffix@.len()),
            None => !ends_with(s@, suffix@),
        },
{
    let pattern = chars_of(suffix);
    if pattern.len() <= s.len() && found_at(s, pattern.as_slice(), s.len() - pattern.len()) {
        Some(slice_subrange(s, 0, s.len() - pattern.len()))
    } else {
        None
    }
}

/// What follows the character `c` in `s`, where `s` starts with it.
pub fn after_char<'a>(s: &'a [char], c: char) -> (r: Option<&'a [char]>)
    ensures
        match r {
            Some(rest) => s@.len() > 0 && s@[0] == c && rest@ == s@.skip(1),
            None => s@.len() == 0 || s@[0] != c,
        },
{
    if s.len() > 0 && s[0] == c {
        Some(slice_subrange(s, 1, s.len()))
    } else {
        None
    }
}

/// The last position at which `pattern` stands in `s`.
pub fn last_found(s: &[char], pattern: &str) -> (r: Option<usize>)
    ensures
        match r {
            Some(at) => last_occurrence(s@, pattern@, (s@.len() + 1) as nat) == Some(at as int)
                && occurs_at(s@, pattern@, at as int),
            None => last_occurrence(s@, pattern@, (s@.len() + 1) as nat) is None
                && !contains_text(s@, pattern@),
        },
{
    let chars = chars_of(pattern);
    let mut n: usize = s.len();
    loop
        invariant
            n <= s@.len(),
            chars@ == pattern@,
            last_occurrence(s@, pattern@, (s@.len() + 1) as nat) == last_occurrence(
                s@,
                pattern@,
                (n + 1) as nat,
            ),
            forall|at: int| n < at ==> !#[trigger] occurs_at(s@, pattern@, at),
        decreases n,
    {
        if found_at(s, chars.as_slice(), n) {
            return Some(n);
        }
        if n == 0 {
            assert(last_occurrence(s@, pattern@, 0) is None);
            return None;
        }
        n -= 1;
    }
}

/// The length of the first line of a slice.
fn first_line_length(s: &[char]) -> (r: usize)
    ensures
        r == line_length(s@),
        r <= s@.len(),
{
    let mut i: usize = 0;
    assert(s@.skip(0) =~= s@);
    while i < s.len() && s[i] != '\n'
        invariant
            i <= s@.len(),
            line_length(s@) == i + line_length(s@.skip(i as int)),
        decreases s@.len() - i,
    {
        assert(s@.skip(i as int).skip(1) =~= s@.skip(i + 1));
        i += 1;
    }
    i
}

/// The lines of a slice.
pub fn split_lines<'a>(s: &'a [char]) -> (r: Vec<&'a [char]>)
    ensures
        slice_texts(r@) == lines(s@),
{
    let mut out: Vec<&'a [char]> = Vec::new();
    let mut rest: &'a [char] = s;
    while rest.len() > 0
        invariant
            slice_texts(out@) + lines(rest@) == lines(s@),
        decreases rest@.len(),
    {
        let n = first_line_length(rest);
        let ghost before = slice_texts(out@);
        if n < rest.len() {
            let end = if n > 0 && rest[n - 1] == '\r' {
                n - 1
            } else {
                n
            };
            let line = slice_subrange(rest, 0, end);
            let next = slice_subrange(rest, n + 1, rest.len());
            assert(line@ =~= without_return(rest@.take(n as int)));
            out.push(line);
            assert(slice_texts(out@) =~= before.push(line@));
            assert(before.push(line@) + lines(next@) =~= before + (seq![line@] + lines(next@)));
            assert(next@ =~= rest@.skip(n + 1));
            rest = next;
        } else {
            out.push(rest);
            assert(slice_texts(out@) =~= before + seq![rest@]);
            rest = slice_subrange(rest, n, n);
            assert(lines(rest@) =~= Seq::<Seq<char>>::empty());
        }
    }
    assert(lines(rest@) =~= Seq::<Seq<char>>::empty());
    out
}

/// Strings one after the other, with `separator` between each two.
pub fn joined(parts: &Vec<String>, separator: &str) -> (r: String)
    ensures
        r@ == join(texts(parts@), separator@),
{
    let mut out = String::new();
    for i in 0..parts.len()
        invariant
            out@ == join(texts(parts@).take(i as int), separator@),
    {
        if i > 0 {
            out.append(separator);
        }
        out.append(parts[i].as_str());
        assert(texts(parts@).take(i + 1).drop_last() =~= texts(parts@).take(i as int));
    }
    assert(texts(parts@).take(parts@.len() as int) =~= texts(parts@));
    out
}

} // verus!
