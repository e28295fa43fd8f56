//! The operations on texts.

use vstd::prelude::*;

use crate::text::{
    contains_text, ends_with, is_space, join, last_occurrence, line_length, lines, occurs_at,
    starts_with, trim, trim_end, trim_start,
};

verus! {

/// Whether a text is white space alone.
pub open spec fn is_blank(s: Seq<char>) -> bool {
    forall|i: int| 0 <= i < s.len() ==> is_space(#[trigger] s[i])
}

/// White space before a text is taken away, and nothing else.
pub proof fn leading_space_is_trimmed(space: Seq<char>, core: Seq<char>)
    requires
        is_blank(space),
        core.len() > 0 ==> !is_space(core[0]),
    ensures
        trim_start(space + core) == core,
    decreases space.len(),
{
    if space.len() == 0 {
        assert(space + core =~= core);
    } else {
        assert((space + core)[0] == space[0] && is_space(space[0]));
        assert((space + core).skip(1) =~= space.skip(1) + core);
        assert forall|i: int| 0 <= i < space.skip(1).len() implies is_space(
            #[trigger] space.skip(1)[i],
        ) by {
            assert(is_space(space[i + 1]));
        }
        leading_space_is_trimmed(space.skip(1), core);
    }
}

/// White space behind a text is taken away, and nothing else.
pub proof fn trailing_space_is_trimmed(core: Seq<char>, space: Seq<char>)
    requires
        is_blank(space),
        core.len() > 0 ==> !is_space(core[core.len() - 1]),
    ensures
        trim_end(core + space) == core,
    decreases space.len(),
{
    if space.len() == 0 {
        assert(core + space =~= core);
    } else {
        let fewer = space.drop_last();
        assert((core + space).last() == space[space.len() - 1]);
        assert((core + space).drop_last() =~= core + fewer);
        trailing_space_is_trimmed(core, fewer);
    }
}

/// White space around a text is taken away, and nothing else.
pub proof fn surrounding_space_is_trimmed(before: Seq<char>, core: Seq<char>, behind: Seq<char>)
    requires
        is_blank(before),
        is_blank(behind),
        core.len() > 0,
        !is_space(core[0]),
        !is_space(core[core.len() - 1]),
    ensures
        trim(before + core + behind) == core,
        trim(before).len() == 0,
{
    let rest = core + behind;
    assert(rest[0] == core[0]);
    assert(before + core + behind =~= before + rest);
    leading_space_is_trimmed(before, rest);
    trailing_space_is_trimmed(core, behind);
    leading_space_is_trimmed(before, Seq::empty());
    assert(before + Seq::empty() =~= before);
}

/// A space, a tab, a line feed and a carriage return are white space; letters
/// and digits are not.
pub proof fn space_is_no_letter(c: char)
    ensures
        is_space(' ') && is_space('\t') && is_space('\n') && is_space('\r'),
        '!' <= c <= '~' ==> !is_space(c),
{
}

/// Lines end at line feeds, which belong to none of them; a carriage return
/// before a line feed does not either.
pub proof fn lines_end_at_line_feeds(line: Seq<char>, rest: Seq<char>)
    requires
        !line.contains('\n'),
    ensures
        (line.len() == 0 || line[line.len() - 1] != '\r') ==> lines(line + (seq!['\n'] + rest))
            == seq![line] + lines(rest),
        lines(line + (seq!['\r', '\n'] + rest)) == seq![line] + lines(rest),
        line.len() > 0 ==> lines(line) == seq![line],
        lines(Seq::empty()) == Seq::<Seq<char>>::empty(),
{
    let s = line + (seq!['\n'] + rest);
    lemma_line_length(line, seq!['\n'] + rest);
    assert(s.take(line.len() as int) =~= line);
    assert(s.skip(line.len() as int + 1) =~= rest);
    let returned = line.push('\r');
    let t = line + (seq!['\r', '\n'] + rest);
    assert(t =~= returned + (seq!['\n'] + rest));
    assert(!returned.contains('\n')) by {
        if returned.contains('\n') {
            let k = choose|k: int| 0 <= k < returned.len() && returned[k] == '\n';
            assert(line[k] == '\n');
        }
    }
    lemma_line_length(returned, seq!['\n'] + rest);
    assert(t.take(returned.len() as int) =~= returned);
    assert(returned.drop_last() =~= line);
    assert(t.skip(returned.len() as int + 1) =~= rest);
    lemma_line_length(line, Seq::empty());
    assert(line + Seq::empty() =~= line);
}

proof fn lemma_line_length(line: Seq<char>, rest: Seq<char>)
    requires
        !line.contains('\n'),
        rest.len() > 0 ==> rest[0] == '\n',
    ensures
        line_length(line + rest) == line.len(),
    decreases line.len(),
{
    if line.len() == 0 {
        assert(line + rest =~= rest);
    } else {
        assert(line.contains(line[0]));
        assert((line + rest)[0] == line[0]);
        assert((line + rest).skip(1) =~= line.skip(1) + rest);
        assert(!line.skip(1).contains('\n')) by {
            if line.skip(1).contains('\n') {
                let k = choose|k: int| 0 <= k < line.skip(1).len() && line.skip(1)[k] == '\n';
                assert(line[k + 1] == '\n');
            }
        }
        lemma_line_length(line.skip(1), rest);
    }
}

/// Parts are joined in their order, with the separator between them and
/// nowhere else.
pub proof fn parts_are_joined_in_order(
    parts: Seq<Seq<char>>,
    last: Seq<char>,
    separator: Seq<char>,
)
    ensures
        join(Seq::empty(), separator) == Seq::<char>::empty(),
        join(seq![last], separator) == last,
        parts.len() > 0 ==> join(parts.push(last), separator) == join(parts, separator) + separator
            + last,
{
    assert(parts.push(last).drop_last() =~= parts);
    assert(parts.push(last).last() == last);
}

/// A text starts with what it is put together of first, ends with what comes
/// last, and contains what stands in between.
pub proof fn texts_contain_their_parts(a: Seq<char>, b: Seq<char>, c: Seq<char>)
    ensures
        starts_with(a + b, a),
        ends_with(a + b, b),
        contains_text(a + b + c, b),
{
    assert((a + b).subrange(0, a.len() as int) =~= a);
    assert((a + b).subrange((a + b).len() - b.len(), (a + b).len() as int) =~= b);
    let at = a.len() as int;
    assert((a + b + c).subrange(at, at + b.len()) =~= b);
    assert(occurs_at(a + b + c, b, at));
}

/// What a text starts with, ends with or contains stands there.
pub proof fn contained_texts_stand_there(s: Seq<char>, part: Seq<char>)
    ensures
        starts_with(s, part) ==> part.len() <= s.len() && s == part + s.skip(part.len() as int),
        ends_with(s, part) ==> part.len() <= s.len() && s == s.take(s.len() - part.len()) + part,
        contains_text(s, part) ==> exists|at: int|
            0 <= at <= s.len() - part.len() && #[trigger] s.subrange(at, at + part.len()) == part,
{
    if starts_with(s, part) {
        assert(s.subrange(0, part.len() as int) == part);
        assert(s =~= s.subrange(0, part.len() as int) + s.skip(part.len() as int));
    }
    if ends_with(s, part) {
        let at = s.len() - part.len();
        assert(s.subrange(at, s.len() as int) == part);
        assert(s =~= s.take(at) + s.subrange(at, s.len() as int));
    }
    if contains_text(s, part) {
        let at = choose|at: int| occurs_at(s, part, at);
        assert(s.subrange(at, at + part.len()) == part);
    }
}

/// The last occurrence of a text is one, and there is none behind it.
pub proof fn last_occurrences_are_last(s: Seq<char>, pattern: Seq<char>, limit: nat)
    ensures
        match last_occurrence(s, pattern, limit) {
            Some(at) => 0 <= at < limit && occurs_at(s, pattern, at) && forall|k: int|
                at < k < limit ==> !#[trigger] occurs_at(s, pattern, k),
            None => forall|k: int| 0 <= k < limit ==> !#[trigger] occurs_at(s, pattern, k),
        },
    decreases limit,
{
    if limit > 0 {
        last_occurrences_are_last(s, pattern, (limit - 1) as nat);
    }
}

} // verus!
