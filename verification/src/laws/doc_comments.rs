//! Contracts in doc-comments, in either style.

use vstd::prelude::*;

use crate::ast_analyzer::{
    block_doc, doc_at_end, doc_block, doc_lines, doc_of, fn_start, line_doc, without_blank_end,
    without_star,
};
use crate::doc_comment::{contract_of, is_ident_part};
use crate::laws::contracts::{
    annotation_lines, is_expressible_contract, lemma_join_ends, lemma_trim_end_behind,
    lemma_trims_commute, lemma_type_text_ends, printed_annotations_read_back,
};
use crate::laws::notation::{
    is_expressible, is_expressible_variant, is_ident, lemma_join_front, lemma_no_space_ahead,
};
use crate::laws::source_text::{byte_length, texts_before_positions};
use crate::syntax::FnTree;
use crate::text::{
    contains_text, is_space, join, last_occurrence, line_length, lines, occurs_at, starts_with,
    trim, trim_end, trim_start, without_return,
};
use crate::types::{
    field_texts, type_text, variant_text, variant_texts, ContractModel, TypeModel, VariantModel,
};

verus! {

// ---------------------------------------------------------------------------
// Lines.
// ---------------------------------------------------------------------------

/// Whether a text is one line, without white space at its ends.
pub open spec fn is_trimmed_line(line: Seq<char>) -> bool {
    &&& line.len() > 0
    &&& !is_space(line[0])
    &&& !is_space(line.last())
    &&& !line.contains('\n')
}

/// The length of a line that a line feed ends.
proof fn lemma_line_length(line: Seq<char>, rest: Seq<char>)
    requires
        !line.contains('\n'),
    ensures
        line_length(line + (seq!['\n'] + rest)) == line.len(),
        line_length(line) == line.len(),
    decreases line.len(),
{
    let s = line + (seq!['\n'] + rest);
    if line.len() == 0 {
        assert(s[0] == '\n');
    } else {
        assert(s[0] == line[0]);
        assert(line.contains(line[0]));
        assert(s.skip(1) =~= line.skip(1) + (seq!['\n'] + rest));
        assert(!line.skip(1).contains('\n')) by {
            if line.skip(1).contains('\n') {
                let k = choose|k: int| 0 <= k < line.skip(1).len() && line.skip(1)[k] == '\n';
                assert(line[k + 1] == '\n');
            }
        }
        lemma_line_length(line.skip(1), rest);
    }
}

/// The first line of a text.
proof fn lemma_first_line(line: Seq<char>, rest: Seq<char>)
    requires
        !line.contains('\n'),
        line.len() > 0 ==> line.last() != '\r',
    ensures
        lines(line + (seq!['\n'] + rest)) == seq![line] + lines(rest),
{
    let s = line + (seq!['\n'] + rest);
    lemma_line_length(line, rest);
    assert(s.take(line.len() as int) =~= line);
    assert(s.skip(line.len() as int + 1) =~= rest);
}

/// A text of one line without a line feed.
proof fn lemma_single_line(line: Seq<char>)
    requires
        !line.contains('\n'),
        line.len() > 0,
    ensures
        lines(line) == seq![line],
{
    lemma_line_length(line, Seq::empty());
}

proof fn lemma_line_length_is_feed(s: Seq<char>)
    ensures
        line_length(s) <= s.len(),
        line_length(s) < s.len() ==> s[line_length(s) as int] == '\n',
        !s.take(line_length(s) as int).contains('\n'),
    decreases s.len(),
{
    if s.len() > 0 && s[0] != '\n' {
        lemma_line_length_is_feed(s.skip(1));
        let n = line_length(s) as int;
        if s.take(n).contains('\n') {
            let k = choose|k: int| 0 <= k < n && s.take(n)[k] == '\n';
            assert(s[k] == '\n');
            assert(s.skip(1).take(n - 1)[k - 1] == '\n');
        }
    }
}

proof fn lemma_line_length_ahead(s: Seq<char>, rest: Seq<char>)
    requires
        line_length(s) < s.len(),
    ensures
        line_length(s + rest) == line_length(s),
    decreases s.len(),
{
    if s[0] != '\n' {
        assert((s + rest).skip(1) =~= s.skip(1) + rest);
        lemma_line_length_ahead(s.skip(1), rest);
    }
    assert((s + rest)[0] == s[0]);
}

/// The lines of two texts one after the other, where the first one ends with
/// a line feed.
proof fn lemma_lines_behind(s: Seq<char>, rest: Seq<char>)
    requires
        s.len() > 0 ==> s.last() == '\n',
    ensures
        lines(s + rest) == lines(s) + lines(rest),
    decreases s.len(),
{
    if s.len() == 0 {
        assert(s + rest =~= rest);
        assert(lines(s) + lines(rest) =~= lines(rest));
    } else {
        lemma_line_length_is_feed(s);
        let n = line_length(s) as int;
        if n == s.len() {
            assert(s.take(n)[n - 1] == '\n');
        }
        lemma_line_length_ahead(s, rest);
        assert((s + rest).take(n) =~= s.take(n));
        assert((s + rest).skip(n + 1) =~= s.skip(n + 1) + rest);
        lemma_lines_behind(s.skip(n + 1), rest);
        assert(lines(s + rest) =~= lines(s) + lines(rest));
    }
}

/// The lines of lines that are joined by line feeds.
proof fn lemma_joined_lines(parts: Seq<Seq<char>>)
    requires
        parts.len() > 0,
        forall|i: int| 0 <= i < parts.len() ==> is_trimmed_line(#[trigger] parts[i]),
    ensures
        lines(join(parts, "\n"@)) == parts,
    decreases parts.len(),
{
    reveal_strlit("\n");
    assert("\n"@ =~= seq!['\n']);
    assert(is_trimmed_line(parts[0]));
    if parts.len() == 1 {
        lemma_single_line(parts[0]);
        assert(parts =~= seq![parts[0]]);
    } else {
        let rest = parts.skip(1);
        lemma_join_front(parts, "\n"@);
        assert forall|i: int| 0 <= i < rest.len() implies is_trimmed_line(#[trigger] rest[i]) by {
            assert(is_trimmed_line(parts[i + 1]));
        }
        lemma_joined_lines(rest);
        assert(parts[0] + "\n"@ + join(rest, "\n"@) =~= parts[0] + (seq!['\n'] + join(
            rest,
            "\n"@,
        )));
        lemma_first_line(parts[0], join(rest, "\n"@));
        assert(seq![parts[0]] + rest =~= parts);
    }
}

// ---------------------------------------------------------------------------
// The line style.
// ---------------------------------------------------------------------------

/// Lines, each after a prefix and before a line feed.
pub open spec fn prefixed(prefix: Seq<char>, parts: Seq<Seq<char>>) -> Seq<char>
    decreases parts.len(),
{
    if parts.len() == 0 {
        Seq::empty()
    } else {
        prefixed(prefix, parts.drop_last()) + prefix + parts.last() + "\n"@
    }
}

/// Lines as a comment in line style.
pub open spec fn line_style(parts: Seq<Seq<char>>) -> Seq<char> {
    prefixed("/// "@, parts)
}

proof fn lemma_prefixed_ends(prefix: Seq<char>, parts: Seq<Seq<char>>)
    ensures
        prefixed(prefix, parts).len() > 0 ==> prefixed(prefix, parts).last() == '\n',
{
    reveal_strlit("\n");
}

proof fn lemma_line_style(before: Seq<char>, parts: Seq<Seq<char>>)
    requires
        before.len() > 0 ==> before.last() == '\n',
        forall|i: int| 0 <= i < parts.len() ==> is_trimmed_line(#[trigger] parts[i]),
    ensures
        doc_block(lines(before + line_style(parts))) == doc_block(lines(before)) + parts,
        parts.len() > 0 ==> without_blank_end(lines(before + line_style(parts))) == lines(
            before + line_style(parts),
        ),
    decreases parts.len(),
{
    reveal_strlit("\n");
    reveal_strlit("///");
    reveal_strlit("/// ");
    if parts.len() == 0 {
        assert(before + line_style(parts) =~= before);
        assert(doc_block(lines(before)) + parts =~= doc_block(lines(before)));
    } else {
        let front = parts.drop_last();
        let part = parts.last();
        assert(is_trimmed_line(parts[parts.len() - 1]));
        assert forall|i: int| 0 <= i < front.len() implies is_trimmed_line(
            #[trigger] front[i],
        ) by {
            assert(is_trimmed_line(parts[i]));
        }
        lemma_line_style(before, front);
        let above = before + line_style(front);
        let line = "/// "@ + part;
        assert(before + line_style(parts) =~= above + (line + (seq!['\n'] + Seq::empty())));
        lemma_prefixed_ends("/// "@, front);
        lemma_lines_behind(above, line + (seq!['\n'] + Seq::empty()));
        assert(!line.contains('\n')) by {
            if line.contains('\n') {
                let k = choose|k: int| 0 <= k < line.len() && line[k] == '\n';
                assert(k >= 4);
                assert(part[k - 4] == '\n');
            }
        }
        assert(line.last() == part.last());
        lemma_first_line(line, Seq::empty());
        assert(lines(Seq::empty()) =~= Seq::empty());
        let all = lines(before + line_style(parts));
        assert(all =~= lines(above).push(line));
        assert(all.drop_last() =~= lines(above));
        lemma_no_space_ahead(line);
        assert(trim(line) == line);
        assert(line.subrange(0, 3) =~= "///"@);
        let rest = line.skip(3);
        assert(rest.skip(1) =~= part);
        lemma_no_space_ahead(part);
        assert(trim_start(rest) == part);
        assert((doc_block(lines(before)) + front).push(part) =~= doc_block(lines(before)) + parts);
    }
}

/// Whether a text ends in a line of a comment in line style, to which more
/// lines can be added.
pub open spec fn ends_in_line_style(before: Seq<char>) -> bool {
    doc_block(lines(before)).len() > 0
}

/// Lines above a function in line style are its doc-comment, where no other
/// line of that style stands directly above them. A blank line above them is
/// enough to part them from others.
pub proof fn line_style_is_read(before: Seq<char>, parts: Seq<Seq<char>>)
    requires
        before.len() > 0 ==> before.last() == '\n',
        !ends_in_line_style(before),
        parts.len() > 0,
        forall|i: int| 0 <= i < parts.len() ==> is_trimmed_line(#[trigger] parts[i]),
    ensures
        doc_at_end(before + line_style(parts)) == Some(join(parts, "\n"@)),
{
    lemma_line_style(before, parts);
    assert(doc_block(lines(before)) + parts =~= parts);
}

// ---------------------------------------------------------------------------
// The block style.
// ---------------------------------------------------------------------------

/// Lines as a comment in block style, with a star before each.
pub open spec fn block_style(parts: Seq<Seq<char>>) -> Seq<char> {
    "/**\n"@ + prefixed(" * "@, parts) + " */\n"@
}

proof fn lemma_last_occurrence(s: Seq<char>, pattern: Seq<char>, limit: nat, at: int)
    requires
        0 <= at < limit,
        occurs_at(s, pattern, at),
        forall|k: int| at < k < limit ==> !#[trigger] occurs_at(s, pattern, k),
    ensures
        last_occurrence(s, pattern, limit) == Some(at),
    decreases limit,
{
    if at < limit - 1 {
        assert(!occurs_at(s, pattern, limit - 1));
        lemma_last_occurrence(s, pattern, (limit - 1) as nat, at);
    }
}

/// The lines of lines after a prefix.
proof fn lemma_prefixed_lines(prefix: Seq<char>, parts: Seq<Seq<char>>)
    requires
        !prefix.contains('\n'),
        forall|i: int| 0 <= i < parts.len() ==> is_trimmed_line(#[trigger] parts[i]),
    ensures
        lines(prefixed(prefix, parts)) == parts.map_values(|part: Seq<char>| prefix + part),
    decreases parts.len(),
{
    reveal_strlit("\n");
    let wanted = parts.map_values(|part: Seq<char>| prefix + part);
    if parts.len() == 0 {
        assert(lines(prefixed(prefix, parts)) =~= wanted);
    } else {
        let front = parts.drop_last();
        let part = parts.last();
        assert(is_trimmed_line(parts[parts.len() - 1]));
        assert forall|i: int| 0 <= i < front.len() implies is_trimmed_line(
            #[trigger] front[i],
        ) by {
            assert(is_trimmed_line(parts[i]));
        }
        lemma_prefixed_lines(prefix, front);
        let above = prefixed(prefix, front);
        let line = prefix + part;
        assert(prefixed(prefix, parts) =~= above + (line + (seq!['\n'] + Seq::empty())));
        lemma_prefixed_ends(prefix, front);
        lemma_lines_behind(above, line + (seq!['\n'] + Seq::empty()));
        assert(!line.contains('\n')) by {
            if line.contains('\n') {
                let k = choose|k: int| 0 <= k < line.len() && line[k] == '\n';
                if k < prefix.len() {
                    assert(prefix[k] == '\n');
                } else {
                    assert(part[k - prefix.len()] == '\n');
                }
            }
        }
        assert(line.last() == part.last());
        lemma_first_line(line, Seq::empty());
        assert(lines(Seq::empty()) =~= Seq::empty());
        assert(lines(prefixed(prefix, parts)) =~= wanted);
    }
}

/// A text of two characters or more, none of them white space, that stands in
/// none of the lines does not stand in them with stars either.
proof fn lemma_starred_lack(parts: Seq<Seq<char>>, pattern: Seq<char>)
    requires
        pattern.len() >= 2,
        forall|k: int| 0 <= k < pattern.len() ==> !is_space(#[trigger] pattern[k]),
        forall|i: int| 0 <= i < parts.len() ==> !contains_text(#[trigger] parts[i], pattern),
    ensures
        !contains_text(prefixed(" * "@, parts), pattern),
    decreases parts.len(),
{
    reveal_strlit("\n");
    reveal_strlit(" * ");
    let all = prefixed(" * "@, parts);
    if parts.len() > 0 {
        let front = parts.drop_last();
        let part = parts.last();
        assert(!contains_text(parts[parts.len() - 1], pattern));
        assert forall|i: int| 0 <= i < front.len() implies !contains_text(
            #[trigger] front[i],
            pattern,
        ) by {
            assert(!contains_text(parts[i], pattern));
        }
        lemma_starred_lack(front, pattern);
        let above = prefixed(" * "@, front);
        let n = above.len() as int;
        if contains_text(all, pattern) {
            let at = choose|at: int| occurs_at(all, pattern, at);
            let end = at + pattern.len();
            let found = all.subrange(at, end);
            // The white space around the star and the line feed are outside.
            assert(all[n] == ' ' && all[n + 2] == ' ' && all[all.len() - 1] == '\n');
            assert forall|j: int| at <= j < end implies !is_space(#[trigger] all[j]) by {
                assert(found[j - at] == all[j]);
                assert(!is_space(pattern[j - at]));
            }
            if end <= n {
                assert(above.subrange(at, end) =~= found);
                assert(occurs_at(above, pattern, at));
            } else {
                assert(at > n + 2) by {
                    if at <= n {
                        assert(!is_space(all[n]));
                    } else if at <= n + 2 {
                        assert(!is_space(all[n + 2]));
                    }
                }
                assert(end < all.len()) by {
                    if end == all.len() {
                        assert(!is_space(all[end - 1]));
                    }
                }
                assert(part.subrange(at - n - 3, end - n - 3) =~= found);
                assert(occurs_at(part, pattern, at - n - 3));
            }
        }
    } else if contains_text(all, pattern) {
        let at = choose|at: int| occurs_at(all, pattern, at);
    }
}

/// The stars are taken off the lines of a comment in block style.
proof fn lemma_stars(parts: Seq<Seq<char>>)
    requires
        parts.len() > 0,
        forall|i: int| 0 <= i < parts.len() ==> is_trimmed_line(#[trigger] parts[i]),
    ensures
        ({
            let content = "\n"@ + prefixed(" * "@, parts) + " "@;
            trim(join(lines(content).map_values(|line: Seq<char>| without_star(line)), "\n"@))
                == join(parts, "\n"@)
        }),
{
    reveal_strlit("\n");
    reveal_strlit(" * ");
    reveal_strlit(" ");
    let body = prefixed(" * "@, parts);
    let content = "\n"@ + body + " "@;
    let empty = Seq::<char>::empty();
    assert(!" * "@.contains('\n'));
    assert(content =~= empty + (seq!['\n'] + (body + " "@)));
    assert(!empty.contains('\n'));
    lemma_first_line(empty, body + " "@);
    lemma_prefixed_ends(" * "@, parts);
    lemma_lines_behind(body, " "@);
    lemma_prefixed_lines(" * "@, parts);
    assert(!" "@.contains('\n'));
    lemma_single_line(" "@);
    let starred = parts.map_values(|part: Seq<char>| " * "@ + part);
    assert(lines(content) =~= seq![empty] + starred + seq![" "@]);
    let stripped = lines(content).map_values(|line: Seq<char>| without_star(line));
    assert(stripped =~= seq![empty] + parts + seq![empty]) by {
        assert(without_star(empty) == empty);
        assert(" "@.skip(1) =~= empty);
        assert(trim_start(" "@) == trim_start(empty));
        assert(without_star(" "@) == empty);
        assert forall|i: int| 0 <= i < parts.len() implies without_star(
            " * "@ + #[trigger] parts[i],
        ) == parts[i] by {
            let part = parts[i];
            assert(is_trimmed_line(part));
            let line = " * "@ + part;
            let star = line.skip(1);
            lemma_no_space_ahead(star);
            assert(trim_start(line) == star);
            assert(star.last() == part.last());
            assert(trim(line) == star);
            assert(star.skip(1).skip(1) =~= part);
            lemma_no_space_ahead(part);
        }
        assert forall|i: int| 0 <= i < stripped.len() implies stripped[i] == (seq![empty] + parts
            + seq![empty])[i] by {
            if 0 < i <= parts.len() {
                assert(lines(content)[i] == " * "@ + parts[i - 1]);
            }
        }
    }
    // The empty lines at both ends are trimmed off.
    let below = parts + seq![empty];
    assert(stripped.skip(1) =~= below);
    lemma_join_front(stripped, "\n"@);
    assert(below.drop_last() =~= parts);
    assert(join(below, "\n"@) == join(parts, "\n"@) + "\n"@ + empty);
    let text = join(parts, "\n"@);
    assert(join(stripped, "\n"@) =~= "\n"@ + (text + "\n"@));
    assert(is_trimmed_line(parts[0]) && is_trimmed_line(parts[parts.len() - 1]));
    assert(text.len() > 0 && text[0] == parts[0][0]) by {
        if parts.len() > 1 {
            lemma_join_front(parts, "\n"@);
        }
    }
    lemma_join_ends(parts, "\n"@);
    let joined = join(stripped, "\n"@);
    assert(joined.skip(1) =~= text + "\n"@);
    lemma_no_space_ahead(text + "\n"@);
    assert(trim_start(joined) == text + "\n"@);
    lemma_trim_end_behind(text, "\n"@);
    assert("\n"@.drop_last() =~= empty);
    assert(trim_end("\n"@) == trim_end(empty));
    assert(text + trim_end("\n"@) =~= text);
}

/// A comment in block style is none in line style: its last line is its end.
proof fn lemma_block_is_no_line_style(above: Seq<char>)
    requires
        above.len() > 0 ==> above.last() == '\n',
    ensures
        line_doc(above + " */\n"@) is None,
{
    reveal_strlit("*/");
    reveal_strlit(" */");
    reveal_strlit(" */\n");
    reveal_strlit("///");
    let all = above + " */\n"@;
    assert(all =~= above + (" */"@ + (seq!['\n'] + Seq::empty())));
    lemma_lines_behind(above, " */"@ + (seq!['\n'] + Seq::empty()));
    assert(!" */"@.contains('\n'));
    lemma_first_line(" */"@, Seq::empty());
    assert(lines(Seq::empty()) =~= Seq::empty());
    assert(lines(all) =~= lines(above).push(" */"@));
    assert(" */"@.skip(1) =~= "*/"@);
    lemma_no_space_ahead("*/"@);
    assert(trim_start(" */"@) == "*/"@);
    assert(trim(" */"@) == "*/"@);
    assert(doc_lines(lines(all)).len() == 0);
}

/// What stands in a comment in block style.
proof fn lemma_block_content(before: Seq<char>, content: Seq<char>)
    requires
        !contains_text(content, "/**"@),
    ensures
        contains_text(content, "*/"@) ==> block_doc(before + "/**"@ + content + "*/\n"@) is None,
        !contains_text(content, "*/"@) ==> block_doc(before + "/**"@ + content + "*/\n"@) == {
            let text = trim(
                join(lines(content).map_values(|line: Seq<char>| without_star(line)), "\n"@),
            );
            if text.len() == 0 {
                None
            } else {
                Some(text)
            }
        },
{
    reveal_strlit("\n");
    reveal_strlit("/**");
    reveal_strlit("*/");
    reveal_strlit("*/\n");
    let all = before + "/**"@ + content + "*/\n"@;
    let inside = before + "/**"@ + content;
    let closed = inside + "*/"@;
    assert(all =~= closed + "\n"@);
    lemma_trim_end_behind(closed, "\n"@);
    assert("\n"@.drop_last() =~= Seq::empty());
    assert(trim_end("\n"@) == trim_end(Seq::empty()));
    assert(trim_end(all) =~= closed);
    assert(closed.subrange(closed.len() - 2, closed.len() as int) =~= "*/"@);
    assert(closed.take(closed.len() - 2) =~= inside);
    let open = before.len() as int;
    assert(inside.subrange(open, open + 3) =~= "/**"@);
    assert forall|k: int| open < k < inside.len() + 1 implies !#[trigger] occurs_at(
        inside,
        "/**"@,
        k,
    ) by {
        if occurs_at(inside, "/**"@, k) {
            assert(inside.subrange(k, k + 3)[0] == inside[k]);
            assert(inside[k] == '/');
            assert(k >= open + 3);
            let at = k - open - 3;
            assert(content.subrange(at, at + 3) =~= inside.subrange(k, k + 3));
            assert(occurs_at(content, "/**"@, at));
        }
    }
    lemma_last_occurrence(inside, "/**"@, inside.len() + 1, open);
    assert(inside.skip(open + 3) =~= content);
}

/// What does not stand in lines with stars does not stand in the comment that
/// they make up either.
proof fn lemma_content_lacks(body: Seq<char>, pattern: Seq<char>)
    requires
        pattern.len() >= 2,
        forall|k: int| 0 <= k < pattern.len() ==> !is_space(#[trigger] pattern[k]),
        !contains_text(body, pattern),
    ensures
        !contains_text("\n"@ + body + " "@, pattern),
{
    reveal_strlit("\n");
    reveal_strlit(" ");
    let content = "\n"@ + body + " "@;
    if contains_text(content, pattern) {
        let at = choose|at: int| occurs_at(content, pattern, at);
        let end = at + pattern.len();
        let found = content.subrange(at, end);
        assert forall|j: int| at <= j < end implies !is_space(#[trigger] content[j]) by {
            assert(found[j - at] == content[j]);
            assert(!is_space(pattern[j - at]));
        }
        assert(at > 0) by {
            if at == 0 {
                assert(!is_space(content[0]));
            }
        }
        assert(end < content.len()) by {
            if end == content.len() {
                assert(!is_space(content[end - 1]));
            }
        }
        assert(body.subrange(at - 1, end - 1) =~= found);
        assert(occurs_at(body, pattern, at - 1));
    }
}

/// Lines above a function in block style are its doc-comment, where none of
/// them opens or closes a comment itself.
pub proof fn block_style_is_read(before: Seq<char>, parts: Seq<Seq<char>>)
    requires
        before.len() > 0 ==> before.last() == '\n',
        parts.len() > 0,
        forall|i: int| 0 <= i < parts.len() ==> is_trimmed_line(#[trigger] parts[i]),
        forall|i: int| 0 <= i < parts.len() ==> !contains_text(#[trigger] parts[i], "*/"@),
        forall|i: int| 0 <= i < parts.len() ==> !contains_text(#[trigger] parts[i], "/**"@),
    ensures
        doc_at_end(before + block_style(parts)) == Some(join(parts, "\n"@)),
{
    reveal_strlit("\n");
    reveal_strlit(" ");
    reveal_strlit(" * ");
    reveal_strlit("/**");
    reveal_strlit("/**\n");
    reveal_strlit("*/\n");
    reveal_strlit(" */\n");
    let body = prefixed(" * "@, parts);
    let all = before + block_style(parts);
    let above = before + "/**\n"@ + body;
    lemma_prefixed_ends(" * "@, parts);
    assert(above.last() == '\n');
    assert(all =~= above + " */\n"@);
    lemma_block_is_no_line_style(above);
    let content = "\n"@ + body + " "@;
    assert(all =~= before + "/**"@ + content + "*/\n"@);
    reveal_strlit("*/");
    lemma_starred_lack(parts, "*/"@);
    lemma_starred_lack(parts, "/**"@);
    lemma_content_lacks(body, "*/"@);
    lemma_content_lacks(body, "/**"@);
    lemma_block_content(before, content);
    lemma_stars(parts);
    assert(is_trimmed_line(parts[parts.len() - 1]));
    lemma_join_ends(parts, "\n"@);
}

// ---------------------------------------------------------------------------
// Contracts.
// ---------------------------------------------------------------------------

proof fn lemma_both_lack(a: Seq<char>, b: Seq<char>, c: char)
    requires
        !a.contains(c),
        !b.contains(c),
    ensures
        !(a + b).contains(c),
{
    if (a + b).contains(c) {
        let k = choose|k: int| 0 <= k < (a + b).len() && (a + b)[k] == c;
        if k < a.len() {
            assert(a[k] == c);
        } else {
            assert(b[k - a.len()] == c);
        }
    }
}

proof fn lemma_join_lacks(parts: Seq<Seq<char>>, separator: Seq<char>, c: char)
    requires
        forall|i: int| 0 <= i < parts.len() ==> !(#[trigger] parts[i]).contains(c),
        !separator.contains(c),
    ensures
        !join(parts, separator).contains(c),
    decreases parts.len(),
{
    if parts.len() == 1 {
        assert(!parts[0].contains(c));
    } else if parts.len() > 1 {
        let front = parts.drop_last();
        assert forall|i: int| 0 <= i < front.len() implies !(#[trigger] front[i]).contains(c) by {
            assert(!parts[i].contains(c));
        }
        lemma_join_lacks(front, separator, c);
        assert(!parts[parts.len() - 1].contains(c));
        lemma_both_lack(join(front, separator), separator, c);
        lemma_both_lack(join(front, separator) + separator, parts.last(), c);
    }
}

/// Neither a line feed nor a slash stands in an identifier.
proof fn lemma_ident_lacks(name: Seq<char>, c: char)
    requires
        is_ident(name),
        c == '\n' || c == '/',
    ensures
        !name.contains(c),
{
    if name.contains(c) {
        let k = choose|k: int| 0 <= k < name.len() && name[k] == c;
        if k > 0 {
            assert(is_ident_part(name[k]));
        }
    }
}

/// Neither a line feed nor a slash stands in a printed type.
proof fn lemma_type_text_lacks(t: TypeModel, c: char)
    requires
        is_expressible(t),
        c == '\n' || c == '/',
    ensures
        !type_text(t).contains(c),
    decreases t,
{
    reveal_strlit("String");
    reveal_strlit("int");
    reveal_strlit("float");
    reveal_strlit("bool");
    reveal_strlit("bytes");
    reveal_strlit("{}");
    reveal_strlit("{ ");
    reveal_strlit(" }");
    reveal_strlit(", ");
    reveal_strlit(": ");
    reveal_strlit(" | ");
    reveal_strlit(" | ()");
    reveal_strlit("[");
    reveal_strlit("]");
    reveal_strlit("()");
    match t {
        TypeModel::Primitive(_) => {},
        TypeModel::Unit => {},
        TypeModel::List(inner) => {
            lemma_type_text_lacks(*inner, c);
            lemma_both_lack("["@, type_text(*inner), c);
            lemma_both_lack("["@ + type_text(*inner), "]"@, c);
        },
        TypeModel::Nullable(inner) => {
            lemma_type_text_lacks(*inner, c);
            lemma_both_lack(type_text(*inner), " | ()"@, c);
        },
        TypeModel::Object(fields) => {
            let parts = field_texts(fields);
            assert forall|i: int| 0 <= i < parts.len() implies !(#[trigger] parts[i]).contains(
                c,
            ) by {
                let (name, inner) = fields[i];
                assert(is_ident(fields[i].0) && is_expressible(fields[i].1));
                assert(decreases_to!(fields => fields[i]));
                lemma_ident_lacks(name, c);
                lemma_type_text_lacks(fields[i].1, c);
                lemma_both_lack(name, ": "@, c);
                lemma_both_lack(name + ": "@, type_text(inner), c);
            }
            lemma_join_lacks(parts, ", "@, c);
            lemma_both_lack("{ "@, join(parts, ", "@), c);
            lemma_both_lack("{ "@ + join(parts, ", "@), " }"@, c);
        },
        TypeModel::Enum(variants) => {
            let parts = variant_texts(variants);
            assert forall|i: int| 0 <= i < parts.len() implies !(#[trigger] parts[i]).contains(
                c,
            ) by {
                assert(is_expressible_variant(variants[i]));
                lemma_variant_text_lacks(variants[i], c);
            }
            lemma_join_lacks(parts, " | "@, c);
        },
    }
}

proof fn lemma_variant_text_lacks(v: VariantModel, c: char)
    requires
        is_expressible_variant(v),
        c == '\n' || c == '/',
    ensures
        !variant_text(v).contains(c),
    decreases v,
{
    reveal_strlit("::");
    reveal_strlit("(");
    reveal_strlit(")");
    assert forall|i: int| 0 <= i < v.path.len() implies !(#[trigger] v.path[i]).contains(c) by {
        lemma_ident_lacks(v.path[i], c);
    }
    let path = join(v.path, "::"@);
    lemma_join_lacks(v.path, "::"@, c);
    if let Some(inner) = v.inner {
        lemma_type_text_lacks(*inner, c);
        lemma_both_lack(path, "("@, c);
        lemma_both_lack(path + "("@, type_text(*inner), c);
        lemma_both_lack(path + "("@ + type_text(*inner), ")"@, c);
    }
}

/// The annotations of a contract are lines without a slash.
proof fn lemma_annotations_are_lines(c: ContractModel)
    requires
        is_expressible_contract(c),
    ensures
        annotation_lines(c).len() > 0,
        forall|i: int|
            0 <= i < annotation_lines(c).len() ==> is_trimmed_line(
                #[trigger] annotation_lines(c)[i],
            ),
        forall|i: int|
            0 <= i < annotation_lines(c).len() ==> !(#[trigger] annotation_lines(c)[i]).contains(
                '/',
            ),
{
    reveal_strlit("@param ");
    reveal_strlit("@return ");
    reveal_strlit(": ");
    let all = annotation_lines(c);
    assert forall|i: int| 0 <= i < all.len() implies is_trimmed_line(#[trigger] all[i]) && !(
    all[i]).contains('/') by {
        let line = all[i];
        if i < c.params.len() {
            let p = c.params[i];
            assert(is_ident(c.params[i].name));
            assert(line =~= "@param "@ + (p.name + ": "@ + type_text(p.type_def)));
            lemma_type_text_ends(p.type_def);
            assert(line.last() == type_text(p.type_def).last());
            lemma_ident_lacks(p.name, '\n');
            lemma_ident_lacks(p.name, '/');
            lemma_type_text_lacks(p.type_def, '\n');
            lemma_type_text_lacks(p.type_def, '/');
            lemma_both_lack(p.name, ": "@, '\n');
            lemma_both_lack(p.name, ": "@, '/');
            lemma_both_lack(p.name + ": "@, type_text(p.type_def), '\n');
            lemma_both_lack(p.name + ": "@, type_text(p.type_def), '/');
            lemma_both_lack("@param "@, p.name + ": "@ + type_text(p.type_def), '\n');
            lemma_both_lack("@param "@, p.name + ": "@ + type_text(p.type_def), '/');
        } else {
            let t = c.return_type;
            assert(line =~= "@return "@ + type_text(t));
            lemma_type_text_ends(t);
            assert(line.last() == type_text(t).last());
            lemma_type_text_lacks(t, '\n');
            lemma_type_text_lacks(t, '/');
            lemma_both_lack("@return "@, type_text(t), '\n');
            lemma_both_lack("@return "@, type_text(t), '/');
        }
    }
}

/// A line without a slash neither opens nor closes a comment.
proof fn lemma_no_slash(line: Seq<char>)
    requires
        !line.contains('/'),
    ensures
        !contains_text(line, "*/"@),
        !contains_text(line, "/**"@),
{
    reveal_strlit("*/");
    reveal_strlit("/**");
    if contains_text(line, "*/"@) {
        let at = choose|at: int| occurs_at(line, "*/"@, at);
        assert(line.subrange(at, at + 2)[1] == line[at + 1]);
    }
    if contains_text(line, "/**"@) {
        let at = choose|at: int| occurs_at(line, "/**"@, at);
        assert(line.subrange(at, at + 3)[0] == line[at]);
    }
}

/// A contract is read from a comment at the end of a text, in line style as in
/// block style, where no other comment in line style stands directly above one
/// in line style.
pub proof fn contracts_are_read_in_either_style(before: Seq<char>, c: ContractModel)
    requires
        before.len() > 0 ==> before.last() == '\n',
        is_expressible_contract(c),
    ensures
        !ends_in_line_style(before) ==> (doc_at_end(
            before + line_style(annotation_lines(c)),
        ) matches Some(doc) && contract_of(doc) == Ok::<_, Seq<char>>(c)),
        doc_at_end(before + block_style(annotation_lines(c))) matches Some(doc) && contract_of(doc)
            == Ok::<_, Seq<char>>(c),
{
    let parts = annotation_lines(c);
    lemma_annotations_are_lines(c);
    if !ends_in_line_style(before) {
        line_style_is_read(before, parts);
    }
    assert forall|i: int| 0 <= i < parts.len() implies !contains_text(#[trigger] parts[i], "*/"@)
        && !contains_text(parts[i], "/**"@) by {
        lemma_no_slash(parts[i]);
    }
    block_style_is_read(before, parts);
    lemma_joined_lines(annotation_lines(c));
    printed_annotations_read_back(c);
}

/// The doc-comment of a function stands in front of its declaration, that is
/// of the first of its modifiers: the contract of a comment in either style
/// that ends there is the contract of the function.
pub proof fn contracts_stand_above_functions(
    before: Seq<char>,
    c: ContractModel,
    rest: Seq<char>,
    item: FnTree,
)
    requires
        before.len() > 0 ==> before.last() == '\n',
        is_expressible_contract(c),
    ensures
        ({
            let comment = line_style(annotation_lines(c));
            !ends_in_line_style(before) && fn_start(item) == byte_length(before + comment) ==> (
            doc_of(item, before + comment + rest) matches Some(doc) && contract_of(doc) == Ok::<
                _,
                Seq<char>,
            >(c))
        }),
        ({
            let comment = block_style(annotation_lines(c));
            fn_start(item) == byte_length(before + comment) ==> (doc_of(
                item,
                before + comment + rest,
            ) matches Some(doc) && contract_of(doc) == Ok::<_, Seq<char>>(c))
        }),
{
    contracts_are_read_in_either_style(before, c);
    texts_before_positions(before + line_style(annotation_lines(c)), rest);
    texts_before_positions(before + block_style(annotation_lines(c)), rest);
}

/// A comment in line style is contiguous: a blank line ends it, so that what
/// stands above does not belong to it.
pub proof fn blank_lines_end_comments(
    before: Seq<char>,
    blank: Seq<char>,
    parts: Seq<Seq<char>>,
)
    requires
        before.len() > 0 ==> before.last() == '\n',
        !blank.contains('\n'),
        trim(blank).len() == 0,
        parts.len() > 0,
        forall|i: int| 0 <= i < parts.len() ==> is_trimmed_line(#[trigger] parts[i]),
    ensures
        doc_at_end(before + blank + seq!['\n'] + line_style(parts)) == Some(join(parts, "\n"@)),
{
    reveal_strlit("///");
    let above = before + blank + seq!['\n'];
    assert(above =~= before + (blank + (seq!['\n'] + Seq::empty())));
    lemma_lines_behind(before, blank + (seq!['\n'] + Seq::empty()));
    let line = without_return(blank);
    let ended = blank + (seq!['\n'] + Seq::empty());
    lemma_line_length(blank, Seq::empty());
    assert(ended.take(blank.len() as int) =~= blank);
    assert(ended.skip(blank.len() as int + 1) =~= Seq::empty());
    assert(lines(Seq::empty()) =~= Seq::empty());
    assert(lines(above) =~= lines(before).push(line));
    assert(trim(line).len() == 0) by {
        lemma_trims_commute(blank);
        lemma_trims_commute(line);
    }
    assert(doc_block(lines(above)).len() == 0);
    line_style_is_read(above, parts);
}

/// A comment in block style that was closed before is not the doc-comment of
/// what follows: what stands between belongs to something else.
pub proof fn closed_comments_are_not_read(before: Seq<char>, content: Seq<char>)
    requires
        contains_text(content, "*/"@),
        !contains_text(content, "/**"@),
    ensures
        block_doc(before + "/**"@ + content + "*/\n"@) is None,
{
    lemma_block_content(before, content);
}

proof fn lemma_blank_end(lines: Seq<Seq<char>>, blanks: Seq<Seq<char>>)
    requires
        forall|i: int| 0 <= i < blanks.len() ==> trim(#[trigger] blanks[i]).len() == 0,
    ensures
        without_blank_end(lines + blanks) == without_blank_end(lines),
    decreases blanks.len(),
{
    if blanks.len() == 0 {
        assert(lines + blanks =~= lines);
    } else {
        let fewer = blanks.drop_last();
        assert((lines + blanks).last() == blanks[blanks.len() - 1]);
        assert((lines + blanks).drop_last() =~= lines + fewer);
        lemma_blank_end(lines, fewer);
    }
}

proof fn lemma_doc_block(above: Seq<Seq<char>>, docs: Seq<Seq<char>>)
    requires
        above.len() > 0 ==> !starts_with(trim(above.last()), "///"@),
        forall|i: int| 0 <= i < docs.len() ==> starts_with(trim(#[trigger] docs[i]), "///"@),
    ensures
        doc_block(above + docs) == docs.map_values(
            |line: Seq<char>| trim_start(trim(line).skip(3)),
        ),
    decreases docs.len(),
{
    let read = |line: Seq<char>| trim_start(trim(line).skip(3));
    if docs.len() == 0 {
        assert(above + docs =~= above);
        assert(docs.map_values(read) =~= Seq::empty());
    } else {
        let fewer = docs.drop_last();
        assert((above + docs).last() == docs[docs.len() - 1]);
        assert((above + docs).drop_last() =~= above + fewer);
        lemma_doc_block(above, fewer);
        assert(docs.map_values(read) =~= fewer.map_values(read).push(read(docs.last())));
    }
}

/// The doc-comment in line style is the block of `///` lines at the end, each
/// without its prefix and the space around it, up to a line of another kind.
/// Blank lines between it and the function do not matter.
pub proof fn comments_are_the_last_block_of_lines(
    above: Seq<Seq<char>>,
    docs: Seq<Seq<char>>,
    blanks: Seq<Seq<char>>,
)
    requires
        above.len() > 0 ==> !starts_with(trim(above.last()), "///"@),
        docs.len() > 0,
        forall|i: int| 0 <= i < docs.len() ==> starts_with(trim(#[trigger] docs[i]), "///"@),
        forall|i: int| 0 <= i < blanks.len() ==> trim(#[trigger] blanks[i]).len() == 0,
    ensures
        doc_lines(above + docs + blanks) == docs.map_values(
            |line: Seq<char>| trim_start(trim(line).skip(3)),
        ),
{
    reveal_strlit("///");
    lemma_blank_end(above + docs, blanks);
    lemma_doc_block(above, docs);
    let last = (above + docs).last();
    assert(last == docs[docs.len() - 1]);
    assert(starts_with(trim(last), "///"@));
    assert(trim(last).len() > 0);
    assert(without_blank_end(above + docs) == above + docs);
}

} // verus!
