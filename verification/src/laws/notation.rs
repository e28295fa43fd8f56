//! The notation of types and contracts: what is printed can be read back.

use vstd::prelude::*;

use crate::doc_comment::{
    atom_at, atom_type, atom_variant, atoms_at, fields_at, ident_at, is_ident_part, is_ident_start,
    lemma_atom_shortens, lemma_ident_shortens, lemma_segments_shorten, lemma_trim_start_shortens,
    lemma_type_shortens, object_at, primitive_named, segments_at, type_at, union_of_variants,
    union_type, whole_type, word_length, AtomModel,
};
use crate::text::{alphabetic, alphanumeric, is_space, join, starts_with, trim, trim_start};
use crate::types::{
    field_texts, primitive_text, type_text, variant_text, variant_texts, PrimitiveType, TypeModel,
    VariantModel,
};

verus! {

// ---------------------------------------------------------------------------
// The types that the notation can express.
// ---------------------------------------------------------------------------

/// Whether a text is one identifier.
pub open spec fn is_ident(s: Seq<char>) -> bool {
    &&& s.len() > 0
    &&& is_ident_start(s[0])
    &&& forall|i: int| 1 <= i < s.len() ==> is_ident_part(#[trigger] s[i])
}

/// Whether the notation can express a type: names are identifiers, a union
/// has an alternative, `()` stands for at most one alternative, and no
/// alternative without a value has the name of a primitive type.
pub open spec fn is_expressible(t: TypeModel) -> bool
    decreases t,
{
    match t {
        TypeModel::Primitive(_) => true,
        TypeModel::Unit => true,
        TypeModel::List(inner) => is_expressible(*inner),
        TypeModel::Nullable(inner) => {
            &&& is_expressible(*inner)
            &&& !(*inner is Unit)
            &&& !(*inner is Nullable)
        },
        TypeModel::Object(fields) => forall|i: int|
            0 <= i < fields.len() ==> is_ident((#[trigger] fields[i]).0) && is_expressible(
                fields[i].1,
            ),
        TypeModel::Enum(variants) => {
            &&& variants.len() > 0
            &&& forall|i: int|
                0 <= i < variants.len() ==> is_expressible_variant(#[trigger] variants[i])
        },
    }
}

/// Whether the notation can express an alternative.
pub open spec fn is_expressible_variant(v: VariantModel) -> bool
    decreases v,
{
    &&& v.path.len() > 0
    &&& forall|i: int| 0 <= i < v.path.len() ==> is_ident(#[trigger] v.path[i])
    &&& match v.inner {
        Some(inner) => is_expressible(*inner),
        None => v.path.len() > 1 || primitive_named(v.path[0]) is None,
    }
}

/// Whether a text does not go on with the identifier or the path before it.
pub open spec fn ends_path(rest: Seq<char>) -> bool {
    &&& rest.len() > 0 ==> !is_ident_part(rest[0])
    &&& !starts_with(trim_start(rest), "::"@)
}

/// Whether a text does not go on with the primitive type before it: no
/// parenthesis stands directly behind it.
pub open spec fn ends_primitive(rest: Seq<char>) -> bool {
    ends_path(rest) && !starts_with(rest, "("@)
}

/// Whether a text does not go on with the alternative before it: where that
/// ends in its path, a value might follow.
pub open spec fn ends_variant(v: VariantModel, rest: Seq<char>) -> bool {
    v.inner is None ==> ends_path(rest) && !starts_with(trim_start(rest), "("@)
}

/// Whether a text does not go on with the type before it: no other alternative
/// follows, nor more of the name that the type ends in.
pub open spec fn ends_type(t: TypeModel, rest: Seq<char>) -> bool {
    &&& !starts_with(trim_start(rest), "|"@)
    &&& match t {
        TypeModel::Primitive(_) => ends_primitive(rest),
        TypeModel::Enum(variants) => variants.len() > 0 ==> ends_variant(variants.last(), rest),
        _ => true,
    }
}

/// Whether a text goes on with no type whatever.
pub(crate) open spec fn ends_any(rest: Seq<char>) -> bool {
    ends_path(rest) && !starts_with(trim_start(rest), "("@) && !starts_with(trim_start(rest), "|"@)
}

// ---------------------------------------------------------------------------
// Words and white space.
// ---------------------------------------------------------------------------

pub(crate) proof fn lemma_no_space_ahead(s: Seq<char>)
    requires
        s.len() > 0 ==> !is_space(s[0]),
    ensures
        trim_start(s) == s,
{
}

pub(crate) proof fn lemma_one_space_ahead(s: Seq<char>)
    requires
        s.len() > 0,
        s[0] == ' ',
    ensures
        trim_start(s) == trim_start(s.skip(1)),
{
}

pub(crate) proof fn lemma_trim_start_again(s: Seq<char>)
    ensures
        trim_start(trim_start(s)) == trim_start(s),
    decreases s.len(),
{
    if s.len() > 0 && is_space(s[0]) {
        lemma_trim_start_again(s.skip(1));
    }
}

/// White space before a type does not matter.
pub(crate) proof fn lemma_type_after_space(s: Seq<char>)
    ensures
        type_at(" "@ + s) == type_at(s),
{
    reveal_strlit(" ");
    assert((" "@ + s).skip(1) =~= s);
    lemma_one_space_ahead(" "@ + s);
    lemma_trim_start_shortens(s);
}

/// A text starts with a single character iff that is its first.
pub(crate) proof fn lemma_starts_with_char(s: Seq<char>, p: Seq<char>)
    requires
        p.len() == 1,
    ensures
        starts_with(s, p) == (s.len() > 0 && s[0] == p[0]),
{
    if s.len() > 0 {
        assert(s.subrange(0, 1) =~= seq![s[0]]);
        assert(p =~= seq![p[0]]);
        if s[0] == p[0] {
            assert(s.subrange(0, 1) =~= p);
        } else {
            assert(s.subrange(0, 1)[0] != p[0]);
        }
    }
}

/// A text that does not start with a colon does not start with two.
pub(crate) proof fn lemma_starts_with_colons(s: Seq<char>)
    requires
        s.len() > 0 ==> s[0] != ':',
    ensures
        !starts_with(s, "::"@),
{
    reveal_strlit("::");
    if s.len() >= 2 {
        assert(s.subrange(0, 2)[0] == s[0]);
    }
}

proof fn lemma_word(word: Seq<char>, rest: Seq<char>)
    requires
        forall|i: int| 0 <= i < word.len() ==> is_ident_part(#[trigger] word[i]),
        rest.len() > 0 ==> !is_ident_part(rest[0]),
    ensures
        word_length(word + rest) == word.len(),
    decreases word.len(),
{
    if word.len() == 0 {
        assert(word + rest =~= rest);
    } else {
        assert((word + rest).skip(1) =~= word.skip(1) + rest);
        assert forall|i: int| 0 <= i < word.skip(1).len() implies is_ident_part(
            #[trigger] word.skip(1)[i],
        ) by {
            assert(is_ident_part(word[i + 1]));
        }
        lemma_word(word.skip(1), rest);
        assert((word + rest)[0] == word[0]);
    }
}

pub(crate) proof fn lemma_ident_reads(name: Seq<char>, rest: Seq<char>)
    requires
        is_ident(name),
        rest.len() > 0 ==> !is_ident_part(rest[0]),
    ensures
        ident_at(name + rest) == Some((name, rest)),
{
    let s = name + rest;
    assert(s.skip(1) =~= name.skip(1) + rest);
    assert forall|i: int| 0 <= i < name.skip(1).len() implies is_ident_part(
        #[trigger] name.skip(1)[i],
    ) by {
        assert(is_ident_part(name[i + 1]));
    }
    lemma_word(name.skip(1), rest);
    assert(s.take(name.len() as int) =~= name);
    assert(s.skip(name.len() as int) =~= rest);
}

/// `parts` joined, seen from the front.
pub(crate) proof fn lemma_join_front(parts: Seq<Seq<char>>, separator: Seq<char>)
    requires
        parts.len() > 1,
    ensures
        join(parts, separator) == parts[0] + separator + join(parts.skip(1), separator),
    decreases parts.len(),
{
    let front = parts.drop_last();
    let behind = parts.skip(1);
    if parts.len() == 2 {
        assert(front =~= seq![parts[0]]);
        assert(behind =~= seq![parts[1]]);
        assert(join(front, separator) == parts[0]);
        assert(join(behind, separator) == parts[1]);
    } else {
        lemma_join_front(front, separator);
        assert(front.skip(1) =~= behind.drop_last());
        assert(join(behind, separator) == join(behind.drop_last(), separator) + separator
            + behind.last());
        assert(join(parts, separator) =~= parts[0] + separator + join(behind, separator));
    }
}

// ---------------------------------------------------------------------------
// Printed types can be read back.
// ---------------------------------------------------------------------------

/// What stands behind the first segment of a path.
spec fn segments_text(segments: Seq<Seq<char>>) -> Seq<char>
    decreases segments.len(),
{
    if segments.len() == 0 {
        Seq::empty()
    } else {
        "::"@ + segments[0] + segments_text(segments.skip(1))
    }
}

proof fn lemma_path_text(path: Seq<Seq<char>>)
    requires
        path.len() > 0,
    ensures
        join(path, "::"@) == path[0] + segments_text(path.skip(1)),
    decreases path.len(),
{
    if path.len() == 1 {
        assert(path[0] + segments_text(path.skip(1)) =~= path[0]);
    } else {
        lemma_join_front(path, "::"@);
        lemma_path_text(path.skip(1));
        assert(path.skip(1)[0] == path[1]);
        assert(path[0] + "::"@ + (path[1] + segments_text(path.skip(1).skip(1))) =~= path[0] + (
        "::"@ + path[1] + segments_text(path.skip(1).skip(1))));
    }
}

proof fn lemma_segments_read(segments: Seq<Seq<char>>, rest: Seq<char>)
    requires
        forall|i: int| 0 <= i < segments.len() ==> is_ident(#[trigger] segments[i]),
        rest.len() > 0 ==> !is_ident_part(rest[0]),
        !starts_with(trim_start(rest), "::"@),
    ensures
        segments_at(segments_text(segments) + rest) == Ok::<_, Seq<char>>((segments, rest)),
    decreases segments.len(),
{
    reveal_strlit("::");
    let s = segments_text(segments) + rest;
    if segments.len() == 0 {
        assert(s =~= rest);
        assert(segments =~= Seq::empty());
    } else {
        let first = segments[0];
        let behind = segments_text(segments.skip(1)) + rest;
        assert forall|i: int| 0 <= i < segments.skip(1).len() implies is_ident(
            #[trigger] segments.skip(1)[i],
        ) by {
            assert(is_ident(segments[i + 1]));
        }
        lemma_segments_read(segments.skip(1), rest);
        assert(s =~= "::"@ + (first + behind));
        lemma_no_space_ahead(s);
        assert(s.subrange(0, 2) =~= "::"@);
        assert(s.skip(2) =~= first + behind);
        assert(is_ident(first));
        lemma_no_space_ahead(first + behind);
        if segments.skip(1).len() > 0 {
            assert(behind[0] == ':');
        } else {
            assert(behind =~= rest);
        }
        lemma_ident_reads(first, behind);
        assert(seq![first] + segments.skip(1) =~= segments);
    }
}

/// The element of a union that an alternative is.
spec fn variant_atom(v: VariantModel) -> AtomModel {
    AtomModel::Path { path: v.path, inner: v.inner }
}

/// The element of a union that a type is, where it is neither an enum nor
/// nullable.
spec fn plain_atom(t: TypeModel) -> AtomModel {
    match t {
        TypeModel::Primitive(p) => AtomModel::Primitive(p),
        TypeModel::Object(fields) => AtomModel::Object(fields),
        TypeModel::List(inner) => AtomModel::List(inner),
        _ => AtomModel::Unit,
    }
}

/// A path that neither a value nor a segment follows.
proof fn lemma_path_reads(path: Seq<Seq<char>>, rest: Seq<char>)
    requires
        path.len() > 0,
        forall|i: int| 0 <= i < path.len() ==> is_ident(#[trigger] path[i]),
        ends_path(rest),
        if path.len() == 1 && primitive_named(path[0]) is Some {
            !starts_with(rest, "("@)
        } else {
            !starts_with(trim_start(rest), "("@)
        },
    ensures
        atom_at(join(path, "::"@) + rest) == Ok::<_, Seq<char>>(
            (
                if path.len() == 1 && primitive_named(path[0]) is Some {
                    AtomModel::Primitive(primitive_named(path[0])->Some_0)
                } else {
                    AtomModel::Path { path, inner: None }
                },
                rest,
            ),
        ),
{
    reveal_strlit("::");
    reveal_strlit("(");
    lemma_starts_with_char(trim_start(rest), "("@);
    lemma_starts_with_char(rest, "("@);
    if starts_with(rest, "("@) {
        lemma_no_space_ahead(rest);
    }
    let s = join(path, "::"@) + rest;
    lemma_path_ahead(path, rest);
    assert(seq![path[0]] + path.skip(1) =~= path);
}

/// What is read of a path first.
proof fn lemma_path_ahead(path: Seq<Seq<char>>, rest: Seq<char>)
    requires
        path.len() > 0,
        forall|i: int| 0 <= i < path.len() ==> is_ident(#[trigger] path[i]),
        rest.len() > 0 ==> !is_ident_part(rest[0]),
        !starts_with(trim_start(rest), "::"@),
    ensures
        ({
            let s = join(path, "::"@) + rest;
            let behind = segments_text(path.skip(1)) + rest;
            &&& s.len() > 0
            &&& s[0] == path[0][0]
            &&& trim_start(s) == s
            &&& ident_at(s) == Some((path[0], behind))
            &&& segments_at(behind) == Ok::<_, Seq<char>>((path.skip(1), rest))
        }),
{
    reveal_strlit("::");
    let s = join(path, "::"@) + rest;
    let behind = segments_text(path.skip(1)) + rest;
    lemma_path_text(path);
    assert(s =~= path[0] + behind);
    assert(is_ident(path[0]));
    assert(s[0] == path[0][0]);
    lemma_no_space_ahead(s);
    if path.skip(1).len() > 0 {
        assert(behind[0] == ':');
    } else {
        assert(behind =~= rest);
    }
    lemma_ident_reads(path[0], behind);
    assert forall|i: int| 0 <= i < path.skip(1).len() implies is_ident(
        #[trigger] path.skip(1)[i],
    ) by {
        assert(is_ident(path[i + 1]));
    }
    lemma_segments_read(path.skip(1), rest);
}

/// The name of a primitive type is read as that type.
proof fn lemma_primitive_reads(p: PrimitiveType, rest: Seq<char>)
    requires
        ends_primitive(rest),
    ensures
        atom_at(primitive_text(p) + rest) == Ok::<_, Seq<char>>((AtomModel::Primitive(p), rest)),
        primitive_text(p).len() > 0,
        !is_space(primitive_text(p)[0]),
{
    reveal_strlit("String");
    reveal_strlit("int");
    reveal_strlit("float");
    reveal_strlit("bool");
    reveal_strlit("bytes");
    let name = primitive_text(p);
    assert(is_ident(name));
    assert("String"@ != "int"@ && "String"@ != "float"@ && "String"@ != "bool"@ && "String"@
        != "bytes"@) by {
        assert("String"@[0] == 'S');
    }
    assert("int"@ != "float"@ && "int"@ != "bool"@ && "int"@ != "bytes"@) by {
        assert("int"@[0] == 'i');
    }
    assert("float"@ != "bool"@ && "float"@ != "bytes"@) by {
        assert("float"@[0] == 'f');
    }
    assert("bool"@ != "bytes"@) by {
        assert("bool"@[1] == 'o' && "bytes"@[1] == 'y');
    }
    assert(primitive_named(name) == Some(p));
    let path = seq![name];
    assert(join(path, "::"@) == name);
    lemma_path_reads(path, rest);
}

proof fn lemma_unit_atom_reads(rest: Seq<char>)
    ensures
        atom_at("()"@ + rest) == Ok::<_, Seq<char>>((AtomModel::Unit, rest)),
        "()"@.len() > 0,
        !is_space("()"@[0]),
{
    reveal_strlit("()");
    let s = "()"@ + rest;
    assert(s[0] == '(' && s[1] == ')');
    lemma_no_space_ahead(s);
    lemma_no_space_ahead(s.skip(1));
    assert(s.skip(1).skip(1) =~= rest);
}

/// A type that is neither an enum nor nullable is read as one element.
proof fn lemma_plain_type_reads(t: TypeModel, rest: Seq<char>)
    requires
        is_expressible(t),
        !(t is Enum),
        !(t is Nullable),
        t is Primitive ==> ends_primitive(rest),
    ensures
        atom_at(type_text(t) + rest) == Ok::<_, Seq<char>>((plain_atom(t), rest)),
        type_text(t).len() > 0,
        !is_space(type_text(t)[0]),
    decreases t, 0int,
{
    reveal_strlit("(");
    reveal_strlit("()");
    reveal_strlit("[");
    reveal_strlit("]");
    reveal_strlit("{}");
    reveal_strlit("{ ");
    reveal_strlit(" }");
    reveal_strlit("::");
    reveal_strlit("|");
    let s = type_text(t) + rest;
    match t {
        TypeModel::Primitive(p) => lemma_primitive_reads(p, rest),
        TypeModel::Unit => lemma_unit_atom_reads(rest),
        TypeModel::List(inner) => {
            let behind = "]"@ + rest;
            assert(behind[0] == ']');
            lemma_no_space_ahead(behind);
            lemma_starts_with_char(behind, "("@);
            lemma_starts_with_char(behind, "|"@);
            lemma_starts_with_colons(behind);
            assert(ends_any(behind));
            lemma_type_reads(*inner, behind);
            assert(s[0] == '[');
            lemma_no_space_ahead(s);
            assert(s.skip(1) =~= type_text(*inner) + behind);
            assert(behind.skip(1) =~= rest);
        },
        TypeModel::Object(fields) => {
            if fields.len() == 0 {
                assert(s[0] == '{' && s[1] == '}');
                lemma_no_space_ahead(s);
                lemma_no_space_ahead(s.skip(1));
                assert(s.skip(1).skip(1) =~= rest);
                assert(fields =~= Seq::empty());
            } else {
                let ahead = join(field_texts(fields), ", "@) + " }"@ + rest;
                assert(s =~= "{ "@ + ahead);
                assert(s[0] == '{' && s[1] == ' ');
                lemma_no_space_ahead(s);
                assert(s.skip(1).skip(1) =~= ahead);
                lemma_one_space_ahead(s.skip(1));
                assert(field_texts(fields).skip(0) =~= field_texts(fields));
                assert(fields.skip(0) =~= fields);
                lemma_fields_read(fields, 0, rest);
                lemma_no_space_ahead(ahead);
            }
        },
        _ => {},
    }
}

/// Printed fields are read back, from the `k`-th on.
proof fn lemma_fields_read(fields: Seq<(Seq<char>, TypeModel)>, k: int, rest: Seq<char>)
    requires
        forall|i: int|
            0 <= i < fields.len() ==> is_ident((#[trigger] fields[i]).0) && is_expressible(
                fields[i].1,
            ),
        0 <= k < fields.len(),
    ensures
        ({
            let s = join(field_texts(fields).skip(k), ", "@) + " }"@ + rest;
            &&& fields_at(s) == Ok::<_, Seq<char>>((fields.skip(k), rest))
            &&& s.len() > 0
            &&& !is_space(s[0])
            &&& s[0] != '}'
        }),
    decreases fields, fields.len() - k,
{
    reveal_strlit("(");
    reveal_strlit("::");
    reveal_strlit("|");
    reveal_strlit(", ");
    reveal_strlit(": ");
    reveal_strlit(" }");
    let all = field_texts(fields);
    let parts = all.skip(k);
    let (name, t) = fields[k];
    assert(is_ident(fields[k].0) && is_expressible(fields[k].1));
    assert(all[k] == name + ": "@ + type_text(t));
    assert(parts[0] == all[k]);
    let s = join(parts, ", "@) + " }"@ + rest;
    let behind = if k + 1 < fields.len() {
        ", "@ + (join(all.skip(k + 1), ", "@) + " }"@ + rest)
    } else {
        " }"@ + rest
    };
    if k + 1 < fields.len() {
        lemma_join_front(parts, ", "@);
        assert(parts.skip(1) =~= all.skip(k + 1));
    } else {
        assert(join(parts, ", "@) == parts[0]);
    }
    let after_colon = " "@ + (type_text(t) + behind);
    reveal_strlit(" ");
    assert(s =~= name + (":"@ + after_colon)) by {
        reveal_strlit(":");
    }
    reveal_strlit(":");
    let after_name = ":"@ + after_colon;
    assert(after_name[0] == ':');
    lemma_ident_reads(name, after_name);
    lemma_no_space_ahead(after_name);
    assert(after_name.skip(1) =~= after_colon);
    assert(s[0] == name[0]);
    // What follows the type.
    if k + 1 < fields.len() {
        assert(behind[0] == ',');
        lemma_no_space_ahead(behind);
    } else {
        assert(behind[0] == ' ' && behind[1] == '}');
        lemma_one_space_ahead(behind);
        lemma_no_space_ahead(behind.skip(1));
        assert(behind.skip(1)[0] == '}');
    }
    lemma_starts_with_char(trim_start(behind), "("@);
    lemma_starts_with_char(trim_start(behind), "|"@);
    lemma_starts_with_colons(trim_start(behind));
    assert(ends_any(behind));
    lemma_type_reads(t, behind);
    lemma_type_after_space(type_text(t) + behind);
    assert(type_at(after_colon) == Ok::<_, Seq<char>>((t, trim_start(behind))));
    lemma_trim_start_again(behind);
    if k + 1 < fields.len() {
        lemma_fields_read(fields, k + 1, rest);
        let next = join(all.skip(k + 1), ", "@) + " }"@ + rest;
        assert(behind.skip(1) =~= " "@ + next);
        assert(behind.skip(1).skip(1) =~= next);
        lemma_one_space_ahead(behind.skip(1));
        lemma_no_space_ahead(next);
        assert(seq![(name, t)] + fields.skip(k + 1) =~= fields.skip(k));
    } else {
        assert(behind.skip(1).skip(1) =~= rest);
        assert(seq![(name, t)] =~= fields.skip(k));
    }
}

/// A printed alternative is read as one element.
proof fn lemma_variant_reads(v: VariantModel, rest: Seq<char>)
    requires
        is_expressible_variant(v),
        ends_variant(v, rest),
    ensures
        atom_at(variant_text(v) + rest) == Ok::<_, Seq<char>>((variant_atom(v), rest)),
        variant_text(v).len() > 0,
        !is_space(variant_text(v)[0]),
    decreases v,
{
    reveal_strlit("(");
    reveal_strlit(")");
    reveal_strlit("::");
    reveal_strlit("|");
    lemma_path_text(v.path);
    assert(is_ident(v.path[0]));
    assert(join(v.path, "::"@)[0] == v.path[0][0]);
    match v.inner {
        None => lemma_path_reads(v.path, rest),
        Some(inner) => {
            let s = variant_text(v) + rest;
            let behind = ")"@ + rest;
            let value = "("@ + (type_text(*inner) + behind);
            assert(s =~= join(v.path, "::"@) + value);
            assert(value[0] == '(');
            lemma_no_space_ahead(value);
            lemma_starts_with_colons(value);
            lemma_path_ahead(v.path, value);
            assert(behind[0] == ')');
            lemma_no_space_ahead(behind);
            lemma_starts_with_char(behind, "("@);
            lemma_starts_with_char(behind, "|"@);
            lemma_starts_with_colons(behind);
            assert(ends_any(behind));
            lemma_type_reads(*inner, behind);
            assert(value.skip(1) =~= type_text(*inner) + behind);
            assert(behind.skip(1) =~= rest);
            assert(seq![v.path[0]] + v.path.skip(1) =~= v.path);
        },
    }
}

/// What may follow the alternatives of a union: nothing more, or `()`.
spec fn unit_text(nullable: bool) -> Seq<char> {
    if nullable {
        " | ()"@
    } else {
        Seq::empty()
    }
}

spec fn unit_atoms(nullable: bool) -> Seq<AtomModel> {
    if nullable {
        seq![AtomModel::Unit]
    } else {
        Seq::empty()
    }
}

/// Behind the last element of a union that is not `()`.
proof fn lemma_unit_reads(nullable: bool, atom: AtomModel, ahead: Seq<char>, rest: Seq<char>)
    requires
        !starts_with(trim_start(rest), "|"@),
        atom_at(ahead + (unit_text(nullable) + rest)) == Ok::<_, Seq<char>>(
            (atom, unit_text(nullable) + rest),
        ),
        ahead.len() > 0,
    ensures
        atoms_at(ahead + (unit_text(nullable) + rest)) == Ok::<_, Seq<char>>(
            (seq![atom] + unit_atoms(nullable), trim_start(rest)),
        ),
{
    reveal_strlit(" | ()");
    reveal_strlit("()");
    reveal_strlit("|");
    lemma_starts_with_char(trim_start(rest), "|"@);
    if nullable {
        let behind = unit_text(true) + rest;
        let unit = "()"@ + rest;
        lemma_one_space_ahead(behind);
        lemma_no_space_ahead(behind.skip(1));
        assert(behind.skip(1)[0] == '|');
        assert(behind.skip(1).skip(1).skip(1) =~= unit);
        lemma_one_space_ahead(behind.skip(1).skip(1));
        lemma_no_space_ahead(unit);
        lemma_unit_atom_reads(rest);
        assert(atoms_at(unit) == Ok::<_, Seq<char>>((seq![AtomModel::Unit], trim_start(rest))));
    } else {
        assert(unit_text(false) + rest =~= rest);
        assert(seq![atom] + unit_atoms(false) =~= seq![atom]);
    }
}

/// `()` after more elements does not go on with the element before it.
proof fn lemma_unit_ends_path(rest: Seq<char>)
    ensures
        ends_path(unit_text(true) + rest),
        ends_primitive(unit_text(true) + rest),
        !starts_with(trim_start(unit_text(true) + rest), "("@),
{
    reveal_strlit(" | ()");
    reveal_strlit("::");
    reveal_strlit("(");
    let behind = unit_text(true) + rest;
    lemma_one_space_ahead(behind);
    assert(behind.skip(1)[0] == '|');
    lemma_no_space_ahead(behind.skip(1));
    lemma_starts_with_char(behind, "("@);
    lemma_starts_with_char(behind.skip(1), "("@);
    lemma_starts_with_colons(behind.skip(1));
}

spec fn variant_atoms(variants: Seq<VariantModel>) -> Seq<AtomModel> {
    variants.map_values(|v: VariantModel| variant_atom(v))
}

/// Printed alternatives are read back, from the `k`-th on.
proof fn lemma_variants_read(
    variants: Seq<VariantModel>,
    k: int,
    nullable: bool,
    rest: Seq<char>,
)
    requires
        forall|i: int|
            0 <= i < variants.len() ==> is_expressible_variant(#[trigger] variants[i]),
        0 <= k < variants.len(),
        !starts_with(trim_start(rest), "|"@),
        !nullable ==> ends_variant(variants.last(), rest),
    ensures
        ({
            let s = join(variant_texts(variants).skip(k), " | "@);
            &&& atoms_at(s + (unit_text(nullable) + rest)) == Ok::<_, Seq<char>>(
                (variant_atoms(variants).skip(k) + unit_atoms(nullable), trim_start(rest)),
            )
            &&& s.len() > 0
            &&& !is_space(s[0])
        }),
    decreases variants, variants.len() - k,
{
    reveal_strlit(" | ");
    reveal_strlit("::");
    reveal_strlit("(");
    let all = variant_texts(variants);
    let parts = all.skip(k);
    let v = variants[k];
    assert(is_expressible_variant(variants[k]));
    assert(all[k] == variant_text(v));
    assert(parts[0] == all[k]);
    let atoms = variant_atoms(variants);
    let end = unit_text(nullable) + rest;
    let s = join(parts, " | "@);
    if k + 1 < variants.len() {
        lemma_join_front(parts, " | "@);
        assert(parts.skip(1) =~= all.skip(k + 1));
        let next = join(all.skip(k + 1), " | "@);
        let behind = " | "@ + (next + end);
        assert(s + end =~= variant_text(v) + behind);
        lemma_one_space_ahead(behind);
        assert(behind.skip(1)[0] == '|');
        lemma_no_space_ahead(behind.skip(1));
        lemma_starts_with_char(behind.skip(1), "("@);
        lemma_starts_with_colons(behind.skip(1));
        assert(ends_variant(v, behind));
        lemma_variant_reads(v, behind);
        lemma_variants_read(variants, k + 1, nullable, rest);
        assert(behind.skip(1).skip(1).skip(1) =~= next + end);
        lemma_one_space_ahead(behind.skip(1).skip(1));
        lemma_no_space_ahead(next + end);
        assert(seq![variant_atom(v)] + (atoms.skip(k + 1) + unit_atoms(nullable)) =~= atoms.skip(k)
            + unit_atoms(nullable));
    } else {
        assert(s == parts[0]);
        if nullable {
            lemma_unit_ends_path(rest);
        } else {
            assert(end =~= rest);
        }
        lemma_variant_reads(v, end);
        lemma_unit_reads(nullable, variant_atom(v), variant_text(v), rest);
        assert(atoms.skip(k) =~= seq![variant_atom(v)]);
    }
}

pub(crate) proof fn lemma_filter_keeps_all<A>(s: Seq<A>, keep: spec_fn(A) -> bool)
    requires
        forall|i: int| 0 <= i < s.len() ==> keep(#[trigger] s[i]),
    ensures
        s.filter(keep) == s,
    decreases s.len(),
{
    reveal(Seq::filter);
    if s.len() > 0 {
        lemma_filter_keeps_all(s.drop_last(), keep);
        assert(keep(s[s.len() - 1]));
        assert(s.drop_last().push(s.last()) =~= s);
    }
}

proof fn lemma_filter_drops_last<A>(s: Seq<A>, last: A, keep: spec_fn(A) -> bool)
    requires
        forall|i: int| 0 <= i < s.len() ==> keep(#[trigger] s[i]),
        !keep(last),
    ensures
        (s + seq![last]).filter(keep) == s,
{
    reveal(Seq::filter);
    lemma_filter_keeps_all(s, keep);
    assert((s + seq![last]).drop_last() =~= s);
}

pub(crate) proof fn lemma_filter_selects<A>(s: Seq<A>, keep: spec_fn(A) -> bool)
    ensures
        forall|i: int|
            0 <= i < s.filter(keep).len() ==> s.contains(#[trigger] s.filter(keep)[i]) && keep(
                s.filter(keep)[i],
            ),
    decreases s.len(),
{
    reveal(Seq::filter);
    if s.len() > 0 {
        let front = s.drop_last();
        lemma_filter_selects(front, keep);
        assert forall|i: int| 0 <= i < s.filter(keep).len() implies s.contains(
            #[trigger] s.filter(keep)[i],
        ) && keep(s.filter(keep)[i]) by {
            if i < front.filter(keep).len() {
                assert(s.filter(keep)[i] == front.filter(keep)[i]);
                let j = choose|j: int| 0 <= j < front.len() && front[j] == s.filter(keep)[i];
                assert(s[j] == s.filter(keep)[i]);
            } else {
                assert(s[s.len() - 1] == s.filter(keep)[i]);
            }
        }
    }
}

/// The type of a union of alternatives.
proof fn lemma_variants_union(variants: Seq<VariantModel>, nullable: bool)
    requires
        variants.len() > 0,
    ensures
        union_type(variant_atoms(variants) + unit_atoms(nullable)) == Ok::<_, Seq<char>>(
            if nullable {
                TypeModel::Nullable(Box::new(TypeModel::Enum(variants)))
            } else {
                TypeModel::Enum(variants)
            },
        ),
{
    let atoms = variant_atoms(variants);
    let keep = |atom: AtomModel| !(atom is Unit);
    assert(atoms.map_values(|atom: AtomModel| atom_variant(atom)) =~= variants);
    if variants.len() == 1 {
        assert(variants =~= seq![variants[0]]);
        assert(atom_type(atoms[0]) == TypeModel::Enum(variants));
    }
    if nullable {
        lemma_filter_drops_last(atoms, AtomModel::Unit, keep);
    } else {
        assert(atoms + unit_atoms(false) =~= atoms);
        lemma_filter_keeps_all(atoms, keep);
    }
}

/// A printed type is read back, whatever follows that does not go on with it.
pub(crate) proof fn lemma_type_reads(t: TypeModel, rest: Seq<char>)
    requires
        is_expressible(t),
        ends_type(t, rest) || ends_any(rest),
    ensures
        type_at(type_text(t) + rest) == Ok::<_, Seq<char>>((t, trim_start(rest))),
        type_text(t).len() > 0,
        !is_space(type_text(t)[0]),
    decreases t, 1int,
{
    let s = type_text(t) + rest;
    match t {
        TypeModel::Enum(variants) => {
            lemma_variants_read(variants, 0, false, rest);
            assert(variant_texts(variants).skip(0) =~= variant_texts(variants));
            assert(variant_atoms(variants).skip(0) =~= variant_atoms(variants));
            assert(type_text(t) + (unit_text(false) + rest) =~= s);
            lemma_variants_union(variants, false);
        },
        TypeModel::Nullable(inner) => {
            reveal_strlit(" | ()");
            assert(type_text(*inner) + (unit_text(true) + rest) =~= s);
            assert(is_expressible(*inner));
            match *inner {
                TypeModel::Enum(variants) => {
                    lemma_variants_read(variants, 0, true, rest);
                    assert(variant_texts(variants).skip(0) =~= variant_texts(variants));
                    assert(variant_atoms(variants).skip(0) =~= variant_atoms(variants));
                    assert(type_text(*inner) == join(variant_texts(variants), " | "@));
                    lemma_variants_union(variants, true);
                },
                _ => {
                    lemma_unit_ends_path(rest);
                    lemma_plain_type_reads(*inner, unit_text(true) + rest);
                    let atom = plain_atom(*inner);
                    lemma_unit_reads(true, atom, type_text(*inner), rest);
                    lemma_filter_drops_last(
                        seq![atom],
                        AtomModel::Unit,
                        |atom: AtomModel| !(atom is Unit),
                    );
                    assert(atom_type(atom) == *inner);
                },
            }
        },
        _ => {
            reveal_strlit("(");
            lemma_starts_with_char(rest, "("@);
            if starts_with(rest, "("@) {
                lemma_no_space_ahead(rest);
            }
            lemma_plain_type_reads(t, rest);
            assert(type_text(t) + (unit_text(false) + rest) =~= s);
            assert(unit_text(false) + rest =~= rest);
            lemma_unit_reads(false, plain_atom(t), type_text(t), rest);
            assert(seq![plain_atom(t)] + unit_atoms(false) =~= seq![plain_atom(t)]);
        },
    }
    lemma_no_space_ahead(s);
}

pub(crate) proof fn lemma_nothing_ends_type()
    ensures
        ends_any(Seq::empty()),
        forall|t: TypeModel| #[trigger] ends_type(t, Seq::empty()),
{
    reveal_strlit("(");
    reveal_strlit("::");
    reveal_strlit("|");
}

/// A type in print is read back as the same type.
pub proof fn printed_types_read_back(t: TypeModel)
    requires
        is_expressible(t),
    ensures
        whole_type(type_text(t)) == Ok::<_, Seq<char>>(t),
{
    lemma_nothing_ends_type();
    lemma_type_reads(t, Seq::empty());
    assert(type_text(t) + Seq::empty() =~= type_text(t));
    assert(trim(Seq::<char>::empty()).len() == 0);
}

// ---------------------------------------------------------------------------
// What is read can be printed.
// ---------------------------------------------------------------------------

proof fn lemma_word_is_word(s: Seq<char>)
    ensures
        word_length(s) <= s.len(),
        forall|i: int| 0 <= i < word_length(s) ==> is_ident_part(#[trigger] s[i]),
    decreases s.len(),
{
    if s.len() > 0 && is_ident_part(s[0]) {
        lemma_word_is_word(s.skip(1));
        assert forall|i: int| 0 <= i < word_length(s) implies is_ident_part(#[trigger] s[i]) by {
            if i > 0 {
                assert(s[i] == s.skip(1)[i - 1]);
            }
        }
    }
}

pub(crate) proof fn lemma_ident_is_ident(s: Seq<char>)
    ensures
        ident_at(s) matches Some((name, _)) ==> is_ident(name),
{
    if s.len() > 0 && is_ident_start(s[0]) {
        lemma_word_is_word(s.skip(1));
        let n = 1 + word_length(s.skip(1)) as int;
        assert forall|i: int| 1 <= i < s.take(n).len() implies is_ident_part(
            #[trigger] s.take(n)[i],
        ) by {
            assert(s.skip(1)[i - 1] == s[i]);
        }
    }
}

proof fn lemma_segments_are_idents(s: Seq<char>)
    ensures
        segments_at(s) matches Ok((segments, _)) ==> forall|i: int|
            0 <= i < segments.len() ==> is_ident(#[trigger] segments[i]),
    decreases s.len(),
{
    let rest = trim_start(s);
    if starts_with(rest, "::"@) {
        lemma_ident_is_ident(trim_start(rest.skip(2)));
        if let Some((segment, behind)) = ident_at(trim_start(rest.skip(2))) {
            if behind.len() < s.len() {
                lemma_segments_are_idents(behind);
            }
        }
    }
}

/// Whether the notation can express an element of a union.
spec fn is_expressible_atom(atom: AtomModel) -> bool {
    match atom {
        AtomModel::Path { path, inner } => is_expressible_variant(VariantModel { path, inner }),
        _ => is_expressible(atom_type(atom)),
    }
}

/// What is read is a type that the notation can express.
pub proof fn read_types_are_expressible(s: Seq<char>)
    ensures
        type_at(s) matches Ok((t, _)) ==> is_expressible(t),
    decreases s.len(), 3nat,
{
    lemma_trim_start_shortens(s);
    lemma_atoms_are_expressible(trim_start(s));
    if let Ok((atoms, _)) = atoms_at(trim_start(s)) {
        lemma_union_is_expressible(atoms);
    }
}

proof fn lemma_atoms_are_expressible(s: Seq<char>)
    ensures
        atoms_at(s) matches Ok((atoms, _)) ==> atoms.len() > 0 && forall|i: int|
            0 <= i < atoms.len() ==> is_expressible_atom(#[trigger] atoms[i]),
    decreases s.len(), 2nat,
{
    lemma_atom_is_expressible(s);
    if let Ok((atom, behind)) = atom_at(s) {
        let rest = trim_start(behind);
        if rest.len() > 0 && rest[0] == '|' {
            let next = trim_start(rest.skip(1));
            if next.len() < s.len() {
                lemma_atoms_are_expressible(next);
            }
        }
    }
}

proof fn lemma_atom_is_expressible(s: Seq<char>)
    ensures
        atom_at(s) matches Ok((atom, _)) ==> is_expressible_atom(atom),
    decreases s.len(), 1nat,
{
    let start = trim_start(s);
    lemma_trim_start_shortens(s);
    if start.len() > 0 && start[0] == '{' {
        lemma_object_is_expressible(start.skip(1));
    } else if start.len() > 0 && start[0] == '[' {
        read_types_are_expressible(start.skip(1));
    } else if start.len() > 0 && start[0] == '(' {
    } else {
        lemma_ident_is_ident(start);
        if let Some((first, after_first)) = ident_at(start) {
            lemma_segments_are_idents(after_first);
            if let Ok((segments, behind)) = segments_at(after_first) {
                let path = seq![first] + segments;
                let rest = trim_start(behind);
                assert forall|i: int| 0 <= i < path.len() implies is_ident(#[trigger] path[i]) by {
                    if i > 0 {
                        assert(path[i] == segments[i - 1]);
                    }
                }
                if rest.len() > 0 && rest[0] == '(' && rest.len() <= s.len() {
                    read_types_are_expressible(rest.skip(1));
                }
            }
        }
    }
}

proof fn lemma_object_is_expressible(s: Seq<char>)
    ensures
        object_at(s) matches Ok((fields, _)) ==> is_expressible(TypeModel::Object(fields)),
    decreases s.len(), 5nat,
{
    let start = trim_start(s);
    lemma_trim_start_shortens(s);
    lemma_fields_are_expressible(start);
    if let Ok((fields, _)) = object_at(s) {
        assert(TypeModel::Object(fields)->Object_0 == fields);
    }
}

proof fn lemma_fields_are_expressible(s: Seq<char>)
    ensures
        fields_at(s) matches Ok((fields, _)) ==> forall|i: int|
            0 <= i < fields.len() ==> is_ident((#[trigger] fields[i]).0) && is_expressible(
                fields[i].1,
            ),
    decreases s.len(), 4nat,
{
    lemma_ident_is_ident(s);
    if let Some((name, after_name)) = ident_at(s) {
        let colon = trim_start(after_name);
        if colon.len() > 0 && colon[0] == ':' && colon.len() <= s.len() {
            read_types_are_expressible(colon.skip(1));
            if let Ok((t, behind)) = type_at(colon.skip(1)) {
                let rest = trim_start(behind);
                if rest.len() > 0 && rest[0] == ',' {
                    let next = trim_start(rest.skip(1));
                    if next.len() < s.len() {
                        lemma_fields_are_expressible(next);
                    }
                }
            }
        }
    }
}

proof fn lemma_variants_are_expressible(atoms: Seq<AtomModel>)
    requires
        atoms.len() > 0,
        forall|i: int| 0 <= i < atoms.len() ==> is_expressible_atom(#[trigger] atoms[i]),
    ensures
        union_of_variants(atoms) matches Ok(t) ==> is_expressible(t) && t is Enum,
{
    if let Ok(t) = union_of_variants(atoms) {
        let variants = t->Enum_0;
        assert forall|i: int| 0 <= i < variants.len() implies is_expressible_variant(
            #[trigger] variants[i],
        ) by {
            assert(is_expressible_atom(atoms[i]));
        }
    }
}

proof fn lemma_union_is_expressible(atoms: Seq<AtomModel>)
    requires
        atoms.len() > 0,
        forall|i: int| 0 <= i < atoms.len() ==> is_expressible_atom(#[trigger] atoms[i]),
    ensures
        union_type(atoms) matches Ok(t) ==> is_expressible(t),
{
    let keep = |atom: AtomModel| !(atom is Unit);
    let others = atoms.filter(keep);
    lemma_filter_selects(atoms, keep);
    assert forall|i: int| 0 <= i < others.len() implies is_expressible_atom(#[trigger] others[i])
        && !(others[i] is Unit) by {
        assert(atoms.contains(others[i]));
        assert(keep(others[i]));
    }
    assert forall|atom: AtomModel| is_expressible_atom(atom) implies is_expressible(
        #[trigger] atom_type(atom),
    ) by {
        if let AtomModel::Path { path, inner } = atom {
            let variants = seq![VariantModel { path, inner }];
            assert(TypeModel::Enum(variants)->Enum_0 == variants);
        }
    }
    if atoms.len() == 1 {
        assert(is_expressible_atom(atoms[0]));
    } else if others.len() > 0 {
        assert(is_expressible_atom(others[0]));
        lemma_variants_are_expressible(others);
        lemma_variants_are_expressible(atoms);
    }
}

/// Reading a type, printing it and reading it again gives the same type.
pub proof fn reading_survives_printing(text: Seq<char>)
    ensures
        whole_type(text) matches Ok(t) ==> whole_type(type_text(t)) == Ok::<_, Seq<char>>(t),
{
    read_types_are_expressible(text);
    if let Ok(t) = whole_type(text) {
        printed_types_read_back(t);
    }
}

// ---------------------------------------------------------------------------
// What cannot be read.
// ---------------------------------------------------------------------------

proof fn lemma_segment_errors_have_messages(s: Seq<char>)
    ensures
        segments_at(s) matches Err(message) ==> message.len() > 0,
    decreases s.len(),
{
    reveal_strlit("'");
    let rest = trim_start(s);
    lemma_trim_start_shortens(s);
    if starts_with(rest, "::"@) {
        reveal_strlit("::");
        let name = trim_start(rest.skip(2));
        lemma_trim_start_shortens(rest.skip(2));
        lemma_ident_shortens(name);
        if let Some((segment, behind)) = ident_at(name) {
            lemma_segment_errors_have_messages(behind);
        }
    }
}

/// A text that is no type is answered with a message that says why.
pub proof fn type_errors_have_messages(s: Seq<char>)
    ensures
        type_at(s) matches Err(message) ==> message.len() > 0,
    decreases s.len(), 3nat,
{
    reveal_strlit("union contains more than one '()' alternative");
    reveal_strlit("cannot mix enum variants with other types in a union");
    lemma_trim_start_shortens(s);
    lemma_atoms_errors_have_messages(trim_start(s));
}

proof fn lemma_atoms_errors_have_messages(s: Seq<char>)
    ensures
        atoms_at(s) matches Err(message) ==> message.len() > 0,
    decreases s.len(), 2nat,
{
    lemma_atom_errors_have_messages(s);
    lemma_atom_shortens(s);
    if let Ok((atom, behind)) = atom_at(s) {
        let rest = trim_start(behind);
        lemma_trim_start_shortens(behind);
        if rest.len() > 0 && rest[0] == '|' {
            lemma_trim_start_shortens(rest.skip(1));
            lemma_atoms_errors_have_messages(trim_start(rest.skip(1)));
        }
    }
}

proof fn lemma_atom_errors_have_messages(s: Seq<char>)
    ensures
        atom_at(s) matches Err(message) ==> message.len() > 0,
    decreases s.len(), 1nat,
{
    reveal_strlit("'");
    let start = trim_start(s);
    lemma_trim_start_shortens(s);
    if start.len() > 0 && start[0] == '{' {
        lemma_object_errors_have_messages(start.skip(1));
    } else if start.len() > 0 && start[0] == '[' {
        type_errors_have_messages(start.skip(1));
    } else if start.len() > 0 && start[0] == '(' {
    } else {
        lemma_ident_shortens(start);
        if let Some((first, after_first)) = ident_at(start) {
            lemma_segment_errors_have_messages(after_first);
            lemma_segments_shorten(after_first);
            if let Ok((segments, behind)) = segments_at(after_first) {
                let rest = trim_start(behind);
                lemma_trim_start_shortens(behind);
                if rest.len() > 0 && rest[0] == '(' {
                    type_errors_have_messages(rest.skip(1));
                }
            }
        }
    }
}

proof fn lemma_object_errors_have_messages(s: Seq<char>)
    ensures
        object_at(s) matches Err(message) ==> message.len() > 0,
    decreases s.len(), 5nat,
{
    lemma_trim_start_shortens(s);
    lemma_fields_errors_have_messages(trim_start(s));
}

proof fn lemma_fields_errors_have_messages(s: Seq<char>)
    ensures
        fields_at(s) matches Err(message) ==> message.len() > 0,
    decreases s.len(), 4nat,
{
    reveal_strlit("'");
    lemma_ident_shortens(s);
    if let Some((name, after_name)) = ident_at(s) {
        let colon = trim_start(after_name);
        lemma_trim_start_shortens(after_name);
        if colon.len() > 0 && colon[0] == ':' {
            type_errors_have_messages(colon.skip(1));
            lemma_type_shortens(colon.skip(1));
            if let Ok((t, behind)) = type_at(colon.skip(1)) {
                let rest = trim_start(behind);
                lemma_trim_start_shortens(behind);
                if rest.len() > 0 && rest[0] == ',' {
                    lemma_trim_start_shortens(rest.skip(1));
                    lemma_fields_errors_have_messages(trim_start(rest.skip(1)));
                }
            }
        }
    }
}

// ---------------------------------------------------------------------------
// What is no type.
// ---------------------------------------------------------------------------

/// Whether a text goes on with the given character, behind white space or
/// not.
pub open spec fn goes_on_with(rest: Seq<char>, c: char) -> bool {
    trim_start(rest).len() > 0 && trim_start(rest)[0] == c
}

proof fn lemma_atom_error(s: Seq<char>)
    requires
        s.len() > 0,
        !is_space(s[0]),
        atom_at(s) is Err,
    ensures
        type_at(s) is Err,
{
    lemma_no_space_ahead(s);
    assert(atoms_at(s) is Err);
}

/// A list has to be closed.
pub proof fn lists_have_to_be_closed(t: TypeModel, rest: Seq<char>)
    requires
        is_expressible(t),
        ends_type(t, rest),
        !goes_on_with(rest, ']'),
    ensures
        type_at(seq!['['] + (type_text(t) + rest)) is Err,
{
    let s = seq!['['] + (type_text(t) + rest);
    lemma_type_reads(t, rest);
    assert(s[0] == '[');
    assert(s.skip(1) =~= type_text(t) + rest);
    lemma_no_space_ahead(s);
    lemma_trim_start_again(rest);
    lemma_atom_error(s);
}

/// A parenthesis that opens a type has to be closed at once: it is the unit.
pub proof fn units_have_to_be_closed(rest: Seq<char>)
    requires
        !goes_on_with(rest, ')'),
    ensures
        type_at(seq!['('] + rest) is Err,
{
    let s = seq!['('] + rest;
    assert(s[0] == '(');
    assert(s.skip(1) =~= rest);
    lemma_no_space_ahead(s);
    lemma_atom_error(s);
}

/// The content of a variant has to be closed.
pub proof fn contents_have_to_be_closed(name: Seq<char>, t: TypeModel, rest: Seq<char>)
    requires
        is_ident(name),
        is_expressible(t),
        ends_type(t, rest),
        !goes_on_with(rest, ')'),
    ensures
        type_at(name + (seq!['('] + (type_text(t) + rest))) is Err,
{
    let inside = type_text(t) + rest;
    let behind = seq!['('] + inside;
    let s = name + behind;
    lemma_type_reads(t, rest);
    lemma_trim_start_again(rest);
    assert(behind[0] == '(');
    assert(behind.skip(1) =~= inside);
    assert(!is_ident_part('('));
    lemma_ident_reads(name, behind);
    lemma_no_space_ahead(behind);
    lemma_starts_with_colons(behind);
    assert(s[0] == name[0] && is_ident_start(s[0]));
    lemma_no_space_ahead(s);
    assert(segments_at(behind) == Ok::<_, Seq<char>>((Seq::<Seq<char>>::empty(), behind)));
    assert((seq![name] + Seq::empty())[0] == name);
    lemma_atom_error(s);
}

/// A field of an object needs a colon, and what follows its type has to be a
/// comma or the end of the object.
pub proof fn fields_have_to_be_separated(name: Seq<char>, t: TypeModel, rest: Seq<char>)
    requires
        is_ident(name),
        is_expressible(t),
        ends_type(t, rest),
        !goes_on_with(rest, ','),
        !goes_on_with(rest, '}'),
    ensures
        type_at(seq!['{'] + (name + (seq![':'] + (type_text(t) + rest)))) is Err,
{
    let inside = type_text(t) + rest;
    let colon = seq![':'] + inside;
    let fields = name + colon;
    let s = seq!['{'] + fields;
    lemma_type_reads(t, rest);
    lemma_trim_start_again(rest);
    assert(colon[0] == ':');
    assert(colon.skip(1) =~= inside);
    lemma_ident_reads(name, colon);
    lemma_no_space_ahead(colon);
    assert(fields[0] == name[0] && is_ident_start(fields[0]));
    lemma_no_space_ahead(fields);
    assert(s[0] == '{');
    assert(s.skip(1) =~= fields);
    lemma_no_space_ahead(s);
    assert(fields_at(fields) is Err);
    assert(object_at(fields) is Err);
    lemma_atom_error(s);
}

/// A field of an object needs a colon behind its name.
pub proof fn fields_need_a_colon(name: Seq<char>, rest: Seq<char>)
    requires
        is_ident(name),
        rest.len() > 0 ==> !is_ident_part(rest[0]),
        !goes_on_with(rest, ':'),
    ensures
        type_at(seq!['{'] + (name + rest)) is Err,
{
    let fields = name + rest;
    let s = seq!['{'] + fields;
    lemma_ident_reads(name, rest);
    assert(fields[0] == name[0] && is_ident_start(fields[0]));
    lemma_no_space_ahead(fields);
    assert(s[0] == '{');
    assert(s.skip(1) =~= fields);
    lemma_no_space_ahead(s);
    assert(fields_at(fields) is Err);
    assert(object_at(fields) is Err);
    lemma_atom_error(s);
}

/// A type starts with a letter, an underscore or an opening bracket; nothing
/// else is one, and neither is an empty text.
pub proof fn types_start_with_a_name_or_a_bracket(s: Seq<char>)
    requires
        s.len() > 0 ==> !is_space(s[0]) && !alphabetic(s[0]) && s[0] != '_' && s[0] != '{' && s[0]
            != '[' && s[0] != '(',
    ensures
        type_at(s) is Err,
{
    lemma_no_space_ahead(s);
    assert(ident_at(s) is None);
    assert(atom_at(s) is Err);
    assert(atoms_at(s) is Err);
}

/// A name starts with a letter or an underscore, and goes on with letters,
/// digits and underscores.
pub proof fn names_are_made_of_letters_and_digits(c: char)
    ensures
        is_ident_start(c) <==> alphabetic(c) || c == '_',
        is_ident_part(c) <==> alphanumeric(c) || c == '_',
{
}

/// A comma behind the last field of an object does not matter.
pub proof fn trailing_commas_of_objects_do_not_matter(name: Seq<char>, t: TypeModel)
    requires
        is_ident(name),
        is_expressible(t),
    ensures
        whole_type(seq!['{'] + (name + (seq![':'] + (type_text(t) + seq![',', '}'])))) == Ok::<
            _,
            Seq<char>,
        >(TypeModel::Object(seq![(name, t)])),
        whole_type(seq!['{'] + (name + (seq![':'] + (type_text(t) + seq!['}'])))) == Ok::<
            _,
            Seq<char>,
        >(TypeModel::Object(seq![(name, t)])),
{
    lemma_object_with_end(name, t, seq![',', '}']);
    lemma_object_with_end(name, t, seq!['}']);
}

proof fn lemma_object_with_end(name: Seq<char>, t: TypeModel, end: Seq<char>)
    requires
        is_ident(name),
        is_expressible(t),
        end == seq![',', '}'] || end == seq!['}'],
    ensures
        whole_type(seq!['{'] + (name + (seq![':'] + (type_text(t) + end)))) == Ok::<_, Seq<char>>(
            TypeModel::Object(seq![(name, t)]),
        ),
{
    reveal_strlit("(");
    reveal_strlit("|");
    let inside = type_text(t) + end;
    let colon = seq![':'] + inside;
    let fields = name + colon;
    let s = seq!['{'] + fields;
    assert(!is_ident_part(end[0]) && !is_space(end[0]));
    lemma_no_space_ahead(end);
    lemma_starts_with_colons(end);
    lemma_starts_with_char(end, "("@);
    lemma_starts_with_char(end, "|"@);
    lemma_type_reads(t, end);
    assert(colon[0] == ':');
    assert(colon.skip(1) =~= inside);
    lemma_ident_reads(name, colon);
    lemma_no_space_ahead(colon);
    assert(fields[0] == name[0] && is_ident_start(fields[0]));
    lemma_no_space_ahead(fields);
    assert(s[0] == '{');
    assert(s.skip(1) =~= fields);
    lemma_no_space_ahead(s);
    if end.len() == 2 {
        let next = end.skip(1);
        assert(next =~= seq!['}']);
        lemma_no_space_ahead(next);
        assert(next.skip(1) =~= Seq::empty());
    } else {
        assert(end.skip(1) =~= Seq::empty());
    }
    let none: Seq<char> = Seq::empty();
    assert(fields_at(fields) == Ok::<_, Seq<char>>((seq![(name, t)], none)));
    assert(object_at(fields) == Ok::<_, Seq<char>>((seq![(name, t)], none)));
    assert(atom_at(s) == Ok::<_, Seq<char>>((AtomModel::Object(seq![(name, t)]), none)));
    assert(trim_start(none) == none);
    assert(atoms_at(s) == Ok::<_, Seq<char>>((seq![AtomModel::Object(seq![(name, t)])], none)));
    assert(trim(none).len() == 0);
}

/// The primitive types go by these names, and nothing else does.
pub proof fn primitive_types_have_their_names(name: Seq<char>)
    ensures
        primitive_named("String"@) == Some(PrimitiveType::String),
        primitive_named("int"@) == Some(PrimitiveType::Int),
        primitive_named("float"@) == Some(PrimitiveType::Float),
        primitive_named("bool"@) == Some(PrimitiveType::Bool),
        primitive_named("bytes"@) == Some(PrimitiveType::Bytes),
        name != "String"@ && name != "int"@ && name != "float"@ && name != "bool"@ && name
            != "bytes"@ ==> primitive_named(name) is None,
{
    reveal_strlit("String");
    reveal_strlit("int");
    reveal_strlit("float");
    reveal_strlit("bool");
    reveal_strlit("bytes");
    assert("String"@.len() == 6 && "int"@.len() == 3 && "float"@.len() == 5);
    assert("bool"@.len() == 4 && "bytes"@.len() == 5);
    assert("float"@[0] == 'f' && "bytes"@[0] == 'b');
}

} // verus!
