//! The two notations of contracts: signatures and annotations.

use vstd::prelude::*;

use crate::doc_comment::{
    atom_type, contract_from, ident_at, is_annotated, is_ident_part, lemma_ident_shortens,
    lemma_trim_start_shortens, lemma_type_shortens, line_meaning, param_list_at, params_at,
    signature_of, type_at, union_type, whole_type, AtomModel, LineModel,
};
use crate::laws::notation::{
    ends_any, ends_path, ends_primitive, ends_type, is_expressible, is_expressible_variant,
    is_ident, lemma_filter_keeps_all, lemma_ident_reads, lemma_join_front, lemma_no_space_ahead,
    lemma_nothing_ends_type, lemma_one_space_ahead, lemma_starts_with_char,
    lemma_starts_with_colons, lemma_type_reads, type_errors_have_messages,
};
use crate::text::{alphanumeric, is_space, join, occurs_at, starts_with, trim, trim_end, trim_start};
use crate::types::{
    type_text, variant_text, variant_texts, ContractModel, ParamModel, PrimitiveType, TypeModel,
    VariantModel,
};

verus! {

/// Whether the notation can express a contract.
pub open spec fn is_expressible_contract(c: ContractModel) -> bool {
    &&& forall|i: int|
        0 <= i < c.params.len() ==> is_ident((#[trigger] c.params[i]).name) && is_expressible(
            c.params[i].type_def,
        )
    &&& is_expressible(c.return_type)
}

/// A parameter in a signature.
pub open spec fn param_text(p: ParamModel) -> Seq<char> {
    p.name + ": "@ + type_text(p.type_def)
}

/// The parameters in a signature.
pub open spec fn param_texts(params: Seq<ParamModel>) -> Seq<Seq<char>> {
    params.map_values(|p: ParamModel| param_text(p))
}

/// A contract as a signature.
pub open spec fn signature_text(c: ContractModel) -> Seq<char> {
    "("@ + join(param_texts(c.params), ", "@) + ") -> "@ + type_text(c.return_type)
}

/// Printed parameters are read back, from the `k`-th on.
proof fn lemma_params_read(params: Seq<ParamModel>, k: int, rest: Seq<char>)
    requires
        forall|i: int|
            0 <= i < params.len() ==> is_ident((#[trigger] params[i]).name) && is_expressible(
                params[i].type_def,
            ),
        0 <= k < params.len(),
    ensures
        ({
            let s = join(param_texts(params).skip(k), ", "@) + ")"@ + rest;
            &&& params_at(s) == Ok::<_, Seq<char>>((params.skip(k), rest))
            &&& s.len() > 0
            &&& !is_space(s[0])
            &&& s[0] != ')'
        }),
    decreases params.len() - k,
{
    reveal_strlit("(");
    reveal_strlit("|");
    reveal_strlit(" ");
    reveal_strlit(":");
    reveal_strlit(", ");
    reveal_strlit(": ");
    reveal_strlit(")");
    let all = param_texts(params);
    let parts = all.skip(k);
    let param = params[k];
    let name = param.name;
    let t = param.type_def;
    assert(is_ident(params[k].name) && is_expressible(params[k].type_def));
    assert(parts[0] == param_text(param));
    let s = join(parts, ", "@) + ")"@ + rest;
    let behind = if k + 1 < params.len() {
        ", "@ + (join(all.skip(k + 1), ", "@) + ")"@ + rest)
    } else {
        ")"@ + rest
    };
    if k + 1 < params.len() {
        lemma_join_front(parts, ", "@);
        assert(parts.skip(1) =~= all.skip(k + 1));
    } else {
        assert(join(parts, ", "@) == parts[0]);
    }
    let after_colon = " "@ + (type_text(t) + behind);
    let after_name = ":"@ + after_colon;
    assert(s =~= name + after_name);
    assert(after_name[0] == ':');
    lemma_ident_reads(name, after_name);
    lemma_no_space_ahead(after_name);
    assert(after_name.skip(1) =~= after_colon);
    assert(s[0] == name[0]);
    lemma_no_space_ahead(behind);
    lemma_starts_with_char(behind, "("@);
    lemma_starts_with_char(behind, "|"@);
    lemma_starts_with_colons(behind);
    assert(ends_any(behind));
    lemma_type_reads(t, behind);
    assert(after_colon.skip(1) =~= type_text(t) + behind);
    lemma_one_space_ahead(after_colon);
    lemma_no_space_ahead(type_text(t) + behind);
    if k + 1 < params.len() {
        lemma_params_read(params, k + 1, rest);
        let next = join(all.skip(k + 1), ", "@) + ")"@ + rest;
        assert(behind.skip(1).skip(1) =~= next);
        lemma_one_space_ahead(behind.skip(1));
        lemma_no_space_ahead(next);
        assert(seq![param] + params.skip(k + 1) =~= params.skip(k));
    } else {
        assert(behind.skip(1) =~= rest);
        assert(seq![param] =~= params.skip(k));
    }
}

/// A contract printed as a signature is read back as the same contract.
pub proof fn printed_signatures_read_back(c: ContractModel)
    requires
        is_expressible_contract(c),
    ensures
        signature_of(signature_text(c)) == Ok::<_, Seq<char>>(c),
{
    reveal_strlit("(");
    reveal_strlit(")");
    reveal_strlit(") -> ");
    reveal_strlit("->");
    reveal_strlit(" -> ");
    let s = signature_text(c);
    let end = " -> "@ + type_text(c.return_type);
    let list = join(param_texts(c.params), ", "@) + ")"@ + end;
    assert(s =~= "("@ + list);
    assert(s[0] == '(');
    lemma_no_space_ahead(s);
    assert(s.skip(1) =~= list);
    if c.params.len() == 0 {
        assert(list =~= ")"@ + end);
        lemma_no_space_ahead(list);
        assert(list.skip(1) =~= end);
        assert(c.params =~= Seq::empty());
    } else {
        lemma_params_read(c.params, 0, end);
        assert(param_texts(c.params).skip(0) =~= param_texts(c.params));
        assert(c.params.skip(0) =~= c.params);
        lemma_no_space_ahead(list);
    }
    assert(param_list_at(list) == Ok::<_, Seq<char>>((c.params, end)));
    lemma_one_space_ahead(end);
    lemma_no_space_ahead(end.skip(1));
    assert(end.skip(1).subrange(0, 2) =~= "->"@);
    let spaced = end.skip(1).skip(2);
    assert(spaced.skip(1) =~= type_text(c.return_type));
    lemma_one_space_ahead(spaced);
    lemma_nothing_ends_type();
    lemma_type_reads(c.return_type, Seq::empty());
    assert(type_text(c.return_type) + Seq::empty() =~= type_text(c.return_type));
    lemma_no_space_ahead(type_text(c.return_type));
    assert(trim(Seq::<char>::empty()).len() == 0);
}

// ---------------------------------------------------------------------------
// White space at the end.
// ---------------------------------------------------------------------------

proof fn lemma_trim_end_is_prefix(s: Seq<char>)
    ensures
        trim_end(s).len() <= s.len(),
        trim_end(s) == s.take(trim_end(s).len() as int),
    decreases s.len(),
{
    if s.len() > 0 && is_space(s.last()) {
        lemma_trim_end_is_prefix(s.drop_last());
        assert(s.drop_last().take(trim_end(s).len() as int) =~= s.take(trim_end(s).len() as int));
    } else {
        assert(s.take(s.len() as int) =~= s);
    }
}

/// White space is trimmed off what follows a text that does not end in it.
pub(crate) proof fn lemma_trim_end_behind(s: Seq<char>, rest: Seq<char>)
    requires
        s.len() > 0,
        !is_space(s.last()),
    ensures
        trim_end(s + rest) == s + trim_end(rest),
    decreases rest.len(),
{
    if rest.len() == 0 {
        assert(s + rest =~= s);
        assert(s + trim_end(rest) =~= s);
    } else {
        assert((s + rest).last() == rest.last());
        assert((s + rest).drop_last() =~= s + rest.drop_last());
        lemma_trim_end_behind(s, rest.drop_last());
    }
}

proof fn lemma_trim_end_of_spaces(s: Seq<char>)
    requires
        s.len() > 0,
        is_space(s[0]),
    ensures
        trim_end(s) == if trim_end(s.skip(1)).len() == 0 {
            Seq::empty()
        } else {
            seq![s[0]] + trim_end(s.skip(1))
        },
    decreases s.len(),
{
    if s.len() == 1 {
        assert(s.skip(1) =~= Seq::empty());
        assert(s.drop_last() =~= Seq::empty());
    } else {
        assert(s.skip(1).last() == s.last());
        if is_space(s.last()) {
            assert(s.skip(1).drop_last() =~= s.drop_last().skip(1));
            lemma_trim_end_of_spaces(s.drop_last());
        } else {
            assert(seq![s[0]] + s.skip(1) =~= s);
        }
    }
}

/// White space can be trimmed off either end first.
pub(crate) proof fn lemma_trims_commute(s: Seq<char>)
    ensures
        trim_start(trim_end(s)) == trim_end(trim_start(s)),
    decreases s.len(),
{
    lemma_trim_end_is_prefix(s);
    if s.len() > 0 && is_space(s[0]) {
        lemma_trims_commute(s.skip(1));
        lemma_trim_end_of_spaces(s);
        let end = trim_end(s);
        if end.len() > 0 {
            assert(end.skip(1) =~= trim_end(s.skip(1)));
        }
    }
}

/// White space at the end does not matter to whether a type goes on.
proof fn lemma_trimmed_ends_type(t: TypeModel, rest: Seq<char>)
    requires
        ends_type(t, rest),
    ensures
        ends_type(t, trim_end(rest)),
{
    lemma_trims_commute(rest);
    lemma_trim_end_is_prefix(rest);
    lemma_trim_end_is_prefix(trim_start(rest));
    let long = trim_start(rest);
    let short = trim_end(long);
    assert forall|p: Seq<char>| #[trigger] starts_with(short, p) implies starts_with(long, p) by {
        assert(occurs_at(short, p, 0));
        assert(short.subrange(0, p.len() as int) =~= long.subrange(0, p.len() as int));
    }
    assert(ends_path(rest) ==> ends_path(trim_end(rest)));
    assert(ends_primitive(rest) ==> ends_primitive(trim_end(rest))) by {
        reveal_strlit("(");
        lemma_starts_with_char(rest, "("@);
        lemma_starts_with_char(trim_end(rest), "("@);
    }
}

pub(crate) proof fn lemma_join_ends(parts: Seq<Seq<char>>, separator: Seq<char>)
    requires
        parts.len() > 0,
        parts.last().len() > 0,
    ensures
        join(parts, separator).len() > 0,
        join(parts, separator).last() == parts.last().last(),
{
}

/// The last character of an identifier is no white space.
pub(crate) proof fn lemma_ident_ends(name: Seq<char>)
    requires
        is_ident(name),
    ensures
        !is_space(name.last()),
{
    if name.len() > 1 {
        assert(is_ident_part(name[name.len() - 1]));
    }
}

/// The last character of a printed type is no white space.
pub(crate) proof fn lemma_type_text_ends(t: TypeModel)
    requires
        is_expressible(t),
    ensures
        type_text(t).len() > 0,
        !is_space(type_text(t).last()),
    decreases t,
{
    reveal_strlit("String");
    reveal_strlit("int");
    reveal_strlit("float");
    reveal_strlit("bool");
    reveal_strlit("bytes");
    reveal_strlit("{}");
    reveal_strlit(" }");
    reveal_strlit(" | ()");
    reveal_strlit("]");
    reveal_strlit("()");
    reveal_strlit(")");
    if let TypeModel::Enum(variants) = t {
        let v = variants.last();
        assert(is_expressible_variant(variants[variants.len() - 1]));
        if v.inner is None {
            lemma_ident_ends(v.path[v.path.len() - 1]);
            lemma_join_ends(v.path, "::"@);
        }
        assert(variant_texts(variants).last() == variant_text(v));
        lemma_join_ends(variant_texts(variants), " | "@);
    }
}

// ---------------------------------------------------------------------------
// Annotations.
// ---------------------------------------------------------------------------

/// The annotation of a parameter, with a description behind the type.
pub open spec fn param_line(p: ParamModel, description: Seq<char>) -> Seq<char> {
    "@param "@ + param_text(p) + description
}

/// The annotation of the return type, with a description behind the type.
pub open spec fn return_line(t: TypeModel, description: Seq<char>) -> Seq<char> {
    "@return "@ + type_text(t) + description
}

proof fn lemma_param_line_reads(p: ParamModel, description: Seq<char>)
    requires
        is_ident(p.name),
        is_expressible(p.type_def),
        ends_type(p.type_def, description),
    ensures
        line_meaning(param_line(p, description)) == Ok::<_, Seq<char>>(LineModel::Param(p)),
{
    reveal_strlit("@param");
    reveal_strlit("@param ");
    reveal_strlit(": ");
    reveal_strlit(":");
    reveal_strlit(" ");
    let t = p.type_def;
    let line = param_line(p, description);
    let text = param_text(p);
    let behind = trim_end(description);
    assert(line.subrange(0, 6) =~= "@param"@);
    assert(trim(line.skip(6)) == text + behind) by {
        assert(line.skip(6).skip(1) =~= text + description);
        lemma_one_space_ahead(line.skip(6));
        assert((text + description)[0] == p.name[0]);
        lemma_no_space_ahead(text + description);
        lemma_type_text_ends(t);
        assert(text.last() == type_text(t).last());
        lemma_trim_end_behind(text, description);
    }
    let after_colon = " "@ + (type_text(t) + behind);
    let after_name = ":"@ + after_colon;
    assert(text + behind =~= p.name + after_name);
    lemma_ident_reads(p.name, after_name);
    lemma_no_space_ahead(after_name);
    assert(after_name.skip(1) =~= after_colon);
    lemma_trimmed_ends_type(t, description);
    lemma_type_reads(t, behind);
    lemma_one_space_ahead(after_colon);
    assert(after_colon.skip(1) =~= type_text(t) + behind);
    lemma_no_space_ahead(type_text(t) + behind);
}

proof fn lemma_return_line_reads(t: TypeModel, description: Seq<char>)
    requires
        is_expressible(t),
        ends_type(t, description),
    ensures
        line_meaning(return_line(t, description)) == Ok::<_, Seq<char>>(LineModel::Return(t)),
{
    reveal_strlit("@param");
    reveal_strlit("@return");
    reveal_strlit("@return ");
    let line = return_line(t, description);
    assert(line.subrange(0, 7) =~= "@return"@);
    assert(!starts_with(line, "@param"@)) by {
        assert(line.subrange(0, 6)[1] == 'r');
    }
    let ahead = line.skip(7);
    lemma_one_space_ahead(ahead);
    assert(ahead.skip(1) =~= type_text(t) + description);
    lemma_type_reads(t, description);
    lemma_no_space_ahead(type_text(t) + description);
}

/// Behind the type, an annotation may go on with a description: it does not
/// matter to what the annotation says. Behind a primitive type and white space
/// it may start with a parenthesis, and behind a bracket with anything but
/// another alternative.
pub proof fn descriptions_do_not_matter(p: ParamModel, description: Seq<char>)
    requires
        is_ident(p.name),
        is_expressible(p.type_def),
        ends_type(p.type_def, description),
    ensures
        line_meaning(param_line(p, description)) == Ok::<_, Seq<char>>(LineModel::Param(p)),
        line_meaning(return_line(p.type_def, description)) == Ok::<_, Seq<char>>(
            LineModel::Return(p.type_def),
        ),
{
    lemma_param_line_reads(p, description);
    lemma_return_line_reads(p.type_def, description);
}

/// A parenthesis that white space parts from a primitive type opens a
/// description, whatever it says.
pub proof fn parentheses_behind_primitive_types_are_descriptions(
    p: PrimitiveType,
    note: Seq<char>,
)
    ensures
        line_meaning(return_line(TypeModel::Primitive(p), " ("@ + note)) == Ok::<_, Seq<char>>(
            LineModel::Return(TypeModel::Primitive(p)),
        ),
{
    reveal_strlit(" (");
    reveal_strlit("(");
    reveal_strlit("|");
    let description = " ("@ + note;
    let opened = description.skip(1);
    lemma_one_space_ahead(description);
    lemma_no_space_ahead(opened);
    lemma_starts_with_char(opened, "|"@);
    lemma_starts_with_char(description, "("@);
    lemma_starts_with_colons(opened);
    lemma_return_line_reads(TypeModel::Primitive(p), description);
}

/// A contract as annotations, one on each line.
pub open spec fn annotation_lines(c: ContractModel) -> Seq<Seq<char>> {
    c.params.map_values(|p: ParamModel| param_line(p, Seq::empty())).push(
        return_line(c.return_type, Seq::empty()),
    )
}

/// A contract printed as annotations is read back as the same contract.
pub proof fn printed_annotations_read_back(c: ContractModel)
    requires
        is_expressible_contract(c),
    ensures
        contract_from(annotation_lines(c), Seq::empty(), None) == Ok::<_, Seq<char>>(c),
{
    lemma_annotations_read(c, 0);
    assert(annotation_lines(c).skip(0) =~= annotation_lines(c));
    assert(c.params.take(0) =~= Seq::empty());
}

pub(crate) proof fn lemma_annotations_read(c: ContractModel, k: int)
    requires
        is_expressible_contract(c),
        0 <= k <= c.params.len(),
    ensures
        contract_from(annotation_lines(c).skip(k), c.params.take(k), None) == Ok::<_, Seq<char>>(c),
    decreases c.params.len() - k,
{
    reveal_strlit("@param ");
    reveal_strlit("@return ");
    let all = annotation_lines(c);
    let line = all[k];
    assert(all.skip(k)[0] == line);
    assert(all.skip(k).skip(1) =~= all.skip(k + 1));
    lemma_nothing_ends_type();
    if k < c.params.len() {
        let p = c.params[k];
        assert(is_ident(c.params[k].name));
        lemma_param_line_reads(p, Seq::empty());
        lemma_type_text_ends(p.type_def);
        assert(line == param_line(p, Seq::empty()));
        assert(line.last() == type_text(p.type_def).last());
        lemma_no_space_ahead(line);
        assert(trim(line) == line);
        lemma_annotations_read(c, k + 1);
        assert(c.params.take(k).push(p) =~= c.params.take(k + 1));
    } else {
        let t = c.return_type;
        lemma_return_line_reads(t, Seq::empty());
        lemma_type_text_ends(t);
        assert(line == return_line(t, Seq::empty()));
        assert(line.last() == type_text(t).last());
        lemma_no_space_ahead(line);
        assert(trim(line) == line);
        assert(all.skip(k + 1) =~= Seq::empty());
        assert(c.params.take(k) =~= c.params);
        assert(contract_from(all.skip(k + 1), c.params, Some(t)) == Ok::<_, Seq<char>>(c));
    }
}

/// A line that is no annotation does not matter, wherever it stands.
pub proof fn other_lines_do_not_matter(
    before: Seq<Seq<char>>,
    line: Seq<char>,
    after: Seq<Seq<char>>,
    params: Seq<ParamModel>,
    return_type: Option<TypeModel>,
)
    requires
        !is_annotated(trim(line), "@param"@),
        !is_annotated(trim(line), "@return"@),
    ensures
        contract_from(before + seq![line] + after, params, return_type) == contract_from(
            before + after,
            params,
            return_type,
        ),
    decreases before.len(),
{
    let with = before + seq![line] + after;
    let without = before + after;
    if before.len() == 0 {
        assert(with.skip(1) =~= after);
        assert(without =~= after);
        assert(with[0] == line);
    } else {
        assert(with[0] == before[0] && without[0] == before[0]);
        assert(with.skip(1) =~= before.skip(1) + seq![line] + after);
        assert(without.skip(1) =~= before.skip(1) + after);
        match line_meaning(trim(before[0])) {
            Ok(LineModel::Nothing) => other_lines_do_not_matter(
                before.skip(1),
                line,
                after,
                params,
                return_type,
            ),
            Ok(LineModel::Param(param)) => other_lines_do_not_matter(
                before.skip(1),
                line,
                after,
                params.push(param),
                return_type,
            ),
            Ok(LineModel::Return(t)) => other_lines_do_not_matter(
                before.skip(1),
                line,
                after,
                params,
                Some(t),
            ),
            Err(_) => {},
        }
    }
}

/// Lines that are no contract are answered with a message that says why.
pub proof fn contract_errors_have_messages(
    lines: Seq<Seq<char>>,
    params: Seq<ParamModel>,
    return_type: Option<TypeModel>,
)
    ensures
        contract_from(lines, params, return_type) matches Err(message) ==> message.len() > 0,
    decreases lines.len(),
{
    reveal_strlit("'");
    reveal_strlit("missing @return annotation");
    if lines.len() > 0 {
        let line = trim(lines[0]);
        type_errors_have_messages(trim_start(line.skip(7)));
        if let Some((name, after_name)) = ident_at(trim(line.skip(6))) {
            type_errors_have_messages(trim_start(trim_start(after_name).skip(1)));
        }
        match line_meaning(line) {
            Ok(LineModel::Nothing) => contract_errors_have_messages(
                lines.skip(1),
                params,
                return_type,
            ),
            Ok(LineModel::Param(param)) => contract_errors_have_messages(
                lines.skip(1),
                params.push(param),
                return_type,
            ),
            Ok(LineModel::Return(t)) => contract_errors_have_messages(
                lines.skip(1),
                params,
                Some(t),
            ),
            Err(_) => {},
        }
    }
}

proof fn lemma_params_errors_have_messages(s: Seq<char>)
    ensures
        params_at(s) matches Err(message) ==> message.len() > 0,
    decreases s.len(),
{
    reveal_strlit("'");
    lemma_ident_shortens(s);
    if let Some((name, after_name)) = ident_at(s) {
        let colon = trim_start(after_name);
        lemma_trim_start_shortens(after_name);
        if colon.len() > 0 && colon[0] == ':' {
            let start = trim_start(colon.skip(1));
            lemma_trim_start_shortens(colon.skip(1));
            type_errors_have_messages(start);
            lemma_type_shortens(start);
            if let Ok((t, behind)) = type_at(start) {
                let rest = trim_start(behind);
                lemma_trim_start_shortens(behind);
                if rest.len() > 0 && rest[0] == ',' {
                    lemma_trim_start_shortens(rest.skip(1));
                    lemma_params_errors_have_messages(trim_start(rest.skip(1)));
                }
            }
        }
    }
}

/// A text that is no signature is answered with a message that says why.
pub proof fn signature_errors_have_messages(signature: Seq<char>)
    ensures
        signature_of(signature) matches Err(message) ==> message.len() > 0,
{
    reveal_strlit("'");
    let start = trim_start(signature);
    if start.len() > 0 && start[0] == '(' {
        let list = start.skip(1);
        lemma_params_errors_have_messages(trim_start(list));
        if let Ok((params, behind)) = param_list_at(list) {
            type_errors_have_messages(trim_start(trim_start(behind).skip(2)));
        }
    }
}

// ---------------------------------------------------------------------------
// What the lines of a doc-comment amount to.
// ---------------------------------------------------------------------------

/// Whether a line declares the return type.
pub open spec fn declares_return(line: Seq<char>, t: TypeModel) -> bool {
    line_meaning(trim(line)) == Ok::<_, Seq<char>>(LineModel::Return(t))
}

proof fn lemma_return_of_lines(
    lines: Seq<Seq<char>>,
    params: Seq<ParamModel>,
    return_type: Option<TypeModel>,
    at: int,
)
    requires
        -1 <= at < lines.len(),
        at < 0 ==> return_type is Some,
        at >= 0 ==> line_meaning(trim(lines[at])) matches Ok(LineModel::Return(_)),
        forall|i: int|
            at < i < lines.len() ==> !(line_meaning(trim(#[trigger] lines[i])) matches Ok(
                LineModel::Return(_),
            )),
    ensures
        contract_from(lines, params, return_type) matches Ok(c) ==> c.return_type == if at < 0 {
            return_type->Some_0
        } else {
            line_meaning(trim(lines[at]))->Ok_0->Return_0
        },
    decreases lines.len(),
{
    if lines.len() > 0 {
        let rest = lines.skip(1);
        let next = if at < 0 {
            -1
        } else {
            at - 1
        };
        assert forall|i: int| next < i < rest.len() implies !(line_meaning(
            trim(#[trigger] rest[i]),
        ) matches Ok(LineModel::Return(_))) by {
            assert(rest[i] == lines[i + 1]);
        }
        if at >= 1 {
            assert(rest[next] == lines[at]);
        }
        assert(at < 0 ==> !(line_meaning(trim(lines[0])) matches Ok(LineModel::Return(_))));
        match line_meaning(trim(lines[0])) {
            Ok(LineModel::Nothing) => lemma_return_of_lines(rest, params, return_type, next),
            Ok(LineModel::Param(param)) => lemma_return_of_lines(
                rest,
                params.push(param),
                return_type,
                next,
            ),
            Ok(LineModel::Return(t)) => lemma_return_of_lines(rest, params, Some(t), next),
            Err(_) => {},
        }
    }
}

/// Of several `@return` annotations the last one counts.
pub proof fn last_return_counts(
    lines: Seq<Seq<char>>,
    params: Seq<ParamModel>,
    return_type: Option<TypeModel>,
    at: int,
    t: TypeModel,
)
    requires
        0 <= at < lines.len(),
        declares_return(lines[at], t),
        forall|i: int|
            at < i < lines.len() ==> !(line_meaning(trim(#[trigger] lines[i])) matches Ok(
                LineModel::Return(_),
            )),
    ensures
        contract_from(lines, params, return_type) matches Ok(c) ==> c.return_type == t,
{
    lemma_return_of_lines(lines, params, return_type, at);
}

/// A doc-comment without a `@return` annotation is no contract, whatever its
/// parameters are.
pub proof fn contracts_need_a_return(lines: Seq<Seq<char>>, params: Seq<ParamModel>)
    requires
        forall|i: int|
            0 <= i < lines.len() ==> !(line_meaning(trim(#[trigger] lines[i])) matches Ok(
                LineModel::Return(_),
            )),
    ensures
        contract_from(lines, params, None) is Err,
        (forall|i: int| 0 <= i < lines.len() ==> line_meaning(trim(#[trigger] lines[i])) is Ok)
            ==> contract_from(lines, params, None) == Err::<ContractModel, _>(
            "missing @return annotation"@,
        ),
    decreases lines.len(),
{
    if lines.len() > 0 {
        let rest = lines.skip(1);
        assert forall|i: int| 0 <= i < rest.len() implies rest[i] == #[trigger] lines[i + 1] by {}
        assert(forall|i: int| 0 <= i < rest.len() ==> (#[trigger] rest[i]) == lines[i + 1]);
        assert(!(line_meaning(trim(lines[0])) matches Ok(LineModel::Return(_))));
        match line_meaning(trim(lines[0])) {
            Ok(LineModel::Nothing) => contracts_need_a_return(rest, params),
            Ok(LineModel::Param(param)) => contracts_need_a_return(rest, params.push(param)),
            _ => {},
        }
    }
}

/// An annotation that cannot be read leaves the doc-comment without a
/// contract, wherever it stands.
pub proof fn invalid_lines_leave_no_contract(
    lines: Seq<Seq<char>>,
    params: Seq<ParamModel>,
    return_type: Option<TypeModel>,
    at: int,
)
    requires
        0 <= at < lines.len(),
        line_meaning(trim(lines[at])) is Err,
    ensures
        contract_from(lines, params, return_type) is Err,
    decreases lines.len(),
{
    if at > 0 {
        let rest = lines.skip(1);
        assert(rest[at - 1] == lines[at]);
        match line_meaning(trim(lines[0])) {
            Ok(LineModel::Nothing) => invalid_lines_leave_no_contract(
                rest,
                params,
                return_type,
                at - 1,
            ),
            Ok(LineModel::Param(param)) => invalid_lines_leave_no_contract(
                rest,
                params.push(param),
                return_type,
                at - 1,
            ),
            Ok(LineModel::Return(t)) => invalid_lines_leave_no_contract(
                rest,
                params,
                Some(t),
                at - 1,
            ),
            Err(_) => {},
        }
    }
}

/// Each `@param` annotation adds its parameter behind those before it.
pub proof fn parameters_are_added_in_order(
    before: Seq<Seq<char>>,
    line: Seq<char>,
    param: ParamModel,
    params: Seq<ParamModel>,
    t: TypeModel,
)
    requires
        line_meaning(trim(line)) == Ok::<_, Seq<char>>(LineModel::Param(param)),
    ensures
        contract_from(before, params, Some(t)) matches Ok(c) ==> contract_from(
            before.push(line),
            params,
            Some(t),
        ) == Ok::<_, Seq<char>>(
            ContractModel { params: c.params.push(param), return_type: c.return_type },
        ),
    decreases before.len(),
{
    let all = before.push(line);
    if before.len() == 0 {
        assert(all[0] == line);
        assert(all.skip(1) =~= Seq::empty());
        assert(contract_from(all.skip(1), params.push(param), Some(t)) == Ok::<_, Seq<char>>(
            ContractModel { params: params.push(param), return_type: t },
        ));
    } else {
        assert(all[0] == before[0]);
        assert(all.skip(1) =~= before.skip(1).push(line));
        match line_meaning(trim(before[0])) {
            Ok(LineModel::Nothing) => parameters_are_added_in_order(
                before.skip(1),
                line,
                param,
                params,
                t,
            ),
            Ok(LineModel::Param(other)) => parameters_are_added_in_order(
                before.skip(1),
                line,
                param,
                params.push(other),
                t,
            ),
            Ok(LineModel::Return(other)) => parameters_are_added_in_order(
                before.skip(1),
                line,
                param,
                params,
                other,
            ),
            Err(_) => {},
        }
    }
}

/// An annotation is `@param` or `@return` at the start of a line, with no
/// letter, digit or underscore behind it; any other line has no meaning.
pub proof fn annotations_are_whole_words(line: Seq<char>, annotation: Seq<char>, rest: Seq<char>)
    requires
        annotation == "@param"@ || annotation == "@return"@,
    ensures
        is_annotated(annotation + rest, annotation) <==> rest.len() == 0 || !(alphanumeric(rest[0])
            || rest[0] == '_'),
        !is_annotated(line, "@param"@) && !is_annotated(line, "@return"@) ==> line_meaning(line)
            == Ok::<_, Seq<char>>(LineModel::Nothing),
{
    let whole = annotation + rest;
    assert(whole.subrange(0, annotation.len() as int) =~= annotation);
    if rest.len() > 0 {
        assert(whole[annotation.len() as int] == rest[0]);
    }
}

/// Anything but white space behind the return type of a signature is an
/// error, and so is a type with anything behind it.
pub proof fn trailing_text_is_an_error(t: TypeModel, rest: Seq<char>)
    requires
        is_expressible(t),
        ends_type(t, rest),
        trim(trim_start(rest)).len() > 0,
    ensures
        whole_type(type_text(t) + rest) is Err,
        signature_of("() -> "@ + type_text(t) + rest) is Err,
{
    reveal_strlit("() -> ");
    reveal_strlit("->");
    lemma_type_reads(t, rest);
    let text = type_text(t) + rest;
    let s = "() -> "@ + type_text(t) + rest;
    assert(s =~= "() -> "@ + text);
    lemma_no_space_ahead(s);
    let list = s.skip(1);
    assert(list[0] == ')');
    lemma_no_space_ahead(list);
    let end = list.skip(1);
    assert(end[0] == ' ' && end[1] == '-');
    lemma_one_space_ahead(end);
    lemma_no_space_ahead(end.skip(1));
    assert(trim_start(end) == end.skip(1));
    assert(end.skip(1).subrange(0, 2) =~= "->"@);
    let spaced = end.skip(1).skip(2);
    assert(spaced[0] == ' ');
    assert(spaced.skip(1) =~= text);
    lemma_one_space_ahead(spaced);
    lemma_no_space_ahead(text);
    assert(trim_start(spaced) == text);
}

/// A comma behind the last parameter of a signature does not matter.
pub proof fn trailing_commas_of_signatures_do_not_matter(p: ParamModel)
    requires
        is_ident(p.name),
        is_expressible(p.type_def),
    ensures
        param_list_at(p.name + (seq![':'] + (type_text(p.type_def) + seq![',', ')']))) == Ok::<
            _,
            Seq<char>,
        >((seq![p], Seq::<char>::empty())),
        param_list_at(p.name + (seq![':'] + (type_text(p.type_def) + seq![')']))) == Ok::<
            _,
            Seq<char>,
        >((seq![p], Seq::<char>::empty())),
{
    lemma_params_with_end(p, seq![',', ')']);
    lemma_params_with_end(p, seq![')']);
}

proof fn lemma_params_with_end(p: ParamModel, end: Seq<char>)
    requires
        is_ident(p.name),
        is_expressible(p.type_def),
        end == seq![',', ')'] || end == seq![')'],
    ensures
        param_list_at(p.name + (seq![':'] + (type_text(p.type_def) + end))) == Ok::<_, Seq<char>>(
            (seq![p], Seq::<char>::empty()),
        ),
{
    reveal_strlit("(");
    reveal_strlit("|");
    let inside = type_text(p.type_def) + end;
    let colon = seq![':'] + inside;
    let s = p.name + colon;
    assert(!is_ident_part(end[0]) && !is_space(end[0]));
    lemma_no_space_ahead(end);
    lemma_starts_with_colons(end);
    lemma_starts_with_char(end, "("@);
    lemma_starts_with_char(end, "|"@);
    lemma_type_reads(p.type_def, end);
    assert(colon[0] == ':');
    assert(colon.skip(1) =~= inside);
    lemma_no_space_ahead(inside);
    lemma_ident_reads(p.name, colon);
    lemma_no_space_ahead(colon);
    assert(s[0] == p.name[0]);
    lemma_ident_ends(p.name);
    lemma_no_space_ahead(s);
    assert(p == ParamModel { name: p.name, type_def: p.type_def });
    if end.len() == 2 {
        let next = end.skip(1);
        assert(next =~= seq![')']);
        lemma_no_space_ahead(next);
        assert(next.skip(1) =~= Seq::empty());
    } else {
        assert(end.skip(1) =~= Seq::empty());
    }
}

// ---------------------------------------------------------------------------
// Unions.
// ---------------------------------------------------------------------------

/// A type alone is itself; with `()`, before or behind it, it is nullable.
pub proof fn unit_makes_a_type_nullable(atom: AtomModel)
    requires
        !(atom is Unit),
    ensures
        union_type(seq![atom]) == Ok::<_, Seq<char>>(atom_type(atom)),
        union_type(seq![AtomModel::Unit]) == Ok::<_, Seq<char>>(TypeModel::Unit),
        union_type(seq![AtomModel::Unit, atom]) == Ok::<_, Seq<char>>(
            TypeModel::Nullable(Box::new(atom_type(atom))),
        ),
        union_type(seq![atom, AtomModel::Unit]) == Ok::<_, Seq<char>>(
            TypeModel::Nullable(Box::new(atom_type(atom))),
        ),
        union_type(seq![AtomModel::Unit, AtomModel::Unit]) is Err,
{
    let keep = |atom: AtomModel| !(atom is Unit);
    reveal(Seq::filter);
    let one = seq![AtomModel::Unit, atom];
    assert(one.drop_last() =~= seq![AtomModel::Unit]);
    assert(Seq::<AtomModel>::empty().filter(keep) =~= Seq::empty());
    assert(seq![AtomModel::Unit].drop_last() =~= Seq::empty());
    assert(seq![AtomModel::Unit].filter(keep) =~= Seq::empty());
    assert(one.filter(keep) =~= seq![atom]);
    let two = seq![atom, AtomModel::Unit];
    assert(two.drop_last() =~= seq![atom]);
    assert(seq![atom].drop_last() =~= Seq::empty());
    assert(seq![atom].filter(keep) =~= seq![atom]);
    assert(two.filter(keep) =~= seq![atom]);
    let three = seq![AtomModel::Unit, AtomModel::Unit];
    assert(three.drop_last() =~= seq![AtomModel::Unit]);
    assert(three.filter(keep) =~= Seq::empty());
}

/// Alternatives that are all variants are a union of them, in their order;
/// variants and other types do not mix.
pub proof fn unions_are_of_variants(atoms: Seq<AtomModel>)
    requires
        atoms.len() > 1,
        forall|i: int| 0 <= i < atoms.len() ==> !(#[trigger] atoms[i] is Unit),
    ensures
        union_type(atoms) is Ok <==> forall|i: int|
            0 <= i < atoms.len() ==> #[trigger] atoms[i] is Path,
        union_type(atoms) matches Ok(t) ==> (t matches TypeModel::Enum(variants) && variants.len()
            == atoms.len() && forall|i: int|
            0 <= i < atoms.len() ==> (#[trigger] variants[i]).path == atoms[i]->path
                && variants[i].inner == atoms[i]->inner),
{
    lemma_filter_keeps_all(atoms, |a: AtomModel| !(a is Unit));
}

/// The type that an alternative is when it stands alone.
pub proof fn alternatives_alone_are_types(atom: AtomModel)
    ensures
        match atom {
            AtomModel::Primitive(p) => atom_type(atom) == TypeModel::Primitive(p),
            AtomModel::Object(fields) => atom_type(atom) == TypeModel::Object(fields),
            AtomModel::List(inner) => atom_type(atom) == TypeModel::List(inner),
            AtomModel::Unit => atom_type(atom) == TypeModel::Unit,
            AtomModel::Path { path, inner } => atom_type(atom) == TypeModel::Enum(
                seq![VariantModel { path, inner }],
            ),
        },
{
}

proof fn lemma_filtered_without<A>(s: Seq<A>, keep: spec_fn(A) -> bool, at: int, other: int)
    requires
        0 <= at <= other < s.len(),
        !keep(s[at]),
        !keep(s[other]),
    ensures
        s.filter(keep).len() + (if at == other {
            1int
        } else {
            2int
        }) <= s.len(),
    decreases s.len(),
{
    reveal(Seq::filter);
    let rest = s.drop_last();
    lemma_filter_is_shorter(rest, keep);
    if other < s.len() - 1 {
        assert(rest[at] == s[at] && rest[other] == s[other]);
        lemma_filtered_without(rest, keep, at, other);
    } else if at < other {
        assert(rest[at] == s[at]);
        lemma_filtered_without(rest, keep, at, at);
    }
}

proof fn lemma_filter_is_shorter<A>(s: Seq<A>, keep: spec_fn(A) -> bool)
    ensures
        s.filter(keep).len() <= s.len(),
    decreases s.len(),
{
    reveal(Seq::filter);
    if s.len() > 0 {
        lemma_filter_is_shorter(s.drop_last(), keep);
    }
}

/// A union has `()` at most once.
pub proof fn units_are_not_repeated(atoms: Seq<AtomModel>, at: int, other: int)
    requires
        0 <= at < other < atoms.len(),
        atoms[at] is Unit,
        atoms[other] is Unit,
    ensures
        union_type(atoms) == Err::<TypeModel, _>("union contains more than one '()' alternative"@),
{
    lemma_filtered_without(atoms, |atom: AtomModel| !(atom is Unit), at, other);
}

/// Variants and other types do not mix in a union.
pub proof fn variants_do_not_mix_with_other_types(atoms: Seq<AtomModel>, at: int)
    requires
        atoms.len() > 1,
        0 <= at < atoms.len(),
        !(atoms[at] is Path),
        forall|i: int| 0 <= i < atoms.len() ==> !(#[trigger] atoms[i] is Unit),
    ensures
        union_type(atoms) == Err::<TypeModel, _>(
            "cannot mix enum variants with other types in a union"@,
        ),
{
    unions_are_of_variants(atoms);
    lemma_filter_keeps_all(atoms, |atom: AtomModel| !(atom is Unit));
}

} // verus!
