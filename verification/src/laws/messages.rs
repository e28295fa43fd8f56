//! What the messages say.

use vstd::prelude::*;

use crate::report::{
    error_text, method_violation_text, mismatch_text, ErrorModel, LiteralModel,
    MethodViolationModel, MismatchModel, SiteModel, ViolationModel,
};
use crate::static_checker::{
    accepting_position, admits_propagation, agrees, fares_somewhere, field_position, fields_fault,
    fields_outcome, is_allowed, is_supplied, items_outcome, outcome, same_name_position,
    site_outcome, site_violation, type_fault, variant_outcome, variants_fault, OutcomeModel,
};
use crate::text::{decimal, join};
use crate::types::{
    accepts, field_texts, primitive_text, same_name, type_text, variant_text, variant_texts,
    ParamModel, PrimitiveType, TypeModel, VariantModel,
};

verus! {

/// An error names the function that is missing, or says what is wrong with
/// the contract or the script.
pub proof fn errors_say_what_is_wrong(text: Seq<char>)
    ensures
        error_text(ErrorModel::FunctionNotFound(text)) == "Function '"@ + text
            + "' not found in script"@,
        error_text(ErrorModel::NoDocComment) == "Function has no contract doc-comment"@,
        error_text(ErrorModel::InvalidContractSyntax(text)) == "Invalid contract syntax: "@ + text,
        error_text(ErrorModel::RuneParseError(text)) == "Rune parse error: "@ + text,
{
}

/// A violation of a method call names the method, the type of the receiver
/// and the line.
pub proof fn method_violations_name_the_call(v: MethodViolationModel)
    ensures
        method_violation_text(v) == "unknown method `"@ + v.method + "` on `"@ + v.receiver
            + "` (line "@ + decimal(v.line) + ")"@,
{
}

/// A mismatch says what is expected and what the script declares, in this
/// order.
pub proof fn mismatches_name_both_sides(
    n: nat,
    m: nat,
    expected: ParamModel,
    actual: ParamModel,
)
    ensures
        mismatch_text(MismatchModel::ParamCount { expected: n, actual: m }) == "expected "@
            + decimal(n) + " params, script declares "@ + decimal(m),
        mismatch_text(MismatchModel::Param { index: n, expected, actual }) == "param "@ + decimal(n)
            + " '"@ + expected.name + "': expected `"@ + type_text(expected.type_def)
            + "`, script declares `"@ + type_text(actual.type_def) + "`"@,
        mismatch_text(
            MismatchModel::ReturnType { expected: expected.type_def, actual: actual.type_def },
        ) == "return type: expected `"@ + type_text(expected.type_def) + "`, script declares `"@
            + type_text(actual.type_def) + "`"@,
{
}

/// The primitive types are written as in a contract.
pub proof fn primitive_types_have_their_text()
    ensures
        primitive_text(PrimitiveType::String) == "String"@,
        primitive_text(PrimitiveType::Int) == "int"@,
        primitive_text(PrimitiveType::Float) == "float"@,
        primitive_text(PrimitiveType::Bool) == "bool"@,
        primitive_text(PrimitiveType::Bytes) == "bytes"@,
{
}

/// A value is described by its kind, a variant by its path.
pub open spec fn is_described_as(value: LiteralModel, text: Seq<char>) -> bool {
    match value {
        LiteralModel::String(_) => text == "String"@,
        LiteralModel::Int(_) => text == "int"@,
        LiteralModel::Float(_) => text == "float"@,
        LiteralModel::Bool(_) => text == "bool"@,
        LiteralModel::Object(_) => text == "object"@,
        LiteralModel::Enum { path, .. } => text == "enum variant '"@ + join(path, "::"@) + "'"@,
        LiteralModel::List(_) => text == "list"@,
        LiteralModel::Unit => text == "()"@,
        LiteralModel::ResolvedCall { name, .. } => false,
        LiteralModel::Dynamic(_) => false,
    }
}

/// A literal of the wrong kind is described together with what is expected.
pub proof fn violations_say_what_is_expected(
    value: LiteralModel,
    text: Seq<char>,
    p: PrimitiveType,
    inner: TypeModel,
    fields: Seq<(Seq<char>, TypeModel)>,
    variants: Seq<VariantModel>,
)
    requires
        is_described_as(value, text),
    ensures
        outcome(TypeModel::Primitive(p), value) is Violation ==> outcome(
            TypeModel::Primitive(p),
            value,
        ) == OutcomeModel::Violation("expected "@ + primitive_text(p) + ", got "@ + text),
        !(value is Unit) ==> outcome(TypeModel::Unit, value) == OutcomeModel::Violation(
            "expected (), got "@ + text,
        ),
        !(value is List) ==> outcome(TypeModel::List(Box::new(inner)), value)
            == OutcomeModel::Violation("expected a list, got "@ + text),
        !(value is Object) ==> outcome(TypeModel::Object(fields), value)
            == OutcomeModel::Violation("expected an object, got "@ + text),
        !(value is Enum) ==> outcome(TypeModel::Enum(variants), value)
            == OutcomeModel::Violation("expected an enum variant, got "@ + text),
{
}

/// A called function is named together with what it returns and what is
/// expected.
pub proof fn wrong_calls_name_the_function(
    expected: TypeModel,
    name: Seq<char>,
    type_def: TypeModel,
)
    ensures
        type_fault(expected, type_def) matches Some(fault) ==> outcome(
            expected,
            LiteralModel::ResolvedCall { name, type_def },
        ) == OutcomeModel::Violation("Function '"@ + name + "' "@ + fault),
        expected is Primitive && !(type_def is Nullable) && type_def != expected ==> type_fault(
            expected,
            type_def,
        ) == Some("returns "@ + type_text(type_def) + ", expected "@ + type_text(expected)),
        expected is Unit && !(type_def is Nullable) && !(type_def is Unit) ==> type_fault(
            expected,
            type_def,
        ) == Some("returns "@ + type_text(type_def) + ", expected "@ + type_text(expected)),
{
}

/// A missing field is named together with its type.
pub proof fn missing_fields_are_named(
    name: Seq<char>,
    t: TypeModel,
    rest: Seq<(Seq<char>, TypeModel)>,
    values: Seq<(Seq<char>, LiteralModel)>,
)
    requires
        forall|i: int| 0 <= i < values.len() ==> (#[trigger] values[i]).0 != name,
    ensures
        outcome(TypeModel::Object(seq![(name, t)] + rest), LiteralModel::Object(values))
            == OutcomeModel::Violation(
            "missing field '"@ + name + "' (expected "@ + type_text(t) + ")"@,
        ),
{
    let fields = seq![(name, t)] + rest;
    assert(fields[0] == (name, t));
    lemma_absent(values, name, 0);
    assert(outcome(TypeModel::Object(fields), LiteralModel::Object(values)) == fields_outcome(
        fields,
        values,
        0,
    ));
}

proof fn lemma_absent(values: Seq<(Seq<char>, LiteralModel)>, name: Seq<char>, from: nat)
    requires
        forall|i: int| 0 <= i < values.len() ==> (#[trigger] values[i]).0 != name,
    ensures
        field_position(values, name, from) >= values.len(),
    decreases values.len() - from,
{
    if from < values.len() {
        assert(values[from as int].0 != name);
        lemma_absent(values, name, from + 1);
    }
}

/// A violation in the first field or item says where it is.
pub proof fn violations_say_where_they_are(
    name: Seq<char>,
    t: TypeModel,
    value: LiteralModel,
    rest: Seq<(Seq<char>, TypeModel)>,
    more: Seq<(Seq<char>, LiteralModel)>,
    items: Seq<LiteralModel>,
    text: Seq<char>,
)
    requires
        outcome(t, value) == OutcomeModel::Violation(text),
    ensures
        outcome(
            TypeModel::Object(seq![(name, t)] + rest),
            LiteralModel::Object(seq![(name, value)] + more),
        ) == OutcomeModel::Violation("field '"@ + name + "': "@ + text),
        outcome(TypeModel::List(Box::new(t)), LiteralModel::List(seq![value] + items))
            == OutcomeModel::Violation("list item "@ + text),
{
    let fields = seq![(name, t)] + rest;
    let values = seq![(name, value)] + more;
    assert(fields[0] == (name, t));
    assert(values[0] == (name, value));
    assert(field_position(values, name, 0) == 0);
    assert(outcome(TypeModel::Object(fields), LiteralModel::Object(values)) == fields_outcome(
        fields,
        values,
        0,
    ));
    let list = seq![value] + items;
    assert(list[0] == value);
    assert(outcome(TypeModel::List(Box::new(t)), LiteralModel::List(list)) == items_outcome(
        t,
        list,
        0,
    ));
}

/// A variant that no alternative allows by its name is named.
pub proof fn unexpected_variants_are_named(
    variants: Seq<VariantModel>,
    path: Seq<Seq<char>>,
    inner: Option<Box<LiteralModel>>,
)
    requires
        forall|i: int| 0 <= i < variants.len() ==> !accepts(#[trigger] variants[i], path),
    ensures
        outcome(TypeModel::Enum(variants), LiteralModel::Enum { path, inner })
            == OutcomeModel::Violation("unexpected variant '"@ + join(path, "::"@) + "'"@),
{
    lemma_unaccepted(variants, path, 0);
    assert(!fares_somewhere(variants, path, inner, OutcomeModel::Verified));
    assert(!fares_somewhere(variants, path, inner, OutcomeModel::Unverifiable));
}

proof fn lemma_unaccepted(variants: Seq<VariantModel>, path: Seq<Seq<char>>, from: nat)
    requires
        forall|i: int| 0 <= i < variants.len() ==> !accepts(#[trigger] variants[i], path),
    ensures
        accepting_position(variants, path, from) >= variants.len(),
    decreases variants.len() - from,
{
    if from < variants.len() {
        assert(!accepts(variants[from as int], path));
        lemma_unaccepted(variants, path, from + 1);
    }
}

/// A variant with a content where none is expected, or without one where one
/// is, is named.
pub proof fn wrong_contents_are_named(
    v: VariantModel,
    path: Seq<Seq<char>>,
    inner: Option<Box<LiteralModel>>,
)
    requires
        v.path.len() != 1 || v.inner is Some,
        v.inner is Some != inner is Some,
    ensures
        variant_outcome(v, path, inner) == OutcomeModel::Violation(
            "variant '"@ + join(path, "::"@) + "' has mismatched arity"@,
        ),
{
}

proof fn lemma_absent_type(fields: Seq<(Seq<char>, TypeModel)>, name: Seq<char>, from: nat)
    requires
        forall|i: int| 0 <= i < fields.len() ==> (#[trigger] fields[i]).0 != name,
    ensures
        field_position(fields, name, from) >= fields.len(),
    decreases fields.len() - from,
{
    if from < fields.len() {
        assert(fields[from as int].0 != name);
        lemma_absent_type(fields, name, from + 1);
    }
}

/// A field that a called function does not return, or returns with a wrong
/// type, is named.
pub proof fn wrong_fields_of_calls_are_named(
    name: Seq<char>,
    t: TypeModel,
    rest: Seq<(Seq<char>, TypeModel)>,
    other: TypeModel,
    actual: Seq<(Seq<char>, TypeModel)>,
)
    requires
        forall|i: int| 0 <= i < actual.len() ==> (#[trigger] actual[i]).0 != name,
    ensures
        type_fault(TypeModel::Object(seq![(name, t)] + rest), TypeModel::Object(actual)) == Some(
            "returns an object missing field '"@ + name + "' (expected "@ + type_text(t) + ")"@,
        ),
        type_fault(t, other) matches Some(fault) ==> type_fault(
            TypeModel::Object(seq![(name, t)] + rest),
            TypeModel::Object(seq![(name, other)] + actual),
        ) == Some("field '"@ + name + "': "@ + fault),
{
    let fields = seq![(name, t)] + rest;
    assert(fields[0] == (name, t));
    lemma_absent_type(actual, name, 0);
    assert(!is_supplied((name, t), actual));
    assert(type_fault(TypeModel::Object(fields), TypeModel::Object(actual)) == fields_fault(
        fields,
        actual,
        0,
    ));
    let more = seq![(name, other)] + actual;
    assert(more[0] == (name, other));
    assert(field_position(more, name, 0) == 0);
    if type_fault(t, other) is Some {
        assert forall|j: int| 0 <= j < more.len() && (#[trigger] more[j]).0 == name implies j
            == 0 by {
            if j > 0 {
                assert(more[j] == actual[j - 1]);
            }
        }
        assert(!is_supplied((name, t), more));
        assert(type_fault(TypeModel::Object(fields), TypeModel::Object(more)) == fields_fault(
            fields,
            more,
            0,
        ));
    }
}

proof fn lemma_unnamed(variants: Seq<VariantModel>, v: VariantModel, from: nat)
    requires
        forall|i: int| 0 <= i < variants.len() ==> !same_name(#[trigger] variants[i], v),
    ensures
        same_name_position(variants, v, from) >= variants.len(),
    decreases variants.len() - from,
{
    if from < variants.len() {
        assert(!same_name(variants[from as int], v));
        lemma_unnamed(variants, v, from + 1);
    }
}

/// A variant that a called function may return and that is not expected by
/// its name is named.
pub proof fn unexpected_variants_of_calls_are_named(
    expected: Seq<VariantModel>,
    v: VariantModel,
    rest: Seq<VariantModel>,
)
    requires
        forall|i: int| 0 <= i < expected.len() ==> !same_name(#[trigger] expected[i], v),
    ensures
        type_fault(TypeModel::Enum(expected), TypeModel::Enum(seq![v] + rest)) == Some(
            "may return unexpected variant '"@ + join(v.path, "::"@) + "'"@,
        ),
{
    let actual = seq![v] + rest;
    assert(actual[0] == v);
    lemma_unnamed(expected, v, 0);
    assert forall|i: int| 0 <= i < expected.len() implies !agrees(#[trigger] expected[i], v) by {
        assert(!same_name(expected[i], v));
    }
    assert(!is_allowed(expected, actual[0]));
    assert(type_fault(TypeModel::Enum(expected), TypeModel::Enum(actual)) == variants_fault(
        expected,
        actual,
        0,
    ));
}

/// A variant of a called function whose content is wrong is named together
/// with what is wrong with it.
pub proof fn wrong_contents_of_calls_are_named(
    e: VariantModel,
    v: VariantModel,
    rest: Seq<VariantModel>,
)
    requires
        e.path.len() > 1 || e.inner is Some,
        v.path.len() > 1 || v.inner is Some,
        same_name(e, v),
    ensures
        e.inner is Some != v.inner is Some ==> type_fault(
            TypeModel::Enum(seq![e]),
            TypeModel::Enum(seq![v] + rest),
        ) == Some("variant '"@ + join(v.path, "::"@) + "' has mismatched arity"@),
        e.inner is Some && v.inner is Some ==> (type_fault(
            *e.inner->Some_0,
            *v.inner->Some_0,
        ) matches Some(fault) ==> type_fault(
            TypeModel::Enum(seq![e]),
            TypeModel::Enum(seq![v] + rest),
        ) == Some("variant '"@ + join(v.path, "::"@) + "': "@ + fault)),
{
    let expected = seq![e];
    let actual = seq![v] + rest;
    assert(actual[0] == v);
    assert(expected[0] == e);
    assert(same_name_position(expected, v, 0) == 0);
    if !agrees(e, v) {
        assert(!is_allowed(expected, actual[0]));
    }
    assert(type_fault(TypeModel::Enum(expected), TypeModel::Enum(actual)) == variants_fault(
        expected,
        actual,
        0,
    ));
}

/// Types are written as in a contract: a list in brackets, an object with its
/// fields in braces, alternatives with bars between them, and `()` last.
pub proof fn types_are_written_as_in_contracts(
    t: TypeModel,
    name: Seq<char>,
    path: Seq<Seq<char>>,
    v: VariantModel,
    w: VariantModel,
)
    ensures
        type_text(TypeModel::Unit) == "()"@,
        type_text(TypeModel::List(Box::new(t))) == "["@ + type_text(t) + "]"@,
        type_text(TypeModel::Nullable(Box::new(t))) == type_text(t) + " | ()"@,
        type_text(TypeModel::Object(Seq::empty())) == "{}"@,
        type_text(TypeModel::Object(seq![(name, t)])) == "{ "@ + (name + ": "@ + type_text(t))
            + " }"@,
        variant_text(VariantModel { path, inner: None }) == join(path, "::"@),
        variant_text(VariantModel { path, inner: Some(Box::new(t)) }) == join(path, "::"@) + "("@
            + type_text(t) + ")"@,
        type_text(TypeModel::Enum(seq![v])) == variant_text(v),
        type_text(TypeModel::Enum(seq![v, w])) == variant_text(v) + " | "@ + variant_text(w),
{
    let fields = seq![(name, t)];
    assert(field_texts(fields)[0] == name + ": "@ + type_text(t));
    assert(join(field_texts(fields), ", "@) == name + ": "@ + type_text(t));
    assert(variant_texts(seq![v])[0] == variant_text(v));
    let two = seq![v, w];
    let texts = variant_texts(two);
    assert(two[0] == v && two[1] == w);
    assert(texts[0] == variant_text(v) && texts[1] == variant_text(w));
    assert(texts.drop_last() =~= seq![variant_text(v)]);
    assert(join(texts.drop_last(), " | "@) == variant_text(v));
    assert(texts.last() == variant_text(w));
}

/// A `?` whose error the contract does not admit is named by its line.
pub proof fn unadmitted_propagation_is_named(expected: TypeModel, line: nat)
    requires
        !admits_propagation(expected),
    ensures
        site_outcome(expected, SiteModel::TryPropagation { line }) == OutcomeModel::Violation(
            "the `?` operator (line "@ + decimal(line)
                + ") may exit the function early with a None/Err value the contract does not admit"@,
        ),
{
}

/// A violation of a return site names the site, the declared type and what is
/// wrong.
pub proof fn violations_hold_the_site(expected: TypeModel, site: SiteModel, text: Seq<char>)
    requires
        site_outcome(expected, site) == OutcomeModel::Violation(text),
    ensures
        site_violation(expected, site) == (ViolationModel { site, expected, actual: text }),
{
}

} // verus!
