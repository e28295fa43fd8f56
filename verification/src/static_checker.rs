//! The return sites of a function against its contract.

use vstd::prelude::*;

use crate::ast_analyzer::{is_error_variant, propagates};
use crate::report::{
    inner_model, literal_fields_model, literals_model, sites_model, violations_model, DynamicReason,
    LiteralModel, LiteralValue, ReasonModel, ReturnSite, SiteModel, StaticCheckResult, StaticModel,
    Violation, ViolationModel,
};
use crate::text::{decimal, join, joined, push_decimal, same_text, texts};
use crate::types::{
    accepts, bare_enum_name, fields_model, primitive_text, same_name, type_text, variants_model,
    Contract, EnumVariant, PrimitiveType, TypeDef, TypeModel, VariantModel,
};

verus! {

// ---------------------------------------------------------------------------
// A declared type against a declared type.
// ---------------------------------------------------------------------------

/// The position of the first field of the given name from `from` on, or the
/// number of fields where there is none.
pub open spec fn field_position<T>(
    fields: Seq<(Seq<char>, T)>,
    name: Seq<char>,
    from: nat,
) -> nat
    decreases fields.len() - from,
{
    if from >= fields.len() {
        fields.len()
    } else if fields[from as int].0 == name {
        from
    } else {
        field_position(fields, name, from + 1)
    }
}

/// The position of the first of the alternatives from `from` on that agrees
/// by name with `v`, or their number where there is none.
pub open spec fn same_name_position(
    variants: Seq<VariantModel>,
    v: VariantModel,
    from: nat,
) -> nat
    decreases variants.len() - from,
{
    if from >= variants.len() {
        variants.len()
    } else if same_name(variants[from as int], v) {
        from
    } else {
        same_name_position(variants, v, from + 1)
    }
}

/// What is wrong with a function that returns `actual` where `expected` is
/// expected; nothing where it is right. An object has to have all expected
/// fields, an enum may have no other alternatives than the expected ones.
pub open spec fn type_fault(expected: TypeModel, actual: TypeModel) -> Option<Seq<char>>
    decreases expected, actual, 0nat,
{
    match (expected, actual) {
        (TypeModel::Nullable(e), TypeModel::Unit) => None,
        (TypeModel::Nullable(e), TypeModel::Nullable(a)) => type_fault(*e, *a),
        (TypeModel::Nullable(e), a) => type_fault(*e, a),
        (e, TypeModel::Nullable(a)) => type_fault(e, *a),
        (TypeModel::Unit, TypeModel::Unit) => None,
        (TypeModel::List(e), TypeModel::List(a)) => type_fault(*e, *a),
        (TypeModel::Object(es), TypeModel::Object(as_)) => fields_fault(es, as_, 0),
        (TypeModel::Enum(es), TypeModel::Enum(as_)) => variants_fault(es, as_, 0),
        (e, a) => if e is Primitive && e == a {
            None
        } else {
            Some("returns "@ + type_text(a) + ", expected "@ + type_text(e))
        },
    }
}

/// Whether one of the actual fields has the name of an expected one, and a
/// type that is right for it.
pub open spec fn is_supplied(
    expected: (Seq<char>, TypeModel),
    actual: Seq<(Seq<char>, TypeModel)>,
) -> bool
    decreases expected, actual, 0nat,
{
    exists|j: int|
        0 <= j < actual.len() && (#[trigger] actual[j]).0 == expected.0 && type_fault(
            expected.1,
            actual[j].1,
        ) is None
}

/// The first fault among the expected fields from `from` on: one that is not
/// supplied.
pub open spec fn fields_fault(
    expected: Seq<(Seq<char>, TypeModel)>,
    actual: Seq<(Seq<char>, TypeModel)>,
    from: nat,
) -> Option<Seq<char>>
    decreases expected, actual, expected.len() - from,
{
    if from >= expected.len() {
        None
    } else if is_supplied(expected[from as int], actual) {
        fields_fault(expected, actual, from + 1)
    } else {
        let (name, expected_type) = expected[from as int];
        let at = field_position(actual, name, 0);
        if at >= actual.len() {
            Some(
                "returns an object missing field '"@ + name + "' (expected "@ + type_text(
                    expected_type,
                ) + ")"@,
            )
        } else {
            Some(
                "field '"@ + name + "': "@ + type_fault(
                    expected[from as int].1,
                    actual[at as int].1,
                )->Some_0,
            )
        }
    }
}

/// Whether an actual alternative agrees with an expected one, by name and in
/// the inner value. The name of an enum alone says nothing of inner values.
pub open spec fn agrees(expected: VariantModel, actual: VariantModel) -> bool
    decreases expected, actual, 0nat,
{
    same_name(expected, actual) && (bare_enum_name(expected) || bare_enum_name(actual) || match (
        expected.inner,
        actual.inner,
    ) {
        (None, None) => true,
        (Some(e), Some(a)) => type_fault(*e, *a) is None,
        _ => false,
    })
}

/// Whether an actual alternative agrees with one of the expected ones.
pub open spec fn is_allowed(expected: Seq<VariantModel>, actual: VariantModel) -> bool
    decreases expected, actual, 0nat,
{
    exists|i: int| 0 <= i < expected.len() && agrees(#[trigger] expected[i], actual)
}

/// The first fault among the actual alternatives from `from` on: one that is
/// not allowed. It is told of the first expected one that agrees by name.
pub open spec fn variants_fault(
    expected: Seq<VariantModel>,
    actual: Seq<VariantModel>,
    from: nat,
) -> Option<Seq<char>>
    decreases expected, actual, actual.len() - from,
{
    if from >= actual.len() {
        None
    } else if is_allowed(expected, actual[from as int]) {
        variants_fault(expected, actual, from + 1)
    } else {
        let path = join(actual[from as int].path, "::"@);
        let at = same_name_position(expected, actual[from as int], 0);
        if at >= expected.len() {
            Some("may return unexpected variant '"@ + path + "'"@)
        } else {
            match (expected[at as int].inner, actual[from as int].inner) {
                (Some(e), Some(a)) => Some(
                    "variant '"@ + path + "': "@ + type_fault(*e, *a)->Some_0,
                ),
                _ => Some("variant '"@ + path + "' has mismatched arity"@),
            }
        }
    }
}

/// Whether the fault of an exec comparison is the one that is specified.
pub open spec fn is_fault(r: Option<String>, wanted: Option<Seq<char>>) -> bool {
    match (r, wanted) {
        (Some(fault), Some(text)) => fault@ == text,
        (None, None) => true,
        _ => false,
    }
}

/// A text in the middle of two others.
fn around(before: &str, text: &str, after: &str) -> (r: String)
    ensures
        r@ == before@ + text@ + after@,
{
    let mut out = before.to_owned();
    out.append(text);
    out.append(after);
    out
}

/// The position of a field.
fn find_field(fields: &Vec<(String, TypeDef)>, name: &str) -> (r: usize)
    ensures
        r == field_position(fields_model(fields@), name@, 0),
        r <= fields@.len(),
{
    for i in 0..fields.len()
        invariant
            field_position(fields_model(fields@), name@, 0) == field_position(
                fields_model(fields@),
                name@,
                i as nat,
            ),
    {
        assert(fields_model(fields@)[i as int].0 == fields@[i as int].0@);
        if same_text(fields[i].0.as_str(), name) {
            return i;
        }
    }
    fields.len()
}

/// The position of the alternative that agrees by name.
fn find_same_name(variants: &Vec<EnumVariant>, v: &EnumVariant) -> (r: usize)
    ensures
        r == same_name_position(variants_model(variants@), v@, 0),
        r <= variants@.len(),
{
    for i in 0..variants.len()
        invariant
            same_name_position(variants_model(variants@), v@, 0) == same_name_position(
                variants_model(variants@),
                v@,
                i as nat,
            ),
    {
        assert(variants_model(variants@)[i as int] == variants@[i as int]@);
        if variants[i].matches_name(v) {
            return i;
        }
    }
    variants.len()
}

/// Compares two declared types: that of a called function with the one that
/// the caller expects.
pub fn compare_types(expected: &TypeDef, actual: &TypeDef) -> (r: Option<String>)
    ensures
        is_fault(r, type_fault(expected@, actual@)),
    decreases expected@, actual@, 0nat,
{
    match (expected, actual) {
        (TypeDef::Nullable(_), TypeDef::Unit) => None,
        (TypeDef::Nullable(e), TypeDef::Nullable(a)) => {
            assert(decreases_to!(expected@ => *expected@->Nullable_0));
            compare_types(e, a)
        },
        (TypeDef::Nullable(e), _) => {
            assert(decreases_to!(expected@ => *expected@->Nullable_0));
            compare_types(e, actual)
        },
        (_, TypeDef::Nullable(a)) => {
            assert(decreases_to!(actual@ => *actual@->Nullable_0));
            compare_types(expected, a)
        },
        (TypeDef::Unit, TypeDef::Unit) => None,
        (TypeDef::List(e), TypeDef::List(a)) => {
            assert(decreases_to!(expected@ => *expected@->List_0));
            compare_types(e, a)
        },
        (TypeDef::Object(es), TypeDef::Object(as_)) => {
            assert(decreases_to!(expected@ => expected@->Object_0));
            compare_fields(es, as_)
        },
        (TypeDef::Enum(es), TypeDef::Enum(as_)) => {
            assert(decreases_to!(expected@ => expected@->Enum_0));
            compare_variants(es, as_)
        },
        (TypeDef::Primitive(e), TypeDef::Primitive(a)) => {
            if *e == *a {
                None
            } else {
                Some(mismatch(expected, actual))
            }
        },
        _ => Some(mismatch(expected, actual)),
    }
}

fn mismatch(expected: &TypeDef, actual: &TypeDef) -> (r: String)
    ensures
        r@ == "returns "@ + type_text(actual@) + ", expected "@ + type_text(expected@),
{
    let mut out = around("returns ", actual.to_string().as_str(), ", expected ");
    out.append(expected.to_string().as_str());
    out
}

/// Whether an expected field is supplied.
fn has_supply(expected: &(String, TypeDef), actual: &Vec<(String, TypeDef)>) -> (r: bool)
    ensures
        r == is_supplied((expected.0@, expected.1@), fields_model(actual@)),
    decreases expected.1@, fields_model(actual@), 0nat,
{
    let ghost e = (expected.0@, expected.1@);
    let ghost acs = fields_model(actual@);
    for j in 0..actual.len()
        invariant
            e == (expected.0@, expected.1@),
            acs == fields_model(actual@),
            forall|k: int|
                0 <= k < j ==> !((#[trigger] acs[k]).0 == e.0 && type_fault(e.1, acs[k].1) is None),
    {
        proof {
            assert(acs[j as int] == (actual@[j as int].0@, actual@[j as int].1@));
            assert(decreases_to!(acs => acs[j as int]));
            assert(decreases_to!(acs[j as int] => acs[j as int].1));
        }
        if same_text(actual[j].0.as_str(), expected.0.as_str()) {
            if compare_types(&expected.1, &actual[j].1).is_none() {
                return true;
            }
        }
    }
    false
}

fn compare_fields(expected: &Vec<(String, TypeDef)>, actual: &Vec<(String, TypeDef)>) -> (r: Option<
    String,
>)
    ensures
        is_fault(r, fields_fault(fields_model(expected@), fields_model(actual@), 0)),
    decreases fields_model(expected@), fields_model(actual@), 0nat,
{
    let ghost es = fields_model(expected@);
    let ghost acs = fields_model(actual@);
    for i in 0..expected.len()
        invariant
            es == fields_model(expected@),
            acs == fields_model(actual@),
            fields_fault(es, acs, 0) == fields_fault(es, acs, i as nat),
    {
        proof {
            assert(es[i as int] == (expected@[i as int].0@, expected@[i as int].1@));
            assert(decreases_to!(es => es[i as int]));
            assert(decreases_to!(es[i as int] => es[i as int].1));
        }
        if !has_supply(&expected[i], actual) {
            let name = expected[i].0.as_str();
            let at = find_field(actual, name);
            if at == actual.len() {
                let mut out = around("returns an object missing field '", name, "' (expected ");
                out.append(expected[i].1.to_string().as_str());
                out.append(")");
                return Some(out);
            }
            proof {
                lemma_field_found(acs, es[i as int].0, 0);
                assert(acs[at as int] == (actual@[at as int].0@, actual@[at as int].1@));
            }
            let mut out = around("field '", name, "': ");
            if let Some(fault) = compare_types(&expected[i].1, &actual[at].1) {
                out.append(fault.as_str());
            }
            return Some(out);
        }
    }
    None
}

/// The field at the position of a name has that name.
pub proof fn lemma_field_found<T>(fields: Seq<(Seq<char>, T)>, name: Seq<char>, from: nat)
    ensures
        field_position(fields, name, from) < fields.len() ==> fields[field_position(
            fields,
            name,
            from,
        ) as int].0 == name,
    decreases fields.len() - from,
{
    if from < fields.len() && fields[from as int].0 != name {
        lemma_field_found(fields, name, from + 1);
    }
}

/// The alternative at the position of one that agrees by name does so.
pub proof fn lemma_same_name_found(variants: Seq<VariantModel>, v: VariantModel, from: nat)
    ensures
        same_name_position(variants, v, from) < variants.len() ==> same_name(
            variants[same_name_position(variants, v, from) as int],
            v,
        ),
    decreases variants.len() - from,
{
    if from < variants.len() && !same_name(variants[from as int], v) {
        lemma_same_name_found(variants, v, from + 1);
    }
}

/// Whether two alternatives agree.
fn variants_agree(expected: &EnumVariant, actual: &EnumVariant) -> (r: bool)
    ensures
        r == agrees(expected@, actual@),
    decreases expected@, actual@, 0nat,
{
    if !expected.matches_name(actual) {
        return false;
    }
    if expected.is_bare_enum_name() || actual.is_bare_enum_name() {
        return true;
    }
    match (&expected.inner, &actual.inner) {
        (None, None) => true,
        (Some(e), Some(a)) => {
            assert(decreases_to!(expected@ => expected@.inner));
            assert(decreases_to!(expected@.inner => *expected@.inner->Some_0));
            compare_types(e, a).is_none()
        },
        _ => false,
    }
}

/// Whether an alternative agrees with one of the expected ones.
fn has_agreeing(expected: &Vec<EnumVariant>, actual: &EnumVariant) -> (r: bool)
    ensures
        r == is_allowed(variants_model(expected@), actual@),
    decreases variants_model(expected@), actual@, 0nat,
{
    let ghost es = variants_model(expected@);
    for i in 0..expected.len()
        invariant
            es == variants_model(expected@),
            forall|k: int| 0 <= k < i ==> !agrees(#[trigger] es[k], actual@),
    {
        proof {
            assert(es[i as int] == expected@[i as int]@);
            assert(decreases_to!(es => es[i as int]));
        }
        if variants_agree(&expected[i], actual) {
            return true;
        }
    }
    false
}

fn compare_variants(expected: &Vec<EnumVariant>, actual: &Vec<EnumVariant>) -> (r: Option<String>)
    ensures
        is_fault(r, variants_fault(variants_model(expected@), variants_model(actual@), 0)),
    decreases variants_model(expected@), variants_model(actual@), 0nat,
{
    let ghost es = variants_model(expected@);
    let ghost acs = variants_model(actual@);
    for i in 0..actual.len()
        invariant
            es == variants_model(expected@),
            acs == variants_model(actual@),
            variants_fault(es, acs, 0) == variants_fault(es, acs, i as nat),
    {
        proof {
            assert(acs[i as int] == actual@[i as int]@);
            assert(decreases_to!(acs => acs[i as int]));
        }
        if !has_agreeing(expected, &actual[i]) {
            let at = find_same_name(expected, &actual[i]);
            let path = joined(&actual[i].path, "::");
            if at == expected.len() {
                return Some(around("may return unexpected variant '", path.as_str(), "'"));
            }
            proof {
                lemma_same_name_found(es, acs[i as int], 0);
                assert(es[at as int] == expected@[at as int]@);
                assert(!agrees(es[at as int], acs[i as int]));
                assert(decreases_to!(es => es[at as int]));
                assert(decreases_to!(es[at as int] => es[at as int].inner));
            }
            return match (&expected[at].inner, &actual[i].inner) {
                (Some(e), Some(a)) => {
                    assert(decreases_to!(es[at as int].inner => *es[at as int].inner->Some_0));
                    let mut out = around("variant '", path.as_str(), "': ");
                    if let Some(fault) = compare_types(e, a) {
                        out.append(fault.as_str());
                    }
                    Some(out)
                },
                _ => Some(around("variant '", path.as_str(), "' has mismatched arity")),
            };
        }
    }
    None
}

// ---------------------------------------------------------------------------
// A value against a declared type.
// ---------------------------------------------------------------------------

/// How a value fares against a type.
#[verifier::ext_equal]
pub enum OutcomeModel {
    Verified,
    /// With what is wrong.
    Violation(Seq<char>),
    Unverifiable,
}

/// A value in a few words.
pub open spec fn value_text(value: LiteralModel) -> Seq<char> {
    match value {
        LiteralModel::String(_) => "String"@,
        LiteralModel::Int(_) => "int"@,
        LiteralModel::Float(_) => "float"@,
        LiteralModel::Bool(_) => "bool"@,
        LiteralModel::Object(_) => "object"@,
        LiteralModel::Enum { path, .. } => "enum variant '"@ + join(path, "::"@) + "'"@,
        LiteralModel::List(_) => "list"@,
        LiteralModel::Unit => "()"@,
        LiteralModel::ResolvedCall { name, .. } => "result of '"@ + name + "'"@,
        LiteralModel::Dynamic(_) => "dynamic value"@,
    }
}

/// Whether a value is of a primitive type.
pub open spec fn is_of_primitive(p: PrimitiveType, value: LiteralModel) -> bool {
    match p {
        PrimitiveType::String => value is String,
        PrimitiveType::Int => value is Int,
        PrimitiveType::Float => value is Float,
        PrimitiveType::Bool => value is Bool,
        PrimitiveType::Bytes => false,
    }
}

/// The outcome of a part, with that of the parts behind it: the first
/// violation counts, and what cannot be verified of a part cannot be of the
/// whole.
pub open spec fn followed_by(first: OutcomeModel, rest: OutcomeModel) -> OutcomeModel {
    match first {
        OutcomeModel::Violation(_) => first,
        OutcomeModel::Verified => rest,
        OutcomeModel::Unverifiable => if rest is Violation {
            rest
        } else {
            first
        },
    }
}

/// An outcome whose violation is said to be that of a part.
pub open spec fn within(part: Seq<char>, outcome: OutcomeModel) -> OutcomeModel {
    match outcome {
        OutcomeModel::Violation(text) => OutcomeModel::Violation(part + text),
        _ => outcome,
    }
}

/// The position of the first of the alternatives from `from` on that accepts
/// a path, or their number where there is none.
pub open spec fn accepting_position(
    variants: Seq<VariantModel>,
    path: Seq<Seq<char>>,
    from: nat,
) -> nat
    decreases variants.len() - from,
{
    if from >= variants.len() {
        variants.len()
    } else if accepts(variants[from as int], path) {
        from
    } else {
        accepting_position(variants, path, from + 1)
    }
}

/// How a value fares against a type. A variant is judged by the alternative
/// that suits it best.
pub open spec fn outcome(expected: TypeModel, actual: LiteralModel) -> OutcomeModel
    decreases expected, 0nat,
{
    match (expected, actual) {
        (_, LiteralModel::Dynamic(_)) => OutcomeModel::Unverifiable,
        (_, LiteralModel::ResolvedCall { name, type_def }) => match type_fault(expected, type_def) {
            Some(fault) => OutcomeModel::Violation("Function '"@ + name + "' "@ + fault),
            None => OutcomeModel::Verified,
        },
        (TypeModel::Primitive(p), _) => if is_of_primitive(p, actual) {
            OutcomeModel::Verified
        } else {
            OutcomeModel::Violation(
                "expected "@ + primitive_text(p) + ", got "@ + value_text(actual),
            )
        },
        (TypeModel::Unit, LiteralModel::Unit) => OutcomeModel::Verified,
        (TypeModel::Unit, _) => OutcomeModel::Violation("expected (), got "@ + value_text(actual)),
        (TypeModel::Nullable(_), LiteralModel::Unit) => OutcomeModel::Verified,
        (TypeModel::Nullable(inner), _) => outcome(*inner, actual),
        (TypeModel::List(inner), LiteralModel::List(items)) => items_outcome(*inner, items, 0),
        (TypeModel::List(_), _) => OutcomeModel::Violation(
            "expected a list, got "@ + value_text(actual),
        ),
        (TypeModel::Object(fields), LiteralModel::Object(values)) => fields_outcome(
            fields,
            values,
            0,
        ),
        (TypeModel::Object(_), _) => OutcomeModel::Violation(
            "expected an object, got "@ + value_text(actual),
        ),
        (TypeModel::Enum(variants), LiteralModel::Enum { path, inner }) => {
            let at = accepting_position(variants, path, 0);
            if fares_somewhere(variants, path, inner, OutcomeModel::Verified) {
                OutcomeModel::Verified
            } else if fares_somewhere(variants, path, inner, OutcomeModel::Unverifiable) {
                OutcomeModel::Unverifiable
            } else if at >= variants.len() {
                OutcomeModel::Violation("unexpected variant '"@ + join(path, "::"@) + "'"@)
            } else {
                variant_outcome(variants[at as int], path, inner)
            }
        },
        (TypeModel::Enum(_), _) => OutcomeModel::Violation(
            "expected an enum variant, got "@ + value_text(actual),
        ),
    }
}

/// How a variant fares against an alternative that accepts its path. The name
/// of an enum alone says nothing of the inner values.
pub open spec fn variant_outcome(
    expected: VariantModel,
    path: Seq<Seq<char>>,
    inner: Option<Box<LiteralModel>>,
) -> OutcomeModel
    decreases expected, 0nat,
{
    if bare_enum_name(expected) {
        OutcomeModel::Verified
    } else {
        match (expected.inner, inner) {
            (None, None) => OutcomeModel::Verified,
            (Some(expected_inner), Some(value)) => outcome(*expected_inner, *value),
            _ => OutcomeModel::Violation(
                "variant '"@ + join(path, "::"@) + "' has mismatched arity"@,
            ),
        }
    }
}

/// Whether a variant fares as given against one of the alternatives that
/// accept its path.
pub open spec fn fares_somewhere(
    variants: Seq<VariantModel>,
    path: Seq<Seq<char>>,
    inner: Option<Box<LiteralModel>>,
    wanted: OutcomeModel,
) -> bool
    decreases variants, 0nat,
{
    exists|i: int|
        0 <= i < variants.len() && accepts(#[trigger] variants[i], path) && variant_outcome(
            variants[i],
            path,
            inner,
        ) == wanted
}

/// How the items of a list from `from` on fare.
pub open spec fn items_outcome(
    expected: TypeModel,
    items: Seq<LiteralModel>,
    from: nat,
) -> OutcomeModel
    decreases expected, items.len() + 1 - from,
{
    if from >= items.len() {
        OutcomeModel::Verified
    } else {
        followed_by(
            within("list item "@, outcome(expected, items[from as int])),
            items_outcome(expected, items, from + 1),
        )
    }
}

/// How the values of the expected fields from `from` on fare. Other fields do
/// not matter.
pub open spec fn fields_outcome(
    expected: Seq<(Seq<char>, TypeModel)>,
    values: Seq<(Seq<char>, LiteralModel)>,
    from: nat,
) -> OutcomeModel
    decreases expected, expected.len() - from,
{
    if from >= expected.len() {
        OutcomeModel::Verified
    } else {
        let (name, expected_type) = expected[from as int];
        let at = field_position(values, name, 0);
        if at >= values.len() {
            OutcomeModel::Violation(
                "missing field '"@ + name + "' (expected "@ + type_text(expected_type) + ")"@,
            )
        } else {
            followed_by(
                within(
                    "field '"@ + name + "': "@,
                    outcome(expected[from as int].1, values[at as int].1),
                ),
                fields_outcome(expected, values, from + 1),
            )
        }
    }
}

/// How a value fares against a type.
pub enum Outcome {
    Verified,
    Violation(String),
    Unverifiable,
}

impl View for Outcome {
    type V = OutcomeModel;

    open spec fn view(&self) -> OutcomeModel {
        match self {
            Outcome::Verified => OutcomeModel::Verified,
            Outcome::Violation(text) => OutcomeModel::Violation(text@),
            Outcome::Unverifiable => OutcomeModel::Unverifiable,
        }
    }
}

fn describe(value: &LiteralValue) -> (r: String)
    ensures
        r@ == value_text(value@),
{
    match value {
        LiteralValue::String(_) => "String".to_owned(),
        LiteralValue::Int(_) => "int".to_owned(),
        LiteralValue::Float(_) => "float".to_owned(),
        LiteralValue::Bool(_) => "bool".to_owned(),
        LiteralValue::Object(_) => "object".to_owned(),
        LiteralValue::Enum { path, .. } => around(
            "enum variant '",
            joined(path, "::").as_str(),
            "'",
        ),
        LiteralValue::List(_) => "list".to_owned(),
        LiteralValue::Unit => "()".to_owned(),
        LiteralValue::ResolvedCall { name, .. } => around("result of '", name.as_str(), "'"),
        LiteralValue::Dynamic(_) => "dynamic value".to_owned(),
    }
}

/// The violation of a value that is of another kind than expected.
fn other_kind(expected: &str, value: &LiteralValue) -> (r: Outcome)
    ensures
        r@ == OutcomeModel::Violation(expected@ + value_text(value@)),
{
    let mut out = expected.to_owned();
    out.append(describe(value).as_str());
    Outcome::Violation(out)
}

fn compare_primitive(expected: PrimitiveType, actual: &LiteralValue) -> (r: Outcome)
    ensures
        r@ == (if is_of_primitive(expected, actual@) {
            OutcomeModel::Verified
        } else {
            OutcomeModel::Violation(
                "expected "@ + primitive_text(expected) + ", got "@ + value_text(actual@),
            )
        }),
{
    let ok = match (expected, actual) {
        (PrimitiveType::String, LiteralValue::String(_)) => true,
        (PrimitiveType::Int, LiteralValue::Int(_)) => true,
        (PrimitiveType::Float, LiteralValue::Float(_)) => true,
        (PrimitiveType::Bool, LiteralValue::Bool(_)) => true,
        _ => false,
    };
    if ok {
        Outcome::Verified
    } else {
        other_kind(around("expected ", expected.to_string().as_str(), ", got ").as_str(), actual)
    }
}

/// Compares a value with a type.
pub fn compare(expected: &TypeDef, actual: &LiteralValue) -> (r: Outcome)
    ensures
        r@ == outcome(expected@, actual@),
    decreases expected@, 0nat,
{
    match actual {
        LiteralValue::Dynamic(_) => {
            return Outcome::Unverifiable;
        },
        LiteralValue::ResolvedCall { name, type_def } => {
            return match compare_types(expected, type_def) {
                Some(fault) => {
                    let mut out = around("Function '", name.as_str(), "' ");
                    out.append(fault.as_str());
                    Outcome::Violation(out)
                },
                None => Outcome::Verified,
            };
        },
        _ => {},
    }
    match (expected, actual) {
        (TypeDef::Primitive(p), _) => compare_primitive(*p, actual),
        (TypeDef::Unit, LiteralValue::Unit) => Outcome::Verified,
        (TypeDef::Unit, _) => other_kind("expected (), got ", actual),
        (TypeDef::Nullable(_), LiteralValue::Unit) => Outcome::Verified,
        (TypeDef::Nullable(inner), _) => {
            assert(decreases_to!(expected@ => *expected@->Nullable_0));
            compare(inner, actual)
        },
        (TypeDef::List(inner), LiteralValue::List(items)) => {
            assert(decreases_to!(expected@ => *expected@->List_0));
            compare_list(inner, items)
        },
        (TypeDef::List(_), _) => other_kind("expected a list, got ", actual),
        (TypeDef::Object(fields), LiteralValue::Object(values)) => {
            assert(decreases_to!(expected@ => expected@->Object_0));
            compare_object(fields, values)
        },
        (TypeDef::Object(_), _) => other_kind("expected an object, got ", actual),
        (TypeDef::Enum(variants), LiteralValue::Enum { path, inner }) => {
            assert(decreases_to!(expected@ => expected@->Enum_0));
            assert(inner_model(*inner) == actual@->Enum_inner);
            compare_enum(variants, path, inner)
        },
        (TypeDef::Enum(_), _) => other_kind("expected an enum variant, got ", actual),
    }
}

fn compare_list(inner: &TypeDef, items: &Vec<LiteralValue>) -> (r: Outcome)
    ensures
        r@ == items_outcome(inner@, literals_model(items@), 0),
    decreases inner@, 1nat,
{
    let ghost models = literals_model(items@);
    let mut unverifiable = false;
    for i in 0..items.len()
        invariant
            models == literals_model(items@),
            items_outcome(inner@, models, 0) == followed_by(
                if unverifiable {
                    OutcomeModel::Unverifiable
                } else {
                    OutcomeModel::Verified
                },
                items_outcome(inner@, models, i as nat),
            ),
    {
        assert(models[i as int] == items@[i as int]@);
        match compare(inner, &items[i]) {
            Outcome::Verified => {},
            Outcome::Unverifiable => {
                unverifiable = true;
            },
            Outcome::Violation(text) => {
                let mut out = "list item ".to_owned();
                out.append(text.as_str());
                return Outcome::Violation(out);
            },
        }
    }
    if unverifiable {
        Outcome::Unverifiable
    } else {
        Outcome::Verified
    }
}

/// The position of a field of an object literal.
fn find_value(values: &Vec<(String, LiteralValue)>, name: &str) -> (r: usize)
    ensures
        r == field_position(literal_fields_model(values@), name@, 0),
        r <= values@.len(),
{
    for i in 0..values.len()
        invariant
            field_position(literal_fields_model(values@), name@, 0) == field_position(
                literal_fields_model(values@),
                name@,
                i as nat,
            ),
    {
        assert(literal_fields_model(values@)[i as int].0 == values@[i as int].0@);
        if same_text(values[i].0.as_str(), name) {
            return i;
        }
    }
    values.len()
}

fn compare_object(
    expected: &Vec<(String, TypeDef)>,
    values: &Vec<(String, LiteralValue)>,
) -> (r: Outcome)
    ensures
        r@ == fields_outcome(fields_model(expected@), literal_fields_model(values@), 0),
    decreases fields_model(expected@), 0nat,
{
    let ghost es = fields_model(expected@);
    let ghost vs = literal_fields_model(values@);
    let mut unverifiable = false;
    for i in 0..expected.len()
        invariant
            es == fields_model(expected@),
            vs == literal_fields_model(values@),
            fields_outcome(es, vs, 0) == followed_by(
                if unverifiable {
                    OutcomeModel::Unverifiable
                } else {
                    OutcomeModel::Verified
                },
                fields_outcome(es, vs, i as nat),
            ),
    {
        proof {
            assert(es[i as int] == (expected@[i as int].0@, expected@[i as int].1@));
            assert(decreases_to!(es => es[i as int]));
            assert(decreases_to!(es[i as int] => es[i as int].1));
        }
        let name = expected[i].0.as_str();
        let at = find_value(values, name);
        if at == values.len() {
            let mut out = around("missing field '", name, "' (expected ");
            out.append(expected[i].1.to_string().as_str());
            out.append(")");
            return Outcome::Violation(out);
        }
        assert(vs[at as int] == (values@[at as int].0@, values@[at as int].1@));
        match compare(&expected[i].1, &values[at].1) {
            Outcome::Verified => {},
            Outcome::Unverifiable => {
                unverifiable = true;
            },
            Outcome::Violation(text) => {
                let mut out = around("field '", name, "': ");
                out.append(text.as_str());
                return Outcome::Violation(out);
            },
        }
    }
    if unverifiable {
        Outcome::Unverifiable
    } else {
        Outcome::Verified
    }
}

/// The position of the alternative that accepts a path.
fn find_accepting(variants: &Vec<EnumVariant>, path: &Vec<String>) -> (r: usize)
    ensures
        r == accepting_position(variants_model(variants@), texts(path@), 0),
        r <= variants@.len(),
{
    for i in 0..variants.len()
        invariant
            accepting_position(variants_model(variants@), texts(path@), 0) == accepting_position(
                variants_model(variants@),
                texts(path@),
                i as nat,
            ),
    {
        assert(variants_model(variants@)[i as int] == variants@[i as int]@);
        if variants[i].accepts_path(path.as_slice()) {
            return i;
        }
    }
    variants.len()
}

/// Compares a variant with an alternative that accepts its path.
fn compare_variant(
    expected: &EnumVariant,
    path: &Vec<String>,
    inner: &Option<Box<LiteralValue>>,
) -> (r: Outcome)
    ensures
        r@ == variant_outcome(expected@, texts(path@), inner_model(*inner)),
    decreases expected@, 0nat,
{
    if expected.is_bare_enum_name() {
        return Outcome::Verified;
    }
    match (&expected.inner, inner) {
        (None, None) => Outcome::Verified,
        (Some(expected_inner), Some(value)) => {
            assert(decreases_to!(expected@ => expected@.inner));
            assert(decreases_to!(expected@.inner => *expected@.inner->Some_0));
            compare(expected_inner, value)
        },
        _ => Outcome::Violation(
            around("variant '", joined(path, "::").as_str(), "' has mismatched arity"),
        ),
    }
}

fn compare_enum(
    variants: &Vec<EnumVariant>,
    path: &Vec<String>,
    inner: &Option<Box<LiteralValue>>,
) -> (r: Outcome)
    ensures
        r@ == outcome(
            TypeModel::Enum(variants_model(variants@)),
            LiteralModel::Enum { path: texts(path@), inner: inner_model(*inner) },
        ),
    decreases variants_model(variants@), 0nat,
{
    let ghost es = variants_model(variants@);
    let ghost segments = texts(path@);
    let ghost value = inner_model(*inner);
    let mut unverifiable = false;
    for i in 0..variants.len()
        invariant
            es == variants_model(variants@),
            segments == texts(path@),
            value == inner_model(*inner),
            forall|k: int|
                0 <= k < i && accepts(#[trigger] es[k], segments) ==> !(variant_outcome(
                    es[k],
                    segments,
                    value,
                ) is Verified),
            unverifiable ==> fares_somewhere(es, segments, value, OutcomeModel::Unverifiable),
            !unverifiable ==> forall|k: int|
                0 <= k < i && accepts(#[trigger] es[k], segments) ==> !(variant_outcome(
                    es[k],
                    segments,
                    value,
                ) is Unverifiable),
    {
        proof {
            assert(es[i as int] == variants@[i as int]@);
            assert(decreases_to!(es => es[i as int]));
        }
        if variants[i].accepts_path(path.as_slice()) {
            match compare_variant(&variants[i], path, inner) {
                Outcome::Verified => {
                    assert(fares_somewhere(es, segments, value, OutcomeModel::Verified));
                    return Outcome::Verified;
                },
                Outcome::Unverifiable => {
                    unverifiable = true;
                },
                Outcome::Violation(_) => {},
            }
        }
    }
    assert(!fares_somewhere(es, segments, value, OutcomeModel::Verified));
    if unverifiable {
        return Outcome::Unverifiable;
    }
    assert(!fares_somewhere(es, segments, value, OutcomeModel::Unverifiable));
    let at = find_accepting(variants, path);
    if at == variants.len() {
        return Outcome::Violation(
            around("unexpected variant '", joined(path, "::").as_str(), "'"),
        );
    }
    proof {
        assert(es[at as int] == variants@[at as int]@);
        assert(decreases_to!(es => es[at as int]));
    }
    compare_variant(&variants[at], path, inner)
}

// ---------------------------------------------------------------------------
// The return sites of a function.
// ---------------------------------------------------------------------------

/// Whether a contract admits that `?` leaves the function, which it can do
/// with `None` or `Err(..)` alone: it declares such a variant, or a whole
/// `Option` or `Result`.
pub open spec fn admits_propagation(expected: TypeModel) -> bool
    decreases expected,
{
    match expected {
        TypeModel::Enum(variants) => exists|i: int|
            0 <= i < variants.len() && is_error_variant(#[trigger] variants[i]),
        TypeModel::Nullable(inner) => admits_propagation(*inner),
        _ => false,
    }
}

/// The value that is returned at a return site.
pub open spec fn site_value(site: SiteModel) -> LiteralModel {
    match site {
        SiteModel::ObjectLiteral(fields) => LiteralModel::Object(fields),
        SiteModel::PrimitiveLiteral(value) => value,
        SiteModel::EnumLiteral { path, inner } => LiteralModel::Enum { path, inner },
        SiteModel::Unit => LiteralModel::Unit,
        SiteModel::ResolvedCall { name, type_def } => LiteralModel::ResolvedCall {
            name,
            type_def,
        },
        SiteModel::TryPropagation { line } => LiteralModel::Dynamic(ReasonModel::TryPropagation),
        SiteModel::Dynamic(reason) => LiteralModel::Dynamic(reason),
    }
}

/// How a return site fares against the declared return type.
pub open spec fn site_outcome(expected: TypeModel, site: SiteModel) -> OutcomeModel {
    match site {
        SiteModel::TryPropagation { line } => if admits_propagation(expected) {
            OutcomeModel::Unverifiable
        } else {
            OutcomeModel::Violation(
                "the `?` operator (line "@ + decimal(line)
                    + ") may exit the function early with a None/Err value the contract does not admit"@,
            )
        },
        _ => outcome(expected, site_value(site)),
    }
}

/// The violation at a return site.
pub open spec fn site_violation(expected: TypeModel, site: SiteModel) -> ViolationModel {
    ViolationModel { site, expected, actual: site_outcome(expected, site)->Violation_0 }
}

/// The return sites sorted by how they fare, each list in the order of the
/// sites.
pub open spec fn checked(sites: Seq<SiteModel>, expected: TypeModel) -> StaticModel {
    StaticModel {
        verified: sites.filter(|site: SiteModel| site_outcome(expected, site) is Verified),
        unverifiable: sites.filter(|site: SiteModel| site_outcome(expected, site) is Unverifiable),
        violations: sites.filter(
            |site: SiteModel| site_outcome(expected, site) is Violation,
        ).map_values(|site: SiteModel| site_violation(expected, site)),
    }
}

/// Whether one of the alternatives is one that `?` propagates.
fn any_propagates(variants: &Vec<EnumVariant>) -> (r: bool)
    ensures
        r == (exists|i: int|
            0 <= i < variants_model(variants@).len() && is_error_variant(
                #[trigger] variants_model(variants@)[i],
            )),
{
    for i in 0..variants.len()
        invariant
            forall|j: int|
                0 <= j < i ==> !is_error_variant(#[trigger] variants_model(variants@)[j]),
    {
        assert(variants_model(variants@)[i as int] == variants@[i as int]@);
        if propagates(&variants[i]) {
            return true;
        }
    }
    false
}

/// Whether a contract admits that `?` leaves the function.
pub fn admits_try_propagation(expected: &TypeDef) -> (r: bool)
    ensures
        r == admits_propagation(expected@),
    decreases expected,
{
    match expected {
        TypeDef::Enum(variants) => {
            assert(expected@->Enum_0 == variants_model(variants@));
            any_propagates(variants)
        },
        TypeDef::Nullable(inner) => admits_try_propagation(inner),
        _ => false,
    }
}

fn site_as_literal(site: &ReturnSite) -> (r: LiteralValue)
    ensures
        r@ == site_value(site@),
{
    match site.clone() {
        ReturnSite::ObjectLiteral(fields) => LiteralValue::Object(fields),
        ReturnSite::PrimitiveLiteral(value) => value,
        ReturnSite::EnumLiteral { path, inner } => LiteralValue::Enum { path, inner },
        ReturnSite::Unit => LiteralValue::Unit,
        ReturnSite::ResolvedCall { name, type_def } => LiteralValue::ResolvedCall {
            name,
            type_def,
        },
        ReturnSite::TryPropagation { line: _ } => LiteralValue::Dynamic(
            DynamicReason::TryPropagation,
        ),
        ReturnSite::Dynamic(reason) => LiteralValue::Dynamic(reason),
    }
}

/// Compares a return site with the declared return type.
fn compare_site(expected: &TypeDef, site: &ReturnSite) -> (r: Outcome)
    ensures
        r@ == site_outcome(expected@, site@),
{
    if let ReturnSite::TryPropagation { line } = site {
        // What propagates is unknown, but it is `None` or `Err(..)`.
        if admits_try_propagation(expected) {
            return Outcome::Unverifiable;
        }
        let mut out = "the `?` operator (line ".to_owned();
        push_decimal(&mut out, *line);
        out.append(
            ") may exit the function early with a None/Err value the contract does not admit",
        );
        return Outcome::Violation(out);
    }
    compare(expected, &site_as_literal(site))
}

/// The filtered elements up to `i` and the one at `i`.
proof fn lemma_filter_step<T>(s: Seq<T>, keep: spec_fn(T) -> bool, i: int)
    requires
        0 <= i < s.len(),
    ensures
        s.take(i + 1).filter(keep) == (if keep(s[i]) {
            s.take(i).filter(keep).push(s[i])
        } else {
            s.take(i).filter(keep)
        }),
{
    reveal(Seq::filter);
    assert(s.take(i + 1).drop_last() =~= s.take(i));
}

/// Sorts the return sites of a function by how they fare against its
/// contract.
pub fn check(sites: &[ReturnSite], contract: &Contract) -> (r: StaticCheckResult)
    ensures
        r@ == checked(sites_model(sites@), contract@.return_type),
{
    let mut result = StaticCheckResult::default();
    let ghost models = sites_model(sites@);
    let ghost expected = contract@.return_type;
    let ghost is_verified = |site: SiteModel| site_outcome(expected, site) is Verified;
    let ghost is_unverifiable = |site: SiteModel| site_outcome(expected, site) is Unverifiable;
    let ghost is_violation = |site: SiteModel| site_outcome(expected, site) is Violation;
    let ghost to_violation = |site: SiteModel| site_violation(expected, site);
    proof {
        reveal(Seq::filter);
        assert(models.take(0) =~= Seq::<SiteModel>::empty());
    }
    for i in 0..sites.len()
        invariant
            models == sites_model(sites@),
            expected == contract@.return_type,
            is_verified == (|site: SiteModel| site_outcome(expected, site) is Verified),
            is_unverifiable == (|site: SiteModel| site_outcome(expected, site) is Unverifiable),
            is_violation == (|site: SiteModel| site_outcome(expected, site) is Violation),
            to_violation == (|site: SiteModel| site_violation(expected, site)),
            sites_model(result.verified@) =~= models.take(i as int).filter(is_verified),
            sites_model(result.unverifiable@) =~= models.take(i as int).filter(is_unverifiable),
            violations_model(result.violations@) =~= models.take(i as int).filter(
                is_violation,
            ).map_values(to_violation),
    {
        proof {
            assert(models[i as int] == sites@[i as int]@);
            lemma_filter_step(models, is_verified, i as int);
            lemma_filter_step(models, is_unverifiable, i as int);
            lemma_filter_step(models, is_violation, i as int);
        }
        match compare_site(&contract.return_type, &sites[i]) {
            Outcome::Verified => result.verified.push(sites[i].clone()),
            Outcome::Unverifiable => result.unverifiable.push(sites[i].clone()),
            Outcome::Violation(actual) => {
                let ghost before = violations_model(result.violations@);
                let violation = Violation {
                    site: sites[i].clone(),
                    expected: contract.return_type.clone(),
                    actual,
                };
                assert(violation@ == to_violation(models[i as int]));
                result.violations.push(violation);
                assert(violations_model(result.violations@) =~= before.push(
                    to_violation(models[i as int]),
                ));
                assert(models.take(i as int).filter(is_violation).push(
                    models[i as int],
                ).map_values(to_violation) =~= before.push(to_violation(models[i as int])));
            },
        }
    }
    assert(models.take(models.len() as int) =~= models);
    result
}

} // verus!
