//! How return sites fare against the declared return type.

use vstd::prelude::*;

use crate::ast_analyzer::is_error_variant;
use crate::laws::compatibility::enum_alone;
use crate::report::{LiteralModel, ReasonModel, SiteModel, ViolationModel};
use crate::static_checker::{
    accepting_position, admits_propagation, agrees, checked, fares_somewhere, field_position,
    fields_fault, fields_outcome, is_allowed, is_supplied, items_outcome, outcome, site_outcome,
    site_violation, type_fault, variant_outcome, variants_fault, OutcomeModel,
};
use crate::types::{accepts, first_of, PrimitiveType, TypeModel, VariantModel};

verus! {

// ---------------------------------------------------------------------------
// All return sites.
// ---------------------------------------------------------------------------

proof fn lemma_three_filters<A>(
    s: Seq<A>,
    first: spec_fn(A) -> bool,
    second: spec_fn(A) -> bool,
    third: spec_fn(A) -> bool,
)
    requires
        forall|i: int|
            0 <= i < s.len() ==> {
                ||| first(#[trigger] s[i]) && !second(s[i]) && !third(s[i])
                ||| !first(s[i]) && second(s[i]) && !third(s[i])
                ||| !first(s[i]) && !second(s[i]) && third(s[i])
            },
    ensures
        s.filter(first).len() + s.filter(second).len() + s.filter(third).len() == s.len(),
    decreases s.len(),
{
    reveal(Seq::filter);
    if s.len() > 0 {
        let front = s.drop_last();
        assert(forall|i: int| 0 <= i < front.len() ==> front[i] == s[i]);
        lemma_three_filters(front, first, second, third);
        assert(s.last() == s[s.len() - 1]);
    }
}

/// Each return site is verified, unverifiable or a violation, and only one of
/// them: the three lists hold the sites with that outcome, as many as there
/// are sites in all.
pub proof fn each_site_is_judged_once(sites: Seq<SiteModel>, expected: TypeModel)
    ensures
        checked(sites, expected).verified.len() + checked(sites, expected).unverifiable.len()
            + checked(sites, expected).violations.len() == sites.len(),
        forall|i: int|
            0 <= i < sites.len() ==> match site_outcome(expected, #[trigger] sites[i]) {
                OutcomeModel::Verified => checked(sites, expected).verified.contains(sites[i]),
                OutcomeModel::Unverifiable => checked(sites, expected).unverifiable.contains(
                    sites[i],
                ),
                OutcomeModel::Violation(actual) => checked(sites, expected).violations.contains(
                    ViolationModel { site: sites[i], expected, actual },
                ),
            },
{
    let verified = |site: SiteModel| site_outcome(expected, site) is Verified;
    let unverifiable = |site: SiteModel| site_outcome(expected, site) is Unverifiable;
    let violation = |site: SiteModel| site_outcome(expected, site) is Violation;
    lemma_three_filters(sites, verified, unverifiable, violation);
    broadcast use Seq::lemma_filter_contains;

    assert forall|i: int| 0 <= i < sites.len() implies match site_outcome(
        expected,
        #[trigger] sites[i],
    ) {
        OutcomeModel::Verified => checked(sites, expected).verified.contains(sites[i]),
        OutcomeModel::Unverifiable => checked(sites, expected).unverifiable.contains(sites[i]),
        OutcomeModel::Violation(actual) => checked(sites, expected).violations.contains(
            ViolationModel { site: sites[i], expected, actual },
        ),
    } by {
        let site = sites[i];
        match site_outcome(expected, site) {
            OutcomeModel::Verified => assert(verified(site)),
            OutcomeModel::Unverifiable => assert(unverifiable(site)),
            OutcomeModel::Violation(actual) => {
                assert(violation(site));
                let broken = sites.filter(violation);
                assert(broken.contains(site));
                let j = choose|j: int| 0 <= j < broken.len() && broken[j] == site;
                let violations = checked(sites, expected).violations;
                assert(violations[j] == site_violation(expected, site));
                assert(violations[j] == (ViolationModel { site, expected, actual }));
            },
        }
    }
}

/// The lists hold sites of that outcome alone.
pub proof fn judged_sites_are_sites(sites: Seq<SiteModel>, expected: TypeModel)
    ensures
        forall|i: int|
            0 <= i < checked(sites, expected).verified.len() ==> site_outcome(
                expected,
                #[trigger] checked(sites, expected).verified[i],
            ) is Verified,
        forall|i: int|
            0 <= i < checked(sites, expected).unverifiable.len() ==> site_outcome(
                expected,
                #[trigger] checked(sites, expected).unverifiable[i],
            ) is Unverifiable,
        forall|i: int|
            0 <= i < checked(sites, expected).violations.len() ==> {
                let v = #[trigger] checked(sites, expected).violations[i];
                v.expected == expected && site_outcome(expected, v.site)
                    == OutcomeModel::Violation(v.actual)
            },
{
    broadcast use Seq::lemma_filter_pred;

    let violation = |site: SiteModel| site_outcome(expected, site) is Violation;
    let broken = sites.filter(violation);
    assert forall|i: int| 0 <= i < checked(sites, expected).violations.len() implies {
        let v = #[trigger] checked(sites, expected).violations[i];
        v.expected == expected && site_outcome(expected, v.site) == OutcomeModel::Violation(
            v.actual,
        )
    } by {
        assert(violation(broken[i]));
    }
}

/// What cannot be determined statically is unverifiable, and no violation,
/// whatever the contract and the reason.
pub proof fn dynamic_sites_are_unverifiable(expected: TypeModel, reason: ReasonModel)
    ensures
        site_outcome(expected, SiteModel::Dynamic(reason)) is Unverifiable,
{
}

/// `?` on an expression of unknown type is unverifiable where the contract
/// declares an error variant, or a whole `Option` or `Result`, and a
/// violation everywhere else.
pub proof fn unknown_propagation_needs_an_error_variant(expected: TypeModel, line: nat)
    ensures
        site_outcome(expected, SiteModel::TryPropagation { line }) is Unverifiable
            <==> admits_propagation(expected),
        site_outcome(expected, SiteModel::TryPropagation { line }) is Violation
            <==> !admits_propagation(expected),
{
}

// ---------------------------------------------------------------------------
// Objects.
// ---------------------------------------------------------------------------

/// Whether there is a field of the given name.
pub open spec fn has_field<T>(fields: Seq<(Seq<char>, T)>, name: Seq<char>) -> bool {
    exists|i: int| 0 <= i < fields.len() && (#[trigger] fields[i]).0 == name
}

/// The value of the first field of the given name.
pub open spec fn field_value<T>(fields: Seq<(Seq<char>, T)>, name: Seq<char>) -> T {
    fields[field_position(fields, name, 0) as int].1
}

proof fn lemma_field_position<T>(fields: Seq<(Seq<char>, T)>, name: Seq<char>, from: nat)
    requires
        from <= fields.len(),
    ensures
        from <= field_position(fields, name, from) <= fields.len(),
        field_position(fields, name, from) < fields.len() ==> fields[field_position(
            fields,
            name,
            from,
        ) as int].0 == name,
        forall|i: int|
            from <= i < field_position(fields, name, from) ==> (#[trigger] fields[i]).0 != name,
    decreases fields.len() - from,
{
    if from < fields.len() && fields[from as int].0 != name {
        lemma_field_position(fields, name, from + 1);
    }
}

/// How the value of one expected field fares.
pub open spec fn field_outcome(
    field: (Seq<char>, TypeModel),
    values: Seq<(Seq<char>, LiteralModel)>,
) -> OutcomeModel {
    outcome(field.1, field_value(values, field.0))
}

proof fn lemma_fields_outcome(
    fields: Seq<(Seq<char>, TypeModel)>,
    values: Seq<(Seq<char>, LiteralModel)>,
    from: nat,
)
    requires
        from <= fields.len(),
    ensures
        fields_outcome(fields, values, from) is Violation <==> exists|i: int|
            from <= i < fields.len() && (!has_field(values, (#[trigger] fields[i]).0)
                || field_outcome(fields[i], values) is Violation),
        fields_outcome(fields, values, from) is Verified <==> forall|i: int|
            from <= i < fields.len() ==> has_field(values, (#[trigger] fields[i]).0)
                && field_outcome(fields[i], values) is Verified,
    decreases fields.len() - from,
{
    if from < fields.len() {
        let (name, t) = fields[from as int];
        let at = field_position(values, name, 0);
        lemma_field_position(values, name, 0);
        lemma_fields_outcome(fields, values, from + 1);
        assert(has_field(values, name) == (at < values.len())) by {
            if has_field(values, name) {
                let i = choose|i: int| 0 <= i < values.len() && (#[trigger] values[i]).0 == name;
                assert(values[i].0 == name);
            }
        }
        assert(fields[from as int].0 == name);
        if at < values.len() {
            assert(field_outcome(fields[from as int], values) == outcome(t, values[at as int].1));
        }
    }
}

/// An object literal has to have all the fields of the contract, and none of
/// their values may violate it. Only where each of them is verified the whole
/// is: one that is unverifiable makes the whole unverifiable, unless another
/// is a violation.
pub proof fn objects_need_all_fields(
    fields: Seq<(Seq<char>, TypeModel)>,
    values: Seq<(Seq<char>, LiteralModel)>,
)
    ensures
        outcome(TypeModel::Object(fields), LiteralModel::Object(values)) is Violation
            <==> exists|i: int|
            0 <= i < fields.len() && (!has_field(values, (#[trigger] fields[i]).0)
                || field_outcome(fields[i], values) is Violation),
        outcome(TypeModel::Object(fields), LiteralModel::Object(values)) is Verified
            <==> forall|i: int|
            0 <= i < fields.len() ==> has_field(values, (#[trigger] fields[i]).0) && field_outcome(
                fields[i],
                values,
            ) is Verified,
{
    lemma_fields_outcome(fields, values, 0);
}

proof fn lemma_field_before_extra<T>(
    values: Seq<(Seq<char>, T)>,
    extra: (Seq<char>, T),
    name: Seq<char>,
    from: nat,
)
    requires
        extra.0 != name,
        from <= values.len(),
    ensures
        ({
            let at = field_position(values, name, from);
            let longer = field_position(values.push(extra), name, from);
            if at < values.len() {
                longer == at
            } else {
                longer == values.len() + 1
            }
        }),
    decreases values.len() - from,
{
    let longer = values.push(extra);
    if from < values.len() {
        assert(longer[from as int] == values[from as int]);
        if values[from as int].0 != name {
            lemma_field_before_extra(values, extra, name, from + 1);
        }
    } else {
        assert(longer[from as int] == extra);
        assert(field_position(longer, name, from + 1) == longer.len());
    }
}

proof fn lemma_extra_field(
    fields: Seq<(Seq<char>, TypeModel)>,
    values: Seq<(Seq<char>, LiteralModel)>,
    extra: (Seq<char>, LiteralModel),
    from: nat,
)
    requires
        !has_field(fields, extra.0),
        from <= fields.len(),
    ensures
        fields_outcome(fields, values.push(extra), from) == fields_outcome(fields, values, from),
    decreases fields.len() - from,
{
    if from < fields.len() {
        let name = fields[from as int].0;
        lemma_field_before_extra(values, extra, name, 0);
        lemma_field_position(values, name, 0);
        lemma_extra_field(fields, values, extra, from + 1);
        let at = field_position(values, name, 0);
        if at < values.len() {
            assert(values.push(extra)[at as int] == values[at as int]);
        }
    }
}

/// A field that the contract does not name makes no difference.
pub proof fn extra_fields_are_allowed(
    fields: Seq<(Seq<char>, TypeModel)>,
    values: Seq<(Seq<char>, LiteralModel)>,
    extra: (Seq<char>, LiteralModel),
)
    requires
        !has_field(fields, extra.0),
    ensures
        outcome(TypeModel::Object(fields), LiteralModel::Object(values.push(extra))) == outcome(
            TypeModel::Object(fields),
            LiteralModel::Object(values),
        ),
{
    lemma_extra_field(fields, values, extra, 0);
}

// ---------------------------------------------------------------------------
// Lists.
// ---------------------------------------------------------------------------

proof fn lemma_items_outcome(expected: TypeModel, items: Seq<LiteralModel>, from: nat)
    requires
        from <= items.len(),
    ensures
        items_outcome(expected, items, from) is Violation <==> exists|i: int|
            from <= i < items.len() && outcome(expected, #[trigger] items[i]) is Violation,
        items_outcome(expected, items, from) is Verified <==> forall|i: int|
            from <= i < items.len() ==> outcome(expected, #[trigger] items[i]) is Verified,
    decreases items.len() - from,
{
    if from < items.len() {
        lemma_items_outcome(expected, items, from + 1);
        assert(outcome(expected, items[from as int]) == outcome(expected, items[from as int]));
    }
}

/// A list is verified where each of its items is, and a violation where one
/// of them is.
pub proof fn lists_need_all_items(expected: Box<TypeModel>, items: Seq<LiteralModel>)
    ensures
        outcome(TypeModel::List(expected), LiteralModel::List(items)) is Violation <==> exists|
            i: int,
        |
            0 <= i < items.len() && outcome(*expected, #[trigger] items[i]) is Violation,
        outcome(TypeModel::List(expected), LiteralModel::List(items)) is Verified <==> forall|
            i: int,
        |
            0 <= i < items.len() ==> outcome(*expected, #[trigger] items[i]) is Verified,
{
    lemma_items_outcome(*expected, items, 0);
}

/// The empty list is a list of any type.
pub proof fn empty_lists_are_verified(expected: Box<TypeModel>)
    ensures
        outcome(TypeModel::List(expected), LiteralModel::List(Seq::empty())) is Verified,
{
    lists_need_all_items(expected, Seq::empty());
}

// ---------------------------------------------------------------------------
// Primitive types and enums.
// ---------------------------------------------------------------------------

/// Primitive types have to match exactly, also those of a called function.
pub proof fn primitive_types_match_exactly(p: PrimitiveType, q: PrimitiveType, name: Seq<char>)
    ensures
        outcome(
            TypeModel::Primitive(p),
            LiteralModel::ResolvedCall { name, type_def: TypeModel::Primitive(q) },
        ) is Verified <==> p == q,
{
}

proof fn lemma_accepting_position(variants: Seq<VariantModel>, path: Seq<Seq<char>>, from: nat)
    requires
        from <= variants.len(),
    ensures
        from <= accepting_position(variants, path, from) <= variants.len(),
        accepting_position(variants, path, from) == variants.len() <==> forall|i: int|
            from <= i < variants.len() ==> !accepts(#[trigger] variants[i], path),
    decreases variants.len() - from,
{
    if from < variants.len() && !accepts(variants[from as int], path) {
        lemma_accepting_position(variants, path, from + 1);
    }
}

/// A variant is verified exactly if it is against one of the alternatives
/// that accept its path, and a violation exactly if it is one against each of
/// them: it has to be one of the variants that the contract allows, by name
/// and in its value.
pub proof fn variants_have_to_be_allowed(
    variants: Seq<VariantModel>,
    path: Seq<Seq<char>>,
    inner: Option<Box<LiteralModel>>,
)
    ensures
        outcome(TypeModel::Enum(variants), LiteralModel::Enum { path, inner }) is Verified
            <==> exists|i: int|
            0 <= i < variants.len() && accepts(#[trigger] variants[i], path) && variant_outcome(
                variants[i],
                path,
                inner,
            ) is Verified,
        outcome(TypeModel::Enum(variants), LiteralModel::Enum { path, inner }) is Violation
            <==> forall|i: int|
            0 <= i < variants.len() && accepts(#[trigger] variants[i], path) ==> variant_outcome(
                variants[i],
                path,
                inner,
            ) is Violation,
{
    let at = accepting_position(variants, path, 0);
    lemma_accepting_position(variants, path, 0);
    lemma_accepting_found(variants, path, 0);
    let judged = outcome(TypeModel::Enum(variants), LiteralModel::Enum { path, inner });
    let verified = fares_somewhere(variants, path, inner, OutcomeModel::Verified);
    let unverifiable = fares_somewhere(variants, path, inner, OutcomeModel::Unverifiable);
    assert(judged is Verified ==> verified) by {
        if !verified && !unverifiable && at < variants.len() {
            assert(accepts(variants[at as int], path));
        }
    }
    if !verified && !unverifiable {
        assert forall|i: int|
            0 <= i < variants.len() && accepts(#[trigger] variants[i], path) implies
            variant_outcome(variants[i], path, inner) is Violation by {
            assert(variant_outcome(variants[i], path, inner) != OutcomeModel::Verified);
            assert(variant_outcome(variants[i], path, inner) != OutcomeModel::Unverifiable);
        }
    }
}

proof fn lemma_accepting_found(variants: Seq<VariantModel>, path: Seq<Seq<char>>, from: nat)
    ensures
        accepting_position(variants, path, from) < variants.len() ==> accepts(
            variants[accepting_position(variants, path, from) as int],
            path,
        ),
    decreases variants.len() - from,
{
    if from < variants.len() && !accepts(variants[from as int], path) {
        lemma_accepting_found(variants, path, from + 1);
    }
}

/// The name of an enum alone allows any variant of it, whatever its value.
pub proof fn enum_name_allows_its_variants(
    name: Seq<char>,
    path: Seq<Seq<char>>,
    inner: Option<Box<LiteralModel>>,
)
    requires
        first_of(path) == Some(name),
    ensures
        outcome(
            TypeModel::Enum(seq![enum_alone(name)]),
            LiteralModel::Enum { path, inner },
        ) is Verified,
{
    let variants = seq![enum_alone(name)];
    assert(accepts(variants[0], path));
    assert(fares_somewhere(variants, path, inner, OutcomeModel::Verified));
}

proof fn lemma_variants_fault(
    expected: Seq<VariantModel>,
    actual: Seq<VariantModel>,
    from: nat,
)
    requires
        from <= actual.len(),
    ensures
        variants_fault(expected, actual, from) is None <==> forall|j: int|
            from <= j < actual.len() ==> is_allowed(expected, #[trigger] actual[j]),
    decreases actual.len() - from,
{
    if from < actual.len() {
        lemma_variants_fault(expected, actual, from + 1);
        assert(is_allowed(expected, actual[from as int]) == is_allowed(
            expected,
            actual[from as int],
        ));
    }
}

/// What a called function may return has to be a subset of the alternatives
/// that are allowed: there is no fault exactly if each agrees with one of
/// them, by name and in its value.
pub proof fn called_variants_have_to_be_allowed(
    expected: Seq<VariantModel>,
    actual: Seq<VariantModel>,
)
    ensures
        type_fault(TypeModel::Enum(expected), TypeModel::Enum(actual)) is None <==> forall|j: int|
            0 <= j < actual.len() ==> is_allowed(expected, #[trigger] actual[j]),
{
    lemma_variants_fault(expected, actual, 0);
}

proof fn lemma_fields_fault(
    expected: Seq<(Seq<char>, TypeModel)>,
    actual: Seq<(Seq<char>, TypeModel)>,
    from: nat,
)
    requires
        from <= expected.len(),
    ensures
        fields_fault(expected, actual, from) is None <==> forall|i: int|
            from <= i < expected.len() ==> is_supplied(#[trigger] expected[i], actual),
    decreases expected.len() - from,
{
    if from < expected.len() {
        lemma_fields_fault(expected, actual, from + 1);
        assert(is_supplied(expected[from as int], actual) == is_supplied(
            expected[from as int],
            actual,
        ));
    }
}

/// The object that a called function returns has to have all fields of the
/// contract with a type that is right: there is no fault exactly if each is
/// supplied.
pub proof fn called_objects_need_all_fields(
    expected: Seq<(Seq<char>, TypeModel)>,
    actual: Seq<(Seq<char>, TypeModel)>,
)
    ensures
        type_fault(TypeModel::Object(expected), TypeModel::Object(actual)) is None <==> forall|
            i: int,
        |
            0 <= i < expected.len() ==> is_supplied(#[trigger] expected[i], actual),
{
    lemma_fields_fault(expected, actual, 0);
}

// ---------------------------------------------------------------------------
// The same type on both sides.
// ---------------------------------------------------------------------------

/// A called function that declares the expected type is right.
pub proof fn same_type_is_no_fault(t: TypeModel)
    ensures
        type_fault(t, t) is None,
    decreases t,
{
    match t {
        TypeModel::Nullable(inner) => same_type_is_no_fault(*inner),
        TypeModel::List(inner) => same_type_is_no_fault(*inner),
        TypeModel::Object(fields) => {
            assert forall|i: int| 0 <= i < fields.len() implies is_supplied(
                #[trigger] fields[i],
                fields,
            ) by {
                assert(decreases_to!(fields => fields[i]));
                same_type_is_no_fault(fields[i].1);
            }
            lemma_fields_fault(fields, fields, 0);
        },
        TypeModel::Enum(variants) => {
            assert forall|j: int| 0 <= j < variants.len() implies is_allowed(
                variants,
                #[trigger] variants[j],
            ) by {
                let v = variants[j];
                assert(decreases_to!(variants => variants[j]));
                if let Some(inner) = v.inner {
                    assert(decreases_to!(v => v.inner));
                    assert(decreases_to!(v.inner => v.inner->Some_0));
                    same_type_is_no_fault(*inner);
                }
                assert(agrees(variants[j], v));
            }
            lemma_variants_fault(variants, variants, 0);
        },
        _ => {},
    }
}

// ---------------------------------------------------------------------------
// Each kind of type, by the values and types that it takes.
// ---------------------------------------------------------------------------

/// Whether a value is written out in the script: neither unknown nor the
/// result of a called function.
pub open spec fn is_written_out(value: LiteralModel) -> bool {
    !(value is Dynamic) && !(value is ResolvedCall)
}

/// A literal is verified against a primitive type exactly if it is of that
/// kind: a string against `String`, an integer against `int`, a number with a
/// fraction against `float`, a truth value against `bool`, and none against
/// `bytes`. Any other one is a violation.
pub proof fn literals_match_primitive_types(value: LiteralModel)
    requires
        is_written_out(value),
    ensures
        outcome(TypeModel::Primitive(PrimitiveType::String), value) is Verified
            <==> value is String,
        outcome(TypeModel::Primitive(PrimitiveType::Int), value) is Verified <==> value is Int,
        outcome(TypeModel::Primitive(PrimitiveType::Float), value) is Verified <==> value is Float,
        outcome(TypeModel::Primitive(PrimitiveType::Bool), value) is Verified <==> value is Bool,
        !(outcome(TypeModel::Primitive(PrimitiveType::Bytes), value) is Verified),
        forall|p: PrimitiveType|
            !(#[trigger] outcome(TypeModel::Primitive(p), value) is Unverifiable),
{
}

/// Of the literals only `()` is the unit, a nullable type takes it besides
/// what its inner type takes, and lists, objects and variants are taken only
/// by types of their kind.
pub proof fn literals_match_types_of_their_kind(
    value: LiteralModel,
    inner: TypeModel,
    fields: Seq<(Seq<char>, TypeModel)>,
    variants: Seq<VariantModel>,
)
    requires
        is_written_out(value),
    ensures
        outcome(TypeModel::Unit, value) is Verified <==> value is Unit,
        outcome(TypeModel::Unit, value) is Violation <==> !(value is Unit),
        value is Unit ==> outcome(TypeModel::Nullable(Box::new(inner)), value) is Verified,
        !(value is Unit) ==> outcome(TypeModel::Nullable(Box::new(inner)), value) == outcome(
            inner,
            value,
        ),
        !(value is List) ==> outcome(TypeModel::List(Box::new(inner)), value) is Violation,
        !(value is Object) ==> outcome(TypeModel::Object(fields), value) is Violation,
        !(value is Enum) ==> outcome(TypeModel::Enum(variants), value) is Violation,
{
}

/// The result of a called function is never unverifiable: it is verified
/// exactly if its declared type is right.
pub proof fn calls_are_judged_by_their_type(
    expected: TypeModel,
    name: Seq<char>,
    type_def: TypeModel,
)
    ensures
        outcome(expected, LiteralModel::ResolvedCall { name, type_def }) is Verified
            <==> type_fault(expected, type_def) is None,
        outcome(expected, LiteralModel::ResolvedCall { name, type_def }) is Violation
            <==> type_fault(expected, type_def) is Some,
{
}

/// A declared type is right for a primitive type, the unit or a list exactly
/// if it is the same, or a list whose items are right. One of another kind is
/// never right.
pub proof fn declared_types_match_by_kind(p: PrimitiveType, e: TypeModel, a: TypeModel)
    requires
        !(a is Nullable),
    ensures
        type_fault(TypeModel::Primitive(p), a) is None <==> a == TypeModel::Primitive(p),
        type_fault(TypeModel::Unit, a) is None <==> a is Unit,
        type_fault(TypeModel::List(Box::new(e)), a) is None <==> a is List && type_fault(
            e,
            *a->List_0,
        ) is None,
        e is Object && !(a is Object) ==> type_fault(e, a) is Some,
        e is Enum && !(a is Enum) ==> type_fault(e, a) is Some,
{
}

/// A nullable type takes the unit and what its inner type takes; that the
/// declared type may be the unit as well is passed over.
pub proof fn nullable_types_go_by_their_inner_type(e: TypeModel, a: TypeModel)
    ensures
        type_fault(TypeModel::Nullable(Box::new(e)), TypeModel::Unit) is None,
        type_fault(
            TypeModel::Nullable(Box::new(e)),
            TypeModel::Nullable(Box::new(a)),
        ) == type_fault(e, a),
        !(a is Unit) && !(a is Nullable) ==> type_fault(TypeModel::Nullable(Box::new(e)), a)
            == type_fault(e, a),
        !(e is Nullable) ==> type_fault(e, TypeModel::Nullable(Box::new(a))) == type_fault(e, a),
{
}

/// A variant of a called function is allowed by another one exactly if their
/// paths end in the same name, and either none has a value or that of the
/// first is right for the other. The name of an enum alone allows, and is
/// allowed by, whatever belongs to it.
pub proof fn variants_allow_by_name_and_value(e: VariantModel, a: VariantModel)
    requires
        e.path.len() > 0,
        a.path.len() > 0,
    ensures
        agrees(e, a) <==> if (e.path.len() == 1 && e.inner is None) || (a.path.len() == 1
            && a.inner is None) {
            e.path[0] == a.path[0]
        } else {
            &&& e.path[e.path.len() - 1] == a.path[a.path.len() - 1]
            &&& e.inner is Some <==> a.inner is Some
            &&& e.inner is Some ==> type_fault(*e.inner->Some_0, *a.inner->Some_0) is None
        },
{
}

/// A field of a called object is supplied exactly if one of its name is right.
pub proof fn fields_are_supplied_by_name_and_type(
    name: Seq<char>,
    t: TypeModel,
    actual: Seq<(Seq<char>, TypeModel)>,
)
    ensures
        is_supplied((name, t), actual) <==> exists|j: int|
            0 <= j < actual.len() && (#[trigger] actual[j]).0 == name && type_fault(
                t,
                actual[j].1,
            ) is None,
{
}

/// An alternative is one of those that agree exactly if there is one.
pub proof fn alternatives_are_allowed_by_one(expected: Seq<VariantModel>, actual: VariantModel)
    ensures
        is_allowed(expected, actual) <==> exists|i: int|
            0 <= i < expected.len() && agrees(#[trigger] expected[i], actual),
{
}

/// How a variant literal fares against one alternative: the name of an enum
/// alone takes any value; another alternative takes none where it has none,
/// and otherwise what its value takes.
pub proof fn variant_values_match(
    v: VariantModel,
    path: Seq<Seq<char>>,
    inner: Option<Box<LiteralModel>>,
)
    ensures
        v.path.len() == 1 && v.inner is None ==> variant_outcome(v, path, inner) is Verified,
        v.path.len() != 1 && v.inner is None ==> (variant_outcome(v, path, inner) is Verified
            <==> inner is None),
        v.inner is None || inner is None ==> !(variant_outcome(v, path, inner) is Unverifiable),
        v.inner is Some && inner is None ==> variant_outcome(v, path, inner) is Violation,
        v.inner is Some && inner is Some ==> variant_outcome(v, path, inner) == outcome(
            *v.inner->Some_0,
            *inner->Some_0,
        ),
{
}

/// A contract admits what `?` propagates exactly if one of its alternatives
/// ends in `Err` or `None`, or is the name of `Result` or `Option` alone; that
/// it may be `()` as well makes no difference.
pub proof fn admitting_contracts_name_an_error(variants: Seq<VariantModel>, t: TypeModel)
    requires
        forall|i: int| 0 <= i < variants.len() ==> (#[trigger] variants[i]).path.len() > 0,
    ensures
        admits_propagation(TypeModel::Enum(variants)) <==> exists|i: int|
            0 <= i < variants.len() && names_an_error(#[trigger] variants[i]),
        admits_propagation(TypeModel::Nullable(Box::new(t))) == admits_propagation(t),
        !(t is Enum) && !(t is Nullable) ==> !admits_propagation(t),
{
    let e = TypeModel::Enum(variants);
    assert(e->Enum_0 == variants);
    assert forall|i: int| 0 <= i < variants.len() implies is_error_variant(#[trigger] variants[i])
        == names_an_error(variants[i]) by {
        assert(variants[i].path.len() > 0);
    }
}

/// Whether an alternative ends in `Err` or `None`, or is the name of `Result`
/// or `Option` alone.
pub open spec fn names_an_error(v: VariantModel) -> bool {
    if v.path.len() == 1 && v.inner is None {
        v.path[0] == "Result"@ || v.path[0] == "Option"@
    } else {
        v.path[v.path.len() - 1] == "Err"@ || v.path[v.path.len() - 1] == "None"@
    }
}

/// A return site is judged by the value that is returned there.
pub proof fn sites_are_judged_by_their_value(
    expected: TypeModel,
    value: LiteralModel,
    fields: Seq<(Seq<char>, LiteralModel)>,
    path: Seq<Seq<char>>,
    inner: Option<Box<LiteralModel>>,
    name: Seq<char>,
    type_def: TypeModel,
)
    ensures
        site_outcome(expected, SiteModel::PrimitiveLiteral(value)) == outcome(expected, value),
        site_outcome(expected, SiteModel::ObjectLiteral(fields)) == outcome(
            expected,
            LiteralModel::Object(fields),
        ),
        site_outcome(expected, SiteModel::EnumLiteral { path, inner }) == outcome(
            expected,
            LiteralModel::Enum { path, inner },
        ),
        site_outcome(expected, SiteModel::Unit) == outcome(expected, LiteralModel::Unit),
        site_outcome(expected, SiteModel::ResolvedCall { name, type_def }) == outcome(
            expected,
            LiteralModel::ResolvedCall { name, type_def },
        ),
{
}

/// Of the fields of one name the first one counts.
pub proof fn first_fields_count<T>(fields: Seq<(Seq<char>, T)>, at: int)
    requires
        0 <= at < fields.len(),
        forall|i: int| 0 <= i < at ==> (#[trigger] fields[i]).0 != fields[at].0,
    ensures
        field_value(fields, fields[at].0) == fields[at].1,
{
    let p = field_position(fields, fields[at].0, 0);
    lemma_field_position(fields, fields[at].0, 0);
    if p < at {
        assert(fields[p as int].0 != fields[at].0);
    }
}

} // verus!
