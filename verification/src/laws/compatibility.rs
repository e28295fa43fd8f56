//! Compatibility of declared types.

use vstd::prelude::*;

use crate::types::{
    accepts, bare_enum_name, compatible, field_covered, field_matched, first_of, last_of, same_name,
    variant_compatible, variant_covered, variant_matched, PrimitiveType, TypeModel, VariantModel,
};

verus! {

/// Each type is compatible with itself.
pub proof fn compatibility_is_reflexive(t: TypeModel)
    ensures
        compatible(t, t),
    decreases t,
{
    match t {
        TypeModel::Nullable(inner) => compatibility_is_reflexive(*inner),
        TypeModel::List(inner) => compatibility_is_reflexive(*inner),
        TypeModel::Object(fields) => {
            assert forall|i: int| 0 <= i < fields.len() implies field_matched(
                #[trigger] fields[i],
                fields,
            ) && field_covered(fields, fields[i]) by {
                compatibility_is_reflexive(fields[i].1);
            }
        },
        TypeModel::Enum(variants) => {
            assert forall|i: int| 0 <= i < variants.len() implies variant_matched(
                #[trigger] variants[i],
                variants,
            ) && variant_covered(variants, variants[i]) by {
                variant_compatibility_is_reflexive(variants[i]);
            }
        },
        _ => {},
    }
}

/// Each alternative is compatible with itself.
pub proof fn variant_compatibility_is_reflexive(v: VariantModel)
    ensures
        variant_compatible(v, v),
    decreases v,
{
    if let Some(inner) = v.inner {
        compatibility_is_reflexive(*inner);
    }
}

/// Two alternatives agree by name in one order if they do in the other.
pub proof fn names_agree_symmetrically(a: VariantModel, b: VariantModel)
    ensures
        same_name(a, b) == same_name(b, a),
{
}

/// Compatibility is symmetric.
pub proof fn compatibility_is_symmetric(a: TypeModel, b: TypeModel)
    ensures
        compatible(a, b) == compatible(b, a),
{
    if compatible(a, b) {
        lemma_compatible_flips(a, b);
    }
    if compatible(b, a) {
        lemma_compatible_flips(b, a);
    }
}

/// Compatibility of alternatives is symmetric.
pub proof fn variant_compatibility_is_symmetric(a: VariantModel, b: VariantModel)
    ensures
        variant_compatible(a, b) == variant_compatible(b, a),
{
    if let (Some(x), Some(y)) = (a.inner, b.inner) {
        compatibility_is_symmetric(*x, *y);
    }
}

proof fn lemma_compatible_flips(a: TypeModel, b: TypeModel)
    requires
        compatible(a, b),
    ensures
        compatible(b, a),
    decreases a,
{
    match (a, b) {
        (TypeModel::Nullable(x), TypeModel::Nullable(y)) => lemma_compatible_flips(*x, *y),
        (TypeModel::List(x), TypeModel::List(y)) => lemma_compatible_flips(*x, *y),
        (TypeModel::Object(xs), TypeModel::Object(ys)) => {
            assert forall|j: int| 0 <= j < ys.len() implies field_matched(#[trigger] ys[j], xs) by {
                assert(field_covered(xs, ys[j]));
                let i = choose|i: int|
                    0 <= i < xs.len() && (#[trigger] xs[i]).0 == ys[j].0 && compatible(
                        xs[i].1,
                        ys[j].1,
                    );
                lemma_compatible_flips(xs[i].1, ys[j].1);
                assert(xs[i].0 == ys[j].0);
            }
            assert forall|i: int| 0 <= i < xs.len() implies field_covered(ys, #[trigger] xs[i]) by {
                assert(field_matched(xs[i], ys));
                let j = choose|j: int|
                    0 <= j < ys.len() && (#[trigger] ys[j]).0 == xs[i].0 && compatible(
                        xs[i].1,
                        ys[j].1,
                    );
                lemma_compatible_flips(xs[i].1, ys[j].1);
                assert(ys[j].0 == xs[i].0);
            }
        },
        (TypeModel::Enum(xs), TypeModel::Enum(ys)) => {
            assert forall|j: int| 0 <= j < ys.len() implies variant_matched(
                #[trigger] ys[j],
                xs,
            ) by {
                assert(variant_covered(xs, ys[j]));
                let i = choose|i: int|
                    0 <= i < xs.len() && variant_compatible(#[trigger] xs[i], ys[j]);
                lemma_variant_compatible_flips(xs[i], ys[j]);
                assert(variant_compatible(ys[j], xs[i]));
            }
            assert forall|i: int| 0 <= i < xs.len() implies variant_covered(
                ys,
                #[trigger] xs[i],
            ) by {
                assert(variant_matched(xs[i], ys));
                let j = choose|j: int|
                    0 <= j < ys.len() && variant_compatible(xs[i], #[trigger] ys[j]);
                lemma_variant_compatible_flips(xs[i], ys[j]);
                assert(variant_compatible(ys[j], xs[i]));
            }
        },
        _ => {},
    }
}

proof fn lemma_variant_compatible_flips(a: VariantModel, b: VariantModel)
    requires
        variant_compatible(a, b),
    ensures
        variant_compatible(b, a),
    decreases a,
{
    if !bare_enum_name(a) && !bare_enum_name(b) {
        if let (Some(x), Some(y)) = (a.inner, b.inner) {
            lemma_compatible_flips(*x, *y);
        }
    }
}

/// The name of an enum alone.
pub open spec fn enum_alone(name: Seq<char>) -> VariantModel {
    VariantModel { path: seq![name], inner: None }
}

/// The name of an enum alone is compatible with any union of its variants,
/// and the other way round.
pub proof fn enum_name_is_compatible_with_its_variants(
    name: Seq<char>,
    variants: Seq<VariantModel>,
)
    requires
        variants.len() > 0,
        forall|i: int|
            0 <= i < variants.len() ==> first_of((#[trigger] variants[i]).path) == Some(name),
    ensures
        compatible(TypeModel::Enum(seq![enum_alone(name)]), TypeModel::Enum(variants)),
        compatible(TypeModel::Enum(variants), TypeModel::Enum(seq![enum_alone(name)])),
{
    let alone = seq![enum_alone(name)];
    let a = TypeModel::Enum(alone);
    let b = TypeModel::Enum(variants);
    assert(a->Enum_0 == alone && b->Enum_0 == variants);
    assert(alone[0] == enum_alone(name));
    assert(first_of(alone[0].path) == Some(name));
    assert forall|i: int| 0 <= i < variants.len() implies variant_compatible(
        #[trigger] variants[i],
        alone[0],
    ) && variant_compatible(alone[0], variants[i]) by {
        assert(same_name(variants[i], alone[0]));
    }
    assert(variant_matched(alone[0], variants)) by {
        assert(variant_compatible(alone[0], variants[0]));
    }
    assert(variant_covered(variants, alone[0])) by {
        assert(variant_compatible(variants[0], alone[0]));
    }
    assert forall|i: int| 0 <= i < variants.len() implies variant_matched(
        #[trigger] variants[i],
        alone,
    ) && variant_covered(alone, variants[i]) by {
        assert(variant_compatible(variants[i], alone[0]));
        assert(variant_compatible(alone[0], variants[i]));
    }
}

/// The name of an enum alone is compatible with no alternative of another
/// enum.
pub proof fn enum_name_is_incompatible_with_other_enums(
    name: Seq<char>,
    variants: Seq<VariantModel>,
    at: int,
)
    requires
        0 <= at < variants.len(),
        first_of(variants[at].path) != Some(name),
    ensures
        !compatible(TypeModel::Enum(seq![enum_alone(name)]), TypeModel::Enum(variants)),
        !compatible(TypeModel::Enum(variants), TypeModel::Enum(seq![enum_alone(name)])),
{
    let alone = seq![enum_alone(name)];
    let a = TypeModel::Enum(alone);
    let b = TypeModel::Enum(variants);
    assert(a->Enum_0 == alone && b->Enum_0 == variants);
    assert(bare_enum_name(alone[0]));
    assert(!variant_covered(alone, variants[at]));
    assert(!variant_matched(variants[at], alone));
}

// ---------------------------------------------------------------------------
// What compatibility tells apart.
// ---------------------------------------------------------------------------

/// Two primitive types are compatible exactly if they are the same, two lists
/// exactly if their items are, and two nullable types exactly if what they are
/// besides `()` is.
pub proof fn compatibility_goes_by_the_parts(
    p: PrimitiveType,
    q: PrimitiveType,
    x: TypeModel,
    y: TypeModel,
)
    ensures
        compatible(TypeModel::Primitive(p), TypeModel::Primitive(q)) <==> p == q,
        compatible(TypeModel::List(Box::new(x)), TypeModel::List(Box::new(y))) <==> compatible(
            x,
            y,
        ),
        compatible(TypeModel::Nullable(Box::new(x)), TypeModel::Nullable(Box::new(y)))
            <==> compatible(x, y),
        compatible(TypeModel::Unit, TypeModel::Unit),
{
}

/// Types of different kinds are never compatible.
pub proof fn kinds_are_told_apart(a: TypeModel, b: TypeModel)
    requires
        compatible(a, b),
    ensures
        a is Primitive <==> b is Primitive,
        a is Object <==> b is Object,
        a is Enum <==> b is Enum,
        a is Nullable <==> b is Nullable,
        a is List <==> b is List,
        a is Unit <==> b is Unit,
{
}

/// Whether a field has one of its name and a compatible type among others.
pub open spec fn has_field_like(
    fields: Seq<(Seq<char>, TypeModel)>,
    name: Seq<char>,
    t: TypeModel,
) -> bool {
    exists|j: int|
        0 <= j < fields.len() && (#[trigger] fields[j]).0 == name && compatible(t, fields[j].1)
}

/// Two objects are compatible exactly if they have as many fields, and each
/// field of either has one of its name and a compatible type in the other.
pub proof fn objects_go_by_their_fields(
    xs: Seq<(Seq<char>, TypeModel)>,
    ys: Seq<(Seq<char>, TypeModel)>,
)
    ensures
        compatible(TypeModel::Object(xs), TypeModel::Object(ys)) <==> {
            &&& xs.len() == ys.len()
            &&& forall|i: int|
                0 <= i < xs.len() ==> has_field_like(ys, (#[trigger] xs[i]).0, xs[i].1)
            &&& forall|j: int|
                0 <= j < ys.len() ==> has_field_like(xs, (#[trigger] ys[j]).0, ys[j].1)
        },
{
    assert(TypeModel::Object(xs)->Object_0 == xs && TypeModel::Object(ys)->Object_0 == ys);
    assert forall|i: int| 0 <= i < xs.len() implies field_matched(#[trigger] xs[i], ys)
        == has_field_like(ys, xs[i].0, xs[i].1) by {
        let x = xs[i];
        if field_matched(x, ys) {
            let j = choose|j: int|
                0 <= j < ys.len() && (#[trigger] ys[j]).0 == x.0 && compatible(x.1, ys[j].1);
            assert(ys[j].0 == x.0);
        }
        if has_field_like(ys, x.0, x.1) {
            let j = choose|j: int|
                0 <= j < ys.len() && (#[trigger] ys[j]).0 == x.0 && compatible(x.1, ys[j].1);
            assert(ys[j].0 == x.0);
        }
    }
    assert forall|j: int| 0 <= j < ys.len() implies field_covered(xs, #[trigger] ys[j])
        == has_field_like(xs, ys[j].0, ys[j].1) by {
        let y = ys[j];
        if field_covered(xs, y) {
            let i = choose|i: int|
                0 <= i < xs.len() && (#[trigger] xs[i]).0 == y.0 && compatible(xs[i].1, y.1);
            compatibility_is_symmetric(xs[i].1, y.1);
            assert(xs[i].0 == y.0);
        }
        if has_field_like(xs, y.0, y.1) {
            let i = choose|i: int|
                0 <= i < xs.len() && (#[trigger] xs[i]).0 == y.0 && compatible(y.1, xs[i].1);
            compatibility_is_symmetric(xs[i].1, y.1);
            assert(xs[i].0 == y.0);
        }
    }
}

/// Two variants with more than the name of an enum are compatible exactly if
/// their paths end in the same name, and either none has a value or both have
/// compatible ones. So variants with different names are never compatible,
/// nor one with a value and one without.
pub proof fn variants_go_by_name_and_value(a: VariantModel, b: VariantModel)
    requires
        a.path.len() > 1 || (a.path.len() == 1 && a.inner is Some),
        b.path.len() > 1 || (b.path.len() == 1 && b.inner is Some),
    ensures
        variant_compatible(a, b) <==> {
            &&& a.path[a.path.len() - 1] == b.path[b.path.len() - 1]
            &&& a.inner is Some <==> b.inner is Some
            &&& a.inner is Some ==> compatible(*a.inner->Some_0, *b.inner->Some_0)
        },
{
}

/// Whether an alternative has a compatible one among others.
pub open spec fn has_variant_like(variants: Seq<VariantModel>, v: VariantModel) -> bool {
    exists|j: int| 0 <= j < variants.len() && variant_compatible(v, #[trigger] variants[j])
}

/// Two unions are compatible exactly if each alternative of either has a
/// compatible one in the other.
pub proof fn unions_go_by_their_alternatives(xs: Seq<VariantModel>, ys: Seq<VariantModel>)
    ensures
        compatible(TypeModel::Enum(xs), TypeModel::Enum(ys)) <==> {
            &&& forall|i: int| 0 <= i < xs.len() ==> has_variant_like(ys, #[trigger] xs[i])
            &&& forall|j: int| 0 <= j < ys.len() ==> has_variant_like(xs, #[trigger] ys[j])
        },
{
    assert(TypeModel::Enum(xs)->Enum_0 == xs && TypeModel::Enum(ys)->Enum_0 == ys);
    assert forall|i: int| 0 <= i < xs.len() implies variant_matched(#[trigger] xs[i], ys)
        == has_variant_like(ys, xs[i]) by {
        if variant_matched(xs[i], ys) {
            let j = choose|j: int|
                0 <= j < ys.len() && variant_compatible(xs[i], #[trigger] ys[j]);
            assert(variant_compatible(xs[i], ys[j]));
        }
    }
    assert forall|j: int| 0 <= j < ys.len() implies variant_covered(xs, #[trigger] ys[j])
        == has_variant_like(xs, ys[j]) by {
        if variant_covered(xs, ys[j]) {
            let i = choose|i: int|
                0 <= i < xs.len() && variant_compatible(#[trigger] xs[i], ys[j]);
            variant_compatibility_is_symmetric(xs[i], ys[j]);
            assert(variant_compatible(ys[j], xs[i]));
        }
        if has_variant_like(xs, ys[j]) {
            let i = choose|i: int|
                0 <= i < xs.len() && variant_compatible(ys[j], #[trigger] xs[i]);
            variant_compatibility_is_symmetric(xs[i], ys[j]);
            assert(variant_compatible(xs[i], ys[j]));
        }
    }
}

/// The first segment of a path is its enum, the last one its variant.
pub proof fn paths_have_two_ends(path: Seq<Seq<char>>)
    ensures
        path.len() == 0 ==> first_of(path) is None && last_of(path) is None,
        path.len() > 0 ==> first_of(path) == Some(path[0]) && last_of(path) == Some(
            path[path.len() - 1],
        ),
{
}

/// The name of an enum alone is a path of one segment without a value, and
/// agrees by name with exactly those alternatives whose path starts with it.
pub proof fn enum_names_agree_by_the_enum(name: Seq<char>, v: VariantModel)
    requires
        v.path.len() > 0,
    ensures
        bare_enum_name(v) <==> v.path.len() == 1 && v.inner is None,
        same_name(enum_alone(name), v) <==> v.path[0] == name,
        same_name(v, enum_alone(name)) <==> v.path[0] == name,
        variant_compatible(enum_alone(name), v) <==> v.path[0] == name,
        accepts(enum_alone(name), v.path) <==> v.path[0] == name,
{
    assert(first_of(enum_alone(name).path) == Some(name));
}

/// Other alternatives agree by name exactly if their paths end in the same
/// segment.
pub proof fn variants_agree_by_the_variant(a: VariantModel, b: VariantModel)
    requires
        a.path.len() > 1 || (a.path.len() == 1 && a.inner is Some),
        b.path.len() > 1 || (b.path.len() == 1 && b.inner is Some),
    ensures
        same_name(a, b) <==> a.path[a.path.len() - 1] == b.path[b.path.len() - 1],
        accepts(a, b.path) <==> a.path[a.path.len() - 1] == b.path[b.path.len() - 1],
{
}

} // verus!
