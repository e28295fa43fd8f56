//! Declared types, contracts and signatures, and what they mean.

use vstd::prelude::*;

use crate::name_map::NameMap;
use crate::text::{join, joined, same_text, texts};

verus! {

// ---------------------------------------------------------------------------
// Declared types.
// ---------------------------------------------------------------------------

/// The primitive types of the contract notation.
#[derive(Debug, Clone, Copy, PartialEq, Eq, Structural)]
pub enum PrimitiveType {
    String,
    Int,
    Float,
    Bool,
    Bytes,
}

/// A declared type.
#[derive(Debug, PartialEq)]
pub enum TypeDef {
    Primitive(PrimitiveType),
    /// `{ field: Type, ... }`
    Object(Vec<(String, TypeDef)>),
    /// `Variant | Variant`
    Enum(Vec<EnumVariant>),
    /// `Type | ()`
    Nullable(Box<TypeDef>),
    /// `[Type]`
    List(Box<TypeDef>),
    /// `()`
    Unit,
}

/// One alternative of a declared enum type: `Path::To::Variant(Inner)`.
#[derive(Debug, PartialEq)]
pub struct EnumVariant {
    pub path: Vec<String>,
    pub inner: Option<Box<TypeDef>>,
}

/// A declared type as a mathematical value.
#[verifier::ext_equal]
pub enum TypeModel {
    Primitive(PrimitiveType),
    Object(Seq<(Seq<char>, TypeModel)>),
    Enum(Seq<VariantModel>),
    Nullable(Box<TypeModel>),
    List(Box<TypeModel>),
    Unit,
}

/// An alternative of an enum type as a mathematical value.
#[verifier::ext_equal]
pub struct VariantModel {
    pub path: Seq<Seq<char>>,
    pub inner: Option<Box<TypeModel>>,
}

pub open spec fn type_model(t: TypeDef) -> TypeModel
    decreases t,
{
    match t {
        TypeDef::Primitive(p) => TypeModel::Primitive(p),
        TypeDef::Object(fields) => TypeModel::Object(fields_model(fields@)),
        TypeDef::Enum(variants) => TypeModel::Enum(variants_model(variants@)),
        TypeDef::Nullable(inner) => TypeModel::Nullable(Box::new(type_model(*inner))),
        TypeDef::List(inner) => TypeModel::List(Box::new(type_model(*inner))),
        TypeDef::Unit => TypeModel::Unit,
    }
}

pub open spec fn variant_model(v: EnumVariant) -> VariantModel
    decreases v,
{
    VariantModel {
        path: texts(v.path@),
        inner: match v.inner {
            Some(inner) => Some(Box::new(type_model(*inner))),
            None => None,
        },
    }
}

pub open spec fn fields_model(fields: Seq<(String, TypeDef)>) -> Seq<(Seq<char>, TypeModel)>
    decreases fields,
{
    Seq::new(
        fields.len(),
        |i: int|
            if 0 <= i < fields.len() {
                (fields[i].0@, type_model(fields[i].1))
            } else {
                arbitrary()
            },
    )
}

pub open spec fn variants_model(variants: Seq<EnumVariant>) -> Seq<VariantModel>
    decreases variants,
{
    Seq::new(
        variants.len(),
        |i: int|
            if 0 <= i < variants.len() {
                variant_model(variants[i])
            } else {
                arbitrary()
            },
    )
}

impl View for TypeDef {
    type V = TypeModel;

    open spec fn view(&self) -> TypeModel {
        type_model(*self)
    }
}

impl View for EnumVariant {
    type V = VariantModel;

    open spec fn view(&self) -> VariantModel {
        variant_model(*self)
    }
}

// ---------------------------------------------------------------------------
// Names of enum types.
// ---------------------------------------------------------------------------

/// The first element, if there is one.
pub open spec fn first_of(path: Seq<Seq<char>>) -> Option<Seq<char>> {
    if path.len() > 0 {
        Some(path[0])
    } else {
        None
    }
}

/// The last element, if there is one.
pub open spec fn last_of(path: Seq<Seq<char>>) -> Option<Seq<char>> {
    if path.len() > 0 {
        Some(path.last())
    } else {
        None
    }
}

/// `Status`: the name of an enum alone (a path of one segment without an
/// inner value). As long as no variants are enumerated it stands for any
/// variant of that enum.
pub open spec fn bare_enum_name(v: VariantModel) -> bool {
    v.path.len() == 1 && v.inner is None
}

/// Whether a declared alternative accepts the enum variant with the path
/// `path`: a bare enum name accepts each variant of its enum, any other
/// alternative the variants whose last segment is its own.
pub open spec fn accepts(v: VariantModel, path: Seq<Seq<char>>) -> bool {
    if bare_enum_name(v) {
        first_of(v.path) == first_of(path)
    } else {
        last_of(v.path) == last_of(path)
    }
}

/// Whether two alternatives agree by name: where one is a bare enum name,
/// the enums have to agree, otherwise the variants.
pub open spec fn same_name(a: VariantModel, b: VariantModel) -> bool {
    if bare_enum_name(a) || bare_enum_name(b) {
        first_of(a.path) == first_of(b.path)
    } else {
        last_of(a.path) == last_of(b.path)
    }
}

// ---------------------------------------------------------------------------
// Compatibility of declared types.
// ---------------------------------------------------------------------------

/// Symmetric compatibility of two declared types. Unlike equality it takes a
/// bare enum name (`Status`) as a match for any union of its variants
/// (`Status::Solved | Status::Continue`), and the other way round; the fields
/// of an object may stand in any order.
pub open spec fn compatible(a: TypeModel, b: TypeModel) -> bool
    decreases a, 0int,
{
    match (a, b) {
        (TypeModel::Primitive(p), TypeModel::Primitive(q)) => p == q,
        (TypeModel::Unit, TypeModel::Unit) => true,
        (TypeModel::Nullable(x), TypeModel::Nullable(y)) => compatible(*x, *y),
        (TypeModel::List(x), TypeModel::List(y)) => compatible(*x, *y),
        (TypeModel::Object(xs), TypeModel::Object(ys)) => {
            &&& xs.len() == ys.len()
            &&& forall|i: int| 0 <= i < xs.len() ==> field_matched(#[trigger] xs[i], ys)
            &&& forall|j: int| 0 <= j < ys.len() ==> field_covered(xs, #[trigger] ys[j])
        },
        (TypeModel::Enum(xs), TypeModel::Enum(ys)) => {
            &&& forall|i: int| 0 <= i < xs.len() ==> variant_matched(#[trigger] xs[i], ys)
            &&& forall|j: int| 0 <= j < ys.len() ==> variant_covered(xs, #[trigger] ys[j])
        },
        _ => false,
    }
}

/// Whether one of the fields `ys` has the name of the field `x` and a type
/// compatible with its type.
pub open spec fn field_matched(
    x: (Seq<char>, TypeModel),
    ys: Seq<(Seq<char>, TypeModel)>,
) -> bool
    decreases x, 0int,
{
    exists|j: int| 0 <= j < ys.len() && (#[trigger] ys[j]).0 == x.0 && compatible(x.1, ys[j].1)
}

/// Whether one of the fields `xs` has the name of the field `y` and a type
/// compatible with its type.
pub open spec fn field_covered(
    xs: Seq<(Seq<char>, TypeModel)>,
    y: (Seq<char>, TypeModel),
) -> bool
    decreases xs, 0int,
{
    exists|i: int| 0 <= i < xs.len() && (#[trigger] xs[i]).0 == y.0 && compatible(xs[i].1, y.1)
}

/// Whether the alternative `x` is compatible with one of `ys`.
pub open spec fn variant_matched(x: VariantModel, ys: Seq<VariantModel>) -> bool
    decreases x, 1int,
{
    exists|j: int| 0 <= j < ys.len() && variant_compatible(x, #[trigger] ys[j])
}

/// Whether one of the alternatives `xs` is compatible with `y`.
pub open spec fn variant_covered(xs: Seq<VariantModel>, y: VariantModel) -> bool
    decreases xs, 0int,
{
    exists|i: int| 0 <= i < xs.len() && variant_compatible(#[trigger] xs[i], y)
}

/// Compatibility of two alternatives: they agree by name, and two concrete
/// variants agree in the inner value too (a bare enum name says nothing of
/// it).
pub open spec fn variant_compatible(a: VariantModel, b: VariantModel) -> bool
    decreases a, 0int,
{
    same_name(a, b) && (bare_enum_name(a) || bare_enum_name(b) || match (a.inner, b.inner) {
        (None, None) => true,
        (Some(x), Some(y)) => compatible(*x, *y),
        _ => false,
    })
}

// ---------------------------------------------------------------------------
// The contract notation of a type.
// ---------------------------------------------------------------------------

/// The name of a primitive type.
pub open spec fn primitive_text(p: PrimitiveType) -> Seq<char> {
    match p {
        PrimitiveType::String => "String"@,
        PrimitiveType::Int => "int"@,
        PrimitiveType::Float => "float"@,
        PrimitiveType::Bool => "bool"@,
        PrimitiveType::Bytes => "bytes"@,
    }
}

/// A type in contract notation.
pub open spec fn type_text(t: TypeModel) -> Seq<char>
    decreases t,
{
    match t {
        TypeModel::Primitive(p) => primitive_text(p),
        TypeModel::Object(fields) => if fields.len() == 0 {
            "{}"@
        } else {
            "{ "@ + join(field_texts(fields), ", "@) + " }"@
        },
        TypeModel::Enum(variants) => join(variant_texts(variants), " | "@),
        TypeModel::Nullable(inner) => type_text(*inner) + " | ()"@,
        TypeModel::List(inner) => "["@ + type_text(*inner) + "]"@,
        TypeModel::Unit => "()"@,
    }
}

/// An alternative in contract notation.
pub open spec fn variant_text(v: VariantModel) -> Seq<char>
    decreases v,
{
    match v.inner {
        Some(inner) => join(v.path, "::"@) + "("@ + type_text(*inner) + ")"@,
        None => join(v.path, "::"@),
    }
}

/// Fields in contract notation.
pub open spec fn field_texts(fields: Seq<(Seq<char>, TypeModel)>) -> Seq<Seq<char>>
    decreases fields,
{
    Seq::new(
        fields.len(),
        |i: int|
            if 0 <= i < fields.len() {
                fields[i].0 + ": "@ + type_text(fields[i].1)
            } else {
                arbitrary()
            },
    )
}

/// Alternatives in contract notation.
pub open spec fn variant_texts(variants: Seq<VariantModel>) -> Seq<Seq<char>>
    decreases variants,
{
    Seq::new(
        variants.len(),
        |i: int|
            if 0 <= i < variants.len() {
                variant_text(variants[i])
            } else {
                arbitrary()
            },
    )
}

impl PrimitiveType {
    /// The name of the type.
    pub fn to_string(&self) -> (r: String)
        ensures
            r@ == primitive_text(*self),
    {
        match self {
            PrimitiveType::String => "String".to_owned(),
            PrimitiveType::Int => "int".to_owned(),
            PrimitiveType::Float => "float".to_owned(),
            PrimitiveType::Bool => "bool".to_owned(),
            PrimitiveType::Bytes => "bytes".to_owned(),
        }
    }
}

impl EnumVariant {
    /// `Status`: the name of an enum alone. As long as no variants are
    /// enumerated it matches any variant of that enum (`Status::*`).
    pub fn is_bare_enum_name(&self) -> (r: bool)
        ensures
            r == bare_enum_name(self@),
    {
        self.path.len() == 1 && self.inner.is_none()
    }

    /// Whether this declared alternative accepts the enum variant with the
    /// path `path`.
    pub fn accepts_path(&self, path: &[String]) -> (r: bool)
        ensures
            r == accepts(self@, texts(path@)),
    {
        if self.is_bare_enum_name() {
            same_first(self.path.as_slice(), path)
        } else {
            same_last(self.path.as_slice(), path)
        }
    }

    /// Whether two alternatives agree by name: where one side is the name of
    /// an enum alone, the enums have to agree, otherwise the variants.
    pub fn matches_name(&self, other: &EnumVariant) -> (r: bool)
        ensures
            r == same_name(self@, other@),
    {
        if self.is_bare_enum_name() || other.is_bare_enum_name() {
            same_first(self.path.as_slice(), other.path.as_slice())
        } else {
            same_last(self.path.as_slice(), other.path.as_slice())
        }
    }

    /// Compatibility including the inner value, which counts between concrete
    /// variants only.
    pub fn is_compatible_with(&self, other: &EnumVariant) -> (r: bool)
        ensures
            r == variant_compatible(self@, other@),
        decreases self, 0int,
    {
        if !self.matches_name(other) {
            return false;
        }
        if self.is_bare_enum_name() || other.is_bare_enum_name() {
            return true;
        }
        match (&self.inner, &other.inner) {
            (None, None) => true,
            (Some(a), Some(b)) => a.is_compatible_with(b),
            _ => false,
        }
    }

    /// The alternative in contract notation.
    pub fn to_string(&self) -> (r: String)
        ensures
            r@ == variant_text(self@),
        decreases self,
    {
        let mut out = joined(&self.path, "::");
        if let Some(inner) = &self.inner {
            out.append("(");
            out.append(inner.to_string().as_str());
            out.append(")");
        }
        out
    }
}

/// Whether two paths have the same first segment.
fn same_first(a: &[String], b: &[String]) -> (r: bool)
    ensures
        r == (first_of(texts(a@)) == first_of(texts(b@))),
{
    if a.len() == 0 || b.len() == 0 {
        a.len() == b.len()
    } else {
        same_text(a[0].as_str(), b[0].as_str())
    }
}

/// Whether two paths have the same last segment.
fn same_last(a: &[String], b: &[String]) -> (r: bool)
    ensures
        r == (last_of(texts(a@)) == last_of(texts(b@))),
{
    if a.len() == 0 || b.len() == 0 {
        a.len() == b.len()
    } else {
        same_text(a[a.len() - 1].as_str(), b[b.len() - 1].as_str())
    }
}

impl TypeDef {
    /// Symmetric compatibility of two declared types. Unlike `==` it takes the
    /// name of an enum alone (`Status`) as a match for any union of its variants
    /// (`Status::Solved | Status::Continue`), and the other way round.
    pub fn is_compatible_with(&self, other: &TypeDef) -> (r: bool)
        ensures
            r == compatible(self@, other@),
        decreases self, 0int,
    {
        match (self, other) {
            (TypeDef::Primitive(a), TypeDef::Primitive(b)) => *a == *b,
            (TypeDef::Unit, TypeDef::Unit) => true,
            (TypeDef::Nullable(a), TypeDef::Nullable(b)) => a.is_compatible_with(b),
            (TypeDef::List(a), TypeDef::List(b)) => a.is_compatible_with(b),
            (TypeDef::Object(xs), TypeDef::Object(ys)) => {
                assert(fields_model(xs@).len() == xs@.len());
                assert(fields_model(ys@).len() == ys@.len());
                let ghost a = fields_model(xs@);
                let ghost b = fields_model(ys@);
                if xs.len() != ys.len() {
                    return false;
                }
                if !fields_matched(xs, ys) {
                    let ghost i = choose|i: int|
                        0 <= i < a.len() && !field_matched(#[trigger] a[i], b);
                    assert(!field_matched(a[i], b));
                    return false;
                }
                if !fields_covered(xs, ys) {
                    let ghost j = choose|j: int|
                        0 <= j < b.len() && !field_covered(a, #[trigger] b[j]);
                    assert(!field_covered(a, b[j]));
                    return false;
                }
                true
            },
            (TypeDef::Enum(xs), TypeDef::Enum(ys)) => {
                assert(variants_model(xs@).len() == xs@.len());
                assert(variants_model(ys@).len() == ys@.len());
                let ghost a = variants_model(xs@);
                let ghost b = variants_model(ys@);
                assert(self@->Enum_0 == a && other@->Enum_0 == b);
                if !variants_matched(xs, ys) {
                    let ghost i = choose|i: int|
                        0 <= i < a.len() && !variant_matched(#[trigger] a[i], b);
                    assert(!variant_matched(a[i], b));
                    return false;
                }
                if !variants_covered(xs, ys) {
                    let ghost j = choose|j: int|
                        0 <= j < b.len() && !variant_covered(a, #[trigger] b[j]);
                    assert(!variant_covered(a, b[j]));
                    return false;
                }
                true
            },
            _ => false,
        }
    }

    /// The type in contract notation.
    pub fn to_string(&self) -> (r: String)
        ensures
            r@ == type_text(self@),
        decreases self,
    {
        match self {
            TypeDef::Primitive(p) => p.to_string(),
            TypeDef::Object(fields) => {
                assert(fields_model(fields@).len() == fields@.len());
                if fields.len() == 0 {
                    return "{}".to_owned();
                }
                let mut out = "{ ".to_owned();
                out.append(joined(&fields_to_strings(fields), ", ").as_str());
                out.append(" }");
                out
            },
            TypeDef::Enum(variants) => joined(&variants_to_strings(variants), " | "),
            TypeDef::Nullable(inner) => {
                let mut out = inner.to_string();
                out.append(" | ()");
                out
            },
            TypeDef::List(inner) => {
                let mut out = "[".to_owned();
                out.append(inner.to_string().as_str());
                out.append("]");
                out
            },
            TypeDef::Unit => "()".to_owned(),
        }
    }
}

/// Whether each of the fields `xs` has a match among the fields `ys`.
fn fields_matched(xs: &Vec<(String, TypeDef)>, ys: &Vec<(String, TypeDef)>) -> (r: bool)
    ensures
        r == (forall|i: int|
            0 <= i < xs@.len() ==> field_matched(
                #[trigger] fields_model(xs@)[i],
                fields_model(ys@),
            )),
    decreases xs, 0int,
{
    for i in 0..xs.len()
        invariant
            forall|k: int|
                0 <= k < i ==> field_matched(#[trigger] fields_model(xs@)[k], fields_model(ys@)),
    {
        if !field_has_match(&xs[i], ys) {
            assert(!field_matched(fields_model(xs@)[i as int], fields_model(ys@)));
            return false;
        }
    }
    true
}

/// Whether a field has a match among the fields `ys`.
fn field_has_match(x: &(String, TypeDef), ys: &Vec<(String, TypeDef)>) -> (r: bool)
    ensures
        r == field_matched((x.0@, x.1@), fields_model(ys@)),
    decreases x, 0int,
{
    for j in 0..ys.len()
        invariant
            forall|k: int|
                0 <= k < j ==> !((#[trigger] fields_model(ys@)[k]).0 == x.0@ && compatible(
                    x.1@,
                    fields_model(ys@)[k].1,
                )),
    {
        assert(fields_model(ys@)[j as int] == (ys@[j as int].0@, ys@[j as int].1@));
        if same_text(ys[j].0.as_str(), x.0.as_str()) && x.1.is_compatible_with(&ys[j].1) {
            return true;
        }
    }
    false
}

/// Whether for each of the fields `ys` one of `xs` is a match.
fn fields_covered(xs: &Vec<(String, TypeDef)>, ys: &Vec<(String, TypeDef)>) -> (r: bool)
    ensures
        r == (forall|j: int|
            0 <= j < ys@.len() ==> field_covered(
                fields_model(xs@),
                #[trigger] fields_model(ys@)[j],
            )),
    decreases xs, 1int,
{
    for j in 0..ys.len()
        invariant
            forall|k: int|
                0 <= k < j ==> field_covered(fields_model(xs@), #[trigger] fields_model(ys@)[k]),
    {
        assert(fields_model(ys@)[j as int] == (ys@[j as int].0@, ys@[j as int].1@));
        if !field_is_covered(xs, &ys[j]) {
            return false;
        }
    }
    true
}

/// Whether one of the fields `xs` is a match for `y`.
fn field_is_covered(xs: &Vec<(String, TypeDef)>, y: &(String, TypeDef)) -> (r: bool)
    ensures
        r == field_covered(fields_model(xs@), (y.0@, y.1@)),
    decreases xs, 0int,
{
    for i in 0..xs.len()
        invariant
            forall|k: int|
                0 <= k < i ==> !((#[trigger] fields_model(xs@)[k]).0 == y.0@ && compatible(
                    fields_model(xs@)[k].1,
                    y.1@,
                )),
    {
        assert(fields_model(xs@)[i as int] == (xs@[i as int].0@, xs@[i as int].1@));
        if same_text(xs[i].0.as_str(), y.0.as_str()) && xs[i].1.is_compatible_with(&y.1) {
            return true;
        }
    }
    false
}

/// Whether each of the alternatives `xs` is compatible with one of `ys`.
fn variants_matched(xs: &Vec<EnumVariant>, ys: &Vec<EnumVariant>) -> (r: bool)
    ensures
        r == (forall|i: int|
            0 <= i < xs@.len() ==> variant_matched(
                #[trigger] variants_model(xs@)[i],
                variants_model(ys@),
            )),
    decreases xs, 0int,
{
    for i in 0..xs.len()
        invariant
            forall|k: int|
                0 <= k < i ==> variant_matched(
                    #[trigger] variants_model(xs@)[k],
                    variants_model(ys@),
                ),
    {
        assert(variants_model(xs@)[i as int] == xs@[i as int]@);
        if !variant_has_match(&xs[i], ys) {
            return false;
        }
    }
    true
}

/// Whether an alternative is compatible with one of `ys`.
fn variant_has_match(x: &EnumVariant, ys: &Vec<EnumVariant>) -> (r: bool)
    ensures
        r == variant_matched(x@, variants_model(ys@)),
    decreases x, 1int,
{
    for j in 0..ys.len()
        invariant
            forall|k: int|
                0 <= k < j ==> !variant_compatible(x@, #[trigger] variants_model(ys@)[k]),
    {
        assert(variants_model(ys@)[j as int] == ys@[j as int]@);
        if x.is_compatible_with(&ys[j]) {
            return true;
        }
    }
    false
}

/// Whether for each of the alternatives `ys` one of `xs` is compatible with
/// it.
fn variants_covered(xs: &Vec<EnumVariant>, ys: &Vec<EnumVariant>) -> (r: bool)
    ensures
        r == (forall|j: int|
            0 <= j < ys@.len() ==> variant_covered(
                variants_model(xs@),
                #[trigger] variants_model(ys@)[j],
            )),
    decreases xs, 1int,
{
    for j in 0..ys.len()
        invariant
            forall|k: int|
                0 <= k < j ==> variant_covered(
                    variants_model(xs@),
                    #[trigger] variants_model(ys@)[k],
                ),
    {
        assert(variants_model(ys@)[j as int] == ys@[j as int]@);
        if !variant_is_covered(xs, &ys[j]) {
            return false;
        }
    }
    true
}

/// Whether one of the alternatives `xs` is compatible with `y`.
fn variant_is_covered(xs: &Vec<EnumVariant>, y: &EnumVariant) -> (r: bool)
    ensures
        r == variant_covered(variants_model(xs@), y@),
    decreases xs, 0int,
{
    for i in 0..xs.len()
        invariant
            forall|k: int|
                0 <= k < i ==> !variant_compatible(#[trigger] variants_model(xs@)[k], y@),
    {
        assert(variants_model(xs@)[i as int] == xs@[i as int]@);
        if xs[i].is_compatible_with(y) {
            return true;
        }
    }
    false
}

/// Fields in contract notation.
fn fields_to_strings(fields: &Vec<(String, TypeDef)>) -> (r: Vec<String>)
    ensures
        texts(r@) == field_texts(fields_model(fields@)),
    decreases fields,
{
    let mut out: Vec<String> = Vec::new();
    for i in 0..fields.len()
        invariant
            out@.len() == i,
            forall|j: int|
                0 <= j < i ==> (#[trigger] out@[j])@ == field_texts(fields_model(fields@))[j],
    {
        let mut part = fields[i].0.clone();
        part.append(": ");
        part.append(fields[i].1.to_string().as_str());
        assert(fields_model(fields@)[i as int] == (
            fields@[i as int].0@,
            fields@[i as int].1@,
        ));
        out.push(part);
    }
    assert(texts(out@) =~= field_texts(fields_model(fields@)));
    out
}

/// Alternatives in contract notation.
fn variants_to_strings(variants: &Vec<EnumVariant>) -> (r: Vec<String>)
    ensures
        texts(r@) == variant_texts(variants_model(variants@)),
    decreases variants,
{
    let mut out: Vec<String> = Vec::new();
    for i in 0..variants.len()
        invariant
            out@.len() == i,
            forall|j: int|
                0 <= j < i ==> (#[trigger] out@[j])@ == variant_texts(
                    variants_model(variants@),
                )[j],
    {
        out.push(variants[i].to_string());
        assert(variants_model(variants@)[i as int] == variants@[i as int]@);
    }
    assert(texts(out@) =~= variant_texts(variants_model(variants@)));
    out
}

impl Clone for TypeDef {
    fn clone(&self) -> (r: TypeDef)
        ensures
            r@ == self@,
        decreases self,
    {
        match self {
            TypeDef::Primitive(p) => TypeDef::Primitive(*p),
            TypeDef::Object(fields) => TypeDef::Object(cloned_fields(fields)),
            TypeDef::Enum(variants) => TypeDef::Enum(cloned_variants(variants)),
            TypeDef::Nullable(inner) => TypeDef::Nullable(Box::new((**inner).clone())),
            TypeDef::List(inner) => TypeDef::List(Box::new((**inner).clone())),
            TypeDef::Unit => TypeDef::Unit,
        }
    }
}

impl Clone for EnumVariant {
    fn clone(&self) -> (r: EnumVariant)
        ensures
            r@ == self@,
        decreases self,
    {
        EnumVariant {
            path: cloned_strings(&self.path),
            inner: match &self.inner {
                Some(inner) => Some(Box::new((**inner).clone())),
                None => None,
            },
        }
    }
}

/// A copy of the fields of an object type.
fn cloned_fields(fields: &Vec<(String, TypeDef)>) -> (r: Vec<(String, TypeDef)>)
    ensures
        fields_model(r@) == fields_model(fields@),
    decreases fields,
{
    let mut out: Vec<(String, TypeDef)> = Vec::new();
    for i in 0..fields.len()
        invariant
            out@.len() == i,
            forall|j: int|
                0 <= j < i ==> (#[trigger] out@[j]).0@ == fields@[j].0@ && out@[j].1@
                    == fields@[j].1@,
    {
        out.push((fields[i].0.clone(), fields[i].1.clone()));
    }
    assert(fields_model(out@) =~= fields_model(fields@));
    out
}

/// A copy of the alternatives of an enum type.
pub fn cloned_variants(variants: &Vec<EnumVariant>) -> (r: Vec<EnumVariant>)
    ensures
        variants_model(r@) == variants_model(variants@),
    decreases variants,
{
    let mut out: Vec<EnumVariant> = Vec::new();
    for i in 0..variants.len()
        invariant
            out@.len() == i,
            forall|j: int| 0 <= j < i ==> (#[trigger] out@[j])@ == variants@[j]@,
    {
        out.push(variants[i].clone());
    }
    assert(variants_model(out@) =~= variants_model(variants@));
    out
}

/// A copy of a list of strings.
pub fn cloned_strings(strings: &Vec<String>) -> (r: Vec<String>)
    ensures
        texts(r@) == texts(strings@),
{
    let mut out: Vec<String> = Vec::new();
    for i in 0..strings.len()
        invariant
            out@.len() == i,
            forall|j: int| 0 <= j < i ==> (#[trigger] out@[j])@ == strings@[j]@,
    {
        out.push(strings[i].clone());
    }
    assert(texts(out@) =~= texts(strings@));
    out
}

// ---------------------------------------------------------------------------
// Contracts and signatures.
// ---------------------------------------------------------------------------

/// A declared parameter.
#[derive(Debug, PartialEq)]
pub struct ParamDef {
    pub name: String,
    pub type_def: TypeDef,
}

/// What a function promises: its parameters and its return type.
#[derive(Debug, Clone, PartialEq)]
pub struct Contract {
    pub params: Vec<ParamDef>,
    pub return_type: TypeDef,
}

/// The signature of a builtin function, supplied by the host.
#[derive(Debug, Clone, PartialEq)]
pub struct BuiltinSignature {
    pub name: String,
    pub return_type: TypeDef,
}

/// Where a return type in the [`SignatureRegistry`] comes from.
#[derive(Debug, Clone, PartialEq)]
pub enum SignatureOrigin {
    /// A helper function of the script: it has a body, which is verified when
    /// a call of it is reached.
    Helper(TypeDef),
    /// A builtin function: it has no body and is taken as supplied.
    Builtin(TypeDef),
}

/// The return types of the functions that a script can call, by name.
#[derive(Debug, Clone)]
pub struct SignatureRegistry {
    pub signatures: NameMap<SignatureOrigin>,
}

#[verifier::ext_equal]
pub struct ParamModel {
    pub name: Seq<char>,
    pub type_def: TypeModel,
}

#[verifier::ext_equal]
pub struct ContractModel {
    pub params: Seq<ParamModel>,
    pub return_type: TypeModel,
}

#[verifier::ext_equal]
pub struct BuiltinModel {
    pub name: Seq<char>,
    pub return_type: TypeModel,
}

#[verifier::ext_equal]
pub enum OriginModel {
    Helper(TypeModel),
    Builtin(TypeModel),
}

impl OriginModel {
    /// The return type.
    pub open spec fn type_def(self) -> TypeModel {
        match self {
            OriginModel::Helper(t) => t,
            OriginModel::Builtin(t) => t,
        }
    }
}

impl View for ParamDef {
    type V = ParamModel;

    open spec fn view(&self) -> ParamModel {
        ParamModel { name: self.name@, type_def: self.type_def@ }
    }
}

/// The parameters of a contract as mathematical values.
pub open spec fn params_model(params: Seq<ParamDef>) -> Seq<ParamModel> {
    params.map_values(|p: ParamDef| p@)
}

impl View for Contract {
    type V = ContractModel;

    open spec fn view(&self) -> ContractModel {
        ContractModel { params: params_model(self.params@), return_type: self.return_type@ }
    }
}

impl View for BuiltinSignature {
    type V = BuiltinModel;

    open spec fn view(&self) -> BuiltinModel {
        BuiltinModel { name: self.name@, return_type: self.return_type@ }
    }
}

/// Builtin signatures as mathematical values.
pub open spec fn builtins_model(builtins: Seq<BuiltinSignature>) -> Seq<BuiltinModel> {
    builtins.map_values(|b: BuiltinSignature| b@)
}

impl View for SignatureOrigin {
    type V = OriginModel;

    open spec fn view(&self) -> OriginModel {
        match self {
            SignatureOrigin::Helper(t) => OriginModel::Helper(t@),
            SignatureOrigin::Builtin(t) => OriginModel::Builtin(t@),
        }
    }
}

impl View for SignatureRegistry {
    type V = Map<Seq<char>, OriginModel>;

    open spec fn view(&self) -> Map<Seq<char>, OriginModel> {
        self.signatures@.map_values(|origin: SignatureOrigin| origin@)
    }
}

impl Clone for ParamDef {
    fn clone(&self) -> (r: ParamDef)
        ensures
            r@ == self@,
    {
        ParamDef { name: self.name.clone(), type_def: self.type_def.clone() }
    }
}

impl SignatureOrigin {
    /// The return type.
    pub fn type_def(&self) -> (r: &TypeDef)
        ensures
            r@ == self@.type_def(),
    {
        match self {
            SignatureOrigin::Helper(t) => t,
            SignatureOrigin::Builtin(t) => t,
        }
    }

    /// Whether the function is a helper of the script.
    pub fn is_helper(&self) -> (r: bool)
        ensures
            r == (self@ is Helper),
    {
        matches!(self, SignatureOrigin::Helper(_))
    }
}

impl Default for SignatureRegistry {
    fn default() -> (r: SignatureRegistry)
        ensures
            r@ == Map::<Seq<char>, OriginModel>::empty(),
    {
        let r = SignatureRegistry { signatures: NameMap::new() };
        assert(r@ =~= Map::<Seq<char>, OriginModel>::empty());
        r
    }
}

// ---------------------------------------------------------------------------
// The methods that the host provides.
// ---------------------------------------------------------------------------

/// One method of a type of the host; without a return type the method exists
/// and what it returns is unknown.
#[derive(Debug, Clone, PartialEq)]
pub struct MethodSignature {
    pub receiver: String,
    pub name: String,
    pub return_type: Option<TypeDef>,
}

/// The methods of the types that the host describes.
#[derive(Debug, Clone)]
pub struct MethodRegistry {
    types: NameMap<NameMap<Option<TypeDef>>>,
}

/// What the host provides to a script.
#[derive(Debug, Clone)]
pub struct Environment {
    pub builtins: Vec<BuiltinSignature>,
    pub methods: MethodRegistry,
}

#[verifier::ext_equal]
pub struct MethodModel {
    pub receiver: Seq<char>,
    pub name: Seq<char>,
    pub return_type: Option<TypeModel>,
}

/// The methods by the name of their type, then by their own.
pub type MethodTable = Map<Seq<char>, Map<Seq<char>, Option<TypeModel>>>;

/// An optional type as a mathematical value.
pub open spec fn option_model(t: Option<TypeDef>) -> Option<TypeModel> {
    match t {
        Some(t) => Some(t@),
        None => None,
    }
}

impl View for MethodSignature {
    type V = MethodModel;

    open spec fn view(&self) -> MethodModel {
        MethodModel {
            receiver: self.receiver@,
            name: self.name@,
            return_type: option_model(self.return_type),
        }
    }
}

/// The methods that a table of signatures describes; of two signatures of one
/// method the later one counts.
pub open spec fn method_table(signatures: Seq<MethodModel>) -> MethodTable
    decreases signatures.len(),
{
    if signatures.len() == 0 {
        Map::empty()
    } else {
        let before = method_table(signatures.drop_last());
        let last = signatures.last();
        before.insert(
            last.receiver,
            (if before.contains_key(last.receiver) {
                before[last.receiver]
            } else {
                Map::empty()
            }).insert(last.name, last.return_type),
        )
    }
}

impl View for MethodRegistry {
    type V = MethodTable;

    closed spec fn view(&self) -> MethodTable {
        self.types@.map_values(
            |methods: NameMap<Option<TypeDef>>|
                methods@.map_values(|t: Option<TypeDef>| option_model(t)),
        )
    }
}

impl MethodSignature {
    /// The signature of the method `name` of the type `receiver`.
    pub fn new(receiver: &str, name: &str, return_type: Option<TypeDef>) -> (r: MethodSignature)
        ensures
            r@.receiver == receiver@,
            r@.name == name@,
            r@.return_type == option_model(return_type),
    {
        MethodSignature { receiver: receiver.to_owned(), name: name.to_owned(), return_type }
    }
}

impl MethodRegistry {
    /// The registry of the methods in a table; of two signatures of one
    /// method the later one counts.
    pub fn new(signatures: Vec<MethodSignature>) -> (r: MethodRegistry)
        ensures
            r@ == method_table(signatures@.map_values(|s: MethodSignature| s@)),
    {
        let mut registry = MethodRegistry { types: NameMap::new() };
        let ghost models = signatures@.map_values(|s: MethodSignature| s@);
        assert(registry@ =~= method_table(models.take(0)));
        for i in 0..signatures.len()
            invariant
                models == signatures@.map_values(|s: MethodSignature| s@),
                registry@ == method_table(models.take(i as int)),
        {
            let signature = &signatures[i];
            let ghost before = registry@;
            let mut methods = match registry.types.remove(signature.receiver.as_str()) {
                Some(methods) => methods,
                None => NameMap::new(),
            };
            methods.insert(
                signature.name.clone(),
                match &signature.return_type {
                    Some(t) => Some(t.clone()),
                    None => None,
                },
            );
            let ghost described = methods@.map_values(|t: Option<TypeDef>| option_model(t));
            registry.types.insert(signature.receiver.clone(), methods);
            proof {
                let last = models[i as int];
                assert(models.take(i + 1).drop_last() =~= models.take(i as int));
                assert(described =~= (if before.contains_key(last.receiver) {
                    before[last.receiver]
                } else {
                    Map::empty()
                }).insert(last.name, last.return_type));
                assert(registry@ =~= before.insert(last.receiver, described));
            }
        }
        assert(models.take(models.len() as int) =~= models);
        registry
    }

    /// Whether no type is described.
    pub fn is_empty(&self) -> (r: bool)
        ensures
            r == (self@ == Map::<Seq<char>, Map<Seq<char>, Option<TypeModel>>>::empty()),
    {
        let r = self.types.is_empty();
        proof {
            if r {
                assert(self@ =~= Map::<Seq<char>, Map<Seq<char>, Option<TypeModel>>>::empty());
            } else {
                let name = choose|name: Seq<char>| #[trigger] self.types@.contains_key(name);
                assert(self@.contains_key(name));
            }
        }
        r
    }

    /// Whether a type is described.
    pub fn has_type(&self, name: &str) -> (r: bool)
        ensures
            r == self@.contains_key(name@),
    {
        self.types.contains_key(name)
    }

    /// What a method returns, where the type has it.
    pub fn lookup(&self, receiver: &str, method: &str) -> (r: Option<&Option<TypeDef>>)
        ensures
            match r {
                Some(t) => self@.contains_key(receiver@) && self@[receiver@].contains_key(method@)
                    && option_model(*t) == self@[receiver@][method@],
                None => !(self@.contains_key(receiver@) && self@[receiver@].contains_key(
                    method@,
                )),
            },
    {
        match self.types.get(receiver) {
            Some(methods) => methods.get(method),
            None => None,
        }
    }
}

impl Default for MethodRegistry {
    fn default() -> (r: MethodRegistry)
        ensures
            r@ == Map::<Seq<char>, Map<Seq<char>, Option<TypeModel>>>::empty(),
    {
        let r = MethodRegistry { types: NameMap::new() };
        assert(r@ =~= Map::<Seq<char>, Map<Seq<char>, Option<TypeModel>>>::empty());
        r
    }
}

impl Default for Environment {
    fn default() -> (r: Environment)
        ensures
            r.builtins@ == Seq::<BuiltinSignature>::empty(),
            r.methods@ == Map::<Seq<char>, Map<Seq<char>, Option<TypeModel>>>::empty(),
    {
        Environment { builtins: Vec::new(), methods: MethodRegistry::default() }
    }
}

} // verus!
