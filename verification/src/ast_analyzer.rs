//! What a function returns: its return sites and its doc-comment.

use vstd::prelude::*;
use vstd::slice::slice_subrange;
use vstd::utf8::encode_utf8;

use crate::number::{is_float, read_integer, reads_float, small_integer, stripped, without_prefix};
use crate::report::{
    inner_model, literal_fields_model, literals_model, sites_model, CheckerError, DynamicReason,
    ErrorModel, LiteralModel, LiteralValue, ReasonModel, ReturnSite, SiteModel,
};
use crate::rune_ast::{parse_script, parsed};
use crate::source_text::{
    line_number, line_of, lit_str_value, slice, span_text, str_value, text_before, text_up_to,
};
use crate::syntax::{
    arm_fits, arms_fit, arms_model, block_expr_list, block_exprs, block_fits, boxed_model,
    branches_fit, branches_model, direct_exprs, expr_fits, exprs_fit, exprs_model, field_fits,
    fields_fit, fn_fits, item_fits, key_fits, lemma_block_exprs_fit, lemma_sub_exprs_fit,
    lemma_sub_exprs_smaller, lit_fits, object_fields_model, optional_fits, optional_model,
    path_fits, refs_model, script_fits, stmt_fits, sub_exprs, ArmNode, ArmTree, Base, BlockNode,
    BlockTree, ConditionNode, ConditionTree, ExprNode, ExprTree, FieldNode, FieldTree, FnItem,
    FnTree, ItemNode, ItemTree, KeyNode, KeyTree, LitNode, NumberLit, PathNode, PathTree, Script,
    ScriptTree, StmtNode, StmtTree,
};
use crate::text::{
    after_char, after_prefix, before_suffix, chars_of, contains_text, ends_with, join, joined,
    last_found, last_occurrence, lines, same_text, slice_texts, split_lines, starts_with, string_of,
    texts, trim, trim_end, trim_start, trimmed, trimmed_end, trimmed_start, uppercase,
};
use crate::types::{
    bare_enum_name, last_of, variants_model, EnumVariant, OriginModel, SignatureRegistry, TypeDef,
    TypeModel, VariantModel,
};

verus! {

// ---------------------------------------------------------------------------
// Paths.
// ---------------------------------------------------------------------------

/// Whether a path consists of identifiers alone.
pub open spec fn is_plain(path: PathTree) -> bool {
    !path.global && !path.trailing && forall|i: int|
        0 <= i < path.segments.len() ==> #[trigger] path.segments[i] is Some
}

/// The segments of a path that consists of identifiers alone (no `Self`,
/// `super`, `crate` or generics), with no `::` at its start or end.
pub open spec fn segments_of(path: PathTree, source: Seq<char>) -> Option<Seq<Seq<char>>> {
    if is_plain(path) {
        Some(
            Seq::new(
                path.segments.len(),
                |i: int| span_text(source, path.segments[i]->Some_0),
            ),
        )
    } else {
        None
    }
}

/// The segment of a path that consists of one identifier.
pub open spec fn single_of(path: PathTree, source: Seq<char>) -> Option<Seq<char>> {
    match segments_of(path, source) {
        Some(segments) => if segments.len() == 1 {
            Some(segments[0])
        } else {
            None
        },
        None => None,
    }
}

/// The segments of a path that consists of identifiers alone.
pub fn path_segments(path: &PathNode, source: &str) -> (r: Option<Vec<String>>)
    requires
        path_fits(path@, source@),
    ensures
        match r {
            Some(segments) => segments_of(path@, source@) == Some(texts(segments@)),
            None => segments_of(path@, source@) is None,
        },
{
    if path.global || path.trailing {
        return None;
    }
    let mut segments: Vec<String> = Vec::new();
    for i in 0..path.segments.len()
        invariant
            path_fits(path@, source@),
            segments@.len() == i,
            forall|j: int| 0 <= j < i ==> #[trigger] path.segments@[j] is Some,
            forall|j: int|
                0 <= j < i ==> (#[trigger] segments@[j])@ == span_text(
                    source@,
                    path.segments@[j]->Some_0,
                ),
    {
        match path.segments[i] {
            Some(span) => {
                assert(path@.segments[i as int] is Some);
                segments.push(slice(source, span).to_owned());
            },
            None => {
                assert(!(path@.segments[i as int] is Some));
                return None;
            },
        }
    }
    assert(texts(segments@) =~= segments_of(path@, source@)->Some_0);
    Some(segments)
}

/// The segment of a path that consists of one identifier.
pub fn single_segment(path: &PathNode, source: &str) -> (r: Option<String>)
    requires
        path_fits(path@, source@),
    ensures
        match r {
            Some(segment) => single_of(path@, source@) == Some(segment@),
            None => single_of(path@, source@) is None,
        },
{
    match path_segments(path, source) {
        Some(mut segments) => if segments.len() == 1 {
            segments.pop()
        } else {
            None
        },
        None => None,
    }
}

/// Whether a name starts with an uppercase letter.
pub open spec fn starts_upper(name: Option<Seq<char>>) -> bool {
    name is Some && name->Some_0.len() > 0 && uppercase(name->Some_0[0])
}

/// Whether a name starts with an uppercase letter.
pub fn starts_uppercase(segment: Option<&String>) -> (r: bool)
    ensures
        r == starts_upper(
            match segment {
                Some(s) => Some(s@),
                None => None,
            },
        ),
{
    match segment {
        Some(s) => {
            let chars = chars_of(s.as_str());
            chars.len() > 0 && chars[0].is_uppercase()
        },
        None => false,
    }
}

/// The last of a list of strings.
pub fn last_string(strings: &Vec<String>) -> (r: Option<&String>)
    ensures
        match r {
            Some(s) => last_of(texts(strings@)) == Some(s@),
            None => last_of(texts(strings@)) is None,
        },
{
    if strings.len() > 0 {
        Some(&strings[strings.len() - 1])
    } else {
        None
    }
}

// ---------------------------------------------------------------------------
// The `?` operator: what it propagates and what it leaves.
// ---------------------------------------------------------------------------

/// Whether an alternative is one that `expr?` propagates out of the function:
/// `Result::Err`, `Option::None`, or the bare name of `Result` or `Option`,
/// of which anything may propagate.
pub open spec fn is_error_variant(v: VariantModel) -> bool {
    if bare_enum_name(v) {
        v.path[0] == "Result"@ || v.path[0] == "Option"@
    } else {
        last_of(v.path) == Some("Err"@) || last_of(v.path) == Some("None"@)
    }
}

/// Whether a path is that of `Ok` or `Some`.
pub open spec fn is_success_path(path: Seq<Seq<char>>) -> bool {
    last_of(path) == Some("Ok"@) || last_of(path) == Some("Some"@)
}

/// The alternatives of a declared union, also of one that may be `()`.
pub open spec fn alternatives(t: TypeModel) -> Option<Seq<VariantModel>>
    decreases t,
{
    match t {
        TypeModel::Enum(variants) => Some(variants),
        TypeModel::Nullable(inner) => alternatives(*inner),
        _ => None,
    }
}

/// The type that `expr?` leaves of a declared type where it does not
/// propagate.
pub open spec fn success_of(t: TypeModel) -> Option<TypeModel> {
    match alternatives(t) {
        Some(variants) => success_type(variants),
        None => None,
    }
}

/// The alternatives that `expr?` propagates.
pub open spec fn error_variants(variants: Seq<VariantModel>) -> Seq<VariantModel> {
    variants.filter(|v: VariantModel| is_error_variant(v))
}

/// The type that `expr?` leaves where it does not propagate: the inner value
/// of the first `Ok` or `Some`.
pub open spec fn success_type(variants: Seq<VariantModel>) -> Option<TypeModel>
    decreases variants.len(),
{
    if variants.len() == 0 {
        None
    } else if is_success_path(variants[0].path) {
        Some(
            match variants[0].inner {
                Some(inner) => *inner,
                None => TypeModel::Unit,
            },
        )
    } else {
        success_type(variants.skip(1))
    }
}

/// Whether the last segment of a path is one of two names.
fn ends_in(path: &Vec<String>, a: &str, b: &str) -> (r: bool)
    ensures
        r == (last_of(texts(path@)) == Some(a@) || last_of(texts(path@)) == Some(b@)),
{
    match last_string(path) {
        Some(last) => same_text(last.as_str(), a) || same_text(last.as_str(), b),
        None => false,
    }
}

/// Whether an alternative is one that `expr?` propagates.
pub fn propagates(v: &EnumVariant) -> (r: bool)
    ensures
        r == is_error_variant(v@),
{
    if v.is_bare_enum_name() {
        same_text(v.path[0].as_str(), "Result") || same_text(v.path[0].as_str(), "Option")
    } else {
        ends_in(&v.path, "Err", "None")
    }
}

/// The alternatives that `expr?` propagates out of the function.
pub fn try_error_variants(variants: &Vec<EnumVariant>) -> (r: Vec<EnumVariant>)
    ensures
        variants_model(r@) == error_variants(variants_model(variants@)),
{
    let mut out: Vec<EnumVariant> = Vec::new();
    let ghost models = variants_model(variants@);
    proof {
        reveal(Seq::filter);
        assert(models.take(0) =~= Seq::<VariantModel>::empty());
        assert(variants_model(out@) =~= Seq::<VariantModel>::empty());
    }
    for i in 0..variants.len()
        invariant
            models == variants_model(variants@),
            variants_model(out@) == error_variants(models.take(i as int)),
    {
        proof {
            reveal(Seq::filter);
            assert(models.take(i + 1).drop_last() =~= models.take(i as int));
            assert(models[i as int] == variants@[i as int]@);
        }
        let ghost before = out@;
        if propagates(&variants[i]) {
            out.push(variants[i].clone());
            assert(variants_model(out@) =~= variants_model(before).push(models[i as int]));
        }
    }
    assert(models.take(models.len() as int) =~= models);
    out
}

/// The alternatives of a declared union, also of one that may be `()`.
fn declared_alternatives(t: &TypeDef) -> (r: Option<&Vec<EnumVariant>>)
    ensures
        match r {
            Some(variants) => alternatives(t@) == Some(variants_model(variants@)),
            None => alternatives(t@) is None,
        },
    decreases t,
{
    match t {
        TypeDef::Enum(variants) => Some(variants),
        TypeDef::Nullable(inner) => declared_alternatives(inner),
        _ => None,
    }
}

/// The type that `expr?` leaves of a declared type where it does not
/// propagate. `None` where it cannot be told.
pub fn declared_success_type(t: &TypeDef) -> (r: Option<TypeDef>)
    ensures
        match r {
            Some(left) => success_of(t@) == Some(left@),
            None => success_of(t@) is None,
        },
{
    match declared_alternatives(t) {
        Some(variants) => try_success_type(variants),
        None => None,
    }
}

/// The type that `expr?` leaves where it does not propagate. `None` where it
/// cannot be told.
pub fn try_success_type(variants: &Vec<EnumVariant>) -> (r: Option<TypeDef>)
    ensures
        match r {
            Some(t) => success_type(variants_model(variants@)) == Some(t@),
            None => success_type(variants_model(variants@)) is None,
        },
{
    let ghost models = variants_model(variants@);
    assert(models.skip(0) =~= models);
    for i in 0..variants.len()
        invariant
            models == variants_model(variants@),
            success_type(models) == success_type(models.skip(i as int)),
    {
        assert(models[i as int] == variants@[i as int]@);
        assert(models.skip(i as int).skip(1) =~= models.skip(i + 1));
        if ends_in(&variants[i].path, "Ok", "Some") {
            return Some(
                match &variants[i].inner {
                    Some(inner) => (**inner).clone(),
                    None => TypeDef::Unit,
                },
            );
        }
    }
    None
}

// ---------------------------------------------------------------------------
// What is known of the value of an expression.
// ---------------------------------------------------------------------------

/// An expression of which nothing is known.
pub open spec fn unknown_value() -> LiteralModel {
    LiteralModel::Dynamic(ReasonModel::Expression)
}

/// The base as a number.
pub open spec fn radix_of(base: Base) -> nat {
    match base {
        Base::Binary => 2,
        Base::Octal => 8,
        Base::Hex => 16,
        Base::Decimal => 10,
        Base::Other => 10,
    }
}

/// The value of a number literal.
pub open spec fn number_value(lit: NumberLit, source: Seq<char>) -> LiteralModel {
    match lit.text {
        Some(text) => {
            let digits = span_text(source, text.number);
            if text.is_fractional {
                if is_float(digits) {
                    LiteralModel::Float(digits)
                } else {
                    unknown_value()
                }
            } else {
                let bare = without_prefix(
                    without_prefix(without_prefix(digits, "0b"@), "0o"@),
                    "0x"@,
                );
                match small_integer(bare, radix_of(text.base)) {
                    Some(n) => LiteralModel::Int(n),
                    None => unknown_value(),
                }
            }
        },
        None => unknown_value(),
    }
}

/// The value of a literal.
pub open spec fn lit_value(lit: LitNode, source: Seq<char>) -> LiteralModel {
    match lit {
        LitNode::Bool(b) => LiteralModel::Bool(b),
        LitNode::Str(lit) => LiteralModel::String(str_value(source, lit)),
        LitNode::Number(lit) => number_value(lit, source),
        LitNode::ByteStr => unknown_value(),
        LitNode::Other => unknown_value(),
    }
}

/// The name of an object field.
pub open spec fn key_text(key: KeyTree, source: Seq<char>) -> Option<Seq<char>> {
    match key {
        KeyTree::Path(path) => single_of(path, source),
        KeyTree::Str(lit) => Some(str_value(source, lit)),
        KeyTree::Other => None,
    }
}

/// Whether all fields have a name.
pub open spec fn all_named(fields: Seq<(KeyTree, Option<ExprTree>)>, source: Seq<char>) -> bool {
    forall|i: int| 0 <= i < fields.len() ==> key_text((#[trigger] fields[i]).0, source) is Some
}

/// The value of a path that stands alone: `None`, or a variable.
pub open spec fn path_value(path: PathTree, source: Seq<char>) -> LiteralModel {
    match single_of(path, source) {
        Some(name) => if name == "None"@ {
            LiteralModel::Enum { path: seq!["Option"@, "None"@], inner: None }
        } else {
            LiteralModel::Dynamic(ReasonModel::Variable(name))
        },
        None => unknown_value(),
    }
}

/// The name of the method in `value.method`.
pub open spec fn method_text(field: FieldTree, source: Seq<char>) -> Seq<char> {
    match field {
        FieldTree::Path(path) => match segments_of(path, source) {
            Some(segments) => if segments.len() > 0 {
                segments[0]
            } else {
                Seq::empty()
            },
            None => Seq::empty(),
        },
        FieldTree::Number(span) => span_text(source, span),
        FieldTree::Other => Seq::empty(),
    }
}

/// The full path of a variant of `Result` or `Option` that is called by its
/// own name.
pub open spec fn builtin_variant(segments: Seq<Seq<char>>) -> Option<Seq<Seq<char>>> {
    if segments.len() != 1 {
        None
    } else if segments[0] == "Ok"@ || segments[0] == "Err"@ {
        Some(seq!["Result"@, segments[0]])
    } else if segments[0] == "Some"@ || segments[0] == "None"@ {
        Some(seq!["Option"@, segments[0]])
    } else {
        None
    }
}

/// The first of the values, if there is one.
pub open spec fn first_value(values: Seq<LiteralModel>) -> Option<Box<LiteralModel>> {
    if values.len() > 0 {
        Some(Box::new(values[0]))
    } else {
        None
    }
}

/// The value of a call: that of a function in the registry by its declared
/// type, that of an enum variant by its inner value.
pub open spec fn call_value(
    callee: ExprTree,
    args: Seq<LiteralModel>,
    source: Seq<char>,
    registry: Map<Seq<char>, OriginModel>,
) -> LiteralModel {
    match callee {
        ExprTree::FieldAccess(_, field) => LiteralModel::Dynamic(
            ReasonModel::MethodCall(method_text(field, source)),
        ),
        ExprTree::Path(path) => match segments_of(path, source) {
            Some(segments) => {
                let name = join(segments, "::"@);
                if registry.contains_key(name) {
                    LiteralModel::ResolvedCall { name, type_def: registry[name].type_def() }
                } else if args.len() <= 1 && builtin_variant(segments) is Some {
                    LiteralModel::Enum {
                        path: builtin_variant(segments)->Some_0,
                        inner: first_value(args),
                    }
                } else if args.len() <= 1 && starts_upper(last_of(segments)) {
                    LiteralModel::Enum { path: segments, inner: first_value(args) }
                } else {
                    LiteralModel::Dynamic(ReasonModel::UnannotatedCall(name))
                }
            },
            None => LiteralModel::Dynamic(ReasonModel::IndirectCall),
        },
        _ => LiteralModel::Dynamic(ReasonModel::IndirectCall),
    }
}

/// The value that `expr?` leaves, by the value of `expr`: the content of `Ok`
/// or `Some`.
pub open spec fn unwrapped(value: LiteralModel) -> LiteralModel {
    match value {
        LiteralModel::ResolvedCall { name, type_def } => match success_of(type_def) {
            Some(type_def) => LiteralModel::ResolvedCall { name, type_def },
            None => LiteralModel::Dynamic(ReasonModel::TryPropagation),
        },
        LiteralModel::Enum { path, inner } => if is_success_path(path) {
            match inner {
                Some(inner) => *inner,
                None => LiteralModel::Unit,
            }
        } else {
            LiteralModel::Dynamic(ReasonModel::TryPropagation)
        },
        _ => LiteralModel::Dynamic(ReasonModel::TryPropagation),
    }
}

/// What is known of the value of an expression.
pub open spec fn value_of(
    expr: ExprTree,
    source: Seq<char>,
    registry: Map<Seq<char>, OriginModel>,
) -> LiteralModel
    decreases expr,
{
    match expr {
        ExprTree::Lit(lit) => lit_value(lit, source),
        ExprTree::Object(anonymous, fields) => if anonymous && all_named(fields, source) {
            LiteralModel::Object(field_values(fields, source, registry))
        } else {
            unknown_value()
        },
        ExprTree::Vec(items) => LiteralModel::List(values_of(items, source, registry)),
        ExprTree::Call(callee, args, _) => call_value(
            *callee,
            values_of(args, source, registry),
            source,
            registry,
        ),
        ExprTree::Path(path) => path_value(path, source),
        ExprTree::Group(inner) => value_of(*inner, source, registry),
        ExprTree::Tuple(items) => if items.len() == 0 {
            LiteralModel::Unit
        } else {
            unknown_value()
        },
        ExprTree::Try(inner, _) => unwrapped(value_of(*inner, source, registry)),
        _ => unknown_value(),
    }
}

/// What is known of the values of expressions.
pub open spec fn values_of(
    exprs: Seq<ExprTree>,
    source: Seq<char>,
    registry: Map<Seq<char>, OriginModel>,
) -> Seq<LiteralModel>
    decreases exprs,
{
    Seq::new(
        exprs.len(),
        |i: int|
            if 0 <= i < exprs.len() {
                value_of(exprs[i], source, registry)
            } else {
                arbitrary()
            },
    )
}

/// What is known of the fields of an object. `{ x }` is short for
/// `{ x: x }`.
pub open spec fn field_values(
    fields: Seq<(KeyTree, Option<ExprTree>)>,
    source: Seq<char>,
    registry: Map<Seq<char>, OriginModel>,
) -> Seq<(Seq<char>, LiteralModel)>
    decreases fields,
{
    Seq::new(
        fields.len(),
        |i: int|
            if 0 <= i < fields.len() {
                (
                    key_text(fields[i].0, source)->Some_0,
                    match fields[i].1 {
                        Some(expr) => value_of(expr, source, registry),
                        None => LiteralModel::Dynamic(
                            ReasonModel::Variable(key_text(fields[i].0, source)->Some_0),
                        ),
                    },
                )
            } else {
                arbitrary()
            },
    )
}

fn classify_number(lit: NumberLit, source: &str) -> (r: LiteralValue)
    requires
        lit_fits(LitNode::Number(lit), source@),
    ensures
        r@ == number_value(lit, source@),
{
    let text = match lit.text {
        Some(text) => text,
        None => {
            return LiteralValue::Dynamic(DynamicReason::Expression);
        },
    };
    let digits = slice(source, text.number);
    let chars = chars_of(digits);
    if text.is_fractional {
        if reads_float(chars.as_slice()) {
            LiteralValue::Float(digits.to_owned())
        } else {
            LiteralValue::Dynamic(DynamicReason::Expression)
        }
    } else {
        let radix: u32 = match text.base {
            Base::Binary => 2,
            Base::Octal => 8,
            Base::Hex => 16,
            Base::Decimal => 10,
            Base::Other => 10,
        };
        proof {
            reveal_strlit("0b");
            reveal_strlit("0o");
            reveal_strlit("0x");
        }
        let bare = stripped(stripped(stripped(chars.as_slice(), "0b"), "0o"), "0x");
        match read_integer(bare, radix) {
            Some(n) => LiteralValue::Int(n),
            None => LiteralValue::Dynamic(DynamicReason::Expression),
        }
    }
}

fn classify_lit(lit: &LitNode, source: &str) -> (r: LiteralValue)
    requires
        lit_fits(*lit, source@),
    ensures
        r@ == lit_value(*lit, source@),
{
    match lit {
        LitNode::Bool(b) => LiteralValue::Bool(*b),
        LitNode::Str(lit) => LiteralValue::String(lit_str_value(source, *lit)),
        LitNode::Number(lit) => classify_number(*lit, source),
        LitNode::ByteStr => LiteralValue::Dynamic(DynamicReason::Expression),
        LitNode::Other => LiteralValue::Dynamic(DynamicReason::Expression),
    }
}

fn classify_key(key: &KeyNode, source: &str) -> (r: Option<String>)
    requires
        key_fits(key@, source@),
    ensures
        match r {
            Some(name) => key_text(key@, source@) == Some(name@),
            None => key_text(key@, source@) is None,
        },
{
    match key {
        KeyNode::Path(path) => single_segment(path, source),
        KeyNode::Str(lit) => Some(lit_str_value(source, *lit)),
        KeyNode::Other => None,
    }
}

fn classify_bare_path(path: &PathNode, source: &str) -> (r: LiteralValue)
    requires
        path_fits(path@, source@),
    ensures
        r@ == path_value(path@, source@),
{
    match single_segment(path, source) {
        Some(name) => {
            if same_text(name.as_str(), "None") {
                let path = vec!["Option".to_owned(), "None".to_owned()];
                assert(texts(path@) =~= seq!["Option"@, "None"@]);
                LiteralValue::Enum { path, inner: None }
            } else {
                LiteralValue::Dynamic(DynamicReason::Variable(name))
            }
        },
        None => LiteralValue::Dynamic(DynamicReason::Expression),
    }
}

fn method_name(field: &FieldNode, source: &str) -> (r: String)
    requires
        field_fits(field@, source@),
    ensures
        r@ == method_text(field@, source@),
{
    match field {
        FieldNode::Path(path) => match path_segments(path, source) {
            Some(segments) => if segments.len() > 0 {
                segments[0].clone()
            } else {
                String::new()
            },
            None => String::new(),
        },
        FieldNode::Number(span) => slice(source, *span).to_owned(),
        FieldNode::Other => String::new(),
    }
}

/// The full path of a variant of `Result` or `Option` that is called by its
/// own name.
pub fn canonical_builtin_variant(segments: &Vec<String>) -> (r: Option<Vec<String>>)
    ensures
        match r {
            Some(path) => builtin_variant(texts(segments@)) == Some(texts(path@)),
            None => builtin_variant(texts(segments@)) is None,
        },
{
    if segments.len() != 1 {
        return None;
    }
    let name = segments[0].as_str();
    let owner = if same_text(name, "Ok") || same_text(name, "Err") {
        "Result"
    } else if same_text(name, "Some") || same_text(name, "None") {
        "Option"
    } else {
        return None;
    };
    let path = vec![owner.to_owned(), name.to_owned()];
    assert(texts(path@) =~= seq![owner@, texts(segments@)[0]]);
    Some(path)
}

/// The value of `expr?` where it does not propagate.
fn classify_try_value(value: LiteralValue) -> (r: LiteralValue)
    ensures
        r@ == unwrapped(value@),
{
    match value {
        LiteralValue::ResolvedCall { name, type_def } => match declared_success_type(&type_def) {
            Some(type_def) => LiteralValue::ResolvedCall { name, type_def },
            None => LiteralValue::Dynamic(DynamicReason::TryPropagation),
        },
        LiteralValue::Enum { path, inner } => if ends_in(&path, "Ok", "Some") {
            match inner {
                Some(value) => *value,
                None => LiteralValue::Unit,
            }
        } else {
            LiteralValue::Dynamic(DynamicReason::TryPropagation)
        },
        _ => LiteralValue::Dynamic(DynamicReason::TryPropagation),
    }
}

/// What is known of the value of an expression.
pub fn classify_value(expr: &ExprNode, source: &str, registry: &SignatureRegistry) -> (r:
    LiteralValue)
    requires
        expr_fits(expr@, source@),
    ensures
        r@ == value_of(expr@, source@, registry@),
    decreases expr,
{
    match expr {
        ExprNode::Lit(lit) => classify_lit(lit, source),
        ExprNode::Object(anonymous, fields) => {
            if !*anonymous {
                return LiteralValue::Dynamic(DynamicReason::Expression);
            }
            match classify_fields(fields, source, registry) {
                Some(fields) => LiteralValue::Object(fields),
                None => LiteralValue::Dynamic(DynamicReason::Expression),
            }
        },
        ExprNode::Vec(items) => LiteralValue::List(classify_values(items, source, registry)),
        ExprNode::Call(callee, args, _) => {
            let values = classify_values(args, source, registry);
            classify_call(callee, values, source, registry)
        },
        ExprNode::Path(path) => classify_bare_path(path, source),
        ExprNode::Group(inner) => classify_value(inner, source, registry),
        ExprNode::Tuple(items) => {
            assert(exprs_model(items@).len() == items@.len());
            if items.len() == 0 {
                LiteralValue::Unit
            } else {
                LiteralValue::Dynamic(DynamicReason::Expression)
            }
        },
        ExprNode::Try(inner, _) => classify_try_value(classify_value(inner, source, registry)),
        _ => LiteralValue::Dynamic(DynamicReason::Expression),
    }
}

fn classify_values(exprs: &Vec<ExprNode>, source: &str, registry: &SignatureRegistry) -> (r: Vec<
    LiteralValue,
>)
    requires
        exprs_fit(exprs_model(exprs@), source@),
    ensures
        literals_model(r@) == values_of(exprs_model(exprs@), source@, registry@),
    decreases exprs,
{
    let mut out: Vec<LiteralValue> = Vec::new();
    for i in 0..exprs.len()
        invariant
            exprs_fit(exprs_model(exprs@), source@),
            out@.len() == i,
            forall|j: int|
                0 <= j < i ==> (#[trigger] out@[j])@ == value_of(exprs@[j]@, source@, registry@),
    {
        assert(exprs_model(exprs@)[i as int] == exprs@[i as int]@);
        out.push(classify_value(&exprs[i], source, registry));
    }
    assert(literals_model(out@) =~= values_of(exprs_model(exprs@), source@, registry@));
    out
}

fn classify_fields(
    fields: &Vec<(KeyNode, Option<ExprNode>)>,
    source: &str,
    registry: &SignatureRegistry,
) -> (r: Option<Vec<(String, LiteralValue)>>)
    requires
        fields_fit(object_fields_model(fields@), source@),
    ensures
        match r {
            Some(values) => all_named(object_fields_model(fields@), source@)
                && literal_fields_model(values@) == field_values(
                object_fields_model(fields@),
                source@,
                registry@,
            ),
            None => !all_named(object_fields_model(fields@), source@),
        },
    decreases fields,
{
    let ghost trees = object_fields_model(fields@);
    let mut out: Vec<(String, LiteralValue)> = Vec::new();
    for i in 0..fields.len()
        invariant
            trees == object_fields_model(fields@),
            fields_fit(trees, source@),
            out@.len() == i,
            forall|j: int|
                0 <= j < i ==> key_text((#[trigger] trees[j]).0, source@) is Some,
            forall|j: int|
                0 <= j < i ==> ((#[trigger] out@[j]).0@, out@[j].1@) == field_values(
                    trees,
                    source@,
                    registry@,
                )[j],
    {
        assert(trees[i as int] == (fields@[i as int].0@, optional_model(fields@[i as int].1)));
        let key = match classify_key(&fields[i].0, source) {
            Some(key) => key,
            None => {
                return None;
            },
        };
        assert(optional_fits(trees[i as int].1, source@));
        let value = match &fields[i].1 {
            Some(expr) => classify_value(expr, source, registry),
            None => LiteralValue::Dynamic(DynamicReason::Variable(key.clone())),
        };
        out.push((key, value));
    }
    assert(literal_fields_model(out@) =~= field_values(trees, source@, registry@));
    Some(out)
}

/// The value of a call, by the values of its arguments.
fn classify_call(
    callee: &ExprNode,
    args: Vec<LiteralValue>,
    source: &str,
    registry: &SignatureRegistry,
) -> (r: LiteralValue)
    requires
        expr_fits(callee@, source@),
    ensures
        r@ == call_value(callee@, literals_model(args@), source@, registry@),
{
    let path = match callee {
        // A method call, e.g. `value.compute()`: the callee is no path.
        ExprNode::FieldAccess(_, field) => {
            return LiteralValue::Dynamic(DynamicReason::MethodCall(method_name(field, source)));
        },
        ExprNode::Path(path) => path,
        // An indirect call, e.g. `f(x)` where `f` is any other expression.
        _ => {
            return LiteralValue::Dynamic(DynamicReason::IndirectCall);
        },
    };
    let segments = match path_segments(path, source) {
        Some(segments) => segments,
        None => {
            return LiteralValue::Dynamic(DynamicReason::IndirectCall);
        },
    };
    let name = joined(&segments, "::");
    if let Some(origin) = registry.signatures.get(name.as_str()) {
        return LiteralValue::ResolvedCall { name, type_def: origin.type_def().clone() };
    }
    if args.len() <= 1 {
        if let Some(canonical) = canonical_builtin_variant(&segments) {
            return LiteralValue::Enum { path: canonical, inner: first_arg(args) };
        }
        if starts_uppercase(last_string(&segments)) {
            return LiteralValue::Enum { path: segments, inner: first_arg(args) };
        }
    }
    LiteralValue::Dynamic(DynamicReason::UnannotatedCall(name))
}

/// The only argument, if there is one.
fn first_arg(args: Vec<LiteralValue>) -> (r: Option<Box<LiteralValue>>)
    requires
        args@.len() <= 1,
    ensures
        inner_model(r) == first_value(literals_model(args@)),
{
    let mut args = args;
    let ghost before = args@;
    match args.pop() {
        Some(value) => {
            assert(literals_model(before)[0] == value@);
            Some(Box::new(value))
        },
        None => None,
    }
}

// ---------------------------------------------------------------------------
// Return sites.
// ---------------------------------------------------------------------------

/// The return site at which a value is returned.
pub open spec fn site_of(value: LiteralModel) -> SiteModel {
    match value {
        LiteralModel::Object(fields) => SiteModel::ObjectLiteral(fields),
        LiteralModel::Enum { path, inner } => SiteModel::EnumLiteral { path, inner },
        LiteralModel::Unit => SiteModel::Unit,
        LiteralModel::ResolvedCall { name, type_def } => SiteModel::ResolvedCall {
            name,
            type_def,
        },
        LiteralModel::Dynamic(reason) => SiteModel::Dynamic(reason),
        other => SiteModel::PrimitiveLiteral(other),
    }
}

/// The return site through which `expr?` on the given line may leave the
/// function, by the value of `expr`; none where there is nothing to
/// propagate.
pub open spec fn early_site(value: LiteralModel, line: nat) -> Option<SiteModel> {
    match value {
        LiteralModel::ResolvedCall { name, type_def } => match alternatives(type_def) {
            Some(variants) => {
                let errors = error_variants(variants);
                if errors.len() == 0 {
                    None
                } else {
                    Some(SiteModel::ResolvedCall { name, type_def: TypeModel::Enum(errors) })
                }
            },
            None => None,
        },
        LiteralModel::Enum { path, inner } => if last_of(path) == Some("Err"@) || last_of(path)
            == Some("None"@) {
            Some(SiteModel::EnumLiteral { path, inner })
        } else {
            None
        },
        LiteralModel::Dynamic(_) => Some(SiteModel::TryPropagation { line }),
        _ => None,
    }
}

/// The return sites within an expression: each `return` and each `?` in it,
/// but for those of closures, which leave the closure and not the function.
pub open spec fn sites_in(
    expr: ExprTree,
    source: Seq<char>,
    registry: Map<Seq<char>, OriginModel>,
) -> Seq<SiteModel>
    decreases expr, sub_exprs(expr).len() + 1,
{
    match expr {
        ExprTree::Return(Some(inner)) => sites_in(*inner, source, registry).push(
            site_of(value_of(*inner, source, registry)),
        ),
        ExprTree::Return(None) => seq![SiteModel::Unit],
        ExprTree::Try(inner, span) => {
            let before = sites_in(*inner, source, registry);
            match early_site(
                value_of(*inner, source, registry),
                line_number(source, span.start as int),
            ) {
                Some(site) => before.push(site),
                None => before,
            }
        },
        ExprTree::Closure(_, _) => Seq::empty(),
        _ => sites_in_first(expr, sub_exprs(expr).len(), source, registry),
    }
}

/// The return sites within the first `n` direct sub-expressions of an
/// expression.
pub open spec fn sites_in_first(
    expr: ExprTree,
    n: nat,
    source: Seq<char>,
    registry: Map<Seq<char>, OriginModel>,
) -> Seq<SiteModel>
    decreases expr, n,
{
    if n == 0 || n > sub_exprs(expr).len() {
        Seq::empty()
    } else {
        proof {
            lemma_sub_exprs_smaller(expr);
        }
        sites_in_first(expr, (n - 1) as nat, source, registry) + sites_in(
            sub_exprs(expr)[n - 1],
            source,
            registry,
        )
    }
}

/// The return sites within the first `n` of a sequence of expressions.
pub open spec fn sites_in_all(
    exprs: Seq<ExprTree>,
    n: nat,
    source: Seq<char>,
    registry: Map<Seq<char>, OriginModel>,
) -> Seq<SiteModel>
    decreases n,
{
    if n == 0 {
        Seq::empty()
    } else {
        sites_in_all(exprs, (n - 1) as nat, source, registry) + sites_in(
            exprs[n - 1],
            source,
            registry,
        )
    }
}

/// What the block evaluates to.
pub enum TailTree {
    /// The unit: the last statement has no value.
    Unit,
    /// The value of the last statement, an expression without a semicolon.
    Expr(ExprTree),
    /// Nothing: the last statement is a `return`, which is a return site of
    /// its own.
    Diverges,
}

/// What a block evaluates to.
pub open spec fn tail_of(block: BlockTree) -> TailTree {
    if block.statements.len() == 0 {
        TailTree::Unit
    } else {
        match block.statements.last() {
            StmtTree::Expr(ExprTree::Return(_)) => TailTree::Diverges,
            StmtTree::Expr(expr) => TailTree::Expr(expr),
            StmtTree::Semi(ExprTree::Return(_)) => TailTree::Diverges,
            _ => TailTree::Unit,
        }
    }
}

/// The return sites at which the value of a block is returned.
pub open spec fn block_tail_sites(
    block: BlockTree,
    source: Seq<char>,
    registry: Map<Seq<char>, OriginModel>,
) -> Seq<SiteModel>
    decreases block, 0nat,
{
    match tail_of(block) {
        TailTree::Unit => seq![SiteModel::Unit],
        TailTree::Expr(expr) => {
            proof {
                lemma_tail_smaller(block);
            }
            tail_sites(expr, source, registry)
        },
        TailTree::Diverges => Seq::empty(),
    }
}

/// The return sites at which the value of an expression is returned: for a
/// block, an `if` or a `match` those of its branches.
pub open spec fn tail_sites(
    expr: ExprTree,
    source: Seq<char>,
    registry: Map<Seq<char>, OriginModel>,
) -> Seq<SiteModel>
    decreases expr, 0nat,
{
    match expr {
        ExprTree::Block(block) => block_tail_sites(block, source, registry),
        ExprTree::If(branches, otherwise) => branch_tail_sites(
            branches,
            branches.len(),
            source,
            registry,
        ) + (match otherwise {
            Some(block) => block_tail_sites(block, source, registry),
            None => seq![SiteModel::Unit],
        }),
        ExprTree::Match(_, arms) => arm_tail_sites(arms, arms.len(), source, registry),
        _ => seq![site_of(value_of(expr, source, registry))],
    }
}

/// The return sites at which the values of the first `n` branches are
/// returned.
pub open spec fn branch_tail_sites(
    branches: Seq<(ConditionTree, BlockTree)>,
    n: nat,
    source: Seq<char>,
    registry: Map<Seq<char>, OriginModel>,
) -> Seq<SiteModel>
    decreases branches, n,
{
    if n == 0 || n > branches.len() {
        Seq::empty()
    } else {
        branch_tail_sites(branches, (n - 1) as nat, source, registry) + block_tail_sites(
            branches[n - 1].1,
            source,
            registry,
        )
    }
}

/// The return sites at which the values of the first `n` arms are returned.
pub open spec fn arm_tail_sites(
    arms: Seq<ArmTree>,
    n: nat,
    source: Seq<char>,
    registry: Map<Seq<char>, OriginModel>,
) -> Seq<SiteModel>
    decreases arms, n,
{
    if n == 0 || n > arms.len() {
        Seq::empty()
    } else {
        arm_tail_sites(arms, (n - 1) as nat, source, registry) + tail_sites(
            arms[n - 1].body,
            source,
            registry,
        )
    }
}

/// The expression that gives a block its value is smaller than the block.
pub proof fn lemma_tail_smaller(block: BlockTree)
    ensures
        tail_of(block) is Expr ==> decreases_to!(block => tail_of(block)->Expr_0),
{
    if block.statements.len() > 0 {
        let last = block.statements.last();
        assert(decreases_to!(block => block.statements));
        assert(decreases_to!(block.statements => block.statements[block.statements.len() - 1]));
        assert(last is Expr ==> decreases_to!(last => last->Expr_0));
    }
}

/// The return sites of a function: the explicit ones in its body, then those
/// at which the value of the body is returned.
pub open spec fn return_sites(
    body: BlockTree,
    source: Seq<char>,
    registry: Map<Seq<char>, OriginModel>,
) -> Seq<SiteModel> {
    sites_in_all(block_exprs(body), block_exprs(body).len(), source, registry) + block_tail_sites(
        body,
        source,
        registry,
    )
}

/// The site at which the value of an expression is returned.
fn classify_top(expr: &ExprNode, source: &str, registry: &SignatureRegistry) -> (r: ReturnSite)
    requires
        expr_fits(expr@, source@),
    ensures
        r@ == site_of(value_of(expr@, source@, registry@)),
{
    match classify_value(expr, source, registry) {
        LiteralValue::Object(fields) => ReturnSite::ObjectLiteral(fields),
        LiteralValue::Enum { path, inner } => ReturnSite::EnumLiteral { path, inner },
        LiteralValue::Unit => ReturnSite::Unit,
        LiteralValue::ResolvedCall { name, type_def } => ReturnSite::ResolvedCall {
            name,
            type_def,
        },
        LiteralValue::Dynamic(reason) => ReturnSite::Dynamic(reason),
        other => ReturnSite::PrimitiveLiteral(other),
    }
}

/// The site through which `expr?` may leave the function, by the value of
/// `expr`.
fn try_early_return_site(value: LiteralValue, line: usize) -> (r: Option<ReturnSite>)
    ensures
        match r {
            Some(site) => early_site(value@, line as nat) == Some(site@),
            None => early_site(value@, line as nat) is None,
        },
{
    match value {
        LiteralValue::ResolvedCall { name, type_def } => match declared_alternatives(&type_def) {
            Some(variants) => {
                let errors = try_error_variants(variants);
                assert(variants_model(errors@).len() == errors@.len());
                if errors.len() == 0 {
                    None
                } else {
                    Some(ReturnSite::ResolvedCall { name, type_def: TypeDef::Enum(errors) })
                }
            },
            // A declared type without alternatives has nothing to propagate.
            None => None,
        },
        LiteralValue::Enum { path, inner } => if ends_in(&path, "Err", "None") {
            // `Err(e)?` and `None?` propagate the literal as it is.
            Some(ReturnSite::EnumLiteral { path, inner })
        } else {
            None
        },
        // Of an unknown type anything may propagate.
        LiteralValue::Dynamic(_) => Some(ReturnSite::TryPropagation { line }),
        // `?` on another literal has nothing to propagate.
        _ => None,
    }
}

/// Appends a return site.
fn push_site(out: &mut Vec<ReturnSite>, site: ReturnSite)
    ensures
        sites_model(final(out)@) == sites_model(old(out)@).push(site@),
{
    out.push(site);
    assert(sites_model(out@) =~= sites_model(old(out)@).push(site@));
}

/// Collects the return sites within an expression.
fn scan_returns_in_expr(
    expr: &ExprNode,
    source: &str,
    registry: &SignatureRegistry,
    out: &mut Vec<ReturnSite>,
)
    requires
        expr_fits(expr@, source@),
    ensures
        sites_model(final(out)@) == sites_model(old(out)@) + sites_in(expr@, source@, registry@),
    decreases expr@,
{
    proof {
        lemma_sub_exprs_smaller(expr@);
        lemma_sub_exprs_fit(expr@, source@);
    }
    let ghost before = sites_model(out@);
    match expr {
        ExprNode::Return(inner) => match inner {
            Some(inner) => {
                assert(boxed_model(Some(*inner)) == Some(Box::new(inner@)));
                assert(sub_exprs(expr@)[0] == inner@);
                scan_returns_in_expr(inner, source, registry, out);
                push_site(out, classify_top(inner, source, registry));
                assert(sites_model(out@) =~= before + sites_in(expr@, source@, registry@));
            },
            None => {
                push_site(out, ReturnSite::Unit);
                assert(boxed_model(None) is None);
                assert(sites_model(out@) =~= before + sites_in(expr@, source@, registry@));
            },
        },
        ExprNode::Try(inner, span) => {
            assert(sub_exprs(expr@)[0] == inner@);
            scan_returns_in_expr(inner, source, registry, out);
            let line = line_of(source, *span);
            // `expr?` is a hidden early return of the error.
            if let Some(site) = try_early_return_site(
                classify_value(inner, source, registry),
                line,
            ) {
                push_site(out, site);
            }
            assert(sites_model(out@) =~= before + sites_in(expr@, source@, registry@));
        },
        // A `return` in a closure belongs to the closure.
        ExprNode::Closure(_, _) => {
            assert(sites_model(out@) =~= before + sites_in(expr@, source@, registry@));
        },
        _ => {
            let exprs = direct_exprs(expr);
            let ghost trees = sub_exprs(expr@);
            for i in 0..exprs.len()
                invariant
                    refs_model(exprs@) == trees,
                    trees == sub_exprs(expr@),
                    exprs_fit(trees, source@),
                    forall|j: int|
                        #![trigger sub_exprs(expr@)[j]]
                        0 <= j < sub_exprs(expr@).len() ==> decreases_to!(
                            expr@ => sub_exprs(expr@)[j]
                        ),
                    sites_model(out@) =~= before + sites_in_first(
                        expr@,
                        i as nat,
                        source@,
                        registry@,
                    ),
            {
                assert(trees[i as int] == exprs@[i as int]@);
                scan_returns_in_expr(exprs[i], source, registry, out);
            }
        },
    }
}

/// Collects the return sites within a block.
fn scan_returns_in_block(
    block: &BlockNode,
    source: &str,
    registry: &SignatureRegistry,
    out: &mut Vec<ReturnSite>,
)
    requires
        block_fits(block@, source@),
    ensures
        sites_model(final(out)@) == sites_model(old(out)@) + sites_in_all(
            block_exprs(block@),
            block_exprs(block@).len(),
            source@,
            registry@,
        ),
{
    proof {
        lemma_block_exprs_fit(block@, source@);
    }
    let ghost before = sites_model(out@);
    let exprs = block_expr_list(block);
    let ghost trees = block_exprs(block@);
    for i in 0..exprs.len()
        invariant
            refs_model(exprs@) == trees,
            exprs_fit(trees, source@),
            sites_model(out@) =~= before + sites_in_all(trees, i as nat, source@, registry@),
    {
        assert(trees[i as int] == exprs@[i as int]@);
        scan_returns_in_expr(exprs[i], source, registry, out);
    }
}

/// What a block evaluates to.
enum BlockTail<'a> {
    Unit,
    Expr(&'a ExprNode),
    Diverges,
}

fn block_tail<'a>(block: &'a BlockNode) -> (r: BlockTail<'a>)
    ensures
        match r {
            BlockTail::Unit => tail_of(block@) is Unit,
            BlockTail::Expr(expr) => tail_of(block@) == TailTree::Expr(expr@),
            BlockTail::Diverges => tail_of(block@) is Diverges,
        },
{
    let n = block.statements.len();
    assert(block@.statements.len() == n);
    if n == 0 {
        return BlockTail::Unit;
    }
    assert(block@.statements[n - 1] == block.statements@[n - 1]@);
    match &block.statements[n - 1] {
        StmtNode::Expr(expr) => match expr {
            ExprNode::Return(_) => BlockTail::Diverges,
            _ => BlockTail::Expr(expr),
        },
        StmtNode::Semi(expr) => match expr {
            ExprNode::Return(_) => BlockTail::Diverges,
            _ => BlockTail::Unit,
        },
        _ => BlockTail::Unit,
    }
}

/// Collects the return sites at which the value of a block is returned.
fn collect_tail_sites_block(
    block: &BlockNode,
    source: &str,
    registry: &SignatureRegistry,
    out: &mut Vec<ReturnSite>,
)
    requires
        block_fits(block@, source@),
    ensures
        sites_model(final(out)@) == sites_model(old(out)@) + block_tail_sites(
            block@,
            source@,
            registry@,
        ),
    decreases block@, 0nat,
{
    let ghost before = sites_model(out@);
    match block_tail(block) {
        BlockTail::Expr(expr) => {
            proof {
                lemma_tail_smaller(block@);
                assert(stmt_fits(block@.statements.last(), source@));
            }
            collect_tail_sites_expr(expr, source, registry, out);
        },
        BlockTail::Unit => push_site(out, ReturnSite::Unit),
        BlockTail::Diverges => {},
    }
    assert(sites_model(out@) =~= before + block_tail_sites(block@, source@, registry@));
}

/// Collects the return sites at which the value of an expression is returned.
fn collect_tail_sites_expr(
    expr: &ExprNode,
    source: &str,
    registry: &SignatureRegistry,
    out: &mut Vec<ReturnSite>,
)
    requires
        expr_fits(expr@, source@),
    ensures
        sites_model(final(out)@) == sites_model(old(out)@) + tail_sites(expr@, source@, registry@),
    decreases expr@, 0nat,
{
    let ghost before = sites_model(out@);
    match expr {
        ExprNode::Block(block) => {
            assert(decreases_to!(expr@ => expr@->Block_0));
            collect_tail_sites_block(block, source, registry, out);
        },
        ExprNode::If(branches, otherwise) => {
            assert(decreases_to!(expr@ => expr@->If_0));
            assert(decreases_to!(expr@ => expr@->If_1));
            collect_tail_sites_branches(branches, source, registry, out);
            match otherwise {
                Some(block) => {
                    assert(decreases_to!(expr@->If_1 => expr@->If_1->Some_0));
                    collect_tail_sites_block(block, source, registry, out);
                },
                None => push_site(out, ReturnSite::Unit),
            }
        },
        ExprNode::Match(_, arms) => {
            assert(decreases_to!(expr@ => expr@->Match_1));
            collect_tail_sites_arms(arms, source, registry, out);
        },
        _ => push_site(out, classify_top(expr, source, registry)),
    }
    assert(sites_model(out@) =~= before + tail_sites(expr@, source@, registry@));
}

fn collect_tail_sites_branches(
    branches: &Vec<(ConditionNode, BlockNode)>,
    source: &str,
    registry: &SignatureRegistry,
    out: &mut Vec<ReturnSite>,
)
    requires
        branches_fit(branches_model(branches@), source@),
    ensures
        sites_model(final(out)@) == sites_model(old(out)@) + branch_tail_sites(
            branches_model(branches@),
            branches@.len(),
            source@,
            registry@,
        ),
    decreases branches_model(branches@), 0nat,
{
    let ghost before = sites_model(out@);
    let ghost trees = branches_model(branches@);
    for i in 0..branches.len()
        invariant
            trees == branches_model(branches@),
            branches_fit(trees, source@),
            sites_model(out@) =~= before + branch_tail_sites(trees, i as nat, source@, registry@),
    {
        proof {
            assert(trees[i as int] == (branches@[i as int].0@, branches@[i as int].1@));
            assert(decreases_to!(trees => trees[i as int]));
            assert(decreases_to!(trees[i as int] => trees[i as int].1));
        }
        collect_tail_sites_block(&branches[i].1, source, registry, out);
    }
}

fn collect_tail_sites_arms(
    arms: &Vec<ArmNode>,
    source: &str,
    registry: &SignatureRegistry,
    out: &mut Vec<ReturnSite>,
)
    requires
        arms_fit(arms_model(arms@), source@),
    ensures
        sites_model(final(out)@) == sites_model(old(out)@) + arm_tail_sites(
            arms_model(arms@),
            arms@.len(),
            source@,
            registry@,
        ),
    decreases arms_model(arms@), 0nat,
{
    let ghost before = sites_model(out@);
    let ghost trees = arms_model(arms@);
    for i in 0..arms.len()
        invariant
            trees == arms_model(arms@),
            arms_fit(trees, source@),
            sites_model(out@) =~= before + arm_tail_sites(trees, i as nat, source@, registry@),
    {
        proof {
            assert(trees[i as int] == arms@[i as int]@);
            assert(arm_fits(trees[i as int], source@));
            assert(decreases_to!(trees => trees[i as int]));
            assert(decreases_to!(trees[i as int] => trees[i as int].body));
        }
        collect_tail_sites_expr(&arms[i].body, source, registry, out);
    }
}

/// All sites at which a function returns: each explicit `return` and each `?`
/// anywhere in its body, and the value of the body.
pub fn find_return_sites(item_fn: &FnItem, source: &str, registry: &SignatureRegistry) -> (r: Vec<
    ReturnSite,
>)
    requires
        fn_fits(item_fn@, source@),
    ensures
        sites_model(r@) == return_sites(item_fn@.body, source@, registry@),
{
    let mut sites: Vec<ReturnSite> = Vec::new();
    scan_returns_in_block(&item_fn.body, source, registry, &mut sites);
    collect_tail_sites_block(&item_fn.body, source, registry, &mut sites);
    assert(sites_model(sites@) =~= return_sites(item_fn@.body, source@, registry@));
    sites
}

// ---------------------------------------------------------------------------
// Functions of a script and their doc-comments.
// ---------------------------------------------------------------------------

/// Parses a script.
pub fn parse_file(source: &str) -> (r: Result<Script, CheckerError>)
    requires
        encode_utf8(source@).len() <= u32::MAX,
    ensures
        match (r, parsed(source@)) {
            (Ok(script), Ok(tree)) => script@ == tree && script_fits(tree, source@),
            (Err(e), Err(message)) => e@ == ErrorModel::RuneParseError(message),
            _ => false,
        },
{
    parse_script(source)
}

/// Whether an item is a function of the given name.
pub open spec fn is_fn_named(item: ItemTree, source: Seq<char>, name: Seq<char>) -> bool {
    item is Fn && span_text(source, item->Fn_0.name) == name
}

/// The first of the items from `from` on that is a function of the given
/// name.
pub open spec fn fn_from(
    items: Seq<ItemTree>,
    from: nat,
    source: Seq<char>,
    name: Seq<char>,
) -> Option<FnTree>
    decreases items.len() - from,
{
    if from >= items.len() {
        None
    } else if is_fn_named(items[from as int], source, name) {
        Some(items[from as int]->Fn_0)
    } else {
        fn_from(items, from + 1, source, name)
    }
}

/// The first function of the given name.
pub open spec fn fn_named(script: ScriptTree, source: Seq<char>, name: Seq<char>) -> Option<
    FnTree,
> {
    fn_from(script.items, 0, source, name)
}

/// Finds a top-level function by its name.
pub fn find_function<'a>(file: &'a Script, source: &str, name: &str) -> (r: Option<&'a FnItem>)
    requires
        script_fits(file@, source@),
    ensures
        match r {
            Some(item_fn) => fn_named(file@, source@, name@) == Some(item_fn@) && fn_fits(
                item_fn@,
                source@,
            ),
            None => fn_named(file@, source@, name@) is None,
        },
{
    let ghost items = file@.items;
    for i in 0..file.items.len()
        invariant
            items == file@.items,
            script_fits(file@, source@),
            fn_named(file@, source@, name@) == fn_from(items, i as nat, source@, name@),
    {
        assert(items[i as int] == file.items@[i as int]@);
        assert(item_fits(items[i as int], source@));
        if let ItemNode::Fn(item_fn) = &file.items[i] {
            if same_text(slice(source, item_fn.name), name) {
                return Some(item_fn);
            }
        }
    }
    None
}

/// The smaller of a position and another, where there is one.
pub open spec fn earlier(at: usize, other: Option<usize>) -> usize {
    match other {
        Some(other) => if other < at {
            other
        } else {
            at
        },
        None => at,
    }
}

/// Where the declaration of a function starts: at the first of its modifiers,
/// or at `fn`.
pub open spec fn fn_start(item: FnTree) -> usize {
    earlier(earlier(earlier(item.fn_token, item.visibility), item.const_token), item.async_token)
}

/// The lines without the blank ones at their end.
pub open spec fn without_blank_end(lines: Seq<Seq<char>>) -> Seq<Seq<char>>
    decreases lines.len(),
{
    if lines.len() > 0 && trim(lines.last()).len() == 0 {
        without_blank_end(lines.drop_last())
    } else {
        lines
    }
}

/// The contiguous block of `///` lines at the end of the lines, without the
/// prefix. Any other line ends it, also a blank one.
pub open spec fn doc_block(lines: Seq<Seq<char>>) -> Seq<Seq<char>>
    decreases lines.len(),
{
    if lines.len() > 0 && starts_with(trim(lines.last()), "///"@) {
        doc_block(lines.drop_last()).push(trim_start(trim(lines.last()).skip(3)))
    } else {
        Seq::empty()
    }
}

/// The contiguous block of `///` lines at the end of the lines, with blank
/// lines below it or not.
pub open spec fn doc_lines(lines: Seq<Seq<char>>) -> Seq<Seq<char>> {
    doc_block(without_blank_end(lines))
}

/// The doc-comment of `///` lines at the end of a text.
pub open spec fn line_doc(before: Seq<char>) -> Option<Seq<char>> {
    let found = doc_lines(lines(before));
    if found.len() == 0 {
        None
    } else {
        Some(join(found, "\n"@))
    }
}

/// A line of a block comment without the star at its start.
pub open spec fn without_star(line: Seq<char>) -> Seq<char> {
    let line = trim(line);
    if line.len() > 0 && line[0] == '*' {
        trim_start(line.skip(1))
    } else {
        line
    }
}

/// The doc-comment `/** ... */` at the end of a text.
pub open spec fn block_doc(before: Seq<char>) -> Option<Seq<char>> {
    let trimmed = trim_end(before);
    if !ends_with(trimmed, "*/"@) {
        None
    } else {
        let inside = trimmed.take(trimmed.len() - 2);
        match last_occurrence(inside, "/**"@, inside.len() + 1) {
            None => None,
            Some(open) => {
                let content = inside.skip(open + 3);
                if contains_text(content, "*/"@) {
                    None
                } else {
                    let text = trim(
                        join(
                            lines(content).map_values(|line: Seq<char>| without_star(line)),
                            "\n"@,
                        ),
                    );
                    if text.len() == 0 {
                        None
                    } else {
                        Some(text)
                    }
                }
            },
        }
    }
}

/// The doc-comment at the end of a text, in either style.
pub open spec fn doc_at_end(before: Seq<char>) -> Option<Seq<char>> {
    match line_doc(before) {
        Some(doc) => Some(doc),
        None => block_doc(before),
    }
}

/// The doc-comment right before a function.
pub open spec fn doc_of(item: FnTree, source: Seq<char>) -> Option<Seq<char>> {
    doc_at_end(text_before(source, fn_start(item) as int))
}

/// The smaller of a position and another, where there is one.
fn min_start(at: usize, other: Option<usize>) -> (r: usize)
    ensures
        r == earlier(at, other),
{
    match other {
        Some(other) => if other < at {
            other
        } else {
            at
        },
        None => at,
    }
}

/// The content of the doc-comment right before a function, in line style
/// (`///`) or in block style (`/** ... */`).
pub fn doc_comment_before(file_source: &str, item_fn: &FnItem) -> (r: Option<String>)
    requires
        fn_fits(item_fn@, file_source@),
    ensures
        match r {
            Some(doc) => doc_of(item_fn@, file_source@) == Some(doc@),
            None => doc_of(item_fn@, file_source@) is None,
        },
{
    // The modifiers `pub`, `const` and `async` stand before `fn`.
    let start = min_start(
        min_start(min_start(item_fn.fn_token, item_fn.visibility), item_fn.const_token),
        item_fn.async_token,
    );
    let before = text_up_to(file_source, start);
    match line_doc_comment(before) {
        Some(doc) => Some(doc),
        None => block_doc_comment(before),
    }
}

/// Line style: the block of `///` lines at the end of the text.
pub fn line_doc_comment(before: &str) -> (r: Option<String>)
    ensures
        match r {
            Some(doc) => line_doc(before@) == Some(doc@),
            None => line_doc(before@) is None,
        },
{
    let chars = chars_of(before);
    let all = split_lines(chars.as_slice());
    let ghost texts_of_all = slice_texts(all@);
    let mut found: Vec<String> = Vec::new();
    let mut n: usize = all.len();
    assert(texts_of_all.take(n as int) =~= texts_of_all);
    while n > 0 && trimmed(all[n - 1]).len() == 0
        invariant
            n <= all@.len(),
            texts_of_all == slice_texts(all@),
            without_blank_end(texts_of_all) == without_blank_end(texts_of_all.take(n as int)),
        decreases n,
    {
        assert(texts_of_all.take(n as int).last() == all@[n - 1]@);
        assert(texts_of_all.take(n as int).drop_last() =~= texts_of_all.take(n - 1));
        n -= 1;
    }
    proof {
        if n > 0 {
            assert(texts_of_all.take(n as int).last() == all@[n - 1]@);
        }
        assert(without_blank_end(texts_of_all) == texts_of_all.take(n as int));
        assert(doc_lines(texts_of_all) =~= doc_block(texts_of_all.take(n as int)) + texts(
            found@,
        ).reverse());
    }
    while n > 0
        invariant_except_break
            n <= all@.len(),
            texts_of_all == slice_texts(all@),
            doc_lines(texts_of_all) == doc_block(texts_of_all.take(n as int)) + texts(
                found@,
            ).reverse(),
        ensures
            doc_lines(texts_of_all) =~= texts(found@).reverse(),
        decreases n,
    {
        let line = trimmed(all[n - 1]);
        assert(texts_of_all.take(n as int).last() == all@[n - 1]@);
        assert(texts_of_all.take(n as int).drop_last() =~= texts_of_all.take(n - 1));
        proof {
            reveal_strlit("///");
        }
        match after_prefix(line, "///") {
            Some(rest) => {
                let ghost before_texts = texts(found@);
                let doc = string_of(trimmed_start(rest));
                let ghost pushed = doc@;
                found.push(doc);
                assert(texts(found@) =~= before_texts.push(pushed));
                assert(texts(found@).reverse() =~= seq![pushed] + before_texts.reverse());
                assert(doc_block(texts_of_all.take(n as int)) + before_texts.reverse()
                    =~= doc_block(texts_of_all.take(n - 1)) + texts(found@).reverse());
                n -= 1;
            },
            None => {
                break;
            },
        }
    }
    if found.len() == 0 {
        return None;
    }
    let mut ordered: Vec<String> = Vec::new();
    for i in 0..found.len()
        invariant
            texts(ordered@) =~= texts(found@).reverse().take(i as int),
    {
        let ghost taken = texts(ordered@);
        ordered.push(found[found.len() - 1 - i].clone());
        assert(texts(ordered@) =~= taken.push(texts(found@).reverse()[i as int]));
    }
    assert(texts(found@).reverse().take(found@.len() as int) =~= texts(found@).reverse());
    Some(joined(&ordered, "\n"))
}

/// Block style: the `/** ... */` at the end of the text, each line without
/// its star.
pub fn block_doc_comment(before: &str) -> (r: Option<String>)
    ensures
        match r {
            Some(doc) => block_doc(before@) == Some(doc@),
            None => block_doc(before@) is None,
        },
{
    proof {
        reveal_strlit("*/");
        reveal_strlit("/**");
    }
    let chars = chars_of(before);
    let trimmed_before = trimmed_end(chars.as_slice());
    let inside = match before_suffix(trimmed_before, "*/") {
        Some(inside) => inside,
        None => {
            return None;
        },
    };
    let open = match last_found(inside, "/**") {
        Some(open) => open,
        None => {
            return None;
        },
    };
    let end = inside.len();
    assert(open + 3 <= end);
    let content = slice_subrange(inside, open + 3, end);
    if last_found(content, "*/").is_some() {
        // The `/**` belongs to an earlier comment, which is closed already.
        return None;
    }
    let all = split_lines(content);
    let ghost wanted = lines(content@).map_values(|line: Seq<char>| without_star(line));
    let mut parts: Vec<String> = Vec::new();
    for i in 0..all.len()
        invariant
            slice_texts(all@) == lines(content@),
            wanted == lines(content@).map_values(|line: Seq<char>| without_star(line)),
            texts(parts@) =~= wanted.take(i as int),
    {
        let line = trimmed(all[i]);
        assert(lines(content@)[i as int] == all@[i as int]@);
        let bare = match after_char(line, '*') {
            Some(rest) => trimmed_start(rest),
            None => line,
        };
        let ghost taken = texts(parts@);
        parts.push(string_of(bare));
        assert(texts(parts@) =~= taken.push(wanted[i as int]));
    }
    assert(wanted.take(wanted.len() as int) =~= wanted);
    let text = joined(&parts, "\n");
    let text_chars = chars_of(text.as_str());
    let doc = trimmed(text_chars.as_slice());
    if doc.len() == 0 {
        None
    } else {
        Some(string_of(doc))
    }
}

} // verus!
