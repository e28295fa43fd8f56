//! The types that are inferred, and the method calls that are wrong by them.

use vstd::prelude::*;

use crate::ast_analyzer::{fn_named, lit_value, segments_of, success_of};
use crate::laws::expressions::{holds_in_block, lemma_holds_weaker_in_block};
use crate::laws::method_calls::{sure, surely_reports, wrong_calls_are_reported_wherever_they_stand};
use crate::laws::values::{is_name, single_names_are_written_out};
use crate::method_checker::{
    assigned_in_all, call_fault, enum_name, enum_names, forget, is_missing, method_type,
    missing_methods, names_of_type, type_of, unreported, walked, walked_first, walked_list,
    with_env, Setting, TypesModel, WalkState,
};
use crate::report::MethodViolationModel;
use crate::source_text::{line_number, span_text};
use crate::static_checker::outcome;
use crate::syntax::{
    sub_exprs, ExprTree, FieldTree, FnTree, KeyTree, LitNode, NumberLit, PathTree, ScriptTree, Span,
};
use crate::text::{join, uppercase};
use crate::types::{ContractModel, MethodTable, OriginModel, PrimitiveType, TypeModel, VariantModel};
use crate::validation::{checked_fn, HostModel};

verus! {

// ---------------------------------------------------------------------------
// Literals.
// ---------------------------------------------------------------------------

/// Whether a number has no suffix, or that of a signed integer.
pub open spec fn is_signed(number: NumberLit, source: Seq<char>) -> bool {
    number.text matches Some(text) ==> {
        let suffix = span_text(source, Span { start: text.number.end, end: number.span.end });
        suffix.len() == 0 || suffix == "i8"@ || suffix == "i16"@ || suffix == "i32"@ || suffix
            == "i64"@
    }
}

/// Whether a number is written with a fraction.
pub open spec fn is_fraction(number: NumberLit) -> bool {
    number.text matches Some(text) && text.is_fractional
}

/// The type of a literal is that of its value: a string is a `String`, `true`
/// and `false` are `bool`, a byte string is `bytes`, a number with a fraction
/// is a `float` and any other one an `int`, unless its suffix says that it is
/// neither.
pub proof fn literals_have_the_type_of_their_value(lit: LitNode, env: TypesModel, cx: Setting)
    ensures
        match lit {
            LitNode::Str(_) => type_of(ExprTree::Lit(lit), env, cx) == Some(
                TypeModel::Primitive(PrimitiveType::String),
            ),
            LitNode::Bool(_) => type_of(ExprTree::Lit(lit), env, cx) == Some(
                TypeModel::Primitive(PrimitiveType::Bool),
            ),
            LitNode::ByteStr => type_of(ExprTree::Lit(lit), env, cx) == Some(
                TypeModel::Primitive(PrimitiveType::Bytes),
            ),
            LitNode::Number(number) => if is_fraction(number) {
                type_of(ExprTree::Lit(lit), env, cx) == Some(
                    TypeModel::Primitive(PrimitiveType::Float),
                )
            } else if is_signed(number, cx.source) {
                type_of(ExprTree::Lit(lit), env, cx) == Some(
                    TypeModel::Primitive(PrimitiveType::Int),
                )
            } else {
                type_of(ExprTree::Lit(lit), env, cx) is None
            },
            LitNode::Other => type_of(ExprTree::Lit(lit), env, cx) is None,
        },
{
}

/// The two views that are taken of a literal agree: where its value is
/// verified against a primitive type, its inferred type is that type or
/// unknown.
pub proof fn inferred_types_agree_with_values(
    lit: LitNode,
    p: PrimitiveType,
    env: TypesModel,
    cx: Setting,
)
    requires
        outcome(TypeModel::Primitive(p), lit_value(lit, cx.source)) is Verified,
    ensures
        type_of(ExprTree::Lit(lit), env, cx) matches Some(t) ==> t == TypeModel::Primitive(p),
{
}

// ---------------------------------------------------------------------------
// The names of types.
// ---------------------------------------------------------------------------

/// The method table knows each type by its name in Rune.
pub proof fn types_have_their_names(inner: TypeModel, fields: Seq<(Seq<char>, TypeModel)>)
    ensures
        names_of_type(TypeModel::Primitive(PrimitiveType::String)) == seq!["String"@],
        names_of_type(TypeModel::Primitive(PrimitiveType::Int)) == seq!["i64"@],
        names_of_type(TypeModel::Primitive(PrimitiveType::Float)) == seq!["f64"@],
        names_of_type(TypeModel::Primitive(PrimitiveType::Bool)) == seq!["bool"@],
        names_of_type(TypeModel::Primitive(PrimitiveType::Bytes)) == seq!["Bytes"@],
        names_of_type(TypeModel::Object(fields)) == seq!["Object"@],
        names_of_type(TypeModel::List(Box::new(inner))) == seq!["Vec"@],
        names_of_type(TypeModel::Unit).len() == 0,
        names_of_type(TypeModel::Nullable(Box::new(inner))) == names_of_type(inner),
{
}

/// Whether a path is that of a variant of the enum: by its first name, where
/// `Ok` and `Err` stand for `Result`, and `Some` and `None` for `Option`.
pub open spec fn is_variant_of(path: Seq<Seq<char>>, name: Seq<char>) -> bool {
    path.len() > 0 && if path[0] == "Ok"@ || path[0] == "Err"@ {
        name == "Result"@
    } else if path[0] == "Some"@ || path[0] == "None"@ {
        name == "Option"@
    } else {
        name == path[0]
    }
}

proof fn lemma_enum_names(variants: Seq<VariantModel>, n: nat, name: Seq<char>)
    requires
        n <= variants.len(),
        forall|i: int| 0 <= i < variants.len() ==> (#[trigger] variants[i]).path.len() > 0,
    ensures
        enum_names(variants, n).contains(name) <==> exists|i: int|
            0 <= i < n && is_variant_of((#[trigger] variants[i]).path, name),
        enum_names(variants, n).no_duplicates(),
    decreases n,
{
    if n > 0 {
        let before = enum_names(variants, (n - 1) as nat);
        let own = enum_name(variants[n - 1].path);
        lemma_enum_names(variants, (n - 1) as nat, name);
        lemma_enum_names(variants, (n - 1) as nat, own);
        assert(is_variant_of(variants[n - 1].path, name) <==> name == own);
        let all = enum_names(variants, n);
        if !before.contains(own) {
            assert(all == before.push(own));
            assert(all[before.len() as int] == own);
            if before.contains(name) {
                let k = choose|k: int| 0 <= k < before.len() && before[k] == name;
                assert(all[k] == name);
            }
            if all.contains(name) && name != own {
                let k = choose|k: int| 0 <= k < all.len() && all[k] == name;
                assert(before[k] == name);
            }
        }
    }
}

/// The names of a union are those of the enums of its alternatives, each of
/// them once.
pub proof fn unions_have_the_names_of_their_enums(variants: Seq<VariantModel>, name: Seq<char>)
    requires
        forall|i: int| 0 <= i < variants.len() ==> (#[trigger] variants[i]).path.len() > 0,
    ensures
        names_of_type(TypeModel::Enum(variants)).contains(name) <==> exists|i: int|
            0 <= i < variants.len() && is_variant_of((#[trigger] variants[i]).path, name),
        names_of_type(TypeModel::Enum(variants)).no_duplicates(),
{
    lemma_enum_names(variants, variants.len(), name);
}

// ---------------------------------------------------------------------------
// Calls.
// ---------------------------------------------------------------------------

/// Whether Rune provides a method on all types.
pub open spec fn is_on_all_types(method: Seq<char>) -> bool {
    method == "clone"@ || method == "eq"@ || method == "ne"@ || method == "cmp"@ || method
        == "partial_cmp"@
}

/// Whether a table describes a type and the method is not on it.
pub open spec fn lacks(methods: MethodTable, name: Seq<char>, method: Seq<char>) -> bool {
    &&& methods.contains_key(name)
    &&& !methods[name].contains_key(method)
    &&& !is_on_all_types(method)
}

/// A method call on a value of a type is wrong exactly if the method is on
/// none of the types that the value can have, all of which the table has to
/// describe; the violation names these types, the method and the line.
pub proof fn calls_are_judged_by_the_type_of_the_receiver(
    receiver: ExprTree,
    t: TypeModel,
    path: PathTree,
    method: Seq<char>,
    span: Span,
    env: TypesModel,
    cx: Setting,
)
    requires
        type_of(receiver, env, cx) == Some(t),
        is_name(path, cx.source, method),
    ensures
        call_fault(receiver, FieldTree::Path(path), span, env, cx) == if names_of_type(t).len() > 0
            && forall|i: int|
            0 <= i < names_of_type(t).len() ==> lacks(
                cx.methods,
                #[trigger] names_of_type(t)[i],
                method,
            ) {
            Some(
                MethodViolationModel {
                    receiver: join(names_of_type(t), " | "@),
                    method,
                    line: line_number(cx.source, span.start as int),
                },
            )
        } else {
            None
        },
{
    single_names_are_written_out(path, cx.source, method);
    let names = names_of_type(t);
    if names.len() > 0 && forall|i: int|
        0 <= i < names.len() ==> lacks(cx.methods, #[trigger] names[i], method) {
        assert(lacks(cx.methods, names[0], method));
        assert(is_missing(cx.methods, names, method));
    } else if is_missing(cx.methods, names, method) {
        assert forall|i: int| 0 <= i < names.len() implies lacks(
            cx.methods,
            #[trigger] names[i],
            method,
        ) by {
            assert(cx.methods.contains_key(names[i]));
        }
    }
}

/// Nothing is said of a receiver of unknown type, nor of what is no method.
pub proof fn unknown_receivers_are_passed_over(
    receiver: ExprTree,
    field: FieldTree,
    span: Span,
    env: TypesModel,
    cx: Setting,
)
    requires
        type_of(receiver, env, cx) is None || !(field is Path),
    ensures
        call_fault(receiver, field, span, env, cx) is None,
{
}

/// The name by which the method table knows the type of a literal.
pub open spec fn literal_type_name(lit: LitNode, source: Seq<char>) -> Option<Seq<char>> {
    match lit {
        LitNode::Str(_) => Some("String"@),
        LitNode::Bool(_) => Some("bool"@),
        LitNode::ByteStr => Some("Bytes"@),
        LitNode::Number(number) => if is_fraction(number) {
            Some("f64"@)
        } else if is_signed(number, source) {
            Some("i64"@)
        } else {
            None
        },
        LitNode::Other => None,
    }
}

/// The violation of a method call on a value of one type.
pub open spec fn violation_on(
    name: Seq<char>,
    method: Seq<char>,
    span: Span,
    source: Seq<char>,
) -> MethodViolationModel {
    MethodViolationModel { receiver: name, method, line: line_number(source, span.start as int) }
}

/// A method call on an expression.
pub open spec fn method_call(
    receiver: ExprTree,
    path: PathTree,
    args: Seq<ExprTree>,
    span: Span,
) -> ExprTree {
    ExprTree::Call(
        Box::new(ExprTree::FieldAccess(Box::new(receiver), FieldTree::Path(path))),
        args,
        span,
    )
}

proof fn lemma_judged_by_one_name(
    receiver: ExprTree,
    t: TypeModel,
    name: Seq<char>,
    path: PathTree,
    method: Seq<char>,
    span: Span,
    env: TypesModel,
    cx: Setting,
)
    requires
        type_of(receiver, env, cx) == Some(t),
        names_of_type(t) == seq![name],
        is_name(path, cx.source, method),
    ensures
        call_fault(receiver, FieldTree::Path(path), span, env, cx) == if lacks(
            cx.methods,
            name,
            method,
        ) {
            Some(violation_on(name, method, span, cx.source))
        } else {
            None
        },
{
    calls_are_judged_by_the_type_of_the_receiver(receiver, t, path, method, span, env, cx);
    let names = names_of_type(t);
    assert(names[0] == name);
    assert(join(names, " | "@) == name);
}

/// A method call on a literal is wrong exactly if the table describes the
/// type of the literal and that type lacks the method, whatever is known of
/// the variables.
pub proof fn calls_on_literals_are_judged(
    lit: LitNode,
    path: PathTree,
    method: Seq<char>,
    span: Span,
    env: TypesModel,
    cx: Setting,
)
    requires
        is_name(path, cx.source, method),
    ensures
        call_fault(ExprTree::Lit(lit), FieldTree::Path(path), span, env, cx) == match
            literal_type_name(lit, cx.source) {
            Some(name) => if lacks(cx.methods, name, method) {
                Some(violation_on(name, method, span, cx.source))
            } else {
                None
            },
            None => None,
        },
{
    let receiver = ExprTree::Lit(lit);
    literals_have_the_type_of_their_value(lit, env, cx);
    types_have_their_names(TypeModel::Unit, Seq::empty());
    if let Some(t) = type_of(receiver, env, cx) {
        let name = literal_type_name(lit, cx.source)->Some_0;
        assert(names_of_type(t) == seq![name]);
        lemma_judged_by_one_name(receiver, t, name, path, method, span, env, cx);
    }
}

/// Walking a method call on a literal walks its arguments, and adds the
/// violation exactly if the table describes the type of the literal and that
/// type lacks the method.
pub proof fn calls_on_literals_are_reported_exactly(
    lit: LitNode,
    path: PathTree,
    method: Seq<char>,
    args: Seq<ExprTree>,
    span: Span,
    st: WalkState,
    cx: Setting,
)
    requires
        is_name(path, cx.source, method),
    ensures
        walked(method_call(ExprTree::Lit(lit), path, args, span), st, cx).found == walked_list(
            args,
            args.len(),
            st,
            cx,
        ).found + (match literal_type_name(lit, cx.source) {
            Some(name) => if lacks(cx.methods, name, method) {
                seq![violation_on(name, method, span, cx.source)]
            } else {
                Seq::empty()
            },
            None => Seq::empty(),
        }),
{
    let receiver = ExprTree::Lit(lit);
    let target = walked(receiver, unreported(st.env), cx);
    assert(sub_exprs(receiver).len() == 0);
    assert(target == walked_first(receiver, 0, unreported(st.env), cx));
    assert(target.env == st.env);
    assert(with_env(st, target.env) == st);
    let rest = walked_list(args, args.len(), st, cx);
    assert(rest.found + target.found =~= rest.found);
    calls_on_literals_are_judged(lit, path, method, span, st.env, cx);
    let call = method_call(receiver, path, args, span);
    if let Some(fault) = call_fault(receiver, FieldTree::Path(path), span, st.env, cx) {
        assert(walked(call, st, cx).found =~= rest.found + seq![fault]);
    } else {
        assert(walked(call, st, cx).found =~= rest.found);
    }
}

/// A method call on a literal that stands anywhere in a function, also in a
/// closure, is reported if the table describes the type of the literal and
/// that type lacks the method.
pub proof fn wrong_calls_on_literals_are_reported(
    item: FnTree,
    contract: ContractModel,
    cx: Setting,
    lit: LitNode,
    name: Seq<char>,
    path: PathTree,
    method: Seq<char>,
    args: Seq<ExprTree>,
    span: Span,
)
    requires
        literal_type_name(lit, cx.source) == Some(name),
        is_name(path, cx.source, method),
        lacks(cx.methods, name, method),
        holds_in_block(
            item.body,
            |expr: ExprTree| expr == method_call(ExprTree::Lit(lit), path, args, span),
        ),
    ensures
        missing_methods(item, contract, cx).contains(violation_on(name, method, span, cx.source)),
{
    let call = method_call(ExprTree::Lit(lit), path, args, span);
    let v = violation_on(name, method, span, cx.source);
    assert forall|env: TypesModel| #[trigger]
        call_fault(ExprTree::Lit(lit), FieldTree::Path(path), span, env, cx) == Some(v) by {
        calls_on_literals_are_judged(lit, path, method, span, env, cx);
    }
    assert(surely_reports(call, v, cx));
    let is_call = |expr: ExprTree| expr == method_call(ExprTree::Lit(lit), path, args, span);
    lemma_holds_weaker_in_block(item.body, is_call, sure(v, cx));
    wrong_calls_are_reported_wherever_they_stand(item, contract, cx, v);
}

// ---------------------------------------------------------------------------
// The types of other expressions.
// ---------------------------------------------------------------------------

/// The type of one variant.
pub open spec fn type_of_variant(path: Seq<Seq<char>>) -> TypeModel {
    TypeModel::Enum(seq![VariantModel { path, inner: None }])
}

/// A variable has the type that is known of it, and `None` is an `Option`.
pub proof fn variables_have_their_known_type(
    path: PathTree,
    name: Seq<char>,
    env: TypesModel,
    cx: Setting,
)
    requires
        is_name(path, cx.source, name),
    ensures
        type_of(ExprTree::Path(path), env, cx) == if name == "None"@ {
            Some(type_of_variant(seq!["Option"@, "None"@]))
        } else if env.contains_key(name) {
            Some(env[name])
        } else {
            None
        },
{
    single_names_are_written_out(path, cx.source, name);
}

/// A path of several names is a variant if the last of them starts with an
/// uppercase letter; of another one nothing is known.
pub proof fn long_paths_are_variants(
    path: PathTree,
    names: Seq<Seq<char>>,
    env: TypesModel,
    cx: Setting,
)
    requires
        segments_of(path, cx.source) == Some(names),
        names.len() > 1,
    ensures
        ({
            let last = names[names.len() - 1];
            type_of(ExprTree::Path(path), env, cx) == if last.len() > 0 && uppercase(last[0]) {
                Some(type_of_variant(names))
            } else {
                None
            }
        }),
{
}

/// A list is a `Vec`, an object without a type name an `Object`; parentheses
/// change nothing.
pub proof fn lists_and_objects_have_their_type(
    items: Seq<ExprTree>,
    fields: Seq<(KeyTree, Option<ExprTree>)>,
    inner: ExprTree,
    env: TypesModel,
    cx: Setting,
)
    ensures
        type_of(ExprTree::Vec(items), env, cx) matches Some(t) && names_of_type(t)
            == seq!["Vec"@],
        type_of(ExprTree::Object(true, fields), env, cx) matches Some(t) && names_of_type(t)
            == seq!["Object"@],
        type_of(ExprTree::Object(false, fields), env, cx) is None,
        type_of(ExprTree::Group(Box::new(inner)), env, cx) == type_of(inner, env, cx),
{
}

/// A call of a function of the registry has its declared type.
pub proof fn registered_calls_are_of_their_declared_type(
    path: PathTree,
    args: Seq<ExprTree>,
    span: Span,
    env: TypesModel,
    cx: Setting,
)
    ensures
        segments_of(path, cx.source) matches Some(names) ==> cx.registry.contains_key(
            join(names, "::"@),
        ) ==> type_of(
            ExprTree::Call(Box::new(ExprTree::Path(path)), args, span),
            env,
            cx,
        ) == Some(
            match cx.registry[join(names, "::"@)] {
                OriginModel::Helper(t) => t,
                OriginModel::Builtin(t) => t,
            },
        ),
{
}

/// `Ok(..)` and `Err(..)` are of type `Result`, `Some(..)` and `None` of type
/// `Option`; of a call of any other single name that is not registered
/// nothing is known.
pub proof fn calls_of_builtin_variants_have_their_enum(
    path: PathTree,
    name: Seq<char>,
    args: Seq<ExprTree>,
    span: Span,
    env: TypesModel,
    cx: Setting,
)
    requires
        is_name(path, cx.source, name),
        !cx.registry.contains_key(name),
    ensures
        type_of(ExprTree::Call(Box::new(ExprTree::Path(path)), args, span), env, cx) == if name
            == "Ok"@ || name == "Err"@ {
            Some(type_of_variant(seq!["Result"@, name]))
        } else if name == "Some"@ || name == "None"@ {
            Some(type_of_variant(seq!["Option"@, name]))
        } else {
            None
        },
{
    single_names_are_written_out(path, cx.source, name);
    let names = segments_of(path, cx.source)->Some_0;
    assert(names =~= seq![name]);
    assert(join(names, "::"@) == name);
}

/// A call by several names that is not registered is a variant if the last of
/// them starts with an uppercase letter; of another one nothing is known.
pub proof fn calls_of_long_paths_are_variants(
    path: PathTree,
    names: Seq<Seq<char>>,
    args: Seq<ExprTree>,
    span: Span,
    env: TypesModel,
    cx: Setting,
)
    requires
        segments_of(path, cx.source) == Some(names),
        names.len() > 1,
        !cx.registry.contains_key(join(names, "::"@)),
    ensures
        ({
            let last = names[names.len() - 1];
            type_of(ExprTree::Call(Box::new(ExprTree::Path(path)), args, span), env, cx)
                == if last.len() > 0 && uppercase(last[0]) {
                Some(type_of_variant(names))
            } else {
                None
            }
        }),
{
}

/// The type of a single variant goes by the name of its enum.
pub proof fn variants_go_by_the_name_of_their_enum(path: Seq<Seq<char>>, name: Seq<char>)
    requires
        is_variant_of(path, name),
    ensures
        names_of_type(type_of_variant(path)) == seq![name],
{
    let variants = seq![VariantModel { path, inner: None }];
    assert(variants[0].path == path);
    assert(enum_names(variants, 0) =~= Seq::empty());
    assert(enum_names(variants, 1) =~= seq![name]);
}

/// The result of a method has the type that the table gives for it, if the
/// receiver has one known type and the table gives one.
pub proof fn results_of_methods_have_their_type(
    receiver: ExprTree,
    t: TypeModel,
    name: Seq<char>,
    path: PathTree,
    method: Seq<char>,
    span: Span,
    env: TypesModel,
    cx: Setting,
)
    requires
        type_of(receiver, env, cx) == Some(t),
        is_name(path, cx.source, method),
    ensures
        names_of_type(t) == seq![name] ==> type_of(
            method_call(receiver, path, Seq::empty(), span),
            env,
            cx,
        ) == if cx.methods.contains_key(name) && cx.methods[name].contains_key(method) {
            cx.methods[name][method]
        } else {
            None
        },
        names_of_type(t).len() != 1 ==> type_of(
            method_call(receiver, path, Seq::empty(), span),
            env,
            cx,
        ) is None,
{
    single_names_are_written_out(path, cx.source, method);
    let none: Seq<ExprTree> = Seq::empty();
    assert(assigned_in_all(none, 0, cx.source) =~= Seq::empty());
    assert(forget(env, assigned_in_all(none, 0, cx.source)) =~= env);
    let call = method_call(receiver, path, none, span);
    assert(type_of(call, env, cx) == method_type(t, method, cx.methods));
}

/// `expr?` has the type of the content of `Ok` or `Some`.
pub proof fn propagation_leaves_the_content(
    inner: ExprTree,
    span: Span,
    env: TypesModel,
    cx: Setting,
)
    ensures
        type_of(ExprTree::Try(Box::new(inner), span), env, cx) == match type_of(inner, env, cx) {
            Some(t) => success_of(t),
            None => None,
        },
{
}

/// Nothing is known of the type of any other expression.
pub proof fn computed_types_are_unknown(expr: ExprTree, env: TypesModel, cx: Setting)
    requires
        !(expr is Path || expr is Lit || expr is Object || expr is Vec || expr is Group
            || expr is Try || expr is Call),
    ensures
        type_of(expr, env, cx) is None,
{
}

// ---------------------------------------------------------------------------
// Calls on other receivers.
// ---------------------------------------------------------------------------

/// A wrong method call that stands anywhere in a function is reported where
/// the type of its receiver does not depend on variables: a list, an object,
/// a variant, or the result of a function of the registry.
pub proof fn wrong_calls_on_fixed_types_are_reported(
    item: FnTree,
    contract: ContractModel,
    cx: Setting,
    receiver: ExprTree,
    t: TypeModel,
    path: PathTree,
    method: Seq<char>,
    args: Seq<ExprTree>,
    span: Span,
)
    requires
        forall|env: TypesModel| #[trigger] type_of(receiver, env, cx) == Some(t),
        is_name(path, cx.source, method),
        names_of_type(t).len() > 0,
        forall|i: int|
            0 <= i < names_of_type(t).len() ==> lacks(
                cx.methods,
                #[trigger] names_of_type(t)[i],
                method,
            ),
        holds_in_block(
            item.body,
            |expr: ExprTree| expr == method_call(receiver, path, args, span),
        ),
    ensures
        missing_methods(item, contract, cx).contains(
            violation_on(join(names_of_type(t), " | "@), method, span, cx.source),
        ),
{
    let call = method_call(receiver, path, args, span);
    let v = violation_on(join(names_of_type(t), " | "@), method, span, cx.source);
    assert forall|env: TypesModel| #[trigger]
        call_fault(receiver, FieldTree::Path(path), span, env, cx) == Some(v) by {
        assert(type_of(receiver, env, cx) == Some(t));
        calls_are_judged_by_the_type_of_the_receiver(receiver, t, path, method, span, env, cx);
    }
    assert(surely_reports(call, v, cx));
    assert(lacks(cx.methods, names_of_type(t)[0], method));
    let is_call = |expr: ExprTree| expr == method_call(receiver, path, args, span);
    lemma_holds_weaker_in_block(item.body, is_call, sure(v, cx));
    wrong_calls_are_reported_wherever_they_stand(item, contract, cx, v);
}

/// A function with a wrong method call on a literal anywhere in its body is
/// not valid.
pub proof fn wrong_calls_on_literals_fail_the_function(
    script: ScriptTree,
    source: Seq<char>,
    function: Seq<char>,
    host: HostModel,
    lit: LitNode,
    name: Seq<char>,
    path: PathTree,
    method: Seq<char>,
    args: Seq<ExprTree>,
    span: Span,
)
    requires
        literal_type_name(lit, source) == Some(name),
        is_name(path, source, method),
        lacks(host.methods, name, method),
        fn_named(script, source, function) matches Some(item) && holds_in_block(
            item.body,
            |expr: ExprTree| expr == method_call(ExprTree::Lit(lit), path, args, span),
        ),
    ensures
        checked_fn(script, source, function, host) matches Ok(found) ==> {
            &&& found.report.method_violations.contains(violation_on(name, method, span, source))
            &&& !found.report.is_valid
        },
{
    if let Ok(found) = checked_fn(script, source, function, host) {
        let item = fn_named(script, source, function)->Some_0;
        let cx = Setting { source, registry: found.registry, methods: host.methods };
        wrong_calls_on_literals_are_reported(
            item,
            found.report.contract,
            cx,
            lit,
            name,
            path,
            method,
            args,
            span,
        );
        assert(found.report.method_violations == missing_methods(
            item,
            found.report.contract,
            cx,
        ));
    }
}

} // verus!
