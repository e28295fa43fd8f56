//! What is known of the value of an expression.

use vstd::prelude::*;

use crate::ast_analyzer::{
    all_named, early_site, field_values, key_text, segments_of, single_of, site_of, success_of,
    unwrapped, value_of, values_of,
};
use crate::laws::compatibility::enum_alone;
use crate::laws::verdicts::variants_have_to_be_allowed;
use crate::report::{LiteralModel, ReasonModel, SiteModel};
use crate::source_text::{span_text, str_value};
use crate::static_checker::{outcome, variant_outcome};
use crate::syntax::{ExprTree, FieldTree, KeyTree, LitNode, PathTree, Span, StrLit};
use crate::text::{join, uppercase};
use crate::types::{accepts, first_of, last_of, OriginModel, TypeModel, VariantModel};

verus! {

// ---------------------------------------------------------------------------
// Names.
// ---------------------------------------------------------------------------

/// Whether a path is the name alone, written out in the source text.
pub open spec fn is_name(path: PathTree, source: Seq<char>, name: Seq<char>) -> bool {
    &&& !path.global
    &&& !path.trailing
    &&& path.segments.len() == 1
    &&& path.segments[0] is Some
    &&& span_text(source, path.segments[0]->Some_0) == name
}

/// A path consists of the names that are written out in the source text, one
/// for each of its segments. One that starts or ends with `::`, or has a
/// segment that is no identifier, has no names.
pub proof fn paths_are_read_segment_by_segment(path: PathTree, source: Seq<char>)
    ensures
        segments_of(path, source) is Some <==> !path.global && !path.trailing && forall|i: int|
            0 <= i < path.segments.len() ==> #[trigger] path.segments[i] is Some,
        segments_of(path, source) matches Some(names) ==> {
            &&& names.len() == path.segments.len()
            &&& forall|i: int|
                0 <= i < names.len() ==> #[trigger] names[i] == span_text(
                    source,
                    path.segments[i]->Some_0,
                )
        },
{
}

/// A path is a single name exactly if it is that name written out.
pub proof fn single_names_are_written_out(path: PathTree, source: Seq<char>, name: Seq<char>)
    ensures
        single_of(path, source) == Some(name) <==> is_name(path, source, name),
{
    if is_name(path, source, name) {
        assert forall|i: int| 0 <= i < path.segments.len() implies #[trigger]
            path.segments[i] is Some by {
            assert(i == 0);
        }
    }
}

proof fn lemma_name_is_segment(path: PathTree, source: Seq<char>, name: Seq<char>)
    requires
        is_name(path, source, name),
    ensures
        segments_of(path, source) == Some(seq![name]),
        single_of(path, source) == Some(name),
        join(seq![name], "::"@) == name,
{
    single_names_are_written_out(path, source, name);
    assert(segments_of(path, source)->Some_0 =~= seq![name]);
}

// ---------------------------------------------------------------------------
// The variants of `Result` and `Option`.
// ---------------------------------------------------------------------------

/// The variant of an enum with the value of the first argument as its content.
pub open spec fn variant_with(
    enum_name: Seq<char>,
    variant: Seq<char>,
    args: Seq<ExprTree>,
    source: Seq<char>,
    registry: Map<Seq<char>, OriginModel>,
) -> LiteralModel {
    LiteralModel::Enum {
        path: seq![enum_name, variant],
        inner: if args.len() == 0 {
            None
        } else {
            Some(Box::new(value_of(args[0], source, registry)))
        },
    }
}

/// `Ok(x)` and `Err(x)` are variants of `Result`, `Some(x)` and `None` those
/// of `Option`, with the value of `x` as their content, unless a function of
/// the registry has that name.
pub proof fn builtin_variants_have_their_enum(
    path: PathTree,
    args: Seq<ExprTree>,
    span: Span,
    source: Seq<char>,
    registry: Map<Seq<char>, OriginModel>,
)
    requires
        args.len() <= 1,
    ensures
        is_name(path, source, "Ok"@) && !registry.contains_key("Ok"@) ==> value_of(
            ExprTree::Call(Box::new(ExprTree::Path(path)), args, span),
            source,
            registry,
        ) == variant_with("Result"@, "Ok"@, args, source, registry),
        is_name(path, source, "Err"@) && !registry.contains_key("Err"@) ==> value_of(
            ExprTree::Call(Box::new(ExprTree::Path(path)), args, span),
            source,
            registry,
        ) == variant_with("Result"@, "Err"@, args, source, registry),
        is_name(path, source, "Some"@) && !registry.contains_key("Some"@) ==> value_of(
            ExprTree::Call(Box::new(ExprTree::Path(path)), args, span),
            source,
            registry,
        ) == variant_with("Option"@, "Some"@, args, source, registry),
        is_name(path, source, "None"@) && !registry.contains_key("None"@) ==> value_of(
            ExprTree::Call(Box::new(ExprTree::Path(path)), args, span),
            source,
            registry,
        ) == variant_with("Option"@, "None"@, args, source, registry),
        is_name(path, source, "None"@) ==> value_of(ExprTree::Path(path), source, registry)
            == variant_with("Option"@, "None"@, Seq::empty(), source, registry),
{
    reveal_strlit("Ok");
    reveal_strlit("Err");
    reveal_strlit("Some");
    reveal_strlit("None");
    assert("Ok"@.len() == 2 && "Err"@.len() == 3 && "Some"@.len() == 4 && "None"@.len() == 4);
    if is_name(path, source, "Ok"@) {
        lemma_name_is_segment(path, source, "Ok"@);
    }
    if is_name(path, source, "Err"@) {
        lemma_name_is_segment(path, source, "Err"@);
    }
    if is_name(path, source, "Some"@) {
        lemma_name_is_segment(path, source, "Some"@);
    }
    if is_name(path, source, "None"@) {
        lemma_name_is_segment(path, source, "None"@);
    }
    let values = values_of(args, source, registry);
    assert(values.len() == args.len());
    assert(args.len() == 1 ==> values[0] == value_of(args[0], source, registry));
}

/// A variant is verified against the name of its own enum alone, and is a
/// violation against that of any other enum.
pub proof fn variants_belong_to_one_enum(
    name: Seq<char>,
    path: Seq<Seq<char>>,
    inner: Option<Box<LiteralModel>>,
)
    requires
        path.len() > 0,
    ensures
        path[0] == name ==> outcome(
            TypeModel::Enum(seq![enum_alone(name)]),
            LiteralModel::Enum { path, inner },
        ) is Verified,
        path[0] != name ==> outcome(
            TypeModel::Enum(seq![enum_alone(name)]),
            LiteralModel::Enum { path, inner },
        ) is Violation,
{
    let variants = seq![enum_alone(name)];
    variants_have_to_be_allowed(variants, path, inner);
    assert(first_of(enum_alone(name).path) == Some(name));
    assert(accepts(variants[0], path) <==> path[0] == name);
    assert(variant_outcome(variants[0], path, inner) is Verified);
}

/// What `Some(x)`, `None`, `Ok(x)` and `Err(x)` give is verified against the
/// name of `Option` or `Result` that they belong to, and a violation against
/// the other one.
pub proof fn builtin_variants_are_told_apart(
    args: Seq<ExprTree>,
    source: Seq<char>,
    registry: Map<Seq<char>, OriginModel>,
)
    ensures
        forall|variant: Seq<char>|
            outcome(
                TypeModel::Enum(seq![enum_alone("Option"@)]),
                #[trigger] variant_with("Option"@, variant, args, source, registry),
            ) is Verified,
        forall|variant: Seq<char>|
            outcome(
                TypeModel::Enum(seq![enum_alone("Result"@)]),
                #[trigger] variant_with("Option"@, variant, args, source, registry),
            ) is Violation,
        forall|variant: Seq<char>|
            outcome(
                TypeModel::Enum(seq![enum_alone("Result"@)]),
                #[trigger] variant_with("Result"@, variant, args, source, registry),
            ) is Verified,
        forall|variant: Seq<char>|
            outcome(
                TypeModel::Enum(seq![enum_alone("Option"@)]),
                #[trigger] variant_with("Result"@, variant, args, source, registry),
            ) is Violation,
{
    reveal_strlit("Option");
    reveal_strlit("Result");
    assert("Option"@[0] != "Result"@[0]);
    assert forall|variant: Seq<char>, name: Seq<char>|
        #![trigger variant_with(name, variant, args, source, registry)]
        name == "Option"@ || name == "Result"@ implies ({
        let value = variant_with(name, variant, args, source, registry);
        &&& outcome(TypeModel::Enum(seq![enum_alone(name)]), value) is Verified
        &&& name != "Option"@ ==> outcome(
            TypeModel::Enum(seq![enum_alone("Option"@)]),
            value,
        ) is Violation
        &&& name != "Result"@ ==> outcome(
            TypeModel::Enum(seq![enum_alone("Result"@)]),
            value,
        ) is Violation
    }) by {
        let value = variant_with(name, variant, args, source, registry);
        let path = seq![name, variant];
        assert(path[0] == name);
        variants_belong_to_one_enum("Option"@, path, value->Enum_inner);
        variants_belong_to_one_enum("Result"@, path, value->Enum_inner);
    }
}

/// The variants of `Option` and `Result` with a content go by that content:
/// `Some(x)` is verified against `Option::Some(T)` exactly if `x` is against
/// `T`, and a violation exactly if `x` is one. Against another variant it is
/// a violation.
pub proof fn variant_contents_are_judged(
    variant: Seq<char>,
    inner: LiteralModel,
    other: Seq<Seq<char>>,
    t: TypeModel,
)
    requires
        other.len() > 0,
    ensures
        ({
            let path = seq![other[0], variant];
            let expected = TypeModel::Enum(
                seq![VariantModel { path: other, inner: Some(Box::new(t)) }],
            );
            let value = LiteralModel::Enum { path, inner: Some(Box::new(inner)) };
            if other[other.len() - 1] == variant {
                &&& outcome(expected, value) is Verified <==> outcome(t, inner) is Verified
                &&& outcome(expected, value) is Violation <==> outcome(t, inner) is Violation
            } else {
                outcome(expected, value) is Violation
            }
        }),
{
    let path = seq![other[0], variant];
    let v = VariantModel { path: other, inner: Some(Box::new(t)) };
    let content = Some(Box::new(inner));
    variants_have_to_be_allowed(seq![v], path, content);
    assert(last_of(path) == Some(variant));
    assert(last_of(other) == Some(other[other.len() - 1]));
    assert(seq![v][0] == v);
    assert(accepts(seq![v][0], path) <==> other[other.len() - 1] == variant);
    assert(variant_outcome(v, path, content) == outcome(t, inner));
}

// ---------------------------------------------------------------------------
// Other expressions.
// ---------------------------------------------------------------------------

/// A literal has its own value: `true` and `false`, and the content of a
/// string. Parentheses change nothing, and `()` is the unit.
pub proof fn literals_have_their_value(
    b: bool,
    lit: StrLit,
    inner: ExprTree,
    source: Seq<char>,
    registry: Map<Seq<char>, OriginModel>,
)
    ensures
        value_of(ExprTree::Lit(LitNode::Bool(b)), source, registry) == LiteralModel::Bool(b),
        value_of(ExprTree::Lit(LitNode::Str(lit)), source, registry) == LiteralModel::String(
            str_value(source, lit),
        ),
        value_of(ExprTree::Lit(LitNode::ByteStr), source, registry) is Dynamic,
        value_of(ExprTree::Group(Box::new(inner)), source, registry) == value_of(
            inner,
            source,
            registry,
        ),
        value_of(ExprTree::Tuple(Seq::empty()), source, registry) is Unit,
{
}

/// The value of a list is the list of the values of its items.
pub proof fn lists_hold_the_values_of_their_items(
    items: Seq<ExprTree>,
    source: Seq<char>,
    registry: Map<Seq<char>, OriginModel>,
)
    ensures
        value_of(ExprTree::Vec(items), source, registry) matches LiteralModel::List(values) && {
            &&& values.len() == items.len()
            &&& forall|i: int|
                0 <= i < items.len() ==> #[trigger] values[i] == value_of(
                    items[i],
                    source,
                    registry,
                )
        },
{
    let list = value_of(ExprTree::Vec(items), source, registry);
    assert(list->List_0 == values_of(items, source, registry));
}

/// The name that a key is: an identifier alone, or the content of a string.
pub open spec fn is_key(key: KeyTree, source: Seq<char>, name: Seq<char>) -> bool {
    match key {
        KeyTree::Path(path) => is_name(path, source, name),
        KeyTree::Str(lit) => str_value(source, lit) == name,
        KeyTree::Other => false,
    }
}

/// A key has a name exactly if it is one.
pub proof fn keys_have_their_name(key: KeyTree, source: Seq<char>, name: Seq<char>)
    ensures
        key_text(key, source) == Some(name) <==> is_key(key, source, name),
{
    if let KeyTree::Path(path) = key {
        single_names_are_written_out(path, source, name);
    }
}

/// The value of an object has its fields, in their order, under their names
/// and with their values. `#{ x }` is short for `#{ x: x }`, of which only
/// the variable is known.
pub proof fn objects_hold_the_values_of_their_fields(
    fields: Seq<(KeyTree, Option<ExprTree>)>,
    names: Seq<Seq<char>>,
    source: Seq<char>,
    registry: Map<Seq<char>, OriginModel>,
)
    requires
        names.len() == fields.len(),
        forall|i: int|
            0 <= i < fields.len() ==> is_key((#[trigger] fields[i]).0, source, names[i]),
    ensures
        value_of(ExprTree::Object(true, fields), source, registry) matches LiteralModel::Object(
            values,
        ) && {
            &&& values.len() == fields.len()
            &&& forall|i: int|
                0 <= i < fields.len() ==> #[trigger] values[i] == (
                    names[i],
                    match fields[i].1 {
                        Some(expr) => value_of(expr, source, registry),
                        None => LiteralModel::Dynamic(ReasonModel::Variable(names[i])),
                    },
                )
        },
{
    assert forall|i: int| 0 <= i < fields.len() implies key_text(
        (#[trigger] fields[i]).0,
        source,
    ) == Some(names[i]) by {
        keys_have_their_name(fields[i].0, source, names[i]);
    }
    assert(all_named(fields, source));
    let object = value_of(ExprTree::Object(true, fields), source, registry);
    assert(object->Object_0 == field_values(fields, source, registry));
}

/// An object of a named type, or one with a field whose name is unknown, has
/// no known value.
pub proof fn other_objects_are_unknown(
    anonymous: bool,
    fields: Seq<(KeyTree, Option<ExprTree>)>,
    at: int,
    source: Seq<char>,
    registry: Map<Seq<char>, OriginModel>,
)
    requires
        anonymous ==> 0 <= at < fields.len() && key_text(fields[at].0, source) is None,
    ensures
        value_of(ExprTree::Object(anonymous, fields), source, registry) is Dynamic,
{
}

/// A variable is only known by its name.
pub proof fn variables_are_known_by_name(
    path: PathTree,
    name: Seq<char>,
    source: Seq<char>,
    registry: Map<Seq<char>, OriginModel>,
)
    requires
        is_name(path, source, name),
        name != "None"@,
    ensures
        value_of(ExprTree::Path(path), source, registry) == LiteralModel::Dynamic(
            ReasonModel::Variable(name),
        ),
{
    lemma_name_is_segment(path, source, name);
}

/// A call of a function of the registry, by the name that its path joins to,
/// has the declared type of that function, whatever the arguments are.
pub proof fn registered_calls_have_their_type(
    path: PathTree,
    args: Seq<ExprTree>,
    span: Span,
    source: Seq<char>,
    registry: Map<Seq<char>, OriginModel>,
)
    ensures
        segments_of(path, source) matches Some(names) ==> registry.contains_key(join(names, "::"@))
            ==> value_of(
            ExprTree::Call(Box::new(ExprTree::Path(path)), args, span),
            source,
            registry,
        ) == (LiteralModel::ResolvedCall {
            name: join(names, "::"@),
            type_def: match registry[join(names, "::"@)] {
                OriginModel::Helper(type_def) => type_def,
                OriginModel::Builtin(type_def) => type_def,
            },
        }),
{
}

/// A call by a path whose last name starts with an uppercase letter, of at
/// most one argument, is that variant, with the value of the argument. A call
/// of another name, or of more arguments, is of a function without a
/// contract.
pub proof fn unregistered_calls_go_by_their_name(
    path: PathTree,
    args: Seq<ExprTree>,
    span: Span,
    source: Seq<char>,
    registry: Map<Seq<char>, OriginModel>,
    names: Seq<Seq<char>>,
)
    requires
        segments_of(path, source) == Some(names),
        names.len() > 1,
        !registry.contains_key(join(names, "::"@)),
    ensures
        ({
            let value = value_of(
                ExprTree::Call(Box::new(ExprTree::Path(path)), args, span),
                source,
                registry,
            );
            let last = names[names.len() - 1];
            if args.len() <= 1 && last.len() > 0 && uppercase(last[0]) {
                value == (LiteralModel::Enum {
                    path: names,
                    inner: if args.len() == 0 {
                        None
                    } else {
                        Some(Box::new(value_of(args[0], source, registry)))
                    },
                })
            } else {
                value == LiteralModel::Dynamic(ReasonModel::UnannotatedCall(join(names, "::"@)))
            }
        }),
{
    let values = values_of(args, source, registry);
    assert(args.len() == 1 ==> values[0] == value_of(args[0], source, registry));
}

/// A call by one name that neither the registry nor `Result` or `Option` has:
/// a variant if the name starts with an uppercase letter and there is at most
/// one argument, otherwise a function without a contract.
pub proof fn other_calls_go_by_their_name(
    path: PathTree,
    args: Seq<ExprTree>,
    span: Span,
    source: Seq<char>,
    registry: Map<Seq<char>, OriginModel>,
    name: Seq<char>,
)
    requires
        is_name(path, source, name),
        !registry.contains_key(name),
        args.len() > 1 || (name != "Ok"@ && name != "Err"@ && name != "Some"@ && name != "None"@),
    ensures
        ({
            let value = value_of(
                ExprTree::Call(Box::new(ExprTree::Path(path)), args, span),
                source,
                registry,
            );
            if args.len() <= 1 && name.len() > 0 && uppercase(name[0]) {
                value == (LiteralModel::Enum {
                    path: seq![name],
                    inner: if args.len() == 0 {
                        None
                    } else {
                        Some(Box::new(value_of(args[0], source, registry)))
                    },
                })
            } else {
                value == LiteralModel::Dynamic(ReasonModel::UnannotatedCall(name))
            }
        }),
{
    lemma_name_is_segment(path, source, name);
    let values = values_of(args, source, registry);
    assert(args.len() == 1 ==> values[0] == value_of(args[0], source, registry));
    assert(last_of(seq![name]) == Some(name));
}

/// A call of a method is known by the name of the method, and a call of
/// anything else than a path not at all.
pub proof fn calls_of_values_are_unknown(
    receiver: ExprTree,
    path: PathTree,
    method: Seq<char>,
    args: Seq<ExprTree>,
    span: Span,
    source: Seq<char>,
    registry: Map<Seq<char>, OriginModel>,
)
    requires
        is_name(path, source, method),
    ensures
        value_of(
            ExprTree::Call(
                Box::new(ExprTree::FieldAccess(Box::new(receiver), FieldTree::Path(path))),
                args,
                span,
            ),
            source,
            registry,
        ) == LiteralModel::Dynamic(ReasonModel::MethodCall(method)),
        !(receiver is FieldAccess) && !(receiver is Path) ==> value_of(
            ExprTree::Call(Box::new(receiver), args, span),
            source,
            registry,
        ) == LiteralModel::Dynamic(ReasonModel::IndirectCall),
{
    lemma_name_is_segment(path, source, method);
}

/// Nothing is known of the value of any other expression; `expr?` leaves the
/// content of `Ok` or `Some`.
pub proof fn computed_values_are_unknown(
    expr: ExprTree,
    source: Seq<char>,
    registry: Map<Seq<char>, OriginModel>,
)
    requires
        !(expr is Lit || expr is Object || expr is Vec || expr is Call || expr is Path
            || expr is Group || expr is Try),
        expr is Tuple ==> expr->Tuple_0.len() > 0,
    ensures
        value_of(expr, source, registry) == LiteralModel::Dynamic(ReasonModel::Expression),
{
}

/// A path that is no single name has no known value, and a call of one that
/// is no plain path is indirect. A field with a number is known by the number
/// where it is called.
pub proof fn other_paths_are_unknown(
    path: PathTree,
    receiver: ExprTree,
    number: Span,
    args: Seq<ExprTree>,
    span: Span,
    source: Seq<char>,
    registry: Map<Seq<char>, OriginModel>,
)
    ensures
        path.segments.len() != 1 || segments_of(path, source) is None ==> value_of(
            ExprTree::Path(path),
            source,
            registry,
        ) == LiteralModel::Dynamic(ReasonModel::Expression),
        segments_of(path, source) is None ==> value_of(
            ExprTree::Call(Box::new(ExprTree::Path(path)), args, span),
            source,
            registry,
        ) == LiteralModel::Dynamic(ReasonModel::IndirectCall),
        value_of(
            ExprTree::Call(
                Box::new(ExprTree::FieldAccess(Box::new(receiver), FieldTree::Number(number))),
                args,
                span,
            ),
            source,
            registry,
        ) == LiteralModel::Dynamic(ReasonModel::MethodCall(span_text(source, number))),
{
}

/// `expr?` has the value of the content of `Ok` or `Some`; what a function
/// returns is known by the type of the content, and of anything else only
/// that it was propagated.
pub proof fn propagated_values_are_unwrapped(
    inner: ExprTree,
    span: Span,
    name: Seq<char>,
    type_def: TypeModel,
    source: Seq<char>,
    registry: Map<Seq<char>, OriginModel>,
)
    ensures
        value_of(ExprTree::Try(Box::new(inner), span), source, registry) == unwrapped(
            value_of(inner, source, registry),
        ),
        unwrapped(LiteralModel::ResolvedCall { name, type_def }) == match success_of(type_def) {
            Some(content) => LiteralModel::ResolvedCall { name, type_def: content },
            None => LiteralModel::Dynamic(ReasonModel::TryPropagation),
        },
        forall|value: LiteralModel|
            !(value is Enum) && !(value is ResolvedCall) ==> #[trigger] unwrapped(value)
                == LiteralModel::Dynamic(ReasonModel::TryPropagation),
{
}

// ---------------------------------------------------------------------------
// Return sites.
// ---------------------------------------------------------------------------

/// A return site holds the value that is returned there, and only what is
/// known of no value is dynamic.
pub proof fn sites_hold_the_returned_value(value: LiteralModel)
    ensures
        match site_of(value) {
            SiteModel::ObjectLiteral(fields) => value == LiteralModel::Object(fields),
            SiteModel::PrimitiveLiteral(held) => held == value,
            SiteModel::EnumLiteral { path, inner } => value == (LiteralModel::Enum {
                path,
                inner,
            }),
            SiteModel::Unit => value == LiteralModel::Unit,
            SiteModel::ResolvedCall { name, type_def } => value == (LiteralModel::ResolvedCall {
                name,
                type_def,
            }),
            SiteModel::TryPropagation { line } => false,
            SiteModel::Dynamic(reason) => value == LiteralModel::Dynamic(reason),
        },
        site_of(value) is Dynamic <==> value is Dynamic,
{
}

/// `Err(x)?` and `None?` leave the function as they are; `Ok(x)?` and
/// `Some(x)?` do not leave it, and go on with `x`.
pub proof fn variants_propagate_by_name(
    enum_name: Seq<char>,
    variant: Seq<char>,
    inner: LiteralModel,
    line: nat,
)
    ensures
        ({
            let path = seq![enum_name, variant];
            let full = LiteralModel::Enum { path, inner: Some(Box::new(inner)) };
            let bare = LiteralModel::Enum { path, inner: None };
            &&& variant == "Err"@ || variant == "None"@ ==> {
                &&& early_site(full, line) == Some(
                    SiteModel::EnumLiteral { path, inner: Some(Box::new(inner)) },
                )
                &&& early_site(bare, line) == Some(SiteModel::EnumLiteral { path, inner: None })
                &&& unwrapped(full) is Dynamic
                &&& unwrapped(bare) is Dynamic
            }
            &&& variant == "Ok"@ || variant == "Some"@ ==> {
                &&& early_site(full, line) is None
                &&& early_site(bare, line) is None
                &&& unwrapped(full) == inner
                &&& unwrapped(bare) is Unit
            }
        }),
{
    reveal_strlit("Ok");
    reveal_strlit("Err");
    reveal_strlit("Some");
    reveal_strlit("None");
    assert("Ok"@.len() == 2 && "Err"@.len() == 3);
    assert("Some"@[0] == 'S' && "None"@[0] == 'N');
    assert("Some"@.len() == 4 && "None"@.len() == 4);
    let path = seq![enum_name, variant];
    assert(last_of(path) == Some(variant));
}

} // verus!
