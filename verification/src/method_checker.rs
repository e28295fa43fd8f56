//! Whether the methods that a function calls exist.
//!
//! Rune finds the method of a call by the type of the receiver at run time,
//! so that a call of a method that does not exist fails only then. This pass
//! walks the body of a function with the types that are known of its
//! variables, at first those of the parameters. A call
//! `receiver.method(...)` is judged where the type of the receiver is known
//! and the host describes it.
//!
//! Where anything is unknown the pass is silent: an expression whose type
//! cannot be told, or a type that the host does not describe, is passed over.

use vstd::prelude::*;

use crate::ast_analyzer::{
    declared_success_type, is_success_path, last_string, path_segments, segments_of, single_of,
    single_segment, starts_upper, starts_uppercase, success_of,
};
use crate::name_map::NameMap;
use crate::report::{method_violations_model, MethodViolation, MethodViolationModel};
use crate::source_text::{line_number, line_of, slice, span_text};
use crate::syntax::{
    args_fit, args_model, arm_fits, arms_fit, arms_model, block_expr_list, block_exprs, block_fits,
    branches_fit, branches_model, condition_exprs, condition_fits, direct_exprs, expr_fits,
    exprs_fit, exprs_model, field_fits, fn_fits, lemma_block_exprs_fit, lemma_sub_exprs_fit,
    lemma_sub_exprs_smaller, optional_fits, optional_model, pat_fits, path_fits, pats_fit,
    pats_model, refs_model, select_fits, selects_fit, selects_model, stmt_fits, sub_exprs,
    token_fits, ArmNode, ArmTree, BlockNode, BlockTree, ConditionNode, ConditionTree, ExprNode,
    ExprTree, FieldNode, FieldTree, FnItem, FnTree, LitNode, NumberLit, NumberText, PatNode,
    PatTree, PathNode, PathTree, SelectNode, SelectTree, Span, StmtNode, StmtTree,
};
use crate::text::{join, joined, same_text, texts};
use crate::types::{
    fields_model, last_of, option_model, variants_model, Contract, ContractModel, EnumVariant,
    MethodRegistry, MethodTable, OriginModel, ParamModel, PrimitiveType, SignatureRegistry, TypeDef,
    TypeModel, VariantModel,
};

verus! {

// ---------------------------------------------------------------------------
// Names of types.
// ---------------------------------------------------------------------------

/// The enum that a variant belongs to: `Ok` and `Err` to `Result`, `Some` and
/// `None` to `Option`, any other to the first segment of its path.
pub open spec fn enum_name(path: Seq<Seq<char>>) -> Seq<char> {
    if path.len() == 0 {
        Seq::empty()
    } else if path[0] == "Ok"@ || path[0] == "Err"@ {
        "Result"@
    } else if path[0] == "Some"@ || path[0] == "None"@ {
        "Option"@
    } else {
        path[0]
    }
}

/// The enums that the first `n` alternatives belong to, each once.
pub open spec fn enum_names(variants: Seq<VariantModel>, n: nat) -> Seq<Seq<char>>
    decreases n,
{
    if n == 0 {
        Seq::empty()
    } else {
        let names = enum_names(variants, (n - 1) as nat);
        let name = enum_name(variants[n - 1].path);
        if names.contains(name) {
            names
        } else {
            names.push(name)
        }
    }
}

/// The types that a value of a declared type can have, by the names that the
/// method table uses. None where there is nothing to check.
pub open spec fn names_of_type(t: TypeModel) -> Seq<Seq<char>>
    decreases t,
{
    match t {
        TypeModel::Primitive(PrimitiveType::String) => seq!["String"@],
        TypeModel::Primitive(PrimitiveType::Int) => seq!["i64"@],
        TypeModel::Primitive(PrimitiveType::Float) => seq!["f64"@],
        TypeModel::Primitive(PrimitiveType::Bool) => seq!["bool"@],
        TypeModel::Primitive(PrimitiveType::Bytes) => seq!["Bytes"@],
        TypeModel::Object(_) => seq!["Object"@],
        TypeModel::List(_) => seq!["Vec"@],
        TypeModel::Unit => Seq::empty(),
        TypeModel::Nullable(inner) => names_of_type(*inner),
        TypeModel::Enum(variants) => enum_names(variants, variants.len()),
    }
}

/// The enum type of one variant.
pub open spec fn variant_type(path: Seq<Seq<char>>) -> TypeModel {
    TypeModel::Enum(seq![VariantModel { path, inner: None }])
}

/// The enum that a variant belongs to.
pub fn canonical_enum_name(path: &Vec<String>) -> (r: String)
    ensures
        r@ == enum_name(texts(path@)),
{
    if path.len() == 0 {
        return String::new();
    }
    let first = path[0].as_str();
    if same_text(first, "Ok") || same_text(first, "Err") {
        "Result".to_owned()
    } else if same_text(first, "Some") || same_text(first, "None") {
        "Option".to_owned()
    } else {
        first.to_owned()
    }
}

/// Whether a list of strings has a text in it.
fn contains_string(strings: &Vec<String>, text: &str) -> (r: bool)
    ensures
        r == texts(strings@).contains(text@),
{
    for i in 0..strings.len()
        invariant
            forall|j: int| 0 <= j < i ==> (#[trigger] texts(strings@)[j]) != text@,
    {
        if same_text(strings[i].as_str(), text) {
            assert(texts(strings@)[i as int] == text@);
            return true;
        }
    }
    false
}

/// The list of one string.
fn one_string(s: &str) -> (r: Vec<String>)
    ensures
        texts(r@) == seq![s@],
{
    let r = vec![s.to_owned()];
    assert(texts(r@) =~= seq![s@]);
    r
}

/// The types that a value of a declared type can have.
pub fn type_names(ty: &TypeDef) -> (r: Vec<String>)
    ensures
        texts(r@) == names_of_type(ty@),
    decreases ty,
{
    match ty {
        TypeDef::Primitive(PrimitiveType::String) => one_string("String"),
        TypeDef::Primitive(PrimitiveType::Int) => one_string("i64"),
        TypeDef::Primitive(PrimitiveType::Float) => one_string("f64"),
        TypeDef::Primitive(PrimitiveType::Bool) => one_string("bool"),
        TypeDef::Primitive(PrimitiveType::Bytes) => one_string("Bytes"),
        TypeDef::Object(_) => one_string("Object"),
        TypeDef::List(_) => one_string("Vec"),
        TypeDef::Unit => {
            let r: Vec<String> = Vec::new();
            assert(texts(r@) =~= Seq::<Seq<char>>::empty());
            r
        },
        TypeDef::Nullable(inner) => type_names(inner),
        TypeDef::Enum(variants) => variant_enum_names(variants),
    }
}

/// The enums that alternatives belong to.
fn variant_enum_names(variants: &Vec<EnumVariant>) -> (r: Vec<String>)
    ensures
        texts(r@) == enum_names(variants_model(variants@), variants_model(variants@).len()),
{
    let ghost models = variants_model(variants@);
    let mut names: Vec<String> = Vec::new();
    assert(texts(names@) =~= Seq::<Seq<char>>::empty());
    for i in 0..variants.len()
        invariant
            models == variants_model(variants@),
            texts(names@) == enum_names(models, i as nat),
    {
        assert(models[i as int] == variants@[i as int]@);
        let name = canonical_enum_name(&variants[i].path);
        let ghost before = texts(names@);
        let ghost text = name@;
        if !contains_string(&names, name.as_str()) {
            names.push(name);
            assert(texts(names@) =~= before.push(text));
        }
    }
    names
}

/// The enum type of one variant.
pub fn enum_of(path: Vec<String>) -> (r: TypeDef)
    ensures
        r@ == variant_type(texts(path@)),
{
    let variants = vec![EnumVariant { path, inner: None }];
    assert(variants_model(variants@) =~= seq![variants@[0]@]);
    TypeDef::Enum(variants)
}

// ---------------------------------------------------------------------------
// What is known of types.
// ---------------------------------------------------------------------------

/// The known types of variables. Of a name that it does not have, the type is
/// unknown.
pub type TypesModel = Map<Seq<char>, TypeModel>;

/// What a walk is made with.
pub struct Setting {
    pub source: Seq<char>,
    pub registry: Map<Seq<char>, OriginModel>,
    pub methods: MethodTable,
}

/// A variable gets a type, or an unknown one.
pub open spec fn rebind(env: TypesModel, name: Seq<char>, ty: Option<TypeModel>) -> TypesModel {
    match ty {
        Some(t) => env.insert(name, t),
        None => env.remove(name),
    }
}

/// The types of the names become unknown.
pub open spec fn forget(env: TypesModel, names: Seq<Seq<char>>) -> TypesModel {
    Map::new(
        |name: Seq<char>| env.contains_key(name) && !names.contains(name),
        |name: Seq<char>| env[name],
    )
}

/// The type of a path that stands alone: a variable or an enum variant.
pub open spec fn path_type(
    path: PathTree,
    env: TypesModel,
    source: Seq<char>,
) -> Option<TypeModel> {
    match segments_of(path, source) {
        Some(segments) => if segments.len() == 1 {
            if segments[0] == "None"@ {
                Some(variant_type(seq!["Option"@, "None"@]))
            } else if env.contains_key(segments[0]) {
                Some(env[segments[0]])
            } else {
                None
            }
        } else if starts_upper(last_of(segments)) {
            Some(variant_type(segments))
        } else {
            None
        },
        None => None,
    }
}

/// The suffix of a number literal.
pub open spec fn suffix_span(number: NumberLit, text: NumberText) -> Span {
    Span { start: text.number.end, end: number.span.end }
}

/// Whether an integer with the given suffix is a signed one. Each size of them
/// is of the same type at run time.
pub open spec fn is_signed_suffix(suffix: Seq<char>) -> bool {
    suffix.len() == 0 || suffix == "i8"@ || suffix == "i16"@ || suffix == "i32"@ || suffix
        == "i64"@
}

/// The type of a literal. That of an integer whose suffix tells another type
/// (`1u64`) is taken as unknown.
pub open spec fn lit_type(lit: LitNode, source: Seq<char>) -> Option<TypeModel> {
    match lit {
        LitNode::Str(_) => Some(TypeModel::Primitive(PrimitiveType::String)),
        LitNode::Bool(_) => Some(TypeModel::Primitive(PrimitiveType::Bool)),
        LitNode::Number(number) => match number.text {
            Some(text) => if text.is_fractional {
                Some(TypeModel::Primitive(PrimitiveType::Float))
            } else if is_signed_suffix(span_text(source, suffix_span(number, text))) {
                Some(TypeModel::Primitive(PrimitiveType::Int))
            } else {
                None
            },
            None => Some(TypeModel::Primitive(PrimitiveType::Int)),
        },
        LitNode::ByteStr => Some(TypeModel::Primitive(PrimitiveType::Bytes)),
        LitNode::Other => None,
    }
}

/// The type that a call of the function with the given path has: that of a
/// function in the registry, or that of an enum variant.
pub open spec fn function_type(path: PathTree, cx: Setting) -> Option<TypeModel> {
    match segments_of(path, cx.source) {
        Some(segments) => {
            let name = join(segments, "::"@);
            if cx.registry.contains_key(name) {
                Some(cx.registry[name].type_def())
            } else if segments.len() == 1 {
                if segments[0] == "Ok"@ || segments[0] == "Err"@ {
                    Some(variant_type(seq!["Result"@, segments[0]]))
                } else if segments[0] == "Some"@ || segments[0] == "None"@ {
                    Some(variant_type(seq!["Option"@, segments[0]]))
                } else {
                    None
                }
            } else if starts_upper(last_of(segments)) {
                Some(variant_type(segments))
            } else {
                None
            }
        },
        None => None,
    }
}

/// What a method returns, where the type has it and the table tells.
pub open spec fn method_type(
    receiver: TypeModel,
    method: Seq<char>,
    methods: MethodTable,
) -> Option<TypeModel> {
    let names = names_of_type(receiver);
    if names.len() == 1 && methods.contains_key(names[0]) && methods[names[0]].contains_key(
        method,
    ) {
        methods[names[0]][method]
    } else {
        None
    }
}

/// The name of the method in `receiver.method`.
pub open spec fn method_of(field: FieldTree, source: Seq<char>) -> Option<Seq<char>> {
    match field {
        FieldTree::Path(path) => single_of(path, source),
        _ => None,
    }
}

/// The type of an expression, where it is known, by the types that are known
/// after it. A receiver is there before the arguments of the call, so that
/// nothing is known of it where these assign it.
pub open spec fn type_of(expr: ExprTree, env: TypesModel, cx: Setting) -> Option<TypeModel>
    decreases expr,
{
    match expr {
        ExprTree::Path(path) => path_type(path, env, cx.source),
        ExprTree::Lit(lit) => lit_type(lit, cx.source),
        // `Point { x: 1 }` is a value of a type of the script.
        ExprTree::Object(anonymous, _) => if anonymous {
            Some(TypeModel::Object(Seq::empty()))
        } else {
            None
        },
        ExprTree::Vec(_) => Some(TypeModel::List(Box::new(TypeModel::Unit))),
        ExprTree::Group(inner) => type_of(*inner, env, cx),
        ExprTree::Try(inner, _) => match type_of(*inner, env, cx) {
            Some(t) => success_of(t),
            None => None,
        },
        ExprTree::Call(callee, args, _) => match *callee {
            ExprTree::FieldAccess(receiver, field) => match (
                method_of(field, cx.source),
                type_of(
                    *receiver,
                    forget(env, assigned_in_all(args, args.len(), cx.source)),
                    cx,
                ),
            ) {
                (Some(method), Some(t)) => method_type(t, method, cx.methods),
                _ => None,
            },
            ExprTree::Path(path) => function_type(path, cx),
            _ => None,
        },
        _ => None,
    }
}

/// The type that a pattern `Some(x)` or `Ok(x)` binds `x` to.
pub open spec fn unwrapped_type(ty: Option<TypeModel>) -> Option<TypeModel> {
    match ty {
        Some(t) => success_of(t),
        None => None,
    }
}

/// Whether a tuple pattern is `Some(...)` or `Ok(...)`.
pub open spec fn is_unwrapping(path: Option<PathTree>, source: Seq<char>) -> bool {
    match path {
        Some(path) => match segments_of(path, source) {
            Some(segments) => is_success_path(segments),
            None => false,
        },
        None => false,
    }
}

/// The names that a pattern binds.
pub open spec fn pattern_names(pat: PatTree, source: Seq<char>) -> Seq<Seq<char>>
    decreases pat, 0nat,
{
    match pat {
        PatTree::Path(path) => match single_of(path, source) {
            Some(name) => seq![name],
            None => Seq::empty(),
        },
        PatTree::Tuple(_, items) => patterns_names(items, items.len(), source),
        PatTree::Vec(items) => patterns_names(items, items.len(), source),
        PatTree::Object(items) => patterns_names(items, items.len(), source),
        PatTree::Binding(inner) => pattern_names(*inner, source),
        PatTree::Other => Seq::empty(),
    }
}

/// The names that the first `n` patterns bind.
pub open spec fn patterns_names(pats: Seq<PatTree>, n: nat, source: Seq<char>) -> Seq<Seq<char>>
    decreases pats, n,
{
    if n == 0 || n > pats.len() {
        Seq::empty()
    } else {
        patterns_names(pats, (n - 1) as nat, source) + pattern_names(pats[n - 1], source)
    }
}

/// The types after a pattern has been bound to a value of the given type.
pub open spec fn bound(
    pat: PatTree,
    ty: Option<TypeModel>,
    env: TypesModel,
    source: Seq<char>,
) -> TypesModel
    decreases pat, 0nat,
{
    match pat {
        PatTree::Path(path) => match single_of(path, source) {
            Some(name) => rebind(env, name, ty),
            None => env,
        },
        PatTree::Tuple(path, items) => if is_unwrapping(path, source) && items.len() == 1 {
            bound(items[0], unwrapped_type(ty), env, source)
        } else if is_unwrapping(path, source) {
            bound_unknown(items, items.len(), env, source)
        } else {
            forget(env, pattern_names(pat, source))
        },
        _ => forget(env, pattern_names(pat, source)),
    }
}

/// The types after the first `n` patterns have been bound to unknown values.
pub open spec fn bound_unknown(
    pats: Seq<PatTree>,
    n: nat,
    env: TypesModel,
    source: Seq<char>,
) -> TypesModel
    decreases pats, n,
{
    if n == 0 || n > pats.len() {
        env
    } else {
        bound(pats[n - 1], None, bound_unknown(pats, (n - 1) as nat, env, source), source)
    }
}

/// The variable that an assignment to `lhs` assigns.
pub open spec fn assigned_name(lhs: ExprTree, source: Seq<char>) -> Option<Seq<char>> {
    match lhs {
        ExprTree::Path(path) => single_of(path, source),
        _ => None,
    }
}

/// The variables that are assigned anywhere in an expression.
pub open spec fn assigned_in(expr: ExprTree, source: Seq<char>) -> Seq<Seq<char>>
    decreases expr, sub_exprs(expr).len() + 1,
{
    let within = assigned_in_first(expr, sub_exprs(expr).len(), source);
    match expr {
        ExprTree::Assign(lhs, _) => match assigned_name(*lhs, source) {
            Some(name) => seq![name] + within,
            None => within,
        },
        _ => within,
    }
}

/// The variables that are assigned in the first `n` direct sub-expressions.
pub open spec fn assigned_in_first(expr: ExprTree, n: nat, source: Seq<char>) -> Seq<Seq<char>>
    decreases expr, n,
{
    if n == 0 || n > sub_exprs(expr).len() {
        Seq::empty()
    } else {
        proof {
            lemma_sub_exprs_smaller(expr);
        }
        assigned_in_first(expr, (n - 1) as nat, source) + assigned_in(
            sub_exprs(expr)[n - 1],
            source,
        )
    }
}

/// The variables that are assigned in the first `n` of a sequence of
/// expressions.
pub open spec fn assigned_in_all(exprs: Seq<ExprTree>, n: nat, source: Seq<char>) -> Seq<Seq<char>>
    decreases n,
{
    if n == 0 {
        Seq::empty()
    } else {
        assigned_in_all(exprs, (n - 1) as nat, source) + assigned_in(exprs[n - 1], source)
    }
}

/// The variables that are assigned in a block.
pub open spec fn assigned_in_block(block: BlockTree, source: Seq<char>) -> Seq<Seq<char>> {
    assigned_in_all(block_exprs(block), block_exprs(block).len(), source)
}

/// The variables that are assigned in a condition.
pub open spec fn assigned_in_condition(condition: ConditionTree, source: Seq<char>) -> Seq<
    Seq<char>,
> {
    assigned_in_all(condition_exprs(condition), condition_exprs(condition).len(), source)
}

// ---------------------------------------------------------------------------
// The walk.
// ---------------------------------------------------------------------------

/// Where a walk stands: the types that it knows, and what it has found.
#[verifier::ext_equal]
pub struct WalkState {
    pub env: TypesModel,
    pub found: Seq<MethodViolationModel>,
}

/// A state with the given types in which nothing has been found.
pub open spec fn unreported(env: TypesModel) -> WalkState {
    WalkState { env, found: Seq::empty() }
}

/// A state with other types.
pub open spec fn with_env(st: WalkState, env: TypesModel) -> WalkState {
    WalkState { env, found: st.found }
}

/// The methods that Rune provides across types, which are never reported.
pub open spec fn is_universal(method: Seq<char>) -> bool {
    method == "clone"@ || method == "eq"@ || method == "ne"@ || method == "cmp"@ || method
        == "partial_cmp"@
}

/// Whether a method exists on a type of the table.
pub open spec fn has_method(methods: MethodTable, name: Seq<char>, method: Seq<char>) -> bool {
    methods.contains_key(name) && methods[name].contains_key(method)
}

/// Whether a call of a method on a value of a type fails: the host describes
/// all types that the value can have, and none of them has the method.
pub open spec fn is_missing(
    methods: MethodTable,
    names: Seq<Seq<char>>,
    method: Seq<char>,
) -> bool {
    &&& names.len() > 0
    &&& !is_universal(method)
    &&& forall|i: int| 0 <= i < names.len() ==> methods.contains_key(#[trigger] names[i])
    &&& forall|i: int| 0 <= i < names.len() ==> !has_method(methods, #[trigger] names[i], method)
}

/// What is wrong with a call `receiver.method(...)`.
pub open spec fn call_fault(
    receiver: ExprTree,
    field: FieldTree,
    span: Span,
    env: TypesModel,
    cx: Setting,
) -> Option<MethodViolationModel> {
    match (method_of(field, cx.source), type_of(receiver, env, cx)) {
        (Some(method), Some(t)) => if is_missing(cx.methods, names_of_type(t), method) {
            Some(
                MethodViolationModel {
                    receiver: join(names_of_type(t), " | "@),
                    method,
                    line: line_number(cx.source, span.start as int),
                },
            )
        } else {
            None
        },
        _ => None,
    }
}

/// The types after the pattern of a condition has been bound.
pub open spec fn bound_condition(
    condition: ConditionTree,
    env: TypesModel,
    cx: Setting,
) -> TypesModel {
    match condition {
        ConditionTree::Let(pat, expr) => bound(pat, type_of(expr, env, cx), env, cx.source),
        _ => env,
    }
}

/// The types after the first `n` parameters have been bound to unknown
/// values.
pub open spec fn bound_args(
    args: Seq<Option<PatTree>>,
    n: nat,
    env: TypesModel,
    source: Seq<char>,
) -> TypesModel
    decreases n,
{
    if n == 0 {
        env
    } else {
        let before = bound_args(args, (n - 1) as nat, env, source);
        match args[n - 1] {
            Some(pat) => bound(pat, None, before, source),
            None => before,
        }
    }
}

/// The state after an expression has been walked. What may not run, or may
/// run more than once (a branch, the right operand of `&&` or `||`, the body
/// of a loop, a closure), is walked on a copy of the types, and the variables
/// that are assigned in it are unknown afterwards. What is called runs before
/// the arguments, and the target of an assignment before the value; what is
/// found in it is reported behind what is found in them.
pub open spec fn walked(expr: ExprTree, st: WalkState, cx: Setting) -> WalkState
    decreases expr, sub_exprs(expr).len() + 1,
{
    match expr {
        ExprTree::Call(callee, args, span) => {
            match *callee {
                ExprTree::FieldAccess(receiver, field) => {
                    let target = walked(*receiver, unreported(st.env), cx);
                    let rest = walked_list(args, args.len(), with_env(st, target.env), cx);
                    let found = rest.found + target.found;
                    WalkState {
                        env: rest.env,
                        found: match call_fault(*receiver, field, span, target.env, cx) {
                            Some(fault) => found.push(fault),
                            None => found,
                        },
                    }
                },
                _ => {
                    let target = walked(*callee, unreported(st.env), cx);
                    let rest = walked_list(args, args.len(), with_env(st, target.env), cx);
                    WalkState { env: rest.env, found: rest.found + target.found }
                },
            }
        },
        ExprTree::Block(block) => walked_scope(block, st.env, st, cx),
        ExprTree::If(branches, otherwise) => {
            let st = walked_branches(branches, branches.len(), st, cx);
            match otherwise {
                Some(block) => walked_scope(block, st.env, st, cx),
                None => st,
            }
        },
        ExprTree::Match(scrutinee, arms) => {
            let st = walked(*scrutinee, st, cx);
            walked_arms(arms, arms.len(), type_of(*scrutinee, st.env, cx), st, cx)
        },
        ExprTree::Select(arms) => {
            let env = forget(st.env, assigned_in(expr, cx.source));
            walked_selects(arms, arms.len(), WalkState { env, found: st.found }, cx)
        },
        ExprTree::Loop(body) => {
            let env = forget(st.env, assigned_in_block(body, cx.source));
            walked_scope(body, env, WalkState { env, found: st.found }, cx)
        },
        ExprTree::While(condition, body) => {
            let st = walked_condition(*condition, st, cx);
            let env = forget(
                forget(st.env, assigned_in_condition(*condition, cx.source)),
                assigned_in_block(body, cx.source),
            );
            walked_scope(
                body,
                bound_condition(*condition, env, cx),
                WalkState { env, found: st.found },
                cx,
            )
        },
        ExprTree::For(pat, iter, body) => {
            let st = walked(*iter, st, cx);
            let env = forget(st.env, assigned_in_block(body, cx.source));
            walked_scope(
                body,
                bound(pat, None, env, cx.source),
                WalkState { env, found: st.found },
                cx,
            )
        },
        ExprTree::Closure(args, body) => {
            let inner = bound_args(args, args.len(), st.env, cx.source);
            WalkState {
                env: forget(st.env, assigned_in(*body, cx.source)),
                found: walked(*body, WalkState { env: inner, found: st.found }, cx).found,
            }
        },
        ExprTree::Logic(lhs, rhs) => {
            let st = walked(*lhs, st, cx);
            WalkState {
                env: forget(st.env, assigned_in(*rhs, cx.source)),
                found: walked(*rhs, st, cx).found,
            }
        },
        ExprTree::Assign(lhs, rhs) => {
            let target = walked(*lhs, unreported(st.env), cx);
            let value = walked(*rhs, with_env(st, target.env), cx);
            WalkState {
                env: match assigned_name(*lhs, cx.source) {
                    Some(name) => rebind(value.env, name, type_of(*rhs, value.env, cx)),
                    None => value.env,
                },
                found: value.found + target.found,
            }
        },
        ExprTree::Let(pat, inner) => {
            let st = walked(*inner, st, cx);
            WalkState {
                env: bound(pat, type_of(*inner, st.env, cx), st.env, cx.source),
                found: st.found,
            }
        },
        _ => walked_first(expr, sub_exprs(expr).len(), st, cx),
    }
}

/// The state after the first `n` direct sub-expressions have been walked.
pub open spec fn walked_first(expr: ExprTree, n: nat, st: WalkState, cx: Setting) -> WalkState
    decreases expr, n,
{
    if n == 0 || n > sub_exprs(expr).len() {
        st
    } else {
        proof {
            lemma_sub_exprs_smaller(expr);
        }
        walked(sub_exprs(expr)[n - 1], walked_first(expr, (n - 1) as nat, st, cx), cx)
    }
}

/// The state after the first `n` of a sequence of expressions have been
/// walked.
pub open spec fn walked_list(
    exprs: Seq<ExprTree>,
    n: nat,
    st: WalkState,
    cx: Setting,
) -> WalkState
    decreases exprs, n,
{
    if n == 0 || n > exprs.len() {
        st
    } else {
        walked(exprs[n - 1], walked_list(exprs, (n - 1) as nat, st, cx), cx)
    }
}

/// The state after a condition has been walked.
pub open spec fn walked_condition(
    condition: ConditionTree,
    st: WalkState,
    cx: Setting,
) -> WalkState
    decreases condition, 0nat,
{
    match condition {
        ConditionTree::Expr(expr) => walked(expr, st, cx),
        ConditionTree::Let(_, expr) => walked(expr, st, cx),
        ConditionTree::Other => st,
    }
}

/// The state after the first `n` statements of a block have been walked.
pub open spec fn walked_block(block: BlockTree, n: nat, st: WalkState, cx: Setting) -> WalkState
    decreases block, n,
{
    if n == 0 || n > block.statements.len() {
        st
    } else {
        let st = walked_block(block, (n - 1) as nat, st, cx);
        match block.statements[n - 1] {
            StmtTree::Local(pat, expr) => {
                let st = walked(expr, st, cx);
                WalkState {
                    env: bound(pat, type_of(expr, st.env, cx), st.env, cx.source),
                    found: st.found,
                }
            },
            StmtTree::Expr(expr) => walked(expr, st, cx),
            StmtTree::Semi(expr) => walked(expr, st, cx),
            StmtTree::Other => st,
        }
    }
}

/// The state after a block has been walked with the types `inner`.
pub open spec fn walked_scope(
    block: BlockTree,
    inner: TypesModel,
    st: WalkState,
    cx: Setting,
) -> WalkState
    decreases block, block.statements.len() + 1,
{
    WalkState {
        env: forget(st.env, assigned_in_block(block, cx.source)),
        found: walked_block(
            block,
            block.statements.len(),
            WalkState { env: inner, found: st.found },
            cx,
        ).found,
    }
}

/// The state after the first `n` branches of an `if` have been walked. The
/// condition of the first branch runs in any case, those of the others may
/// not.
pub open spec fn walked_branches(
    branches: Seq<(ConditionTree, BlockTree)>,
    n: nat,
    st: WalkState,
    cx: Setting,
) -> WalkState
    decreases branches, n,
{
    if n == 0 || n > branches.len() {
        st
    } else {
        let before = walked_branches(branches, (n - 1) as nat, st, cx);
        let (condition, block) = branches[n - 1];
        let tested = walked_condition(branches[n - 1].0, before, cx);
        let env = if n == 1 {
            tested.env
        } else {
            forget(before.env, assigned_in_condition(condition, cx.source))
        };
        walked_scope(
            branches[n - 1].1,
            bound_condition(condition, tested.env, cx),
            WalkState { env, found: tested.found },
            cx,
        )
    }
}

/// The state after the first `n` arms of a `match` on a value of the given
/// type have been walked.
pub open spec fn walked_arms(
    arms: Seq<ArmTree>,
    n: nat,
    ty: Option<TypeModel>,
    st: WalkState,
    cx: Setting,
) -> WalkState
    decreases arms, n,
{
    if n == 0 || n > arms.len() {
        st
    } else {
        let before = walked_arms(arms, (n - 1) as nat, ty, st, cx);
        let inner = WalkState {
            env: bound(arms[n - 1].pat, ty, before.env, cx.source),
            found: before.found,
        };
        match arms[n - 1].guard {
            Some(guard) => WalkState {
                env: forget(
                    forget(before.env, assigned_in(guard, cx.source)),
                    assigned_in(arms[n - 1].body, cx.source),
                ),
                found: walked(arms[n - 1].body, walked(guard, inner, cx), cx).found,
            },
            None => WalkState {
                env: forget(before.env, assigned_in(arms[n - 1].body, cx.source)),
                found: walked(arms[n - 1].body, inner, cx).found,
            },
        }
    }
}

/// The state after the first `n` arms of a `select` have been walked. The
/// order in which the awaited expressions run is open, so each of them, and
/// each body, is walked on a copy of the types.
pub open spec fn walked_selects(
    arms: Seq<SelectTree>,
    n: nat,
    st: WalkState,
    cx: Setting,
) -> WalkState
    decreases arms, n,
{
    if n == 0 || n > arms.len() {
        st
    } else {
        let before = walked_selects(arms, (n - 1) as nat, st, cx);
        let inner = match arms[n - 1].binding {
            Some(binding) => WalkState {
                env: bound(binding.0, None, before.env, cx.source),
                found: walked(binding.1, before, cx).found,
            },
            None => before,
        };
        WalkState { env: before.env, found: walked(arms[n - 1].body, inner, cx).found }
    }
}

/// The types of the parameters of a function: the first `n` parameters by the
/// declared ones.
pub open spec fn param_types(
    args: Seq<Option<PatTree>>,
    params: Seq<ParamModel>,
    n: nat,
    source: Seq<char>,
) -> TypesModel
    decreases n,
{
    if n == 0 {
        Map::empty()
    } else {
        let before = param_types(args, params, (n - 1) as nat, source);
        match args[n - 1] {
            Some(PatTree::Path(path)) => match single_of(path, source) {
                Some(name) => before.insert(name, params[n - 1].type_def),
                None => before,
            },
            _ => before,
        }
    }
}

/// The smaller of two numbers.
pub open spec fn min_len(a: nat, b: nat) -> nat {
    if a < b {
        a
    } else {
        b
    }
}

/// The calls of methods that do not exist, in a function with the given
/// contract. With an empty table nothing is checked.
pub open spec fn missing_methods(
    item: FnTree,
    contract: ContractModel,
    cx: Setting,
) -> Seq<MethodViolationModel> {
    if cx.methods == Map::<Seq<char>, Map<Seq<char>, Option<TypeModel>>>::empty() {
        Seq::empty()
    } else {
        let env = param_types(
            item.args,
            contract.params,
            min_len(item.args.len(), contract.params.len()),
            cx.source,
        );
        walked_block(
            item.body,
            item.body.statements.len(),
            WalkState { env, found: Seq::empty() },
            cx,
        ).found
    }
}

// ---------------------------------------------------------------------------
// Knowing types.
// ---------------------------------------------------------------------------

/// The known types of variables as mathematical values.
pub open spec fn types_model(env: Map<Seq<char>, TypeDef>) -> TypesModel {
    env.map_values(|t: TypeDef| t@)
}

/// A variable gets a type, or an unknown one.
fn set_type(env: &mut NameMap<TypeDef>, name: String, ty: Option<TypeDef>)
    ensures
        types_model(final(env)@) == rebind(types_model(old(env)@), name@, option_model(ty)),
{
    let ghost before = types_model(env@);
    let ghost key = name@;
    match ty {
        Some(t) => {
            let ghost model = t@;
            env.insert(name, t);
            assert(types_model(env@) =~= before.insert(key, model));
        },
        None => {
            let _ = env.remove(name.as_str());
            assert(types_model(env@) =~= before.remove(key));
        },
    }
}

/// To forget one more name is to remove it.
proof fn lemma_forget_one_more(env: TypesModel, names: Seq<Seq<char>>, last: Seq<char>)
    ensures
        forget(env, names.push(last)) == forget(env, names).remove(last),
{
    let more = names.push(last);
    assert forall|name: Seq<char>| #[trigger] more.contains(name) <==> names.contains(name) || name
        == last by {
        if names.contains(name) {
            let k = choose|k: int| 0 <= k < names.len() && names[k] == name;
            assert(more[k] == name);
        }
        if name == last {
            assert(more[names.len() as int] == name);
        }
    }
    assert(forget(env, more) =~= forget(env, names).remove(last));
}

/// The types of the names become unknown.
fn forget_all(env: &mut NameMap<TypeDef>, names: &Vec<String>)
    ensures
        types_model(final(env)@) == forget(types_model(old(env)@), texts(names@)),
{
    let ghost before = types_model(env@);
    for i in 0..names.len()
        invariant
            types_model(env@) =~= forget(before, texts(names@).take(i as int)),
    {
        let ghost taken = texts(names@).take(i as int);
        let ghost known = types_model(env@);
        let ghost last = names@[i as int]@;
        let _ = env.remove(names[i].as_str());
        proof {
            assert(types_model(env@) =~= known.remove(last));
            assert(texts(names@).take(i + 1) =~= taken.push(last));
            lemma_forget_one_more(before, taken, last);
        }
    }
    assert(texts(names@).take(names@.len() as int) =~= texts(names@));
}

/// A copy of the known types.
fn copied(env: &NameMap<TypeDef>) -> (r: NameMap<TypeDef>)
    ensures
        types_model(r@) == types_model(env@),
{
    let r = env.clone();
    assert forall|name: Seq<char>| env@.contains_key(name) implies (#[trigger] r@[name])@
        == env@[name]@ by {
        assert(cloned(env@[name], r@[name]));
    }
    assert(types_model(r@) =~= types_model(env@));
    r
}

// ---------------------------------------------------------------------------
// Patterns.
// ---------------------------------------------------------------------------

/// Appends a string.
fn push_string(out: &mut Vec<String>, s: String)
    ensures
        texts(final(out)@) == texts(old(out)@) + seq![s@],
{
    out.push(s);
    assert(texts(out@) =~= texts(old(out)@) + seq![s@]);
}

/// Collects the names that a pattern binds.
fn collect_pat_idents(pat: &PatNode, source: &str, out: &mut Vec<String>)
    requires
        pat_fits(pat@, source@),
    ensures
        texts(final(out)@) == texts(old(out)@) + pattern_names(pat@, source@),
    decreases pat, 0nat,
{
    let ghost before = texts(out@);
    match pat {
        PatNode::Path(path) => {
            if let Some(name) = single_segment(path, source) {
                push_string(out, name);
            }
        },
        PatNode::Tuple(_, items) => collect_pats_idents(items, source, out),
        PatNode::Vec(items) => collect_pats_idents(items, source, out),
        PatNode::Object(items) => collect_pats_idents(items, source, out),
        PatNode::Binding(inner) => collect_pat_idents(inner, source, out),
        PatNode::Other => {},
    }
    assert(texts(out@) =~= before + pattern_names(pat@, source@));
}

fn collect_pats_idents(pats: &Vec<PatNode>, source: &str, out: &mut Vec<String>)
    requires
        pats_fit(pats_model(pats@), source@),
    ensures
        texts(final(out)@) == texts(old(out)@) + patterns_names(
            pats_model(pats@),
            pats_model(pats@).len(),
            source@,
        ),
    decreases pats, 0nat,
{
    let ghost before = texts(out@);
    let ghost trees = pats_model(pats@);
    for i in 0..pats.len()
        invariant
            trees == pats_model(pats@),
            pats_fit(trees, source@),
            texts(out@) =~= before + patterns_names(trees, i as nat, source@),
    {
        assert(trees[i as int] == pats@[i as int]@);
        collect_pat_idents(&pats[i], source, out);
    }
}

/// The names that a pattern binds.
fn pat_idents(pat: &PatNode, source: &str) -> (r: Vec<String>)
    requires
        pat_fits(pat@, source@),
    ensures
        texts(r@) == pattern_names(pat@, source@),
{
    let mut out: Vec<String> = Vec::new();
    collect_pat_idents(pat, source, &mut out);
    assert(texts(out@) =~= pattern_names(pat@, source@));
    out
}

/// Whether a tuple pattern is `Some(...)` or `Ok(...)`.
fn is_unwrap_tuple(path: &Option<PathNode>, source: &str) -> (r: bool)
    requires
        path is Some ==> path_fits(path->Some_0@, source@),
    ensures
        r == is_unwrapping(
            match path {
                Some(path) => Some(path@),
                None => None,
            },
            source@,
        ),
{
    match path {
        Some(path) => match path_segments(path, source) {
            Some(segments) => match last_string(&segments) {
                Some(last) => same_text(last.as_str(), "Ok") || same_text(last.as_str(), "Some"),
                None => false,
            },
            None => false,
        },
        None => false,
    }
}

/// Binds a pattern to a value of the given type.
fn bind_pattern_static(
    pat: &PatNode,
    ty: Option<TypeDef>,
    env: &mut NameMap<TypeDef>,
    source: &str,
)
    requires
        pat_fits(pat@, source@),
    ensures
        types_model(final(env)@) == bound(
            pat@,
            option_model(ty),
            types_model(old(env)@),
            source@,
        ),
    decreases pat, 0nat,
{
    match pat {
        PatNode::Path(path) => {
            if let Some(name) = single_segment(path, source) {
                set_type(env, name, ty);
            }
        },
        PatNode::Tuple(path, items) => {
            assert(pats_model(items@).len() == items@.len());
            if is_unwrap_tuple(path, source) {
                if items.len() == 1 {
                    let inner_ty = match &ty {
                        Some(t) => declared_success_type(t),
                        None => None,
                    };
                    assert(pats_fit(pats_model(items@), source@));
                    assert(pats_model(items@)[0] == items@[0]@);
                    bind_pattern_static(&items[0], inner_ty, env, source);
                } else {
                    bind_patterns_unknown(items, env, source);
                }
            } else {
                forget_all(env, &pat_idents(pat, source));
            }
        },
        _ => forget_all(env, &pat_idents(pat, source)),
    }
}

fn bind_patterns_unknown(pats: &Vec<PatNode>, env: &mut NameMap<TypeDef>, source: &str)
    requires
        pats_fit(pats_model(pats@), source@),
    ensures
        types_model(final(env)@) == bound_unknown(
            pats_model(pats@),
            pats_model(pats@).len(),
            types_model(old(env)@),
            source@,
        ),
    decreases pats, 0nat,
{
    let ghost before = types_model(env@);
    let ghost trees = pats_model(pats@);
    for i in 0..pats.len()
        invariant
            trees == pats_model(pats@),
            pats_fit(trees, source@),
            types_model(env@) == bound_unknown(trees, i as nat, before, source@),
    {
        assert(trees[i as int] == pats@[i as int]@);
        bind_pattern_static(&pats[i], None, env, source);
    }
}

// ---------------------------------------------------------------------------
// Assigned variables.
// ---------------------------------------------------------------------------

/// The variable that an assignment assigns.
fn assigned_variable(lhs: &ExprNode, source: &str) -> (r: Option<String>)
    requires
        expr_fits(lhs@, source@),
    ensures
        match r {
            Some(name) => assigned_name(lhs@, source@) == Some(name@),
            None => assigned_name(lhs@, source@) is None,
        },
{
    match lhs {
        ExprNode::Path(path) => single_segment(path, source),
        _ => None,
    }
}

/// Collects the variables that are assigned anywhere in an expression.
fn collect_assigned_expr(expr: &ExprNode, source: &str, out: &mut Vec<String>)
    requires
        expr_fits(expr@, source@),
    ensures
        texts(final(out)@) == texts(old(out)@) + assigned_in(expr@, source@),
    decreases expr@,
{
    proof {
        lemma_sub_exprs_smaller(expr@);
        lemma_sub_exprs_fit(expr@, source@);
    }
    let ghost start = texts(out@);
    if let ExprNode::Assign(lhs, _) = expr {
        if let Some(name) = assigned_variable(lhs, source) {
            push_string(out, name);
        }
    }
    let ghost before = texts(out@);
    let exprs = direct_exprs(expr);
    let ghost trees = sub_exprs(expr@);
    for i in 0..exprs.len()
        invariant
            refs_model(exprs@) == trees,
            trees == sub_exprs(expr@),
            exprs_fit(trees, source@),
            forall|j: int|
                #![trigger sub_exprs(expr@)[j]]
                0 <= j < sub_exprs(expr@).len() ==> decreases_to!(expr@ => sub_exprs(expr@)[j]),
            texts(out@) =~= before + assigned_in_first(expr@, i as nat, source@),
    {
        assert(trees[i as int] == exprs@[i as int]@);
        collect_assigned_expr(exprs[i], source, out);
    }
    assert(texts(out@) =~= start + assigned_in(expr@, source@));
}

/// Collects the variables that are assigned in expressions.
fn collect_assigned_exprs(exprs: &Vec<&ExprNode>, source: &str) -> (r: Vec<String>)
    requires
        exprs_fit(refs_model(exprs@), source@),
    ensures
        texts(r@) == assigned_in_all(refs_model(exprs@), exprs@.len(), source@),
{
    let mut out: Vec<String> = Vec::new();
    let ghost trees = refs_model(exprs@);
    for i in 0..exprs.len()
        invariant
            trees == refs_model(exprs@),
            exprs_fit(trees, source@),
            texts(out@) =~= assigned_in_all(trees, i as nat, source@),
    {
        assert(trees[i as int] == exprs@[i as int]@);
        collect_assigned_expr(exprs[i], source, &mut out);
    }
    out
}

/// The variables that are assigned in a block become unknown.
fn poison_assigned_in_block(block: &BlockNode, source: &str, env: &mut NameMap<TypeDef>)
    requires
        block_fits(block@, source@),
    ensures
        types_model(final(env)@) == forget(
            types_model(old(env)@),
            assigned_in_block(block@, source@),
        ),
{
    proof {
        lemma_block_exprs_fit(block@, source@);
    }
    let exprs = block_expr_list(block);
    forget_all(env, &collect_assigned_exprs(&exprs, source));
}

/// The variables that are assigned in an expression become unknown.
fn poison_assigned_in_expr(expr: &ExprNode, source: &str, env: &mut NameMap<TypeDef>)
    requires
        expr_fits(expr@, source@),
    ensures
        types_model(final(env)@) == forget(types_model(old(env)@), assigned_in(expr@, source@)),
{
    let mut names: Vec<String> = Vec::new();
    collect_assigned_expr(expr, source, &mut names);
    assert(texts(names@) =~= assigned_in(expr@, source@));
    forget_all(env, &names);
}

/// The variables that are assigned in a list of expressions become unknown.
fn poison_assigned_in_list(exprs: &Vec<ExprNode>, source: &str, env: &mut NameMap<TypeDef>)
    requires
        exprs_fit(exprs_model(exprs@), source@),
    ensures
        types_model(final(env)@) == forget(
            types_model(old(env)@),
            assigned_in_all(exprs_model(exprs@), exprs_model(exprs@).len(), source@),
        ),
{
    let mut names: Vec<String> = Vec::new();
    let ghost trees = exprs_model(exprs@);
    for i in 0..exprs.len()
        invariant
            trees == exprs_model(exprs@),
            exprs_fit(trees, source@),
            texts(names@) =~= assigned_in_all(trees, i as nat, source@),
    {
        assert(trees[i as int] == exprs@[i as int]@);
        collect_assigned_expr(&exprs[i], source, &mut names);
    }
    assert(trees.len() == exprs@.len());
    forget_all(env, &names);
}

/// The variables that are assigned in a condition become unknown.
fn poison_assigned_in_condition(
    condition: &ConditionNode,
    source: &str,
    env: &mut NameMap<TypeDef>,
)
    requires
        condition_fits(condition@, source@),
    ensures
        types_model(final(env)@) == forget(
            types_model(old(env)@),
            assigned_in_condition(condition@, source@),
        ),
{
    proof {
        reveal_with_fuel(assigned_in_all, 2);
    }
    match condition {
        ConditionNode::Expr(expr) => {
            assert(assigned_in_condition(condition@, source@) =~= assigned_in(expr@, source@));
            poison_assigned_in_expr(expr, source, env);
        },
        ConditionNode::Let(_, expr) => {
            assert(assigned_in_condition(condition@, source@) =~= assigned_in(expr@, source@));
            poison_assigned_in_expr(expr, source, env);
        },
        ConditionNode::Other => {
            assert(types_model(env@) =~= forget(types_model(env@), Seq::empty()));
        },
    }
}

// ---------------------------------------------------------------------------
// The check.
// ---------------------------------------------------------------------------

/// Whether an integer with the given suffix is a signed one.
fn signed_suffix(suffix: &str) -> (r: bool)
    ensures
        r == is_signed_suffix(suffix@),
{
    proof {
        reveal_strlit("");
        assert(suffix@.len() == 0 <==> suffix@ =~= ""@);
    }
    same_text(suffix, "") || same_text(suffix, "i8") || same_text(suffix, "i16") || same_text(
        suffix,
        "i32",
    ) || same_text(suffix, "i64")
}

/// Appends what has been found in a part that is reported behind others.
fn report_later(out: &mut Vec<MethodViolation>, later: Vec<MethodViolation>)
    ensures
        method_violations_model(final(out)@) == method_violations_model(old(out)@)
            + method_violations_model(later@),
{
    let ghost before = out@;
    let ghost added = later@;
    let mut later = later;
    out.append(&mut later);
    assert(out@ =~= before + added);
    assert(method_violations_model(out@) =~= method_violations_model(before)
        + method_violations_model(added));
}

/// What a walk is made with.
struct Checker<'a> {
    source: &'a str,
    registry: &'a SignatureRegistry,
    methods: &'a MethodRegistry,
}

/// The state of a walk.
spec fn state(env: Map<Seq<char>, TypeDef>, found: Seq<MethodViolation>) -> WalkState {
    WalkState { env: types_model(env), found: method_violations_model(found) }
}

/// Whether an optional type is the one that is specified.
spec fn is_type(r: Option<TypeDef>, wanted: Option<TypeModel>) -> bool {
    option_model(r) == wanted
}

impl<'a> Checker<'a> {
    spec fn setting(&self) -> Setting {
        Setting { source: self.source@, registry: self.registry@, methods: self.methods@ }
    }

    /// The type of a path that stands alone.
    fn infer_path(&self, path: &PathNode, env: &NameMap<TypeDef>) -> (r: Option<TypeDef>)
        requires
            path_fits(path@, self.source@),
        ensures
            is_type(r, path_type(path@, types_model(env@), self.source@)),
    {
        let segments = match path_segments(path, self.source) {
            Some(segments) => segments,
            None => {
                return None;
            },
        };
        if segments.len() == 1 {
            if same_text(segments[0].as_str(), "None") {
                return Some(two_segments("Option", "None"));
            }
            return match env.get(segments[0].as_str()) {
                Some(t) => Some(t.clone()),
                None => None,
            };
        }
        // `Status::Solved`: a variant by its path.
        if starts_uppercase(last_string(&segments)) {
            return Some(enum_of(segments));
        }
        None
    }

    /// The type of a call of a function.
    fn infer_function(&self, path: &PathNode) -> (r: Option<TypeDef>)
        requires
            path_fits(path@, self.source@),
        ensures
            is_type(r, function_type(path@, self.setting())),
    {
        let segments = match path_segments(path, self.source) {
            Some(segments) => segments,
            None => {
                return None;
            },
        };
        // A helper or a builtin with a known return type.
        if let Some(origin) = self.registry.signatures.get(joined(&segments, "::").as_str()) {
            return Some(origin.type_def().clone());
        }
        if segments.len() == 1 {
            let name = segments[0].as_str();
            return if same_text(name, "Ok") || same_text(name, "Err") {
                Some(two_segments("Result", name))
            } else if same_text(name, "Some") || same_text(name, "None") {
                Some(two_segments("Option", name))
            } else {
                None
            };
        }
        // `Status::Solved(...)` is a variant; `Style::parse(...)` is an
        // associated function, whose type is unknown.
        if starts_uppercase(last_string(&segments)) {
            return Some(enum_of(segments));
        }
        None
    }

    /// The name of the method in `receiver.method`.
    fn method_in(&self, field: &FieldNode) -> (r: Option<String>)
        requires
            field_fits(field@, self.source@),
        ensures
            match r {
                Some(method) => method_of(field@, self.source@) == Some(method@),
                None => method_of(field@, self.source@) is None,
            },
    {
        match field {
            FieldNode::Path(path) => single_segment(path, self.source),
            _ => None,
        }
    }

    /// What a method returns.
    fn method_return(&self, receiver: &TypeDef, method: &str) -> (r: Option<TypeDef>)
        ensures
            is_type(r, method_type(receiver@, method@, self.methods@)),
    {
        let names = type_names(receiver);
        assert(names@.len() == names_of_type(receiver@).len());
        // The type is known only where there is one candidate.
        if names.len() != 1 {
            return None;
        }
        assert(names@[0]@ == names_of_type(receiver@)[0]);
        match self.methods.lookup(names[0].as_str(), method) {
            Some(Some(t)) => Some(t.clone()),
            _ => None,
        }
    }

    /// The type of an expression, where it is known.
    fn infer(&self, expr: &ExprNode, env: &NameMap<TypeDef>) -> (r: Option<TypeDef>)
        requires
            expr_fits(expr@, self.source@),
        ensures
            is_type(r, type_of(expr@, types_model(env@), self.setting())),
        decreases expr,
    {
        match expr {
            ExprNode::Path(path) => self.infer_path(path, env),
            ExprNode::Lit(lit) => match lit {
                LitNode::Str(_) => Some(TypeDef::Primitive(PrimitiveType::String)),
                LitNode::Bool(_) => Some(TypeDef::Primitive(PrimitiveType::Bool)),
                LitNode::Number(number) => match number.text {
                    Some(text) => if text.is_fractional {
                        Some(TypeDef::Primitive(PrimitiveType::Float))
                    } else if signed_suffix(
                        slice(
                            self.source,
                            Span { start: text.number.end, end: number.span.end },
                        ),
                    ) {
                        Some(TypeDef::Primitive(PrimitiveType::Int))
                    } else {
                        None
                    },
                    None => Some(TypeDef::Primitive(PrimitiveType::Int)),
                },
                LitNode::ByteStr => Some(TypeDef::Primitive(PrimitiveType::Bytes)),
                LitNode::Other => None,
            },
            ExprNode::Object(anonymous, _) => {
                if !*anonymous {
                    return None;
                }
                let fields: Vec<(String, TypeDef)> = Vec::new();
                assert(fields_model(fields@) =~= Seq::<(Seq<char>, TypeModel)>::empty());
                Some(TypeDef::Object(fields))
            },
            ExprNode::Vec(_) => {
                let item = TypeDef::Unit;
                assert(item@ == TypeModel::Unit);
                Some(TypeDef::List(Box::new(item)))
            },
            ExprNode::Group(inner) => self.infer(inner, env),
            ExprNode::Try(inner, _) => match self.infer(inner, env) {
                Some(t) => declared_success_type(&t),
                None => None,
            },
            ExprNode::Call(callee, args, _) => {
                assert(expr_fits(callee@, self.source@));
                assert(exprs_fit(exprs_model(args@), self.source@));
                match &**callee {
                    ExprNode::FieldAccess(receiver, field) => {
                        let mut before = copied(env);
                        poison_assigned_in_list(args, self.source, &mut before);
                        match self.method_in(field) {
                            Some(method) => match self.infer(receiver, &before) {
                                Some(t) => self.method_return(&t, method.as_str()),
                                None => None,
                            },
                            None => None,
                        }
                    },
                    ExprNode::Path(path) => self.infer_function(path),
                    _ => None,
                }
            },
            _ => None,
        }
    }

    /// Whether none of the types has the method and all of them are
    /// described.
    fn misses_method(&self, names: &Vec<String>, method: &str) -> (r: bool)
        ensures
            r == is_missing(self.methods@, texts(names@), method@),
    {
        let ghost models = texts(names@);
        if names.len() == 0 || universal(method) {
            return false;
        }
        for i in 0..names.len()
            invariant
                models == texts(names@),
                forall|j: int|
                    0 <= j < i ==> self.methods@.contains_key(#[trigger] models[j]) && !has_method(
                        self.methods@,
                        models[j],
                        method@,
                    ),
        {
            assert(models[i as int] == names@[i as int]@);
            if !self.methods.has_type(names[i].as_str()) {
                return false;
            }
            if self.methods.lookup(names[i].as_str(), method).is_some() {
                assert(has_method(self.methods@, models[i as int], method@));
                return false;
            }
        }
        true
    }

    /// Judges a call of a method.
    fn check_method_call(
        &self,
        receiver: &ExprNode,
        field: &FieldNode,
        span: Span,
        env: &NameMap<TypeDef>,
        out: &mut Vec<MethodViolation>,
    )
        requires
            expr_fits(receiver@, self.source@),
            field_fits(field@, self.source@),
            token_fits(span, self.source@),
        ensures
            method_violations_model(final(out)@) == match call_fault(
                receiver@,
                field@,
                span,
                types_model(env@),
                self.setting(),
            ) {
                Some(fault) => method_violations_model(old(out)@).push(fault),
                None => method_violations_model(old(out)@),
            },
    {
        let method = match self.method_in(field) {
            Some(method) => method,
            None => {
                return ;
            },
        };
        let receiver_type = match self.infer(receiver, env) {
            Some(t) => t,
            None => {
                return ;
            },
        };
        let names = type_names(&receiver_type);
        if self.misses_method(&names, method.as_str()) {
            let ghost before = method_violations_model(out@);
            let violation = MethodViolation {
                receiver: joined(&names, " | "),
                method,
                line: line_of(self.source, span),
            };
            let ghost model = violation@;
            out.push(violation);
            assert(method_violations_model(out@) =~= before.push(model));
        }
    }
}

/// Whether a method is one that Rune provides across types.
fn universal(method: &str) -> (r: bool)
    ensures
        r == is_universal(method@),
{
    same_text(method, "clone") || same_text(method, "eq") || same_text(method, "ne") || same_text(
        method,
        "cmp",
    ) || same_text(method, "partial_cmp")
}

/// The enum type of a variant by its enum and its name.
fn two_segments(owner: &str, name: &str) -> (r: TypeDef)
    ensures
        r@ == variant_type(seq![owner@, name@]),
{
    let path = vec![owner.to_owned(), name.to_owned()];
    assert(texts(path@) =~= seq![owner@, name@]);
    enum_of(path)
}

impl<'a> Checker<'a> {
    /// Walks an expression.
    fn walk_expr(
        &self,
        expr: &ExprNode,
        env: &mut NameMap<TypeDef>,
        out: &mut Vec<MethodViolation>,
    )
        requires
            expr_fits(expr@, self.source@),
        ensures
            state(final(env)@, final(out)@) == walked(
                expr@,
                state(old(env)@, old(out)@),
                self.setting(),
            ),
        decreases expr@, 1nat,
    {
        proof {
            lemma_sub_exprs_smaller(expr@);
            lemma_sub_exprs_fit(expr@, self.source@);
        }
        let ghost start = state(env@, out@);
        match expr {
            ExprNode::Call(callee, args, span) => {
                proof {
                    assert(expr_fits(callee@, self.source@));
                    assert(decreases_to!(expr@ => *expr@->Call_0));
                    assert(decreases_to!(expr@ => expr@->Call_1));
                }
                let mut later: Vec<MethodViolation> = Vec::new();
                assert(method_violations_model(later@) =~= Seq::<MethodViolationModel>::empty());
                match &**callee {
                    ExprNode::FieldAccess(receiver, field) => {
                        assert(decreases_to!(callee@ => *callee@->FieldAccess_0));
                        self.walk_expr(receiver, env, &mut later);
                        self.check_method_call(receiver, field, *span, env, &mut later);
                    },
                    _ => self.walk_expr(callee, env, &mut later),
                }
                self.walk_list(args, env, out);
                report_later(out, later);
                assert(state(env@, out@) =~= walked(expr@, start, self.setting()));
            },
            ExprNode::Block(block) => {
                assert(decreases_to!(expr@ => expr@->Block_0));
                let inner = copied(env);
                self.walk_scope_block(block, inner, env, out);
            },
            ExprNode::If(branches, otherwise) => {
                assert(decreases_to!(expr@ => expr@->If_0));
                assert(decreases_to!(expr@ => expr@->If_1));
                self.walk_branches(branches, env, out);
                if let Some(block) = otherwise {
                    assert(decreases_to!(expr@->If_1 => expr@->If_1->Some_0));
                    let inner = copied(env);
                    self.walk_scope_block(block, inner, env, out);
                }
            },
            ExprNode::Match(scrutinee, arms) => {
                assert(decreases_to!(expr@ => *expr@->Match_0));
                assert(decreases_to!(expr@ => expr@->Match_1));
                self.walk_expr(scrutinee, env, out);
                let ty = self.infer(scrutinee, env);
                self.walk_arms(arms, &ty, env, out);
            },
            ExprNode::Select(arms) => {
                assert(decreases_to!(expr@ => expr@->Select_0));
                poison_assigned_in_expr(expr, self.source, env);
                self.walk_selects(arms, env, out);
            },
            ExprNode::Loop(body) => {
                assert(decreases_to!(expr@ => expr@->Loop_0));
                poison_assigned_in_block(body, self.source, env);
                let inner = copied(env);
                self.walk_scope_block(body, inner, env, out);
            },
            ExprNode::While(condition, body) => {
                assert(decreases_to!(expr@ => *expr@->While_0));
                assert(decreases_to!(expr@ => expr@->While_1));
                self.walk_condition(condition, env, out);
                poison_assigned_in_condition(condition, self.source, env);
                poison_assigned_in_block(body, self.source, env);
                let mut inner = copied(env);
                self.bind_condition(condition, &mut inner);
                self.walk_scope_block(body, inner, env, out);
            },
            ExprNode::For(pat, iter, body) => {
                assert(decreases_to!(expr@ => *expr@->For_1));
                assert(decreases_to!(expr@ => expr@->For_2));
                self.walk_expr(iter, env, out);
                poison_assigned_in_block(body, self.source, env);
                let mut inner = copied(env);
                bind_pattern_static(pat, None, &mut inner, self.source);
                self.walk_scope_block(body, inner, env, out);
            },
            ExprNode::Closure(args, body) => {
                assert(decreases_to!(expr@ => *expr@->Closure_1));
                let mut inner = copied(env);
                bind_args_unknown(args, &mut inner, self.source);
                self.walk_expr(body, &mut inner, out);
                poison_assigned_in_expr(body, self.source, env);
            },
            ExprNode::Logic(lhs, rhs) => {
                assert(decreases_to!(expr@ => *expr@->Logic_0));
                assert(decreases_to!(expr@ => *expr@->Logic_1));
                self.walk_expr(lhs, env, out);
                let mut inner = copied(env);
                self.walk_expr(rhs, &mut inner, out);
                poison_assigned_in_expr(rhs, self.source, env);
            },
            ExprNode::Assign(lhs, rhs) => {
                assert(decreases_to!(expr@ => *expr@->Assign_0));
                assert(decreases_to!(expr@ => *expr@->Assign_1));
                let mut later: Vec<MethodViolation> = Vec::new();
                assert(method_violations_model(later@) =~= Seq::<MethodViolationModel>::empty());
                self.walk_expr(lhs, env, &mut later);
                self.walk_expr(rhs, env, out);
                report_later(out, later);
                if let Some(name) = assigned_variable(lhs, self.source) {
                    let ty = self.infer(rhs, env);
                    set_type(env, name, ty);
                }
            },
            ExprNode::Let(pat, inner) => {
                assert(decreases_to!(expr@ => *expr@->Let_1));
                self.walk_expr(inner, env, out);
                let ty = self.infer(inner, env);
                bind_pattern_static(pat, ty, env, self.source);
            },
            _ => {
                let exprs = direct_exprs(expr);
                let ghost start = state(env@, out@);
                let ghost trees = sub_exprs(expr@);
                for i in 0..exprs.len()
                    invariant
                        refs_model(exprs@) == trees,
                        trees == sub_exprs(expr@),
                        exprs_fit(trees, self.source@),
                        forall|j: int|
                            #![trigger sub_exprs(expr@)[j]]
                            0 <= j < sub_exprs(expr@).len() ==> decreases_to!(
                                expr@ => sub_exprs(expr@)[j]
                            ),
                        state(env@, out@) == walked_first(
                            expr@,
                            i as nat,
                            start,
                            self.setting(),
                        ),
                {
                    assert(trees[i as int] == exprs@[i as int]@);
                    self.walk_expr(exprs[i], env, out);
                }
            },
        }
    }

    /// Walks expressions one after the other.
    fn walk_list(
        &self,
        exprs: &Vec<ExprNode>,
        env: &mut NameMap<TypeDef>,
        out: &mut Vec<MethodViolation>,
    )
        requires
            exprs_fit(exprs_model(exprs@), self.source@),
        ensures
            state(final(env)@, final(out)@) == walked_list(
                exprs_model(exprs@),
                exprs_model(exprs@).len(),
                state(old(env)@, old(out)@),
                self.setting(),
            ),
        decreases exprs_model(exprs@), 0nat,
    {
        let ghost start = state(env@, out@);
        let ghost trees = exprs_model(exprs@);
        for i in 0..exprs.len()
            invariant
                trees == exprs_model(exprs@),
                exprs_fit(trees, self.source@),
                state(env@, out@) == walked_list(trees, i as nat, start, self.setting()),
        {
            assert(trees[i as int] == exprs@[i as int]@);
            assert(decreases_to!(trees => trees[i as int]));
            self.walk_expr(&exprs[i], env, out);
        }
    }

    /// Walks a condition.
    fn walk_condition(
        &self,
        condition: &ConditionNode,
        env: &mut NameMap<TypeDef>,
        out: &mut Vec<MethodViolation>,
    )
        requires
            condition_fits(condition@, self.source@),
        ensures
            state(final(env)@, final(out)@) == walked_condition(
                condition@,
                state(old(env)@, old(out)@),
                self.setting(),
            ),
        decreases condition@, 0nat,
    {
        match condition {
            ConditionNode::Expr(expr) => {
                assert(decreases_to!(condition@ => condition@->Expr_0));
                self.walk_expr(expr, env, out);
            },
            ConditionNode::Let(_, expr) => {
                assert(decreases_to!(condition@ => condition@->Let_1));
                self.walk_expr(expr, env, out);
            },
            ConditionNode::Other => {},
        }
    }

    /// Binds the pattern of `if let` or `while let`.
    fn bind_condition(&self, condition: &ConditionNode, env: &mut NameMap<TypeDef>)
        requires
            condition_fits(condition@, self.source@),
        ensures
            types_model(final(env)@) == bound_condition(
                condition@,
                types_model(old(env)@),
                self.setting(),
            ),
    {
        if let ConditionNode::Let(pat, expr) = condition {
            let ty = self.infer(expr, env);
            bind_pattern_static(pat, ty, env, self.source);
        }
    }

    /// Walks the statements of a block.
    fn walk_block(
        &self,
        block: &BlockNode,
        env: &mut NameMap<TypeDef>,
        out: &mut Vec<MethodViolation>,
    )
        requires
            block_fits(block@, self.source@),
        ensures
            state(final(env)@, final(out)@) == walked_block(
                block@,
                block@.statements.len(),
                state(old(env)@, old(out)@),
                self.setting(),
            ),
        decreases block@, 0nat,
    {
        let ghost start = state(env@, out@);
        let ghost tree = block@;
        for i in 0..block.statements.len()
            invariant
                tree == block@,
                block_fits(tree, self.source@),
                state(env@, out@) == walked_block(tree, i as nat, start, self.setting()),
        {
            let ghost stmt = tree.statements[i as int];
            proof {
                assert(stmt == block.statements@[i as int]@);
                assert(stmt_fits(stmt, self.source@));
                assert(decreases_to!(tree => tree.statements));
                assert(decreases_to!(tree.statements => tree.statements[i as int]));
            }
            match &block.statements[i] {
                StmtNode::Local(pat, expr) => {
                    assert(decreases_to!(stmt => stmt->Local_1));
                    self.walk_expr(expr, env, out);
                    let ty = self.infer(expr, env);
                    bind_pattern_static(pat, ty, env, self.source);
                },
                StmtNode::Expr(expr) => {
                    assert(decreases_to!(stmt => stmt->Expr_0));
                    self.walk_expr(expr, env, out);
                },
                StmtNode::Semi(expr) => {
                    assert(decreases_to!(stmt => stmt->Semi_0));
                    self.walk_expr(expr, env, out);
                },
                StmtNode::Other => {},
            }
        }
    }

    /// Walks a block with other types than those outside. What it assigns is
    /// unknown outside afterwards.
    fn walk_scope_block(
        &self,
        block: &BlockNode,
        inner: NameMap<TypeDef>,
        env: &mut NameMap<TypeDef>,
        out: &mut Vec<MethodViolation>,
    )
        requires
            block_fits(block@, self.source@),
        ensures
            state(final(env)@, final(out)@) == walked_scope(
                block@,
                types_model(inner@),
                state(old(env)@, old(out)@),
                self.setting(),
            ),
        decreases block@, 1nat,
    {
        let mut scope = inner;
        self.walk_block(block, &mut scope, out);
        poison_assigned_in_block(block, self.source, env);
    }

    /// Walks the branches of an `if`.
    fn walk_branches(
        &self,
        branches: &Vec<(ConditionNode, BlockNode)>,
        env: &mut NameMap<TypeDef>,
        out: &mut Vec<MethodViolation>,
    )
        requires
            branches_fit(branches_model(branches@), self.source@),
        ensures
            state(final(env)@, final(out)@) == walked_branches(
                branches_model(branches@),
                branches_model(branches@).len(),
                state(old(env)@, old(out)@),
                self.setting(),
            ),
        decreases branches_model(branches@), 0nat,
    {
        let ghost start = state(env@, out@);
        let ghost trees = branches_model(branches@);
        for i in 0..branches.len()
            invariant
                trees == branches_model(branches@),
                branches_fit(trees, self.source@),
                state(env@, out@) == walked_branches(trees, i as nat, start, self.setting()),
        {
            let (condition, block) = &branches[i];
            proof {
                assert(trees[i as int] == (condition@, block@));
                assert(decreases_to!(trees => trees[i as int]));
                assert(decreases_to!(trees[i as int] => trees[i as int].0));
                assert(decreases_to!(trees[i as int] => trees[i as int].1));
            }
            if i == 0 {
                self.walk_condition(condition, env, out);
                let mut inner = copied(env);
                self.bind_condition(condition, &mut inner);
                self.walk_scope_block(block, inner, env, out);
            } else {
                let mut inner = copied(env);
                self.walk_condition(condition, &mut inner, out);
                self.bind_condition(condition, &mut inner);
                poison_assigned_in_condition(condition, self.source, env);
                self.walk_scope_block(block, inner, env, out);
            }
        }
    }

    /// Walks the arms of a `match`.
    fn walk_arms(
        &self,
        arms: &Vec<ArmNode>,
        ty: &Option<TypeDef>,
        env: &mut NameMap<TypeDef>,
        out: &mut Vec<MethodViolation>,
    )
        requires
            arms_fit(arms_model(arms@), self.source@),
        ensures
            state(final(env)@, final(out)@) == walked_arms(
                arms_model(arms@),
                arms_model(arms@).len(),
                option_model(*ty),
                state(old(env)@, old(out)@),
                self.setting(),
            ),
        decreases arms_model(arms@), 0nat,
    {
        let ghost start = state(env@, out@);
        let ghost trees = arms_model(arms@);
        for i in 0..arms.len()
            invariant
                trees == arms_model(arms@),
                arms_fit(trees, self.source@),
                state(env@, out@) == walked_arms(
                    trees,
                    i as nat,
                    option_model(*ty),
                    start,
                    self.setting(),
                ),
        {
            let arm = &arms[i];
            proof {
                assert(trees[i as int] == arm@);
                assert(arm_fits(trees[i as int], self.source@));
                assert(optional_fits(arm@.guard, self.source@));
                assert(decreases_to!(trees => trees[i as int]));
                assert(decreases_to!(trees[i as int] => trees[i as int].guard));
                assert(decreases_to!(trees[i as int] => trees[i as int].body));
            }
            let mut inner = copied(env);
            let bound_type = match ty {
                Some(t) => Some(t.clone()),
                None => None,
            };
            bind_pattern_static(&arm.pat, bound_type, &mut inner, self.source);
            if let Some(guard) = &arm.guard {
                assert(optional_model(Some(*guard)) == Some(guard@));
                assert(decreases_to!(trees[i as int].guard => trees[i as int].guard->Some_0));
                self.walk_expr(guard, &mut inner, out);
                poison_assigned_in_expr(guard, self.source, env);
            }
            self.walk_expr(&arm.body, &mut inner, out);
            poison_assigned_in_expr(&arm.body, self.source, env);
        }
    }

    /// Walks the arms of a `select`.
    fn walk_selects(
        &self,
        arms: &Vec<SelectNode>,
        env: &NameMap<TypeDef>,
        out: &mut Vec<MethodViolation>,
    )
        requires
            selects_fit(selects_model(arms@), self.source@),
        ensures
            state(env@, final(out)@) == walked_selects(
                selects_model(arms@),
                selects_model(arms@).len(),
                state(env@, old(out)@),
                self.setting(),
            ),
        decreases selects_model(arms@), 0nat,
    {
        let ghost start = state(env@, out@);
        let ghost trees = selects_model(arms@);
        for i in 0..arms.len()
            invariant
                trees == selects_model(arms@),
                selects_fit(trees, self.source@),
                state(env@, out@) == walked_selects(trees, i as nat, start, self.setting()),
        {
            let arm = &arms[i];
            let ghost tree = trees[i as int];
            proof {
                assert(tree == arm@);
                assert(select_fits(tree, self.source@));
                assert(decreases_to!(trees => tree));
                assert(decreases_to!(tree => tree.binding));
                assert(decreases_to!(tree => tree.body));
            }
            let mut inner = copied(env);
            if let Some(binding) = &arm.binding {
                proof {
                    assert(tree.binding == Some((binding.0@, binding.1@)));
                    assert(decreases_to!(tree.binding => tree.binding->Some_0));
                    assert(decreases_to!(tree.binding->Some_0 => tree.binding->Some_0.1));
                }
                let mut awaiting = copied(env);
                self.walk_expr(&binding.1, &mut awaiting, out);
                bind_pattern_static(&binding.0, None, &mut inner, self.source);
            }
            self.walk_expr(&arm.body, &mut inner, out);
        }
    }
}

/// Binds the parameters of a closure to unknown values.
fn bind_args_unknown(args: &Vec<Option<PatNode>>, env: &mut NameMap<TypeDef>, source: &str)
    requires
        args_fit(args_model(args@), source@),
    ensures
        types_model(final(env)@) == bound_args(
            args_model(args@),
            args_model(args@).len(),
            types_model(old(env)@),
            source@,
        ),
{
    let ghost start = types_model(env@);
    let ghost trees = args_model(args@);
    for i in 0..args.len()
        invariant
            trees == args_model(args@),
            args_fit(trees, source@),
            types_model(env@) == bound_args(trees, i as nat, start, source@),
    {
        assert(trees[i as int] is Some ==> pat_fits(trees[i as int]->Some_0, source@));
        if let Some(pat) = &args[i] {
            bind_pattern_static(pat, None, env, source);
        }
    }
}

/// The name that a pattern binds, where it is one name.
fn pat_single_ident(pat: &PatNode, source: &str) -> (r: Option<String>)
    requires
        pat_fits(pat@, source@),
    ensures
        match r {
            Some(name) => pat@ is Path && single_of(pat@->Path_0, source@) == Some(name@),
            None => pat@ is Path ==> single_of(pat@->Path_0, source@) is None,
        },
{
    match pat {
        PatNode::Path(path) => single_segment(path, source),
        _ => None,
    }
}

/// Finds the calls of methods that do not exist in a function.
pub fn check(
    item_fn: &FnItem,
    source: &str,
    contract: &Contract,
    registry: &SignatureRegistry,
    methods: &MethodRegistry,
) -> (r: Vec<MethodViolation>)
    requires
        fn_fits(item_fn@, source@),
    ensures
        method_violations_model(r@) == missing_methods(
            item_fn@,
            contract@,
            (Setting { source: source@, registry: registry@, methods: methods@ }),
        ),
{
    let mut out: Vec<MethodViolation> = Vec::new();
    assert(method_violations_model(out@) =~= Seq::<MethodViolationModel>::empty());
    if methods.is_empty() {
        return out;
    }
    let mut env: NameMap<TypeDef> = NameMap::new();
    assert(types_model(env@) =~= Map::<Seq<char>, TypeModel>::empty());
    let n = if item_fn.args.len() < contract.params.len() {
        item_fn.args.len()
    } else {
        contract.params.len()
    };
    let ghost args = item_fn@.args;
    let ghost params = contract@.params;
    for i in 0..n
        invariant
            args == item_fn@.args,
            params == contract@.params,
            n <= item_fn.args@.len(),
            n <= contract.params@.len(),
            fn_fits(item_fn@, source@),
            types_model(env@) == param_types(args, params, i as nat, source@),
    {
        assert(args[i as int] is Some ==> pat_fits(args[i as int]->Some_0, source@));
        assert(params[i as int] == contract.params@[i as int]@);
        if let Some(pat) = &item_fn.args[i] {
            if let Some(name) = pat_single_ident(pat, source) {
                let ty = contract.params[i].type_def.clone();
                set_type(&mut env, name, Some(ty));
            }
        }
    }
    let checker = Checker { source, registry, methods };
    checker.walk_block(&item_fn.body, &mut env, &mut out);
    out
}

} // verus!
