//! What is known of the types of variables.

use vstd::prelude::*;

use crate::ast_analyzer::{is_success_path, segments_of, single_of, success_of, success_type};
use crate::laws::expressions::{
    holds_in_block, holds_in_stmt, holds_within, lemma_in_both,
    what_stands_in_an_expression_stands_in_its_parts,
};
use crate::laws::methods::{leaves_alone, same_type_known, touches};
use crate::laws::values::{is_name, single_names_are_written_out};
use crate::method_checker::{
    assigned_in, assigned_in_all, assigned_in_block, assigned_in_first, bound, param_types,
    pattern_names, patterns_names, type_of, unreported, walked, walked_block, walked_first,
    with_env, Setting, TypesModel, WalkState,
};
use crate::syntax::{
    block_exprs, lemma_sub_exprs_smaller, stmt_exprs, sub_exprs, BlockTree, ExprTree, PatTree,
    PathTree, StmtTree,
};
use crate::types::{ParamModel, TypeModel, VariantModel};

verus! {

// ---------------------------------------------------------------------------
// Assignments.
// ---------------------------------------------------------------------------

/// The assignments `name = ..`.
pub open spec fn assigns(name: Seq<char>, source: Seq<char>) -> spec_fn(ExprTree) -> bool {
    |expr: ExprTree|
        expr matches ExprTree::Assign(lhs, _) && *lhs matches ExprTree::Path(path) && is_name(
            path,
            source,
            name,
        )
}

/// The variables that an expression assigns are those for which an assignment
/// stands anywhere in it.
pub proof fn assigned_variables_are_assigned_within(
    expr: ExprTree,
    name: Seq<char>,
    source: Seq<char>,
)
    ensures
        assigned_in(expr, source).contains(name) <==> holds_within(expr, assigns(name, source)),
    decreases expr, sub_exprs(expr).len() + 1,
{
    let parts = sub_exprs(expr);
    let within = assigned_in_first(expr, parts.len(), source);
    lemma_assigned_in_first(expr, parts.len(), name, source);
    what_stands_in_an_expression_stands_in_its_parts(expr, assigns(name, source));
    if let ExprTree::Assign(lhs, _) = expr {
        if let ExprTree::Path(path) = *lhs {
            single_names_are_written_out(path, source, name);
            if let Some(other) = single_of(path, source) {
                lemma_in_both(seq![other], within, name);
                assert(seq![other][0] == other);
            }
        }
    }
}

proof fn lemma_assigned_in_first(expr: ExprTree, n: nat, name: Seq<char>, source: Seq<char>)
    requires
        n <= sub_exprs(expr).len(),
    ensures
        assigned_in_first(expr, n, source).contains(name) <==> exists|i: int|
            0 <= i < n && holds_within(#[trigger] sub_exprs(expr)[i], assigns(name, source)),
    decreases expr, n,
{
    if n > 0 {
        lemma_sub_exprs_smaller(expr);
        lemma_assigned_in_first(expr, (n - 1) as nat, name, source);
        assigned_variables_are_assigned_within(sub_exprs(expr)[n - 1], name, source);
        lemma_in_both(
            assigned_in_first(expr, (n - 1) as nat, source),
            assigned_in(sub_exprs(expr)[n - 1], source),
            name,
        );
    }
}

proof fn lemma_assigned_in_all(exprs: Seq<ExprTree>, n: nat, name: Seq<char>, source: Seq<char>)
    requires
        n <= exprs.len(),
    ensures
        assigned_in_all(exprs, n, source).contains(name) <==> exists|i: int|
            0 <= i < n && holds_within(#[trigger] exprs[i], assigns(name, source)),
    decreases n,
{
    if n > 0 {
        lemma_assigned_in_all(exprs, (n - 1) as nat, name, source);
        assigned_variables_are_assigned_within(exprs[n - 1], name, source);
        lemma_in_both(
            assigned_in_all(exprs, (n - 1) as nat, source),
            assigned_in(exprs[n - 1], source),
            name,
        );
    }
}

proof fn lemma_stmts_hold(stmts: Seq<StmtTree>, n: nat, p: spec_fn(ExprTree) -> bool)
    requires
        n <= stmts.len(),
    ensures
        (exists|i: int|
            0 <= i < stmt_exprs(stmts, n).len() && holds_within(
                #[trigger] stmt_exprs(stmts, n)[i],
                p,
            )) <==> exists|i: int| 0 <= i < n && holds_in_stmt(#[trigger] stmts[i], p),
    decreases n,
{
    if n > 0 {
        lemma_stmts_hold(stmts, (n - 1) as nat, p);
        let before = stmt_exprs(stmts, (n - 1) as nat);
        let all = stmt_exprs(stmts, n);
        let last = stmts[n - 1];
        assert forall|i: int| 0 <= i < before.len() implies all[i] == #[trigger] before[i] by {}
        match last {
            StmtTree::Local(_, e) | StmtTree::Expr(e) | StmtTree::Semi(e) => {
                assert(all =~= before + seq![e]);
                assert(all[before.len() as int] == e);
                assert(holds_in_stmt(stmts[n - 1], p) == holds_within(all[before.len() as int], p));
            },
            StmtTree::Other => {
                assert(all =~= before);
            },
        }
        if exists|i: int| 0 <= i < all.len() && holds_within(#[trigger] all[i], p) {
            let i = choose|i: int| 0 <= i < all.len() && holds_within(#[trigger] all[i], p);
            if i < before.len() {
                assert(holds_within(before[i], p));
            } else {
                assert(holds_in_stmt(stmts[n - 1], p));
            }
        }
        if exists|i: int| 0 <= i < n && holds_in_stmt(#[trigger] stmts[i], p) {
            let i = choose|i: int| 0 <= i < n && holds_in_stmt(#[trigger] stmts[i], p);
            if i < n - 1 {
                let k = choose|k: int|
                    0 <= k < before.len() && holds_within(#[trigger] before[k], p);
                assert(holds_within(all[k], p));
            }
        }
    }
}

/// The variables that a block assigns are those for which an assignment
/// stands anywhere in it.
pub proof fn blocks_assign_what_is_assigned_within(
    block: BlockTree,
    name: Seq<char>,
    source: Seq<char>,
)
    ensures
        assigned_in_block(block, source).contains(name) <==> holds_in_block(
            block,
            assigns(name, source),
        ),
{
    let exprs = block_exprs(block);
    lemma_assigned_in_all(exprs, exprs.len(), name, source);
    lemma_stmts_hold(block.statements, block.statements.len(), assigns(name, source));
}

/// Whether an expression gives a variable a new value itself: it assigns it,
/// or its pattern binds it.
pub open spec fn renews(name: Seq<char>, source: Seq<char>) -> spec_fn(ExprTree) -> bool {
    |expr: ExprTree|
        match expr {
            ExprTree::Assign(lhs, _) => *lhs matches ExprTree::Path(path) && is_name(
                path,
                source,
                name,
            ),
            ExprTree::Let(pat, _) => binds(pat, name, source),
            _ => false,
        }
}

/// Whether a pattern binds a variable: the pattern is its name, or one of its
/// parts binds it.
pub open spec fn binds(pat: PatTree, name: Seq<char>, source: Seq<char>) -> bool
    decreases pat,
{
    match pat {
        PatTree::Path(path) => is_name(path, source, name),
        PatTree::Tuple(_, items) => exists|i: int|
            0 <= i < items.len() && binds(#[trigger] items[i], name, source),
        PatTree::Vec(items) => exists|i: int|
            0 <= i < items.len() && binds(#[trigger] items[i], name, source),
        PatTree::Object(items) => exists|i: int|
            0 <= i < items.len() && binds(#[trigger] items[i], name, source),
        PatTree::Binding(inner) => binds(*inner, name, source),
        PatTree::Other => false,
    }
}

/// The names of a pattern are those that it binds.
pub proof fn pattern_names_are_bound(pat: PatTree, name: Seq<char>, source: Seq<char>)
    ensures
        pattern_names(pat, source).contains(name) <==> binds(pat, name, source),
    decreases pat, 0nat,
{
    match pat {
        PatTree::Path(path) => {
            single_names_are_written_out(path, source, name);
            if let Some(other) = single_of(path, source) {
                assert(seq![other][0] == other);
            }
        },
        PatTree::Tuple(_, items) => lemma_patterns_names(items, items.len(), name, source),
        PatTree::Vec(items) => lemma_patterns_names(items, items.len(), name, source),
        PatTree::Object(items) => lemma_patterns_names(items, items.len(), name, source),
        PatTree::Binding(inner) => pattern_names_are_bound(*inner, name, source),
        PatTree::Other => {},
    }
}

proof fn lemma_patterns_names(pats: Seq<PatTree>, n: nat, name: Seq<char>, source: Seq<char>)
    requires
        n <= pats.len(),
    ensures
        patterns_names(pats, n, source).contains(name) <==> exists|i: int|
            0 <= i < n && binds(#[trigger] pats[i], name, source),
    decreases pats, n,
{
    if n > 0 {
        lemma_patterns_names(pats, (n - 1) as nat, name, source);
        pattern_names_are_bound(pats[n - 1], name, source);
        lemma_in_both(
            patterns_names(pats, (n - 1) as nat, source),
            pattern_names(pats[n - 1], source),
            name,
        );
    }
}

/// An expression leaves a variable alone exactly if nothing that stands in it
/// gives the variable a new value.
pub proof fn variables_are_left_alone_if_nothing_renews_them(
    expr: ExprTree,
    name: Seq<char>,
    source: Seq<char>,
)
    ensures
        leaves_alone(expr, name, source) <==> !holds_within(expr, renews(name, source)),
    decreases expr,
{
    lemma_sub_exprs_smaller(expr);
    what_stands_in_an_expression_stands_in_its_parts(expr, renews(name, source));
    match expr {
        ExprTree::Assign(lhs, _) => {
            if let ExprTree::Path(path) = *lhs {
                single_names_are_written_out(path, source, name);
            }
        },
        ExprTree::Let(pat, _) => pattern_names_are_bound(pat, name, source),
        _ => {},
    }
    assert(touches(expr, name, source) <==> (renews(name, source))(expr));
    assert forall|i: int|
        #![trigger sub_exprs(expr)[i]]
        0 <= i < sub_exprs(expr).len() implies leaves_alone(sub_exprs(expr)[i], name, source)
        == !holds_within(sub_exprs(expr)[i], renews(name, source)) by {
        variables_are_left_alone_if_nothing_renews_them(sub_exprs(expr)[i], name, source);
    }
}

// ---------------------------------------------------------------------------
// Patterns.
// ---------------------------------------------------------------------------

/// Whether the type of a variable is known to be the given one, or unknown.
pub open spec fn is_known_as(env: TypesModel, name: Seq<char>, ty: Option<TypeModel>) -> bool {
    match ty {
        Some(t) => env.contains_key(name) && env[name] == t,
        None => !env.contains_key(name),
    }
}

/// A variable that a pattern alone binds has the type of the value; the
/// others keep theirs.
pub proof fn names_are_bound_to_the_type_of_the_value(
    path: PathTree,
    name: Seq<char>,
    ty: Option<TypeModel>,
    env: TypesModel,
    source: Seq<char>,
    other: Seq<char>,
)
    requires
        is_name(path, source, name),
    ensures
        is_known_as(bound(PatTree::Path(path), ty, env, source), name, ty),
        other != name ==> same_type_known(env, bound(PatTree::Path(path), ty, env, source), other),
{
    single_names_are_written_out(path, source, name);
}

/// `Ok(x)` and `Some(x)` bind `x` to the type of the content.
pub proof fn contents_are_bound_to_their_type(
    path: PathTree,
    names: Seq<Seq<char>>,
    inner: PatTree,
    ty: Option<TypeModel>,
    env: TypesModel,
    source: Seq<char>,
)
    requires
        segments_of(path, source) == Some(names),
        names.len() > 0,
        names[names.len() - 1] == "Ok"@ || names[names.len() - 1] == "Some"@,
    ensures
        bound(PatTree::Tuple(Some(path), seq![inner]), ty, env, source) == bound(
            inner,
            match ty {
                Some(t) => success_of(t),
                None => None,
            },
            env,
            source,
        ),
{
    let items = seq![inner];
    assert(items[0] == inner);
    assert(is_success_path(names));
}

/// Any other pattern makes the variables that it binds unknown, and leaves
/// the others as they are.
pub proof fn other_patterns_make_their_names_unknown(
    pat: PatTree,
    ty: Option<TypeModel>,
    env: TypesModel,
    source: Seq<char>,
    name: Seq<char>,
)
    requires
        !(pat is Path),
        pat matches PatTree::Tuple(path, _) ==> path is None || (segments_of(
            path->Some_0,
            source,
        ) matches Some(names) ==> names.len() == 0 || (names[names.len() - 1] != "Ok"@
            && names[names.len() - 1] != "Some"@)),
    ensures
        binds(pat, name, source) ==> !bound(pat, ty, env, source).contains_key(name),
        !binds(pat, name, source) ==> same_type_known(
            env,
            bound(pat, ty, env, source),
            name,
        ),
{
    pattern_names_are_bound(pat, name, source);
}

/// The content of `Ok` or `Some` has the type that the first of these
/// alternatives declares, and is the unit where it declares none. Of a type
/// without such an alternative nothing is known.
pub proof fn contents_have_the_declared_type(variants: Seq<VariantModel>, at: int, t: TypeModel)
    requires
        0 <= at <= variants.len(),
        forall|i: int|
            0 <= i < variants.len() ==> (#[trigger] variants[i]).path.len() > 0 && (i < at
                ==> !is_success(variants[i])),
        at < variants.len() ==> is_success(variants[at]),
    ensures
        at < variants.len() ==> success_of(TypeModel::Enum(variants)) == Some(
            match variants[at].inner {
                Some(inner) => *inner,
                None => TypeModel::Unit,
            },
        ),
        at == variants.len() ==> success_of(TypeModel::Enum(variants)) is None,
        success_of(TypeModel::Nullable(Box::new(t))) == success_of(t),
        !(t is Enum) && !(t is Nullable) ==> success_of(t) is None,
{
    lemma_success_type(variants, at);
}

/// Whether an alternative is `Ok` or `Some`.
pub open spec fn is_success(v: VariantModel) -> bool {
    v.path[v.path.len() - 1] == "Ok"@ || v.path[v.path.len() - 1] == "Some"@
}

proof fn lemma_success_type(variants: Seq<VariantModel>, at: int)
    requires
        0 <= at <= variants.len(),
        forall|i: int|
            0 <= i < variants.len() ==> (#[trigger] variants[i]).path.len() > 0 && (i < at
                ==> !is_success(variants[i])),
        at < variants.len() ==> is_success(variants[at]),
    ensures
        success_type(variants) == if at < variants.len() {
            Some(
                match variants[at].inner {
                    Some(inner) => *inner,
                    None => TypeModel::Unit,
                },
            )
        } else {
            None
        },
    decreases variants.len(),
{
    if variants.len() > 0 {
        assert(variants[0].path.len() > 0);
        if at > 0 {
            let rest = variants.skip(1);
            assert forall|i: int| 0 <= i < rest.len() implies (#[trigger] rest[i]).path.len() > 0
                && (i < at - 1 ==> !is_success(rest[i])) by {
                assert(rest[i] == variants[i + 1]);
            }
            lemma_success_type(rest, at - 1);
        }
    }
}

// ---------------------------------------------------------------------------
// Parameters, `let` and assignments.
// ---------------------------------------------------------------------------

/// Whether a parameter of a function is the name.
pub open spec fn is_param(arg: Option<PatTree>, name: Seq<char>, source: Seq<char>) -> bool {
    arg matches Some(pat) && pat matches PatTree::Path(path) && is_name(path, source, name)
}

/// A parameter has the type that the contract declares at its position; where
/// several have one name, the last one. What is no parameter is unknown.
pub proof fn parameters_have_their_declared_types(
    args: Seq<Option<PatTree>>,
    params: Seq<ParamModel>,
    n: nat,
    name: Seq<char>,
    source: Seq<char>,
)
    requires
        n <= args.len(),
        n <= params.len(),
    ensures
        forall|at: int|
            0 <= at < n && #[trigger] is_param(args[at], name, source) && (forall|i: int|
                at < i < n ==> !is_param(#[trigger] args[i], name, source)) ==> is_known_as(
                param_types(args, params, n, source),
                name,
                Some(params[at].type_def),
            ),
        (forall|i: int| 0 <= i < n ==> !is_param(#[trigger] args[i], name, source))
            ==> !param_types(args, params, n, source).contains_key(name),
    decreases n,
{
    if n > 0 {
        parameters_have_their_declared_types(args, params, (n - 1) as nat, name, source);
        let before = param_types(args, params, (n - 1) as nat, source);
        let all = param_types(args, params, n, source);
        if let Some(PatTree::Path(path)) = args[n - 1] {
            single_names_are_written_out(path, source, name);
        }
        assert(is_param(args[n - 1], name, source) ==> is_known_as(
            all,
            name,
            Some(params[n - 1].type_def),
        ));
        assert(!is_param(args[n - 1], name, source) ==> same_type_known(before, all, name));
    }
}

/// After `let x = e;` the variable has the type of `e`, as it is known after
/// `e` has been evaluated.
pub proof fn let_gives_a_variable_its_type(
    block: BlockTree,
    n: nat,
    path: PathTree,
    name: Seq<char>,
    expr: ExprTree,
    st: WalkState,
    cx: Setting,
)
    requires
        n < block.statements.len(),
        block.statements[n as int] == StmtTree::Local(PatTree::Path(path), expr),
        is_name(path, cx.source, name),
    ensures
        is_known_as(
            walked_block(block, n + 1, st, cx).env,
            name,
            type_of(expr, walked(expr, walked_block(block, n, st, cx), cx).env, cx),
        ),
{
    let after = walked(expr, walked_block(block, n, st, cx), cx);
    names_are_bound_to_the_type_of_the_value(
        path,
        name,
        type_of(expr, after.env, cx),
        after.env,
        cx.source,
        name,
    );
}

/// After `x = e` the variable has the type of `e`.
pub proof fn assignments_give_a_variable_its_type(
    path: PathTree,
    name: Seq<char>,
    rhs: ExprTree,
    st: WalkState,
    cx: Setting,
)
    requires
        is_name(path, cx.source, name),
    ensures
        is_known_as(
            walked(
                ExprTree::Assign(Box::new(ExprTree::Path(path)), Box::new(rhs)),
                st,
                cx,
            ).env,
            name,
            type_of(rhs, walked(rhs, st, cx).env, cx),
        ),
{
    single_names_are_written_out(path, cx.source, name);
    let lhs = ExprTree::Path(path);
    let target = walked(lhs, unreported(st.env), cx);
    assert(sub_exprs(lhs).len() == 0);
    assert(target == walked_first(lhs, 0, unreported(st.env), cx));
    assert(with_env(st, target.env) == st);
}

} // verus!
