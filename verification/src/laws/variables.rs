//! The method calls on variables that keep their type.

use vstd::prelude::*;

use crate::laws::bindings::{
    assigned_variables_are_assigned_within, assigns, binds, blocks_assign_what_is_assigned_within,
    is_known_as, is_param, parameters_have_their_declared_types, pattern_names_are_bound, renews,
    variables_are_left_alone_if_nothing_renews_them,
};
use crate::laws::expressions::{
    holds_in_block, holds_in_condition, holds_in_stmt, holds_within, lemma_holds_weaker,
    lemma_holds_weaker_in_block, lemma_in_both, what_stands_in_an_expression_stands_in_its_parts,
};
use crate::laws::inference::{
    calls_are_judged_by_the_type_of_the_receiver, lacks, method_call,
    variables_have_their_known_type, violation_on,
};
use crate::laws::method_calls::{
    holds_in_arms, holds_in_branches, holds_in_selects, lemma_walked_arms_told,
    lemma_walked_condition_told, lemma_walked_scope_told, lemma_walked_told,
};
use crate::laws::methods::{lemma_bound_keeps, other_variables_keep_their_types};
use crate::laws::values::is_name;
use crate::method_checker::{
    assigned_in, assigned_in_all, assigned_in_block, assigned_in_condition, bound, bound_args,
    bound_condition, call_fault, forget, min_len, missing_methods, names_of_type, param_types,
    type_of, unreported, walked, walked_arms, walked_block, walked_branches, walked_condition,
    walked_first, walked_list, walked_scope, walked_selects, with_env, Setting, TypesModel,
    WalkState,
};
use crate::report::MethodViolationModel;
use crate::syntax::{
    condition_exprs, lemma_sub_exprs_smaller, sub_exprs, ArmTree, BlockTree, ConditionTree,
    ExprTree, FieldTree, FnTree, PatTree, PathTree, SelectTree, Span, StmtTree,
};
use crate::text::join;
use crate::types::{ContractModel, TypeModel};

verus! {

/// Whether a `let` statement of a block binds a variable.
pub open spec fn declares_in(block: BlockTree, name: Seq<char>, source: Seq<char>) -> bool {
    exists|i: int|
        0 <= i < block.statements.len() && (#[trigger] block.statements[i] matches StmtTree::Local(
            pat,
            _,
        ) && binds(pat, name, source))
}

/// Whether a condition `let pat = ..` binds a variable.
pub open spec fn binds_in_condition(
    condition: ConditionTree,
    name: Seq<char>,
    source: Seq<char>,
) -> bool {
    condition matches ConditionTree::Let(pat, _) && binds(pat, name, source)
}

/// The expressions that assign a variable, or in which another variable of
/// that name is declared.
pub open spec fn rebinds(name: Seq<char>, source: Seq<char>) -> spec_fn(ExprTree) -> bool {
    |expr: ExprTree|
        match expr {
            ExprTree::Assign(lhs, _) => *lhs matches ExprTree::Path(path) && is_name(
                path,
                source,
                name,
            ),
            ExprTree::Let(pat, _) => binds(pat, name, source),
            ExprTree::For(pat, _, body) => binds(pat, name, source) || declares_in(
                body,
                name,
                source,
            ),
            ExprTree::While(condition, body) => binds_in_condition(*condition, name, source)
                || declares_in(body, name, source),
            ExprTree::If(branches, otherwise) => {
                ||| exists|i: int|
                    0 <= i < branches.len() && (binds_in_condition(
                        (#[trigger] branches[i]).0,
                        name,
                        source,
                    ) || declares_in(branches[i].1, name, source))
                ||| otherwise matches Some(block) && declares_in(block, name, source)
            },
            ExprTree::Match(_, arms) => exists|i: int|
                0 <= i < arms.len() && binds((#[trigger] arms[i]).pat, name, source),
            ExprTree::Select(arms) => exists|i: int|
                0 <= i < arms.len() && ((#[trigger] arms[i]).binding matches Some(binding) && binds(
                    binding.0,
                    name,
                    source,
                )),
            ExprTree::Closure(args, _) => exists|i: int|
                0 <= i < args.len() && (#[trigger] args[i] matches Some(pat) && binds(
                    pat,
                    name,
                    source,
                )),
            ExprTree::Block(block) => declares_in(block, name, source),
            ExprTree::Loop(body) => declares_in(body, name, source),
            _ => false,
        }
}

/// A variable of a known type, a method call on it, and the violation that
/// the call gives rise to.
struct Watch {
    name: Seq<char>,
    t: TypeModel,
    call: ExprTree,
    v: MethodViolationModel,
}

spec fn is_call(w: Watch) -> spec_fn(ExprTree) -> bool {
    |expr: ExprTree| expr == w.call
}

spec fn knows(env: TypesModel, w: Watch) -> bool {
    is_known_as(env, w.name, Some(w.t))
}

/// Whether the call gives rise to the violation wherever the type of the
/// variable is known.
spec fn is_watch(w: Watch, cx: Setting) -> bool {
    w.call matches ExprTree::Call(callee, _, span) && *callee matches ExprTree::FieldAccess(
        receiver,
        field,
    ) && *receiver is Path && forall|env: TypesModel|
        knows(env, w) ==> #[trigger] call_fault(*receiver, field, span, env, cx) == Some(w.v)
}

spec fn is_kept(expr: ExprTree, w: Watch, cx: Setting) -> bool {
    !holds_within(expr, rebinds(w.name, cx.source))
}

spec fn is_kept_in(block: BlockTree, w: Watch, cx: Setting) -> bool {
    !holds_in_block(block, rebinds(w.name, cx.source)) && !declares_in(block, w.name, cx.source)
}

proof fn lemma_unassigned(expr: ExprTree, w: Watch, cx: Setting)
    requires
        is_kept(expr, w, cx),
    ensures
        !assigned_in(expr, cx.source).contains(w.name),
{
    assigned_variables_are_assigned_within(expr, w.name, cx.source);
    lemma_holds_weaker(expr, assigns(w.name, cx.source), rebinds(w.name, cx.source));
}

proof fn lemma_unassigned_in(block: BlockTree, w: Watch, cx: Setting)
    requires
        is_kept_in(block, w, cx),
    ensures
        !assigned_in_block(block, cx.source).contains(w.name),
{
    blocks_assign_what_is_assigned_within(block, w.name, cx.source);
    lemma_holds_weaker_in_block(block, assigns(w.name, cx.source), rebinds(w.name, cx.source));
}

proof fn lemma_unassigned_in_condition(condition: ConditionTree, w: Watch, cx: Setting)
    requires
        !holds_in_condition(condition, rebinds(w.name, cx.source)),
    ensures
        !assigned_in_condition(condition, cx.source).contains(w.name),
{
    let exprs = condition_exprs(condition);
    match condition {
        ConditionTree::Expr(e) | ConditionTree::Let(_, e) => {
            assert(exprs =~= seq![e]);
            lemma_unassigned(e, w, cx);
            assert(assigned_in_all(exprs, 0, cx.source) =~= Seq::empty());
            assert(assigned_in_all(exprs, 1, cx.source) =~= assigned_in(e, cx.source));
        },
        ConditionTree::Other => {
            assert(exprs.len() == 0);
            assert(assigned_in_all(exprs, 0, cx.source) =~= Seq::empty());
        },
    }
}

/// What is known of a variable that is kept is known after a walk.
proof fn lemma_knows_after(expr: ExprTree, w: Watch, st: WalkState, cx: Setting)
    requires
        is_kept(expr, w, cx),
        knows(st.env, w),
    ensures
        knows(walked(expr, st, cx).env, w),
{
    lemma_holds_weaker(expr, renews(w.name, cx.source), rebinds(w.name, cx.source));
    variables_are_left_alone_if_nothing_renews_them(expr, w.name, cx.source);
    other_variables_keep_their_types(expr, w.name, st, cx);
}

proof fn lemma_knows_bound(
    pat: PatTree,
    ty: Option<TypeModel>,
    env: TypesModel,
    w: Watch,
    cx: Setting,
)
    requires
        !binds(pat, w.name, cx.source),
        knows(env, w),
    ensures
        knows(bound(pat, ty, env, cx.source), w),
{
    pattern_names_are_bound(pat, w.name, cx.source);
    lemma_bound_keeps(pat, ty, env, w.name, cx.source);
}

proof fn lemma_knows_args(
    args: Seq<Option<PatTree>>,
    n: nat,
    env: TypesModel,
    w: Watch,
    cx: Setting,
)
    requires
        n <= args.len(),
        forall|i: int|
            0 <= i < args.len() ==> !(#[trigger] args[i] matches Some(pat) && binds(
                pat,
                w.name,
                cx.source,
            )),
        knows(env, w),
    ensures
        knows(bound_args(args, n, env, cx.source), w),
    decreases n,
{
    if n > 0 {
        lemma_knows_args(args, (n - 1) as nat, env, w, cx);
        let before = bound_args(args, (n - 1) as nat, env, cx.source);
        let last = args[n - 1];
        if let Some(pat) = last {
            lemma_knows_bound(pat, None, before, w, cx);
        }
    }
}

proof fn lemma_knows_condition(condition: ConditionTree, env: TypesModel, w: Watch, cx: Setting)
    requires
        !binds_in_condition(condition, w.name, cx.source),
        knows(env, w),
    ensures
        knows(bound_condition(condition, env, cx), w),
{
    if let ConditionTree::Let(pat, expr) = condition {
        lemma_knows_bound(pat, type_of(expr, env, cx), env, w, cx);
    }
}

proof fn lemma_watched(expr: ExprTree, st: WalkState, cx: Setting, w: Watch)
    requires
        is_watch(w, cx),
        is_kept(expr, w, cx),
        knows(st.env, w),
        holds_within(expr, is_call(w)),
    ensures
        walked(expr, st, cx).found.contains(w.v),
    decreases expr, sub_exprs(expr).len() + 1,
{
    match expr {
        ExprTree::Call(callee, args, span) => lemma_watched_call(
            expr,
            *callee,
            args,
            span,
            st,
            cx,
            w,
        ),
        ExprTree::Block(block) => lemma_watched_scope(block, st.env, st, cx, w),
        ExprTree::If(branches, otherwise) => {
            let after = walked_branches(branches, branches.len(), st, cx);
            lemma_watched_branches(branches, branches.len(), otherwise, st, cx, w);
            if let Some(block) = otherwise {
                lemma_walked_scope_told(block, after.env, after, cx, w.v);
                if holds_in_block(block, is_call(w)) {
                    lemma_watched_scope(block, after.env, after, cx, w);
                }
            }
        },
        ExprTree::Match(scrutinee, arms) => {
            let after = walked(*scrutinee, st, cx);
            let ty = type_of(*scrutinee, after.env, cx);
            lemma_knows_after(*scrutinee, w, st, cx);
            lemma_walked_arms_told(arms, arms.len(), ty, after, cx, w.v);
            if holds_within(*scrutinee, is_call(w)) {
                lemma_watched(*scrutinee, st, cx, w);
            } else {
                lemma_watched_arms(arms, arms.len(), *scrutinee, ty, after, cx, w);
            }
        },
        ExprTree::Select(arms) => {
            let env = forget(st.env, assigned_in(expr, cx.source));
            lemma_unassigned(expr, w, cx);
            lemma_watched_selects(arms, arms.len(), WalkState { env, found: st.found }, cx, w);
        },
        ExprTree::Loop(body) => {
            let env = forget(st.env, assigned_in_block(body, cx.source));
            lemma_unassigned_in(body, w, cx);
            lemma_watched_scope(body, env, WalkState { env, found: st.found }, cx, w);
        },
        ExprTree::While(condition, body) => {
            let after = walked_condition(*condition, st, cx);
            let env = forget(
                forget(after.env, assigned_in_condition(*condition, cx.source)),
                assigned_in_block(body, cx.source),
            );
            let inner = bound_condition(*condition, env, cx);
            let before = WalkState { env, found: after.found };
            lemma_watched_condition(*condition, st, cx, w);
            lemma_unassigned_in_condition(*condition, w, cx);
            lemma_unassigned_in(body, w, cx);
            lemma_knows_condition(*condition, env, w, cx);
            lemma_walked_scope_told(body, inner, before, cx, w.v);
            if holds_in_block(body, is_call(w)) {
                lemma_watched_scope(body, inner, before, cx, w);
            }
        },
        ExprTree::For(pat, iter, body) => {
            let after = walked(*iter, st, cx);
            let env = forget(after.env, assigned_in_block(body, cx.source));
            let inner = bound(pat, None, env, cx.source);
            let before = WalkState { env, found: after.found };
            lemma_knows_after(*iter, w, st, cx);
            lemma_unassigned_in(body, w, cx);
            lemma_knows_bound(pat, None, env, w, cx);
            lemma_walked_scope_told(body, inner, before, cx, w.v);
            if holds_within(*iter, is_call(w)) {
                lemma_watched(*iter, st, cx, w);
            } else {
                lemma_watched_scope(body, inner, before, cx, w);
            }
        },
        ExprTree::Closure(args, body) => {
            let inner = bound_args(args, args.len(), st.env, cx.source);
            lemma_knows_args(args, args.len(), st.env, w, cx);
            lemma_watched(*body, WalkState { env: inner, found: st.found }, cx, w);
        },
        ExprTree::Logic(lhs, rhs) => {
            let after = walked(*lhs, st, cx);
            lemma_knows_after(*lhs, w, st, cx);
            lemma_walked_told(*rhs, after, cx, w.v);
            if holds_within(*lhs, is_call(w)) {
                lemma_watched(*lhs, st, cx, w);
            } else {
                lemma_watched(*rhs, after, cx, w);
            }
        },
        ExprTree::Assign(lhs, rhs) => {
            let target = walked(*lhs, unreported(st.env), cx);
            let value = walked(*rhs, with_env(st, target.env), cx);
            lemma_knows_after(*lhs, w, unreported(st.env), cx);
            if holds_within(*lhs, is_call(w)) {
                lemma_watched(*lhs, unreported(st.env), cx, w);
            } else {
                lemma_watched(*rhs, with_env(st, target.env), cx, w);
            }
            lemma_either(value.found, target.found, w.v);
        },
        ExprTree::Let(pat, inner) => lemma_watched(*inner, st, cx, w),
        _ => lemma_watched_first(expr, sub_exprs(expr).len(), st, cx, w),
    }
}

proof fn lemma_either(
    a: Seq<MethodViolationModel>,
    b: Seq<MethodViolationModel>,
    v: MethodViolationModel,
)
    requires
        a.contains(v) || b.contains(v),
    ensures
        (a + b).contains(v),
        forall|last: MethodViolationModel| #[trigger] (a + b).push(last).contains(v),
{
    lemma_in_both(a, b, v);
    let k = choose|k: int| 0 <= k < (a + b).len() && (a + b)[k] == v;
    assert forall|last: MethodViolationModel| #[trigger] (a + b).push(last).contains(v) by {
        assert((a + b).push(last)[k] == v);
    }
}

proof fn lemma_watched_call(
    expr: ExprTree,
    callee: ExprTree,
    args: Seq<ExprTree>,
    span: Span,
    st: WalkState,
    cx: Setting,
    w: Watch,
)
    requires
        expr == ExprTree::Call(Box::new(callee), args, span),
        is_watch(w, cx),
        is_kept(expr, w, cx),
        knows(st.env, w),
        holds_within(expr, is_call(w)),
    ensures
        walked(expr, st, cx).found.contains(w.v),
    decreases expr, 0nat,
{
    assert(decreases_to!(expr => expr->Call_0));
    assert(decreases_to!(expr => expr->Call_1));
    match callee {
        ExprTree::FieldAccess(receiver, field) => {
            assert(decreases_to!(callee => *receiver));
            let target = walked(*receiver, unreported(st.env), cx);
            let rest = walked_list(args, args.len(), with_env(st, target.env), cx);
            let found = rest.found + target.found;
            assert(is_kept(callee, w, cx));
            lemma_knows_after(*receiver, w, unreported(st.env), cx);
            if expr == w.call {
                let fault = call_fault(*receiver, field, span, target.env, cx);
                assert(fault == Some(w.v));
                assert(found.push(w.v)[found.len() as int] == w.v);
            } else {
                if holds_within(callee, is_call(w)) {
                    assert(holds_within(*receiver, is_call(w)));
                    lemma_watched(*receiver, unreported(st.env), cx, w);
                } else {
                    lemma_watched_list(args, args.len(), with_env(st, target.env), cx, w);
                }
                lemma_either(rest.found, target.found, w.v);
            }
        },
        _ => {
            let target = walked(callee, unreported(st.env), cx);
            let rest = walked_list(args, args.len(), with_env(st, target.env), cx);
            lemma_knows_after(callee, w, unreported(st.env), cx);
            if holds_within(callee, is_call(w)) {
                lemma_watched(callee, unreported(st.env), cx, w);
            } else {
                lemma_watched_list(args, args.len(), with_env(st, target.env), cx, w);
            }
            lemma_either(rest.found, target.found, w.v);
        },
    }
}

proof fn lemma_watched_first(expr: ExprTree, n: nat, st: WalkState, cx: Setting, w: Watch)
    requires
        n <= sub_exprs(expr).len(),
        is_watch(w, cx),
        is_kept(expr, w, cx),
        knows(st.env, w),
        !(w.call == expr),
    ensures
        knows(walked_first(expr, n, st, cx).env, w),
        (exists|i: int| 0 <= i < n && holds_within(#[trigger] sub_exprs(expr)[i], is_call(w)))
            ==> walked_first(expr, n, st, cx).found.contains(w.v),
        n == sub_exprs(expr).len() && holds_within(expr, is_call(w)) ==> walked_first(
            expr,
            n,
            st,
            cx,
        ).found.contains(w.v),
    decreases expr, n,
{
    what_stands_in_an_expression_stands_in_its_parts(expr, is_call(w));
    if n > 0 {
        lemma_sub_exprs_smaller(expr);
        what_stands_in_an_expression_stands_in_its_parts(expr, rebinds(w.name, cx.source));
        let before = walked_first(expr, (n - 1) as nat, st, cx);
        let part = sub_exprs(expr)[n - 1];
        lemma_watched_first(expr, (n - 1) as nat, st, cx, w);
        assert(is_kept(part, w, cx));
        lemma_knows_after(part, w, before, cx);
        lemma_walked_told(part, before, cx, w.v);
        if holds_within(part, is_call(w)) {
            lemma_watched(part, before, cx, w);
        }
    }
}

proof fn lemma_watched_list(exprs: Seq<ExprTree>, n: nat, st: WalkState, cx: Setting, w: Watch)
    requires
        n <= exprs.len(),
        is_watch(w, cx),
        forall|i: int| 0 <= i < exprs.len() ==> is_kept(#[trigger] exprs[i], w, cx),
        knows(st.env, w),
    ensures
        knows(walked_list(exprs, n, st, cx).env, w),
        (exists|i: int| 0 <= i < n && holds_within(#[trigger] exprs[i], is_call(w)))
            ==> walked_list(exprs, n, st, cx).found.contains(w.v),
    decreases exprs, n,
{
    if n > 0 {
        let before = walked_list(exprs, (n - 1) as nat, st, cx);
        lemma_watched_list(exprs, (n - 1) as nat, st, cx, w);
        assert(is_kept(exprs[n - 1], w, cx));
        lemma_knows_after(exprs[n - 1], w, before, cx);
        lemma_walked_told(exprs[n - 1], before, cx, w.v);
        if holds_within(exprs[n - 1], is_call(w)) {
            lemma_watched(exprs[n - 1], before, cx, w);
        }
    }
}

proof fn lemma_watched_condition(condition: ConditionTree, st: WalkState, cx: Setting, w: Watch)
    requires
        is_watch(w, cx),
        !holds_in_condition(condition, rebinds(w.name, cx.source)),
        knows(st.env, w),
    ensures
        knows(walked_condition(condition, st, cx).env, w),
        holds_in_condition(condition, is_call(w)) ==> walked_condition(
            condition,
            st,
            cx,
        ).found.contains(w.v),
    decreases condition, 0nat,
{
    match condition {
        ConditionTree::Expr(expr) => {
            lemma_knows_after(expr, w, st, cx);
            if holds_within(expr, is_call(w)) {
                lemma_watched(expr, st, cx, w);
            }
        },
        ConditionTree::Let(_, expr) => {
            lemma_knows_after(expr, w, st, cx);
            if holds_within(expr, is_call(w)) {
                lemma_watched(expr, st, cx, w);
            }
        },
        ConditionTree::Other => {},
    }
}

proof fn lemma_watched_block(block: BlockTree, n: nat, st: WalkState, cx: Setting, w: Watch)
    requires
        n <= block.statements.len(),
        is_watch(w, cx),
        is_kept_in(block, w, cx),
        knows(st.env, w),
    ensures
        knows(walked_block(block, n, st, cx).env, w),
        (exists|i: int| 0 <= i < n && holds_in_stmt(#[trigger] block.statements[i], is_call(w)))
            ==> walked_block(block, n, st, cx).found.contains(w.v),
    decreases block, n,
{
    if n > 0 {
        let before = walked_block(block, (n - 1) as nat, st, cx);
        lemma_watched_block(block, (n - 1) as nat, st, cx, w);
        let last = block.statements[n - 1];
        assert(decreases_to!(block => block.statements));
        assert(decreases_to!(block.statements => block.statements[n - 1]));
        assert(!holds_in_stmt(block.statements[n - 1], rebinds(w.name, cx.source)));
        match last {
            StmtTree::Local(pat, expr) => {
                lemma_knows_after(expr, w, before, cx);
                lemma_walked_told(expr, before, cx, w.v);
                let after = walked(expr, before, cx);
                assert(!binds(pat, w.name, cx.source));
                lemma_knows_bound(pat, type_of(expr, after.env, cx), after.env, w, cx);
                if holds_within(expr, is_call(w)) {
                    lemma_watched(expr, before, cx, w);
                }
            },
            StmtTree::Expr(expr) | StmtTree::Semi(expr) => {
                lemma_knows_after(expr, w, before, cx);
                lemma_walked_told(expr, before, cx, w.v);
                if holds_within(expr, is_call(w)) {
                    lemma_watched(expr, before, cx, w);
                }
            },
            StmtTree::Other => {},
        }
    }
}

proof fn lemma_watched_scope(
    block: BlockTree,
    inner: TypesModel,
    st: WalkState,
    cx: Setting,
    w: Watch,
)
    requires
        is_watch(w, cx),
        is_kept_in(block, w, cx),
        knows(inner, w),
    ensures
        holds_in_block(block, is_call(w)) ==> walked_scope(block, inner, st, cx).found.contains(
            w.v,
        ),
        knows(st.env, w) ==> knows(walked_scope(block, inner, st, cx).env, w),
    decreases block, block.statements.len() + 1,
{
    lemma_unassigned_in(block, w, cx);
    lemma_watched_block(
        block,
        block.statements.len(),
        WalkState { env: inner, found: st.found },
        cx,
        w,
    );
}

proof fn lemma_watched_branches(
    branches: Seq<(ConditionTree, BlockTree)>,
    n: nat,
    otherwise: Option<BlockTree>,
    st: WalkState,
    cx: Setting,
    w: Watch,
)
    requires
        n <= branches.len(),
        is_watch(w, cx),
        is_kept(ExprTree::If(branches, otherwise), w, cx),
        knows(st.env, w),
    ensures
        knows(walked_branches(branches, n, st, cx).env, w),
        holds_in_branches(branches, n, is_call(w)) ==> walked_branches(
            branches,
            n,
            st,
            cx,
        ).found.contains(w.v),
    decreases branches, n,
{
    if n > 0 {
        let whole = ExprTree::If(branches, otherwise);
        let p = rebinds(w.name, cx.source);
        let before = walked_branches(branches, (n - 1) as nat, st, cx);
        lemma_watched_branches(branches, (n - 1) as nat, otherwise, st, cx, w);
        let condition = branches[n - 1].0;
        let block = branches[n - 1].1;
        assert(!p(whole));
        assert(whole->If_0 == branches && whole->If_0[n - 1] == branches[n - 1]);
        assert(!holds_in_condition(branches[n - 1].0, p) && !holds_in_block(branches[n - 1].1, p));
        assert(!binds_in_condition(branches[n - 1].0, w.name, cx.source));
        let tested = walked_condition(condition, before, cx);
        lemma_walked_condition_told(condition, before, cx, w.v);
        lemma_watched_condition(condition, before, cx, w);
        lemma_unassigned_in_condition(condition, w, cx);
        let env = if n == 1 {
            tested.env
        } else {
            forget(before.env, assigned_in_condition(condition, cx.source))
        };
        let inner = bound_condition(condition, tested.env, cx);
        lemma_knows_condition(condition, tested.env, w, cx);
        lemma_walked_scope_told(block, inner, WalkState { env, found: tested.found }, cx, w.v);
        lemma_watched_scope(block, inner, WalkState { env, found: tested.found }, cx, w);
    }
}

proof fn lemma_watched_arms(
    arms: Seq<ArmTree>,
    n: nat,
    scrutinee: ExprTree,
    ty: Option<TypeModel>,
    st: WalkState,
    cx: Setting,
    w: Watch,
)
    requires
        n <= arms.len(),
        is_watch(w, cx),
        is_kept(ExprTree::Match(Box::new(scrutinee), arms), w, cx),
        knows(st.env, w),
    ensures
        knows(walked_arms(arms, n, ty, st, cx).env, w),
        holds_in_arms(arms, n, is_call(w)) ==> walked_arms(arms, n, ty, st, cx).found.contains(
            w.v,
        ),
    decreases arms, n,
{
    if n > 0 {
        let whole = ExprTree::Match(Box::new(scrutinee), arms);
        let p = rebinds(w.name, cx.source);
        let before = walked_arms(arms, (n - 1) as nat, ty, st, cx);
        lemma_watched_arms(arms, (n - 1) as nat, scrutinee, ty, st, cx, w);
        let arm = arms[n - 1];
        assert(!p(whole));
        assert(!binds(arms[n - 1].pat, w.name, cx.source));
        assert(!holds_within(arms[n - 1].body, p));
        let inner = WalkState {
            env: bound(arm.pat, ty, before.env, cx.source),
            found: before.found,
        };
        lemma_knows_bound(arm.pat, ty, before.env, w, cx);
        lemma_unassigned(arm.body, w, cx);
        assert(decreases_to!(arms => arms[n - 1]));
        match arm.guard {
            Some(guard) => {
                assert(!holds_within(guard, p));
                let tested = walked(guard, inner, cx);
                lemma_unassigned(guard, w, cx);
                lemma_knows_after(guard, w, inner, cx);
                lemma_walked_told(guard, inner, cx, w.v);
                lemma_walked_told(arm.body, tested, cx, w.v);
                if holds_within(guard, is_call(w)) {
                    lemma_watched(guard, inner, cx, w);
                }
                if holds_within(arm.body, is_call(w)) {
                    lemma_watched(arm.body, tested, cx, w);
                }
            },
            None => {
                lemma_walked_told(arm.body, inner, cx, w.v);
                if holds_within(arm.body, is_call(w)) {
                    lemma_watched(arm.body, inner, cx, w);
                }
            },
        }
    }
}

proof fn lemma_watched_selects(
    arms: Seq<SelectTree>,
    n: nat,
    st: WalkState,
    cx: Setting,
    w: Watch,
)
    requires
        n <= arms.len(),
        is_watch(w, cx),
        is_kept(ExprTree::Select(arms), w, cx),
        knows(st.env, w),
    ensures
        knows(walked_selects(arms, n, st, cx).env, w),
        holds_in_selects(arms, n, is_call(w)) ==> walked_selects(arms, n, st, cx).found.contains(
            w.v,
        ),
    decreases arms, n,
{
    if n > 0 {
        let whole = ExprTree::Select(arms);
        let p = rebinds(w.name, cx.source);
        let before = walked_selects(arms, (n - 1) as nat, st, cx);
        lemma_watched_selects(arms, (n - 1) as nat, st, cx, w);
        let arm = arms[n - 1];
        assert(!p(whole));
        assert(!holds_within(arms[n - 1].body, p));
        assert(decreases_to!(arms => arms[n - 1]));
        match arm.binding {
            Some(binding) => {
                assert(!holds_within(binding.1, p));
                assert(!binds(binding.0, w.name, cx.source));
                lemma_walked_told(binding.1, before, cx, w.v);
                let inner = WalkState {
                    env: bound(binding.0, None, before.env, cx.source),
                    found: walked(binding.1, before, cx).found,
                };
                lemma_knows_bound(binding.0, None, before.env, w, cx);
                lemma_walked_told(arm.body, inner, cx, w.v);
                if holds_within(binding.1, is_call(w)) {
                    lemma_watched(binding.1, before, cx, w);
                }
                if holds_within(arm.body, is_call(w)) {
                    lemma_watched(arm.body, inner, cx, w);
                }
            },
            None => {
                lemma_walked_told(arm.body, before, cx, w.v);
                if holds_within(arm.body, is_call(w)) {
                    lemma_watched(arm.body, before, cx, w);
                }
            },
        }
    }
}

/// A wrong method call on a parameter is reported wherever it stands in a
/// function that neither assigns the parameter nor declares another variable
/// of its name: the parameter has its declared type throughout, in all
/// branches, loops and closures.
pub proof fn wrong_calls_on_parameters_are_reported(
    item: FnTree,
    contract: ContractModel,
    cx: Setting,
    at: int,
    variable: PathTree,
    name: Seq<char>,
    path: PathTree,
    method: Seq<char>,
    args: Seq<ExprTree>,
    span: Span,
)
    requires
        0 <= at < item.args.len(),
        at < contract.params.len(),
        is_param(item.args[at], name, cx.source),
        forall|i: int|
            at < i < item.args.len() ==> !is_param(#[trigger] item.args[i], name, cx.source),
        name != "None"@,
        is_name(variable, cx.source, name),
        is_name(path, cx.source, method),
        ({
            let names = names_of_type(contract.params[at].type_def);
            names.len() > 0 && forall|i: int|
                0 <= i < names.len() ==> lacks(cx.methods, #[trigger] names[i], method)
        }),
        !holds_in_block(item.body, rebinds(name, cx.source)),
        !declares_in(item.body, name, cx.source),
        holds_in_block(
            item.body,
            |expr: ExprTree| expr == method_call(ExprTree::Path(variable), path, args, span),
        ),
    ensures
        missing_methods(item, contract, cx).contains(
            violation_on(
                join(names_of_type(contract.params[at].type_def), " | "@),
                method,
                span,
                cx.source,
            ),
        ),
{
    let t = contract.params[at].type_def;
    let names = names_of_type(t);
    let receiver = ExprTree::Path(variable);
    let call = method_call(receiver, path, args, span);
    let v = violation_on(join(names, " | "@), method, span, cx.source);
    let w = Watch { name, t, call, v };
    assert forall|env: TypesModel| knows(env, w) implies #[trigger] call_fault(
        receiver,
        FieldTree::Path(path),
        span,
        env,
        cx,
    ) == Some(v) by {
        variables_have_their_known_type(variable, name, env, cx);
        calls_are_judged_by_the_type_of_the_receiver(receiver, t, path, method, span, env, cx);
    }
    assert(is_watch(w, cx));
    let n = min_len(item.args.len(), contract.params.len());
    let env = param_types(item.args, contract.params, n, cx.source);
    parameters_have_their_declared_types(item.args, contract.params, n, name, cx.source);
    assert(knows(env, w));
    let is_it = |expr: ExprTree| expr == method_call(ExprTree::Path(variable), path, args, span);
    lemma_holds_weaker_in_block(item.body, is_it, is_call(w));
    lemma_watched_block(
        item.body,
        item.body.statements.len(),
        WalkState { env, found: Seq::empty() },
        cx,
        w,
    );
    assert(lacks(cx.methods, names[0], method));
}

} // verus!
