//! Which method calls are reported, wherever they stand.

use vstd::prelude::*;

use crate::laws::expressions::{
    holds_in_block, holds_in_condition, holds_in_stmt, holds_within, lemma_in_both,
    what_stands_in_an_expression_stands_in_its_parts,
};
use crate::method_checker::{
    assigned_in, assigned_in_block, assigned_in_condition, bound, bound_args, bound_condition,
    call_fault, forget, min_len, missing_methods, param_types, type_of, unreported, walked,
    walked_arms, walked_block, walked_branches, walked_condition, walked_first, walked_list,
    walked_scope, walked_selects, with_env, Setting, TypesModel, WalkState,
};
use crate::report::MethodViolationModel;
use crate::syntax::{
    lemma_sub_exprs_smaller, sub_exprs, ArmTree, BlockTree, ConditionTree, ExprTree, FnTree,
    SelectTree, Span, StmtTree,
};
use crate::types::{ContractModel, TypeModel};

verus! {

// ---------------------------------------------------------------------------
// The calls that are reported.
// ---------------------------------------------------------------------------

/// Whether an expression is a method call that gives rise to the violation
/// whatever is known of the variables.
pub open spec fn surely_reports(expr: ExprTree, v: MethodViolationModel, cx: Setting) -> bool {
    expr matches ExprTree::Call(callee, _, span) && *callee matches ExprTree::FieldAccess(
        receiver,
        field,
    ) && forall|env: TypesModel| #[trigger]
        call_fault(*receiver, field, span, env, cx) == Some(v)
}

/// Whether an expression is a method call that gives rise to the violation
/// with some types of the variables.
pub open spec fn may_report(expr: ExprTree, v: MethodViolationModel, cx: Setting) -> bool {
    expr matches ExprTree::Call(callee, _, span) && *callee matches ExprTree::FieldAccess(
        receiver,
        field,
    ) && exists|env: TypesModel| #[trigger]
        call_fault(*receiver, field, span, env, cx) == Some(v)
}

/// The method calls that give rise to the violation whatever is known of the
/// variables.
pub open spec fn sure(v: MethodViolationModel, cx: Setting) -> spec_fn(ExprTree) -> bool {
    |expr: ExprTree| surely_reports(expr, v, cx)
}

/// The method calls that give rise to the violation with some types of the
/// variables.
pub open spec fn possible(v: MethodViolationModel, cx: Setting) -> spec_fn(ExprTree) -> bool {
    |expr: ExprTree| may_report(expr, v, cx)
}

/// Whether a list of violations has kept a violation, has it if it is sure,
/// and has got it only if it is possible.
pub(crate) open spec fn is_told(
    before: Seq<MethodViolationModel>,
    after: Seq<MethodViolationModel>,
    v: MethodViolationModel,
    sure: bool,
    possible: bool,
) -> bool {
    &&& before.contains(v) || sure ==> after.contains(v)
    &&& after.contains(v) ==> before.contains(v) || possible
}

proof fn lemma_pushed(
    a: Seq<MethodViolationModel>,
    last: MethodViolationModel,
    v: MethodViolationModel,
)
    ensures
        a.push(last).contains(v) <==> a.contains(v) || v == last,
{
    lemma_in_both(a, seq![last], v);
    assert(a.push(last) =~= a + seq![last]);
    assert(seq![last][0] == last);
}

pub(crate) proof fn lemma_walked_told(
    expr: ExprTree,
    st: WalkState,
    cx: Setting,
    v: MethodViolationModel,
)
    ensures
        is_told(
            st.found,
            walked(expr, st, cx).found,
            v,
            holds_within(expr, sure(v, cx)),
            holds_within(expr, possible(v, cx)),
        ),
    decreases expr, sub_exprs(expr).len() + 1,
{
    match expr {
        ExprTree::Call(callee, args, span) => lemma_walked_call_told(
            expr,
            *callee,
            args,
            span,
            st,
            cx,
            v,
        ),
        ExprTree::Block(block) => lemma_walked_scope_told(block, st.env, st, cx, v),
        ExprTree::If(branches, otherwise) => {
            let after = walked_branches(branches, branches.len(), st, cx);
            lemma_walked_branches_told(branches, branches.len(), st, cx, v);
            if let Some(block) = otherwise {
                lemma_walked_scope_told(block, after.env, after, cx, v);
            }
        },
        ExprTree::Match(scrutinee, arms) => {
            let after = walked(*scrutinee, st, cx);
            lemma_walked_told(*scrutinee, st, cx, v);
            let ty = type_of(*scrutinee, after.env, cx);
            lemma_walked_arms_told(arms, arms.len(), ty, after, cx, v);
        },
        ExprTree::Select(arms) => {
            let env = forget(st.env, assigned_in(expr, cx.source));
            lemma_walked_selects_told(
                arms,
                arms.len(),
                WalkState { env, found: st.found },
                cx,
                v,
            );
        },
        ExprTree::Loop(body) => {
            let env = forget(st.env, assigned_in_block(body, cx.source));
            lemma_walked_scope_told(body, env, WalkState { env, found: st.found }, cx, v);
        },
        ExprTree::While(condition, body) => {
            let after = walked_condition(*condition, st, cx);
            lemma_walked_condition_told(*condition, st, cx, v);
            let env = forget(
                forget(after.env, assigned_in_condition(*condition, cx.source)),
                assigned_in_block(body, cx.source),
            );
            let inner = bound_condition(*condition, env, cx);
            lemma_walked_scope_told(body, inner, WalkState { env, found: after.found }, cx, v);
        },
        ExprTree::For(pat, iter, body) => {
            let after = walked(*iter, st, cx);
            lemma_walked_told(*iter, st, cx, v);
            let env = forget(after.env, assigned_in_block(body, cx.source));
            let inner = bound(pat, None, env, cx.source);
            lemma_walked_scope_told(body, inner, WalkState { env, found: after.found }, cx, v);
        },
        ExprTree::Closure(args, body) => {
            let inner = bound_args(args, args.len(), st.env, cx.source);
            lemma_walked_told(*body, WalkState { env: inner, found: st.found }, cx, v);
        },
        ExprTree::Logic(lhs, rhs) => {
            let after = walked(*lhs, st, cx);
            lemma_walked_told(*lhs, st, cx, v);
            lemma_walked_told(*rhs, after, cx, v);
        },
        ExprTree::Assign(lhs, rhs) => {
            let target = walked(*lhs, unreported(st.env), cx);
            let value = walked(*rhs, with_env(st, target.env), cx);
            lemma_walked_told(*lhs, unreported(st.env), cx, v);
            lemma_walked_told(*rhs, with_env(st, target.env), cx, v);
            lemma_in_both(value.found, target.found, v);
        },
        ExprTree::Let(pat, inner) => lemma_walked_told(*inner, st, cx, v),
        _ => {
            lemma_walked_first_told(expr, sub_exprs(expr).len(), st, cx, v);
            what_stands_in_an_expression_stands_in_its_parts(expr, sure(v, cx));
            what_stands_in_an_expression_stands_in_its_parts(expr, possible(v, cx));
        },
    }
}

proof fn lemma_walked_call_told(
    expr: ExprTree,
    callee: ExprTree,
    args: Seq<ExprTree>,
    span: Span,
    st: WalkState,
    cx: Setting,
    v: MethodViolationModel,
)
    requires
        expr == ExprTree::Call(Box::new(callee), args, span),
    ensures
        is_told(
            st.found,
            walked(expr, st, cx).found,
            v,
            holds_within(expr, sure(v, cx)),
            holds_within(expr, possible(v, cx)),
        ),
    decreases expr, 0nat,
{
    assert(decreases_to!(expr => expr->Call_0));
    assert(decreases_to!(expr => expr->Call_1));
    match callee {
        ExprTree::FieldAccess(receiver, field) => {
            assert(decreases_to!(callee => *receiver));
            let target = walked(*receiver, unreported(st.env), cx);
            let rest = walked_list(args, args.len(), with_env(st, target.env), cx);
            let found = rest.found + target.found;
            lemma_walked_told(*receiver, unreported(st.env), cx, v);
            lemma_walked_list_told(args, args.len(), with_env(st, target.env), cx, v);
            lemma_in_both(rest.found, target.found, v);
            assert(holds_within(callee, sure(v, cx)) == holds_within(*receiver, sure(v, cx)));
            assert(holds_within(callee, possible(v, cx)) == holds_within(
                *receiver,
                possible(v, cx),
            ));
            if let Some(fault) = call_fault(*receiver, field, span, target.env, cx) {
                lemma_pushed(found, fault, v);
                if fault == v {
                    assert(may_report(expr, v, cx));
                }
            }
        },
        _ => {
            let target = walked(callee, unreported(st.env), cx);
            let rest = walked_list(args, args.len(), with_env(st, target.env), cx);
            lemma_walked_told(callee, unreported(st.env), cx, v);
            lemma_walked_list_told(args, args.len(), with_env(st, target.env), cx, v);
            lemma_in_both(rest.found, target.found, v);
        },
    }
}

proof fn lemma_walked_first_told(
    expr: ExprTree,
    n: nat,
    st: WalkState,
    cx: Setting,
    v: MethodViolationModel,
)
    requires
        n <= sub_exprs(expr).len(),
    ensures
        is_told(
            st.found,
            walked_first(expr, n, st, cx).found,
            v,
            exists|i: int| 0 <= i < n && holds_within(#[trigger] sub_exprs(expr)[i], sure(v, cx)),
            exists|i: int|
                0 <= i < n && holds_within(#[trigger] sub_exprs(expr)[i], possible(v, cx)),
        ),
    decreases expr, n,
{
    if n > 0 {
        lemma_sub_exprs_smaller(expr);
        let before = walked_first(expr, (n - 1) as nat, st, cx);
        lemma_walked_first_told(expr, (n - 1) as nat, st, cx, v);
        lemma_walked_told(sub_exprs(expr)[n - 1], before, cx, v);
    }
}

proof fn lemma_walked_list_told(
    exprs: Seq<ExprTree>,
    n: nat,
    st: WalkState,
    cx: Setting,
    v: MethodViolationModel,
)
    requires
        n <= exprs.len(),
    ensures
        is_told(
            st.found,
            walked_list(exprs, n, st, cx).found,
            v,
            exists|i: int| 0 <= i < n && holds_within(#[trigger] exprs[i], sure(v, cx)),
            exists|i: int| 0 <= i < n && holds_within(#[trigger] exprs[i], possible(v, cx)),
        ),
    decreases exprs, n,
{
    if n > 0 {
        let before = walked_list(exprs, (n - 1) as nat, st, cx);
        lemma_walked_list_told(exprs, (n - 1) as nat, st, cx, v);
        lemma_walked_told(exprs[n - 1], before, cx, v);
    }
}

pub(crate) proof fn lemma_walked_condition_told(
    condition: ConditionTree,
    st: WalkState,
    cx: Setting,
    v: MethodViolationModel,
)
    ensures
        is_told(
            st.found,
            walked_condition(condition, st, cx).found,
            v,
            holds_in_condition(condition, sure(v, cx)),
            holds_in_condition(condition, possible(v, cx)),
        ),
    decreases condition, 0nat,
{
    match condition {
        ConditionTree::Expr(expr) => lemma_walked_told(expr, st, cx, v),
        ConditionTree::Let(_, expr) => lemma_walked_told(expr, st, cx, v),
        ConditionTree::Other => {},
    }
}

proof fn lemma_walked_block_told(
    block: BlockTree,
    n: nat,
    st: WalkState,
    cx: Setting,
    v: MethodViolationModel,
)
    requires
        n <= block.statements.len(),
    ensures
        is_told(
            st.found,
            walked_block(block, n, st, cx).found,
            v,
            exists|i: int| 0 <= i < n && holds_in_stmt(#[trigger] block.statements[i], sure(v, cx)),
            exists|i: int|
                0 <= i < n && holds_in_stmt(#[trigger] block.statements[i], possible(v, cx)),
        ),
    decreases block, n,
{
    if n > 0 {
        let before = walked_block(block, (n - 1) as nat, st, cx);
        lemma_walked_block_told(block, (n - 1) as nat, st, cx, v);
        let last = block.statements[n - 1];
        assert(decreases_to!(block => block.statements));
        assert(decreases_to!(block.statements => block.statements[n - 1]));
        match last {
            StmtTree::Local(_, expr) => lemma_walked_told(expr, before, cx, v),
            StmtTree::Expr(expr) => lemma_walked_told(expr, before, cx, v),
            StmtTree::Semi(expr) => lemma_walked_told(expr, before, cx, v),
            StmtTree::Other => {},
        }
        assert(is_told(
            before.found,
            walked_block(block, n, st, cx).found,
            v,
            holds_in_stmt(block.statements[n - 1], sure(v, cx)),
            holds_in_stmt(block.statements[n - 1], possible(v, cx)),
        ));
    }
}

pub(crate) proof fn lemma_walked_scope_told(
    block: BlockTree,
    inner: TypesModel,
    st: WalkState,
    cx: Setting,
    v: MethodViolationModel,
)
    ensures
        is_told(
            st.found,
            walked_scope(block, inner, st, cx).found,
            v,
            holds_in_block(block, sure(v, cx)),
            holds_in_block(block, possible(v, cx)),
        ),
    decreases block, block.statements.len() + 1,
{
    lemma_walked_block_told(
        block,
        block.statements.len(),
        WalkState { env: inner, found: st.found },
        cx,
        v,
    );
}

pub(crate) open spec fn holds_in_branches(
    branches: Seq<(ConditionTree, BlockTree)>,
    n: nat,
    p: spec_fn(ExprTree) -> bool,
) -> bool {
    exists|i: int|
        0 <= i < n && (holds_in_condition((#[trigger] branches[i]).0, p) || holds_in_block(
            branches[i].1,
            p,
        ))
}

proof fn lemma_walked_branches_told(
    branches: Seq<(ConditionTree, BlockTree)>,
    n: nat,
    st: WalkState,
    cx: Setting,
    v: MethodViolationModel,
)
    requires
        n <= branches.len(),
    ensures
        is_told(
            st.found,
            walked_branches(branches, n, st, cx).found,
            v,
            holds_in_branches(branches, n, sure(v, cx)),
            holds_in_branches(branches, n, possible(v, cx)),
        ),
    decreases branches, n,
{
    if n > 0 {
        let before = walked_branches(branches, (n - 1) as nat, st, cx);
        lemma_walked_branches_told(branches, (n - 1) as nat, st, cx, v);
        let condition = branches[n - 1].0;
        let tested = walked_condition(condition, before, cx);
        lemma_walked_condition_told(condition, before, cx, v);
        let env = if n == 1 {
            tested.env
        } else {
            forget(before.env, assigned_in_condition(condition, cx.source))
        };
        lemma_walked_scope_told(
            branches[n - 1].1,
            bound_condition(condition, tested.env, cx),
            WalkState { env, found: tested.found },
            cx,
            v,
        );
    }
}

pub(crate) open spec fn holds_in_arms(
    arms: Seq<ArmTree>,
    n: nat,
    p: spec_fn(ExprTree) -> bool,
) -> bool {
    exists|i: int|
        0 <= i < n && (holds_within((#[trigger] arms[i]).body, p) || (
        arms[i].guard matches Some(guard) && holds_within(guard, p)))
}

pub(crate) proof fn lemma_walked_arms_told(
    arms: Seq<ArmTree>,
    n: nat,
    ty: Option<TypeModel>,
    st: WalkState,
    cx: Setting,
    v: MethodViolationModel,
)
    requires
        n <= arms.len(),
    ensures
        is_told(
            st.found,
            walked_arms(arms, n, ty, st, cx).found,
            v,
            holds_in_arms(arms, n, sure(v, cx)),
            holds_in_arms(arms, n, possible(v, cx)),
        ),
    decreases arms, n,
{
    if n > 0 {
        let before = walked_arms(arms, (n - 1) as nat, ty, st, cx);
        lemma_walked_arms_told(arms, (n - 1) as nat, ty, st, cx, v);
        let inner = WalkState {
            env: bound(arms[n - 1].pat, ty, before.env, cx.source),
            found: before.found,
        };
        assert(decreases_to!(arms => arms[n - 1]));
        match arms[n - 1].guard {
            Some(guard) => {
                lemma_walked_told(guard, inner, cx, v);
                lemma_walked_told(arms[n - 1].body, walked(guard, inner, cx), cx, v);
            },
            None => lemma_walked_told(arms[n - 1].body, inner, cx, v),
        }
    }
}

pub(crate) open spec fn holds_in_selects(
    arms: Seq<SelectTree>,
    n: nat,
    p: spec_fn(ExprTree) -> bool,
) -> bool {
    exists|i: int|
        0 <= i < n && (holds_within((#[trigger] arms[i]).body, p) || (
        arms[i].binding matches Some(binding) && holds_within(binding.1, p)))
}

proof fn lemma_walked_selects_told(
    arms: Seq<SelectTree>,
    n: nat,
    st: WalkState,
    cx: Setting,
    v: MethodViolationModel,
)
    requires
        n <= arms.len(),
    ensures
        is_told(
            st.found,
            walked_selects(arms, n, st, cx).found,
            v,
            holds_in_selects(arms, n, sure(v, cx)),
            holds_in_selects(arms, n, possible(v, cx)),
        ),
    decreases arms, n,
{
    if n > 0 {
        let before = walked_selects(arms, (n - 1) as nat, st, cx);
        lemma_walked_selects_told(arms, (n - 1) as nat, st, cx, v);
        assert(decreases_to!(arms => arms[n - 1]));
        match arms[n - 1].binding {
            Some(binding) => {
                lemma_walked_told(binding.1, before, cx, v);
                let inner = WalkState {
                    env: bound(binding.0, None, before.env, cx.source),
                    found: walked(binding.1, before, cx).found,
                };
                lemma_walked_told(arms[n - 1].body, inner, cx, v);
            },
            None => lemma_walked_told(arms[n - 1].body, before, cx, v),
        }
    }
}

/// A method call that is wrong whatever the variables are is reported,
/// wherever it stands in a function: in a condition, a guard, an argument or
/// a closure as well. And what is reported is a method call that stands in
/// the function and is wrong for some types of its variables.
pub proof fn wrong_calls_are_reported_wherever_they_stand(
    item: FnTree,
    contract: ContractModel,
    cx: Setting,
    v: MethodViolationModel,
)
    ensures
        cx.methods != Map::<Seq<char>, Map<Seq<char>, Option<TypeModel>>>::empty()
            && holds_in_block(item.body, sure(v, cx)) ==> missing_methods(
            item,
            contract,
            cx,
        ).contains(v),
        missing_methods(item, contract, cx).contains(v) ==> holds_in_block(
            item.body,
            possible(v, cx),
        ),
{
    if cx.methods != Map::<Seq<char>, Map<Seq<char>, Option<TypeModel>>>::empty() {
        let env = param_types(
            item.args,
            contract.params,
            min_len(item.args.len(), contract.params.len()),
            cx.source,
        );
        lemma_walked_block_told(
            item.body,
            item.body.statements.len(),
            WalkState { env, found: Seq::empty() },
            cx,
            v,
        );
    }
}

} // verus!
