//! The check of method calls.

use vstd::prelude::*;

use crate::ast_analyzer::single_of;
use crate::method_checker::{
    assigned_in, assigned_in_all, assigned_in_block, assigned_in_condition, assigned_in_first,
    assigned_name, bound, bound_args, bound_condition, bound_unknown, call_fault, forget,
    has_method, is_missing, is_universal, is_unwrapping, method_of, min_len, missing_methods,
    names_of_type, param_types, pattern_names, patterns_names, type_of, unreported, unwrapped_type,
    walked, walked_arms, walked_block, walked_branches, walked_condition, walked_first, walked_list,
    walked_scope, walked_selects, with_env, Setting, TypesModel, WalkState,
};
use crate::report::MethodViolationModel;
use crate::syntax::{
    arm_exprs, block_exprs, branch_exprs, condition_exprs, lemma_sub_exprs_smaller, optional_expr,
    sub_exprs, ArmTree, BlockTree, ConditionTree, ExprTree, FieldTree, FnTree, PatTree, SelectTree,
    Span, StmtTree,
};
use crate::text::join;
use crate::types::{ContractModel, MethodTable, TypeModel};

verus! {

// ---------------------------------------------------------------------------
// What is reported.
// ---------------------------------------------------------------------------

/// Whether a violation is justified: the host describes all types that the
/// receiver can have, and the method, which is not one of those that Rune
/// provides across types, exists on none of them.
pub open spec fn is_justified(v: MethodViolationModel, methods: MethodTable) -> bool {
    exists|names: Seq<Seq<char>>| #[trigger]
        is_missing(methods, names, v.method) && v.receiver == join(names, " | "@)
}

/// Whether a list has been added to, and only with justified violations.
spec fn grows(
    before: Seq<MethodViolationModel>,
    after: Seq<MethodViolationModel>,
    methods: MethodTable,
) -> bool {
    &&& before.len() <= after.len()
    &&& forall|i: int| 0 <= i < before.len() ==> after[i] == #[trigger] before[i]
    &&& forall|i: int|
        before.len() <= i < after.len() ==> is_justified(#[trigger] after[i], methods)
}

proof fn lemma_grows_further(
    a: Seq<MethodViolationModel>,
    b: Seq<MethodViolationModel>,
    c: Seq<MethodViolationModel>,
    methods: MethodTable,
)
    requires
        grows(a, b, methods),
        grows(b, c, methods),
    ensures
        grows(a, c, methods),
{
    assert forall|i: int| 0 <= i < a.len() implies c[i] == #[trigger] a[i] by {
        assert(b[i] == a[i]);
    }
    assert forall|i: int| a.len() <= i < c.len() implies is_justified(
        #[trigger] c[i],
        methods,
    ) by {
        if i < b.len() {
            assert(c[i] == b[i]);
        }
    }
}

proof fn lemma_grows_by(
    a: Seq<MethodViolationModel>,
    b: Seq<MethodViolationModel>,
    added: Seq<MethodViolationModel>,
    methods: MethodTable,
)
    requires
        grows(a, b, methods),
        grows(Seq::empty(), added, methods),
    ensures
        grows(a, b + added, methods),
{
    let all = b + added;
    assert forall|i: int| a.len() <= i < all.len() implies is_justified(
        #[trigger] all[i],
        methods,
    ) by {
        if i < b.len() {
            assert(all[i] == b[i]);
        } else {
            assert(all[i] == added[i - b.len()]);
        }
    }
    assert forall|i: int| 0 <= i < a.len() implies all[i] == #[trigger] a[i] by {
        assert(b[i] == a[i]);
    }
}

proof fn lemma_walked_grows(expr: ExprTree, st: WalkState, cx: Setting)
    ensures
        grows(st.found, walked(expr, st, cx).found, cx.methods),
    decreases expr, sub_exprs(expr).len() + 1,
{
    match expr {
        ExprTree::Call(callee, args, span) => {
            let called = match *callee {
                ExprTree::FieldAccess(receiver, _) => *receiver,
                _ => *callee,
            };
            let target = walked(called, unreported(st.env), cx);
            let rest = walked_list(args, args.len(), with_env(st, target.env), cx);
            let found = rest.found + target.found;
            match *callee {
                ExprTree::FieldAccess(receiver, _) => lemma_walked_grows(
                    *receiver,
                    unreported(st.env),
                    cx,
                ),
                _ => lemma_walked_grows(*callee, unreported(st.env), cx),
            }
            lemma_walked_list_grows(args, args.len(), with_env(st, target.env), cx);
            lemma_grows_by(st.found, rest.found, target.found, cx.methods);
            if let ExprTree::FieldAccess(receiver, field) = *callee {
                if let Some(fault) = call_fault(*receiver, field, span, target.env, cx) {
                    let t = type_of(*receiver, target.env, cx)->Some_0;
                    assert(is_missing(cx.methods, names_of_type(t), fault.method));
                    assert(is_justified(fault, cx.methods));
                    assert(grows(found, found.push(fault), cx.methods));
                    lemma_grows_further(st.found, found, found.push(fault), cx.methods);
                }
            }
        },
        ExprTree::Block(block) => lemma_walked_scope_grows(block, st.env, st, cx),
        ExprTree::If(branches, otherwise) => {
            let after = walked_branches(branches, branches.len(), st, cx);
            lemma_walked_branches_grow(branches, branches.len(), st, cx);
            if let Some(block) = otherwise {
                lemma_walked_scope_grows(block, after.env, after, cx);
                lemma_grows_further(
                    st.found,
                    after.found,
                    walked_scope(block, after.env, after, cx).found,
                    cx.methods,
                );
            }
        },
        ExprTree::Match(scrutinee, arms) => {
            let after = walked(*scrutinee, st, cx);
            lemma_walked_grows(*scrutinee, st, cx);
            let ty = type_of(*scrutinee, after.env, cx);
            lemma_walked_arms_grow(arms, arms.len(), ty, after, cx);
            lemma_grows_further(
                st.found,
                after.found,
                walked_arms(arms, arms.len(), ty, after, cx).found,
                cx.methods,
            );
        },
        ExprTree::Select(arms) => {
            let env = forget(st.env, assigned_in(expr, cx.source));
            lemma_walked_selects_grow(
                arms,
                arms.len(),
                WalkState { env, found: st.found },
                cx,
            );
        },
        ExprTree::Loop(body) => {
            let env = forget(st.env, assigned_in_block(body, cx.source));
            lemma_walked_scope_grows(body, env, WalkState { env, found: st.found }, cx);
        },
        ExprTree::While(condition, body) => {
            let after = walked_condition(*condition, st, cx);
            lemma_walked_condition_grows(*condition, st, cx);
            let env = forget(
                forget(after.env, assigned_in_condition(*condition, cx.source)),
                assigned_in_block(body, cx.source),
            );
            let inner = bound_condition(*condition, env, cx);
            let before = WalkState { env, found: after.found };
            lemma_walked_scope_grows(body, inner, before, cx);
            lemma_grows_further(
                st.found,
                after.found,
                walked_scope(body, inner, before, cx).found,
                cx.methods,
            );
        },
        ExprTree::For(pat, iter, body) => {
            let after = walked(*iter, st, cx);
            lemma_walked_grows(*iter, st, cx);
            let env = forget(after.env, assigned_in_block(body, cx.source));
            let inner = bound(pat, None, env, cx.source);
            let before = WalkState { env, found: after.found };
            lemma_walked_scope_grows(body, inner, before, cx);
            lemma_grows_further(
                st.found,
                after.found,
                walked_scope(body, inner, before, cx).found,
                cx.methods,
            );
        },
        ExprTree::Closure(args, body) => {
            let inner = bound_args(args, args.len(), st.env, cx.source);
            lemma_walked_grows(*body, WalkState { env: inner, found: st.found }, cx);
        },
        ExprTree::Logic(lhs, rhs) => {
            let after = walked(*lhs, st, cx);
            lemma_walked_grows(*lhs, st, cx);
            lemma_walked_grows(*rhs, after, cx);
            lemma_grows_further(
                st.found,
                after.found,
                walked(*rhs, after, cx).found,
                cx.methods,
            );
        },
        ExprTree::Assign(lhs, rhs) => {
            let target = walked(*lhs, unreported(st.env), cx);
            let value = walked(*rhs, with_env(st, target.env), cx);
            lemma_walked_grows(*lhs, unreported(st.env), cx);
            lemma_walked_grows(*rhs, with_env(st, target.env), cx);
            lemma_grows_by(st.found, value.found, target.found, cx.methods);
        },
        ExprTree::Let(pat, inner) => lemma_walked_grows(*inner, st, cx),
        _ => lemma_walked_first_grows(expr, sub_exprs(expr).len(), st, cx),
    }
}

proof fn lemma_walked_first_grows(expr: ExprTree, n: nat, st: WalkState, cx: Setting)
    ensures
        grows(st.found, walked_first(expr, n, st, cx).found, cx.methods),
    decreases expr, n,
{
    if n > 0 && n <= sub_exprs(expr).len() {
        lemma_sub_exprs_smaller(expr);
        let before = walked_first(expr, (n - 1) as nat, st, cx);
        lemma_walked_first_grows(expr, (n - 1) as nat, st, cx);
        lemma_walked_grows(sub_exprs(expr)[n - 1], before, cx);
        lemma_grows_further(
            st.found,
            before.found,
            walked(sub_exprs(expr)[n - 1], before, cx).found,
            cx.methods,
        );
    }
}

proof fn lemma_walked_list_grows(exprs: Seq<ExprTree>, n: nat, st: WalkState, cx: Setting)
    ensures
        grows(st.found, walked_list(exprs, n, st, cx).found, cx.methods),
    decreases exprs, n,
{
    if n > 0 && n <= exprs.len() {
        let before = walked_list(exprs, (n - 1) as nat, st, cx);
        lemma_walked_list_grows(exprs, (n - 1) as nat, st, cx);
        lemma_walked_grows(exprs[n - 1], before, cx);
        lemma_grows_further(
            st.found,
            before.found,
            walked(exprs[n - 1], before, cx).found,
            cx.methods,
        );
    }
}

proof fn lemma_walked_condition_grows(condition: ConditionTree, st: WalkState, cx: Setting)
    ensures
        grows(st.found, walked_condition(condition, st, cx).found, cx.methods),
    decreases condition, 0nat,
{
    match condition {
        ConditionTree::Expr(expr) => lemma_walked_grows(expr, st, cx),
        ConditionTree::Let(_, expr) => lemma_walked_grows(expr, st, cx),
        ConditionTree::Other => {},
    }
}

proof fn lemma_walked_block_grows(block: BlockTree, n: nat, st: WalkState, cx: Setting)
    ensures
        grows(st.found, walked_block(block, n, st, cx).found, cx.methods),
    decreases block, n,
{
    if n > 0 && n <= block.statements.len() {
        let before = walked_block(block, (n - 1) as nat, st, cx);
        lemma_walked_block_grows(block, (n - 1) as nat, st, cx);
        assert(decreases_to!(block => block.statements));
        assert(decreases_to!(block.statements => block.statements[n - 1]));
        match block.statements[n - 1] {
            StmtTree::Local(_, expr) => lemma_walked_grows(expr, before, cx),
            StmtTree::Expr(expr) => lemma_walked_grows(expr, before, cx),
            StmtTree::Semi(expr) => lemma_walked_grows(expr, before, cx),
            StmtTree::Other => {},
        }
        lemma_grows_further(
            st.found,
            before.found,
            walked_block(block, n, st, cx).found,
            cx.methods,
        );
    }
}

proof fn lemma_walked_scope_grows(
    block: BlockTree,
    inner: TypesModel,
    st: WalkState,
    cx: Setting,
)
    ensures
        grows(st.found, walked_scope(block, inner, st, cx).found, cx.methods),
    decreases block, block.statements.len() + 1,
{
    lemma_walked_block_grows(
        block,
        block.statements.len(),
        WalkState { env: inner, found: st.found },
        cx,
    );
}

proof fn lemma_walked_branches_grow(
    branches: Seq<(ConditionTree, BlockTree)>,
    n: nat,
    st: WalkState,
    cx: Setting,
)
    ensures
        grows(st.found, walked_branches(branches, n, st, cx).found, cx.methods),
    decreases branches, n,
{
    if n > 0 && n <= branches.len() {
        let before = walked_branches(branches, (n - 1) as nat, st, cx);
        lemma_walked_branches_grow(branches, (n - 1) as nat, st, cx);
        let (condition, block) = branches[n - 1];
        assert(decreases_to!(branches => branches[n - 1]));
        let tested = walked_condition(branches[n - 1].0, before, cx);
        lemma_walked_condition_grows(branches[n - 1].0, before, cx);
        let env = if n == 1 {
            tested.env
        } else {
            forget(before.env, assigned_in_condition(condition, cx.source))
        };
        let inner = bound_condition(condition, tested.env, cx);
        let scope = WalkState { env, found: tested.found };
        lemma_walked_scope_grows(branches[n - 1].1, inner, scope, cx);
        lemma_grows_further(st.found, before.found, tested.found, cx.methods);
        lemma_grows_further(
            st.found,
            tested.found,
            walked_scope(branches[n - 1].1, inner, scope, cx).found,
            cx.methods,
        );
    }
}

proof fn lemma_walked_arms_grow(
    arms: Seq<ArmTree>,
    n: nat,
    ty: Option<TypeModel>,
    st: WalkState,
    cx: Setting,
)
    ensures
        grows(st.found, walked_arms(arms, n, ty, st, cx).found, cx.methods),
    decreases arms, n,
{
    if n > 0 && n <= arms.len() {
        let before = walked_arms(arms, (n - 1) as nat, ty, st, cx);
        lemma_walked_arms_grow(arms, (n - 1) as nat, ty, st, cx);
        let inner = WalkState {
            env: bound(arms[n - 1].pat, ty, before.env, cx.source),
            found: before.found,
        };
        assert(decreases_to!(arms => arms[n - 1]));
        match arms[n - 1].guard {
            Some(guard) => {
                assert(decreases_to!(arms[n - 1] => arms[n - 1].guard));
                let guarded = walked(guard, inner, cx);
                lemma_walked_grows(guard, inner, cx);
                lemma_walked_grows(arms[n - 1].body, guarded, cx);
                lemma_grows_further(st.found, before.found, guarded.found, cx.methods);
                lemma_grows_further(
                    st.found,
                    guarded.found,
                    walked(arms[n - 1].body, guarded, cx).found,
                    cx.methods,
                );
            },
            None => {
                lemma_walked_grows(arms[n - 1].body, inner, cx);
                lemma_grows_further(
                    st.found,
                    before.found,
                    walked(arms[n - 1].body, inner, cx).found,
                    cx.methods,
                );
            },
        }
    }
}

proof fn lemma_walked_selects_grow(arms: Seq<SelectTree>, n: nat, st: WalkState, cx: Setting)
    ensures
        grows(st.found, walked_selects(arms, n, st, cx).found, cx.methods),
    decreases arms, n,
{
    if n > 0 && n <= arms.len() {
        let before = walked_selects(arms, (n - 1) as nat, st, cx);
        lemma_walked_selects_grow(arms, (n - 1) as nat, st, cx);
        assert(decreases_to!(arms => arms[n - 1]));
        let inner = match arms[n - 1].binding {
            Some(binding) => WalkState {
                env: bound(binding.0, None, before.env, cx.source),
                found: walked(binding.1, before, cx).found,
            },
            None => before,
        };
        if let Some(binding) = arms[n - 1].binding {
            assert(decreases_to!(arms[n - 1] => arms[n - 1].binding));
            assert(decreases_to!(arms[n - 1].binding => arms[n - 1].binding->Some_0));
            lemma_walked_grows(binding.1, before, cx);
            lemma_grows_further(st.found, before.found, inner.found, cx.methods);
        }
        lemma_walked_grows(arms[n - 1].body, inner, cx);
        lemma_grows_further(
            st.found,
            inner.found,
            walked(arms[n - 1].body, inner, cx).found,
            cx.methods,
        );
    }
}

/// No false reports: a call is reported only where the host describes all
/// types that its receiver can have, and the method exists on none of them.
pub proof fn reported_calls_are_justified(
    item: FnTree,
    contract: ContractModel,
    cx: Setting,
    at: int,
)
    requires
        0 <= at < missing_methods(item, contract, cx).len(),
    ensures
        is_justified(missing_methods(item, contract, cx)[at], cx.methods),
{
    let env = param_types(
        item.args,
        contract.params,
        min_len(item.args.len(), contract.params.len()),
        cx.source,
    );
    lemma_walked_block_grows(
        item.body,
        item.body.statements.len(),
        WalkState { env, found: Seq::empty() },
        cx,
    );
}

/// A call is passed over where the type of its receiver is unknown, where the
/// host does not describe a type that the receiver can have, where one of
/// them has the method, and where Rune provides the method across types.
pub proof fn doubtful_calls_are_passed_over(
    receiver: ExprTree,
    field: FieldTree,
    span: Span,
    env: TypesModel,
    cx: Setting,
)
    requires
        match (method_of(field, cx.source), type_of(receiver, env, cx)) {
            (Some(method), Some(t)) => {
                ||| is_universal(method)
                ||| exists|i: int|
                    0 <= i < names_of_type(t).len() && !cx.methods.contains_key(
                        #[trigger] names_of_type(t)[i],
                    )
                ||| exists|i: int|
                    0 <= i < names_of_type(t).len() && has_method(
                        cx.methods,
                        #[trigger] names_of_type(t)[i],
                        method,
                    )
            },
            _ => true,
        },
    ensures
        call_fault(receiver, field, span, env, cx) is None,
{
}

/// Without a method table nothing is reported.
pub proof fn empty_tables_report_nothing(item: FnTree, contract: ContractModel, cx: Setting)
    requires
        cx.methods == Map::<Seq<char>, Map<Seq<char>, Option<TypeModel>>>::empty(),
    ensures
        missing_methods(item, contract, cx).len() == 0,
{
}

// ---------------------------------------------------------------------------
// What is known after a walk.
// ---------------------------------------------------------------------------

/// Whether a variable is assigned in a part of an expression that may not
/// run, or may run more than once: a block, a branch, the right operand of
/// `&&` or `||`, the condition of a branch that is not the first, the body or
/// the condition of a loop, the guard or the body of an arm, a closure.
pub open spec fn is_assigned_in_doubt(expr: ExprTree, name: Seq<char>, source: Seq<char>) -> bool {
    match expr {
        ExprTree::Block(block) => assigned_in_block(block, source).contains(name),
        ExprTree::If(branches, otherwise) => {
            ||| exists|k: int|
                0 <= k < branches.len() && assigned_in_block(
                    (#[trigger] branches[k]).1,
                    source,
                ).contains(name)
            ||| exists|k: int|
                1 <= k < branches.len() && assigned_in_condition(
                    (#[trigger] branches[k]).0,
                    source,
                ).contains(name)
            ||| otherwise matches Some(block) && assigned_in_block(block, source).contains(name)
        },
        ExprTree::Match(_, arms) => exists|k: int|
            0 <= k < arms.len() && is_assigned_in_arm(#[trigger] arms[k], name, source),
        ExprTree::Select(_) => assigned_in(expr, source).contains(name),
        ExprTree::Loop(body) => assigned_in_block(body, source).contains(name),
        ExprTree::While(condition, body) => {
            ||| assigned_in_condition(*condition, source).contains(name)
            ||| assigned_in_block(body, source).contains(name)
        },
        ExprTree::For(_, _, body) => assigned_in_block(body, source).contains(name),
        ExprTree::Closure(_, body) => assigned_in(*body, source).contains(name),
        ExprTree::Logic(_, rhs) => assigned_in(*rhs, source).contains(name),
        _ => false,
    }
}

/// Whether a variable is assigned in the guard or the body of an arm.
pub open spec fn is_assigned_in_arm(arm: ArmTree, name: Seq<char>, source: Seq<char>) -> bool {
    ||| arm.guard matches Some(guard) && assigned_in(guard, source).contains(name)
    ||| assigned_in(arm.body, source).contains(name)
}

proof fn lemma_branches_forget(
    branches: Seq<(ConditionTree, BlockTree)>,
    n: nat,
    k: int,
    name: Seq<char>,
    st: WalkState,
    cx: Setting,
)
    requires
        0 <= k < n <= branches.len(),
        assigned_in_block(branches[k].1, cx.source).contains(name) || (k > 0
            && assigned_in_condition(branches[k].0, cx.source).contains(name)),
    ensures
        !walked_branches(branches, n, st, cx).env.contains_key(name),
    decreases n,
{
    let before = walked_branches(branches, (n - 1) as nat, st, cx);
    let (condition, block) = branches[n - 1];
    let tested = walked_condition(branches[n - 1].0, before, cx);
    let env = if n == 1 {
        tested.env
    } else {
        forget(before.env, assigned_in_condition(condition, cx.source))
    };
    assert(walked_branches(branches, n, st, cx).env == walked_scope(
        branches[n - 1].1,
        bound_condition(condition, tested.env, cx),
        WalkState { env, found: tested.found },
        cx,
    ).env);
    if k < n - 1 {
        lemma_branches_forget(branches, (n - 1) as nat, k, name, st, cx);
    }
}

proof fn lemma_arms_forget(
    arms: Seq<ArmTree>,
    n: nat,
    k: int,
    name: Seq<char>,
    ty: Option<TypeModel>,
    st: WalkState,
    cx: Setting,
)
    requires
        0 <= k < n <= arms.len(),
        is_assigned_in_arm(arms[k], name, cx.source),
    ensures
        !walked_arms(arms, n, ty, st, cx).env.contains_key(name),
    decreases n,
{
    if k < n - 1 {
        lemma_arms_forget(arms, (n - 1) as nat, k, name, ty, st, cx);
    }
}

proof fn lemma_selects_keep(arms: Seq<SelectTree>, n: nat, st: WalkState, cx: Setting)
    ensures
        walked_selects(arms, n, st, cx).env == st.env,
    decreases n,
{
    if n > 0 && n <= arms.len() {
        lemma_selects_keep(arms, (n - 1) as nat, st, cx);
    }
}

/// The type of a variable that is assigned where it is in doubt whether, or
/// how often, the assignment runs is unknown afterwards.
pub proof fn doubtful_assignments_are_forgotten(
    expr: ExprTree,
    name: Seq<char>,
    st: WalkState,
    cx: Setting,
)
    requires
        is_assigned_in_doubt(expr, name, cx.source),
    ensures
        !walked(expr, st, cx).env.contains_key(name),
{
    match expr {
        ExprTree::If(branches, otherwise) => {
            let n = branches.len();
            if exists|k: int|
                0 <= k < branches.len() && assigned_in_block(
                    (#[trigger] branches[k]).1,
                    cx.source,
                ).contains(name) {
                let k = choose|k: int|
                    0 <= k < branches.len() && assigned_in_block(
                        (#[trigger] branches[k]).1,
                        cx.source,
                    ).contains(name);
                lemma_branches_forget(branches, n, k, name, st, cx);
            } else if exists|k: int|
                1 <= k < branches.len() && assigned_in_condition(
                    (#[trigger] branches[k]).0,
                    cx.source,
                ).contains(name) {
                let k = choose|k: int|
                    1 <= k < branches.len() && assigned_in_condition(
                        (#[trigger] branches[k]).0,
                        cx.source,
                    ).contains(name);
                lemma_branches_forget(branches, n, k, name, st, cx);
            }
            let after = walked_branches(branches, n, st, cx);
            if let Some(block) = otherwise {
                assert(walked(expr, st, cx) == walked_scope(block, after.env, after, cx));
            }
        },
        ExprTree::Match(scrutinee, arms) => {
            let k = choose|k: int|
                0 <= k < arms.len() && is_assigned_in_arm(#[trigger] arms[k], name, cx.source);
            let after = walked(*scrutinee, st, cx);
            lemma_arms_forget(
                arms,
                arms.len(),
                k,
                name,
                type_of(*scrutinee, after.env, cx),
                after,
                cx,
            );
        },
        ExprTree::Select(arms) => {
            let env = forget(st.env, assigned_in(expr, cx.source));
            lemma_selects_keep(arms, arms.len(), WalkState { env, found: st.found }, cx);
        },
        ExprTree::Block(block) => {
            assert(walked(expr, st, cx) == walked_scope(block, st.env, st, cx));
        },
        ExprTree::Loop(body) => {
            let env = forget(st.env, assigned_in_block(body, cx.source));
            let before = WalkState { env, found: st.found };
            assert(walked(expr, st, cx) == walked_scope(body, env, before, cx));
        },
        ExprTree::While(condition, body) => {
            let after = walked_condition(*condition, st, cx);
            let env = forget(
                forget(after.env, assigned_in_condition(*condition, cx.source)),
                assigned_in_block(body, cx.source),
            );
            let inner = bound_condition(*condition, env, cx);
            let before = WalkState { env, found: after.found };
            assert(walked(expr, st, cx) == walked_scope(body, inner, before, cx));
        },
        ExprTree::For(pat, iter, body) => {
            let after = walked(*iter, st, cx);
            let env = forget(after.env, assigned_in_block(body, cx.source));
            let inner = bound(pat, None, env, cx.source);
            let before = WalkState { env, found: after.found };
            assert(walked(expr, st, cx) == walked_scope(body, inner, before, cx));
        },
        _ => {},
    }
}

/// Whether an expression gives a variable a new value itself.
pub open spec fn touches(expr: ExprTree, name: Seq<char>, source: Seq<char>) -> bool {
    match expr {
        ExprTree::Assign(lhs, _) => assigned_name(*lhs, source) == Some(name),
        ExprTree::Let(pat, _) => pattern_names(pat, source).contains(name),
        _ => false,
    }
}

/// Whether nothing in an expression gives a variable a new value.
pub open spec fn leaves_alone(expr: ExprTree, name: Seq<char>, source: Seq<char>) -> bool
    decreases expr,
{
    proof {
        lemma_sub_exprs_smaller(expr);
    }
    !touches(expr, name, source) && forall|i: int|
        #![trigger sub_exprs(expr)[i]]
        0 <= i < sub_exprs(expr).len() ==> leaves_alone(sub_exprs(expr)[i], name, source)
}

/// Whether nothing in a list of expressions gives a variable a new value.
spec fn all_leave_alone(exprs: Seq<ExprTree>, name: Seq<char>, source: Seq<char>) -> bool {
    forall|i: int| 0 <= i < exprs.len() ==> leaves_alone(#[trigger] exprs[i], name, source)
}

/// Whether the same is known of a variable.
pub open spec fn same_type_known(a: TypesModel, b: TypesModel, name: Seq<char>) -> bool {
    &&& a.contains_key(name) == b.contains_key(name)
    &&& a.contains_key(name) ==> a[name] == b[name]
}

proof fn lemma_alone_is_unassigned(expr: ExprTree, name: Seq<char>, source: Seq<char>)
    requires
        leaves_alone(expr, name, source),
    ensures
        !assigned_in(expr, source).contains(name),
    decreases expr, sub_exprs(expr).len() + 1,
{
    lemma_alone_is_unassigned_first(expr, sub_exprs(expr).len(), name, source);
    if assigned_in(expr, source).contains(name) {
        let all = assigned_in(expr, source);
        let within = assigned_in_first(expr, sub_exprs(expr).len(), source);
        let k = choose|k: int| 0 <= k < all.len() && all[k] == name;
        if all.len() == within.len() {
            assert(within[k] == name);
        } else {
            assert(k > 0);
            assert(within[k - 1] == name);
        }
    }
}

proof fn lemma_alone_is_unassigned_first(
    expr: ExprTree,
    n: nat,
    name: Seq<char>,
    source: Seq<char>,
)
    requires
        leaves_alone(expr, name, source),
        n <= sub_exprs(expr).len(),
    ensures
        !assigned_in_first(expr, n, source).contains(name),
    decreases expr, n,
{
    if n > 0 {
        lemma_sub_exprs_smaller(expr);
        let before = assigned_in_first(expr, (n - 1) as nat, source);
        let last = assigned_in(sub_exprs(expr)[n - 1], source);
        lemma_alone_is_unassigned_first(expr, (n - 1) as nat, name, source);
        lemma_alone_is_unassigned(sub_exprs(expr)[n - 1], name, source);
        lemma_not_in_both(before, last, name);
    }
}

proof fn lemma_not_in_both(a: Seq<Seq<char>>, b: Seq<Seq<char>>, name: Seq<char>)
    requires
        !a.contains(name),
        !b.contains(name),
    ensures
        !(a + b).contains(name),
{
    if (a + b).contains(name) {
        let k = choose|k: int| 0 <= k < (a + b).len() && (a + b)[k] == name;
        if k < a.len() {
            assert(a[k] == name);
        } else {
            assert(b[k - a.len()] == name);
        }
    }
}

proof fn lemma_all_alone_are_unassigned(
    exprs: Seq<ExprTree>,
    n: nat,
    name: Seq<char>,
    source: Seq<char>,
)
    requires
        all_leave_alone(exprs, name, source),
        n <= exprs.len(),
    ensures
        !assigned_in_all(exprs, n, source).contains(name),
    decreases n,
{
    if n > 0 {
        lemma_all_alone_are_unassigned(exprs, (n - 1) as nat, name, source);
        assert(leaves_alone(exprs[n - 1], name, source));
        lemma_alone_is_unassigned(exprs[n - 1], name, source);
        lemma_not_in_both(
            assigned_in_all(exprs, (n - 1) as nat, source),
            assigned_in(exprs[n - 1], source),
            name,
        );
    }
}

/// The parts of a list are left alone where the whole list is.
proof fn lemma_parts_left_alone(
    a: Seq<ExprTree>,
    b: Seq<ExprTree>,
    name: Seq<char>,
    source: Seq<char>,
)
    requires
        all_leave_alone(a + b, name, source),
    ensures
        all_leave_alone(a, name, source),
        all_leave_alone(b, name, source),
{
    assert forall|i: int| 0 <= i < a.len() implies leaves_alone(#[trigger] a[i], name, source) by {
        assert((a + b)[i] == a[i]);
    }
    assert forall|i: int| 0 <= i < b.len() implies leaves_alone(#[trigger] b[i], name, source) by {
        assert((a + b)[a.len() + i] == b[i]);
    }
}

/// A pattern that does not bind a variable leaves it alone.
pub(crate) proof fn lemma_bound_keeps(
    pat: PatTree,
    ty: Option<TypeModel>,
    env: TypesModel,
    name: Seq<char>,
    source: Seq<char>,
)
    requires
        !pattern_names(pat, source).contains(name),
    ensures
        same_type_known(env, bound(pat, ty, env, source), name),
    decreases pat, 0nat,
{
    match pat {
        PatTree::Path(path) => {
            if let Some(other) = single_of(path, source) {
                assert(pattern_names(pat, source)[0] == other);
            }
        },
        PatTree::Tuple(path, items) => {
            let names = patterns_names(items, items.len(), source);
            assert(pattern_names(pat, source) == names);
            if is_unwrapping(path, source) && items.len() == 1 {
                assert(patterns_names(items, 0, source) =~= Seq::empty());
                assert(names =~= pattern_names(items[0], source));
                lemma_bound_keeps(items[0], unwrapped_type(ty), env, name, source);
            } else if is_unwrapping(path, source) {
                lemma_bound_unknown_keeps(items, items.len(), env, name, source);
            }
        },
        _ => {},
    }
}

proof fn lemma_bound_unknown_keeps(
    pats: Seq<PatTree>,
    n: nat,
    env: TypesModel,
    name: Seq<char>,
    source: Seq<char>,
)
    requires
        n <= pats.len(),
        !patterns_names(pats, n, source).contains(name),
    ensures
        same_type_known(env, bound_unknown(pats, n, env, source), name),
    decreases pats, n,
{
    if n > 0 {
        let before = patterns_names(pats, (n - 1) as nat, source);
        let last = pattern_names(pats[n - 1], source);
        let all = patterns_names(pats, n, source);
        assert(all == before + last);
        assert(!before.contains(name) && !last.contains(name)) by {
            if before.contains(name) {
                let k = choose|k: int| 0 <= k < before.len() && before[k] == name;
                assert(all[k] == name);
            }
            if last.contains(name) {
                let k = choose|k: int| 0 <= k < last.len() && last[k] == name;
                assert(all[before.len() + k] == name);
            }
        }
        lemma_bound_unknown_keeps(pats, (n - 1) as nat, env, name, source);
        lemma_bound_keeps(
            pats[n - 1],
            None,
            bound_unknown(pats, (n - 1) as nat, env, source),
            name,
            source,
        );
    }
}

/// A block that leaves a variable alone does not make it unknown.
proof fn lemma_scope_keeps(
    block: BlockTree,
    inner: TypesModel,
    name: Seq<char>,
    st: WalkState,
    cx: Setting,
)
    requires
        all_leave_alone(block_exprs(block), name, cx.source),
    ensures
        same_type_known(st.env, walked_scope(block, inner, st, cx).env, name),
{
    lemma_all_alone_are_unassigned(
        block_exprs(block),
        block_exprs(block).len(),
        name,
        cx.source,
    );
}

/// The branches of an `if` are left alone one by one.
proof fn lemma_branches_left_alone(
    branches: Seq<(ConditionTree, BlockTree)>,
    n: nat,
    name: Seq<char>,
    source: Seq<char>,
)
    requires
        n <= branches.len(),
        all_leave_alone(branch_exprs(branches, n), name, source),
    ensures
        forall|k: int|
            0 <= k < n ==> all_leave_alone(
                condition_exprs((#[trigger] branches[k]).0),
                name,
                source,
            ) && all_leave_alone(block_exprs(branches[k].1), name, source),
    decreases n,
{
    if n > 0 {
        let before = branch_exprs(branches, (n - 1) as nat);
        let condition = condition_exprs(branches[n - 1].0);
        let block = block_exprs(branches[n - 1].1);
        lemma_parts_left_alone(before + condition, block, name, source);
        lemma_parts_left_alone(before, condition, name, source);
        lemma_branches_left_alone(branches, (n - 1) as nat, name, source);
    }
}

/// The arms of a `match` are left alone one by one.
proof fn lemma_arms_left_alone(arms: Seq<ArmTree>, n: nat, name: Seq<char>, source: Seq<char>)
    requires
        n <= arms.len(),
        all_leave_alone(arm_exprs(arms, n), name, source),
    ensures
        forall|k: int|
            0 <= k < n ==> all_leave_alone(
                optional_expr((#[trigger] arms[k]).guard),
                name,
                source,
            ) && leaves_alone(arms[k].body, name, source),
    decreases n,
{
    if n > 0 {
        let before = arm_exprs(arms, (n - 1) as nat);
        let guard = optional_expr(arms[n - 1].guard);
        let body = seq![arms[n - 1].body];
        lemma_parts_left_alone(before + guard, body, name, source);
        lemma_parts_left_alone(before, guard, name, source);
        assert(leaves_alone(body[0], name, source));
        lemma_arms_left_alone(arms, (n - 1) as nat, name, source);
    }
}

/// A variable that an expression gives no new value keeps its type.
pub proof fn other_variables_keep_their_types(
    expr: ExprTree,
    name: Seq<char>,
    st: WalkState,
    cx: Setting,
)
    requires
        leaves_alone(expr, name, cx.source),
    ensures
        same_type_known(st.env, walked(expr, st, cx).env, name),
    decreases expr, sub_exprs(expr).len() + 1,
{
    let parts = sub_exprs(expr);
    lemma_sub_exprs_smaller(expr);
    assert(all_leave_alone(parts, name, cx.source));
    match expr {
        ExprTree::Call(callee, args, span) => {
            lemma_parts_left_alone(seq![*callee], args, name, cx.source);
            assert(leaves_alone(seq![*callee][0], name, cx.source));
            match *callee {
                ExprTree::FieldAccess(receiver, field) => {
                    assert(sub_exprs(*callee)[0] == *receiver);
                    let target = walked(*receiver, unreported(st.env), cx);
                    other_variables_keep_their_types(*receiver, name, unreported(st.env), cx);
                    lemma_walked_list_keeps(
                        args,
                        args.len(),
                        name,
                        with_env(st, target.env),
                        cx,
                    );
                },
                _ => {
                    let target = walked(*callee, unreported(st.env), cx);
                    other_variables_keep_their_types(*callee, name, unreported(st.env), cx);
                    lemma_walked_list_keeps(
                        args,
                        args.len(),
                        name,
                        with_env(st, target.env),
                        cx,
                    );
                },
            }
        },
        ExprTree::Block(block) => lemma_scope_keeps(block, st.env, name, st, cx),
        ExprTree::If(branches, otherwise) => {
            let last = match otherwise {
                Some(block) => block_exprs(block),
                None => Seq::empty(),
            };
            lemma_parts_left_alone(
                branch_exprs(branches, branches.len()),
                last,
                name,
                cx.source,
            );
            let after = walked_branches(branches, branches.len(), st, cx);
            lemma_branches_left_alone(branches, branches.len(), name, cx.source);
            lemma_walked_branches_keep(branches, branches.len(), name, st, cx);
            if let Some(block) = otherwise {
                lemma_scope_keeps(block, after.env, name, after, cx);
                assert(walked(expr, st, cx) == walked_scope(block, after.env, after, cx));
            }
        },
        ExprTree::Match(scrutinee, arms) => {
            lemma_parts_left_alone(
                seq![*scrutinee],
                arm_exprs(arms, arms.len()),
                name,
                cx.source,
            );
            assert(leaves_alone(seq![*scrutinee][0], name, cx.source));
            other_variables_keep_their_types(*scrutinee, name, st, cx);
            let after = walked(*scrutinee, st, cx);
            lemma_arms_left_alone(arms, arms.len(), name, cx.source);
            lemma_walked_arms_keep(
                arms,
                arms.len(),
                name,
                type_of(*scrutinee, after.env, cx),
                after,
                cx,
            );
        },
        ExprTree::Select(arms) => {
            lemma_alone_is_unassigned(expr, name, cx.source);
            let env = forget(st.env, assigned_in(expr, cx.source));
            lemma_selects_keep(arms, arms.len(), WalkState { env, found: st.found }, cx);
        },
        ExprTree::Loop(body) => {
            let env = forget(st.env, assigned_in_block(body, cx.source));
            let before = WalkState { env, found: st.found };
            lemma_all_alone_are_unassigned(parts, parts.len(), name, cx.source);
            lemma_scope_keeps(body, env, name, before, cx);
            assert(walked(expr, st, cx) == walked_scope(body, env, before, cx));
        },
        ExprTree::While(condition, body) => {
            let tested = condition_exprs(*condition);
            let repeated = block_exprs(body);
            lemma_parts_left_alone(tested, repeated, name, cx.source);
            lemma_walked_condition_keeps(*condition, name, st, cx);
            lemma_all_alone_are_unassigned(tested, tested.len(), name, cx.source);
            lemma_all_alone_are_unassigned(repeated, repeated.len(), name, cx.source);
            let after = walked_condition(*condition, st, cx);
            let env = forget(
                forget(after.env, assigned_in_condition(*condition, cx.source)),
                assigned_in_block(body, cx.source),
            );
            let inner = bound_condition(*condition, env, cx);
            let before = WalkState { env, found: after.found };
            lemma_scope_keeps(body, inner, name, before, cx);
            assert(walked(expr, st, cx) == walked_scope(body, inner, before, cx));
        },
        ExprTree::For(pat, iter, body) => {
            let repeated = block_exprs(body);
            lemma_parts_left_alone(seq![*iter], repeated, name, cx.source);
            assert(leaves_alone(seq![*iter][0], name, cx.source));
            lemma_all_alone_are_unassigned(repeated, repeated.len(), name, cx.source);
            other_variables_keep_their_types(*iter, name, st, cx);
            let after = walked(*iter, st, cx);
            let env = forget(after.env, assigned_in_block(body, cx.source));
            let inner = bound(pat, None, env, cx.source);
            let before = WalkState { env, found: after.found };
            lemma_scope_keeps(body, inner, name, before, cx);
            assert(walked(expr, st, cx) == walked_scope(body, inner, before, cx));
        },
        ExprTree::Closure(args, body) => {
            assert(leaves_alone(parts[0], name, cx.source));
            lemma_alone_is_unassigned(*body, name, cx.source);
        },
        ExprTree::Logic(lhs, rhs) => {
            assert(parts[0] == *lhs && parts[1] == *rhs);
            other_variables_keep_their_types(*lhs, name, st, cx);
            lemma_alone_is_unassigned(*rhs, name, cx.source);
        },
        ExprTree::Assign(lhs, rhs) => {
            assert(parts[0] == *lhs && parts[1] == *rhs);
            let target = walked(*lhs, unreported(st.env), cx);
            other_variables_keep_their_types(*lhs, name, unreported(st.env), cx);
            other_variables_keep_their_types(*rhs, name, with_env(st, target.env), cx);
        },
        ExprTree::Let(pat, inner) => {
            assert(parts[0] == *inner);
            other_variables_keep_their_types(*inner, name, st, cx);
            let after = walked(*inner, st, cx);
            lemma_bound_keeps(pat, type_of(*inner, after.env, cx), after.env, name, cx.source);
        },
        _ => lemma_walked_first_keeps(expr, parts.len(), name, st, cx),
    }
}

proof fn lemma_walked_first_keeps(
    expr: ExprTree,
    n: nat,
    name: Seq<char>,
    st: WalkState,
    cx: Setting,
)
    requires
        leaves_alone(expr, name, cx.source),
    ensures
        same_type_known(st.env, walked_first(expr, n, st, cx).env, name),
    decreases expr, n,
{
    if n > 0 && n <= sub_exprs(expr).len() {
        lemma_sub_exprs_smaller(expr);
        let before = walked_first(expr, (n - 1) as nat, st, cx);
        lemma_walked_first_keeps(expr, (n - 1) as nat, name, st, cx);
        other_variables_keep_their_types(sub_exprs(expr)[n - 1], name, before, cx);
    }
}

proof fn lemma_walked_list_keeps(
    exprs: Seq<ExprTree>,
    n: nat,
    name: Seq<char>,
    st: WalkState,
    cx: Setting,
)
    requires
        all_leave_alone(exprs, name, cx.source),
    ensures
        same_type_known(st.env, walked_list(exprs, n, st, cx).env, name),
    decreases exprs, n,
{
    if n > 0 && n <= exprs.len() {
        let before = walked_list(exprs, (n - 1) as nat, st, cx);
        lemma_walked_list_keeps(exprs, (n - 1) as nat, name, st, cx);
        assert(leaves_alone(exprs[n - 1], name, cx.source));
        other_variables_keep_their_types(exprs[n - 1], name, before, cx);
    }
}

proof fn lemma_walked_condition_keeps(
    condition: ConditionTree,
    name: Seq<char>,
    st: WalkState,
    cx: Setting,
)
    requires
        all_leave_alone(condition_exprs(condition), name, cx.source),
    ensures
        same_type_known(st.env, walked_condition(condition, st, cx).env, name),
    decreases condition, 0nat,
{
    let exprs = condition_exprs(condition);
    if exprs.len() > 0 {
        assert(leaves_alone(exprs[0], name, cx.source));
        match condition {
            ConditionTree::Expr(expr) => other_variables_keep_their_types(expr, name, st, cx),
            ConditionTree::Let(_, expr) => other_variables_keep_their_types(expr, name, st, cx),
            ConditionTree::Other => {},
        }
    }
}

proof fn lemma_walked_branches_keep(
    branches: Seq<(ConditionTree, BlockTree)>,
    n: nat,
    name: Seq<char>,
    st: WalkState,
    cx: Setting,
)
    requires
        n <= branches.len(),
        forall|k: int|
            0 <= k < branches.len() ==> all_leave_alone(
                condition_exprs((#[trigger] branches[k]).0),
                name,
                cx.source,
            ) && all_leave_alone(block_exprs(branches[k].1), name, cx.source),
    ensures
        same_type_known(st.env, walked_branches(branches, n, st, cx).env, name),
    decreases branches, n,
{
    if n > 0 {
        let before = walked_branches(branches, (n - 1) as nat, st, cx);
        lemma_walked_branches_keep(branches, (n - 1) as nat, name, st, cx);
        let (condition, block) = branches[n - 1];
        let exprs = condition_exprs(condition);
        assert(decreases_to!(branches => branches[n - 1]));
        let tested = walked_condition(branches[n - 1].0, before, cx);
        lemma_walked_condition_keeps(branches[n - 1].0, name, before, cx);
        lemma_all_alone_are_unassigned(exprs, exprs.len(), name, cx.source);
        let env = if n == 1 {
            tested.env
        } else {
            forget(before.env, assigned_in_condition(condition, cx.source))
        };
        let inner = bound_condition(condition, tested.env, cx);
        let scope = WalkState { env, found: tested.found };
        lemma_scope_keeps(block, inner, name, scope, cx);
        assert(walked_branches(branches, n, st, cx) == walked_scope(
            branches[n - 1].1,
            inner,
            scope,
            cx,
        ));
    }
}

proof fn lemma_walked_arms_keep(
    arms: Seq<ArmTree>,
    n: nat,
    name: Seq<char>,
    ty: Option<TypeModel>,
    st: WalkState,
    cx: Setting,
)
    requires
        n <= arms.len(),
        forall|k: int|
            0 <= k < arms.len() ==> all_leave_alone(
                optional_expr((#[trigger] arms[k]).guard),
                name,
                cx.source,
            ) && leaves_alone(arms[k].body, name, cx.source),
    ensures
        same_type_known(st.env, walked_arms(arms, n, ty, st, cx).env, name),
    decreases n,
{
    if n > 0 {
        lemma_walked_arms_keep(arms, (n - 1) as nat, name, ty, st, cx);
        let arm = arms[n - 1];
        lemma_alone_is_unassigned(arm.body, name, cx.source);
        if let Some(guard) = arm.guard {
            assert(leaves_alone(optional_expr(arm.guard)[0], name, cx.source));
            lemma_alone_is_unassigned(guard, name, cx.source);
        }
    }
}

} // verus!
