//! What is known of the variables within a block, a branch, a loop or a
//! closure.

use vstd::prelude::*;

use crate::laws::bindings::{
    assigned_variables_are_assigned_within, assigns, binds, blocks_assign_what_is_assigned_within,
    pattern_names_are_bound,
};
use crate::laws::expressions::{holds_in_block, holds_within};
use crate::ast_analyzer::segments_of;
use crate::laws::methods::{lemma_bound_keeps, same_type_known};
use crate::laws::values::single_names_are_written_out;
use crate::method_checker::{
    assigned_in, assigned_in_all, assigned_in_block, assigned_in_condition, bound, bound_args,
    bound_unknown, forget, is_unwrapping, type_of, unreported, walked, walked_arms, walked_block,
    walked_branches, walked_condition, walked_first, walked_list, walked_scope, walked_selects,
    with_env, Setting, TypesModel, WalkState,
};
use crate::report::MethodViolationModel;
use crate::syntax::{
    condition_exprs, sub_exprs, ArmTree, BlockTree, ConditionTree, ExprTree, FieldTree, PatTree,
    PathTree, SelectTree, Span, StmtTree,
};
use crate::types::TypeModel;

verus! {

/// Whether what is known of variables is what was known before, but for those
/// that a predicate picks, of which nothing is known.
pub open spec fn is_without(
    after: TypesModel,
    before: TypesModel,
    dropped: spec_fn(Seq<char>) -> bool,
) -> bool {
    &&& forall|name: Seq<char>| #[trigger]
        after.contains_key(name) <==> before.contains_key(name) && !dropped(name)
    &&& forall|name: Seq<char>| #[trigger]
        after.contains_key(name) ==> after[name] == before[name]
}

/// The variables that are assigned anywhere in a block.
pub open spec fn assigned_within_block(block: BlockTree, source: Seq<char>) -> spec_fn(
    Seq<char>,
) -> bool {
    |name: Seq<char>| holds_in_block(block, assigns(name, source))
}

/// The variables that are assigned anywhere in an expression.
pub open spec fn assigned_within(expr: ExprTree, source: Seq<char>) -> spec_fn(Seq<char>) -> bool {
    |name: Seq<char>| holds_within(expr, assigns(name, source))
}

/// The variables that one of the patterns binds.
pub open spec fn bound_by_args(args: Seq<Option<PatTree>>, source: Seq<char>) -> spec_fn(
    Seq<char>,
) -> bool {
    |name: Seq<char>|
        exists|i: int|
            0 <= i < args.len() && (#[trigger] args[i] matches Some(pat) && binds(
                pat,
                name,
                source,
            ))
}

proof fn lemma_forgotten_block(
    block: BlockTree,
    before: TypesModel,
    after: TypesModel,
    source: Seq<char>,
)
    requires
        is_without(after, before, assigned_within_block(block, source)),
    ensures
        after == forget(before, assigned_in_block(block, source)),
{
    let wanted = forget(before, assigned_in_block(block, source));
    assert forall|name: Seq<char>| #[trigger] after.contains_key(name) == wanted.contains_key(
        name,
    ) by {
        blocks_assign_what_is_assigned_within(block, name, source);
    }
    assert(after =~= wanted);
}

proof fn lemma_forgotten(
    expr: ExprTree,
    before: TypesModel,
    after: TypesModel,
    source: Seq<char>,
)
    requires
        is_without(after, before, assigned_within(expr, source)),
    ensures
        after == forget(before, assigned_in(expr, source)),
{
    let wanted = forget(before, assigned_in(expr, source));
    assert forall|name: Seq<char>| #[trigger] after.contains_key(name) == wanted.contains_key(
        name,
    ) by {
        assigned_variables_are_assigned_within(expr, name, source);
    }
    assert(after =~= wanted);
}

// ---------------------------------------------------------------------------
// Patterns on values of unknown type.
// ---------------------------------------------------------------------------

/// A pattern on a value of unknown type makes the variables that it binds
/// unknown, however deep it binds them.
pub proof fn unknown_values_make_names_unknown(
    pat: PatTree,
    env: TypesModel,
    source: Seq<char>,
    name: Seq<char>,
)
    requires
        binds(pat, name, source),
    ensures
        !bound(pat, None, env, source).contains_key(name),
    decreases pat, 0nat,
{
    pattern_names_are_bound(pat, name, source);
    match pat {
        PatTree::Path(path) => single_names_are_written_out(path, source, name),
        PatTree::Tuple(path, items) => {
            if is_unwrapping(path, source) && items.len() == 1 {
                let i = choose|i: int|
                    0 <= i < items.len() && binds(#[trigger] items[i], name, source);
                assert(i == 0);
                unknown_values_make_names_unknown(items[0], env, source, name);
            } else if is_unwrapping(path, source) {
                lemma_unknown_parts(items, items.len(), env, source, name);
            }
        },
        _ => {},
    }
}

proof fn lemma_unknown_parts(
    pats: Seq<PatTree>,
    n: nat,
    env: TypesModel,
    source: Seq<char>,
    name: Seq<char>,
)
    requires
        n <= pats.len(),
    ensures
        (exists|i: int| 0 <= i < n && binds(#[trigger] pats[i], name, source))
            ==> !bound_unknown(pats, n, env, source).contains_key(name),
    decreases pats, n,
{
    if n > 0 {
        let before = bound_unknown(pats, (n - 1) as nat, env, source);
        lemma_unknown_parts(pats, (n - 1) as nat, env, source, name);
        if binds(pats[n - 1], name, source) {
            unknown_values_make_names_unknown(pats[n - 1], before, source, name);
        } else {
            pattern_names_are_bound(pats[n - 1], name, source);
            lemma_bound_keeps(pats[n - 1], None, before, name, source);
        }
    }
}

/// `Ok(..)` and `Some(..)` with other than one part make the variables that
/// they bind unknown, whatever the type of the value is.
pub proof fn other_contents_make_their_names_unknown(
    path: PathTree,
    names: Seq<Seq<char>>,
    items: Seq<PatTree>,
    ty: Option<TypeModel>,
    env: TypesModel,
    source: Seq<char>,
    name: Seq<char>,
)
    requires
        segments_of(path, source) == Some(names),
        items.len() != 1,
        binds(PatTree::Tuple(Some(path), items), name, source),
    ensures
        !bound(PatTree::Tuple(Some(path), items), ty, env, source).contains_key(name),
{
    let pat = PatTree::Tuple(Some(path), items);
    pattern_names_are_bound(pat, name, source);
    if is_unwrapping(Some(path), source) {
        lemma_unknown_parts(items, items.len(), env, source, name);
        assert(bound(pat, ty, env, source) == bound_unknown(items, items.len(), env, source));
        assert(exists|i: int| 0 <= i < items.len() && binds(#[trigger] items[i], name, source));
    }
}

// ---------------------------------------------------------------------------
// Scopes.
// ---------------------------------------------------------------------------

/// A block is walked with what is known before it. After it what it assigns
/// is unknown, and what it declares is gone.
pub proof fn blocks_know_what_is_known_before_them(
    block: BlockTree,
    after: TypesModel,
    st: WalkState,
    cx: Setting,
)
    requires
        is_without(after, st.env, assigned_within_block(block, cx.source)),
    ensures
        walked(ExprTree::Block(block), st, cx).found == walked_block(
            block,
            block.statements.len(),
            st,
            cx,
        ).found,
        walked(ExprTree::Block(block), st, cx).env == after,
{
    lemma_forgotten_block(block, st.env, after, cx.source);
    assert(walked(ExprTree::Block(block), st, cx) == walked_scope(block, st.env, st, cx));
    assert(WalkState { env: st.env, found: st.found } == st);
}

/// Within a loop nothing is known of what its body assigns, for that may have
/// run before; and so it is after the loop.
pub proof fn loops_do_not_know_what_they_assign(
    body: BlockTree,
    inner: TypesModel,
    st: WalkState,
    cx: Setting,
)
    requires
        is_without(inner, st.env, assigned_within_block(body, cx.source)),
    ensures
        walked(ExprTree::Loop(body), st, cx).found == walked_block(
            body,
            body.statements.len(),
            WalkState { env: inner, found: st.found },
            cx,
        ).found,
        walked(ExprTree::Loop(body), st, cx).env == inner,
{
    lemma_forgotten_block(body, st.env, inner, cx.source);
    let entered = WalkState { env: inner, found: st.found };
    assert(walked(ExprTree::Loop(body), st, cx) == walked_scope(body, inner, entered, cx));
    assert(forget(inner, assigned_in_block(body, cx.source)) =~= inner);
}

/// Within a `for` loop the variables of its pattern are unknown, and so is
/// what its body assigns.
pub proof fn for_loops_do_not_know_their_variables(
    pat: PatTree,
    iter: ExprTree,
    body: BlockTree,
    inner: TypesModel,
    st: WalkState,
    cx: Setting,
)
    requires
        is_without(inner, walked(iter, st, cx).env, assigned_within_block(body, cx.source)),
    ensures
        walked(ExprTree::For(pat, Box::new(iter), body), st, cx).found == walked_block(
            body,
            body.statements.len(),
            WalkState {
                env: bound(pat, None, inner, cx.source),
                found: walked(iter, st, cx).found,
            },
            cx,
        ).found,
        walked(ExprTree::For(pat, Box::new(iter), body), st, cx).env == inner,
{
    let after = walked(iter, st, cx);
    lemma_forgotten_block(body, after.env, inner, cx.source);
    let expr = ExprTree::For(pat, Box::new(iter), body);
    let entered = WalkState { env: inner, found: after.found };
    assert(walked(expr, st, cx) == walked_scope(
        body,
        bound(pat, None, inner, cx.source),
        entered,
        cx,
    ));
    assert(forget(inner, assigned_in_block(body, cx.source)) =~= inner);
}

/// Within the body of `while let` the pattern binds what the matched value
/// is, as far as the loop does not assign it. Nothing is known, within the
/// loop or after it, of what the condition or the body assigns.
pub proof fn while_loops_know_what_their_conditions_bind(
    pat: PatTree,
    expr: ExprTree,
    body: BlockTree,
    middle: TypesModel,
    inner: TypesModel,
    st: WalkState,
    cx: Setting,
)
    requires
        is_without(middle, walked(expr, st, cx).env, assigned_within(expr, cx.source)),
        is_without(inner, middle, assigned_within_block(body, cx.source)),
    ensures
        walked(
            ExprTree::While(Box::new(ConditionTree::Let(pat, expr)), body),
            st,
            cx,
        ).found == walked_block(
            body,
            body.statements.len(),
            WalkState {
                env: bound(pat, type_of(expr, inner, cx), inner, cx.source),
                found: walked(expr, st, cx).found,
            },
            cx,
        ).found,
        walked(ExprTree::While(Box::new(ConditionTree::Let(pat, expr)), body), st, cx).env
            == inner,
{
    let condition = ConditionTree::Let(pat, expr);
    let after = walked(expr, st, cx);
    assert(walked_condition(condition, st, cx) == after);
    lemma_condition_assigns(condition, expr, cx.source);
    lemma_forgotten(expr, after.env, middle, cx.source);
    lemma_forgotten_block(body, middle, inner, cx.source);
    let whole = ExprTree::While(Box::new(condition), body);
    let entered = WalkState { env: inner, found: after.found };
    assert(walked(whole, st, cx) == walked_scope(
        body,
        bound(pat, type_of(expr, inner, cx), inner, cx.source),
        entered,
        cx,
    ));
    assert(forget(inner, assigned_in_block(body, cx.source)) =~= inner);
}

proof fn lemma_condition_assigns(condition: ConditionTree, expr: ExprTree, source: Seq<char>)
    requires
        condition == ConditionTree::Expr(expr) || (condition matches ConditionTree::Let(_, e) && e
            == expr),
    ensures
        assigned_in_condition(condition, source) == assigned_in(expr, source),
{
    let exprs = condition_exprs(condition);
    assert(exprs =~= seq![expr]);
    assert(assigned_in_all(exprs, 0, source) =~= Seq::empty());
    assert(assigned_in_all(exprs, 1, source) =~= assigned_in(expr, source));
}

/// Within the body of a `while` nothing is known of what the condition or the
/// body assigns, nor after it.
pub proof fn while_loops_do_not_know_what_they_assign(
    expr: ExprTree,
    body: BlockTree,
    middle: TypesModel,
    inner: TypesModel,
    st: WalkState,
    cx: Setting,
)
    requires
        is_without(middle, walked(expr, st, cx).env, assigned_within(expr, cx.source)),
        is_without(inner, middle, assigned_within_block(body, cx.source)),
    ensures
        walked(
            ExprTree::While(Box::new(ConditionTree::Expr(expr)), body),
            st,
            cx,
        ).found == walked_block(
            body,
            body.statements.len(),
            WalkState { env: inner, found: walked(expr, st, cx).found },
            cx,
        ).found,
        walked(ExprTree::While(Box::new(ConditionTree::Expr(expr)), body), st, cx).env == inner,
{
    let condition = ConditionTree::Expr(expr);
    let after = walked(expr, st, cx);
    assert(walked_condition(condition, st, cx) == after);
    lemma_condition_assigns(condition, expr, cx.source);
    lemma_forgotten(expr, after.env, middle, cx.source);
    lemma_forgotten_block(body, middle, inner, cx.source);
    let whole = ExprTree::While(Box::new(condition), body);
    let entered = WalkState { env: inner, found: after.found };
    assert(walked(whole, st, cx) == walked_scope(body, inner, entered, cx));
    assert(forget(inner, assigned_in_block(body, cx.source)) =~= inner);
}

/// Within a branch of `if let` the pattern binds what the matched value is.
/// After it what the branch assigns is unknown, and what it binds is gone.
pub proof fn branches_know_what_their_conditions_bind(
    pat: PatTree,
    expr: ExprTree,
    block: BlockTree,
    outer: TypesModel,
    st: WalkState,
    cx: Setting,
)
    requires
        is_without(outer, walked(expr, st, cx).env, assigned_within_block(block, cx.source)),
    ensures
        walked(
            ExprTree::If(seq![(ConditionTree::Let(pat, expr), block)], None),
            st,
            cx,
        ).found == walked_block(
            block,
            block.statements.len(),
            WalkState {
                env: bound(
                    pat,
                    type_of(expr, walked(expr, st, cx).env, cx),
                    walked(expr, st, cx).env,
                    cx.source,
                ),
                found: walked(expr, st, cx).found,
            },
            cx,
        ).found,
        walked(ExprTree::If(seq![(ConditionTree::Let(pat, expr), block)], None), st, cx).env
            == outer,
{
    let condition = ConditionTree::Let(pat, expr);
    let branches = seq![(condition, block)];
    let after = walked(expr, st, cx);
    assert(branches[0] == (condition, block));
    assert(walked_branches(branches, 0, st, cx) == st);
    assert(walked_condition(condition, st, cx) == after);
    lemma_forgotten_block(block, after.env, outer, cx.source);
    let inner = bound(pat, type_of(expr, after.env, cx), after.env, cx.source);
    assert(walked_branches(branches, 1, st, cx) == walked_scope(block, inner, after, cx));
    assert(walked(ExprTree::If(branches, None), st, cx) == walked_branches(branches, 1, st, cx));
}

/// Within a branch of an `if` what its condition leaves is known, and nothing
/// else. The `else` is walked with what is known after the branch.
pub proof fn branches_know_what_their_conditions_leave(
    expr: ExprTree,
    block: BlockTree,
    outer: TypesModel,
    otherwise: BlockTree,
    st: WalkState,
    cx: Setting,
)
    requires
        is_without(outer, walked(expr, st, cx).env, assigned_within_block(block, cx.source)),
    ensures
        ({
            let branch = walked_block(
                block,
                block.statements.len(),
                walked(expr, st, cx),
                cx,
            ).found;
            let branches = seq![(ConditionTree::Expr(expr), block)];
            &&& walked(ExprTree::If(branches, None), st, cx) == (WalkState {
                env: outer,
                found: branch,
            })
            &&& walked(ExprTree::If(branches, Some(otherwise)), st, cx).found == walked_block(
                otherwise,
                otherwise.statements.len(),
                WalkState { env: outer, found: branch },
                cx,
            ).found
        }),
{
    let condition = ConditionTree::Expr(expr);
    let branches = seq![(condition, block)];
    let after = walked(expr, st, cx);
    assert(branches[0] == (condition, block));
    assert(walked_branches(branches, 0, st, cx) == st);
    assert(walked_condition(condition, st, cx) == after);
    lemma_forgotten_block(block, after.env, outer, cx.source);
    assert(walked_branches(branches, 1, st, cx) == walked_scope(block, after.env, after, cx));
    assert(walked(ExprTree::If(branches, None), st, cx) == walked_branches(branches, 1, st, cx));
    let first = walked_branches(branches, 1, st, cx);
    assert(walked(ExprTree::If(branches, Some(otherwise)), st, cx) == walked_scope(
        otherwise,
        first.env,
        first,
        cx,
    ));
}

/// Within an arm of a `match` the pattern binds what the matched value is,
/// and the guard is walked before the body.
pub proof fn arms_know_what_their_patterns_bind(
    scrutinee: ExprTree,
    arm: ArmTree,
    st: WalkState,
    cx: Setting,
)
    ensures
        ({
            let after = walked(scrutinee, st, cx);
            let inner = WalkState {
                env: bound(arm.pat, type_of(scrutinee, after.env, cx), after.env, cx.source),
                found: after.found,
            };
            walked(ExprTree::Match(Box::new(scrutinee), seq![arm]), st, cx).found == walked(
                arm.body,
                match arm.guard {
                    Some(guard) => walked(guard, inner, cx),
                    None => inner,
                },
                cx,
            ).found
        }),
{
    let arms = seq![arm];
    assert(arms[0] == arm);
    let after = walked(scrutinee, st, cx);
    let ty = type_of(scrutinee, after.env, cx);
    assert(walked_arms(arms, 0, ty, after, cx) == after);
    assert(walked(ExprTree::Match(Box::new(scrutinee), arms), st, cx) == walked_arms(
        arms,
        1,
        ty,
        after,
        cx,
    ));
}

/// Each arm of a `match` is walked with the type of the matched value and with
/// what is known after those before it.
pub proof fn arms_follow_each_other(
    scrutinee: ExprTree,
    arms: Seq<ArmTree>,
    arm: ArmTree,
    st: WalkState,
    cx: Setting,
)
    requires
        arm.guard is None,
    ensures
        ({
            let ty = type_of(scrutinee, walked(scrutinee, st, cx).env, cx);
            let before = walked(ExprTree::Match(Box::new(scrutinee), arms), st, cx);
            walked(ExprTree::Match(Box::new(scrutinee), arms.push(arm)), st, cx).found == walked(
                arm.body,
                WalkState {
                    env: bound(arm.pat, ty, before.env, cx.source),
                    found: before.found,
                },
                cx,
            ).found
        }),
{
    let more = arms.push(arm);
    let after = walked(scrutinee, st, cx);
    let ty = type_of(scrutinee, after.env, cx);
    lemma_same_arms(arms, more, arms.len(), ty, after, cx);
    assert(more[arms.len() as int] == arm);
    assert(walked(ExprTree::Match(Box::new(scrutinee), arms), st, cx) == walked_arms(
        arms,
        arms.len(),
        ty,
        after,
        cx,
    ));
    assert(walked(ExprTree::Match(Box::new(scrutinee), more), st, cx) == walked_arms(
        more,
        more.len(),
        ty,
        after,
        cx,
    ));
}

proof fn lemma_same_arms(
    arms: Seq<ArmTree>,
    more: Seq<ArmTree>,
    n: nat,
    ty: Option<TypeModel>,
    st: WalkState,
    cx: Setting,
)
    requires
        n <= arms.len() <= more.len(),
        forall|i: int| 0 <= i < arms.len() ==> #[trigger] arms[i] == more[i],
    ensures
        walked_arms(arms, n, ty, st, cx) == walked_arms(more, n, ty, st, cx),
    decreases n,
{
    if n > 0 {
        assert(arms[n - 1] == more[n - 1]);
        lemma_same_arms(arms, more, (n - 1) as nat, ty, st, cx);
    }
}

proof fn lemma_args_unknown(
    args: Seq<Option<PatTree>>,
    n: nat,
    env: TypesModel,
    source: Seq<char>,
    name: Seq<char>,
)
    requires
        n <= args.len(),
    ensures
        (exists|i: int|
            0 <= i < n && (#[trigger] args[i] matches Some(pat) && binds(pat, name, source)))
            ==> !bound_args(args, n, env, source).contains_key(name),
        (forall|i: int|
            0 <= i < n ==> !(#[trigger] args[i] matches Some(pat) && binds(pat, name, source)))
            ==> same_type_known(env, bound_args(args, n, env, source), name),
    decreases n,
{
    if n > 0 {
        let before = bound_args(args, (n - 1) as nat, env, source);
        lemma_args_unknown(args, (n - 1) as nat, env, source, name);
        if let Some(pat) = args[n - 1] {
            if binds(pat, name, source) {
                unknown_values_make_names_unknown(pat, before, source, name);
            } else {
                pattern_names_are_bound(pat, name, source);
                lemma_bound_keeps(pat, None, before, name, source);
            }
        }
    }
}

/// Within a closure its parameters are unknown and everything else is as
/// before it. After it what it assigns is unknown.
pub proof fn closures_do_not_know_their_parameters(
    args: Seq<Option<PatTree>>,
    body: ExprTree,
    inner: TypesModel,
    after: TypesModel,
    st: WalkState,
    cx: Setting,
)
    requires
        is_without(inner, st.env, bound_by_args(args, cx.source)),
        is_without(after, st.env, assigned_within(body, cx.source)),
    ensures
        walked(ExprTree::Closure(args, Box::new(body)), st, cx) == (WalkState {
            env: after,
            found: walked(body, WalkState { env: inner, found: st.found }, cx).found,
        }),
{
    let wanted = bound_args(args, args.len(), st.env, cx.source);
    assert forall|name: Seq<char>|
        #[trigger] inner.contains_key(name) == wanted.contains_key(name) && (wanted.contains_key(
            name,
        ) ==> wanted[name] == inner[name]) by {
        lemma_args_unknown(args, args.len(), st.env, cx.source, name);
        assert(inner.contains_key(name) <==> st.env.contains_key(name) && !bound_by_args(
            args,
            cx.source,
        )(name));
    }
    assert(inner =~= wanted);
    lemma_forgotten(body, st.env, after, cx.source);
}

/// The operand behind `&&` or `||` may not run: it is walked with what is
/// known before it, and what it assigns is unknown after it.
pub proof fn second_operands_may_not_run(
    lhs: ExprTree,
    rhs: ExprTree,
    after: TypesModel,
    st: WalkState,
    cx: Setting,
)
    requires
        is_without(after, walked(lhs, st, cx).env, assigned_within(rhs, cx.source)),
    ensures
        walked(ExprTree::Logic(Box::new(lhs), Box::new(rhs)), st, cx) == (WalkState {
            env: after,
            found: walked(rhs, walked(lhs, st, cx), cx).found,
        }),
{
    lemma_forgotten(rhs, walked(lhs, st, cx).env, after, cx.source);
}

/// Within an arm of a `select` the awaited value is unknown, and so is what
/// any arm assigns.
pub proof fn select_arms_do_not_know_their_variables(
    pat: PatTree,
    awaited: ExprTree,
    body: ExprTree,
    inner: TypesModel,
    st: WalkState,
    cx: Setting,
)
    requires
        ({
            let arm = SelectTree { binding: Some((pat, awaited)), body };
            is_without(inner, st.env, assigned_within(ExprTree::Select(seq![arm]), cx.source))
        }),
    ensures
        ({
            let arm = SelectTree { binding: Some((pat, awaited)), body };
            let entered = WalkState { env: inner, found: st.found };
            walked(ExprTree::Select(seq![arm]), st, cx) == (WalkState {
                env: inner,
                found: walked(
                    body,
                    WalkState {
                        env: bound(pat, None, inner, cx.source),
                        found: walked(awaited, entered, cx).found,
                    },
                    cx,
                ).found,
            })
        }),
{
    let arm = SelectTree { binding: Some((pat, awaited)), body };
    let arms = seq![arm];
    let whole = ExprTree::Select(arms);
    let entered = WalkState { env: inner, found: st.found };
    assert(arms[0] == arm);
    lemma_forgotten(whole, st.env, inner, cx.source);
    assert(walked_selects(arms, 0, entered, cx) == entered);
    assert(walked(whole, st, cx) == walked_selects(arms, 1, entered, cx));
}

proof fn lemma_same_branches(
    branches: Seq<(ConditionTree, BlockTree)>,
    more: Seq<(ConditionTree, BlockTree)>,
    n: nat,
    st: WalkState,
    cx: Setting,
)
    requires
        n <= branches.len() <= more.len(),
        forall|i: int| 0 <= i < branches.len() ==> #[trigger] branches[i] == more[i],
    ensures
        walked_branches(branches, n, st, cx) == walked_branches(more, n, st, cx),
    decreases n,
{
    if n > 0 {
        assert(branches[n - 1] == more[n - 1]);
        lemma_same_branches(branches, more, (n - 1) as nat, st, cx);
    }
}

/// An `else if` is walked with what is known after the branches before it.
/// Its condition may not run: after it what the condition or the branch
/// assigns is unknown.
pub proof fn later_branches_may_not_run(
    branches: Seq<(ConditionTree, BlockTree)>,
    expr: ExprTree,
    block: BlockTree,
    middle: TypesModel,
    outer: TypesModel,
    st: WalkState,
    cx: Setting,
)
    requires
        branches.len() > 0,
        is_without(
            middle,
            walked(ExprTree::If(branches, None), st, cx).env,
            assigned_within(expr, cx.source),
        ),
        is_without(outer, middle, assigned_within_block(block, cx.source)),
    ensures
        walked(
            ExprTree::If(branches.push((ConditionTree::Expr(expr), block)), None),
            st,
            cx,
        ) == (WalkState {
            env: outer,
            found: walked_block(
                block,
                block.statements.len(),
                walked(expr, walked(ExprTree::If(branches, None), st, cx), cx),
                cx,
            ).found,
        }),
{
    let condition = ConditionTree::Expr(expr);
    let more = branches.push((condition, block));
    let n = branches.len();
    lemma_same_branches(branches, more, n, st, cx);
    let before = walked_branches(more, n, st, cx);
    assert(walked(ExprTree::If(branches, None), st, cx) == before);
    assert(more[n as int] == (condition, block));
    let tested = walked(expr, before, cx);
    assert(walked_condition(condition, before, cx) == tested);
    lemma_condition_assigns(condition, expr, cx.source);
    lemma_forgotten(expr, before.env, middle, cx.source);
    lemma_forgotten_block(block, middle, outer, cx.source);
    assert(walked_branches(more, n + 1, st, cx) == walked_scope(
        block,
        tested.env,
        WalkState { env: middle, found: tested.found },
        cx,
    ));
    assert(walked(ExprTree::If(more, None), st, cx) == walked_branches(more, n + 1, st, cx));
}

// ---------------------------------------------------------------------------
// The order of evaluation.
// ---------------------------------------------------------------------------

/// The statements of a block are walked one after the other.
pub proof fn statements_are_walked_in_order(
    block: BlockTree,
    n: nat,
    st: WalkState,
    cx: Setting,
)
    requires
        n < block.statements.len(),
    ensures
        ({
            let before = walked_block(block, n, st, cx);
            match block.statements[n as int] {
                StmtTree::Expr(expr) => walked_block(block, n + 1, st, cx) == walked(
                    expr,
                    before,
                    cx,
                ),
                StmtTree::Semi(expr) => walked_block(block, n + 1, st, cx) == walked(
                    expr,
                    before,
                    cx,
                ),
                StmtTree::Local(pat, expr) => walked_block(block, n + 1, st, cx) == (WalkState {
                    env: bound(
                        pat,
                        type_of(expr, walked(expr, before, cx).env, cx),
                        walked(expr, before, cx).env,
                        cx.source,
                    ),
                    found: walked(expr, before, cx).found,
                }),
                StmtTree::Other => walked_block(block, n + 1, st, cx) == before,
            }
        }),
        walked_block(block, 0, st, cx) == st,
{
}

proof fn lemma_one_part(expr: ExprTree, part: ExprTree, st: WalkState, cx: Setting)
    requires
        sub_exprs(expr) == seq![part],
    ensures
        walked_first(expr, sub_exprs(expr).len(), st, cx) == walked(part, st, cx),
{
    assert(sub_exprs(expr)[0] == part);
    assert(walked_first(expr, 0, st, cx) == st);
}

/// The operands of an expression are walked one after the other.
pub proof fn operands_are_walked_in_order(
    lhs: ExprTree,
    rhs: ExprTree,
    span: Span,
    field: FieldTree,
    st: WalkState,
    cx: Setting,
)
    ensures
        walked(ExprTree::Binary(Box::new(lhs), Box::new(rhs)), st, cx) == walked(
            rhs,
            walked(lhs, st, cx),
            cx,
        ),
        walked(ExprTree::Index(Box::new(lhs), Box::new(rhs)), st, cx) == walked(
            rhs,
            walked(lhs, st, cx),
            cx,
        ),
        walked(ExprTree::Range(Some(Box::new(lhs)), Some(Box::new(rhs))), st, cx) == walked(
            rhs,
            walked(lhs, st, cx),
            cx,
        ),
        walked(ExprTree::Unary(Box::new(lhs)), st, cx) == walked(lhs, st, cx),
        walked(ExprTree::Group(Box::new(lhs)), st, cx) == walked(lhs, st, cx),
        walked(ExprTree::Await(Box::new(lhs)), st, cx) == walked(lhs, st, cx),
        walked(ExprTree::Try(Box::new(lhs), span), st, cx) == walked(lhs, st, cx),
        walked(ExprTree::FieldAccess(Box::new(lhs), field), st, cx) == walked(lhs, st, cx),
        walked(ExprTree::Return(Some(Box::new(lhs))), st, cx) == walked(lhs, st, cx),
        walked(ExprTree::Break(Some(Box::new(lhs))), st, cx) == walked(lhs, st, cx),
        walked(ExprTree::Yield(Some(Box::new(lhs))), st, cx) == walked(lhs, st, cx),
{
    let binary = ExprTree::Binary(Box::new(lhs), Box::new(rhs));
    let index = ExprTree::Index(Box::new(lhs), Box::new(rhs));
    let range = ExprTree::Range(Some(Box::new(lhs)), Some(Box::new(rhs)));
    lemma_two_parts(binary, lhs, rhs, st, cx);
    lemma_two_parts(index, lhs, rhs, st, cx);
    assert(sub_exprs(range) =~= seq![lhs, rhs]);
    lemma_two_parts(range, lhs, rhs, st, cx);
    lemma_one_part(ExprTree::Unary(Box::new(lhs)), lhs, st, cx);
    lemma_one_part(ExprTree::Group(Box::new(lhs)), lhs, st, cx);
    lemma_one_part(ExprTree::Await(Box::new(lhs)), lhs, st, cx);
    lemma_one_part(ExprTree::Try(Box::new(lhs), span), lhs, st, cx);
    lemma_one_part(ExprTree::FieldAccess(Box::new(lhs), field), lhs, st, cx);
    lemma_one_part(ExprTree::Return(Some(Box::new(lhs))), lhs, st, cx);
    lemma_one_part(ExprTree::Break(Some(Box::new(lhs))), lhs, st, cx);
    lemma_one_part(ExprTree::Yield(Some(Box::new(lhs))), lhs, st, cx);
}

proof fn lemma_two_parts(expr: ExprTree, a: ExprTree, b: ExprTree, st: WalkState, cx: Setting)
    requires
        sub_exprs(expr) == seq![a, b],
    ensures
        walked_first(expr, sub_exprs(expr).len(), st, cx) == walked(b, walked(a, st, cx), cx),
{
    assert(sub_exprs(expr)[0] == a && sub_exprs(expr)[1] == b);
    assert(walked_first(expr, 0, st, cx) == st);
    assert(walked_first(expr, 1, st, cx) == walked(a, st, cx));
}

proof fn lemma_same_first(
    expr: ExprTree,
    more: ExprTree,
    n: nat,
    st: WalkState,
    cx: Setting,
)
    requires
        n <= sub_exprs(expr).len() <= sub_exprs(more).len(),
        forall|i: int|
            0 <= i < sub_exprs(expr).len() ==> #[trigger] sub_exprs(expr)[i] == sub_exprs(more)[i],
    ensures
        walked_first(expr, n, st, cx) == walked_first(more, n, st, cx),
    decreases n,
{
    if n > 0 {
        assert(sub_exprs(expr)[n - 1] == sub_exprs(more)[n - 1]);
        lemma_same_first(expr, more, (n - 1) as nat, st, cx);
    }
}

/// The items of a list and of a tuple are walked one after the other.
pub proof fn items_are_walked_in_order(
    items: Seq<ExprTree>,
    last: ExprTree,
    st: WalkState,
    cx: Setting,
)
    ensures
        walked(ExprTree::Vec(items.push(last)), st, cx) == walked(
            last,
            walked(ExprTree::Vec(items), st, cx),
            cx,
        ),
        walked(ExprTree::Tuple(items.push(last)), st, cx) == walked(
            last,
            walked(ExprTree::Tuple(items), st, cx),
            cx,
        ),
        walked(ExprTree::Vec(Seq::empty()), st, cx) == st,
        walked(ExprTree::Tuple(Seq::empty()), st, cx) == st,
{
    let n = items.len();
    let list = ExprTree::Vec(items.push(last));
    lemma_same_first(ExprTree::Vec(items), list, n, st, cx);
    assert(sub_exprs(list)[n as int] == last);
    assert(walked(list, st, cx) == walked_first(list, n + 1, st, cx));
    assert(walked(ExprTree::Vec(items), st, cx) == walked_first(
        ExprTree::Vec(items),
        n,
        st,
        cx,
    ));
    let tuple = ExprTree::Tuple(items.push(last));
    lemma_same_first(ExprTree::Tuple(items), tuple, n, st, cx);
    assert(sub_exprs(tuple)[n as int] == last);
    assert(walked(tuple, st, cx) == walked_first(tuple, n + 1, st, cx));
    assert(walked(ExprTree::Tuple(items), st, cx) == walked_first(
        ExprTree::Tuple(items),
        n,
        st,
        cx,
    ));
    assert(walked(ExprTree::Vec(Seq::empty()), st, cx) == walked_first(
        ExprTree::Vec(Seq::empty()),
        0,
        st,
        cx,
    ));
    assert(walked(ExprTree::Tuple(Seq::empty()), st, cx) == walked_first(
        ExprTree::Tuple(Seq::empty()),
        0,
        st,
        cx,
    ));
}

/// What is called is walked before the arguments, and these one after the
/// other.
pub proof fn arguments_are_walked_in_order(
    callee: ExprTree,
    args: Seq<ExprTree>,
    last: ExprTree,
    span: Span,
    st: WalkState,
    cx: Setting,
)
    ensures
        ({
            let before = walked(ExprTree::Call(Box::new(callee), args, span), st, cx);
            exists|found: Seq<MethodViolationModel>|
                walked(ExprTree::Call(Box::new(callee), args.push(last), span), st, cx).env
                    == (#[trigger] walked(last, WalkState { env: before.env, found }, cx)).env
        }),
        callee matches ExprTree::FieldAccess(receiver, _) ==> walked(
            ExprTree::Call(Box::new(callee), Seq::empty(), span),
            st,
            cx,
        ).env == walked(*receiver, unreported(st.env), cx).env,
        !(callee is FieldAccess) ==> walked(
            ExprTree::Call(Box::new(callee), Seq::empty(), span),
            st,
            cx,
        ).env == walked(callee, unreported(st.env), cx).env,
{
    let called = match callee {
        ExprTree::FieldAccess(receiver, _) => *receiver,
        _ => callee,
    };
    let target = walked(called, unreported(st.env), cx);
    let entered = with_env(st, target.env);
    let more = args.push(last);
    lemma_same_list(args, more, args.len(), entered, cx);
    assert(more[args.len() as int] == last);
    let before = walked_list(args, args.len(), entered, cx);
    assert(walked_list(more, more.len(), entered, cx) == walked(last, before, cx));
    let shorter = walked(ExprTree::Call(Box::new(callee), args, span), st, cx);
    assert(shorter.env == before.env);
    assert(before == WalkState { env: shorter.env, found: before.found });
    assert(walked(ExprTree::Call(Box::new(callee), more, span), st, cx).env == walked(
        last,
        WalkState { env: shorter.env, found: before.found },
        cx,
    ).env);
    assert(walked_list(Seq::<ExprTree>::empty(), 0, entered, cx) == entered);
}

proof fn lemma_same_list(
    exprs: Seq<ExprTree>,
    more: Seq<ExprTree>,
    n: nat,
    st: WalkState,
    cx: Setting,
)
    requires
        n <= exprs.len() <= more.len(),
        forall|i: int| 0 <= i < exprs.len() ==> #[trigger] exprs[i] == more[i],
    ensures
        walked_list(exprs, n, st, cx) == walked_list(more, n, st, cx),
    decreases n,
{
    if n > 0 {
        assert(exprs[n - 1] == more[n - 1]);
        lemma_same_list(exprs, more, (n - 1) as nat, st, cx);
    }
}

/// A `let` within an expression binds what the matched value is, as it is
/// known after it has been evaluated.
pub proof fn let_expressions_bind_their_value(
    pat: PatTree,
    inner: ExprTree,
    st: WalkState,
    cx: Setting,
)
    ensures
        walked(ExprTree::Let(pat, Box::new(inner)), st, cx) == (WalkState {
            env: bound(
                pat,
                type_of(inner, walked(inner, st, cx).env, cx),
                walked(inner, st, cx).env,
                cx.source,
            ),
            found: walked(inner, st, cx).found,
        }),
{
}

/// After a `match` nothing is known of what a guard or an arm assigns, and
/// what the patterns bind is gone.
pub proof fn matches_do_not_know_what_their_arms_assign(
    scrutinee: ExprTree,
    arm: ArmTree,
    middle: TypesModel,
    outer: TypesModel,
    st: WalkState,
    cx: Setting,
)
    requires
        arm.guard matches Some(guard) ==> is_without(
            middle,
            walked(scrutinee, st, cx).env,
            assigned_within(guard, cx.source),
        ),
        arm.guard is None ==> middle == walked(scrutinee, st, cx).env,
        is_without(outer, middle, assigned_within(arm.body, cx.source)),
    ensures
        walked(ExprTree::Match(Box::new(scrutinee), seq![arm]), st, cx).env == outer,
{
    let arms = seq![arm];
    assert(arms[0] == arm);
    let after = walked(scrutinee, st, cx);
    let ty = type_of(scrutinee, after.env, cx);
    if let Some(guard) = arm.guard {
        lemma_forgotten(guard, after.env, middle, cx.source);
    }
    lemma_forgotten(arm.body, middle, outer, cx.source);
    assert(walked_arms(arms, 0, ty, after, cx) == after);
    assert(walked(ExprTree::Match(Box::new(scrutinee), arms), st, cx) == walked_arms(
        arms,
        1,
        ty,
        after,
        cx,
    ));
}

/// An assignment to anything but a variable changes no type but those that
/// its operands do.
pub proof fn other_assignments_change_no_type(
    lhs: ExprTree,
    rhs: ExprTree,
    st: WalkState,
    cx: Setting,
)
    requires
        !(lhs is Path),
    ensures
        ({
            let target = walked(lhs, unreported(st.env), cx);
            walked(ExprTree::Assign(Box::new(lhs), Box::new(rhs)), st, cx).env == walked(
                rhs,
                WalkState { env: target.env, found: st.found },
                cx,
            ).env
        }),
{
}

} // verus!
