//! The parts of expressions.

use vstd::prelude::*;

use crate::syntax::{
    arm_exprs, block_exprs, boxed_expr, branch_exprs, condition_exprs, field_exprs, optional_expr,
    select_expr, select_exprs, stmt_expr, stmt_exprs, sub_exprs, ArmTree, BlockTree, ConditionTree,
    ExprTree, KeyTree, SelectTree, StmtTree,
};

verus! {

/// Whether a statement is an expression, or binds one.
pub open spec fn holds_expr(stmt: StmtTree, expr: ExprTree) -> bool {
    match stmt {
        StmtTree::Local(_, e) => e == expr,
        StmtTree::Expr(e) => e == expr,
        StmtTree::Semi(e) => e == expr,
        StmtTree::Other => false,
    }
}

/// Whether an expression is that of one of the statements of a block.
pub open spec fn is_in_block(expr: ExprTree, block: BlockTree) -> bool {
    exists|i: int|
        0 <= i < block.statements.len() && holds_expr(#[trigger] block.statements[i], expr)
}

/// Whether an expression is the one that a condition tests or matches.
pub open spec fn is_in_condition(expr: ExprTree, condition: ConditionTree) -> bool {
    match condition {
        ConditionTree::Expr(e) => e == expr,
        ConditionTree::Let(_, e) => e == expr,
        ConditionTree::Other => false,
    }
}

pub open spec fn is_in_branch(expr: ExprTree, branch: (ConditionTree, BlockTree)) -> bool {
    is_in_condition(expr, branch.0) || is_in_block(expr, branch.1)
}

pub open spec fn is_in_arm(expr: ExprTree, arm: ArmTree) -> bool {
    arm.guard == Some(expr) || arm.body == expr
}

pub open spec fn is_in_select(expr: ExprTree, arm: SelectTree) -> bool {
    (arm.binding matches Some(binding) && binding.1 == expr) || arm.body == expr
}

/// Whether an expression stands directly in another one.
pub open spec fn is_part(part: ExprTree, whole: ExprTree) -> bool {
    match whole {
        ExprTree::Path(_) | ExprTree::Lit(_) | ExprTree::Other => false,
        ExprTree::Return(inner) => inner == Some(Box::new(part)),
        ExprTree::Break(inner) => inner == Some(Box::new(part)),
        ExprTree::Yield(inner) => inner == Some(Box::new(part)),
        ExprTree::Block(block) => is_in_block(part, block),
        ExprTree::Loop(body) => is_in_block(part, body),
        ExprTree::While(condition, body) => is_in_condition(part, *condition) || is_in_block(
            part,
            body,
        ),
        ExprTree::For(_, iter, body) => *iter == part || is_in_block(part, body),
        ExprTree::If(branches, otherwise) => {
            ||| exists|i: int| 0 <= i < branches.len() && is_in_branch(part, #[trigger] branches[i])
            ||| otherwise matches Some(block) && is_in_block(part, block)
        },
        ExprTree::Match(scrutinee, arms) => {
            ||| *scrutinee == part
            ||| exists|i: int| 0 <= i < arms.len() && is_in_arm(part, #[trigger] arms[i])
        },
        ExprTree::Select(arms) => exists|i: int|
            0 <= i < arms.len() && is_in_select(part, #[trigger] arms[i]),
        ExprTree::Binary(lhs, rhs) => *lhs == part || *rhs == part,
        ExprTree::Logic(lhs, rhs) => *lhs == part || *rhs == part,
        ExprTree::Assign(lhs, rhs) => *lhs == part || *rhs == part,
        ExprTree::Index(target, index) => *target == part || *index == part,
        ExprTree::Unary(inner) => *inner == part,
        ExprTree::Group(inner) => *inner == part,
        ExprTree::Await(inner) => *inner == part,
        ExprTree::Try(inner, _) => *inner == part,
        ExprTree::FieldAccess(inner, _) => *inner == part,
        ExprTree::Call(callee, args, _) => *callee == part || args.contains(part),
        ExprTree::Object(_, fields) => exists|i: int|
            0 <= i < fields.len() && (#[trigger] fields[i]).1 == Some(part),
        ExprTree::Vec(items) => items.contains(part),
        ExprTree::Tuple(items) => items.contains(part),
        ExprTree::Range(from, to) => from == Some(Box::new(part)) || to == Some(Box::new(part)),
        ExprTree::Closure(_, body) => *body == part,
        ExprTree::Let(_, inner) => *inner == part,
    }
}

pub(crate) proof fn lemma_in_both<A>(a: Seq<A>, b: Seq<A>, x: A)
    ensures
        (a + b).contains(x) <==> a.contains(x) || b.contains(x),
{
    if a.contains(x) {
        let k = choose|k: int| 0 <= k < a.len() && a[k] == x;
        assert((a + b)[k] == x);
    }
    if b.contains(x) {
        let k = choose|k: int| 0 <= k < b.len() && b[k] == x;
        assert((a + b)[a.len() + k] == x);
    }
    if (a + b).contains(x) {
        let k = choose|k: int| 0 <= k < (a + b).len() && (a + b)[k] == x;
        if k < a.len() {
            assert(a[k] == x);
        } else {
            assert(b[k - a.len()] == x);
        }
    }
}

proof fn lemma_in_one<A>(x: A, y: A)
    ensures
        seq![y].contains(x) <==> x == y,
{
    assert(seq![y][0] == y);
}

proof fn lemma_in_two<A>(x: A, y: A, z: A)
    ensures
        seq![y, z].contains(x) <==> x == y || x == z,
{
    assert(seq![y, z][0] == y);
    assert(seq![y, z][1] == z);
}

proof fn lemma_stmt_exprs(stmts: Seq<StmtTree>, n: nat, x: ExprTree)
    requires
        n <= stmts.len(),
    ensures
        stmt_exprs(stmts, n).contains(x) <==> exists|i: int|
            0 <= i < n && holds_expr(#[trigger] stmts[i], x),
    decreases n,
{
    if n > 0 {
        let last = stmts[n - 1];
        lemma_stmt_exprs(stmts, (n - 1) as nat, x);
        lemma_in_both(stmt_exprs(stmts, (n - 1) as nat), stmt_expr(last), x);
        match last {
            StmtTree::Local(_, e) => lemma_in_one(x, e),
            StmtTree::Expr(e) => lemma_in_one(x, e),
            StmtTree::Semi(e) => lemma_in_one(x, e),
            StmtTree::Other => {},
        }
        assert(stmt_expr(last).contains(x) <==> holds_expr(stmts[n - 1], x));
    }
}

proof fn lemma_block_exprs(block: BlockTree, x: ExprTree)
    ensures
        block_exprs(block).contains(x) <==> is_in_block(x, block),
{
    lemma_stmt_exprs(block.statements, block.statements.len(), x);
}

proof fn lemma_condition_exprs(condition: ConditionTree, x: ExprTree)
    ensures
        condition_exprs(condition).contains(x) <==> is_in_condition(x, condition),
{
    match condition {
        ConditionTree::Expr(e) => lemma_in_one(x, e),
        ConditionTree::Let(_, e) => lemma_in_one(x, e),
        ConditionTree::Other => {},
    }
}

proof fn lemma_optional_expr(expr: Option<ExprTree>, x: ExprTree)
    ensures
        optional_expr(expr).contains(x) <==> expr == Some(x),
{
    if let Some(e) = expr {
        lemma_in_one(x, e);
    }
}

proof fn lemma_boxed_expr(expr: Option<Box<ExprTree>>, x: ExprTree)
    ensures
        boxed_expr(expr).contains(x) <==> expr == Some(Box::new(x)),
{
    if let Some(e) = expr {
        lemma_in_one(x, *e);
    }
}

proof fn lemma_branch_exprs(branches: Seq<(ConditionTree, BlockTree)>, n: nat, x: ExprTree)
    requires
        n <= branches.len(),
    ensures
        branch_exprs(branches, n).contains(x) <==> exists|i: int|
            0 <= i < n && is_in_branch(x, #[trigger] branches[i]),
    decreases n,
{
    if n > 0 {
        let before = branch_exprs(branches, (n - 1) as nat);
        let condition = condition_exprs(branches[n - 1].0);
        let body = block_exprs(branches[n - 1].1);
        lemma_branch_exprs(branches, (n - 1) as nat, x);
        lemma_condition_exprs(branches[n - 1].0, x);
        lemma_block_exprs(branches[n - 1].1, x);
        lemma_in_both(before, condition, x);
        lemma_in_both(before + condition, body, x);
        assert(is_in_branch(x, branches[n - 1]) <==> condition.contains(x) || body.contains(x));
    }
}

proof fn lemma_field_exprs(fields: Seq<(KeyTree, Option<ExprTree>)>, n: nat, x: ExprTree)
    requires
        n <= fields.len(),
    ensures
        field_exprs(fields, n).contains(x) <==> exists|i: int|
            0 <= i < n && (#[trigger] fields[i]).1 == Some(x),
    decreases n,
{
    if n > 0 {
        lemma_field_exprs(fields, (n - 1) as nat, x);
        lemma_optional_expr(fields[n - 1].1, x);
        lemma_in_both(field_exprs(fields, (n - 1) as nat), optional_expr(fields[n - 1].1), x);
    }
}

proof fn lemma_arm_exprs(arms: Seq<ArmTree>, n: nat, x: ExprTree)
    requires
        n <= arms.len(),
    ensures
        arm_exprs(arms, n).contains(x) <==> exists|i: int|
            0 <= i < n && is_in_arm(x, #[trigger] arms[i]),
    decreases n,
{
    if n > 0 {
        let before = arm_exprs(arms, (n - 1) as nat);
        let guard = optional_expr(arms[n - 1].guard);
        lemma_arm_exprs(arms, (n - 1) as nat, x);
        lemma_optional_expr(arms[n - 1].guard, x);
        lemma_in_one(x, arms[n - 1].body);
        lemma_in_both(before, guard, x);
        lemma_in_both(before + guard, seq![arms[n - 1].body], x);
        assert(is_in_arm(x, arms[n - 1]) <==> guard.contains(x) || x == arms[n - 1].body);
    }
}

proof fn lemma_select_exprs(arms: Seq<SelectTree>, n: nat, x: ExprTree)
    requires
        n <= arms.len(),
    ensures
        select_exprs(arms, n).contains(x) <==> exists|i: int|
            0 <= i < n && is_in_select(x, #[trigger] arms[i]),
    decreases n,
{
    if n > 0 {
        let arm = arms[n - 1];
        let awaited = match arm.binding {
            Some(binding) => seq![binding.1],
            None => Seq::empty(),
        };
        lemma_select_exprs(arms, (n - 1) as nat, x);
        if let Some(binding) = arm.binding {
            lemma_in_one(x, binding.1);
        }
        lemma_in_one(x, arm.body);
        lemma_in_both(awaited, seq![arm.body], x);
        lemma_in_both(select_exprs(arms, (n - 1) as nat), select_expr(arm), x);
        assert(select_expr(arm).contains(x) <==> is_in_select(x, arms[n - 1]));
    }
}

/// The direct sub-expressions of an expression are exactly those that stand
/// in it: in its statements, its conditions, its branches, arms and guards,
/// as its operands, arguments, fields and items, and as the body of a
/// closure.
pub proof fn sub_expressions_are_the_parts(part: ExprTree, whole: ExprTree)
    ensures
        sub_exprs(whole).contains(part) <==> is_part(part, whole),
{
    match whole {
        ExprTree::Return(inner) => lemma_boxed_expr(inner, part),
        ExprTree::Break(inner) => lemma_boxed_expr(inner, part),
        ExprTree::Yield(inner) => lemma_boxed_expr(inner, part),
        ExprTree::Block(block) => lemma_block_exprs(block, part),
        ExprTree::Loop(body) => lemma_block_exprs(body, part),
        ExprTree::While(condition, body) => {
            lemma_condition_exprs(*condition, part);
            lemma_block_exprs(body, part);
            lemma_in_both(condition_exprs(*condition), block_exprs(body), part);
        },
        ExprTree::For(_, iter, body) => {
            lemma_in_one(part, *iter);
            lemma_block_exprs(body, part);
            lemma_in_both(seq![*iter], block_exprs(body), part);
        },
        ExprTree::If(branches, otherwise) => {
            let tail = match otherwise {
                Some(block) => block_exprs(block),
                None => Seq::empty(),
            };
            lemma_branch_exprs(branches, branches.len(), part);
            if let Some(block) = otherwise {
                lemma_block_exprs(block, part);
            }
            lemma_in_both(branch_exprs(branches, branches.len()), tail, part);
        },
        ExprTree::Match(scrutinee, arms) => {
            lemma_in_one(part, *scrutinee);
            lemma_arm_exprs(arms, arms.len(), part);
            lemma_in_both(seq![*scrutinee], arm_exprs(arms, arms.len()), part);
        },
        ExprTree::Select(arms) => lemma_select_exprs(arms, arms.len(), part),
        ExprTree::Binary(lhs, rhs) => lemma_in_two(part, *lhs, *rhs),
        ExprTree::Logic(lhs, rhs) => lemma_in_two(part, *lhs, *rhs),
        ExprTree::Assign(lhs, rhs) => lemma_in_two(part, *lhs, *rhs),
        ExprTree::Index(target, index) => lemma_in_two(part, *target, *index),
        ExprTree::Unary(inner) => lemma_in_one(part, *inner),
        ExprTree::Group(inner) => lemma_in_one(part, *inner),
        ExprTree::Await(inner) => lemma_in_one(part, *inner),
        ExprTree::Try(inner, _) => lemma_in_one(part, *inner),
        ExprTree::FieldAccess(inner, _) => lemma_in_one(part, *inner),
        ExprTree::Call(callee, args, _) => {
            lemma_in_one(part, *callee);
            lemma_in_both(seq![*callee], args, part);
        },
        ExprTree::Object(_, fields) => lemma_field_exprs(fields, fields.len(), part),
        ExprTree::Range(from, to) => {
            lemma_boxed_expr(from, part);
            lemma_boxed_expr(to, part);
            lemma_in_both(boxed_expr(from), boxed_expr(to), part);
        },
        ExprTree::Closure(_, body) => lemma_in_one(part, *body),
        ExprTree::Let(_, inner) => lemma_in_one(part, *inner),
        _ => {},
    }
}

/// The expressions of a block are exactly those of its statements.
pub proof fn block_expressions_are_those_of_its_statements(expr: ExprTree, block: BlockTree)
    ensures
        block_exprs(block).contains(expr) <==> is_in_block(expr, block),
{
    lemma_block_exprs(block, expr);
}

// ---------------------------------------------------------------------------
// What stands anywhere in an expression.
// ---------------------------------------------------------------------------

/// Whether an expression, or one that stands anywhere in it, also in a
/// closure, satisfies a predicate.
pub open spec fn holds_within(expr: ExprTree, p: spec_fn(ExprTree) -> bool) -> bool
    decreases expr,
{
    ||| p(expr)
    ||| match expr {
        ExprTree::Path(_) => false,
        ExprTree::Lit(_) => false,
        ExprTree::Other => false,
        ExprTree::Return(inner) => inner matches Some(e) && holds_within(*e, p),
        ExprTree::Break(inner) => inner matches Some(e) && holds_within(*e, p),
        ExprTree::Yield(inner) => inner matches Some(e) && holds_within(*e, p),
        ExprTree::Block(block) => holds_in_block(block, p),
        ExprTree::Loop(body) => holds_in_block(body, p),
        ExprTree::While(condition, body) => holds_in_condition(*condition, p) || holds_in_block(
            body,
            p,
        ),
        ExprTree::For(_, iter, body) => holds_within(*iter, p) || holds_in_block(body, p),
        ExprTree::If(branches, otherwise) => {
            ||| exists|i: int|
                0 <= i < branches.len() && (holds_in_condition((#[trigger] branches[i]).0, p)
                    || holds_in_block(branches[i].1, p))
            ||| otherwise matches Some(block) && holds_in_block(block, p)
        },
        ExprTree::Match(scrutinee, arms) => {
            ||| holds_within(*scrutinee, p)
            ||| exists|i: int|
                0 <= i < arms.len() && (holds_within((#[trigger] arms[i]).body, p) || (
                arms[i].guard matches Some(guard) && holds_within(guard, p)))
        },
        ExprTree::Select(arms) => exists|i: int|
            0 <= i < arms.len() && (holds_within((#[trigger] arms[i]).body, p) || (
            arms[i].binding matches Some(binding) && holds_within(binding.1, p))),
        ExprTree::Binary(lhs, rhs) => holds_within(*lhs, p) || holds_within(*rhs, p),
        ExprTree::Logic(lhs, rhs) => holds_within(*lhs, p) || holds_within(*rhs, p),
        ExprTree::Assign(lhs, rhs) => holds_within(*lhs, p) || holds_within(*rhs, p),
        ExprTree::Index(target, index) => holds_within(*target, p) || holds_within(*index, p),
        ExprTree::Unary(inner) => holds_within(*inner, p),
        ExprTree::Group(inner) => holds_within(*inner, p),
        ExprTree::Await(inner) => holds_within(*inner, p),
        ExprTree::Try(inner, _) => holds_within(*inner, p),
        ExprTree::FieldAccess(inner, _) => holds_within(*inner, p),
        ExprTree::Call(callee, args, _) => holds_within(*callee, p) || exists|i: int|
            0 <= i < args.len() && holds_within(#[trigger] args[i], p),
        ExprTree::Object(_, fields) => exists|i: int|
            0 <= i < fields.len() && (#[trigger] fields[i]).1 is Some && holds_within(
                fields[i].1->Some_0,
                p,
            ),
        ExprTree::Vec(items) => exists|i: int|
            0 <= i < items.len() && holds_within(#[trigger] items[i], p),
        ExprTree::Tuple(items) => exists|i: int|
            0 <= i < items.len() && holds_within(#[trigger] items[i], p),
        ExprTree::Range(from, to) => {
            ||| from matches Some(e) && holds_within(*e, p)
            ||| to matches Some(e) && holds_within(*e, p)
        },
        ExprTree::Closure(_, body) => holds_within(*body, p),
        ExprTree::Let(_, inner) => holds_within(*inner, p),
    }
}

/// Whether an expression that stands anywhere in a statement satisfies a
/// predicate.
pub open spec fn holds_in_stmt(stmt: StmtTree, p: spec_fn(ExprTree) -> bool) -> bool
    decreases stmt,
{
    match stmt {
        StmtTree::Local(_, expr) => holds_within(expr, p),
        StmtTree::Expr(expr) => holds_within(expr, p),
        StmtTree::Semi(expr) => holds_within(expr, p),
        StmtTree::Other => false,
    }
}

/// Whether an expression that stands anywhere in a block satisfies a
/// predicate.
pub open spec fn holds_in_block(block: BlockTree, p: spec_fn(ExprTree) -> bool) -> bool
    decreases block,
{
    exists|i: int|
        0 <= i < block.statements.len() && holds_in_stmt(#[trigger] block.statements[i], p)
}

/// Whether an expression that stands anywhere in a condition satisfies a
/// predicate.
pub open spec fn holds_in_condition(condition: ConditionTree, p: spec_fn(ExprTree) -> bool) -> bool
    decreases condition,
{
    match condition {
        ConditionTree::Expr(expr) => holds_within(expr, p),
        ConditionTree::Let(_, expr) => holds_within(expr, p),
        ConditionTree::Other => false,
    }
}

/// What satisfies a predicate satisfies a weaker one where it stands.
pub(crate) proof fn lemma_holds_weaker(
    expr: ExprTree,
    p: spec_fn(ExprTree) -> bool,
    q: spec_fn(ExprTree) -> bool,
)
    requires
        forall|e: ExprTree| #[trigger] p(e) ==> q(e),
    ensures
        holds_within(expr, p) ==> holds_within(expr, q),
    decreases expr,
{
    match expr {
        ExprTree::Return(Some(e)) => lemma_holds_weaker(*e, p, q),
        ExprTree::Break(Some(e)) => lemma_holds_weaker(*e, p, q),
        ExprTree::Yield(Some(e)) => lemma_holds_weaker(*e, p, q),
        ExprTree::Block(block) => lemma_holds_weaker_in_block(block, p, q),
        ExprTree::Loop(body) => lemma_holds_weaker_in_block(body, p, q),
        ExprTree::While(condition, body) => {
            lemma_holds_weaker_in_condition(*condition, p, q);
            lemma_holds_weaker_in_block(body, p, q);
        },
        ExprTree::For(_, iter, body) => {
            lemma_holds_weaker(*iter, p, q);
            lemma_holds_weaker_in_block(body, p, q);
        },
        ExprTree::If(branches, otherwise) => {
            assert forall|i: int| 0 <= i < branches.len() implies {
                &&& holds_in_condition((#[trigger] branches[i]).0, p) ==> holds_in_condition(
                    branches[i].0,
                    q,
                )
                &&& holds_in_block(branches[i].1, p) ==> holds_in_block(branches[i].1, q)
            } by {
                lemma_holds_weaker_in_condition(branches[i].0, p, q);
                lemma_holds_weaker_in_block(branches[i].1, p, q);
            }
            if let Some(block) = otherwise {
                lemma_holds_weaker_in_block(block, p, q);
            }
        },
        ExprTree::Match(scrutinee, arms) => {
            lemma_holds_weaker(*scrutinee, p, q);
            assert forall|i: int| 0 <= i < arms.len() implies {
                &&& holds_within((#[trigger] arms[i]).body, p) ==> holds_within(arms[i].body, q)
                &&& arms[i].guard matches Some(guard) ==> holds_within(guard, p) ==> holds_within(
                    guard,
                    q,
                )
            } by {
                lemma_holds_weaker(arms[i].body, p, q);
                if let Some(guard) = arms[i].guard {
                    lemma_holds_weaker(guard, p, q);
                }
            }
        },
        ExprTree::Select(arms) => {
            assert forall|i: int| 0 <= i < arms.len() implies {
                &&& holds_within((#[trigger] arms[i]).body, p) ==> holds_within(arms[i].body, q)
                &&& arms[i].binding matches Some(binding) ==> holds_within(binding.1, p)
                    ==> holds_within(binding.1, q)
            } by {
                lemma_holds_weaker(arms[i].body, p, q);
                if let Some(binding) = arms[i].binding {
                    lemma_holds_weaker(binding.1, p, q);
                }
            }
        },
        ExprTree::Binary(lhs, rhs) | ExprTree::Logic(lhs, rhs) | ExprTree::Assign(lhs, rhs)
        | ExprTree::Index(lhs, rhs) => {
            lemma_holds_weaker(*lhs, p, q);
            lemma_holds_weaker(*rhs, p, q);
        },
        ExprTree::Unary(inner) => lemma_holds_weaker(*inner, p, q),
        ExprTree::Group(inner) => lemma_holds_weaker(*inner, p, q),
        ExprTree::Await(inner) => lemma_holds_weaker(*inner, p, q),
        ExprTree::Try(inner, _) => lemma_holds_weaker(*inner, p, q),
        ExprTree::FieldAccess(inner, _) => lemma_holds_weaker(*inner, p, q),
        ExprTree::Call(callee, args, _) => {
            lemma_holds_weaker(*callee, p, q);
            assert forall|i: int| 0 <= i < args.len() && holds_within(
                #[trigger] args[i],
                p,
            ) implies holds_within(args[i], q) by {
                lemma_holds_weaker(args[i], p, q);
            }
        },
        ExprTree::Object(_, fields) => {
            assert forall|i: int|
                0 <= i < fields.len() && (#[trigger] fields[i]).1 is Some && holds_within(
                    fields[i].1->Some_0,
                    p,
                ) implies holds_within(fields[i].1->Some_0, q) by {
                lemma_holds_weaker(fields[i].1->Some_0, p, q);
            }
        },
        ExprTree::Vec(items) | ExprTree::Tuple(items) => {
            assert forall|i: int| 0 <= i < items.len() && holds_within(
                #[trigger] items[i],
                p,
            ) implies holds_within(items[i], q) by {
                lemma_holds_weaker(items[i], p, q);
            }
        },
        ExprTree::Range(from, to) => {
            if let Some(e) = from {
                lemma_holds_weaker(*e, p, q);
            }
            if let Some(e) = to {
                lemma_holds_weaker(*e, p, q);
            }
        },
        ExprTree::Closure(_, body) => lemma_holds_weaker(*body, p, q),
        ExprTree::Let(_, inner) => lemma_holds_weaker(*inner, p, q),
        _ => {},
    }
}

pub(crate) proof fn lemma_holds_weaker_in_block(
    block: BlockTree,
    p: spec_fn(ExprTree) -> bool,
    q: spec_fn(ExprTree) -> bool,
)
    requires
        forall|e: ExprTree| #[trigger] p(e) ==> q(e),
    ensures
        holds_in_block(block, p) ==> holds_in_block(block, q),
    decreases block,
{
    assert forall|i: int| 0 <= i < block.statements.len() && holds_in_stmt(
        #[trigger] block.statements[i],
        p,
    ) implies holds_in_stmt(block.statements[i], q) by {
        assert(decreases_to!(block => block.statements));
        assert(decreases_to!(block.statements => block.statements[i]));
        match block.statements[i] {
            StmtTree::Local(_, expr) => lemma_holds_weaker(expr, p, q),
            StmtTree::Expr(expr) => lemma_holds_weaker(expr, p, q),
            StmtTree::Semi(expr) => lemma_holds_weaker(expr, p, q),
            StmtTree::Other => {},
        }
    }
}

proof fn lemma_holds_weaker_in_condition(
    condition: ConditionTree,
    p: spec_fn(ExprTree) -> bool,
    q: spec_fn(ExprTree) -> bool,
)
    requires
        forall|e: ExprTree| #[trigger] p(e) ==> q(e),
    ensures
        holds_in_condition(condition, p) ==> holds_in_condition(condition, q),
    decreases condition,
{
    match condition {
        ConditionTree::Expr(expr) => lemma_holds_weaker(expr, p, q),
        ConditionTree::Let(_, expr) => lemma_holds_weaker(expr, p, q),
        ConditionTree::Other => {},
    }
}

/// What satisfies a predicate in a part satisfies it in the whole.
proof fn lemma_part_holds(part: ExprTree, whole: ExprTree, p: spec_fn(ExprTree) -> bool)
    requires
        is_part(part, whole),
        holds_within(part, p),
    ensures
        holds_within(whole, p),
{
    match whole {
        ExprTree::Block(block) => lemma_part_holds_in_block(part, block, p),
        ExprTree::Loop(body) => lemma_part_holds_in_block(part, body, p),
        ExprTree::While(condition, body) => {
            if is_in_block(part, body) {
                lemma_part_holds_in_block(part, body, p);
            } else {
                assert(holds_in_condition(*condition, p));
            }
        },
        ExprTree::For(_, _, body) => {
            if is_in_block(part, body) {
                lemma_part_holds_in_block(part, body, p);
            }
        },
        ExprTree::If(branches, otherwise) => {
            if exists|i: int|
                0 <= i < branches.len() && is_in_branch(part, #[trigger] branches[i]) {
                let i = choose|i: int|
                    0 <= i < branches.len() && is_in_branch(part, #[trigger] branches[i]);
                if is_in_block(part, branches[i].1) {
                    lemma_part_holds_in_block(part, branches[i].1, p);
                }
                assert(holds_in_condition(branches[i].0, p) || holds_in_block(branches[i].1, p));
            } else {
                lemma_part_holds_in_block(part, otherwise->Some_0, p);
            }
        },
        ExprTree::Match(scrutinee, arms) => {
            if *scrutinee != part {
                let i = choose|i: int| 0 <= i < arms.len() && is_in_arm(part, #[trigger] arms[i]);
                assert(holds_within(arms[i].body, p) || (arms[i].guard matches Some(guard)
                    && holds_within(guard, p)));
            }
        },
        ExprTree::Select(arms) => {
            let i = choose|i: int| 0 <= i < arms.len() && is_in_select(part, #[trigger] arms[i]);
            assert(holds_within(arms[i].body, p) || (arms[i].binding matches Some(binding)
                && holds_within(binding.1, p)));
        },
        ExprTree::Call(callee, args, _) => {
            if *callee != part {
                let i = choose|i: int| 0 <= i < args.len() && args[i] == part;
                assert(holds_within(args[i], p));
            }
        },
        ExprTree::Object(_, fields) => {
            let i = choose|i: int| 0 <= i < fields.len() && (#[trigger] fields[i]).1 == Some(part);
            assert(fields[i].1 is Some && holds_within(fields[i].1->Some_0, p));
        },
        ExprTree::Vec(items) => {
            let i = choose|i: int| 0 <= i < items.len() && items[i] == part;
            assert(holds_within(items[i], p));
        },
        ExprTree::Tuple(items) => {
            let i = choose|i: int| 0 <= i < items.len() && items[i] == part;
            assert(holds_within(items[i], p));
        },
        _ => {},
    }
}

proof fn lemma_part_holds_in_block(
    part: ExprTree,
    block: BlockTree,
    p: spec_fn(ExprTree) -> bool,
)
    requires
        is_in_block(part, block),
        holds_within(part, p),
    ensures
        holds_in_block(block, p),
{
    let i = choose|i: int|
        0 <= i < block.statements.len() && holds_expr(#[trigger] block.statements[i], part);
    assert(holds_in_stmt(block.statements[i], p));
}

proof fn lemma_part_of_block(block: BlockTree, p: spec_fn(ExprTree) -> bool) -> (part: ExprTree)
    requires
        holds_in_block(block, p),
    ensures
        is_in_block(part, block),
        holds_within(part, p),
{
    let i = choose|i: int|
        0 <= i < block.statements.len() && holds_in_stmt(#[trigger] block.statements[i], p);
    let part = match block.statements[i] {
        StmtTree::Local(_, e) => e,
        StmtTree::Expr(e) => e,
        StmtTree::Semi(e) => e,
        StmtTree::Other => arbitrary(),
    };
    assert(holds_expr(block.statements[i], part));
    part
}

proof fn lemma_part_of_condition(
    condition: ConditionTree,
    p: spec_fn(ExprTree) -> bool,
) -> (part: ExprTree)
    requires
        holds_in_condition(condition, p),
    ensures
        is_in_condition(part, condition),
        holds_within(part, p),
{
    match condition {
        ConditionTree::Expr(e) => e,
        ConditionTree::Let(_, e) => e,
        ConditionTree::Other => arbitrary(),
    }
}

/// The part in which what satisfies a predicate stands.
proof fn lemma_part_found(whole: ExprTree, p: spec_fn(ExprTree) -> bool) -> (part: ExprTree)
    requires
        holds_within(whole, p),
        !p(whole),
    ensures
        is_part(part, whole),
        holds_within(part, p),
{
    match whole {
        ExprTree::Return(inner) => *inner->Some_0,
        ExprTree::Break(inner) => *inner->Some_0,
        ExprTree::Yield(inner) => *inner->Some_0,
        ExprTree::Block(block) => lemma_part_of_block(block, p),
        ExprTree::Loop(body) => lemma_part_of_block(body, p),
        ExprTree::While(condition, body) => if holds_in_condition(*condition, p) {
            lemma_part_of_condition(*condition, p)
        } else {
            lemma_part_of_block(body, p)
        },
        ExprTree::For(_, iter, body) => if holds_within(*iter, p) {
            *iter
        } else {
            lemma_part_of_block(body, p)
        },
        ExprTree::If(branches, otherwise) => if exists|i: int|
            0 <= i < branches.len() && (holds_in_condition((#[trigger] branches[i]).0, p)
                || holds_in_block(branches[i].1, p)) {
            let i = choose|i: int|
                0 <= i < branches.len() && (holds_in_condition((#[trigger] branches[i]).0, p)
                    || holds_in_block(branches[i].1, p));
            let part = if holds_in_condition(branches[i].0, p) {
                lemma_part_of_condition(branches[i].0, p)
            } else {
                lemma_part_of_block(branches[i].1, p)
            };
            assert(is_in_branch(part, branches[i]));
            part
        } else {
            lemma_part_of_block(otherwise->Some_0, p)
        },
        ExprTree::Match(scrutinee, arms) => if holds_within(*scrutinee, p) {
            *scrutinee
        } else {
            let i = choose|i: int|
                0 <= i < arms.len() && (holds_within((#[trigger] arms[i]).body, p) || (
                arms[i].guard matches Some(guard) && holds_within(guard, p)));
            let part = if holds_within(arms[i].body, p) {
                arms[i].body
            } else {
                arms[i].guard->Some_0
            };
            assert(is_in_arm(part, arms[i]));
            part
        },
        ExprTree::Select(arms) => {
            let i = choose|i: int|
                0 <= i < arms.len() && (holds_within((#[trigger] arms[i]).body, p) || (
                arms[i].binding matches Some(binding) && holds_within(binding.1, p)));
            let part = if holds_within(arms[i].body, p) {
                arms[i].body
            } else {
                arms[i].binding->Some_0.1
            };
            assert(is_in_select(part, arms[i]));
            part
        },
        ExprTree::Binary(lhs, rhs) => if holds_within(*lhs, p) {
            *lhs
        } else {
            *rhs
        },
        ExprTree::Logic(lhs, rhs) => if holds_within(*lhs, p) {
            *lhs
        } else {
            *rhs
        },
        ExprTree::Assign(lhs, rhs) => if holds_within(*lhs, p) {
            *lhs
        } else {
            *rhs
        },
        ExprTree::Index(lhs, rhs) => if holds_within(*lhs, p) {
            *lhs
        } else {
            *rhs
        },
        ExprTree::Unary(inner) => *inner,
        ExprTree::Group(inner) => *inner,
        ExprTree::Await(inner) => *inner,
        ExprTree::Try(inner, _) => *inner,
        ExprTree::FieldAccess(inner, _) => *inner,
        ExprTree::Call(callee, args, _) => if holds_within(*callee, p) {
            *callee
        } else {
            let i = choose|i: int| 0 <= i < args.len() && holds_within(#[trigger] args[i], p);
            args[i]
        },
        ExprTree::Object(_, fields) => {
            let i = choose|i: int|
                0 <= i < fields.len() && (#[trigger] fields[i]).1 is Some && holds_within(
                    fields[i].1->Some_0,
                    p,
                );
            assert(fields[i].1 == Some(fields[i].1->Some_0));
            fields[i].1->Some_0
        },
        ExprTree::Vec(items) => {
            let i = choose|i: int| 0 <= i < items.len() && holds_within(#[trigger] items[i], p);
            items[i]
        },
        ExprTree::Tuple(items) => {
            let i = choose|i: int| 0 <= i < items.len() && holds_within(#[trigger] items[i], p);
            items[i]
        },
        ExprTree::Range(from, to) => if from is Some && holds_within(*from->Some_0, p) {
            *from->Some_0
        } else {
            *to->Some_0
        },
        ExprTree::Closure(_, body) => *body,
        ExprTree::Let(_, inner) => *inner,
        _ => arbitrary(),
    }
}

/// What stands anywhere in an expression is the expression itself, or stands
/// in one of its direct sub-expressions.
pub proof fn what_stands_in_an_expression_stands_in_its_parts(
    expr: ExprTree,
    p: spec_fn(ExprTree) -> bool,
)
    ensures
        holds_within(expr, p) <==> p(expr) || exists|i: int|
            0 <= i < sub_exprs(expr).len() && holds_within(#[trigger] sub_exprs(expr)[i], p),
{
    let parts = sub_exprs(expr);
    if holds_within(expr, p) && !p(expr) {
        let part = lemma_part_found(expr, p);
        sub_expressions_are_the_parts(part, expr);
        let k = choose|k: int| 0 <= k < parts.len() && parts[k] == part;
        assert(holds_within(sub_exprs(expr)[k], p));
    }
    if exists|i: int| 0 <= i < parts.len() && holds_within(#[trigger] sub_exprs(expr)[i], p) {
        let i = choose|i: int|
            0 <= i < parts.len() && holds_within(#[trigger] sub_exprs(expr)[i], p);
        sub_expressions_are_the_parts(parts[i], expr);
        assert(parts.contains(parts[i]));
        lemma_part_holds(parts[i], expr, p);
    }
}

} // verus!
