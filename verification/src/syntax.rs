//! The syntax trees of scripts, reduced to what the checks read.
//!
//! Each kind of node comes twice: as a data type (`ExprNode`) and as the
//! mathematical value that it stands for (`ExprTree`). Names and literals are
//! kept as spans of the source text.

use vstd::prelude::*;

use crate::source_text::{fits, is_position, str_fits};

verus! {

// ---------------------------------------------------------------------------
// The data types.
// ---------------------------------------------------------------------------

/// A range of bytes of the source text.
#[derive(Debug, Clone, Copy, PartialEq, Eq, Structural)]
pub struct Span {
    pub start: usize,
    pub end: usize,
}

/// `a::b::c`; a segment that is not an identifier has no span.
#[derive(Debug)]
pub struct PathNode {
    /// Whether the path starts with `::`.
    pub global: bool,
    /// Whether the path ends with `::`.
    pub trailing: bool,
    pub segments: Vec<Option<Span>>,
}

/// How a string literal is written in the source text.
#[derive(Debug, Clone, Copy, PartialEq, Eq, Structural)]
pub struct StrText {
    /// Whether the text has escape sequences.
    pub escaped: bool,
    /// Whether the span has the quotes in it.
    pub wrapped: bool,
}

/// A string literal; one that does not stand in the source has no text.
#[derive(Debug, Clone, Copy, PartialEq, Eq, Structural)]
pub struct StrLit {
    pub span: Span,
    pub text: Option<StrText>,
}

/// The base of a number literal.
#[derive(Debug, Clone, Copy, PartialEq, Eq, Structural)]
pub enum Base {
    Binary,
    Octal,
    Decimal,
    Hex,
    Other,
}

/// How a number literal is written in the source text.
#[derive(Debug, Clone, Copy, PartialEq, Eq, Structural)]
pub struct NumberText {
    pub is_fractional: bool,
    pub base: Base,
    /// The digits, without a suffix.
    pub number: Span,
}

/// A number literal; one that does not stand in the source has no text.
#[derive(Debug, Clone, Copy, PartialEq, Eq, Structural)]
pub struct NumberLit {
    pub span: Span,
    pub text: Option<NumberText>,
}

/// A literal.
#[derive(Debug, Clone, Copy, PartialEq, Eq, Structural)]
pub enum LitNode {
    Bool(bool),
    Str(StrLit),
    Number(NumberLit),
    ByteStr,
    Other,
}

/// What follows the dot of a field access.
#[derive(Debug)]
pub enum FieldNode {
    Path(PathNode),
    /// `tuple.0`, by the span of the number.
    Number(Span),
    Other,
}

/// The key of an object field.
#[derive(Debug)]
pub enum KeyNode {
    Path(PathNode),
    Str(StrLit),
    Other,
}

/// A pattern.
#[derive(Debug)]
pub enum PatNode {
    Path(PathNode),
    Vec(Vec<PatNode>),
    /// `(a, b)` or `Some(a)`
    Tuple(Option<PathNode>, Vec<PatNode>),
    Object(Vec<PatNode>),
    /// `key: pattern`
    Binding(Box<PatNode>),
    Other,
}

/// An expression.
#[derive(Debug)]
pub enum ExprNode {
    Path(PathNode),
    Lit(LitNode),
    Return(Option<Box<ExprNode>>),
    Break(Option<Box<ExprNode>>),
    Yield(Option<Box<ExprNode>>),
    Block(BlockNode),
    Loop(BlockNode),
    While(Box<ConditionNode>, BlockNode),
    For(PatNode, Box<ExprNode>, BlockNode),
    /// The branches with a condition, and the last `else`.
    If(Vec<(ConditionNode, BlockNode)>, Option<BlockNode>),
    Match(Box<ExprNode>, Vec<ArmNode>),
    Select(Vec<SelectNode>),
    Binary(Box<ExprNode>, Box<ExprNode>),
    /// `a && b` or `a || b`, of which `b` may not run.
    Logic(Box<ExprNode>, Box<ExprNode>),
    Assign(Box<ExprNode>, Box<ExprNode>),
    Index(Box<ExprNode>, Box<ExprNode>),
    Unary(Box<ExprNode>),
    Group(Box<ExprNode>),
    Await(Box<ExprNode>),
    /// `expr?`, with the span of the question mark.
    Try(Box<ExprNode>, Span),
    FieldAccess(Box<ExprNode>, FieldNode),
    /// `callee(args)`, with the span of the whole call.
    Call(Box<ExprNode>, Vec<ExprNode>, Span),
    /// `#{ key: value }`, or `Name { key: value }` where it is not anonymous.
    Object(bool, Vec<(KeyNode, Option<ExprNode>)>),
    Vec(Vec<ExprNode>),
    Tuple(Vec<ExprNode>),
    Range(Option<Box<ExprNode>>, Option<Box<ExprNode>>),
    /// The parameters (`None` for `self`) and the body.
    Closure(Vec<Option<PatNode>>, Box<ExprNode>),
    Let(PatNode, Box<ExprNode>),
    Other,
}

/// One arm of a `match`.
#[derive(Debug)]
pub struct ArmNode {
    pub pat: PatNode,
    pub guard: Option<ExprNode>,
    pub body: ExprNode,
}

/// One arm of a `select`: `pattern = expr => body` or `default => body`.
#[derive(Debug)]
pub struct SelectNode {
    pub binding: Option<(PatNode, ExprNode)>,
    pub body: ExprNode,
}

/// `{ statements }`
#[derive(Debug)]
pub struct BlockNode {
    pub statements: Vec<StmtNode>,
}

/// A statement.
#[derive(Debug)]
pub enum StmtNode {
    /// `let pattern = expr;`
    Local(PatNode, ExprNode),
    /// An expression without a semicolon.
    Expr(ExprNode),
    /// `expr;`
    Semi(ExprNode),
    Other,
}

/// The condition of an `if` or a `while`.
#[derive(Debug)]
pub enum ConditionNode {
    Expr(ExprNode),
    Let(PatNode, ExprNode),
    Other,
}

/// A function of the script.
#[derive(Debug)]
pub struct FnItem {
    /// Where `pub` starts, and so on for the modifiers.
    pub visibility: Option<usize>,
    pub const_token: Option<usize>,
    pub async_token: Option<usize>,
    pub fn_token: usize,
    pub name: Span,
    /// The parameters; `None` for `self`.
    pub args: Vec<Option<PatNode>>,
    pub body: BlockNode,
}

/// A top-level item.
#[derive(Debug)]
pub enum ItemNode {
    Fn(FnItem),
    Other,
}

/// A script.
#[derive(Debug)]
pub struct Script {
    pub items: Vec<ItemNode>,
}

// ---------------------------------------------------------------------------
// The mathematical values.
// ---------------------------------------------------------------------------

#[verifier::ext_equal]
pub struct PathTree {
    pub global: bool,
    pub trailing: bool,
    pub segments: Seq<Option<Span>>,
}

#[verifier::ext_equal]
pub enum FieldTree {
    Path(PathTree),
    Number(Span),
    Other,
}

#[verifier::ext_equal]
pub enum KeyTree {
    Path(PathTree),
    Str(StrLit),
    Other,
}

#[verifier::ext_equal]
pub enum PatTree {
    Path(PathTree),
    Vec(Seq<PatTree>),
    Tuple(Option<PathTree>, Seq<PatTree>),
    Object(Seq<PatTree>),
    Binding(Box<PatTree>),
    Other,
}

#[verifier::ext_equal]
pub enum ExprTree {
    Path(PathTree),
    Lit(LitNode),
    Return(Option<Box<ExprTree>>),
    Break(Option<Box<ExprTree>>),
    Yield(Option<Box<ExprTree>>),
    Block(BlockTree),
    Loop(BlockTree),
    While(Box<ConditionTree>, BlockTree),
    For(PatTree, Box<ExprTree>, BlockTree),
    If(Seq<(ConditionTree, BlockTree)>, Option<BlockTree>),
    Match(Box<ExprTree>, Seq<ArmTree>),
    Select(Seq<SelectTree>),
    Binary(Box<ExprTree>, Box<ExprTree>),
    Logic(Box<ExprTree>, Box<ExprTree>),
    Assign(Box<ExprTree>, Box<ExprTree>),
    Index(Box<ExprTree>, Box<ExprTree>),
    Unary(Box<ExprTree>),
    Group(Box<ExprTree>),
    Await(Box<ExprTree>),
    Try(Box<ExprTree>, Span),
    FieldAccess(Box<ExprTree>, FieldTree),
    Call(Box<ExprTree>, Seq<ExprTree>, Span),
    Object(bool, Seq<(KeyTree, Option<ExprTree>)>),
    Vec(Seq<ExprTree>),
    Tuple(Seq<ExprTree>),
    Range(Option<Box<ExprTree>>, Option<Box<ExprTree>>),
    Closure(Seq<Option<PatTree>>, Box<ExprTree>),
    Let(PatTree, Box<ExprTree>),
    Other,
}

#[verifier::ext_equal]
pub struct ArmTree {
    pub pat: PatTree,
    pub guard: Option<ExprTree>,
    pub body: ExprTree,
}

#[verifier::ext_equal]
pub struct SelectTree {
    pub binding: Option<(PatTree, ExprTree)>,
    pub body: ExprTree,
}

#[verifier::ext_equal]
pub struct BlockTree {
    pub statements: Seq<StmtTree>,
}

#[verifier::ext_equal]
pub enum StmtTree {
    Local(PatTree, ExprTree),
    Expr(ExprTree),
    Semi(ExprTree),
    Other,
}

#[verifier::ext_equal]
pub enum ConditionTree {
    Expr(ExprTree),
    Let(PatTree, ExprTree),
    Other,
}

#[verifier::ext_equal]
pub struct FnTree {
    pub visibility: Option<usize>,
    pub const_token: Option<usize>,
    pub async_token: Option<usize>,
    pub fn_token: usize,
    pub name: Span,
    pub args: Seq<Option<PatTree>>,
    pub body: BlockTree,
}

#[verifier::ext_equal]
pub enum ItemTree {
    Fn(FnTree),
    Other,
}

#[verifier::ext_equal]
pub struct ScriptTree {
    pub items: Seq<ItemTree>,
}

// ---------------------------------------------------------------------------
// From the data to the mathematical values.
// ---------------------------------------------------------------------------

impl View for PathNode {
    type V = PathTree;

    open spec fn view(&self) -> PathTree {
        PathTree { global: self.global, trailing: self.trailing, segments: self.segments@ }
    }
}

impl View for FieldNode {
    type V = FieldTree;

    open spec fn view(&self) -> FieldTree {
        match self {
            FieldNode::Path(path) => FieldTree::Path(path@),
            FieldNode::Number(span) => FieldTree::Number(*span),
            FieldNode::Other => FieldTree::Other,
        }
    }
}

impl View for KeyNode {
    type V = KeyTree;

    open spec fn view(&self) -> KeyTree {
        match self {
            KeyNode::Path(path) => KeyTree::Path(path@),
            KeyNode::Str(lit) => KeyTree::Str(*lit),
            KeyNode::Other => KeyTree::Other,
        }
    }
}

pub open spec fn pat_model(pat: PatNode) -> PatTree
    decreases pat,
{
    match pat {
        PatNode::Path(path) => PatTree::Path(path@),
        PatNode::Vec(items) => PatTree::Vec(pats_model(items@)),
        PatNode::Tuple(path, items) => PatTree::Tuple(
            match path {
                Some(path) => Some(path@),
                None => None,
            },
            pats_model(items@),
        ),
        PatNode::Object(items) => PatTree::Object(pats_model(items@)),
        PatNode::Binding(inner) => PatTree::Binding(Box::new(pat_model(*inner))),
        PatNode::Other => PatTree::Other,
    }
}

pub open spec fn pats_model(pats: Seq<PatNode>) -> Seq<PatTree>
    decreases pats,
{
    Seq::new(
        pats.len(),
        |i: int|
            if 0 <= i < pats.len() {
                pat_model(pats[i])
            } else {
                arbitrary()
            },
    )
}

/// Parameters as mathematical values.
pub open spec fn args_model(args: Seq<Option<PatNode>>) -> Seq<Option<PatTree>> {
    args.map_values(
        |arg: Option<PatNode>|
            match arg {
                Some(pat) => Some(pat_model(pat)),
                None => None,
            },
    )
}

pub open spec fn expr_model(expr: ExprNode) -> ExprTree
    decreases expr,
{
    match expr {
        ExprNode::Path(path) => ExprTree::Path(path@),
        ExprNode::Lit(lit) => ExprTree::Lit(lit),
        ExprNode::Return(inner) => ExprTree::Return(boxed_model(inner)),
        ExprNode::Break(inner) => ExprTree::Break(boxed_model(inner)),
        ExprNode::Yield(inner) => ExprTree::Yield(boxed_model(inner)),
        ExprNode::Block(block) => ExprTree::Block(block_model(block)),
        ExprNode::Loop(body) => ExprTree::Loop(block_model(body)),
        ExprNode::While(condition, body) => ExprTree::While(
            Box::new(condition_model(*condition)),
            block_model(body),
        ),
        ExprNode::For(pat, iter, body) => ExprTree::For(
            pat_model(pat),
            Box::new(expr_model(*iter)),
            block_model(body),
        ),
        ExprNode::If(branches, otherwise) => ExprTree::If(
            branches_model(branches@),
            match otherwise {
                Some(block) => Some(block_model(block)),
                None => None,
            },
        ),
        ExprNode::Match(scrutinee, arms) => ExprTree::Match(
            Box::new(expr_model(*scrutinee)),
            arms_model(arms@),
        ),
        ExprNode::Select(arms) => ExprTree::Select(selects_model(arms@)),
        ExprNode::Binary(lhs, rhs) => ExprTree::Binary(
            Box::new(expr_model(*lhs)),
            Box::new(expr_model(*rhs)),
        ),
        ExprNode::Logic(lhs, rhs) => ExprTree::Logic(
            Box::new(expr_model(*lhs)),
            Box::new(expr_model(*rhs)),
        ),
        ExprNode::Assign(lhs, rhs) => ExprTree::Assign(
            Box::new(expr_model(*lhs)),
            Box::new(expr_model(*rhs)),
        ),
        ExprNode::Index(target, index) => ExprTree::Index(
            Box::new(expr_model(*target)),
            Box::new(expr_model(*index)),
        ),
        ExprNode::Unary(inner) => ExprTree::Unary(Box::new(expr_model(*inner))),
        ExprNode::Group(inner) => ExprTree::Group(Box::new(expr_model(*inner))),
        ExprNode::Await(inner) => ExprTree::Await(Box::new(expr_model(*inner))),
        ExprNode::Try(inner, span) => ExprTree::Try(Box::new(expr_model(*inner)), span),
        ExprNode::FieldAccess(inner, field) => ExprTree::FieldAccess(
            Box::new(expr_model(*inner)),
            field@,
        ),
        ExprNode::Call(callee, args, span) => ExprTree::Call(
            Box::new(expr_model(*callee)),
            exprs_model(args@),
            span,
        ),
        ExprNode::Object(anonymous, fields) => ExprTree::Object(
            anonymous,
            object_fields_model(fields@),
        ),
        ExprNode::Vec(items) => ExprTree::Vec(exprs_model(items@)),
        ExprNode::Tuple(items) => ExprTree::Tuple(exprs_model(items@)),
        ExprNode::Range(from, to) => ExprTree::Range(boxed_model(from), boxed_model(to)),
        ExprNode::Closure(args, body) => ExprTree::Closure(
            args_model(args@),
            Box::new(expr_model(*body)),
        ),
        ExprNode::Let(pat, inner) => ExprTree::Let(pat_model(pat), Box::new(expr_model(*inner))),
        ExprNode::Other => ExprTree::Other,
    }
}

pub open spec fn boxed_model(expr: Option<Box<ExprNode>>) -> Option<Box<ExprTree>>
    decreases expr,
{
    match expr {
        Some(expr) => Some(Box::new(expr_model(*expr))),
        None => None,
    }
}

pub open spec fn optional_model(expr: Option<ExprNode>) -> Option<ExprTree>
    decreases expr,
{
    match expr {
        Some(expr) => Some(expr_model(expr)),
        None => None,
    }
}

pub open spec fn exprs_model(exprs: Seq<ExprNode>) -> Seq<ExprTree>
    decreases exprs,
{
    Seq::new(
        exprs.len(),
        |i: int|
            if 0 <= i < exprs.len() {
                expr_model(exprs[i])
            } else {
                arbitrary()
            },
    )
}

pub open spec fn branches_model(branches: Seq<(ConditionNode, BlockNode)>) -> Seq<
    (ConditionTree, BlockTree),
>
    decreases branches,
{
    Seq::new(
        branches.len(),
        |i: int|
            if 0 <= i < branches.len() {
                (condition_model(branches[i].0), block_model(branches[i].1))
            } else {
                arbitrary()
            },
    )
}

pub open spec fn object_fields_model(fields: Seq<(KeyNode, Option<ExprNode>)>) -> Seq<
    (KeyTree, Option<ExprTree>),
>
    decreases fields,
{
    Seq::new(
        fields.len(),
        |i: int|
            if 0 <= i < fields.len() {
                (fields[i].0@, optional_model(fields[i].1))
            } else {
                arbitrary()
            },
    )
}

pub open spec fn arm_model(arm: ArmNode) -> ArmTree
    decreases arm,
{
    ArmTree {
        pat: pat_model(arm.pat),
        guard: optional_model(arm.guard),
        body: expr_model(arm.body),
    }
}

pub open spec fn arms_model(arms: Seq<ArmNode>) -> Seq<ArmTree>
    decreases arms,
{
    Seq::new(
        arms.len(),
        |i: int|
            if 0 <= i < arms.len() {
                arm_model(arms[i])
            } else {
                arbitrary()
            },
    )
}

pub open spec fn select_model(arm: SelectNode) -> SelectTree
    decreases arm,
{
    SelectTree {
        binding: match arm.binding {
            Some(binding) => Some((pat_model(binding.0), expr_model(binding.1))),
            None => None,
        },
        body: expr_model(arm.body),
    }
}

pub open spec fn selects_model(arms: Seq<SelectNode>) -> Seq<SelectTree>
    decreases arms,
{
    Seq::new(
        arms.len(),
        |i: int|
            if 0 <= i < arms.len() {
                select_model(arms[i])
            } else {
                arbitrary()
            },
    )
}

pub open spec fn block_model(block: BlockNode) -> BlockTree
    decreases block,
{
    BlockTree { statements: stmts_model(block.statements@) }
}

pub open spec fn stmts_model(stmts: Seq<StmtNode>) -> Seq<StmtTree>
    decreases stmts,
{
    Seq::new(
        stmts.len(),
        |i: int|
            if 0 <= i < stmts.len() {
                stmt_model(stmts[i])
            } else {
                arbitrary()
            },
    )
}

pub open spec fn stmt_model(stmt: StmtNode) -> StmtTree
    decreases stmt,
{
    match stmt {
        StmtNode::Local(pat, expr) => StmtTree::Local(pat_model(pat), expr_model(expr)),
        StmtNode::Expr(expr) => StmtTree::Expr(expr_model(expr)),
        StmtNode::Semi(expr) => StmtTree::Semi(expr_model(expr)),
        StmtNode::Other => StmtTree::Other,
    }
}

pub open spec fn condition_model(condition: ConditionNode) -> ConditionTree
    decreases condition,
{
    match condition {
        ConditionNode::Expr(expr) => ConditionTree::Expr(expr_model(expr)),
        ConditionNode::Let(pat, expr) => ConditionTree::Let(pat_model(pat), expr_model(expr)),
        ConditionNode::Other => ConditionTree::Other,
    }
}

impl View for PatNode {
    type V = PatTree;

    open spec fn view(&self) -> PatTree {
        pat_model(*self)
    }
}

impl View for ExprNode {
    type V = ExprTree;

    open spec fn view(&self) -> ExprTree {
        expr_model(*self)
    }
}

impl View for ArmNode {
    type V = ArmTree;

    open spec fn view(&self) -> ArmTree {
        arm_model(*self)
    }
}

impl View for SelectNode {
    type V = SelectTree;

    open spec fn view(&self) -> SelectTree {
        select_model(*self)
    }
}

impl View for BlockNode {
    type V = BlockTree;

    open spec fn view(&self) -> BlockTree {
        block_model(*self)
    }
}

impl View for StmtNode {
    type V = StmtTree;

    open spec fn view(&self) -> StmtTree {
        stmt_model(*self)
    }
}

impl View for ConditionNode {
    type V = ConditionTree;

    open spec fn view(&self) -> ConditionTree {
        condition_model(*self)
    }
}

impl View for FnItem {
    type V = FnTree;

    open spec fn view(&self) -> FnTree {
        FnTree {
            visibility: self.visibility,
            const_token: self.const_token,
            async_token: self.async_token,
            fn_token: self.fn_token,
            name: self.name,
            args: args_model(self.args@),
            body: self.body@,
        }
    }
}

impl View for ItemNode {
    type V = ItemTree;

    open spec fn view(&self) -> ItemTree {
        match self {
            ItemNode::Fn(item) => ItemTree::Fn(item@),
            ItemNode::Other => ItemTree::Other,
        }
    }
}

impl View for Script {
    type V = ScriptTree;

    open spec fn view(&self) -> ScriptTree {
        ScriptTree { items: self.items@.map_values(|item: ItemNode| item@) }
    }
}

// ---------------------------------------------------------------------------
// Direct sub-expressions.
// ---------------------------------------------------------------------------

/// The expressions that stand directly in an expression, in the order in
/// which they are written. Those of a block are the expressions of its
/// statements.
pub open spec fn sub_exprs(expr: ExprTree) -> Seq<ExprTree> {
    match expr {
        ExprTree::Path(_) => Seq::empty(),
        ExprTree::Lit(_) => Seq::empty(),
        ExprTree::Return(inner) => boxed_expr(inner),
        ExprTree::Break(inner) => boxed_expr(inner),
        ExprTree::Yield(inner) => boxed_expr(inner),
        ExprTree::Block(block) => block_exprs(block),
        ExprTree::Loop(body) => block_exprs(body),
        ExprTree::While(condition, body) => condition_exprs(*condition) + block_exprs(body),
        ExprTree::For(_, iter, body) => seq![*iter] + block_exprs(body),
        ExprTree::If(branches, otherwise) => branch_exprs(branches, branches.len()) + (
        match otherwise {
            Some(block) => block_exprs(block),
            None => Seq::empty(),
        }),
        ExprTree::Match(scrutinee, arms) => seq![*scrutinee] + arm_exprs(arms, arms.len()),
        ExprTree::Select(arms) => select_exprs(arms, arms.len()),
        ExprTree::Binary(lhs, rhs) => seq![*lhs, *rhs],
        ExprTree::Logic(lhs, rhs) => seq![*lhs, *rhs],
        ExprTree::Assign(lhs, rhs) => seq![*lhs, *rhs],
        ExprTree::Index(target, index) => seq![*target, *index],
        ExprTree::Unary(inner) => seq![*inner],
        ExprTree::Group(inner) => seq![*inner],
        ExprTree::Await(inner) => seq![*inner],
        ExprTree::Try(inner, _) => seq![*inner],
        ExprTree::FieldAccess(inner, _) => seq![*inner],
        ExprTree::Call(callee, args, _) => seq![*callee] + args,
        ExprTree::Object(_, fields) => field_exprs(fields, fields.len()),
        ExprTree::Vec(items) => items,
        ExprTree::Tuple(items) => items,
        ExprTree::Range(from, to) => boxed_expr(from) + boxed_expr(to),
        ExprTree::Closure(_, body) => seq![*body],
        ExprTree::Let(_, inner) => seq![*inner],
        ExprTree::Other => Seq::empty(),
    }
}

pub open spec fn boxed_expr(expr: Option<Box<ExprTree>>) -> Seq<ExprTree> {
    match expr {
        Some(expr) => seq![*expr],
        None => Seq::empty(),
    }
}

pub open spec fn optional_expr(expr: Option<ExprTree>) -> Seq<ExprTree> {
    match expr {
        Some(expr) => seq![expr],
        None => Seq::empty(),
    }
}

pub open spec fn stmt_expr(stmt: StmtTree) -> Seq<ExprTree> {
    match stmt {
        StmtTree::Local(_, expr) => seq![expr],
        StmtTree::Expr(expr) => seq![expr],
        StmtTree::Semi(expr) => seq![expr],
        StmtTree::Other => Seq::empty(),
    }
}

/// The expressions of the first `n` statements.
pub open spec fn stmt_exprs(stmts: Seq<StmtTree>, n: nat) -> Seq<ExprTree>
    decreases n,
{
    if n == 0 {
        Seq::empty()
    } else {
        stmt_exprs(stmts, (n - 1) as nat) + stmt_expr(stmts[n - 1])
    }
}

pub open spec fn block_exprs(block: BlockTree) -> Seq<ExprTree> {
    stmt_exprs(block.statements, block.statements.len())
}

pub open spec fn condition_exprs(condition: ConditionTree) -> Seq<ExprTree> {
    match condition {
        ConditionTree::Expr(expr) => seq![expr],
        ConditionTree::Let(_, expr) => seq![expr],
        ConditionTree::Other => Seq::empty(),
    }
}

/// The expressions of the first `n` branches.
pub open spec fn branch_exprs(branches: Seq<(ConditionTree, BlockTree)>, n: nat) -> Seq<ExprTree>
    decreases n,
{
    if n == 0 {
        Seq::empty()
    } else {
        branch_exprs(branches, (n - 1) as nat) + condition_exprs(branches[n - 1].0) + block_exprs(
            branches[n - 1].1,
        )
    }
}

/// The values of the first `n` fields that have one.
pub open spec fn field_exprs(fields: Seq<(KeyTree, Option<ExprTree>)>, n: nat) -> Seq<ExprTree>
    decreases n,
{
    if n == 0 {
        Seq::empty()
    } else {
        field_exprs(fields, (n - 1) as nat) + optional_expr(fields[n - 1].1)
    }
}

/// The expressions of the first `n` arms of a `match`.
pub open spec fn arm_exprs(arms: Seq<ArmTree>, n: nat) -> Seq<ExprTree>
    decreases n,
{
    if n == 0 {
        Seq::empty()
    } else {
        arm_exprs(arms, (n - 1) as nat) + optional_expr(arms[n - 1].guard) + seq![arms[n - 1].body]
    }
}

pub open spec fn select_expr(arm: SelectTree) -> Seq<ExprTree> {
    (match arm.binding {
        Some(binding) => seq![binding.1],
        None => Seq::empty(),
    }) + seq![arm.body]
}

/// The expressions of the first `n` arms of a `select`.
pub open spec fn select_exprs(arms: Seq<SelectTree>, n: nat) -> Seq<ExprTree>
    decreases n,
{
    if n == 0 {
        Seq::empty()
    } else {
        select_exprs(arms, (n - 1) as nat) + select_expr(arms[n - 1])
    }
}

/// A direct sub-expression is smaller than the expression that it stands in.
pub proof fn lemma_sub_exprs_smaller(expr: ExprTree)
    ensures
        forall|i: int|
            #![trigger sub_exprs(expr)[i]]
            0 <= i < sub_exprs(expr).len() ==> decreases_to!(expr => sub_exprs(expr)[i]),
{
    match expr {
        ExprTree::Block(block) => lemma_block_smaller(block),
        ExprTree::Loop(body) => lemma_block_smaller(body),
        ExprTree::While(condition, body) => {
            lemma_block_smaller(body);
        },
        ExprTree::For(_, iter, body) => {
            lemma_block_smaller(body);
        },
        ExprTree::If(branches, otherwise) => {
            lemma_branches_smaller(branches, branches.len());
            if let Some(block) = otherwise {
                lemma_block_smaller(block);
            }
        },
        ExprTree::Match(scrutinee, arms) => {
            lemma_arms_smaller(arms, arms.len());
        },
        ExprTree::Select(arms) => {
            lemma_selects_smaller(arms, arms.len());
        },
        ExprTree::Object(_, fields) => {
            lemma_fields_smaller(fields, fields.len());
        },
        _ => {},
    }
}

proof fn lemma_stmts_smaller(stmts: Seq<StmtTree>, n: nat)
    requires
        n <= stmts.len(),
    ensures
        forall|i: int|
            #![trigger stmt_exprs(stmts, n)[i]]
            0 <= i < stmt_exprs(stmts, n).len() ==> decreases_to!(stmts => stmt_exprs(stmts, n)[i]),
    decreases n,
{
    if n > 0 {
        lemma_stmts_smaller(stmts, (n - 1) as nat);
        let before = stmt_exprs(stmts, (n - 1) as nat);
        let stmt = stmts[n - 1];
        assert(decreases_to!(stmts => stmt));
        assert(stmt is Local ==> decreases_to!(stmt => stmt->Local_1));
        assert(stmt is Expr ==> decreases_to!(stmt => stmt->Expr_0));
        assert(stmt is Semi ==> decreases_to!(stmt => stmt->Semi_0));
        assert(forall|i: int|
            0 <= i < before.len() ==> before[i] == #[trigger] stmt_exprs(stmts, n)[i]);
    }
}

pub proof fn lemma_block_smaller(block: BlockTree)
    ensures
        forall|i: int|
            #![trigger block_exprs(block)[i]]
            0 <= i < block_exprs(block).len() ==> decreases_to!(block => block_exprs(block)[i]),
{
    lemma_stmts_smaller(block.statements, block.statements.len());
    assert(decreases_to!(block => block.statements));
}

proof fn lemma_branches_smaller(branches: Seq<(ConditionTree, BlockTree)>, n: nat)
    requires
        n <= branches.len(),
    ensures
        forall|i: int|
            #![trigger branch_exprs(branches, n)[i]]
            0 <= i < branch_exprs(branches, n).len() ==> decreases_to!(
                branches => branch_exprs(branches, n)[i]
            ),
    decreases n,
{
    if n > 0 {
        lemma_branches_smaller(branches, (n - 1) as nat);
        lemma_block_smaller(branches[n - 1].1);
        let before = branch_exprs(branches, (n - 1) as nat);
        let branch = branches[n - 1];
        let first = condition_exprs(branch.0);
        let block = block_exprs(branch.1);
        assert(decreases_to!(branches => branch));
        assert(decreases_to!(branch => branch.0));
        assert(decreases_to!(branch => branch.1));
        assert(branch.0 is Expr ==> decreases_to!(branch.0 => branch.0->Expr_0));
        assert(branch.0 is Let ==> decreases_to!(branch.0 => branch.0->Let_1));
        assert forall|i: int|
            #![trigger branch_exprs(branches, n)[i]]
            0 <= i < branch_exprs(branches, n).len() implies decreases_to!(
                branches => branch_exprs(branches, n)[i]
            ) by {
            if i < before.len() {
                assert(before[i] == branch_exprs(branches, n)[i]);
            } else if i < before.len() + first.len() {
                assert(first[i - before.len()] == branch_exprs(branches, n)[i]);
            } else {
                assert(block[i - before.len() - first.len()] == branch_exprs(branches, n)[i]);
            }
        }
    }
}

proof fn lemma_fields_smaller(fields: Seq<(KeyTree, Option<ExprTree>)>, n: nat)
    requires
        n <= fields.len(),
    ensures
        forall|i: int|
            #![trigger field_exprs(fields, n)[i]]
            0 <= i < field_exprs(fields, n).len() ==> decreases_to!(
                fields => field_exprs(fields, n)[i]
            ),
    decreases n,
{
    if n > 0 {
        lemma_fields_smaller(fields, (n - 1) as nat);
        let before = field_exprs(fields, (n - 1) as nat);
        let field = fields[n - 1];
        assert(decreases_to!(fields => field));
        assert(decreases_to!(field => field.1));
        assert(field.1 is Some ==> decreases_to!(field.1 => field.1->Some_0));
        assert(forall|i: int|
            0 <= i < before.len() ==> before[i] == #[trigger] field_exprs(fields, n)[i]);
    }
}

proof fn lemma_arms_smaller(arms: Seq<ArmTree>, n: nat)
    requires
        n <= arms.len(),
    ensures
        forall|i: int|
            #![trigger arm_exprs(arms, n)[i]]
            0 <= i < arm_exprs(arms, n).len() ==> decreases_to!(arms => arm_exprs(arms, n)[i]),
    decreases n,
{
    if n > 0 {
        lemma_arms_smaller(arms, (n - 1) as nat);
        let before = arm_exprs(arms, (n - 1) as nat);
        let arm = arms[n - 1];
        assert(decreases_to!(arms => arm));
        assert(decreases_to!(arm => arm.guard));
        assert(decreases_to!(arm => arm.body));
        assert(arm.guard is Some ==> decreases_to!(arm.guard => arm.guard->Some_0));
        assert(forall|i: int|
            0 <= i < before.len() ==> before[i] == #[trigger] arm_exprs(arms, n)[i]);
    }
}

proof fn lemma_selects_smaller(arms: Seq<SelectTree>, n: nat)
    requires
        n <= arms.len(),
    ensures
        forall|i: int|
            #![trigger select_exprs(arms, n)[i]]
            0 <= i < select_exprs(arms, n).len() ==> decreases_to!(
                arms => select_exprs(arms, n)[i]
            ),
    decreases n,
{
    if n > 0 {
        lemma_selects_smaller(arms, (n - 1) as nat);
        let before = select_exprs(arms, (n - 1) as nat);
        let arm = arms[n - 1];
        assert(decreases_to!(arms => arm));
        assert(decreases_to!(arm => arm.binding));
        assert(decreases_to!(arm => arm.body));
        assert(arm.binding is Some ==> decreases_to!(arm.binding => arm.binding->Some_0));
        assert(arm.binding is Some ==> decreases_to!(arm.binding->Some_0 => arm.binding->Some_0.1));
        assert(forall|i: int|
            0 <= i < before.len() ==> before[i] == #[trigger] select_exprs(arms, n)[i]);
    }
}

// ---------------------------------------------------------------------------
// Trees of a source: their spans cover whole characters of it.
// ---------------------------------------------------------------------------

pub open spec fn path_fits(path: PathTree, source: Seq<char>) -> bool {
    forall|i: int|
        0 <= i < path.segments.len() ==> (#[trigger] path.segments[i] is Some ==> fits(
            source,
            path.segments[i]->Some_0,
        ))
}

pub open spec fn lit_fits(lit: LitNode, source: Seq<char>) -> bool {
    match lit {
        LitNode::Str(lit) => str_fits(source, lit),
        LitNode::Number(lit) => match lit.text {
            Some(text) => fits(source, text.number) && fits(
                source,
                (Span { start: text.number.end, end: lit.span.end }),
            ),
            None => true,
        },
        _ => true,
    }
}

pub open spec fn field_fits(field: FieldTree, source: Seq<char>) -> bool {
    match field {
        FieldTree::Path(path) => path_fits(path, source),
        FieldTree::Number(span) => fits(source, span),
        FieldTree::Other => true,
    }
}

pub open spec fn key_fits(key: KeyTree, source: Seq<char>) -> bool {
    match key {
        KeyTree::Path(path) => path_fits(path, source),
        KeyTree::Str(lit) => str_fits(source, lit),
        KeyTree::Other => true,
    }
}

pub open spec fn pat_fits(pat: PatTree, source: Seq<char>) -> bool
    decreases pat,
{
    match pat {
        PatTree::Path(path) => path_fits(path, source),
        PatTree::Vec(items) => pats_fit(items, source),
        PatTree::Tuple(path, items) => (path is Some ==> path_fits(path->Some_0, source))
            && pats_fit(items, source),
        PatTree::Object(items) => pats_fit(items, source),
        PatTree::Binding(inner) => pat_fits(*inner, source),
        PatTree::Other => true,
    }
}

pub open spec fn pats_fit(pats: Seq<PatTree>, source: Seq<char>) -> bool
    decreases pats,
{
    forall|i: int| 0 <= i < pats.len() ==> pat_fits(#[trigger] pats[i], source)
}

pub open spec fn args_fit(args: Seq<Option<PatTree>>, source: Seq<char>) -> bool {
    forall|i: int|
        0 <= i < args.len() ==> (#[trigger] args[i] is Some ==> pat_fits(args[i]->Some_0, source))
}

/// A span of at least one character.
pub open spec fn token_fits(span: Span, source: Seq<char>) -> bool {
    fits(source, span) && span.start < span.end
}

pub open spec fn expr_fits(expr: ExprTree, source: Seq<char>) -> bool
    decreases expr,
{
    match expr {
        ExprTree::Path(path) => path_fits(path, source),
        ExprTree::Lit(lit) => lit_fits(lit, source),
        ExprTree::Return(inner) => boxed_fits(inner, source),
        ExprTree::Break(inner) => boxed_fits(inner, source),
        ExprTree::Yield(inner) => boxed_fits(inner, source),
        ExprTree::Block(block) => block_fits(block, source),
        ExprTree::Loop(body) => block_fits(body, source),
        ExprTree::While(condition, body) => condition_fits(*condition, source) && block_fits(
            body,
            source,
        ),
        ExprTree::For(pat, iter, body) => pat_fits(pat, source) && expr_fits(*iter, source)
            && block_fits(body, source),
        ExprTree::If(branches, otherwise) => branches_fit(branches, source) && (
        match otherwise {
            Some(block) => block_fits(block, source),
            None => true,
        }),
        ExprTree::Match(scrutinee, arms) => expr_fits(*scrutinee, source) && arms_fit(
            arms,
            source,
        ),
        ExprTree::Select(arms) => selects_fit(arms, source),
        ExprTree::Binary(lhs, rhs) => expr_fits(*lhs, source) && expr_fits(*rhs, source),
        ExprTree::Logic(lhs, rhs) => expr_fits(*lhs, source) && expr_fits(*rhs, source),
        ExprTree::Assign(lhs, rhs) => expr_fits(*lhs, source) && expr_fits(*rhs, source),
        ExprTree::Index(target, index) => expr_fits(*target, source) && expr_fits(*index, source),
        ExprTree::Unary(inner) => expr_fits(*inner, source),
        ExprTree::Group(inner) => expr_fits(*inner, source),
        ExprTree::Await(inner) => expr_fits(*inner, source),
        ExprTree::Try(inner, span) => expr_fits(*inner, source) && token_fits(span, source),
        ExprTree::FieldAccess(inner, field) => expr_fits(*inner, source) && field_fits(
            field,
            source,
        ),
        ExprTree::Call(callee, args, span) => expr_fits(*callee, source) && exprs_fit(args, source)
            && token_fits(span, source),
        ExprTree::Object(_, fields) => fields_fit(fields, source),
        ExprTree::Vec(items) => exprs_fit(items, source),
        ExprTree::Tuple(items) => exprs_fit(items, source),
        ExprTree::Range(from, to) => boxed_fits(from, source) && boxed_fits(to, source),
        ExprTree::Closure(args, body) => args_fit(args, source) && expr_fits(*body, source),
        ExprTree::Let(pat, inner) => pat_fits(pat, source) && expr_fits(*inner, source),
        ExprTree::Other => true,
    }
}

pub open spec fn boxed_fits(expr: Option<Box<ExprTree>>, source: Seq<char>) -> bool
    decreases expr,
{
    match expr {
        Some(expr) => expr_fits(*expr, source),
        None => true,
    }
}

pub open spec fn optional_fits(expr: Option<ExprTree>, source: Seq<char>) -> bool
    decreases expr,
{
    match expr {
        Some(expr) => expr_fits(expr, source),
        None => true,
    }
}

pub open spec fn exprs_fit(exprs: Seq<ExprTree>, source: Seq<char>) -> bool
    decreases exprs,
{
    forall|i: int| 0 <= i < exprs.len() ==> expr_fits(#[trigger] exprs[i], source)
}

pub open spec fn branches_fit(branches: Seq<(ConditionTree, BlockTree)>, source: Seq<char>) -> bool
    decreases branches,
{
    forall|i: int|
        0 <= i < branches.len() ==> condition_fits((#[trigger] branches[i]).0, source)
            && block_fits(branches[i].1, source)
}

pub open spec fn fields_fit(fields: Seq<(KeyTree, Option<ExprTree>)>, source: Seq<char>) -> bool
    decreases fields,
{
    forall|i: int|
        0 <= i < fields.len() ==> key_fits((#[trigger] fields[i]).0, source) && optional_fits(
            fields[i].1,
            source,
        )
}

pub open spec fn arm_fits(arm: ArmTree, source: Seq<char>) -> bool
    decreases arm,
{
    pat_fits(arm.pat, source) && optional_fits(arm.guard, source) && expr_fits(arm.body, source)
}

pub open spec fn arms_fit(arms: Seq<ArmTree>, source: Seq<char>) -> bool
    decreases arms,
{
    forall|i: int| 0 <= i < arms.len() ==> arm_fits(#[trigger] arms[i], source)
}

pub open spec fn select_fits(arm: SelectTree, source: Seq<char>) -> bool
    decreases arm,
{
    (match arm.binding {
        Some(binding) => pat_fits(binding.0, source) && expr_fits(binding.1, source),
        None => true,
    }) && expr_fits(arm.body, source)
}

pub open spec fn selects_fit(arms: Seq<SelectTree>, source: Seq<char>) -> bool
    decreases arms,
{
    forall|i: int| 0 <= i < arms.len() ==> select_fits(#[trigger] arms[i], source)
}

pub open spec fn block_fits(block: BlockTree, source: Seq<char>) -> bool
    decreases block,
{
    forall|i: int|
        0 <= i < block.statements.len() ==> stmt_fits(#[trigger] block.statements[i], source)
}

pub open spec fn stmt_fits(stmt: StmtTree, source: Seq<char>) -> bool
    decreases stmt,
{
    match stmt {
        StmtTree::Local(pat, expr) => pat_fits(pat, source) && expr_fits(expr, source),
        StmtTree::Expr(expr) => expr_fits(expr, source),
        StmtTree::Semi(expr) => expr_fits(expr, source),
        StmtTree::Other => true,
    }
}

pub open spec fn condition_fits(condition: ConditionTree, source: Seq<char>) -> bool
    decreases condition,
{
    match condition {
        ConditionTree::Expr(expr) => expr_fits(expr, source),
        ConditionTree::Let(pat, expr) => pat_fits(pat, source) && expr_fits(expr, source),
        ConditionTree::Other => true,
    }
}

pub open spec fn modifier_fits(at: Option<usize>, source: Seq<char>) -> bool {
    at is Some ==> is_position(source, at->Some_0 as int)
}

pub open spec fn fn_fits(item: FnTree, source: Seq<char>) -> bool {
    &&& modifier_fits(item.visibility, source)
    &&& modifier_fits(item.const_token, source)
    &&& modifier_fits(item.async_token, source)
    &&& is_position(source, item.fn_token as int)
    &&& fits(source, item.name)
    &&& args_fit(item.args, source)
    &&& block_fits(item.body, source)
}

pub open spec fn item_fits(item: ItemTree, source: Seq<char>) -> bool {
    match item {
        ItemTree::Fn(item) => fn_fits(item, source),
        ItemTree::Other => true,
    }
}

pub open spec fn script_fits(script: ScriptTree, source: Seq<char>) -> bool {
    forall|i: int| 0 <= i < script.items.len() ==> item_fits(#[trigger] script.items[i], source)
}

/// What fits of an expression fits of its direct sub-expressions.
pub proof fn lemma_sub_exprs_fit(expr: ExprTree, source: Seq<char>)
    requires
        expr_fits(expr, source),
    ensures
        exprs_fit(sub_exprs(expr), source),
{
    match expr {
        ExprTree::Block(block) => lemma_block_exprs_fit(block, source),
        ExprTree::Loop(body) => lemma_block_exprs_fit(body, source),
        ExprTree::Return(inner) => assert(boxed_fits(inner, source)),
        ExprTree::Break(inner) => assert(boxed_fits(inner, source)),
        ExprTree::Yield(inner) => assert(boxed_fits(inner, source)),
        ExprTree::Range(from, to) => assert(boxed_fits(from, source) && boxed_fits(to, source)),
        ExprTree::While(condition, body) => {
            lemma_block_exprs_fit(body, source);
            assert(condition_fits(*condition, source));
        },
        ExprTree::For(_, _, body) => lemma_block_exprs_fit(body, source),
        ExprTree::If(branches, otherwise) => {
            lemma_branch_exprs_fit(branches, branches.len(), source);
            if let Some(block) = otherwise {
                lemma_block_exprs_fit(block, source);
            }
        },
        ExprTree::Match(_, arms) => lemma_arm_exprs_fit(arms, arms.len(), source),
        ExprTree::Select(arms) => lemma_select_exprs_fit(arms, arms.len(), source),
        ExprTree::Call(_, args, _) => {
            assert(exprs_fit(args, source));
            assert forall|i: int| 0 <= i < sub_exprs(expr).len() implies expr_fits(
                #[trigger] sub_exprs(expr)[i],
                source,
            ) by {
                if i > 0 {
                    assert(expr_fits(args[i - 1], source));
                }
            }
        },
        ExprTree::Object(_, fields) => lemma_field_exprs_fit(fields, fields.len(), source),
        _ => {},
    }
}

/// What fits of a block fits of the expressions of its statements.
pub proof fn lemma_block_exprs_fit(block: BlockTree, source: Seq<char>)
    requires
        block_fits(block, source),
    ensures
        exprs_fit(block_exprs(block), source),
{
    lemma_stmt_exprs_fit(block, block.statements.len(), source);
}

proof fn lemma_stmt_exprs_fit(block: BlockTree, n: nat, source: Seq<char>)
    requires
        block_fits(block, source),
        n <= block.statements.len(),
    ensures
        exprs_fit(stmt_exprs(block.statements, n), source),
    decreases n,
{
    if n > 0 {
        lemma_stmt_exprs_fit(block, (n - 1) as nat, source);
        assert(stmt_fits(block.statements[n - 1], source));
    }
}

proof fn lemma_branch_exprs_fit(
    branches: Seq<(ConditionTree, BlockTree)>,
    n: nat,
    source: Seq<char>,
)
    requires
        branches_fit(branches, source),
        n <= branches.len(),
    ensures
        exprs_fit(branch_exprs(branches, n), source),
    decreases n,
{
    if n > 0 {
        lemma_branch_exprs_fit(branches, (n - 1) as nat, source);
        let branch = branches[n - 1];
        assert(condition_fits(branch.0, source) && block_fits(branch.1, source));
        lemma_block_exprs_fit(branch.1, source);
    }
}

proof fn lemma_field_exprs_fit(
    fields: Seq<(KeyTree, Option<ExprTree>)>,
    n: nat,
    source: Seq<char>,
)
    requires
        fields_fit(fields, source),
        n <= fields.len(),
    ensures
        exprs_fit(field_exprs(fields, n), source),
    decreases n,
{
    if n > 0 {
        lemma_field_exprs_fit(fields, (n - 1) as nat, source);
        assert(optional_fits(fields[n - 1].1, source));
    }
}

proof fn lemma_arm_exprs_fit(arms: Seq<ArmTree>, n: nat, source: Seq<char>)
    requires
        arms_fit(arms, source),
        n <= arms.len(),
    ensures
        exprs_fit(arm_exprs(arms, n), source),
    decreases n,
{
    if n > 0 {
        lemma_arm_exprs_fit(arms, (n - 1) as nat, source);
        assert(arm_fits(arms[n - 1], source));
    }
}

proof fn lemma_select_exprs_fit(arms: Seq<SelectTree>, n: nat, source: Seq<char>)
    requires
        selects_fit(arms, source),
        n <= arms.len(),
    ensures
        exprs_fit(select_exprs(arms, n), source),
    decreases n,
{
    if n > 0 {
        lemma_select_exprs_fit(arms, (n - 1) as nat, source);
        assert(select_fits(arms[n - 1], source));
    }
}

// ---------------------------------------------------------------------------
// Collecting direct sub-expressions.
// ---------------------------------------------------------------------------

/// Expressions as mathematical values.
pub open spec fn refs_model(exprs: Seq<&ExprNode>) -> Seq<ExprTree> {
    exprs.map_values(|expr: &ExprNode| expr@)
}

fn push_expr<'a>(out: &mut Vec<&'a ExprNode>, expr: &'a ExprNode)
    ensures
        refs_model(final(out)@) == refs_model(old(out)@) + seq![expr@],
{
    out.push(expr);
    assert(refs_model(out@) =~= refs_model(old(out)@) + seq![expr@]);
}

fn push_boxed<'a>(out: &mut Vec<&'a ExprNode>, expr: &'a Option<Box<ExprNode>>)
    ensures
        refs_model(final(out)@) == refs_model(old(out)@) + boxed_expr(boxed_model(*expr)),
{
    if let Some(expr) = expr {
        push_expr(out, expr);
    } else {
        assert(refs_model(out@) =~= refs_model(out@) + Seq::<ExprTree>::empty());
    }
}

fn push_optional<'a>(out: &mut Vec<&'a ExprNode>, expr: &'a Option<ExprNode>)
    ensures
        refs_model(final(out)@) == refs_model(old(out)@) + optional_expr(optional_model(*expr)),
{
    if let Some(expr) = expr {
        push_expr(out, expr);
    } else {
        assert(refs_model(out@) =~= refs_model(out@) + Seq::<ExprTree>::empty());
    }
}

fn push_exprs<'a>(out: &mut Vec<&'a ExprNode>, exprs: &'a Vec<ExprNode>)
    ensures
        refs_model(final(out)@) == refs_model(old(out)@) + exprs_model(exprs@),
{
    assert(exprs_model(exprs@).take(0) =~= Seq::<ExprTree>::empty());
    for i in 0..exprs.len()
        invariant
            refs_model(out@) =~= refs_model(old(out)@) + exprs_model(exprs@).take(i as int),
    {
        push_expr(out, &exprs[i]);
        assert(exprs_model(exprs@)[i as int] == exprs@[i as int]@);
    }
    assert(exprs_model(exprs@).take(exprs@.len() as int) =~= exprs_model(exprs@));
}

fn push_condition<'a>(out: &mut Vec<&'a ExprNode>, condition: &'a ConditionNode)
    ensures
        refs_model(final(out)@) == refs_model(old(out)@) + condition_exprs(condition@),
{
    match condition {
        ConditionNode::Expr(expr) => push_expr(out, expr),
        ConditionNode::Let(_, expr) => push_expr(out, expr),
        ConditionNode::Other => {
            assert(refs_model(out@) =~= refs_model(out@) + Seq::<ExprTree>::empty());
        },
    }
}

fn push_block<'a>(out: &mut Vec<&'a ExprNode>, block: &'a BlockNode)
    ensures
        refs_model(final(out)@) == refs_model(old(out)@) + block_exprs(block@),
{
    let ghost stmts = stmts_model(block.statements@);
    for i in 0..block.statements.len()
        invariant
            stmts == stmts_model(block.statements@),
            refs_model(out@) =~= refs_model(old(out)@) + stmt_exprs(stmts, i as nat),
    {
        assert(stmts[i as int] == block.statements@[i as int]@);
        match &block.statements[i] {
            StmtNode::Local(_, expr) => push_expr(out, expr),
            StmtNode::Expr(expr) => push_expr(out, expr),
            StmtNode::Semi(expr) => push_expr(out, expr),
            StmtNode::Other => {},
        }
    }
    assert(block@.statements == stmts);
}

fn push_branches<'a>(
    out: &mut Vec<&'a ExprNode>,
    branches: &'a Vec<(ConditionNode, BlockNode)>,
)
    ensures
        refs_model(final(out)@) == refs_model(old(out)@) + branch_exprs(
            branches_model(branches@),
            branches@.len(),
        ),
{
    let ghost trees = branches_model(branches@);
    for i in 0..branches.len()
        invariant
            trees == branches_model(branches@),
            refs_model(out@) =~= refs_model(old(out)@) + branch_exprs(trees, i as nat),
    {
        assert(trees[i as int] == (branches@[i as int].0@, branches@[i as int].1@));
        push_condition(out, &branches[i].0);
        push_block(out, &branches[i].1);
    }
}

fn push_arms<'a>(out: &mut Vec<&'a ExprNode>, arms: &'a Vec<ArmNode>)
    ensures
        refs_model(final(out)@) == refs_model(old(out)@) + arm_exprs(
            arms_model(arms@),
            arms@.len(),
        ),
{
    let ghost trees = arms_model(arms@);
    for i in 0..arms.len()
        invariant
            trees == arms_model(arms@),
            refs_model(out@) =~= refs_model(old(out)@) + arm_exprs(trees, i as nat),
    {
        assert(trees[i as int] == arms@[i as int]@);
        push_optional(out, &arms[i].guard);
        push_expr(out, &arms[i].body);
    }
}

fn push_selects<'a>(out: &mut Vec<&'a ExprNode>, arms: &'a Vec<SelectNode>)
    ensures
        refs_model(final(out)@) == refs_model(old(out)@) + select_exprs(
            selects_model(arms@),
            arms@.len(),
        ),
{
    let ghost trees = selects_model(arms@);
    for i in 0..arms.len()
        invariant
            trees == selects_model(arms@),
            refs_model(out@) =~= refs_model(old(out)@) + select_exprs(trees, i as nat),
    {
        assert(trees[i as int] == arms@[i as int]@);
        if let Some(binding) = &arms[i].binding {
            push_expr(out, &binding.1);
        }
        push_expr(out, &arms[i].body);
    }
}

fn push_fields<'a>(out: &mut Vec<&'a ExprNode>, fields: &'a Vec<(KeyNode, Option<ExprNode>)>)
    ensures
        refs_model(final(out)@) == refs_model(old(out)@) + field_exprs(
            object_fields_model(fields@),
            fields@.len(),
        ),
{
    let ghost trees = object_fields_model(fields@);
    for i in 0..fields.len()
        invariant
            trees == object_fields_model(fields@),
            refs_model(out@) =~= refs_model(old(out)@) + field_exprs(trees, i as nat),
    {
        assert(trees[i as int].1 == optional_model(fields@[i as int].1));
        push_optional(out, &fields[i].1);
    }
}

/// The expressions of the statements of a block.
pub fn block_expr_list<'a>(block: &'a BlockNode) -> (r: Vec<&'a ExprNode>)
    ensures
        refs_model(r@) == block_exprs(block@),
{
    let mut out: Vec<&'a ExprNode> = Vec::new();
    assert(refs_model(out@) =~= Seq::<ExprTree>::empty());
    push_block(&mut out, block);
    assert(refs_model(out@) =~= block_exprs(block@));
    out
}

/// The direct sub-expressions of an expression.
pub fn direct_exprs<'a>(expr: &'a ExprNode) -> (r: Vec<&'a ExprNode>)
    ensures
        refs_model(r@) == sub_exprs(expr@),
{
    let mut out: Vec<&'a ExprNode> = Vec::new();
    assert(refs_model(out@) =~= Seq::<ExprTree>::empty());
    match expr {
        ExprNode::Path(_) | ExprNode::Lit(_) | ExprNode::Other => {},
        ExprNode::Return(inner) | ExprNode::Break(inner) | ExprNode::Yield(inner) => push_boxed(
            &mut out,
            inner,
        ),
        ExprNode::Block(block) | ExprNode::Loop(block) => push_block(&mut out, block),
        ExprNode::While(condition, body) => {
            push_condition(&mut out, condition);
            push_block(&mut out, body);
        },
        ExprNode::For(_, iter, body) => {
            push_expr(&mut out, iter);
            push_block(&mut out, body);
        },
        ExprNode::If(branches, otherwise) => {
            push_branches(&mut out, branches);
            if let Some(block) = otherwise {
                push_block(&mut out, block);
            }
        },
        ExprNode::Match(scrutinee, arms) => {
            push_expr(&mut out, scrutinee);
            push_arms(&mut out, arms);
        },
        ExprNode::Select(arms) => push_selects(&mut out, arms),
        ExprNode::Binary(a, b)
        | ExprNode::Logic(a, b)
        | ExprNode::Assign(a, b)
        | ExprNode::Index(a, b) => {
            push_expr(&mut out, a);
            push_expr(&mut out, b);
        },
        ExprNode::Unary(inner) | ExprNode::Group(inner) | ExprNode::Await(inner) => push_expr(
            &mut out,
            inner,
        ),
        ExprNode::Try(inner, _) => push_expr(&mut out, inner),
        ExprNode::FieldAccess(inner, _) => push_expr(&mut out, inner),
        ExprNode::Call(callee, args, _) => {
            push_expr(&mut out, callee);
            push_exprs(&mut out, args);
        },
        ExprNode::Object(_, fields) => push_fields(&mut out, fields),
        ExprNode::Vec(items) | ExprNode::Tuple(items) => push_exprs(&mut out, items),
        ExprNode::Range(from, to) => {
            push_boxed(&mut out, from);
            push_boxed(&mut out, to);
        },
        ExprNode::Closure(_, body) => push_expr(&mut out, body),
        ExprNode::Let(_, inner) => push_expr(&mut out, inner),
    }
    assert(refs_model(out@) =~= sub_exprs(expr@));
    out
}

} // verus!
