//! From the syntax trees of the Rune parser to those of this library.
//!
//! The values of the Rune parser are opaque. For each kind of node there is a
//! name for the tree that a value stands for, and a function that takes one
//! node apart into its parts; building the trees of this library from the
//! parts is verified.

use rune::ast;
use rune::ast::{OptionSpanned, Spanned};
use vstd::prelude::*;
use vstd::utf8::encode_utf8;

use crate::report::{CheckerError, ErrorModel};
use crate::syntax::{
    args_model, arms_model, boxed_model, branches_model, exprs_model, object_fields_model,
    optional_model, pats_model, script_fits, selects_model, stmts_model, ArmNode, ArmTree, Base,
    BlockNode, BlockTree, ConditionNode, ConditionTree, ExprNode, ExprTree, FieldNode, FieldTree,
    FnItem, FnTree, ItemNode, ItemTree, KeyNode, KeyTree, LitNode, NumberLit, NumberText, PatNode,
    PatTree, PathNode, PathTree, Script, ScriptTree, SelectNode, SelectTree, Span, StmtNode,
    StmtTree, StrLit, StrText,
};

verus! {

// ---------------------------------------------------------------------------
// The types of the Rune parser, and the trees that their values stand for.
// ---------------------------------------------------------------------------

/// `rune::ast::File`: a parsed script.
#[verifier::external_type_specification]
#[verifier::external_body]
pub struct ExFile(ast::File);

/// `rune::ast::ItemFn`: a function.
#[verifier::external_type_specification]
#[verifier::external_body]
pub struct ExItemFn(ast::ItemFn);

/// `rune::ast::Block`: a block of statements.
#[verifier::external_type_specification]
#[verifier::external_body]
pub struct ExBlock(ast::Block);

/// `rune::ast::Expr`: an expression.
#[verifier::external_type_specification]
#[verifier::external_body]
pub struct ExExpr(ast::Expr);

/// `rune::ast::Condition`: the condition of an `if` or a `while`.
#[verifier::external_type_specification]
#[verifier::external_body]
pub struct ExCondition(ast::Condition);

/// `rune::ast::Pat`: a pattern.
#[verifier::external_type_specification]
#[verifier::external_body]
pub struct ExPat(ast::Pat);

/// `rune::ast::Path`: a path.
#[verifier::external_type_specification]
#[verifier::external_body]
pub struct ExPath(ast::Path);

/// `rune::ast::LitStr`: a string literal.
#[verifier::external_type_specification]
#[verifier::external_body]
pub struct ExLitStr(ast::LitStr);

/// `rune::ast::LitNumber`: a number literal.
#[verifier::external_type_specification]
#[verifier::external_body]
pub struct ExLitNumber(ast::LitNumber);

/// `rune::compile::Error`: why a script does not parse.
#[verifier::external_type_specification]
#[verifier::external_body]
pub struct ExError(rune::compile::Error);

/// What the Rune parser makes of a source: the tree of the script, or the
/// message of the error.
pub uninterp spec fn parsed(source: Seq<char>) -> Result<ScriptTree, Seq<char>>;

/// The message of an error.
pub uninterp spec fn error_message(error: rune::compile::Error) -> Seq<char>;

/// The tree of a script.
pub uninterp spec fn file_tree(file: ast::File) -> ScriptTree;

/// The tree of a function.
pub uninterp spec fn fn_tree(item: ast::ItemFn) -> FnTree;

/// The tree of a block.
pub uninterp spec fn block_tree(block: ast::Block) -> BlockTree;

/// The tree of an expression.
pub uninterp spec fn expr_tree(expr: ast::Expr) -> ExprTree;

/// The tree of a condition.
pub uninterp spec fn condition_tree(condition: ast::Condition) -> ConditionTree;

/// The tree of a pattern.
pub uninterp spec fn pat_tree(pat: ast::Pat) -> PatTree;

/// The tree of a path.
pub uninterp spec fn path_tree(path: ast::Path) -> PathTree;

/// A string literal.
pub uninterp spec fn str_tree(lit: ast::LitStr) -> StrLit;

/// A number literal.
pub uninterp spec fn number_tree(lit: ast::LitNumber) -> NumberLit;

// ---------------------------------------------------------------------------
// The parts of a node.
// ---------------------------------------------------------------------------

/// The parts of a function.
struct FnShape<'a> {
    visibility: Option<usize>,
    const_token: Option<usize>,
    async_token: Option<usize>,
    fn_token: usize,
    name: Span,
    args: Vec<Option<&'a ast::Pat>>,
    body: &'a ast::Block,
}

/// The parts of a statement.
enum StmtShape<'a> {
    Local(&'a ast::Pat, &'a ast::Expr),
    Expr(&'a ast::Expr),
    Semi(&'a ast::Expr),
    Other,
}

/// The parts of a condition.
enum ConditionShape<'a> {
    Expr(&'a ast::Expr),
    Let(&'a ast::Pat, &'a ast::Expr),
    Other,
}

/// The parts of a pattern.
enum PatShape<'a> {
    Path(&'a ast::Path),
    Vec(Vec<&'a ast::Pat>),
    Tuple(Option<&'a ast::Path>, Vec<&'a ast::Pat>),
    Object(Vec<&'a ast::Pat>),
    Binding(&'a ast::Pat),
    Other,
}

/// What follows the dot of a field access.
enum FieldShape<'a> {
    Path(&'a ast::Path),
    Number(Span),
    Other,
}

/// The key of an object field.
enum KeyShape<'a> {
    Path(&'a ast::Path),
    Str(&'a ast::LitStr),
    Other,
}

/// The parts of an arm of a `match`: the pattern, the guard and the body.
type ArmShape<'a> = (&'a ast::Pat, Option<&'a ast::Expr>, &'a ast::Expr);

/// The parts of an arm of a `select`: what is awaited, and the body.
type SelectShape<'a> = (Option<(&'a ast::Pat, &'a ast::Expr)>, Option<&'a ast::Expr>);

/// The parts of an expression.
enum ExprShape<'a> {
    Path(&'a ast::Path),
    Bool(bool),
    Str(&'a ast::LitStr),
    Number(&'a ast::LitNumber),
    ByteStr,
    OtherLit,
    Return(Option<&'a ast::Expr>),
    Break(Option<&'a ast::Expr>),
    Yield(Option<&'a ast::Expr>),
    Block(&'a ast::Block),
    Loop(&'a ast::Block),
    While(&'a ast::Condition, &'a ast::Block),
    For(&'a ast::Pat, &'a ast::Expr, &'a ast::Block),
    If(Vec<(&'a ast::Condition, &'a ast::Block)>, Option<&'a ast::Block>),
    Match(&'a ast::Expr, Vec<ArmShape<'a>>),
    Select(Vec<SelectShape<'a>>),
    Binary(&'a ast::Expr, &'a ast::Expr),
    Logic(&'a ast::Expr, &'a ast::Expr),
    Assign(&'a ast::Expr, &'a ast::Expr),
    Index(&'a ast::Expr, &'a ast::Expr),
    Unary(&'a ast::Expr),
    Group(&'a ast::Expr),
    Await(&'a ast::Expr),
    Try(&'a ast::Expr, Span),
    FieldAccess(&'a ast::Expr, FieldShape<'a>),
    Call(&'a ast::Expr, Vec<&'a ast::Expr>, Span),
    Object(bool, Vec<(KeyShape<'a>, Option<&'a ast::Expr>)>),
    Vec(Vec<&'a ast::Expr>),
    Tuple(Vec<&'a ast::Expr>),
    Range(Option<&'a ast::Expr>, Option<&'a ast::Expr>),
    Closure(Vec<Option<&'a ast::Pat>>, &'a ast::Expr),
    Let(&'a ast::Pat, &'a ast::Expr),
}

// ---------------------------------------------------------------------------
// The trees that parts make up.
// ---------------------------------------------------------------------------

spec fn optional_tree(expr: Option<&ast::Expr>) -> Option<ExprTree> {
    match expr {
        Some(expr) => Some(expr_tree(*expr)),
        None => None,
    }
}

spec fn boxed_tree(expr: Option<&ast::Expr>) -> Option<Box<ExprTree>> {
    match expr {
        Some(expr) => Some(Box::new(expr_tree(*expr))),
        None => None,
    }
}

spec fn expr_trees(exprs: Seq<&ast::Expr>) -> Seq<ExprTree> {
    exprs.map_values(|expr: &ast::Expr| expr_tree(*expr))
}

spec fn pat_trees(pats: Seq<&ast::Pat>) -> Seq<PatTree> {
    pats.map_values(|pat: &ast::Pat| pat_tree(*pat))
}

spec fn arg_trees(args: Seq<Option<&ast::Pat>>) -> Seq<Option<PatTree>> {
    args.map_values(
        |arg: Option<&ast::Pat>|
            match arg {
                Some(pat) => Some(pat_tree(*pat)),
                None => None,
            },
    )
}

spec fn field_shape_tree(field: FieldShape) -> FieldTree {
    match field {
        FieldShape::Path(path) => FieldTree::Path(path_tree(*path)),
        FieldShape::Number(span) => FieldTree::Number(span),
        FieldShape::Other => FieldTree::Other,
    }
}

spec fn key_shape_tree(key: KeyShape) -> KeyTree {
    match key {
        KeyShape::Path(path) => KeyTree::Path(path_tree(*path)),
        KeyShape::Str(lit) => KeyTree::Str(str_tree(*lit)),
        KeyShape::Other => KeyTree::Other,
    }
}

spec fn arm_shape_tree(arm: ArmShape) -> ArmTree {
    ArmTree { pat: pat_tree(*arm.0), guard: optional_tree(arm.1), body: expr_tree(*arm.2) }
}

spec fn select_shape_tree(arm: SelectShape) -> SelectTree {
    SelectTree {
        binding: match arm.0 {
            Some(binding) => Some((pat_tree(*binding.0), expr_tree(*binding.1))),
            None => None,
        },
        body: match arm.1 {
            Some(body) => expr_tree(*body),
            None => ExprTree::Other,
        },
    }
}

spec fn arm_trees(arms: Seq<ArmShape>) -> Seq<ArmTree> {
    arms.map_values(|arm: ArmShape| arm_shape_tree(arm))
}

spec fn select_trees(arms: Seq<SelectShape>) -> Seq<SelectTree> {
    arms.map_values(|arm: SelectShape| select_shape_tree(arm))
}

spec fn branch_trees(branches: Seq<(&ast::Condition, &ast::Block)>) -> Seq<
    (ConditionTree, BlockTree),
> {
    branches.map_values(
        |branch: (&ast::Condition, &ast::Block)|
            (condition_tree(*branch.0), block_tree(*branch.1)),
    )
}

spec fn field_trees(fields: Seq<(KeyShape, Option<&ast::Expr>)>) -> Seq<
    (KeyTree, Option<ExprTree>),
> {
    fields.map_values(
        |field: (KeyShape, Option<&ast::Expr>)|
            (key_shape_tree(field.0), optional_tree(field.1)),
    )
}

spec fn stmt_shape_tree(stmt: StmtShape) -> StmtTree {
    match stmt {
        StmtShape::Local(pat, expr) => StmtTree::Local(pat_tree(*pat), expr_tree(*expr)),
        StmtShape::Expr(expr) => StmtTree::Expr(expr_tree(*expr)),
        StmtShape::Semi(expr) => StmtTree::Semi(expr_tree(*expr)),
        StmtShape::Other => StmtTree::Other,
    }
}

spec fn stmt_trees(stmts: Seq<StmtShape>) -> Seq<StmtTree> {
    stmts.map_values(|stmt: StmtShape| stmt_shape_tree(stmt))
}

spec fn condition_shape_tree(condition: ConditionShape) -> ConditionTree {
    match condition {
        ConditionShape::Expr(expr) => ConditionTree::Expr(expr_tree(*expr)),
        ConditionShape::Let(pat, expr) => ConditionTree::Let(pat_tree(*pat), expr_tree(*expr)),
        ConditionShape::Other => ConditionTree::Other,
    }
}

spec fn pat_shape_tree(pat: PatShape) -> PatTree {
    match pat {
        PatShape::Path(path) => PatTree::Path(path_tree(*path)),
        PatShape::Vec(items) => PatTree::Vec(pat_trees(items@)),
        PatShape::Tuple(path, items) => PatTree::Tuple(
            match path {
                Some(path) => Some(path_tree(*path)),
                None => None,
            },
            pat_trees(items@),
        ),
        PatShape::Object(items) => PatTree::Object(pat_trees(items@)),
        PatShape::Binding(inner) => PatTree::Binding(Box::new(pat_tree(*inner))),
        PatShape::Other => PatTree::Other,
    }
}

spec fn fn_shape_tree(item: FnShape) -> FnTree {
    FnTree {
        visibility: item.visibility,
        const_token: item.const_token,
        async_token: item.async_token,
        fn_token: item.fn_token,
        name: item.name,
        args: arg_trees(item.args@),
        body: block_tree(*item.body),
    }
}

spec fn item_trees(items: Seq<Option<&ast::ItemFn>>) -> Seq<ItemTree> {
    items.map_values(
        |item: Option<&ast::ItemFn>|
            match item {
                Some(item) => ItemTree::Fn(fn_tree(*item)),
                None => ItemTree::Other,
            },
    )
}

spec fn expr_shape_tree(expr: ExprShape) -> ExprTree {
    match expr {
        ExprShape::Path(path) => ExprTree::Path(path_tree(*path)),
        ExprShape::Bool(b) => ExprTree::Lit(LitNode::Bool(b)),
        ExprShape::Str(lit) => ExprTree::Lit(LitNode::Str(str_tree(*lit))),
        ExprShape::Number(lit) => ExprTree::Lit(LitNode::Number(number_tree(*lit))),
        ExprShape::ByteStr => ExprTree::Lit(LitNode::ByteStr),
        ExprShape::OtherLit => ExprTree::Lit(LitNode::Other),
        ExprShape::Return(inner) => ExprTree::Return(boxed_tree(inner)),
        ExprShape::Break(inner) => ExprTree::Break(boxed_tree(inner)),
        ExprShape::Yield(inner) => ExprTree::Yield(boxed_tree(inner)),
        ExprShape::Block(block) => ExprTree::Block(block_tree(*block)),
        ExprShape::Loop(body) => ExprTree::Loop(block_tree(*body)),
        ExprShape::While(condition, body) => ExprTree::While(
            Box::new(condition_tree(*condition)),
            block_tree(*body),
        ),
        ExprShape::For(pat, iter, body) => ExprTree::For(
            pat_tree(*pat),
            Box::new(expr_tree(*iter)),
            block_tree(*body),
        ),
        ExprShape::If(branches, otherwise) => ExprTree::If(
            branch_trees(branches@),
            match otherwise {
                Some(block) => Some(block_tree(*block)),
                None => None,
            },
        ),
        ExprShape::Match(scrutinee, arms) => ExprTree::Match(
            Box::new(expr_tree(*scrutinee)),
            arm_trees(arms@),
        ),
        ExprShape::Select(arms) => ExprTree::Select(select_trees(arms@)),
        ExprShape::Binary(lhs, rhs) => ExprTree::Binary(
            Box::new(expr_tree(*lhs)),
            Box::new(expr_tree(*rhs)),
        ),
        ExprShape::Logic(lhs, rhs) => ExprTree::Logic(
            Box::new(expr_tree(*lhs)),
            Box::new(expr_tree(*rhs)),
        ),
        ExprShape::Assign(lhs, rhs) => ExprTree::Assign(
            Box::new(expr_tree(*lhs)),
            Box::new(expr_tree(*rhs)),
        ),
        ExprShape::Index(target, index) => ExprTree::Index(
            Box::new(expr_tree(*target)),
            Box::new(expr_tree(*index)),
        ),
        ExprShape::Unary(inner) => ExprTree::Unary(Box::new(expr_tree(*inner))),
        ExprShape::Group(inner) => ExprTree::Group(Box::new(expr_tree(*inner))),
        ExprShape::Await(inner) => ExprTree::Await(Box::new(expr_tree(*inner))),
        ExprShape::Try(inner, span) => ExprTree::Try(Box::new(expr_tree(*inner)), span),
        ExprShape::FieldAccess(inner, field) => ExprTree::FieldAccess(
            Box::new(expr_tree(*inner)),
            field_shape_tree(field),
        ),
        ExprShape::Call(callee, args, span) => ExprTree::Call(
            Box::new(expr_tree(*callee)),
            expr_trees(args@),
            span,
        ),
        ExprShape::Object(anonymous, fields) => ExprTree::Object(anonymous, field_trees(fields@)),
        ExprShape::Vec(items) => ExprTree::Vec(expr_trees(items@)),
        ExprShape::Tuple(items) => ExprTree::Tuple(expr_trees(items@)),
        ExprShape::Range(from, to) => ExprTree::Range(boxed_tree(from), boxed_tree(to)),
        ExprShape::Closure(args, body) => ExprTree::Closure(
            arg_trees(args@),
            Box::new(expr_tree(*body)),
        ),
        ExprShape::Let(pat, inner) => ExprTree::Let(pat_tree(*pat), Box::new(expr_tree(*inner))),
    }
}

// ---------------------------------------------------------------------------
// Taking nodes apart.
// ---------------------------------------------------------------------------

/// `rune::parse::parse_all` parses a source as a file. The result depends on
/// the source alone, as long as no memory limit of `rune::alloc` is in force.
/// The spans of the tree cover whole characters of the source, those of `?`
/// and of a call at least one, the span of a string literal with its quotes
/// has both of them, and that of a number literal goes on behind the digits
/// with the suffix: the lexer advances by whole characters. It counts
/// bytes in 32 bits and panics on a longer source. Nothing is said of how
/// deep a source may be nested before the stack of the parser is full.
#[verifier::external_body]
fn parse_source(source: &str) -> (r: Result<ast::File, rune::compile::Error>)
    requires
        encode_utf8(source@).len() <= u32::MAX,
    ensures
        match r {
            Ok(file) => parsed(source@) == Ok::<ScriptTree, Seq<char>>(file_tree(file))
                && script_fits(file_tree(file), source@),
            Err(error) => parsed(source@) == Err::<ScriptTree, Seq<char>>(error_message(error)),
        },
{
    rune::parse::parse_all::<ast::File>(source, rune::SourceId::EMPTY, false)
}

/// The `Display` of `rune::compile::Error` writes the message of the error.
#[verifier::external_body]
fn message_of(error: &rune::compile::Error) -> (r: String)
    ensures
        r@ == error_message(*error),
{
    error.to_string()
}

/// The items of `rune::ast::File`: the functions among them, and a place for
/// each other item.
#[verifier::external_body]
fn file_items<'a>(file: &'a ast::File) -> (r: Vec<Option<&'a ast::ItemFn>>)
    ensures
        item_trees(r@) == file_tree(*file).items,
{
    file.items
        .iter()
        .map(|(item, _)| match item {
            ast::Item::Fn(item) => Some(item),
            _ => None,
        })
        .collect()
}

/// The fields of `rune::ast::ItemFn`: where its modifiers and `fn` start, its
/// name, its parameters and its body.
#[verifier::external_body]
fn fn_shape<'a>(item: &'a ast::ItemFn) -> (r: FnShape<'a>)
    ensures
        fn_shape_tree(r) == fn_tree(*item),
{
    let name = item.name.span;
    let args = item.args.iter().map(|(arg, _)| match arg {
        ast::FnArg::Pat(pat) => Some(pat),
        _ => None,
    });
    FnShape {
        visibility: item.visibility.option_span().map(|span| span.start.into_usize()),
        const_token: item.const_token.map(|token| token.span.start.into_usize()),
        async_token: item.async_token.map(|token| token.span.start.into_usize()),
        fn_token: item.fn_token.span.start.into_usize(),
        name: Span { start: name.start.into_usize(), end: name.end.into_usize() },
        args: args.collect(),
        body: &item.body,
    }
}

/// The statements of `rune::ast::Block`.
#[verifier::external_body]
fn block_shape<'a>(block: &'a ast::Block) -> (r: Vec<StmtShape<'a>>)
    ensures
        stmt_trees(r@) == block_tree(*block).statements,
{
    block.statements
        .iter()
        .map(|stmt| match stmt {
            ast::Stmt::Local(local) => StmtShape::Local(&local.pat, &local.expr),
            ast::Stmt::Expr(expr) => StmtShape::Expr(expr),
            ast::Stmt::Semi(semi) => StmtShape::Semi(&semi.expr),
            _ => StmtShape::Other,
        })
        .collect()
}

/// The variants of `rune::ast::Condition`.
#[verifier::external_body]
fn condition_shape<'a>(condition: &'a ast::Condition) -> (r: ConditionShape<'a>)
    ensures
        condition_shape_tree(r) == condition_tree(*condition),
{
    match condition {
        ast::Condition::Expr(expr) => ConditionShape::Expr(expr),
        ast::Condition::ExprLet(expr) => ConditionShape::Let(&expr.pat, &expr.expr),
        _ => ConditionShape::Other,
    }
}

/// The variants of `rune::ast::Pat` that can bind a name.
#[verifier::external_body]
fn pat_shape<'a>(pat: &'a ast::Pat) -> (r: PatShape<'a>)
    ensures
        pat_shape_tree(r) == pat_tree(*pat),
{
    match pat {
        ast::Pat::Path(p) => PatShape::Path(&p.path),
        ast::Pat::Vec(p) => PatShape::Vec(p.items.iter().map(|(item, _)| item).collect()),
        ast::Pat::Tuple(p) => PatShape::Tuple(
            p.path.as_ref(),
            p.items.iter().map(|(item, _)| item).collect(),
        ),
        ast::Pat::Object(p) => PatShape::Object(p.items.iter().map(|(item, _)| item).collect()),
        ast::Pat::Binding(p) => PatShape::Binding(&p.pat),
        _ => PatShape::Other,
    }
}

/// The fields of `rune::ast::Path`: whether it starts or ends with `::`, and
/// the spans of the segments that are identifiers.
#[verifier::external_body]
fn path_node(path: &ast::Path) -> (r: PathNode)
    ensures
        r@ == path_tree(*path),
{
    let segments = core::iter::once(&path.first).chain(path.rest.iter().map(|(_, rest)| rest));
    PathNode {
        global: path.global.is_some(),
        trailing: path.trailing.is_some(),
        segments: segments.map(|segment| match segment {
            ast::PathSegment::Ident(ident) => Some(
                Span { start: ident.span.start.into_usize(), end: ident.span.end.into_usize() },
            ),
            _ => None,
        }).collect(),
    }
}

/// The fields of `rune::ast::LitStr`.
#[verifier::external_body]
fn str_lit(lit: &ast::LitStr) -> (r: StrLit)
    ensures
        r == str_tree(*lit),
{
    StrLit {
        span: Span { start: lit.span.start.into_usize(), end: lit.span.end.into_usize() },
        text: match lit.source {
            ast::StrSource::Text(text) => Some(
                StrText { escaped: text.escaped, wrapped: text.wrapped },
            ),
            _ => None,
        },
    }
}

/// The fields of `rune::ast::LitNumber`.
#[verifier::external_body]
fn number_lit(lit: &ast::LitNumber) -> (r: NumberLit)
    ensures
        r == number_tree(*lit),
{
    let span = Span { start: lit.span.start.into_usize(), end: lit.span.end.into_usize() };
    let ast::NumberSource::Text(text) = lit.source else {
        return NumberLit { span, text: None };
    };
    let base = match text.base {
        ast::NumberBase::Binary => Base::Binary,
        ast::NumberBase::Octal => Base::Octal,
        ast::NumberBase::Hex => Base::Hex,
        ast::NumberBase::Decimal => Base::Decimal,
        _ => Base::Other,
    };
    let number = Span { start: text.number.start.into_usize(), end: text.number.end.into_usize() };
    NumberLit { span, text: Some(NumberText { is_fractional: text.is_fractional, base, number }) }
}

/// `rune::ast::Expr`, where it is a path or a literal.
#[verifier::external_body]
fn leaf_shape<'a>(expr: &'a ast::Expr) -> (r: Option<ExprShape<'a>>)
    ensures
        match r {
            Some(shape) => expr_shape_tree(shape) == expr_tree(*expr),
            None => !(expr_tree(*expr) is Path) && !(expr_tree(*expr) is Lit),
        },
{
    match expr {
        ast::Expr::Path(path) => Some(ExprShape::Path(path)),
        ast::Expr::Lit(expr) => Some(
            match &expr.lit {
                ast::Lit::Bool(lit) => ExprShape::Bool(lit.value),
                ast::Lit::Str(lit) => ExprShape::Str(lit),
                ast::Lit::Number(lit) => ExprShape::Number(lit),
                ast::Lit::ByteStr(_) => ExprShape::ByteStr,
                _ => ExprShape::OtherLit,
            },
        ),
        _ => None,
    }
}

/// `rune::ast::Expr`, where it has one or two operands; of the binary
/// operators, `&&` and `||` are told apart from the others.
#[verifier::external_body]
fn operator_shape<'a>(expr: &'a ast::Expr) -> (r: Option<ExprShape<'a>>)
    ensures
        match r {
            Some(shape) => expr_shape_tree(shape) == expr_tree(*expr),
            None => !(expr_tree(*expr) is Unary) && !(expr_tree(*expr) is Group) && !(expr_tree(
                *expr,
            ) is Await) && !(expr_tree(*expr) is Binary) && !(expr_tree(*expr) is Logic)
                && !(expr_tree(*expr) is Assign) && !(expr_tree(*expr) is Index),
        },
{
    match expr {
        ast::Expr::Unary(expr) => Some(ExprShape::Unary(&expr.expr)),
        ast::Expr::Group(expr) => Some(ExprShape::Group(&expr.expr)),
        ast::Expr::Await(expr) => Some(ExprShape::Await(&expr.expr)),
        ast::Expr::Binary(expr) => Some(match expr.op {
            ast::BinOp::And(_) | ast::BinOp::Or(_) => ExprShape::Logic(&expr.lhs, &expr.rhs),
            _ => ExprShape::Binary(&expr.lhs, &expr.rhs),
        }),
        ast::Expr::Assign(expr) => Some(ExprShape::Assign(&expr.lhs, &expr.rhs)),
        ast::Expr::Index(expr) => Some(ExprShape::Index(&expr.target, &expr.index)),
        _ => None,
    }
}

/// `rune::ast::Expr`, where it leaves a construct, is a range or a `let`.
#[verifier::external_body]
fn jump_shape<'a>(expr: &'a ast::Expr) -> (r: Option<ExprShape<'a>>)
    ensures
        match r {
            Some(shape) => expr_shape_tree(shape) == expr_tree(*expr),
            None => !(expr_tree(*expr) is Return) && !(expr_tree(*expr) is Break) && !(expr_tree(
                *expr,
            ) is Yield) && !(expr_tree(*expr) is Range) && !(expr_tree(*expr) is Let),
        },
{
    match expr {
        ast::Expr::Return(expr) => Some(ExprShape::Return(expr.expr.as_deref())),
        ast::Expr::Break(expr) => Some(ExprShape::Break(expr.expr.as_deref())),
        ast::Expr::Yield(expr) => Some(ExprShape::Yield(expr.expr.as_deref())),
        ast::Expr::Range(expr) => Some(
            ExprShape::Range(expr.start.as_deref(), expr.end.as_deref()),
        ),
        ast::Expr::Let(expr) => Some(ExprShape::Let(&expr.pat, &expr.expr)),
        _ => None,
    }
}

/// `rune::ast::Expr`, where it is a try or a field access.
#[verifier::external_body]
fn suffix_shape<'a>(expr: &'a ast::Expr) -> (r: Option<ExprShape<'a>>)
    ensures
        match r {
            Some(shape) => expr_shape_tree(shape) == expr_tree(*expr),
            None => !(expr_tree(*expr) is Try) && !(expr_tree(*expr) is FieldAccess),
        },
{
    let convert = |span: ast::Span| Span {
        start: span.start.into_usize(),
        end: span.end.into_usize(),
    };
    match expr {
        ast::Expr::Try(expr) => Some(ExprShape::Try(&expr.expr, convert(expr.try_token.span))),
        ast::Expr::FieldAccess(expr) => Some(
            ExprShape::FieldAccess(&expr.expr, match &expr.expr_field {
                ast::ExprField::Path(path) => FieldShape::Path(path),
                ast::ExprField::LitNumber(lit) => FieldShape::Number(convert(lit.span)),
                _ => FieldShape::Other,
            }),
        ),
        _ => None,
    }
}

/// `rune::ast::Expr`, where it is a block or a loop.
#[verifier::external_body]
fn loop_shape<'a>(expr: &'a ast::Expr) -> (r: Option<ExprShape<'a>>)
    ensures
        match r {
            Some(shape) => expr_shape_tree(shape) == expr_tree(*expr),
            None => !(expr_tree(*expr) is Block) && !(expr_tree(*expr) is Loop) && !(expr_tree(
                *expr,
            ) is While) && !(expr_tree(*expr) is For),
        },
{
    match expr {
        ast::Expr::Block(expr) => Some(ExprShape::Block(&expr.block)),
        ast::Expr::Loop(expr) => Some(ExprShape::Loop(&expr.body)),
        ast::Expr::While(expr) => Some(ExprShape::While(&expr.condition, &expr.body)),
        ast::Expr::For(expr) => Some(ExprShape::For(&expr.binding, &expr.iter, &expr.body)),
        _ => None,
    }
}

/// `rune::ast::Expr`, where it is an `if`: the first condition with its
/// block, then those of each `else if`, and the block of the last `else`.
#[verifier::external_body]
fn if_shape<'a>(expr: &'a ast::Expr) -> (r: Option<ExprShape<'a>>)
    ensures
        match r {
            Some(shape) => expr_shape_tree(shape) == expr_tree(*expr),
            None => !(expr_tree(*expr) is If),
        },
{
    let ast::Expr::If(expr) = expr else {
        return None;
    };
    let first = core::iter::once((&*expr.condition, &*expr.block));
    let others = expr.expr_else_ifs.iter().map(|branch| (&*branch.condition, &*branch.block));
    let otherwise = expr.expr_else.as_ref().map(|branch| &*branch.block);
    Some(ExprShape::If(first.chain(others).collect(), otherwise))
}

/// `rune::ast::Expr`, where it is a `match` or a `select`.
#[verifier::external_body]
fn arms_shape<'a>(expr: &'a ast::Expr) -> (r: Option<ExprShape<'a>>)
    ensures
        match r {
            Some(shape) => expr_shape_tree(shape) == expr_tree(*expr),
            None => !(expr_tree(*expr) is Match) && !(expr_tree(*expr) is Select),
        },
{
    match expr {
        ast::Expr::Match(expr) => Some(ExprShape::Match(&expr.expr, expr.branches.iter().map(
            |(arm, _)| (&arm.pat, arm.condition.as_ref().map(|(_, guard)| guard), &arm.body),
        ).collect())),
        ast::Expr::Select(expr) => Some(ExprShape::Select(expr.branches.iter().map(
            |(arm, _)| match arm {
                ast::ExprSelectBranch::Pat(arm) => (Some((&arm.pat, &arm.expr)), Some(&arm.body)),
                ast::ExprSelectBranch::Default(arm) => (None, Some(&arm.body)),
                _ => (None, None),
            },
        ).collect())),
        _ => None,
    }
}

/// `rune::ast::Expr`, where it is a call, a list or a tuple.
#[verifier::external_body]
fn list_shape<'a>(expr: &'a ast::Expr) -> (r: Option<ExprShape<'a>>)
    ensures
        match r {
            Some(shape) => expr_shape_tree(shape) == expr_tree(*expr),
            None => !(expr_tree(*expr) is Call) && !(expr_tree(*expr) is Vec) && !(expr_tree(
                *expr,
            ) is Tuple),
        },
{
    match expr {
        ast::Expr::Call(expr) => Some(ExprShape::Call(
            &expr.expr,
            expr.args.iter().map(|(arg, _)| arg).collect(),
            Span { start: expr.span().start.into_usize(), end: expr.span().end.into_usize() },
        )),
        ast::Expr::Vec(expr) => Some(
            ExprShape::Vec(expr.items.iter().map(|(item, _)| item).collect()),
        ),
        ast::Expr::Tuple(expr) => Some(
            ExprShape::Tuple(expr.items.iter().map(|(item, _)| item).collect()),
        ),
        _ => None,
    }
}

/// `rune::ast::Expr`, where it is an object.
#[verifier::external_body]
fn object_shape<'a>(expr: &'a ast::Expr) -> (r: Option<ExprShape<'a>>)
    ensures
        match r {
            Some(shape) => expr_shape_tree(shape) == expr_tree(*expr),
            None => !(expr_tree(*expr) is Object),
        },
{
    let ast::Expr::Object(expr) = expr else {
        return None;
    };
    let anonymous = matches!(expr.ident, ast::ObjectIdent::Anonymous(_));
    let fields = expr.assignments.iter().map(|(field, _)| {
        let key = match &field.key {
            ast::ObjectKey::Path(path) => KeyShape::Path(path),
            ast::ObjectKey::LitStr(lit) => KeyShape::Str(lit),
            _ => KeyShape::Other,
        };
        (key, field.assign.as_ref().map(|(_, value)| value))
    });
    Some(ExprShape::Object(anonymous, fields.collect()))
}

/// `rune::ast::Expr`, where it is a closure.
#[verifier::external_body]
fn closure_shape<'a>(expr: &'a ast::Expr) -> (r: Option<ExprShape<'a>>)
    ensures
        match r {
            Some(shape) => expr_shape_tree(shape) == expr_tree(*expr),
            None => !(expr_tree(*expr) is Closure),
        },
{
    let ast::Expr::Closure(expr) = expr else {
        return None;
    };
    let args = match &expr.args {
        ast::ExprClosureArgs::List { args, .. } => args.iter().map(|(arg, _)| match arg {
            ast::FnArg::Pat(pat) => Some(pat),
            _ => None,
        }).collect(),
        _ => Vec::new(),
    };
    Some(ExprShape::Closure(args, &expr.body))
}

/// The parts of an expression; none for those that the checks do not read.
fn expr_shape<'a>(expr: &'a ast::Expr) -> (r: Option<ExprShape<'a>>)
    ensures
        match r {
            Some(shape) => expr_shape_tree(shape) == expr_tree(*expr),
            None => expr_tree(*expr) is Other,
        },
{
    if let Some(shape) = leaf_shape(expr) {
        return Some(shape);
    }
    if let Some(shape) = operator_shape(expr) {
        return Some(shape);
    }
    if let Some(shape) = jump_shape(expr) {
        return Some(shape);
    }
    if let Some(shape) = suffix_shape(expr) {
        return Some(shape);
    }
    if let Some(shape) = loop_shape(expr) {
        return Some(shape);
    }
    if let Some(shape) = if_shape(expr) {
        return Some(shape);
    }
    if let Some(shape) = arms_shape(expr) {
        return Some(shape);
    }
    if let Some(shape) = list_shape(expr) {
        return Some(shape);
    }
    if let Some(shape) = object_shape(expr) {
        return Some(shape);
    }
    closure_shape(expr)
}

// ---------------------------------------------------------------------------
// Building trees.
// ---------------------------------------------------------------------------

fn build_pat(pat: &ast::Pat) -> (r: PatNode)
    ensures
        r@ == pat_tree(*pat),
    decreases pat_tree(*pat),
{
    let ghost tree = pat_tree(*pat);
    match pat_shape(pat) {
        PatShape::Path(path) => PatNode::Path(path_node(path)),
        PatShape::Vec(items) => {
            assert(decreases_to!(tree => tree->Vec_0));
            PatNode::Vec(build_pats(&items))
        },
        PatShape::Tuple(path, items) => {
            assert(decreases_to!(tree => tree->Tuple_1));
            let path = match path {
                Some(path) => Some(path_node(path)),
                None => None,
            };
            PatNode::Tuple(path, build_pats(&items))
        },
        PatShape::Object(items) => {
            assert(decreases_to!(tree => tree->Object_0));
            PatNode::Object(build_pats(&items))
        },
        PatShape::Binding(inner) => {
            assert(decreases_to!(tree => *tree->Binding_0));
            PatNode::Binding(Box::new(build_pat(inner)))
        },
        PatShape::Other => PatNode::Other,
    }
}

fn build_pats(pats: &Vec<&ast::Pat>) -> (r: Vec<PatNode>)
    ensures
        pats_model(r@) == pat_trees(pats@),
    decreases pat_trees(pats@),
{
    let ghost trees = pat_trees(pats@);
    let mut out: Vec<PatNode> = Vec::new();
    for i in 0..pats.len()
        invariant
            trees == pat_trees(pats@),
            out@.len() == i,
            forall|j: int| 0 <= j < i ==> (#[trigger] out@[j])@ == trees[j],
    {
        assert(trees[i as int] == pat_tree(*pats@[i as int]));
        assert(decreases_to!(trees => trees[i as int]));
        out.push(build_pat(pats[i]));
    }
    assert(pats_model(out@) =~= trees);
    out
}

fn build_args(args: &Vec<Option<&ast::Pat>>) -> (r: Vec<Option<PatNode>>)
    ensures
        args_model(r@) == arg_trees(args@),
{
    let mut out: Vec<Option<PatNode>> = Vec::new();
    for i in 0..args.len()
        invariant
            args_model(out@) =~= arg_trees(args@).take(i as int),
    {
        let ghost before = args_model(out@);
        let arg = match args[i] {
            Some(pat) => Some(build_pat(pat)),
            None => None,
        };
        out.push(arg);
        assert(args_model(out@) =~= before.push(arg_trees(args@)[i as int]));
    }
    assert(arg_trees(args@).take(args@.len() as int) =~= arg_trees(args@));
    out
}

fn build_field(field: &FieldShape) -> (r: FieldNode)
    ensures
        r@ == field_shape_tree(*field),
{
    match field {
        FieldShape::Path(path) => FieldNode::Path(path_node(path)),
        FieldShape::Number(span) => FieldNode::Number(*span),
        FieldShape::Other => FieldNode::Other,
    }
}

fn build_key(key: &KeyShape) -> (r: KeyNode)
    ensures
        r@ == key_shape_tree(*key),
{
    match key {
        KeyShape::Path(path) => KeyNode::Path(path_node(path)),
        KeyShape::Str(lit) => KeyNode::Str(str_lit(lit)),
        KeyShape::Other => KeyNode::Other,
    }
}

fn build_boxed(expr: Option<&ast::Expr>) -> (r: Option<Box<ExprNode>>)
    ensures
        boxed_model(r) == boxed_tree(expr),
    decreases boxed_tree(expr),
{
    match expr {
        Some(expr) => {
            assert(decreases_to!(boxed_tree(Some(expr)) => *boxed_tree(Some(expr))->Some_0));
            Some(Box::new(build_expr(expr)))
        },
        None => None,
    }
}

fn build_optional(expr: Option<&ast::Expr>) -> (r: Option<ExprNode>)
    ensures
        optional_model(r) == optional_tree(expr),
    decreases optional_tree(expr),
{
    match expr {
        Some(expr) => {
            assert(decreases_to!(optional_tree(Some(expr)) => optional_tree(Some(expr))->Some_0));
            Some(build_expr(expr))
        },
        None => None,
    }
}

fn build_exprs(exprs: &Vec<&ast::Expr>) -> (r: Vec<ExprNode>)
    ensures
        exprs_model(r@) == expr_trees(exprs@),
    decreases expr_trees(exprs@),
{
    let ghost trees = expr_trees(exprs@);
    let mut out: Vec<ExprNode> = Vec::new();
    for i in 0..exprs.len()
        invariant
            trees == expr_trees(exprs@),
            out@.len() == i,
            forall|j: int| 0 <= j < i ==> (#[trigger] out@[j])@ == trees[j],
    {
        assert(trees[i as int] == expr_tree(*exprs@[i as int]));
        assert(decreases_to!(trees => trees[i as int]));
        out.push(build_expr(exprs[i]));
    }
    assert(exprs_model(out@) =~= trees);
    out
}

fn build_block(block: &ast::Block) -> (r: BlockNode)
    ensures
        r@ == block_tree(*block),
    decreases block_tree(*block),
{
    let shapes = block_shape(block);
    let ghost trees = block_tree(*block).statements;
    assert(decreases_to!(block_tree(*block) => trees));
    let mut statements: Vec<StmtNode> = Vec::new();
    for i in 0..shapes.len()
        invariant
            trees == stmt_trees(shapes@),
            decreases_to!(block_tree(*block) => trees),
            statements@.len() == i,
            forall|j: int| 0 <= j < i ==> (#[trigger] statements@[j])@ == trees[j],
    {
        assert(trees[i as int] == stmt_shape_tree(shapes@[i as int]));
        assert(decreases_to!(trees => trees[i as int]));
        statements.push(build_stmt(&shapes[i]));
    }
    assert(stmts_model(statements@) =~= trees);
    BlockNode { statements }
}

fn build_stmt(stmt: &StmtShape) -> (r: StmtNode)
    ensures
        r@ == stmt_shape_tree(*stmt),
    decreases stmt_shape_tree(*stmt),
{
    let ghost tree = stmt_shape_tree(*stmt);
    match stmt {
        StmtShape::Local(pat, expr) => {
            assert(decreases_to!(tree => tree->Local_1));
            StmtNode::Local(build_pat(pat), build_expr(expr))
        },
        StmtShape::Expr(expr) => {
            assert(decreases_to!(tree => tree->Expr_0));
            StmtNode::Expr(build_expr(expr))
        },
        StmtShape::Semi(expr) => {
            assert(decreases_to!(tree => tree->Semi_0));
            StmtNode::Semi(build_expr(expr))
        },
        StmtShape::Other => StmtNode::Other,
    }
}

fn build_condition(condition: &ast::Condition) -> (r: ConditionNode)
    ensures
        r@ == condition_tree(*condition),
    decreases condition_tree(*condition),
{
    let ghost tree = condition_tree(*condition);
    match condition_shape(condition) {
        ConditionShape::Expr(expr) => {
            assert(decreases_to!(tree => tree->Expr_0));
            ConditionNode::Expr(build_expr(expr))
        },
        ConditionShape::Let(pat, expr) => {
            assert(decreases_to!(tree => tree->Let_1));
            ConditionNode::Let(build_pat(pat), build_expr(expr))
        },
        ConditionShape::Other => ConditionNode::Other,
    }
}

fn build_branches(branches: &Vec<(&ast::Condition, &ast::Block)>) -> (r: Vec<
    (ConditionNode, BlockNode),
>)
    ensures
        branches_model(r@) == branch_trees(branches@),
    decreases branch_trees(branches@),
{
    let ghost trees = branch_trees(branches@);
    let mut out: Vec<(ConditionNode, BlockNode)> = Vec::new();
    for i in 0..branches.len()
        invariant
            trees == branch_trees(branches@),
            out@.len() == i,
            forall|j: int|
                0 <= j < i ==> ((#[trigger] out@[j]).0@, out@[j].1@) == trees[j],
    {
        let (condition, block) = branches[i];
        proof {
            assert(trees[i as int] == (condition_tree(*condition), block_tree(*block)));
            assert(decreases_to!(trees => trees[i as int]));
            assert(decreases_to!(trees[i as int] => trees[i as int].0));
            assert(decreases_to!(trees[i as int] => trees[i as int].1));
        }
        out.push((build_condition(condition), build_block(block)));
    }
    assert(branches_model(out@) =~= trees);
    out
}

fn build_fields(fields: &Vec<(KeyShape, Option<&ast::Expr>)>) -> (r: Vec<
    (KeyNode, Option<ExprNode>),
>)
    ensures
        object_fields_model(r@) == field_trees(fields@),
    decreases field_trees(fields@),
{
    let ghost trees = field_trees(fields@);
    let mut out: Vec<(KeyNode, Option<ExprNode>)> = Vec::new();
    for i in 0..fields.len()
        invariant
            trees == field_trees(fields@),
            out@.len() == i,
            forall|j: int|
                0 <= j < i ==> ((#[trigger] out@[j]).0@, optional_model(out@[j].1)) == trees[j],
    {
        proof {
            assert(trees[i as int] == (
                key_shape_tree(fields@[i as int].0),
                optional_tree(fields@[i as int].1),
            ));
            assert(decreases_to!(trees => trees[i as int]));
            assert(decreases_to!(trees[i as int] => trees[i as int].1));
        }
        out.push((build_key(&fields[i].0), build_optional(fields[i].1)));
    }
    assert(object_fields_model(out@) =~= trees);
    out
}

fn build_arms(arms: &Vec<ArmShape>) -> (r: Vec<ArmNode>)
    ensures
        arms_model(r@) == arm_trees(arms@),
    decreases arm_trees(arms@),
{
    let ghost trees = arm_trees(arms@);
    let mut out: Vec<ArmNode> = Vec::new();
    for i in 0..arms.len()
        invariant
            trees == arm_trees(arms@),
            out@.len() == i,
            forall|j: int| 0 <= j < i ==> (#[trigger] out@[j])@ == trees[j],
    {
        let (pat, guard, body) = arms[i];
        let ghost tree = trees[i as int];
        proof {
            assert(tree == arm_shape_tree(arms@[i as int]));
            assert(decreases_to!(trees => tree));
            assert(decreases_to!(tree => tree.guard));
            assert(decreases_to!(tree => tree.body));
        }
        out.push(
            ArmNode { pat: build_pat(pat), guard: build_optional(guard), body: build_expr(body) },
        );
    }
    assert(arms_model(out@) =~= trees);
    out
}

fn build_selects(arms: &Vec<SelectShape>) -> (r: Vec<SelectNode>)
    ensures
        selects_model(r@) == select_trees(arms@),
    decreases select_trees(arms@),
{
    let ghost trees = select_trees(arms@);
    let mut out: Vec<SelectNode> = Vec::new();
    for i in 0..arms.len()
        invariant
            trees == select_trees(arms@),
            out@.len() == i,
            forall|j: int| 0 <= j < i ==> (#[trigger] out@[j])@ == trees[j],
    {
        let (binding, body) = arms[i];
        let ghost tree = trees[i as int];
        proof {
            assert(tree == select_shape_tree(arms@[i as int]));
            assert(decreases_to!(trees => tree));
            assert(decreases_to!(tree => tree.binding));
            assert(decreases_to!(tree => tree.body));
        }
        let binding = match binding {
            Some((pat, expr)) => {
                proof {
                    assert(decreases_to!(tree.binding => tree.binding->Some_0));
                    assert(decreases_to!(tree.binding->Some_0 => tree.binding->Some_0.1));
                }
                Some((build_pat(pat), build_expr(expr)))
            },
            None => None,
        };
        let body = match body {
            Some(body) => build_expr(body),
            None => ExprNode::Other,
        };
        out.push(SelectNode { binding, body });
    }
    assert(selects_model(out@) =~= trees);
    out
}

/// The tree of an expression.
fn build_expr(expr: &ast::Expr) -> (r: ExprNode)
    ensures
        r@ == expr_tree(*expr),
    decreases expr_tree(*expr),
{
    let ghost tree = expr_tree(*expr);
    let shape = match expr_shape(expr) {
        Some(shape) => shape,
        None => {
            return ExprNode::Other;
        },
    };
    match shape {
        ExprShape::Path(path) => ExprNode::Path(path_node(path)),
        ExprShape::Bool(b) => ExprNode::Lit(LitNode::Bool(b)),
        ExprShape::Str(lit) => ExprNode::Lit(LitNode::Str(str_lit(lit))),
        ExprShape::Number(lit) => ExprNode::Lit(LitNode::Number(number_lit(lit))),
        ExprShape::ByteStr => ExprNode::Lit(LitNode::ByteStr),
        ExprShape::OtherLit => ExprNode::Lit(LitNode::Other),
        ExprShape::Return(inner) => {
            assert(decreases_to!(tree => tree->Return_0));
            ExprNode::Return(build_boxed(inner))
        },
        ExprShape::Break(inner) => {
            assert(decreases_to!(tree => tree->Break_0));
            ExprNode::Break(build_boxed(inner))
        },
        ExprShape::Yield(inner) => {
            assert(decreases_to!(tree => tree->Yield_0));
            ExprNode::Yield(build_boxed(inner))
        },
        ExprShape::Block(block) => {
            assert(decreases_to!(tree => tree->Block_0));
            ExprNode::Block(build_block(block))
        },
        ExprShape::Loop(body) => {
            assert(decreases_to!(tree => tree->Loop_0));
            ExprNode::Loop(build_block(body))
        },
        ExprShape::While(condition, body) => {
            assert(decreases_to!(tree => *tree->While_0));
            assert(decreases_to!(tree => tree->While_1));
            ExprNode::While(Box::new(build_condition(condition)), build_block(body))
        },
        ExprShape::For(pat, iter, body) => {
            assert(decreases_to!(tree => *tree->For_1));
            assert(decreases_to!(tree => tree->For_2));
            ExprNode::For(build_pat(pat), Box::new(build_expr(iter)), build_block(body))
        },
        ExprShape::If(branches, otherwise) => {
            assert(decreases_to!(tree => tree->If_0));
            assert(decreases_to!(tree => tree->If_1));
            let otherwise = match otherwise {
                Some(block) => {
                    assert(decreases_to!(tree->If_1 => tree->If_1->Some_0));
                    Some(build_block(block))
                },
                None => None,
            };
            ExprNode::If(build_branches(&branches), otherwise)
        },
        ExprShape::Match(scrutinee, arms) => {
            assert(decreases_to!(tree => *tree->Match_0));
            assert(decreases_to!(tree => tree->Match_1));
            ExprNode::Match(Box::new(build_expr(scrutinee)), build_arms(&arms))
        },
        ExprShape::Select(arms) => {
            assert(decreases_to!(tree => tree->Select_0));
            ExprNode::Select(build_selects(&arms))
        },
        ExprShape::Binary(lhs, rhs) => {
            assert(decreases_to!(tree => *tree->Binary_0));
            assert(decreases_to!(tree => *tree->Binary_1));
            ExprNode::Binary(Box::new(build_expr(lhs)), Box::new(build_expr(rhs)))
        },
        ExprShape::Logic(lhs, rhs) => {
            assert(decreases_to!(tree => *tree->Logic_0));
            assert(decreases_to!(tree => *tree->Logic_1));
            ExprNode::Logic(Box::new(build_expr(lhs)), Box::new(build_expr(rhs)))
        },
        ExprShape::Assign(lhs, rhs) => {
            assert(decreases_to!(tree => *tree->Assign_0));
            assert(decreases_to!(tree => *tree->Assign_1));
            ExprNode::Assign(Box::new(build_expr(lhs)), Box::new(build_expr(rhs)))
        },
        ExprShape::Index(target, index) => {
            assert(decreases_to!(tree => *tree->Index_0));
            assert(decreases_to!(tree => *tree->Index_1));
            ExprNode::Index(Box::new(build_expr(target)), Box::new(build_expr(index)))
        },
        ExprShape::Unary(inner) => {
            assert(decreases_to!(tree => *tree->Unary_0));
            ExprNode::Unary(Box::new(build_expr(inner)))
        },
        ExprShape::Group(inner) => {
            assert(decreases_to!(tree => *tree->Group_0));
            ExprNode::Group(Box::new(build_expr(inner)))
        },
        ExprShape::Await(inner) => {
            assert(decreases_to!(tree => *tree->Await_0));
            ExprNode::Await(Box::new(build_expr(inner)))
        },
        ExprShape::Try(inner, span) => {
            assert(decreases_to!(tree => *tree->Try_0));
            ExprNode::Try(Box::new(build_expr(inner)), span)
        },
        ExprShape::FieldAccess(inner, field) => {
            assert(decreases_to!(tree => *tree->FieldAccess_0));
            ExprNode::FieldAccess(Box::new(build_expr(inner)), build_field(&field))
        },
        ExprShape::Call(callee, args, span) => {
            assert(decreases_to!(tree => *tree->Call_0));
            assert(decreases_to!(tree => tree->Call_1));
            ExprNode::Call(Box::new(build_expr(callee)), build_exprs(&args), span)
        },
        ExprShape::Object(anonymous, fields) => {
            assert(decreases_to!(tree => tree->Object_1));
            ExprNode::Object(anonymous, build_fields(&fields))
        },
        ExprShape::Vec(items) => {
            assert(decreases_to!(tree => tree->Vec_0));
            ExprNode::Vec(build_exprs(&items))
        },
        ExprShape::Tuple(items) => {
            assert(decreases_to!(tree => tree->Tuple_0));
            ExprNode::Tuple(build_exprs(&items))
        },
        ExprShape::Range(from, to) => {
            assert(decreases_to!(tree => tree->Range_0));
            assert(decreases_to!(tree => tree->Range_1));
            ExprNode::Range(build_boxed(from), build_boxed(to))
        },
        ExprShape::Closure(args, body) => {
            assert(decreases_to!(tree => *tree->Closure_1));
            ExprNode::Closure(build_args(&args), Box::new(build_expr(body)))
        },
        ExprShape::Let(pat, inner) => {
            assert(decreases_to!(tree => *tree->Let_1));
            ExprNode::Let(build_pat(pat), Box::new(build_expr(inner)))
        },
    }
}

fn build_fn(item: &ast::ItemFn) -> (r: FnItem)
    ensures
        r@ == fn_tree(*item),
{
    let shape = fn_shape(item);
    FnItem {
        visibility: shape.visibility,
        const_token: shape.const_token,
        async_token: shape.async_token,
        fn_token: shape.fn_token,
        name: shape.name,
        args: build_args(&shape.args),
        body: build_block(shape.body),
    }
}

/// Parses a script.
pub fn parse_script(source: &str) -> (r: Result<Script, CheckerError>)
    requires
        encode_utf8(source@).len() <= u32::MAX,
    ensures
        match (r, parsed(source@)) {
            (Ok(script), Ok(tree)) => script@ == tree && script_fits(tree, source@),
            (Err(e), Err(message)) => e@ == ErrorModel::RuneParseError(message),
            _ => false,
        },
{
    let file = match parse_source(source) {
        Ok(file) => file,
        Err(error) => {
            return Err(CheckerError::RuneParseError(message_of(&error)));
        },
    };
    let shapes = file_items(&file);
    let ghost trees = file_tree(file).items;
    let mut items: Vec<ItemNode> = Vec::new();
    for i in 0..shapes.len()
        invariant
            trees == item_trees(shapes@),
            items@.map_values(|item: ItemNode| item@) =~= trees.take(i as int),
    {
        let ghost before = items@.map_values(|item: ItemNode| item@);
        let item = match shapes[i] {
            Some(item) => ItemNode::Fn(build_fn(item)),
            None => ItemNode::Other,
        };
        items.push(item);
        assert(items@.map_values(|item: ItemNode| item@) =~= before.push(trees[i as int]));
    }
    assert(trees.take(trees.len() as int) =~= trees);
    let script = Script { items };
    assert(script@ == file_tree(file));
    Ok(script)
}

} // verus!
