//! The return sites of a function.

use vstd::prelude::*;

use crate::ast_analyzer::{
    alternatives, arm_tail_sites, block_tail_sites, branch_tail_sites, early_site, error_variants,
    is_error_variant, lemma_tail_smaller, return_sites, site_of, sites_in, sites_in_all,
    sites_in_first, tail_of, tail_sites, unwrapped, value_of, TailTree,
};
use crate::laws::notation::lemma_filter_selects;
use crate::report::{LiteralModel, ReasonModel, SiteModel};
use crate::source_text::line_number;
use crate::syntax::{
    block_exprs, lemma_sub_exprs_smaller, sub_exprs, ArmTree, BlockTree, ConditionTree, ExprTree,
    Span, StmtTree,
};
use crate::types::{OriginModel, TypeModel, VariantModel};

verus! {

/// Whether an expression stands anywhere in another one, outside of closures:
/// what a closure returns does not leave the function.
pub open spec fn stands_in(expr: ExprTree, whole: ExprTree) -> bool
    decreases whole,
{
    proof {
        lemma_sub_exprs_smaller(whole);
    }
    expr == whole || (!(whole is Closure) && exists|i: int|
        #![trigger sub_exprs(whole)[i]]
        0 <= i < sub_exprs(whole).len() && stands_in(expr, sub_exprs(whole)[i]))
}

/// Whether an expression stands anywhere in a block, outside of closures.
pub open spec fn stands_in_block(expr: ExprTree, block: BlockTree) -> bool {
    exists|i: int|
        #![trigger block_exprs(block)[i]]
        0 <= i < block_exprs(block).len() && stands_in(expr, block_exprs(block)[i])
}

/// The return site that a `return` or a `?` is itself.
pub open spec fn own_site(
    expr: ExprTree,
    source: Seq<char>,
    registry: Map<Seq<char>, OriginModel>,
) -> Option<SiteModel> {
    match expr {
        ExprTree::Return(Some(inner)) => Some(site_of(value_of(*inner, source, registry))),
        ExprTree::Return(None) => Some(SiteModel::Unit),
        ExprTree::Try(inner, span) => early_site(
            value_of(*inner, source, registry),
            line_number(source, span.start as int),
        ),
        _ => None,
    }
}

/// Whether a return site is that of a `return` or a `?` in an expression.
spec fn is_site_in(
    site: SiteModel,
    whole: ExprTree,
    source: Seq<char>,
    registry: Map<Seq<char>, OriginModel>,
) -> bool {
    exists|expr: ExprTree| #[trigger]
        stands_in(expr, whole) && own_site(expr, source, registry) == Some(site)
}

proof fn lemma_part_stands_in(expr: ExprTree, whole: ExprTree, at: int)
    requires
        !(whole is Closure),
        0 <= at < sub_exprs(whole).len(),
        stands_in(expr, sub_exprs(whole)[at]),
    ensures
        stands_in(expr, whole),
{
    lemma_sub_exprs_smaller(whole);
}

proof fn lemma_sites_in(
    whole: ExprTree,
    site: SiteModel,
    source: Seq<char>,
    registry: Map<Seq<char>, OriginModel>,
)
    ensures
        sites_in(whole, source, registry).contains(site) <==> is_site_in(
            site,
            whole,
            source,
            registry,
        ),
    decreases whole, sub_exprs(whole).len() + 1,
{
    lemma_sub_exprs_smaller(whole);
    let sites = sites_in(whole, source, registry);
    let own = own_site(whole, source, registry);
    let n = sub_exprs(whole).len();
    if whole is Closure {
        if is_site_in(site, whole, source, registry) {
            let expr = choose|expr: ExprTree| #[trigger]
                stands_in(expr, whole) && own_site(expr, source, registry) == Some(site);
            assert(expr == whole);
        }
    } else {
        lemma_sites_in_first(whole, n, site, source, registry);
        // The sites of the parts, then the own one.
        let parts = sites_in_first(whole, n, source, registry);
        assert(sites =~= match own {
            Some(own) => parts.push(own),
            None => parts,
        }) by {
            match whole {
                ExprTree::Return(Some(inner)) => {
                    assert(sub_exprs(whole) =~= seq![*inner]);
                    assert(sites_in_first(whole, 0, source, registry) =~= Seq::empty());
                },
                ExprTree::Return(None) => {},
                ExprTree::Try(inner, span) => {
                    assert(sub_exprs(whole) =~= seq![*inner]);
                    assert(sites_in_first(whole, 0, source, registry) =~= Seq::empty());
                },
                _ => {},
            }
        }
        assert(stands_in(whole, whole));
        if sites.contains(site) {
            let k = choose|k: int| 0 <= k < sites.len() && sites[k] == site;
            if k < parts.len() {
                assert(parts[k] == site);
                assert(parts.contains(site));
                let (expr, at) = choose|expr: ExprTree, at: int|
                    #![trigger stands_in(expr, sub_exprs(whole)[at])]
                    0 <= at < n && stands_in(expr, sub_exprs(whole)[at]) && own_site(
                        expr,
                        source,
                        registry,
                    ) == Some(site);
                lemma_part_stands_in(expr, whole, at);
            } else {
                assert(own == Some(site));
            }
        }
        if is_site_in(site, whole, source, registry) {
            let expr = choose|expr: ExprTree| #[trigger]
                stands_in(expr, whole) && own_site(expr, source, registry) == Some(site);
            if expr == whole {
                assert(sites[parts.len() as int] == site);
            } else {
                let at = choose|i: int|
                    #![trigger sub_exprs(whole)[i]]
                    0 <= i < sub_exprs(whole).len() && stands_in(expr, sub_exprs(whole)[i]);
                assert(stands_in(expr, sub_exprs(whole)[at]));
                assert(parts.contains(site));
                let k = choose|k: int| 0 <= k < parts.len() && parts[k] == site;
                assert(sites[k] == site);
            }
        }
    }
}

proof fn lemma_sites_in_first(
    whole: ExprTree,
    n: nat,
    site: SiteModel,
    source: Seq<char>,
    registry: Map<Seq<char>, OriginModel>,
)
    requires
        n <= sub_exprs(whole).len(),
    ensures
        sites_in_first(whole, n, source, registry).contains(site) <==> exists|
            expr: ExprTree,
            at: int,
        |
            #![trigger stands_in(expr, sub_exprs(whole)[at])]
            0 <= at < n && stands_in(expr, sub_exprs(whole)[at]) && own_site(
                expr,
                source,
                registry,
            ) == Some(site),
    decreases whole, n,
{
    if n > 0 {
        lemma_sub_exprs_smaller(whole);
        let before = sites_in_first(whole, (n - 1) as nat, source, registry);
        let part = sub_exprs(whole)[n - 1];
        let last = sites_in(part, source, registry);
        let all = sites_in_first(whole, n, source, registry);
        lemma_sites_in_first(whole, (n - 1) as nat, site, source, registry);
        lemma_sites_in(part, site, source, registry);
        assert(all == before + last);
        if all.contains(site) {
            let k = choose|k: int| 0 <= k < all.len() && all[k] == site;
            if k < before.len() {
                assert(before[k] == site);
                assert(before.contains(site));
            } else {
                assert(last[k - before.len()] == site);
                assert(last.contains(site));
                let expr = choose|expr: ExprTree| #[trigger]
                    stands_in(expr, part) && own_site(expr, source, registry) == Some(site);
                assert(stands_in(expr, sub_exprs(whole)[n - 1]));
            }
        }
        if exists|expr: ExprTree, at: int|
            #![trigger stands_in(expr, sub_exprs(whole)[at])]
            0 <= at < n && stands_in(expr, sub_exprs(whole)[at]) && own_site(
                expr,
                source,
                registry,
            ) == Some(site) {
            let (expr, at) = choose|expr: ExprTree, at: int|
                #![trigger stands_in(expr, sub_exprs(whole)[at])]
                0 <= at < n && stands_in(expr, sub_exprs(whole)[at]) && own_site(
                    expr,
                    source,
                    registry,
                ) == Some(site);
            if at < n - 1 {
                assert(before.contains(site));
                let k = choose|k: int| 0 <= k < before.len() && before[k] == site;
                assert(all[k] == site);
            } else {
                assert(is_site_in(site, part, source, registry));
                let k = choose|k: int| 0 <= k < last.len() && last[k] == site;
                assert(all[before.len() + k] == site);
            }
        }
    }
}

proof fn lemma_sites_in_all(
    exprs: Seq<ExprTree>,
    n: nat,
    site: SiteModel,
    source: Seq<char>,
    registry: Map<Seq<char>, OriginModel>,
)
    requires
        n <= exprs.len(),
    ensures
        sites_in_all(exprs, n, source, registry).contains(site) <==> exists|
            expr: ExprTree,
            at: int,
        |
            #![trigger stands_in(expr, exprs[at])]
            0 <= at < n && stands_in(expr, exprs[at]) && own_site(expr, source, registry) == Some(
                site,
            ),
    decreases n,
{
    if n > 0 {
        let before = sites_in_all(exprs, (n - 1) as nat, source, registry);
        let last = sites_in(exprs[n - 1], source, registry);
        let all = sites_in_all(exprs, n, source, registry);
        lemma_sites_in_all(exprs, (n - 1) as nat, site, source, registry);
        lemma_sites_in(exprs[n - 1], site, source, registry);
        assert(all == before + last);
        if all.contains(site) {
            let k = choose|k: int| 0 <= k < all.len() && all[k] == site;
            if k < before.len() {
                assert(before[k] == site);
                assert(before.contains(site));
            } else {
                assert(last[k - before.len()] == site);
                assert(last.contains(site));
                let expr = choose|expr: ExprTree| #[trigger]
                    stands_in(expr, exprs[n - 1]) && own_site(expr, source, registry) == Some(
                        site,
                    );
                assert(stands_in(expr, exprs[n - 1]));
            }
        }
        if exists|expr: ExprTree, at: int|
            #![trigger stands_in(expr, exprs[at])]
            0 <= at < n && stands_in(expr, exprs[at]) && own_site(expr, source, registry) == Some(
                site,
            ) {
            let (expr, at) = choose|expr: ExprTree, at: int|
                #![trigger stands_in(expr, exprs[at])]
                0 <= at < n && stands_in(expr, exprs[at]) && own_site(expr, source, registry)
                    == Some(site);
            if at < n - 1 {
                assert(before.contains(site));
                let k = choose|k: int| 0 <= k < before.len() && before[k] == site;
                assert(all[k] == site);
            } else {
                assert(is_site_in(site, exprs[n - 1], source, registry));
                let k = choose|k: int| 0 <= k < last.len() && last[k] == site;
                assert(all[before.len() + k] == site);
            }
        }
    }
}

/// Each `return` in the body of a function is a return site, and so is each
/// `?` that may leave it, however deep they stand in it; those in a closure
/// are none.
pub proof fn each_return_is_a_site(
    body: BlockTree,
    expr: ExprTree,
    source: Seq<char>,
    registry: Map<Seq<char>, OriginModel>,
)
    requires
        stands_in_block(expr, body),
    ensures
        own_site(expr, source, registry) matches Some(site) ==> return_sites(
            body,
            source,
            registry,
        ).contains(site),
{
    if let Some(site) = own_site(expr, source, registry) {
        let exprs = block_exprs(body);
        let explicit = sites_in_all(exprs, exprs.len(), source, registry);
        lemma_sites_in_all(exprs, exprs.len(), site, source, registry);
        let at = choose|i: int|
            #![trigger block_exprs(body)[i]]
            0 <= i < block_exprs(body).len() && stands_in(expr, block_exprs(body)[i]);
        assert(stands_in(expr, exprs[at]));
        let k = choose|k: int| 0 <= k < explicit.len() && explicit[k] == site;
        assert(return_sites(body, source, registry)[k] == site);
    }
}

/// A return site is that of a `return` or a `?` in the body, or one at which
/// the value of the body itself is returned.
pub proof fn each_site_is_a_return(
    body: BlockTree,
    site: SiteModel,
    source: Seq<char>,
    registry: Map<Seq<char>, OriginModel>,
)
    requires
        return_sites(body, source, registry).contains(site),
    ensures
        block_tail_sites(body, source, registry).contains(site) || exists|expr: ExprTree| #[trigger]
            stands_in_block(expr, body) && own_site(expr, source, registry) == Some(site),
{
    let exprs = block_exprs(body);
    let explicit = sites_in_all(exprs, exprs.len(), source, registry);
    let implicit = block_tail_sites(body, source, registry);
    let all = return_sites(body, source, registry);
    let k = choose|k: int| 0 <= k < all.len() && all[k] == site;
    if k < explicit.len() {
        assert(explicit[k] == site);
        assert(explicit.contains(site));
        lemma_sites_in_all(exprs, exprs.len(), site, source, registry);
        let (expr, at) = choose|expr: ExprTree, at: int|
            #![trigger stands_in(expr, exprs[at])]
            0 <= at < exprs.len() && stands_in(expr, exprs[at]) && own_site(expr, source, registry)
                == Some(site);
        assert(block_exprs(body)[at] == exprs[at]);
        assert(stands_in_block(expr, body));
    } else {
        assert(implicit[k - explicit.len()] == site);
    }
}

pub(crate) proof fn lemma_tail_site_is_site(
    body: BlockTree,
    site: SiteModel,
    source: Seq<char>,
    registry: Map<Seq<char>, OriginModel>,
)
    requires
        block_tail_sites(body, source, registry).contains(site),
    ensures
        return_sites(body, source, registry).contains(site),
{
    let exprs = block_exprs(body);
    let explicit = sites_in_all(exprs, exprs.len(), source, registry);
    let implicit = block_tail_sites(body, source, registry);
    let k = choose|k: int| 0 <= k < implicit.len() && implicit[k] == site;
    assert(return_sites(body, source, registry)[explicit.len() + k] == site);
}

/// The value of the body is returned: where it ends in an expression without
/// a semicolon, at the return sites of that expression, and as the unit where
/// it has no value.
pub proof fn implicit_returns_are_sites(
    body: BlockTree,
    source: Seq<char>,
    registry: Map<Seq<char>, OriginModel>,
)
    ensures
        match tail_of(body) {
            TailTree::Unit => return_sites(body, source, registry).contains(SiteModel::Unit),
            TailTree::Expr(expr) => forall|site: SiteModel| #[trigger]
                tail_sites(expr, source, registry).contains(site) ==> return_sites(
                    body,
                    source,
                    registry,
                ).contains(site),
            TailTree::Diverges => true,
        },
{
    let implicit = block_tail_sites(body, source, registry);
    assert forall|site: SiteModel| #[trigger] implicit.contains(site) implies return_sites(
        body,
        source,
        registry,
    ).contains(site) by {
        lemma_tail_site_is_site(body, site, source, registry);
    }
    if tail_of(body) is Unit {
        assert(implicit[0] == SiteModel::Unit);
        assert(implicit.contains(SiteModel::Unit));
    }
}

/// What stands in a closure does not leave the function.
pub proof fn closures_have_no_sites(
    closure: ExprTree,
    source: Seq<char>,
    registry: Map<Seq<char>, OriginModel>,
)
    requires
        closure is Closure,
    ensures
        sites_in(closure, source, registry).len() == 0,
{
}

// ---------------------------------------------------------------------------
// The `?` operator.
// ---------------------------------------------------------------------------

proof fn lemma_error_variants(variants: Seq<VariantModel>)
    ensures
        error_variants(variants).len() == 0 <==> forall|i: int|
            0 <= i < variants.len() ==> !is_error_variant(#[trigger] variants[i]),
        forall|i: int|
            0 <= i < error_variants(variants).len() ==> is_error_variant(
                #[trigger] error_variants(variants)[i],
            ) && variants.contains(error_variants(variants)[i]),
        forall|i: int|
            0 <= i < variants.len() && is_error_variant(#[trigger] variants[i]) ==> error_variants(
                variants,
            ).contains(variants[i]),
{
    let keep = |v: VariantModel| is_error_variant(v);
    let errors = error_variants(variants);
    assert(errors == variants.filter(keep));
    lemma_filter_selects(variants, keep);
    assert forall|i: int| 0 <= i < errors.len() implies is_error_variant(#[trigger] errors[i])
        && variants.contains(errors[i]) by {
        assert(keep(errors[i]));
    }
    assert forall|i: int| 0 <= i < variants.len() && is_error_variant(
        #[trigger] variants[i],
    ) implies errors.contains(variants[i]) by {
        assert(keep(variants[i]));
        variants.lemma_filter_contains(keep, i);
    }
    if errors.len() > 0 {
        assert(is_error_variant(errors[0]) && variants.contains(errors[0]));
    }
}

/// `?` on a call whose type is declared leaves the function exactly if one of
/// the declared alternatives is an error variant, and with the error variants
/// alone: these are what is compared with the contract. That the declared type
/// may be `()` as well does not hide them.
pub proof fn declared_errors_are_propagated(
    name: Seq<char>,
    type_def: TypeModel,
    variants: Seq<VariantModel>,
    line: nat,
)
    requires
        alternatives(type_def) == Some(variants),
    ensures
        ({
            let call = LiteralModel::ResolvedCall { name, type_def };
            let errors = error_variants(variants);
            &&& early_site(call, line) is None <==> forall|i: int|
                0 <= i < variants.len() ==> !is_error_variant(#[trigger] variants[i])
            &&& early_site(call, line) matches Some(site) ==> site == SiteModel::ResolvedCall {
                name,
                type_def: TypeModel::Enum(errors),
            }
            &&& forall|i: int|
                0 <= i < errors.len() ==> is_error_variant(#[trigger] errors[i])
                    && variants.contains(errors[i])
            &&& forall|i: int|
                0 <= i < variants.len() && is_error_variant(#[trigger] variants[i])
                    ==> errors.contains(variants[i])
        }),
{
    lemma_error_variants(variants);
}

/// A union that may be `()` propagates, and leaves, what it does without.
pub proof fn nullable_unions_hide_nothing(name: Seq<char>, inner: TypeModel, line: nat)
    ensures
        ({
            let call = LiteralModel::ResolvedCall { name, type_def: inner };
            let nullable = LiteralModel::ResolvedCall {
                name,
                type_def: TypeModel::Nullable(Box::new(inner)),
            };
            &&& early_site(nullable, line) == early_site(call, line)
            &&& unwrapped(nullable) == unwrapped(call)
        }),
{
    let nullable = TypeModel::Nullable(Box::new(inner));
    assert(alternatives(nullable) == alternatives(inner));
}

/// `?` on an expression of unknown type may leave the function in any case.
pub proof fn unknown_errors_are_propagated(reason: ReasonModel, line: nat)
    ensures
        early_site(LiteralModel::Dynamic(reason), line) == Some(SiteModel::TryPropagation { line }),
{
}

// ---------------------------------------------------------------------------
// The value of a body.
// ---------------------------------------------------------------------------

/// Whether a block may evaluate to the expression, or to the unit where there
/// is none: to that of its last statement, if it has no semicolon and is no
/// `return`.
pub open spec fn block_yields(block: BlockTree, leaf: Option<ExprTree>) -> bool
    decreases block,
{
    let n = block.statements.len();
    if n == 0 {
        leaf is None
    } else {
        match block.statements[n - 1] {
            StmtTree::Expr(last) => !(last is Return) && yields(last, leaf),
            StmtTree::Semi(last) => !(last is Return) && leaf is None,
            StmtTree::Local(_, _) => leaf is None,
            StmtTree::Other => leaf is None,
        }
    }
}

/// Whether an expression may evaluate to another one, or to the unit where
/// there is none: a block, an `if` or a `match` to what its branches do, and
/// an `if` without an `else` also to the unit.
pub open spec fn yields(expr: ExprTree, leaf: Option<ExprTree>) -> bool
    decreases expr,
{
    match expr {
        ExprTree::Block(block) => block_yields(block, leaf),
        ExprTree::If(branches, otherwise) => {
            ||| exists|i: int|
                0 <= i < branches.len() && block_yields((#[trigger] branches[i]).1, leaf)
            ||| match otherwise {
                Some(block) => block_yields(block, leaf),
                None => leaf is None,
            }
        },
        ExprTree::Match(_, arms) => exists|i: int|
            0 <= i < arms.len() && yields((#[trigger] arms[i]).body, leaf),
        _ => leaf == Some(expr),
    }
}

/// The return site at which an expression is returned, or the unit where
/// there is none.
pub open spec fn leaf_site(
    leaf: Option<ExprTree>,
    source: Seq<char>,
    registry: Map<Seq<char>, OriginModel>,
) -> SiteModel {
    match leaf {
        Some(expr) => site_of(value_of(expr, source, registry)),
        None => SiteModel::Unit,
    }
}

proof fn lemma_block_tails(
    block: BlockTree,
    leaf: Option<ExprTree>,
    source: Seq<char>,
    registry: Map<Seq<char>, OriginModel>,
)
    requires
        block_yields(block, leaf),
    ensures
        block_tail_sites(block, source, registry).contains(leaf_site(leaf, source, registry)),
    decreases block,
{
    let sites = block_tail_sites(block, source, registry);
    if let TailTree::Expr(expr) = tail_of(block) {
        lemma_tail_smaller(block);
        lemma_tails(expr, leaf, source, registry);
    } else {
        assert(sites[0] == SiteModel::Unit);
    }
}

proof fn lemma_tails(
    expr: ExprTree,
    leaf: Option<ExprTree>,
    source: Seq<char>,
    registry: Map<Seq<char>, OriginModel>,
)
    requires
        yields(expr, leaf),
    ensures
        tail_sites(expr, source, registry).contains(leaf_site(leaf, source, registry)),
    decreases expr,
{
    let site = leaf_site(leaf, source, registry);
    let sites = tail_sites(expr, source, registry);
    match expr {
        ExprTree::Block(block) => lemma_block_tails(block, leaf, source, registry),
        ExprTree::If(branches, otherwise) => {
            let first = branch_tail_sites(branches, branches.len(), source, registry);
            let last = match otherwise {
                Some(block) => block_tail_sites(block, source, registry),
                None => seq![SiteModel::Unit],
            };
            assert(sites == first + last);
            if exists|i: int|
                0 <= i < branches.len() && block_yields((#[trigger] branches[i]).1, leaf) {
                let i = choose|i: int|
                    0 <= i < branches.len() && block_yields((#[trigger] branches[i]).1, leaf);
                lemma_block_tails(branches[i].1, leaf, source, registry);
                lemma_branch_tails(branches, branches.len(), i, site, source, registry);
                let k = choose|k: int| 0 <= k < first.len() && first[k] == site;
                assert(sites[k] == site);
            } else {
                match otherwise {
                    Some(block) => lemma_block_tails(block, leaf, source, registry),
                    None => {
                        assert(last[0] == SiteModel::Unit);
                    },
                }
                let k = choose|k: int| 0 <= k < last.len() && last[k] == site;
                assert(sites[first.len() + k] == site);
            }
        },
        ExprTree::Match(_, arms) => {
            let i = choose|i: int|
                0 <= i < arms.len() && yields((#[trigger] arms[i]).body, leaf);
            lemma_tails(arms[i].body, leaf, source, registry);
            lemma_arm_tails(arms, arms.len(), i, site, source, registry);
        },
        _ => {
            assert(sites[0] == site);
        },
    }
}

proof fn lemma_branch_tails(
    branches: Seq<(ConditionTree, BlockTree)>,
    n: nat,
    at: int,
    site: SiteModel,
    source: Seq<char>,
    registry: Map<Seq<char>, OriginModel>,
)
    requires
        0 <= at < n <= branches.len(),
        block_tail_sites(branches[at].1, source, registry).contains(site),
    ensures
        branch_tail_sites(branches, n, source, registry).contains(site),
    decreases n,
{
    let before = branch_tail_sites(branches, (n - 1) as nat, source, registry);
    let own = block_tail_sites(branches[n - 1].1, source, registry);
    let all = branch_tail_sites(branches, n, source, registry);
    assert(all == before + own);
    if at == n - 1 {
        let k = choose|k: int| 0 <= k < own.len() && own[k] == site;
        assert(all[before.len() + k] == site);
    } else {
        lemma_branch_tails(branches, (n - 1) as nat, at, site, source, registry);
        let k = choose|k: int| 0 <= k < before.len() && before[k] == site;
        assert(all[k] == site);
    }
}

proof fn lemma_arm_tails(
    arms: Seq<ArmTree>,
    n: nat,
    at: int,
    site: SiteModel,
    source: Seq<char>,
    registry: Map<Seq<char>, OriginModel>,
)
    requires
        0 <= at < n <= arms.len(),
        tail_sites(arms[at].body, source, registry).contains(site),
    ensures
        arm_tail_sites(arms, n, source, registry).contains(site),
    decreases n,
{
    let before = arm_tail_sites(arms, (n - 1) as nat, source, registry);
    let own = tail_sites(arms[n - 1].body, source, registry);
    let all = arm_tail_sites(arms, n, source, registry);
    assert(all == before + own);
    if at == n - 1 {
        let k = choose|k: int| 0 <= k < own.len() && own[k] == site;
        assert(all[before.len() + k] == site);
    } else {
        lemma_arm_tails(arms, (n - 1) as nat, at, site, source, registry);
        let k = choose|k: int| 0 <= k < before.len() && before[k] == site;
        assert(all[k] == site);
    }
}

/// What a return site at which the value of a block is returned holds.
proof fn lemma_block_leaf(
    block: BlockTree,
    site: SiteModel,
    source: Seq<char>,
    registry: Map<Seq<char>, OriginModel>,
) -> (leaf: Option<ExprTree>)
    requires
        block_tail_sites(block, source, registry).contains(site),
    ensures
        block_yields(block, leaf),
        site == leaf_site(leaf, source, registry),
    decreases block, 0nat,
{
    match tail_of(block) {
        TailTree::Expr(expr) => {
            lemma_tail_smaller(block);
            lemma_leaf(expr, site, source, registry)
        },
        _ => None,
    }
}

proof fn lemma_leaf(
    expr: ExprTree,
    site: SiteModel,
    source: Seq<char>,
    registry: Map<Seq<char>, OriginModel>,
) -> (leaf: Option<ExprTree>)
    requires
        tail_sites(expr, source, registry).contains(site),
    ensures
        yields(expr, leaf),
        site == leaf_site(leaf, source, registry),
    decreases expr, 0nat,
{
    let sites = tail_sites(expr, source, registry);
    let k = choose|k: int| 0 <= k < sites.len() && sites[k] == site;
    match expr {
        ExprTree::Block(block) => lemma_block_leaf(block, site, source, registry),
        ExprTree::If(branches, otherwise) => {
            let first = branch_tail_sites(branches, branches.len(), source, registry);
            let last = match otherwise {
                Some(block) => block_tail_sites(block, source, registry),
                None => seq![SiteModel::Unit],
            };
            assert(sites == first + last);
            if k < first.len() {
                assert(first[k] == site);
                assert(first.contains(site));
                lemma_branch_leaf(branches, branches.len(), site, source, registry)
            } else {
                assert(last[k - first.len()] == site);
                match otherwise {
                    Some(block) => lemma_block_leaf(block, site, source, registry),
                    None => None,
                }
            }
        },
        ExprTree::Match(_, arms) => lemma_arm_leaf(arms, arms.len(), site, source, registry),
        _ => Some(expr),
    }
}

proof fn lemma_branch_leaf(
    branches: Seq<(ConditionTree, BlockTree)>,
    n: nat,
    site: SiteModel,
    source: Seq<char>,
    registry: Map<Seq<char>, OriginModel>,
) -> (leaf: Option<ExprTree>)
    requires
        n <= branches.len(),
        branch_tail_sites(branches, n, source, registry).contains(site),
    ensures
        exists|i: int| 0 <= i < branches.len() && block_yields((#[trigger] branches[i]).1, leaf),
        site == leaf_site(leaf, source, registry),
    decreases branches, n,
{
    let all = branch_tail_sites(branches, n, source, registry);
    let k = choose|k: int| 0 <= k < all.len() && all[k] == site;
    let before = branch_tail_sites(branches, (n - 1) as nat, source, registry);
    let own = block_tail_sites(branches[n - 1].1, source, registry);
    assert(all == before + own);
    if k < before.len() {
        assert(before[k] == site);
        lemma_branch_leaf(branches, (n - 1) as nat, site, source, registry)
    } else {
        assert(own[k - before.len()] == site);
        let leaf = lemma_block_leaf(branches[n - 1].1, site, source, registry);
        assert(block_yields(branches[n - 1].1, leaf));
        leaf
    }
}

proof fn lemma_arm_leaf(
    arms: Seq<ArmTree>,
    n: nat,
    site: SiteModel,
    source: Seq<char>,
    registry: Map<Seq<char>, OriginModel>,
) -> (leaf: Option<ExprTree>)
    requires
        n <= arms.len(),
        arm_tail_sites(arms, n, source, registry).contains(site),
    ensures
        exists|i: int| 0 <= i < arms.len() && yields((#[trigger] arms[i]).body, leaf),
        site == leaf_site(leaf, source, registry),
    decreases arms, n,
{
    let all = arm_tail_sites(arms, n, source, registry);
    let k = choose|k: int| 0 <= k < all.len() && all[k] == site;
    let before = arm_tail_sites(arms, (n - 1) as nat, source, registry);
    let own = tail_sites(arms[n - 1].body, source, registry);
    assert(all == before + own);
    if k < before.len() {
        assert(before[k] == site);
        lemma_arm_leaf(arms, (n - 1) as nat, site, source, registry)
    } else {
        assert(own[k - before.len()] == site);
        let leaf = lemma_leaf(arms[n - 1].body, site, source, registry);
        assert(yields(arms[n - 1].body, leaf));
        leaf
    }
}

/// The value of the body is returned wherever the body may end: at the end of
/// each branch of an `if`, of each arm of a `match` and of each inner block,
/// and as the unit where there is no value. Each of them is a return site,
/// and the value of the body is returned at no other.
pub proof fn values_of_bodies_are_returned(
    body: BlockTree,
    source: Seq<char>,
    registry: Map<Seq<char>, OriginModel>,
)
    ensures
        forall|leaf: Option<ExprTree>| #[trigger]
            block_yields(body, leaf) ==> return_sites(body, source, registry).contains(
                leaf_site(leaf, source, registry),
            ),
        forall|site: SiteModel| #[trigger]
            block_tail_sites(body, source, registry).contains(site) <==> exists|leaf: Option<
                ExprTree,
            >| #[trigger] block_yields(body, leaf) && site == leaf_site(leaf, source, registry),
{
    assert forall|leaf: Option<ExprTree>| #[trigger] block_yields(body, leaf) implies {
        &&& return_sites(body, source, registry).contains(leaf_site(leaf, source, registry))
        &&& block_tail_sites(body, source, registry).contains(leaf_site(leaf, source, registry))
    } by {
        lemma_block_tails(body, leaf, source, registry);
        lemma_tail_site_is_site(body, leaf_site(leaf, source, registry), source, registry);
    }
    assert forall|site: SiteModel| #[trigger]
        block_tail_sites(body, source, registry).contains(site) implies exists|leaf: Option<
        ExprTree,
    >| #[trigger] block_yields(body, leaf) && site == leaf_site(leaf, source, registry) by {
        let leaf = lemma_block_leaf(body, site, source, registry);
        assert(block_yields(body, leaf));
    }
}

// ---------------------------------------------------------------------------
// The order of the sites.
// ---------------------------------------------------------------------------

/// The sites at which the value of the body is returned come last, behind
/// those of all `return` and `?` in it.
pub proof fn values_of_bodies_come_last(
    body: BlockTree,
    source: Seq<char>,
    registry: Map<Seq<char>, OriginModel>,
)
    ensures
        ({
            let all = return_sites(body, source, registry);
            let tails = block_tail_sites(body, source, registry);
            tails.len() <= all.len() && all.skip(all.len() - tails.len()) == tails
        }),
{
    let exprs = block_exprs(body);
    let explicit = sites_in_all(exprs, exprs.len(), source, registry);
    let tails = block_tail_sites(body, source, registry);
    assert((explicit + tails).skip(explicit.len() as int) =~= tails);
}

/// What is returned within the operand of a `return` or a `?` comes before
/// its own site.
pub proof fn inner_sites_come_first(
    inner: ExprTree,
    span: Span,
    source: Seq<char>,
    registry: Map<Seq<char>, OriginModel>,
)
    ensures
        sites_in(ExprTree::Return(Some(Box::new(inner))), source, registry) == sites_in(
            inner,
            source,
            registry,
        ) + seq![site_of(value_of(inner, source, registry))],
        sites_in(ExprTree::Try(Box::new(inner), span), source, registry) == sites_in(
            inner,
            source,
            registry,
        ) + (match own_site(ExprTree::Try(Box::new(inner), span), source, registry) {
            Some(site) => seq![site],
            None => Seq::empty(),
        }),
{
    let before = sites_in(inner, source, registry);
    let own = site_of(value_of(inner, source, registry));
    assert(before.push(own) =~= before + seq![own]);
    let whole = ExprTree::Try(Box::new(inner), span);
    match own_site(whole, source, registry) {
        Some(site) => {
            assert(sites_in(whole, source, registry) =~= before + seq![site]);
        },
        None => {
            assert(sites_in(whole, source, registry) =~= before + Seq::empty());
        },
    }
}

/// The sites in operands and in items follow each other as these do.
pub proof fn sites_follow_the_order_of_the_source(
    lhs: ExprTree,
    rhs: ExprTree,
    items: Seq<ExprTree>,
    source: Seq<char>,
    registry: Map<Seq<char>, OriginModel>,
)
    ensures
        sites_in(ExprTree::Binary(Box::new(lhs), Box::new(rhs)), source, registry) == sites_in(
            lhs,
            source,
            registry,
        ) + sites_in(rhs, source, registry),
        sites_in(ExprTree::Vec(items.push(rhs)), source, registry) == sites_in(
            ExprTree::Vec(items),
            source,
            registry,
        ) + sites_in(rhs, source, registry),
{
    let binary = ExprTree::Binary(Box::new(lhs), Box::new(rhs));
    assert(sub_exprs(binary)[0] == lhs && sub_exprs(binary)[1] == rhs);
    assert(sites_in_first(binary, 0, source, registry) =~= Seq::empty());
    assert(sites_in_first(binary, 1, source, registry) =~= sites_in(lhs, source, registry));
    assert(sites_in(binary, source, registry) == sites_in_first(binary, 2, source, registry));
    let list = ExprTree::Vec(items);
    let more = ExprTree::Vec(items.push(rhs));
    let n = items.len();
    lemma_same_sites_in_first(list, more, n, source, registry);
    assert(sub_exprs(more)[n as int] == rhs);
    assert(sites_in(more, source, registry) == sites_in_first(more, n + 1, source, registry));
    assert(sites_in(list, source, registry) == sites_in_first(list, n, source, registry));
}

proof fn lemma_same_sites_in_first(
    expr: ExprTree,
    more: ExprTree,
    n: nat,
    source: Seq<char>,
    registry: Map<Seq<char>, OriginModel>,
)
    requires
        n <= sub_exprs(expr).len() <= sub_exprs(more).len(),
        forall|i: int|
            0 <= i < sub_exprs(expr).len() ==> #[trigger] sub_exprs(expr)[i] == sub_exprs(more)[i],
    ensures
        sites_in_first(expr, n, source, registry) == sites_in_first(more, n, source, registry),
    decreases n,
{
    if n > 0 {
        assert(sub_exprs(expr)[n - 1] == sub_exprs(more)[n - 1]);
        lemma_same_sites_in_first(expr, more, (n - 1) as nat, source, registry);
    }
}

} // verus!
