//! The functions that a return site calls.

use vstd::prelude::*;

use crate::ast_analyzer::{fn_named, return_sites, site_of, value_of};
use crate::laws::expressions::lemma_in_both;
use crate::laws::return_sites::{
    block_yields, each_return_is_a_site, leaf_site, own_site, stands_in_block,
    values_of_bodies_are_returned,
};
use crate::laws::validation::{
    broken_helpers_fail_the_script, calls_helper, has_no_violation, is_call_chain, is_reached,
    reached_helpers_are_verified,
};
use crate::report::{LiteralModel, ReasonModel, SiteModel};
use crate::syntax::{ExprTree, ScriptTree};
use crate::types::{ContractModel, TypeModel};
use crate::validation::{
    called_at_site, called_at_sites, called_in_fields, called_in_items, called_in_value, checked_fn,
    script_report, HostModel,
};

verus! {

/// Whether a value is another one or stands in it: in one of its fields or
/// items, or as the content of a variant, at any depth.
pub open spec fn occurs_in(part: LiteralModel, whole: LiteralModel) -> bool
    decreases whole,
{
    ||| part == whole
    ||| match whole {
        LiteralModel::Object(fields) => exists|i: int|
            0 <= i < fields.len() && occurs_in(part, (#[trigger] fields[i]).1),
        LiteralModel::List(items) => exists|i: int|
            0 <= i < items.len() && occurs_in(part, #[trigger] items[i]),
        LiteralModel::Enum { path, inner: Some(inner) } => occurs_in(part, *inner),
        _ => false,
    }
}

/// Whether the result of a function stands anywhere in a value.
pub open spec fn is_called_in(name: Seq<char>, value: LiteralModel) -> bool {
    exists|type_def: TypeModel|
        occurs_in(#[trigger] result_of(name, type_def), value)
}

/// The result of a function of the registry.
pub open spec fn result_of(name: Seq<char>, type_def: TypeModel) -> LiteralModel {
    LiteralModel::ResolvedCall { name, type_def }
}

/// Whether a value is what is returned at a return site.
pub open spec fn is_returned_at(value: LiteralModel, site: SiteModel) -> bool {
    match site {
        SiteModel::ObjectLiteral(fields) => value == LiteralModel::Object(fields),
        SiteModel::PrimitiveLiteral(held) => value == held,
        SiteModel::EnumLiteral { path, inner } => value == (LiteralModel::Enum { path, inner }),
        SiteModel::Unit => value is Unit,
        SiteModel::ResolvedCall { name, type_def } => value == result_of(name, type_def),
        SiteModel::TryPropagation { line } => value == LiteralModel::Dynamic(
            ReasonModel::TryPropagation,
        ),
        SiteModel::Dynamic(reason) => value == LiteralModel::Dynamic(reason),
    }
}

/// Of a value exactly those functions are called whose result is the value
/// itself or stands in it, however deep: in an object, a list or a variant.
pub proof fn called_functions_occur_in_the_value(value: LiteralModel, name: Seq<char>)
    ensures
        called_in_value(value).contains(name) <==> is_called_in(name, value),
    decreases value, 0nat,
{
    match value {
        LiteralModel::ResolvedCall { name: own, type_def } => {
            assert(called_in_value(value) == seq![own]);
            assert(seq![own][0] == own);
            if own == name {
                assert(occurs_in(result_of(name, type_def), value));
            }
        },
        LiteralModel::Object(fields) => {
            lemma_called_in_fields(fields, fields.len(), name);
            if called_in_value(value).contains(name) {
                let i = choose|i: int|
                    0 <= i < fields.len() && is_called_in(name, (#[trigger] fields[i]).1);
                let t = choose|t: TypeModel|
                    occurs_in(#[trigger] result_of(name, t), fields[i].1);
                assert(occurs_in(result_of(name, t), value));
            }
            if is_called_in(name, value) {
                let t = choose|t: TypeModel| occurs_in(#[trigger] result_of(name, t), value);
                let i = choose|i: int|
                    0 <= i < fields.len() && occurs_in(
                        result_of(name, t),
                        (#[trigger] fields[i]).1,
                    );
                assert(is_called_in(name, fields[i].1));
            }
        },
        LiteralModel::List(items) => {
            lemma_called_in_items(items, items.len(), name);
            if called_in_value(value).contains(name) {
                let i = choose|i: int|
                    0 <= i < items.len() && is_called_in(name, #[trigger] items[i]);
                let t = choose|t: TypeModel| occurs_in(#[trigger] result_of(name, t), items[i]);
                assert(occurs_in(result_of(name, t), value));
            }
            if is_called_in(name, value) {
                let t = choose|t: TypeModel| occurs_in(#[trigger] result_of(name, t), value);
                let i = choose|i: int|
                    0 <= i < items.len() && occurs_in(result_of(name, t), #[trigger] items[i]);
                assert(is_called_in(name, items[i]));
            }
        },
        LiteralModel::Enum { path, inner: Some(inner) } => {
            called_functions_occur_in_the_value(*inner, name);
            if is_called_in(name, *inner) {
                let t = choose|t: TypeModel| occurs_in(#[trigger] result_of(name, t), *inner);
                assert(occurs_in(result_of(name, t), value));
            }
            if is_called_in(name, value) {
                let t = choose|t: TypeModel| occurs_in(#[trigger] result_of(name, t), value);
                assert(occurs_in(result_of(name, t), *inner));
            }
        },
        _ => {},
    }
}

proof fn lemma_called_in_fields(
    fields: Seq<(Seq<char>, LiteralModel)>,
    n: nat,
    name: Seq<char>,
)
    requires
        n <= fields.len(),
    ensures
        called_in_fields(fields, n).contains(name) <==> exists|i: int|
            0 <= i < n && is_called_in(name, (#[trigger] fields[i]).1),
    decreases fields, n,
{
    if n > 0 {
        lemma_called_in_fields(fields, (n - 1) as nat, name);
        called_functions_occur_in_the_value(fields[n - 1].1, name);
        lemma_in_both(
            called_in_fields(fields, (n - 1) as nat),
            called_in_value(fields[n - 1].1),
            name,
        );
    }
}

proof fn lemma_called_in_items(items: Seq<LiteralModel>, n: nat, name: Seq<char>)
    requires
        n <= items.len(),
    ensures
        called_in_items(items, n).contains(name) <==> exists|i: int|
            0 <= i < n && is_called_in(name, #[trigger] items[i]),
    decreases items, n,
{
    if n > 0 {
        lemma_called_in_items(items, (n - 1) as nat, name);
        called_functions_occur_in_the_value(items[n - 1], name);
        lemma_in_both(
            called_in_items(items, (n - 1) as nat),
            called_in_value(items[n - 1]),
            name,
        );
    }
}

/// At a return site exactly those functions are called whose result stands in
/// the value that is returned there.
pub proof fn called_functions_occur_at_the_site(
    site: SiteModel,
    value: LiteralModel,
    name: Seq<char>,
)
    requires
        is_returned_at(value, site),
    ensures
        called_at_site(site).contains(name) <==> is_called_in(name, value),
{
    called_functions_occur_in_the_value(value, name);
}

/// Whether the result of a function stands in the value of one of the sites.
pub open spec fn is_called_at(name: Seq<char>, site: SiteModel) -> bool {
    exists|value: LiteralModel| #[trigger]
        is_returned_at(value, site) && is_called_in(name, value)
}

proof fn lemma_called_at_site(site: SiteModel, name: Seq<char>)
    ensures
        called_at_site(site).contains(name) <==> is_called_at(name, site),
{
    let value = match site {
        SiteModel::ObjectLiteral(fields) => LiteralModel::Object(fields),
        SiteModel::PrimitiveLiteral(held) => held,
        SiteModel::EnumLiteral { path, inner } => LiteralModel::Enum { path, inner },
        SiteModel::Unit => LiteralModel::Unit,
        SiteModel::ResolvedCall { name, type_def } => result_of(name, type_def),
        SiteModel::TryPropagation { line } => LiteralModel::Dynamic(ReasonModel::TryPropagation),
        SiteModel::Dynamic(reason) => LiteralModel::Dynamic(reason),
    };
    assert(is_returned_at(value, site));
    called_functions_occur_at_the_site(site, value, name);
    assert forall|other: LiteralModel| #[trigger] is_returned_at(other, site) implies other
        == value by {}
}

proof fn lemma_called_at_sites(sites: Seq<SiteModel>, n: nat, name: Seq<char>)
    requires
        n <= sites.len(),
    ensures
        called_at_sites(sites, n).contains(name) <==> exists|i: int|
            0 <= i < n && is_called_at(name, #[trigger] sites[i]),
    decreases n,
{
    if n > 0 {
        lemma_called_at_sites(sites, (n - 1) as nat, name);
        lemma_called_at_site(sites[n - 1], name);
        lemma_in_both(
            called_at_sites(sites, (n - 1) as nat),
            called_at_site(sites[n - 1]),
            name,
        );
    }
}

/// A function calls exactly those functions of the registry whose results
/// stand in what it returns, at any of its return sites and at any depth.
pub proof fn called_functions_occur_in_what_is_returned(
    script: ScriptTree,
    source: Seq<char>,
    host: HostModel,
    caller: Seq<char>,
    callee: Seq<char>,
)
    ensures
        checked_fn(script, source, caller, host) matches Ok(found) ==> (found.called.contains(
            callee,
        ) <==> exists|site: SiteModel|
            #![trigger is_called_at(callee, site)]
            return_sites(
                fn_named(script, source, caller)->Some_0.body,
                source,
                found.registry,
            ).contains(site) && is_called_at(callee, site)),
{
    if let Ok(found) = checked_fn(script, source, caller, host) {
        let sites = return_sites(
            fn_named(script, source, caller)->Some_0.body,
            source,
            found.registry,
        );
        lemma_called_at_sites(sites, sites.len(), callee);
        if found.called.contains(callee) {
            let i = choose|i: int|
                0 <= i < sites.len() && is_called_at(callee, #[trigger] sites[i]);
            assert(sites.contains(sites[i]));
        }
        if exists|site: SiteModel|
            #![trigger is_called_at(callee, site)]
            sites.contains(site) && is_called_at(callee, site) {
            let site = choose|site: SiteModel|
                #![trigger is_called_at(callee, site)]
                sites.contains(site) && is_called_at(callee, site);
            let i = choose|i: int| 0 <= i < sites.len() && sites[i] == site;
            assert(is_called_at(callee, sites[i]));
        }
    }
}

/// A helper whose result stands anywhere in what a function returns, also
/// within `Ok(..)` or `Some(..)`, a list or an object, is verified with it,
/// and a violation in the helper fails the script.
pub proof fn broken_helpers_in_returned_values_fail_the_script(
    script: ScriptTree,
    source: Seq<char>,
    main: Seq<char>,
    expected: Option<ContractModel>,
    host: HostModel,
    site: SiteModel,
    value: LiteralModel,
    helper: Seq<char>,
)
    requires
        checked_fn(script, source, main, host) matches Ok(found) && {
            &&& return_sites(
                fn_named(script, source, main)->Some_0.body,
                source,
                found.registry,
            ).contains(site)
            &&& found.registry.contains_key(helper)
            &&& found.registry[helper] is Helper
        },
        is_returned_at(value, site),
        is_called_in(helper, value),
        helper != main,
    ensures
        script_report(script, source, main, expected, host) matches Ok(report) ==> {
            &&& report.helpers.contains_key(helper)
            &&& checked_fn(script, source, helper, host) matches Ok(checked)
                && report.helpers[helper] == checked.report
            &&& !has_no_violation(report.helpers[helper]) ==> !report.is_valid
        },
{
    assert(is_called_at(helper, site));
    called_functions_occur_in_what_is_returned(script, source, host, main, helper);
    assert(calls_helper(script, source, host, main, helper));
    let chain = seq![main, helper];
    assert(is_call_chain(script, source, host, chain, main, helper));
    assert(is_reached(script, source, host, main, helper));
    reached_helpers_are_verified(script, source, main, expected, host, helper);
    if let Ok(report) = script_report(script, source, main, expected, host) {
        if !has_no_violation(report.helpers[helper]) {
            broken_helpers_fail_the_script(script, source, main, expected, host, helper);
        }
    }
}

/// A helper whose result stands anywhere in the value of a `return`, however
/// deep that `return` stands in the body, or in a value that the body itself
/// may end in, is verified with the function.
pub proof fn broken_helpers_in_returns_fail_the_script(
    script: ScriptTree,
    source: Seq<char>,
    main: Seq<char>,
    expected: Option<ContractModel>,
    host: HostModel,
    inner: ExprTree,
    helper: Seq<char>,
)
    requires
        checked_fn(script, source, main, host) matches Ok(found) && {
            let body = fn_named(script, source, main)->Some_0.body;
            let value = value_of(inner, source, found.registry);
            &&& stands_in_block(ExprTree::Return(Some(Box::new(inner))), body)
                || block_yields(body, Some(inner))
            &&& is_called_in(helper, value)
            &&& found.registry.contains_key(helper)
            &&& found.registry[helper] is Helper
        },
        helper != main,
    ensures
        script_report(script, source, main, expected, host) matches Ok(report) ==> {
            &&& report.helpers.contains_key(helper)
            &&& !has_no_violation(report.helpers[helper]) ==> !report.is_valid
        },
{
    let found = checked_fn(script, source, main, host)->Ok_0;
    let body = fn_named(script, source, main)->Some_0.body;
    let value = value_of(inner, source, found.registry);
    let site = site_of(value);
    if stands_in_block(ExprTree::Return(Some(Box::new(inner))), body) {
        let expr = ExprTree::Return(Some(Box::new(inner)));
        assert(own_site(expr, source, found.registry) == Some(site));
        each_return_is_a_site(body, expr, source, found.registry);
    } else {
        values_of_bodies_are_returned(body, source, found.registry);
        assert(leaf_site(Some(inner), source, found.registry) == site);
    }
    assert(is_returned_at(value, site));
    broken_helpers_in_returned_values_fail_the_script(
        script,
        source,
        main,
        expected,
        host,
        site,
        value,
        helper,
    );
}

} // verus!
