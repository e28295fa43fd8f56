//! The validation of a whole script.

use vstd::prelude::*;

use crate::ast_analyzer::{block_tail_sites, doc_of, fn_named, return_sites};
use crate::doc_comment::contract_of;
use crate::laws::compatibility::compatibility_is_reflexive;
use crate::laws::registry::invalid_helpers_leave_no_registry;
use crate::laws::return_sites::{
    each_return_is_a_site, lemma_tail_site_is_site, own_site, stands_in_block,
};
use crate::laws::verdicts::each_site_is_judged_once;
use crate::report::{ErrorModel, MismatchModel, ReportModel, SiteModel};
use crate::rune_ast::parsed;
use crate::signature_registry::registry_of;
use crate::source_text::span_text;
use crate::static_checker::site_outcome;
use crate::syntax::{ExprTree, ScriptTree};
use crate::types::{compatible, ContractModel, ParamModel};
use crate::validation::{
    checked_fn, contract_mismatches, is_due, lemma_unvisited_shrinks, lemma_visit, param_mismatches,
    reached, script_report, source_report, unvisited, CheckedFn, HostModel,
};

verus! {

// ---------------------------------------------------------------------------
// The helpers that are verified.
// ---------------------------------------------------------------------------

/// Whether a return site of the function `caller` calls the helper `callee`.
pub open spec fn calls_helper(
    script: ScriptTree,
    source: Seq<char>,
    host: HostModel,
    caller: Seq<char>,
    callee: Seq<char>,
) -> bool {
    checked_fn(script, source, caller, host) matches Ok(found) && has_called(found, callee)
}

/// Whether a helper is among the functions that a function calls.
pub open spec fn has_called(found: CheckedFn, callee: Seq<char>) -> bool {
    &&& found.called.contains(callee)
    &&& found.registry.contains_key(callee)
    &&& found.registry[callee] is Helper
}

/// Whether each function of a chain calls the next one, from `caller` to
/// `callee`.
pub open spec fn is_call_chain(
    script: ScriptTree,
    source: Seq<char>,
    host: HostModel,
    chain: Seq<Seq<char>>,
    caller: Seq<char>,
    callee: Seq<char>,
) -> bool {
    &&& chain.len() > 1
    &&& chain[0] == caller
    &&& chain.last() == callee
    &&& forall|i: int|
        0 < i < chain.len() ==> calls_helper(
            script,
            source,
            host,
            chain[i - 1],
            #[trigger] chain[i],
        )
}

/// Whether `callee` is reached from `caller`, directly or through helpers.
pub open spec fn is_reached(
    script: ScriptTree,
    source: Seq<char>,
    host: HostModel,
    caller: Seq<char>,
    callee: Seq<char>,
) -> bool {
    exists|chain: Seq<Seq<char>>|
        is_call_chain(script, source, host, chain, caller, callee)
}

proof fn lemma_direct_call(
    script: ScriptTree,
    source: Seq<char>,
    host: HostModel,
    caller: Seq<char>,
    callee: Seq<char>,
)
    requires
        calls_helper(script, source, host, caller, callee),
    ensures
        is_reached(script, source, host, caller, callee),
{
    let chain = seq![caller, callee];
    assert(is_call_chain(script, source, host, chain, caller, callee));
}

proof fn lemma_call_before(
    script: ScriptTree,
    source: Seq<char>,
    host: HostModel,
    first: Seq<char>,
    caller: Seq<char>,
    callee: Seq<char>,
)
    requires
        calls_helper(script, source, host, first, caller),
        is_reached(script, source, host, caller, callee),
    ensures
        is_reached(script, source, host, first, callee),
{
    let chain = choose|chain: Seq<Seq<char>>|
        is_call_chain(script, source, host, chain, caller, callee);
    let longer = seq![first] + chain;
    assert forall|i: int| 0 < i < longer.len() implies calls_helper(
        script,
        source,
        host,
        longer[i - 1],
        #[trigger] longer[i],
    ) by {
        if i > 1 {
            assert(chain[i - 1] == longer[i] && chain[i - 2] == longer[i - 1]);
        }
    }
    assert(is_call_chain(script, source, host, longer, first, callee));
}

/// What the functions visited and the reports are, after the functions that
/// `caller` calls have been verified from `from` on.
#[verifier::opaque]
spec fn is_complete(
    caller: Seq<char>,
    found: CheckedFn,
    from: nat,
    helpers: Map<Seq<char>, ReportModel>,
    visited: Set<Seq<char>>,
    all: Map<Seq<char>, ReportModel>,
    seen: Set<Seq<char>>,
    script: ScriptTree,
    source: Seq<char>,
    host: HostModel,
) -> bool {
    &&& visited.subset_of(seen)
    &&& helpers.submap_of(all)
    &&& all.dom().subset_of(seen)
    &&& forall|name: Seq<char>| #[trigger]
        seen.contains(name) ==> visited.contains(name) || all.contains_key(name)
    // What was added.
    &&& forall|name: Seq<char>| #[trigger]
        all.contains_key(name) && !helpers.contains_key(name) ==> is_added(
            caller,
            visited,
            all,
            name,
            script,
            source,
            host,
        )
    // Nothing is left out.
    &&& forall|i: int|
        from <= i < found.called.len() && is_helper(found, #[trigger] found.called[i])
            ==> seen.contains(found.called[i])
    &&& forall|name: Seq<char>, callee: Seq<char>|
        seen.contains(name) && !visited.contains(name) && #[trigger] calls_helper(
            script,
            source,
            host,
            name,
            callee,
        ) ==> seen.contains(callee)
}

/// Whether a name is that of a helper in the registry of a function.
spec fn is_helper(found: CheckedFn, name: Seq<char>) -> bool {
    found.registry.contains_key(name) && found.registry[name] is Helper
}

/// Whether the report of a helper that `caller` reaches was added.
spec fn is_added(
    caller: Seq<char>,
    visited: Set<Seq<char>>,
    all: Map<Seq<char>, ReportModel>,
    name: Seq<char>,
    script: ScriptTree,
    source: Seq<char>,
    host: HostModel,
) -> bool {
    &&& !visited.contains(name)
    &&& checked_fn(script, source, name, host) matches Ok(helper) && all[name] == helper.report
    &&& is_reached(script, source, host, caller, name)
}

proof fn lemma_skipped_is_complete(
    caller: Seq<char>,
    found: CheckedFn,
    from: nat,
    helpers: Map<Seq<char>, ReportModel>,
    visited: Set<Seq<char>>,
    all: Map<Seq<char>, ReportModel>,
    seen: Set<Seq<char>>,
    script: ScriptTree,
    source: Seq<char>,
    host: HostModel,
)
    requires
        from < found.called.len(),
        helpers.dom().subset_of(visited),
        !is_due(found.called[from as int], found.registry, helpers, visited),
        is_complete(
            caller,
            found,
            from + 1,
            helpers,
            visited,
            all,
            seen,
            script,
            source,
            host,
        ),
    ensures
        is_complete(caller, found, from, helpers, visited, all, seen, script, source, host),
{
    reveal(is_complete);
    let name = found.called[from as int];
    assert(is_helper(found, name) ==> visited.contains(name)) by {
        if helpers.contains_key(name) {
            assert(helpers.dom().contains(name));
        }
    }
}

proof fn lemma_visited_is_complete(
    caller: Seq<char>,
    found: CheckedFn,
    from: nat,
    helpers: Map<Seq<char>, ReportModel>,
    visited: Set<Seq<char>>,
    helper: CheckedFn,
    more: Map<Seq<char>, ReportModel>,
    seen: Set<Seq<char>>,
    all: Map<Seq<char>, ReportModel>,
    last: Set<Seq<char>>,
    script: ScriptTree,
    source: Seq<char>,
    host: HostModel,
)
    requires
        from < found.called.len(),
        helpers.dom().subset_of(visited),
        checked_fn(script, source, caller, host) == Ok::<_, ErrorModel>(found),
        checked_fn(script, source, found.called[from as int], host) == Ok::<_, ErrorModel>(helper),
        is_due(found.called[from as int], found.registry, helpers, visited),
        is_complete(
            found.called[from as int],
            helper,
            0,
            helpers,
            visited.insert(found.called[from as int]),
            more,
            seen,
            script,
            source,
            host,
        ),
        is_complete(
            caller,
            found,
            from + 1,
            more.insert(found.called[from as int], helper.report),
            seen,
            all,
            last,
            script,
            source,
            host,
        ),
    ensures
        is_complete(caller, found, from, helpers, visited, all, last, script, source, host),
{
    reveal(is_complete);
    let name = found.called[from as int];
    let grown = more.insert(name, helper.report);
    assert(calls_helper(script, source, host, caller, name));
    lemma_direct_call(script, source, host, caller, name);
    assert(seen.contains(name));
    assert(!helpers.contains_key(name));
    assert(helpers.submap_of(grown)) by {
        assert forall|n: Seq<char>| #[trigger] helpers.contains_key(n) implies grown.contains_key(n)
            && helpers[n] == grown[n] by {
            assert(more.contains_key(n));
        }
    }
    assert(helpers.submap_of(all)) by {
        assert forall|n: Seq<char>| #[trigger] helpers.contains_key(n) implies all.contains_key(n)
            && helpers[n] == all[n] by {
            assert(grown.contains_key(n));
        }
    }
    assert forall|n: Seq<char>| #[trigger] last.contains(n) implies visited.contains(n)
        || all.contains_key(n) by {
        if seen.contains(n) && !visited.contains(n) {
            assert(grown.contains_key(n));
        }
    }
    assert forall|n: Seq<char>| #[trigger] all.contains_key(n) && !helpers.contains_key(
        n,
    ) implies is_added(caller, visited, all, n, script, source, host) by {
        if n == name {
            assert(grown.contains_key(n));
        } else if more.contains_key(n) {
            assert(grown.contains_key(n));
            assert(is_added(
                name,
                visited.insert(name),
                more,
                n,
                script,
                source,
                host,
            ));
            lemma_call_before(script, source, host, caller, name, n);
        } else {
            assert(!grown.contains_key(n));
        }
    }
    assert forall|i: int|
        from <= i < found.called.len() && is_helper(found, #[trigger] found.called[i]) implies
        last.contains(found.called[i]) by {
        if i == from {
            assert(seen.contains(name));
        }
    }
    assert forall|n: Seq<char>, callee: Seq<char>|
        last.contains(n) && !visited.contains(n) && #[trigger] calls_helper(
            script,
            source,
            host,
            n,
            callee,
        ) implies last.contains(callee) by {
        if n == name {
            let k = choose|k: int| 0 <= k < helper.called.len() && helper.called[k] == callee;
            assert(is_helper(helper, helper.called[k]));
        } else if seen.contains(n) {
            assert(seen.contains(callee));
        }
    }
}

proof fn lemma_reached(
    caller: Seq<char>,
    found: CheckedFn,
    from: nat,
    helpers: Map<Seq<char>, ReportModel>,
    visited: Set<Seq<char>>,
    script: ScriptTree,
    source: Seq<char>,
    host: HostModel,
)
    requires
        checked_fn(script, source, caller, host) == Ok::<_, ErrorModel>(found),
        helpers.dom().subset_of(visited),
    ensures
        match reached(
            found.called,
            from,
            found.registry,
            helpers,
            visited,
            script,
            source,
            host,
        ) {
            Ok((all, seen)) => is_complete(
                caller,
                found,
                from,
                helpers,
                visited,
                all,
                seen,
                script,
                source,
                host,
            ),
            Err(e) => exists|name: Seq<char>|
                is_reached(script, source, host, caller, name) && #[trigger] checked_fn(
                    script,
                    source,
                    name,
                    host,
                ) == Err::<CheckedFn, _>(e),
        },
    decreases
            unvisited(script.items, script.items.len(), source, visited),
            found.called.len() - from,
{
    if from >= found.called.len() {
        reveal(is_complete);
    } else {
        let name = found.called[from as int];
        if !is_due(name, found.registry, helpers, visited) {
            lemma_reached(caller, found, from + 1, helpers, visited, script, source, host);
            if let Ok((all, seen)) = reached(
                found.called,
                from + 1,
                found.registry,
                helpers,
                visited,
                script,
                source,
                host,
            ) {
                lemma_skipped_is_complete(
                    caller,
                    found,
                    from,
                    helpers,
                    visited,
                    all,
                    seen,
                    script,
                    source,
                    host,
                );
            }
        } else {
            assert(calls_helper(script, source, host, caller, name));
            lemma_direct_call(script, source, host, caller, name);
            if let Ok(helper) = checked_fn(script, source, name, host) {
                lemma_visit(script, source, name, visited);
                lemma_reached(
                    name,
                    helper,
                    0,
                    helpers,
                    visited.insert(name),
                    script,
                    source,
                    host,
                );
                match reached(
                    helper.called,
                    0,
                    helper.registry,
                    helpers,
                    visited.insert(name),
                    script,
                    source,
                    host,
                ) {
                    Err(e) => {
                        let other = choose|other: Seq<char>|
                            is_reached(script, source, host, name, other) && #[trigger] checked_fn(
                                script,
                                source,
                                other,
                                host,
                            ) == Err::<CheckedFn, _>(e);
                        lemma_call_before(script, source, host, caller, name, other);
                    },
                    Ok((more, seen)) => {
                        let grown = more.insert(name, helper.report);
                        assert(visited.subset_of(seen) && grown.dom().subset_of(seen)) by {
                            reveal(is_complete);
                        }
                        lemma_unvisited_shrinks(
                            script.items,
                            script.items.len(),
                            source,
                            visited,
                            seen,
                        );
                        lemma_reached(caller, found, from + 1, grown, seen, script, source, host);
                        if let Ok((all, last)) = reached(
                            found.called,
                            from + 1,
                            found.registry,
                            grown,
                            seen,
                            script,
                            source,
                            host,
                        ) {
                            lemma_visited_is_complete(
                                caller,
                                found,
                                from,
                                helpers,
                                visited,
                                helper,
                                more,
                                seen,
                                all,
                                last,
                                script,
                                source,
                                host,
                            );
                        }
                    },
                }
            }
        }
    }
}

proof fn lemma_chain_is_visited(
    script: ScriptTree,
    source: Seq<char>,
    host: HostModel,
    main: Seq<char>,
    found: CheckedFn,
    chain: Seq<Seq<char>>,
    callee: Seq<char>,
    all: Map<Seq<char>, ReportModel>,
    seen: Set<Seq<char>>,
    n: nat,
)
    requires
        is_call_chain(script, source, host, chain, main, callee),
        checked_fn(script, source, main, host) == Ok::<_, ErrorModel>(found),
        is_complete(
            main,
            found,
            0,
            Map::empty(),
            set![main],
            all,
            seen,
            script,
            source,
            host,
        ),
        n < chain.len(),
    ensures
        seen.contains(chain[n as int]),
    decreases n,
{
    reveal(is_complete);
    if n > 0 {
        lemma_chain_is_visited(
            script,
            source,
            host,
            main,
            found,
            chain,
            callee,
            all,
            seen,
            (n - 1) as nat,
        );
        let before = chain[n - 1];
        let next = chain[n as int];
        assert(calls_helper(script, source, host, before, next));
        if before == main {
            let k = choose|k: int| 0 <= k < found.called.len() && found.called[k] == next;
            assert(is_helper(found, found.called[k]));
        }
    }
}

/// The helpers that are verified are those that the contracted function
/// reaches, directly or through other helpers, each of them once, and no
/// others. The report of each is what is found of it.
pub proof fn reached_helpers_are_verified(
    script: ScriptTree,
    source: Seq<char>,
    main: Seq<char>,
    expected: Option<ContractModel>,
    host: HostModel,
    name: Seq<char>,
)
    ensures
        script_report(script, source, main, expected, host) matches Ok(report) ==> {
            &&& report.helpers.contains_key(name) <==> name != main && is_reached(
                script,
                source,
                host,
                main,
                name,
            )
            &&& report.helpers.contains_key(name) ==> (checked_fn(
                script,
                source,
                name,
                host,
            ) matches Ok(helper) && report.helpers[name] == helper.report)
        },
{
    if let Ok(report) = script_report(script, source, main, expected, host) {
        let found = checked_fn(script, source, main, host)->Ok_0;
        lemma_reached(main, found, 0, Map::empty(), set![main], script, source, host);
        let (all, seen) = reached(
            found.called,
            0,
            found.registry,
            Map::empty(),
            set![main],
            script,
            source,
            host,
        )->Ok_0;
        if report.helpers.contains_key(name) {
            reveal(is_complete);
            assert(is_added(main, set![main], all, name, script, source, host));
        }
        if name != main && is_reached(script, source, host, main, name) {
            let chain = choose|chain: Seq<Seq<char>>|
                is_call_chain(script, source, host, chain, main, name);
            lemma_chain_is_visited(
                script,
                source,
                host,
                main,
                found,
                chain,
                name,
                all,
                seen,
                (chain.len() - 1) as nat,
            );
            reveal(is_complete);
        }
    }
}

/// A validation fails with an error only where the contracted function, or a
/// helper that it reaches, cannot be checked.
pub proof fn errors_come_from_checked_functions(
    script: ScriptTree,
    source: Seq<char>,
    main: Seq<char>,
    expected: Option<ContractModel>,
    host: HostModel,
)
    ensures
        script_report(script, source, main, expected, host) matches Err(e) ==> exists|
            name: Seq<char>,
        |
            (name == main || is_reached(script, source, host, main, name))
                && #[trigger] checked_fn(script, source, name, host) == Err::<CheckedFn, _>(e),
{
    if let Ok(found) = checked_fn(script, source, main, host) {
        lemma_reached(main, found, 0, Map::empty(), set![main], script, source, host);
    }
}

/// A function that cannot be checked, and that the contracted function
/// reaches, fails the whole validation.
pub proof fn unchecked_functions_fail_the_validation(
    script: ScriptTree,
    source: Seq<char>,
    main: Seq<char>,
    expected: Option<ContractModel>,
    host: HostModel,
    name: Seq<char>,
)
    requires
        name == main || is_reached(script, source, host, main, name),
        checked_fn(script, source, name, host) is Err,
    ensures
        script_report(script, source, main, expected, host) is Err,
{
    reached_helpers_are_verified(script, source, main, expected, host, name);
}

/// A helper whose doc-comment is no valid contract fails the whole
/// validation, also where nothing calls it.
pub proof fn invalid_helpers_fail_the_validation(
    script: ScriptTree,
    source: Seq<char>,
    main: Seq<char>,
    expected: Option<ContractModel>,
    host: HostModel,
    at: int,
)
    requires
        0 <= at < script.items.len(),
        script.items[at] is Fn,
        span_text(source, script.items[at]->Fn_0.name) != main,
        doc_of(script.items[at]->Fn_0, source) matches Some(doc) && contract_of(doc) is Err,
        fn_named(script, source, main) matches Some(item) && doc_of(item, source) is Some,
    ensures
        script_report(script, source, main, expected, host) matches Err(
            ErrorModel::InvalidContractSyntax(_),
        ),
{
    invalid_helpers_leave_no_registry(script, source, main, host.builtins, at);
}

// ---------------------------------------------------------------------------
// Validity.
// ---------------------------------------------------------------------------

/// Whether nothing was found against a function.
pub open spec fn has_no_violation(report: ReportModel) -> bool {
    report.static_result.violations.len() == 0 && report.method_violations.len() == 0
}

/// A script is valid exactly if neither the contracted function nor any
/// helper that it reaches has a violation, and the declared contract has no
/// mismatch with the expected one. What is unverifiable does not matter.
pub proof fn valid_scripts_have_no_violation(
    script: ScriptTree,
    source: Seq<char>,
    main: Seq<char>,
    expected: Option<ContractModel>,
    host: HostModel,
)
    ensures
        script_report(script, source, main, expected, host) matches Ok(report) ==> (report.is_valid
            <==> {
            &&& has_no_violation(report.main)
            &&& forall|name: Seq<char>| #[trigger]
                report.helpers.contains_key(name) ==> has_no_violation(report.helpers[name])
            &&& report.contract_mismatches.len() == 0
        }),
{
    if let Ok(report) = script_report(script, source, main, expected, host) {
        assert forall|name: Seq<char>| #[trigger]
            report.helpers.contains_key(name) implies report.helpers[name].is_valid
            == has_no_violation(report.helpers[name]) by {
            reached_helpers_are_verified(script, source, main, expected, host, name);
        }
    }
}

/// A function that is valid honors its contract: no return site of its body
/// violates the declared return type, neither a `return` or a `?` anywhere in
/// it nor one at which the value of the body is returned.
pub proof fn valid_functions_honor_their_contract(
    script: ScriptTree,
    source: Seq<char>,
    name: Seq<char>,
    host: HostModel,
)
    ensures
        checked_fn(script, source, name, host) matches Ok(found) ==> found.report.is_valid ==> {
            let body = fn_named(script, source, name)->Some_0.body;
            let expected = found.report.contract.return_type;
            &&& forall|expr: ExprTree| #[trigger]
                stands_in_block(expr, body) ==> (own_site(
                    expr,
                    source,
                    found.registry,
                ) matches Some(site) ==> !(site_outcome(expected, site) is Violation))
            &&& forall|site: SiteModel| #[trigger]
                block_tail_sites(body, source, found.registry).contains(site) ==> !(site_outcome(
                    expected,
                    site,
                ) is Violation)
        },
{
    if let Ok(found) = checked_fn(script, source, name, host) {
        if found.report.is_valid {
            let body = fn_named(script, source, name)->Some_0.body;
            let expected = found.report.contract.return_type;
            let sites = return_sites(body, source, found.registry);
            each_site_is_judged_once(sites, expected);
            assert forall|site: SiteModel| #[trigger] sites.contains(site) implies !(site_outcome(
                expected,
                site,
            ) is Violation) by {
                let k = choose|k: int| 0 <= k < sites.len() && sites[k] == site;
                assert(site_outcome(expected, sites[k]) == site_outcome(expected, site));
            }
            assert forall|expr: ExprTree| #[trigger] stands_in_block(expr, body) implies (own_site(
                expr,
                source,
                found.registry,
            ) matches Some(site) ==> !(site_outcome(expected, site) is Violation)) by {
                each_return_is_a_site(body, expr, source, found.registry);
            }
            assert forall|site: SiteModel| #[trigger]
                block_tail_sites(body, source, found.registry).contains(
                    site,
                ) implies !(site_outcome(expected, site) is Violation) by {
                lemma_tail_site_is_site(body, site, source, found.registry);
            }
        }
    }
}

/// A helper with a violation, anywhere in the chain of calls, fails the whole
/// script.
pub proof fn broken_helpers_fail_the_script(
    script: ScriptTree,
    source: Seq<char>,
    main: Seq<char>,
    expected: Option<ContractModel>,
    host: HostModel,
    name: Seq<char>,
)
    requires
        is_reached(script, source, host, main, name),
        checked_fn(script, source, name, host) matches Ok(helper) && !has_no_violation(
            helper.report,
        ),
    ensures
        script_report(script, source, main, expected, host) matches Ok(report) ==> !report.is_valid,
{
    reached_helpers_are_verified(script, source, main, expected, host, name);
    valid_scripts_have_no_violation(script, source, main, expected, host);
}

// ---------------------------------------------------------------------------
// The expected signature.
// ---------------------------------------------------------------------------

/// Without an expected signature there is nothing to compare.
pub proof fn nothing_expected_is_nothing_compared(
    script: ScriptTree,
    source: Seq<char>,
    main: Seq<char>,
    host: HostModel,
)
    ensures
        script_report(script, source, main, None, host) matches Ok(report)
            ==> report.contract_mismatches.len() == 0,
{
}

/// Whether two contracts have as many parameters, and their types are
/// compatible one by one.
pub open spec fn contracts_agree(expected: ContractModel, actual: ContractModel) -> bool {
    &&& expected.params.len() == actual.params.len()
    &&& forall|i: int|
        0 <= i < expected.params.len() ==> compatible(
            (#[trigger] expected.params[i]).type_def,
            actual.params[i].type_def,
        )
    &&& compatible(expected.return_type, actual.return_type)
}

proof fn lemma_param_mismatches(expected: Seq<ParamModel>, actual: Seq<ParamModel>, n: nat)
    requires
        n <= expected.len(),
        n <= actual.len(),
    ensures
        param_mismatches(expected, actual, n).len() == 0 <==> forall|i: int|
            0 <= i < n ==> compatible((#[trigger] expected[i]).type_def, actual[i].type_def),
    decreases n,
{
    if n > 0 {
        lemma_param_mismatches(expected, actual, (n - 1) as nat);
        assert(expected[n - 1].type_def == expected[n - 1].type_def);
    }
}

/// There is no mismatch exactly if the contracts agree.
pub proof fn mismatches_tell_contracts_apart(expected: ContractModel, actual: ContractModel)
    ensures
        contract_mismatches(expected, actual).len() == 0 <==> contracts_agree(expected, actual),
{
    let n = if expected.params.len() < actual.params.len() {
        expected.params.len()
    } else {
        actual.params.len()
    };
    lemma_param_mismatches(expected.params, actual.params, n);
}

/// A script picks its own names for the parameters: only their types are
/// compared.
pub proof fn parameter_names_do_not_matter(
    expected: ContractModel,
    actual: ContractModel,
    renamed: ContractModel,
)
    requires
        actual.params.len() == renamed.params.len(),
        forall|i: int|
            0 <= i < actual.params.len() ==> (#[trigger] actual.params[i]).type_def
                == renamed.params[i].type_def,
        actual.return_type == renamed.return_type,
    ensures
        contract_mismatches(expected, actual).len() == 0 <==> contract_mismatches(
            expected,
            renamed,
        ).len() == 0,
{
    mismatches_tell_contracts_apart(expected, actual);
    mismatches_tell_contracts_apart(expected, renamed);
}

/// A contract that is declared as it is expected has no mismatch.
pub proof fn same_contract_has_no_mismatch(contract: ContractModel)
    ensures
        contract_mismatches(contract, contract).len() == 0,
{
    mismatches_tell_contracts_apart(contract, contract);
    compatibility_is_reflexive(contract.return_type);
    assert forall|i: int| 0 <= i < contract.params.len() implies compatible(
        (#[trigger] contract.params[i]).type_def,
        contract.params[i].type_def,
    ) by {
        compatibility_is_reflexive(contract.params[i].type_def);
    }
}

/// Whether a mismatch is one between two contracts: a different number of
/// parameters, a parameter whose types are not compatible, at its position,
/// or a return type that is not compatible.
pub open spec fn differs(
    expected: ContractModel,
    actual: ContractModel,
    mismatch: MismatchModel,
) -> bool {
    match mismatch {
        MismatchModel::ParamCount { expected: e, actual: a } => {
            &&& e == expected.params.len()
            &&& a == actual.params.len()
            &&& e != a
        },
        MismatchModel::Param { index, expected: e, actual: a } => {
            &&& index < expected.params.len()
            &&& index < actual.params.len()
            &&& e == expected.params[index as int]
            &&& a == actual.params[index as int]
            &&& !compatible(e.type_def, a.type_def)
        },
        MismatchModel::ReturnType { expected: e, actual: a } => {
            &&& e == expected.return_type
            &&& a == actual.return_type
            &&& !compatible(e, a)
        },
    }
}

proof fn lemma_param_mismatch(
    expected: Seq<ParamModel>,
    actual: Seq<ParamModel>,
    n: nat,
    m: MismatchModel,
)
    requires
        n <= expected.len(),
        n <= actual.len(),
    ensures
        param_mismatches(expected, actual, n).contains(m) <==> (m matches MismatchModel::Param {
            index,
            expected: e,
            actual: a,
        } && index < n && e == expected[index as int] && a == actual[index as int] && !compatible(
            e.type_def,
            a.type_def,
        )),
    decreases n,
{
    if n > 0 {
        lemma_param_mismatch(expected, actual, (n - 1) as nat, m);
        let before = param_mismatches(expected, actual, (n - 1) as nat);
        let all = param_mismatches(expected, actual, n);
        if !compatible(expected[n - 1].type_def, actual[n - 1].type_def) {
            assert(all[before.len() as int] == all.last());
            if before.contains(m) {
                let k = choose|k: int| 0 <= k < before.len() && before[k] == m;
                assert(all[k] == m);
            }
            if all.contains(m) && m != all.last() {
                let k = choose|k: int| 0 <= k < all.len() && all[k] == m;
                assert(before[k] == m);
            }
        }
    }
}

/// The mismatches are exactly what two contracts differ in, each with what is
/// expected and what the script declares: that the numbers of parameters
/// differ comes first, that the return types do last.
pub proof fn mismatches_say_what_differs(
    expected: ContractModel,
    actual: ContractModel,
    m: MismatchModel,
)
    ensures
        contract_mismatches(expected, actual).contains(m) <==> differs(expected, actual, m),
        expected.params.len() != actual.params.len() ==> contract_mismatches(
            expected,
            actual,
        )[0] is ParamCount,
        !compatible(expected.return_type, actual.return_type) ==> contract_mismatches(
            expected,
            actual,
        ).last() is ReturnType,
{
    let n = if expected.params.len() < actual.params.len() {
        expected.params.len()
    } else {
        actual.params.len()
    };
    let first = if expected.params.len() == actual.params.len() {
        Seq::empty()
    } else {
        seq![
            MismatchModel::ParamCount {
                expected: expected.params.len(),
                actual: actual.params.len(),
            },
        ]
    };
    let middle = param_mismatches(expected.params, actual.params, n);
    let last = if compatible(expected.return_type, actual.return_type) {
        Seq::empty()
    } else {
        seq![
            MismatchModel::ReturnType {
                expected: expected.return_type,
                actual: actual.return_type,
            },
        ]
    };
    let all = contract_mismatches(expected, actual);
    assert(all == first + middle + last);
    lemma_param_mismatch(expected.params, actual.params, n, m);
    assert(first.contains(m) <==> m is ParamCount && differs(expected, actual, m)) by {
        assert(first.len() > 0 ==> first[0] is ParamCount);
    }
    assert(last.contains(m) <==> m is ReturnType && differs(expected, actual, m)) by {
        assert(last.len() > 0 ==> last[0] is ReturnType);
    }
    if first.contains(m) {
        let k = choose|k: int| 0 <= k < first.len() && first[k] == m;
        assert(all[k] == m);
    }
    if middle.contains(m) {
        let k = choose|k: int| 0 <= k < middle.len() && middle[k] == m;
        assert(all[first.len() + k] == m);
    }
    if last.contains(m) {
        let k = choose|k: int| 0 <= k < last.len() && last[k] == m;
        assert(all[first.len() + middle.len() + k] == m);
    }
    if all.contains(m) {
        let k = choose|k: int| 0 <= k < all.len() && all[k] == m;
        if k < first.len() {
            assert(first[k] == m);
        } else if k < first.len() + middle.len() {
            assert(middle[k - first.len()] == m);
        } else {
            assert(last[k - first.len() - middle.len()] == m);
        }
    }
}

/// The declared contract of the contracted function is compared with the
/// expected one, and with nothing else.
pub proof fn declared_contracts_are_compared(
    script: ScriptTree,
    source: Seq<char>,
    main: Seq<char>,
    expected: ContractModel,
    host: HostModel,
    m: MismatchModel,
)
    ensures
        script_report(script, source, main, Some(expected), host) matches Ok(report) ==> (
        report.contract_mismatches.contains(m) <==> differs(expected, report.main.contract, m)),
{
    if let Ok(report) = script_report(script, source, main, Some(expected), host) {
        mismatches_say_what_differs(expected, report.main.contract, m);
    }
}

// ---------------------------------------------------------------------------
// What a report tells.
// ---------------------------------------------------------------------------

/// A function is checked exactly if the script has it, with a doc-comment
/// that is a valid contract, and all other functions with a doc-comment have
/// valid contracts; otherwise the error says what is wrong with it.
pub proof fn checks_fail_for_these_reasons(
    script: ScriptTree,
    source: Seq<char>,
    name: Seq<char>,
    host: HostModel,
)
    ensures
        match fn_named(script, source, name) {
            None => checked_fn(script, source, name, host) == Err::<CheckedFn, _>(
                ErrorModel::FunctionNotFound(name),
            ),
            Some(item) => match doc_of(item, source) {
                None => checked_fn(script, source, name, host) == Err::<CheckedFn, _>(
                    ErrorModel::NoDocComment,
                ),
                Some(doc) => {
                    &&& contract_of(doc) matches Err(message) ==> checked_fn(
                        script,
                        source,
                        name,
                        host,
                    ) == Err::<CheckedFn, _>(ErrorModel::InvalidContractSyntax(message))
                    &&& contract_of(doc) is Ok && registry_of(
                        script,
                        source,
                        name,
                        host.builtins,
                    ) is Ok ==> checked_fn(script, source, name, host) is Ok
                },
            },
        },
{
}

/// A report names the function that was checked, and holds the contract of
/// its doc-comment.
pub proof fn reports_tell_what_was_checked(
    script: ScriptTree,
    source: Seq<char>,
    main: Seq<char>,
    expected: Option<ContractModel>,
    host: HostModel,
    name: Seq<char>,
)
    ensures
        checked_fn(script, source, name, host) matches Ok(found) ==> {
            &&& found.report.function_name == name
            &&& fn_named(script, source, name) matches Some(item) && doc_of(
                item,
                source,
            ) matches Some(doc) && contract_of(doc) == Ok::<_, Seq<char>>(found.report.contract)
            &&& registry_of(script, source, name, host.builtins) == Ok::<_, Seq<char>>(
                found.registry,
            )
            &&& found.report.is_valid <==> has_no_violation(found.report)
        },
        script_report(script, source, main, expected, host) matches Ok(report) ==> {
            &&& report.main.function_name == main
            &&& report.helpers.contains_key(name) ==> report.helpers[name].function_name == name
        },
{
    reached_helpers_are_verified(script, source, main, expected, host, name);
}

/// A text that does not parse is answered with the error of the parser, any
/// other one with what is found of the script.
pub proof fn texts_are_parsed_first(
    source: Seq<char>,
    name: Seq<char>,
    expected: Option<ContractModel>,
    host: HostModel,
)
    ensures
        parsed(source) matches Err(message) ==> (source_report(
            source,
            name,
            expected,
            host,
        ) matches Err(e) && e == ErrorModel::RuneParseError(message)),
        parsed(source) matches Ok(script) ==> source_report(source, name, expected, host)
            == script_report(script, source, name, expected, host),
{
}

} // verus!
