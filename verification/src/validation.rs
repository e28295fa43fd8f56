//! The validation of a script: its contracted function, the helpers that it
//! reaches, and the signature that the host expects.

use vstd::prelude::*;
use vstd::utf8::encode_utf8;

use crate::ast_analyzer::{
    doc_comment_before, doc_of, find_function, find_return_sites, fn_from, fn_named, is_fn_named,
    parse_file, return_sites,
};
use crate::doc_comment::{contract_of, parse};
use crate::method_checker::{missing_methods, Setting};
use crate::name_map::NameMap;
use crate::report::{
    literal_fields_model, literals_model, mismatches_model, reports_model, sites_model,
    CheckerError, ContractMismatch, ErrorModel, LiteralModel, LiteralValue, MismatchModel,
    ReportModel, ReturnSite, ScriptReportModel, ScriptValidationReport, SiteModel, ValidationReport,
};
use crate::rune_ast::parsed;
use crate::signature_registry::{build, registry_of};
use crate::source_text::span_text;
use crate::static_checker::checked;
use crate::syntax::{script_fits, FnTree, ItemTree, Script, ScriptTree};
use crate::text::texts;
use crate::types::{
    builtins_model, compatible, BuiltinModel, Contract, ContractModel, Environment, MethodTable,
    OriginModel, ParamModel,
};

verus! {

// ---------------------------------------------------------------------------
// The declared contract against the expected signature.
// ---------------------------------------------------------------------------

/// The mismatches among the first `n` parameters. Only the types are
/// compared: a script picks its own names.
pub open spec fn param_mismatches(
    expected: Seq<ParamModel>,
    actual: Seq<ParamModel>,
    n: nat,
) -> Seq<MismatchModel>
    decreases n,
{
    if n == 0 {
        Seq::empty()
    } else {
        let before = param_mismatches(expected, actual, (n - 1) as nat);
        if compatible(expected[n - 1].type_def, actual[n - 1].type_def) {
            before
        } else {
            before.push(
                MismatchModel::Param {
                    index: (n - 1) as nat,
                    expected: expected[n - 1],
                    actual: actual[n - 1],
                },
            )
        }
    }
}

/// The differences between the contract that a script declares and the one
/// that is expected.
pub open spec fn contract_mismatches(expected: ContractModel, actual: ContractModel) -> Seq<
    MismatchModel,
> {
    (if expected.params.len() == actual.params.len() {
        Seq::empty()
    } else {
        seq![
            MismatchModel::ParamCount {
                expected: expected.params.len(),
                actual: actual.params.len(),
            },
        ]
    }) + param_mismatches(
        expected.params,
        actual.params,
        if expected.params.len() < actual.params.len() {
            expected.params.len()
        } else {
            actual.params.len()
        },
    ) + (if compatible(expected.return_type, actual.return_type) {
        Seq::empty()
    } else {
        seq![
            MismatchModel::ReturnType {
                expected: expected.return_type,
                actual: actual.return_type,
            },
        ]
    })
}

/// Compares the contract that a script declares with the one that is
/// expected.
pub fn compare_contracts(expected: &Contract, actual: &Contract) -> (r: Vec<ContractMismatch>)
    ensures
        mismatches_model(r@) == contract_mismatches(expected@, actual@),
{
    let mut out: Vec<ContractMismatch> = Vec::new();
    assert(mismatches_model(out@) =~= Seq::<MismatchModel>::empty());
    if expected.params.len() != actual.params.len() {
        out.push(
            ContractMismatch::ParamCount {
                expected: expected.params.len(),
                actual: actual.params.len(),
            },
        );
    }
    let ghost start = mismatches_model(out@);
    assert(start =~= (if expected@.params.len() == actual@.params.len() {
        Seq::empty()
    } else {
        seq![
            MismatchModel::ParamCount {
                expected: expected@.params.len(),
                actual: actual@.params.len(),
            },
        ]
    }));
    let n = if expected.params.len() < actual.params.len() {
        expected.params.len()
    } else {
        actual.params.len()
    };
    for i in 0..n
        invariant
            n <= expected.params@.len(),
            n <= actual.params@.len(),
            mismatches_model(out@) =~= start + param_mismatches(
                expected@.params,
                actual@.params,
                i as nat,
            ),
    {
        let e = &expected.params[i];
        let a = &actual.params[i];
        assert(expected@.params[i as int] == e@ && actual@.params[i as int] == a@);
        if !e.type_def.is_compatible_with(&a.type_def) {
            let ghost before = mismatches_model(out@);
            let mismatch = ContractMismatch::Param {
                index: i,
                expected: e.clone(),
                actual: a.clone(),
            };
            let ghost model = mismatch@;
            out.push(mismatch);
            assert(mismatches_model(out@) =~= before.push(model));
        }
    }
    let ghost before = mismatches_model(out@);
    if !expected.return_type.is_compatible_with(&actual.return_type) {
        let mismatch = ContractMismatch::ReturnType {
            expected: expected.return_type.clone(),
            actual: actual.return_type.clone(),
        };
        let ghost model = mismatch@;
        out.push(mismatch);
        assert(mismatches_model(out@) =~= before.push(model));
    }
    assert(mismatches_model(out@) =~= contract_mismatches(expected@, actual@));
    out
}

// ---------------------------------------------------------------------------
// The functions that return sites call.
// ---------------------------------------------------------------------------

/// The functions of the registry that a value is made with.
pub open spec fn called_in_value(value: LiteralModel) -> Seq<Seq<char>>
    decreases value, 0nat,
{
    match value {
        LiteralModel::ResolvedCall { name, .. } => seq![name],
        LiteralModel::Object(fields) => called_in_fields(fields, fields.len()),
        LiteralModel::List(items) => called_in_items(items, items.len()),
        LiteralModel::Enum { inner: Some(inner), .. } => called_in_value(*inner),
        _ => Seq::empty(),
    }
}

pub open spec fn called_in_fields(fields: Seq<(Seq<char>, LiteralModel)>, n: nat) -> Seq<Seq<char>>
    decreases fields, n,
{
    if n == 0 || n > fields.len() {
        Seq::empty()
    } else {
        called_in_fields(fields, (n - 1) as nat) + called_in_value(fields[n - 1].1)
    }
}

pub open spec fn called_in_items(items: Seq<LiteralModel>, n: nat) -> Seq<Seq<char>>
    decreases items, n,
{
    if n == 0 || n > items.len() {
        Seq::empty()
    } else {
        called_in_items(items, (n - 1) as nat) + called_in_value(items[n - 1])
    }
}

/// The functions of the registry that a return site calls.
pub open spec fn called_at_site(site: SiteModel) -> Seq<Seq<char>> {
    match site {
        SiteModel::ResolvedCall { name, .. } => seq![name],
        SiteModel::ObjectLiteral(fields) => called_in_fields(fields, fields.len()),
        SiteModel::EnumLiteral { inner: Some(inner), .. } => called_in_value(*inner),
        SiteModel::PrimitiveLiteral(value) => called_in_value(value),
        _ => Seq::empty(),
    }
}

/// The functions of the registry that the first `n` return sites call.
pub open spec fn called_at_sites(sites: Seq<SiteModel>, n: nat) -> Seq<Seq<char>>
    decreases n,
{
    if n == 0 {
        Seq::empty()
    } else {
        called_at_sites(sites, (n - 1) as nat) + called_at_site(sites[n - 1])
    }
}

fn push_name(out: &mut Vec<String>, name: &String)
    ensures
        texts(final(out)@) == texts(old(out)@) + seq![name@],
{
    out.push(name.clone());
    assert(texts(out@) =~= texts(old(out)@) + seq![name@]);
}

/// Collects the functions of the registry that a return site calls.
pub fn collect_resolved_call_names(site: &ReturnSite, out: &mut Vec<String>)
    ensures
        texts(final(out)@) == texts(old(out)@) + called_at_site(site@),
{
    let ghost before = texts(out@);
    match site {
        ReturnSite::ResolvedCall { name, .. } => push_name(out, name),
        ReturnSite::ObjectLiteral(fields) => collect_from_fields(fields, out),
        ReturnSite::EnumLiteral { inner, .. } => {
            if let Some(inner) = inner {
                collect_resolved_call_names_literal(inner, out);
            }
        },
        ReturnSite::PrimitiveLiteral(value) => collect_resolved_call_names_literal(value, out),
        _ => {},
    }
    assert(texts(out@) =~= before + called_at_site(site@));
}

/// Collects the functions of the registry that a value is made with.
pub fn collect_resolved_call_names_literal(value: &LiteralValue, out: &mut Vec<String>)
    ensures
        texts(final(out)@) == texts(old(out)@) + called_in_value(value@),
    decreases value, 0nat,
{
    let ghost before = texts(out@);
    match value {
        LiteralValue::ResolvedCall { name, .. } => push_name(out, name),
        LiteralValue::Object(fields) => collect_from_fields(fields, out),
        LiteralValue::List(items) => collect_from_items(items, out),
        LiteralValue::Enum { inner, .. } => {
            if let Some(inner) = inner {
                collect_resolved_call_names_literal(inner, out);
            }
        },
        _ => {},
    }
    assert(texts(out@) =~= before + called_in_value(value@));
}

fn collect_from_fields(fields: &Vec<(String, LiteralValue)>, out: &mut Vec<String>)
    ensures
        texts(final(out)@) == texts(old(out)@) + called_in_fields(
            literal_fields_model(fields@),
            literal_fields_model(fields@).len(),
        ),
    decreases fields, 0nat,
{
    let ghost before = texts(out@);
    let ghost models = literal_fields_model(fields@);
    for i in 0..fields.len()
        invariant
            models == literal_fields_model(fields@),
            texts(out@) =~= before + called_in_fields(models, i as nat),
    {
        assert(models[i as int].1 == fields@[i as int].1@);
        collect_resolved_call_names_literal(&fields[i].1, out);
    }
}

fn collect_from_items(items: &Vec<LiteralValue>, out: &mut Vec<String>)
    ensures
        texts(final(out)@) == texts(old(out)@) + called_in_items(
            literals_model(items@),
            literals_model(items@).len(),
        ),
    decreases items, 0nat,
{
    let ghost before = texts(out@);
    let ghost models = literals_model(items@);
    for i in 0..items.len()
        invariant
            models == literals_model(items@),
            texts(out@) =~= before + called_in_items(models, i as nat),
    {
        assert(models[i as int] == items@[i as int]@);
        collect_resolved_call_names_literal(&items[i], out);
    }
}

// ---------------------------------------------------------------------------
// One function.
// ---------------------------------------------------------------------------

/// What the host provides.
pub struct HostModel {
    pub builtins: Seq<BuiltinModel>,
    pub methods: MethodTable,
}

/// What is found of one function: its report, the functions that its return
/// sites call, and the registry in which these are known.
#[verifier::ext_equal]
pub struct CheckedFn {
    pub report: ReportModel,
    pub called: Seq<Seq<char>>,
    pub registry: Map<Seq<char>, OriginModel>,
}

/// What is found of a function of the script with the given contract.
pub open spec fn checked_item(
    item: FnTree,
    contract: ContractModel,
    registry: Map<Seq<char>, OriginModel>,
    source: Seq<char>,
    name: Seq<char>,
    host: HostModel,
) -> CheckedFn {
    let sites = return_sites(item.body, source, registry);
    let static_result = checked(sites, contract.return_type);
    let method_violations = missing_methods(
        item,
        contract,
        Setting { source, registry, methods: host.methods },
    );
    CheckedFn {
        report: ReportModel {
            function_name: name,
            contract,
            static_result,
            method_violations,
            is_valid: static_result.violations.len() == 0 && method_violations.len() == 0,
        },
        called: called_at_sites(sites, sites.len()),
        registry,
    }
}

/// What is found of the function of the given name.
pub open spec fn checked_fn(
    script: ScriptTree,
    source: Seq<char>,
    name: Seq<char>,
    host: HostModel,
) -> Result<CheckedFn, ErrorModel> {
    match fn_named(script, source, name) {
        None => Err(ErrorModel::FunctionNotFound(name)),
        Some(item) => match doc_of(item, source) {
            None => Err(ErrorModel::NoDocComment),
            Some(doc) => match contract_of(doc) {
                Err(message) => Err(ErrorModel::InvalidContractSyntax(message)),
                Ok(contract) => match registry_of(script, source, name, host.builtins) {
                    Err(message) => Err(ErrorModel::InvalidContractSyntax(message)),
                    Ok(registry) => Ok(
                        checked_item(item, contract, registry, source, name, host),
                    ),
                },
            },
        },
    }
}

// ---------------------------------------------------------------------------
// The helpers that a function reaches.
// ---------------------------------------------------------------------------

/// The number of functions among the first `n` items that have not been
/// visited.
pub open spec fn unvisited(
    items: Seq<ItemTree>,
    n: nat,
    source: Seq<char>,
    visited: Set<Seq<char>>,
) -> nat
    decreases n,
{
    if n == 0 {
        0
    } else {
        unvisited(items, (n - 1) as nat, source, visited) + if items[n - 1] is Fn
            && !visited.contains(span_text(source, items[n - 1]->Fn_0.name)) {
            1nat
        } else {
            0
        }
    }
}

/// Whether a called function is a helper that is still to be verified.
pub open spec fn is_due(
    name: Seq<char>,
    registry: Map<Seq<char>, OriginModel>,
    helpers: Map<Seq<char>, ReportModel>,
    visited: Set<Seq<char>>,
) -> bool {
    !visited.contains(name) && !helpers.contains_key(name) && registry.contains_key(name)
        && registry[name] is Helper
}

/// The reports of the helpers, and the functions visited, after the called
/// functions from `from` on have been verified, each with the helpers that it
/// reaches itself. A function that has been visited is not visited again, so
/// that there are ever fewer to visit (see `lemma_reached_grows`).
pub open spec fn reached(
    called: Seq<Seq<char>>,
    from: nat,
    registry: Map<Seq<char>, OriginModel>,
    helpers: Map<Seq<char>, ReportModel>,
    visited: Set<Seq<char>>,
    script: ScriptTree,
    source: Seq<char>,
    host: HostModel,
) -> Result<(Map<Seq<char>, ReportModel>, Set<Seq<char>>), ErrorModel>
    decreases
            unvisited(script.items, script.items.len(), source, visited),
            called.len() - from,
{
    if from >= called.len() {
        Ok((helpers, visited))
    } else if !is_due(called[from as int], registry, helpers, visited) {
        reached(called, from + 1, registry, helpers, visited, script, source, host)
    } else {
        let name = called[from as int];
        match checked_fn(script, source, name, host) {
            Err(e) => Err(e),
            Ok(helper) => {
                proof {
                    lemma_visit(script, source, name, visited);
                }
                match reached(
                    helper.called,
                    0,
                    helper.registry,
                    helpers,
                    visited.insert(name),
                    script,
                    source,
                    host,
                ) {
                    Err(e) => Err(e),
                    Ok((more, seen)) => if unvisited(
                        script.items,
                        script.items.len(),
                        source,
                        seen,
                    ) <= unvisited(script.items, script.items.len(), source, visited) {
                        reached(
                            called,
                            from + 1,
                            registry,
                            more.insert(name, helper.report),
                            seen,
                            script,
                            source,
                            host,
                        )
                    } else {
                        Err(ErrorModel::FunctionNotFound(name))
                    },
                }
            },
        }
    }
}

/// Of more functions visited there are fewer that have not been.
pub proof fn lemma_unvisited_shrinks(
    items: Seq<ItemTree>,
    n: nat,
    source: Seq<char>,
    visited: Set<Seq<char>>,
    seen: Set<Seq<char>>,
)
    requires
        visited.subset_of(seen),
    ensures
        unvisited(items, n, source, seen) <= unvisited(items, n, source, visited),
    decreases n,
{
    if n > 0 {
        lemma_unvisited_shrinks(items, (n - 1) as nat, source, visited, seen);
    }
}

/// To visit a function of the script leaves fewer to visit.
pub proof fn lemma_visit(
    script: ScriptTree,
    source: Seq<char>,
    name: Seq<char>,
    visited: Set<Seq<char>>,
)
    requires
        fn_named(script, source, name) is Some,
        !visited.contains(name),
    ensures
        unvisited(script.items, script.items.len(), source, visited.insert(name)) < unvisited(
            script.items,
            script.items.len(),
            source,
            visited,
        ),
{
    let at = lemma_fn_position(script.items, 0, source, name);
    lemma_visit_at(script.items, script.items.len(), at, source, name, visited);
}

/// A function that is found stands at some position.
proof fn lemma_fn_position(
    items: Seq<ItemTree>,
    from: nat,
    source: Seq<char>,
    name: Seq<char>,
) -> (at: int)
    requires
        fn_from(items, from, source, name) is Some,
    ensures
        from <= at < items.len(),
        is_fn_named(items[at], source, name),
    decreases items.len() - from,
{
    if is_fn_named(items[from as int], source, name) {
        from as int
    } else {
        lemma_fn_position(items, from + 1, source, name)
    }
}

proof fn lemma_visit_at(
    items: Seq<ItemTree>,
    n: nat,
    at: int,
    source: Seq<char>,
    name: Seq<char>,
    visited: Set<Seq<char>>,
)
    requires
        0 <= at < n <= items.len(),
        is_fn_named(items[at], source, name),
        !visited.contains(name),
    ensures
        unvisited(items, n, source, visited.insert(name)) < unvisited(items, n, source, visited),
    decreases n,
{
    if at < n - 1 {
        lemma_visit_at(items, (n - 1) as nat, at, source, name, visited);
    } else {
        lemma_unvisited_shrinks(
            items,
            (n - 1) as nat,
            source,
            visited,
            visited.insert(name),
        );
    }
}

/// What has been visited stays visited.
pub proof fn lemma_reached_grows(
    called: Seq<Seq<char>>,
    from: nat,
    registry: Map<Seq<char>, OriginModel>,
    helpers: Map<Seq<char>, ReportModel>,
    visited: Set<Seq<char>>,
    script: ScriptTree,
    source: Seq<char>,
    host: HostModel,
)
    ensures
        reached(called, from, registry, helpers, visited, script, source, host) matches Ok(
            (_, seen),
        ) ==> visited.subset_of(seen),
    decreases
            unvisited(script.items, script.items.len(), source, visited),
            called.len() - from,
{
    if from < called.len() {
        let name = called[from as int];
        if !is_due(name, registry, helpers, visited) {
            lemma_reached_grows(
                called,
                from + 1,
                registry,
                helpers,
                visited,
                script,
                source,
                host,
            );
        } else if let Ok(helper) = checked_fn(script, source, name, host) {
            lemma_visit(script, source, name, visited);
            lemma_reached_grows(
                helper.called,
                0,
                helper.registry,
                helpers,
                visited.insert(name),
                script,
                source,
                host,
            );
            if let Ok((more, seen)) = reached(
                helper.called,
                0,
                helper.registry,
                helpers,
                visited.insert(name),
                script,
                source,
                host,
            ) {
                lemma_unvisited_shrinks(
                    script.items,
                    script.items.len(),
                    source,
                    visited,
                    seen,
                );
                lemma_reached_grows(
                    called,
                    from + 1,
                    registry,
                    more.insert(name, helper.report),
                    seen,
                    script,
                    source,
                    host,
                );
            }
        }
    }
}

/// What the host provides, as a mathematical value.
pub open spec fn host_model(env: Environment) -> HostModel {
    HostModel { builtins: builtins_model(env.builtins@), methods: env.methods@ }
}

/// Validates one function, and the helpers that it reaches.
fn validate_function(
    file: &Script,
    source: &str,
    function_name: &str,
    env: &Environment,
    helpers: &mut NameMap<ValidationReport>,
    visited: &mut NameMap<bool>,
) -> (r: Result<ValidationReport, CheckerError>)
    requires
        script_fits(file@, source@),
        !old(visited)@.contains_key(function_name@),
    ensures
        match checked_fn(file@, source@, function_name@, host_model(*env)) {
            Err(error) => r matches Err(e) && e@ == error,
            Ok(found) => match reached(
                found.called,
                0,
                found.registry,
                reports_model(old(helpers)@),
                old(visited)@.dom().insert(function_name@),
                file@,
                source@,
                host_model(*env),
            ) {
                Err(error) => r matches Err(e) && e@ == error,
                Ok((more, seen)) => {
                    &&& r matches Ok(report)
                    &&& report@ == found.report
                    &&& reports_model(final(helpers)@) == more
                    &&& final(visited)@.dom() == seen
                },
            },
        },
    decreases unvisited(file@.items, file@.items.len(), source@, old(visited)@.dom()),
{
    let ghost host = host_model(*env);
    let item_fn = match find_function(file, source, function_name) {
        Some(item_fn) => item_fn,
        None => {
            return Err(CheckerError::FunctionNotFound(function_name.to_owned()));
        },
    };
    let doc = match doc_comment_before(source, item_fn) {
        Some(doc) => doc,
        None => {
            return Err(CheckerError::NoDocComment);
        },
    };
    let contract = match parse(doc.as_str()) {
        Ok(contract) => contract,
        Err(e) => {
            return Err(e);
        },
    };
    let registry = match build(file, source, function_name, env.builtins.as_slice()) {
        Ok(registry) => registry,
        Err(e) => {
            return Err(e);
        },
    };
    let sites = find_return_sites(item_fn, source, &registry);
    let static_result = crate::static_checker::check(sites.as_slice(), &contract);
    let method_violations = crate::method_checker::check(
        item_fn,
        source,
        &contract,
        &registry,
        &env.methods,
    );
    let is_valid = static_result.violations.len() == 0 && method_violations.len() == 0;
    let report = ValidationReport {
        function_name: function_name.to_owned(),
        contract,
        static_result,
        method_violations,
        is_valid,
    };
    let mut names: Vec<String> = Vec::new();
    let ghost site_models = sites_model(sites@);
    for i in 0..sites.len()
        invariant
            site_models == sites_model(sites@),
            texts(names@) =~= called_at_sites(site_models, i as nat),
    {
        assert(site_models[i as int] == sites@[i as int]@);
        collect_resolved_call_names(&sites[i], &mut names);
    }
    let ghost called = texts(names@);
    let ghost found = checked_fn(file@, source@, function_name@, host)->Ok_0;
    assert(report@ == found.report);
    assert(called == found.called);
    let ghost first_visited = visited@.dom().insert(function_name@);
    let ghost first_helpers = reports_model(helpers@);
    proof {
        lemma_visit(file@, source@, function_name@, visited@.dom());
    }
    let ghost bound = unvisited(file@.items, file@.items.len(), source@, old(visited)@.dom());
    visited.insert(function_name.to_owned(), true);
    assert(visited@.dom() =~= first_visited);
    for i in 0..names.len()
        invariant
            script_fits(file@, source@),
            host == host_model(*env),
            called == texts(names@),
            bound == unvisited(
                file@.items,
                file@.items.len(),
                source@,
                old(visited)@.dom(),
            ),
            unvisited(file@.items, file@.items.len(), source@, visited@.dom()) < bound,
            checked_fn(file@, source@, function_name@, host) == Ok::<CheckedFn, ErrorModel>(
                found,
            ),
            called == found.called,
            found.registry == registry@,
            first_helpers == reports_model(old(helpers)@),
            first_visited == old(visited)@.dom().insert(function_name@),
            reached(
                called,
                0,
                registry@,
                first_helpers,
                first_visited,
                file@,
                source@,
                host,
            ) == reached(
                called,
                i as nat,
                registry@,
                reports_model(helpers@),
                visited@.dom(),
                file@,
                source@,
                host,
            ),
    {
        let name = names[i].as_str();
        assert(called[i as int] == name@);
        let known = visited.contains_key(name) || helpers.contains_key(name);
        let is_helper = match registry.signatures.get(name) {
            Some(origin) => origin.is_helper(),
            None => false,
        };
        // A builtin has no body and cannot be verified.
        if !known && is_helper {
            let ghost before = visited@.dom();
            let ghost helpers_before = reports_model(helpers@);
            proof {
                if checked_fn(file@, source@, name@, host) is Ok {
                    let helper = checked_fn(file@, source@, name@, host)->Ok_0;
                    lemma_reached_grows(
                        helper.called,
                        0,
                        helper.registry,
                        helpers_before,
                        before.insert(name@),
                        file@,
                        source@,
                        host,
                    );
                }
            }
            match validate_function(file, source, name, env, helpers, visited) {
                Ok(helper_report) => {
                    let ghost more = reports_model(helpers@);
                    let ghost model = helper_report@;
                    proof {
                        lemma_unvisited_shrinks(
                            file@.items,
                            file@.items.len(),
                            source@,
                            before,
                            visited@.dom(),
                        );
                    }
                    helpers.insert(name.to_owned(), helper_report);
                    assert(reports_model(helpers@) =~= more.insert(name@, model));
                },
                Err(e) => {
                    return Err(e);
                },
            }
        }
    }
    Ok(report)
}

/// Whether all reports are valid.
pub open spec fn all_valid(reports: Map<Seq<char>, ReportModel>) -> bool {
    forall|name: Seq<char>| #[trigger] reports.contains_key(name) ==> reports[name].is_valid
}

fn reports_valid(reports: &NameMap<ValidationReport>) -> (r: bool)
    ensures
        r == all_valid(reports_model(reports@)),
{
    let n = reports.len();
    let ghost models = reports_model(reports@);
    for i in 0..n
        invariant
            n == reports.order().len(),
            models == reports_model(reports@),
            forall|name: Seq<char>| #[trigger]
                reports@.contains_key(name) <==> reports.order().contains(name),
            forall|j: int|
                0 <= j < i ==> models[#[trigger] reports.order()[j]].is_valid,
    {
        let (name, report) = reports.entry(i);
        assert(models.contains_key(name@));
        if !report.is_valid {
            assert(!models[name@].is_valid);
            return false;
        }
    }
    proof {
        assert forall|name: Seq<char>| #[trigger]
            models.contains_key(name) implies models[name].is_valid by {
            assert(reports@.contains_key(name));
            let j = choose|j: int| 0 <= j < reports.order().len() && reports.order()[j] == name;
            assert(models[reports.order()[j]].is_valid);
        }
    }
    true
}

// ---------------------------------------------------------------------------
// The whole script.
// ---------------------------------------------------------------------------

/// The validation of a parsed script.
pub open spec fn script_report(
    script: ScriptTree,
    source: Seq<char>,
    name: Seq<char>,
    expected: Option<ContractModel>,
    host: HostModel,
) -> Result<ScriptReportModel, ErrorModel> {
    match checked_fn(script, source, name, host) {
        Err(e) => Err(e),
        Ok(found) => match reached(
            found.called,
            0,
            found.registry,
            Map::empty(),
            set![name],
            script,
            source,
            host,
        ) {
            Err(e) => Err(e),
            Ok((helpers, _)) => {
                let mismatches = match expected {
                    Some(expected) => contract_mismatches(expected, found.report.contract),
                    None => Seq::empty(),
                };
                Ok(
                    ScriptReportModel {
                        main: found.report,
                        helpers,
                        contract_mismatches: mismatches,
                        is_valid: found.report.is_valid && all_valid(helpers) && mismatches.len()
                            == 0,
                    },
                )
            },
        },
    }
}

/// The validation of a source.
pub open spec fn source_report(
    source: Seq<char>,
    name: Seq<char>,
    expected: Option<ContractModel>,
    host: HostModel,
) -> Result<ScriptReportModel, ErrorModel> {
    match parsed(source) {
        Err(message) => Err(ErrorModel::RuneParseError(message)),
        Ok(script) => script_report(script, source, name, expected, host),
    }
}

/// Whether a result is the report that the specification gives, or the same
/// error.
pub open spec fn is_script_result(
    r: Result<ScriptValidationReport, CheckerError>,
    wanted: Result<ScriptReportModel, ErrorModel>,
) -> bool {
    match (r, wanted) {
        (Ok(report), Ok(model)) => report@ == model,
        (Err(e), Err(error)) => e@ == error,
        _ => false,
    }
}

/// An optional contract as a mathematical value.
pub open spec fn expected_model(expected: Option<&Contract>) -> Option<ContractModel> {
    match expected {
        Some(contract) => Some(contract@),
        None => None,
    }
}

/// Validates a script that has been parsed from the source.
pub fn validate_parsed(
    file: &Script,
    source: &str,
    function_name: &str,
    expected: Option<&Contract>,
    env: &Environment,
) -> (r: Result<ScriptValidationReport, CheckerError>)
    requires
        script_fits(file@, source@),
    ensures
        is_script_result(
            r,
            script_report(
                file@,
                source@,
                function_name@,
                expected_model(expected),
                host_model(*env),
            ),
        ),
{
    let mut helpers: NameMap<ValidationReport> = NameMap::new();
    let mut visited: NameMap<bool> = NameMap::new();
    proof {
        assert(reports_model(helpers@) =~= Map::<Seq<char>, ReportModel>::empty());
        assert(visited@.dom().insert(function_name@) =~= set![function_name@]);
    }
    let main = match validate_function(
        file,
        source,
        function_name,
        env,
        &mut helpers,
        &mut visited,
    ) {
        Ok(main) => main,
        Err(e) => {
            return Err(e);
        },
    };
    let contract_mismatches = match expected {
        Some(expected) => compare_contracts(expected, &main.contract),
        None => {
            let none: Vec<ContractMismatch> = Vec::new();
            assert(mismatches_model(none@) =~= Seq::<MismatchModel>::empty());
            none
        },
    };
    let is_valid = main.is_valid && reports_valid(&helpers) && contract_mismatches.len() == 0;
    Ok(ScriptValidationReport { main, helpers, contract_mismatches, is_valid })
}

/// Validates a script before it is saved.
///
/// The contracted function, and each helper that it reaches, has to honor the
/// contract of its doc-comment and may call no method that the host describes
/// as missing. Where a signature is expected, the declared contract is
/// compared with it, which also finds a contract whose parameters a typo
/// (`@paran`) has hidden.
///
/// Without an expected signature there is nothing to compare, and with the
/// default environment there are no builtins, and methods are not checked.
///
/// The source is at most `u32::MAX` bytes long: the parser counts no further.
pub fn validate_script(
    source: &str,
    function_name: &str,
    expected: Option<&Contract>,
    env: &Environment,
) -> (r: Result<ScriptValidationReport, CheckerError>)
    requires
        encode_utf8(source@).len() <= u32::MAX,
    ensures
        is_script_result(
            r,
            source_report(source@, function_name@, expected_model(expected), host_model(*env)),
        ),
{
    match parse_file(source) {
        Ok(file) => validate_parsed(&file, source, function_name, expected, env),
        Err(e) => Err(e),
    }
}

} // verus!
