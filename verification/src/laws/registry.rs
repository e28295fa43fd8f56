//! The registry of the functions that a script can call.

use vstd::prelude::*;

use crate::ast_analyzer::doc_of;
use crate::doc_comment::contract_of;
use crate::signature_registry::{
    defines_helper, helpers_of, is_helper_fn, registry_of, with_builtins,
};
use crate::source_text::span_text;
use crate::syntax::{ItemTree, ScriptTree};
use crate::types::{BuiltinModel, OriginModel};

verus! {

/// Whether an item is a helper of the given name: a function with a
/// doc-comment, other than the target function.
pub open spec fn is_helper_named(
    item: ItemTree,
    source: Seq<char>,
    target: Seq<char>,
    name: Seq<char>,
) -> bool {
    &&& name != target
    &&& item matches ItemTree::Fn(f) && span_text(source, f.name) == name && doc_of(
        f,
        source,
    ) is Some
}

/// Whether the script has a helper of the given name.
pub open spec fn has_helper(
    script: ScriptTree,
    source: Seq<char>,
    target: Seq<char>,
    name: Seq<char>,
) -> bool {
    exists|i: int|
        0 <= i < script.items.len() && is_helper_named(
            #[trigger] script.items[i],
            source,
            target,
            name,
        )
}

/// Whether the host supplies a builtin of the given name.
pub open spec fn has_builtin(builtins: Seq<BuiltinModel>, name: Seq<char>) -> bool {
    exists|i: int| 0 <= i < builtins.len() && (#[trigger] builtins[i]).name == name
}

proof fn lemma_helpers(
    items: Seq<ItemTree>,
    n: nat,
    source: Seq<char>,
    target: Seq<char>,
    name: Seq<char>,
)
    requires
        n <= items.len(),
        helpers_of(items, n, source, target) is Ok,
    ensures
        ({
            let found = helpers_of(items, n, source, target)->Ok_0;
            &&& found.contains_key(name) <==> exists|i: int|
                0 <= i < n && is_helper_named(#[trigger] items[i], source, target, name)
            &&& found.contains_key(name) ==> found[name] is Helper
        }),
    decreases n,
{
    if n > 0 {
        lemma_helpers(items, (n - 1) as nat, source, target, name);
        let before = helpers_of(items, (n - 1) as nat, source, target)->Ok_0;
        let found = helpers_of(items, n, source, target)->Ok_0;
        if is_helper_named(items[n - 1], source, target, name) {
            assert(found.contains_key(name));
        } else {
            assert(found.contains_key(name) == before.contains_key(name));
        }
    }
}

proof fn lemma_builtins(
    found: Map<Seq<char>, OriginModel>,
    builtins: Seq<BuiltinModel>,
    n: nat,
    items: Seq<ItemTree>,
    source: Seq<char>,
    target: Seq<char>,
    name: Seq<char>,
)
    requires
        n <= builtins.len(),
    ensures
        ({
            let all = with_builtins(found, builtins, n, items, source, target);
            &&& found.contains_key(name) ==> all.contains_key(name) && all[name] == found[name]
            &&& !found.contains_key(name) ==> {
                &&& all.contains_key(name) <==> !defines_helper(items, source, target, name)
                    && exists|i: int| 0 <= i < n && (#[trigger] builtins[i]).name == name
                &&& all.contains_key(name) ==> all[name] is Builtin
            }
        }),
    decreases n,
{
    if n > 0 {
        lemma_builtins(found, builtins, (n - 1) as nat, items, source, target, name);
        assert(builtins[n - 1].name == builtins[n - 1].name);
    }
}

/// The registry holds the documented helpers of the script, and the builtins
/// whose name no helper function of the script has, documented or not. So a
/// function without a doc-comment is not in it, and where a function of the
/// script and a builtin have one name, the script wins.
pub proof fn registry_holds_helpers_and_builtins(
    script: ScriptTree,
    source: Seq<char>,
    target: Seq<char>,
    builtins: Seq<BuiltinModel>,
    name: Seq<char>,
)
    ensures
        registry_of(script, source, target, builtins) matches Ok(registry) ==> {
            &&& registry.contains_key(name) <==> has_helper(script, source, target, name) || (
            has_builtin(builtins, name) && !defines_helper(script.items, source, target, name))
            &&& has_helper(script, source, target, name) ==> registry[name] is Helper
            &&& registry.contains_key(name) && !has_helper(script, source, target, name)
                ==> registry[name] is Builtin
        },
{
    if let Ok(found) = helpers_of(script.items, script.items.len(), source, target) {
        lemma_helpers(script.items, script.items.len(), source, target, name);
        lemma_builtins(
            found,
            builtins,
            builtins.len(),
            script.items,
            source,
            target,
            name,
        );
    }
}

/// A helper function without a doc-comment is not in the registry, whatever
/// the builtins are: calls of it stay dynamic.
pub proof fn undocumented_helpers_are_not_registered(
    script: ScriptTree,
    source: Seq<char>,
    target: Seq<char>,
    builtins: Seq<BuiltinModel>,
    name: Seq<char>,
)
    requires
        defines_helper(script.items, source, target, name),
        !has_helper(script, source, target, name),
    ensures
        registry_of(script, source, target, builtins) matches Ok(registry)
            ==> !registry.contains_key(name),
{
    registry_holds_helpers_and_builtins(script, source, target, builtins, name);
}

/// The target function is no helper.
pub proof fn target_is_no_helper(
    script: ScriptTree,
    source: Seq<char>,
    target: Seq<char>,
    builtins: Seq<BuiltinModel>,
)
    ensures
        registry_of(script, source, target, builtins) matches Ok(registry)
            ==> registry.contains_key(target) ==> registry[target] is Builtin,
{
    registry_holds_helpers_and_builtins(script, source, target, builtins, target);
}

proof fn lemma_first_builtin(
    found: Map<Seq<char>, OriginModel>,
    builtins: Seq<BuiltinModel>,
    n: nat,
    items: Seq<ItemTree>,
    source: Seq<char>,
    target: Seq<char>,
    at: int,
)
    requires
        0 <= at < n <= builtins.len(),
        !found.contains_key(builtins[at].name),
        !defines_helper(items, source, target, builtins[at].name),
        forall|i: int| 0 <= i < at ==> (#[trigger] builtins[i]).name != builtins[at].name,
    ensures
        ({
            let all = with_builtins(found, builtins, n, items, source, target);
            &&& all.contains_key(builtins[at].name)
            &&& all[builtins[at].name] == OriginModel::Builtin(builtins[at].return_type)
        }),
    decreases n,
{
    if at < n - 1 {
        lemma_first_builtin(found, builtins, (n - 1) as nat, items, source, target, at);
    } else {
        lemma_builtins(
            found,
            builtins,
            (n - 1) as nat,
            items,
            source,
            target,
            builtins[at].name,
        );
    }
}

/// The signature of a builtin is accepted as it is supplied: that of the
/// first builtin of its name, where the script has no helper function of that
/// name.
pub proof fn builtin_signatures_are_accepted(
    script: ScriptTree,
    source: Seq<char>,
    target: Seq<char>,
    builtins: Seq<BuiltinModel>,
    at: int,
)
    requires
        0 <= at < builtins.len(),
        forall|i: int| 0 <= i < at ==> (#[trigger] builtins[i]).name != builtins[at].name,
        !defines_helper(script.items, source, target, builtins[at].name),
    ensures
        registry_of(script, source, target, builtins) matches Ok(registry)
            ==> registry.contains_key(builtins[at].name) && registry[builtins[at].name]
            == OriginModel::Builtin(builtins[at].return_type),
{
    if let Ok(found) = helpers_of(script.items, script.items.len(), source, target) {
        let name = builtins[at].name;
        lemma_helpers(script.items, script.items.len(), source, target, name);
        assert forall|i: int| 0 <= i < script.items.len() implies !is_helper_named(
            #[trigger] script.items[i],
            source,
            target,
            name,
        ) by {
            assert(!is_helper_fn(script.items[i], source, target, name));
        }
        lemma_first_builtin(
            found,
            builtins,
            builtins.len(),
            script.items,
            source,
            target,
            at,
        );
    }
}

proof fn lemma_invalid_helper(
    items: Seq<ItemTree>,
    n: nat,
    source: Seq<char>,
    target: Seq<char>,
    at: int,
)
    requires
        0 <= at < n <= items.len(),
        items[at] is Fn,
        span_text(source, items[at]->Fn_0.name) != target,
        doc_of(items[at]->Fn_0, source) matches Some(doc) && contract_of(doc) is Err,
    ensures
        helpers_of(items, n, source, target) is Err,
    decreases n,
{
    if at < n - 1 {
        lemma_invalid_helper(items, (n - 1) as nat, source, target, at);
    }
}

/// A function with a doc-comment whose contract is not valid, other than the
/// target function, leaves the script without a registry.
pub proof fn invalid_helpers_leave_no_registry(
    script: ScriptTree,
    source: Seq<char>,
    target: Seq<char>,
    builtins: Seq<BuiltinModel>,
    at: int,
)
    requires
        0 <= at < script.items.len(),
        script.items[at] is Fn,
        span_text(source, script.items[at]->Fn_0.name) != target,
        doc_of(script.items[at]->Fn_0, source) matches Some(doc) && contract_of(doc) is Err,
    ensures
        registry_of(script, source, target, builtins) is Err,
{
    lemma_invalid_helper(script.items, script.items.len(), source, target, at);
}

proof fn lemma_last_helper(
    items: Seq<ItemTree>,
    n: nat,
    source: Seq<char>,
    target: Seq<char>,
    name: Seq<char>,
    at: int,
)
    requires
        0 <= at < n <= items.len(),
        is_helper_named(items[at], source, target, name),
        forall|i: int|
            at < i < items.len() ==> !is_helper_named(#[trigger] items[i], source, target, name),
    ensures
        helpers_of(items, n, source, target) matches Ok(found) ==> (contract_of(
            doc_of(items[at]->Fn_0, source)->Some_0,
        ) matches Ok(contract) && found.contains_key(name) && found[name] == OriginModel::Helper(
            contract.return_type,
        )),
    decreases n,
{
    if at < n - 1 {
        lemma_last_helper(items, (n - 1) as nat, source, target, name, at);
        assert(!is_helper_named(items[n - 1], source, target, name));
    }
}

/// A helper is registered with the return type that its doc-comment declares:
/// that of the last documented function of its name.
pub proof fn helpers_have_their_declared_type(
    script: ScriptTree,
    source: Seq<char>,
    target: Seq<char>,
    builtins: Seq<BuiltinModel>,
    name: Seq<char>,
    at: int,
)
    requires
        0 <= at < script.items.len(),
        is_helper_named(script.items[at], source, target, name),
        forall|i: int|
            at < i < script.items.len() ==> !is_helper_named(
                #[trigger] script.items[i],
                source,
                target,
                name,
            ),
    ensures
        registry_of(script, source, target, builtins) matches Ok(registry) ==> (contract_of(
            doc_of(script.items[at]->Fn_0, source)->Some_0,
        ) matches Ok(contract) && registry.contains_key(name) && registry[name]
            == OriginModel::Helper(contract.return_type)),
{
    if let Ok(found) = helpers_of(script.items, script.items.len(), source, target) {
        lemma_last_helper(script.items, script.items.len(), source, target, name, at);
        lemma_builtins(
            found,
            builtins,
            builtins.len(),
            script.items,
            source,
            target,
            name,
        );
    }
}

/// A helper function of the script is a function of that name, documented or
/// not, other than the target function.
pub proof fn helper_functions_are_functions_of_the_script(
    items: Seq<ItemTree>,
    source: Seq<char>,
    target: Seq<char>,
    name: Seq<char>,
)
    ensures
        defines_helper(items, source, target, name) <==> name != target && exists|i: int|
            0 <= i < items.len() && (#[trigger] items[i]) is Fn && span_text(
                source,
                items[i]->Fn_0.name,
            ) == name,
{
    if defines_helper(items, source, target, name) {
        let i = choose|i: int|
            0 <= i < items.len() && is_helper_fn(#[trigger] items[i], source, target, name);
        assert(items[i] is Fn);
    }
    if name != target && exists|i: int|
        0 <= i < items.len() && (#[trigger] items[i]) is Fn && span_text(
            source,
            items[i]->Fn_0.name,
        ) == name {
        let i = choose|i: int|
            0 <= i < items.len() && (#[trigger] items[i]) is Fn && span_text(
                source,
                items[i]->Fn_0.name,
            ) == name;
        assert(is_helper_fn(items[i], source, target, name));
    }
}

} // verus!
