//! The return types of the functions that a script can call.

use vstd::prelude::*;

use crate::ast_analyzer::{doc_comment_before, doc_of, is_fn_named};
use crate::doc_comment::{contract_of, is_syntax_error, parse};
use crate::report::CheckerError;
use crate::source_text::{slice, span_text};
use crate::syntax::{item_fits, script_fits, ItemNode, ItemTree, Script, ScriptTree};
use crate::text::same_text;
use crate::types::{
    builtins_model, BuiltinModel, BuiltinSignature, OriginModel, SignatureOrigin, SignatureRegistry,
};

verus! {

/// The functions among the first `n` items that have a doc-comment, by name,
/// but for the target function. Of two functions of one name the later one
/// counts.
pub open spec fn helpers_of(
    items: Seq<ItemTree>,
    n: nat,
    source: Seq<char>,
    target: Seq<char>,
) -> Result<Map<Seq<char>, OriginModel>, Seq<char>>
    decreases n,
{
    if n == 0 {
        Ok(Map::empty())
    } else {
        match helpers_of(items, (n - 1) as nat, source, target) {
            Ok(found) => match items[n - 1] {
                ItemTree::Fn(item) => {
                    let name = span_text(source, item.name);
                    match doc_of(item, source) {
                        Some(doc) => if name == target {
                            Ok(found)
                        } else {
                            match contract_of(doc) {
                                Ok(contract) => Ok(
                                    found.insert(name, OriginModel::Helper(contract.return_type)),
                                ),
                                Err(message) => Err(message),
                            }
                        },
                        None => Ok(found),
                    }
                },
                ItemTree::Other => Ok(found),
            },
            Err(message) => Err(message),
        }
    }
}

/// Whether an item is a helper function of the given name, documented or not:
/// a function other than the target function.
pub open spec fn is_helper_fn(
    item: ItemTree,
    source: Seq<char>,
    target: Seq<char>,
    name: Seq<char>,
) -> bool {
    name != target && is_fn_named(item, source, name)
}

/// Whether the script defines a helper function of the given name.
pub open spec fn defines_helper(
    items: Seq<ItemTree>,
    source: Seq<char>,
    target: Seq<char>,
    name: Seq<char>,
) -> bool {
    exists|i: int| 0 <= i < items.len() && is_helper_fn(#[trigger] items[i], source, target, name)
}

/// A registry with the first `n` builtins added. A builtin that is there
/// already stays, and where the script defines a helper of the name, the
/// definition of the script wins.
pub open spec fn with_builtins(
    found: Map<Seq<char>, OriginModel>,
    builtins: Seq<BuiltinModel>,
    n: nat,
    items: Seq<ItemTree>,
    source: Seq<char>,
    target: Seq<char>,
) -> Map<Seq<char>, OriginModel>
    decreases n,
{
    if n == 0 {
        found
    } else {
        let before = with_builtins(found, builtins, (n - 1) as nat, items, source, target);
        let builtin = builtins[n - 1];
        if before.contains_key(builtin.name) || defines_helper(
            items,
            source,
            target,
            builtin.name,
        ) {
            before
        } else {
            before.insert(builtin.name, OriginModel::Builtin(builtin.return_type))
        }
    }
}

/// The registry of a script for a target function: its other functions that
/// have a doc-comment, and the builtins whose name no helper function of the
/// script has.
pub open spec fn registry_of(
    script: ScriptTree,
    source: Seq<char>,
    target: Seq<char>,
    builtins: Seq<BuiltinModel>,
) -> Result<Map<Seq<char>, OriginModel>, Seq<char>> {
    match helpers_of(script.items, script.items.len(), source, target) {
        Ok(found) => Ok(
            with_builtins(found, builtins, builtins.len(), script.items, source, target),
        ),
        Err(message) => Err(message),
    }
}

/// Puts a function into the registry.
fn register(registry: &mut SignatureRegistry, name: String, origin: SignatureOrigin)
    ensures
        final(registry)@ == old(registry)@.insert(name@, origin@),
{
    let ghost before = registry@;
    let ghost key = name@;
    let ghost model = origin@;
    registry.signatures.insert(name, origin);
    assert(registry@ =~= before.insert(key, model));
}

/// Whether the script defines a helper function of the given name.
fn has_helper_fn(file: &Script, source: &str, target: &str, name: &str) -> (r: bool)
    requires
        script_fits(file@, source@),
    ensures
        r == defines_helper(file@.items, source@, target@, name@),
{
    if same_text(name, target) {
        return false;
    }
    for i in 0..file.items.len()
        invariant
            name@ != target@,
            script_fits(file@, source@),
            forall|k: int|
                0 <= k < i ==> !is_helper_fn(
                    #[trigger] file@.items[k],
                    source@,
                    target@,
                    name@,
                ),
    {
        assert(file@.items[i as int] == file.items@[i as int]@);
        assert(item_fits(file@.items[i as int], source@));
        if let ItemNode::Fn(item_fn) = &file.items[i] {
            if same_text(slice(source, item_fn.name), name) {
                assert(is_helper_fn(file@.items[i as int], source@, target@, name@));
                return true;
            }
        }
    }
    false
}

/// Builds the registry from the helper functions of the script (all but the
/// target function, which is the contracted one) and from the builtins. On a
/// name collision the helper of the script wins, also where it has no
/// doc-comment and is not in the registry itself.
pub fn build(
    file: &Script,
    source: &str,
    target_function_name: &str,
    builtins: &[BuiltinSignature],
) -> (r: Result<SignatureRegistry, CheckerError>)
    requires
        script_fits(file@, source@),
    ensures
        match (
            r,
            registry_of(file@, source@, target_function_name@, builtins_model(builtins@)),
        ) {
            (Ok(registry), Ok(model)) => registry@ == model,
            (Err(e), Err(message)) => is_syntax_error(e, message),
            _ => false,
        },
{
    let mut registry = SignatureRegistry::default();
    let ghost items = file@.items;
    let ghost target = target_function_name@;
    for i in 0..file.items.len()
        invariant
            items == file@.items,
            target == target_function_name@,
            script_fits(file@, source@),
            helpers_of(items, i as nat, source@, target) == Ok::<
                Map<Seq<char>, OriginModel>,
                Seq<char>,
            >(registry@),
    {
        assert(items[i as int] == file.items@[i as int]@);
        assert(item_fits(items[i as int], source@));
        if let ItemNode::Fn(item_fn) = &file.items[i] {
            let name = slice(source, item_fn.name);
            if !same_text(name, target_function_name) {
                if let Some(doc) = doc_comment_before(source, item_fn) {
                    match parse(doc.as_str()) {
                        Ok(contract) => register(
                            &mut registry,
                            name.to_owned(),
                            SignatureOrigin::Helper(contract.return_type),
                        ),
                        Err(e) => {
                            proof {
                                lemma_helpers_error_stays(
                                    items,
                                    (i + 1) as nat,
                                    items.len(),
                                    source@,
                                    target,
                                );
                            }
                            return Err(e);
                        },
                    }
                }
            }
        }
    }
    let ghost helpers = registry@;
    let ghost models = builtins_model(builtins@);
    for i in 0..builtins.len()
        invariant
            models == builtins_model(builtins@),
            items == file@.items,
            target == target_function_name@,
            script_fits(file@, source@),
            registry@ == with_builtins(helpers, models, i as nat, items, source@, target),
    {
        assert(models[i as int] == builtins@[i as int]@);
        let name = builtins[i].name.as_str();
        if !registry.signatures.contains_key(name) && !has_helper_fn(
            file,
            source,
            target_function_name,
            name,
        ) {
            register(
                &mut registry,
                builtins[i].name.clone(),
                SignatureOrigin::Builtin(builtins[i].return_type.clone()),
            );
        }
    }
    Ok(registry)
}

/// An error at an item is the error of the whole.
proof fn lemma_helpers_error_stays(
    items: Seq<ItemTree>,
    n: nat,
    m: nat,
    source: Seq<char>,
    target: Seq<char>,
)
    requires
        helpers_of(items, n, source, target) is Err,
        n <= m,
    ensures
        helpers_of(items, m, source, target) == helpers_of(items, n, source, target),
    decreases m,
{
    if n < m {
        lemma_helpers_error_stays(items, n, (m - 1) as nat, source, target);
    }
}

} // verus!
