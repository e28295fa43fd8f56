//! The functions of a script.

use vstd::prelude::*;

use crate::ast_analyzer::{fn_from, fn_named, fn_start};
use crate::source_text::span_text;
use crate::syntax::{FnTree, ItemTree, ScriptTree};

verus! {

/// Whether an item is a function that is declared under the name.
pub open spec fn declares(item: ItemTree, source: Seq<char>, name: Seq<char>) -> bool {
    item matches ItemTree::Fn(f) && span_text(source, f.name) == name
}

proof fn lemma_fn_from(items: Seq<ItemTree>, from: nat, source: Seq<char>, name: Seq<char>, at: int)
    requires
        from <= at < items.len(),
        declares(items[at], source, name),
        forall|i: int| from <= i < at ==> !declares(#[trigger] items[i], source, name),
    ensures
        fn_from(items, from, source, name) == Some(items[at]->Fn_0),
    decreases items.len() - from,
{
    if from < at {
        assert(!declares(items[from as int], source, name));
        lemma_fn_from(items, from + 1, source, name, at);
    }
}

proof fn lemma_no_fn_from(items: Seq<ItemTree>, from: nat, source: Seq<char>, name: Seq<char>)
    requires
        forall|i: int| from <= i < items.len() ==> !declares(#[trigger] items[i], source, name),
    ensures
        fn_from(items, from, source, name) is None,
    decreases items.len() - from,
{
    if from < items.len() {
        assert(!declares(items[from as int], source, name));
        lemma_no_fn_from(items, from + 1, source, name);
    }
}

/// Of the functions of one name the first one is found.
pub proof fn first_function_of_a_name_is_found(
    script: ScriptTree,
    source: Seq<char>,
    name: Seq<char>,
    at: int,
)
    requires
        0 <= at < script.items.len(),
        declares(script.items[at], source, name),
        forall|i: int| 0 <= i < at ==> !declares(#[trigger] script.items[i], source, name),
    ensures
        fn_named(script, source, name) == Some(script.items[at]->Fn_0),
{
    lemma_fn_from(script.items, 0, source, name, at);
}

/// A function is found only if the script declares one of that name.
pub proof fn undeclared_functions_are_not_found(
    script: ScriptTree,
    source: Seq<char>,
    name: Seq<char>,
)
    requires
        forall|i: int|
            0 <= i < script.items.len() ==> !declares(#[trigger] script.items[i], source, name),
    ensures
        fn_named(script, source, name) is None,
{
    lemma_no_fn_from(script.items, 0, source, name);
}

/// A declaration starts at the first of its tokens: at `pub`, `const` or
/// `async` where it has them, and not behind `fn`. The doc-comment stands
/// before all of them.
pub proof fn declarations_start_at_their_first_token(item: FnTree)
    ensures
        fn_start(item) <= item.fn_token,
        item.visibility matches Some(at) ==> fn_start(item) <= at,
        item.const_token matches Some(at) ==> fn_start(item) <= at,
        item.async_token matches Some(at) ==> fn_start(item) <= at,
        fn_start(item) == item.fn_token || Some(fn_start(item)) == item.visibility || Some(
            fn_start(item),
        ) == item.const_token || Some(fn_start(item)) == item.async_token,
{
}

} // verus!
