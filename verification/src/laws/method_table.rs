//! Tables of methods.

use vstd::prelude::*;

use crate::types::{method_table, MethodModel};

verus! {

/// Whether a signature is that of a method of a type.
pub open spec fn describes(signature: MethodModel, receiver: Seq<char>, name: Seq<char>) -> bool {
    signature.receiver == receiver && signature.name == name
}

/// A table describes the types and the methods that its signatures name, and
/// no others.
pub proof fn tables_hold_what_they_describe(
    signatures: Seq<MethodModel>,
    receiver: Seq<char>,
    name: Seq<char>,
)
    ensures
        method_table(signatures).contains_key(receiver) <==> exists|i: int|
            0 <= i < signatures.len() && (#[trigger] signatures[i]).receiver == receiver,
        method_table(signatures).contains_key(receiver) ==> (method_table(
            signatures,
        )[receiver].contains_key(name) <==> exists|i: int|
            0 <= i < signatures.len() && describes(#[trigger] signatures[i], receiver, name)),
    decreases signatures.len(),
{
    if signatures.len() > 0 {
        let front = signatures.drop_last();
        let last = signatures.last();
        tables_hold_what_they_describe(front, receiver, name);
        let before = method_table(front);
        let table = method_table(signatures);
        assert(signatures[signatures.len() - 1] == last);
        assert(forall|i: int| 0 <= i < front.len() ==> #[trigger] signatures[i] == front[i]);
        if exists|i: int| 0 <= i < front.len() && (#[trigger] front[i]).receiver == receiver {
            let i = choose|i: int| 0 <= i < front.len() && (#[trigger] front[i]).receiver
                == receiver;
            assert(signatures[i].receiver == receiver);
        }
        if exists|i: int| 0 <= i < front.len() && describes(#[trigger] front[i], receiver, name) {
            let i = choose|i: int|
                0 <= i < front.len() && describes(#[trigger] front[i], receiver, name);
            assert(describes(signatures[i], receiver, name));
            assert(before.contains_key(receiver)) by {
                assert(front[i].receiver == receiver);
            }
        }
        if last.receiver != receiver {
            assert(table.contains_key(receiver) == before.contains_key(receiver));
        }
    }
}

/// Of the signatures of one method the last one tells what it returns.
pub proof fn last_signature_counts(signatures: Seq<MethodModel>, at: int)
    requires
        0 <= at < signatures.len(),
        forall|i: int|
            at < i < signatures.len() ==> !describes(
                #[trigger] signatures[i],
                signatures[at].receiver,
                signatures[at].name,
            ),
    ensures
        method_table(signatures).contains_key(signatures[at].receiver),
        method_table(signatures)[signatures[at].receiver].contains_key(signatures[at].name),
        method_table(signatures)[signatures[at].receiver][signatures[at].name]
            == signatures[at].return_type,
    decreases signatures.len(),
{
    let front = signatures.drop_last();
    if at < front.len() {
        assert(front[at] == signatures[at]);
        assert forall|i: int| at < i < front.len() implies !describes(
            #[trigger] front[i],
            front[at].receiver,
            front[at].name,
        ) by {
            assert(front[i] == signatures[i]);
        }
        last_signature_counts(front, at);
        assert(!describes(
            signatures[signatures.len() - 1],
            signatures[at].receiver,
            signatures[at].name,
        ));
    }
}

} // verus!
