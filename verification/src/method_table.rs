//! Entries of method tables, with return types in contract notation.

use vstd::prelude::*;

use crate::doc_comment::{is_syntax_error, whole_type};
use crate::report::CheckerError;
use crate::types::{MethodSignature, TypeDef};

verus! {

/// The entry of a method whose return type is known to be written in
/// contract notation.
pub fn __method_signature(receiver: &str, name: &str, return_type: &str) -> (r: MethodSignature)
    requires
        whole_type(return_type@) is Ok,
    ensures
        r@.receiver == receiver@,
        r@.name == name@,
        r@.return_type == Some(whole_type(return_type@)->Ok_0),
{
    let type_def = match TypeDef::parse(return_type) {
        Ok(type_def) => Some(type_def),
        Err(_) => None,
    };
    MethodSignature::new(receiver, name, type_def)
}

/// The entry of a method, or the error in the notation of its return type.
pub fn method_signature(receiver: &str, name: &str, return_type: &str) -> (r: Result<
    MethodSignature,
    CheckerError,
>)
    ensures
        match (r, whole_type(return_type@)) {
            (Ok(signature), Ok(type_def)) => {
                &&& signature@.receiver == receiver@
                &&& signature@.name == name@
                &&& signature@.return_type == Some(type_def)
            },
            (Err(e), Err(message)) => is_syntax_error(e, message),
            _ => false,
        },
{
    match TypeDef::parse(return_type) {
        Ok(_) => Ok(__method_signature(receiver, name, return_type)),
        Err(e) => Err(e),
    }
}

} // verus!
