//! Static validation of Rune scripts against doc-comment contracts.
//!
//! A script declares what its functions take and return in doc-comments
//! (`@param`, `@return`). [`validate_script`] tells whether a function honors
//! its contract at every return site, whether the helpers that it reaches do,
//! whether it calls methods that do not exist, and whether the contract is
//! the one that the host expects.

pub mod ast_analyzer;
pub mod doc_comment;
pub mod laws;
pub mod method_checker;
pub mod method_table;
pub mod name_map;
pub mod number;
pub mod report;
pub mod rune_ast;
pub mod signature_registry;
pub mod source_text;
pub mod static_checker;
pub mod syntax;
pub mod text;
pub mod types;
pub mod validation;

pub use method_table::{__method_signature, method_signature};
pub use name_map::NameMap;
pub use report::{
    CheckerError, ContractMismatch, DynamicReason, LiteralValue, MethodViolation, ReturnSite,
    ScriptValidationReport, StaticCheckResult, ValidationReport, Violation,
};
pub use types::{
    BuiltinSignature, Contract, EnumVariant, Environment, MethodRegistry, MethodSignature,
    ParamDef, PrimitiveType, SignatureOrigin, SignatureRegistry, TypeDef,
};
pub use validation::{validate_parsed, validate_script};
