//! What holds of the library as a whole: promises about all inputs, stated
//! over the specifications of the functions.

pub mod bindings;
pub mod called;
pub mod compatibility;
pub mod contracts;
pub mod doc_comments;
pub mod expressions;
pub mod functions;
pub mod inference;
pub mod messages;
pub mod method_calls;
pub mod method_table;
pub mod methods;
pub mod notation;
pub mod numbers;
pub mod registry;
pub mod return_sites;
pub mod scopes;
pub mod source_text;
pub mod texts;
pub mod validation;
pub mod values;
pub mod variables;
pub mod verdicts;
