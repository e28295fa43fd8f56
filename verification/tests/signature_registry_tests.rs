//! The registry of signatures.

use rune_typechecker::ast_analyzer::parse_file;
use rune_typechecker::signature_registry::build;
use rune_typechecker::{BuiltinSignature, CheckerError, PrimitiveType, SignatureOrigin, TypeDef};

#[test]
fn helper_with_contract_is_registered() {
    let source = r#"
            /// @return String
            fn helper() {
                return "x";
            }

            fn process() {
                return helper();
            }
        "#;
    let file = parse_file(source).unwrap();
    let registry = build(&file, source, "process", &[]).unwrap();
    assert_eq!(
        registry.signatures.get("helper"),
        Some(&SignatureOrigin::Helper(TypeDef::Primitive(
            PrimitiveType::String
        )))
    );
}

#[test]
fn helper_without_contract_is_not_registered() {
    let source = r#"
            fn helper() {
                return "x";
            }
            fn process() {
                return helper();
            }
        "#;
    let file = parse_file(source).unwrap();
    let registry = build(&file, source, "process", &[]).unwrap();
    assert!(registry.signatures.get("helper").is_none());
}

#[test]
fn helper_with_invalid_contract_is_error() {
    let source = r#"
            /// @return {
            fn helper() {
                return "x";
            }
            fn process() {
                return helper();
            }
        "#;
    let file = parse_file(source).unwrap();
    let result = build(&file, source, "process", &[]);
    assert!(matches!(
        result,
        Err(CheckerError::InvalidContractSyntax(_))
    ));
}

#[test]
fn builtin_is_registered() {
    let source = "fn process() { return 1; }";
    let file = parse_file(source).unwrap();
    let builtins = vec![BuiltinSignature {
        name: "http::get".to_string(),
        return_type: TypeDef::Primitive(PrimitiveType::String),
    }];
    let registry = build(&file, source, "process", &builtins).unwrap();
    assert_eq!(
        registry.signatures.get("http::get"),
        Some(&SignatureOrigin::Builtin(TypeDef::Primitive(
            PrimitiveType::String
        )))
    );
}

#[test]
fn helper_takes_precedence_over_builtin_with_same_name() {
    let source = r#"
            /// @return int
            fn helper() {
                return 1;
            }
            fn process() {
                return helper();
            }
        "#;
    let file = parse_file(source).unwrap();
    let builtins = vec![BuiltinSignature {
        name: "helper".to_string(),
        return_type: TypeDef::Primitive(PrimitiveType::String),
    }];
    let registry = build(&file, source, "process", &builtins).unwrap();
    assert_eq!(
        registry.signatures.get("helper"),
        Some(&SignatureOrigin::Helper(TypeDef::Primitive(
            PrimitiveType::Int
        )))
    );
}

#[test]
fn target_function_itself_is_not_registered_as_helper() {
    let source = r#"
            /// @return String
            fn process() {
                return "x";
            }
        "#;
    let file = parse_file(source).unwrap();
    let registry = build(&file, source, "process", &[]).unwrap();
    assert!(registry.signatures.get("process").is_none());
}
