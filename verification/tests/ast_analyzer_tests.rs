//! Return sites and doc-comments.

use rune_typechecker::ast_analyzer::{
    doc_comment_before, find_function, find_return_sites, parse_file,
};
use rune_typechecker::{
    DynamicReason, LiteralValue, PrimitiveType, ReturnSite, SignatureOrigin, SignatureRegistry,
    TypeDef,
};

fn sites(source: &str, fn_name: &str, registry: &SignatureRegistry) -> Vec<ReturnSite> {
    let file = parse_file(source).expect("parse");
    let item_fn = find_function(&file, source, fn_name).expect("function found");
    find_return_sites(item_fn, source, registry)
}

#[test]
fn primitive_literal() {
    let source = r#"
            fn process(name, age, active) {
                return "ok";
            }
        "#;
    let registry = SignatureRegistry::default();
    let result = sites(source, "process", &registry);
    assert_eq!(
        result,
        vec![ReturnSite::PrimitiveLiteral(LiteralValue::String(
            "ok".to_string()
        ))]
    );
}

#[test]
fn object_literal() {
    let source = r#"
            fn process(input) {
                return #{ status: "ok", code: 42, active: true };
            }
        "#;
    let registry = SignatureRegistry::default();
    let result = sites(source, "process", &registry);
    assert_eq!(
        result,
        vec![ReturnSite::ObjectLiteral(vec![
            ("status".to_string(), LiteralValue::String("ok".to_string())),
            ("code".to_string(), LiteralValue::Int(42)),
            ("active".to_string(), LiteralValue::Bool(true)),
        ])]
    );
}

#[test]
fn nested_object_literal() {
    let source = r#"
            fn process(input) {
                return #{ status: "ok", data: #{ id: 1, name: "foo" } };
            }
        "#;
    let registry = SignatureRegistry::default();
    let result = sites(source, "process", &registry);
    assert_eq!(
        result,
        vec![ReturnSite::ObjectLiteral(vec![
            ("status".to_string(), LiteralValue::String("ok".to_string())),
            (
                "data".to_string(),
                LiteralValue::Object(vec![
                    ("id".to_string(), LiteralValue::Int(1)),
                    ("name".to_string(), LiteralValue::String("foo".to_string())),
                ])
            ),
        ])]
    );
}

#[test]
fn list_literal() {
    let source = r#"
            fn process(input) {
                return ["a", "b", "c"];
            }
        "#;
    let registry = SignatureRegistry::default();
    let result = sites(source, "process", &registry);
    assert_eq!(
        result,
        vec![ReturnSite::PrimitiveLiteral(LiteralValue::List(vec![
            LiteralValue::String("a".to_string()),
            LiteralValue::String("b".to_string()),
            LiteralValue::String("c".to_string()),
        ]))]
    );
}

#[test]
fn enum_variant_ok_err_short_names() {
    let source = r#"
            fn process(input) {
                if input == "" {
                    return Err("empty input");
                }
                return Ok(42);
            }
        "#;
    let registry = SignatureRegistry::default();
    let result = sites(source, "process", &registry);
    assert_eq!(
        result,
        vec![
            ReturnSite::EnumLiteral {
                path: vec!["Result".to_string(), "Err".to_string()],
                inner: Some(Box::new(LiteralValue::String("empty input".to_string()))),
            },
            ReturnSite::EnumLiteral {
                path: vec!["Result".to_string(), "Ok".to_string()],
                inner: Some(Box::new(LiteralValue::Int(42))),
            },
        ]
    );
}

#[test]
fn nullable_unit_branch() {
    let source = r#"
            fn process(input) {
                if input == "" {
                    return ();
                }
                return "result";
            }
        "#;
    let registry = SignatureRegistry::default();
    let result = sites(source, "process", &registry);
    assert_eq!(
        result,
        vec![
            ReturnSite::Unit,
            ReturnSite::PrimitiveLiteral(LiteralValue::String("result".to_string())),
        ]
    );
}

#[test]
fn implicit_tail_return_without_explicit_return_keyword() {
    let source = r#"
            fn process(name, age, active) {
                "ok"
            }
        "#;
    let registry = SignatureRegistry::default();
    let result = sites(source, "process", &registry);
    assert_eq!(
        result,
        vec![ReturnSite::PrimitiveLiteral(LiteralValue::String(
            "ok".to_string()
        ))]
    );
}

#[test]
fn dynamic_variable() {
    let source = r#"
            fn process(input) {
                let result = compute(input);
                return result;
            }
        "#;
    let registry = SignatureRegistry::default();
    let result = sites(source, "process", &registry);
    assert_eq!(
        result,
        vec![ReturnSite::Dynamic(DynamicReason::Variable(
            "result".to_string()
        ))]
    );
}

#[test]
fn dynamic_unannotated_call() {
    let source = r#"
            fn process(input) {
                return helper(input);
            }
        "#;
    let registry = SignatureRegistry::default();
    let result = sites(source, "process", &registry);
    assert_eq!(
        result,
        vec![ReturnSite::Dynamic(DynamicReason::UnannotatedCall(
            "helper".to_string()
        ))]
    );
}

#[test]
fn dynamic_method_call() {
    let source = r#"
            fn process(input) {
                return input.compute();
            }
        "#;
    let registry = SignatureRegistry::default();
    let result = sites(source, "process", &registry);
    assert_eq!(
        result,
        vec![ReturnSite::Dynamic(DynamicReason::MethodCall(
            "compute".to_string()
        ))]
    );
}

#[test]
fn dynamic_expression() {
    let source = r#"
            fn process(a, b) {
                return a + b;
            }
        "#;
    let registry = SignatureRegistry::default();
    let result = sites(source, "process", &registry);
    assert_eq!(result, vec![ReturnSite::Dynamic(DynamicReason::Expression)]);
}

#[test]
fn resolved_call_via_registry() {
    let source = r#"
            fn process(input) {
                return helper(input);
            }
        "#;
    let mut registry = SignatureRegistry::default();
    registry.signatures.insert(
        "helper".to_string(),
        SignatureOrigin::Helper(TypeDef::Primitive(PrimitiveType::String)),
    );
    let result = sites(source, "process", &registry);
    assert_eq!(
        result,
        vec![ReturnSite::ResolvedCall {
            name: "helper".to_string(),
            type_def: TypeDef::Primitive(PrimitiveType::String),
        }]
    );
}

#[test]
fn doc_comment_extraction() {
    let source = "/// @param name: String\n/// @return String\nfn process(name) {\n    return name;\n}\n";
    let file = parse_file(source).unwrap();
    let item_fn = find_function(&file, source, "process").unwrap();
    let doc = doc_comment_before(source, item_fn).unwrap();
    assert_eq!(doc, "@param name: String\n@return String");
}

#[test]
fn doc_comment_extraction_pub_fn() {
    let source = "/// @param name: String\n/// @return String\npub fn process(name) {\n    return name;\n}\n";
    let file = parse_file(source).unwrap();
    let item_fn = find_function(&file, source, "process").unwrap();
    let doc = doc_comment_before(source, item_fn).unwrap();
    assert_eq!(doc, "@param name: String\n@return String");
}

#[test]
fn doc_comment_extraction_pub_async_fn() {
    let source = "/// @return String\npub async fn process() {\n    return \"x\";\n}\n";
    let file = parse_file(source).unwrap();
    let item_fn = find_function(&file, source, "process").unwrap();
    let doc = doc_comment_before(source, item_fn).unwrap();
    assert_eq!(doc, "@return String");
}

#[test]
fn block_doc_comment_extraction() {
    let source = "/**\n * @param name: String\n * @return String\n */\npub fn process(name) {\n    return name;\n}\n";
    let file = parse_file(source).unwrap();
    let item_fn = find_function(&file, source, "process").unwrap();
    let doc = doc_comment_before(source, item_fn).unwrap();
    assert_eq!(doc, "@param name: String\n@return String");
}

#[test]
fn block_doc_comment_without_stars() {
    let source = "/**\n@param name: String\n@return String\n*/\nfn process(name) {\n    return name;\n}\n";
    let file = parse_file(source).unwrap();
    let item_fn = find_function(&file, source, "process").unwrap();
    let doc = doc_comment_before(source, item_fn).unwrap();
    assert_eq!(doc, "@param name: String\n@return String");
}

#[test]
fn single_line_block_doc_comment() {
    let source = "/** @return String */\nfn process() {\n    return \"x\";\n}\n";
    let file = parse_file(source).unwrap();
    let item_fn = find_function(&file, source, "process").unwrap();
    let doc = doc_comment_before(source, item_fn).unwrap();
    assert_eq!(doc, "@return String");
}

#[test]
fn plain_block_comment_is_not_doc() {
    let source = "/* @return String */\nfn process() {\n    return \"x\";\n}\n";
    let file = parse_file(source).unwrap();
    let item_fn = find_function(&file, source, "process").unwrap();
    assert!(doc_comment_before(source, item_fn).is_none());
}

#[test]
fn block_doc_of_earlier_function_does_not_leak() {
    let source = "/** @return int */\nfn other() {\n    1\n}\n\n/* a note */\nfn process() {\n    return \"x\";\n}\n";
    let file = parse_file(source).unwrap();
    let item_fn = find_function(&file, source, "process").unwrap();
    assert!(doc_comment_before(source, item_fn).is_none());
}

#[test]
fn function_not_found_returns_none() {
    let source = "fn process() { 1 }";
    let file = parse_file(source).unwrap();
    assert!(find_function(&file, source, "missing").is_none());
}
