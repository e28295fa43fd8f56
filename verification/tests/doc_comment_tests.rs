//! The contract notation.

use rune_typechecker::doc_comment::parse;
use rune_typechecker::{CheckerError, Contract, EnumVariant, PrimitiveType, TypeDef};

#[test]
fn primitive_types() {
    let contract =
        parse("@param name: String\n@param age: int\n@param active: bool\n@return String")
            .unwrap();
    assert_eq!(contract.params.len(), 3);
    assert_eq!(contract.params[0].name, "name");
    assert_eq!(
        contract.params[0].type_def,
        TypeDef::Primitive(PrimitiveType::String)
    );
    assert_eq!(
        contract.params[1].type_def,
        TypeDef::Primitive(PrimitiveType::Int)
    );
    assert_eq!(
        contract.params[2].type_def,
        TypeDef::Primitive(PrimitiveType::Bool)
    );
    assert_eq!(
        contract.return_type,
        TypeDef::Primitive(PrimitiveType::String)
    );
}

#[test]
fn object_shape() {
    let contract = parse("@return { status: String, code: int, active: bool }").unwrap();
    assert_eq!(
        contract.return_type,
        TypeDef::Object(vec![
            (
                "status".to_string(),
                TypeDef::Primitive(PrimitiveType::String)
            ),
            ("code".to_string(), TypeDef::Primitive(PrimitiveType::Int)),
            (
                "active".to_string(),
                TypeDef::Primitive(PrimitiveType::Bool)
            ),
        ])
    );
}

#[test]
fn enum_variant() {
    let contract = parse("@return Result::Ok(int) | Result::Err(String)").unwrap();
    assert_eq!(
        contract.return_type,
        TypeDef::Enum(vec![
            EnumVariant {
                path: vec!["Result".to_string(), "Ok".to_string()],
                inner: Some(Box::new(TypeDef::Primitive(PrimitiveType::Int))),
            },
            EnumVariant {
                path: vec!["Result".to_string(), "Err".to_string()],
                inner: Some(Box::new(TypeDef::Primitive(PrimitiveType::String))),
            },
        ])
    );
}

#[test]
fn nested_types() {
    let contract =
        parse("@return { status: String, data: { id: int, name: String } }").unwrap();
    assert_eq!(
        contract.return_type,
        TypeDef::Object(vec![
            (
                "status".to_string(),
                TypeDef::Primitive(PrimitiveType::String)
            ),
            (
                "data".to_string(),
                TypeDef::Object(vec![
                    ("id".to_string(), TypeDef::Primitive(PrimitiveType::Int)),
                    (
                        "name".to_string(),
                        TypeDef::Primitive(PrimitiveType::String)
                    ),
                ])
            ),
        ])
    );
}

#[test]
fn list_type() {
    let contract = parse("@return [String]").unwrap();
    assert_eq!(
        contract.return_type,
        TypeDef::List(Box::new(TypeDef::Primitive(PrimitiveType::String)))
    );
}

#[test]
fn list_combinations() {
    let contract = parse("@return { items: [int] }").unwrap();
    assert_eq!(
        contract.return_type,
        TypeDef::Object(vec![(
            "items".to_string(),
            TypeDef::List(Box::new(TypeDef::Primitive(PrimitiveType::Int)))
        )])
    );

    let contract = parse("@return [{ id: int, name: String }]").unwrap();
    assert_eq!(
        contract.return_type,
        TypeDef::List(Box::new(TypeDef::Object(vec![
            ("id".to_string(), TypeDef::Primitive(PrimitiveType::Int)),
            (
                "name".to_string(),
                TypeDef::Primitive(PrimitiveType::String)
            ),
        ])))
    );
}

#[test]
fn nullable() {
    let contract = parse("@return String | ()").unwrap();
    assert_eq!(
        contract.return_type,
        TypeDef::Nullable(Box::new(TypeDef::Primitive(PrimitiveType::String)))
    );
}

#[test]
fn ignores_unknown_annotations_and_non_at_lines() {
    let contract = parse("some free text\n@unknown foo\n@return int").unwrap();
    assert_eq!(contract.return_type, TypeDef::Primitive(PrimitiveType::Int));
}

#[test]
fn signature_basic() {
    let contract = Contract::parse("(sender: String, count: int) -> bool").unwrap();
    assert_eq!(contract.params.len(), 2);
    assert_eq!(contract.params[0].name, "sender");
    assert_eq!(
        contract.params[0].type_def,
        TypeDef::Primitive(PrimitiveType::String)
    );
    assert_eq!(contract.params[1].name, "count");
    assert_eq!(
        contract.params[1].type_def,
        TypeDef::Primitive(PrimitiveType::Int)
    );
    assert_eq!(
        contract.return_type,
        TypeDef::Primitive(PrimitiveType::Bool)
    );
}

#[test]
fn signature_no_params_unit_return() {
    let contract = Contract::parse("() -> ()").unwrap();
    assert!(contract.params.is_empty());
    assert_eq!(contract.return_type, TypeDef::Unit);
}

#[test]
fn signature_enum_path_with_spaces_around_separators() {
    // The shape produced by `stringify!` in the `contract!` macro.
    let contract = Contract::parse("( sender : String ) -> Status :: Solved").unwrap();
    assert_eq!(contract.params[0].name, "sender");
    assert_eq!(
        contract.return_type,
        TypeDef::Enum(vec![EnumVariant {
            path: vec!["Status".to_string(), "Solved".to_string()],
            inner: None,
        }])
    );
}

#[test]
fn signature_missing_arrow_is_error() {
    let result = Contract::parse("(sender: String)");
    assert!(matches!(
        result,
        Err(CheckerError::InvalidContractSyntax(_))
    ));
}

#[test]
fn signature_trailing_tokens_is_error() {
    let result = Contract::parse("() -> int garbage");
    assert!(matches!(
        result,
        Err(CheckerError::InvalidContractSyntax(_))
    ));
}

#[test]
fn missing_return_is_error() {
    let result = parse("@param name: String");
    assert!(matches!(
        result,
        Err(CheckerError::InvalidContractSyntax(_))
    ));
}

#[test]
fn param_without_colon_is_error() {
    // The old format `@param name Type` (without a colon) is no longer accepted.
    let result = parse("@param name String\n@return int");
    assert!(matches!(
        result,
        Err(CheckerError::InvalidContractSyntax(_))
    ));
}

#[test]
fn description_after_type_is_allowed() {
    let contract = parse(
        "@param sender: String Who sent the message\n@return Status::Solved Processing outcome",
    )
    .unwrap();
    assert_eq!(contract.params.len(), 1);
    assert_eq!(contract.params[0].name, "sender");
    assert_eq!(
        contract.params[0].type_def,
        TypeDef::Primitive(PrimitiveType::String)
    );
    assert_eq!(
        contract.return_type,
        TypeDef::Enum(vec![EnumVariant {
            path: vec!["Status".to_string(), "Solved".to_string()],
            inner: None,
        }])
    );
}

#[test]
fn description_does_not_swallow_union_type() {
    // A description may follow a union too — `|` continues the type only
    // when it immediately follows the previous alternative.
    let contract = parse("@param id: String | () empty for anonymous\n@return int").unwrap();
    assert_eq!(
        contract.params[0].type_def,
        TypeDef::Nullable(Box::new(TypeDef::Primitive(PrimitiveType::String)))
    );
}

#[test]
fn invalid_syntax_is_error() {
    let result = parse("@return {");
    assert!(matches!(
        result,
        Err(CheckerError::InvalidContractSyntax(_))
    ));
}
