//! Return sites against contracts.

use rune_typechecker::static_checker::check;
use rune_typechecker::{
    Contract, DynamicReason, EnumVariant, LiteralValue, PrimitiveType, ReturnSite, TypeDef,
};

fn contract(return_type: TypeDef) -> Contract {
    Contract {
        params: Vec::new(),
        return_type,
    }
}

#[test]
fn primitive_match_is_verified() {
    let result = check(
        &[ReturnSite::PrimitiveLiteral(LiteralValue::String(
            "ok".into(),
        ))],
        &contract(TypeDef::Primitive(PrimitiveType::String)),
    );
    assert_eq!(result.verified.len(), 1);
    assert!(result.violations.is_empty());
    assert!(result.unverifiable.is_empty());
}

#[test]
fn primitive_mismatch_is_violation() {
    let result = check(
        &[ReturnSite::PrimitiveLiteral(LiteralValue::Int(42))],
        &contract(TypeDef::Primitive(PrimitiveType::String)),
    );
    assert_eq!(result.violations.len(), 1);
    assert_eq!(result.violations[0].actual, "expected String, got int");
}

#[test]
fn dynamic_is_unverifiable() {
    let result = check(
        &[ReturnSite::Dynamic(DynamicReason::Variable("x".into()))],
        &contract(TypeDef::Primitive(PrimitiveType::String)),
    );
    assert_eq!(result.unverifiable.len(), 1);
}

#[test]
fn object_extra_fields_allowed() {
    let site = ReturnSite::ObjectLiteral(vec![
        ("status".into(), LiteralValue::String("ok".into())),
        ("extra".into(), LiteralValue::Bool(true)),
    ]);
    let expected = contract(TypeDef::Object(vec![(
        "status".into(),
        TypeDef::Primitive(PrimitiveType::String),
    )]));
    let result = check(&[site], &expected);
    assert_eq!(result.verified.len(), 1);
}

#[test]
fn object_missing_field_is_violation() {
    let site = ReturnSite::ObjectLiteral(vec![("code".into(), LiteralValue::Int(1))]);
    let expected = contract(TypeDef::Object(vec![(
        "status".into(),
        TypeDef::Primitive(PrimitiveType::String),
    )]));
    let result = check(&[site], &expected);
    assert_eq!(result.violations.len(), 1);
    assert!(
        result.violations[0]
            .actual
            .contains("missing field 'status'")
    );
}

#[test]
fn object_with_dynamic_field_is_unverifiable_not_violation() {
    let site = ReturnSite::ObjectLiteral(vec![(
        "status".into(),
        LiteralValue::Dynamic(DynamicReason::UnannotatedCall("compute".into())),
    )]);
    let expected = contract(TypeDef::Object(vec![(
        "status".into(),
        TypeDef::Primitive(PrimitiveType::String),
    )]));
    let result = check(&[site], &expected);
    assert_eq!(result.unverifiable.len(), 1);
    assert!(result.violations.is_empty());
}

#[test]
fn object_with_dynamic_field_and_wrong_static_field_is_violation() {
    let site = ReturnSite::ObjectLiteral(vec![
        ("status".into(), LiteralValue::Int(1)),
        (
            "extra".into(),
            LiteralValue::Dynamic(DynamicReason::Expression),
        ),
    ]);
    let expected = contract(TypeDef::Object(vec![(
        "status".into(),
        TypeDef::Primitive(PrimitiveType::String),
    )]));
    let result = check(&[site], &expected);
    assert_eq!(result.violations.len(), 1);
}

#[test]
fn enum_variant_matches_by_last_segment() {
    let site = ReturnSite::EnumLiteral {
        path: vec!["Result".into(), "Ok".into()],
        inner: Some(Box::new(LiteralValue::Int(42))),
    };
    let expected = contract(TypeDef::Enum(vec![
        EnumVariant {
            path: vec!["Result".into(), "Ok".into()],
            inner: Some(Box::new(TypeDef::Primitive(PrimitiveType::Int))),
        },
        EnumVariant {
            path: vec!["Result".into(), "Err".into()],
            inner: Some(Box::new(TypeDef::Primitive(PrimitiveType::String))),
        },
    ]));
    let result = check(&[site], &expected);
    assert_eq!(result.verified.len(), 1);
}

#[test]
fn enum_variant_not_allowed_is_violation() {
    let site = ReturnSite::EnumLiteral {
        path: vec!["Foo".into()],
        inner: None,
    };
    let expected = contract(TypeDef::Enum(vec![EnumVariant {
        path: vec!["Result".into(), "Ok".into()],
        inner: Some(Box::new(TypeDef::Primitive(PrimitiveType::Int))),
    }]));
    let result = check(&[site], &expected);
    assert_eq!(result.violations.len(), 1);
}

#[test]
fn bare_enum_name_accepts_any_variant() {
    // `@return Status` — with no enumerated variants, any variant of the
    // Status enum passes, inner value included.
    let bare = contract(TypeDef::Enum(vec![EnumVariant {
        path: vec!["Status".into()],
        inner: None,
    }]));

    let plain = ReturnSite::EnumLiteral {
        path: vec!["Status".into(), "Solved".into()],
        inner: None,
    };
    let with_inner = ReturnSite::EnumLiteral {
        path: vec!["Status".into(), "Failed".into()],
        inner: Some(Box::new(LiteralValue::String("why".into()))),
    };
    let result = check(&[plain, with_inner], &bare);
    assert_eq!(result.verified.len(), 2);
    assert!(result.violations.is_empty());
}

#[test]
fn bare_enum_name_rejects_other_enum() {
    let bare = contract(TypeDef::Enum(vec![EnumVariant {
        path: vec!["Status".into()],
        inner: None,
    }]));
    let site = ReturnSite::EnumLiteral {
        path: vec!["EventType".into(), "Click".into()],
        inner: None,
    };
    let result = check(&[site], &bare);
    assert_eq!(result.violations.len(), 1);
}

#[test]
fn list_items_checked_recursively() {
    let site = ReturnSite::PrimitiveLiteral(LiteralValue::List(vec![
        LiteralValue::String("a".into()),
        LiteralValue::String("b".into()),
    ]));
    let expected = contract(TypeDef::List(Box::new(TypeDef::Primitive(
        PrimitiveType::String,
    ))));
    let result = check(&[site], &expected);
    assert_eq!(result.verified.len(), 1);
}

#[test]
fn empty_list_is_always_valid() {
    let site = ReturnSite::PrimitiveLiteral(LiteralValue::List(vec![]));
    let expected = contract(TypeDef::List(Box::new(TypeDef::Primitive(
        PrimitiveType::Int,
    ))));
    let result = check(&[site], &expected);
    assert_eq!(result.verified.len(), 1);
}

#[test]
fn nullable_accepts_unit_and_inner_type() {
    let expected = contract(TypeDef::Nullable(Box::new(TypeDef::Primitive(
        PrimitiveType::String,
    ))));
    let result = check(
        &[
            ReturnSite::Unit,
            ReturnSite::PrimitiveLiteral(LiteralValue::String("x".into())),
        ],
        &expected,
    );
    assert_eq!(result.verified.len(), 2);
}

#[test]
fn resolved_call_matching_type_is_verified() {
    let site = ReturnSite::ResolvedCall {
        name: "helper".into(),
        type_def: TypeDef::Primitive(PrimitiveType::String),
    };
    let result = check(
        &[site],
        &contract(TypeDef::Primitive(PrimitiveType::String)),
    );
    assert_eq!(result.verified.len(), 1);
}

#[test]
fn resolved_call_mismatched_type_is_violation() {
    let site = ReturnSite::ResolvedCall {
        name: "helper".into(),
        type_def: TypeDef::Primitive(PrimitiveType::Int),
    };
    let result = check(
        &[site],
        &contract(TypeDef::Primitive(PrimitiveType::String)),
    );
    assert_eq!(result.violations.len(), 1);
    assert!(result.violations[0].actual.contains("helper"));
}
