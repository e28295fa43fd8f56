//! Return sites in every kind of expression, and the values found there.

use rune_typechecker::ast_analyzer::{
    block_doc_comment, canonical_builtin_variant, classify_value, doc_comment_before,
    find_function, find_return_sites, line_doc_comment, parse_file,
};
use rune_typechecker::syntax::StmtNode;
use rune_typechecker::{
    CheckerError, DynamicReason, EnumVariant, LiteralValue, PrimitiveType, ReturnSite,
    SignatureOrigin, SignatureRegistry, TypeDef,
};

fn registry() -> SignatureRegistry {
    let mut registry = SignatureRegistry::default();
    registry.signatures.insert(
        "load".to_string(),
        SignatureOrigin::Helper(TypeDef::parse("Result::Ok(int) | Result::Err(String)").unwrap()),
    );
    registry.signatures.insert(
        "http::get".to_string(),
        SignatureOrigin::Builtin(TypeDef::Primitive(PrimitiveType::String)),
    );
    registry.signatures.insert(
        "perhaps".to_string(),
        SignatureOrigin::Builtin(
            TypeDef::parse("Result::Ok(int) | Result::Err(String) | ()").unwrap(),
        ),
    );
    registry.signatures.insert(
        "always".to_string(),
        SignatureOrigin::Builtin(TypeDef::parse("Result::Ok(int)").unwrap()),
    );
    registry
}

fn sites(source: &str) -> Vec<ReturnSite> {
    let file = parse_file(source).expect("parse");
    let item_fn = find_function(&file, source, "f").expect("function found");
    find_return_sites(item_fn, source, &registry())
}

fn number(n: i64) -> ReturnSite {
    ReturnSite::PrimitiveLiteral(LiteralValue::Int(n))
}

/// The value of the expression, as that of the last one of a body.
fn value(expr: &str) -> LiteralValue {
    let source = format!("fn f() {{ {expr} }}");
    let file = parse_file(&source).expect("parse");
    let item_fn = find_function(&file, &source, "f").expect("function found");
    match &item_fn.body.statements[0] {
        StmtNode::Expr(expr) => classify_value(expr, &source, &registry()),
        _ => panic!("not an expression"),
    }
}

#[test]
fn returns_in_operands_are_sites() {
    let source = "fn f(x) {
        let a = 1 + (return 1);
        x = (return 2);
        x[(return 3)];
        (return 4)[x];
        !(return 5);
        (return 6).name;
        (return 7).await;
        ((return 8));
        (return 9)..(return 10);
        g((return 11), (return 12));
        x.g((return 13));
    }";
    let mut wanted: Vec<ReturnSite> = (1..14).map(number).collect();
    wanted.push(ReturnSite::Unit);
    assert_eq!(sites(source), wanted);
}

#[test]
fn returns_in_collections_are_sites() {
    let source = "fn f(x) {
        let a = [(return 1), (return 2)];
        let b = ((return 3), (return 4));
        let c = #{ a: (return 5), b: (return 6) };
    }";
    let mut wanted: Vec<ReturnSite> = (1..7).map(number).collect();
    wanted.push(ReturnSite::Unit);
    assert_eq!(sites(source), wanted);
}

#[test]
fn returns_in_control_flow_are_sites() {
    let source = "fn f(x) {
        if (return 1) { return 2; } else if let Some(y) = (return 3) { return 4; } else { return 5; }
        match (return 6) { 1 if (return 7) => { return 8; } _ => (return 9), }
        loop { return 10; }
        while (return 11) { return 12; }
        while let Some(y) = (return 13) { return 14; }
        for y in (return 15) { return 16; }
        { return 17; }
        loop { break (return 18); }
        yield (return 19);
        x;
    }";
    let mut wanted: Vec<ReturnSite> = (1..20).map(number).collect();
    wanted.push(ReturnSite::Unit);
    assert_eq!(sites(source), wanted);
}

#[test]
fn returns_in_select_are_sites() {
    let source = "async fn f(x) {
        select {
            y = (return 1) => { return 2; }
            default => { return 3; }
        }
        x;
    }";
    let mut wanted: Vec<ReturnSite> = (1..4).map(number).collect();
    wanted.push(ReturnSite::Unit);
    assert_eq!(sites(source), wanted);
}

#[test]
fn returns_in_closures_are_no_sites() {
    let source = "fn f(x) {
        let g = |y| { return 1; };
        let h = || load(x)?;
        return 2;
    }";
    assert_eq!(sites(source), vec![number(2)]);
}

#[test]
fn return_of_a_return_is_two_sites() {
    let source = "fn f() { return (return 1); }";
    assert_eq!(
        sites(source),
        vec![number(1), ReturnSite::Dynamic(DynamicReason::Expression)]
    );
}

#[test]
fn if_without_else_may_return_the_unit() {
    let source = "fn f(x) { if x { 1 } }";
    assert_eq!(sites(source), vec![number(1), ReturnSite::Unit]);
}

#[test]
fn branches_and_arms_return_their_values() {
    let source = "fn f(x) { if x { 1 } else if y { 2 } else { match x { 1 => 3, _ => { 4 } } } }";
    assert_eq!(sites(source), vec![number(1), number(2), number(3), number(4)]);
}

#[test]
fn question_mark_on_a_declared_result_propagates_its_errors() {
    let source = "fn f(x) { let y = load(x)?; y; }";
    assert_eq!(
        sites(source),
        vec![
            ReturnSite::ResolvedCall {
                name: "load".to_string(),
                type_def: TypeDef::Enum(vec![EnumVariant {
                    path: vec!["Result".to_string(), "Err".to_string()],
                    inner: Some(Box::new(TypeDef::Primitive(PrimitiveType::String))),
                }]),
            },
            ReturnSite::Unit,
        ]
    );
}

#[test]
fn question_mark_on_a_declared_nullable_union_propagates_its_errors() {
    assert_eq!(
        sites("fn f(x) { perhaps(x)?; }"),
        vec![
            ReturnSite::ResolvedCall {
                name: "perhaps".to_string(),
                type_def: TypeDef::parse("Result::Err(String)").unwrap(),
            },
            ReturnSite::Unit,
        ]
    );
    assert_eq!(
        value("perhaps()?"),
        LiteralValue::ResolvedCall {
            name: "perhaps".to_string(),
            type_def: TypeDef::Primitive(PrimitiveType::Int),
        }
    );
}

#[test]
fn question_mark_without_an_error_variant_propagates_nothing() {
    assert_eq!(sites("fn f(x) { always(x)?; }"), vec![ReturnSite::Unit]);
}

#[test]
fn question_mark_on_an_error_literal_returns_it() {
    assert_eq!(
        sites("fn f(x) { Err(1)?; Some(2)?; }"),
        vec![
            ReturnSite::EnumLiteral {
                path: vec!["Result".to_string(), "Err".to_string()],
                inner: Some(Box::new(LiteralValue::Int(1))),
            },
            ReturnSite::Unit,
        ]
    );
}

#[test]
fn question_mark_on_the_unknown_tells_its_line() {
    assert_eq!(
        sites("fn f(x) {\n    let y = 1;\n    unknown(x)?;\n}"),
        vec![ReturnSite::TryPropagation { line: 3 }, ReturnSite::Unit]
    );
}

#[test]
fn question_mark_leaves_the_content() {
    assert_eq!(
        value("load()?"),
        LiteralValue::ResolvedCall {
            name: "load".to_string(),
            type_def: TypeDef::Primitive(PrimitiveType::Int),
        }
    );
    assert_eq!(value("Ok(1)?"), LiteralValue::Int(1));
    assert_eq!(
        value("Err(1)?"),
        LiteralValue::Dynamic(DynamicReason::TryPropagation)
    );
    assert_eq!(
        value("x?"),
        LiteralValue::Dynamic(DynamicReason::TryPropagation)
    );
}

#[test]
fn numbers_of_every_base_have_their_value() {
    assert_eq!(value("42"), LiteralValue::Int(42));
    assert_eq!(value("0x1f"), LiteralValue::Int(31));
    assert_eq!(value("0b101"), LiteralValue::Int(5));
    assert_eq!(value("0o17"), LiteralValue::Int(15));
    assert_eq!(
        value("9223372036854775807"),
        LiteralValue::Int(9223372036854775807)
    );
    assert_eq!(
        value("9223372036854775808"),
        LiteralValue::Dynamic(DynamicReason::Expression)
    );
    assert_eq!(value("1.5"), LiteralValue::Float("1.5".to_string()));
    assert_eq!(value("2.0"), LiteralValue::Float("2.0".to_string()));
}

#[test]
fn strings_have_their_escapes_expanded() {
    assert_eq!(
        value(r#""a\nb\t\"c\"\\ \0\r\'""#),
        LiteralValue::String("a\nb\t\"c\"\\ \0\r'".to_string())
    );
    assert_eq!(
        value("\"příliš žluťoučký\""),
        LiteralValue::String("příliš žluťoučký".to_string())
    );
    assert_eq!(value("\"\""), LiteralValue::String(String::new()));
}

#[test]
fn other_literals_are_known_or_not() {
    assert_eq!(value("true"), LiteralValue::Bool(true));
    assert_eq!(value("false"), LiteralValue::Bool(false));
    assert_eq!(value("()"), LiteralValue::Unit);
    assert_eq!(
        value("b\"bytes\""),
        LiteralValue::Dynamic(DynamicReason::Expression)
    );
    assert_eq!(
        value("'c'"),
        LiteralValue::Dynamic(DynamicReason::Expression)
    );
    assert_eq!(
        value("(1, 2)"),
        LiteralValue::Dynamic(DynamicReason::Expression)
    );
    assert_eq!(
        value("1 + 2"),
        LiteralValue::Dynamic(DynamicReason::Expression)
    );
}

#[test]
fn objects_have_named_fields() {
    assert_eq!(
        value("#{ a: 1, \"b c\": [true], d }"),
        LiteralValue::Object(vec![
            ("a".to_string(), LiteralValue::Int(1)),
            (
                "b c".to_string(),
                LiteralValue::List(vec![LiteralValue::Bool(true)])
            ),
            (
                "d".to_string(),
                LiteralValue::Dynamic(DynamicReason::Variable("d".to_string()))
            ),
        ])
    );
    // A struct literal is not an anonymous object.
    assert_eq!(
        value("Point { x: 1 }"),
        LiteralValue::Dynamic(DynamicReason::Expression)
    );
}

#[test]
fn calls_are_told_apart() {
    assert_eq!(
        value("http::get(1)"),
        LiteralValue::ResolvedCall {
            name: "http::get".to_string(),
            type_def: TypeDef::Primitive(PrimitiveType::String),
        }
    );
    assert_eq!(
        value("unknown(1)"),
        LiteralValue::Dynamic(DynamicReason::UnannotatedCall("unknown".to_string()))
    );
    assert_eq!(
        value("a.b(1)"),
        LiteralValue::Dynamic(DynamicReason::MethodCall("b".to_string()))
    );
    assert_eq!(
        value("a.b(1)(2)"),
        LiteralValue::Dynamic(DynamicReason::IndirectCall)
    );
    assert_eq!(
        value("Status::Done(1)"),
        LiteralValue::Enum {
            path: vec!["Status".to_string(), "Done".to_string()],
            inner: Some(Box::new(LiteralValue::Int(1))),
        }
    );
    assert_eq!(
        value("Status::Done()"),
        LiteralValue::Enum {
            path: vec!["Status".to_string(), "Done".to_string()],
            inner: None,
        }
    );
    // Of a variant with two values nothing is known.
    assert_eq!(
        value("Status::Done(1, 2)"),
        LiteralValue::Dynamic(DynamicReason::UnannotatedCall("Status::Done".to_string()))
    );
    assert_eq!(
        value("x"),
        LiteralValue::Dynamic(DynamicReason::Variable("x".to_string()))
    );
    assert_eq!(
        value("None"),
        LiteralValue::Enum {
            path: vec!["Option".to_string(), "None".to_string()],
            inner: None,
        }
    );
}

#[test]
fn variants_called_by_their_own_name_are_completed() {
    let segments = |names: &[&str]| names.iter().map(|n| n.to_string()).collect::<Vec<String>>();
    assert_eq!(
        canonical_builtin_variant(&segments(&["Ok"])),
        Some(segments(&["Result", "Ok"]))
    );
    assert_eq!(
        canonical_builtin_variant(&segments(&["None"])),
        Some(segments(&["Option", "None"]))
    );
    assert_eq!(canonical_builtin_variant(&segments(&["Other"])), None);
    assert_eq!(canonical_builtin_variant(&segments(&["a", "Ok"])), None);
}

#[test]
fn scripts_that_do_not_parse_are_refused() {
    match parse_file("fn f( {") {
        Err(CheckerError::RuneParseError(message)) => assert!(!message.is_empty()),
        _ => panic!("not refused"),
    }
}

#[test]
fn functions_are_found_by_name() {
    let source = "struct S; fn g() { 1 } fn f() { 2 } fn f() { 3 }";
    let file = parse_file(source).unwrap();
    assert!(find_function(&file, source, "h").is_none());
    assert!(find_function(&file, source, "S").is_none());
    let item_fn = find_function(&file, source, "f").unwrap();
    assert_eq!(
        find_return_sites(item_fn, source, &registry()),
        vec![number(2)]
    );
}

#[test]
fn doc_comments_stand_before_all_modifiers() {
    for source in [
        "/// @return ()\npub async fn f() {}",
        "/// @return ()\npub(crate) fn f() {}",
        "/// @return ()\nconst fn f() {}",
        "/// @return ()\n\n\nasync fn f() {}",
    ] {
        let file = parse_file(source).expect("parse");
        let item_fn = find_function(&file, source, "f").expect("function found");
        assert_eq!(
            doc_comment_before(source, item_fn),
            Some("@return ()".to_string())
        );
    }
}

#[test]
fn line_comments_are_read_from_the_end() {
    assert_eq!(
        line_doc_comment("/// far\nlet x;\n///   a\n/// b  \n\n"),
        Some("a\nb".to_string())
    );
    // A blank line ends the block.
    assert_eq!(
        line_doc_comment("/// @param a: int\n\n/// @return int\n"),
        Some("@return int".to_string())
    );
    assert_eq!(line_doc_comment("// plain\n"), None);
    assert_eq!(line_doc_comment(""), None);
}

#[test]
fn block_comments_are_read_without_stars() {
    assert_eq!(
        block_doc_comment("/** far */\n/**\n * a\n *b\n   c\n */\n"),
        Some("a\nb\nc".to_string())
    );
    assert_eq!(block_doc_comment("/** a */ /* plain */"), None);
    assert_eq!(block_doc_comment("/**  */"), None);
    assert_eq!(block_doc_comment("/* plain */"), None);
}
