//! What holds of the library as a whole, on concrete values.

use rune_typechecker::ast_analyzer::{doc_comment_before, find_function, parse_file};
use rune_typechecker::doc_comment::parse;
use rune_typechecker::signature_registry::build;
use rune_typechecker::static_checker::{admits_try_propagation, check, compare_types};
use rune_typechecker::validation::compare_contracts;
use rune_typechecker::{
    method_signature, validate_script, BuiltinSignature, CheckerError, Contract,
    ContractMismatch, DynamicReason, EnumVariant, Environment, LiteralValue, MethodRegistry, MethodSignature,
    PrimitiveType, ReturnSite, SignatureOrigin, TypeDef,
};

fn ty(text: &str) -> TypeDef {
    TypeDef::parse(text).unwrap()
}

fn returning(text: &str) -> Contract {
    Contract::parse(&format!("() -> {text}")).unwrap()
}

// Notation.

#[test]
fn printed_types_are_read_back() {
    for text in [
        "String",
        "int | ()",
        "[float]",
        "[[bytes] | ()]",
        "{}",
        "{ a: int, b: { c: [bool] } | () }",
        "Status",
        "Result::Ok(int) | Result::Err({ code: int })",
        "Status::Solved | Status::Continue | ()",
        "a::b::C(Some(int))",
        "()",
    ] {
        let type_def = ty(text);
        assert_eq!(type_def.to_string(), text);
        assert_eq!(ty(&type_def.to_string()), type_def);
    }
}

#[test]
fn white_space_in_types_does_not_matter() {
    assert_eq!(ty("  [ Result :: Ok ( int ) | Result::Err(String)]"),
        ty("[Result::Ok(int) | Result::Err(String)]"));
    assert_eq!(ty("{a:int,b:bool,}"), ty("{ a: int, b: bool }"));
}

#[test]
fn texts_that_are_no_types_are_answered_with_a_message() {
    for text in [
        "",
        "[int",
        "{ a int }",
        "{ a: int; }",
        "( int",
        "A(int",
        "A::",
        "() | () | A",
        "int | A",
        "int int",
        "+",
    ] {
        match TypeDef::parse(text) {
            Err(CheckerError::InvalidContractSyntax(message)) => assert!(!message.is_empty()),
            other => panic!("{text}: {other:?}"),
        }
    }
}

#[test]
fn signatures_and_annotations_state_the_same_contract() {
    let signature = Contract::parse("(a: int, b: [String] | ()) -> Status::Done(int)").unwrap();
    let annotated = parse("@param a: int\n@param b: [String] | ()\n@return Status::Done(int)");
    assert_eq!(annotated.unwrap(), signature);
    assert!(Contract::parse("() -> ()").unwrap().params.is_empty());
    assert_eq!(Contract::parse("(a: int,) -> int").unwrap().params.len(), 1);
}

#[test]
fn texts_that_are_no_signatures_are_refused() {
    for text in ["", "a: int) -> int", "(a int) -> int", "(a: int) int", "(a: int) -> int int",
        "(: int) -> int", "(a: int; b: int) -> int", "(a: int) -> "]
    {
        assert!(
            matches!(
                Contract::parse(text),
                Err(CheckerError::InvalidContractSyntax(_))
            ),
            "{text}"
        );
    }
}

#[test]
fn descriptions_and_other_lines_are_ignored() {
    let bare = parse("@param a: int\n@return String").unwrap();
    let described =
        parse("What it does.\n@param a: int the number\n@author me\n\n@return String, always");
    assert_eq!(described.unwrap(), bare);
    // White space parts a primitive type from a description in parentheses.
    assert_eq!(parse("@return String (may be empty)").unwrap(), returning("String"));
    assert_eq!(parse("@param a: int (s)\n@return [int](s)").unwrap(),
        Contract::parse("(a: int) -> [int]").unwrap());
    let variant = TypeDef::Enum(vec![EnumVariant {
        path: vec!["String".to_string()],
        inner: Some(Box::new(ty("int"))),
    }]);
    assert_eq!(parse("@return String(int)").unwrap().return_type, variant);
    assert_eq!(returning("String(int)").return_type, variant);
    assert_eq!(variant.to_string(), "String(int)");
    assert_eq!(parse("@return int | () (or nothing)").unwrap(), returning("int | ()"));
    // An annotation goes by its whole name.
    assert_eq!(parse("@returns int\n@parameter x\n@return[int]").unwrap(), returning("[int]"));
    // Of several return types the last one counts.
    assert_eq!(parse("@return int\n@return String").unwrap(), returning("String"));
}

#[test]
fn both_styles_of_comments_state_the_same_contract() {
    let lines = "/// @param a: int\n/// @return String\nfn f(a) {}";
    let block = "/**\n * @param a: int\n * @return String\n */\nfn f(a) {}";
    let contract = |source: &str| {
        let file = parse_file(source).unwrap();
        let item_fn = find_function(&file, source, "f").unwrap();
        parse(&doc_comment_before(source, item_fn).unwrap()).unwrap()
    };
    assert_eq!(contract(lines), contract(block));
    let linked = "/**\n * See http://example.com/a*b\n * @param a: int\n * @return String\n */\nfn f(a) {}";
    assert_eq!(contract(linked), contract(lines));
}

// Compatibility.

#[test]
fn compatibility_is_reflexive_and_symmetric() {
    let types = [
        ty("int"),
        ty("String | ()"),
        ty("[Status]"),
        ty("[Status::A | Status::B(int)]"),
        ty("{ a: int, b: Status }"),
        ty("{ b: Status::A, a: int }"),
        ty("Status::A | Other::C"),
        ty("()"),
    ];
    for a in &types {
        assert!(a.is_compatible_with(a));
        for b in &types {
            assert_eq!(a.is_compatible_with(b), b.is_compatible_with(a));
        }
    }
    assert!(types[2].is_compatible_with(&types[3]));
    assert!(types[4].is_compatible_with(&types[5]));
    assert!(!types[2].is_compatible_with(&types[6]));
}

#[test]
fn repeated_field_names_are_compatible_both_ways_or_neither() {
    let object = |fields: &[(&str, &str)]| {
        TypeDef::Object(fields.iter().map(|(n, t)| (n.to_string(), ty(t))).collect())
    };
    let twice = object(&[("a", "int"), ("a", "int")]);
    let once = object(&[("a", "int"), ("b", "int")]);
    assert!(!twice.is_compatible_with(&once));
    assert!(!once.is_compatible_with(&twice));
    assert!(twice.is_compatible_with(&twice));
}

// Verdicts.

#[test]
fn each_site_is_in_one_list() {
    let sites = vec![
        ReturnSite::Unit,
        ReturnSite::PrimitiveLiteral(LiteralValue::Int(1)),
        ReturnSite::PrimitiveLiteral(LiteralValue::Bool(true)),
        ReturnSite::Dynamic(DynamicReason::Expression),
        ReturnSite::TryPropagation { line: 3 },
    ];
    let result = check(&sites, &returning("int | ()"));
    assert_eq!(result.verified, vec![sites[0].clone(), sites[1].clone()]);
    assert_eq!(result.unverifiable, vec![sites[3].clone()]);
    assert_eq!(result.violations.len(), 2);
    assert_eq!(result.violations[0].site, sites[2]);
    assert_eq!(result.violations[0].expected, ty("int | ()"));
    assert_eq!(result.violations[0].actual, "expected int, got bool");
    assert_eq!(
        result.violations[1].actual,
        "the `?` operator (line 3) may exit the function early \
         with a None/Err value the contract does not admit"
    );
}

#[test]
fn dynamic_sites_are_never_violations() {
    for reason in [
        DynamicReason::Variable("x".to_string()),
        DynamicReason::UnannotatedCall("f".to_string()),
        DynamicReason::IndirectCall,
        DynamicReason::MethodCall("m".to_string()),
        DynamicReason::TryPropagation,
        DynamicReason::Expression,
    ] {
        let result = check(&[ReturnSite::Dynamic(reason)], &returning("int"));
        assert_eq!(result.unverifiable.len(), 1);
    }
}

#[test]
fn propagation_needs_an_error_variant() {
    assert!(admits_try_propagation(&ty("Result")));
    assert!(admits_try_propagation(&ty("Option | ()")));
    assert!(admits_try_propagation(&ty("Result::Ok(int) | Result::Err(String)")));
    assert!(admits_try_propagation(&ty("Option::None | Option::Some(int)")));
    assert!(!admits_try_propagation(&ty("Result::Ok(int)")));
    assert!(!admits_try_propagation(&ty("Status")));
    assert!(!admits_try_propagation(&ty("int")));
}

fn object(fields: Vec<(&str, LiteralValue)>) -> ReturnSite {
    ReturnSite::ObjectLiteral(fields.into_iter().map(|(n, v)| (n.to_string(), v)).collect())
}

#[test]
fn objects_have_to_have_all_fields() {
    let contract = returning("{ a: int, b: String }");
    let right = object(vec![
        ("b", LiteralValue::String("x".to_string())),
        ("a", LiteralValue::Int(1)),
        ("c", LiteralValue::Unit),
    ]);
    let open = object(vec![
        ("a", LiteralValue::Dynamic(DynamicReason::Expression)),
        ("b", LiteralValue::String("x".to_string())),
    ]);
    let missing = object(vec![("a", LiteralValue::Dynamic(DynamicReason::Expression))]);
    let result = check(&[right.clone(), open.clone(), missing], &contract);
    assert_eq!(result.verified, vec![right]);
    assert_eq!(result.unverifiable, vec![open]);
    assert_eq!(
        result.violations[0].actual,
        "missing field 'b' (expected String)"
    );
}

#[test]
fn lists_have_to_have_right_items() {
    let contract = returning("[int]");
    let list = |items: Vec<LiteralValue>| ReturnSite::PrimitiveLiteral(LiteralValue::List(items));
    let result = check(
        &[
            list(vec![]),
            list(vec![LiteralValue::Int(1), LiteralValue::Int(2)]),
            list(vec![LiteralValue::Int(1), LiteralValue::Dynamic(DynamicReason::IndirectCall)]),
            list(vec![LiteralValue::Dynamic(DynamicReason::IndirectCall), LiteralValue::Unit]),
        ],
        &contract,
    );
    assert_eq!(result.verified.len(), 2);
    assert_eq!(result.unverifiable.len(), 1);
    assert_eq!(
        result.violations[0].actual,
        "list item expected int, got ()"
    );
}

#[test]
fn values_of_other_types_are_told() {
    for (expected, value, actual) in [
        ("()", LiteralValue::Int(1), "expected (), got int"),
        ("[int]", LiteralValue::Unit, "expected a list, got ()"),
        (
            "{ a: int }",
            LiteralValue::List(vec![]),
            "expected an object, got list",
        ),
        (
            "Status::A",
            LiteralValue::String(String::new()),
            "expected an enum variant, got String",
        ),
        (
            "bytes",
            LiteralValue::Float("1.5".to_string()),
            "expected bytes, got float",
        ),
        (
            "int",
            LiteralValue::Enum { path: vec!["A".to_string(), "B".to_string()], inner: None },
            "expected int, got enum variant 'A::B'",
        ),
        (
            "Status::A",
            LiteralValue::Enum { path: vec!["Status".to_string(), "B".to_string()], inner: None },
            "unexpected variant 'Status::B'",
        ),
        (
            "Status::A(int)",
            LiteralValue::Enum { path: vec!["Status".to_string(), "A".to_string()], inner: None },
            "variant 'Status::A' has mismatched arity",
        ),
    ] {
        let site = ReturnSite::PrimitiveLiteral(value);
        assert_eq!(check(&[site], &returning(expected)).violations[0].actual, actual);
    }
}

#[test]
fn variants_are_judged_by_the_alternative_that_suits_them() {
    let contract = returning("Result::Ok(int) | Result::Ok(String) | Result::Err({ a: int })");
    let variant = |name: &str, inner: LiteralValue| ReturnSite::EnumLiteral {
        path: vec!["Result".to_string(), name.to_string()],
        inner: Some(Box::new(inner)),
    };
    let result = check(
        &[
            variant("Ok", LiteralValue::Int(1)),
            variant("Ok", LiteralValue::String("x".to_string())),
            variant("Ok", LiteralValue::Dynamic(DynamicReason::Expression)),
            variant("Ok", LiteralValue::Bool(true)),
            variant("Err", LiteralValue::Unit),
        ],
        &contract,
    );
    assert_eq!(result.verified.len(), 2);
    assert_eq!(result.unverifiable.len(), 1);
    assert_eq!(result.violations[0].actual, "expected int, got bool");
    assert_eq!(result.violations[1].actual, "expected an object, got ()");
}

#[test]
fn called_types_are_compared_by_structure() {
    for (expected, actual, fault) in [
        ("int", "int", None),
        ("int | ()", "()", None),
        ("int | ()", "int | ()", None),
        ("int", "String", Some("returns String, expected int")),
        (
            "{ a: int }",
            "{ b: int }",
            Some("returns an object missing field 'a' (expected int)"),
        ),
        ("{ a: int }", "{ b: bool, a: int }", None),
        (
            "{ a: int }",
            "{ a: bool }",
            Some("field 'a': returns bool, expected int"),
        ),
        ("S::A | S::B", "S::B", None),
        ("S::A", "S::A | S::B", Some("may return unexpected variant 'S::B'")),
        ("S", "S::A(int) | S::B", None),
        (
            "S::A(int)",
            "S::A(bool)",
            Some("variant 'S::A': returns bool, expected int"),
        ),
        ("S::A(int)", "S::A", Some("variant 'S::A' has mismatched arity")),
        ("[int]", "[[int]]", Some("returns [int], expected int")),
        // Each alternative may suit another one of the same name.
        ("R::Ok(int) | R::Ok(String)", "R::Ok(int) | R::Ok(String)", None),
        ("R::Ok(int) | R::Ok(String)", "R::Ok(String)", None),
        (
            "R::Ok(int) | R::Ok(String)",
            "R::Ok(bool)",
            Some("variant 'R::Ok': returns bool, expected int"),
        ),
        ("{ a: int, a: bool }", "{ a: int, a: bool }", None),
    ] {
        assert_eq!(
            compare_types(&ty(expected), &ty(actual)),
            fault.map(str::to_string)
        );
    }
}

// The registry.

#[test]
fn registry_prefers_helpers_and_omits_the_target() {
    let source = "/// @return int\nfn a() { 1 }\n/// @return bool\nfn b() { true }\nfn c() { 1 }";
    let file = parse_file(source).unwrap();
    let builtin = |name: &str| BuiltinSignature {
        name: name.to_string(),
        return_type: ty("String"),
    };
    let builtins = vec![builtin("a"), builtin("b"), builtin("d")];
    let registry = build(&file, source, "a", &builtins).unwrap().signatures;
    assert_eq!(registry.get("a"), Some(&SignatureOrigin::Builtin(ty("String"))));
    assert_eq!(registry.get("b"), Some(&SignatureOrigin::Helper(ty("bool"))));
    assert!(registry.get("c").is_none());
    assert_eq!(registry.get("d"), Some(&SignatureOrigin::Builtin(ty("String"))));
    assert_eq!(registry.len(), 3);
    assert!(build(&file, source, "x", &vec![]).unwrap().signatures.contains_key("a"));
}

#[test]
fn undocumented_helpers_win_over_builtins_too() {
    let source = "fn helper() { 1 }\n/// @return String\nfn process() { helper() }";
    let file = parse_file(source).unwrap();
    let builtins = vec![BuiltinSignature {
        name: "helper".to_string(),
        return_type: ty("String"),
    }];
    let registry = build(&file, source, "process", &builtins).unwrap().signatures;
    assert!(registry.get("helper").is_none());
    let env = Environment { builtins, methods: MethodRegistry::new(vec![]) };
    let report = validate_script(source, "process", None, &env).unwrap();
    assert_eq!(
        report.main.static_result.unverifiable,
        vec![ReturnSite::Dynamic(DynamicReason::UnannotatedCall("helper".to_string()))]
    );
}

#[test]
fn the_first_builtin_of_a_name_counts() {
    let source = "fn c() { 1 }";
    let file = parse_file(source).unwrap();
    let builtins = vec![
        BuiltinSignature { name: "a".to_string(), return_type: ty("int") },
        BuiltinSignature { name: "a".to_string(), return_type: ty("bool") },
    ];
    let registry = build(&file, source, "c", &builtins).unwrap().signatures;
    assert_eq!(registry.get("a"), Some(&SignatureOrigin::Builtin(ty("int"))));
}

// Whole scripts.

#[test]
fn reached_helpers_are_verified_once_and_no_others() {
    let source = "
        /// @return int
        fn main() { return a(); }
        /// @return int
        fn a() { if x { b() } else { main() } }
        /// @return int
        fn b() { return a(); }
        /// @return int
        fn unused() { \"broken\" }
    ";
    let report = validate_script(source, "main", None, &Environment::default()).unwrap();
    assert!(report.is_valid);
    assert_eq!(report.helpers.len(), 2);
    assert!(report.helpers.contains_key("a"));
    assert!(report.helpers.contains_key("b"));
}

#[test]
fn a_broken_helper_fails_the_script_through_others() {
    let source = "
        /// @return int
        fn main() { a() }
        /// @return int
        fn a() { b() }
        /// @return int
        fn b() { \"broken\" }
    ";
    let report = validate_script(source, "main", None, &Environment::default()).unwrap();
    assert!(!report.is_valid);
    assert!(report.main.is_valid);
    assert!(report.helpers.get("a").unwrap().is_valid);
    assert!(!report.helpers.get("b").unwrap().is_valid);
}

#[test]
fn helpers_in_parts_of_a_value_are_reached() {
    let source = "
        /// @return { a: [Result::Ok(int)] }
        fn main() { #{ a: [Ok(helper())] } }
        /// @return int
        fn helper() { true }
    ";
    let report = validate_script(source, "main", None, &Environment::default()).unwrap();
    assert!(report.main.is_valid);
    assert!(!report.is_valid);
}

#[test]
fn each_error_has_its_cause() {
    let env = Environment::default();
    let error = |source: &str| validate_script(source, "f", None, &env).unwrap_err();
    let missing = error("fn g() {}");
    assert_eq!(missing, CheckerError::FunctionNotFound("f".to_string()));
    assert_eq!(missing.to_string(), "Function 'f' not found in script");
    let bare = error("fn f() {}");
    assert_eq!(bare, CheckerError::NoDocComment);
    assert_eq!(bare.to_string(), "Function has no contract doc-comment");
    let invalid = error("/// @return [int\nfn f() {}");
    assert_eq!(
        invalid,
        CheckerError::InvalidContractSyntax("expected ']' in: ''".to_string())
    );
    assert!(invalid.to_string().contains("expected ']'"));
    assert!(matches!(
        error("/// @param a: int\nfn f() {}"),
        CheckerError::InvalidContractSyntax(_)
    ));
    // A helper that nothing calls.
    assert!(matches!(
        error("/// @return int\nfn f() { 1 }\n/// @return [\nfn g() {}"),
        CheckerError::InvalidContractSyntax(_)
    ));
    assert!(matches!(error("fn f( {"), CheckerError::RuneParseError(_)));
}

#[test]
fn expected_signatures_are_compared_by_type() {
    let contract = |text: &str| Contract::parse(text).unwrap();
    let expected = contract("(a: int, b: Status) -> String");
    assert!(compare_contracts(&expected, &expected).is_empty());
    assert!(compare_contracts(&expected, &contract("(x: int, y: Status::A) -> String")).is_empty());
    let mismatches = compare_contracts(&expected, &contract("(a: bool) -> int"));
    assert_eq!(mismatches.len(), 3);
    assert_eq!(mismatches[0], ContractMismatch::ParamCount { expected: 2, actual: 1 });
    assert_eq!(
        mismatches[0].to_string(),
        "expected 2 params, script declares 1"
    );
    assert!(matches!(mismatches[1], ContractMismatch::Param { index: 0, .. }));
    assert!(matches!(mismatches[2], ContractMismatch::ReturnType { .. }));
}

// Methods.

#[test]
fn tables_describe_their_methods_and_the_last_signature_counts() {
    let registry = MethodRegistry::new(vec![
        MethodSignature::new("A", "m", None),
        method_signature("B", "n", "int | ()").unwrap(),
        MethodSignature::new("A", "m", Some(PrimitiveType::Bool).map(TypeDef::Primitive)),
    ]);
    assert!(!registry.is_empty());
    assert!(registry.has_type("A") && registry.has_type("B") && !registry.has_type("C"));
    assert_eq!(registry.lookup("A", "m"), Some(&Some(ty("bool"))));
    assert_eq!(registry.lookup("A", "n"), None);
    assert_eq!(registry.lookup("B", "n"), Some(&Some(ty("int | ()"))));
    assert!(MethodRegistry::new(vec![]).is_empty());
    assert!(method_signature("B", "n", "int |").is_err());
}

fn reported(source: &str) -> Vec<String> {
    let env = Environment {
        builtins: Vec::new(),
        methods: MethodRegistry::new(vec![
            MethodSignature::new("S", "good", None),
            MethodSignature::new("S", "next", Some(ty("Option::Some(S) | Option::None"))),
            MethodSignature::new("T", "other", None),
            MethodSignature::new("Option", "is_some", None),
            MethodSignature::new("Vec", "len", None),
            MethodSignature::new("Object", "len", None),
            MethodSignature::new("i64", "abs", None),
            MethodSignature::new("f64", "floor", None),
        ]),
    };
    let doc = "/// @param s: S\n/// @param u: S | T\n/// @param w: S | Unknown\n/// @return ()";
    let source = format!("{doc}\n{source}");
    let report = validate_script(&source, "f", None, &env).unwrap();
    report
        .main
        .method_violations
        .iter()
        .map(|v| format!("{} {}", v.receiver, v.method))
        .collect()
}

#[test]
fn doubtful_calls_are_not_reported() {
    assert_eq!(reported("fn f(s, u, w) { s.bad(); }"), vec!["S bad"]);
    assert_eq!(reported("fn f(s, u, w) { u.bad(); }"), vec!["S | T bad"]);
    // One of the types has it, or is not described.
    assert!(reported("fn f(s, u, w) { u.other(); w.bad(); }").is_empty());
    assert!(reported("fn f(s, u, w) { x.bad(); s.name.bad(); }").is_empty());
    assert!(reported("fn f(s, u, w) { s.clone(); s.eq(1); s.ne(1); }").is_empty());
    // A struct is no object.
    assert!(reported("fn f(s, u, w) { Point { x: 1 }.bad(); }").is_empty());
    // Nor are fields.
    assert!(reported("fn f(s, u, w) { s.bad; }").is_empty());
}

#[test]
fn types_of_expressions_are_followed() {
    let reports = |body: &str| reported(&format!("fn f(s, u, w) {{ {body} }}"));
    assert_eq!(
        reports("[1].bad(); #{}.bad(); 1.bad(); (s).bad(); s.next().bad(); s.next()?.bad();"),
        vec!["Vec bad", "Object bad", "i64 bad", "S bad", "Option bad", "S bad"]
    );
    assert_eq!(
        reports("let x = s; x.bad(); let x = unknown(); x.bad(); x = s; x.bad();"),
        vec!["S bad", "S bad"]
    );
    assert_eq!(
        reports("if let Some(x) = s.next() { x.bad(); }"),
        vec!["S bad"]
    );
    assert_eq!(reports("s && s.bad(); 1 + s.bad();"), vec!["S bad", "S bad"]);
    // The suffix of a number may tell another type.
    assert_eq!(reports("1i64.bad(); 2i8.bad();"), vec!["i64 bad", "i64 bad"]);
    assert_eq!(reports("1.5f64.bad(); 1.5.bad();"), vec!["f64 bad", "f64 bad"]);
    assert!(reports("1u64.bad(); 1f64.bad();").is_empty());
    // What is called runs before the arguments, and is reported behind them.
    assert_eq!(
        reports("({ x = 1; s }).good(x.abs()); ({ s = 1; x }).good(s.bad());"),
        Vec::<String>::new()
    );
    assert_eq!(reports("s.bad(1.bad());"), vec!["i64 bad", "S bad"]);
    assert_eq!(reports("({ s.bad(); s }).worse(1.bad());"), vec!["i64 bad", "S bad"]);
    assert_eq!(reports("[s.bad()][0] = 1.bad();"), vec!["i64 bad", "S bad"]);
    assert!(reports("s.next((s = 1)).bad();").is_empty());
    assert_eq!(reports("s.good((s = 1)); s.bad();"), vec!["i64 bad"]);
    assert_eq!(
        reports("match s.next() { Some(y) => y.bad(), _ => s.bad() }"),
        vec!["S bad", "S bad"]
    );
    assert_eq!(
        reports("while let Some(x) = s.next() { x.bad(); }"),
        vec!["S bad"]
    );
    assert_eq!(
        reports("g(s.bad(), [s.bad()], || s.bad());"),
        vec!["S bad", "S bad", "S bad"]
    );
}

#[test]
fn assignments_in_doubt_are_forgotten() {
    for body in [
        "if c { s = 1; } s.bad();",
        "if c {} else if (s = 1) {} s.bad();",
        "c && (s = 1); s.bad();",
        "c || (s = 1); s.bad();",
        "if c {} else { s = 1; } s.bad();",
        "match c { 1 if (s = 1) => 2, _ => 3 } s.bad();",
        "match c { 1 => { s = 1; } _ => {} } s.bad();",
        "loop { s.bad(); s = 1; } s.bad();",
        "while c { s.bad(); s = 1; } s.bad();",
        "while (s = 1) { s.bad(); } s.bad();",
        "for x in c { s.bad(); s = 1; } s.bad();",
        "let g = || { s = 1; }; s.bad();",
        "{ s = 1; } s.bad();",
        "select { x = c => { s = 1; } y = (s = 2) => { s.bad(); } } s.bad();",
        "for s in c { s.bad(); }",
        "let g = |s| s.bad();",
        "let (s, t) = c; s.bad();",
        "let #{ s } = c; s.bad();",
        "let [s] = c; s.bad();",
    ] {
        let source = format!("async fn f(s, u, w) {{ {body} }}");
        assert!(reported(&source).is_empty(), "{body}");
    }
}

#[test]
fn other_variables_keep_their_types() {
    for body in [
        "if c { x = 1; let s = 2; } s.bad();",
        "c && (x = 1); s.bad();",
        "c + (x = 1); s.bad();",
        "s.good((x = 1)); s.bad();",
        "match c { s => 2, _ => 3 } s.bad();",
        "for s in c { } s.bad();",
        "let g = |s| { s; }; s.bad();",
        "{ let s = 1; } s.bad();",
        "select { s = c => { x = 1; } } s.bad();",
        "if let Some(s) = c {} s.bad();",
        "loop { x = 1; } s.bad();",
    ] {
        let source = format!("async fn f(s, u, w) {{ {body} }}");
        assert_eq!(reported(&source), vec!["S bad"], "{body}");
    }
}

#[test]
fn without_a_table_nothing_is_reported() {
    let source = "/// @param s: S\n/// @return ()\nfn f(s) { s.bad(); }";
    let report = validate_script(source, "f", None, &Environment::default()).unwrap();
    assert!(report.main.method_violations.is_empty());
}
