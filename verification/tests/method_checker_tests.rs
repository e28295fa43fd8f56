//! Calls of methods.

use rune_typechecker::ast_analyzer::{doc_comment_before, find_function, parse_file};
use rune_typechecker::doc_comment::parse;
use rune_typechecker::method_checker::check;
use rune_typechecker::{
    MethodRegistry, MethodSignature, MethodViolation, PrimitiveType, SignatureRegistry, TypeDef,
};

fn registry() -> MethodRegistry {
    MethodRegistry::new(vec![
        MethodSignature::new(
            "Sender",
            "name",
            Some(TypeDef::Primitive(PrimitiveType::String)),
        ),
        MethodSignature::new("Sender", "fullname", None),
        MethodSignature::new("String", "to_uppercase", None),
        MethodSignature::new(
            "AppContext",
            "lookup",
            Some(TypeDef::parse("Option::Some(ComponentContext) | Option::None").unwrap()),
        ),
        MethodSignature::new("ComponentContext", "set_value", None),
        MethodSignature::new("Option", "unwrap_or", None),
        MethodSignature::new("Status", "dummy", None),
    ])
}

fn violations(source: &str) -> Vec<MethodViolation> {
    let file = parse_file(source).expect("parse");
    let item_fn = find_function(&file, source, "handler").expect("fn");
    let doc = doc_comment_before(source, item_fn).expect("doc");
    let contract = parse(&doc).expect("contract");
    let sig_registry = SignatureRegistry::default();
    check(item_fn, source, &contract, &sig_registry, &registry())
}

#[test]
fn missing_method_on_param_is_reported() {
    let out = violations(
        "/// @param sender: Sender\n/// @return String\nfn handler(sender) {\n\tsender.neexistuje()\n}\n",
    );
    assert_eq!(out.len(), 1);
    assert_eq!(out[0].receiver, "Sender");
    assert_eq!(out[0].method, "neexistuje");
    assert_eq!(out[0].line, 4);
}

#[test]
fn existing_method_passes() {
    let out = violations(
        "/// @param sender: Sender\n/// @return String\nfn handler(sender) {\n\tsender.name()\n}\n",
    );
    assert!(out.is_empty());
}

#[test]
fn chained_call_is_checked() {
    // name() -> String; String has no `to_uppercasee`.
    let out = violations(
        "/// @param sender: Sender\n/// @return String\nfn handler(sender) {\n\tsender.name().to_uppercasee()\n}\n",
    );
    assert_eq!(out.len(), 1);
    assert_eq!(out[0].receiver, "String");
    assert_eq!(out[0].method, "to_uppercasee");
}

#[test]
fn let_binding_carries_type() {
    let out = violations(
        "/// @param sender: Sender\n/// @return String\nfn handler(sender) {\n\tlet n = sender.name();\n\tn.wrong()\n}\n",
    );
    assert_eq!(out.len(), 1);
    assert_eq!(out[0].receiver, "String");
}

#[test]
fn if_let_unwraps_success_type() {
    let src = "/// @param context: AppContext\n/// @return ()\nfn handler(context) {\n\tif let Some(c) = context.lookup(\"x\") {\n\t\tc.wrong();\n\t\tc.set_value(1);\n\t}\n}\n";
    let out = violations(src);
    assert_eq!(out.len(), 1);
    assert_eq!(out[0].receiver, "ComponentContext");
    assert_eq!(out[0].method, "wrong");
}

#[test]
fn union_needs_method_on_no_member_to_report() {
    // The union comes from the contract of the parameter.
    let src = "/// @param x: Status::Solved | Option::None\n/// @return ()\nfn handler(x) {\n\tx.unwrap_or(1);\n\tx.wrong()\n}\n";
    let out = violations(src);
    // unwrap_or exists on Option; wrong exists neither on Status nor on Option.
    assert_eq!(out.len(), 1);
    assert_eq!(out[0].method, "wrong");
}

#[test]
fn unknown_receiver_type_is_skipped() {
    let out = violations(
        "/// @param x: UnknownType\n/// @return ()\nfn handler(x) {\n\tx.whatever()\n}\n",
    );
    assert!(out.is_empty());
}

#[test]
fn reassigned_in_branch_poisons_outer_type() {
    // The branch assigns `n` a value of unknown type.
    let src = "/// @param sender: Sender\n/// @param c: bool\n/// @return ()\nfn handler(sender, c) {\n\tlet n = sender.name();\n\tif c {\n\t\tn = unknown();\n\t}\n\tn.wrong()\n}\n";
    let out = violations(src);
    assert!(out.is_empty(), "unknown after the assignment in the branch: {:?}", out);
}

#[test]
fn closure_param_shadows_type() {
    let src = "/// @param sender: Sender\n/// @return ()\nfn handler(sender) {\n\tlet f = |sender| sender.wrong();\n\tf(1)\n}\n";
    let out = violations(src);
    assert!(out.is_empty(), "the parameter of the closure shadows the type: {:?}", out);
}

#[test]
fn method_inside_closure_is_checked() {
    let src = "/// @param sender: Sender\n/// @return ()\nfn handler(sender) {\n\tlet f = || sender.wrong();\n\tf()\n}\n";
    let out = violations(src);
    assert_eq!(out.len(), 1);
    assert_eq!(out[0].method, "wrong");
}

#[test]
fn universal_protocol_methods_pass() {
    let out = violations(
        "/// @param sender: Sender\n/// @return ()\nfn handler(sender) {\n\tsender.clone();\n\tsender.eq(sender)\n}\n",
    );
    assert!(out.is_empty());
}

#[test]
fn try_unwrap_carries_inner_type() {
    let src = "/// @param context: AppContext\n/// @return Option\nfn handler(context) {\n\tlet c = context.lookup(\"x\")?;\n\tc.wrong();\n\tSome(1)\n}\n";
    let out = violations(src);
    assert_eq!(out.len(), 1);
    assert_eq!(out[0].receiver, "ComponentContext");
}

#[test]
fn match_arm_unwrap_binding() {
    let src = "/// @param context: AppContext\n/// @return ()\nfn handler(context) {\n\tmatch context.lookup(\"x\") {\n\t\tSome(c) => c.wrong(),\n\t\t_ => {},\n\t}\n}\n";
    let out = violations(src);
    assert_eq!(out.len(), 1);
    assert_eq!(out[0].receiver, "ComponentContext");
}
