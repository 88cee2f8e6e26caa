use grindlang::ir::{lower, verify, ExportTarget};
use grindlang::{Program, Type, TypeConfig};

fn build(src: &str, cfg: &TypeConfig) -> Program {
    let module = grindlang::parse(src).expect("parse");
    let res = grindlang::resolve::resolve(&module, &cfg.to_resolve_config()).expect("resolve");
    let types = grindlang::types::typecheck(&module, &res, cfg).expect("typecheck");
    let program = lower(&module, &res, &types, cfg).expect("lower");
    verify(&program).expect("verify");
    program
}

#[test]
fn lowers_and_verifies_simple_function() {
    let p = build(
        "function add(a, b) return a + b end",
        &TypeConfig::default(),
    );
    assert!(p.functions.contains_key("add"));
    assert_eq!(
        p.exports.get("add"),
        Some(&ExportTarget::Function("add".into()))
    );
    let f = p.functions.get("add").unwrap();
    assert_eq!(f.params.len(), 2);
    assert_eq!(f.ret, Type::Number);
}

#[test]
fn lowers_const_and_curated_export() {
    let p = build(
        "K = 7\nfunction impl() return K end\nreturn { run = impl }",
        &TypeConfig::default(),
    );
    assert!(p.constants.contains_key("K"));
    assert_eq!(
        p.exports.get("run"),
        Some(&ExportTarget::Function("impl".into()))
    );
    assert!(!p.exports.contains_key("impl"));
}

#[test]
fn closures_are_lowered_and_lifted() {
    let p = build(
        "function make(b) local f = function(x) return x + b end return f(1) end",
        &TypeConfig::default(),
    );
    // The anonymous function was lifted into its own function (synthetic `$c` name), and
    // `make` itself verifies.
    let names: Vec<&String> = (0..p.functions.len()).map(|i| p.functions.key(i)).collect();
    assert!(
        names.iter().any(|k| k.contains("$c")),
        "expected a lifted closure function, got {names:?}"
    );
    let lifted = (0..p.functions.len())
        .map(|i| p.functions.value(i))
        .find(|f| f.is_closure)
        .expect("a closure fn");
    assert!(lifted.is_closure);
}
