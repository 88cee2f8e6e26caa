use grindlang::names::NameMap;
use grindlang::types::{typecheck, Fields};
use grindlang::{Diagnostics, FnType, Type, TypeConfig, TypeInfo};

fn analyze(src: &str, cfg: &TypeConfig) -> Result<TypeInfo, Diagnostics> {
    let module = grindlang::parse(src).expect("parse should succeed");
    let res = grindlang::resolve::resolve(&module, &cfg.to_resolve_config())
        .expect("resolve should succeed");
    typecheck(&module, &res, cfg)
}

fn ok(src: &str, cfg: &TypeConfig) -> TypeInfo {
    analyze(src, cfg).unwrap_or_else(|d| panic!("typecheck failed: {}", d.list()))
}

fn err_code(src: &str, cfg: &TypeConfig) -> String {
    analyze(src, cfg).unwrap_err().0[0].code.to_string()
}

fn empty() -> TypeConfig {
    TypeConfig::default()
}

#[test]
fn infers_numeric_params_from_usage() {
    let info = ok("function add(a, b) return a + b end", &empty());
    let f = info.exports.get("add").unwrap();
    assert_eq!(f.to_string(), "fn(number, number) -> number");
}

#[test]
fn infers_const_types() {
    let info = ok("K = 1 + 2\nNAME = \"hi\"\nFLAG = true", &empty());
    assert_eq!(*info.exports.get("K").unwrap(), Type::Number);
    assert_eq!(*info.exports.get("NAME").unwrap(), Type::String);
    assert_eq!(*info.exports.get("FLAG").unwrap(), Type::Bool);
}

#[test]
fn mutual_recursion_infers_bool_return() {
    let info = ok(
        "function even(n)\n\
           if n == 0 then return true end\n\
           return odd(n - 1)\n\
         end\n\
         function odd(n)\n\
           if n == 0 then return false end\n\
           return even(n - 1)\n\
         end",
        &empty(),
    );
    assert_eq!(info.exports.get("even").unwrap().to_string(), "fn(number) -> bool");
}

#[test]
fn array_literal_and_length() {
    let info = ok(
        "function f()\n\
           local xs = { 1, 2, 3 }\n\
           return #xs\n\
         end",
        &empty(),
    );
    assert_eq!(info.exports.get("f").unwrap().to_string(), "fn() -> number");
}

#[test]
fn record_literal_is_inferred() {
    let info = ok("P = { x = 1, y = 2 }", &empty());
    assert_eq!(
        info.exports.get("P").unwrap().to_string(),
        "record { x: number, y: number }"
    );
}

#[test]
fn builtin_math_call_types() {
    let info = ok("function f(x) return math.floor(x) end", &empty());
    assert_eq!(info.exports.get("f").unwrap().to_string(), "fn(number) -> number");
}

#[test]
fn condition_must_be_bool() {
    // A known non-bool condition is rejected. (A bare param `if x then` instead
    // *infers* `x: bool`, which is correct and exercised elsewhere.)
    assert_eq!(
        err_code("function f() if 1 then return 1 end return 0 end", &empty()),
        "E0400"
    );
}

#[test]
fn bare_param_condition_infers_bool() {
    let info = ok(
        "function f(x) if x then return 1 end return 0 end",
        &empty(),
    );
    assert_eq!(info.exports.get("f").unwrap().to_string(), "fn(bool) -> number");
}

#[test]
fn arithmetic_on_string_is_error() {
    assert_eq!(
        err_code("function f() return \"a\" + 1 end", &empty()),
        "E0401"
    );
}

#[test]
fn equality_requires_matching_types() {
    assert_eq!(
        err_code("function f() return 1 == \"a\" end", &empty()),
        "E0454"
    );
}

#[test]
fn call_arity_is_checked() {
    assert_eq!(
        err_code(
            "function g(a) return a end\nfunction f() return g(1, 2) end",
            &empty()
        ),
        "E0430"
    );
}

#[test]
fn argument_type_is_checked() {
    assert_eq!(
        err_code(
            "function g(a) return a + 1 end\nfunction f() return g(\"x\") end",
            &empty()
        ),
        "E0402"
    );
}

#[test]
fn ambiguous_param_is_rejected() {
    // `x` is passed through without any type-determining use.
    assert_eq!(err_code("function f(x) return x end", &empty()), "E0410");
}

#[test]
fn mixed_table_shape_is_rejected() {
    assert_eq!(err_code("P = { 1, x = 2 }", &empty()), "E0443");
}

#[test]
fn record_field_access_unknown_field() {
    assert_eq!(
        err_code(
            "function f()\n\
               local p = { a = 1 }\n\
               return p.b\n\
             end",
            &empty()
        ),
        "E0420"
    );
}

#[test]
fn multiple_returns_rejected() {
    assert_eq!(err_code("function f() return 1, 2 end", &empty()), "E0412");
}

#[test]
fn return_type_must_be_consistent() {
    assert_eq!(
        err_code(
            "function f(b)\n\
               if b == 0 then return 1 end\n\
               return \"x\"\n\
             end",
            &empty()
        ),
        "E0413"
    );
}

#[test]
fn narrowing_optional_then_branch() {
    // Array indexing yields T?; narrowing makes it usable as T.
    let info = ok(
        "function first(xs)\n\
           local v = xs[1]\n\
           if v ~= nil then\n\
             return v + 0\n\
           end\n\
           return 0\n\
         end",
        &empty(),
    );
    assert_eq!(
        info.exports.get("first").unwrap().to_string(),
        "fn(array<number>) -> number"
    );
}

#[test]
fn memory_record_field_read_and_write() {
    let mut memory = NameMap::new();
    let mut rec = Fields::new();
    rec.insert("gold".to_string(), Type::Number);
    memory.insert("mem".to_string(), Type::Record(rec));
    let cfg = TypeConfig {
        host_functions: NameMap::new(),
        memory,
    };
    ok(
        "function spend(n)\n\
           if mem.gold >= n then\n\
             mem.gold = mem.gold - n\n\
             return true\n\
           end\n\
           return false\n\
         end",
        &cfg,
    );
}

#[test]
fn host_function_signature_is_used() {
    let mut host = NameMap::new();
    host.insert(
        "roll".to_string(),
        FnType {
            params: vec![Type::Number],
            ret: Box::new(Type::Number),
        },
    );
    let cfg = TypeConfig {
        host_functions: host,
        memory: NameMap::new(),
    };
    let info = ok("function f() return roll(6) end", &cfg);
    assert_eq!(info.exports.get("f").unwrap().to_string(), "fn() -> number");
}

#[test]
fn string_concat_types() {
    let info = ok("function f(a) return a .. \"!\" end", &empty());
    assert_eq!(info.exports.get("f").unwrap().to_string(), "fn(string) -> string");
}

#[test]
fn explicit_export_table_drives_signature() {
    let info = ok(
        "function helper() return 1 end\n\
         function pub() return helper() end\n\
         return { run = pub }",
        &empty(),
    );
    assert!(info.exports.contains_key("run"));
    assert!(!info.exports.contains_key("pub"));
    assert!(!info.exports.contains_key("helper"));
}

#[test]
fn exports_have_types_without_variables() {
    assert_eq!(err_code("C = {}", &empty()), "E0410");
    assert_eq!(err_code("function f() return f() end", &empty()), "E0410");
    let info = ok("C = {1, 2}\nfunction f(n) if n > 0 then return f(n - 1) end return n end", &empty());
    assert!(!info.exports.get("C").unwrap().has_var());
    assert_eq!(info.exports.get("f").unwrap().to_string(), "fn(number) -> number");
}
