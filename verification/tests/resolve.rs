use grindlang::resolve::resolve;
use grindlang::{Binding, Diagnostics, Resolution, ResolveConfig, Span};

fn resolve_src(src: &str, cfg: &ResolveConfig) -> Result<Resolution, Diagnostics> {
    let module = grindlang::parse(src).expect("parse should succeed for resolver tests");
    resolve(&module, cfg)
}

fn ok(src: &str, cfg: &ResolveConfig) -> Resolution {
    resolve_src(src, cfg).unwrap_or_else(|d| panic!("resolve failed: {}", d.list()))
}

fn err_code(src: &str, cfg: &ResolveConfig) -> String {
    let d = resolve_src(src, cfg).unwrap_err();
    d.0[0].code.to_string()
}

fn empty() -> ResolveConfig {
    ResolveConfig::default()
}

#[test]
fn resolves_params_locals_and_mutual_recursion() {
    ok(
        "function even(n)\n\
           if n == 0 then return true end\n\
           return odd(n - 1)\n\
         end\n\
         function odd(n)\n\
           if n == 0 then return false end\n\
           return even(n - 1)\n\
         end",
        &empty(),
    );
}

#[test]
fn resolves_builtins_and_const_reference_in_body() {
    ok(
        "K = 100\n\
         function f(x)\n\
           return math.floor(x) + K\n\
         end",
        &empty(),
    );
}

#[test]
fn closure_captures_enclosing_local_as_upvalue() {
    let r = ok(
        "function make(base)\n\
           local add = function(x) return x + base end\n\
           return add(1)\n\
         end",
        &empty(),
    );
    // Somewhere a use of `base` resolved to an upvalue.
    let bindings: Vec<&Binding> =
        (0..r.bindings.len()).map(|i| r.bindings.entry(i).unwrap().1).collect();
    assert!(
        bindings.iter().any(|b| matches!(b, Binding::Upvalue(_))),
        "expected an upvalue binding, got {bindings:?}"
    );
}

#[test]
fn resolves_memory_field_access_and_write() {
    let cfg = ResolveConfig::with_memory("mem");
    ok(
        "function spend(n)\n\
           if mem.gold >= n then\n\
             mem.gold = mem.gold - n\n\
             return true\n\
           end\n\
           return false\n\
         end",
        &cfg,
    );
}

#[test]
fn rejects_free_global() {
    assert_eq!(err_code("function f() return ghost end", &empty()), "E0300");
}

#[test]
fn rejects_implicit_global_write() {
    assert_eq!(
        err_code("function f() undeclared = 1 end", &empty()),
        "E0300"
    );
}

#[test]
fn rejects_memory_use_when_not_configured() {
    // Without a memory binding, `mem` is just an unknown name.
    assert_eq!(err_code("function f() return mem.x end", &empty()), "E0300");
}

#[test]
fn rejects_assignment_to_const() {
    assert_eq!(err_code("K = 1\nfunction f() K = 2 end", &empty()), "E0302");
}

#[test]
fn rejects_assignment_to_function() {
    assert_eq!(
        err_code("function g() end\nfunction f() g = 1 end", &empty()),
        "E0302"
    );
}

#[test]
fn rejects_rebinding_memory_handle() {
    let cfg = ResolveConfig::with_memory("mem");
    assert_eq!(err_code("function f() mem = 1 end", &cfg), "E0302");
}

#[test]
fn rejects_break_outside_loop() {
    assert_eq!(err_code("function f() break end", &empty()), "E0306");
}

#[test]
fn break_inside_loop_is_ok() {
    ok(
        "function f(n)\n\
           while n > 0 do\n\
             if n == 3 then break end\n\
             n = n - 1\n\
           end\n\
           return n\n\
         end",
        &empty(),
    );
}

#[test]
fn rejects_break_across_closure_boundary() {
    // The `break` is inside a closure nested in a loop — it must not see the loop.
    assert_eq!(
        err_code(
            "function f()\n\
               while true do\n\
                 local g = function() break end\n\
               end\n\
             end",
            &empty()
        ),
        "E0306"
    );
}

#[test]
fn rejects_non_constant_const_rhs_name() {
    assert_eq!(err_code("A = 1\nB = A", &empty()), "E0303");
}

#[test]
fn rejects_non_constant_const_rhs_call() {
    assert_eq!(err_code("X = f()", &empty()), "E0303");
}

#[test]
fn allows_constant_arithmetic_and_table_const() {
    ok("A = 1 + 2 * 3\nB = { 1, 2, 3 }\nC = -4", &empty());
}

#[test]
fn rejects_duplicate_top_level() {
    assert_eq!(
        err_code("function f() end\nfunction f() end", &empty()),
        "E0305"
    );
}

#[test]
fn rejects_top_level_shadowing_builtin() {
    assert_eq!(err_code("function math() end", &empty()), "E0304");
}

#[test]
fn rejects_ipairs_as_value() {
    assert_eq!(
        err_code("function f() return ipairs end", &empty()),
        "E0301"
    );
}

#[test]
fn resolves_generic_for_loop_var() {
    ok(
        "function sum(t)\n\
           local s = 0\n\
           for _, v in ipairs(t) do\n\
             s = s + v\n\
           end\n\
           return s\n\
         end",
        &empty(),
    );
}

#[test]
fn loop_var_not_visible_after_loop() {
    assert_eq!(
        err_code(
            "function f()\n\
               for i = 1, 10 do end\n\
               return i\n\
             end",
            &empty()
        ),
        "E0300"
    );
}

#[test]
fn resolves_host_function_call() {
    let cfg = ResolveConfig {
        host_functions: vec!["roll_dice".into()],
        memory: vec![],
    };
    ok("function f() return roll_dice(6) end", &cfg);
}

#[test]
fn bound_symbols_have_the_name_and_the_function_of_their_use() {
    let src = "K = 2\nfunction f(a) local g = function(b) return a + b + K end return g(1) end";
    let r = ok(src, &empty());
    let at = |text: &str| {
        let start = src.rfind(text).unwrap();
        r.binding(Span::new(start, start + 1)).unwrap()
    };
    match (at("a + b"), at("b + K"), at("K end")) {
        (Binding::Upvalue(a), Binding::Local(b), Binding::TopConst(k)) => {
            assert_eq!(r.symbols[*a as usize].name, "a");
            assert_eq!(r.symbols[*a as usize].func_depth, 0);
            assert_eq!(r.symbols[*b as usize].name, "b");
            assert_eq!(r.symbols[*b as usize].func_depth, 1);
            assert_eq!(k, "K");
        }
        other => panic!("{other:?}"),
    }
}
