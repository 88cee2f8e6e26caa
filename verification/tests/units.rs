use grindlang::api::{BuildError, CallError, FromValue, IntoValue, MarshalError};
use grindlang::ast::{BinOp, UnOp};
use grindlang::capture::{boxed_locals, referenced_symbols, upvalues};
use grindlang::codegen::rt::{foreign_closure, Pools, RtCtx};
use grindlang::codegen::translate::{
    clif_ty, closure_signature, env_trampoline_signature, native_math_inst, reprs, translate,
    trampoline_signature, typed_signature, ClifTy, End, Float1, Float2, Inst, JitError, Shim,
};
use grindlang::codegen::{decode_param, encode_ret, plan_module, shims, Decode, Encode};
use grindlang::diagnostics::{Diagnostic, Diagnostics, Severity, Span};
use grindlang::ir::LowerError;
use grindlang::names::{before, NameMap};
use grindlang::number::{index, integer, negate, order, Order};
use grindlang::numeral::{parse_number, Numeral};
use grindlang::runtime::eval::{
    answer, display, field_value, find_plain, lua_format, lua_sub, member_call, value_call,
    MathOp, Outcome, Piece, Reply, Request,
};
use grindlang::types::{Fields, Unifier};
use grindlang::value::{
    arity_error, compare, frozen_error, frozen_value, scalar_eq, value_eq, Heap,
};
use grindlang::{Program, Repr, RunError, Type, TypeConfig, Value};

fn n(x: f64) -> Value {
    Value::Number(x.to_bits())
}

fn s(t: &str) -> Value {
    Value::string(t)
}

fn program(src: &str) -> Program {
    grindlang::compile(src, &TypeConfig::default()).unwrap()
}

// ---- diagnostics ----------------------------------------------------------------

#[test]
fn a_diagnostic_shows_its_line() {
    let src = "K = 1\nx = = 2\n";
    let d = Diagnostic::error("E0001", "odd".to_string(), Span::new(10, 11));
    assert_eq!(d.render(src), "error[E0001]: odd\n  --> 2:5\n   |\n  2| x = = 2\n   |     ^");
    assert_eq!(d.list(), "error[E0001]: odd @ 10..11");
    let w = Diagnostic::warning("W1", "hm".to_string(), Span::dummy());
    assert_eq!(w.severity, Severity::Warning);
    assert_eq!(w.render("ab"), "warning[W1]: hm\n  --> 1:1\n   |\n  1| ab\n   | ^");
}

#[test]
fn carets_end_with_the_line() {
    let d = Diagnostic::error("E1", "m".to_string(), Span::new(1, 9));
    assert_eq!(d.render("abc\ndefgh"), "error[E1]: m\n  --> 1:2\n   |\n  1| abc\n   |  ^^");
    let past = Diagnostic::error("E1", "m".to_string(), Span::new(50, 60));
    assert_eq!(past.render("abc"), "error[E1]: m\n  --> 1:4\n   |\n  1| abc\n   |    ^");
}

#[test]
fn diagnostics_come_one_per_stanza() {
    let mut ds = Diagnostics::new();
    assert!(ds.is_empty() && !ds.has_errors());
    ds.push(Diagnostic::warning("W1", "a".to_string(), Span::new(0, 1)));
    assert!(!ds.has_errors());
    ds.push(Diagnostic::error("E1", "b".to_string(), Span::new(1, 2)));
    assert!(ds.has_errors());
    assert_eq!(ds.list(), "warning[W1]: a @ 0..1\nerror[E1]: b @ 1..2");
    assert_eq!(
        ds.render("xy"),
        "warning[W1]: a\n  --> 1:1\n   |\n  1| xy\n   | ^\n\n\
         error[E1]: b\n  --> 1:2\n   |\n  1| xy\n   |  ^"
    );
}

#[test]
fn spans_join_and_slice() {
    let a = Span::new(2, 4).to(Span::new(6, 9));
    assert_eq!(a, Span::new(2, 9));
    assert_eq!(a.len(), 7);
    assert_eq!(Span::new(1, 3).slice("abcd"), "bc");
    assert!(Span::dummy().is_empty());
}

#[test]
fn rejected_constructs_are_rendered() {
    let diag = |src: &str| match grindlang::parse(src) {
        Ok(_) => panic!("parsed: {src}"),
        Err(d) => d.render(src),
    };
    let first = |src: &str| diag(src).lines().next().unwrap().to_string();
    assert!(first("local g = 1").starts_with("error[E0"));
    assert!(diag("function f(...) end").contains("\n   | "));
    assert!(diag("function f() repeat until true end").contains("--> 1:14"));
}

// ---- numbers --------------------------------------------------------------------

#[test]
fn numbers_are_ordered_by_size() {
    let b = f64::to_bits;
    assert_eq!(order(b(1.0), b(2.0)), Some(Order::Less));
    assert_eq!(order(b(-1.0), b(-2.0)), Some(Order::Greater));
    assert_eq!(order(b(0.0), b(-0.0)), Some(Order::Equal));
    assert_eq!(order(b(f64::NAN), b(0.0)), None);
    assert_eq!(order(b(f64::NEG_INFINITY), b(f64::MIN)), Some(Order::Less));
    assert_eq!(negate(b(1.5)), b(-1.5));
    assert_eq!(negate(negate(b(7.0))), b(7.0));
}

#[test]
fn numbers_as_integers() {
    let b = f64::to_bits;
    assert_eq!(integer(b(3.9)), 3);
    assert_eq!(integer(b(-3.9)), -3);
    assert_eq!(integer(b(f64::NAN)), 0);
    assert_eq!(integer(b(f64::INFINITY)), i64::MAX);
    assert_eq!(integer(b(-1e300)), i64::MIN);
    assert_eq!(index(b(1.0)), Some(1));
    assert_eq!(index(b(3.0)), Some(3));
    assert_eq!(index(b(-1.0)), None);
    assert_eq!(index(b(1.5)), None);
}

#[test]
fn numerals_are_taken_apart() {
    let hex = |t: &str| match parse_number(t) {
        Some(Numeral::Hex { whole, frac, exp }) => (whole, frac, exp),
        other => panic!("not hexadecimal: {other:?}"),
    };
    assert_eq!(hex("0x1F"), (vec![1, 15], vec![], 0));
    assert_eq!(hex("0xA.8p-1"), (vec![10], vec![8], -1));
    assert!(matches!(parse_number("12.5e3"), Some(Numeral::Decimal(t)) if t == "12.5e3"));
    assert!(parse_number("0x").is_none());
    assert!(parse_number("0xZ").is_none());
}

// ---- values ---------------------------------------------------------------------

#[test]
fn a_write_is_read_back() {
    let mut h = Heap::new();
    let a = h.array(vec![n(1.0), n(2.0)]);
    h.array_set(&a, &n(2.0), n(5.0)).unwrap();
    assert_eq!(h.array_get(&a, &n(2.0)).unwrap(), n(5.0));
    assert_eq!(h.array_get(&a, &n(1.0)).unwrap(), n(1.0));
    h.array_set(&a, &n(3.0), n(6.0)).unwrap();
    assert_eq!(h.as_array(&a).unwrap().len(), 3);
    assert_eq!(h.array_get(&a, &n(9.0)).unwrap(), Value::Nil);
    assert!(h.array_set(&a, &n(9.0), n(0.0)).is_err());

    let t = h.empty_table();
    h.table_set(&t, &s("b"), n(2.0)).unwrap();
    h.table_set(&t, &s("a"), n(1.0)).unwrap();
    assert_eq!(h.table_get(&t, &s("b")).unwrap(), n(2.0));
    assert_eq!(h.table_get(&t, &s("z")).unwrap(), Value::Nil);
    assert_eq!(h.keys(&t).unwrap(), vec![s("a"), s("b")]);
    assert_eq!(h.field(&t, "a"), n(1.0));
    assert_eq!(h.field(&n(1.0), "a"), Value::Nil);

    let c = h.cell(n(1.0));
    assert!(h.set_cell(&c, n(4.0)));
    assert_eq!(h.as_cell(&c), Some(&n(4.0)));
    assert!(!h.set_cell(&a, n(4.0)));
}

#[test]
fn equality_is_by_value_or_identity() {
    let mut h = Heap::new();
    let (a, b) = (h.array(vec![]), h.array(vec![]));
    assert!(scalar_eq(&s("x"), &s("x")));
    assert!(!scalar_eq(&s("x"), &n(1.0)));
    let mut h = Heap::new();
    let (t, w) = (h.empty_table(), h.empty_table());
    assert!(scalar_eq(&t, &t.dup()));
    assert!(!scalar_eq(&t, &w));
    assert!(value_eq(&n(0.0), &n(-0.0)));
    assert!(!value_eq(&n(f64::NAN), &n(f64::NAN)));
    assert!(!value_eq(&a, &b));
    assert_eq!(compare(&n(1.0), &n(2.0)), Ok(Order::Less));
    assert_eq!(compare(&s("b"), &s("a")), Ok(Order::Greater));
    assert!(compare(&n(f64::NAN), &n(2.0)).is_err());
    assert!(compare(&n(1.0), &s("a")).is_err());
}

#[test]
fn what_values_are_called() {
    let mut h = Heap::new();
    let (a, t, c) = (h.array(vec![]), h.empty_table(), h.cell(Value::Nil));
    let f = h.closure("f".to_string(), vec![], 7);
    assert!(f.is_foreign(6) && !f.is_foreign(7));
    let names: Vec<&str> =
        [&Value::Nil, &Value::Bool(true), &n(1.0), &s("x"), &a, &t].map(Value::kind_name).to_vec();
    assert_eq!(names, ["nil", "bool", "number", "string", "array", "table"]);
    assert_eq!(Value::Native("h".to_string()).kind_name(), "function");
    assert!(!Value::Nil.is_truthy() && !Value::Bool(false).is_truthy());
    assert!(n(0.0).is_truthy() && c.is_truthy());
}

#[test]
fn constants_are_frozen_by_range() {
    let mut h = Heap::new();
    let (a, b) = (h.array(vec![]), h.array(vec![]));
    assert!(frozen_value(&vec![(0, 1)], &a));
    assert!(!frozen_value(&vec![(0, 1)], &b));
    assert!(!frozen_value(&vec![(0, 1)], &n(0.0)));
    assert_eq!(frozen_error().to_string(), "runtime error: cannot modify a constant");
}

#[test]
fn errors_have_their_texts() {
    assert_eq!(RunError::Host("x".into()).to_string(), "host error: x");
    assert_eq!(RunError::Runtime("x".into()).to_string(), "runtime error: x");
    assert_eq!(RunError::Internal("x".into()).to_string(), "internal interpreter error: x");
    assert_eq!(
        RunError::UnknownExport("x".into()).to_string(),
        "no exported function named `x`"
    );
    assert!(arity_error("f", 2, 1).to_string().ends_with("`f` takes 2 argument(s), got 1"));
    assert!(foreign_closure().to_string().contains("different compiled module"));
    assert_eq!(LowerError::Unsupported("x".into()).to_string(), "unsupported in IR lowering: x");
    assert_eq!(LowerError::Internal("x".into()).to_string(), "internal lowering error: x");
    assert_eq!(JitError::Cranelift("x".into()).to_string(), "cranelift error: x");
    assert_eq!(
        JitError::Unsupported("x".into()).to_string(),
        "unsupported by the JIT backend: x"
    );
    let m = MarshalError::TypeMismatch { expected: "number", found: "nil" };
    assert_eq!(m.to_string(), "expected a number value, found nil");
    assert_eq!(
        CallError::Result(m).to_string(),
        "result marshaling failed: expected a number value, found nil"
    );
    assert_eq!(CallError::Run(RunError::Host("x".into())).to_string(), "host error: x");
    assert_eq!(
        BuildError::Lower(LowerError::Internal("x".into())).to_string(),
        "internal lowering error: x"
    );
}

#[test]
fn a_named_function_is_no_value_for_lowering() {
    let src = "function f(x) return x + 1 end\n\
               function g()\n  local h = f\n  return h(1)\nend";
    match grindlang::compile(src, &TypeConfig::default()) {
        Err(BuildError::Lower(LowerError::Unsupported(m))) => assert!(m.contains("first-class")),
        other => panic!("expected a refusal, got {other:?}"),
    }
}

// ---- marshaling -----------------------------------------------------------------

#[test]
fn arrays_and_options_are_marshaled() {
    let mut h = Heap::new();
    let v = vec![Some("a".to_string()), None].into_value(&mut h);
    assert_eq!(h.as_array(&v).unwrap(), &vec![s("a"), Value::Nil]);
    let back: Vec<Option<String>> = FromValue::from_value(&h, &v).unwrap();
    assert_eq!(back, vec![Some("a".to_string()), None]);
    assert!(<Vec<bool> as FromValue>::from_value(&h, &v).is_err());
    assert_eq!(().into_value(&mut h), Value::Nil);
    assert!(<() as FromValue>::from_value(&h, &n(1.0)).is_ok());
    match <bool as FromValue>::from_value(&h, &n(1.0)) {
        Err(MarshalError::TypeMismatch { expected, found }) => {
            assert_eq!((expected, found), ("bool", "number"))
        }
        Ok(_) => panic!("a number is no bool"),
    }
}

// ---- builtins -------------------------------------------------------------------

fn value_of(r: Result<Outcome, RunError>) -> Value {
    match r {
        Ok(Outcome::Value(v)) => v,
        other => panic!("expected a value, got {other:?}"),
    }
}

#[test]
fn strings_are_cut_by_bytes() {
    assert_eq!(lua_sub("grindlang", 2, 4), "rin");
    assert_eq!(lua_sub("grindlang", -4, -1), "lang");
    assert_eq!(lua_sub("abc", 0, 99), "abc");
    assert_eq!(lua_sub("abc", 3, 2), "");
    // Half of a two-byte character is replaced.
    assert_eq!(lua_sub("é", 1, 1), "\u{fffd}");
    assert_eq!(find_plain("hello", "ll"), Some(2));
    assert_eq!(find_plain("hello", ""), Some(0));
    assert_eq!(find_plain("hello", "z"), None);
}

#[test]
fn case_is_mapped_by_unicode() {
    let h = Heap::new();
    let upper = value_of(member_call(&h, "string", "upper", &vec![s("straße")]));
    assert_eq!(upper, s("STRASSE"));
    let lower = value_of(member_call(&h, "string", "lower", &vec![s("ÀB")]));
    assert_eq!(lower, s("àb"));
}

#[test]
fn formats_are_split_into_pieces() {
    let h = Heap::new();
    let args = vec![s("f"), n(3.9), n(0.5), s("x")];
    let ps = lua_format(&h, "a%d %f%s%%", &args).unwrap();
    assert!(matches!(&ps[0], Piece::Text(t) if t == "a3 "));
    assert!(matches!(&ps[1], Piece::Fixed(b) if *b == 0.5f64.to_bits()));
    assert!(matches!(&ps[2], Piece::Text(t) if t == "x%"));
    assert_eq!(ps.len(), 3);
    let fail = |f: &str| lua_format(&h, f, &args).unwrap_err().to_string();
    assert_eq!(fail("%"), "runtime error: trailing `%` in format string");
    assert_eq!(fail("%q"), "runtime error: unsupported string.format verb `%q`");
    assert!(lua_format(&h, "%d", &vec![s("f"), s("x")]).is_err());
}

#[test]
fn builtins_ask_for_numbers() {
    let h = Heap::new();
    match member_call(&h, "math", "max", &vec![n(1.0), n(2.0)]) {
        Ok(Outcome::Ask(Request::Math(MathOp::Max, a, b))) => {
            assert_eq!((a, b), (1.0f64.to_bits(), 2.0f64.to_bits()))
        }
        other => panic!("expected a request, got {other:?}"),
    }
    assert!(matches!(
        value_call(&h, "tonumber", &vec![s(" 3 ")]),
        Ok(Outcome::Ask(Request::Parse(_)))
    ));
    assert_eq!(value_of(value_call(&h, "tostring", &vec![Value::Bool(true)])), s("true"));
    assert_eq!(field_value("math", "huge").unwrap(), n(f64::INFINITY));
    assert_eq!(field_value("math", "pi").unwrap(), n(std::f64::consts::PI));
    assert!(field_value("math", "tau").is_err());
    assert!(member_call(&h, "math", "nope", &vec![]).is_err());
}

#[test]
fn an_answer_must_fit_its_request() {
    assert_eq!(answer(&Request::Count(2), Reply::Number(2.0f64.to_bits())).unwrap(), n(2.0));
    assert_eq!(answer(&Request::Parse("x".into()), Reply::Maybe(None)).unwrap(), Value::Nil);
    assert!(answer(&Request::Count(2), Reply::Maybe(None)).is_err());
    let q = Request::Host("h".to_string(), vec![]);
    assert_eq!(answer(&q, Reply::Value(s("v"))).unwrap(), s("v"));
    assert!(answer(&q, Reply::Failed(RunError::Host("no".into()))).is_err());
    let show = Request::Show(vec![Piece::Text("a".into()), Piece::General(0)]);
    assert_eq!(answer(&show, Reply::Texts(vec!["0".into()])).unwrap(), s("a0"));
    assert!(answer(&show, Reply::Texts(vec![])).is_err());
}

#[test]
fn a_value_that_contains_itself_is_not_displayed() {
    let mut h = Heap::new();
    let a = h.array(vec![Value::Nil]);
    h.array_set(&a, &n(1.0), a.dup()).unwrap();
    assert!(display(&h, &a, &mut Vec::new()).is_err());
}

// ---- names and types ------------------------------------------------------------

#[test]
fn names_are_kept_in_order() {
    let mut m: NameMap<Value> = NameMap::new();
    for (i, k) in ["b", "é", "a", "z", "b"].iter().enumerate() {
        m.insert(k.to_string(), n(i as f64));
    }
    let keys: Vec<&String> = (0..m.len()).map(|i| m.key(i)).collect();
    assert_eq!(keys, ["a", "b", "z", "é"]);
    assert_eq!(m.get("b"), Some(&n(4.0)));
    assert!(before("a", "ab") && !before("b", "ab"));
}

#[test]
fn unified_types_become_equal() {
    let mut u = Unifier::new();
    let (a, b) = (u.fresh(), u.fresh());
    let f = Type::function(vec![a.dup(), Type::Number], b.dup());
    let g = Type::function(vec![Type::array(b.dup()), b.dup()], Type::Number);
    assert!(u.unify(&f, &g));
    assert_eq!(u.deep(&f), u.deep(&g));
    assert_eq!(u.deep(&f).to_string(), "fn(array<number>, number) -> number");
    assert_eq!(u.shallow(&a), Type::array(b.dup()));
}

#[test]
fn a_variable_never_contains_itself() {
    let mut u = Unifier::new();
    let (a, b) = (u.fresh(), u.fresh());
    assert!(u.unify(&a, &Type::optional(b.dup())));
    assert!(!u.unify(&b, &Type::array(a.dup())));
    assert_eq!(u.deep(&a), Type::optional(b.dup()));
    assert!(u.unify(&a, &Type::Error));
}

#[test]
fn a_type_fits_its_optional() {
    let mut u = Unifier::new();
    let opt = Type::optional(Type::Number);
    assert!(u.is_assignable(&Type::Number, &opt));
    assert!(u.is_assignable(&Type::Nil, &opt));
    assert!(!u.is_assignable(&opt, &Type::Number));
    assert!(!u.is_assignable(&Type::String, &opt));
}

#[test]
fn types_are_spelled() {
    let mut fs = Fields::new();
    fs.insert("y".to_string(), Type::Bool);
    fs.insert("x".to_string(), Type::optional(Type::Number));
    assert_eq!(Type::Record(fs).to_string(), "record { x: number?, y: bool }");
    assert_eq!(Type::map(Type::String).to_string(), "map<string, string>");
    assert_eq!(Type::Userdata("U".into()).to_string(), "userdata<U>");
    assert_eq!(Type::Unit.to_string(), "()");
}

#[test]
fn operators_have_their_symbols() {
    assert_eq!(BinOp::FloorDiv.symbol(), "//");
    assert_eq!(BinOp::Ne.symbol(), "~=");
    assert_eq!(UnOp::Not.symbol(), "not");
}

// ---- captures -------------------------------------------------------------------

#[test]
fn captured_variables_live_in_cells() {
    let src = "function make(n)\n  local k = 1\n  local function add(x)\n    return x + n\n  \
               end\n  return add\nend";
    let (module, res) = grindlang::check(src, &grindlang::ResolveConfig::default()).unwrap();
    let body = match &module.decls[0] {
        grindlang::ast::TopDecl::Function(f) => &f.body,
        other => panic!("expected a function, got {other:?}"),
    };
    let boxed = boxed_locals(&res, body, 0);
    let names: Vec<&str> =
        boxed.iter().map(|id| res.symbols[*id as usize].name.as_str()).collect();
    assert_eq!(names, ["n"]);
    assert!(upvalues(&res, body, 0).is_empty());
    assert!(referenced_symbols(&res, body).iter().count() >= 2);
}

// ---- machine code ---------------------------------------------------------------

#[test]
fn signatures_start_with_the_context() {
    let sig = typed_signature(&vec![Repr::Number, Repr::Unit, Repr::Bool], Repr::Ptr);
    assert_eq!(sig.params, vec![ClifTy::I64, ClifTy::F64, ClifTy::I8]);
    assert_eq!(sig.ret, Some(ClifTy::I64));
    assert_eq!(closure_signature(&vec![Repr::Number], Repr::Unit).params.len(), 3);
    assert_eq!(closure_signature(&vec![], Repr::Unit).ret, None);
    let t = trampoline_signature();
    assert_eq!(t.params, vec![ClifTy::I64, ClifTy::I64, ClifTy::I32]);
    assert_eq!(env_trampoline_signature().params.len(), 4);
    assert_eq!(clif_ty(Repr::Unit), None);
    assert_eq!(reprs(&vec![Type::Bool, Type::String]), vec![Repr::Bool, Repr::Ptr]);
    assert_eq!(native_math_inst("sqrt"), Some(Float1::Sqrt));
    assert_eq!(native_math_inst("max"), None);
    assert_eq!(decode_param(Repr::Bool), Some(Decode::Narrow));
    assert_eq!(encode_ret(Repr::Unit), Encode::Zero);
}

#[test]
fn every_runtime_function_has_a_symbol_of_its_own() {
    let all = shims();
    for (i, a) in all.iter().enumerate() {
        assert!(a.name().starts_with("rt_"));
        for b in &all[..i] {
            assert_ne!(a.name(), b.name());
        }
    }
    assert_eq!(Shim::Pow.signature().params, vec![ClifTy::F64, ClifTy::F64]);
}

#[test]
fn arithmetic_becomes_machine_instructions() {
    let p = program("function f(a, b) return a * b + 1 end");
    let f = p.functions.get("f").unwrap();
    let (code, _) = translate(&p, f, Pools::default()).unwrap();
    let ops: Vec<&Inst> = code
        .insts
        .iter()
        .filter(|i| matches!(i, Inst::Float2(..) | Inst::Float(_) | Inst::Call(..)))
        .collect();
    assert!(matches!(ops[0], Inst::Float2(Float2::Mul, _, _)));
    assert!(matches!(ops[1], Inst::Float(Numeral::Decimal(t)) if t == "1"));
    assert!(matches!(ops[2], Inst::Float2(Float2::Add, _, _)));
    assert_eq!(ops.len(), 3);
    assert!(matches!(code.blocks[0].term, End::Return(_)));

    let (plan, _) = plan_module(&p).unwrap();
    let f = plan.functions.get("f").unwrap();
    assert_eq!(f.symbol, "fn_f");
    assert_eq!(f.trampoline, "tr_f");
    assert_eq!(f.params, vec![Repr::Number, Repr::Number]);
    assert!(!f.is_closure);
}

#[test]
fn names_are_interned_once() {
    let mut pools = Pools::default();
    assert_eq!(pools.intern_string("a"), 0);
    assert_eq!(pools.intern_string("b"), 1);
    assert_eq!(pools.intern_string("a"), 0);
    assert_eq!(pools.intern_name("a"), 0);
    assert_eq!(pools.intern_builtin_member("math", "max"), 0);
    assert_eq!(pools.intern_builtin_member("math", "min"), 1);
    assert_eq!(pools.intern_host("h"), 0);
    assert_eq!(pools.intern_memory("m"), 0);
    assert_eq!(pools.intern_builtin_value("tostring"), 0);
    assert_eq!(pools.intern_namespace_field("math", "pi"), 0);
    assert_eq!(pools.intern_closure_name("f$c0"), 0);
    assert_eq!(pools.intern_constant("K"), 0);
    assert_eq!(pools.strings, ["a", "b"]);
}

fn context() -> RtCtx {
    RtCtx::new(Pools::default(), vec![], vec![], NameMap::new(), Heap::new(), 1)
}

#[test]
fn values_cross_the_boundary_as_words() {
    let mut c = context();
    assert_eq!(c.encode_arg(n(2.5), Repr::Number).unwrap(), 2.5f64.to_bits());
    assert_eq!(c.encode_arg(Value::Bool(true), Repr::Bool).unwrap(), 1);
    let w = c.encode_arg(s("x"), Repr::Ptr).unwrap();
    assert_eq!(c.decode_ret(w, Repr::Ptr), s("x"));
    assert_eq!(c.decode_ret(0, Repr::Unit), Value::Nil);
    assert!(c.encode_arg(s("x"), Repr::Number).is_err());
    let args = vec![n(1.0), Value::Bool(false)];
    let words = c.encode_args(&vec![Repr::Number, Repr::Bool], &args).unwrap();
    assert_eq!(words, vec![1.0f64.to_bits(), 0]);
}

#[test]
fn the_first_failure_stays() {
    let mut c = context();
    assert!(!c.errored());
    let h = c.box_number(1.0f64.to_bits());
    assert!(!c.unbox_bool(h));
    c.fail(RunError::Host("later".into()));
    assert!(c.errored());
    let e = c.take_error().unwrap();
    assert!(!e.to_string().contains("later"));
    assert!(!c.errored());
    let k = c.intern(s("k"));
    assert_eq!(c.value(k), s("k"));
    assert!(!c.has_code("f"));
}

#[test]
fn parts_of_a_text_make_it_up() {
    let text = "grindlang";
    assert_eq!(lua_sub(text, 1, -1), text);
    for k in 0..=9 {
        assert_eq!(format!("{}{}", lua_sub(text, 1, k), lua_sub(text, k + 1, -1)), text);
        assert_eq!(lua_sub(text, 0, k), lua_sub(text, 1, k));
    }
    assert_eq!(lua_sub(text, -4, -1), "lang");
}
