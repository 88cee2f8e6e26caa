use grindlang::ast::{BinOp, ExprKind, Module, TopDecl, UnOp};
use grindlang::lexer::lex;
use grindlang::parser::parse;
use grindlang::{Diagnostics, Severity};

fn parse_src(src: &str) -> Result<Module, Diagnostics> {
    parse(lex(src).unwrap())
}

fn parse_ok(src: &str) -> Module {
    parse_src(src).unwrap_or_else(|d| panic!("parse failed: {}", d.list()))
}

fn err_code(src: &str) -> String {
    let d = parse_src(src).unwrap_err();
    d.0[0].code.to_string()
}

#[test]
fn parses_function_and_const_exports() {
    let m = parse_ok(
        "MAX = 99\n\
         function f(a, b)\n  return a + b\nend",
    );
    assert_eq!(m.decls.len(), 2);
    assert!(matches!(m.decls[0], TopDecl::Const(_)));
    assert!(matches!(m.decls[1], TopDecl::Function(_)));
    assert!(m.export.is_none());
}

#[test]
fn parses_curated_export_table() {
    let m = parse_ok(
        "function f() return 1 end\n\
         return { g = f }",
    );
    let export = m.export.expect("export table");
    assert_eq!(export.node.len(), 1);
}

#[test]
fn precedence_pow_is_right_assoc_and_tighter_than_unary() {
    // -x^2 parses as -(x^2)
    let m = parse_ok("function f(x) return -x^2 end");
    let TopDecl::Function(fd) = &m.decls[0] else {
        panic!()
    };
    let ret = fd.body.block.ret.as_ref().unwrap();
    let ExprKind::Unary { op, operand } = &ret.exprs[0].kind else {
        panic!("expected unary, got {:?}", ret.exprs[0].kind)
    };
    assert_eq!(*op, UnOp::Neg);
    assert!(matches!(
        operand.kind,
        ExprKind::Binary { op: BinOp::Pow, .. }
    ));
}

#[test]
fn precedence_mul_binds_tighter_than_add() {
    let m = parse_ok("function f() return 1 + 2 * 3 end");
    let TopDecl::Function(fd) = &m.decls[0] else {
        panic!()
    };
    let ret = fd.body.block.ret.as_ref().unwrap();
    let ExprKind::Binary { op, rhs, .. } = &ret.exprs[0].kind else {
        panic!()
    };
    assert_eq!(*op, BinOp::Add);
    assert!(matches!(rhs.kind, ExprKind::Binary { op: BinOp::Mul, .. }));
}

#[test]
fn parses_control_flow_and_calls() {
    parse_ok(
        "function f(t)\n\
           local sum = 0\n\
           for i = 1, 10 do\n\
             if i % 2 == 0 then\n\
               sum = sum + i\n\
             end\n\
           end\n\
           for _, v in ipairs(t) do\n\
             sum = sum + v\n\
           end\n\
           return sum\n\
         end",
    );
}

#[test]
fn rejects_top_level_local() {
    assert_eq!(err_code("local x = 1"), "E0103");
}

#[test]
fn rejects_top_level_statement() {
    assert_eq!(err_code("foo()"), "E0104");
}

#[test]
fn rejects_repeat() {
    assert_eq!(
        err_code("function f() repeat local x = 1 until true end"),
        "E0201"
    );
}

#[test]
fn rejects_varargs() {
    assert_eq!(err_code("function f(...) return 1 end"), "E0200");
}

#[test]
fn rejects_goto_label() {
    assert_eq!(err_code("function f() ::top:: end"), "E0202");
}

#[test]
fn rejects_bad_iterator() {
    assert_eq!(
        err_code("function f(t) for k in next(t) do end end"),
        "E0203"
    );
}

#[test]
fn rejects_bad_assignment_target() {
    // A call result is a valid prefix-expression but not an assignable target.
    assert_eq!(err_code("function f() g() = 2 end"), "E0204");
}

#[test]
fn rejects_non_statement_expression() {
    // A parenthesized expression is neither a call nor an assignment.
    assert_eq!(err_code("function f(x) (x) end"), "E0205");
}

#[test]
fn every_operator_is_read_back_from_its_symbol() {
    let ops = [
        BinOp::Add,
        BinOp::Sub,
        BinOp::Mul,
        BinOp::Div,
        BinOp::FloorDiv,
        BinOp::Mod,
        BinOp::Pow,
        BinOp::Concat,
        BinOp::Eq,
        BinOp::Ne,
        BinOp::Lt,
        BinOp::Le,
        BinOp::Gt,
        BinOp::Ge,
        BinOp::And,
        BinOp::Or,
    ];
    for op in ops {
        let m = parse_ok(&format!("function f(a, b) return a {} b end", op.symbol()));
        let TopDecl::Function(f) = &m.decls[0] else { panic!("no function") };
        let ret = f.body.block.ret.as_ref().unwrap();
        assert!(matches!(&ret.exprs[0].kind, ExprKind::Binary { op: o, .. } if *o == op));
    }
}

#[test]
fn every_problem_is_an_error() {
    let sources = [
        "function",
        "function f( return end",
        "local x = 1",
        "function f() x.y end",
        "function f() for i in xs do end end",
        "return 1",
        "function f(...) end",
    ];
    for src in sources {
        let d = parse_src(src).unwrap_err();
        assert!(d.0.iter().all(|x| x.severity == Severity::Error), "{src}");
        assert!(!d.0.is_empty());
    }
}
