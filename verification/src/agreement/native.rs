//! Compiled code agrees with both machines on straight functions of numbers: its
//! instructions, executed one after the other, leave in the returned register the number
//! that a call comes to.

use vstd::prelude::*;

use super::calls::{
    after_local, block_meaning, block_size, call_meaning, closed_off, declaration, ids_of, l_rest,
    lemma_grown, lemma_local_lowered, lemma_rest_lowered, lemma_terminate, lemma_uncelled,
    lemma_whole, straight, straight_function, uncelled,
};
use super::{
    has_room, instrs, lemma_emit, lemma_lowered, lemma_read, meaning, plain, size, uncaptured,
    Answers, Env,
};
use crate::ast::{BinOp, BlockV, ExprKindV, ExprV, FuncBodyV, UnOp};
use crate::codegen::rt::PoolsV;
use crate::codegen::translate::{
    any_fallible, fallible, machine_code_of, reg_of, result_class, translate_op_of, unfold_x_blocks,
    unfold_x_instrs, x_arith, x_as, x_binary, x_both, x_define, x_instr, x_instrs, x_local,
    x_settled, x_term, End, Float1, Float2, InstV, MachineBlock, Reg, Shim, Tr,
};
use crate::ir::lower::{l_expr, l_function, unfold_l_expr, unfold_l_stats, Low, Tables};
use crate::ir::vm;
use crate::ir::{FunctionV, InstrV, LocalId, OpV, ProgramV, Terminator, ValueId};
use crate::number::negated;
use crate::resolve::{ResolutionV, SymbolId};
use crate::runtime::eval::{MathOp, ReplyV, RequestV};
use crate::runtime::repr::repr_of;
use crate::runtime::Repr;
use crate::value::ValueV;

verus! {

/// The number that a request is answered with.
pub open spec fn number(o: Answers, q: RequestV) -> u64 {
    match (o.reply)(q) {
        ReplyV::Number(b) => b,
        _ => 0,
    }
}

/// The result of an arithmetic operator.
pub open spec fn arith(o: Answers, op: BinOp, a: u64, b: u64) -> u64 {
    number(o, RequestV::Arith(op, a, b))
}

/// A number rounded down.
pub open spec fn floor(o: Answers, a: u64) -> u64 {
    number(o, RequestV::Math(MathOp::Floor, a, 0))
}

/// Whether numbers are answered with numbers, and floor division and modulo as they follow
/// from division.
pub open spec fn coherent(o: Answers) -> bool {
    &&& forall|n: crate::numeral::NumeralV| #[trigger] (o.reply)(RequestV::Numeral(n)) is Number
    &&& forall|op: BinOp, a: u64, b: u64| #[trigger] (o.reply)(RequestV::Arith(op, a, b)) is Number
    &&& forall|a: u64, b: u64| #[trigger]
        arith(o, BinOp::FloorDiv, a, b) == floor(o, arith(o, BinOp::Div, a, b))
    &&& forall|a: u64, b: u64| #[trigger]
        arith(o, BinOp::Mod, a, b) == arith(
            o,
            BinOp::Sub,
            a,
            arith(o, BinOp::Mul, floor(o, arith(o, BinOp::Div, a, b)), b),
        )
}

/// The state of compiled code: the results of the instructions so far, and the variables.
pub ghost struct Machine {
    pub regs: Seq<u64>,
    pub vars: Map<LocalId, u64>,
}

/// The result of an instruction on numbers.
pub open spec fn result_of(o: Answers, m: Machine, i: InstV) -> u64 {
    match i {
        InstV::Float(n) => number(o, RequestV::Numeral(n)),
        InstV::GetVar(id) => m.vars[id],
        InstV::Float1(Float1::Neg, a) => negated(m.regs[a as int]),
        InstV::Float1(Float1::Floor, a) => floor(o, m.regs[a as int]),
        InstV::Float2(op, a, b) => arith(
            o,
            match op {
                Float2::Add => BinOp::Add,
                Float2::Sub => BinOp::Sub,
                Float2::Mul => BinOp::Mul,
                Float2::Div => BinOp::Div,
            },
            m.regs[a as int],
            m.regs[b as int],
        ),
        InstV::Call(Shim::Pow, rs) => arith(
            o,
            BinOp::Pow,
            m.regs[rs[0] as int],
            m.regs[rs[1] as int],
        ),
        _ => 0,
    }
}

/// The state after an instruction.
pub open spec fn performed(o: Answers, m: Machine, i: InstV) -> Machine {
    Machine {
        regs: m.regs.push(result_of(o, m, i)),
        vars: match i {
            InstV::SetVar(id, r) => m.vars.insert(id, m.regs[r as int]),
            _ => m.vars,
        },
    }
}

/// The state after the instructions up to `n`.
pub open spec fn run(o: Answers, insts: Seq<InstV>, m: Machine, n: int) -> Machine
    decreases n - m.regs.len(),
{
    if m.regs.len() < n {
        run(o, insts, performed(o, m, insts[m.regs.len() as int]), n)
    } else {
        m
    }
}

proof fn lemma_run(o: Answers, insts: Seq<InstV>, m: Machine, a: int, b: int)
    requires
        m.regs.len() <= a <= b,
    ensures
        run(o, insts, run(o, insts, m, a), b) == run(o, insts, m, b),
        run(o, insts, m, a).regs.len() == a,
    decreases a - m.regs.len(),
{
    if m.regs.len() < a {
        lemma_run(o, insts, performed(o, m, insts[m.regs.len() as int]), a, b);
    }
}

/// What follows is not looked at.
proof fn lemma_run_prefix(o: Answers, short: Seq<InstV>, long: Seq<InstV>, m: Machine, n: int)
    requires
        begun(short, long),
        n <= short.len(),
    ensures
        run(o, short, m, n) == run(o, long, m, n),
    decreases n - m.regs.len(),
{
    if m.regs.len() < n {
        assert(long[m.regs.len() as int] == short[m.regs.len() as int]);
        lemma_run_prefix(o, short, long, performed(o, m, short[m.regs.len() as int]), n);
    }
}

/// Results stay.
proof fn lemma_run_keeps(o: Answers, insts: Seq<InstV>, m: Machine, n: int, k: int)
    requires
        0 <= k < m.regs.len(),
    ensures
        run(o, insts, m, n).regs[k] == m.regs[k],
        k < run(o, insts, m, n).regs.len(),
    decreases n - m.regs.len(),
{
    if m.regs.len() < n {
        lemma_run_keeps(o, insts, performed(o, m, insts[m.regs.len() as int]), n, k);
    }
}

/// Whether a sequence begins with another.
pub open spec fn begun<T>(short: Seq<T>, long: Seq<T>) -> bool {
    &&& short.len() <= long.len()
    &&& forall|i: int| 0 <= i < short.len() ==> long[i] == #[trigger] short[i]
}

/// Whether an expression calculates: it consists of numerals, variables and arithmetic.
pub open spec fn calculates(e: ExprV) -> bool
    decreases e,
{
    match e.kind {
        ExprKindV::Number(_) => true,
        ExprKindV::Name(_) => true,
        ExprKindV::Paren(i) => calculates(*i),
        ExprKindV::Unary { op, operand } => op == UnOp::Neg && calculates(*operand),
        ExprKindV::Binary { op, lhs, rhs } => is_arith(op) && calculates(*lhs) && calculates(*rhs),
        _ => false,
    }
}

pub open spec fn is_arith(op: BinOp) -> bool {
    match op {
        BinOp::Add | BinOp::Sub | BinOp::Mul | BinOp::Div | BinOp::FloorDiv | BinOp::Mod
        | BinOp::Pow => true,
        _ => false,
    }
}

/// Whether all variables hold numbers.
pub open spec fn numbers(env: Env) -> bool {
    forall|id: SymbolId| #[trigger] env.dom().contains(id) ==> env[id] is Number
}

/// A calculation comes to a number.
proof fn lemma_number(r: ResolutionV, env: Env, o: Answers, e: ExprV)
    requires
        plain(r, env.dom(), e),
        calculates(e),
        numbers(env),
        coherent(o),
    ensures
        meaning(r, env, o, e) matches Some(ValueV::Number(_)),
    decreases e,
{
    match e.kind {
        ExprKindV::Number(n) => {
            assert((o.reply)(RequestV::Numeral(n)) is Number);
        },
        ExprKindV::Paren(i) => lemma_number(r, env, o, *i),
        ExprKindV::Unary { op, operand } => lemma_number(r, env, o, *operand),
        ExprKindV::Binary { op, lhs, rhs } => {
            lemma_number(r, env, o, *lhs);
            lemma_number(r, env, o, *rhs);
            let a = (meaning(r, env, o, *lhs)->0)->Number_0;
            let b = (meaning(r, env, o, *rhs)->0)->Number_0;
            assert((o.reply)(RequestV::Arith(op, a, b)) is Number);
        },
        _ => {},
    }
}

/// The number that a calculation comes to.
pub open spec fn bits(v: Option<ValueV>) -> u64 {
    (v->0)->Number_0
}

/// Whether all values of a function, its result, and its variables `known` are numbers.
pub open spec fn all_numbers(f: FunctionV, known: Set<SymbolId>) -> bool {
    &&& repr_of(f.ret) == Repr::Number
    &&& forall|v: int| 0 <= v < f.values.len() ==> repr_of(#[trigger] f.values[v]) == Repr::Number
    &&& forall|id: SymbolId| #[trigger]
        known.contains(id) ==> f.locals.dom().contains(id) && repr_of(f.locals[id]) == Repr::Number
}

/// Whether the variables of the machine are those of `env`.
pub open spec fn same_vars(m: Machine, env: Env) -> bool {
    forall|id: SymbolId| #[trigger] env.dom().contains(id) ==> m.vars[id] == env[id]->Number_0
}

/// An operation on numbers, none of whose instructions may fail.
proof fn lemma_instr(
    p: ProgramV,
    f: FunctionV,
    tr: Tr,
    is: Seq<InstrV>,
    k: int,
    st0: Tr,
    d: ValueId,
    r: Reg,
)
    requires
        0 <= k < is.len(),
        is[k].dest == Some(d),
        translate_op_of(p, f, tr, is[k].op, is[k].dest) == Ok::<
            (Tr, Option<Reg>),
            crate::codegen::translate::JitErrorV,
        >((st0, Some(r))),
        !any_fallible(st0.insts, tr.insts.len() as int),
        d < f.values.len(),
        repr_of(f.values[d as int]) == Repr::Number,
        result_class(p, f, is[k].op, is[k].dest) == Repr::Number,
    ensures
        x_instrs(p, f, tr, is, k) == x_instrs(p, f, st0.define(d, r), is, k + 1),
{
    unfold_x_instrs(p, f, tr, is, k);
    reveal(x_instr);
    reveal(Tr::guarded_since);
    reveal(x_settled);
    reveal(Tr::coerced);
    reveal(x_define);
}

/// A number that has a register is there as a number.
proof fn lemma_as_number(f: FunctionV, tr: Tr, v: ValueId, r: Reg)
    requires
        tr.val(v) == Some(r),
        v < f.values.len(),
        repr_of(f.values[v as int]) == Repr::Number,
    ensures
        x_as(f, tr, v, Repr::Number) == Ok::<(Tr, Reg), crate::codegen::translate::JitErrorV>(
            (tr, r),
        ),
{
    reveal(x_as);
    reveal(Tr::coerced);
}

/// What a stretch of translation has done: instructions were added, and a value got a
/// register in which they leave `x`.
spec fn compiled(
    o: Answers,
    tr: Tr,
    tr1: Tr,
    m: Machine,
    low: Low,
    v: ValueId,
    r: Reg,
    x: u64,
    room: nat,
) -> bool {
    let m1 = run(o, tr1.insts, m, tr1.insts.len() as int);
    &&& begun(tr.insts, tr1.insts)
    &&& tr1.insts.len() <= tr.insts.len() + room
    &&& tr1.ssa.len() == tr.ssa.len()
    &&& forall|u: int| 0 <= u < low.values.len() && u < tr.ssa.len() ==> tr1.ssa[u]
        == #[trigger] tr.ssa[u]
    &&& tr1.val(v) == Some(r)
    &&& r < tr1.insts.len()
    &&& m1.regs.len() == tr1.insts.len()
    &&& m1.regs[r as int] == x
    &&& m1.vars == m.vars
}

/// One instruction.
proof fn lemma_single(
    o: Answers,
    tr: Tr,
    m: Machine,
    low: Low,
    i: InstV,
    v: ValueId,
)
    requires
        m.regs.len() == tr.insts.len(),
        tr.insts.len() < usize::MAX,
        v == low.values.len(),
        v < tr.ssa.len(),
        !(i is SetVar),
        !fallible(i),
    ensures
        compiled(
            o,
            tr,
            tr.emit(i).0.define(v, tr.emit(i).1),
            m,
            low,
            v,
            tr.emit(i).1,
            result_of(o, m, i),
            1,
        ),
        !any_fallible(tr.emit(i).0.insts, tr.insts.len() as int),
{
    reveal(Tr::emit);
    reveal(Tr::define);
    reveal(Tr::val);
    reveal_with_fuel(run, 2);
    let insts = tr.insts.push(i);
    assert(insts[m.regs.len() as int] == i);
}

/// The instructions of an arithmetic operator.
proof fn lemma_arith_compiled(
    o: Answers,
    tr: Tr,
    m: Machine,
    low: Low,
    op: BinOp,
    a: Reg,
    b: Reg,
    v: ValueId,
)
    requires
        is_arith(op),
        coherent(o),
        m.regs.len() == tr.insts.len(),
        tr.insts.len() + 4 < usize::MAX,
        a < tr.insts.len(),
        b < tr.insts.len(),
        v == low.values.len(),
        v < tr.ssa.len(),
    ensures
        ({
            let (st0, r) = x_arith(tr, op, a, b);
            &&& compiled(
                o,
                tr,
                st0.define(v, r),
                m,
                low,
                v,
                r,
                arith(o, op, m.regs[a as int], m.regs[b as int]),
                4,
            )
            &&& !any_fallible(st0.insts, tr.insts.len() as int)
            &&& st0.ssa == tr.ssa
        }),
{
    reveal(x_arith);
    reveal(Tr::emit);
    reveal(Tr::define);
    reveal(Tr::val);
    reveal_with_fuel(run, 5);
    let n = tr.insts.len() as int;
    let (x, y) = (m.regs[a as int], m.regs[b as int]);
    let (st0, r) = x_arith(tr, op, a, b);
    match op {
        BinOp::FloorDiv => {
            let i0 = InstV::Float2(Float2::Div, a, b);
            let i1 = InstV::Float1(Float1::Floor, n as usize);
            assert(st0.insts =~= tr.insts.push(i0).push(i1));
            assert(st0.insts[n] == i0 && st0.insts[n + 1] == i1);
            assert(arith(o, BinOp::FloorDiv, x, y) == floor(o, arith(o, BinOp::Div, x, y)));
        },
        BinOp::Mod => {
            let i0 = InstV::Float2(Float2::Div, a, b);
            let i1 = InstV::Float1(Float1::Floor, n as usize);
            let i2 = InstV::Float2(Float2::Mul, (n + 1) as usize, b);
            let i3 = InstV::Float2(Float2::Sub, a, (n + 2) as usize);
            assert(st0.insts =~= tr.insts.push(i0).push(i1).push(i2).push(i3));
            assert(st0.insts[n] == i0 && st0.insts[n + 1] == i1);
            assert(st0.insts[n + 2] == i2 && st0.insts[n + 3] == i3);
            let m1 = performed(o, m, i0);
            let m2 = performed(o, m1, i1);
            let m3 = performed(o, m2, i2);
            let m4 = performed(o, m3, i3);
            assert(m3.regs[n + 2] == arith(
                o,
                BinOp::Mul,
                floor(o, arith(o, BinOp::Div, x, y)),
                y,
            ));
            assert(m4.regs[n + 3] == arith(o, BinOp::Mod, x, y));
            assert(run(o, st0.insts, m, n + 4) == m4);
        },
        _ => {
            assert(st0.insts.len() == n + 1);
        },
    }
}

/// The code of a calculation leaves its number in the register of its value.
proof fn lemma_expr_compiled(
    p: ProgramV,
    o: Answers,
    t: Tables,
    env: Env,
    e: ExprV,
    low: Low,
    f: FunctionV,
    is: Seq<InstrV>,
    tr: Tr,
    m: Machine,
) -> (z: (Tr, Reg))
    requires
        plain(t.res, env.dom(), e),
        calculates(e),
        numbers(env),
        coherent(o),
        uncaptured(low, env),
        has_room(low, e),
        all_numbers(f, env.dom()),
        begun(instrs((l_expr(t, low, e)->Ok_0).0), is),
        low.values.len() + size(e) <= f.values.len(),
        tr.ssa.len() == f.values.len(),
        m.regs.len() == tr.insts.len(),
        tr.insts.len() + 4 * size(e) < usize::MAX,
        same_vars(m, env),
    ensures
        ({
            let (later, v) = l_expr(t, low, e)->Ok_0;
            let (tr1, r) = z;
            &&& x_instrs(p, f, tr, is, instrs(low).len() as int) == x_instrs(
                p,
                f,
                tr1,
                is,
                instrs(later).len() as int,
            )
            &&& compiled(o, tr, tr1, m, low, v, r, bits(meaning(t.res, env, o, e)), 4 * size(e))
        }),
    decreases e,
{
    lemma_lowered(t, low, env, e);
    lemma_number(t.res, env, o, e);
    unfold_l_expr(t, low, e);
    let (later, v) = l_expr(t, low, e)->Ok_0;
    let k = instrs(low).len() as int;
    reveal(translate_op_of);
    match e.kind {
        ExprKindV::Number(n) => {
            lemma_emit(low, OpV::ConstNumber(n), crate::types::TypeV::Number);
            let i = InstV::Float(n);
            assert(instrs(later)[k] == is[k]);
            lemma_single(o, tr, m, low, i, v);
            let (st0, r) = tr.emit(i);
            assert((o.reply)(RequestV::Numeral(n)) is Number);
            lemma_instr(p, f, tr, is, k, st0, v, r);
            (st0.define(v, r), r)
        },
        ExprKindV::Name(_) => {
            let id = t.res.binding_of(e.span)->0->Local_0;
            lemma_read(t, low, env, e, id);
            assert(env.dom().contains(id));
            let i = InstV::GetVar(id);
            assert(instrs(later)[k] == is[k]);
            lemma_single(o, tr, m, low, i, v);
            let (st0, r) = tr.emit(i);
            reveal(x_local);
            lemma_instr(p, f, tr, is, k, st0, v, r);
            (st0.define(v, r), r)
        },
        ExprKindV::Paren(i) => lemma_expr_compiled(p, o, t, env, *i, low, f, is, tr, m),
        ExprKindV::Unary { op, operand } => {
            lemma_lowered(t, low, env, *operand);
            lemma_number(t.res, env, o, *operand);
            let (a, w) = l_expr(t, low, *operand)->Ok_0;
            lemma_emit(a, OpV::Unary(op, w), crate::types::TypeV::Number);
            lemma_begun(instrs(a), instrs(later), is);
            let (tr1, r1) = lemma_expr_compiled(p, o, t, env, *operand, low, f, is, tr, m);
            let m1 = run(o, tr1.insts, m, tr1.insts.len() as int);
            let i = InstV::Float1(Float1::Neg, r1);
            let k1 = instrs(a).len() as int;
            assert(instrs(later)[k1] == is[k1]);
            lemma_single(o, tr1, m1, a, i, v);
            let (st0, r) = tr1.emit(i);
            reveal(Tr::val);
            lemma_as_number(f, tr1, w, r1);
            lemma_instr(p, f, tr1, is, k1, st0, v, r);
            let tr2 = st0.define(v, r);
            lemma_then(o, tr, tr1, tr2, m, low, a, w, r1, v, r);
            (tr2, r)
        },
        ExprKindV::Binary { op, lhs, rhs } => {
            lemma_lowered(t, low, env, *lhs);
            lemma_number(t.res, env, o, *lhs);
            lemma_number(t.res, env, o, *rhs);
            let (a, l) = l_expr(t, low, *lhs)->Ok_0;
            lemma_lowered(t, a, env, *rhs);
            let (b, w) = l_expr(t, a, *rhs)->Ok_0;
            lemma_emit(b, OpV::Binary(op, l, w), crate::ir::lower::binary_type(op));
            lemma_begun(instrs(b), instrs(later), is);
            lemma_begun(instrs(a), instrs(b), is);
            let (tr1, r1) = lemma_expr_compiled(p, o, t, env, *lhs, low, f, is, tr, m);
            let m1 = run(o, tr1.insts, m, tr1.insts.len() as int);
            let (tr2, r2) = lemma_expr_compiled(p, o, t, env, *rhs, a, f, is, tr1, m1);
            let m2 = run(o, tr2.insts, m1, tr2.insts.len() as int);
            lemma_then(o, tr, tr1, tr2, m, low, a, l, r1, w, r2);
            lemma_run_keeps(o, tr2.insts, m1, tr2.insts.len() as int, r1 as int);
            assert(tr2.val(l) == Some(r1)) by {
                reveal(Tr::val);
                assert(tr2.ssa[l as int] == tr1.ssa[l as int]);
            }
            let k2 = instrs(b).len() as int;
            assert(instrs(later)[k2] == is[k2]);
            reveal(x_binary);
            reveal(x_both);
            reveal(Tr::val);
            lemma_as_number(f, tr2, l, r1);
            lemma_as_number(f, tr2, w, r2);
            lemma_arith_compiled(o, tr2, m2, b, op, r1, r2, v);
            let (st0, r) = x_arith(tr2, op, r1, r2);
            lemma_instr(p, f, tr2, is, k2, st0, v, r);
            let tr3 = st0.define(v, r);
            lemma_then(o, tr, tr2, tr3, m, low, b, w, r2, v, r);
            let (x, y) = (bits(meaning(t.res, env, o, *lhs)), bits(meaning(t.res, env, o, *rhs)));
            assert((o.reply)(RequestV::Arith(op, x, y)) is Number);
            (tr3, r)
        },
        _ => (tr, 0),
    }
}

proof fn lemma_begun<T>(a: Seq<T>, b: Seq<T>, c: Seq<T>)
    requires
        begun(a, b),
        begun(b, c),
    ensures
        begun(a, c),
{
    assert forall|i: int| 0 <= i < a.len() implies c[i] == #[trigger] a[i] by {
        assert(b[i] == a[i]);
    }
}

/// Two stretches of translation make one.
proof fn lemma_then(
    o: Answers,
    tr: Tr,
    tr1: Tr,
    tr2: Tr,
    m: Machine,
    low: Low,
    a: Low,
    v1: ValueId,
    r1: Reg,
    v: ValueId,
    r: Reg,
)
    requires
        low.values.len() <= a.values.len(),
        m.regs.len() == tr.insts.len(),
        ({
            let m1 = run(o, tr1.insts, m, tr1.insts.len() as int);
            let m2 = run(o, tr2.insts, m1, tr2.insts.len() as int);
            &&& begun(tr.insts, tr1.insts)
            &&& begun(tr1.insts, tr2.insts)
            &&& tr1.ssa.len() == tr.ssa.len()
            &&& tr2.ssa.len() == tr1.ssa.len()
            &&& forall|u: int| 0 <= u < low.values.len() && u < tr.ssa.len() ==> tr1.ssa[u]
                == #[trigger] tr.ssa[u]
            &&& forall|u: int| 0 <= u < a.values.len() && u < tr1.ssa.len() ==> tr2.ssa[u]
                == #[trigger] tr1.ssa[u]
            &&& m1.regs.len() == tr1.insts.len()
            &&& m2.regs.len() == tr2.insts.len()
            &&& m1.vars == m.vars
            &&& m2.vars == m1.vars
            &&& tr2.val(v) == Some(r)
            &&& r < tr2.insts.len()
        }),
    ensures
        ({
            let m1 = run(o, tr1.insts, m, tr1.insts.len() as int);
            let m2 = run(o, tr2.insts, m1, tr2.insts.len() as int);
            &&& run(o, tr2.insts, m, tr2.insts.len() as int) == m2
            &&& forall|room: nat|
                tr2.insts.len() <= tr.insts.len() + room ==> #[trigger] compiled(
                    o,
                    tr,
                    tr2,
                    m,
                    low,
                    v,
                    r,
                    m2.regs[r as int],
                    room,
                )
        }),
{
    lemma_begun(tr.insts, tr1.insts, tr2.insts);
    lemma_run_prefix(o, tr1.insts, tr2.insts, m, tr1.insts.len() as int);
    lemma_run(o, tr2.insts, m, tr1.insts.len() as int, tr2.insts.len() as int);
    assert forall|u: int| 0 <= u < low.values.len() && u < tr.ssa.len() implies tr2.ssa[u]
        == #[trigger] tr.ssa[u] by {
        assert(tr1.ssa[u] == tr.ssa[u]);
    }
}

/// Whether a block, from statement `i` on, only calculates, and returns a number.
pub open spec fn calculating(r: ResolutionV, b: BlockV, i: int) -> bool
    decreases b.stats.len() - i,
{
    if 0 <= i < b.stats.len() {
        match declaration(r, b.stats[i]) {
            Some((_, _, e)) => calculates(e) && calculating(r, b, i + 1),
            None => false,
        }
    } else {
        match b.ret {
            Some(x) => x.exprs.len() == 1 && calculates(x.exprs[0]),
            None => false,
        }
    }
}

/// The variables that a block declares from statement `i` on.
pub open spec fn declared_ids(r: ResolutionV, b: BlockV, i: int) -> Set<SymbolId>
    decreases b.stats.len() - i,
{
    if 0 <= i < b.stats.len() {
        match declaration(r, b.stats[i]) {
            Some((_, id, _)) => declared_ids(r, b, i + 1).insert(id),
            None => Set::empty(),
        }
    } else {
        Set::empty()
    }
}

/// A write of a variable that holds a number is one instruction.
proof fn lemma_set_compiled(
    p: ProgramV,
    o: Answers,
    f: FunctionV,
    is: Seq<InstrV>,
    k: int,
    tr: Tr,
    m: Machine,
    id: SymbolId,
    v: ValueId,
    r: Reg,
)
    requires
        0 <= k < is.len(),
        is[k] == (InstrV { dest: None, op: OpV::LocalSet(id, v) }),
        v < f.values.len(),
        repr_of(f.values[v as int]) == Repr::Number,
        f.locals.dom().contains(id),
        repr_of(f.locals[id]) == Repr::Number,
        tr.val(v) == Some(r),
        m.regs.len() == tr.insts.len(),
    ensures
        ({
            let tr1 = tr.emit(InstV::SetVar(id, r)).0;
            let m1 = run(o, tr1.insts, m, tr1.insts.len() as int);
            &&& x_instrs(p, f, tr, is, k) == x_instrs(p, f, tr1, is, k + 1)
            &&& begun(tr.insts, tr1.insts)
            &&& tr1.insts.len() == tr.insts.len() + 1
            &&& tr1.ssa == tr.ssa
            &&& m1.regs.len() == tr1.insts.len()
            &&& m1.vars == m.vars.insert(id, m.regs[r as int])
        }),
{
    unfold_x_instrs(p, f, tr, is, k);
    reveal(x_instr);
    reveal(x_settled);
    reveal(x_define);
    reveal(x_local);
    reveal(translate_op_of);
    lemma_as_number(f, tr, v, r);
    reveal(Tr::guarded_since);
    reveal(Tr::emit);
    reveal_with_fuel(run, 2);
    let i = InstV::SetVar(id, r);
    let insts = tr.insts.push(i);
    assert(insts[m.regs.len() as int] == i);
    assert(!any_fallible(insts, tr.insts.len() as int));
}

/// The code of what is left of a calculating block: it ends with the number that the block
/// returns in a register.
proof fn lemma_rest_compiled(
    p: ProgramV,
    o: Answers,
    t: Tables,
    env: Env,
    b: BlockV,
    i: int,
    low: Low,
    f: FunctionV,
    tr: Tr,
    m: Machine,
) -> (z: (Tr, Reg))
    requires
        0 <= i <= b.stats.len(),
        straight(t.res, env.dom(), b, i),
        calculating(t.res, b, i),
        numbers(env),
        coherent(o),
        uncelled(low),
        low.current == 0,
        low.blocks.len() == 1,
        low.values.len() + block_size(t.res, b, i) <= u32::MAX,
        ({
            let (x, terminated) = l_rest(t, low, b, i)->Ok_0;
            &&& f.blocks == closed_off(x, terminated).blocks
            &&& f.values == closed_off(x, terminated).values
        }),
        all_numbers(f, env.dom().union(declared_ids(t.res, b, i))),
        tr.ssa.len() == f.values.len(),
        m.regs.len() == tr.insts.len(),
        tr.insts.len() + 4 * block_size(t.res, b, i) + (b.stats.len() - i) < usize::MAX,
        same_vars(m, env),
    ensures
        ({
            let (tr1, r) = z;
            let m1 = run(o, tr1.insts, m, tr1.insts.len() as int);
            &&& x_instrs(p, f, tr, f.blocks[0].instrs, instrs(low).len() as int) == Ok::<
                (Tr, ()),
                crate::codegen::translate::JitErrorV,
            >((tr1, ()))
            &&& begun(tr.insts, tr1.insts)
            &&& tr1.insts.len() < usize::MAX
            &&& tr1.ssa.len() == f.values.len()
            &&& f.blocks[0].term matches Terminator::Return(Some(v)) && reg_of(tr1, v) == Ok::<
                Reg,
                crate::codegen::translate::JitErrorV,
            >(r)
            &&& r < m1.regs.len()
            &&& block_meaning(t.res, env, o, b, i) == Some(ValueV::Number(m1.regs[r as int]))
        }),
    decreases b.stats.len() - i,
{
    lemma_rest_lowered(t, low, b, i, env.dom());
    let is = f.blocks[0].instrs;
    lemma_uncelled(low, env);
    lemma_rest_values(t, low, b, i, env.dom());
    if i < b.stats.len() {
        let (_, id, e) = declaration(t.res, b.stats[i])->0;
        lemma_local_lowered(t, low, b, i, env.dom());
        let (a, v) = l_expr(t, low, e)->Ok_0;
        let c = after_local(t, low, id, e);
        lemma_lowered(t, low, env, e);
        lemma_rest_lowered(t, c, b, i + 1, env.dom().insert(id));
        let (x, terminated) = l_rest(t, c, b, i + 1)->Ok_0;
        let done = closed_off(x, terminated);
        lemma_grown(a, c, done);
        lemma_rest_values(t, c, b, i + 1, env.dom().insert(id));
        assert(is == instrs(done));
        lemma_number(t.res, env, o, e);
        lemma_fewer_numbers(f, env.dom(), declared_ids(t.res, b, i));
        let (tr1, r) = lemma_expr_compiled(p, o, t, env, e, low, f, is, tr, m);
        let m1 = run(o, tr1.insts, m, tr1.insts.len() as int);
        let k = instrs(a).len() as int;
        assert(instrs(c)[k] == is[k]);
        assert(env.dom().union(declared_ids(t.res, b, i)).contains(id));
        lemma_set_compiled(p, o, f, is, k, tr1, m1, id, v, r);
        let tr2 = tr1.emit(InstV::SetVar(id, r)).0;
        let m2 = run(o, tr2.insts, m1, tr2.insts.len() as int);
        let y = meaning(t.res, env, o, e)->0;
        let e1 = env.insert(id, y);
        assert(e1.dom() =~= env.dom().insert(id));
        assert(env.dom().insert(id).union(declared_ids(t.res, b, i + 1)) =~= env.dom().union(
            declared_ids(t.res, b, i),
        ));
        assert(numbers(e1)) by {
            assert forall|j: SymbolId| #[trigger] e1.dom().contains(j) implies e1[j] is Number by {
                if j != id {
                    assert(env.dom().contains(j));
                }
            }
        }
        assert(same_vars(m2, e1)) by {
            assert forall|j: SymbolId| #[trigger] e1.dom().contains(j) implies m2.vars[j]
                == e1[j]->Number_0 by {
                if j != id {
                    assert(env.dom().contains(j));
                }
            }
        }
        let (tr3, r3) = lemma_rest_compiled(p, o, t, e1, b, i + 1, c, f, tr2, m2);
        lemma_begun(tr.insts, tr1.insts, tr2.insts);
        lemma_begun(tr.insts, tr2.insts, tr3.insts);
        lemma_begun(tr1.insts, tr2.insts, tr3.insts);
        let n1 = tr1.insts.len() as int;
        let n2 = tr2.insts.len() as int;
        let n3 = tr3.insts.len() as int;
        lemma_run_prefix(o, tr1.insts, tr3.insts, m, n1);
        lemma_run_prefix(o, tr2.insts, tr3.insts, m1, n2);
        lemma_run(o, tr3.insts, m, n1, n3);
        lemma_run(o, tr3.insts, m1, n2, n3);
        (tr3, r3)
    } else {
        unfold_l_stats(t, low, b.stats, i);
        let e = (b.ret->0).exprs[0];
        lemma_lowered(t, low, env, e);
        let (a, v) = l_expr(t, low, e)->Ok_0;
        let term = Terminator::Return(Some(v));
        lemma_terminate(a, term);
        assert(is == instrs(a));
        lemma_fewer_numbers(f, env.dom(), declared_ids(t.res, b, i));
        lemma_number(t.res, env, o, e);
        let (tr1, r) = lemma_expr_compiled(p, o, t, env, e, low, f, is, tr, m);
        unfold_x_instrs(p, f, tr1, is, is.len() as int);
        (tr1, r)
    }
}

proof fn lemma_fewer_numbers(f: FunctionV, some: Set<SymbolId>, more: Set<SymbolId>)
    requires
        all_numbers(f, some.union(more)),
    ensures
        all_numbers(f, some),
{
    assert forall|id: SymbolId| #[trigger] some.contains(id) implies f.locals.dom().contains(id)
        && repr_of(f.locals[id]) == Repr::Number by {
        assert(some.union(more).contains(id));
    }
}

/// Every value of what is left of a block is counted.
proof fn lemma_rest_values(t: Tables, low: Low, b: BlockV, i: int, known: Set<SymbolId>)
    requires
        0 <= i <= b.stats.len(),
        straight(t.res, known, b, i),
        uncelled(low),
        0 <= low.current < low.blocks.len(),
        low.values.len() + block_size(t.res, b, i) <= u32::MAX,
    ensures
        ({
            let (x, terminated) = l_rest(t, low, b, i)->Ok_0;
            closed_off(x, terminated).values.len() == low.values.len() + block_size(t.res, b, i)
        }),
    decreases b.stats.len() - i,
{
    lemma_rest_lowered(t, low, b, i, known);
    reveal(Low::set_term);
    if i < b.stats.len() {
        let (_, id, e) = declaration(t.res, b.stats[i])->0;
        lemma_local_lowered(t, low, b, i, known);
        lemma_rest_values(t, after_local(t, low, id, e), b, i + 1, known.insert(id));
    } else {
        unfold_l_stats(t, low, b.stats, i);
        match b.ret {
            Some(x) => {
                if x.exprs.len() > 0 {
                    let env = Map::new(|k: SymbolId| known.contains(k), |k: SymbolId| ValueV::Nil);
                    assert(env.dom() =~= known);
                    lemma_uncelled(low, env);
                    lemma_lowered(t, low, env, x.exprs[0]);
                }
            },
            None => {},
        }
    }
}

/// The variables of a call: the parameters, with the arguments.
pub open spec fn call_env(r: ResolutionV, body: FuncBodyV, args: Seq<ValueV>) -> Env {
    let ids = ids_of(r, body.params);
    vm::bound(ids, args, ids.len() as int)
}

/// The state of compiled code at the start of a call.
pub open spec fn called(env: Env) -> Machine {
    Machine {
        regs: Seq::empty(),
        vars: Map::new(|id: LocalId| env.dom().contains(id), |id: LocalId| env[id]->Number_0),
    }
}

/// A call of a straight function that calculates with numbers comes to the same in compiled
/// code as in the interpreter and in the machine: its code is one block, which returns the
/// register in which that number is.
pub proof fn law_calculations_compile(
    p: ProgramV,
    o: Answers,
    t: Tables,
    name: Seq<char>,
    body: FuncBodyV,
    args: Seq<ValueV>,
    pools: PoolsV,
)
    requires
        straight_function(t.res, body),
        calculating(t.res, body.block, 0),
        coherent(o),
        args.len() == body.params.len(),
        forall|i: int| 0 <= i < args.len() ==> #[trigger] args[i] is Number,
        l_function(t, name, body) is Ok ==> all_numbers(
            (l_function(t, name, body)->Ok_0).0,
            call_env(t.res, body, args).dom().union(declared_ids(t.res, body.block, 0)),
        ),
        4 * block_size(t.res, body.block, 0) + body.block.stats.len() < usize::MAX,
    ensures
        l_function(t, name, body) is Ok,
        ({
            let func = (l_function(t, name, body)->Ok_0).0;
            &&& machine_code_of(p, func, pools) is Ok
            &&& ({
                let code = (machine_code_of(p, func, pools)->Ok_0).0;
                let n = code.insts.len() as int;
                let m = run(o, code.insts, called(call_env(t.res, body, args)), n);
                &&& code.blocks.len() == 1
                &&& code.blocks[0].end == n
                &&& code.blocks[0].term matches End::Return(r) && r < n && call_meaning(
                    t.res,
                    o,
                    body,
                    args,
                ) == Some(ValueV::Number(m.regs[r as int]))
            })
        }),
{
    let low = lemma_whole(t, name, body);
    let func = (l_function(t, name, body)->Ok_0).0;
    let ids = ids_of(t.res, body.params);
    let env = call_env(t.res, body, args);
    super::calls::lemma_bound_dom(ids, args, Seq::empty(), ids.len() as int);
    lemma_bound_numbers(ids, args, ids.len() as int);
    lemma_rest_lowered(t, low, body.block, 0, env.dom());
    let start = Tr {
        pools,
        insts: Seq::empty(),
        ssa: Seq::new(func.values.len(), |i: int| None),
    };
    let m = called(env);
    let (tr, r) = lemma_rest_compiled(p, o, t, env, body.block, 0, low, func, start, m);
    let acc = Seq::<MachineBlock>::empty();
    unfold_x_blocks(p, func, start, 0, acc);
    reveal(x_term);
    reveal(Tr::val);
    lemma_as_number(func, tr, func.blocks[0].term->Return_0->0, r);
    let end = MachineBlock { end: tr.insts.len() as usize, term: End::Return(r) };
    unfold_x_blocks(p, func, tr, 1, acc.push(end));
    lemma_run(o, tr.insts, m, tr.insts.len() as int, tr.insts.len() as int);
}

proof fn lemma_bound_numbers(ids: Seq<SymbolId>, args: Seq<ValueV>, n: int)
    requires
        forall|i: int| 0 <= i < args.len() ==> #[trigger] args[i] is Number,
        ids.len() == args.len(),
        n <= ids.len(),
    ensures
        numbers(vm::bound(ids, args, n)),
    decreases n,
{
    if n > 0 {
        lemma_bound_numbers(ids, args, n - 1);
        let e = vm::bound(ids, args, n - 1);
        let e1 = vm::bound(ids, args, n);
        assert forall|k: SymbolId| #[trigger] e1.dom().contains(k) implies e1[k] is Number by {
            if k != ids[n - 1] {
                assert(e.dom().contains(k));
            }
        }
    }
}

} // verus!
