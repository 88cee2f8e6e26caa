//! Compiled code agrees with the machine on functions of numbers and bools: where the machine
//! returns a value, the machine code of the function returns it too, through branches, loops,
//! calls and the `math` functions that have an instruction of their own.

use vstd::prelude::*;

use super::branches::{entered_call, hosted, lemma_vals};
use super::calls::{finished, gives_back, lemma_machine_returns, rest_of};
use super::control::roomy;
use super::counting::counting;
use super::functions::outcome;
use super::modules::{
    body_at, exports_as, law_scalar_modules_agree, name_at, scalar_module, with_hosts, within,
};
use super::native::{arith, begun, coherent, is_arith, number};
use super::{has, is_scalar, lemma_march, march, walk, with_frame, Answers};
use crate::ast::{BinOp, ModuleV, UnOp};
use crate::check::TypeInfoV;
use crate::codegen::rt::{empty_pools, PoolsV};
use crate::codegen::translate::{
    any_fallible, fallible, machine_code_of, native_math, param_classes, reg_of, relation_of,
    result_class, translate_op_of, unfold_x_args, unfold_x_blocks, unfold_x_instrs, x_args, x_arith,
    x_as, x_binary, x_blocks, x_both, x_call, x_define, x_equality, x_instr, x_instrs, x_local,
    x_ordering, x_settled, x_term, x_truthy, ClifTy, End, Float1, Float2, InstV, JitErrorV,
    MachineBlock, MachineCodeV, Reg, Relation, Shim, Tr,
};
use crate::codegen::typing::{
    lemma_instr_adds, lemma_start_typed, lemma_term_adds, lemma_typed_len, typed,
};
use crate::codegen::{
    bound_of, module_plan_of, planned, plans_of, unfold_plans_of, FnPlanV, ModulePlanV,
};
use crate::interp;
use crate::interp::initial;
use crate::ir::lower::lower_of;
use crate::ir::vm;
use crate::ir::vm::{CodeV, FrameV, ProgressV, VmV};
use crate::ir::{
    BlockId, ExportTargetV, FunctionV, InstrV, LocalId, OpV, ProgramV, Terminator, ValueId,
};
use crate::names::{get_of, keys_of, lemma_pos, pos_of};
use crate::number::{negated, order_of, Order};
use crate::resolve::ResolutionV;
use crate::runtime::eval::{MathOp, RequestV};
use crate::runtime::repr::{repr_of, Repr};
use crate::types::TypeConfigV;
use crate::value::{same_value, truthy, RunErrorV, ValueV};

verus! {

// ---- what machine code does --------------------------------------------------------

/// One activation of machine code: the results of its instructions, its variables, and whether an
/// error was noted.
pub ghost struct Core {
    pub regs: Map<int, u64>,
    pub vars: Map<LocalId, u64>,
    pub err: bool,
}

/// A number or a bool as a word.
pub open spec fn word(v: ValueV) -> u64 {
    match v {
        ValueV::Number(b) => b,
        ValueV::Bool(b) => flag(b),
        _ => 0,
    }
}

pub open spec fn flag(b: bool) -> u64 {
    if b {
        1
    } else {
        0
    }
}

/// Whether a relation holds between numbers that compare in that way.
pub open spec fn relates(r: Relation, o: Option<Order>) -> bool {
    match o {
        None => false,
        Some(x) => match r {
            Relation::Equal => x == Order::Equal,
            Relation::Less => x == Order::Less,
            Relation::LessEqual => x != Order::Greater,
            Relation::Greater => x == Order::Greater,
            Relation::GreaterEqual => x != Order::Less,
        },
    }
}

/// The function of one argument that a float instruction computes.
pub open spec fn float1(o: Answers, op: Float1, a: u64) -> u64 {
    match op {
        Float1::Neg => negated(a),
        Float1::Floor => number(o, RequestV::Math(MathOp::Floor, a, 0)),
        Float1::Ceil => number(o, RequestV::Math(MathOp::Ceil, a, 0)),
        Float1::Abs => number(o, RequestV::Math(MathOp::Abs, a, 0)),
        Float1::Sqrt => number(o, RequestV::Math(MathOp::Sqrt, a, 0)),
    }
}

/// The operator of a float instruction on two operands.
pub open spec fn float2(op: Float2) -> BinOp {
    match op {
        Float2::Add => BinOp::Add,
        Float2::Sub => BinOp::Sub,
        Float2::Mul => BinOp::Mul,
        Float2::Div => BinOp::Div,
    }
}

impl Core {
    pub open spec fn put(self, at: int, w: u64) -> Core {
        Core { regs: self.regs.insert(at, w), ..self }
    }

    pub open spec fn at(self, r: Reg) -> u64 {
        self.regs[r as int]
    }
}

/// What the instruction at `at` does, where it neither calls nor leaves the function; only
/// instructions on numbers and bools are told.
pub open spec fn done(o: Answers, c: Core, at: int, i: InstV) -> Option<Core> {
    match i {
        InstV::Int(_, n) => Some(c.put(at, flag(n != 0))),
        InstV::Float(n) => Some(c.put(at, number(o, RequestV::Numeral(n)))),
        InstV::GetVar(id) => Some(c.put(at, c.vars[id])),
        InstV::SetVar(id, r) => Some(Core { vars: c.vars.insert(id, c.at(r)), ..c }),
        InstV::Float1(op, a) => Some(c.put(at, float1(o, op, c.at(a)))),
        InstV::Float2(op, a, b) => Some(c.put(at, arith(o, float2(op), c.at(a), c.at(b)))),
        InstV::FloatTest(r, a, b) => Some(
            c.put(at, flag(relates(r, order_of(c.at(a), c.at(b))))),
        ),
        InstV::IntTest(Relation::Equal, a, n) => if n == 0 {
            Some(c.put(at, flag(c.at(a) == 0)))
        } else {
            None
        },
        InstV::IntEqual(a, b) => Some(c.put(at, flag(c.at(a) == c.at(b)))),
        InstV::Call(Shim::Pow, rs) => Some(
            c.put(at, arith(o, BinOp::Pow, c.at(rs[0]), c.at(rs[1]))),
        ),
        InstV::Call(Shim::Errored, _) => Some(c.put(at, flag(c.err))),
        InstV::Call(Shim::CheckOrder, rs) => Some(
            Core { err: c.err || order_of(c.at(rs[0]), c.at(rs[1])) is None, ..c },
        ),
        _ => None,
    }
}

/// Where the instructions of a block begin.
pub open spec fn begin_of(c: MachineCodeV, b: int) -> int {
    if b <= 0 {
        0
    } else {
        c.blocks[b - 1].end as int
    }
}

/// The words in registers.
pub open spec fn words_in(c: Core, rs: Seq<Reg>) -> Seq<u64> {
    Seq::new(rs.len(), |i: int| c.at(rs[i]))
}

/// The variables of a call: the first `n` parameters and the words that are passed for them.
pub open spec fn passed(params: Seq<LocalId>, ws: Seq<u64>, n: int) -> Map<LocalId, u64>
    decreases n,
{
    if n <= 0 {
        Map::empty()
    } else {
        passed(params, ws, n - 1).insert(params[n - 1], ws[n - 1])
    }
}

/// The activation at the start of a call.
pub open spec fn activated(g: FnPlanV, ws: Seq<u64>) -> Core {
    Core { regs: Map::empty(), vars: passed(g.bound, ws, g.bound.len() as int), err: false }
}

/// What the code of a function comes to from the instruction `at` of block `b` on, within `n`
/// steps: a word, or an error that was noted; nothing if it has not ended, or does what is not
/// told here.
pub open spec fn go(
    plan: ModulePlanV,
    o: Answers,
    g: FnPlanV,
    c: Core,
    b: int,
    at: int,
    n: nat,
) -> Option<Option<u64>>
    decreases n,
{
    if n == 0 || !(0 <= b < g.code.blocks.len()) {
        None
    } else if at < g.code.blocks[b].end {
        match g.code.insts[at] {
            InstV::Guard(r) => if c.at(r) != 0 {
                Some(None)
            } else {
                go(plan, o, g, c, b, at + 1, (n - 1) as nat)
            },
            InstV::CallScript(name, rs) => match get_of(plan.functions, name) {
                None => None,
                Some(f) => match go(
                    plan,
                    o,
                    f,
                    activated(f, words_in(c, rs)),
                    f.entry as int,
                    begin_of(f.code, f.entry as int),
                    (n - 1) as nat,
                ) {
                    None => None,
                    Some(None) => go(
                        plan,
                        o,
                        g,
                        Core { err: true, ..c.put(at, 0) },
                        b,
                        at + 1,
                        (n - 1) as nat,
                    ),
                    Some(Some(w)) => go(plan, o, g, c.put(at, w), b, at + 1, (n - 1) as nat),
                },
            },
            i => match done(o, c, at, i) {
                Some(c1) => go(plan, o, g, c1, b, at + 1, (n - 1) as nat),
                None => None,
            },
        }
    } else {
        match g.code.blocks[b].term {
            End::Return(r) => if c.err {
                Some(None)
            } else {
                Some(Some(c.at(r)))
            },
            End::Jump(t) => go(plan, o, g, c, t as int, begin_of(g.code, t as int), (n - 1) as nat),
            End::JumpBack(r, t) => if c.at(r) != 0 {
                Some(None)
            } else {
                go(plan, o, g, c, t as int, begin_of(g.code, t as int), (n - 1) as nat)
            },
            End::Branch(r, x, y) => {
                let t = if c.at(r) != 0 {
                    x
                } else {
                    y
                };
                go(plan, o, g, c, t as int, begin_of(g.code, t as int), (n - 1) as nat)
            },
            _ => None,
        }
    }
}

/// More steps change nothing.
proof fn lemma_go_more(
    plan: ModulePlanV,
    o: Answers,
    g: FnPlanV,
    c: Core,
    b: int,
    at: int,
    n: nat,
    m: nat,
)
    requires
        go(plan, o, g, c, b, at, n) is Some,
        n <= m,
    ensures
        go(plan, o, g, c, b, at, m) == go(plan, o, g, c, b, at, n),
    decreases n,
{
    let (n1, m1) = ((n - 1) as nat, (m - 1) as nat);
    if at < g.code.blocks[b].end {
        match g.code.insts[at] {
            InstV::Guard(r) => {
                if c.at(r) == 0 {
                    lemma_go_more(plan, o, g, c, b, at + 1, n1, m1);
                }
            },
            InstV::CallScript(name, rs) => {
                let f = get_of(plan.functions, name)->0;
                let c0 = activated(f, words_in(c, rs));
                let e = f.entry as int;
                lemma_go_more(plan, o, f, c0, e, begin_of(f.code, e), n1, m1);
                match go(plan, o, f, c0, e, begin_of(f.code, e), n1) {
                    Some(None) => lemma_go_more(
                        plan,
                        o,
                        g,
                        Core { err: true, ..c.put(at, 0) },
                        b,
                        at + 1,
                        n1,
                        m1,
                    ),
                    Some(Some(w)) => lemma_go_more(plan, o, g, c.put(at, w), b, at + 1, n1, m1),
                    None => {},
                }
            },
            i => match done(o, c, at, i) {
                Some(c1) => lemma_go_more(plan, o, g, c1, b, at + 1, n1, m1),
                None => {},
            },
        }
    } else {
        match g.code.blocks[b].term {
            End::Jump(t) => lemma_go_more(
                plan,
                o,
                g,
                c,
                t as int,
                begin_of(g.code, t as int),
                n1,
                m1,
            ),
            End::JumpBack(r, t) => {
                if c.at(r) == 0 {
                    lemma_go_more(plan, o, g, c, t as int, begin_of(g.code, t as int), n1, m1);
                }
            },
            End::Branch(r, x, y) => {
                let t = if c.at(r) != 0 {
                    x
                } else {
                    y
                };
                lemma_go_more(plan, o, g, c, t as int, begin_of(g.code, t as int), n1, m1);
            },
            _ => {},
        }
    }
}

// ---- functions of numbers and bools --------------------------------------------------

/// Whether a class is that of numbers or bools.
pub open spec fn is_direct(r: Repr) -> bool {
    r == Repr::Number || r == Repr::Bool
}

/// Whether a value is of a class.
pub open spec fn is_of(v: ValueV, r: Repr) -> bool {
    match r {
        Repr::Number => v is Number,
        Repr::Bool => v is Bool,
        _ => false,
    }
}

/// The class of a value of a function.
pub open spec fn class_of(f: FunctionV, v: ValueId) -> Repr {
    repr_of(f.values[v as int])
}

/// Whether a value is defined by one of the first `k` instructions of a block.
pub open spec fn defined(is: Seq<InstrV>, k: int, v: ValueId) -> bool {
    exists|j: int| 0 <= j < k && (#[trigger] is[j]).dest == Some(v)
}

/// Whether an operand is defined before, in the same block, and of a class.
pub open spec fn operand_ok(f: FunctionV, is: Seq<InstrV>, k: int, v: ValueId, r: Repr) -> bool {
    v < f.values.len() && defined(is, k, v) && class_of(f, v) == r
}

/// Whether an instruction works on numbers and bools that are defined in its block.
pub open spec fn direct_instr(p: ProgramV, f: FunctionV, is: Seq<InstrV>, k: int) -> bool {
    let i = is[k];
    match i.op {
        OpV::LocalSet(id, v) => {
            &&& i.dest is None
            &&& f.locals.dom().contains(id)
            &&& is_direct(repr_of(f.locals[id]))
            &&& operand_ok(f, is, k, v, repr_of(f.locals[id]))
        },
        op => i.dest matches Some(d) && d < f.values.len() && is_direct(class_of(f, d)) && match op {
            OpV::ConstBool(_) => class_of(f, d) == Repr::Bool,
            OpV::ConstNumber(_) => class_of(f, d) == Repr::Number,
            OpV::LocalGet(id) => f.locals.dom().contains(id) && class_of(f, d) == repr_of(
                f.locals[id],
            ),
            OpV::Unary(UnOp::Neg, v) => class_of(f, d) == Repr::Number && operand_ok(
                f,
                is,
                k,
                v,
                Repr::Number,
            ),
            OpV::Unary(UnOp::Not, v) => class_of(f, d) == Repr::Bool && operand_ok(
                f,
                is,
                k,
                v,
                Repr::Bool,
            ),
            OpV::Truthy(v) => class_of(f, d) == Repr::Bool && operand_ok(f, is, k, v, Repr::Bool),
            OpV::Binary(b, l, r) => if is_arith(b) {
                class_of(f, d) == Repr::Number && operand_ok(f, is, k, l, Repr::Number)
                    && operand_ok(f, is, k, r, Repr::Number)
            } else if b == BinOp::Lt || b == BinOp::Le || b == BinOp::Gt || b == BinOp::Ge {
                class_of(f, d) == Repr::Bool && operand_ok(f, is, k, l, Repr::Number)
                    && operand_ok(f, is, k, r, Repr::Number) && f.values[l as int] is Number
            } else if b == BinOp::Eq || b == BinOp::Ne {
                class_of(f, d) == Repr::Bool && operand_ok(f, is, k, l, class_of(f, l))
                    && operand_ok(f, is, k, r, class_of(f, l)) && is_direct(class_of(f, l))
            } else {
                false
            },
            OpV::CallBuiltinMember(ns, member, args) => {
                &&& class_of(f, d) == Repr::Number
                &&& ns == "math"@
                &&& native_math(member) is Some
                &&& args.len() == 1
                &&& operand_ok(f, is, k, args[0], Repr::Number)
            },
            OpV::CallScript(name, args) => get_of(p.functions, name) matches Some(g)
                && args.len() == g.params.len() && class_of(f, d) == repr_of(g.ret) && forall|a: int|
                0 <= a < args.len() ==> operand_ok(
                    f,
                    is,
                    k,
                    #[trigger] args[a],
                    param_classes(g)[a],
                ),
            _ => false,
        },
    }
}

/// Whether a function works on numbers and bools alone, and no value of it is used outside the
/// block in which it is defined.
pub open spec fn direct_function(p: ProgramV, f: FunctionV) -> bool {
    &&& !f.is_closure
    &&& is_direct(repr_of(f.ret))
    &&& f.entry < f.blocks.len()
    &&& forall|a: int|
        0 <= a < f.params.len() ==> f.locals.dom().contains(#[trigger] f.params[a]) && is_direct(
            repr_of(f.locals[f.params[a]]),
        )
    &&& forall|b: int, k: int|
        #![trigger f.blocks[b].instrs[k]]
        0 <= b < f.blocks.len() && 0 <= k < f.blocks[b].instrs.len() ==> direct_instr(
            p,
            f,
            f.blocks[b].instrs,
            k,
        )
    &&& forall|b: int|
        #![trigger f.blocks[b]]
        0 <= b < f.blocks.len() ==> {
            let is = f.blocks[b].instrs;
            match f.blocks[b].term {
                Terminator::Return(Some(v)) => operand_ok(
                    f,
                    is,
                    is.len() as int,
                    v,
                    repr_of(f.ret),
                ),
                Terminator::Branch { cond, then_blk, else_blk } => operand_ok(
                    f,
                    is,
                    is.len() as int,
                    cond,
                    Repr::Bool,
                ) && then_blk < f.blocks.len() && else_blk < f.blocks.len(),
                Terminator::Jump(t) => t < f.blocks.len(),
                _ => true,
            }
        }
}

/// Whether all of them are such functions.
pub open spec fn all_direct(p: ProgramV, fs: Seq<(Seq<char>, FunctionV)>) -> bool {
    forall|i: int| 0 <= i < fs.len() ==> direct_function(p, (#[trigger] fs[i]).1)
}

/// Whether all functions and constants of a program are such.
pub open spec fn direct_program(p: ProgramV) -> bool {
    all_direct(p, p.functions) && all_direct(p, p.constants)
}

/// A function of such a program is one.
proof fn lemma_direct(p: ProgramV, name: Seq<char>)
    requires
        direct_program(p),
        get_of(p.functions, name) is Some,
    ensures
        direct_function(p, get_of(p.functions, name)->0),
{
    lemma_pos(keys_of(p.functions), name, 0);
    let i = pos_of(keys_of(p.functions), name, 0);
    assert(direct_function(p, p.functions[i].1));
}

// ---- how code is laid out ---------------------------------------------------------------

/// The translation before instruction `k` of a block that begins with `st`.
pub open spec fn tr_instr(p: ProgramV, f: FunctionV, st: Tr, is: Seq<InstrV>, k: int) -> Tr
    decreases k,
{
    if k <= 0 {
        st
    } else {
        (x_instr(p, f, tr_instr(p, f, st, is, k - 1), is[k - 1])->Ok_0).0
    }
}

/// The translation at the end of block `b`, which begins with `st`.
pub open spec fn tr_term(p: ProgramV, f: FunctionV, st: Tr, b: int) -> (Tr, End) {
    let is = f.blocks[b].instrs;
    x_term(f, tr_instr(p, f, st, is, is.len() as int), f.blocks[b].term, b)->Ok_0
}

/// The translation before block `b`.
pub open spec fn tr_block(p: ProgramV, f: FunctionV, s0: Tr, b: int) -> Tr
    decreases b,
{
    if b <= 0 {
        s0
    } else {
        tr_term(p, f, tr_block(p, f, s0, b - 1), b - 1).0
    }
}

/// Instructions of a block have become code, each after those before it.
proof fn lemma_instrs_laid(p: ProgramV, f: FunctionV, st: Tr, is: Seq<InstrV>, k: int)
    requires
        0 <= k <= is.len(),
        x_instrs(p, f, tr_instr(p, f, st, is, k), is, k) is Ok,
    ensures
        (x_instrs(p, f, tr_instr(p, f, st, is, k), is, k)->Ok_0).0 == tr_instr(
            p,
            f,
            st,
            is,
            is.len() as int,
        ),
        forall|j: int|
            k <= j < is.len() ==> x_instr(p, f, tr_instr(p, f, st, is, j), #[trigger] is[j]) is Ok,
    decreases is.len() - k,
{
    unfold_x_instrs(p, f, tr_instr(p, f, st, is, k), is, k);
    if k < is.len() {
        assert(tr_instr(p, f, st, is, k + 1) == (x_instr(p, f, tr_instr(p, f, st, is, k), is[k])->Ok_0).0);
        lemma_instrs_laid(p, f, st, is, k + 1);
    }
}

/// Instructions are only added.
proof fn lemma_added(p: ProgramV, f: FunctionV, s0: Tr, b: int, acc: Seq<MachineBlock>)
    requires
        0 <= b <= f.blocks.len(),
        acc.len() == b,
        x_blocks(p, f, tr_block(p, f, s0, b), b, acc) is Ok,
        forall|a: int| 0 <= a < b ==> laid(p, f, s0, a) && #[trigger] acc[a] == (MachineBlock {
            end: tr_block(p, f, s0, a + 1).insts.len() as usize,
            term: tr_term(p, f, tr_block(p, f, s0, a), a).1,
        }),
    ensures
        ({
            let (fin, blocks) = x_blocks(p, f, tr_block(p, f, s0, b), b, acc)->Ok_0;
            &&& fin == tr_block(p, f, s0, f.blocks.len() as int)
            &&& blocks.len() == f.blocks.len()
            &&& forall|a: int|
                0 <= a < f.blocks.len() ==> laid(p, f, s0, a) && #[trigger] blocks[a] == (
                MachineBlock {
                    end: tr_block(p, f, s0, a + 1).insts.len() as usize,
                    term: tr_term(p, f, tr_block(p, f, s0, a), a).1,
                })
        }),
    decreases f.blocks.len() - b,
{
    let st = tr_block(p, f, s0, b);
    unfold_x_blocks(p, f, st, b, acc);
    if b < f.blocks.len() {
        let is = f.blocks[b].instrs;
        lemma_instrs_laid(p, f, st, is, 0);
        let end = MachineBlock {
            end: tr_block(p, f, s0, b + 1).insts.len() as usize,
            term: tr_term(p, f, st, b).1,
        };
        lemma_added(p, f, s0, b + 1, acc.push(end));
    }
}

/// Whether a block has become code.
pub open spec fn laid(p: ProgramV, f: FunctionV, s0: Tr, b: int) -> bool {
    let st = tr_block(p, f, s0, b);
    let is = f.blocks[b].instrs;
    &&& forall|j: int|
        0 <= j < is.len() ==> x_instr(p, f, tr_instr(p, f, st, is, j), #[trigger] is[j]) is Ok
    &&& x_term(f, tr_instr(p, f, st, is, is.len() as int), f.blocks[b].term, b) is Ok
}

/// The translation before instruction `k` of block `b`.
pub open spec fn tr_at(p: ProgramV, f: FunctionV, s0: Tr, b: int, k: int) -> Tr {
    tr_instr(p, f, tr_block(p, f, s0, b), f.blocks[b].instrs, k)
}

proof fn lemma_instr_grows(p: ProgramV, f: FunctionV, s0: Tr, b: int, k: int)
    requires
        0 <= b < f.blocks.len(),
        0 <= k <= f.blocks[b].instrs.len(),
        laid(p, f, s0, b),
        typed(p, f, tr_block(p, f, s0, b)),
    ensures
        typed(p, f, tr_at(p, f, s0, b, k)),
        begun(tr_block(p, f, s0, b).insts, tr_at(p, f, s0, b, k).insts),
    decreases k,
{
    if k > 0 {
        lemma_instr_grows(p, f, s0, b, k - 1);
        let (x, y, z) = (
            tr_block(p, f, s0, b),
            tr_at(p, f, s0, b, k - 1),
            tr_at(p, f, s0, b, k),
        );
        assert(x_instr(p, f, y, f.blocks[b].instrs[k - 1]) is Ok);
        lemma_instr_adds(p, f, y, f.blocks[b].instrs[k - 1]);
        assert forall|q: int| 0 <= q < x.insts.len() implies z.insts[q] == #[trigger] x.insts[q] by {
            assert(y.insts[q] == x.insts[q]);
        }
    }
}

/// From one place in a block to a later one, the code is added to.
proof fn lemma_instr_later(p: ProgramV, f: FunctionV, s0: Tr, b: int, j: int, k: int)
    requires
        0 <= b < f.blocks.len(),
        0 <= j <= k <= f.blocks[b].instrs.len(),
        laid(p, f, s0, b),
        typed(p, f, tr_block(p, f, s0, b)),
    ensures
        begun(tr_at(p, f, s0, b, j).insts, tr_at(p, f, s0, b, k).insts),
    decreases k,
{
    if j < k {
        lemma_instr_later(p, f, s0, b, j, k - 1);
        lemma_instr_grows(p, f, s0, b, k - 1);
        let (x, y, z) = (
            tr_at(p, f, s0, b, j),
            tr_at(p, f, s0, b, k - 1),
            tr_at(p, f, s0, b, k),
        );
        assert(x_instr(p, f, y, f.blocks[b].instrs[k - 1]) is Ok);
        lemma_instr_adds(p, f, y, f.blocks[b].instrs[k - 1]);
        assert forall|q: int| 0 <= q < x.insts.len() implies z.insts[q] == #[trigger] x.insts[q] by {
            assert(y.insts[q] == x.insts[q]);
        }
    }
}

proof fn lemma_block_grows(p: ProgramV, f: FunctionV, s0: Tr, a: int, b: int)
    requires
        0 <= a <= b <= f.blocks.len(),
        forall|c: int| 0 <= c < f.blocks.len() ==> #[trigger] laid(p, f, s0, c),
        typed(p, f, s0),
    ensures
        typed(p, f, tr_block(p, f, s0, b)),
        begun(tr_block(p, f, s0, a).insts, tr_block(p, f, s0, b).insts),
    decreases b,
{
    if b > 0 {
        let e = b - 1;
        assert(laid(p, f, s0, e));
        lemma_block_grows(p, f, s0, if a < b { a } else { e }, e);
        let is = f.blocks[e].instrs;
        let n = is.len() as int;
        lemma_instr_grows(p, f, s0, e, n);
        lemma_term_adds(p, f, tr_at(p, f, s0, e, n), f.blocks[e].term, e);
        if a < b {
            let (x, y, w, z) = (
                tr_block(p, f, s0, a),
                tr_block(p, f, s0, e),
                tr_at(p, f, s0, e, n),
                tr_block(p, f, s0, b),
            );
            assert forall|q: int| 0 <= q < x.insts.len() implies z.insts[q]
                == #[trigger] x.insts[q] by {
                assert(y.insts[q] == x.insts[q]);
                assert(w.insts[q] == y.insts[q]);
            }
        }
    }
}

/// The translation of a function at its start.
pub open spec fn start_of(f: FunctionV, pools: PoolsV) -> Tr {
    Tr { pools, insts: Seq::empty(), ssa: Seq::new(f.values.len(), |i: int| None) }
}

/// Where the code of an instruction stands in the code of its function.
proof fn lemma_layout(p: ProgramV, f: FunctionV, pools: PoolsV, b: int, k: int)
    requires
        machine_code_of(p, f, pools) is Ok,
        (machine_code_of(p, f, pools)->Ok_0).0.insts.len() <= usize::MAX,
        0 <= b < f.blocks.len(),
        0 <= k <= f.blocks[b].instrs.len(),
    ensures
        ({
            let c = (machine_code_of(p, f, pools)->Ok_0).0;
            let s0 = start_of(f, pools);
            let n = f.blocks[b].instrs.len() as int;
            &&& laid(p, f, s0, b)
            &&& c.blocks.len() == f.blocks.len()
            &&& begin_of(c, b) == tr_at(p, f, s0, b, 0).insts.len()
            &&& c.blocks[b].end == tr_term(p, f, tr_block(p, f, s0, b), b).0.insts.len()
            &&& c.blocks[b].term == tr_term(p, f, tr_block(p, f, s0, b), b).1
            &&& begun(tr_at(p, f, s0, b, k).insts, c.insts)
            &&& tr_at(p, f, s0, b, k).insts.len() <= tr_at(p, f, s0, b, n).insts.len()
                <= c.blocks[b].end
            &&& begun(tr_term(p, f, tr_block(p, f, s0, b), b).0.insts, c.insts)
            &&& k < n ==> begun(tr_at(p, f, s0, b, k).insts, tr_at(p, f, s0, b, k + 1).insts)
        }),
{
    let s0 = start_of(f, pools);
    let c = (machine_code_of(p, f, pools)->Ok_0).0;
    let len = f.blocks.len() as int;
    let n = f.blocks[b].instrs.len() as int;
    lemma_start_typed(p, f, s0);
    lemma_added(p, f, s0, 0, Seq::empty());
    let blocks = (x_blocks(p, f, tr_block(p, f, s0, 0), 0, Seq::empty())->Ok_0).1;
    assert(blocks == c.blocks);
    let here = blocks[b];
    assert forall|e: int| 0 <= e < len implies #[trigger] laid(p, f, s0, e) by {
        let there = blocks[e];
    }
    lemma_block_grows(p, f, s0, b + 1, len);
    lemma_block_grows(p, f, s0, b, b);
    lemma_instr_later(p, f, s0, b, k, n);
    if k < n {
        lemma_instr_later(p, f, s0, b, k, k + 1);
    }
    lemma_instr_grows(p, f, s0, b, n);
    lemma_term_adds(p, f, tr_at(p, f, s0, b, n), f.blocks[b].term, b);
    let (x, y, z) = (tr_at(p, f, s0, b, k), tr_at(p, f, s0, b, n), tr_block(p, f, s0, b + 1));
    assert forall|q: int| 0 <= q < x.insts.len() implies c.insts[q] == #[trigger] x.insts[q] by {
        assert(y.insts[q] == x.insts[q]);
        assert(z.insts[q] == y.insts[q]);
    }
    if b > 0 {
        let before = blocks[b - 1];
        lemma_block_grows(p, f, s0, b, len);
    }
}

// ---- one instruction ---------------------------------------------------------------------

/// Whether an activation has what the innermost frame has, before instruction `k` of its block:
/// the variables, and the values that the block has defined.
pub open spec fn mirrors(f: FunctionV, is: Seq<InstrV>, k: int, tr: Tr, fr: FrameV, c: Core) -> bool {
    &&& !c.err
    &&& tr.ssa.len() == f.values.len()
    &&& forall|id: LocalId| #[trigger]
        fr.locals.dom().contains(id) ==> f.locals.dom().contains(id) && is_of(
            fr.locals[id],
            repr_of(f.locals[id]),
        ) && c.vars[id] == word(fr.locals[id])
    &&& forall|v: ValueId| #[trigger]
        defined(is, k, v) ==> {
            &&& v < f.values.len()
            &&& fr.values.dom().contains(v)
            &&& is_of(fr.values[v], class_of(f, v))
            &&& tr.ssa[v as int] matches Some(r) && r < tr.insts.len() && c.at(r) == word(
                fr.values[v],
            )
        }
}

/// Where the code of an instruction is in the code of a function.
spec fn placed(g: FnPlanV, b: int, tr: Tr) -> bool {
    &&& 0 <= b < g.code.blocks.len()
    &&& begun(tr.insts, g.code.insts)
    &&& tr.insts.len() <= g.code.blocks[b].end <= g.code.insts.len() <= usize::MAX
}

/// An instruction that neither calls nor leaves.
proof fn lemma_step(
    plan: ModulePlanV,
    o: Answers,
    g: FnPlanV,
    c: Core,
    b: int,
    at: int,
    q: nat,
    i: InstV,
)
    requires
        0 <= b < g.code.blocks.len(),
        at < g.code.blocks[b].end,
        g.code.insts[at] == i,
        done(o, c, at, i) is Some,
    ensures
        go(plan, o, g, c, b, at, q + 1) == go(plan, o, g, done(o, c, at, i)->0, b, at + 1, q),
{
}

/// A guard is passed where no error was noted.
proof fn lemma_guard(
    plan: ModulePlanV,
    o: Answers,
    g: FnPlanV,
    c: Core,
    b: int,
    at: int,
    q: nat,
)
    requires
        0 <= b < g.code.blocks.len(),
        0 <= at,
        at + 1 < g.code.blocks[b].end <= usize::MAX,
        g.code.insts[at] == InstV::Call(Shim::Errored, Seq::empty()),
        g.code.insts[at + 1] == InstV::Guard(at as usize),
        !c.err,
    ensures
        go(plan, o, g, c, b, at, q + 2) == go(plan, o, g, c.put(at, 0), b, at + 2, q),
{
    let i = InstV::Call(Shim::Errored, Seq::empty());
    lemma_step(plan, o, g, c, b, at, q + 1, i);
    let c1 = c.put(at, 0);
    assert(done(o, c, at, i) == Some(c1));
    assert(c1.at(at as usize) == 0);
}

/// The result of an operation gets its register, and nothing guards what cannot fail.
proof fn lemma_defines(p: ProgramV, f: FunctionV, tr: Tr, i: InstrV, tr2: Tr, d: ValueId, r: Reg)
    requires
        i.dest == Some(d),
        d < f.values.len(),
        translate_op_of(p, f, tr, i.op, i.dest) == Ok::<(Tr, Option<Reg>), JitErrorV>(
            (tr2, Some(r)),
        ),
        result_class(p, f, i.op, i.dest) == class_of(f, d),
        is_direct(class_of(f, d)),
    ensures
        x_instr(p, f, tr, i) == Ok::<(Tr, ()), JitErrorV>(
            (tr2.guarded_since(tr.insts.len() as int).define(d, r), ()),
        ),
{
    reveal(x_instr);
    reveal(x_settled);
    reveal(Tr::coerced);
    reveal(x_define);
}

/// A value of a class that has a register is there as one of the class.
proof fn lemma_as_is(f: FunctionV, tr: Tr, v: ValueId, r: Reg)
    requires
        v < f.values.len(),
        tr.ssa.len() == f.values.len(),
        tr.ssa[v as int] == Some(r),
        is_direct(class_of(f, v)),
    ensures
        reg_of(tr, v) == Ok::<Reg, JitErrorV>(r),
        x_as(f, tr, v, class_of(f, v)) == Ok::<(Tr, Reg), JitErrorV>((tr, r)),
{
    reveal(Tr::val);
    reveal(x_as);
    reveal(Tr::coerced);
}

/// What an instruction that does not call leaves in a register.
pub open spec fn op_value(o: Answers, fr: FrameV, op: OpV) -> ValueV {
    match op {
        OpV::ConstBool(b) => ValueV::Bool(b),
        OpV::ConstNumber(n) => ValueV::Number(number(o, RequestV::Numeral(n))),
        OpV::LocalGet(id) => fr.locals[id],
        OpV::Unary(UnOp::Neg, v) => ValueV::Number(negated(word(fr.values[v]))),
        OpV::Unary(_, v) => ValueV::Bool(!truthy(fr.values[v])),
        OpV::Truthy(v) => ValueV::Bool(truthy(fr.values[v])),
        OpV::Binary(b, l, r) => {
            let (x, y) = (fr.values[l], fr.values[r]);
            if is_arith(b) {
                ValueV::Number(arith(o, b, word(x), word(y)))
            } else if b == BinOp::Eq {
                ValueV::Bool(same_value(x, y))
            } else if b == BinOp::Ne {
                ValueV::Bool(!same_value(x, y))
            } else {
                ValueV::Bool(relates(relation_of(b), order_of(word(x), word(y))))
            }
        },
        OpV::CallBuiltinMember(_, member, args) => ValueV::Number(
            float1(o, native_math(member)->0, word(fr.values[args[0]])),
        ),
        _ => ValueV::Nil,
    }
}

/// What the code of an instruction has done: a register of its own, or one that was there, holds
/// the value, and everything else that was there is as it was.
spec fn left(
    plan: ModulePlanV,
    o: Answers,
    g: FnPlanV,
    b: int,
    tr: Tr,
    tr1: Tr,
    c: Core,
    c1: Core,
    d: ValueId,
    v: ValueV,
    q: nat,
) -> bool {
    &&& go(plan, o, g, c, b, tr.insts.len() as int, q + (tr1.insts.len() - tr.insts.len()) as nat)
        == go(plan, o, g, c1, b, tr1.insts.len() as int, q)
    &&& !c1.err
    &&& c1.vars == c.vars
    &&& forall|r: int| 0 <= r < tr.insts.len() ==> #[trigger] c1.regs[r] == c.regs[r]
    &&& tr1.ssa.len() == tr.ssa.len()
    &&& tr1.ssa[d as int] matches Some(r) && r < tr1.insts.len() && c1.at(r) == word(v)
    &&& forall|w: int| 0 <= w < tr.ssa.len() && w != d ==> #[trigger] tr1.ssa[w] == tr.ssa[w]
}

/// An operation that becomes one instruction that cannot fail.
proof fn lemma_single(
    p: ProgramV,
    plan: ModulePlanV,
    o: Answers,
    f: FunctionV,
    g: FnPlanV,
    b: int,
    tr: Tr,
    tr1: Tr,
    i: InstrV,
    d: ValueId,
    x: InstV,
    c: Core,
    v: ValueV,
    q: nat,
)
    requires
        i.dest == Some(d),
        d < f.values.len(),
        tr.ssa.len() == f.values.len(),
        translate_op_of(p, f, tr, i.op, i.dest) == Ok::<(Tr, Option<Reg>), JitErrorV>(
            (tr.emit(x).0, Some(tr.emit(x).1)),
        ),
        result_class(p, f, i.op, i.dest) == class_of(f, d),
        is_direct(class_of(f, d)),
        x_instr(p, f, tr, i) == Ok::<(Tr, ()), JitErrorV>((tr1, ())),
        !fallible(x),
        placed(g, b, tr1),
        done(o, c, tr.insts.len() as int, x) == Some(c.put(tr.insts.len() as int, word(v))),
        !c.err,
    ensures
        left(plan, o, g, b, tr, tr1, c, c.put(tr.insts.len() as int, word(v)), d, v, q),
{
    reveal(Tr::emit);
    reveal(Tr::define);
    reveal(Tr::guarded_since);
    let n = tr.insts.len() as int;
    let tr2 = tr.emit(x).0;
    lemma_defines(p, f, tr, i, tr2, d, tr.emit(x).1);
    assert(!any_fallible(tr2.insts, n));
    assert(tr1.insts == tr.insts.push(x));
    assert(g.code.insts[n] == tr1.insts[n]);
    lemma_step(plan, o, g, c, b, n, q, x);
}

/// The activation after the code of an instruction that does not call.
spec fn op_core(o: Answers, fr: FrameV, op: OpV, tr: Tr, c: Core) -> Core {
    let n = tr.insts.len() as int;
    let v = word(op_value(o, fr, op));
    match op {
        OpV::Truthy(_) => c,
        OpV::Binary(b, l, r) => if is_arith(b) {
            arith_core(o, b, tr.ssa[l as int]->0, tr.ssa[r as int]->0, c, n)
        } else if b == BinOp::Eq {
            c.put(n, v)
        } else if b == BinOp::Ne {
            c.put(n, flag(same_value(fr.values[l], fr.values[r]))).put(n + 1, v)
        } else {
            c.put(n, v).put(n + 2, 0)
        },
        _ => c.put(n, v),
    }
}

/// The code of an instruction that does not call computes its value.
proof fn lemma_computes(
    p: ProgramV,
    plan: ModulePlanV,
    o: Answers,
    f: FunctionV,
    g: FnPlanV,
    b: int,
    is: Seq<InstrV>,
    k: int,
    tr: Tr,
    tr1: Tr,
    fr: FrameV,
    c: Core,
    q: nat,
) -> (c1: Core)
    requires
        coherent(o),
        0 <= k < is.len(),
        direct_instr(p, f, is, k),
        !(is[k].op is CallScript),
        !(is[k].op is LocalSet),
        is[k].op matches OpV::LocalGet(id) ==> fr.locals.dom().contains(id),
        is[k].op matches OpV::Binary(op, l, r) ==> (is_arith(op) || op == BinOp::Eq || op
            == BinOp::Ne || order_of(word(fr.values[l]), word(fr.values[r])) is Some),
        mirrors(f, is, k, tr, fr, c),
        x_instr(p, f, tr, is[k]) == Ok::<(Tr, ()), JitErrorV>((tr1, ())),
        placed(g, b, tr1),
    ensures
        c1 == op_core(o, fr, is[k].op, tr, c),
        left(plan, o, g, b, tr, tr1, c, c1, is[k].dest->0, op_value(o, fr, is[k].op), q),
        is_of(op_value(o, fr, is[k].op), class_of(f, is[k].dest->0)),
{
    let i = is[k];
    let d = i.dest->0;
    let v = op_value(o, fr, i.op);
    let n = tr.insts.len() as int;
    reveal(translate_op_of);
    match i.op {
        OpV::ConstBool(x) => {
            let one = if x {
                1i64
            } else {
                0i64
            };
            lemma_single(p, plan, o, f, g, b, tr, tr1, i, d, InstV::Int(ClifTy::I8, one), c, v, q);
            c.put(n, word(v))
        },
        OpV::ConstNumber(x) => {
            lemma_single(p, plan, o, f, g, b, tr, tr1, i, d, InstV::Float(x), c, v, q);
            c.put(n, word(v))
        },
        OpV::LocalGet(id) => {
            reveal(x_local);
            lemma_single(p, plan, o, f, g, b, tr, tr1, i, d, InstV::GetVar(id), c, v, q);
            c.put(n, word(v))
        },
        OpV::Unary(UnOp::Neg, a) => {
            assert(defined(is, k, a));
            let r = tr.ssa[a as int]->0;
            lemma_as_is(f, tr, a, r);
            let x = InstV::Float1(Float1::Neg, r);
            lemma_single(p, plan, o, f, g, b, tr, tr1, i, d, x, c, v, q);
            c.put(n, word(v))
        },
        OpV::Unary(_, a) => {
            assert(defined(is, k, a));
            let r = tr.ssa[a as int]->0;
            lemma_as_is(f, tr, a, r);
            reveal(x_truthy);
            let x = InstV::IntTest(Relation::Equal, r, 0);
            lemma_single(p, plan, o, f, g, b, tr, tr1, i, d, x, c, v, q);
            c.put(n, word(v))
        },
        OpV::Truthy(a) => {
            assert(defined(is, k, a));
            let r = tr.ssa[a as int]->0;
            lemma_as_is(f, tr, a, r);
            reveal(x_truthy);
            reveal(Tr::guarded_since);
            reveal(Tr::define);
            lemma_defines(p, f, tr, i, tr, d, r);
            assert(!any_fallible(tr.insts, n));
            c
        },
        OpV::CallBuiltinMember(_, member, args) => {
            assert(defined(is, k, args[0]));
            let r = tr.ssa[args[0] as int]->0;
            lemma_as_is(f, tr, args[0], r);
            reveal(x_call);
            let x = InstV::Float1(native_math(member)->0, r);
            lemma_single(p, plan, o, f, g, b, tr, tr1, i, d, x, c, v, q);
            c.put(n, word(v))
        },
        OpV::Binary(op, l, r) => lemma_binary_computes(
            p,
            plan,
            o,
            f,
            g,
            b,
            is,
            k,
            op,
            l,
            r,
            tr,
            tr1,
            fr,
            c,
            q,
        ),
        _ => c,
    }
}

/// The code of a binary operator computes its value.
proof fn lemma_binary_computes(
    p: ProgramV,
    plan: ModulePlanV,
    o: Answers,
    f: FunctionV,
    g: FnPlanV,
    b: int,
    is: Seq<InstrV>,
    k: int,
    op: BinOp,
    l: ValueId,
    r: ValueId,
    tr: Tr,
    tr1: Tr,
    fr: FrameV,
    c: Core,
    q: nat,
) -> (c1: Core)
    requires
        coherent(o),
        0 <= k < is.len(),
        is[k].op == OpV::Binary(op, l, r),
        direct_instr(p, f, is, k),
        is_arith(op) || op == BinOp::Eq || op == BinOp::Ne || order_of(
            word(fr.values[l]),
            word(fr.values[r]),
        ) is Some,
        mirrors(f, is, k, tr, fr, c),
        x_instr(p, f, tr, is[k]) == Ok::<(Tr, ()), JitErrorV>((tr1, ())),
        placed(g, b, tr1),
    ensures
        c1 == op_core(o, fr, is[k].op, tr, c),
        left(plan, o, g, b, tr, tr1, c, c1, is[k].dest->0, op_value(o, fr, is[k].op), q),
        is_of(op_value(o, fr, is[k].op), class_of(f, is[k].dest->0)),
{
    let i = is[k];
    let d = i.dest->0;
    let v = op_value(o, fr, i.op);
    let n = tr.insts.len() as int;
    assert(defined(is, k, l));
    assert(defined(is, k, r));
    let x = tr.ssa[l as int]->0;
    let y = tr.ssa[r as int]->0;
    lemma_as_is(f, tr, l, x);
    lemma_as_is(f, tr, r, y);
    reveal(translate_op_of);
    reveal(x_binary);
    reveal(x_both);
    if is_arith(op) {
        lemma_arith_computes(p, plan, o, f, g, b, tr, tr1, i, d, op, x, y, c, q);
        arith_core(o, op, x, y, c, n)
    } else if op == BinOp::Eq || op == BinOp::Ne {
        reveal(x_equality);
        let test = if class_of(f, l) == Repr::Number {
            InstV::FloatTest(Relation::Equal, x, y)
        } else {
            InstV::IntEqual(x, y)
        };
        let same = flag(same_value(fr.values[l], fr.values[r]));
        assert(done(o, c, n, test) == Some(c.put(n, same)));
        if op == BinOp::Eq {
            lemma_single(p, plan, o, f, g, b, tr, tr1, i, d, test, c, v, q);
            c.put(n, word(v))
        } else {
            reveal(Tr::emit);
            reveal(Tr::define);
            reveal(Tr::guarded_since);
            let not = InstV::IntTest(Relation::Equal, n as usize, 0);
            let tr2 = tr.emit(test).0.emit(not).0;
            assert(tr2.insts == tr.insts.push(test).push(not));
            lemma_defines(p, f, tr, i, tr2, d, (n + 1) as usize);
            assert(!any_fallible(tr2.insts, n)) by {
                assert forall|j: int| n <= j < tr2.insts.len() implies !fallible(
                    #[trigger] tr2.insts[j],
                ) by {
                    assert(j == n || j == n + 1);
                }
            }
            assert(tr1.insts == tr2.insts);
            assert(g.code.insts[n] == tr1.insts[n] && g.code.insts[n + 1] == tr1.insts[n + 1]);
            let c2 = c.put(n, same);
            lemma_step(plan, o, g, c, b, n, q + 1, test);
            lemma_step(plan, o, g, c2, b, n + 1, q, not);
            c2.put(n + 1, word(v))
        }
    } else {
        reveal(x_ordering);
        reveal(Tr::emit);
        reveal(Tr::define);
        reveal(Tr::guarded_since);
        reveal(Tr::guarded);
        let test = InstV::FloatTest(relation_of(op), x, y);
        let check = InstV::Call(Shim::CheckOrder, seq![x, y]);
        let look = InstV::Call(Shim::Errored, Seq::empty());
        let tr2 = tr.emit(test).0.emit(check).0;
        assert(tr2.insts == tr.insts.push(test).push(check));
        lemma_defines(p, f, tr, i, tr2, d, n as usize);
        assert(any_fallible(tr2.insts, n)) by {
            assert(fallible(tr2.insts[n + 1]));
        }
        let guard = InstV::Guard((n + 2) as usize);
        assert(tr1.insts == tr2.insts.push(look).push(guard));
        assert(g.code.insts[n] == tr1.insts[n] && g.code.insts[n + 1] == tr1.insts[n + 1]);
        assert(g.code.insts[n + 2] == tr1.insts[n + 2] && g.code.insts[n + 3] == tr1.insts[n + 3]);
        let c2 = c.put(n, word(v));
        lemma_step(plan, o, g, c, b, n, q + 3, test);
        lemma_step(plan, o, g, c2, b, n + 1, q + 2, check);
        assert(c2.at(x) == c.at(x) && c2.at(y) == c.at(y));
        assert(done(o, c2, n + 1, check) == Some(c2));
        lemma_guard(plan, o, g, c2, b, n + 2, q);
        c2.put(n + 2, 0)
    }
}

/// The activation after the code of an arithmetic operator.
spec fn arith_core(o: Answers, op: BinOp, x: Reg, y: Reg, c: Core, n: int) -> Core {
    let (a, b) = (c.at(x), c.at(y));
    let quot = arith(o, BinOp::Div, a, b);
    let down = float1(o, Float1::Floor, quot);
    let back = arith(o, BinOp::Mul, down, b);
    match op {
        BinOp::FloorDiv => c.put(n, quot).put(n + 1, down),
        BinOp::Mod => c.put(n, quot).put(n + 1, down).put(n + 2, back).put(
            n + 3,
            arith(o, BinOp::Sub, a, back),
        ),
        _ => c.put(n, arith(o, op, a, b)),
    }
}

proof fn lemma_arith_computes(
    p: ProgramV,
    plan: ModulePlanV,
    o: Answers,
    f: FunctionV,
    g: FnPlanV,
    b: int,
    tr: Tr,
    tr1: Tr,
    i: InstrV,
    d: ValueId,
    op: BinOp,
    x: Reg,
    y: Reg,
    c: Core,
    q: nat,
)
    requires
        coherent(o),
        is_arith(op),
        i.dest == Some(d),
        d < f.values.len(),
        tr.ssa.len() == f.values.len(),
        x < tr.insts.len(),
        y < tr.insts.len(),
        translate_op_of(p, f, tr, i.op, i.dest) == Ok::<(Tr, Option<Reg>), JitErrorV>(
            (x_arith(tr, op, x, y).0, Some(x_arith(tr, op, x, y).1)),
        ),
        result_class(p, f, i.op, i.dest) == Repr::Number,
        class_of(f, d) == Repr::Number,
        x_instr(p, f, tr, i) == Ok::<(Tr, ()), JitErrorV>((tr1, ())),
        placed(g, b, tr1),
        !c.err,
    ensures
        left(
            plan,
            o,
            g,
            b,
            tr,
            tr1,
            c,
            arith_core(o, op, x, y, c, tr.insts.len() as int),
            d,
            ValueV::Number(arith(o, op, c.at(x), c.at(y))),
            q,
        ),
{
    let n = tr.insts.len() as int;
    let v = ValueV::Number(arith(o, op, c.at(x), c.at(y)));
    reveal(x_arith);
    match op {
        BinOp::FloorDiv => {
            reveal(Tr::emit);
            reveal(Tr::define);
            reveal(Tr::guarded_since);
            let i1 = InstV::Float2(Float2::Div, x, y);
            let i2 = InstV::Float1(Float1::Floor, n as usize);
            let tr2 = tr.emit(i1).0.emit(i2).0;
            assert(tr2.insts == tr.insts.push(i1).push(i2));
            lemma_defines(p, f, tr, i, tr2, d, (n + 1) as usize);
            assert(!any_fallible(tr2.insts, n)) by {
                assert forall|j: int| n <= j < tr2.insts.len() implies !fallible(
                    #[trigger] tr2.insts[j],
                ) by {
                    assert(j == n || j == n + 1);
                }
            }
            assert(g.code.insts[n] == tr1.insts[n] && g.code.insts[n + 1] == tr1.insts[n + 1]);
            let c1 = done(o, c, n, i1)->0;
            lemma_step(plan, o, g, c, b, n, q + 1, i1);
            lemma_step(plan, o, g, c1, b, n + 1, q, i2);
        },
        BinOp::Mod => {
            reveal(Tr::emit);
            reveal(Tr::define);
            reveal(Tr::guarded_since);
            let i1 = InstV::Float2(Float2::Div, x, y);
            let i2 = InstV::Float1(Float1::Floor, n as usize);
            let i3 = InstV::Float2(Float2::Mul, (n + 1) as usize, y);
            let i4 = InstV::Float2(Float2::Sub, x, (n + 2) as usize);
            let tr2 = tr.emit(i1).0.emit(i2).0.emit(i3).0.emit(i4).0;
            assert(tr2.insts == tr.insts.push(i1).push(i2).push(i3).push(i4));
            lemma_defines(p, f, tr, i, tr2, d, (n + 3) as usize);
            assert(!any_fallible(tr2.insts, n)) by {
                assert forall|j: int| n <= j < tr2.insts.len() implies !fallible(
                    #[trigger] tr2.insts[j],
                ) by {
                    assert(j == n || j == n + 1 || j == n + 2 || j == n + 3);
                }
            }
            assert(g.code.insts[n] == tr1.insts[n] && g.code.insts[n + 1] == tr1.insts[n + 1]);
            assert(g.code.insts[n + 2] == tr1.insts[n + 2] && g.code.insts[n + 3]
                == tr1.insts[n + 3]);
            let c1 = done(o, c, n, i1)->0;
            let c2 = done(o, c1, n + 1, i2)->0;
            let c3 = done(o, c2, n + 2, i3)->0;
            lemma_step(plan, o, g, c, b, n, q + 3, i1);
            lemma_step(plan, o, g, c1, b, n + 1, q + 2, i2);
            lemma_step(plan, o, g, c2, b, n + 2, q + 1, i3);
            lemma_step(plan, o, g, c3, b, n + 3, q, i4);
            assert(c3.at(x) == c.at(x));
            assert(c2.at(y) == c.at(y));
        },
        BinOp::Pow => {
            let s = InstV::Call(Shim::Pow, seq![x, y]);
            assert(done(o, c, n, s) == Some(c.put(n, word(v))));
            lemma_single(p, plan, o, f, g, b, tr, tr1, i, d, s, c, v, q);
        },
        _ => {
            let e = match op {
                BinOp::Add => Float2::Add,
                BinOp::Sub => Float2::Sub,
                BinOp::Mul => Float2::Mul,
                _ => Float2::Div,
            };
            let s = InstV::Float2(e, x, y);
            lemma_single(p, plan, o, f, g, b, tr, tr1, i, d, s, c, v, q);
        },
    }
}

// ---- a run ---------------------------------------------------------------------------------

/// Whether the machine reads a variable that was not set, or is at the end of a function that
/// has not returned a value.
pub open spec fn fallen(p: ProgramV, s: (VmV, ProgressV)) -> bool {
    let fr = s.0.frames.last();
    &&& s.1 is Running
    &&& s.0.frames.len() > 0
    &&& vm::code_of(p, fr.code) matches Some(f) && fr.block < f.blocks.len() && {
        let b = f.blocks[fr.block as int];
        if fr.pc < b.instrs.len() {
            b.instrs[fr.pc as int].op matches OpV::LocalGet(id) && !fr.locals.dom().contains(id)
        } else {
            b.term == Terminator::Unreachable || b.term == Terminator::Return(None)
        }
    }
}

/// Whether the machine comes to such a place within `n` steps.
#[verifier::opaque]
pub open spec fn falls(p: ProgramV, o: Answers, s: (VmV, ProgressV), n: nat) -> bool {
    exists|j: nat| j <= n && fallen(p, #[trigger] march(p, o, s, j))
}

/// One that does so later does so.
proof fn lemma_falls(p: ProgramV, o: Answers, s: (VmV, ProgressV), a: nat, n: nat)
    requires
        a <= n,
        falls(p, o, march(p, o, s, a), (n - a) as nat),
    ensures
        falls(p, o, s, n),
{
    reveal(falls);
    let s1 = march(p, o, s, a);
    let j = choose|j: nat| j <= n - a && fallen(p, #[trigger] march(p, o, s1, j));
    lemma_march(p, o, s, a, j);
    assert(fallen(p, march(p, o, s, a + j)));
}

/// One that is there does so.
proof fn lemma_falls_here(p: ProgramV, o: Answers, s: (VmV, ProgressV), n: nat)
    requires
        fallen(p, s),
    ensures
        falls(p, o, s, n),
{
    reveal(falls);
    assert(march(p, o, s, 0) == s);
}

/// Whether a plan is that of a function.
pub open spec fn compiled_from(p: ProgramV, f: FunctionV, g: FnPlanV, pools: PoolsV) -> bool {
    &&& machine_code_of(p, f, pools) is Ok
    &&& (machine_code_of(p, f, pools)->Ok_0).0 == g.code
    &&& g.code.insts.len() <= usize::MAX
    &&& g.entry == f.entry
    &&& g.bound == f.params
}

/// Whether the plans are those of a program's functions.
pub open spec fn compiled(p: ProgramV, plan: ModulePlanV) -> bool {
    forall|name: Seq<char>|
        #![trigger get_of(p.functions, name)]
        get_of(p.functions, name) matches Some(f) ==> (get_of(plan.functions, name) matches Some(g)
            && exists|pools: PoolsV| #[trigger] compiled_from(p, f, g, pools))
}

/// Whether the machine and the code of the innermost function stand at the same place.
spec fn alike(p: ProgramV, f: FunctionV, g: FnPlanV, pools: PoolsV, st: VmV, c: Core) -> bool {
    let fr = st.frames.last();
    let is = f.blocks[fr.block as int].instrs;
    let tr = tr_at(p, f, start_of(f, pools), fr.block as int, fr.pc as int);
    &&& st.wait is None
    &&& st.frames.len() > 0
    &&& fr.code is Function
    &&& vm::code_of(p, fr.code) == Some(f)
    &&& direct_function(p, f)
    &&& compiled_from(p, f, g, pools)
    &&& fr.block < f.blocks.len()
    &&& fr.pc <= is.len()
    &&& mirrors(f, is, fr.pc as int, tr, fr, c)
}

/// Where the code stands that the machine stands at.
spec fn at_of(p: ProgramV, f: FunctionV, pools: PoolsV, st: VmV) -> int {
    let fr = st.frames.last();
    tr_at(p, f, start_of(f, pools), fr.block as int, fr.pc as int).insts.len() as int
}

/// What a run of the innermost function came to: with a value after `k` steps of the machine,
/// which its code returns within `q`, or in a failure within `n`, which its code notes.
spec fn came_to(
    p: ProgramV,
    plan: ModulePlanV,
    o: Answers,
    f: FunctionV,
    g: FnPlanV,
    pools: PoolsV,
    st: VmV,
    c: Core,
    n: nat,
    r: (nat, nat, Option<ValueV>),
) -> bool {
    let s = (st, ProgressV::Running);
    let w = go(plan, o, g, c, st.frames.last().block as int, at_of(p, f, pools, st), r.0);
    match r.2 {
        Some(v) => {
            &&& 0 < r.1 <= n
            &&& is_of(v, repr_of(f.ret))
            &&& gives_back(p, st, v, march(p, o, s, r.1))
            &&& w == Some(Some(word(v)))
        },
        None => falls(p, o, s, n) || (march(p, o, s, n).1 matches ProgressV::Done(Err(_)) && w
            == Some(None::<u64>)),
    }
}

/// A run from a later state of the same call is one from here.
proof fn lemma_later(
    p: ProgramV,
    plan: ModulePlanV,
    o: Answers,
    f: FunctionV,
    g: FnPlanV,
    pools: PoolsV,
    st: VmV,
    c: Core,
    st1: VmV,
    c1: Core,
    a: nat,
    n: nat,
    r: (nat, nat, Option<ValueV>),
    more: nat,
) -> (out: (nat, nat, Option<ValueV>))
    requires
        a <= n,
        st.frames.len() > 0,
        march(p, o, (st, ProgressV::Running), a) == (st1, ProgressV::Running),
        came_to(p, plan, o, f, g, pools, st1, c1, (n - a) as nat, r),
        st1.frames.len() == st.frames.len(),
        rest_of(st1) == rest_of(st),
        go(plan, o, g, c, st.frames.last().block as int, at_of(p, f, pools, st), r.0 + more) == go(
            plan,
            o,
            g,
            c1,
            st1.frames.last().block as int,
            at_of(p, f, pools, st1),
            r.0,
        ),
    ensures
        came_to(p, plan, o, f, g, pools, st, c, n, out),
{
    let s = (st, ProgressV::Running);
    lemma_march(p, o, s, a, r.1);
    lemma_march(p, o, s, a, (n - a) as nat);
    if falls(p, o, (st1, ProgressV::Running), (n - a) as nat) {
        lemma_falls(p, o, s, a, n);
    }
    (r.0 + more, a + r.1, r.2)
}

/// The frame after an operation that has a value, and the activation after its code.
proof fn lemma_mirrors_on(
    f: FunctionV,
    is: Seq<InstrV>,
    k: int,
    tr: Tr,
    tr1: Tr,
    fr: FrameV,
    fr1: FrameV,
    c: Core,
    c1: Core,
    d: ValueId,
    v: ValueV,
)
    requires
        0 <= k < is.len(),
        is[k].dest == Some(d),
        d < f.values.len(),
        mirrors(f, is, k, tr, fr, c),
        fr1.locals == fr.locals,
        fr1.values == fr.values.insert(d, v),
        is_of(v, class_of(f, d)),
        tr.insts.len() <= tr1.insts.len(),
        !c1.err,
        c1.vars == c.vars,
        forall|r: int| 0 <= r < tr.insts.len() ==> #[trigger] c1.regs[r] == c.regs[r],
        tr1.ssa.len() == tr.ssa.len(),
        tr1.ssa[d as int] matches Some(r) && r < tr1.insts.len() && c1.at(r) == word(v),
        forall|w: int| 0 <= w < tr.ssa.len() && w != d ==> #[trigger] tr1.ssa[w] == tr.ssa[w],
    ensures
        mirrors(f, is, k + 1, tr1, fr1, c1),
{
    assert forall|w: ValueId| #[trigger] defined(is, k + 1, w) implies {
        &&& w < f.values.len()
        &&& fr1.values.dom().contains(w)
        &&& is_of(fr1.values[w], class_of(f, w))
        &&& tr1.ssa[w as int] matches Some(r) && r < tr1.insts.len() && c1.at(r) == word(
            fr1.values[w],
        )
    } by {
        if w != d {
            let j = choose|j: int| 0 <= j < k + 1 && (#[trigger] is[j]).dest == Some(w);
            assert(j < k);
            assert(defined(is, k, w));
            assert(tr1.ssa[w as int] == tr.ssa[w as int]);
            let r = tr.ssa[w as int]->0;
            assert(c1.regs[r as int] == c.regs[r as int]);
        }
    }
}

/// How an operation that does not call fails.
spec fn op_fails(fr: FrameV, op: OpV) -> Option<RunErrorV> {
    match op {
        OpV::Binary(b, l, r) => if is_arith(b) || b == BinOp::Eq || b == BinOp::Ne || order_of(
            word(fr.values[l]),
            word(fr.values[r]),
        ) is Some {
            None
        } else {
            Some(RunErrorV::Runtime("NaN comparison"@))
        },
        _ => None,
    }
}

/// Whether numbers are answered with numbers, and arithmetic is coherent.
pub open spec fn computing(o: Answers) -> bool {
    &&& coherent(o)
    &&& forall|op: MathOp, a: u64, b: u64| #[trigger] (o.reply)(RequestV::Math(op, a, b)) is Number
}

/// An operation that does not call, in the machine.
proof fn lemma_op_marches(
    p: ProgramV,
    o: Answers,
    f: FunctionV,
    st: VmV,
    tr: Tr,
    c: Core,
) -> (a: nat)
    requires
        computing(o),
        st.wait is None,
        st.frames.len() > 0,
        vm::code_of(p, st.frames.last().code) == Some(f),
        st.frames.last().block < f.blocks.len(),
        ({
            let fr = st.frames.last();
            let is = f.blocks[fr.block as int].instrs;
            &&& fr.pc < is.len()
            &&& direct_instr(p, f, is, fr.pc as int)
            &&& !(is[fr.pc as int].op is CallScript)
            &&& !(is[fr.pc as int].op is LocalSet)
            &&& is[fr.pc as int].op matches OpV::LocalGet(id) ==> fr.locals.dom().contains(id)
            &&& mirrors(f, is, fr.pc as int, tr, fr, c)
        }),
    ensures
        0 < a <= 2,
        a == 2 ==> march(p, o, (st, ProgressV::Running), 1).1 is Ask,
        ({
            let fr = st.frames.last();
            let op = f.blocks[fr.block as int].instrs[fr.pc as int].op;
            let s = march(p, o, (st, ProgressV::Running), a);
            match op_fails(fr, op) {
                None => s == (
                    with_frame(st, vm::advanced(p, fr, op_value(o, fr, op))),
                    ProgressV::Running,
                ),
                Some(e) => s.1 == ProgressV::Done(Err(e)),
            }
        }),
{
    let fr = st.frames.last();
    let is = f.blocks[fr.block as int].instrs;
    let k = fr.pc as int;
    let op = is[k].op;
    let n = st.frames.len() - 1;
    reveal(vm::eval_op_of);
    reveal(vm::effected);
    reveal(vm::delivered);
    reveal_with_fuel(march, 3);
    let out = vm::eval_op_of(p, st, fr, op);
    match op {
        OpV::Unary(_, v) => {
            assert(defined(is, k, v));
        },
        OpV::Truthy(v) => {
            assert(defined(is, k, v));
        },
        OpV::Binary(_, l, r) => {
            assert(defined(is, k, l) && defined(is, k, r));
        },
        OpV::CallBuiltinMember(_, member, args) => {
            assert(defined(is, k, args[0]));
            let x = fr.values[args[0]];
            lemma_vals(fr, args, seq![x], 0);
            assert(seq![x].take(0) =~= Seq::<ValueV>::empty());
            reveal(vm::call_op);
        },
        _ => {},
    }
    assert(out == vm::pure(st, fr, out.effect));
    assert(st.frames.update(n, FrameV { locals: fr.locals, ..fr }) =~= st.frames);
    let st1 = VmV {
        heap: out.heap,
        frames: st.frames.update(n, FrameV { locals: out.locals, ..st.frames[n] }),
        ..st
    };
    assert(st1 == st);
    assert(vm::step_of(p, st) == vm::effected(p, st, out));
    match out.effect {
        vm::EffectV::Ask(q) => {
            let waiting = VmV { wait: Some(q), ..st };
            assert(vm::step_of(p, st) == (waiting, ProgressV::Ask));
            assert(VmV { wait: None, ..waiting } == st);
            assert((o.reply)(q) is Number);
            2
        },
        _ => 1,
    }
}

/// The code of a comparison that fails notes it.
proof fn lemma_refuses(
    p: ProgramV,
    plan: ModulePlanV,
    o: Answers,
    f: FunctionV,
    g: FnPlanV,
    b: int,
    is: Seq<InstrV>,
    k: int,
    op: BinOp,
    l: ValueId,
    r: ValueId,
    tr: Tr,
    tr1: Tr,
    fr: FrameV,
    c: Core,
)
    requires
        0 <= k < is.len(),
        is[k].op == OpV::Binary(op, l, r),
        direct_instr(p, f, is, k),
        op_fails(fr, is[k].op) is Some,
        mirrors(f, is, k, tr, fr, c),
        x_instr(p, f, tr, is[k]) == Ok::<(Tr, ()), JitErrorV>((tr1, ())),
        placed(g, b, tr1),
    ensures
        go(plan, o, g, c, b, tr.insts.len() as int, 4) == Some(None::<u64>),
{
    let i = is[k];
    let d = i.dest->0;
    let n = tr.insts.len() as int;
    assert(defined(is, k, l));
    assert(defined(is, k, r));
    let x = tr.ssa[l as int]->0;
    let y = tr.ssa[r as int]->0;
    lemma_as_is(f, tr, l, x);
    lemma_as_is(f, tr, r, y);
    reveal(translate_op_of);
    reveal(x_binary);
    reveal(x_both);
    reveal(x_ordering);
    reveal(Tr::emit);
    reveal(Tr::define);
    reveal(Tr::guarded_since);
    reveal(Tr::guarded);
    let test = InstV::FloatTest(relation_of(op), x, y);
    let check = InstV::Call(Shim::CheckOrder, seq![x, y]);
    let look = InstV::Call(Shim::Errored, Seq::empty());
    let tr2 = tr.emit(test).0.emit(check).0;
    assert(tr2.insts == tr.insts.push(test).push(check));
    lemma_defines(p, f, tr, i, tr2, d, n as usize);
    assert(any_fallible(tr2.insts, n)) by {
        assert(fallible(tr2.insts[n + 1]));
    }
    let guard = InstV::Guard((n + 2) as usize);
    assert(tr1.insts == tr2.insts.push(look).push(guard));
    assert(g.code.insts[n] == tr1.insts[n] && g.code.insts[n + 1] == tr1.insts[n + 1]);
    assert(g.code.insts[n + 2] == tr1.insts[n + 2] && g.code.insts[n + 3] == tr1.insts[n + 3]);
    let c2 = done(o, c, n, test)->0;
    lemma_step(plan, o, g, c, b, n, 3, test);
    assert(c2.at(x) == c.at(x) && c2.at(y) == c.at(y));
    let c3 = Core { err: true, ..c2 };
    assert(done(o, c2, n + 1, check) == Some(c3));
    lemma_step(plan, o, g, c2, b, n + 1, 2, check);
    let c4 = c3.put(n + 2, 1);
    assert(done(o, c3, n + 2, look) == Some(c4));
    lemma_step(plan, o, g, c3, b, n + 2, 1, look);
    assert(c4.at((n + 2) as usize) == 1);
    assert(go(plan, o, g, c4, b, n + 3, 1) == Some(None::<u64>));
}

/// Whether every value that the block has defined has a register.
spec fn known(f: FunctionV, is: Seq<InstrV>, k: int, tr: Tr) -> bool {
    &&& tr.ssa.len() == f.values.len()
    &&& forall|v: ValueId| #[trigger]
        defined(is, k, v) ==> v < f.values.len() && tr.ssa[v as int] is Some
}

/// The registers of values.
spec fn regs_of(tr: Tr, vs: Seq<ValueId>) -> Seq<Reg> {
    Seq::new(vs.len(), |a: int| tr.ssa[vs[a] as int]->0)
}

/// Arguments that are of the classes that are wanted are passed as they are.
proof fn lemma_args_as_are(
    f: FunctionV,
    is: Seq<InstrV>,
    k: int,
    tr: Tr,
    vs: Seq<ValueId>,
    want: Seq<Repr>,
    i: int,
)
    requires
        known(f, is, k, tr),
        want.len() == vs.len(),
        0 <= i <= vs.len(),
        forall|a: int|
            0 <= a < vs.len() ==> operand_ok(f, is, k, #[trigger] vs[a], want[a]) && is_direct(
                want[a],
            ),
    ensures
        x_args(f, tr, vs, want, i, regs_of(tr, vs).take(i)) == Ok::<(Tr, Seq<Reg>), JitErrorV>(
            (tr, regs_of(tr, vs)),
        ),
    decreases vs.len() - i,
{
    let rs = regs_of(tr, vs);
    unfold_x_args(f, tr, vs, want, i, rs.take(i));
    if i < vs.len() {
        assert(operand_ok(f, is, k, vs[i], want[i]));
        assert(defined(is, k, vs[i]));
        lemma_as_is(f, tr, vs[i], rs[i]);
        reveal(Tr::coerced);
        assert(rs.take(i).push(rs[i]) =~= rs.take(i + 1));
        lemma_args_as_are(f, is, k, tr, vs, want, i + 1);
    } else {
        assert(rs.take(i) =~= rs);
    }
}

/// The code of a call: the call, and a guard.
proof fn lemma_call_laid(
    p: ProgramV,
    f: FunctionV,
    is: Seq<InstrV>,
    k: int,
    name: Seq<char>,
    vs: Seq<ValueId>,
    tr: Tr,
)
    requires
        0 <= k < is.len(),
        is[k].op == OpV::CallScript(name, vs),
        direct_instr(p, f, is, k),
        direct_program(p),
        known(f, is, k, tr),
    ensures
        x_instr(p, f, tr, is[k]) is Ok,
        ({
            let tr1 = (x_instr(p, f, tr, is[k])->Ok_0).0;
            let n = tr.insts.len() as int;
            &&& tr1.insts == tr.insts.push(InstV::CallScript(name, regs_of(tr, vs))).push(
                InstV::Call(Shim::Errored, Seq::empty()),
            ).push(InstV::Guard((n + 1) as usize))
            &&& tr1.ssa == tr.ssa.update((is[k].dest->0) as int, Some(n as usize))
        }),
{
    let i = is[k];
    let d = i.dest->0;
    let n = tr.insts.len() as int;
    let g = get_of(p.functions, name)->0;
    lemma_direct(p, name);
    let want = param_classes(g);
    assert forall|a: int| 0 <= a < vs.len() implies operand_ok(f, is, k, #[trigger] vs[a], want[a])
        && is_direct(want[a]) by {
        assert(g.locals.dom().contains(g.params[a]));
    }
    lemma_args_as_are(f, is, k, tr, vs, want, 0);
    let rs = regs_of(tr, vs);
    assert(rs.take(0) =~= Seq::<Reg>::empty());
    reveal(translate_op_of);
    reveal(x_call);
    reveal(Tr::emit);
    reveal(Tr::define);
    reveal(Tr::guarded_since);
    reveal(Tr::guarded);
    let x = InstV::CallScript(name, rs);
    let tr2 = tr.emit(x).0;
    assert(tr2.insts == tr.insts.push(x));
    lemma_defines(p, f, tr, i, tr2, d, n as usize);
    assert(any_fallible(tr2.insts, n)) by {
        assert(fallible(tr2.insts[n]));
    }
}

/// The code of an assignment.
proof fn lemma_set_laid(
    p: ProgramV,
    f: FunctionV,
    is: Seq<InstrV>,
    k: int,
    id: LocalId,
    v: ValueId,
    tr: Tr,
)
    requires
        0 <= k < is.len(),
        is[k].op == OpV::LocalSet(id, v),
        direct_instr(p, f, is, k),
        known(f, is, k, tr),
    ensures
        x_instr(p, f, tr, is[k]) is Ok,
        (x_instr(p, f, tr, is[k])->Ok_0).0.insts == tr.insts.push(
            InstV::SetVar(id, tr.ssa[v as int]->0),
        ),
        (x_instr(p, f, tr, is[k])->Ok_0).0.ssa == tr.ssa,
{
    assert(defined(is, k, v));
    let r = tr.ssa[v as int]->0;
    lemma_as_is(f, tr, v, r);
    reveal(x_instr);
    reveal(x_settled);
    reveal(x_define);
    reveal(translate_op_of);
    reveal(x_local);
    reveal(Tr::emit);
    reveal(Tr::guarded_since);
    let n = tr.insts.len() as int;
    let x = InstV::SetVar(id, r);
    let tr2 = tr.emit(x).0;
    assert(tr2.insts == tr.insts.push(x));
    assert(!any_fallible(tr2.insts, n)) by {
        assert forall|j: int| n <= j < tr2.insts.len() implies !fallible(#[trigger] tr2.insts[j]) by {
            assert(j == n);
        }
    }
}

/// The parameters of a call have what was passed.
proof fn lemma_passed(f: FunctionV, args: Seq<ValueV>, ws: Seq<u64>, n: int)
    requires
        0 <= n <= f.params.len(),
        args.len() == f.params.len(),
        ws.len() == args.len(),
        forall|a: int|
            0 <= a < f.params.len() ==> f.locals.dom().contains(#[trigger] f.params[a]) && is_of(
                args[a],
                repr_of(f.locals[f.params[a]]),
            ) && ws[a] == word(args[a]),
    ensures
        forall|id: LocalId| #[trigger]
            vm::bound(f.params, args, n).dom().contains(id) ==> f.locals.dom().contains(id) && is_of(
                vm::bound(f.params, args, n)[id],
                repr_of(f.locals[id]),
            ) && passed(f.params, ws, n)[id] == word(vm::bound(f.params, args, n)[id]),
    decreases n,
{
    if n > 0 {
        lemma_passed(f, args, ws, n - 1);
        let last = f.params[n - 1];
        let front = vm::bound(f.params, args, n - 1);
        let all = vm::bound(f.params, args, n);
        assert(all == front.insert(last, args[n - 1]));
        assert(passed(f.params, ws, n) == passed(f.params, ws, n - 1).insert(last, ws[n - 1]));
        assert forall|id: LocalId| #[trigger] all.dom().contains(id) implies f.locals.dom().contains(
            id,
        ) && is_of(all[id], repr_of(f.locals[id])) && passed(f.params, ws, n)[id] == word(
            all[id],
        ) by {
            if id != last {
                assert(front.dom().contains(id));
            }
        }
    }
}

/// The start of a call.
proof fn lemma_enters(
    p: ProgramV,
    f: FunctionV,
    g: FnPlanV,
    pools: PoolsV,
    st: VmV,
    name: Seq<char>,
    mark: usize,
    args: Seq<ValueV>,
    ws: Seq<u64>,
)
    requires
        st.wait is None,
        st.frames.len() > 0,
        get_of(p.functions, name) == Some(f),
        direct_function(p, f),
        compiled_from(p, f, g, pools),
        args.len() == f.params.len(),
        ws.len() == args.len(),
        forall|a: int|
            0 <= a < f.params.len() ==> is_of(
                args[a],
                repr_of(f.locals[#[trigger] f.params[a]]),
            ) && ws[a] == word(args[a]),
        st.frames.last() == vm::entered(CodeV::Function(name), f, args, mark),
    ensures
        alike(p, f, g, pools, st, activated(g, ws)),
        at_of(p, f, pools, st) == begin_of(g.code, f.entry as int),
{
    lemma_passed(f, args, ws, f.params.len() as int);
    lemma_layout(p, f, pools, f.entry as int, 0);
    let s0 = start_of(f, pools);
    lemma_ssa_len(p, f, pools, f.entry as int, 0);
}

/// Every value has its place in the translation.
proof fn lemma_ssa_len(p: ProgramV, f: FunctionV, pools: PoolsV, b: int, k: int)
    requires
        machine_code_of(p, f, pools) is Ok,
        (machine_code_of(p, f, pools)->Ok_0).0.insts.len() <= usize::MAX,
        0 <= b < f.blocks.len(),
        0 <= k <= f.blocks[b].instrs.len(),
    ensures
        tr_at(p, f, start_of(f, pools), b, k).ssa.len() == f.values.len(),
{
    let s0 = start_of(f, pools);
    lemma_start_typed(p, f, s0);
    lemma_added(p, f, s0, 0, Seq::empty());
    let blocks = (x_blocks(p, f, tr_block(p, f, s0, 0), 0, Seq::empty())->Ok_0).1;
    assert forall|e: int| 0 <= e < f.blocks.len() implies #[trigger] laid(p, f, s0, e) by {
        let there = blocks[e];
    }
    lemma_block_grows(p, f, s0, b, b);
    assert(laid(p, f, s0, b));
    lemma_instr_grows(p, f, s0, b, k);
    lemma_typed_len(p, f, tr_at(p, f, s0, b, k));
}

/// A run of the innermost function that ends comes to the same in its code.
proof fn lemma_run(
    p: ProgramV,
    plan: ModulePlanV,
    o: Answers,
    f: FunctionV,
    g: FnPlanV,
    pools: PoolsV,
    st: VmV,
    c: Core,
    n: nat,
) -> (r: (nat, nat, Option<ValueV>))
    requires
        direct_program(p),
        compiled(p, plan),
        computing(o),
        alike(p, f, g, pools, st, c),
        march(p, o, (st, ProgressV::Running), n).1 is Done,
    ensures
        came_to(p, plan, o, f, g, pools, st, c, n, r),
    decreases n, 2int,
{
    let fr = st.frames.last();
    let b = fr.block as int;
    let k = fr.pc as int;
    let is = f.blocks[b].instrs;
    if k == is.len() {
        lemma_run_term(p, plan, o, f, g, pools, st, c, n)
    } else {
        assert(direct_instr(p, f, is, k)) by {
            assert(f.blocks[b].instrs[k] == is[k]);
        }
        match is[k].op {
            OpV::CallScript(name, vs) => lemma_run_call(p, plan, o, f, g, pools, st, c, name, vs, n),
            _ => lemma_run_op(p, plan, o, f, g, pools, st, c, n),
        }
    }
}

/// The next instruction of a run.
proof fn lemma_next(p: ProgramV, f: FunctionV, g: FnPlanV, pools: PoolsV, b: int, k: int)
    requires
        compiled_from(p, f, g, pools),
        0 <= b < f.blocks.len(),
        0 <= k < f.blocks[b].instrs.len(),
    ensures
        ({
            let tr = tr_at(p, f, start_of(f, pools), b, k);
            let tr1 = tr_at(p, f, start_of(f, pools), b, k + 1);
            &&& x_instr(p, f, tr, f.blocks[b].instrs[k]) == Ok::<(Tr, ()), JitErrorV>((tr1, ()))
            &&& placed(g, b, tr1)
            &&& tr.insts.len() <= tr1.insts.len()
            &&& tr1.ssa.len() == f.values.len()
        }),
{
    lemma_layout(p, f, pools, b, k);
    lemma_layout(p, f, pools, b, k + 1);
    lemma_ssa_len(p, f, pools, b, k + 1);
    let s0 = start_of(f, pools);
    let tr = tr_at(p, f, s0, b, k);
    let tr1 = tr_at(p, f, s0, b, k + 1);
    let i = f.blocks[b].instrs[k];
    reveal(x_instr);
    assert(laid(p, f, s0, b));
    assert(x_instr(p, f, tr, i) is Ok);
    assert(tr1 == (x_instr(p, f, tr, i)->Ok_0).0);
    assert(placed(g, b, tr1));
}

/// A run goes on with an instruction that does not call.
proof fn lemma_run_op(
    p: ProgramV,
    plan: ModulePlanV,
    o: Answers,
    f: FunctionV,
    g: FnPlanV,
    pools: PoolsV,
    st: VmV,
    c: Core,
    n: nat,
) -> (r: (nat, nat, Option<ValueV>))
    requires
        direct_program(p),
        compiled(p, plan),
        computing(o),
        alike(p, f, g, pools, st, c),
        ({
            let fr = st.frames.last();
            let is = f.blocks[fr.block as int].instrs;
            fr.pc < is.len() && !(is[fr.pc as int].op is CallScript) && direct_instr(
                p,
                f,
                is,
                fr.pc as int,
            )
        }),
        march(p, o, (st, ProgressV::Running), n).1 is Done,
    ensures
        came_to(p, plan, o, f, g, pools, st, c, n, r),
    decreases n, 0int,
{
    let s = (st, ProgressV::Running);
    let fr = st.frames.last();
    let b = fr.block as int;
    let k = fr.pc as int;
    let is = f.blocks[b].instrs;
    let tr = tr_at(p, f, start_of(f, pools), b, k);
    let tr1 = tr_at(p, f, start_of(f, pools), b, k + 1);
    let at = tr.insts.len() as int;
    lemma_next(p, f, g, pools, b, k);
    assert(n > 0);
    match is[k].op {
        OpV::LocalSet(id, v) => {
            lemma_set_laid(p, f, is, k, id, v, tr);
            assert(defined(is, k, v));
            let x = fr.values[v];
            let fr1 = FrameV { pc: fr.pc + 1, locals: fr.locals.insert(id, x), ..fr };
            let st1 = with_frame(st, fr1);
            assert(march(p, o, s, 1) == (st1, ProgressV::Running)) by {
                reveal(vm::eval_op_of);
                reveal(vm::effected);
                reveal(vm::delivered);
                reveal_with_fuel(march, 2);
                let mid = st.frames.update(
                    st.frames.len() - 1,
                    FrameV { locals: fr.locals.insert(id, x), ..fr },
                );
                assert(mid.update(st.frames.len() - 1, fr1) =~= st1.frames);
            }
            let i = InstV::SetVar(id, tr.ssa[v as int]->0);
            assert(g.code.insts[at] == tr1.insts[at]);
            let c1 = done(o, c, at, i)->0;
            assert(mirrors(f, is, k + 1, tr1, fr1, c1)) by {
                assert forall|w: ValueId| #[trigger] defined(is, k + 1, w) implies defined(is, k, w) by {
                    let j = choose|j: int| 0 <= j < k + 1 && (#[trigger] is[j]).dest == Some(w);
                    assert(j < k);
                }
            }
            lemma_march(p, o, s, 1, (n - 1) as nat);
            assert(st1.frames.last() == fr1);
            assert(rest_of(st1).frames =~= rest_of(st).frames);
            let r = lemma_run(p, plan, o, f, g, pools, st1, c1, (n - 1) as nat);
            lemma_step(plan, o, g, c, b, at, r.0, i);
            lemma_later(p, plan, o, f, g, pools, st, c, st1, c1, 1, n, r, 1)
        },
        OpV::LocalGet(id) if !fr.locals.dom().contains(id) => {
            lemma_falls_here(p, o, s, n);
            (0, 0, None)
        },
        _ => {
            let a = lemma_op_marches(p, o, f, st, tr, c);
            assert(a <= n) by {
                if a == 2 && n == 1 {
                    assert(march(p, o, s, n).1 is Ask);
                }
            }
            lemma_march(p, o, s, a, (n - a) as nat);
            let op = is[k].op;
            match op_fails(fr, op) {
                Some(e) => {
                    reveal_with_fuel(march, 1);
                    assert(march(p, o, s, n).1 == ProgressV::Done(Err(e))) by {
                        lemma_stays(p, o, march(p, o, s, a), (n - a) as nat);
                    }
                    match op {
                        OpV::Binary(x, l, r) => {
                            lemma_refuses(p, plan, o, f, g, b, is, k, x, l, r, tr, tr1, fr, c);
                            (4, 0, None)
                        },
                        _ => (0, 0, None),
                    }
                },
                None => {
                    let v = op_value(o, fr, op);
                    let d = is[k].dest->0;
                    let fr1 = vm::advanced(p, fr, v);
                    let st1 = with_frame(st, fr1);
                    let c1 = lemma_computes(p, plan, o, f, g, b, is, k, tr, tr1, fr, c, 0);
                    lemma_mirrors_on(f, is, k, tr, tr1, fr, fr1, c, c1, d, v);
                    assert(st1.frames.last() == fr1);
                    assert(rest_of(st1).frames =~= rest_of(st).frames);
                    let r = lemma_run(p, plan, o, f, g, pools, st1, c1, (n - a) as nat);
                    let c2 = lemma_computes(p, plan, o, f, g, b, is, k, tr, tr1, fr, c, r.0);
                    lemma_later(
                        p,
                        plan,
                        o,
                        f,
                        g,
                        pools,
                        st,
                        c,
                        st1,
                        c1,
                        a,
                        n,
                        r,
                        (tr1.insts.len() - tr.insts.len()) as nat,
                    )
                },
            }
        },
    }
}

/// A machine that has ended stays as it is.
proof fn lemma_stays(p: ProgramV, o: Answers, s: (VmV, ProgressV), n: nat)
    requires
        s.1 is Done,
    ensures
        march(p, o, s, n) == s,
{
    reveal_with_fuel(march, 1);
}

/// A run goes on with the end of a block.
proof fn lemma_run_term(
    p: ProgramV,
    plan: ModulePlanV,
    o: Answers,
    f: FunctionV,
    g: FnPlanV,
    pools: PoolsV,
    st: VmV,
    c: Core,
    n: nat,
) -> (r: (nat, nat, Option<ValueV>))
    requires
        direct_program(p),
        compiled(p, plan),
        computing(o),
        alike(p, f, g, pools, st, c),
        st.frames.last().pc == f.blocks[st.frames.last().block as int].instrs.len(),
        march(p, o, (st, ProgressV::Running), n).1 is Done,
    ensures
        came_to(p, plan, o, f, g, pools, st, c, n, r),
    decreases n, 0int,
{
    let s = (st, ProgressV::Running);
    let fr = st.frames.last();
    let b = fr.block as int;
    let is = f.blocks[b].instrs;
    let k = is.len() as int;
    let tr = tr_at(p, f, start_of(f, pools), b, k);
    let at = tr.insts.len() as int;
    let term = f.blocks[b].term;
    lemma_layout(p, f, pools, b, k);
    reveal(x_term);
    assert(n > 0);
    match term {
        Terminator::Return(Some(v)) => {
            assert(defined(is, k, v));
            let x = tr.ssa[v as int]->0;
            lemma_as_is(f, tr, v, x);
            lemma_machine_returns(p, o, st, f, term, fr.values[v]);
            (1, 1, Some(fr.values[v]))
        },
        Terminator::Jump(t) => {
            let st1 = lemma_jumped(p, o, f, g, pools, st, c, t);
            lemma_march(p, o, s, 1, (n - 1) as nat);
            if t < b {
                reveal(Tr::emit);
                let look = InstV::Call(Shim::Errored, Seq::empty());
                assert(tr_term(p, f, tr_block(p, f, start_of(f, pools), b), b).0.insts[at] == look);
                assert(g.code.insts[at] == look);
                let c1 = c.put(at, 0);
                assert(alike(p, f, g, pools, st1, c1));
                let r = lemma_run(p, plan, o, f, g, pools, st1, c1, (n - 1) as nat);
                lemma_step(plan, o, g, c, b, at, r.0 + 1, look);
                assert(c1.at(at as usize) == 0);
                lemma_later(p, plan, o, f, g, pools, st, c, st1, c1, 1, n, r, 2)
            } else {
                let r = lemma_run(p, plan, o, f, g, pools, st1, c, (n - 1) as nat);
                lemma_later(p, plan, o, f, g, pools, st, c, st1, c, 1, n, r, 1)
            }
        },
        Terminator::Branch { cond, then_blk, else_blk } => {
            assert(defined(is, k, cond));
            let x = tr.ssa[cond as int]->0;
            lemma_as_is(f, tr, cond, x);
            reveal(x_truthy);
            let t = if truthy(fr.values[cond]) {
                then_blk
            } else {
                else_blk
            };
            let st1 = lemma_jumped(p, o, f, g, pools, st, c, t);
            lemma_march(p, o, s, 1, (n - 1) as nat);
            let r = lemma_run(p, plan, o, f, g, pools, st1, c, (n - 1) as nat);
            lemma_later(p, plan, o, f, g, pools, st, c, st1, c, 1, n, r, 1)
        },
        _ => {
            lemma_falls_here(p, o, s, n);
            (0, 0, None)
        },
    }
}

/// The machine goes on at another block.
proof fn lemma_jumped(
    p: ProgramV,
    o: Answers,
    f: FunctionV,
    g: FnPlanV,
    pools: PoolsV,
    st: VmV,
    c: Core,
    t: BlockId,
) -> (st1: VmV)
    requires
        alike(p, f, g, pools, st, c),
        t < f.blocks.len(),
        ({
            let fr = st.frames.last();
            let b = f.blocks[fr.block as int];
            fr.pc == b.instrs.len() && match b.term {
                Terminator::Jump(x) => t == x,
                Terminator::Branch { cond, then_blk, else_blk } => fr.values.dom().contains(cond)
                    && t == (if truthy(fr.values[cond]) {
                    then_blk
                } else {
                    else_blk
                }),
                _ => false,
            }
        }),
    ensures
        march(p, o, (st, ProgressV::Running), 1) == (st1, ProgressV::Running),
        st1.frames.len() == st.frames.len(),
        st1.frames.last() == (FrameV { block: t, pc: 0, ..st.frames.last() }),
        rest_of(st1) == rest_of(st),
        alike(p, f, g, pools, st1, c),
        at_of(p, f, pools, st1) == begin_of(g.code, t as int),
{
    reveal(vm::terminated);
    reveal(vm::jumped);
    reveal_with_fuel(march, 2);
    let st1 = vm::jumped(st, t);
    assert(rest_of(st1).frames =~= rest_of(st).frames);
    lemma_layout(p, f, pools, t as int, 0);
    lemma_ssa_len(p, f, pools, t as int, 0);
    st1
}

/// The code of a call whose callee returns a word.
proof fn lemma_go_call(
    plan: ModulePlanV,
    o: Answers,
    g: FnPlanV,
    c: Core,
    b: int,
    at: int,
    name: Seq<char>,
    rs: Seq<Reg>,
    cg: FnPlanV,
    w: Option<u64>,
    x: nat,
    y: nat,
)
    requires
        0 <= b < g.code.blocks.len(),
        0 <= at,
        at + 2 < g.code.blocks[b].end <= usize::MAX,
        g.code.insts[at] == InstV::CallScript(name, rs),
        g.code.insts[at + 1] == InstV::Call(Shim::Errored, Seq::empty()),
        g.code.insts[at + 2] == InstV::Guard((at + 1) as usize),
        get_of(plan.functions, name) == Some(cg),
        go(
            plan,
            o,
            cg,
            activated(cg, words_in(c, rs)),
            cg.entry as int,
            begin_of(cg.code, cg.entry as int),
            x,
        ) == Some(w),
        !c.err,
    ensures
        match w {
            Some(z) => go(plan, o, g, c, b, at, x + y + 3) == go(
                plan,
                o,
                g,
                c.put(at, z).put(at + 1, 0),
                b,
                at + 3,
                x + y,
            ),
            None => go(plan, o, g, c, b, at, x + y + 3) == Some(None::<u64>),
        },
{
    let c0 = activated(cg, words_in(c, rs));
    let e = cg.entry as int;
    lemma_go_more(plan, o, cg, c0, e, begin_of(cg.code, e), x, x + y + 2);
    let look = InstV::Call(Shim::Errored, Seq::empty());
    match w {
        Some(z) => {
            let c1 = c.put(at, z);
            assert(go(plan, o, g, c, b, at, x + y + 3) == go(plan, o, g, c1, b, at + 1, x + y + 2));
            lemma_guard(plan, o, g, c1, b, at + 1, x + y);
        },
        None => {
            let c1 = Core { err: true, ..c.put(at, 0) };
            assert(go(plan, o, g, c, b, at, x + y + 3) == go(plan, o, g, c1, b, at + 1, x + y + 2));
            let c2 = c1.put(at + 1, 1);
            assert(done(o, c1, at + 1, look) == Some(c2));
            lemma_step(plan, o, g, c1, b, at + 1, x + y + 1, look);
            assert(c2.at((at + 1) as usize) == 1);
            assert(go(plan, o, g, c2, b, at + 2, x + y + 1) == Some(None::<u64>));
        },
    }
}

/// A run goes on with a call.
proof fn lemma_run_call(
    p: ProgramV,
    plan: ModulePlanV,
    o: Answers,
    f: FunctionV,
    g: FnPlanV,
    pools: PoolsV,
    st: VmV,
    c: Core,
    name: Seq<char>,
    vs: Seq<ValueId>,
    n: nat,
) -> (r: (nat, nat, Option<ValueV>))
    requires
        direct_program(p),
        compiled(p, plan),
        computing(o),
        alike(p, f, g, pools, st, c),
        at_call(p, f, st, name, vs),
        march(p, o, (st, ProgressV::Running), n).1 is Done,
    ensures
        came_to(p, plan, o, f, g, pools, st, c, n, r),
    decreases n, 1int,
{
    let s = (st, ProgressV::Running);
    assert(n > 0);
    let (cp, inner) = lemma_enter(p, plan, o, f, g, pools, st, c, name, vs);
    let callee = get_of(p.functions, name)->0;
    let cg = get_of(plan.functions, name)->0;
    let c0 = activated(cg, passed_at(p, f, pools, st, c, vs));
    lemma_march(p, o, s, 1, (n - 1) as nat);
    let r0 = lemma_run(p, plan, o, callee, cg, cp, inner, c0, (n - 1) as nat);
    match r0.2 {
        None => {
            if falls(p, o, (inner, ProgressV::Running), (n - 1) as nat) {
                lemma_falls(p, o, s, 1, n);
            } else {
                lemma_run_fails(p, plan, o, f, g, pools, st, c, name, vs, cg, r0.0);
            }
            (r0.0 + 3, 0, None)
        },
        Some(v) => {
            lemma_march(p, o, s, 1, r0.1);
            lemma_run_back(p, plan, o, f, g, pools, st, c, name, vs, cg, v, r0.0, 1 + r0.1, n)
        },
    }
}

/// The words that a call passes.
spec fn passed_at(
    p: ProgramV,
    f: FunctionV,
    pools: PoolsV,
    st: VmV,
    c: Core,
    vs: Seq<ValueId>,
) -> Seq<u64> {
    let fr = st.frames.last();
    words_in(c, regs_of(tr_at(p, f, start_of(f, pools), fr.block as int, fr.pc as int), vs))
}

/// The machine and the code enter a call.
proof fn lemma_enter(
    p: ProgramV,
    plan: ModulePlanV,
    o: Answers,
    f: FunctionV,
    g: FnPlanV,
    pools: PoolsV,
    st: VmV,
    c: Core,
    name: Seq<char>,
    vs: Seq<ValueId>,
) -> (r: (PoolsV, VmV))
    requires
        direct_program(p),
        compiled(p, plan),
        alike(p, f, g, pools, st, c),
        at_call(p, f, st, name, vs),
    ensures
        march(p, o, (st, ProgressV::Running), 1) == (r.1, ProgressV::Running),
        get_of(p.functions, name) is Some,
        get_of(plan.functions, name) is Some,
        r.1.frames.len() == st.frames.len() + 1,
        rest_of(r.1) == st,
        ({
            let callee = get_of(p.functions, name)->0;
            let cg = get_of(plan.functions, name)->0;
            &&& r.1.frames.last().block == cg.entry
            &&& at_of(p, callee, r.0, r.1) == begin_of(cg.code, cg.entry as int)
            &&& alike(
                p,
                callee,
                cg,
                r.0,
                r.1,
                activated(cg, passed_at(p, f, pools, st, c, vs)),
            )
        }),
{
    let fr = st.frames.last();
    let b = fr.block as int;
    let k = fr.pc as int;
    let is = f.blocks[b].instrs;
    let tr = tr_at(p, f, start_of(f, pools), b, k);
    let tr1 = tr_at(p, f, start_of(f, pools), b, k + 1);
    lemma_next(p, f, g, pools, b, k);
    lemma_called_at(p, f, is, k, tr, tr1, fr, c, name, vs);
    let callee = get_of(p.functions, name)->0;
    lemma_direct(p, name);
    let cg = get_of(plan.functions, name)->0;
    let cp = choose|cp: PoolsV| #[trigger] compiled_from(p, callee, cg, cp);
    let args = Seq::new(vs.len(), |a: int| fr.values[vs[a]]);
    let ws = passed_at(p, f, pools, st, c, vs);
    let inner = entered_call(p, st, name, args);
    let mark = st.heap.len() as usize;
    lemma_enter_marches(p, o, f, st, name, vs, args);
    assert(inner.frames.last() == vm::entered(CodeV::Function(name), callee, args, mark));
    lemma_enters(p, callee, cg, cp, inner, name, mark, args, ws);
    assert(rest_of(inner).frames =~= st.frames);
    (cp, inner)
}

/// The code of a call that fails.
proof fn lemma_run_fails(
    p: ProgramV,
    plan: ModulePlanV,
    o: Answers,
    f: FunctionV,
    g: FnPlanV,
    pools: PoolsV,
    st: VmV,
    c: Core,
    name: Seq<char>,
    vs: Seq<ValueId>,
    cg: FnPlanV,
    x: nat,
)
    requires
        direct_program(p),
        alike(p, f, g, pools, st, c),
        at_call(p, f, st, name, vs),
        get_of(plan.functions, name) == Some(cg),
        go(
            plan,
            o,
            cg,
            activated(cg, passed_at(p, f, pools, st, c, vs)),
            cg.entry as int,
            begin_of(cg.code, cg.entry as int),
            x,
        ) == Some(None::<u64>),
    ensures
        go(plan, o, g, c, st.frames.last().block as int, at_of(p, f, pools, st), x + 3) == Some(
            None::<u64>,
        ),
{
    let fr = st.frames.last();
    let b = fr.block as int;
    let k = fr.pc as int;
    let tr = tr_at(p, f, start_of(f, pools), b, k);
    let tr1 = tr_at(p, f, start_of(f, pools), b, k + 1);
    let at = tr.insts.len() as int;
    lemma_next(p, f, g, pools, b, k);
    lemma_called_at(p, f, f.blocks[b].instrs, k, tr, tr1, fr, c, name, vs);
    assert(g.code.insts[at] == tr1.insts[at]);
    assert(g.code.insts[at + 1] == tr1.insts[at + 1]);
    assert(g.code.insts[at + 2] == tr1.insts[at + 2]);
    lemma_go_call(plan, o, g, c, b, at, name, regs_of(tr, vs), cg, None, x, 0);
}

/// Whether the machine stands at a call.
spec fn at_call(p: ProgramV, f: FunctionV, st: VmV, name: Seq<char>, vs: Seq<ValueId>) -> bool {
    let fr = st.frames.last();
    let is = f.blocks[fr.block as int].instrs;
    &&& fr.pc < is.len()
    &&& is[fr.pc as int].op == OpV::CallScript(name, vs)
    &&& direct_instr(p, f, is, fr.pc as int)
}

/// A run goes on after a call that has returned a value.
proof fn lemma_run_back(
    p: ProgramV,
    plan: ModulePlanV,
    o: Answers,
    f: FunctionV,
    g: FnPlanV,
    pools: PoolsV,
    st: VmV,
    c: Core,
    name: Seq<char>,
    vs: Seq<ValueId>,
    cg: FnPlanV,
    v: ValueV,
    x: nat,
    a: nat,
    n: nat,
) -> (r: (nat, nat, Option<ValueV>))
    requires
        direct_program(p),
        compiled(p, plan),
        computing(o),
        alike(p, f, g, pools, st, c),
        at_call(p, f, st, name, vs),
        0 < a <= n,
        march(p, o, (st, ProgressV::Running), a) == (vm::delivered(p, st, v), ProgressV::Running),
        get_of(plan.functions, name) == Some(cg),
        is_of(v, repr_of((get_of(p.functions, name)->0).ret)),
        go(
            plan,
            o,
            cg,
            activated(cg, passed_at(p, f, pools, st, c, vs)),
            cg.entry as int,
            begin_of(cg.code, cg.entry as int),
            x,
        ) == Some(Some(word(v))),
        march(p, o, (st, ProgressV::Running), n).1 is Done,
    ensures
        came_to(p, plan, o, f, g, pools, st, c, n, r),
    decreases n, 0int,
{
    let s = (st, ProgressV::Running);
    let fr = st.frames.last();
    let b = fr.block as int;
    let k = fr.pc as int;
    let is = f.blocks[b].instrs;
    let tr = tr_at(p, f, start_of(f, pools), b, k);
    let tr1 = tr_at(p, f, start_of(f, pools), b, k + 1);
    let at = tr.insts.len() as int;
    let d = is[k].dest->0;
    lemma_next(p, f, g, pools, b, k);
    lemma_called_at(p, f, is, k, tr, tr1, fr, c, name, vs);
    let fr1 = vm::advanced(p, fr, v);
    let st1 = with_frame(st, fr1);
    assert(vm::delivered(p, st, v) == st1) by {
        reveal(vm::delivered);
    }
    lemma_march(p, o, s, a, (n - a) as nat);
    let c1 = c.put(at, word(v)).put(at + 1, 0);
    lemma_mirrors_on(f, is, k, tr, tr1, fr, fr1, c, c1, d, v);
    assert(st1.frames.last() == fr1);
    assert(rest_of(st1).frames =~= rest_of(st).frames);
    assert(alike(p, f, g, pools, st1, c1));
    let r = lemma_run(p, plan, o, f, g, pools, st1, c1, (n - a) as nat);
    assert(g.code.insts[at] == tr1.insts[at]);
    assert(g.code.insts[at + 1] == tr1.insts[at + 1]);
    assert(g.code.insts[at + 2] == tr1.insts[at + 2]);
    let rs = regs_of(tr, vs);
    lemma_go_call(plan, o, g, c, b, at, name, rs, cg, Some(word(v)), x, r.0);
    let more = (x + r.0, r.1, r.2);
    if go(plan, o, g, c1, b, at + 3, r.0) is Some {
        lemma_go_more(plan, o, g, c1, b, at + 3, r.0, x + r.0);
    }
    assert(came_to(p, plan, o, f, g, pools, st1, c1, (n - a) as nat, more));
    lemma_later(p, plan, o, f, g, pools, st, c, st1, c1, a, n, more, 3)
}

/// What a call passes, and where its result goes.
proof fn lemma_called_at(
    p: ProgramV,
    f: FunctionV,
    is: Seq<InstrV>,
    k: int,
    tr: Tr,
    tr1: Tr,
    fr: FrameV,
    c: Core,
    name: Seq<char>,
    vs: Seq<ValueId>,
)
    requires
        0 <= k < is.len(),
        is[k].op == OpV::CallScript(name, vs),
        direct_instr(p, f, is, k),
        direct_program(p),
        mirrors(f, is, k, tr, fr, c),
        x_instr(p, f, tr, is[k]) == Ok::<(Tr, ()), JitErrorV>((tr1, ())),
    ensures
        ({
            let n = tr.insts.len() as int;
            let callee = get_of(p.functions, name)->0;
            let ws = words_in(c, regs_of(tr, vs));
            &&& tr1.insts == tr.insts.push(InstV::CallScript(name, regs_of(tr, vs))).push(
                InstV::Call(Shim::Errored, Seq::empty()),
            ).push(InstV::Guard((n + 1) as usize))
            &&& tr1.ssa == tr.ssa.update((is[k].dest->0) as int, Some(n as usize))
            &&& vs.len() == callee.params.len()
            &&& forall|a: int|
                0 <= a < vs.len() ==> fr.values.dom().contains(#[trigger] vs[a])
            &&& forall|a: int|
                0 <= a < callee.params.len() ==> is_of(
                    fr.values[vs[a]],
                    repr_of(callee.locals[#[trigger] callee.params[a]]),
                ) && ws[a] == word(fr.values[vs[a]])
        }),
{
    lemma_call_laid(p, f, is, k, name, vs, tr);
    let callee = get_of(p.functions, name)->0;
    let ws = words_in(c, regs_of(tr, vs));
    lemma_direct(p, name);
    assert forall|a: int| 0 <= a < vs.len() implies fr.values.dom().contains(#[trigger] vs[a]) by {
        assert(defined(is, k, vs[a]));
    }
    assert forall|a: int| 0 <= a < callee.params.len() implies is_of(
        fr.values[vs[a]],
        repr_of(callee.locals[#[trigger] callee.params[a]]),
    ) && ws[a] == word(fr.values[vs[a]]) by {
        assert(operand_ok(f, is, k, vs[a], param_classes(callee)[a]));
        assert(defined(is, k, vs[a]));
    }
}

/// The machine enters a call.
proof fn lemma_enter_marches(
    p: ProgramV,
    o: Answers,
    f: FunctionV,
    st: VmV,
    name: Seq<char>,
    vs: Seq<ValueId>,
    args: Seq<ValueV>,
)
    requires
        st.wait is None,
        st.frames.len() > 0,
        vm::code_of(p, st.frames.last().code) == Some(f),
        st.frames.last().block < f.blocks.len(),
        ({
            let fr = st.frames.last();
            let is = f.blocks[fr.block as int].instrs;
            &&& fr.pc < is.len()
            &&& is[fr.pc as int].op == OpV::CallScript(name, vs)
            &&& args.len() == vs.len()
            &&& forall|a: int|
                0 <= a < vs.len() ==> fr.values.dom().contains(#[trigger] vs[a]) && fr.values[vs[a]]
                    == args[a]
        }),
        get_of(p.functions, name) is Some,
    ensures
        march(p, o, (st, ProgressV::Running), 1) == (
            entered_call(p, st, name, args),
            ProgressV::Running,
        ),
{
    let fr = st.frames.last();
    let n = st.frames.len() - 1;
    assert forall|a: int| 0 <= a < vs.len() implies has(fr, #[trigger] vs[a], args[a]) by {}
    lemma_vals(fr, vs, args, 0);
    assert(args.take(0) =~= Seq::<ValueV>::empty());
    reveal(vm::eval_op_of);
    reveal(vm::call_op);
    reveal(vm::effected);
    reveal_with_fuel(march, 2);
    assert(st.frames.update(n, FrameV { locals: fr.locals, ..fr }) =~= st.frames);
}

// ---- calls -----------------------------------------------------------------------------------

/// An operation with a result becomes code.
proof fn lemma_defined_ok(p: ProgramV, f: FunctionV, tr: Tr, i: InstrV, tr2: Tr, d: ValueId, r: Reg)
    requires
        i.dest == Some(d),
        d < f.values.len(),
        translate_op_of(p, f, tr, i.op, i.dest) == Ok::<(Tr, Option<Reg>), JitErrorV>(
            (tr2, Some(r)),
        ),
        result_class(p, f, i.op, i.dest) == class_of(f, d),
        is_direct(class_of(f, d)),
        tr2.ssa == tr.ssa,
    ensures
        x_instr(p, f, tr, i) is Ok,
        (x_instr(p, f, tr, i)->Ok_0).0.ssa == tr.ssa.update(d as int, Some(r)),
{
    lemma_defines(p, f, tr, i, tr2, d, r);
    reveal(Tr::define);
    reveal(Tr::guarded_since);
    reveal(Tr::guarded);
    reveal(Tr::emit);
}

/// An instruction on numbers and bools becomes code.
proof fn lemma_instr_ok(p: ProgramV, f: FunctionV, is: Seq<InstrV>, k: int, tr: Tr)
    requires
        0 <= k < is.len(),
        direct_instr(p, f, is, k),
        direct_program(p),
        known(f, is, k, tr),
    ensures
        x_instr(p, f, tr, is[k]) is Ok,
        known(f, is, k + 1, (x_instr(p, f, tr, is[k])->Ok_0).0),
{
    let i = is[k];
    match i.op {
        OpV::LocalSet(id, v) => {
            lemma_set_laid(p, f, is, k, id, v, tr);
        },
        OpV::CallScript(name, vs) => {
            lemma_call_laid(p, f, is, k, name, vs, tr);
        },
        _ => {
            let d = i.dest->0;
            reveal(translate_op_of);
            reveal(Tr::emit);
            reveal(x_local);
            match i.op {
                OpV::Unary(_, v) => {
                    assert(defined(is, k, v));
                    lemma_as_is(f, tr, v, tr.ssa[v as int]->0);
                    reveal(x_truthy);
                },
                OpV::Truthy(v) => {
                    assert(defined(is, k, v));
                    lemma_as_is(f, tr, v, tr.ssa[v as int]->0);
                    reveal(x_truthy);
                },
                OpV::Binary(b, l, r) => {
                    assert(defined(is, k, l) && defined(is, k, r));
                    lemma_as_is(f, tr, l, tr.ssa[l as int]->0);
                    lemma_as_is(f, tr, r, tr.ssa[r as int]->0);
                    reveal(x_binary);
                    reveal(x_both);
                    reveal(x_arith);
                    reveal(x_equality);
                    reveal(x_ordering);
                },
                OpV::CallBuiltinMember(_, _, args) => {
                    assert(defined(is, k, args[0]));
                    lemma_as_is(f, tr, args[0], tr.ssa[args[0] as int]->0);
                    reveal(x_call);
                },
                _ => {},
            }
            let (tr2, r) = translate_op_of(p, f, tr, i.op, i.dest)->Ok_0;
            lemma_defined_ok(p, f, tr, i, tr2, d, r->0);
        },
    }
    let tr1 = (x_instr(p, f, tr, i)->Ok_0).0;
    assert forall|w: ValueId| #[trigger] defined(is, k + 1, w) implies w < f.values.len()
        && tr1.ssa[w as int] is Some by {
        let j = choose|j: int| 0 <= j < k + 1 && (#[trigger] is[j]).dest == Some(w);
        if j < k {
            assert(defined(is, k, w));
        }
    }
}

proof fn lemma_instrs_ok(p: ProgramV, f: FunctionV, b: int, k: int, tr: Tr)
    requires
        direct_program(p),
        direct_function(p, f),
        0 <= b < f.blocks.len(),
        0 <= k <= f.blocks[b].instrs.len(),
        known(f, f.blocks[b].instrs, k, tr),
    ensures
        x_instrs(p, f, tr, f.blocks[b].instrs, k) is Ok,
        known(
            f,
            f.blocks[b].instrs,
            f.blocks[b].instrs.len() as int,
            (x_instrs(p, f, tr, f.blocks[b].instrs, k)->Ok_0).0,
        ),
    decreases f.blocks[b].instrs.len() - k,
{
    let is = f.blocks[b].instrs;
    unfold_x_instrs(p, f, tr, is, k);
    if k < is.len() {
        assert(direct_instr(p, f, is, k)) by {
            assert(f.blocks[b].instrs[k] == is[k]);
        }
        lemma_instr_ok(p, f, is, k, tr);
        lemma_instrs_ok(p, f, b, k + 1, (x_instr(p, f, tr, is[k])->Ok_0).0);
    }
}

proof fn lemma_blocks_ok(p: ProgramV, f: FunctionV, tr: Tr, b: int, acc: Seq<MachineBlock>)
    requires
        direct_program(p),
        direct_function(p, f),
        0 <= b <= f.blocks.len(),
        tr.ssa.len() == f.values.len(),
    ensures
        x_blocks(p, f, tr, b, acc) is Ok,
    decreases f.blocks.len() - b,
{
    unfold_x_blocks(p, f, tr, b, acc);
    if b < f.blocks.len() {
        let is = f.blocks[b].instrs;
        let n = is.len() as int;
        assert(known(f, is, 0, tr));
        lemma_instrs_ok(p, f, b, 0, tr);
        let tr1 = (x_instrs(p, f, tr, is, 0)->Ok_0).0;
        let term = f.blocks[b].term;
        reveal(x_term);
        reveal(Tr::emit);
        match term {
            Terminator::Return(Some(v)) => {
                assert(defined(is, n, v));
                lemma_as_is(f, tr1, v, tr1.ssa[v as int]->0);
            },
            Terminator::Branch { cond, .. } => {
                assert(defined(is, n, cond));
                lemma_as_is(f, tr1, cond, tr1.ssa[cond as int]->0);
                reveal(x_truthy);
            },
            _ => {},
        }
        let (tr2, end) = x_term(f, tr1, term, b)->Ok_0;
        let next = acc.push(MachineBlock { end: tr2.insts.len() as usize, term: end });
        lemma_blocks_ok(p, f, tr2, b + 1, next);
    }
}

proof fn lemma_plans_ok(
    p: ProgramV,
    fs: Seq<(Seq<char>, FunctionV)>,
    i: int,
    constant: bool,
    pools: PoolsV,
    acc: Seq<(Seq<char>, FnPlanV)>,
)
    requires
        direct_program(p),
        all_direct(p, fs),
        0 <= i <= fs.len(),
    ensures
        plans_of(p, fs, i, constant, pools, acc) is Ok,
    decreases fs.len() - i,
{
    unfold_plans_of(p, fs, i, constant, pools, acc);
    if i < fs.len() {
        let f = fs[i].1;
        assert(direct_function(p, f));
        lemma_blocks_ok(p, f, start_of(f, pools), 0, Seq::empty());
        assert(machine_code_of(p, f, pools) is Ok);
        let (g, out) = planned(p, fs[i].0, f, constant, pools)->Ok_0;
        lemma_plans_ok(p, fs, i + 1, constant, out, acc.push((fs[i].0, g)));
    }
}

/// Every program of numbers and bools compiles.
pub proof fn law_direct_programs_compile(p: ProgramV)
    requires
        direct_program(p),
    ensures
        module_plan_of(p) is Ok,
{
    lemma_plans_ok(p, p.functions, 0, false, empty_pools(), Seq::empty());
    let pools = (plans_of(p, p.functions, 0, false, empty_pools(), Seq::empty())->Ok_0).1;
    lemma_plans_ok(p, p.constants, 0, true, pools, Seq::empty());
}

/// Whether a plan is that of a function, from some pools on.
spec fn plan_from(p: ProgramV, name: Seq<char>, f: FunctionV, g: FnPlanV) -> bool {
    exists|pools: PoolsV| #[trigger]
        planned(p, name, f, false, pools) is Ok && (planned(p, name, f, false, pools)->Ok_0).0 == g
}

/// The plans are those of the functions, in their order.
proof fn lemma_plans(
    p: ProgramV,
    fs: Seq<(Seq<char>, FunctionV)>,
    i: int,
    pools: PoolsV,
    acc: Seq<(Seq<char>, FnPlanV)>,
)
    requires
        0 <= i <= fs.len(),
        acc.len() == i,
        plans_of(p, fs, i, false, pools, acc) is Ok,
        forall|j: int| 0 <= j < i ==> (#[trigger] acc[j]).0 == fs[j].0 && plan_from(
            p,
            fs[j].0,
            fs[j].1,
            acc[j].1,
        ),
    ensures
        ({
            let all = (plans_of(p, fs, i, false, pools, acc)->Ok_0).0;
            &&& all.len() == fs.len()
            &&& forall|j: int|
                0 <= j < fs.len() ==> (#[trigger] all[j]).0 == fs[j].0 && plan_from(
                    p,
                    fs[j].0,
                    fs[j].1,
                    all[j].1,
                )
        }),
    decreases fs.len() - i,
{
    unfold_plans_of(p, fs, i, false, pools, acc);
    if i < fs.len() {
        let (g, out) = planned(p, fs[i].0, fs[i].1, false, pools)->Ok_0;
        let more = acc.push((fs[i].0, g));
        assert(plan_from(p, fs[i].0, fs[i].1, g)) by {
            assert(planned(p, fs[i].0, fs[i].1, false, pools) is Ok);
        }
        assert forall|j: int| 0 <= j < i + 1 implies (#[trigger] more[j]).0 == fs[j].0 && plan_from(
            p,
            fs[j].0,
            fs[j].1,
            more[j].1,
        ) by {
            if j < i {
                assert(more[j] == acc[j]);
            }
        }
        lemma_plans(p, fs, i + 1, out, more);
    }
}

/// Every parameter of numbers and bools is bound.
proof fn lemma_all_bound(f: FunctionV, n: nat)
    requires
        n <= f.params.len(),
        forall|a: int|
            0 <= a < f.params.len() ==> is_direct(repr_of(f.locals[#[trigger] f.params[a]])),
    ensures
        bound_of(f, n) == f.params.take(n as int),
    decreases n,
{
    if n > 0 {
        lemma_all_bound(f, (n - 1) as nat);
        assert(is_direct(repr_of(f.locals[f.params[n - 1]])));
        assert(f.params.take(n - 1).push(f.params[n - 1]) =~= f.params.take(n as int));
    } else {
        assert(f.params.take(0) =~= Seq::<LocalId>::empty());
    }
}

/// Whether the code of every function has as many instructions as can be counted.
pub open spec fn countable(plan: ModulePlanV) -> bool {
    forall|i: int|
        0 <= i < plan.functions.len() ==> (#[trigger] plan.functions[i]).1.code.insts.len()
            <= usize::MAX
}

/// A planned program is compiled.
proof fn lemma_compiled(p: ProgramV)
    requires
        direct_program(p),
        module_plan_of(p) is Ok,
        countable((module_plan_of(p)->Ok_0).0),
    ensures
        compiled(p, (module_plan_of(p)->Ok_0).0),
{
    let plan = (module_plan_of(p)->Ok_0).0;
    lemma_plans(p, p.functions, 0, empty_pools(), Seq::empty());
    assert(keys_of(plan.functions) =~= keys_of(p.functions));
    assert forall|name: Seq<char>|
        #![trigger get_of(p.functions, name)]
        get_of(p.functions, name) is Some implies (get_of(plan.functions, name) matches Some(g)
            && exists|pools: PoolsV| #[trigger]
        compiled_from(p, get_of(p.functions, name)->0, g, pools)) by {
        let f = get_of(p.functions, name)->0;
        let j = pos_of(keys_of(p.functions), name, 0);
        lemma_pos(keys_of(p.functions), name, 0);
        let entry = plan.functions[j];
        assert(entry.0 == name);
        let g = entry.1;
        assert(plan_from(p, name, f, g));
        let pools = choose|pools: PoolsV| #[trigger]
            planned(p, name, f, false, pools) is Ok && (planned(p, name, f, false, pools)->Ok_0).0
                == g;
        lemma_direct(p, name);
        lemma_all_bound(f, f.params.len());
        assert(f.params.take(f.params.len() as int) =~= f.params);
        assert(compiled_from(p, f, g, pools));
    }
}

/// The words of values.
pub open spec fn words_of(vs: Seq<ValueV>) -> Seq<u64> {
    Seq::new(vs.len(), |i: int| word(vs[i]))
}

/// What the code of a function comes to on words, within `q` steps.
pub open spec fn compiled_call(
    plan: ModulePlanV,
    o: Answers,
    name: Seq<char>,
    ws: Seq<u64>,
    q: nat,
) -> Option<Option<u64>> {
    match get_of(plan.functions, name) {
        Some(g) => go(plan, o, g, activated(g, ws), g.entry as int, begin_of(g.code, g.entry as int), q),
        None => None,
    }
}

/// Whether values are of the classes of a function's parameters.
pub open spec fn suits(f: FunctionV, args: Seq<ValueV>) -> bool {
    args.len() == f.params.len() && forall|a: int|
        0 <= a < args.len() ==> is_of(#[trigger] args[a], param_classes(f)[a])
}

/// A program of numbers and bools compiles, and its code does what the machine does: where a call of an
/// exported function ends in the machine, without reading a variable that was not set and
/// without running off the end of a function, the function's code returns the word of the
/// machine's result, or notes an error where the machine fails.
pub proof fn law_compiled_calls_agree(
    p: ProgramV,
    o: Answers,
    st: VmV,
    name: Seq<char>,
    code: Seq<char>,
    args: Seq<ValueV>,
    n: nat,
)
    requires
        direct_program(p),
        countable((module_plan_of(p)->Ok_0).0),
        computing(o),
        get_of(p.exports, name) == Some(ExportTargetV::Function(code)),
        get_of(p.functions, code) matches Some(f) && suits(f, args),
        march(p, o, vm::call_of(p, st, name, args), n).1 is Done,
        !falls(p, o, vm::call_of(p, st, name, args), n),
    ensures
        module_plan_of(p) is Ok,
        ({
            let plan = (module_plan_of(p)->Ok_0).0;
            let f = get_of(p.functions, code)->0;
            exists|q: nat| #![trigger compiled_call(plan, o, code, words_of(args), q)]
                match march(p, o, vm::call_of(p, st, name, args), n).1 {
                    ProgressV::Done(Ok(v)) => is_of(v, repr_of(f.ret)) && compiled_call(
                        plan,
                        o,
                        code,
                        words_of(args),
                        q,
                    ) == Some(Some(word(v))),
                    _ => compiled_call(plan, o, code, words_of(args), q) == Some(None::<u64>),
                }
        }),
{
    let plan = (module_plan_of(p)->Ok_0).0;
    let f = get_of(p.functions, code)->0;
    law_direct_programs_compile(p);
    lemma_compiled(p);
    lemma_direct(p, code);
    let g = get_of(plan.functions, code)->0;
    let pools = choose|pools: PoolsV| #[trigger] compiled_from(p, f, g, pools);
    let s = vm::call_of(p, st, name, args);
    let ws = words_of(args);
    assert(s == vm::started(st, CodeV::Function(code), f, args));
    assert forall|a: int| 0 <= a < f.params.len() implies is_of(
        args[a],
        repr_of(f.locals[#[trigger] f.params[a]]),
    ) && ws[a] == word(args[a]) by {
        assert(is_of(args[a], param_classes(f)[a]));
    }
    lemma_enters(p, f, g, pools, s.0, code, st.heap.len() as usize, args, ws);
    let c = activated(g, ws);
    let r = lemma_run(p, plan, o, f, g, pools, s.0, c, n);
    match r.2 {
        Some(v) => {
            lemma_march(p, o, s, r.1, (n - r.1) as nat);
            lemma_stays(p, o, march(p, o, s, r.1), (n - r.1) as nat);
            assert(compiled_call(plan, o, code, ws, r.0) == Some(Some(word(v))));
        },
        None => {
            assert(compiled_call(plan, o, code, ws, r.0) == Some(None::<u64>));
        },
    }
}

/// All three agree on a module of functions of scalars whose code is on numbers and bools: what
/// both machines return, the compiled code returns as a word, and where they fail, it notes an
/// error.
pub proof fn law_scalar_modules_compile(
    m: ModuleV,
    r: ResolutionV,
    types: TypeInfoV,
    cfg: TypeConfigV,
    o: Answers,
    hosts: Seq<(Seq<char>, bool)>,
    machine: VmV,
    name: Seq<char>,
    i: int,
    args: Seq<ValueV>,
    n: nat,
    d: nat,
)
    requires
        scalar_module(m, r),
        0 <= i < m.decls.len(),
        exports_as(m, r, name, i),
        args.len() == body_at(m, i).params.len(),
        forall|k: int| 0 <= k < args.len() ==> is_scalar(#[trigger] args[k]),
        counting(o),
        computing(o),
        outcome(r, within(m, r, o, n, d), body_at(m, i), args, n) is Some,
        forall|k: nat|
            (#[trigger] walk(m, r, o, (initial(m, r), ProgressV::Running), k)).1 is Done ==> roomy(
                m,
                r,
                o,
                interp::started_of(
                    m,
                    with_hosts(walk(m, r, o, (initial(m, r), ProgressV::Running), k).0, hosts),
                    name,
                    args,
                ),
            ),
        forall|f: Seq<char>| #[trigger] get_of(hosts, f) is Some <==> (o.hosts)(f),
        hosted(o, machine),
        ({
            let p = lower_of(m, r, types, cfg)->Ok_0;
            &&& direct_program(p)
            &&& countable((module_plan_of(p)->Ok_0).0)
            &&& get_of(p.functions, name_at(m, i)) matches Some(f) && suits(f, args)
            &&& forall|l: nat| !#[trigger] falls(p, o, vm::call_of(p, machine, name, args), l)
        }),
    ensures
        ({
            let p = lower_of(m, r, types, cfg)->Ok_0;
            let plan = (module_plan_of(p)->Ok_0).0;
            let x = outcome(r, within(m, r, o, n, d), body_at(m, i), args, n)->0;
            &&& module_plan_of(p) is Ok
            &&& exists|q: nat| #[trigger]
                compiled_call(plan, o, name_at(m, i), words_of(args), q) == Some(
                    match x {
                        Some(v) => Some(word(v)),
                        None => None,
                    },
                )
        }),
{
    law_scalar_modules_agree(m, r, types, cfg, o, hosts, machine, name, i, args, n, d);
    let p = lower_of(m, r, types, cfg)->Ok_0;
    let x = outcome(r, within(m, r, o, n, d), body_at(m, i), args, n)->0;
    let start = (initial(m, r), ProgressV::Running);
    let (k, j, l) = choose|k: nat, j: nat, l: nat| #![trigger
        walk(m, r, o, interp::started_of(m, with_hosts(walk(m, r, o, start, k).0, hosts), name, args), j),
        march(p, o, vm::call_of(p, machine, name, args), l)
    ] {
        let loaded = walk(m, r, o, start, k);
        &&& loaded.1 == ProgressV::Done(Ok(ValueV::Nil))
        &&& finished(
            x,
            walk(m, r, o, interp::started_of(m, with_hosts(loaded.0, hosts), name, args), j).1,
        )
        &&& finished(x, march(p, o, vm::call_of(p, machine, name, args), l).1)
    };
    assert(!falls(p, o, vm::call_of(p, machine, name, args), l));
    law_compiled_calls_agree(p, o, machine, name, name_at(m, i), args, l);
}

} // verus!
