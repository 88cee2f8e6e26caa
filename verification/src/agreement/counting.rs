//! The code of counting loops: start, bound and step go to variables, a header decides which
//! bound check applies, and a latch advances the variable.

use vstd::prelude::*;

use super::branches::{
    apart, arrived, built, calls_march, cost, covers, fits, got, hosted, is_open, jumped_to, leads,
    lemma_built, lemma_covers, lemma_emit_open, lemma_frames, lemma_goes, lemma_leads, lemma_op,
    lemma_same_values, lemma_simple_executed, lemma_simple_lowered, lemma_write, stands_at,
};
use super::calls::uncelled;
use super::control::{
    lemma_scalars_insert, lemma_value_agrees, range_of, runs_out, simple, value_of,
};
use super::statements::{lowered, reserved};
use super::{
    answered, binary_meaning, has, has_failed, instrs, is_scalar, keeps, lemma_march, march,
    scalars, with_frame, Answers, Env,
};
use crate::ast::{BinOp, ExprV};
use crate::interp;
use crate::ir::lower::{
    l_advance, l_bound_check, l_expr, l_loop_blocks, l_loop_test, l_loop_var, l_ordered, l_range,
    l_step, l_step_sign, numeral, LoopBlocks, Low, Tables,
};
use crate::ir::vm;
use crate::ir::vm::{FrameV, ProgressV, VmV};
use crate::ir::{BlockId, FunctionV, OpV, ProgramV, Terminator, ValueId};
use crate::number::{law_number_order, order_of, Order};
use crate::resolve::SymbolId;
use crate::runtime::eval::RequestV;
use crate::types::TypeV;
use crate::value::ValueV;

verus! {

/// Two operands and an operator.
pub open spec fn combine(
    low: Low,
    x: (OpV, TypeV),
    y: (OpV, TypeV),
    op: BinOp,
    ty: TypeV,
) -> (Low, ValueId) {
    let (a, v) = low.emit(x.0, x.1);
    let (b, w) = a.emit(y.0, y.1);
    b.emit(OpV::Binary(op, v, w), ty)
}

pub(crate) proof fn lemma_combine(low: Low, x: (OpV, TypeV), y: (OpV, TypeV), op: BinOp, ty: TypeV)
    requires
        is_open(low),
        uncelled(low),
        fits(low, 3),
    ensures
        ({
            let (c, v) = combine(low, x, y, op, ty);
            &&& lowered(low, c, 3, false)
            &&& c.current == low.current
            &&& c.blocks.len() == low.blocks.len()
            &&& c.values.len() == low.values.len() + 3
            &&& c.next_temp == low.next_temp
            &&& v < c.values.len()
        }),
{
    let (a, v) = low.emit(x.0, x.1);
    let (b, w) = a.emit(y.0, y.1);
    lemma_emit_open(low, x.0, x.1);
    lemma_emit_open(a, y.0, y.1);
    lemma_emit_open(b, OpV::Binary(op, v, w), ty);
    let (c, _) = combine(low, x, y, op, ty);
    lemma_built(low, a, b);
    lemma_built(low, b, c);
    reveal(Low::emit);
}

/// Whether an operand is a variable of `env` or a number.
pub open spec fn loads(env: Env, op: OpV) -> bool {
    match op {
        OpV::LocalGet(id) => env.dom().contains(id),
        OpV::ConstNumber(_) => true,
        _ => false,
    }
}

/// The value of an operand.
pub open spec fn loaded(env: Env, o: Answers, op: OpV) -> Option<ValueV> {
    match op {
        OpV::LocalGet(id) => Some(env[id]),
        OpV::ConstNumber(n) => answered(o, RequestV::Numeral(n)),
        _ => None,
    }
}

proof fn lemma_load(
    p: ProgramV,
    o: Answers,
    st: VmV,
    f: FunctionV,
    low: Low,
    op: OpV,
    ty: TypeV,
    env: Env,
) -> (r: (nat, FrameV))
    requires
        is_open(low),
        low.values.len() < u32::MAX,
        stands_at(p, st, f, low),
        covers(f, low.emit(op, ty).0),
        keeps(st.frames.last(), env),
        loads(env, op),
    ensures
        got(
            st,
            loaded(env, o, op),
            march(p, o, (st, ProgressV::Running), r.0),
            r.1,
            low,
            low.emit(op, ty).0,
            low.emit(op, ty).1,
            env,
        ),
{
    reveal(vm::eval_op_of);
    let x = match op {
        OpV::LocalGet(id) => vm::EffectV::Value(env[id]),
        OpV::ConstNumber(n) => vm::EffectV::Ask(RequestV::Numeral(n)),
        _ => vm::EffectV::Value(ValueV::Nil),
    };
    lemma_op(p, o, st, f, low, op, ty, x, env)
}

/// The machine evaluates two operands and an operator.
pub(crate) proof fn lemma_combined(
    p: ProgramV,
    o: Answers,
    st: VmV,
    f: FunctionV,
    low: Low,
    x: (OpV, TypeV),
    y: (OpV, TypeV),
    op: BinOp,
    ty: TypeV,
    env: Env,
    l: ValueV,
    r: ValueV,
) -> (z: (nat, FrameV))
    requires
        op != BinOp::And,
        op != BinOp::Or,
        is_open(low),
        uncelled(low),
        fits(low, 3),
        stands_at(p, st, f, low),
        covers(f, combine(low, x, y, op, ty).0),
        keeps(st.frames.last(), env),
        loads(env, x.0),
        loads(env, y.0),
        loaded(env, o, x.0) == Some(l),
        loaded(env, o, y.0) == Some(r),
    ensures
        got(
            st,
            binary_meaning(o, op, l, r),
            march(p, o, (st, ProgressV::Running), z.0),
            z.1,
            low,
            combine(low, x, y, op, ty).0,
            combine(low, x, y, op, ty).1,
            env,
        ),
{
    let start = (st, ProgressV::Running);
    let g0 = st.frames.last();
    let (a, v) = low.emit(x.0, x.1);
    let (b, w) = a.emit(y.0, y.1);
    let (c, u) = combine(low, x, y, op, ty);
    lemma_emit_open(low, x.0, x.1);
    lemma_emit_open(a, y.0, y.1);
    lemma_emit_open(b, OpV::Binary(op, v, w), ty);
    lemma_covers(f, b, c);
    lemma_covers(f, a, b);
    let (k, g) = lemma_load(p, o, st, f, low, x.0, x.1, env);
    let mid = with_frame(st, g);
    let (j, h) = lemma_load(p, o, mid, f, a, y.0, y.1, env);
    lemma_march(p, o, start, k, j);
    lemma_frames(st, g, h);
    lemma_same_values(g0, g, h, low, a);
    let next = with_frame(st, h);
    assert(v < a.values.len()) by {
        reveal(Low::emit);
    }
    assert(has(h, v, l)) by {
        assert(h.values.dom().contains(v) == g.values.dom().contains(v));
        assert(h.values[v] == g.values[v]);
    }
    let e = vm::binary_effect(op, l, r);
    assert(vm::eval_op_of(p, next, h, OpV::Binary(op, v, w)) == vm::pure(next, h, e)) by {
        reveal(vm::eval_op_of);
    }
    let (i, q) = lemma_op(p, o, next, f, b, OpV::Binary(op, v, w), ty, e, env);
    lemma_march(p, o, start, k + j, i);
    lemma_frames(st, h, q);
    if binary_meaning(o, op, l, r) is Some {
        lemma_same_values(g0, h, q, low, b);
    }
    (k + j + i, q)
}

/// A condition that decides between two blocks; `next` is filled next.
pub open spec fn split(low: Low, c: ValueId, yes: BlockId, no: BlockId, next: BlockId) -> Low {
    low.terminate(Terminator::Branch { cond: c, then_blk: yes, else_blk: no }).switch(next)
}

/// Whether `later` goes on in the reserved block `b`, after the current block of `low` ended
/// with `term`.
pub open spec fn handed_on(low: Low, later: Low, term: Terminator, b: BlockId) -> bool {
    &&& is_open(later)
    &&& uncelled(later)
    &&& later.current == b
    &&& instrs(later).len() == 0
    &&& later.blocks.len() == low.blocks.len()
    &&& later.values == low.values
    &&& later.next_temp == low.next_temp
    &&& later.exits == low.exits
    &&& later.blocks[low.current].instrs == instrs(low)
    &&& later.blocks[low.current].term == term
    &&& forall|k: int| 0 <= k < low.blocks.len() && k != low.current ==> later.blocks[k]
        == #[trigger] low.blocks[k]
    &&& leads(low, later)
}

pub(crate) proof fn lemma_handed_on(low0: Low, low: Low, term: Terminator, b: BlockId)
    requires
        built(low0, low),
        is_open(low),
        uncelled(low),
        reserved(low, b),
        b != low.current,
        b >= low0.blocks.len(),
    ensures
        handed_on(low, low.terminate(term).switch(b), term, b),
        built(low0, low.terminate(term).switch(b)),
{
    reveal(Low::set_term);
    reveal(Low::switch);
    let a = low.terminate(term).switch(b);
    assert forall|k: int| 0 <= k < low0.blocks.len() && k != low0.current implies a.blocks[k]
        == #[trigger] low0.blocks[k] by {
        assert(low.blocks[k] == low0.blocks[k]);
    }
}

/// What a stage of the loop test ends with: a branch on `c`.
pub open spec fn branch(c: ValueId, yes: BlockId, no: BlockId) -> Terminator {
    Terminator::Branch { cond: c, then_blk: yes, else_blk: no }
}

/// One stage of the loop test: two operands, an operator and a branch; `next` is filled next.
pub(crate) proof fn lemma_stage(
    low: Low,
    a: Low,
    x: (OpV, TypeV),
    y: (OpV, TypeV),
    op: BinOp,
    yes: BlockId,
    no: BlockId,
    next: BlockId,
)
    requires
        built(low, a),
        is_open(a),
        uncelled(a),
        fits(a, 3),
        reserved(a, next),
        next != a.current,
        next >= low.blocks.len(),
    ensures
        ({
            let (c, v) = combine(a, x, y, op, TypeV::Bool);
            let b = split(c, v, yes, no, next);
            &&& lowered(a, c, 3, false)
            &&& c.current == a.current
            &&& handed_on(c, b, branch(v, yes, no), next)
            &&& built(low, b)
            &&& b.values.len() == a.values.len() + 3
            &&& b.blocks.len() == a.blocks.len()
            &&& b.next_temp == a.next_temp
            &&& b.exits == a.exits
            &&& forall|r: BlockId| #[trigger]
                reserved(a, r) && r != a.current ==> reserved(b, r)
        }),
{
    lemma_combine(a, x, y, op, TypeV::Bool);
    let (c, v) = combine(a, x, y, op, TypeV::Bool);
    lemma_built(low, a, c);
    lemma_kept(a, c, next);
    lemma_handed_on(low, c, branch(v, yes, no), next);
    let b = split(c, v, yes, no, next);
    assert forall|r: BlockId| #[trigger] reserved(a, r) && r != a.current implies reserved(b, r) by {
        lemma_kept(a, c, r);
        lemma_still(c, b, branch(v, yes, no), next, r);
    }
}

proof fn lemma_kept(low: Low, later: Low, b: BlockId)
    requires
        built(low, later),
        reserved(low, b),
        b != low.current,
    ensures
        reserved(later, b),
{
    assert(later.blocks[b as int] == low.blocks[b as int]);
}

proof fn lemma_still(low: Low, later: Low, term: Terminator, next: BlockId, b: BlockId)
    requires
        handed_on(low, later, term, next),
        reserved(low, b),
        b != low.current,
    ensures
        reserved(later, b),
{
    assert(later.blocks[b as int] == low.blocks[b as int]);
}

pub(crate) proof fn lemma_at_loop(low: Low)
    requires
        is_open(low),
        uncelled(low),
        fits(low, 9),
    ensures
        ({
            let (a, x) = l_loop_blocks(low);
            &&& built(low, a)
            &&& is_open(a)
            &&& uncelled(a)
            &&& a.blocks.len() == low.blocks.len() + 9
            &&& a.values == low.values
            &&& a.next_temp == low.next_temp
            &&& a.exits == low.exits
            &&& a.current == x.header
            &&& instrs(a).len() == 0
            &&& x.header == low.blocks.len()
            &&& x.bound == x.header + 1
            &&& x.step == x.header + 2
            &&& x.sign == x.header + 3
            &&& x.pos == x.header + 4
            &&& x.neg == x.header + 5
            &&& x.body == x.header + 6
            &&& x.latch == x.header + 7
            &&& x.exit == x.header + 8
            &&& reserved(a, x.bound)
            &&& reserved(a, x.step)
            &&& reserved(a, x.sign)
            &&& reserved(a, x.pos)
            &&& reserved(a, x.neg)
            &&& reserved(a, x.body)
            &&& reserved(a, x.latch)
            &&& reserved(a, x.exit)
            &&& a.blocks[low.current].instrs == instrs(low)
            &&& a.blocks[low.current].term == Terminator::Jump(x.header)
        }),
{
    reveal(l_loop_blocks);
    reveal(Low::new_block);
    reveal(Low::set_term);
    reveal(Low::switch);
}

/// The states of lowering in the test of a counting loop: where each stage begins and ends, the
/// condition it branches on, and where the body begins.
pub ghost struct Head {
    pub x: LoopBlocks,
    pub a0: Low,
    pub c0: Low,
    pub v0: ValueId,
    pub a1: Low,
    pub c1: Low,
    pub v1: ValueId,
    pub a2: Low,
    pub c2: Low,
    pub v2: ValueId,
    pub a3: Low,
    pub c3: Low,
    pub v3: ValueId,
    pub a4: Low,
    pub c4: Low,
    pub v4: ValueId,
    pub a5: Low,
    pub c5: Low,
    pub v5: ValueId,
    pub b0: Low,
}

/// A number that is kept in a variable.
pub open spec fn get(id: SymbolId) -> (OpV, TypeV) {
    (OpV::LocalGet(id), TypeV::Number)
}

/// The number zero.
pub open spec fn zero() -> (OpV, TypeV) {
    (numeral("0"@), TypeV::Number)
}

pub open spec fn head(low: Low, counter: SymbolId, end_l: SymbolId, step_l: SymbolId) -> Head {
    let (a0, x) = l_loop_blocks(low);
    let (c0, v0) = combine(a0, get(counter), get(counter), BinOp::Eq, TypeV::Bool);
    let a1 = split(c0, v0, x.bound, x.exit, x.bound);
    let (c1, v1) = combine(a1, get(end_l), get(end_l), BinOp::Eq, TypeV::Bool);
    let a2 = split(c1, v1, x.step, x.exit, x.step);
    let (c2, v2) = combine(a2, get(step_l), get(step_l), BinOp::Eq, TypeV::Bool);
    let a3 = split(c2, v2, x.sign, x.neg, x.sign);
    let (c3, v3) = combine(a3, get(step_l), zero(), BinOp::Ge, TypeV::Bool);
    let a4 = split(c3, v3, x.pos, x.neg, x.pos);
    let (c4, v4) = combine(a4, get(counter), get(end_l), BinOp::Le, TypeV::Bool);
    let a5 = split(c4, v4, x.body, x.exit, x.neg);
    let (c5, v5) = combine(a5, get(counter), get(end_l), BinOp::Ge, TypeV::Bool);
    let b0 = split(c5, v5, x.body, x.exit, x.body);
    Head { x, a0, c0, v0, a1, c1, v1, a2, c2, v2, a3, c3, v3, a4, c4, v4, a5, c5, v5, b0 }
}

/// Whether a stage leads from `a` over `c` to `b`.
pub open spec fn staged(a: Low, c: Low, b: Low, v: ValueId, yes: BlockId, no: BlockId, next: BlockId) -> bool {
    &&& is_open(a)
    &&& uncelled(a)
    &&& fits(a, 3)
    &&& lowered(a, c, 3, false)
    &&& c.current == a.current
    &&& handed_on(c, b, branch(v, yes, no), next)
}

pub(crate) proof fn lemma_head(low: Low, counter: SymbolId, end_l: SymbolId, step_l: SymbolId)
    requires
        is_open(low),
        uncelled(low),
        fits(low, 18),
    ensures
        ({
            let s = head(low, counter, end_l, step_l);
            let x = s.x;
            &&& built(low, s.b0)
            &&& is_open(s.b0)
            &&& uncelled(s.b0)
            &&& s.b0.current == x.body
            &&& instrs(s.b0).len() == 0
            &&& s.b0.values.len() == low.values.len() + 18
            &&& s.b0.blocks.len() == low.blocks.len() + 9
            &&& s.b0.next_temp == low.next_temp
            &&& s.b0.exits == low.exits
            &&& reserved(s.b0, x.latch)
            &&& reserved(s.b0, x.exit)
            &&& staged(s.a0, s.c0, s.a1, s.v0, x.bound, x.exit, x.bound)
            &&& staged(s.a1, s.c1, s.a2, s.v1, x.step, x.exit, x.step)
            &&& staged(s.a2, s.c2, s.a3, s.v2, x.sign, x.neg, x.sign)
            &&& staged(s.a3, s.c3, s.a4, s.v3, x.pos, x.neg, x.pos)
            &&& staged(s.a4, s.c4, s.a5, s.v4, x.body, x.exit, x.neg)
            &&& staged(s.a5, s.c5, s.b0, s.v5, x.body, x.exit, x.body)
            &&& l_loop_test(s.a0, counter, end_l, step_l, x) == s.b0
        }),
{
    let s = head(low, counter, end_l, step_l);
    let x = s.x;
    lemma_at_loop(low);
    lemma_stage(low, s.a0, get(counter), get(counter), BinOp::Eq, x.bound, x.exit, x.bound);
    assert(reserved(s.a1, x.step) && reserved(s.a1, x.sign) && reserved(s.a1, x.pos) && reserved(
        s.a1,
        x.neg,
    ) && reserved(s.a1, x.body) && reserved(s.a1, x.latch) && reserved(s.a1, x.exit));
    lemma_stage(low, s.a1, get(end_l), get(end_l), BinOp::Eq, x.step, x.exit, x.step);
    assert(reserved(s.a2, x.sign) && reserved(s.a2, x.pos) && reserved(s.a2, x.neg) && reserved(
        s.a2,
        x.body,
    ) && reserved(s.a2, x.latch) && reserved(s.a2, x.exit));
    lemma_stage(low, s.a2, get(step_l), get(step_l), BinOp::Eq, x.sign, x.neg, x.sign);
    assert(reserved(s.a3, x.pos) && reserved(s.a3, x.neg) && reserved(s.a3, x.body) && reserved(
        s.a3,
        x.latch,
    ) && reserved(s.a3, x.exit));
    lemma_stage(low, s.a3, get(step_l), zero(), BinOp::Ge, x.pos, x.neg, x.pos);
    assert(reserved(s.a4, x.neg) && reserved(s.a4, x.body) && reserved(s.a4, x.latch) && reserved(
        s.a4,
        x.exit,
    ));
    lemma_stage(low, s.a4, get(counter), get(end_l), BinOp::Le, x.body, x.exit, x.neg);
    assert(reserved(s.a5, x.body) && reserved(s.a5, x.latch) && reserved(s.a5, x.exit));
    lemma_stage(low, s.a5, get(counter), get(end_l), BinOp::Ge, x.body, x.exit, x.body);
    assert(reserved(s.b0, x.latch) && reserved(s.b0, x.exit));
    reveal(l_loop_test);
    reveal(l_ordered);
    reveal(l_step_sign);
    reveal(l_bound_check);
}

/// The code of the test is there.
pub(crate) proof fn lemma_head_covers(
    low: Low,
    counter: SymbolId,
    end_l: SymbolId,
    step_l: SymbolId,
    f: FunctionV,
)
    requires
        is_open(low),
        uncelled(low),
        fits(low, 18),
        covers(f, head(low, counter, end_l, step_l).b0),
    ensures
        ({
            let s = head(low, counter, end_l, step_l);
            &&& covers(f, s.a0)
            &&& covers(f, s.c0)
            &&& covers(f, s.a1)
            &&& covers(f, s.c1)
            &&& covers(f, s.a2)
            &&& covers(f, s.c2)
            &&& covers(f, s.a3)
            &&& covers(f, s.c3)
            &&& covers(f, s.a4)
            &&& covers(f, s.c4)
            &&& covers(f, s.a5)
            &&& covers(f, s.c5)
        }),
{
    let s = head(low, counter, end_l, step_l);
    lemma_head(low, counter, end_l, step_l);
    lemma_leads(f, s.c5, s.b0);
    lemma_covers(f, s.a5, s.c5);
    lemma_leads(f, s.c4, s.a5);
    lemma_covers(f, s.a4, s.c4);
    lemma_leads(f, s.c3, s.a4);
    lemma_covers(f, s.a3, s.c3);
    lemma_leads(f, s.c2, s.a3);
    lemma_covers(f, s.a2, s.c2);
    lemma_leads(f, s.c1, s.a2);
    lemma_covers(f, s.a1, s.c1);
    lemma_leads(f, s.c0, s.a1);
    lemma_covers(f, s.a0, s.c0);
}

/// The loop variable takes the value of the counter.
pub(crate) proof fn lemma_loop_var(t: Tables, low: Low, id: SymbolId, counter: SymbolId)
    requires
        is_open(low),
        uncelled(low),
        fits(low, 1),
    ensures
        ({
            let b = l_loop_var(t, low, id, counter);
            let (a, v) = low.emit(OpV::LocalGet(counter), TypeV::Number);
            let e = a.ensure_local(t, id);
            &&& b == e.stmt(OpV::LocalSet(id, v))
            &&& built(low, b)
            &&& is_open(b)
            &&& uncelled(b)
            &&& b.current == low.current
            &&& b.blocks.len() == low.blocks.len()
            &&& b.values.len() == low.values.len() + 1
            &&& b.next_temp == low.next_temp
            &&& b.exits == low.exits
            &&& is_open(a)
            &&& built(low, a)
            &&& built(a, b)
            &&& e.blocks == a.blocks
            &&& e.current == a.current
            &&& is_open(e)
        }),
{
    reveal(l_loop_var);
    reveal(Low::bind);
    reveal(Low::ensure_local);
    let (a, v) = low.emit(OpV::LocalGet(counter), TypeV::Number);
    lemma_emit_open(low, OpV::LocalGet(counter), TypeV::Number);
    let e = a.ensure_local(t, id);
    assert(built(a, e));
    lemma_set(e, id, v);
    lemma_built(a, e, e.stmt(OpV::LocalSet(id, v)));
    lemma_built(low, a, e.stmt(OpV::LocalSet(id, v)));
    reveal(Low::emit);
}

/// The states of lowering in a counting loop, from the end of its body on.
pub ghost struct Tail {
    /// The latch begins.
    pub l0: Low,
    /// The next value of the counter is known.
    pub l1: Low,
    pub d: ValueId,
    /// The counter is advanced.
    pub l2: Low,
    /// The loop is left.
    pub end: Low,
}

pub open spec fn tail(
    b1: Low,
    terminated: bool,
    counter: SymbolId,
    step_l: SymbolId,
    x: LoopBlocks,
) -> Tail {
    let b2 = b1.leave_loop();
    let b3 = if terminated {
        b2
    } else {
        b2.terminate(Terminator::Jump(x.latch))
    };
    let l0 = b3.switch(x.latch);
    let (l1, d) = combine(l0, get(counter), get(step_l), BinOp::Add, TypeV::Number);
    let l2 = l1.stmt(OpV::LocalSet(counter, d));
    let end = l2.terminate(Terminator::Jump(x.header)).switch(x.exit);
    Tail { l0, l1, d, l2, end }
}

pub(crate) proof fn lemma_tail(
    low: Low,
    b1: Low,
    terminated: bool,
    counter: SymbolId,
    step_l: SymbolId,
    x: LoopBlocks,
)
    requires
        built(low, b1.leave_loop()),
        uncelled(b1),
        !terminated ==> is_open(b1),
        reserved(b1, x.latch),
        reserved(b1, x.exit),
        b1.current != x.latch,
        b1.current != x.exit,
        x.latch != x.exit,
        x.latch >= low.blocks.len(),
        x.exit >= low.blocks.len(),
        fits(b1, 3),
    ensures
        ({
            let s = tail(b1, terminated, counter, step_l, x);
            &&& built(low, s.end)
            &&& is_open(s.end)
            &&& uncelled(s.end)
            &&& s.end.current == x.exit
            &&& instrs(s.end).len() == 0
            &&& s.end.blocks.len() == b1.blocks.len()
            &&& s.end.values.len() == b1.values.len() + 3
            &&& s.end.next_temp == b1.next_temp
            &&& leads(b1, s.l0)
            &&& s.l0.current == x.latch
            &&& instrs(s.l0).len() == 0
            &&& is_open(s.l0)
            &&& uncelled(s.l0)
            &&& fits(s.l0, 3)
            &&& !terminated ==> s.l0.blocks[b1.current].instrs == instrs(b1)
                && s.l0.blocks[b1.current].term == Terminator::Jump(x.latch)
            &&& b1.current < s.l0.blocks.len()
            &&& lowered(s.l0, s.l1, 3, false)
            &&& s.l1.current == x.latch
            &&& built(s.l1, s.l2)
            &&& is_open(s.l2)
            &&& s.l2.current == x.latch
            &&& leads(s.l2, s.end)
            &&& s.end.blocks[x.latch as int].instrs == instrs(s.l2)
            &&& s.end.blocks[x.latch as int].term == Terminator::Jump(x.header)
            &&& l_advance(s.l0, counter, step_l, x.header).switch(x.exit) == s.end
        }),
{
    reveal(Low::leave_loop);
    let s = tail(b1, terminated, counter, step_l, x);
    let b2 = b1.leave_loop();
    if terminated {
        reveal(Low::switch);
    } else {
        lemma_handed_on(low, b2, Terminator::Jump(x.latch), x.latch);
    }
    assert(built(low, s.l0));
    assert(reserved(s.l0, x.exit));
    assert(leads(b1, s.l0)) by {
        assert forall|k: int| #![trigger b1.blocks[k]]
            0 <= k < b1.blocks.len() implies s.l0.blocks[k] == b1.blocks[k] || (b1.blocks[k].term
            == Terminator::Unreachable && s.l0.blocks[k].instrs == b1.blocks[k].instrs) by {
            assert(b2.blocks[k] == b1.blocks[k]);
        }
    }
    lemma_combine(s.l0, get(counter), get(step_l), BinOp::Add, TypeV::Number);
    lemma_set(s.l1, counter, s.d);
    lemma_built(s.l0, s.l1, s.l2);
    lemma_built(low, s.l0, s.l2);
    lemma_kept(s.l0, s.l2, x.exit);
    lemma_handed_on(low, s.l2, Terminator::Jump(x.header), x.exit);
    reveal(l_advance);
}

// ---- start, bound and step ------------------------------------------------------

/// The states of lowering before a counting loop.
pub ghost struct Prologue {
    /// The loop begins.
    pub s0: Low,
    /// The start is known.
    pub s1: Low,
    pub start_v: ValueId,
    /// There is a variable for the bound.
    pub s2: Low,
    pub end_l: SymbolId,
    /// The bound is known.
    pub s3: Low,
    pub end_v: ValueId,
    /// The bound is kept.
    pub w3: Low,
    /// There is a variable for the step.
    pub s4: Low,
    pub step_l: SymbolId,
    /// The step is known.
    pub s5: Low,
    pub step_v: ValueId,
    /// The step is kept.
    pub s6: Low,
    /// There is a variable for the counter.
    pub w6: Low,
    pub counter: SymbolId,
    /// The counter has its first value.
    pub s7: Low,
}

pub open spec fn prologue(
    t: Tables,
    low: Low,
    id: SymbolId,
    start: ExprV,
    end: ExprV,
    step: Option<ExprV>,
) -> Prologue {
    let s0 = low.ensure_local(t, id);
    let (s1, start_v) = l_expr(t, s0, start)->Ok_0;
    let (s2, end_l) = s1.fresh_temp(TypeV::Number);
    let (s3, end_v) = l_expr(t, s2, end)->Ok_0;
    let w3 = s3.stmt(OpV::LocalSet(end_l, end_v));
    let (s4, step_l) = w3.fresh_temp(TypeV::Number);
    let (s5, step_v) = l_step(t, s4, step)->Ok_0;
    let s6 = s5.stmt(OpV::LocalSet(step_l, step_v));
    let (w6, counter) = s6.fresh_temp(TypeV::Number);
    let s7 = w6.stmt(OpV::LocalSet(counter, start_v));
    Prologue {
        s0,
        s1,
        start_v,
        s2,
        end_l,
        s3,
        end_v,
        w3,
        s4,
        step_l,
        s5,
        step_v,
        s6,
        w6,
        counter,
        s7,
    }
}

/// An upper bound of what a step takes.
pub open spec fn step_cost(step: Option<ExprV>) -> nat {
    match step {
        Some(e) => cost(e),
        None => 1,
    }
}

proof fn lemma_temp(low: Low)
    requires
        is_open(low),
        uncelled(low),
        low.next_temp < u32::MAX,
    ensures
        ({
            let (a, id) = low.fresh_temp(TypeV::Number);
            &&& built(low, a)
            &&& is_open(a)
            &&& uncelled(a)
            &&& a.blocks == low.blocks
            &&& a.current == low.current
            &&& a.values == low.values
            &&& a.next_temp == low.next_temp + 1
            &&& id == low.next_temp
        }),
{
    reveal(Low::fresh_temp);
}

proof fn lemma_set(low: Low, id: SymbolId, v: ValueId)
    requires
        is_open(low),
        uncelled(low),
    ensures
        ({
            let a = low.stmt(OpV::LocalSet(id, v));
            &&& built(low, a)
            &&& is_open(a)
            &&& uncelled(a)
            &&& a.blocks.len() == low.blocks.len()
            &&& a.current == low.current
            &&& a.values == low.values
            &&& a.next_temp == low.next_temp
        }),
{
    reveal(Low::stmt);
}

pub(crate) proof fn lemma_prologue(
    t: Tables,
    low: Low,
    known: Set<SymbolId>,
    id: SymbolId,
    start: ExprV,
    end: ExprV,
    step: Option<ExprV>,
)
    requires
        simple(t.res, known, start),
        simple(t.res, known, end),
        step matches Some(e) ==> simple(t.res, known, e),
        is_open(low),
        uncelled(low),
        fits(low, cost(start) + cost(end) + step_cost(step) + 3),
    ensures
        ({
            let s = prologue(t, low, id, start, end, step);
            &&& l_range(t, s.s0, start, end, step) == Ok::<
                (Low, (ValueId, SymbolId, SymbolId)),
                crate::ir::LowerErrorV,
            >((s.s6, (s.start_v, s.end_l, s.step_l)))
            &&& lowered(low, s.s7, cost(start) + cost(end) + step_cost(step) + 3, false)
            &&& l_expr(t, s.s0, start) == Ok::<(Low, ValueId), crate::ir::LowerErrorV>(
                (s.s1, s.start_v),
            )
            &&& l_expr(t, s.s2, end) == Ok::<(Low, ValueId), crate::ir::LowerErrorV>(
                (s.s3, s.end_v),
            )
            &&& l_step(t, s.s4, step) == Ok::<(Low, ValueId), crate::ir::LowerErrorV>(
                (s.s5, s.step_v),
            )
            &&& s.s0.blocks == low.blocks && s.s0.current == low.current && s.s0.next_temp
                == low.next_temp && is_open(s.s0) && uncelled(s.s0) && fits(s.s0, cost(start))
            &&& s.s2.blocks == s.s1.blocks && s.s2.current == s.s1.current && s.s2.values
                == s.s1.values && is_open(s.s2) && uncelled(s.s2) && fits(s.s2, cost(end))
            &&& s.s4.blocks == s.w3.blocks && s.s4.current == s.w3.current && s.s4.values
                == s.s3.values && is_open(s.s4) && uncelled(s.s4) && fits(s.s4, step_cost(step))
            &&& is_open(s.s3) && is_open(s.s5) && is_open(s.s6) && uncelled(s.s6) && uncelled(s.s3)
                && uncelled(s.s5)
            &&& s.start_v < s.s1.values.len()
            &&& s.s1.values.len() <= s.s3.values.len()
            &&& s.w6.blocks == s.s6.blocks
            &&& s.w6.current == s.s6.current
            &&& is_open(s.w6)
            &&& built(s.s0, s.s1)
            &&& built(s.s2, s.s3)
            &&& built(s.s3, s.w3)
            &&& built(s.s4, s.s5)
            &&& built(s.s5, s.s6)
            &&& built(s.s6, s.s7)
            &&& low.next_temp <= s.end_l < s.s2.next_temp <= s.step_l < s.s4.next_temp
                <= s.counter < s.s7.next_temp
        }),
{
    let s = prologue(t, low, id, start, end, step);
    reveal(Low::ensure_local);
    assert(built(low, s.s0));
    lemma_simple_lowered(t, s.s0, known, start);
    lemma_built(low, s.s0, s.s1);
    lemma_temp(s.s1);
    lemma_simple_lowered(t, s.s2, known, end);
    lemma_built(low, s.s1, s.s2);
    lemma_built(low, s.s2, s.s3);
    lemma_set(s.s3, s.end_l, s.end_v);
    lemma_built(low, s.s3, s.w3);
    lemma_temp(s.w3);
    lemma_built(low, s.w3, s.s4);
    reveal(l_step);
    match step {
        Some(e) => lemma_simple_lowered(t, s.s4, known, e),
        None => lemma_emit_open(s.s4, numeral("1"@), TypeV::Number),
    }
    lemma_built(low, s.s4, s.s5);
    lemma_set(s.s5, s.step_l, s.step_v);
    lemma_built(low, s.s5, s.s6);
    lemma_temp(s.s6);
    lemma_set(s.w6, s.counter, s.start_v);
    lemma_built(s.s6, s.w6, s.s7);
    lemma_built(low, s.s6, s.s7);
    reveal(l_range);
}

/// Whether the literals that counting needs are answered with their numbers.
pub open spec fn counting(o: Answers) -> bool {
    &&& loaded(Map::empty(), o, numeral("0"@)) == Some(ValueV::Number(0))
    &&& loaded(Map::empty(), o, numeral("1"@)) == Some(ValueV::Number(interp::ONE))
}

/// The machine evaluates start, bound and step, and keeps them.
pub(crate) proof fn lemma_prologue_executed(
    p: ProgramV,
    o: Answers,
    t: Tables,
    known: Set<SymbolId>,
    env: Env,
    id: SymbolId,
    start: ExprV,
    end: ExprV,
    step: Option<ExprV>,
    low: Low,
    st: VmV,
    f: FunctionV,
) -> (r: (nat, FrameV))
    requires
        hosted(o, st),
        calls_march(p, o),
        counting(o),
        simple(t.res, known, start),
        simple(t.res, known, end),
        step matches Some(e) ==> simple(t.res, known, e),
        known.subset_of(env.dom()),
        scalars(env),
        uncelled(low),
        is_open(low),
        fits(low, cost(start) + cost(end) + step_cost(step) + 3),
        apart(low, env),
        stands_at(p, st, f, low),
        covers(f, prologue(t, low, id, start, end, step).s7),
        keeps(st.frames.last(), env),
    ensures
        ({
            let s = prologue(t, low, id, start, end, step);
            let z = march(p, o, (st, ProgressV::Running), r.0);
            match range_of(t.res, env, o, start, end, step) {
                None => true,
                Some(None) => has_failed(z.1),
                Some(Some((a, b, c))) => {
                    &&& z == (with_frame(st, r.1), ProgressV::Running)
                    &&& arrived(
                        st.frames.last(),
                        r.1,
                        s.s7.current as u32,
                        instrs(s.s7).len(),
                    )
                    &&& keeps(
                        r.1,
                        env.insert(s.end_l, ValueV::Number(b)).insert(
                            s.step_l,
                            ValueV::Number(c),
                        ).insert(s.counter, ValueV::Number(a)),
                    )
                },
            }
        }),
{
    let run = (st, ProgressV::Running);
    let s = prologue(t, low, id, start, end, step);
    lemma_prologue(t, low, known, id, start, end, step);
    lemma_covers(f, s.s6, s.s7);
    lemma_covers(f, s.s5, s.s6);
    lemma_covers(f, s.s4, s.s5);
    assert(covers(f, s.w3));
    lemma_covers(f, s.s3, s.w3);
    lemma_covers(f, s.s2, s.s3);
    assert(covers(f, s.s1));
    let g0 = st.frames.last();
    assert(stands_at(p, st, f, s.s0));
    assert(apart(s.s0, env));
    if runs_out(t.res, env, o, start) {
        (0, g0)
    } else {
        let (k1, g1) = lemma_simple_executed(p, o, t, known, env, start, s.s0, st, f);
        match value_of(t.res, env, o, start) {
            Some(ValueV::Number(a)) => {
                let m1 = with_frame(st, g1);
                assert(stands_at(p, m1, f, s.s2));
                assert(apart(s.s2, env));
                if runs_out(t.res, env, o, end) {
                    (k1, g1)
                } else {
                    let (k2, g2) = lemma_simple_executed(p, o, t, known, env, end, s.s2, m1, f);
                    lemma_march(p, o, run, k1, k2);
                    lemma_frames(st, g1, g2);
                    match value_of(t.res, env, o, end) {
                        Some(ValueV::Number(b)) => {
                            let m2 = with_frame(st, g2);
                            assert(has(g2, s.start_v, ValueV::Number(a))) by {
                                assert(g2.values.dom().contains(s.start_v) == g1.values.dom().contains(
                                    s.start_v,
                                ));
                                assert(g2.values[s.start_v] == g1.values[s.start_v]);
                            }
                            lemma_write(
                                p,
                                o,
                                m2,
                                f,
                                s.s3,
                                s.end_l,
                                s.end_v,
                                ValueV::Number(b),
                                env,
                            );
                            let g3 = FrameV {
                                pc: instrs(s.w3).len(),
                                locals: g2.locals.insert(s.end_l, ValueV::Number(b)),
                                ..g2
                            };
                            lemma_march(p, o, run, k1 + k2, 1);
                            lemma_frames(st, g2, g3);
                            let env1 = env.insert(s.end_l, ValueV::Number(b));
                            if step matches Some(e) && runs_out(t.res, env, o, e) {
                                (k1, g1)
                            } else {
                                let (k3, g4) = lemma_step_executed(
                                    p,
                                    o,
                                    t,
                                    known,
                                    env,
                                    id,
                                    start,
                                    end,
                                    step,
                                    low,
                                    with_frame(st, g3),
                                    f,
                                    ValueV::Number(a),
                                    ValueV::Number(b),
                                );
                                lemma_march(p, o, run, k1 + k2 + 1, k3);
                                lemma_frames(st, g3, g4);
                                (k1 + k2 + 1 + k3, g4)
                            }
                        },
                        _ => (k1 + k2, g2),
                    }
                }
            },
            _ => (k1, g1),
        }
    }
}

/// The machine evaluates the step and keeps it, and gives the variable its first value.
proof fn lemma_step_executed(
    p: ProgramV,
    o: Answers,
    t: Tables,
    known: Set<SymbolId>,
    env: Env,
    id: SymbolId,
    start: ExprV,
    end: ExprV,
    step: Option<ExprV>,
    low: Low,
    st: VmV,
    f: FunctionV,
    a: ValueV,
    b: ValueV,
) -> (r: (nat, FrameV))
    requires
        hosted(o, st),
        calls_march(p, o),
        counting(o),
        simple(t.res, known, start),
        simple(t.res, known, end),
        step matches Some(e) ==> simple(t.res, known, e),
        known.subset_of(env.dom()),
        scalars(env),
        is_scalar(b),
        uncelled(low),
        is_open(low),
        fits(low, cost(start) + cost(end) + step_cost(step) + 3),
        apart(low, env),
        covers(f, prologue(t, low, id, start, end, step).s7),
        ({
            let s = prologue(t, low, id, start, end, step);
            &&& stands_at(p, st, f, s.s4)
            &&& keeps(st.frames.last(), env.insert(s.end_l, b))
            &&& has(st.frames.last(), s.start_v, a)
        }),
        step matches Some(e) ==> !runs_out(t.res, env, o, e),
    ensures
        ({
            let s = prologue(t, low, id, start, end, step);
            let z = march(p, o, (st, ProgressV::Running), r.0);
            let v = match step {
                Some(e) => value_of(t.res, env, o, e),
                None => Some(ValueV::Number(interp::ONE)),
            };
            match v {
                None => has_failed(z.1),
                Some(c) => {
                    &&& z == (with_frame(st, r.1), ProgressV::Running)
                    &&& arrived(
                        st.frames.last(),
                        r.1,
                        s.s7.current as u32,
                        instrs(s.s7).len(),
                    )
                    &&& keeps(r.1, env.insert(s.end_l, b).insert(s.step_l, c).insert(s.counter, a))
                },
            }
        }),
{
    let run = (st, ProgressV::Running);
    let s = prologue(t, low, id, start, end, step);
    lemma_prologue(t, low, known, id, start, end, step);
    lemma_covers(f, s.s6, s.s7);
    lemma_covers(f, s.s5, s.s6);
    let g0 = st.frames.last();
    let env1 = env.insert(s.end_l, b);
    lemma_scalars_insert(env, s.end_l, b);
    assert(apart(s.s4, env1));
    assert(known.subset_of(env1.dom()));
    reveal(l_step);
    let (k, g) = match step {
        Some(e) => {
            assert forall|i: SymbolId| #[trigger] known.contains(i) implies env1[i] == env[i] by {
                assert(env.dom().contains(i));
            }
            lemma_value_agrees(t.res, known, env1, env, o, e);
            lemma_simple_executed(p, o, t, known, env1, e, s.s4, st, f)
        },
        None => lemma_load(p, o, st, f, s.s4, numeral("1"@), TypeV::Number, env1),
    };
    let v = match step {
        Some(e) => value_of(t.res, env, o, e),
        None => Some(ValueV::Number(interp::ONE)),
    };
    match v {
        Some(c) => {
            let m1 = with_frame(st, g);
            assert(has(g, s.start_v, a)) by {
                assert(g.values.dom().contains(s.start_v) == g0.values.dom().contains(s.start_v));
                assert(g.values[s.start_v] == g0.values[s.start_v]);
            }
            lemma_write(p, o, m1, f, s.s5, s.step_l, s.step_v, c, env1);
            let h = FrameV {
                pc: instrs(s.s6).len(),
                locals: g.locals.insert(s.step_l, c),
                ..g
            };
            lemma_march(p, o, run, k, 1);
            lemma_frames(st, g, h);
            let m2 = with_frame(st, h);
            let env2 = env1.insert(s.step_l, c);
            assert(stands_at(p, m2, f, s.w6));
            lemma_write(p, o, m2, f, s.w6, s.counter, s.start_v, a, env2);
            let q = FrameV {
                pc: instrs(s.s7).len(),
                locals: h.locals.insert(s.counter, a),
                ..h
            };
            lemma_march(p, o, run, k + 1, 1);
            lemma_frames(st, h, q);
            (k + 1 + 1, q)
        },
        None => (k, g),
    }
}

// ---- passes ---------------------------------------------------------------------

/// Whether a variable holds a number.
pub open spec fn counts(env: Env, id: SymbolId, x: u64) -> bool {
    env.dom().contains(id) && env[id] == ValueV::Number(x)
}

/// The machine executes one stage of the loop test.
proof fn lemma_stage_executed(
    p: ProgramV,
    o: Answers,
    st: VmV,
    f: FunctionV,
    a: Low,
    b: Low,
    x: (OpV, TypeV),
    y: (OpV, TypeV),
    op: BinOp,
    yes: BlockId,
    no: BlockId,
    next: BlockId,
    env: Env,
    l: ValueV,
    r: ValueV,
    c: bool,
) -> (z: (nat, FrameV))
    requires
        hosted(o, st),
        calls_march(p, o),
        op != BinOp::And,
        op != BinOp::Or,
        staged(
            a,
            combine(a, x, y, op, TypeV::Bool).0,
            b,
            combine(a, x, y, op, TypeV::Bool).1,
            yes,
            no,
            next,
        ),
        covers(f, combine(a, x, y, op, TypeV::Bool).0),
        covers(f, b),
        stands_at(p, st, f, a),
        st.frames.len() > 0,
        keeps(st.frames.last(), env),
        loads(env, x.0),
        loads(env, y.0),
        loaded(env, o, x.0) == Some(l),
        loaded(env, o, y.0) == Some(r),
        binary_meaning(o, op, l, r) == Some(ValueV::Bool(c)),
    ensures
        march(p, o, (st, ProgressV::Running), z.0) == (with_frame(st, z.1), ProgressV::Running),
        arrived(
            st.frames.last(),
            z.1,
            if c {
                yes
            } else {
                no
            },
            0,
        ),
        keeps(z.1, env),
{
    let run = (st, ProgressV::Running);
    let (e, v) = combine(a, x, y, op, TypeV::Bool);
    let (k, g) = lemma_combined(p, o, st, f, a, x, y, op, TypeV::Bool, env, l, r);
    let mid = with_frame(st, g);
    let to = if c {
        yes
    } else {
        no
    };
    lemma_goes(p, o, mid, f, e, b, to);
    let h = jumped_to(g, to);
    lemma_march(p, o, run, k, 1);
    lemma_frames(st, g, h);
    (k + 1, h)
}

/// The machine tests whether the loop goes on: it goes on in the body or at the exit.
pub(crate) proof fn lemma_test_executed(
    p: ProgramV,
    o: Answers,
    env: Env,
    counter: SymbolId,
    end_l: SymbolId,
    step_l: SymbolId,
    a: u64,
    b: u64,
    c: u64,
    low: Low,
    st: VmV,
    f: FunctionV,
) -> (r: (nat, FrameV))
    requires
        hosted(o, st),
        calls_march(p, o),
        counting(o),
        is_open(low),
        uncelled(low),
        fits(low, 18),
        covers(f, head(low, counter, end_l, step_l).b0),
        stands_at(p, st, f, head(low, counter, end_l, step_l).a0),
        st.frames.len() > 0,
        keeps(st.frames.last(), env),
        counts(env, counter, a),
        counts(env, end_l, b),
        counts(env, step_l, c),
    ensures
        ({
            let x = head(low, counter, end_l, step_l).x;
            &&& march(p, o, (st, ProgressV::Running), r.0) == (
                with_frame(st, r.1),
                ProgressV::Running,
            )
            &&& arrived(
                st.frames.last(),
                r.1,
                if interp::goes_on(a, b, c) {
                    x.body
                } else {
                    x.exit
                },
                0,
            )
            &&& keeps(r.1, env)
        }),
{
    let run = (st, ProgressV::Running);
    let s = head(low, counter, end_l, step_l);
    let x = s.x;
    lemma_at_loop(low);
    lemma_head(low, counter, end_l, step_l);
    lemma_head_covers(low, counter, end_l, step_l, f);
    let (va, vb, vc) = (ValueV::Number(a), ValueV::Number(b), ValueV::Number(c));
    lemma_self_order(a, b);
    lemma_self_order(b, b);
    lemma_self_order(c, 0);
    let ca = order_of(a, a) is Some;
    let cb = order_of(b, b) is Some;
    let cc = order_of(c, c) is Some;
    let (g, co) = (get(counter), get(end_l));
    let ps = get(step_l);
    let (k0, g0) = lemma_stage_executed(
        p, o, st, f, s.a0, s.a1, g, g, BinOp::Eq, x.bound, x.exit, x.bound, env, va, va, ca,
    );
    if !ca {
        (k0, g0)
    } else {
        let m0 = with_frame(st, g0);
        assert(stands_at(p, m0, f, s.a1));
        let (k1, g1) = lemma_stage_executed(
            p, o, m0, f, s.a1, s.a2, co, co, BinOp::Eq, x.step, x.exit, x.step, env, vb, vb, cb,
        );
        lemma_march(p, o, run, k0, k1);
        lemma_frames(st, g0, g1);
        if !cb {
            (k0 + k1, g1)
        } else {
            let m1 = with_frame(st, g1);
            assert(stands_at(p, m1, f, s.a2));
            let (k2, g2) = lemma_stage_executed(
                p, o, m1, f, s.a2, s.a3, ps, ps, BinOp::Eq, x.sign, x.neg, x.sign, env, vc, vc, cc,
            );
            lemma_march(p, o, run, k0 + k1, k2);
            lemma_frames(st, g1, g2);
            let m2 = with_frame(st, g2);
            let up = cc && vm::satisfies(BinOp::Ge, order_of(c, 0)->0);
            let (k3, g3) = if cc {
                assert(stands_at(p, m2, f, s.a3));
                lemma_stage_executed(
                    p,
                    o,
                    m2,
                    f,
                    s.a3,
                    s.a4,
                    ps,
                    zero(),
                    BinOp::Ge,
                    x.pos,
                    x.neg,
                    x.pos,
                    env,
                    vc,
                    ValueV::Number(0),
                    up,
                )
            } else {
                assert(with_frame(m2, g2).frames =~= m2.frames);
                (0nat, g2)
            };
            lemma_march(p, o, run, k0 + k1 + k2, k3);
            lemma_frames(st, g2, g3);
            let m3 = with_frame(st, g3);
            let go = interp::goes_on(a, b, c);
            let (at, next, op, nb) = if up {
                (s.a4, s.a5, BinOp::Le, x.neg)
            } else {
                (s.a5, s.b0, BinOp::Ge, x.body)
            };
            assert(stands_at(p, m3, f, at));
            let (k4, g4) = lemma_stage_executed(
                p, o, m3, f, at, next, g, co, op, x.body, x.exit, nb, env, va, vb, go,
            );
            lemma_march(p, o, run, k0 + k1 + k2 + k3, k4);
            lemma_frames(st, g3, g4);
            (k0 + k1 + k2 + k3 + k4, g4)
        }
    }
}

/// What compares with itself compares with everything else that does.
proof fn lemma_self_order(a: u64, b: u64)
    ensures
        order_of(a, a) is Some ==> order_of(a, a) == Some(Order::Equal),
        order_of(a, a) is Some && order_of(b, b) is Some ==> order_of(a, b) is Some,
        order_of(a, b) is Some ==> order_of(a, a) is Some && order_of(b, b) is Some,
        order_of(0, 0) is Some,
{
    law_number_order(a, b, a);
}

/// The loop variable takes the value of the counter.
pub(crate) proof fn lemma_var_executed(
    p: ProgramV,
    o: Answers,
    t: Tables,
    env: Env,
    id: SymbolId,
    counter: SymbolId,
    a: u64,
    low: Low,
    st: VmV,
    f: FunctionV,
) -> (r: (nat, FrameV))
    requires
        hosted(o, st),
        calls_march(p, o),
        is_open(low),
        uncelled(low),
        fits(low, 1),
        covers(f, l_loop_var(t, low, id, counter)),
        stands_at(p, st, f, low),
        st.frames.len() > 0,
        keeps(st.frames.last(), env),
        counts(env, counter, a),
    ensures
        ({
            let b = l_loop_var(t, low, id, counter);
            &&& march(p, o, (st, ProgressV::Running), r.0) == (
                with_frame(st, r.1),
                ProgressV::Running,
            )
            &&& arrived(st.frames.last(), r.1, b.current as u32, instrs(b).len())
            &&& keeps(r.1, env.insert(id, ValueV::Number(a)))
        }),
{
    let run = (st, ProgressV::Running);
    lemma_loop_var(t, low, id, counter);
    let b = l_loop_var(t, low, id, counter);
    let (e, v) = low.emit(OpV::LocalGet(counter), TypeV::Number);
    let e1 = e.ensure_local(t, id);
    lemma_covers(f, e, b);
    let (k, g) = lemma_load(p, o, st, f, low, OpV::LocalGet(counter), TypeV::Number, env);
    let mid = with_frame(st, g);
    assert(stands_at(p, mid, f, e1));
    lemma_write(p, o, mid, f, e1, id, v, ValueV::Number(a), env);
    let h = FrameV { pc: instrs(b).len(), locals: g.locals.insert(id, ValueV::Number(a)), ..g };
    lemma_march(p, o, run, k, 1);
    lemma_frames(st, g, h);
    (k + 1, h)
}

/// The machine advances the counter and goes back to the header.
pub(crate) proof fn lemma_advance_executed(
    p: ProgramV,
    o: Answers,
    env: Env,
    counter: SymbolId,
    step_l: SymbolId,
    a: u64,
    c: u64,
    s: Tail,
    x: LoopBlocks,
    st: VmV,
    f: FunctionV,
) -> (r: (nat, FrameV))
    requires
        hosted(o, st),
        calls_march(p, o),
        is_open(s.l0),
        uncelled(s.l0),
        fits(s.l0, 3),
        s.l0.current == x.latch,
        (s.l1, s.d) == combine(s.l0, get(counter), get(step_l), BinOp::Add, TypeV::Number),
        s.l2 == s.l1.stmt(OpV::LocalSet(counter, s.d)),
        lowered(s.l0, s.l1, 3, false),
        s.l1.current == x.latch,
        built(s.l1, s.l2),
        is_open(s.l2),
        s.l2.current == x.latch,
        leads(s.l2, s.end),
        s.end.blocks[x.latch as int].instrs == instrs(s.l2),
        s.end.blocks[x.latch as int].term == Terminator::Jump(x.header),
        covers(f, s.end),
        stands_at(p, st, f, s.l0),
        st.frames.len() > 0,
        keeps(st.frames.last(), env),
        counts(env, counter, a),
        counts(env, step_l, c),
    ensures
        ({
            let z = march(p, o, (st, ProgressV::Running), r.0);
            match answered(o, RequestV::Arith(BinOp::Add, a, c)) {
                None => has_failed(z.1),
                Some(d) => {
                    &&& z == (with_frame(st, r.1), ProgressV::Running)
                    &&& arrived(st.frames.last(), r.1, x.header, 0)
                    &&& keeps(r.1, env.insert(counter, d))
                },
            }
        }),
{
    let run = (st, ProgressV::Running);
    lemma_leads(f, s.l2, s.end);
    lemma_covers(f, s.l1, s.l2);
    let (k, g) = lemma_combined(
        p,
        o,
        st,
        f,
        s.l0,
        get(counter),
        get(step_l),
        BinOp::Add,
        TypeV::Number,
        env,
        ValueV::Number(a),
        ValueV::Number(c),
    );
    match answered(o, RequestV::Arith(BinOp::Add, a, c)) {
        Some(d) => {
            let m1 = with_frame(st, g);
            assert(stands_at(p, m1, f, s.l1));
            lemma_write(p, o, m1, f, s.l1, counter, s.d, d, env);
            let h = FrameV { pc: instrs(s.l2).len(), locals: g.locals.insert(counter, d), ..g };
            lemma_march(p, o, run, k, 1);
            lemma_frames(st, g, h);
            let m2 = with_frame(st, h);
            lemma_goes(p, o, m2, f, s.l2, s.end, x.header);
            let z = jumped_to(h, x.header);
            lemma_march(p, o, run, k + 1, 1);
            lemma_frames(st, h, z);
            (k + 1 + 1, z)
        },
        None => (k, g),
    }
}

} // verus!
