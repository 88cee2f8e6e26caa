//! The code that simple expressions are lowered to, with the branches of `and` and `or` and the
//! calls of builtins; the machine evaluates it to their values.

use vstd::prelude::*;

use super::calls::{lemma_machine_declares, lemma_uncelled, rest_of, uncelled};
use super::control::{
    builtin_of, builtin_outcome, called, host_of, lemma_builtin, lemma_value_scalar,
    lemma_values_scalar, one_runs_out, runs_out, script_of, simple, value_of, values_of,
};
use super::{
    begins, effect_meaning, has, has_failed, instrs, is_scalar, keeps, lemma_emit, lemma_march,
    lemma_no_array, lemma_operation, lemma_read, march, scalars, stands, with_frame, Answers, Env,
};
use crate::ast::{BinOp, ExprKindV, ExprV};
use crate::interp::namespace_of;
use crate::ir::lower::{
    call_op, callee_of, l_args, l_expr, unfold_l_args, unfold_l_call, unfold_l_expr, unfold_l_field,
    unfold_l_short_circuit, Low, Tables,
};
use crate::ir::vm;
use crate::ir::vm::{CodeV, FrameV, ProgressV, VmV};
use crate::ir::{BlockId, BlockV, FunctionV, InstrV, OpV, ProgramV, Terminator, ValueId};
use crate::names::get_of;
use crate::resolve::SymbolId;
use crate::runtime::builtins::field_type_of;
use crate::runtime::eval::{field_value_of, RequestV};
use crate::types::TypeV;
use crate::value::{truthy, RunErrorV, ValueV};

verus! {

/// An upper bound of the values, blocks and temporaries that an expression takes.
pub open spec fn cost(e: ExprV) -> nat
    decreases e, 0int,
{
    match e.kind {
        ExprKindV::Paren(i) => cost(*i),
        ExprKindV::Unary { op, operand } => cost(*operand) + 1,
        ExprKindV::Binary { op, lhs, rhs } => cost(*lhs) + cost(*rhs) + 2,
        ExprKindV::Call { callee, args } => costs(args, 0) + 1,
        _ => 1,
    }
}

/// What the expressions from `i` on take.
pub open spec fn costs(es: Seq<ExprV>, i: int) -> nat
    decreases es, es.len() - i,
{
    if 0 <= i < es.len() {
        cost(es[i]) + costs(es, i + 1)
    } else {
        0
    }
}

/// The instruction that a call becomes, and its type.
pub open spec fn call_code(t: Tables, callee: ExprV, ids: Seq<ValueId>) -> (OpV, TypeV) {
    call_op(t, callee_of(t, callee), ids)
}

/// Whether the block that is being filled has not ended.
pub open spec fn is_open(low: Low) -> bool {
    0 <= low.current < low.blocks.len() && low.blocks[low.current].term == Terminator::Unreachable
}

/// Whether there is room for `c` more values, blocks and temporaries.
pub open spec fn fits(low: Low, c: nat) -> bool {
    &&& low.values.len() + c <= u32::MAX
    &&& low.blocks.len() + c <= u32::MAX
    &&& low.next_temp + c <= u32::MAX
}

/// Whether `later` took at most `c` values, blocks and temporaries more.
pub open spec fn took(low: Low, later: Low, c: nat) -> bool {
    &&& low.values.len() <= later.values.len() <= low.values.len() + c
    &&& low.blocks.len() <= later.blocks.len() <= low.blocks.len() + c
    &&& low.next_temp <= later.next_temp <= low.next_temp + c
}

/// Whether a block begins with what it was.
pub open spec fn continues(a: BlockV, b: BlockV) -> bool {
    &&& a.instrs.len() <= b.instrs.len()
    &&& forall|i: int| 0 <= i < a.instrs.len() ==> b.instrs[i] == #[trigger] a.instrs[i]
}

/// Whether `later` has only added to the current block of `low`, and blocks of its own.
pub open spec fn built(low: Low, later: Low) -> bool {
    &&& 0 <= low.current < low.blocks.len() <= later.blocks.len()
    &&& 0 <= later.current < later.blocks.len()
    &&& later.current == low.current || later.current >= low.blocks.len()
    &&& forall|b: int|
        0 <= b < low.blocks.len() && b != low.current ==> later.blocks[b] == #[trigger] low.blocks[b]
    &&& continues(low.blocks[low.current], later.blocks[low.current])
    &&& later.boxed == low.boxed
    &&& later.upvalues == low.upvalues
    &&& later.exits == low.exits
    &&& later.params == low.params
    &&& later.found == low.found
}

pub(crate) proof fn lemma_built(a: Low, b: Low, c: Low)
    requires
        built(a, b),
        built(b, c),
    ensures
        built(a, c),
{
    assert forall|k: int| 0 <= k < a.blocks.len() && k != a.current implies c.blocks[k]
        == #[trigger] a.blocks[k] by {
        assert(b.blocks[k] == a.blocks[k]);
    }
    let (x, y, z) = (a.blocks[a.current], b.blocks[a.current], c.blocks[a.current]);
    if b.current != a.current {
        assert(z == y);
    }
    assert forall|i: int| 0 <= i < x.instrs.len() implies z.instrs[i] == #[trigger] x.instrs[i] by {
        assert(y.instrs[i] == x.instrs[i]);
    }
}

/// Whether the blocks of a function are those of `low`, or will be.
pub open spec fn covers(f: FunctionV, low: Low) -> bool {
    &&& low.blocks.len() <= f.blocks.len()
    &&& forall|b: int| #![trigger low.blocks[b]]
        0 <= b < low.blocks.len() ==> {
            &&& continues(low.blocks[b], f.blocks[b])
            &&& low.blocks[b].term != Terminator::Unreachable ==> f.blocks[b] == low.blocks[b]
        }
}

pub(crate) proof fn lemma_covers(f: FunctionV, low: Low, later: Low)
    requires
        built(low, later),
        is_open(low),
        covers(f, later),
    ensures
        covers(f, low),
{
    assert forall|b: int| #![trigger low.blocks[b]] 0 <= b < low.blocks.len() implies continues(
        low.blocks[b],
        f.blocks[b],
    ) && (low.blocks[b].term != Terminator::Unreachable ==> f.blocks[b] == low.blocks[b]) by {
        let (x, y, z) = (low.blocks[b], later.blocks[b], f.blocks[b]);
        assert(continues(y, z));
        if b == low.current {
            assert forall|i: int| 0 <= i < x.instrs.len() implies z.instrs[i]
                == #[trigger] x.instrs[i] by {
                assert(y.instrs[i] == x.instrs[i]);
            }
        }
    }
}

/// Blocks that are there already, or will be filled and ended.
pub open spec fn leads(x: Low, y: Low) -> bool {
    &&& x.blocks.len() <= y.blocks.len()
    &&& forall|b: int| #![trigger x.blocks[b]]
        0 <= b < x.blocks.len() ==> y.blocks[b] == x.blocks[b] || (x.blocks[b].term
            == Terminator::Unreachable && y.blocks[b].instrs == x.blocks[b].instrs)
}

pub(crate) proof fn lemma_leads(f: FunctionV, x: Low, y: Low)
    requires
        leads(x, y),
        covers(f, y),
    ensures
        covers(f, x),
{
    assert forall|b: int| #![trigger x.blocks[b]] 0 <= b < x.blocks.len() implies continues(
        x.blocks[b],
        f.blocks[b],
    ) && (x.blocks[b].term != Terminator::Unreachable ==> f.blocks[b] == x.blocks[b]) by {
        assert(continues(y.blocks[b], f.blocks[b]));
    }
}

/// The state of lowering in the middle of a short-circuit operator: the left operand is kept
/// in a temporary, and the block of the right operand begins.
pub open spec fn at_rhs(low: Low, op: BinOp, l: ValueId) -> (Low, SymbolId, BlockId, BlockId) {
    let ty = low.type_of(l);
    let (st2, result) = low.fresh_temp(ty);
    let (st3, cond) = st2.stmt(OpV::LocalSet(result, l)).emit(OpV::Truthy(l), TypeV::Bool);
    let (st4, rhs_b) = st3.new_block();
    let (st5, merge) = st4.new_block();
    let branch = if op == BinOp::And {
        Terminator::Branch { cond, then_blk: rhs_b, else_blk: merge }
    } else {
        Terminator::Branch { cond, then_blk: merge, else_blk: rhs_b }
    };
    (st5.terminate(branch).switch(rhs_b), result, rhs_b, merge)
}

/// The state of lowering after a short-circuit operator.
pub open spec fn after_rhs(
    low: Low,
    st6: Low,
    result: SymbolId,
    merge: BlockId,
    l: ValueId,
    r: ValueId,
) -> (Low, ValueId) {
    st6.stmt(OpV::LocalSet(result, r)).terminate(Terminator::Jump(merge)).switch(merge).emit(
        OpV::LocalGet(result),
        low.type_of(l),
    )
}

proof fn lemma_at_rhs(low: Low, op: BinOp, l: ValueId)
    requires
        is_open(low),
        fits(low, 2),
        uncelled(low),
    ensures
        ({
            let (a, result, rhs_b, merge) = at_rhs(low, op, l);
            let cond = low.values.len() as u32;
            &&& built(low, a)
            &&& is_open(a)
            &&& uncelled(a)
            &&& a.values.len() == low.values.len() + 1
            &&& a.blocks.len() == low.blocks.len() + 2
            &&& a.next_temp == low.next_temp + 1
            &&& result == low.next_temp
            &&& rhs_b == low.blocks.len()
            &&& merge == low.blocks.len() + 1
            &&& a.current == rhs_b
            &&& instrs(a).len() == 0
            &&& a.blocks[merge as int].instrs.len() == 0
            &&& a.blocks[merge as int].term == Terminator::Unreachable
            &&& a.blocks[low.current].instrs == instrs(low).push(
                InstrV { dest: None, op: OpV::LocalSet(result, l) },
            ).push(InstrV { dest: Some(cond), op: OpV::Truthy(l) })
            &&& a.blocks[low.current].term == if op == BinOp::And {
                Terminator::Branch { cond, then_blk: rhs_b, else_blk: merge }
            } else {
                Terminator::Branch { cond, then_blk: merge, else_blk: rhs_b }
            }
        }),
{
    reveal(Low::fresh_temp);
    reveal(Low::stmt);
    reveal(Low::emit);
    reveal(Low::new_block);
    reveal(Low::set_term);
    reveal(Low::switch);
    let (a, result, rhs_b, merge) = at_rhs(low, op, l);
    let cond = low.values.len() as u32;
    assert(a.blocks[low.current].instrs =~= instrs(low).push(
        InstrV { dest: None, op: OpV::LocalSet(result, l) },
    ).push(InstrV { dest: Some(cond), op: OpV::Truthy(l) }));
}

proof fn lemma_after_rhs(
    low: Low,
    a: Low,
    st6: Low,
    result: SymbolId,
    merge: BlockId,
    l: ValueId,
    r: ValueId,
)
    requires
        is_open(low),
        built(low, a),
        built(a, st6),
        is_open(st6),
        uncelled(low),
        st6.values.len() < u32::MAX,
        a.current >= low.blocks.len(),
        merge >= low.blocks.len(),
        merge < a.blocks.len(),
        merge != a.current,
        a.blocks[merge as int].instrs.len() == 0,
        a.blocks[merge as int].term == Terminator::Unreachable,
    ensures
        ({
            let (d, v) = after_rhs(low, st6, result, merge, l, r);
            &&& built(low, d)
            &&& is_open(d)
            &&& uncelled(d)
            &&& d.values.len() == st6.values.len() + 1
            &&& d.blocks.len() == st6.blocks.len()
            &&& d.next_temp == st6.next_temp
            &&& v == st6.values.len()
            &&& d.current == merge
            &&& d.blocks[low.current] == a.blocks[low.current]
            &&& d.blocks[st6.current].instrs == instrs(st6).push(
                InstrV { dest: None, op: OpV::LocalSet(result, r) },
            )
            &&& d.blocks[st6.current].term == Terminator::Jump(merge)
            &&& instrs(d) == Seq::<InstrV>::empty().push(
                InstrV { dest: Some(v), op: OpV::LocalGet(result) },
            )
            &&& built(a, st6.stmt(OpV::LocalSet(result, r)))
            &&& forall|b: int| 0 <= b < st6.blocks.len() && b != st6.current && b != merge
                ==> d.blocks[b] == #[trigger] st6.blocks[b]
        }),
{
    reveal(Low::stmt);
    reveal(Low::emit);
    reveal(Low::set_term);
    reveal(Low::switch);
    lemma_built(low, a, st6);
    let (d, v) = after_rhs(low, st6, result, merge, l, r);
    assert(st6.blocks[merge as int] == a.blocks[merge as int]);
    assert(st6.current != merge);
    assert(instrs(d) =~= Seq::<InstrV>::empty().push(
        InstrV { dest: Some(v), op: OpV::LocalGet(result) },
    ));
    assert(st6.blocks[low.current] == a.blocks[low.current]);
    assert forall|b: int| 0 <= b < low.blocks.len() && b != low.current implies d.blocks[b]
        == #[trigger] low.blocks[b] by {
        assert(st6.blocks[b] == low.blocks[b]);
    }
}

/// A simple expression is lowered to code that goes on from the current block.
pub(crate) proof fn lemma_simple_lowered(t: Tables, low: Low, known: Set<SymbolId>, e: ExprV)
    requires
        simple(t.res, known, e),
        uncelled(low),
        is_open(low),
        fits(low, cost(e)),
    ensures
        l_expr(t, low, e) is Ok,
        ({
            let (a, v) = l_expr(t, low, e)->Ok_0;
            &&& built(low, a)
            &&& is_open(a)
            &&& uncelled(a)
            &&& took(low, a, cost(e))
            &&& v < a.values.len()
        }),
    decreases e, 0int,
{
    unfold_l_expr(t, low, e);
    match e.kind {
        ExprKindV::Nil => lemma_emit_open(low, OpV::ConstNil, TypeV::Nil),
        ExprKindV::Bool(b) => lemma_emit_open(low, OpV::ConstBool(b), TypeV::Bool),
        ExprKindV::Number(n) => lemma_emit_open(low, OpV::ConstNumber(n), TypeV::Number),
        ExprKindV::Str(s) => lemma_emit_open(low, OpV::ConstString(s), TypeV::String),
        ExprKindV::Paren(i) => lemma_simple_lowered(t, low, known, *i),
        ExprKindV::Name(_) => lemma_name_open(t, low, known, e),
        ExprKindV::Unary { op, operand } => {
            lemma_simple_lowered(t, low, known, *operand);
            let (a, v) = l_expr(t, low, *operand)->Ok_0;
            let ty = crate::ir::lower::unary_type(op);
            lemma_emit_open(a, OpV::Unary(op, v), ty);
            lemma_built(low, a, a.emit(OpV::Unary(op, v), ty).0);
        },
        ExprKindV::Binary { op, lhs, rhs } => {
            lemma_simple_lowered(t, low, known, *lhs);
            let (a, l) = l_expr(t, low, *lhs)->Ok_0;
            if op == BinOp::And || op == BinOp::Or {
                unfold_l_short_circuit(t, low, e);
                lemma_at_rhs(a, op, l);
                let (b, result, rhs_b, merge) = at_rhs(a, op, l);
                lemma_simple_lowered(t, b, known, *rhs);
                let (c, w) = l_expr(t, b, *rhs)->Ok_0;
                lemma_after_rhs(a, b, c, result, merge, l, w);
                lemma_built(low, a, after_rhs(a, c, result, merge, l, w).0);
            } else {
                lemma_simple_lowered(t, a, known, *rhs);
                let (b, w) = l_expr(t, a, *rhs)->Ok_0;
                lemma_built(low, a, b);
                let ty = crate::ir::lower::binary_type(op);
                lemma_emit_open(b, OpV::Binary(op, l, w), ty);
                lemma_built(low, b, b.emit(OpV::Binary(op, l, w), ty).0);
            }
        },
        ExprKindV::Field { base, name } => {
            lemma_constant_lowered(t, low, e, *base, name.node);
            let ns = namespace_of(t.res, *base)->0;
            lemma_emit_open(low, OpV::NamespaceField(ns, name.node), constant_type(ns, name.node));
        },
        ExprKindV::Call { callee, args } => {
            lemma_call_lowered(t, low, known, e, *callee, args);
            lemma_args_lowered(t, low, known, args, 0, Seq::empty());
            let (a, ids) = l_args(t, low, args, 0, Seq::empty())->Ok_0;
            let (op, ty) = call_code(t, *callee, ids);
            lemma_emit_open(a, op, ty);
            lemma_built(low, a, a.emit(op, ty).0);
        },
        _ => {},
    }
}

/// The type of a constant of a namespace.
pub open spec fn constant_type(ns: Seq<char>, name: Seq<char>) -> TypeV {
    match field_type_of(ns, name) {
        Some(ty) => ty,
        None => TypeV::Error,
    }
}

/// A constant of a namespace is lowered to one instruction.
proof fn lemma_constant_lowered(t: Tables, low: Low, e: ExprV, base: ExprV, name: Seq<char>)
    requires
        e.kind matches ExprKindV::Field { base: b, name: n } && *b == base && n.node == name,
        namespace_of(t.res, base) is Some,
    ensures
        ({
            let ns = namespace_of(t.res, base)->0;
            l_expr(t, low, e) == Ok::<(Low, ValueId), crate::ir::LowerErrorV>(
                low.emit(OpV::NamespaceField(ns, name), constant_type(ns, name)),
            )
        }),
{
    unfold_l_expr(t, low, e);
    unfold_l_field(t, low, e);
}

/// A call is lowered to its arguments and one instruction.
proof fn lemma_call_lowered(
    t: Tables,
    low: Low,
    known: Set<SymbolId>,
    e: ExprV,
    callee: ExprV,
    args: Seq<ExprV>,
)
    requires
        e.kind == (ExprKindV::Call { callee: Box::new(callee), args }),
        builtin_of(t.res, callee) is Some || script_of(t.res, callee) is Some || host_of(
            t.res,
            callee,
        ) is Some,
    ensures
        l_expr(t, low, e) == match l_args(t, low, args, 0, Seq::empty()) {
            Err(x) => Err(x),
            Ok((a, ids)) => {
                let (op, ty) = call_code(t, callee, ids);
                Ok(a.emit(op, ty))
            },
        },
{
    unfold_l_expr(t, low, e);
    unfold_l_call(t, low, e);
}

proof fn lemma_args_lowered(
    t: Tables,
    low: Low,
    known: Set<SymbolId>,
    args: Seq<ExprV>,
    i: int,
    acc: Seq<ValueId>,
)
    requires
        forall|k: int| 0 <= k < args.len() ==> simple(t.res, known, #[trigger] args[k]),
        0 <= i <= args.len(),
        acc.len() == i,
        forall|k: int| 0 <= k < i ==> (#[trigger] acc[k]) < low.values.len(),
        uncelled(low),
        is_open(low),
        fits(low, costs(args, i)),
    ensures
        l_args(t, low, args, i, acc) is Ok,
        ({
            let (a, ids) = l_args(t, low, args, i, acc)->Ok_0;
            &&& built(low, a)
            &&& is_open(a)
            &&& uncelled(a)
            &&& took(low, a, costs(args, i))
            &&& ids.len() == args.len()
            &&& forall|k: int| 0 <= k < ids.len() ==> (#[trigger] ids[k]) < a.values.len()
        }),
    decreases args, args.len() - i,
{
    unfold_l_args(t, low, args, i, acc);
    if i < args.len() {
        lemma_simple_lowered(t, low, known, args[i]);
        let (a, v) = l_expr(t, low, args[i])->Ok_0;
        lemma_args_lowered(t, a, known, args, i + 1, acc.push(v));
        lemma_built(low, a, (l_args(t, a, args, i + 1, acc.push(v))->Ok_0).0);
    }
}

pub(crate) proof fn lemma_emit_open(low: Low, op: OpV, ty: TypeV)
    requires
        is_open(low),
        uncelled(low),
        fits(low, 1),
    ensures
        ({
            let (a, v) = low.emit(op, ty);
            &&& built(low, a)
            &&& is_open(a)
            &&& uncelled(a)
            &&& took(low, a, 1)
            &&& v < a.values.len()
            &&& a.next_temp == low.next_temp
        }),
{
    lemma_emit(low, op, ty);
    reveal(Low::emit);
}

proof fn lemma_name_open(t: Tables, low: Low, known: Set<SymbolId>, e: ExprV)
    requires
        simple(t.res, known, e),
        e.kind is Name,
        is_open(low),
        uncelled(low),
        fits(low, 1),
    ensures
        crate::ir::lower::l_name(t, low, e.span) is Ok,
        ({
            let (a, v) = crate::ir::lower::l_name(t, low, e.span)->Ok_0;
            &&& built(low, a)
            &&& is_open(a)
            &&& uncelled(a)
            &&& took(low, a, 1)
            &&& v < a.values.len()
        }),
{
    let id = t.res.binding_of(e.span)->0->Local_0;
    let env = Map::new(|k: SymbolId| known.contains(k), |k: SymbolId| ValueV::Nil);
    assert(env.dom() =~= known);
    lemma_uncelled(low, env);
    lemma_read(t, low, env, e, id);
    reveal(crate::ir::lower::l_name);
    reveal(Low::read);
    reveal(Low::ensure_local);
    reveal(Low::emit);
}

// ---- expressions --------------------------------------------------------------

/// Whether the innermost frame stands in `f` where the code of `low` ends.
pub open spec fn stands_at(p: ProgramV, st: VmV, f: FunctionV, low: Low) -> bool {
    &&& stands(p, st, f, low)
    &&& st.frames.last().block == low.current
}

/// Whether `f` is the frame `before` where the code of `later` ends: it holds the variables
/// of `env`, and the values that there were at `low`.
pub open spec fn went(before: FrameV, f: FrameV, low: Low, later: Low, env: Env) -> bool {
    &&& f == (FrameV {
        block: later.current as u32,
        pc: instrs(later).len(),
        locals: f.locals,
        values: f.values,
        ..before
    })
    &&& same_values(before, f, low)
    &&& keeps(f, env)
}

/// Whether a frame has the values that another had at `low`.
pub open spec fn same_values(before: FrameV, f: FrameV, low: Low) -> bool {
    &&& forall|id: ValueId| #![trigger f.values.dom().contains(id)]
        id < low.values.len() ==> (f.values.dom().contains(id) == before.values.dom().contains(id))
    &&& forall|id: ValueId| #![trigger f.values[id]]
        id < low.values.len() && before.values.dom().contains(id) ==> f.values[id]
            == before.values[id]
}

pub(crate) proof fn lemma_same_values(a: FrameV, b: FrameV, c: FrameV, low: Low, mid: Low)
    requires
        same_values(a, b, low),
        same_values(b, c, mid),
        low.values.len() <= mid.values.len(),
    ensures
        same_values(a, c, low),
{
    assert forall|id: ValueId| #![trigger c.values.dom().contains(id)]
        id < low.values.len() implies c.values.dom().contains(id) == a.values.dom().contains(id) by {
        assert(b.values.dom().contains(id) == a.values.dom().contains(id));
    }
    assert forall|id: ValueId| #![trigger c.values[id]]
        id < low.values.len() && a.values.dom().contains(id) implies c.values[id]
        == a.values[id] by {
        assert(b.values.dom().contains(id));
        assert(b.values[id] == a.values[id]);
    }
}

/// Whether a march ended as `x` says: where the code of `later` ends, with the value, or in
/// failure.
pub open spec fn got(
    st: VmV,
    x: Option<ValueV>,
    s: (VmV, ProgressV),
    f: FrameV,
    low: Low,
    later: Low,
    v: ValueId,
    env: Env,
) -> bool {
    match x {
        Some(x) => s == (with_frame(st, f), ProgressV::Running) && went(
            st.frames.last(),
            f,
            low,
            later,
            env,
        ) && has(f, v, x),
        None => has_failed(s.1),
    }
}

/// Whether all variables of `env` come before the temporaries of `low`.
pub open spec fn apart(low: Low, env: Env) -> bool {
    forall|id: SymbolId| #[trigger] env.dom().contains(id) ==> id < low.next_temp
}

/// The frame after a jump.
pub open spec fn jumped_to(f: FrameV, b: BlockId) -> FrameV {
    FrameV { block: b, pc: 0, ..f }
}

/// Whether a frame is the frame `before` at another place.
pub open spec fn arrived(before: FrameV, g: FrameV, b: BlockId, pc: nat) -> bool {
    g == (FrameV { block: b, pc, locals: g.locals, values: g.values, ..before })
}

/// A jump or a branch.
pub(crate) proof fn lemma_jump(
    p: ProgramV,
    o: Answers,
    st: VmV,
    f: FunctionV,
    to: BlockId,
)
    requires
        st.wait is None,
        st.frames.len() > 0,
        vm::code_of(p, st.frames.last().code) == Some(f),
        st.frames.last().block < f.blocks.len(),
        st.frames.last().pc == f.blocks[st.frames.last().block as int].instrs.len(),
        match f.blocks[st.frames.last().block as int].term {
            Terminator::Jump(b) => b == to,
            Terminator::Branch { cond, then_blk, else_blk } => st.frames.last().values.dom().contains(
                cond,
            ) && to == if truthy(st.frames.last().values[cond]) {
                then_blk
            } else {
                else_blk
            },
            _ => false,
        },
    ensures
        march(p, o, (st, ProgressV::Running), 1) == (
            with_frame(st, jumped_to(st.frames.last(), to)),
            ProgressV::Running,
        ),
{
    reveal_with_fuel(march, 2);
    reveal(vm::terminated);
    reveal(vm::jumped);
}

/// A jump from where the code of `low` ends to another block.
pub(crate) proof fn lemma_goes(
    p: ProgramV,
    o: Answers,
    st: VmV,
    f: FunctionV,
    low: Low,
    y: Low,
    to: BlockId,
)
    requires
        st.wait is None,
        st.frames.len() > 0,
        vm::code_of(p, st.frames.last().code) == Some(f),
        0 <= low.current < y.blocks.len(),
        st.frames.last().block == low.current,
        st.frames.last().pc == y.blocks[low.current].instrs.len(),
        covers(f, y),
        match y.blocks[low.current].term {
            Terminator::Jump(b) => b == to,
            Terminator::Branch { cond, then_blk, else_blk } => st.frames.last().values.dom().contains(
                cond,
            ) && to == if truthy(st.frames.last().values[cond]) {
                then_blk
            } else {
                else_blk
            },
            _ => false,
        },
    ensures
        march(p, o, (st, ProgressV::Running), 1) == (
            with_frame(st, jumped_to(st.frames.last(), to)),
            ProgressV::Running,
        ),
{
    assert(f.blocks[low.current] == y.blocks[low.current]);
    lemma_jump(p, o, st, f, to);
}

/// One operation that yields a value.
pub(crate) proof fn lemma_op(
    p: ProgramV,
    o: Answers,
    st: VmV,
    f: FunctionV,
    low: Low,
    op: OpV,
    ty: TypeV,
    x: vm::EffectV,
    env: Env,
) -> (r: (nat, FrameV))
    requires
        is_open(low),
        low.values.len() < u32::MAX,
        stands_at(p, st, f, low),
        covers(f, low.emit(op, ty).0),
        keeps(st.frames.last(), env),
        vm::eval_op_of(p, st, st.frames.last(), op) == vm::pure(st, st.frames.last(), x),
        !(x is Enter),
    ensures
        got(
            st,
            effect_meaning(o, x),
            march(p, o, (st, ProgressV::Running), r.0),
            r.1,
            low,
            low.emit(op, ty).0,
            low.emit(op, ty).1,
            env,
        ),
{
    lemma_emit(low, op, ty);
    let (later, v) = low.emit(op, ty);
    let b = later.blocks[later.current];
    assert(begins(st, f, later));
    let (n, g) = lemma_operation(p, o, st, f, low, later, v, op, x);
    (n, g)
}

/// A write to a temporary or a variable.
pub(crate) proof fn lemma_write(
    p: ProgramV,
    o: Answers,
    st: VmV,
    f: FunctionV,
    low: Low,
    id: SymbolId,
    v: ValueId,
    x: ValueV,
    env: Env,
)
    requires
        is_open(low),
        stands_at(p, st, f, low),
        covers(f, low.stmt(OpV::LocalSet(id, v))),
        has(st.frames.last(), v, x),
        keeps(st.frames.last(), env),
    ensures
        ({
            let later = low.stmt(OpV::LocalSet(id, v));
            let g = FrameV {
                pc: instrs(later).len(),
                locals: st.frames.last().locals.insert(id, x),
                ..st.frames.last()
            };
            &&& march(p, o, (st, ProgressV::Running), 1) == (
                with_frame(st, g),
                ProgressV::Running,
            )
            &&& keeps(g, env.insert(id, x))
            &&& instrs(later) == instrs(low).push(
                InstrV { dest: None, op: OpV::LocalSet(id, v) },
            )
            &&& later.current == low.current
        }),
{
    reveal(Low::stmt);
    let later = low.stmt(OpV::LocalSet(id, v));
    assert(instrs(later) =~= instrs(low).push(InstrV { dest: None, op: OpV::LocalSet(id, v) }));
    let b = later.blocks[later.current];
    assert(begins(st, f, later));
    lemma_machine_declares(p, o, st, f, low, later, id, v, x, env);
}

/// The machine evaluates the code of a simple expression to its value.
pub(crate) proof fn lemma_simple_executed(
    p: ProgramV,
    o: Answers,
    t: Tables,
    known: Set<SymbolId>,
    env: Env,
    e: ExprV,
    low: Low,
    st: VmV,
    f: FunctionV,
) -> (r: (nat, FrameV))
    requires
        simple(t.res, known, e),
        known.subset_of(env.dom()),
        scalars(env),
        uncelled(low),
        is_open(low),
        fits(low, cost(e)),
        apart(low, env),
        stands_at(p, st, f, low),
        covers(f, (l_expr(t, low, e)->Ok_0).0),
        keeps(st.frames.last(), env),
        hosted(o, st),
        calls_march(p, o),
        !runs_out(t.res, env, o, e),
    ensures
        got(
            st,
            value_of(t.res, env, o, e),
            march(p, o, (st, ProgressV::Running), r.0),
            r.1,
            low,
            (l_expr(t, low, e)->Ok_0).0,
            (l_expr(t, low, e)->Ok_0).1,
            env,
        ),
    decreases e, 0int,
{
    lemma_simple_lowered(t, low, known, e);
    unfold_l_expr(t, low, e);
    let (later, v) = l_expr(t, low, e)->Ok_0;
    let g0 = st.frames.last();
    match e.kind {
        ExprKindV::Nil => {
            reveal(vm::eval_op_of);
            let x = vm::EffectV::Value(ValueV::Nil);
            lemma_op(p, o, st, f, low, OpV::ConstNil, TypeV::Nil, x, env)
        },
        ExprKindV::Bool(b) => {
            reveal(vm::eval_op_of);
            let x = vm::EffectV::Value(ValueV::Bool(b));
            lemma_op(p, o, st, f, low, OpV::ConstBool(b), TypeV::Bool, x, env)
        },
        ExprKindV::Number(k) => {
            reveal(vm::eval_op_of);
            let x = vm::EffectV::Ask(RequestV::Numeral(k));
            lemma_op(p, o, st, f, low, OpV::ConstNumber(k), TypeV::Number, x, env)
        },
        ExprKindV::Str(s) => {
            reveal(vm::eval_op_of);
            let x = vm::EffectV::Value(ValueV::Str(s));
            lemma_op(p, o, st, f, low, OpV::ConstString(s), TypeV::String, x, env)
        },
        ExprKindV::Paren(i) => lemma_simple_executed(p, o, t, known, env, *i, low, st, f),
        ExprKindV::Name(_) => lemma_name_executed(p, o, t, known, env, e, low, st, f),
        ExprKindV::Unary { op, operand } => {
            lemma_simple_lowered(t, low, known, *operand);
            lemma_value_scalar(t.res, known, env, o, *operand);
            let (a, w) = l_expr(t, low, *operand)->Ok_0;
            let ty = crate::ir::lower::unary_type(op);
            lemma_emit_open(a, OpV::Unary(op, w), ty);
            lemma_covers(f, a, later);
            let (k, g) = lemma_simple_executed(p, o, t, known, env, *operand, low, st, f);
            match value_of(t.res, env, o, *operand) {
                Some(y) => {
                    let mid = with_frame(st, g);
                    assert(mid.frames.last() == g);
                    lemma_no_array(st.heap, y);
                    let x = vm::unary_effect(st.heap, op, y);
                    assert(vm::eval_op_of(p, mid, g, OpV::Unary(op, w)) == vm::pure(mid, g, x)) by {
                        reveal(vm::eval_op_of);
                    }
                    let (j, h) = lemma_op(p, o, mid, f, a, OpV::Unary(op, w), ty, x, env);
                    lemma_march(p, o, (st, ProgressV::Running), k, j);
                    lemma_frames(st, g, h);
                    if value_of(t.res, env, o, e) is Some {
                        lemma_same_values(g0, g, h, low, a);
                    }
                    (k + j, h)
                },
                None => (k, g),
            }
        },
        ExprKindV::Binary { op, lhs, rhs } => {
            lemma_simple_lowered(t, low, known, *lhs);
            let (a, l) = l_expr(t, low, *lhs)->Ok_0;
            lemma_binary_parts(t, low, known, e, f);
            let (k, g) = lemma_simple_executed(p, o, t, known, env, *lhs, low, st, f);
            match value_of(t.res, env, o, *lhs) {
                Some(y) => {
                    let mid = with_frame(st, g);
                    assert(mid.frames.last() == g);
                    lemma_value_scalar(t.res, known, env, o, *lhs);
                    let (j, h) = if op == BinOp::And || op == BinOp::Or {
                        lemma_circuit_executed(p, o, t, known, env, op, *rhs, a, l, y, mid, f)
                    } else {
                        lemma_strict_executed(p, o, t, known, env, op, *rhs, a, l, y, mid, f)
                    };
                    lemma_march(p, o, (st, ProgressV::Running), k, j);
                    lemma_frames(st, g, h);
                    if value_of(t.res, env, o, e) is Some {
                        lemma_same_values(g0, g, h, low, a);
                    }
                    (k + j, h)
                },
                None => (k, g),
            }
        },
        ExprKindV::Field { base, name } => {
            lemma_constant_lowered(t, low, e, *base, name.node);
            let ns = namespace_of(t.res, *base)->0;
            let op = OpV::NamespaceField(ns, name.node);
            let x = vm::read_effect(field_value_of(ns, name.node));
            assert(vm::eval_op_of(p, st, g0, op) == vm::pure(st, g0, x)) by {
                reveal(vm::eval_op_of);
                reveal(vm::name_op);
            }
            lemma_op(p, o, st, f, low, op, constant_type(ns, name.node), x, env)
        },
        ExprKindV::Call { callee, args } => {
            lemma_call_executed(p, o, t, known, env, e, *callee, args, low, st, f)
        },
        _ => (0, g0),
    }
}

/// The machine evaluates the code of a call of a builtin.
proof fn lemma_call_executed(
    p: ProgramV,
    o: Answers,
    t: Tables,
    known: Set<SymbolId>,
    env: Env,
    e: ExprV,
    callee: ExprV,
    args: Seq<ExprV>,
    low: Low,
    st: VmV,
    f: FunctionV,
) -> (r: (nat, FrameV))
    requires
        e.kind == (ExprKindV::Call { callee: Box::new(callee), args }),
        simple(t.res, known, e),
        known.subset_of(env.dom()),
        scalars(env),
        uncelled(low),
        is_open(low),
        fits(low, cost(e)),
        apart(low, env),
        stands_at(p, st, f, low),
        covers(f, (l_expr(t, low, e)->Ok_0).0),
        keeps(st.frames.last(), env),
        hosted(o, st),
        calls_march(p, o),
        !runs_out(t.res, env, o, e),
    ensures
        got(
            st,
            value_of(t.res, env, o, e),
            march(p, o, (st, ProgressV::Running), r.0),
            r.1,
            low,
            (l_expr(t, low, e)->Ok_0).0,
            (l_expr(t, low, e)->Ok_0).1,
            env,
        ),
    decreases args, args.len() + 1,
{
    lemma_call_lowered(t, low, known, e, callee, args);
    lemma_args_lowered(t, low, known, args, 0, Seq::empty());
    let g0 = st.frames.last();
    let (a, ids) = l_args(t, low, args, 0, Seq::empty())->Ok_0;
    let (op, ty) = call_code(t, callee, ids);
    lemma_emit_open(a, op, ty);
    lemma_covers(f, a, a.emit(op, ty).0);
    let none = Seq::<ValueV>::empty();
    let first = Seq::<ValueId>::empty();
    let (k, g) = lemma_args_executed(p, o, t, known, env, args, 0, low, first, none, st, f);
    match values_of(t.res, env, o, args, 0, none) {
        Some(vs) => {
            let mid = with_frame(st, g);
            assert(mid.frames.last() == g);
            lemma_vals(g, ids, vs, 0);
            assert(vs.take(0) =~= none);
            lemma_values_scalar(t.res, known, env, o, args, 0, none);
            let (j, h) = match builtin_of(t.res, callee) {
                Some(c) => {
                    lemma_builtin(t.res, o, callee, st.heap, vs);
                    let x = vm::builtin_effect(builtin_outcome(st.heap, c, vs));
                    assert(vm::eval_op_of(p, mid, g, op) == vm::pure(mid, g, x)) by {
                        reveal(vm::eval_op_of);
                        reveal(vm::call_op);
                    }
                    lemma_op(p, o, mid, f, a, op, ty, x, env)
                },
                None => match script_of(t.res, callee) {
                    Some(name) => {
                        assert(op == OpV::CallScript(name, ids));
                        assert(called(o, name, vs) is Some);
                        lemma_script_op(p, o, mid, f, a, name, ids, vs, ty, env)
                    },
                    None => {
                        let name = host_of(t.res, callee)->0;
                        let x = if (o.hosts)(name) {
                            vm::EffectV::Ask(RequestV::Host(name, vs))
                        } else {
                            vm::EffectV::Fail(
                                vm::runtime("host fn `"@ + name + "` not set"@),
                            )
                        };
                        assert(vm::eval_op_of(p, mid, g, op) == vm::pure(mid, g, x)) by {
                            reveal(vm::eval_op_of);
                            reveal(vm::call_op);
                            assert(mid.hosts.contains(name) == (o.hosts)(name));
                        }
                        lemma_op(p, o, mid, f, a, op, ty, x, env)
                    },
                },
            };
            lemma_march(p, o, (st, ProgressV::Running), k, j);
            lemma_frames(st, g, h);
            if value_of(t.res, env, o, e) is Some {
                lemma_same_values(g0, g, h, low, a);
            }
            (k + j, h)
        },
        None => (k, g),
    }
}

/// The machine at the start of a call of a script function.
pub open spec fn entered_call(p: ProgramV, st: VmV, name: Seq<char>, args: Seq<ValueV>) -> VmV {
    let func = get_of(p.functions, name)->0;
    VmV {
        frames: st.frames.push(
            vm::entered(CodeV::Function(name), func, args, st.heap.len() as usize),
        ),
        ..st
    }
}

/// Whether the machine has the host functions that there are.
pub open spec fn hosted(o: Answers, st: VmV) -> bool {
    forall|n: Seq<char>| #[trigger] st.hosts.contains(n) <==> (o.hosts)(n)
}

/// Whether the machine can call a script function of which it is known what it comes to.
pub open spec fn marchable(
    p: ProgramV,
    o: Answers,
    st: VmV,
    name: Seq<char>,
    args: Seq<ValueV>,
) -> bool {
    &&& st.wait is None
    &&& st.frames.len() > 0
    &&& hosted(o, st)
    &&& forall|k: int| 0 <= k < args.len() ==> is_scalar(#[trigger] args[k])
    &&& called(o, name, args) is Some
}

/// Whether the call comes to that after `k` steps.
pub open spec fn comes_back(
    p: ProgramV,
    o: Answers,
    st: VmV,
    name: Seq<char>,
    args: Seq<ValueV>,
    k: nat,
) -> bool {
    let s = march(p, o, (entered_call(p, st, name, args), ProgressV::Running), k);
    match called(o, name, args)->0 {
        Some(v) => s == (vm::delivered(p, st, v), ProgressV::Running),
        None => has_failed(s.1),
    }
}

/// Whether the machine's calls of script functions come to what is known of them.
pub open spec fn calls_march(p: ProgramV, o: Answers) -> bool {
    &&& forall|name: Seq<char>, args: Seq<ValueV>| #[trigger]
        called(o, name, args) is Some ==> get_of(p.functions, name) is Some
    &&& forall|st: VmV, name: Seq<char>, args: Seq<ValueV>| #[trigger]
        marchable(p, o, st, name, args) ==> exists|k: nat| #[trigger]
            comes_back(p, o, st, name, args, k)
}

/// The instruction that calls a script function.
proof fn lemma_script_op(
    p: ProgramV,
    o: Answers,
    st: VmV,
    func: FunctionV,
    low: Low,
    name: Seq<char>,
    ids: Seq<ValueId>,
    vs: Seq<ValueV>,
    ty: TypeV,
    env: Env,
) -> (r: (nat, FrameV))
    requires
        is_open(low),
        low.values.len() < u32::MAX,
        stands_at(p, st, func, low),
        covers(func, low.emit(OpV::CallScript(name, ids), ty).0),
        keeps(st.frames.last(), env),
        vm::vals(st.frames.last(), ids, 0, Seq::empty()) == Ok::<Seq<ValueV>, RunErrorV>(vs),
        forall|k: int| 0 <= k < vs.len() ==> is_scalar(#[trigger] vs[k]),
        called(o, name, vs) is Some,
        hosted(o, st),
        calls_march(p, o),
    ensures
        got(
            st,
            called(o, name, vs)->0,
            march(p, o, (st, ProgressV::Running), r.0),
            r.1,
            low,
            low.emit(OpV::CallScript(name, ids), ty).0,
            low.emit(OpV::CallScript(name, ids), ty).1,
            env,
        ),
{
    let op = OpV::CallScript(name, ids);
    lemma_emit(low, op, ty);
    let (later, v) = low.emit(op, ty);
    let b0 = later.blocks[later.current];
    assert(begins(st, func, later));
    let n = st.frames.len() - 1;
    let f = st.frames.last();
    let b = func.blocks[f.block as int];
    let i = InstrV { dest: Some(v), op };
    assert(instrs(later)[instrs(low).len() as int] == i);
    assert(b.instrs[f.pc as int] == i);
    assert(vm::instr_at(p, f) == Some(i));
    let x = vm::EffectV::Enter(CodeV::Function(name), vs);
    let out = vm::pure(st, f, x);
    assert(vm::eval_op_of(p, st, f, op) == out) by {
        reveal(vm::eval_op_of);
        reveal(vm::call_op);
    }
    assert(st.frames.update(n, FrameV { locals: f.locals, ..f }) =~= st.frames);
    let inner = entered_call(p, st, name, vs);
    assert(vm::step_of(p, st) == (inner, ProgressV::Running)) by {
        reveal(vm::effected);
    }
    reveal_with_fuel(march, 2);
    assert(march(p, o, (st, ProgressV::Running), 1) == (inner, ProgressV::Running));
    assert(marchable(p, o, st, name, vs));
    let k = choose|k: nat| #[trigger] comes_back(p, o, st, name, vs, k);
    lemma_march(p, o, (st, ProgressV::Running), 1, k);
    match called(o, name, vs)->0 {
        Some(y) => {
            let g = vm::advanced(p, f, y);
            assert(vm::delivered(p, st, y) == with_frame(st, g)) by {
                reveal(vm::delivered);
            }
            (1 + k, g)
        },
        None => (1 + k, f),
    }
}

/// The values of temporaries that a frame has.
pub(crate) proof fn lemma_vals(g: FrameV, ids: Seq<ValueId>, vs: Seq<ValueV>, i: int)
    requires
        ids.len() == vs.len(),
        0 <= i <= ids.len(),
        forall|k: int| 0 <= k < ids.len() ==> has(g, #[trigger] ids[k], vs[k]),
    ensures
        vm::vals(g, ids, i, vs.take(i)) == Ok::<Seq<ValueV>, RunErrorV>(vs),
    decreases ids.len() - i,
{
    vm::unfold_vals(g, ids, i, vs.take(i));
    if i < ids.len() {
        assert(has(g, ids[i], vs[i]));
        assert(vs.take(i).push(vs[i]) =~= vs.take(i + 1));
        lemma_vals(g, ids, vs, i + 1);
    } else {
        assert(vs.take(i) =~= vs);
    }
}

/// The machine evaluates the code of the arguments from `i` on.
proof fn lemma_args_executed(
    p: ProgramV,
    o: Answers,
    t: Tables,
    known: Set<SymbolId>,
    env: Env,
    args: Seq<ExprV>,
    i: int,
    low: Low,
    acc: Seq<ValueId>,
    done: Seq<ValueV>,
    st: VmV,
    f: FunctionV,
) -> (r: (nat, FrameV))
    requires
        forall|k: int| 0 <= k < args.len() ==> simple(t.res, known, #[trigger] args[k]),
        0 <= i <= args.len(),
        acc.len() == i,
        done.len() == i,
        forall|k: int|
            0 <= k < i ==> (#[trigger] acc[k]) < low.values.len() && has(
                st.frames.last(),
                acc[k],
                done[k],
            ),
        known.subset_of(env.dom()),
        scalars(env),
        uncelled(low),
        is_open(low),
        fits(low, costs(args, i)),
        apart(low, env),
        stands_at(p, st, f, low),
        covers(f, (l_args(t, low, args, i, acc)->Ok_0).0),
        keeps(st.frames.last(), env),
        hosted(o, st),
        calls_march(p, o),
        !one_runs_out(t.res, env, o, args, i),
    ensures
        ({
            let (later, ids) = l_args(t, low, args, i, acc)->Ok_0;
            let s = march(p, o, (st, ProgressV::Running), r.0);
            match values_of(t.res, env, o, args, i, done) {
                Some(vs) => {
                    &&& s == (with_frame(st, r.1), ProgressV::Running)
                    &&& went(st.frames.last(), r.1, low, later, env)
                    &&& vs.len() == ids.len()
                    &&& forall|k: int| 0 <= k < ids.len() ==> has(r.1, #[trigger] ids[k], vs[k])
                },
                None => has_failed(s.1),
            }
        }),
    decreases args, args.len() - i,
{
    lemma_args_lowered(t, low, known, args, i, acc);
    unfold_l_args(t, low, args, i, acc);
    let g0 = st.frames.last();
    if i < args.len() {
        lemma_simple_lowered(t, low, known, args[i]);
        let (a, v) = l_expr(t, low, args[i])->Ok_0;
        lemma_args_lowered(t, a, known, args, i + 1, acc.push(v));
        let (later, ids) = l_args(t, a, args, i + 1, acc.push(v))->Ok_0;
        lemma_covers(f, a, later);
        let (k, g) = lemma_simple_executed(p, o, t, known, env, args[i], low, st, f);
        match value_of(t.res, env, o, args[i]) {
            Some(x) => {
                let mid = with_frame(st, g);
                assert(mid.frames.last() == g);
                let (acc1, done1) = (acc.push(v), done.push(x));
                assert forall|q: int| 0 <= q < i + 1 implies (#[trigger] acc1[q]) < a.values.len()
                    && has(g, acc1[q], done1[q]) by {
                    if q < i {
                        assert(acc1[q] == acc[q]);
                        assert(has(g0, acc[q], done[q]));
                        assert(g.values.dom().contains(acc[q]));
                        assert(g.values[acc[q]] == g0.values[acc[q]]);
                    }
                }
                let (j, h) = lemma_args_executed(
                    p,
                    o,
                    t,
                    known,
                    env,
                    args,
                    i + 1,
                    a,
                    acc1,
                    done1,
                    mid,
                    f,
                );
                lemma_march(p, o, (st, ProgressV::Running), k, j);
                lemma_frames(st, g, h);
                if values_of(t.res, env, o, args, i + 1, done1) is Some {
                    lemma_same_values(g0, g, h, low, a);
                }
                (k + j, h)
            },
            None => (k, g),
        }
    } else {
        assert(with_frame(st, g0).frames =~= st.frames);
        (0, g0)
    }
}

pub(crate) proof fn lemma_frames(st: VmV, g: FrameV, h: FrameV)
    requires
        st.frames.len() > 0,
    ensures
        with_frame(with_frame(st, g), h) == with_frame(st, h),
        rest_of(with_frame(st, g)) == rest_of(st),
        rest_of(with_frame(st, h)) == rest_of(st),
{
    assert(rest_of(with_frame(st, g)).frames =~= rest_of(st).frames);
    assert(rest_of(with_frame(st, h)).frames =~= rest_of(st).frames);
    assert(with_frame(with_frame(st, g), h).frames =~= with_frame(st, h).frames);
}

/// What a binary operator is lowered to after its left operand.
pub open spec fn after_lhs(t: Tables, a: Low, op: BinOp, l: ValueId, rhs: ExprV) -> (Low, ValueId) {
    if op == BinOp::And || op == BinOp::Or {
        let (b, result, _, merge) = at_rhs(a, op, l);
        let (c, w) = l_expr(t, b, rhs)->Ok_0;
        after_rhs(a, c, result, merge, l, w)
    } else {
        let (b, w) = l_expr(t, a, rhs)->Ok_0;
        b.emit(OpV::Binary(op, l, w), crate::ir::lower::binary_type(op))
    }
}

proof fn lemma_binary_parts(t: Tables, low: Low, known: Set<SymbolId>, e: ExprV, f: FunctionV)
    requires
        simple(t.res, known, e),
        e.kind is Binary,
        uncelled(low),
        is_open(low),
        fits(low, cost(e)),
        covers(f, (l_expr(t, low, e)->Ok_0).0),
    ensures
        match e.kind {
            ExprKindV::Binary { op, lhs, rhs } => {
                let (a, l) = l_expr(t, low, *lhs)->Ok_0;
                &&& l_expr(t, low, e) == Ok::<(Low, ValueId), crate::ir::LowerErrorV>(
                    after_lhs(t, a, op, l, *rhs),
                )
                &&& fits(a, cost(*rhs) + 2)
                &&& is_open(a)
                &&& uncelled(a)
                &&& covers(f, a)
            },
            _ => true,
        },
{
    unfold_l_expr(t, low, e);
    match e.kind {
        ExprKindV::Binary { op, lhs, rhs } => {
            lemma_simple_lowered(t, low, known, *lhs);
            let (a, l) = l_expr(t, low, *lhs)->Ok_0;
            if op == BinOp::And || op == BinOp::Or {
                unfold_l_short_circuit(t, low, e);
                lemma_at_rhs(a, op, l);
                let (b, result, rhs_b, merge) = at_rhs(a, op, l);
                lemma_simple_lowered(t, b, known, *rhs);
                let (c, w) = l_expr(t, b, *rhs)->Ok_0;
                lemma_after_rhs(a, b, c, result, merge, l, w);
                lemma_covers(f, a, after_rhs(a, c, result, merge, l, w).0);
            } else {
                lemma_simple_lowered(t, a, known, *rhs);
                let (b, w) = l_expr(t, a, *rhs)->Ok_0;
                let ty = crate::ir::lower::binary_type(op);
                lemma_emit_open(b, OpV::Binary(op, l, w), ty);
                lemma_built(a, b, b.emit(OpV::Binary(op, l, w), ty).0);
                lemma_covers(f, a, b.emit(OpV::Binary(op, l, w), ty).0);
            }
        },
        _ => {},
    }
}

proof fn lemma_name_executed(
    p: ProgramV,
    o: Answers,
    t: Tables,
    known: Set<SymbolId>,
    env: Env,
    e: ExprV,
    low: Low,
    st: VmV,
    f: FunctionV,
) -> (r: (nat, FrameV))
    requires
        simple(t.res, known, e),
        e.kind is Name,
        known.subset_of(env.dom()),
        uncelled(low),
        is_open(low),
        fits(low, cost(e)),
        stands_at(p, st, f, low),
        covers(f, (l_expr(t, low, e)->Ok_0).0),
        keeps(st.frames.last(), env),
    ensures
        got(
            st,
            value_of(t.res, env, o, e),
            march(p, o, (st, ProgressV::Running), r.0),
            r.1,
            low,
            (l_expr(t, low, e)->Ok_0).0,
            (l_expr(t, low, e)->Ok_0).1,
            env,
        ),
{
    unfold_l_expr(t, low, e);
    lemma_name_open(t, low, known, e);
    let (later, v) = l_expr(t, low, e)->Ok_0;
    let id = t.res.binding_of(e.span)->0->Local_0;
    lemma_uncelled(low, env);
    assert(env.dom().contains(id));
    lemma_read(t, low, env, e, id);
    let b = later.blocks[later.current];
    assert(begins(st, f, later));
    let x = vm::EffectV::Value(env[id]);
    reveal(vm::eval_op_of);
    lemma_operation(p, o, st, f, low, later, v, OpV::LocalGet(id), x)
}

/// The code of a strict operator after its left operand.
proof fn lemma_strict_executed(
    p: ProgramV,
    o: Answers,
    t: Tables,
    known: Set<SymbolId>,
    env: Env,
    op: BinOp,
    rhs: ExprV,
    a: Low,
    l: ValueId,
    y: ValueV,
    st: VmV,
    f: FunctionV,
) -> (r: (nat, FrameV))
    requires
        op != BinOp::And,
        op != BinOp::Or,
        simple(t.res, known, rhs),
        known.subset_of(env.dom()),
        scalars(env),
        uncelled(a),
        is_open(a),
        fits(a, cost(rhs) + 2),
        apart(a, env),
        stands_at(p, st, f, a),
        covers(f, after_lhs(t, a, op, l, rhs).0),
        keeps(st.frames.last(), env),
        l < a.values.len(),
        has(st.frames.last(), l, y),
        hosted(o, st),
        calls_march(p, o),
        !runs_out(t.res, env, o, rhs),
    ensures
        got(
            st,
            match value_of(t.res, env, o, rhs) {
                Some(z) => super::binary_meaning(o, op, y, z),
                None => None,
            },
            march(p, o, (st, ProgressV::Running), r.0),
            r.1,
            a,
            after_lhs(t, a, op, l, rhs).0,
            after_lhs(t, a, op, l, rhs).1,
            env,
        ),
    decreases rhs, 1int,
{
    lemma_simple_lowered(t, a, known, rhs);
    let (b, w) = l_expr(t, a, rhs)->Ok_0;
    let ty = crate::ir::lower::binary_type(op);
    lemma_emit_open(b, OpV::Binary(op, l, w), ty);
    lemma_covers(f, b, after_lhs(t, a, op, l, rhs).0);
    let g0 = st.frames.last();
    let (k, g) = lemma_simple_executed(p, o, t, known, env, rhs, a, st, f);
    match value_of(t.res, env, o, rhs) {
        Some(z) => {
            let mid = with_frame(st, g);
            assert(mid.frames.last() == g);
            assert(has(g, l, y)) by {
                assert(g.values.dom().contains(l));
                assert(g.values[l] == g0.values[l]);
            }
            let x = vm::binary_effect(op, y, z);
            assert(vm::eval_op_of(p, mid, g, OpV::Binary(op, l, w)) == vm::pure(mid, g, x)) by {
                reveal(vm::eval_op_of);
            }
            let (j, h) = lemma_op(p, o, mid, f, b, OpV::Binary(op, l, w), ty, x, env);
            lemma_march(p, o, (st, ProgressV::Running), k, j);
            lemma_frames(st, g, h);
            if super::binary_meaning(o, op, y, z) is Some {
                lemma_same_values(g0, g, h, a, b);
            }
            (k + j, h)
        },
        None => (k, g),
    }
}

/// The code of a short-circuit operator after its left operand.
proof fn lemma_circuit_executed(
    p: ProgramV,
    o: Answers,
    t: Tables,
    known: Set<SymbolId>,
    env: Env,
    op: BinOp,
    rhs: ExprV,
    a: Low,
    l: ValueId,
    y: ValueV,
    st: VmV,
    f: FunctionV,
) -> (r: (nat, FrameV))
    requires
        op == BinOp::And || op == BinOp::Or,
        simple(t.res, known, rhs),
        known.subset_of(env.dom()),
        scalars(env),
        uncelled(a),
        is_open(a),
        fits(a, cost(rhs) + 2),
        apart(a, env),
        stands_at(p, st, f, a),
        covers(f, after_lhs(t, a, op, l, rhs).0),
        keeps(st.frames.last(), env),
        l < a.values.len(),
        has(st.frames.last(), l, y),
        hosted(o, st),
        calls_march(p, o),
        op == BinOp::And && !truthy(y) || op == BinOp::Or && truthy(y) || !runs_out(t.res, env, o, rhs),
    ensures
        got(
            st,
            if truthy(y) == (op == BinOp::And) {
                value_of(t.res, env, o, rhs)
            } else {
                Some(y)
            },
            march(p, o, (st, ProgressV::Running), r.0),
            r.1,
            a,
            after_lhs(t, a, op, l, rhs).0,
            after_lhs(t, a, op, l, rhs).1,
            env,
        ),
    decreases rhs, 1int,
{
    lemma_at_rhs(a, op, l);
    let (b, result, rhs_b, merge) = at_rhs(a, op, l);
    lemma_simple_lowered(t, b, known, rhs);
    let (c, w) = l_expr(t, b, rhs)->Ok_0;
    lemma_after_rhs(a, b, c, result, merge, l, w);
    let (d, v) = after_rhs(a, c, result, merge, l, w);
    let start = (st, ProgressV::Running);
    let g0 = st.frames.last();
    let cond = a.values.len() as u32;
    // The left operand goes to the temporary, and its truth decides.
    let blk = d.blocks[a.current];
    assert(f.blocks[a.current] == blk);
    let a1 = a.stmt(OpV::LocalSet(result, l));
    reveal(Low::stmt);
    assert(instrs(a1) =~= instrs(a).push(InstrV { dest: None, op: OpV::LocalSet(result, l) }));
    assert(begins(st, f, a1));
    lemma_machine_declares(p, o, st, f, a, a1, result, l, y, env);
    let g1 = FrameV {
        pc: instrs(a1).len(),
        locals: g0.locals.insert(result, y),
        ..g0
    };
    let st1 = with_frame(st, g1);
    assert(st1.frames.last() == g1);
    assert(!env.dom().contains(result));
    assert(keeps(g1, env));
    let a2 = a1.emit(OpV::Truthy(l), TypeV::Bool).0;
    lemma_emit(a1, OpV::Truthy(l), TypeV::Bool);
    assert(instrs(a2) =~= blk.instrs);
    assert(begins(st1, f, a2));
    let x = vm::EffectV::Value(ValueV::Bool(truthy(y)));
    assert(vm::eval_op_of(p, st1, g1, OpV::Truthy(l)) == vm::pure(st1, g1, x)) by {
        reveal(vm::eval_op_of);
    }
    let (n2, g2) = lemma_operation(p, o, st1, f, a1, a2, cond, OpV::Truthy(l), x);
    lemma_march(p, o, start, 1, n2);
    lemma_frames(st, g1, g2);
    let st2 = with_frame(st, g2);
    assert(st2.frames.last() == g2);
    let taken = truthy(y) == (op == BinOp::And);
    let to = if taken { rhs_b } else { merge };
    lemma_jump(p, o, st2, f, to);
    lemma_march(p, o, start, 1 + n2, 1);
    let g3 = jumped_to(g2, to);
    lemma_frames(st, g2, g3);
    let st3 = with_frame(st, g3);
    assert(st3.frames.last() == g3);
    assert(keeps(g3, env));
    assert(same_values(g0, g3, a));
    let n3 = 1 + n2 + 1;
    if taken {
        assert(stands_at(p, st3, f, b));
        assert(covers(f, c)) by {
            lemma_covers_rhs(f, c, d, merge);
        }
        let (k, g) = lemma_simple_executed(p, o, t, known, env, rhs, b, st3, f);
        lemma_march(p, o, start, n3, k);
        match value_of(t.res, env, o, rhs) {
            Some(z) => {
                lemma_frames(st, g3, g);
                let st4 = with_frame(st, g);
                assert(st4.frames.last() == g);
                let c1 = c.stmt(OpV::LocalSet(result, w));
                assert(instrs(c1) =~= instrs(c).push(
                    InstrV { dest: None, op: OpV::LocalSet(result, w) },
                ));
                let cblk = d.blocks[c.current];
                assert(f.blocks[c.current] == cblk);
                assert(begins(st4, f, c1));
                lemma_machine_declares(p, o, st4, f, c, c1, result, w, z, env);
                let g5 = FrameV {
                    pc: instrs(c1).len(),
                    locals: g.locals.insert(result, z),
                    ..g
                };
                lemma_frames(st, g, g5);
                let st5 = with_frame(st, g5);
                assert(st5.frames.last() == g5);
                lemma_march(p, o, start, n3 + k, 1);
                lemma_jump(p, o, st5, f, merge);
                lemma_march(p, o, start, n3 + k + 1, 1);
                let g6 = jumped_to(g5, merge);
                lemma_frames(st, g5, g6);
                lemma_same_values(g0, g3, g, a, b);
                assert(same_values(g0, g6, a));
                assert(keeps(g6, env));
                let (i, h) = lemma_merged(p, o, env, st, g6, f, a, c, d, v, result, merge, z);
                lemma_march(p, o, start, n3 + k + 2, i);
                (n3 + k + 2 + i, h)
            },
            None => (n3 + k, g),
        }
    } else {
        let (i, h) = lemma_merged(p, o, env, st, g3, f, a, c, d, v, result, merge, y);
        lemma_march(p, o, start, n3, i);
        (n3 + i, h)
    }
}

proof fn lemma_covers_rhs(f: FunctionV, c: Low, d: Low, merge: BlockId)
    requires
        covers(f, d),
        is_open(c),
        d.blocks.len() == c.blocks.len(),
        c.current != merge,
        c.blocks[merge as int].instrs.len() == 0,
        c.blocks[merge as int].term == Terminator::Unreachable,
        begun_block(c, d),
        forall|b: int| 0 <= b < c.blocks.len() && b != c.current && b != merge ==> d.blocks[b]
            == #[trigger] c.blocks[b],
    ensures
        covers(f, c),
{
    assert forall|b: int| #![trigger c.blocks[b]] 0 <= b < c.blocks.len() implies continues(
        c.blocks[b],
        f.blocks[b],
    ) && (c.blocks[b].term != Terminator::Unreachable ==> f.blocks[b] == c.blocks[b]) by {
        let y = d.blocks[b];
        assert(continues(y, f.blocks[b]));
        if b == c.current {
            let (x, z) = (c.blocks[b], f.blocks[b]);
            assert forall|i: int| 0 <= i < x.instrs.len() implies z.instrs[i]
                == #[trigger] x.instrs[i] by {
                assert(y.instrs[i] == x.instrs[i]);
            }
        }
    }
}

/// Whether the current block of `c` is continued in `d`.
spec fn begun_block(c: Low, d: Low) -> bool {
    continues(c.blocks[c.current], d.blocks[c.current])
}

/// The block in which both ways of a short-circuit operator meet reads the temporary.
proof fn lemma_merged(
    p: ProgramV,
    o: Answers,
    env: Env,
    st: VmV,
    g: FrameV,
    f: FunctionV,
    a: Low,
    c: Low,
    d: Low,
    v: ValueId,
    result: SymbolId,
    merge: BlockId,
    z: ValueV,
) -> (r: (nat, FrameV))
    requires
        st.wait is None,
        st.frames.len() > 0,
        vm::code_of(p, g.code) == Some(f),
        g == (FrameV { block: merge, pc: 0, locals: g.locals, values: g.values, ..st.frames.last() }),
        same_values(st.frames.last(), g, a),
        keeps(g, env),
        g.locals.dom().contains(result),
        g.locals[result] == z,
        covers(f, d),
        merge < d.blocks.len(),
        d.current == merge,
        instrs(d) == Seq::<InstrV>::empty().push(
            InstrV { dest: Some(v), op: OpV::LocalGet(result) },
        ),
        v == c.values.len(),
        a.values.len() <= c.values.len(),
    ensures
        got(
            st,
            Some(z),
            march(p, o, (with_frame(st, g), ProgressV::Running), r.0),
            r.1,
            a,
            d,
            v,
            env,
        ),
{
    let st1 = with_frame(st, g);
    assert(st1.frames.last() == g);
    let blk = d.blocks[merge as int];
    let i = InstrV { dest: Some(v), op: OpV::LocalGet(result) };
    assert(instrs(d)[0] == i);
    assert(f.blocks[merge as int].instrs[0] == i);
    reveal_with_fuel(march, 2);
    reveal(vm::eval_op_of);
    reveal(vm::effected);
    reveal(vm::delivered);
    let n = st1.frames.len() - 1;
    assert(vm::instr_at(p, g) == Some(i));
    assert(st1.frames.update(n, FrameV { locals: g.locals, ..g }) =~= st1.frames);
    let h = vm::advanced(p, g, z);
    lemma_frames(st, g, h);
    assert(vm::delivered(p, st1, z) == with_frame(st1, h));
    assert(same_values(st.frames.last(), h, a));
    (1, h)
}

} // verus!
