//! Both machines agree on calls of straight functions: a call with scalars comes to the same
//! value in both, or fails in both.

use vstd::prelude::*;

use super::{
    extended, has, has_failed, has_room, holds, instrs, is_scalar, keeps, lemma_executed,
    lemma_interpreted, lemma_lowered, lemma_march, lemma_scalar, lemma_walk, lemma_walk_one, march,
    meaning, plain, scalars, size, stands, uncaptured, walk, with_frame, with_value, Answers, Env,
};
use crate::ast::{BlockV, ExprV, FuncBodyV, IdentV, ModuleV, StatKindV, StatV};
use crate::capture::{
    boxed_of, lits_expr, lits_exprs, lits_stats, unfold_lits_block, unfold_lits_expr,
    unfold_lits_exprs, unfold_lits_stat, unfold_lits_stats,
};
use crate::interp;
use crate::interp::{
    bind_params, param_ids_of, unfold_bind_params, unfold_declare_all, CtrlV, FlowV, KontV, St,
};
use crate::ir::lower::{
    l_block, l_expr, l_function, l_params, l_stat, l_stats, l_whole, unfold_l_args, unfold_l_block,
    unfold_l_locals, unfold_l_params, unfold_l_stat, unfold_l_stats, upvalue_at, Low, Tables,
};
use crate::ir::vm;
use crate::ir::vm::{CodeV, FrameV, ProgressV, VmV};
use crate::ir::{ExportTargetV, FunctionV, InstrV, OpV, ProgramV, Terminator, ValueId};
use crate::names::get_of;
use crate::resolve::{ResolutionV, SymbolId};
use crate::runtime::eval::arg;
use crate::value::{cell_at, HeapV, ObjV, ValueV};

verus! {

/// What a statement `local x = e` declares and with what.
pub open spec fn declaration(r: ResolutionV, s: StatV) -> Option<(IdentV, SymbolId, ExprV)> {
    match s.kind {
        StatKindV::Local { names, exprs } => if names.len() == 1 && exprs.len() == 1 {
            match r.def_of(names[0].span) {
                Some(id) => Some((names[0], id, exprs[0])),
                None => None,
            }
        } else {
            None
        },
        _ => None,
    }
}

/// Whether a block, from statement `i` on, declares variables one by one with plain
/// expressions and returns at most one plain expression.
pub open spec fn straight(r: ResolutionV, known: Set<SymbolId>, b: BlockV, i: int) -> bool
    decreases b.stats.len() - i,
{
    if 0 <= i < b.stats.len() {
        match declaration(r, b.stats[i]) {
            Some((_, id, e)) => plain(r, known, e) && !known.contains(id) && straight(
                r,
                known.insert(id),
                b,
                i + 1,
            ),
            None => false,
        }
    } else {
        i >= 0 && match b.ret {
            None => true,
            Some(x) => x.exprs.len() == 0 || (x.exprs.len() == 1 && plain(r, known, x.exprs[0])),
        }
    }
}

/// The number of operations of a straight block from statement `i` on.
pub open spec fn block_size(r: ResolutionV, b: BlockV, i: int) -> nat
    decreases b.stats.len() - i,
{
    if 0 <= i < b.stats.len() {
        match declaration(r, b.stats[i]) {
            Some((_, _, e)) => size(e) + block_size(r, b, i + 1),
            None => 0,
        }
    } else {
        match b.ret {
            Some(x) => if x.exprs.len() > 0 {
                size(x.exprs[0])
            } else {
                0
            },
            None => 0,
        }
    }
}

/// What a straight block returns, from statement `i` on; none if it fails.
pub open spec fn block_meaning(r: ResolutionV, env: Env, o: Answers, b: BlockV, i: int) -> Option<
    ValueV,
>
    decreases b.stats.len() - i,
{
    if 0 <= i < b.stats.len() {
        match declaration(r, b.stats[i]) {
            Some((_, id, e)) => match meaning(r, env, o, e) {
                Some(v) => block_meaning(r, env.insert(id, v), o, b, i + 1),
                None => None,
            },
            None => None,
        }
    } else {
        match b.ret {
            Some(x) => if x.exprs.len() > 0 {
                meaning(r, env, o, x.exprs[0])
            } else {
                Some(ValueV::Nil)
            },
            None => Some(ValueV::Nil),
        }
    }
}

/// Whether a call ended as `x` says: with the value, or in failure.
pub open spec fn finished(x: Option<ValueV>, p: ProgressV) -> bool {
    match x {
        Some(v) => p == ProgressV::Done(Ok(v)),
        None => has_failed(p),
    }
}

// ---- the interpreter ----------------------------------------------------------

/// The end of a body is the end of the call.
pub(crate) proof fn lemma_returns(
    m: ModuleV,
    r: ResolutionV,
    o: Answers,
    base: St,
    f: FlowV,
    x: ValueV,
)
    requires
        base.konts.len() == 1,
        base.konts[0] is Call,
        f == FlowV::Return(x) || (f == FlowV::Normal && x == ValueV::Nil),
    ensures
        walk(m, r, o, base.flow(f), 2).1 == ProgressV::Done(Ok(x)),
{
    reveal(St::run);
    reveal(St::done);
    reveal(interp::flow_of);
    reveal_with_fuel(walk, 3);
    let s = base.flow(f).0;
    assert(s.konts.last() == base.konts[0]);
    let saved = base.konts[0]->Call_0;
    let out = St { konts: s.konts.drop_last(), ..St { ctrl: None, ..s } };
    let back = St { act: saved, ..out };
    assert(interp::step_of(m, r, s) == back.have(x));
    let h = back.have(x).0;
    assert(h.konts.len() == 0);
    assert(interp::step_of(m, r, h) == (St { ctrl: None, ..h }).done(x));
}

/// A new variable, and nothing else, is there after its declaration.
proof fn lemma_bound(st: St, env: Env, id: SymbolId, v: ValueV)
    requires
        holds(st, env),
        st.act is Some,
        st.act->0.locals.dom() == env.dom(),
        !env.dom().contains(id),
        st.heap.len() < usize::MAX,
    ensures
        holds(st.bound(id, v), env.insert(id, v)),
        st.bound(id, v).act is Some,
        st.bound(id, v).act->0.locals.dom() == env.insert(id, v).dom(),
        st.bound(id, v) == (St {
            heap: st.bound(id, v).heap,
            act: st.bound(id, v).act,
            ..st
        }),
        st.bound(id, v).heap.len() == st.heap.len() + 1,
{
    reveal(St::bound);
    reveal(St::slot);
    let s = st.bound(id, v);
    let e = env.insert(id, v);
    assert(s.act->0.locals.dom() =~= e.dom());
    assert forall|k: SymbolId| #[trigger] e.dom().contains(k) implies s.lookup(k) == Some(e[k]) by {
        if k != id {
            assert(env.dom().contains(k));
            assert(st.lookup(k) == Some(env[k]));
        }
    }
}

proof fn lemma_block_interpreted(
    m: ModuleV,
    r: ResolutionV,
    o: Answers,
    env: Env,
    b: BlockV,
    i: int,
    base: St,
) -> (n: nat)
    requires
        0 <= i <= b.stats.len(),
        straight(r, env.dom(), b, i),
        scalars(env),
        holds(base, env),
        base.wait is None,
        base.ctrl is None,
        base.act is Some,
        base.act->0.locals.dom() == env.dom(),
        base.konts.len() == 1,
        base.konts[0] is Call,
        base.heap.len() + (b.stats.len() - i) < usize::MAX,
    ensures
        finished(
            block_meaning(r, env, o, b, i),
            walk(m, r, o, interp::block_of(base, b, i), n).1,
        ),
    decreases b.stats.len() - i,
{
    reveal(interp::block_of);
    reveal(St::run);
    reveal(St::push);
    let s = interp::block_of(base, b, i);
    if i < b.stats.len() {
        let (name, id, e) = declaration(r, b.stats[i])->0;
        lemma_scalar(r, env, o, e);
        let n = lemma_declared(m, r, o, env, b, i, base, e);
        match meaning(r, env, o, e) {
            Some(v) => {
                lemma_bound(base, env, id, v);
                let next = base.bound(id, v);
                let e1 = env.insert(id, v);
                assert(scalars(e1)) by {
                    assert forall|k: SymbolId| #[trigger] e1.dom().contains(k) implies is_scalar(
                        e1[k],
                    ) by {
                        if k != id {
                            assert(env.dom().contains(k));
                        }
                    }
                }
                assert(e1.dom() =~= env.dom().insert(id));
                let k = lemma_block_interpreted(m, r, o, e1, b, i + 1, next);
                lemma_walk(m, r, o, s, n, k);
                n + k
            },
            None => n,
        }
    } else {
        match b.ret {
            None => {
                lemma_returns(m, r, o, base, FlowV::Normal, ValueV::Nil);
                2
            },
            Some(x) => {
                if x.exprs.len() > 0 {
                    lemma_returned(m, r, o, env, base, x.exprs[0])
                } else {
                    lemma_returns(m, r, o, base, FlowV::Return(ValueV::Nil), ValueV::Nil);
                    2
                }
            },
        }
    }
}

/// `return e` in the interpreter.
proof fn lemma_returned(
    m: ModuleV,
    r: ResolutionV,
    o: Answers,
    env: Env,
    base: St,
    e: ExprV,
) -> (n: nat)
    requires
        plain(r, env.dom(), e),
        scalars(env),
        holds(base, env),
        base.wait is None,
        base.ctrl is None,
        base.konts.len() == 1,
        base.konts[0] is Call,
    ensures
        finished(meaning(r, env, o, e), walk(m, r, o, base.eval(e, KontV::Return), n).1),
{
    reveal(St::run);
    reveal(St::push);
    let s = base.eval(e, KontV::Return);
    let st = s.0;
    super::lemma_holds(base, st, env);
    let n = lemma_interpreted(m, r, o, env, e, st);
    match meaning(r, env, o, e) {
        Some(v) => {
            let sv = with_value(st, v);
            reveal(interp::have_in_stat);
            lemma_walk_one(m, r, o, sv);
            assert(sv.konts.drop_last() =~= base.konts);
            assert(St { konts: sv.konts.drop_last(), ..St { ctrl: None, ..sv } } == base);
            assert(interp::step_of(m, r, sv) == base.flow(FlowV::Return(v)));
            lemma_walk(m, r, o, s, n, 1);
            lemma_returns(m, r, o, base, FlowV::Return(v), v);
            lemma_walk(m, r, o, s, n + 1, 2);
            n + 1 + 2
        },
        None => n,
    }
}

/// `local x = e` in the interpreter: the walk goes on with the next statement.
proof fn lemma_declared(
    m: ModuleV,
    r: ResolutionV,
    o: Answers,
    env: Env,
    b: BlockV,
    i: int,
    base: St,
    e: ExprV,
) -> (n: nat)
    requires
        0 <= i < b.stats.len(),
        declaration(r, b.stats[i]) is Some,
        (declaration(r, b.stats[i])->0).2 == e,
        plain(r, env.dom(), e),
        !env.dom().contains((declaration(r, b.stats[i])->0).1),
        scalars(env),
        holds(base, env),
        base.wait is None,
        base.ctrl is None,
        base.act is Some,
        base.act->0.locals.dom() == env.dom(),
        base.konts.len() == 1,
    ensures
        match meaning(r, env, o, e) {
            Some(v) => walk(m, r, o, interp::block_of(base, b, i), n) == interp::block_of(
                base.bound((declaration(r, b.stats[i])->0).1, v),
                b,
                i + 1,
            ),
            None => has_failed(walk(m, r, o, interp::block_of(base, b, i), n).1),
        },
{
    let (name, id, _) = declaration(r, b.stats[i])->0;
    let names = b.stats[i].kind->Local_names;
    let exprs = b.stats[i].kind->Local_exprs;
    let s = interp::block_of(base, b, i);
    let wait = KontV::Block(b, i + 1);
    let a0 = St { konts: base.konts.push(wait), ..base };
    let k = KontV::Local(names, exprs, Seq::empty());
    let st = St { konts: a0.konts.push(k), ctrl: Some(CtrlV::Eval(e)), ..base };
    assert(s == (St { ctrl: Some(CtrlV::Exec(b.stats[i])), ..a0 }, ProgressV::Running)) by {
        reveal(interp::block_of);
        reveal(St::run);
        reveal(St::push);
    }
    assert(walk(m, r, o, s, 1) == (st, ProgressV::Running)) by {
        lemma_walk_one(m, r, o, s.0);
        assert(St { ctrl: None, ..s.0 } == a0);
        reveal(interp::exec_of);
        reveal(interp::local_of);
        reveal(St::run);
        reveal(St::push);
    }
    super::lemma_holds(base, st, env);
    let n = lemma_interpreted(m, r, o, env, e, st);
    lemma_walk(m, r, o, s, 1, n);
    match meaning(r, env, o, e) {
        Some(v) => {
            let sv = with_value(st, v);
            let a1 = a0.bound(id, v);
            let done = Seq::<ValueV>::empty().push(v);
            assert(walk(m, r, o, (sv, ProgressV::Running), 1) == a1.flow(FlowV::Normal)) by {
                lemma_walk_one(m, r, o, sv);
                reveal(interp::have_in_stat);
                reveal(interp::local_of);
                reveal(St::declared);
                assert(sv.konts.drop_last() =~= a0.konts);
                assert(St { konts: sv.konts.drop_last(), ..St { ctrl: None, ..sv } } == a0);
                unfold_declare_all(r, a0, names, done, 0);
                unfold_declare_all(r, a1, names, done, 1);
                assert(arg(done, 0) == v);
                assert(names[0] == name);
                assert(a0.declared(r, name, v) == Ok::<St, crate::value::RunErrorV>(a1));
            }
            lemma_walk(m, r, o, s, 1 + n, 1);
            let flowing = a1.flow(FlowV::Normal);
            assert(walk(m, r, o, flowing, 1) == interp::block_of(base.bound(id, v), b, i + 1)) by {
                reveal(St::run);
                reveal(St::bound);
                reveal(interp::flow_of);
                lemma_walk_one(m, r, o, flowing.0);
                assert(flowing.0.konts.last() == wait);
                assert(flowing.0.konts.drop_last() =~= base.konts);
                assert(St { konts: flowing.0.konts.drop_last(), ..St { ctrl: None, ..flowing.0 } }
                    == base.bound(id, v));
            }
            lemma_walk(m, r, o, s, 1 + n + 1, 1);
            1 + n + 1 + 1
        },
        None => 1 + n,
    }
}

/// The parameters have slots that hold the arguments.
proof fn lemma_bind_params(
    h: HeapV,
    params: Seq<SymbolId>,
    args: Seq<ValueV>,
    i: int,
    locals: Map<SymbolId, usize>,
    env: Env,
)
    requires
        0 <= i <= params.len(),
        env == vm::bound(params, args, i),
        locals.dom() == env.dom(),
        forall|id: SymbolId| #[trigger]
            env.dom().contains(id) ==> cell_at(h, ValueV::Cell(locals[id])) == Some(env[id]),
        h.len() + (params.len() - i) < usize::MAX,
    ensures
        ({
            let (h1, l1) = bind_params(h, params, args, i, locals);
            let e1 = vm::bound(params, args, params.len() as int);
            &&& l1.dom() == e1.dom()
            &&& h1.len() == h.len() + (params.len() - i)
            &&& forall|id: SymbolId| #[trigger]
                e1.dom().contains(id) ==> cell_at(h1, ValueV::Cell(l1[id])) == Some(e1[id])
        }),
    decreases params.len() - i,
{
    unfold_bind_params(h, params, args, i, locals);
    if i < params.len() {
        let x = arg(args, i);
        let h1 = h.push(ObjV::Cell(x));
        let l1 = locals.insert(params[i], h.len() as usize);
        let e1 = env.insert(params[i], x);
        assert(e1 == vm::bound(params, args, i + 1));
        assert(l1.dom() =~= e1.dom());
        assert forall|id: SymbolId| #[trigger] e1.dom().contains(id) implies cell_at(
            h1,
            ValueV::Cell(l1[id]),
        ) == Some(e1[id]) by {
            if id != params[i] {
                assert(env.dom().contains(id));
            }
        }
        lemma_bind_params(h1, params, args, i + 1, l1, e1);
    }
}

// ---- lowered code -------------------------------------------------------------

/// Whether no variable lives in a cell.
pub open spec fn uncelled(low: Low) -> bool {
    low.boxed == Set::<SymbolId>::empty() && low.upvalues.len() == 0
}

pub(crate) proof fn lemma_uncelled(low: Low, env: Env)
    requires
        uncelled(low),
    ensures
        uncaptured(low, env),
{
    assert forall|id: SymbolId| #[trigger] env.dom().contains(id) implies !low.is_captured(id) by {
        assert(upvalue_at(low.upvalues, id, 0) is None);
    }
}

/// What is left of lowering a block, from statement `i` on.
pub open spec fn l_rest(t: Tables, low: Low, b: BlockV, i: int) -> Result<
    (Low, bool),
    crate::ir::LowerErrorV,
> {
    match l_stats(t, low, b.stats, i) {
        Err(x) => Err(x),
        Ok((st1, true)) => Ok((st1, true)),
        Ok((st1, false)) => match b.ret {
            None => Ok((st1, false)),
            Some(r) => if r.exprs.len() > 0 {
                match l_expr(t, st1, r.exprs[0]) {
                    Err(x) => Err(x),
                    Ok((st2, v)) => Ok((st2.terminate(Terminator::Return(Some(v))), true)),
                }
            } else {
                Ok((st1.terminate(Terminator::Return(None)), true))
            },
        },
    }
}

/// A body whose end returns.
pub open spec fn closed_off(low: Low, terminated: bool) -> Low {
    if terminated {
        low
    } else {
        low.terminate(Terminator::Return(None))
    }
}

/// Whether `later` has only added to the current block of `low`.
pub open spec fn grown(low: Low, later: Low) -> bool {
    &&& later.current == low.current
    &&& 0 <= low.current < low.blocks.len()
    &&& later.blocks.len() == low.blocks.len()
    &&& later.boxed == low.boxed
    &&& later.upvalues == low.upvalues
    &&& instrs(low).len() <= instrs(later).len()
    &&& forall|i: int| 0 <= i < instrs(low).len() ==> instrs(later)[i] == #[trigger] instrs(low)[i]
}

pub(crate) proof fn lemma_grown(a: Low, b: Low, c: Low)
    requires
        grown(a, b),
        grown(b, c),
    ensures
        grown(a, c),
{
    assert forall|i: int| 0 <= i < instrs(a).len() implies instrs(c)[i] == #[trigger] instrs(a)[i] by {
        assert(instrs(b)[i] == instrs(a)[i]);
    }
}

pub(crate) proof fn lemma_terminate(low: Low, term: Terminator)
    requires
        0 <= low.current < low.blocks.len(),
    ensures
        grown(low, low.terminate(term)),
        instrs(low.terminate(term)) == instrs(low),
        low.terminate(term).blocks[low.current].term == term,
        low.terminate(term).values == low.values,
{
    reveal(Low::set_term);
}

/// The code of `local x = e`: that of the expression, and a write to the variable.
pub open spec fn after_local(t: Tables, low: Low, id: SymbolId, e: ExprV) -> Low {
    let (a, v) = l_expr(t, low, e)->Ok_0;
    a.bind(t, id, v)
}

pub(crate) proof fn lemma_local_lowered(
    t: Tables,
    low: Low,
    b: BlockV,
    i: int,
    known: Set<SymbolId>,
)
    requires
        0 <= i < b.stats.len(),
        straight(t.res, known, b, i),
        uncelled(low),
        0 <= low.current < low.blocks.len(),
        low.values.len() + block_size(t.res, b, i) <= u32::MAX,
    ensures
        ({
            let (_, id, e) = declaration(t.res, b.stats[i])->0;
            let c = after_local(t, low, id, e);
            let (a, v) = l_expr(t, low, e)->Ok_0;
            &&& has_room(low, e)
            &&& l_expr(t, low, e) is Ok
            &&& extended(low, a)
            &&& l_stat(t, low, b.stats[i]) == Ok::<(Low, bool), crate::ir::LowerErrorV>((c, false))
            &&& l_rest(t, low, b, i) == l_rest(t, c, b, i + 1)
            &&& grown(low, c)
            &&& grown(a, c)
            &&& uncelled(c)
            &&& c.values.len() == low.values.len() + size(e)
            &&& instrs(c) == instrs(a).push(InstrV { dest: None, op: OpV::LocalSet(id, v) })
        }),
{
    let (_, id, e) = declaration(t.res, b.stats[i])->0;
    let names = b.stats[i].kind->Local_names;
    let exprs = b.stats[i].kind->Local_exprs;
    let env = Map::new(|k: SymbolId| known.contains(k), |k: SymbolId| ValueV::Nil);
    assert(env.dom() =~= known);
    lemma_uncelled(low, env);
    lemma_lowered(t, low, env, e);
    let (a, v) = l_expr(t, low, e)->Ok_0;
    unfold_l_stat(t, low, b.stats[i]);
    let vals = Seq::<ValueId>::empty().push(v);
    unfold_l_args(t, low, exprs, 0, Seq::empty());
    unfold_l_args(t, a, exprs, 1, vals);
    unfold_l_locals(t, a, names, vals, 0);
    unfold_l_locals(t, a.bind(t, id, v), names, vals, 1);
    unfold_l_stats(t, low, b.stats, i);
    reveal(Low::bind);
    reveal(Low::ensure_local);
    reveal(Low::stmt);
    let c = a.bind(t, id, v);
    assert(instrs(c) =~= instrs(a).push(InstrV { dest: None, op: OpV::LocalSet(id, v) }));
    assert(grown(low, a));
    lemma_grown(low, a, c);
}

pub(crate) proof fn lemma_rest_lowered(t: Tables, low: Low, b: BlockV, i: int, known: Set<SymbolId>)
    requires
        0 <= i <= b.stats.len(),
        straight(t.res, known, b, i),
        uncelled(low),
        0 <= low.current < low.blocks.len(),
        low.values.len() + block_size(t.res, b, i) <= u32::MAX,
    ensures
        l_rest(t, low, b, i) is Ok,
        ({
            let (x, terminated) = l_rest(t, low, b, i)->Ok_0;
            grown(low, closed_off(x, terminated))
        }),
    decreases b.stats.len() - i,
{
    if i < b.stats.len() {
        let (_, id, e) = declaration(t.res, b.stats[i])->0;
        lemma_local_lowered(t, low, b, i, known);
        let c = after_local(t, low, id, e);
        lemma_rest_lowered(t, c, b, i + 1, known.insert(id));
        let (x, terminated) = l_rest(t, c, b, i + 1)->Ok_0;
        lemma_grown(low, c, closed_off(x, terminated));
    } else {
        unfold_l_stats(t, low, b.stats, i);
        match b.ret {
            None => lemma_terminate(low, Terminator::Return(None)),
            Some(r) => {
                if r.exprs.len() > 0 {
                    let e = r.exprs[0];
                    let env = Map::new(|k: SymbolId| known.contains(k), |k: SymbolId| ValueV::Nil);
                    assert(env.dom() =~= known);
                    lemma_uncelled(low, env);
                    lemma_lowered(t, low, env, e);
                    let (a, v) = l_expr(t, low, e)->Ok_0;
                    lemma_terminate(a, Terminator::Return(Some(v)));
                    assert(grown(low, a));
                    lemma_grown(low, a, a.terminate(Terminator::Return(Some(v))));
                } else {
                    lemma_terminate(low, Terminator::Return(None));
                }
            },
        }
    }
}

// ---- the machine --------------------------------------------------------------

/// The machine runs a return.
/// The machine without its innermost frame.
pub open spec fn rest_of(st: VmV) -> VmV {
    VmV { frames: st.frames.drop_last(), ..st }
}

/// Whether the innermost function has returned a value: to its caller, or out of the machine.
pub open spec fn gives_back(p: ProgramV, st: VmV, v: ValueV, s: (VmV, ProgressV)) -> bool {
    if st.frames.len() == 1 {
        s.1 == ProgressV::Done(Ok(v))
    } else {
        s == (vm::delivered(p, rest_of(st), v), ProgressV::Running)
    }
}

pub(crate) proof fn lemma_machine_returns(
    p: ProgramV,
    o: Answers,
    st: VmV,
    func: FunctionV,
    term: Terminator,
    x: ValueV,
)
    requires
        st.wait is None,
        st.frames.len() == 1 || st.frames.len() > 0 && st.frames.last().code is Function,
        vm::code_of(p, st.frames.last().code) == Some(func),
        st.frames.last().block < func.blocks.len(),
        st.frames.last().pc == func.blocks[st.frames.last().block as int].instrs.len(),
        func.blocks[st.frames.last().block as int].term == term,
        match term {
            Terminator::Return(Some(v)) => has(st.frames.last(), v, x),
            Terminator::Return(None) => x == ValueV::Nil,
            _ => false,
        },
    ensures
        gives_back(p, st, x, march(p, o, (st, ProgressV::Running), 1)),
{
    reveal_with_fuel(march, 2);
    reveal(vm::terminated);
    reveal(vm::returned);
}

/// The write of a declared variable.
pub(crate) proof fn lemma_machine_declares(
    p: ProgramV,
    o: Answers,
    st: VmV,
    func: FunctionV,
    low: Low,
    later: Low,
    id: SymbolId,
    v: ValueId,
    x: ValueV,
    env: Env,
)
    requires
        stands(p, st, func, low),
        super::begins(st, func, later),
        instrs(later) == instrs(low).push(InstrV { dest: None, op: OpV::LocalSet(id, v) }),
        has(st.frames.last(), v, x),
        keeps(st.frames.last(), env),
    ensures
        ({
            let f = st.frames.last();
            let g = FrameV { pc: instrs(later).len(), locals: f.locals.insert(id, x), ..f };
            &&& march(p, o, (st, ProgressV::Running), 1) == (
                with_frame(st, g),
                ProgressV::Running,
            )
            &&& keeps(g, env.insert(id, x))
        }),
{
    let n = st.frames.len() - 1;
    let f = st.frames.last();
    let i = InstrV { dest: None, op: OpV::LocalSet(id, v) };
    let b = func.blocks[f.block as int];
    assert(instrs(later)[instrs(low).len() as int] == i);
    assert(b.instrs[f.pc as int] == i);
    reveal(vm::eval_op_of);
    reveal(vm::effected);
    reveal(vm::delivered);
    reveal_with_fuel(march, 2);
    let g = FrameV { pc: instrs(later).len(), locals: f.locals.insert(id, x), ..f };
    let mid = FrameV { locals: f.locals.insert(id, x), ..f };
    let st1 = with_frame(st, mid);
    assert(vm::instr_at(p, mid) == Some(i));
    assert(vm::advanced(p, mid, ValueV::Nil) == g);
    assert(st1.frames.update(n, g) =~= st.frames.update(n, g));
    assert(st1.frames[n] == mid);
    assert(vm::delivered(p, st1, ValueV::Nil) == with_frame(st, g));
    let e1 = env.insert(id, x);
    assert forall|k: SymbolId| #[trigger] e1.dom().contains(k) implies g.locals.dom().contains(k)
        && g.locals[k] == e1[k] by {
        if k != id {
            assert(env.dom().contains(k));
        }
    }
}

proof fn lemma_rest_executed(
    p: ProgramV,
    o: Answers,
    t: Tables,
    env: Env,
    b: BlockV,
    i: int,
    low: Low,
    st: VmV,
    func: FunctionV,
) -> (n: nat)
    requires
        0 <= i <= b.stats.len(),
        straight(t.res, env.dom(), b, i),
        scalars(env),
        uncelled(low),
        0 <= low.current < low.blocks.len(),
        low.values.len() + block_size(t.res, b, i) <= u32::MAX,
        stands(p, st, func, low),
        st.frames.len() == 1,
        st.frames.last().block == low.current,
        ({
            let (x, terminated) = l_rest(t, low, b, i)->Ok_0;
            func.blocks == closed_off(x, terminated).blocks
        }),
        keeps(st.frames.last(), env),
    ensures
        finished(
            block_meaning(t.res, env, o, b, i),
            march(p, o, (st, ProgressV::Running), n).1,
        ),
    decreases b.stats.len() - i,
{
    lemma_rest_lowered(t, low, b, i, env.dom());
    let s = (st, ProgressV::Running);
    if i < b.stats.len() {
        let (_, id, e) = declaration(t.res, b.stats[i])->0;
        lemma_local_lowered(t, low, b, i, env.dom());
        let (a, v) = l_expr(t, low, e)->Ok_0;
        let c = after_local(t, low, id, e);
        lemma_rest_lowered(t, c, b, i + 1, env.dom().insert(id));
        let (x, terminated) = l_rest(t, c, b, i + 1)->Ok_0;
        let done = closed_off(x, terminated);
        lemma_grown(a, c, done);
        lemma_grown_begins(st, func, a, done);
        lemma_grown_begins(st, func, c, done);
        lemma_uncelled(low, env);
        lemma_scalar(t.res, env, o, e);
        let (n, g) = lemma_executed(p, o, t, env, e, low, st, func);
        match meaning(t.res, env, o, e) {
            Some(y) => {
                let mid = with_frame(st, g);
                assert(mid.frames.last() == g);
                lemma_machine_declares(p, o, mid, func, a, c, id, v, y, env);
                let h = FrameV { pc: instrs(c).len(), locals: g.locals.insert(id, y), ..g };
                let next = with_frame(mid, h);
                assert(next.frames.last() == h);
                lemma_march(p, o, s, n, 1);
                let e1 = env.insert(id, y);
                assert(scalars(e1)) by {
                    assert forall|k: SymbolId| #[trigger] e1.dom().contains(k) implies is_scalar(
                        e1[k],
                    ) by {
                        if k != id {
                            assert(env.dom().contains(k));
                        }
                    }
                }
                assert(e1.dom() =~= env.dom().insert(id));
                let k = lemma_rest_executed(p, o, t, e1, b, i + 1, c, next, func);
                lemma_march(p, o, s, n + 1, k);
                n + 1 + k
            },
            None => n,
        }
    } else {
        unfold_l_stats(t, low, b.stats, i);
        match b.ret {
            None => {
                lemma_terminate(low, Terminator::Return(None));
                lemma_machine_returns(p, o, st, func, Terminator::Return(None), ValueV::Nil);
                1
            },
            Some(r) => {
                if r.exprs.len() > 0 {
                    let e = r.exprs[0];
                    lemma_uncelled(low, env);
                    lemma_lowered(t, low, env, e);
                    let (a, v) = l_expr(t, low, e)->Ok_0;
                    let term = Terminator::Return(Some(v));
                    lemma_terminate(a, term);
                    lemma_grown_begins(st, func, a, a.terminate(term));
                    let (n, g) = lemma_executed(p, o, t, env, e, low, st, func);
                    match meaning(t.res, env, o, e) {
                        Some(y) => {
                            let mid = with_frame(st, g);
                            assert(mid.frames.last() == g);
                            lemma_machine_returns(p, o, mid, func, term, y);
                            lemma_march(p, o, s, n, 1);
                            n + 1
                        },
                        None => n,
                    }
                } else {
                    lemma_terminate(low, Terminator::Return(None));
                    lemma_machine_returns(p, o, st, func, Terminator::Return(None), ValueV::Nil);
                    1
                }
            },
        }
    }
}

/// The block that a frame stands in begins with what it was built from.
proof fn lemma_grown_begins(st: VmV, func: FunctionV, low: Low, done: Low)
    requires
        grown(low, done),
        func.blocks == done.blocks,
        st.frames.last().block == low.current,
    ensures
        super::begins(st, func, low),
{
    let is = func.blocks[st.frames.last().block as int].instrs;
    assert(is == instrs(done));
    assert forall|i: int| 0 <= i < instrs(low).len() implies is[i] == #[trigger] instrs(low)[i] by {
        assert(instrs(done)[i] == instrs(low)[i]);
    }
}

// ---- functions ----------------------------------------------------------------

/// Whether every parameter has a symbol.
pub open spec fn resolved(r: ResolutionV, ps: Seq<IdentV>) -> bool {
    forall|i: int| 0 <= i < ps.len() ==> r.def_of((#[trigger] ps[i]).span) is Some
}

/// The symbols of the parameters.
pub open spec fn ids_of(r: ResolutionV, ps: Seq<IdentV>) -> Seq<SymbolId> {
    Seq::new(ps.len(), |i: int| r.def_of(ps[i].span)->0)
}

pub(crate) proof fn lemma_param_ids(r: ResolutionV, ps: Seq<IdentV>, n: nat)
    requires
        resolved(r, ps),
        n <= ps.len(),
    ensures
        param_ids_of(r, ps, n) == ids_of(r, ps).take(n as int),
    decreases n,
{
    if n > 0 {
        lemma_param_ids(r, ps, (n - 1) as nat);
        assert(r.def_of(ps[n - 1].span) is Some);
        assert(ids_of(r, ps).take(n as int) =~= ids_of(r, ps).take(n - 1).push(
            ids_of(r, ps)[n - 1],
        ));
    } else {
        assert(ids_of(r, ps).take(0) =~= Seq::<SymbolId>::empty());
    }
}

/// Parameters that no closure captures add no code.
pub(crate) proof fn lemma_params_lowered(t: Tables, low: Low, ps: Seq<IdentV>, i: int)
    requires
        0 <= i <= ps.len(),
        resolved(t.res, ps),
        uncelled(low),
        low.params == ids_of(t.res, ps).take(i),
    ensures
        l_params(t, low, ps, i) is Ok,
        ({
            let a = (l_params(t, low, ps, i)->Ok_0).0;
            &&& a.params == ids_of(t.res, ps)
            &&& a.blocks == low.blocks
            &&& a.current == low.current
            &&& a.values == low.values
            &&& a.next_temp == low.next_temp
            &&& a.found == low.found
            &&& uncelled(a)
        }),
    decreases ps.len() - i,
{
    unfold_l_params(t, low, ps, i);
    if i < ps.len() {
        assert(t.res.def_of(ps[i].span) is Some);
        let id = t.res.def_of(ps[i].span)->0;
        reveal(Low::ensure_local);
        reveal(Low::add_param);
        let a = low.ensure_local(t, id).add_param(id);
        assert(a.params =~= ids_of(t.res, ps).take(i + 1));
        lemma_params_lowered(t, a, ps, i + 1);
    } else {
        assert(ids_of(t.res, ps).take(i) =~= ids_of(t.res, ps));
    }
}

/// A plain expression holds no function literal.
proof fn lemma_no_literals(r: ResolutionV, known: Set<SymbolId>, e: ExprV)
    requires
        plain(r, known, e),
    ensures
        lits_expr(e).len() == 0,
    decreases e,
{
    unfold_lits_expr(e);
    match e.kind {
        crate::ast::ExprKindV::Paren(i) => lemma_no_literals(r, known, *i),
        crate::ast::ExprKindV::Unary { op, operand } => lemma_no_literals(r, known, *operand),
        crate::ast::ExprKindV::Binary { op, lhs, rhs } => {
            lemma_no_literals(r, known, *lhs);
            lemma_no_literals(r, known, *rhs);
        },
        _ => {},
    }
}

proof fn lemma_no_literals_in(r: ResolutionV, known: Set<SymbolId>, b: BlockV, i: int)
    requires
        0 <= i <= b.stats.len(),
        straight(r, known, b, i),
    ensures
        lits_stats(b.stats, i).len() == 0,
        b.ret matches Some(x) ==> lits_exprs(x.exprs, 0).len() == 0,
    decreases b.stats.len() - i,
{
    unfold_lits_stats(b.stats, i);
    if i < b.stats.len() {
        let (_, id, e) = declaration(r, b.stats[i])->0;
        let exprs = b.stats[i].kind->Local_exprs;
        unfold_lits_stat(b.stats[i]);
        unfold_lits_exprs(exprs, 0);
        unfold_lits_exprs(exprs, 1);
        lemma_no_literals(r, known, e);
        lemma_no_literals_in(r, known.insert(id), b, i + 1);
    } else {
        match b.ret {
            Some(x) => {
                unfold_lits_exprs(x.exprs, 0);
                if x.exprs.len() == 1 {
                    unfold_lits_exprs(x.exprs, 1);
                    lemma_no_literals(r, known, x.exprs[0]);
                }
            },
            None => {},
        }
    }
}

/// Whether a function is straight: its parameters are resolved and its body only declares
/// variables with plain expressions and returns one.
pub open spec fn straight_function(r: ResolutionV, body: FuncBodyV) -> bool {
    let ids = ids_of(r, body.params);
    &&& resolved(r, body.params)
    &&& straight(r, vm::bound(ids, Seq::empty(), ids.len() as int).dom(), body.block, 0)
    &&& block_size(r, body.block, 0) <= u32::MAX
}

pub(crate) proof fn lemma_bound_dom(ids: Seq<SymbolId>, a: Seq<ValueV>, b: Seq<ValueV>, n: int)
    ensures
        vm::bound(ids, a, n).dom() == vm::bound(ids, b, n).dom(),
    decreases n,
{
    if n > 0 {
        lemma_bound_dom(ids, a, b, n - 1);
    }
}

pub(crate) proof fn lemma_bound_scalars(ids: Seq<SymbolId>, args: Seq<ValueV>, n: int)
    requires
        forall|i: int| 0 <= i < args.len() ==> is_scalar(#[trigger] args[i]),
    ensures
        scalars(vm::bound(ids, args, n)),
    decreases n,
{
    if n > 0 {
        lemma_bound_scalars(ids, args, n - 1);
        let e = vm::bound(ids, args, n - 1);
        let e1 = vm::bound(ids, args, n);
        assert forall|k: SymbolId| #[trigger] e1.dom().contains(k) implies is_scalar(e1[k]) by {
            if k != ids[n - 1] {
                assert(e.dom().contains(k));
            }
        }
    }
}

/// What a straight function returns for arguments; none if the call fails.
pub open spec fn call_meaning(r: ResolutionV, o: Answers, body: FuncBodyV, args: Seq<ValueV>) -> Option<
    ValueV,
> {
    let ids = ids_of(r, body.params);
    block_meaning(r, vm::bound(ids, args, ids.len() as int), o, body.block, 0)
}

/// A call in the interpreter.
proof fn lemma_call_interpreted(
    m: ModuleV,
    r: ResolutionV,
    o: Answers,
    st: St,
    i: usize,
    body: FuncBodyV,
    args: Seq<ValueV>,
) -> (n: nat)
    requires
        straight_function(r, body),
        i < st.funcs.len(),
        st.funcs[i as int].body == body,
        st.funcs[i as int].params == param_ids_of(r, body.params, body.params.len()),
        st.konts.len() == 0,
        st.wait is None,
        args.len() == body.params.len(),
        forall|k: int| 0 <= k < args.len() ==> is_scalar(#[trigger] args[k]),
        st.heap.len() + args.len() + body.block.stats.len() < usize::MAX,
    ensures
        finished(
            call_meaning(r, o, body, args),
            walk(m, r, o, interp::call_value_of(st, ValueV::Function(i), args), n).1,
        ),
{
    let ids = ids_of(r, body.params);
    lemma_param_ids(r, body.params, body.params.len());
    assert(ids.take(ids.len() as int) =~= ids);
    let env = vm::bound(ids, args, ids.len() as int);
    lemma_bound_dom(ids, args, Seq::empty(), ids.len() as int);
    lemma_bound_scalars(ids, args, ids.len() as int);
    reveal(interp::call_value_of);
    reveal(St::entered);
    lemma_bind_params(st.heap, ids, args, 0, Map::empty(), Map::empty());
    let s = interp::call_value_of(st, ValueV::Function(i), args);
    let base = St { ctrl: None, ..s.0 };
    assert(holds(base, env)) by {
        reveal(St::slot);
        assert forall|id: SymbolId| #[trigger] env.dom().contains(id) implies base.lookup(id)
            == Some(env[id]) by {
            assert(base.act->0.locals.dom().contains(id));
        }
    }
    lemma_walk_one(m, r, o, s.0);
    assert(interp::step_of(m, r, s.0) == interp::block_of(base, body.block, 0));
    let n = lemma_block_interpreted(m, r, o, env, body.block, 0, base);
    lemma_walk(m, r, o, s, 1, n);
    1 + n
}

/// A function that no closure captures from makes no cells.
pub(crate) proof fn lemma_no_cells(t: Tables, st: Low, i: int)
    requires
        st.boxed == Set::<SymbolId>::empty(),
    ensures
        crate::ir::lower::l_entry_cells(t, st, i) == st,
    decreases t.res.symbols.len() - i,
{
    crate::ir::lower::unfold_l_entry_cells(t, st, i);
    if 0 <= i < t.res.symbols.len() && i <= u32::MAX {
        lemma_no_cells(t, st, i + 1);
    }
}

/// A straight function is lowered to one block, built from an empty one.
pub(crate) proof fn lemma_whole(t: Tables, name: Seq<char>, body: FuncBodyV) -> (low: Low)
    requires
        straight_function(t.res, body),
    ensures
        l_function(t, name, body) is Ok,
        ({
            let (x, terminated) = l_rest(t, low, body.block, 0)->Ok_0;
            (l_function(t, name, body)->Ok_0).0 == closed_off(x, terminated).finish()
        }),
        low.params == ids_of(t.res, body.params),
        uncelled(low),
        low.current == 0,
        low.blocks.len() == 1,
        low.values.len() == 0,
        instrs(low).len() == 0,
{
    let r = t.res;
    let ids = ids_of(r, body.params);
    let known = vm::bound(ids, Seq::empty(), ids.len() as int).dom();
    reveal(l_function);
    reveal(l_whole);
    reveal(Low::set_boxed);
    let ret = match get_of(t.types.functions, name) {
        Some(ft) => *ft.ret,
        None => crate::types::TypeV::Unit,
    };
    let boxed = boxed_of(r, body, 0);
    assert(boxed =~= Set::<SymbolId>::empty()) by {
        unfold_lits_block(body.block);
        lemma_no_literals_in(r, known, body.block, 0);
    }
    let start = Low::start(t, name, ret).set_boxed(boxed);
    lemma_no_cells(t, start, 0);
    assert(ids.take(0) =~= Seq::<SymbolId>::empty());
    lemma_params_lowered(t, start, body.params, 0);
    let low = (l_params(t, start, body.params, 0)->Ok_0).0;
    unfold_l_block(t, low, body.block);
    assert(l_block(t, low, body.block) == l_rest(t, low, body.block, 0));
    lemma_rest_lowered(t, low, body.block, 0, known);
    low
}

/// A call in the machine.
proof fn lemma_call_executed(
    p: ProgramV,
    o: Answers,
    t: Tables,
    name: Seq<char>,
    body: FuncBodyV,
    st: VmV,
    args: Seq<ValueV>,
) -> (n: nat)
    requires
        straight_function(t.res, body),
        args.len() == body.params.len(),
        forall|k: int| 0 <= k < args.len() ==> is_scalar(#[trigger] args[k]),
        l_function(t, name, body) is Ok ==> get_of(p.functions, name) == Some(
            (l_function(t, name, body)->Ok_0).0,
        ),
    ensures
        l_function(t, name, body) is Ok,
        (l_function(t, name, body)->Ok_0).0.params.len() == args.len(),
        finished(
            call_meaning(t.res, o, body, args),
            march(
                p,
                o,
                vm::started(
                    st,
                    CodeV::Function(name),
                    (l_function(t, name, body)->Ok_0).0,
                    args,
                ),
                n,
            ).1,
        ),
{
    let r = t.res;
    let ids = ids_of(r, body.params);
    let env = vm::bound(ids, args, ids.len() as int);
    let known = vm::bound(ids, Seq::empty(), ids.len() as int).dom();
    lemma_bound_dom(ids, args, Seq::empty(), ids.len() as int);
    lemma_bound_scalars(ids, args, ids.len() as int);
    let low = lemma_whole(t, name, body);
    let func = (l_function(t, name, body)->Ok_0).0;
    lemma_rest_lowered(t, low, body.block, 0, known);
    lemma_rest_params(t, low, body.block, 0, known);
    let s = vm::started(st, CodeV::Function(name), func, args);
    assert(s.0.frames.last() == vm::entered(
        CodeV::Function(name),
        func,
        args,
        st.heap.len() as usize,
    ));
    lemma_rest_executed(p, o, t, env, body.block, 0, low, s.0, func)
}

/// Statements add no parameters.
proof fn lemma_rest_params(t: Tables, low: Low, b: BlockV, i: int, known: Set<SymbolId>)
    requires
        0 <= i <= b.stats.len(),
        straight(t.res, known, b, i),
        uncelled(low),
        0 <= low.current < low.blocks.len(),
        low.values.len() + block_size(t.res, b, i) <= u32::MAX,
    ensures
        l_rest(t, low, b, i) is Ok,
        closed_off(
            (l_rest(t, low, b, i)->Ok_0).0,
            (l_rest(t, low, b, i)->Ok_0).1,
        ).params == low.params,
    decreases b.stats.len() - i,
{
    lemma_rest_lowered(t, low, b, i, known);
    reveal(Low::set_term);
    let env = Map::new(|k: SymbolId| known.contains(k), |k: SymbolId| ValueV::Nil);
    assert(env.dom() =~= known);
    lemma_uncelled(low, env);
    if i < b.stats.len() {
        let (_, id, e) = declaration(t.res, b.stats[i])->0;
        lemma_local_lowered(t, low, b, i, known);
        lemma_expr_params(t, low, env, e);
        reveal(Low::bind);
        reveal(Low::ensure_local);
        reveal(Low::stmt);
        lemma_rest_params(t, after_local(t, low, id, e), b, i + 1, known.insert(id));
    } else {
        unfold_l_stats(t, low, b.stats, i);
        match b.ret {
            Some(x) => {
                if x.exprs.len() > 0 {
                    lemma_expr_params(t, low, env, x.exprs[0]);
                }
            },
            None => {},
        }
    }
}

/// Expressions add no parameters.
proof fn lemma_expr_params(t: Tables, low: Low, env: Env, e: ExprV)
    requires
        plain(t.res, env.dom(), e),
        uncaptured(low, env),
        has_room(low, e),
    ensures
        (l_expr(t, low, e)->Ok_0).0.params == low.params,
    decreases e,
{
    lemma_lowered(t, low, env, e);
    crate::ir::lower::unfold_l_expr(t, low, e);
    reveal(Low::emit);
    match e.kind {
        crate::ast::ExprKindV::Paren(i) => lemma_expr_params(t, low, env, *i),
        crate::ast::ExprKindV::Name(_) => {
            reveal(crate::ir::lower::l_name);
            reveal(Low::read);
            reveal(Low::ensure_local);
        },
        crate::ast::ExprKindV::Unary { op, operand } => {
            lemma_lowered(t, low, env, *operand);
            lemma_expr_params(t, low, env, *operand);
        },
        crate::ast::ExprKindV::Binary { op, lhs, rhs } => {
            lemma_lowered(t, low, env, *lhs);
            lemma_expr_params(t, low, env, *lhs);
            let a = (l_expr(t, low, *lhs)->Ok_0).0;
            lemma_lowered(t, a, env, *rhs);
            lemma_expr_params(t, a, env, *rhs);
        },
        _ => {},
    }
}

/// A call of an exported straight function with scalars comes to the same in both machines:
/// the same value, or a failure of both.
pub proof fn law_straight_calls_agree(
    m: ModuleV,
    o: Answers,
    t: Tables,
    st: St,
    p: ProgramV,
    machine: VmV,
    export: Seq<char>,
    name: Seq<char>,
    i: usize,
    body: FuncBodyV,
    args: Seq<ValueV>,
)
    requires
        straight_function(t.res, body),
        args.len() == body.params.len(),
        forall|k: int| 0 <= k < args.len() ==> is_scalar(#[trigger] args[k]),
        i < st.funcs.len(),
        st.funcs[i as int].body == body,
        st.funcs[i as int].params == param_ids_of(t.res, body.params, body.params.len()),
        get_of(st.exports, export) == Some(ValueV::Function(i)),
        st.heap.len() + args.len() + body.block.stats.len() < usize::MAX,
        get_of(p.exports, export) == Some(ExportTargetV::Function(name)),
        l_function(t, name, body) is Ok ==> get_of(p.functions, name) == Some(
            (l_function(t, name, body)->Ok_0).0,
        ),
    ensures
        l_function(t, name, body) is Ok,
        exists|n: nat, k: nat| #![trigger
            walk(m, t.res, o, interp::started_of(m, st, export, args), n),
            march(p, o, vm::call_of(p, machine, export, args), k)
        ]
            finished(
                call_meaning(t.res, o, body, args),
                walk(m, t.res, o, interp::started_of(m, st, export, args), n).1,
            ) && finished(
                call_meaning(t.res, o, body, args),
                march(p, o, vm::call_of(p, machine, export, args), k).1,
            ),
{
    reveal(interp::call_from_host);
    let fresh = st.fresh();
    let n = lemma_call_interpreted(m, t.res, o, fresh, i, body, args);
    let k = lemma_call_executed(p, o, t, name, body, machine, args);
    assert(interp::started_of(m, st, export, args) == interp::call_value_of(
        fresh,
        ValueV::Function(i),
        args,
    ));
    assert(finished(
        call_meaning(t.res, o, body, args),
        walk(m, t.res, o, interp::started_of(m, st, export, args), n).1,
    ));
    assert(finished(
        call_meaning(t.res, o, body, args),
        march(p, o, vm::call_of(p, machine, export, args), k).1,
    ));
}

} // verus!
