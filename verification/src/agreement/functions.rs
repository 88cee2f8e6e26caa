//! Both machines agree on calls of functions of scalars: functions that call builtins and one
//! another, declare and assign local variables, decide, loop with `while` and `for`, `break` and
//! `return`.

use vstd::prelude::*;

use super::branches::{calls_march, covers, hosted, leads, lemma_frames, lemma_leads};
use super::calls::{
    closed_off, finished, gives_back, ids_of, l_rest, lemma_bound_dom, lemma_bound_scalars,
    lemma_machine_returns, lemma_param_ids, lemma_params_lowered, resolved,
};
use super::control::{
    above, arms_ok, block_ok, calls_walk, ended_on, extends, kept, lemma_block_walk, lemma_roomy,
    linked, on, range_of, roomy, run_arms, run_block, run_for, run_stat, run_while, simple,
    situated, stat_ok, Res,
};
use super::counting::counting;
use super::execution::{below, lemma_block_executed, sane, set_up, tidy};
use super::statements::{block_cost, can_lower, lemma_block_lowered, lemma_end};
use super::{
    answered, has_failed, instrs, is_scalar, lemma_march, lemma_walk, lemma_walk_one, march, walk,
    with_frame, with_value, Answers, Env,
};
use crate::ast::{BinOp, BlockV, ExprKindV, ExprV, FuncBodyV, ModuleV, StatKindV, StatV};
use crate::capture::{
    boxed_of, lits_arms, lits_block, lits_expr, lits_exprs, lits_stat, lits_stats, unfold_lits_arm,
    unfold_lits_arms, unfold_lits_block, unfold_lits_expr, unfold_lits_exprs, unfold_lits_stat,
    unfold_lits_stats,
};
use crate::diagnostics::Span;
use crate::interp;
use crate::interp::{bind_params, param_ids_of, unfold_bind_params, FlowV, KontV, St};
use crate::ir::lower::{l_block, l_function, l_params, l_whole, unfold_l_block, Low, Tables};
use crate::ir::vm;
use crate::ir::vm::{CodeV, ProgressV, VmV};
use crate::ir::{ExportTargetV, ProgramV, Terminator};
use crate::names::get_of;
use crate::resolve::{symbol_at, ResolutionV, SymbolId, SymbolInfoV};
use crate::runtime::eval::{arg, RequestV};
use crate::value::{HeapV, ObjV, ValueV};

verus! {

/// Whether a function computes with scalars only: its parameters are resolved, and its body
/// declares and assigns local variables, decides, loops, counts, and returns. Its code
/// must have room in the numbering of values, blocks and temporaries.
pub open spec fn scalar_function(r: ResolutionV, body: FuncBodyV) -> bool {
    let ids = ids_of(r, body.params);
    &&& resolved(r, body.params)
    &&& block_ok(r, vm::bound(ids, Seq::empty(), ids.len() as int).dom(), body.block, 0, false)
    &&& r.symbols.len() + block_cost(body.block, 0) + 1 <= u32::MAX
}

/// What a call comes to within `n` statements: a value, or a failure; nothing if it has not
/// ended, or counted with something else than numbers, which no module does whose types check.
pub open spec fn outcome(
    r: ResolutionV,
    o: Answers,
    body: FuncBodyV,
    args: Seq<ValueV>,
    n: nat,
) -> Option<Option<ValueV>> {
    let ids = ids_of(r, body.params);
    match run_block(r, vm::bound(ids, args, ids.len() as int), o, body.block, 0, n) {
        Res::Out => None,
        Res::Fail => Some(None),
        Res::End(FlowV::Return(v), _, _) => Some(Some(v)),
        Res::End(_, _, _) => Some(Some(ValueV::Nil)),
    }
}

/// Whether control leaves a loop.
pub open spec fn breaks(x: Res) -> bool {
    x matches Res::End(FlowV::Break, _, _)
}

proof fn lemma_stat_stays(
    r: ResolutionV,
    known: Set<SymbolId>,
    env: Env,
    o: Answers,
    s: StatV,
    n: nat,
)
    requires
        stat_ok(r, known, s, false),
    ensures
        !breaks(run_stat(r, env, o, s, n)),
    decreases n, s, 0int,
{
    match s.kind {
        StatKindV::Do(b) => lemma_block_stays(r, known, env, o, b, 0, n),
        StatKindV::While { cond, body } => lemma_while_stays(r, env, o, cond, body, n),
        StatKindV::NumericFor { var, start, end, step, body } => {
            match range_of(r, env, o, start, end, step) {
                Some(Some((a, b, c))) => lemma_for_stays(
                    r,
                    env,
                    o,
                    r.def_of(var.span)->0,
                    a,
                    b,
                    c,
                    body,
                    n,
                ),
                _ => {},
            }
        },
        StatKindV::If { arms, else_block } => {
            lemma_arms_stay(r, known, env, o, arms, 0, n);
            match else_block {
                Some(b) => lemma_block_stays(r, known, env, o, b, 0, n),
                None => {},
            }
        },
        _ => {},
    }
}

proof fn lemma_block_stays(
    r: ResolutionV,
    known: Set<SymbolId>,
    env: Env,
    o: Answers,
    b: BlockV,
    i: int,
    n: nat,
)
    requires
        block_ok(r, known, b, i, false),
    ensures
        !breaks(run_block(r, env, o, b, i, n)),
    decreases n, b, 0int,
{
    if 0 <= i < b.stats.len() && n > 0 {
        let n1 = (n - 1) as nat;
        lemma_stat_stays(r, known, env, o, b.stats[i], n1);
        match run_stat(r, env, o, b.stats[i], n1) {
            Res::End(FlowV::Normal, env1, left) => {
                if left < n {
                    lemma_block_stays(
                        r,
                        super::control::known_after(r, known, b.stats[i]),
                        env1,
                        o,
                        b,
                        i + 1,
                        left,
                    );
                }
            },
            _ => {},
        }
    }
}

proof fn lemma_arms_stay(
    r: ResolutionV,
    known: Set<SymbolId>,
    env: Env,
    o: Answers,
    arms: Seq<(ExprV, BlockV)>,
    i: int,
    n: nat,
)
    requires
        arms_ok(r, known, arms, i, false),
    ensures
        run_arms(r, env, o, arms, i, n) matches Some(x) ==> !breaks(x),
    decreases n, arms, arms.len() - i,
{
    if 0 <= i < arms.len() {
        lemma_block_stays(r, known, env, o, arms[i].1, 0, n);
        lemma_arms_stay(r, known, env, o, arms, i + 1, n);
    }
}

proof fn lemma_while_stays(
    r: ResolutionV,
    env: Env,
    o: Answers,
    cond: ExprV,
    body: BlockV,
    n: nat,
)
    ensures
        !breaks(run_while(r, env, o, cond, body, n)),
    decreases n, body, 1int,
{
    if n > 0 {
        match run_block(r, env, o, body, 0, (n - 1) as nat) {
            Res::End(FlowV::Normal, env1, left) => {
                if left < n {
                    lemma_while_stays(r, env1, o, cond, body, left);
                }
            },
            _ => {},
        }
    }
}

proof fn lemma_for_stays(
    r: ResolutionV,
    env: Env,
    o: Answers,
    id: SymbolId,
    a: u64,
    b: u64,
    c: u64,
    body: BlockV,
    n: nat,
)
    ensures
        !breaks(run_for(r, env, o, id, a, b, c, body, n)),
    decreases n, body, 1int,
{
    if n > 0 {
        match run_block(r, env.insert(id, ValueV::Number(a)), o, body, 0, (n - 1) as nat) {
            Res::End(FlowV::Normal, env1, left) => {
                match answered(o, RequestV::Arith(BinOp::Add, a, c)) {
                    Some(ValueV::Number(d)) => {
                        if left < n {
                            lemma_for_stays(r, env1, o, id, d, b, c, body, left);
                        }
                    },
                    _ => {},
                }
            },
            _ => {},
        }
    }
}

// ---- the interpreter ----------------------------------------------------------

/// The parameters of a call are in slots of their own.
proof fn lemma_params_situated(
    h: HeapV,
    params: Seq<SymbolId>,
    args: Seq<ValueV>,
    i: int,
    locals: Map<SymbolId, usize>,
    env: Env,
    fl: nat,
)
    requires
        0 <= i <= params.len(),
        env == vm::bound(params, args, i),
        locals.dom() == env.dom(),
        in_slots(h, locals, env),
        h.len() + (params.len() - i) < usize::MAX,
        fl <= h.len(),
        forall|id: SymbolId| #[trigger] env.dom().contains(id) ==> fl <= locals[id],
    ensures
        ({
            let (h1, l1) = bind_params(h, params, args, i, locals);
            let e1 = vm::bound(params, args, params.len() as int);
            &&& l1.dom() == e1.dom()
            &&& h1.len() == h.len() + (params.len() - i)
            &&& in_slots(h1, l1, e1)
            &&& extends(h1, h)
            &&& forall|id: SymbolId| #[trigger] e1.dom().contains(id) ==> fl <= l1[id]
        }),
    decreases params.len() - i,
{
    unfold_bind_params(h, params, args, i, locals);
    if i < params.len() {
        let x = arg(args, i);
        let h1 = h.push(ObjV::Cell(x));
        let l1 = locals.insert(params[i], h.len() as usize);
        let e1 = env.insert(params[i], x);
        assert(e1 == vm::bound(params, args, i + 1));
        assert(l1.dom() =~= e1.dom());
        assert forall|id: SymbolId| #[trigger] e1.dom().contains(id) implies l1[id] < h1.len()
            && h1[l1[id] as int] == ObjV::Cell(e1[id]) by {
            if id != params[i] {
                assert(env.dom().contains(id));
            }
        }
        assert forall|id: SymbolId, jd: SymbolId|
            e1.dom().contains(id) && e1.dom().contains(jd) && id != jd implies #[trigger] l1[id]
            != #[trigger] l1[jd] by {
            if id != params[i] {
                assert(env.dom().contains(id));
            }
            if jd != params[i] {
                assert(env.dom().contains(jd));
            }
        }
        assert forall|id: SymbolId| #[trigger] e1.dom().contains(id) implies fl <= l1[id] by {
            if id != params[i] {
                assert(env.dom().contains(id));
            }
        }
        lemma_params_situated(h1, params, args, i + 1, l1, e1, fl);
        let h2 = bind_params(h1, params, args, i + 1, l1).0;
        assert forall|k: int| 0 <= k < h.len() implies h2[k] == #[trigger] h[k] by {
            assert(h2[k] == h1[k]);
        }
    }
}

/// Every parameter takes a slot.
proof fn lemma_params_slots(
    h: HeapV,
    params: Seq<SymbolId>,
    args: Seq<ValueV>,
    i: int,
    locals: Map<SymbolId, usize>,
)
    requires
        0 <= i <= params.len(),
    ensures
        bind_params(h, params, args, i, locals).0.len() == h.len() + (params.len() - i),
    decreases params.len() - i,
{
    unfold_bind_params(h, params, args, i, locals);
    if i < params.len() {
        lemma_params_slots(
            h.push(ObjV::Cell(arg(args, i))),
            params,
            args,
            i + 1,
            locals.insert(params[i], h.len() as usize),
        );
    }
}

/// Whether every variable has a slot of its own.
pub open spec fn in_slots(h: HeapV, locals: Map<SymbolId, usize>, env: Env) -> bool {
    &&& forall|id: SymbolId| #[trigger]
        env.dom().contains(id) ==> locals[id] < h.len() && h[locals[id] as int] == ObjV::Cell(
            env[id],
        )
    &&& forall|id: SymbolId, jd: SymbolId|
        env.dom().contains(id) && env.dom().contains(jd) && id != jd ==> #[trigger] locals[id]
            != #[trigger] locals[jd]
}

/// A call in the interpreter: it comes to its outcome, where it was called.
pub(crate) proof fn lemma_call_walk(
    m: ModuleV,
    r: ResolutionV,
    o: Answers,
    st: St,
    i: usize,
    body: FuncBodyV,
    args: Seq<ValueV>,
    n: nat,
) -> (z: (nat, HeapV))
    requires
        scalar_function(r, body),
        linked(m, r, o, st),
        i < st.funcs.len(),
        st.funcs[i as int].body == body,
        st.funcs[i as int].params == param_ids_of(r, body.params, body.params.len()),
        st.wait is None,
        st.ctrl is None,
        args.len() == body.params.len(),
        forall|k: int| 0 <= k < args.len() ==> is_scalar(#[trigger] args[k]),
        outcome(r, o, body, args, n) is Some,
        calls_walk(m, r, o),
        roomy(m, r, o, interp::call_value_of(st, ValueV::Function(i), args)),
    ensures
        ended_on(
            st,
            z.1,
            outcome(r, o, body, args, n)->0,
            walk(m, r, o, interp::call_value_of(st, ValueV::Function(i), args), z.0),
        ),
{
    let ids = ids_of(r, body.params);
    lemma_param_ids(r, body.params, body.params.len());
    assert(ids.take(ids.len() as int) =~= ids);
    let env = vm::bound(ids, args, ids.len() as int);
    let known = vm::bound(ids, Seq::empty(), ids.len() as int).dom();
    lemma_bound_dom(ids, args, Seq::empty(), ids.len() as int);
    lemma_bound_scalars(ids, args, ids.len() as int);
    reveal(interp::call_value_of);
    reveal(St::entered);
    let s = interp::call_value_of(st, ValueV::Function(i), args);
    let fl = st.heap.len();
    lemma_params_slots(st.heap, ids, args, 0, Map::empty());
    lemma_roomy(m, r, o, s, 0);
    lemma_params_situated(st.heap, ids, args, 0, Map::empty(), Map::empty(), fl);
    let base = St { ctrl: None, ..s.0 };
    assert(situated(base, env));
    assert(above(base, env, fl));
    lemma_walk_one(m, r, o, s.0);
    assert(interp::step_of(m, r, s.0) == interp::block_of(base, body.block, 0));
    lemma_roomy(m, r, o, s, 1);
    let k = lemma_block_walk(m, r, o, fl, known, env, body.block, 0, false, n, base);
    lemma_walk(m, r, o, s, 1, k);
    lemma_block_stays(r, known, env, o, body.block, 0, n);
    match run_block(r, env, o, body.block, 0, n) {
        Res::End(f, env1, left) => {
            let e = walk(m, r, o, interp::block_of(base, body.block, 0), k).0;
            let x = match f {
                FlowV::Return(v) => v,
                _ => ValueV::Nil,
            };
            reveal(St::run);
            reveal(interp::flow_of);
            lemma_walk_one(m, r, o, e);
            assert(e.konts.last() == KontV::Call(st.act));
            assert(e.konts.drop_last() =~= st.konts);
            let back = St { konts: e.konts.drop_last(), ..St { ctrl: None, ..e } };
            assert(St { act: st.act, ..back } == on(st, e.heap));
            assert(interp::step_of(m, r, e) == (with_value(on(st, e.heap), x), ProgressV::Running));
            lemma_walk(m, r, o, s, 1 + k, 1);
            assert(extends(e.heap, st.heap)) by {
                reveal(kept);
                assert forall|q: int| 0 <= q < st.heap.len() implies e.heap[q]
                    == #[trigger] st.heap[q] by {
                    assert(e.heap[q] == base.heap[q]);
                }
            }
            (1 + k + 1, e.heap)
        },
        _ => (1 + k, st.heap),
    }
}

// ---- the machine ---------------------------------------------------------------

proof fn lemma_symbol_at(symbols: Seq<SymbolInfoV>, span: Span, n: int)
    ensures
        symbol_at(symbols, span, n) matches Some(i) ==> 0 <= i < n,
    decreases n,
{
    if n > 0 {
        lemma_symbol_at(symbols, span, n - 1);
    }
}

/// Every symbol comes before the temporaries.
proof fn lemma_tidy(r: ResolutionV)
    requires
        r.symbols.len() <= u32::MAX,
    ensures
        tidy(r, r.symbols.len()),
{
    assert forall|sp: Span| #![trigger r.def_of(sp)] r.def_of(sp) is Some implies r.def_of(sp)->0
        < r.symbols.len() by {
        lemma_symbol_at(r.symbols, sp, r.symbols.len() as int);
    }
}

proof fn lemma_params_below(r: ResolutionV, body: FuncBodyV, args: Seq<ValueV>, n: int)
    requires
        tidy(r, r.symbols.len()),
        resolved(r, body.params),
        n <= body.params.len(),
    ensures
        below(vm::bound(ids_of(r, body.params), args, n), r.symbols.len()),
    decreases n,
{
    if n > 0 {
        lemma_params_below(r, body, args, n - 1);
        let ids = ids_of(r, body.params);
        let e = vm::bound(ids, args, n - 1);
        let e1 = vm::bound(ids, args, n);
        assert(r.def_of(body.params[n - 1].span) is Some);
        assert forall|id: SymbolId| #[trigger] e1.dom().contains(id) implies id
            < r.symbols.len() by {
            if id != ids[n - 1] {
                assert(e.dom().contains(id));
            }
        }
    }
}

/// A simple expression holds no function literal.
proof fn lemma_expr_literals(r: ResolutionV, known: Set<SymbolId>, e: ExprV)
    requires
        simple(r, known, e),
    ensures
        lits_expr(e).len() == 0,
    decreases e, 0int,
{
    unfold_lits_expr(e);
    match e.kind {
        ExprKindV::Paren(i) => lemma_expr_literals(r, known, *i),
        ExprKindV::Unary { op, operand } => lemma_expr_literals(r, known, *operand),
        ExprKindV::Binary { op, lhs, rhs } => {
            lemma_expr_literals(r, known, *lhs);
            lemma_expr_literals(r, known, *rhs);
        },
        ExprKindV::Field { base, name } => unfold_lits_expr(*base),
        ExprKindV::Call { callee, args } => {
            unfold_lits_expr(*callee);
            match callee.kind {
                ExprKindV::Field { base, name } => unfold_lits_expr(*base),
                _ => {},
            }
            lemma_exprs_literals(r, known, args, 0);
        },
        _ => {},
    }
}

proof fn lemma_exprs_literals(r: ResolutionV, known: Set<SymbolId>, es: Seq<ExprV>, i: int)
    requires
        forall|k: int| 0 <= k < es.len() ==> simple(r, known, #[trigger] es[k]),
    ensures
        lits_exprs(es, i).len() == 0,
    decreases es, es.len() - i,
{
    unfold_lits_exprs(es, i);
    if 0 <= i < es.len() {
        lemma_expr_literals(r, known, es[i]);
        lemma_exprs_literals(r, known, es, i + 1);
    }
}

proof fn lemma_one_literals(r: ResolutionV, known: Set<SymbolId>, es: Seq<ExprV>)
    requires
        es.len() <= 1,
        es.len() == 1 ==> simple(r, known, es[0]),
    ensures
        lits_exprs(es, 0).len() == 0,
{
    unfold_lits_exprs(es, 0);
    if es.len() == 1 {
        unfold_lits_exprs(es, 1);
        lemma_expr_literals(r, known, es[0]);
    }
}

proof fn lemma_stat_literals(r: ResolutionV, known: Set<SymbolId>, s: StatV, looped: bool)
    requires
        stat_ok(r, known, s, looped),
    ensures
        lits_stat(s).len() == 0,
    decreases s, 0int,
{
    unfold_lits_stat(s);
    match s.kind {
        StatKindV::Local { names, exprs } => lemma_one_literals(r, known, exprs),
        StatKindV::Assign { targets, exprs } => {
            lemma_one_literals(r, known, exprs);
            unfold_lits_exprs(targets, 0);
            unfold_lits_exprs(targets, 1);
            unfold_lits_expr(targets[0]);
        },
        StatKindV::Call(e) => lemma_expr_literals(r, known, e),
        StatKindV::Do(b) => lemma_block_literals(r, known, b, looped),
        StatKindV::While { cond, body } => {
            lemma_expr_literals(r, known, cond);
            lemma_block_literals(r, known, body, true);
        },
        StatKindV::NumericFor { var, start, end, step, body } => {
            lemma_expr_literals(r, known, start);
            lemma_expr_literals(r, known, end);
            match step {
                Some(e) => lemma_expr_literals(r, known, e),
                None => {},
            }
            lemma_block_literals(r, known.insert(r.def_of(var.span)->0), body, true);
        },
        StatKindV::If { arms, else_block } => {
            lemma_arms_literals(r, known, arms, 0, looped);
            match else_block {
                Some(b) => lemma_block_literals(r, known, b, looped),
                None => {},
            }
        },
        _ => {},
    }
}

proof fn lemma_block_literals(r: ResolutionV, known: Set<SymbolId>, b: BlockV, looped: bool)
    requires
        block_ok(r, known, b, 0, looped),
    ensures
        lits_block(b).len() == 0,
    decreases b, b.stats.len() + 1,
{
    unfold_lits_block(b);
    lemma_rest_literals(r, known, b, 0, looped);
}

proof fn lemma_rest_literals(
    r: ResolutionV,
    known: Set<SymbolId>,
    b: BlockV,
    i: int,
    looped: bool,
)
    requires
        0 <= i <= b.stats.len(),
        block_ok(r, known, b, i, looped),
    ensures
        lits_stats(b.stats, i).len() == 0,
        b.ret matches Some(x) ==> lits_exprs(x.exprs, 0).len() == 0,
    decreases b, b.stats.len() - i,
{
    unfold_lits_stats(b.stats, i);
    if i < b.stats.len() {
        lemma_stat_literals(r, known, b.stats[i], looped);
        lemma_rest_literals(
            r,
            super::control::known_after(r, known, b.stats[i]),
            b,
            i + 1,
            looped,
        );
    } else {
        match b.ret {
            Some(x) => lemma_one_literals(r, known, x.exprs),
            None => {},
        }
    }
}

proof fn lemma_arms_literals(
    r: ResolutionV,
    known: Set<SymbolId>,
    arms: Seq<(ExprV, BlockV)>,
    i: int,
    looped: bool,
)
    requires
        0 <= i <= arms.len(),
        arms_ok(r, known, arms, i, looped),
    ensures
        lits_arms(arms, i).len() == 0,
    decreases arms, arms.len() - i,
{
    unfold_lits_arms(arms, i);
    if i < arms.len() {
        unfold_lits_arm(arms[i]);
        lemma_expr_literals(r, known, arms[i].0);
        lemma_block_literals(r, known, arms[i].1, looped);
        lemma_arms_literals(r, known, arms, i + 1, looped);
    }
}

/// A function of scalars is lowered to code built from one empty block.
pub(crate) proof fn lemma_function_lowered(t: Tables, name: Seq<char>, body: FuncBodyV) -> (low: Low)
    requires
        scalar_function(t.res, body),
    ensures
        can_lower(low, block_cost(body.block, 0), false),
        l_rest(t, low, body.block, 0) is Ok,
        l_function(t, name, body) is Ok,
        ({
            let (x, terminated) = l_rest(t, low, body.block, 0)->Ok_0;
            (l_function(t, name, body)->Ok_0).0 == closed_off(x, terminated).finish()
        }),
        (l_function(t, name, body)->Ok_0).1.len() == 0,
        low.params == ids_of(t.res, body.params),
        low.current == 0,
        instrs(low).len() == 0,
        low.next_temp == t.res.symbols.len(),
{
    let r = t.res;
    let ids = ids_of(r, body.params);
    let known = vm::bound(ids, Seq::empty(), ids.len() as int).dom();
    reveal(l_function);
    reveal(l_whole);
    reveal(Low::set_boxed);
    let ret = match get_of(t.types.functions, name) {
        Some(ft) => *ft.ret,
        None => crate::types::TypeV::Unit,
    };
    let boxed = boxed_of(r, body, 0);
    assert(boxed =~= Set::<SymbolId>::empty()) by {
        lemma_block_literals(r, known, body.block, false);
    }
    let start = Low::start(t, name, ret).set_boxed(boxed);
    super::calls::lemma_no_cells(t, start, 0);
    assert(ids.take(0) =~= Seq::<SymbolId>::empty());
    lemma_params_lowered(t, start, body.params, 0);
    let low = (l_params(t, start, body.params, 0)->Ok_0).0;
    unfold_l_block(t, low, body.block);
    assert(l_block(t, low, body.block) == l_rest(t, low, body.block, 0));
    lemma_block_lowered(t, low, known, body.block, 0, false);
    reveal(Low::set_term);
    low
}

/// A call in the machine, whose innermost frame has just been entered.
pub(crate) proof fn lemma_call_march(
    p: ProgramV,
    o: Answers,
    t: Tables,
    name: Seq<char>,
    body: FuncBodyV,
    st: VmV,
    mark: usize,
    args: Seq<ValueV>,
    n: nat,
) -> (k: nat)
    requires
        scalar_function(t.res, body),
        args.len() == body.params.len(),
        forall|k: int| 0 <= k < args.len() ==> is_scalar(#[trigger] args[k]),
        l_function(t, name, body) is Ok ==> get_of(p.functions, name) == Some(
            (l_function(t, name, body)->Ok_0).0,
        ),
        counting(o),
        outcome(t.res, o, body, args, n) is Some,
        hosted(o, st),
        calls_march(p, o),
        st.wait is None,
        st.frames.len() > 0,
        l_function(t, name, body) is Ok ==> st.frames.last() == vm::entered(
            CodeV::Function(name),
            (l_function(t, name, body)->Ok_0).0,
            args,
            mark,
        ),
    ensures
        l_function(t, name, body) is Ok,
        (l_function(t, name, body)->Ok_0).0.params.len() == args.len(),
        ({
            let s = march(p, o, (st, ProgressV::Running), k);
            match outcome(t.res, o, body, args, n)->0 {
                Some(v) => gives_back(p, st, v, s),
                None => has_failed(s.1),
            }
        }),
{
    let r = t.res;
    let ids = ids_of(r, body.params);
    let env = vm::bound(ids, args, ids.len() as int);
    let known = vm::bound(ids, Seq::empty(), ids.len() as int).dom();
    let ns = r.symbols.len();
    lemma_bound_dom(ids, args, Seq::empty(), ids.len() as int);
    lemma_bound_scalars(ids, args, ids.len() as int);
    lemma_tidy(r);
    lemma_params_below(r, body, args, ids.len() as int);
    let low = lemma_function_lowered(t, name, body);
    lemma_block_lowered(t, low, known, body.block, 0, false);
    let func = (l_function(t, name, body)->Ok_0).0;
    let (x, terminated) = l_rest(t, low, body.block, 0)->Ok_0;
    let done = closed_off(x, terminated);
    let term = Terminator::Return(None);
    assert(covers(func, done));
    if !terminated {
        lemma_end(x, term);
        assert(leads(x, done)) by {
            reveal(Low::set_term);
        }
        lemma_leads(func, x, done);
    }
    let s = (st, ProgressV::Running);
    assert(func.params == ids);
    assert(sane(r, known, env, ns));
    let held: Env = Map::empty();
    assert(set_up(p, s.0, func, low, known, env, held, ns));
    let (k, g) = lemma_block_executed(
        p,
        o,
        t,
        known,
        env,
        held,
        body.block,
        0,
        false,
        n,
        ns,
        low,
        s.0,
        func,
    );
    lemma_block_stays(r, known, env, o, body.block, 0, n);
    match run_block(r, env, o, body.block, 0, n) {
        Res::End(FlowV::Normal, _, _) => {
            let mid = with_frame(s.0, g);
            assert(func.blocks[x.current] == done.blocks[x.current]);
            lemma_machine_returns(p, o, mid, func, term, ValueV::Nil);
            lemma_frames(s.0, g, g);
            lemma_march(p, o, s, k, 1);
            k + 1
        },
        _ => k,
    }
}

/// A call of an exported function of scalars comes to the same in both machines: where it
/// ends within any number of statements, both return its value, or both fail.
pub proof fn law_scalar_calls_agree(
    m: ModuleV,
    o: Answers,
    t: Tables,
    st: St,
    p: ProgramV,
    machine: VmV,
    export: Seq<char>,
    name: Seq<char>,
    i: usize,
    body: FuncBodyV,
    args: Seq<ValueV>,
    n: nat,
)
    requires
        scalar_function(t.res, body),
        args.len() == body.params.len(),
        forall|k: int| 0 <= k < args.len() ==> is_scalar(#[trigger] args[k]),
        i < st.funcs.len(),
        st.funcs[i as int].body == body,
        st.funcs[i as int].params == param_ids_of(t.res, body.params, body.params.len()),
        get_of(st.exports, export) == Some(ValueV::Function(i)),
        get_of(p.exports, export) == Some(ExportTargetV::Function(name)),
        l_function(t, name, body) is Ok ==> get_of(p.functions, name) == Some(
            (l_function(t, name, body)->Ok_0).0,
        ),
        counting(o),
        outcome(t.res, o, body, args, n) is Some,
        linked(m, t.res, o, st),
        calls_walk(m, t.res, o),
        calls_march(p, o),
        hosted(o, machine),
        roomy(m, t.res, o, interp::started_of(m, st, export, args)),
    ensures
        l_function(t, name, body) is Ok,
        exists|j: nat, k: nat| #![trigger
            walk(m, t.res, o, interp::started_of(m, st, export, args), j),
            march(p, o, vm::call_of(p, machine, export, args), k)
        ]
            finished(
                outcome(t.res, o, body, args, n)->0,
                walk(m, t.res, o, interp::started_of(m, st, export, args), j).1,
            ) && finished(
                outcome(t.res, o, body, args, n)->0,
                march(p, o, vm::call_of(p, machine, export, args), k).1,
            ),
{
    reveal(interp::call_from_host);
    let fresh = st.fresh();
    let s = interp::started_of(m, st, export, args);
    assert(s == interp::call_value_of(fresh, ValueV::Function(i), args));
    let (j0, h) = lemma_call_walk(m, t.res, o, fresh, i, body, args, n);
    let x = outcome(t.res, o, body, args, n)->0;
    let j = match x {
        Some(v) => {
            let e = with_value(on(fresh, h), v);
            lemma_walk_one(m, t.res, o, e);
            reveal(St::done);
            lemma_walk(m, t.res, o, s, j0, 1);
            j0 + 1
        },
        None => j0,
    };
    let func = (l_function(t, name, body)->Ok_0).0;
    let low = lemma_function_lowered(t, name, body);
    let first = vm::started(machine, CodeV::Function(name), func, args);
    let mark = machine.heap.len() as usize;
    let k = lemma_call_march(p, o, t, name, body, first.0, mark, args, n);
    assert(first.1 is Running);
    assert(finished(
        outcome(t.res, o, body, args, n)->0,
        walk(m, t.res, o, interp::started_of(m, st, export, args), j).1,
    ));
    assert(finished(
        outcome(t.res, o, body, args, n)->0,
        march(p, o, vm::call_of(p, machine, export, args), k).1,
    ));
}

} // verus!
