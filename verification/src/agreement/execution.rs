//! The machine executes the code of statements as the statements say.

use vstd::prelude::*;

use super::branches::{
    apart, arrived, built, calls_march, cost, covers, hosted, is_open, jumped_to, leads,
    lemma_covers, lemma_frames, lemma_goes, lemma_leads, lemma_simple_executed,
    lemma_simple_lowered, lemma_write, stands_at,
};
use super::calls::{declaration, gives_back, l_rest, lemma_machine_returns};
use super::control::{
    arms_ok, assignment, block_ok, known_after, lemma_scalars_insert, lemma_value_agrees,
    lemma_value_scalar, range_of, run_arms, run_block, run_for, run_stat, run_while, runs_out,
    simple, stat_ok, value_of, Res,
};
use super::counting::{
    counting, counts, lemma_advance_executed, lemma_at_loop, lemma_head, lemma_head_covers,
    lemma_loop_var, lemma_prologue, lemma_prologue_executed, lemma_tail, lemma_test_executed,
    lemma_var_executed, Prologue,
};
use super::statements::{
    arm_states, arms_cost, at_header, block_cost, can_lower, for_states, if_states, lemma_arm_shape,
    lemma_arms_lowered, lemma_assign_shape, lemma_at_header, lemma_block_lowered, lemma_end,
    lemma_for_shape, lemma_if_shape, lemma_local_shape, lemma_stat_lowered, lemma_waiting,
    lemma_while_shape, not_among, stat_cost, two_blocks, waiting, while_states,
};
use super::{
    answered, has, has_failed, instrs, keeps, lemma_march, march, scalars, with_frame, Answers, Env,
};
use crate::ast::{BinOp, BlockV, ExprV, StatKindV, StatV};
use crate::interp;
use crate::interp::FlowV;
use crate::ir::lower::{
    l_arms, l_block, l_expr, l_loop_var, l_merge, l_stat, unfold_l_arms, unfold_l_block,
    unfold_l_stat, unfold_l_stats, unfold_l_while, Low, Tables,
};
use crate::ir::vm::{FrameV, ProgressV, VmV};
use crate::ir::{BlockId, FunctionV, OpV, ProgramV, Terminator};
use crate::resolve::{ResolutionV, SymbolId};
use crate::runtime::eval::RequestV;
use crate::value::{truthy, ValueV};

verus! {

/// Whether every symbol that a declaration introduces is below `ns`.
pub open spec fn tidy(r: ResolutionV, ns: nat) -> bool {
    forall|sp: crate::diagnostics::Span| #![trigger r.def_of(sp)]
        r.def_of(sp) matches Some(id) ==> id < ns
}

/// Whether every variable is below `ns`.
pub open spec fn below(env: Env, ns: nat) -> bool {
    forall|id: SymbolId| #[trigger] env.dom().contains(id) ==> id < ns
}

/// Whether what was executed kept the variables, as scalars, and did not add statements.
pub open spec fn fair(env: Env, x: Res, ns: nat, n: nat) -> bool {
    match x {
        Res::End(_, env1, left) => {
            &&& scalars(env1)
            &&& env.dom().subset_of(env1.dom())
            &&& below(env1, ns)
            &&& left <= n
        },
        _ => true,
    }
}

/// The variables of a state of execution.
pub open spec fn sane(r: ResolutionV, known: Set<SymbolId>, env: Env, ns: nat) -> bool {
    &&& known.subset_of(env.dom())
    &&& scalars(env)
    &&& tidy(r, ns)
    &&& below(env, ns)
}

proof fn lemma_insert(env: Env, id: SymbolId, v: ValueV, ns: nat)
    requires
        scalars(env),
        below(env, ns),
        super::is_scalar(v),
        id < ns,
    ensures
        scalars(env.insert(id, v)),
        below(env.insert(id, v), ns),
        env.dom().subset_of(env.insert(id, v).dom()),
{
    lemma_scalars_insert(env, id, v);
    let e = env.insert(id, v);
    assert forall|k: SymbolId| #[trigger] e.dom().contains(k) implies k < ns by {
        if k != id {
            assert(env.dom().contains(k));
        }
    }
}

proof fn lemma_stat_fair(
    r: ResolutionV,
    known: Set<SymbolId>,
    env: Env,
    o: Answers,
    s: StatV,
    looped: bool,
    n: nat,
    ns: nat,
)
    requires
        stat_ok(r, known, s, looped),
        sane(r, known, env, ns),
    ensures
        fair(env, run_stat(r, env, o, s, n), ns, n),
        run_stat(r, env, o, s, n) matches Res::End(_, env1, _) ==> known_after(
            r,
            known,
            s,
        ).subset_of(env1.dom()),
    decreases n, s, 0int,
{
    match s.kind {
        StatKindV::Local { .. } => {
            let (ident, id, e) = declaration(r, s)->0;
            lemma_value_scalar(r, known, env, o, e);
            assert(r.def_of(ident.span) == Some(id));
            match value_of(r, env, o, e) {
                Some(v) => lemma_insert(env, id, v, ns),
                None => {},
            }
        },
        StatKindV::Assign { .. } => {
            let (id, e) = assignment(r, s)->0;
            lemma_value_scalar(r, known, env, o, e);
            assert(env.dom().contains(id));
            match value_of(r, env, o, e) {
                Some(v) => lemma_insert(env, id, v, ns),
                None => {},
            }
        },
        StatKindV::Do(b) => lemma_block_fair(r, known, env, o, b, 0, looped, n, ns),
        StatKindV::While { cond, body } => lemma_while_fair(r, known, env, o, cond, body, n, ns),
        StatKindV::NumericFor { var, start, end, step, body } => {
            let id = r.def_of(var.span)->0;
            match range_of(r, env, o, start, end, step) {
                Some(Some((a, b, c))) => lemma_for_fair(
                    r,
                    known,
                    env,
                    o,
                    id,
                    a,
                    b,
                    c,
                    body,
                    n,
                    ns,
                ),
                _ => {},
            }
        },
        StatKindV::If { arms, else_block } => {
            lemma_arms_fair(r, known, env, o, arms, 0, looped, n, ns);
            match else_block {
                Some(b) => lemma_block_fair(r, known, env, o, b, 0, looped, n, ns),
                None => {},
            }
        },
        _ => {},
    }
}

proof fn lemma_block_fair(
    r: ResolutionV,
    known: Set<SymbolId>,
    env: Env,
    o: Answers,
    b: BlockV,
    i: int,
    looped: bool,
    n: nat,
    ns: nat,
)
    requires
        block_ok(r, known, b, i, looped),
        sane(r, known, env, ns),
    ensures
        fair(env, run_block(r, env, o, b, i, n), ns, n),
    decreases n, b, 0int,
{
    if 0 <= i < b.stats.len() && n > 0 {
        let s = b.stats[i];
        let n1 = (n - 1) as nat;
        lemma_stat_fair(r, known, env, o, s, looped, n1, ns);
        match run_stat(r, env, o, s, n1) {
            Res::End(FlowV::Normal, env1, left) => lemma_block_fair(
                r,
                known_after(r, known, s),
                env1,
                o,
                b,
                i + 1,
                looped,
                left,
                ns,
            ),
            _ => {},
        }
    }
}

proof fn lemma_arms_fair(
    r: ResolutionV,
    known: Set<SymbolId>,
    env: Env,
    o: Answers,
    arms: Seq<(ExprV, BlockV)>,
    i: int,
    looped: bool,
    n: nat,
    ns: nat,
)
    requires
        arms_ok(r, known, arms, i, looped),
        sane(r, known, env, ns),
    ensures
        run_arms(r, env, o, arms, i, n) matches Some(x) ==> fair(env, x, ns, n),
    decreases n, arms, arms.len() - i,
{
    if 0 <= i < arms.len() {
        lemma_block_fair(r, known, env, o, arms[i].1, 0, looped, n, ns);
        lemma_arms_fair(r, known, env, o, arms, i + 1, looped, n, ns);
    }
}

proof fn lemma_while_fair(
    r: ResolutionV,
    known: Set<SymbolId>,
    env: Env,
    o: Answers,
    cond: ExprV,
    body: BlockV,
    n: nat,
    ns: nat,
)
    requires
        block_ok(r, known, body, 0, true),
        sane(r, known, env, ns),
    ensures
        fair(env, run_while(r, env, o, cond, body, n), ns, n),
    decreases n, body, 1int,
{
    if n > 0 {
        let n1 = (n - 1) as nat;
        lemma_block_fair(r, known, env, o, body, 0, true, n1, ns);
        match run_block(r, env, o, body, 0, n1) {
            Res::End(FlowV::Normal, env1, left) => lemma_while_fair(
                r,
                known,
                env1,
                o,
                cond,
                body,
                left,
                ns,
            ),
            _ => {},
        }
    }
}

proof fn lemma_for_fair(
    r: ResolutionV,
    known: Set<SymbolId>,
    env: Env,
    o: Answers,
    id: SymbolId,
    a: u64,
    b: u64,
    c: u64,
    body: BlockV,
    n: nat,
    ns: nat,
)
    requires
        block_ok(r, known.insert(id), body, 0, true),
        sane(r, known, env, ns),
        id < ns,
    ensures
        fair(env, run_for(r, env, o, id, a, b, c, body, n), ns, n),
    decreases n, body, 1int,
{
    if n > 0 {
        let n1 = (n - 1) as nat;
        let env0 = env.insert(id, ValueV::Number(a));
        lemma_insert(env, id, ValueV::Number(a), ns);
        lemma_block_fair(r, known.insert(id), env0, o, body, 0, true, n1, ns);
        match run_block(r, env0, o, body, 0, n1) {
            Res::End(FlowV::Normal, env1, left) => {
                match answered(o, RequestV::Arith(BinOp::Add, a, c)) {
                    Some(ValueV::Number(d)) => {
                        lemma_for_fair(r, known, env1, o, id, d, b, c, body, left, ns);
                    },
                    _ => {},
                }
            },
            _ => {},
        }
    }
}

// ---- where the machine arrives --------------------------------------------------

/// Whether a march ended as `x` says: where the code of `later` ends, at the exit of the
/// innermost loop, with what the function returns, or in failure.
pub open spec fn moved(
    p: ProgramV,
    st: VmV,
    x: Res,
    s: (VmV, ProgressV),
    g: FrameV,
    low: Low,
    later: Low,
    terminated: bool,
    known: Set<SymbolId>,
    held: Env,
) -> bool {
    match x {
        Res::Out => true,
        Res::Fail => has_failed(s.1),
        Res::End(FlowV::Normal, env1, _) => {
            &&& !terminated
            &&& s == (with_frame(st, g), ProgressV::Running)
            &&& arrived(st.frames.last(), g, later.current as u32, instrs(later).len())
            &&& keeps_known(g, known, env1)
            &&& keeps(g, held)
        },
        Res::End(FlowV::Break, env1, _) => {
            &&& s == (with_frame(st, g), ProgressV::Running)
            &&& arrived(st.frames.last(), g, low.exits.last(), 0)
            &&& keeps_known(g, known, env1)
            &&& keeps(g, held)
        },
        Res::End(FlowV::Return(v), _, _) => gives_back(p, st, v, s),
    }
}

/// Whether a frame holds the variables `known` as `env` has them.
pub open spec fn keeps_known(g: FrameV, known: Set<SymbolId>, env: Env) -> bool {
    forall|id: SymbolId| #[trigger]
        known.contains(id) ==> g.locals.dom().contains(id) && g.locals[id] == env[id]
}

proof fn lemma_fewer(g: FrameV, known: Set<SymbolId>, more: Set<SymbolId>, env: Env)
    requires
        keeps_known(g, more, env),
        known.subset_of(more),
    ensures
        keeps_known(g, known, env),
{
    assert forall|id: SymbolId| #[trigger] known.contains(id) implies g.locals.dom().contains(id)
        && g.locals[id] == env[id] by {
        assert(more.contains(id));
    }
}

/// Whether `held` are temporaries of `low`, which hold scalars.
pub open spec fn held_at(held: Env, low: Low, ns: nat) -> bool {
    &&& scalars(held)
    &&& forall|id: SymbolId| #[trigger] held.dom().contains(id) ==> ns <= id < low.next_temp
    &&& ns <= low.next_temp
}

/// The machine stands where the code of `low` ends, in the only frame, with the variables
/// `known` of `env` and the temporaries `held`.
pub open spec fn set_up(
    p: ProgramV,
    st: VmV,
    f: FunctionV,
    low: Low,
    known: Set<SymbolId>,
    env: Env,
    held: Env,
    ns: nat,
) -> bool {
    &&& stands_at(p, st, f, low)
    &&& st.frames.last().code is Function
    &&& keeps_known(st.frames.last(), known, env)
    &&& keeps(st.frames.last(), held)
    &&& held_at(held, low, ns)
}

/// The variables `known` and the temporaries `held`.
pub open spec fn seen(known: Set<SymbolId>, env: Env, held: Env) -> Env {
    Map::new(
        |id: SymbolId| known.contains(id) || held.dom().contains(id),
        |id: SymbolId|
            if known.contains(id) {
                env[id]
            } else {
                held[id]
            },
    )
}

proof fn lemma_seen(
    r: ResolutionV,
    known: Set<SymbolId>,
    env: Env,
    held: Env,
    ns: nat,
    low: Low,
    g: FrameV,
)
    requires
        sane(r, known, env, ns),
        held_at(held, low, ns),
        keeps_known(g, known, env),
        keeps(g, held),
    ensures
        keeps(g, seen(known, env, held)),
        scalars(seen(known, env, held)),
        known.subset_of(seen(known, env, held).dom()),
        apart(low, seen(known, env, held)),
{
    let e = seen(known, env, held);
    assert forall|id: SymbolId| #[trigger] e.dom().contains(id) implies id < low.next_temp
        && super::is_scalar(e[id]) && g.locals.dom().contains(id) && g.locals[id] == e[id] by {
        if known.contains(id) {
            assert(env.dom().contains(id));
        } else {
            assert(held.dom().contains(id));
        }
    }
}

proof fn lemma_unseen(
    r: ResolutionV,
    known: Set<SymbolId>,
    env: Env,
    held: Env,
    ns: nat,
    low: Low,
    g: FrameV,
)
    requires
        sane(r, known, env, ns),
        held_at(held, low, ns),
        keeps(g, seen(known, env, held)),
    ensures
        keeps_known(g, known, env),
        keeps(g, held),
{
    let e = seen(known, env, held);
    assert forall|id: SymbolId| #[trigger] known.contains(id) implies g.locals.dom().contains(id)
        && g.locals[id] == env[id] by {
        assert(e.dom().contains(id));
    }
    assert forall|id: SymbolId| #[trigger] held.dom().contains(id) implies g.locals.dom().contains(
        id,
    ) && g.locals[id] == held[id] by {
        assert(e.dom().contains(id));
        if known.contains(id) {
            assert(env.dom().contains(id));
        }
    }
}

/// The machine evaluates the code of a simple expression.
proof fn lemma_expr_executed(
    p: ProgramV,
    o: Answers,
    t: Tables,
    known: Set<SymbolId>,
    env: Env,
    held: Env,
    e: ExprV,
    ns: nat,
    low: Low,
    st: VmV,
    f: FunctionV,
) -> (r: (nat, FrameV))
    requires
        hosted(o, st),
        calls_march(p, o),
        simple(t.res, known, e),
        sane(t.res, known, env, ns),
        can_lower(low, cost(e), false),
        set_up(p, st, f, low, known, env, held, ns),
        covers(f, (l_expr(t, low, e)->Ok_0).0),
        !runs_out(t.res, env, o, e),
    ensures
        ({
            let s = march(p, o, (st, ProgressV::Running), r.0);
            let (a, v) = l_expr(t, low, e)->Ok_0;
            match value_of(t.res, env, o, e) {
                Some(x) => {
                    &&& s == (with_frame(st, r.1), ProgressV::Running)
                    &&& arrived(st.frames.last(), r.1, a.current as u32, instrs(a).len())
                    &&& has(r.1, v, x)
                    &&& keeps_known(r.1, known, env)
                    &&& keeps(r.1, held)
                },
                None => has_failed(s.1),
            }
        }),
{
    let env1 = seen(known, env, held);
    lemma_seen(t.res, known, env, held, ns, low, st.frames.last());
    lemma_value_agrees(t.res, known, env1, env, o, e);
    let (k, g) = lemma_simple_executed(p, o, t, known, env1, e, low, st, f);
    if value_of(t.res, env, o, e) is Some {
        lemma_unseen(t.res, known, env, held, ns, low, g);
    }
    (k, g)
}

/// `local x = e` and `x = e`.
proof fn lemma_set_executed(
    p: ProgramV,
    o: Answers,
    t: Tables,
    known: Set<SymbolId>,
    env: Env,
    held: Env,
    s: StatV,
    id: SymbolId,
    e: ExprV,
    n: nat,
    ns: nat,
    low: Low,
    st: VmV,
    f: FunctionV,
) -> (r: (nat, FrameV))
    requires
        hosted(o, st),
        calls_march(p, o),
        s.kind is Local || s.kind is Assign,
        s.kind is Local ==> (declaration(t.res, s)->0).1 == id && (declaration(t.res, s)->0).2
            == e,
        s.kind is Assign ==> assignment(t.res, s) == Some((id, e)),
        stat_ok(t.res, known, s, true),
        sane(t.res, known, env, ns),
        can_lower(low, stat_cost(s), false),
        set_up(p, st, f, low, known, env, held, ns),
        covers(f, (l_stat(t, low, s)->Ok_0).0),
    ensures
        moved(
            p,
            st,
            run_stat(t.res, env, o, s, n),
            march(p, o, (st, ProgressV::Running), r.0),
            r.1,
            low,
            (l_stat(t, low, s)->Ok_0).0,
            (l_stat(t, low, s)->Ok_0).1,
            known_after(t.res, known, s),
            held,
        ),
{
    let start = (st, ProgressV::Running);
    if s.kind is Local {
        lemma_local_shape(t, low, known, s);
    } else {
        lemma_assign_shape(t, low, known, s);
    }
    let (a, v) = l_expr(t, low, e)->Ok_0;
    let c = a.ensure_local(t, id);
    let d = c.stmt(OpV::LocalSet(id, v));
    lemma_covers(f, a, d);
    if runs_out(t.res, env, o, e) {
        (0, st.frames.last())
    } else {
        let (k, g) = lemma_expr_executed(p, o, t, known, env, held, e, ns, low, st, f);
        match value_of(t.res, env, o, e) {
            Some(x) => {
                let mid = with_frame(st, g);
                assert(stands_at(p, mid, f, c));
                lemma_write(p, o, mid, f, c, id, v, x, Map::empty());
                let h = FrameV { pc: instrs(d).len(), locals: g.locals.insert(id, x), ..g };
                lemma_march(p, o, start, k, 1);
                lemma_frames(st, g, h);
                (k + 1, h)
            },
            None => (k, g),
        }
    }
}

/// The machine executes the code of a statement.
proof fn lemma_stat_executed(
    p: ProgramV,
    o: Answers,
    t: Tables,
    known: Set<SymbolId>,
    env: Env,
    held: Env,
    s: StatV,
    looped: bool,
    n: nat,
    ns: nat,
    low: Low,
    st: VmV,
    f: FunctionV,
) -> (r: (nat, FrameV))
    requires
        hosted(o, st),
        calls_march(p, o),
        counting(o),
        stat_ok(t.res, known, s, looped),
        sane(t.res, known, env, ns),
        can_lower(low, stat_cost(s), looped),
        set_up(p, st, f, low, known, env, held, ns),
        covers(f, (l_stat(t, low, s)->Ok_0).0),
    ensures
        moved(
            p,
            st,
            run_stat(t.res, env, o, s, n),
            march(p, o, (st, ProgressV::Running), r.0),
            r.1,
            low,
            (l_stat(t, low, s)->Ok_0).0,
            (l_stat(t, low, s)->Ok_0).1,
            known_after(t.res, known, s),
            held,
        ),
    decreases n, s, 1int,
{
    let start = (st, ProgressV::Running);
    let g0 = st.frames.last();
    unfold_l_stat(t, low, s);
    match s.kind {
        StatKindV::Empty => {
            assert(with_frame(st, g0).frames =~= st.frames);
            (0, g0)
        },
        StatKindV::Break => {
            let to = low.exits.last();
            lemma_end(low, Terminator::Jump(to));
            lemma_goes(p, o, st, f, low, low.terminate(Terminator::Jump(to)), to);
            (1, jumped_to(g0, to))
        },
        StatKindV::Local { .. } => {
            let (_, id, e) = declaration(t.res, s)->0;
            lemma_set_executed(p, o, t, known, env, held, s, id, e, n, ns, low, st, f)
        },
        StatKindV::Assign { .. } => {
            let (id, e) = assignment(t.res, s)->0;
            lemma_set_executed(p, o, t, known, env, held, s, id, e, n, ns, low, st, f)
        },
        StatKindV::Call(e) => {
            if runs_out(t.res, env, o, e) {
                (0, g0)
            } else {
                lemma_simple_lowered(t, low, known, e);
                lemma_expr_executed(p, o, t, known, env, held, e, ns, low, st, f)
            }
        },
        StatKindV::Do(b) => {
            unfold_l_block(t, low, b);
            assert(l_block(t, low, b) == l_rest(t, low, b, 0));
            lemma_block_executed(p, o, t, known, env, held, b, 0, looped, n, ns, low, st, f)
        },
        StatKindV::While { cond, body } => {
            unfold_l_while(t, low, s);
            lemma_at_header(low);
            lemma_while_shape(t, low, known, cond, body);
            let (a, header, body_b, exit) = at_header(low);
            let (h0, h1, b0, (b1, terminated), end) = while_states(t, low, cond, body);
            lemma_while_covers(t, low, known, cond, body, f);
            lemma_goes(p, o, st, f, low, h0, header);
            let g = jumped_to(g0, header);
            let mid = with_frame(st, g);
            let (k, h) = lemma_while_executed(
                p,
                o,
                t,
                known,
                env,
                held,
                cond,
                body,
                n,
                ns,
                low,
                mid,
                f,
            );
            lemma_march(p, o, start, 1, k);
            lemma_frames(st, g, h);
            (1 + k, h)
        },
        StatKindV::NumericFor { .. } => lemma_counting_executed(
            p,
            o,
            t,
            known,
            env,
            held,
            s,
            n,
            ns,
            low,
            st,
            f,
        ),
        StatKindV::If { .. } => lemma_if_executed(
            p,
            o,
            t,
            known,
            env,
            held,
            s,
            looped,
            n,
            ns,
            low,
            st,
            f,
        ),
        _ => (0, g0),
    }
}

/// The machine executes the code of a block, from statement `i` on.
pub(crate) proof fn lemma_block_executed(
    p: ProgramV,
    o: Answers,
    t: Tables,
    known: Set<SymbolId>,
    env: Env,
    held: Env,
    b: BlockV,
    i: int,
    looped: bool,
    n: nat,
    ns: nat,
    low: Low,
    st: VmV,
    f: FunctionV,
) -> (r: (nat, FrameV))
    requires
        hosted(o, st),
        calls_march(p, o),
        counting(o),
        0 <= i <= b.stats.len(),
        block_ok(t.res, known, b, i, looped),
        sane(t.res, known, env, ns),
        can_lower(low, block_cost(b, i), looped),
        set_up(p, st, f, low, known, env, held, ns),
        covers(f, (l_rest(t, low, b, i)->Ok_0).0),
    ensures
        moved(
            p,
            st,
            run_block(t.res, env, o, b, i, n),
            march(p, o, (st, ProgressV::Running), r.0),
            r.1,
            low,
            (l_rest(t, low, b, i)->Ok_0).0,
            (l_rest(t, low, b, i)->Ok_0).1,
            known,
            held,
        ),
    decreases n, b, 0int,
{
    let start = (st, ProgressV::Running);
    let g0 = st.frames.last();
    unfold_l_stats(t, low, b.stats, i);
    if i < b.stats.len() {
        if n == 0 {
            (0, g0)
        } else {
            let s = b.stats[i];
            let n1 = (n - 1) as nat;
            lemma_stat_lowered(t, low, known, s, looped);
            let (a, terminated) = l_stat(t, low, s)->Ok_0;
            let known1 = known_after(t.res, known, s);
            if !terminated {
                lemma_block_lowered(t, a, known1, b, i + 1, looped);
                lemma_covers(f, a, (l_rest(t, a, b, i + 1)->Ok_0).0);
            }
            let (k, g) = lemma_stat_executed(
                p,
                o,
                t,
                known,
                env,
                held,
                s,
                looped,
                n1,
                ns,
                low,
                st,
                f,
            );
            lemma_stat_fair(t.res, known, env, o, s, looped, n1, ns);
            match run_stat(t.res, env, o, s, n1) {
                Res::End(FlowV::Normal, env1, left) => {
                    let mid = with_frame(st, g);
                    assert(stands_at(p, mid, f, a));
                    let (j, h) = lemma_block_executed(
                        p,
                        o,
                        t,
                        known1,
                        env1,
                        held,
                        b,
                        i + 1,
                        looped,
                        left,
                        ns,
                        a,
                        mid,
                        f,
                    );
                    lemma_march(p, o, start, k, j);
                    lemma_frames(st, g, h);
                    match run_block(t.res, env1, o, b, i + 1, left) {
                        Res::End(FlowV::Return(_), _, _) => {},
                        Res::End(_, env2, _) => lemma_fewer(h, known, known1, env2),
                        _ => {},
                    }
                    (k + j, h)
                },
                Res::End(FlowV::Break, env1, left) => {
                    lemma_fewer(g, known, known1, env1);
                    (k, g)
                },
                _ => (k, g),
            }
        }
    } else {
        match b.ret {
            None => {
                assert(with_frame(st, g0).frames =~= st.frames);
                (0, g0)
            },
            Some(x) => {
                if x.exprs.len() > 0 {
                    lemma_simple_lowered(t, low, known, x.exprs[0]);
                    lemma_return_executed(p, o, t, known, env, held, x.exprs[0], ns, low, st, f)
                } else {
                    let term = Terminator::Return(None);
                    lemma_end(low, term);
                    let end = low.terminate(term);
                    assert(f.blocks[low.current] == end.blocks[low.current]);
                    lemma_machine_returns(p, o, st, f, term, ValueV::Nil);
                    (1, g0)
                }
            },
        }
    }
}

/// `return e`.
proof fn lemma_return_executed(
    p: ProgramV,
    o: Answers,
    t: Tables,
    known: Set<SymbolId>,
    env: Env,
    held: Env,
    e: ExprV,
    ns: nat,
    low: Low,
    st: VmV,
    f: FunctionV,
) -> (r: (nat, FrameV))
    requires
        hosted(o, st),
        calls_march(p, o),
        simple(t.res, known, e),
        sane(t.res, known, env, ns),
        can_lower(low, cost(e), false),
        set_up(p, st, f, low, known, env, held, ns),
        covers(
            f,
            (l_expr(t, low, e)->Ok_0).0.terminate(
                Terminator::Return(Some((l_expr(t, low, e)->Ok_0).1)),
            ),
        ),
    ensures
        ({
            let s = march(p, o, (st, ProgressV::Running), r.0);
            runs_out(t.res, env, o, e) || match value_of(t.res, env, o, e) {
                Some(v) => gives_back(p, st, v, s),
                None => has_failed(s.1),
            }
        }),
{
    let start = (st, ProgressV::Running);
    lemma_simple_lowered(t, low, known, e);
    let (a, v) = l_expr(t, low, e)->Ok_0;
    let term = Terminator::Return(Some(v));
    lemma_end(a, term);
    let end = a.terminate(term);
    lemma_covers(f, a, end);
    if runs_out(t.res, env, o, e) {
        (0, st.frames.last())
    } else {
        let (k, g) = lemma_expr_executed(p, o, t, known, env, held, e, ns, low, st, f);
        match value_of(t.res, env, o, e) {
            Some(x) => {
                let mid = with_frame(st, g);
                assert(f.blocks[a.current] == end.blocks[a.current]);
                lemma_machine_returns(p, o, mid, f, term, x);
                lemma_frames(st, g, g);
                lemma_march(p, o, start, k, 1);
                (k + 1, g)
            },
            None => (k, g),
        }
    }
}

/// The code of a loop is there.
proof fn lemma_while_covers(
    t: Tables,
    low: Low,
    known: Set<SymbolId>,
    cond: ExprV,
    body: BlockV,
    f: FunctionV,
)
    requires
        simple(t.res, known, cond),
        block_ok(t.res, known, body, 0, true),
        can_lower(low, cost(cond) + block_cost(body, 0) + 3, false),
        covers(f, while_states(t, low, cond, body).4),
    ensures
        ({
            let (h0, h1, b0, (b1, terminated), end) = while_states(t, low, cond, body);
            &&& covers(f, h0)
            &&& covers(f, h1)
            &&& covers(f, b0)
            &&& covers(f, b1)
        }),
{
    lemma_while_shape(t, low, known, cond, body);
    let (h0, h1, b0, (b1, terminated), end) = while_states(t, low, cond, body);
    assert(leads(b1, end)) by {
        assert forall|b: int| #![trigger b1.blocks[b]] 0 <= b < b1.blocks.len() implies end.blocks[b]
            == b1.blocks[b] || (b1.blocks[b].term == Terminator::Unreachable && end.blocks[b].instrs
            == b1.blocks[b].instrs) by {}
    }
    lemma_leads(f, b1, end);
    lemma_covers(f, b0, b1);
    assert(leads(h1, b0)) by {
        assert forall|b: int| #![trigger h1.blocks[b]] 0 <= b < h1.blocks.len() implies b0.blocks[b]
            == h1.blocks[b] || (h1.blocks[b].term == Terminator::Unreachable && b0.blocks[b].instrs
            == h1.blocks[b].instrs) by {}
    }
    lemma_leads(f, h1, b0);
    lemma_covers(f, h0, h1);
}

/// The machine executes the code of a loop, from its header on.
proof fn lemma_while_executed(
    p: ProgramV,
    o: Answers,
    t: Tables,
    known: Set<SymbolId>,
    env: Env,
    held: Env,
    cond: ExprV,
    body: BlockV,
    n: nat,
    ns: nat,
    low: Low,
    st: VmV,
    f: FunctionV,
) -> (r: (nat, FrameV))
    requires
        hosted(o, st),
        calls_march(p, o),
        counting(o),
        simple(t.res, known, cond),
        block_ok(t.res, known, body, 0, true),
        sane(t.res, known, env, ns),
        can_lower(low, cost(cond) + block_cost(body, 0) + 3, false),
        set_up(p, st, f, at_header(low).0, known, env, held, ns),
        ns <= low.next_temp,
        covers(f, while_states(t, low, cond, body).4),
    ensures
        moved(
            p,
            st,
            run_while(t.res, env, o, cond, body, n),
            march(p, o, (st, ProgressV::Running), r.0),
            r.1,
            low,
            while_states(t, low, cond, body).4,
            false,
            known,
            held,
        ),
        !(run_while(t.res, env, o, cond, body, n) matches Res::End(FlowV::Break, _, _)),
    decreases n, body, 1int,
{
    let start = (st, ProgressV::Running);
    let g0 = st.frames.last();
    lemma_while_shape(t, low, known, cond, body);
    lemma_at_header(low);
    lemma_while_covers(t, low, known, cond, body, f);
    let (_, header, body_b, exit) = at_header(low);
    let (h0, h1, b0, (b1, terminated), end) = while_states(t, low, cond, body);
    let c = (l_expr(t, h0, cond)->Ok_0).1;
    if runs_out(t.res, env, o, cond) {
        (0, g0)
    } else {
    let (k, g) = lemma_expr_executed(p, o, t, known, env, held, cond, ns, h0, st, f);
    match value_of(t.res, env, o, cond) {
        None => (k, g),
        Some(v) => {
            let mid = with_frame(st, g);
            let to = if truthy(v) {
                body_b
            } else {
                exit
            };
            lemma_goes(p, o, mid, f, h1, b0, to);
            let h = jumped_to(g, to);
            let next = with_frame(st, h);
            lemma_frames(st, g, h);
            lemma_march(p, o, start, k, 1);
            if !truthy(v) {
                (k + 1, h)
            } else if n == 0 {
                (0, g0)
            } else {
                let n1 = (n - 1) as nat;
                assert(stands_at(p, next, f, b0));
                let (j, q) = lemma_block_executed(
                    p,
                    o,
                    t,
                    known,
                    env,
                    held,
                    body,
                    0,
                    true,
                    n1,
                    ns,
                    b0,
                    next,
                    f,
                );
                lemma_march(p, o, start, k + 1, j);
                lemma_frames(st, h, q);
                lemma_block_fair(t.res, known, env, o, body, 0, true, n1, ns);
                match run_block(t.res, env, o, body, 0, n1) {
                    Res::End(FlowV::Normal, env1, left) => {
                        let after = with_frame(st, q);
                        lemma_goes(p, o, after, f, b1, end, header);
                        let z = jumped_to(q, header);
                        let again = with_frame(st, z);
                        lemma_frames(st, q, z);
                        lemma_march(p, o, start, k + 1 + j, 1);
                        assert(stands_at(p, again, f, h0));
                        let (i, y) = lemma_while_executed(
                            p,
                            o,
                            t,
                            known,
                            env1,
                            held,
                            cond,
                            body,
                            left,
                            ns,
                            low,
                            again,
                            f,
                        );
                        lemma_march(p, o, start, k + 1 + j + 1, i);
                        lemma_frames(st, z, y);
                        (k + 1 + j + 1 + i, y)
                    },
                    _ => (k + 1 + j, q),
                }
            }
        },
    }
    }
}

/// Where the machine is after the arms of a conditional: in a block that waits, or where
/// their code ends.
pub open spec fn left_arms(
    p: ProgramV,
    st: VmV,
    x: Option<Res>,
    s: (VmV, ProgressV),
    g: FrameV,
    i: int,
    known: Set<SymbolId>,
    env: Env,
    held: Env,
    low: Low,
    end: Low,
    falls: Seq<BlockId>,
) -> bool {
    match x {
        None => {
            &&& s == (with_frame(st, g), ProgressV::Running)
            &&& arrived(st.frames.last(), g, end.current as u32, instrs(end).len())
            &&& keeps_known(g, known, env)
            &&& keeps(g, held)
        },
        Some(Res::End(FlowV::Normal, env1, _)) => {
            &&& s == (with_frame(st, g), ProgressV::Running)
            &&& 0 <= i < falls.len()
            &&& arrived(
                st.frames.last(),
                g,
                falls[i],
                end.blocks[falls[i] as int].instrs.len(),
            )
            &&& keeps_known(g, known, env1)
            &&& keeps(g, held)
        },
        Some(y) => moved(p, st, y, s, g, low, end, false, known, held),
    }
}

/// The machine executes the code of the arms of a conditional, from `i` on.
proof fn lemma_arms_executed(
    p: ProgramV,
    o: Answers,
    t: Tables,
    known: Set<SymbolId>,
    env: Env,
    held: Env,
    arms: Seq<(ExprV, BlockV)>,
    i: int,
    acc: Seq<BlockId>,
    looped: bool,
    n: nat,
    ns: nat,
    low: Low,
    st: VmV,
    f: FunctionV,
) -> (r: (nat, FrameV, int))
    requires
        hosted(o, st),
        calls_march(p, o),
        counting(o),
        0 <= i <= arms.len(),
        arms_ok(t.res, known, arms, i, looped),
        sane(t.res, known, env, ns),
        can_lower(low, arms_cost(arms, i), looped),
        waiting(low, acc),
        not_among(low.current, acc),
        set_up(p, st, f, low, known, env, held, ns),
        covers(f, (l_arms(t, low, arms, i, acc)->Ok_0).0),
    ensures
        left_arms(
            p,
            st,
            run_arms(t.res, env, o, arms, i, n),
            march(p, o, (st, ProgressV::Running), r.0),
            r.1,
            r.2,
            known,
            env,
            held,
            low,
            (l_arms(t, low, arms, i, acc)->Ok_0).0,
            (l_arms(t, low, arms, i, acc)->Ok_0).1,
        ),
    decreases n, arms, arms.len() - i,
{
    let start = (st, ProgressV::Running);
    let g0 = st.frames.last();
    unfold_l_arms(t, low, arms, i, acc);
    if i < arms.len() {
        let arm = arms[i];
        lemma_arm_shape(t, low, known, arm, looped);
        let (a, b0, (b1, terminated), end) = arm_states(t, low, arm);
        let c = (l_expr(t, low, arm.0)->Ok_0).1;
        let (_, body_b, next_b) = two_blocks(a);
        let next = if terminated {
            acc
        } else {
            acc.push(b1.current as u32)
        };
        lemma_waits(low, end, acc, b1, terminated);
        lemma_arms_lowered(t, end, known, arms, i + 1, next, looped);
        let (last, falls) = l_arms(t, end, arms, i + 1, next)->Ok_0;
        lemma_covers(f, end, last);
        assert(covers(f, b1));
        lemma_covers(f, b0, b1);
        assert(leads(a, b0)) by {
            assert forall|b: int| #![trigger a.blocks[b]] 0 <= b < a.blocks.len() implies b0.blocks[b]
                == a.blocks[b] || (a.blocks[b].term == Terminator::Unreachable
                && b0.blocks[b].instrs == a.blocks[b].instrs) by {}
        }
        lemma_leads(f, a, b0);
        if runs_out(t.res, env, o, arm.0) {
            (0, g0, 0)
        } else {
        let (k, g) = lemma_expr_executed(p, o, t, known, env, held, arm.0, ns, low, st, f);
        match value_of(t.res, env, o, arm.0) {
            None => (k, g, 0),
            Some(v) => {
                let mid = with_frame(st, g);
                let to = if truthy(v) {
                    body_b
                } else {
                    next_b
                };
                lemma_goes(p, o, mid, f, a, b0, to);
                let h = jumped_to(g, to);
                let there = with_frame(st, h);
                lemma_frames(st, g, h);
                lemma_march(p, o, start, k, 1);
                if truthy(v) {
                    assert(stands_at(p, there, f, b0));
                    let (j, q) = lemma_block_executed(
                        p,
                        o,
                        t,
                        known,
                        env,
                        held,
                        arm.1,
                        0,
                        looped,
                        n,
                        ns,
                        b0,
                        there,
                        f,
                    );
                    lemma_march(p, o, start, k + 1, j);
                    lemma_frames(st, h, q);
                    if !terminated {
                        assert(falls[acc.len() as int] == next[acc.len() as int]);
                        assert(last.blocks[b1.current] == end.blocks[b1.current]);
                    }
                    (k + 1 + j, q, acc.len() as int)
                } else {
                    assert(stands_at(p, there, f, end));
                    let (j, q, x) = lemma_arms_executed(
                        p,
                        o,
                        t,
                        known,
                        env,
                        held,
                        arms,
                        i + 1,
                        next,
                        looped,
                        n,
                        ns,
                        end,
                        there,
                        f,
                    );
                    lemma_march(p, o, start, k + 1, j);
                    lemma_frames(st, h, q);
                    (k + 1 + j, q, x)
                }
            },
        }
        }
    } else {
        assert(with_frame(st, g0).frames =~= st.frames);
        (0, g0, 0)
    }
}

/// The blocks that wait after an arm.
proof fn lemma_waits(low: Low, end: Low, acc: Seq<BlockId>, b1: Low, terminated: bool)
    requires
        built(low, end),
        waiting(low, acc),
        not_among(low.current, acc),
        b1.blocks == end.blocks,
        0 <= b1.current < b1.blocks.len(),
        b1.current <= u32::MAX,
        b1.current != end.current,
        !terminated ==> is_open(b1),
    ensures
        ({
            let next = if terminated {
                acc
            } else {
                acc.push(b1.current as u32)
            };
            waiting(end, next) && not_among(end.current, next)
        }),
{
    lemma_waiting(low, end, acc);
    let next = if terminated {
        acc
    } else {
        acc.push(b1.current as u32)
    };
    assert forall|k: int| #![trigger next[k]] 0 <= k < next.len() implies next[k]
        < end.blocks.len() && end.blocks[next[k] as int].term == Terminator::Unreachable by {
        if k < acc.len() {
            assert(next[k] == acc[k]);
        }
    }
    assert forall|k: int| 0 <= k < next.len() implies end.current != #[trigger] next[k] by {
        if k < acc.len() {
            assert(next[k] == acc[k]);
        }
    }
}

/// The machine executes the code of a conditional.
proof fn lemma_if_executed(
    p: ProgramV,
    o: Answers,
    t: Tables,
    known: Set<SymbolId>,
    env: Env,
    held: Env,
    s: StatV,
    looped: bool,
    n: nat,
    ns: nat,
    low: Low,
    st: VmV,
    f: FunctionV,
) -> (r: (nat, FrameV))
    requires
        hosted(o, st),
        calls_march(p, o),
        counting(o),
        s.kind is If,
        stat_ok(t.res, known, s, looped),
        sane(t.res, known, env, ns),
        can_lower(low, stat_cost(s), looped),
        set_up(p, st, f, low, known, env, held, ns),
        covers(f, (l_stat(t, low, s)->Ok_0).0),
    ensures
        moved(
            p,
            st,
            run_stat(t.res, env, o, s, n),
            march(p, o, (st, ProgressV::Running), r.0),
            r.1,
            low,
            (l_stat(t, low, s)->Ok_0).0,
            (l_stat(t, low, s)->Ok_0).1,
            known_after(t.res, known, s),
            held,
        ),
    decreases n, s, 0int,
{
    let start = (st, ProgressV::Running);
    let (arms, else_block) = (s.kind->If_arms, s.kind->If_else_block);
    let empty = Seq::<BlockId>::empty();
    lemma_if_shape(t, low, known, s, looped);
    let (a, falls, (b, terminated), bs) = if_states(t, low, arms, else_block);
    let (d, ended) = l_merge(b, bs);
    if bs.len() > 0 {
        assert(leads(b, d)) by {
            assert forall|i: int| #![trigger b.blocks[i]] 0 <= i < b.blocks.len() implies d.blocks[i]
                == b.blocks[i] || (b.blocks[i].term == Terminator::Unreachable && d.blocks[i].instrs
                == b.blocks[i].instrs) by {
                assert(d.blocks[i].instrs == b.blocks[i].instrs);
            }
        }
        lemma_leads(f, b, d);
    }
    lemma_covers(f, a, b);
    lemma_waiting(a, b, falls);
    let merge = b.blocks.len() as u32;
    let (k, g, x) = lemma_arms_executed(
        p,
        o,
        t,
        known,
        env,
        held,
        arms,
        0,
        empty,
        looped,
        n,
        ns,
        low,
        st,
        f,
    );
    match run_arms(t.res, env, o, arms, 0, n) {
        Some(Res::End(FlowV::Normal, env1, _)) => {
            let mid = with_frame(st, g);
            assert(bs[x] == falls[x]);
            let at = Low { current: bs[x] as int, ..b };
            assert(d.blocks[at.current].instrs == b.blocks[at.current].instrs);
            lemma_goes(p, o, mid, f, at, d, merge);
            let h = jumped_to(g, merge);
            lemma_frames(st, g, h);
            lemma_march(p, o, start, k, 1);
            (k + 1, h)
        },
        Some(_) => (k, g),
        None => {
            let mid = with_frame(st, g);
            let (j, h) = match else_block {
                Some(eb) => {
                    assert(stands_at(p, mid, f, a));
                    lemma_block_executed(
                        p,
                        o,
                        t,
                        known,
                        env,
                        held,
                        eb,
                        0,
                        looped,
                        n,
                        ns,
                        a,
                        mid,
                        f,
                    )
                },
                None => {
                    assert(with_frame(mid, g).frames =~= mid.frames);
                    (0nat, g)
                },
            };
            let x = match else_block {
                Some(eb) => run_block(t.res, env, o, eb, 0, n),
                None => Res::End(FlowV::Normal, env, n),
            };
            lemma_march(p, o, start, k, j);
            lemma_frames(st, g, h);
            match x {
                Res::End(FlowV::Normal, env1, _) => {
                    let there = with_frame(st, h);
                    assert(bs[falls.len() as int] == b.current);
                    assert(d.blocks[b.current].instrs == b.blocks[b.current].instrs);
                    lemma_goes(p, o, there, f, b, d, merge);
                    let q = jumped_to(h, merge);
                    lemma_frames(st, h, q);
                    lemma_march(p, o, start, k + j, 1);
                    (k + j + 1, q)
                },
                _ => (k + j, h),
            }
        },
    }
}

/// The code of a counting loop is there.
proof fn lemma_for_covers(t: Tables, low: Low, known: Set<SymbolId>, s: StatV, f: FunctionV)
    requires
        s.kind is NumericFor,
        stat_ok(t.res, known, s, true),
        can_lower(low, stat_cost(s), false),
        covers(f, for_states(t, low, s).4.end),
    ensures
        ({
            let (pr, hd, b0, (b1, terminated), tl) = for_states(t, low, s);
            &&& covers(f, pr.s7)
            &&& covers(f, hd.a0)
            &&& covers(f, hd.b0)
            &&& covers(
                f,
                l_loop_var(
                    t,
                    hd.b0,
                    t.res.def_of(s.kind->NumericFor_var.span)->0,
                    pr.counter,
                ),
            )
            &&& covers(f, b0)
            &&& covers(f, b1)
            &&& covers(f, tl.l0)
        }),
{
    let id = t.res.def_of(s.kind->NumericFor_var.span)->0;
    let (pr, hd, b0, (b1, terminated), tl) = for_states(t, low, s);
    lemma_for_shape(t, low, known, s);
    lemma_tail(pr.s7, b1, terminated, pr.counter, pr.step_l, hd.x);
    lemma_head(pr.s7, pr.counter, pr.end_l, pr.step_l);
    lemma_at_loop(pr.s7);
    lemma_loop_var(t, hd.b0, id, pr.counter);
    lemma_leads(f, tl.l2, tl.end);
    lemma_covers(f, tl.l1, tl.l2);
    lemma_covers(f, tl.l0, tl.l1);
    lemma_leads(f, b1, tl.l0);
    lemma_covers(f, b0, b1);
    let bv = l_loop_var(t, hd.b0, id, pr.counter);
    assert(covers(f, bv));
    lemma_covers(f, hd.b0, bv);
    lemma_covers(f, pr.s7, hd.b0);
    lemma_head_covers(pr.s7, pr.counter, pr.end_l, pr.step_l, f);
}

/// The machine executes the code of a counting loop.
proof fn lemma_counting_executed(
    p: ProgramV,
    o: Answers,
    t: Tables,
    known: Set<SymbolId>,
    env: Env,
    held: Env,
    s: StatV,
    n: nat,
    ns: nat,
    low: Low,
    st: VmV,
    f: FunctionV,
) -> (r: (nat, FrameV))
    requires
        hosted(o, st),
        calls_march(p, o),
        counting(o),
        s.kind is NumericFor,
        stat_ok(t.res, known, s, true),
        sane(t.res, known, env, ns),
        can_lower(low, stat_cost(s), false),
        set_up(p, st, f, low, known, env, held, ns),
        covers(f, (l_stat(t, low, s)->Ok_0).0),
    ensures
        moved(
            p,
            st,
            run_stat(t.res, env, o, s, n),
            march(p, o, (st, ProgressV::Running), r.0),
            r.1,
            low,
            (l_stat(t, low, s)->Ok_0).0,
            (l_stat(t, low, s)->Ok_0).1,
            known_after(t.res, known, s),
            held,
        ),
    decreases n, s, 0int,
{
    let start = (st, ProgressV::Running);
    let id = t.res.def_of(s.kind->NumericFor_var.span)->0;
    let (from, to, step, body) = (
        s.kind->NumericFor_start,
        s.kind->NumericFor_end,
        s.kind->NumericFor_step,
        s.kind->NumericFor_body,
    );
    let (pr, hd, b0, (b1, terminated), tl) = for_states(t, low, s);
    lemma_for_shape(t, low, known, s);
    lemma_for_covers(t, low, known, s, f);
    lemma_at_loop(pr.s7);
    lemma_prologue(t, low, known, id, from, to, step);
    let env1 = seen(known, env, held);
    lemma_seen(t.res, known, env, held, ns, low, st.frames.last());
    lemma_range_agrees(t.res, known, env1, env, o, from, to, step);
    let (k, g) = lemma_prologue_executed(
        p,
        o,
        t,
        known,
        env1,
        id,
        from,
        to,
        step,
        low,
        st,
        f,
    );
    match range_of(t.res, env, o, from, to, step) {
        Some(Some((a, b, c))) => {
            let held1 = holding(held, pr.end_l, pr.step_l, pr.counter, a, b, c);
            let mid = with_frame(st, g);
            let header = hd.x.header;
            lemma_goes(p, o, mid, f, pr.s7, hd.a0, header);
            let h = jumped_to(g, header);
            lemma_march(p, o, start, k, 1);
            lemma_frames(st, g, h);
            lemma_begun(t.res, known, env, held, ns, low, a, b, c, pr, g);
            lemma_hold(held, low, ns, a, b, c, pr);
            let next = with_frame(st, h);
            let (j, q) = lemma_for_executed(
                p,
                o,
                t,
                known,
                env,
                held,
                s,
                a,
                b,
                c,
                n,
                ns,
                low,
                next,
                f,
            );
            lemma_march(p, o, start, k + 1, j);
            lemma_frames(st, h, q);
            (k + 1 + j, q)
        },
        _ => (k, g),
    }
}

/// Whether what is held in `a` is held in `b`.
pub open spec fn held_in(a: Env, b: Env) -> bool {
    forall|id: SymbolId| #[trigger] a.dom().contains(id) ==> b.dom().contains(id) && b[id] == a[id]
}

/// The start, bound and step depend on the variables that they may name.
proof fn lemma_range_agrees(
    r: ResolutionV,
    known: Set<SymbolId>,
    a: Env,
    b: Env,
    o: Answers,
    start: ExprV,
    end: ExprV,
    step: Option<ExprV>,
)
    requires
        simple(r, known, start),
        simple(r, known, end),
        step matches Some(e) ==> simple(r, known, e),
        forall|id: SymbolId| #[trigger] known.contains(id) ==> a[id] == b[id],
    ensures
        range_of(r, a, o, start, end, step) == range_of(r, b, o, start, end, step),
{
    lemma_value_agrees(r, known, a, b, o, start);
    lemma_value_agrees(r, known, a, b, o, end);
    match step {
        Some(e) => lemma_value_agrees(r, known, a, b, o, e),
        None => {},
    }
}

/// What is held in a counting loop: bound, step and counter.
pub open spec fn holding(
    held: Env,
    end_l: SymbolId,
    step_l: SymbolId,
    counter: SymbolId,
    a: u64,
    b: u64,
    c: u64,
) -> Env {
    held.insert(end_l, ValueV::Number(b)).insert(step_l, ValueV::Number(c)).insert(
        counter,
        ValueV::Number(a),
    )
}

/// Whether the temporaries of a counting loop come after those of `low`.
pub open spec fn placed_after(low: Low, pr: Prologue) -> bool {
    low.next_temp <= pr.end_l < pr.step_l < pr.counter < pr.s7.next_temp
}

proof fn lemma_hold(held: Env, low: Low, ns: nat, a: u64, b: u64, c: u64, pr: Prologue)
    requires
        held_at(held, low, ns),
        placed_after(low, pr),
    ensures
        ({
            let held1 = holding(held, pr.end_l, pr.step_l, pr.counter, a, b, c);
            &&& held_at(held1, pr.s7, ns)
            &&& counts(held1, pr.end_l, b)
            &&& counts(held1, pr.step_l, c)
            &&& counts(held1, pr.counter, a)
            &&& held_in(held, held1)
        }),
{
    let held0 = held.insert(pr.end_l, ValueV::Number(b));
    let held2 = held0.insert(pr.step_l, ValueV::Number(c));
    let held1 = held2.insert(pr.counter, ValueV::Number(a));
    lemma_scalars_insert(held, pr.end_l, ValueV::Number(b));
    lemma_scalars_insert(held0, pr.step_l, ValueV::Number(c));
    lemma_scalars_insert(held2, pr.counter, ValueV::Number(a));
    assert forall|id: SymbolId| #[trigger] held1.dom().contains(id) implies ns <= id
        < pr.s7.next_temp by {
        if id != pr.end_l && id != pr.step_l && id != pr.counter {
            assert(held.dom().contains(id));
        }
    }
}

/// What a frame holds when a counting loop begins.
proof fn lemma_begun(
    r: ResolutionV,
    known: Set<SymbolId>,
    env: Env,
    held: Env,
    ns: nat,
    low: Low,
    a: u64,
    b: u64,
    c: u64,
    pr: Prologue,
    g: FrameV,
)
    requires
        sane(r, known, env, ns),
        held_at(held, low, ns),
        placed_after(low, pr),
        keeps(
            g,
            holding(seen(known, env, held), pr.end_l, pr.step_l, pr.counter, a, b, c),
        ),
    ensures
        keeps_known(g, known, env),
        keeps(g, holding(held, pr.end_l, pr.step_l, pr.counter, a, b, c)),
{
    let e = holding(seen(known, env, held), pr.end_l, pr.step_l, pr.counter, a, b, c);
    let held1 = holding(held, pr.end_l, pr.step_l, pr.counter, a, b, c);
    assert forall|i: SymbolId| #[trigger] known.contains(i) implies g.locals.dom().contains(i)
        && g.locals[i] == env[i] by {
        assert(env.dom().contains(i));
        assert(e.dom().contains(i));
    }
    assert forall|i: SymbolId| #[trigger] held1.dom().contains(i) implies g.locals.dom().contains(i)
        && g.locals[i] == held1[i] by {
        assert(e.dom().contains(i));
        if i != pr.end_l && i != pr.step_l && i != pr.counter {
            assert(held.dom().contains(i));
            if known.contains(i) {
                assert(env.dom().contains(i));
            }
        }
    }
}

/// The machine executes the passes of a counting loop, from its header on.
proof fn lemma_for_executed(
    p: ProgramV,
    o: Answers,
    t: Tables,
    known: Set<SymbolId>,
    env: Env,
    held: Env,
    s: StatV,
    a: u64,
    b: u64,
    c: u64,
    n: nat,
    ns: nat,
    low: Low,
    st: VmV,
    f: FunctionV,
) -> (r: (nat, FrameV))
    requires
        hosted(o, st),
        calls_march(p, o),
        counting(o),
        s.kind is NumericFor,
        stat_ok(t.res, known, s, true),
        sane(t.res, known, env, ns),
        can_lower(low, stat_cost(s), false),
        covers(f, for_states(t, low, s).4.end),
        stands_at(p, st, f, for_states(t, low, s).1.a0),
        st.frames.len() > 0,
        st.frames.last().code is Function,
        held_at(held, low, ns),
        ({
            let pr = for_states(t, low, s).0;
            let held1 = holding(held, pr.end_l, pr.step_l, pr.counter, a, b, c);
            &&& keeps_known(st.frames.last(), known, env)
            &&& keeps(st.frames.last(), held1)
        }),
    ensures
        ({
            let id = t.res.def_of(s.kind->NumericFor_var.span)->0;
            let x = run_for(t.res, env, o, id, a, b, c, s.kind->NumericFor_body, n);
            &&& moved(
                p,
                st,
                x,
                march(p, o, (st, ProgressV::Running), r.0),
                r.1,
                low,
                for_states(t, low, s).4.end,
                false,
                known,
                held,
            )
            &&& !(x matches Res::End(FlowV::Break, _, _))
        }),
    decreases n, s.kind->NumericFor_body, 1int,
{
    let start = (st, ProgressV::Running);
    let g0 = st.frames.last();
    let id = t.res.def_of(s.kind->NumericFor_var.span)->0;
    let body = s.kind->NumericFor_body;
    let (pr, hd, b0, (b1, terminated), tl) = for_states(t, low, s);
    let x = hd.x;
    assert(id < ns);
    lemma_for_shape(t, low, known, s);
    lemma_for_covers(t, low, known, s, f);
    lemma_prologue(
        t,
        low,
        known,
        id,
        s.kind->NumericFor_start,
        s.kind->NumericFor_end,
        s.kind->NumericFor_step,
    );
    lemma_at_loop(pr.s7);
    lemma_head(pr.s7, pr.counter, pr.end_l, pr.step_l);
    lemma_tail(pr.s7, b1, terminated, pr.counter, pr.step_l, x);
    let held1 = holding(held, pr.end_l, pr.step_l, pr.counter, a, b, c);
    lemma_hold(held, low, ns, a, b, c, pr);
    let v = ValueV::Number(a);
    let lenv = seen(known, env, held1);
    lemma_seen(t.res, known, env, held1, ns, pr.s7, g0);
    lemma_seen_held(t.res, known, env, held1, ns, pr.s7);
    let (k, g) = lemma_test_executed(
        p,
        o,
        lenv,
        pr.counter,
        pr.end_l,
        pr.step_l,
        a,
        b,
        c,
        pr.s7,
        st,
        f,
    );
    lemma_unseen(t.res, known, env, held1, ns, pr.s7, g);
    if !interp::goes_on(a, b, c) {
        lemma_less(g, held, held1);
        (k, g)
    } else if n == 0 {
        (0, g0)
    } else {
        let n1 = (n - 1) as nat;
        let env0 = env.insert(id, v);
        let known0 = known.insert(id);
        lemma_insert(env, id, v, ns);
        let mid = with_frame(st, g);
        assert(stands_at(p, mid, f, hd.b0));
        let (k1, h) = lemma_var_executed(p, o, t, lenv, id, pr.counter, a, hd.b0, mid, f);
        lemma_march(p, o, start, k, k1);
        lemma_frames(st, g, h);
        lemma_var_seen(t.res, known, env, held1, ns, pr.s7, id, v, h);
        let there = with_frame(st, h);
        lemma_loop_var(t, hd.b0, id, pr.counter);
        assert(stands_at(p, there, f, b0));
        let (j, q) = lemma_block_executed(
            p,
            o,
            t,
            known0,
            env0,
            held1,
            body,
            0,
            true,
            n1,
            ns,
            b0,
            there,
            f,
        );
        lemma_march(p, o, start, k + k1, j);
        lemma_frames(st, h, q);
        lemma_block_fair(t.res, known0, env0, o, body, 0, true, n1, ns);
        match run_block(t.res, env0, o, body, 0, n1) {
            Res::End(FlowV::Normal, env1, left) => {
                if left < n {
                    let after = with_frame(st, q);
                    lemma_goes(p, o, after, f, b1, tl.l0, x.latch);
                    let z = jumped_to(q, x.latch);
                    lemma_march(p, o, start, k + k1 + j, 1);
                    lemma_frames(st, q, z);
                    lemma_fewer(z, known, known0, env1);
                    let latched = with_frame(st, z);
                    assert(stands_at(p, latched, f, tl.l0));
                    let lenv1 = seen(known, env1, held1);
                    lemma_seen(t.res, known, env1, held1, ns, pr.s7, z);
                    lemma_seen_held(t.res, known, env1, held1, ns, pr.s7);
                    let (i, y) = lemma_advance_executed(
                        p,
                        o,
                        lenv1,
                        pr.counter,
                        pr.step_l,
                        a,
                        c,
                        tl,
                        x,
                        latched,
                        f,
                    );
                    lemma_march(p, o, start, k + k1 + j + 1, i);
                    lemma_frames(st, z, y);
                    match answered(o, RequestV::Arith(BinOp::Add, a, c)) {
                        Some(ValueV::Number(d)) => {
                            let w = ValueV::Number(d);
                            let held2 = holding(held, pr.end_l, pr.step_l, pr.counter, d, b, c);
                            lemma_hold(held, low, ns, d, b, c, pr);
                            assert(held2 =~= held1.insert(pr.counter, w));
                            assert(held2.dom() =~= held1.dom());
                            assert(keeps(y, seen(known, env1, held2))) by {
                                lemma_recounted(
                                    t.res,
                                    known,
                                    env1,
                                    held1,
                                    held2,
                                    ns,
                                    pr.s7,
                                    pr.counter,
                                    w,
                                );
                            }
                            lemma_unseen(t.res, known, env1, held2, ns, pr.s7, y);
                            let again = with_frame(st, y);
                            assert(stands_at(p, again, f, hd.a0));
                            let (l, last) = lemma_for_executed(
                                p,
                                o,
                                t,
                                known,
                                env1,
                                held,
                                s,
                                d,
                                b,
                                c,
                                left,
                                ns,
                                low,
                                again,
                                f,
                            );
                            lemma_march(p, o, start, k + k1 + j + 1 + i, l);
                            lemma_frames(st, y, last);
                            (k + k1 + j + 1 + i + l, last)
                        },
                        _ => (k + k1 + j + 1 + i, y),
                    }
                } else {
                    (0, g0)
                }
            },
            Res::End(FlowV::Break, env1, left) => {
                lemma_fewer(q, known, known0, env1);
                lemma_less(q, held, held1);
                (k + k1 + j, q)
            },
            _ => (k + k1 + j, q),
        }
    }
}

proof fn lemma_less(g: FrameV, held: Env, more: Env)
    requires
        keeps(g, more),
        held_in(held, more),
    ensures
        keeps(g, held),
{
    assert forall|id: SymbolId| #[trigger] held.dom().contains(id) implies g.locals.dom().contains(
        id,
    ) && g.locals[id] == held[id] by {
        assert(more.dom().contains(id));
    }
}

/// What is held is seen.
proof fn lemma_seen_held(
    r: ResolutionV,
    known: Set<SymbolId>,
    env: Env,
    held: Env,
    ns: nat,
    low: Low,
)
    requires
        sane(r, known, env, ns),
        held_at(held, low, ns),
    ensures
        held_in(held, seen(known, env, held)),
{
    let e = seen(known, env, held);
    assert forall|i: SymbolId| #[trigger] held.dom().contains(i) implies e.dom().contains(i) && e[i]
        == held[i] by {
        if known.contains(i) {
            assert(env.dom().contains(i));
        }
    }
}

/// What is seen after the loop variable took its value.
proof fn lemma_var_seen(
    r: ResolutionV,
    known: Set<SymbolId>,
    env: Env,
    held: Env,
    ns: nat,
    low: Low,
    id: SymbolId,
    v: ValueV,
    g: FrameV,
)
    requires
        sane(r, known, env, ns),
        held_at(held, low, ns),
        id < ns,
        keeps(g, seen(known, env, held).insert(id, v)),
    ensures
        keeps_known(g, known.insert(id), env.insert(id, v)),
        keeps(g, held),
{
    let e = seen(known, env, held).insert(id, v);
    assert(e.dom().contains(id));
    assert forall|i: SymbolId| #[trigger] known.insert(id).contains(i) implies
        g.locals.dom().contains(i) && g.locals[i] == env.insert(id, v)[i] by {
        assert(e.dom().contains(i));
    }
    assert forall|i: SymbolId| #[trigger] held.dom().contains(i) implies g.locals.dom().contains(i)
        && g.locals[i] == held[i] by {
        assert(e.dom().contains(i));
        if known.contains(i) {
            assert(env.dom().contains(i));
        }
    }
}

/// What is seen after the counter was advanced.
proof fn lemma_recounted(
    r: ResolutionV,
    known: Set<SymbolId>,
    env: Env,
    held: Env,
    held2: Env,
    ns: nat,
    low: Low,
    counter: SymbolId,
    v: ValueV,
)
    requires
        sane(r, known, env, ns),
        held_at(held, low, ns),
        held.dom().contains(counter),
        held2.dom() == held.dom(),
        held2 == held.insert(counter, v),
    ensures
        seen(known, env, held2) == seen(known, env, held).insert(counter, v),
{
    if known.contains(counter) {
        assert(env.dom().contains(counter));
    }
    assert(seen(known, env, held2) =~= seen(known, env, held).insert(counter, v));
}

} // verus!
