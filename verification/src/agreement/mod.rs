//! The two machines that run a script agree on expressions: the tree-walking interpreter and
//! the machine of the intermediate representation, on what the expression is lowered to.
//!
//! Both stop where a number has to be computed and go on with the answer; the answers are
//! taken to be the same for both.

pub mod branches;
pub mod calls;
pub mod compiled;
pub mod control;
pub mod counting;
pub mod emitted;
pub mod execution;
pub mod functions;
pub mod handles;
pub mod modules;
pub mod native;
pub mod statements;
pub mod walks;

use vstd::prelude::*;
use vstd::utf8::encode_utf8;

use crate::ast::{BinOp, ExprKindV, ExprV, ModuleV, UnOp};
use crate::interp;
use crate::interp::{CtrlV, KontV, St, Stepped};
use crate::ir::lower::{l_expr, l_name, unfold_l_expr, Low, Tables};
use crate::ir::vm;
use crate::ir::vm::{satisfies, FrameV, ProgressV, VmV};
use crate::ir::{FunctionV, InstrV, OpV, ProgramV, ValueId};
use crate::number::negated;
use crate::resolve::{BindingV, ResolutionV, SymbolId};
use crate::runtime::eval::{answer_of, ReplyV, RequestV};
use crate::value::{array_at, compared, same_value, truthy, ValueV};

verus! {

/// What runs of a module rest on: what the host answers to each request, which host functions
/// there are, and what is known of calls of script functions with scalars. Of a call nothing may
/// be known, or that it fails, or what it returns.
pub ghost struct Answers {
    pub reply: spec_fn(RequestV) -> ReplyV,
    pub hosts: spec_fn(Seq<char>) -> bool,
    pub calls: spec_fn(Seq<char>, Seq<ValueV>) -> Option<Option<ValueV>>,
}

/// What the local variables hold.
pub type Env = Map<SymbolId, ValueV>;

/// Whether a value refers to no object.
pub open spec fn is_scalar(v: ValueV) -> bool {
    v is Nil || v is Bool || v is Number || v is Str
}

/// Whether all variables hold scalars.
pub open spec fn scalars(env: Env) -> bool {
    forall|id: SymbolId| #[trigger] env.dom().contains(id) ==> is_scalar(env[id])
}

/// Whether an expression consists of literals, the variables `known`, and operators that
/// evaluate all their operands.
pub open spec fn plain(r: ResolutionV, known: Set<SymbolId>, e: ExprV) -> bool
    decreases e,
{
    match e.kind {
        ExprKindV::Nil | ExprKindV::Bool(_) | ExprKindV::Number(_) | ExprKindV::Str(_) => true,
        ExprKindV::Paren(i) => plain(r, known, *i),
        ExprKindV::Name(_) => r.binding_of(e.span) matches Some(BindingV::Local(id))
            && known.contains(id),
        ExprKindV::Unary { op, operand } => plain(r, known, *operand),
        ExprKindV::Binary { op, lhs, rhs } => op != BinOp::And && op != BinOp::Or && plain(
            r,
            known,
            *lhs,
        ) && plain(r, known, *rhs),
        _ => false,
    }
}

/// The number of operations in an expression.
pub open spec fn size(e: ExprV) -> nat
    decreases e,
{
    match e.kind {
        ExprKindV::Paren(i) => size(*i),
        ExprKindV::Unary { op, operand } => size(*operand) + 1,
        ExprKindV::Binary { op, lhs, rhs } => size(*lhs) + size(*rhs) + 1,
        _ => 1,
    }
}

/// What an answer comes to.
pub open spec fn answered(o: Answers, q: RequestV) -> Option<ValueV> {
    match answer_of(q, (o.reply)(q)) {
        Ok(v) => Some(v),
        Err(_) => None,
    }
}

/// A unary operator on a scalar.
pub open spec fn unary_meaning(o: Answers, op: UnOp, v: ValueV) -> Option<ValueV> {
    match op {
        UnOp::Neg => match v {
            ValueV::Number(b) => Some(ValueV::Number(negated(b))),
            _ => None,
        },
        UnOp::Not => Some(ValueV::Bool(!truthy(v))),
        UnOp::Len => match v {
            ValueV::Str(s) => answered(o, RequestV::Count(encode_utf8(s).len() as u64)),
            _ => None,
        },
    }
}

/// A binary operator on scalars.
pub open spec fn binary_meaning(o: Answers, op: BinOp, l: ValueV, r: ValueV) -> Option<ValueV> {
    match op {
        BinOp::Add | BinOp::Sub | BinOp::Mul | BinOp::Div | BinOp::FloorDiv | BinOp::Mod
        | BinOp::Pow => match (l, r) {
            (ValueV::Number(a), ValueV::Number(b)) => answered(o, RequestV::Arith(op, a, b)),
            _ => None,
        },
        BinOp::Concat => match (l, r) {
            (ValueV::Str(a), ValueV::Str(b)) => Some(ValueV::Str(a + b)),
            _ => None,
        },
        BinOp::Lt | BinOp::Le | BinOp::Gt | BinOp::Ge => match compared(l, r) {
            Ok(x) => Some(ValueV::Bool(satisfies(op, x))),
            Err(_) => None,
        },
        BinOp::Eq => Some(ValueV::Bool(same_value(l, r))),
        BinOp::Ne => Some(ValueV::Bool(!same_value(l, r))),
        _ => None,
    }
}

/// The value of a plain expression; none if its evaluation fails.
pub open spec fn meaning(r: ResolutionV, env: Env, o: Answers, e: ExprV) -> Option<ValueV>
    decreases e,
{
    match e.kind {
        ExprKindV::Nil => Some(ValueV::Nil),
        ExprKindV::Bool(b) => Some(ValueV::Bool(b)),
        ExprKindV::Number(n) => answered(o, RequestV::Numeral(n)),
        ExprKindV::Str(s) => Some(ValueV::Str(s)),
        ExprKindV::Paren(i) => meaning(r, env, o, *i),
        ExprKindV::Name(_) => match r.binding_of(e.span) {
            Some(BindingV::Local(id)) => Some(env[id]),
            _ => None,
        },
        ExprKindV::Unary { op, operand } => match meaning(r, env, o, *operand) {
            Some(v) => unary_meaning(o, op, v),
            None => None,
        },
        ExprKindV::Binary { op, lhs, rhs } => match meaning(r, env, o, *lhs) {
            Some(a) => match meaning(r, env, o, *rhs) {
                Some(b) => binary_meaning(o, op, a, b),
                None => None,
            },
            None => None,
        },
        _ => None,
    }
}

/// A plain expression comes to a scalar.
proof fn lemma_scalar(r: ResolutionV, env: Env, o: Answers, e: ExprV)
    requires
        plain(r, env.dom(), e),
        scalars(env),
    ensures
        meaning(r, env, o, e) matches Some(v) ==> is_scalar(v),
    decreases e,
{
    match e.kind {
        ExprKindV::Paren(i) => lemma_scalar(r, env, o, *i),
        ExprKindV::Unary { op, operand } => lemma_scalar(r, env, o, *operand),
        ExprKindV::Binary { op, lhs, rhs } => {
            lemma_scalar(r, env, o, *lhs);
            lemma_scalar(r, env, o, *rhs);
        },
        _ => {},
    }
}

// ---- the interpreter ----------------------------------------------------------

/// The interpreter after `n` steps and answers.
pub open spec fn walk(m: ModuleV, r: ResolutionV, o: Answers, s: Stepped, n: nat) -> Stepped
    decreases n,
{
    if n == 0 {
        s
    } else {
        match s.1 {
            ProgressV::Done(_) => s,
            ProgressV::Ask => walk(
                m,
                r,
                o,
                interp::resume_of(s.0, (o.reply)(s.0.wait->0)),
                (n - 1) as nat,
            ),
            ProgressV::Running => walk(m, r, o, interp::step_of(m, r, s.0), (n - 1) as nat),
        }
    }
}

proof fn lemma_walk(m: ModuleV, r: ResolutionV, o: Answers, s: Stepped, a: nat, b: nat)
    ensures
        walk(m, r, o, s, a + b) == walk(m, r, o, walk(m, r, o, s, a), b),
    decreases a,
{
    if a > 0 {
        match s.1 {
            ProgressV::Done(_) => {
                lemma_walk_done(m, r, o, s, b);
            },
            ProgressV::Ask => lemma_walk(
                m,
                r,
                o,
                interp::resume_of(s.0, (o.reply)(s.0.wait->0)),
                (a - 1) as nat,
                b,
            ),
            ProgressV::Running => lemma_walk(
                m,
                r,
                o,
                interp::step_of(m, r, s.0),
                (a - 1) as nat,
                b,
            ),
        }
    }
}

proof fn lemma_walk_done(m: ModuleV, r: ResolutionV, o: Answers, s: Stepped, n: nat)
    requires
        s.1 is Done,
    ensures
        walk(m, r, o, s, n) == s,
{
}

/// Whether the interpreter has failed.
pub open spec fn has_failed(p: ProgressV) -> bool {
    p matches ProgressV::Done(Err(_))
}

/// Whether a state holds the variables of `env`.
pub open spec fn holds(st: St, env: Env) -> bool {
    forall|id: SymbolId| #[trigger] env.dom().contains(id) ==> st.lookup(id) == Some(env[id])
}

/// Where the interpreter is once `e` has come to `v`.
pub open spec fn with_value(st: St, v: ValueV) -> St {
    St { ctrl: Some(CtrlV::Have(v)), ..st }
}

/// Whether a walk from `st` ended as `v` says: with the value, or in failure.
spec fn ended(st: St, v: Option<ValueV>, s: Stepped) -> bool {
    match v {
        Some(x) => s == (with_value(st, x), ProgressV::Running),
        None => has_failed(s.1),
    }
}

/// A request in the middle of a walk.
proof fn lemma_asked(m: ModuleV, r: ResolutionV, o: Answers, st: St, q: RequestV)
    requires
        st.wait is None,
    ensures
        ended(st, answered(o, q), walk(m, r, o, st.ask(q), 1)),
{
    reveal(St::ask);
    reveal(St::run);
    reveal(St::fail);
    reveal_with_fuel(walk, 2);
    let s = st.ask(q);
    assert(walk(m, r, o, s, 1) == interp::resume_of(s.0, (o.reply)(q)));
    assert(St { wait: None, ..s.0 } == St { ctrl: None, ..st });
    match answered(o, q) {
        Some(v) => {
            assert(St { ctrl: Some(CtrlV::Have(v)), ..St { ctrl: None, ..st } } == with_value(
                st,
                v,
            ));
        },
        None => {},
    }
}

proof fn lemma_walk_one(m: ModuleV, r: ResolutionV, o: Answers, st: St)
    ensures
        walk(m, r, o, (st, ProgressV::Running), 1) == interp::step_of(m, r, st),
{
    reveal_with_fuel(walk, 2);
}

/// What the interpreter does with the value of an operand.
proof fn lemma_unary_runs(m: ModuleV, r: ResolutionV, o: Answers, st: St, op: UnOp, v: ValueV) -> (n:
    nat)
    requires
        st.wait is None,
        is_scalar(v),
    ensures
        ended(
            st,
            unary_meaning(o, op, v),
            walk(
                m,
                r,
                o,
                (
                    with_value(St { konts: st.konts.push(KontV::Unary(op)), ..st }, v),
                    ProgressV::Running,
                ),
                n,
            ),
        ),
{
    let s = with_value(St { konts: st.konts.push(KontV::Unary(op)), ..st }, v);
    lemma_walk_one(m, r, o, s);
    reveal(interp::have_in_expr);
    reveal(interp::unary_of);
    reveal(St::run);
    reveal(St::fail);
    let base = St { ctrl: None, ..st };
    assert(s.konts.drop_last() =~= st.konts);
    assert(St { konts: s.konts.drop_last(), ..St { ctrl: None, ..s } } == base);
    assert(interp::step_of(m, r, s) == interp::unary_of(base, op, v));
    match op {
        UnOp::Len => {
            match v {
                ValueV::Str(t) => {
                    let q = RequestV::Count(encode_utf8(t).len() as u64);
                    lemma_asked(m, r, o, base, q);
                    lemma_walk(m, r, o, (s, ProgressV::Running), 1, 1);
                    2
                },
                _ => 1,
            }
        },
        _ => 1,
    }
}

proof fn lemma_binary_runs(
    m: ModuleV,
    r: ResolutionV,
    o: Answers,
    st: St,
    op: BinOp,
    l: ValueV,
    v: ValueV,
) -> (n: nat)
    requires
        st.wait is None,
        op != BinOp::And,
        op != BinOp::Or,
        is_scalar(l),
        is_scalar(v),
    ensures
        ended(
            st,
            binary_meaning(o, op, l, v),
            walk(
                m,
                r,
                o,
                (
                    with_value(St { konts: st.konts.push(KontV::Binary(op, l)), ..st }, v),
                    ProgressV::Running,
                ),
                n,
            ),
        ),
{
    let s = with_value(St { konts: st.konts.push(KontV::Binary(op, l)), ..st }, v);
    lemma_walk_one(m, r, o, s);
    reveal(interp::have_in_expr);
    reveal(interp::binary_of);
    reveal(St::run);
    reveal(St::fail);
    let base = St { ctrl: None, ..st };
    assert(s.konts.drop_last() =~= st.konts);
    assert(St { konts: s.konts.drop_last(), ..St { ctrl: None, ..s } } == base);
    assert(interp::step_of(m, r, s) == interp::binary_of(base, op, l, v));
    match (l, v) {
        (ValueV::Number(a), ValueV::Number(b)) => {
            let q = RequestV::Arith(op, a, b);
            match op {
                BinOp::Add | BinOp::Sub | BinOp::Mul | BinOp::Div | BinOp::FloorDiv | BinOp::Mod
                | BinOp::Pow => {
                    lemma_asked(m, r, o, base, q);
                    lemma_walk(m, r, o, (s, ProgressV::Running), 1, 1);
                    2
                },
                _ => 1,
            }
        },
        _ => 1,
    }
}

/// The interpreter evaluates a plain expression to its meaning, and changes nothing else.
proof fn lemma_interpreted(
    m: ModuleV,
    r: ResolutionV,
    o: Answers,
    env: Env,
    e: ExprV,
    st: St,
) -> (n: nat)
    requires
        plain(r, env.dom(), e),
        scalars(env),
        holds(st, env),
        st.wait is None,
        st.ctrl == Some(CtrlV::Eval(e)),
    ensures
        ended(st, meaning(r, env, o, e), walk(m, r, o, (st, ProgressV::Running), n)),
    decreases e,
{
    let s = (st, ProgressV::Running);
    lemma_walk_one(m, r, o, st);
    reveal(interp::eval_of);
    reveal(St::run);
    reveal(St::push);
    let base = St { ctrl: None, ..st };
    assert(interp::step_of(m, r, st) == interp::eval_of(m, r, base, e));
    match e.kind {
        ExprKindV::Number(x) => {
            lemma_asked(m, r, o, base, RequestV::Numeral(x));
            lemma_walk(m, r, o, s, 1, 1);
            2
        },
        ExprKindV::Name(name) => {
            reveal(interp::named);
            reveal(St::slot);
            let id = r.binding_of(e.span)->0->Local_0;
            assert(env.dom().contains(id));
            assert(base.lookup(id) == st.lookup(id));
            1
        },
        ExprKindV::Paren(i) => {
            let st1 = St { ctrl: Some(CtrlV::Eval(*i)), ..st };
            lemma_holds(st, st1, env);
            let k = lemma_interpreted(m, r, o, env, *i, st1);
            lemma_walk(m, r, o, s, 1, k);
            1 + k
        },
        ExprKindV::Unary { op, operand } => {
            let st0 = St { konts: st.konts.push(KontV::Unary(op)), ..st };
            let st1 = St { ctrl: Some(CtrlV::Eval(*operand)), ..st0 };
            lemma_holds(st, st1, env);
            let k = lemma_interpreted(m, r, o, env, *operand, st1);
            lemma_walk(m, r, o, s, 1, k);
            lemma_scalar(r, env, o, *operand);
            match meaning(r, env, o, *operand) {
                Some(v) => {
                    assert(with_value(st1, v) == with_value(st0, v));
                    let j = lemma_unary_runs(m, r, o, st, op, v);
                    lemma_walk(m, r, o, s, 1 + k, j);
                    1 + k + j
                },
                None => 1 + k,
            }
        },
        ExprKindV::Binary { op, lhs, rhs } => {
            let st0 = St { konts: st.konts.push(KontV::Rhs(op, *rhs)), ..st };
            let st1 = St { ctrl: Some(CtrlV::Eval(*lhs)), ..st0 };
            lemma_holds(st, st1, env);
            let k = lemma_interpreted(m, r, o, env, *lhs, st1);
            lemma_walk(m, r, o, s, 1, k);
            lemma_scalar(r, env, o, *lhs);
            lemma_scalar(r, env, o, *rhs);
            match meaning(r, env, o, *lhs) {
                Some(l) => {
                    let sl = with_value(st1, l);
                    reveal(interp::have_in_expr);
                    reveal(interp::rhs_of);
                    assert(sl.konts.drop_last() =~= st.konts);
                    assert(St { konts: sl.konts.drop_last(), ..St { ctrl: None, ..sl } } == base);
                    let st2 = St { konts: st.konts.push(KontV::Binary(op, l)), ..st };
                    let st3 = St { ctrl: Some(CtrlV::Eval(*rhs)), ..st2 };
                    assert(interp::step_of(m, r, sl) == (st3, ProgressV::Running));
                    lemma_walk_one(m, r, o, sl);
                    lemma_walk(m, r, o, s, 1 + k, 1);
                    lemma_holds(st, st3, env);
                    let j = lemma_interpreted(m, r, o, env, *rhs, st3);
                    lemma_walk(m, r, o, s, 2 + k, j);
                    match meaning(r, env, o, *rhs) {
                        Some(v) => {
                            assert(with_value(st3, v) == with_value(st2, v));
                            let i = lemma_binary_runs(m, r, o, st, op, l, v);
                            lemma_walk(m, r, o, s, 2 + k + j, i);
                            2 + k + j + i
                        },
                        None => 2 + k + j,
                    }
                },
                None => 1 + k,
            }
        },
        _ => 1,
    }
}

/// Variables do not depend on what is evaluated.
proof fn lemma_holds(st: St, st1: St, env: Env)
    requires
        holds(st, env),
        st1.heap == st.heap,
        st1.act == st.act,
        st1.funcs == st.funcs,
    ensures
        holds(st1, env),
{
    reveal(St::slot);
    assert forall|id: SymbolId| #[trigger] env.dom().contains(id) implies st1.lookup(id) == Some(
        env[id],
    ) by {
        assert(st1.lookup(id) == st.lookup(id));
    }
}

// ---- lowered code -------------------------------------------------------------

/// The instructions of the block that is being filled.
pub open spec fn instrs(low: Low) -> Seq<InstrV> {
    low.blocks[low.current].instrs
}

/// Whether `later` has only added operations to the current block of `low`: one
/// instruction for each new value.
pub open spec fn extended(low: Low, later: Low) -> bool {
    &&& later.current == low.current
    &&& 0 <= low.current < low.blocks.len()
    &&& later.blocks.len() == low.blocks.len()
    &&& later.boxed == low.boxed
    &&& later.upvalues == low.upvalues
    &&& instrs(low).len() <= instrs(later).len()
    &&& instrs(later).len() - instrs(low).len() == later.values.len() - low.values.len()
    &&& forall|i: int| 0 <= i < instrs(low).len() ==> instrs(later)[i] == #[trigger] instrs(low)[i]
}

/// Whether no variable of `env` lives in a cell.
pub open spec fn uncaptured(low: Low, env: Env) -> bool {
    forall|id: SymbolId| #[trigger] env.dom().contains(id) ==> !low.is_captured(id)
}

/// Whether the current block of `low` can take the values of an expression.
pub open spec fn has_room(low: Low, e: ExprV) -> bool {
    0 <= low.current < low.blocks.len() && low.values.len() + size(e) <= u32::MAX
}

proof fn lemma_emit(low: Low, op: OpV, ty: crate::types::TypeV)
    requires
        0 <= low.current < low.blocks.len(),
        low.values.len() < u32::MAX,
    ensures
        ({
            let (a, v) = low.emit(op, ty);
            &&& extended(low, a)
            &&& a.values.len() == low.values.len() + 1
            &&& v == low.values.len()
            &&& instrs(a) == instrs(low).push(InstrV { dest: Some(v), op })
        }),
{
    reveal(Low::emit);
    let (a, v) = low.emit(op, ty);
    assert(instrs(a) =~= instrs(low).push(InstrV { dest: Some(v), op }));
}

proof fn lemma_extended(a: Low, b: Low, c: Low)
    requires
        extended(a, b),
        extended(b, c),
    ensures
        extended(a, c),
{
    assert forall|i: int| 0 <= i < instrs(a).len() implies instrs(c)[i] == #[trigger] instrs(a)[i] by {
        assert(instrs(b)[i] == instrs(a)[i]);
    }
}

/// A plain expression is lowered to operations of the current block.
proof fn lemma_lowered(t: Tables, low: Low, env: Env, e: ExprV)
    requires
        plain(t.res, env.dom(), e),
        uncaptured(low, env),
        has_room(low, e),
    ensures
        l_expr(t, low, e) is Ok,
        ({
            let (a, v) = l_expr(t, low, e)->Ok_0;
            &&& extended(low, a)
            &&& a.values.len() == low.values.len() + size(e)
            &&& v < a.values.len()
            &&& uncaptured(a, env)
        }),
    decreases e,
{
    unfold_l_expr(t, low, e);
    match e.kind {
        ExprKindV::Nil => lemma_emit(low, OpV::ConstNil, crate::types::TypeV::Nil),
        ExprKindV::Bool(b) => lemma_emit(low, OpV::ConstBool(b), crate::types::TypeV::Bool),
        ExprKindV::Number(n) => lemma_emit(low, OpV::ConstNumber(n), crate::types::TypeV::Number),
        ExprKindV::Str(s) => lemma_emit(low, OpV::ConstString(s), crate::types::TypeV::String),
        ExprKindV::Paren(i) => lemma_lowered(t, low, env, *i),
        ExprKindV::Name(_) => {
            let id = t.res.binding_of(e.span)->0->Local_0;
            lemma_read(t, low, env, e, id);
        },
        ExprKindV::Unary { op, operand } => {
            lemma_lowered(t, low, env, *operand);
            let (a, v) = l_expr(t, low, *operand)->Ok_0;
            let ty = crate::ir::lower::unary_type(op);
            lemma_emit(a, OpV::Unary(op, v), ty);
            lemma_extended(low, a, a.emit(OpV::Unary(op, v), ty).0);
        },
        ExprKindV::Binary { op, lhs, rhs } => {
            lemma_lowered(t, low, env, *lhs);
            let (a, l) = l_expr(t, low, *lhs)->Ok_0;
            lemma_lowered(t, a, env, *rhs);
            let (b, v) = l_expr(t, a, *rhs)->Ok_0;
            lemma_extended(low, a, b);
            let ty = crate::ir::lower::binary_type(op);
            lemma_emit(b, OpV::Binary(op, l, v), ty);
            lemma_extended(low, b, b.emit(OpV::Binary(op, l, v), ty).0);
        },
        _ => {},
    }
}

/// A variable is read by one operation.
proof fn lemma_read(t: Tables, low: Low, env: Env, e: ExprV, id: SymbolId)
    requires
        t.res.binding_of(e.span) == Some(BindingV::Local(id)),
        env.dom().contains(id),
        uncaptured(low, env),
        0 <= low.current < low.blocks.len(),
        low.values.len() < u32::MAX,
    ensures
        l_name(t, low, e.span) is Ok,
        ({
            let (a, v) = l_name(t, low, e.span)->Ok_0;
            &&& extended(low, a)
            &&& a.values.len() == low.values.len() + 1
            &&& v == low.values.len()
            &&& instrs(a) == instrs(low).push(InstrV { dest: Some(v), op: OpV::LocalGet(id) })
        }),
{
    reveal(l_name);
    reveal(Low::read);
    reveal(Low::ensure_local);
    let a = low.ensure_local(t, id);
    lemma_emit(a, OpV::LocalGet(id), a.local_type(id));
}

// ---- the machine --------------------------------------------------------------

/// The machine after `n` steps and answers.
pub open spec fn march(p: ProgramV, o: Answers, s: (VmV, ProgressV), n: nat) -> (VmV, ProgressV)
    decreases n,
{
    if n == 0 {
        s
    } else {
        match s.1 {
            ProgressV::Done(_) => s,
            ProgressV::Ask => march(p, o, vm::resume_of(p, s.0, (o.reply)(s.0.wait->0)), (n - 1) as nat),
            ProgressV::Running => march(p, o, vm::step_of(p, s.0), (n - 1) as nat),
        }
    }
}

proof fn lemma_march(p: ProgramV, o: Answers, s: (VmV, ProgressV), a: nat, b: nat)
    ensures
        march(p, o, s, a + b) == march(p, o, march(p, o, s, a), b),
    decreases a,
{
    if a > 0 {
        match s.1 {
            ProgressV::Done(_) => {},
            ProgressV::Ask => lemma_march(
                p,
                o,
                vm::resume_of(p, s.0, (o.reply)(s.0.wait->0)),
                (a - 1) as nat,
                b,
            ),
            ProgressV::Running => lemma_march(p, o, vm::step_of(p, s.0), (a - 1) as nat, b),
        }
    }
}

/// Whether a frame holds the variables of `env`.
pub open spec fn keeps(f: FrameV, env: Env) -> bool {
    forall|id: SymbolId| #[trigger]
        env.dom().contains(id) ==> f.locals.dom().contains(id) && f.locals[id] == env[id]
}

/// Whether the innermost frame stands in `func` where the code of `low` ends.
pub open spec fn stands(p: ProgramV, st: VmV, func: FunctionV, low: Low) -> bool {
    &&& st.wait is None
    &&& st.frames.len() > 0
    &&& vm::code_of(p, st.frames.last().code) == Some(func)
    &&& st.frames.last().block < func.blocks.len()
    &&& st.frames.last().pc == instrs(low).len()
}

/// Whether the block that the innermost frame stands in begins with the code of `low`.
pub open spec fn begins(st: VmV, func: FunctionV, low: Low) -> bool {
    let is = func.blocks[st.frames.last().block as int].instrs;
    &&& instrs(low).len() <= is.len()
    &&& forall|i: int| 0 <= i < instrs(low).len() ==> is[i] == #[trigger] instrs(low)[i]
}

/// The state with another innermost frame.
pub open spec fn with_frame(st: VmV, f: FrameV) -> VmV {
    VmV { frames: st.frames.update(st.frames.len() - 1, f), ..st }
}

/// Whether `f` is the frame `before` after the operations between `low` and `later`: values
/// that were there before are as they were.
pub open spec fn went_on(before: FrameV, f: FrameV, low: Low, later: Low) -> bool {
    &&& f == (FrameV { pc: instrs(later).len(), values: f.values, ..before })
    &&& forall|id: ValueId| #![trigger f.values.dom().contains(id)]
        id < low.values.len() ==> (f.values.dom().contains(id) == before.values.dom().contains(id))
    &&& forall|id: ValueId| #![trigger f.values[id]]
        id < low.values.len() && before.values.dom().contains(id) ==> f.values[id]
            == before.values[id]
}

/// Whether `f` has the value `x` for `v`.
pub open spec fn has(f: FrameV, v: ValueId, x: ValueV) -> bool {
    f.values.dom().contains(v) && f.values[v] == x
}

/// Whether a march ended as `x` says: past the code of `later` with the value, or in
/// failure.
pub open spec fn came(
    st: VmV,
    x: Option<ValueV>,
    s: (VmV, ProgressV),
    f: FrameV,
    low: Low,
    later: Low,
    v: ValueId,
) -> bool {
    match x {
        Some(x) => s == (with_frame(st, f), ProgressV::Running) && went_on(
            st.frames.last(),
            f,
            low,
            later,
        ) && has(f, v, x),
        None => has_failed(s.1),
    }
}

/// What the effect of an operation comes to.
pub open spec fn effect_meaning(o: Answers, x: vm::EffectV) -> Option<ValueV> {
    match x {
        vm::EffectV::Value(v) => Some(v),
        vm::EffectV::Ask(q) => answered(o, q),
        _ => None,
    }
}

/// One operation, which `low.emit` has added.
proof fn lemma_operation(
    p: ProgramV,
    o: Answers,
    st: VmV,
    func: FunctionV,
    low: Low,
    later: Low,
    v: ValueId,
    op: OpV,
    x: vm::EffectV,
) -> (r: (nat, FrameV))
    requires
        stands(p, st, func, low),
        begins(st, func, later),
        extended(low, later),
        instrs(later) == instrs(low).push(InstrV { dest: Some(v), op }),
        v == low.values.len(),
        vm::eval_op_of(p, st, st.frames.last(), op) == vm::pure(st, st.frames.last(), x),
        !(x is Enter),
    ensures
        came(
            st,
            effect_meaning(o, x),
            march(p, o, (st, ProgressV::Running), r.0),
            r.1,
            low,
            later,
            v,
        ),
{
    let n = st.frames.len() - 1;
    let f = st.frames.last();
    let b = func.blocks[f.block as int];
    let i = InstrV { dest: Some(v), op };
    assert(instrs(later)[instrs(low).len() as int] == i);
    assert(b.instrs[f.pc as int] == i);
    assert(vm::instr_at(p, f) == Some(i));
    reveal(vm::effected);
    reveal(vm::delivered);
    reveal_with_fuel(march, 3);
    let out = vm::pure(st, f, x);
    assert(st.frames.update(n, FrameV { locals: f.locals, ..f }) =~= st.frames);
    let st1 = VmV {
        heap: out.heap,
        frames: st.frames.update(n, FrameV { locals: out.locals, ..st.frames[n] }),
        ..st
    };
    assert(st1 == st);
    assert(vm::step_of(p, st) == vm::effected(p, st, out));
    match x {
        vm::EffectV::Value(y) => {
            let g = vm::advanced(p, f, y);
            assert(vm::delivered(p, st, y) == with_frame(st, g));
            (1, g)
        },
        vm::EffectV::Ask(q) => {
            let waiting = VmV { wait: Some(q), ..st };
            assert(vm::step_of(p, st) == (waiting, ProgressV::Ask));
            assert(VmV { wait: None, ..waiting } == st);
            match answer_of(q, (o.reply)(q)) {
                Ok(y) => {
                    let g = vm::advanced(p, f, y);
                    assert(vm::delivered(p, st, y) == with_frame(st, g));
                    (2, g)
                },
                Err(_) => (2, f),
            }
        },
        _ => (1, f),
    }
}

/// The operation of a unary operator, once its operand is there.
proof fn lemma_unary_executed(
    p: ProgramV,
    o: Answers,
    st: VmV,
    func: FunctionV,
    lows: (Low, Low, Low),
    ids: (ValueId, ValueId),
    op: UnOp,
    g: FrameV,
    y: ValueV,
) -> (r: (nat, FrameV))
    requires
        is_scalar(y),
        stands(p, st, func, lows.0),
        begins(st, func, lows.2),
        extended(lows.0, lows.1),
        extended(lows.1, lows.2),
        instrs(lows.2) == instrs(lows.1).push(
            InstrV { dest: Some(ids.0), op: OpV::Unary(op, ids.1) },
        ),
        ids.0 == lows.1.values.len(),
        went_on(st.frames.last(), g, lows.0, lows.1),
        has(g, ids.1, y),
    ensures
        came(
            st,
            unary_meaning(o, op, y),
            march(p, o, (with_frame(st, g), ProgressV::Running), r.0),
            r.1,
            lows.0,
            lows.2,
            ids.0,
        ),
{
    let (low, a, later) = lows;
    let (v, w) = ids;
    let mid = with_frame(st, g);
    assert(mid.frames.last() == g);
    lemma_no_array(st.heap, y);
    let x = vm::unary_effect(st.heap, op, y);
    reveal(vm::eval_op_of);
    let (j, h) = lemma_operation(p, o, mid, func, a, later, v, OpV::Unary(op, w), x);
    if unary_meaning(o, op, y) is Some {
        lemma_went_on(st, g, h, low, a, later);
    }
    (j, h)
}

/// The operation of a binary operator, once its operands are there.
proof fn lemma_binary_executed(
    p: ProgramV,
    o: Answers,
    st: VmV,
    func: FunctionV,
    lows: (Low, Low, Low),
    ids: (ValueId, ValueId, ValueId),
    op: BinOp,
    g: FrameV,
    ys: (ValueV, ValueV),
) -> (r: (nat, FrameV))
    requires
        op != BinOp::And,
        op != BinOp::Or,
        stands(p, st, func, lows.0),
        begins(st, func, lows.2),
        extended(lows.0, lows.1),
        extended(lows.1, lows.2),
        instrs(lows.2) == instrs(lows.1).push(
            InstrV { dest: Some(ids.0), op: OpV::Binary(op, ids.1, ids.2) },
        ),
        ids.0 == lows.1.values.len(),
        went_on(st.frames.last(), g, lows.0, lows.1),
        has(g, ids.1, ys.0),
        has(g, ids.2, ys.1),
    ensures
        came(
            st,
            binary_meaning(o, op, ys.0, ys.1),
            march(p, o, (with_frame(st, g), ProgressV::Running), r.0),
            r.1,
            lows.0,
            lows.2,
            ids.0,
        ),
{
    let (low, a, later) = lows;
    let (v, l, w) = ids;
    let mid = with_frame(st, g);
    assert(mid.frames.last() == g);
    let x = vm::binary_effect(op, ys.0, ys.1);
    reveal(vm::eval_op_of);
    let (j, h) = lemma_operation(p, o, mid, func, a, later, v, OpV::Binary(op, l, w), x);
    if binary_meaning(o, op, ys.0, ys.1) is Some {
        lemma_went_on(st, g, h, low, a, later);
    }
    (j, h)
}

/// The machine evaluates the code of a plain expression to its meaning.
proof fn lemma_executed(
    p: ProgramV,
    o: Answers,
    t: Tables,
    env: Env,
    e: ExprV,
    low: Low,
    st: VmV,
    func: FunctionV,
) -> (r: (nat, FrameV))
    requires
        plain(t.res, env.dom(), e),
        scalars(env),
        uncaptured(low, env),
        has_room(low, e),
        stands(p, st, func, low),
        begins(st, func, l_expr(t, low, e)->Ok_0.0),
        keeps(st.frames.last(), env),
    ensures
        came(
            st,
            meaning(t.res, env, o, e),
            march(p, o, (st, ProgressV::Running), r.0),
            r.1,
            low,
            l_expr(t, low, e)->Ok_0.0,
            l_expr(t, low, e)->Ok_0.1,
        ),
    decreases e,
{
    lemma_lowered(t, low, env, e);
    unfold_l_expr(t, low, e);
    let (later, v) = l_expr(t, low, e)->Ok_0;
    let f = st.frames.last();
    reveal(vm::eval_op_of);
    match e.kind {
        ExprKindV::Nil => {
            lemma_emit(low, OpV::ConstNil, crate::types::TypeV::Nil);
            let x = vm::EffectV::Value(ValueV::Nil);
            lemma_operation(p, o, st, func, low, later, v, OpV::ConstNil, x)
        },
        ExprKindV::Bool(b) => {
            lemma_emit(low, OpV::ConstBool(b), crate::types::TypeV::Bool);
            let x = vm::EffectV::Value(ValueV::Bool(b));
            lemma_operation(p, o, st, func, low, later, v, OpV::ConstBool(b), x)
        },
        ExprKindV::Number(k) => {
            lemma_emit(low, OpV::ConstNumber(k), crate::types::TypeV::Number);
            let x = vm::EffectV::Ask(RequestV::Numeral(k));
            lemma_operation(p, o, st, func, low, later, v, OpV::ConstNumber(k), x)
        },
        ExprKindV::Str(s) => {
            lemma_emit(low, OpV::ConstString(s), crate::types::TypeV::String);
            let x = vm::EffectV::Value(ValueV::Str(s));
            lemma_operation(p, o, st, func, low, later, v, OpV::ConstString(s), x)
        },
        ExprKindV::Paren(i) => lemma_executed(p, o, t, env, *i, low, st, func),
        ExprKindV::Name(_) => {
            let id = t.res.binding_of(e.span)->0->Local_0;
            lemma_read(t, low, env, e, id);
            assert(env.dom().contains(id));
            let x = vm::EffectV::Value(env[id]);
            lemma_operation(p, o, st, func, low, later, v, OpV::LocalGet(id), x)
        },
        ExprKindV::Unary { op, operand } => {
            lemma_lowered(t, low, env, *operand);
            lemma_scalar(t.res, env, o, *operand);
            let (a, w) = l_expr(t, low, *operand)->Ok_0;
            lemma_emit(a, OpV::Unary(op, w), crate::ir::lower::unary_type(op));
            lemma_begins(st, func, a, later);
            let (k, g) = lemma_executed(p, o, t, env, *operand, low, st, func);
            match meaning(t.res, env, o, *operand) {
                Some(y) => {
                    let (j, h) = lemma_unary_executed(
                        p,
                        o,
                        st,
                        func,
                        (low, a, later),
                        (v, w),
                        op,
                        g,
                        y,
                    );
                    lemma_march(p, o, (st, ProgressV::Running), k, j);
                    (k + j, h)
                },
                None => (k, g),
            }
        },
        ExprKindV::Binary { op, lhs, rhs } => {
            lemma_lowered(t, low, env, *lhs);
            let (a, l) = l_expr(t, low, *lhs)->Ok_0;
            lemma_lowered(t, a, env, *rhs);
            let (b, w) = l_expr(t, a, *rhs)->Ok_0;
            lemma_emit(b, OpV::Binary(op, l, w), crate::ir::lower::binary_type(op));
            lemma_begins(st, func, b, later);
            lemma_begins(st, func, a, b);
            lemma_extended(low, a, b);
            let (k, g) = lemma_executed(p, o, t, env, *lhs, low, st, func);
            match meaning(t.res, env, o, *lhs) {
                Some(y) => {
                    let mid = with_frame(st, g);
                    assert(mid.frames.last() == g);
                    let (j, h) = lemma_executed(p, o, t, env, *rhs, a, mid, func);
                    lemma_march(p, o, (st, ProgressV::Running), k, j);
                    match meaning(t.res, env, o, *rhs) {
                        Some(z) => {
                            lemma_went_on(st, g, h, low, a, b);
                            assert(has(h, l, y)) by {
                                assert(g.values.dom().contains(l));
                                assert(h.values.dom().contains(l));
                                assert(h.values[l] == g.values[l]);
                            }
                            let (i, last) = lemma_binary_executed(
                                p,
                                o,
                                st,
                                func,
                                (low, b, later),
                                (v, l, w),
                                op,
                                h,
                                (y, z),
                            );
                            lemma_march(p, o, (st, ProgressV::Running), k + j, i);
                            (k + j + i, last)
                        },
                        None => (k + j, h),
                    }
                },
                None => (k, g),
            }
        },
        _ => (0, f),
    }
}

/// A block that begins with later code begins with earlier code.
proof fn lemma_begins(st: VmV, func: FunctionV, low: Low, later: Low)
    requires
        extended(low, later),
        begins(st, func, later),
    ensures
        begins(st, func, low),
{
    let is = func.blocks[st.frames.last().block as int].instrs;
    assert forall|i: int| 0 <= i < instrs(low).len() implies is[i] == #[trigger] instrs(low)[i] by {
        assert(instrs(later)[i] == instrs(low)[i]);
    }
}

/// Two stretches of code make one.
proof fn lemma_went_on(st: VmV, g: FrameV, h: FrameV, low: Low, a: Low, later: Low)
    requires
        extended(low, a),
        went_on(st.frames.last(), g, low, a),
        went_on(g, h, a, later),
        st.frames.len() > 0,
    ensures
        went_on(st.frames.last(), h, low, later),
        with_frame(with_frame(st, g), h) == with_frame(st, h),
{
    assert(with_frame(with_frame(st, g), h).frames =~= with_frame(st, h).frames);
    let f = st.frames.last();
    assert forall|id: ValueId| #![trigger h.values.dom().contains(id)]
        id < low.values.len() implies h.values.dom().contains(id) == f.values.dom().contains(id) by {
        assert(g.values.dom().contains(id) == f.values.dom().contains(id));
    }
    assert forall|id: ValueId| #![trigger h.values[id]]
        id < low.values.len() && f.values.dom().contains(id) implies h.values[id]
        == f.values[id] by {
        assert(g.values.dom().contains(id));
        assert(g.values[id] == f.values[id]);
    }
}

/// A scalar is no array.
proof fn lemma_no_array(h: crate::value::HeapV, v: ValueV)
    requires
        is_scalar(v),
    ensures
        array_at(h, v) is None,
{
}

/// A plain expression comes to the same in both machines: what the interpreter makes of it
/// is what the machine has for it once it has run the code that it was lowered to, or both
/// fail.
pub proof fn law_plain_expressions_agree(
    m: ModuleV,
    o: Answers,
    t: Tables,
    env: Env,
    e: ExprV,
    st: St,
    low: Low,
    p: ProgramV,
    machine: VmV,
    func: FunctionV,
)
    requires
        plain(t.res, env.dom(), e),
        scalars(env),
        holds(st, env),
        st.wait is None,
        st.ctrl == Some(CtrlV::Eval(e)),
        uncaptured(low, env),
        has_room(low, e),
        stands(p, machine, func, low),
        begins(machine, func, l_expr(t, low, e)->Ok_0.0),
        keeps(machine.frames.last(), env),
    ensures
        l_expr(t, low, e) is Ok,
        exists|n: nat, k: nat, f: FrameV| #![trigger
            walk(m, t.res, o, (st, ProgressV::Running), n),
            came(
                machine,
                meaning(t.res, env, o, e),
                march(p, o, (machine, ProgressV::Running), k),
                f,
                low,
                l_expr(t, low, e)->Ok_0.0,
                l_expr(t, low, e)->Ok_0.1,
            )
        ]
            came(
                machine,
                meaning(t.res, env, o, e),
                march(p, o, (machine, ProgressV::Running), k),
                f,
                low,
                l_expr(t, low, e)->Ok_0.0,
                l_expr(t, low, e)->Ok_0.1,
            ) && match meaning(t.res, env, o, e) {
                Some(x) => walk(m, t.res, o, (st, ProgressV::Running), n) == (
                    with_value(st, x),
                    ProgressV::Running,
                ),
                None => has_failed(walk(m, t.res, o, (st, ProgressV::Running), n).1),
            },
{
    lemma_lowered(t, low, env, e);
    let n = lemma_interpreted(m, t.res, o, env, e, st);
    let (k, f) = lemma_executed(p, o, t, env, e, low, machine, func);
    let s = walk(m, t.res, o, (st, ProgressV::Running), n);
    assert(ended(st, meaning(t.res, env, o, e), s));
    assert(came(
        machine,
        meaning(t.res, env, o, e),
        march(p, o, (machine, ProgressV::Running), k),
        f,
        low,
        l_expr(t, low, e)->Ok_0.0,
        l_expr(t, low, e)->Ok_0.1,
    ));
}

} // verus!
