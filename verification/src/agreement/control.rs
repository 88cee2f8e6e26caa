//! What functions of scalars do: calculations with operators and builtins, declarations and
//! assignments of local variables, blocks, conditionals, `while` loops, counting loops, `break` and `return`. The interpreter does
//! that.

use vstd::prelude::*;

use super::calls::declaration;
use super::{
    answered, binary_meaning, has_failed, holds, is_scalar, lemma_asked, lemma_binary_runs,
    lemma_unary_runs, lemma_walk, lemma_walk_one, scalars, unary_meaning, walk, with_value, Answers,
    Env,
};
use crate::ast::{BinOp, BlockV, ExprKindV, ExprV, IdentV, ModuleV, StatKindV, StatV};
use crate::interp;
use crate::interp::{top_functions, unfold_declare_all, CalleeV, CtrlV, FlowV, KontV, St};
use crate::names::get_of;
use crate::ir::vm::ProgressV;
use crate::number::integer_of;
use crate::resolve::{BindingV, ResolutionV, SymbolId};
use crate::runtime::eval::{
    arg, depth_limit, displayed, f_pieces, field_value_of, member_call_of, signed_dec,
    unfold_d_value, unfold_f_pieces, value_call_of, with_text, OutcomeV, PieceV, RequestV,
};
use crate::value::{truthy, HeapV, ObjV, RunErrorV, ValueV};

verus! {

/// The builtin that a callee names.
pub open spec fn builtin_of(r: ResolutionV, callee: ExprV) -> Option<CalleeV> {
    match interp::namespace_of(r, callee) {
        Some(ns) => Some(CalleeV::BuiltinValue(ns)),
        None => match callee.kind {
            ExprKindV::Field { base, name } => match interp::namespace_of(r, *base) {
                Some(ns) => Some(CalleeV::BuiltinMember(ns, name.node)),
                None => None,
            },
            _ => None,
        },
    }
}

/// The script function that a callee names.
pub open spec fn script_of(r: ResolutionV, callee: ExprV) -> Option<Seq<char>> {
    match (callee.kind, r.binding_of(callee.span)) {
        (ExprKindV::Name(_), Some(BindingV::TopFunction(n))) => Some(n),
        _ => None,
    }
}

/// What a call of a script function comes to, as far as it is known: a scalar, or failure.
pub open spec fn called(o: Answers, name: Seq<char>, args: Seq<ValueV>) -> Option<Option<ValueV>> {
    match (o.calls)(name, args) {
        Some(Some(v)) => if is_scalar(v) {
            Some(Some(v))
        } else {
            None
        },
        x => x,
    }
}

/// The host function that a callee names.
pub open spec fn host_of(r: ResolutionV, callee: ExprV) -> Option<Seq<char>> {
    match (callee.kind, r.binding_of(callee.span)) {
        (ExprKindV::Name(_), Some(BindingV::HostFunction(n))) => Some(n),
        _ => None,
    }
}

/// What a call of a host function comes to: it fails where there is none of that name. One that
/// returns something else than a scalar is not followed.
pub open spec fn hosted_call(o: Answers, name: Seq<char>, args: Seq<ValueV>) -> Option<
    Option<ValueV>,
> {
    if (o.hosts)(name) {
        match answered(o, RequestV::Host(name, args)) {
            Some(v) => if is_scalar(v) {
                Some(Some(v))
            } else {
                None
            },
            None => Some(None),
        }
    } else {
        Some(None)
    }
}

/// What a call of a script or host function comes to, as far as it is known.
pub open spec fn named_call(r: ResolutionV, o: Answers, callee: ExprV, args: Seq<ValueV>) -> Option<
    Option<ValueV>,
> {
    match script_of(r, callee) {
        Some(name) => called(o, name, args),
        None => match host_of(r, callee) {
            Some(name) => hosted_call(o, name, args),
            None => Some(None),
        },
    }
}

/// What a builtin comes to with these arguments on a heap.
pub open spec fn builtin_outcome(h: HeapV, c: CalleeV, args: Seq<ValueV>) -> Result<
    OutcomeV,
    RunErrorV,
> {
    match c {
        CalleeV::BuiltinMember(ns, name) => member_call_of(h, ns, name, args),
        CalleeV::BuiltinValue(name) => value_call_of(h, name, args),
        CalleeV::Value(_) => Err(interp::internal("not a builtin"@)),
    }
}

/// The result of a builtin; none if it fails.
pub open spec fn builtin_meaning(o: Answers, c: CalleeV, args: Seq<ValueV>) -> Option<ValueV> {
    match builtin_outcome(Seq::empty(), c, args) {
        Ok(OutcomeV::Value(v)) => Some(v),
        Ok(OutcomeV::Ask(q)) => answered(o, q),
        Err(_) => None,
    }
}

/// The text of a scalar is the same on every heap.
proof fn lemma_displayed(h: HeapV, v: ValueV, ps: Seq<PieceV>)
    requires
        is_scalar(v),
    ensures
        displayed(h, v, ps) == displayed(Seq::empty(), v, ps),
{
    unfold_d_value(h, v, depth_limit(h), ps);
    unfold_d_value(Seq::empty(), v, depth_limit(Seq::empty()), ps);
}

proof fn lemma_pieces(
    h: HeapV,
    fmt: Seq<char>,
    i: int,
    args: Seq<ValueV>,
    k: int,
    ps: Seq<PieceV>,
)
    requires
        forall|j: int| 0 <= j < args.len() ==> is_scalar(#[trigger] args[j]),
    ensures
        f_pieces(h, fmt, i, args, k, ps) == f_pieces(Seq::empty(), fmt, i, args, k, ps),
    decreases fmt.len() - i,
{
    unfold_f_pieces(h, fmt, i, args, k, ps);
    unfold_f_pieces(Seq::empty(), fmt, i, args, k, ps);
    if 0 <= i < fmt.len() {
        let a = arg(args, k);
        lemma_displayed(h, a, ps);
        if fmt[i] != '%' {
            lemma_pieces(h, fmt, i + 1, args, k, with_text(ps, seq![fmt[i]]));
        } else if i + 1 < fmt.len() {
            lemma_pieces(h, fmt, i + 2, args, k, with_text(ps, seq!['%']));
            match a {
                ValueV::Number(b) => {
                    lemma_pieces(
                        h,
                        fmt,
                        i + 2,
                        args,
                        k + 1,
                        with_text(ps, signed_dec(integer_of(b))),
                    );
                    lemma_pieces(h, fmt, i + 2, args, k + 1, ps.push(PieceV::Fixed(b)));
                    lemma_pieces(h, fmt, i + 2, args, k + 1, ps.push(PieceV::General(b)));
                },
                _ => {},
            }
            match displayed(h, a, ps) {
                Ok(ps1) => lemma_pieces(h, fmt, i + 2, args, k + 1, ps1),
                Err(_) => {},
            }
        }
    }
}

/// The heap does not matter to a builtin of scalars, and its result is a scalar.
pub(crate) proof fn lemma_builtin(
    r: ResolutionV,
    o: Answers,
    callee: ExprV,
    h: HeapV,
    args: Seq<ValueV>,
)
    requires
        builtin_of(r, callee) is Some,
        forall|k: int| 0 <= k < args.len() ==> is_scalar(#[trigger] args[k]),
    ensures
        builtin_outcome(h, builtin_of(r, callee)->0, args) == builtin_outcome(
            Seq::empty(),
            builtin_of(r, callee)->0,
            args,
        ),
        builtin_meaning(o, builtin_of(r, callee)->0, args) matches Some(v) ==> is_scalar(v),
{
    lemma_displayed(h, arg(args, 0), Seq::empty());
    match arg(args, 0) {
        ValueV::Str(s) => lemma_pieces(h, s, 0, args.skip(1), 0, Seq::empty()),
        _ => {},
    }
}

/// Whether an expression consists of literals, the variables `known`, operators, builtins, and
/// calls of script and host functions.
pub open spec fn simple(r: ResolutionV, known: Set<SymbolId>, e: ExprV) -> bool
    decreases e,
{
    match e.kind {
        ExprKindV::Nil | ExprKindV::Bool(_) | ExprKindV::Number(_) | ExprKindV::Str(_) => true,
        ExprKindV::Paren(i) => simple(r, known, *i),
        ExprKindV::Name(_) => r.binding_of(e.span) matches Some(BindingV::Local(id))
            && known.contains(id),
        ExprKindV::Unary { op, operand } => simple(r, known, *operand),
        ExprKindV::Binary { op, lhs, rhs } => simple(r, known, *lhs) && simple(r, known, *rhs),
        ExprKindV::Field { base, name } => interp::namespace_of(r, *base) is Some,
        ExprKindV::Call { callee, args } => (builtin_of(r, *callee) is Some || script_of(
            r,
            *callee,
        ) is Some || host_of(r, *callee) is Some) && forall|k: int|
            0 <= k < args.len() ==> simple(r, known, #[trigger] args[k]),
        _ => false,
    }
}

/// The value of a simple expression; none if its evaluation fails.
pub open spec fn value_of(r: ResolutionV, env: Env, o: Answers, e: ExprV) -> Option<ValueV>
    decreases e, 0int,
{
    match e.kind {
        ExprKindV::Nil => Some(ValueV::Nil),
        ExprKindV::Bool(b) => Some(ValueV::Bool(b)),
        ExprKindV::Number(n) => answered(o, RequestV::Numeral(n)),
        ExprKindV::Str(s) => Some(ValueV::Str(s)),
        ExprKindV::Paren(i) => value_of(r, env, o, *i),
        ExprKindV::Name(_) => match r.binding_of(e.span) {
            Some(BindingV::Local(id)) => Some(env[id]),
            _ => None,
        },
        ExprKindV::Unary { op, operand } => match value_of(r, env, o, *operand) {
            Some(v) => unary_meaning(o, op, v),
            None => None,
        },
        ExprKindV::Binary { op, lhs, rhs } => match value_of(r, env, o, *lhs) {
            Some(a) => if op == BinOp::And && !truthy(a) || op == BinOp::Or && truthy(a) {
                Some(a)
            } else {
                match value_of(r, env, o, *rhs) {
                    Some(b) => if op == BinOp::And || op == BinOp::Or {
                        Some(b)
                    } else {
                        binary_meaning(o, op, a, b)
                    },
                    None => None,
                }
            },
            None => None,
        },
        ExprKindV::Field { base, name } => match interp::namespace_of(r, *base) {
            Some(ns) => match field_value_of(ns, name.node) {
                Ok(v) => Some(v),
                Err(_) => None,
            },
            None => None,
        },
        ExprKindV::Call { callee, args } => match (
            builtin_of(r, *callee),
            values_of(r, env, o, args, 0, Seq::empty()),
        ) {
            (Some(c), Some(vs)) => builtin_meaning(o, c, vs),
            (None, Some(vs)) => match named_call(r, o, *callee, vs) {
                Some(x) => x,
                None => None,
            },
            _ => None,
        },
        _ => None,
    }
}

/// Whether the evaluation of a simple expression meets a call of which it is not known what it
/// comes to.
pub open spec fn runs_out(r: ResolutionV, env: Env, o: Answers, e: ExprV) -> bool
    decreases e, 0int,
{
    match e.kind {
        ExprKindV::Paren(i) => runs_out(r, env, o, *i),
        ExprKindV::Unary { op, operand } => runs_out(r, env, o, *operand),
        ExprKindV::Binary { op, lhs, rhs } => runs_out(r, env, o, *lhs) || (value_of(
            r,
            env,
            o,
            *lhs,
        ) matches Some(a) && !(op == BinOp::And && !truthy(a) || op == BinOp::Or && truthy(a))
            && runs_out(r, env, o, *rhs)),
        ExprKindV::Call { callee, args } => one_runs_out(r, env, o, args, 0) || (builtin_of(
            r,
            *callee,
        ) is None && (values_of(r, env, o, args, 0, Seq::empty()) matches Some(vs) && named_call(
            r,
            o,
            *callee,
            vs,
        ) is None)),
        _ => false,
    }
}

/// Whether that holds of one of the expressions from `i` on.
pub open spec fn one_runs_out(r: ResolutionV, env: Env, o: Answers, es: Seq<ExprV>, i: int) -> bool
    decreases es, es.len() - i,
{
    0 <= i < es.len() && (runs_out(r, env, o, es[i]) || (value_of(r, env, o, es[i]) is Some
        && one_runs_out(r, env, o, es, i + 1)))
}

/// The values of simple expressions from `i` on, after those that are there; none if the
/// evaluation of one fails.
pub open spec fn values_of(
    r: ResolutionV,
    env: Env,
    o: Answers,
    es: Seq<ExprV>,
    i: int,
    done: Seq<ValueV>,
) -> Option<Seq<ValueV>>
    decreases es, es.len() - i,
{
    if 0 <= i < es.len() {
        match value_of(r, env, o, es[i]) {
            Some(v) => values_of(r, env, o, es, i + 1, done.push(v)),
            None => None,
        }
    } else {
        Some(done)
    }
}

pub(crate) proof fn lemma_value_scalar(
    r: ResolutionV,
    known: Set<SymbolId>,
    env: Env,
    o: Answers,
    e: ExprV,
)
    requires
        simple(r, known, e),
        known.subset_of(env.dom()),
        scalars(env),
    ensures
        value_of(r, env, o, e) matches Some(v) ==> is_scalar(v),
    decreases e, 0int,
{
    match e.kind {
        ExprKindV::Paren(i) => lemma_value_scalar(r, known, env, o, *i),
        ExprKindV::Name(_) => {
            let id = r.binding_of(e.span)->0->Local_0;
            assert(env.dom().contains(id));
        },
        ExprKindV::Unary { op, operand } => lemma_value_scalar(r, known, env, o, *operand),
        ExprKindV::Binary { op, lhs, rhs } => {
            lemma_value_scalar(r, known, env, o, *lhs);
            lemma_value_scalar(r, known, env, o, *rhs);
        },
        ExprKindV::Call { callee, args } => {
            lemma_values_scalar(r, known, env, o, args, 0, Seq::empty());
            match values_of(r, env, o, args, 0, Seq::empty()) {
                Some(vs) => {
                    if builtin_of(r, *callee) is Some {
                        lemma_builtin(r, o, *callee, Seq::empty(), vs);
                    }
                },
                None => {},
            }
        },
        _ => {},
    }
}

pub(crate) proof fn lemma_values_scalar(
    r: ResolutionV,
    known: Set<SymbolId>,
    env: Env,
    o: Answers,
    es: Seq<ExprV>,
    i: int,
    done: Seq<ValueV>,
)
    requires
        forall|k: int| 0 <= k < es.len() ==> simple(r, known, #[trigger] es[k]),
        known.subset_of(env.dom()),
        scalars(env),
        forall|k: int| 0 <= k < done.len() ==> is_scalar(#[trigger] done[k]),
    ensures
        values_of(r, env, o, es, i, done) matches Some(vs) ==> forall|k: int|
            0 <= k < vs.len() ==> is_scalar(#[trigger] vs[k]),
    decreases es, es.len() - i,
{
    if 0 <= i < es.len() {
        lemma_value_scalar(r, known, env, o, es[i]);
        match value_of(r, env, o, es[i]) {
            Some(v) => lemma_values_scalar(r, known, env, o, es, i + 1, done.push(v)),
            None => {},
        }
    }
}

/// The value of an expression depends on the variables that it may name.
pub(crate) proof fn lemma_value_agrees(
    r: ResolutionV,
    known: Set<SymbolId>,
    a: Env,
    b: Env,
    o: Answers,
    e: ExprV,
)
    requires
        simple(r, known, e),
        forall|id: SymbolId| #[trigger] known.contains(id) ==> a[id] == b[id],
    ensures
        value_of(r, a, o, e) == value_of(r, b, o, e),
        runs_out(r, a, o, e) == runs_out(r, b, o, e),
    decreases e, 0int,
{
    match e.kind {
        ExprKindV::Paren(i) => lemma_value_agrees(r, known, a, b, o, *i),
        ExprKindV::Name(_) => {
            let id = r.binding_of(e.span)->0->Local_0;
            assert(known.contains(id));
        },
        ExprKindV::Unary { op, operand } => lemma_value_agrees(r, known, a, b, o, *operand),
        ExprKindV::Binary { op, lhs, rhs } => {
            lemma_value_agrees(r, known, a, b, o, *lhs);
            lemma_value_agrees(r, known, a, b, o, *rhs);
        },
        ExprKindV::Call { callee, args } => {
            lemma_values_agree(r, known, a, b, o, args, 0, Seq::empty());
        },
        _ => {},
    }
}

proof fn lemma_values_agree(
    r: ResolutionV,
    known: Set<SymbolId>,
    a: Env,
    b: Env,
    o: Answers,
    es: Seq<ExprV>,
    i: int,
    done: Seq<ValueV>,
)
    requires
        forall|k: int| 0 <= k < es.len() ==> simple(r, known, #[trigger] es[k]),
        forall|id: SymbolId| #[trigger] known.contains(id) ==> a[id] == b[id],
    ensures
        values_of(r, a, o, es, i, done) == values_of(r, b, o, es, i, done),
        one_runs_out(r, a, o, es, i) == one_runs_out(r, b, o, es, i),
    decreases es, es.len() - i,
{
    if 0 <= i < es.len() {
        lemma_value_agrees(r, known, a, b, o, es[i]);
        match value_of(r, a, o, es[i]) {
            Some(v) => lemma_values_agree(r, known, a, b, o, es, i + 1, done.push(v)),
            None => {},
        }
    }
}

/// The variable that a statement `x = e` assigns, and what.
pub open spec fn assignment(r: ResolutionV, s: StatV) -> Option<(SymbolId, ExprV)> {
    match s.kind {
        StatKindV::Assign { targets, exprs } => if targets.len() == 1 && exprs.len() == 1
            && targets[0].kind is Name {
            match r.binding_of(targets[0].span) {
                Some(BindingV::Local(id)) => Some((id, exprs[0])),
                _ => None,
            }
        } else {
            None
        },
        _ => None,
    }
}

/// Whether a statement computes with scalars only; `looped` tells whether it may `break`.
pub open spec fn stat_ok(r: ResolutionV, known: Set<SymbolId>, s: StatV, looped: bool) -> bool
    decreases s, 0int,
{
    match s.kind {
        StatKindV::Empty => true,
        StatKindV::Break => looped,
        StatKindV::Local { .. } => declaration(r, s) matches Some((_, id, e)) && simple(
            r,
            known,
            e,
        ),
        StatKindV::Assign { .. } => assignment(r, s) matches Some((id, e)) && known.contains(id)
            && simple(r, known, e),
        StatKindV::Call(e) => simple(r, known, e),
        StatKindV::Do(b) => block_ok(r, known, b, 0, looped),
        StatKindV::While { cond, body } => simple(r, known, cond) && block_ok(
            r,
            known,
            body,
            0,
            true,
        ),
        StatKindV::If { arms, else_block } => arms_ok(r, known, arms, 0, looped) && (
        else_block matches Some(b) ==> block_ok(r, known, b, 0, looped)),
        StatKindV::NumericFor { var, start, end, step, body } => {
            &&& r.def_of(var.span) matches Some(id)
            &&& !known.contains(id)
            &&& simple(r, known, start)
            &&& simple(r, known, end)
            &&& step matches Some(e) ==> simple(r, known, e)
            &&& block_ok(r, known.insert(id), body, 0, true)
        },
        _ => false,
    }
}

/// The variables known after a statement.
pub open spec fn known_after(r: ResolutionV, known: Set<SymbolId>, s: StatV) -> Set<SymbolId> {
    match declaration(r, s) {
        Some((_, id, _)) => known.insert(id),
        None => known,
    }
}

/// Whether a block, from statement `i` on, computes with scalars only.
pub open spec fn block_ok(
    r: ResolutionV,
    known: Set<SymbolId>,
    b: BlockV,
    i: int,
    looped: bool,
) -> bool
    decreases b, b.stats.len() - i,
{
    if 0 <= i < b.stats.len() {
        stat_ok(r, known, b.stats[i], looped) && block_ok(
            r,
            known_after(r, known, b.stats[i]),
            b,
            i + 1,
            looped,
        )
    } else {
        i >= 0 && match b.ret {
            None => true,
            Some(x) => x.exprs.len() == 0 || (x.exprs.len() == 1 && simple(r, known, x.exprs[0])),
        }
    }
}

/// Whether the arms of a conditional, from `i` on, compute with scalars only.
pub open spec fn arms_ok(
    r: ResolutionV,
    known: Set<SymbolId>,
    arms: Seq<(ExprV, BlockV)>,
    i: int,
    looped: bool,
) -> bool
    decreases arms, arms.len() - i,
{
    if 0 <= i < arms.len() {
        simple(r, known, arms[i].0) && block_ok(r, known, arms[i].1, 0, looped) && arms_ok(
            r,
            known,
            arms,
            i + 1,
            looped,
        )
    } else {
        true
    }
}

/// What the execution of a statement comes to within a number of statements.
pub ghost enum Res {
    /// It has not ended; or it counted with something else than numbers, which no module does
    /// whose types check.
    Out,
    /// It failed.
    Fail,
    /// It ended: how control goes on, the variables, and how many statements are left.
    End(FlowV, Env, nat),
}

/// Execute a statement within `n` more.
pub open spec fn run_stat(r: ResolutionV, env: Env, o: Answers, s: StatV, n: nat) -> Res
    decreases n, s, 0int,
{
    match s.kind {
        StatKindV::Empty => Res::End(FlowV::Normal, env, n),
        StatKindV::Break => Res::End(FlowV::Break, env, n),
        StatKindV::Local { .. } => match declaration(r, s) {
            Some((_, id, e)) => if runs_out(r, env, o, e) {
                Res::Out
            } else {
                match value_of(r, env, o, e) {
                    Some(v) => Res::End(FlowV::Normal, env.insert(id, v), n),
                    None => Res::Fail,
                }
            },
            None => Res::Fail,
        },
        StatKindV::Assign { .. } => match assignment(r, s) {
            Some((id, e)) => if runs_out(r, env, o, e) {
                Res::Out
            } else {
                match value_of(r, env, o, e) {
                    Some(v) => Res::End(FlowV::Normal, env.insert(id, v), n),
                    None => Res::Fail,
                }
            },
            None => Res::Fail,
        },
        StatKindV::Call(e) => if runs_out(r, env, o, e) {
            Res::Out
        } else {
            match value_of(r, env, o, e) {
                Some(_) => Res::End(FlowV::Normal, env, n),
                None => Res::Fail,
            }
        },
        StatKindV::Do(b) => run_block(r, env, o, b, 0, n),
        StatKindV::While { cond, body } => run_while(r, env, o, cond, body, n),
        StatKindV::If { arms, else_block } => match run_arms(r, env, o, arms, 0, n) {
            Some(x) => x,
            None => match else_block {
                Some(b) => run_block(r, env, o, b, 0, n),
                None => Res::End(FlowV::Normal, env, n),
            },
        },
        StatKindV::NumericFor { var, start, end, step, body } => match (
            r.def_of(var.span),
            range_of(r, env, o, start, end, step),
        ) {
            (Some(id), Some(Some((a, b, c)))) => run_for(r, env, o, id, a, b, c, body, n),
            (_, Some(None)) => Res::Fail,
            _ => Res::Out,
        },
        _ => Res::Fail,
    }
}

/// The start, bound and step of a counting loop: not all of them known, or not all numbers, or
/// the evaluation of one fails, or all three.
pub open spec fn range_of(
    r: ResolutionV,
    env: Env,
    o: Answers,
    start: ExprV,
    end: ExprV,
    step: Option<ExprV>,
) -> Option<Option<(u64, u64, u64)>> {
    if runs_out(r, env, o, start) {
        None
    } else {
        match value_of(r, env, o, start) {
            None => Some(None),
            Some(ValueV::Number(a)) => if runs_out(r, env, o, end) {
                None
            } else {
                match value_of(r, env, o, end) {
                    None => Some(None),
                    Some(ValueV::Number(b)) => match step {
                        None => Some(Some((a, b, interp::ONE))),
                        Some(e) => if runs_out(r, env, o, e) {
                            None
                        } else {
                            match value_of(r, env, o, e) {
                                None => Some(None),
                                Some(ValueV::Number(c)) => Some(Some((a, b, c))),
                                Some(_) => None,
                            }
                        },
                    },
                    Some(_) => None,
                }
            },
            Some(_) => None,
        }
    }
}

/// Execute the statements of a block from `i` on.
pub open spec fn run_block(r: ResolutionV, env: Env, o: Answers, b: BlockV, i: int, n: nat) -> Res
    decreases n, b, 0int,
{
    if 0 <= i < b.stats.len() {
        if n == 0 {
            Res::Out
        } else {
            match run_stat(r, env, o, b.stats[i], (n - 1) as nat) {
                Res::End(FlowV::Normal, env1, left) => if left < n {
                    run_block(r, env1, o, b, i + 1, left)
                } else {
                    Res::Out
                },
                x => x,
            }
        }
    } else {
        match b.ret {
            Some(x) => if x.exprs.len() > 0 {
                if runs_out(r, env, o, x.exprs[0]) {
                    Res::Out
                } else {
                    match value_of(r, env, o, x.exprs[0]) {
                        Some(v) => Res::End(FlowV::Return(v), env, n),
                        None => Res::Fail,
                    }
                }
            } else {
                Res::End(FlowV::Return(ValueV::Nil), env, n)
            },
            None => Res::End(FlowV::Normal, env, n),
        }
    }
}

/// Execute the arms of a conditional from `i` on; none if no condition holds.
pub open spec fn run_arms(
    r: ResolutionV,
    env: Env,
    o: Answers,
    arms: Seq<(ExprV, BlockV)>,
    i: int,
    n: nat,
) -> Option<Res>
    decreases n, arms, arms.len() - i,
{
    if 0 <= i < arms.len() {
        if runs_out(r, env, o, arms[i].0) {
            Some(Res::Out)
        } else {
            match value_of(r, env, o, arms[i].0) {
                Some(v) => if truthy(v) {
                    Some(run_block(r, env, o, arms[i].1, 0, n))
                } else {
                    run_arms(r, env, o, arms, i + 1, n)
                },
                None => Some(Res::Fail),
            }
        }
    } else {
        None
    }
}

/// Execute a loop.
pub open spec fn run_while(
    r: ResolutionV,
    env: Env,
    o: Answers,
    cond: ExprV,
    body: BlockV,
    n: nat,
) -> Res
    decreases n, body, 1int,
{
    if runs_out(r, env, o, cond) {
        Res::Out
    } else {
        match value_of(r, env, o, cond) {
            None => Res::Fail,
            Some(v) => if !truthy(v) {
                Res::End(FlowV::Normal, env, n)
            } else if n == 0 {
                Res::Out
            } else {
                match run_block(r, env, o, body, 0, (n - 1) as nat) {
                    Res::End(FlowV::Normal, env1, left) => if left < n {
                        run_while(r, env1, o, cond, body, left)
                    } else {
                        Res::Out
                    },
                    Res::End(FlowV::Break, env1, left) => Res::End(FlowV::Normal, env1, left),
                    x => x,
                }
            },
        }
    }
}

/// Execute a counting loop whose variable is at `a`.
pub open spec fn run_for(
    r: ResolutionV,
    env: Env,
    o: Answers,
    id: SymbolId,
    a: u64,
    b: u64,
    c: u64,
    body: BlockV,
    n: nat,
) -> Res
    decreases n, body, 1int,
{
    if !interp::goes_on(a, b, c) {
        Res::End(FlowV::Normal, env, n)
    } else if n == 0 {
        Res::Out
    } else {
        match run_block(r, env.insert(id, ValueV::Number(a)), o, body, 0, (n - 1) as nat) {
            Res::End(FlowV::Normal, env1, left) => if left < n {
                match answered(o, RequestV::Arith(BinOp::Add, a, c)) {
                    Some(ValueV::Number(d)) => run_for(r, env1, o, id, d, b, c, body, left),
                    Some(_) => Res::Out,
                    None => Res::Fail,
                }
            } else {
                Res::Out
            },
            Res::End(FlowV::Break, env1, left) => Res::End(FlowV::Normal, env1, left),
            x => x,
        }
    }
}

// ---- the interpreter ----------------------------------------------------------

/// Whether a heap begins with another.
pub open spec fn extends(h: HeapV, before: HeapV) -> bool {
    &&& before.len() <= h.len()
    &&& forall|i: int| 0 <= i < before.len() ==> h[i] == #[trigger] before[i]
}

/// The state with another heap.
pub open spec fn on(st: St, h: HeapV) -> St {
    St { heap: h, ..st }
}

/// Whether a walk from `st` ended as `v` says: with the value, on a heap that begins with the one
/// that there was, or in failure.
pub open spec fn ended_on(st: St, h: HeapV, v: Option<ValueV>, s: (St, ProgressV)) -> bool {
    match v {
        Some(x) => extends(h, st.heap) && s == (with_value(on(st, h), x), ProgressV::Running),
        None => has_failed(s.1),
    }
}

/// Whether the heap stays small enough, however long a walk goes on.
pub open spec fn roomy(m: ModuleV, r: ResolutionV, o: Answers, s: (St, ProgressV)) -> bool {
    forall|k: nat| (#[trigger] walk(m, r, o, s, k)).0.heap.len() < usize::MAX
}

pub(crate) proof fn lemma_roomy(m: ModuleV, r: ResolutionV, o: Answers, s: (St, ProgressV), k: nat)
    requires
        roomy(m, r, o, s),
    ensures
        roomy(m, r, o, walk(m, r, o, s, k)),
        walk(m, r, o, s, k).0.heap.len() < usize::MAX,
{
    let s1 = walk(m, r, o, s, k);
    assert forall|j: nat| (#[trigger] walk(m, r, o, s1, j)).0.heap.len() < usize::MAX by {
        lemma_walk(m, r, o, s, k, j);
        assert(walk(m, r, o, s, k + j).0.heap.len() < usize::MAX);
    }
}

/// Whether a state has the functions of the module, and no others, and the host functions.
pub open spec fn linked(m: ModuleV, r: ResolutionV, o: Answers, st: St) -> bool {
    let (fs, top) = top_functions(r, m.decls, m.decls.len());
    &&& st.funcs == fs
    &&& st.top == top
    &&& forall|n: Seq<char>| #[trigger] get_of(st.hosts, n) is Some <==> (o.hosts)(n)
}

/// The start of a call of a script function in the interpreter.
pub open spec fn call_start(st: St, name: Seq<char>, args: Seq<ValueV>) -> (St, ProgressV) {
    interp::call_value_of(st, get_of(st.top, name)->0, args)
}

/// Whether the interpreter can call a script function of which it is known what it comes to.
pub open spec fn callable(
    m: ModuleV,
    r: ResolutionV,
    o: Answers,
    st: St,
    name: Seq<char>,
    args: Seq<ValueV>,
) -> bool {
    &&& linked(m, r, o, st)
    &&& st.wait is None
    &&& st.ctrl is None
    &&& st.act is Some
    &&& forall|k: int| 0 <= k < args.len() ==> is_scalar(#[trigger] args[k])
    &&& called(o, name, args) is Some
    &&& roomy(m, r, o, call_start(st, name, args))
}

/// Whether the call comes to that after `k` steps, with the heap `h`.
pub open spec fn landed(
    m: ModuleV,
    r: ResolutionV,
    o: Answers,
    st: St,
    name: Seq<char>,
    args: Seq<ValueV>,
    k: nat,
    h: HeapV,
) -> bool {
    ended_on(st, h, called(o, name, args)->0, walk(m, r, o, call_start(st, name, args), k))
}

/// Whether the interpreter's calls of script functions come to what is known of them.
pub open spec fn calls_walk(m: ModuleV, r: ResolutionV, o: Answers) -> bool {
    &&& forall|name: Seq<char>, args: Seq<ValueV>| #[trigger]
        called(o, name, args) is Some ==> get_of(
            top_functions(r, m.decls, m.decls.len()).1,
            name,
        ) is Some
    &&& forall|st: St, name: Seq<char>, args: Seq<ValueV>| #[trigger]
        callable(m, r, o, st, name, args) ==> exists|k: nat, h: HeapV| #[trigger]
            landed(m, r, o, st, name, args, k, h)
}

proof fn lemma_holds_on(st: St, h: HeapV, env: Env)
    requires
        holds(st, env),
        extends(h, st.heap),
    ensures
        holds(on(st, h), env),
{
    reveal(St::slot);
    assert forall|id: SymbolId| #[trigger] env.dom().contains(id) implies on(st, h).lookup(id)
        == Some(env[id]) by {
        assert(st.lookup(id) == Some(env[id]));
        assert(on(st, h).slot(id) == st.slot(id));
        let s = st.slot(id)->0;
        assert(h[s as int] == st.heap[s as int]);
    }
}

/// The interpreter evaluates a simple expression to its value; it may add to the heap.
proof fn lemma_value_walk(
    m: ModuleV,
    r: ResolutionV,
    o: Answers,
    known: Set<SymbolId>,
    env: Env,
    e: ExprV,
    st: St,
) -> (z: (nat, HeapV))
    requires
        simple(r, known, e),
        known.subset_of(env.dom()),
        scalars(env),
        holds(st, env),
        st.wait is None,
        st.act is Some,
        st.ctrl == Some(CtrlV::Eval(e)),
        linked(m, r, o, st),
        calls_walk(m, r, o),
        !runs_out(r, env, o, e),
        roomy(m, r, o, (st, ProgressV::Running)),
    ensures
        ended_on(
            st,
            z.1,
            value_of(r, env, o, e),
            walk(m, r, o, (st, ProgressV::Running), z.0),
        ),
    decreases e, 0int,
{
    let s = (st, ProgressV::Running);
    lemma_walk_one(m, r, o, st);
    reveal(interp::eval_of);
    reveal(St::run);
    reveal(St::push);
    let base = St { ctrl: None, ..st };
    assert(interp::step_of(m, r, st) == interp::eval_of(m, r, base, e));
    lemma_roomy(m, r, o, s, 1);
    match e.kind {
        ExprKindV::Number(x) => {
            lemma_asked(m, r, o, base, RequestV::Numeral(x));
            lemma_walk(m, r, o, s, 1, 1);
            (2, st.heap)
        },
        ExprKindV::Name(name) => {
            reveal(interp::named);
            reveal(St::slot);
            let id = r.binding_of(e.span)->0->Local_0;
            assert(env.dom().contains(id));
            assert(base.lookup(id) == st.lookup(id));
            (1, st.heap)
        },
        ExprKindV::Paren(i) => {
            let st1 = St { ctrl: Some(CtrlV::Eval(*i)), ..st };
            super::lemma_holds(st, st1, env);
            let (k, h) = lemma_value_walk(m, r, o, known, env, *i, st1);
            lemma_walk(m, r, o, s, 1, k);
            (1 + k, h)
        },
        ExprKindV::Unary { op, operand } => {
            let st0 = St { konts: st.konts.push(KontV::Unary(op)), ..st };
            let st1 = St { ctrl: Some(CtrlV::Eval(*operand)), ..st0 };
            super::lemma_holds(st, st1, env);
            let (k, h) = lemma_value_walk(m, r, o, known, env, *operand, st1);
            lemma_walk(m, r, o, s, 1, k);
            lemma_value_scalar(r, known, env, o, *operand);
            match value_of(r, env, o, *operand) {
                Some(v) => {
                    assert(with_value(on(st1, h), v) == with_value(
                        St { konts: on(st, h).konts.push(KontV::Unary(op)), ..on(st, h) },
                        v,
                    ));
                    let j = lemma_unary_runs(m, r, o, on(st, h), op, v);
                    lemma_walk(m, r, o, s, 1 + k, j);
                    (1 + k + j, h)
                },
                None => (1 + k, h),
            }
        },
        ExprKindV::Binary { op, lhs, rhs } => {
            let st0 = St { konts: st.konts.push(KontV::Rhs(op, *rhs)), ..st };
            let st1 = St { ctrl: Some(CtrlV::Eval(*lhs)), ..st0 };
            super::lemma_holds(st, st1, env);
            let (k, h) = lemma_value_walk(m, r, o, known, env, *lhs, st1);
            lemma_walk(m, r, o, s, 1, k);
            match value_of(r, env, o, *lhs) {
                Some(l) => {
                    let g = on(st, h);
                    lemma_holds_on(st, h, env);
                    assert(with_value(on(st1, h), l) == with_value(
                        St { konts: g.konts.push(KontV::Rhs(op, *rhs)), ..g },
                        l,
                    ));
                    lemma_roomy(m, r, o, s, 1 + k);
                    let (j, h2) = lemma_rhs_walk(m, r, o, known, env, op, *lhs, *rhs, g, l);
                    lemma_walk(m, r, o, s, 1 + k, j);
                    (1 + k + j, h2)
                },
                None => (1 + k, h),
            }
        },
        ExprKindV::Field { base: b, name } => {
            reveal(St::fail);
            (1, st.heap)
        },
        ExprKindV::Call { callee, args } => {
            reveal(interp::eval_call_of);
            if builtin_of(r, *callee) is Some {
                let c = builtin_of(r, *callee)->0;
                assert(interp::eval_of(m, r, base, e) == interp::args_of(base, c, args, Seq::empty()));
                let (k, h) = lemma_args_walk(m, r, o, known, env, c, args, st, Seq::empty());
                lemma_walk(m, r, o, s, 1, k);
                lemma_values_scalar(r, known, env, o, args, 0, Seq::empty());
                match values_of(r, env, o, args, 0, Seq::empty()) {
                    Some(vs) => {
                        reveal(interp::call_of);
                        reveal(St::fail);
                        lemma_builtin(r, o, *callee, h, vs);
                        match builtin_outcome(h, c, vs) {
                            Ok(OutcomeV::Ask(q)) => {
                                lemma_asked(m, r, o, on(base, h), q);
                                lemma_walk(m, r, o, s, 1 + k, 1);
                                (1 + k + 1, h)
                            },
                            _ => (1 + k, h),
                        }
                    },
                    None => (1 + k, h),
                }
            } else {
                lemma_script_walk(m, r, o, known, env, e, *callee, args, st)
            }
        },
        _ => (1, st.heap),
    }
}

/// The interpreter calls a script or host function.
proof fn lemma_script_walk(
    m: ModuleV,
    r: ResolutionV,
    o: Answers,
    known: Set<SymbolId>,
    env: Env,
    e: ExprV,
    callee: ExprV,
    args: Seq<ExprV>,
    st: St,
) -> (z: (nat, HeapV))
    requires
        e.kind == (ExprKindV::Call { callee: Box::new(callee), args }),
        builtin_of(r, callee) is None,
        simple(r, known, e),
        known.subset_of(env.dom()),
        scalars(env),
        holds(st, env),
        st.wait is None,
        st.act is Some,
        st.ctrl == Some(CtrlV::Eval(e)),
        linked(m, r, o, st),
        calls_walk(m, r, o),
        !runs_out(r, env, o, e),
        roomy(m, r, o, (st, ProgressV::Running)),
    ensures
        ended_on(
            st,
            z.1,
            value_of(r, env, o, e),
            walk(m, r, o, (st, ProgressV::Running), z.0),
        ),
    decreases args, args.len() + 1,
{
    let s = (st, ProgressV::Running);
    let base = St { ctrl: None, ..st };
    reveal(interp::eval_of);
    reveal(interp::eval_call_of);
    reveal(interp::named);
    reveal(interp::have_in_expr);
    reveal(St::run);
    reveal(St::push);
    reveal(St::fail);
    let st0 = St { konts: st.konts.push(KontV::Callee(args)), ..base };
    let st1 = St { ctrl: Some(CtrlV::Eval(callee)), ..st0 };
    lemma_walk_one(m, r, o, st);
    assert(interp::step_of(m, r, st) == (st1, ProgressV::Running));
    lemma_walk_one(m, r, o, st1);
    lemma_walk(m, r, o, s, 1, 1);
    let found = match script_of(r, callee) {
        Some(name) => get_of(st.top, name),
        None => {
            let name = host_of(r, callee)->0;
            if get_of(st.hosts, name) is Some {
                Some(ValueV::Native(name))
            } else {
                None
            }
        },
    };
    match found {
        Some(f) => {
            let st2 = St { ctrl: Some(CtrlV::Have(f)), ..st0 };
            assert(interp::step_of(m, r, st1) == (st2, ProgressV::Running));
            lemma_walk_one(m, r, o, st2);
            assert(st2.konts.drop_last() =~= st.konts);
            assert(St { konts: st2.konts.drop_last(), ..St { ctrl: None, ..st2 } } == base);
            let c = CalleeV::Value(f);
            assert(interp::step_of(m, r, st2) == interp::args_of(base, c, args, Seq::empty()));
            lemma_walk(m, r, o, s, 2, 1);
            lemma_roomy(m, r, o, s, 3);
            let (k, h) = lemma_args_walk(m, r, o, known, env, c, args, st, Seq::empty());
            lemma_walk(m, r, o, s, 3, k);
            lemma_values_scalar(r, known, env, o, args, 0, Seq::empty());
            match values_of(r, env, o, args, 0, Seq::empty()) {
                Some(vs) => {
                    reveal(interp::call_of);
                    let g = on(base, h);
                    lemma_roomy(m, r, o, s, 3 + k);
                    match script_of(r, callee) {
                        Some(name) => {
                            assert(interp::call_of(g, c, vs) == call_start(g, name, vs));
                            assert(called(o, name, vs) is Some);
                            assert(callable(m, r, o, g, name, vs));
                            let (j, h2) = choose|j: nat, h2: HeapV| #[trigger]
                                landed(m, r, o, g, name, vs, j, h2);
                            lemma_walk(m, r, o, s, 3 + k, j);
                            assert(with_value(on(g, h2), ValueV::Nil) == with_value(
                                on(st, h2),
                                ValueV::Nil,
                            ));
                            (3 + k + j, h2)
                        },
                        None => {
                            let name = host_of(r, callee)->0;
                            let q = RequestV::Host(name, vs);
                            reveal(interp::call_value_of);
                            assert(interp::call_of(g, c, vs) == g.ask(q));
                            lemma_asked(m, r, o, g, q);
                            lemma_walk(m, r, o, s, 3 + k, 1);
                            (3 + k + 1, h)
                        },
                    }
                },
                None => (3 + k, h),
            }
        },
        None => {
            // The call fails, before the arguments are evaluated.
            let (st2, p2) = interp::step_of(m, r, st1);
            assert(has_failed(p2));
            match script_of(r, callee) {
                Some(name) => lemma_no_script(m, r, o, env, name, args),
                None => {},
            }
            (2, st.heap)
        },
    }
}

/// Nothing is known of a function that there is not.
proof fn lemma_no_script(
    m: ModuleV,
    r: ResolutionV,
    o: Answers,
    env: Env,
    name: Seq<char>,
    args: Seq<ExprV>,
)
    requires
        calls_walk(m, r, o),
        get_of(top_functions(r, m.decls, m.decls.len()).1, name) is None,
    ensures
        values_of(r, env, o, args, 0, Seq::empty()) matches Some(vs) ==> called(o, name, vs) is None,
{
}

/// What the interpreter does once the first arguments of a call are there: it evaluates the
/// others, and calls.
proof fn lemma_args_walk(
    m: ModuleV,
    r: ResolutionV,
    o: Answers,
    known: Set<SymbolId>,
    env: Env,
    c: CalleeV,
    args: Seq<ExprV>,
    st: St,
    done: Seq<ValueV>,
) -> (z: (nat, HeapV))
    requires
        forall|k: int| 0 <= k < args.len() ==> simple(r, known, #[trigger] args[k]),
        known.subset_of(env.dom()),
        scalars(env),
        holds(st, env),
        st.wait is None,
        st.act is Some,
        linked(m, r, o, st),
        calls_walk(m, r, o),
        done.len() <= args.len(),
        !one_runs_out(r, env, o, args, done.len() as int),
        roomy(m, r, o, interp::args_of(St { ctrl: None, ..st }, c, args, done)),
    ensures
        ({
            let base = St { ctrl: None, ..st };
            let s = walk(m, r, o, interp::args_of(base, c, args, done), z.0);
            match values_of(r, env, o, args, done.len() as int, done) {
                Some(vs) => extends(z.1, st.heap) && s == interp::call_of(on(base, z.1), c, vs),
                None => has_failed(s.1),
            }
        }),
    decreases args, args.len() - done.len(),
{
    let base = St { ctrl: None, ..st };
    reveal(interp::args_of);
    reveal(St::run);
    reveal(St::push);
    let s = interp::args_of(base, c, args, done);
    let i = done.len() as int;
    if i < args.len() {
        let st2 = St { konts: st.konts.push(KontV::Args(c, args, done)), ..st };
        let st3 = St { ctrl: Some(CtrlV::Eval(args[i])), ..st2 };
        super::lemma_holds(st, st3, env);
        assert(s == (st3, ProgressV::Running));
        let (k, h) = lemma_value_walk(m, r, o, known, env, args[i], st3);
        match value_of(r, env, o, args[i]) {
            Some(v) => {
                let g = on(st, h);
                let st4 = with_value(on(st3, h), v);
                reveal(interp::have_in_expr);
                assert(st4.konts.drop_last() =~= st.konts);
                assert(St { konts: st4.konts.drop_last(), ..St { ctrl: None, ..st4 } } == on(base, h));
                assert(interp::step_of(m, r, st4) == interp::args_of(
                    on(base, h),
                    c,
                    args,
                    done.push(v),
                ));
                lemma_walk_one(m, r, o, st4);
                lemma_walk(m, r, o, s, k, 1);
                lemma_roomy(m, r, o, s, k + 1);
                lemma_holds_on(st, h, env);
                assert(St { ctrl: None, ..g } == on(base, h));
                let (j, h2) = lemma_args_walk(m, r, o, known, env, c, args, g, done.push(v));
                lemma_walk(m, r, o, s, k + 1, j);
                assert(on(St { ctrl: None, ..g }, h2) == on(base, h2));
                (k + 1 + j, h2)
            },
            None => (k, h),
        }
    } else {
        assert(on(base, st.heap) == base);
        (0, st.heap)
    }
}

/// What the interpreter does once the left operand is there.
proof fn lemma_rhs_walk(
    m: ModuleV,
    r: ResolutionV,
    o: Answers,
    known: Set<SymbolId>,
    env: Env,
    op: BinOp,
    lhs: ExprV,
    rhs: ExprV,
    st: St,
    l: ValueV,
) -> (z: (nat, HeapV))
    requires
        simple(r, known, lhs),
        simple(r, known, rhs),
        known.subset_of(env.dom()),
        scalars(env),
        holds(st, env),
        st.wait is None,
        st.act is Some,
        linked(m, r, o, st),
        calls_walk(m, r, o),
        value_of(r, env, o, lhs) == Some(l),
        op == BinOp::And && !truthy(l) || op == BinOp::Or && truthy(l) || !runs_out(r, env, o, rhs),
        roomy(
            m,
            r,
            o,
            (
                with_value(St { konts: st.konts.push(KontV::Rhs(op, rhs)), ..st }, l),
                ProgressV::Running,
            ),
        ),
    ensures
        ({
            let s = with_value(St { konts: st.konts.push(KontV::Rhs(op, rhs)), ..st }, l);
            let x = if op == BinOp::And && !truthy(l) || op == BinOp::Or && truthy(l) {
                Some(l)
            } else {
                match value_of(r, env, o, rhs) {
                    Some(b) => if op == BinOp::And || op == BinOp::Or {
                        Some(b)
                    } else {
                        binary_meaning(o, op, l, b)
                    },
                    None => None,
                }
            };
            ended_on(st, z.1, x, walk(m, r, o, (s, ProgressV::Running), z.0))
        }),
    decreases rhs, 1int,
{
    let s = with_value(St { konts: st.konts.push(KontV::Rhs(op, rhs)), ..st }, l);
    let run = (s, ProgressV::Running);
    let base = St { ctrl: None, ..st };
    reveal(interp::have_in_expr);
    reveal(interp::rhs_of);
    reveal(St::run);
    reveal(St::push);
    assert(s.konts.drop_last() =~= st.konts);
    assert(St { konts: s.konts.drop_last(), ..St { ctrl: None, ..s } } == base);
    assert(interp::step_of(m, r, s) == interp::rhs_of(base, op, rhs, l));
    lemma_walk_one(m, r, o, s);
    lemma_roomy(m, r, o, run, 1);
    lemma_value_scalar(r, known, env, o, lhs);
    lemma_value_scalar(r, known, env, o, rhs);
    if op == BinOp::And || op == BinOp::Or {
        if truthy(l) == (op == BinOp::And) {
            let st1 = St { ctrl: Some(CtrlV::Eval(rhs)), ..st };
            super::lemma_holds(st, st1, env);
            let (j, h) = lemma_value_walk(m, r, o, known, env, rhs, st1);
            lemma_walk(m, r, o, run, 1, j);
            (1 + j, h)
        } else {
            (1, st.heap)
        }
    } else {
        let st2 = St { konts: st.konts.push(KontV::Binary(op, l)), ..st };
        let st3 = St { ctrl: Some(CtrlV::Eval(rhs)), ..st2 };
        super::lemma_holds(st, st3, env);
        let (j, h) = lemma_value_walk(m, r, o, known, env, rhs, st3);
        lemma_walk(m, r, o, run, 1, j);
        match value_of(r, env, o, rhs) {
            Some(v) => {
                let g = on(st, h);
                assert(with_value(on(st3, h), v) == with_value(
                    St { konts: g.konts.push(KontV::Binary(op, l)), ..g },
                    v,
                ));
                let i = lemma_binary_runs(m, r, o, g, op, l, v);
                lemma_walk(m, r, o, run, 1 + j, i);
                (1 + j + i, h)
            },
            None => (1 + j, h),
        }
    }
}

/// Whether a state holds exactly the variables of `env`, each in a slot of its own.
pub open spec fn situated(st: St, env: Env) -> bool {
    &&& st.act is Some
    &&& st.act->0.locals.dom() == env.dom()
    &&& forall|id: SymbolId| #[trigger]
        env.dom().contains(id) ==> st.act->0.locals[id] < st.heap.len()
            && st.heap[st.act->0.locals[id] as int] == ObjV::Cell(env[id])
    &&& forall|id: SymbolId, jd: SymbolId|
        env.dom().contains(id) && env.dom().contains(jd) && id != jd
            ==> #[trigger] st.act->0.locals[id] != #[trigger] st.act->0.locals[jd]
}

proof fn lemma_situated(st: St, env: Env)
    requires
        situated(st, env),
    ensures
        holds(st, env),
{
    reveal(St::slot);
    assert forall|id: SymbolId| #[trigger] env.dom().contains(id) implies st.lookup(id) == Some(
        env[id],
    ) by {
        assert(st.act->0.locals.dom().contains(id));
    }
}

proof fn lemma_situated_on(st: St, h: HeapV, env: Env)
    requires
        situated(st, env),
        extends(h, st.heap),
    ensures
        situated(on(st, h), env),
{
    assert forall|id: SymbolId| #[trigger] env.dom().contains(id) implies on(
        st,
        h,
    ).act->0.locals[id] < h.len() && h[st.act->0.locals[id] as int] == ObjV::Cell(env[id]) by {
        assert(h[st.act->0.locals[id] as int] == st.heap[st.act->0.locals[id] as int]);
    }
}

proof fn lemma_stored(st: St, env: Env, id: SymbolId, v: ValueV)
    requires
        situated(st, env),
        env.dom().contains(id),
    ensures
        situated(st.stored(st.act->0.locals[id], v), env.insert(id, v)),
        st.stored(st.act->0.locals[id], v) == (St {
            heap: st.stored(st.act->0.locals[id], v).heap,
            ..st
        }),
        st.stored(st.act->0.locals[id], v).heap.len() == st.heap.len(),
        forall|i: int|
            0 <= i < st.heap.len() && i != st.act->0.locals[id] ==> st.stored(
                st.act->0.locals[id],
                v,
            ).heap[i] == #[trigger] st.heap[i],
{
    reveal(St::stored);
    let s = st.stored(st.act->0.locals[id], v);
    let e = env.insert(id, v);
    assert(e.dom() =~= env.dom());
    assert forall|k: SymbolId| #[trigger] e.dom().contains(k) implies s.act->0.locals[k]
        < s.heap.len() && s.heap[s.act->0.locals[k] as int] == ObjV::Cell(e[k]) by {
        assert(env.dom().contains(k));
        if k != id {
            assert(st.act->0.locals[k] != st.act->0.locals[id]);
        }
    }
}

proof fn lemma_added(st: St, env: Env, id: SymbolId, v: ValueV)
    requires
        situated(st, env),
        !env.dom().contains(id),
        st.heap.len() < usize::MAX,
    ensures
        situated(st.bound(id, v), env.insert(id, v)),
        st.bound(id, v) == (St {
            heap: st.bound(id, v).heap,
            act: st.bound(id, v).act,
            ..st
        }),
        st.bound(id, v).heap.len() == st.heap.len() + 1,
        forall|i: int|
            0 <= i < st.heap.len() ==> st.bound(id, v).heap[i] == #[trigger] st.heap[i],
        st.bound(id, v).act->0.locals == st.act->0.locals.insert(id, st.heap.len() as usize),
{
    reveal(St::bound);
    let s = st.bound(id, v);
    let e = env.insert(id, v);
    assert(s.act->0.locals.dom() =~= e.dom());
    assert forall|k: SymbolId| #[trigger] e.dom().contains(k) implies s.act->0.locals[k]
        < s.heap.len() && s.heap[s.act->0.locals[k] as int] == ObjV::Cell(e[k]) by {
        if k != id {
            assert(env.dom().contains(k));
        }
    }
    assert forall|k: SymbolId, j: SymbolId|
        e.dom().contains(k) && e.dom().contains(j) && k != j implies #[trigger] s.act->0.locals[k]
        != #[trigger] s.act->0.locals[j] by {
        if k != id {
            assert(env.dom().contains(k));
        }
        if j != id {
            assert(env.dom().contains(j));
        }
    }
}

/// Whether a walk from `st` ended as `x` says: control goes on in the same place with the
/// variables of `x`, and the first `fl` objects of the heap are as they were; or the walk failed.
pub open spec fn flowed(st: St, env: Env, fl: nat, x: Res, s: (St, ProgressV)) -> bool {
    match x {
        Res::Out => true,
        Res::Fail => has_failed(s.1),
        Res::End(f, env1, left) => {
            &&& s.1 is Running
            &&& s.0 == (St {
                heap: s.0.heap,
                act: s.0.act,
                ctrl: Some(CtrlV::Flow(f)),
                ..st
            })
            &&& situated(s.0, env1)
            &&& above(s.0, env1, fl)
            &&& kept(s.0.heap, st.heap, fl)
            &&& scalars(env1)
            &&& env.dom().subset_of(env1.dom())
        },
    }
}

/// Whether the first `fl` objects of a heap are those of another.
#[verifier::opaque]
pub open spec fn kept(h: HeapV, before: HeapV, fl: nat) -> bool {
    &&& fl <= h.len()
    &&& fl <= before.len()
    &&& forall|i: int| 0 <= i < fl ==> #[trigger] h[i] == before[i]
}

proof fn lemma_kept(a: HeapV, b: HeapV, c: HeapV, fl: nat)
    requires
        kept(b, a, fl),
        kept(c, b, fl),
    ensures
        kept(c, a, fl),
{
    reveal(kept);
    assert forall|i: int| 0 <= i < fl implies #[trigger] c[i] == a[i] by {
        assert(b[i] == a[i]);
    }
}

/// Whether the slots of the variables come after the first `fl` objects of the heap.
pub open spec fn above(st: St, env: Env, fl: nat) -> bool {
    &&& fl <= st.heap.len()
    &&& forall|id: SymbolId| #[trigger] env.dom().contains(id) ==> fl <= st.act->0.locals[id]
}

/// A state of the module that holds the variables, after the first `fl` objects of the heap, and
/// waits for nothing.
pub open spec fn ready(m: ModuleV, r: ResolutionV, o: Answers, st: St, env: Env, fl: nat) -> bool {
    &&& situated(st, env)
    &&& above(st, env, fl)
    &&& scalars(env)
    &&& st.wait is None
    &&& linked(m, r, o, st)
}

/// The interpreter evaluates an operand of a statement and goes on with what waits for it.
proof fn lemma_operand_walk(
    m: ModuleV,
    r: ResolutionV,
    o: Answers,
    fl: nat,
    known: Set<SymbolId>,
    env: Env,
    e: ExprV,
    kont: KontV,
    base: St,
) -> (z: (nat, HeapV))
    requires
        simple(r, known, e),
        known.subset_of(env.dom()),
        ready(m, r, o, base, env, fl),
        base.ctrl is None,
        !interp::in_expr(kont),
        calls_walk(m, r, o),
        !runs_out(r, env, o, e),
        roomy(m, r, o, base.eval(e, kont)),
    ensures
        ({
            let s = walk(m, r, o, base.eval(e, kont), z.0);
            match value_of(r, env, o, e) {
                Some(v) => {
                    &&& s == interp::have_in_stat(r, on(base, z.1), kont, v)
                    &&& kept(z.1, base.heap, fl)
                    &&& ready(m, r, o, on(base, z.1), env, fl)
                    &&& roomy(m, r, o, s)
                },
                None => has_failed(s.1),
            }
        }),
{
    reveal(St::run);
    reveal(St::push);
    let start = base.eval(e, kont);
    let st = start.0;
    lemma_situated(base, env);
    super::lemma_holds(base, st, env);
    let (k, h) = lemma_value_walk(m, r, o, known, env, e, st);
    match value_of(r, env, o, e) {
        Some(v) => {
            let sv = with_value(on(st, h), v);
            lemma_walk_one(m, r, o, sv);
            assert(sv.konts.drop_last() =~= base.konts);
            assert(St { konts: sv.konts.drop_last(), ..St { ctrl: None, ..sv } } == on(base, h));
            lemma_walk(m, r, o, start, k, 1);
            lemma_situated_on(base, h, env);
            assert(kept(h, base.heap, fl)) by {
                reveal(kept);
            }
            lemma_roomy(m, r, o, start, k + 1);
            (k + 1, h)
        },
        None => (k, h),
    }
}

pub(crate) proof fn lemma_scalars_insert(env: Env, id: SymbolId, v: ValueV)
    requires
        scalars(env),
        is_scalar(v),
    ensures
        scalars(env.insert(id, v)),
{
    let e = env.insert(id, v);
    assert forall|k: SymbolId| #[trigger] e.dom().contains(k) implies is_scalar(e[k]) by {
        if k != id {
            assert(env.dom().contains(k));
        }
    }
}

/// `local x = e`.
proof fn lemma_local_walk(
    m: ModuleV,
    r: ResolutionV,
    o: Answers,
    fl: nat,
    known: Set<SymbolId>,
    env: Env,
    s: StatV,
    n: nat,
    st: St,
) -> (k: nat)
    requires
        s.kind is Local,
        stat_ok(r, known, s, true),
        known.subset_of(env.dom()),
        ready(m, r, o, st, env, fl),
        calls_walk(m, r, o),
        roomy(m, r, o, (st, ProgressV::Running)),
        st.ctrl == Some(CtrlV::Exec(s)),
    ensures
        flowed(st, env, fl, run_stat(r, env, o, s, n), walk(m, r, o, (st, ProgressV::Running), k)),
{
    let (name, id, e) = declaration(r, s)->0;
    let names = s.kind->Local_names;
    let exprs = s.kind->Local_exprs;
    let run = (st, ProgressV::Running);
    let a0 = St { ctrl: None, ..st };
    let kont = KontV::Local(names, exprs, Seq::empty());
    assert(walk(m, r, o, run, 1) == a0.eval(e, kont)) by {
        lemma_walk_one(m, r, o, st);
        reveal(interp::exec_of);
        reveal(interp::local_of);
    }
    assert(situated(a0, env));
    if runs_out(r, env, o, e) {
        0
    } else {
        lemma_roomy(m, r, o, run, 1);
        let (j, h) = lemma_operand_walk(m, r, o, fl, known, env, e, kont, a0);
        lemma_walk(m, r, o, run, 1, j);
        lemma_value_scalar(r, known, env, o, e);
        match value_of(r, env, o, e) {
            Some(v) => {
                let a = on(a0, h);
                let done = Seq::<ValueV>::empty().push(v);
                lemma_scalars_insert(env, id, v);
                let a1 = if env.dom().contains(id) {
                    a.stored(a.act->0.locals[id], v)
                } else {
                    a.bound(id, v)
                };
                assert(walk(m, r, o, run, 1 + j) == a1.flow(FlowV::Normal)) by {
                    reveal(interp::have_in_stat);
                    reveal(interp::local_of);
                    reveal(St::declared);
                    unfold_declare_all(r, a, names, done, 0);
                    unfold_declare_all(r, a1, names, done, 1);
                    assert(arg(done, 0) == v);
                    assert(names[0] == name);
                    assert(a.declared(r, name, v) == Ok::<St, crate::value::RunErrorV>(a1));
                }
                lemma_roomy(m, r, o, run, 1 + j);
                reveal(St::run);
                if env.dom().contains(id) {
                    lemma_stored(a, env, id, v);
                } else {
                    assert(a1.heap.len() == h.len() + 1) by {
                        reveal(St::bound);
                    }
                    lemma_added(a, env, id, v);
                }
                assert(kept(a1.heap, h, fl)) by {
                    reveal(kept);
                }
                lemma_kept(st.heap, h, a1.heap, fl);
                assert(situated(a1.flow(FlowV::Normal).0, env.insert(id, v)));
                assert(above(a1.flow(FlowV::Normal).0, env.insert(id, v), fl));
                1 + j
            },
            None => 1 + j,
        }
    }
}

/// `x = e`.
proof fn lemma_assign_walk(
    m: ModuleV,
    r: ResolutionV,
    o: Answers,
    fl: nat,
    known: Set<SymbolId>,
    env: Env,
    s: StatV,
    n: nat,
    st: St,
) -> (k: nat)
    requires
        s.kind is Assign,
        stat_ok(r, known, s, true),
        known.subset_of(env.dom()),
        ready(m, r, o, st, env, fl),
        calls_walk(m, r, o),
        roomy(m, r, o, (st, ProgressV::Running)),
        st.ctrl == Some(CtrlV::Exec(s)),
    ensures
        flowed(st, env, fl, run_stat(r, env, o, s, n), walk(m, r, o, (st, ProgressV::Running), k)),
{
    let (id, e) = assignment(r, s)->0;
    let targets = s.kind->Assign_targets;
    let exprs = s.kind->Assign_exprs;
    let run = (st, ProgressV::Running);
    let a0 = St { ctrl: None, ..st };
    let kont = KontV::Values(targets, exprs, Seq::empty());
    assert(walk(m, r, o, run, 1) == a0.eval(e, kont)) by {
        lemma_walk_one(m, r, o, st);
        reveal(interp::exec_of);
        reveal(interp::values_of);
    }
    assert(situated(a0, env));
    if runs_out(r, env, o, e) {
        0
    } else {
        lemma_roomy(m, r, o, run, 1);
        let (j, h) = lemma_operand_walk(m, r, o, fl, known, env, e, kont, a0);
        lemma_walk(m, r, o, run, 1, j);
        lemma_value_scalar(r, known, env, o, e);
        match value_of(r, env, o, e) {
            Some(v) => {
                let a = on(a0, h);
                let done = Seq::<ValueV>::empty().push(v);
                let wait = KontV::Assign(targets, done, 1);
                let b0 = St { konts: st.konts.push(wait), ..a };
                assert(env.dom().contains(id));
                lemma_scalars_insert(env, id, v);
                assert(situated(b0, env));
                lemma_stored(b0, env, id, v);
                let b1 = b0.stored(b0.act->0.locals[id], v);
                let mid = b1.flow(FlowV::Normal);
                assert(walk(m, r, o, run, 1 + j) == mid) by {
                    reveal(interp::have_in_stat);
                    reveal(interp::values_of);
                    reveal(interp::assign_of);
                    reveal(St::assigned);
                    reveal(St::slot);
                    reveal(St::push);
                    assert(arg(done, 0) == v);
                    assert(b0.slot(id) == Some(b0.act->0.locals[id]));
                }
                let a1 = St { heap: b1.heap, ..a };
                assert(walk(m, r, o, mid, 1) == a1.flow(FlowV::Normal)) by {
                    reveal(St::run);
                    reveal(interp::flow_of);
                    reveal(interp::assign_of);
                    lemma_walk_one(m, r, o, mid.0);
                    assert(mid.0.konts.last() == wait);
                    assert(mid.0.konts.drop_last() =~= st.konts);
                    assert(St { konts: mid.0.konts.drop_last(), ..St { ctrl: None, ..mid.0 } }
                        == a1);
                }
                lemma_walk(m, r, o, run, 1 + j, 1);
                reveal(St::run);
                assert(kept(b1.heap, h, fl)) by {
                    reveal(kept);
                }
                lemma_kept(st.heap, h, b1.heap, fl);
                assert(situated(a1.flow(FlowV::Normal).0, env.insert(id, v)));
                assert(above(a1.flow(FlowV::Normal).0, env.insert(id, v), fl));
                1 + j + 1
            },
            None => 1 + j,
        }
    }
}

/// The interpreter executes a statement.
proof fn lemma_stat_walk(
    m: ModuleV,
    r: ResolutionV,
    o: Answers,
    fl: nat,
    known: Set<SymbolId>,
    env: Env,
    s: StatV,
    looped: bool,
    n: nat,
    st: St,
) -> (k: nat)
    requires
        stat_ok(r, known, s, looped),
        known.subset_of(env.dom()),
        ready(m, r, o, st, env, fl),
        calls_walk(m, r, o),
        roomy(m, r, o, (st, ProgressV::Running)),
        st.ctrl == Some(CtrlV::Exec(s)),
    ensures
        flowed(st, env, fl, run_stat(r, env, o, s, n), walk(m, r, o, (st, ProgressV::Running), k)),
    decreases n, s, 0int,
{
    let run = (st, ProgressV::Running);
    let a0 = St { ctrl: None, ..st };
    lemma_walk_one(m, r, o, st);
    lemma_roomy(m, r, o, run, 1);
    assert(situated(a0, env));
    assert(above(a0, env, fl));
    assert(kept(st.heap, st.heap, fl)) by {
        reveal(kept);
    }
    match s.kind {
        StatKindV::Empty => {
            reveal(interp::exec_of);
            reveal(St::run);
            assert(situated(a0.flow(FlowV::Normal).0, env));
            1
        },
        StatKindV::Break => {
            reveal(interp::exec_of);
            reveal(St::run);
            assert(situated(a0.flow(FlowV::Break).0, env));
            1
        },
        StatKindV::Local { .. } => lemma_local_walk(m, r, o, fl, known, env, s, n, st),
        StatKindV::Assign { .. } => lemma_assign_walk(m, r, o, fl, known, env, s, n, st),
        StatKindV::Call(e) => {
            reveal(interp::exec_of);
            if runs_out(r, env, o, e) {
                0
            } else {
                let (k, h) = lemma_operand_walk(m, r, o, fl, known, env, e, KontV::Drop, a0);
                lemma_walk(m, r, o, run, 1, k);
                if value_of(r, env, o, e) is Some {
                    reveal(interp::have_in_stat);
                    reveal(St::run);
                    assert(situated(on(a0, h).flow(FlowV::Normal).0, env));
                    assert(above(on(a0, h).flow(FlowV::Normal).0, env, fl));
                }
                1 + k
            }
        },
        StatKindV::Do(b) => {
            reveal(interp::exec_of);
            reveal(St::run);
            let st1 = St { ctrl: Some(CtrlV::Block(b, 0)), ..st };
            assert(walk(m, r, o, run, 1) == (st1, ProgressV::Running));
            lemma_walk_one(m, r, o, st1);
            assert(interp::step_of(m, r, st1) == interp::block_of(a0, b, 0));
            lemma_walk(m, r, o, run, 1, 1);
            lemma_roomy(m, r, o, run, 2);
            let k = lemma_block_walk(m, r, o, fl, known, env, b, 0, looped, n, a0);
            lemma_walk(m, r, o, run, 2, k);
            2 + k
        },
        StatKindV::While { cond, body } => {
            reveal(interp::exec_of);
            let k = lemma_while_walk(m, r, o, fl, known, env, cond, body, n, a0);
            lemma_walk(m, r, o, run, 1, k);
            1 + k
        },
        StatKindV::NumericFor { var, start, end, step, body } => {
            reveal(interp::exec_of);
            let id = r.def_of(var.span)->0;
            let (k, h) = lemma_range_walk(m, r, o, fl, known, env, var, start, end, step, body, a0);
            lemma_walk(m, r, o, run, 1, k);
            match range_of(r, env, o, start, end, step) {
                Some(Some((a, b, c))) => {
                    let g = on(a0, h);
                    lemma_roomy(m, r, o, run, 1 + k);
                    let j = lemma_for_walk(m, r, o, fl, known, env, var, id, a, b, c, body, n, g);
                    lemma_walk(m, r, o, run, 1 + k, j);
                    if run_for(r, env, o, id, a, b, c, body, n) is End {
                        lemma_kept(st.heap, h, walk(m, r, o, run, 1 + k + j).0.heap, fl);
                    }
                    1 + k + j
                },
                _ => 1 + k,
            }
        },
        StatKindV::If { arms, else_block } => {
            reveal(interp::exec_of);
            let (k, h) = lemma_arms_walk(m, r, o, fl, known, env, arms, 0, else_block, looped, n, a0);
            let g = on(a0, h);
            match run_arms(r, env, o, arms, 0, n) {
                Some(_) => {
                    lemma_walk(m, r, o, run, 1, k);
                    1 + k
                },
                None => {
                    lemma_walk(m, r, o, run, 1, k);
                    match else_block {
                        Some(b) => {
                            reveal(St::run);
                            let st1 = St { ctrl: Some(CtrlV::Block(b, 0)), ..g };
                            lemma_walk_one(m, r, o, st1);
                            assert(St { ctrl: None, ..st1 } == g);
                            assert(interp::step_of(m, r, st1) == interp::block_of(g, b, 0));
                            lemma_walk(m, r, o, run, 1 + k, 1);
                            lemma_roomy(m, r, o, run, 1 + k + 1);
                            let j = lemma_block_walk(m, r, o, fl, known, env, b, 0, looped, n, g);
                            lemma_walk(m, r, o, run, 1 + k + 1, j);
                            if run_block(r, env, o, b, 0, n) is End {
                                lemma_kept(st.heap, h, walk(m, r, o, run, 1 + k + 1 + j).0.heap, fl);
                            }
                            1 + k + 1 + j
                        },
                        None => {
                            reveal(St::run);
                            assert(situated(g.flow(FlowV::Normal).0, env));
                            1 + k
                        },
                    }
                },
            }
        },
        _ => 0,
    }
}

/// The interpreter executes a block, from statement `i` on.
pub(crate) proof fn lemma_block_walk(
    m: ModuleV,
    r: ResolutionV,
    o: Answers,
    fl: nat,
    known: Set<SymbolId>,
    env: Env,
    b: BlockV,
    i: int,
    looped: bool,
    n: nat,
    base: St,
) -> (k: nat)
    requires
        0 <= i <= b.stats.len(),
        block_ok(r, known, b, i, looped),
        known.subset_of(env.dom()),
        ready(m, r, o, base, env, fl),
        base.ctrl is None,
        calls_walk(m, r, o),
        roomy(m, r, o, interp::block_of(base, b, i)),
    ensures
        flowed(
            base,
            env,
            fl,
            run_block(r, env, o, b, i, n),
            walk(m, r, o, interp::block_of(base, b, i), k),
        ),
    decreases n, b, 0int,
{
    let start = interp::block_of(base, b, i);
    if i < b.stats.len() {
        if n == 0 {
            0
        } else {
            let n1 = (n - 1) as nat;
            let stat = b.stats[i];
            let wait = KontV::Block(b, i + 1);
            let st = St {
                konts: base.konts.push(wait),
                ctrl: Some(CtrlV::Exec(stat)),
                ..base
            };
            assert(start == (st, ProgressV::Running)) by {
                reveal(interp::block_of);
                reveal(St::run);
                reveal(St::push);
            }
            assert(situated(st, env));
            assert(above(st, env, fl));
            let k = lemma_stat_walk(m, r, o, fl, known, env, stat, looped, n1, st);
            match run_stat(r, env, o, stat, n1) {
                Res::End(f, env1, left) => {
                    let s = walk(m, r, o, start, k).0;
                    let next = St { heap: s.heap, act: s.act, ..base };
                    lemma_walk_one(m, r, o, s);
                    reveal(interp::flow_of);
                    assert(s.konts.last() == wait);
                    assert(s.konts.drop_last() =~= base.konts);
                    assert(St { konts: s.konts.drop_last(), ..St { ctrl: None, ..s } } == next);
                    lemma_walk(m, r, o, start, k, 1);
                    assert(situated(next, env1));
                    match f {
                        FlowV::Normal => {
                            if left < n {
                                lemma_roomy(m, r, o, start, k + 1);
                                lemma_known_after(r, known, env, o, stat, looped, n1);
                                let j = lemma_block_walk(
                                    m,
                                    r,
                                    o, fl,
                                    known_after(r, known, stat),
                                    env1,
                                    b,
                                    i + 1,
                                    looped,
                                    left,
                                    next,
                                );
                                lemma_walk(m, r, o, start, k + 1, j);
                                if run_block(r, env1, o, b, i + 1, left) is End {
                                    lemma_kept(
                                        base.heap,
                                        s.heap,
                                        walk(m, r, o, start, k + 1 + j).0.heap,
                                        fl,
                                    );
                                }
                                k + 1 + j
                            } else {
                                0
                            }
                        },
                        _ => {
                            reveal(St::run);
                            assert(situated(next.flow(f).0, env1));
                            assert(above(next.flow(f).0, env1, fl));
                            k + 1
                        },
                    }
                },
                _ => k,
            }
        }
    } else {
        reveal(interp::block_of);
        assert(kept(base.heap, base.heap, fl)) by {
            reveal(kept);
        }
        match b.ret {
            Some(x) => {
                if x.exprs.len() > 0 {
                    lemma_return_walk(m, r, o, fl, known, env, x.exprs[0], n, base)
                } else {
                    reveal(St::run);
                    assert(situated(base.flow(FlowV::Return(ValueV::Nil)).0, env));
                    0
                }
            },
            None => {
                reveal(St::run);
                assert(situated(base.flow(FlowV::Normal).0, env));
                0
            },
        }
    }
}

/// `return e`.
proof fn lemma_return_walk(
    m: ModuleV,
    r: ResolutionV,
    o: Answers,
    fl: nat,
    known: Set<SymbolId>,
    env: Env,
    e: ExprV,
    n: nat,
    base: St,
) -> (k: nat)
    requires
        simple(r, known, e),
        known.subset_of(env.dom()),
        ready(m, r, o, base, env, fl),
        base.ctrl is None,
        calls_walk(m, r, o),
        roomy(m, r, o, base.eval(e, KontV::Return)),
    ensures
        flowed(
            base,
            env,
            fl,
            if runs_out(r, env, o, e) {
                Res::Out
            } else {
                match value_of(r, env, o, e) {
                    Some(v) => Res::End(FlowV::Return(v), env, n),
                    None => Res::Fail,
                }
            },
            walk(m, r, o, base.eval(e, KontV::Return), k),
        ),
{
    if runs_out(r, env, o, e) {
        0
    } else {
        let (k, h) = lemma_operand_walk(m, r, o, fl, known, env, e, KontV::Return, base);
        match value_of(r, env, o, e) {
            Some(v) => {
                reveal(interp::have_in_stat);
                reveal(St::run);
                assert(situated(on(base, h).flow(FlowV::Return(v)).0, env));
                k
            },
            None => k,
        }
    }
}

/// What a statement declares is there after it.
pub(crate) proof fn lemma_known_after(
    r: ResolutionV,
    known: Set<SymbolId>,
    env: Env,
    o: Answers,
    s: StatV,
    looped: bool,
    n: nat,
)
    requires
        stat_ok(r, known, s, looped),
        known.subset_of(env.dom()),
    ensures
        run_stat(r, env, o, s, n) matches Res::End(_, env1, _) ==> (env.dom().subset_of(env1.dom())
            ==> known_after(r, known, s).subset_of(env1.dom())),
{
}

/// The interpreter tries the arms of a conditional from `i` on; if no condition holds, it
/// goes on with what follows them.
proof fn lemma_arms_walk(
    m: ModuleV,
    r: ResolutionV,
    o: Answers,
    fl: nat,
    known: Set<SymbolId>,
    env: Env,
    arms: Seq<(ExprV, BlockV)>,
    i: int,
    or: Option<BlockV>,
    looped: bool,
    n: nat,
    base: St,
) -> (z: (nat, HeapV))
    requires
        0 <= i <= arms.len(),
        arms_ok(r, known, arms, i, looped),
        known.subset_of(env.dom()),
        ready(m, r, o, base, env, fl),
        base.ctrl is None,
        calls_walk(m, r, o),
        roomy(m, r, o, interp::if_of(base, arms, i, or)),
    ensures
        ({
            let s = walk(m, r, o, interp::if_of(base, arms, i, or), z.0);
            match run_arms(r, env, o, arms, i, n) {
                Some(x) => flowed(base, env, fl, x, s),
                None => {
                    &&& situated(on(base, z.1), env)
                    &&& above(on(base, z.1), env, fl)
                    &&& kept(z.1, base.heap, fl)
                    &&& s == match or {
                        Some(b) => on(base, z.1).run(CtrlV::Block(b, 0)),
                        None => on(base, z.1).flow(FlowV::Normal),
                    }
                },
            }
        }),
    decreases n, arms, arms.len() - i,
{
    reveal(interp::if_of);
    let start = interp::if_of(base, arms, i, or);
    if i < arms.len() {
        let e = arms[i].0;
        let kont = KontV::If(arms, i, or);
        assert(start == base.eval(e, kont));
        if runs_out(r, env, o, e) {
            (0, base.heap)
        } else {
            let (k, h) = lemma_operand_walk(m, r, o, fl, known, env, e, kont, base);
            match value_of(r, env, o, e) {
                Some(v) => {
                    let g = on(base, h);
                    reveal(interp::have_in_stat);
                    reveal(St::run);
                    if truthy(v) {
                        let st1 = St { ctrl: Some(CtrlV::Block(arms[i].1, 0)), ..g };
                        lemma_walk_one(m, r, o, st1);
                        assert(St { ctrl: None, ..st1 } == g);
                        assert(interp::step_of(m, r, st1) == interp::block_of(g, arms[i].1, 0));
                        lemma_walk(m, r, o, start, k, 1);
                        lemma_roomy(m, r, o, start, k + 1);
                        let j = lemma_block_walk(m, r, o, fl, known, env, arms[i].1, 0, looped, n, g);
                        lemma_walk(m, r, o, start, k + 1, j);
                        if run_block(r, env, o, arms[i].1, 0, n) is End {
                            lemma_kept(base.heap, h, walk(m, r, o, start, k + 1 + j).0.heap, fl);
                        }
                        (k + 1 + j, h)
                    } else {
                        let (j, h2) = lemma_arms_walk(
                            m,
                            r,
                            o, fl,
                            known,
                            env,
                            arms,
                            i + 1,
                            or,
                            looped,
                            n,
                            g,
                        );
                        lemma_walk(m, r, o, start, k, j);
                        match run_arms(r, env, o, arms, i + 1, n) {
                            Some(Res::End(_, _, _)) => {
                                lemma_kept(base.heap, h, walk(m, r, o, start, k + j).0.heap, fl);
                            },
                            None => lemma_kept(base.heap, h, h2, fl),
                            _ => {},
                        }
                        (k + j, h2)
                    }
                },
                None => (k, h),
            }
        }
    } else {
        assert(on(base, base.heap) == base);
        assert(kept(base.heap, base.heap, fl)) by {
            reveal(kept);
        }
        (0, base.heap)
    }
}

/// The interpreter executes a loop, from its condition on.
proof fn lemma_while_walk(
    m: ModuleV,
    r: ResolutionV,
    o: Answers,
    fl: nat,
    known: Set<SymbolId>,
    env: Env,
    cond: ExprV,
    body: BlockV,
    n: nat,
    base: St,
) -> (k: nat)
    requires
        simple(r, known, cond),
        block_ok(r, known, body, 0, true),
        known.subset_of(env.dom()),
        ready(m, r, o, base, env, fl),
        base.ctrl is None,
        calls_walk(m, r, o),
        roomy(m, r, o, base.eval(cond, KontV::WhileCond(cond, body))),
    ensures
        flowed(
            base,
            env,
            fl,
            run_while(r, env, o, cond, body, n),
            walk(m, r, o, base.eval(cond, KontV::WhileCond(cond, body)), k),
        ),
    decreases n, body, 1int,
{
    let kont = KontV::WhileCond(cond, body);
    let start = base.eval(cond, kont);
    if runs_out(r, env, o, cond) {
        0
    } else {
        let (k, h) = lemma_operand_walk(m, r, o, fl, known, env, cond, kont, base);
        reveal(St::run);
        reveal(St::push);
        match value_of(r, env, o, cond) {
            Some(v) => {
                let g = on(base, h);
                reveal(interp::have_in_stat);
                if !truthy(v) {
                    assert(situated(g.flow(FlowV::Normal).0, env));
                    k
                } else if n == 0 {
                    k
                } else {
                    let n1 = (n - 1) as nat;
                    let wait = KontV::WhileBody(cond, body);
                    let b0 = St { konts: base.konts.push(wait), ..g };
                    let st1 = St { ctrl: Some(CtrlV::Block(body, 0)), ..b0 };
                    lemma_walk_one(m, r, o, st1);
                    assert(St { ctrl: None, ..st1 } == b0);
                    assert(interp::step_of(m, r, st1) == interp::block_of(b0, body, 0));
                    lemma_walk(m, r, o, start, k, 1);
                    assert(situated(b0, env));
                    assert(above(b0, env, fl));
                    lemma_roomy(m, r, o, start, k + 1);
                    let j = lemma_block_walk(m, r, o, fl, known, env, body, 0, true, n1, b0);
                    lemma_walk(m, r, o, start, k + 1, j);
                    match run_block(r, env, o, body, 0, n1) {
                        Res::End(f, env1, left) => {
                            let s = walk(m, r, o, interp::block_of(b0, body, 0), j).0;
                            let next = St { heap: s.heap, act: s.act, ..base };
                            lemma_walk_one(m, r, o, s);
                            reveal(interp::flow_of);
                            assert(s.konts.last() == wait);
                            assert(s.konts.drop_last() =~= base.konts);
                            assert(St { konts: s.konts.drop_last(), ..St { ctrl: None, ..s } }
                                == next);
                            lemma_walk(m, r, o, start, k + 1 + j, 1);
                            assert(situated(next, env1));
                            assert(above(next, env1, fl));
                            lemma_kept(base.heap, h, s.heap, fl);
                            match f {
                                FlowV::Normal => {
                                    if left < n {
                                        lemma_roomy(m, r, o, start, k + 1 + j + 1);
                                        let i = lemma_while_walk(
                                            m,
                                            r,
                                            o, fl,
                                            known,
                                            env1,
                                            cond,
                                            body,
                                            left,
                                            next,
                                        );
                                        lemma_walk(m, r, o, start, k + 1 + j + 1, i);
                                        if run_while(r, env1, o, cond, body, left) is End {
                                            lemma_kept(
                                                base.heap,
                                                s.heap,
                                                walk(m, r, o, start, k + 1 + j + 1 + i).0.heap,
                                                fl,
                                            );
                                        }
                                        k + 1 + j + 1 + i
                                    } else {
                                        0
                                    }
                                },
                                FlowV::Break => {
                                    assert(situated(next.flow(FlowV::Normal).0, env1));
                                    k + 1 + j + 1
                                },
                                FlowV::Return(_) => {
                                    assert(situated(next.flow(f).0, env1));
                                    k + 1 + j + 1
                                },
                            }
                        },
                        _ => k + 1 + j,
                    }
                }
            },
            None => k,
        }
    }
}

/// The interpreter evaluates the start, bound and step of a counting loop, and begins it.
proof fn lemma_range_walk(
    m: ModuleV,
    r: ResolutionV,
    o: Answers,
    fl: nat,
    known: Set<SymbolId>,
    env: Env,
    var: IdentV,
    start: ExprV,
    end: ExprV,
    step: Option<ExprV>,
    body: BlockV,
    base: St,
) -> (z: (nat, HeapV))
    requires
        simple(r, known, start),
        simple(r, known, end),
        step matches Some(e) ==> simple(r, known, e),
        known.subset_of(env.dom()),
        ready(m, r, o, base, env, fl),
        base.ctrl is None,
        calls_walk(m, r, o),
        roomy(m, r, o, base.eval(start, KontV::ForStart(var, end, step, body))),
    ensures
        ({
            let s = walk(
                m,
                r,
                o,
                base.eval(start, KontV::ForStart(var, end, step, body)),
                z.0,
            );
            match range_of(r, env, o, start, end, step) {
                None => true,
                Some(None) => has_failed(s.1),
                Some(Some((a, b, c))) => {
                    &&& situated(on(base, z.1), env)
                    &&& above(on(base, z.1), env, fl)
                    &&& kept(z.1, base.heap, fl)
                    &&& s == interp::for_of(r, on(base, z.1), var, a, b, c, body)
                },
            }
        }),
{
    let s0 = base.eval(start, KontV::ForStart(var, end, step, body));
    if runs_out(r, env, o, start) {
        (0, base.heap)
    } else {
        let k0 = KontV::ForStart(var, end, step, body);
        let (k, h) = lemma_operand_walk(m, r, o, fl, known, env, start, k0, base);
        match value_of(r, env, o, start) {
            Some(ValueV::Number(a)) => {
                reveal(interp::have_in_stat);
                reveal(interp::have_in_loop);
                if runs_out(r, env, o, end) {
                    (k, h)
                } else {
                    let g = on(base, h);
                    let kont = KontV::ForEnd(var, a, step, body);
                    let (k1, h1) = lemma_operand_walk(m, r, o, fl, known, env, end, kont, g);
                    lemma_walk(m, r, o, s0, k, k1);
                    match value_of(r, env, o, end) {
                        Some(ValueV::Number(b)) => {
                            lemma_kept(base.heap, h, h1, fl);
                            match step {
                                Some(e) => {
                                    if runs_out(r, env, o, e) {
                                        (k + k1, h1)
                                    } else {
                                        let g1 = on(g, h1);
                                        let kn = KontV::ForStep(var, a, b, body);
                                        let (k2, h2) = lemma_operand_walk(
                                            m,
                                            r,
                                            o, fl,
                                            known,
                                            env,
                                            e,
                                            kn,
                                            g1,
                                        );
                                        lemma_walk(m, r, o, s0, k + k1, k2);
                                        if value_of(r, env, o, e) is Some {
                                            lemma_kept(base.heap, h1, h2, fl);
                                        }
                                        (k + k1 + k2, h2)
                                    }
                                },
                                None => (k + k1, h1),
                            }
                        },
                        _ => (k + k1, h1),
                    }
                }
            },
            _ => (k, h),
        }
    }
}

/// The interpreter executes a counting loop whose variable is at `a`.
proof fn lemma_for_walk(
    m: ModuleV,
    r: ResolutionV,
    o: Answers,
    fl: nat,
    known: Set<SymbolId>,
    env: Env,
    var: IdentV,
    id: SymbolId,
    a: u64,
    b: u64,
    c: u64,
    body: BlockV,
    n: nat,
    base: St,
) -> (k: nat)
    requires
        r.def_of(var.span) == Some(id),
        block_ok(r, known.insert(id), body, 0, true),
        known.subset_of(env.dom()),
        ready(m, r, o, base, env, fl),
        base.ctrl is None,
        calls_walk(m, r, o),
        roomy(m, r, o, interp::for_of(r, base, var, a, b, c, body)),
    ensures
        flowed(
            base,
            env,
            fl,
            run_for(r, env, o, id, a, b, c, body, n),
            walk(m, r, o, interp::for_of(r, base, var, a, b, c, body), k),
        ),
    decreases n, body, 1int,
{
    reveal(interp::for_of);
    reveal(St::run);
    reveal(St::push);
    let start = interp::for_of(r, base, var, a, b, c, body);
    assert(kept(base.heap, base.heap, fl)) by {
        reveal(kept);
    }
    if !interp::goes_on(a, b, c) {
        assert(situated(base.flow(FlowV::Normal).0, env));
        assert(above(base.flow(FlowV::Normal).0, env, fl));
        0
    } else if n == 0 {
        0
    } else {
        let n1 = (n - 1) as nat;
        let v = ValueV::Number(a);
        let env0 = env.insert(id, v);
        let base1 = if env.dom().contains(id) {
            base.stored(base.act->0.locals[id], v)
        } else {
            base.bound(id, v)
        };
        lemma_scalars_insert(env, id, v);
        assert(base.declared(r, var, v) == Ok::<St, crate::value::RunErrorV>(base1)) by {
            reveal(St::declared);
        }
        lemma_roomy(m, r, o, start, 0);
        if env.dom().contains(id) {
            lemma_stored(base, env, id, v);
        } else {
            assert(base1.heap.len() == base.heap.len() + 1) by {
                reveal(St::bound);
            }
            lemma_added(base, env, id, v);
        }
        let wait = KontV::ForBody(var, a, b, c, body);
        let b0 = St { konts: base.konts.push(wait), ..base1 };
        let st1 = St { ctrl: Some(CtrlV::Block(body, 0)), ..b0 };
        assert(start == (st1, ProgressV::Running));
        lemma_walk_one(m, r, o, st1);
        assert(St { ctrl: None, ..st1 } == b0);
        assert(interp::step_of(m, r, st1) == interp::block_of(b0, body, 0));
        assert(situated(b0, env0));
        assert(above(b0, env0, fl));
        assert(kept(b0.heap, base.heap, fl)) by {
            reveal(kept);
        }
        lemma_roomy(m, r, o, start, 1);
        let j = lemma_block_walk(
            m,
            r,
            o, fl,
            known.insert(id),
            env0,
            body,
            0,
            true,
            n1,
            b0,
        );
        lemma_walk(m, r, o, start, 1, j);
        match run_block(r, env0, o, body, 0, n1) {
            Res::End(f, env1, left) => {
                let s = walk(m, r, o, interp::block_of(b0, body, 0), j).0;
                let next = St { heap: s.heap, act: s.act, ..base };
                lemma_walk_one(m, r, o, s);
                reveal(interp::flow_of);
                assert(s.konts.last() == wait);
                assert(s.konts.drop_last() =~= base.konts);
                assert(St { konts: s.konts.drop_last(), ..St { ctrl: None, ..s } } == next);
                lemma_walk(m, r, o, start, 1 + j, 1);
                assert(situated(next, env1));
                assert(above(next, env1, fl));
                lemma_kept(base.heap, b0.heap, s.heap, fl);
                match f {
                    FlowV::Normal => {
                        let again = KontV::ForNext(var, b, c, body);
                        let q = RequestV::Arith(BinOp::Add, a, c);
                        let w0 = St { konts: base.konts.push(again), ..next };
                        assert(walk(m, r, o, start, 1 + j + 1) == w0.ask(q));
                        lemma_asked(m, r, o, w0, q);
                        lemma_walk(m, r, o, start, 1 + j + 1, 1);
                        match answered(o, q) {
                            Some(ValueV::Number(d)) => {
                                let sv = with_value(w0, ValueV::Number(d));
                                lemma_walk_one(m, r, o, sv);
                                reveal(interp::have_in_stat);
                                reveal(interp::have_in_loop);
                                assert(sv.konts.drop_last() =~= base.konts);
                                assert(St {
                                    konts: sv.konts.drop_last(),
                                    ..St { ctrl: None, ..sv }
                                } == next);
                                lemma_walk(m, r, o, start, 1 + j + 2, 1);
                                lemma_roomy(m, r, o, start, 1 + j + 3);
                                if left < n {
                                    let i = lemma_for_walk(
                                        m,
                                        r,
                                        o, fl,
                                        known,
                                        env1,
                                        var,
                                        id,
                                        d,
                                        b,
                                        c,
                                        body,
                                        left,
                                        next,
                                    );
                                    lemma_walk(m, r, o, start, 1 + j + 3, i);
                                    if run_for(r, env1, o, id, d, b, c, body, left) is End {
                                        lemma_kept(
                                            base.heap,
                                            s.heap,
                                            walk(m, r, o, start, 1 + j + 3 + i).0.heap,
                                            fl,
                                        );
                                    }
                                    1 + j + 3 + i
                                } else {
                                    0
                                }
                            },
                            _ => 1 + j + 2,
                        }
                    },
                    FlowV::Break => {
                        assert(situated(next.flow(FlowV::Normal).0, env1));
                        1 + j + 1
                    },
                    FlowV::Return(_) => {
                        assert(situated(next.flow(f).0, env1));
                        1 + j + 1
                    },
                }
            },
            _ => 1 + j,
        }
    }
}

} // verus!
