//! Free-variable and closure-capture analysis.
//!
//! Which symbols does a function body reference, and which of those are upvalues captured
//! from an enclosing scope? A closure's environment is built and read back by index, so the
//! order of the captured upvalues is fixed here.
//!
//! For a function literal at nesting depth `d` (the outermost top-level function is depth 0,
//! a `function ... end` directly inside it is depth 1, and so on):
//!
//! * **referenced symbols**: every in-function symbol mentioned anywhere in the body,
//!   including through nested function literals. Only names bound as local or upvalue count.
//! * **upvalues**: the referenced symbols declared in a strictly shallower function.
//! * **boxed locals** of a function: its own parameters and locals that some nested literal
//!   refers to. They live in shared cells, so that a closure and the enclosing frame observe
//!   each other's writes.
use std::collections::HashSet;
use vstd::prelude::*;
use crate::ast::{
    arms_v, exprs_v, fields_v, stats_v, Block, BlockV, Expr, ExprKind, ExprKindV, ExprV, Field,
    FieldV, FuncBody, FuncBodyV, IterExpr, IterExprV, Stat, StatKind, StatKindV, StatV,
};
use crate::diagnostics::Span;
use crate::resolve::{Binding, BindingV, Resolution, ResolutionV, SymbolId};

verus! {

broadcast use vstd::std_specs::hash::group_hash_axioms;

/// The symbol that a name occurrence refers to, if it is bound inside a function.
pub open spec fn ids_name(res: ResolutionV, span: Span) -> Set<SymbolId> {
    match res.binding_of(span) {
        Some(BindingV::Local(id)) => set![id],
        Some(BindingV::Upvalue(id)) => set![id],
        _ => Set::empty(),
    }
}

/// The symbols that an expression refers to.
#[verifier::opaque]
pub open spec fn ids_expr(res: ResolutionV, e: ExprV) -> Set<SymbolId>
    decreases e, 0int,
{
    match e.kind {
        ExprKindV::Name(_) => ids_name(res, e.span),
        ExprKindV::Function(body) => ids_block(res, body.block),
        ExprKindV::Index { base, index } => ids_expr(res, *base).union(ids_expr(res, *index)),
        ExprKindV::Field { base, .. } => ids_expr(res, *base),
        ExprKindV::Call { callee, args } => ids_expr(res, *callee).union(ids_exprs(res, args, 0)),
        ExprKindV::MethodCall { receiver, args, .. } => ids_expr(res, *receiver).union(
            ids_exprs(res, args, 0),
        ),
        ExprKindV::Table(fields) => ids_fields(res, fields, 0),
        ExprKindV::Binary { lhs, rhs, .. } => ids_expr(res, *lhs).union(ids_expr(res, *rhs)),
        ExprKindV::Unary { operand, .. } => ids_expr(res, *operand),
        ExprKindV::Paren(inner) => ids_expr(res, *inner),
        _ => Set::empty(),
    }
}

/// The symbols that the expressions from `i` on refer to.
#[verifier::opaque]
pub open spec fn ids_exprs(res: ResolutionV, es: Seq<ExprV>, i: int) -> Set<SymbolId>
    decreases es, es.len() - i,
{
    if 0 <= i < es.len() {
        ids_expr(res, es[i]).union(ids_exprs(res, es, i + 1))
    } else {
        Set::empty()
    }
}

/// The symbols that a table field refers to.
#[verifier::opaque]
pub open spec fn ids_field(res: ResolutionV, f: FieldV) -> Set<SymbolId>
    decreases f, 0int,
{
    match f {
        FieldV::Positional(e) => ids_expr(res, e),
        FieldV::Named { value, .. } => ids_expr(res, value),
        FieldV::Keyed { key, value } => ids_expr(res, key).union(ids_expr(res, value)),
    }
}

/// The symbols that the table fields from `i` on refer to.
#[verifier::opaque]
pub open spec fn ids_fields(res: ResolutionV, fs: Seq<FieldV>, i: int) -> Set<SymbolId>
    decreases fs, fs.len() - i,
{
    if 0 <= i < fs.len() {
        ids_field(res, fs[i]).union(ids_fields(res, fs, i + 1))
    } else {
        Set::empty()
    }
}

/// The symbols that a block refers to.
#[verifier::opaque]
pub open spec fn ids_block(res: ResolutionV, b: BlockV) -> Set<SymbolId>
    decreases b, 0int,
{
    match b.ret {
        Some(r) => ids_stats(res, b.stats, 0).union(ids_exprs(res, r.exprs, 0)),
        None => ids_stats(res, b.stats, 0),
    }
}

/// The symbols that the statements from `i` on refer to.
#[verifier::opaque]
pub open spec fn ids_stats(res: ResolutionV, ss: Seq<StatV>, i: int) -> Set<SymbolId>
    decreases ss, ss.len() - i,
{
    if 0 <= i < ss.len() {
        ids_stat(res, ss[i]).union(ids_stats(res, ss, i + 1))
    } else {
        Set::empty()
    }
}

/// The symbols that an arm of a conditional refers to.
#[verifier::opaque]
pub open spec fn ids_arm(res: ResolutionV, arm: (ExprV, BlockV)) -> Set<SymbolId>
    decreases arm, 0int,
{
    ids_expr(res, arm.0).union(ids_block(res, arm.1))
}

/// The symbols that the arms from `i` on refer to.
#[verifier::opaque]
pub open spec fn ids_arms(res: ResolutionV, arms: Seq<(ExprV, BlockV)>, i: int) -> Set<SymbolId>
    decreases arms, arms.len() - i,
{
    if 0 <= i < arms.len() {
        ids_arm(res, arms[i]).union(ids_arms(res, arms, i + 1))
    } else {
        Set::empty()
    }
}

/// The symbols that a statement refers to. An assigned name counts: the write must reach
/// the shared slot.
#[verifier::opaque]
pub open spec fn ids_stat(res: ResolutionV, s: StatV) -> Set<SymbolId>
    decreases s, 0int,
{
    match s.kind {
        StatKindV::Empty => Set::empty(),
        StatKindV::Break => Set::empty(),
        StatKindV::Local { exprs, .. } => ids_exprs(res, exprs, 0),
        StatKindV::LocalFunction { body, .. } => ids_block(res, body.block),
        StatKindV::Assign { targets, exprs } => ids_exprs(res, targets, 0).union(
            ids_exprs(res, exprs, 0),
        ),
        StatKindV::Call(e) => ids_expr(res, e),
        StatKindV::Do(b) => ids_block(res, b),
        StatKindV::While { cond, body } => ids_expr(res, cond).union(ids_block(res, body)),
        StatKindV::If { arms, else_block } => match else_block {
            Some(b) => ids_arms(res, arms, 0).union(ids_block(res, b)),
            None => ids_arms(res, arms, 0),
        },
        StatKindV::NumericFor { start, end, step, body, .. } => {
            let bounds = ids_expr(res, start).union(ids_expr(res, end));
            match step {
                Some(e) => bounds.union(ids_expr(res, e)).union(ids_block(res, body)),
                None => bounds.union(ids_block(res, body)),
            }
        },
        StatKindV::GenericFor { iter, body, .. } => match iter {
            IterExprV::IPairs { arg, .. } => ids_expr(res, arg).union(ids_block(res, body)),
            IterExprV::Pairs { arg, .. } => ids_expr(res, arg).union(ids_block(res, body)),
        },
    }
}

/// The function literals directly inside an expression, in source order.
#[verifier::opaque]
pub open spec fn lits_expr(e: ExprV) -> Seq<FuncBodyV>
    decreases e, 0int,
{
    match e.kind {
        ExprKindV::Function(body) => seq![body],
        ExprKindV::Index { base, index } => lits_expr(*base) + lits_expr(*index),
        ExprKindV::Field { base, .. } => lits_expr(*base),
        ExprKindV::Call { callee, args } => lits_expr(*callee) + lits_exprs(args, 0),
        ExprKindV::MethodCall { receiver, args, .. } => lits_expr(*receiver) + lits_exprs(args, 0),
        ExprKindV::Table(fields) => lits_fields(fields, 0),
        ExprKindV::Binary { lhs, rhs, .. } => lits_expr(*lhs) + lits_expr(*rhs),
        ExprKindV::Unary { operand, .. } => lits_expr(*operand),
        ExprKindV::Paren(inner) => lits_expr(*inner),
        _ => Seq::empty(),
    }
}

/// The function literals directly inside the expressions from `i` on.
#[verifier::opaque]
pub open spec fn lits_exprs(es: Seq<ExprV>, i: int) -> Seq<FuncBodyV>
    decreases es, es.len() - i,
{
    if 0 <= i < es.len() {
        lits_expr(es[i]) + lits_exprs(es, i + 1)
    } else {
        Seq::empty()
    }
}

/// The function literals directly inside a table field.
#[verifier::opaque]
pub open spec fn lits_field(f: FieldV) -> Seq<FuncBodyV>
    decreases f, 0int,
{
    match f {
        FieldV::Positional(e) => lits_expr(e),
        FieldV::Named { value, .. } => lits_expr(value),
        FieldV::Keyed { key, value } => lits_expr(key) + lits_expr(value),
    }
}

/// The function literals directly inside the table fields from `i` on.
#[verifier::opaque]
pub open spec fn lits_fields(fs: Seq<FieldV>, i: int) -> Seq<FuncBodyV>
    decreases fs, fs.len() - i,
{
    if 0 <= i < fs.len() {
        lits_field(fs[i]) + lits_fields(fs, i + 1)
    } else {
        Seq::empty()
    }
}

/// The function literals directly inside a block.
#[verifier::opaque]
pub open spec fn lits_block(b: BlockV) -> Seq<FuncBodyV>
    decreases b, 0int,
{
    match b.ret {
        Some(r) => lits_stats(b.stats, 0) + lits_exprs(r.exprs, 0),
        None => lits_stats(b.stats, 0),
    }
}

/// The function literals directly inside the statements from `i` on.
#[verifier::opaque]
pub open spec fn lits_stats(ss: Seq<StatV>, i: int) -> Seq<FuncBodyV>
    decreases ss, ss.len() - i,
{
    if 0 <= i < ss.len() {
        lits_stat(ss[i]) + lits_stats(ss, i + 1)
    } else {
        Seq::empty()
    }
}

/// The function literals directly inside an arm of a conditional.
#[verifier::opaque]
pub open spec fn lits_arm(arm: (ExprV, BlockV)) -> Seq<FuncBodyV>
    decreases arm, 0int,
{
    lits_expr(arm.0) + lits_block(arm.1)
}

/// The function literals directly inside the arms from `i` on.
#[verifier::opaque]
pub open spec fn lits_arms(arms: Seq<(ExprV, BlockV)>, i: int) -> Seq<FuncBodyV>
    decreases arms, arms.len() - i,
{
    if 0 <= i < arms.len() {
        lits_arm(arms[i]) + lits_arms(arms, i + 1)
    } else {
        Seq::empty()
    }
}

/// The function literals directly inside a statement. The body of a `local function` is one.
#[verifier::opaque]
pub open spec fn lits_stat(s: StatV) -> Seq<FuncBodyV>
    decreases s, 0int,
{
    match s.kind {
        StatKindV::Empty => Seq::empty(),
        StatKindV::Break => Seq::empty(),
        StatKindV::Local { exprs, .. } => lits_exprs(exprs, 0),
        StatKindV::LocalFunction { body, .. } => seq![body],
        StatKindV::Assign { targets, exprs } => lits_exprs(targets, 0) + lits_exprs(exprs, 0),
        StatKindV::Call(e) => lits_expr(e),
        StatKindV::Do(b) => lits_block(b),
        StatKindV::While { cond, body } => lits_expr(cond) + lits_block(body),
        StatKindV::If { arms, else_block } => match else_block {
            Some(b) => lits_arms(arms, 0) + lits_block(b),
            None => lits_arms(arms, 0),
        },
        StatKindV::NumericFor { start, end, step, body, .. } => {
            let bounds = lits_expr(start) + lits_expr(end);
            match step {
                Some(e) => bounds + lits_expr(e) + lits_block(body),
                None => bounds + lits_block(body),
            }
        },
        StatKindV::GenericFor { iter, body, .. } => match iter {
            IterExprV::IPairs { arg, .. } => lits_expr(arg) + lits_block(body),
            IterExprV::Pairs { arg, .. } => lits_expr(arg) + lits_block(body),
        },
    }
}

/// The members of `ids` below `n` that are declared in a function of a nesting depth
/// smaller than `depth`, in ascending order.
pub open spec fn shallower(res: ResolutionV, ids: Set<SymbolId>, depth: nat, n: int) -> Seq<
    SymbolId,
>
    decreases n,
{
    if n <= 0 {
        Seq::empty()
    } else {
        let rest = shallower(res, ids, depth, n - 1);
        if ids.contains((n - 1) as u32) && res.symbols[n - 1].func_depth < depth {
            rest.push((n - 1) as u32)
        } else {
            rest
        }
    }
}

/// How many symbols can have an id.
pub open spec fn id_count(res: ResolutionV) -> int {
    if res.symbols.len() <= u32::MAX {
        res.symbols.len() as int
    } else {
        u32::MAX as int
    }
}

/// The ordered upvalues of a function literal at nesting `depth`.
pub open spec fn upvalues_of(res: ResolutionV, body: FuncBodyV, depth: nat) -> Seq<SymbolId> {
    shallower(res, ids_block(res, body.block), depth, id_count(res))
}

/// Whether a symbol is declared at nesting `depth` and one of the first `n` literals refers
/// to it.
pub open spec fn captured_by(
    res: ResolutionV,
    lits: Seq<FuncBodyV>,
    depth: nat,
    id: SymbolId,
    n: int,
) -> bool {
    &&& id < res.symbols.len()
    &&& res.symbols[id as int].func_depth == depth
    &&& exists|k: int| 0 <= k < n && (#[trigger] ids_block(res, lits[k].block)).contains(id)
}

/// The own symbols of a body, declared at nesting `depth`, that a function literal directly
/// inside it refers to.
pub open spec fn boxed_of(res: ResolutionV, body: FuncBodyV, depth: nat) -> Set<SymbolId> {
    let lits = lits_block(body.block);
    Set::new(|id: SymbolId| captured_by(res, lits, depth, id, lits.len() as int))
}

pub proof fn unfold_ids_expr(res: ResolutionV, e: ExprV)
    ensures
        ids_expr(res, e) == ({
            match e.kind {
                ExprKindV::Name(_) => ids_name(res, e.span),
                ExprKindV::Function(body) => ids_block(res, body.block),
                ExprKindV::Index { base, index } => ids_expr(res, *base).union(ids_expr(res, *index)),
                ExprKindV::Field { base, .. } => ids_expr(res, *base),
                ExprKindV::Call { callee, args } => ids_expr(res, *callee).union(ids_exprs(res, args, 0)),
                ExprKindV::MethodCall { receiver, args, .. } => ids_expr(res, *receiver).union(
                    ids_exprs(res, args, 0),
                ),
                ExprKindV::Table(fields) => ids_fields(res, fields, 0),
                ExprKindV::Binary { lhs, rhs, .. } => ids_expr(res, *lhs).union(ids_expr(res, *rhs)),
                ExprKindV::Unary { operand, .. } => ids_expr(res, *operand),
                ExprKindV::Paren(inner) => ids_expr(res, *inner),
                _ => Set::empty(),
            }
        }),
{
    reveal(ids_expr);
    reveal(ids_exprs);
    reveal(ids_fields);
    reveal(ids_block);
}

pub proof fn unfold_ids_exprs(res: ResolutionV, es: Seq<ExprV>, i: int)
    ensures
        ids_exprs(res, es, i) == ({
            if 0 <= i < es.len() {
                ids_expr(res, es[i]).union(ids_exprs(res, es, i + 1))
            } else {
                Set::empty()
            }
        }),
{
    reveal(ids_exprs);
    reveal(ids_expr);
}

pub proof fn unfold_ids_field(res: ResolutionV, f: FieldV)
    ensures
        ids_field(res, f) == ({
            match f {
                FieldV::Positional(e) => ids_expr(res, e),
                FieldV::Named { value, .. } => ids_expr(res, value),
                FieldV::Keyed { key, value } => ids_expr(res, key).union(ids_expr(res, value)),
            }
        }),
{
    reveal(ids_field);
    reveal(ids_expr);
}

pub proof fn unfold_ids_fields(res: ResolutionV, fs: Seq<FieldV>, i: int)
    ensures
        ids_fields(res, fs, i) == ({
            if 0 <= i < fs.len() {
                ids_field(res, fs[i]).union(ids_fields(res, fs, i + 1))
            } else {
                Set::empty()
            }
        }),
{
    reveal(ids_fields);
    reveal(ids_field);
}

pub proof fn unfold_ids_block(res: ResolutionV, b: BlockV)
    ensures
        ids_block(res, b) == ({
            match b.ret {
                Some(r) => ids_stats(res, b.stats, 0).union(ids_exprs(res, r.exprs, 0)),
                None => ids_stats(res, b.stats, 0),
            }
        }),
{
    reveal(ids_block);
    reveal(ids_exprs);
    reveal(ids_stats);
}

pub proof fn unfold_ids_stats(res: ResolutionV, ss: Seq<StatV>, i: int)
    ensures
        ids_stats(res, ss, i) == ({
            if 0 <= i < ss.len() {
                ids_stat(res, ss[i]).union(ids_stats(res, ss, i + 1))
            } else {
                Set::empty()
            }
        }),
{
    reveal(ids_stats);
    reveal(ids_stat);
}

pub proof fn unfold_ids_arm(res: ResolutionV, arm: (ExprV, BlockV))
    ensures
        ids_arm(res, arm) == ({
            ids_expr(res, arm.0).union(ids_block(res, arm.1))
        }),
{
    reveal(ids_arm);
    reveal(ids_expr);
    reveal(ids_block);
}

pub proof fn unfold_ids_arms(res: ResolutionV, arms: Seq<(ExprV, BlockV)>, i: int)
    ensures
        ids_arms(res, arms, i) == ({
            if 0 <= i < arms.len() {
                ids_arm(res, arms[i]).union(ids_arms(res, arms, i + 1))
            } else {
                Set::empty()
            }
        }),
{
    reveal(ids_arms);
    reveal(ids_arm);
}

pub proof fn unfold_ids_stat(res: ResolutionV, s: StatV)
    ensures
        ids_stat(res, s) == ({
            match s.kind {
                StatKindV::Empty => Set::empty(),
                StatKindV::Break => Set::empty(),
                StatKindV::Local { exprs, .. } => ids_exprs(res, exprs, 0),
                StatKindV::LocalFunction { body, .. } => ids_block(res, body.block),
                StatKindV::Assign { targets, exprs } => ids_exprs(res, targets, 0).union(
                    ids_exprs(res, exprs, 0),
                ),
                StatKindV::Call(e) => ids_expr(res, e),
                StatKindV::Do(b) => ids_block(res, b),
                StatKindV::While { cond, body } => ids_expr(res, cond).union(ids_block(res, body)),
                StatKindV::If { arms, else_block } => match else_block {
                    Some(b) => ids_arms(res, arms, 0).union(ids_block(res, b)),
                    None => ids_arms(res, arms, 0),
                },
                StatKindV::NumericFor { start, end, step, body, .. } => {
                    let bounds = ids_expr(res, start).union(ids_expr(res, end));
                    match step {
                        Some(e) => bounds.union(ids_expr(res, e)).union(ids_block(res, body)),
                        None => bounds.union(ids_block(res, body)),
                    }
                },
                StatKindV::GenericFor { iter, body, .. } => match iter {
                    IterExprV::IPairs { arg, .. } => ids_expr(res, arg).union(ids_block(res, body)),
                    IterExprV::Pairs { arg, .. } => ids_expr(res, arg).union(ids_block(res, body)),
                },
            }
        }),
{
    reveal(ids_stat);
    reveal(ids_expr);
    reveal(ids_exprs);
    reveal(ids_block);
    reveal(ids_arms);
}

pub proof fn unfold_lits_expr(e: ExprV)
    ensures
        lits_expr(e) == ({
            match e.kind {
                ExprKindV::Function(body) => seq![body],
                ExprKindV::Index { base, index } => lits_expr(*base) + lits_expr(*index),
                ExprKindV::Field { base, .. } => lits_expr(*base),
                ExprKindV::Call { callee, args } => lits_expr(*callee) + lits_exprs(args, 0),
                ExprKindV::MethodCall { receiver, args, .. } => lits_expr(*receiver) + lits_exprs(args, 0),
                ExprKindV::Table(fields) => lits_fields(fields, 0),
                ExprKindV::Binary { lhs, rhs, .. } => lits_expr(*lhs) + lits_expr(*rhs),
                ExprKindV::Unary { operand, .. } => lits_expr(*operand),
                ExprKindV::Paren(inner) => lits_expr(*inner),
                _ => Seq::empty(),
            }
        }),
{
    reveal(lits_expr);
    reveal(lits_exprs);
    reveal(lits_fields);
}

pub proof fn unfold_lits_exprs(es: Seq<ExprV>, i: int)
    ensures
        lits_exprs(es, i) == ({
            if 0 <= i < es.len() {
                lits_expr(es[i]) + lits_exprs(es, i + 1)
            } else {
                Seq::empty()
            }
        }),
{
    reveal(lits_exprs);
    reveal(lits_expr);
}

pub proof fn unfold_lits_field(f: FieldV)
    ensures
        lits_field(f) == ({
            match f {
                FieldV::Positional(e) => lits_expr(e),
                FieldV::Named { value, .. } => lits_expr(value),
                FieldV::Keyed { key, value } => lits_expr(key) + lits_expr(value),
            }
        }),
{
    reveal(lits_field);
    reveal(lits_expr);
}

pub proof fn unfold_lits_fields(fs: Seq<FieldV>, i: int)
    ensures
        lits_fields(fs, i) == ({
            if 0 <= i < fs.len() {
                lits_field(fs[i]) + lits_fields(fs, i + 1)
            } else {
                Seq::empty()
            }
        }),
{
    reveal(lits_fields);
    reveal(lits_field);
}

pub proof fn unfold_lits_block(b: BlockV)
    ensures
        lits_block(b) == ({
            match b.ret {
                Some(r) => lits_stats(b.stats, 0) + lits_exprs(r.exprs, 0),
                None => lits_stats(b.stats, 0),
            }
        }),
{
    reveal(lits_block);
    reveal(lits_exprs);
    reveal(lits_stats);
}

pub proof fn unfold_lits_stats(ss: Seq<StatV>, i: int)
    ensures
        lits_stats(ss, i) == ({
            if 0 <= i < ss.len() {
                lits_stat(ss[i]) + lits_stats(ss, i + 1)
            } else {
                Seq::empty()
            }
        }),
{
    reveal(lits_stats);
    reveal(lits_stat);
}

pub proof fn unfold_lits_arm(arm: (ExprV, BlockV))
    ensures
        lits_arm(arm) == ({
            lits_expr(arm.0) + lits_block(arm.1)
        }),
{
    reveal(lits_arm);
    reveal(lits_expr);
    reveal(lits_block);
}

pub proof fn unfold_lits_arms(arms: Seq<(ExprV, BlockV)>, i: int)
    ensures
        lits_arms(arms, i) == ({
            if 0 <= i < arms.len() {
                lits_arm(arms[i]) + lits_arms(arms, i + 1)
            } else {
                Seq::empty()
            }
        }),
{
    reveal(lits_arms);
    reveal(lits_arm);
}

pub proof fn unfold_lits_stat(s: StatV)
    ensures
        lits_stat(s) == ({
            match s.kind {
                StatKindV::Empty => Seq::empty(),
                StatKindV::Break => Seq::empty(),
                StatKindV::Local { exprs, .. } => lits_exprs(exprs, 0),
                StatKindV::LocalFunction { body, .. } => seq![body],
                StatKindV::Assign { targets, exprs } => lits_exprs(targets, 0) + lits_exprs(exprs, 0),
                StatKindV::Call(e) => lits_expr(e),
                StatKindV::Do(b) => lits_block(b),
                StatKindV::While { cond, body } => lits_expr(cond) + lits_block(body),
                StatKindV::If { arms, else_block } => match else_block {
                    Some(b) => lits_arms(arms, 0) + lits_block(b),
                    None => lits_arms(arms, 0),
                },
                StatKindV::NumericFor { start, end, step, body, .. } => {
                    let bounds = lits_expr(start) + lits_expr(end);
                    match step {
                        Some(e) => bounds + lits_expr(e) + lits_block(body),
                        None => bounds + lits_block(body),
                    }
                },
                StatKindV::GenericFor { iter, body, .. } => match iter {
                    IterExprV::IPairs { arg, .. } => lits_expr(arg) + lits_block(body),
                    IterExprV::Pairs { arg, .. } => lits_expr(arg) + lits_block(body),
                },
            }
        }),
{
    reveal(lits_stat);
    reveal(lits_expr);
    reveal(lits_exprs);
    reveal(lits_block);
    reveal(lits_arms);
}

/// Every in-function symbol referenced anywhere in `body`, including inside nested function
/// literals (their free variables flow through this body's capture).
pub fn referenced_symbols(res: &Resolution, body: &FuncBody) -> (r: HashSet<SymbolId>)
    ensures
        r@ == ids_block(res@, body@.block),
{
    let mut out: HashSet<SymbolId> = HashSet::new();
    collect_block_ids(res, &body.block, &mut out);
    assert(out@ =~= ids_block(res@, body@.block));
    out
}

/// The ordered upvalues that a function literal `body` at nesting `depth` captures:
/// referenced symbols whose declaring function is strictly shallower than `depth`. Ascending,
/// so that the layout of an environment is the same for everyone who builds or reads one.
pub fn upvalues(res: &Resolution, body: &FuncBody, depth: usize) -> (r: Vec<SymbolId>)
    ensures
        r@ == upvalues_of(res@, body@, depth as nat),
{
    let ids = referenced_symbols(res, body);
    let n: usize = res.symbols.len();
    let m: u32 = if n <= 4294967295 {
        n as u32
    } else {
        4294967295
    };
    let mut out: Vec<SymbolId> = Vec::new();
    let mut i: u32 = 0;
    while i < m
        invariant
            i <= m,
            m == id_count(res@),
            ids@ == ids_block(res@, body@.block),
            out@ == shallower(res@, ids@, depth as nat, i as int),
        decreases m - i,
    {
        assert(res@.symbols[i as int] == res.symbols@[i as int]@);
        if ids.contains(&i) && res.symbols[i as usize].func_depth < depth {
            out.push(i);
        }
        i += 1;
    }
    out
}

/// The set of `body`'s own parameters and locals (declared at `depth`) that some function
/// literal directly inside it captures, that is, those that live in shared cells.
pub fn boxed_locals(res: &Resolution, body: &FuncBody, depth: usize) -> (r: HashSet<SymbolId>)
    ensures
        r@ == boxed_of(res@, body@, depth as nat),
{
    let lits = each_child_literal(&body.block);
    let ghost lv = lits_block(body@.block);
    let mut captured: HashSet<SymbolId> = HashSet::new();
    let n: usize = res.symbols.len();
    let mut k: usize = 0;
    while k < lits.len()
        invariant
            k <= lits@.len(),
            n == res@.symbols.len(),
            lv == bodies_v(lits@),
            forall|id: SymbolId| #[trigger]
                captured@.contains(id) <==> captured_by(res@, lv, depth as nat, id, k as int),
        decreases lits@.len() - k,
    {
        let ghost before = captured@;
        let ids = referenced_symbols(res, lits[k]);
        assert(lits@[k as int]@ == lv[k as int]);
        let mut i: usize = 0;
        while i < n && i <= 4294967295
            invariant
                i <= n,
                k < lits@.len(),
                n == res@.symbols.len(),
                lv == bodies_v(lits@),
                ids@ == ids_block(res@, lv[k as int].block),
                forall|id: SymbolId| #[trigger]
                    before.contains(id) <==> captured_by(res@, lv, depth as nat, id, k as int),
                forall|id: SymbolId| #[trigger]
                    captured@.contains(id) <==> before.contains(id) || (id < i && ids@.contains(id)
                        && res@.symbols[id as int].func_depth == depth),
            decreases n - i,
        {
            let id: SymbolId = i as u32;
            assert(res@.symbols[i as int] == res.symbols@[i as int]@);
            if ids.contains(&id) && res.symbols[i].func_depth == depth {
                captured.insert(id);
            }
            i += 1;
        }
        assert forall|id: SymbolId| #[trigger] captured@.contains(id) <==> captured_by(
            res@,
            lv,
            depth as nat,
            id,
            k + 1,
        ) by {
            if captured_by(res@, lv, depth as nat, id, k + 1) {
                let w = choose|w: int|
                    0 <= w < k + 1 && (#[trigger] ids_block(res@, lv[w].block)).contains(id);
                if w < k {
                    assert(captured_by(res@, lv, depth as nat, id, k as int));
                }
            }
            if before.contains(id) {
                assert(captured_by(res@, lv, depth as nat, id, k as int));
                let w = choose|w: int|
                    0 <= w < k && (#[trigger] ids_block(res@, lv[w].block)).contains(id);
                assert(0 <= w < k + 1 && ids_block(res@, lv[w].block).contains(id));
            }
            if ids@.contains(id) {
                assert(ids_block(res@, lv[k as int].block).contains(id));
            }
        }
        k += 1;
    }
    assert(captured@ =~= boxed_of(res@, body@, depth as nat));
    captured
}

/// Every immediate function literal of `block`: function expressions and `local function`
/// bodies that are not themselves nested inside a deeper literal, in source order.
pub fn each_child_literal(block: &Block) -> (r: Vec<&FuncBody>)
    ensures
        bodies_v(r@) == lits_block(block@),
{
    let mut out: Vec<&FuncBody> = Vec::new();
    visit_block_literals(block, &mut out);
    assert(bodies_v(out@) =~= lits_block(block@));
    out
}

/// The counterparts of a list of function bodies.
pub open spec fn bodies_v(v: Seq<&FuncBody>) -> Seq<FuncBodyV> {
    Seq::new(v.len(), |i: int| v[i]@)
}

/// Record the symbol of a name use if it resolves to an in-function binding.
fn collect_name_id(res: &Resolution, span: Span, out: &mut HashSet<SymbolId>)
    ensures
        final(out)@ == old(out)@.union(ids_name(res@, span)),
{
    match res.binding(span) {
        Some(Binding::Local(id)) => {
            out.insert(*id);
        },
        Some(Binding::Upvalue(id)) => {
            out.insert(*id);
        },
        _ => {},
    }
    assert(out@ =~= old(out)@.union(ids_name(res@, span)));
}

fn visit_exprs_literals<'a>(xs: &'a Vec<Expr>, out: &mut Vec<&'a FuncBody>)
    ensures
        bodies_v(final(out)@) == bodies_v(old(out)@) + lits_exprs(exprs_v(xs@), 0),
    decreases xs, 0int,
{
    let mut i: usize = 0;
    assert(bodies_v(out@) + (lits_exprs(exprs_v(xs@), 0)) =~= bodies_v(old(out)@) + (lits_exprs(exprs_v(xs@), 0)));
    while i < xs.len()
        invariant
            i <= xs@.len(),
            bodies_v(out@) + lits_exprs(exprs_v(xs@), i as int) == bodies_v(old(out)@) + lits_exprs(exprs_v(xs@), 0),
        decreases xs@.len() - i,
    {
        proof {
            unfold_lits_exprs(exprs_v(xs@), i as int);
        }
        let ghost o1 = bodies_v(out@);
        visit_expr_literals(&xs[i], out);
        assert(bodies_v(out@) + lits_exprs(exprs_v(xs@), i + 1) =~= o1 + lits_exprs(exprs_v(xs@), i as int));
        i += 1;
    }
    proof {
        unfold_lits_exprs(exprs_v(xs@), i as int);
    }
    assert(bodies_v(out@) =~= bodies_v(old(out)@) + (lits_exprs(exprs_v(xs@), 0)));
}

fn visit_fields_literals<'a>(xs: &'a Vec<Field>, out: &mut Vec<&'a FuncBody>)
    ensures
        bodies_v(final(out)@) == bodies_v(old(out)@) + lits_fields(fields_v(xs@), 0),
    decreases xs, 0int,
{
    let mut i: usize = 0;
    assert(bodies_v(out@) + (lits_fields(fields_v(xs@), 0)) =~= bodies_v(old(out)@) + (lits_fields(fields_v(xs@), 0)));
    while i < xs.len()
        invariant
            i <= xs@.len(),
            bodies_v(out@) + lits_fields(fields_v(xs@), i as int) == bodies_v(old(out)@) + lits_fields(fields_v(xs@), 0),
        decreases xs@.len() - i,
    {
        proof {
            unfold_lits_fields(fields_v(xs@), i as int);
        }
        let ghost o1 = bodies_v(out@);
        visit_field_literals(&xs[i], out);
        assert(bodies_v(out@) + lits_fields(fields_v(xs@), i + 1) =~= o1 + lits_fields(fields_v(xs@), i as int));
        i += 1;
    }
    proof {
        unfold_lits_fields(fields_v(xs@), i as int);
    }
    assert(bodies_v(out@) =~= bodies_v(old(out)@) + (lits_fields(fields_v(xs@), 0)));
}

fn visit_stats_literals<'a>(xs: &'a Vec<Stat>, out: &mut Vec<&'a FuncBody>)
    ensures
        bodies_v(final(out)@) == bodies_v(old(out)@) + lits_stats(stats_v(xs@), 0),
    decreases xs, 0int,
{
    let mut i: usize = 0;
    assert(bodies_v(out@) + (lits_stats(stats_v(xs@), 0)) =~= bodies_v(old(out)@) + (lits_stats(stats_v(xs@), 0)));
    while i < xs.len()
        invariant
            i <= xs@.len(),
            bodies_v(out@) + lits_stats(stats_v(xs@), i as int) == bodies_v(old(out)@) + lits_stats(stats_v(xs@), 0),
        decreases xs@.len() - i,
    {
        proof {
            unfold_lits_stats(stats_v(xs@), i as int);
        }
        let ghost o1 = bodies_v(out@);
        visit_stat_literals(&xs[i], out);
        assert(bodies_v(out@) + lits_stats(stats_v(xs@), i + 1) =~= o1 + lits_stats(stats_v(xs@), i as int));
        i += 1;
    }
    proof {
        unfold_lits_stats(stats_v(xs@), i as int);
    }
    assert(bodies_v(out@) =~= bodies_v(old(out)@) + (lits_stats(stats_v(xs@), 0)));
}

fn visit_arms_literals<'a>(xs: &'a Vec<(Expr, Block)>, out: &mut Vec<&'a FuncBody>)
    ensures
        bodies_v(final(out)@) == bodies_v(old(out)@) + lits_arms(arms_v(xs@), 0),
    decreases xs, 0int,
{
    let mut i: usize = 0;
    assert(bodies_v(out@) + (lits_arms(arms_v(xs@), 0)) =~= bodies_v(old(out)@) + (lits_arms(arms_v(xs@), 0)));
    while i < xs.len()
        invariant
            i <= xs@.len(),
            bodies_v(out@) + lits_arms(arms_v(xs@), i as int) == bodies_v(old(out)@) + lits_arms(arms_v(xs@), 0),
        decreases xs@.len() - i,
    {
        proof {
            unfold_lits_arms(arms_v(xs@), i as int);
        }
        let ghost o1 = bodies_v(out@);
        assert(decreases_to!(xs => xs@[i as int]));
        visit_arm_literals(&xs[i], out);
        assert(bodies_v(out@) + lits_arms(arms_v(xs@), i + 1) =~= o1 + lits_arms(arms_v(xs@), i as int));
        i += 1;
    }
    proof {
        unfold_lits_arms(arms_v(xs@), i as int);
    }
    assert(bodies_v(out@) =~= bodies_v(old(out)@) + (lits_arms(arms_v(xs@), 0)));
}

fn visit_field_literals<'a>(f: &'a Field, out: &mut Vec<&'a FuncBody>)
    ensures
        bodies_v(final(out)@) == bodies_v(old(out)@) + lits_field(f@),
    decreases f, 0int,
{
    proof {
        unfold_lits_field(f@);
    }
    match f {
        Field::Positional(e) => visit_expr_literals(e, out),
        Field::Named { value, .. } => visit_expr_literals(value, out),
        Field::Keyed { key, value } => {
            visit_expr_literals(key, out);
            visit_expr_literals(value, out);
        },
    }
    assert(bodies_v(out@) =~= bodies_v(old(out)@) + lits_field(f@));
}

fn visit_arm_literals<'a>(arm: &'a (Expr, Block), out: &mut Vec<&'a FuncBody>)
    ensures
        bodies_v(final(out)@) == bodies_v(old(out)@) + lits_arm((arm.0@, arm.1@)),
    decreases arm, 0int,
{
    proof {
        unfold_lits_arm((arm.0@, arm.1@));
    }
    visit_expr_literals(&arm.0, out);
    visit_block_literals(&arm.1, out);
    assert(bodies_v(out@) =~= bodies_v(old(out)@) + lits_arm((arm.0@, arm.1@)));
}

fn visit_expr_literals<'a>(e: &'a Expr, out: &mut Vec<&'a FuncBody>)
    ensures
        bodies_v(final(out)@) == bodies_v(old(out)@) + lits_expr(e@),
    decreases e, 0int,
{
    proof {
        unfold_lits_expr(e@);
    }
    match &e.kind {
        ExprKind::Nil | ExprKind::Bool(_) | ExprKind::Number(_) | ExprKind::Str(_) => {},
        ExprKind::Name(_) => {},
        ExprKind::Function(body) => {
            out.push(body);
        },
        ExprKind::Index { base, index } => {
            visit_expr_literals(base, out);
            visit_expr_literals(index, out);
        },
        ExprKind::Field { base, .. } => visit_expr_literals(base, out),
        ExprKind::Call { callee, args } => {
            visit_expr_literals(callee, out);
            visit_exprs_literals(args, out);
        },
        ExprKind::MethodCall { receiver, args, .. } => {
            visit_expr_literals(receiver, out);
            visit_exprs_literals(args, out);
        },
        ExprKind::Table(fields) => visit_fields_literals(fields, out),
        ExprKind::Binary { lhs, rhs, .. } => {
            visit_expr_literals(lhs, out);
            visit_expr_literals(rhs, out);
        },
        ExprKind::Unary { operand, .. } => visit_expr_literals(operand, out),
        ExprKind::Paren(inner) => visit_expr_literals(inner, out),
    }
    assert(bodies_v(out@) =~= bodies_v(old(out)@) + lits_expr(e@));
}

fn visit_block_literals<'a>(block: &'a Block, out: &mut Vec<&'a FuncBody>)
    ensures
        bodies_v(final(out)@) == bodies_v(old(out)@) + lits_block(block@),
    decreases block, 1int,
{
    proof {
        unfold_lits_block(block@);
    }
    visit_stats_literals(&block.stats, out);
    if let Some(ret) = &block.ret {
        visit_exprs_literals(&ret.exprs, out);
    }
    assert(bodies_v(out@) =~= bodies_v(old(out)@) + lits_block(block@));
}

fn visit_stat_literals<'a>(s: &'a Stat, out: &mut Vec<&'a FuncBody>)
    ensures
        bodies_v(final(out)@) == bodies_v(old(out)@) + lits_stat(s@),
    decreases s, 0int,
{
    proof {
        unfold_lits_stat(s@);
    }
    match &s.kind {
        StatKind::Empty | StatKind::Break => {},
        StatKind::Local { exprs, .. } => visit_exprs_literals(exprs, out),
        StatKind::LocalFunction { body, .. } => {
            out.push(body);
        },
        StatKind::Assign { targets, exprs } => {
            visit_exprs_literals(targets, out);
            visit_exprs_literals(exprs, out);
        },
        StatKind::Call(e) => visit_expr_literals(e, out),
        StatKind::Do(block) => visit_block_literals(block, out),
        StatKind::While { cond, body } => {
            visit_expr_literals(cond, out);
            visit_block_literals(body, out);
        },
        StatKind::If { arms, else_block } => {
            visit_arms_literals(arms, out);
            if let Some(block) = else_block {
                visit_block_literals(block, out);
            }
        },
        StatKind::NumericFor { start, end, step, body, .. } => {
            visit_expr_literals(start, out);
            visit_expr_literals(end, out);
            if let Some(step) = step {
                visit_expr_literals(step, out);
            }
            visit_block_literals(body, out);
        },
        StatKind::GenericFor { iter, body, .. } => {
            match iter {
                IterExpr::IPairs { arg, .. } => visit_expr_literals(arg, out),
                IterExpr::Pairs { arg, .. } => visit_expr_literals(arg, out),
            }
            visit_block_literals(body, out);
        },
    }
    assert(bodies_v(out@) =~= bodies_v(old(out)@) + lits_stat(s@));
}

fn collect_exprs_ids(res: &Resolution, xs: &Vec<Expr>, out: &mut HashSet<SymbolId>)
    ensures
        final(out)@ == old(out)@.union(ids_exprs(res@, exprs_v(xs@), 0)),
    decreases xs, 0int,
{
    let mut i: usize = 0;
    assert(out@.union(ids_exprs(res@, exprs_v(xs@), 0)) =~= old(out)@.union(ids_exprs(res@, exprs_v(xs@), 0)));
    while i < xs.len()
        invariant
            i <= xs@.len(),
            out@.union(ids_exprs(res@, exprs_v(xs@), i as int)) == old(out)@.union(ids_exprs(res@, exprs_v(xs@), 0)),
        decreases xs@.len() - i,
    {
        proof {
            unfold_ids_exprs(res@, exprs_v(xs@), i as int);
        }
        let ghost o1 = out@;
        collect_expr_ids(res, &xs[i], out);
        assert(out@.union(ids_exprs(res@, exprs_v(xs@), i + 1)) =~= o1.union(ids_exprs(res@, exprs_v(xs@), i as int)));
        i += 1;
    }
    proof {
        unfold_ids_exprs(res@, exprs_v(xs@), i as int);
    }
    assert(out@ =~= old(out)@.union(ids_exprs(res@, exprs_v(xs@), 0)));
}

fn collect_fields_ids(res: &Resolution, xs: &Vec<Field>, out: &mut HashSet<SymbolId>)
    ensures
        final(out)@ == old(out)@.union(ids_fields(res@, fields_v(xs@), 0)),
    decreases xs, 0int,
{
    let mut i: usize = 0;
    assert(out@.union(ids_fields(res@, fields_v(xs@), 0)) =~= old(out)@.union(ids_fields(res@, fields_v(xs@), 0)));
    while i < xs.len()
        invariant
            i <= xs@.len(),
            out@.union(ids_fields(res@, fields_v(xs@), i as int)) == old(out)@.union(ids_fields(res@, fields_v(xs@), 0)),
        decreases xs@.len() - i,
    {
        proof {
            unfold_ids_fields(res@, fields_v(xs@), i as int);
        }
        let ghost o1 = out@;
        collect_field_ids(res, &xs[i], out);
        assert(out@.union(ids_fields(res@, fields_v(xs@), i + 1)) =~= o1.union(ids_fields(res@, fields_v(xs@), i as int)));
        i += 1;
    }
    proof {
        unfold_ids_fields(res@, fields_v(xs@), i as int);
    }
    assert(out@ =~= old(out)@.union(ids_fields(res@, fields_v(xs@), 0)));
}

fn collect_stats_ids(res: &Resolution, xs: &Vec<Stat>, out: &mut HashSet<SymbolId>)
    ensures
        final(out)@ == old(out)@.union(ids_stats(res@, stats_v(xs@), 0)),
    decreases xs, 0int,
{
    let mut i: usize = 0;
    assert(out@.union(ids_stats(res@, stats_v(xs@), 0)) =~= old(out)@.union(ids_stats(res@, stats_v(xs@), 0)));
    while i < xs.len()
        invariant
            i <= xs@.len(),
            out@.union(ids_stats(res@, stats_v(xs@), i as int)) == old(out)@.union(ids_stats(res@, stats_v(xs@), 0)),
        decreases xs@.len() - i,
    {
        proof {
            unfold_ids_stats(res@, stats_v(xs@), i as int);
        }
        let ghost o1 = out@;
        collect_stat_ids(res, &xs[i], out);
        assert(out@.union(ids_stats(res@, stats_v(xs@), i + 1)) =~= o1.union(ids_stats(res@, stats_v(xs@), i as int)));
        i += 1;
    }
    proof {
        unfold_ids_stats(res@, stats_v(xs@), i as int);
    }
    assert(out@ =~= old(out)@.union(ids_stats(res@, stats_v(xs@), 0)));
}

fn collect_arms_ids(res: &Resolution, xs: &Vec<(Expr, Block)>, out: &mut HashSet<SymbolId>)
    ensures
        final(out)@ == old(out)@.union(ids_arms(res@, arms_v(xs@), 0)),
    decreases xs, 0int,
{
    let mut i: usize = 0;
    assert(out@.union(ids_arms(res@, arms_v(xs@), 0)) =~= old(out)@.union(ids_arms(res@, arms_v(xs@), 0)));
    while i < xs.len()
        invariant
            i <= xs@.len(),
            out@.union(ids_arms(res@, arms_v(xs@), i as int)) == old(out)@.union(ids_arms(res@, arms_v(xs@), 0)),
        decreases xs@.len() - i,
    {
        proof {
            unfold_ids_arms(res@, arms_v(xs@), i as int);
        }
        let ghost o1 = out@;
        assert(decreases_to!(xs => xs@[i as int]));
        collect_arm_ids(res, &xs[i], out);
        assert(out@.union(ids_arms(res@, arms_v(xs@), i + 1)) =~= o1.union(ids_arms(res@, arms_v(xs@), i as int)));
        i += 1;
    }
    proof {
        unfold_ids_arms(res@, arms_v(xs@), i as int);
    }
    assert(out@ =~= old(out)@.union(ids_arms(res@, arms_v(xs@), 0)));
}

fn collect_field_ids(res: &Resolution, f: &Field, out: &mut HashSet<SymbolId>)
    ensures
        final(out)@ == old(out)@.union(ids_field(res@, f@)),
    decreases f, 0int,
{
    proof {
        unfold_ids_field(res@, f@);
    }
    match f {
        Field::Positional(e) => collect_expr_ids(res, e, out),
        Field::Named { value, .. } => collect_expr_ids(res, value, out),
        Field::Keyed { key, value } => {
            collect_expr_ids(res, key, out);
            collect_expr_ids(res, value, out);
        },
    }
    assert(out@ =~= old(out)@.union(ids_field(res@, f@)));
}

fn collect_arm_ids(res: &Resolution, arm: &(Expr, Block), out: &mut HashSet<SymbolId>)
    ensures
        final(out)@ == old(out)@.union(ids_arm(res@, (arm.0@, arm.1@))),
    decreases arm, 0int,
{
    proof {
        unfold_ids_arm(res@, (arm.0@, arm.1@));
    }
    collect_expr_ids(res, &arm.0, out);
    collect_block_ids(res, &arm.1, out);
    assert(out@ =~= old(out)@.union(ids_arm(res@, (arm.0@, arm.1@))));
}

fn collect_expr_ids(res: &Resolution, e: &Expr, out: &mut HashSet<SymbolId>)
    ensures
        final(out)@ == old(out)@.union(ids_expr(res@, e@)),
    decreases e, 0int,
{
    proof {
        unfold_ids_expr(res@, e@);
    }
    match &e.kind {
        ExprKind::Nil | ExprKind::Bool(_) | ExprKind::Number(_) | ExprKind::Str(_) => {},
        ExprKind::Name(_) => collect_name_id(res, e.span, out),
        ExprKind::Function(body) => {
            assert(body@.block == body.block@);
            collect_block_ids(res, &body.block, out);
        },
        ExprKind::Index { base, index } => {
            collect_expr_ids(res, base, out);
            collect_expr_ids(res, index, out);
        },
        ExprKind::Field { base, .. } => collect_expr_ids(res, base, out),
        ExprKind::Call { callee, args } => {
            collect_expr_ids(res, callee, out);
            collect_exprs_ids(res, args, out);
        },
        ExprKind::MethodCall { receiver, args, .. } => {
            collect_expr_ids(res, receiver, out);
            collect_exprs_ids(res, args, out);
        },
        ExprKind::Table(fields) => collect_fields_ids(res, fields, out),
        ExprKind::Binary { lhs, rhs, .. } => {
            collect_expr_ids(res, lhs, out);
            collect_expr_ids(res, rhs, out);
        },
        ExprKind::Unary { operand, .. } => collect_expr_ids(res, operand, out),
        ExprKind::Paren(inner) => collect_expr_ids(res, inner, out),
    }
    assert(out@ =~= old(out)@.union(ids_expr(res@, e@)));
}

fn collect_block_ids(res: &Resolution, block: &Block, out: &mut HashSet<SymbolId>)
    ensures
        final(out)@ == old(out)@.union(ids_block(res@, block@)),
    decreases block, 1int,
{
    proof {
        unfold_ids_block(res@, block@);
    }
    collect_stats_ids(res, &block.stats, out);
    if let Some(ret) = &block.ret {
        collect_exprs_ids(res, &ret.exprs, out);
    }
    assert(out@ =~= old(out)@.union(ids_block(res@, block@)));
}

fn collect_stat_ids(res: &Resolution, s: &Stat, out: &mut HashSet<SymbolId>)
    ensures
        final(out)@ == old(out)@.union(ids_stat(res@, s@)),
    decreases s, 0int,
{
    proof {
        unfold_ids_stat(res@, s@);
    }
    match &s.kind {
        StatKind::Empty | StatKind::Break => {},
        StatKind::Local { exprs, .. } => collect_exprs_ids(res, exprs, out),
        StatKind::LocalFunction { body, .. } => {
            collect_block_ids(res, &body.block, out);
        },
        StatKind::Assign { targets, exprs } => {
            collect_exprs_ids(res, targets, out);
            collect_exprs_ids(res, exprs, out);
        },
        StatKind::Call(e) => collect_expr_ids(res, e, out),
        StatKind::Do(block) => collect_block_ids(res, block, out),
        StatKind::While { cond, body } => {
            collect_expr_ids(res, cond, out);
            collect_block_ids(res, body, out);
        },
        StatKind::If { arms, else_block } => {
            collect_arms_ids(res, arms, out);
            if let Some(block) = else_block {
                collect_block_ids(res, block, out);
            }
        },
        StatKind::NumericFor { start, end, step, body, .. } => {
            collect_expr_ids(res, start, out);
            collect_expr_ids(res, end, out);
            if let Some(step) = step {
                collect_expr_ids(res, step, out);
            }
            collect_block_ids(res, body, out);
        },
        StatKind::GenericFor { iter, body, .. } => {
            match iter {
                IterExpr::IPairs { arg, .. } => collect_expr_ids(res, arg, out),
                IterExpr::Pairs { arg, .. } => collect_expr_ids(res, arg, out),
            }
            collect_block_ids(res, body, out);
        },
    }
    assert(out@ =~= old(out)@.union(ids_stat(res@, s@)));
}

proof fn lemma_shallower(res: ResolutionV, ids: Set<SymbolId>, depth: nat, n: int)
    requires
        0 <= n <= id_count(res),
    ensures
        forall|i: int|
            #![trigger shallower(res, ids, depth, n)[i]]
            0 <= i < shallower(res, ids, depth, n).len() ==> {
                let id = shallower(res, ids, depth, n)[i];
                id < n && ids.contains(id) && res.symbols[id as int].func_depth < depth
            },
        forall|i: int, j: int|
            #![trigger shallower(res, ids, depth, n)[i], shallower(res, ids, depth, n)[j]]
            0 <= i < j < shallower(res, ids, depth, n).len() ==> shallower(res, ids, depth, n)[i]
                < shallower(res, ids, depth, n)[j],
        forall|id: SymbolId|
            id < n && #[trigger] ids.contains(id) && res.symbols[id as int].func_depth < depth
                ==> shallower(res, ids, depth, n).contains(id),
    decreases n,
{
    if n > 0 {
        lemma_shallower(res, ids, depth, n - 1);
        let rest = shallower(res, ids, depth, n - 1);
        let all = shallower(res, ids, depth, n);
        assert forall|id: SymbolId|
            id < n && #[trigger] ids.contains(id) && res.symbols[id as int].func_depth
                < depth implies all.contains(id) by {
            if id < n - 1 {
                assert(rest.contains(id));
                let k = choose|k: int| 0 <= k < rest.len() && rest[k] == id;
                assert(all[k] == id);
            } else {
                assert(all[all.len() - 1] == id);
            }
        }
    }
}

/// The upvalues of a literal are exactly the symbols it refers to that a strictly shallower
/// function declares, each of them once, in ascending order.
pub proof fn law_upvalues(res: ResolutionV, body: FuncBodyV, depth: nat)
    ensures
        forall|i: int, j: int|
            #![trigger upvalues_of(res, body, depth)[i], upvalues_of(res, body, depth)[j]]
            0 <= i < j < upvalues_of(res, body, depth).len() ==> upvalues_of(res, body, depth)[i]
                < upvalues_of(res, body, depth)[j],
        forall|id: SymbolId|
            #![trigger upvalues_of(res, body, depth).contains(id)]
            id < id_count(res) ==> (upvalues_of(res, body, depth).contains(id) <==> (ids_block(
                res,
                body.block,
            ).contains(id) && res.symbols[id as int].func_depth < depth)),
{
    lemma_shallower(res, ids_block(res, body.block), depth, id_count(res));
}

proof fn lemma_lits_expr(res: ResolutionV, e: ExprV, k: int)
    requires
        0 <= k < lits_expr(e).len(),
    ensures
        ids_block(res, lits_expr(e)[k].block).subset_of(ids_expr(res, e)),
    decreases e, 0int,
{
    unfold_lits_expr(e);
    unfold_ids_expr(res, e);
    match e.kind {
        ExprKindV::Index { base, index } => {
            if k < lits_expr(*base).len() {
                lemma_lits_expr(res, *base, k);
            } else {
                lemma_lits_expr(res, *index, k - lits_expr(*base).len());
            }
        },
        ExprKindV::Field { base, .. } => lemma_lits_expr(res, *base, k),
        ExprKindV::Call { callee, args } => {
            if k < lits_expr(*callee).len() {
                lemma_lits_expr(res, *callee, k);
            } else {
                lemma_lits_exprs(res, args, 0, k - lits_expr(*callee).len());
            }
        },
        ExprKindV::MethodCall { receiver, args, .. } => {
            if k < lits_expr(*receiver).len() {
                lemma_lits_expr(res, *receiver, k);
            } else {
                lemma_lits_exprs(res, args, 0, k - lits_expr(*receiver).len());
            }
        },
        ExprKindV::Table(fields) => lemma_lits_fields(res, fields, 0, k),
        ExprKindV::Binary { lhs, rhs, .. } => {
            if k < lits_expr(*lhs).len() {
                lemma_lits_expr(res, *lhs, k);
            } else {
                lemma_lits_expr(res, *rhs, k - lits_expr(*lhs).len());
            }
        },
        ExprKindV::Unary { operand, .. } => lemma_lits_expr(res, *operand, k),
        ExprKindV::Paren(inner) => lemma_lits_expr(res, *inner, k),
        _ => {},
    }
}

proof fn lemma_lits_exprs(res: ResolutionV, es: Seq<ExprV>, i: int, k: int)
    requires
        0 <= k < lits_exprs(es, i).len(),
    ensures
        ids_block(res, lits_exprs(es, i)[k].block).subset_of(ids_exprs(res, es, i)),
    decreases es, es.len() - i,
{
    unfold_lits_exprs(es, i);
    unfold_ids_exprs(res, es, i);
    if 0 <= i < es.len() {
        if k < lits_expr(es[i]).len() {
            lemma_lits_expr(res, es[i], k);
        } else {
            lemma_lits_exprs(res, es, i + 1, k - lits_expr(es[i]).len());
        }
    }
}

proof fn lemma_lits_fields(res: ResolutionV, fs: Seq<FieldV>, i: int, k: int)
    requires
        0 <= k < lits_fields(fs, i).len(),
    ensures
        ids_block(res, lits_fields(fs, i)[k].block).subset_of(ids_fields(res, fs, i)),
    decreases fs, fs.len() - i,
{
    unfold_lits_fields(fs, i);
    unfold_ids_fields(res, fs, i);
    if 0 <= i < fs.len() {
        let n = lits_field(fs[i]).len();
        if k < n {
            unfold_lits_field(fs[i]);
            unfold_ids_field(res, fs[i]);
            match fs[i] {
                FieldV::Positional(e) => lemma_lits_expr(res, e, k),
                FieldV::Named { value, .. } => lemma_lits_expr(res, value, k),
                FieldV::Keyed { key, value } => {
                    if k < lits_expr(key).len() {
                        lemma_lits_expr(res, key, k);
                    } else {
                        lemma_lits_expr(res, value, k - lits_expr(key).len());
                    }
                },
            }
        } else {
            lemma_lits_fields(res, fs, i + 1, k - n);
        }
    }
}

proof fn lemma_lits_arms(res: ResolutionV, arms: Seq<(ExprV, BlockV)>, i: int, k: int)
    requires
        0 <= k < lits_arms(arms, i).len(),
    ensures
        ids_block(res, lits_arms(arms, i)[k].block).subset_of(ids_arms(res, arms, i)),
    decreases arms, arms.len() - i,
{
    unfold_lits_arms(arms, i);
    unfold_ids_arms(res, arms, i);
    if 0 <= i < arms.len() {
        let n = lits_arm(arms[i]).len();
        if k < n {
            unfold_lits_arm(arms[i]);
            unfold_ids_arm(res, arms[i]);
            assert(decreases_to!(arms => arms[i]));
            if k < lits_expr(arms[i].0).len() {
                lemma_lits_expr(res, arms[i].0, k);
            } else {
                lemma_lits_block(res, arms[i].1, k - lits_expr(arms[i].0).len());
            }
        } else {
            lemma_lits_arms(res, arms, i + 1, k - n);
        }
    }
}

proof fn lemma_lits_stats(res: ResolutionV, ss: Seq<StatV>, i: int, k: int)
    requires
        0 <= k < lits_stats(ss, i).len(),
    ensures
        ids_block(res, lits_stats(ss, i)[k].block).subset_of(ids_stats(res, ss, i)),
    decreases ss, ss.len() - i,
{
    unfold_lits_stats(ss, i);
    unfold_ids_stats(res, ss, i);
    if 0 <= i < ss.len() {
        if k < lits_stat(ss[i]).len() {
            lemma_lits_stat(res, ss[i], k);
        } else {
            lemma_lits_stats(res, ss, i + 1, k - lits_stat(ss[i]).len());
        }
    }
}

proof fn lemma_lits_block(res: ResolutionV, b: BlockV, k: int)
    requires
        0 <= k < lits_block(b).len(),
    ensures
        ids_block(res, lits_block(b)[k].block).subset_of(ids_block(res, b)),
    decreases b, 0int,
{
    unfold_lits_block(b);
    unfold_ids_block(res, b);
    let n = lits_stats(b.stats, 0).len();
    if k < n {
        lemma_lits_stats(res, b.stats, 0, k);
    } else {
        lemma_lits_exprs(res, b.ret->0.exprs, 0, k - n);
    }
}

proof fn lemma_lits_stat(res: ResolutionV, s: StatV, k: int)
    requires
        0 <= k < lits_stat(s).len(),
    ensures
        ids_block(res, lits_stat(s)[k].block).subset_of(ids_stat(res, s)),
    decreases s, 0int,
{
    unfold_lits_stat(s);
    unfold_ids_stat(res, s);
    match s.kind {
        StatKindV::Empty => {},
        StatKindV::Break => {},
        StatKindV::Local { exprs, .. } => lemma_lits_exprs(res, exprs, 0, k),
        StatKindV::LocalFunction { .. } => {},
        StatKindV::Assign { targets, exprs } => {
            let n = lits_exprs(targets, 0).len();
            if k < n {
                lemma_lits_exprs(res, targets, 0, k);
            } else {
                lemma_lits_exprs(res, exprs, 0, k - n);
            }
        },
        StatKindV::Call(e) => lemma_lits_expr(res, e, k),
        StatKindV::Do(b) => lemma_lits_block(res, b, k),
        StatKindV::While { cond, body } => {
            let n = lits_expr(cond).len();
            if k < n {
                lemma_lits_expr(res, cond, k);
            } else {
                lemma_lits_block(res, body, k - n);
            }
        },
        StatKindV::If { arms, else_block } => {
            let n = lits_arms(arms, 0).len();
            if k < n {
                lemma_lits_arms(res, arms, 0, k);
            } else {
                lemma_lits_block(res, else_block->0, k - n);
            }
        },
        StatKindV::NumericFor { start, end, step, body, .. } => {
            let a = lits_expr(start).len();
            let b = a + lits_expr(end).len();
            let c = match step {
                Some(e) => b + lits_expr(e).len(),
                None => b,
            };
            if k < a {
                lemma_lits_expr(res, start, k);
            } else if k < b {
                lemma_lits_expr(res, end, k - a);
            } else if k < c {
                lemma_lits_expr(res, step->0, k - b);
            } else {
                lemma_lits_block(res, body, k - c);
            }
        },
        StatKindV::GenericFor { iter, body, .. } => {
            let arg = match iter {
                IterExprV::IPairs { arg, .. } => arg,
                IterExprV::Pairs { arg, .. } => arg,
            };
            let n = lits_expr(arg).len();
            if k < n {
                lemma_lits_expr(res, arg, k);
            } else {
                lemma_lits_block(res, body, k - n);
            }
        },
    }
}

/// What a function literal refers to flows out through the body around it: each upvalue of a
/// literal directly inside `body` is either captured by `body` itself or one of `body`'s own
/// boxed locals, where the literal lies one level deeper than the body.
pub proof fn law_captures_flow_out(
    res: ResolutionV,
    body: FuncBodyV,
    depth: nat,
    k: int,
    id: SymbolId,
)
    requires
        0 <= k < lits_block(body.block).len(),
        id < id_count(res),
        upvalues_of(res, lits_block(body.block)[k], depth + 1).contains(id),
    ensures
        upvalues_of(res, body, depth).contains(id) || boxed_of(res, body, depth).contains(id),
{
    let lits = lits_block(body.block);
    law_upvalues(res, lits[k], depth + 1);
    law_upvalues(res, body, depth);
    lemma_lits_block(res, body.block, k);
    assert(ids_block(res, lits[k].block).contains(id));
    if res.symbols[id as int].func_depth == depth {
        assert(captured_by(res, lits, depth, id, lits.len() as int));
    }
}

} // verus!
