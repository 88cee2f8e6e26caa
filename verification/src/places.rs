//! The names in a module that was parsed stand at different places.

use vstd::prelude::*;

use crate::ast::{
    BlockV, ExprKindV, ExprV, FieldV, IdentV, IterExprV, RetStatV, StatKindV, StatV, TopDeclV,
};
use crate::diagnostics::Span;
use crate::grammar::{
    ahead, is_at, p_arm, p_assign, p_atom, p_block, p_call_args, p_const_decl, p_decls, p_do_body,
    p_else, p_elseifs, p_expr_bp, p_expr_list, p_expr_stat, p_field, p_fields, p_for, p_func_body,
    p_func_decl, p_generic_for, p_if, p_infix, p_iter, p_local, p_more_exprs, p_more_names, p_name,
    p_numeric_for, p_params, p_primary, p_ret, p_stat, p_stats, p_step, p_suffixed, p_suffixes,
    p_table, p_targets, p_while, parse_of, unfold_p_arm, unfold_p_assign, unfold_p_atom,
    unfold_p_block, unfold_p_call_args, unfold_p_const_decl, unfold_p_decls, unfold_p_do_body,
    unfold_p_else, unfold_p_elseifs, unfold_p_export, unfold_p_expr_bp, unfold_p_expr_list,
    unfold_p_expr_stat, unfold_p_field, unfold_p_fields, unfold_p_for, unfold_p_func_body,
    unfold_p_func_decl, unfold_p_generic_for, unfold_p_if, unfold_p_infix, unfold_p_iter,
    unfold_p_local, unfold_p_more_exprs, unfold_p_more_names, unfold_p_numeric_for, unfold_p_params,
    unfold_p_primary, unfold_p_ret, unfold_p_stat, unfold_p_stats, unfold_p_step, unfold_p_suffixed,
    unfold_p_suffixes, unfold_p_table, unfold_p_targets, unfold_p_while,
};
use crate::lexer::{law_scanned_stream, lex_of, scan_from, TokenKind, TokenKindV, TokenV};
use crate::resolve::{resolve_of, ResolveConfigV};
use crate::uses::{
    fits_use, law_each_use_is_bound, one_use_per_place, u_arms, u_block, u_decls, u_expr, u_exprs,
    u_field, u_fields, u_func, u_stat, u_stats, uses_in, Use,
};

verus! {

// ---- how many names stand at a place -------------------------------------------------

/// The number of names in an expression that stand at `s`.
pub open spec fn n_expr(e: ExprV, s: Span) -> nat
    decreases e, 0int,
{
    match e.kind {
        ExprKindV::Nil | ExprKindV::Bool(_) | ExprKindV::Number(_) | ExprKindV::Str(_) => 0,
        ExprKindV::Name(_) => if e.span == s {
            1
        } else {
            0
        },
        ExprKindV::Index { base, index } => n_expr(*base, s) + n_expr(*index, s),
        ExprKindV::Field { base, name } => n_expr(*base, s),
        ExprKindV::Call { callee, args } => n_expr(*callee, s) + n_exprs(args, args.len() as int, s),
        ExprKindV::MethodCall { receiver, method, args } => n_expr(*receiver, s) + n_exprs(
            args,
            args.len() as int,
            s,
        ),
        ExprKindV::Table(fields) => n_fields(fields, fields.len() as int, s),
        ExprKindV::Binary { op, lhs, rhs } => n_expr(*lhs, s) + n_expr(*rhs, s),
        ExprKindV::Unary { op, operand } => n_expr(*operand, s),
        ExprKindV::Paren(inner) => n_expr(*inner, s),
        ExprKindV::Function(body) => n_block(body.block, s),
    }
}

/// The number in the first `k` expressions.
pub open spec fn n_exprs(es: Seq<ExprV>, k: int, s: Span) -> nat
    decreases es, k,
{
    if 0 < k <= es.len() {
        n_exprs(es, k - 1, s) + n_expr(es[k - 1], s)
    } else {
        0
    }
}

/// The number in a table field.
pub open spec fn n_field(f: FieldV, s: Span) -> nat
    decreases f, 0int,
{
    match f {
        FieldV::Positional(e) => n_expr(e, s),
        FieldV::Named { name, value } => n_expr(value, s),
        FieldV::Keyed { key, value } => n_expr(key, s) + n_expr(value, s),
    }
}

/// The number in the first `k` table fields.
pub open spec fn n_fields(fs: Seq<FieldV>, k: int, s: Span) -> nat
    decreases fs, k,
{
    if 0 < k <= fs.len() {
        n_fields(fs, k - 1, s) + n_field(fs[k - 1], s)
    } else {
        0
    }
}

/// The number in a block.
pub open spec fn n_block(b: BlockV, s: Span) -> nat
    decreases b, 1int,
{
    n_stats(b.stats, b.stats.len() as int, s) + n_ret(b.ret, s)
}

/// The number in an optional `return`.
pub open spec fn n_ret(r: Option<RetStatV>, s: Span) -> nat
    decreases r, 0int,
{
    match r {
        Some(x) => n_exprs(x.exprs, x.exprs.len() as int, s),
        None => 0,
    }
}

/// The number in the first `k` statements.
pub open spec fn n_stats(ss: Seq<StatV>, k: int, s: Span) -> nat
    decreases ss, k,
{
    if 0 < k <= ss.len() {
        n_stats(ss, k - 1, s) + n_stat(ss[k - 1], s)
    } else {
        0
    }
}

/// The number in the first `k` arms of a conditional.
pub open spec fn n_arms(arms: Seq<(ExprV, BlockV)>, k: int, s: Span) -> nat
    decreases arms, k,
{
    if 0 < k <= arms.len() {
        n_arms(arms, k - 1, s) + n_expr(arms[k - 1].0, s) + n_block(arms[k - 1].1, s)
    } else {
        0
    }
}

/// The number in an optional block.
pub open spec fn n_else(b: Option<BlockV>, s: Span) -> nat
    decreases b, 0int,
{
    match b {
        Some(x) => n_block(x, s),
        None => 0,
    }
}

/// The number in an optional step.
pub open spec fn n_step(e: Option<ExprV>, s: Span) -> nat
    decreases e, 0int,
{
    match e {
        Some(x) => n_expr(x, s),
        None => 0,
    }
}

/// The number in an iterator.
pub open spec fn n_iter(i: IterExprV, s: Span) -> nat
    decreases i, 0int,
{
    match i {
        IterExprV::IPairs { arg, span } => n_expr(arg, s),
        IterExprV::Pairs { arg, span } => n_expr(arg, s),
    }
}

/// The number in a statement.
pub open spec fn n_stat(x: StatV, s: Span) -> nat
    decreases x, 0int,
{
    match x.kind {
        StatKindV::Empty | StatKindV::Break => 0,
        StatKindV::Local { names, exprs } => n_exprs(exprs, exprs.len() as int, s),
        StatKindV::LocalFunction { name, body } => n_block(body.block, s),
        StatKindV::Assign { targets, exprs } => n_exprs(targets, targets.len() as int, s)
            + n_exprs(exprs, exprs.len() as int, s),
        StatKindV::Call(e) => n_expr(e, s),
        StatKindV::Do(b) => n_block(b, s),
        StatKindV::While { cond, body } => n_expr(cond, s) + n_block(body, s),
        StatKindV::If { arms, else_block } => n_arms(arms, arms.len() as int, s) + n_else(
            else_block,
            s,
        ),
        StatKindV::NumericFor { var, start, end, step, body } => n_expr(start, s) + n_expr(end, s)
            + n_step(step, s) + n_block(body, s),
        StatKindV::GenericFor { names, iter, body } => n_iter(iter, s) + n_block(body, s),
    }
}

/// The number in the first `k` declarations.
pub open spec fn n_decls(ds: Seq<TopDeclV>, k: int, s: Span) -> nat
    decreases k,
{
    if 0 < k <= ds.len() {
        n_decls(ds, k - 1, s) + match ds[k - 1] {
            TopDeclV::Function(f) => n_block(f.body.block, s),
            TopDeclV::Const(_) => 0,
        }
    } else {
        0
    }
}

pub open spec fn all_exprs(es: Seq<ExprV>, s: Span) -> nat {
    n_exprs(es, es.len() as int, s)
}

pub open spec fn all_fields(fs: Seq<FieldV>, s: Span) -> nat {
    n_fields(fs, fs.len() as int, s)
}

pub open spec fn all_stats(ss: Seq<StatV>, s: Span) -> nat {
    n_stats(ss, ss.len() as int, s)
}

pub open spec fn all_arms(arms: Seq<(ExprV, BlockV)>, s: Span) -> nat {
    n_arms(arms, arms.len() as int, s)
}

pub open spec fn all_decls(ds: Seq<TopDeclV>, s: Span) -> nat {
    n_decls(ds, ds.len() as int, s)
}

/// The number of the first `i` tokens that stand at `s`.
pub open spec fn tokens_at(ts: Seq<TokenV>, s: Span, i: int) -> nat
    decreases i,
{
    if i <= 0 {
        0
    } else {
        tokens_at(ts, s, i - 1) + if ts[i - 1].span == s {
            1nat
        } else {
            0nat
        }
    }
}

proof fn lemma_exprs_before(a: Seq<ExprV>, x: ExprV, k: int, s: Span)
    requires
        k <= a.len(),
    ensures
        n_exprs(a.push(x), k, s) == n_exprs(a, k, s),
    decreases k,
{
    if k > 0 {
        lemma_exprs_before(a, x, k - 1, s);
        assert(a.push(x)[k - 1] == a[k - 1]);
    }
}

proof fn lemma_fields_before(a: Seq<FieldV>, x: FieldV, k: int, s: Span)
    requires
        k <= a.len(),
    ensures
        n_fields(a.push(x), k, s) == n_fields(a, k, s),
    decreases k,
{
    if k > 0 {
        lemma_fields_before(a, x, k - 1, s);
        assert(a.push(x)[k - 1] == a[k - 1]);
    }
}

proof fn lemma_stats_before(a: Seq<StatV>, x: StatV, k: int, s: Span)
    requires
        k <= a.len(),
    ensures
        n_stats(a.push(x), k, s) == n_stats(a, k, s),
    decreases k,
{
    if k > 0 {
        lemma_stats_before(a, x, k - 1, s);
        assert(a.push(x)[k - 1] == a[k - 1]);
    }
}

proof fn lemma_arms_before(a: Seq<(ExprV, BlockV)>, x: (ExprV, BlockV), k: int, s: Span)
    requires
        k <= a.len(),
    ensures
        n_arms(a.push(x), k, s) == n_arms(a, k, s),
    decreases k,
{
    if k > 0 {
        lemma_arms_before(a, x, k - 1, s);
        assert(a.push(x)[k - 1] == a[k - 1]);
    }
}

proof fn lemma_decls_before(a: Seq<TopDeclV>, x: TopDeclV, k: int, s: Span)
    requires
        k <= a.len(),
    ensures
        n_decls(a.push(x), k, s) == n_decls(a, k, s),
    decreases k,
{
    if k > 0 {
        lemma_decls_before(a, x, k - 1, s);
        assert(a.push(x)[k - 1] == a[k - 1]);
    }
}

/// Lists that grow by one more node.
spec fn pushes(s: Span) -> bool {
    &&& forall|a: Seq<ExprV>, x: ExprV| #[trigger]
        all_exprs(a.push(x), s) == all_exprs(a, s) + n_expr(x, s)
    &&& forall|a: Seq<FieldV>, x: FieldV| #[trigger]
        all_fields(a.push(x), s) == all_fields(a, s) + n_field(x, s)
    &&& forall|a: Seq<StatV>, x: StatV| #[trigger]
        all_stats(a.push(x), s) == all_stats(a, s) + n_stat(x, s)
    &&& forall|a: Seq<(ExprV, BlockV)>, x: (ExprV, BlockV)| #[trigger]
        all_arms(a.push(x), s) == all_arms(a, s) + n_expr(x.0, s) + n_block(x.1, s)
}

proof fn lemma_pushes(s: Span)
    ensures
        pushes(s),
{
    assert forall|a: Seq<ExprV>, x: ExprV| #[trigger] all_exprs(a.push(x), s) == all_exprs(a, s)
        + n_expr(x, s) by {
        lemma_exprs_before(a, x, a.len() as int, s);
        assert(a.push(x)[a.len() as int] == x);
    }
    assert forall|a: Seq<FieldV>, x: FieldV| #[trigger] all_fields(a.push(x), s) == all_fields(a, s)
        + n_field(x, s) by {
        lemma_fields_before(a, x, a.len() as int, s);
        assert(a.push(x)[a.len() as int] == x);
    }
    assert forall|a: Seq<StatV>, x: StatV| #[trigger] all_stats(a.push(x), s) == all_stats(a, s)
        + n_stat(x, s) by {
        lemma_stats_before(a, x, a.len() as int, s);
        assert(a.push(x)[a.len() as int] == x);
    }
    assert forall|a: Seq<(ExprV, BlockV)>, x: (ExprV, BlockV)| #[trigger] all_arms(a.push(x), s) == all_arms(a, s)
        + n_expr(x.0, s) + n_block(x.1, s) by {
        lemma_arms_before(a, x, a.len() as int, s);
        assert(a.push(x)[a.len() as int] == x);
    }
}

/// What holds of the tokens up to positions.
spec fn tallied(ts: Seq<TokenV>, s: Span) -> bool {
    &&& ts.len() > 0
    &&& ts.last().kind == TokenKindV::Fixed(TokenKind::Eof)
    &&& forall|i: int, j: int|
        #![trigger tokens_at(ts, s, i), tokens_at(ts, s, j)]
        i <= j ==> tokens_at(ts, s, i) <= tokens_at(ts, s, j)
}

proof fn lemma_more_tokens(ts: Seq<TokenV>, s: Span, i: int, j: int)
    requires
        i <= j,
    ensures
        tokens_at(ts, s, i) <= tokens_at(ts, s, j),
    decreases j - i,
{
    if i < j {
        lemma_more_tokens(ts, s, i, j - 1);
    }
}

// ---- what the parser has read ---------------------------------------------------------

/// Whether everything that is parsed after `i` has no more names at `s` than there are tokens
/// there.
spec fn tallied_after(ts: Seq<TokenV>, s: Span, i: int) -> bool {
    &&& forall|j: int, acc: Seq<IdentV>| i < j < ts.len() && 0 <= j ==> ((#[trigger] p_more_names(ts, j, acc)) matches Ok((x, k)) ==> j <= k < ts.len() && 0 + tokens_at(ts, s, j) <= tokens_at(ts, s, k) + 0)
    &&& forall|j: int, acc: Seq<IdentV>| i < j < ts.len() && 0 <= j ==> ((#[trigger] p_params(ts, j, acc)) matches Ok((x, k)) ==> j <= k < ts.len() && 0 + tokens_at(ts, s, j) <= tokens_at(ts, s, k) + 0)
    &&& forall|j: int, min_bp: int| i < j < ts.len() && 0 <= j ==> ((#[trigger] p_expr_bp(ts, j, min_bp)) matches Ok((x, k)) ==> j <= k < ts.len() && n_expr(x, s) + tokens_at(ts, s, j) <= tokens_at(ts, s, k) + 0)
    &&& forall|j: int, lhs: ExprV, min_bp: int| i < j < ts.len() && 0 <= j ==> ((#[trigger] p_infix(ts, j, lhs, min_bp)) matches Ok((x, k)) ==> j <= k < ts.len() && n_expr(x, s) + tokens_at(ts, s, j) <= tokens_at(ts, s, k) + n_expr(lhs, s))
    &&& forall|j: int| i < j < ts.len() && 0 <= j ==> ((#[trigger] p_primary(ts, j)) matches Ok((x, k)) ==> j <= k < ts.len() && n_expr(x, s) + tokens_at(ts, s, j) <= tokens_at(ts, s, k) + 0)
    &&& forall|j: int| i < j < ts.len() && 0 <= j ==> ((#[trigger] p_suffixed(ts, j)) matches Ok((x, k)) ==> j <= k < ts.len() && n_expr(x, s) + tokens_at(ts, s, j) <= tokens_at(ts, s, k) + 0)
    &&& forall|j: int, e: ExprV| i < j < ts.len() && 0 <= j ==> ((#[trigger] p_suffixes(ts, j, e)) matches Ok((x, k)) ==> j <= k < ts.len() && n_expr(x, s) + tokens_at(ts, s, j) <= tokens_at(ts, s, k) + n_expr(e, s))
    &&& forall|j: int| i < j < ts.len() && 0 <= j ==> ((#[trigger] p_atom(ts, j)) matches Ok((x, k)) ==> j <= k < ts.len() && n_expr(x, s) + tokens_at(ts, s, j) <= tokens_at(ts, s, k) + 0)
    &&& forall|j: int| i < j < ts.len() && 0 <= j ==> ((#[trigger] p_call_args(ts, j)) matches Ok((x, k)) ==> j <= k < ts.len() && all_exprs(x.0, s) + tokens_at(ts, s, j) <= tokens_at(ts, s, k) + 0)
    &&& forall|j: int| i < j < ts.len() && 0 <= j ==> ((#[trigger] p_expr_list(ts, j)) matches Ok((x, k)) ==> j <= k < ts.len() && all_exprs(x, s) + tokens_at(ts, s, j) <= tokens_at(ts, s, k) + 0)
    &&& forall|j: int, acc: Seq<ExprV>| i < j < ts.len() && 0 <= j ==> ((#[trigger] p_more_exprs(ts, j, acc)) matches Ok((x, k)) ==> j <= k < ts.len() && all_exprs(x, s) + tokens_at(ts, s, j) <= tokens_at(ts, s, k) + all_exprs(acc, s))
    &&& forall|j: int| i < j < ts.len() && 0 <= j ==> ((#[trigger] p_table(ts, j)) matches Ok((x, k)) ==> j <= k < ts.len() && all_fields(x.0, s) + tokens_at(ts, s, j) <= tokens_at(ts, s, k) + 0)
    &&& forall|j: int, acc: Seq<FieldV>| i < j < ts.len() && 0 <= j ==> ((#[trigger] p_fields(ts, j, acc)) matches Ok((x, k)) ==> j <= k < ts.len() && all_fields(x, s) + tokens_at(ts, s, j) <= tokens_at(ts, s, k) + all_fields(acc, s))
    &&& forall|j: int| i < j < ts.len() && 0 <= j ==> ((#[trigger] p_field(ts, j)) matches Ok((x, k)) ==> j <= k < ts.len() && n_field(x, s) + tokens_at(ts, s, j) <= tokens_at(ts, s, k) + 0)
    &&& forall|j: int| i < j < ts.len() && 0 <= j ==> ((#[trigger] p_func_body(ts, j)) matches Ok((x, k)) ==> j <= k < ts.len() && n_block(x.block, s) + tokens_at(ts, s, j) <= tokens_at(ts, s, k) + 0)
    &&& forall|j: int| i < j < ts.len() && 0 <= j ==> ((#[trigger] p_block(ts, j)) matches Ok((x, k)) ==> j <= k < ts.len() && n_block(x, s) + tokens_at(ts, s, j) <= tokens_at(ts, s, k) + 0)
    &&& forall|j: int, acc: Seq<StatV>| i < j < ts.len() && 0 <= j ==> ((#[trigger] p_stats(ts, j, acc)) matches Ok((x, k)) ==> j <= k < ts.len() && all_stats(x.0, s) + n_ret(x.1, s) + tokens_at(ts, s, j) <= tokens_at(ts, s, k) + all_stats(acc, s))
    &&& forall|j: int| i < j < ts.len() && 0 <= j ==> ((#[trigger] p_ret(ts, j)) matches Ok((x, k)) ==> j <= k < ts.len() && all_exprs(x.exprs, s) + tokens_at(ts, s, j) <= tokens_at(ts, s, k) + 0)
    &&& forall|j: int| i < j < ts.len() && 0 <= j ==> ((#[trigger] p_stat(ts, j)) matches Ok((x, k)) ==> j <= k < ts.len() && n_stat(x, s) + tokens_at(ts, s, j) <= tokens_at(ts, s, k) + 0)
    &&& forall|j: int| i < j < ts.len() && 0 <= j ==> ((#[trigger] p_while(ts, j)) matches Ok((x, k)) ==> j <= k < ts.len() && n_stat(x, s) + tokens_at(ts, s, j) <= tokens_at(ts, s, k) + 0)
    &&& forall|j: int| i < j < ts.len() && 0 <= j ==> ((#[trigger] p_arm(ts, j)) matches Ok((x, k)) ==> j <= k < ts.len() && n_expr(x.0, s) + n_block(x.1, s) + tokens_at(ts, s, j) <= tokens_at(ts, s, k) + 0)
    &&& forall|j: int| i < j < ts.len() && 0 <= j ==> ((#[trigger] p_else(ts, j)) matches Ok((x, k)) ==> j <= k < ts.len() && n_else(x, s) + tokens_at(ts, s, j) <= tokens_at(ts, s, k) + 0)
    &&& forall|j: int| i < j < ts.len() && 0 <= j ==> ((#[trigger] p_if(ts, j)) matches Ok((x, k)) ==> j <= k < ts.len() && n_stat(x, s) + tokens_at(ts, s, j) <= tokens_at(ts, s, k) + 0)
    &&& forall|j: int| i < j < ts.len() && 0 <= j ==> ((#[trigger] p_do_body(ts, j)) matches Ok((x, k)) ==> j <= k < ts.len() && n_block(x.0, s) + tokens_at(ts, s, j) <= tokens_at(ts, s, k) + 0)
    &&& forall|j: int| i < j < ts.len() && 0 <= j ==> ((#[trigger] p_step(ts, j)) matches Ok((x, k)) ==> j <= k < ts.len() && n_step(x, s) + tokens_at(ts, s, j) <= tokens_at(ts, s, k) + 0)
    &&& forall|j: int| i < j < ts.len() && 0 <= j ==> ((#[trigger] p_for(ts, j)) matches Ok((x, k)) ==> j <= k < ts.len() && n_stat(x, s) + tokens_at(ts, s, j) <= tokens_at(ts, s, k) + 0)
    &&& forall|j: int, kw: Span, var: IdentV| i < j < ts.len() && 0 <= j ==> ((#[trigger] p_numeric_for(ts, j, kw, var)) matches Ok((x, k)) ==> j <= k < ts.len() && n_stat(x, s) + tokens_at(ts, s, j) <= tokens_at(ts, s, k) + 0)
    &&& forall|j: int, kw: Span, first: IdentV| i < j < ts.len() && 0 <= j ==> ((#[trigger] p_generic_for(ts, j, kw, first)) matches Ok((x, k)) ==> j <= k < ts.len() && n_stat(x, s) + tokens_at(ts, s, j) <= tokens_at(ts, s, k) + 0)
    &&& forall|j: int| i < j < ts.len() && 0 <= j ==> ((#[trigger] p_iter(ts, j)) matches Ok((x, k)) ==> j <= k < ts.len() && n_iter(x, s) + tokens_at(ts, s, j) <= tokens_at(ts, s, k) + 0)
    &&& forall|j: int, acc: Seq<ExprV>| i < j < ts.len() && 0 <= j ==> ((#[trigger] p_targets(ts, j, acc)) matches Ok((x, k)) ==> j <= k < ts.len() && all_exprs(x, s) + tokens_at(ts, s, j) <= tokens_at(ts, s, k) + all_exprs(acc, s))
    &&& forall|j: int, first: ExprV| i < j < ts.len() && 0 <= j ==> ((#[trigger] p_assign(ts, j, first)) matches Ok((x, k)) ==> j <= k < ts.len() && n_stat(x, s) + tokens_at(ts, s, j) <= tokens_at(ts, s, k) + n_expr(first, s))
    &&& forall|j: int| i < j < ts.len() && 0 <= j ==> ((#[trigger] p_expr_stat(ts, j)) matches Ok((x, k)) ==> j <= k < ts.len() && n_stat(x, s) + tokens_at(ts, s, j) <= tokens_at(ts, s, k) + 0)
    &&& forall|j: int, acc: Seq<(ExprV, BlockV)>| i < j < ts.len() && 0 <= j ==> ((#[trigger] p_elseifs(ts, j, acc)) matches Ok((x, k)) ==> j <= k < ts.len() && all_arms(x, s) + tokens_at(ts, s, j) <= tokens_at(ts, s, k) + all_arms(acc, s))
}

proof fn t_more_names(ts: Seq<TokenV>, s: Span, i: int, acc: Seq<IdentV>)
    requires
        tallied(ts, s),
        pushes(s),
        0 <= i < ts.len(),
    ensures
        p_more_names(ts, i, acc) matches Ok((x, k)) ==> i <= k < ts.len() && 0 + tokens_at(ts, s, i)
            <= tokens_at(ts, s, k) + 0,
    decreases ts.len() - i,
{
    unfold_p_more_names(ts, i, acc);
    if i + 1 < ts.len() {
        match p_name(ts, i + 1) {
            Ok((n, _)) => {
                if is_at(ts, i, TokenKind::Comma) {
                    t_more_names(ts, s, i + 2, acc.push(n));
                }
            },
            Err(_) => {},
        }
    }
}

proof fn t_params(ts: Seq<TokenV>, s: Span, i: int, acc: Seq<IdentV>)
    requires
        tallied(ts, s),
        pushes(s),
        0 <= i < ts.len(),
    ensures
        p_params(ts, i, acc) matches Ok((x, k)) ==> i <= k < ts.len() && 0 + tokens_at(ts, s, i)
            <= tokens_at(ts, s, k) + 0,
    decreases ts.len() - i,
{
    unfold_p_params(ts, i, acc);
    match p_name(ts, i) {
        Ok((n, _)) => {
            if is_at(ts, i + 1, TokenKind::Comma) && i + 2 < ts.len() {
                t_params(ts, s, i + 2, acc.push(n));
            }
        },
        Err(_) => {},
    }
}

proof fn t_expr_bp(ts: Seq<TokenV>, s: Span, i: int, min_bp: int)
    requires
        tallied(ts, s),
        pushes(s),
        0 <= i < ts.len(),
        tallied_after(ts, s, i),
    ensures
        p_expr_bp(ts, i, min_bp) matches Ok((x, k)) ==> i <= k < ts.len() && n_expr(x, s) + tokens_at(ts, s, i)
            <= tokens_at(ts, s, k) + 0,
    decreases 6int,
{
    unfold_p_expr_bp(ts, i, min_bp);
    t_atom(ts, s, i);
    t_primary(ts, s, i);
}

proof fn t_infix(ts: Seq<TokenV>, s: Span, i: int, lhs: ExprV, min_bp: int)
    requires
        tallied(ts, s),
        pushes(s),
        0 <= i < ts.len(),
        tallied_after(ts, s, i),
    ensures
        p_infix(ts, i, lhs, min_bp) matches Ok((x, k)) ==> i <= k < ts.len() && n_expr(x, s) + tokens_at(ts, s, i)
            <= tokens_at(ts, s, k) + n_expr(lhs, s),
    decreases 1int,
{
    unfold_p_infix(ts, i, lhs, min_bp);
}

proof fn t_primary(ts: Seq<TokenV>, s: Span, i: int)
    requires
        tallied(ts, s),
        pushes(s),
        0 <= i < ts.len(),
        tallied_after(ts, s, i),
    ensures
        p_primary(ts, i) matches Ok((x, k)) ==> i <= k < ts.len() && n_expr(x, s) + tokens_at(ts, s, i)
            <= tokens_at(ts, s, k) + 0,
    decreases 5int,
{
    unfold_p_primary(ts, i);
    t_atom(ts, s, i);
    t_table(ts, s, i);
    t_suffixed(ts, s, i);
}

proof fn t_suffixed(ts: Seq<TokenV>, s: Span, i: int)
    requires
        tallied(ts, s),
        pushes(s),
        0 <= i < ts.len(),
        tallied_after(ts, s, i),
    ensures
        p_suffixed(ts, i) matches Ok((x, k)) ==> i <= k < ts.len() && n_expr(x, s) + tokens_at(ts, s, i)
            <= tokens_at(ts, s, k) + 0,
    decreases 4int,
{
    unfold_p_suffixed(ts, i);
    t_atom(ts, s, i);
}

proof fn t_suffixes(ts: Seq<TokenV>, s: Span, i: int, e: ExprV)
    requires
        tallied(ts, s),
        pushes(s),
        0 <= i < ts.len(),
        tallied_after(ts, s, i),
    ensures
        p_suffixes(ts, i, e) matches Ok((x, k)) ==> i <= k < ts.len() && n_expr(x, s) + tokens_at(ts, s, i)
            <= tokens_at(ts, s, k) + n_expr(e, s),
    decreases 3int,
{
    unfold_p_suffixes(ts, i, e);
    t_call_args(ts, s, i);
}

proof fn t_atom(ts: Seq<TokenV>, s: Span, i: int)
    requires
        tallied(ts, s),
        pushes(s),
        0 <= i < ts.len(),
        tallied_after(ts, s, i),
    ensures
        p_atom(ts, i) matches Ok((x, k)) ==> i <= k < ts.len() && n_expr(x, s) + tokens_at(ts, s, i)
            <= tokens_at(ts, s, k) + 0,
    decreases 1int,
{
    unfold_p_atom(ts, i);
}

proof fn t_call_args(ts: Seq<TokenV>, s: Span, i: int)
    requires
        tallied(ts, s),
        pushes(s),
        0 <= i < ts.len(),
        tallied_after(ts, s, i),
    ensures
        p_call_args(ts, i) matches Ok((x, k)) ==> i <= k < ts.len() && all_exprs(x.0, s) + tokens_at(ts, s, i)
            <= tokens_at(ts, s, k) + 0,
    decreases 2int,
{
    unfold_p_call_args(ts, i);
    t_table(ts, s, i);
}

proof fn t_expr_list(ts: Seq<TokenV>, s: Span, i: int)
    requires
        tallied(ts, s),
        pushes(s),
        0 <= i < ts.len(),
        tallied_after(ts, s, i),
    ensures
        p_expr_list(ts, i) matches Ok((x, k)) ==> i <= k < ts.len() && all_exprs(x, s) + tokens_at(ts, s, i)
            <= tokens_at(ts, s, k) + 0,
    decreases 7int,
{
    unfold_p_expr_list(ts, i);
    t_expr_bp(ts, s, i, 0);
}

proof fn t_more_exprs(ts: Seq<TokenV>, s: Span, i: int, acc: Seq<ExprV>)
    requires
        tallied(ts, s),
        pushes(s),
        0 <= i < ts.len(),
        tallied_after(ts, s, i),
    ensures
        p_more_exprs(ts, i, acc) matches Ok((x, k)) ==> i <= k < ts.len() && all_exprs(x, s) + tokens_at(ts, s, i)
            <= tokens_at(ts, s, k) + all_exprs(acc, s),
    decreases 1int,
{
    unfold_p_more_exprs(ts, i, acc);
}

proof fn t_table(ts: Seq<TokenV>, s: Span, i: int)
    requires
        tallied(ts, s),
        pushes(s),
        0 <= i < ts.len(),
        tallied_after(ts, s, i),
    ensures
        p_table(ts, i) matches Ok((x, k)) ==> i <= k < ts.len() && all_fields(x.0, s) + tokens_at(ts, s, i)
            <= tokens_at(ts, s, k) + 0,
    decreases 1int,
{
    unfold_p_table(ts, i);
}

proof fn t_fields(ts: Seq<TokenV>, s: Span, i: int, acc: Seq<FieldV>)
    requires
        tallied(ts, s),
        pushes(s),
        0 <= i < ts.len(),
        tallied_after(ts, s, i),
    ensures
        p_fields(ts, i, acc) matches Ok((x, k)) ==> i <= k < ts.len() && all_fields(x, s) + tokens_at(ts, s, i)
            <= tokens_at(ts, s, k) + all_fields(acc, s),
    decreases 8int,
{
    unfold_p_fields(ts, i, acc);
    t_field(ts, s, i);
}

proof fn t_field(ts: Seq<TokenV>, s: Span, i: int)
    requires
        tallied(ts, s),
        pushes(s),
        0 <= i < ts.len(),
        tallied_after(ts, s, i),
    ensures
        p_field(ts, i) matches Ok((x, k)) ==> i <= k < ts.len() && n_field(x, s) + tokens_at(ts, s, i)
            <= tokens_at(ts, s, k) + 0,
    decreases 7int,
{
    unfold_p_field(ts, i);
    t_expr_bp(ts, s, i, 0);
}

proof fn t_func_body(ts: Seq<TokenV>, s: Span, i: int)
    requires
        tallied(ts, s),
        pushes(s),
        0 <= i < ts.len(),
        tallied_after(ts, s, i),
    ensures
        p_func_body(ts, i) matches Ok((x, k)) ==> i <= k < ts.len() && n_block(x.block, s) + tokens_at(ts, s, i)
            <= tokens_at(ts, s, k) + 0,
    decreases 1int,
{
    unfold_p_func_body(ts, i);
}

proof fn t_block(ts: Seq<TokenV>, s: Span, i: int)
    requires
        tallied(ts, s),
        pushes(s),
        0 <= i < ts.len(),
        tallied_after(ts, s, i),
    ensures
        p_block(ts, i) matches Ok((x, k)) ==> i <= k < ts.len() && n_block(x, s) + tokens_at(ts, s, i)
            <= tokens_at(ts, s, k) + 0,
    decreases 11int,
{
    unfold_p_block(ts, i);
    t_stats(ts, s, i, Seq::empty());
}

proof fn t_stats(ts: Seq<TokenV>, s: Span, i: int, acc: Seq<StatV>)
    requires
        tallied(ts, s),
        pushes(s),
        0 <= i < ts.len(),
        tallied_after(ts, s, i),
    ensures
        p_stats(ts, i, acc) matches Ok((x, k)) ==> i <= k < ts.len() && all_stats(x.0, s) + n_ret(x.1, s) + tokens_at(ts, s, i)
            <= tokens_at(ts, s, k) + all_stats(acc, s),
    decreases 10int,
{
    unfold_p_stats(ts, i, acc);
    t_ret(ts, s, i);
    t_stat(ts, s, i);
}

proof fn t_ret(ts: Seq<TokenV>, s: Span, i: int)
    requires
        tallied(ts, s),
        pushes(s),
        0 <= i < ts.len(),
        tallied_after(ts, s, i),
    ensures
        p_ret(ts, i) matches Ok((x, k)) ==> i <= k < ts.len() && all_exprs(x.exprs, s) + tokens_at(ts, s, i)
            <= tokens_at(ts, s, k) + 0,
    decreases 1int,
{
    unfold_p_ret(ts, i);
}

proof fn t_stat(ts: Seq<TokenV>, s: Span, i: int)
    requires
        tallied(ts, s),
        pushes(s),
        0 <= i < ts.len(),
        tallied_after(ts, s, i),
    ensures
        p_stat(ts, i) matches Ok((x, k)) ==> i <= k < ts.len() && n_stat(x, s) + tokens_at(ts, s, i)
            <= tokens_at(ts, s, k) + 0,
    decreases 9int,
{
    unfold_p_stat(ts, i);
    if i + 1 < ts.len() {
        t_local(ts, s, i);
    }
    t_while(ts, s, i);
    t_if(ts, s, i);
    t_for(ts, s, i);
    t_expr_stat(ts, s, i);
}

proof fn t_local(ts: Seq<TokenV>, s: Span, i: int)
    requires
        tallied(ts, s),
        pushes(s),
        0 <= i,
        i + 1 < ts.len(),
        tallied_after(ts, s, i),
    ensures
        p_local(ts, i) matches Ok((x, k)) ==> i <= k < ts.len() && n_stat(x, s) + tokens_at(ts, s, i)
            <= tokens_at(ts, s, k) + 0,
    decreases 1int,
{
    unfold_p_local(ts, i);
}

proof fn t_while(ts: Seq<TokenV>, s: Span, i: int)
    requires
        tallied(ts, s),
        pushes(s),
        0 <= i < ts.len(),
        tallied_after(ts, s, i),
    ensures
        p_while(ts, i) matches Ok((x, k)) ==> i <= k < ts.len() && n_stat(x, s) + tokens_at(ts, s, i)
            <= tokens_at(ts, s, k) + 0,
    decreases 1int,
{
    unfold_p_while(ts, i);
}

proof fn t_arm(ts: Seq<TokenV>, s: Span, i: int)
    requires
        tallied(ts, s),
        pushes(s),
        0 <= i < ts.len(),
        tallied_after(ts, s, i),
    ensures
        p_arm(ts, i) matches Ok((x, k)) ==> i <= k < ts.len() && n_expr(x.0, s) + n_block(x.1, s) + tokens_at(ts, s, i)
            <= tokens_at(ts, s, k) + 0,
    decreases 12int,
{
    unfold_p_arm(ts, i);
    t_expr_bp(ts, s, i, 0);
}

proof fn t_else(ts: Seq<TokenV>, s: Span, i: int)
    requires
        tallied(ts, s),
        pushes(s),
        0 <= i < ts.len(),
        tallied_after(ts, s, i),
    ensures
        p_else(ts, i) matches Ok((x, k)) ==> i <= k < ts.len() && n_else(x, s) + tokens_at(ts, s, i)
            <= tokens_at(ts, s, k) + 0,
    decreases 1int,
{
    unfold_p_else(ts, i);
}

proof fn t_if(ts: Seq<TokenV>, s: Span, i: int)
    requires
        tallied(ts, s),
        pushes(s),
        0 <= i < ts.len(),
        tallied_after(ts, s, i),
    ensures
        p_if(ts, i) matches Ok((x, k)) ==> i <= k < ts.len() && n_stat(x, s) + tokens_at(ts, s, i)
            <= tokens_at(ts, s, k) + 0,
    decreases 1int,
{
    unfold_p_if(ts, i);
}

proof fn t_do_body(ts: Seq<TokenV>, s: Span, i: int)
    requires
        tallied(ts, s),
        pushes(s),
        0 <= i < ts.len(),
        tallied_after(ts, s, i),
    ensures
        p_do_body(ts, i) matches Ok((x, k)) ==> i <= k < ts.len() && n_block(x.0, s) + tokens_at(ts, s, i)
            <= tokens_at(ts, s, k) + 0,
    decreases 1int,
{
    unfold_p_do_body(ts, i);
}

proof fn t_step(ts: Seq<TokenV>, s: Span, i: int)
    requires
        tallied(ts, s),
        pushes(s),
        0 <= i < ts.len(),
        tallied_after(ts, s, i),
    ensures
        p_step(ts, i) matches Ok((x, k)) ==> i <= k < ts.len() && n_step(x, s) + tokens_at(ts, s, i)
            <= tokens_at(ts, s, k) + 0,
    decreases 1int,
{
    unfold_p_step(ts, i);
}

proof fn t_for(ts: Seq<TokenV>, s: Span, i: int)
    requires
        tallied(ts, s),
        pushes(s),
        0 <= i < ts.len(),
        tallied_after(ts, s, i),
    ensures
        p_for(ts, i) matches Ok((x, k)) ==> i <= k < ts.len() && n_stat(x, s) + tokens_at(ts, s, i)
            <= tokens_at(ts, s, k) + 0,
    decreases 1int,
{
    unfold_p_for(ts, i);
}

proof fn t_numeric_for(ts: Seq<TokenV>, s: Span, i: int, kw: Span, var: IdentV)
    requires
        tallied(ts, s),
        pushes(s),
        0 <= i < ts.len(),
        tallied_after(ts, s, i),
    ensures
        p_numeric_for(ts, i, kw, var) matches Ok((x, k)) ==> i <= k < ts.len() && n_stat(x, s) + tokens_at(ts, s, i)
            <= tokens_at(ts, s, k) + 0,
    decreases 1int,
{
    unfold_p_numeric_for(ts, i, kw, var);
}

proof fn t_generic_for(ts: Seq<TokenV>, s: Span, i: int, kw: Span, first: IdentV)
    requires
        tallied(ts, s),
        pushes(s),
        0 <= i < ts.len(),
        tallied_after(ts, s, i),
    ensures
        p_generic_for(ts, i, kw, first) matches Ok((x, k)) ==> i <= k < ts.len() && n_stat(x, s) + tokens_at(ts, s, i)
            <= tokens_at(ts, s, k) + 0,
    decreases 13int,
{
    unfold_p_generic_for(ts, i, kw, first);
    t_more_names(ts, s, i, seq![first]);
}

proof fn t_iter(ts: Seq<TokenV>, s: Span, i: int)
    requires
        tallied(ts, s),
        pushes(s),
        0 <= i < ts.len(),
        tallied_after(ts, s, i),
    ensures
        p_iter(ts, i) matches Ok((x, k)) ==> i <= k < ts.len() && n_iter(x, s) + tokens_at(ts, s, i)
            <= tokens_at(ts, s, k) + 0,
    decreases 1int,
{
    unfold_p_iter(ts, i);
}

proof fn t_targets(ts: Seq<TokenV>, s: Span, i: int, acc: Seq<ExprV>)
    requires
        tallied(ts, s),
        pushes(s),
        0 <= i < ts.len(),
        tallied_after(ts, s, i),
    ensures
        p_targets(ts, i, acc) matches Ok((x, k)) ==> i <= k < ts.len() && all_exprs(x, s) + tokens_at(ts, s, i)
            <= tokens_at(ts, s, k) + all_exprs(acc, s),
    decreases 1int,
{
    unfold_p_targets(ts, i, acc);
}

proof fn t_assign(ts: Seq<TokenV>, s: Span, i: int, first: ExprV)
    requires
        tallied(ts, s),
        pushes(s),
        0 <= i < ts.len(),
        tallied_after(ts, s, i),
    ensures
        p_assign(ts, i, first) matches Ok((x, k)) ==> i <= k < ts.len() && n_stat(x, s) + tokens_at(ts, s, i)
            <= tokens_at(ts, s, k) + n_expr(first, s),
    decreases 2int,
{
    unfold_p_assign(ts, i, first);
    t_targets(ts, s, i, seq![first]);
}

proof fn t_expr_stat(ts: Seq<TokenV>, s: Span, i: int)
    requires
        tallied(ts, s),
        pushes(s),
        0 <= i < ts.len(),
        tallied_after(ts, s, i),
    ensures
        p_expr_stat(ts, i) matches Ok((x, k)) ==> i <= k < ts.len() && n_stat(x, s) + tokens_at(ts, s, i)
            <= tokens_at(ts, s, k) + 0,
    decreases 8int,
{
    unfold_p_expr_stat(ts, i);
    t_suffixed(ts, s, i);
}

proof fn t_elseifs(ts: Seq<TokenV>, s: Span, i: int, acc: Seq<(ExprV, BlockV)>)
    requires
        tallied(ts, s),
        pushes(s),
        0 <= i < ts.len(),
        tallied_after(ts, s, i),
    ensures
        p_elseifs(ts, i, acc) matches Ok((x, k)) ==> i <= k < ts.len() && all_arms(x, s) + tokens_at(ts, s, i)
            <= tokens_at(ts, s, k) + all_arms(acc, s),
    decreases 1int,
{
    unfold_p_elseifs(ts, i, acc);
}

proof fn lemma_tallied_after(ts: Seq<TokenV>, s: Span, i: int)
    requires
        tallied(ts, s),
        pushes(s),
        0 <= i,
    ensures
        tallied_after(ts, s, i),
    decreases (if i < ts.len() {
        ts.len() - i
    } else {
        0
    }),
{
    assert forall|j: int, acc: Seq<IdentV>| i < j < ts.len() && 0 <= j implies ((#[trigger] p_more_names(ts, j, acc)) matches Ok((x, k)) ==> j <= k < ts.len() && 0 + tokens_at(ts, s, j) <= tokens_at(ts, s, k) + 0) by {
        lemma_tallied_after(ts, s, j);
        t_more_names(ts, s, j, acc);
    }
    assert forall|j: int, acc: Seq<IdentV>| i < j < ts.len() && 0 <= j implies ((#[trigger] p_params(ts, j, acc)) matches Ok((x, k)) ==> j <= k < ts.len() && 0 + tokens_at(ts, s, j) <= tokens_at(ts, s, k) + 0) by {
        lemma_tallied_after(ts, s, j);
        t_params(ts, s, j, acc);
    }
    assert forall|j: int, min_bp: int| i < j < ts.len() && 0 <= j implies ((#[trigger] p_expr_bp(ts, j, min_bp)) matches Ok((x, k)) ==> j <= k < ts.len() && n_expr(x, s) + tokens_at(ts, s, j) <= tokens_at(ts, s, k) + 0) by {
        lemma_tallied_after(ts, s, j);
        t_expr_bp(ts, s, j, min_bp);
    }
    assert forall|j: int, lhs: ExprV, min_bp: int| i < j < ts.len() && 0 <= j implies ((#[trigger] p_infix(ts, j, lhs, min_bp)) matches Ok((x, k)) ==> j <= k < ts.len() && n_expr(x, s) + tokens_at(ts, s, j) <= tokens_at(ts, s, k) + n_expr(lhs, s)) by {
        lemma_tallied_after(ts, s, j);
        t_infix(ts, s, j, lhs, min_bp);
    }
    assert forall|j: int| i < j < ts.len() && 0 <= j implies ((#[trigger] p_primary(ts, j)) matches Ok((x, k)) ==> j <= k < ts.len() && n_expr(x, s) + tokens_at(ts, s, j) <= tokens_at(ts, s, k) + 0) by {
        lemma_tallied_after(ts, s, j);
        t_primary(ts, s, j);
    }
    assert forall|j: int| i < j < ts.len() && 0 <= j implies ((#[trigger] p_suffixed(ts, j)) matches Ok((x, k)) ==> j <= k < ts.len() && n_expr(x, s) + tokens_at(ts, s, j) <= tokens_at(ts, s, k) + 0) by {
        lemma_tallied_after(ts, s, j);
        t_suffixed(ts, s, j);
    }
    assert forall|j: int, e: ExprV| i < j < ts.len() && 0 <= j implies ((#[trigger] p_suffixes(ts, j, e)) matches Ok((x, k)) ==> j <= k < ts.len() && n_expr(x, s) + tokens_at(ts, s, j) <= tokens_at(ts, s, k) + n_expr(e, s)) by {
        lemma_tallied_after(ts, s, j);
        t_suffixes(ts, s, j, e);
    }
    assert forall|j: int| i < j < ts.len() && 0 <= j implies ((#[trigger] p_atom(ts, j)) matches Ok((x, k)) ==> j <= k < ts.len() && n_expr(x, s) + tokens_at(ts, s, j) <= tokens_at(ts, s, k) + 0) by {
        lemma_tallied_after(ts, s, j);
        t_atom(ts, s, j);
    }
    assert forall|j: int| i < j < ts.len() && 0 <= j implies ((#[trigger] p_call_args(ts, j)) matches Ok((x, k)) ==> j <= k < ts.len() && all_exprs(x.0, s) + tokens_at(ts, s, j) <= tokens_at(ts, s, k) + 0) by {
        lemma_tallied_after(ts, s, j);
        t_call_args(ts, s, j);
    }
    assert forall|j: int| i < j < ts.len() && 0 <= j implies ((#[trigger] p_expr_list(ts, j)) matches Ok((x, k)) ==> j <= k < ts.len() && all_exprs(x, s) + tokens_at(ts, s, j) <= tokens_at(ts, s, k) + 0) by {
        lemma_tallied_after(ts, s, j);
        t_expr_list(ts, s, j);
    }
    assert forall|j: int, acc: Seq<ExprV>| i < j < ts.len() && 0 <= j implies ((#[trigger] p_more_exprs(ts, j, acc)) matches Ok((x, k)) ==> j <= k < ts.len() && all_exprs(x, s) + tokens_at(ts, s, j) <= tokens_at(ts, s, k) + all_exprs(acc, s)) by {
        lemma_tallied_after(ts, s, j);
        t_more_exprs(ts, s, j, acc);
    }
    assert forall|j: int| i < j < ts.len() && 0 <= j implies ((#[trigger] p_table(ts, j)) matches Ok((x, k)) ==> j <= k < ts.len() && all_fields(x.0, s) + tokens_at(ts, s, j) <= tokens_at(ts, s, k) + 0) by {
        lemma_tallied_after(ts, s, j);
        t_table(ts, s, j);
    }
    assert forall|j: int, acc: Seq<FieldV>| i < j < ts.len() && 0 <= j implies ((#[trigger] p_fields(ts, j, acc)) matches Ok((x, k)) ==> j <= k < ts.len() && all_fields(x, s) + tokens_at(ts, s, j) <= tokens_at(ts, s, k) + all_fields(acc, s)) by {
        lemma_tallied_after(ts, s, j);
        t_fields(ts, s, j, acc);
    }
    assert forall|j: int| i < j < ts.len() && 0 <= j implies ((#[trigger] p_field(ts, j)) matches Ok((x, k)) ==> j <= k < ts.len() && n_field(x, s) + tokens_at(ts, s, j) <= tokens_at(ts, s, k) + 0) by {
        lemma_tallied_after(ts, s, j);
        t_field(ts, s, j);
    }
    assert forall|j: int| i < j < ts.len() && 0 <= j implies ((#[trigger] p_func_body(ts, j)) matches Ok((x, k)) ==> j <= k < ts.len() && n_block(x.block, s) + tokens_at(ts, s, j) <= tokens_at(ts, s, k) + 0) by {
        lemma_tallied_after(ts, s, j);
        t_func_body(ts, s, j);
    }
    assert forall|j: int| i < j < ts.len() && 0 <= j implies ((#[trigger] p_block(ts, j)) matches Ok((x, k)) ==> j <= k < ts.len() && n_block(x, s) + tokens_at(ts, s, j) <= tokens_at(ts, s, k) + 0) by {
        lemma_tallied_after(ts, s, j);
        t_block(ts, s, j);
    }
    assert forall|j: int, acc: Seq<StatV>| i < j < ts.len() && 0 <= j implies ((#[trigger] p_stats(ts, j, acc)) matches Ok((x, k)) ==> j <= k < ts.len() && all_stats(x.0, s) + n_ret(x.1, s) + tokens_at(ts, s, j) <= tokens_at(ts, s, k) + all_stats(acc, s)) by {
        lemma_tallied_after(ts, s, j);
        t_stats(ts, s, j, acc);
    }
    assert forall|j: int| i < j < ts.len() && 0 <= j implies ((#[trigger] p_ret(ts, j)) matches Ok((x, k)) ==> j <= k < ts.len() && all_exprs(x.exprs, s) + tokens_at(ts, s, j) <= tokens_at(ts, s, k) + 0) by {
        lemma_tallied_after(ts, s, j);
        t_ret(ts, s, j);
    }
    assert forall|j: int| i < j < ts.len() && 0 <= j implies ((#[trigger] p_stat(ts, j)) matches Ok((x, k)) ==> j <= k < ts.len() && n_stat(x, s) + tokens_at(ts, s, j) <= tokens_at(ts, s, k) + 0) by {
        lemma_tallied_after(ts, s, j);
        t_stat(ts, s, j);
    }
    assert forall|j: int| i < j < ts.len() && 0 <= j implies ((#[trigger] p_while(ts, j)) matches Ok((x, k)) ==> j <= k < ts.len() && n_stat(x, s) + tokens_at(ts, s, j) <= tokens_at(ts, s, k) + 0) by {
        lemma_tallied_after(ts, s, j);
        t_while(ts, s, j);
    }
    assert forall|j: int| i < j < ts.len() && 0 <= j implies ((#[trigger] p_arm(ts, j)) matches Ok((x, k)) ==> j <= k < ts.len() && n_expr(x.0, s) + n_block(x.1, s) + tokens_at(ts, s, j) <= tokens_at(ts, s, k) + 0) by {
        lemma_tallied_after(ts, s, j);
        t_arm(ts, s, j);
    }
    assert forall|j: int| i < j < ts.len() && 0 <= j implies ((#[trigger] p_else(ts, j)) matches Ok((x, k)) ==> j <= k < ts.len() && n_else(x, s) + tokens_at(ts, s, j) <= tokens_at(ts, s, k) + 0) by {
        lemma_tallied_after(ts, s, j);
        t_else(ts, s, j);
    }
    assert forall|j: int| i < j < ts.len() && 0 <= j implies ((#[trigger] p_if(ts, j)) matches Ok((x, k)) ==> j <= k < ts.len() && n_stat(x, s) + tokens_at(ts, s, j) <= tokens_at(ts, s, k) + 0) by {
        lemma_tallied_after(ts, s, j);
        t_if(ts, s, j);
    }
    assert forall|j: int| i < j < ts.len() && 0 <= j implies ((#[trigger] p_do_body(ts, j)) matches Ok((x, k)) ==> j <= k < ts.len() && n_block(x.0, s) + tokens_at(ts, s, j) <= tokens_at(ts, s, k) + 0) by {
        lemma_tallied_after(ts, s, j);
        t_do_body(ts, s, j);
    }
    assert forall|j: int| i < j < ts.len() && 0 <= j implies ((#[trigger] p_step(ts, j)) matches Ok((x, k)) ==> j <= k < ts.len() && n_step(x, s) + tokens_at(ts, s, j) <= tokens_at(ts, s, k) + 0) by {
        lemma_tallied_after(ts, s, j);
        t_step(ts, s, j);
    }
    assert forall|j: int| i < j < ts.len() && 0 <= j implies ((#[trigger] p_for(ts, j)) matches Ok((x, k)) ==> j <= k < ts.len() && n_stat(x, s) + tokens_at(ts, s, j) <= tokens_at(ts, s, k) + 0) by {
        lemma_tallied_after(ts, s, j);
        t_for(ts, s, j);
    }
    assert forall|j: int, kw: Span, var: IdentV| i < j < ts.len() && 0 <= j implies ((#[trigger] p_numeric_for(ts, j, kw, var)) matches Ok((x, k)) ==> j <= k < ts.len() && n_stat(x, s) + tokens_at(ts, s, j) <= tokens_at(ts, s, k) + 0) by {
        lemma_tallied_after(ts, s, j);
        t_numeric_for(ts, s, j, kw, var);
    }
    assert forall|j: int, kw: Span, first: IdentV| i < j < ts.len() && 0 <= j implies ((#[trigger] p_generic_for(ts, j, kw, first)) matches Ok((x, k)) ==> j <= k < ts.len() && n_stat(x, s) + tokens_at(ts, s, j) <= tokens_at(ts, s, k) + 0) by {
        lemma_tallied_after(ts, s, j);
        t_generic_for(ts, s, j, kw, first);
    }
    assert forall|j: int| i < j < ts.len() && 0 <= j implies ((#[trigger] p_iter(ts, j)) matches Ok((x, k)) ==> j <= k < ts.len() && n_iter(x, s) + tokens_at(ts, s, j) <= tokens_at(ts, s, k) + 0) by {
        lemma_tallied_after(ts, s, j);
        t_iter(ts, s, j);
    }
    assert forall|j: int, acc: Seq<ExprV>| i < j < ts.len() && 0 <= j implies ((#[trigger] p_targets(ts, j, acc)) matches Ok((x, k)) ==> j <= k < ts.len() && all_exprs(x, s) + tokens_at(ts, s, j) <= tokens_at(ts, s, k) + all_exprs(acc, s)) by {
        lemma_tallied_after(ts, s, j);
        t_targets(ts, s, j, acc);
    }
    assert forall|j: int, first: ExprV| i < j < ts.len() && 0 <= j implies ((#[trigger] p_assign(ts, j, first)) matches Ok((x, k)) ==> j <= k < ts.len() && n_stat(x, s) + tokens_at(ts, s, j) <= tokens_at(ts, s, k) + n_expr(first, s)) by {
        lemma_tallied_after(ts, s, j);
        t_assign(ts, s, j, first);
    }
    assert forall|j: int| i < j < ts.len() && 0 <= j implies ((#[trigger] p_expr_stat(ts, j)) matches Ok((x, k)) ==> j <= k < ts.len() && n_stat(x, s) + tokens_at(ts, s, j) <= tokens_at(ts, s, k) + 0) by {
        lemma_tallied_after(ts, s, j);
        t_expr_stat(ts, s, j);
    }
    assert forall|j: int, acc: Seq<(ExprV, BlockV)>| i < j < ts.len() && 0 <= j implies ((#[trigger] p_elseifs(ts, j, acc)) matches Ok((x, k)) ==> j <= k < ts.len() && all_arms(x, s) + tokens_at(ts, s, j) <= tokens_at(ts, s, k) + all_arms(acc, s)) by {
        lemma_tallied_after(ts, s, j);
        t_elseifs(ts, s, j, acc);
    }
}

proof fn t_decls(ts: Seq<TokenV>, s: Span, i: int, acc: Seq<TopDeclV>)
    requires
        tallied(ts, s),
        pushes(s),
        0 <= i < ts.len(),
    ensures
        p_decls(ts, i, acc) matches Ok((x, k)) ==> i <= k < ts.len() && all_decls(x.0, s) + (
        match x.1 {
            Some(e) => all_fields(e.node, s),
            None => 0,
        }) + tokens_at(ts, s, i) <= tokens_at(ts, s, k) + all_decls(acc, s),
    decreases ts.len() - i,
{
    unfold_p_decls(ts, i, acc);
    unfold_p_func_decl(ts, i);
    unfold_p_const_decl(ts, i);
    unfold_p_export(ts, i);
    lemma_tallied_after(ts, s, i);
    match ts[i].kind {
        TokenKindV::Fixed(TokenKind::Function) => {
            match p_func_decl(ts, i) {
                Ok((f, j)) => {
                    let d = TopDeclV::Function(f);
                    lemma_decls_before(acc, d, acc.len() as int, s);
                    assert(acc.push(d)[acc.len() as int] == d);
                    if ahead(ts, i, j) {
                        t_decls(ts, s, j, acc.push(d));
                    }
                },
                Err(_) => {},
            }
        },
        TokenKindV::Name(_) => {
            match p_const_decl(ts, i) {
                Ok((c, j)) => {
                    let d = TopDeclV::Const(c);
                    lemma_decls_before(acc, d, acc.len() as int, s);
                    assert(acc.push(d)[acc.len() as int] == d);
                    if ahead(ts, i, j) {
                        t_decls(ts, s, j, acc.push(d));
                    }
                },
                Err(_) => {},
            }
        },
        _ => {},
    }
}

// ---- uses and numbers -------------------------------------------------------------------

proof fn c_expr(e: ExprV, d: int, s: Span, u: Use, v: Use)
    requires
        u.span == s,
        v.span == s,
    ensures
        u_expr(e, d).contains(u) ==> 1 <= n_expr(e, s),
        u_expr(e, d).contains(u) && u_expr(e, d).contains(v) && u != v ==> 2 <= n_expr(e, s),
    decreases e, 0int,
{
    match e.kind {
        ExprKindV::Index { base, index } => {
            c_expr(*base, d, s, u, v);
            c_expr(*base, d, s, v, u);
            c_expr(*index, d, s, u, v);
            c_expr(*index, d, s, v, u);
        },
        ExprKindV::Field { base, name } => c_expr(*base, d, s, u, v),
        ExprKindV::Call { callee, args } => {
            c_expr(*callee, d, s, u, v);
            c_expr(*callee, d, s, v, u);
            c_exprs(args, 0, d, s, u, v);
            c_exprs(args, 0, d, s, v, u);
        },
        ExprKindV::MethodCall { receiver, method, args } => {
            c_expr(*receiver, d, s, u, v);
            c_expr(*receiver, d, s, v, u);
            c_exprs(args, 0, d, s, u, v);
            c_exprs(args, 0, d, s, v, u);
        },
        ExprKindV::Table(fields) => c_fields(fields, 0, d, s, u, v),
        ExprKindV::Binary { op, lhs, rhs } => {
            c_expr(*lhs, d, s, u, v);
            c_expr(*lhs, d, s, v, u);
            c_expr(*rhs, d, s, u, v);
            c_expr(*rhs, d, s, v, u);
        },
        ExprKindV::Unary { op, operand } => c_expr(*operand, d, s, u, v),
        ExprKindV::Paren(inner) => c_expr(*inner, d, s, u, v),
        ExprKindV::Function(body) => {
            assert(u_func(body, d) == u_block(body.block, d + 1));
            c_block(body.block, d + 1, s, u, v);
        },
        ExprKindV::Name(n) => {
            let x = Use { span: e.span, name: n, depth: d };
            assert(u_expr(e, d).contains(u) ==> u == x);
            assert(u_expr(e, d).contains(v) ==> v == x);
        },
        _ => {},
    }
}

/// The number in what is left of a list.
proof fn c_exprs(es: Seq<ExprV>, i: int, d: int, s: Span, u: Use, v: Use)
    requires
        u.span == s,
        v.span == s,
        0 <= i <= es.len(),
    ensures
        n_exprs(es, i, s) <= n_exprs(es, es.len() as int, s),
        u_exprs(es, i, d).contains(u) ==> n_exprs(es, i, s) + 1 <= n_exprs(
            es,
            es.len() as int,
            s,
        ),
        u_exprs(es, i, d).contains(u) && u_exprs(es, i, d).contains(v) && u != v ==> n_exprs(
            es,
            i,
            s,
        ) + 2 <= n_exprs(es, es.len() as int, s),
    decreases es, es.len() - i,
{
    if i < es.len() {
        c_expr(es[i], d, s, u, v);
        c_expr(es[i], d, s, v, u);
        c_exprs(es, i + 1, d, s, u, v);
        c_exprs(es, i + 1, d, s, v, u);
    }
}

proof fn c_field(f: FieldV, d: int, s: Span, u: Use, v: Use)
    requires
        u.span == s,
        v.span == s,
    ensures
        u_field(f, d).contains(u) ==> 1 <= n_field(f, s),
        u_field(f, d).contains(u) && u_field(f, d).contains(v) && u != v ==> 2 <= n_field(f, s),
    decreases f, 0int,
{
    match f {
        FieldV::Positional(e) => c_expr(e, d, s, u, v),
        FieldV::Named { name, value } => c_expr(value, d, s, u, v),
        FieldV::Keyed { key, value } => {
            c_expr(key, d, s, u, v);
            c_expr(key, d, s, v, u);
            c_expr(value, d, s, u, v);
            c_expr(value, d, s, v, u);
        },
    }
}

/// The number in what is left of a list.
proof fn c_fields(es: Seq<FieldV>, i: int, d: int, s: Span, u: Use, v: Use)
    requires
        u.span == s,
        v.span == s,
        0 <= i <= es.len(),
    ensures
        n_fields(es, i, s) <= n_fields(es, es.len() as int, s),
        u_fields(es, i, d).contains(u) ==> n_fields(es, i, s) + 1 <= n_fields(
            es,
            es.len() as int,
            s,
        ),
        u_fields(es, i, d).contains(u) && u_fields(es, i, d).contains(v) && u != v ==> n_fields(
            es,
            i,
            s,
        ) + 2 <= n_fields(es, es.len() as int, s),
    decreases es, es.len() - i,
{
    if i < es.len() {
        c_field(es[i], d, s, u, v);
        c_field(es[i], d, s, v, u);
        c_fields(es, i + 1, d, s, u, v);
        c_fields(es, i + 1, d, s, v, u);
    }
}

proof fn c_block(b: BlockV, d: int, s: Span, u: Use, v: Use)
    requires
        u.span == s,
        v.span == s,
    ensures
        u_block(b, d).contains(u) ==> 1 <= n_block(b, s),
        u_block(b, d).contains(u) && u_block(b, d).contains(v) && u != v ==> 2 <= n_block(b, s),
    decreases b, 0int,
{
    c_stats(b.stats, 0, d, s, u, v);
    c_stats(b.stats, 0, d, s, v, u);
    match b.ret {
        Some(r) => {
            c_exprs(r.exprs, 0, d, s, u, v);
            c_exprs(r.exprs, 0, d, s, v, u);
        },
        None => {},
    }
}

/// The number in what is left of a list.
proof fn c_stats(es: Seq<StatV>, i: int, d: int, s: Span, u: Use, v: Use)
    requires
        u.span == s,
        v.span == s,
        0 <= i <= es.len(),
    ensures
        n_stats(es, i, s) <= n_stats(es, es.len() as int, s),
        u_stats(es, i, d).contains(u) ==> n_stats(es, i, s) + 1 <= n_stats(
            es,
            es.len() as int,
            s,
        ),
        u_stats(es, i, d).contains(u) && u_stats(es, i, d).contains(v) && u != v ==> n_stats(
            es,
            i,
            s,
        ) + 2 <= n_stats(es, es.len() as int, s),
    decreases es, es.len() - i,
{
    if i < es.len() {
        c_stat(es[i], d, s, u, v);
        c_stat(es[i], d, s, v, u);
        c_stats(es, i + 1, d, s, u, v);
        c_stats(es, i + 1, d, s, v, u);
    }
}

/// The number in what is left of a list.
proof fn c_arms(es: Seq<(ExprV, BlockV)>, i: int, d: int, s: Span, u: Use, v: Use)
    requires
        u.span == s,
        v.span == s,
        0 <= i <= es.len(),
    ensures
        n_arms(es, i, s) <= n_arms(es, es.len() as int, s),
        u_arms(es, i, d).contains(u) ==> n_arms(es, i, s) + 1 <= n_arms(
            es,
            es.len() as int,
            s,
        ),
        u_arms(es, i, d).contains(u) && u_arms(es, i, d).contains(v) && u != v ==> n_arms(
            es,
            i,
            s,
        ) + 2 <= n_arms(es, es.len() as int, s),
    decreases es, es.len() - i,
{
    if i < es.len() {
        c_expr(es[i].0, d, s, u, v);
        c_expr(es[i].0, d, s, v, u);
        c_block(es[i].1, d, s, u, v);
        c_block(es[i].1, d, s, v, u);
        c_arms(es, i + 1, d, s, u, v);
        c_arms(es, i + 1, d, s, v, u);
    }
}

proof fn c_stat(x: StatV, d: int, s: Span, u: Use, v: Use)
    requires
        u.span == s,
        v.span == s,
    ensures
        u_stat(x, d).contains(u) ==> 1 <= n_stat(x, s),
        u_stat(x, d).contains(u) && u_stat(x, d).contains(v) && u != v ==> 2 <= n_stat(x, s),
    decreases x, 0int,
{
    match x.kind {
        StatKindV::Local { names, exprs } => c_exprs(exprs, 0, d, s, u, v),
        StatKindV::LocalFunction { name, body } => c_block(body.block, d + 1, s, u, v),
        StatKindV::Assign { targets, exprs } => {
            c_exprs(targets, 0, d, s, u, v);
            c_exprs(targets, 0, d, s, v, u);
            c_exprs(exprs, 0, d, s, u, v);
            c_exprs(exprs, 0, d, s, v, u);
        },
        StatKindV::Call(e) => c_expr(e, d, s, u, v),
        StatKindV::Do(b) => c_block(b, d, s, u, v),
        StatKindV::While { cond, body } => {
            c_expr(cond, d, s, u, v);
            c_expr(cond, d, s, v, u);
            c_block(body, d, s, u, v);
            c_block(body, d, s, v, u);
        },
        StatKindV::If { arms, else_block } => {
            c_arms(arms, 0, d, s, u, v);
            c_arms(arms, 0, d, s, v, u);
            match else_block {
                Some(b) => {
                    c_block(b, d, s, u, v);
                    c_block(b, d, s, v, u);
                },
                None => {},
            }
        },
        StatKindV::NumericFor { var, start, end, step, body } => {
            c_expr(start, d, s, u, v);
            c_expr(start, d, s, v, u);
            c_expr(end, d, s, u, v);
            c_expr(end, d, s, v, u);
            c_block(body, d, s, u, v);
            c_block(body, d, s, v, u);
            match step {
                Some(e) => {
                    c_expr(e, d, s, u, v);
                    c_expr(e, d, s, v, u);
                },
                None => {},
            }
        },
        StatKindV::GenericFor { names, iter, body } => {
            c_block(body, d, s, u, v);
            c_block(body, d, s, v, u);
            match iter {
                IterExprV::IPairs { arg, span } => {
                    c_expr(arg, d, s, u, v);
                    c_expr(arg, d, s, v, u);
                },
                IterExprV::Pairs { arg, span } => {
                    c_expr(arg, d, s, u, v);
                    c_expr(arg, d, s, v, u);
                },
            }
        },
        _ => {},
    }
}

proof fn c_decls(ds: Seq<TopDeclV>, i: int, s: Span, u: Use, v: Use)
    requires
        u.span == s,
        v.span == s,
        0 <= i <= ds.len(),
    ensures
        n_decls(ds, i, s) <= n_decls(ds, ds.len() as int, s),
        u_decls(ds, i).contains(u) ==> n_decls(ds, i, s) + 1 <= n_decls(ds, ds.len() as int, s),
        u_decls(ds, i).contains(u) && u_decls(ds, i).contains(v) && u != v ==> n_decls(ds, i, s) + 2
            <= n_decls(ds, ds.len() as int, s),
    decreases ds.len() - i,
{
    if i < ds.len() {
        match ds[i] {
            TopDeclV::Function(f) => {
                c_block(f.body.block, 1, s, u, v);
                c_block(f.body.block, 1, s, v, u);
            },
            TopDeclV::Const(_) => {},
        }
        c_decls(ds, i + 1, s, u, v);
        c_decls(ds, i + 1, s, v, u);
    }
}

/// At most one of the tokens stands at a place, where the tokens lie apart.
proof fn lemma_one_token_there(ts: Seq<TokenV>, s: Span, i: int)
    requires
        i <= ts.len(),
        forall|j: int, k: int|
            #![trigger ts[j], ts[k]]
            0 <= j < k < ts.len() ==> ts[j].span != ts[k].span,
    ensures
        tokens_at(ts, s, i) <= 1,
        tokens_at(ts, s, i) == 1 ==> exists|k: int| 0 <= k < i && (#[trigger] ts[k]).span == s,
    decreases i,
{
    if i > 0 {
        lemma_one_token_there(ts, s, i - 1);
        if ts[i - 1].span == s && tokens_at(ts, s, i - 1) == 1 {
            let k = choose|k: int| 0 <= k < i - 1 && (#[trigger] ts[k]).span == s;
            assert(ts[k].span != ts[i - 1].span);
        }
    }
}

/// In a module that was parsed from a source, the names stand at different places.
pub proof fn law_names_stand_apart(b: Seq<u8>)
    requires
        b.len() <= u32::MAX,
    ensures
        lex_of(b) matches Ok(ts) ==> (parse_of(ts) matches Ok(m) ==> one_use_per_place(m)),
{
    if lex_of(b) is Ok && parse_of(lex_of(b)->Ok_0) is Ok {
        let ts = lex_of(b)->Ok_0;
        let m = parse_of(ts)->Ok_0;
        law_scanned_stream(b, 0);
        assert(ts == scan_from(b, 0).tokens);
        assert forall|j: int, k: int|
            #![trigger ts[j], ts[k]]
            0 <= j < k < ts.len() implies ts[j].span != ts[k].span by {}
        assert forall|u: Use, v: Use| #[trigger]
            uses_in(m).contains(u) && #[trigger] uses_in(m).contains(v) && u.span == v.span implies u
            == v by {
            let s = u.span;
            assert(tallied(ts, s)) by {
                assert forall|i: int, j: int|
                    #![trigger tokens_at(ts, s, i), tokens_at(ts, s, j)]
                    i <= j implies tokens_at(ts, s, i) <= tokens_at(ts, s, j) by {
                    lemma_more_tokens(ts, s, i, j);
                }
            }
            lemma_pushes(s);
            t_decls(ts, s, 0, Seq::empty());
            let k = (p_decls(ts, 0, Seq::empty())->Ok_0).1;
            lemma_one_token_there(ts, s, k);
            c_decls(m.decls, 0, s, u, v);
            c_decls(m.decls, 0, s, v, u);
            match m.export {
                Some(e) => {
                    c_fields(e.node, 0, 0, s, u, v);
                    c_fields(e.node, 0, 0, s, v, u);
                },
                None => {},
            }
        }
    }
}

/// Every name in a source that parses and resolves is bound to something of that name: a symbol
/// of the function that the name stands in, one of a function around it that is captured, or a
/// declaration, builtin, host function or memory.
pub proof fn law_names_of_a_source_are_bound(b: Seq<u8>, cfg: ResolveConfigV, u: Use)
    requires
        b.len() <= u32::MAX,
        lex_of(b) is Ok,
        parse_of(lex_of(b)->Ok_0) is Ok,
        uses_in(parse_of(lex_of(b)->Ok_0)->Ok_0).contains(u),
        resolve_of(parse_of(lex_of(b)->Ok_0)->Ok_0, cfg) is Ok,
        (resolve_of(parse_of(lex_of(b)->Ok_0)->Ok_0, cfg)->Ok_0).symbols.len() <= u32::MAX,
    ensures
        ({
            let r = resolve_of(parse_of(lex_of(b)->Ok_0)->Ok_0, cfg)->Ok_0;
            r.binding_of(u.span) matches Some(x) && fits_use(x, u, r.symbols)
        }),
{
    law_names_stand_apart(b);
    law_each_use_is_bound(parse_of(lex_of(b)->Ok_0)->Ok_0, cfg, u);
}

} // verus!
