//! A module that was parsed is what its tokens spell: every node of the tree stands for the
//! tokens that it was read from, in their order, and operators have the operands that their
//! ranks give them.

use vstd::prelude::*;

use crate::ast::{
    BinOp, BlockV, ExportV, ExprKindV, ExprV, FieldV, FuncBodyV, IdentV, IterExprV, ModuleV,
    RetStatV, StatKindV, StatV, TopDeclV, UnOp,
};
use crate::diagnostics::Span;
use crate::grammar::{
    binary_op_of, is_at, left_bp, p_arm, p_assign, p_atom, p_block, p_call_args, p_const_decl,
    p_decls, p_do_body, p_else, p_elseifs, p_expr_bp, p_expr_list, p_expr_stat, p_field, p_fields,
    p_for, p_func_body, p_func_decl, p_generic_for, p_if, p_infix, p_iter, p_local, p_more_exprs,
    p_more_names, p_name, p_numeric_for, p_params, p_primary, p_ret, p_stat, p_stats, p_step,
    p_suffixed, p_suffixes, p_table, p_targets, p_while, parse_of, right_bp, unary_op_of,
    unfold_p_arm, unfold_p_assign, unfold_p_atom, unfold_p_block, unfold_p_call_args,
    unfold_p_const_decl, unfold_p_decls, unfold_p_do_body, unfold_p_else, unfold_p_elseifs,
    unfold_p_export, unfold_p_expr_bp, unfold_p_expr_list, unfold_p_expr_stat, unfold_p_field,
    unfold_p_fields, unfold_p_for, unfold_p_func_body, unfold_p_func_decl, unfold_p_generic_for,
    unfold_p_if, unfold_p_infix, unfold_p_iter, unfold_p_local, unfold_p_more_exprs,
    unfold_p_more_names, unfold_p_numeric_for, unfold_p_params, unfold_p_primary, unfold_p_ret,
    unfold_p_stat, unfold_p_stats, unfold_p_step, unfold_p_suffixed, unfold_p_suffixes,
    unfold_p_table, unfold_p_targets, unfold_p_while, UNARY_BP,
};
use crate::lexer::{TokenKind, TokenKindV, TokenV};

verus! {

// ---- ranks of operators ----------------------------------------------------------------

/// How tightly an operator binds its operands, loosest first: `or`, `and`, comparisons, `..`,
/// `+` and `-`, then `*`, `/`, `//` and `%`; unary operators come next, and `^` last.
pub open spec fn rank(op: BinOp) -> int {
    match op {
        BinOp::Or => 1,
        BinOp::And => 2,
        BinOp::Eq | BinOp::Ne | BinOp::Lt | BinOp::Le | BinOp::Gt | BinOp::Ge => 3,
        BinOp::Concat => 4,
        BinOp::Add | BinOp::Sub => 5,
        BinOp::Mul | BinOp::Div | BinOp::FloorDiv | BinOp::Mod => 6,
        BinOp::Pow => 8,
    }
}

/// The rank of the unary operators.
pub open spec fn unary_rank() -> int {
    7
}

/// Whether operators of the same rank group from the right.
pub open spec fn groups_right(op: BinOp) -> bool {
    op == BinOp::Concat || op == BinOp::Pow
}

/// Whether an expression can be the left operand of an operator without parentheses.
pub open spec fn fits_left(op: BinOp, e: ExprV) -> bool {
    match e.kind {
        ExprKindV::Binary { op: o, .. } => rank(o) > rank(op) || (rank(o) == rank(op)
            && !groups_right(op)),
        ExprKindV::Unary { .. } => unary_rank() > rank(op),
        _ => true,
    }
}

/// Whether an expression can be the right operand of an operator without parentheses.
pub open spec fn fits_right(op: BinOp, e: ExprV) -> bool {
    match e.kind {
        ExprKindV::Binary { op: o, .. } => rank(o) > rank(op) || (rank(o) == rank(op)
            && groups_right(op)),
        _ => true,
    }
}

/// Whether an expression can be the operand of a unary operator without parentheses.
pub open spec fn fits_operand(e: ExprV) -> bool {
    match e.kind {
        ExprKindV::Binary { op: o, .. } => rank(o) > unary_rank(),
        _ => true,
    }
}

/// The token of an operator.
pub open spec fn token_of(op: BinOp) -> TokenKind {
    match op {
        BinOp::Add => TokenKind::Plus,
        BinOp::Sub => TokenKind::Minus,
        BinOp::Mul => TokenKind::Star,
        BinOp::Div => TokenKind::Slash,
        BinOp::FloorDiv => TokenKind::DoubleSlash,
        BinOp::Mod => TokenKind::Percent,
        BinOp::Pow => TokenKind::Caret,
        BinOp::Concat => TokenKind::DotDot,
        BinOp::Eq => TokenKind::Eq,
        BinOp::Ne => TokenKind::Ne,
        BinOp::Lt => TokenKind::Lt,
        BinOp::Le => TokenKind::Le,
        BinOp::Gt => TokenKind::Gt,
        BinOp::Ge => TokenKind::Ge,
        BinOp::And => TokenKind::And,
        BinOp::Or => TokenKind::Or,
    }
}

/// The token of a unary operator.
pub open spec fn unary_token(op: UnOp) -> TokenKind {
    match op {
        UnOp::Neg => TokenKind::Minus,
        UnOp::Not => TokenKind::Not,
        UnOp::Len => TokenKind::Hash,
    }
}

/// Whether an expression can be called, indexed or have a field without parentheses.
pub open spec fn is_prefix(e: ExprV) -> bool {
    e.kind is Name || e.kind is Paren || e.kind is Index || e.kind is Field || e.kind is Call
        || e.kind is MethodCall
}

// ---- what tokens spell ---------------------------------------------------------------------

/// Whether the token at `i` is a name.
pub open spec fn name_at(ts: Seq<TokenV>, i: int, n: Seq<char>) -> bool {
    ts[i].kind == TokenKindV::Name(n)
}

/// Whether the tokens from `i` to before `j` are names with commas between them.
pub open spec fn w_names(ts: Seq<TokenV>, i: int, j: int, ns: Seq<IdentV>) -> bool {
    &&& ns.len() > 0
    &&& j == i + 2 * ns.len() - 1
    &&& forall|q: int|
        0 <= q < ns.len() ==> name_at(ts, i + 2 * q, (#[trigger] ns[q]).node) && (q + 1 < ns.len()
            ==> is_at(ts, i + 2 * q + 1, TokenKind::Comma))
}

/// Whether the tokens from `i` to before `j` are semicolons.
pub open spec fn w_semis(ts: Seq<TokenV>, i: int, j: int) -> bool {
    i <= j && forall|q: int| i <= q < j ==> #[trigger] is_at(ts, q, TokenKind::Semi)
}

/// The position after a token at a position, if it is there.
pub open spec fn tok(ts: Seq<TokenV>, at: Option<int>, k: TokenKind) -> Option<int> {
    match at {
        Some(i) => if is_at(ts, i, k) {
            Some(i + 1)
        } else {
            None
        },
        None => None,
    }
}

/// The position after a name at a position, if it is there.
pub open spec fn tok_name(ts: Seq<TokenV>, at: Option<int>, n: Seq<char>) -> Option<int> {
    match at {
        Some(i) => if name_at(ts, i, n) {
            Some(i + 1)
        } else {
            None
        },
        None => None,
    }
}

/// The position after a token that may be missing.
pub open spec fn tok_opt(ts: Seq<TokenV>, at: Option<int>, k: TokenKind) -> Option<int> {
    match at {
        Some(i) => if is_at(ts, i, k) {
            Some(i + 1)
        } else {
            at
        },
        None => None,
    }
}

/// The position after names with commas between them, if they are there.
pub open spec fn y_names(ts: Seq<TokenV>, at: Option<int>, ns: Seq<IdentV>) -> Option<int> {
    match at {
        Some(i) => if w_names(ts, i, i + 2 * ns.len() - 1, ns) {
            Some(i + 2 * ns.len() - 1)
        } else {
            None
        },
        None => None,
    }
}

/// The first position from `i` on that has no semicolon.
pub open spec fn past_semis(ts: Seq<TokenV>, i: int) -> int
    decreases ts.len() - i,
{
    if i < ts.len() && is_at(ts, i, TokenKind::Semi) {
        past_semis(ts, i + 1)
    } else {
        i
    }
}

/// The position after the tokens that spell an expression from a position on, if they do.
#[verifier::opaque]
pub open spec fn y_expr(ts: Seq<TokenV>, at: Option<int>, e: ExprV) -> Option<int>
    decreases e, 0int,
{
    match e.kind {
        ExprKindV::Nil => tok(ts, at, TokenKind::Nil),
        ExprKindV::Bool(true) => tok(ts, at, TokenKind::True),
        ExprKindV::Bool(false) => tok(ts, at, TokenKind::False),
        ExprKindV::Number(n) => match at {
            Some(i) => if ts[i].kind == TokenKindV::Number(n) {
                Some(i + 1)
            } else {
                None
            },
            None => None,
        },
        ExprKindV::Str(s) => match at {
            Some(i) => if ts[i].kind == TokenKindV::Str(s) {
                Some(i + 1)
            } else {
                None
            },
            None => None,
        },
        ExprKindV::Name(n) => tok_name(ts, at, n),
        ExprKindV::Function(body) => y_func(ts, tok(ts, at, TokenKind::Function), body),
        ExprKindV::Index { base, index } => if is_prefix(*base) {
            tok(
                ts,
                y_expr(ts, tok(ts, y_expr(ts, at, *base), TokenKind::LBracket), *index),
                TokenKind::RBracket,
            )
        } else {
            None
        },
        ExprKindV::Field { base, name } => if is_prefix(*base) {
            tok_name(ts, tok(ts, y_expr(ts, at, *base), TokenKind::Dot), name.node)
        } else {
            None
        },
        ExprKindV::Call { callee, args } => if is_prefix(*callee) {
            y_args(ts, y_expr(ts, at, *callee), args)
        } else {
            None
        },
        ExprKindV::MethodCall { receiver, method, args } => if is_prefix(*receiver) {
            y_args(
                ts,
                tok_name(ts, tok(ts, y_expr(ts, at, *receiver), TokenKind::Colon), method.node),
                args,
            )
        } else {
            None
        },
        ExprKindV::Table(fields) => y_table(ts, at, fields),
        ExprKindV::Binary { op, lhs, rhs } => if fits_left(op, *lhs) && fits_right(op, *rhs) {
            y_expr(ts, tok(ts, y_expr(ts, at, *lhs), token_of(op)), *rhs)
        } else {
            None
        },
        ExprKindV::Unary { op, operand } => if fits_operand(*operand) {
            y_expr(ts, tok(ts, at, unary_token(op)), *operand)
        } else {
            None
        },
        ExprKindV::Paren(inner) => tok(
            ts,
            y_expr(ts, tok(ts, at, TokenKind::LParen), *inner),
            TokenKind::RParen,
        ),
    }
}

/// Call arguments: a list in parentheses, a string, or a table.
#[verifier::opaque]
pub open spec fn y_args(ts: Seq<TokenV>, at: Option<int>, args: Seq<ExprV>) -> Option<int>
    decreases args, args.len() + 1,
{
    match at {
        None => None,
        Some(i) => if is_at(ts, i, TokenKind::LParen) {
            tok(ts, y_list(ts, Some(i + 1), args, args.len() as int), TokenKind::RParen)
        } else if args.len() == 1 && (args[0].kind is Str || args[0].kind is Table) {
            y_expr(ts, at, args[0])
        } else {
            None
        },
    }
}

/// The first `n` expressions of a list, with commas between them.
#[verifier::opaque]
pub open spec fn y_list(ts: Seq<TokenV>, at: Option<int>, es: Seq<ExprV>, n: int) -> Option<int>
    decreases es, n,
{
    if n <= 0 || n > es.len() {
        at
    } else if n == 1 {
        y_expr(ts, at, es[0])
    } else {
        y_expr(ts, tok(ts, y_list(ts, at, es, n - 1), TokenKind::Comma), es[n - 1])
    }
}

#[verifier::opaque]
pub open spec fn y_table(ts: Seq<TokenV>, at: Option<int>, fs: Seq<FieldV>) -> Option<int>
    decreases fs, fs.len() + 1,
{
    tok(
        ts,
        y_fields(ts, tok(ts, at, TokenKind::LBrace), fs, fs.len() as int),
        TokenKind::RBrace,
    )
}

/// The position after a separator of fields that may be missing.
pub open spec fn tok_sep(ts: Seq<TokenV>, at: Option<int>) -> Option<int> {
    match at {
        Some(i) => if is_at(ts, i, TokenKind::Comma) || is_at(ts, i, TokenKind::Semi) {
            Some(i + 1)
        } else {
            at
        },
        None => None,
    }
}

/// The first `n` fields of a table, each with the separator behind it, if there is one.
#[verifier::opaque]
pub open spec fn y_fields(ts: Seq<TokenV>, at: Option<int>, fs: Seq<FieldV>, n: int) -> Option<int>
    decreases fs, n,
{
    if n <= 0 || n > fs.len() {
        at
    } else {
        tok_sep(ts, y_field(ts, y_fields(ts, at, fs, n - 1), fs[n - 1]))
    }
}

#[verifier::opaque]
pub open spec fn y_field(ts: Seq<TokenV>, at: Option<int>, f: FieldV) -> Option<int>
    decreases f, 0int,
{
    match f {
        FieldV::Positional(e) => y_expr(ts, at, e),
        FieldV::Named { name, value } => y_expr(
            ts,
            tok(ts, tok_name(ts, at, name.node), TokenKind::Assign),
            value,
        ),
        FieldV::Keyed { key, value } => y_expr(
            ts,
            tok(
                ts,
                tok(ts, y_expr(ts, tok(ts, at, TokenKind::LBracket), key), TokenKind::RBracket),
                TokenKind::Assign,
            ),
            value,
        ),
    }
}

/// Parameters in parentheses, a body and `end`.
#[verifier::opaque]
pub open spec fn y_func(ts: Seq<TokenV>, at: Option<int>, f: FuncBodyV) -> Option<int>
    decreases f, 0int,
{
    let open = tok(ts, at, TokenKind::LParen);
    let params = if f.params.len() == 0 {
        open
    } else {
        y_names(ts, open, f.params)
    };
    tok(ts, y_block(ts, tok(ts, params, TokenKind::RParen), f.block), TokenKind::End)
}

/// Statements, and a `return` if there is one.
#[verifier::opaque]
pub open spec fn y_block(ts: Seq<TokenV>, at: Option<int>, b: BlockV) -> Option<int>
    decreases b, 1int,
{
    match y_stats(ts, at, b.stats, b.stats.len() as int) {
        Some(i) => y_ret(ts, Some(past_semis(ts, i)), b.ret),
        None => None,
    }
}

/// The first `n` statements of a block, with semicolons before them.
#[verifier::opaque]
pub open spec fn y_stats(ts: Seq<TokenV>, at: Option<int>, ss: Seq<StatV>, n: int) -> Option<int>
    decreases ss, n,
{
    if n <= 0 || n > ss.len() {
        at
    } else {
        match y_stats(ts, at, ss, n - 1) {
            Some(i) => y_stat(ts, Some(past_semis(ts, i)), ss[n - 1]),
            None => None,
        }
    }
}

#[verifier::opaque]
pub open spec fn y_ret(ts: Seq<TokenV>, at: Option<int>, r: Option<RetStatV>) -> Option<int>
    decreases r, 0int,
{
    match r {
        None => at,
        Some(x) => tok_opt(
            ts,
            y_list(ts, tok(ts, at, TokenKind::Return), x.exprs, x.exprs.len() as int),
            TokenKind::Semi,
        ),
    }
}

#[verifier::opaque]
pub open spec fn y_stat(ts: Seq<TokenV>, at: Option<int>, s: StatV) -> Option<int>
    decreases s, 0int,
{
    match s.kind {
        StatKindV::Empty => tok(ts, at, TokenKind::Semi),
        StatKindV::Break => tok(ts, at, TokenKind::Break),
        StatKindV::Local { names, exprs } => {
            let k = y_names(ts, tok(ts, at, TokenKind::Local), names);
            if exprs.len() == 0 {
                k
            } else {
                y_list(ts, tok(ts, k, TokenKind::Assign), exprs, exprs.len() as int)
            }
        },
        StatKindV::LocalFunction { name, body } => y_func(
            ts,
            tok_name(
                ts,
                tok(ts, tok(ts, at, TokenKind::Local), TokenKind::Function),
                name.node,
            ),
            body,
        ),
        StatKindV::Assign { targets, exprs } => y_list(
            ts,
            tok(ts, y_list(ts, at, targets, targets.len() as int), TokenKind::Assign),
            exprs,
            exprs.len() as int,
        ),
        StatKindV::Call(e) => if e.kind is Call || e.kind is MethodCall {
            y_expr(ts, at, e)
        } else {
            None
        },
        StatKindV::Do(b) => tok(ts, y_block(ts, tok(ts, at, TokenKind::Do), b), TokenKind::End),
        StatKindV::While { cond, body } => tok(
            ts,
            y_block(
                ts,
                tok(ts, y_expr(ts, tok(ts, at, TokenKind::While), cond), TokenKind::Do),
                body,
            ),
            TokenKind::End,
        ),
        StatKindV::If { arms, else_block } => tok(
            ts,
            y_else(
                ts,
                y_arms(ts, tok(ts, at, TokenKind::If), arms, arms.len() as int),
                else_block,
            ),
            TokenKind::End,
        ),
        StatKindV::NumericFor { var, start, end, step, body } => {
            let eq = tok(
                ts,
                tok_name(ts, tok(ts, at, TokenKind::For), var.node),
                TokenKind::Assign,
            );
            let comma = tok(ts, y_expr(ts, eq, start), TokenKind::Comma);
            tok(
                ts,
                y_block(
                    ts,
                    tok(ts, y_step(ts, y_expr(ts, comma, end), step), TokenKind::Do),
                    body,
                ),
                TokenKind::End,
            )
        },
        StatKindV::GenericFor { names, iter, body } => tok(
            ts,
            y_block(
                ts,
                tok(
                    ts,
                    y_iter(
                        ts,
                        tok(ts, y_names(ts, tok(ts, at, TokenKind::For), names), TokenKind::In),
                        iter,
                    ),
                    TokenKind::Do,
                ),
                body,
            ),
            TokenKind::End,
        ),
    }
}

#[verifier::opaque]
pub open spec fn y_step(ts: Seq<TokenV>, at: Option<int>, e: Option<ExprV>) -> Option<int>
    decreases e, 0int,
{
    match e {
        None => at,
        Some(x) => y_expr(ts, tok(ts, at, TokenKind::Comma), x),
    }
}

#[verifier::opaque]
pub open spec fn y_iter(ts: Seq<TokenV>, at: Option<int>, x: IterExprV) -> Option<int>
    decreases x, 0int,
{
    match x {
        IterExprV::IPairs { arg, span } => tok(
            ts,
            y_expr(ts, tok(ts, tok_name(ts, at, "ipairs"@), TokenKind::LParen), arg),
            TokenKind::RParen,
        ),
        IterExprV::Pairs { arg, span } => tok(
            ts,
            y_expr(ts, tok(ts, tok_name(ts, at, "pairs"@), TokenKind::LParen), arg),
            TokenKind::RParen,
        ),
    }
}

#[verifier::opaque]
pub open spec fn y_arm(ts: Seq<TokenV>, at: Option<int>, arm: (ExprV, BlockV)) -> Option<int>
    decreases arm, 0int,
{
    y_block(ts, tok(ts, y_expr(ts, at, arm.0), TokenKind::Then), arm.1)
}

/// The first `n` arms of a conditional, with `elseif` between them.
#[verifier::opaque]
pub open spec fn y_arms(ts: Seq<TokenV>, at: Option<int>, arms: Seq<(ExprV, BlockV)>, n: int) -> Option<int>
    decreases arms, n,
{
    if n <= 0 || n > arms.len() {
        None
    } else if n == 1 {
        y_arm(ts, at, arms[0])
    } else {
        y_arm(ts, tok(ts, y_arms(ts, at, arms, n - 1), TokenKind::Elseif), arms[n - 1])
    }
}

#[verifier::opaque]
pub open spec fn y_else(ts: Seq<TokenV>, at: Option<int>, b: Option<BlockV>) -> Option<int>
    decreases b, 0int,
{
    match b {
        None => at,
        Some(x) => y_block(ts, tok(ts, at, TokenKind::Else), x),
    }
}

/// `function name(...) ... end`, or `name = value`.
pub open spec fn y_decl(ts: Seq<TokenV>, at: Option<int>, d: TopDeclV) -> Option<int> {
    match d {
        TopDeclV::Function(f) => y_func(
            ts,
            tok_name(ts, tok(ts, at, TokenKind::Function), f.name.node),
            f.body,
        ),
        TopDeclV::Const(c) => y_expr(
            ts,
            tok(ts, tok_name(ts, at, c.name.node), TokenKind::Assign),
            c.value,
        ),
    }
}

/// The first `n` declarations of a module.
#[verifier::opaque]
pub open spec fn y_decls(ts: Seq<TokenV>, at: Option<int>, ds: Seq<TopDeclV>, n: int) -> Option<int>
    decreases n,
{
    if n <= 0 || n > ds.len() {
        at
    } else {
        y_decl(ts, y_decls(ts, at, ds, n - 1), ds[n - 1])
    }
}

/// `return { ... }`, if there is one.
pub open spec fn y_export(ts: Seq<TokenV>, at: Option<int>, x: Option<ExportV>) -> Option<int> {
    match x {
        None => at,
        Some(e) => tok_opt(
            ts,
            y_table(ts, tok(ts, at, TokenKind::Return), e.node),
            TokenKind::Semi,
        ),
    }
}

/// Whether a stream of tokens spells a module: its declarations and its export table, one after
/// the other, from the first token up to the end of the stream.
pub open spec fn spells(ts: Seq<TokenV>, m: ModuleV) -> bool {
    let end = y_export(ts, y_decls(ts, Some(0), m.decls, m.decls.len() as int), m.export);
    tok(ts, end, TokenKind::Eof) is Some
}

// ---- from one position to another ----------------------------------------------------------

spec fn w_expr(ts: Seq<TokenV>, i: int, j: int, e: ExprV) -> bool {
    y_expr(ts, Some(i), e) == Some(j)
}

spec fn w_args(ts: Seq<TokenV>, i: int, j: int, e: Seq<ExprV>) -> bool {
    y_args(ts, Some(i), e) == Some(j)
}

spec fn w_list(ts: Seq<TokenV>, i: int, j: int, e: Seq<ExprV>) -> bool {
    y_list(ts, Some(i), e, e.len() as int) == Some(j)
}

spec fn w_table(ts: Seq<TokenV>, i: int, j: int, e: Seq<FieldV>) -> bool {
    y_table(ts, Some(i), e) == Some(j)
}

spec fn w_fields(ts: Seq<TokenV>, i: int, j: int, e: Seq<FieldV>) -> bool {
    y_fields(ts, Some(i), e, e.len() as int) == Some(j)
}

spec fn w_field(ts: Seq<TokenV>, i: int, j: int, e: FieldV) -> bool {
    y_field(ts, Some(i), e) == Some(j)
}

spec fn w_func(ts: Seq<TokenV>, i: int, j: int, e: FuncBodyV) -> bool {
    y_func(ts, Some(i), e) == Some(j)
}

spec fn w_block(ts: Seq<TokenV>, i: int, j: int, e: BlockV) -> bool {
    y_block(ts, Some(i), e) == Some(j)
}

spec fn w_ret(ts: Seq<TokenV>, i: int, j: int, e: Option<RetStatV>) -> bool {
    y_ret(ts, Some(i), e) == Some(j)
}

spec fn w_stat(ts: Seq<TokenV>, i: int, j: int, e: StatV) -> bool {
    y_stat(ts, Some(i), e) == Some(j)
}

spec fn w_step(ts: Seq<TokenV>, i: int, j: int, e: Option<ExprV>) -> bool {
    y_step(ts, Some(i), e) == Some(j)
}

spec fn w_iter(ts: Seq<TokenV>, i: int, j: int, e: IterExprV) -> bool {
    y_iter(ts, Some(i), e) == Some(j)
}

spec fn w_arm(ts: Seq<TokenV>, i: int, j: int, e: (ExprV, BlockV)) -> bool {
    y_arm(ts, Some(i), e) == Some(j)
}

spec fn w_arms(ts: Seq<TokenV>, i: int, j: int, e: Seq<(ExprV, BlockV)>) -> bool {
    y_arms(ts, Some(i), e, e.len() as int) == Some(j)
}

spec fn w_else(ts: Seq<TokenV>, i: int, j: int, e: Option<BlockV>) -> bool {
    y_else(ts, Some(i), e) == Some(j)
}

spec fn w_decl(ts: Seq<TokenV>, i: int, j: int, e: TopDeclV) -> bool {
    y_decl(ts, Some(i), e) == Some(j)
}

spec fn w_decls(ts: Seq<TokenV>, i: int, j: int, e: Seq<TopDeclV>) -> bool {
    y_decls(ts, Some(i), e, e.len() as int) == Some(j)
}

/// Whether statements have been read up to `j`, with semicolons behind them.
spec fn w_stats(ts: Seq<TokenV>, i: int, j: int, e: Seq<StatV>) -> bool {
    y_stats(ts, Some(i), e, e.len() as int) matches Some(k) && w_semis(ts, k, j)
}

proof fn lemma_past_semis(ts: Seq<TokenV>, i: int, j: int)
    requires
        w_semis(ts, i, j),
        j < ts.len(),
        !is_at(ts, j, TokenKind::Semi),
    ensures
        past_semis(ts, i) == j,
    decreases j - i,
{
    if i < j {
        assert(is_at(ts, i, TokenKind::Semi));
        assert(w_semis(ts, i + 1, j)) by {
            assert forall|q: int| i + 1 <= q < j implies #[trigger] is_at(ts, q, TokenKind::Semi) by {}
        }
        lemma_past_semis(ts, i + 1, j);
    }
}

// ---- ranks and binding powers -----------------------------------------------------------

/// Whether an expression binds at least that tightly.
spec fn binds(e: ExprV, m: int) -> bool {
    e.kind matches ExprKindV::Binary { op, .. } ==> left_bp(op) >= m
}

/// Whether an infix operator at `k` binds less tightly.
spec fn stops(ts: Seq<TokenV>, k: int, m: int) -> bool {
    binary_op_of(ts[k].kind) matches Some(op) ==> left_bp(op) < m
}

/// Whether an infix operator at `k` takes what is before it as its left operand.
spec fn follows(ts: Seq<TokenV>, k: int, e: ExprV) -> bool {
    binary_op_of(ts[k].kind) matches Some(op) ==> fits_left(op, e)
}

proof fn lemma_follows_binary(ts: Seq<TokenV>, k: int, o: BinOp, e: ExprV)
    requires
        e.kind matches ExprKindV::Binary { op, .. } && op == o,
        stops(ts, k, right_bp(o)),
    ensures
        follows(ts, k, e),
{
    reveal(left_bp);
    reveal(right_bp);
}

proof fn lemma_follows_unary(ts: Seq<TokenV>, k: int, e: ExprV)
    requires
        e.kind is Unary,
        stops(ts, k, UNARY_BP as int),
    ensures
        follows(ts, k, e),
{
    reveal(left_bp);
}

proof fn lemma_fits_right(op: BinOp, e: ExprV)
    requires
        binds(e, right_bp(op)),
    ensures
        fits_right(op, e),
{
    reveal(left_bp);
    reveal(right_bp);
}

proof fn lemma_fits_operand(e: ExprV)
    requires
        binds(e, UNARY_BP as int),
    ensures
        fits_operand(e),
{
    reveal(left_bp);
}

proof fn lemma_tokens(k: TokenKindV)
    ensures
        binary_op_of(k) matches Some(op) ==> k == TokenKindV::Fixed(token_of(op)),
        unary_op_of(k) matches Some(op) ==> k == TokenKindV::Fixed(unary_token(op)),
        k == TokenKindV::Fixed(TokenKind::Eof) ==> binary_op_of(k) is None,
{
    reveal(binary_op_of);
    reveal(unary_op_of);
}

// ---- longer lists ----------------------------------------------------------------------

proof fn lemma_list_prefix(ts: Seq<TokenV>, at: Option<int>, a: Seq<ExprV>, x: ExprV, n: int)
    requires
        0 <= n <= a.len(),
    ensures
        y_list(ts, at, a.push(x), n) == y_list(ts, at, a, n),
    decreases n,
{
    reveal(y_list);
    reveal(y_expr);
    if n > 0 {
        assert(a.push(x)[n - 1] == a[n - 1]);
        assert(a.push(x)[0] == a[0]);
        lemma_list_prefix(ts, at, a, x, n - 1);
    }
}

proof fn lemma_fields_prefix(ts: Seq<TokenV>, at: Option<int>, a: Seq<FieldV>, x: FieldV, n: int)
    requires
        0 <= n <= a.len(),
    ensures
        y_fields(ts, at, a.push(x), n) == y_fields(ts, at, a, n),
    decreases n,
{
    reveal(y_fields);
    reveal(y_field);
    if n > 0 {
        assert(a.push(x)[n - 1] == a[n - 1]);
        assert(a.push(x)[0] == a[0]);
        lemma_fields_prefix(ts, at, a, x, n - 1);
    }
}

proof fn lemma_stats_prefix(ts: Seq<TokenV>, at: Option<int>, a: Seq<StatV>, x: StatV, n: int)
    requires
        0 <= n <= a.len(),
    ensures
        y_stats(ts, at, a.push(x), n) == y_stats(ts, at, a, n),
    decreases n,
{
    reveal(y_stats);
    reveal(y_stat);
    if n > 0 {
        assert(a.push(x)[n - 1] == a[n - 1]);
        assert(a.push(x)[0] == a[0]);
        lemma_stats_prefix(ts, at, a, x, n - 1);
    }
}

proof fn lemma_arms_prefix(ts: Seq<TokenV>, at: Option<int>, a: Seq<(ExprV, BlockV)>, x: (ExprV, BlockV), n: int)
    requires
        0 <= n <= a.len(),
    ensures
        y_arms(ts, at, a.push(x), n) == y_arms(ts, at, a, n),
    decreases n,
{
    reveal(y_arms);
    reveal(y_arm);
    if n > 0 {
        assert(a.push(x)[n - 1] == a[n - 1]);
        assert(a.push(x)[0] == a[0]);
        lemma_arms_prefix(ts, at, a, x, n - 1);
    }
}

proof fn lemma_decls_prefix(ts: Seq<TokenV>, at: Option<int>, a: Seq<TopDeclV>, x: TopDeclV, n: int)
    requires
        0 <= n <= a.len(),
    ensures
        y_decls(ts, at, a.push(x), n) == y_decls(ts, at, a, n),
    decreases n,
{
    reveal(y_decls);
    if n > 0 {
        assert(a.push(x)[n - 1] == a[n - 1]);
        assert(a.push(x)[0] == a[0]);
        lemma_decls_prefix(ts, at, a, x, n - 1);
    }
}

proof fn lemma_list_push(ts: Seq<TokenV>, h: int, i: int, j: int, a: Seq<ExprV>, x: ExprV)
    requires
        a.len() > 0,
        w_list(ts, h, i, a),
        is_at(ts, i, TokenKind::Comma),
        w_expr(ts, i + 1, j, x),
    ensures
        w_list(ts, h, j, a.push(x)),
{
    lemma_list_prefix(ts, Some(h), a, x, a.len() as int);
    reveal(y_list);
    reveal(y_expr);
    assert(a.push(x)[a.len() as int] == x);
}

proof fn lemma_list_one(ts: Seq<TokenV>, h: int, i: int, x: ExprV)
    requires
        w_expr(ts, h, i, x),
    ensures
        w_list(ts, h, i, seq![x]),
{
    reveal(y_list);
    reveal(y_expr);
}

proof fn lemma_fields_push(ts: Seq<TokenV>, h: int, i: int, j: int, a: Seq<FieldV>, x: FieldV)
    requires
        w_fields(ts, h, i, a),
        w_field(ts, i, j, x),
    ensures
        y_fields(ts, Some(h), a.push(x), a.len() as int + 1) == tok_sep(ts, Some(j)),
{
    lemma_fields_prefix(ts, Some(h), a, x, a.len() as int);
    reveal(y_fields);
    reveal(y_field);
    assert(a.push(x)[a.len() as int] == x);
}

proof fn lemma_stats_push(ts: Seq<TokenV>, h: int, i: int, j: int, a: Seq<StatV>, x: StatV)
    requires
        w_stats(ts, h, i, a),
        i < ts.len(),
        !is_at(ts, i, TokenKind::Semi),
        w_stat(ts, i, j, x),
    ensures
        w_stats(ts, h, j, a.push(x)),
{
    lemma_stats_prefix(ts, Some(h), a, x, a.len() as int);
    let k = y_stats(ts, Some(h), a, a.len() as int)->0;
    lemma_past_semis(ts, k, i);
    reveal(y_stats);
    reveal(y_stat);
    assert(a.push(x)[a.len() as int] == x);
    assert(w_semis(ts, j, j));
}

proof fn lemma_stats_semi(ts: Seq<TokenV>, h: int, i: int, a: Seq<StatV>)
    requires
        w_stats(ts, h, i, a),
        is_at(ts, i, TokenKind::Semi),
    ensures
        w_stats(ts, h, i + 1, a),
{
    let k = y_stats(ts, Some(h), a, a.len() as int)->0;
    assert(w_semis(ts, k, i + 1));
}

proof fn lemma_arms_push(
    ts: Seq<TokenV>,
    h: int,
    i: int,
    j: int,
    a: Seq<(ExprV, BlockV)>,
    x: (ExprV, BlockV),
)
    requires
        a.len() > 0,
        w_arms(ts, h, i, a),
        is_at(ts, i, TokenKind::Elseif),
        w_arm(ts, i + 1, j, x),
    ensures
        w_arms(ts, h, j, a.push(x)),
{
    lemma_arms_prefix(ts, Some(h), a, x, a.len() as int);
    reveal(y_arms);
    reveal(y_arm);
    assert(a.push(x)[a.len() as int] == x);
}

proof fn lemma_decls_push(ts: Seq<TokenV>, h: int, i: int, j: int, a: Seq<TopDeclV>, x: TopDeclV)
    requires
        w_decls(ts, h, i, a),
        w_decl(ts, i, j, x),
    ensures
        w_decls(ts, h, j, a.push(x)),
{
    lemma_decls_prefix(ts, Some(h), a, x, a.len() as int);
    reveal(y_decls);
    assert(a.push(x)[a.len() as int] == x);
}

proof fn lemma_names_push(ts: Seq<TokenV>, h: int, i: int, a: Seq<IdentV>, x: IdentV)
    requires
        w_names(ts, h, i, a),
        is_at(ts, i, TokenKind::Comma),
        name_at(ts, i + 1, x.node),
    ensures
        w_names(ts, h, i + 2, a.push(x)),
{
    let b = a.push(x);
    assert forall|q: int| 0 <= q < b.len() implies name_at(ts, h + 2 * q, (#[trigger] b[q]).node)
        && (q + 1 < b.len() ==> is_at(ts, h + 2 * q + 1, TokenKind::Comma)) by {
        if q < a.len() {
            assert(b[q] == a[q]);
            assert(q + 1 == a.len() ==> h + 2 * q + 1 == i);
        } else {
            assert(b[q] == x);
            assert(h + 2 * q == i + 1);
        }
    }
    assert(w_names(ts, h, i + 2, b));
}

/// Whether an expression has been read up to `j` and may go on as the left operand of what
/// follows.
spec fn reads_infix(ts: Seq<TokenV>, h: int, j: int, e: ExprV, m: int) -> bool {
    w_expr(ts, h, j, e) && binds(e, m) && follows(ts, j, e)
}

/// Whether parameters have been read up to a comma before `j`, or none yet.
spec fn starts(ts: Seq<TokenV>, h: int, j: int, acc: Seq<IdentV>) -> bool {
    if acc.len() == 0 {
        h == j
    } else {
        w_names(ts, h, j - 1, acc) && is_at(ts, j - 1, TokenKind::Comma)
    }
}

/// The statements and the `return` of a block.
spec fn w_body(ts: Seq<TokenV>, i: int, j: int, ss: Seq<StatV>, r: Option<RetStatV>) -> bool {
    y_stats(ts, Some(i), ss, ss.len() as int) matches Some(k) && y_ret(
        ts,
        Some(past_semis(ts, k)),
        r,
    ) == Some(j)
}

// ---- what the parser has read ----------------------------------------------------------------

/// Whether a stream ends where it should.
pub open spec fn ended(ts: Seq<TokenV>) -> bool {
    ts.len() > 0 && ts.last().kind == TokenKindV::Fixed(TokenKind::Eof)
}

/// Whether everything that is parsed after `i` is what its tokens spell.
spec fn written_after(ts: Seq<TokenV>, i: int) -> bool {
    &&& forall|j: int, acc: Seq<IdentV>, h: int| #![trigger p_more_names(ts, j, acc), w_names(ts, h, j, acc)] i < j < ts.len() && 0 <= j && w_names(ts, h, j, acc) ==> (p_more_names(ts, j, acc) matches Ok((x, k)) ==> j <= k < ts.len() && (w_names(ts, h, k, x)))
    &&& forall|j: int, acc: Seq<IdentV>, h: int| #![trigger p_params(ts, j, acc), starts(ts, h, j, acc)] i < j < ts.len() && 0 <= j && starts(ts, h, j, acc) ==> (p_params(ts, j, acc) matches Ok((x, k)) ==> j < k < ts.len() && (w_names(ts, h, k, x)))
    &&& forall|j: int, min_bp: int| i < j < ts.len() && 0 <= j ==> ((#[trigger] p_expr_bp(ts, j, min_bp)) matches Ok((x, k)) ==> j < k < ts.len() && (w_expr(ts, j, k, x) && binds(x, min_bp) && stops(ts, k, min_bp)))
    &&& forall|j: int, lhs: ExprV, min_bp: int, h: int| #![trigger p_infix(ts, j, lhs, min_bp), reads_infix(ts, h, j, lhs, min_bp)] i < j < ts.len() && 0 <= j && reads_infix(ts, h, j, lhs, min_bp) ==> (p_infix(ts, j, lhs, min_bp) matches Ok((x, k)) ==> j <= k < ts.len() && (w_expr(ts, h, k, x) && binds(x, min_bp) && stops(ts, k, min_bp)))
    &&& forall|j: int| i < j < ts.len() && 0 <= j ==> ((#[trigger] p_primary(ts, j)) matches Ok((x, k)) ==> j < k < ts.len() && (w_expr(ts, j, k, x) && !(x.kind is Binary) && !(x.kind is Unary)))
    &&& forall|j: int| i < j < ts.len() && 0 <= j ==> ((#[trigger] p_suffixed(ts, j)) matches Ok((x, k)) ==> j < k < ts.len() && (w_expr(ts, j, k, x) && is_prefix(x)))
    &&& forall|j: int, e: ExprV, h: int| #![trigger p_suffixes(ts, j, e), w_expr(ts, h, j, e)] i < j < ts.len() && 0 <= j && w_expr(ts, h, j, e) && is_prefix(e) ==> (p_suffixes(ts, j, e) matches Ok((x, k)) ==> j <= k < ts.len() && (w_expr(ts, h, k, x) && is_prefix(x)))
    &&& forall|j: int| i < j < ts.len() && 0 <= j ==> ((#[trigger] p_atom(ts, j)) matches Ok((x, k)) ==> j < k < ts.len() && (w_expr(ts, j, k, x) && is_prefix(x)))
    &&& forall|j: int| i < j < ts.len() && 0 <= j ==> ((#[trigger] p_call_args(ts, j)) matches Ok((x, k)) ==> j < k < ts.len() && (w_args(ts, j, k, x.0)))
    &&& forall|j: int| i < j < ts.len() && 0 <= j ==> ((#[trigger] p_expr_list(ts, j)) matches Ok((x, k)) ==> j < k < ts.len() && (w_list(ts, j, k, x) && x.len() > 0))
    &&& forall|j: int, acc: Seq<ExprV>, h: int| #![trigger p_more_exprs(ts, j, acc), w_list(ts, h, j, acc)] i < j < ts.len() && 0 <= j && w_list(ts, h, j, acc) && acc.len() > 0 ==> (p_more_exprs(ts, j, acc) matches Ok((x, k)) ==> j <= k < ts.len() && (w_list(ts, h, k, x) && x.len() > 0))
    &&& forall|j: int| i < j < ts.len() && 0 <= j ==> ((#[trigger] p_table(ts, j)) matches Ok((x, k)) ==> j < k < ts.len() && (w_table(ts, j, k, x.0)))
    &&& forall|j: int, acc: Seq<FieldV>, h: int| #![trigger p_fields(ts, j, acc), w_fields(ts, h, j, acc)] i < j < ts.len() && 0 <= j && w_fields(ts, h, j, acc) ==> (p_fields(ts, j, acc) matches Ok((x, k)) ==> j <= k < ts.len() && (w_fields(ts, h, k, x)))
    &&& forall|j: int| i < j < ts.len() && 0 <= j ==> ((#[trigger] p_field(ts, j)) matches Ok((x, k)) ==> j < k < ts.len() && (w_field(ts, j, k, x)))
    &&& forall|j: int| i < j < ts.len() && 0 <= j ==> ((#[trigger] p_func_body(ts, j)) matches Ok((x, k)) ==> j < k < ts.len() && (w_func(ts, j, k, x)))
    &&& forall|j: int| i < j < ts.len() && 0 <= j ==> ((#[trigger] p_block(ts, j)) matches Ok((x, k)) ==> j <= k < ts.len() && (w_block(ts, j, k, x)))
    &&& forall|j: int, acc: Seq<StatV>, h: int| #![trigger p_stats(ts, j, acc), w_stats(ts, h, j, acc)] i < j < ts.len() && 0 <= j && w_stats(ts, h, j, acc) ==> (p_stats(ts, j, acc) matches Ok((x, k)) ==> j <= k < ts.len() && (w_body(ts, h, k, x.0, x.1)))
    &&& forall|j: int| i < j < ts.len() && 0 <= j ==> ((#[trigger] p_ret(ts, j)) matches Ok((x, k)) ==> j < k < ts.len() && (w_ret(ts, j, k, Some(x))))
    &&& forall|j: int| i < j < ts.len() && 0 <= j ==> ((#[trigger] p_stat(ts, j)) matches Ok((x, k)) ==> j < k < ts.len() && (w_stat(ts, j, k, x)))
    &&& forall|j: int| i < j < ts.len() && 0 <= j && is_at(ts, j, TokenKind::Local) ==> ((#[trigger] p_local(ts, j)) matches Ok((x, k)) ==> j < k < ts.len() && (w_stat(ts, j, k, x)))
    &&& forall|j: int| i < j < ts.len() && 0 <= j ==> ((#[trigger] p_while(ts, j)) matches Ok((x, k)) ==> j < k < ts.len() && (is_at(ts, j, TokenKind::While) ==> w_stat(ts, j, k, x)))
    &&& forall|j: int| i < j < ts.len() && 0 <= j ==> ((#[trigger] p_arm(ts, j)) matches Ok((x, k)) ==> j < k < ts.len() && (w_arm(ts, j, k, x)))
    &&& forall|j: int, acc: Seq<(ExprV, BlockV)>, h: int| #![trigger p_elseifs(ts, j, acc), w_arms(ts, h, j, acc)] i < j < ts.len() && 0 <= j && w_arms(ts, h, j, acc) && acc.len() > 0 ==> (p_elseifs(ts, j, acc) matches Ok((x, k)) ==> j <= k < ts.len() && (w_arms(ts, h, k, x) && x.len() > 0))
    &&& forall|j: int| i < j < ts.len() && 0 <= j ==> ((#[trigger] p_else(ts, j)) matches Ok((x, k)) ==> j <= k < ts.len() && (w_else(ts, j, k, x)))
    &&& forall|j: int| i < j < ts.len() && 0 <= j ==> ((#[trigger] p_if(ts, j)) matches Ok((x, k)) ==> j < k < ts.len() && (is_at(ts, j, TokenKind::If) ==> w_stat(ts, j, k, x)))
    &&& forall|j: int| i < j < ts.len() && 0 <= j ==> ((#[trigger] p_do_body(ts, j)) matches Ok((x, k)) ==> j < k < ts.len() && (is_at(ts, j, TokenKind::Do) && w_block(ts, j + 1, k - 1, x.0) && is_at(ts, k - 1, TokenKind::End)))
    &&& forall|j: int| i < j < ts.len() && 0 <= j ==> ((#[trigger] p_step(ts, j)) matches Ok((x, k)) ==> j <= k < ts.len() && (w_step(ts, j, k, x)))
    &&& forall|j: int| i < j < ts.len() && 0 <= j ==> ((#[trigger] p_for(ts, j)) matches Ok((x, k)) ==> j < k < ts.len() && (is_at(ts, j, TokenKind::For) ==> w_stat(ts, j, k, x)))
    &&& forall|j: int, kw: Span, var: IdentV| i < j < ts.len() && 0 <= j ==> ((#[trigger] p_numeric_for(ts, j, kw, var)) matches Ok((x, k)) ==> j < k < ts.len() && (is_at(ts, j, TokenKind::Assign) && name_at(ts, j - 1, var.node) && is_at(ts, j - 2, TokenKind::For) ==> w_stat(ts, j - 2, k, x)))
    &&& forall|j: int, kw: Span, first: IdentV| i < j < ts.len() && 0 <= j ==> ((#[trigger] p_generic_for(ts, j, kw, first)) matches Ok((x, k)) ==> j < k < ts.len() && (name_at(ts, j - 1, first.node) && is_at(ts, j - 2, TokenKind::For) ==> w_stat(ts, j - 2, k, x)))
    &&& forall|j: int| i < j < ts.len() && 0 <= j ==> ((#[trigger] p_iter(ts, j)) matches Ok((x, k)) ==> j < k < ts.len() && (w_iter(ts, j, k, x)))
    &&& forall|j: int, acc: Seq<ExprV>, h: int| #![trigger p_targets(ts, j, acc), w_list(ts, h, j, acc)] i < j < ts.len() && 0 <= j && w_list(ts, h, j, acc) && acc.len() > 0 ==> (p_targets(ts, j, acc) matches Ok((x, k)) ==> j <= k < ts.len() && (w_list(ts, h, k, x) && x.len() > 0))
    &&& forall|j: int, first: ExprV, h: int| #![trigger p_assign(ts, j, first), w_expr(ts, h, j, first)] i < j < ts.len() && 0 <= j && w_expr(ts, h, j, first) ==> (p_assign(ts, j, first) matches Ok((x, k)) ==> j < k < ts.len() && (w_stat(ts, h, k, x)))
    &&& forall|j: int| i < j < ts.len() && 0 <= j ==> ((#[trigger] p_expr_stat(ts, j)) matches Ok((x, k)) ==> j < k < ts.len() && (w_stat(ts, j, k, x) && !(x.kind is Empty)))
}

proof fn s_more_names(ts: Seq<TokenV>, i: int, acc: Seq<IdentV>, h: int)
    requires
        ended(ts),
        0 <= i < ts.len(),
        w_names(ts, h, i, acc),
    ensures
        p_more_names(ts, i, acc) matches Ok((x, k)) ==> i <= k < ts.len() && (w_names(ts, h, k, x)),
    decreases ts.len() - i,
{
    unfold_p_more_names(ts, i, acc);
    if i + 1 < ts.len() {
        match p_name(ts, i + 1) {
            Ok((n, _)) => {
                if is_at(ts, i, TokenKind::Comma) {
                    lemma_names_push(ts, h, i, acc, n);
                    s_more_names(ts, i + 2, acc.push(n), h);
                }
            },
            Err(_) => {},
        }
    }
}

proof fn s_params(ts: Seq<TokenV>, i: int, acc: Seq<IdentV>, h: int)
    requires
        ended(ts),
        0 <= i < ts.len(),
        starts(ts, h, i, acc),
    ensures
        p_params(ts, i, acc) matches Ok((x, k)) ==> i < k < ts.len() && (w_names(ts, h, k, x)),
    decreases ts.len() - i,
{
    unfold_p_params(ts, i, acc);
    match p_name(ts, i) {
        Ok((n, _)) => {
            if acc.len() > 0 {
                lemma_names_push(ts, h, i - 1, acc, n);
            } else {
                assert(acc.push(n) =~= seq![n]);
                assert(w_names(ts, h, i + 1, acc.push(n)));
            }
            if is_at(ts, i + 1, TokenKind::Comma) && i + 2 < ts.len() {
                s_params(ts, i + 2, acc.push(n), h);
            }
        },
        Err(_) => {},
    }
}

proof fn s_expr_bp(ts: Seq<TokenV>, i: int, min_bp: int)
    requires
        ended(ts),
        0 <= i < ts.len(),
        written_after(ts, i),
    ensures
        p_expr_bp(ts, i, min_bp) matches Ok((x, k)) ==> i < k < ts.len() && (w_expr(ts, i, k, x) && binds(x, min_bp) && stops(ts, k, min_bp)),
    decreases 4int,
{
    unfold_p_expr_bp(ts, i, min_bp);
    s_atom(ts, i);
    s_primary(ts, i);
    lemma_tokens(ts[i].kind);
    match unary_op_of(ts[i].kind) {
        Some(op) => {
            if i + 1 < ts.len() {
                match p_expr_bp(ts, i + 1, UNARY_BP as int) {
                    Ok((e, j)) => {
                        let u = ExprV {
                            kind: ExprKindV::Unary { op, operand: Box::new(e) },
                            span: crate::diagnostics::join(ts[i].span, e.span),
                        };
                        lemma_fits_operand(e);
                        lemma_follows_unary(ts, j, u);
                        assert(w_expr(ts, i, j, u)) by {
                            reveal(y_expr);
                            reveal(y_func);
                            reveal(y_args);
                            reveal(y_table);
                        }
                        assert(reads_infix(ts, i, j, u, min_bp));
                    },
                    Err(_) => {},
                }
            }
        },
        None => {
            match p_primary(ts, i) {
                Ok((e, j)) => {
                    assert(follows(ts, j, e));
                    assert(reads_infix(ts, i, j, e, min_bp));
                },
                Err(_) => {},
            }
        },
    }
}

proof fn s_infix(ts: Seq<TokenV>, i: int, lhs: ExprV, min_bp: int, h: int)
    requires
        ended(ts),
        0 <= i < ts.len(),
        written_after(ts, i),
        reads_infix(ts, h, i, lhs, min_bp),
    ensures
        p_infix(ts, i, lhs, min_bp) matches Ok((x, k)) ==> i <= k < ts.len() && (w_expr(ts, h, k, x) && binds(x, min_bp) && stops(ts, k, min_bp)),
    decreases 1int,
{
    unfold_p_infix(ts, i, lhs, min_bp);
    lemma_tokens(ts[i].kind);
    if i + 1 < ts.len() {
        match binary_op_of(ts[i].kind) {
            Some(op) => {
                match p_expr_bp(ts, i + 1, right_bp(op)) {
                    Ok((rhs, j)) => {
                        let b = ExprV {
                            kind: ExprKindV::Binary { op, lhs: Box::new(lhs), rhs: Box::new(rhs) },
                            span: crate::diagnostics::join(lhs.span, rhs.span),
                        };
                        lemma_fits_right(op, rhs);
                        lemma_follows_binary(ts, j, op, b);
                        assert(w_expr(ts, h, j, b)) by {
                            reveal(y_expr);
                            reveal(y_func);
                            reveal(y_args);
                            reveal(y_table);
                        }
                        if left_bp(op) >= min_bp {
                            assert(reads_infix(ts, h, j, b, min_bp));
                        }
                    },
                    Err(_) => {},
                }
            },
            None => {},
        }
    }
}

proof fn s_primary(ts: Seq<TokenV>, i: int)
    requires
        ended(ts),
        0 <= i < ts.len(),
        written_after(ts, i),
    ensures
        p_primary(ts, i) matches Ok((x, k)) ==> i < k < ts.len() && (w_expr(ts, i, k, x) && !(x.kind is Binary) && !(x.kind is Unary)),
    decreases 3int,
{
    unfold_p_primary(ts, i);
    s_table(ts, i);
    s_suffixed(ts, i);
    s_atom(ts, i);
    reveal(y_expr);
    reveal(y_func);
    reveal(y_args);
    reveal(y_table);
}

proof fn s_suffixed(ts: Seq<TokenV>, i: int)
    requires
        ended(ts),
        0 <= i < ts.len(),
        written_after(ts, i),
    ensures
        p_suffixed(ts, i) matches Ok((x, k)) ==> i < k < ts.len() && (w_expr(ts, i, k, x) && is_prefix(x)),
    decreases 1int,
{
    unfold_p_suffixed(ts, i);
    s_atom(ts, i);
}

proof fn s_suffixes(ts: Seq<TokenV>, i: int, e: ExprV, h: int)
    requires
        ended(ts),
        0 <= i < ts.len(),
        written_after(ts, i),
        w_expr(ts, h, i, e) && is_prefix(e),
    ensures
        p_suffixes(ts, i, e) matches Ok((x, k)) ==> i <= k < ts.len() && (w_expr(ts, h, k, x) && is_prefix(x)),
    decreases 2int,
{
    unfold_p_suffixes(ts, i, e);
    reveal(y_expr);
    reveal(y_func);
    reveal(y_args);
    reveal(y_table);
    s_call_args(ts, i);
    if i + 1 < ts.len() {
        match ts[i].kind {
            TokenKindV::Fixed(TokenKind::Dot) => {
                match p_name(ts, i + 1) {
                    Ok((name, j)) => {
                        let x = ExprV {
                            kind: ExprKindV::Field { base: Box::new(e), name },
                            span: crate::diagnostics::join(e.span, name.span),
                        };
                        assert(w_expr(ts, h, j, x));
                    },
                    Err(_) => {},
                }
            },
            TokenKindV::Fixed(TokenKind::LBracket) => {
                match p_expr_bp(ts, i + 1, 0) {
                    Ok((index, j)) => {
                        let close = ts[j].span;
                        let x = ExprV {
                            kind: ExprKindV::Index { base: Box::new(e), index: Box::new(index) },
                            span: crate::diagnostics::join(e.span, close),
                        };
                        if is_at(ts, j, TokenKind::RBracket) {
                            assert(w_expr(ts, h, j + 1, x));
                        }
                    },
                    Err(_) => {},
                }
            },
            TokenKindV::Fixed(TokenKind::Colon) => {
                match p_name(ts, i + 1) {
                    Ok((method, j)) => {
                        match p_call_args(ts, j) {
                            Ok(((args, aspan), k)) => {
                                let x = ExprV {
                                    kind: ExprKindV::MethodCall { receiver: Box::new(e), method, args },
                                    span: crate::diagnostics::join(e.span, aspan),
                                };
                                assert(w_expr(ts, h, k, x));
                            },
                            Err(_) => {},
                        }
                    },
                    Err(_) => {},
                }
            },
            _ => {
                match p_call_args(ts, i) {
                    Ok(((args, aspan), k)) => {
                        let x = ExprV {
                            kind: ExprKindV::Call { callee: Box::new(e), args },
                            span: crate::diagnostics::join(e.span, aspan),
                        };
                        assert(w_expr(ts, h, k, x));
                    },
                    Err(_) => {},
                }
            },
        }
    }
}

proof fn s_atom(ts: Seq<TokenV>, i: int)
    requires
        ended(ts),
        0 <= i < ts.len(),
        written_after(ts, i),
    ensures
        p_atom(ts, i) matches Ok((x, k)) ==> i < k < ts.len() && (w_expr(ts, i, k, x) && is_prefix(x)),
    decreases 0int,
{
    unfold_p_atom(ts, i);
    reveal(y_expr);
    reveal(y_func);
    reveal(y_args);
    reveal(y_table);
}

proof fn s_call_args(ts: Seq<TokenV>, i: int)
    requires
        ended(ts),
        0 <= i < ts.len(),
        written_after(ts, i),
    ensures
        p_call_args(ts, i) matches Ok((x, k)) ==> i < k < ts.len() && (w_args(ts, i, k, x.0)),
    decreases 1int,
{
    unfold_p_call_args(ts, i);
    s_table(ts, i);
    reveal(y_args);
    reveal(y_list);
    reveal(y_expr);
    reveal(y_func);
    reveal(y_table);
    assert(w_list(ts, i + 1, i + 1, Seq::empty())) by {
        reveal(y_list);
        reveal(y_expr);
    }
}

proof fn s_expr_list(ts: Seq<TokenV>, i: int)
    requires
        ended(ts),
        0 <= i < ts.len(),
        written_after(ts, i),
    ensures
        p_expr_list(ts, i) matches Ok((x, k)) ==> i < k < ts.len() && (w_list(ts, i, k, x) && x.len() > 0),
    decreases 5int,
{
    unfold_p_expr_list(ts, i);
    s_expr_bp(ts, i, 0);
    match p_expr_bp(ts, i, 0) {
        Ok((e, j)) => {
            lemma_list_one(ts, i, j, e);
        },
        Err(_) => {},
    }
}

proof fn s_more_exprs(ts: Seq<TokenV>, i: int, acc: Seq<ExprV>, h: int)
    requires
        ended(ts),
        0 <= i < ts.len(),
        written_after(ts, i),
        w_list(ts, h, i, acc) && acc.len() > 0,
    ensures
        p_more_exprs(ts, i, acc) matches Ok((x, k)) ==> i <= k < ts.len() && (w_list(ts, h, k, x) && x.len() > 0),
    decreases 0int,
{
    unfold_p_more_exprs(ts, i, acc);
    if i + 1 < ts.len() && is_at(ts, i, TokenKind::Comma) {
        match p_expr_bp(ts, i + 1, 0) {
            Ok((e, j)) => {
                lemma_list_push(ts, h, i, j, acc, e);
            },
            Err(_) => {},
        }
    }
}

proof fn s_table(ts: Seq<TokenV>, i: int)
    requires
        ended(ts),
        0 <= i < ts.len(),
        written_after(ts, i),
    ensures
        p_table(ts, i) matches Ok((x, k)) ==> i < k < ts.len() && (w_table(ts, i, k, x.0)),
    decreases 0int,
{
    unfold_p_table(ts, i);
    reveal(y_table);
    reveal(y_fields);
    assert(w_fields(ts, i + 1, i + 1, Seq::empty())) by {
        reveal(y_fields);
        reveal(y_field);
    }
}

proof fn s_fields(ts: Seq<TokenV>, i: int, acc: Seq<FieldV>, h: int)
    requires
        ended(ts),
        0 <= i < ts.len(),
        written_after(ts, i),
        w_fields(ts, h, i, acc),
    ensures
        p_fields(ts, i, acc) matches Ok((x, k)) ==> i <= k < ts.len() && (w_fields(ts, h, k, x)),
    decreases 6int,
{
    unfold_p_fields(ts, i, acc);
    s_field(ts, i);
    match p_field(ts, i) {
        Ok((f, j)) => {
            if !is_at(ts, i, TokenKind::RBrace) && !is_at(ts, i, TokenKind::Eof) {
                lemma_fields_push(ts, h, i, j, acc, f);
                let more = acc.push(f);
                if is_at(ts, j, TokenKind::Comma) || is_at(ts, j, TokenKind::Semi) {
                    assert(j + 1 < ts.len());
                    assert(w_fields(ts, h, j + 1, more));
                } else {
                    assert(w_fields(ts, h, j, more));
                }
            }
        },
        Err(_) => {},
    }
}

proof fn s_field(ts: Seq<TokenV>, i: int)
    requires
        ended(ts),
        0 <= i < ts.len(),
        written_after(ts, i),
    ensures
        p_field(ts, i) matches Ok((x, k)) ==> i < k < ts.len() && (w_field(ts, i, k, x)),
    decreases 5int,
{
    unfold_p_field(ts, i);
    s_expr_bp(ts, i, 0);
    reveal(y_field);
    reveal(y_expr);
}

proof fn s_func_body(ts: Seq<TokenV>, i: int)
    requires
        ended(ts),
        0 <= i < ts.len(),
        written_after(ts, i),
    ensures
        p_func_body(ts, i) matches Ok((x, k)) ==> i < k < ts.len() && (w_func(ts, i, k, x)),
    decreases 0int,
{
    unfold_p_func_body(ts, i);
    reveal(y_func);
    reveal(y_block);
    assert(starts(ts, i + 1, i + 1, Seq::empty()));
    if i + 1 < ts.len() {
        match p_params(ts, i + 1, Seq::empty()) {
            Ok((params, k)) => {
                assert(w_names(ts, i + 1, k, params));
                assert(y_names(ts, Some(i + 1), params) == Some(k));
            },
            Err(_) => {},
        }
    }
}

proof fn s_block(ts: Seq<TokenV>, i: int)
    requires
        ended(ts),
        0 <= i < ts.len(),
        written_after(ts, i),
    ensures
        p_block(ts, i) matches Ok((x, k)) ==> i <= k < ts.len() && (w_block(ts, i, k, x)),
    decreases 10int,
{
    unfold_p_block(ts, i);
    assert(w_stats(ts, i, i, Seq::empty())) by {
        reveal(y_stats);
        reveal(y_stat);
        assert(w_semis(ts, i, i));
    }
    s_stats(ts, i, Seq::empty(), i);
    reveal(y_block);
    reveal(y_stats);
    reveal(y_ret);
}

proof fn s_stats(ts: Seq<TokenV>, i: int, acc: Seq<StatV>, h: int)
    requires
        ended(ts),
        0 <= i < ts.len(),
        written_after(ts, i),
        w_stats(ts, h, i, acc),
    ensures
        p_stats(ts, i, acc) matches Ok((x, k)) ==> i <= k < ts.len() && (w_body(ts, h, k, x.0, x.1)),
    decreases 9int,
{
    unfold_p_stats(ts, i, acc);
    s_ret(ts, i);
    s_stat(ts, i);
    reveal(y_ret);
    reveal(y_list);
    let done = y_stats(ts, Some(h), acc, acc.len() as int)->0;
    if !is_at(ts, i, TokenKind::Semi) {
        lemma_past_semis(ts, done, i);
    }
    match p_stat(ts, i) {
        Ok((s, j)) => {
            if is_at(ts, i, TokenKind::Semi) {
                unfold_p_stat(ts, i);
                lemma_stats_semi(ts, h, i, acc);
            } else {
                assert(!(s.kind is Empty)) by {
                    reveal(y_stat);
                    reveal(y_list);
                    reveal(y_func);
                    reveal(y_expr);
                    reveal(y_block);
                    reveal(y_arms);
                    reveal(y_else);
                    reveal(y_step);
                    reveal(y_iter);
                }
                lemma_stats_push(ts, h, i, j, acc, s);
            }
        },
        Err(_) => {},
    }
}

proof fn s_ret(ts: Seq<TokenV>, i: int)
    requires
        ended(ts),
        0 <= i < ts.len(),
        written_after(ts, i),
    ensures
        p_ret(ts, i) matches Ok((x, k)) ==> i < k < ts.len() && (w_ret(ts, i, k, Some(x))),
    decreases 0int,
{
    unfold_p_ret(ts, i);
    reveal(y_ret);
    reveal(y_list);
    assert(w_list(ts, i + 1, i + 1, Seq::empty())) by {
        reveal(y_list);
        reveal(y_expr);
    }
}

proof fn s_stat(ts: Seq<TokenV>, i: int)
    requires
        ended(ts),
        0 <= i < ts.len(),
        written_after(ts, i),
    ensures
        p_stat(ts, i) matches Ok((x, k)) ==> i < k < ts.len() && (w_stat(ts, i, k, x)),
    decreases 8int,
{
    unfold_p_stat(ts, i);
    if is_at(ts, i, TokenKind::Local) {
        s_local(ts, i);
    }
    s_while(ts, i);
    s_if(ts, i);
    s_for(ts, i);
    s_expr_stat(ts, i);
    reveal(y_stat);
    reveal(y_list);
    reveal(y_func);
    reveal(y_expr);
    reveal(y_block);
    reveal(y_arms);
    reveal(y_else);
    reveal(y_step);
    reveal(y_iter);
}

proof fn s_local(ts: Seq<TokenV>, i: int)
    requires
        ended(ts),
        0 <= i < ts.len(),
        written_after(ts, i),
        is_at(ts, i, TokenKind::Local),
    ensures
        p_local(ts, i) matches Ok((x, k)) ==> i < k < ts.len() && (w_stat(ts, i, k, x)),
    decreases 0int,
{
    unfold_p_local(ts, i);
    reveal(y_stat);
    reveal(y_list);
    reveal(y_func);
    reveal(y_expr);
    reveal(y_block);
    reveal(y_arms);
    reveal(y_else);
    reveal(y_step);
    reveal(y_iter);
    match p_name(ts, i + 1) {
        Ok((first, j)) => {
            assert(w_names(ts, i + 1, j, seq![first]));
            if i + 2 < ts.len() {
                match p_more_names(ts, j, seq![first]) {
                    Ok((names, k)) => {
                        assert(w_names(ts, i + 1, k, names));
                        assert(y_names(ts, Some(i + 1), names) == Some(k));
                    },
                    Err(_) => {},
                }
            }
        },
        Err(_) => {},
    }
}

proof fn s_while(ts: Seq<TokenV>, i: int)
    requires
        ended(ts),
        0 <= i < ts.len(),
        written_after(ts, i),
    ensures
        p_while(ts, i) matches Ok((x, k)) ==> i < k < ts.len() && (is_at(ts, i, TokenKind::While) ==> w_stat(ts, i, k, x)),
    decreases 0int,
{
    unfold_p_while(ts, i);
    reveal(y_stat);
    reveal(y_list);
    reveal(y_func);
    reveal(y_expr);
    reveal(y_block);
    reveal(y_arms);
    reveal(y_else);
    reveal(y_step);
    reveal(y_iter);
}

proof fn s_arm(ts: Seq<TokenV>, i: int)
    requires
        ended(ts),
        0 <= i < ts.len(),
        written_after(ts, i),
    ensures
        p_arm(ts, i) matches Ok((x, k)) ==> i < k < ts.len() && (w_arm(ts, i, k, x)),
    decreases 5int,
{
    unfold_p_arm(ts, i);
    s_expr_bp(ts, i, 0);
    reveal(y_arm);
    reveal(y_expr);
    reveal(y_block);
}

proof fn s_elseifs(ts: Seq<TokenV>, i: int, acc: Seq<(ExprV, BlockV)>, h: int)
    requires
        ended(ts),
        0 <= i < ts.len(),
        written_after(ts, i),
        w_arms(ts, h, i, acc) && acc.len() > 0,
    ensures
        p_elseifs(ts, i, acc) matches Ok((x, k)) ==> i <= k < ts.len() && (w_arms(ts, h, k, x) && x.len() > 0),
    decreases 0int,
{
    unfold_p_elseifs(ts, i, acc);
    if i + 1 < ts.len() && is_at(ts, i, TokenKind::Elseif) {
        match p_arm(ts, i + 1) {
            Ok((arm, j)) => {
                lemma_arms_push(ts, h, i, j, acc, arm);
            },
            Err(_) => {},
        }
    }
}

proof fn s_else(ts: Seq<TokenV>, i: int)
    requires
        ended(ts),
        0 <= i < ts.len(),
        written_after(ts, i),
    ensures
        p_else(ts, i) matches Ok((x, k)) ==> i <= k < ts.len() && (w_else(ts, i, k, x)),
    decreases 0int,
{
    unfold_p_else(ts, i);
    reveal(y_else);
    reveal(y_block);
}

proof fn s_if(ts: Seq<TokenV>, i: int)
    requires
        ended(ts),
        0 <= i < ts.len(),
        written_after(ts, i),
    ensures
        p_if(ts, i) matches Ok((x, k)) ==> i < k < ts.len() && (is_at(ts, i, TokenKind::If) ==> w_stat(ts, i, k, x)),
    decreases 0int,
{
    unfold_p_if(ts, i);
    reveal(y_stat);
    reveal(y_list);
    reveal(y_func);
    reveal(y_expr);
    reveal(y_block);
    reveal(y_arms);
    reveal(y_else);
    reveal(y_step);
    reveal(y_iter);
    match p_arm(ts, i + 1) {
        Ok((first, j)) => {
            if i + 1 < ts.len() {
                assert(w_arm(ts, i + 1, j, first));
                assert(w_arms(ts, i + 1, j, seq![first])) by {
                    reveal(y_arms);
                    reveal(y_arm);
                }
            }
        },
        Err(_) => {},
    }
}

proof fn s_do_body(ts: Seq<TokenV>, i: int)
    requires
        ended(ts),
        0 <= i < ts.len(),
        written_after(ts, i),
    ensures
        p_do_body(ts, i) matches Ok((x, k)) ==> i < k < ts.len() && (is_at(ts, i, TokenKind::Do) && w_block(ts, i + 1, k - 1, x.0) && is_at(ts, k - 1, TokenKind::End)),
    decreases 0int,
{
    unfold_p_do_body(ts, i);
}

proof fn s_step(ts: Seq<TokenV>, i: int)
    requires
        ended(ts),
        0 <= i < ts.len(),
        written_after(ts, i),
    ensures
        p_step(ts, i) matches Ok((x, k)) ==> i <= k < ts.len() && (w_step(ts, i, k, x)),
    decreases 0int,
{
    unfold_p_step(ts, i);
    reveal(y_step);
    reveal(y_expr);
}

proof fn s_for(ts: Seq<TokenV>, i: int)
    requires
        ended(ts),
        0 <= i < ts.len(),
        written_after(ts, i),
    ensures
        p_for(ts, i) matches Ok((x, k)) ==> i < k < ts.len() && (is_at(ts, i, TokenKind::For) ==> w_stat(ts, i, k, x)),
    decreases 0int,
{
    unfold_p_for(ts, i);
}

proof fn s_numeric_for(ts: Seq<TokenV>, i: int, kw: Span, var: IdentV)
    requires
        ended(ts),
        0 <= i < ts.len(),
        written_after(ts, i),
    ensures
        p_numeric_for(ts, i, kw, var) matches Ok((x, k)) ==> i < k < ts.len() && (is_at(ts, i, TokenKind::Assign) && name_at(ts, i - 1, var.node) && is_at(ts, i - 2, TokenKind::For) ==> w_stat(ts, i - 2, k, x)),
    decreases 0int,
{
    unfold_p_numeric_for(ts, i, kw, var);
    reveal(y_stat);
    reveal(y_list);
    reveal(y_func);
    reveal(y_expr);
    reveal(y_block);
    reveal(y_arms);
    reveal(y_else);
    reveal(y_step);
    reveal(y_iter);
    if i + 1 < ts.len() {
        match p_expr_bp(ts, i + 1, 0) {
            Ok((start, j)) => {
                assert(w_expr(ts, (i - 2) + 3, j, start));
            },
            Err(_) => {},
        }
    }
}

proof fn s_generic_for(ts: Seq<TokenV>, i: int, kw: Span, first: IdentV)
    requires
        ended(ts),
        0 <= i < ts.len(),
        written_after(ts, i),
    ensures
        p_generic_for(ts, i, kw, first) matches Ok((x, k)) ==> i < k < ts.len() && (name_at(ts, i - 1, first.node) && is_at(ts, i - 2, TokenKind::For) ==> w_stat(ts, i - 2, k, x)),
    decreases 1int,
{
    unfold_p_generic_for(ts, i, kw, first);
    if name_at(ts, i - 1, first.node) {
        assert(w_names(ts, i - 1, i, seq![first]));
        s_more_names(ts, i, seq![first], i - 1);
        match p_more_names(ts, i, seq![first]) {
            Ok((names, j)) => {
                assert(w_names(ts, (i - 2) + 1, j, names));
            },
            Err(_) => {},
        }
    }
    reveal(y_stat);
    reveal(y_list);
    reveal(y_func);
    reveal(y_expr);
    reveal(y_block);
    reveal(y_arms);
    reveal(y_else);
    reveal(y_step);
    reveal(y_iter);
}

proof fn s_iter(ts: Seq<TokenV>, i: int)
    requires
        ended(ts),
        0 <= i < ts.len(),
        written_after(ts, i),
    ensures
        p_iter(ts, i) matches Ok((x, k)) ==> i < k < ts.len() && (w_iter(ts, i, k, x)),
    decreases 0int,
{
    unfold_p_iter(ts, i);
    reveal(y_iter);
    reveal(y_expr);
}

proof fn s_targets(ts: Seq<TokenV>, i: int, acc: Seq<ExprV>, h: int)
    requires
        ended(ts),
        0 <= i < ts.len(),
        written_after(ts, i),
        w_list(ts, h, i, acc) && acc.len() > 0,
    ensures
        p_targets(ts, i, acc) matches Ok((x, k)) ==> i <= k < ts.len() && (w_list(ts, h, k, x) && x.len() > 0),
    decreases 0int,
{
    unfold_p_targets(ts, i, acc);
    if i + 1 < ts.len() && is_at(ts, i, TokenKind::Comma) {
        match p_suffixed(ts, i + 1) {
            Ok((e, j)) => {
                lemma_list_push(ts, h, i, j, acc, e);
            },
            Err(_) => {},
        }
    }
}

proof fn s_assign(ts: Seq<TokenV>, i: int, first: ExprV, h: int)
    requires
        ended(ts),
        0 <= i < ts.len(),
        written_after(ts, i),
        w_expr(ts, h, i, first),
    ensures
        p_assign(ts, i, first) matches Ok((x, k)) ==> i < k < ts.len() && (w_stat(ts, h, k, x)),
    decreases 1int,
{
    unfold_p_assign(ts, i, first);
    lemma_list_one(ts, h, i, first);
    s_targets(ts, i, seq![first], h);
    reveal(y_stat);
    reveal(y_list);
    reveal(y_func);
    reveal(y_expr);
    reveal(y_block);
    reveal(y_arms);
    reveal(y_else);
    reveal(y_step);
    reveal(y_iter);
}

proof fn s_expr_stat(ts: Seq<TokenV>, i: int)
    requires
        ended(ts),
        0 <= i < ts.len(),
        written_after(ts, i),
    ensures
        p_expr_stat(ts, i) matches Ok((x, k)) ==> i < k < ts.len() && (w_stat(ts, i, k, x) && !(x.kind is Empty)),
    decreases 7int,
{
    unfold_p_expr_stat(ts, i);
    s_suffixed(ts, i);
    reveal(y_stat);
    reveal(y_list);
    reveal(y_func);
    reveal(y_expr);
    reveal(y_block);
    reveal(y_arms);
    reveal(y_else);
    reveal(y_step);
    reveal(y_iter);
    match p_suffixed(ts, i) {
        Ok((first, j)) => {
            match p_assign(ts, j, first) {
                Ok((s, _)) => {
                    unfold_p_assign(ts, j, first);
                },
                Err(_) => {},
            }
        },
        Err(_) => {},
    }
}

proof fn lemma_written_after(ts: Seq<TokenV>, i: int)
    requires
        ended(ts),
        0 <= i,
    ensures
        written_after(ts, i),
    decreases (if i < ts.len() {
        ts.len() - i
    } else {
        0
    }),
{
    assert forall|j: int, acc: Seq<IdentV>, h: int| #![trigger p_more_names(ts, j, acc), w_names(ts, h, j, acc)] i < j < ts.len() && 0 <= j && w_names(ts, h, j, acc) implies (p_more_names(ts, j, acc) matches Ok((x, k)) ==> j <= k < ts.len() && (w_names(ts, h, k, x))) by {
        lemma_written_after(ts, j);
        s_more_names(ts, j, acc, h);
    }
    assert forall|j: int, acc: Seq<IdentV>, h: int| #![trigger p_params(ts, j, acc), starts(ts, h, j, acc)] i < j < ts.len() && 0 <= j && starts(ts, h, j, acc) implies (p_params(ts, j, acc) matches Ok((x, k)) ==> j < k < ts.len() && (w_names(ts, h, k, x))) by {
        lemma_written_after(ts, j);
        s_params(ts, j, acc, h);
    }
    assert forall|j: int, min_bp: int| i < j < ts.len() && 0 <= j implies ((#[trigger] p_expr_bp(ts, j, min_bp)) matches Ok((x, k)) ==> j < k < ts.len() && (w_expr(ts, j, k, x) && binds(x, min_bp) && stops(ts, k, min_bp))) by {
        lemma_written_after(ts, j);
        s_expr_bp(ts, j, min_bp);
    }
    assert forall|j: int, lhs: ExprV, min_bp: int, h: int| #![trigger p_infix(ts, j, lhs, min_bp), reads_infix(ts, h, j, lhs, min_bp)] i < j < ts.len() && 0 <= j && reads_infix(ts, h, j, lhs, min_bp) implies (p_infix(ts, j, lhs, min_bp) matches Ok((x, k)) ==> j <= k < ts.len() && (w_expr(ts, h, k, x) && binds(x, min_bp) && stops(ts, k, min_bp))) by {
        lemma_written_after(ts, j);
        s_infix(ts, j, lhs, min_bp, h);
    }
    assert forall|j: int| i < j < ts.len() && 0 <= j implies ((#[trigger] p_primary(ts, j)) matches Ok((x, k)) ==> j < k < ts.len() && (w_expr(ts, j, k, x) && !(x.kind is Binary) && !(x.kind is Unary))) by {
        lemma_written_after(ts, j);
        s_primary(ts, j);
    }
    assert forall|j: int| i < j < ts.len() && 0 <= j implies ((#[trigger] p_suffixed(ts, j)) matches Ok((x, k)) ==> j < k < ts.len() && (w_expr(ts, j, k, x) && is_prefix(x))) by {
        lemma_written_after(ts, j);
        s_suffixed(ts, j);
    }
    assert forall|j: int, e: ExprV, h: int| #![trigger p_suffixes(ts, j, e), w_expr(ts, h, j, e)] i < j < ts.len() && 0 <= j && w_expr(ts, h, j, e) && is_prefix(e) implies (p_suffixes(ts, j, e) matches Ok((x, k)) ==> j <= k < ts.len() && (w_expr(ts, h, k, x) && is_prefix(x))) by {
        lemma_written_after(ts, j);
        s_suffixes(ts, j, e, h);
    }
    assert forall|j: int| i < j < ts.len() && 0 <= j implies ((#[trigger] p_atom(ts, j)) matches Ok((x, k)) ==> j < k < ts.len() && (w_expr(ts, j, k, x) && is_prefix(x))) by {
        lemma_written_after(ts, j);
        s_atom(ts, j);
    }
    assert forall|j: int| i < j < ts.len() && 0 <= j implies ((#[trigger] p_call_args(ts, j)) matches Ok((x, k)) ==> j < k < ts.len() && (w_args(ts, j, k, x.0))) by {
        lemma_written_after(ts, j);
        s_call_args(ts, j);
    }
    assert forall|j: int| i < j < ts.len() && 0 <= j implies ((#[trigger] p_expr_list(ts, j)) matches Ok((x, k)) ==> j < k < ts.len() && (w_list(ts, j, k, x) && x.len() > 0)) by {
        lemma_written_after(ts, j);
        s_expr_list(ts, j);
    }
    assert forall|j: int, acc: Seq<ExprV>, h: int| #![trigger p_more_exprs(ts, j, acc), w_list(ts, h, j, acc)] i < j < ts.len() && 0 <= j && w_list(ts, h, j, acc) && acc.len() > 0 implies (p_more_exprs(ts, j, acc) matches Ok((x, k)) ==> j <= k < ts.len() && (w_list(ts, h, k, x) && x.len() > 0)) by {
        lemma_written_after(ts, j);
        s_more_exprs(ts, j, acc, h);
    }
    assert forall|j: int| i < j < ts.len() && 0 <= j implies ((#[trigger] p_table(ts, j)) matches Ok((x, k)) ==> j < k < ts.len() && (w_table(ts, j, k, x.0))) by {
        lemma_written_after(ts, j);
        s_table(ts, j);
    }
    assert forall|j: int, acc: Seq<FieldV>, h: int| #![trigger p_fields(ts, j, acc), w_fields(ts, h, j, acc)] i < j < ts.len() && 0 <= j && w_fields(ts, h, j, acc) implies (p_fields(ts, j, acc) matches Ok((x, k)) ==> j <= k < ts.len() && (w_fields(ts, h, k, x))) by {
        lemma_written_after(ts, j);
        s_fields(ts, j, acc, h);
    }
    assert forall|j: int| i < j < ts.len() && 0 <= j implies ((#[trigger] p_field(ts, j)) matches Ok((x, k)) ==> j < k < ts.len() && (w_field(ts, j, k, x))) by {
        lemma_written_after(ts, j);
        s_field(ts, j);
    }
    assert forall|j: int| i < j < ts.len() && 0 <= j implies ((#[trigger] p_func_body(ts, j)) matches Ok((x, k)) ==> j < k < ts.len() && (w_func(ts, j, k, x))) by {
        lemma_written_after(ts, j);
        s_func_body(ts, j);
    }
    assert forall|j: int| i < j < ts.len() && 0 <= j implies ((#[trigger] p_block(ts, j)) matches Ok((x, k)) ==> j <= k < ts.len() && (w_block(ts, j, k, x))) by {
        lemma_written_after(ts, j);
        s_block(ts, j);
    }
    assert forall|j: int, acc: Seq<StatV>, h: int| #![trigger p_stats(ts, j, acc), w_stats(ts, h, j, acc)] i < j < ts.len() && 0 <= j && w_stats(ts, h, j, acc) implies (p_stats(ts, j, acc) matches Ok((x, k)) ==> j <= k < ts.len() && (w_body(ts, h, k, x.0, x.1))) by {
        lemma_written_after(ts, j);
        s_stats(ts, j, acc, h);
    }
    assert forall|j: int| i < j < ts.len() && 0 <= j implies ((#[trigger] p_ret(ts, j)) matches Ok((x, k)) ==> j < k < ts.len() && (w_ret(ts, j, k, Some(x)))) by {
        lemma_written_after(ts, j);
        s_ret(ts, j);
    }
    assert forall|j: int| i < j < ts.len() && 0 <= j implies ((#[trigger] p_stat(ts, j)) matches Ok((x, k)) ==> j < k < ts.len() && (w_stat(ts, j, k, x))) by {
        lemma_written_after(ts, j);
        s_stat(ts, j);
    }
    assert forall|j: int| i < j < ts.len() && 0 <= j && is_at(ts, j, TokenKind::Local) implies ((#[trigger] p_local(ts, j)) matches Ok((x, k)) ==> j < k < ts.len() && (w_stat(ts, j, k, x))) by {
        lemma_written_after(ts, j);
        s_local(ts, j);
    }
    assert forall|j: int| i < j < ts.len() && 0 <= j implies ((#[trigger] p_while(ts, j)) matches Ok((x, k)) ==> j < k < ts.len() && (is_at(ts, j, TokenKind::While) ==> w_stat(ts, j, k, x))) by {
        lemma_written_after(ts, j);
        s_while(ts, j);
    }
    assert forall|j: int| i < j < ts.len() && 0 <= j implies ((#[trigger] p_arm(ts, j)) matches Ok((x, k)) ==> j < k < ts.len() && (w_arm(ts, j, k, x))) by {
        lemma_written_after(ts, j);
        s_arm(ts, j);
    }
    assert forall|j: int, acc: Seq<(ExprV, BlockV)>, h: int| #![trigger p_elseifs(ts, j, acc), w_arms(ts, h, j, acc)] i < j < ts.len() && 0 <= j && w_arms(ts, h, j, acc) && acc.len() > 0 implies (p_elseifs(ts, j, acc) matches Ok((x, k)) ==> j <= k < ts.len() && (w_arms(ts, h, k, x) && x.len() > 0)) by {
        lemma_written_after(ts, j);
        s_elseifs(ts, j, acc, h);
    }
    assert forall|j: int| i < j < ts.len() && 0 <= j implies ((#[trigger] p_else(ts, j)) matches Ok((x, k)) ==> j <= k < ts.len() && (w_else(ts, j, k, x))) by {
        lemma_written_after(ts, j);
        s_else(ts, j);
    }
    assert forall|j: int| i < j < ts.len() && 0 <= j implies ((#[trigger] p_if(ts, j)) matches Ok((x, k)) ==> j < k < ts.len() && (is_at(ts, j, TokenKind::If) ==> w_stat(ts, j, k, x))) by {
        lemma_written_after(ts, j);
        s_if(ts, j);
    }
    assert forall|j: int| i < j < ts.len() && 0 <= j implies ((#[trigger] p_do_body(ts, j)) matches Ok((x, k)) ==> j < k < ts.len() && (is_at(ts, j, TokenKind::Do) && w_block(ts, j + 1, k - 1, x.0) && is_at(ts, k - 1, TokenKind::End))) by {
        lemma_written_after(ts, j);
        s_do_body(ts, j);
    }
    assert forall|j: int| i < j < ts.len() && 0 <= j implies ((#[trigger] p_step(ts, j)) matches Ok((x, k)) ==> j <= k < ts.len() && (w_step(ts, j, k, x))) by {
        lemma_written_after(ts, j);
        s_step(ts, j);
    }
    assert forall|j: int| i < j < ts.len() && 0 <= j implies ((#[trigger] p_for(ts, j)) matches Ok((x, k)) ==> j < k < ts.len() && (is_at(ts, j, TokenKind::For) ==> w_stat(ts, j, k, x))) by {
        lemma_written_after(ts, j);
        s_for(ts, j);
    }
    assert forall|j: int, kw: Span, var: IdentV| i < j < ts.len() && 0 <= j implies ((#[trigger] p_numeric_for(ts, j, kw, var)) matches Ok((x, k)) ==> j < k < ts.len() && (is_at(ts, j, TokenKind::Assign) && name_at(ts, j - 1, var.node) && is_at(ts, j - 2, TokenKind::For) ==> w_stat(ts, j - 2, k, x))) by {
        lemma_written_after(ts, j);
        s_numeric_for(ts, j, kw, var);
    }
    assert forall|j: int, kw: Span, first: IdentV| i < j < ts.len() && 0 <= j implies ((#[trigger] p_generic_for(ts, j, kw, first)) matches Ok((x, k)) ==> j < k < ts.len() && (name_at(ts, j - 1, first.node) && is_at(ts, j - 2, TokenKind::For) ==> w_stat(ts, j - 2, k, x))) by {
        lemma_written_after(ts, j);
        s_generic_for(ts, j, kw, first);
    }
    assert forall|j: int| i < j < ts.len() && 0 <= j implies ((#[trigger] p_iter(ts, j)) matches Ok((x, k)) ==> j < k < ts.len() && (w_iter(ts, j, k, x))) by {
        lemma_written_after(ts, j);
        s_iter(ts, j);
    }
    assert forall|j: int, acc: Seq<ExprV>, h: int| #![trigger p_targets(ts, j, acc), w_list(ts, h, j, acc)] i < j < ts.len() && 0 <= j && w_list(ts, h, j, acc) && acc.len() > 0 implies (p_targets(ts, j, acc) matches Ok((x, k)) ==> j <= k < ts.len() && (w_list(ts, h, k, x) && x.len() > 0)) by {
        lemma_written_after(ts, j);
        s_targets(ts, j, acc, h);
    }
    assert forall|j: int, first: ExprV, h: int| #![trigger p_assign(ts, j, first), w_expr(ts, h, j, first)] i < j < ts.len() && 0 <= j && w_expr(ts, h, j, first) implies (p_assign(ts, j, first) matches Ok((x, k)) ==> j < k < ts.len() && (w_stat(ts, h, k, x))) by {
        lemma_written_after(ts, j);
        s_assign(ts, j, first, h);
    }
    assert forall|j: int| i < j < ts.len() && 0 <= j implies ((#[trigger] p_expr_stat(ts, j)) matches Ok((x, k)) ==> j < k < ts.len() && (w_stat(ts, j, k, x) && !(x.kind is Empty))) by {
        lemma_written_after(ts, j);
        s_expr_stat(ts, j);
    }
}

proof fn s_decls(ts: Seq<TokenV>, i: int, acc: Seq<TopDeclV>)
    requires
        ended(ts),
        0 <= i < ts.len(),
        w_decls(ts, 0, i, acc),
    ensures
        p_decls(ts, i, acc) matches Ok((x, k)) ==> tok(
            ts,
            y_export(ts, y_decls(ts, Some(0), x.0, x.0.len() as int), x.1),
            TokenKind::Eof,
        ) is Some,
    decreases ts.len() - i,
{
    unfold_p_decls(ts, i, acc);
    lemma_written_after(ts, i);
    unfold_p_func_decl(ts, i);
    unfold_p_const_decl(ts, i);
    unfold_p_export(ts, i);
    match ts[i].kind {
        TokenKindV::Fixed(TokenKind::Function) => {
            match p_func_decl(ts, i) {
                Ok((f, j)) => {
                    assert(i + 2 < ts.len());
                    lemma_decls_push(ts, 0, i, j, acc, TopDeclV::Function(f));
                    if i < j < ts.len() {
                        s_decls(ts, j, acc.push(TopDeclV::Function(f)));
                    }
                },
                Err(_) => {},
            }
        },
        TokenKindV::Name(_) => {
            if is_at(ts, i + 1, TokenKind::Assign) {
                match p_const_decl(ts, i) {
                    Ok((c, j)) => {
                        assert(i + 2 < ts.len());
                        lemma_decls_push(ts, 0, i, j, acc, TopDeclV::Const(c));
                        if i < j < ts.len() {
                            s_decls(ts, j, acc.push(TopDeclV::Const(c)));
                        }
                    },
                    Err(_) => {},
                }
            }
        },
        TokenKindV::Fixed(TokenKind::Return) => {
            assert(i + 1 < ts.len());
        },
        _ => {},
    }
}

/// A module that was parsed is what its tokens spell, from the first to the last; no operand of
/// an operator is, without parentheses, an expression with an operator that binds less tightly,
/// and operators of one rank group from the left, `..` and `^` from the right.
pub proof fn law_module_is_as_written(ts: Seq<TokenV>)
    requires
        ended(ts),
    ensures
        parse_of(ts) matches Ok(m) ==> spells(ts, m),
{
    assert(w_decls(ts, 0, 0, Seq::empty())) by {
        reveal(y_decls);
    }
    s_decls(ts, 0, Seq::empty());
}

} // verus!
