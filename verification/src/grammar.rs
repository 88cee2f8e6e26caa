//! The Grindlang grammar as functions on a token sequence and a position.
//!
//! Each `p_*` yields a node and the position after it, or the diagnostic that stops the
//! parser. The `unfold_*` lemmas state each production one step at a time.
use vstd::prelude::*;
use vstd::utf8::{encode_utf8, is_ascii_chars, is_ascii_chars_encode_utf8};
use crate::ast::{
    BinOp, BlockV, ConstDeclV, ExportV, ExprKindV, ExprV, FieldV, FuncBodyV, FuncDeclV, IdentV,
    IterExprV, ModuleV, RetStatV, StatKindV, StatV, TopDeclV, UnOp,
};
use crate::diagnostics::{error_at, join, DiagnosticV, Span};
use crate::lexer::{
    keyword_of, lex_of, one_token, scan, scan_from, skip, describe_of, Class, TokenKind, TokenKindV,
    TokenV,
};
use crate::text::latin1;

verus! {

/// A node and the position after it, or the problem that stopped the parser.
pub type Parsed<T> = Result<(T, int), DiagnosticV>;

/// Whether a result is the node `x` with the position `j` after it.
pub open spec fn gives<T>(r: Parsed<T>, x: T, j: int) -> bool {
    r == Ok::<(T, int), DiagnosticV>((x, j))
}

/// Whether a result is the problem `d`.
pub open spec fn fails<T>(r: Parsed<T>, d: DiagnosticV) -> bool {
    r == Err::<(T, int), DiagnosticV>(d)
}

/// Whether the token at `i` is the fixed token `k`.
pub open spec fn is_at(ts: Seq<TokenV>, i: int, k: TokenKind) -> bool {
    ts[i].kind == TokenKindV::Fixed(k)
}

/// Whether `j` lies ahead of `i`, inside the stream.
pub open spec fn ahead(ts: Seq<TokenV>, i: int, j: int) -> bool {
    i < j < ts.len()
}

/// The position after a token `k` that is skipped when present.
pub open spec fn eat(ts: Seq<TokenV>, i: int, k: TokenKind) -> int {
    if is_at(ts, i, k) {
        i + 1
    } else {
        i
    }
}

pub open spec fn p_expect(ts: Seq<TokenV>, i: int, k: TokenKind) -> Parsed<Span> {
    if is_at(ts, i, k) {
        Ok((ts[i].span, i + 1))
    } else {
        Err(
            error_at(
                "E0100"@,
                "expected "@ + describe_of(TokenKindV::Fixed(k)) + ", found "@ + describe_of(
                    ts[i].kind,
                ),
                ts[i].span,
            ),
        )
    }
}

pub open spec fn p_name(ts: Seq<TokenV>, i: int) -> Parsed<IdentV> {
    match ts[i].kind {
        TokenKindV::Name(n) => Ok((IdentV { node: n, span: ts[i].span }, i + 1)),
        other => Err(
            error_at(
                "E0101"@,
                "expected an identifier, found "@ + describe_of(other),
                ts[i].span,
            ),
        ),
    }
}

/// `{ , name }`
#[verifier::opaque]
pub open spec fn p_more_names(ts: Seq<TokenV>, i: int, acc: Seq<IdentV>) -> Parsed<Seq<IdentV>>
    decreases ts.len() - i,
{
    if i < 0 || i + 1 >= ts.len() || !is_at(ts, i, TokenKind::Comma) {
        Ok((acc, i))
    } else {
        match p_name(ts, i + 1) {
            Err(d) => Err(d),
            Ok((n, j)) => p_more_names(ts, i + 2, acc.push(n)),
        }
    }
}

/// `name { , name }` as a parameter list, where `...` is refused.
#[verifier::opaque]
pub open spec fn p_params(ts: Seq<TokenV>, i: int, acc: Seq<IdentV>) -> Parsed<Seq<IdentV>>
    decreases ts.len() - i,
{
    if i < 0 || i >= ts.len() || is_at(ts, i, TokenKind::Ellipsis) {
        Err(
            error_at("E0200"@, "varargs `...` are not supported in Grindlang"@, ts[i].span),
        )
    } else {
        match p_name(ts, i) {
            Err(d) => Err(d),
            Ok((n, j)) => if is_at(ts, i + 1, TokenKind::Comma) && i + 2 < ts.len() {
                p_params(ts, i + 2, acc.push(n))
            } else {
                Ok((acc.push(n), i + 1))
            },
        }
    }
}

#[verifier::opaque]
pub open spec fn unary_op_of(k: TokenKindV) -> Option<UnOp> {
    match k {
        TokenKindV::Fixed(TokenKind::Minus) => Some(UnOp::Neg),
        TokenKindV::Fixed(TokenKind::Not) => Some(UnOp::Not),
        TokenKindV::Fixed(TokenKind::Hash) => Some(UnOp::Len),
        _ => None,
    }
}

#[verifier::opaque]
pub open spec fn binary_op_of(k: TokenKindV) -> Option<BinOp> {
    match k {
        TokenKindV::Fixed(TokenKind::Plus) => Some(BinOp::Add),
        TokenKindV::Fixed(TokenKind::Minus) => Some(BinOp::Sub),
        TokenKindV::Fixed(TokenKind::Star) => Some(BinOp::Mul),
        TokenKindV::Fixed(TokenKind::Slash) => Some(BinOp::Div),
        TokenKindV::Fixed(TokenKind::DoubleSlash) => Some(BinOp::FloorDiv),
        TokenKindV::Fixed(TokenKind::Percent) => Some(BinOp::Mod),
        TokenKindV::Fixed(TokenKind::Caret) => Some(BinOp::Pow),
        TokenKindV::Fixed(TokenKind::DotDot) => Some(BinOp::Concat),
        TokenKindV::Fixed(TokenKind::Eq) => Some(BinOp::Eq),
        TokenKindV::Fixed(TokenKind::Ne) => Some(BinOp::Ne),
        TokenKindV::Fixed(TokenKind::Lt) => Some(BinOp::Lt),
        TokenKindV::Fixed(TokenKind::Le) => Some(BinOp::Le),
        TokenKindV::Fixed(TokenKind::Gt) => Some(BinOp::Gt),
        TokenKindV::Fixed(TokenKind::Ge) => Some(BinOp::Ge),
        TokenKindV::Fixed(TokenKind::And) => Some(BinOp::And),
        TokenKindV::Fixed(TokenKind::Or) => Some(BinOp::Or),
        _ => None,
    }
}

/// The left binding power of an infix operator: how tightly it binds, loosest first.
#[verifier::opaque]
pub open spec fn left_bp(op: BinOp) -> int {
    match op {
        BinOp::Or => 1,
        BinOp::And => 3,
        BinOp::Lt | BinOp::Gt | BinOp::Le | BinOp::Ge | BinOp::Eq | BinOp::Ne => 5,
        BinOp::Concat => 8,
        BinOp::Add | BinOp::Sub => 9,
        BinOp::Mul | BinOp::Div | BinOp::FloorDiv | BinOp::Mod => 11,
        BinOp::Pow => 16,
    }
}

/// The right binding power: below the left one for the right-associative `..` and `^`,
/// above it for every other operator.
#[verifier::opaque]
pub open spec fn right_bp(op: BinOp) -> int {
    match op {
        BinOp::Concat | BinOp::Pow => left_bp(op) - 1,
        _ => left_bp(op) + 1,
    }
}

/// Unary binding power: tighter than `*` and `/` but looser than `^`.
pub const UNARY_BP: u8 = 13;

/// An expression whose infix operators bind at least as tightly as `min_bp`.
#[verifier::opaque]
pub open spec fn p_expr_bp(ts: Seq<TokenV>, i: int, min_bp: int) -> Parsed<ExprV>
    decreases ts.len() - i, 5int,
{
    if i < 0 || i >= ts.len() {
        p_atom(ts, i)
    } else {
        match unary_op_of(ts[i].kind) {
            Some(op) => if i + 1 >= ts.len() {
                p_atom(ts, i)
            } else {
                match p_expr_bp(ts, i + 1, UNARY_BP as int) {
                    Err(d) => Err(d),
                    Ok((e, j)) => if ahead(ts, i, j) {
                        p_infix(
                            ts,
                            j,
                            ExprV {
                                kind: ExprKindV::Unary { op, operand: Box::new(e) },
                                span: join(ts[i].span, e.span),
                            },
                            min_bp,
                        )
                    } else {
                        Ok((e, j))
                    },
                }
            },
            None => match p_primary(ts, i) {
                Err(d) => Err(d),
                Ok((e, j)) => if ahead(ts, i, j) {
                    p_infix(ts, j, e, min_bp)
                } else {
                    Ok((e, j))
                },
            },
        }
    }
}

/// The infix operators and right operands that follow the left operand `lhs`.
#[verifier::opaque]
pub open spec fn p_infix(ts: Seq<TokenV>, i: int, lhs: ExprV, min_bp: int) -> Parsed<ExprV>
    decreases ts.len() - i, 0int,
{
    if i < 0 || i + 1 >= ts.len() {
        Ok((lhs, i))
    } else {
        match binary_op_of(ts[i].kind) {
            None => Ok((lhs, i)),
            Some(op) => if left_bp(op) < min_bp {
                Ok((lhs, i))
            } else {
                match p_expr_bp(ts, i + 1, right_bp(op)) {
                    Err(d) => Err(d),
                    Ok((rhs, j)) => if ahead(ts, i, j) {
                        p_infix(
                            ts,
                            j,
                            ExprV {
                                kind: ExprKindV::Binary {
                                    op,
                                    lhs: Box::new(lhs),
                                    rhs: Box::new(rhs),
                                },
                                span: join(lhs.span, rhs.span),
                            },
                            min_bp,
                        )
                    } else {
                        Ok((rhs, j))
                    },
                }
            },
        }
    }
}

/// Literals, anonymous functions, table constructors, and suffixed expressions.
#[verifier::opaque]
pub open spec fn p_primary(ts: Seq<TokenV>, i: int) -> Parsed<ExprV>
    decreases ts.len() - i, 4int,
{
    let span = ts[i].span;
    match ts[i].kind {
        TokenKindV::Fixed(TokenKind::Nil) => Ok((ExprV { kind: ExprKindV::Nil, span }, i + 1)),
        TokenKindV::Fixed(TokenKind::True) => Ok(
            (ExprV { kind: ExprKindV::Bool(true), span }, i + 1),
        ),
        TokenKindV::Fixed(TokenKind::False) => Ok(
            (ExprV { kind: ExprKindV::Bool(false), span }, i + 1),
        ),
        TokenKindV::Number(n) => Ok((ExprV { kind: ExprKindV::Number(n), span }, i + 1)),
        TokenKindV::Str(s) => Ok((ExprV { kind: ExprKindV::Str(s), span }, i + 1)),
        TokenKindV::Fixed(TokenKind::Ellipsis) => Err(
            error_at("E0200"@, "varargs `...` are not supported in Grindlang"@, span),
        ),
        TokenKindV::Fixed(TokenKind::Function) => if 0 <= i && i + 1 < ts.len() {
            match p_func_body(ts, i + 1) {
                Err(d) => Err(d),
                Ok((f, j)) => Ok(
                    (ExprV { kind: ExprKindV::Function(f), span: join(span, f.span) }, j),
                ),
            }
        } else {
            p_atom(ts, i)
        },
        TokenKindV::Fixed(TokenKind::LBrace) => match p_table(ts, i) {
            Err(d) => Err(d),
            Ok(((fields, tspan), j)) => Ok(
                (ExprV { kind: ExprKindV::Table(fields), span: tspan }, j),
            ),
        },
        TokenKindV::Name(_) | TokenKindV::Fixed(TokenKind::LParen) => p_suffixed(ts, i),
        other => Err(
            error_at("E0206"@, "expected an expression, found "@ + describe_of(other), span),
        ),
    }
}

/// A name or parenthesized expression followed by suffixes.
#[verifier::opaque]
pub open spec fn p_suffixed(ts: Seq<TokenV>, i: int) -> Parsed<ExprV>
    decreases ts.len() - i, 3int,
{
    match p_atom(ts, i) {
        Err(d) => Err(d),
        Ok((e, j)) => if 0 <= i && ahead(ts, i, j) {
            p_suffixes(ts, j, e)
        } else {
            Ok((e, j))
        },
    }
}

/// The suffixes that follow `e`: `.name`, `[expr]`, `:method(args)`, `(args)`, `{table}`
/// and `"str"`.
#[verifier::opaque]
pub open spec fn p_suffixes(ts: Seq<TokenV>, i: int, e: ExprV) -> Parsed<ExprV>
    decreases ts.len() - i, 2int,
{
    if i < 0 || i + 1 >= ts.len() {
        Ok((e, i))
    } else {
        match ts[i].kind {
            TokenKindV::Fixed(TokenKind::Dot) => match p_name(ts, i + 1) {
                Err(d) => Err(d),
                Ok((name, j)) => if ahead(ts, i, j) {
                    p_suffixes(
                        ts,
                        j,
                        ExprV {
                            kind: ExprKindV::Field { base: Box::new(e), name },
                            span: join(e.span, name.span),
                        },
                    )
                } else {
                    Ok((e, j))
                },
            },
            TokenKindV::Fixed(TokenKind::LBracket) => match p_expr_bp(ts, i + 1, 0) {
                Err(d) => Err(d),
                Ok((index, j)) => match p_expect(ts, j, TokenKind::RBracket) {
                    Err(d) => Err(d),
                    Ok((close, k)) => if ahead(ts, i, k) {
                        p_suffixes(
                            ts,
                            k,
                            ExprV {
                                kind: ExprKindV::Index {
                                    base: Box::new(e),
                                    index: Box::new(index),
                                },
                                span: join(e.span, close),
                            },
                        )
                    } else {
                        Ok((e, k))
                    },
                },
            },
            TokenKindV::Fixed(TokenKind::Colon) => match p_name(ts, i + 1) {
                Err(d) => Err(d),
                Ok((method, j)) => if ahead(ts, i, j) {
                    match p_call_args(ts, j) {
                        Err(d) => Err(d),
                        Ok(((args, aspan), k)) => if ahead(ts, i, k) {
                            p_suffixes(
                                ts,
                                k,
                                ExprV {
                                    kind: ExprKindV::MethodCall {
                                        receiver: Box::new(e),
                                        method,
                                        args,
                                    },
                                    span: join(e.span, aspan),
                                },
                            )
                        } else {
                            Ok((e, k))
                        },
                    }
                } else {
                    Ok((e, j))
                },
            },
            TokenKindV::Fixed(TokenKind::LParen)
            | TokenKindV::Fixed(TokenKind::LBrace)
            | TokenKindV::Str(_) => match p_call_args(ts, i) {
                Err(d) => Err(d),
                Ok(((args, aspan), k)) => if ahead(ts, i, k) {
                    p_suffixes(
                        ts,
                        k,
                        ExprV {
                            kind: ExprKindV::Call { callee: Box::new(e), args },
                            span: join(e.span, aspan),
                        },
                    )
                } else {
                    Ok((e, k))
                },
            },
            _ => Ok((e, i)),
        }
    }
}

#[verifier::opaque]
pub open spec fn p_atom(ts: Seq<TokenV>, i: int) -> Parsed<ExprV>
    decreases ts.len() - i, 0int,
{
    let span = ts[i].span;
    match ts[i].kind {
        TokenKindV::Name(n) => Ok((ExprV { kind: ExprKindV::Name(n), span }, i + 1)),
        TokenKindV::Fixed(TokenKind::LParen) if 0 <= i && i + 1 < ts.len() => match p_expr_bp(
            ts,
            i + 1,
            0,
        ) {
            Err(d) => Err(d),
            Ok((inner, j)) => match p_expect(ts, j, TokenKind::RParen) {
                Err(d) => Err(d),
                Ok((close, k)) => Ok(
                    (
                        ExprV {
                            kind: ExprKindV::Paren(Box::new(inner)),
                            span: join(span, close),
                        },
                        k,
                    ),
                ),
            },
        },
        other => Err(
            error_at("E0207"@, "expected a name or `(`, found "@ + describe_of(other), span),
        ),
    }
}

/// Call arguments in any of the three forms `(a, b)`, `{table}` and `"str"`, with the span
/// of the argument list.
#[verifier::opaque]
pub open spec fn p_call_args(ts: Seq<TokenV>, i: int) -> Parsed<(Seq<ExprV>, Span)>
    decreases ts.len() - i, 1int,
{
    let span = ts[i].span;
    match ts[i].kind {
        TokenKindV::Fixed(TokenKind::LParen) if 0 <= i && i + 1 < ts.len() => {
            let list = if is_at(ts, i + 1, TokenKind::RParen) {
                Ok((Seq::empty(), i + 1))
            } else {
                p_expr_list(ts, i + 1)
            };
            match list {
                Err(d) => Err(d),
                Ok((args, j)) => match p_expect(ts, j, TokenKind::RParen) {
                    Err(d) => Err(d),
                    Ok((close, k)) => Ok(((args, join(span, close)), k)),
                },
            }
        },
        TokenKindV::Fixed(TokenKind::LBrace) => match p_table(ts, i) {
            Err(d) => Err(d),
            Ok(((fields, tspan), j)) => Ok(
                ((seq![ExprV { kind: ExprKindV::Table(fields), span: tspan }], tspan), j),
            ),
        },
        TokenKindV::Str(s) => Ok(((seq![ExprV { kind: ExprKindV::Str(s), span }], span), i + 1)),
        other => Err(
            error_at("E0208"@, "expected call arguments, found "@ + describe_of(other), span),
        ),
    }
}

#[verifier::opaque]
pub open spec fn p_expr_list(ts: Seq<TokenV>, i: int) -> Parsed<Seq<ExprV>>
    decreases ts.len() - i, 6int,
{
    match p_expr_bp(ts, i, 0) {
        Err(d) => Err(d),
        Ok((e, j)) => if 0 <= i && ahead(ts, i, j) {
            p_more_exprs(ts, j, seq![e])
        } else {
            Ok((seq![e], j))
        },
    }
}

/// `{ , expr }`
#[verifier::opaque]
pub open spec fn p_more_exprs(ts: Seq<TokenV>, i: int, acc: Seq<ExprV>) -> Parsed<Seq<ExprV>>
    decreases ts.len() - i, 0int,
{
    if i < 0 || i + 1 >= ts.len() || !is_at(ts, i, TokenKind::Comma) {
        Ok((acc, i))
    } else {
        match p_expr_bp(ts, i + 1, 0) {
            Err(d) => Err(d),
            Ok((e, j)) => if ahead(ts, i, j) {
                p_more_exprs(ts, j, acc.push(e))
            } else {
                Ok((acc, j))
            },
        }
    }
}

/// `{ field, field; field }`: the fields and the span of the whole table.
#[verifier::opaque]
pub open spec fn p_table(ts: Seq<TokenV>, i: int) -> Parsed<(Seq<FieldV>, Span)>
    decreases ts.len() - i, 0int,
{
    match p_expect(ts, i, TokenKind::LBrace) {
        Err(d) => Err(d),
        Ok((open, j)) => if 0 <= i && ahead(ts, i, j) {
            match p_fields(ts, j, Seq::empty()) {
                Err(d) => Err(d),
                Ok((fields, k)) => match p_expect(ts, k, TokenKind::RBrace) {
                    Err(d) => Err(d),
                    Ok((close, l)) => Ok(((fields, join(open, close)), l)),
                },
            }
        } else {
            Ok(((Seq::empty(), open), j))
        },
    }
}

/// Fields with their separators, up to the closing brace.
#[verifier::opaque]
pub open spec fn p_fields(ts: Seq<TokenV>, i: int, acc: Seq<FieldV>) -> Parsed<Seq<FieldV>>
    decreases ts.len() - i, 7int,
{
    if i < 0 || i >= ts.len() || is_at(ts, i, TokenKind::RBrace) || is_at(ts, i, TokenKind::Eof) {
        Ok((acc, i))
    } else {
        match p_field(ts, i) {
            Err(d) => Err(d),
            Ok((f, j)) => if is_at(ts, j, TokenKind::Comma) || is_at(ts, j, TokenKind::Semi) {
                if ahead(ts, i, j + 1) {
                    p_fields(ts, j + 1, acc.push(f))
                } else {
                    Ok((acc, j))
                }
            } else {
                Ok((acc.push(f), j))
            },
        }
    }
}

#[verifier::opaque]
pub open spec fn p_field(ts: Seq<TokenV>, i: int) -> Parsed<FieldV>
    decreases ts.len() - i, 6int,
{
    if 0 <= i && i + 1 < ts.len() && is_at(ts, i, TokenKind::LBracket) {
        match p_expr_bp(ts, i + 1, 0) {
            Err(d) => Err(d),
            Ok((key, j)) => match p_expect(ts, j, TokenKind::RBracket) {
                Err(d) => Err(d),
                Ok((_, k)) => match p_expect(ts, k, TokenKind::Assign) {
                    Err(d) => Err(d),
                    Ok((_, l)) => if ahead(ts, i, l) {
                        match p_expr_bp(ts, l, 0) {
                            Err(d) => Err(d),
                            Ok((value, m)) => Ok((FieldV::Keyed { key, value }, m)),
                        }
                    } else {
                        Ok((FieldV::Positional(key), l))
                    },
                },
            },
        }
    } else if 0 <= i && i + 2 < ts.len() && ts[i].kind is Name && is_at(
        ts,
        i + 1,
        TokenKind::Assign,
    ) {
        match p_expr_bp(ts, i + 2, 0) {
            Err(d) => Err(d),
            Ok((value, m)) => Ok(
                (
                    FieldV::Named {
                        name: IdentV { node: ts[i].kind->Name_0, span: ts[i].span },
                        value,
                    },
                    m,
                ),
            ),
        }
    } else {
        match p_expr_bp(ts, i, 0) {
            Err(d) => Err(d),
            Ok((value, m)) => Ok((FieldV::Positional(value), m)),
        }
    }
}

/// Parameters, body and `end` of a function.
#[verifier::opaque]
pub open spec fn p_func_body(ts: Seq<TokenV>, i: int) -> Parsed<FuncBodyV>
    decreases ts.len() - i, 0int,
{
    match p_expect(ts, i, TokenKind::LParen) {
        Err(d) => Err(d),
        Ok((open, j)) => {
            let params = if is_at(ts, j, TokenKind::RParen) {
                Ok((Seq::empty(), j))
            } else {
                p_params(ts, j, Seq::empty())
            };
            match params {
                Err(d) => Err(d),
                Ok((params, k)) => match p_expect(ts, k, TokenKind::RParen) {
                    Err(d) => Err(d),
                    Ok((_, l)) => if 0 <= i && ahead(ts, i, l) {
                        match p_block(ts, l) {
                            Err(d) => Err(d),
                            Ok((block, m)) => match p_expect(ts, m, TokenKind::End) {
                                Err(d) => Err(d),
                                Ok((end, n)) => Ok(
                                    (FuncBodyV { params, block, span: join(open, end) }, n),
                                ),
                            },
                        }
                    } else {
                        p_dead_end(ts, i)
                    },
                },
            }
        },
    }
}

/// The result at a position that no stream ending in `Eof` leads to.
pub open spec fn p_dead_end<T>(ts: Seq<TokenV>, i: int) -> Parsed<T> {
    Err(error_at("E0100"@, ""@, ts[i].span))
}

/// Whether the token at `i` ends a block.
pub open spec fn ends_block(ts: Seq<TokenV>, i: int) -> bool {
    is_at(ts, i, TokenKind::End) || is_at(ts, i, TokenKind::Else) || is_at(
        ts,
        i,
        TokenKind::Elseif,
    ) || is_at(ts, i, TokenKind::Eof)
}

/// Statements up to a block terminator, and an optional trailing `return`.
#[verifier::opaque]
pub open spec fn p_block(ts: Seq<TokenV>, i: int) -> Parsed<BlockV>
    decreases ts.len() - i, 10int,
{
    match p_stats(ts, i, Seq::empty()) {
        Err(d) => Err(d),
        Ok(((stats, ret), j)) => Ok(
            (BlockV { stats, ret, span: join(ts[i].span, ts[j].span) }, j),
        ),
    }
}

#[verifier::opaque]
pub open spec fn p_stats(ts: Seq<TokenV>, i: int, acc: Seq<StatV>) -> Parsed<
    (Seq<StatV>, Option<RetStatV>),
>
    decreases ts.len() - i, 9int,
{
    if i < 0 || i >= ts.len() || ends_block(ts, i) {
        Ok(((acc, None), i))
    } else if is_at(ts, i, TokenKind::Until) {
        Err(
            error_at(
                "E0201"@,
                "`repeat ... until` loops are not supported in Grindlang; use `while`"@,
                ts[i].span,
            ),
        )
    } else if is_at(ts, i, TokenKind::Return) {
        match p_ret(ts, i) {
            Err(d) => Err(d),
            Ok((r, j)) => Ok(((acc, Some(r)), j)),
        }
    } else {
        match p_stat(ts, i) {
            Err(d) => Err(d),
            Ok((s, j)) => if ahead(ts, i, j) {
                p_stats(
                    ts,
                    j,
                    if s.kind is Empty {
                        acc
                    } else {
                        acc.push(s)
                    },
                )
            } else {
                p_dead_end(ts, i)
            },
        }
    }
}

#[verifier::opaque]
pub open spec fn p_ret(ts: Seq<TokenV>, i: int) -> Parsed<RetStatV>
    decreases ts.len() - i, 0int,
{
    match p_expect(ts, i, TokenKind::Return) {
        Err(d) => Err(d),
        Ok((kw, j)) => if ends_block(ts, j) || is_at(ts, j, TokenKind::Semi) {
            Ok((RetStatV { exprs: Seq::empty(), span: kw }, eat(ts, j, TokenKind::Semi)))
        } else if 0 <= i && ahead(ts, i, j) {
            match p_expr_list(ts, j) {
                Err(d) => Err(d),
                Ok((exprs, k)) => Ok(
                    (
                        RetStatV { exprs, span: join(kw, exprs.last().span) },
                        eat(ts, k, TokenKind::Semi),
                    ),
                ),
            }
        } else {
            p_dead_end(ts, i)
        },
    }
}

#[verifier::opaque]
pub open spec fn p_stat(ts: Seq<TokenV>, i: int) -> Parsed<StatV>
    decreases ts.len() - i, 8int,
{
    let span = ts[i].span;
    match ts[i].kind {
        TokenKindV::Fixed(TokenKind::Semi) => Ok((StatV { kind: StatKindV::Empty, span }, i + 1)),
        TokenKindV::Fixed(TokenKind::Local) => p_local(ts, i),
        TokenKindV::Fixed(TokenKind::Do) => if 0 <= i && i + 1 < ts.len() {
            match p_block(ts, i + 1) {
                Err(d) => Err(d),
                Ok((block, j)) => match p_expect(ts, j, TokenKind::End) {
                    Err(d) => Err(d),
                    Ok((end, k)) => Ok(
                        (StatV { kind: StatKindV::Do(block), span: join(span, end) }, k),
                    ),
                },
            }
        } else {
            p_dead_end(ts, i)
        },
        TokenKindV::Fixed(TokenKind::While) => p_while(ts, i),
        TokenKindV::Fixed(TokenKind::If) => p_if(ts, i),
        TokenKindV::Fixed(TokenKind::For) => p_for(ts, i),
        TokenKindV::Fixed(TokenKind::Break) => Ok(
            (StatV { kind: StatKindV::Break, span }, i + 1),
        ),
        TokenKindV::Fixed(TokenKind::Repeat) => Err(
            error_at(
                "E0201"@,
                "`repeat ... until` loops are not supported in Grindlang; use `while`"@,
                span,
            ),
        ),
        TokenKindV::Fixed(TokenKind::DoubleColon) => Err(
            error_at(
                "E0202"@,
                "labels (`::name::`) and `goto` are not supported in Grindlang"@,
                span,
            ),
        ),
        _ => p_expr_stat(ts, i),
    }
}

#[verifier::opaque]
pub open spec fn p_local(ts: Seq<TokenV>, i: int) -> Parsed<StatV>
    decreases ts.len() - i, 0int,
{
    let kw = ts[i].span;
    if is_at(ts, i + 1, TokenKind::Function) {
        match p_name(ts, i + 2) {
            Err(d) => Err(d),
            Ok((name, j)) => if 0 <= i && ahead(ts, i, j) {
                match p_func_body(ts, j) {
                    Err(d) => Err(d),
                    Ok((body, k)) => Ok(
                        (
                            StatV {
                                kind: StatKindV::LocalFunction { name, body },
                                span: join(kw, body.span),
                            },
                            k,
                        ),
                    ),
                }
            } else {
                p_dead_end(ts, i)
            },
        }
    } else {
        match p_name(ts, i + 1) {
            Err(d) => Err(d),
            Ok((first, j)) => match p_more_names(ts, j, seq![first]) {
                Err(d) => Err(d),
                Ok((names, k)) => if is_at(ts, k, TokenKind::Assign) {
                    if 0 <= i && ahead(ts, i, k + 1) {
                        match p_expr_list(ts, k + 1) {
                            Err(d) => Err(d),
                            Ok((exprs, l)) => Ok(
                                (
                                    StatV {
                                        kind: StatKindV::Local { names, exprs },
                                        span: join(kw, exprs.last().span),
                                    },
                                    l,
                                ),
                            ),
                        }
                    } else {
                        p_dead_end(ts, i)
                    }
                } else {
                    Ok(
                        (
                            StatV {
                                kind: StatKindV::Local { names, exprs: Seq::empty() },
                                span: join(kw, names.last().span),
                            },
                            k,
                        ),
                    )
                },
            },
        }
    }
}

#[verifier::opaque]
pub open spec fn p_while(ts: Seq<TokenV>, i: int) -> Parsed<StatV>
    decreases ts.len() - i, 0int,
{
    if i < 0 || i + 1 >= ts.len() {
        p_dead_end(ts, i)
    } else {
        match p_expr_bp(ts, i + 1, 0) {
            Err(d) => Err(d),
            Ok((cond, j)) => match p_expect(ts, j, TokenKind::Do) {
                Err(d) => Err(d),
                Ok((_, k)) => if ahead(ts, i, k) {
                    match p_block(ts, k) {
                        Err(d) => Err(d),
                        Ok((body, l)) => match p_expect(ts, l, TokenKind::End) {
                            Err(d) => Err(d),
                            Ok((end, m)) => Ok(
                                (
                                    StatV {
                                        kind: StatKindV::While { cond, body },
                                        span: join(ts[i].span, end),
                                    },
                                    m,
                                ),
                            ),
                        },
                    }
                } else {
                    p_dead_end(ts, i)
                },
            },
        }
    }
}

/// A condition, `then` and a block, from `i` on.
#[verifier::opaque]
pub open spec fn p_arm(ts: Seq<TokenV>, i: int) -> Parsed<(ExprV, BlockV)>
    decreases ts.len() - i, 11int,
{
    match p_expr_bp(ts, i, 0) {
        Err(d) => Err(d),
        Ok((cond, j)) => match p_expect(ts, j, TokenKind::Then) {
            Err(d) => Err(d),
            Ok((_, k)) => if 0 <= i && ahead(ts, i, k) {
                match p_block(ts, k) {
                    Err(d) => Err(d),
                    Ok((body, l)) => Ok(((cond, body), l)),
                }
            } else {
                p_dead_end(ts, i)
            },
        },
    }
}

/// `{ elseif cond then block }`
#[verifier::opaque]
pub open spec fn p_elseifs(ts: Seq<TokenV>, i: int, acc: Seq<(ExprV, BlockV)>) -> Parsed<
    Seq<(ExprV, BlockV)>,
>
    decreases ts.len() - i, 0int,
{
    if i < 0 || i + 1 >= ts.len() || !is_at(ts, i, TokenKind::Elseif) {
        Ok((acc, i))
    } else {
        match p_arm(ts, i + 1) {
            Err(d) => Err(d),
            Ok((arm, j)) => if ahead(ts, i, j) {
                p_elseifs(ts, j, acc.push(arm))
            } else {
                p_dead_end(ts, i)
            },
        }
    }
}

/// An optional `else` block.
#[verifier::opaque]
pub open spec fn p_else(ts: Seq<TokenV>, i: int) -> Parsed<Option<BlockV>>
    decreases ts.len() - i, 0int,
{
    if i < 0 || i + 1 >= ts.len() || !is_at(ts, i, TokenKind::Else) {
        Ok((None, i))
    } else {
        match p_block(ts, i + 1) {
            Err(d) => Err(d),
            Ok((b, j)) => Ok((Some(b), j)),
        }
    }
}

#[verifier::opaque]
pub open spec fn p_if(ts: Seq<TokenV>, i: int) -> Parsed<StatV>
    decreases ts.len() - i, 0int,
{
    if i < 0 || i + 1 >= ts.len() {
        p_dead_end(ts, i)
    } else {
        match p_arm(ts, i + 1) {
            Err(d) => Err(d),
            Ok((first, j)) => if ahead(ts, i, j) {
                match p_elseifs(ts, j, seq![first]) {
                    Err(d) => Err(d),
                    Ok((arms, k)) => if ahead(ts, i, k) {
                        match p_else(ts, k) {
                            Err(d) => Err(d),
                            Ok((else_block, l)) => match p_expect(ts, l, TokenKind::End) {
                                Err(d) => Err(d),
                                Ok((end, m)) => Ok(
                                    (
                                        StatV {
                                            kind: StatKindV::If { arms, else_block },
                                            span: join(ts[i].span, end),
                                        },
                                        m,
                                    ),
                                ),
                            },
                        }
                    } else {
                        p_dead_end(ts, i)
                    },
                }
            } else {
                p_dead_end(ts, i)
            },
        }
    }
}

/// `do block end`: the block, and the span of the `end`.
#[verifier::opaque]
pub open spec fn p_do_body(ts: Seq<TokenV>, i: int) -> Parsed<(BlockV, Span)>
    decreases ts.len() - i, 0int,
{
    match p_expect(ts, i, TokenKind::Do) {
        Err(d) => Err(d),
        Ok((_, j)) => if 0 <= i && ahead(ts, i, j) {
            match p_block(ts, j) {
                Err(d) => Err(d),
                Ok((body, k)) => match p_expect(ts, k, TokenKind::End) {
                    Err(d) => Err(d),
                    Ok((end, l)) => Ok(((body, end), l)),
                },
            }
        } else {
            p_dead_end(ts, i)
        },
    }
}

/// An optional `, expr`.
#[verifier::opaque]
pub open spec fn p_step(ts: Seq<TokenV>, i: int) -> Parsed<Option<ExprV>>
    decreases ts.len() - i, 0int,
{
    if i < 0 || i + 1 >= ts.len() || !is_at(ts, i, TokenKind::Comma) {
        Ok((None, i))
    } else {
        match p_expr_bp(ts, i + 1, 0) {
            Err(d) => Err(d),
            Ok((e, j)) => Ok((Some(e), j)),
        }
    }
}

#[verifier::opaque]
pub open spec fn p_for(ts: Seq<TokenV>, i: int) -> Parsed<StatV>
    decreases ts.len() - i, 0int,
{
    let kw = ts[i].span;
    match p_name(ts, i + 1) {
        Err(d) => Err(d),
        Ok((first, j)) => if i < 0 || !ahead(ts, i, j) {
            p_dead_end(ts, i)
        } else if is_at(ts, j, TokenKind::Assign) {
            p_numeric_for(ts, j, kw, first)
        } else {
            p_generic_for(ts, j, kw, first)
        },
    }
}

/// The rest of a numeric `for` from its `=` on.
#[verifier::opaque]
pub open spec fn p_numeric_for(ts: Seq<TokenV>, i: int, kw: Span, var: IdentV) -> Parsed<StatV>
    decreases ts.len() - i, 0int,
{
    if i < 0 || i + 1 >= ts.len() {
        p_dead_end(ts, i)
    } else {
        match p_expr_bp(ts, i + 1, 0) {
            Err(d) => Err(d),
            Ok((start, j)) => match p_expect(ts, j, TokenKind::Comma) {
                Err(d) => Err(d),
                Ok((_, k)) => if ahead(ts, i, k) {
                    match p_expr_bp(ts, k, 0) {
                        Err(d) => Err(d),
                        Ok((end, l)) => if ahead(ts, i, l) {
                            match p_step(ts, l) {
                                Err(d) => Err(d),
                                Ok((step, m)) => if ahead(ts, i, m) {
                                    match p_do_body(ts, m) {
                                        Err(d) => Err(d),
                                        Ok(((body, endt), n)) => Ok(
                                            (
                                                StatV {
                                                    kind: StatKindV::NumericFor {
                                                        var,
                                                        start,
                                                        end,
                                                        step,
                                                        body,
                                                    },
                                                    span: join(kw, endt),
                                                },
                                                n,
                                            ),
                                        ),
                                    }
                                } else {
                                    p_dead_end(ts, i)
                                },
                            }
                        } else {
                            p_dead_end(ts, i)
                        },
                    }
                } else {
                    p_dead_end(ts, i)
                },
            },
        }
    }
}

/// The rest of a generic `for` after its first name.
#[verifier::opaque]
pub open spec fn p_generic_for(ts: Seq<TokenV>, i: int, kw: Span, first: IdentV) -> Parsed<StatV>
    decreases ts.len() - i, 12int,
{
    match p_more_names(ts, i, seq![first]) {
        Err(d) => Err(d),
        Ok((names, j)) => match p_expect(ts, j, TokenKind::In) {
            Err(d) => Err(d),
            Ok((_, k)) => if 0 <= i && ahead(ts, i, k) {
                match p_iter(ts, k) {
                    Err(d) => Err(d),
                    Ok((iter, l)) => if ahead(ts, i, l) {
                        match p_do_body(ts, l) {
                            Err(d) => Err(d),
                            Ok(((body, endt), m)) => Ok(
                                (
                                    StatV {
                                        kind: StatKindV::GenericFor { names, iter, body },
                                        span: join(kw, endt),
                                    },
                                    m,
                                ),
                            ),
                        }
                    } else {
                        p_dead_end(ts, i)
                    },
                }
            } else {
                p_dead_end(ts, i)
            },
        },
    }
}

/// A generic-for iterator: `ipairs(e)` or `pairs(e)` only.
#[verifier::opaque]
pub open spec fn p_iter(ts: Seq<TokenV>, i: int) -> Parsed<IterExprV>
    decreases ts.len() - i, 0int,
{
    let span0 = ts[i].span;
    match ts[i].kind {
        TokenKindV::Name(n) => if n == "ipairs"@ || n == "pairs"@ {
            match p_expect(ts, i + 1, TokenKind::LParen) {
                Err(d) => Err(d),
                Ok((_, j)) => if 0 <= i && ahead(ts, i, j) {
                    match p_expr_bp(ts, j, 0) {
                        Err(d) => Err(d),
                        Ok((arg, k)) => match p_expect(ts, k, TokenKind::RParen) {
                            Err(d) => Err(d),
                            Ok((close, l)) => if n == "ipairs"@ {
                                Ok((IterExprV::IPairs { arg, span: join(span0, close) }, l))
                            } else {
                                Ok((IterExprV::Pairs { arg, span: join(span0, close) }, l))
                            },
                        },
                    }
                } else {
                    p_dead_end(ts, i)
                },
            }
        } else {
            Err(
                error_at(
                    "E0203"@,
                    "generic `for` may only iterate with `ipairs(...)` or `pairs(...)`"@,
                    span0,
                ),
            )
        },
        other => Err(
            error_at(
                "E0203"@,
                "generic `for` may only iterate with `ipairs(...)` or `pairs(...)`, found "@
                    + describe_of(other),
                span0,
            ),
        ),
    }
}

/// Whether an expression is a legal assignment target: a name, field access or index.
pub open spec fn assignable(e: ExprV) -> bool {
    e.kind is Name || e.kind is Field || e.kind is Index
}

/// The first of `targets` from `i` on that cannot be assigned to.
pub open spec fn bad_target(targets: Seq<ExprV>, i: int) -> Option<ExprV>
    decreases targets.len() - i,
{
    if i < 0 || i >= targets.len() {
        None
    } else if !assignable(targets[i]) {
        Some(targets[i])
    } else {
        bad_target(targets, i + 1)
    }
}

/// `{ , suffixed }`
#[verifier::opaque]
pub open spec fn p_targets(ts: Seq<TokenV>, i: int, acc: Seq<ExprV>) -> Parsed<Seq<ExprV>>
    decreases ts.len() - i, 0int,
{
    if i < 0 || i + 1 >= ts.len() || !is_at(ts, i, TokenKind::Comma) {
        Ok((acc, i))
    } else {
        match p_suffixed(ts, i + 1) {
            Err(d) => Err(d),
            Ok((e, j)) => if ahead(ts, i, j) {
                p_targets(ts, j, acc.push(e))
            } else {
                p_dead_end(ts, i)
            },
        }
    }
}

/// The rest of an assignment after its first target.
#[verifier::opaque]
pub open spec fn p_assign(ts: Seq<TokenV>, i: int, first: ExprV) -> Parsed<StatV>
    decreases ts.len() - i, 1int,
{
    match p_targets(ts, i, seq![first]) {
        Err(d) => Err(d),
        Ok((targets, j)) => match bad_target(targets, 0) {
            Some(t) => Err(
                error_at(
                    "E0204"@,
                    "cannot assign to this expression; assignment targets must be a name, field access, or index"@,
                    t.span,
                ),
            ),
            None => match p_expect(ts, j, TokenKind::Assign) {
                Err(d) => Err(d),
                Ok((_, k)) => if 0 <= i && ahead(ts, i, k) {
                    match p_expr_list(ts, k) {
                        Err(d) => Err(d),
                        Ok((exprs, l)) => Ok(
                            (
                                StatV {
                                    kind: StatKindV::Assign { targets, exprs },
                                    span: join(targets[0].span, exprs.last().span),
                                },
                                l,
                            ),
                        ),
                    }
                } else {
                    p_dead_end(ts, i)
                },
            },
        },
    }
}

/// A statement that begins with an expression: an assignment or a call.
#[verifier::opaque]
pub open spec fn p_expr_stat(ts: Seq<TokenV>, i: int) -> Parsed<StatV>
    decreases ts.len() - i, 7int,
{
    match p_suffixed(ts, i) {
        Err(d) => Err(d),
        Ok((first, j)) => if i < 0 || !ahead(ts, i, j) {
            p_dead_end(ts, i)
        } else if is_at(ts, j, TokenKind::Assign) || is_at(ts, j, TokenKind::Comma) {
            p_assign(ts, j, first)
        } else if first.kind is Call || first.kind is MethodCall {
            Ok((StatV { kind: StatKindV::Call(first), span: first.span }, j))
        } else {
            Err(
                error_at(
                    "E0205"@,
                    "this expression is not a statement; only function calls and assignments may appear as statements"@,
                    first.span,
                ),
            )
        },
    }
}

#[verifier::opaque]
pub open spec fn p_func_decl(ts: Seq<TokenV>, i: int) -> Parsed<FuncDeclV> {
    match p_name(ts, i + 1) {
        Err(d) => Err(d),
        Ok((name, j)) => match p_func_body(ts, j) {
            Err(d) => Err(d),
            Ok((body, k)) => Ok(
                (FuncDeclV { name, body, span: join(ts[i].span, body.span) }, k),
            ),
        },
    }
}

#[verifier::opaque]
pub open spec fn p_const_decl(ts: Seq<TokenV>, i: int) -> Parsed<ConstDeclV> {
    match p_name(ts, i) {
        Err(d) => Err(d),
        Ok((name, j)) => match p_expect(ts, j, TokenKind::Assign) {
            Err(d) => Err(d),
            Ok((_, k)) => match p_expr_bp(ts, k, 0) {
                Err(d) => Err(d),
                Ok((value, l)) => Ok(
                    (ConstDeclV { name, value, span: join(name.span, value.span) }, l),
                ),
            },
        },
    }
}

#[verifier::opaque]
pub open spec fn p_export(ts: Seq<TokenV>, i: int) -> Parsed<ExportV> {
    if !is_at(ts, i + 1, TokenKind::LBrace) {
        Err(
            error_at(
                "E0106"@,
                "a module's `return` must be a table constructor `{ ... }` of exports"@,
                ts[i + 1].span,
            ),
        )
    } else {
        match p_table(ts, i + 1) {
            Err(d) => Err(d),
            Ok(((fields, tspan), j)) => Ok(
                (
                    ExportV { node: fields, span: join(ts[i].span, tspan) },
                    eat(ts, j, TokenKind::Semi),
                ),
            ),
        }
    }
}

/// The declarations and export table from `i` on, up to the end of the stream.
#[verifier::opaque]
pub open spec fn p_decls(ts: Seq<TokenV>, i: int, acc: Seq<TopDeclV>) -> Parsed<
    (Seq<TopDeclV>, Option<ExportV>),
>
    decreases ts.len() - i,
{
    let span = ts[i].span;
    if i < 0 || i >= ts.len() {
        p_dead_end(ts, i)
    } else {
        match ts[i].kind {
            TokenKindV::Fixed(TokenKind::Eof) => Ok(((acc, None), i)),
            TokenKindV::Fixed(TokenKind::Function) => match p_func_decl(ts, i) {
                Err(d) => Err(d),
                Ok((f, j)) => if ahead(ts, i, j) {
                    p_decls(ts, j, acc.push(TopDeclV::Function(f)))
                } else {
                    p_dead_end(ts, i)
                },
            },
            TokenKindV::Name(_) => if is_at(ts, i + 1, TokenKind::Assign) {
                match p_const_decl(ts, i) {
                    Err(d) => Err(d),
                    Ok((c, j)) => if ahead(ts, i, j) {
                        p_decls(ts, j, acc.push(TopDeclV::Const(c)))
                    } else {
                        p_dead_end(ts, i)
                    },
                }
            } else {
                Err(
                    error_at(
                        "E0104"@,
                        "unexpected statement at module top level; the top level may only contain `function` declarations, `name = <const>` declarations, and an optional trailing `return { ... }`"@,
                        span,
                    ),
                )
            },
            TokenKindV::Fixed(TokenKind::Return) => match p_export(ts, i) {
                Err(d) => Err(d),
                Ok((e, j)) => if is_at(ts, j, TokenKind::Eof) {
                    Ok(((acc, Some(e)), j))
                } else {
                    Err(
                        error_at(
                            "E0102"@,
                            "the `return` export table must be the last item in a module"@,
                            ts[j].span,
                        ),
                    )
                },
            },
            TokenKindV::Fixed(TokenKind::Local) => Err(
                error_at(
                    "E0103"@,
                    "top-level `local` variables are not allowed in Grindlang; declare module functions/constants at the top level and keep mutable locals inside function bodies"@,
                    span,
                ),
            ),
            other => Err(
                error_at(
                    "E0105"@,
                    "unexpected "@ + describe_of(other)
                        + " at module top level; expected a `function` or `name = <const>` declaration"@,
                    span,
                ),
            ),
        }
    }
}

/// The module that a token stream spells, or the first problem in it.
pub open spec fn parse_of(ts: Seq<TokenV>) -> Result<ModuleV, DiagnosticV> {
    match p_decls(ts, 0, Seq::empty()) {
        Err(d) => Err(d),
        Ok(((decls, export), j)) => Ok(
            ModuleV { decls, export, span: join(ts[0].span, ts[j].span) },
        ),
    }
}

pub proof fn unfold_p_more_names(ts: Seq<TokenV>, i: int, acc: Seq<IdentV>)
    ensures
        p_more_names(ts, i, acc) == ({
            if i < 0 || i + 1 >= ts.len() || !is_at(ts, i, TokenKind::Comma) {
                Ok((acc, i))
            } else {
                match p_name(ts, i + 1) {
                    Err(d) => Err(d),
                    Ok((n, j)) => p_more_names(ts, i + 2, acc.push(n)),
                }
            }
        }),
{
    reveal(p_more_names);
}

pub proof fn unfold_p_params(ts: Seq<TokenV>, i: int, acc: Seq<IdentV>)
    ensures
        p_params(ts, i, acc) == ({
            if i < 0 || i >= ts.len() || is_at(ts, i, TokenKind::Ellipsis) {
                Err(
                    error_at("E0200"@, "varargs `...` are not supported in Grindlang"@, ts[i].span),
                )
            } else {
                match p_name(ts, i) {
                    Err(d) => Err(d),
                    Ok((n, j)) => if is_at(ts, i + 1, TokenKind::Comma) && i + 2 < ts.len() {
                        p_params(ts, i + 2, acc.push(n))
                    } else {
                        Ok((acc.push(n), i + 1))
                    },
                }
            }
        }),
{
    reveal(p_params);
}

pub proof fn unfold_p_expr_bp(ts: Seq<TokenV>, i: int, min_bp: int)
    ensures
        p_expr_bp(ts, i, min_bp) == ({
            if i < 0 || i >= ts.len() {
                p_atom(ts, i)
            } else {
                match unary_op_of(ts[i].kind) {
                    Some(op) => if i + 1 >= ts.len() {
                        p_atom(ts, i)
                    } else {
                        match p_expr_bp(ts, i + 1, UNARY_BP as int) {
                            Err(d) => Err(d),
                            Ok((e, j)) => if ahead(ts, i, j) {
                                p_infix(
                                    ts,
                                    j,
                                    ExprV {
                                        kind: ExprKindV::Unary { op, operand: Box::new(e) },
                                        span: join(ts[i].span, e.span),
                                    },
                                    min_bp,
                                )
                            } else {
                                Ok((e, j))
                            },
                        }
                    },
                    None => match p_primary(ts, i) {
                        Err(d) => Err(d),
                        Ok((e, j)) => if ahead(ts, i, j) {
                            p_infix(ts, j, e, min_bp)
                        } else {
                            Ok((e, j))
                        },
                    },
                }
            }
        }),
{
    reveal(p_expr_bp);
    reveal(unary_op_of);
    reveal(p_infix);
    reveal(p_primary);
    reveal(p_atom);
}

pub proof fn unfold_p_infix(ts: Seq<TokenV>, i: int, lhs: ExprV, min_bp: int)
    ensures
        p_infix(ts, i, lhs, min_bp) == ({
            if i < 0 || i + 1 >= ts.len() {
                Ok((lhs, i))
            } else {
                match binary_op_of(ts[i].kind) {
                    None => Ok((lhs, i)),
                    Some(op) => if left_bp(op) < min_bp {
                        Ok((lhs, i))
                    } else {
                        match p_expr_bp(ts, i + 1, right_bp(op)) {
                            Err(d) => Err(d),
                            Ok((rhs, j)) => if ahead(ts, i, j) {
                                p_infix(
                                    ts,
                                    j,
                                    ExprV {
                                        kind: ExprKindV::Binary {
                                            op,
                                            lhs: Box::new(lhs),
                                            rhs: Box::new(rhs),
                                        },
                                        span: join(lhs.span, rhs.span),
                                    },
                                    min_bp,
                                )
                            } else {
                                Ok((rhs, j))
                            },
                        }
                    },
                }
            }
        }),
{
    reveal(p_infix);
    reveal(binary_op_of);
    reveal(left_bp);
    reveal(right_bp);
    reveal(p_expr_bp);
}

pub proof fn unfold_p_primary(ts: Seq<TokenV>, i: int)
    ensures
        p_primary(ts, i) == ({
            let span = ts[i].span;
            match ts[i].kind {
                TokenKindV::Fixed(TokenKind::Nil) => Ok((ExprV { kind: ExprKindV::Nil, span }, i + 1)),
                TokenKindV::Fixed(TokenKind::True) => Ok(
                    (ExprV { kind: ExprKindV::Bool(true), span }, i + 1),
                ),
                TokenKindV::Fixed(TokenKind::False) => Ok(
                    (ExprV { kind: ExprKindV::Bool(false), span }, i + 1),
                ),
                TokenKindV::Number(n) => Ok((ExprV { kind: ExprKindV::Number(n), span }, i + 1)),
                TokenKindV::Str(s) => Ok((ExprV { kind: ExprKindV::Str(s), span }, i + 1)),
                TokenKindV::Fixed(TokenKind::Ellipsis) => Err(
                    error_at("E0200"@, "varargs `...` are not supported in Grindlang"@, span),
                ),
                TokenKindV::Fixed(TokenKind::Function) => if 0 <= i && i + 1 < ts.len() {
                    match p_func_body(ts, i + 1) {
                        Err(d) => Err(d),
                        Ok((f, j)) => Ok(
                            (ExprV { kind: ExprKindV::Function(f), span: join(span, f.span) }, j),
                        ),
                    }
                } else {
                    p_atom(ts, i)
                },
                TokenKindV::Fixed(TokenKind::LBrace) => match p_table(ts, i) {
                    Err(d) => Err(d),
                    Ok(((fields, tspan), j)) => Ok(
                        (ExprV { kind: ExprKindV::Table(fields), span: tspan }, j),
                    ),
                },
                TokenKindV::Name(_) | TokenKindV::Fixed(TokenKind::LParen) => p_suffixed(ts, i),
                other => Err(
                    error_at("E0206"@, "expected an expression, found "@ + describe_of(other), span),
                ),
            }
        }),
{
    reveal(p_primary);
    reveal(p_suffixed);
    reveal(p_atom);
    reveal(p_table);
    reveal(p_func_body);
}

pub proof fn unfold_p_suffixed(ts: Seq<TokenV>, i: int)
    ensures
        p_suffixed(ts, i) == ({
            match p_atom(ts, i) {
                Err(d) => Err(d),
                Ok((e, j)) => if 0 <= i && ahead(ts, i, j) {
                    p_suffixes(ts, j, e)
                } else {
                    Ok((e, j))
                },
            }
        }),
{
    reveal(p_suffixed);
    reveal(p_suffixes);
    reveal(p_atom);
}

pub proof fn unfold_p_suffixes(ts: Seq<TokenV>, i: int, e: ExprV)
    ensures
        p_suffixes(ts, i, e) == ({
            if i < 0 || i + 1 >= ts.len() {
                Ok((e, i))
            } else {
                match ts[i].kind {
                    TokenKindV::Fixed(TokenKind::Dot) => match p_name(ts, i + 1) {
                        Err(d) => Err(d),
                        Ok((name, j)) => if ahead(ts, i, j) {
                            p_suffixes(
                                ts,
                                j,
                                ExprV {
                                    kind: ExprKindV::Field { base: Box::new(e), name },
                                    span: join(e.span, name.span),
                                },
                            )
                        } else {
                            Ok((e, j))
                        },
                    },
                    TokenKindV::Fixed(TokenKind::LBracket) => match p_expr_bp(ts, i + 1, 0) {
                        Err(d) => Err(d),
                        Ok((index, j)) => match p_expect(ts, j, TokenKind::RBracket) {
                            Err(d) => Err(d),
                            Ok((close, k)) => if ahead(ts, i, k) {
                                p_suffixes(
                                    ts,
                                    k,
                                    ExprV {
                                        kind: ExprKindV::Index {
                                            base: Box::new(e),
                                            index: Box::new(index),
                                        },
                                        span: join(e.span, close),
                                    },
                                )
                            } else {
                                Ok((e, k))
                            },
                        },
                    },
                    TokenKindV::Fixed(TokenKind::Colon) => match p_name(ts, i + 1) {
                        Err(d) => Err(d),
                        Ok((method, j)) => if ahead(ts, i, j) {
                            match p_call_args(ts, j) {
                                Err(d) => Err(d),
                                Ok(((args, aspan), k)) => if ahead(ts, i, k) {
                                    p_suffixes(
                                        ts,
                                        k,
                                        ExprV {
                                            kind: ExprKindV::MethodCall {
                                                receiver: Box::new(e),
                                                method,
                                                args,
                                            },
                                            span: join(e.span, aspan),
                                        },
                                    )
                                } else {
                                    Ok((e, k))
                                },
                            }
                        } else {
                            Ok((e, j))
                        },
                    },
                    TokenKindV::Fixed(TokenKind::LParen)
                    | TokenKindV::Fixed(TokenKind::LBrace)
                    | TokenKindV::Str(_) => match p_call_args(ts, i) {
                        Err(d) => Err(d),
                        Ok(((args, aspan), k)) => if ahead(ts, i, k) {
                            p_suffixes(
                                ts,
                                k,
                                ExprV {
                                    kind: ExprKindV::Call { callee: Box::new(e), args },
                                    span: join(e.span, aspan),
                                },
                            )
                        } else {
                            Ok((e, k))
                        },
                    },
                    _ => Ok((e, i)),
                }
            }
        }),
{
    reveal(p_suffixes);
    reveal(p_expr_bp);
    reveal(p_call_args);
}

pub proof fn unfold_p_atom(ts: Seq<TokenV>, i: int)
    ensures
        p_atom(ts, i) == ({
            let span = ts[i].span;
            match ts[i].kind {
                TokenKindV::Name(n) => Ok((ExprV { kind: ExprKindV::Name(n), span }, i + 1)),
                TokenKindV::Fixed(TokenKind::LParen) if 0 <= i && i + 1 < ts.len() => match p_expr_bp(
                    ts,
                    i + 1,
                    0,
                ) {
                    Err(d) => Err(d),
                    Ok((inner, j)) => match p_expect(ts, j, TokenKind::RParen) {
                        Err(d) => Err(d),
                        Ok((close, k)) => Ok(
                            (
                                ExprV {
                                    kind: ExprKindV::Paren(Box::new(inner)),
                                    span: join(span, close),
                                },
                                k,
                            ),
                        ),
                    },
                },
                other => Err(
                    error_at("E0207"@, "expected a name or `(`, found "@ + describe_of(other), span),
                ),
            }
        }),
{
    reveal(p_atom);
    reveal(p_expr_bp);
}

pub proof fn unfold_p_call_args(ts: Seq<TokenV>, i: int)
    ensures
        p_call_args(ts, i) == ({
            let span = ts[i].span;
            match ts[i].kind {
                TokenKindV::Fixed(TokenKind::LParen) if 0 <= i && i + 1 < ts.len() => {
                    let list = if is_at(ts, i + 1, TokenKind::RParen) {
                        Ok((Seq::empty(), i + 1))
                    } else {
                        p_expr_list(ts, i + 1)
                    };
                    match list {
                        Err(d) => Err(d),
                        Ok((args, j)) => match p_expect(ts, j, TokenKind::RParen) {
                            Err(d) => Err(d),
                            Ok((close, k)) => Ok(((args, join(span, close)), k)),
                        },
                    }
                },
                TokenKindV::Fixed(TokenKind::LBrace) => match p_table(ts, i) {
                    Err(d) => Err(d),
                    Ok(((fields, tspan), j)) => Ok(
                        ((seq![ExprV { kind: ExprKindV::Table(fields), span: tspan }], tspan), j),
                    ),
                },
                TokenKindV::Str(s) => Ok(((seq![ExprV { kind: ExprKindV::Str(s), span }], span), i + 1)),
                other => Err(
                    error_at("E0208"@, "expected call arguments, found "@ + describe_of(other), span),
                ),
            }
        }),
{
    reveal(p_call_args);
    reveal(p_expr_list);
    reveal(p_table);
}

pub proof fn unfold_p_expr_list(ts: Seq<TokenV>, i: int)
    ensures
        p_expr_list(ts, i) == ({
            match p_expr_bp(ts, i, 0) {
                Err(d) => Err(d),
                Ok((e, j)) => if 0 <= i && ahead(ts, i, j) {
                    p_more_exprs(ts, j, seq![e])
                } else {
                    Ok((seq![e], j))
                },
            }
        }),
{
    reveal(p_expr_list);
    reveal(p_expr_bp);
    reveal(p_more_exprs);
}

pub proof fn unfold_p_more_exprs(ts: Seq<TokenV>, i: int, acc: Seq<ExprV>)
    ensures
        p_more_exprs(ts, i, acc) == ({
            if i < 0 || i + 1 >= ts.len() || !is_at(ts, i, TokenKind::Comma) {
                Ok((acc, i))
            } else {
                match p_expr_bp(ts, i + 1, 0) {
                    Err(d) => Err(d),
                    Ok((e, j)) => if ahead(ts, i, j) {
                        p_more_exprs(ts, j, acc.push(e))
                    } else {
                        Ok((acc, j))
                    },
                }
            }
        }),
{
    reveal(p_more_exprs);
    reveal(p_expr_bp);
}

pub proof fn unfold_p_table(ts: Seq<TokenV>, i: int)
    ensures
        p_table(ts, i) == ({
            match p_expect(ts, i, TokenKind::LBrace) {
                Err(d) => Err(d),
                Ok((open, j)) => if 0 <= i && ahead(ts, i, j) {
                    match p_fields(ts, j, Seq::empty()) {
                        Err(d) => Err(d),
                        Ok((fields, k)) => match p_expect(ts, k, TokenKind::RBrace) {
                            Err(d) => Err(d),
                            Ok((close, l)) => Ok(((fields, join(open, close)), l)),
                        },
                    }
                } else {
                    Ok(((Seq::empty(), open), j))
                },
            }
        }),
{
    reveal(p_table);
    reveal(p_fields);
}

pub proof fn unfold_p_fields(ts: Seq<TokenV>, i: int, acc: Seq<FieldV>)
    ensures
        p_fields(ts, i, acc) == ({
            if i < 0 || i >= ts.len() || is_at(ts, i, TokenKind::RBrace) || is_at(ts, i, TokenKind::Eof) {
                Ok((acc, i))
            } else {
                match p_field(ts, i) {
                    Err(d) => Err(d),
                    Ok((f, j)) => if is_at(ts, j, TokenKind::Comma) || is_at(ts, j, TokenKind::Semi) {
                        if ahead(ts, i, j + 1) {
                            p_fields(ts, j + 1, acc.push(f))
                        } else {
                            Ok((acc, j))
                        }
                    } else {
                        Ok((acc.push(f), j))
                    },
                }
            }
        }),
{
    reveal(p_fields);
    reveal(p_field);
}

pub proof fn unfold_p_field(ts: Seq<TokenV>, i: int)
    ensures
        p_field(ts, i) == ({
            if 0 <= i && i + 1 < ts.len() && is_at(ts, i, TokenKind::LBracket) {
                match p_expr_bp(ts, i + 1, 0) {
                    Err(d) => Err(d),
                    Ok((key, j)) => match p_expect(ts, j, TokenKind::RBracket) {
                        Err(d) => Err(d),
                        Ok((_, k)) => match p_expect(ts, k, TokenKind::Assign) {
                            Err(d) => Err(d),
                            Ok((_, l)) => if ahead(ts, i, l) {
                                match p_expr_bp(ts, l, 0) {
                                    Err(d) => Err(d),
                                    Ok((value, m)) => Ok((FieldV::Keyed { key, value }, m)),
                                }
                            } else {
                                Ok((FieldV::Positional(key), l))
                            },
                        },
                    },
                }
            } else if 0 <= i && i + 2 < ts.len() && ts[i].kind is Name && is_at(
                ts,
                i + 1,
                TokenKind::Assign,
            ) {
                match p_expr_bp(ts, i + 2, 0) {
                    Err(d) => Err(d),
                    Ok((value, m)) => Ok(
                        (
                            FieldV::Named {
                                name: IdentV { node: ts[i].kind->Name_0, span: ts[i].span },
                                value,
                            },
                            m,
                        ),
                    ),
                }
            } else {
                match p_expr_bp(ts, i, 0) {
                    Err(d) => Err(d),
                    Ok((value, m)) => Ok((FieldV::Positional(value), m)),
                }
            }
        }),
{
    reveal(p_field);
    reveal(p_expr_bp);
}

pub proof fn unfold_p_func_body(ts: Seq<TokenV>, i: int)
    ensures
        p_func_body(ts, i) == ({
            match p_expect(ts, i, TokenKind::LParen) {
                Err(d) => Err(d),
                Ok((open, j)) => {
                    let params = if is_at(ts, j, TokenKind::RParen) {
                        Ok((Seq::empty(), j))
                    } else {
                        p_params(ts, j, Seq::empty())
                    };
                    match params {
                        Err(d) => Err(d),
                        Ok((params, k)) => match p_expect(ts, k, TokenKind::RParen) {
                            Err(d) => Err(d),
                            Ok((_, l)) => if 0 <= i && ahead(ts, i, l) {
                                match p_block(ts, l) {
                                    Err(d) => Err(d),
                                    Ok((block, m)) => match p_expect(ts, m, TokenKind::End) {
                                        Err(d) => Err(d),
                                        Ok((end, n)) => Ok(
                                            (FuncBodyV { params, block, span: join(open, end) }, n),
                                        ),
                                    },
                                }
                            } else {
                                p_dead_end(ts, i)
                            },
                        },
                    }
                },
            }
        }),
{
    reveal(p_func_body);
    reveal(p_params);
    reveal(p_block);
}

pub proof fn unfold_p_block(ts: Seq<TokenV>, i: int)
    ensures
        p_block(ts, i) == ({
            match p_stats(ts, i, Seq::empty()) {
                Err(d) => Err(d),
                Ok(((stats, ret), j)) => Ok(
                    (BlockV { stats, ret, span: join(ts[i].span, ts[j].span) }, j),
                ),
            }
        }),
{
    reveal(p_block);
    reveal(p_stats);
}

pub proof fn unfold_p_stats(ts: Seq<TokenV>, i: int, acc: Seq<StatV>)
    ensures
        p_stats(ts, i, acc) == ({
            if i < 0 || i >= ts.len() || ends_block(ts, i) {
                Ok(((acc, None), i))
            } else if is_at(ts, i, TokenKind::Until) {
                Err(
                    error_at(
                        "E0201"@,
                        "`repeat ... until` loops are not supported in Grindlang; use `while`"@,
                        ts[i].span,
                    ),
                )
            } else if is_at(ts, i, TokenKind::Return) {
                match p_ret(ts, i) {
                    Err(d) => Err(d),
                    Ok((r, j)) => Ok(((acc, Some(r)), j)),
                }
            } else {
                match p_stat(ts, i) {
                    Err(d) => Err(d),
                    Ok((s, j)) => if ahead(ts, i, j) {
                        p_stats(
                            ts,
                            j,
                            if s.kind is Empty {
                                acc
                            } else {
                                acc.push(s)
                            },
                        )
                    } else {
                        p_dead_end(ts, i)
                    },
                }
            }
        }),
{
    reveal(p_stats);
    reveal(p_ret);
    reveal(p_stat);
}

pub proof fn unfold_p_ret(ts: Seq<TokenV>, i: int)
    ensures
        p_ret(ts, i) == ({
            match p_expect(ts, i, TokenKind::Return) {
                Err(d) => Err(d),
                Ok((kw, j)) => if ends_block(ts, j) || is_at(ts, j, TokenKind::Semi) {
                    Ok((RetStatV { exprs: Seq::empty(), span: kw }, eat(ts, j, TokenKind::Semi)))
                } else if 0 <= i && ahead(ts, i, j) {
                    match p_expr_list(ts, j) {
                        Err(d) => Err(d),
                        Ok((exprs, k)) => Ok(
                            (
                                RetStatV { exprs, span: join(kw, exprs.last().span) },
                                eat(ts, k, TokenKind::Semi),
                            ),
                        ),
                    }
                } else {
                    p_dead_end(ts, i)
                },
            }
        }),
{
    reveal(p_ret);
    reveal(p_expr_list);
}

pub proof fn unfold_p_stat(ts: Seq<TokenV>, i: int)
    ensures
        p_stat(ts, i) == ({
            let span = ts[i].span;
            match ts[i].kind {
                TokenKindV::Fixed(TokenKind::Semi) => Ok((StatV { kind: StatKindV::Empty, span }, i + 1)),
                TokenKindV::Fixed(TokenKind::Local) => p_local(ts, i),
                TokenKindV::Fixed(TokenKind::Do) => if 0 <= i && i + 1 < ts.len() {
                    match p_block(ts, i + 1) {
                        Err(d) => Err(d),
                        Ok((block, j)) => match p_expect(ts, j, TokenKind::End) {
                            Err(d) => Err(d),
                            Ok((end, k)) => Ok(
                                (StatV { kind: StatKindV::Do(block), span: join(span, end) }, k),
                            ),
                        },
                    }
                } else {
                    p_dead_end(ts, i)
                },
                TokenKindV::Fixed(TokenKind::While) => p_while(ts, i),
                TokenKindV::Fixed(TokenKind::If) => p_if(ts, i),
                TokenKindV::Fixed(TokenKind::For) => p_for(ts, i),
                TokenKindV::Fixed(TokenKind::Break) => Ok(
                    (StatV { kind: StatKindV::Break, span }, i + 1),
                ),
                TokenKindV::Fixed(TokenKind::Repeat) => Err(
                    error_at(
                        "E0201"@,
                        "`repeat ... until` loops are not supported in Grindlang; use `while`"@,
                        span,
                    ),
                ),
                TokenKindV::Fixed(TokenKind::DoubleColon) => Err(
                    error_at(
                        "E0202"@,
                        "labels (`::name::`) and `goto` are not supported in Grindlang"@,
                        span,
                    ),
                ),
                _ => p_expr_stat(ts, i),
            }
        }),
{
    reveal(p_stat);
    reveal(p_block);
    reveal(p_local);
    reveal(p_while);
    reveal(p_if);
    reveal(p_for);
    reveal(p_expr_stat);
}

pub proof fn unfold_p_local(ts: Seq<TokenV>, i: int)
    ensures
        p_local(ts, i) == ({
            let kw = ts[i].span;
            if is_at(ts, i + 1, TokenKind::Function) {
                match p_name(ts, i + 2) {
                    Err(d) => Err(d),
                    Ok((name, j)) => if 0 <= i && ahead(ts, i, j) {
                        match p_func_body(ts, j) {
                            Err(d) => Err(d),
                            Ok((body, k)) => Ok(
                                (
                                    StatV {
                                        kind: StatKindV::LocalFunction { name, body },
                                        span: join(kw, body.span),
                                    },
                                    k,
                                ),
                            ),
                        }
                    } else {
                        p_dead_end(ts, i)
                    },
                }
            } else {
                match p_name(ts, i + 1) {
                    Err(d) => Err(d),
                    Ok((first, j)) => match p_more_names(ts, j, seq![first]) {
                        Err(d) => Err(d),
                        Ok((names, k)) => if is_at(ts, k, TokenKind::Assign) {
                            if 0 <= i && ahead(ts, i, k + 1) {
                                match p_expr_list(ts, k + 1) {
                                    Err(d) => Err(d),
                                    Ok((exprs, l)) => Ok(
                                        (
                                            StatV {
                                                kind: StatKindV::Local { names, exprs },
                                                span: join(kw, exprs.last().span),
                                            },
                                            l,
                                        ),
                                    ),
                                }
                            } else {
                                p_dead_end(ts, i)
                            }
                        } else {
                            Ok(
                                (
                                    StatV {
                                        kind: StatKindV::Local { names, exprs: Seq::empty() },
                                        span: join(kw, names.last().span),
                                    },
                                    k,
                                ),
                            )
                        },
                    },
                }
            }
        }),
{
    reveal(p_local);
    reveal(p_more_names);
    reveal(p_expr_list);
    reveal(p_func_body);
}

pub proof fn unfold_p_while(ts: Seq<TokenV>, i: int)
    ensures
        p_while(ts, i) == ({
            if i < 0 || i + 1 >= ts.len() {
                p_dead_end(ts, i)
            } else {
                match p_expr_bp(ts, i + 1, 0) {
                    Err(d) => Err(d),
                    Ok((cond, j)) => match p_expect(ts, j, TokenKind::Do) {
                        Err(d) => Err(d),
                        Ok((_, k)) => if ahead(ts, i, k) {
                            match p_block(ts, k) {
                                Err(d) => Err(d),
                                Ok((body, l)) => match p_expect(ts, l, TokenKind::End) {
                                    Err(d) => Err(d),
                                    Ok((end, m)) => Ok(
                                        (
                                            StatV {
                                                kind: StatKindV::While { cond, body },
                                                span: join(ts[i].span, end),
                                            },
                                            m,
                                        ),
                                    ),
                                },
                            }
                        } else {
                            p_dead_end(ts, i)
                        },
                    },
                }
            }
        }),
{
    reveal(p_while);
    reveal(p_expr_bp);
    reveal(p_block);
}

pub proof fn unfold_p_arm(ts: Seq<TokenV>, i: int)
    ensures
        p_arm(ts, i) == ({
            match p_expr_bp(ts, i, 0) {
                Err(d) => Err(d),
                Ok((cond, j)) => match p_expect(ts, j, TokenKind::Then) {
                    Err(d) => Err(d),
                    Ok((_, k)) => if 0 <= i && ahead(ts, i, k) {
                        match p_block(ts, k) {
                            Err(d) => Err(d),
                            Ok((body, l)) => Ok(((cond, body), l)),
                        }
                    } else {
                        p_dead_end(ts, i)
                    },
                },
            }
        }),
{
    reveal(p_arm);
    reveal(p_expr_bp);
    reveal(p_block);
}

pub proof fn unfold_p_elseifs(ts: Seq<TokenV>, i: int, acc: Seq<(ExprV, BlockV)>)
    ensures
        p_elseifs(ts, i, acc) == ({
            if i < 0 || i + 1 >= ts.len() || !is_at(ts, i, TokenKind::Elseif) {
                Ok((acc, i))
            } else {
                match p_arm(ts, i + 1) {
                    Err(d) => Err(d),
                    Ok((arm, j)) => if ahead(ts, i, j) {
                        p_elseifs(ts, j, acc.push(arm))
                    } else {
                        p_dead_end(ts, i)
                    },
                }
            }
        }),
{
    reveal(p_elseifs);
    reveal(p_arm);
}

pub proof fn unfold_p_else(ts: Seq<TokenV>, i: int)
    ensures
        p_else(ts, i) == ({
            if i < 0 || i + 1 >= ts.len() || !is_at(ts, i, TokenKind::Else) {
                Ok((None, i))
            } else {
                match p_block(ts, i + 1) {
                    Err(d) => Err(d),
                    Ok((b, j)) => Ok((Some(b), j)),
                }
            }
        }),
{
    reveal(p_else);
    reveal(p_block);
}

pub proof fn unfold_p_if(ts: Seq<TokenV>, i: int)
    ensures
        p_if(ts, i) == ({
            if i < 0 || i + 1 >= ts.len() {
                p_dead_end(ts, i)
            } else {
                match p_arm(ts, i + 1) {
                    Err(d) => Err(d),
                    Ok((first, j)) => if ahead(ts, i, j) {
                        match p_elseifs(ts, j, seq![first]) {
                            Err(d) => Err(d),
                            Ok((arms, k)) => if ahead(ts, i, k) {
                                match p_else(ts, k) {
                                    Err(d) => Err(d),
                                    Ok((else_block, l)) => match p_expect(ts, l, TokenKind::End) {
                                        Err(d) => Err(d),
                                        Ok((end, m)) => Ok(
                                            (
                                                StatV {
                                                    kind: StatKindV::If { arms, else_block },
                                                    span: join(ts[i].span, end),
                                                },
                                                m,
                                            ),
                                        ),
                                    },
                                }
                            } else {
                                p_dead_end(ts, i)
                            },
                        }
                    } else {
                        p_dead_end(ts, i)
                    },
                }
            }
        }),
{
    reveal(p_if);
    reveal(p_arm);
    reveal(p_elseifs);
    reveal(p_else);
}

pub proof fn unfold_p_do_body(ts: Seq<TokenV>, i: int)
    ensures
        p_do_body(ts, i) == ({
            match p_expect(ts, i, TokenKind::Do) {
                Err(d) => Err(d),
                Ok((_, j)) => if 0 <= i && ahead(ts, i, j) {
                    match p_block(ts, j) {
                        Err(d) => Err(d),
                        Ok((body, k)) => match p_expect(ts, k, TokenKind::End) {
                            Err(d) => Err(d),
                            Ok((end, l)) => Ok(((body, end), l)),
                        },
                    }
                } else {
                    p_dead_end(ts, i)
                },
            }
        }),
{
    reveal(p_do_body);
    reveal(p_block);
}

pub proof fn unfold_p_step(ts: Seq<TokenV>, i: int)
    ensures
        p_step(ts, i) == ({
            if i < 0 || i + 1 >= ts.len() || !is_at(ts, i, TokenKind::Comma) {
                Ok((None, i))
            } else {
                match p_expr_bp(ts, i + 1, 0) {
                    Err(d) => Err(d),
                    Ok((e, j)) => Ok((Some(e), j)),
                }
            }
        }),
{
    reveal(p_step);
    reveal(p_expr_bp);
}

pub proof fn unfold_p_for(ts: Seq<TokenV>, i: int)
    ensures
        p_for(ts, i) == ({
            let kw = ts[i].span;
            match p_name(ts, i + 1) {
                Err(d) => Err(d),
                Ok((first, j)) => if i < 0 || !ahead(ts, i, j) {
                    p_dead_end(ts, i)
                } else if is_at(ts, j, TokenKind::Assign) {
                    p_numeric_for(ts, j, kw, first)
                } else {
                    p_generic_for(ts, j, kw, first)
                },
            }
        }),
{
    reveal(p_for);
    reveal(p_numeric_for);
    reveal(p_generic_for);
}

pub proof fn unfold_p_numeric_for(ts: Seq<TokenV>, i: int, kw: Span, var: IdentV)
    ensures
        p_numeric_for(ts, i, kw, var) == ({
            if i < 0 || i + 1 >= ts.len() {
                p_dead_end(ts, i)
            } else {
                match p_expr_bp(ts, i + 1, 0) {
                    Err(d) => Err(d),
                    Ok((start, j)) => match p_expect(ts, j, TokenKind::Comma) {
                        Err(d) => Err(d),
                        Ok((_, k)) => if ahead(ts, i, k) {
                            match p_expr_bp(ts, k, 0) {
                                Err(d) => Err(d),
                                Ok((end, l)) => if ahead(ts, i, l) {
                                    match p_step(ts, l) {
                                        Err(d) => Err(d),
                                        Ok((step, m)) => if ahead(ts, i, m) {
                                            match p_do_body(ts, m) {
                                                Err(d) => Err(d),
                                                Ok(((body, endt), n)) => Ok(
                                                    (
                                                        StatV {
                                                            kind: StatKindV::NumericFor {
                                                                var,
                                                                start,
                                                                end,
                                                                step,
                                                                body,
                                                            },
                                                            span: join(kw, endt),
                                                        },
                                                        n,
                                                    ),
                                                ),
                                            }
                                        } else {
                                            p_dead_end(ts, i)
                                        },
                                    }
                                } else {
                                    p_dead_end(ts, i)
                                },
                            }
                        } else {
                            p_dead_end(ts, i)
                        },
                    },
                }
            }
        }),
{
    reveal(p_numeric_for);
    reveal(p_expr_bp);
    reveal(p_do_body);
    reveal(p_step);
}

pub proof fn unfold_p_generic_for(ts: Seq<TokenV>, i: int, kw: Span, first: IdentV)
    ensures
        p_generic_for(ts, i, kw, first) == ({
            match p_more_names(ts, i, seq![first]) {
                Err(d) => Err(d),
                Ok((names, j)) => match p_expect(ts, j, TokenKind::In) {
                    Err(d) => Err(d),
                    Ok((_, k)) => if 0 <= i && ahead(ts, i, k) {
                        match p_iter(ts, k) {
                            Err(d) => Err(d),
                            Ok((iter, l)) => if ahead(ts, i, l) {
                                match p_do_body(ts, l) {
                                    Err(d) => Err(d),
                                    Ok(((body, endt), m)) => Ok(
                                        (
                                            StatV {
                                                kind: StatKindV::GenericFor { names, iter, body },
                                                span: join(kw, endt),
                                            },
                                            m,
                                        ),
                                    ),
                                }
                            } else {
                                p_dead_end(ts, i)
                            },
                        }
                    } else {
                        p_dead_end(ts, i)
                    },
                },
            }
        }),
{
    reveal(p_generic_for);
    reveal(p_more_names);
    reveal(p_do_body);
    reveal(p_iter);
}

pub proof fn unfold_p_iter(ts: Seq<TokenV>, i: int)
    ensures
        p_iter(ts, i) == ({
            let span0 = ts[i].span;
            match ts[i].kind {
                TokenKindV::Name(n) => if n == "ipairs"@ || n == "pairs"@ {
                    match p_expect(ts, i + 1, TokenKind::LParen) {
                        Err(d) => Err(d),
                        Ok((_, j)) => if 0 <= i && ahead(ts, i, j) {
                            match p_expr_bp(ts, j, 0) {
                                Err(d) => Err(d),
                                Ok((arg, k)) => match p_expect(ts, k, TokenKind::RParen) {
                                    Err(d) => Err(d),
                                    Ok((close, l)) => if n == "ipairs"@ {
                                        Ok((IterExprV::IPairs { arg, span: join(span0, close) }, l))
                                    } else {
                                        Ok((IterExprV::Pairs { arg, span: join(span0, close) }, l))
                                    },
                                },
                            }
                        } else {
                            p_dead_end(ts, i)
                        },
                    }
                } else {
                    Err(
                        error_at(
                            "E0203"@,
                            "generic `for` may only iterate with `ipairs(...)` or `pairs(...)`"@,
                            span0,
                        ),
                    )
                },
                other => Err(
                    error_at(
                        "E0203"@,
                        "generic `for` may only iterate with `ipairs(...)` or `pairs(...)`, found "@
                            + describe_of(other),
                        span0,
                    ),
                ),
            }
        }),
{
    reveal(p_iter);
    reveal(p_expr_bp);
}

pub proof fn unfold_p_targets(ts: Seq<TokenV>, i: int, acc: Seq<ExprV>)
    ensures
        p_targets(ts, i, acc) == ({
            if i < 0 || i + 1 >= ts.len() || !is_at(ts, i, TokenKind::Comma) {
                Ok((acc, i))
            } else {
                match p_suffixed(ts, i + 1) {
                    Err(d) => Err(d),
                    Ok((e, j)) => if ahead(ts, i, j) {
                        p_targets(ts, j, acc.push(e))
                    } else {
                        p_dead_end(ts, i)
                    },
                }
            }
        }),
{
    reveal(p_targets);
    reveal(p_suffixed);
}

pub proof fn unfold_p_assign(ts: Seq<TokenV>, i: int, first: ExprV)
    ensures
        p_assign(ts, i, first) == ({
            match p_targets(ts, i, seq![first]) {
                Err(d) => Err(d),
                Ok((targets, j)) => match bad_target(targets, 0) {
                    Some(t) => Err(
                        error_at(
                            "E0204"@,
                            "cannot assign to this expression; assignment targets must be a name, field access, or index"@,
                            t.span,
                        ),
                    ),
                    None => match p_expect(ts, j, TokenKind::Assign) {
                        Err(d) => Err(d),
                        Ok((_, k)) => if 0 <= i && ahead(ts, i, k) {
                            match p_expr_list(ts, k) {
                                Err(d) => Err(d),
                                Ok((exprs, l)) => Ok(
                                    (
                                        StatV {
                                            kind: StatKindV::Assign { targets, exprs },
                                            span: join(targets[0].span, exprs.last().span),
                                        },
                                        l,
                                    ),
                                ),
                            }
                        } else {
                            p_dead_end(ts, i)
                        },
                    },
                },
            }
        }),
{
    reveal(p_assign);
    reveal(p_expr_list);
    reveal(p_targets);
}

pub proof fn unfold_p_expr_stat(ts: Seq<TokenV>, i: int)
    ensures
        p_expr_stat(ts, i) == ({
            match p_suffixed(ts, i) {
                Err(d) => Err(d),
                Ok((first, j)) => if i < 0 || !ahead(ts, i, j) {
                    p_dead_end(ts, i)
                } else if is_at(ts, j, TokenKind::Assign) || is_at(ts, j, TokenKind::Comma) {
                    p_assign(ts, j, first)
                } else if first.kind is Call || first.kind is MethodCall {
                    Ok((StatV { kind: StatKindV::Call(first), span: first.span }, j))
                } else {
                    Err(
                        error_at(
                            "E0205"@,
                            "this expression is not a statement; only function calls and assignments may appear as statements"@,
                            first.span,
                        ),
                    )
                },
            }
        }),
{
    reveal(p_expr_stat);
    reveal(p_suffixed);
    reveal(p_assign);
}

pub proof fn unfold_p_func_decl(ts: Seq<TokenV>, i: int)
    ensures
        p_func_decl(ts, i) == ({
            match p_name(ts, i + 1) {
                Err(d) => Err(d),
                Ok((name, j)) => match p_func_body(ts, j) {
                    Err(d) => Err(d),
                    Ok((body, k)) => Ok(
                        (FuncDeclV { name, body, span: join(ts[i].span, body.span) }, k),
                    ),
                },
            }
        }),
{
    reveal(p_func_decl);
    reveal(p_func_body);
}

pub proof fn unfold_p_const_decl(ts: Seq<TokenV>, i: int)
    ensures
        p_const_decl(ts, i) == ({
            match p_name(ts, i) {
                Err(d) => Err(d),
                Ok((name, j)) => match p_expect(ts, j, TokenKind::Assign) {
                    Err(d) => Err(d),
                    Ok((_, k)) => match p_expr_bp(ts, k, 0) {
                        Err(d) => Err(d),
                        Ok((value, l)) => Ok(
                            (ConstDeclV { name, value, span: join(name.span, value.span) }, l),
                        ),
                    },
                },
            }
        }),
{
    reveal(p_const_decl);
    reveal(p_expr_bp);
}

pub proof fn unfold_p_export(ts: Seq<TokenV>, i: int)
    ensures
        p_export(ts, i) == ({
            if !is_at(ts, i + 1, TokenKind::LBrace) {
                Err(
                    error_at(
                        "E0106"@,
                        "a module's `return` must be a table constructor `{ ... }` of exports"@,
                        ts[i + 1].span,
                    ),
                )
            } else {
                match p_table(ts, i + 1) {
                    Err(d) => Err(d),
                    Ok(((fields, tspan), j)) => Ok(
                        (
                            ExportV { node: fields, span: join(ts[i].span, tspan) },
                            eat(ts, j, TokenKind::Semi),
                        ),
                    ),
                }
            }
        }),
{
    reveal(p_export);
    reveal(p_table);
}

pub proof fn unfold_p_decls(ts: Seq<TokenV>, i: int, acc: Seq<TopDeclV>)
    ensures
        p_decls(ts, i, acc) == ({
            let span = ts[i].span;
            if i < 0 || i >= ts.len() {
                p_dead_end(ts, i)
            } else {
                match ts[i].kind {
                    TokenKindV::Fixed(TokenKind::Eof) => Ok(((acc, None), i)),
                    TokenKindV::Fixed(TokenKind::Function) => match p_func_decl(ts, i) {
                        Err(d) => Err(d),
                        Ok((f, j)) => if ahead(ts, i, j) {
                            p_decls(ts, j, acc.push(TopDeclV::Function(f)))
                        } else {
                            p_dead_end(ts, i)
                        },
                    },
                    TokenKindV::Name(_) => if is_at(ts, i + 1, TokenKind::Assign) {
                        match p_const_decl(ts, i) {
                            Err(d) => Err(d),
                            Ok((c, j)) => if ahead(ts, i, j) {
                                p_decls(ts, j, acc.push(TopDeclV::Const(c)))
                            } else {
                                p_dead_end(ts, i)
                            },
                        }
                    } else {
                        Err(
                            error_at(
                                "E0104"@,
                                "unexpected statement at module top level; the top level may only contain `function` declarations, `name = <const>` declarations, and an optional trailing `return { ... }`"@,
                                span,
                            ),
                        )
                    },
                    TokenKindV::Fixed(TokenKind::Return) => match p_export(ts, i) {
                        Err(d) => Err(d),
                        Ok((e, j)) => if is_at(ts, j, TokenKind::Eof) {
                            Ok(((acc, Some(e)), j))
                        } else {
                            Err(
                                error_at(
                                    "E0102"@,
                                    "the `return` export table must be the last item in a module"@,
                                    ts[j].span,
                                ),
                            )
                        },
                    },
                    TokenKindV::Fixed(TokenKind::Local) => Err(
                        error_at(
                            "E0103"@,
                            "top-level `local` variables are not allowed in Grindlang; declare module functions/constants at the top level and keep mutable locals inside function bodies"@,
                            span,
                        ),
                    ),
                    other => Err(
                        error_at(
                            "E0105"@,
                            "unexpected "@ + describe_of(other)
                                + " at module top level; expected a `function` or `name = <const>` declaration"@,
                            span,
                        ),
                    ),
                }
            }
        }),
{
    reveal(p_decls);
    reveal(p_func_decl);
    reveal(p_const_decl);
    reveal(p_export);
}

// ---- laws -----------------------------------------------------------------------

/// A text that is one token is lexed to it and the end.
proof fn lemma_one_token(s: Seq<char>, k: TokenKindV)
    requires
        is_ascii_chars(s),
        s.len() > 0,
        encode_utf8(s).len() == s.len() && (forall|i: int|
            0 <= i < s.len() ==> #[trigger] encode_utf8(s)[i] == s[i] as u8) ==> scan(
            encode_utf8(s),
            0,
        ) == one_token(k, 0, s.len() as int),
    ensures
        lex_of(encode_utf8(s)) == Ok::<Seq<TokenV>, Seq<DiagnosticV>>(
            one_token(k, 0, s.len() as int).tokens + one_token(
                TokenKindV::Fixed(TokenKind::Eof),
                s.len() as int,
                s.len() as int,
            ).tokens,
        ),
{
    is_ascii_chars_encode_utf8(s);
    let b = encode_utf8(s);
    let n = s.len() as int;
    reveal_with_fuel(scan_from, 2);
    assert(scan(b, 0) == one_token(k, 0, n));
    assert(scan_from(b, n) == one_token(TokenKindV::Fixed(TokenKind::Eof), n, n));
}

/// A word that is a keyword.
proof fn lemma_one_word(s: Seq<char>, k: TokenKind, n: nat)
    requires
        is_ascii_chars(s),
        s.len() == n,
        n == 2 || n == 3,
        forall|i: int| 0 <= i < s.len() ==> 'a' <= #[trigger] s[i] <= 'z',
        keyword_of(s) == Some(k),
    ensures
        lex_of(encode_utf8(s)) == Ok::<Seq<TokenV>, Seq<DiagnosticV>>(
            one_token(TokenKindV::Fixed(k), 0, n as int).tokens + one_token(
                TokenKindV::Fixed(TokenKind::Eof),
                n as int,
                n as int,
            ).tokens,
        ),
{
    is_ascii_chars_encode_utf8(s);
    let b = encode_utf8(s);
    assert forall|i: int| 0 <= i < n implies 97 <= #[trigger] b[i] <= 122 by {
        assert('a' <= s[i] <= 'z');
        assert(b[i] == s[i] as u8);
    }
    reveal_with_fuel(skip, 5);
    assert(skip(b, 0, Class::Name) == n);
    assert(latin1(b.subrange(0, n as int)) =~= s) by {
        assert forall|i: int| 0 <= i < n implies latin1(b.subrange(0, n as int))[i] == s[i] by {
            assert('a' <= s[i] <= 'z');
            assert(b[i] == s[i] as u8);
        }
    }
    assert(97 <= b[0] <= 122);
    lemma_one_token(s, TokenKindV::Fixed(k));
}

/// Every binary operator is read back from its spelling: the lexer makes one token of it, and
/// the token is the operator's.
pub proof fn law_operator_is_read_back(op: BinOp)
    ensures
        ({
            let r = lex_of(encode_utf8(op.spelling()));
            &&& r is Ok
            &&& r->Ok_0.len() == 2
            &&& r->Ok_0[1].kind == TokenKindV::Fixed(TokenKind::Eof)
            &&& binary_op_of(r->Ok_0[0].kind) == Some(op)
        }),
{
    reveal(binary_op_of);
    match op {
        BinOp::Add => {
            reveal_strlit("+");
            lemma_one_token(op.spelling(), TokenKindV::Fixed(TokenKind::Plus));
        },
        BinOp::Sub => {
            reveal_strlit("-");
            lemma_one_token(op.spelling(), TokenKindV::Fixed(TokenKind::Minus));
        },
        BinOp::Mul => {
            reveal_strlit("*");
            lemma_one_token(op.spelling(), TokenKindV::Fixed(TokenKind::Star));
        },
        BinOp::Div => {
            reveal_strlit("/");
            lemma_one_token(op.spelling(), TokenKindV::Fixed(TokenKind::Slash));
        },
        BinOp::FloorDiv => {
            reveal_strlit("//");
            lemma_one_token(op.spelling(), TokenKindV::Fixed(TokenKind::DoubleSlash));
        },
        BinOp::Mod => {
            reveal_strlit("%");
            lemma_one_token(op.spelling(), TokenKindV::Fixed(TokenKind::Percent));
        },
        BinOp::Pow => {
            reveal_strlit("^");
            lemma_one_token(op.spelling(), TokenKindV::Fixed(TokenKind::Caret));
        },
        BinOp::Concat => {
            reveal_strlit("..");
            lemma_one_token(op.spelling(), TokenKindV::Fixed(TokenKind::DotDot));
        },
        BinOp::Eq => {
            reveal_strlit("==");
            lemma_one_token(op.spelling(), TokenKindV::Fixed(TokenKind::Eq));
        },
        BinOp::Ne => {
            reveal_strlit("~=");
            lemma_one_token(op.spelling(), TokenKindV::Fixed(TokenKind::Ne));
        },
        BinOp::Lt => {
            reveal_strlit("<");
            lemma_one_token(op.spelling(), TokenKindV::Fixed(TokenKind::Lt));
        },
        BinOp::Le => {
            reveal_strlit("<=");
            lemma_one_token(op.spelling(), TokenKindV::Fixed(TokenKind::Le));
        },
        BinOp::Gt => {
            reveal_strlit(">");
            lemma_one_token(op.spelling(), TokenKindV::Fixed(TokenKind::Gt));
        },
        BinOp::Ge => {
            reveal_strlit(">=");
            lemma_one_token(op.spelling(), TokenKindV::Fixed(TokenKind::Ge));
        },
        BinOp::And => {
            reveal_strlit("and");
            lemma_one_word("and"@, TokenKind::And, 3);
        },
        BinOp::Or => {
            reveal_strlit("or");
            reveal_strlit("and");
            reveal_strlit("break");
            reveal_strlit("do");
            reveal_strlit("else");
            reveal_strlit("elseif");
            reveal_strlit("end");
            reveal_strlit("false");
            reveal_strlit("for");
            reveal_strlit("function");
            reveal_strlit("if");
            reveal_strlit("in");
            reveal_strlit("local");
            reveal_strlit("nil");
            reveal_strlit("not");
            assert("or"@[0] == 'o');
            assert("do"@[0] == 'd' && "if"@[0] == 'i' && "in"@[0] == 'i');
            lemma_one_word("or"@, TokenKind::Or, 2);
        },
    }
}

/// Two different operators never share a spelling.
pub proof fn law_spellings_differ(a: BinOp, b: BinOp)
    requires
        a.spelling() == b.spelling(),
    ensures
        a == b,
{
    law_operator_is_read_back(a);
    law_operator_is_read_back(b);
}

} // verus!
