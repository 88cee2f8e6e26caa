//! Recursive-descent and Pratt parser for the Grindlang grammar.
//!
//! Two responsibilities beyond building the tree:
//!   * Enforce the shape of the top level: a list of function and constant declarations
//!     plus an optional curated `return { ... }`. A top-level `local`, a stray statement,
//!     etc. are rejected here with a pointed diagnostic.
//!   * Reject constructs that lex but are not supported (`repeat`/`until`, labels,
//!     varargs `...`) where they appear.
//!
//! The parser stops at the first error.
use vstd::prelude::*;
use crate::ast::{
    arms_v, decls_v, exprs_v, fields_v, idents_v, stats_v, BinOp, Block, ConstDecl, ExportV, Expr,
    ExprKind, ExprKindV, ExprV, Field, FieldV, FuncBody, FuncDecl, Ident, IdentV, IterExpr, Module,
    ModuleV, RetStat, Spanned, Stat, StatKind, StatKindV, StatV, TopDecl, TopDeclV, UnOp,
};
use crate::diagnostics::{join, Diagnostic, DiagnosticV, Diagnostics, Span};
use crate::grammar::{
    UNARY_BP, ahead, assignable, bad_target, binary_op_of, eat, ends_block, fails, gives, is_at,
    left_bp, p_arm, p_assign, p_atom, p_block, p_call_args, p_const_decl, p_dead_end, p_decls,
    p_do_body, p_else, p_elseifs, p_expect, p_export, p_expr_bp, p_expr_list, p_expr_stat, p_field,
    p_fields, p_for, p_func_body, p_func_decl, p_if, p_infix, p_iter, p_local, p_more_exprs,
    p_more_names, p_name, p_params, p_primary, p_ret, p_stat, p_stats, p_suffixed, p_suffixes,
    p_table, p_targets, p_while, parse_of, right_bp, unary_op_of, unfold_p_arm, unfold_p_assign,
    unfold_p_atom, unfold_p_block, unfold_p_call_args, unfold_p_const_decl, unfold_p_decls,
    unfold_p_do_body, unfold_p_else, unfold_p_elseifs, unfold_p_export, unfold_p_expr_bp,
    unfold_p_expr_list, unfold_p_expr_stat, unfold_p_field, unfold_p_fields, unfold_p_for,
    unfold_p_func_body, unfold_p_func_decl, unfold_p_generic_for, unfold_p_if, unfold_p_infix,
    unfold_p_iter, unfold_p_local, unfold_p_more_exprs, unfold_p_more_names, unfold_p_numeric_for,
    unfold_p_params, unfold_p_primary, unfold_p_ret, unfold_p_stat, unfold_p_stats, unfold_p_step,
    unfold_p_suffixed, unfold_p_suffixes, unfold_p_table, unfold_p_targets, unfold_p_while,
};
use crate::lexer::{tokens_v, Token, TokenKind, TokenKindV, TokenV};
use crate::text::{cat2, cat3, cat4, own, same};

verus! {

/// Parse a token stream (as produced by [`crate::lexer::lex`]) into a [`Module`].
pub fn parse(tokens: Vec<Token>) -> (r: Result<Module, Diagnostics>)
    requires
        tokens@.len() > 0,
        tokens_v(tokens@).last().kind == TokenKindV::Fixed(TokenKind::Eof),
    ensures
        match r {
            Ok(m) => parse_of(tokens_v(tokens@)) == Ok::<ModuleV, DiagnosticV>(m@),
            Err(d) => d@.len() == 1 && parse_of(tokens_v(tokens@)) == Err::<ModuleV, DiagnosticV>(
                d@[0],
            ),
        },
{
    let mut p = Parser { tokens, pos: 0 };
    proof {
        reveal(Parser::ts);
    }
    match p.parse_module() {
        Ok(m) => Ok(m),
        Err(d) => Err(Diagnostics::one(d)),
    }
}

struct Parser {
    tokens: Vec<Token>,
    pos: usize,
}

/// `b` is `a` moved on (or not) inside the same stream.
spec fn kept(a: Parser, b: Parser) -> bool {
    b.tokens == a.tokens && b.ts() == a.ts() && b.wf() && a.pos <= b.pos
}

impl Parser {
    #[verifier::opaque]
    spec fn ts(self) -> Seq<TokenV> {
        tokens_v(self.tokens@)
    }

    spec fn wf(self) -> bool {
        &&& self.pos < self.ts().len() == self.tokens@.len()
        &&& self.ts().last().kind == TokenKindV::Fixed(TokenKind::Eof)
    }

    fn peek(&self) -> (r: &TokenKind)
        requires
            self.wf(),
        ensures
            r@ == self.ts()[self.pos as int].kind,
    {
        proof {
            reveal(Parser::ts);
        }
        &self.tokens[self.pos].kind
    }

    fn peek_span(&self) -> (r: Span)
        requires
            self.wf(),
        ensures
            r == self.ts()[self.pos as int].span,
    {
        proof {
            reveal(Parser::ts);
        }
        self.tokens[self.pos].span
    }

    fn at(&self, k: &TokenKind) -> (r: bool)
        requires
            self.wf(),
        ensures
            r == is_at(self.ts(), self.pos as int, *k),
    {
        self.peek().is_fixed(k)
    }

    /// Whether the token after the current one is `=`.
    fn assign_follows(&self) -> (r: bool)
        requires
            self.wf(),
            !is_at(self.ts(), self.pos as int, TokenKind::Eof),
        ensures
            r == is_at(self.ts(), self.pos + 1, TokenKind::Assign),
    {
        proof {
            reveal(Parser::ts);
        }
        assert(self.pos + 1 < self.tokens.len());
        matches!(self.tokens[self.pos + 1].kind, TokenKind::Assign)
    }

    /// Move past the current token, which is not the end.
    fn bump(&mut self)
        requires
            old(self).wf(),
            !is_at(old(self).ts(), old(self).pos as int, TokenKind::Eof),
        ensures
            kept(*old(self), *final(self)),
            final(self).pos == old(self).pos + 1,
    {
        proof {
            reveal(Parser::ts);
        }
        assert(self.pos + 1 < self.tokens.len());
        self.pos = self.pos + 1;
    }

    fn eat(&mut self, k: &TokenKind) -> (r: bool)
        requires
            old(self).wf(),
            *k != TokenKind::Eof,
        ensures
            kept(*old(self), *final(self)),
            r == is_at(old(self).ts(), old(self).pos as int, *k),
            final(self).pos == eat(old(self).ts(), old(self).pos as int, *k),
    {
        if self.at(k) {
            self.bump();
            true
        } else {
            false
        }
    }

    fn expect(&mut self, k: TokenKind) -> (r: Result<Span, Diagnostic>)
        requires
            old(self).wf(),
            k != TokenKind::Eof,
            k@ == TokenKindV::Fixed(k),
        ensures
            kept(*old(self), *final(self)),
            match r {
                Ok(x) => gives(p_expect(old(self).ts(), old(self).pos as int, k), x, final(self).pos as int) && old(self).pos < final(self).pos,
                Err(d) => fails(p_expect(old(self).ts(), old(self).pos as int, k), d@),
            },
    {
        if self.at(&k) {
            let span = self.peek_span();
            self.bump();
            Ok(span)
        } else {
            Err(
                Diagnostic::error(
                    "E0100",
                    cat4(
                        "expected ",
                        k.describe().as_str(),
                        ", found ",
                        self.peek().describe().as_str(),
                    ),
                    self.peek_span(),
                ),
            )
        }
    }

    fn expect_name(&mut self) -> (r: Result<Ident, Diagnostic>)
        requires
            old(self).wf(),
        ensures
            kept(*old(self), *final(self)),
            match r {
                Ok(x) => gives(p_name(old(self).ts(), old(self).pos as int), x@, final(self).pos as int) && old(self).pos < final(self).pos,
                Err(d) => fails(p_name(old(self).ts(), old(self).pos as int), d@),
            },
    {
        let span = self.peek_span();
        match self.peek() {
            TokenKind::Name(n) => {
                let node = n.clone();
                self.bump();
                Ok(Spanned::new(node, span))
            },
            other => Err(
                Diagnostic::error(
                    "E0101",
                    cat2("expected an identifier, found ", other.describe().as_str()),
                    span,
                ),
            ),
        }
    }

    fn parse_module(&mut self) -> (r: Result<Module, Diagnostic>)
        requires
            old(self).wf(),
            old(self).pos == 0,
        ensures
            match r {
                Ok(m) => parse_of(old(self).ts()) == Ok::<ModuleV, DiagnosticV>(m@),
                Err(d) => parse_of(old(self).ts()) == Err::<ModuleV, DiagnosticV>(d@),
            },
    {
        let ghost ts = self.ts();
        let start = self.peek_span();
        let mut decls: Vec<TopDecl> = Vec::new();
        let mut export: Option<Spanned<Vec<Field>>> = None;
        assert(decls_v(decls@) =~= Seq::<TopDeclV>::empty());
        let mut done: bool = false;
        while !done
            invariant
                self.wf(),
                self.ts() == ts,
                old(self).ts() == ts,
                !done ==> export is None && p_decls(ts, self.pos as int, decls_v(decls@)) == p_decls(ts, 0, Seq::empty()),
                done ==> gives(p_decls(ts, 0, Seq::empty()), (decls_v(decls@), match export {
                    Some(e) => Some(ExportV { node: fields_v(e.node@), span: e.span }),
                    None => None,
                }), self.pos as int),
            decreases (if done { 0int } else { 1int }), self.ts().len() - self.pos,
        {
            proof {
                unfold_p_decls(ts, self.pos as int, decls_v(decls@));
            }
            let ghost before = decls@;
            match self.peek() {
                TokenKind::Eof => {
                    done = true;
                },
                TokenKind::Function => {
                    let f = self.parse_func_decl()?;
                    decls.push(TopDecl::Function(f));
                    assert(decls_v(decls@) =~= decls_v(before).push(TopDeclV::Function(f@)));
                },
                TokenKind::Name(_) => {
                    if self.assign_follows() {
                        let c = self.parse_const_decl()?;
                        decls.push(TopDecl::Const(c));
                        assert(decls_v(decls@) =~= decls_v(before).push(TopDeclV::Const(c@)));
                    } else {
                        return Err(
                            Diagnostic::error(
                                "E0104",
                                own(
                                    "unexpected statement at module top level; the top level may only contain `function` declarations, `name = <const>` declarations, and an optional trailing `return { ... }`",
                                ),
                                self.peek_span(),
                            ),
                        );
                    }
                },
                TokenKind::Return => {
                    let e = self.parse_export_table()?;
                    // The export table must be the last thing in the chunk.
                    if !self.at(&TokenKind::Eof) {
                        return Err(
                            Diagnostic::error(
                                "E0102",
                                own("the `return` export table must be the last item in a module"),
                                self.peek_span(),
                            ),
                        );
                    }
                    export = Some(e);
                    done = true;
                },
                TokenKind::Local => {
                    return Err(
                        Diagnostic::error(
                            "E0103",
                            own(
                                "top-level `local` variables are not allowed in Grindlang; declare module functions/constants at the top level and keep mutable locals inside function bodies",
                            ),
                            self.peek_span(),
                        ),
                    );
                },
                other => {
                    return Err(
                        Diagnostic::error(
                            "E0105",
                            cat3(
                                "unexpected ",
                                other.describe().as_str(),
                                " at module top level; expected a `function` or `name = <const>` declaration",
                            ),
                            self.peek_span(),
                        ),
                    );
                },
            }
        }
        let end = self.peek_span();
        Ok(Module { decls, export, span: start.to(end) })
    }

    fn parse_func_decl(&mut self) -> (r: Result<FuncDecl, Diagnostic>)
        requires
            old(self).wf(),
            is_at(old(self).ts(), old(self).pos as int, TokenKind::Function),
        ensures
            kept(*old(self), *final(self)),
            match r {
                Ok(x) => gives(p_func_decl(old(self).ts(), old(self).pos as int), x@, final(self).pos as int) && old(self).pos < final(self).pos,
                Err(d) => fails(p_func_decl(old(self).ts(), old(self).pos as int), d@),
            },
    {
        proof {
            unfold_p_func_decl(self.ts(), self.pos as int);
        }
        let kw = self.peek_span();
        self.bump();
        let name = self.expect_name()?;
        let body = self.parse_func_body()?;
        let span = kw.to(body.span);
        Ok(FuncDecl { name, body, span })
    }

    fn parse_const_decl(&mut self) -> (r: Result<ConstDecl, Diagnostic>)
        requires
            old(self).wf(),
        ensures
            kept(*old(self), *final(self)),
            match r {
                Ok(x) => gives(p_const_decl(old(self).ts(), old(self).pos as int), x@, final(self).pos as int) && old(self).pos < final(self).pos,
                Err(d) => fails(p_const_decl(old(self).ts(), old(self).pos as int), d@),
            },
    {
        proof {
            unfold_p_const_decl(self.ts(), self.pos as int);
        }
        let name = self.expect_name()?;
        self.expect(TokenKind::Assign)?;
        let value = self.parse_expr()?;
        let span = name.span.to(value.span);
        Ok(ConstDecl { name, value, span })
    }

    fn parse_export_table(&mut self) -> (r: Result<Spanned<Vec<Field>>, Diagnostic>)
        requires
            old(self).wf(),
            is_at(old(self).ts(), old(self).pos as int, TokenKind::Return),
        ensures
            kept(*old(self), *final(self)),
            match r {
                Ok(x) => gives(p_export(old(self).ts(), old(self).pos as int), (ExportV { node: fields_v(x.node@), span: x.span }), final(self).pos as int) && old(self).pos < final(self).pos,
                Err(d) => fails(p_export(old(self).ts(), old(self).pos as int), d@),
            },
    {
        proof {
            unfold_p_export(self.ts(), self.pos as int);
        }
        let kw = self.peek_span();
        self.bump();
        if !self.at(&TokenKind::LBrace) {
            return Err(
                Diagnostic::error(
                    "E0106",
                    own("a module's `return` must be a table constructor `{ ... }` of exports"),
                    self.peek_span(),
                ),
            );
        }
        let (fields, tspan) = self.parse_table_fields()?;
        self.eat(&TokenKind::Semi);
        Ok(Spanned::new(fields, kw.to(tspan)))
    }

    /// `function` params, body and `end`. Assumes `function` already consumed.
    fn parse_func_body(&mut self) -> (r: Result<FuncBody, Diagnostic>)
        requires
            old(self).wf(),
        ensures
            kept(*old(self), *final(self)),
            match r {
                Ok(x) => gives(p_func_body(old(self).ts(), old(self).pos as int), x@, final(self).pos as int) && old(self).pos < final(self).pos,
                Err(d) => fails(p_func_body(old(self).ts(), old(self).pos as int), d@),
            },
        decreases old(self).ts().len() - old(self).pos, 0int, 0int,
    {
        proof {
            unfold_p_func_body(self.ts(), self.pos as int);
        }
        let open = self.expect(TokenKind::LParen)?;
        let mut params: Vec<Ident> = Vec::new();
        assert(idents_v(params@) =~= Seq::<IdentV>::empty());
        if !self.at(&TokenKind::RParen) {
            params = self.parse_params()?;
        }
        self.expect(TokenKind::RParen)?;
        let block = self.parse_block()?;
        let end = self.expect(TokenKind::End)?;
        Ok(FuncBody { params, block, span: open.to(end) })
    }

    fn parse_params(&mut self) -> (r: Result<Vec<Ident>, Diagnostic>)
        requires
            old(self).wf(),
        ensures
            kept(*old(self), *final(self)),
            match r {
                Ok(x) => gives(p_params(old(self).ts(), old(self).pos as int, Seq::empty()), idents_v(x@), final(self).pos as int) && old(self).pos < final(self).pos,
                Err(d) => fails(p_params(old(self).ts(), old(self).pos as int, Seq::empty()), d@),
            },
    {
        let ghost ts = self.ts();
        let ghost whole = p_params(ts, self.pos as int, Seq::empty());
        let mut params: Vec<Ident> = Vec::new();
        assert(idents_v(params@) =~= Seq::<IdentV>::empty());
        let mut more: bool = true;
        while more
            invariant
                kept(*old(self), *self),
                self.ts() == ts,
                whole == p_params(ts, old(self).pos as int, Seq::empty()),
                old(self).ts() == ts,
                more ==> p_params(ts, self.pos as int, idents_v(params@)) == whole,
                !more ==> gives(whole, idents_v(params@), self.pos as int) && old(self).pos < self.pos,
            decreases (if more { 1int } else { 0int }), self.ts().len() - self.pos,
        {
            proof {
                unfold_p_params(ts, self.pos as int, idents_v(params@));
            }
            if self.at(&TokenKind::Ellipsis) {
                return Err(
                    Diagnostic::error(
                        "E0200",
                        own("varargs `...` are not supported in Grindlang"),
                        self.peek_span(),
                    ),
                );
            }
            let ghost before = params@;
            let name = self.expect_name()?;
            params.push(name);
            assert(idents_v(params@) =~= idents_v(before).push(name@));
            if !self.eat(&TokenKind::Comma) {
                more = false;
            }
        }
        Ok(params)
    }

    /// Parse statements until a block terminator (`end`/`else`/`elseif`/end of input),
    /// including an optional trailing `return`.
    fn parse_block(&mut self) -> (r: Result<Block, Diagnostic>)
        requires
            old(self).wf(),
        ensures
            kept(*old(self), *final(self)),
            match r {
                Ok(x) => gives(p_block(old(self).ts(), old(self).pos as int), x@, final(self).pos as int),
                Err(d) => fails(p_block(old(self).ts(), old(self).pos as int), d@),
            },
        decreases old(self).ts().len() - old(self).pos, 10int, 0int,
    {
        proof {
            unfold_p_block(self.ts(), self.pos as int);
        }
        let ghost ts = self.ts();
        let ghost whole = p_stats(ts, self.pos as int, Seq::empty());
        let start = self.peek_span();
        let mut stats: Vec<Stat> = Vec::new();
        let mut ret: Option<RetStat> = None;
        assert(stats_v(stats@) =~= Seq::<StatV>::empty());
        let mut done: bool = false;
        while !done
            invariant
                kept(*old(self), *self),
                self.ts() == ts,
                old(self).ts() == ts,
                whole == p_stats(ts, old(self).pos as int, Seq::empty()),
                !done ==> ret is None && p_stats(ts, self.pos as int, stats_v(stats@)) == whole,
                done ==> gives(whole, (stats_v(stats@), match ret {
                    Some(x) => Some(x@),
                    None => None,
                }), self.pos as int),
            decreases (if done { 0int } else { 1int }), self.ts().len() - self.pos,
        {
            proof {
                unfold_p_stats(ts, self.pos as int, stats_v(stats@));
                unfold_p_block(ts, old(self).pos as int);
            }
            match self.peek() {
                TokenKind::End | TokenKind::Else | TokenKind::Elseif | TokenKind::Eof => {
                    done = true;
                },
                TokenKind::Until => {
                    return Err(
                        Diagnostic::error(
                            "E0201",
                            own(
                                "`repeat ... until` loops are not supported in Grindlang; use `while`",
                            ),
                            self.peek_span(),
                        ),
                    );
                },
                TokenKind::Return => {
                    let x = self.parse_ret_stat()?;
                    ret = Some(x);
                    done = true;
                },
                _ => {
                    let ghost before = stats@;
                    let s = self.parse_stat()?;
                    // Skip pure `;` separators in the statement list.
                    if !matches!(s.kind, StatKind::Empty) {
                        stats.push(s);
                        assert(stats_v(stats@) =~= stats_v(before).push(s@));
                    }
                },
            }
        }
        let end = self.peek_span();
        Ok(Block { stats, ret, span: start.to(end) })
    }

    fn parse_ret_stat(&mut self) -> (r: Result<RetStat, Diagnostic>)
        requires
            old(self).wf(),
            is_at(old(self).ts(), old(self).pos as int, TokenKind::Return),
        ensures
            kept(*old(self), *final(self)),
            match r {
                Ok(x) => gives(p_ret(old(self).ts(), old(self).pos as int), x@, final(self).pos as int) && old(self).pos < final(self).pos,
                Err(d) => fails(p_ret(old(self).ts(), old(self).pos as int), d@),
            },
        decreases old(self).ts().len() - old(self).pos, 0int, 0int,
    {
        proof {
            unfold_p_ret(self.ts(), self.pos as int);
        }
        let kw = self.peek_span();
        self.bump();
        let mut exprs: Vec<Expr> = Vec::new();
        assert(exprs_v(exprs@) =~= Seq::<ExprV>::empty());
        let mut span = kw;
        // `return` may be empty or followed by an expression list.
        if !self.block_follows() && !self.at(&TokenKind::Semi) {
            exprs = self.parse_expr_list()?;
            span = kw.to(exprs[exprs.len() - 1].span);
        }
        self.eat(&TokenKind::Semi);
        Ok(RetStat { exprs, span })
    }

    fn block_follows(&self) -> (r: bool)
        requires
            self.wf(),
        ensures
            r == ends_block(self.ts(), self.pos as int),
    {
        matches!(self.peek(), TokenKind::End | TokenKind::Else | TokenKind::Elseif | TokenKind::Eof)
    }

    fn parse_stat(&mut self) -> (r: Result<Stat, Diagnostic>)
        requires
            old(self).wf(),
        ensures
            kept(*old(self), *final(self)),
            match r {
                Ok(x) => gives(p_stat(old(self).ts(), old(self).pos as int), x@, final(self).pos as int) && old(self).pos < final(self).pos,
                Err(d) => fails(p_stat(old(self).ts(), old(self).pos as int), d@),
            },
        decreases old(self).ts().len() - old(self).pos, 8int, 0int,
    {
        proof {
            unfold_p_stat(self.ts(), self.pos as int);
        }
        let span0 = self.peek_span();
        match self.peek() {
            TokenKind::Semi => {
                self.bump();
                Ok(Stat { kind: StatKind::Empty, span: span0 })
            },
            TokenKind::Local => self.parse_local(),
            TokenKind::Do => {
                self.bump();
                let block = self.parse_block()?;
                let end = self.expect(TokenKind::End)?;
                Ok(Stat { kind: StatKind::Do(block), span: span0.to(end) })
            },
            TokenKind::While => self.parse_while(),
            TokenKind::If => self.parse_if(),
            TokenKind::For => self.parse_for(),
            TokenKind::Break => {
                self.bump();
                Ok(Stat { kind: StatKind::Break, span: span0 })
            },
            TokenKind::Repeat => Err(
                Diagnostic::error(
                    "E0201",
                    own("`repeat ... until` loops are not supported in Grindlang; use `while`"),
                    span0,
                ),
            ),
            TokenKind::DoubleColon => Err(
                Diagnostic::error(
                    "E0202",
                    own("labels (`::name::`) and `goto` are not supported in Grindlang"),
                    span0,
                ),
            ),
            _ => self.parse_expr_stat(),
        }
    }

    /// `{ , name }`, after the names in `names`.
    fn parse_more_names(&mut self, first: Ident) -> (r: Result<Vec<Ident>, Diagnostic>)
        requires
            old(self).wf(),
        ensures
            kept(*old(self), *final(self)),
            match r {
                Ok(x) => gives(p_more_names(old(self).ts(), old(self).pos as int, seq![first@]), idents_v(x@), final(self).pos as int) && x@.len() > 0,
                Err(d) => fails(p_more_names(old(self).ts(), old(self).pos as int, seq![first@]), d@),
            },
    {
        let ghost ts = self.ts();
        let mut names: Vec<Ident> = Vec::new();
        names.push(first);
        assert(idents_v(names@) =~= seq![first@]);
        while self.at(&TokenKind::Comma)
            invariant
                kept(*old(self), *self),
                self.ts() == ts,
                old(self).ts() == ts,
                names@.len() > 0,
                p_more_names(ts, self.pos as int, idents_v(names@)) == p_more_names(ts, old(self).pos as int, seq![first@]),
            decreases self.ts().len() - self.pos,
        {
            proof {
                unfold_p_more_names(ts, self.pos as int, idents_v(names@));
            }
            let ghost before = names@;
            self.bump();
            let name = self.expect_name()?;
            names.push(name);
            assert(idents_v(names@) =~= idents_v(before).push(name@));
        }
        proof {
            unfold_p_more_names(ts, self.pos as int, idents_v(names@));
        }
        Ok(names)
    }

    fn parse_local(&mut self) -> (r: Result<Stat, Diagnostic>)
        requires
            old(self).wf(),
            is_at(old(self).ts(), old(self).pos as int, TokenKind::Local),
        ensures
            kept(*old(self), *final(self)),
            match r {
                Ok(x) => gives(p_local(old(self).ts(), old(self).pos as int), x@, final(self).pos as int) && old(self).pos < final(self).pos,
                Err(d) => fails(p_local(old(self).ts(), old(self).pos as int), d@),
            },
        decreases old(self).ts().len() - old(self).pos, 0int, 0int,
    {
        proof {
            unfold_p_local(self.ts(), self.pos as int);
        }
        let kw = self.peek_span();
        self.bump();
        if self.at(&TokenKind::Function) {
            self.bump();
            let name = self.expect_name()?;
            let body = self.parse_func_body()?;
            let span = kw.to(body.span);
            return Ok(Stat { kind: StatKind::LocalFunction { name, body }, span });
        }
        let first = self.expect_name()?;
        let names = self.parse_more_names(first)?;
        let mut exprs: Vec<Expr> = Vec::new();
        assert(exprs_v(exprs@) =~= Seq::<ExprV>::empty());
        let span;
        if self.eat(&TokenKind::Assign) {
            exprs = self.parse_expr_list()?;
            span = kw.to(exprs[exprs.len() - 1].span);
        } else {
            span = kw.to(names[names.len() - 1].span);
        }
        Ok(Stat { kind: StatKind::Local { names, exprs }, span })
    }

    fn parse_while(&mut self) -> (r: Result<Stat, Diagnostic>)
        requires
            old(self).wf(),
            is_at(old(self).ts(), old(self).pos as int, TokenKind::While),
        ensures
            kept(*old(self), *final(self)),
            match r {
                Ok(x) => gives(p_while(old(self).ts(), old(self).pos as int), x@, final(self).pos as int) && old(self).pos < final(self).pos,
                Err(d) => fails(p_while(old(self).ts(), old(self).pos as int), d@),
            },
        decreases old(self).ts().len() - old(self).pos, 0int, 0int,
    {
        proof {
            unfold_p_while(self.ts(), self.pos as int);
        }
        let kw = self.peek_span();
        self.bump();
        let cond = self.parse_expr()?;
        self.expect(TokenKind::Do)?;
        let body = self.parse_block()?;
        let end = self.expect(TokenKind::End)?;
        Ok(Stat { kind: StatKind::While { cond, body }, span: kw.to(end) })
    }

    fn parse_arm(&mut self) -> (r: Result<(Expr, Block), Diagnostic>)
        requires
            old(self).wf(),
        ensures
            kept(*old(self), *final(self)),
            match r {
                Ok(x) => gives(p_arm(old(self).ts(), old(self).pos as int), (x.0@, x.1@), final(self).pos as int) && old(self).pos < final(self).pos,
                Err(d) => fails(p_arm(old(self).ts(), old(self).pos as int), d@),
            },
        decreases old(self).ts().len() - old(self).pos, 11int, 0int,
    {
        proof {
            unfold_p_arm(self.ts(), self.pos as int);
        }
        let cond = self.parse_expr()?;
        self.expect(TokenKind::Then)?;
        let body = self.parse_block()?;
        Ok((cond, body))
    }

    fn parse_if(&mut self) -> (r: Result<Stat, Diagnostic>)
        requires
            old(self).wf(),
            is_at(old(self).ts(), old(self).pos as int, TokenKind::If),
        ensures
            kept(*old(self), *final(self)),
            match r {
                Ok(x) => gives(p_if(old(self).ts(), old(self).pos as int), x@, final(self).pos as int) && old(self).pos < final(self).pos,
                Err(d) => fails(p_if(old(self).ts(), old(self).pos as int), d@),
            },
        decreases old(self).ts().len() - old(self).pos, 0int, 0int,
    {
        proof {
            unfold_p_if(self.ts(), self.pos as int);
        }
        let ghost ts = self.ts();
        let kw = self.peek_span();
        self.bump();
        let mut arms: Vec<(Expr, Block)> = Vec::new();
        let first = self.parse_arm()?;
        arms.push(first);
        assert(arms_v(arms@) =~= seq![(first.0@, first.1@)]);
        let ghost at0 = self.pos as int;
        let ghost arms0 = arms_v(arms@);
        while self.at(&TokenKind::Elseif)
            invariant
                kept(*old(self), *self),
                self.ts() == ts,
                old(self).ts() == ts,
                old(self).pos < at0 <= self.pos,
                p_elseifs(ts, self.pos as int, arms_v(arms@)) == p_elseifs(ts, at0, arms0),
                p_if(ts, old(self).pos as int) == match p_elseifs(ts, at0, arms0) {
                    Err(d) => Err::<(StatV, int), DiagnosticV>(d),
                    Ok((arms, k)) => if ahead(ts, old(self).pos as int, k) {
                        match p_else(ts, k) {
                            Err(d) => Err(d),
                            Ok((else_block, l)) => match p_expect(ts, l, TokenKind::End) {
                                Err(d) => Err(d),
                                Ok((end, m)) => Ok((StatV { kind: StatKindV::If { arms, else_block }, span: join(kw, end) }, m)),
                            },
                        }
                    } else {
                        p_dead_end(ts, old(self).pos as int)
                    },
                },
            decreases self.ts().len() - self.pos,
        {
            proof {
                unfold_p_elseifs(ts, self.pos as int, arms_v(arms@));
            }
            let ghost before = arms@;
            self.bump();
            let arm = self.parse_arm()?;
            arms.push(arm);
            assert(arms_v(arms@) =~= arms_v(before).push((arm.0@, arm.1@)));
        }
        proof {
            unfold_p_elseifs(ts, self.pos as int, arms_v(arms@));
            unfold_p_else(ts, self.pos as int);
        }
        let else_block = if self.eat(&TokenKind::Else) {
            Some(self.parse_block()?)
        } else {
            None
        };
        let end = self.expect(TokenKind::End)?;
        Ok(Stat { kind: StatKind::If { arms, else_block }, span: kw.to(end) })
    }

    /// `do block end`: the block, and the span of the `end`.
    fn parse_do_body(&mut self) -> (r: Result<(Block, Span), Diagnostic>)
        requires
            old(self).wf(),
        ensures
            kept(*old(self), *final(self)),
            match r {
                Ok(x) => gives(p_do_body(old(self).ts(), old(self).pos as int), (x.0@, x.1), final(self).pos as int) && old(self).pos < final(self).pos,
                Err(d) => fails(p_do_body(old(self).ts(), old(self).pos as int), d@),
            },
        decreases old(self).ts().len() - old(self).pos, 0int, 0int,
    {
        proof {
            unfold_p_do_body(self.ts(), self.pos as int);
        }
        self.expect(TokenKind::Do)?;
        let body = self.parse_block()?;
        let end = self.expect(TokenKind::End)?;
        Ok((body, end))
    }

    fn parse_for(&mut self) -> (r: Result<Stat, Diagnostic>)
        requires
            old(self).wf(),
            is_at(old(self).ts(), old(self).pos as int, TokenKind::For),
        ensures
            kept(*old(self), *final(self)),
            match r {
                Ok(x) => gives(p_for(old(self).ts(), old(self).pos as int), x@, final(self).pos as int) && old(self).pos < final(self).pos,
                Err(d) => fails(p_for(old(self).ts(), old(self).pos as int), d@),
            },
        decreases old(self).ts().len() - old(self).pos, 0int, 0int,
    {
        proof {
            unfold_p_for(self.ts(), self.pos as int);
        }
        let kw = self.peek_span();
        self.bump();
        let first = self.expect_name()?;
        proof {
            unfold_p_numeric_for(self.ts(), self.pos as int, kw, first@);
            unfold_p_generic_for(self.ts(), self.pos as int, kw, first@);
        }
        if self.at(&TokenKind::Assign) {
            self.bump();
            let start = self.parse_expr()?;
            self.expect(TokenKind::Comma)?;
            let end = self.parse_expr()?;
            proof {
                unfold_p_step(self.ts(), self.pos as int);
            }
            let step = if self.eat(&TokenKind::Comma) {
                Some(self.parse_expr()?)
            } else {
                None
            };
            let (body, endt) = self.parse_do_body()?;
            Ok(
                Stat {
                    kind: StatKind::NumericFor { var: first, start, end, step, body },
                    span: kw.to(endt),
                },
            )
        } else {
            let names = self.parse_more_names(first)?;
            self.expect(TokenKind::In)?;
            let iter = self.parse_iter_expr()?;
            let (body, endt) = self.parse_do_body()?;
            Ok(Stat { kind: StatKind::GenericFor { names, iter, body }, span: kw.to(endt) })
        }
    }

    /// Generic-for iterator: only `ipairs(e)` and `pairs(e)` are allowed.
    fn parse_iter_expr(&mut self) -> (r: Result<IterExpr, Diagnostic>)
        requires
            old(self).wf(),
        ensures
            kept(*old(self), *final(self)),
            match r {
                Ok(x) => gives(p_iter(old(self).ts(), old(self).pos as int), x@, final(self).pos as int) && old(self).pos < final(self).pos,
                Err(d) => fails(p_iter(old(self).ts(), old(self).pos as int), d@),
            },
        decreases old(self).ts().len() - old(self).pos, 0int, 0int,
    {
        proof {
            unfold_p_iter(self.ts(), self.pos as int);
        }
        let span0 = self.peek_span();
        let name = match self.peek() {
            TokenKind::Name(n) => n.clone(),
            other => {
                return Err(
                    Diagnostic::error(
                        "E0203",
                        cat2(
                            "generic `for` may only iterate with `ipairs(...)` or `pairs(...)`, found ",
                            other.describe().as_str(),
                        ),
                        span0,
                    ),
                );
            },
        };
        let ordered = same(name.as_str(), "ipairs");
        if ordered || same(name.as_str(), "pairs") {
            self.bump();
            self.expect(TokenKind::LParen)?;
            let arg = self.parse_expr()?;
            let close = self.expect(TokenKind::RParen)?;
            let span = span0.to(close);
            if ordered {
                Ok(IterExpr::IPairs { arg, span })
            } else {
                Ok(IterExpr::Pairs { arg, span })
            }
        } else {
            Err(
                Diagnostic::error(
                    "E0203",
                    own("generic `for` may only iterate with `ipairs(...)` or `pairs(...)`"),
                    span0,
                ),
            )
        }
    }

    /// A statement that begins with an expression: either an assignment or a call.
    fn parse_expr_stat(&mut self) -> (r: Result<Stat, Diagnostic>)
        requires
            old(self).wf(),
        ensures
            kept(*old(self), *final(self)),
            match r {
                Ok(x) => gives(p_expr_stat(old(self).ts(), old(self).pos as int), x@, final(self).pos as int) && old(self).pos < final(self).pos,
                Err(d) => fails(p_expr_stat(old(self).ts(), old(self).pos as int), d@),
            },
        decreases old(self).ts().len() - old(self).pos, 7int, 0int,
    {
        proof {
            unfold_p_expr_stat(self.ts(), self.pos as int);
        }
        let first = self.parse_suffixed_expr()?;
        if self.at(&TokenKind::Assign) || self.at(&TokenKind::Comma) {
            self.parse_assignment(first)
        } else {
            // Must be a call to be a valid statement.
            let span = first.span;
            if matches!(first.kind, ExprKind::Call { .. } | ExprKind::MethodCall { .. }) {
                Ok(Stat { kind: StatKind::Call(first), span })
            } else {
                Err(
                    Diagnostic::error(
                        "E0205",
                        own(
                            "this expression is not a statement; only function calls and assignments may appear as statements",
                        ),
                        span,
                    ),
                )
            }
        }
    }

    /// The rest of an assignment after its first target.
    fn parse_assignment(&mut self, first: Expr) -> (r: Result<Stat, Diagnostic>)
        requires
            old(self).wf(),
        ensures
            kept(*old(self), *final(self)),
            match r {
                Ok(x) => gives(p_assign(old(self).ts(), old(self).pos as int, first@), x@, final(self).pos as int),
                Err(d) => fails(p_assign(old(self).ts(), old(self).pos as int, first@), d@),
            },
        decreases old(self).ts().len() - old(self).pos, 1int, 0int,
    {
        proof {
            unfold_p_assign(self.ts(), self.pos as int, first@);
        }
        let ghost ts = self.ts();
        let ghost at0 = self.pos as int;
        let ghost first_v = first@;
        let mut targets: Vec<Expr> = Vec::new();
        targets.push(first);
        assert(exprs_v(targets@) =~= seq![first_v]);
        while self.at(&TokenKind::Comma)
            invariant
                kept(*old(self), *self),
                self.ts() == ts,
                old(self).ts() == ts,
                at0 == old(self).pos,
                first_v == first@,
                targets@.len() > 0,
                p_targets(ts, self.pos as int, exprs_v(targets@)) == p_targets(ts, at0, seq![first_v]),
            decreases self.ts().len() - self.pos,
        {
            proof {
                unfold_p_targets(ts, self.pos as int, exprs_v(targets@));
                unfold_p_assign(ts, at0, first_v);
            }
            let ghost before = targets@;
            self.bump();
            let t = self.parse_suffixed_expr()?;
            targets.push(t);
            assert(exprs_v(targets@) =~= exprs_v(before).push(t@));
        }
        proof {
            unfold_p_targets(ts, self.pos as int, exprs_v(targets@));
        }
        // Validate that every target is assignable.
        let mut i: usize = 0;
        while i < targets.len()
            invariant
                i <= targets@.len(),
                bad_target(exprs_v(targets@), i as int) == bad_target(exprs_v(targets@), 0),
                old(self).ts() == ts,
                at0 == old(self).pos,
                first_v == first@,
                kept(*old(self), *self),
                gives(p_targets(ts, at0, seq![first_v]), exprs_v(targets@), self.pos as int),
            decreases targets@.len() - i,
        {
            if !is_assignable(&targets[i]) {
                proof {
                    unfold_p_assign(ts, at0, first_v);
                }
                assert(bad_target(exprs_v(targets@), 0) == Some(targets[i as int]@));
                return Err(
                    Diagnostic::error(
                        "E0204",
                        own(
                            "cannot assign to this expression; assignment targets must be a name, field access, or index",
                        ),
                        targets[i].span,
                    ),
                );
            }
            i += 1;
        }
        self.expect(TokenKind::Assign)?;
        let exprs = self.parse_expr_list()?;
        let span = targets[0].span.to(exprs[exprs.len() - 1].span);
        Ok(Stat { kind: StatKind::Assign { targets, exprs }, span })
    }

    fn parse_expr_list(&mut self) -> (r: Result<Vec<Expr>, Diagnostic>)
        requires
            old(self).wf(),
        ensures
            kept(*old(self), *final(self)),
            match r {
                Ok(x) => gives(p_expr_list(old(self).ts(), old(self).pos as int), exprs_v(x@), final(self).pos as int) && old(self).pos < final(self).pos && x@.len() > 0,
                Err(d) => fails(p_expr_list(old(self).ts(), old(self).pos as int), d@),
            },
        decreases old(self).ts().len() - old(self).pos, 6int, 0int,
    {
        proof {
            unfold_p_expr_list(self.ts(), self.pos as int);
        }
        let ghost ts = self.ts();
        let mut list: Vec<Expr> = Vec::new();
        let first = self.parse_expr()?;
        list.push(first);
        assert(exprs_v(list@) =~= seq![first@]);
        let ghost at0 = self.pos as int;
        let ghost list0 = exprs_v(list@);
        while self.at(&TokenKind::Comma)
            invariant
                kept(*old(self), *self),
                self.ts() == ts,
                old(self).ts() == ts,
                old(self).pos < at0 <= self.pos,
                list@.len() > 0,
                p_more_exprs(ts, self.pos as int, exprs_v(list@)) == p_more_exprs(ts, at0, list0),
                p_expr_list(ts, old(self).pos as int) == p_more_exprs(ts, at0, list0),
            decreases self.ts().len() - self.pos,
        {
            proof {
                unfold_p_more_exprs(ts, self.pos as int, exprs_v(list@));
            }
            let ghost before = list@;
            self.bump();
            let e = self.parse_expr()?;
            list.push(e);
            assert(exprs_v(list@) =~= exprs_v(before).push(e@));
        }
        proof {
            unfold_p_more_exprs(ts, self.pos as int, exprs_v(list@));
        }
        Ok(list)
    }

    fn parse_expr(&mut self) -> (r: Result<Expr, Diagnostic>)
        requires
            old(self).wf(),
        ensures
            kept(*old(self), *final(self)),
            match r {
                Ok(x) => gives(p_expr_bp(old(self).ts(), old(self).pos as int, 0), x@, final(self).pos as int) && old(self).pos < final(self).pos,
                Err(d) => fails(p_expr_bp(old(self).ts(), old(self).pos as int, 0), d@),
            },
        decreases old(self).ts().len() - old(self).pos, 5int, 1int,
    {
        self.parse_expr_bp(0)
    }

    /// Pratt expression parser. `min_bp` is the minimum left binding power that an infix
    /// operator must have to be consumed at this level.
    fn parse_expr_bp(&mut self, min_bp: u8) -> (r: Result<Expr, Diagnostic>)
        requires
            old(self).wf(),
        ensures
            kept(*old(self), *final(self)),
            match r {
                Ok(x) => gives(p_expr_bp(old(self).ts(), old(self).pos as int, min_bp as int), x@, final(self).pos as int) && old(self).pos < final(self).pos,
                Err(d) => fails(p_expr_bp(old(self).ts(), old(self).pos as int, min_bp as int), d@),
            },
        decreases old(self).ts().len() - old(self).pos, 5int, 0int,
    {
        proof {
            unfold_p_expr_bp(self.ts(), self.pos as int, min_bp as int);
        }
        let ghost ts = self.ts();
        let ghost i0 = self.pos as int;
        // Prefix / unary.
        let mut lhs = match unary_op(self.peek()) {
            Some(op) => {
                let op_span = self.peek_span();
                self.bump();
                let operand = self.parse_expr_bp(UNARY_BP)?;
                let span = op_span.to(operand.span);
                Expr { kind: ExprKind::Unary { op, operand: Box::new(operand) }, span }
            },
            None => self.parse_primary()?,
        };
        let ghost at0 = self.pos as int;
        let ghost lhs0 = lhs@;
        assert(p_expr_bp(ts, i0, min_bp as int) == p_infix(ts, at0, lhs0, min_bp as int));
        // Infix.
        let mut more: bool = true;
        while more
            invariant
                kept(*old(self), *self),
                self.ts() == ts,
                old(self).ts() == ts,
                old(self).pos < at0 <= self.pos,
                i0 == old(self).pos,
                p_expr_bp(ts, i0, min_bp as int) == p_infix(ts, at0, lhs0, min_bp as int),
                p_infix(ts, self.pos as int, lhs@, min_bp as int) == p_infix(ts, at0, lhs0, min_bp as int),
                !more ==> gives(p_infix(ts, self.pos as int, lhs@, min_bp as int), lhs@, self.pos as int),
            decreases (if more { 1int } else { 0int }), self.ts().len() - self.pos,
        {
            proof {
                unfold_p_infix(ts, self.pos as int, lhs@, min_bp as int);
            }
            match binary_op(self.peek()) {
                None => {
                    more = false;
                },
                Some(op) => {
                    let (l_bp, r_bp) = infix_bp(op);
                    if l_bp < min_bp {
                        more = false;
                    } else {
                        self.bump();
                        let rhs = self.parse_expr_bp(r_bp)?;
                        let span = lhs.span.to(rhs.span);
                        lhs = Expr {
                            kind: ExprKind::Binary { op, lhs: Box::new(lhs), rhs: Box::new(rhs) },
                            span,
                        };
                    }
                },
            }
        }
        Ok(lhs)
    }

    /// Primary expressions: literals, anonymous functions, table constructors, and
    /// suffixed prefix-expressions (names / parens followed by `.`/`[]`/calls).
    fn parse_primary(&mut self) -> (r: Result<Expr, Diagnostic>)
        requires
            old(self).wf(),
        ensures
            kept(*old(self), *final(self)),
            match r {
                Ok(x) => gives(p_primary(old(self).ts(), old(self).pos as int), x@, final(self).pos as int) && old(self).pos < final(self).pos,
                Err(d) => fails(p_primary(old(self).ts(), old(self).pos as int), d@),
            },
        decreases old(self).ts().len() - old(self).pos, 4int, 0int,
    {
        proof {
            unfold_p_primary(self.ts(), self.pos as int);
        }
        let span = self.peek_span();
        match self.peek() {
            TokenKind::Nil => {
                self.bump();
                Ok(Expr { kind: ExprKind::Nil, span })
            },
            TokenKind::True => {
                self.bump();
                Ok(Expr { kind: ExprKind::Bool(true), span })
            },
            TokenKind::False => {
                self.bump();
                Ok(Expr { kind: ExprKind::Bool(false), span })
            },
            TokenKind::Number(n) => {
                let n = n.dup();
                self.bump();
                Ok(Expr { kind: ExprKind::Number(n), span })
            },
            TokenKind::Str(s) => {
                let s = s.clone();
                self.bump();
                Ok(Expr { kind: ExprKind::Str(s), span })
            },
            TokenKind::Ellipsis => Err(
                Diagnostic::error(
                    "E0200",
                    own("varargs `...` are not supported in Grindlang"),
                    span,
                ),
            ),
            TokenKind::Function => {
                self.bump();
                let body = self.parse_func_body()?;
                let fspan = span.to(body.span);
                Ok(Expr { kind: ExprKind::Function(body), span: fspan })
            },
            TokenKind::LBrace => {
                let (fields, tspan) = self.parse_table_fields()?;
                Ok(Expr { kind: ExprKind::Table(fields), span: tspan })
            },
            TokenKind::Name(_) | TokenKind::LParen => self.parse_suffixed_expr(),
            other => Err(
                Diagnostic::error(
                    "E0206",
                    cat2("expected an expression, found ", other.describe().as_str()),
                    span,
                ),
            ),
        }
    }

    /// A prefix-expression (name or parenthesized expr) followed by any chain of
    /// suffixes: `.name`, `[expr]`, `(args)`, `{table}`, `"str"`, and `:method(args)`.
    fn parse_suffixed_expr(&mut self) -> (r: Result<Expr, Diagnostic>)
        requires
            old(self).wf(),
        ensures
            kept(*old(self), *final(self)),
            match r {
                Ok(x) => gives(p_suffixed(old(self).ts(), old(self).pos as int), x@, final(self).pos as int) && old(self).pos < final(self).pos,
                Err(d) => fails(p_suffixed(old(self).ts(), old(self).pos as int), d@),
            },
        decreases old(self).ts().len() - old(self).pos, 3int, 0int,
    {
        proof {
            unfold_p_suffixed(self.ts(), self.pos as int);
        }
        let ghost ts = self.ts();
        let ghost i0 = self.pos as int;
        let mut e = self.parse_atom()?;
        let ghost at0 = self.pos as int;
        let ghost e0 = e@;
        assert(p_suffixed(ts, i0) == p_suffixes(ts, at0, e0));
        let mut more: bool = true;
        while more
            invariant
                kept(*old(self), *self),
                self.ts() == ts,
                old(self).ts() == ts,
                old(self).pos < at0 <= self.pos,
                i0 == old(self).pos,
                p_suffixed(ts, i0) == p_suffixes(ts, at0, e0),
                p_suffixes(ts, self.pos as int, e@) == p_suffixes(ts, at0, e0),
                !more ==> gives(p_suffixes(ts, self.pos as int, e@), e@, self.pos as int),
            decreases (if more { 1int } else { 0int }), self.ts().len() - self.pos,
        {
            proof {
                unfold_p_suffixes(ts, self.pos as int, e@);
            }
            match self.peek() {
                TokenKind::Dot => {
                    self.bump();
                    let name = self.expect_name()?;
                    let span = e.span.to(name.span);
                    e = Expr { kind: ExprKind::Field { base: Box::new(e), name }, span };
                },
                TokenKind::LBracket => {
                    self.bump();
                    let index = self.parse_expr()?;
                    let close = self.expect(TokenKind::RBracket)?;
                    let span = e.span.to(close);
                    e = Expr {
                        kind: ExprKind::Index { base: Box::new(e), index: Box::new(index) },
                        span,
                    };
                },
                TokenKind::Colon => {
                    self.bump();
                    let method = self.expect_name()?;
                    let (args, aspan) = self.parse_call_args()?;
                    let span = e.span.to(aspan);
                    e = Expr {
                        kind: ExprKind::MethodCall { receiver: Box::new(e), method, args },
                        span,
                    };
                },
                TokenKind::LParen | TokenKind::LBrace | TokenKind::Str(_) => {
                    let (args, aspan) = self.parse_call_args()?;
                    let span = e.span.to(aspan);
                    e = Expr { kind: ExprKind::Call { callee: Box::new(e), args }, span };
                },
                _ => {
                    more = false;
                },
            }
        }
        Ok(e)
    }

    fn parse_atom(&mut self) -> (r: Result<Expr, Diagnostic>)
        requires
            old(self).wf(),
        ensures
            kept(*old(self), *final(self)),
            match r {
                Ok(x) => gives(p_atom(old(self).ts(), old(self).pos as int), x@, final(self).pos as int) && old(self).pos < final(self).pos,
                Err(d) => fails(p_atom(old(self).ts(), old(self).pos as int), d@),
            },
        decreases old(self).ts().len() - old(self).pos, 0int, 0int,
    {
        proof {
            unfold_p_atom(self.ts(), self.pos as int);
        }
        let span = self.peek_span();
        match self.peek() {
            TokenKind::Name(n) => {
                let n = n.clone();
                self.bump();
                Ok(Expr { kind: ExprKind::Name(n), span })
            },
            TokenKind::LParen => {
                self.bump();
                let inner = self.parse_expr()?;
                let close = self.expect(TokenKind::RParen)?;
                Ok(Expr { kind: ExprKind::Paren(Box::new(inner)), span: span.to(close) })
            },
            other => Err(
                Diagnostic::error(
                    "E0207",
                    cat2("expected a name or `(`, found ", other.describe().as_str()),
                    span,
                ),
            ),
        }
    }

    /// Call arguments in any of the three Lua forms: `(a, b)`, `{table}`, or `"str"`.
    fn parse_call_args(&mut self) -> (r: Result<(Vec<Expr>, Span), Diagnostic>)
        requires
            old(self).wf(),
        ensures
            kept(*old(self), *final(self)),
            match r {
                Ok(x) => gives(p_call_args(old(self).ts(), old(self).pos as int), (exprs_v(x.0@), x.1), final(self).pos as int) && old(self).pos < final(self).pos,
                Err(d) => fails(p_call_args(old(self).ts(), old(self).pos as int), d@),
            },
        decreases old(self).ts().len() - old(self).pos, 1int, 0int,
    {
        proof {
            unfold_p_call_args(self.ts(), self.pos as int);
        }
        let span = self.peek_span();
        match self.peek() {
            TokenKind::LParen => {
                self.bump();
                let mut args: Vec<Expr> = Vec::new();
                assert(exprs_v(args@) =~= Seq::<ExprV>::empty());
                if !self.at(&TokenKind::RParen) {
                    args = self.parse_expr_list()?;
                }
                let close = self.expect(TokenKind::RParen)?;
                Ok((args, span.to(close)))
            },
            TokenKind::LBrace => {
                let (fields, tspan) = self.parse_table_fields()?;
                let arg = Expr { kind: ExprKind::Table(fields), span: tspan };
                let ghost arg_v = arg@;
                assert(arg_v == ExprV { kind: ExprKindV::Table(fields_v(fields@)), span: tspan });
                let mut args: Vec<Expr> = Vec::new();
                args.push(arg);
                assert(exprs_v(args@) =~= seq![arg_v]);
                Ok((args, tspan))
            },
            TokenKind::Str(s) => {
                let arg = Expr { kind: ExprKind::Str(s.clone()), span };
                let ghost arg_v = arg@;
                assert(arg_v == ExprV { kind: ExprKindV::Str(s@), span });
                self.bump();
                let mut args: Vec<Expr> = Vec::new();
                args.push(arg);
                assert(exprs_v(args@) =~= seq![arg_v]);
                Ok((args, span))
            },
            other => Err(
                Diagnostic::error(
                    "E0208",
                    cat2("expected call arguments, found ", other.describe().as_str()),
                    span,
                ),
            ),
        }
    }

    /// `{ field, field; field }`: the fields and the whole-table span.
    fn parse_table_fields(&mut self) -> (r: Result<(Vec<Field>, Span), Diagnostic>)
        requires
            old(self).wf(),
        ensures
            kept(*old(self), *final(self)),
            match r {
                Ok(x) => gives(p_table(old(self).ts(), old(self).pos as int), (fields_v(x.0@), x.1), final(self).pos as int) && old(self).pos < final(self).pos,
                Err(d) => fails(p_table(old(self).ts(), old(self).pos as int), d@),
            },
        decreases old(self).ts().len() - old(self).pos, 0int, 0int,
    {
        proof {
            unfold_p_table(self.ts(), self.pos as int);
        }
        let ghost ts = self.ts();
        let open = self.expect(TokenKind::LBrace)?;
        let ghost at0 = self.pos as int;
        let ghost whole = p_fields(ts, at0, Seq::empty());
        let mut fields: Vec<Field> = Vec::new();
        assert(fields_v(fields@) =~= Seq::<FieldV>::empty());
        let mut more: bool = true;
        while more && !self.at(&TokenKind::RBrace) && !self.at(&TokenKind::Eof)
            invariant
                kept(*old(self), *self),
                self.ts() == ts,
                old(self).ts() == ts,
                old(self).pos < at0 <= self.pos,
                at0 == old(self).pos + 1,
                whole == p_fields(ts, at0, Seq::empty()),
                gives(p_expect(ts, old(self).pos as int, TokenKind::LBrace), open, at0),
                more ==> p_fields(ts, self.pos as int, fields_v(fields@)) == whole,
                !more ==> gives(whole, fields_v(fields@), self.pos as int),
            decreases (if more { 1int } else { 0int }), self.ts().len() - self.pos,
        {
            proof {
                unfold_p_fields(ts, self.pos as int, fields_v(fields@));
                unfold_p_table(ts, old(self).pos as int);
            }
            let ghost before = fields@;
            let field = self.parse_field()?;
            fields.push(field);
            assert(fields_v(fields@) =~= fields_v(before).push(field@));
            // Separator: `,` or `;`. If neither, the table must be closing.
            if !self.eat(&TokenKind::Comma) && !self.eat(&TokenKind::Semi) {
                more = false;
            }
        }
        proof {
            unfold_p_fields(ts, self.pos as int, fields_v(fields@));
        }
        assert(gives(whole, fields_v(fields@), self.pos as int));
        let close = self.expect(TokenKind::RBrace)?;
        Ok((fields, open.to(close)))
    }

    fn parse_field(&mut self) -> (r: Result<Field, Diagnostic>)
        requires
            old(self).wf(),
        ensures
            kept(*old(self), *final(self)),
            match r {
                Ok(x) => gives(p_field(old(self).ts(), old(self).pos as int), x@, final(self).pos as int) && old(self).pos < final(self).pos,
                Err(d) => fails(p_field(old(self).ts(), old(self).pos as int), d@),
            },
        decreases old(self).ts().len() - old(self).pos, 6int, 0int,
    {
        proof {
            unfold_p_field(self.ts(), self.pos as int);
        }
        match self.peek() {
            // `[key] = value`
            TokenKind::LBracket => {
                self.bump();
                let key = self.parse_expr()?;
                self.expect(TokenKind::RBracket)?;
                self.expect(TokenKind::Assign)?;
                let value = self.parse_expr()?;
                Ok(Field::Keyed { key, value })
            },
            // `name = value` (only when the `=` follows; otherwise it is a positional
            // expression that happens to start with a name).
            TokenKind::Name(_) => {
                if self.assign_follows() {
                    let name = self.expect_name()?;
                    self.expect(TokenKind::Assign)?;
                    let value = self.parse_expr()?;
                    Ok(Field::Named { name, value })
                } else {
                    let value = self.parse_expr()?;
                    Ok(Field::Positional(value))
                }
            },
            // positional
            _ => {
                let value = self.parse_expr()?;
                Ok(Field::Positional(value))
            },
        }
    }
}

/// Whether an expression is a legal assignment target (name, field, or index).
fn is_assignable(e: &Expr) -> (r: bool)
    ensures
        r == assignable(e@),
{
    matches!(e.kind, ExprKind::Name(_) | ExprKind::Field { .. } | ExprKind::Index { .. })
}

fn unary_op(k: &TokenKind) -> (r: Option<UnOp>)
    ensures
        r == unary_op_of(k@),
        k@ == TokenKindV::Fixed(TokenKind::Eof) ==> r is None,
{
    proof {
        reveal(unary_op_of);
    }
    match k {
        TokenKind::Minus => Some(UnOp::Neg),
        TokenKind::Not => Some(UnOp::Not),
        TokenKind::Hash => Some(UnOp::Len),
        _ => None,
    }
}

fn binary_op(k: &TokenKind) -> (r: Option<BinOp>)
    ensures
        r == binary_op_of(k@),
        k@ == TokenKindV::Fixed(TokenKind::Eof) ==> r is None,
{
    proof {
        reveal(binary_op_of);
    }
    match k {
        TokenKind::Plus => Some(BinOp::Add),
        TokenKind::Minus => Some(BinOp::Sub),
        TokenKind::Star => Some(BinOp::Mul),
        TokenKind::Slash => Some(BinOp::Div),
        TokenKind::DoubleSlash => Some(BinOp::FloorDiv),
        TokenKind::Percent => Some(BinOp::Mod),
        TokenKind::Caret => Some(BinOp::Pow),
        TokenKind::DotDot => Some(BinOp::Concat),
        TokenKind::Eq => Some(BinOp::Eq),
        TokenKind::Ne => Some(BinOp::Ne),
        TokenKind::Lt => Some(BinOp::Lt),
        TokenKind::Le => Some(BinOp::Le),
        TokenKind::Gt => Some(BinOp::Gt),
        TokenKind::Ge => Some(BinOp::Ge),
        TokenKind::And => Some(BinOp::And),
        TokenKind::Or => Some(BinOp::Or),
        _ => None,
    }
}

/// `(left_bp, right_bp)` for each infix operator. Right-associative operators have
/// `right_bp < left_bp` (`..` and `^`).
fn infix_bp(op: BinOp) -> (r: (u8, u8))
    ensures
        r.0 == left_bp(op),
        r.1 == right_bp(op),
{
    proof {
        reveal(left_bp);
        reveal(right_bp);
    }
    match op {
        BinOp::Or => (1, 2),
        BinOp::And => (3, 4),
        BinOp::Lt | BinOp::Gt | BinOp::Le | BinOp::Ge | BinOp::Eq | BinOp::Ne => (5, 6),
        BinOp::Concat => (8, 7),
        BinOp::Add | BinOp::Sub => (9, 10),
        BinOp::Mul | BinOp::Div | BinOp::FloorDiv | BinOp::Mod => (11, 12),
        BinOp::Pow => (16, 15),
    }
}

} // verus!
