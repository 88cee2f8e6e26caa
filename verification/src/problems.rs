//! Every problem that the parser reports is an error.

use vstd::prelude::*;

use crate::ast::{BlockV, ExprV, FieldV, IdentV, StatV, TopDeclV};
use crate::diagnostics::{Severity, Span};
use crate::grammar::{
    ahead, p_arm, p_assign, p_atom, p_block, p_call_args, p_const_decl, p_decls, p_do_body, p_else,
    p_elseifs, p_expect, p_expr_bp, p_expr_list, p_expr_stat, p_field, p_fields, p_for, p_func_body,
    p_func_decl, p_generic_for, p_if, p_infix, p_iter, p_local, p_more_exprs, p_more_names, p_name,
    p_numeric_for, p_params, p_primary, p_ret, p_stat, p_stats, p_step, p_suffixed, p_suffixes,
    p_table, p_targets, p_while, parse_of, unfold_p_arm, unfold_p_assign, unfold_p_atom,
    unfold_p_block, unfold_p_call_args, unfold_p_const_decl, unfold_p_decls, unfold_p_do_body,
    unfold_p_else, unfold_p_elseifs, unfold_p_export, unfold_p_expr_bp, unfold_p_expr_list,
    unfold_p_expr_stat, unfold_p_field, unfold_p_fields, unfold_p_for, unfold_p_func_body,
    unfold_p_func_decl, unfold_p_generic_for, unfold_p_if, unfold_p_infix, unfold_p_iter,
    unfold_p_local, unfold_p_more_exprs, unfold_p_more_names, unfold_p_numeric_for, unfold_p_params,
    unfold_p_primary, unfold_p_ret, unfold_p_stat, unfold_p_stats, unfold_p_step, unfold_p_suffixed,
    unfold_p_suffixes, unfold_p_table, unfold_p_targets, unfold_p_while, Parsed,
};
use crate::lexer::{TokenKind, TokenV};

verus! {

/// Whether a problem, if there is one, is an error.
pub open spec fn sound<T>(r: Parsed<T>) -> bool {
    r matches Err(d) ==> d.severity == Severity::Error
}

/// Whether that holds of everything that is parsed after `i`.
spec fn sound_after(ts: Seq<TokenV>, i: int) -> bool {
    &&& forall|j: int, min_bp: int| i < j <= ts.len() ==> sound(#[trigger] p_expr_bp(ts, j, min_bp))
    &&& forall|j: int, lhs: ExprV, min_bp: int| i < j <= ts.len() ==> sound(#[trigger] p_infix(ts, j, lhs, min_bp))
    &&& forall|j: int| i < j <= ts.len() ==> sound(#[trigger] p_primary(ts, j))
    &&& forall|j: int| i < j <= ts.len() ==> sound(#[trigger] p_suffixed(ts, j))
    &&& forall|j: int, e: ExprV| i < j <= ts.len() ==> sound(#[trigger] p_suffixes(ts, j, e))
    &&& forall|j: int| i < j <= ts.len() ==> sound(#[trigger] p_atom(ts, j))
    &&& forall|j: int| i < j <= ts.len() ==> sound(#[trigger] p_call_args(ts, j))
    &&& forall|j: int| i < j <= ts.len() ==> sound(#[trigger] p_expr_list(ts, j))
    &&& forall|j: int, acc: Seq<ExprV>| i < j <= ts.len() ==> sound(#[trigger] p_more_exprs(ts, j, acc))
    &&& forall|j: int| i < j <= ts.len() ==> sound(#[trigger] p_table(ts, j))
    &&& forall|j: int, acc: Seq<FieldV>| i < j <= ts.len() ==> sound(#[trigger] p_fields(ts, j, acc))
    &&& forall|j: int| i < j <= ts.len() ==> sound(#[trigger] p_field(ts, j))
    &&& forall|j: int| i < j <= ts.len() ==> sound(#[trigger] p_func_body(ts, j))
    &&& forall|j: int| i < j <= ts.len() ==> sound(#[trigger] p_block(ts, j))
    &&& forall|j: int, acc: Seq<StatV>| i < j <= ts.len() ==> sound(#[trigger] p_stats(ts, j, acc))
    &&& forall|j: int| i < j <= ts.len() ==> sound(#[trigger] p_ret(ts, j))
    &&& forall|j: int| i < j <= ts.len() ==> sound(#[trigger] p_stat(ts, j))
    &&& forall|j: int| i < j <= ts.len() ==> sound(#[trigger] p_local(ts, j))
    &&& forall|j: int| i < j <= ts.len() ==> sound(#[trigger] p_while(ts, j))
    &&& forall|j: int| i < j <= ts.len() ==> sound(#[trigger] p_arm(ts, j))
    &&& forall|j: int| i < j <= ts.len() ==> sound(#[trigger] p_else(ts, j))
    &&& forall|j: int| i < j <= ts.len() ==> sound(#[trigger] p_if(ts, j))
    &&& forall|j: int| i < j <= ts.len() ==> sound(#[trigger] p_do_body(ts, j))
    &&& forall|j: int| i < j <= ts.len() ==> sound(#[trigger] p_step(ts, j))
    &&& forall|j: int| i < j <= ts.len() ==> sound(#[trigger] p_for(ts, j))
    &&& forall|j: int, kw: Span, var: IdentV| i < j <= ts.len() ==> sound(#[trigger] p_numeric_for(ts, j, kw, var))
    &&& forall|j: int, kw: Span, first: IdentV| i < j <= ts.len() ==> sound(#[trigger] p_generic_for(ts, j, kw, first))
    &&& forall|j: int| i < j <= ts.len() ==> sound(#[trigger] p_iter(ts, j))
    &&& forall|j: int, acc: Seq<ExprV>| i < j <= ts.len() ==> sound(#[trigger] p_targets(ts, j, acc))
    &&& forall|j: int, first: ExprV| i < j <= ts.len() ==> sound(#[trigger] p_assign(ts, j, first))
    &&& forall|j: int| i < j <= ts.len() ==> sound(#[trigger] p_expr_stat(ts, j))
    &&& forall|j: int, acc: Seq<(ExprV, BlockV)>| i < j <= ts.len() ==> sound(#[trigger] p_elseifs(ts, j, acc))
}

proof fn s_more_names(ts: Seq<TokenV>, i: int, acc: Seq<IdentV>)
    ensures
        sound(p_more_names(ts, i, acc)),
    decreases (if i < ts.len() {
        ts.len() - i
    } else {
        0
    }),
{
    unfold_p_more_names(ts, i, acc);
    if 0 <= i && i + 1 < ts.len() {
        match p_name(ts, i + 1) {
            Ok((n, _)) => s_more_names(ts, i + 2, acc.push(n)),
            Err(_) => {},
        }
    }
}

proof fn s_params(ts: Seq<TokenV>, i: int, acc: Seq<IdentV>)
    ensures
        sound(p_params(ts, i, acc)),
    decreases (if i < ts.len() {
        ts.len() - i
    } else {
        0
    }),
{
    unfold_p_params(ts, i, acc);
    if 0 <= i < ts.len() {
        match p_name(ts, i) {
            Ok((n, _)) => s_params(ts, i + 2, acc.push(n)),
            Err(_) => {},
        }
    }
}

proof fn s_expr_bp(ts: Seq<TokenV>, i: int, min_bp: int)
    requires
        sound_after(ts, i),
    ensures
        sound(p_expr_bp(ts, i, min_bp)),
    decreases 6int,
{
    unfold_p_expr_bp(ts, i, min_bp);
    s_atom(ts, i);
    s_primary(ts, i);
}

proof fn s_infix(ts: Seq<TokenV>, i: int, lhs: ExprV, min_bp: int)
    requires
        sound_after(ts, i),
    ensures
        sound(p_infix(ts, i, lhs, min_bp)),
    decreases 1int,
{
    unfold_p_infix(ts, i, lhs, min_bp);
}

proof fn s_primary(ts: Seq<TokenV>, i: int)
    requires
        sound_after(ts, i),
    ensures
        sound(p_primary(ts, i)),
    decreases 5int,
{
    unfold_p_primary(ts, i);
    s_atom(ts, i);
    s_table(ts, i);
    s_suffixed(ts, i);
}

proof fn s_suffixed(ts: Seq<TokenV>, i: int)
    requires
        sound_after(ts, i),
    ensures
        sound(p_suffixed(ts, i)),
    decreases 4int,
{
    unfold_p_suffixed(ts, i);
    s_atom(ts, i);
}

proof fn s_suffixes(ts: Seq<TokenV>, i: int, e: ExprV)
    requires
        sound_after(ts, i),
    ensures
        sound(p_suffixes(ts, i, e)),
    decreases 3int,
{
    unfold_p_suffixes(ts, i, e);
    s_call_args(ts, i);
}

proof fn s_atom(ts: Seq<TokenV>, i: int)
    requires
        sound_after(ts, i),
    ensures
        sound(p_atom(ts, i)),
    decreases 1int,
{
    unfold_p_atom(ts, i);
}

proof fn s_call_args(ts: Seq<TokenV>, i: int)
    requires
        sound_after(ts, i),
    ensures
        sound(p_call_args(ts, i)),
    decreases 2int,
{
    unfold_p_call_args(ts, i);
    s_table(ts, i);
}

proof fn s_expr_list(ts: Seq<TokenV>, i: int)
    requires
        sound_after(ts, i),
    ensures
        sound(p_expr_list(ts, i)),
    decreases 7int,
{
    unfold_p_expr_list(ts, i);
    s_expr_bp(ts, i, 0);
}

proof fn s_more_exprs(ts: Seq<TokenV>, i: int, acc: Seq<ExprV>)
    requires
        sound_after(ts, i),
    ensures
        sound(p_more_exprs(ts, i, acc)),
    decreases 1int,
{
    unfold_p_more_exprs(ts, i, acc);
}

proof fn s_table(ts: Seq<TokenV>, i: int)
    requires
        sound_after(ts, i),
    ensures
        sound(p_table(ts, i)),
    decreases 1int,
{
    unfold_p_table(ts, i);
}

proof fn s_fields(ts: Seq<TokenV>, i: int, acc: Seq<FieldV>)
    requires
        sound_after(ts, i),
    ensures
        sound(p_fields(ts, i, acc)),
    decreases 8int,
{
    unfold_p_fields(ts, i, acc);
    s_field(ts, i);
}

proof fn s_field(ts: Seq<TokenV>, i: int)
    requires
        sound_after(ts, i),
    ensures
        sound(p_field(ts, i)),
    decreases 7int,
{
    unfold_p_field(ts, i);
    s_expr_bp(ts, i, 0);
}

proof fn s_func_body(ts: Seq<TokenV>, i: int)
    requires
        sound_after(ts, i),
    ensures
        sound(p_func_body(ts, i)),
    decreases 1int,
{
    unfold_p_func_body(ts, i);
    s_params(ts, i + 1, Seq::empty());
}

proof fn s_block(ts: Seq<TokenV>, i: int)
    requires
        sound_after(ts, i),
    ensures
        sound(p_block(ts, i)),
    decreases 11int,
{
    unfold_p_block(ts, i);
    s_stats(ts, i, Seq::empty());
}

proof fn s_stats(ts: Seq<TokenV>, i: int, acc: Seq<StatV>)
    requires
        sound_after(ts, i),
    ensures
        sound(p_stats(ts, i, acc)),
    decreases 10int,
{
    unfold_p_stats(ts, i, acc);
    s_ret(ts, i);
    s_stat(ts, i);
}

proof fn s_ret(ts: Seq<TokenV>, i: int)
    requires
        sound_after(ts, i),
    ensures
        sound(p_ret(ts, i)),
    decreases 1int,
{
    unfold_p_ret(ts, i);
}

proof fn s_stat(ts: Seq<TokenV>, i: int)
    requires
        sound_after(ts, i),
    ensures
        sound(p_stat(ts, i)),
    decreases 9int,
{
    unfold_p_stat(ts, i);
    s_local(ts, i);
    s_while(ts, i);
    s_if(ts, i);
    s_for(ts, i);
    s_expr_stat(ts, i);
}

proof fn s_local(ts: Seq<TokenV>, i: int)
    requires
        sound_after(ts, i),
    ensures
        sound(p_local(ts, i)),
    decreases 1int,
{
    unfold_p_local(ts, i);
    match p_name(ts, i + 1) {
        Ok((first, j)) => s_more_names(ts, j, seq![first]),
        Err(_) => {},
    }
}

proof fn s_while(ts: Seq<TokenV>, i: int)
    requires
        sound_after(ts, i),
    ensures
        sound(p_while(ts, i)),
    decreases 1int,
{
    unfold_p_while(ts, i);
}

proof fn s_arm(ts: Seq<TokenV>, i: int)
    requires
        sound_after(ts, i),
    ensures
        sound(p_arm(ts, i)),
    decreases 12int,
{
    unfold_p_arm(ts, i);
    s_expr_bp(ts, i, 0);
}

proof fn s_else(ts: Seq<TokenV>, i: int)
    requires
        sound_after(ts, i),
    ensures
        sound(p_else(ts, i)),
    decreases 1int,
{
    unfold_p_else(ts, i);
}

proof fn s_if(ts: Seq<TokenV>, i: int)
    requires
        sound_after(ts, i),
    ensures
        sound(p_if(ts, i)),
    decreases 1int,
{
    unfold_p_if(ts, i);
}

proof fn s_do_body(ts: Seq<TokenV>, i: int)
    requires
        sound_after(ts, i),
    ensures
        sound(p_do_body(ts, i)),
    decreases 1int,
{
    unfold_p_do_body(ts, i);
}

proof fn s_step(ts: Seq<TokenV>, i: int)
    requires
        sound_after(ts, i),
    ensures
        sound(p_step(ts, i)),
    decreases 1int,
{
    unfold_p_step(ts, i);
}

proof fn s_for(ts: Seq<TokenV>, i: int)
    requires
        sound_after(ts, i),
    ensures
        sound(p_for(ts, i)),
    decreases 1int,
{
    unfold_p_for(ts, i);
}

proof fn s_numeric_for(ts: Seq<TokenV>, i: int, kw: Span, var: IdentV)
    requires
        sound_after(ts, i),
    ensures
        sound(p_numeric_for(ts, i, kw, var)),
    decreases 1int,
{
    unfold_p_numeric_for(ts, i, kw, var);
}

proof fn s_generic_for(ts: Seq<TokenV>, i: int, kw: Span, first: IdentV)
    requires
        sound_after(ts, i),
    ensures
        sound(p_generic_for(ts, i, kw, first)),
    decreases 13int,
{
    unfold_p_generic_for(ts, i, kw, first);
    s_more_names(ts, i, seq![first]);
}

proof fn s_iter(ts: Seq<TokenV>, i: int)
    requires
        sound_after(ts, i),
    ensures
        sound(p_iter(ts, i)),
    decreases 1int,
{
    unfold_p_iter(ts, i);
}

proof fn s_targets(ts: Seq<TokenV>, i: int, acc: Seq<ExprV>)
    requires
        sound_after(ts, i),
    ensures
        sound(p_targets(ts, i, acc)),
    decreases 1int,
{
    unfold_p_targets(ts, i, acc);
}

proof fn s_assign(ts: Seq<TokenV>, i: int, first: ExprV)
    requires
        sound_after(ts, i),
    ensures
        sound(p_assign(ts, i, first)),
    decreases 2int,
{
    unfold_p_assign(ts, i, first);
    s_targets(ts, i, seq![first]);
}

proof fn s_expr_stat(ts: Seq<TokenV>, i: int)
    requires
        sound_after(ts, i),
    ensures
        sound(p_expr_stat(ts, i)),
    decreases 8int,
{
    unfold_p_expr_stat(ts, i);
    s_suffixed(ts, i);
}

proof fn s_elseifs(ts: Seq<TokenV>, i: int, acc: Seq<(ExprV, BlockV)>)
    requires
        sound_after(ts, i),
    ensures
        sound(p_elseifs(ts, i, acc)),
    decreases 1int,
{
    unfold_p_elseifs(ts, i, acc);
}

proof fn lemma_sound_after(ts: Seq<TokenV>, i: int)
    ensures
        sound_after(ts, i),
    decreases (if i < ts.len() {
        ts.len() - i
    } else {
        0
    }),
{
    if i < ts.len() {
        assert forall|j: int, min_bp: int| i < j <= ts.len() implies sound(#[trigger] p_expr_bp(ts, j, min_bp)) by {
            lemma_sound_after(ts, j);
            s_expr_bp(ts, j, min_bp);
        }
        assert forall|j: int, lhs: ExprV, min_bp: int| i < j <= ts.len() implies sound(#[trigger] p_infix(ts, j, lhs, min_bp)) by {
            lemma_sound_after(ts, j);
            s_infix(ts, j, lhs, min_bp);
        }
        assert forall|j: int| i < j <= ts.len() implies sound(#[trigger] p_primary(ts, j)) by {
            lemma_sound_after(ts, j);
            s_primary(ts, j);
        }
        assert forall|j: int| i < j <= ts.len() implies sound(#[trigger] p_suffixed(ts, j)) by {
            lemma_sound_after(ts, j);
            s_suffixed(ts, j);
        }
        assert forall|j: int, e: ExprV| i < j <= ts.len() implies sound(#[trigger] p_suffixes(ts, j, e)) by {
            lemma_sound_after(ts, j);
            s_suffixes(ts, j, e);
        }
        assert forall|j: int| i < j <= ts.len() implies sound(#[trigger] p_atom(ts, j)) by {
            lemma_sound_after(ts, j);
            s_atom(ts, j);
        }
        assert forall|j: int| i < j <= ts.len() implies sound(#[trigger] p_call_args(ts, j)) by {
            lemma_sound_after(ts, j);
            s_call_args(ts, j);
        }
        assert forall|j: int| i < j <= ts.len() implies sound(#[trigger] p_expr_list(ts, j)) by {
            lemma_sound_after(ts, j);
            s_expr_list(ts, j);
        }
        assert forall|j: int, acc: Seq<ExprV>| i < j <= ts.len() implies sound(#[trigger] p_more_exprs(ts, j, acc)) by {
            lemma_sound_after(ts, j);
            s_more_exprs(ts, j, acc);
        }
        assert forall|j: int| i < j <= ts.len() implies sound(#[trigger] p_table(ts, j)) by {
            lemma_sound_after(ts, j);
            s_table(ts, j);
        }
        assert forall|j: int, acc: Seq<FieldV>| i < j <= ts.len() implies sound(#[trigger] p_fields(ts, j, acc)) by {
            lemma_sound_after(ts, j);
            s_fields(ts, j, acc);
        }
        assert forall|j: int| i < j <= ts.len() implies sound(#[trigger] p_field(ts, j)) by {
            lemma_sound_after(ts, j);
            s_field(ts, j);
        }
        assert forall|j: int| i < j <= ts.len() implies sound(#[trigger] p_func_body(ts, j)) by {
            lemma_sound_after(ts, j);
            s_func_body(ts, j);
        }
        assert forall|j: int| i < j <= ts.len() implies sound(#[trigger] p_block(ts, j)) by {
            lemma_sound_after(ts, j);
            s_block(ts, j);
        }
        assert forall|j: int, acc: Seq<StatV>| i < j <= ts.len() implies sound(#[trigger] p_stats(ts, j, acc)) by {
            lemma_sound_after(ts, j);
            s_stats(ts, j, acc);
        }
        assert forall|j: int| i < j <= ts.len() implies sound(#[trigger] p_ret(ts, j)) by {
            lemma_sound_after(ts, j);
            s_ret(ts, j);
        }
        assert forall|j: int| i < j <= ts.len() implies sound(#[trigger] p_stat(ts, j)) by {
            lemma_sound_after(ts, j);
            s_stat(ts, j);
        }
        assert forall|j: int| i < j <= ts.len() implies sound(#[trigger] p_local(ts, j)) by {
            lemma_sound_after(ts, j);
            s_local(ts, j);
        }
        assert forall|j: int| i < j <= ts.len() implies sound(#[trigger] p_while(ts, j)) by {
            lemma_sound_after(ts, j);
            s_while(ts, j);
        }
        assert forall|j: int| i < j <= ts.len() implies sound(#[trigger] p_arm(ts, j)) by {
            lemma_sound_after(ts, j);
            s_arm(ts, j);
        }
        assert forall|j: int| i < j <= ts.len() implies sound(#[trigger] p_else(ts, j)) by {
            lemma_sound_after(ts, j);
            s_else(ts, j);
        }
        assert forall|j: int| i < j <= ts.len() implies sound(#[trigger] p_if(ts, j)) by {
            lemma_sound_after(ts, j);
            s_if(ts, j);
        }
        assert forall|j: int| i < j <= ts.len() implies sound(#[trigger] p_do_body(ts, j)) by {
            lemma_sound_after(ts, j);
            s_do_body(ts, j);
        }
        assert forall|j: int| i < j <= ts.len() implies sound(#[trigger] p_step(ts, j)) by {
            lemma_sound_after(ts, j);
            s_step(ts, j);
        }
        assert forall|j: int| i < j <= ts.len() implies sound(#[trigger] p_for(ts, j)) by {
            lemma_sound_after(ts, j);
            s_for(ts, j);
        }
        assert forall|j: int, kw: Span, var: IdentV| i < j <= ts.len() implies sound(#[trigger] p_numeric_for(ts, j, kw, var)) by {
            lemma_sound_after(ts, j);
            s_numeric_for(ts, j, kw, var);
        }
        assert forall|j: int, kw: Span, first: IdentV| i < j <= ts.len() implies sound(#[trigger] p_generic_for(ts, j, kw, first)) by {
            lemma_sound_after(ts, j);
            s_generic_for(ts, j, kw, first);
        }
        assert forall|j: int| i < j <= ts.len() implies sound(#[trigger] p_iter(ts, j)) by {
            lemma_sound_after(ts, j);
            s_iter(ts, j);
        }
        assert forall|j: int, acc: Seq<ExprV>| i < j <= ts.len() implies sound(#[trigger] p_targets(ts, j, acc)) by {
            lemma_sound_after(ts, j);
            s_targets(ts, j, acc);
        }
        assert forall|j: int, first: ExprV| i < j <= ts.len() implies sound(#[trigger] p_assign(ts, j, first)) by {
            lemma_sound_after(ts, j);
            s_assign(ts, j, first);
        }
        assert forall|j: int| i < j <= ts.len() implies sound(#[trigger] p_expr_stat(ts, j)) by {
            lemma_sound_after(ts, j);
            s_expr_stat(ts, j);
        }
        assert forall|j: int, acc: Seq<(ExprV, BlockV)>| i < j <= ts.len() implies sound(#[trigger] p_elseifs(ts, j, acc)) by {
            lemma_sound_after(ts, j);
            s_elseifs(ts, j, acc);
        }
    }
}

proof fn lemma_decls_sound(ts: Seq<TokenV>, i: int, acc: Seq<TopDeclV>)
    ensures
        sound(p_decls(ts, i, acc)),
    decreases ts.len() - i,
{
    unfold_p_decls(ts, i, acc);
    if 0 <= i < ts.len() {
        unfold_p_func_decl(ts, i);
        match p_name(ts, i + 1) {
            Ok((_, j)) => {
                lemma_sound_after(ts, j);
                s_func_body(ts, j);
            },
            Err(_) => {},
        }
        unfold_p_const_decl(ts, i);
        match p_name(ts, i) {
            Ok((_, j)) => match p_expect(ts, j, TokenKind::Assign) {
                Ok((_, k)) => {
                    lemma_sound_after(ts, k);
                    s_expr_bp(ts, k, 0);
                },
                Err(_) => {},
            },
            Err(_) => {},
        }
        unfold_p_export(ts, i);
        lemma_sound_after(ts, i + 1);
        s_table(ts, i + 1);
        match p_func_decl(ts, i) {
            Ok((f, j)) => {
                if ahead(ts, i, j) {
                    lemma_decls_sound(ts, j, acc.push(TopDeclV::Function(f)));
                }
            },
            Err(_) => {},
        }
        match p_const_decl(ts, i) {
            Ok((c, j)) => {
                if ahead(ts, i, j) {
                    lemma_decls_sound(ts, j, acc.push(TopDeclV::Const(c)));
                }
            },
            Err(_) => {},
        }
    }
}

/// What stops the parser is an error.
pub proof fn law_parse_problems_are_errors(ts: Seq<TokenV>)
    ensures
        parse_of(ts) matches Err(d) ==> d.severity == Severity::Error,
{
    lemma_decls_sound(ts, 0, Seq::empty());
}

} // verus!
