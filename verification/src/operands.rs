//! What an accepted operator has for operands: types that the operator takes, once the
//! variables of the types are substituted.

use vstd::prelude::*;

use crate::ast::BinOp;
use crate::check::{c_operands, Check};
use crate::diagnostics::Span;
use crate::types::{deep, shallow, unfold_deep_n, unfold_unify_n, unify, Subst, TypeV};
use crate::unification::{
    acyclic, grows, law_bound_variables_stay, law_found_types_stay, law_substitution_is_repeated,
    law_unified_types_stay_equal, law_unify_keeps_acyclic, law_variables_are_followed, poisoned,
    within,
};

verus! {

/// Whether a type is, with its variables substituted, that type; or the poison type, of which
/// nothing is known.
pub open spec fn is_a(s: Subst, t: TypeV, want: TypeV) -> bool {
    deep(s, t) == want || deep(s, t) is Error
}

/// Whether two types are the same with their variables substituted, or poison occurs in one.
pub open spec fn same_type(s: Subst, a: TypeV, b: TypeV) -> bool {
    deep(s, a) == deep(s, b) || poisoned(deep(s, a)) || poisoned(deep(s, b))
}

/// Whether an operator takes operands of these types.
pub open spec fn takes_types(s: Subst, op: BinOp, l: TypeV, r: TypeV) -> bool {
    match op {
        BinOp::Add | BinOp::Sub | BinOp::Mul | BinOp::Div | BinOp::FloorDiv | BinOp::Mod
        | BinOp::Pow => is_a(s, l, TypeV::Number) && is_a(s, r, TypeV::Number),
        BinOp::Concat => is_a(s, l, TypeV::String) && is_a(s, r, TypeV::String),
        BinOp::Lt | BinOp::Le | BinOp::Gt | BinOp::Ge => (is_a(s, l, TypeV::Number) && is_a(
            s,
            r,
            TypeV::Number,
        )) || (is_a(s, l, TypeV::String) && is_a(s, r, TypeV::String)),
        BinOp::Eq | BinOp::Ne => deep(s, l) is Nil || deep(s, r) is Nil || same_type(s, l, r),
        BinOp::And | BinOp::Or => same_type(s, l, r),
    }
}

/// The type of what an operator yields.
pub open spec fn yields_type(s: Subst, op: BinOp, l: TypeV, t: TypeV) -> bool {
    match op {
        BinOp::Add | BinOp::Sub | BinOp::Mul | BinOp::Div | BinOp::FloorDiv | BinOp::Mod
        | BinOp::Pow => t == TypeV::Number,
        BinOp::Concat => t == TypeV::String,
        BinOp::And | BinOp::Or => deep(s, t) == deep(s, l),
        _ => t == TypeV::Bool,
    }
}

/// Whether a type is one without parts that is not the poison type.
pub(crate) open spec fn is_scalar_type(t: TypeV) -> bool {
    t is Number || t is Bool || t is String || t is Nil || t is Unit
}

/// A type that was unified with a type without parts is that type from then on.
pub(crate) proof fn lemma_unified_with(s: Subst, t: TypeV, want: TypeV, later: Subst)
    requires
        acyclic(s),
        within(t, s.len()),
        is_scalar_type(want),
        unify(s, t, want).1,
        acyclic(later),
        grows(later, unify(s, t, want).0),
    ensures
        is_a(later, t, want),
        grows(later, s),
{
    let n = s.len();
    assert(within(want, n));
    law_unify_keeps_acyclic(s, t, want);
    let s2 = unify(s, t, want).0;
    assert forall|i: int| #![trigger s[i]] 0 <= i < s.len() && s[i] is Some implies later[i]
        == s[i] by {
        assert(s2[i] == s[i]);
    }
    unfold_unify_n(s, t, want, n, n);
    crate::types::unfold_shallow_n(s, want, n);
    law_variables_are_followed(s, t);
    law_found_types_stay(s, t, later);
    let a = shallow(s, t);
    unfold_deep_n(later, a, later.len());
    unfold_deep_n(later, want, later.len());
    match a {
        TypeV::Var(i) => {
            assert(s2[i as int] == Some(want));
            law_bound_variables_stay(s2, i, later);
        },
        _ => {},
    }
}

/// What an operand that is required to be of a type is.
proof fn lemma_required(
    st: Check,
    span: Span,
    t: TypeV,
    want: TypeV,
    code: Seq<char>,
    ctx: Seq<char>,
    later: Subst,
)
    requires
        acyclic(st.subst),
        within(t, st.subst.len()),
        is_scalar_type(want),
    ensures
        ({
            let st1 = st.require(span, t, want, code, ctx);
            &&& acyclic(st1.subst)
            &&& grows(st1.subst, st.subst)
            &&& st1.subst.len() == st.subst.len()
            &&& st.diags.len() <= st1.diags.len()
            &&& acyclic(later) && grows(later, st1.subst) && st1.diags.len() == st.diags.len()
                ==> is_a(later, t, want) && grows(later, st.subst)
        }),
{
    assert(within(want, st.subst.len()));
    law_unify_keeps_acyclic(st.subst, t, want);
    let st1 = st.require(span, t, want, code, ctx);
    if acyclic(later) && grows(later, st1.subst) && st1.diags.len() == st.diags.len() {
        lemma_unified_with(st.subst, t, want, later);
    }
}

/// The operands of an operator that the checker has accepted are, from then on, of types that
/// the operator takes: strings for `..`, numbers or strings alike for a comparison, one type for
/// equality and for `and` and `or`.
pub proof fn law_accepted_operands(
    st: Check,
    op: BinOp,
    lt: TypeV,
    lspan: Span,
    rt: TypeV,
    rspan: Span,
    span: Span,
    later: Subst,
)
    requires
        acyclic(st.subst),
        within(lt, st.subst.len()),
        within(rt, st.subst.len()),
        op == BinOp::Concat || op == BinOp::Eq || op == BinOp::Ne || op == BinOp::Lt || op
            == BinOp::Le || op == BinOp::Gt || op == BinOp::Ge || op == BinOp::And || op
            == BinOp::Or,
        c_operands(st, op, lt, lspan, rt, rspan, span).0.diags.len() == st.diags.len(),
        acyclic(later),
        grows(later, c_operands(st, op, lt, lspan, rt, rspan, span).0.subst),
    ensures
        takes_types(later, op, lt, rt),
        yields_type(later, op, lt, c_operands(st, op, lt, lspan, rt, rspan, span).1),
{
    reveal(c_operands);
    let s = st.subst;
    match op {
        BinOp::Concat => {
            let ctx = "`..` requires strings"@;
            let st1 = st.require(lspan, lt, TypeV::String, "E0452"@, ctx);
            lemma_required(st, lspan, lt, TypeV::String, "E0452"@, ctx, later);
            lemma_required(st1, rspan, rt, TypeV::String, "E0452"@, ctx, later);
            lemma_required(st, lspan, lt, TypeV::String, "E0452"@, ctx, later);
        },
        BinOp::Eq | BinOp::Ne => {
            if shallow(s, lt) is Nil || shallow(s, rt) is Nil {
                law_found_types_stay(s, lt, later);
                law_found_types_stay(s, rt, later);
                unfold_deep_n(later, TypeV::Nil, later.len());
            } else {
                if !poisoned(deep(later, lt)) && !poisoned(deep(later, rt)) {
                    law_unified_types_stay_equal(s, lt, rt, later);
                }
            }
        },
        BinOp::And | BinOp::Or => {
            let s2 = unify(s, lt, rt).0;
            law_substitution_is_repeated(s2, lt, s2.len(), later);
            if !poisoned(deep(later, lt)) && !poisoned(deep(later, rt)) {
                law_unified_types_stay_equal(s, lt, rt, later);
            }
        },
        _ => {
            let want = if shallow(s, lt) is String || shallow(s, rt) is String {
                TypeV::String
            } else {
                TypeV::Number
            };
            let ctx = "comparison operand type mismatch"@;
            let st1 = st.require(lspan, lt, want, "E0453"@, ctx);
            lemma_required(st, lspan, lt, want, "E0453"@, ctx, later);
            lemma_required(st1, rspan, rt, want, "E0453"@, ctx, later);
        },
    }
}

} // verus!
