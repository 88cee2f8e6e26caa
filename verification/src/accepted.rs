//! What the checker has accepted: in a module without a problem, every operator has operands of
//! types that it takes, every condition is a bool, every loop bound a number, every key of the
//! kind that its container takes, every argument fits its parameter, every value its place, and
//! every function is given as many arguments as it has parameters. The types are those that the
//! checker has found, with their variables substituted as they are in the end.

use vstd::prelude::*;

use crate::ast::{
    BinOp, BlockV, ExprKindV, ExprV, FieldV, FuncBodyV, IdentV, IterExprV, ModuleV, RetStatV,
    StatKindV, StatV, TopDeclV, UnOp,
};
use crate::check::{
    all_keyed, all_named, all_positional, arity_error, array_of, c_all, c_args, c_arm, c_arms,
    c_assign_all, c_binary, c_bind_locals, c_block, c_bodies, c_call, c_condition, c_consts,
    c_elements, c_entries, c_exports, c_expr, c_field, c_func, c_index, c_iterated, c_literal,
    c_loop_vars, c_member_builtin, c_module, c_name, c_number, c_open_exports, c_operands, c_params,
    c_place, c_plain_call, c_record, c_return, c_settle_constants, c_settle_exports,
    c_settle_functions, c_settled, c_sig, c_sigs, c_stat, c_stats, c_table, c_unary, c_undetermined,
    c_value_builtin, c_values, count_error, map_of, namespace_of, narrowing_of, saw_value,
    start_check, typecheck_of, unfold_c_all, unfold_c_args, unfold_c_arm, unfold_c_arms,
    unfold_c_assign_all, unfold_c_binary, unfold_c_bind_locals, unfold_c_block, unfold_c_bodies,
    unfold_c_call, unfold_c_condition, unfold_c_consts, unfold_c_elements, unfold_c_entries,
    unfold_c_exports, unfold_c_expr, unfold_c_field, unfold_c_func, unfold_c_index,
    unfold_c_loop_vars, unfold_c_member_builtin, unfold_c_number, unfold_c_params, unfold_c_place,
    unfold_c_plain_call, unfold_c_record, unfold_c_return, unfold_c_settle_constants,
    unfold_c_settle_exports, unfold_c_settle_functions, unfold_c_sigs, unfold_c_stat,
    unfold_c_stats, unfold_c_table, unfold_c_unary, unfold_c_undetermined, unfold_c_value_builtin,
    unfold_c_values, Check, Env,
};
use crate::diagnostics::{any_error, Severity, Span};
use crate::names::{get_of, keys_of, lemma_pos, lemma_put_entries, pos_of, put_of};
use crate::operands::{is_a, law_accepted_operands, lemma_unified_with, takes_types, yields_type};
use crate::resolve::{BindingV, ResolutionV};
use crate::runtime::builtins::{field_type_of, member_sig_of, ArgRule};
use crate::types::{
    assignable_n, deep, is_bound, shallow, unfold_assignable_n, unfold_deep_n, unify, FnTypeV,
    Subst, TypeConfigV, TypeV,
};
use crate::unification::{
    acyclic, extends, grows, law_assignability_keeps_acyclic, law_found_types_stay,
    law_new_variables_keep_acyclic, law_unified_types_stay_equal, law_unify_keeps_acyclic,
    law_variables_are_followed, lemma_within, mentions, poisoned, within,
};

verus! {

// ---- what is claimed ---------------------------------------------------------------------

/// Whether a value of one type, its variables substituted, fits a place of another: the types are
/// the same, or the place may be nil and the value is nil or fits what else the place may be.
pub open spec fn widens(from: TypeV, to: TypeV) -> bool
    decreases to,
{
    ||| poisoned(from)
    ||| poisoned(to)
    ||| from == to
    ||| to matches TypeV::Optional(i) && (from is Nil || widens(from, *i) || (
    from matches TypeV::Optional(j) && widens(*j, *i)))
}

/// Whether a value of one type fits a place of another.
pub open spec fn fits(fin: Subst, from: TypeV, to: TypeV) -> bool {
    widens(deep(fin, from), deep(fin, to))
}

/// Whether two types are the same in the end, unless poison occurs in one.
pub open spec fn agree(fin: Subst, a: TypeV, b: TypeV) -> bool {
    deep(fin, a) == deep(fin, b) || poisoned(deep(fin, a)) || poisoned(deep(fin, b))
}

/// Whether a value has fields, and a read yields a type: none is known of a value whose type was
/// not known where it was read.
pub open spec fn has_fields(fin: Subst, base: TypeV, t: TypeV) -> bool {
    t is Error || deep(fin, base) is Record || (deep(fin, base) matches TypeV::MapOf(v) && deep(
        fin,
        t,
    ) == TypeV::Optional(v))
}

/// Whether a unary operator takes an operand: `#` takes one whose type was not known yet.
pub open spec fn unary_takes(fin: Subst, op: UnOp, st: Check, t: TypeV) -> bool {
    match op {
        UnOp::Neg => is_a(fin, t, TypeV::Number),
        UnOp::Not => is_a(fin, t, TypeV::Bool),
        UnOp::Len => shallow(st.subst, t) is Var || deep(fin, t) is String || deep(fin, t) is Array
            || deep(fin, t) is Error,
    }
}

pub open spec fn is_arithmetic(op: BinOp) -> bool {
    op == BinOp::Add || op == BinOp::Sub || op == BinOp::Mul || op == BinOp::Div || op
        == BinOp::FloorDiv || op == BinOp::Mod || op == BinOp::Pow
}

/// Whether an expression that is checked from a state on is sound.
#[verifier::opaque]
pub open spec fn t_expr(env: Env, st: Check, fin: Subst, e: ExprV) -> bool
    decreases e, 2int,
{
    match e.kind {
        ExprKindV::Nil | ExprKindV::Bool(_) | ExprKindV::Number(_) | ExprKindV::Str(_)
        | ExprKindV::Name(_) => true,
        ExprKindV::MethodCall { .. } => false,
        ExprKindV::Paren(x) => t_expr(env, st, fin, *x),
        ExprKindV::Function(body) => {
            let (s, sig) = c_sig(env, st, body.params);
            t_func(env, c_literal(s, body.span, sig), fin, body, sig)
        },
        ExprKindV::Field { base, name } => match namespace_of(env, *base) {
            Some(ns) => field_type_of(ns, name.node) is Some,
            None => t_expr(env, st, fin, *base) && has_fields(
                fin,
                c_expr(env, st, *base).1,
                c_expr(env, st, e).1,
            ),
        },
        ExprKindV::Index { base, index } => {
            let (s, bt) = c_expr(env, st, *base);
            let t = c_expr(env, st, e).1;
            t_expr(env, st, fin, *base) && match shallow(s.subst, bt) {
                TypeV::Array(x) => t == TypeV::Optional(x) && t_expr(env, s, fin, *index) && is_a(
                    fin,
                    c_expr(env, s, *index).1,
                    TypeV::Number,
                ),
                TypeV::MapOf(x) => t == TypeV::Optional(x) && t_expr(env, s, fin, *index) && is_a(
                    fin,
                    c_expr(env, s, *index).1,
                    TypeV::String,
                ),
                TypeV::Record(fs) => index.kind matches ExprKindV::Str(k) && get_of(fs, k) == Some(t),
                TypeV::Error => true,
                TypeV::Var(_) => t_expr(env, s, fin, *index) && (is_a(
                    fin,
                    c_expr(env, s, *index).1,
                    TypeV::String,
                ) || is_a(fin, c_expr(env, s, *index).1, TypeV::Number)),
                _ => false,
            }
        },
        ExprKindV::Call { callee, args } => match env.res.binding_of(callee.span) {
            Some(BindingV::Builtin(ns)) => t_value_call(env, st, fin, ns, args),
            _ => match callee.kind {
                ExprKindV::Field { base, name } => match namespace_of(env, *base) {
                    Some(ns) => t_member_call(env, st, fin, ns, name, args),
                    None => t_plain_call(env, st, fin, e),
                },
                _ => t_plain_call(env, st, fin, e),
            },
        },
        ExprKindV::Table(fs) => t_table(env, st, fin, fs),
        ExprKindV::Unary { op, operand } => {
            let (s, t) = c_expr(env, st, *operand);
            t_expr(env, st, fin, *operand) && unary_takes(fin, op, s, t) && c_expr(env, st, e).1 == (
            if op == UnOp::Not {
                TypeV::Bool
            } else {
                TypeV::Number
            })
        },
        ExprKindV::Binary { op, lhs, rhs } => {
            let (s, lt) = c_expr(env, st, *lhs);
            let mid = if is_arithmetic(op) {
                c_number(env, st, *lhs)
            } else {
                s
            };
            t_expr(env, st, fin, *lhs) && t_expr(env, mid, fin, *rhs) && takes_types(
                fin,
                op,
                lt,
                c_expr(env, mid, *rhs).1,
            ) && yields_type(fin, op, lt, c_expr(env, st, e).1)
        },
    }
}

/// A call of something that is no builtin: as many arguments as parameters, and each fits.
#[verifier::opaque]
pub open spec fn t_plain_call(env: Env, st: Check, fin: Subst, e: ExprV) -> bool
    decreases e, 0int,
{
    match e.kind {
        ExprKindV::Call { callee, args } => {
            let (s, ct) = c_expr(env, st, *callee);
            t_expr(env, st, fin, *callee) && match shallow(s.subst, ct) {
                TypeV::Function(ft) => args.len() == ft.params.len() && t_args(
                    env,
                    s,
                    fin,
                    args,
                    ft.params,
                    0,
                ) && c_expr(env, st, e).1 == *ft.ret,
                TypeV::Error | TypeV::Var(_) => t_all(env, s, fin, args, 0),
                _ => false,
            }
        },
        _ => true,
    }
}

#[verifier::opaque]
pub open spec fn t_all(env: Env, st: Check, fin: Subst, es: Seq<ExprV>, i: int) -> bool
    decreases es, es.len() - i,
{
    0 <= i < es.len() ==> t_expr(env, st, fin, es[i]) && t_all(
        env,
        c_expr(env, st, es[i]).0,
        fin,
        es,
        i + 1,
    )
}

#[verifier::opaque]
pub open spec fn t_args(env: Env, st: Check, fin: Subst, args: Seq<ExprV>, params: Seq<TypeV>, i: int) -> bool
    decreases args, args.len() - i,
{
    0 <= i < args.len() && i < params.len() ==> {
        let (s, t) = c_expr(env, st, args[i]);
        &&& t_expr(env, st, fin, args[i])
        &&& fits(fin, t, params[i])
        &&& t_args(
            env,
            s.require_assignable(args[i].span, t, params[i], "argument type mismatch"@),
            fin,
            args,
            params,
            i + 1,
        )
    }
}

#[verifier::opaque]
pub open spec fn t_value_call(env: Env, st: Check, fin: Subst, ns: Seq<char>, args: Seq<ExprV>) -> bool
    decreases args, args.len() + 1,
{
    ns == "tostring"@ || ns == "tonumber"@ ==> args.len() == 1 && t_expr(env, st, fin, args[0]) && (
    ns == "tonumber"@ ==> is_a(fin, c_expr(env, st, args[0]).1, TypeV::String))
}

#[verifier::opaque]
pub open spec fn t_member_call(
    env: Env,
    st: Check,
    fin: Subst,
    ns: Seq<char>,
    name: IdentV,
    args: Seq<ExprV>,
) -> bool
    decreases args, args.len() + 1,
{
    member_sig_of(ns, name.node) matches Some(sig) && (if sig.rule == ArgRule::FormatVariadic {
        args.len() > 0 && t_expr(env, st, fin, args[0]) && is_a(
            fin,
            c_expr(env, st, args[0]).1,
            TypeV::String,
        )
    } else {
        args.len() == sig.params.len() && t_args(env, st, fin, args, sig.params, 0)
    })
}

#[verifier::opaque]
pub open spec fn t_table(env: Env, st: Check, fin: Subst, fs: Seq<FieldV>) -> bool
    decreases fs, fs.len() + 1,
{
    let (s, v) = st.fresh();
    if fs.len() == 0 {
        true
    } else if all_positional(fs) {
        t_elements(env, s, fin, fs, v, 0)
    } else if all_named(fs) {
        t_record(env, st, fin, fs, 0)
    } else if all_keyed(fs) {
        t_entries(env, s, fin, fs, v, 0)
    } else {
        false
    }
}

/// The elements of an array are of one type.
#[verifier::opaque]
pub open spec fn t_elements(env: Env, st: Check, fin: Subst, fs: Seq<FieldV>, elem: TypeV, i: int) -> bool
    decreases fs, fs.len() - i,
{
    0 <= i < fs.len() ==> (fs[i] matches FieldV::Positional(e) ==> {
        let (s, t) = c_expr(env, st, e);
        &&& t_expr(env, st, fin, e)
        &&& agree(fin, t, elem)
        &&& t_elements(
            env,
            s.require(e.span, t, elem, "E0440"@, "array elements must share one type"@),
            fin,
            fs,
            elem,
            i + 1,
        )
    })
}

#[verifier::opaque]
pub open spec fn t_record(env: Env, st: Check, fin: Subst, fs: Seq<FieldV>, i: int) -> bool
    decreases fs, fs.len() - i,
{
    0 <= i < fs.len() ==> (fs[i] matches FieldV::Named { name, value } ==> t_expr(
        env,
        st,
        fin,
        value,
    ) && t_record(env, c_expr(env, st, value).0, fin, fs, i + 1))
}

/// The keys of a map are strings and its values of one type.
#[verifier::opaque]
pub open spec fn t_entries(env: Env, st: Check, fin: Subst, fs: Seq<FieldV>, val: TypeV, i: int) -> bool
    decreases fs, fs.len() - i,
{
    0 <= i < fs.len() ==> (fs[i] matches FieldV::Keyed { key, value } ==> {
        let (s1, kt) = c_expr(env, st, key);
        let s2 = s1.require(key.span, kt, TypeV::String, "E0441"@, "map keys must be strings"@);
        let (s3, vt) = c_expr(env, s2, value);
        &&& t_expr(env, st, fin, key)
        &&& is_a(fin, kt, TypeV::String)
        &&& t_expr(env, s2, fin, value)
        &&& agree(fin, vt, val)
        &&& t_entries(
            env,
            s3.require(value.span, vt, val, "E0442"@, "map values must share one type"@),
            fin,
            fs,
            val,
            i + 1,
        )
    })
}

#[verifier::opaque]
pub open spec fn t_func(env: Env, st: Check, fin: Subst, body: FuncBodyV, sig: FnTypeV) -> bool
    decreases body, 0int,
{
    t_block(env, Check { returns: st.returns.push((*sig.ret, false)), ..st }, fin, body.block)
}

#[verifier::opaque]
pub open spec fn t_block(env: Env, st: Check, fin: Subst, b: BlockV) -> bool
    decreases b, 1int,
{
    t_stats(env, st, fin, b.stats, 0) && (b.ret matches Some(r) ==> t_return(
        env,
        c_stats(env, st, b.stats, 0),
        fin,
        r,
    ))
}

#[verifier::opaque]
pub open spec fn t_stats(env: Env, st: Check, fin: Subst, ss: Seq<StatV>, i: int) -> bool
    decreases ss, ss.len() - i,
{
    0 <= i < ss.len() ==> t_stat(env, st, fin, ss[i]) && t_stats(
        env,
        c_stat(env, st, ss[i]),
        fin,
        ss,
        i + 1,
    )
}

/// A function returns one value at most, of the type that it returns elsewhere.
#[verifier::opaque]
pub open spec fn t_return(env: Env, st: Check, fin: Subst, r: RetStatV) -> bool
    decreases r, 0int,
{
    r.exprs.len() <= 1 && (r.exprs.len() == 1 ==> t_expr(env, st, fin, r.exprs[0]) && (
    st.returns.len() > 0 ==> agree(
        fin,
        c_expr(env, st, r.exprs[0]).1,
        st.returns.last().0,
    )))
}

/// A value fits the place that it is assigned to.
#[verifier::opaque]
pub open spec fn t_assigns(
    env: Env,
    st: Check,
    fin: Subst,
    targets: Seq<ExprV>,
    values: Seq<TypeV>,
    i: int,
) -> bool
    decreases targets, targets.len() - i,
{
    0 <= i < targets.len() && i < values.len() ==> {
        let (s, place) = c_place(env, st, targets[i]);
        &&& t_place(env, st, fin, targets[i])
        &&& fits(fin, values[i], place)
        &&& t_assigns(
            env,
            s.require_assignable(targets[i].span, values[i], place, "assignment type mismatch"@),
            fin,
            targets,
            values,
            i + 1,
        )
    }
}

/// The place of an assignment: the index of an array is a number, the key of a map a string.
#[verifier::opaque]
pub open spec fn t_place(env: Env, st: Check, fin: Subst, e: ExprV) -> bool
    decreases e, 3int,
{
    match e.kind {
        ExprKindV::Name(_) => true,
        ExprKindV::Field { base, name } => t_expr(env, st, fin, *base) && {
            let t = c_place(env, st, e).1;
            let b = deep(fin, c_expr(env, st, *base).1);
            t is Error || b is Record || (b matches TypeV::MapOf(v) && deep(fin, t) == *v)
        },
        ExprKindV::Index { base, index } => {
            let (s, bt) = c_expr(env, st, *base);
            t_expr(env, st, fin, *base) && match shallow(s.subst, bt) {
                TypeV::Array(x) => c_place(env, st, e).1 == *x && t_expr(env, s, fin, *index)
                    && is_a(fin, c_expr(env, s, *index).1, TypeV::Number),
                TypeV::MapOf(x) => c_place(env, st, e).1 == *x && t_expr(env, s, fin, *index)
                    && is_a(fin, c_expr(env, s, *index).1, TypeV::String),
                TypeV::Error | TypeV::Var(_) => true,
                _ => false,
            }
        },
        _ => t_expr(env, st, fin, e),
    }
}

#[verifier::opaque]
pub open spec fn t_number(env: Env, st: Check, fin: Subst, e: ExprV) -> bool
    decreases e, 3int,
{
    t_expr(env, st, fin, e) && is_a(fin, c_expr(env, st, e).1, TypeV::Number)
}

#[verifier::opaque]
pub open spec fn t_condition(env: Env, st: Check, fin: Subst, e: ExprV) -> bool
    decreases e, 3int,
{
    t_expr(env, st, fin, e) && is_a(fin, c_expr(env, st, e).1, TypeV::Bool)
}

#[verifier::opaque]
pub open spec fn t_arm(env: Env, st: Check, fin: Subst, arm: (ExprV, BlockV)) -> bool
    decreases arm, 0int,
{
    let s = c_condition(env, st, arm.0);
    t_condition(env, st, fin, arm.0) && match narrowing_of(env, s, arm.0) {
        None => t_block(env, s, fin, arm.1),
        Some((id, t)) => t_block(env, s.narrow(id, Some(t)), fin, arm.1),
    }
}

#[verifier::opaque]
pub open spec fn t_arms(env: Env, st: Check, fin: Subst, arms: Seq<(ExprV, BlockV)>, i: int) -> bool
    decreases arms, arms.len() - i,
{
    0 <= i < arms.len() ==> t_arm(env, st, fin, arms[i]) && t_arms(
        env,
        c_arm(env, st, arms[i]),
        fin,
        arms,
        i + 1,
    )
}

#[verifier::opaque]
pub open spec fn t_stat(env: Env, st: Check, fin: Subst, s: StatV) -> bool
    decreases s, 1int,
{
    match s.kind {
        StatKindV::Empty | StatKindV::Break => true,
        StatKindV::Local { names, exprs } => (exprs.len() == 0 || exprs.len() == names.len())
            && t_all(env, st, fin, exprs, 0),
        StatKindV::LocalFunction { name, body } => {
            let (s1, sig) = c_sig(env, st, body.params);
            let s2 = c_literal(s1, body.span, sig).set_def(env, name.span, TypeV::Function(sig));
            t_func(env, s2, fin, body, sig)
        },
        StatKindV::Assign { targets, exprs } => {
            let (s1, values) = c_values(env, st, exprs, 0, Seq::empty());
            targets.len() == exprs.len() && t_all(env, st, fin, exprs, 0) && t_assigns(
                env,
                s1,
                fin,
                targets,
                values,
                0,
            )
        },
        StatKindV::Call(e) => t_expr(env, st, fin, e),
        StatKindV::Do(b) => t_block(env, st, fin, b),
        StatKindV::While { cond, body } => t_condition(env, st, fin, cond) && t_block(
            env,
            c_condition(env, st, cond),
            fin,
            body,
        ),
        StatKindV::If { arms, else_block } => t_arms(env, st, fin, arms, 0) && (
        else_block matches Some(b) ==> t_block(env, c_arms(env, st, arms, 0), fin, b)),
        StatKindV::NumericFor { var, start, end, step, body } => {
            let s1 = c_number(env, st, start);
            let s2 = c_number(env, s1, end);
            let s3 = match step {
                Some(x) => c_number(env, s2, x),
                None => s2,
            };
            &&& t_number(env, st, fin, start)
            &&& t_number(env, s1, fin, end)
            &&& step matches Some(x) ==> t_number(env, s2, fin, x)
            &&& t_block(env, s3.set_def(env, var.span, TypeV::Number), fin, body)
        },
        StatKindV::GenericFor { names, iter, body } => {
            let ordered = iter is IPairs;
            let arg = match iter {
                IterExprV::IPairs { arg, .. } => arg,
                IterExprV::Pairs { arg, .. } => arg,
            };
            let (s1, at) = c_expr(env, st, arg);
            let (s2, val) = c_iterated(s1, at, ordered, arg.span);
            let key = if ordered {
                TypeV::Number
            } else {
                TypeV::String
            };
            let b = deep(fin, at);
            &&& names.len() <= 2
            &&& t_expr(env, st, fin, arg)
            &&& b is Error || (if ordered {
                b is Array
            } else {
                b is MapOf
            }) || shallow(s1.subst, at) is Var
            &&& t_block(env, c_loop_vars(env, s2, names, key, val, 0), fin, body)
        },
    }
}

#[verifier::opaque]
pub open spec fn t_consts(env: Env, st: Check, fin: Subst, ds: Seq<TopDeclV>, i: int) -> bool
    decreases ds.len() - i,
{
    0 <= i < ds.len() ==> match ds[i] {
        TopDeclV::Const(c) => {
            let (s, t) = c_expr(env, st, c.value);
            t_expr(env, st, fin, c.value) && t_consts(
                env,
                Check { const_types: put_of(s.const_types, c.name.node, deep(s.subst, t)), ..s },
                fin,
                ds,
                i + 1,
            )
        },
        TopDeclV::Function(_) => t_consts(env, st, fin, ds, i + 1),
    }
}

#[verifier::opaque]
pub open spec fn t_bodies(env: Env, st: Check, fin: Subst, ds: Seq<TopDeclV>, i: int) -> bool
    decreases ds.len() - i,
{
    0 <= i < ds.len() ==> match ds[i] {
        TopDeclV::Function(f) => match get_of(st.func_sigs, f.name.node) {
            Some(sig) => t_func(env, st, fin, f.body, sig) && t_bodies(
                env,
                c_func(env, st, f.body, sig),
                fin,
                ds,
                i + 1,
            ),
            None => t_bodies(env, st, fin, ds, i + 1),
        },
        TopDeclV::Const(_) => t_bodies(env, st, fin, ds, i + 1),
    }
}

/// Whether the constants and the functions of a module are sound.
pub open spec fn sound(env: Env, m: ModuleV, fin: Subst) -> bool {
    let s1 = c_consts(env, start_check(env), m.decls, 0);
    let s2 = c_sigs(env, s1, m.decls, 0);
    t_consts(env, start_check(env), fin, m.decls, 0) && t_bodies(env, s2, fin, m.decls, 0)
}

// ---- the state of the checker ------------------------------------------------------------

/// Whether the types that the checker keeps have the variables of its substitution, which has no
/// cycle, and everything that it has noted is an error.
#[verifier::opaque]
spec fn good(st: Check) -> bool {
    let n = st.subst.len();
    &&& acyclic(st.subst)
    &&& forall|i: int| 0 <= i < st.sym_types.len() ==> within(#[trigger] st.sym_types[i], n)
    &&& forall|i: int|
        0 <= i < st.narrowed.len() && (#[trigger] st.narrowed[i]) is Some ==> within(
            st.narrowed[i]->0,
            n,
        )
    &&& forall|i: int|
        0 <= i < st.func_sigs.len() ==> within(TypeV::Function((#[trigger] st.func_sigs[i]).1), n)
    &&& forall|i: int| 0 <= i < st.const_types.len() ==> within((#[trigger] st.const_types[i]).1, n)
    &&& forall|i: int| 0 <= i < st.returns.len() ==> within((#[trigger] st.returns[i]).0, n)
    &&& forall|i: int|
        0 <= i < st.diags.len() ==> (#[trigger] st.diags[i]).severity == Severity::Error
}

/// Whether the checker has gone from one state to another.
#[verifier::opaque]
spec fn went(a: Check, b: Check) -> bool {
    &&& good(b)
    &&& grows(b.subst, a.subst)
    &&& a.diags.len() <= b.diags.len()
    &&& b.returns.len() == a.returns.len()
}

/// Whether nothing was noted on the way, and what is known in the end follows.
spec fn ok(a: Check, b: Check, fin: Subst) -> bool {
    &&& b.diags.len() == a.diags.len()
    &&& acyclic(fin)
    &&& grows(fin, b.subst)
}

proof fn stay(a: Check)
    requires
        good(a),
    ensures
        went(a, a),
{
    reveal(went);
}

proof fn then_(a: Check, b: Check, c: Check)
    requires
        went(a, b),
        went(b, c),
    ensures
        went(a, c),
        good(b),
        good(c),
{
    reveal(went);
    assert forall|i: int| #![trigger a.subst[i]] 0 <= i < a.subst.len() && a.subst[i] is Some implies c.subst[i]
        == a.subst[i] by {
        assert(b.subst[i] == a.subst[i]);
    }
}

/// What holds of a way holds of its parts.
proof fn parts(a: Check, b: Check, c: Check, fin: Subst)
    requires
        went(a, b),
        went(b, c),
    ensures
        went(a, c),
        good(b),
        good(c),
        ok(a, c, fin) ==> ok(a, b, fin) && ok(b, c, fin),
{
    then_(a, b, c);
    reveal(went);
    if ok(a, c, fin) {
        assert forall|i: int| #![trigger b.subst[i]] 0 <= i < b.subst.len() && b.subst[i] is Some implies fin[i]
            == b.subst[i] by {
            assert(c.subst[i] == b.subst[i]);
        }
    }
}

/// A type has the variables of later substitutions.
proof fn more(t: TypeV, a: Check, b: Check)
    requires
        within(t, a.subst.len()),
        went(a, b),
    ensures
        within(t, b.subst.len()),
{
    reveal(went);
}

proof fn closed(t: TypeV, n: nat)
    requires
        within(t, 0),
    ensures
        within(t, n),
{
}

proof fn wrapped(t: TypeV, n: nat)
    requires
        within(t, n),
    ensures
        within(TypeV::Optional(Box::new(t)), n),
        within(array_of(t), n),
        within(map_of(t), n),
{
    assert forall|v: u32| mentions(TypeV::Optional(Box::new(t)), v) implies v < n by {
        assert(mentions(t, v));
    }
    assert forall|v: u32| mentions(array_of(t), v) implies v < n by {
        assert(mentions(t, v));
    }
    assert forall|v: u32| mentions(map_of(t), v) implies v < n by {
        assert(mentions(t, v));
    }
}

proof fn noted(st: Check, code: Seq<char>, msg: Seq<char>, span: Span)
    requires
        good(st),
    ensures
        went(st, st.err(code, msg, span)),
        st.err(code, msg, span).diags.len() == st.diags.len() + 1,
{
    reveal(went);
    reveal(good);
}

proof fn freshened(st: Check)
    requires
        good(st),
    ensures
        went(st, st.fresh().0),
        within(st.fresh().1, st.fresh().0.subst.len()),
        st.fresh().0.diags == st.diags,
{
    reveal(went);
    reveal(good);
    law_new_variables_keep_acyclic(st.subst);
    let (s, v) = st.fresh();
    let n = st.subst.len();
    assert(st.subst.len() as u32 <= n);
    assert forall|i: int| 0 <= i < s.sym_types.len() implies within(
        #[trigger] s.sym_types[i],
        s.subst.len(),
    ) by {
        assert(within(st.sym_types[i], n));
    }
    assert forall|i: int| 0 <= i < s.narrowed.len() && (#[trigger] s.narrowed[i]) is Some implies within(
        s.narrowed[i]->0,
        s.subst.len(),
    ) by {
        assert(within(st.narrowed[i]->0, n));
    }
    assert forall|i: int| 0 <= i < s.func_sigs.len() implies within(
        TypeV::Function((#[trigger] s.func_sigs[i]).1),
        s.subst.len(),
    ) by {
        assert(within(TypeV::Function(st.func_sigs[i].1), n));
    }
    assert forall|i: int| 0 <= i < s.const_types.len() implies within(
        (#[trigger] s.const_types[i]).1,
        s.subst.len(),
    ) by {
        assert(within(st.const_types[i].1, n));
    }
    assert forall|i: int| 0 <= i < s.returns.len() implies within(
        (#[trigger] s.returns[i]).0,
        s.subst.len(),
    ) by {
        assert(within(st.returns[i].0, n));
    }
}

/// The same state with another substitution of the same variables.
proof fn resubstituted(st: Check, s: Subst)
    requires
        good(st),
        acyclic(s),
        extends(s, st.subst),
    ensures
        went(st, Check { subst: s, ..st }),
{
    reveal(went);
    reveal(good);
}

proof fn defined(env: Env, st: Check, span: Span, t: TypeV)
    requires
        good(st),
        within(t, st.subst.len()),
    ensures
        went(st, st.set_def(env, span, t)),
        st.set_def(env, span, t).diags == st.diags,
        st.set_def(env, span, t).subst == st.subst,
{
    reveal(went);
    reveal(good);
}

proof fn united(st: Check, a: TypeV, b: TypeV)
    requires
        good(st),
        within(a, st.subst.len()),
        within(b, st.subst.len()),
    ensures
        went(st, st.unified(a, b).0),
        st.unified(a, b).0.diags == st.diags,
        st.unified(a, b).0.subst.len() == st.subst.len(),
{
    assert(acyclic(st.subst)) by {
        reveal(good);
    }
    law_unify_keeps_acyclic(st.subst, a, b);
    resubstituted(st, unify(st.subst, a, b).0);
}

/// A requirement: where nothing is noted, the types are one from then on.
proof fn required(
    st: Check,
    span: Span,
    a: TypeV,
    b: TypeV,
    code: Seq<char>,
    ctx: Seq<char>,
    fin: Subst,
)
    requires
        good(st),
        within(a, st.subst.len()),
        within(b, st.subst.len()),
    ensures
        ({
            let s = st.require(span, a, b, code, ctx);
            &&& went(st, s)
            &&& ok(st, s, fin) ==> agree(fin, a, b) && grows(fin, st.subst)
            &&& ok(st, s, fin) && (b is Number || b is String || b is Bool) ==> is_a(fin, a, b)
        }),
{
    united(st, a, b);
    let (u, good_) = st.unified(a, b);
    let s = st.require(span, a, b, code, ctx);
    assert(acyclic(st.subst)) by {
        reveal(good);
    }
    then_good(st, u);
    if !good_ {
        let msg = ctx + ": expected "@ + u.text(b) + ", found "@ + u.text(a);
        noted(u, code, msg, span);
        then_(st, u, s);
    } else {
        if ok(st, s, fin) {
            stay(u);
            parts(st, u, u, fin);
            assert(grows(fin, st.subst)) by {
                reveal(went);
                assert forall|i: int|
                    #![trigger st.subst[i]]
                    0 <= i < st.subst.len() && st.subst[i] is Some implies fin[i]
                    == st.subst[i] by {
                    assert(u.subst[i] == st.subst[i]);
                }
            }
            if !poisoned(deep(fin, a)) && !poisoned(deep(fin, b)) {
                law_unified_types_stay_equal(st.subst, a, b, fin);
            }
            if b is Number || b is String || b is Bool {
                lemma_unified_with(st.subst, a, b, fin);
            }
        }
    }
}

proof fn then_good(a: Check, b: Check)
    requires
        went(a, b),
    ensures
        good(b),
        a.diags.len() <= b.diags.len(),
        b.returns.len() == a.returns.len(),
{
    reveal(went);
}

/// What is assigned fits from then on.
proof fn widened(s: Subst, from: TypeV, to: TypeV, n: nat, fin: Subst)
    requires
        acyclic(s),
        within(from, s.len()),
        within(to, s.len()),
        assignable_n(s, from, to, n).1,
        acyclic(fin),
        grows(fin, assignable_n(s, from, to, n).0),
    ensures
        fits(fin, from, to),
    decreases n, to,
{
    unfold_assignable_n(s, from, to, n);
    law_assignability_keeps_acyclic(s, from, to, n);
    let s2 = assignable_n(s, from, to, n).0;
    assert forall|i: int| #![trigger s[i]] 0 <= i < s.len() && s[i] is Some implies fin[i]
        == s[i] by {
        assert(s2[i] == s[i]);
    }
    law_found_types_stay(s, from, fin);
    law_found_types_stay(s, to, fin);
    let f = shallow(s, from);
    let t = shallow(s, to);
    law_followed_within(s, from);
    law_followed_within(s, to);
    lemma_within(f, s.len());
    lemma_within(t, s.len());
    unfold_deep_n(fin, f, fin.len());
    unfold_deep_n(fin, t, fin.len());
    if f is Error || t is Error {
    } else if t is Optional {
        let inner = *t->Optional_0;
        let m = if is_bound(s, to) { n - 1 } else { n as int };
        if f is Nil {
        } else if f is Optional {
            widened(s, *f->Optional_0, inner, m as nat, fin);
        } else {
            widened(s, f, inner, m as nat, fin);
        }
    } else {
        if !poisoned(deep(fin, f)) && !poisoned(deep(fin, t)) {
            law_unified_types_stay_equal(s, f, t, fin);
        }
    }
}

proof fn law_followed_within(s: Subst, t: TypeV)
    requires
        acyclic(s),
        within(t, s.len()),
    ensures
        within(shallow(s, t), s.len()),
{
    crate::unification::lemma_followed(s, t);
}

proof fn assigned(st: Check, span: Span, from: TypeV, to: TypeV, ctx: Seq<char>, fin: Subst)
    requires
        good(st),
        within(from, st.subst.len()),
        within(to, st.subst.len()),
    ensures
        ({
            let s = st.require_assignable(span, from, to, ctx);
            &&& went(st, s)
            &&& ok(st, s, fin) ==> fits(fin, from, to)
        }),
{
    assert(acyclic(st.subst)) by {
        reveal(good);
    }
    let n = st.subst.len();
    law_assignability_keeps_acyclic(st.subst, from, to, n);
    let (sub, yes) = assignable_n(st.subst, from, to, n);
    resubstituted(st, sub);
    let u = Check { subst: sub, ..st };
    let s = st.require_assignable(span, from, to, ctx);
    then_good(st, u);
    if !yes {
        let msg = ctx + ": expected "@ + u.text(to) + ", found "@ + u.text(from);
        noted(u, "E0402"@, msg, span);
        then_(st, u, s);
    } else {
        if ok(st, s, fin) {
            widened(st.subst, from, to, n, fin);
        }
    }
}

proof fn narrowed_(st: Check, id: u32, t: Option<TypeV>)
    requires
        good(st),
        t matches Some(x) ==> within(x, st.subst.len()),
    ensures
        went(st, st.narrow(id, t)),
        st.narrow(id, t).diags == st.diags,
        st.narrow(id, t).subst == st.subst,
{
    reveal(went);
    reveal(good);
}

proof fn symbol_within(st: Check, id: u32)
    requires
        good(st),
    ensures
        within(st.symbol_type(id), st.subst.len()),
        st.narrowing(id) matches Some(t) ==> within(t, st.subst.len()),
        id < st.sym_types.len() ==> within(st.sym_types[id as int], st.subst.len()),
{
    reveal(good);
}

proof fn listed<V>(s: Seq<(Seq<char>, V)>, k: Seq<char>)
    ensures
        get_of(s, k) matches Some(v) ==> exists|i: int| 0 <= i < s.len() && (#[trigger] s[i]).1 == v,
{
    lemma_pos(keys_of(s), k, 0);
    if get_of(s, k) is Some {
        let i = pos_of(keys_of(s), k, 0);
        assert(s[i].1 == get_of(s, k)->0);
    }
}

/// Whether the host's types have no variables.
pub open spec fn closed_env(env: Env) -> bool {
    &&& forall|i: int|
        0 <= i < env.cfg.host_functions.len() ==> within(
            TypeV::Function((#[trigger] env.cfg.host_functions[i]).1),
            0,
        )
    &&& forall|i: int|
        0 <= i < env.cfg.memory.len() ==> within((#[trigger] env.cfg.memory[i]).1, 0)
}

proof fn k_name(env: Env, st: Check, span: Span)
    requires
        good(st),
        closed_env(env),
    ensures
        went(st, c_name(env, st, span).0),
        within(c_name(env, st, span).1, c_name(env, st, span).0.subst.len()),
{
    reveal(c_name);
    stay(st);
    match env.res.binding_of(span) {
        Some(BindingV::Local(id)) | Some(BindingV::Upvalue(id)) => symbol_within(st, id),
        Some(BindingV::TopFunction(n)) => {
            listed(st.func_sigs, n);
            reveal(good);
        },
        Some(BindingV::TopConst(n)) => {
            listed(st.const_types, n);
            reveal(good);
        },
        Some(BindingV::HostFunction(n)) => {
            listed(env.cfg.host_functions, n);
            if get_of(env.cfg.host_functions, n) is Some {
                closed(
                    TypeV::Function(get_of(env.cfg.host_functions, n)->0),
                    st.subst.len(),
                );
            }
        },
        Some(BindingV::Memory(n)) => {
            listed(env.cfg.memory, n);
            if get_of(env.cfg.memory, n) is Some {
                closed(get_of(env.cfg.memory, n)->0, st.subst.len());
            }
        },
        Some(BindingV::Builtin(ns)) => {
            noted(
                st,
                "E0418"@,
                "`"@ + ns + "` is a builtin namespace and can only be used via a call"@,
                span,
            );
        },
        None => {},
    }
}

proof fn k_params(env: Env, st: Check, params: Seq<IdentV>, i: int, acc: Seq<TypeV>)
    requires
        good(st),
        0 <= i <= params.len(),
        forall|k: int| 0 <= k < acc.len() ==> within(#[trigger] acc[k], st.subst.len()),
    ensures
        ({
            let (s, ps) = c_params(env, st, params, i, acc);
            &&& went(st, s)
            &&& s.diags == st.diags
            &&& forall|k: int| 0 <= k < ps.len() ==> within(#[trigger] ps[k], s.subst.len())
        }),
    decreases params.len() - i,
{
    unfold_c_params(env, st, params, i, acc);
    stay(st);
    if i < params.len() {
        freshened(st);
        let (s1, v) = st.fresh();
        then_good(st, s1);
        defined(env, s1, params[i].span, v);
        let s2 = s1.set_def(env, params[i].span, v);
        then_(st, s1, s2);
        let more_ = acc.push(v);
        assert forall|k: int| 0 <= k < more_.len() implies within(
            #[trigger] more_[k],
            s2.subst.len(),
        ) by {
            if k < acc.len() {
                more(acc[k], st, s1);
            }
        }
        k_params(env, s2, params, i + 1, more_);
        then_(st, s2, c_params(env, s2, params, i + 1, more_).0);
    }
}

proof fn k_sig(env: Env, st: Check, params: Seq<IdentV>)
    requires
        good(st),
    ensures
        ({
            let (s, sig) = c_sig(env, st, params);
            &&& went(st, s)
            &&& s.diags == st.diags
            &&& within(TypeV::Function(sig), s.subst.len())
            &&& within(*sig.ret, s.subst.len())
        }),
{
    k_params(env, st, params, 0, Seq::empty());
    let (s1, ps) = c_params(env, st, params, 0, Seq::empty());
    then_good(st, s1);
    freshened(s1);
    let (s2, r) = s1.fresh();
    then_(st, s1, s2);
    let sig = FnTypeV { params: ps, ret: Box::new(r) };
    assert forall|v: u32| mentions(TypeV::Function(sig), v) implies v < s2.subst.len() by {
        if !mentions(r, v) {
            let k = choose|k: int| 0 <= k < ps.len() && mentions(#[trigger] ps[k], v);
            more(ps[k], s1, s2);
        }
    }
}

proof fn literally(st: Check, span: Span, sig: FnTypeV)
    requires
        good(st),
    ensures
        went(st, c_literal(st, span, sig)),
        c_literal(st, span, sig).diags == st.diags,
        c_literal(st, span, sig).subst == st.subst,
{
    reveal(went);
    reveal(good);
}

/// The innermost open function is another.
proof fn opened(st: Check, t: TypeV)
    requires
        good(st),
        within(t, st.subst.len()),
    ensures
        good(Check { returns: st.returns.push((t, false)), ..st }),
{
    reveal(good);
    let s = Check { returns: st.returns.push((t, false)), ..st };
    assert forall|i: int| 0 <= i < s.returns.len() implies within(
        (#[trigger] s.returns[i]).0,
        s.subst.len(),
    ) by {
        if i < st.returns.len() {
            assert(s.returns[i] == st.returns[i]);
        }
    }
}

proof fn shut(st: Check)
    requires
        good(st),
        st.returns.len() > 0,
    ensures
        good(Check { returns: st.returns.drop_last(), ..st }),
        within(st.returns.last().0, st.subst.len()),
{
    reveal(good);
    let s = Check { returns: st.returns.drop_last(), ..st };
    assert forall|i: int| 0 <= i < s.returns.len() implies within(
        (#[trigger] s.returns[i]).0,
        s.subst.len(),
    ) by {
        assert(s.returns[i] == st.returns[i]);
    }
    assert(within(st.returns[st.returns.len() - 1].0, st.subst.len()));
}

proof fn saw(st: Check)
    requires
        good(st),
    ensures
        went(st, saw_value(st)),
        saw_value(st).diags == st.diags,
        saw_value(st).subst == st.subst,
{
    reveal(went);
    reveal(good);
    let s = saw_value(st);
    if st.returns.len() > 0 {
        assert forall|i: int| 0 <= i < s.returns.len() implies within(
            (#[trigger] s.returns[i]).0,
            s.subst.len(),
        ) by {
            assert(within(st.returns[i].0, st.subst.len()));
        }
    }
}

// ---- what is checked -------------------------------------------------------------------------

/// What is shown of the check of an expression.
spec fn checked(st: Check, r: (Check, TypeV), fin: Subst, sound_: bool) -> bool {
    &&& went(st, r.0)
    &&& within(r.1, r.0.subst.len())
    &&& ok(st, r.0, fin) ==> sound_
}

/// What is shown of the check of anything else.
spec fn passed(st: Check, s: Check, fin: Subst, sound_: bool) -> bool {
    &&& went(st, s)
    &&& ok(st, s, fin) ==> sound_
}

proof fn k_expr(env: Env, st: Check, e: ExprV, fin: Subst)
    requires
        good(st),
        closed_env(env),
    ensures
        checked(st, c_expr(env, st, e), fin, t_expr(env, st, fin, e)),
    decreases e, 2int,
{
    unfold_c_expr(env, st, e);
    reveal(t_expr);
    reveal(t_func);
    reveal(t_value_call);
    reveal(t_member_call);
    reveal(t_plain_call);
    reveal(t_table);
    stay(st);
    match e.kind {
        ExprKindV::Paren(x) => k_expr(env, st, *x, fin),
        ExprKindV::Name(_) => k_name(env, st, e.span),
        ExprKindV::Function(body) => {
            k_sig(env, st, body.params);
            let (s1, sig) = c_sig(env, st, body.params);
            then_good(st, s1);
            literally(s1, body.span, sig);
            let s2 = c_literal(s1, body.span, sig);
            then_(st, s1, s2);
            k_func(env, s2, body, sig, fin);
            let s3 = c_func(env, s2, body, sig);
            parts(st, s2, s3, fin);
            more(TypeV::Function(sig), s2, s3);
        },
        ExprKindV::Field { base, name } => k_field(env, st, e, fin),
        ExprKindV::Index { base, index } => k_index(env, st, e, fin),
        ExprKindV::Call { callee, args } => k_call(env, st, e, fin),
        ExprKindV::MethodCall { receiver, method, args } => {
            noted(
                st,
                "E0417"@,
                "method calls are not yet supported by the type checker"@,
                method.span,
            );
        },
        ExprKindV::Table(fields) => k_table(env, st, fields, e.span, fin),
        ExprKindV::Unary { op, operand } => k_unary(env, st, e, fin),
        ExprKindV::Binary { op, lhs, rhs } => k_binary(env, st, e, fin),
        _ => {},
    }
}

proof fn k_field(env: Env, st: Check, e: ExprV, fin: Subst)
    requires
        good(st),
        closed_env(env),
        e.kind is Field,
    ensures
        checked(st, c_field(env, st, e), fin, t_expr(env, st, fin, e)),
    decreases e, 1int,
{
    unfold_c_expr(env, st, e);
    unfold_c_field(env, st, e);
    reveal(t_expr);
    reveal(t_func);
    reveal(t_value_call);
    reveal(t_member_call);
    reveal(t_plain_call);
    reveal(t_table);
    stay(st);
    match e.kind {
        ExprKindV::Field { base, name } => match namespace_of(env, *base) {
            Some(ns) => {
                match field_type_of(ns, name.node) {
                    Some(t) => {
                        reveal(field_type_of);
                    },
                    None => noted(
                        st,
                        "E0419"@,
                        "`"@ + ns + "."@ + name.node + "` must be called"@,
                        name.span,
                    ),
                }
            },
            None => {
                k_expr(env, st, *base, fin);
                let (s, bt) = c_expr(env, st, *base);
                then_good(st, s);
                read_field(st, s, bt, fin);
                match shallow(s.subst, bt) {
                    TypeV::Record(fields) => match get_of(fields, name.node) {
                        Some(t) => {
                            listed(fields, name.node);
                        },
                        None => {
                            noted(
                                s,
                                "E0420"@,
                                "no field `"@ + name.node + "` on "@ + s.text(bt),
                                name.span,
                            );
                            then_(st, s, c_field(env, st, e).0);
                        },
                    },
                    TypeV::MapOf(_) | TypeV::Error | TypeV::Var(_) => {},
                    other => {
                        noted(
                            s,
                            "E0421"@,
                            "type "@ + s.text(other) + " has no fields"@,
                            name.span,
                        );
                        then_(st, s, c_field(env, st, e).0);
                    },
                }
            },
        },
        _ => {},
    }
}

/// What is found where a value is taken apart: the parts are types of the state, and the value
/// has them in the end.
proof fn read_field(st: Check, s: Check, bt: TypeV, fin: Subst)
    requires
        went(st, s),
        within(bt, s.subst.len()),
    ensures
        ({
            let n = s.subst.len();
            let b = shallow(s.subst, bt);
            &&& within(b, n)
            &&& b matches TypeV::Record(fs) ==> forall|k: int|
                #![trigger fs[k]]
                0 <= k < fs.len() ==> within(fs[k].1, n)
            &&& b matches TypeV::MapOf(v) ==> within(*v, n) && within(TypeV::Optional(v), n)
            &&& b matches TypeV::Array(v) ==> within(*v, n) && within(TypeV::Optional(v), n)
            &&& b matches TypeV::Optional(v) ==> within(*v, n)
            &&& b matches TypeV::Function(ft) ==> within(*ft.ret, n) && forall|k: int|
                0 <= k < ft.params.len() ==> within(#[trigger] ft.params[k], n)
            &&& ok(st, s, fin) ==> {
                &&& deep(fin, bt) == deep(fin, b)
                &&& b is Record ==> deep(fin, bt) is Record
                &&& b matches TypeV::MapOf(v) ==> deep(fin, bt) == TypeV::MapOf(
                    Box::new(deep(fin, *v)),
                ) && deep(fin, TypeV::Optional(v)) == TypeV::Optional(Box::new(deep(fin, *v)))
                &&& b is Array ==> deep(fin, bt) is Array
                &&& b is String ==> deep(fin, bt) is String
                &&& b is Error ==> deep(fin, bt) is Error
            }
        }),
{
    assert(acyclic(s.subst)) by {
        reveal(went);
        reveal(good);
    }
    let b = shallow(s.subst, bt);
    law_followed_within(s.subst, bt);
    lemma_within(b, s.subst.len());
    match b {
        TypeV::MapOf(v) => wrapped(*v, s.subst.len()),
        TypeV::Array(v) => wrapped(*v, s.subst.len()),
        _ => {},
    }
    if ok(st, s, fin) {
        law_found_types_stay(s.subst, bt, fin);
        unfold_deep_n(fin, b, fin.len());
        if b is MapOf {
            unfold_deep_n(fin, TypeV::Optional(b->MapOf_0), fin.len());
        }
    }
}

proof fn k_number(env: Env, st: Check, e: ExprV, fin: Subst)
    requires
        good(st),
        closed_env(env),
    ensures
        passed(st, c_number(env, st, e), fin, t_number(env, st, fin, e)),
        good(c_number(env, st, e)),
    decreases e, 3int,
{
    unfold_c_number(env, st, e);
    reveal(t_number);
    reveal(t_expr);
    k_expr(env, st, e, fin);
    let (s, t) = c_expr(env, st, e);
    then_good(st, s);
    required(s, e.span, t, TypeV::Number, "E0401"@, "expected a number"@, fin);
    parts(st, s, c_number(env, st, e), fin);
}

proof fn k_condition(env: Env, st: Check, e: ExprV, fin: Subst)
    requires
        good(st),
        closed_env(env),
    ensures
        passed(st, c_condition(env, st, e), fin, t_condition(env, st, fin, e)),
        good(c_condition(env, st, e)),
    decreases e, 3int,
{
    unfold_c_condition(env, st, e);
    reveal(t_condition);
    reveal(t_expr);
    k_expr(env, st, e, fin);
    let (s, t) = c_expr(env, st, e);
    then_good(st, s);
    required(s, e.span, t, TypeV::Bool, "E0400"@, "condition must be a bool"@, fin);
    parts(st, s, c_condition(env, st, e), fin);
}

proof fn k_index(env: Env, st: Check, e: ExprV, fin: Subst)
    requires
        good(st),
        closed_env(env),
        e.kind is Index,
    ensures
        checked(st, c_index(env, st, e), fin, t_expr(env, st, fin, e)),
    decreases e, 1int,
{
    unfold_c_expr(env, st, e);
    unfold_c_index(env, st, e);
    reveal(t_expr);
    reveal(t_func);
    reveal(t_value_call);
    reveal(t_member_call);
    reveal(t_plain_call);
    reveal(t_table);
    match e.kind {
        ExprKindV::Index { base, index } => {
            k_expr(env, st, *base, fin);
            let (s1, bt) = c_expr(env, st, *base);
            then_good(st, s1);
            read_field(st, s1, bt, fin);
            let end = c_index(env, st, e).0;
            match shallow(s1.subst, bt) {
                TypeV::Array(x) => {
                    k_number(env, s1, *index, fin);
                    parts(st, s1, end, fin);
                    more(TypeV::Optional(x), s1, end);
                    reveal(t_number);
                    reveal(t_expr);
                },
                TypeV::MapOf(v) => {
                    k_expr(env, s1, *index, fin);
                    let (s2, it) = c_expr(env, s1, *index);
                    then_good(s1, s2);
                    required(
                        s2,
                        index.span,
                        it,
                        TypeV::String,
                        "E0422"@,
                        "map key must be a string"@,
                        fin,
                    );
                    parts(s1, s2, end, fin);
                    parts(st, s1, end, fin);
                    more(TypeV::Optional(v), s1, end);
                },
                TypeV::Record(fields) => {
                    match index.kind {
                        ExprKindV::Str(key) => match get_of(fields, key) {
                            Some(t) => listed(fields, key),
                            None => {
                                noted(
                                    s1,
                                    "E0420"@,
                                    "no field `"@ + key + "` on "@ + s1.text(bt),
                                    index.span,
                                );
                                then_(st, s1, end);
                            },
                        },
                        _ => {
                            noted(
                                s1,
                                "E0423"@,
                                "a record can only be indexed by a string literal key"@,
                                index.span,
                            );
                            then_(st, s1, end);
                        },
                    }
                },
                TypeV::Error => {},
                TypeV::Var(_) => {
                    k_expr(env, s1, *index, fin);
                    let (s2, it) = c_expr(env, s1, *index);
                    then_good(s1, s2);
                    freshened(s2);
                    let (s3, elem) = s2.fresh();
                    then_good(s2, s3);
                    then_(s1, s2, s3);
                    more(bt, s1, s3);
                    more(it, s2, s3);
                    wrapped(elem, s3.subst.len());
                    if shallow(s3.subst, it) is String {
                        united(s3, bt, map_of(elem));
                        parts(s1, s3, end, fin);
                        parts(s2, s3, end, fin);
                        parts(s1, s2, end, fin);
                        parts(st, s1, end, fin);
                        more(elem, s3, end);
                        wrapped(elem, end.subst.len());
                        if ok(st, end, fin) {
                            read_field(s2, s3, it, fin);
                        }
                    } else {
                        let s4 = s3.require(
                            index.span,
                            it,
                            TypeV::Number,
                            "E0401"@,
                            "expected a number"@,
                        );
                        required(
                            s3,
                            index.span,
                            it,
                            TypeV::Number,
                            "E0401"@,
                            "expected a number"@,
                            fin,
                        );
                        then_good(s3, s4);
                        more(bt, s3, s4);
                        more(elem, s3, s4);
                        wrapped(elem, s4.subst.len());
                        united(s4, bt, array_of(elem));
                        parts(s3, s4, end, fin);
                        parts(s2, s3, end, fin);
                        parts(s1, s2, end, fin);
                        parts(st, s1, end, fin);
                        more(elem, s4, end);
                        wrapped(elem, end.subst.len());
                    }
                },
                other => {
                    noted(
                        s1,
                        "E0424"@,
                        "type "@ + s1.text(other) + " cannot be indexed"@,
                        base.span,
                    );
                    then_(st, s1, end);
                },
            }
        },
        _ => {},
    }
}

proof fn k_all(env: Env, st: Check, es: Seq<ExprV>, i: int, fin: Subst)
    requires
        good(st),
        closed_env(env),
        0 <= i,
    ensures
        passed(st, c_all(env, st, es, i), fin, t_all(env, st, fin, es, i)),
    decreases es, es.len() - i,
{
    unfold_c_all(env, st, es, i);
    reveal(t_all);
    reveal(t_expr);
    stay(st);
    if i < es.len() {
        k_expr(env, st, es[i], fin);
        let s = c_expr(env, st, es[i]).0;
        then_good(st, s);
        k_all(env, s, es, i + 1, fin);
        parts(st, s, c_all(env, s, es, i + 1), fin);
    }
}

proof fn k_values(env: Env, st: Check, es: Seq<ExprV>, i: int, acc: Seq<TypeV>, fin: Subst)
    requires
        good(st),
        closed_env(env),
        0 <= i,
        forall|k: int| 0 <= k < acc.len() ==> within(#[trigger] acc[k], st.subst.len()),
    ensures
        ({
            let (s, vs) = c_values(env, st, es, i, acc);
            &&& passed(st, s, fin, t_all(env, st, fin, es, i))
            &&& good(s)
            &&& forall|k: int| 0 <= k < vs.len() ==> within(#[trigger] vs[k], s.subst.len())
        }),
    decreases es, es.len() - i,
{
    unfold_c_values(env, st, es, i, acc);
    reveal(t_all);
    reveal(t_expr);
    stay(st);
    if i < es.len() {
        k_expr(env, st, es[i], fin);
        let (s, t) = c_expr(env, st, es[i]);
        then_good(st, s);
        let more_ = acc.push(t);
        assert forall|k: int| 0 <= k < more_.len() implies within(
            #[trigger] more_[k],
            s.subst.len(),
        ) by {
            if k < acc.len() {
                more(acc[k], st, s);
            }
        }
        k_values(env, s, es, i + 1, more_, fin);
        parts(st, s, c_values(env, s, es, i + 1, more_).0, fin);
    }
}

proof fn k_args(env: Env, st: Check, args: Seq<ExprV>, params: Seq<TypeV>, i: int, fin: Subst)
    requires
        good(st),
        closed_env(env),
        0 <= i,
        forall|k: int| 0 <= k < params.len() ==> within(#[trigger] params[k], st.subst.len()),
    ensures
        passed(st, c_args(env, st, args, params, i), fin, t_args(env, st, fin, args, params, i)),
    decreases args, args.len() - i,
{
    unfold_c_args(env, st, args, params, i);
    reveal(t_args);
    reveal(t_expr);
    stay(st);
    if i < args.len() {
        k_expr(env, st, args[i], fin);
        let (s1, t) = c_expr(env, st, args[i]);
        then_good(st, s1);
        let s2 = if i < params.len() {
            s1.require_assignable(args[i].span, t, params[i], "argument type mismatch"@)
        } else {
            s1
        };
        if i < params.len() {
            more(params[i], st, s1);
            assigned(s1, args[i].span, t, params[i], "argument type mismatch"@, fin);
        } else {
            stay(s1);
        }
        then_good(s1, s2);
        then_(st, s1, s2);
        assert forall|k: int| 0 <= k < params.len() implies within(
            #[trigger] params[k],
            s2.subst.len(),
        ) by {
            more(params[k], st, s2);
        }
        k_args(env, s2, args, params, i + 1, fin);
        let s3 = c_args(env, s2, args, params, i + 1);
        parts(s1, s2, s3, fin);
        parts(st, s1, s3, fin);
    }
}

proof fn k_call(env: Env, st: Check, e: ExprV, fin: Subst)
    requires
        good(st),
        closed_env(env),
        e.kind is Call,
    ensures
        checked(st, c_call(env, st, e), fin, t_expr(env, st, fin, e)),
    decreases e, 1int,
{
    unfold_c_expr(env, st, e);
    unfold_c_call(env, st, e);
    reveal(t_expr);
    reveal(t_func);
    reveal(t_value_call);
    reveal(t_member_call);
    reveal(t_plain_call);
    reveal(t_table);
    match e.kind {
        ExprKindV::Call { callee, args } => match env.res.binding_of(callee.span) {
            Some(BindingV::Builtin(ns)) => k_value_call(env, st, ns, args, e.span, fin),
            _ => match callee.kind {
                ExprKindV::Field { base, name } => match namespace_of(env, *base) {
                    Some(ns) => k_member_call(env, st, ns, name, args, e.span, fin),
                    None => k_plain_call(env, st, e, fin),
                },
                _ => k_plain_call(env, st, e, fin),
            },
        },
        _ => {},
    }
}

proof fn k_plain_call(env: Env, st: Check, e: ExprV, fin: Subst)
    requires
        good(st),
        closed_env(env),
        e.kind is Call,
        c_expr(env, st, e) == c_plain_call(env, st, e),
    ensures
        checked(st, c_plain_call(env, st, e), fin, t_plain_call(env, st, fin, e)),
    decreases e, 0int,
{
    unfold_c_plain_call(env, st, e);
    reveal(t_plain_call);
    reveal(t_expr);
    reveal(t_args);
    reveal(t_all);
    match e.kind {
        ExprKindV::Call { callee, args } => {
            k_expr(env, st, *callee, fin);
            let (s1, ct) = c_expr(env, st, *callee);
            then_good(st, s1);
            read_field(st, s1, ct, fin);
            let end = c_plain_call(env, st, e).0;
            stay(s1);
            match shallow(s1.subst, ct) {
                TypeV::Function(ft) => {
                    let msg = "this function takes "@ + crate::text::dec(ft.params.len())
                        + " argument(s) but "@ + crate::text::dec(args.len()) + " were supplied"@;
                    let s2 = if args.len() != ft.params.len() {
                        s1.err("E0430"@, msg, e.span)
                    } else {
                        s1
                    };
                    if args.len() != ft.params.len() {
                        noted(s1, "E0430"@, msg, e.span);
                    }
                    then_good(s1, s2);
                    assert forall|k: int| 0 <= k < ft.params.len() implies within(
                        #[trigger] ft.params[k],
                        s2.subst.len(),
                    ) by {
                        more(ft.params[k], s1, s2);
                    }
                    k_args(env, s2, args, ft.params, 0, fin);
                    parts(s1, s2, end, fin);
                    parts(st, s1, end, fin);
                    more(*ft.ret, s1, end);
                },
                TypeV::Error | TypeV::Var(_) => {
                    k_all(env, s1, args, 0, fin);
                    parts(st, s1, end, fin);
                },
                other => {
                    let s2 = s1.err(
                        "E0431"@,
                        "type "@ + s1.text(other) + " is not callable"@,
                        callee.span,
                    );
                    noted(
                        s1,
                        "E0431"@,
                        "type "@ + s1.text(other) + " is not callable"@,
                        callee.span,
                    );
                    then_good(s1, s2);
                    k_all(env, s2, args, 0, fin);
                    then_good(s2, end);
                    parts(s1, s2, end, fin);
                    parts(st, s1, end, fin);
                },
            }
        },
        _ => {},
    }
}

proof fn k_value_call(env: Env, st: Check, ns: Seq<char>, args: Seq<ExprV>, span: Span, fin: Subst)
    requires
        good(st),
        closed_env(env),
    ensures
        checked(
            st,
            c_value_builtin(env, st, ns, args, span),
            fin,
            t_value_call(env, st, fin, ns, args),
        ),
    decreases args, args.len() + 1,
{
    unfold_c_value_builtin(env, st, ns, args, span);
    reveal(t_value_call);
    reveal(t_expr);
    stay(st);
    assert("tostring"@ != "tonumber"@) by {
        reveal_strlit("tostring");
        reveal_strlit("tonumber");
        assert("tostring"@[2] == 's');
        assert("tonumber"@[2] == 'n');
    }
    let num = TypeV::Number;
    assert(within(num, c_value_builtin(env, st, ns, args, span).0.subst.len()));
    wrapped(num, c_value_builtin(env, st, ns, args, span).0.subst.len());
    if ns == "tostring"@ || ns == "tonumber"@ {
        let s1 = arity_error(st, ns, 1, args.len(), span);
        if args.len() != 1 {
            noted(
                st,
                "E0430"@,
                "`"@ + ns + "` takes "@ + crate::text::dec(1) + " argument(s) but "@
                    + crate::text::dec(args.len()) + " were supplied"@,
                span,
            );
        }
        then_good(st, s1);
        if args.len() > 0 {
            k_expr(env, s1, args[0], fin);
            let (s2, t) = c_expr(env, s1, args[0]);
            then_good(s1, s2);
            let end = c_value_builtin(env, st, ns, args, span).0;
            stay(s2);
            if ns == "tostring"@ {
                let u = shallow(s2.subst, t);
                if !(u is Number || u is Bool || u is String || u is Error || u is Var) {
                    noted(
                        s2,
                        "E0460"@,
                        "`tostring` accepts a number, bool, or string, found "@ + s2.text(u),
                        args[0].span,
                    );
                }
            } else {
                required(
                    s2,
                    args[0].span,
                    t,
                    TypeV::String,
                    "E0461"@,
                    "`tonumber` requires a string"@,
                    fin,
                );
            }
            parts(s1, s2, end, fin);
            parts(st, s1, end, fin);
        }
    }
}

proof fn k_member_call(
    env: Env,
    st: Check,
    ns: Seq<char>,
    name: IdentV,
    args: Seq<ExprV>,
    span: Span,
    fin: Subst,
)
    requires
        good(st),
        closed_env(env),
    ensures
        checked(
            st,
            c_member_builtin(env, st, ns, name, args, span),
            fin,
            t_member_call(env, st, fin, ns, name, args),
        ),
    decreases args, args.len() + 1,
{
    unfold_c_member_builtin(env, st, ns, name, args, span);
    reveal(t_member_call);
    reveal(t_expr);
    reveal(t_args);
    let end = c_member_builtin(env, st, ns, name, args, span).0;
    stay(st);
    match member_sig_of(ns, name.node) {
        None => {
            let msg = "`"@ + ns + "` has no builtin member `"@ + name.node + "`"@;
            let s1 = st.err("E0462"@, msg, name.span);
            noted(st, "E0462"@, msg, name.span);
            then_good(st, s1);
            k_all(env, s1, args, 0, fin);
            then_good(s1, end);
            parts(st, s1, end, fin);
        },
        Some(sig) => {
            member_within(ns, name.node);
            closed(sig.ret, end.subst.len());
            match sig.rule {
                ArgRule::FormatVariadic => {
                    if args.len() == 0 {
                        noted(
                            st,
                            "E0463"@,
                            "`string.format` requires at least a format string"@,
                            span,
                        );
                    } else {
                        k_expr(env, st, args[0], fin);
                        let (s1, ft) = c_expr(env, st, args[0]);
                        then_good(st, s1);
                        let s2 = s1.require(
                            args[0].span,
                            ft,
                            TypeV::String,
                            "E0463"@,
                            "format string must be a string"@,
                        );
                        required(
                            s1,
                            args[0].span,
                            ft,
                            TypeV::String,
                            "E0463"@,
                            "format string must be a string"@,
                            fin,
                        );
                        then_good(s1, s2);
                        k_all(env, s2, args, 1, fin);
                        parts(s1, s2, end, fin);
                        parts(st, s1, end, fin);
                    }
                },
                _ => {
                    let msg = "`"@ + ns + "."@ + name.node + "` takes "@ + crate::text::dec(
                        sig.params.len(),
                    ) + " argument(s) but "@ + crate::text::dec(args.len()) + " were supplied"@;
                    let s1 = if args.len() != sig.params.len() {
                        st.err("E0430"@, msg, span)
                    } else {
                        st
                    };
                    if args.len() != sig.params.len() {
                        noted(st, "E0430"@, msg, span);
                    }
                    then_good(st, s1);
                    assert forall|k: int| 0 <= k < sig.params.len() implies within(
                        #[trigger] sig.params[k],
                        s1.subst.len(),
                    ) by {
                        closed(sig.params[k], s1.subst.len());
                    }
                    k_args(env, s1, args, sig.params, 0, fin);
                    parts(st, s1, end, fin);
                },
            }
        },
    }
}

/// The types of builtins have no variables.
proof fn member_within(ns: Seq<char>, member: Seq<char>)
    ensures
        member_sig_of(ns, member) matches Some(sig) ==> within(sig.ret, 0) && forall|k: int|
            0 <= k < sig.params.len() ==> within(#[trigger] sig.params[k], 0),
{
    reveal(member_sig_of);
    let num = TypeV::Number;
    let text = TypeV::String;
    assert(within(num, 0) && within(text, 0));
    wrapped(num, 0);
}

proof fn k_table(env: Env, st: Check, fs: Seq<FieldV>, span: Span, fin: Subst)
    requires
        good(st),
        closed_env(env),
    ensures
        checked(st, c_table(env, st, fs, span), fin, t_table(env, st, fin, fs)),
    decreases fs, fs.len() + 1,
{
    unfold_c_table(env, st, fs, span);
    reveal(t_table);
    reveal(t_elements);
    reveal(t_record);
    reveal(t_entries);
    stay(st);
    freshened(st);
    let (s1, v) = st.fresh();
    then_good(st, s1);
    let end = c_table(env, st, fs, span).0;
    if fs.len() == 0 {
        wrapped(v, s1.subst.len());
    } else if all_positional(fs) {
        k_elements(env, s1, fs, v, 0, fin);
        parts(st, s1, end, fin);
        more(v, s1, end);
        wrapped(v, end.subst.len());
    } else if all_named(fs) {
        k_record(env, st, fs, 0, Seq::empty(), fin);
        let (s2, rec) = c_record(env, st, fs, 0, Seq::empty());
        assert forall|w: u32| mentions(TypeV::Record(rec), w) implies w < s2.subst.len() by {
            let k = choose|k: int| #![trigger rec[k]] 0 <= k < rec.len() && mentions(rec[k].1, w);
            assert(within(rec[k].1, s2.subst.len()));
        }
    } else if all_keyed(fs) {
        k_entries(env, s1, fs, v, 0, fin);
        parts(st, s1, end, fin);
        more(v, s1, end);
        wrapped(v, end.subst.len());
    } else {
        noted(
            st,
            "E0443"@,
            "a table must be all positional (array), all `name =` (record), or all `[key] =` (map) — these forms cannot be mixed"@,
            span,
        );
    }
}

proof fn k_elements(env: Env, st: Check, fs: Seq<FieldV>, elem: TypeV, i: int, fin: Subst)
    requires
        good(st),
        closed_env(env),
        0 <= i,
        within(elem, st.subst.len()),
    ensures
        passed(st, c_elements(env, st, fs, elem, i), fin, t_elements(env, st, fin, fs, elem, i)),
    decreases fs, fs.len() - i,
{
    unfold_c_elements(env, st, fs, elem, i);
    reveal(t_elements);
    reveal(t_expr);
    stay(st);
    if i < fs.len() {
        match fs[i] {
            FieldV::Positional(e) => {
                k_expr(env, st, e, fin);
                let (s1, t) = c_expr(env, st, e);
                then_good(st, s1);
                more(elem, st, s1);
                let ctx = "array elements must share one type"@;
                let s2 = s1.require(e.span, t, elem, "E0440"@, ctx);
                required(s1, e.span, t, elem, "E0440"@, ctx, fin);
                then_good(s1, s2);
                more(elem, s1, s2);
                k_elements(env, s2, fs, elem, i + 1, fin);
                let s3 = c_elements(env, s2, fs, elem, i + 1);
                parts(s1, s2, s3, fin);
                parts(st, s1, s3, fin);
            },
            _ => {},
        }
    }
}

proof fn k_record(
    env: Env,
    st: Check,
    fs: Seq<FieldV>,
    i: int,
    acc: Seq<(Seq<char>, TypeV)>,
    fin: Subst,
)
    requires
        good(st),
        closed_env(env),
        0 <= i,
        forall|k: int| 0 <= k < acc.len() ==> within((#[trigger] acc[k]).1, st.subst.len()),
    ensures
        ({
            let (s, rec) = c_record(env, st, fs, i, acc);
            &&& passed(st, s, fin, t_record(env, st, fin, fs, i))
            &&& forall|k: int| 0 <= k < rec.len() ==> within((#[trigger] rec[k]).1, s.subst.len())
        }),
    decreases fs, fs.len() - i,
{
    unfold_c_record(env, st, fs, i, acc);
    reveal(t_record);
    reveal(t_expr);
    stay(st);
    if i < fs.len() {
        match fs[i] {
            FieldV::Named { name, value } => {
                k_expr(env, st, value, fin);
                let (s1, t) = c_expr(env, st, value);
                then_good(st, s1);
                assert(acyclic(s1.subst)) by {
                    reveal(good);
                }
                law_variables_are_followed(s1.subst, t);
                let d = deep(s1.subst, t);
                lemma_put_entries(acc, name.node, d);
                let more_ = put_of(acc, name.node, d);
                assert forall|k: int| 0 <= k < more_.len() implies within(
                    (#[trigger] more_[k]).1,
                    s1.subst.len(),
                ) by {
                    if more_[k] != (name.node, d) {
                        assert(acc.contains(more_[k]));
                        let q = choose|q: int| 0 <= q < acc.len() && acc[q] == more_[k];
                        more(acc[q].1, st, s1);
                    }
                }
                k_record(env, s1, fs, i + 1, more_, fin);
                parts(st, s1, c_record(env, s1, fs, i + 1, more_).0, fin);
            },
            _ => {},
        }
    }
}

proof fn k_entries(env: Env, st: Check, fs: Seq<FieldV>, val: TypeV, i: int, fin: Subst)
    requires
        good(st),
        closed_env(env),
        0 <= i,
        within(val, st.subst.len()),
    ensures
        passed(st, c_entries(env, st, fs, val, i), fin, t_entries(env, st, fin, fs, val, i)),
    decreases fs, fs.len() - i,
{
    unfold_c_entries(env, st, fs, val, i);
    reveal(t_entries);
    reveal(t_expr);
    stay(st);
    if i < fs.len() {
        match fs[i] {
            FieldV::Keyed { key, value } => {
                k_expr(env, st, key, fin);
                let (s1, kt) = c_expr(env, st, key);
                then_good(st, s1);
                let kc = "map keys must be strings"@;
                let s2 = s1.require(key.span, kt, TypeV::String, "E0441"@, kc);
                required(s1, key.span, kt, TypeV::String, "E0441"@, kc, fin);
                then_good(s1, s2);
                k_expr(env, s2, value, fin);
                let (s3, vt) = c_expr(env, s2, value);
                then_good(s2, s3);
                then_(st, s1, s2);
                then_(st, s2, s3);
                more(val, st, s3);
                let vc = "map values must share one type"@;
                let s4 = s3.require(value.span, vt, val, "E0442"@, vc);
                required(s3, value.span, vt, val, "E0442"@, vc, fin);
                then_good(s3, s4);
                more(val, s3, s4);
                k_entries(env, s4, fs, val, i + 1, fin);
                let s5 = c_entries(env, s4, fs, val, i + 1);
                parts(s3, s4, s5, fin);
                parts(s2, s3, s5, fin);
                parts(s1, s2, s5, fin);
                parts(st, s1, s5, fin);
            },
            _ => {},
        }
    }
}

proof fn k_unary(env: Env, st: Check, e: ExprV, fin: Subst)
    requires
        good(st),
        closed_env(env),
        e.kind is Unary,
    ensures
        checked(st, c_unary(env, st, e), fin, t_expr(env, st, fin, e)),
    decreases e, 1int,
{
    unfold_c_expr(env, st, e);
    unfold_c_unary(env, st, e);
    reveal(t_expr);
    reveal(t_func);
    reveal(t_value_call);
    reveal(t_member_call);
    reveal(t_plain_call);
    reveal(t_table);
    match e.kind {
        ExprKindV::Unary { op, operand } => {
            k_expr(env, st, *operand, fin);
            let (s1, t) = c_expr(env, st, *operand);
            then_good(st, s1);
            let end = c_unary(env, st, e).0;
            stay(s1);
            match op {
                UnOp::Neg => {
                    k_number(env, st, *operand, fin);
                    reveal(t_number);
                    reveal(t_expr);
                },
                UnOp::Not => {
                    required(
                        s1,
                        operand.span,
                        t,
                        TypeV::Bool,
                        "E0450"@,
                        "`not` requires a bool"@,
                        fin,
                    );
                    parts(st, s1, end, fin);
                },
                UnOp::Len => {
                    let u = shallow(s1.subst, t);
                    if !(u is String || u is Array || u is Error || u is Var) {
                        noted(
                            s1,
                            "E0451"@,
                            "`#` requires a string or array, found "@ + s1.text(u),
                            e.span,
                        );
                    }
                    parts(st, s1, end, fin);
                    read_field(st, s1, t, fin);
                },
            }
        },
        _ => {},
    }
}

proof fn k_binary(env: Env, st: Check, e: ExprV, fin: Subst)
    requires
        good(st),
        closed_env(env),
        e.kind is Binary,
    ensures
        checked(st, c_binary(env, st, e), fin, t_expr(env, st, fin, e)),
    decreases e, 1int,
{
    unfold_c_expr(env, st, e);
    unfold_c_binary(env, st, e);
    reveal(t_expr);
    reveal(t_func);
    reveal(t_value_call);
    reveal(t_member_call);
    reveal(t_plain_call);
    reveal(t_table);
    match e.kind {
        ExprKindV::Binary { op, lhs, rhs } => {
            let end = c_binary(env, st, e).0;
            if is_arithmetic(op) {
                k_number(env, st, *lhs, fin);
                let s1 = c_number(env, st, *lhs);
                k_number(env, s1, *rhs, fin);
                parts(st, s1, end, fin);
                reveal(t_number);
                reveal(t_expr);
            } else {
                k_expr(env, st, *lhs, fin);
                let (s1, lt) = c_expr(env, st, *lhs);
                then_good(st, s1);
                k_expr(env, s1, *rhs, fin);
                let (s2, rt) = c_expr(env, s1, *rhs);
                then_good(s1, s2);
                more(lt, s1, s2);
                k_operands(s2, op, lt, lhs.span, rt, rhs.span, e.span, fin);
                parts(s1, s2, end, fin);
                parts(st, s1, end, fin);
            }
        },
        _ => {},
    }
}

proof fn k_operands(
    st: Check,
    op: BinOp,
    lt: TypeV,
    lspan: Span,
    rt: TypeV,
    rspan: Span,
    span: Span,
    fin: Subst,
)
    requires
        good(st),
        within(lt, st.subst.len()),
        within(rt, st.subst.len()),
        !is_arithmetic(op),
    ensures
        checked(
            st,
            c_operands(st, op, lt, lspan, rt, rspan, span),
            fin,
            takes_types(fin, op, lt, rt) && yields_type(
                fin,
                op,
                lt,
                c_operands(st, op, lt, lspan, rt, rspan, span).1,
            ),
        ),
{
    let (end, t) = c_operands(st, op, lt, lspan, rt, rspan, span);
    assert(acyclic(st.subst)) by {
        reveal(good);
    }
    if ok(st, end, fin) {
        law_accepted_operands(st, op, lt, lspan, rt, rspan, span, fin);
    }
    reveal(c_operands);
    stay(st);
    match op {
        BinOp::Concat => {
            let ctx = "`..` requires strings"@;
            let s1 = st.require(lspan, lt, TypeV::String, "E0452"@, ctx);
            required(st, lspan, lt, TypeV::String, "E0452"@, ctx, fin);
            then_good(st, s1);
            more(rt, st, s1);
            required(s1, rspan, rt, TypeV::String, "E0452"@, ctx, fin);
            then_(st, s1, end);
        },
        BinOp::Eq | BinOp::Ne => {
            united(st, lt, rt);
            let s1 = st.unified(lt, rt).0;
            then_good(st, s1);
            if !(shallow(st.subst, lt) is Nil || shallow(st.subst, rt) is Nil) && !st.unified(
                lt,
                rt,
            ).1 {
                noted(
                    s1,
                    "E0454"@,
                    "cannot compare "@ + s1.text(lt) + " with "@ + s1.text(rt)
                        + " — equality requires matching types"@,
                    span,
                );
                then_(st, s1, end);
            }
        },
        BinOp::And | BinOp::Or => {
            united(st, lt, rt);
            let s1 = st.unified(lt, rt).0;
            then_good(st, s1);
            if !st.unified(lt, rt).1 {
                let msg = "`"@ + op.spelling()
                    + "` requires both operands to have the same type, found "@ + s1.text(lt)
                    + " and "@ + s1.text(rt);
                noted(s1, "E0455"@, msg, span);
                then_(st, s1, end);
            }
            more(lt, st, end);
            then_good(st, end);
            assert(acyclic(end.subst)) by {
                reveal(good);
            }
            law_variables_are_followed(end.subst, lt);
        },
        _ => {
            let want = if shallow(st.subst, lt) is String || shallow(st.subst, rt) is String {
                TypeV::String
            } else {
                TypeV::Number
            };
            let ctx = "comparison operand type mismatch"@;
            let s1 = st.require(lspan, lt, want, "E0453"@, ctx);
            required(st, lspan, lt, want, "E0453"@, ctx, fin);
            then_good(st, s1);
            more(rt, st, s1);
            required(s1, rspan, rt, want, "E0453"@, ctx, fin);
            then_(st, s1, end);
        },
    }
}

proof fn k_func(env: Env, st: Check, body: FuncBodyV, sig: FnTypeV, fin: Subst)
    requires
        good(st),
        closed_env(env),
        within(*sig.ret, st.subst.len()),
    ensures
        passed(st, c_func(env, st, body, sig), fin, t_func(env, st, fin, body, sig)),
    decreases body, 0int,
{
    unfold_c_func(env, st, body, sig);
    reveal(t_func);
    reveal(t_block);
    let s1 = Check { returns: st.returns.push((*sig.ret, false)), ..st };
    opened(st, *sig.ret);
    k_block(env, s1, body.block, fin);
    let s2 = c_block(env, s1, body.block);
    then_good(s1, s2);
    let frame = s2.returns.last();
    let s3 = Check { returns: s2.returns.drop_last(), ..s2 };
    shut(s2);
    let end = c_func(env, st, body, sig);
    stay(s3);
    if !frame.1 {
        assert(within(TypeV::Unit, s3.subst.len()));
        united(s3, frame.0, TypeV::Unit);
    }
    assert(went(st, s3)) by {
        reveal(went);
        assert forall|i: int|
            #![trigger st.subst[i]]
            0 <= i < st.subst.len() && st.subst[i] is Some implies s3.subst[i] == st.subst[i] by {
            assert(s1.subst[i] == st.subst[i]);
        }
    }
    parts(st, s3, end, fin);
}

proof fn k_block(env: Env, st: Check, b: BlockV, fin: Subst)
    requires
        good(st),
        closed_env(env),
    ensures
        passed(st, c_block(env, st, b), fin, t_block(env, st, fin, b)),
    decreases b, 1int,
{
    unfold_c_block(env, st, b);
    reveal(t_block);
    reveal(t_stats);
    reveal(t_return);
    k_stats(env, st, b.stats, 0, fin);
    let s1 = c_stats(env, st, b.stats, 0);
    then_good(st, s1);
    match b.ret {
        Some(r) => {
            k_return(env, s1, r, fin);
            parts(st, s1, c_return(env, s1, r), fin);
        },
        None => {},
    }
}

proof fn k_stats(env: Env, st: Check, ss: Seq<StatV>, i: int, fin: Subst)
    requires
        good(st),
        closed_env(env),
        0 <= i,
    ensures
        passed(st, c_stats(env, st, ss, i), fin, t_stats(env, st, fin, ss, i)),
    decreases ss, ss.len() - i,
{
    unfold_c_stats(env, st, ss, i);
    reveal(t_stats);
    reveal(t_stat);
    stay(st);
    if i < ss.len() {
        k_stat(env, st, ss[i], fin);
        let s1 = c_stat(env, st, ss[i]);
        then_good(st, s1);
        k_stats(env, s1, ss, i + 1, fin);
        parts(st, s1, c_stats(env, s1, ss, i + 1), fin);
    }
}

proof fn k_return(env: Env, st: Check, r: RetStatV, fin: Subst)
    requires
        good(st),
        closed_env(env),
    ensures
        passed(st, c_return(env, st, r), fin, t_return(env, st, fin, r)),
    decreases r, 0int,
{
    unfold_c_return(env, st, r);
    reveal(t_return);
    reveal(t_expr);
    stay(st);
    let msg = "multiple return values are not supported in this version of Grindlang"@;
    let s1 = if r.exprs.len() > 1 {
        st.err("E0412"@, msg, r.span)
    } else {
        st
    };
    if r.exprs.len() > 1 {
        noted(st, "E0412"@, msg, r.span);
    }
    then_good(st, s1);
    let end = c_return(env, st, r);
    if r.exprs.len() > 0 {
        k_expr(env, s1, r.exprs[0], fin);
        let (s2, t) = c_expr(env, s1, r.exprs[0]);
        then_good(s1, s2);
        stay(s2);
        let s3 = if s1.returns.len() > 0 {
            s2.require(
                r.exprs[0].span,
                t,
                s1.returns.last().0,
                "E0413"@,
                "return type mismatch"@,
            )
        } else {
            s2
        };
        if s1.returns.len() > 0 {
            shut(s1);
            more(s1.returns.last().0, s1, s2);
            required(
                s2,
                r.exprs[0].span,
                t,
                s1.returns.last().0,
                "E0413"@,
                "return type mismatch"@,
                fin,
            );
        }
        then_good(s2, s3);
        saw(s3);
        parts(s2, s3, end, fin);
        parts(s1, s2, end, fin);
        parts(st, s1, end, fin);
    }
}

proof fn k_bind_locals(
    env: Env,
    st: Check,
    names: Seq<IdentV>,
    values: Seq<TypeV>,
    uninit: bool,
    i: int,
)
    requires
        good(st),
        0 <= i,
        forall|k: int| 0 <= k < values.len() ==> within(#[trigger] values[k], st.subst.len()),
    ensures
        went(st, c_bind_locals(env, st, names, values, uninit, i)),
        c_bind_locals(env, st, names, values, uninit, i).diags == st.diags,
    decreases names.len() - i,
{
    unfold_c_bind_locals(env, st, names, values, uninit, i);
    stay(st);
    if i < names.len() {
        freshened(st);
        let (f, v) = st.fresh();
        then_good(st, f);
        defined(env, f, names[i].span, v);
        then_(st, f, f.set_def(env, names[i].span, v));
        let t = if i < values.len() {
            values[i]
        } else {
            TypeV::Error
        };
        assert(within(TypeV::Error, st.subst.len()));
        defined(env, st, names[i].span, t);
        let s1 = match env.res.def_of(names[i].span) {
            Some(id) => if uninit {
                f.set_def(env, names[i].span, v)
            } else {
                st.set_def(env, names[i].span, t)
            },
            None => st,
        };
        then_good(st, s1);
        assert forall|k: int| 0 <= k < values.len() implies within(
            #[trigger] values[k],
            s1.subst.len(),
        ) by {
            more(values[k], st, s1);
        }
        k_bind_locals(env, s1, names, values, uninit, i + 1);
        then_(st, s1, c_bind_locals(env, s1, names, values, uninit, i + 1));
    }
}

proof fn k_assigns(
    env: Env,
    st: Check,
    targets: Seq<ExprV>,
    values: Seq<TypeV>,
    i: int,
    fin: Subst,
)
    requires
        good(st),
        closed_env(env),
        0 <= i,
        forall|k: int| 0 <= k < values.len() ==> within(#[trigger] values[k], st.subst.len()),
    ensures
        passed(
            st,
            c_assign_all(env, st, targets, values, i),
            fin,
            t_assigns(env, st, fin, targets, values, i),
        ),
    decreases targets, targets.len() - i,
{
    unfold_c_assign_all(env, st, targets, values, i);
    reveal(t_assigns);
    reveal(t_place);
    stay(st);
    if i < targets.len() && i < values.len() {
        k_place(env, st, targets[i], fin);
        let (s1, place) = c_place(env, st, targets[i]);
        then_good(st, s1);
        more(values[i], st, s1);
        let ctx = "assignment type mismatch"@;
        assigned(s1, targets[i].span, values[i], place, ctx, fin);
        let s2 = s1.require_assignable(targets[i].span, values[i], place, ctx);
        then_good(s1, s2);
        then_(st, s1, s2);
        assert forall|k: int| 0 <= k < values.len() implies within(
            #[trigger] values[k],
            s2.subst.len(),
        ) by {
            more(values[k], st, s2);
        }
        k_assigns(env, s2, targets, values, i + 1, fin);
        let s3 = c_assign_all(env, s2, targets, values, i + 1);
        parts(s1, s2, s3, fin);
        parts(st, s1, s3, fin);
    }
}

proof fn k_place(env: Env, st: Check, e: ExprV, fin: Subst)
    requires
        good(st),
        closed_env(env),
    ensures
        checked(st, c_place(env, st, e), fin, t_place(env, st, fin, e)),
    decreases e, 3int,
{
    unfold_c_place(env, st, e);
    reveal(t_place);
    reveal(t_expr);
    let end = c_place(env, st, e).0;
    match e.kind {
        ExprKindV::Name(_) => k_name(env, st, e.span),
        ExprKindV::Field { base, name } => {
            k_expr(env, st, *base, fin);
            let (s1, bt) = c_expr(env, st, *base);
            then_good(st, s1);
            read_field(st, s1, bt, fin);
            match shallow(s1.subst, bt) {
                TypeV::Record(fields) => match get_of(fields, name.node) {
                    Some(t) => listed(fields, name.node),
                    None => {
                        noted(
                            s1,
                            "E0420"@,
                            "no field `"@ + name.node + "` on "@ + s1.text(bt)
                                + " (fields cannot be added)"@,
                            name.span,
                        );
                        then_(st, s1, end);
                    },
                },
                TypeV::MapOf(_) | TypeV::Error | TypeV::Var(_) => {},
                other => {
                    noted(
                        s1,
                        "E0421"@,
                        "type "@ + s1.text(other) + " has no fields"@,
                        name.span,
                    );
                    then_(st, s1, end);
                },
            }
        },
        ExprKindV::Index { base, index } => {
            k_expr(env, st, *base, fin);
            let (s1, bt) = c_expr(env, st, *base);
            then_good(st, s1);
            read_field(st, s1, bt, fin);
            match shallow(s1.subst, bt) {
                TypeV::Array(x) => {
                    k_number(env, s1, *index, fin);
                    parts(st, s1, end, fin);
                    more(*x, s1, end);
                    reveal(t_number);
                    reveal(t_expr);
                },
                TypeV::MapOf(v) => {
                    k_expr(env, s1, *index, fin);
                    let (s2, it) = c_expr(env, s1, *index);
                    then_good(s1, s2);
                    required(
                        s2,
                        index.span,
                        it,
                        TypeV::String,
                        "E0422"@,
                        "map key must be a string"@,
                        fin,
                    );
                    parts(s1, s2, end, fin);
                    parts(st, s1, end, fin);
                    more(*v, s1, end);
                },
                TypeV::Error | TypeV::Var(_) => {},
                other => {
                    noted(
                        s1,
                        "E0424"@,
                        "type "@ + s1.text(other) + " cannot be indexed"@,
                        base.span,
                    );
                    then_(st, s1, end);
                },
            }
        },
        _ => k_expr(env, st, e, fin),
    }
}

proof fn k_arm(env: Env, st: Check, arm: (ExprV, BlockV), fin: Subst)
    requires
        good(st),
        closed_env(env),
    ensures
        passed(st, c_arm(env, st, arm), fin, t_arm(env, st, fin, arm)),
    decreases arm, 0int,
{
    unfold_c_arm(env, st, arm);
    reveal(t_arm);
    reveal(t_condition);
    reveal(t_block);
    k_condition(env, st, arm.0, fin);
    let s1 = c_condition(env, st, arm.0);
    let end = c_arm(env, st, arm);
    match narrowing_of(env, s1, arm.0) {
        None => {
            k_block(env, s1, arm.1, fin);
            parts(st, s1, end, fin);
        },
        Some((id, t)) => {
            narrowing_within(env, s1, arm.0);
            narrowed_(s1, id, Some(t));
            let s2 = s1.narrow(id, Some(t));
            then_good(s1, s2);
            k_block(env, s2, arm.1, fin);
            let s3 = c_block(env, s2, arm.1);
            then_good(s2, s3);
            symbol_within(s1, id);
            then_(s1, s2, s3);
            if s1.narrowing(id) is Some {
                more(s1.narrowing(id)->0, s1, s3);
            }
            narrowed_(s3, id, s1.narrowing(id));
            parts(s2, s3, end, fin);
            parts(s1, s2, end, fin);
            parts(st, s1, end, fin);
        },
    }
}

proof fn narrowing_within(env: Env, st: Check, cond: ExprV)
    requires
        good(st),
    ensures
        narrowing_of(env, st, cond) matches Some((id, t)) ==> within(t, st.subst.len()),
{
    reveal(narrowing_of);
    if narrowing_of(env, st, cond) is Some {
        let id = (narrowing_of(env, st, cond)->0).0;
        symbol_within(st, id);
        stay(st);
        read_field(st, st, st.sym_types[id as int], st.subst);
    }
}

proof fn k_arms(env: Env, st: Check, arms: Seq<(ExprV, BlockV)>, i: int, fin: Subst)
    requires
        good(st),
        closed_env(env),
        0 <= i,
    ensures
        passed(st, c_arms(env, st, arms, i), fin, t_arms(env, st, fin, arms, i)),
    decreases arms, arms.len() - i,
{
    unfold_c_arms(env, st, arms, i);
    reveal(t_arms);
    reveal(t_arm);
    stay(st);
    if i < arms.len() {
        k_arm(env, st, arms[i], fin);
        let s1 = c_arm(env, st, arms[i]);
        then_good(st, s1);
        k_arms(env, s1, arms, i + 1, fin);
        parts(st, s1, c_arms(env, s1, arms, i + 1), fin);
    }
}

proof fn k_iterated(st: Check, at: TypeV, ordered: bool, span: Span, fin: Subst)
    requires
        good(st),
        within(at, st.subst.len()),
    ensures
        checked(
            st,
            c_iterated(st, at, ordered, span),
            fin,
            deep(fin, at) is Error || (if ordered {
                deep(fin, at) is Array
            } else {
                deep(fin, at) is MapOf
            }) || shallow(st.subst, at) is Var,
        ),
{
    reveal(c_iterated);
    stay(st);
    read_field(st, st, at, fin);
    let end = c_iterated(st, at, ordered, span).0;
    match shallow(st.subst, at) {
        TypeV::Error => {},
        TypeV::Var(_) => {
            freshened(st);
            let (s1, v) = st.fresh();
            then_good(st, s1);
            more(at, st, s1);
            let want = if ordered {
                array_of(v)
            } else {
                map_of(v)
            };
            wrapped(v, s1.subst.len());
            united(s1, at, want);
            then_(st, s1, end);
        },
        other => {
            if ordered {
                if !(other is Array) {
                    noted(
                        st,
                        "E0415"@,
                        "`ipairs` expects an array, found "@ + st.text(other),
                        span,
                    );
                }
            } else {
                if !(other is MapOf) {
                    noted(
                        st,
                        "E0415"@,
                        "`pairs` expects a map, found "@ + st.text(other)
                            + " (iterating records is not yet supported)"@,
                        span,
                    );
                }
            }
        },
    }
}

proof fn k_loop_vars(env: Env, st: Check, names: Seq<IdentV>, key: TypeV, val: TypeV, i: int)
    requires
        good(st),
        0 <= i,
        within(key, st.subst.len()),
        within(val, st.subst.len()),
    ensures
        went(st, c_loop_vars(env, st, names, key, val, i)),
        c_loop_vars(env, st, names, key, val, i).diags == st.diags,
    decreases names.len() - i,
{
    unfold_c_loop_vars(env, st, names, key, val, i);
    stay(st);
    if i < names.len() {
        let t = if i == 0 {
            key
        } else if i == 1 {
            val
        } else {
            TypeV::Error
        };
        assert(within(TypeV::Error, st.subst.len()));
        defined(env, st, names[i].span, t);
        let s1 = st.set_def(env, names[i].span, t);
        then_good(st, s1);
        k_loop_vars(env, s1, names, key, val, i + 1);
        then_(st, s1, c_loop_vars(env, s1, names, key, val, i + 1));
    }
}

proof fn counted(st: Check, left: nat, what: Seq<char>, right: nat, span: Span)
    requires
        good(st),
    ensures
        went(st, count_error(st, left, what, right, span)),
        count_error(st, left, what, right, span).diags.len() == st.diags.len() + 1,
{
    noted(
        st,
        "E0414"@,
        "assignment arity mismatch: "@ + crate::text::dec(left) + what + crate::text::dec(right)
            + " value(s)"@,
        span,
    );
}

proof fn k_stat(env: Env, st: Check, s: StatV, fin: Subst)
    requires
        good(st),
        closed_env(env),
    ensures
        passed(st, c_stat(env, st, s), fin, t_stat(env, st, fin, s)),
    decreases s, 1int,
{
    unfold_c_stat(env, st, s);
    reveal(t_stat);
    reveal(t_all);
    reveal(t_func);
    reveal(t_assigns);
    reveal(t_expr);
    reveal(t_block);
    reveal(t_condition);
    reveal(t_arms);
    reveal(t_number);
    stay(st);
    let end = c_stat(env, st, s);
    match s.kind {
        StatKindV::Local { names, exprs } => {
            let s1 = if exprs.len() > 0 && exprs.len() != names.len() {
                count_error(st, names.len(), " name(s) but "@, exprs.len(), s.span)
            } else {
                st
            };
            counted(st, names.len(), " name(s) but "@, exprs.len(), s.span);
            then_good(st, s1);
            k_values(env, s1, exprs, 0, Seq::empty(), fin);
            let (s2, values) = c_values(env, s1, exprs, 0, Seq::empty());
            k_bind_locals(env, s2, names, values, exprs.len() == 0, 0);
            parts(s1, s2, end, fin);
            parts(st, s1, end, fin);
        },
        StatKindV::LocalFunction { name, body } => {
            k_sig(env, st, body.params);
            let (s1, sig) = c_sig(env, st, body.params);
            then_good(st, s1);
            literally(s1, body.span, sig);
            let s2 = c_literal(s1, body.span, sig);
            then_(st, s1, s2);
            defined(env, s2, name.span, TypeV::Function(sig));
            let s3 = s2.set_def(env, name.span, TypeV::Function(sig));
            then_(st, s2, s3);
            k_func(env, s3, body, sig, fin);
            parts(st, s3, end, fin);
        },
        StatKindV::Assign { targets, exprs } => {
            let s1 = if targets.len() != exprs.len() {
                count_error(st, targets.len(), " target(s) but "@, exprs.len(), s.span)
            } else {
                st
            };
            counted(st, targets.len(), " target(s) but "@, exprs.len(), s.span);
            then_good(st, s1);
            k_values(env, s1, exprs, 0, Seq::empty(), fin);
            let (s2, values) = c_values(env, s1, exprs, 0, Seq::empty());
            k_assigns(env, s2, targets, values, 0, fin);
            parts(s1, s2, end, fin);
            parts(st, s1, end, fin);
        },
        StatKindV::Call(e) => k_expr(env, st, e, fin),
        StatKindV::Do(b) => k_block(env, st, b, fin),
        StatKindV::While { cond, body } => {
            k_condition(env, st, cond, fin);
            let s1 = c_condition(env, st, cond);
            k_block(env, s1, body, fin);
            parts(st, s1, end, fin);
        },
        StatKindV::If { arms, else_block } => {
            k_arms(env, st, arms, 0, fin);
            let s1 = c_arms(env, st, arms, 0);
            then_good(st, s1);
            match else_block {
                Some(b) => {
                    k_block(env, s1, b, fin);
                    parts(st, s1, end, fin);
                },
                None => {},
            }
        },
        StatKindV::NumericFor { var, start, end: last, step, body } => {
            k_number(env, st, start, fin);
            let s1 = c_number(env, st, start);
            k_number(env, s1, last, fin);
            let s2 = c_number(env, s1, last);
            stay(s2);
            let s3 = match step {
                Some(x) => c_number(env, s2, x),
                None => s2,
            };
            match step {
                Some(x) => k_number(env, s2, x, fin),
                None => {},
            }
            then_good(s2, s3);
            assert(within(TypeV::Number, s3.subst.len()));
            defined(env, s3, var.span, TypeV::Number);
            let s4 = s3.set_def(env, var.span, TypeV::Number);
            then_good(s3, s4);
            k_block(env, s4, body, fin);
            parts(s3, s4, end, fin);
            parts(s2, s3, end, fin);
            parts(s1, s2, end, fin);
            parts(st, s1, end, fin);
        },
        StatKindV::GenericFor { names, iter, body } => {
            let ordered = iter is IPairs;
            let arg = match iter {
                IterExprV::IPairs { arg, .. } => arg,
                IterExprV::Pairs { arg, .. } => arg,
            };
            k_expr(env, st, arg, fin);
            let (s1, at) = c_expr(env, st, arg);
            then_good(st, s1);
            k_iterated(s1, at, ordered, arg.span, fin);
            let (s2, val) = c_iterated(s1, at, ordered, arg.span);
            then_good(s1, s2);
            let key = if ordered {
                TypeV::Number
            } else {
                TypeV::String
            };
            stay(s2);
            let msg = "a generic `for` binds at most two variables (key, value)"@;
            let s3 = if names.len() > 2 {
                s2.err("E0416"@, msg, names[2].span)
            } else {
                s2
            };
            if names.len() > 2 {
                noted(s2, "E0416"@, msg, names[2].span);
            }
            then_good(s2, s3);
            more(val, s2, s3);
            assert(within(key, s3.subst.len()));
            k_loop_vars(env, s3, names, key, val, 0);
            let s4 = c_loop_vars(env, s3, names, key, val, 0);
            then_good(s3, s4);
            k_block(env, s4, body, fin);
            parts(s3, s4, end, fin);
            parts(s2, s3, end, fin);
            parts(s1, s2, end, fin);
            parts(st, s1, end, fin);
        },
        _ => {},
    }
}

// ---- modules -----------------------------------------------------------------------------------

/// Entries with one more are still of types with the variables there are.
proof fn entered<V>(s: Seq<(Seq<char>, V)>, k: Seq<char>, v: V, i: int)
    requires
        0 <= i < put_of(s, k, v).len(),
    ensures
        put_of(s, k, v)[i].1 == v || exists|j: int| 0 <= j < s.len() && #[trigger] s[j] == put_of(
            s,
            k,
            v,
        )[i],
{
    lemma_put_entries(s, k, v);
    let x = put_of(s, k, v)[i];
    if x != (k, v) {
        assert(s.contains(x));
    }
}

proof fn k_consts(env: Env, st: Check, ds: Seq<TopDeclV>, i: int, fin: Subst)
    requires
        good(st),
        closed_env(env),
        0 <= i,
    ensures
        passed(st, c_consts(env, st, ds, i), fin, t_consts(env, st, fin, ds, i)),
    decreases ds.len() - i,
{
    unfold_c_consts(env, st, ds, i);
    reveal(t_consts);
    stay(st);
    if i < ds.len() {
        match ds[i] {
            TopDeclV::Const(c) => {
                k_expr(env, st, c.value, fin);
                let (s, t) = c_expr(env, st, c.value);
                then_good(st, s);
                assert(acyclic(s.subst)) by {
                    reveal(good);
                }
                law_variables_are_followed(s.subst, t);
                let d = deep(s.subst, t);
                let s1 = Check { const_types: put_of(s.const_types, c.name.node, d), ..s };
                assert(went(s, s1)) by {
                    reveal(went);
                    reveal(good);
                    assert forall|k: int| 0 <= k < s1.const_types.len() implies within(
                        (#[trigger] s1.const_types[k]).1,
                        s1.subst.len(),
                    ) by {
                        entered(s.const_types, c.name.node, d, k);
                    }
                }
                then_(st, s, s1);
                k_consts(env, s1, ds, i + 1, fin);
                let end = c_consts(env, s1, ds, i + 1);
                parts(s, s1, end, fin);
                parts(st, s, end, fin);
            },
            TopDeclV::Function(_) => {
                k_consts(env, st, ds, i + 1, fin);
            },
        }
    }
}

proof fn k_sigs(env: Env, st: Check, ds: Seq<TopDeclV>, i: int)
    requires
        good(st),
        0 <= i,
    ensures
        went(st, c_sigs(env, st, ds, i)),
    decreases ds.len() - i,
{
    unfold_c_sigs(env, st, ds, i);
    stay(st);
    if i < ds.len() {
        match ds[i] {
            TopDeclV::Function(f) => {
                k_sig(env, st, f.body.params);
                let (s, sig) = c_sig(env, st, f.body.params);
                then_good(st, s);
                let s1 = Check { func_sigs: put_of(s.func_sigs, f.name.node, sig), ..s };
                assert(went(s, s1)) by {
                    reveal(went);
                    reveal(good);
                    assert forall|k: int| 0 <= k < s1.func_sigs.len() implies within(
                        TypeV::Function((#[trigger] s1.func_sigs[k]).1),
                        s1.subst.len(),
                    ) by {
                        entered(s.func_sigs, f.name.node, sig, k);
                    }
                }
                then_(st, s, s1);
                k_sigs(env, s1, ds, i + 1);
                then_(st, s1, c_sigs(env, s1, ds, i + 1));
            },
            TopDeclV::Const(_) => {
                k_sigs(env, st, ds, i + 1);
            },
        }
    }
}

proof fn k_bodies(env: Env, st: Check, ds: Seq<TopDeclV>, i: int, fin: Subst)
    requires
        good(st),
        closed_env(env),
        0 <= i,
    ensures
        passed(st, c_bodies(env, st, ds, i), fin, t_bodies(env, st, fin, ds, i)),
    decreases ds.len() - i,
{
    unfold_c_bodies(env, st, ds, i);
    reveal(t_bodies);
    stay(st);
    if i < ds.len() {
        match ds[i] {
            TopDeclV::Function(f) => match get_of(st.func_sigs, f.name.node) {
                Some(sig) => {
                    listed(st.func_sigs, f.name.node);
                    assert(within(TypeV::Function(sig), st.subst.len())) by {
                        reveal(good);
                    }
                    lemma_within(TypeV::Function(sig), st.subst.len());
                    k_func(env, st, f.body, sig, fin);
                    let s1 = c_func(env, st, f.body, sig);
                    then_good(st, s1);
                    k_bodies(env, s1, ds, i + 1, fin);
                    parts(st, s1, c_bodies(env, s1, ds, i + 1), fin);
                },
                None => k_bodies(env, st, ds, i + 1, fin),
            },
            TopDeclV::Const(_) => k_bodies(env, st, ds, i + 1, fin),
        }
    }
}

proof fn k_undetermined(env: Env, st: Check, i: int)
    requires
        good(st),
        0 <= i,
    ensures
        went(st, c_undetermined(env, st, i)),
    decreases env.res.symbols.len() - i,
{
    unfold_c_undetermined(env, st, i);
    stay(st);
    if i < env.res.symbols.len() {
        let sym = env.res.symbols[i];
        let msg = "cannot infer the type of parameter `"@ + sym.name
            + "`; it is never used in a way that determines its type"@;
        noted(st, "E0410"@, msg, sym.def_span);
        let s1 = st.err("E0410"@, msg, sym.def_span);
        then_good(st, s1);
        k_undetermined(env, st, i + 1);
        k_undetermined(env, s1, i + 1);
        then_(st, s1, c_undetermined(env, s1, i + 1));
    }
}

proof fn k_exports(
    env: Env,
    st: Check,
    fs: Seq<FieldV>,
    i: int,
    acc: Seq<(Seq<char>, TypeV)>,
    fin: Subst,
)
    requires
        good(st),
        closed_env(env),
        0 <= i,
    ensures
        went(st, c_exports(env, st, fs, i, acc).0),
    decreases fs.len() - i,
{
    unfold_c_exports(env, st, fs, i, acc);
    stay(st);
    if i < fs.len() {
        let msg = "module export table entries must be `name = value`"@;
        match fs[i] {
            FieldV::Named { name, value } => {
                k_expr(env, st, value, fin);
                let (s1, t) = c_expr(env, st, value);
                then_good(st, s1);
                let more_ = put_of(acc, name.node, deep(s1.subst, t));
                k_exports(env, s1, fs, i + 1, more_, fin);
                then_(st, s1, c_exports(env, s1, fs, i + 1, more_).0);
            },
            FieldV::Positional(e) => {
                noted(st, "E0411"@, msg, e.span);
                let s1 = st.err("E0411"@, msg, e.span);
                then_good(st, s1);
                k_exports(env, s1, fs, i + 1, acc, fin);
                then_(st, s1, c_exports(env, s1, fs, i + 1, acc).0);
            },
            FieldV::Keyed { key, value } => {
                noted(st, "E0411"@, msg, key.span);
                let s1 = st.err("E0411"@, msg, key.span);
                then_good(st, s1);
                k_exports(env, s1, fs, i + 1, acc, fin);
                then_(st, s1, c_exports(env, s1, fs, i + 1, acc).0);
            },
        }
    }
}

/// What is flagged at last changes nothing else.
proof fn k_settled(st: Check, m: ModuleV, es: Seq<(Seq<char>, TypeV)>)
    ensures
        c_settled(st, m, es).subst == st.subst,
        st.diags.len() <= c_settled(st, m, es).diags.len(),
        forall|i: int|
            0 <= i < st.diags.len() ==> c_settled(st, m, es).diags[i] == #[trigger] st.diags[i],
{
    k_settle_functions(st, m, 0);
    let s1 = c_settle_functions(st, m, 0);
    k_settle_constants(s1, m, 0);
    let s2 = c_settle_constants(s1, m, 0);
    k_settle_exports(s2, m, es, 0);
    let s3 = c_settle_exports(s2, m, es, 0);
    assert forall|i: int| 0 <= i < st.diags.len() implies s3.diags[i] == #[trigger] st.diags[i]
        && s2.diags[i] == st.diags[i] by {
        assert(s1.diags[i] == st.diags[i]);
        assert(s2.diags[i] == s1.diags[i]);
        assert(s3.diags[i] == s2.diags[i]);
    }
}

spec fn flagged(a: Check, b: Check) -> bool {
    &&& b.subst == a.subst
    &&& a.diags.len() <= b.diags.len()
    &&& forall|i: int| 0 <= i < a.diags.len() ==> b.diags[i] == #[trigger] a.diags[i]
}

proof fn k_settle_functions(st: Check, m: ModuleV, i: int)
    requires
        0 <= i,
    ensures
        flagged(st, c_settle_functions(st, m, i)),
    decreases st.func_sigs.len() - i,
{
    unfold_c_settle_functions(st, m, i);
    if i < st.func_sigs.len() {
        let s1 = crate::check::unsettled(st, m, st.func_sigs[i].0);
        k_settle_functions(s1, m, i + 1);
        k_settle_functions(st, m, i + 1);
        let end = c_settle_functions(s1, m, i + 1);
        assert forall|k: int| 0 <= k < st.diags.len() implies end.diags[k] == #[trigger] st.diags[k] by {
            assert(s1.diags[k] == st.diags[k]);
        }
    }
}

proof fn k_settle_constants(st: Check, m: ModuleV, i: int)
    requires
        0 <= i,
    ensures
        flagged(st, c_settle_constants(st, m, i)),
    decreases st.const_types.len() - i,
{
    unfold_c_settle_constants(st, m, i);
    if i < st.const_types.len() {
        let s1 = crate::check::unsettled(st, m, st.const_types[i].0);
        k_settle_constants(s1, m, i + 1);
        k_settle_constants(st, m, i + 1);
        let end = c_settle_constants(s1, m, i + 1);
        assert forall|k: int| 0 <= k < st.diags.len() implies end.diags[k] == #[trigger] st.diags[k] by {
            assert(s1.diags[k] == st.diags[k]);
        }
    }
}

proof fn k_settle_exports(st: Check, m: ModuleV, es: Seq<(Seq<char>, TypeV)>, i: int)
    requires
        0 <= i,
    ensures
        flagged(st, c_settle_exports(st, m, es, i)),
    decreases es.len() - i,
{
    unfold_c_settle_exports(st, m, es, i);
    if i < es.len() {
        let s1 = crate::check::unsettled(st, m, es[i].0);
        k_settle_exports(s1, m, es, i + 1);
        k_settle_exports(st, m, es, i + 1);
        let end = c_settle_exports(s1, m, es, i + 1);
        assert forall|k: int| 0 <= k < st.diags.len() implies end.diags[k] == #[trigger] st.diags[k] by {
            assert(s1.diags[k] == st.diags[k]);
        }
    }
}

/// A module that the checker accepts is sound: every operator, condition, loop, index, call,
/// table, `return` and assignment in its constants and functions has parts of the types that it
/// takes, as these types are in the end.
pub proof fn law_accepted_modules_are_sound(m: ModuleV, res: ResolutionV, cfg: TypeConfigV)
    requires
        closed_env(Env { res, cfg }),
        typecheck_of(m, res, cfg) is Ok,
    ensures
        sound(Env { res, cfg }, m, c_module(Env { res, cfg }, m).0.subst),
{
    let env = Env { res, cfg };
    let s0 = start_check(env);
    assert(good(s0)) by {
        reveal(good);
        law_new_variables_keep_acyclic(Seq::empty());
    }
    let fin = c_module(env, m).0.subst;
    k_consts(env, s0, m.decls, 0, fin);
    let s1 = c_consts(env, s0, m.decls, 0);
    then_good(s0, s1);
    k_sigs(env, s1, m.decls, 0);
    let s2 = c_sigs(env, s1, m.decls, 0);
    then_good(s1, s2);
    k_bodies(env, s2, m.decls, 0, fin);
    let s3 = c_bodies(env, s2, m.decls, 0);
    then_good(s2, s3);
    k_undetermined(env, s3, 0);
    let s4 = c_undetermined(env, s3, 0);
    then_good(s3, s4);
    stay(s4);
    match m.export {
        Some(e) => k_exports(env, s4, e.node, 0, Seq::empty(), fin),
        None => {},
    }
    let (s5, es) = match m.export {
        Some(e) => c_exports(env, s4, e.node, 0, Seq::empty()),
        None => (s4, c_open_exports(s4, m.decls, 0, Seq::empty())),
    };
    then_good(s4, s5);
    k_settled(s5, m, es);
    let end = c_module(env, m).0;
    assert(s5.diags.len() == 0) by {
        if s5.diags.len() > 0 {
            assert(s5.diags[0].severity == Severity::Error) by {
                reveal(good);
            }
            assert(end.diags[0] == s5.diags[0]);
            assert(any_error(end.diags));
        }
    }
    assert(acyclic(fin)) by {
        reveal(good);
    }
    assert(ok(s0, s5, fin));
    parts(s3, s4, s5, fin);
    parts(s2, s3, s5, fin);
    parts(s1, s2, s5, fin);
    parts(s0, s1, s5, fin);
}


} // verus!
