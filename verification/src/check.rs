//! Static type checking: a bidirectional checker that infers parameter and local types from
//! usage.
//!
//! It consumes a module and its [`Resolution`] plus a [`TypeConfig`] describing host
//! functions and memory, and yields a [`TypeInfo`] with the module's export signature, or a
//! batch of [`Diagnostics`].
//!
//! * Parameter types are inferred from how they are used. A parameter whose type cannot be
//!   pinned that way is an error.
//! * Conditions must be `bool`; equality needs matching operand types; arithmetic is
//!   numeric, comparison numeric or on strings; `..` is on strings.
//! * A function returns no value or one.
//! * Flow narrowing is limited to `if <name> ~= nil` on a bare local.
//!
//! The rules are the functions `c_*` from one state of the checker to the next; the
//! `unfold_*` lemmas state each of them one step at a time.
use vstd::prelude::*;
use vstd::string::*;
use crate::ast::{
    arms_v, decls_v, exprs_v, fields_v, idents_v, stats_v, BinOp, Block, BlockV, Expr, ExprKind,
    ExprKindV, ExprV, Field, FieldV, FuncBody, FuncBodyV, Ident, IdentV, IterExpr, IterExprV,
    Module, ModuleV, RetStat, RetStatV, Stat, StatKind, StatKindV, StatV, TopDecl, TopDeclV, UnOp,
};
use crate::diagnostics::{
    any_error, error_at, Diagnostic, DiagnosticV, Diagnostics, Severity, Span,
};
use crate::names::{get_of, keys_of, put_of, NameMap};
use crate::resolve::{Binding, BindingV, Resolution, ResolutionV, SymbolId, SymbolKind};
use crate::runtime::builtins::{
    field_type_of, member_sig, member_sig_of, namespace_field_type, ArgRule,
};
use crate::spanmap::SpanMap;
use crate::text::{cat2, cat3, cat4, cat5, dec, dec_string, own, same};
use crate::types::{
    assignable_n, deep, deep_types, has_var, shallow, type_text, types_v, unfold_deep_n, unify, Fields,
    FnType, FnTypeV, Subst, Type, TypeConfig, TypeConfigV, TypeV, Unifier,
};

verus! {

/// What the checker consults throughout: the resolved names and the host's types.
pub ghost struct Env {
    pub res: ResolutionV,
    pub cfg: TypeConfigV,
}

/// What the checker knows at one point of its walk.
pub ghost struct Check {
    /// What each inference variable is bound to.
    pub subst: Subst,
    /// Type of each symbol, indexed by its id.
    pub sym_types: Seq<TypeV>,
    /// Narrowing overlay: a symbol temporarily refined to a non-optional type.
    pub narrowed: Seq<Option<TypeV>>,
    pub func_sigs: Seq<(Seq<char>, FnTypeV)>,
    pub const_types: Seq<(Seq<char>, TypeV)>,
    /// The return type of each open function, and whether a value was returned.
    pub returns: Seq<(TypeV, bool)>,
    /// The signature of each function literal, by the span of its body.
    pub literals: Map<Span, FnTypeV>,
    pub diags: Seq<DiagnosticV>,
}

impl Check {
    pub open spec fn err(self, code: Seq<char>, msg: Seq<char>, span: Span) -> Check {
        Check { diags: self.diags.push(error_at(code, msg, span)), ..self }
    }

    /// A new variable.
    pub open spec fn fresh(self) -> (Check, TypeV) {
        (
            Check { subst: self.subst.push(None), ..self },
            TypeV::Var(self.subst.len() as u32),
        )
    }

    /// The text of `t` with its variables substituted.
    pub open spec fn text(self, t: TypeV) -> Seq<char> {
        type_text(deep(self.subst, t))
    }

    /// Set the type of the symbol defined at `span`, if there is one.
    pub open spec fn set_def(self, env: Env, span: Span, t: TypeV) -> Check {
        match env.res.def_of(span) {
            Some(id) => if id < self.sym_types.len() {
                Check { sym_types: self.sym_types.update(id as int, t), ..self }
            } else {
                self
            },
            None => self,
        }
    }

    /// Unify two types.
    pub open spec fn unified(self, a: TypeV, b: TypeV) -> (Check, bool) {
        let (s, ok) = unify(self.subst, a, b);
        (Check { subst: s, ..self }, ok)
    }

    /// Unify `actual` with `expected`, with a diagnostic on mismatch.
    pub open spec fn require(
        self,
        span: Span,
        actual: TypeV,
        expected: TypeV,
        code: Seq<char>,
        ctx: Seq<char>,
    ) -> Check {
        let (st, ok) = self.unified(actual, expected);
        if ok {
            st
        } else {
            st.err(
                code,
                ctx + ": expected "@ + st.text(expected) + ", found "@ + st.text(actual),
                span,
            )
        }
    }

    /// Like `require`, with optional widening.
    pub open spec fn require_assignable(self, span: Span, from: TypeV, to: TypeV, ctx: Seq<char>) -> Check {
        let (s, ok) = assignable_n(self.subst, from, to, self.subst.len());
        let st = Check { subst: s, ..self };
        if ok {
            st
        } else {
            st.err(
                "E0402"@,
                ctx + ": expected "@ + st.text(to) + ", found "@ + st.text(from),
                span,
            )
        }
    }

    /// The type of a symbol: the narrowed one where there is one.
    pub open spec fn symbol_type(self, id: u32) -> TypeV {
        if id < self.narrowed.len() && self.narrowed[id as int] is Some {
            self.narrowed[id as int]->0
        } else if id < self.sym_types.len() {
            self.sym_types[id as int]
        } else {
            TypeV::Error
        }
    }

    /// Refine a symbol, or lift the refinement.
    pub open spec fn narrow(self, id: u32, t: Option<TypeV>) -> Check {
        if id < self.narrowed.len() {
            Check { narrowed: self.narrowed.update(id as int, t), ..self }
        } else {
            self
        }
    }

    /// What a symbol is refined to.
    pub open spec fn narrowing(self, id: u32) -> Option<TypeV> {
        if id < self.narrowed.len() {
            self.narrowed[id as int]
        } else {
            None
        }
    }
}

/// The type that a name stands for, or `Error`.
pub open spec fn or_error(t: Option<TypeV>) -> TypeV {
    match t {
        Some(x) => x,
        None => TypeV::Error,
    }
}

pub open spec fn fn_or_error(t: Option<FnTypeV>) -> TypeV {
    match t {
        Some(x) => TypeV::Function(x),
        None => TypeV::Error,
    }
}

pub open spec fn array_of(t: TypeV) -> TypeV {
    TypeV::Array(Box::new(t))
}

pub open spec fn map_of(t: TypeV) -> TypeV {
    TypeV::MapOf(Box::new(t))
}

/// The builtin that `e` names, if it is a name bound to one.
pub open spec fn namespace_of(env: Env, e: ExprV) -> Option<Seq<char>> {
    if e.kind is Name {
        match env.res.binding_of(e.span) {
            Some(BindingV::Builtin(ns)) => Some(ns),
            _ => None,
        }
    } else {
        None
    }
}

/// A name use.
#[verifier::opaque]
pub open spec fn c_name(env: Env, st: Check, span: Span) -> (Check, TypeV) {
    match env.res.binding_of(span) {
        None => (st, TypeV::Error),
        Some(BindingV::Local(id)) => (st, st.symbol_type(id)),
        Some(BindingV::Upvalue(id)) => (st, st.symbol_type(id)),
        Some(BindingV::TopFunction(n)) => (st, fn_or_error(get_of(st.func_sigs, n))),
        Some(BindingV::TopConst(n)) => (st, or_error(get_of(st.const_types, n))),
        Some(BindingV::HostFunction(n)) => (st, fn_or_error(get_of(env.cfg.host_functions, n))),
        Some(BindingV::Memory(n)) => (st, or_error(get_of(env.cfg.memory, n))),
        Some(BindingV::Builtin(ns)) => (
            st.err(
                "E0418"@,
                "`"@ + ns + "` is a builtin namespace and can only be used via a call"@,
                span,
            ),
            TypeV::Error,
        ),
    }
}

/// Fresh parameter types, bound to the parameters' symbols, for the parameters from `i` on.
#[verifier::opaque]
pub open spec fn c_params(env: Env, st: Check, params: Seq<IdentV>, i: int, acc: Seq<TypeV>) -> (
    Check,
    Seq<TypeV>,
)
    decreases params.len() - i,
{
    if i < 0 || i >= params.len() {
        (st, acc)
    } else {
        let (st1, v) = st.fresh();
        c_params(env, st1.set_def(env, params[i].span, v), params, i + 1, acc.push(v))
    }
}

/// A signature of fresh variables.
pub open spec fn c_sig(env: Env, st: Check, params: Seq<IdentV>) -> (Check, FnTypeV) {
    let (st1, ps) = c_params(env, st, params, 0, Seq::empty());
    let (st2, r) = st1.fresh();
    (st2, FnTypeV { params: ps, ret: Box::new(r) })
}

/// Record the signature of a function literal.
pub open spec fn c_literal(st: Check, span: Span, sig: FnTypeV) -> Check {
    Check { literals: st.literals.insert(span, sig), ..st }
}

#[verifier::opaque]
pub open spec fn c_expr(env: Env, st: Check, e: ExprV) -> (Check, TypeV)
    decreases e, 2int,
{
    match e.kind {
        ExprKindV::Nil => (st, TypeV::Nil),
        ExprKindV::Bool(_) => (st, TypeV::Bool),
        ExprKindV::Number(_) => (st, TypeV::Number),
        ExprKindV::Str(_) => (st, TypeV::String),
        ExprKindV::Paren(inner) => c_expr(env, st, *inner),
        ExprKindV::Name(_) => c_name(env, st, e.span),
        ExprKindV::Function(body) => {
            let (st1, sig) = c_sig(env, st, body.params);
            (c_func(env, c_literal(st1, body.span, sig), body, sig), TypeV::Function(sig))
        },
        ExprKindV::Field { base, name } => c_field(env, st, e),
        ExprKindV::Index { base, index } => c_index(env, st, e),
        ExprKindV::Call { callee, args } => c_call(env, st, e),
        ExprKindV::MethodCall { receiver, method, args } => (
            st.err(
                "E0417"@,
                "method calls are not yet supported by the type checker"@,
                method.span,
            ),
            TypeV::Error,
        ),
        ExprKindV::Table(fields) => c_table(env, st, fields, e.span),
        ExprKindV::Unary { op, operand } => c_unary(env, st, e),
        ExprKindV::Binary { op, lhs, rhs } => c_binary(env, st, e),
    }
}

/// `base.name`
#[verifier::opaque]
pub open spec fn c_field(env: Env, st: Check, e: ExprV) -> (Check, TypeV)
    decreases e, 1int,
{
    match e.kind {
        ExprKindV::Field { base, name } => match namespace_of(env, *base) {
            Some(ns) => match field_type_of(ns, name.node) {
                Some(t) => (st, t),
                None => (
                    st.err(
                        "E0419"@,
                        "`"@ + ns + "."@ + name.node + "` must be called"@,
                        name.span,
                    ),
                    TypeV::Error,
                ),
            },
            None => {
                let (st1, bt) = c_expr(env, st, *base);
                match shallow(st1.subst, bt) {
                    TypeV::Record(fields) => match get_of(fields, name.node) {
                        Some(t) => (st1, t),
                        None => (
                            st1.err(
                                "E0420"@,
                                "no field `"@ + name.node + "` on "@ + st1.text(bt),
                                name.span,
                            ),
                            TypeV::Error,
                        ),
                    },
                    TypeV::MapOf(v) => (st1, TypeV::Optional(v)),
                    TypeV::Error => (st1, TypeV::Error),
                    TypeV::Var(_) => (st1, TypeV::Error),
                    other => (
                        st1.err(
                            "E0421"@,
                            "type "@ + st1.text(other) + " has no fields"@,
                            name.span,
                        ),
                        TypeV::Error,
                    ),
                }
            },
        },
        _ => (st, TypeV::Error),
    }
}

/// `base[index]`
#[verifier::opaque]
pub open spec fn c_index(env: Env, st: Check, e: ExprV) -> (Check, TypeV)
    decreases e, 1int,
{
    match e.kind {
        ExprKindV::Index { base, index } => {
            let (st1, bt) = c_expr(env, st, *base);
            match shallow(st1.subst, bt) {
                TypeV::Array(x) => (c_number(env, st1, *index), TypeV::Optional(x)),
                TypeV::MapOf(v) => {
                    let (st2, it) = c_expr(env, st1, *index);
                    (
                        st2.require(
                            index.span,
                            it,
                            TypeV::String,
                            "E0422"@,
                            "map key must be a string"@,
                        ),
                        TypeV::Optional(v),
                    )
                },
                TypeV::Record(fields) => match index.kind {
                    ExprKindV::Str(key) => match get_of(fields, key) {
                        Some(t) => (st1, t),
                        None => (
                            st1.err(
                                "E0420"@,
                                "no field `"@ + key + "` on "@ + st1.text(bt),
                                index.span,
                            ),
                            TypeV::Error,
                        ),
                    },
                    _ => (
                        st1.err(
                            "E0423"@,
                            "a record can only be indexed by a string literal key"@,
                            index.span,
                        ),
                        TypeV::Error,
                    ),
                },
                TypeV::Error => (st1, TypeV::Error),
                TypeV::Var(_) => {
                    // A numeric key implies an array, a string key a map.
                    let (st2, it) = c_expr(env, st1, *index);
                    let (st3, elem) = st2.fresh();
                    if shallow(st3.subst, it) is String {
                        (st3.unified(bt, map_of(elem)).0, TypeV::Optional(Box::new(elem)))
                    } else {
                        let st4 = st3.require(
                            index.span,
                            it,
                            TypeV::Number,
                            "E0401"@,
                            "expected a number"@,
                        );
                        (st4.unified(bt, array_of(elem)).0, TypeV::Optional(Box::new(elem)))
                    }
                },
                other => (
                    st1.err(
                        "E0424"@,
                        "type "@ + st1.text(other) + " cannot be indexed"@,
                        base.span,
                    ),
                    TypeV::Error,
                ),
            }
        },
        _ => (st, TypeV::Error),
    }
}

/// Check the expressions from `i` on.
#[verifier::opaque]
pub open spec fn c_all(env: Env, st: Check, es: Seq<ExprV>, i: int) -> Check
    decreases es, es.len() - i,
{
    if i < 0 || i >= es.len() {
        st
    } else {
        c_all(env, c_expr(env, st, es[i]).0, es, i + 1)
    }
}

/// Check the expressions from `i` on and collect their types.
#[verifier::opaque]
pub open spec fn c_values(env: Env, st: Check, es: Seq<ExprV>, i: int, acc: Seq<TypeV>) -> (
    Check,
    Seq<TypeV>,
)
    decreases es, es.len() - i,
{
    if i < 0 || i >= es.len() {
        (st, acc)
    } else {
        let (st1, t) = c_expr(env, st, es[i]);
        c_values(env, st1, es, i + 1, acc.push(t))
    }
}

/// Check the arguments from `i` on against the parameters; surplus arguments are checked on
/// their own.
#[verifier::opaque]
pub open spec fn c_args(env: Env, st: Check, args: Seq<ExprV>, params: Seq<TypeV>, i: int) -> Check
    decreases args, args.len() - i,
{
    if i < 0 || i >= args.len() {
        st
    } else {
        let (st1, t) = c_expr(env, st, args[i]);
        let st2 = if i < params.len() {
            st1.require_assignable(args[i].span, t, params[i], "argument type mismatch"@)
        } else {
            st1
        };
        c_args(env, st2, args, params, i + 1)
    }
}

/// `callee(args)`
#[verifier::opaque]
pub open spec fn c_call(env: Env, st: Check, e: ExprV) -> (Check, TypeV)
    decreases e, 1int,
{
    match e.kind {
        ExprKindV::Call { callee, args } => match env.res.binding_of(callee.span) {
            Some(BindingV::Builtin(ns)) => c_value_builtin(env, st, ns, args, e.span),
            _ => match callee.kind {
                ExprKindV::Field { base, name } => match namespace_of(env, *base) {
                    Some(ns) => c_member_builtin(env, st, ns, name, args, e.span),
                    None => c_plain_call(env, st, e),
                },
                _ => c_plain_call(env, st, e),
            },
        },
        _ => (st, TypeV::Error),
    }
}

/// A call of something that is no builtin.
#[verifier::opaque]
pub open spec fn c_plain_call(env: Env, st: Check, e: ExprV) -> (Check, TypeV)
    decreases e, 0int,
{
    match e.kind {
        ExprKindV::Call { callee, args } => {
            let (st1, ct) = c_expr(env, st, *callee);
            match shallow(st1.subst, ct) {
                TypeV::Function(ft) => {
                    let st2 = if args.len() != ft.params.len() {
                        st1.err(
                            "E0430"@,
                            "this function takes "@ + dec(ft.params.len()) + " argument(s) but "@
                                + dec(args.len()) + " were supplied"@,
                            e.span,
                        )
                    } else {
                        st1
                    };
                    (c_args(env, st2, args, ft.params, 0), *ft.ret)
                },
                TypeV::Error => (c_all(env, st1, args, 0), TypeV::Error),
                TypeV::Var(_) => (c_all(env, st1, args, 0), TypeV::Error),
                other => (
                    c_all(
                        env,
                        st1.err(
                            "E0431"@,
                            "type "@ + st1.text(other) + " is not callable"@,
                            callee.span,
                        ),
                        args,
                        0,
                    ),
                    TypeV::Error,
                ),
            }
        },
        _ => (st, TypeV::Error),
    }
}

/// Whether every field has the shape of the first one: positional, named or keyed.
pub open spec fn all_positional(fs: Seq<FieldV>) -> bool {
    forall|i: int| 0 <= i < fs.len() ==> (#[trigger] fs[i]) is Positional
}

pub open spec fn all_named(fs: Seq<FieldV>) -> bool {
    forall|i: int| 0 <= i < fs.len() ==> (#[trigger] fs[i]) is Named
}

pub open spec fn all_keyed(fs: Seq<FieldV>) -> bool {
    forall|i: int| 0 <= i < fs.len() ==> (#[trigger] fs[i]) is Keyed
}

/// `{ ... }`
#[verifier::opaque]
pub open spec fn c_table(env: Env, st: Check, fs: Seq<FieldV>, span: Span) -> (Check, TypeV)
    decreases fs, fs.len() + 1,
{
    if fs.len() == 0 {
        // Ambiguous shape; assume an array of a fresh element type.
        let (st1, elem) = st.fresh();
        (st1, array_of(elem))
    } else if all_positional(fs) {
        let (st1, elem) = st.fresh();
        (c_elements(env, st1, fs, elem, 0), array_of(elem))
    } else if all_named(fs) {
        let (st1, rec) = c_record(env, st, fs, 0, Seq::empty());
        (st1, TypeV::Record(rec))
    } else if all_keyed(fs) {
        let (st1, val) = st.fresh();
        (c_entries(env, st1, fs, val, 0), map_of(val))
    } else {
        (
            st.err(
                "E0443"@,
                "a table must be all positional (array), all `name =` (record), or all `[key] =` (map) — these forms cannot be mixed"@,
                span,
            ),
            TypeV::Error,
        )
    }
}

/// The elements of an array literal from `i` on.
#[verifier::opaque]
pub open spec fn c_elements(env: Env, st: Check, fs: Seq<FieldV>, elem: TypeV, i: int) -> Check
    decreases fs, fs.len() - i,
{
    if i < 0 || i >= fs.len() {
        st
    } else {
        match fs[i] {
            FieldV::Positional(e) => {
                let (st1, t) = c_expr(env, st, e);
                c_elements(
                    env,
                    st1.require(
                        e.span,
                        t,
                        elem,
                        "E0440"@,
                        "array elements must share one type"@,
                    ),
                    fs,
                    elem,
                    i + 1,
                )
            },
            _ => st,
        }
    }
}

/// The fields of a record literal from `i` on.
#[verifier::opaque]
pub open spec fn c_record(
    env: Env,
    st: Check,
    fs: Seq<FieldV>,
    i: int,
    acc: Seq<(Seq<char>, TypeV)>,
) -> (Check, Seq<(Seq<char>, TypeV)>)
    decreases fs, fs.len() - i,
{
    if i < 0 || i >= fs.len() {
        (st, acc)
    } else {
        match fs[i] {
            FieldV::Named { name, value } => {
                let (st1, t) = c_expr(env, st, value);
                c_record(env, st1, fs, i + 1, put_of(acc, name.node, deep(st1.subst, t)))
            },
            _ => (st, acc),
        }
    }
}

/// The entries of a map literal from `i` on.
#[verifier::opaque]
pub open spec fn c_entries(env: Env, st: Check, fs: Seq<FieldV>, val: TypeV, i: int) -> Check
    decreases fs, fs.len() - i,
{
    if i < 0 || i >= fs.len() {
        st
    } else {
        match fs[i] {
            FieldV::Keyed { key, value } => {
                let (st1, kt) = c_expr(env, st, key);
                let st2 = st1.require(
                    key.span,
                    kt,
                    TypeV::String,
                    "E0441"@,
                    "map keys must be strings"@,
                );
                let (st3, vt) = c_expr(env, st2, value);
                c_entries(
                    env,
                    st3.require(
                        value.span,
                        vt,
                        val,
                        "E0442"@,
                        "map values must share one type"@,
                    ),
                    fs,
                    val,
                    i + 1,
                )
            },
            _ => st,
        }
    }
}

/// `op operand`
#[verifier::opaque]
pub open spec fn c_unary(env: Env, st: Check, e: ExprV) -> (Check, TypeV)
    decreases e, 1int,
{
    match e.kind {
        ExprKindV::Unary { op, operand } => match op {
            UnOp::Neg => (c_number(env, st, *operand), TypeV::Number),
            UnOp::Not => {
                let (st1, t) = c_expr(env, st, *operand);
                (
                    st1.require(
                        operand.span,
                        t,
                        TypeV::Bool,
                        "E0450"@,
                        "`not` requires a bool"@,
                    ),
                    TypeV::Bool,
                )
            },
            UnOp::Len => {
                let (st1, t) = c_expr(env, st, *operand);
                let u = shallow(st1.subst, t);
                if u is String || u is Array || u is Error || u is Var {
                    (st1, TypeV::Number)
                } else {
                    (
                        st1.err(
                            "E0451"@,
                            "`#` requires a string or array, found "@ + st1.text(u),
                            e.span,
                        ),
                        TypeV::Number,
                    )
                }
            },
        },
        _ => (st, TypeV::Error),
    }
}

/// `lhs op rhs`
#[verifier::opaque]
pub open spec fn c_binary(env: Env, st: Check, e: ExprV) -> (Check, TypeV)
    decreases e, 1int,
{
    match e.kind {
        ExprKindV::Binary { op, lhs, rhs } => match op {
            BinOp::Add | BinOp::Sub | BinOp::Mul | BinOp::Div | BinOp::FloorDiv | BinOp::Mod
            | BinOp::Pow => (c_number(env, c_number(env, st, *lhs), *rhs), TypeV::Number),
            _ => {
                let (st1, lt) = c_expr(env, st, *lhs);
                let (st2, rt) = c_expr(env, st1, *rhs);
                c_operands(st2, op, lt, lhs.span, rt, rhs.span, e.span)
            },
        },
        _ => (st, TypeV::Error),
    }
}

/// The operands of a comparison, a concatenation or a logical operator.
#[verifier::opaque]
pub open spec fn c_operands(
    st: Check,
    op: BinOp,
    lt: TypeV,
    lspan: Span,
    rt: TypeV,
    rspan: Span,
    span: Span,
) -> (Check, TypeV) {
    match op {
        BinOp::Concat => {
            let st1 = st.require(
                lspan,
                lt,
                TypeV::String,
                "E0452"@,
                "`..` requires strings"@,
            );
            (
                st1.require(rspan, rt, TypeV::String, "E0452"@, "`..` requires strings"@),
                TypeV::String,
            )
        },
        BinOp::Eq | BinOp::Ne => {
            // Comparing with `nil` is always allowed.
            if shallow(st.subst, lt) is Nil || shallow(st.subst, rt) is Nil {
                (st, TypeV::Bool)
            } else {
                let (st1, ok) = st.unified(lt, rt);
                if ok {
                    (st1, TypeV::Bool)
                } else {
                    (
                        st1.err(
                            "E0454"@,
                            "cannot compare "@ + st1.text(lt) + " with "@ + st1.text(rt)
                                + " — equality requires matching types"@,
                            span,
                        ),
                        TypeV::Bool,
                    )
                }
            }
        },
        BinOp::And | BinOp::Or => {
            let (st1, ok) = st.unified(lt, rt);
            let st2 = if ok {
                st1
            } else {
                st1.err(
                    "E0455"@,
                    "`"@ + op.spelling()
                        + "` requires both operands to have the same type, found "@ + st1.text(lt)
                        + " and "@ + st1.text(rt),
                    span,
                )
            };
            (st2, deep(st2.subst, lt))
        },
        _ => {
            // Numeric by default; string-vs-string comparisons are allowed.
            let want = if shallow(st.subst, lt) is String || shallow(st.subst, rt) is String {
                TypeV::String
            } else {
                TypeV::Number
            };
            let st1 = st.require(
                lspan,
                lt,
                want,
                "E0453"@,
                "comparison operand type mismatch"@,
            );
            (
                st1.require(rspan, rt, want, "E0453"@, "comparison operand type mismatch"@),
                TypeV::Bool,
            )
        },
    }
}

pub open spec fn arity_error(st: Check, name: Seq<char>, want: nat, got: nat, span: Span) -> Check {
    if want != got {
        st.err(
            "E0430"@,
            "`"@ + name + "` takes "@ + dec(want) + " argument(s) but "@ + dec(got)
                + " were supplied"@,
            span,
        )
    } else {
        st
    }
}

/// A call of `tostring` or `tonumber`.
#[verifier::opaque]
pub open spec fn c_value_builtin(env: Env, st: Check, ns: Seq<char>, args: Seq<ExprV>, span: Span) -> (
    Check,
    TypeV,
)
    decreases args, args.len() + 1,
{
    if ns == "tostring"@ {
        let st1 = arity_error(st, ns, 1, args.len(), span);
        if args.len() == 0 {
            (st1, TypeV::String)
        } else {
            let (st2, t) = c_expr(env, st1, args[0]);
            let u = shallow(st2.subst, t);
            if u is Number || u is Bool || u is String || u is Error || u is Var {
                (st2, TypeV::String)
            } else {
                (
                    st2.err(
                        "E0460"@,
                        "`tostring` accepts a number, bool, or string, found "@ + st2.text(u),
                        args[0].span,
                    ),
                    TypeV::String,
                )
            }
        }
    } else if ns == "tonumber"@ {
        let st1 = arity_error(st, ns, 1, args.len(), span);
        if args.len() == 0 {
            (st1, TypeV::Optional(Box::new(TypeV::Number)))
        } else {
            let (st2, t) = c_expr(env, st1, args[0]);
            (
                st2.require(
                    args[0].span,
                    t,
                    TypeV::String,
                    "E0461"@,
                    "`tonumber` requires a string"@,
                ),
                TypeV::Optional(Box::new(TypeV::Number)),
            )
        }
    } else {
        (st, TypeV::Error)
    }
}

/// A call of a namespace member.
#[verifier::opaque]
pub open spec fn c_member_builtin(
    env: Env,
    st: Check,
    ns: Seq<char>,
    name: IdentV,
    args: Seq<ExprV>,
    span: Span,
) -> (Check, TypeV)
    decreases args, args.len() + 1,
{
    match member_sig_of(ns, name.node) {
        None => (
            c_all(
                env,
                st.err(
                    "E0462"@,
                    "`"@ + ns + "` has no builtin member `"@ + name.node + "`"@,
                    name.span,
                ),
                args,
                0,
            ),
            TypeV::Error,
        ),
        Some(sig) => match sig.rule {
            ArgRule::FormatVariadic => if args.len() == 0 {
                (
                    st.err(
                        "E0463"@,
                        "`string.format` requires at least a format string"@,
                        span,
                    ),
                    sig.ret,
                )
            } else {
                let (st1, ft) = c_expr(env, st, args[0]);
                let st2 = st1.require(
                    args[0].span,
                    ft,
                    TypeV::String,
                    "E0463"@,
                    "format string must be a string"@,
                );
                (c_all(env, st2, args, 1), sig.ret)
            },
            _ => {
                let st1 = if args.len() != sig.params.len() {
                    st.err(
                        "E0430"@,
                        "`"@ + ns + "."@ + name.node + "` takes "@ + dec(sig.params.len())
                            + " argument(s) but "@ + dec(args.len()) + " were supplied"@,
                        span,
                    )
                } else {
                    st
                };
                (c_args(env, st1, args, sig.params, 0), sig.ret)
            },
        },
    }
}

/// The type of an assignable place (used as the write target type).
#[verifier::opaque]
pub open spec fn c_place(env: Env, st: Check, e: ExprV) -> (Check, TypeV)
    decreases e, 3int,
{
    match e.kind {
        ExprKindV::Name(_) => c_name(env, st, e.span),
        ExprKindV::Field { base, name } => {
            let (st1, bt) = c_expr(env, st, *base);
            match shallow(st1.subst, bt) {
                TypeV::Record(fields) => match get_of(fields, name.node) {
                    Some(t) => (st1, t),
                    None => (
                        st1.err(
                            "E0420"@,
                            "no field `"@ + name.node + "` on "@ + st1.text(bt)
                                + " (fields cannot be added)"@,
                            name.span,
                        ),
                        TypeV::Error,
                    ),
                },
                TypeV::MapOf(v) => (st1, *v),
                TypeV::Error => (st1, TypeV::Error),
                TypeV::Var(_) => (st1, TypeV::Error),
                other => (
                    st1.err(
                        "E0421"@,
                        "type "@ + st1.text(other) + " has no fields"@,
                        name.span,
                    ),
                    TypeV::Error,
                ),
            }
        },
        ExprKindV::Index { base, index } => {
            let (st1, bt) = c_expr(env, st, *base);
            match shallow(st1.subst, bt) {
                TypeV::Array(x) => (c_number(env, st1, *index), *x),
                TypeV::MapOf(v) => {
                    let (st2, it) = c_expr(env, st1, *index);
                    (
                        st2.require(
                            index.span,
                            it,
                            TypeV::String,
                            "E0422"@,
                            "map key must be a string"@,
                        ),
                        *v,
                    )
                },
                TypeV::Error => (st1, TypeV::Error),
                TypeV::Var(_) => (st1, TypeV::Error),
                other => (
                    st1.err(
                        "E0424"@,
                        "type "@ + st1.text(other) + " cannot be indexed"@,
                        base.span,
                    ),
                    TypeV::Error,
                ),
            }
        },
        _ => c_expr(env, st, e),
    }
}

/// An expression that must be a number.
#[verifier::opaque]
pub open spec fn c_number(env: Env, st: Check, e: ExprV) -> Check
    decreases e, 3int,
{
    let (st1, t) = c_expr(env, st, e);
    st1.require(e.span, t, TypeV::Number, "E0401"@, "expected a number"@)
}

/// An expression that must be a bool.
#[verifier::opaque]
pub open spec fn c_condition(env: Env, st: Check, e: ExprV) -> Check
    decreases e, 3int,
{
    let (st1, t) = c_expr(env, st, e);
    st1.require(e.span, t, TypeV::Bool, "E0400"@, "condition must be a bool"@)
}

/// A function body against its signature. A function that returns no value is value-less.
#[verifier::opaque]
pub open spec fn c_func(env: Env, st: Check, body: FuncBodyV, sig: FnTypeV) -> Check
    decreases body, 0int,
{
    let st1 = Check { returns: st.returns.push((*sig.ret, false)), ..st };
    let st2 = c_block(env, st1, body.block);
    let frame = st2.returns.last();
    let st3 = Check { returns: st2.returns.drop_last(), ..st2 };
    if frame.1 {
        st3
    } else {
        st3.unified(frame.0, TypeV::Unit).0
    }
}

#[verifier::opaque]
pub open spec fn c_block(env: Env, st: Check, b: BlockV) -> Check
    decreases b, 1int,
{
    let st1 = c_stats(env, st, b.stats, 0);
    match b.ret {
        Some(r) => c_return(env, st1, r),
        None => st1,
    }
}

/// The statements from `i` on.
#[verifier::opaque]
pub open spec fn c_stats(env: Env, st: Check, ss: Seq<StatV>, i: int) -> Check
    decreases ss, ss.len() - i,
{
    if i < 0 || i >= ss.len() {
        st
    } else {
        c_stats(env, c_stat(env, st, ss[i]), ss, i + 1)
    }
}

/// Note that the innermost function returns a value.
pub open spec fn saw_value(st: Check) -> Check {
    if st.returns.len() == 0 {
        st
    } else {
        Check { returns: st.returns.drop_last().push((st.returns.last().0, true)), ..st }
    }
}

#[verifier::opaque]
pub open spec fn c_return(env: Env, st: Check, r: RetStatV) -> Check
    decreases r, 0int,
{
    let st1 = if r.exprs.len() > 1 {
        st.err(
            "E0412"@,
            "multiple return values are not supported in this version of Grindlang"@,
            r.span,
        )
    } else {
        st
    };
    if r.exprs.len() == 0 {
        st1
    } else {
        let (st2, t) = c_expr(env, st1, r.exprs[0]);
        let st3 = if st1.returns.len() > 0 {
            st2.require(
                r.exprs[0].span,
                t,
                st1.returns.last().0,
                "E0413"@,
                "return type mismatch"@,
            )
        } else {
            st2
        };
        saw_value(st3)
    }
}

/// Give the names from `i` on their types: those of the initializers, or fresh variables
/// where there are none.
#[verifier::opaque]
pub open spec fn c_bind_locals(
    env: Env,
    st: Check,
    names: Seq<IdentV>,
    values: Seq<TypeV>,
    uninit: bool,
    i: int,
) -> Check
    decreases names.len() - i,
{
    if i < 0 || i >= names.len() {
        st
    } else {
        let st1 = match env.res.def_of(names[i].span) {
            Some(id) => if uninit {
                let (s, v) = st.fresh();
                s.set_def(env, names[i].span, v)
            } else {
                st.set_def(
                    env,
                    names[i].span,
                    if i < values.len() {
                        values[i]
                    } else {
                        TypeV::Error
                    },
                )
            },
            None => st,
        };
        c_bind_locals(env, st1, names, values, uninit, i + 1)
    }
}

/// Assign the values from `i` on to their targets.
#[verifier::opaque]
pub open spec fn c_assign_all(
    env: Env,
    st: Check,
    targets: Seq<ExprV>,
    values: Seq<TypeV>,
    i: int,
) -> Check
    decreases targets, targets.len() - i,
{
    if i < 0 || i >= targets.len() || i >= values.len() {
        st
    } else {
        let (st1, place) = c_place(env, st, targets[i]);
        c_assign_all(
            env,
            st1.require_assignable(
                targets[i].span,
                values[i],
                place,
                "assignment type mismatch"@,
            ),
            targets,
            values,
            i + 1,
        )
    }
}

/// The symbol that `name ~= nil` or `nil ~= name` refines, and to which type.
#[verifier::opaque]
pub open spec fn narrowing_of(env: Env, st: Check, cond: ExprV) -> Option<(u32, TypeV)> {
    match cond.kind {
        ExprKindV::Binary { op: BinOp::Ne, lhs, rhs } => {
            let span = if lhs.kind is Name && rhs.kind is Nil {
                Some(lhs.span)
            } else if lhs.kind is Nil && rhs.kind is Name {
                Some(rhs.span)
            } else {
                None
            };
            let id = match span {
                None => None,
                Some(s) => match env.res.binding_of(s) {
                    Some(BindingV::Local(id)) => Some(id),
                    Some(BindingV::Upvalue(id)) => Some(id),
                    _ => None,
                },
            };
            match id {
                None => None,
                Some(id) => if id < st.sym_types.len() {
                    match shallow(st.subst, st.sym_types[id as int]) {
                        TypeV::Optional(inner) => Some((id, *inner)),
                        _ => None,
                    }
                } else {
                    None
                },
            }
        },
        _ => None,
    }
}

/// One arm of a conditional: inside it, the symbol that its condition tests is refined.
#[verifier::opaque]
pub open spec fn c_arm(env: Env, st: Check, arm: (ExprV, BlockV)) -> Check
    decreases arm, 0int,
{
    let st1 = c_condition(env, st, arm.0);
    match narrowing_of(env, st1, arm.0) {
        None => c_block(env, st1, arm.1),
        Some((id, t)) => c_block(env, st1.narrow(id, Some(t)), arm.1).narrow(
            id,
            st1.narrowing(id),
        ),
    }
}

/// The arms from `i` on.
#[verifier::opaque]
pub open spec fn c_arms(env: Env, st: Check, arms: Seq<(ExprV, BlockV)>, i: int) -> Check
    decreases arms, arms.len() - i,
{
    if i < 0 || i >= arms.len() {
        st
    } else {
        c_arms(env, c_arm(env, st, arms[i]), arms, i + 1)
    }
}

/// The element type that `ipairs` (or the value type that `pairs`) draws from a type.
#[verifier::opaque]
pub open spec fn c_iterated(st: Check, at: TypeV, ordered: bool, span: Span) -> (Check, TypeV) {
    match shallow(st.subst, at) {
        TypeV::Error => (st, TypeV::Error),
        TypeV::Var(_) => {
            let (st1, v) = st.fresh();
            (
                st1.unified(
                    at,
                    if ordered {
                        array_of(v)
                    } else {
                        map_of(v)
                    },
                ).0,
                v,
            )
        },
        other => if ordered {
            match other {
                TypeV::Array(x) => (st, *x),
                _ => (
                    st.err(
                        "E0415"@,
                        "`ipairs` expects an array, found "@ + st.text(other),
                        span,
                    ),
                    TypeV::Error,
                ),
            }
        } else {
            match other {
                TypeV::MapOf(v) => (st, *v),
                _ => (
                    st.err(
                        "E0415"@,
                        "`pairs` expects a map, found "@ + st.text(other)
                            + " (iterating records is not yet supported)"@,
                        span,
                    ),
                    TypeV::Error,
                ),
            }
        },
    }
}

/// Give the loop variables from `i` on their types.
#[verifier::opaque]
pub open spec fn c_loop_vars(env: Env, st: Check, names: Seq<IdentV>, key: TypeV, val: TypeV, i: int) -> Check
    decreases names.len() - i,
{
    if i < 0 || i >= names.len() {
        st
    } else {
        let t = if i == 0 {
            key
        } else if i == 1 {
            val
        } else {
            TypeV::Error
        };
        c_loop_vars(env, st.set_def(env, names[i].span, t), names, key, val, i + 1)
    }
}

pub open spec fn count_error(st: Check, left: nat, what: Seq<char>, right: nat, span: Span) -> Check {
    st.err(
        "E0414"@,
        "assignment arity mismatch: "@ + dec(left) + what + dec(right) + " value(s)"@,
        span,
    )
}

#[verifier::opaque]
pub open spec fn c_stat(env: Env, st: Check, s: StatV) -> Check
    decreases s, 1int,
{
    match s.kind {
        StatKindV::Empty => st,
        StatKindV::Break => st,
        StatKindV::Local { names, exprs } => {
            let st1 = if exprs.len() > 0 && exprs.len() != names.len() {
                count_error(st, names.len(), " name(s) but "@, exprs.len(), s.span)
            } else {
                st
            };
            let (st2, values) = c_values(env, st1, exprs, 0, Seq::empty());
            c_bind_locals(env, st2, names, values, exprs.len() == 0, 0)
        },
        StatKindV::LocalFunction { name, body } => {
            let (st1, sig) = c_sig(env, st, body.params);
            let st2 = c_literal(st1, body.span, sig).set_def(
                env,
                name.span,
                TypeV::Function(sig),
            );
            c_func(env, st2, body, sig)
        },
        StatKindV::Assign { targets, exprs } => {
            let st1 = if targets.len() != exprs.len() {
                count_error(st, targets.len(), " target(s) but "@, exprs.len(), s.span)
            } else {
                st
            };
            let (st2, values) = c_values(env, st1, exprs, 0, Seq::empty());
            c_assign_all(env, st2, targets, values, 0)
        },
        StatKindV::Call(e) => c_expr(env, st, e).0,
        StatKindV::Do(b) => c_block(env, st, b),
        StatKindV::While { cond, body } => c_block(env, c_condition(env, st, cond), body),
        StatKindV::If { arms, else_block } => {
            let st1 = c_arms(env, st, arms, 0);
            match else_block {
                Some(b) => c_block(env, st1, b),
                None => st1,
            }
        },
        StatKindV::NumericFor { var, start, end, step, body } => {
            let st1 = c_number(env, c_number(env, st, start), end);
            let st2 = match step {
                Some(x) => c_number(env, st1, x),
                None => st1,
            };
            c_block(env, st2.set_def(env, var.span, TypeV::Number), body)
        },
        StatKindV::GenericFor { names, iter, body } => {
            let (st2, val) = match iter {
                IterExprV::IPairs { arg, span } => {
                    let (st1, at) = c_expr(env, st, arg);
                    c_iterated(st1, at, true, arg.span)
                },
                IterExprV::Pairs { arg, span } => {
                    let (st1, at) = c_expr(env, st, arg);
                    c_iterated(st1, at, false, arg.span)
                },
            };
            let key = if iter is IPairs {
                TypeV::Number
            } else {
                TypeV::String
            };
            let st3 = if names.len() > 2 {
                st2.err(
                    "E0416"@,
                    "a generic `for` binds at most two variables (key, value)"@,
                    names[2].span,
                )
            } else {
                st2
            };
            c_block(env, c_loop_vars(env, st3, names, key, val, 0), body)
        },
    }
}

/// The constants among the declarations from `i` on.
#[verifier::opaque]
pub open spec fn c_consts(env: Env, st: Check, ds: Seq<TopDeclV>, i: int) -> Check
    decreases ds.len() - i,
{
    if i < 0 || i >= ds.len() {
        st
    } else {
        let st1 = match ds[i] {
            TopDeclV::Const(c) => {
                let (s, t) = c_expr(env, st, c.value);
                Check { const_types: put_of(s.const_types, c.name.node, deep(s.subst, t)), ..s }
            },
            TopDeclV::Function(_) => st,
        };
        c_consts(env, st1, ds, i + 1)
    }
}

/// A signature for each function among the declarations from `i` on.
#[verifier::opaque]
pub open spec fn c_sigs(env: Env, st: Check, ds: Seq<TopDeclV>, i: int) -> Check
    decreases ds.len() - i,
{
    if i < 0 || i >= ds.len() {
        st
    } else {
        let st1 = match ds[i] {
            TopDeclV::Function(f) => {
                let (s, sig) = c_sig(env, st, f.body.params);
                Check { func_sigs: put_of(s.func_sigs, f.name.node, sig), ..s }
            },
            TopDeclV::Const(_) => st,
        };
        c_sigs(env, st1, ds, i + 1)
    }
}

/// The bodies of the functions among the declarations from `i` on.
#[verifier::opaque]
pub open spec fn c_bodies(env: Env, st: Check, ds: Seq<TopDeclV>, i: int) -> Check
    decreases ds.len() - i,
{
    if i < 0 || i >= ds.len() {
        st
    } else {
        let st1 = match ds[i] {
            TopDeclV::Function(f) => match get_of(st.func_sigs, f.name.node) {
                Some(sig) => c_func(env, st, f.body, sig),
                None => st,
            },
            TopDeclV::Const(_) => st,
        };
        c_bodies(env, st1, ds, i + 1)
    }
}

/// A parameter whose type nothing determined is an error; the symbols from `i` on.
#[verifier::opaque]
pub open spec fn c_undetermined(env: Env, st: Check, i: int) -> Check
    decreases env.res.symbols.len() - i,
{
    if i < 0 || i >= env.res.symbols.len() {
        st
    } else {
        let sym = env.res.symbols[i];
        let st1 = if sym.kind == SymbolKind::Param {
            match env.res.def_of(sym.def_span) {
                Some(id) => if id < st.sym_types.len() && deep(
                    st.subst,
                    st.sym_types[id as int],
                ) is Var {
                    st.err(
                        "E0410"@,
                        "cannot infer the type of parameter `"@ + sym.name
                            + "`; it is never used in a way that determines its type"@,
                        sym.def_span,
                    )
                } else {
                    st
                },
                None => st,
            }
        } else {
            st
        };
        c_undetermined(env, st1, i + 1)
    }
}

/// The curated exports from `i` on.
#[verifier::opaque]
pub open spec fn c_exports(
    env: Env,
    st: Check,
    fs: Seq<FieldV>,
    i: int,
    acc: Seq<(Seq<char>, TypeV)>,
) -> (Check, Seq<(Seq<char>, TypeV)>)
    decreases fs.len() - i,
{
    if i < 0 || i >= fs.len() {
        (st, acc)
    } else {
        match fs[i] {
            FieldV::Named { name, value } => {
                let (st1, t) = c_expr(env, st, value);
                c_exports(env, st1, fs, i + 1, put_of(acc, name.node, deep(st1.subst, t)))
            },
            FieldV::Positional(e) => c_exports(
                env,
                st.err("E0411"@, "module export table entries must be `name = value`"@, e.span),
                fs,
                i + 1,
                acc,
            ),
            FieldV::Keyed { key, value } => c_exports(
                env,
                st.err(
                    "E0411"@,
                    "module export table entries must be `name = value`"@,
                    key.span,
                ),
                fs,
                i + 1,
                acc,
            ),
        }
    }
}

/// The exports of a module without a curated table: every declaration from `i` on.
#[verifier::opaque]
pub open spec fn c_open_exports(
    st: Check,
    ds: Seq<TopDeclV>,
    i: int,
    acc: Seq<(Seq<char>, TypeV)>,
) -> Seq<(Seq<char>, TypeV)>
    decreases ds.len() - i,
{
    if i < 0 || i >= ds.len() {
        acc
    } else {
        match ds[i] {
            TopDeclV::Function(f) => c_open_exports(
                st,
                ds,
                i + 1,
                put_of(
                    acc,
                    f.name.node,
                    deep(st.subst, fn_or_error(get_of(st.func_sigs, f.name.node))),
                ),
            ),
            TopDeclV::Const(c) => c_open_exports(
                st,
                ds,
                i + 1,
                put_of(
                    acc,
                    c.name.node,
                    deep(st.subst, or_error(get_of(st.const_types, c.name.node))),
                ),
            ),
        }
    }
}

/// Where the declaration `n` stands: the last of the first `k`; the whole module if there is
/// none.
pub open spec fn decl_span(m: ModuleV, n: Seq<char>, k: int) -> Span
    decreases k,
{
    if k <= 0 || k > m.decls.len() {
        m.span
    } else {
        let name = match m.decls[k - 1] {
            TopDeclV::Function(f) => f.name,
            TopDeclV::Const(c) => c.name,
        };
        if name.node == n {
            name.span
        } else {
            decl_span(m, n, k - 1)
        }
    }
}

/// The complaint about what nothing determines the type of.
pub open spec fn unsettled(st: Check, m: ModuleV, n: Seq<char>) -> Check {
    st.err(
        "E0410"@,
        "cannot infer the type of `"@ + n + "`; nothing determines it"@,
        decl_span(m, n, m.decls.len() as int),
    )
}

/// Flag the functions from `i` on whose type stays undetermined.
#[verifier::opaque]
pub open spec fn c_settle_functions(st: Check, m: ModuleV, i: int) -> Check
    decreases st.func_sigs.len() - i,
{
    if 0 <= i < st.func_sigs.len() {
        let (n, sig) = st.func_sigs[i];
        c_settle_functions(
            if has_var(TypeV::Function(deep_fn(st.subst, sig))) {
                unsettled(st, m, n)
            } else {
                st
            },
            m,
            i + 1,
        )
    } else {
        st
    }
}

/// Flag the constants from `i` on whose type stays undetermined.
#[verifier::opaque]
pub open spec fn c_settle_constants(st: Check, m: ModuleV, i: int) -> Check
    decreases st.const_types.len() - i,
{
    if 0 <= i < st.const_types.len() {
        let (n, ty) = st.const_types[i];
        c_settle_constants(
            if has_var(deep(st.subst, ty)) {
                unsettled(st, m, n)
            } else {
                st
            },
            m,
            i + 1,
        )
    } else {
        st
    }
}

/// Flag the exports from `i` on whose type stays undetermined.
#[verifier::opaque]
pub open spec fn c_settle_exports(st: Check, m: ModuleV, es: Seq<(Seq<char>, TypeV)>, i: int) -> Check
    decreases es.len() - i,
{
    if 0 <= i < es.len() {
        c_settle_exports(
            if has_var(es[i].1) {
                unsettled(st, m, es[i].0)
            } else {
                st
            },
            m,
            es,
            i + 1,
        )
    } else {
        st
    }
}

/// Flag what the module offers with a type that stays undetermined.
pub open spec fn c_settled(st: Check, m: ModuleV, es: Seq<(Seq<char>, TypeV)>) -> Check {
    let st1 = c_settle_constants(c_settle_functions(st, m, 0), m, 0);
    if any_error(st1.diags) {
        st1
    } else {
        c_settle_exports(st1, m, es, 0)
    }
}

pub open spec fn start_check(env: Env) -> Check {
    Check {
        subst: Seq::empty(),
        sym_types: Seq::new(env.res.symbols.len(), |i: int| TypeV::Error),
        narrowed: Seq::new(env.res.symbols.len(), |i: int| None),
        func_sigs: Seq::empty(),
        const_types: Seq::empty(),
        returns: Seq::empty(),
        literals: Map::empty(),
        diags: Seq::empty(),
    }
}

/// The state and the exports after a whole module: constants first, then a signature for
/// every function (so that calls resolve before bodies are checked), then the bodies, the
/// parameters left undetermined, the exports, and what is left undetermined of them.
pub open spec fn c_module(env: Env, m: ModuleV) -> (Check, Seq<(Seq<char>, TypeV)>) {
    let st1 = c_consts(env, start_check(env), m.decls, 0);
    let st2 = c_sigs(env, st1, m.decls, 0);
    let st3 = c_bodies(env, st2, m.decls, 0);
    let st4 = c_undetermined(env, st3, 0);
    let (st5, es) = match m.export {
        Some(e) => c_exports(env, st4, e.node, 0, Seq::empty()),
        None => (st4, c_open_exports(st4, m.decls, 0, Seq::empty())),
    };
    (c_settled(st5, m, es), es)
}

/// A signature with its variables substituted.
pub open spec fn deep_fn(s: Subst, f: FnTypeV) -> FnTypeV {
    FnTypeV {
        params: deep_types(s, f.params, s.len(), f.params.len() as int),
        ret: Box::new(deep(s, *f.ret)),
    }
}

/// What checking a module yields: the types, or every problem found.
pub open spec fn typecheck_of(m: ModuleV, res: ResolutionV, cfg: TypeConfigV) -> Result<
    TypeInfoV,
    Seq<DiagnosticV>,
> {
    let (st, exports) = c_module(Env { res, cfg }, m);
    let s = st.subst;
    if any_error(st.diags) {
        Err(st.diags)
    } else {
        Ok(
            TypeInfoV {
                exports,
                symbol_types: Seq::new(st.sym_types.len(), |i: int| deep(s, st.sym_types[i])),
                functions: Seq::new(
                    st.func_sigs.len(),
                    |i: int| (st.func_sigs[i].0, deep_fn(s, st.func_sigs[i].1)),
                ),
                constants: Seq::new(
                    st.const_types.len(),
                    |i: int| (st.const_types[i].0, deep(s, st.const_types[i].1)),
                ),
                literals: st.literals.map_values(|f: FnTypeV| deep_fn(s, f)),
            },
        )
    }
}

pub proof fn unfold_c_params(env: Env, st: Check, params: Seq<IdentV>, i: int, acc: Seq<TypeV>)
    ensures
        c_params(env, st, params, i, acc) == ({
            if i < 0 || i >= params.len() {
                (st, acc)
            } else {
                let (st1, v) = st.fresh();
                c_params(env, st1.set_def(env, params[i].span, v), params, i + 1, acc.push(v))
            }
        }),
{
    reveal(c_params);
}

pub proof fn unfold_c_expr(env: Env, st: Check, e: ExprV)
    ensures
        c_expr(env, st, e) == ({
            match e.kind {
                ExprKindV::Nil => (st, TypeV::Nil),
                ExprKindV::Bool(_) => (st, TypeV::Bool),
                ExprKindV::Number(_) => (st, TypeV::Number),
                ExprKindV::Str(_) => (st, TypeV::String),
                ExprKindV::Paren(inner) => c_expr(env, st, *inner),
                ExprKindV::Name(_) => c_name(env, st, e.span),
                ExprKindV::Function(body) => {
                    let (st1, sig) = c_sig(env, st, body.params);
                    (c_func(env, c_literal(st1, body.span, sig), body, sig), TypeV::Function(sig))
                },
                ExprKindV::Field { base, name } => c_field(env, st, e),
                ExprKindV::Index { base, index } => c_index(env, st, e),
                ExprKindV::Call { callee, args } => c_call(env, st, e),
                ExprKindV::MethodCall { receiver, method, args } => (
                    st.err(
                        "E0417"@,
                        "method calls are not yet supported by the type checker"@,
                        method.span,
                    ),
                    TypeV::Error,
                ),
                ExprKindV::Table(fields) => c_table(env, st, fields, e.span),
                ExprKindV::Unary { op, operand } => c_unary(env, st, e),
                ExprKindV::Binary { op, lhs, rhs } => c_binary(env, st, e),
            }
        }),
{
    reveal(c_expr);
    reveal(c_field);
    reveal(c_index);
    reveal(c_call);
    reveal(c_table);
    reveal(c_unary);
    reveal(c_binary);
    reveal(c_func);
}

pub proof fn unfold_c_field(env: Env, st: Check, e: ExprV)
    ensures
        c_field(env, st, e) == ({
            match e.kind {
                ExprKindV::Field { base, name } => match namespace_of(env, *base) {
                    Some(ns) => match field_type_of(ns, name.node) {
                        Some(t) => (st, t),
                        None => (
                            st.err(
                                "E0419"@,
                                "`"@ + ns + "."@ + name.node + "` must be called"@,
                                name.span,
                            ),
                            TypeV::Error,
                        ),
                    },
                    None => {
                        let (st1, bt) = c_expr(env, st, *base);
                        match shallow(st1.subst, bt) {
                            TypeV::Record(fields) => match get_of(fields, name.node) {
                                Some(t) => (st1, t),
                                None => (
                                    st1.err(
                                        "E0420"@,
                                        "no field `"@ + name.node + "` on "@ + st1.text(bt),
                                        name.span,
                                    ),
                                    TypeV::Error,
                                ),
                            },
                            TypeV::MapOf(v) => (st1, TypeV::Optional(v)),
                            TypeV::Error => (st1, TypeV::Error),
                            TypeV::Var(_) => (st1, TypeV::Error),
                            other => (
                                st1.err(
                                    "E0421"@,
                                    "type "@ + st1.text(other) + " has no fields"@,
                                    name.span,
                                ),
                                TypeV::Error,
                            ),
                        }
                    },
                },
                _ => (st, TypeV::Error),
            }
        }),
{
    reveal(c_field);
    reveal(c_expr);
}

pub proof fn unfold_c_index(env: Env, st: Check, e: ExprV)
    ensures
        c_index(env, st, e) == ({
            match e.kind {
                ExprKindV::Index { base, index } => {
                    let (st1, bt) = c_expr(env, st, *base);
                    match shallow(st1.subst, bt) {
                        TypeV::Array(x) => (c_number(env, st1, *index), TypeV::Optional(x)),
                        TypeV::MapOf(v) => {
                            let (st2, it) = c_expr(env, st1, *index);
                            (
                                st2.require(
                                    index.span,
                                    it,
                                    TypeV::String,
                                    "E0422"@,
                                    "map key must be a string"@,
                                ),
                                TypeV::Optional(v),
                            )
                        },
                        TypeV::Record(fields) => match index.kind {
                            ExprKindV::Str(key) => match get_of(fields, key) {
                                Some(t) => (st1, t),
                                None => (
                                    st1.err(
                                        "E0420"@,
                                        "no field `"@ + key + "` on "@ + st1.text(bt),
                                        index.span,
                                    ),
                                    TypeV::Error,
                                ),
                            },
                            _ => (
                                st1.err(
                                    "E0423"@,
                                    "a record can only be indexed by a string literal key"@,
                                    index.span,
                                ),
                                TypeV::Error,
                            ),
                        },
                        TypeV::Error => (st1, TypeV::Error),
                        TypeV::Var(_) => {
                            // A numeric key implies an array, a string key a map.
                            let (st2, it) = c_expr(env, st1, *index);
                            let (st3, elem) = st2.fresh();
                            if shallow(st3.subst, it) is String {
                                (st3.unified(bt, map_of(elem)).0, TypeV::Optional(Box::new(elem)))
                            } else {
                                let st4 = st3.require(
                                    index.span,
                                    it,
                                    TypeV::Number,
                                    "E0401"@,
                                    "expected a number"@,
                                );
                                (st4.unified(bt, array_of(elem)).0, TypeV::Optional(Box::new(elem)))
                            }
                        },
                        other => (
                            st1.err(
                                "E0424"@,
                                "type "@ + st1.text(other) + " cannot be indexed"@,
                                base.span,
                            ),
                            TypeV::Error,
                        ),
                    }
                },
                _ => (st, TypeV::Error),
            }
        }),
{
    reveal(c_index);
    reveal(c_expr);
    reveal(c_number);
}

pub proof fn unfold_c_all(env: Env, st: Check, es: Seq<ExprV>, i: int)
    ensures
        c_all(env, st, es, i) == ({
            if i < 0 || i >= es.len() {
                st
            } else {
                c_all(env, c_expr(env, st, es[i]).0, es, i + 1)
            }
        }),
{
    reveal(c_all);
    reveal(c_expr);
}

pub proof fn unfold_c_values(env: Env, st: Check, es: Seq<ExprV>, i: int, acc: Seq<TypeV>)
    ensures
        c_values(env, st, es, i, acc) == ({
            if i < 0 || i >= es.len() {
                (st, acc)
            } else {
                let (st1, t) = c_expr(env, st, es[i]);
                c_values(env, st1, es, i + 1, acc.push(t))
            }
        }),
{
    reveal(c_values);
    reveal(c_expr);
}

pub proof fn unfold_c_args(env: Env, st: Check, args: Seq<ExprV>, params: Seq<TypeV>, i: int)
    ensures
        c_args(env, st, args, params, i) == ({
            if i < 0 || i >= args.len() {
                st
            } else {
                let (st1, t) = c_expr(env, st, args[i]);
                let st2 = if i < params.len() {
                    st1.require_assignable(args[i].span, t, params[i], "argument type mismatch"@)
                } else {
                    st1
                };
                c_args(env, st2, args, params, i + 1)
            }
        }),
{
    reveal(c_args);
    reveal(c_expr);
}

pub proof fn unfold_c_call(env: Env, st: Check, e: ExprV)
    ensures
        c_call(env, st, e) == ({
            match e.kind {
                ExprKindV::Call { callee, args } => match env.res.binding_of(callee.span) {
                    Some(BindingV::Builtin(ns)) => c_value_builtin(env, st, ns, args, e.span),
                    _ => match callee.kind {
                        ExprKindV::Field { base, name } => match namespace_of(env, *base) {
                            Some(ns) => c_member_builtin(env, st, ns, name, args, e.span),
                            None => c_plain_call(env, st, e),
                        },
                        _ => c_plain_call(env, st, e),
                    },
                },
                _ => (st, TypeV::Error),
            }
        }),
{
    reveal(c_call);
    reveal(c_plain_call);
    reveal(c_value_builtin);
    reveal(c_member_builtin);
}

pub proof fn unfold_c_plain_call(env: Env, st: Check, e: ExprV)
    ensures
        c_plain_call(env, st, e) == ({
            match e.kind {
                ExprKindV::Call { callee, args } => {
                    let (st1, ct) = c_expr(env, st, *callee);
                    match shallow(st1.subst, ct) {
                        TypeV::Function(ft) => {
                            let st2 = if args.len() != ft.params.len() {
                                st1.err(
                                    "E0430"@,
                                    "this function takes "@ + dec(ft.params.len()) + " argument(s) but "@
                                        + dec(args.len()) + " were supplied"@,
                                    e.span,
                                )
                            } else {
                                st1
                            };
                            (c_args(env, st2, args, ft.params, 0), *ft.ret)
                        },
                        TypeV::Error => (c_all(env, st1, args, 0), TypeV::Error),
                        TypeV::Var(_) => (c_all(env, st1, args, 0), TypeV::Error),
                        other => (
                            c_all(
                                env,
                                st1.err(
                                    "E0431"@,
                                    "type "@ + st1.text(other) + " is not callable"@,
                                    callee.span,
                                ),
                                args,
                                0,
                            ),
                            TypeV::Error,
                        ),
                    }
                },
                _ => (st, TypeV::Error),
            }
        }),
{
    reveal(c_plain_call);
    reveal(c_expr);
    reveal(c_all);
    reveal(c_args);
}

pub proof fn unfold_c_table(env: Env, st: Check, fs: Seq<FieldV>, span: Span)
    ensures
        c_table(env, st, fs, span) == ({
            if fs.len() == 0 {
                // Ambiguous shape; assume an array of a fresh element type.
                let (st1, elem) = st.fresh();
                (st1, array_of(elem))
            } else if all_positional(fs) {
                let (st1, elem) = st.fresh();
                (c_elements(env, st1, fs, elem, 0), array_of(elem))
            } else if all_named(fs) {
                let (st1, rec) = c_record(env, st, fs, 0, Seq::empty());
                (st1, TypeV::Record(rec))
            } else if all_keyed(fs) {
                let (st1, val) = st.fresh();
                (c_entries(env, st1, fs, val, 0), map_of(val))
            } else {
                (
                    st.err(
                        "E0443"@,
                        "a table must be all positional (array), all `name =` (record), or all `[key] =` (map) — these forms cannot be mixed"@,
                        span,
                    ),
                    TypeV::Error,
                )
            }
        }),
{
    reveal(c_table);
    reveal(c_elements);
    reveal(c_record);
    reveal(c_entries);
}

pub proof fn unfold_c_elements(env: Env, st: Check, fs: Seq<FieldV>, elem: TypeV, i: int)
    ensures
        c_elements(env, st, fs, elem, i) == ({
            if i < 0 || i >= fs.len() {
                st
            } else {
                match fs[i] {
                    FieldV::Positional(e) => {
                        let (st1, t) = c_expr(env, st, e);
                        c_elements(
                            env,
                            st1.require(
                                e.span,
                                t,
                                elem,
                                "E0440"@,
                                "array elements must share one type"@,
                            ),
                            fs,
                            elem,
                            i + 1,
                        )
                    },
                    _ => st,
                }
            }
        }),
{
    reveal(c_elements);
    reveal(c_expr);
}

pub proof fn unfold_c_record(
    env: Env,
    st: Check,
    fs: Seq<FieldV>,
    i: int,
    acc: Seq<(Seq<char>, TypeV)>,
)
    ensures
        c_record(env, st, fs, i, acc) == ({
            if i < 0 || i >= fs.len() {
                (st, acc)
            } else {
                match fs[i] {
                    FieldV::Named { name, value } => {
                        let (st1, t) = c_expr(env, st, value);
                        c_record(env, st1, fs, i + 1, put_of(acc, name.node, deep(st1.subst, t)))
                    },
                    _ => (st, acc),
                }
            }
        }),
{
    reveal(c_record);
    reveal(c_expr);
}

pub proof fn unfold_c_entries(env: Env, st: Check, fs: Seq<FieldV>, val: TypeV, i: int)
    ensures
        c_entries(env, st, fs, val, i) == ({
            if i < 0 || i >= fs.len() {
                st
            } else {
                match fs[i] {
                    FieldV::Keyed { key, value } => {
                        let (st1, kt) = c_expr(env, st, key);
                        let st2 = st1.require(
                            key.span,
                            kt,
                            TypeV::String,
                            "E0441"@,
                            "map keys must be strings"@,
                        );
                        let (st3, vt) = c_expr(env, st2, value);
                        c_entries(
                            env,
                            st3.require(
                                value.span,
                                vt,
                                val,
                                "E0442"@,
                                "map values must share one type"@,
                            ),
                            fs,
                            val,
                            i + 1,
                        )
                    },
                    _ => st,
                }
            }
        }),
{
    reveal(c_entries);
    reveal(c_expr);
}

pub proof fn unfold_c_unary(env: Env, st: Check, e: ExprV)
    ensures
        c_unary(env, st, e) == ({
            match e.kind {
                ExprKindV::Unary { op, operand } => match op {
                    UnOp::Neg => (c_number(env, st, *operand), TypeV::Number),
                    UnOp::Not => {
                        let (st1, t) = c_expr(env, st, *operand);
                        (
                            st1.require(
                                operand.span,
                                t,
                                TypeV::Bool,
                                "E0450"@,
                                "`not` requires a bool"@,
                            ),
                            TypeV::Bool,
                        )
                    },
                    UnOp::Len => {
                        let (st1, t) = c_expr(env, st, *operand);
                        let u = shallow(st1.subst, t);
                        if u is String || u is Array || u is Error || u is Var {
                            (st1, TypeV::Number)
                        } else {
                            (
                                st1.err(
                                    "E0451"@,
                                    "`#` requires a string or array, found "@ + st1.text(u),
                                    e.span,
                                ),
                                TypeV::Number,
                            )
                        }
                    },
                },
                _ => (st, TypeV::Error),
            }
        }),
{
    reveal(c_unary);
    reveal(c_expr);
    reveal(c_number);
}

pub proof fn unfold_c_binary(env: Env, st: Check, e: ExprV)
    ensures
        c_binary(env, st, e) == ({
            match e.kind {
                ExprKindV::Binary { op, lhs, rhs } => match op {
                    BinOp::Add | BinOp::Sub | BinOp::Mul | BinOp::Div | BinOp::FloorDiv | BinOp::Mod
                    | BinOp::Pow => (c_number(env, c_number(env, st, *lhs), *rhs), TypeV::Number),
                    _ => {
                        let (st1, lt) = c_expr(env, st, *lhs);
                        let (st2, rt) = c_expr(env, st1, *rhs);
                        c_operands(st2, op, lt, lhs.span, rt, rhs.span, e.span)
                    },
                },
                _ => (st, TypeV::Error),
            }
        }),
{
    reveal(c_binary);
    reveal(c_expr);
    reveal(c_number);
}

pub proof fn unfold_c_value_builtin(env: Env, st: Check, ns: Seq<char>, args: Seq<ExprV>, span: Span)
    ensures
        c_value_builtin(env, st, ns, args, span) == ({
            if ns == "tostring"@ {
                let st1 = arity_error(st, ns, 1, args.len(), span);
                if args.len() == 0 {
                    (st1, TypeV::String)
                } else {
                    let (st2, t) = c_expr(env, st1, args[0]);
                    let u = shallow(st2.subst, t);
                    if u is Number || u is Bool || u is String || u is Error || u is Var {
                        (st2, TypeV::String)
                    } else {
                        (
                            st2.err(
                                "E0460"@,
                                "`tostring` accepts a number, bool, or string, found "@ + st2.text(u),
                                args[0].span,
                            ),
                            TypeV::String,
                        )
                    }
                }
            } else if ns == "tonumber"@ {
                let st1 = arity_error(st, ns, 1, args.len(), span);
                if args.len() == 0 {
                    (st1, TypeV::Optional(Box::new(TypeV::Number)))
                } else {
                    let (st2, t) = c_expr(env, st1, args[0]);
                    (
                        st2.require(
                            args[0].span,
                            t,
                            TypeV::String,
                            "E0461"@,
                            "`tonumber` requires a string"@,
                        ),
                        TypeV::Optional(Box::new(TypeV::Number)),
                    )
                }
            } else {
                (st, TypeV::Error)
            }
        }),
{
    reveal(c_value_builtin);
    reveal(c_expr);
}

pub proof fn unfold_c_member_builtin(
    env: Env,
    st: Check,
    ns: Seq<char>,
    name: IdentV,
    args: Seq<ExprV>,
    span: Span,
)
    ensures
        c_member_builtin(env, st, ns, name, args, span) == ({
            match member_sig_of(ns, name.node) {
                None => (
                    c_all(
                        env,
                        st.err(
                            "E0462"@,
                            "`"@ + ns + "` has no builtin member `"@ + name.node + "`"@,
                            name.span,
                        ),
                        args,
                        0,
                    ),
                    TypeV::Error,
                ),
                Some(sig) => match sig.rule {
                    ArgRule::FormatVariadic => if args.len() == 0 {
                        (
                            st.err(
                                "E0463"@,
                                "`string.format` requires at least a format string"@,
                                span,
                            ),
                            sig.ret,
                        )
                    } else {
                        let (st1, ft) = c_expr(env, st, args[0]);
                        let st2 = st1.require(
                            args[0].span,
                            ft,
                            TypeV::String,
                            "E0463"@,
                            "format string must be a string"@,
                        );
                        (c_all(env, st2, args, 1), sig.ret)
                    },
                    _ => {
                        let st1 = if args.len() != sig.params.len() {
                            st.err(
                                "E0430"@,
                                "`"@ + ns + "."@ + name.node + "` takes "@ + dec(sig.params.len())
                                    + " argument(s) but "@ + dec(args.len()) + " were supplied"@,
                                span,
                            )
                        } else {
                            st
                        };
                        (c_args(env, st1, args, sig.params, 0), sig.ret)
                    },
                },
            }
        }),
{
    reveal(c_member_builtin);
    reveal(c_expr);
    reveal(c_all);
    reveal(c_args);
}

pub proof fn unfold_c_place(env: Env, st: Check, e: ExprV)
    ensures
        c_place(env, st, e) == ({
            match e.kind {
                ExprKindV::Name(_) => c_name(env, st, e.span),
                ExprKindV::Field { base, name } => {
                    let (st1, bt) = c_expr(env, st, *base);
                    match shallow(st1.subst, bt) {
                        TypeV::Record(fields) => match get_of(fields, name.node) {
                            Some(t) => (st1, t),
                            None => (
                                st1.err(
                                    "E0420"@,
                                    "no field `"@ + name.node + "` on "@ + st1.text(bt)
                                        + " (fields cannot be added)"@,
                                    name.span,
                                ),
                                TypeV::Error,
                            ),
                        },
                        TypeV::MapOf(v) => (st1, *v),
                        TypeV::Error => (st1, TypeV::Error),
                        TypeV::Var(_) => (st1, TypeV::Error),
                        other => (
                            st1.err(
                                "E0421"@,
                                "type "@ + st1.text(other) + " has no fields"@,
                                name.span,
                            ),
                            TypeV::Error,
                        ),
                    }
                },
                ExprKindV::Index { base, index } => {
                    let (st1, bt) = c_expr(env, st, *base);
                    match shallow(st1.subst, bt) {
                        TypeV::Array(x) => (c_number(env, st1, *index), *x),
                        TypeV::MapOf(v) => {
                            let (st2, it) = c_expr(env, st1, *index);
                            (
                                st2.require(
                                    index.span,
                                    it,
                                    TypeV::String,
                                    "E0422"@,
                                    "map key must be a string"@,
                                ),
                                *v,
                            )
                        },
                        TypeV::Error => (st1, TypeV::Error),
                        TypeV::Var(_) => (st1, TypeV::Error),
                        other => (
                            st1.err(
                                "E0424"@,
                                "type "@ + st1.text(other) + " cannot be indexed"@,
                                base.span,
                            ),
                            TypeV::Error,
                        ),
                    }
                },
                _ => c_expr(env, st, e),
            }
        }),
{
    reveal(c_place);
    reveal(c_expr);
    reveal(c_number);
}

pub proof fn unfold_c_number(env: Env, st: Check, e: ExprV)
    ensures
        c_number(env, st, e) == ({
            let (st1, t) = c_expr(env, st, e);
            st1.require(e.span, t, TypeV::Number, "E0401"@, "expected a number"@)
        }),
{
    reveal(c_number);
    reveal(c_expr);
}

pub proof fn unfold_c_condition(env: Env, st: Check, e: ExprV)
    ensures
        c_condition(env, st, e) == ({
            let (st1, t) = c_expr(env, st, e);
            st1.require(e.span, t, TypeV::Bool, "E0400"@, "condition must be a bool"@)
        }),
{
    reveal(c_condition);
    reveal(c_expr);
}

pub proof fn unfold_c_func(env: Env, st: Check, body: FuncBodyV, sig: FnTypeV)
    ensures
        c_func(env, st, body, sig) == ({
            let st1 = Check { returns: st.returns.push((*sig.ret, false)), ..st };
            let st2 = c_block(env, st1, body.block);
            let frame = st2.returns.last();
            let st3 = Check { returns: st2.returns.drop_last(), ..st2 };
            if frame.1 {
                st3
            } else {
                st3.unified(frame.0, TypeV::Unit).0
            }
        }),
{
    reveal(c_func);
    reveal(c_block);
}

pub proof fn unfold_c_block(env: Env, st: Check, b: BlockV)
    ensures
        c_block(env, st, b) == ({
            let st1 = c_stats(env, st, b.stats, 0);
            match b.ret {
                Some(r) => c_return(env, st1, r),
                None => st1,
            }
        }),
{
    reveal(c_block);
    reveal(c_stats);
    reveal(c_return);
}

pub proof fn unfold_c_stats(env: Env, st: Check, ss: Seq<StatV>, i: int)
    ensures
        c_stats(env, st, ss, i) == ({
            if i < 0 || i >= ss.len() {
                st
            } else {
                c_stats(env, c_stat(env, st, ss[i]), ss, i + 1)
            }
        }),
{
    reveal(c_stats);
    reveal(c_stat);
}

pub proof fn unfold_c_return(env: Env, st: Check, r: RetStatV)
    ensures
        c_return(env, st, r) == ({
            let st1 = if r.exprs.len() > 1 {
                st.err(
                    "E0412"@,
                    "multiple return values are not supported in this version of Grindlang"@,
                    r.span,
                )
            } else {
                st
            };
            if r.exprs.len() == 0 {
                st1
            } else {
                let (st2, t) = c_expr(env, st1, r.exprs[0]);
                let st3 = if st1.returns.len() > 0 {
                    st2.require(
                        r.exprs[0].span,
                        t,
                        st1.returns.last().0,
                        "E0413"@,
                        "return type mismatch"@,
                    )
                } else {
                    st2
                };
                saw_value(st3)
            }
        }),
{
    reveal(c_return);
    reveal(c_expr);
}

pub proof fn unfold_c_bind_locals(
    env: Env,
    st: Check,
    names: Seq<IdentV>,
    values: Seq<TypeV>,
    uninit: bool,
    i: int,
)
    ensures
        c_bind_locals(env, st, names, values, uninit, i) == ({
            if i < 0 || i >= names.len() {
                st
            } else {
                let st1 = match env.res.def_of(names[i].span) {
                    Some(id) => if uninit {
                        let (s, v) = st.fresh();
                        s.set_def(env, names[i].span, v)
                    } else {
                        st.set_def(
                            env,
                            names[i].span,
                            if i < values.len() {
                                values[i]
                            } else {
                                TypeV::Error
                            },
                        )
                    },
                    None => st,
                };
                c_bind_locals(env, st1, names, values, uninit, i + 1)
            }
        }),
{
    reveal(c_bind_locals);
}

pub proof fn unfold_c_assign_all(
    env: Env,
    st: Check,
    targets: Seq<ExprV>,
    values: Seq<TypeV>,
    i: int,
)
    ensures
        c_assign_all(env, st, targets, values, i) == ({
            if i < 0 || i >= targets.len() || i >= values.len() {
                st
            } else {
                let (st1, place) = c_place(env, st, targets[i]);
                c_assign_all(
                    env,
                    st1.require_assignable(
                        targets[i].span,
                        values[i],
                        place,
                        "assignment type mismatch"@,
                    ),
                    targets,
                    values,
                    i + 1,
                )
            }
        }),
{
    reveal(c_assign_all);
    reveal(c_place);
}

pub proof fn unfold_c_arm(env: Env, st: Check, arm: (ExprV, BlockV))
    ensures
        c_arm(env, st, arm) == ({
            let st1 = c_condition(env, st, arm.0);
            match narrowing_of(env, st1, arm.0) {
                None => c_block(env, st1, arm.1),
                Some((id, t)) => c_block(env, st1.narrow(id, Some(t)), arm.1).narrow(
                    id,
                    st1.narrowing(id),
                ),
            }
        }),
{
    reveal(c_arm);
    reveal(c_condition);
    reveal(c_block);
}

pub proof fn unfold_c_arms(env: Env, st: Check, arms: Seq<(ExprV, BlockV)>, i: int)
    ensures
        c_arms(env, st, arms, i) == ({
            if i < 0 || i >= arms.len() {
                st
            } else {
                c_arms(env, c_arm(env, st, arms[i]), arms, i + 1)
            }
        }),
{
    reveal(c_arms);
    reveal(c_arm);
}

pub proof fn unfold_c_loop_vars(env: Env, st: Check, names: Seq<IdentV>, key: TypeV, val: TypeV, i: int)
    ensures
        c_loop_vars(env, st, names, key, val, i) == ({
            if i < 0 || i >= names.len() {
                st
            } else {
                let t = if i == 0 {
                    key
                } else if i == 1 {
                    val
                } else {
                    TypeV::Error
                };
                c_loop_vars(env, st.set_def(env, names[i].span, t), names, key, val, i + 1)
            }
        }),
{
    reveal(c_loop_vars);
}

pub proof fn unfold_c_stat(env: Env, st: Check, s: StatV)
    ensures
        c_stat(env, st, s) == ({
            match s.kind {
                StatKindV::Empty => st,
                StatKindV::Break => st,
                StatKindV::Local { names, exprs } => {
                    let st1 = if exprs.len() > 0 && exprs.len() != names.len() {
                        count_error(st, names.len(), " name(s) but "@, exprs.len(), s.span)
                    } else {
                        st
                    };
                    let (st2, values) = c_values(env, st1, exprs, 0, Seq::empty());
                    c_bind_locals(env, st2, names, values, exprs.len() == 0, 0)
                },
                StatKindV::LocalFunction { name, body } => {
                    let (st1, sig) = c_sig(env, st, body.params);
                    let st2 = c_literal(st1, body.span, sig).set_def(
                        env,
                        name.span,
                        TypeV::Function(sig),
                    );
                    c_func(env, st2, body, sig)
                },
                StatKindV::Assign { targets, exprs } => {
                    let st1 = if targets.len() != exprs.len() {
                        count_error(st, targets.len(), " target(s) but "@, exprs.len(), s.span)
                    } else {
                        st
                    };
                    let (st2, values) = c_values(env, st1, exprs, 0, Seq::empty());
                    c_assign_all(env, st2, targets, values, 0)
                },
                StatKindV::Call(e) => c_expr(env, st, e).0,
                StatKindV::Do(b) => c_block(env, st, b),
                StatKindV::While { cond, body } => c_block(env, c_condition(env, st, cond), body),
                StatKindV::If { arms, else_block } => {
                    let st1 = c_arms(env, st, arms, 0);
                    match else_block {
                        Some(b) => c_block(env, st1, b),
                        None => st1,
                    }
                },
                StatKindV::NumericFor { var, start, end, step, body } => {
                    let st1 = c_number(env, c_number(env, st, start), end);
                    let st2 = match step {
                        Some(x) => c_number(env, st1, x),
                        None => st1,
                    };
                    c_block(env, st2.set_def(env, var.span, TypeV::Number), body)
                },
                StatKindV::GenericFor { names, iter, body } => {
                    let (st2, val) = match iter {
                        IterExprV::IPairs { arg, span } => {
                            let (st1, at) = c_expr(env, st, arg);
                            c_iterated(st1, at, true, arg.span)
                        },
                        IterExprV::Pairs { arg, span } => {
                            let (st1, at) = c_expr(env, st, arg);
                            c_iterated(st1, at, false, arg.span)
                        },
                    };
                    let key = if iter is IPairs {
                        TypeV::Number
                    } else {
                        TypeV::String
                    };
                    let st3 = if names.len() > 2 {
                        st2.err(
                            "E0416"@,
                            "a generic `for` binds at most two variables (key, value)"@,
                            names[2].span,
                        )
                    } else {
                        st2
                    };
                    c_block(env, c_loop_vars(env, st3, names, key, val, 0), body)
                },
            }
        }),
{
    reveal(c_stat);
    reveal(c_expr);
    reveal(c_values);
    reveal(c_number);
    reveal(c_condition);
    reveal(c_func);
    reveal(c_block);
    reveal(c_bind_locals);
    reveal(c_assign_all);
    reveal(c_arms);
    reveal(c_loop_vars);
}

pub proof fn unfold_c_consts(env: Env, st: Check, ds: Seq<TopDeclV>, i: int)
    ensures
        c_consts(env, st, ds, i) == ({
            if i < 0 || i >= ds.len() {
                st
            } else {
                let st1 = match ds[i] {
                    TopDeclV::Const(c) => {
                        let (s, t) = c_expr(env, st, c.value);
                        Check { const_types: put_of(s.const_types, c.name.node, deep(s.subst, t)), ..s }
                    },
                    TopDeclV::Function(_) => st,
                };
                c_consts(env, st1, ds, i + 1)
            }
        }),
{
    reveal(c_consts);
    reveal(c_expr);
}

pub proof fn unfold_c_sigs(env: Env, st: Check, ds: Seq<TopDeclV>, i: int)
    ensures
        c_sigs(env, st, ds, i) == ({
            if i < 0 || i >= ds.len() {
                st
            } else {
                let st1 = match ds[i] {
                    TopDeclV::Function(f) => {
                        let (s, sig) = c_sig(env, st, f.body.params);
                        Check { func_sigs: put_of(s.func_sigs, f.name.node, sig), ..s }
                    },
                    TopDeclV::Const(_) => st,
                };
                c_sigs(env, st1, ds, i + 1)
            }
        }),
{
    reveal(c_sigs);
}

pub proof fn unfold_c_bodies(env: Env, st: Check, ds: Seq<TopDeclV>, i: int)
    ensures
        c_bodies(env, st, ds, i) == ({
            if i < 0 || i >= ds.len() {
                st
            } else {
                let st1 = match ds[i] {
                    TopDeclV::Function(f) => match get_of(st.func_sigs, f.name.node) {
                        Some(sig) => c_func(env, st, f.body, sig),
                        None => st,
                    },
                    TopDeclV::Const(_) => st,
                };
                c_bodies(env, st1, ds, i + 1)
            }
        }),
{
    reveal(c_bodies);
    reveal(c_func);
}

pub proof fn unfold_c_undetermined(env: Env, st: Check, i: int)
    ensures
        c_undetermined(env, st, i) == ({
            if i < 0 || i >= env.res.symbols.len() {
                st
            } else {
                let sym = env.res.symbols[i];
                let st1 = if sym.kind == SymbolKind::Param {
                    match env.res.def_of(sym.def_span) {
                        Some(id) => if id < st.sym_types.len() && deep(
                            st.subst,
                            st.sym_types[id as int],
                        ) is Var {
                            st.err(
                                "E0410"@,
                                "cannot infer the type of parameter `"@ + sym.name
                                    + "`; it is never used in a way that determines its type"@,
                                sym.def_span,
                            )
                        } else {
                            st
                        },
                        None => st,
                    }
                } else {
                    st
                };
                c_undetermined(env, st1, i + 1)
            }
        }),
{
    reveal(c_undetermined);
}

pub proof fn unfold_c_exports(
    env: Env,
    st: Check,
    fs: Seq<FieldV>,
    i: int,
    acc: Seq<(Seq<char>, TypeV)>,
)
    ensures
        c_exports(env, st, fs, i, acc) == ({
            if i < 0 || i >= fs.len() {
                (st, acc)
            } else {
                match fs[i] {
                    FieldV::Named { name, value } => {
                        let (st1, t) = c_expr(env, st, value);
                        c_exports(env, st1, fs, i + 1, put_of(acc, name.node, deep(st1.subst, t)))
                    },
                    FieldV::Positional(e) => c_exports(
                        env,
                        st.err("E0411"@, "module export table entries must be `name = value`"@, e.span),
                        fs,
                        i + 1,
                        acc,
                    ),
                    FieldV::Keyed { key, value } => c_exports(
                        env,
                        st.err(
                            "E0411"@,
                            "module export table entries must be `name = value`"@,
                            key.span,
                        ),
                        fs,
                        i + 1,
                        acc,
                    ),
                }
            }
        }),
{
    reveal(c_exports);
    reveal(c_expr);
}

pub proof fn unfold_c_open_exports(
    st: Check,
    ds: Seq<TopDeclV>,
    i: int,
    acc: Seq<(Seq<char>, TypeV)>,
)
    ensures
        c_open_exports(st, ds, i, acc) == ({
            if i < 0 || i >= ds.len() {
                acc
            } else {
                match ds[i] {
                    TopDeclV::Function(f) => c_open_exports(
                        st,
                        ds,
                        i + 1,
                        put_of(
                            acc,
                            f.name.node,
                            deep(st.subst, fn_or_error(get_of(st.func_sigs, f.name.node))),
                        ),
                    ),
                    TopDeclV::Const(c) => c_open_exports(
                        st,
                        ds,
                        i + 1,
                        put_of(
                            acc,
                            c.name.node,
                            deep(st.subst, or_error(get_of(st.const_types, c.name.node))),
                        ),
                    ),
                }
            }
        }),
{
    reveal(c_open_exports);
}

pub proof fn unfold_c_settle_functions(st: Check, m: ModuleV, i: int)
    ensures
        c_settle_functions(st, m, i) == ({
            if 0 <= i < st.func_sigs.len() {
                let (n, sig) = st.func_sigs[i];
                c_settle_functions(
                    if has_var(TypeV::Function(deep_fn(st.subst, sig))) {
                        unsettled(st, m, n)
                    } else {
                        st
                    },
                    m,
                    i + 1,
                )
            } else {
                st
            }
        }),
{
    reveal(c_settle_functions);
}

pub proof fn unfold_c_settle_constants(st: Check, m: ModuleV, i: int)
    ensures
        c_settle_constants(st, m, i) == ({
            if 0 <= i < st.const_types.len() {
                let (n, ty) = st.const_types[i];
                c_settle_constants(
                    if has_var(deep(st.subst, ty)) {
                        unsettled(st, m, n)
                    } else {
                        st
                    },
                    m,
                    i + 1,
                )
            } else {
                st
            }
        }),
{
    reveal(c_settle_constants);
}

pub proof fn unfold_c_settle_exports(st: Check, m: ModuleV, es: Seq<(Seq<char>, TypeV)>, i: int)
    ensures
        c_settle_exports(st, m, es, i) == ({
            if 0 <= i < es.len() {
                c_settle_exports(
                    if has_var(es[i].1) {
                        unsettled(st, m, es[i].0)
                    } else {
                        st
                    },
                    m,
                    es,
                    i + 1,
                )
            } else {
                st
            }
        }),
{
    reveal(c_settle_exports);
}

/// Whether `b` is `a` with more complaints.
spec fn complained(a: Check, b: Check) -> bool {
    &&& b == (Check { diags: b.diags, ..a })
    &&& any_error(a.diags) ==> any_error(b.diags)
}

proof fn lemma_unsettled(st: Check, m: ModuleV, n: Seq<char>)
    ensures
        complained(st, unsettled(st, m, n)),
        any_error(unsettled(st, m, n).diags),
{
    let d = unsettled(st, m, n).diags;
    assert(d[st.diags.len() as int].severity == Severity::Error);
    if any_error(st.diags) {
        let i = choose|i: int|
            0 <= i < st.diags.len() && (#[trigger] st.diags[i]).severity == Severity::Error;
        assert(d[i] == st.diags[i]);
    }
}

proof fn lemma_settle_functions(st: Check, m: ModuleV, i: int)
    requires
        0 <= i <= st.func_sigs.len(),
    ensures
        complained(st, c_settle_functions(st, m, i)),
        !any_error(c_settle_functions(st, m, i).diags) ==> forall|k: int|
            i <= k < st.func_sigs.len() ==> !has_var(
                TypeV::Function(deep_fn(st.subst, (#[trigger] st.func_sigs[k]).1)),
            ),
    decreases st.func_sigs.len() - i,
{
    unfold_c_settle_functions(st, m, i);
    if i < st.func_sigs.len() {
        let (n, sig) = st.func_sigs[i];
        lemma_unsettled(st, m, n);
        let next = if has_var(TypeV::Function(deep_fn(st.subst, sig))) {
            unsettled(st, m, n)
        } else {
            st
        };
        lemma_settle_functions(next, m, i + 1);
    }
}

proof fn lemma_settle_constants(st: Check, m: ModuleV, i: int)
    requires
        0 <= i <= st.const_types.len(),
    ensures
        complained(st, c_settle_constants(st, m, i)),
        !any_error(c_settle_constants(st, m, i).diags) ==> forall|k: int|
            i <= k < st.const_types.len() ==> !has_var(
                deep(st.subst, (#[trigger] st.const_types[k]).1),
            ),
    decreases st.const_types.len() - i,
{
    unfold_c_settle_constants(st, m, i);
    if i < st.const_types.len() {
        let (n, ty) = st.const_types[i];
        lemma_unsettled(st, m, n);
        let next = if has_var(deep(st.subst, ty)) {
            unsettled(st, m, n)
        } else {
            st
        };
        lemma_settle_constants(next, m, i + 1);
    }
}

proof fn lemma_settle_exports(st: Check, m: ModuleV, es: Seq<(Seq<char>, TypeV)>, i: int)
    requires
        0 <= i <= es.len(),
    ensures
        complained(st, c_settle_exports(st, m, es, i)),
        !any_error(c_settle_exports(st, m, es, i).diags) ==> forall|k: int|
            i <= k < es.len() ==> !has_var((#[trigger] es[k]).1),
    decreases es.len() - i,
{
    unfold_c_settle_exports(st, m, es, i);
    if i < es.len() {
        lemma_unsettled(st, m, es[i].0);
        let next = if has_var(es[i].1) {
            unsettled(st, m, es[i].0)
        } else {
            st
        };
        lemma_settle_exports(next, m, es, i + 1);
    }
}

/// What a checked module offers is fully resolved: no inference variable occurs in the types of
/// its exports, functions and constants.
pub proof fn law_exports_are_resolved(m: ModuleV, res: ResolutionV, cfg: TypeConfigV)
    ensures
        typecheck_of(m, res, cfg) matches Ok(x) ==> {
            &&& forall|i: int| 0 <= i < x.exports.len() ==> !has_var((#[trigger] x.exports[i]).1)
            &&& forall|i: int|
                0 <= i < x.functions.len() ==> !has_var(
                    TypeV::Function((#[trigger] x.functions[i]).1),
                )
            &&& forall|i: int|
                0 <= i < x.constants.len() ==> !has_var((#[trigger] x.constants[i]).1)
        },
{
    let env = Env { res, cfg };
    let st1 = c_consts(env, start_check(env), m.decls, 0);
    let st2 = c_sigs(env, st1, m.decls, 0);
    let st3 = c_bodies(env, st2, m.decls, 0);
    let st4 = c_undetermined(env, st3, 0);
    let (st5, es) = match m.export {
        Some(e) => c_exports(env, st4, e.node, 0, Seq::empty()),
        None => (st4, c_open_exports(st4, m.decls, 0, Seq::empty())),
    };
    lemma_settle_functions(st5, m, 0);
    let st6 = c_settle_functions(st5, m, 0);
    lemma_settle_constants(st6, m, 0);
    let st7 = c_settle_constants(st6, m, 0);
    lemma_settle_exports(st7, m, es, 0);
    if typecheck_of(m, res, cfg) is Ok {
        let x = typecheck_of(m, res, cfg)->Ok_0;
        assert forall|i: int| 0 <= i < x.functions.len() implies !has_var(
            TypeV::Function((#[trigger] x.functions[i]).1),
        ) by {
            assert(!has_var(TypeV::Function(deep_fn(st5.subst, st5.func_sigs[i].1))));
        }
        assert forall|i: int| 0 <= i < x.constants.len() implies !has_var(
            (#[trigger] x.constants[i]).1,
        ) by {
            assert(!has_var(deep(st6.subst, st6.const_types[i].1)));
        }
    }
}

/// The result of type checking: the module's export signature plus the resolved types of
/// every in-function symbol and every top-level declaration.
#[derive(Debug)]
pub struct TypeInfo {
    /// Each exported name mapped to its (fully resolved) type.
    pub exports: NameMap<Type>,
    /// Resolved type of each in-function symbol, indexed by its id.
    pub symbol_types: Vec<Type>,
    /// Resolved signature of each top-level function, by declared name.
    pub functions: NameMap<FnType>,
    /// Resolved type of each top-level constant, by declared name.
    pub constants: NameMap<Type>,
    /// Resolved signature of each function literal, by the span of its body.
    pub function_literals: SpanMap<FnType>,
}

pub ghost struct TypeInfoV {
    pub exports: Seq<(Seq<char>, TypeV)>,
    pub symbol_types: Seq<TypeV>,
    pub functions: Seq<(Seq<char>, FnTypeV)>,
    pub constants: Seq<(Seq<char>, TypeV)>,
    pub literals: Map<Span, FnTypeV>,
}

impl View for TypeInfo {
    type V = TypeInfoV;

    open spec fn view(&self) -> TypeInfoV {
        TypeInfoV {
            exports: self.exports@,
            symbol_types: types_v(self.symbol_types@),
            functions: self.functions@,
            constants: self.constants@,
            literals: self.function_literals@,
        }
    }
}

/// Type-check `module` (already resolved into `resolution`) against `cfg`.
pub fn typecheck(module: &Module, resolution: &Resolution, cfg: &TypeConfig) -> (r: Result<
    TypeInfo,
    Diagnostics,
>)
    ensures
        match r {
            Ok(x) => typecheck_of(module@, resolution@, cfg@) == Ok::<TypeInfoV, Seq<DiagnosticV>>(
                x@,
            ),
            Err(d) => typecheck_of(module@, resolution@, cfg@) == Err::<
                TypeInfoV,
                Seq<DiagnosticV>,
            >(d@),
        },
{
    let mut c = Checker::new(resolution, cfg);
    let exports = c.run(module);
    proof {
        reveal(Checker::view);
    }
    let ghost st = c@;
    if c.diags.has_errors() {
        return Err(c.diags);
    }
    let symbol_types = c.deep_symbols();
    let functions = c.deep_functions();
    let constants = c.deep_constants();
    let function_literals = c.deep_literals();
    let r = TypeInfo { exports, symbol_types, functions, constants, function_literals };
    Ok(r)
}

struct ReturnFrame {
    ret: Type,
    saw_value: bool,
}

spec fn frames_v(v: Seq<ReturnFrame>) -> Seq<(TypeV, bool)> {
    Seq::new(v.len(), |i: int| (v[i].ret@, v[i].saw_value))
}

spec fn options_v(v: Seq<Option<Type>>) -> Seq<Option<TypeV>> {
    Seq::new(v.len(), |i: int| option_v(v[i]))
}

spec fn option_v(t: Option<Type>) -> Option<TypeV> {
    match t {
        Some(t) => Some(t@),
        None => None,
    }
}

struct Checker<'a> {
    res: &'a Resolution,
    cfg: &'a TypeConfig,
    u: Unifier,
    sym_types: Vec<Type>,
    narrowed: Vec<Option<Type>>,
    func_sigs: NameMap<FnType>,
    const_types: NameMap<Type>,
    return_stack: Vec<ReturnFrame>,
    literals: SpanMap<FnType>,
    diags: Diagnostics,
}

/// `b` is a later stage of `a`: same surroundings, same open functions.
spec fn kept(a: Checker, b: Checker) -> bool {
    &&& b.env() == a.env()
    &&& b.res == a.res
    &&& b.cfg == a.cfg
    &&& b@.returns.len() == a@.returns.len()
}

impl<'a> Checker<'a> {
    spec fn env(&self) -> Env {
        Env { res: self.res@, cfg: self.cfg@ }
    }

    #[verifier::opaque]
    spec fn view(&self) -> Check {
        Check {
            subst: self.u@,
            sym_types: types_v(self.sym_types@),
            narrowed: options_v(self.narrowed@),
            func_sigs: self.func_sigs@,
            const_types: self.const_types@,
            returns: frames_v(self.return_stack@),
            literals: self.literals@,
            diags: self.diags@,
        }
    }

    fn new(res: &'a Resolution, cfg: &'a TypeConfig) -> (r: Self)
        ensures
            r.res == res,
            r.cfg == cfg,
            r@ == start_check(r.env()),
    {
        proof {
            reveal(Checker::view);
        }
        let n: usize = res.symbols.len();
        let mut sym_types: Vec<Type> = Vec::new();
        let mut narrowed: Vec<Option<Type>> = Vec::new();
        let mut i: usize = 0;
        while i < n
            invariant
                i <= n,
                sym_types@.len() == i,
                narrowed@.len() == i,
                forall|k: int| 0 <= k < i ==> (#[trigger] sym_types@[k]) == Type::Error,
                forall|k: int| 0 <= k < i ==> (#[trigger] narrowed@[k]) is None,
            decreases n - i,
        {
            sym_types.push(Type::Error);
            narrowed.push(None);
            i += 1;
        }
        let r = Checker {
            res,
            cfg,
            u: Unifier::new(),
            sym_types,
            narrowed,
            func_sigs: NameMap::new(),
            const_types: NameMap::new(),
            return_stack: Vec::new(),
            literals: SpanMap::new(),
            diags: Diagnostics::new(),
        };
        assert(r@.sym_types =~= start_check(r.env()).sym_types);
        assert(r@.narrowed =~= start_check(r.env()).narrowed);
        assert(r@.returns =~= start_check(r.env()).returns);
        r
    }

    fn error(&mut self, code: &'static str, msg: String, span: Span)
        ensures
            kept(*old(self), *final(self)),
            final(self)@ == old(self)@.err(code@, msg@, span),
    {
        proof {
            reveal(Checker::view);
        }
        self.diags.push(Diagnostic::error(code, msg, span));
    }

    fn fresh(&mut self) -> (r: Type)
        ensures
            kept(*old(self), *final(self)),
            (final(self)@, r@) == old(self)@.fresh(),
    {
        proof {
            reveal(Checker::view);
        }
        self.u.fresh()
    }

    fn shallow(&self, t: &Type) -> (r: Type)
        ensures
            r@ == shallow(self@.subst, t@),
    {
        proof {
            reveal(Checker::view);
        }
        self.u.shallow(t)
    }

    fn deep(&self, t: &Type) -> (r: Type)
        ensures
            r@ == deep(self@.subst, t@),
    {
        proof {
            reveal(Checker::view);
        }
        self.u.deep(t)
    }

    /// The text of `t` with its variables substituted.
    fn text(&self, t: &Type) -> (r: String)
        ensures
            r@ == self@.text(t@),
    {
        self.deep(t).to_string()
    }

    fn unify(&mut self, a: &Type, b: &Type) -> (r: bool)
        ensures
            kept(*old(self), *final(self)),
            (final(self)@, r) == old(self)@.unified(a@, b@),
    {
        proof {
            reveal(Checker::view);
        }
        self.u.unify(a, b)
    }

    fn set_def(&mut self, span: Span, t: Type)
        ensures
            kept(*old(self), *final(self)),
            final(self)@ == old(self)@.set_def(old(self).env(), span, t@),
    {
        proof {
            reveal(Checker::view);
        }
        if let Some(id) = self.res.def(span) {
            let i: usize = id as usize;
            if i < self.sym_types.len() {
                let ghost tv = t@;
                self.sym_types.set(i, t);
                assert(self@.sym_types =~= old(self)@.sym_types.update(id as int, tv));
            }
        }
    }

    fn symbol_type(&self, id: SymbolId) -> (r: Type)
        ensures
            r@ == self@.symbol_type(id),
    {
        proof {
            reveal(Checker::view);
        }
        let i: usize = id as usize;
        if i < self.narrowed.len() {
            if let Some(t) = &self.narrowed[i] {
                return t.dup();
            }
        }
        if i < self.sym_types.len() {
            self.sym_types[i].dup()
        } else {
            Type::Error
        }
    }

    fn record_literal(&mut self, span: Span, sig: FnType)
        ensures
            kept(*old(self), *final(self)),
            final(self)@ == c_literal(old(self)@, span, sig@),
    {
        proof {
            reveal(Checker::view);
        }
        self.literals.insert(span, sig);
    }

    fn push_frame(&mut self, ret: Type)
        ensures
            final(self).env() == old(self).env(),
            final(self).res == old(self).res,
            final(self).cfg == old(self).cfg,
            final(self)@ == (Check {
                returns: old(self)@.returns.push((ret@, false)),
                ..old(self)@
            }),
    {
        proof {
            reveal(Checker::view);
        }
        let ghost rv = ret@;
        self.return_stack.push(ReturnFrame { ret, saw_value: false });
        assert(self@.returns =~= old(self)@.returns.push((rv, false)));
    }

    fn pop_frame(&mut self) -> (r: ReturnFrame)
        requires
            old(self)@.returns.len() > 0,
        ensures
            final(self).env() == old(self).env(),
            final(self).res == old(self).res,
            final(self).cfg == old(self).cfg,
            (r.ret@, r.saw_value) == old(self)@.returns.last(),
            final(self)@ == (Check {
                returns: old(self)@.returns.drop_last(),
                ..old(self)@
            }),
    {
        proof {
            reveal(Checker::view);
        }
        let r = self.return_stack.pop().unwrap();
        assert(self@.returns =~= old(self)@.returns.drop_last());
        r
    }

    /// The return type of the innermost function.
    fn frame_ret(&self) -> (r: Option<Type>)
        ensures
            match r {
                Some(t) => self@.returns.len() > 0 && t@ == self@.returns.last().0,
                None => self@.returns.len() == 0,
            },
    {
        proof {
            reveal(Checker::view);
        }
        let n: usize = self.return_stack.len();
        if n > 0 {
            Some(self.return_stack[n - 1].ret.dup())
        } else {
            None
        }
    }

    fn mark_value(&mut self)
        ensures
            kept(*old(self), *final(self)),
            final(self)@ == saw_value(old(self)@),
    {
        proof {
            reveal(Checker::view);
        }
        if self.return_stack.len() > 0 {
            let f = self.return_stack.pop().unwrap();
            let ret = f.ret;
            self.return_stack.push(ReturnFrame { ret, saw_value: true });
            assert(self@.returns =~= saw_value(old(self)@).returns);
        }
    }

    /// Refine a symbol, or lift the refinement.
    fn narrow(&mut self, id: SymbolId, t: Option<Type>)
        ensures
            kept(*old(self), *final(self)),
            final(self)@ == old(self)@.narrow(id, option_v(t)),
    {
        proof {
            reveal(Checker::view);
        }
        let i: usize = id as usize;
        if i < self.narrowed.len() {
            let ghost tv = option_v(t);
            self.narrowed.set(i, t);
            assert(self@.narrowed =~= old(self)@.narrowed.update(id as int, tv));
        }
    }

    /// Refine a symbol for the time being; yields what to restore.
    fn apply_narrowing(&mut self, id: SymbolId, t: Type) -> (r: Option<Type>)
        ensures
            kept(*old(self), *final(self)),
            final(self)@ == old(self)@.narrow(id, Some(t@)),
            option_v(r) == old(self)@.narrowing(id),
    {
        proof {
            reveal(Checker::view);
        }
        let i: usize = id as usize;
        let before = if i < self.narrowed.len() {
            match &self.narrowed[i] {
                Some(x) => Some(x.dup()),
                None => None,
            }
        } else {
            None
        };
        self.narrow(id, Some(t));
        before
    }

    fn restore_narrowing(&mut self, id: SymbolId, saved: Option<Type>)
        ensures
            kept(*old(self), *final(self)),
            final(self)@ == old(self)@.narrow(id, option_v(saved)),
    {
        self.narrow(id, saved);
    }

    /// Unify `actual` with `expected`, with a diagnostic on mismatch.
    fn require(
        &mut self,
        span: Span,
        actual: &Type,
        expected: &Type,
        code: &'static str,
        ctx: &str,
    )
        ensures
            kept(*old(self), *final(self)),
            final(self)@ == old(self)@.require(span, actual@, expected@, code@, ctx@),
    {
        if !self.unify(actual, expected) {
            let want = self.text(expected);
            let got = self.text(actual);
            self.error(
                code,
                cat5(ctx, ": expected ", want.as_str(), ", found ", got.as_str()),
                span,
            );
        }
    }

    /// Like [`Self::require`] but with optional widening (`T`/`nil` assignable to `T?`).
    fn require_assignable(&mut self, span: Span, from: &Type, to: &Type, ctx: &str)
        ensures
            kept(*old(self), *final(self)),
            final(self)@ == old(self)@.require_assignable(span, from@, to@, ctx@),
    {
        if self.is_assignable(from, to) {
            return ;
        }
        let want = self.text(to);
        let got = self.text(from);
        self.error(
            "E0402",
            cat5(ctx, ": expected ", want.as_str(), ", found ", got.as_str()),
            span,
        );
    }

    fn is_assignable(&mut self, from: &Type, to: &Type) -> (r: bool)
        ensures
            kept(*old(self), *final(self)),
            ({
                let (s, ok) = assignable_n(old(self)@.subst, from@, to@, old(self)@.subst.len());
                final(self)@ == (Check { subst: s, ..old(self)@ }) && r == ok
            }),
    {
        proof {
            reveal(Checker::view);
        }
        self.u.is_assignable(from, to)
    }

    fn run(&mut self, module: &Module) -> (r: NameMap<Type>)
        requires
            old(self)@ == start_check(old(self).env()),
        ensures
            final(self).env() == old(self).env(),
            (final(self)@, r@) == c_module(old(self).env(), module@),
    {
        self.check_consts(module);
        self.make_sigs(module);
        self.check_bodies(module);
        self.flag_undetermined();
        let exports = self.build_exports(module);
        self.settle(module, &exports);
        exports
    }

    /// Flag what the module offers with a type that stays undetermined.
    fn settle(&mut self, module: &Module, exports: &NameMap<Type>)
        ensures
            kept(*old(self), *final(self)),
            final(self)@ == c_settled(old(self)@, module@, exports@),
    {
        self.settle_functions(module);
        self.settle_constants(module);
        if !self.failed() {
            self.settle_exports(module, exports);
        }
    }

    fn failed(&self) -> (r: bool)
        ensures
            r == any_error(self@.diags),
    {
        proof {
            reveal(Checker::view);
        }
        self.diags.has_errors()
    }

    fn unsettled(&mut self, module: &Module, n: &str)
        ensures
            kept(*old(self), *final(self)),
            final(self)@ == unsettled(old(self)@, module@, n@),
    {
        let ghost m = module@;
        let mut span = module.span;
        let mut k: usize = 0;
        while k < module.decls.len()
            invariant
                m == module@,
                k <= module.decls@.len(),
                span == decl_span(m, n@, k as int),
                *self == *old(self),
            decreases module.decls@.len() - k,
        {
            assert(m.decls[k as int] == module.decls@[k as int]@);
            match &module.decls[k] {
                TopDecl::Function(f) => {
                    if same(f.name.node.as_str(), n) {
                        span = f.name.span;
                    }
                },
                TopDecl::Const(c) => {
                    if same(c.name.node.as_str(), n) {
                        span = c.name.span;
                    }
                },
            }
            k += 1;
        }
        let msg = cat3("cannot infer the type of `", n, "`; nothing determines it");
        self.error("E0410", msg, span);
    }

    fn settle_functions(&mut self, module: &Module)
        ensures
            kept(*old(self), *final(self)),
            final(self)@ == c_settle_functions(old(self)@, module@, 0),
    {
        let functions = self.deep_functions();
        let ghost m = module@;
        let ghost fs = old(self)@.func_sigs;
        let mut i: usize = 0;
        while i < functions.len()
            invariant
                m == module@,
                fs == old(self)@.func_sigs,
                i <= fs.len(),
                functions@ == Seq::new(
                    fs.len(),
                    |i: int| (fs[i].0, deep_fn(old(self)@.subst, fs[i].1)),
                ),
                kept(*old(self), *self),
                self@ == (Check { diags: self@.diags, ..old(self)@ }),
                c_settle_functions(self@, m, i as int) == c_settle_functions(old(self)@, m, 0),
            decreases fs.len() - i,
        {
            proof {
                unfold_c_settle_functions(self@, m, i as int);
            }
            if functions.value(i).has_var() {
                self.unsettled(module, functions.key(i).as_str());
            }
            i += 1;
        }
        proof {
            unfold_c_settle_functions(self@, m, i as int);
        }
    }

    fn settle_constants(&mut self, module: &Module)
        ensures
            kept(*old(self), *final(self)),
            final(self)@ == c_settle_constants(old(self)@, module@, 0),
    {
        let constants = self.deep_constants();
        let ghost m = module@;
        let ghost cs = old(self)@.const_types;
        let mut i: usize = 0;
        while i < constants.len()
            invariant
                m == module@,
                cs == old(self)@.const_types,
                i <= cs.len(),
                constants@ == Seq::new(
                    cs.len(),
                    |i: int| (cs[i].0, deep(old(self)@.subst, cs[i].1)),
                ),
                kept(*old(self), *self),
                self@ == (Check { diags: self@.diags, ..old(self)@ }),
                c_settle_constants(self@, m, i as int) == c_settle_constants(old(self)@, m, 0),
            decreases cs.len() - i,
        {
            proof {
                unfold_c_settle_constants(self@, m, i as int);
            }
            if constants.value(i).has_var() {
                self.unsettled(module, constants.key(i).as_str());
            }
            i += 1;
        }
        proof {
            unfold_c_settle_constants(self@, m, i as int);
        }
    }

    fn settle_exports(&mut self, module: &Module, exports: &NameMap<Type>)
        ensures
            kept(*old(self), *final(self)),
            final(self)@ == c_settle_exports(old(self)@, module@, exports@, 0),
    {
        let ghost m = module@;
        let ghost es = exports@;
        let mut i: usize = 0;
        while i < exports.len()
            invariant
                m == module@,
                es == exports@,
                i <= es.len(),
                kept(*old(self), *self),
                c_settle_exports(self@, m, es, i as int) == c_settle_exports(
                    old(self)@,
                    m,
                    es,
                    0,
                ),
            decreases es.len() - i,
        {
            proof {
                unfold_c_settle_exports(self@, m, es, i as int);
            }
            if exports.value(i).has_var() {
                self.unsettled(module, exports.key(i).as_str());
            }
            i += 1;
        }
        proof {
            unfold_c_settle_exports(self@, m, es, i as int);
        }
    }

    fn check_consts(&mut self, module: &Module)
        ensures
            kept(*old(self), *final(self)),
            final(self)@ == c_consts(old(self).env(), old(self)@, module@.decls, 0),
    {
        let ghost env = self.env();
        let ghost ds = module@.decls;
        let mut i: usize = 0;
        while i < module.decls.len()
            invariant
                i <= module.decls@.len(),
                ds == module@.decls,
                env == old(self).env(),
                kept(*old(self), *self),
                c_consts(env, self@, ds, i as int) == c_consts(env, old(self)@, ds, 0),
            decreases module.decls@.len() - i,
        {
            proof {
                unfold_c_consts(env, self@, ds, i as int);
            }
            if let TopDecl::Const(c) = &module.decls[i] {
                let t = self.check_expr(&c.value);
                let t = self.deep(&t);
                self.add_const(c.name.node.clone(), t);
            }
            i += 1;
        }
        proof {
            unfold_c_consts(env, self@, ds, i as int);
        }
    }

    fn add_const(&mut self, name: String, t: Type)
        ensures
            kept(*old(self), *final(self)),
            final(self)@ == (Check {
                const_types: put_of(old(self)@.const_types, name@, t@),
                ..old(self)@
            }),
    {
        proof {
            reveal(Checker::view);
        }
        self.const_types.insert(name, t);
    }

    fn add_sig(&mut self, name: String, sig: FnType)
        ensures
            kept(*old(self), *final(self)),
            final(self)@ == (Check {
                func_sigs: put_of(old(self)@.func_sigs, name@, sig@),
                ..old(self)@
            }),
    {
        proof {
            reveal(Checker::view);
        }
        self.func_sigs.insert(name, sig);
    }

    /// Pre-create a signature (fresh variables) for every top-level function so that calls,
    /// including mutual recursion, resolve before bodies are checked.
    fn make_sigs(&mut self, module: &Module)
        ensures
            kept(*old(self), *final(self)),
            final(self)@ == c_sigs(old(self).env(), old(self)@, module@.decls, 0),
    {
        let ghost env = self.env();
        let ghost ds = module@.decls;
        let mut i: usize = 0;
        while i < module.decls.len()
            invariant
                i <= module.decls@.len(),
                ds == module@.decls,
                env == old(self).env(),
                kept(*old(self), *self),
                c_sigs(env, self@, ds, i as int) == c_sigs(env, old(self)@, ds, 0),
            decreases module.decls@.len() - i,
        {
            proof {
                unfold_c_sigs(env, self@, ds, i as int);
            }
            if let TopDecl::Function(f) = &module.decls[i] {
                let sig = self.make_sig(&f.body.params);
                assert(f@.body.params == idents_v(f.body.params@));
                self.add_sig(f.name.node.clone(), sig);
            }
            i += 1;
        }
        proof {
            unfold_c_sigs(env, self@, ds, i as int);
        }
    }

    fn sig_of(&self, name: &str) -> (r: Option<FnType>)
        ensures
            match r {
                Some(f) => get_of(self@.func_sigs, name@) == Some(f@),
                None => get_of(self@.func_sigs, name@) is None,
            },
    {
        proof {
            reveal(Checker::view);
        }
        match self.func_sigs.get(name) {
            Some(f) => Some(f.dup()),
            None => None,
        }
    }

    fn const_of(&self, name: &str) -> (r: Option<Type>)
        ensures
            match r {
                Some(t) => get_of(self@.const_types, name@) == Some(t@),
                None => get_of(self@.const_types, name@) is None,
            },
    {
        proof {
            reveal(Checker::view);
        }
        match self.const_types.get(name) {
            Some(t) => Some(t.dup()),
            None => None,
        }
    }

    fn check_bodies(&mut self, module: &Module)
        ensures
            kept(*old(self), *final(self)),
            final(self)@ == c_bodies(old(self).env(), old(self)@, module@.decls, 0),
    {
        let ghost env = self.env();
        let ghost ds = module@.decls;
        let mut i: usize = 0;
        while i < module.decls.len()
            invariant
                i <= module.decls@.len(),
                ds == module@.decls,
                env == old(self).env(),
                kept(*old(self), *self),
                c_bodies(env, self@, ds, i as int) == c_bodies(env, old(self)@, ds, 0),
            decreases module.decls@.len() - i,
        {
            proof {
                unfold_c_bodies(env, self@, ds, i as int);
            }
            if let TopDecl::Function(f) = &module.decls[i] {
                if let Some(sig) = self.sig_of(f.name.node.as_str()) {
                    self.check_func_body(&f.body, &sig);
                }
            }
            i += 1;
        }
        proof {
            unfold_c_bodies(env, self@, ds, i as int);
        }
    }

    /// Flag parameters whose type inference could not pin.
    fn flag_undetermined(&mut self)
        ensures
            kept(*old(self), *final(self)),
            final(self)@ == c_undetermined(old(self).env(), old(self)@, 0),
    {
        let ghost env = self.env();
        let mut i: usize = 0;
        while i < self.res.symbols.len()
            invariant
                i <= env.res.symbols.len(),
                env == old(self).env(),
                kept(*old(self), *self),
                c_undetermined(env, self@, i as int) == c_undetermined(env, old(self)@, 0),
            decreases env.res.symbols.len() - i,
        {
            proof {
                unfold_c_undetermined(env, self@, i as int);
            }
            let span = self.res.symbols[i].def_span;
            if self.res.symbols[i].kind == SymbolKind::Param {
                if let Some(id) = self.res.def(span) {
                    if self.is_undetermined(id) {
                        let msg = cat3(
                            "cannot infer the type of parameter `",
                            self.res.symbols[i].name.as_str(),
                            "`; it is never used in a way that determines its type",
                        );
                        self.error("E0410", msg, span);
                    }
                }
            }
            i += 1;
        }
        proof {
            unfold_c_undetermined(env, self@, i as int);
        }
    }

    fn is_undetermined(&self, id: SymbolId) -> (r: bool)
        ensures
            r == (id < self@.sym_types.len() && deep(
                self@.subst,
                self@.sym_types[id as int],
            ) is Var),
    {
        proof {
            reveal(Checker::view);
        }
        let i: usize = id as usize;
        if i < self.sym_types.len() {
            let t = self.u.deep(&self.sym_types[i]);
            matches!(t, Type::Var(_))
        } else {
            false
        }
    }

    /// Build the module export signature.
    fn build_exports(&mut self, module: &Module) -> (r: NameMap<Type>)
        ensures
            final(self).env() == old(self).env(),
            (final(self)@, r@) == match module@.export {
                Some(e) => c_exports(old(self).env(), old(self)@, e.node, 0, Seq::empty()),
                None => (
                    old(self)@,
                    c_open_exports(old(self)@, module@.decls, 0, Seq::empty()),
                ),
            },
    {
        match &module.export {
            Some(export) => self.curated_exports(&export.node),
            None => self.open_exports(&module.decls),
        }
    }

    fn curated_exports(&mut self, fields: &Vec<Field>) -> (r: NameMap<Type>)
        ensures
            kept(*old(self), *final(self)),
            (final(self)@, r@) == c_exports(
                old(self).env(),
                old(self)@,
                fields_v(fields@),
                0,
                Seq::empty(),
            ),
    {
        let ghost env = self.env();
        let ghost fs = fields_v(fields@);
        let mut exports: NameMap<Type> = NameMap::new();
        let mut i: usize = 0;
        while i < fields.len()
            invariant
                i <= fields@.len(),
                fs == fields_v(fields@),
                env == old(self).env(),
                kept(*old(self), *self),
                c_exports(env, self@, fs, i as int, exports@) == c_exports(
                    env,
                    old(self)@,
                    fs,
                    0,
                    Seq::empty(),
                ),
            decreases fields@.len() - i,
        {
            proof {
                unfold_c_exports(env, self@, fs, i as int, exports@);
            }
            match &fields[i] {
                Field::Named { name, value } => {
                    let t = self.check_expr(value);
                    let t = self.deep(&t);
                    exports.insert(name.node.clone(), t);
                },
                Field::Positional(e) => {
                    self.error(
                        "E0411",
                        own("module export table entries must be `name = value`"),
                        e.span,
                    );
                },
                Field::Keyed { key, .. } => {
                    self.error(
                        "E0411",
                        own("module export table entries must be `name = value`"),
                        key.span,
                    );
                },
            }
            i += 1;
        }
        proof {
            unfold_c_exports(env, self@, fs, i as int, exports@);
        }
        exports
    }

    fn open_exports(&self, decls: &Vec<TopDecl>) -> (r: NameMap<Type>)
        ensures
            r@ == c_open_exports(self@, decls_v(decls@), 0, Seq::empty()),
    {
        let ghost ds = decls_v(decls@);
        let mut exports: NameMap<Type> = NameMap::new();
        let mut i: usize = 0;
        while i < decls.len()
            invariant
                i <= decls@.len(),
                ds == decls_v(decls@),
                c_open_exports(self@, ds, i as int, exports@) == c_open_exports(
                    self@,
                    ds,
                    0,
                    Seq::empty(),
                ),
            decreases decls@.len() - i,
        {
            proof {
                unfold_c_open_exports(self@, ds, i as int, exports@);
            }
            match &decls[i] {
                TopDecl::Function(f) => {
                    let t = match self.sig_of(f.name.node.as_str()) {
                        Some(sig) => Type::Function(sig),
                        None => Type::Error,
                    };
                    let t = self.deep(&t);
                    exports.insert(f.name.node.clone(), t);
                },
                TopDecl::Const(c) => {
                    let t = match self.const_of(c.name.node.as_str()) {
                        Some(t) => t,
                        None => Type::Error,
                    };
                    let t = self.deep(&t);
                    exports.insert(c.name.node.clone(), t);
                },
            }
            i += 1;
        }
        proof {
            unfold_c_open_exports(self@, ds, i as int, exports@);
        }
        exports
    }

    /// Create a function signature of fresh variables, binding each parameter symbol's type
    /// to its fresh variable so the body and the signature share inference state.
    fn make_sig(&mut self, params: &Vec<Ident>) -> (r: FnType)
        ensures
            kept(*old(self), *final(self)),
            (final(self)@, r@) == c_sig(old(self).env(), old(self)@, idents_v(params@)),
    {
        let ghost env = self.env();
        let ghost ps = idents_v(params@);
        let mut ptypes: Vec<Type> = Vec::new();
        assert(types_v(ptypes@) =~= Seq::<TypeV>::empty());
        let mut i: usize = 0;
        while i < params.len()
            invariant
                i <= params@.len(),
                ps == idents_v(params@),
                env == old(self).env(),
                kept(*old(self), *self),
                c_params(env, self@, ps, i as int, types_v(ptypes@)) == c_params(
                    env,
                    old(self)@,
                    ps,
                    0,
                    Seq::empty(),
                ),
            decreases params@.len() - i,
        {
            proof {
                unfold_c_params(env, self@, ps, i as int, types_v(ptypes@));
            }
            let ghost before = ptypes@;
            let v = self.fresh();
            let w = v.dup();
            self.set_def(params[i].span, w);
            ptypes.push(v);
            assert(types_v(ptypes@) =~= types_v(before).push(v@));
            i += 1;
        }
        proof {
            unfold_c_params(env, self@, ps, i as int, types_v(ptypes@));
        }
        let ret = self.fresh();
        FnType { params: ptypes, ret: Box::new(ret) }
    }

    fn check_func_body(&mut self, body: &FuncBody, sig: &FnType)
        ensures
            kept(*old(self), *final(self)),
            final(self)@ == c_func(old(self).env(), old(self)@, body@, sig@),
        decreases body, 0int,
    {
        proof {
            unfold_c_func(self.env(), self@, body@, sig@);
        }
        self.push_frame(sig.ret.dup());
        self.check_block(&body.block);
        let frame = self.pop_frame();
        // A function with no value-returning `return` is value-less.
        if !frame.saw_value {
            self.unify(&frame.ret, &Type::Unit);
        }
    }

    fn check_block(&mut self, block: &Block)
        ensures
            kept(*old(self), *final(self)),
            final(self)@ == c_block(old(self).env(), old(self)@, block@),
        decreases block, 1int,
    {
        proof {
            unfold_c_block(self.env(), self@, block@);
        }
        self.check_stats(&block.stats);
        if let Some(ret) = &block.ret {
            self.check_return(ret);
        }
    }

    fn check_stats(&mut self, stats: &Vec<Stat>)
        ensures
            kept(*old(self), *final(self)),
            final(self)@ == c_stats(old(self).env(), old(self)@, stats_v(stats@), 0),
        decreases stats, 0int,
    {
        let ghost env = self.env();
        let ghost ss = stats_v(stats@);
        let mut i: usize = 0;
        while i < stats.len()
            invariant
                i <= stats@.len(),
                ss == stats_v(stats@),
                env == old(self).env(),
                kept(*old(self), *self),
                c_stats(env, self@, ss, i as int) == c_stats(env, old(self)@, ss, 0),
            decreases stats@.len() - i,
        {
            proof {
                unfold_c_stats(env, self@, ss, i as int);
            }
            self.check_stat(&stats[i]);
            i += 1;
        }
        proof {
            unfold_c_stats(env, self@, ss, i as int);
        }
    }

    fn check_return(&mut self, ret: &RetStat)
        ensures
            kept(*old(self), *final(self)),
            final(self)@ == c_return(old(self).env(), old(self)@, ret@),
        decreases ret, 0int,
    {
        proof {
            unfold_c_return(self.env(), self@, ret@);
        }
        if ret.exprs.len() > 1 {
            self.error(
                "E0412",
                own("multiple return values are not supported in this version of Grindlang"),
                ret.span,
            );
        }
        let frame_ret = self.frame_ret();
        if ret.exprs.len() > 0 {
            let expr = &ret.exprs[0];
            let t = self.check_expr(expr);
            if let Some(r) = frame_ret {
                self.require(expr.span, &t, &r, "E0413", "return type mismatch");
            }
            self.mark_value();
        }
    }

    fn check_stat(&mut self, stat: &Stat)
        ensures
            kept(*old(self), *final(self)),
            final(self)@ == c_stat(old(self).env(), old(self)@, stat@),
        decreases stat, 1int,
    {
        proof {
            unfold_c_stat(self.env(), self@, stat@);
        }
        match &stat.kind {
            StatKind::Empty => {},
            StatKind::Break => {},
            StatKind::Local { names, exprs } => {
                if exprs.len() > 0 && exprs.len() != names.len() {
                    self.count_error(names.len(), " name(s) but ", exprs.len(), stat.span);
                }
                let values = self.check_values(exprs);
                self.bind_locals(names, &values, exprs.len() == 0);
            },
            StatKind::LocalFunction { name, body } => {
                assert(body@.params == idents_v(body.params@));
                let sig = self.make_sig(&body.params);
                self.record_literal(body.span, sig.dup());
                self.set_def(name.span, Type::Function(sig.dup()));
                self.check_func_body(body, &sig);
            },
            StatKind::Assign { targets, exprs } => {
                if targets.len() != exprs.len() {
                    self.count_error(targets.len(), " target(s) but ", exprs.len(), stat.span);
                }
                let values = self.check_values(exprs);
                self.assign_all(targets, &values);
            },
            StatKind::Call(e) => {
                self.check_expr(e);
            },
            StatKind::Do(block) => self.check_block(block),
            StatKind::While { cond, body } => {
                self.check_condition(cond);
                self.check_block(body);
            },
            StatKind::If { arms, else_block } => {
                self.check_arms(arms);
                if let Some(block) = else_block {
                    self.check_block(block);
                }
            },
            StatKind::NumericFor { var, start, end, step, body } => {
                self.require_number(start);
                self.require_number(end);
                if let Some(step) = step {
                    self.require_number(step);
                }
                self.set_def(var.span, Type::Number);
                self.check_block(body);
            },
            StatKind::GenericFor { names, iter, body } => {
                let (key, val) = match iter {
                    IterExpr::IPairs { arg, .. } => {
                        let at = self.check_expr(arg);
                        let val = self.iterated(&at, true, arg.span);
                        (Type::Number, val)
                    },
                    IterExpr::Pairs { arg, .. } => {
                        let at = self.check_expr(arg);
                        let val = self.iterated(&at, false, arg.span);
                        (Type::String, val)
                    },
                };
                if names.len() > 2 {
                    self.error(
                        "E0416",
                        own("a generic `for` binds at most two variables (key, value)"),
                        names[2].span,
                    );
                }
                self.bind_loop_vars(names, &key, &val);
                self.check_block(body);
            },
        }
    }

    fn count_error(&mut self, left: usize, what: &str, right: usize, span: Span)
        ensures
            kept(*old(self), *final(self)),
            final(self)@ == count_error(old(self)@, left as nat, what@, right as nat, span),
    {
        let l = dec_string(left as u64);
        let r = dec_string(right as u64);
        self.error(
            "E0414",
            cat5("assignment arity mismatch: ", l.as_str(), what, r.as_str(), " value(s)"),
            span,
        );
    }

    fn check_values(&mut self, es: &Vec<Expr>) -> (r: Vec<Type>)
        ensures
            kept(*old(self), *final(self)),
            (final(self)@, types_v(r@)) == c_values(
                old(self).env(),
                old(self)@,
                exprs_v(es@),
                0,
                Seq::empty(),
            ),
        decreases es, 0int,
    {
        let ghost env = self.env();
        let ghost ev = exprs_v(es@);
        let mut out: Vec<Type> = Vec::new();
        assert(types_v(out@) =~= Seq::<TypeV>::empty());
        let mut i: usize = 0;
        while i < es.len()
            invariant
                i <= es@.len(),
                ev == exprs_v(es@),
                env == old(self).env(),
                kept(*old(self), *self),
                c_values(env, self@, ev, i as int, types_v(out@)) == c_values(
                    env,
                    old(self)@,
                    ev,
                    0,
                    Seq::empty(),
                ),
            decreases es@.len() - i,
        {
            proof {
                unfold_c_values(env, self@, ev, i as int, types_v(out@));
            }
            let ghost before = out@;
            let t = self.check_expr(&es[i]);
            out.push(t);
            assert(types_v(out@) =~= types_v(before).push(t@));
            i += 1;
        }
        proof {
            unfold_c_values(env, self@, ev, i as int, types_v(out@));
        }
        out
    }

    fn bind_locals(&mut self, names: &Vec<Ident>, values: &Vec<Type>, uninit: bool)
        ensures
            kept(*old(self), *final(self)),
            final(self)@ == c_bind_locals(
                old(self).env(),
                old(self)@,
                idents_v(names@),
                types_v(values@),
                uninit,
                0,
            ),
    {
        let ghost env = self.env();
        let ghost ns = idents_v(names@);
        let ghost vs = types_v(values@);
        let mut i: usize = 0;
        while i < names.len()
            invariant
                i <= names@.len(),
                ns == idents_v(names@),
                vs == types_v(values@),
                env == old(self).env(),
                kept(*old(self), *self),
                c_bind_locals(env, self@, ns, vs, uninit, i as int) == c_bind_locals(
                    env,
                    old(self)@,
                    ns,
                    vs,
                    uninit,
                    0,
                ),
            decreases names@.len() - i,
        {
            proof {
                unfold_c_bind_locals(env, self@, ns, vs, uninit, i as int);
            }
            let span = names[i].span;
            if self.res.def(span).is_some() {
                // An uninitialized `local x` gets a fresh variable to be pinned by later use.
                if uninit {
                    let v = self.fresh();
                    self.set_def(span, v);
                } else if i < values.len() {
                    self.set_def(span, values[i].dup());
                } else {
                    self.set_def(span, Type::Error);
                }
            }
            i += 1;
        }
        proof {
            unfold_c_bind_locals(env, self@, ns, vs, uninit, i as int);
        }
    }

    fn assign_all(&mut self, targets: &Vec<Expr>, values: &Vec<Type>)
        ensures
            kept(*old(self), *final(self)),
            final(self)@ == c_assign_all(
                old(self).env(),
                old(self)@,
                exprs_v(targets@),
                types_v(values@),
                0,
            ),
        decreases targets, 0int,
    {
        let ghost env = self.env();
        let ghost tv = exprs_v(targets@);
        let ghost vs = types_v(values@);
        let mut i: usize = 0;
        while i < targets.len() && i < values.len()
            invariant
                i <= targets@.len(),
                i <= values@.len(),
                tv == exprs_v(targets@),
                vs == types_v(values@),
                env == old(self).env(),
                kept(*old(self), *self),
                c_assign_all(env, self@, tv, vs, i as int) == c_assign_all(
                    env,
                    old(self)@,
                    tv,
                    vs,
                    0,
                ),
            decreases targets@.len() - i,
        {
            proof {
                unfold_c_assign_all(env, self@, tv, vs, i as int);
            }
            let place = self.place_type(&targets[i]);
            self.require_assignable(
                targets[i].span,
                &values[i],
                &place,
                "assignment type mismatch",
            );
            i += 1;
        }
        proof {
            unfold_c_assign_all(env, self@, tv, vs, i as int);
        }
    }

    fn check_arms(&mut self, arms: &Vec<(Expr, Block)>)
        ensures
            kept(*old(self), *final(self)),
            final(self)@ == c_arms(old(self).env(), old(self)@, arms_v(arms@), 0),
        decreases arms, 0int,
    {
        let ghost env = self.env();
        let ghost av = arms_v(arms@);
        let mut i: usize = 0;
        while i < arms.len()
            invariant
                i <= arms@.len(),
                av == arms_v(arms@),
                env == old(self).env(),
                kept(*old(self), *self),
                c_arms(env, self@, av, i as int) == c_arms(env, old(self)@, av, 0),
            decreases arms@.len() - i,
        {
            proof {
                unfold_c_arms(env, self@, av, i as int);
            }
            assert(decreases_to!(arms => arms@[i as int]));
            self.check_arm(&arms[i]);
            i += 1;
        }
        proof {
            unfold_c_arms(env, self@, av, i as int);
        }
    }

    fn check_arm(&mut self, arm: &(Expr, Block))
        ensures
            kept(*old(self), *final(self)),
            final(self)@ == c_arm(old(self).env(), old(self)@, (arm.0@, arm.1@)),
        decreases arm, 0int,
    {
        proof {
            unfold_c_arm(self.env(), self@, (arm.0@, arm.1@));
        }
        self.check_condition(&arm.0);
        // Limited narrowing: `if <name> ~= nil` refines `<name>` inside the branch.
        match self.narrowing_from(&arm.0) {
            Some((id, t)) => {
                let saved = self.apply_narrowing(id, t);
                self.check_block(&arm.1);
                self.restore_narrowing(id, saved);
            },
            None => {
                self.check_block(&arm.1);
            },
        }
    }

    /// The element type that `ipairs` (or the value type that `pairs`) draws from a type.
    fn iterated(&mut self, at: &Type, ordered: bool, span: Span) -> (r: Type)
        ensures
            kept(*old(self), *final(self)),
            (final(self)@, r@) == c_iterated(old(self)@, at@, ordered, span),
    {
        proof {
            reveal(c_iterated);
        }
        match self.shallow(at) {
            Type::Error => Type::Error,
            Type::Var(_) => {
                // The type is still unknown: iterating forces it to be an array or a map.
                let v = self.fresh();
                let want = if ordered { Type::array(v.dup()) } else { Type::map(v.dup()) };
                self.unify(at, &want);
                v
            },
            other => {
                if ordered {
                    if let Type::Array(x) = other {
                        *x
                    } else {
                        let found = self.text(&other);
                        self.error(
                            "E0415",
                            cat2("`ipairs` expects an array, found ", found.as_str()),
                            span,
                        );
                        Type::Error
                    }
                } else {
                    if let Type::MapOf(x) = other {
                        *x
                    } else {
                        let found = self.text(&other);
                        self.error(
                            "E0415",
                            cat3(
                                "`pairs` expects a map, found ",
                                found.as_str(),
                                " (iterating records is not yet supported)",
                            ),
                            span,
                        );
                        Type::Error
                    }
                }
            },
        }
    }

    fn bind_loop_vars(&mut self, names: &Vec<Ident>, key: &Type, val: &Type)
        ensures
            kept(*old(self), *final(self)),
            final(self)@ == c_loop_vars(
                old(self).env(),
                old(self)@,
                idents_v(names@),
                key@,
                val@,
                0,
            ),
    {
        let ghost env = self.env();
        let ghost ns = idents_v(names@);
        let mut i: usize = 0;
        while i < names.len()
            invariant
                i <= names@.len(),
                ns == idents_v(names@),
                env == old(self).env(),
                kept(*old(self), *self),
                c_loop_vars(env, self@, ns, key@, val@, i as int) == c_loop_vars(
                    env,
                    old(self)@,
                    ns,
                    key@,
                    val@,
                    0,
                ),
            decreases names@.len() - i,
        {
            proof {
                unfold_c_loop_vars(env, self@, ns, key@, val@, i as int);
            }
            let t = if i == 0 {
                key.dup()
            } else if i == 1 {
                val.dup()
            } else {
                Type::Error
            };
            self.set_def(names[i].span, t);
            i += 1;
        }
        proof {
            unfold_c_loop_vars(env, self@, ns, key@, val@, i as int);
        }
    }

    fn check_expr(&mut self, expr: &Expr) -> (r: Type)
        ensures
            kept(*old(self), *final(self)),
            (final(self)@, r@) == c_expr(old(self).env(), old(self)@, expr@),
        decreases expr, 2int,
    {
        proof {
            unfold_c_expr(self.env(), self@, expr@);
        }
        match &expr.kind {
            ExprKind::Nil => Type::Nil,
            ExprKind::Bool(_) => Type::Bool,
            ExprKind::Number(_) => Type::Number,
            ExprKind::Str(_) => Type::String,
            ExprKind::Paren(inner) => self.check_expr(inner),
            ExprKind::Name(_) => self.check_name(expr.span),
            ExprKind::Function(body) => {
                assert(body@.params == idents_v(body.params@));
                let sig = self.make_sig(&body.params);
                self.record_literal(body.span, sig.dup());
                self.check_func_body(body, &sig);
                Type::Function(sig)
            },
            ExprKind::Field { .. } => self.check_field(expr),
            ExprKind::Index { .. } => self.check_index(expr),
            ExprKind::Call { .. } => self.check_call(expr),
            ExprKind::MethodCall { method, .. } => {
                self.error(
                    "E0417",
                    own("method calls are not yet supported by the type checker"),
                    method.span,
                );
                Type::Error
            },
            ExprKind::Table(fields) => self.check_table(fields, expr.span),
            ExprKind::Unary { .. } => self.check_unary(expr),
            ExprKind::Binary { .. } => self.check_binary(expr),
        }
    }

    fn check_name(&mut self, span: Span) -> (r: Type)
        ensures
            kept(*old(self), *final(self)),
            (final(self)@, r@) == c_name(old(self).env(), old(self)@, span),
    {
        proof {
            reveal(c_name);
        }
        let res = self.res;
        match res.binding(span) {
            None => Type::Error,
            Some(b) => match b {
                Binding::Local(id) => self.symbol_type(*id),
                Binding::Upvalue(id) => self.symbol_type(*id),
                Binding::TopFunction(name) => match self.sig_of(name.as_str()) {
                    Some(f) => Type::Function(f),
                    None => Type::Error,
                },
                Binding::TopConst(name) => match self.const_of(name.as_str()) {
                    Some(t) => t,
                    None => Type::Error,
                },
                Binding::HostFunction(name) => match self.cfg.host_functions.get(name.as_str()) {
                    Some(f) => Type::Function(f.dup()),
                    None => Type::Error,
                },
                Binding::Memory(name) => match self.cfg.memory.get(name.as_str()) {
                    Some(t) => t.dup(),
                    None => Type::Error,
                },
                Binding::Builtin(ns) => {
                    self.error(
                        "E0418",
                        cat3(
                            "`",
                            ns,
                            "` is a builtin namespace and can only be used via a call",
                        ),
                        span,
                    );
                    Type::Error
                },
            },
        }
    }

    /// If `expr` is a name bound to a builtin namespace, return its name.
    fn builtin_namespace(&self, expr: &Expr) -> (r: Option<&'static str>)
        ensures
            match r {
                Some(ns) => namespace_of(self.env(), expr@) == Some(ns@),
                None => namespace_of(self.env(), expr@) is None,
            },
    {
        if let ExprKind::Name(_) = &expr.kind {
            if let Some(Binding::Builtin(ns)) = self.res.binding(expr.span) {
                return Some(*ns);
            }
        }
        None
    }

    fn check_field(&mut self, expr: &Expr) -> (r: Type)
        ensures
            kept(*old(self), *final(self)),
            (final(self)@, r@) == c_field(old(self).env(), old(self)@, expr@),
        decreases expr, 1int,
    {
        proof {
            unfold_c_field(self.env(), self@, expr@);
        }
        if let ExprKind::Field { base, name } = &expr.kind {
            // Builtin namespace value-fields (`math.pi`, `math.huge`).
            if let Some(ns) = self.builtin_namespace(base) {
                return match namespace_field_type(ns, name.node.as_str()) {
                    Some(t) => t,
                    None => {
                        self.error(
                            "E0419",
                            cat5("`", ns, ".", name.node.as_str(), "` must be called"),
                            name.span,
                        );
                        Type::Error
                    },
                };
            }
            let bt = self.check_expr(base);
            match self.shallow(&bt) {
                Type::Record(fields) => match fields.get(name.node.as_str()) {
                    Some(t) => t.dup(),
                    None => {
                        let on = self.text(&bt);
                        self.error(
                            "E0420",
                            cat4("no field `", name.node.as_str(), "` on ", on.as_str()),
                            name.span,
                        );
                        Type::Error
                    },
                },
                Type::MapOf(v) => Type::Optional(v),
                Type::Error => Type::Error,
                Type::Var(_) => Type::Error,
                other => {
                    let found = self.text(&other);
                    self.error(
                        "E0421",
                        cat3("type ", found.as_str(), " has no fields"),
                        name.span,
                    );
                    Type::Error
                },
            }
        } else {
            Type::Error
        }
    }

    fn check_index(&mut self, expr: &Expr) -> (r: Type)
        ensures
            kept(*old(self), *final(self)),
            (final(self)@, r@) == c_index(old(self).env(), old(self)@, expr@),
        decreases expr, 1int,
    {
        proof {
            unfold_c_index(self.env(), self@, expr@);
        }
        if let ExprKind::Index { base, index } = &expr.kind {
            let bt = self.check_expr(base);
            match self.shallow(&bt) {
                Type::Array(e) => {
                    self.require_number(index);
                    Type::Optional(e)
                },
                Type::MapOf(v) => {
                    let it = self.check_expr(index);
                    self.require(
                        index.span,
                        &it,
                        &Type::String,
                        "E0422",
                        "map key must be a string",
                    );
                    Type::Optional(v)
                },
                Type::Record(fields) => {
                    if let ExprKind::Str(key) = &index.kind {
                        match fields.get(key.as_str()) {
                            Some(t) => t.dup(),
                            None => {
                                let on = self.text(&bt);
                                self.error(
                                    "E0420",
                                    cat4("no field `", key.as_str(), "` on ", on.as_str()),
                                    index.span,
                                );
                                Type::Error
                            },
                        }
                    } else {
                        self.error(
                            "E0423",
                            own("a record can only be indexed by a string literal key"),
                            index.span,
                        );
                        Type::Error
                    }
                },
                Type::Error => Type::Error,
                // The base type is still unknown: drive inference from the index. A numeric
                // key implies an array, a string key implies a map.
                Type::Var(_) => {
                    let it = self.check_expr(index);
                    let elem = self.fresh();
                    if matches!(self.shallow(&it), Type::String) {
                        let want = Type::map(elem.dup());
                        self.unify(&bt, &want);
                    } else {
                        self.require(
                            index.span,
                            &it,
                            &Type::Number,
                            "E0401",
                            "expected a number",
                        );
                        let want = Type::array(elem.dup());
                        self.unify(&bt, &want);
                    }
                    Type::optional(elem)
                },
                other => {
                    let found = self.text(&other);
                    self.error(
                        "E0424",
                        cat3("type ", found.as_str(), " cannot be indexed"),
                        base.span,
                    );
                    Type::Error
                },
            }
        } else {
            Type::Error
        }
    }

    fn check_all(&mut self, es: &Vec<Expr>, from: usize)
        requires
            from <= es@.len(),
        ensures
            kept(*old(self), *final(self)),
            final(self)@ == c_all(old(self).env(), old(self)@, exprs_v(es@), from as int),
        decreases es, 0int,
    {
        let ghost env = self.env();
        let ghost ev = exprs_v(es@);
        let mut i: usize = from;
        while i < es.len()
            invariant
                from <= i <= es@.len(),
                ev == exprs_v(es@),
                env == old(self).env(),
                kept(*old(self), *self),
                c_all(env, self@, ev, i as int) == c_all(env, old(self)@, ev, from as int),
            decreases es@.len() - i,
        {
            proof {
                unfold_c_all(env, self@, ev, i as int);
            }
            self.check_expr(&es[i]);
            i += 1;
        }
        proof {
            unfold_c_all(env, self@, ev, i as int);
        }
    }

    fn check_args(&mut self, args: &Vec<Expr>, params: &Vec<Type>)
        ensures
            kept(*old(self), *final(self)),
            final(self)@ == c_args(
                old(self).env(),
                old(self)@,
                exprs_v(args@),
                types_v(params@),
                0,
            ),
        decreases args, 0int,
    {
        let ghost env = self.env();
        let ghost av = exprs_v(args@);
        let ghost ps = types_v(params@);
        let mut i: usize = 0;
        while i < args.len()
            invariant
                i <= args@.len(),
                av == exprs_v(args@),
                ps == types_v(params@),
                env == old(self).env(),
                kept(*old(self), *self),
                c_args(env, self@, av, ps, i as int) == c_args(env, old(self)@, av, ps, 0),
            decreases args@.len() - i,
        {
            proof {
                unfold_c_args(env, self@, av, ps, i as int);
            }
            let t = self.check_expr(&args[i]);
            if i < params.len() {
                self.require_assignable(args[i].span, &t, &params[i], "argument type mismatch");
            }
            i += 1;
        }
        proof {
            unfold_c_args(env, self@, av, ps, i as int);
        }
    }

    fn check_call(&mut self, expr: &Expr) -> (r: Type)
        ensures
            kept(*old(self), *final(self)),
            (final(self)@, r@) == c_call(old(self).env(), old(self)@, expr@),
        decreases expr, 1int,
    {
        proof {
            unfold_c_call(self.env(), self@, expr@);
        }
        if let ExprKind::Call { callee, args } = &expr.kind {
            assert(expr@.kind == (ExprKindV::Call {
                callee: Box::new(callee@),
                args: exprs_v(args@),
            }));
            assert(callee@.span == callee.span && callee@.kind == callee.kind@);
            let res = self.res;
            // Plain builtins (`tostring`, `tonumber`).
            if let Some(Binding::Builtin(ns)) = res.binding(callee.span) {
                return self.check_builtin_value_call(ns, args, expr.span);
            }
            // Namespace member calls (`math.floor(...)`, `string.sub(...)`).
            if let ExprKind::Field { base, name } = &callee.kind {
                if let Some(ns) = self.builtin_namespace(base) {
                    return self.check_builtin_member_call(ns, name, args, expr.span);
                }
            }
            self.check_plain_call(expr)
        } else {
            Type::Error
        }
    }

    fn check_plain_call(&mut self, expr: &Expr) -> (r: Type)
        ensures
            kept(*old(self), *final(self)),
            (final(self)@, r@) == c_plain_call(old(self).env(), old(self)@, expr@),
        decreases expr, 0int,
    {
        proof {
            unfold_c_plain_call(self.env(), self@, expr@);
        }
        if let ExprKind::Call { callee, args } = &expr.kind {
            let ct = self.check_expr(callee);
            match self.shallow(&ct) {
                Type::Function(ft) => {
                    assert(ft@ == (FnTypeV {
                        params: types_v(ft.params@),
                        ret: Box::new(ft.ret@),
                    }));
                    if args.len() != ft.params.len() {
                        let want = dec_string(ft.params.len() as u64);
                        let got = dec_string(args.len() as u64);
                        self.error(
                            "E0430",
                            cat5(
                                "this function takes ",
                                want.as_str(),
                                " argument(s) but ",
                                got.as_str(),
                                " were supplied",
                            ),
                            expr.span,
                        );
                    }
                    self.check_args(args, &ft.params);
                    *ft.ret
                },
                Type::Error => {
                    self.check_all(args, 0);
                    Type::Error
                },
                Type::Var(_) => {
                    self.check_all(args, 0);
                    Type::Error
                },
                other => {
                    let found = self.text(&other);
                    self.error(
                        "E0431",
                        cat3("type ", found.as_str(), " is not callable"),
                        callee.span,
                    );
                    self.check_all(args, 0);
                    Type::Error
                },
            }
        } else {
            Type::Error
        }
    }

    fn check_table(&mut self, fields: &Vec<Field>, span: Span) -> (r: Type)
        ensures
            kept(*old(self), *final(self)),
            (final(self)@, r@) == c_table(old(self).env(), old(self)@, fields_v(fields@), span),
        decreases fields, 1int,
    {
        proof {
            unfold_c_table(self.env(), self@, fields_v(fields@), span);
        }
        if fields.len() == 0 {
            // Ambiguous shape; assume an array of a fresh element type.
            return Type::array(self.fresh());
        }
        let shape = table_shape(fields);
        if shape.0 {
            let elem = self.fresh();
            self.check_elements(fields, &elem);
            Type::array(elem)
        } else if shape.1 {
            Type::Record(self.check_record(fields))
        } else if shape.2 {
            let val = self.fresh();
            self.check_entries(fields, &val);
            Type::map(val)
        } else {
            self.error(
                "E0443",
                own(
                    "a table must be all positional (array), all `name =` (record), or all `[key] =` (map) — these forms cannot be mixed",
                ),
                span,
            );
            Type::Error
        }
    }

    fn check_elements(&mut self, fields: &Vec<Field>, elem: &Type)
        requires
            all_positional(fields_v(fields@)),
        ensures
            kept(*old(self), *final(self)),
            final(self)@ == c_elements(
                old(self).env(),
                old(self)@,
                fields_v(fields@),
                elem@,
                0,
            ),
        decreases fields, 0int,
    {
        let ghost env = self.env();
        let ghost fs = fields_v(fields@);
        let mut i: usize = 0;
        while i < fields.len()
            invariant
                i <= fields@.len(),
                fs == fields_v(fields@),
                all_positional(fs),
                env == old(self).env(),
                kept(*old(self), *self),
                c_elements(env, self@, fs, elem@, i as int) == c_elements(
                    env,
                    old(self)@,
                    fs,
                    elem@,
                    0,
                ),
            decreases fields@.len() - i,
        {
            proof {
                unfold_c_elements(env, self@, fs, elem@, i as int);
                assert(fs[i as int] is Positional);
            }
            if let Field::Positional(e) = &fields[i] {
                let t = self.check_expr(e);
                self.require(e.span, &t, elem, "E0440", "array elements must share one type");
            }
            i += 1;
        }
        proof {
            unfold_c_elements(env, self@, fs, elem@, i as int);
        }
    }

    fn check_record(&mut self, fields: &Vec<Field>) -> (r: Fields)
        requires
            all_named(fields_v(fields@)),
        ensures
            kept(*old(self), *final(self)),
            (final(self)@, r@) == c_record(
                old(self).env(),
                old(self)@,
                fields_v(fields@),
                0,
                Seq::empty(),
            ),
        decreases fields, 0int,
    {
        let ghost env = self.env();
        let ghost fs = fields_v(fields@);
        let mut rec = Fields::new();
        let mut i: usize = 0;
        while i < fields.len()
            invariant
                i <= fields@.len(),
                fs == fields_v(fields@),
                all_named(fs),
                env == old(self).env(),
                kept(*old(self), *self),
                c_record(env, self@, fs, i as int, rec@) == c_record(
                    env,
                    old(self)@,
                    fs,
                    0,
                    Seq::empty(),
                ),
            decreases fields@.len() - i,
        {
            proof {
                unfold_c_record(env, self@, fs, i as int, rec@);
                assert(fs[i as int] is Named);
            }
            if let Field::Named { name, value } = &fields[i] {
                let t = self.check_expr(value);
                let t = self.deep(&t);
                rec.insert(name.node.clone(), t);
            }
            i += 1;
        }
        proof {
            unfold_c_record(env, self@, fs, i as int, rec@);
        }
        rec
    }

    fn check_entries(&mut self, fields: &Vec<Field>, val: &Type)
        requires
            all_keyed(fields_v(fields@)),
        ensures
            kept(*old(self), *final(self)),
            final(self)@ == c_entries(
                old(self).env(),
                old(self)@,
                fields_v(fields@),
                val@,
                0,
            ),
        decreases fields, 0int,
    {
        let ghost env = self.env();
        let ghost fs = fields_v(fields@);
        let mut i: usize = 0;
        while i < fields.len()
            invariant
                i <= fields@.len(),
                fs == fields_v(fields@),
                all_keyed(fs),
                env == old(self).env(),
                kept(*old(self), *self),
                c_entries(env, self@, fs, val@, i as int) == c_entries(
                    env,
                    old(self)@,
                    fs,
                    val@,
                    0,
                ),
            decreases fields@.len() - i,
        {
            proof {
                unfold_c_entries(env, self@, fs, val@, i as int);
                assert(fs[i as int] is Keyed);
            }
            if let Field::Keyed { key, value } = &fields[i] {
                let kt = self.check_expr(key);
                self.require(key.span, &kt, &Type::String, "E0441", "map keys must be strings");
                let vt = self.check_expr(value);
                self.require(value.span, &vt, val, "E0442", "map values must share one type");
            }
            i += 1;
        }
        proof {
            unfold_c_entries(env, self@, fs, val@, i as int);
        }
    }

    fn check_unary(&mut self, expr: &Expr) -> (r: Type)
        ensures
            kept(*old(self), *final(self)),
            (final(self)@, r@) == c_unary(old(self).env(), old(self)@, expr@),
        decreases expr, 1int,
    {
        proof {
            unfold_c_unary(self.env(), self@, expr@);
        }
        if let ExprKind::Unary { op, operand } = &expr.kind {
            match op {
                UnOp::Neg => {
                    self.require_number(operand);
                    Type::Number
                },
                UnOp::Not => {
                    let t = self.check_expr(operand);
                    self.require(
                        operand.span,
                        &t,
                        &Type::Bool,
                        "E0450",
                        "`not` requires a bool",
                    );
                    Type::Bool
                },
                UnOp::Len => {
                    let t = self.check_expr(operand);
                    let u = self.shallow(&t);
                    if !matches!(u, Type::String | Type::Array(_) | Type::Error | Type::Var(_)) {
                        let found = self.text(&u);
                        self.error(
                            "E0451",
                            cat2("`#` requires a string or array, found ", found.as_str()),
                            expr.span,
                        );
                    }
                    Type::Number
                },
            }
        } else {
            Type::Error
        }
    }

    fn check_binary(&mut self, expr: &Expr) -> (r: Type)
        ensures
            kept(*old(self), *final(self)),
            (final(self)@, r@) == c_binary(old(self).env(), old(self)@, expr@),
        decreases expr, 1int,
    {
        proof {
            unfold_c_binary(self.env(), self@, expr@);
        }
        if let ExprKind::Binary { op, lhs, rhs } = &expr.kind {
            match op {
                BinOp::Add | BinOp::Sub | BinOp::Mul | BinOp::Div | BinOp::FloorDiv | BinOp::Mod
                | BinOp::Pow => {
                    self.require_number(lhs);
                    self.require_number(rhs);
                    Type::Number
                },
                _ => {
                    let lt = self.check_expr(lhs);
                    let rt = self.check_expr(rhs);
                    self.check_operands(*op, &lt, lhs.span, &rt, rhs.span, expr.span)
                },
            }
        } else {
            Type::Error
        }
    }

    fn check_operands(
        &mut self,
        op: BinOp,
        lt: &Type,
        lspan: Span,
        rt: &Type,
        rspan: Span,
        span: Span,
    ) -> (r: Type)
        ensures
            kept(*old(self), *final(self)),
            (final(self)@, r@) == c_operands(old(self)@, op, lt@, lspan, rt@, rspan, span),
    {
        proof {
            reveal(c_operands);
        }
        match op {
            BinOp::Concat => {
                self.require(lspan, lt, &Type::String, "E0452", "`..` requires strings");
                self.require(rspan, rt, &Type::String, "E0452", "`..` requires strings");
                Type::String
            },
            BinOp::Eq | BinOp::Ne => {
                // `x == nil` / `x ~= nil` is the narrowing idiom: `nil` may be compared with
                // any value.
                let l_nil = matches!(self.shallow(lt), Type::Nil);
                let r_nil = matches!(self.shallow(rt), Type::Nil);
                if !l_nil && !r_nil && !self.unify(lt, rt) {
                    let l = self.text(lt);
                    let r = self.text(rt);
                    self.error(
                        "E0454",
                        cat5(
                            "cannot compare ",
                            l.as_str(),
                            " with ",
                            r.as_str(),
                            " — equality requires matching types",
                        ),
                        span,
                    );
                }
                Type::Bool
            },
            BinOp::And | BinOp::Or => {
                if !self.unify(lt, rt) {
                    let l = self.text(lt);
                    let r = self.text(rt);
                    let mut msg = cat5(
                        "`",
                        op.symbol(),
                        "` requires both operands to have the same type, found ",
                        l.as_str(),
                        " and ",
                    );
                    msg.append(r.as_str());
                    self.error("E0455", msg, span);
                }
                self.deep(lt)
            },
            _ => {
                // Numeric by default; allow string-vs-string comparisons.
                let l_str = matches!(self.shallow(lt), Type::String);
                let r_str = matches!(self.shallow(rt), Type::String);
                let want = if l_str || r_str { Type::String } else { Type::Number };
                self.require(lspan, lt, &want, "E0453", "comparison operand type mismatch");
                self.require(rspan, rt, &want, "E0453", "comparison operand type mismatch");
                Type::Bool
            },
        }
    }

    fn expect_one(&mut self, name: &str, got: usize, span: Span)
        ensures
            kept(*old(self), *final(self)),
            final(self)@ == arity_error(old(self)@, name@, 1, got as nat, span),
    {
        if got != 1 {
            let want = dec_string(1);
            let have = dec_string(got as u64);
            let mut msg = cat5("`", name, "` takes ", want.as_str(), " argument(s) but ");
            msg.append(have.as_str());
            msg.append(" were supplied");
            self.error("E0430", msg, span);
        }
    }

    fn check_builtin_value_call(&mut self, ns: &str, args: &Vec<Expr>, span: Span) -> (r: Type)
        ensures
            kept(*old(self), *final(self)),
            (final(self)@, r@) == c_value_builtin(
                old(self).env(),
                old(self)@,
                ns@,
                exprs_v(args@),
                span,
            ),
        decreases args, 1int,
    {
        proof {
            unfold_c_value_builtin(self.env(), self@, ns@, exprs_v(args@), span);
        }
        if same(ns, "tostring") {
            self.expect_one(ns, args.len(), span);
            if args.len() > 0 {
                let t = self.check_expr(&args[0]);
                let u = self.shallow(&t);
                if !matches!(u, Type::Number | Type::Bool | Type::String | Type::Error | Type::Var(_)) {
                    let found = self.text(&u);
                    self.error(
                        "E0460",
                        cat2(
                            "`tostring` accepts a number, bool, or string, found ",
                            found.as_str(),
                        ),
                        args[0].span,
                    );
                }
            }
            Type::String
        } else if same(ns, "tonumber") {
            self.expect_one(ns, args.len(), span);
            if args.len() > 0 {
                let t = self.check_expr(&args[0]);
                self.require(
                    args[0].span,
                    &t,
                    &Type::String,
                    "E0461",
                    "`tonumber` requires a string",
                );
            }
            Type::optional(Type::Number)
        } else {
            Type::Error
        }
    }

    fn check_builtin_member_call(
        &mut self,
        ns: &str,
        name: &Ident,
        args: &Vec<Expr>,
        span: Span,
    ) -> (r: Type)
        ensures
            kept(*old(self), *final(self)),
            (final(self)@, r@) == c_member_builtin(
                old(self).env(),
                old(self)@,
                ns@,
                name@,
                exprs_v(args@),
                span,
            ),
        decreases args, 1int,
    {
        proof {
            unfold_c_member_builtin(self.env(), self@, ns@, name@, exprs_v(args@), span);
        }
        match member_sig(ns, name.node.as_str()) {
            None => {
                self.error(
                    "E0462",
                    cat5("`", ns, "` has no builtin member `", name.node.as_str(), "`"),
                    name.span,
                );
                self.check_all(args, 0);
                Type::Error
            },
            Some(sig) => match sig.rule {
                ArgRule::FormatVariadic => {
                    // format(fmt: string, ...any) -> string.
                    if args.len() == 0 {
                        self.error(
                            "E0463",
                            own("`string.format` requires at least a format string"),
                            span,
                        );
                    } else {
                        let ft = self.check_expr(&args[0]);
                        self.require(
                            args[0].span,
                            &ft,
                            &Type::String,
                            "E0463",
                            "format string must be a string",
                        );
                        self.check_all(args, 1);
                    }
                    sig.ret
                },
                _ => {
                    if args.len() != sig.params.len() {
                        let want = dec_string(sig.params.len() as u64);
                        let got = dec_string(args.len() as u64);
                        let mut msg = cat5("`", ns, ".", name.node.as_str(), "` takes ");
                        msg.append(want.as_str());
                        msg.append(" argument(s) but ");
                        msg.append(got.as_str());
                        msg.append(" were supplied");
                        self.error("E0430", msg, span);
                    }
                    self.check_args(args, &sig.params);
                    sig.ret
                },
            },
        }
    }

    /// The type of an assignable place (used as the write target type).
    fn place_type(&mut self, target: &Expr) -> (r: Type)
        ensures
            kept(*old(self), *final(self)),
            (final(self)@, r@) == c_place(old(self).env(), old(self)@, target@),
        decreases target, 3int,
    {
        proof {
            unfold_c_place(self.env(), self@, target@);
        }
        match &target.kind {
            ExprKind::Name(_) => self.check_name(target.span),
            ExprKind::Field { base, name } => {
                let bt = self.check_expr(base);
                match self.shallow(&bt) {
                    Type::Record(fields) => match fields.get(name.node.as_str()) {
                        Some(t) => t.dup(),
                        None => {
                            let on = self.text(&bt);
                            self.error(
                                "E0420",
                                cat5(
                                    "no field `",
                                    name.node.as_str(),
                                    "` on ",
                                    on.as_str(),
                                    " (fields cannot be added)",
                                ),
                                name.span,
                            );
                            Type::Error
                        },
                    },
                    Type::MapOf(v) => *v,
                    Type::Error => Type::Error,
                    Type::Var(_) => Type::Error,
                    other => {
                        let found = self.text(&other);
                        self.error(
                            "E0421",
                            cat3("type ", found.as_str(), " has no fields"),
                            name.span,
                        );
                        Type::Error
                    },
                }
            },
            ExprKind::Index { base, index } => {
                let bt = self.check_expr(base);
                match self.shallow(&bt) {
                    Type::Array(e) => {
                        self.require_number(index);
                        *e
                    },
                    Type::MapOf(v) => {
                        let it = self.check_expr(index);
                        self.require(
                            index.span,
                            &it,
                            &Type::String,
                            "E0422",
                            "map key must be a string",
                        );
                        *v
                    },
                    Type::Error => Type::Error,
                    Type::Var(_) => Type::Error,
                    other => {
                        let found = self.text(&other);
                        self.error(
                            "E0424",
                            cat3("type ", found.as_str(), " cannot be indexed"),
                            base.span,
                        );
                        Type::Error
                    },
                }
            },
            _ => self.check_expr(target),
        }
    }

    /// Extract a narrowing fact from an `if` condition: `name ~= nil` or `nil ~= name`
    /// refines `name`. Returns the symbol and its narrowed (non-optional) type.
    fn narrowing_from(&self, cond: &Expr) -> (r: Option<(SymbolId, Type)>)
        ensures
            match r {
                Some((id, t)) => narrowing_of(self.env(), self@, cond@) == Some((id, t@)),
                None => narrowing_of(self.env(), self@, cond@) is None,
            },
    {
        proof {
            reveal(narrowing_of);
        }
        if let ExprKind::Binary { op: BinOp::Ne, lhs, rhs } = &cond.kind {
            assert(lhs@.span == lhs.span && rhs@.span == rhs.span);
            assert(lhs@.kind == lhs.kind@ && rhs@.kind == rhs.kind@);
            let l_name = matches!(lhs.kind, ExprKind::Name(_));
            let r_name = matches!(rhs.kind, ExprKind::Name(_));
            let l_nil = matches!(lhs.kind, ExprKind::Nil);
            let r_nil = matches!(rhs.kind, ExprKind::Nil);
            let span = if l_name && r_nil {
                lhs.span
            } else if l_nil && r_name {
                rhs.span
            } else {
                return None;
            };
            let id: SymbolId = match self.res.binding(span) {
                Some(Binding::Local(id)) => *id,
                Some(Binding::Upvalue(id)) => *id,
                _ => {
                    return None;
                },
            };
            match self.plain_type(id) {
                Some(Type::Optional(inner)) => Some((id, *inner)),
                _ => None,
            }
        } else {
            None
        }
    }

    /// The type of a symbol, without refinement, its variable links followed.
    fn plain_type(&self, id: SymbolId) -> (r: Option<Type>)
        ensures
            match r {
                Some(t) => id < self@.sym_types.len() && t@ == shallow(
                    self@.subst,
                    self@.sym_types[id as int],
                ),
                None => id >= self@.sym_types.len(),
            },
    {
        proof {
            reveal(Checker::view);
        }
        let i: usize = id as usize;
        if i < self.sym_types.len() {
            Some(self.u.shallow(&self.sym_types[i]))
        } else {
            None
        }
    }

    fn check_condition(&mut self, cond: &Expr)
        ensures
            kept(*old(self), *final(self)),
            final(self)@ == c_condition(old(self).env(), old(self)@, cond@),
        decreases cond, 3int,
    {
        proof {
            unfold_c_condition(self.env(), self@, cond@);
        }
        let t = self.check_expr(cond);
        self.require(cond.span, &t, &Type::Bool, "E0400", "condition must be a bool");
    }

    fn require_number(&mut self, expr: &Expr)
        ensures
            kept(*old(self), *final(self)),
            final(self)@ == c_number(old(self).env(), old(self)@, expr@),
        decreases expr, 3int,
    {
        proof {
            unfold_c_number(self.env(), self@, expr@);
        }
        let t = self.check_expr(expr);
        self.require(expr.span, &t, &Type::Number, "E0401", "expected a number");
    }

    fn deep_symbols(&self) -> (r: Vec<Type>)
        ensures
            types_v(r@) == Seq::new(
                self@.sym_types.len(),
                |i: int| deep(self@.subst, self@.sym_types[i]),
            ),
    {
        proof {
            reveal(Checker::view);
        }
        let ghost s = self@.subst;
        let ghost src = self@.sym_types;
        let mut out: Vec<Type> = Vec::new();
        let mut i: usize = 0;
        while i < self.sym_types.len()
            invariant
                s == self.u@,
                src == types_v(self.sym_types@),
                i <= src.len(),
                types_v(out@).len() == i,
                forall|k: int| 0 <= k < i ==> (#[trigger] types_v(out@)[k]) == deep(s, src[k]),
            decreases src.len() - i,
        {
            let ghost before = out@;
            let t = self.u.deep(&self.sym_types[i]);
            out.push(t);
            assert(types_v(out@) =~= types_v(before).push(t@));
            i += 1;
        }
        assert(types_v(out@) =~= Seq::new(src.len(), |i: int| deep(s, src[i])));
        out
    }

    fn deep_signature(&self, f: &FnType) -> (r: FnType)
        ensures
            r@ == deep_fn(self@.subst, f@),
    {
        proof {
            reveal(Checker::view);
            unfold_deep_n(self.u@, TypeV::Function(f@), self.u@.len());
        }
        let whole = Type::Function(f.dup());
        match self.u.deep(&whole) {
            Type::Function(ft) => ft,
            _ => f.dup(),
        }
    }

    fn deep_functions(&self) -> (r: NameMap<FnType>)
        ensures
            r@ == Seq::new(
                self@.func_sigs.len(),
                |i: int| (self@.func_sigs[i].0, deep_fn(self@.subst, self@.func_sigs[i].1)),
            ),
    {
        let ghost s = self@.subst;
        let ghost src = self@.func_sigs;
        proof {
            reveal(Checker::view);
        }
        let mut out: NameMap<FnType> = NameMap::new();
        let mut i: usize = 0;
        while i < self.func_sigs.len()
            invariant
                s == self@.subst,
                src == self.func_sigs@,
                i <= src.len(),
                out@.len() == i,
                forall|k: int|
                    0 <= k < i ==> (#[trigger] out@[k]) == (src[k].0, deep_fn(s, src[k].1)),
            decreases src.len() - i,
        {
            let f = self.deep_signature(self.func_sigs.value(i));
            assert(keys_of(out@.push((src[i as int].0, f@))) =~= keys_of(src).take(i + 1));
            out.push(self.func_sigs.key(i).clone(), f);
            i += 1;
        }
        assert(out@ =~= Seq::new(src.len(), |i: int| (src[i].0, deep_fn(s, src[i].1))));
        out
    }

    fn deep_constants(&self) -> (r: NameMap<Type>)
        ensures
            r@ == Seq::new(
                self@.const_types.len(),
                |i: int| (self@.const_types[i].0, deep(self@.subst, self@.const_types[i].1)),
            ),
    {
        let ghost s = self@.subst;
        let ghost src = self@.const_types;
        proof {
            reveal(Checker::view);
        }
        let mut out: NameMap<Type> = NameMap::new();
        let mut i: usize = 0;
        while i < self.const_types.len()
            invariant
                s == self@.subst,
                src == self.const_types@,
                i <= src.len(),
                out@.len() == i,
                forall|k: int|
                    0 <= k < i ==> (#[trigger] out@[k]) == (src[k].0, deep(s, src[k].1)),
            decreases src.len() - i,
        {
            let t = self.deep(self.const_types.value(i));
            assert(keys_of(out@.push((src[i as int].0, t@))) =~= keys_of(src).take(i + 1));
            out.push(self.const_types.key(i).clone(), t);
            i += 1;
        }
        assert(out@ =~= Seq::new(src.len(), |i: int| (src[i].0, deep(s, src[i].1))));
        out
    }

    fn deep_literals(&self) -> (r: SpanMap<FnType>)
        ensures
            r@ == self@.literals.map_values(|f: FnTypeV| deep_fn(self@.subst, f)),
    {
        let ghost s = self@.subst;
        let ghost src = self@.literals;
        proof {
            reveal(Checker::view);
        }
        let mut out: SpanMap<FnType> = SpanMap::new();
        let n: usize = self.literals.len();
        let ghost keys = self.literals.keys();
        let mut i: usize = 0;
        while i < n
            invariant
                s == self@.subst,
                src == self.literals@,
                keys == self.literals.keys(),
                n == keys.len(),
                i <= n,
                forall|x: Span| #[trigger]
                    out@.dom().contains(x) <==> exists|k: int| 0 <= k < i && keys[k] == x,
                forall|x: Span| #[trigger]
                    out@.dom().contains(x) ==> out@[x] == deep_fn(s, src[x]),
            decreases n - i,
        {
            let ghost o0 = out@;
            if let Some((span, f)) = self.literals.entry(i) {
                let d = self.deep_signature(f);
                out.insert(span, d);
                assert forall|x: Span| #[trigger] out@.dom().contains(x) <==> exists|k: int|
                    0 <= k < i + 1 && keys[k] == x by {
                    if x == span {
                        assert(keys[i as int] == x);
                    } else if out@.dom().contains(x) {
                        assert(o0.dom().contains(x));
                        let k = choose|k: int| 0 <= k < i && keys[k] == x;
                        assert(keys[k] == x);
                    } else if exists|k: int| 0 <= k < i + 1 && keys[k] == x {
                        let k = choose|k: int| 0 <= k < i + 1 && keys[k] == x;
                        assert(k < i);
                        assert(o0.dom().contains(x));
                    }
                }
            }
            i += 1;
        }
        assert(out@ =~= src.map_values(|f: FnTypeV| deep_fn(s, f))) by {
            assert forall|x: Span| src.dom().contains(x) implies #[trigger] out@.dom().contains(x) by {
                assert(keys.contains(x));
            }
            assert forall|x: Span| #[trigger] out@.dom().contains(x) implies src.dom().contains(x) by {
                let k = choose|k: int| 0 <= k < n && keys[k] == x;
                assert(keys.contains(x));
            }
        }
        out
    }
}

/// Whether the fields are all positional, all named, or all keyed.
pub fn table_shape(fields: &Vec<Field>) -> (r: (bool, bool, bool))
    ensures
        r.0 == all_positional(fields_v(fields@)),
        r.1 == all_named(fields_v(fields@)),
        r.2 == all_keyed(fields_v(fields@)),
{
    let ghost fs = fields_v(fields@);
    let mut pos: bool = true;
    let mut named: bool = true;
    let mut keyed: bool = true;
    let mut i: usize = 0;
    while i < fields.len()
        invariant
            fs == fields_v(fields@),
            i <= fs.len(),
            pos == (forall|k: int| 0 <= k < i ==> (#[trigger] fs[k]) is Positional),
            named == (forall|k: int| 0 <= k < i ==> (#[trigger] fs[k]) is Named),
            keyed == (forall|k: int| 0 <= k < i ==> (#[trigger] fs[k]) is Keyed),
        decreases fs.len() - i,
    {
        assert(fs[i as int] == fields@[i as int]@);
        match &fields[i] {
            Field::Positional(_) => {
                named = false;
                keyed = false;
            },
            Field::Named { .. } => {
                pos = false;
                keyed = false;
            },
            Field::Keyed { .. } => {
                pos = false;
                named = false;
            },
        }
        i += 1;
    }
    (pos, named, keyed)
}

} // verus!
