//! Names are bound as they are used: every use of a name in a resolved module has a binding, and
//! a binding is that of a name that is used there.

use vstd::prelude::*;

use crate::ast::{
    BlockV, ExprKindV, ExprV, FieldV, FuncBodyV, IdentV, IterExprV, ModuleV, StatKindV, StatV,
    TopDeclV,
};
use crate::diagnostics::{any_error, Severity, Span};
use crate::resolve::{
    depths, find_in_blocks, find_in_funcs, find_name, in_block, lookup_of, r_arms, r_block, r_const,
    r_const_fields, r_declare, r_decls, r_expr, r_exprs, r_field, r_fields, r_frozen, r_func,
    r_loop, r_module, r_name, r_registers, r_stat, r_stat_list, r_stats, r_target, r_targets,
    resolve_of, start_state, unfold_r_arms, unfold_r_block, unfold_r_const, unfold_r_const_fields,
    unfold_r_declare, unfold_r_decls, unfold_r_expr, unfold_r_exprs, unfold_r_field,
    unfold_r_fields, unfold_r_func, unfold_r_loop, unfold_r_registers, unfold_r_stat,
    unfold_r_stat_list, unfold_r_stats, unfold_r_target, unfold_r_targets, BindingV, NamesV,
    ResolveConfigV, State, SymbolInfoV, SymbolKind,
};

verus! {

/// A use of a name: where it stands, the name, and in how many functions.
pub ghost struct Use {
    pub span: Span,
    pub name: Seq<char>,
    pub depth: int,
}

/// The uses of names in an expression that stands in `d` functions.
pub open spec fn u_expr(e: ExprV, d: int) -> Set<Use>
    decreases e, 0int,
{
    match e.kind {
        ExprKindV::Nil | ExprKindV::Bool(_) | ExprKindV::Number(_) | ExprKindV::Str(_) => Set::empty(),
        ExprKindV::Name(n) => Set::empty().insert(Use { span: e.span, name: n, depth: d }),
        ExprKindV::Index { base, index } => u_expr(*base, d).union(u_expr(*index, d)),
        ExprKindV::Field { base, name } => u_expr(*base, d),
        ExprKindV::Call { callee, args } => u_expr(*callee, d).union(u_exprs(args, 0, d)),
        ExprKindV::MethodCall { receiver, method, args } => u_expr(*receiver, d).union(
            u_exprs(args, 0, d),
        ),
        ExprKindV::Table(fields) => u_fields(fields, 0, d),
        ExprKindV::Binary { op, lhs, rhs } => u_expr(*lhs, d).union(u_expr(*rhs, d)),
        ExprKindV::Unary { op, operand } => u_expr(*operand, d),
        ExprKindV::Paren(inner) => u_expr(*inner, d),
        ExprKindV::Function(body) => u_func(body, d),
    }
}

/// The uses in the expressions from `i` on.
pub open spec fn u_exprs(es: Seq<ExprV>, i: int, d: int) -> Set<Use>
    decreases es, es.len() - i,
{
    if i < 0 || i >= es.len() {
        Set::empty()
    } else {
        u_expr(es[i], d).union(u_exprs(es, i + 1, d))
    }
}

/// The uses in a table field.
pub open spec fn u_field(f: FieldV, d: int) -> Set<Use>
    decreases f, 0int,
{
    match f {
        FieldV::Positional(e) => u_expr(e, d),
        FieldV::Named { name, value } => u_expr(value, d),
        FieldV::Keyed { key, value } => u_expr(key, d).union(u_expr(value, d)),
    }
}

/// The uses in the table fields from `i` on.
pub open spec fn u_fields(fs: Seq<FieldV>, i: int, d: int) -> Set<Use>
    decreases fs, fs.len() - i,
{
    if i < 0 || i >= fs.len() {
        Set::empty()
    } else {
        u_field(fs[i], d).union(u_fields(fs, i + 1, d))
    }
}

/// The uses in a function that stands in `d` others.
pub open spec fn u_func(body: FuncBodyV, d: int) -> Set<Use>
    decreases body, 0int,
{
    u_block(body.block, d + 1)
}

/// The uses in a block.
pub open spec fn u_block(b: BlockV, d: int) -> Set<Use>
    decreases b, 0int,
{
    match b.ret {
        Some(r) => u_stats(b.stats, 0, d).union(u_exprs(r.exprs, 0, d)),
        None => u_stats(b.stats, 0, d),
    }
}

/// The uses in the statements from `i` on.
pub open spec fn u_stats(ss: Seq<StatV>, i: int, d: int) -> Set<Use>
    decreases ss, ss.len() - i,
{
    if i < 0 || i >= ss.len() {
        Set::empty()
    } else {
        u_stat(ss[i], d).union(u_stats(ss, i + 1, d))
    }
}

/// The uses in the arms of a conditional from `i` on.
pub open spec fn u_arms(arms: Seq<(ExprV, BlockV)>, i: int, d: int) -> Set<Use>
    decreases arms, arms.len() - i,
{
    if i < 0 || i >= arms.len() {
        Set::empty()
    } else {
        u_expr(arms[i].0, d).union(u_block(arms[i].1, d)).union(u_arms(arms, i + 1, d))
    }
}

/// The uses in a statement.
pub open spec fn u_stat(s: StatV, d: int) -> Set<Use>
    decreases s, 0int,
{
    match s.kind {
        StatKindV::Empty | StatKindV::Break => Set::empty(),
        StatKindV::Local { names, exprs } => u_exprs(exprs, 0, d),
        StatKindV::LocalFunction { name, body } => u_func(body, d),
        StatKindV::Assign { targets, exprs } => u_exprs(exprs, 0, d).union(u_exprs(targets, 0, d)),
        StatKindV::Call(e) => u_expr(e, d),
        StatKindV::Do(b) => u_block(b, d),
        StatKindV::While { cond, body } => u_expr(cond, d).union(u_block(body, d)),
        StatKindV::If { arms, else_block } => match else_block {
            Some(b) => u_arms(arms, 0, d).union(u_block(b, d)),
            None => u_arms(arms, 0, d),
        },
        StatKindV::NumericFor { var, start, end, step, body } => match step {
            Some(x) => u_expr(start, d).union(u_expr(end, d)).union(u_expr(x, d)).union(
                u_block(body, d),
            ),
            None => u_expr(start, d).union(u_expr(end, d)).union(u_block(body, d)),
        },
        StatKindV::GenericFor { names, iter, body } => match iter {
            IterExprV::IPairs { arg, span } => u_expr(arg, d).union(u_block(body, d)),
            IterExprV::Pairs { arg, span } => u_expr(arg, d).union(u_block(body, d)),
        },
    }
}

/// The uses in the declarations from `i` on.
pub open spec fn u_decls(ds: Seq<TopDeclV>, i: int) -> Set<Use>
    decreases ds.len() - i,
{
    if i < 0 || i >= ds.len() {
        Set::empty()
    } else {
        match ds[i] {
            TopDeclV::Const(c) => u_decls(ds, i + 1),
            TopDeclV::Function(f) => u_func(f.body, 0).union(u_decls(ds, i + 1)),
        }
    }
}

/// The uses of names in a module: in its function bodies and its export table.
pub open spec fn uses_in(m: ModuleV) -> Set<Use> {
    match m.export {
        Some(e) => u_decls(m.decls, 0).union(u_fields(e.node, 0, 0)),
        None => u_decls(m.decls, 0),
    }
}

/// Whether a binding is right for a use: a local variable has the name and belongs to the
/// function that the use stands in, a captured one to an enclosing function, and everything else
/// bears the name.
pub open spec fn fits_use(b: BindingV, u: Use, symbols: Seq<SymbolInfoV>) -> bool {
    match b {
        BindingV::Local(id) => id < symbols.len() && symbols[id as int].name == u.name
            && symbols[id as int].func_depth == u.depth - 1,
        BindingV::Upvalue(id) => id < symbols.len() && symbols[id as int].name == u.name
            && symbols[id as int].func_depth < u.depth - 1,
        BindingV::TopFunction(n) => n == u.name,
        BindingV::TopConst(n) => n == u.name,
        BindingV::Builtin(n) => n == u.name,
        BindingV::HostFunction(n) => n == u.name,
        BindingV::Memory(n) => n == u.name,
    }
}

// ---- what the walk keeps ----------------------------------------------------------

/// Whether every name in scope stands for a symbol of that name in that function.
spec fn names_ok(st: State) -> bool {
    forall|k: int, j: int, i: int|
        #![trigger st.funcs[k][j][i]]
        0 <= k < st.funcs.len() && 0 <= j < st.funcs[k].len() && 0 <= i < st.funcs[k][j].len() ==> {
            let (n, id) = st.funcs[k][j][i];
            &&& id < st.symbols.len()
            &&& st.symbols[id as int].name == n
            &&& st.symbols[id as int].func_depth == k
        }
}

/// Whether `b` has the symbols of `a` first.
spec fn more_symbols(a: State, b: State) -> bool {
    &&& a.symbols.len() <= b.symbols.len()
    &&& forall|i: int| 0 <= i < a.symbols.len() ==> b.symbols[i] == #[trigger] a.symbols[i]
}

/// Whether the binding at `s` in `b` was there in `a`, or is right for one of the uses `us`.
spec fn accounted(a: State, b: State, us: Set<Use>, s: Span) -> bool {
    ||| a.bindings.dom().contains(s) && b.bindings[s] == a.bindings[s]
    ||| exists|u: Use| us.contains(u) && u.span == s && #[trigger] fits_use(
        b.bindings[s],
        u,
        b.symbols,
    )
}

/// What a part of the walk from `a` to `b` does that meets the uses `us`.
#[verifier::opaque]
spec fn walked(a: State, b: State, us: Set<Use>) -> bool {
    &&& more_symbols(a, b)
    &&& any_error(a.diags) ==> any_error(b.diags)
    &&& a.bindings.dom().subset_of(b.bindings.dom())
    &&& !any_error(b.diags) ==> forall|u: Use| #[trigger]
        us.contains(u) ==> b.bindings.dom().contains(u.span)
    &&& b.symbols.len() <= u32::MAX && names_ok(a) ==> names_ok(b) && forall|s: Span| #[trigger]
        b.bindings.dom().contains(s) ==> accounted(a, b, us, s)
}

proof fn lemma_fits_later(b: BindingV, u: Use, x: State, y: State)
    requires
        more_symbols(x, y),
        fits_use(b, u, x.symbols),
    ensures
        fits_use(b, u, y.symbols),
{
    match b {
        BindingV::Local(id) => assert(y.symbols[id as int] == x.symbols[id as int]),
        BindingV::Upvalue(id) => assert(y.symbols[id as int] == x.symbols[id as int]),
        _ => {},
    }
}

proof fn lemma_then(a: State, b: State, c: State, u: Set<Use>, v: Set<Use>)
    requires
        walked(a, b, u),
        walked(b, c, v),
    ensures
        walked(a, c, u.union(v)),
{
    reveal(walked);
    let w = u.union(v);
    assert(more_symbols(a, c)) by {
        assert forall|i: int| 0 <= i < a.symbols.len() implies c.symbols[i]
            == #[trigger] a.symbols[i] by {
            assert(b.symbols[i] == a.symbols[i]);
        }
    }
    if c.symbols.len() <= u32::MAX && names_ok(a) {
        assert forall|s: Span| #[trigger] c.bindings.dom().contains(s) implies accounted(
            a,
            c,
            w,
            s,
        ) by {
            assert(accounted(b, c, v, s));
            if b.bindings.dom().contains(s) && c.bindings[s] == b.bindings[s] {
                assert(accounted(a, b, u, s));
                if !(a.bindings.dom().contains(s) && b.bindings[s] == a.bindings[s]) {
                    let x = choose|x: Use|
                        u.contains(x) && x.span == s && #[trigger] fits_use(
                            b.bindings[s],
                            x,
                            b.symbols,
                        );
                    lemma_fits_later(b.bindings[s], x, b, c);
                    assert(w.contains(x) && fits_use(c.bindings[s], x, c.symbols));
                }
            } else {
                let x = choose|x: Use|
                    v.contains(x) && x.span == s && #[trigger] fits_use(
                        c.bindings[s],
                        x,
                        c.symbols,
                    );
                assert(w.contains(x) && fits_use(c.bindings[s], x, c.symbols));
            }
        }
    }
}

/// A step that only changes scopes or adds symbols.
proof fn lemma_quiet(a: State, b: State)
    requires
        more_symbols(a, b),
        any_error(a.diags) ==> any_error(b.diags),
        b.bindings == a.bindings,
        b.symbols.len() <= u32::MAX && names_ok(a) ==> names_ok(b),
    ensures
        walked(a, b, Set::empty()),
{
    reveal(walked);
}

/// Two parts of a walk, the first or the second of which meets no use.
proof fn lemma_quiet_then(a: State, b: State, c: State, u: Set<Use>)
    requires
        walked(a, b, Set::empty()) && walked(b, c, u) || walked(a, b, u) && walked(
            b,
            c,
            Set::empty(),
        ),
    ensures
        walked(a, c, u),
{
    let none = Set::<Use>::empty();
    assert(none.union(u) =~= u);
    assert(u.union(none) =~= u);
    if walked(a, b, none) && walked(b, c, u) {
        lemma_then(a, b, c, none, u);
    } else {
        lemma_then(a, b, c, u, none);
    }
}

proof fn lemma_error(st: State, code: Seq<char>, msg: Seq<char>, span: Span, us: Set<Use>)
    ensures
        walked(st, st.error(code, msg, span), us),
{
    reveal(walked);
    let b = st.error(code, msg, span);
    assert(b.diags[st.diags.len() as int].severity == Severity::Error);
    assert(any_error(b.diags));
    assert(names_ok(st) ==> names_ok(b));
}

proof fn lemma_find_name(names: NamesV, name: Seq<char>, n: int)
    requires
        n <= names.len(),
    ensures
        find_name(names, name, n) matches Some(id) ==> exists|i: int|
            0 <= i < n && #[trigger] names[i] == (name, id),
    decreases n,
{
    if n > 0 {
        if names[n - 1].0 == name {
            assert(names[n - 1] == (name, names[n - 1].1));
        } else {
            lemma_find_name(names, name, n - 1);
        }
    }
}

proof fn lemma_find_in_blocks(st: State, k: int, name: Seq<char>, n: int)
    requires
        names_ok(st),
        0 <= k < st.funcs.len(),
        n <= st.funcs[k].len(),
    ensures
        find_in_blocks(st.funcs[k], name, n) matches Some(id) ==> id < st.symbols.len()
            && st.symbols[id as int].name == name && st.symbols[id as int].func_depth == k,
    decreases n,
{
    if n > 0 {
        let f = st.funcs[k];
        lemma_find_name(f[n - 1], name, f[n - 1].len() as int);
        match find_name(f[n - 1], name, f[n - 1].len() as int) {
            Some(id) => {
                let i = choose|i: int|
                    0 <= i < f[n - 1].len() && #[trigger] f[n - 1][i] == (name, id);
                assert(st.funcs[k][n - 1][i] == (name, id));
            },
            None => lemma_find_in_blocks(st, k, name, n - 1),
        }
    }
}

proof fn lemma_find_in_funcs(st: State, name: Seq<char>, n: int, u: Use)
    requires
        names_ok(st),
        n <= st.funcs.len(),
        u.name == name,
        u.depth == st.funcs.len(),
    ensures
        find_in_funcs(st.funcs, name, n) matches Some(b) ==> fits_use(b, u, st.symbols),
    decreases n,
{
    if n > 0 {
        lemma_find_in_blocks(st, n - 1, name, st.funcs[n - 1].len() as int);
        lemma_find_in_funcs(st, name, n - 1, u);
    }
}

/// A name that is looked up and bound.
proof fn lemma_bind(st: State, cfg: ResolveConfigV, name: Seq<char>, span: Span)
    requires
        lookup_of(st, cfg, name) is Some,
    ensures
        walked(
            st,
            st.bind(span, lookup_of(st, cfg, name)->0),
            Set::empty().insert(Use { span, name, depth: st.funcs.len() as int }),
        ),
{
    reveal(walked);
    reveal(lookup_of);
    let u = Use { span, name, depth: st.funcs.len() as int };
    let us = Set::<Use>::empty().insert(u);
    let x = lookup_of(st, cfg, name)->0;
    let b = st.bind(span, x);
    if names_ok(st) {
        lemma_find_in_funcs(st, name, st.funcs.len() as int, u);
        assert(names_ok(b));
        assert forall|s: Span| #[trigger] b.bindings.dom().contains(s) implies accounted(
            st,
            b,
            us,
            s,
        ) by {
            if s == span {
                assert(us.contains(u) && fits_use(b.bindings[s], u, b.symbols));
            }
        }
    }
}

proof fn lemma_name(st: State, cfg: ResolveConfigV, name: Seq<char>, span: Span)
    ensures
        walked(
            st,
            r_name(st, cfg, name, span),
            Set::empty().insert(Use { span, name, depth: st.funcs.len() as int }),
        ),
        r_name(st, cfg, name, span).funcs == st.funcs,
{
    let us = Set::<Use>::empty().insert(Use { span, name, depth: st.funcs.len() as int });
    match lookup_of(st, cfg, name) {
        Some(_) => lemma_bind(st, cfg, name, span),
        None => {
            lemma_error(
                st,
                "E0301"@,
                "`"@ + name + "` may only be used as a generic `for` iterator"@,
                span,
                us,
            );
            lemma_error(
                st,
                "E0300"@,
                "cannot find name `"@ + name + "` in this scope"@,
                span,
                us,
            );
        },
    }
}

proof fn lemma_declare(st: State, name: Seq<char>, span: Span, kind: SymbolKind)
    requires
        in_block(st),
    ensures
        walked(st, st.declare(name, span, kind), Set::empty()),
        depths(st.declare(name, span, kind).funcs) == depths(st.funcs),
        in_block(st.declare(name, span, kind)),
{
    let b = st.declare(name, span, kind);
    assert(depths(b.funcs) =~= depths(st.funcs));
    if b.symbols.len() <= u32::MAX && names_ok(st) {
        assert forall|k: int, j: int, i: int|
            #![trigger b.funcs[k][j][i]]
            0 <= k < b.funcs.len() && 0 <= j < b.funcs[k].len() && 0 <= i
                < b.funcs[k][j].len() implies ({
            let (n, id) = b.funcs[k][j][i];
            &&& id < b.symbols.len()
            &&& b.symbols[id as int].name == n
            &&& b.symbols[id as int].func_depth == k
        }) by {
            if k < st.funcs.len() - 1 {
                assert(b.funcs[k] == st.funcs[k]);
                assert(b.funcs[k][j][i] == st.funcs[k][j][i]);
            } else if j < st.funcs.last().len() - 1 {
                assert(b.funcs[k][j] == st.funcs[k][j]);
                assert(b.funcs[k][j][i] == st.funcs[k][j][i]);
            } else if i < st.funcs.last().last().len() {
                assert(b.funcs[k][j][i] == st.funcs[k][j][i]);
            }
        }
    }
    lemma_quiet(st, b);
}

proof fn lemma_declares(st: State, names: Seq<IdentV>, kind: SymbolKind, i: int)
    requires
        in_block(st),
    ensures
        walked(st, r_declare(st, names, kind, i), Set::empty()),
        depths(r_declare(st, names, kind, i).funcs) == depths(st.funcs),
    decreases names.len() - i,
{
    unfold_r_declare(st, names, kind, i);
    if 0 <= i < names.len() {
        let a = st.declare(names[i].node, names[i].span, kind);
        lemma_declare(st, names[i].node, names[i].span, kind);
        lemma_declares(a, names, kind, i + 1);
        lemma_quiet_then(st, a, r_declare(a, names, kind, i + 1), Set::empty());
    } else {
        lemma_quiet(st, st);
    }
}

proof fn lemma_depths(a: State, b: State)
    requires
        depths(a.funcs) == depths(b.funcs),
    ensures
        a.funcs.len() == b.funcs.len(),
        in_block(a) == in_block(b),
        a.funcs.len() > 0 ==> a.funcs.last().len() == b.funcs.last().len(),
{
    let (x, y) = (depths(a.funcs), depths(b.funcs));
    assert(x.len() == a.funcs.len() && y.len() == b.funcs.len());
    if a.funcs.len() > 0 {
        assert(x[a.funcs.len() - 1] == y[a.funcs.len() - 1]);
    }
}

/// A change of whether the walk is in a loop.
proof fn lemma_looping(st: State, l: bool)
    ensures
        walked(st, st.looping(l), Set::empty()),
        st.looping(l).funcs == st.funcs,
{
    let b = st.looping(l);
    assert(names_ok(st) ==> names_ok(b));
    lemma_quiet(st, b);
}

proof fn lemma_push_block(st: State)
    requires
        st.funcs.len() > 0,
    ensures
        walked(st, st.push_block(), Set::empty()),
        in_block(st.push_block()),
        st.push_block().funcs.len() == st.funcs.len(),
{
    let b = st.push_block();
    if names_ok(st) {
        assert forall|k: int, j: int, i: int|
            #![trigger b.funcs[k][j][i]]
            0 <= k < b.funcs.len() && 0 <= j < b.funcs[k].len() && 0 <= i
                < b.funcs[k][j].len() implies ({
            let (n, id) = b.funcs[k][j][i];
            &&& id < b.symbols.len()
            &&& b.symbols[id as int].name == n
            &&& b.symbols[id as int].func_depth == k
        }) by {
            if k < st.funcs.len() - 1 {
                assert(b.funcs[k] == st.funcs[k]);
            }
            assert(b.funcs[k][j][i] == st.funcs[k][j][i]);
        }
    }
    lemma_quiet(st, b);
}

/// The end of a block that was opened in `st`.
proof fn lemma_pop_block(st: State, a: State)
    requires
        st.funcs.len() > 0,
        depths(a.funcs) == depths(st.push_block().funcs),
    ensures
        walked(a, a.pop_block(), Set::empty()),
        depths(a.pop_block().funcs) == depths(st.funcs),
{
    let p = st.push_block();
    let b = a.pop_block();
    lemma_depths(a, p);
    let (x, y) = (depths(a.funcs), depths(p.funcs));
    assert forall|k: int| 0 <= k < st.funcs.len() implies depths(b.funcs)[k] == depths(
        st.funcs,
    )[k] by {
        assert(x[k] == y[k]);
    }
    assert(depths(b.funcs) =~= depths(st.funcs));
    if names_ok(a) {
        assert forall|k: int, j: int, i: int|
            #![trigger b.funcs[k][j][i]]
            0 <= k < b.funcs.len() && 0 <= j < b.funcs[k].len() && 0 <= i
                < b.funcs[k][j].len() implies ({
            let (n, id) = b.funcs[k][j][i];
            &&& id < b.symbols.len()
            &&& b.symbols[id as int].name == n
            &&& b.symbols[id as int].func_depth == k
        }) by {
            assert(b.funcs[k][j][i] == a.funcs[k][j][i]);
        }
    }
    lemma_quiet(a, b);
}

// ---- the walk -------------------------------------------------------------------

proof fn w_expr(st: State, cfg: ResolveConfigV, e: ExprV)
    ensures
        walked(st, r_expr(st, cfg, e), u_expr(e, st.funcs.len() as int)),
        depths(r_expr(st, cfg, e).funcs) == depths(st.funcs),
    decreases e, 0int,
{
    unfold_r_expr(st, cfg, e);
    let d = st.funcs.len() as int;
    match e.kind {
        ExprKindV::Name(n) => lemma_name(st, cfg, n, e.span),
        ExprKindV::Index { base, index } => {
            w_expr(st, cfg, *base);
            let a = r_expr(st, cfg, *base);
            lemma_depths(st, a);
            w_expr(a, cfg, *index);
            lemma_then(st, a, r_expr(a, cfg, *index), u_expr(*base, d), u_expr(*index, d));
        },
        ExprKindV::Field { base, name } => w_expr(st, cfg, *base),
        ExprKindV::Call { callee, args } => {
            w_expr(st, cfg, *callee);
            let a = r_expr(st, cfg, *callee);
            lemma_depths(st, a);
            w_exprs(a, cfg, args, 0);
            lemma_then(st, a, r_exprs(a, cfg, args, 0), u_expr(*callee, d), u_exprs(args, 0, d));
        },
        ExprKindV::MethodCall { receiver, method, args } => {
            w_expr(st, cfg, *receiver);
            let a = r_expr(st, cfg, *receiver);
            lemma_depths(st, a);
            w_exprs(a, cfg, args, 0);
            lemma_then(st, a, r_exprs(a, cfg, args, 0), u_expr(*receiver, d), u_exprs(args, 0, d));
        },
        ExprKindV::Table(fields) => w_fields(st, cfg, fields, 0),
        ExprKindV::Binary { op, lhs, rhs } => {
            w_expr(st, cfg, *lhs);
            let a = r_expr(st, cfg, *lhs);
            lemma_depths(st, a);
            w_expr(a, cfg, *rhs);
            lemma_then(st, a, r_expr(a, cfg, *rhs), u_expr(*lhs, d), u_expr(*rhs, d));
        },
        ExprKindV::Unary { op, operand } => w_expr(st, cfg, *operand),
        ExprKindV::Paren(inner) => w_expr(st, cfg, *inner),
        ExprKindV::Function(body) => w_func(st, cfg, body),
        _ => lemma_quiet(st, st),
    }
}

proof fn w_exprs(st: State, cfg: ResolveConfigV, es: Seq<ExprV>, i: int)
    ensures
        walked(st, r_exprs(st, cfg, es, i), u_exprs(es, i, st.funcs.len() as int)),
        depths(r_exprs(st, cfg, es, i).funcs) == depths(st.funcs),
    decreases es, es.len() - i,
{
    unfold_r_exprs(st, cfg, es, i);
    let d = st.funcs.len() as int;
    if 0 <= i < es.len() {
        w_expr(st, cfg, es[i]);
        let a = r_expr(st, cfg, es[i]);
        let ux = u_expr(es[i], d);
        lemma_depths(st, a);
        w_exprs(a, cfg, es, i + 1);
        lemma_then(st, a, r_exprs(a, cfg, es, i + 1), ux, u_exprs(es, i + 1, d));
    } else {
        lemma_quiet(st, st);
    }
}

proof fn w_field(st: State, cfg: ResolveConfigV, f: FieldV)
    ensures
        walked(st, r_field(st, cfg, f), u_field(f, st.funcs.len() as int)),
        depths(r_field(st, cfg, f).funcs) == depths(st.funcs),
    decreases f, 0int,
{
    unfold_r_field(st, cfg, f);
    let d = st.funcs.len() as int;
    match f {
        FieldV::Positional(e) => w_expr(st, cfg, e),
        FieldV::Named { name, value } => w_expr(st, cfg, value),
        FieldV::Keyed { key, value } => {
            w_expr(st, cfg, key);
            let a = r_expr(st, cfg, key);
            lemma_depths(st, a);
            w_expr(a, cfg, value);
            lemma_then(st, a, r_expr(a, cfg, value), u_expr(key, d), u_expr(value, d));
        },
    }
}

proof fn w_fields(st: State, cfg: ResolveConfigV, fs: Seq<FieldV>, i: int)
    ensures
        walked(st, r_fields(st, cfg, fs, i), u_fields(fs, i, st.funcs.len() as int)),
        depths(r_fields(st, cfg, fs, i).funcs) == depths(st.funcs),
    decreases fs, fs.len() - i,
{
    unfold_r_fields(st, cfg, fs, i);
    let d = st.funcs.len() as int;
    if 0 <= i < fs.len() {
        w_field(st, cfg, fs[i]);
        let a = r_field(st, cfg, fs[i]);
        let ux = u_field(fs[i], d);
        lemma_depths(st, a);
        w_fields(a, cfg, fs, i + 1);
        lemma_then(st, a, r_fields(a, cfg, fs, i + 1), ux, u_fields(fs, i + 1, d));
    } else {
        lemma_quiet(st, st);
    }
}

proof fn w_func(st: State, cfg: ResolveConfigV, body: FuncBodyV)
    ensures
        walked(st, r_func(st, cfg, body), u_func(body, st.funcs.len() as int)),
        depths(r_func(st, cfg, body).funcs) == depths(st.funcs),
    decreases body, 0int,
{
    unfold_r_func(st, cfg, body);
    let us = u_func(body, st.funcs.len() as int);
    let a = st.enter_function();
    if names_ok(st) {
        assert forall|k: int, j: int, i: int|
            #![trigger a.funcs[k][j][i]]
            0 <= k < a.funcs.len() && 0 <= j < a.funcs[k].len() && 0 <= i
                < a.funcs[k][j].len() implies ({
            let (n, id) = a.funcs[k][j][i];
            &&& id < a.symbols.len()
            &&& a.symbols[id as int].name == n
            &&& a.symbols[id as int].func_depth == k
        }) by {
            assert(a.funcs[k][j][i] == st.funcs[k][j][i]);
        }
    }
    lemma_quiet(st, a);
    lemma_declares(a, body.params, SymbolKind::Param, 0);
    let b = r_declare(a, body.params, SymbolKind::Param, 0);
    lemma_depths(a, b);
    lemma_looping(b, false);
    let c = b.looping(false);
    w_stats(c, cfg, body.block);
    let x = r_stats(c, cfg, body.block);
    lemma_depths(c, x);
    lemma_looping(x, st.in_loop);
    let y = x.looping(st.in_loop);
    let z = y.exit_function();
    if names_ok(y) {
        assert forall|k: int, j: int, i: int|
            #![trigger z.funcs[k][j][i]]
            0 <= k < z.funcs.len() && 0 <= j < z.funcs[k].len() && 0 <= i
                < z.funcs[k][j].len() implies ({
            let (n, id) = z.funcs[k][j][i];
            &&& id < z.symbols.len()
            &&& z.symbols[id as int].name == n
            &&& z.symbols[id as int].func_depth == k
        }) by {
            assert(z.funcs[k][j][i] == y.funcs[k][j][i]);
        }
    }
    lemma_quiet(y, z);
    assert(depths(z.funcs) =~= depths(st.funcs)) by {
        let (p, q) = (depths(y.funcs), depths(a.funcs));
        assert forall|k: int| 0 <= k < st.funcs.len() implies depths(z.funcs)[k] == depths(
            st.funcs,
        )[k] by {
            assert(p[k] == q[k]);
        }
    }
    lemma_quiet_then(st, a, b, Set::empty());
    lemma_quiet_then(st, b, c, Set::empty());
    lemma_quiet_then(st, c, x, us);
    lemma_quiet_then(st, x, y, us);
    lemma_quiet_then(st, y, z, us);
}

proof fn w_block(st: State, cfg: ResolveConfigV, b: BlockV)
    requires
        in_block(st),
    ensures
        walked(st, r_block(st, cfg, b), u_block(b, st.funcs.len() as int)),
        depths(r_block(st, cfg, b).funcs) == depths(st.funcs),
    decreases b, 1int,
{
    unfold_r_block(st, cfg, b);
    let us = u_block(b, st.funcs.len() as int);
    lemma_push_block(st);
    let a = st.push_block();
    w_stats(a, cfg, b);
    let x = r_stats(a, cfg, b);
    lemma_pop_block(st, x);
    lemma_quiet_then(st, a, x, us);
    lemma_quiet_then(st, x, x.pop_block(), us);
}

proof fn w_loop(st: State, cfg: ResolveConfigV, b: BlockV)
    requires
        in_block(st),
    ensures
        walked(st, r_loop(st, cfg, b), u_block(b, st.funcs.len() as int)),
        depths(r_loop(st, cfg, b).funcs) == depths(st.funcs),
    decreases b, 2int,
{
    unfold_r_loop(st, cfg, b);
    let us = u_block(b, st.funcs.len() as int);
    lemma_looping(st, true);
    let a = st.looping(true);
    w_block(a, cfg, b);
    let x = r_block(a, cfg, b);
    lemma_looping(x, st.in_loop);
    lemma_quiet_then(st, a, x, us);
    lemma_quiet_then(st, x, x.looping(st.in_loop), us);
}

proof fn w_stats(st: State, cfg: ResolveConfigV, b: BlockV)
    requires
        in_block(st),
    ensures
        walked(st, r_stats(st, cfg, b), u_block(b, st.funcs.len() as int)),
        depths(r_stats(st, cfg, b).funcs) == depths(st.funcs),
    decreases b, 0int,
{
    unfold_r_stats(st, cfg, b);
    let d = st.funcs.len() as int;
    w_stat_list(st, cfg, b.stats, 0);
    let a = r_stat_list(st, cfg, b.stats, 0);
    lemma_depths(st, a);
    match b.ret {
        Some(r) => {
            w_exprs(a, cfg, r.exprs, 0);
            lemma_then(
                st,
                a,
                r_exprs(a, cfg, r.exprs, 0),
                u_stats(b.stats, 0, d),
                u_exprs(r.exprs, 0, d),
            );
        },
        None => {},
    }
}

proof fn w_stat_list(st: State, cfg: ResolveConfigV, ss: Seq<StatV>, i: int)
    requires
        in_block(st),
    ensures
        walked(st, r_stat_list(st, cfg, ss, i), u_stats(ss, i, st.funcs.len() as int)),
        depths(r_stat_list(st, cfg, ss, i).funcs) == depths(st.funcs),
    decreases ss, ss.len() - i,
{
    unfold_r_stat_list(st, cfg, ss, i);
    let d = st.funcs.len() as int;
    if 0 <= i < ss.len() {
        w_stat(st, cfg, ss[i]);
        let a = r_stat(st, cfg, ss[i]);
        let ux = u_stat(ss[i], d);
        lemma_depths(st, a);
        w_stat_list(a, cfg, ss, i + 1);
        lemma_then(st, a, r_stat_list(a, cfg, ss, i + 1), ux, u_stats(ss, i + 1, d));
    } else {
        lemma_quiet(st, st);
    }
}

proof fn w_arms(st: State, cfg: ResolveConfigV, arms: Seq<(ExprV, BlockV)>, i: int)
    requires
        in_block(st),
    ensures
        walked(st, r_arms(st, cfg, arms, i), u_arms(arms, i, st.funcs.len() as int)),
        depths(r_arms(st, cfg, arms, i).funcs) == depths(st.funcs),
    decreases arms, arms.len() - i,
{
    unfold_r_arms(st, cfg, arms, i);
    let d = st.funcs.len() as int;
    if 0 <= i < arms.len() {
        w_expr(st, cfg, arms[i].0);
        let c = r_expr(st, cfg, arms[i].0);
        lemma_depths(st, c);
        w_block(c, cfg, arms[i].1);
        let a = r_block(c, cfg, arms[i].1);
        lemma_then(st, c, a, u_expr(arms[i].0, d), u_block(arms[i].1, d));
        let ux = u_expr(arms[i].0, d).union(u_block(arms[i].1, d));
        lemma_depths(st, a);
        w_arms(a, cfg, arms, i + 1);
        lemma_then(st, a, r_arms(a, cfg, arms, i + 1), ux, u_arms(arms, i + 1, d));
    } else {
        lemma_quiet(st, st);
    }
}

proof fn w_stat(st: State, cfg: ResolveConfigV, s: StatV)
    requires
        in_block(st),
    ensures
        walked(st, r_stat(st, cfg, s), u_stat(s, st.funcs.len() as int)),
        depths(r_stat(st, cfg, s).funcs) == depths(st.funcs),
    decreases s, 0int,
{
    unfold_r_stat(st, cfg, s);
    let d = st.funcs.len() as int;
    match s.kind {
        StatKindV::Empty => lemma_quiet(st, st),
        StatKindV::Break => {
            lemma_quiet(st, st);
            lemma_error(st, "E0306"@, "`break` outside of a loop"@, s.span, Set::empty());
        },
        StatKindV::Local { names, exprs } => {
            w_exprs(st, cfg, exprs, 0);
            let a = r_exprs(st, cfg, exprs, 0);
            lemma_depths(st, a);
            lemma_declares(a, names, SymbolKind::Local, 0);
            lemma_quiet_then(
                st,
                a,
                r_declare(a, names, SymbolKind::Local, 0),
                u_exprs(exprs, 0, d),
            );
        },
        StatKindV::LocalFunction { name, body } => {
            lemma_declare(st, name.node, name.span, SymbolKind::Local);
            let a = st.declare(name.node, name.span, SymbolKind::Local);
            lemma_depths(st, a);
            w_func(a, cfg, body);
            lemma_quiet_then(st, a, r_func(a, cfg, body), u_func(body, d));
        },
        StatKindV::Assign { targets, exprs } => {
            w_exprs(st, cfg, exprs, 0);
            let a = r_exprs(st, cfg, exprs, 0);
            lemma_depths(st, a);
            w_targets(a, cfg, targets, 0);
            lemma_then(
                st,
                a,
                r_targets(a, cfg, targets, 0),
                u_exprs(exprs, 0, d),
                u_exprs(targets, 0, d),
            );
        },
        StatKindV::Call(e) => w_expr(st, cfg, e),
        StatKindV::Do(b) => w_block(st, cfg, b),
        StatKindV::While { cond, body } => {
            w_expr(st, cfg, cond);
            let a = r_expr(st, cfg, cond);
            lemma_depths(st, a);
            w_loop(a, cfg, body);
            lemma_then(st, a, r_loop(a, cfg, body), u_expr(cond, d), u_block(body, d));
        },
        StatKindV::If { arms, else_block } => {
            w_arms(st, cfg, arms, 0);
            let a = r_arms(st, cfg, arms, 0);
            lemma_depths(st, a);
            match else_block {
                Some(b) => {
                    w_block(a, cfg, b);
                    lemma_then(st, a, r_block(a, cfg, b), u_arms(arms, 0, d), u_block(b, d));
                },
                None => {},
            }
        },
        StatKindV::NumericFor { var, start, end, step, body } => {
            w_expr(st, cfg, start);
            let a0 = r_expr(st, cfg, start);
            lemma_depths(st, a0);
            w_expr(a0, cfg, end);
            let a = r_expr(a0, cfg, end);
            lemma_depths(st, a);
            lemma_then(st, a0, a, u_expr(start, d), u_expr(end, d));
            let ua = u_expr(start, d).union(u_expr(end, d));
            let (b, ub) = match step {
                Some(x) => (r_expr(a, cfg, x), ua.union(u_expr(x, d))),
                None => (a, ua),
            };
            match step {
                Some(x) => {
                    w_expr(a, cfg, x);
                    lemma_then(st, a, b, ua, u_expr(x, d));
                },
                None => {},
            }
            lemma_depths(st, b);
            lemma_push_block(b);
            let p = b.push_block();
            lemma_declare(p, var.node, var.span, SymbolKind::LoopVar);
            let c = p.declare(var.node, var.span, SymbolKind::LoopVar);
            lemma_depths(p, c);
            w_loop(c, cfg, body);
            let x = r_loop(c, cfg, body);
            lemma_pop_block(b, x);
            lemma_quiet_then(b, p, c, Set::empty());
            lemma_quiet_then(b, c, x, u_block(body, d));
            lemma_quiet_then(b, x, x.pop_block(), u_block(body, d));
            lemma_then(st, b, x.pop_block(), ub, u_block(body, d));
        },
        StatKindV::GenericFor { names, iter, body } => {
            let arg = match iter {
                IterExprV::IPairs { arg, span } => arg,
                IterExprV::Pairs { arg, span } => arg,
            };
            assert(decreases_to!(s => arg));
            w_expr(st, cfg, arg);
            let b = r_expr(st, cfg, arg);
            lemma_depths(st, b);
            lemma_push_block(b);
            let p = b.push_block();
            lemma_declares(p, names, SymbolKind::LoopVar, 0);
            let c = r_declare(p, names, SymbolKind::LoopVar, 0);
            lemma_depths(p, c);
            w_loop(c, cfg, body);
            let x = r_loop(c, cfg, body);
            lemma_pop_block(b, x);
            lemma_quiet_then(b, p, c, Set::empty());
            lemma_quiet_then(b, c, x, u_block(body, d));
            lemma_quiet_then(b, x, x.pop_block(), u_block(body, d));
            lemma_then(st, b, x.pop_block(), u_expr(arg, d), u_block(body, d));
        },
    }
}

proof fn w_targets(st: State, cfg: ResolveConfigV, ts: Seq<ExprV>, i: int)
    requires
        in_block(st),
    ensures
        walked(st, r_targets(st, cfg, ts, i), u_exprs(ts, i, st.funcs.len() as int)),
        depths(r_targets(st, cfg, ts, i).funcs) == depths(st.funcs),
    decreases ts, ts.len() - i,
{
    unfold_r_targets(st, cfg, ts, i);
    let d = st.funcs.len() as int;
    if 0 <= i < ts.len() {
        w_target(st, cfg, ts[i]);
        let a = r_target(st, cfg, ts[i]);
        let ux = u_expr(ts[i], d);
        lemma_depths(st, a);
        w_targets(a, cfg, ts, i + 1);
        lemma_then(st, a, r_targets(a, cfg, ts, i + 1), ux, u_exprs(ts, i + 1, d));
    } else {
        lemma_quiet(st, st);
    }
}

proof fn w_target(st: State, cfg: ResolveConfigV, e: ExprV)
    ensures
        walked(st, r_target(st, cfg, e), u_expr(e, st.funcs.len() as int)),
        depths(r_target(st, cfg, e).funcs) == depths(st.funcs),
    decreases e, 1int,
{
    unfold_r_target(st, cfg, e);
    let d = st.funcs.len() as int;
    let us = u_expr(e, d);
    match e.kind {
        ExprKindV::Name(n) => {
            let immutable = "cannot assign to `"@ + n
                + "`: it is an immutable binding (top-level declaration, builtin, host function, or memory handle)"@;
            let iterator = "`"@ + n + "` may only be used as a generic `for` iterator"@;
            let unknown = "cannot find name `"@ + n
                + "` in this scope; assigning to an undeclared name would create a global, which is not allowed"@;
            lemma_error(st, "E0302"@, immutable, e.span, us);
            lemma_error(st, "E0301"@, iterator, e.span, us);
            lemma_error(st, "E0300"@, unknown, e.span, us);
            if lookup_of(st, cfg, n) is Some {
                lemma_bind(st, cfg, n, e.span);
            }
        },
        ExprKindV::Field { base, name } => {
            w_expr(st, cfg, *base);
            let a = r_expr(st, cfg, *base);
            lemma_depths(st, a);
            lemma_frozen(a, cfg, *base, e.span);
            lemma_quiet_then(st, a, r_frozen(a, cfg, *base, e.span), us);
        },
        ExprKindV::Index { base, index } => {
            w_expr(st, cfg, *base);
            let a = r_expr(st, cfg, *base);
            lemma_depths(st, a);
            w_expr(a, cfg, *index);
            let b = r_expr(a, cfg, *index);
            lemma_then(st, a, b, u_expr(*base, d), u_expr(*index, d));
            lemma_depths(st, b);
            lemma_frozen(b, cfg, *base, e.span);
            lemma_quiet_then(st, b, r_frozen(b, cfg, *base, e.span), us);
        },
        _ => w_expr(st, cfg, e),
    }
}

proof fn lemma_frozen(st: State, cfg: ResolveConfigV, base: ExprV, span: Span)
    ensures
        walked(st, r_frozen(st, cfg, base, span), Set::empty()),
        r_frozen(st, cfg, base, span).funcs == st.funcs,
{
    let b = r_frozen(st, cfg, base, span);
    lemma_quiet(st, st);
    match crate::resolve::root_name(base) {
        Some(n) => match lookup_of(st, cfg, n) {
            Some(BindingV::TopConst(c)) => lemma_error(
                st,
                "E0307"@,
                "cannot write through `"@ + c + "`: a top-level constant is immutable"@,
                span,
                Set::empty(),
            ),
            _ => {},
        },
        None => {},
    }
}

proof fn w_const(st: State, e: ExprV)
    ensures
        walked(st, r_const(st, e), Set::empty()),
        r_const(st, e).funcs == st.funcs,
    decreases e, 0int,
{
    unfold_r_const(st, e);
    match e.kind {
        ExprKindV::Nil | ExprKindV::Bool(_) | ExprKindV::Number(_) | ExprKindV::Str(_) => {
            lemma_quiet(st, st);
        },
        ExprKindV::Paren(inner) => w_const(st, *inner),
        ExprKindV::Unary { op, operand } => w_const(st, *operand),
        ExprKindV::Binary { op, lhs, rhs } => {
            w_const(st, *lhs);
            let a = r_const(st, *lhs);
            w_const(a, *rhs);
            lemma_quiet_then(st, a, r_const(a, *rhs), Set::empty());
        },
        ExprKindV::Table(fields) => w_const_fields(st, fields, 0),
        _ => lemma_error(
            st,
            "E0303"@,
            "constant declarations may only contain literal values, table constructors of constants, and operators over them; names, calls, and indexing are not allowed"@,
            e.span,
            Set::empty(),
        ),
    }
}

proof fn w_const_fields(st: State, fs: Seq<FieldV>, i: int)
    ensures
        walked(st, r_const_fields(st, fs, i), Set::empty()),
        r_const_fields(st, fs, i).funcs == st.funcs,
    decreases fs, fs.len() - i,
{
    unfold_r_const_fields(st, fs, i);
    if 0 <= i < fs.len() {
        let a = match fs[i] {
            FieldV::Positional(e) => r_const(st, e),
            FieldV::Named { name, value } => r_const(st, value),
            FieldV::Keyed { key, value } => r_const(r_const(st, key), value),
        };
        match fs[i] {
            FieldV::Positional(e) => w_const(st, e),
            FieldV::Named { name, value } => w_const(st, value),
            FieldV::Keyed { key, value } => {
                w_const(st, key);
                w_const(r_const(st, key), value);
                lemma_quiet_then(st, r_const(st, key), a, Set::empty());
            },
        }
        w_const_fields(a, fs, i + 1);
        lemma_quiet_then(st, a, r_const_fields(a, fs, i + 1), Set::empty());
    } else {
        lemma_quiet(st, st);
    }
}

proof fn w_registers(st: State, cfg: ResolveConfigV, ds: Seq<TopDeclV>, i: int)
    ensures
        walked(st, r_registers(st, cfg, ds, i), Set::empty()),
        r_registers(st, cfg, ds, i).funcs == st.funcs,
    decreases ds.len() - i,
{
    unfold_r_registers(st, cfg, ds, i);
    if 0 <= i < ds.len() {
        let a = crate::resolve::r_register(st, cfg, ds[i]);
        assert(any_error(st.diags) ==> any_error(a.diags)) by {
            if any_error(st.diags) {
                let k = choose|k: int|
                    0 <= k < st.diags.len() && (#[trigger] st.diags[k]).severity
                        == Severity::Error;
                assert(a.diags[k] == st.diags[k]);
            }
        }
        assert(names_ok(st) ==> names_ok(a));
        lemma_quiet(st, a);
        w_registers(a, cfg, ds, i + 1);
        lemma_quiet_then(st, a, r_registers(a, cfg, ds, i + 1), Set::empty());
    } else {
        lemma_quiet(st, st);
    }
}

proof fn w_decls(st: State, cfg: ResolveConfigV, ds: Seq<TopDeclV>, i: int)
    requires
        st.funcs.len() == 0,
    ensures
        walked(st, r_decls(st, cfg, ds, i), u_decls(ds, i)),
        r_decls(st, cfg, ds, i).funcs.len() == 0,
    decreases ds.len() - i,
{
    unfold_r_decls(st, cfg, ds, i);
    if 0 <= i < ds.len() {
        match ds[i] {
            TopDeclV::Const(c) => {
                w_const(st, c.value);
                let a = r_const(st, c.value);
                w_decls(a, cfg, ds, i + 1);
                lemma_quiet_then(st, a, r_decls(a, cfg, ds, i + 1), u_decls(ds, i + 1));
            },
            TopDeclV::Function(f) => {
                w_func(st, cfg, f.body);
                let a = r_func(st, cfg, f.body);
                lemma_depths(st, a);
                w_decls(a, cfg, ds, i + 1);
                lemma_then(
                    st,
                    a,
                    r_decls(a, cfg, ds, i + 1),
                    u_func(f.body, 0),
                    u_decls(ds, i + 1),
                );
            },
        }
    } else {
        lemma_quiet(st, st);
    }
}

/// In a resolved module every use of a name, in a function body or in the export table, is
/// bound, and what stands bound at a place is right for a name that is used there: a symbol has
/// that name, and it belongs to the function of the use, or, captured, to one around it.
pub proof fn law_names_are_bound(m: ModuleV, cfg: ResolveConfigV)
    ensures
        resolve_of(m, cfg) matches Ok(r) ==> {
            &&& forall|u: Use| #[trigger]
                uses_in(m).contains(u) ==> r.binding_of(u.span) is Some
            &&& r.symbols.len() <= u32::MAX ==> forall|s: Span| #[trigger]
                r.bindings.dom().contains(s) ==> exists|u: Use|
                    uses_in(m).contains(u) && u.span == s && #[trigger] fits_use(
                        r.bindings[s],
                        u,
                        r.symbols,
                    )
        },
{
    let st = start_state();
    w_registers(st, cfg, m.decls, 0);
    let a = r_registers(st, cfg, m.decls, 0);
    w_decls(a, cfg, m.decls, 0);
    let b = r_decls(a, cfg, m.decls, 0);
    let us = u_decls(m.decls, 0);
    lemma_quiet_then(st, a, b, us);
    match m.export {
        Some(e) => {
            w_fields(b, cfg, e.node, 0);
            lemma_then(st, b, r_fields(b, cfg, e.node, 0), us, u_fields(e.node, 0, 0));
        },
        None => {},
    }
    reveal(walked);
    assert(names_ok(st));
    let z = r_module(m, cfg);
    if !any_error(z.diags) && z.symbols.len() <= u32::MAX {
        let r = resolve_of(m, cfg)->Ok_0;
        assert forall|s: Span| #[trigger] r.bindings.dom().contains(s) implies exists|u: Use|
            uses_in(m).contains(u) && u.span == s && #[trigger] fits_use(
                r.bindings[s],
                u,
                r.symbols,
            ) by {
            assert(z.bindings.dom().contains(s));
            assert(accounted(st, z, uses_in(m), s));
            assert(!st.bindings.dom().contains(s));
            let u = choose|u: Use|
                uses_in(m).contains(u) && u.span == s && #[trigger] fits_use(
                    z.bindings[s],
                    u,
                    z.symbols,
                );
            assert(uses_in(m).contains(u) && fits_use(r.bindings[s], u, r.symbols));
        }
    }
}

/// Whether no two uses of names stand at the same place.
pub open spec fn one_use_per_place(m: ModuleV) -> bool {
    forall|u: Use, v: Use| #[trigger]
        uses_in(m).contains(u) && #[trigger] uses_in(m).contains(v) && u.span == v.span ==> u == v
}

/// Where no two uses stand at the same place, every use of a name is bound to something of that
/// name: a symbol of the function that it stands in, one of a function around it that is
/// captured, or a declaration, builtin, host function or memory.
pub proof fn law_each_use_is_bound(m: ModuleV, cfg: ResolveConfigV, u: Use)
    requires
        one_use_per_place(m),
        uses_in(m).contains(u),
        resolve_of(m, cfg) is Ok,
        (resolve_of(m, cfg)->Ok_0).symbols.len() <= u32::MAX,
    ensures
        ({
            let r = resolve_of(m, cfg)->Ok_0;
            r.binding_of(u.span) matches Some(b) && fits_use(b, u, r.symbols)
        }),
{
    law_names_are_bound(m, cfg);
    let r = resolve_of(m, cfg)->Ok_0;
    assert(r.binding_of(u.span) is Some);
    assert(r.bindings.dom().contains(u.span));
    let v = choose|v: Use|
        uses_in(m).contains(v) && v.span == u.span && #[trigger] fits_use(
            r.bindings[u.span],
            v,
            r.symbols,
        );
    assert(u == v);
}

} // verus!
