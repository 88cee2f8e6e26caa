//! Resolver: name binding and the deeper constraint rules.
//!
//! The parser enforced the structure. The resolver enforces the rules that need a symbol
//! table:
//!
//!   * No free globals. Every name must resolve to a local, a captured upvalue, another
//!     top-level declaration, a builtin, a host function, or the host memory binding.
//!   * Immutable bindings. Top-level functions and constants, builtins, host functions, and
//!     the memory handle itself cannot be assigned to, and nothing is written through a
//!     constant. (`mem.field = ...` is fine: that is a field write, not a rebind.)
//!   * Constant expressions. The right side of a top-level `name = <expr>` is a literal, a
//!     table constructor of constants, or an operator over them.
//!   * `break` only inside a loop.
//!   * No shadowing of reserved names, and no duplicates, among top-level declarations.
//!
//! Unlike the parser, the resolver collects every diagnostic in one pass.
//!
//! The rules are the functions `r_*` from one [`State`] to the next; the `unfold_*` lemmas
//! state each of them one step at a time.
use vstd::prelude::*;
use crate::ast::{
    arms_v, exprs_v, fields_v, idents_v, stats_v, Block, BlockV, Expr, ExprKind, ExprKindV, ExprV,
    Field, FieldV, FuncBody, FuncBodyV, Ident, IdentV, IterExpr, IterExprV, Module, ModuleV, Stat,
    StatKind, StatKindV, StatV, TopDecl, TopDeclV,
};
use crate::diagnostics::{any_error, error_at, Diagnostic, DiagnosticV, Diagnostics, Span};
use crate::spanmap::SpanMap;
use crate::text::{cat3, cat4, own, same};

verus! {

/// Host-supplied names injected into a script's environment.
#[derive(Clone, Debug)]
pub struct ResolveConfig {
    /// Names of host-registered functions callable from the script.
    pub host_functions: Vec<String>,
    /// Names bound to host memory handles (commonly just `mem`).
    pub memory: Vec<String>,
}

/// The texts of a list of strings.
pub open spec fn strs_v(v: Seq<String>) -> Seq<Seq<char>> {
    Seq::new(v.len(), |i: int| v[i]@)
}

/// What a [`ResolveConfig`] offers.
pub ghost struct ResolveConfigV {
    pub host_functions: Seq<Seq<char>>,
    pub memory: Seq<Seq<char>>,
}

impl View for ResolveConfig {
    type V = ResolveConfigV;

    open spec fn view(&self) -> ResolveConfigV {
        ResolveConfigV {
            host_functions: strs_v(self.host_functions@),
            memory: strs_v(self.memory@),
        }
    }
}

impl Default for ResolveConfig {
    fn default() -> (r: Self)
        ensures
            r@.host_functions.len() == 0,
            r@.memory.len() == 0,
    {
        ResolveConfig { host_functions: Vec::new(), memory: Vec::new() }
    }
}

impl ResolveConfig {
    /// A config with the single memory binding `name` and no host functions.
    pub fn with_memory(name: &str) -> (r: Self)
        ensures
            r@ == (ResolveConfigV { host_functions: Seq::empty(), memory: seq![name@] }),
    {
        let mut memory: Vec<String> = Vec::new();
        memory.push(name.to_owned());
        let r = ResolveConfig { host_functions: Vec::new(), memory };
        assert(r@.host_functions =~= Seq::<Seq<char>>::empty());
        assert(r@.memory =~= seq![name@]);
        r
    }
}

/// An identifier for an in-function symbol (param, local, or loop variable).
pub type SymbolId = u32;

#[derive(Clone, Copy, Debug, PartialEq, Eq, Structural)]
pub enum SymbolKind {
    Param,
    Local,
    LoopVar,
}

/// A definition of an in-function symbol.
#[derive(Clone, Debug)]
pub struct SymbolInfo {
    pub name: String,
    pub def_span: Span,
    pub kind: SymbolKind,
    /// 0 = outermost function, increasing inward (for closures).
    pub func_depth: usize,
}

pub ghost struct SymbolInfoV {
    pub name: Seq<char>,
    pub def_span: Span,
    pub kind: SymbolKind,
    pub func_depth: int,
}

impl View for SymbolInfo {
    type V = SymbolInfoV;

    open spec fn view(&self) -> SymbolInfoV {
        SymbolInfoV {
            name: self.name@,
            def_span: self.def_span,
            kind: self.kind,
            func_depth: self.func_depth as int,
        }
    }
}

/// What a resolved name use refers to.
#[derive(Clone, Debug, PartialEq)]
pub enum Binding {
    /// A param/local/loop-var defined in the current function.
    Local(SymbolId),
    /// A symbol captured from an enclosing function (closure upvalue).
    Upvalue(SymbolId),
    /// A top-level function declaration.
    TopFunction(String),
    /// A top-level constant declaration.
    TopConst(String),
    /// A language builtin.
    Builtin(&'static str),
    /// A host-registered function.
    HostFunction(String),
    /// A host memory handle.
    Memory(String),
}

pub ghost enum BindingV {
    Local(SymbolId),
    Upvalue(SymbolId),
    TopFunction(Seq<char>),
    TopConst(Seq<char>),
    Builtin(Seq<char>),
    HostFunction(Seq<char>),
    Memory(Seq<char>),
}

impl View for Binding {
    type V = BindingV;

    open spec fn view(&self) -> BindingV {
        match self {
            Binding::Local(id) => BindingV::Local(*id),
            Binding::Upvalue(id) => BindingV::Upvalue(*id),
            Binding::TopFunction(n) => BindingV::TopFunction(n@),
            Binding::TopConst(n) => BindingV::TopConst(n@),
            Binding::Builtin(n) => BindingV::Builtin(n@),
            Binding::HostFunction(n) => BindingV::HostFunction(n@),
            Binding::Memory(n) => BindingV::Memory(n@),
        }
    }
}

/// The counterparts of a list of symbols.
pub open spec fn symbols_v(v: Seq<SymbolInfo>) -> Seq<SymbolInfoV> {
    Seq::new(v.len(), |i: int| v[i]@)
}

/// The result of resolving a module.
#[derive(Debug)]
pub struct Resolution {
    /// Each name-use span mapped to its binding.
    pub bindings: SpanMap<Binding>,
    /// All in-function symbol definitions, indexed by [`SymbolId`].
    pub symbols: Vec<SymbolInfo>,
}

pub ghost struct ResolutionV {
    pub bindings: Map<Span, BindingV>,
    pub symbols: Seq<SymbolInfoV>,
}

impl View for Resolution {
    type V = ResolutionV;

    open spec fn view(&self) -> ResolutionV {
        ResolutionV { bindings: self.bindings@, symbols: symbols_v(self.symbols@) }
    }
}

/// The last of the first `n` symbols that is defined at `span`.
pub open spec fn symbol_at(symbols: Seq<SymbolInfoV>, span: Span, n: int) -> Option<int>
    decreases n,
{
    if n <= 0 {
        None
    } else if symbols[n - 1].def_span == span {
        Some(n - 1)
    } else {
        symbol_at(symbols, span, n - 1)
    }
}

impl ResolutionV {
    /// The symbol defined at `span`.
    pub open spec fn def_of(self, span: Span) -> Option<SymbolId> {
        match symbol_at(self.symbols, span, self.symbols.len() as int) {
            Some(i) => Some(i as u32),
            None => None,
        }
    }

    /// The binding of the name use at `span`.
    pub open spec fn binding_of(self, span: Span) -> Option<BindingV> {
        if self.bindings.dom().contains(span) {
            Some(self.bindings[span])
        } else {
            None
        }
    }
}

impl Resolution {
    /// Look up the binding recorded for a name use at `span`.
    pub fn binding(&self, span: Span) -> (r: Option<&Binding>)
        ensures
            match r {
                Some(b) => self@.binding_of(span) == Some(b@),
                None => self@.binding_of(span) is None,
            },
    {
        self.bindings.get(span)
    }

    /// The symbol whose definition stands at `span`.
    pub fn def(&self, span: Span) -> (r: Option<SymbolId>)
        ensures
            r == self@.def_of(span),
    {
        let mut n: usize = self.symbols.len();
        while n > 0
            invariant
                n <= self.symbols@.len(),
                symbol_at(self@.symbols, span, n as int) == symbol_at(
                    self@.symbols,
                    span,
                    self@.symbols.len() as int,
                ),
            decreases n,
        {
            if self.symbols[n - 1].def_span == span {
                return Some(#[verifier::truncate] ((n - 1) as u32));
            }
            n -= 1;
        }
        None
    }
}

/// One block's names with the symbols they stand for, oldest first.
pub type NamesV = Seq<(Seq<char>, SymbolId)>;

/// The blocks of one function, outermost first.
pub type FuncScopeV = Seq<NamesV>;

/// What the resolver knows at one point of its walk.
pub ghost struct State {
    pub top_funcs: Seq<Seq<char>>,
    pub top_consts: Seq<Seq<char>>,
    pub funcs: Seq<FuncScopeV>,
    pub symbols: Seq<SymbolInfoV>,
    pub bindings: Map<Span, BindingV>,
    pub in_loop: bool,
    pub diags: Seq<DiagnosticV>,
}

/// The builtin value names available in every script. `ipairs` and `pairs` are absent:
/// they are only legal as generic-`for` iterators.
pub open spec fn is_builtin(name: Seq<char>) -> bool {
    name == "math"@ || name == "string"@ || name == "tostring"@ || name == "tonumber"@
}

/// Whether `name` is one of the generic-`for` iterators.
pub open spec fn is_iterator(name: Seq<char>) -> bool {
    name == "ipairs"@ || name == "pairs"@
}

/// The newest of the first `n` entries for `name`.
pub open spec fn find_name(names: NamesV, name: Seq<char>, n: int) -> Option<SymbolId>
    decreases n,
{
    if n <= 0 {
        None
    } else if names[n - 1].0 == name {
        Some(names[n - 1].1)
    } else {
        find_name(names, name, n - 1)
    }
}

/// The innermost of the first `n` blocks that knows `name`.
pub open spec fn find_in_blocks(f: FuncScopeV, name: Seq<char>, n: int) -> Option<SymbolId>
    decreases n,
{
    if n <= 0 {
        None
    } else {
        match find_name(f[n - 1], name, f[n - 1].len() as int) {
            Some(id) => Some(id),
            None => find_in_blocks(f, name, n - 1),
        }
    }
}

/// The symbol for `name` in the innermost of the first `n` functions that knows it, as a
/// local of the last function or a captured one of an enclosing function.
pub open spec fn find_in_funcs(fs: Seq<FuncScopeV>, name: Seq<char>, n: int) -> Option<BindingV>
    decreases n,
{
    if n <= 0 {
        None
    } else {
        match find_in_blocks(fs[n - 1], name, fs[n - 1].len() as int) {
            Some(id) => Some(
                if n == fs.len() {
                    BindingV::Local(id)
                } else {
                    BindingV::Upvalue(id)
                },
            ),
            None => find_in_funcs(fs, name, n - 1),
        }
    }
}

/// What `name` refers to, if anything.
#[verifier::opaque]
pub open spec fn lookup_of(st: State, cfg: ResolveConfigV, name: Seq<char>) -> Option<BindingV> {
    match find_in_funcs(st.funcs, name, st.funcs.len() as int) {
        Some(b) => Some(b),
        None => if st.top_funcs.contains(name) {
            Some(BindingV::TopFunction(name))
        } else if st.top_consts.contains(name) {
            Some(BindingV::TopConst(name))
        } else if is_builtin(name) {
            Some(BindingV::Builtin(name))
        } else if cfg.host_functions.contains(name) {
            Some(BindingV::HostFunction(name))
        } else if cfg.memory.contains(name) {
            Some(BindingV::Memory(name))
        } else {
            None
        },
    }
}

impl State {
    pub open spec fn error(self, code: Seq<char>, msg: Seq<char>, span: Span) -> State {
        State { diags: self.diags.push(error_at(code, msg, span)), ..self }
    }

    pub open spec fn bind(self, span: Span, b: BindingV) -> State {
        State { bindings: self.bindings.insert(span, b), ..self }
    }

    pub open spec fn enter_function(self) -> State {
        State { funcs: self.funcs.push(seq![Seq::empty()]), ..self }
    }

    pub open spec fn exit_function(self) -> State {
        State { funcs: self.funcs.drop_last(), ..self }
    }

    pub open spec fn push_block(self) -> State {
        State {
            funcs: self.funcs.drop_last().push(self.funcs.last().push(Seq::empty())),
            ..self
        }
    }

    pub open spec fn pop_block(self) -> State {
        State { funcs: self.funcs.drop_last().push(self.funcs.last().drop_last()), ..self }
    }

    pub open spec fn looping(self, in_loop: bool) -> State {
        State { in_loop, ..self }
    }

    /// A new symbol in the innermost block.
    pub open spec fn declare(self, name: Seq<char>, span: Span, kind: SymbolKind) -> State {
        let f = self.funcs.last();
        State {
            symbols: self.symbols.push(
                SymbolInfoV {
                    name,
                    def_span: span,
                    kind,
                    func_depth: self.funcs.len() - 1,
                },
            ),
            funcs: self.funcs.drop_last().push(
                f.drop_last().push(f.last().push((name, self.symbols.len() as u32))),
            ),
            ..self
        }
    }

    pub open spec fn add_top(self, is_func: bool, name: Seq<char>) -> State {
        if is_func {
            State { top_funcs: self.top_funcs.push(name), ..self }
        } else {
            State { top_consts: self.top_consts.push(name), ..self }
        }
    }
}

/// New symbols for the names from `i` on.
#[verifier::opaque]
pub open spec fn r_declare(st: State, names: Seq<IdentV>, kind: SymbolKind, i: int) -> State
    decreases names.len() - i,
{
    if i < 0 || i >= names.len() {
        st
    } else {
        r_declare(st.declare(names[i].node, names[i].span, kind), names, kind, i + 1)
    }
}

/// A name use.
pub open spec fn r_name(st: State, cfg: ResolveConfigV, name: Seq<char>, span: Span) -> State {
    match lookup_of(st, cfg, name) {
        Some(b) => st.bind(span, b),
        None => if is_iterator(name) {
            st.error(
                "E0301"@,
                "`"@ + name + "` may only be used as a generic `for` iterator"@,
                span,
            )
        } else {
            st.error("E0300"@, "cannot find name `"@ + name + "` in this scope"@, span)
        },
    }
}

#[verifier::opaque]
pub open spec fn r_expr(st: State, cfg: ResolveConfigV, e: ExprV) -> State
    decreases e, 0int,
{
    match e.kind {
        ExprKindV::Nil | ExprKindV::Bool(_) | ExprKindV::Number(_) | ExprKindV::Str(_) => st,
        ExprKindV::Name(n) => r_name(st, cfg, n, e.span),
        ExprKindV::Index { base, index } => r_expr(r_expr(st, cfg, *base), cfg, *index),
        ExprKindV::Field { base, name } => r_expr(st, cfg, *base),
        ExprKindV::Call { callee, args } => r_exprs(r_expr(st, cfg, *callee), cfg, args, 0),
        ExprKindV::MethodCall { receiver, method, args } => r_exprs(
            r_expr(st, cfg, *receiver),
            cfg,
            args,
            0,
        ),
        ExprKindV::Table(fields) => r_fields(st, cfg, fields, 0),
        ExprKindV::Binary { op, lhs, rhs } => r_expr(r_expr(st, cfg, *lhs), cfg, *rhs),
        ExprKindV::Unary { op, operand } => r_expr(st, cfg, *operand),
        ExprKindV::Paren(inner) => r_expr(st, cfg, *inner),
        ExprKindV::Function(body) => r_func(st, cfg, body),
    }
}

/// The expressions from `i` on.
#[verifier::opaque]
pub open spec fn r_exprs(st: State, cfg: ResolveConfigV, es: Seq<ExprV>, i: int) -> State
    decreases es, es.len() - i,
{
    if i < 0 || i >= es.len() {
        st
    } else {
        r_exprs(r_expr(st, cfg, es[i]), cfg, es, i + 1)
    }
}

/// A table field: its key, if computed, and its value.
#[verifier::opaque]
pub open spec fn r_field(st: State, cfg: ResolveConfigV, f: FieldV) -> State
    decreases f, 0int,
{
    match f {
        FieldV::Positional(e) => r_expr(st, cfg, e),
        FieldV::Named { name, value } => r_expr(st, cfg, value),
        FieldV::Keyed { key, value } => r_expr(r_expr(st, cfg, key), cfg, value),
    }
}

/// The table fields from `i` on.
#[verifier::opaque]
pub open spec fn r_fields(st: State, cfg: ResolveConfigV, fs: Seq<FieldV>, i: int) -> State
    decreases fs, fs.len() - i,
{
    if i < 0 || i >= fs.len() {
        st
    } else {
        r_fields(r_field(st, cfg, fs[i]), cfg, fs, i + 1)
    }
}

/// A function body, in a scope of its own; `break` does not cross its boundary.
#[verifier::opaque]
pub open spec fn r_func(st: State, cfg: ResolveConfigV, body: FuncBodyV) -> State
    decreases body, 0int,
{
    let inner = r_declare(st.enter_function(), body.params, SymbolKind::Param, 0).looping(false);
    r_stats(inner, cfg, body.block).looping(st.in_loop).exit_function()
}

/// A block in a fresh nested scope.
#[verifier::opaque]
pub open spec fn r_block(st: State, cfg: ResolveConfigV, b: BlockV) -> State
    decreases b, 1int,
{
    r_stats(st.push_block(), cfg, b).pop_block()
}

/// The body of a loop.
#[verifier::opaque]
pub open spec fn r_loop(st: State, cfg: ResolveConfigV, b: BlockV) -> State
    decreases b, 2int,
{
    r_block(st.looping(true), cfg, b).looping(st.in_loop)
}

/// The statements of a block in the current scope.
#[verifier::opaque]
pub open spec fn r_stats(st: State, cfg: ResolveConfigV, b: BlockV) -> State
    decreases b, 0int,
{
    let s = r_stat_list(st, cfg, b.stats, 0);
    match b.ret {
        Some(r) => r_exprs(s, cfg, r.exprs, 0),
        None => s,
    }
}

/// The statements from `i` on.
#[verifier::opaque]
pub open spec fn r_stat_list(st: State, cfg: ResolveConfigV, ss: Seq<StatV>, i: int) -> State
    decreases ss, ss.len() - i,
{
    if i < 0 || i >= ss.len() {
        st
    } else {
        r_stat_list(r_stat(st, cfg, ss[i]), cfg, ss, i + 1)
    }
}

/// The arms of a conditional from `i` on.
#[verifier::opaque]
pub open spec fn r_arms(st: State, cfg: ResolveConfigV, arms: Seq<(ExprV, BlockV)>, i: int) -> State
    decreases arms, arms.len() - i,
{
    if i < 0 || i >= arms.len() {
        st
    } else {
        r_arms(r_block(r_expr(st, cfg, arms[i].0), cfg, arms[i].1), cfg, arms, i + 1)
    }
}

#[verifier::opaque]
pub open spec fn r_stat(st: State, cfg: ResolveConfigV, s: StatV) -> State
    decreases s, 0int,
{
    match s.kind {
        StatKindV::Empty => st,
        StatKindV::Local { names, exprs } => r_declare(
            r_exprs(st, cfg, exprs, 0),
            names,
            SymbolKind::Local,
            0,
        ),
        StatKindV::LocalFunction { name, body } => r_func(
            st.declare(name.node, name.span, SymbolKind::Local),
            cfg,
            body,
        ),
        StatKindV::Assign { targets, exprs } => r_targets(
            r_exprs(st, cfg, exprs, 0),
            cfg,
            targets,
            0,
        ),
        StatKindV::Call(e) => r_expr(st, cfg, e),
        StatKindV::Do(b) => r_block(st, cfg, b),
        StatKindV::While { cond, body } => r_loop(r_expr(st, cfg, cond), cfg, body),
        StatKindV::If { arms, else_block } => {
            let t = r_arms(st, cfg, arms, 0);
            match else_block {
                Some(b) => r_block(t, cfg, b),
                None => t,
            }
        },
        StatKindV::NumericFor { var, start, end, step, body } => {
            let a = r_expr(r_expr(st, cfg, start), cfg, end);
            let b = match step {
                Some(x) => r_expr(a, cfg, x),
                None => a,
            };
            let c = b.push_block().declare(var.node, var.span, SymbolKind::LoopVar);
            r_loop(c, cfg, body).pop_block()
        },
        StatKindV::GenericFor { names, iter, body } => {
            let a = match iter {
                IterExprV::IPairs { arg, span } => r_expr(st, cfg, arg),
                IterExprV::Pairs { arg, span } => r_expr(st, cfg, arg),
            };
            let c = r_declare(a.push_block(), names, SymbolKind::LoopVar, 0);
            r_loop(c, cfg, body).pop_block()
        },
        StatKindV::Break => if st.in_loop {
            st
        } else {
            st.error("E0306"@, "`break` outside of a loop"@, s.span)
        },
    }
}

/// The assignment targets from `i` on.
#[verifier::opaque]
pub open spec fn r_targets(st: State, cfg: ResolveConfigV, ts: Seq<ExprV>, i: int) -> State
    decreases ts, ts.len() - i,
{
    if i < 0 || i >= ts.len() {
        st
    } else {
        r_targets(r_target(st, cfg, ts[i]), cfg, ts, i + 1)
    }
}

/// The name at the root of a chain of field accesses, indexings and parentheses.
pub open spec fn root_name(e: ExprV) -> Option<Seq<char>>
    decreases e,
{
    match e.kind {
        ExprKindV::Name(n) => Some(n),
        ExprKindV::Field { base, name } => root_name(*base),
        ExprKindV::Index { base, index } => root_name(*base),
        ExprKindV::Paren(inner) => root_name(*inner),
        _ => None,
    }
}

/// Constants are immutable throughout: a write through one is refused.
pub open spec fn r_frozen(st: State, cfg: ResolveConfigV, base: ExprV, span: Span) -> State {
    match root_name(base) {
        Some(n) => match lookup_of(st, cfg, n) {
            Some(BindingV::TopConst(c)) => st.error(
                "E0307"@,
                "cannot write through `"@ + c + "`: a top-level constant is immutable"@,
                span,
            ),
            _ => st,
        },
        None => st,
    }
}

/// An assignment target.
#[verifier::opaque]
pub open spec fn r_target(st: State, cfg: ResolveConfigV, e: ExprV) -> State
    decreases e, 1int,
{
    match e.kind {
        ExprKindV::Name(n) => match lookup_of(st, cfg, n) {
            Some(BindingV::Local(id)) => st.bind(e.span, BindingV::Local(id)),
            Some(BindingV::Upvalue(id)) => st.bind(e.span, BindingV::Upvalue(id)),
            Some(_) => st.error(
                "E0302"@,
                "cannot assign to `"@ + n
                    + "`: it is an immutable binding (top-level declaration, builtin, host function, or memory handle)"@,
                e.span,
            ),
            None => if is_iterator(n) {
                st.error(
                    "E0301"@,
                    "`"@ + n + "` may only be used as a generic `for` iterator"@,
                    e.span,
                )
            } else {
                st.error(
                    "E0300"@,
                    "cannot find name `"@ + n
                        + "` in this scope; assigning to an undeclared name would create a global, which is not allowed"@,
                    e.span,
                )
            },
        },
        ExprKindV::Field { base, name } => r_frozen(r_expr(st, cfg, *base), cfg, *base, e.span),
        ExprKindV::Index { base, index } => r_frozen(
            r_expr(r_expr(st, cfg, *base), cfg, *index),
            cfg,
            *base,
            e.span,
        ),
        _ => r_expr(st, cfg, e),
    }
}

/// Whether an expression is compile-time constant: literals, table constructors of
/// constants, and operators over them.
#[verifier::opaque]
pub open spec fn is_constant(e: ExprV) -> bool
    decreases e, 0int,
{
    match e.kind {
        ExprKindV::Nil | ExprKindV::Bool(_) | ExprKindV::Number(_) | ExprKindV::Str(_) => true,
        ExprKindV::Paren(inner) => is_constant(*inner),
        ExprKindV::Unary { op, operand } => is_constant(*operand),
        ExprKindV::Binary { op, lhs, rhs } => is_constant(*lhs) && is_constant(*rhs),
        ExprKindV::Table(fields) => constant_fields(fields, fields.len() as int),
        _ => false,
    }
}

/// Whether the first `n` fields are constant.
#[verifier::opaque]
pub open spec fn constant_fields(fs: Seq<FieldV>, n: int) -> bool
    decreases fs, n,
{
    if n <= 0 || n > fs.len() {
        true
    } else {
        constant_fields(fs, n - 1) && match fs[n - 1] {
            FieldV::Positional(e) => is_constant(e),
            FieldV::Named { name, value } => is_constant(value),
            FieldV::Keyed { key, value } => is_constant(key) && is_constant(value),
        }
    }
}

/// Check that an initializer is compile-time constant.
#[verifier::opaque]
pub open spec fn r_const(st: State, e: ExprV) -> State
    decreases e, 0int,
{
    match e.kind {
        ExprKindV::Nil | ExprKindV::Bool(_) | ExprKindV::Number(_) | ExprKindV::Str(_) => st,
        ExprKindV::Paren(inner) => r_const(st, *inner),
        ExprKindV::Unary { op, operand } => r_const(st, *operand),
        ExprKindV::Binary { op, lhs, rhs } => r_const(r_const(st, *lhs), *rhs),
        ExprKindV::Table(fields) => r_const_fields(st, fields, 0),
        _ => st.error(
            "E0303"@,
            "constant declarations may only contain literal values, table constructors of constants, and operators over them; names, calls, and indexing are not allowed"@,
            e.span,
        ),
    }
}

/// The fields of a constant table from `i` on.
#[verifier::opaque]
pub open spec fn r_const_fields(st: State, fs: Seq<FieldV>, i: int) -> State
    decreases fs, fs.len() - i,
{
    if i < 0 || i >= fs.len() {
        st
    } else {
        r_const_fields(
            match fs[i] {
                FieldV::Positional(e) => r_const(st, e),
                FieldV::Named { name, value } => r_const(st, value),
                FieldV::Keyed { key, value } => r_const(r_const(st, key), value),
            },
            fs,
            i + 1,
        )
    }
}

/// Why `name` is reserved, or `None`.
pub open spec fn reserved_of(cfg: ResolveConfigV, name: Seq<char>) -> Option<Seq<char>> {
    if is_builtin(name) || is_iterator(name) {
        Some("the builtin `"@ + name + "`"@)
    } else if cfg.host_functions.contains(name) {
        Some("the host function `"@ + name + "`"@)
    } else if cfg.memory.contains(name) {
        Some("the host memory binding `"@ + name + "`"@)
    } else {
        None
    }
}

pub open spec fn decl_name(d: TopDeclV) -> IdentV {
    match d {
        TopDeclV::Function(f) => f.name,
        TopDeclV::Const(c) => c.name,
    }
}

/// Register one top-level name, refusing reserved names and duplicates.
pub open spec fn r_register(st: State, cfg: ResolveConfigV, d: TopDeclV) -> State {
    let name = decl_name(d).node;
    let span = decl_name(d).span;
    let a = match reserved_of(cfg, name) {
        Some(reason) => st.error(
            "E0304"@,
            "top-level declaration `"@ + name + "` shadows "@ + reason,
            span,
        ),
        None => st,
    };
    let b = if a.top_funcs.contains(name) || a.top_consts.contains(name) {
        a.error("E0305"@, "duplicate top-level declaration `"@ + name + "`"@, span)
    } else {
        a
    };
    b.add_top(d is Function, name)
}

/// Register the top-level names from `i` on.
#[verifier::opaque]
pub open spec fn r_registers(st: State, cfg: ResolveConfigV, ds: Seq<TopDeclV>, i: int) -> State
    decreases ds.len() - i,
{
    if i < 0 || i >= ds.len() {
        st
    } else {
        r_registers(r_register(st, cfg, ds[i]), cfg, ds, i + 1)
    }
}

/// Check the declarations from `i` on.
#[verifier::opaque]
pub open spec fn r_decls(st: State, cfg: ResolveConfigV, ds: Seq<TopDeclV>, i: int) -> State
    decreases ds.len() - i,
{
    if i < 0 || i >= ds.len() {
        st
    } else {
        r_decls(
            match ds[i] {
                TopDeclV::Const(c) => r_const(st, c.value),
                TopDeclV::Function(f) => r_func(st, cfg, f.body),
            },
            cfg,
            ds,
            i + 1,
        )
    }
}

pub open spec fn start_state() -> State {
    State {
        top_funcs: Seq::empty(),
        top_consts: Seq::empty(),
        funcs: Seq::empty(),
        symbols: Seq::empty(),
        bindings: Map::empty(),
        in_loop: false,
        diags: Seq::empty(),
    }
}

/// The state after a whole module: every top-level name is registered first, so that
/// functions see each other; then initializers and bodies are checked; last comes the
/// export table.
pub open spec fn r_module(m: ModuleV, cfg: ResolveConfigV) -> State {
    let a = r_registers(start_state(), cfg, m.decls, 0);
    let b = r_decls(a, cfg, m.decls, 0);
    match m.export {
        Some(e) => r_fields(b, cfg, e.node, 0),
        None => b,
    }
}

/// What resolving a module yields.
pub open spec fn resolve_of(m: ModuleV, cfg: ResolveConfigV) -> Result<
    ResolutionV,
    Seq<DiagnosticV>,
> {
    let st = r_module(m, cfg);
    if any_error(st.diags) {
        Err(st.diags)
    } else {
        Ok(ResolutionV { bindings: st.bindings, symbols: st.symbols })
    }
}

pub proof fn unfold_r_declare(st: State, names: Seq<IdentV>, kind: SymbolKind, i: int)
    ensures
        r_declare(st, names, kind, i) == ({
            if i < 0 || i >= names.len() {
                st
            } else {
                r_declare(st.declare(names[i].node, names[i].span, kind), names, kind, i + 1)
            }
        }),
{
    reveal(r_declare);
}

pub proof fn unfold_r_expr(st: State, cfg: ResolveConfigV, e: ExprV)
    ensures
        r_expr(st, cfg, e) == ({
            match e.kind {
                ExprKindV::Nil | ExprKindV::Bool(_) | ExprKindV::Number(_) | ExprKindV::Str(_) => st,
                ExprKindV::Name(n) => r_name(st, cfg, n, e.span),
                ExprKindV::Index { base, index } => r_expr(r_expr(st, cfg, *base), cfg, *index),
                ExprKindV::Field { base, name } => r_expr(st, cfg, *base),
                ExprKindV::Call { callee, args } => r_exprs(r_expr(st, cfg, *callee), cfg, args, 0),
                ExprKindV::MethodCall { receiver, method, args } => r_exprs(
                    r_expr(st, cfg, *receiver),
                    cfg,
                    args,
                    0,
                ),
                ExprKindV::Table(fields) => r_fields(st, cfg, fields, 0),
                ExprKindV::Binary { op, lhs, rhs } => r_expr(r_expr(st, cfg, *lhs), cfg, *rhs),
                ExprKindV::Unary { op, operand } => r_expr(st, cfg, *operand),
                ExprKindV::Paren(inner) => r_expr(st, cfg, *inner),
                ExprKindV::Function(body) => r_func(st, cfg, body),
            }
        }),
{
    reveal(r_expr);
    reveal(r_exprs);
    reveal(r_fields);
    reveal(r_func);
}

pub proof fn unfold_r_exprs(st: State, cfg: ResolveConfigV, es: Seq<ExprV>, i: int)
    ensures
        r_exprs(st, cfg, es, i) == ({
            if i < 0 || i >= es.len() {
                st
            } else {
                r_exprs(r_expr(st, cfg, es[i]), cfg, es, i + 1)
            }
        }),
{
    reveal(r_exprs);
    reveal(r_expr);
}

pub proof fn unfold_r_field(st: State, cfg: ResolveConfigV, f: FieldV)
    ensures
        r_field(st, cfg, f) == ({
            match f {
                FieldV::Positional(e) => r_expr(st, cfg, e),
                FieldV::Named { name, value } => r_expr(st, cfg, value),
                FieldV::Keyed { key, value } => r_expr(r_expr(st, cfg, key), cfg, value),
            }
        }),
{
    reveal(r_field);
    reveal(r_expr);
}

pub proof fn unfold_r_fields(st: State, cfg: ResolveConfigV, fs: Seq<FieldV>, i: int)
    ensures
        r_fields(st, cfg, fs, i) == ({
            if i < 0 || i >= fs.len() {
                st
            } else {
                r_fields(r_field(st, cfg, fs[i]), cfg, fs, i + 1)
            }
        }),
{
    reveal(r_fields);
    reveal(r_field);
}

pub proof fn unfold_r_func(st: State, cfg: ResolveConfigV, body: FuncBodyV)
    ensures
        r_func(st, cfg, body) == ({
            let inner = r_declare(st.enter_function(), body.params, SymbolKind::Param, 0).looping(false);
            r_stats(inner, cfg, body.block).looping(st.in_loop).exit_function()
        }),
{
    reveal(r_func);
    reveal(r_declare);
    reveal(r_stats);
}

pub proof fn unfold_r_block(st: State, cfg: ResolveConfigV, b: BlockV)
    ensures
        r_block(st, cfg, b) == ({
            r_stats(st.push_block(), cfg, b).pop_block()
        }),
{
    reveal(r_block);
    reveal(r_stats);
}

pub proof fn unfold_r_loop(st: State, cfg: ResolveConfigV, b: BlockV)
    ensures
        r_loop(st, cfg, b) == ({
            r_block(st.looping(true), cfg, b).looping(st.in_loop)
        }),
{
    reveal(r_loop);
    reveal(r_block);
}

pub proof fn unfold_r_stats(st: State, cfg: ResolveConfigV, b: BlockV)
    ensures
        r_stats(st, cfg, b) == ({
            let s = r_stat_list(st, cfg, b.stats, 0);
            match b.ret {
                Some(r) => r_exprs(s, cfg, r.exprs, 0),
                None => s,
            }
        }),
{
    reveal(r_stats);
    reveal(r_exprs);
    reveal(r_stat_list);
}

pub proof fn unfold_r_stat_list(st: State, cfg: ResolveConfigV, ss: Seq<StatV>, i: int)
    ensures
        r_stat_list(st, cfg, ss, i) == ({
            if i < 0 || i >= ss.len() {
                st
            } else {
                r_stat_list(r_stat(st, cfg, ss[i]), cfg, ss, i + 1)
            }
        }),
{
    reveal(r_stat_list);
    reveal(r_stat);
}

pub proof fn unfold_r_arms(st: State, cfg: ResolveConfigV, arms: Seq<(ExprV, BlockV)>, i: int)
    ensures
        r_arms(st, cfg, arms, i) == ({
            if i < 0 || i >= arms.len() {
                st
            } else {
                r_arms(r_block(r_expr(st, cfg, arms[i].0), cfg, arms[i].1), cfg, arms, i + 1)
            }
        }),
{
    reveal(r_arms);
    reveal(r_expr);
    reveal(r_block);
}

pub proof fn unfold_r_stat(st: State, cfg: ResolveConfigV, s: StatV)
    ensures
        r_stat(st, cfg, s) == ({
            match s.kind {
                StatKindV::Empty => st,
                StatKindV::Local { names, exprs } => r_declare(
                    r_exprs(st, cfg, exprs, 0),
                    names,
                    SymbolKind::Local,
                    0,
                ),
                StatKindV::LocalFunction { name, body } => r_func(
                    st.declare(name.node, name.span, SymbolKind::Local),
                    cfg,
                    body,
                ),
                StatKindV::Assign { targets, exprs } => r_targets(
                    r_exprs(st, cfg, exprs, 0),
                    cfg,
                    targets,
                    0,
                ),
                StatKindV::Call(e) => r_expr(st, cfg, e),
                StatKindV::Do(b) => r_block(st, cfg, b),
                StatKindV::While { cond, body } => r_loop(r_expr(st, cfg, cond), cfg, body),
                StatKindV::If { arms, else_block } => {
                    let t = r_arms(st, cfg, arms, 0);
                    match else_block {
                        Some(b) => r_block(t, cfg, b),
                        None => t,
                    }
                },
                StatKindV::NumericFor { var, start, end, step, body } => {
                    let a = r_expr(r_expr(st, cfg, start), cfg, end);
                    let b = match step {
                        Some(x) => r_expr(a, cfg, x),
                        None => a,
                    };
                    let c = b.push_block().declare(var.node, var.span, SymbolKind::LoopVar);
                    r_loop(c, cfg, body).pop_block()
                },
                StatKindV::GenericFor { names, iter, body } => {
                    let a = match iter {
                        IterExprV::IPairs { arg, span } => r_expr(st, cfg, arg),
                        IterExprV::Pairs { arg, span } => r_expr(st, cfg, arg),
                    };
                    let c = r_declare(a.push_block(), names, SymbolKind::LoopVar, 0);
                    r_loop(c, cfg, body).pop_block()
                },
                StatKindV::Break => if st.in_loop {
                    st
                } else {
                    st.error("E0306"@, "`break` outside of a loop"@, s.span)
                },
            }
        }),
{
    reveal(r_stat);
    reveal(r_declare);
    reveal(r_expr);
    reveal(r_exprs);
    reveal(r_func);
    reveal(r_block);
    reveal(r_loop);
    reveal(r_arms);
    reveal(r_targets);
}

pub proof fn unfold_r_targets(st: State, cfg: ResolveConfigV, ts: Seq<ExprV>, i: int)
    ensures
        r_targets(st, cfg, ts, i) == ({
            if i < 0 || i >= ts.len() {
                st
            } else {
                r_targets(r_target(st, cfg, ts[i]), cfg, ts, i + 1)
            }
        }),
{
    reveal(r_targets);
    reveal(r_target);
}

pub proof fn unfold_r_target(st: State, cfg: ResolveConfigV, e: ExprV)
    ensures
        r_target(st, cfg, e) == ({
            match e.kind {
                ExprKindV::Name(n) => match lookup_of(st, cfg, n) {
                    Some(BindingV::Local(id)) => st.bind(e.span, BindingV::Local(id)),
                    Some(BindingV::Upvalue(id)) => st.bind(e.span, BindingV::Upvalue(id)),
                    Some(_) => st.error(
                        "E0302"@,
                        "cannot assign to `"@ + n
                            + "`: it is an immutable binding (top-level declaration, builtin, host function, or memory handle)"@,
                        e.span,
                    ),
                    None => if is_iterator(n) {
                        st.error(
                            "E0301"@,
                            "`"@ + n + "` may only be used as a generic `for` iterator"@,
                            e.span,
                        )
                    } else {
                        st.error(
                            "E0300"@,
                            "cannot find name `"@ + n
                                + "` in this scope; assigning to an undeclared name would create a global, which is not allowed"@,
                            e.span,
                        )
                    },
                },
                ExprKindV::Field { base, name } => r_frozen(r_expr(st, cfg, *base), cfg, *base, e.span),
                ExprKindV::Index { base, index } => r_frozen(
                    r_expr(r_expr(st, cfg, *base), cfg, *index),
                    cfg,
                    *base,
                    e.span,
                ),
                _ => r_expr(st, cfg, e),
            }
        }),
{
    reveal(r_target);
    reveal(lookup_of);
    reveal(r_expr);
}

pub proof fn unfold_is_constant(e: ExprV)
    ensures
        is_constant(e) == ({
            match e.kind {
                ExprKindV::Nil | ExprKindV::Bool(_) | ExprKindV::Number(_) | ExprKindV::Str(_) => true,
                ExprKindV::Paren(inner) => is_constant(*inner),
                ExprKindV::Unary { op, operand } => is_constant(*operand),
                ExprKindV::Binary { op, lhs, rhs } => is_constant(*lhs) && is_constant(*rhs),
                ExprKindV::Table(fields) => constant_fields(fields, fields.len() as int),
                _ => false,
            }
        }),
{
    reveal(is_constant);
    reveal(constant_fields);
}

pub proof fn unfold_constant_fields(fs: Seq<FieldV>, n: int)
    ensures
        constant_fields(fs, n) == ({
            if n <= 0 || n > fs.len() {
                true
            } else {
                constant_fields(fs, n - 1) && match fs[n - 1] {
                    FieldV::Positional(e) => is_constant(e),
                    FieldV::Named { name, value } => is_constant(value),
                    FieldV::Keyed { key, value } => is_constant(key) && is_constant(value),
                }
            }
        }),
{
    reveal(constant_fields);
    reveal(is_constant);
}

pub proof fn unfold_r_const(st: State, e: ExprV)
    ensures
        r_const(st, e) == ({
            match e.kind {
                ExprKindV::Nil | ExprKindV::Bool(_) | ExprKindV::Number(_) | ExprKindV::Str(_) => st,
                ExprKindV::Paren(inner) => r_const(st, *inner),
                ExprKindV::Unary { op, operand } => r_const(st, *operand),
                ExprKindV::Binary { op, lhs, rhs } => r_const(r_const(st, *lhs), *rhs),
                ExprKindV::Table(fields) => r_const_fields(st, fields, 0),
                _ => st.error(
                    "E0303"@,
                    "constant declarations may only contain literal values, table constructors of constants, and operators over them; names, calls, and indexing are not allowed"@,
                    e.span,
                ),
            }
        }),
{
    reveal(r_const);
    reveal(r_const_fields);
}

pub proof fn unfold_r_const_fields(st: State, fs: Seq<FieldV>, i: int)
    ensures
        r_const_fields(st, fs, i) == ({
            if i < 0 || i >= fs.len() {
                st
            } else {
                r_const_fields(
                    match fs[i] {
                        FieldV::Positional(e) => r_const(st, e),
                        FieldV::Named { name, value } => r_const(st, value),
                        FieldV::Keyed { key, value } => r_const(r_const(st, key), value),
                    },
                    fs,
                    i + 1,
                )
            }
        }),
{
    reveal(r_const_fields);
    reveal(r_const);
}

pub proof fn unfold_r_registers(st: State, cfg: ResolveConfigV, ds: Seq<TopDeclV>, i: int)
    ensures
        r_registers(st, cfg, ds, i) == ({
            if i < 0 || i >= ds.len() {
                st
            } else {
                r_registers(r_register(st, cfg, ds[i]), cfg, ds, i + 1)
            }
        }),
{
    reveal(r_registers);
}

pub proof fn unfold_r_decls(st: State, cfg: ResolveConfigV, ds: Seq<TopDeclV>, i: int)
    ensures
        r_decls(st, cfg, ds, i) == ({
            if i < 0 || i >= ds.len() {
                st
            } else {
                r_decls(
                    match ds[i] {
                        TopDeclV::Const(c) => r_const(st, c.value),
                        TopDeclV::Function(f) => r_func(st, cfg, f.body),
                    },
                    cfg,
                    ds,
                    i + 1,
                )
            }
        }),
{
    reveal(r_decls);
    reveal(r_func);
    reveal(r_const);
}

/// The number of blocks of each open function.
pub open spec fn depths(fs: Seq<FuncScopeV>) -> Seq<nat> {
    Seq::new(fs.len(), |i: int| fs[i].len())
}

/// Whether a binding names one of the first `n` symbols, or no symbol at all.
pub open spec fn binding_ok(b: BindingV, n: int) -> bool {
    match b {
        BindingV::Local(id) => id < n,
        BindingV::Upvalue(id) => id < n,
        _ => true,
    }
}

/// Whether every symbol that a binding or a name in scope stands for has been declared.
#[verifier::opaque]
pub open spec fn ids_ok(st: State) -> bool {
    &&& forall|s: Span|
        #![trigger st.bindings[s]]
        st.bindings.dom().contains(s) ==> binding_ok(st.bindings[s], st.symbols.len() as int)
    &&& forall|f: int, b: int, k: int|
        #![trigger st.funcs[f][b][k]]
        0 <= f < st.funcs.len() && 0 <= b < st.funcs[f].len() && 0 <= k < st.funcs[f][b].len()
            ==> st.funcs[f][b][k].1 < st.symbols.len()
}

/// `b` has at least the symbols of `a`, and still refers to declared symbols only.
pub open spec fn grown(a: State, b: State) -> bool {
    &&& a.symbols.len() <= b.symbols.len()
    &&& ids_ok(a) && b.symbols.len() <= u32::MAX ==> ids_ok(b)
}

/// Whether a function with at least one block is open.
pub open spec fn in_block(st: State) -> bool {
    st.funcs.len() > 0 && st.funcs.last().len() > 0
}

/// Resolve `module` against host configuration `cfg`.
///
/// Returns the [`Resolution`] on success, or every collected diagnostic on failure.
pub fn resolve(module: &Module, cfg: &ResolveConfig) -> (r: Result<Resolution, Diagnostics>)
    ensures
        match r {
            Ok(x) => resolve_of(module@, cfg@) == Ok::<ResolutionV, Seq<DiagnosticV>>(x@),
            Err(d) => resolve_of(module@, cfg@) == Err::<ResolutionV, Seq<DiagnosticV>>(d@),
        },
        // Every local or captured symbol that a name is bound to has been declared.
        r matches Ok(x) ==> x@.symbols.len() <= u32::MAX ==> forall|s: Span|
            x@.bindings.dom().contains(s) ==> binding_ok(
                #[trigger] x@.bindings[s],
                x@.symbols.len() as int,
            ),
{
    let mut r = Resolver::new(cfg);
    r.resolve_module(module);
    proof {
        reveal(Resolver::view);
        reveal(ids_ok);
        assert(ids_ok(start_state()));
    }
    if r.diags.has_errors() {
        Err(r.diags)
    } else {
        Ok(Resolution { bindings: r.bindings, symbols: r.symbols })
    }
}

struct BlockScope {
    names: Vec<(String, SymbolId)>,
}

struct FuncScope {
    blocks: Vec<BlockScope>,
}

spec fn names_v(v: Seq<(String, SymbolId)>) -> NamesV {
    Seq::new(v.len(), |i: int| (v[i].0@, v[i].1))
}

spec fn blocks_v(v: Seq<BlockScope>) -> FuncScopeV {
    Seq::new(v.len(), |i: int| names_v(v[i].names@))
}

spec fn funcs_v(v: Seq<FuncScope>) -> Seq<FuncScopeV> {
    Seq::new(v.len(), |i: int| blocks_v(v[i].blocks@))
}

struct Resolver<'a> {
    cfg: &'a ResolveConfig,
    top_funcs: Vec<String>,
    top_consts: Vec<String>,
    func_stack: Vec<FuncScope>,
    symbols: Vec<SymbolInfo>,
    bindings: SpanMap<Binding>,
    in_loop: bool,
    diags: Diagnostics,
}

/// Whether `name` is among the texts `v`.
pub fn contains_str(v: &Vec<String>, name: &str) -> (r: bool)
    ensures
        r == strs_v(v@).contains(name@),
{
    let mut i: usize = 0;
    while i < v.len()
        invariant
            i <= v@.len(),
            forall|k: int| 0 <= k < i ==> (#[trigger] strs_v(v@)[k]) != name@,
        decreases v@.len() - i,
    {
        if same(v[i].as_str(), name) {
            assert(strs_v(v@)[i as int] == name@);
            return true;
        }
        i += 1;
    }
    false
}

/// The builtin called `name`, if there is one.
pub fn builtin_named(name: &str) -> (r: Option<&'static str>)
    ensures
        match r {
            Some(b) => is_builtin(name@) && b@ == name@,
            None => !is_builtin(name@),
        },
{
    if same(name, "math") {
        Some("math")
    } else if same(name, "string") {
        Some("string")
    } else if same(name, "tostring") {
        Some("tostring")
    } else if same(name, "tonumber") {
        Some("tonumber")
    } else {
        None
    }
}

fn iterator_named(name: &str) -> (r: bool)
    ensures
        r == is_iterator(name@),
{
    same(name, "ipairs") || same(name, "pairs")
}

fn root_of(e: &Expr) -> (r: Option<String>)
    ensures
        match r {
            Some(n) => root_name(e@) == Some(n@),
            None => root_name(e@) is None,
        },
    decreases e,
{
    match &e.kind {
        ExprKind::Name(n) => Some(n.clone()),
        ExprKind::Field { base, .. } => root_of(base),
        ExprKind::Index { base, .. } => root_of(base),
        ExprKind::Paren(inner) => root_of(inner),
        _ => None,
    }
}

impl<'a> Resolver<'a> {
    #[verifier::opaque]
    spec fn view(&self) -> State {
        State {
            top_funcs: strs_v(self.top_funcs@),
            top_consts: strs_v(self.top_consts@),
            funcs: funcs_v(self.func_stack@),
            symbols: symbols_v(self.symbols@),
            bindings: self.bindings@,
            in_loop: self.in_loop,
            diags: self.diags@,
        }
    }

    fn new(cfg: &'a ResolveConfig) -> (r: Self)
        ensures
            r@ == start_state(),
            r.cfg == cfg,
    {
        proof {
            reveal(Resolver::view);
        }
        let r = Resolver {
            cfg,
            top_funcs: Vec::new(),
            top_consts: Vec::new(),
            func_stack: Vec::new(),
            symbols: Vec::new(),
            bindings: SpanMap::new(),
            in_loop: false,
            diags: Diagnostics::new(),
        };
        assert(r@.top_funcs =~= start_state().top_funcs);
        assert(r@.top_consts =~= start_state().top_consts);
        assert(r@.funcs =~= start_state().funcs);
        assert(r@.symbols =~= start_state().symbols);
        r
    }

    fn error(&mut self, code: &'static str, msg: String, span: Span)
        ensures
            final(self).cfg == old(self).cfg,
            final(self)@ == old(self)@.error(code@, msg@, span),
            grown(old(self)@, final(self)@),
    {
        proof {
            lemma_grown_simple(self@);
        }
        proof {
            reveal(Resolver::view);
        }
        self.diags.push(Diagnostic::error(code, msg, span));
    }

    fn bind(&mut self, span: Span, b: Binding)
        ensures
            final(self).cfg == old(self).cfg,
            final(self)@ == old(self)@.bind(span, b@),
            binding_ok(b@, old(self)@.symbols.len() as int) ==> grown(old(self)@, final(self)@),
            old(self)@.symbols == final(self)@.symbols,
    {
        proof {
            reveal(ids_ok);
        }
        proof {
            reveal(Resolver::view);
        }
        self.bindings.insert(span, b);
        proof {
            let a = old(self)@;
            let n = a.symbols.len() as int;
            if ids_ok(a) && binding_ok(b@, n) {
                assert forall|s: Span|
                    #![trigger self@.bindings[s]]
                    self@.bindings.dom().contains(s) implies binding_ok(self@.bindings[s], n) by {
                    if s != span {
                        assert(binding_ok(a.bindings[s], n));
                    }
                }
            }
        }
    }

    fn set_looping(&mut self, in_loop: bool) -> (r: bool)
        ensures
            final(self).cfg == old(self).cfg,
            final(self)@ == old(self)@.looping(in_loop),
            grown(old(self)@, final(self)@),
            r == old(self)@.in_loop,
    {
        proof {
            lemma_grown_simple(self@);
        }
        proof {
            reveal(Resolver::view);
        }
        let before: bool = self.in_loop;
        self.in_loop = in_loop;
        before
    }

    fn resolve_module(&mut self, module: &Module)
        requires
            old(self)@ == start_state(),
        ensures
            final(self)@ == r_module(module@, old(self).cfg@),
            grown(old(self)@, final(self)@),
    {
        let ghost cfg = self.cfg@;
        let ghost ds = module@.decls;
        // Collect every top-level name so functions are mutually in scope, while rejecting
        // duplicates and reserved-name shadowing.
        let mut i: usize = 0;
        while i < module.decls.len()
            invariant
                i <= module.decls@.len(),
                ds == module@.decls,
                cfg == old(self).cfg@,
                self.cfg == old(self).cfg,
                grown(old(self)@, self@),
                r_registers(self@, cfg, ds, i as int) == r_registers(start_state(), cfg, ds, 0),
            decreases module.decls@.len() - i,
        {
            proof {
                unfold_r_registers(self@, cfg, ds, i as int);
            }
            self.register(&module.decls[i]);
            i += 1;
        }
        proof {
            unfold_r_registers(self@, cfg, ds, i as int);
        }
        let ghost a = self@;
        // Validate constant initializers and resolve function bodies.
        i = 0;
        while i < module.decls.len()
            invariant
                i <= module.decls@.len(),
                ds == module@.decls,
                cfg == old(self).cfg@,
                self.cfg == old(self).cfg,
                grown(old(self)@, self@),
                r_decls(self@, cfg, ds, i as int) == r_decls(a, cfg, ds, 0),
            decreases module.decls@.len() - i,
        {
            proof {
                unfold_r_decls(self@, cfg, ds, i as int);
            }
            match &module.decls[i] {
                TopDecl::Const(c) => self.check_const_expr(&c.value),
                TopDecl::Function(f) => self.resolve_func_body(&f.body),
            }
            i += 1;
        }
        proof {
            unfold_r_decls(self@, cfg, ds, i as int);
        }
        // The curated export table references top-level names.
        if let Some(export) = &module.export {
            self.resolve_fields(&export.node);
        }
    }

    fn register(&mut self, decl: &TopDecl)
        ensures
            final(self).cfg == old(self).cfg,
            final(self)@ == r_register(old(self)@, old(self).cfg@, decl@),
            grown(old(self)@, final(self)@),
    {
        let (name, span, is_func) = match decl {
            TopDecl::Function(f) => (&f.name.node, f.name.span, true),
            TopDecl::Const(c) => (&c.name.node, c.name.span, false),
        };
        if let Some(reason) = self.reserved_reason(name.as_str()) {
            self.error(
                "E0304",
                cat4("top-level declaration `", name.as_str(), "` shadows ", reason.as_str()),
                span,
            );
        }
        if self.is_top(name.as_str()) {
            self.error(
                "E0305",
                cat3("duplicate top-level declaration `", name.as_str(), "`"),
                span,
            );
        }
        self.add_top(is_func, name.clone());
    }

    fn is_top(&self, name: &str) -> (r: bool)
        ensures
            r == (self@.top_funcs.contains(name@) || self@.top_consts.contains(name@)),
    {
        proof {
            reveal(Resolver::view);
        }
        contains_str(&self.top_funcs, name) || contains_str(&self.top_consts, name)
    }

    fn add_top(&mut self, is_func: bool, name: String)
        ensures
            final(self).cfg == old(self).cfg,
            final(self)@ == old(self)@.add_top(is_func, name@),
            grown(old(self)@, final(self)@),
    {
        proof {
            lemma_grown_simple(self@);
        }
        proof {
            reveal(Resolver::view);
        }
        if is_func {
            self.top_funcs.push(name);
            assert(self@.top_funcs =~= old(self)@.top_funcs.push(name@));
        } else {
            self.top_consts.push(name);
            assert(self@.top_consts =~= old(self)@.top_consts.push(name@));
        }
    }

    /// Why `name` is reserved (for the shadowing diagnostic), or `None`.
    fn reserved_reason(&self, name: &str) -> (r: Option<String>)
        ensures
            match r {
                Some(s) => reserved_of(self.cfg@, name@) == Some(s@),
                None => reserved_of(self.cfg@, name@) is None,
            },
    {
        if builtin_named(name).is_some() || iterator_named(name) {
            Some(cat3("the builtin `", name, "`"))
        } else if contains_str(&self.cfg.host_functions, name) {
            Some(cat3("the host function `", name, "`"))
        } else if contains_str(&self.cfg.memory, name) {
            Some(cat3("the host memory binding `", name, "`"))
        } else {
            None
        }
    }

    /// Validate that a top-level constant initializer is compile-time constant.
    fn check_const_expr(&mut self, expr: &Expr)
        ensures
            final(self).cfg == old(self).cfg,
            final(self)@ == r_const(old(self)@, expr@),
            grown(old(self)@, final(self)@),
        decreases expr, 0int,
    {
        proof {
            unfold_r_const(self@, expr@);
        }
        match &expr.kind {
            ExprKind::Nil | ExprKind::Bool(_) | ExprKind::Number(_) | ExprKind::Str(_) => {},
            ExprKind::Paren(inner) => self.check_const_expr(inner),
            ExprKind::Unary { operand, .. } => self.check_const_expr(operand),
            ExprKind::Binary { lhs, rhs, .. } => {
                self.check_const_expr(lhs);
                self.check_const_expr(rhs);
            },
            ExprKind::Table(fields) => self.check_const_fields(fields),
            _ => {
                self.error(
                    "E0303",
                    own(
                        "constant declarations may only contain literal values, table constructors of constants, and operators over them; names, calls, and indexing are not allowed",
                    ),
                    expr.span,
                );
            },
        }
    }

    fn check_const_fields(&mut self, fields: &Vec<Field>)
        ensures
            final(self).cfg == old(self).cfg,
            final(self)@ == r_const_fields(old(self)@, fields_v(fields@), 0),
            grown(old(self)@, final(self)@),
        decreases fields, 0int,
    {
        let ghost fs = fields_v(fields@);
        let mut i: usize = 0;
        while i < fields.len()
            invariant
                i <= fields@.len(),
                fs == fields_v(fields@),
                self.cfg == old(self).cfg,
                grown(old(self)@, self@),
                r_const_fields(self@, fs, i as int) == r_const_fields(old(self)@, fs, 0),
            decreases fields@.len() - i,
        {
            proof {
                unfold_r_const_fields(self@, fs, i as int);
            }
            match &fields[i] {
                Field::Positional(e) => self.check_const_expr(e),
                Field::Named { value, .. } => self.check_const_expr(value),
                Field::Keyed { key, value } => {
                    self.check_const_expr(key);
                    self.check_const_expr(value);
                },
            }
            i += 1;
        }
        proof {
            unfold_r_const_fields(self@, fs, i as int);
        }
    }

    fn enter_function(&mut self)
        ensures
            final(self).cfg == old(self).cfg,
            final(self)@ == old(self)@.enter_function(),
            grown(old(self)@, final(self)@),
    {
        proof {
            lemma_grown_scopes(self@);
        }
        proof {
            reveal(Resolver::view);
        }
        let mut blocks: Vec<BlockScope> = Vec::new();
        blocks.push(BlockScope { names: Vec::new() });
        let ghost want = old(self)@.enter_function().funcs;
        assert(names_v(blocks@[0].names@) =~= Seq::empty());
        assert(blocks_v(blocks@) =~= seq![Seq::empty()]);
        self.func_stack.push(FuncScope { blocks });
        assert(self@.funcs =~= want);
    }

    fn exit_function(&mut self)
        requires
            old(self)@.funcs.len() > 0,
        ensures
            final(self).cfg == old(self).cfg,
            final(self)@ == old(self)@.exit_function(),
            grown(old(self)@, final(self)@),
    {
        proof {
            lemma_grown_scopes(self@);
        }
        proof {
            reveal(Resolver::view);
        }
        self.func_stack.pop();
        assert(self@.funcs =~= old(self)@.exit_function().funcs);
    }

    fn push_block(&mut self)
        requires
            old(self)@.funcs.len() > 0,
        ensures
            final(self).cfg == old(self).cfg,
            final(self)@ == old(self)@.push_block(),
            grown(old(self)@, final(self)@),
    {
        proof {
            lemma_grown_scopes(self@);
        }
        proof {
            reveal(Resolver::view);
        }
        let mut f = self.func_stack.pop().unwrap();
        let ghost f0 = blocks_v(f.blocks@);
        f.blocks.push(BlockScope { names: Vec::new() });
        assert(names_v(f.blocks@.last().names@) =~= Seq::empty());
        assert(blocks_v(f.blocks@) =~= f0.push(Seq::empty()));
        self.func_stack.push(f);
        assert(self@.funcs =~= old(self)@.push_block().funcs);
    }

    fn pop_block(&mut self)
        requires
            in_block(old(self)@),
        ensures
            final(self).cfg == old(self).cfg,
            final(self)@ == old(self)@.pop_block(),
            grown(old(self)@, final(self)@),
    {
        proof {
            lemma_grown_scopes(self@);
        }
        proof {
            reveal(Resolver::view);
        }
        let mut f = self.func_stack.pop().unwrap();
        let ghost f0 = blocks_v(f.blocks@);
        f.blocks.pop();
        assert(blocks_v(f.blocks@) =~= f0.drop_last());
        self.func_stack.push(f);
        assert(self@.funcs =~= old(self)@.pop_block().funcs);
    }

    /// Redeclaration in the same block shadows the earlier binding.
    fn declare(&mut self, name: &str, span: Span, kind: SymbolKind)
        requires
            in_block(old(self)@),
        ensures
            final(self).cfg == old(self).cfg,
            final(self)@ == old(self)@.declare(name@, span, kind),
            grown(old(self)@, final(self)@),
    {
        proof {
            lemma_grown_declare(self@, name@, span, kind);
        }
        proof {
            reveal(Resolver::view);
        }
        let func_depth: usize = self.func_stack.len() - 1;
        let id: SymbolId = #[verifier::truncate] (self.symbols.len() as SymbolId);
        self.symbols.push(SymbolInfo { name: name.to_owned(), def_span: span, kind, func_depth });
        assert(self@.symbols =~= old(self)@.declare(name@, span, kind).symbols);
        let mut f = self.func_stack.pop().unwrap();
        let ghost f0 = blocks_v(f.blocks@);
        let mut b = f.blocks.pop().unwrap();
        let ghost b0 = names_v(b.names@);
        b.names.push((name.to_owned(), id));
        assert(names_v(b.names@) =~= b0.push((name@, id)));
        f.blocks.push(b);
        assert(blocks_v(f.blocks@) =~= f0.drop_last().push(f0.last().push((name@, id))));
        self.func_stack.push(f);
        assert(self@.funcs =~= old(self)@.declare(name@, span, kind).funcs);
    }

    fn declare_all(&mut self, names: &Vec<Ident>, kind: SymbolKind)
        requires
            in_block(old(self)@),
        ensures
            final(self).cfg == old(self).cfg,
            final(self)@ == r_declare(old(self)@, idents_v(names@), kind, 0),
            grown(old(self)@, final(self)@),
            depths(final(self)@.funcs) == depths(old(self)@.funcs),
            final(self)@.in_loop == old(self)@.in_loop,
    {
        let ghost ns = idents_v(names@);
        let mut i: usize = 0;
        while i < names.len()
            invariant
                i <= names@.len(),
                ns == idents_v(names@),
                self.cfg == old(self).cfg,
                grown(old(self)@, self@),
                in_block(self@),
                depths(self@.funcs) == depths(old(self)@.funcs),
                self@.in_loop == old(self)@.in_loop,
                r_declare(self@, ns, kind, i as int) == r_declare(old(self)@, ns, kind, 0),
            decreases names@.len() - i,
        {
            proof {
                unfold_r_declare(self@, ns, kind, i as int);
                lemma_declare_depths(self@, names[i as int].node@, names[i as int].span, kind);
            }
            self.declare(names[i].node.as_str(), names[i].span, kind);
            i += 1;
        }
        proof {
            unfold_r_declare(self@, ns, kind, i as int);
        }
    }

    /// The symbol that `name` stands for in the open functions.
    fn find_symbol(&self, name: &str) -> (r: Option<Binding>)
        ensures
            match r {
                Some(b) => find_in_funcs(self@.funcs, name@, self@.funcs.len() as int) == Some(b@),
                None => find_in_funcs(self@.funcs, name@, self@.funcs.len() as int) is None,
            },
    {
        proof {
            reveal(Resolver::view);
        }
        let ghost fs = self@.funcs;
        let mut fi: usize = self.func_stack.len();
        while fi > 0
            invariant
                fs == funcs_v(self.func_stack@),
                fs == self@.funcs,
                fi <= fs.len(),
                find_in_funcs(fs, name@, fi as int) == find_in_funcs(fs, name@, fs.len() as int),
            decreases fi,
        {
            let ghost bs = fs[fi - 1];
            let blocks = &self.func_stack[fi - 1].blocks;
            let mut bi: usize = blocks.len();
            while bi > 0
                invariant
                    fs == funcs_v(self.func_stack@),
                    fs == self@.funcs,
                    0 < fi <= fs.len(),
                    bs == fs[fi - 1],
                    bs == blocks_v(blocks@),
                    bi <= bs.len(),
                    find_in_funcs(fs, name@, fi as int) == find_in_funcs(
                        fs,
                        name@,
                        fs.len() as int,
                    ),
                    find_in_blocks(bs, name@, bi as int) == find_in_blocks(
                        bs,
                        name@,
                        bs.len() as int,
                    ),
                decreases bi,
            {
                match find_in_names(&blocks[bi - 1].names, name) {
                    Some(id) => {
                        return Some(
                            if fi == self.func_stack.len() {
                                Binding::Local(id)
                            } else {
                                Binding::Upvalue(id)
                            },
                        );
                    },
                    None => {},
                }
                bi -= 1;
            }
            fi -= 1;
        }
        None
    }

    /// Resolve a name to a binding without recording or reporting anything.
    fn lookup(&self, name: &str) -> (r: Option<Binding>)
        ensures
            match r {
                Some(b) => lookup_of(self@, self.cfg@, name@) == Some(b@),
                None => lookup_of(self@, self.cfg@, name@) is None,
            },
            r matches Some(b) ==> ids_ok(self@) ==> binding_ok(b@, self@.symbols.len() as int),
    {
        proof {
            reveal(lookup_of);
            lemma_found_ok(self@, name@, self@.funcs.len() as int);
        }
        if let Some(b) = self.find_symbol(name) {
            return Some(b);
        }
        proof {
            reveal(Resolver::view);
        }
        if contains_str(&self.top_funcs, name) {
            return Some(Binding::TopFunction(name.to_owned()));
        }
        if contains_str(&self.top_consts, name) {
            return Some(Binding::TopConst(name.to_owned()));
        }
        if let Some(b) = builtin_named(name) {
            return Some(Binding::Builtin(b));
        }
        if contains_str(&self.cfg.host_functions, name) {
            return Some(Binding::HostFunction(name.to_owned()));
        }
        if contains_str(&self.cfg.memory, name) {
            return Some(Binding::Memory(name.to_owned()));
        }
        None
    }

    fn resolve_name(&mut self, name: &str, span: Span)
        ensures
            final(self).cfg == old(self).cfg,
            final(self)@ == r_name(old(self)@, old(self).cfg@, name@, span),
            grown(old(self)@, final(self)@),
    {
        match self.lookup(name) {
            Some(b) => {
                self.bind(span, b);
            },
            None => if iterator_named(name) {
                self.error(
                    "E0301",
                    cat3("`", name, "` may only be used as a generic `for` iterator"),
                    span,
                )
            } else {
                self.error("E0300", cat3("cannot find name `", name, "` in this scope"), span)
            },
        }
    }

    fn resolve_func_body(&mut self, body: &FuncBody)
        ensures
            final(self).cfg == old(self).cfg,
            final(self)@ == r_func(old(self)@, old(self).cfg@, body@),
            grown(old(self)@, final(self)@),
            depths(final(self)@.funcs) == depths(old(self)@.funcs),
            final(self)@.in_loop == old(self)@.in_loop,
        decreases body, 0int,
    {
        proof {
            unfold_r_func(self@, self.cfg@, body@);
            lemma_function_depths(self@);
        }
        self.enter_function();
        let ghost d1 = depths(self@.funcs);
        self.declare_all(&body.params, SymbolKind::Param);
        // `break` cannot cross a function boundary.
        let saved: bool = self.set_looping(false);
        proof {
            lemma_depths(self@, d1);
        }
        self.resolve_stats(&body.block);
        self.set_looping(saved);
        proof {
            assert(depths(self@.funcs) == d1);
            assert(self@.funcs.len() == d1.len());
        }
        let ghost s = self@;
        self.exit_function();
        proof {
            assert(depths(self@.funcs) =~= d1.drop_last());
        }
    }

    /// Resolve a block's statements in a fresh nested scope.
    fn resolve_block(&mut self, block: &Block)
        requires
            in_block(old(self)@),
        ensures
            final(self).cfg == old(self).cfg,
            final(self)@ == r_block(old(self)@, old(self).cfg@, block@),
            grown(old(self)@, final(self)@),
            depths(final(self)@.funcs) == depths(old(self)@.funcs),
            final(self)@.in_loop == old(self)@.in_loop,
        decreases block, 1int,
    {
        proof {
            unfold_r_block(self@, self.cfg@, block@);
            lemma_block_depths(self@);
        }
        let ghost d0 = depths(self@.funcs);
        self.push_block();
        let ghost d1 = depths(self@.funcs);
        self.resolve_stats(block);
        proof {
            lemma_depths(self@, d1);
            lemma_block_depths(self@);
        }
        self.pop_block();
        proof {
            assert(depths(self@.funcs) =~= d0);
        }
    }

    /// Resolve the body of a loop.
    fn resolve_loop(&mut self, block: &Block)
        requires
            in_block(old(self)@),
        ensures
            final(self).cfg == old(self).cfg,
            final(self)@ == r_loop(old(self)@, old(self).cfg@, block@),
            grown(old(self)@, final(self)@),
            depths(final(self)@.funcs) == depths(old(self)@.funcs),
            final(self)@.in_loop == old(self)@.in_loop,
        decreases block, 2int,
    {
        proof {
            unfold_r_loop(self@, self.cfg@, block@);
        }
        let saved: bool = self.set_looping(true);
        self.resolve_block(block);
        self.set_looping(saved);
    }

    /// Resolve a block's statements in the current scope (no new block pushed).
    fn resolve_stats(&mut self, block: &Block)
        requires
            in_block(old(self)@),
        ensures
            final(self).cfg == old(self).cfg,
            final(self)@ == r_stats(old(self)@, old(self).cfg@, block@),
            grown(old(self)@, final(self)@),
            depths(final(self)@.funcs) == depths(old(self)@.funcs),
            final(self)@.in_loop == old(self)@.in_loop,
        decreases block, 0int,
    {
        proof {
            unfold_r_stats(self@, self.cfg@, block@);
        }
        self.resolve_stat_list(&block.stats);
        if let Some(ret) = &block.ret {
            self.resolve_exprs(&ret.exprs);
        }
    }

    fn resolve_stat_list(&mut self, stats: &Vec<Stat>)
        requires
            in_block(old(self)@),
        ensures
            final(self).cfg == old(self).cfg,
            final(self)@ == r_stat_list(old(self)@, old(self).cfg@, stats_v(stats@), 0),
            grown(old(self)@, final(self)@),
            depths(final(self)@.funcs) == depths(old(self)@.funcs),
            final(self)@.in_loop == old(self)@.in_loop,
        decreases stats, 0int,
    {
        let ghost ss = stats_v(stats@);
        let ghost cfg = self.cfg@;
        let ghost d0 = depths(self@.funcs);
        let mut i: usize = 0;
        while i < stats.len()
            invariant
                i <= stats@.len(),
                ss == stats_v(stats@),
                cfg == old(self).cfg@,
                d0 == depths(old(self)@.funcs),
                in_block(old(self)@),
                self.cfg == old(self).cfg,
                grown(old(self)@, self@),
                depths(self@.funcs) == d0,
                self@.in_loop == old(self)@.in_loop,
                r_stat_list(self@, cfg, ss, i as int) == r_stat_list(old(self)@, cfg, ss, 0),
            decreases stats@.len() - i,
        {
            proof {
                unfold_r_stat_list(self@, cfg, ss, i as int);
                lemma_depths(old(self)@, d0);
                lemma_depths(self@, d0);
            }
            self.resolve_stat(&stats[i]);
            i += 1;
        }
        proof {
            unfold_r_stat_list(self@, cfg, ss, i as int);
        }
    }

    fn resolve_arms(&mut self, arms: &Vec<(Expr, Block)>)
        requires
            in_block(old(self)@),
        ensures
            final(self).cfg == old(self).cfg,
            final(self)@ == r_arms(old(self)@, old(self).cfg@, arms_v(arms@), 0),
            grown(old(self)@, final(self)@),
            depths(final(self)@.funcs) == depths(old(self)@.funcs),
            final(self)@.in_loop == old(self)@.in_loop,
        decreases arms, 0int,
    {
        let ghost av = arms_v(arms@);
        let ghost cfg = self.cfg@;
        let ghost d0 = depths(self@.funcs);
        let mut i: usize = 0;
        while i < arms.len()
            invariant
                i <= arms@.len(),
                av == arms_v(arms@),
                cfg == old(self).cfg@,
                d0 == depths(old(self)@.funcs),
                in_block(old(self)@),
                self.cfg == old(self).cfg,
                grown(old(self)@, self@),
                depths(self@.funcs) == d0,
                self@.in_loop == old(self)@.in_loop,
                r_arms(self@, cfg, av, i as int) == r_arms(old(self)@, cfg, av, 0),
            decreases arms@.len() - i,
        {
            proof {
                unfold_r_arms(self@, cfg, av, i as int);
                lemma_depths(old(self)@, d0);
            }
            let arm = &arms[i];
            assert(decreases_to!(arms => arms@[i as int]));
            assert(decreases_to!(arms@[i as int] => arms@[i as int].0));
            assert(decreases_to!(arms@[i as int] => arms@[i as int].1));
            self.resolve_expr(&arm.0);
            proof {
                lemma_depths(self@, d0);
            }
            self.resolve_block(&arm.1);
            i += 1;
        }
        proof {
            unfold_r_arms(self@, cfg, av, i as int);
        }
    }

    fn resolve_stat(&mut self, stat: &Stat)
        requires
            in_block(old(self)@),
        ensures
            final(self).cfg == old(self).cfg,
            final(self)@ == r_stat(old(self)@, old(self).cfg@, stat@),
            grown(old(self)@, final(self)@),
            depths(final(self)@.funcs) == depths(old(self)@.funcs),
            final(self)@.in_loop == old(self)@.in_loop,
        decreases stat, 0int,
    {
        proof {
            unfold_r_stat(self@, self.cfg@, stat@);
        }
        let ghost d0 = depths(self@.funcs);
        proof {
            lemma_depths(self@, d0);
        }
        match &stat.kind {
            StatKind::Empty => {},
            StatKind::Local { names, exprs } => {
                // Initializers see the outer scope, so resolve before declaring.
                self.resolve_exprs(exprs);
                proof {
                    lemma_depths(self@, d0);
                }
                self.declare_all(names, SymbolKind::Local);
            },
            StatKind::LocalFunction { name, body } => {
                // Declare first so the body can recurse.
                proof {
                    lemma_declare_depths(self@, name.node@, name.span, SymbolKind::Local);
                }
                self.declare(name.node.as_str(), name.span, SymbolKind::Local);
                self.resolve_func_body(body);
            },
            StatKind::Assign { targets, exprs } => {
                self.resolve_exprs(exprs);
                self.resolve_targets(targets);
            },
            StatKind::Call(e) => self.resolve_expr(e),
            StatKind::Do(block) => self.resolve_block(block),
            StatKind::While { cond, body } => {
                self.resolve_expr(cond);
                proof {
                    lemma_depths(self@, d0);
                }
                self.resolve_loop(body);
            },
            StatKind::If { arms, else_block } => {
                self.resolve_arms(arms);
                proof {
                    lemma_depths(self@, d0);
                }
                if let Some(block) = else_block {
                    self.resolve_block(block);
                }
            },
            StatKind::NumericFor { var, start, end, step, body } => {
                self.resolve_expr(start);
                self.resolve_expr(end);
                if let Some(step) = step {
                    self.resolve_expr(step);
                }
                proof {
                    lemma_depths(self@, d0);
                    lemma_block_depths(self@);
                }
                self.push_block();
                let ghost d1 = depths(self@.funcs);
                proof {
                    lemma_declare_depths(self@, var.node@, var.span, SymbolKind::LoopVar);
                }
                self.declare(var.node.as_str(), var.span, SymbolKind::LoopVar);
                self.resolve_loop(body);
                proof {
                    lemma_depths(self@, d1);
                    lemma_block_depths(self@);
                }
                self.pop_block();
                assert(depths(self@.funcs) =~= d0);
            },
            StatKind::GenericFor { names, iter, body } => {
                match iter {
                    IterExpr::IPairs { arg, .. } => self.resolve_expr(arg),
                    IterExpr::Pairs { arg, .. } => self.resolve_expr(arg),
                }
                proof {
                    lemma_depths(self@, d0);
                    lemma_block_depths(self@);
                }
                self.push_block();
                let ghost d1 = depths(self@.funcs);
                self.declare_all(names, SymbolKind::LoopVar);
                proof {
                    lemma_depths(self@, d1);
                }
                self.resolve_loop(body);
                proof {
                    lemma_depths(self@, d1);
                    lemma_block_depths(self@);
                }
                self.pop_block();
                assert(depths(self@.funcs) =~= d0);
            },
            StatKind::Break => {
                if !self.looping() {
                    self.error("E0306", own("`break` outside of a loop"), stat.span);
                }
            },
        }
    }

    fn looping(&self) -> (r: bool)
        ensures
            r == self@.in_loop,
    {
        proof {
            reveal(Resolver::view);
        }
        self.in_loop
    }

    fn resolve_targets(&mut self, targets: &Vec<Expr>)
        ensures
            final(self).cfg == old(self).cfg,
            final(self)@ == r_targets(old(self)@, old(self).cfg@, exprs_v(targets@), 0),
            grown(old(self)@, final(self)@),
            depths(final(self)@.funcs) == depths(old(self)@.funcs),
            final(self)@.in_loop == old(self)@.in_loop,
        decreases targets, 0int,
    {
        let ghost tv = exprs_v(targets@);
        let ghost cfg = self.cfg@;
        let mut i: usize = 0;
        while i < targets.len()
            invariant
                i <= targets@.len(),
                tv == exprs_v(targets@),
                cfg == old(self).cfg@,
                self.cfg == old(self).cfg,
                grown(old(self)@, self@),
                depths(self@.funcs) == depths(old(self)@.funcs),
                self@.in_loop == old(self)@.in_loop,
                r_targets(self@, cfg, tv, i as int) == r_targets(old(self)@, cfg, tv, 0),
            decreases targets@.len() - i,
        {
            proof {
                unfold_r_targets(self@, cfg, tv, i as int);
            }
            self.resolve_assign_target(&targets[i]);
            i += 1;
        }
        proof {
            unfold_r_targets(self@, cfg, tv, i as int);
        }
    }

    /// Refuse a write through a top-level constant.
    fn refuse_frozen(&mut self, base: &Expr, span: Span)
        ensures
            final(self).cfg == old(self).cfg,
            final(self)@ == r_frozen(old(self)@, old(self).cfg@, base@, span),
            grown(old(self)@, final(self)@),
            final(self)@.funcs == old(self)@.funcs,
            final(self)@.in_loop == old(self)@.in_loop,
    {
        if let Some(n) = root_of(base) {
            if let Some(Binding::TopConst(c)) = self.lookup(n.as_str()) {
                self.error(
                    "E0307",
                    cat3(
                        "cannot write through `",
                        c.as_str(),
                        "`: a top-level constant is immutable",
                    ),
                    span,
                );
            }
        }
    }

    fn resolve_assign_target(&mut self, expr: &Expr)
        ensures
            final(self).cfg == old(self).cfg,
            final(self)@ == r_target(old(self)@, old(self).cfg@, expr@),
            grown(old(self)@, final(self)@),
            depths(final(self)@.funcs) == depths(old(self)@.funcs),
            final(self)@.in_loop == old(self)@.in_loop,
        decreases expr, 1int,
    {
        proof {
            unfold_r_target(self@, self.cfg@, expr@);
        }
        match &expr.kind {
            ExprKind::Name(n) => {
                let name = n.as_str();
                match self.lookup(name) {
                    Some(Binding::Local(id)) => {
                        self.bind(expr.span, Binding::Local(id));
                    },
                    Some(Binding::Upvalue(id)) => {
                        self.bind(expr.span, Binding::Upvalue(id));
                    },
                    Some(_) => {
                        self.error(
                            "E0302",
                            cat3(
                                "cannot assign to `",
                                name,
                                "`: it is an immutable binding (top-level declaration, builtin, host function, or memory handle)",
                            ),
                            expr.span,
                        );
                    },
                    None => {
                        if iterator_named(name) {
                            self.error(
                                "E0301",
                                cat3("`", name, "` may only be used as a generic `for` iterator"),
                                expr.span,
                            );
                        } else {
                            self.error(
                                "E0300",
                                cat3(
                                    "cannot find name `",
                                    name,
                                    "` in this scope; assigning to an undeclared name would create a global, which is not allowed",
                                ),
                                expr.span,
                            );
                        }
                    },
                }
            },
            ExprKind::Field { base, .. } => {
                self.resolve_expr(base);
                self.refuse_frozen(base, expr.span);
            },
            ExprKind::Index { base, index } => {
                self.resolve_expr(base);
                self.resolve_expr(index);
                self.refuse_frozen(base, expr.span);
            },
            // The parser guarantees targets are name/field/index.
            _ => self.resolve_expr(expr),
        }
    }

    fn resolve_exprs(&mut self, es: &Vec<Expr>)
        ensures
            final(self).cfg == old(self).cfg,
            final(self)@ == r_exprs(old(self)@, old(self).cfg@, exprs_v(es@), 0),
            grown(old(self)@, final(self)@),
            depths(final(self)@.funcs) == depths(old(self)@.funcs),
            final(self)@.in_loop == old(self)@.in_loop,
        decreases es, 0int,
    {
        let ghost ev = exprs_v(es@);
        let ghost cfg = self.cfg@;
        let mut i: usize = 0;
        while i < es.len()
            invariant
                i <= es@.len(),
                ev == exprs_v(es@),
                cfg == old(self).cfg@,
                self.cfg == old(self).cfg,
                grown(old(self)@, self@),
                depths(self@.funcs) == depths(old(self)@.funcs),
                self@.in_loop == old(self)@.in_loop,
                r_exprs(self@, cfg, ev, i as int) == r_exprs(old(self)@, cfg, ev, 0),
            decreases es@.len() - i,
        {
            proof {
                unfold_r_exprs(self@, cfg, ev, i as int);
            }
            self.resolve_expr(&es[i]);
            i += 1;
        }
        proof {
            unfold_r_exprs(self@, cfg, ev, i as int);
        }
    }

    fn resolve_fields(&mut self, fields: &Vec<Field>)
        ensures
            final(self).cfg == old(self).cfg,
            final(self)@ == r_fields(old(self)@, old(self).cfg@, fields_v(fields@), 0),
            grown(old(self)@, final(self)@),
            depths(final(self)@.funcs) == depths(old(self)@.funcs),
            final(self)@.in_loop == old(self)@.in_loop,
        decreases fields, 0int,
    {
        let ghost fv = fields_v(fields@);
        let ghost cfg = self.cfg@;
        let mut i: usize = 0;
        while i < fields.len()
            invariant
                i <= fields@.len(),
                fv == fields_v(fields@),
                cfg == old(self).cfg@,
                self.cfg == old(self).cfg,
                grown(old(self)@, self@),
                depths(self@.funcs) == depths(old(self)@.funcs),
                self@.in_loop == old(self)@.in_loop,
                r_fields(self@, cfg, fv, i as int) == r_fields(old(self)@, cfg, fv, 0),
            decreases fields@.len() - i,
        {
            proof {
                unfold_r_fields(self@, cfg, fv, i as int);
                unfold_r_field(self@, cfg, fv[i as int]);
            }
            match &fields[i] {
                Field::Positional(e) => self.resolve_expr(e),
                Field::Named { value, .. } => self.resolve_expr(value),
                Field::Keyed { key, value } => {
                    self.resolve_expr(key);
                    self.resolve_expr(value);
                },
            }
            i += 1;
        }
        proof {
            unfold_r_fields(self@, cfg, fv, i as int);
        }
    }

    fn resolve_expr(&mut self, expr: &Expr)
        ensures
            final(self).cfg == old(self).cfg,
            final(self)@ == r_expr(old(self)@, old(self).cfg@, expr@),
            grown(old(self)@, final(self)@),
            depths(final(self)@.funcs) == depths(old(self)@.funcs),
            final(self)@.in_loop == old(self)@.in_loop,
        decreases expr, 0int,
    {
        proof {
            unfold_r_expr(self@, self.cfg@, expr@);
        }
        match &expr.kind {
            ExprKind::Nil | ExprKind::Bool(_) | ExprKind::Number(_) | ExprKind::Str(_) => {},
            ExprKind::Name(n) => self.resolve_name(n.as_str(), expr.span),
            ExprKind::Index { base, index } => {
                self.resolve_expr(base);
                self.resolve_expr(index);
            },
            // Field and method names are not variables; only the base resolves.
            ExprKind::Field { base, .. } => self.resolve_expr(base),
            ExprKind::Call { callee, args } => {
                self.resolve_expr(callee);
                self.resolve_exprs(args);
            },
            ExprKind::MethodCall { receiver, args, .. } => {
                self.resolve_expr(receiver);
                self.resolve_exprs(args);
            },
            ExprKind::Table(fields) => self.resolve_fields(fields),
            ExprKind::Binary { lhs, rhs, .. } => {
                self.resolve_expr(lhs);
                self.resolve_expr(rhs);
            },
            ExprKind::Unary { operand, .. } => self.resolve_expr(operand),
            ExprKind::Paren(inner) => self.resolve_expr(inner),
            // A nested anonymous function: a closure that may capture enclosing locals.
            ExprKind::Function(body) => self.resolve_func_body(body),
        }
    }
}

fn find_in_names(names: &Vec<(String, SymbolId)>, name: &str) -> (r: Option<SymbolId>)
    ensures
        r == find_name(names_v(names@), name@, names@.len() as int),
{
    let ghost nv = names_v(names@);
    let mut n: usize = names.len();
    while n > 0
        invariant
            nv == names_v(names@),
            n <= nv.len(),
            find_name(nv, name@, n as int) == find_name(nv, name@, nv.len() as int),
        decreases n,
    {
        if same(names[n - 1].0.as_str(), name) {
            return Some(names[n - 1].1);
        }
        n -= 1;
    }
    None
}

proof fn lemma_depths(st: State, d: Seq<nat>)
    requires
        depths(st.funcs) == d,
    ensures
        st.funcs.len() == d.len(),
        in_block(st) == (d.len() > 0 && d.last() > 0),
        d.len() > 0 ==> st.funcs.last().len() == d.last(),
{
    if d.len() > 0 {
        assert(d.last() == st.funcs[d.len() - 1].len());
    }
}

proof fn lemma_declare_depths(st: State, name: Seq<char>, span: Span, kind: SymbolKind)
    requires
        in_block(st),
    ensures
        depths(st.declare(name, span, kind).funcs) == depths(st.funcs),
        in_block(st.declare(name, span, kind)),
        st.declare(name, span, kind).in_loop == st.in_loop,
{
    assert(depths(st.declare(name, span, kind).funcs) =~= depths(st.funcs));
}

proof fn lemma_block_depths(st: State)
    requires
        st.funcs.len() > 0,
    ensures
        in_block(st.push_block()),
        depths(st.push_block().funcs) == depths(st.funcs).drop_last().push(
            st.funcs.last().len() + 1,
        ),
        in_block(st) ==> depths(st.pop_block().funcs) == depths(st.funcs).drop_last().push(
            (st.funcs.last().len() - 1) as nat,
        ),
{
    assert(depths(st.push_block().funcs) =~= depths(st.funcs).drop_last().push(
        st.funcs.last().len() + 1,
    ));
    if in_block(st) {
        assert(depths(st.pop_block().funcs) =~= depths(st.funcs).drop_last().push(
            (st.funcs.last().len() - 1) as nat,
        ));
    }
}

proof fn lemma_function_depths(st: State)
    ensures
        in_block(st.enter_function()),
        depths(st.enter_function().funcs) == depths(st.funcs).push(1),
        depths(st.funcs).push(1).drop_last() == depths(st.funcs),
{
    assert(depths(st.enter_function().funcs) =~= depths(st.funcs).push(1));
    assert(depths(st.funcs).push(1).drop_last() =~= depths(st.funcs));
}

proof fn lemma_grown_simple(st: State)
    ensures
        forall|d: Seq<DiagnosticV>| #[trigger] grown(st, State { diags: d, ..st }),
        forall|b: bool| #[trigger] grown(st, State { in_loop: b, ..st }),
        forall|t: Seq<Seq<char>>| #[trigger] grown(st, State { top_funcs: t, ..st }),
        forall|t: Seq<Seq<char>>| #[trigger] grown(st, State { top_consts: t, ..st }),
{
    reveal(ids_ok);
}

proof fn lemma_grown_scopes(st: State)
    ensures
        grown(st, st.enter_function()),
        st.funcs.len() > 0 ==> grown(st, st.exit_function()),
        st.funcs.len() > 0 ==> grown(st, st.push_block()),
        in_block(st) ==> grown(st, st.pop_block()),
{
    reveal(ids_ok);
    if ids_ok(st) {
        let e = st.enter_function();
        assert forall|f: int, b: int, k: int|
            #![trigger e.funcs[f][b][k]]
            0 <= f < e.funcs.len() && 0 <= b < e.funcs[f].len() && 0 <= k < e.funcs[f][b].len()
            implies e.funcs[f][b][k].1 < e.symbols.len() by {
            assert(e.funcs[f] == st.funcs[f]);
        }
        if st.funcs.len() > 0 {
            let x = st.exit_function();
            assert forall|f: int, b: int, k: int|
                #![trigger x.funcs[f][b][k]]
                0 <= f < x.funcs.len() && 0 <= b < x.funcs[f].len() && 0 <= k
                    < x.funcs[f][b].len() implies x.funcs[f][b][k].1 < x.symbols.len() by {
                assert(x.funcs[f][b][k] == st.funcs[f][b][k]);
            }
            let p = st.push_block();
            assert forall|f: int, b: int, k: int|
                #![trigger p.funcs[f][b][k]]
                0 <= f < p.funcs.len() && 0 <= b < p.funcs[f].len() && 0 <= k
                    < p.funcs[f][b].len() implies p.funcs[f][b][k].1 < p.symbols.len() by {
                assert(p.funcs[f][b][k] == st.funcs[f][b][k]);
            }
            if in_block(st) {
                let q = st.pop_block();
                assert forall|f: int, b: int, k: int|
                    #![trigger q.funcs[f][b][k]]
                    0 <= f < q.funcs.len() && 0 <= b < q.funcs[f].len() && 0 <= k
                        < q.funcs[f][b].len() implies q.funcs[f][b][k].1 < q.symbols.len() by {
                    assert(q.funcs[f][b][k] == st.funcs[f][b][k]);
                }
            }
        }
    }
}

proof fn lemma_grown_declare(st: State, name: Seq<char>, span: Span, kind: SymbolKind)
    requires
        in_block(st),
    ensures
        grown(st, st.declare(name, span, kind)),
{
    reveal(ids_ok);
    let d = st.declare(name, span, kind);
    if ids_ok(st) && d.symbols.len() <= u32::MAX {
        assert forall|f: int, b: int, k: int|
            #![trigger d.funcs[f][b][k]]
            0 <= f < d.funcs.len() && 0 <= b < d.funcs[f].len() && 0 <= k < d.funcs[f][b].len()
            implies d.funcs[f][b][k].1 < d.symbols.len() by {
            if k < st.funcs[f][b].len() {
                assert(d.funcs[f][b][k] == st.funcs[f][b][k]);
            }
        }
        assert forall|s: Span|
            #![trigger d.bindings[s]]
            d.bindings.dom().contains(s) implies binding_ok(d.bindings[s], d.symbols.len() as int) by {
            assert(binding_ok(st.bindings[s], st.symbols.len() as int));
        }
    }
}

proof fn lemma_found_name(names: NamesV, name: Seq<char>, n: int)
    requires
        0 <= n <= names.len(),
    ensures
        find_name(names, name, n) matches Some(id) ==> exists|k: int|
            0 <= k < n && (#[trigger] names[k]).1 == id,
    decreases n,
{
    if n > 0 && names[n - 1].0 != name {
        lemma_found_name(names, name, n - 1);
    }
}

proof fn lemma_found_in_blocks(st: State, f: int, name: Seq<char>, n: int)
    requires
        ids_ok(st),
        0 <= f < st.funcs.len(),
        0 <= n <= st.funcs[f].len(),
    ensures
        find_in_blocks(st.funcs[f], name, n) matches Some(id) ==> id < st.symbols.len(),
    decreases n,
{
    if n > 0 {
        let names = st.funcs[f][n - 1];
        lemma_found_name(names, name, names.len() as int);
        match find_name(names, name, names.len() as int) {
            Some(id) => {
                reveal(ids_ok);
                let k = choose|k: int| 0 <= k < names.len() && (#[trigger] names[k]).1 == id;
                assert(st.funcs[f][n - 1][k].1 < st.symbols.len());
            },
            None => {
                lemma_found_in_blocks(st, f, name, n - 1);
            },
        }
    }
}

proof fn lemma_found_ok(st: State, name: Seq<char>, n: int)
    requires
        0 <= n <= st.funcs.len(),
    ensures
        ids_ok(st) ==> (find_in_funcs(st.funcs, name, n) matches Some(b) ==> binding_ok(
            b,
            st.symbols.len() as int,
        )),
    decreases n,
{
    if n > 0 && ids_ok(st) {
        lemma_found_in_blocks(st, n - 1, name, st.funcs[n - 1].len() as int);
        lemma_found_ok(st, name, n - 1);
    }
}

/// A constant initializer is accepted without a word exactly when it is constant.
pub proof fn law_constant_initializer(st: State, e: ExprV)
    ensures
        (r_const(st, e) == st) <==> is_constant(e),
        r_const(st, e) == (State { diags: r_const(st, e).diags, ..st }),
        st.diags.len() <= r_const(st, e).diags.len(),
        r_const(st, e).diags.len() == st.diags.len() <==> is_constant(e),
    decreases e, 0int,
{
    unfold_r_const(st, e);
    unfold_is_constant(e);
    match e.kind {
        ExprKindV::Paren(inner) => law_constant_initializer(st, *inner),
        ExprKindV::Unary { op, operand } => law_constant_initializer(st, *operand),
        ExprKindV::Binary { op, lhs, rhs } => {
            law_constant_initializer(st, *lhs);
            law_constant_initializer(r_const(st, *lhs), *rhs);
        },
        ExprKindV::Table(fields) => lemma_constant_fields(st, fields, 0),
        ExprKindV::Nil | ExprKindV::Bool(_) | ExprKindV::Number(_) | ExprKindV::Str(_) => {},
        _ => {
            assert(r_const(st, e).diags.len() == st.diags.len() + 1);
        },
    }
}

/// Whether the fields from `i` on are constant.
spec fn constant_from(fs: Seq<FieldV>, i: int) -> bool
    decreases fs.len() - i,
{
    if i < 0 || i >= fs.len() {
        true
    } else {
        constant_from(fs, i + 1) && match fs[i] {
            FieldV::Positional(e) => is_constant(e),
            FieldV::Named { name, value } => is_constant(value),
            FieldV::Keyed { key, value } => is_constant(key) && is_constant(value),
        }
    }
}

proof fn lemma_constant_from(fs: Seq<FieldV>, i: int)
    requires
        0 <= i <= fs.len(),
    ensures
        constant_fields(fs, fs.len() as int) == (constant_fields(fs, i) && constant_from(fs, i)),
    decreases fs.len() - i,
{
    if i < fs.len() {
        lemma_constant_from(fs, i + 1);
        unfold_constant_fields(fs, i + 1);
    }
}

proof fn lemma_constant_fields(st: State, fs: Seq<FieldV>, i: int)
    requires
        0 <= i <= fs.len(),
    ensures
        r_const_fields(st, fs, i) == (State { diags: r_const_fields(st, fs, i).diags, ..st }),
        st.diags.len() <= r_const_fields(st, fs, i).diags.len(),
        (r_const_fields(st, fs, i) == st) <==> constant_from(fs, i),
        r_const_fields(st, fs, i).diags.len() == st.diags.len() <==> constant_from(fs, i),
        i == 0 ==> constant_from(fs, i) == constant_fields(fs, fs.len() as int),
    decreases fs, fs.len() - i,
{
    unfold_r_const_fields(st, fs, i);
    if i == 0 {
        lemma_constant_from(fs, 0);
        unfold_constant_fields(fs, 0);
    }
    if i < fs.len() {
        match fs[i] {
            FieldV::Positional(e) => {
                law_constant_initializer(st, e);
                lemma_constant_fields(r_const(st, e), fs, i + 1);
            },
            FieldV::Named { name, value } => {
                law_constant_initializer(st, value);
                lemma_constant_fields(r_const(st, value), fs, i + 1);
            },
            FieldV::Keyed { key, value } => {
                law_constant_initializer(st, key);
                law_constant_initializer(r_const(st, key), value);
                lemma_constant_fields(r_const(r_const(st, key), value), fs, i + 1);
            },
        }
    }
}

} // verus!
