//! The reference interpreter: it evaluates the resolved syntax tree.
//!
//! It says what every construct means, and the other backends agree with it. A value is what
//! [`value`](crate::value) says; a variable is a cell on the heap, so that the closures that
//! capture it share it. Each function activation has slots of its own, by symbol; a closure
//! holds the slots of the variables that it refers to, and not the activations that they
//! belong to.
//!
//! The interpreter is a function from states to states: a state holds what is evaluated next
//! ([`Ctrl`]) and what waits for it ([`Kont`]); [`step_of`] says what one step does, and
//! [`resume_of`] how it goes on with an answer to a request. Its input has passed resolution
//! and type checking; a type error at run time is an internal error.
use std::collections::BTreeMap;
use vstd::prelude::*;
use vstd::utf8::encode_utf8;
use crate::ast::{
    arms_v, decls_v, exprs_v, fields_v, idents_v, stats_v, BinOp, Block, BlockV, Expr, ExprKind,
    ExprKindV, ExprV, Field, FieldV, FuncBody, FuncBodyV, Ident, IdentV, IterExpr, IterExprV,
    Module, ModuleV, Stat, StatKind, StatKindV, StatV, TopDecl, TopDeclV, UnOp,
};
use crate::capture::{id_count, ids_block, referenced_symbols};
use crate::check::all_positional;
use crate::diagnostics::Span;
use crate::ir::vm::{satisfies, Progress, ProgressV};
use crate::names::{ascending, get_of, keys_of, put_of, NameMap};
use crate::number::{index, index_of, negate, negated, order, order_of, Order};
use crate::resolve::{Binding, BindingV, Resolution, ResolutionV, SymbolId};
use crate::runtime::eval::{
    answer, answer_of, arg, field_value, field_value_of, member_call, member_call_of, pieces_v,
    value_call, value_call_of, Outcome, OutcomeV, Piece, PieceV, Reply, ReplyV, Request, RequestV,
};
use crate::text::{cat2, cat3, cat4, cat5, dec, dec_string, own, same};
use crate::value::{
    arity_error, arity_error_of, array_at, array_written, cell_at, compare, compared, frozen_error,
    frozen_error_of, frozen_value, is_frozen, kind_name_of, same_value, table_at, table_written,
    truthy, value_eq, values_v, Heap, HeapV, ObjV, RunError, RunErrorV, Value, ValueV,
};

verus! {

/// A script function: its parameters, its body, and the slots that it captured.
pub ghost struct FuncV {
    pub params: Seq<SymbolId>,
    pub body: FuncBodyV,
    pub captured: Map<SymbolId, usize>,
}

/// The variables of one activation: its own slots, and those that its function captured.
pub ghost struct ActV {
    pub func: Option<usize>,
    pub locals: Map<SymbolId, usize>,
}

/// How a statement ends.
pub ghost enum FlowV {
    Normal,
    Break,
    Return(ValueV),
}

/// What is called.
pub ghost enum CalleeV {
    Value(ValueV),
    BuiltinValue(Seq<char>),
    BuiltinMember(Seq<char>, Seq<char>),
}

/// What is evaluated next.
pub ghost enum CtrlV {
    /// An expression.
    Eval(ExprV),
    /// A value is there for what waits for it.
    Have(ValueV),
    /// A statement.
    Exec(StatV),
    /// The statements of a block, from a position on.
    Block(BlockV, int),
    /// A statement has ended.
    Flow(FlowV),
    /// The declarations of the module, from a position on.
    Decl(int),
    /// The fields of the export table, from a position on.
    Export(int),
}

/// What waits for a value, or for the end of a statement.
pub ghost enum KontV {
    Unary(UnOp),
    Rhs(BinOp, ExprV),
    Binary(BinOp, ValueV),
    Field(Seq<char>),
    Index(ExprV),
    Key(ValueV),
    Callee(Seq<ExprV>),
    Args(CalleeV, Seq<ExprV>, Seq<ValueV>),
    Items(Seq<FieldV>, Seq<ValueV>),
    Entry(Seq<FieldV>, int, Seq<(Seq<char>, ValueV)>, Seq<char>),
    EntryKey(Seq<FieldV>, int, Seq<(Seq<char>, ValueV)>),
    Mixed,
    Local(Seq<IdentV>, Seq<ExprV>, Seq<ValueV>),
    Values(Seq<ExprV>, Seq<ExprV>, Seq<ValueV>),
    Assign(Seq<ExprV>, Seq<ValueV>, int),
    SetField(Seq<char>, ValueV),
    SetBase(ExprV, ValueV),
    SetKey(ValueV, ValueV),
    BadIndex,
    Drop,
    WhileCond(ExprV, BlockV),
    WhileBody(ExprV, BlockV),
    If(Seq<(ExprV, BlockV)>, int, Option<BlockV>),
    ForStart(IdentV, ExprV, Option<ExprV>, BlockV),
    ForEnd(IdentV, u64, Option<ExprV>, BlockV),
    ForStep(IdentV, u64, u64, BlockV),
    ForBody(IdentV, u64, u64, u64, BlockV),
    ForNext(IdentV, u64, u64, BlockV),
    Iter(Seq<IdentV>, bool, BlockV),
    ItemKey(Seq<IdentV>, ValueV, int, int, BlockV),
    NextItem(Seq<IdentV>, ValueV, int, int, BlockV),
    NextEntry(Seq<IdentV>, Seq<(Seq<char>, ValueV)>, int, BlockV),
    Block(BlockV, int),
    Return,
    Call(Option<ActV>),
    Const(int),
    Export(int),
    Memo(Seq<char>, usize),
}

/// The state of an interpreter.
pub ghost struct St {
    pub heap: HeapV,
    pub funcs: Seq<FuncV>,
    /// The top-level functions, by name.
    pub top: Seq<(Seq<char>, ValueV)>,
    /// The constants evaluated so far in this call.
    pub consts: Seq<(Seq<char>, ValueV)>,
    /// The objects that these constants consist of, from one to before another.
    pub frozen: Seq<(usize, usize)>,
    pub exports: Seq<(Seq<char>, ValueV)>,
    pub hosts: Seq<(Seq<char>, bool)>,
    pub memory: Seq<(Seq<char>, ValueV)>,
    pub act: Option<ActV>,
    pub konts: Seq<KontV>,
    pub ctrl: Option<CtrlV>,
    pub wait: Option<RequestV>,
}

/// A state, and how far the interpreter has come.
pub type Stepped = (St, ProgressV);

impl St {
    #[verifier::opaque]
    pub open spec fn push(self, k: KontV) -> St {
        St { konts: self.konts.push(k), ..self }
    }

    #[verifier::opaque]
    pub open spec fn run(self, c: CtrlV) -> Stepped {
        (St { ctrl: Some(c), ..self }, ProgressV::Running)
    }

    pub open spec fn have(self, v: ValueV) -> Stepped {
        self.run(CtrlV::Have(v))
    }

    pub open spec fn flow(self, f: FlowV) -> Stepped {
        self.run(CtrlV::Flow(f))
    }

    /// The evaluation of an expression for what waits for it.
    pub open spec fn eval(self, e: ExprV, k: KontV) -> Stepped {
        self.push(k).run(CtrlV::Eval(e))
    }

    /// The execution of a block for what waits for its end.
    pub open spec fn block(self, b: BlockV, k: KontV) -> Stepped {
        self.push(k).run(CtrlV::Block(b, 0))
    }

    #[verifier::opaque]
    pub open spec fn ask(self, q: RequestV) -> Stepped {
        (St { wait: Some(q), ctrl: None, ..self }, ProgressV::Ask)
    }

    /// Nothing is left to do.
    pub open spec fn idle(self) -> St {
        St { act: None, konts: Seq::empty(), ctrl: None, wait: None, ..self }
    }

    /// The state at the start of a call: no constant has been evaluated.
    pub open spec fn fresh(self) -> St {
        St { consts: Seq::empty(), frozen: Seq::empty(), ..self.idle() }
    }

    #[verifier::opaque]
    pub open spec fn fail(self, e: RunErrorV) -> Stepped {
        (self.idle(), ProgressV::Done(Err(e)))
    }

    #[verifier::opaque]
    pub open spec fn done(self, v: ValueV) -> Stepped {
        (self.idle(), ProgressV::Done(Ok(v)))
    }

    #[verifier::opaque]
    pub open spec fn on_heap(self, h: HeapV) -> St {
        St { heap: h, ..self }
    }

    /// The slot of a symbol: the activation's own, or one that its function captured.
    #[verifier::opaque]
    pub open spec fn slot(self, id: SymbolId) -> Option<usize> {
        match self.act {
            None => None,
            Some(a) => if a.locals.dom().contains(id) {
                Some(a.locals[id])
            } else {
                match a.func {
                    Some(i) => if i < self.funcs.len() && self.funcs[i as int].captured.dom().contains(
                        id,
                    ) {
                        Some(self.funcs[i as int].captured[id])
                    } else {
                        None
                    },
                    None => None,
                }
            },
        }
    }

    /// The value of a symbol.
    pub open spec fn lookup(self, id: SymbolId) -> Option<ValueV> {
        match self.slot(id) {
            Some(s) => cell_at(self.heap, ValueV::Cell(s)),
            None => None,
        }
    }

    /// A slot with a new value.
    #[verifier::opaque]
    pub open spec fn stored(self, slot: usize, v: ValueV) -> St {
        if cell_at(self.heap, ValueV::Cell(slot)) is Some {
            St { heap: self.heap.update(slot as int, ObjV::Cell(v)), ..self }
        } else {
            self
        }
    }

    /// A new slot of the activation.
    #[verifier::opaque]
    pub open spec fn bound(self, id: SymbolId, v: ValueV) -> St {
        match self.act {
            Some(a) => St {
                heap: self.heap.push(ObjV::Cell(v)),
                act: Some(
                    ActV { locals: a.locals.insert(id, self.heap.len() as usize), ..a },
                ),
                ..self
            },
            None => self,
        }
    }

    /// Introduce a symbol in the activation, or give it a new value there: the slot stays,
    /// so that a closure that captured it sees the value.
    #[verifier::opaque]
    pub open spec fn declared(self, r: ResolutionV, name: IdentV, v: ValueV) -> Result<St, RunErrorV> {
        match r.def_of(name.span) {
            None => Err(internal("no symbol id for `"@ + name.node + "`"@)),
            Some(id) => match self.act {
                None => Err(internal("declare with no active frame"@)),
                Some(a) => if a.locals.dom().contains(id) {
                    Ok(self.stored(a.locals[id], v))
                } else {
                    Ok(self.bound(id, v))
                },
            },
        }
    }

    /// Assign to the symbol named at `span`.
    #[verifier::opaque]
    pub open spec fn assigned(self, r: ResolutionV, span: Span, v: ValueV) -> Result<St, RunErrorV> {
        let id = match r.binding_of(span) {
            Some(BindingV::Local(id)) => Some(id),
            Some(BindingV::Upvalue(id)) => Some(id),
            _ => r.def_of(span),
        };
        match id {
            None => Err(internal("assignment to unresolved symbol"@)),
            Some(i) => match self.slot(i) {
                Some(s) => Ok(self.stored(s, v)),
                None => if self.act is None {
                    Err(internal("assign with no active frame"@))
                } else {
                    Ok(self.bound(i, v))
                },
            },
        }
    }

    /// The slots that a function with this body captures: those of the symbols it refers to
    /// that are alive.
    #[verifier::opaque]
    pub open spec fn captured(self, r: ResolutionV, body: FuncBodyV) -> Map<SymbolId, usize> {
        Map::new(
            |id: SymbolId|
                id < id_count(r) && ids_block(r, body.block).contains(id) && self.slot(id) is Some,
            |id: SymbolId| self.slot(id)->0,
        )
    }

    /// A new function, and its value.
    #[verifier::opaque]
    pub open spec fn made(self, r: ResolutionV, body: FuncBodyV) -> (St, ValueV) {
        let f = FuncV {
            params: param_ids_of(r, body.params, body.params.len()),
            body,
            captured: self.captured(r, body),
        };
        (St { funcs: self.funcs.push(f), ..self }, ValueV::Function(self.funcs.len() as usize))
    }

    /// The activation of a function: every parameter has a slot of its own.
    #[verifier::opaque]
    pub open spec fn entered(self, i: usize, args: Seq<ValueV>) -> St {
        let f = self.funcs[i as int];
        let (heap, locals) = bind_params(self.heap, f.params, args, 0, Map::empty());
        St {
            heap,
            act: Some(ActV { func: Some(i), locals }),
            konts: self.konts.push(KontV::Call(self.act)),
            ctrl: Some(CtrlV::Block(f.body.block, 0)),
            ..self
        }
    }
}

pub open spec fn internal(msg: Seq<char>) -> RunErrorV {
    RunErrorV::Internal(msg)
}

/// The symbols of the first `n` parameters.
pub open spec fn param_ids_of(r: ResolutionV, params: Seq<IdentV>, n: nat) -> Seq<SymbolId>
    decreases n,
{
    if n == 0 {
        Seq::empty()
    } else {
        let front = param_ids_of(r, params, (n - 1) as nat);
        match r.def_of(params[n - 1].span) {
            Some(id) => front.push(id),
            None => front,
        }
    }
}

/// The slots of the parameters from `i` on; a missing argument is nil.
#[verifier::opaque]
pub open spec fn bind_params(
    h: HeapV,
    params: Seq<SymbolId>,
    args: Seq<ValueV>,
    i: int,
    locals: Map<SymbolId, usize>,
) -> (HeapV, Map<SymbolId, usize>)
    decreases params.len() - i,
{
    if 0 <= i < params.len() {
        bind_params(
            h.push(ObjV::Cell(arg(args, i))),
            params,
            args,
            i + 1,
            locals.insert(params[i], h.len() as usize),
        )
    } else {
        (h, locals)
    }
}

/// Declare the names from `i` on; a missing value is nil. Yields the state, and what failed.
#[verifier::opaque]
pub open spec fn declare_all(r: ResolutionV, st: St, names: Seq<IdentV>, vs: Seq<ValueV>, i: int) -> (
    St,
    Option<RunErrorV>,
)
    decreases names.len() - i,
{
    if 0 <= i < names.len() {
        match st.declared(r, names[i], arg(vs, i)) {
            Ok(st1) => declare_all(r, st1, names, vs, i + 1),
            Err(e) => (st, Some(e)),
        }
    } else {
        (st, None)
    }
}

/// A state, or the failure.
pub open spec fn or_fail(st: St, r: Result<St, RunErrorV>, f: FlowV) -> Stepped {
    match r {
        Ok(st1) => st1.flow(f),
        Err(e) => st.fail(e),
    }
}

/// If an expression is the name of a builtin namespace, that name.
pub open spec fn namespace_of(r: ResolutionV, e: ExprV) -> Option<Seq<char>> {
    match (e.kind, r.binding_of(e.span)) {
        (ExprKindV::Name(_), Some(BindingV::Builtin(ns))) => Some(ns),
        _ => None,
    }
}

pub open spec fn expected(what: Seq<char>, v: ValueV) -> RunErrorV {
    internal("expected a "@ + what + ", found "@ + kind_name_of(v))
}

/// What a name stands for.
#[verifier::opaque]
pub open spec fn named(r: ResolutionV, st: St, e: ExprV, name: Seq<char>) -> Result<ValueV, RunErrorV> {
    match r.binding_of(e.span) {
        None => Err(internal("unresolved name `"@ + name + "`"@)),
        Some(BindingV::Local(id)) | Some(BindingV::Upvalue(id)) => match st.lookup(id) {
            Some(v) => Ok(v),
            None => Err(internal("`"@ + name + "` used before assignment"@)),
        },
        Some(BindingV::TopFunction(n)) => match get_of(st.top, n) {
            Some(v) => Ok(v),
            None => Err(internal("missing function `"@ + n + "`"@)),
        },
        Some(BindingV::TopConst(n)) => Err(internal("missing const `"@ + n + "`"@)),
        Some(BindingV::HostFunction(n)) => match get_of(st.hosts, n) {
            Some(_) => Ok(ValueV::Native(n)),
            None => Err(
                RunErrorV::Runtime("host function `"@ + n + "` was not registered"@),
            ),
        },
        Some(BindingV::Memory(n)) => match get_of(st.memory, n) {
            Some(v) => Ok(v),
            None => Err(RunErrorV::Runtime("memory `"@ + n + "` was not provided"@)),
        },
        Some(BindingV::Builtin(n)) => Err(
            internal("builtin namespace `"@ + n + "` used as a value"@),
        ),
    }
}

/// A value, or the failure.
pub open spec fn yield_of(st: St, r: Result<ValueV, RunErrorV>) -> Stepped {
    match r {
        Ok(v) => st.have(v),
        Err(e) => st.fail(e),
    }
}

/// The outcome of a builtin.
pub open spec fn outcome_of(st: St, r: Result<OutcomeV, RunErrorV>) -> Stepped {
    match r {
        Ok(OutcomeV::Value(v)) => st.have(v),
        Ok(OutcomeV::Ask(q)) => st.ask(q),
        Err(e) => st.fail(e),
    }
}

/// A call of a value.
#[verifier::opaque]
pub open spec fn call_value_of(st: St, callee: ValueV, args: Seq<ValueV>) -> Stepped {
    match callee {
        ValueV::Native(name) => st.ask(RequestV::Host(name, args)),
        ValueV::Function(i) => if i < st.funcs.len() {
            (st.entered(i, args), ProgressV::Running)
        } else {
            st.fail(internal("attempted to call a "@ + kind_name_of(callee) + " value"@))
        },
        _ => st.fail(internal("attempted to call a "@ + kind_name_of(callee) + " value"@)),
    }
}

/// A call of what was called, once its arguments are there.
#[verifier::opaque]
pub open spec fn call_of(st: St, callee: CalleeV, args: Seq<ValueV>) -> Stepped {
    match callee {
        CalleeV::Value(v) => call_value_of(st, v, args),
        CalleeV::BuiltinValue(ns) => outcome_of(st, value_call_of(st.heap, ns, args)),
        CalleeV::BuiltinMember(ns, name) => outcome_of(
            st,
            member_call_of(st.heap, ns, name, args),
        ),
    }
}

/// The arguments from those that are there on.
#[verifier::opaque]
pub open spec fn args_of(st: St, callee: CalleeV, args: Seq<ExprV>, done: Seq<ValueV>) -> Stepped {
    if done.len() < args.len() {
        st.eval(args[done.len() as int], KontV::Args(callee, args, done))
    } else {
        call_of(st, callee, done)
    }
}

/// The elements of an array constructor, from those that are there on.
#[verifier::opaque]
pub open spec fn items_of(st: St, fields: Seq<FieldV>, done: Seq<ValueV>) -> Stepped {
    if done.len() < fields.len() {
        match fields[done.len() as int] {
            FieldV::Positional(e) => st.eval(e, KontV::Items(fields, done)),
            _ => st.fail(internal("not an array constructor"@)),
        }
    } else {
        St { heap: st.heap.push(ObjV::Array(done)), ..st }.have(
            ValueV::Array(st.heap.len() as usize),
        )
    }
}

/// The fields of a table constructor from `i` on.
#[verifier::opaque]
pub open spec fn entries_of(
    st: St,
    fields: Seq<FieldV>,
    i: int,
    es: Seq<(Seq<char>, ValueV)>,
) -> Stepped {
    if 0 <= i < fields.len() {
        match fields[i] {
            FieldV::Named { name, value } => st.eval(
                value,
                KontV::Entry(fields, i, es, name.node),
            ),
            FieldV::Keyed { key, .. } => st.eval(key, KontV::EntryKey(fields, i, es)),
            FieldV::Positional(e) => st.eval(e, KontV::Mixed),
        }
    } else {
        St { heap: st.heap.push(ObjV::Table(es)), ..st }.have(
            ValueV::Table(st.heap.len() as usize),
        )
    }
}

/// The last constant among the first `n` declarations that has a name.
pub open spec fn const_decl(decls: Seq<TopDeclV>, name: Seq<char>, n: nat) -> Option<ExprV>
    decreases n,
{
    if n == 0 {
        None
    } else {
        match decls[n - 1] {
            TopDeclV::Const(c) => if c.name.node == name {
                Some(c.value)
            } else {
                const_decl(decls, name, (n - 1) as nat)
            },
            TopDeclV::Function(_) => const_decl(decls, name, (n - 1) as nat),
        }
    }
}

/// Read a constant: its value is kept for the rest of the call.
#[verifier::opaque]
pub open spec fn const_ref_of(m: ModuleV, st: St, name: Seq<char>) -> Stepped {
    match get_of(st.consts, name) {
        Some(v) => st.have(v),
        None => match const_decl(m.decls, name, m.decls.len()) {
            Some(e) => st.eval(e, KontV::Memo(name, st.heap.len() as usize)),
            None => st.fail(internal("missing const `"@ + name + "`"@)),
        },
    }
}

/// Evaluate an expression.
#[verifier::opaque]
pub open spec fn eval_of(m: ModuleV, r: ResolutionV, st: St, e: ExprV) -> Stepped {
    match e.kind {
        ExprKindV::Nil => st.have(ValueV::Nil),
        ExprKindV::Bool(b) => st.have(ValueV::Bool(b)),
        ExprKindV::Number(n) => st.ask(RequestV::Numeral(n)),
        ExprKindV::Str(s) => st.have(ValueV::Str(s)),
        ExprKindV::Paren(inner) => st.run(CtrlV::Eval(*inner)),
        ExprKindV::Name(name) => match r.binding_of(e.span) {
            Some(BindingV::TopConst(n)) => const_ref_of(m, st, n),
            _ => yield_of(st, named(r, st, e, name)),
        },
        ExprKindV::Function(body) => {
            let (st1, v) = st.made(r, body);
            st1.have(v)
        },
        ExprKindV::Field { base, name } => match namespace_of(r, *base) {
            Some(ns) => yield_of(st, field_value_of(ns, name.node)),
            None => st.eval(*base, KontV::Field(name.node)),
        },
        ExprKindV::Index { base, index } => st.eval(*base, KontV::Index(*index)),
        ExprKindV::Call { callee, args } => eval_call_of(r, st, *callee, args),
        ExprKindV::MethodCall { method, .. } => st.fail(
            internal(
                "method call `:"@ + method.node + "` is not supported by the interpreter"@,
            ),
        ),
        ExprKindV::Table(fields) => if all_positional(fields) {
            items_of(st, fields, Seq::empty())
        } else {
            entries_of(st, fields, 0, Seq::empty())
        },
        ExprKindV::Unary { op, operand } => st.eval(*operand, KontV::Unary(op)),
        ExprKindV::Binary { op, lhs, rhs } => st.eval(*lhs, KontV::Rhs(op, *rhs)),
    }
}

/// Evaluate a call: of a builtin by its name, of a member of a namespace, or of a value.
#[verifier::opaque]
pub open spec fn eval_call_of(r: ResolutionV, st: St, callee: ExprV, args: Seq<ExprV>) -> Stepped {
    match namespace_of(r, callee) {
        Some(ns) => args_of(st, CalleeV::BuiltinValue(ns), args, Seq::empty()),
        None => match callee.kind {
            ExprKindV::Field { base, name } => match namespace_of(r, *base) {
                Some(ns) => args_of(
                    st,
                    CalleeV::BuiltinMember(ns, name.node),
                    args,
                    Seq::empty(),
                ),
                None => st.eval(callee, KontV::Callee(args)),
            },
            _ => st.eval(callee, KontV::Callee(args)),
        },
    }
}

/// Declare what values are there for, or evaluate the next one.
#[verifier::opaque]
pub open spec fn local_of(r: ResolutionV, st: St, names: Seq<IdentV>, exprs: Seq<ExprV>, done: Seq<ValueV>) -> Stepped {
    if done.len() < exprs.len() {
        st.eval(exprs[done.len() as int], KontV::Local(names, exprs, done))
    } else {
        match declare_all(r, st, names, done, 0) {
            (st1, None) => st1.flow(FlowV::Normal),
            (st1, Some(e)) => st1.fail(e),
        }
    }
}

/// Assign the values from the `j`-th target on.
#[verifier::opaque]
pub open spec fn assign_of(r: ResolutionV, st: St, targets: Seq<ExprV>, vs: Seq<ValueV>, j: int) -> Stepped {
    if 0 <= j < targets.len() {
        let t = targets[j];
        let v = arg(vs, j);
        let st1 = st.push(KontV::Assign(targets, vs, j + 1));
        match t.kind {
            ExprKindV::Name(_) => or_fail(st1, st1.assigned(r, t.span, v), FlowV::Normal),
            ExprKindV::Field { base, name } => st1.eval(*base, KontV::SetField(name.node, v)),
            ExprKindV::Index { base, index } => st1.eval(*base, KontV::SetBase(*index, v)),
            _ => st1.fail(internal("invalid assignment target"@)),
        }
    } else {
        st.flow(FlowV::Normal)
    }
}

/// The values of an assignment, from those that are there on.
#[verifier::opaque]
pub open spec fn values_of(r: ResolutionV, st: St, targets: Seq<ExprV>, exprs: Seq<ExprV>, done: Seq<ValueV>) -> Stepped {
    if done.len() < exprs.len() {
        st.eval(exprs[done.len() as int], KontV::Values(targets, exprs, done))
    } else {
        assign_of(r, st, targets, done, 0)
    }
}

/// The arms of a conditional from `i` on.
#[verifier::opaque]
pub open spec fn if_of(st: St, arms: Seq<(ExprV, BlockV)>, i: int, or: Option<BlockV>) -> Stepped {
    if 0 <= i < arms.len() {
        st.eval(arms[i].0, KontV::If(arms, i, or))
    } else {
        match or {
            Some(b) => st.run(CtrlV::Block(b, 0)),
            None => st.flow(FlowV::Normal),
        }
    }
}

/// Declare a function: the name comes first, so that the body may call it.
#[verifier::opaque]
pub open spec fn local_function_of(r: ResolutionV, st: St, name: IdentV, body: FuncBodyV) -> Stepped {
    match st.declared(r, name, ValueV::Nil) {
        Err(e) => st.fail(e),
        Ok(st1) => {
            let (st2, v) = st1.made(r, body);
            or_fail(st2, st2.assigned(r, name.span, v), FlowV::Normal)
        },
    }
}

/// Execute a statement.
#[verifier::opaque]
pub open spec fn exec_of(r: ResolutionV, st: St, s: StatV) -> Stepped {
    match s.kind {
        StatKindV::Empty => st.flow(FlowV::Normal),
        StatKindV::Break => st.flow(FlowV::Break),
        StatKindV::Local { names, exprs } => local_of(r, st, names, exprs, Seq::empty()),
        StatKindV::LocalFunction { name, body } => local_function_of(r, st, name, body),
        StatKindV::Assign { targets, exprs } => values_of(r, st, targets, exprs, Seq::empty()),
        StatKindV::Call(e) => st.eval(e, KontV::Drop),
        StatKindV::Do(b) => st.run(CtrlV::Block(b, 0)),
        StatKindV::While { cond, body } => st.eval(cond, KontV::WhileCond(cond, body)),
        StatKindV::If { arms, else_block } => if_of(st, arms, 0, else_block),
        StatKindV::NumericFor { var, start, end, step, body } => st.eval(
            start,
            KontV::ForStart(var, end, step, body),
        ),
        StatKindV::GenericFor { names, iter, body } => match iter {
            IterExprV::IPairs { arg, .. } => st.eval(arg, KontV::Iter(names, false, body)),
            IterExprV::Pairs { arg, .. } => st.eval(arg, KontV::Iter(names, true, body)),
        },
    }
}

/// Execute the statements of a block from `i` on, and its `return`.
#[verifier::opaque]
pub open spec fn block_of(st: St, b: BlockV, i: int) -> Stepped {
    if 0 <= i < b.stats.len() {
        st.push(KontV::Block(b, i + 1)).run(CtrlV::Exec(b.stats[i]))
    } else {
        match b.ret {
            Some(ret) => if ret.exprs.len() > 0 {
                st.eval(ret.exprs[0], KontV::Return)
            } else {
                st.flow(FlowV::Return(ValueV::Nil))
            },
            None => st.flow(FlowV::Normal),
        }
    }
}

/// Whether a loop whose counter is `i` goes on.
pub open spec fn goes_on(i: u64, end: u64, step: u64) -> bool {
    if order_of(step, 0) == Some(Order::Greater) || order_of(step, 0) == Some(Order::Equal) {
        order_of(i, end) == Some(Order::Less) || order_of(i, end) == Some(Order::Equal)
    } else {
        order_of(i, end) == Some(Order::Greater) || order_of(i, end) == Some(Order::Equal)
    }
}

/// The next pass of a counting loop.
#[verifier::opaque]
pub open spec fn for_of(r: ResolutionV, st: St, var: IdentV, i: u64, end: u64, step: u64, body: BlockV) -> Stepped {
    if goes_on(i, end, step) {
        match st.declared(r, var, ValueV::Number(i)) {
            Ok(st1) => st1.block(body, KontV::ForBody(var, i, end, step, body)),
            Err(e) => st.fail(e),
        }
    } else {
        st.flow(FlowV::Normal)
    }
}

/// The number 1.
pub const ONE: u64 = 0x3ff0_0000_0000_0000;

/// Declare the second name of a loop over items, and execute its body.
#[verifier::opaque]
pub open spec fn item_body_of(
    r: ResolutionV,
    st: St,
    names: Seq<IdentV>,
    item: ValueV,
    body: BlockV,
    k: KontV,
) -> Stepped {
    if names.len() > 1 {
        match st.declared(r, names[1], item) {
            Ok(st1) => st1.block(body, k),
            Err(e) => st.fail(e),
        }
    } else {
        st.block(body, k)
    }
}

/// The next pass of a loop over the elements of an array.
#[verifier::opaque]
pub open spec fn ipairs_of(r: ResolutionV, st: St, names: Seq<IdentV>, arr: ValueV, len: int, idx: int, body: BlockV) -> Stepped {
    if 0 <= idx < len {
        if names.len() > 0 {
            st.push(KontV::ItemKey(names, arr, len, idx, body)).ask(
                RequestV::Count((idx + 1) as u64),
            )
        } else {
            item_of(r, st, names, arr, len, idx, body)
        }
    } else {
        st.flow(FlowV::Normal)
    }
}

/// The pass over the element at `idx`, once its index is declared.
#[verifier::opaque]
pub open spec fn item_of(r: ResolutionV, st: St, names: Seq<IdentV>, arr: ValueV, len: int, idx: int, body: BlockV) -> Stepped {
    match array_at(st.heap, arr) {
        Some(items) => if 0 <= idx < items.len() {
            item_body_of(
                r,
                st,
                names,
                items[idx],
                body,
                KontV::NextItem(names, arr, len, idx + 1, body),
            )
        } else {
            st.fail(internal("array shrank during ipairs"@))
        },
        None => st.fail(internal("array shrank during ipairs"@)),
    }
}

/// The next pass of a loop over the entries of a table.
#[verifier::opaque]
pub open spec fn pairs_of(r: ResolutionV, st: St, names: Seq<IdentV>, es: Seq<(Seq<char>, ValueV)>, idx: int, body: BlockV) -> Stepped {
    if 0 <= idx < es.len() {
        let k = KontV::NextEntry(names, es, idx + 1, body);
        if names.len() > 0 {
            match st.declared(r, names[0], ValueV::Str(es[idx].0)) {
                Ok(st1) => item_body_of(r, st1, names, es[idx].1, body, k),
                Err(e) => st.fail(e),
            }
        } else {
            item_body_of(r, st, names, es[idx].1, body, k)
        }
    } else {
        st.flow(FlowV::Normal)
    }
}

/// A loop over what the iterator expression yielded.
#[verifier::opaque]
pub open spec fn iter_of(r: ResolutionV, st: St, names: Seq<IdentV>, pairs: bool, body: BlockV, v: ValueV) -> Stepped {
    if pairs {
        match table_at(st.heap, v) {
            Some(es) => pairs_of(r, st, names, es, 0, body),
            None => st.fail(internal("pairs expected a table, found "@ + kind_name_of(v))),
        }
    } else {
        match array_at(st.heap, v) {
            Some(items) => ipairs_of(r, st, names, v, items.len() as int, 0, body),
            None => st.fail(internal("ipairs expected an array, found "@ + kind_name_of(v))),
        }
    }
}

/// A unary operator on a value.
#[verifier::opaque]
pub open spec fn unary_of(st: St, op: UnOp, v: ValueV) -> Stepped {
    match op {
        UnOp::Neg => match v {
            ValueV::Number(b) => st.have(ValueV::Number(negated(b))),
            _ => st.fail(internal("unary `-` on a "@ + kind_name_of(v) + " value"@)),
        },
        UnOp::Not => st.have(ValueV::Bool(!truthy(v))),
        UnOp::Len => match v {
            ValueV::Str(s) => st.ask(RequestV::Count(encode_utf8(s).len() as u64)),
            _ => match array_at(st.heap, v) {
                Some(items) => st.ask(RequestV::Count(items.len() as u64)),
                None => st.fail(internal("`#` on a "@ + kind_name_of(v) + " value"@)),
            },
        },
    }
}

/// How two values compare: numbers by size, strings by their bytes.
pub open spec fn ordered(a: ValueV, b: ValueV) -> Result<Order, RunErrorV> {
    match (a, b) {
        (ValueV::Number(x), ValueV::Number(y)) => match order_of(x, y) {
            Some(o) => Ok(o),
            None => Err(RunErrorV::Runtime("comparison with NaN"@)),
        },
        (ValueV::Str(_), ValueV::Str(_)) => compared(a, b),
        _ => Err(
            internal("cannot compare "@ + kind_name_of(a) + " with "@ + kind_name_of(b)),
        ),
    }
}

/// A binary operator on two values.
#[verifier::opaque]
pub open spec fn binary_of(st: St, op: BinOp, l: ValueV, r: ValueV) -> Stepped {
    match op {
        BinOp::Add | BinOp::Sub | BinOp::Mul | BinOp::Div | BinOp::FloorDiv | BinOp::Mod
        | BinOp::Pow => match (l, r) {
            (ValueV::Number(a), ValueV::Number(b)) => st.ask(RequestV::Arith(op, a, b)),
            (ValueV::Number(_), _) => st.fail(expected("number"@, r)),
            _ => st.fail(expected("number"@, l)),
        },
        BinOp::Concat => match (l, r) {
            (ValueV::Str(a), ValueV::Str(b)) => st.have(ValueV::Str(a + b)),
            (ValueV::Str(_), _) => st.fail(expected("string"@, r)),
            _ => st.fail(expected("string"@, l)),
        },
        BinOp::Lt | BinOp::Le | BinOp::Gt | BinOp::Ge => match ordered(l, r) {
            Ok(o) => st.have(ValueV::Bool(satisfies(op, o))),
            Err(e) => st.fail(e),
        },
        BinOp::Eq => st.have(ValueV::Bool(same_value(l, r))),
        BinOp::Ne => st.have(ValueV::Bool(!same_value(l, r))),
        _ => st.have(r),
    }
}

/// The left operand is there: `and` and `or` may need no more.
#[verifier::opaque]
pub open spec fn rhs_of(st: St, op: BinOp, rhs: ExprV, l: ValueV) -> Stepped {
    match op {
        BinOp::And => if truthy(l) {
            st.run(CtrlV::Eval(rhs))
        } else {
            st.have(l)
        },
        BinOp::Or => if truthy(l) {
            st.have(l)
        } else {
            st.run(CtrlV::Eval(rhs))
        },
        _ => st.eval(rhs, KontV::Binary(op, l)),
    }
}

/// Read a field of a value.
#[verifier::opaque]
pub open spec fn field_of(st: St, name: Seq<char>, v: ValueV) -> Stepped {
    match table_at(st.heap, v) {
        Some(t) => st.have(
            match get_of(t, name) {
                Some(x) => x,
                None => ValueV::Nil,
            },
        ),
        None => st.fail(
            internal("cannot read field `"@ + name + "` of a "@ + kind_name_of(v) + " value"@),
        ),
    }
}

/// Read an element of an array or an entry of a table, once the key is there.
#[verifier::opaque]
pub open spec fn key_of(st: St, base: ValueV, key: ValueV) -> Stepped {
    match array_at(st.heap, base) {
        Some(items) => match key {
            ValueV::Number(b) => st.have(
                match index_of(b) {
                    Some(i) => if i <= items.len() {
                        items[i - 1]
                    } else {
                        ValueV::Nil
                    },
                    None => ValueV::Nil,
                },
            ),
            _ => st.fail(expected("number"@, key)),
        },
        None => match (table_at(st.heap, base), key) {
            (Some(t), ValueV::Str(k)) => st.have(
                match get_of(t, k) {
                    Some(x) => x,
                    None => ValueV::Nil,
                },
            ),
            (Some(_), _) => st.fail(expected("string key"@, key)),
            (None, _) => st.fail(internal("cannot index a "@ + kind_name_of(base) + " value"@)),
        },
    }
}

/// Whether a value is an array or a table.
pub open spec fn is_container(h: HeapV, v: ValueV) -> bool {
    array_at(h, v) is Some || table_at(h, v) is Some
}

/// Write an element of an array.
#[verifier::opaque]
pub open spec fn array_set_of(st: St, base: ValueV, idx: u64, v: ValueV) -> Stepped {
    match array_at(st.heap, base) {
        Some(_) if is_frozen(st.frozen, base) => st.fail(frozen_error_of()),
        Some(items) => match index_of(idx) {
            None => st.push(KontV::BadIndex).ask(RequestV::Show(seq![PieceV::General(idx)])),
            Some(i) => if i <= items.len() {
                st.on_heap(
                    st.heap.update(base->Array_0 as int, ObjV::Array(items.update(i - 1, v))),
                ).flow(FlowV::Normal)
            } else if i == items.len() + 1 {
                st.on_heap(
                    st.heap.update(base->Array_0 as int, ObjV::Array(items.push(v))),
                ).flow(FlowV::Normal)
            } else {
                st.fail(
                    RunErrorV::Runtime(
                        "array index "@ + dec(i as nat) + " is out of range (length "@ + dec(
                            items.len(),
                        ) + "); arrays may only grow by one"@,
                    ),
                )
            },
        },
        None => st.fail(internal("cannot index-assign a "@ + kind_name_of(base) + " value"@)),
    }
}

/// Write an element or an entry, once the key is there.
#[verifier::opaque]
pub open spec fn set_key_of(st: St, base: ValueV, key: ValueV, v: ValueV) -> Stepped {
    if array_at(st.heap, base) is Some {
        match key {
            ValueV::Number(b) => array_set_of(st, base, b, v),
            _ => st.fail(expected("number"@, key)),
        }
    } else {
        match (table_at(st.heap, base), key) {
            (Some(t), ValueV::Str(k)) => if is_frozen(st.frozen, base) {
                st.fail(frozen_error_of())
            } else {
                st.on_heap(
                    st.heap.update(base->Table_0 as int, ObjV::Table(put_of(t, k, v))),
                ).flow(FlowV::Normal)
            },
            (Some(_), _) => st.fail(expected("string key"@, key)),
            (None, _) => st.fail(
                internal("cannot index-assign a "@ + kind_name_of(base) + " value"@),
            ),
        }
    }
}

/// Write a field of a value.
#[verifier::opaque]
pub open spec fn set_field_of(st: St, name: Seq<char>, base: ValueV, v: ValueV) -> Stepped {
    match table_at(st.heap, base) {
        Some(t) => if is_frozen(st.frozen, base) {
            st.fail(frozen_error_of())
        } else {
            st.on_heap(
                st.heap.update(base->Table_0 as int, ObjV::Table(put_of(t, name, v))),
            ).flow(FlowV::Normal)
        },
        None => st.fail(
            internal(
                "cannot set field `"@ + name + "` on a "@ + kind_name_of(base) + " value"@,
            ),
        ),
    }
}

/// The next declaration: functions are there already, constants are evaluated.
#[verifier::opaque]
pub open spec fn decl_of(m: ModuleV, st: St, i: int) -> Stepped {
    if 0 <= i < m.decls.len() {
        match m.decls[i] {
            TopDeclV::Function(_) => st.run(CtrlV::Decl(i + 1)),
            TopDeclV::Const(c) => st.eval(c.value, KontV::Const(i)),
        }
    } else {
        match m.export {
            Some(_) => st.run(CtrlV::Export(0)),
            None => St {
                exports: put_all(put_all(st.exports, st.top, st.top.len()), st.consts, st.consts.len()),
                ..st
            }.done(ValueV::Nil),
        }
    }
}

/// Entries with the first `n` of others put over them.
pub open spec fn put_all(es: Seq<(Seq<char>, ValueV)>, more: Seq<(Seq<char>, ValueV)>, n: nat) -> Seq<
    (Seq<char>, ValueV),
>
    decreases n,
{
    if n == 0 {
        es
    } else {
        put_of(put_all(es, more, (n - 1) as nat), more[n - 1].0, more[n - 1].1)
    }
}

/// The next field of the export table.
#[verifier::opaque]
pub open spec fn export_of(m: ModuleV, st: St, i: int) -> Stepped {
    match m.export {
        Some(e) => if 0 <= i < e.node.len() {
            match e.node[i] {
                FieldV::Named { value, .. } => st.eval(value, KontV::Export(i)),
                _ => st.run(CtrlV::Export(i + 1)),
            }
        } else {
            st.done(ValueV::Nil)
        },
        None => st.done(ValueV::Nil),
    }
}

/// A constant has its value.
#[verifier::opaque]
pub open spec fn const_of(m: ModuleV, st: St, i: int, v: ValueV) -> Stepped {
    if 0 <= i < m.decls.len() {
        match m.decls[i] {
            TopDeclV::Const(c) => St { consts: put_of(st.consts, c.name.node, v), ..st }.run(
                CtrlV::Decl(i + 1),
            ),
            TopDeclV::Function(_) => st.run(CtrlV::Decl(i + 1)),
        }
    } else {
        st.fail(internal("no such declaration"@))
    }
}

/// An export has its value.
#[verifier::opaque]
pub open spec fn exported_of(m: ModuleV, st: St, i: int, v: ValueV) -> Stepped {
    match m.export {
        Some(e) => if 0 <= i < e.node.len() {
            match e.node[i] {
                FieldV::Named { name, .. } => St {
                    exports: put_of(st.exports, name.node, v),
                    ..st
                }.run(CtrlV::Export(i + 1)),
                _ => st.run(CtrlV::Export(i + 1)),
            }
        } else {
            st.fail(internal("no such declaration"@))
        },
        None => st.fail(internal("no such declaration"@)),
    }
}

/// The key of an entry is there.
#[verifier::opaque]
pub open spec fn entry_key_of(
    st: St,
    fields: Seq<FieldV>,
    i: int,
    es: Seq<(Seq<char>, ValueV)>,
    v: ValueV,
) -> Stepped {
    match v {
        ValueV::Str(key) => if 0 <= i < fields.len() {
            match fields[i] {
                FieldV::Keyed { value, .. } => st.eval(value, KontV::Entry(fields, i, es, key)),
                _ => st.fail(internal("no such field"@)),
            }
        } else {
            st.fail(internal("no such field"@))
        },
        _ => st.fail(expected("string key"@, v)),
    }
}

/// A value is there for a part of an expression or of a declaration.
#[verifier::opaque]
pub open spec fn have_in_expr(m: ModuleV, st: St, k: KontV, v: ValueV) -> Stepped {
    match k {
        KontV::Unary(op) => unary_of(st, op, v),
        KontV::Rhs(op, rhs) => rhs_of(st, op, rhs, v),
        KontV::Binary(op, l) => binary_of(st, op, l, v),
        KontV::Field(name) => field_of(st, name, v),
        KontV::Index(index) => if is_container(st.heap, v) {
            st.eval(index, KontV::Key(v))
        } else {
            st.fail(internal("cannot index a "@ + kind_name_of(v) + " value"@))
        },
        KontV::Key(base) => key_of(st, base, v),
        KontV::Callee(args) => args_of(st, CalleeV::Value(v), args, Seq::empty()),
        KontV::Args(callee, args, done) => args_of(st, callee, args, done.push(v)),
        KontV::Items(fields, done) => items_of(st, fields, done.push(v)),
        KontV::Entry(fields, i, es, key) => if 0 <= i < fields.len() {
            entries_of(st, fields, i + 1, put_of(es, key, v))
        } else {
            st.fail(internal("no such field"@))
        },
        KontV::EntryKey(fields, i, es) => entry_key_of(st, fields, i, es, v),
        KontV::Mixed => st.fail(
            internal("mixed positional/keyed table reached the interpreter"@),
        ),
        KontV::Memo(name, mark) => St {
            consts: put_of(st.consts, name, v),
            frozen: st.frozen.push((mark, st.heap.len() as usize)),
            ..st
        }.have(v),
        KontV::Const(i) => const_of(m, st, i, v),
        KontV::Export(i) => exported_of(m, st, i, v),
        _ => st.fail(internal("value where a statement ends"@)),
    }
}

/// A value is there for a statement.
#[verifier::opaque]
pub open spec fn have_in_stat(r: ResolutionV, st: St, k: KontV, v: ValueV) -> Stepped {
    match k {
        KontV::Local(names, exprs, done) => local_of(r, st, names, exprs, done.push(v)),
        KontV::Values(targets, exprs, done) => values_of(r, st, targets, exprs, done.push(v)),
        KontV::SetField(name, x) => set_field_of(st, name, v, x),
        KontV::SetBase(index, x) => if is_container(st.heap, v) {
            st.eval(index, KontV::SetKey(v, x))
        } else {
            st.fail(internal("cannot index-assign a "@ + kind_name_of(v) + " value"@))
        },
        KontV::SetKey(base, x) => set_key_of(st, base, v, x),
        KontV::BadIndex => match v {
            ValueV::Str(s) => st.fail(
                RunErrorV::Runtime("array index "@ + s + " is not a positive integer"@),
            ),
            _ => st.fail(expected("string"@, v)),
        },
        KontV::Drop => st.flow(FlowV::Normal),
        KontV::WhileCond(cond, body) => if truthy(v) {
            st.block(body, KontV::WhileBody(cond, body))
        } else {
            st.flow(FlowV::Normal)
        },
        KontV::If(arms, i, or) => if !(0 <= i < arms.len()) {
            st.fail(internal("no such arm"@))
        } else if truthy(v) {
            st.run(CtrlV::Block(arms[i].1, 0))
        } else {
            if_of(st, arms, i + 1, or)
        },
        KontV::Return => st.flow(FlowV::Return(v)),
        _ => have_in_loop(r, st, k, v),
    }
}

/// A value is there for a loop.
#[verifier::opaque]
pub open spec fn have_in_loop(r: ResolutionV, st: St, k: KontV, v: ValueV) -> Stepped {
    match (k, v) {
        (KontV::ForStart(var, end, step, body), ValueV::Number(b)) => st.eval(
            end,
            KontV::ForEnd(var, b, step, body),
        ),
        (KontV::ForEnd(var, start, step, body), ValueV::Number(b)) => match step {
            Some(e) => st.eval(e, KontV::ForStep(var, start, b, body)),
            None => for_of(r, st, var, start, b, ONE, body),
        },
        (KontV::ForStep(var, start, end, body), ValueV::Number(b)) => for_of(
            r,
            st,
            var,
            start,
            end,
            b,
            body,
        ),
        (KontV::ForNext(var, end, step, body), ValueV::Number(b)) => for_of(
            r,
            st,
            var,
            b,
            end,
            step,
            body,
        ),
        (KontV::Iter(names, pairs, body), _) => iter_of(r, st, names, pairs, body, v),
        (KontV::ItemKey(names, arr, len, idx, body), _) => if names.len() > 0 {
            match st.declared(r, names[0], v) {
                Ok(st1) => item_of(r, st1, names, arr, len, idx, body),
                Err(e) => st.fail(e),
            }
        } else {
            item_of(r, st, names, arr, len, idx, body)
        },
        (KontV::ForStart(_, _, _, _), _) | (KontV::ForEnd(_, _, _, _), _) | (
            KontV::ForStep(_, _, _, _),
            _,
        ) | (KontV::ForNext(_, _, _, _), _) => st.fail(expected("number"@, v)),
        _ => st.fail(internal("value where a statement ends"@)),
    }
}

/// Whether something waits for a value inside an expression or a declaration.
pub open spec fn in_expr(k: KontV) -> bool {
    match k {
        KontV::Unary(_) | KontV::Rhs(_, _) | KontV::Binary(_, _) | KontV::Field(_)
        | KontV::Index(_) | KontV::Key(_) | KontV::Callee(_) | KontV::Args(_, _, _)
        | KontV::Items(_, _) | KontV::Entry(_, _, _, _) | KontV::EntryKey(_, _, _) | KontV::Mixed
        | KontV::Const(_) | KontV::Export(_) | KontV::Memo(_, _) => true,
        _ => false,
    }
}

/// A statement has ended, for what waits for that.
#[verifier::opaque]
pub open spec fn flow_of(r: ResolutionV, st: St, k: KontV, f: FlowV) -> Stepped {
    match (k, f) {
        (KontV::Block(b, i), FlowV::Normal) => block_of(st, b, i),
        (KontV::Block(_, _), _) => st.flow(f),
        (KontV::Assign(targets, vs, j), FlowV::Normal) => assign_of(r, st, targets, vs, j),
        (KontV::WhileBody(cond, body), FlowV::Normal) => st.eval(
            cond,
            KontV::WhileCond(cond, body),
        ),
        (KontV::ForBody(var, i, end, step, body), FlowV::Normal) => st.push(
            KontV::ForNext(var, end, step, body),
        ).ask(RequestV::Arith(BinOp::Add, i, step)),
        (KontV::NextItem(names, arr, len, idx, body), FlowV::Normal) => ipairs_of(
            r,
            st,
            names,
            arr,
            len,
            idx,
            body,
        ),
        (KontV::NextEntry(names, es, idx, body), FlowV::Normal) => pairs_of(
            r,
            st,
            names,
            es,
            idx,
            body,
        ),
        (KontV::WhileBody(_, _), FlowV::Break) | (KontV::ForBody(_, _, _, _, _), FlowV::Break) | (
            KontV::NextItem(_, _, _, _, _),
            FlowV::Break,
        ) | (KontV::NextEntry(_, _, _, _), FlowV::Break) => st.flow(FlowV::Normal),
        (KontV::WhileBody(_, _), _) | (KontV::ForBody(_, _, _, _, _), _) | (
            KontV::NextItem(_, _, _, _, _),
            _,
        ) | (KontV::NextEntry(_, _, _, _), _) => st.flow(f),
        (KontV::Call(saved), FlowV::Return(v)) => St { act: saved, ..st }.have(v),
        (KontV::Call(saved), FlowV::Normal) => St { act: saved, ..st }.have(ValueV::Nil),
        (KontV::Call(_), FlowV::Break) => st.fail(
            internal("`break` escaped a function body"@),
        ),
        _ => st.fail(internal("statement where a value is expected"@)),
    }
}

/// One step: what is to be evaluated is, or is taken apart.
pub open spec fn step_of(m: ModuleV, r: ResolutionV, before: St) -> Stepped {
    let st = St { ctrl: None, ..before };
    match before.ctrl {
        None => if before.wait is Some {
            (before, ProgressV::Ask)
        } else {
            (before, ProgressV::Done(Err(internal("step without a call"@))))
        },
        Some(CtrlV::Eval(e)) => eval_of(m, r, st, e),
        Some(CtrlV::Exec(s)) => exec_of(r, st, s),
        Some(CtrlV::Block(b, i)) => block_of(st, b, i),
        Some(CtrlV::Decl(i)) => decl_of(m, st, i),
        Some(CtrlV::Export(i)) => export_of(m, st, i),
        Some(CtrlV::Have(v)) => if st.konts.len() == 0 {
            st.done(v)
        } else {
            let st1 = St { konts: st.konts.drop_last(), ..st };
            if in_expr(st.konts.last()) {
                have_in_expr(m, st1, st.konts.last(), v)
            } else {
                have_in_stat(r, st1, st.konts.last(), v)
            }
        },
        Some(CtrlV::Flow(f)) => if st.konts.len() == 0 {
            st.fail(internal("statement outside a function"@))
        } else {
            flow_of(r, St { konts: st.konts.drop_last(), ..st }, st.konts.last(), f)
        },
    }
}

/// Going on with an answer.
pub open spec fn resume_of(before: St, a: ReplyV) -> Stepped {
    match before.wait {
        Some(q) => {
            let st = St { wait: None, ..before };
            yield_of(st, answer_of(q, a))
        },
        None => (before, ProgressV::Done(Err(internal("resume without a request"@)))),
    }
}

/// The last field among the first `n` that exports a name.
pub open spec fn export_field(fields: Seq<FieldV>, name: Seq<char>, n: nat) -> Option<ExprV>
    decreases n,
{
    if n == 0 {
        None
    } else {
        match fields[n - 1] {
            FieldV::Named { name: k, value } => if k.node == name {
                Some(value)
            } else {
                export_field(fields, name, (n - 1) as nat)
            },
            _ => export_field(fields, name, (n - 1) as nat),
        }
    }
}

/// The start of a call of a value from outside: a function takes exactly its arguments.
#[verifier::opaque]
pub open spec fn call_from_host(st: St, name: Seq<char>, callee: ValueV, args: Seq<ValueV>) -> Stepped {
    match callee {
        ValueV::Function(i) => if i < st.funcs.len() && st.funcs[i as int].body.params.len()
            != args.len() {
            st.fail(arity_error_of(name, st.funcs[i as int].body.params.len(), args.len()))
        } else {
            call_value_of(st, callee, args)
        },
        _ => call_value_of(st, callee, args),
    }
}

/// Read an exported constant: it is evaluated like a constant that a script reads.
#[verifier::opaque]
pub open spec fn export_value_of(m: ModuleV, before: St, name: Seq<char>) -> Stepped {
    let st = St { act: Some(ActV { func: None, locals: Map::empty() }), ..before };
    match m.export {
        Some(e) => match export_field(e.node, name, e.node.len()) {
            Some(value) => st.run(CtrlV::Eval(value)),
            None => st.fail(RunErrorV::UnknownExport(name)),
        },
        None => const_ref_of(m, st, name),
    }
}

/// The start of a call of an export: a function with exactly its arguments, or a constant with
/// none.
pub open spec fn started_of(m: ModuleV, before: St, name: Seq<char>, args: Seq<ValueV>) -> Stepped {
    let st = before.fresh();
    match get_of(before.exports, name) {
        None => st.fail(RunErrorV::UnknownExport(name)),
        Some(v) => if v is Function || v is Native {
            call_from_host(st, name, v, args)
        } else if args.len() > 0 {
            st.fail(arity_error_of(name, 0, args.len()))
        } else {
            export_value_of(m, st, name)
        },
    }
}

/// The functions of the first `n` declarations, and their values by name.
pub open spec fn top_functions(r: ResolutionV, decls: Seq<TopDeclV>, n: nat) -> (
    Seq<FuncV>,
    Seq<(Seq<char>, ValueV)>,
)
    decreases n,
{
    if n == 0 {
        (Seq::empty(), Seq::empty())
    } else {
        let (fs, top) = top_functions(r, decls, (n - 1) as nat);
        match decls[n - 1] {
            TopDeclV::Function(f) => (
                fs.push(
                    FuncV {
                        params: param_ids_of(r, f.body.params, f.body.params.len()),
                        body: f.body,
                        captured: Map::empty(),
                    },
                ),
                put_of(top, f.name.node, ValueV::Function(fs.len() as usize)),
            ),
            TopDeclV::Const(_) => (fs, top),
        }
    }
}

/// An interpreter that is about to evaluate the declarations of its module.
pub open spec fn initial(m: ModuleV, r: ResolutionV) -> St {
    let (funcs, top) = top_functions(r, m.decls, m.decls.len());
    St {
        heap: Seq::empty(),
        funcs,
        top,
        consts: Seq::empty(),
        frozen: Seq::empty(),
        exports: Seq::empty(),
        hosts: Seq::empty(),
        memory: Seq::empty(),
        act: Some(ActV { func: None, locals: Map::empty() }),
        konts: Seq::empty(),
        ctrl: Some(CtrlV::Decl(0)),
        wait: None,
    }
}

/// A constant is not written to: whatever the key, a write to one of its objects fails.
pub proof fn law_constants_are_not_written(st: St, base: ValueV, key: ValueV, name: Seq<char>, v: ValueV)
    requires
        is_frozen(st.frozen, base),
    ensures
        set_key_of(st, base, key, v).1 matches ProgressV::Done(Err(_)),
        set_key_of(st, base, key, v).0.heap == st.heap,
        set_field_of(st, name, base, v).1 matches ProgressV::Done(Err(_)),
        set_field_of(st, name, base, v).0.heap == st.heap,
{
    reveal(set_key_of);
    reveal(array_set_of);
    reveal(set_field_of);
    reveal(St::fail);
}

/// A constant read twice in a call is the same value: once evaluated, it is what was kept.
pub proof fn law_constant_is_kept(m: ModuleV, st: St, name: Seq<char>)
    requires
        get_of(st.consts, name) is Some,
    ensures
        const_ref_of(m, st, name) == st.have(get_of(st.consts, name)->0),
{
    reveal(const_ref_of);
}

/// An assignment is read back: the symbol has the value, if its slot is one.
pub proof fn law_assignment_is_read_back(r: ResolutionV, st: St, span: Span, v: ValueV, id: SymbolId)
    requires
        st.assigned(r, span, v) is Ok,
        r.binding_of(span) == Some(BindingV::Local(id)) || r.binding_of(span) == Some(
            BindingV::Upvalue(id),
        ),
        st.slot(id) matches Some(s) ==> cell_at(st.heap, ValueV::Cell(s)) is Some,
        st.heap.len() < usize::MAX,
    ensures
        st.assigned(r, span, v)->Ok_0.lookup(id) == Some(v),
{
    reveal(St::assigned);
    reveal(St::stored);
    reveal(St::bound);
    reveal(St::slot);
}

/// A closure shares the variables that it captured: in its activation, a symbol that it does
/// not declare itself has the slot that it had where the closure was made.
pub proof fn law_closures_share_variables(r: ResolutionV, st: St, body: FuncBodyV, args: Seq<ValueV>, id: SymbolId)
    requires
        st.slot(id) is Some,
        id < id_count(r),
        ids_block(r, body.block).contains(id),
        st.funcs.len() < usize::MAX,
        !param_ids_of(r, body.params, body.params.len()).contains(id),
    ensures
        ({
            let (st1, f) = st.made(r, body);
            st1.entered(f->Function_0, args).slot(id) == st.slot(id)
        }),
{
    reveal(St::made);
    reveal(St::captured);
    reveal(St::entered);
    let (st1, f) = st.made(r, body);
    let func = st1.funcs[st.funcs.len() as int];
    assert(func.captured.dom().contains(id));
    lemma_only_params(st1.heap, func.params, args, 0, Map::empty(), id);
    assert(func.captured[id] == st.slot(id)->0);
    let st2 = st1.entered(f->Function_0, args);
    assert(st2.funcs == st1.funcs);
    assert(st2.slot(id) == st.slot(id)) by {
        reveal(St::slot);
    }
}

proof fn lemma_only_params(
    h: HeapV,
    params: Seq<SymbolId>,
    args: Seq<ValueV>,
    i: int,
    locals: Map<SymbolId, usize>,
    id: SymbolId,
)
    requires
        0 <= i <= params.len(),
        !params.contains(id),
        !locals.dom().contains(id),
    ensures
        !bind_params(h, params, args, i, locals).1.dom().contains(id),
    decreases params.len() - i,
{
    unfold_bind_params(h, params, args, i, locals);
    if i < params.len() {
        assert(params.contains(params[i]));
        lemma_only_params(
            h.push(ObjV::Cell(arg(args, i))),
            params,
            args,
            i + 1,
            locals.insert(params[i], h.len() as usize),
            id,
        );
    }
}

pub proof fn unfold_bind_params(
    h: HeapV,
    params: Seq<SymbolId>,
    args: Seq<ValueV>,
    i: int,
    locals: Map<SymbolId, usize>,
)
    ensures
        bind_params(h, params, args, i, locals) == ({
            if 0 <= i < params.len() {
                bind_params(
                    h.push(ObjV::Cell(arg(args, i))),
                    params,
                    args,
                    i + 1,
                    locals.insert(params[i], h.len() as usize),
                )
            } else {
                (h, locals)
            }
        }),
{
    reveal(bind_params);
}

pub proof fn unfold_declare_all(r: ResolutionV, st: St, names: Seq<IdentV>, vs: Seq<ValueV>, i: int)
    ensures
        declare_all(r, st, names, vs, i) == ({
            if 0 <= i < names.len() {
                match st.declared(r, names[i], arg(vs, i)) {
                    Ok(st1) => declare_all(r, st1, names, vs, i + 1),
                    Err(e) => (st, Some(e)),
                }
            } else {
                (st, None)
            }
        }),
{
    reveal(declare_all);
}
/// A script function.
#[derive(Debug)]
pub struct Func<'a> {
    params: Vec<SymbolId>,
    body: &'a FuncBody,
    captured: BTreeMap<SymbolId, usize>,
}

impl<'a> Func<'a> {
    pub closed spec fn view(&self) -> FuncV {
        FuncV { params: self.params@, body: self.body@, captured: self.captured@ }
    }
}

/// The variables of one activation.
#[derive(Debug)]
pub struct Act {
    func: Option<usize>,
    locals: BTreeMap<SymbolId, usize>,
}

impl Act {
    pub closed spec fn view(&self) -> ActV {
        ActV { func: self.func, locals: self.locals@ }
    }
}

/// How a statement ends.
#[derive(Debug)]
pub enum Flow {
    Normal,
    Break,
    Return(Value),
}

impl Flow {
    pub open spec fn view(&self) -> FlowV {
        match self {
            Flow::Normal => FlowV::Normal,
            Flow::Break => FlowV::Break,
            Flow::Return(v) => FlowV::Return(v@),
        }
    }
}

/// What is called.
#[derive(Debug)]
pub enum Callee {
    Value(Value),
    BuiltinValue(String),
    BuiltinMember(String, String),
}

impl Callee {
    pub open spec fn view(&self) -> CalleeV {
        match self {
            Callee::Value(v) => CalleeV::Value(v@),
            Callee::BuiltinValue(n) => CalleeV::BuiltinValue(n@),
            Callee::BuiltinMember(n, m) => CalleeV::BuiltinMember(n@, m@),
        }
    }
}

/// What is evaluated next.
#[derive(Debug)]
pub enum Ctrl<'a> {
    Eval(&'a Expr),
    Have(Value),
    Exec(&'a Stat),
    Block(&'a Block, usize),
    Flow(Flow),
    Decl(usize),
    Export(usize),
}

impl<'a> Ctrl<'a> {
    pub open spec fn view(&self) -> CtrlV {
        match self {
            Ctrl::Eval(e) => CtrlV::Eval(e.view()),
            Ctrl::Have(v) => CtrlV::Have(v@),
            Ctrl::Exec(s) => CtrlV::Exec(s.view()),
            Ctrl::Block(b, i) => CtrlV::Block(b.view(), *i as int),
            Ctrl::Flow(f) => CtrlV::Flow(f.view()),
            Ctrl::Decl(i) => CtrlV::Decl(*i as int),
            Ctrl::Export(i) => CtrlV::Export(*i as int),
        }
    }
}

/// What waits for a value, or for the end of a statement.
#[derive(Debug)]
pub enum Kont<'a> {
    Unary(UnOp),
    Rhs(BinOp, &'a Expr),
    Binary(BinOp, Value),
    Field(&'a Ident),
    Index(&'a Expr),
    Key(Value),
    Callee(&'a Vec<Expr>),
    Args(Callee, &'a Vec<Expr>, Vec<Value>),
    Items(&'a Vec<Field>, Vec<Value>),
    Entry(&'a Vec<Field>, usize, NameMap<Value>, String),
    EntryKey(&'a Vec<Field>, usize, NameMap<Value>),
    Mixed,
    Local(&'a Vec<Ident>, &'a Vec<Expr>, Vec<Value>),
    Values(&'a Vec<Expr>, &'a Vec<Expr>, Vec<Value>),
    Assign(&'a Vec<Expr>, Vec<Value>, usize),
    SetField(&'a Ident, Value),
    SetBase(&'a Expr, Value),
    SetKey(Value, Value),
    BadIndex,
    Drop,
    WhileCond(&'a Expr, &'a Block),
    WhileBody(&'a Expr, &'a Block),
    If(&'a Vec<(Expr, Block)>, usize, &'a Option<Block>),
    ForStart(&'a Ident, &'a Expr, &'a Option<Expr>, &'a Block),
    ForEnd(&'a Ident, u64, &'a Option<Expr>, &'a Block),
    ForStep(&'a Ident, u64, u64, &'a Block),
    ForBody(&'a Ident, u64, u64, u64, &'a Block),
    ForNext(&'a Ident, u64, u64, &'a Block),
    Iter(&'a Vec<Ident>, bool, &'a Block),
    ItemKey(&'a Vec<Ident>, Value, usize, usize, &'a Block),
    NextItem(&'a Vec<Ident>, Value, usize, usize, &'a Block),
    NextEntry(&'a Vec<Ident>, NameMap<Value>, usize, &'a Block),
    Block(&'a Block, usize),
    Return,
    Call(Option<Act>),
    Const(usize),
    Export(usize),
    Memo(String, usize),
}

/// An optional expression.
pub open spec fn opt_expr_v(e: &Option<Expr>) -> Option<ExprV> {
    match e {
        Some(x) => Some(x.view()),
        None => None,
    }
}

/// An optional block.
pub open spec fn opt_block_v(b: &Option<Block>) -> Option<BlockV> {
    match b {
        Some(x) => Some(x.view()),
        None => None,
    }
}

/// An optional activation.
pub open spec fn opt_act_v(a: Option<Act>) -> Option<ActV> {
    match a {
        Some(x) => Some(x.view()),
        None => None,
    }
}

impl<'a> Kont<'a> {
    pub open spec fn view(&self) -> KontV {
        match self {
            Kont::Unary(op) => KontV::Unary(*op),
            Kont::Rhs(op, e) => KontV::Rhs(*op, e.view()),
            Kont::Binary(op, v) => KontV::Binary(*op, v@),
            Kont::Field(name) => KontV::Field(name@.node),
            Kont::Index(e) => KontV::Index(e.view()),
            Kont::Key(v) => KontV::Key(v@),
            Kont::Callee(args) => KontV::Callee(exprs_v(args@)),
            Kont::Args(c, args, done) => KontV::Args(
                c.view(),
                exprs_v(args@),
                values_v(done@),
            ),
            Kont::Items(fs, done) => KontV::Items(fields_v(fs@), values_v(done@)),
            Kont::Entry(fs, i, es, k) => KontV::Entry(fields_v(fs@), *i as int, es@, k@),
            Kont::EntryKey(fs, i, es) => KontV::EntryKey(fields_v(fs@), *i as int, es@),
            Kont::Mixed => KontV::Mixed,
            Kont::Local(ns, es, done) => KontV::Local(
                idents_v(ns@),
                exprs_v(es@),
                values_v(done@),
            ),
            Kont::Values(ts, es, done) => KontV::Values(
                exprs_v(ts@),
                exprs_v(es@),
                values_v(done@),
            ),
            Kont::Assign(ts, vs, j) => KontV::Assign(exprs_v(ts@), values_v(vs@), *j as int),
            Kont::SetField(name, v) => KontV::SetField(name@.node, v@),
            Kont::SetBase(e, v) => KontV::SetBase(e.view(), v@),
            Kont::SetKey(b, v) => KontV::SetKey(b@, v@),
            Kont::BadIndex => KontV::BadIndex,
            Kont::Drop => KontV::Drop,
            Kont::WhileCond(c, b) => KontV::WhileCond(c.view(), b.view()),
            Kont::WhileBody(c, b) => KontV::WhileBody(c.view(), b.view()),
            Kont::If(arms, i, or) => KontV::If(arms_v(arms@), *i as int, opt_block_v(*or)),
            Kont::ForStart(n, e, s, b) => KontV::ForStart(
                n@,
                e.view(),
                opt_expr_v(*s),
                b.view(),
            ),
            Kont::ForEnd(n, x, s, b) => KontV::ForEnd(n@, *x, opt_expr_v(*s), b.view()),
            Kont::ForStep(n, x, y, b) => KontV::ForStep(n@, *x, *y, b.view()),
            Kont::ForBody(n, x, y, z, b) => KontV::ForBody(n@, *x, *y, *z, b.view()),
            Kont::ForNext(n, x, y, b) => KontV::ForNext(n@, *x, *y, b.view()),
            Kont::Iter(ns, p, b) => KontV::Iter(idents_v(ns@), *p, b.view()),
            Kont::ItemKey(ns, v, n, i, b) => KontV::ItemKey(
                idents_v(ns@),
                v@,
                *n as int,
                *i as int,
                b.view(),
            ),
            Kont::NextItem(ns, v, n, i, b) => KontV::NextItem(
                idents_v(ns@),
                v@,
                *n as int,
                *i as int,
                b.view(),
            ),
            Kont::NextEntry(ns, es, i, b) => KontV::NextEntry(
                idents_v(ns@),
                es@,
                *i as int,
                b.view(),
            ),
            Kont::Block(b, i) => KontV::Block(b.view(), *i as int),
            Kont::Return => KontV::Return,
            Kont::Call(a) => KontV::Call(opt_act_v(*a)),
            Kont::Const(i) => KontV::Const(*i as int),
            Kont::Export(i) => KontV::Export(*i as int),
            Kont::Memo(n, i) => KontV::Memo(n@, *i),
        }
    }
}

/// The counterparts of what waits.
pub open spec fn konts_v<'a>(v: Seq<Kont<'a>>) -> Seq<KontV> {
    Seq::new(v.len(), |i: int| v[i].view())
}

/// The counterparts of functions.
pub open spec fn funcs_v<'a>(v: Seq<Func<'a>>) -> Seq<FuncV> {
    Seq::new(v.len(), |i: int| v[i].view())
}

/// The reference interpreter for one resolved module.
#[derive(Debug)]
pub struct Interpreter<'a> {
    module: &'a Module,
    res: &'a Resolution,
    heap: Heap,
    funcs: Vec<Func<'a>>,
    top: NameMap<Value>,
    consts: NameMap<Value>,
    frozen: Vec<(usize, usize)>,
    exports: NameMap<Value>,
    hosts: NameMap<bool>,
    memory: NameMap<Value>,
    act: Option<Act>,
    konts: Vec<Kont<'a>>,
    ctrl: Option<Ctrl<'a>>,
    wait: Option<Request>,
}

/// The symbols of the parameters.
fn param_ids(res: &Resolution, body: &FuncBody) -> (r: Vec<SymbolId>)
    ensures
        r@ == param_ids_of(res@, body@.params, body@.params.len()),
{
    let ghost ps = idents_v(body.params@);
    let mut out: Vec<SymbolId> = Vec::new();
    let n: usize = body.params.len();
    let mut i: usize = 0;
    while i < n
        invariant
            i <= n,
            n == body.params@.len(),
            ps == idents_v(body.params@),
            out@ == param_ids_of(res@, ps, i as nat),
        decreases n - i,
    {
        assert(ps[i as int] == body.params@[i as int]@);
        match res.def(body.params[i].span) {
            Some(id) => {
                out.push(id);
            },
            None => {},
        }
        i += 1;
    }
    assert(body@.params == ps);
    out
}

fn number_error(v: &Value) -> (r: RunError)
    ensures
        r@ == expected("number"@, v@),
{
    RunError::Internal(cat4("expected a ", "number", ", found ", v.kind_name()))
}

fn expected_error(what: &str, v: &Value) -> (r: RunError)
    ensures
        r@ == expected(what@, v@),
{
    RunError::Internal(cat4("expected a ", what, ", found ", v.kind_name()))
}

fn value_error(head: &str, v: &Value, tail: &str) -> (r: RunError)
    ensures
        r@ == internal(head@ + kind_name_of(v@) + tail@),
{
    RunError::Internal(cat3(head, v.kind_name(), tail))
}

fn named_error(head: &str, name: &str, tail: &str) -> (r: RunError)
    ensures
        r@ == internal(head@ + name@ + tail@),
{
    RunError::Internal(cat3(head, name, tail))
}

fn arg_value(vs: &Vec<Value>, i: usize) -> (r: Value)
    ensures
        r@ == arg(values_v(vs@), i as int),
{
    if i < vs.len() {
        assert(values_v(vs@)[i as int] == vs@[i as int]@);
        vs[i].dup()
    } else {
        Value::Nil
    }
}

fn relates(op: BinOp, o: Order) -> (r: bool)
    ensures
        r == satisfies(op, o),
{
    match op {
        BinOp::Lt => o == Order::Less,
        BinOp::Le => o != Order::Greater,
        BinOp::Gt => o == Order::Greater,
        _ => o != Order::Less,
    }
}

fn loop_goes_on(i: u64, end: u64, step: u64) -> (r: bool)
    ensures
        r == goes_on(i, end, step),
{
    let up = match order(step, 0) {
        Some(Order::Greater) => true,
        Some(Order::Equal) => true,
        _ => false,
    };
    match order(i, end) {
        Some(Order::Equal) => true,
        Some(Order::Less) => up,
        Some(Order::Greater) => !up,
        None => false,
    }
}

fn compare_values(a: &Value, b: &Value) -> (r: Result<Order, RunError>)
    ensures
        match r {
            Ok(o) => ordered(a@, b@) == Ok::<Order, RunErrorV>(o),
            Err(e) => ordered(a@, b@) == Err::<Order, RunErrorV>(e@),
        },
{
    match (a, b) {
        (Value::Number(x), Value::Number(y)) => match order(*x, *y) {
            Some(o) => Ok(o),
            None => Err(RunError::runtime("comparison with NaN")),
        },
        (Value::Str(_), Value::Str(_)) => compare(a, b),
        _ => Err(
            RunError::Internal(
                cat4("cannot compare ", a.kind_name(), " with ", b.kind_name()),
            ),
        ),
    }
}

fn only_positional(fields: &Vec<Field>) -> (r: bool)
    ensures
        r == all_positional(fields_v(fields@)),
{
    let ghost fv = fields_v(fields@);
    let n: usize = fields.len();
    let mut i: usize = 0;
    while i < n
        invariant
            i <= n,
            n == fields@.len(),
            fv == fields_v(fields@),
            forall|j: int| 0 <= j < i ==> (#[trigger] fv[j]) is Positional,
        decreases n - i,
    {
        assert(fv[i as int] == fields@[i as int].view());
        match &fields[i] {
            Field::Positional(_) => {},
            _ => {
                return false;
            },
        }
        i += 1;
    }
    true
}

fn dup_entries(t: &NameMap<Value>) -> (r: NameMap<Value>)
    ensures
        r@ == t@,
{
    let mut out: NameMap<Value> = NameMap::new();
    let n: usize = t.len();
    let mut i: usize = 0;
    while i < n
        invariant
            i <= n,
            n == t@.len(),
            ascending(keys_of(t@)),
            out@ == t@.take(i as int),
        decreases n - i,
    {
        assert(keys_of(t@.take(i as int).push(t@[i as int])) =~= keys_of(t@).take(i + 1));
        out.push(own(t.key(i).as_str()), t.value(i).dup());
        assert(out@ =~= t@.take(i + 1));
        i += 1;
    }
    assert(t@.take(n as int) =~= t@);
    out
}

impl<'a> Interpreter<'a> {
    /// The state of this interpreter.
    #[verifier::opaque]
    pub closed spec fn view(&self) -> St {
        St {
            heap: self.heap@,
            funcs: funcs_v(self.funcs@),
            top: self.top@,
            consts: self.consts@,
            frozen: self.frozen@,
            exports: self.exports@,
            hosts: self.hosts@,
            memory: self.memory@,
            act: opt_act_v(self.act),
            konts: konts_v(self.konts@),
            ctrl: match self.ctrl {
                Some(c) => Some(c.view()),
                None => None,
            },
            wait: match self.wait {
                Some(q) => Some(q@),
                None => None,
            },
        }
    }

    /// The module that is interpreted.
    pub closed spec fn modul(&self) -> ModuleV {
        self.module@
    }

    /// The resolution of that module.
    pub closed spec fn reso(&self) -> ResolutionV {
        self.res@
    }

    /// Whether this interprets the same module.
    pub open spec fn follows(&self, before: &Self) -> bool {
        self.modul() == before.modul() && self.reso() == before.reso()
    }

    /// An interpreter for a resolved module. Its first steps evaluate the top-level constants
    /// and the export table.
    pub fn new(module: &'a Module, res: &'a Resolution) -> (r: Self)
        ensures
            r@ == initial(module@, res@),
            r.modul() == module@,
            r.reso() == res@,
    {
        broadcast use vstd::std_specs::btree::group_btree_axioms;

        let ghost dv = decls_v(module.decls@);
        let mut funcs: Vec<Func<'a>> = Vec::new();
        let mut top: NameMap<Value> = NameMap::new();
        let n: usize = module.decls.len();
        let mut i: usize = 0;
        assert(funcs_v(funcs@) =~= Seq::<FuncV>::empty());
        while i < n
            invariant
                i <= n,
                n == module.decls@.len(),
                dv == decls_v(module.decls@),
                (funcs_v(funcs@), top@) == top_functions(res@, dv, i as nat),
            decreases n - i,
        {
            assert(dv[i as int] == module.decls@[i as int].view());
            match &module.decls[i] {
                TopDecl::Function(f) => {
                    let ghost before = funcs_v(funcs@);
                    let id: usize = funcs.len();
                    let func = Func {
                        params: param_ids(res, &f.body),
                        body: &f.body,
                        captured: BTreeMap::new(),
                    };
                    let ghost fv = func.view();
                    assert(fv.captured =~= Map::<SymbolId, usize>::empty());
                    assert(f.view().body == f.body.view());
                    funcs.push(func);
                    assert(funcs_v(funcs@) =~= before.push(fv));
                    top.insert(own(f.name.node.as_str()), Value::Function(id));
                },
                TopDecl::Const(_) => {},
            }
            i += 1;
        }
        let act = Act { func: None, locals: BTreeMap::new() };
        let konts: Vec<Kont<'a>> = Vec::new();
        let r = Interpreter {
            module,
            res,
            heap: Heap::new(),
            funcs,
            top,
            consts: NameMap::new(),
            frozen: Vec::new(),
            exports: NameMap::new(),
            hosts: NameMap::new(),
            memory: NameMap::new(),
            act: Some(act),
            konts,
            ctrl: Some(Ctrl::Decl(0)),
            wait: None,
        };
        proof {
            reveal(Interpreter::view);
            assert(act.view().locals =~= Map::<SymbolId, usize>::empty());
            assert(konts_v(Seq::<Kont<'a>>::empty()) =~= Seq::<KontV>::empty());
            assert(r@.frozen =~= Seq::<(usize, usize)>::empty());
        }
        r
    }

    /// Let scripts call the host function of that name. Its calls come as requests.
    pub fn set_host_function(&mut self, name: &str)
        ensures
            final(self).follows(old(self)),
            final(self)@ == (St { hosts: put_of(old(self)@.hosts, name@, true), ..old(self)@ }),
    {
        reveal(Interpreter::view);
        self.hosts.insert(own(name), true);
    }

    /// Bind a host memory handle.
    pub fn set_memory(&mut self, name: &str, value: Value)
        ensures
            final(self).follows(old(self)),
            final(self)@ == (St {
                memory: put_of(old(self)@.memory, name@, value@),
                ..old(self)@
            }),
    {
        reveal(Interpreter::view);
        self.memory.insert(own(name), value);
    }

    /// Read back a memory handle.
    pub fn memory(&self, name: &str) -> (r: Option<Value>)
        ensures
            match r {
                Some(v) => get_of(self@.memory, name@) == Some(v@),
                None => get_of(self@.memory, name@) is None,
            },
    {
        reveal(Interpreter::view);
        match self.memory.get(name) {
            Some(v) => Some(v.dup()),
            None => None,
        }
    }

    /// The objects that values refer to.
    pub fn heap(&self) -> (r: &Heap)
        ensures
            r@ == self@.heap,
    {
        reveal(Interpreter::view);
        &self.heap
    }

    /// A new array.
    pub fn new_array(&mut self, items: Vec<Value>) -> (r: Value)
        ensures
            final(self).follows(old(self)),
            final(self)@ == (St {
                heap: old(self)@.heap.push(ObjV::Array(values_v(items@))),
                ..old(self)@
            }),
            r@ == ValueV::Array(old(self)@.heap.len() as usize),
    {
        reveal(Interpreter::view);
        self.heap.array(items)
    }

    /// A new table.
    pub fn new_table(&mut self, entries: NameMap<Value>) -> (r: Value)
        ensures
            final(self).follows(old(self)),
            final(self)@ == (St {
                heap: old(self)@.heap.push(ObjV::Table(entries@)),
                ..old(self)@
            }),
            r@ == ValueV::Table(old(self)@.heap.len() as usize),
    {
        reveal(Interpreter::view);
        self.heap.table(entries)
    }

    /// The request that waits for an answer.
    pub fn request(&self) -> (r: Option<&Request>)
        ensures
            match r {
                Some(q) => self@.wait == Some(q@),
                None => self@.wait is None,
            },
    {
        reveal(Interpreter::view);
        match &self.wait {
            Some(q) => Some(q),
            None => None,
        }
    }

    fn push(&mut self, k: Kont<'a>)
        ensures
            final(self).follows(old(self)),
            final(self)@ == old(self)@.push(k.view()),
    {
        proof {
            reveal(Interpreter::view);
            reveal(St::push);
        }
        let ghost kv = k.view();
        self.konts.push(k);
        assert(self@.konts =~= old(self)@.konts.push(kv));
    }

    fn run(&mut self, c: Ctrl<'a>) -> (r: Progress)
        ensures
            final(self).follows(old(self)),
            (final(self)@, r@) == old(self)@.run(c.view()),
    {
        proof {
            reveal(Interpreter::view);
            reveal(St::run);
        }
        self.ctrl = Some(c);
        Progress::Running
    }

    fn have(&mut self, v: Value) -> (r: Progress)
        ensures
            final(self).follows(old(self)),
            (final(self)@, r@) == old(self)@.have(v@),
    {
        self.run(Ctrl::Have(v))
    }

    fn flow(&mut self, f: Flow) -> (r: Progress)
        ensures
            final(self).follows(old(self)),
            (final(self)@, r@) == old(self)@.flow(f.view()),
    {
        self.run(Ctrl::Flow(f))
    }

    fn eval(&mut self, e: &'a Expr, k: Kont<'a>) -> (r: Progress)
        ensures
            final(self).follows(old(self)),
            (final(self)@, r@) == old(self)@.eval(e.view(), k.view()),
    {
        self.push(k);
        self.run(Ctrl::Eval(e))
    }

    fn block(&mut self, b: &'a Block, k: Kont<'a>) -> (r: Progress)
        ensures
            final(self).follows(old(self)),
            (final(self)@, r@) == old(self)@.block(b.view(), k.view()),
    {
        self.push(k);
        self.run(Ctrl::Block(b, 0))
    }

    fn ask(&mut self, q: Request) -> (r: Progress)
        ensures
            final(self).follows(old(self)),
            (final(self)@, r@) == old(self)@.ask(q@),
    {
        proof {
            reveal(Interpreter::view);
            reveal(St::ask);
        }
        self.wait = Some(q);
        self.ctrl = None;
        Progress::Ask
    }

    fn idle(&mut self)
        ensures
            final(self).follows(old(self)),
            final(self)@ == old(self)@.idle(),
    {
        reveal(Interpreter::view);
        self.act = None;
        self.konts = Vec::new();
        self.ctrl = None;
        self.wait = None;
        assert(self@.konts =~= Seq::<KontV>::empty());
    }

    fn fail(&mut self, e: RunError) -> (r: Progress)
        ensures
            final(self).follows(old(self)),
            (final(self)@, r@) == old(self)@.fail(e@),
    {
        reveal(St::fail);
        self.idle();
        Progress::Done(Err(e))
    }

    fn done(&mut self, v: Value) -> (r: Progress)
        ensures
            final(self).follows(old(self)),
            (final(self)@, r@) == old(self)@.done(v@),
    {
        reveal(St::done);
        self.idle();
        Progress::Done(Ok(v))
    }

    fn take_ctrl(&mut self) -> (r: Option<Ctrl<'a>>)
        ensures
            final(self).follows(old(self)),
            final(self)@ == (St { ctrl: None, ..old(self)@ }),
            match r {
                Some(c) => old(self)@.ctrl == Some(c.view()),
                None => old(self)@.ctrl is None,
            },
    {
        reveal(Interpreter::view);
        self.ctrl.take()
    }

    fn pop(&mut self) -> (r: Option<Kont<'a>>)
        ensures
            final(self).follows(old(self)),
            match r {
                Some(k) => {
                    &&& old(self)@.konts.len() > 0
                    &&& k.view() == old(self)@.konts.last()
                    &&& final(self)@ == (St { konts: old(self)@.konts.drop_last(), ..old(self)@ })
                },
                None => old(self)@.konts.len() == 0 && final(self)@ == old(self)@,
            },
    {
        reveal(Interpreter::view);
        let k = self.konts.pop();
        proof {
            if k is Some {
                assert(self@.konts =~= old(self)@.konts.drop_last());
            }
        }
        k
    }

    fn slot(&self, id: SymbolId) -> (r: Option<usize>)
        ensures
            r == self@.slot(id),
    {
        broadcast use vstd::std_specs::btree::group_btree_axioms;

        proof {
            reveal(Interpreter::view);
            reveal(St::slot);
        }
        match &self.act {
            None => None,
            Some(a) => match a.locals.get(&id) {
                Some(s) => Some(*s),
                None => match a.func {
                    Some(i) => {
                        if i < self.funcs.len() {
                            assert(self@.funcs[i as int] == self.funcs@[i as int].view());
                            match self.funcs[i].captured.get(&id) {
                                Some(s) => Some(*s),
                                None => None,
                            }
                        } else {
                            None
                        }
                    },
                    None => None,
                },
            },
        }
    }

    fn lookup_symbol(&self, id: SymbolId) -> (r: Option<Value>)
        ensures
            match r {
                Some(v) => self@.lookup(id) == Some(v@),
                None => self@.lookup(id) is None,
            },
    {
        match self.slot(id) {
            Some(s) => match self.heap().as_cell(&Value::Cell(s)) {
                Some(v) => Some(v.dup()),
                None => None,
            },
            None => None,
        }
    }

    fn store(&mut self, slot: usize, v: Value)
        ensures
            final(self).follows(old(self)),
            final(self)@ == old(self)@.stored(slot, v@),
    {
        proof {
            reveal(Interpreter::view);
            reveal(St::stored);
        }
        let _stored = self.heap.set_cell(&Value::Cell(slot), v);
    }

    fn bind(&mut self, id: SymbolId, v: Value)
        ensures
            final(self).follows(old(self)),
            final(self)@ == old(self)@.bound(id, v@),
    {
        broadcast use vstd::std_specs::btree::group_btree_axioms;

        proof {
            reveal(Interpreter::view);
            reveal(St::bound);
        }
        match self.act.take() {
            Some(a) => {
                let n: usize = self.heap.len();
                let _cell = self.heap.cell(v);
                let mut a = a;
                a.locals.insert(id, n);
                self.act = Some(a);
            },
            None => {},
        }
    }

    fn declare(&mut self, name: &Ident, v: Value) -> (r: Result<(), RunError>)
        ensures
            final(self).follows(old(self)),
            match r {
                Ok(_) => old(self)@.declared(old(self).reso(), name@, v@) == Ok::<St, RunErrorV>(
                    final(self)@,
                ),
                Err(e) => old(self)@.declared(old(self).reso(), name@, v@) == Err::<
                    St,
                    RunErrorV,
                >(e@) && final(self)@ == old(self)@,
            },
    {
        reveal(St::declared);
        let id: SymbolId = match self.res.def(name.span) {
            Some(id) => id,
            None => {
                return Err(named_error("no symbol id for `", name.node.as_str(), "`"));
            },
        };
        match self.own_slot(id) {
            None => Err(RunError::internal("declare with no active frame")),
            Some(Some(s)) => {
                self.store(s, v);
                Ok(())
            },
            Some(None) => {
                self.bind(id, v);
                Ok(())
            },
        }
    }

    /// The activation's own slot of a symbol, if there is an activation.
    fn own_slot(&self, id: SymbolId) -> (r: Option<Option<usize>>)
        ensures
            r == match self@.act {
                None => None,
                Some(a) => Some(
                    if a.locals.dom().contains(id) {
                        Some(a.locals[id])
                    } else {
                        None
                    },
                ),
            },
    {
        broadcast use vstd::std_specs::btree::group_btree_axioms;

        reveal(Interpreter::view);
        match &self.act {
            None => None,
            Some(a) => match a.locals.get(&id) {
                Some(s) => Some(Some(*s)),
                None => Some(None),
            },
        }
    }

    fn assign_symbol(&mut self, span: Span, v: Value) -> (r: Result<(), RunError>)
        ensures
            final(self).follows(old(self)),
            match r {
                Ok(_) => old(self)@.assigned(old(self).reso(), span, v@) == Ok::<St, RunErrorV>(
                    final(self)@,
                ),
                Err(e) => old(self)@.assigned(old(self).reso(), span, v@) == Err::<St, RunErrorV>(
                    e@,
                ) && final(self)@ == old(self)@,
            },
    {
        reveal(St::assigned);
        let found: Option<SymbolId> = match self.res.binding(span) {
            Some(Binding::Local(id)) => Some(*id),
            Some(Binding::Upvalue(id)) => Some(*id),
            _ => self.res.def(span),
        };
        let id: SymbolId = match found {
            Some(id) => id,
            None => {
                return Err(RunError::internal("assignment to unresolved symbol"));
            },
        };
        match self.slot(id) {
            Some(s) => {
                self.store(s, v);
                Ok(())
            },
            None => match self.own_slot(id) {
                None => Err(RunError::internal("assign with no active frame")),
                Some(_) => {
                    self.bind(id, v);
                    Ok(())
                },
            },
        }
    }

    fn capture_env(&self, body: &FuncBody) -> (r: BTreeMap<SymbolId, usize>)
        ensures
            r@ == self@.captured(self.reso(), body@),
    {
        broadcast use vstd::std_specs::btree::group_btree_axioms;
        broadcast use vstd::std_specs::hash::group_hash_axioms;

        reveal(St::captured);
        let res = self.res;
        let ids = referenced_symbols(res, body);
        let n: usize = res.symbols.len();
        let m: u32 = if n <= 4294967295 {
            n as u32
        } else {
            4294967295
        };
        let mut out: BTreeMap<SymbolId, usize> = BTreeMap::new();
        let ghost st = self@;
        let ghost all = ids_block(res@, body@.block);
        let mut i: u32 = 0;
        while i < m
            invariant
                i <= m,
                m == id_count(res@),
                st == self@,
                ids@ == all,
                forall|id: SymbolId| #[trigger]
                    out@.dom().contains(id) <==> id < i && all.contains(id) && st.slot(id) is Some,
                forall|id: SymbolId| #[trigger]
                    out@.dom().contains(id) ==> out@[id] == st.slot(id)->0,
            decreases m - i,
        {
            if ids.contains(&i) {
                match self.slot(i) {
                    Some(s) => {
                        out.insert(i, s);
                    },
                    None => {},
                }
            }
            i += 1;
        }
        assert(out@ =~= self@.captured(self.reso(), body@));
        out
    }

    fn make_function(&mut self, body: &'a FuncBody) -> (r: Value)
        ensures
            final(self).follows(old(self)),
            (final(self)@, r@) == old(self)@.made(old(self).reso(), body.view()),
    {
        let captured = self.capture_env(body);
        proof {
            reveal(Interpreter::view);
            reveal(St::made);
        }
        let params = param_ids(self.res, body);
        let func = Func { params, body, captured };
        let ghost fv = func.view();
        let id: usize = self.funcs.len();
        self.funcs.push(func);
        assert(self@.funcs =~= old(self)@.funcs.push(fv));
        Value::Function(id)
    }

    fn enter(&mut self, i: usize, args: &Vec<Value>)
        requires
            i < old(self)@.funcs.len(),
        ensures
            final(self).follows(old(self)),
            final(self)@ == old(self)@.entered(i, values_v(args@)),
    {
        broadcast use vstd::std_specs::btree::group_btree_axioms;

        proof {
            reveal(Interpreter::view);
            reveal(St::entered);
        }
        let ghost start = self@;
        let ghost f = self@.funcs[i as int];
        assert(f == self.funcs@[i as int].view());
        let body: &'a FuncBody = self.funcs[i].body;
        let ghost av = values_v(args@);
        let ghost whole = bind_params(start.heap, f.params, av, 0, Map::empty());
        let mut locals: BTreeMap<SymbolId, usize> = BTreeMap::new();
        assert(locals@ =~= Map::<SymbolId, usize>::empty());
        let n: usize = self.funcs[i].params.len();
        let mut k: usize = 0;
        while k < n
            invariant
                k <= n,
                n == f.params.len(),
                i < self.funcs@.len(),
                f.params == self.funcs@[i as int].params@,
                av == values_v(args@),
                self.follows(old(self)),
                start == old(self)@,
                *self == (Interpreter { heap: self.heap, ..*old(self) }),
                whole == bind_params(self.heap@, f.params, av, k as int, locals@),
            decreases n - k,
        {
            proof {
                unfold_bind_params(self.heap@, f.params, av, k as int, locals@);
            }
            let pid: SymbolId = self.funcs[i].params[k];
            let at: usize = self.heap.len();
            let _cell = self.heap.cell(arg_value(args, k));
            locals.insert(pid, at);
            k += 1;
        }
        proof {
            unfold_bind_params(self.heap@, f.params, av, k as int, locals@);
        }
        let saved = self.act.take();
        let ghost kv = KontV::Call(opt_act_v(saved));
        self.konts.push(Kont::Call(saved));
        self.act = Some(Act { func: Some(i), locals });
        self.ctrl = Some(Ctrl::Block(&body.block, 0));
        assert(self@.konts =~= start.konts.push(kv));
    }

    fn call_value(&mut self, callee: Value, args: Vec<Value>) -> (r: Progress)
        ensures
            final(self).follows(old(self)),
            (final(self)@, r@) == call_value_of(old(self)@, callee@, values_v(args@)),
    {
        reveal(call_value_of);
        match callee {
            Value::Native(name) => self.ask(Request::Host(name, args)),
            Value::Function(i) => {
                if i < self.func_count() {
                    self.enter(i, &args);
                    Progress::Running
                } else {
                    self.fail(value_error("attempted to call a ", &callee, " value"))
                }
            },
            _ => self.fail(value_error("attempted to call a ", &callee, " value")),
        }
    }

    fn func_count(&self) -> (r: usize)
        ensures
            r == self@.funcs.len(),
    {
        reveal(Interpreter::view);
        self.funcs.len()
    }

    fn outcome(&mut self, r: Result<Outcome, RunError>) -> (p: Progress)
        ensures
            final(self).follows(old(self)),
            match r {
                Ok(o) => (final(self)@, p@) == outcome_of(old(self)@, Ok(o@)),
                Err(e) => (final(self)@, p@) == outcome_of(old(self)@, Err(e@)),
            },
    {
        match r {
            Ok(Outcome::Value(v)) => self.have(v),
            Ok(Outcome::Ask(q)) => self.ask(q),
            Err(e) => self.fail(e),
        }
    }

    fn answer(&mut self, r: Result<Value, RunError>) -> (p: Progress)
        ensures
            final(self).follows(old(self)),
            match r {
                Ok(v) => (final(self)@, p@) == yield_of(old(self)@, Ok(v@)),
                Err(e) => (final(self)@, p@) == yield_of(old(self)@, Err(e@)),
            },
    {
        match r {
            Ok(v) => self.have(v),
            Err(e) => self.fail(e),
        }
    }

    fn call_callee(&mut self, callee: Callee, args: Vec<Value>) -> (r: Progress)
        ensures
            final(self).follows(old(self)),
            (final(self)@, r@) == call_of(old(self)@, callee.view(), values_v(args@)),
    {
        reveal(call_of);
        match callee {
            Callee::Value(v) => self.call_value(v, args),
            Callee::BuiltinValue(ns) => {
                let r = value_call(self.heap(), ns.as_str(), &args);
                self.outcome(r)
            },
            Callee::BuiltinMember(ns, name) => {
                let r = member_call(self.heap(), ns.as_str(), name.as_str(), &args);
                self.outcome(r)
            },
        }
    }

    fn eval_args(&mut self, callee: Callee, args: &'a Vec<Expr>, done: Vec<Value>) -> (r: Progress)
        ensures
            final(self).follows(old(self)),
            (final(self)@, r@) == args_of(
                old(self)@,
                callee.view(),
                exprs_v(args@),
                values_v(done@),
            ),
    {
        reveal(args_of);
        let n: usize = done.len();
        if n < args.len() {
            assert(exprs_v(args@)[n as int] == args@[n as int].view());
            self.eval(&args[n], Kont::Args(callee, args, done))
        } else {
            self.call_callee(callee, done)
        }
    }

    fn eval_items(&mut self, fields: &'a Vec<Field>, done: Vec<Value>) -> (r: Progress)
        ensures
            final(self).follows(old(self)),
            (final(self)@, r@) == items_of(old(self)@, fields_v(fields@), values_v(done@)),
    {
        reveal(items_of);
        let n: usize = done.len();
        if n < fields.len() {
            assert(fields_v(fields@)[n as int] == fields@[n as int].view());
            match &fields[n] {
                Field::Positional(e) => self.eval(e, Kont::Items(fields, done)),
                _ => self.fail(RunError::internal("not an array constructor")),
            }
        } else {
            let v = self.new_array(done);
            self.have(v)
        }
    }

    fn eval_entries(&mut self, fields: &'a Vec<Field>, i: usize, es: NameMap<Value>) -> (r: Progress)
        ensures
            final(self).follows(old(self)),
            (final(self)@, r@) == entries_of(old(self)@, fields_v(fields@), i as int, es@),
    {
        reveal(entries_of);
        if i < fields.len() {
            assert(fields_v(fields@)[i as int] == fields@[i as int].view());
            match &fields[i] {
                Field::Named { name, value } => self.eval(
                    value,
                    Kont::Entry(fields, i, es, own(name.node.as_str())),
                ),
                Field::Keyed { key, value: _ } => self.eval(key, Kont::EntryKey(fields, i, es)),
                Field::Positional(e) => self.eval(e, Kont::Mixed),
            }
        } else {
            let v = self.new_table(es);
            self.have(v)
        }
    }

    fn builtin_namespace(&self, e: &Expr) -> (r: Option<&'a str>)
        ensures
            match r {
                Some(ns) => namespace_of(self.reso(), e.view()) == Some(ns@),
                None => namespace_of(self.reso(), e.view()) is None,
            },
    {
        let res: &'a Resolution = self.res;
        match &e.kind {
            ExprKind::Name(_) => match res.binding(e.span) {
                Some(Binding::Builtin(ns)) => Some(*ns),
                _ => None,
            },
            _ => None,
        }
    }

    fn eval_name(&self, e: &Expr, name: &str) -> (r: Result<Value, RunError>)
        ensures
            match r {
                Ok(v) => named(self.reso(), self@, e.view(), name@) == Ok::<ValueV, RunErrorV>(
                    v@,
                ),
                Err(x) => named(self.reso(), self@, e.view(), name@) == Err::<ValueV, RunErrorV>(
                    x@,
                ),
            },
    {
        reveal(named);
        match self.res.binding(e.span) {
            None => Err(named_error("unresolved name `", name, "`")),
            Some(Binding::Local(id)) | Some(Binding::Upvalue(id)) => match self.lookup_symbol(*id) {
                Some(v) => Ok(v),
                None => Err(named_error("`", name, "` used before assignment")),
            },
            Some(Binding::TopFunction(n)) => match self.top_function(n.as_str()) {
                Some(v) => Ok(v),
                None => Err(named_error("missing function `", n.as_str(), "`")),
            },
            Some(Binding::TopConst(n)) => Err(named_error("missing const `", n.as_str(), "`")),
            Some(Binding::HostFunction(n)) => {
                if self.has_host(n.as_str()) {
                    Ok(Value::Native(own(n.as_str())))
                } else {
                    Err(
                        RunError::Runtime(
                            cat3("host function `", n.as_str(), "` was not registered"),
                        ),
                    )
                }
            },
            Some(Binding::Memory(n)) => match self.memory(n.as_str()) {
                Some(v) => Ok(v),
                None => Err(
                    RunError::Runtime(cat3("memory `", n.as_str(), "` was not provided")),
                ),
            },
            Some(Binding::Builtin(n)) => Err(
                named_error("builtin namespace `", n, "` used as a value"),
            ),
        }
    }

    fn top_function(&self, name: &str) -> (r: Option<Value>)
        ensures
            match r {
                Some(v) => get_of(self@.top, name@) == Some(v@),
                None => get_of(self@.top, name@) is None,
            },
    {
        reveal(Interpreter::view);
        match self.top.get(name) {
            Some(v) => Some(v.dup()),
            None => None,
        }
    }

    fn constant(&self, name: &str) -> (r: Option<Value>)
        ensures
            match r {
                Some(v) => get_of(self@.consts, name@) == Some(v@),
                None => get_of(self@.consts, name@) is None,
            },
    {
        reveal(Interpreter::view);
        match self.consts.get(name) {
            Some(v) => Some(v.dup()),
            None => None,
        }
    }

    fn eval_const(&mut self, name: &str) -> (r: Progress)
        ensures
            final(self).follows(old(self)),
            (final(self)@, r@) == const_ref_of(old(self).modul(), old(self)@, name@),
    {
        reveal(const_ref_of);
        if let Some(v) = self.constant(name) {
            return self.have(v);
        }
        let mark: usize = self.heap().len();
        let module: &'a Module = self.module;
        match find_const(module, name) {
            Some(e) => self.eval(e, Kont::Memo(own(name), mark)),
            None => self.fail(named_error("missing const `", name, "`")),
        }
    }

    fn keep_const(&mut self, name: String, mark: usize, v: Value)
        ensures
            final(self).follows(old(self)),
            final(self)@ == (St {
                consts: put_of(old(self)@.consts, name@, v@),
                frozen: old(self)@.frozen.push((mark, old(self)@.heap.len() as usize)),
                ..old(self)@
            }),
    {
        reveal(Interpreter::view);
        self.consts.insert(name, v);
        let end: usize = self.heap.len();
        self.frozen.push((mark, end));
    }

    /// Whether a value is part of a constant.
    fn is_constant(&self, v: &Value) -> (r: bool)
        ensures
            r == is_frozen(self@.frozen, v@),
    {
        reveal(Interpreter::view);
        frozen_value(&self.frozen, v)
    }

    fn has_host(&self, name: &str) -> (r: bool)
        ensures
            r == get_of(self@.hosts, name@) is Some,
    {
        reveal(Interpreter::view);
        self.hosts.contains_key(name)
    }

    fn eval_call(&mut self, callee: &'a Expr, args: &'a Vec<Expr>) -> (r: Progress)
        ensures
            final(self).follows(old(self)),
            (final(self)@, r@) == eval_call_of(
                old(self).reso(),
                old(self)@,
                callee.view(),
                exprs_v(args@),
            ),
    {
        reveal(eval_call_of);
        let none: Vec<Value> = Vec::new();
        assert(values_v(none@) =~= Seq::<ValueV>::empty());
        if let Some(ns) = self.builtin_namespace(callee) {
            return self.eval_args(Callee::BuiltinValue(own(ns)), args, none);
        }
        if let ExprKind::Field { base, name } = &callee.kind {
            assert(callee.view().kind == (ExprKindV::Field {
                base: Box::new(base.view()),
                name: name@,
            }));
            if let Some(ns) = self.builtin_namespace(base) {
                return self.eval_args(
                    Callee::BuiltinMember(own(ns), own(name.node.as_str())),
                    args,
                    none,
                );
            }
        }
        self.eval(callee, Kont::Callee(args))
    }

    fn eval_expr(&mut self, e: &'a Expr) -> (r: Progress)
        ensures
            final(self).follows(old(self)),
            (final(self)@, r@) == eval_of(old(self).modul(), old(self).reso(), old(self)@, e.view()),
    {
        reveal(eval_of);
        assert(e.view().kind == e.kind.view());
        match &e.kind {
            ExprKind::Nil => self.have(Value::Nil),
            ExprKind::Bool(b) => self.have(Value::Bool(*b)),
            ExprKind::Number(n) => self.ask(Request::Numeral(n.dup())),
            ExprKind::Str(s) => self.have(Value::string(s.as_str())),
            ExprKind::Paren(inner) => self.run(Ctrl::Eval(inner)),
            ExprKind::Name(name) => {
                let res: &'a Resolution = self.res;
                match res.binding(e.span) {
                    Some(Binding::TopConst(n)) => self.eval_const(n.as_str()),
                    _ => {
                        let r = self.eval_name(e, name.as_str());
                        self.answer(r)
                    },
                }
            },
            ExprKind::Function(body) => {
                let v = self.make_function(body);
                self.have(v)
            },
            ExprKind::Field { base, name } => match self.builtin_namespace(base) {
                Some(ns) => {
                    let r = field_value(ns, name.node.as_str());
                    self.answer(r)
                },
                None => self.eval(base, Kont::Field(name)),
            },
            ExprKind::Index { base, index } => self.eval(base, Kont::Index(index)),
            ExprKind::Call { callee, args } => self.eval_call(callee, args),
            ExprKind::MethodCall { receiver: _, method, args: _ } => self.fail(
                named_error(
                    "method call `:",
                    method.node.as_str(),
                    "` is not supported by the interpreter",
                ),
            ),
            ExprKind::Table(fields) => {
                if only_positional(fields) {
                    let none: Vec<Value> = Vec::new();
                    assert(values_v(none@) =~= Seq::<ValueV>::empty());
                    self.eval_items(fields, none)
                } else {
                    self.eval_entries(fields, 0, NameMap::new())
                }
            },
            ExprKind::Unary { op, operand } => self.eval(operand, Kont::Unary(*op)),
            ExprKind::Binary { op, lhs, rhs } => self.eval(lhs, Kont::Rhs(*op, rhs)),
        }
    }

    fn declare_names(&mut self, names: &Vec<Ident>, vs: &Vec<Value>) -> (r: Result<(), RunError>)
        ensures
            final(self).follows(old(self)),
            match r {
                Ok(_) => declare_all(
                    old(self).reso(),
                    old(self)@,
                    idents_v(names@),
                    values_v(vs@),
                    0,
                ) == (final(self)@, None::<RunErrorV>),
                Err(e) => declare_all(
                    old(self).reso(),
                    old(self)@,
                    idents_v(names@),
                    values_v(vs@),
                    0,
                ) == (final(self)@, Some(e@)),
            },
    {
        let ghost r = self.reso();
        let ghost ns = idents_v(names@);
        let ghost vv = values_v(vs@);
        let ghost whole = declare_all(r, self@, ns, vv, 0);
        let n: usize = names.len();
        let mut i: usize = 0;
        while i < n
            invariant
                i <= n,
                n == names@.len(),
                ns == idents_v(names@),
                vv == values_v(vs@),
                r == old(self).reso(),
                self.follows(old(self)),
                whole == declare_all(r, old(self)@, ns, vv, 0),
                whole == declare_all(r, self@, ns, vv, i as int),
            decreases n - i,
        {
            proof {
                unfold_declare_all(r, self@, ns, vv, i as int);
                assert(ns[i as int] == names@[i as int]@);
            }
            match self.declare(&names[i], arg_value(vs, i)) {
                Ok(_) => {},
                Err(e) => {
                    return Err(e);
                },
            }
            i += 1;
        }
        proof {
            unfold_declare_all(r, self@, ns, vv, i as int);
        }
        Ok(())
    }

    fn exec_local(&mut self, names: &'a Vec<Ident>, exprs: &'a Vec<Expr>, done: Vec<Value>) -> (r: Progress)
        ensures
            final(self).follows(old(self)),
            (final(self)@, r@) == local_of(
                old(self).reso(),
                old(self)@,
                idents_v(names@),
                exprs_v(exprs@),
                values_v(done@),
            ),
    {
        reveal(local_of);
        let n: usize = done.len();
        if n < exprs.len() {
            assert(exprs_v(exprs@)[n as int] == exprs@[n as int].view());
            self.eval(&exprs[n], Kont::Local(names, exprs, done))
        } else {
            match self.declare_names(names, &done) {
                Ok(_) => self.flow(Flow::Normal),
                Err(e) => self.fail(e),
            }
        }
    }

    fn assign_to(&mut self, targets: &'a Vec<Expr>, vs: Vec<Value>, j: usize) -> (r: Progress)
        ensures
            final(self).follows(old(self)),
            (final(self)@, r@) == assign_of(
                old(self).reso(),
                old(self)@,
                exprs_v(targets@),
                values_v(vs@),
                j as int,
            ),
    {
        reveal(assign_of);
        if j < targets.len() {
            assert(exprs_v(targets@)[j as int] == targets@[j as int].view());
            let v = arg_value(&vs, j);
            let t: &'a Expr = &targets[j];
            self.push(Kont::Assign(targets, vs, j + 1));
            match &t.kind {
                ExprKind::Name(_) => match self.assign_symbol(t.span, v) {
                    Ok(_) => self.flow(Flow::Normal),
                    Err(e) => self.fail(e),
                },
                ExprKind::Field { base, name } => self.eval(base, Kont::SetField(name, v)),
                ExprKind::Index { base, index } => self.eval(base, Kont::SetBase(index, v)),
                _ => self.fail(RunError::internal("invalid assignment target")),
            }
        } else {
            self.flow(Flow::Normal)
        }
    }

    fn exec_assign(&mut self, targets: &'a Vec<Expr>, exprs: &'a Vec<Expr>, done: Vec<Value>) -> (r: Progress)
        ensures
            final(self).follows(old(self)),
            (final(self)@, r@) == values_of(
                old(self).reso(),
                old(self)@,
                exprs_v(targets@),
                exprs_v(exprs@),
                values_v(done@),
            ),
    {
        reveal(values_of);
        let n: usize = done.len();
        if n < exprs.len() {
            assert(exprs_v(exprs@)[n as int] == exprs@[n as int].view());
            self.eval(&exprs[n], Kont::Values(targets, exprs, done))
        } else {
            self.assign_to(targets, done, 0)
        }
    }

    fn exec_if(&mut self, arms: &'a Vec<(Expr, Block)>, i: usize, or: &'a Option<Block>) -> (r: Progress)
        ensures
            final(self).follows(old(self)),
            (final(self)@, r@) == if_of(old(self)@, arms_v(arms@), i as int, opt_block_v(or)),
    {
        reveal(if_of);
        if i < arms.len() {
            assert(arms_v(arms@)[i as int] == (arms@[i as int].0.view(), arms@[i as int].1.view()));
            self.eval(&arms[i].0, Kont::If(arms, i, or))
        } else {
            match or {
                Some(b) => self.run(Ctrl::Block(b, 0)),
                None => self.flow(Flow::Normal),
            }
        }
    }

    fn exec_local_function(&mut self, name: &'a Ident, body: &'a FuncBody) -> (r: Progress)
        ensures
            final(self).follows(old(self)),
            (final(self)@, r@) == local_function_of(
                old(self).reso(),
                old(self)@,
                name@,
                body.view(),
            ),
    {
        reveal(local_function_of);
        match self.declare(name, Value::Nil) {
            Err(e) => self.fail(e),
            Ok(_) => {
                let v = self.make_function(body);
                match self.assign_symbol(name.span, v) {
                    Ok(_) => self.flow(Flow::Normal),
                    Err(e) => self.fail(e),
                }
            },
        }
    }

    fn exec_stat(&mut self, s: &'a Stat) -> (r: Progress)
        ensures
            final(self).follows(old(self)),
            (final(self)@, r@) == exec_of(old(self).reso(), old(self)@, s.view()),
    {
        reveal(exec_of);
        assert(s.view().kind == s.kind.view());
        let none: Vec<Value> = Vec::new();
        assert(values_v(none@) =~= Seq::<ValueV>::empty());
        match &s.kind {
            StatKind::Empty => self.flow(Flow::Normal),
            StatKind::Break => self.flow(Flow::Break),
            StatKind::Local { names, exprs } => self.exec_local(names, exprs, none),
            StatKind::LocalFunction { name, body } => self.exec_local_function(name, body),
            StatKind::Assign { targets, exprs } => self.exec_assign(targets, exprs, none),
            StatKind::Call(e) => self.eval(e, Kont::Drop),
            StatKind::Do(b) => self.run(Ctrl::Block(b, 0)),
            StatKind::While { cond, body } => self.eval(cond, Kont::WhileCond(cond, body)),
            StatKind::If { arms, else_block } => self.exec_if(arms, 0, else_block),
            StatKind::NumericFor { var, start, end, step, body } => self.eval(
                start,
                Kont::ForStart(var, end, step, body),
            ),
            StatKind::GenericFor { names, iter, body } => match iter {
                IterExpr::IPairs { arg, span: _ } => self.eval(
                    arg,
                    Kont::Iter(names, false, body),
                ),
                IterExpr::Pairs { arg, span: _ } => self.eval(arg, Kont::Iter(names, true, body)),
            },
        }
    }

    fn exec_block(&mut self, b: &'a Block, i: usize) -> (r: Progress)
        ensures
            final(self).follows(old(self)),
            (final(self)@, r@) == block_of(old(self)@, b.view(), i as int),
    {
        reveal(block_of);
        assert(b.view().stats == stats_v(b.stats@));
        if i < b.stats.len() {
            assert(stats_v(b.stats@)[i as int] == b.stats@[i as int].view());
            self.push(Kont::Block(b, i + 1));
            self.run(Ctrl::Exec(&b.stats[i]))
        } else {
            match &b.ret {
                Some(ret) => {
                    assert(b.view().ret == Some(ret.view()));
                    assert(ret.view().exprs == exprs_v(ret.exprs@));
                    if ret.exprs.len() > 0 {
                        assert(exprs_v(ret.exprs@)[0] == ret.exprs@[0].view());
                        self.eval(&ret.exprs[0], Kont::Return)
                    } else {
                        self.flow(Flow::Return(Value::Nil))
                    }
                },
                None => self.flow(Flow::Normal),
            }
        }
    }

    fn exec_numeric_for(&mut self, var: &'a Ident, i: u64, end: u64, step: u64, body: &'a Block) -> (r: Progress)
        ensures
            final(self).follows(old(self)),
            (final(self)@, r@) == for_of(
                old(self).reso(),
                old(self)@,
                var@,
                i,
                end,
                step,
                body.view(),
            ),
    {
        reveal(for_of);
        if loop_goes_on(i, end, step) {
            match self.declare(var, Value::Number(i)) {
                Ok(_) => self.block(body, Kont::ForBody(var, i, end, step, body)),
                Err(e) => self.fail(e),
            }
        } else {
            self.flow(Flow::Normal)
        }
    }

    fn exec_item(&mut self, names: &'a Vec<Ident>, item: Value, body: &'a Block, k: Kont<'a>) -> (r: Progress)
        ensures
            final(self).follows(old(self)),
            (final(self)@, r@) == item_body_of(
                old(self).reso(),
                old(self)@,
                idents_v(names@),
                item@,
                body.view(),
                k.view(),
            ),
    {
        reveal(item_body_of);
        if names.len() > 1 {
            assert(idents_v(names@)[1] == names@[1]@);
            match self.declare(&names[1], item) {
                Ok(_) => self.block(body, k),
                Err(e) => self.fail(e),
            }
        } else {
            self.block(body, k)
        }
    }

    fn exec_ipairs(
        &mut self,
        names: &'a Vec<Ident>,
        arr: Value,
        len: usize,
        idx: usize,
        body: &'a Block,
    ) -> (r: Progress)
        ensures
            final(self).follows(old(self)),
            (final(self)@, r@) == ipairs_of(
                old(self).reso(),
                old(self)@,
                idents_v(names@),
                arr@,
                len as int,
                idx as int,
                body.view(),
            ),
    {
        reveal(ipairs_of);
        if idx < len {
            if names.len() > 0 {
                self.push(Kont::ItemKey(names, arr, len, idx, body));
                self.ask(Request::Count((idx + 1) as u64))
            } else {
                self.exec_array_item(names, arr, len, idx, body)
            }
        } else {
            self.flow(Flow::Normal)
        }
    }

    fn exec_array_item(
        &mut self,
        names: &'a Vec<Ident>,
        arr: Value,
        len: usize,
        idx: usize,
        body: &'a Block,
    ) -> (r: Progress)
        ensures
            final(self).follows(old(self)),
            (final(self)@, r@) == item_of(
                old(self).reso(),
                old(self)@,
                idents_v(names@),
                arr@,
                len as int,
                idx as int,
                body.view(),
            ),
    {
        reveal(item_of);
        let item: Option<Value> = match self.heap().as_array(&arr) {
            Some(items) => {
                if idx < items.len() {
                    assert(values_v(items@)[idx as int] == items@[idx as int]@);
                    Some(items[idx].dup())
                } else {
                    None
                }
            },
            None => None,
        };
        match item {
            Some(v) => self.exec_item(
                names,
                v,
                body,
                Kont::NextItem(names, arr, len, idx + 1, body),
            ),
            None => self.fail(RunError::internal("array shrank during ipairs")),
        }
    }

    fn exec_pairs(
        &mut self,
        names: &'a Vec<Ident>,
        es: NameMap<Value>,
        idx: usize,
        body: &'a Block,
    ) -> (r: Progress)
        ensures
            final(self).follows(old(self)),
            (final(self)@, r@) == pairs_of(
                old(self).reso(),
                old(self)@,
                idents_v(names@),
                es@,
                idx as int,
                body.view(),
            ),
    {
        reveal(pairs_of);
        if idx < es.len() {
            let key = Value::string(es.key(idx).as_str());
            let item = es.value(idx).dup();
            let k = Kont::NextEntry(names, es, idx + 1, body);
            if names.len() > 0 {
                assert(idents_v(names@)[0] == names@[0]@);
                match self.declare(&names[0], key) {
                    Ok(_) => self.exec_item(names, item, body, k),
                    Err(e) => self.fail(e),
                }
            } else {
                self.exec_item(names, item, body, k)
            }
        } else {
            self.flow(Flow::Normal)
        }
    }

    fn exec_generic_for(&mut self, names: &'a Vec<Ident>, pairs: bool, body: &'a Block, v: Value) -> (r: Progress)
        ensures
            final(self).follows(old(self)),
            (final(self)@, r@) == iter_of(
                old(self).reso(),
                old(self)@,
                idents_v(names@),
                pairs,
                body.view(),
                v@,
            ),
    {
        reveal(iter_of);
        if pairs {
            let es: NameMap<Value> = match self.heap().as_table(&v) {
                Some(t) => dup_entries(t),
                None => {
                    return self.fail(
                        RunError::Internal(cat2("pairs expected a table, found ", v.kind_name())),
                    );
                },
            };
            self.exec_pairs(names, es, 0, body)
        } else {
            let len: usize = match self.heap().as_array(&v) {
                Some(items) => items.len(),
                None => {
                    return self.fail(
                        RunError::Internal(cat2("ipairs expected an array, found ", v.kind_name())),
                    );
                },
            };
            self.exec_ipairs(names, v, len, 0, body)
        }
    }

    fn eval_unary(&mut self, op: UnOp, v: Value) -> (r: Progress)
        ensures
            final(self).follows(old(self)),
            (final(self)@, r@) == unary_of(old(self)@, op, v@),
    {
        reveal(unary_of);
        match op {
            UnOp::Neg => match v {
                Value::Number(b) => self.have(Value::Number(negate(b))),
                _ => self.fail(value_error("unary `-` on a ", &v, " value")),
            },
            UnOp::Not => self.have(Value::Bool(!v.is_truthy())),
            UnOp::Len => match &v {
                Value::Str(s) => {
                    let n: usize = s.as_str().as_bytes().len();
                    self.ask(Request::Count(n as u64))
                },
                _ => {
                    let n: Option<usize> = match self.heap().as_array(&v) {
                        Some(items) => Some(items.len()),
                        None => None,
                    };
                    match n {
                        Some(n) => self.ask(Request::Count(n as u64)),
                        None => self.fail(value_error("`#` on a ", &v, " value")),
                    }
                },
            },
        }
    }

    fn eval_binary(&mut self, op: BinOp, l: Value, r: Value) -> (p: Progress)
        ensures
            final(self).follows(old(self)),
            (final(self)@, p@) == binary_of(old(self)@, op, l@, r@),
    {
        reveal(binary_of);
        match op {
            BinOp::Add | BinOp::Sub | BinOp::Mul | BinOp::Div | BinOp::FloorDiv | BinOp::Mod
            | BinOp::Pow => match (&l, &r) {
                (Value::Number(a), Value::Number(b)) => self.ask(Request::Arith(op, *a, *b)),
                (Value::Number(_), _) => self.fail(number_error(&r)),
                _ => self.fail(number_error(&l)),
            },
            BinOp::Concat => match (&l, &r) {
                (Value::Str(a), Value::Str(b)) => {
                    let s = cat2(a.as_str(), b.as_str());
                    self.have(Value::Str(s))
                },
                (Value::Str(_), _) => self.fail(expected_error("string", &r)),
                _ => self.fail(expected_error("string", &l)),
            },
            BinOp::Lt | BinOp::Le | BinOp::Gt | BinOp::Ge => match compare_values(&l, &r) {
                Ok(o) => self.have(Value::Bool(relates(op, o))),
                Err(e) => self.fail(e),
            },
            BinOp::Eq => self.have(Value::Bool(value_eq(&l, &r))),
            BinOp::Ne => self.have(Value::Bool(!value_eq(&l, &r))),
            BinOp::And | BinOp::Or => self.have(r),
        }
    }

    fn eval_rhs(&mut self, op: BinOp, rhs: &'a Expr, l: Value) -> (r: Progress)
        ensures
            final(self).follows(old(self)),
            (final(self)@, r@) == rhs_of(old(self)@, op, rhs.view(), l@),
    {
        reveal(rhs_of);
        match op {
            BinOp::And => {
                if l.is_truthy() {
                    self.run(Ctrl::Eval(rhs))
                } else {
                    self.have(l)
                }
            },
            BinOp::Or => {
                if l.is_truthy() {
                    self.have(l)
                } else {
                    self.run(Ctrl::Eval(rhs))
                }
            },
            _ => self.eval(rhs, Kont::Binary(op, l)),
        }
    }

    fn eval_field(&mut self, name: &'a Ident, v: Value) -> (r: Progress)
        ensures
            final(self).follows(old(self)),
            (final(self)@, r@) == field_of(old(self)@, name@.node, v@),
    {
        reveal(field_of);
        let found: Option<Value> = match self.heap().as_table(&v) {
            Some(t) => match t.get(name.node.as_str()) {
                Some(x) => Some(x.dup()),
                None => Some(Value::Nil),
            },
            None => None,
        };
        match found {
            Some(x) => self.have(x),
            None => self.fail(
                RunError::Internal(
                    cat5(
                        "cannot read field `",
                        name.node.as_str(),
                        "` of a ",
                        v.kind_name(),
                        " value",
                    ),
                ),
            ),
        }
    }

    fn eval_key(&mut self, base: Value, key: Value) -> (r: Progress)
        ensures
            final(self).follows(old(self)),
            (final(self)@, r@) == key_of(old(self)@, base@, key@),
    {
        reveal(key_of);
        let found: Result<Value, RunError> = match self.heap().as_array(&base) {
            Some(items) => match &key {
                Value::Number(b) => match index(*b) {
                    Some(i) => {
                        if i <= items.len() as u64 {
                            assert(values_v(items@)[i - 1] == items@[i - 1]@);
                            Ok(items[(i - 1) as usize].dup())
                        } else {
                            Ok(Value::Nil)
                        }
                    },
                    None => Ok(Value::Nil),
                },
                _ => Err(number_error(&key)),
            },
            None => match self.heap().as_table(&base) {
                Some(t) => match &key {
                    Value::Str(k) => match t.get(k.as_str()) {
                        Some(x) => Ok(x.dup()),
                        None => Ok(Value::Nil),
                    },
                    _ => Err(expected_error("string key", &key)),
                },
                None => Err(value_error("cannot index a ", &base, " value")),
            },
        };
        match found {
            Ok(v) => self.have(v),
            Err(e) => self.fail(e),
        }
    }

    fn is_container(&self, v: &Value) -> (r: bool)
        ensures
            r == is_container(self@.heap, v@),
    {
        self.heap().as_array(v).is_some() || self.heap().as_table(v).is_some()
    }

    fn write_array(&mut self, base: &Value, idx: u64, v: Value)
        requires
            array_written(old(self)@.heap, base@, ValueV::Number(idx), v@) is Ok,
        ensures
            final(self).follows(old(self)),
            final(self)@ == old(self)@.on_heap(
                array_written(old(self)@.heap, base@, ValueV::Number(idx), v@)->Ok_0,
            ),
    {
        proof {
            reveal(Interpreter::view);
            reveal(St::on_heap);
        }
        let _written = self.heap.array_set(base, &Value::Number(idx), v);
    }

    fn write_table(&mut self, base: &Value, key: &str, v: Value)
        requires
            table_written(old(self)@.heap, base@, ValueV::Str(key@), v@) is Ok,
        ensures
            final(self).follows(old(self)),
            final(self)@ == old(self)@.on_heap(
                table_written(old(self)@.heap, base@, ValueV::Str(key@), v@)->Ok_0,
            ),
    {
        proof {
            reveal(Interpreter::view);
            reveal(St::on_heap);
        }
        let _written = self.heap.table_set(base, &Value::string(key), v);
    }

    fn array_set(&mut self, base: Value, idx: u64, v: Value) -> (r: Progress)
        ensures
            final(self).follows(old(self)),
            (final(self)@, r@) == array_set_of(old(self)@, base@, idx, v@),
    {
        reveal(array_set_of);
        let len: usize = match self.heap().as_array(&base) {
            Some(items) => items.len(),
            None => {
                return self.fail(value_error("cannot index-assign a ", &base, " value"));
            },
        };
        if self.is_constant(&base) {
            return self.fail(frozen_error());
        }
        match index(idx) {
            None => {
                self.push(Kont::BadIndex);
                let mut ps: Vec<Piece> = Vec::new();
                ps.push(Piece::General(idx));
                assert(pieces_v(ps@) =~= seq![PieceV::General(idx)]);
                self.ask(Request::Show(ps))
            },
            Some(i) => {
                if i <= len as u64 || i - 1 == len as u64 {
                    self.write_array(&base, idx, v);
                    self.flow(Flow::Normal)
                } else {
                    let text = cat5(
                        "array index ",
                        dec_string(i).as_str(),
                        " is out of range (length ",
                        dec_string(len as u64).as_str(),
                        "); arrays may only grow by one",
                    );
                    self.fail(RunError::Runtime(text))
                }
            },
        }
    }

    fn set_key(&mut self, base: Value, key: Value, v: Value) -> (r: Progress)
        ensures
            final(self).follows(old(self)),
            (final(self)@, r@) == set_key_of(old(self)@, base@, key@, v@),
    {
        reveal(set_key_of);
        if self.heap().as_array(&base).is_some() {
            match key {
                Value::Number(b) => self.array_set(base, b, v),
                _ => self.fail(number_error(&key)),
            }
        } else if self.heap().as_table(&base).is_some() {
            match &key {
                Value::Str(k) => {
                    if self.is_constant(&base) {
                        return self.fail(frozen_error());
                    }
                    self.write_table(&base, k.as_str(), v);
                    self.flow(Flow::Normal)
                },
                _ => self.fail(expected_error("string key", &key)),
            }
        } else {
            self.fail(value_error("cannot index-assign a ", &base, " value"))
        }
    }

    fn set_field(&mut self, name: &'a Ident, base: Value, v: Value) -> (r: Progress)
        ensures
            final(self).follows(old(self)),
            (final(self)@, r@) == set_field_of(old(self)@, name@.node, base@, v@),
    {
        reveal(set_field_of);
        if self.heap().as_table(&base).is_some() {
            if self.is_constant(&base) {
                return self.fail(frozen_error());
            }
            self.write_table(&base, name.node.as_str(), v);
            self.flow(Flow::Normal)
        } else {
            self.fail(
                RunError::Internal(
                    cat5(
                        "cannot set field `",
                        name.node.as_str(),
                        "` on a ",
                        base.kind_name(),
                        " value",
                    ),
                ),
            )
        }
    }

    fn export_everything(&mut self)
        ensures
            final(self).follows(old(self)),
            final(self)@ == (St {
                exports: put_all(
                    put_all(old(self)@.exports, old(self)@.top, old(self)@.top.len()),
                    old(self)@.consts,
                    old(self)@.consts.len(),
                ),
                ..old(self)@
            }),
    {
        reveal(Interpreter::view);
        put_entries(&mut self.exports, &self.top);
        put_entries(&mut self.exports, &self.consts);
    }

    fn next_decl(&mut self, i: usize) -> (r: Progress)
        ensures
            final(self).follows(old(self)),
            (final(self)@, r@) == decl_of(old(self).modul(), old(self)@, i as int),
    {
        reveal(decl_of);
        let module: &'a Module = self.module;
        if i < module.decls.len() {
            assert(self.modul().decls[i as int] == module.decls@[i as int].view());
            match &module.decls[i] {
                TopDecl::Function(_) => self.run(Ctrl::Decl(i + 1)),
                TopDecl::Const(c) => self.eval(&c.value, Kont::Const(i)),
            }
        } else {
            match &module.export {
                Some(_) => self.run(Ctrl::Export(0)),
                None => {
                    self.export_everything();
                    self.done(Value::Nil)
                },
            }
        }
    }

    fn next_export(&mut self, i: usize) -> (r: Progress)
        ensures
            final(self).follows(old(self)),
            (final(self)@, r@) == export_of(old(self).modul(), old(self)@, i as int),
    {
        reveal(export_of);
        let module: &'a Module = self.module;
        match &module.export {
            Some(e) => {
                assert(self.modul().export->0.node == fields_v(e.node@));
                if i < e.node.len() {
                    assert(fields_v(e.node@)[i as int] == e.node@[i as int].view());
                    match &e.node[i] {
                        Field::Named { name: _, value } => self.eval(value, Kont::Export(i)),
                        _ => self.run(Ctrl::Export(i + 1)),
                    }
                } else {
                    self.done(Value::Nil)
                }
            },
            None => self.done(Value::Nil),
        }
    }

    fn set_const(&mut self, name: &str, v: Value)
        ensures
            final(self).follows(old(self)),
            final(self)@ == (St { consts: put_of(old(self)@.consts, name@, v@), ..old(self)@ }),
    {
        reveal(Interpreter::view);
        self.consts.insert(own(name), v);
    }

    fn set_export(&mut self, name: &str, v: Value)
        ensures
            final(self).follows(old(self)),
            final(self)@ == (St { exports: put_of(old(self)@.exports, name@, v@), ..old(self)@ }),
    {
        reveal(Interpreter::view);
        self.exports.insert(own(name), v);
    }

    fn have_const(&mut self, i: usize, v: Value) -> (r: Progress)
        ensures
            final(self).follows(old(self)),
            (final(self)@, r@) == const_of(old(self).modul(), old(self)@, i as int, v@),
    {
        reveal(const_of);
        let module: &'a Module = self.module;
        if i < module.decls.len() {
            assert(self.modul().decls[i as int] == module.decls@[i as int].view());
            match &module.decls[i] {
                TopDecl::Const(c) => {
                    self.set_const(c.name.node.as_str(), v);
                    self.run(Ctrl::Decl(i + 1))
                },
                TopDecl::Function(_) => self.run(Ctrl::Decl(i + 1)),
            }
        } else {
            self.fail(RunError::internal("no such declaration"))
        }
    }

    fn have_export(&mut self, i: usize, v: Value) -> (r: Progress)
        ensures
            final(self).follows(old(self)),
            (final(self)@, r@) == exported_of(old(self).modul(), old(self)@, i as int, v@),
    {
        reveal(exported_of);
        let module: &'a Module = self.module;
        match &module.export {
            Some(e) => {
                assert(self.modul().export->0.node == fields_v(e.node@));
                if i < e.node.len() {
                    assert(fields_v(e.node@)[i as int] == e.node@[i as int].view());
                    match &e.node[i] {
                        Field::Named { name, value: _ } => {
                            self.set_export(name.node.as_str(), v);
                            self.run(Ctrl::Export(i + 1))
                        },
                        _ => self.run(Ctrl::Export(i + 1)),
                    }
                } else {
                    self.fail(RunError::internal("no such declaration"))
                }
            },
            None => self.fail(RunError::internal("no such declaration")),
        }
    }

    fn have_entry_key(&mut self, fields: &'a Vec<Field>, i: usize, es: NameMap<Value>, v: Value) -> (r: Progress)
        ensures
            final(self).follows(old(self)),
            (final(self)@, r@) == entry_key_of(
                old(self)@,
                fields_v(fields@),
                i as int,
                es@,
                v@,
            ),
    {
        reveal(entry_key_of);
        match v {
            Value::Str(key) => {
                if i < fields.len() {
                    assert(fields_v(fields@)[i as int] == fields@[i as int].view());
                    match &fields[i] {
                        Field::Keyed { key: _, value } => self.eval(
                            value,
                            Kont::Entry(fields, i, es, key),
                        ),
                        _ => self.fail(RunError::internal("no such field")),
                    }
                } else {
                    self.fail(RunError::internal("no such field"))
                }
            },
            _ => self.fail(expected_error("string key", &v)),
        }
    }

    fn have_value_in_expr(&mut self, k: Kont<'a>, v: Value) -> (r: Progress)
        ensures
            final(self).follows(old(self)),
            (final(self)@, r@) == have_in_expr(old(self).modul(), old(self)@, k.view(), v@),
    {
        reveal(have_in_expr);
        match k {
            Kont::Unary(op) => self.eval_unary(op, v),
            Kont::Rhs(op, rhs) => self.eval_rhs(op, rhs, v),
            Kont::Binary(op, l) => self.eval_binary(op, l, v),
            Kont::Field(name) => self.eval_field(name, v),
            Kont::Index(index) => {
                if self.is_container(&v) {
                    self.eval(index, Kont::Key(v))
                } else {
                    self.fail(value_error("cannot index a ", &v, " value"))
                }
            },
            Kont::Key(base) => self.eval_key(base, v),
            Kont::Callee(args) => {
                let none: Vec<Value> = Vec::new();
                assert(values_v(none@) =~= Seq::<ValueV>::empty());
                self.eval_args(Callee::Value(v), args, none)
            },
            Kont::Args(callee, args, done) => {
                let more = with_value(done, v);
                self.eval_args(callee, args, more)
            },
            Kont::Items(fields, done) => {
                let more = with_value(done, v);
                self.eval_items(fields, more)
            },
            Kont::Entry(fields, i, es, key) => {
                if i < fields.len() {
                    let mut es = es;
                    es.insert(key, v);
                    self.eval_entries(fields, i + 1, es)
                } else {
                    self.fail(RunError::internal("no such field"))
                }
            },
            Kont::EntryKey(fields, i, es) => self.have_entry_key(fields, i, es, v),
            Kont::Mixed => self.fail(
                RunError::internal("mixed positional/keyed table reached the interpreter"),
            ),
            Kont::Memo(name, mark) => {
                self.keep_const(name, mark, v.dup());
                self.have(v)
            },
            Kont::Const(i) => self.have_const(i, v),
            Kont::Export(i) => self.have_export(i, v),
            _ => self.fail(RunError::internal("value where a statement ends")),
        }
    }

    fn have_value_in_stat(&mut self, k: Kont<'a>, v: Value) -> (r: Progress)
        ensures
            final(self).follows(old(self)),
            (final(self)@, r@) == have_in_stat(old(self).reso(), old(self)@, k.view(), v@),
    {
        reveal(have_in_stat);
        match k {
            Kont::Local(names, exprs, done) => {
                let more = with_value(done, v);
                self.exec_local(names, exprs, more)
            },
            Kont::Values(targets, exprs, done) => {
                let more = with_value(done, v);
                self.exec_assign(targets, exprs, more)
            },
            Kont::SetField(name, x) => self.set_field(name, v, x),
            Kont::SetBase(index, x) => {
                if self.is_container(&v) {
                    self.eval(index, Kont::SetKey(v, x))
                } else {
                    self.fail(value_error("cannot index-assign a ", &v, " value"))
                }
            },
            Kont::SetKey(base, x) => self.set_key(base, v, x),
            Kont::BadIndex => match v {
                Value::Str(s) => self.fail(
                    RunError::Runtime(
                        cat3("array index ", s.as_str(), " is not a positive integer"),
                    ),
                ),
                _ => self.fail(expected_error("string", &v)),
            },
            Kont::Drop => self.flow(Flow::Normal),
            Kont::WhileCond(cond, body) => {
                if v.is_truthy() {
                    self.block(body, Kont::WhileBody(cond, body))
                } else {
                    self.flow(Flow::Normal)
                }
            },
            Kont::If(arms, i, or) => {
                if i >= arms.len() {
                    self.fail(RunError::internal("no such arm"))
                } else if v.is_truthy() {
                    assert(arms_v(arms@)[i as int] == (
                        arms@[i as int].0.view(),
                        arms@[i as int].1.view(),
                    ));
                    self.run(Ctrl::Block(&arms[i].1, 0))
                } else {
                    self.exec_if(arms, i + 1, or)
                }
            },
            Kont::Return => self.flow(Flow::Return(v)),
            _ => self.have_value_in_loop(k, v),
        }
    }

    fn have_value_in_loop(&mut self, k: Kont<'a>, v: Value) -> (r: Progress)
        ensures
            final(self).follows(old(self)),
            (final(self)@, r@) == have_in_loop(old(self).reso(), old(self)@, k.view(), v@),
    {
        reveal(have_in_loop);
        match k {
            Kont::ForStart(var, end, step, body) => match v {
                Value::Number(b) => self.eval(end, Kont::ForEnd(var, b, step, body)),
                _ => self.fail(number_error(&v)),
            },
            Kont::ForEnd(var, start, step, body) => match v {
                Value::Number(b) => match step {
                    Some(e) => self.eval(e, Kont::ForStep(var, start, b, body)),
                    None => self.exec_numeric_for(var, start, b, ONE, body),
                },
                _ => self.fail(number_error(&v)),
            },
            Kont::ForStep(var, start, end, body) => match v {
                Value::Number(b) => self.exec_numeric_for(var, start, end, b, body),
                _ => self.fail(number_error(&v)),
            },
            Kont::ForNext(var, end, step, body) => match v {
                Value::Number(b) => self.exec_numeric_for(var, b, end, step, body),
                _ => self.fail(number_error(&v)),
            },
            Kont::Iter(names, pairs, body) => self.exec_generic_for(names, pairs, body, v),
            Kont::ItemKey(names, arr, len, idx, body) => {
                if names.len() > 0 {
                    assert(idents_v(names@)[0] == names@[0]@);
                    match self.declare(&names[0], v) {
                        Ok(_) => self.exec_array_item(names, arr, len, idx, body),
                        Err(e) => self.fail(e),
                    }
                } else {
                    self.exec_array_item(names, arr, len, idx, body)
                }
            },
            _ => self.fail(RunError::internal("value where a statement ends")),
        }
    }

    fn set_act(&mut self, a: Option<Act>)
        ensures
            final(self).follows(old(self)),
            final(self)@ == (St { act: opt_act_v(a), ..old(self)@ }),
    {
        reveal(Interpreter::view);
        self.act = a;
    }

    fn end_statement(&mut self, k: Kont<'a>, f: Flow) -> (r: Progress)
        ensures
            final(self).follows(old(self)),
            (final(self)@, r@) == flow_of(old(self).reso(), old(self)@, k.view(), f.view()),
    {
        reveal(flow_of);
        match k {
            Kont::Block(b, i) => match f {
                Flow::Normal => self.exec_block(b, i),
                _ => self.flow(f),
            },
            Kont::Assign(targets, vs, j) => match f {
                Flow::Normal => self.assign_to(targets, vs, j),
                _ => self.fail(RunError::internal("statement where a value is expected")),
            },
            Kont::WhileBody(cond, body) => match f {
                Flow::Normal => self.eval(cond, Kont::WhileCond(cond, body)),
                Flow::Break => self.flow(Flow::Normal),
                Flow::Return(_) => self.flow(f),
            },
            Kont::ForBody(var, i, end, step, body) => match f {
                Flow::Normal => {
                    self.push(Kont::ForNext(var, end, step, body));
                    self.ask(Request::Arith(BinOp::Add, i, step))
                },
                Flow::Break => self.flow(Flow::Normal),
                Flow::Return(_) => self.flow(f),
            },
            Kont::NextItem(names, arr, len, idx, body) => match f {
                Flow::Normal => self.exec_ipairs(names, arr, len, idx, body),
                Flow::Break => self.flow(Flow::Normal),
                Flow::Return(_) => self.flow(f),
            },
            Kont::NextEntry(names, es, idx, body) => match f {
                Flow::Normal => self.exec_pairs(names, es, idx, body),
                Flow::Break => self.flow(Flow::Normal),
                Flow::Return(_) => self.flow(f),
            },
            Kont::Call(saved) => match f {
                Flow::Return(v) => {
                    self.set_act(saved);
                    self.have(v)
                },
                Flow::Normal => {
                    self.set_act(saved);
                    self.have(Value::Nil)
                },
                Flow::Break => self.fail(RunError::internal("`break` escaped a function body")),
            },
            _ => self.fail(RunError::internal("statement where a value is expected")),
        }
    }

    /// Whether a request waits for its answer.
    fn waits(&self) -> (r: bool)
        ensures
            r == self@.wait is Some,
    {
        reveal(Interpreter::view);
        self.wait.is_some()
    }

    /// Make one step.
    pub fn step(&mut self) -> (r: Progress)
        ensures
            final(self).follows(old(self)),
            (final(self)@, r@) == step_of(old(self).modul(), old(self).reso(), old(self)@),
    {
        let ghost before = self@;
        match self.take_ctrl() {
            None => {
                assert(self@ == before);
                if self.waits() {
                    Progress::Ask
                } else {
                    Progress::Done(Err(RunError::internal("step without a call")))
                }
            },
            Some(Ctrl::Eval(e)) => self.eval_expr(e),
            Some(Ctrl::Exec(s)) => self.exec_stat(s),
            Some(Ctrl::Block(b, i)) => self.exec_block(b, i),
            Some(Ctrl::Decl(i)) => self.next_decl(i),
            Some(Ctrl::Export(i)) => self.next_export(i),
            Some(Ctrl::Have(v)) => match self.pop() {
                None => self.done(v),
                Some(k) => {
                    if is_expr_kont(&k) {
                        self.have_value_in_expr(k, v)
                    } else {
                        self.have_value_in_stat(k, v)
                    }
                },
            },
            Some(Ctrl::Flow(f)) => match self.pop() {
                None => self.fail(RunError::internal("statement outside a function")),
                Some(k) => self.end_statement(k, f),
            },
        }
    }

    fn take_wait(&mut self) -> (r: Option<Request>)
        ensures
            final(self).follows(old(self)),
            final(self)@ == (St { wait: None, ..old(self)@ }),
            match r {
                Some(q) => old(self)@.wait == Some(q@),
                None => old(self)@.wait is None,
            },
    {
        reveal(Interpreter::view);
        self.wait.take()
    }

    /// Go on with the answer to the request that waits.
    pub fn resume(&mut self, reply: Reply) -> (r: Progress)
        ensures
            final(self).follows(old(self)),
            (final(self)@, r@) == resume_of(old(self)@, reply@),
    {
        let ghost before = self@;
        match self.take_wait() {
            Some(q) => {
                let r = answer(&q, reply);
                self.answer(r)
            },
            None => {
                assert(self@ == before);
                Progress::Done(Err(RunError::internal("resume without a request")))
            },
        }
    }

    fn fresh(&mut self)
        ensures
            final(self).follows(old(self)),
            final(self)@ == old(self)@.fresh(),
    {
        self.idle();
        self.forget();
    }

    fn forget(&mut self)
        ensures
            final(self).follows(old(self)),
            final(self)@ == (St { consts: Seq::empty(), frozen: Seq::empty(), ..old(self)@ }),
    {
        reveal(Interpreter::view);
        self.consts = NameMap::new();
        self.frozen = Vec::new();
        assert(self@.frozen =~= Seq::<(usize, usize)>::empty());
    }

    fn param_count(&self, i: usize) -> (r: usize)
        requires
            i < self@.funcs.len(),
        ensures
            r == self@.funcs[i as int].body.params.len(),
    {
        reveal(Interpreter::view);
        assert(self@.funcs[i as int] == self.funcs@[i as int].view());
        self.funcs[i].body.params.len()
    }

    fn host_call(&mut self, name: &str, callee: Value, args: Vec<Value>) -> (r: Progress)
        ensures
            final(self).follows(old(self)),
            (final(self)@, r@) == call_from_host(
                old(self)@,
                name@,
                callee@,
                values_v(args@),
            ),
    {
        reveal(call_from_host);
        if let Value::Function(i) = &callee {
            if *i < self.func_count() {
                let want: usize = self.param_count(*i);
                if want != args.len() {
                    return self.fail(arity_error(name, want, args.len()));
                }
            }
        }
        self.call_value(callee, args)
    }

    fn read_export(&mut self, name: &str) -> (r: Progress)
        ensures
            final(self).follows(old(self)),
            (final(self)@, r@) == export_value_of(old(self).modul(), old(self)@, name@),
    {
        broadcast use vstd::std_specs::btree::group_btree_axioms;

        reveal(export_value_of);
        let act = Act { func: None, locals: BTreeMap::new() };
        assert(act.view().locals =~= Map::<SymbolId, usize>::empty());
        self.set_act(Some(act));
        let module: &'a Module = self.module;
        match &module.export {
            Some(e) => {
                assert(self.modul().export->0.node == fields_v(e.node@));
                match find_export(&e.node, name) {
                    Some(value) => self.run(Ctrl::Eval(value)),
                    None => self.fail(RunError::UnknownExport(own(name))),
                }
            },
            None => self.eval_const(name),
        }
    }

    /// Start a call of an exported function, or of an exported constant, with exactly the
    /// arguments that it takes.
    pub fn call(&mut self, name: &str, args: Vec<Value>) -> (r: Progress)
        ensures
            final(self).follows(old(self)),
            (final(self)@, r@) == started_of(
                old(self).modul(),
                old(self)@,
                name@,
                values_v(args@),
            ),
    {
        let found = self.exported(name);
        self.fresh();
        match found {
            None => self.fail(RunError::UnknownExport(own(name))),
            Some(v) => {
                let callable = match &v {
                    Value::Function(_) => true,
                    Value::Native(_) => true,
                    _ => false,
                };
                if callable {
                    self.host_call(name, v, args)
                } else if args.len() > 0 {
                    self.fail(arity_error(name, 0, args.len()))
                } else {
                    self.read_export(name)
                }
            },
        }
    }

    /// Start a call of a function value, such as one that an earlier call returned.
    pub fn call_value_public(&mut self, callee: Value, args: Vec<Value>) -> (r: Progress)
        ensures
            final(self).follows(old(self)),
            (final(self)@, r@) == call_from_host(
                old(self)@.fresh(),
                "function"@,
                callee@,
                values_v(args@),
            ),
    {
        self.fresh();
        self.host_call("function", callee, args)
    }

    /// What the module exports under a name.
    pub fn exported(&self, name: &str) -> (r: Option<Value>)
        ensures
            match r {
                Some(v) => get_of(self@.exports, name@) == Some(v@),
                None => get_of(self@.exports, name@) is None,
            },
    {
        reveal(Interpreter::view);
        match self.exports.get(name) {
            Some(v) => Some(v.dup()),
            None => None,
        }
    }
}

fn find_const<'a>(module: &'a Module, name: &str) -> (r: Option<&'a Expr>)
    ensures
        match r {
            Some(e) => const_decl(module@.decls, name@, module@.decls.len()) == Some(e.view()),
            None => const_decl(module@.decls, name@, module@.decls.len()) is None,
        },
{
    let ghost dv = decls_v(module.decls@);
    let mut n: usize = module.decls.len();
    while n > 0
        invariant
            n <= module.decls@.len(),
            dv == decls_v(module.decls@),
            const_decl(dv, name@, n as nat) == const_decl(dv, name@, dv.len()),
        decreases n,
    {
        assert(dv[n - 1] == module.decls@[n - 1].view());
        match &module.decls[n - 1] {
            TopDecl::Const(c) => {
                if same(c.name.node.as_str(), name) {
                    return Some(&c.value);
                }
            },
            TopDecl::Function(_) => {},
        }
        n -= 1;
    }
    None
}

fn find_export<'a>(fields: &'a Vec<Field>, name: &str) -> (r: Option<&'a Expr>)
    ensures
        match r {
            Some(e) => export_field(fields_v(fields@), name@, fields@.len()) == Some(e.view()),
            None => export_field(fields_v(fields@), name@, fields@.len()) is None,
        },
{
    let ghost fv = fields_v(fields@);
    let mut n: usize = fields.len();
    while n > 0
        invariant
            n <= fields@.len(),
            fv == fields_v(fields@),
            export_field(fv, name@, n as nat) == export_field(fv, name@, fields@.len()),
        decreases n,
    {
        assert(fv[n - 1] == fields@[n - 1].view());
        match &fields[n - 1] {
            Field::Named { name: k, value } => {
                if same(k.node.as_str(), name) {
                    return Some(value);
                }
            },
            _ => {},
        }
        n -= 1;
    }
    None
}

fn with_value(done: Vec<Value>, v: Value) -> (r: Vec<Value>)
    ensures
        values_v(r@) == values_v(done@).push(v@),
{
    let mut out = done;
    let ghost vv = v@;
    out.push(v);
    assert(values_v(out@) =~= values_v(done@).push(vv));
    out
}

fn put_entries(es: &mut NameMap<Value>, more: &NameMap<Value>)
    ensures
        final(es)@ == put_all(old(es)@, more@, more@.len()),
{
    let n: usize = more.len();
    let mut i: usize = 0;
    while i < n
        invariant
            i <= n,
            n == more@.len(),
            es@ == put_all(old(es)@, more@, i as nat),
        decreases n - i,
    {
        es.insert(own(more.key(i).as_str()), more.value(i).dup());
        i += 1;
    }
}

fn is_expr_kont(k: &Kont) -> (r: bool)
    ensures
        r == in_expr(k.view()),
{
    match k {
        Kont::Unary(_) | Kont::Rhs(_, _) | Kont::Binary(_, _) | Kont::Field(_) | Kont::Index(_)
        | Kont::Key(_) | Kont::Callee(_) | Kont::Args(_, _, _) | Kont::Items(_, _) | Kont::Entry(
            _,
            _,
            _,
            _,
        ) | Kont::EntryKey(_, _, _) | Kont::Mixed | Kont::Const(_) | Kont::Export(_) | Kont::Memo(
            _,
            _,
        ) => true,
        _ => false,
    }
}

} // verus!
