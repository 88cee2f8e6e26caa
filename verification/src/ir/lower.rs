//! Lowering of checked modules to the intermediate representation.
//!
//! The functions `l_*` say what each construct lowers to, as steps from one state of the
//! function under construction to the next; the `unfold_*` lemmas state the recursive ones
//! one step at a time.
use std::collections::{BTreeMap, HashSet};
use vstd::prelude::*;
use crate::ast::Block as AstBlock;
use crate::ast::BlockV as AstBlockV;
use crate::ast::{
    arms_v, decls_v, exprs_v, fields_v, idents_v, stats_v, BinOp, Expr, ExprKind, ExprKindV, ExprV,
    Field, FieldV, FuncBody, FuncBodyV, Ident, IdentV, IterExpr, IterExprV, Module, ModuleV,
    RetStatV, Stat, StatKind, StatKindV, StatV, TopDecl, TopDeclV, UnOp,
};
use crate::capture::{boxed_locals, boxed_of, upvalues, upvalues_of};
use crate::check::{all_positional, table_shape, TypeInfo, TypeInfoV};
use crate::diagnostics::Span;
use crate::ir::{
    block_ok, blocks_v, function_ok, locals_v, pairs_v, program_ok, term_ok, Block, BlockId, BlockV,
    ExportTarget, ExportTargetV, Function, FunctionV, Instr, InstrV, LocalId, LowerError,
    LowerErrorV, Op, OpV, Program, ProgramV, Terminator, ValueId,
};
use crate::names::{get_of, lemma_put_entries, put_of, NameMap};
use crate::numeral::{Numeral, NumeralV};
use crate::resolve::{Binding, BindingV, Resolution, ResolutionV, SymbolId};
use crate::runtime::builtins::{
    field_type_of, member_sig, member_sig_of, namespace_field_type, value_sig, value_sig_of, SigV,
};
use crate::text::{cat2, cat3, dec, dec_string, own};
use crate::types::{type_text, types_v, Fields, FnTypeV, Type, TypeConfig, TypeConfigV, TypeV};

verus! {

/// What lowering reads: the resolved and checked module's tables.
pub ghost struct Tables {
    pub res: ResolutionV,
    pub types: TypeInfoV,
    pub cfg: TypeConfigV,
}

/// A function literal discovered during lowering, to be lifted into a function of its own.
pub ghost struct PendingV {
    pub name: Seq<char>,
    pub body: FuncBodyV,
    pub depth: usize,
    pub upvalues: Seq<SymbolId>,
}

/// A function under construction.
pub ghost struct Low {
    pub name: Seq<char>,
    pub ret: TypeV,
    pub params: Seq<LocalId>,
    pub locals: Map<LocalId, TypeV>,
    pub values: Seq<TypeV>,
    pub blocks: Seq<BlockV>,
    /// The block that instructions go to.
    pub current: int,
    pub next_temp: LocalId,
    /// The exit blocks of the loops around, for `break`.
    pub exits: Seq<BlockId>,
    /// Nesting depth of the function (0 at top level).
    pub depth: usize,
    /// Own parameters and locals that live in shared cells.
    pub boxed: Set<SymbolId>,
    /// The captured symbols, in the order of the environment.
    pub upvalues: Seq<SymbolId>,
    /// The local that holds the environment.
    pub env_local: Option<LocalId>,
    pub found: Seq<PendingV>,
    pub counter: u32,
}

/// The state after a step and what it yielded, or why it failed.
pub type Step<T> = Result<(Low, T), LowerErrorV>;

/// The type of an upvalue cell or closure handle: an opaque pointer.
pub open spec fn cell_of_type() -> TypeV {
    TypeV::Array(Box::new(TypeV::Nil))
}

pub open spec fn internal(msg: Seq<char>) -> LowerErrorV {
    LowerErrorV::Internal(msg)
}

pub open spec fn unsupported(msg: Seq<char>) -> LowerErrorV {
    LowerErrorV::Unsupported(msg)
}

/// The inferred type of an in-function symbol.
pub open spec fn symbol_type_of(t: Tables, id: SymbolId) -> TypeV {
    if id < t.types.symbol_types.len() {
        t.types.symbol_types[id as int]
    } else {
        TypeV::Error
    }
}

/// The index of the last of the first `n` upvalues that is `id`.
pub open spec fn upvalue_at(ups: Seq<SymbolId>, id: SymbolId, n: int) -> Option<int>
    decreases n,
{
    if n <= 0 {
        None
    } else if ups[n - 1] == id {
        Some(n - 1)
    } else {
        upvalue_at(ups, id, n - 1)
    }
}

impl Low {
    /// A function with an empty entry block.
    pub open spec fn start(t: Tables, name: Seq<char>, ret: TypeV) -> Low {
        Low {
            name,
            ret,
            params: Seq::empty(),
            locals: Map::empty(),
            values: Seq::empty(),
            blocks: seq![BlockV { id: 0, instrs: Seq::empty(), term: Terminator::Unreachable }],
            current: 0,
            next_temp: t.res.symbols.len() as u32,
            exits: Seq::empty(),
            depth: 0,
            boxed: Set::empty(),
            upvalues: Seq::empty(),
            env_local: None,
            found: Seq::empty(),
            counter: 0,
        }
    }

    /// Note which own symbols live in cells; their locals hold cells from now on.
    #[verifier::opaque]
    pub open spec fn set_boxed(self, boxed: Set<SymbolId>) -> Low {
        Low {
            boxed,
            locals: self.locals.union_prefer_right(
                Map::new(|id: SymbolId| boxed.contains(id), |id: SymbolId| cell_of_type()),
            ),
            ..self
        }
    }

    pub open spec fn finish(self) -> FunctionV {
        FunctionV {
            name: self.name,
            params: self.params,
            ret: self.ret,
            locals: self.locals,
            values: self.values,
            blocks: self.blocks,
            entry: 0,
            is_closure: self.env_local is Some,
        }
    }

    #[verifier::opaque]
    pub open spec fn new_block(self) -> (Low, BlockId) {
        let id = self.blocks.len() as u32;
        (
            Low {
                blocks: self.blocks.push(
                    BlockV { id, instrs: Seq::empty(), term: Terminator::Unreachable },
                ),
                ..self
            },
            id,
        )
    }

    #[verifier::opaque]
    pub open spec fn switch(self, b: BlockId) -> Low {
        Low { current: b as int, ..self }
    }

    #[verifier::opaque]
    pub open spec fn set_term(self, b: int, term: Terminator) -> Low {
        Low { blocks: self.blocks.update(b, BlockV { term, ..self.blocks[b] }), ..self }
    }

    pub open spec fn terminate(self, term: Terminator) -> Low {
        self.set_term(self.current, term)
    }

    /// The current block with one more instruction.
    pub open spec fn append(self, dest: Option<ValueId>, op: OpV) -> Seq<BlockV> {
        let b = self.blocks[self.current];
        self.blocks.update(
            self.current,
            BlockV { instrs: b.instrs.push(InstrV { dest, op }), ..b },
        )
    }

    #[verifier::opaque]
    pub open spec fn emit(self, op: OpV, ty: TypeV) -> (Low, ValueId) {
        let id = self.values.len() as u32;
        (Low { values: self.values.push(ty), blocks: self.append(Some(id), op), ..self }, id)
    }

    #[verifier::opaque]
    pub open spec fn stmt(self, op: OpV) -> Low {
        Low { blocks: self.append(None, op), ..self }
    }

    #[verifier::opaque]
    pub open spec fn fresh_temp(self, ty: TypeV) -> (Low, LocalId) {
        (
            Low {
                next_temp: self.next_temp.wrapping_add(1),
                locals: self.locals.insert(self.next_temp, ty),
                ..self
            },
            self.next_temp,
        )
    }

    #[verifier::opaque]
    pub open spec fn ensure_local(self, t: Tables, id: LocalId) -> Low {
        if self.locals.dom().contains(id) {
            self
        } else {
            Low { locals: self.locals.insert(id, symbol_type_of(t, id)), ..self }
        }
    }

    #[verifier::opaque]
    pub open spec fn add_param(self, id: LocalId) -> Low {
        Low { params: self.params.push(id), ..self }
    }

    #[verifier::opaque]
    pub open spec fn enter_loop(self, exit: BlockId) -> Low {
        Low { exits: self.exits.push(exit), ..self }
    }

    #[verifier::opaque]
    pub open spec fn leave_loop(self) -> Low {
        Low { exits: self.exits.drop_last(), ..self }
    }

    #[verifier::opaque]
    pub open spec fn type_of(self, v: ValueId) -> TypeV {
        if v < self.values.len() {
            self.values[v as int]
        } else {
            TypeV::Error
        }
    }

    #[verifier::opaque]
    pub open spec fn local_type(self, id: LocalId) -> TypeV {
        if self.locals.dom().contains(id) {
            self.locals[id]
        } else {
            TypeV::Error
        }
    }

    /// The index of a captured symbol in the environment.
    pub open spec fn upvalue(self, id: SymbolId) -> Option<int> {
        upvalue_at(self.upvalues, id, self.upvalues.len() as int)
    }

    /// Whether a symbol is accessed through a cell.
    pub open spec fn is_captured(self, id: SymbolId) -> bool {
        self.boxed.contains(id) || self.upvalue(id) is Some
    }

    /// Produce the cell that holds a captured symbol: from the environment if it is an
    /// upvalue, else from the symbol's own local.
    #[verifier::opaque]
    pub open spec fn cell(self, t: Tables, id: SymbolId) -> (Low, ValueId) {
        match self.upvalue(id) {
            Some(i) => {
                let (a, env) = self.emit(OpV::LocalGet(self.env_local->0), cell_of_type());
                a.emit(OpV::ClosureEnvGet(env, i as u32), cell_of_type())
            },
            None => self.ensure_local(t, id).emit(OpV::LocalGet(id), cell_of_type()),
        }
    }

    /// Read a symbol.
    #[verifier::opaque]
    pub open spec fn read(self, t: Tables, id: SymbolId) -> (Low, ValueId) {
        if self.is_captured(id) {
            let (a, cell) = self.cell(t, id);
            a.emit(OpV::CellGet(cell), symbol_type_of(t, id))
        } else {
            let a = self.ensure_local(t, id);
            a.emit(OpV::LocalGet(id), a.local_type(id))
        }
    }

    /// Write to an existing symbol.
    #[verifier::opaque]
    pub open spec fn write(self, t: Tables, id: SymbolId, v: ValueId) -> Low {
        if self.is_captured(id) {
            let (a, cell) = self.cell(t, id);
            a.stmt(OpV::CellSet(cell, v))
        } else {
            self.ensure_local(t, id).stmt(OpV::LocalSet(id, v))
        }
    }

    /// Bind a symbol at its declaration. The cell of a captured one is there since the function
    /// was entered.
    #[verifier::opaque]
    pub open spec fn bind(self, t: Tables, id: SymbolId, v: ValueId) -> Low {
        if self.boxed.contains(id) {
            let (a, cell) = self.ensure_local(t, id).emit(OpV::LocalGet(id), cell_of_type());
            a.stmt(OpV::CellSet(cell, v))
        } else {
            self.ensure_local(t, id).stmt(OpV::LocalSet(id, v))
        }
    }
}

/// Give the captured ones of the symbols from `i` on their cells. A function does so once,
/// when it is entered: a declaration that is executed again writes to the same cell.
#[verifier::opaque]
pub open spec fn l_entry_cells(t: Tables, st: Low, i: int) -> Low
    decreases t.res.symbols.len() - i,
{
    if 0 <= i < t.res.symbols.len() && i <= u32::MAX {
        if st.boxed.contains(i as u32) {
            let (st1, nil) = st.emit(OpV::ConstNil, TypeV::Nil);
            let (st2, cell) = st1.emit(OpV::MakeCell(nil), cell_of_type());
            l_entry_cells(
                t,
                st2.ensure_local(t, i as u32).stmt(OpV::LocalSet(i as u32, cell)),
                i + 1,
            )
        } else {
            l_entry_cells(t, st, i + 1)
        }
    } else {
        st
    }
}

/// Produce the cells of the upvalues from `i` on.
#[verifier::opaque]
pub open spec fn l_cells(t: Tables, st: Low, ups: Seq<SymbolId>, i: int, acc: Seq<ValueId>) -> (
    Low,
    Seq<ValueId>,
)
    decreases ups.len() - i,
{
    if 0 <= i < ups.len() {
        let (st1, c) = st.cell(t, ups[i]);
        l_cells(t, st1, ups, i + 1, acc.push(c))
    } else {
        (st, acc)
    }
}

/// The type of a function literal.
pub open spec fn literal_type(t: Tables, span: Span) -> TypeV {
    if t.types.literals.dom().contains(span) {
        TypeV::Function(t.types.literals[span])
    } else {
        TypeV::Error
    }
}

/// The name that a function gives to its literal number `n`.
pub open spec fn lifted_name(name: Seq<char>, n: u32) -> Seq<char> {
    name + "$c"@ + dec(n as nat)
}

/// Queue a literal for lifting.
#[verifier::opaque]
pub open spec fn l_found(st: Low, body: FuncBodyV, ups: Seq<SymbolId>) -> Low {
    Low {
        counter: st.counter.wrapping_add(1),
        found: st.found.push(
            PendingV {
                name: lifted_name(st.name, st.counter),
                body,
                depth: st.depth.wrapping_add(1),
                upvalues: ups,
            },
        ),
        ..st
    }
}

/// Lower a function literal: gather its upvalue cells, queue it for lifting under a fresh
/// name, and build the closure.
#[verifier::opaque]
pub open spec fn l_literal(t: Tables, st: Low, body: FuncBodyV) -> (Low, ValueId) {
    let ups = upvalues_of(t.res, body, st.depth.wrapping_add(1) as nat);
    let (st1, cells) = l_cells(t, st, ups, 0, Seq::empty());
    let name = lifted_name(st1.name, st1.counter);
    l_found(st1, body, ups).emit(OpV::MakeClosure(name, cells), literal_type(t, body.span))
}

/// Declare the parameters from `i` on.
#[verifier::opaque]
pub open spec fn l_params(t: Tables, st: Low, ps: Seq<IdentV>, i: int) -> Step<()>
    decreases ps.len() - i,
{
    if 0 <= i < ps.len() {
        match t.res.def_of(ps[i].span) {
            None => Err(internal("missing symbol id for local"@)),
            Some(id) => if st.boxed.contains(id) {
                // A captured parameter: the incoming value goes to a parameter of its own
                // and is put into the symbol's cell at entry.
                let ty = symbol_type_of(t, id);
                let (st1, raw) = st.fresh_temp(ty);
                let (st2, v) = st1.add_param(raw).ensure_local(t, id).emit(OpV::LocalGet(raw), ty);
                l_params(t, st2.bind(t, id, v), ps, i + 1)
            } else {
                l_params(t, st.ensure_local(t, id).add_param(id), ps, i + 1)
            },
        }
    } else {
        Ok((st, ()))
    }
}

/// The result type of a unary operator.
pub open spec fn unary_type(op: UnOp) -> TypeV {
    match op {
        UnOp::Neg => TypeV::Number,
        UnOp::Not => TypeV::Bool,
        UnOp::Len => TypeV::Number,
    }
}

/// The result type of a binary operator that is not short-circuiting.
pub open spec fn binary_type(op: BinOp) -> TypeV {
    match op {
        BinOp::Add | BinOp::Sub | BinOp::Mul | BinOp::Div | BinOp::FloorDiv | BinOp::Mod
        | BinOp::Pow => TypeV::Number,
        BinOp::Concat => TypeV::String,
        _ => TypeV::Bool,
    }
}

/// The builtin namespace that an expression names.
pub open spec fn l_namespace(t: Tables, e: ExprV) -> Option<Seq<char>> {
    match e.kind {
        ExprKindV::Name(_) => match t.res.binding_of(e.span) {
            Some(BindingV::Builtin(ns)) => Some(ns),
            _ => None,
        },
        _ => None,
    }
}

/// Lower a name in value position.
#[verifier::opaque]
pub open spec fn l_name(t: Tables, st: Low, span: Span) -> Step<ValueId> {
    match t.res.binding_of(span) {
        None => Err(internal("unresolved name"@)),
        Some(BindingV::Local(id)) => Ok(st.read(t, id)),
        Some(BindingV::Upvalue(id)) => Ok(st.read(t, id)),
        Some(BindingV::TopConst(n)) => {
            let ty = match get_of(t.types.constants, n) {
                Some(ty) => ty,
                None => TypeV::Error,
            };
            Ok(st.emit(OpV::ConstRef(n), ty))
        },
        Some(BindingV::Memory(n)) => {
            let ty = match get_of(t.cfg.memory, n) {
                Some(ty) => ty,
                None => TypeV::Error,
            };
            Ok(st.emit(OpV::MemoryRef(n), ty))
        },
        Some(BindingV::Builtin(ns)) => Err(
            internal("builtin namespace `"@ + ns + "` used as a value"@),
        ),
        _ => Err(
            unsupported(
                "using a named top-level or host function as a first-class value is not supported; only anonymous and `local function` closures are first-class"@,
            ),
        ),
    }
}

/// Lower an expression.
#[verifier::opaque]
pub open spec fn l_expr(t: Tables, st: Low, e: ExprV) -> Step<ValueId>
    decreases e, 3int,
{
    match e.kind {
        ExprKindV::Nil => Ok(st.emit(OpV::ConstNil, TypeV::Nil)),
        ExprKindV::Bool(b) => Ok(st.emit(OpV::ConstBool(b), TypeV::Bool)),
        ExprKindV::Number(n) => Ok(st.emit(OpV::ConstNumber(n), TypeV::Number)),
        ExprKindV::Str(s) => Ok(st.emit(OpV::ConstString(s), TypeV::String)),
        ExprKindV::Paren(inner) => l_expr(t, st, *inner),
        ExprKindV::Name(_) => l_name(t, st, e.span),
        ExprKindV::Function(body) => Ok(l_literal(t, st, body)),
        ExprKindV::Field { .. } => l_field(t, st, e),
        ExprKindV::Index { .. } => l_index(t, st, e),
        ExprKindV::Call { .. } => l_call(t, st, e),
        ExprKindV::MethodCall { method, .. } => Err(
            unsupported("method call `:"@ + method.node + "` is not lowered to IR yet"@),
        ),
        ExprKindV::Table(fields) => l_table(t, st, fields),
        ExprKindV::Unary { op, operand } => match l_expr(t, st, *operand) {
            Err(x) => Err(x),
            Ok((st1, v)) => Ok(st1.emit(OpV::Unary(op, v), unary_type(op))),
        },
        ExprKindV::Binary { op, lhs, rhs } => match op {
            BinOp::And => l_short_circuit(t, st, e),
            BinOp::Or => l_short_circuit(t, st, e),
            _ => match l_expr(t, st, *lhs) {
                Err(x) => Err(x),
                Ok((st1, l)) => match l_expr(t, st1, *rhs) {
                    Err(x) => Err(x),
                    Ok((st2, r)) => Ok(st2.emit(OpV::Binary(op, l, r), binary_type(op))),
                },
            },
        },
    }
}

/// Lower the expressions from `i` on, left to right.
#[verifier::opaque]
pub open spec fn l_args(t: Tables, st: Low, es: Seq<ExprV>, i: int, acc: Seq<ValueId>) -> Step<
    Seq<ValueId>,
>
    decreases es, es.len() - i,
{
    if 0 <= i < es.len() {
        match l_expr(t, st, es[i]) {
            Err(x) => Err(x),
            Ok((st1, v)) => l_args(t, st1, es, i + 1, acc.push(v)),
        }
    } else {
        Ok((st, acc))
    }
}

/// The type of an object that is used: an optional one is there where it is used, being narrowed
/// there.
pub open spec fn object_type(t: TypeV) -> TypeV {
    match t {
        TypeV::Optional(i) => *i,
        other => other,
    }
}

/// The type of a field read on a value.
pub open spec fn field_read_type(base: TypeV, name: Seq<char>) -> TypeV {
    match object_type(base) {
        TypeV::Record(fields) => match get_of(fields, name) {
            Some(ty) => ty,
            None => TypeV::Error,
        },
        TypeV::MapOf(v) => TypeV::Optional(v),
        _ => TypeV::Error,
    }
}

/// Lower a field read.
#[verifier::opaque]
pub open spec fn l_field(t: Tables, st: Low, e: ExprV) -> Step<ValueId>
    decreases e, 2int,
{
    match e.kind {
        ExprKindV::Field { base, name } => match l_namespace(t, *base) {
            Some(ns) => {
                let ty = match field_type_of(ns, name.node) {
                    Some(ty) => ty,
                    None => TypeV::Error,
                };
                Ok(st.emit(OpV::NamespaceField(ns, name.node), ty))
            },
            None => match l_expr(t, st, *base) {
                Err(x) => Err(x),
                Ok((st1, b)) => Ok(
                    st1.emit(
                        OpV::FieldGet(b, name.node),
                        field_read_type(st1.type_of(b), name.node),
                    ),
                ),
            },
        },
        _ => Err(internal("not a field read"@)),
    }
}

/// Lower an index read.
#[verifier::opaque]
pub open spec fn l_index(t: Tables, st: Low, e: ExprV) -> Step<ValueId>
    decreases e, 2int,
{
    match e.kind {
        ExprKindV::Index { base, index } => match l_expr(t, st, *base) {
            Err(x) => Err(x),
            Ok((st1, b)) => match l_expr(t, st1, *index) {
                Err(x) => Err(x),
                Ok((st2, idx)) => match object_type(st2.type_of(b)) {
                    TypeV::Array(elem) => Ok(
                        st2.emit(OpV::ArrayGet(b, idx), TypeV::Optional(elem)),
                    ),
                    TypeV::MapOf(v) => Ok(st2.emit(OpV::MapGet(b, idx), TypeV::Optional(v))),
                    TypeV::Record(fields) => match index.kind {
                        ExprKindV::Str(key) => {
                            let ty = match get_of(fields, key) {
                                Some(ty) => ty,
                                None => TypeV::Error,
                            };
                            Ok(st2.emit(OpV::FieldGet(b, key), ty))
                        },
                        _ => Err(internal("record indexed by a non-literal key"@)),
                    },
                    other => Err(internal("indexing a "@ + type_text(other))),
                },
            },
        },
        _ => Err(internal("not an index read"@)),
    }
}

/// The result type of a signature that may be missing.
pub open spec fn sig_ret(s: Option<SigV>) -> TypeV {
    match s {
        Some(s) => s.ret,
        None => TypeV::Error,
    }
}

/// The result type of a function type that may be missing.
pub open spec fn fn_ret(f: Option<FnTypeV>) -> TypeV {
    match f {
        Some(f) => *f.ret,
        None => TypeV::Error,
    }
}

/// What a call calls.
pub ghost enum Callee {
    Value(Seq<char>),
    Member(Seq<char>, Seq<char>),
    Script(Seq<char>),
    Host(Seq<char>),
    Closure,
}

/// What a callee expression stands for: a builtin, a namespace member, a named function, or
/// else a first-class function value.
pub open spec fn callee_of(t: Tables, e: ExprV) -> Callee {
    match e.kind {
        ExprKindV::Name(_) => match t.res.binding_of(e.span) {
            Some(BindingV::Builtin(ns)) => Callee::Value(ns),
            Some(BindingV::TopFunction(n)) => Callee::Script(n),
            Some(BindingV::HostFunction(n)) => Callee::Host(n),
            _ => Callee::Closure,
        },
        ExprKindV::Field { base, name } => match l_namespace(t, *base) {
            Some(ns) => Callee::Member(ns, name.node),
            None => Callee::Closure,
        },
        _ => Callee::Closure,
    }
}

/// The instruction of a call of something with a name, and the type of its result.
pub open spec fn call_op(t: Tables, c: Callee, args: Seq<ValueId>) -> (OpV, TypeV) {
    match c {
        Callee::Value(ns) => (OpV::CallBuiltinValue(ns, args), sig_ret(value_sig_of(ns))),
        Callee::Member(ns, m) => (
            OpV::CallBuiltinMember(ns, m, args),
            sig_ret(member_sig_of(ns, m)),
        ),
        Callee::Script(n) => (OpV::CallScript(n, args), fn_ret(get_of(t.types.functions, n))),
        Callee::Host(n) => (OpV::CallHost(n, args), fn_ret(get_of(t.cfg.host_functions, n))),
        Callee::Closure => (OpV::ConstNil, TypeV::Error),
    }
}

/// Lower a call.
#[verifier::opaque]
pub open spec fn l_call(t: Tables, st: Low, e: ExprV) -> Step<ValueId>
    decreases e, 2int,
{
    match e.kind {
        ExprKindV::Call { callee, args } => {
            let c = callee_of(t, *callee);
            if c is Closure {
                match l_expr(t, st, *callee) {
                    Err(x) => Err(x),
                    Ok((st1, cv)) => {
                        let ret = match object_type(st1.type_of(cv)) {
                            TypeV::Function(ft) => *ft.ret,
                            _ => TypeV::Error,
                        };
                        match l_args(t, st1, args, 0, Seq::empty()) {
                            Err(x) => Err(x),
                            Ok((st2, argv)) => Ok(st2.emit(OpV::CallValue(cv, argv), ret)),
                        }
                    },
                }
            } else {
                match l_args(t, st, args, 0, Seq::empty()) {
                    Err(x) => Err(x),
                    Ok((st1, argv)) => {
                        let (op, ty) = call_op(t, c, argv);
                        Ok(st1.emit(op, ty))
                    },
                }
            }
        },
        _ => Err(internal("not a call"@)),
    }
}

/// Lower the positional fields from `i` on; yields the elements and the type of the last.
#[verifier::opaque]
pub open spec fn l_elements(
    t: Tables,
    st: Low,
    fs: Seq<FieldV>,
    i: int,
    acc: Seq<ValueId>,
    ty: TypeV,
) -> Step<(Seq<ValueId>, TypeV)>
    decreases fs, fs.len() - i,
{
    if 0 <= i < fs.len() {
        match fs[i] {
            FieldV::Positional(e) => match l_expr(t, st, e) {
                Err(x) => Err(x),
                Ok((st1, v)) => l_elements(t, st1, fs, i + 1, acc.push(v), st1.type_of(v)),
            },
            _ => l_elements(t, st, fs, i + 1, acc, ty),
        }
    } else {
        Ok((st, (acc, ty)))
    }
}

/// Lower the named and keyed fields from `i` on; yields the pairs and the record type.
#[verifier::opaque]
pub open spec fn l_pairs(
    t: Tables,
    st: Low,
    fs: Seq<FieldV>,
    i: int,
    acc: Seq<(Seq<char>, ValueId)>,
    rec: Seq<(Seq<char>, TypeV)>,
) -> Step<(Seq<(Seq<char>, ValueId)>, Seq<(Seq<char>, TypeV)>)>
    decreases fs, fs.len() - i,
{
    if 0 <= i < fs.len() {
        match fs[i] {
            FieldV::Named { name, value } => match l_expr(t, st, value) {
                Err(x) => Err(x),
                Ok((st1, v)) => l_pairs(
                    t,
                    st1,
                    fs,
                    i + 1,
                    acc.push((name.node, v)),
                    put_of(rec, name.node, st1.type_of(v)),
                ),
            },
            FieldV::Keyed { key, value } => match key.kind {
                ExprKindV::Str(k) => match l_expr(t, st, value) {
                    Err(x) => Err(x),
                    Ok((st1, v)) => l_pairs(t, st1, fs, i + 1, acc.push((k, v)), rec),
                },
                _ => Err(internal("non-literal map key reached lowering"@)),
            },
            FieldV::Positional(_) => Err(internal("mixed table shape"@)),
        }
    } else {
        Ok((st, (acc, rec)))
    }
}

/// Lower a table constructor: all positional (or empty) is an array, anything else a table.
#[verifier::opaque]
pub open spec fn l_table(t: Tables, st: Low, fs: Seq<FieldV>) -> Step<ValueId>
    decreases fs, fs.len() + 1,
{
    if all_positional(fs) {
        match l_elements(t, st, fs, 0, Seq::empty(), TypeV::Error) {
            Err(x) => Err(x),
            Ok((st1, (elems, ty))) => Ok(
                st1.emit(OpV::MakeArray(elems), TypeV::Array(Box::new(ty))),
            ),
        }
    } else {
        match l_pairs(t, st, fs, 0, Seq::empty(), Seq::empty()) {
            Err(x) => Err(x),
            Ok((st1, (pairs, rec))) => {
                let ty = if rec.len() == pairs.len() {
                    TypeV::Record(rec)
                } else {
                    TypeV::Error
                };
                Ok(st1.emit(OpV::MakeTable(pairs), ty))
            },
        }
    }
}

/// Lower `and` / `or` to a branch and a result temporary.
#[verifier::opaque]
pub open spec fn l_short_circuit(t: Tables, st: Low, e: ExprV) -> Step<ValueId>
    decreases e, 2int,
{
    match e.kind {
        ExprKindV::Binary { op, lhs, rhs } => match l_expr(t, st, *lhs) {
            Err(x) => Err(x),
            Ok((st1, l)) => {
                let ty = st1.type_of(l);
                let (st2, result) = st1.fresh_temp(ty);
                let (st3, cond) = st2.stmt(OpV::LocalSet(result, l)).emit(
                    OpV::Truthy(l),
                    TypeV::Bool,
                );
                let (st4, rhs_b) = st3.new_block();
                let (st5, merge) = st4.new_block();
                // `and` evaluates its right side when the left is truthy, `or` when it is
                // falsy.
                let branch = if op == BinOp::And {
                    Terminator::Branch { cond, then_blk: rhs_b, else_blk: merge }
                } else {
                    Terminator::Branch { cond, then_blk: merge, else_blk: rhs_b }
                };
                match l_expr(t, st5.terminate(branch).switch(rhs_b), *rhs) {
                    Err(x) => Err(x),
                    Ok((st6, r)) => Ok(
                        st6.stmt(OpV::LocalSet(result, r)).terminate(
                            Terminator::Jump(merge),
                        ).switch(merge).emit(OpV::LocalGet(result), ty),
                    ),
                }
            },
        },
        _ => Err(internal("not a short-circuit operator"@)),
    }
}

/// Lower an assignment of a value to a target.
#[verifier::opaque]
pub open spec fn l_assign(t: Tables, st: Low, target: ExprV, v: ValueId) -> Step<()> {
    match target.kind {
        ExprKindV::Name(_) => match t.res.binding_of(target.span) {
            Some(BindingV::Local(id)) => Ok((st.write(t, id, v), ())),
            Some(BindingV::Upvalue(id)) => Ok((st.write(t, id, v), ())),
            _ => Err(internal("assignment target is not a mutable local"@)),
        },
        ExprKindV::Field { base, name } => match l_expr(t, st, *base) {
            Err(x) => Err(x),
            Ok((st1, b)) => Ok((st1.stmt(OpV::FieldSet(b, name.node, v)), ())),
        },
        ExprKindV::Index { base, index } => match l_expr(t, st, *base) {
            Err(x) => Err(x),
            Ok((st1, b)) => match l_expr(t, st1, *index) {
                Err(x) => Err(x),
                Ok((st2, idx)) => match object_type(st2.type_of(b)) {
                    TypeV::Array(_) => Ok((st2.stmt(OpV::ArraySet(b, idx, v)), ())),
                    TypeV::MapOf(_) => Ok((st2.stmt(OpV::MapSet(b, idx, v)), ())),
                    other => Err(
                        internal("index-assign to a non-array/map type "@ + type_text(other)),
                    ),
                },
            },
        },
        _ => Err(internal("invalid assignment target"@)),
    }
}

/// Assign to the targets from `i` on.
#[verifier::opaque]
pub open spec fn l_assigns(t: Tables, st: Low, ts: Seq<ExprV>, vs: Seq<ValueId>, i: int) -> Step<()>
    decreases ts.len() - i,
{
    if 0 <= i < ts.len() {
        if i < vs.len() {
            match l_assign(t, st, ts[i], vs[i]) {
                Err(x) => Err(x),
                Ok((st1, _)) => l_assigns(t, st1, ts, vs, i + 1),
            }
        } else {
            Err(internal("assignment target without a value"@))
        }
    } else {
        Ok((st, ()))
    }
}

/// Bind the declared names from `i` on; a name without a value starts as nil.
#[verifier::opaque]
pub open spec fn l_locals(t: Tables, st: Low, ns: Seq<IdentV>, vs: Seq<ValueId>, i: int) -> Step<()>
    decreases ns.len() - i,
{
    if 0 <= i < ns.len() {
        match t.res.def_of(ns[i].span) {
            None => Err(internal("missing symbol id for local"@)),
            Some(id) => if i < vs.len() {
                l_locals(t, st.bind(t, id, vs[i]), ns, vs, i + 1)
            } else {
                let (st1, nil) = st.emit(OpV::ConstNil, TypeV::Nil);
                l_locals(t, st1.bind(t, id, nil), ns, vs, i + 1)
            },
        }
    } else {
        Ok((st, ()))
    }
}

/// Lower `local function`. The closure can capture its own cell, which is there already.
#[verifier::opaque]
pub open spec fn l_local_function(t: Tables, st: Low, name: IdentV, body: FuncBodyV) -> Step<bool> {
    match t.res.def_of(name.span) {
        None => Err(internal("missing symbol id for local"@)),
        Some(id) => {
            let (st1, clo) = l_literal(t, st, body);
            Ok((st1.bind(t, id, clo), false))
        },
    }
}

/// Lower a block. Yields whether control flow ended in it on every path.
#[verifier::opaque]
pub open spec fn l_block(t: Tables, st: Low, b: AstBlockV) -> Step<bool>
    decreases b, 1int,
{
    match l_stats(t, st, b.stats, 0) {
        Err(x) => Err(x),
        Ok((st1, true)) => Ok((st1, true)),
        Ok((st1, false)) => match b.ret {
            None => Ok((st1, false)),
            Some(r) => if r.exprs.len() > 0 {
                match l_expr(t, st1, r.exprs[0]) {
                    Err(x) => Err(x),
                    Ok((st2, v)) => Ok((st2.terminate(Terminator::Return(Some(v))), true)),
                }
            } else {
                Ok((st1.terminate(Terminator::Return(None)), true))
            },
        },
    }
}

/// Lower the statements from `i` on, up to one that ends control flow.
#[verifier::opaque]
pub open spec fn l_stats(t: Tables, st: Low, ss: Seq<StatV>, i: int) -> Step<bool>
    decreases ss, ss.len() - i,
{
    if 0 <= i < ss.len() {
        match l_stat(t, st, ss[i]) {
            Err(x) => Err(x),
            Ok((st1, true)) => Ok((st1, true)),
            Ok((st1, false)) => l_stats(t, st1, ss, i + 1),
        }
    } else {
        Ok((st, false))
    }
}

/// Lower a loop body inside a loop whose exit is `exit`; it continues at `next`.
#[verifier::opaque]
pub open spec fn l_body(t: Tables, st: Low, b: AstBlockV, exit: BlockId, next: BlockId) -> Step<()>
    decreases b, 2int,
{
    match l_block(t, st.enter_loop(exit), b) {
        Err(x) => Err(x),
        Ok((st1, terminated)) => {
            let st2 = st1.leave_loop();
            if terminated {
                Ok((st2, ()))
            } else {
                Ok((st2.terminate(Terminator::Jump(next)), ()))
            }
        },
    }
}

/// Lower a statement. Yields whether it ended control flow.
#[verifier::opaque]
pub open spec fn l_stat(t: Tables, st: Low, s: StatV) -> Step<bool>
    decreases s, 2int,
{
    match s.kind {
        StatKindV::Empty => Ok((st, false)),
        StatKindV::Break => if st.exits.len() == 0 {
            Err(internal("`break` outside a loop"@))
        } else {
            Ok((st.terminate(Terminator::Jump(st.exits.last())), true))
        },
        StatKindV::Local { names, exprs } => match l_args(t, st, exprs, 0, Seq::empty()) {
            Err(x) => Err(x),
            Ok((st1, vals)) => match l_locals(t, st1, names, vals, 0) {
                Err(x) => Err(x),
                Ok((st2, _)) => Ok((st2, false)),
            },
        },
        StatKindV::LocalFunction { name, body } => l_local_function(t, st, name, body),
        StatKindV::Assign { targets, exprs } => match l_args(t, st, exprs, 0, Seq::empty()) {
            Err(x) => Err(x),
            Ok((st1, vals)) => match l_assigns(t, st1, targets, vals, 0) {
                Err(x) => Err(x),
                Ok((st2, _)) => Ok((st2, false)),
            },
        },
        StatKindV::Call(e) => match l_expr(t, st, e) {
            Err(x) => Err(x),
            Ok((st1, _)) => Ok((st1, false)),
        },
        StatKindV::Do(b) => l_block(t, st, b),
        StatKindV::While { .. } => l_while(t, st, s),
        StatKindV::If { .. } => l_if(t, st, s),
        StatKindV::NumericFor { .. } => l_numeric_for(t, st, s),
        StatKindV::GenericFor { .. } => l_generic_for(t, st, s),
    }
}

/// Lower `while`.
#[verifier::opaque]
pub open spec fn l_while(t: Tables, st: Low, s: StatV) -> Step<bool>
    decreases s, 1int,
{
    match s.kind {
        StatKindV::While { cond, body } => {
            let (st1, header) = st.new_block();
            let (st2, body_b) = st1.new_block();
            let (st3, exit) = st2.new_block();
            match l_expr(t, st3.terminate(Terminator::Jump(header)).switch(header), cond) {
                Err(x) => Err(x),
                Ok((st4, c)) => {
                    let st5 = st4.terminate(
                        Terminator::Branch { cond: c, then_blk: body_b, else_blk: exit },
                    ).switch(body_b);
                    match l_body(t, st5, body, exit, header) {
                        Err(x) => Err(x),
                        Ok((st6, _)) => Ok((st6.switch(exit), false)),
                    }
                },
            }
        },
        _ => Err(internal("not a while loop"@)),
    }
}

/// Lower an arm of a conditional; yields the block that falls through, if any.
#[verifier::opaque]
pub open spec fn l_arm(t: Tables, st: Low, arm: (ExprV, AstBlockV)) -> Step<Option<BlockId>>
    decreases arm, 0int,
{
    match l_expr(t, st, arm.0) {
        Err(x) => Err(x),
        Ok((st1, c)) => {
            let (st2, body_b) = st1.new_block();
            let (st3, next_b) = st2.new_block();
            let st4 = st3.terminate(
                Terminator::Branch { cond: c, then_blk: body_b, else_blk: next_b },
            ).switch(body_b);
            match l_block(t, st4, arm.1) {
                Err(x) => Err(x),
                Ok((st5, terminated)) => Ok(
                    (
                        st5.switch(next_b),
                        if terminated {
                            None
                        } else {
                            Some(st5.current as u32)
                        },
                    ),
                ),
            }
        },
    }
}

/// Lower the arms from `i` on; collects the blocks that fall through.
#[verifier::opaque]
pub open spec fn l_arms(
    t: Tables,
    st: Low,
    arms: Seq<(ExprV, AstBlockV)>,
    i: int,
    acc: Seq<BlockId>,
) -> Step<Seq<BlockId>>
    decreases arms, arms.len() - i,
{
    if 0 <= i < arms.len() {
        match l_arm(t, st, arms[i]) {
            Err(x) => Err(x),
            Ok((st1, None)) => l_arms(t, st1, arms, i + 1, acc),
            Ok((st1, Some(b))) => l_arms(t, st1, arms, i + 1, acc.push(b)),
        }
    } else {
        Ok((st, acc))
    }
}

/// End the blocks from `i` on with a jump.
#[verifier::opaque]
pub open spec fn l_join(st: Low, bs: Seq<BlockId>, to: BlockId, i: int) -> Low
    decreases bs.len() - i,
{
    if 0 <= i < bs.len() {
        l_join(st.set_term(bs[i] as int, Terminator::Jump(to)), bs, to, i + 1)
    } else {
        st
    }
}

/// Join the blocks that fall through out of a conditional; if there are none, control flow
/// ended.
#[verifier::opaque]
pub open spec fn l_merge(st: Low, bs: Seq<BlockId>) -> (Low, bool) {
    if bs.len() == 0 {
        (st, true)
    } else {
        let (st1, merge) = st.new_block();
        (l_join(st1, bs, merge, 0).switch(merge), false)
    }
}

/// Lower `if`.
#[verifier::opaque]
pub open spec fn l_if(t: Tables, st: Low, s: StatV) -> Step<bool>
    decreases s, 1int,
{
    match s.kind {
        StatKindV::If { arms, else_block } => match l_arms(t, st, arms, 0, Seq::empty()) {
            Err(x) => Err(x),
            Ok((st1, falls)) => match else_block {
                None => Ok(l_merge(st1, falls.push(st1.current as u32))),
                Some(eb) => match l_block(t, st1, eb) {
                    Err(x) => Err(x),
                    Ok((st2, true)) => Ok(l_merge(st2, falls)),
                    Ok((st2, false)) => Ok(l_merge(st2, falls.push(st2.current as u32))),
                },
            },
        },
        _ => Err(internal("not a conditional"@)),
    }
}

/// The numeral of a counter or bound.
pub open spec fn numeral(text: Seq<char>) -> OpV {
    OpV::ConstNumber(NumeralV::Decimal(text))
}

/// Whether a number is one that compares: it is equal to itself.
#[verifier::opaque]
pub open spec fn l_ordered(st: Low, x: LocalId, yes: BlockId, no: BlockId) -> Low {
    let (a, l) = st.emit(OpV::LocalGet(x), TypeV::Number);
    let (b, r) = a.emit(OpV::LocalGet(x), TypeV::Number);
    let (c, cond) = b.emit(OpV::Binary(BinOp::Eq, l, r), TypeV::Bool);
    c.terminate(Terminator::Branch { cond, then_blk: yes, else_blk: no })
}

/// Compare the counter with the bound, and leave or enter the body.
#[verifier::opaque]
pub open spec fn l_bound_check(
    st: Low,
    counter: LocalId,
    end: LocalId,
    op: BinOp,
    body_b: BlockId,
    exit: BlockId,
) -> Low {
    let (a, i) = st.emit(OpV::LocalGet(counter), TypeV::Number);
    let (b, e) = a.emit(OpV::LocalGet(end), TypeV::Number);
    let (c, cond) = b.emit(OpV::Binary(op, i, e), TypeV::Bool);
    c.terminate(Terminator::Branch { cond, then_blk: body_b, else_blk: exit })
}

/// Branch on the sign of the step.
#[verifier::opaque]
pub open spec fn l_step_sign(st: Low, step: LocalId, pos: BlockId, neg: BlockId) -> Low {
    let (a, s) = st.emit(OpV::LocalGet(step), TypeV::Number);
    let (b, zero) = a.emit(numeral("0"@), TypeV::Number);
    let (c, cond) = b.emit(OpV::Binary(BinOp::Ge, s, zero), TypeV::Bool);
    c.terminate(Terminator::Branch { cond, then_blk: pos, else_blk: neg })
}

/// Advance the counter by the step and go back to the header.
#[verifier::opaque]
pub open spec fn l_advance(st: Low, counter: LocalId, step: LocalId, header: BlockId) -> Low {
    let (a, i) = st.emit(OpV::LocalGet(counter), TypeV::Number);
    let (b, s) = a.emit(OpV::LocalGet(step), TypeV::Number);
    let (c, next) = b.emit(OpV::Binary(BinOp::Add, i, s), TypeV::Number);
    c.stmt(OpV::LocalSet(counter, next)).terminate(Terminator::Jump(header))
}

/// The blocks of a counting loop.
pub ghost struct LoopBlocks {
    /// Whether the counter compares.
    pub header: BlockId,
    /// Whether the bound compares.
    pub bound: BlockId,
    /// Whether the step compares.
    pub step: BlockId,
    /// Which way the loop counts.
    pub sign: BlockId,
    pub pos: BlockId,
    pub neg: BlockId,
    pub body: BlockId,
    pub latch: BlockId,
    pub exit: BlockId,
}

/// The blocks of a counting loop, and a jump to the first.
#[verifier::opaque]
pub open spec fn l_loop_blocks(st: Low) -> (Low, LoopBlocks) {
    let (st1, header) = st.new_block();
    let (st2, bound) = st1.new_block();
    let (st3, step) = st2.new_block();
    let (st4, sign) = st3.new_block();
    let (st5, pos) = st4.new_block();
    let (st6, neg) = st5.new_block();
    let (st7, body) = st6.new_block();
    let (st8, latch) = st7.new_block();
    let (st9, exit) = st8.new_block();
    (
        st9.terminate(Terminator::Jump(header)).switch(header),
        LoopBlocks { header, bound, step, sign, pos, neg, body, latch, exit },
    )
}

/// The test of a counting loop: it goes on in the body or at the exit. What does not compare
/// ends the loop, or, as a step, counts as negative.
#[verifier::opaque]
pub open spec fn l_loop_test(
    st: Low,
    counter: LocalId,
    end: LocalId,
    step: LocalId,
    x: LoopBlocks,
) -> Low {
    let a = l_ordered(st, counter, x.bound, x.exit).switch(x.bound);
    let b = l_ordered(a, end, x.step, x.exit).switch(x.step);
    let c = l_ordered(b, step, x.sign, x.neg).switch(x.sign);
    let d = l_step_sign(c, step, x.pos, x.neg).switch(x.pos);
    let e = l_bound_check(d, counter, end, BinOp::Le, x.body, x.exit).switch(x.neg);
    l_bound_check(e, counter, end, BinOp::Ge, x.body, x.exit).switch(x.body)
}

/// Give the loop variable the value of the counter.
#[verifier::opaque]
pub open spec fn l_loop_var(t: Tables, st: Low, id: SymbolId, counter: LocalId) -> Low {
    let (a, v) = st.emit(OpV::LocalGet(counter), TypeV::Number);
    a.bind(t, id, v)
}

/// Evaluate the step of a numeric `for`, 1 by default.
#[verifier::opaque]
pub open spec fn l_step(t: Tables, st: Low, step: Option<ExprV>) -> Step<ValueId> {
    match step {
        Some(e) => l_expr(t, st, e),
        None => Ok(st.emit(numeral("1"@), TypeV::Number)),
    }
}

/// Evaluate start, bound and step of a numeric `for`; the bound and the step go to
/// temporaries.
#[verifier::opaque]
pub open spec fn l_range(t: Tables, st: Low, start: ExprV, end: ExprV, step: Option<ExprV>) -> Step<
    (ValueId, LocalId, LocalId),
> {
    match l_expr(t, st, start) {
        Err(x) => Err(x),
        Ok((st1, start_v)) => {
            let (st2, end_l) = st1.fresh_temp(TypeV::Number);
            match l_expr(t, st2, end) {
                Err(x) => Err(x),
                Ok((st3, end_v)) => {
                    let (st4, step_l) = st3.stmt(OpV::LocalSet(end_l, end_v)).fresh_temp(
                        TypeV::Number,
                    );
                    match l_step(t, st4, step) {
                        Err(x) => Err(x),
                        Ok((st5, step_v)) => Ok(
                            (
                                st5.stmt(OpV::LocalSet(step_l, step_v)),
                                (start_v, end_l, step_l),
                            ),
                        ),
                    }
                },
            }
        },
    }
}

/// Lower a numeric `for`: a counter of its own, the test, the body, for which the variable takes
/// the value of the counter, and a latch that advances the counter.
#[verifier::opaque]
pub open spec fn l_numeric_for(t: Tables, st: Low, s: StatV) -> Step<bool>
    decreases s, 1int,
{
    match s.kind {
        StatKindV::NumericFor { var, start, end, step, body } => match t.res.def_of(var.span) {
            None => Err(internal("missing symbol id for local"@)),
            Some(id) => match l_range(t, st.ensure_local(t, id), start, end, step) {
                Err(x) => Err(x),
                Ok((st1, (start_v, end_l, step_l))) => {
                    let (st2, counter) = st1.fresh_temp(TypeV::Number);
                    let (st3, x) = l_loop_blocks(st2.stmt(OpV::LocalSet(counter, start_v)));
                    let st4 = l_loop_var(
                        t,
                        l_loop_test(st3, counter, end_l, step_l, x),
                        id,
                        counter,
                    );
                    match l_body(t, st4, body, x.exit, x.latch) {
                        Err(x) => Err(x),
                        Ok((st5, _)) => Ok(
                            (
                                l_advance(st5.switch(x.latch), counter, step_l, x.header).switch(
                                    x.exit,
                                ),
                                false,
                            ),
                        ),
                    }
                },
            },
        },
        _ => Err(internal("not a numeric for"@)),
    }
}

/// The temporaries of a generic `for`.
pub ghost struct Walk {
    pub is_pairs: bool,
    /// Type of the values that are walked.
    pub val_ty: TypeV,
    /// Type of the array that is indexed: the array itself, or the map's keys.
    pub seq_ty: TypeV,
    pub seq: LocalId,
    /// How many rounds there are: the length when the loop began.
    pub len: LocalId,
    /// The map, for `pairs`.
    pub map: LocalId,
    pub map_ty: TypeV,
    /// The values of the map when the loop began, for `pairs`.
    pub vals: LocalId,
    pub idx: LocalId,
}

/// The type of the values that are walked.
pub open spec fn walked_type(ty: TypeV) -> Option<TypeV> {
    match object_type(ty) {
        TypeV::Array(e) => Some(*e),
        TypeV::MapOf(v) => Some(*v),
        _ => None,
    }
}

/// Set the counter of a generic `for` to 1.
#[verifier::opaque]
pub open spec fn l_first(st: Low, idx: LocalId) -> Low {
    let (a, one) = st.emit(numeral("1"@), TypeV::Number);
    a.stmt(OpV::LocalSet(idx, one))
}

/// Keep what a generic `for` walks: the array, or the map and the snapshot of its keys.
#[verifier::opaque]
pub open spec fn l_walked(st: Low, v: ValueId, ty: TypeV, val_ty: TypeV, is_pairs: bool) -> (
    Low,
    LocalId,
    LocalId,
    LocalId,
) {
    let keys_ty = TypeV::Array(Box::new(TypeV::String));
    if is_pairs {
        let (st2, seq) = st.fresh_temp(keys_ty);
        let (st3, keys) = st2.emit(OpV::MapKeys(v), keys_ty);
        let (st4, map) = st3.stmt(OpV::LocalSet(seq, keys)).fresh_temp(ty);
        let vals_ty = TypeV::Array(Box::new(val_ty));
        let (st5, vals) = st4.stmt(OpV::LocalSet(map, v)).fresh_temp(vals_ty);
        let (st6, empty) = st5.emit(OpV::MakeArray(Seq::empty()), vals_ty);
        (st6.stmt(OpV::LocalSet(vals, empty)), seq, map, vals)
    } else {
        let (st2, seq) = st.fresh_temp(ty);
        (st2.stmt(OpV::LocalSet(seq, v)), seq, seq, seq)
    }
}

/// Evaluate what a generic `for` walks and set up the length and the counter.
#[verifier::opaque]
pub open spec fn l_walk(t: Tables, st: Low, iter: IterExprV) -> Step<Walk> {
    let (arg, is_pairs) = match iter {
        IterExprV::IPairs { arg, .. } => (arg, false),
        IterExprV::Pairs { arg, .. } => (arg, true),
    };
    match l_expr(t, st, arg) {
        Err(x) => Err(x),
        Ok((st1, arg_v)) => {
            let ty = st1.type_of(arg_v);
            match walked_type(ty) {
                None => Err(internal("generic for over a non-iterable type "@ + type_text(ty))),
                Some(val_ty) => {
                    let seq_ty = if is_pairs {
                        TypeV::Array(Box::new(TypeV::String))
                    } else {
                        ty
                    };
                    let (st2, seq, map, vals) = l_walked(st1, arg_v, ty, val_ty, is_pairs);
                    let (st3, s) = st2.emit(OpV::LocalGet(seq), seq_ty);
                    let (st4, n) = st3.emit(OpV::Unary(UnOp::Len, s), TypeV::Number);
                    let (st5, len) = st4.fresh_temp(TypeV::Number);
                    let (st6, idx) = st5.stmt(OpV::LocalSet(len, n)).fresh_temp(TypeV::Number);
                    Ok(
                        (
                            l_first(st6, idx),
                            Walk {
                                is_pairs,
                                val_ty,
                                seq_ty,
                                seq,
                                len,
                                map,
                                map_ty: ty,
                                vals,
                                idx,
                            },
                        ),
                    )
                },
            }
        },
    }
}

/// Compare the counter with the length, and leave or enter the body.
#[verifier::opaque]
pub open spec fn l_in_range(st: Low, w: Walk, body_b: BlockId, exit: BlockId) -> Low {
    let (a, idx) = st.emit(OpV::LocalGet(w.idx), TypeV::Number);
    let (b, len) = a.emit(OpV::LocalGet(w.len), TypeV::Number);
    let (c, cond) = b.emit(OpV::Binary(BinOp::Le, idx, len), TypeV::Bool);
    c.terminate(Terminator::Branch { cond, then_blk: body_b, else_blk: exit })
}

/// The element of the walked array at the counter.
#[verifier::opaque]
pub open spec fn l_item(st: Low, w: Walk) -> (Low, ValueId) {
    let (a, idx) = st.emit(OpV::LocalGet(w.idx), TypeV::Number);
    let (b, seq) = a.emit(OpV::LocalGet(w.seq), w.seq_ty);
    let elem_ty = if w.is_pairs {
        TypeV::String
    } else {
        w.val_ty
    };
    b.emit(OpV::ArrayGet(seq, idx), elem_ty)
}

/// Keep the value of the key at the counter.
#[verifier::opaque]
pub open spec fn l_keep(st: Low, w: Walk) -> Low {
    let (a, key) = l_item(st, w);
    let (b, map) = a.emit(OpV::LocalGet(w.map), w.map_ty);
    let (c, v) = b.emit(OpV::MapGet(map, key), w.val_ty);
    let (d, vals) = c.emit(OpV::LocalGet(w.vals), TypeV::Array(Box::new(w.val_ty)));
    let (e, idx) = d.emit(OpV::LocalGet(w.idx), TypeV::Number);
    e.stmt(OpV::ArraySet(vals, idx, v))
}

/// Take the values of the map before the loop begins: a loop over all keys.
#[verifier::opaque]
pub open spec fn l_snapshot(st: Low, w: Walk) -> Low {
    let (st1, header) = st.new_block();
    let (st2, body_b) = st1.new_block();
    let (st3, exit) = st2.new_block();
    let st4 = st3.terminate(Terminator::Jump(header)).switch(header);
    let st5 = l_in_range(st4, w, body_b, exit).switch(body_b);
    l_first(l_count(l_keep(st5, w), w, header).switch(exit), w.idx)
}

/// Bind the key variable of a generic `for`.
#[verifier::opaque]
pub open spec fn l_walk_key(t: Tables, st: Low, w: Walk, ns: Seq<IdentV>, elem: ValueId) -> Step<()> {
    if ns.len() == 0 {
        Ok((st, ()))
    } else {
        match t.res.def_of(ns[0].span) {
            None => Err(internal("missing symbol id for local"@)),
            Some(id) => {
                let st1 = st.ensure_local(t, id);
                if w.is_pairs {
                    Ok((st1.write(t, id, elem), ()))
                } else {
                    let (st2, idx) = st1.emit(OpV::LocalGet(w.idx), TypeV::Number);
                    Ok((st2.write(t, id, idx), ()))
                }
            },
        }
    }
}

/// Bind the value variable of a generic `for`.
#[verifier::opaque]
pub open spec fn l_walk_value(t: Tables, st: Low, w: Walk, ns: Seq<IdentV>, elem: ValueId) -> Step<()> {
    if ns.len() <= 1 {
        Ok((st, ()))
    } else {
        match t.res.def_of(ns[1].span) {
            None => Err(internal("missing symbol id for local"@)),
            Some(id) => {
                let st1 = st.ensure_local(t, id);
                if w.is_pairs {
                    let (st2, vals) = st1.emit(
                        OpV::LocalGet(w.vals),
                        TypeV::Array(Box::new(w.val_ty)),
                    );
                    let (st3, idx) = st2.emit(OpV::LocalGet(w.idx), TypeV::Number);
                    let (st4, v) = st3.emit(OpV::ArrayGet(vals, idx), w.val_ty);
                    Ok((st4.write(t, id, v), ()))
                } else {
                    Ok((st1.write(t, id, elem), ()))
                }
            },
        }
    }
}

/// Fetch the current element and bind the loop variables.
#[verifier::opaque]
pub open spec fn l_walk_bind(t: Tables, st: Low, w: Walk, ns: Seq<IdentV>) -> Step<()> {
    let (c, elem) = l_item(st, w);
    match l_walk_key(t, c, w, ns, elem) {
        Err(x) => Err(x),
        Ok((d, _)) => l_walk_value(t, d, w, ns, elem),
    }
}

/// Advance the counter and go back to the header.
#[verifier::opaque]
pub open spec fn l_count(st: Low, w: Walk, header: BlockId) -> Low {
    let (a, idx) = st.emit(OpV::LocalGet(w.idx), TypeV::Number);
    let (b, one) = a.emit(numeral("1"@), TypeV::Number);
    let (c, next) = b.emit(OpV::Binary(BinOp::Add, idx, one), TypeV::Number);
    c.stmt(OpV::LocalSet(w.idx, next)).terminate(Terminator::Jump(header))
}

/// Lower a generic `for` to a counted loop over an array: `ipairs` over as many elements of the
/// array as there are when it begins, `pairs` over a snapshot of the map's entries.
#[verifier::opaque]
pub open spec fn l_generic_for(t: Tables, st: Low, s: StatV) -> Step<bool>
    decreases s, 1int,
{
    match s.kind {
        StatKindV::GenericFor { names, iter, body } => match l_walk(t, st, iter) {
            Err(x) => Err(x),
            Ok((st1, w)) => {
                let st2 = if w.is_pairs {
                    l_snapshot(st1, w)
                } else {
                    st1
                };
                let (st3, header) = st2.new_block();
                let (st4, body_b) = st3.new_block();
                let (st5, latch) = st4.new_block();
                let (st6, exit) = st5.new_block();
                let st7 = st6.terminate(Terminator::Jump(header)).switch(header);
                let st8 = l_in_range(st7, w, body_b, exit).switch(body_b);
                match l_walk_bind(t, st8, w, names) {
                    Err(x) => Err(x),
                    Ok((st9, _)) => match l_body(t, st9, body, exit, latch) {
                        Err(x) => Err(x),
                        Ok((st10, _)) => Ok(
                            (l_count(st10.switch(latch), w, header).switch(exit), false),
                        ),
                    },
                }
            },
        },
        _ => Err(internal("not a generic for"@)),
    }
}

/// Lower a function body after its parameters; yields the function and the literals found.
#[verifier::opaque]
pub open spec fn l_whole(t: Tables, st: Low, body: FuncBodyV) -> Result<
    (FunctionV, Seq<PendingV>),
    LowerErrorV,
> {
    match l_params(t, l_entry_cells(t, st, 0), body.params, 0) {
        Err(x) => Err(x),
        Ok((st1, _)) => match l_block(t, st1, body.block) {
            Err(x) => Err(x),
            Ok((st2, terminated)) => {
                let st3 = if terminated {
                    st2
                } else {
                    st2.terminate(Terminator::Return(None))
                };
                Ok((st3.finish(), st3.found))
            },
        },
    }
}

/// Lower a top-level function.
#[verifier::opaque]
pub open spec fn l_function(t: Tables, name: Seq<char>, body: FuncBodyV) -> Result<
    (FunctionV, Seq<PendingV>),
    LowerErrorV,
> {
    let ret = match get_of(t.types.functions, name) {
        Some(ft) => *ft.ret,
        None => TypeV::Unit,
    };
    l_whole(t, Low::start(t, name, ret).set_boxed(boxed_of(t.res, body, 0)), body)
}

/// Lower a lifted closure: the closure value is its hidden first parameter.
#[verifier::opaque]
pub open spec fn l_closure(t: Tables, p: PendingV) -> Result<
    (FunctionV, Seq<PendingV>),
    LowerErrorV,
> {
    let ret = if t.types.literals.dom().contains(p.body.span) {
        *t.types.literals[p.body.span].ret
    } else {
        TypeV::Unit
    };
    let st = Low { depth: p.depth, ..Low::start(t, p.name, ret) };
    let (st1, env) = st.set_boxed(boxed_of(t.res, p.body, p.depth as nat)).fresh_temp(
        cell_of_type(),
    );
    let st2 = Low { upvalues: p.upvalues, env_local: Some(env), ..st1 };
    l_whole(t, st2.add_param(env), p.body)
}

/// Lower a constant to a function without parameters.
#[verifier::opaque]
pub open spec fn l_const(t: Tables, name: Seq<char>, value: ExprV) -> Result<FunctionV, LowerErrorV> {
    let ret = match get_of(t.types.constants, name) {
        Some(ty) => ty,
        None => TypeV::Error,
    };
    match l_expr(t, Low::start(t, "const::"@ + name, ret), value) {
        Err(x) => Err(x),
        Ok((st, v)) => Ok(st.terminate(Terminator::Return(Some(v))).finish()),
    }
}

/// The functions lowered so far, by name.
pub type Named = Seq<(Seq<char>, FunctionV)>;

/// Lift a literal, and then the literals found in it, the last first.
#[verifier::opaque]
pub open spec fn l_pending(t: Tables, p: PendingV, fns: Named) -> Result<Named, LowerErrorV>
    decreases p.body, 1int, 0int,
{
    match l_closure(t, p) {
        Err(x) => Err(x),
        Ok((f, found)) => l_inner(t, p.body, found, found.len() as int, put_of(fns, p.name, f)),
    }
}

/// Lift the first `n` of the literals found inside `outer`, the last first.
#[verifier::opaque]
pub open spec fn l_inner(t: Tables, outer: FuncBodyV, list: Seq<PendingV>, n: int, fns: Named) -> Result<
    Named,
    LowerErrorV,
>
    decreases outer, 0int, n,
{
    if 0 < n <= list.len() && decreases_to!(outer => list[n - 1].body) {
        match l_pending(t, list[n - 1], fns) {
            Err(x) => Err(x),
            Ok(fns1) => l_inner(t, outer, list, n - 1, fns1),
        }
    } else {
        Ok(fns)
    }
}

/// Lift the first `n` of the literals found at top level, the last first.
#[verifier::opaque]
pub open spec fn l_queue(t: Tables, list: Seq<PendingV>, n: int, fns: Named) -> Result<
    Named,
    LowerErrorV,
>
    decreases n,
{
    if 0 < n <= list.len() {
        match l_pending(t, list[n - 1], fns) {
            Err(x) => Err(x),
            Ok(fns1) => l_queue(t, list, n - 1, fns1),
        }
    } else {
        Ok(fns)
    }
}

/// What the declarations lower to.
pub ghost struct Lowered {
    pub functions: Named,
    pub constants: Named,
    pub found: Seq<PendingV>,
}

/// Lower the declarations from `i` on.
#[verifier::opaque]
pub open spec fn l_decls(t: Tables, ds: Seq<TopDeclV>, i: int, acc: Lowered) -> Result<
    Lowered,
    LowerErrorV,
>
    decreases ds.len() - i,
{
    if 0 <= i < ds.len() {
        match ds[i] {
            TopDeclV::Function(f) => match l_function(t, f.name.node, f.body) {
                Err(x) => Err(x),
                Ok((lowered, found)) => l_decls(
                    t,
                    ds,
                    i + 1,
                    Lowered {
                        functions: put_of(acc.functions, f.name.node, lowered),
                        found: acc.found + found,
                        ..acc
                    },
                ),
            },
            TopDeclV::Const(c) => match l_const(t, c.name.node, c.value) {
                Err(x) => Err(x),
                Ok(lowered) => l_decls(
                    t,
                    ds,
                    i + 1,
                    Lowered { constants: put_of(acc.constants, c.name.node, lowered), ..acc },
                ),
            },
        }
    } else {
        Ok(acc)
    }
}

/// The exports of the fields from `i` on.
#[verifier::opaque]
pub open spec fn l_exports(
    res: ResolutionV,
    fs: Seq<FieldV>,
    i: int,
    acc: Seq<(Seq<char>, ExportTargetV)>,
) -> Result<Seq<(Seq<char>, ExportTargetV)>, LowerErrorV>
    decreases fs.len() - i,
{
    if 0 <= i < fs.len() {
        match fs[i] {
            FieldV::Named { name, value } => match value.kind {
                ExprKindV::Name(_) => match res.binding_of(value.span) {
                    Some(BindingV::TopFunction(n)) => l_exports(
                        res,
                        fs,
                        i + 1,
                        put_of(acc, name.node, ExportTargetV::Function(n)),
                    ),
                    Some(BindingV::TopConst(n)) => l_exports(
                        res,
                        fs,
                        i + 1,
                        put_of(acc, name.node, ExportTargetV::Const(n)),
                    ),
                    _ => Err(
                        unsupported(
                            "module exports must reference a top-level function or constant"@,
                        ),
                    ),
                },
                _ => Err(
                    unsupported(
                        "module exports must be bare references to top-level functions or constants"@,
                    ),
                ),
            },
            _ => Err(internal("export field is not `name = value`"@)),
        }
    } else {
        Ok(acc)
    }
}

/// The exports of a module without an export table: every declaration from `i` on.
#[verifier::opaque]
pub open spec fn l_open_exports(
    ds: Seq<TopDeclV>,
    i: int,
    acc: Seq<(Seq<char>, ExportTargetV)>,
) -> Seq<(Seq<char>, ExportTargetV)>
    decreases ds.len() - i,
{
    if 0 <= i < ds.len() {
        match ds[i] {
            TopDeclV::Function(f) => l_open_exports(
                ds,
                i + 1,
                put_of(acc, f.name.node, ExportTargetV::Function(f.name.node)),
            ),
            TopDeclV::Const(c) => l_open_exports(
                ds,
                i + 1,
                put_of(acc, c.name.node, ExportTargetV::Const(c.name.node)),
            ),
        }
    } else {
        acc
    }
}

/// The exports of a module.
pub open spec fn exports_of(m: ModuleV, res: ResolutionV) -> Result<
    Seq<(Seq<char>, ExportTargetV)>,
    LowerErrorV,
> {
    match m.export {
        Some(e) => l_exports(res, e.node, 0, Seq::empty()),
        None => Ok(l_open_exports(m.decls, 0, Seq::empty())),
    }
}

/// The program of a checked module.
pub open spec fn lower_of(m: ModuleV, res: ResolutionV, types: TypeInfoV, cfg: TypeConfigV) -> Result<
    ProgramV,
    LowerErrorV,
> {
    let t = Tables { res, types, cfg };
    let start = Lowered { functions: Seq::empty(), constants: Seq::empty(), found: Seq::empty() };
    match l_decls(t, m.decls, 0, start) {
        Err(x) => Err(x),
        Ok(d) => match l_queue(t, d.found, d.found.len() as int, d.functions) {
            Err(x) => Err(x),
            Ok(functions) => match exports_of(m, res) {
                Err(x) => Err(x),
                Ok(exports) => Ok(ProgramV { functions, constants: d.constants, exports }),
            },
        },
    }
}

pub proof fn unfold_l_cells(t: Tables, st: Low, ups: Seq<SymbolId>, i: int, acc: Seq<ValueId>)
    ensures
        l_cells(t, st, ups, i, acc) == ({
            if 0 <= i < ups.len() {
                let (st1, c) = st.cell(t, ups[i]);
                l_cells(t, st1, ups, i + 1, acc.push(c))
            } else {
                (st, acc)
            }
        }),
{
    reveal(l_cells);
}

pub proof fn unfold_l_params(t: Tables, st: Low, ps: Seq<IdentV>, i: int)
    ensures
        l_params(t, st, ps, i) == ({
            if 0 <= i < ps.len() {
                match t.res.def_of(ps[i].span) {
                    None => Err(internal("missing symbol id for local"@)),
                    Some(id) => if st.boxed.contains(id) {
                        // A captured parameter: the incoming value goes to a parameter of its own
                        // and is put into the symbol's cell at entry.
                        let ty = symbol_type_of(t, id);
                        let (st1, raw) = st.fresh_temp(ty);
                        let (st2, v) = st1.add_param(raw).ensure_local(t, id).emit(OpV::LocalGet(raw), ty);
                        l_params(t, st2.bind(t, id, v), ps, i + 1)
                    } else {
                        l_params(t, st.ensure_local(t, id).add_param(id), ps, i + 1)
                    },
                }
            } else {
                Ok((st, ()))
            }
        }),
{
    reveal(l_params);
}

pub proof fn unfold_l_expr(t: Tables, st: Low, e: ExprV)
    ensures
        l_expr(t, st, e) == ({
            match e.kind {
                ExprKindV::Nil => Ok(st.emit(OpV::ConstNil, TypeV::Nil)),
                ExprKindV::Bool(b) => Ok(st.emit(OpV::ConstBool(b), TypeV::Bool)),
                ExprKindV::Number(n) => Ok(st.emit(OpV::ConstNumber(n), TypeV::Number)),
                ExprKindV::Str(s) => Ok(st.emit(OpV::ConstString(s), TypeV::String)),
                ExprKindV::Paren(inner) => l_expr(t, st, *inner),
                ExprKindV::Name(_) => l_name(t, st, e.span),
                ExprKindV::Function(body) => Ok(l_literal(t, st, body)),
                ExprKindV::Field { .. } => l_field(t, st, e),
                ExprKindV::Index { .. } => l_index(t, st, e),
                ExprKindV::Call { .. } => l_call(t, st, e),
                ExprKindV::MethodCall { method, .. } => Err(
                    unsupported("method call `:"@ + method.node + "` is not lowered to IR yet"@),
                ),
                ExprKindV::Table(fields) => l_table(t, st, fields),
                ExprKindV::Unary { op, operand } => match l_expr(t, st, *operand) {
                    Err(x) => Err(x),
                    Ok((st1, v)) => Ok(st1.emit(OpV::Unary(op, v), unary_type(op))),
                },
                ExprKindV::Binary { op, lhs, rhs } => match op {
                    BinOp::And => l_short_circuit(t, st, e),
                    BinOp::Or => l_short_circuit(t, st, e),
                    _ => match l_expr(t, st, *lhs) {
                        Err(x) => Err(x),
                        Ok((st1, l)) => match l_expr(t, st1, *rhs) {
                            Err(x) => Err(x),
                            Ok((st2, r)) => Ok(st2.emit(OpV::Binary(op, l, r), binary_type(op))),
                        },
                    },
                },
            }
        }),
{
    reveal(l_expr);
    reveal(l_field);
    reveal(l_index);
    reveal(l_call);
    reveal(l_table);
    reveal(l_short_circuit);
}

pub proof fn unfold_l_args(t: Tables, st: Low, es: Seq<ExprV>, i: int, acc: Seq<ValueId>)
    ensures
        l_args(t, st, es, i, acc) == ({
            if 0 <= i < es.len() {
                match l_expr(t, st, es[i]) {
                    Err(x) => Err(x),
                    Ok((st1, v)) => l_args(t, st1, es, i + 1, acc.push(v)),
                }
            } else {
                Ok((st, acc))
            }
        }),
{
    reveal(l_args);
    reveal(l_expr);
}

pub proof fn unfold_l_field(t: Tables, st: Low, e: ExprV)
    ensures
        l_field(t, st, e) == ({
            match e.kind {
                ExprKindV::Field { base, name } => match l_namespace(t, *base) {
                    Some(ns) => {
                        let ty = match field_type_of(ns, name.node) {
                            Some(ty) => ty,
                            None => TypeV::Error,
                        };
                        Ok(st.emit(OpV::NamespaceField(ns, name.node), ty))
                    },
                    None => match l_expr(t, st, *base) {
                        Err(x) => Err(x),
                        Ok((st1, b)) => Ok(
                            st1.emit(
                                OpV::FieldGet(b, name.node),
                                field_read_type(st1.type_of(b), name.node),
                            ),
                        ),
                    },
                },
                _ => Err(internal("not a field read"@)),
            }
        }),
{
    reveal(l_field);
    reveal(l_expr);
}

pub proof fn unfold_l_index(t: Tables, st: Low, e: ExprV)
    ensures
        l_index(t, st, e) == ({
            match e.kind {
                ExprKindV::Index { base, index } => match l_expr(t, st, *base) {
                    Err(x) => Err(x),
                    Ok((st1, b)) => match l_expr(t, st1, *index) {
                        Err(x) => Err(x),
                        Ok((st2, idx)) => match object_type(st2.type_of(b)) {
                            TypeV::Array(elem) => Ok(
                                st2.emit(OpV::ArrayGet(b, idx), TypeV::Optional(elem)),
                            ),
                            TypeV::MapOf(v) => Ok(st2.emit(OpV::MapGet(b, idx), TypeV::Optional(v))),
                            TypeV::Record(fields) => match index.kind {
                                ExprKindV::Str(key) => {
                                    let ty = match get_of(fields, key) {
                                        Some(ty) => ty,
                                        None => TypeV::Error,
                                    };
                                    Ok(st2.emit(OpV::FieldGet(b, key), ty))
                                },
                                _ => Err(internal("record indexed by a non-literal key"@)),
                            },
                            other => Err(internal("indexing a "@ + type_text(other))),
                        },
                    },
                },
                _ => Err(internal("not an index read"@)),
            }
        }),
{
    reveal(l_index);
    reveal(l_expr);
}

pub proof fn unfold_l_call(t: Tables, st: Low, e: ExprV)
    ensures
        l_call(t, st, e) == ({
            match e.kind {
                ExprKindV::Call { callee, args } => {
                    let c = callee_of(t, *callee);
                    if c is Closure {
                        match l_expr(t, st, *callee) {
                            Err(x) => Err(x),
                            Ok((st1, cv)) => {
                                let ret = match object_type(st1.type_of(cv)) {
                                    TypeV::Function(ft) => *ft.ret,
                                    _ => TypeV::Error,
                                };
                                match l_args(t, st1, args, 0, Seq::empty()) {
                                    Err(x) => Err(x),
                                    Ok((st2, argv)) => Ok(st2.emit(OpV::CallValue(cv, argv), ret)),
                                }
                            },
                        }
                    } else {
                        match l_args(t, st, args, 0, Seq::empty()) {
                            Err(x) => Err(x),
                            Ok((st1, argv)) => {
                                let (op, ty) = call_op(t, c, argv);
                                Ok(st1.emit(op, ty))
                            },
                        }
                    }
                },
                _ => Err(internal("not a call"@)),
            }
        }),
{
    reveal(l_call);
    reveal(l_expr);
    reveal(l_args);
}

pub proof fn unfold_l_elements(
    t: Tables,
    st: Low,
    fs: Seq<FieldV>,
    i: int,
    acc: Seq<ValueId>,
    ty: TypeV,
)
    ensures
        l_elements(t, st, fs, i, acc, ty) == ({
            if 0 <= i < fs.len() {
                match fs[i] {
                    FieldV::Positional(e) => match l_expr(t, st, e) {
                        Err(x) => Err(x),
                        Ok((st1, v)) => l_elements(t, st1, fs, i + 1, acc.push(v), st1.type_of(v)),
                    },
                    _ => l_elements(t, st, fs, i + 1, acc, ty),
                }
            } else {
                Ok((st, (acc, ty)))
            }
        }),
{
    reveal(l_elements);
    reveal(l_expr);
}

pub proof fn unfold_l_pairs(
    t: Tables,
    st: Low,
    fs: Seq<FieldV>,
    i: int,
    acc: Seq<(Seq<char>, ValueId)>,
    rec: Seq<(Seq<char>, TypeV)>,
)
    ensures
        l_pairs(t, st, fs, i, acc, rec) == ({
            if 0 <= i < fs.len() {
                match fs[i] {
                    FieldV::Named { name, value } => match l_expr(t, st, value) {
                        Err(x) => Err(x),
                        Ok((st1, v)) => l_pairs(
                            t,
                            st1,
                            fs,
                            i + 1,
                            acc.push((name.node, v)),
                            put_of(rec, name.node, st1.type_of(v)),
                        ),
                    },
                    FieldV::Keyed { key, value } => match key.kind {
                        ExprKindV::Str(k) => match l_expr(t, st, value) {
                            Err(x) => Err(x),
                            Ok((st1, v)) => l_pairs(t, st1, fs, i + 1, acc.push((k, v)), rec),
                        },
                        _ => Err(internal("non-literal map key reached lowering"@)),
                    },
                    FieldV::Positional(_) => Err(internal("mixed table shape"@)),
                }
            } else {
                Ok((st, (acc, rec)))
            }
        }),
{
    reveal(l_pairs);
    reveal(l_expr);
}

pub proof fn unfold_l_table(t: Tables, st: Low, fs: Seq<FieldV>)
    ensures
        l_table(t, st, fs) == ({
            if all_positional(fs) {
                match l_elements(t, st, fs, 0, Seq::empty(), TypeV::Error) {
                    Err(x) => Err(x),
                    Ok((st1, (elems, ty))) => Ok(
                        st1.emit(OpV::MakeArray(elems), TypeV::Array(Box::new(ty))),
                    ),
                }
            } else {
                match l_pairs(t, st, fs, 0, Seq::empty(), Seq::empty()) {
                    Err(x) => Err(x),
                    Ok((st1, (pairs, rec))) => {
                        let ty = if rec.len() == pairs.len() {
                            TypeV::Record(rec)
                        } else {
                            TypeV::Error
                        };
                        Ok(st1.emit(OpV::MakeTable(pairs), ty))
                    },
                }
            }
        }),
{
    reveal(l_table);
    reveal(l_elements);
    reveal(l_pairs);
}

pub proof fn unfold_l_short_circuit(t: Tables, st: Low, e: ExprV)
    ensures
        l_short_circuit(t, st, e) == ({
            match e.kind {
                ExprKindV::Binary { op, lhs, rhs } => match l_expr(t, st, *lhs) {
                    Err(x) => Err(x),
                    Ok((st1, l)) => {
                        let ty = st1.type_of(l);
                        let (st2, result) = st1.fresh_temp(ty);
                        let (st3, cond) = st2.stmt(OpV::LocalSet(result, l)).emit(
                            OpV::Truthy(l),
                            TypeV::Bool,
                        );
                        let (st4, rhs_b) = st3.new_block();
                        let (st5, merge) = st4.new_block();
                        // `and` evaluates its right side when the left is truthy, `or` when it is
                        // falsy.
                        let branch = if op == BinOp::And {
                            Terminator::Branch { cond, then_blk: rhs_b, else_blk: merge }
                        } else {
                            Terminator::Branch { cond, then_blk: merge, else_blk: rhs_b }
                        };
                        match l_expr(t, st5.terminate(branch).switch(rhs_b), *rhs) {
                            Err(x) => Err(x),
                            Ok((st6, r)) => Ok(
                                st6.stmt(OpV::LocalSet(result, r)).terminate(
                                    Terminator::Jump(merge),
                                ).switch(merge).emit(OpV::LocalGet(result), ty),
                            ),
                        }
                    },
                },
                _ => Err(internal("not a short-circuit operator"@)),
            }
        }),
{
    reveal(l_short_circuit);
    reveal(l_expr);
}

pub proof fn unfold_l_assigns(t: Tables, st: Low, ts: Seq<ExprV>, vs: Seq<ValueId>, i: int)
    ensures
        l_assigns(t, st, ts, vs, i) == ({
            if 0 <= i < ts.len() {
                if i < vs.len() {
                    match l_assign(t, st, ts[i], vs[i]) {
                        Err(x) => Err(x),
                        Ok((st1, _)) => l_assigns(t, st1, ts, vs, i + 1),
                    }
                } else {
                    Err(internal("assignment target without a value"@))
                }
            } else {
                Ok((st, ()))
            }
        }),
{
    reveal(l_assigns);
}

pub proof fn unfold_l_locals(t: Tables, st: Low, ns: Seq<IdentV>, vs: Seq<ValueId>, i: int)
    ensures
        l_locals(t, st, ns, vs, i) == ({
            if 0 <= i < ns.len() {
                match t.res.def_of(ns[i].span) {
                    None => Err(internal("missing symbol id for local"@)),
                    Some(id) => if i < vs.len() {
                        l_locals(t, st.bind(t, id, vs[i]), ns, vs, i + 1)
                    } else {
                        let (st1, nil) = st.emit(OpV::ConstNil, TypeV::Nil);
                        l_locals(t, st1.bind(t, id, nil), ns, vs, i + 1)
                    },
                }
            } else {
                Ok((st, ()))
            }
        }),
{
    reveal(l_locals);
}

pub proof fn unfold_l_block(t: Tables, st: Low, b: AstBlockV)
    ensures
        l_block(t, st, b) == ({
            match l_stats(t, st, b.stats, 0) {
                Err(x) => Err(x),
                Ok((st1, true)) => Ok((st1, true)),
                Ok((st1, false)) => match b.ret {
                    None => Ok((st1, false)),
                    Some(r) => if r.exprs.len() > 0 {
                        match l_expr(t, st1, r.exprs[0]) {
                            Err(x) => Err(x),
                            Ok((st2, v)) => Ok((st2.terminate(Terminator::Return(Some(v))), true)),
                        }
                    } else {
                        Ok((st1.terminate(Terminator::Return(None)), true))
                    },
                },
            }
        }),
{
    reveal(l_block);
    reveal(l_expr);
    reveal(l_stats);
}

pub proof fn unfold_l_stats(t: Tables, st: Low, ss: Seq<StatV>, i: int)
    ensures
        l_stats(t, st, ss, i) == ({
            if 0 <= i < ss.len() {
                match l_stat(t, st, ss[i]) {
                    Err(x) => Err(x),
                    Ok((st1, true)) => Ok((st1, true)),
                    Ok((st1, false)) => l_stats(t, st1, ss, i + 1),
                }
            } else {
                Ok((st, false))
            }
        }),
{
    reveal(l_stats);
    reveal(l_stat);
}

pub proof fn unfold_l_body(t: Tables, st: Low, b: AstBlockV, exit: BlockId, next: BlockId)
    ensures
        l_body(t, st, b, exit, next) == ({
            match l_block(t, st.enter_loop(exit), b) {
                Err(x) => Err(x),
                Ok((st1, terminated)) => {
                    let st2 = st1.leave_loop();
                    if terminated {
                        Ok((st2, ()))
                    } else {
                        Ok((st2.terminate(Terminator::Jump(next)), ()))
                    }
                },
            }
        }),
{
    reveal(l_body);
    reveal(l_block);
}

pub proof fn unfold_l_stat(t: Tables, st: Low, s: StatV)
    ensures
        l_stat(t, st, s) == ({
            match s.kind {
                StatKindV::Empty => Ok((st, false)),
                StatKindV::Break => if st.exits.len() == 0 {
                    Err(internal("`break` outside a loop"@))
                } else {
                    Ok((st.terminate(Terminator::Jump(st.exits.last())), true))
                },
                StatKindV::Local { names, exprs } => match l_args(t, st, exprs, 0, Seq::empty()) {
                    Err(x) => Err(x),
                    Ok((st1, vals)) => match l_locals(t, st1, names, vals, 0) {
                        Err(x) => Err(x),
                        Ok((st2, _)) => Ok((st2, false)),
                    },
                },
                StatKindV::LocalFunction { name, body } => l_local_function(t, st, name, body),
                StatKindV::Assign { targets, exprs } => match l_args(t, st, exprs, 0, Seq::empty()) {
                    Err(x) => Err(x),
                    Ok((st1, vals)) => match l_assigns(t, st1, targets, vals, 0) {
                        Err(x) => Err(x),
                        Ok((st2, _)) => Ok((st2, false)),
                    },
                },
                StatKindV::Call(e) => match l_expr(t, st, e) {
                    Err(x) => Err(x),
                    Ok((st1, _)) => Ok((st1, false)),
                },
                StatKindV::Do(b) => l_block(t, st, b),
                StatKindV::While { .. } => l_while(t, st, s),
                StatKindV::If { .. } => l_if(t, st, s),
                StatKindV::NumericFor { .. } => l_numeric_for(t, st, s),
                StatKindV::GenericFor { .. } => l_generic_for(t, st, s),
            }
        }),
{
    reveal(l_stat);
    reveal(l_expr);
    reveal(l_args);
    reveal(l_assigns);
    reveal(l_locals);
    reveal(l_block);
    reveal(l_while);
    reveal(l_if);
    reveal(l_numeric_for);
    reveal(l_generic_for);
}

pub proof fn unfold_l_while(t: Tables, st: Low, s: StatV)
    ensures
        l_while(t, st, s) == ({
            match s.kind {
                StatKindV::While { cond, body } => {
                    let (st1, header) = st.new_block();
                    let (st2, body_b) = st1.new_block();
                    let (st3, exit) = st2.new_block();
                    match l_expr(t, st3.terminate(Terminator::Jump(header)).switch(header), cond) {
                        Err(x) => Err(x),
                        Ok((st4, c)) => {
                            let st5 = st4.terminate(
                                Terminator::Branch { cond: c, then_blk: body_b, else_blk: exit },
                            ).switch(body_b);
                            match l_body(t, st5, body, exit, header) {
                                Err(x) => Err(x),
                                Ok((st6, _)) => Ok((st6.switch(exit), false)),
                            }
                        },
                    }
                },
                _ => Err(internal("not a while loop"@)),
            }
        }),
{
    reveal(l_while);
    reveal(l_expr);
    reveal(l_body);
}

pub proof fn unfold_l_arm(t: Tables, st: Low, arm: (ExprV, AstBlockV))
    ensures
        l_arm(t, st, arm) == ({
            match l_expr(t, st, arm.0) {
                Err(x) => Err(x),
                Ok((st1, c)) => {
                    let (st2, body_b) = st1.new_block();
                    let (st3, next_b) = st2.new_block();
                    let st4 = st3.terminate(
                        Terminator::Branch { cond: c, then_blk: body_b, else_blk: next_b },
                    ).switch(body_b);
                    match l_block(t, st4, arm.1) {
                        Err(x) => Err(x),
                        Ok((st5, terminated)) => Ok(
                            (
                                st5.switch(next_b),
                                if terminated {
                                    None
                                } else {
                                    Some(st5.current as u32)
                                },
                            ),
                        ),
                    }
                },
            }
        }),
{
    reveal(l_arm);
    reveal(l_expr);
    reveal(l_block);
}

pub proof fn unfold_l_arms(
    t: Tables,
    st: Low,
    arms: Seq<(ExprV, AstBlockV)>,
    i: int,
    acc: Seq<BlockId>,
)
    ensures
        l_arms(t, st, arms, i, acc) == ({
            if 0 <= i < arms.len() {
                match l_arm(t, st, arms[i]) {
                    Err(x) => Err(x),
                    Ok((st1, None)) => l_arms(t, st1, arms, i + 1, acc),
                    Ok((st1, Some(b))) => l_arms(t, st1, arms, i + 1, acc.push(b)),
                }
            } else {
                Ok((st, acc))
            }
        }),
{
    reveal(l_arms);
    reveal(l_arm);
}

pub proof fn unfold_l_join(st: Low, bs: Seq<BlockId>, to: BlockId, i: int)
    ensures
        l_join(st, bs, to, i) == ({
            if 0 <= i < bs.len() {
                l_join(st.set_term(bs[i] as int, Terminator::Jump(to)), bs, to, i + 1)
            } else {
                st
            }
        }),
{
    reveal(l_join);
}

pub proof fn unfold_l_if(t: Tables, st: Low, s: StatV)
    ensures
        l_if(t, st, s) == ({
            match s.kind {
                StatKindV::If { arms, else_block } => match l_arms(t, st, arms, 0, Seq::empty()) {
                    Err(x) => Err(x),
                    Ok((st1, falls)) => match else_block {
                        None => Ok(l_merge(st1, falls.push(st1.current as u32))),
                        Some(eb) => match l_block(t, st1, eb) {
                            Err(x) => Err(x),
                            Ok((st2, true)) => Ok(l_merge(st2, falls)),
                            Ok((st2, false)) => Ok(l_merge(st2, falls.push(st2.current as u32))),
                        },
                    },
                },
                _ => Err(internal("not a conditional"@)),
            }
        }),
{
    reveal(l_if);
    reveal(l_block);
    reveal(l_arms);
}

pub proof fn unfold_l_entry_cells(t: Tables, st: Low, i: int)
    ensures
        l_entry_cells(t, st, i) == ({
            if 0 <= i < t.res.symbols.len() && i <= u32::MAX {
                if st.boxed.contains(i as u32) {
                    let (st1, nil) = st.emit(OpV::ConstNil, TypeV::Nil);
                    let (st2, cell) = st1.emit(OpV::MakeCell(nil), cell_of_type());
                    l_entry_cells(
                        t,
                        st2.ensure_local(t, i as u32).stmt(OpV::LocalSet(i as u32, cell)),
                        i + 1,
                    )
                } else {
                    l_entry_cells(t, st, i + 1)
                }
            } else {
                st
            }
        }),
{
    reveal(l_entry_cells);
}

pub proof fn unfold_l_numeric_for(t: Tables, st: Low, s: StatV)
    ensures
        l_numeric_for(t, st, s) == ({
            match s.kind {
                StatKindV::NumericFor { var, start, end, step, body } => match t.res.def_of(var.span) {
                    None => Err(internal("missing symbol id for local"@)),
                    Some(id) => match l_range(t, st.ensure_local(t, id), start, end, step) {
                        Err(x) => Err(x),
                        Ok((st1, (start_v, end_l, step_l))) => {
                            let (st2, counter) = st1.fresh_temp(TypeV::Number);
                            let (st3, x) = l_loop_blocks(st2.stmt(OpV::LocalSet(counter, start_v)));
                            let st4 = l_loop_var(
                                t,
                                l_loop_test(st3, counter, end_l, step_l, x),
                                id,
                                counter,
                            );
                            match l_body(t, st4, body, x.exit, x.latch) {
                                Err(x) => Err(x),
                                Ok((st5, _)) => Ok(
                                    (
                                        l_advance(st5.switch(x.latch), counter, step_l, x.header).switch(
                                            x.exit,
                                        ),
                                        false,
                                    ),
                                ),
                            }
                        },
                    },
                },
                _ => Err(internal("not a numeric for"@)),
            }
        }),
{
    reveal(l_numeric_for);
    reveal(l_body);
}

pub proof fn unfold_l_generic_for(t: Tables, st: Low, s: StatV)
    ensures
        l_generic_for(t, st, s) == ({
            match s.kind {
                StatKindV::GenericFor { names, iter, body } => match l_walk(t, st, iter) {
                    Err(x) => Err(x),
                    Ok((st1, w)) => {
                        let st2 = if w.is_pairs {
                            l_snapshot(st1, w)
                        } else {
                            st1
                        };
                        let (st3, header) = st2.new_block();
                        let (st4, body_b) = st3.new_block();
                        let (st5, latch) = st4.new_block();
                        let (st6, exit) = st5.new_block();
                        let st7 = st6.terminate(Terminator::Jump(header)).switch(header);
                        let st8 = l_in_range(st7, w, body_b, exit).switch(body_b);
                        match l_walk_bind(t, st8, w, names) {
                            Err(x) => Err(x),
                            Ok((st9, _)) => match l_body(t, st9, body, exit, latch) {
                                Err(x) => Err(x),
                                Ok((st10, _)) => Ok(
                                    (l_count(st10.switch(latch), w, header).switch(exit), false),
                                ),
                            },
                        }
                    },
                },
                _ => Err(internal("not a generic for"@)),
            }
        }),
{
    reveal(l_generic_for);
    reveal(l_body);
}

pub proof fn unfold_l_pending(t: Tables, p: PendingV, fns: Named)
    ensures
        l_pending(t, p, fns) == ({
            match l_closure(t, p) {
                Err(x) => Err(x),
                Ok((f, found)) => l_inner(t, p.body, found, found.len() as int, put_of(fns, p.name, f)),
            }
        }),
{
    reveal(l_pending);
    reveal(l_inner);
}

pub proof fn unfold_l_inner(t: Tables, outer: FuncBodyV, list: Seq<PendingV>, n: int, fns: Named)
    ensures
        l_inner(t, outer, list, n, fns) == ({
            if 0 < n <= list.len() && decreases_to!(outer => list[n - 1].body) {
                match l_pending(t, list[n - 1], fns) {
                    Err(x) => Err(x),
                    Ok(fns1) => l_inner(t, outer, list, n - 1, fns1),
                }
            } else {
                Ok(fns)
            }
        }),
{
    reveal(l_inner);
    reveal(l_pending);
}

pub proof fn unfold_l_queue(t: Tables, list: Seq<PendingV>, n: int, fns: Named)
    ensures
        l_queue(t, list, n, fns) == ({
            if 0 < n <= list.len() {
                match l_pending(t, list[n - 1], fns) {
                    Err(x) => Err(x),
                    Ok(fns1) => l_queue(t, list, n - 1, fns1),
                }
            } else {
                Ok(fns)
            }
        }),
{
    reveal(l_queue);
    reveal(l_pending);
}

pub proof fn unfold_l_decls(t: Tables, ds: Seq<TopDeclV>, i: int, acc: Lowered)
    ensures
        l_decls(t, ds, i, acc) == ({
            if 0 <= i < ds.len() {
                match ds[i] {
                    TopDeclV::Function(f) => match l_function(t, f.name.node, f.body) {
                        Err(x) => Err(x),
                        Ok((lowered, found)) => l_decls(
                            t,
                            ds,
                            i + 1,
                            Lowered {
                                functions: put_of(acc.functions, f.name.node, lowered),
                                found: acc.found + found,
                                ..acc
                            },
                        ),
                    },
                    TopDeclV::Const(c) => match l_const(t, c.name.node, c.value) {
                        Err(x) => Err(x),
                        Ok(lowered) => l_decls(
                            t,
                            ds,
                            i + 1,
                            Lowered { constants: put_of(acc.constants, c.name.node, lowered), ..acc },
                        ),
                    },
                }
            } else {
                Ok(acc)
            }
        }),
{
    reveal(l_decls);
}

pub proof fn unfold_l_exports(
    res: ResolutionV,
    fs: Seq<FieldV>,
    i: int,
    acc: Seq<(Seq<char>, ExportTargetV)>,
)
    ensures
        l_exports(res, fs, i, acc) == ({
            if 0 <= i < fs.len() {
                match fs[i] {
                    FieldV::Named { name, value } => match value.kind {
                        ExprKindV::Name(_) => match res.binding_of(value.span) {
                            Some(BindingV::TopFunction(n)) => l_exports(
                                res,
                                fs,
                                i + 1,
                                put_of(acc, name.node, ExportTargetV::Function(n)),
                            ),
                            Some(BindingV::TopConst(n)) => l_exports(
                                res,
                                fs,
                                i + 1,
                                put_of(acc, name.node, ExportTargetV::Const(n)),
                            ),
                            _ => Err(
                                unsupported(
                                    "module exports must reference a top-level function or constant"@,
                                ),
                            ),
                        },
                        _ => Err(
                            unsupported(
                                "module exports must be bare references to top-level functions or constants"@,
                            ),
                        ),
                    },
                    _ => Err(internal("export field is not `name = value`"@)),
                }
            } else {
                Ok(acc)
            }
        }),
{
    reveal(l_exports);
}

pub proof fn unfold_l_open_exports(
    ds: Seq<TopDeclV>,
    i: int,
    acc: Seq<(Seq<char>, ExportTargetV)>,
)
    ensures
        l_open_exports(ds, i, acc) == ({
            if 0 <= i < ds.len() {
                match ds[i] {
                    TopDeclV::Function(f) => l_open_exports(
                        ds,
                        i + 1,
                        put_of(acc, f.name.node, ExportTargetV::Function(f.name.node)),
                    ),
                    TopDeclV::Const(c) => l_open_exports(
                        ds,
                        i + 1,
                        put_of(acc, c.name.node, ExportTargetV::Const(c.name.node)),
                    ),
                }
            } else {
                acc
            }
        }),
{
    reveal(l_open_exports);
}

/// A function literal to be lifted.
struct Pending<'a> {
    name: String,
    body: &'a FuncBody,
    depth: usize,
    upvalues: Vec<SymbolId>,
}

impl<'a> View for Pending<'a> {
    type V = PendingV;

    closed spec fn view(&self) -> PendingV {
        PendingV {
            name: self.name@,
            body: self.body@,
            depth: self.depth,
            upvalues: self.upvalues@,
        }
    }
}

spec fn pendings_v(v: Seq<Pending>) -> Seq<PendingV> {
    Seq::new(v.len(), |i: int| v[i]@)
}

/// Whether all ids in a state under construction exist.
#[verifier::opaque]
spec fn sound(st: Low) -> bool {
    &&& 0 <= st.current < st.blocks.len()
    &&& forall|k: int| 0 <= k < st.exits.len() ==> (#[trigger] st.exits[k]) < st.blocks.len()
    &&& st.upvalues.len() > 0 ==> st.env_local is Some
    &&& st.blocks.len() <= u32::MAX && st.values.len() <= u32::MAX ==> forall|i: int|
        0 <= i < st.blocks.len() ==> block_ok(
            #[trigger] st.blocks[i],
            i,
            st.blocks.len() as int,
            st.values.len() as int,
        )
}

/// Whether all literals found lie inside `bound`.
#[verifier::opaque]
spec fn inside(st: Low, bound: FuncBodyV) -> bool {
    forall|k: int|
        0 <= k < st.found.len() ==> decreases_to!(bound => (#[trigger] st.found[k]).body)
}

spec fn ready(f: FnLowerer) -> bool {
    sound(f@) && inside(f@, f.bound@)
}

/// `b` is a later stage of `a`.
spec fn kept(a: FnLowerer, b: FnLowerer) -> bool {
    &&& b.tables() == a.tables()
    &&& b.res == a.res
    &&& b.types == a.types
    &&& b.cfg == a.cfg
    &&& b.bound == a.bound
    &&& b@.blocks.len() >= a@.blocks.len()
    &&& b@.values.len() >= a@.values.len()
    &&& b@.exits == a@.exits
}

spec fn done<T>(r: Result<T, LowerError>, st: Low) -> Step<T> {
    match r {
        Ok(v) => Ok((st, v)),
        Err(e) => Err(e@),
    }
}

spec fn done_values(r: Result<Vec<ValueId>, LowerError>, st: Low) -> Step<Seq<ValueId>> {
    match r {
        Ok(v) => Ok((st, v@)),
        Err(e) => Err(e@),
    }
}

/// A cut-off count is no larger than the count.
proof fn lemma_cut(n: usize)
    ensures
        (n as u32) as int <= n as int,
        n <= u32::MAX ==> (n as u32) as int == n as int,
{
    assert((n as u32) <= n) by (bit_vector);
}

/// A block stays well formed when blocks and values are added.
proof fn lemma_blocks_grow(bs: Seq<BlockV>, nb: int, nv: int, nb2: int, nv2: int)
    requires
        nb <= nb2,
        nv <= nv2,
        forall|i: int| 0 <= i < bs.len() ==> block_ok(#[trigger] bs[i], i, nb, nv),
    ensures
        forall|i: int| 0 <= i < bs.len() ==> block_ok(#[trigger] bs[i], i, nb2, nv2),
{
    assert forall|i: int| 0 <= i < bs.len() implies block_ok(#[trigger] bs[i], i, nb2, nv2) by {
        let b = bs[i];
        assert(block_ok(b, i, nb, nv));
        assert forall|k: int| 0 <= k < b.instrs.len() implies ((
        #[trigger] b.instrs[k]).dest matches Some(d) ==> d < nv2) by {}
    }
}

struct FnLowerer<'a> {
    name: String,
    ret: Type,
    res: &'a Resolution,
    types: &'a TypeInfo,
    cfg: &'a TypeConfig,
    params: Vec<LocalId>,
    locals: BTreeMap<LocalId, Type>,
    values: Vec<Type>,
    blocks: Vec<Block>,
    current: usize,
    next_temp: LocalId,
    /// Stack of loop-exit blocks for `break`.
    loop_exits: Vec<BlockId>,
    /// Nesting depth of the function being lowered (0 at top level).
    depth: usize,
    /// This function's own parameters and locals that live in shared cells.
    boxed: HashSet<SymbolId>,
    /// For a lifted closure, the captured symbols in the order of the environment.
    upvalues: Vec<SymbolId>,
    /// For a lifted closure, the local that holds the environment.
    env_local: Option<LocalId>,
    /// Function literals discovered here, to be lifted.
    discovered: Vec<Pending<'a>>,
    /// Counter for the names of lifted closures.
    closure_counter: u32,
    /// The body being lowered.
    bound: Ghost<FuncBodyV>,
}

/// The type of an upvalue cell or closure handle: any pointer type works, since the handle is
/// opaque.
fn cell_type() -> (r: Type)
    ensures
        r@ == cell_of_type(),
{
    Type::array(Type::Nil)
}

fn internal_error(msg: &str) -> (r: LowerError)
    ensures
        r@ == internal(msg@),
{
    LowerError::Internal(own(msg))
}

fn unsupported_error(msg: &str) -> (r: LowerError)
    ensures
        r@ == unsupported(msg@),
{
    LowerError::Unsupported(own(msg))
}

fn number(text: &str) -> (r: Op)
    ensures
        r@ == numeral(text@),
{
    Op::ConstNumber(Numeral::decimal(text))
}

impl<'a> FnLowerer<'a> {
    spec fn tables(&self) -> Tables {
        Tables { res: self.res@, types: self.types@, cfg: self.cfg@ }
    }

    #[verifier::opaque]
    spec fn view(&self) -> Low {
        Low {
            name: self.name@,
            ret: self.ret@,
            params: self.params@,
            locals: locals_v(self.locals@),
            values: types_v(self.values@),
            blocks: blocks_v(self.blocks@),
            current: self.current as int,
            next_temp: self.next_temp,
            exits: self.loop_exits@,
            depth: self.depth,
            boxed: self.boxed@,
            upvalues: self.upvalues@,
            env_local: self.env_local,
            found: pendings_v(self.discovered@),
            counter: self.closure_counter,
        }
    }

    fn new(
        name: String,
        ret: Type,
        res: &'a Resolution,
        types: &'a TypeInfo,
        cfg: &'a TypeConfig,
        bound: Ghost<FuncBodyV>,
    ) -> (r: Self)
        ensures
            r.res == res,
            r.types == types,
            r.cfg == cfg,
            r.bound == bound,
            r@ == Low::start(r.tables(), name@, ret@),
            ready(r),
    {
        broadcast use {
            vstd::std_specs::btree::group_btree_axioms,
            vstd::std_specs::hash::group_hash_axioms,
        };

        let next_temp: LocalId = #[verifier::truncate]
        (res.symbols.len() as u32);
        let mut blocks: Vec<Block> = Vec::new();
        blocks.push(Block { id: 0, instrs: Vec::new(), term: Terminator::Unreachable });
        let r = FnLowerer {
            name,
            ret,
            res,
            types,
            cfg,
            params: Vec::new(),
            locals: BTreeMap::new(),
            values: Vec::new(),
            blocks,
            current: 0,
            next_temp,
            loop_exits: Vec::new(),
            depth: 0,
            boxed: HashSet::new(),
            upvalues: Vec::new(),
            env_local: None,
            discovered: Vec::new(),
            closure_counter: 0,
            bound,
        };
        proof {
            reveal(FnLowerer::view);
            reveal(sound);
            reveal(inside);
            let s = Low::start(r.tables(), name@, ret@);
            assert(r@.blocks[0].instrs =~= Seq::<InstrV>::empty());
            assert(r@.blocks =~= s.blocks);
            assert(r@.values =~= s.values);
            assert(r@.locals =~= s.locals);
            assert(r@.found =~= s.found);
            assert(r@.boxed =~= s.boxed);
        }
        r
    }

    /// Note which of this function's own symbols live in cells. Their locals are typed as
    /// cell handles from now on.
    fn set_boxed(&mut self, boxed: HashSet<SymbolId>)
        requires
            ready(*old(self)),
            forall|id: SymbolId| #[trigger] boxed@.contains(id) ==> id < old(self).tables().res.symbols.len(),
        ensures
            ready(*final(self)),
            kept(*old(self), *final(self)),
            final(self)@ == old(self)@.set_boxed(boxed@),
    {
        broadcast use {
            vstd::std_specs::btree::group_btree_axioms,
            vstd::std_specs::hash::group_hash_axioms,
        };

        proof {
            reveal(FnLowerer::view);
            reveal(sound);
            reveal(inside);
            reveal(Low::set_boxed);
        }
        let n: usize = self.res.symbols.len();
        let ghost locals0 = locals_v(self.locals@);
        let mut i: usize = 0;
        while i < n && i <= 4294967295
            invariant
                i <= n,
                n == self.tables().res.symbols.len(),
                forall|id: SymbolId| #[trigger] boxed@.contains(id) ==> id < n,
                locals0 == locals_v(old(self).locals@),
                locals_v(self.locals@) == locals0.union_prefer_right(
                    Map::new(
                        |id: SymbolId| boxed@.contains(id) && id < i,
                        |id: SymbolId| cell_of_type(),
                    ),
                ),
                *self == (FnLowerer { locals: self.locals, ..*old(self) }),
            decreases n - i,
        {
            let id: SymbolId = i as u32;
            if boxed.contains(&id) {
                let c = cell_type();
                let ghost before = locals_v(self.locals@);
                self.locals.insert(id, c);
                assert(locals_v(self.locals@) =~= before.insert(id, cell_of_type()));
            }
            i += 1;
            assert(locals_v(self.locals@) =~= locals0.union_prefer_right(
                Map::new(
                    |id: SymbolId| boxed@.contains(id) && id < i,
                    |id: SymbolId| cell_of_type(),
                ),
            ));
        }
        assert(locals_v(self.locals@) =~= locals0.union_prefer_right(
            Map::new(|id: SymbolId| boxed@.contains(id), |id: SymbolId| cell_of_type()),
        ));
        self.boxed = boxed;
    }

    /// Turn the function into a lifted closure's: it has upvalues, and its first parameter is
    /// the environment.
    fn set_env(&mut self, depth: usize, upvalues: Vec<SymbolId>, env: LocalId)
        requires
            ready(*old(self)),
        ensures
            ready(*final(self)),
            kept(*old(self), *final(self)),
            final(self)@ == (Low {
                depth,
                upvalues: upvalues@,
                env_local: Some(env),
                ..old(self)@
            }),
    {
        proof {
            reveal(FnLowerer::view);
            reveal(sound);
            reveal(inside);
        }
        self.depth = depth;
        self.upvalues = upvalues;
        self.env_local = Some(env);
    }

    fn set_depth(&mut self, depth: usize)
        requires
            ready(*old(self)),
        ensures
            ready(*final(self)),
            kept(*old(self), *final(self)),
            final(self)@ == (Low { depth, ..old(self)@ }),
    {
        proof {
            reveal(FnLowerer::view);
            reveal(sound);
            reveal(inside);
        }
        self.depth = depth;
    }

    fn finish(self) -> (r: (Function, Vec<Pending<'a>>))
        requires
            ready(self),
        ensures
            r.0@ == self@.finish(),
            pendings_v(r.1@) == self@.found,
            inside(self@, self.bound@),
            self@.blocks.len() <= u32::MAX && self@.values.len() <= u32::MAX ==> function_ok(r.0@),
    {
        proof {
            reveal(FnLowerer::view);
            reveal(sound);
            assert(self@.blocks.len() <= u32::MAX ==> self@.blocks.len() as u32
                == self@.blocks.len());
            assert(self@.values.len() <= u32::MAX ==> self@.values.len() as u32
                == self@.values.len());
        }
        (
            Function {
                name: self.name,
                params: self.params,
                ret: self.ret,
                locals: self.locals,
                values: self.values,
                blocks: self.blocks,
                entry: 0,
                is_closure: self.env_local.is_some(),
            },
            self.discovered,
        )
    }

    fn new_block(&mut self) -> (r: BlockId)
        requires
            ready(*old(self)),
        ensures
            ready(*final(self)),
            kept(*old(self), *final(self)),
            (final(self)@, r) == old(self)@.new_block(),
            r < final(self)@.blocks.len(),
    {
        proof {
            reveal(FnLowerer::view);
            reveal(sound);
            reveal(inside);
            reveal(Low::new_block);
            lemma_cut(self.blocks.len());
        }
        let id: BlockId = #[verifier::truncate]
        (self.blocks.len() as u32);
        let b = Block { id, instrs: Vec::new(), term: Terminator::Unreachable };
        self.blocks.push(b);
        proof {
            assert(b@.instrs =~= Seq::<InstrV>::empty());
            assert(self@.blocks =~= old(self)@.blocks.push(b@));
            assert(self@.exits =~= old(self)@.exits);
            let n = old(self)@.blocks.len() as int;
            let v = old(self)@.values.len() as int;
            if n + 1 <= u32::MAX && v <= u32::MAX {
                lemma_blocks_grow(old(self)@.blocks, n, v, n + 1, v);
                assert forall|i: int| 0 <= i < self@.blocks.len() implies block_ok(
                    #[trigger] self@.blocks[i],
                    i,
                    n + 1,
                    v,
                ) by {
                    if i < n {
                        assert(self@.blocks[i] == old(self)@.blocks[i]);
                    }
                }
            }
        }
        id
    }

    fn switch(&mut self, b: BlockId)
        requires
            ready(*old(self)),
            b < old(self)@.blocks.len(),
        ensures
            ready(*final(self)),
            kept(*old(self), *final(self)),
            final(self)@ == old(self)@.switch(b),
    {
        proof {
            reveal(FnLowerer::view);
            reveal(sound);
            reveal(inside);
            reveal(Low::switch);
        }
        self.current = b as usize;
    }

    fn set_term(&mut self, b: usize, term: Terminator)
        requires
            ready(*old(self)),
            b < old(self)@.blocks.len(),
            term_ok(term, old(self)@.blocks.len() as int, old(self)@.values.len() as int),
        ensures
            ready(*final(self)),
            kept(*old(self), *final(self)),
            final(self)@ == old(self)@.set_term(b as int, term),
    {
        proof {
            reveal(FnLowerer::view);
            reveal(sound);
            reveal(inside);
            reveal(Low::set_term);
        }
        self.blocks[b].term = term;
        proof {
            let b0 = old(self)@.blocks[b as int];
            assert(self@.blocks =~= old(self)@.blocks.update(b as int, BlockV { term, ..b0 }));
            let n = self@.blocks.len() as int;
            let v = self@.values.len() as int;
            if n <= u32::MAX && v <= u32::MAX {
                assert forall|i: int| 0 <= i < n implies block_ok(
                    #[trigger] self@.blocks[i],
                    i,
                    n,
                    v,
                ) by {
                    assert(block_ok(old(self)@.blocks[i], i, n, v));
                }
            }
        }
    }

    fn terminate(&mut self, term: Terminator)
        requires
            ready(*old(self)),
            term_ok(term, old(self)@.blocks.len() as int, old(self)@.values.len() as int),
        ensures
            ready(*final(self)),
            kept(*old(self), *final(self)),
            final(self)@ == old(self)@.terminate(term),
    {
        let c = self.current_block();
        self.set_term(c, term);
    }

    fn current_block(&self) -> (r: usize)
        requires
            ready(*self),
        ensures
            r == self@.current,
            r < self@.blocks.len(),
    {
        proof {
            reveal(FnLowerer::view);
            reveal(sound);
        }
        self.current
    }

    fn emit_value(&mut self, op: Op, ty: Type) -> (r: ValueId)
        requires
            ready(*old(self)),
        ensures
            ready(*final(self)),
            kept(*old(self), *final(self)),
            (final(self)@, r) == old(self)@.emit(op@, ty@),
            r < final(self)@.values.len(),
    {
        proof {
            reveal(FnLowerer::view);
            reveal(sound);
            reveal(inside);
            reveal(Low::emit);
            lemma_cut(self.values.len());
        }
        let id: ValueId = #[verifier::truncate]
        (self.values.len() as u32);
        let ghost tv = ty@;
        let ghost opv = op@;
        self.values.push(ty);
        let c = self.current;
        self.blocks[c].instrs.push(Instr { dest: Some(id), op });
        proof {
            let b0 = old(self)@.blocks[c as int];
            assert(self@.values =~= old(self)@.values.push(tv));
            assert(self@.blocks[c as int].instrs =~= b0.instrs.push(
                InstrV { dest: Some(id), op: opv },
            ));
            assert(self@.blocks =~= old(self)@.append(Some(id), opv));
            assert(self@.exits =~= old(self)@.exits);
            let n = self@.blocks.len() as int;
            let v = old(self)@.values.len() as int;
            if n <= u32::MAX && v + 1 <= u32::MAX {
                lemma_blocks_grow(old(self)@.blocks, n, v, n, v + 1);
                assert forall|i: int| 0 <= i < n implies block_ok(
                    #[trigger] self@.blocks[i],
                    i,
                    n,
                    v + 1,
                ) by {
                    assert(block_ok(old(self)@.blocks[i], i, n, v + 1));
                }
            }
        }
        id
    }

    fn emit_stmt(&mut self, op: Op)
        requires
            ready(*old(self)),
        ensures
            ready(*final(self)),
            kept(*old(self), *final(self)),
            final(self)@ == old(self)@.stmt(op@),
    {
        proof {
            reveal(FnLowerer::view);
            reveal(sound);
            reveal(inside);
            reveal(Low::stmt);
        }
        let ghost opv = op@;
        let c = self.current;
        self.blocks[c].instrs.push(Instr { dest: None, op });
        proof {
            let b0 = old(self)@.blocks[c as int];
            assert(self@.blocks[c as int].instrs =~= b0.instrs.push(
                InstrV { dest: None, op: opv },
            ));
            assert(self@.blocks =~= old(self)@.append(None, opv));
            assert(self@.exits =~= old(self)@.exits);
            let n = self@.blocks.len() as int;
            let v = self@.values.len() as int;
            if n <= u32::MAX && v <= u32::MAX {
                assert forall|i: int| 0 <= i < n implies block_ok(
                    #[trigger] self@.blocks[i],
                    i,
                    n,
                    v,
                ) by {
                    assert(block_ok(old(self)@.blocks[i], i, n, v));
                }
            }
        }
    }

    fn fresh_temp(&mut self, ty: Type) -> (r: LocalId)
        requires
            ready(*old(self)),
        ensures
            ready(*final(self)),
            kept(*old(self), *final(self)),
            (final(self)@, r) == old(self)@.fresh_temp(ty@),
    {
        broadcast use {
            vstd::std_specs::btree::group_btree_axioms,
            vstd::std_specs::hash::group_hash_axioms,
        };

        proof {
            reveal(FnLowerer::view);
            reveal(sound);
            reveal(inside);
            reveal(Low::fresh_temp);
        }
        let ghost tv = ty@;
        let id = self.next_temp;
        self.next_temp = id.wrapping_add(1);
        self.locals.insert(id, ty);
        assert(self@.locals =~= old(self)@.locals.insert(id, tv));
        assert(self@.exits =~= old(self)@.exits);
        id
    }

    fn ensure_local(&mut self, id: LocalId)
        requires
            ready(*old(self)),
        ensures
            ready(*final(self)),
            kept(*old(self), *final(self)),
            final(self)@ == old(self)@.ensure_local(old(self).tables(), id),
    {
        broadcast use {
            vstd::std_specs::btree::group_btree_axioms,
            vstd::std_specs::hash::group_hash_axioms,
        };

        proof {
            reveal(FnLowerer::view);
            reveal(sound);
            reveal(inside);
            reveal(Low::ensure_local);
        }
        if !self.locals.contains_key(&id) {
            let ty = self.symbol_type(id);
            let ghost tv = ty@;
            self.locals.insert(id, ty);
            assert(self@.locals =~= old(self)@.locals.insert(id, tv));
        }
    }

    fn add_param(&mut self, id: LocalId)
        requires
            ready(*old(self)),
        ensures
            ready(*final(self)),
            kept(*old(self), *final(self)),
            final(self)@ == old(self)@.add_param(id),
    {
        proof {
            reveal(FnLowerer::view);
            reveal(sound);
            reveal(inside);
            reveal(Low::add_param);
        }
        self.params.push(id);
    }

    fn enter_loop(&mut self, exit: BlockId)
        requires
            ready(*old(self)),
            exit < old(self)@.blocks.len(),
        ensures
            ready(*final(self)),
            final(self)@ == old(self)@.enter_loop(exit),
            final(self).res == old(self).res,
            final(self).types == old(self).types,
            final(self).cfg == old(self).cfg,
            final(self).bound == old(self).bound,
            final(self)@.blocks.len() == old(self)@.blocks.len(),
            final(self)@.values.len() == old(self)@.values.len(),
            final(self)@.exits == old(self)@.exits.push(exit),
    {
        proof {
            reveal(FnLowerer::view);
            reveal(sound);
            reveal(inside);
            reveal(Low::enter_loop);
        }
        self.loop_exits.push(exit);
    }

    fn leave_loop(&mut self)
        requires
            ready(*old(self)),
            old(self)@.exits.len() > 0,
        ensures
            ready(*final(self)),
            final(self)@ == old(self)@.leave_loop(),
            final(self).res == old(self).res,
            final(self).types == old(self).types,
            final(self).cfg == old(self).cfg,
            final(self).bound == old(self).bound,
            final(self)@.blocks.len() == old(self)@.blocks.len(),
            final(self)@.values.len() == old(self)@.values.len(),
            final(self)@.exits == old(self)@.exits.drop_last(),
    {
        proof {
            reveal(FnLowerer::view);
            reveal(sound);
            reveal(inside);
            reveal(Low::leave_loop);
        }
        self.loop_exits.pop();
        assert(self@.exits =~= old(self)@.exits.drop_last());
    }

    /// The exit of the innermost loop.
    fn loop_exit(&self) -> (r: Option<BlockId>)
        requires
            ready(*self),
        ensures
            match r {
                Some(b) => self@.exits.len() > 0 && b == self@.exits.last() && b
                    < self@.blocks.len(),
                None => self@.exits.len() == 0,
            },
    {
        proof {
            reveal(FnLowerer::view);
            reveal(sound);
        }
        let n: usize = self.loop_exits.len();
        if n > 0 {
            assert(self@.exits[n - 1] == self.loop_exits@[n - 1]);
            Some(self.loop_exits[n - 1])
        } else {
            None
        }
    }

    fn value_type(&self, v: ValueId) -> (r: Type)
        ensures
            r@ == self@.type_of(v),
    {
        proof {
            reveal(FnLowerer::view);
            reveal(Low::type_of);
        }
        if (v as usize) < self.values.len() {
            self.values[v as usize].dup()
        } else {
            Type::Error
        }
    }

    /// The type of an object that is used.
    fn object_type(&self, v: ValueId) -> (r: Type)
        ensures
            r@ == object_type(self@.type_of(v)),
    {
        match self.value_type(v) {
            Type::Optional(i) => *i,
            other => other,
        }
    }

    fn local_type(&self, id: LocalId) -> (r: Type)
        ensures
            r@ == self@.local_type(id),
    {
        broadcast use {
            vstd::std_specs::btree::group_btree_axioms,
            vstd::std_specs::hash::group_hash_axioms,
        };

        proof {
            reveal(FnLowerer::view);
            reveal(Low::local_type);
        }
        match self.locals.get(&id) {
            Some(ty) => ty.dup(),
            None => Type::Error,
        }
    }

    fn local_id(&self, span: Span) -> (r: Result<LocalId, LowerError>)
        ensures
            match r {
                Ok(id) => self.tables().res.def_of(span) == Some(id),
                Err(e) => self.tables().res.def_of(span) is None && e@ == internal(
                    "missing symbol id for local"@,
                ),
            },
    {
        match self.res.def(span) {
            Some(id) => Ok(id),
            None => Err(internal_error("missing symbol id for local")),
        }
    }

    /// The inferred type of an in-function symbol.
    fn symbol_type(&self, id: SymbolId) -> (r: Type)
        ensures
            r@ == symbol_type_of(self.tables(), id),
    {
        if (id as usize) < self.types.symbol_types.len() {
            self.types.symbol_types[id as usize].dup()
        } else {
            Type::Error
        }
    }

    fn is_boxed(&self, id: SymbolId) -> (r: bool)
        ensures
            r == self@.boxed.contains(id),
    {
        broadcast use {
            vstd::std_specs::btree::group_btree_axioms,
            vstd::std_specs::hash::group_hash_axioms,
        };

        proof {
            reveal(FnLowerer::view);
        }
        self.boxed.contains(&id)
    }

    /// The index of a captured symbol in the environment.
    fn upvalue_index(&self, id: SymbolId) -> (r: Option<u32>)
        ensures
            match r {
                Some(i) => self@.upvalue(id) is Some && i == (self@.upvalue(id)->0) as u32
                    && self@.upvalues.len() > 0,
                None => self@.upvalue(id) is None,
            },
    {
        proof {
            reveal(FnLowerer::view);
        }
        let mut n: usize = self.upvalues.len();
        while n > 0
            invariant
                n <= self.upvalues@.len(),
                self.upvalues@ == self@.upvalues,
                upvalue_at(self.upvalues@, id, n as int) == upvalue_at(
                    self.upvalues@,
                    id,
                    self.upvalues@.len() as int,
                ),
            decreases n,
        {
            if self.upvalues[n - 1] == id {
                let k: usize = n - 1;
                return Some(#[verifier::truncate] (k as u32));
            }
            n -= 1;
        }
        None
    }

    /// Whether a symbol is accessed through a cell.
    fn is_captured(&self, id: SymbolId) -> (r: bool)
        ensures
            r == self@.is_captured(id),
    {
        self.is_boxed(id) || self.upvalue_index(id).is_some()
    }

    fn environment(&self) -> (r: LocalId)
        requires
            ready(*self),
            self@.upvalues.len() > 0,
        ensures
            self@.env_local == Some(r),
    {
        proof {
            reveal(FnLowerer::view);
            reveal(sound);
        }
        self.env_local.unwrap()
    }

    /// Produce the cell that holds a captured symbol.
    fn cell_of(&mut self, id: SymbolId) -> (r: ValueId)
        requires
            ready(*old(self)),
        ensures
            ready(*final(self)),
            kept(*old(self), *final(self)),
            (final(self)@, r) == old(self)@.cell(old(self).tables(), id),
            r < final(self)@.values.len(),
    {
        proof {
            reveal(Low::cell);
        }
        match self.upvalue_index(id) {
            Some(idx) => {
                let env_l = self.environment();
                let env = self.emit_value(Op::LocalGet(env_l), cell_type());
                self.emit_value(Op::ClosureEnvGet(env, idx), cell_type())
            },
            None => {
                self.ensure_local(id);
                self.emit_value(Op::LocalGet(id), cell_type())
            },
        }
    }

    /// Read a symbol, through its cell when captured.
    fn read_symbol(&mut self, id: SymbolId) -> (r: ValueId)
        requires
            ready(*old(self)),
        ensures
            ready(*final(self)),
            kept(*old(self), *final(self)),
            (final(self)@, r) == old(self)@.read(old(self).tables(), id),
            r < final(self)@.values.len(),
    {
        proof {
            reveal(Low::read);
        }
        if self.is_captured(id) {
            let cell = self.cell_of(id);
            let ty = self.symbol_type(id);
            self.emit_value(Op::CellGet(cell), ty)
        } else {
            self.ensure_local(id);
            let ty = self.local_type(id);
            self.emit_value(Op::LocalGet(id), ty)
        }
    }

    /// Write to an existing symbol, through its cell when captured.
    fn write_symbol(&mut self, id: SymbolId, v: ValueId)
        requires
            ready(*old(self)),
        ensures
            ready(*final(self)),
            kept(*old(self), *final(self)),
            final(self)@ == old(self)@.write(old(self).tables(), id, v),
    {
        proof {
            reveal(Low::write);
        }
        if self.is_captured(id) {
            let cell = self.cell_of(id);
            self.emit_stmt(Op::CellSet(cell, v));
        } else {
            self.ensure_local(id);
            self.emit_stmt(Op::LocalSet(id, v));
        }
    }

    /// Bind a symbol at its declaration.
    fn bind_local(&mut self, id: SymbolId, v: ValueId)
        requires
            ready(*old(self)),
        ensures
            ready(*final(self)),
            kept(*old(self), *final(self)),
            final(self)@ == old(self)@.bind(old(self).tables(), id, v),
    {
        proof {
            reveal(Low::bind);
        }
        let boxed = self.is_boxed(id);
        self.ensure_local(id);
        if boxed {
            let cell = self.emit_value(Op::LocalGet(id), cell_type());
            self.emit_stmt(Op::CellSet(cell, v));
        } else {
            self.emit_stmt(Op::LocalSet(id, v));
        }
    }

    /// Give the captured symbols of this function their cells.
    fn entry_cells(&mut self)
        requires
            ready(*old(self)),
        ensures
            ready(*final(self)),
            kept(*old(self), *final(self)),
            final(self)@ == l_entry_cells(old(self).tables(), old(self)@, 0),
    {
        let ghost t = self.tables();
        let n: usize = self.res.symbols.len();
        let mut i: usize = 0;
        while i < n && i <= 4294967295
            invariant
                i <= n,
                n == t.res.symbols.len(),
                t == old(self).tables(),
                ready(*self),
                kept(*old(self), *self),
                l_entry_cells(t, self@, i as int) == l_entry_cells(t, old(self)@, 0),
            decreases n - i,
        {
            proof {
                unfold_l_entry_cells(t, self@, i as int);
            }
            let id: SymbolId = i as u32;
            if self.is_boxed(id) {
                let nil = self.emit_value(Op::ConstNil, Type::Nil);
                let cell = self.emit_value(Op::MakeCell(nil), cell_type());
                self.ensure_local(id);
                self.emit_stmt(Op::LocalSet(id, cell));
            }
            i += 1;
        }
        proof {
            unfold_l_entry_cells(t, self@, i as int);
        }
    }

    fn gather_cells(&mut self, ups: &Vec<SymbolId>) -> (r: Vec<ValueId>)
        requires
            ready(*old(self)),
        ensures
            ready(*final(self)),
            kept(*old(self), *final(self)),
            (final(self)@, r@) == l_cells(old(self).tables(), old(self)@, ups@, 0, Seq::empty()),
    {
        let ghost t = self.tables();
        let mut out: Vec<ValueId> = Vec::new();
        let mut i: usize = 0;
        while i < ups.len()
            invariant
                i <= ups@.len(),
                t == old(self).tables(),
                ready(*self),
                kept(*old(self), *self),
                l_cells(t, self@, ups@, i as int, out@) == l_cells(
                    t,
                    old(self)@,
                    ups@,
                    0,
                    Seq::empty(),
                ),
            decreases ups@.len() - i,
        {
            proof {
                unfold_l_cells(t, self@, ups@, i as int, out@);
            }
            let c = self.cell_of(ups[i]);
            out.push(c);
            i += 1;
        }
        proof {
            unfold_l_cells(t, self@, ups@, i as int, out@);
        }
        out
    }

    /// Queue a literal for lifting; yields its name.
    fn discover(&mut self, body: &'a FuncBody, ups: Vec<SymbolId>) -> (r: String)
        requires
            ready(*old(self)),
            decreases_to!(old(self).bound@ => body@),
        ensures
            ready(*final(self)),
            kept(*old(self), *final(self)),
            final(self)@ == l_found(old(self)@, body@, ups@),
            r@ == lifted_name(old(self)@.name, old(self)@.counter),
    {
        proof {
            reveal(FnLowerer::view);
            reveal(sound);
            reveal(inside);
            reveal(l_found);
        }
        let n = self.closure_counter;
        self.closure_counter = n.wrapping_add(1);
        let num = dec_string(n as u64);
        let name = cat3(self.name.as_str(), "$c", num.as_str());
        let p = Pending {
            name: name.clone(),
            body,
            depth: self.depth.wrapping_add(1),
            upvalues: ups,
        };
        self.discovered.push(p);
        assert(self@.found =~= old(self)@.found.push(p@));
        name
    }

    fn own_depth(&self) -> (r: usize)
        ensures
            r == self@.depth,
    {
        proof {
            reveal(FnLowerer::view);
        }
        self.depth
    }

    /// Lower a function literal: gather its upvalue cells, queue it for lifting under a fresh
    /// name, and emit the closure.
    fn lower_closure_literal(&mut self, body: &'a FuncBody) -> (r: ValueId)
        requires
            ready(*old(self)),
            decreases_to!(old(self).bound@ => body@),
        ensures
            ready(*final(self)),
            kept(*old(self), *final(self)),
            (final(self)@, r) == l_literal(old(self).tables(), old(self)@, body@),
            r < final(self)@.values.len(),
    {
        proof {
            reveal(l_literal);
        }
        let depth = self.own_depth().wrapping_add(1);
        let ups = upvalues(self.res, body, depth);
        let cells = self.gather_cells(&ups);
        let name = self.discover(body, ups);
        let fty = match self.types.function_literals.get(body.span) {
            Some(f) => Type::Function(f.dup()),
            None => Type::Error,
        };
        assert(fty@ == literal_type(self.tables(), body@.span));
        self.emit_value(Op::MakeClosure(name, cells), fty)
    }

    fn lower_params(&mut self, params: &'a Vec<Ident>) -> (r: Result<(), LowerError>)
        requires
            ready(*old(self)),
        ensures
            done(r, final(self)@) == l_params(
                old(self).tables(),
                old(self)@,
                idents_v(params@),
                0,
            ),
            r is Ok ==> ready(*final(self)) && kept(*old(self), *final(self)),
    {
        let ghost t = self.tables();
        let ghost ps = idents_v(params@);
        let mut i: usize = 0;
        while i < params.len()
            invariant
                i <= params@.len(),
                ps == idents_v(params@),
                t == old(self).tables(),
                ready(*self),
                kept(*old(self), *self),
                l_params(t, self@, ps, i as int) == l_params(t, old(self)@, ps, 0),
            decreases params@.len() - i,
        {
            proof {
                unfold_l_params(t, self@, ps, i as int);
            }
            let id = self.local_id(params[i].span)?;
            if self.is_boxed(id) {
                // A captured parameter: keep the incoming value in a parameter of its own,
                // then put it into the symbol's cell.
                let ty = self.symbol_type(id);
                let raw = self.fresh_temp(ty.dup());
                self.add_param(raw);
                self.ensure_local(id);
                let rawv = self.emit_value(Op::LocalGet(raw), ty);
                self.bind_local(id, rawv);
            } else {
                self.ensure_local(id);
                self.add_param(id);
            }
            i += 1;
        }
        proof {
            unfold_l_params(t, self@, ps, i as int);
        }
        Ok(())
    }

    /// Lower a block's statements into the current position. Yields whether control flow
    /// ended on every path out of the block.
    fn lower_block(&mut self, block: &'a AstBlock) -> (r: Result<bool, LowerError>)
        requires
            ready(*old(self)),
            decreases_to!(old(self).bound@ => block@),
        ensures
            done(r, final(self)@) == l_block(old(self).tables(), old(self)@, block@),
            r is Ok ==> ready(*final(self)) && kept(*old(self), *final(self)),
        decreases block, 1int,
    {
        proof {
            unfold_l_block(self.tables(), self@, block@);
            assert(decreases_to!(block@ => block@.stats));
        }
        if self.lower_stats(&block.stats)? {
            return Ok(true);
        }
        if let Some(ret) = &block.ret {
            let v = if ret.exprs.len() > 0 {
                proof {
                    assert(block@.ret->0.exprs == exprs_v(ret.exprs@));
                    assert(decreases_to!(block@ => block@.ret->0));
                    assert(decreases_to!(block@.ret->0 => exprs_v(ret.exprs@)));
                    assert(decreases_to!(exprs_v(ret.exprs@) => exprs_v(ret.exprs@)[0]));
                    assert(exprs_v(ret.exprs@)[0] == ret.exprs@[0]@);
                }
                Some(self.lower_expr(&ret.exprs[0])?)
            } else {
                None
            };
            self.terminate(Terminator::Return(v));
            return Ok(true);
        }
        Ok(false)
    }

    fn lower_stats(&mut self, stats: &'a Vec<Stat>) -> (r: Result<bool, LowerError>)
        requires
            ready(*old(self)),
            decreases_to!(old(self).bound@ => stats_v(stats@)),
        ensures
            done(r, final(self)@) == l_stats(
                old(self).tables(),
                old(self)@,
                stats_v(stats@),
                0,
            ),
            r is Ok ==> ready(*final(self)) && kept(*old(self), *final(self)),
        decreases stats, 0int,
    {
        let ghost t = self.tables();
        let ghost ss = stats_v(stats@);
        let mut i: usize = 0;
        while i < stats.len()
            invariant
                i <= stats@.len(),
                ss == stats_v(stats@),
                t == old(self).tables(),
                ready(*self),
                kept(*old(self), *self),
                decreases_to!(self.bound@ => ss),
                l_stats(t, self@, ss, i as int) == l_stats(t, old(self)@, ss, 0),
            decreases stats@.len() - i,
        {
            proof {
                unfold_l_stats(t, self@, ss, i as int);
                assert(decreases_to!(ss => ss[i as int]));
            }
            if self.lower_stat(&stats[i])? {
                return Ok(true);
            }
            i += 1;
        }
        proof {
            unfold_l_stats(t, self@, ss, i as int);
        }
        Ok(false)
    }

    fn bind_locals(&mut self, names: &'a Vec<Ident>, vals: &Vec<ValueId>) -> (r: Result<
        (),
        LowerError,
    >)
        requires
            ready(*old(self)),
        ensures
            done(r, final(self)@) == l_locals(
                old(self).tables(),
                old(self)@,
                idents_v(names@),
                vals@,
                0,
            ),
            r is Ok ==> ready(*final(self)) && kept(*old(self), *final(self)),
    {
        let ghost t = self.tables();
        let ghost ns = idents_v(names@);
        let mut i: usize = 0;
        while i < names.len()
            invariant
                i <= names@.len(),
                ns == idents_v(names@),
                t == old(self).tables(),
                ready(*self),
                kept(*old(self), *self),
                l_locals(t, self@, ns, vals@, i as int) == l_locals(t, old(self)@, ns, vals@, 0),
            decreases names@.len() - i,
        {
            proof {
                unfold_l_locals(t, self@, ns, vals@, i as int);
            }
            let id = self.local_id(names[i].span)?;
            let v = if i < vals.len() {
                vals[i]
            } else {
                self.emit_value(Op::ConstNil, Type::Nil)
            };
            self.bind_local(id, v);
            i += 1;
        }
        proof {
            unfold_l_locals(t, self@, ns, vals@, i as int);
        }
        Ok(())
    }

    fn lower_local_function(&mut self, name: &'a Ident, body: &'a FuncBody) -> (r: Result<
        bool,
        LowerError,
    >)
        requires
            ready(*old(self)),
            decreases_to!(old(self).bound@ => body@),
        ensures
            done(r, final(self)@) == l_local_function(
                old(self).tables(),
                old(self)@,
                name@,
                body@,
            ),
            r is Ok ==> ready(*final(self)) && kept(*old(self), *final(self)),
    {
        proof {
            reveal(l_local_function);
        }
        let id = self.local_id(name.span)?;
        // Safe for recursion: the cell is there, so that the closure can capture it; the closure
        // is then stored into that same cell.
        let clo = self.lower_closure_literal(body);
        self.bind_local(id, clo);
        Ok(false)
    }

    /// Lower a statement. Yields whether it ended control flow.
    fn lower_stat(&mut self, stat: &'a Stat) -> (r: Result<bool, LowerError>)
        requires
            ready(*old(self)),
            decreases_to!(old(self).bound@ => stat@),
        ensures
            done(r, final(self)@) == l_stat(old(self).tables(), old(self)@, stat@),
            r is Ok ==> ready(*final(self)) && kept(*old(self), *final(self)),
        decreases stat, 2int,
    {
        proof {
            unfold_l_stat(self.tables(), self@, stat@);
            assert(decreases_to!(stat@ => stat@.kind));
        }
        match &stat.kind {
            StatKind::Empty => Ok(false),
            StatKind::Break => {
                match self.loop_exit() {
                    None => Err(internal_error("`break` outside a loop")),
                    Some(exit) => {
                        self.terminate(Terminator::Jump(exit));
                        Ok(true)
                    },
                }
            },
            StatKind::Local { names, exprs } => {
                assert(decreases_to!(stat@.kind => exprs_v(exprs@)));
                let vals = self.lower_args(exprs)?;
                self.bind_locals(names, &vals)?;
                Ok(false)
            },
            StatKind::LocalFunction { name, body } => {
                assert(decreases_to!(stat@.kind => body@));
                self.lower_local_function(name, body)
            },
            StatKind::Assign { targets, exprs } => {
                assert(decreases_to!(stat@.kind => exprs_v(exprs@)));
                assert(decreases_to!(stat@.kind => exprs_v(targets@)));
                let vals = self.lower_args(exprs)?;
                self.lower_assigns(targets, &vals)?;
                Ok(false)
            },
            StatKind::Call(e) => {
                assert(decreases_to!(stat@.kind => e@));
                self.lower_expr(e)?;
                Ok(false)
            },
            StatKind::Do(block) => {
                assert(decreases_to!(stat@.kind => block@));
                self.lower_block(block)
            },
            StatKind::While { .. } => self.lower_while(stat),
            StatKind::If { .. } => self.lower_if(stat),
            StatKind::NumericFor { .. } => self.lower_numeric_for(stat),
            StatKind::GenericFor { .. } => self.lower_generic_for(stat),
        }
    }

    fn lower_assigns(&mut self, targets: &'a Vec<Expr>, vals: &Vec<ValueId>) -> (r: Result<
        (),
        LowerError,
    >)
        requires
            ready(*old(self)),
            decreases_to!(old(self).bound@ => exprs_v(targets@)),
        ensures
            done(r, final(self)@) == l_assigns(
                old(self).tables(),
                old(self)@,
                exprs_v(targets@),
                vals@,
                0,
            ),
            r is Ok ==> ready(*final(self)) && kept(*old(self), *final(self)),
    {
        let ghost t = self.tables();
        let ghost ts = exprs_v(targets@);
        let mut i: usize = 0;
        while i < targets.len()
            invariant
                i <= targets@.len(),
                ts == exprs_v(targets@),
                t == old(self).tables(),
                ready(*self),
                kept(*old(self), *self),
                decreases_to!(self.bound@ => ts),
                l_assigns(t, self@, ts, vals@, i as int) == l_assigns(t, old(self)@, ts, vals@, 0),
            decreases targets@.len() - i,
        {
            proof {
                unfold_l_assigns(t, self@, ts, vals@, i as int);
                assert(decreases_to!(ts => ts[i as int]));
            }
            if i >= vals.len() {
                return Err(internal_error("assignment target without a value"));
            }
            self.lower_assign(&targets[i], vals[i])?;
            i += 1;
        }
        proof {
            unfold_l_assigns(t, self@, ts, vals@, i as int);
        }
        Ok(())
    }

    fn lower_assign(&mut self, target: &'a Expr, v: ValueId) -> (r: Result<(), LowerError>)
        requires
            ready(*old(self)),
            decreases_to!(old(self).bound@ => target@),
        ensures
            done(r, final(self)@) == l_assign(old(self).tables(), old(self)@, target@, v),
            r is Ok ==> ready(*final(self)) && kept(*old(self), *final(self)),
    {
        proof {
            reveal(l_assign);
            assert(decreases_to!(target@ => target@.kind));
        }
        match &target.kind {
            ExprKind::Name(_) => {
                let res = self.res;
                let id: SymbolId = match res.binding(target.span) {
                    Some(Binding::Local(id)) => *id,
                    Some(Binding::Upvalue(id)) => *id,
                    _ => {
                        return Err(internal_error("assignment target is not a mutable local"));
                    },
                };
                self.write_symbol(id, v);
                Ok(())
            },
            ExprKind::Field { base, name } => {
                assert(decreases_to!(target@.kind => base@));
                let b = self.lower_expr(base)?;
                self.emit_stmt(Op::FieldSet(b, name.node.clone(), v));
                Ok(())
            },
            ExprKind::Index { base, index } => {
                assert(decreases_to!(target@.kind => base@));
                assert(decreases_to!(target@.kind => index@));
                let b = self.lower_expr(base)?;
                let idx = self.lower_expr(index)?;
                match self.object_type(b) {
                    Type::Array(_) => self.emit_stmt(Op::ArraySet(b, idx, v)),
                    Type::MapOf(_) => self.emit_stmt(Op::MapSet(b, idx, v)),
                    other => {
                        let shown = other.to_string();
                        return Err(
                            LowerError::Internal(
                                cat2("index-assign to a non-array/map type ", shown.as_str()),
                            ),
                        );
                    },
                }
                Ok(())
            },
            _ => Err(internal_error("invalid assignment target")),
        }
    }

    fn lower_body(&mut self, body: &'a AstBlock, exit: BlockId, next: BlockId) -> (r: Result<
        (),
        LowerError,
    >)
        requires
            ready(*old(self)),
            decreases_to!(old(self).bound@ => body@),
            exit < old(self)@.blocks.len(),
            next < old(self)@.blocks.len(),
        ensures
            done(r, final(self)@) == l_body(old(self).tables(), old(self)@, body@, exit, next),
            r is Ok ==> ready(*final(self)) && kept(*old(self), *final(self)),
        decreases body, 2int,
    {
        proof {
            unfold_l_body(self.tables(), self@, body@, exit, next);
        }
        self.enter_loop(exit);
        let terminated = self.lower_block(body)?;
        self.leave_loop();
        assert(self@.exits =~= old(self)@.exits);
        if !terminated {
            self.terminate(Terminator::Jump(next));
        }
        Ok(())
    }

    fn lower_while(&mut self, stat: &'a Stat) -> (r: Result<bool, LowerError>)
        requires
            ready(*old(self)),
            decreases_to!(old(self).bound@ => stat@),
        ensures
            done(r, final(self)@) == l_while(old(self).tables(), old(self)@, stat@),
            r is Ok ==> ready(*final(self)) && kept(*old(self), *final(self)),
        decreases stat, 1int,
    {
        proof {
            unfold_l_while(self.tables(), self@, stat@);
            assert(decreases_to!(stat@ => stat@.kind));
        }
        if let StatKind::While { cond, body } = &stat.kind {
            assert(decreases_to!(stat@.kind => cond@));
            assert(decreases_to!(stat@.kind => body@));
            let header = self.new_block();
            let body_b = self.new_block();
            let exit = self.new_block();
            self.terminate(Terminator::Jump(header));
            self.switch(header);
            let c = self.lower_expr(cond)?;
            self.terminate(Terminator::Branch { cond: c, then_blk: body_b, else_blk: exit });
            self.switch(body_b);
            self.lower_body(body, exit, header)?;
            self.switch(exit);
            Ok(false)
        } else {
            Err(internal_error("not a while loop"))
        }
    }

    fn lower_arm(&mut self, arm: &'a (Expr, AstBlock)) -> (r: Result<Option<BlockId>, LowerError>)
        requires
            ready(*old(self)),
            decreases_to!(old(self).bound@ => (arm.0@, arm.1@)),
        ensures
            done(r, final(self)@) == l_arm(old(self).tables(), old(self)@, (arm.0@, arm.1@)),
            r is Ok ==> ready(*final(self)) && kept(*old(self), *final(self)),
            r matches Ok(Some(b)) ==> b < final(self)@.blocks.len(),
        decreases arm, 0int,
    {
        let ghost av = (arm.0@, arm.1@);
        proof {
            unfold_l_arm(self.tables(), self@, av);
            assert(decreases_to!(av => av.0));
            assert(decreases_to!(av => av.1));
        }
        let c = self.lower_expr(&arm.0)?;
        let body_b = self.new_block();
        let next_b = self.new_block();
        self.terminate(Terminator::Branch { cond: c, then_blk: body_b, else_blk: next_b });
        self.switch(body_b);
        let terminated = self.lower_block(&arm.1)?;
        let fall = if terminated {
            None
        } else {
            let cur = self.current_block();
            proof {
                lemma_cut(cur);
            }
            Some(#[verifier::truncate] (cur as u32))
        };
        self.switch(next_b);
        Ok(fall)
    }

    fn lower_arms(&mut self, arms: &'a Vec<(Expr, AstBlock)>) -> (r: Result<
        Vec<BlockId>,
        LowerError,
    >)
        requires
            ready(*old(self)),
            decreases_to!(old(self).bound@ => arms_v(arms@)),
        ensures
            done_values(r, final(self)@) == l_arms(
                old(self).tables(),
                old(self)@,
                arms_v(arms@),
                0,
                Seq::empty(),
            ),
            r is Ok ==> ready(*final(self)) && kept(*old(self), *final(self)),
            r matches Ok(bs) ==> forall|k: int|
                0 <= k < bs@.len() ==> (#[trigger] bs@[k]) < final(self)@.blocks.len(),
        decreases arms, 0int,
    {
        let ghost t = self.tables();
        let ghost av = arms_v(arms@);
        let mut out: Vec<BlockId> = Vec::new();
        let mut i: usize = 0;
        while i < arms.len()
            invariant
                i <= arms@.len(),
                av == arms_v(arms@),
                t == old(self).tables(),
                ready(*self),
                kept(*old(self), *self),
                decreases_to!(self.bound@ => av),
                forall|k: int|
                    0 <= k < out@.len() ==> (#[trigger] out@[k]) < self@.blocks.len(),
                l_arms(t, self@, av, i as int, out@) == l_arms(t, old(self)@, av, 0, Seq::empty()),
            decreases arms@.len() - i,
        {
            proof {
                unfold_l_arms(t, self@, av, i as int, out@);
                assert(decreases_to!(av => av[i as int]));
                assert(decreases_to!(arms => arms@[i as int]));
            }
            if let Some(b) = self.lower_arm(&arms[i])? {
                out.push(b);
            }
            i += 1;
        }
        proof {
            unfold_l_arms(t, self@, av, i as int, out@);
        }
        Ok(out)
    }

    /// Join the blocks that fall through; yields whether there are none.
    fn merge(&mut self, falls: &Vec<BlockId>) -> (r: bool)
        requires
            ready(*old(self)),
            forall|k: int|
                0 <= k < falls@.len() ==> (#[trigger] falls@[k]) < old(self)@.blocks.len(),
        ensures
            ready(*final(self)),
            kept(*old(self), *final(self)),
            (final(self)@, r) == l_merge(old(self)@, falls@),
    {
        proof {
            reveal(l_merge);
        }
        if falls.len() == 0 {
            // Every path returned.
            return true;
        }
        let merge = self.new_block();
        let ghost st1 = self@;
        let mut i: usize = 0;
        while i < falls.len()
            invariant
                i <= falls@.len(),
                ready(*self),
                kept(*old(self), *self),
                merge < self@.blocks.len(),
                forall|k: int|
                    0 <= k < falls@.len() ==> (#[trigger] falls@[k]) < old(self)@.blocks.len(),
                l_join(self@, falls@, merge, i as int) == l_join(st1, falls@, merge, 0),
            decreases falls@.len() - i,
        {
            proof {
                unfold_l_join(self@, falls@, merge, i as int);
            }
            self.set_term(falls[i] as usize, Terminator::Jump(merge));
            i += 1;
        }
        proof {
            unfold_l_join(self@, falls@, merge, i as int);
        }
        self.switch(merge);
        false
    }

    fn lower_if(&mut self, stat: &'a Stat) -> (r: Result<bool, LowerError>)
        requires
            ready(*old(self)),
            decreases_to!(old(self).bound@ => stat@),
        ensures
            done(r, final(self)@) == l_if(old(self).tables(), old(self)@, stat@),
            r is Ok ==> ready(*final(self)) && kept(*old(self), *final(self)),
        decreases stat, 1int,
    {
        proof {
            unfold_l_if(self.tables(), self@, stat@);
            assert(decreases_to!(stat@ => stat@.kind));
        }
        if let StatKind::If { arms, else_block } = &stat.kind {
            assert(decreases_to!(stat@.kind => arms_v(arms@)));
            let mut falls = self.lower_arms(arms)?;
            // After the arm chain, the current block is the final else position.
            let open = match else_block {
                Some(eb) => {
                    proof {
                        assert(stat@.kind->else_block == Some(eb@));
                        assert(decreases_to!(stat@.kind => stat@.kind->else_block->0));
                    }
                    !self.lower_block(eb)?
                },
                None => true,
            };
            if open {
                let cur = self.current_block();
                proof {
                    lemma_cut(cur);
                }
                falls.push(#[verifier::truncate] (cur as u32));
            }
            Ok(self.merge(&falls))
        } else {
            Err(internal_error("not a conditional"))
        }
    }

    fn lower_range(&mut self, start: &'a Expr, end: &'a Expr, step: &'a Option<Expr>) -> (r: Result<
        (ValueId, LocalId, LocalId),
        LowerError,
    >)
        requires
            ready(*old(self)),
            decreases_to!(old(self).bound@ => start@),
            decreases_to!(old(self).bound@ => end@),
            step matches Some(e) ==> decreases_to!(old(self).bound@ => e@),
        ensures
            done(r, final(self)@) == l_range(
                old(self).tables(),
                old(self)@,
                start@,
                end@,
                match *step {
                    Some(e) => Some(e@),
                    None => None,
                },
            ),
            r is Ok ==> ready(*final(self)) && kept(*old(self), *final(self)),
    {
        proof {
            reveal(l_range);
            reveal(l_step);
        }
        let start_v = self.lower_expr(start)?;
        let end_l = self.fresh_temp(Type::Number);
        let end_v = self.lower_expr(end)?;
        self.emit_stmt(Op::LocalSet(end_l, end_v));
        let step_l = self.fresh_temp(Type::Number);
        let step_v = match step {
            Some(e) => self.lower_expr(e)?,
            None => self.emit_value(number("1"), Type::Number),
        };
        self.emit_stmt(Op::LocalSet(step_l, step_v));
        Ok((start_v, end_l, step_l))
    }

    fn ordered(&mut self, x: LocalId, yes: BlockId, no: BlockId)
        requires
            ready(*old(self)),
            yes < old(self)@.blocks.len(),
            no < old(self)@.blocks.len(),
        ensures
            ready(*final(self)),
            kept(*old(self), *final(self)),
            final(self)@ == l_ordered(old(self)@, x, yes, no),
    {
        proof {
            reveal(l_ordered);
        }
        let l = self.emit_value(Op::LocalGet(x), Type::Number);
        let r = self.emit_value(Op::LocalGet(x), Type::Number);
        let cond = self.emit_value(Op::Binary(BinOp::Eq, l, r), Type::Bool);
        self.terminate(Terminator::Branch { cond, then_blk: yes, else_blk: no });
    }

    fn bound_check(
        &mut self,
        counter: LocalId,
        end: LocalId,
        op: BinOp,
        body_b: BlockId,
        exit: BlockId,
    )
        requires
            ready(*old(self)),
            body_b < old(self)@.blocks.len(),
            exit < old(self)@.blocks.len(),
        ensures
            ready(*final(self)),
            kept(*old(self), *final(self)),
            final(self)@ == l_bound_check(old(self)@, counter, end, op, body_b, exit),
    {
        proof {
            reveal(l_bound_check);
        }
        let i = self.emit_value(Op::LocalGet(counter), Type::Number);
        let e = self.emit_value(Op::LocalGet(end), Type::Number);
        let cond = self.emit_value(Op::Binary(op, i, e), Type::Bool);
        self.terminate(Terminator::Branch { cond, then_blk: body_b, else_blk: exit });
    }

    fn step_sign(&mut self, step: LocalId, pos: BlockId, neg: BlockId)
        requires
            ready(*old(self)),
            pos < old(self)@.blocks.len(),
            neg < old(self)@.blocks.len(),
        ensures
            ready(*final(self)),
            kept(*old(self), *final(self)),
            final(self)@ == l_step_sign(old(self)@, step, pos, neg),
    {
        proof {
            reveal(l_step_sign);
        }
        let s = self.emit_value(Op::LocalGet(step), Type::Number);
        let zero = self.emit_value(number("0"), Type::Number);
        let cond = self.emit_value(Op::Binary(BinOp::Ge, s, zero), Type::Bool);
        self.terminate(Terminator::Branch { cond, then_blk: pos, else_blk: neg });
    }

    fn advance(&mut self, counter: LocalId, step: LocalId, header: BlockId)
        requires
            ready(*old(self)),
            header < old(self)@.blocks.len(),
        ensures
            ready(*final(self)),
            kept(*old(self), *final(self)),
            final(self)@ == l_advance(old(self)@, counter, step, header),
    {
        proof {
            reveal(l_advance);
        }
        let i = self.emit_value(Op::LocalGet(counter), Type::Number);
        let s = self.emit_value(Op::LocalGet(step), Type::Number);
        let next = self.emit_value(Op::Binary(BinOp::Add, i, s), Type::Number);
        self.emit_stmt(Op::LocalSet(counter, next));
        self.terminate(Terminator::Jump(header));
    }

    fn lower_numeric_for(&mut self, stat: &'a Stat) -> (r: Result<bool, LowerError>)
        requires
            ready(*old(self)),
            decreases_to!(old(self).bound@ => stat@),
        ensures
            done(r, final(self)@) == l_numeric_for(old(self).tables(), old(self)@, stat@),
            r is Ok ==> ready(*final(self)) && kept(*old(self), *final(self)),
        decreases stat, 1int,
    {
        proof {
            unfold_l_numeric_for(self.tables(), self@, stat@);
            assert(decreases_to!(stat@ => stat@.kind));
        }
        if let StatKind::NumericFor { var, start, end, step, body } = &stat.kind {
            proof {
                assert(decreases_to!(stat@.kind => start@));
                assert(decreases_to!(stat@.kind => end@));
                assert(decreases_to!(stat@.kind => body@));
                if let Some(e) = step {
                    assert(stat@.kind->step == Some(e@));
                    assert(decreases_to!(stat@.kind => stat@.kind->step->0));
                }
            }
            let id = self.local_id(var.span)?;
            self.ensure_local(id);
            let (start_v, end_l, step_l) = self.lower_range(start, end, step)?;
            // The loop counts for itself: the body may write to its variable.
            let counter = self.fresh_temp(Type::Number);
            self.emit_stmt(Op::LocalSet(counter, start_v));
            proof {
                reveal(l_loop_blocks);
                reveal(l_loop_test);
                reveal(l_loop_var);
            }
            let header = self.new_block();
            let bound = self.new_block();
            let step_b = self.new_block();
            let sign = self.new_block();
            let pos = self.new_block();
            let neg = self.new_block();
            let body_b = self.new_block();
            let latch = self.new_block();
            let exit = self.new_block();
            self.terminate(Terminator::Jump(header));
            // What does not compare ends the loop, or, as a step, counts as negative.
            self.switch(header);
            self.ordered(counter, bound, exit);
            self.switch(bound);
            self.ordered(end_l, step_b, exit);
            self.switch(step_b);
            self.ordered(step_l, sign, neg);
            self.switch(sign);
            self.step_sign(step_l, pos, neg);
            // counter <= end ?
            self.switch(pos);
            self.bound_check(counter, end_l, BinOp::Le, body_b, exit);
            // counter >= end ?
            self.switch(neg);
            self.bound_check(counter, end_l, BinOp::Ge, body_b, exit);
            self.switch(body_b);
            let v = self.emit_value(Op::LocalGet(counter), Type::Number);
            self.bind_local(id, v);
            self.lower_body(body, exit, latch)?;
            // counter = counter + step; back to the header.
            self.switch(latch);
            self.advance(counter, step_l, header);
            self.switch(exit);
            Ok(false)
        } else {
            Err(internal_error("not a numeric for"))
        }
    }

    fn lower_walk(&mut self, iter: &'a IterExpr) -> (r: Result<Walker, LowerError>)
        requires
            ready(*old(self)),
            decreases_to!(old(self).bound@ => iter@),
        ensures
            match r {
                Ok(w) => Ok::<(Low, Walk), LowerErrorV>((final(self)@, w@)),
                Err(e) => Err::<(Low, Walk), LowerErrorV>(e@),
            } == l_walk(old(self).tables(), old(self)@, iter@),
            r is Ok ==> ready(*final(self)) && kept(*old(self), *final(self)),
    {
        proof {
            reveal(l_walk);
        }
        let (arg, is_pairs) = match iter {
            IterExpr::IPairs { arg, .. } => {
                assert(decreases_to!(iter@ => arg@));
                (arg, false)
            },
            IterExpr::Pairs { arg, .. } => {
                assert(decreases_to!(iter@ => arg@));
                (arg, true)
            },
        };
        let arg_v = self.lower_expr(arg)?;
        let ty = self.value_type(arg_v);
        let val_ty = match self.object_type(arg_v) {
            Type::Array(e) => *e,
            Type::MapOf(v) => *v,
            _ => {
                let shown = ty.to_string();
                return Err(
                    LowerError::Internal(
                        cat2("generic for over a non-iterable type ", shown.as_str()),
                    ),
                );
            },
        };
        // The thing that is indexed: the array, or the snapshot of the map's keys.
        let seq_ty = if is_pairs {
            Type::array(Type::String)
        } else {
            ty.dup()
        };
        let (seq, map, vals) = self.keep_walked(arg_v, &ty, &val_ty, is_pairs);
        let s = self.emit_value(Op::LocalGet(seq), seq_ty.dup());
        let n = self.emit_value(Op::Unary(UnOp::Len, s), Type::Number);
        let len = self.fresh_temp(Type::Number);
        self.emit_stmt(Op::LocalSet(len, n));
        let idx = self.fresh_temp(Type::Number);
        self.first(idx);
        Ok(Walker { is_pairs, val_ty, seq_ty, seq, len, map, map_ty: ty, vals, idx })
    }

    fn first(&mut self, idx: LocalId)
        requires
            ready(*old(self)),
        ensures
            ready(*final(self)),
            kept(*old(self), *final(self)),
            final(self)@ == l_first(old(self)@, idx),
    {
        proof {
            reveal(l_first);
        }
        let one = self.emit_value(number("1"), Type::Number);
        self.emit_stmt(Op::LocalSet(idx, one));
    }

    fn keep_walked(&mut self, v: ValueId, ty: &Type, val_ty: &Type, is_pairs: bool) -> (r: (
        LocalId,
        LocalId,
        LocalId,
    ))
        requires
            ready(*old(self)),
        ensures
            ready(*final(self)),
            kept(*old(self), *final(self)),
            (final(self)@, r.0, r.1, r.2) == l_walked(old(self)@, v, ty@, val_ty@, is_pairs),
    {
        proof {
            reveal(l_walked);
        }
        if is_pairs {
            let seq = self.fresh_temp(Type::array(Type::String));
            let keys = self.emit_value(Op::MapKeys(v), Type::array(Type::String));
            self.emit_stmt(Op::LocalSet(seq, keys));
            let map = self.fresh_temp(ty.dup());
            self.emit_stmt(Op::LocalSet(map, v));
            let vals = self.fresh_temp(Type::array(val_ty.dup()));
            let none: Vec<ValueId> = Vec::new();
            assert(none@ =~= Seq::<ValueId>::empty());
            let empty = self.emit_value(Op::MakeArray(none), Type::array(val_ty.dup()));
            self.emit_stmt(Op::LocalSet(vals, empty));
            (seq, map, vals)
        } else {
            let seq = self.fresh_temp(ty.dup());
            self.emit_stmt(Op::LocalSet(seq, v));
            (seq, seq, seq)
        }
    }

    fn in_range(&mut self, w: &Walker, body_b: BlockId, exit: BlockId)
        requires
            ready(*old(self)),
            body_b < old(self)@.blocks.len(),
            exit < old(self)@.blocks.len(),
        ensures
            ready(*final(self)),
            kept(*old(self), *final(self)),
            final(self)@ == l_in_range(old(self)@, w@, body_b, exit),
    {
        proof {
            reveal(l_in_range);
        }
        let idx = self.emit_value(Op::LocalGet(w.idx), Type::Number);
        let len = self.emit_value(Op::LocalGet(w.len), Type::Number);
        let cond = self.emit_value(Op::Binary(BinOp::Le, idx, len), Type::Bool);
        self.terminate(Terminator::Branch { cond, then_blk: body_b, else_blk: exit });
    }

    fn item(&mut self, w: &Walker) -> (r: ValueId)
        requires
            ready(*old(self)),
        ensures
            ready(*final(self)),
            kept(*old(self), *final(self)),
            (final(self)@, r) == l_item(old(self)@, w@),
    {
        proof {
            reveal(l_item);
        }
        let idx = self.emit_value(Op::LocalGet(w.idx), Type::Number);
        let seq = self.emit_value(Op::LocalGet(w.seq), w.seq_ty.dup());
        let elem_ty = if w.is_pairs {
            Type::String
        } else {
            w.val_ty.dup()
        };
        self.emit_value(Op::ArrayGet(seq, idx), elem_ty)
    }

    fn keep(&mut self, w: &Walker)
        requires
            ready(*old(self)),
        ensures
            ready(*final(self)),
            kept(*old(self), *final(self)),
            final(self)@ == l_keep(old(self)@, w@),
    {
        proof {
            reveal(l_keep);
        }
        let key = self.item(w);
        let map = self.emit_value(Op::LocalGet(w.map), w.map_ty.dup());
        let v = self.emit_value(Op::MapGet(map, key), w.val_ty.dup());
        let vals = self.emit_value(Op::LocalGet(w.vals), Type::array(w.val_ty.dup()));
        let idx = self.emit_value(Op::LocalGet(w.idx), Type::Number);
        self.emit_stmt(Op::ArraySet(vals, idx, v));
    }

    fn snapshot(&mut self, w: &Walker)
        requires
            ready(*old(self)),
        ensures
            ready(*final(self)),
            kept(*old(self), *final(self)),
            final(self)@ == l_snapshot(old(self)@, w@),
    {
        proof {
            reveal(l_snapshot);
        }
        let header = self.new_block();
        let body_b = self.new_block();
        let exit = self.new_block();
        self.terminate(Terminator::Jump(header));
        self.switch(header);
        self.in_range(w, body_b, exit);
        self.switch(body_b);
        self.keep(w);
        self.count(w, header);
        self.switch(exit);
        self.first(w.idx);
    }

    fn walk_key(&mut self, w: &Walker, names: &'a Vec<Ident>, elem: ValueId) -> (r: Result<
        (),
        LowerError,
    >)
        requires
            ready(*old(self)),
        ensures
            done(r, final(self)@) == l_walk_key(
                old(self).tables(),
                old(self)@,
                w@,
                idents_v(names@),
                elem,
            ),
            r is Ok ==> ready(*final(self)) && kept(*old(self), *final(self)),
    {
        proof {
            reveal(l_walk_key);
        }
        if names.len() == 0 {
            return Ok(());
        }
        assert(idents_v(names@)[0] == names@[0]@);
        let id = self.local_id(names[0].span)?;
        self.ensure_local(id);
        let key = if w.is_pairs {
            elem
        } else {
            self.emit_value(Op::LocalGet(w.idx), Type::Number)
        };
        self.write_symbol(id, key);
        Ok(())
    }

    fn walk_value(&mut self, w: &Walker, names: &'a Vec<Ident>, elem: ValueId) -> (r: Result<
        (),
        LowerError,
    >)
        requires
            ready(*old(self)),
        ensures
            done(r, final(self)@) == l_walk_value(
                old(self).tables(),
                old(self)@,
                w@,
                idents_v(names@),
                elem,
            ),
            r is Ok ==> ready(*final(self)) && kept(*old(self), *final(self)),
    {
        proof {
            reveal(l_walk_value);
        }
        if names.len() <= 1 {
            return Ok(());
        }
        assert(idents_v(names@)[1] == names@[1]@);
        let id = self.local_id(names[1].span)?;
        self.ensure_local(id);
        let value = if w.is_pairs {
            let vals = self.emit_value(Op::LocalGet(w.vals), Type::array(w.val_ty.dup()));
            let idx = self.emit_value(Op::LocalGet(w.idx), Type::Number);
            self.emit_value(Op::ArrayGet(vals, idx), w.val_ty.dup())
        } else {
            elem
        };
        self.write_symbol(id, value);
        Ok(())
    }

    fn walk_bind(&mut self, w: &Walker, names: &'a Vec<Ident>) -> (r: Result<(), LowerError>)
        requires
            ready(*old(self)),
        ensures
            done(r, final(self)@) == l_walk_bind(
                old(self).tables(),
                old(self)@,
                w@,
                idents_v(names@),
            ),
            r is Ok ==> ready(*final(self)) && kept(*old(self), *final(self)),
    {
        proof {
            reveal(l_walk_bind);
        }
        let elem = self.item(w);
        self.walk_key(w, names, elem)?;
        self.walk_value(w, names, elem)
    }

    fn count(&mut self, w: &Walker, header: BlockId)
        requires
            ready(*old(self)),
            header < old(self)@.blocks.len(),
        ensures
            ready(*final(self)),
            kept(*old(self), *final(self)),
            final(self)@ == l_count(old(self)@, w@, header),
    {
        proof {
            reveal(l_count);
        }
        let idx = self.emit_value(Op::LocalGet(w.idx), Type::Number);
        let one = self.emit_value(number("1"), Type::Number);
        let next = self.emit_value(Op::Binary(BinOp::Add, idx, one), Type::Number);
        self.emit_stmt(Op::LocalSet(w.idx, next));
        self.terminate(Terminator::Jump(header));
    }

    fn lower_generic_for(&mut self, stat: &'a Stat) -> (r: Result<bool, LowerError>)
        requires
            ready(*old(self)),
            decreases_to!(old(self).bound@ => stat@),
        ensures
            done(r, final(self)@) == l_generic_for(old(self).tables(), old(self)@, stat@),
            r is Ok ==> ready(*final(self)) && kept(*old(self), *final(self)),
        decreases stat, 1int,
    {
        proof {
            unfold_l_generic_for(self.tables(), self@, stat@);
            assert(decreases_to!(stat@ => stat@.kind));
        }
        if let StatKind::GenericFor { names, iter, body } = &stat.kind {
            assert(decreases_to!(stat@.kind => iter@));
            assert(decreases_to!(stat@.kind => body@));
            let w = self.lower_walk(iter)?;
            // What the body does to the map does not show in the entries that are walked.
            if w.is_pairs {
                self.snapshot(&w);
            }
            let header = self.new_block();
            let body_b = self.new_block();
            let latch = self.new_block();
            let exit = self.new_block();
            self.terminate(Terminator::Jump(header));
            self.switch(header);
            self.in_range(&w, body_b, exit);
            self.switch(body_b);
            self.walk_bind(&w, names)?;
            self.lower_body(body, exit, latch)?;
            self.switch(latch);
            self.count(&w, header);
            self.switch(exit);
            Ok(false)
        } else {
            Err(internal_error("not a generic for"))
        }
    }

    fn lower_expr(&mut self, expr: &'a Expr) -> (r: Result<ValueId, LowerError>)
        requires
            ready(*old(self)),
            decreases_to!(old(self).bound@ => expr@),
        ensures
            done(r, final(self)@) == l_expr(old(self).tables(), old(self)@, expr@),
            r is Ok ==> ready(*final(self)) && kept(*old(self), *final(self)),
            r matches Ok(v) ==> v < final(self)@.values.len(),
        decreases expr, 3int,
    {
        proof {
            unfold_l_expr(self.tables(), self@, expr@);
            assert(decreases_to!(expr@ => expr@.kind));
        }
        match &expr.kind {
            ExprKind::Nil => Ok(self.emit_value(Op::ConstNil, Type::Nil)),
            ExprKind::Bool(b) => Ok(self.emit_value(Op::ConstBool(*b), Type::Bool)),
            ExprKind::Number(n) => Ok(self.emit_value(Op::ConstNumber(n.dup()), Type::Number)),
            ExprKind::Str(s) => Ok(self.emit_value(Op::ConstString(s.clone()), Type::String)),
            ExprKind::Paren(inner) => {
                assert(decreases_to!(expr@.kind => inner@));
                self.lower_expr(inner)
            },
            ExprKind::Name(_) => self.lower_name(expr.span),
            ExprKind::Function(body) => {
                assert(decreases_to!(expr@.kind => body@));
                Ok(self.lower_closure_literal(body))
            },
            ExprKind::Field { .. } => self.lower_field(expr),
            ExprKind::Index { .. } => self.lower_index(expr),
            ExprKind::Call { .. } => self.lower_call(expr),
            ExprKind::MethodCall { method, .. } => Err(
                LowerError::Unsupported(
                    cat3("method call `:", method.node.as_str(), "` is not lowered to IR yet"),
                ),
            ),
            ExprKind::Table(fields) => {
                assert(decreases_to!(expr@.kind => fields_v(fields@)));
                self.lower_table(fields)
            },
            ExprKind::Unary { op, operand } => {
                assert(decreases_to!(expr@.kind => operand@));
                let v = self.lower_expr(operand)?;
                let ty = match op {
                    UnOp::Neg => Type::Number,
                    UnOp::Not => Type::Bool,
                    UnOp::Len => Type::Number,
                };
                Ok(self.emit_value(Op::Unary(*op, v), ty))
            },
            ExprKind::Binary { op, lhs, rhs } => match op {
                BinOp::And => self.lower_short_circuit(expr),
                BinOp::Or => self.lower_short_circuit(expr),
                _ => {
                    assert(decreases_to!(expr@.kind => lhs@));
                    assert(decreases_to!(expr@.kind => rhs@));
                    let l = self.lower_expr(lhs)?;
                    let r = self.lower_expr(rhs)?;
                    let ty = match op {
                        BinOp::Add | BinOp::Sub | BinOp::Mul | BinOp::Div | BinOp::FloorDiv
                        | BinOp::Mod | BinOp::Pow => Type::Number,
                        BinOp::Concat => Type::String,
                        _ => Type::Bool,
                    };
                    Ok(self.emit_value(Op::Binary(*op, l, r), ty))
                },
            },
        }
    }

    fn lower_args(&mut self, args: &'a Vec<Expr>) -> (r: Result<Vec<ValueId>, LowerError>)
        requires
            ready(*old(self)),
            decreases_to!(old(self).bound@ => exprs_v(args@)),
        ensures
            done_values(r, final(self)@) == l_args(
                old(self).tables(),
                old(self)@,
                exprs_v(args@),
                0,
                Seq::empty(),
            ),
            r is Ok ==> ready(*final(self)) && kept(*old(self), *final(self)),
        decreases args, 0int,
    {
        let ghost t = self.tables();
        let ghost es = exprs_v(args@);
        let mut out: Vec<ValueId> = Vec::new();
        let mut i: usize = 0;
        while i < args.len()
            invariant
                i <= args@.len(),
                es == exprs_v(args@),
                t == old(self).tables(),
                ready(*self),
                kept(*old(self), *self),
                decreases_to!(self.bound@ => es),
                l_args(t, self@, es, i as int, out@) == l_args(t, old(self)@, es, 0, Seq::empty()),
            decreases args@.len() - i,
        {
            proof {
                unfold_l_args(t, self@, es, i as int, out@);
                assert(decreases_to!(es => es[i as int]));
            }
            let v = self.lower_expr(&args[i])?;
            out.push(v);
            i += 1;
        }
        proof {
            unfold_l_args(t, self@, es, i as int, out@);
        }
        Ok(out)
    }

    fn lower_name(&mut self, span: Span) -> (r: Result<ValueId, LowerError>)
        requires
            ready(*old(self)),
        ensures
            done(r, final(self)@) == l_name(old(self).tables(), old(self)@, span),
            r is Ok ==> ready(*final(self)) && kept(*old(self), *final(self)),
            r matches Ok(v) ==> v < final(self)@.values.len(),
    {
        proof {
            reveal(l_name);
        }
        let res = self.res;
        match res.binding(span) {
            None => Err(internal_error("unresolved name")),
            Some(b) => match b {
                Binding::Local(id) => Ok(self.read_symbol(*id)),
                Binding::Upvalue(id) => Ok(self.read_symbol(*id)),
                Binding::TopConst(n) => {
                    let ty = match self.types.constants.get(n.as_str()) {
                        Some(ty) => ty.dup(),
                        None => Type::Error,
                    };
                    Ok(self.emit_value(Op::ConstRef(n.clone()), ty))
                },
                Binding::Memory(n) => {
                    let ty = match self.cfg.memory.get(n.as_str()) {
                        Some(ty) => ty.dup(),
                        None => Type::Error,
                    };
                    Ok(self.emit_value(Op::MemoryRef(n.clone()), ty))
                },
                Binding::Builtin(ns) => Err(
                    LowerError::Internal(
                        cat3("builtin namespace `", ns, "` used as a value"),
                    ),
                ),
                _ => Err(
                    unsupported_error(
                        "using a named top-level or host function as a first-class value is not supported; only anonymous and `local function` closures are first-class",
                    ),
                ),
            },
        }
    }

    /// If `expr` is a bare name bound to a builtin namespace, return it.
    fn builtin_namespace(&self, expr: &Expr) -> (r: Option<&'static str>)
        ensures
            match r {
                Some(ns) => l_namespace(self.tables(), expr@) == Some(ns@),
                None => l_namespace(self.tables(), expr@) is None,
            },
    {
        if let ExprKind::Name(_) = &expr.kind {
            if let Some(Binding::Builtin(ns)) = self.res.binding(expr.span) {
                return Some(*ns);
            }
        }
        None
    }

    fn lower_field(&mut self, expr: &'a Expr) -> (r: Result<ValueId, LowerError>)
        requires
            ready(*old(self)),
            decreases_to!(old(self).bound@ => expr@),
        ensures
            done(r, final(self)@) == l_field(old(self).tables(), old(self)@, expr@),
            r is Ok ==> ready(*final(self)) && kept(*old(self), *final(self)),
            r matches Ok(v) ==> v < final(self)@.values.len(),
        decreases expr, 2int,
    {
        proof {
            unfold_l_field(self.tables(), self@, expr@);
            assert(decreases_to!(expr@ => expr@.kind));
        }
        if let ExprKind::Field { base, name } = &expr.kind {
            assert(decreases_to!(expr@.kind => base@));
            if let Some(ns) = self.builtin_namespace(base) {
                let ty = match namespace_field_type(ns, name.node.as_str()) {
                    Some(ty) => ty,
                    None => Type::Error,
                };
                return Ok(self.emit_value(Op::NamespaceField(own(ns), name.node.clone()), ty));
            }
            let b = self.lower_expr(base)?;
            let ty = match self.object_type(b) {
                Type::Record(fields) => match fields.get(name.node.as_str()) {
                    Some(ty) => ty.dup(),
                    None => Type::Error,
                },
                Type::MapOf(v) => Type::Optional(v),
                _ => Type::Error,
            };
            Ok(self.emit_value(Op::FieldGet(b, name.node.clone()), ty))
        } else {
            Err(internal_error("not a field read"))
        }
    }

    fn lower_index(&mut self, expr: &'a Expr) -> (r: Result<ValueId, LowerError>)
        requires
            ready(*old(self)),
            decreases_to!(old(self).bound@ => expr@),
        ensures
            done(r, final(self)@) == l_index(old(self).tables(), old(self)@, expr@),
            r is Ok ==> ready(*final(self)) && kept(*old(self), *final(self)),
            r matches Ok(v) ==> v < final(self)@.values.len(),
        decreases expr, 2int,
    {
        proof {
            unfold_l_index(self.tables(), self@, expr@);
            assert(decreases_to!(expr@ => expr@.kind));
        }
        if let ExprKind::Index { base, index } = &expr.kind {
            assert(decreases_to!(expr@.kind => base@));
            assert(decreases_to!(expr@.kind => index@));
            let b = self.lower_expr(base)?;
            let idx = self.lower_expr(index)?;
            match self.object_type(b) {
                Type::Array(e) => Ok(self.emit_value(Op::ArrayGet(b, idx), Type::Optional(e))),
                Type::MapOf(v) => Ok(self.emit_value(Op::MapGet(b, idx), Type::Optional(v))),
                Type::Record(fields) => {
                    // A record indexed by a string literal: read the field.
                    if let ExprKind::Str(key) = &index.kind {
                        let ty = match fields.get(key.as_str()) {
                            Some(ty) => ty.dup(),
                            None => Type::Error,
                        };
                        Ok(self.emit_value(Op::FieldGet(b, key.clone()), ty))
                    } else {
                        Err(internal_error("record indexed by a non-literal key"))
                    }
                },
                other => {
                    let shown = other.to_string();
                    Err(LowerError::Internal(cat2("indexing a ", shown.as_str())))
                },
            }
        } else {
            Err(internal_error("not an index read"))
        }
    }

    /// The operation that calls something with a name, and the type of its result; none for a
    /// first-class function value.
    fn named_call(&self, callee: &Expr) -> (r: Option<NamedCall>)
        ensures
            match r {
                Some(c) => callee_of(self.tables(), callee@) == c@ && !(c@ is Closure),
                None => callee_of(self.tables(), callee@) is Closure,
            },
    {
        match &callee.kind {
            ExprKind::Name(_) => match self.res.binding(callee.span) {
                Some(Binding::Builtin(ns)) => Some(NamedCall::Value(own(ns))),
                Some(Binding::TopFunction(n)) => Some(NamedCall::Script(n.clone())),
                Some(Binding::HostFunction(n)) => Some(NamedCall::Host(n.clone())),
                _ => None,
            },
            ExprKind::Field { base, name } => match self.builtin_namespace(base) {
                Some(ns) => Some(NamedCall::Member(own(ns), name.node.clone())),
                None => None,
            },
            _ => None,
        }
    }

    fn emit_named(&mut self, c: NamedCall, args: Vec<ValueId>) -> (r: ValueId)
        requires
            ready(*old(self)),
        ensures
            ready(*final(self)),
            kept(*old(self), *final(self)),
            ({
                let (op, ty) = call_op(old(self).tables(), c@, args@);
                (final(self)@, r) == old(self)@.emit(op, ty)
            }),
            r < final(self)@.values.len(),
    {
        match c {
            NamedCall::Value(ns) => {
                let ty = match value_sig(ns.as_str()) {
                    Some(s) => s.ret,
                    None => Type::Error,
                };
                self.emit_value(Op::CallBuiltinValue(ns, args), ty)
            },
            NamedCall::Member(ns, m) => {
                let ty = match member_sig(ns.as_str(), m.as_str()) {
                    Some(s) => s.ret,
                    None => Type::Error,
                };
                self.emit_value(Op::CallBuiltinMember(ns, m, args), ty)
            },
            NamedCall::Script(n) => {
                let ty = match self.types.functions.get(n.as_str()) {
                    Some(f) => f.ret.dup(),
                    None => Type::Error,
                };
                self.emit_value(Op::CallScript(n, args), ty)
            },
            NamedCall::Host(n) => {
                let ty = match self.cfg.host_functions.get(n.as_str()) {
                    Some(f) => f.ret.dup(),
                    None => Type::Error,
                };
                self.emit_value(Op::CallHost(n, args), ty)
            },
        }
    }

    fn lower_call(&mut self, expr: &'a Expr) -> (r: Result<ValueId, LowerError>)
        requires
            ready(*old(self)),
            decreases_to!(old(self).bound@ => expr@),
        ensures
            done(r, final(self)@) == l_call(old(self).tables(), old(self)@, expr@),
            r is Ok ==> ready(*final(self)) && kept(*old(self), *final(self)),
            r matches Ok(v) ==> v < final(self)@.values.len(),
        decreases expr, 2int,
    {
        proof {
            unfold_l_call(self.tables(), self@, expr@);
            assert(decreases_to!(expr@ => expr@.kind));
        }
        if let ExprKind::Call { callee, args } = &expr.kind {
            assert(decreases_to!(expr@.kind => callee@));
            assert(decreases_to!(expr@.kind => exprs_v(args@)));
            assert(expr@.kind == (ExprKindV::Call {
                callee: Box::new(callee@),
                args: exprs_v(args@),
            }));
            match self.named_call(callee) {
                Some(c) => {
                    let argv = self.lower_args(args)?;
                    Ok(self.emit_named(c, argv))
                },
                None => {
                    // A first-class function value: evaluate it and call it indirectly.
                    let cv = self.lower_expr(callee)?;
                    let ret = match self.object_type(cv) {
                        Type::Function(ft) => {
                            assert(ft@ == (FnTypeV {
                                params: types_v(ft.params@),
                                ret: Box::new(ft.ret@),
                            }));
                            *ft.ret
                        },
                        _ => Type::Error,
                    };
                    let argv = self.lower_args(args)?;
                    Ok(self.emit_value(Op::CallValue(cv, argv), ret))
                },
            }
        } else {
            Err(internal_error("not a call"))
        }
    }

    fn lower_elements(&mut self, fields: &'a Vec<Field>) -> (r: Result<
        (Vec<ValueId>, Type),
        LowerError,
    >)
        requires
            ready(*old(self)),
            decreases_to!(old(self).bound@ => fields_v(fields@)),
        ensures
            match r {
                Ok(x) => Ok::<(Low, (Seq<ValueId>, TypeV)), LowerErrorV>(
                    (final(self)@, (x.0@, x.1@)),
                ),
                Err(e) => Err::<(Low, (Seq<ValueId>, TypeV)), LowerErrorV>(e@),
            } == l_elements(
                old(self).tables(),
                old(self)@,
                fields_v(fields@),
                0,
                Seq::empty(),
                TypeV::Error,
            ),
            r is Ok ==> ready(*final(self)) && kept(*old(self), *final(self)),
        decreases fields, 0int,
    {
        let ghost t = self.tables();
        let ghost fs = fields_v(fields@);
        let mut elems: Vec<ValueId> = Vec::new();
        let mut ty = Type::Error;
        let mut i: usize = 0;
        while i < fields.len()
            invariant
                i <= fields@.len(),
                fs == fields_v(fields@),
                t == old(self).tables(),
                ready(*self),
                kept(*old(self), *self),
                decreases_to!(self.bound@ => fs),
                l_elements(t, self@, fs, i as int, elems@, ty@) == l_elements(
                    t,
                    old(self)@,
                    fs,
                    0,
                    Seq::empty(),
                    TypeV::Error,
                ),
            decreases fields@.len() - i,
        {
            proof {
                unfold_l_elements(t, self@, fs, i as int, elems@, ty@);
                assert(decreases_to!(fs => fs[i as int]));
            }
            if let Field::Positional(e) = &fields[i] {
                assert(decreases_to!(fs[i as int] => e@));
                let v = self.lower_expr(e)?;
                ty = self.value_type(v);
                elems.push(v);
            }
            i += 1;
        }
        proof {
            unfold_l_elements(t, self@, fs, i as int, elems@, ty@);
        }
        Ok((elems, ty))
    }

    fn lower_pairs(&mut self, fields: &'a Vec<Field>) -> (r: Result<
        (Vec<(String, ValueId)>, Fields),
        LowerError,
    >)
        requires
            ready(*old(self)),
            decreases_to!(old(self).bound@ => fields_v(fields@)),
        ensures
            match r {
                Ok(x) => Ok::<
                    (Low, (Seq<(Seq<char>, ValueId)>, Seq<(Seq<char>, TypeV)>)),
                    LowerErrorV,
                >((final(self)@, (pairs_v(x.0@), x.1@))),
                Err(e) => Err::<
                    (Low, (Seq<(Seq<char>, ValueId)>, Seq<(Seq<char>, TypeV)>)),
                    LowerErrorV,
                >(e@),
            } == l_pairs(
                old(self).tables(),
                old(self)@,
                fields_v(fields@),
                0,
                Seq::empty(),
                Seq::empty(),
            ),
            r is Ok ==> ready(*final(self)) && kept(*old(self), *final(self)),
        decreases fields, 0int,
    {
        let ghost t = self.tables();
        let ghost fs = fields_v(fields@);
        let mut pairs: Vec<(String, ValueId)> = Vec::new();
        let mut rec = Fields::new();
        assert(pairs_v(pairs@) =~= Seq::<(Seq<char>, ValueId)>::empty());
        let mut i: usize = 0;
        while i < fields.len()
            invariant
                i <= fields@.len(),
                fs == fields_v(fields@),
                t == old(self).tables(),
                ready(*self),
                kept(*old(self), *self),
                decreases_to!(self.bound@ => fs),
                l_pairs(t, self@, fs, i as int, pairs_v(pairs@), rec@) == l_pairs(
                    t,
                    old(self)@,
                    fs,
                    0,
                    Seq::empty(),
                    Seq::empty(),
                ),
            decreases fields@.len() - i,
        {
            proof {
                unfold_l_pairs(t, self@, fs, i as int, pairs_v(pairs@), rec@);
                assert(decreases_to!(fs => fs[i as int]));
            }
            let ghost p0 = pairs@;
            match &fields[i] {
                Field::Named { name, value } => {
                    assert(decreases_to!(fs[i as int] => value@));
                    let v = self.lower_expr(value)?;
                    let ty = self.value_type(v);
                    rec.insert(name.node.clone(), ty);
                    pairs.push((name.node.clone(), v));
                    assert(pairs_v(pairs@) =~= pairs_v(p0).push((name@.node, v)));
                },
                Field::Keyed { key, value } => {
                    assert(decreases_to!(fs[i as int] => value@));
                    assert(key@.kind == key.kind@);
                    if let ExprKind::Str(k) = &key.kind {
                        let v = self.lower_expr(value)?;
                        pairs.push((k.clone(), v));
                        assert(pairs_v(pairs@) =~= pairs_v(p0).push((k@, v)));
                    } else {
                        return Err(internal_error("non-literal map key reached lowering"));
                    }
                },
                Field::Positional(_) => {
                    return Err(internal_error("mixed table shape"));
                },
            }
            i += 1;
        }
        proof {
            unfold_l_pairs(t, self@, fs, i as int, pairs_v(pairs@), rec@);
        }
        Ok((pairs, rec))
    }

    fn lower_table(&mut self, fields: &'a Vec<Field>) -> (r: Result<ValueId, LowerError>)
        requires
            ready(*old(self)),
            decreases_to!(old(self).bound@ => fields_v(fields@)),
        ensures
            done(r, final(self)@) == l_table(old(self).tables(), old(self)@, fields_v(fields@)),
            r is Ok ==> ready(*final(self)) && kept(*old(self), *final(self)),
            r matches Ok(v) ==> v < final(self)@.values.len(),
        decreases fields, 1int,
    {
        proof {
            unfold_l_table(self.tables(), self@, fields_v(fields@));
        }
        if table_shape(fields).0 {
            let (elems, ty) = self.lower_elements(fields)?;
            Ok(self.emit_value(Op::MakeArray(elems), Type::array(ty)))
        } else {
            let (pairs, rec) = self.lower_pairs(fields)?;
            // Record literals get a record type; the checker keeps the shapes from mixing.
            let ty = if rec.len() == pairs.len() {
                Type::Record(rec)
            } else {
                Type::Error
            };
            Ok(self.emit_value(Op::MakeTable(pairs), ty))
        }
    }

    /// Short-circuiting `and` / `or`: a branch and a result temporary.
    fn lower_short_circuit(&mut self, expr: &'a Expr) -> (r: Result<ValueId, LowerError>)
        requires
            ready(*old(self)),
            decreases_to!(old(self).bound@ => expr@),
        ensures
            done(r, final(self)@) == l_short_circuit(old(self).tables(), old(self)@, expr@),
            r is Ok ==> ready(*final(self)) && kept(*old(self), *final(self)),
            r matches Ok(v) ==> v < final(self)@.values.len(),
        decreases expr, 2int,
    {
        proof {
            unfold_l_short_circuit(self.tables(), self@, expr@);
            assert(decreases_to!(expr@ => expr@.kind));
        }
        if let ExprKind::Binary { op, lhs, rhs } = &expr.kind {
            assert(decreases_to!(expr@.kind => lhs@));
            assert(decreases_to!(expr@.kind => rhs@));
            let l = self.lower_expr(lhs)?;
            let ty = self.value_type(l);
            let result = self.fresh_temp(ty.dup());
            self.emit_stmt(Op::LocalSet(result, l));
            let cond = self.emit_value(Op::Truthy(l), Type::Bool);
            let rhs_b = self.new_block();
            let merge = self.new_block();
            // `and`: evaluate the right side when the left is truthy. `or`: when it is falsy.
            let branch = if *op == BinOp::And {
                Terminator::Branch { cond, then_blk: rhs_b, else_blk: merge }
            } else {
                Terminator::Branch { cond, then_blk: merge, else_blk: rhs_b }
            };
            self.terminate(branch);
            self.switch(rhs_b);
            let r = self.lower_expr(rhs)?;
            self.emit_stmt(Op::LocalSet(result, r));
            self.terminate(Terminator::Jump(merge));
            self.switch(merge);
            Ok(self.emit_value(Op::LocalGet(result), ty))
        } else {
            Err(internal_error("not a short-circuit operator"))
        }
    }

    /// Lower parameters and body, and finish the function.
    fn lower_whole(self, body: &'a FuncBody) -> (r: Result<
        (Function, Vec<Pending<'a>>),
        LowerError,
    >)
        requires
            ready(self),
            self.bound@ == body@,
        ensures
            whole(r) == l_whole(self.tables(), self@, body@),
            r matches Ok(x) ==> found_inside(x.1@, body@) && (fits(x.0@) ==> function_ok(x.0@)),
    {
        let ghost t = self.tables();
        proof {
            reveal(l_whole);
            assert(decreases_to!(body@ => body@.block));
            assert(body@.params == idents_v(body.params@));
            assert(body@.block == body.block@);
        }
        let mut fl = self;
        fl.entry_cells();
        fl.lower_params(&body.params)?;
        let terminated = fl.lower_block(&body.block)?;
        if !terminated {
            fl.terminate(Terminator::Return(None));
        }
        let ghost st = fl@;
        let out = fl.finish();
        proof {
            reveal(inside);
            assert forall|k: int| 0 <= k < out.1@.len() implies decreases_to!(body@ => (
            #[trigger] out.1@[k])@.body) by {
                assert(st.found[k] == out.1@[k]@);
            }
        }
        Ok(out)
    }
}

/// Whether the numbers of blocks and values fit their ids.
pub open spec fn fits(f: FunctionV) -> bool {
    f.blocks.len() <= u32::MAX && f.values.len() <= u32::MAX
}

spec fn found_inside(v: Seq<Pending>, body: FuncBodyV) -> bool {
    forall|k: int| 0 <= k < v.len() ==> decreases_to!(body => (#[trigger] v[k])@.body)
}

spec fn whole(r: Result<(Function, Vec<Pending>), LowerError>) -> Result<
    (FunctionV, Seq<PendingV>),
    LowerErrorV,
> {
    match r {
        Ok(x) => Ok((x.0@, pendings_v(x.1@))),
        Err(e) => Err(e@),
    }
}

/// Something with a name that is called.
enum NamedCall {
    Value(String),
    Member(String, String),
    Script(String),
    Host(String),
}

impl View for NamedCall {
    type V = Callee;

    closed spec fn view(&self) -> Callee {
        match self {
            NamedCall::Value(s) => Callee::Value(s@),
            NamedCall::Member(s, m) => Callee::Member(s@, m@),
            NamedCall::Script(s) => Callee::Script(s@),
            NamedCall::Host(s) => Callee::Host(s@),
        }
    }
}

/// The temporaries of a generic `for`.
struct Walker {
    is_pairs: bool,
    val_ty: Type,
    seq_ty: Type,
    seq: LocalId,
    len: LocalId,
    map: LocalId,
    map_ty: Type,
    vals: LocalId,
    idx: LocalId,
}

impl View for Walker {
    type V = Walk;

    closed spec fn view(&self) -> Walk {
        Walk {
            is_pairs: self.is_pairs,
            val_ty: self.val_ty@,
            seq_ty: self.seq_ty@,
            seq: self.seq,
            len: self.len,
            map: self.map,
            map_ty: self.map_ty@,
            vals: self.vals,
            idx: self.idx,
        }
    }
}

fn lower_function<'a>(
    name: &String,
    body: &'a FuncBody,
    res: &'a Resolution,
    types: &'a TypeInfo,
    cfg: &'a TypeConfig,
) -> (r: Result<(Function, Vec<Pending<'a>>), LowerError>)
    ensures
        whole(r) == l_function(
            (Tables { res: res@, types: types@, cfg: cfg@ }),
            name@,
            body@,
        ),
        r matches Ok(x) ==> found_inside(x.1@, body@) && (fits(x.0@) ==> function_ok(x.0@)),
{
    proof {
        reveal(l_function);
    }
    let ret = match types.functions.get(name.as_str()) {
        Some(ft) => ft.ret.dup(),
        None => Type::Unit,
    };
    let mut fl = FnLowerer::new(name.clone(), ret, res, types, cfg, Ghost(body@));
    let boxed = boxed_locals(res, body, 0);
    fl.set_boxed(boxed);
    fl.lower_whole(body)
}

/// Lower a lifted closure: a function literal hoisted to top level, with the closure value as
/// its hidden first parameter.
fn lower_closure<'a>(
    p: &Pending<'a>,
    res: &'a Resolution,
    types: &'a TypeInfo,
    cfg: &'a TypeConfig,
) -> (r: Result<(Function, Vec<Pending<'a>>), LowerError>)
    ensures
        whole(r) == l_closure((Tables { res: res@, types: types@, cfg: cfg@ }), p@),
        r matches Ok(x) ==> found_inside(x.1@, p@.body) && (fits(x.0@) ==> function_ok(x.0@)),
{
    proof {
        reveal(l_closure);
    }
    let body = p.body;
    let ret = match types.function_literals.get(body.span) {
        Some(ft) => ft.ret.dup(),
        None => Type::Unit,
    };
    let mut fl = FnLowerer::new(p.name.clone(), ret, res, types, cfg, Ghost(body@));
    fl.set_depth(p.depth);
    let boxed = boxed_locals(res, body, p.depth);
    fl.set_boxed(boxed);
    // The hidden parameter carries the closure value.
    let env = fl.fresh_temp(cell_type());
    proof {
        reveal(Low::fresh_temp);
        reveal(Low::set_boxed);
    }
    let ups = p.upvalues.clone();
    assert(ups@ =~= p.upvalues@);
    fl.set_env(p.depth, ups, env);
    fl.add_param(env);
    fl.lower_whole(body)
}

fn lower_const(
    name: &String,
    value: &Expr,
    res: &Resolution,
    types: &TypeInfo,
    cfg: &TypeConfig,
) -> (r: Result<Function, LowerError>)
    ensures
        match r {
            Ok(f) => Ok::<FunctionV, LowerErrorV>(f@),
            Err(e) => Err::<FunctionV, LowerErrorV>(e@),
        } == l_const((Tables { res: res@, types: types@, cfg: cfg@ }), name@, value@),
        r matches Ok(f) ==> (fits(f@) ==> function_ok(f@)),
{
    proof {
        reveal(l_const);
    }
    let ret = match types.constants.get(name.as_str()) {
        Some(ty) => ty.dup(),
        None => Type::Error,
    };
    let ghost span = value.span;
    let ghost ret_stat = RetStatV { exprs: seq![value@], span };
    let ghost body = FuncBodyV {
        params: Seq::empty(),
        block: AstBlockV { stats: Seq::empty(), ret: Some(ret_stat), span },
        span,
    };
    let mut fl = FnLowerer::new(
        cat2("const::", name.as_str()),
        ret,
        res,
        types,
        cfg,
        Ghost(body),
    );
    proof {
        assert(decreases_to!(body => body.block));
        assert(decreases_to!(body.block => body.block.ret->0));
        assert(decreases_to!(ret_stat => ret_stat.exprs));
        assert(decreases_to!(ret_stat.exprs => ret_stat.exprs[0]));
    }
    let v = fl.lower_expr(value)?;
    fl.terminate(Terminator::Return(Some(v)));
    Ok(fl.finish().0)
}

/// Whether all functions that fit are structurally valid.
spec fn all_ok(fs: Named) -> bool {
    forall|i: int| 0 <= i < fs.len() ==> (fits((#[trigger] fs[i]).1) ==> function_ok(fs[i].1))
}

proof fn lemma_all_ok(fs: Named, name: Seq<char>, f: FunctionV)
    requires
        all_ok(fs),
        fits(f) ==> function_ok(f),
    ensures
        all_ok(put_of(fs, name, f)),
{
    lemma_put_entries(fs, name, f);
    let t = put_of(fs, name, f);
    assert forall|i: int| 0 <= i < t.len() implies (fits((#[trigger] t[i]).1) ==> function_ok(
        t[i].1,
    )) by {
        if t[i] != (name, f) {
            let j = choose|j: int| 0 <= j < fs.len() && fs[j] == t[i];
            assert(fits(fs[j].1) ==> function_ok(fs[j].1));
        }
    }
}

spec fn named(r: Result<NameMap<Function>, LowerError>) -> Result<Named, LowerErrorV> {
    match r {
        Ok(m) => Ok(m@),
        Err(e) => Err(e@),
    }
}

/// Lift a literal, and then the literals found in it.
fn lift<'a>(
    p: &Pending<'a>,
    res: &'a Resolution,
    types: &'a TypeInfo,
    cfg: &'a TypeConfig,
    functions: NameMap<Function>,
) -> (r: Result<NameMap<Function>, LowerError>)
    requires
        all_ok(functions@),
    ensures
        named(r) == l_pending(
            (Tables { res: res@, types: types@, cfg: cfg@ }),
            p@,
            functions@,
        ),
        r matches Ok(m) ==> all_ok(m@),
    decreases p@.body,
{
    let ghost t = Tables { res: res@, types: types@, cfg: cfg@ };
    proof {
        unfold_l_pending(t, p@, functions@);
    }
    let (f, found) = lower_closure(p, res, types, cfg)?;
    let mut fns = functions;
    proof {
        lemma_all_ok(fns@, p@.name, f@);
    }
    fns.insert(p.name.clone(), f);
    let ghost list = pendings_v(found@);
    let ghost start = fns@;
    let mut n: usize = found.len();
    while n > 0
        invariant
            n <= found@.len(),
            list == pendings_v(found@),
            found_inside(found@, p@.body),
            t == (Tables { res: res@, types: types@, cfg: cfg@ }),
            all_ok(fns@),
            l_inner(t, p@.body, list, n as int, fns@) == l_inner(
                t,
                p@.body,
                list,
                list.len() as int,
                start,
            ),
            l_pending(t, p@, functions@) == l_inner(t, p@.body, list, list.len() as int, start),
        decreases n,
    {
        proof {
            unfold_l_inner(t, p@.body, list, n as int, fns@);
            assert(list[n - 1] == found@[n - 1]@);
        }
        n -= 1;
        fns = lift(&found[n], res, types, cfg, fns)?;
    }
    proof {
        unfold_l_inner(t, p@.body, list, 0, fns@);
    }
    Ok(fns)
}

spec fn exported(r: Result<NameMap<ExportTarget>, LowerError>) -> Result<
    Seq<(Seq<char>, ExportTargetV)>,
    LowerErrorV,
> {
    match r {
        Ok(m) => Ok(m@),
        Err(e) => Err(e@),
    }
}

fn lower_exports(module: &Module, res: &Resolution) -> (r: Result<
    NameMap<ExportTarget>,
    LowerError,
>)
    ensures
        exported(r) == exports_of(module@, res@),
{
    match &module.export {
        Some(export) => curated_exports(&export.node, res),
        None => Ok(open_exports(&module.decls)),
    }
}

fn curated_exports(fields: &Vec<Field>, res: &Resolution) -> (r: Result<
    NameMap<ExportTarget>,
    LowerError,
>)
    ensures
        exported(r) == l_exports(res@, fields_v(fields@), 0, Seq::empty()),
{
    let ghost fs = fields_v(fields@);
    let mut exports: NameMap<ExportTarget> = NameMap::new();
    let mut i: usize = 0;
    while i < fields.len()
        invariant
            i <= fields@.len(),
            fs == fields_v(fields@),
            l_exports(res@, fs, i as int, exports@) == l_exports(res@, fs, 0, Seq::empty()),
        decreases fields@.len() - i,
    {
        proof {
            unfold_l_exports(res@, fs, i as int, exports@);
        }
        if let Field::Named { name, value } = &fields[i] {
            assert(value@.kind == value.kind@);
            // The exported value must be a bare name of a top-level declaration.
            if let ExprKind::Name(_) = &value.kind {
                let target = match res.binding(value.span) {
                    Some(Binding::TopFunction(n)) => ExportTarget::Function(n.clone()),
                    Some(Binding::TopConst(n)) => ExportTarget::Const(n.clone()),
                    _ => {
                        return Err(
                            unsupported_error(
                                "module exports must reference a top-level function or constant",
                            ),
                        );
                    },
                };
                exports.insert(name.node.clone(), target);
            } else {
                return Err(
                    unsupported_error(
                        "module exports must be bare references to top-level functions or constants",
                    ),
                );
            }
        } else {
            return Err(internal_error("export field is not `name = value`"));
        }
        i += 1;
    }
    proof {
        unfold_l_exports(res@, fs, i as int, exports@);
    }
    Ok(exports)
}

fn open_exports(decls: &Vec<TopDecl>) -> (r: NameMap<ExportTarget>)
    ensures
        r@ == l_open_exports(decls_v(decls@), 0, Seq::empty()),
{
    let ghost ds = decls_v(decls@);
    let mut exports: NameMap<ExportTarget> = NameMap::new();
    let mut i: usize = 0;
    while i < decls.len()
        invariant
            i <= decls@.len(),
            ds == decls_v(decls@),
            l_open_exports(ds, i as int, exports@) == l_open_exports(ds, 0, Seq::empty()),
        decreases decls@.len() - i,
    {
        proof {
            unfold_l_open_exports(ds, i as int, exports@);
        }
        match &decls[i] {
            TopDecl::Function(f) => {
                exports.insert(
                    f.name.node.clone(),
                    ExportTarget::Function(f.name.node.clone()),
                );
            },
            TopDecl::Const(c) => {
                exports.insert(c.name.node.clone(), ExportTarget::Const(c.name.node.clone()));
            },
        }
        i += 1;
    }
    proof {
        unfold_l_open_exports(ds, i as int, exports@);
    }
    exports
}

/// Whether every function of a program has no more blocks and values than there are ids.
pub open spec fn program_fits(p: ProgramV) -> bool {
    &&& forall|i: int| 0 <= i < p.functions.len() ==> fits((#[trigger] p.functions[i]).1)
    &&& forall|i: int| 0 <= i < p.constants.len() ==> fits((#[trigger] p.constants[i]).1)
}

/// Lower a checked module. A lowered program is structurally valid: [`verify`](super::verify)
/// accepts it.
pub fn lower(
    module: &Module,
    res: &Resolution,
    types: &TypeInfo,
    cfg: &TypeConfig,
) -> (r: Result<Program, LowerError>)
    ensures
        match r {
            Ok(p) => lower_of(module@, res@, types@, cfg@) == Ok::<ProgramV, LowerErrorV>(p@),
            Err(e) => lower_of(module@, res@, types@, cfg@) == Err::<ProgramV, LowerErrorV>(e@),
        },
        r matches Ok(p) ==> (program_fits(p@) ==> program_ok(p@)),
{
    let ghost t = Tables { res: res@, types: types@, cfg: cfg@ };
    let ghost ds = module@.decls;
    let ghost start = Lowered {
        functions: Seq::empty(),
        constants: Seq::empty(),
        found: Seq::empty(),
    };
    let mut functions: NameMap<Function> = NameMap::new();
    let mut constants: NameMap<Function> = NameMap::new();
    let mut queue: Vec<Pending> = Vec::new();
    assert(pendings_v(queue@) =~= Seq::<PendingV>::empty());
    let mut i: usize = 0;
    while i < module.decls.len()
        invariant
            i <= module.decls@.len(),
            ds == module@.decls,
            t == (Tables { res: res@, types: types@, cfg: cfg@ }),
            start == (Lowered {
                functions: Seq::empty(),
                constants: Seq::empty(),
                found: Seq::empty(),
            }),
            all_ok(functions@),
            all_ok(constants@),
            l_decls(
                t,
                ds,
                i as int,
                (Lowered {
                    functions: functions@,
                    constants: constants@,
                    found: pendings_v(queue@),
                }),
            ) == l_decls(t, ds, 0, start),
        decreases module.decls@.len() - i,
    {
        let ghost acc = Lowered {
            functions: functions@,
            constants: constants@,
            found: pendings_v(queue@),
        };
        proof {
            unfold_l_decls(t, ds, i as int, acc);
        }
        match &module.decls[i] {
            TopDecl::Function(f) => {
                let (lowered, mut found) = lower_function(
                    &f.name.node,
                    &f.body,
                    res,
                    types,
                    cfg,
                )?;
                proof {
                    lemma_all_ok(functions@, f.name.node@, lowered@);
                }
                functions.insert(f.name.node.clone(), lowered);
                let ghost q0 = queue@;
                let ghost f0 = found@;
                queue.append(&mut found);
                assert(pendings_v(queue@) =~= pendings_v(q0) + pendings_v(f0));
            },
            TopDecl::Const(c) => {
                let lowered = lower_const(&c.name.node, &c.value, res, types, cfg)?;
                proof {
                    lemma_all_ok(constants@, c.name.node@, lowered@);
                }
                constants.insert(c.name.node.clone(), lowered);
            },
        }
        i += 1;
    }
    let ghost acc = Lowered {
        functions: functions@,
        constants: constants@,
        found: pendings_v(queue@),
    };
    proof {
        unfold_l_decls(t, ds, i as int, acc);
    }
    // Function literals are lifted into functions of their own, the last found first.
    let ghost list = pendings_v(queue@);
    let ghost fns0 = functions@;
    let mut n: usize = queue.len();
    while n > 0
        invariant
            n <= queue@.len(),
            list == pendings_v(queue@),
            t == (Tables { res: res@, types: types@, cfg: cfg@ }),
            all_ok(functions@),
            all_ok(constants@),
            ds == module@.decls,
            l_decls(t, ds, 0, start) == Ok::<Lowered, LowerErrorV>(
                (Lowered { functions: fns0, constants: constants@, found: list }),
            ),
            start == (Lowered {
                functions: Seq::empty(),
                constants: Seq::empty(),
                found: Seq::empty(),
            }),
            l_queue(t, list, n as int, functions@) == l_queue(
                t,
                list,
                list.len() as int,
                fns0,
            ),
        decreases n,
    {
        proof {
            unfold_l_queue(t, list, n as int, functions@);
            assert(list[n - 1] == queue@[n - 1]@);
        }
        n -= 1;
        functions = lift(&queue[n], res, types, cfg, functions)?;
    }
    proof {
        unfold_l_queue(t, list, 0, functions@);
    }
    let exports = lower_exports(module, res)?;
    Ok(Program { functions, constants, exports })
}

} // verus!
