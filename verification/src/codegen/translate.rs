//! Translation of the intermediate representation to machine instructions.
//!
//! A function becomes a list of [`Inst`]s, cut into blocks; a code generator turns each of
//! them into one instruction of its own. Numbers and bools travel unboxed, all else as a
//! handle; the translation decides where a value is boxed or unboxed, which operations are
//! native and which go through the runtime.
//!
//! The functions `x_*` say what each construct becomes, as steps from one state of the
//! translation to the next.
use vstd::prelude::*;
use crate::ast::{BinOp, UnOp};
use crate::codegen::rt::{interned_in, Pools, PoolsV};
use crate::ir::{
    instrs_v, pairs_v, BlockId, Function, FunctionV, Instr, InstrV, LocalId, Op, OpV, Program,
    ProgramV, Terminator, ValueId,
};
use crate::names::get_of;
use crate::numeral::{Numeral, NumeralV};
use crate::runtime::repr::{repr_of, Repr};
use crate::text::{own, same};
use crate::types::{types_v, FnTypeV, Type, TypeV};

verus! {

/// An error from compilation.
#[derive(Clone, Debug, PartialEq, Eq)]
pub enum JitError {
    /// A failure of the code generator.
    Cranelift(String),
    /// A construct that is not compiled.
    Unsupported(String),
}

pub ghost enum JitErrorV {
    Cranelift(Seq<char>),
    Unsupported(Seq<char>),
}

impl View for JitError {
    type V = JitErrorV;

    open spec fn view(&self) -> JitErrorV {
        match self {
            JitError::Cranelift(s) => JitErrorV::Cranelift(s@),
            JitError::Unsupported(s) => JitErrorV::Unsupported(s@),
        }
    }
}

/// A machine instruction's result: the index of the instruction.
pub type Reg = usize;

/// A machine type.
#[derive(Clone, Copy, Debug, PartialEq, Eq, Structural)]
pub enum ClifTy {
    I8,
    I32,
    I64,
    F64,
}

/// A machine signature.
#[derive(Debug)]
pub struct Signature {
    pub params: Vec<ClifTy>,
    pub ret: Option<ClifTy>,
}

pub ghost struct SignatureV {
    pub params: Seq<ClifTy>,
    pub ret: Option<ClifTy>,
}

impl View for Signature {
    type V = SignatureV;

    open spec fn view(&self) -> SignatureV {
        SignatureV { params: self.params@, ret: self.ret }
    }
}

/// The machine type of a class; none for the unit class.
pub open spec fn clif_ty_of(r: Repr) -> Option<ClifTy> {
    match r {
        Repr::Number => Some(ClifTy::F64),
        Repr::Bool => Some(ClifTy::I8),
        Repr::Ptr => Some(ClifTy::I64),
        Repr::Unit => None,
    }
}

/// The machine types of the first `n` classes, without those that have none.
pub open spec fn clif_tys(rs: Seq<Repr>, n: nat) -> Seq<ClifTy>
    decreases n,
{
    if n == 0 {
        Seq::empty()
    } else {
        let front = clif_tys(rs, (n - 1) as nat);
        match clif_ty_of(rs[n - 1]) {
            Some(t) => front.push(t),
            None => front,
        }
    }
}

/// The classes of a list of types.
pub open spec fn reprs_of(ts: Seq<TypeV>) -> Seq<Repr> {
    Seq::new(ts.len(), |i: int| repr_of(ts[i]))
}

/// A float operation on one operand.
#[derive(Clone, Copy, Debug, PartialEq, Eq, Structural)]
pub enum Float1 {
    Neg,
    Floor,
    Ceil,
    Abs,
    Sqrt,
}

/// A float operation on two operands.
#[derive(Clone, Copy, Debug, PartialEq, Eq, Structural)]
pub enum Float2 {
    Add,
    Sub,
    Mul,
    Div,
}

/// A relation between two operands.
#[derive(Clone, Copy, Debug, PartialEq, Eq, Structural)]
pub enum Relation {
    Equal,
    Less,
    LessEqual,
    Greater,
    GreaterEqual,
}

/// A runtime function that compiled code calls.
#[derive(Clone, Copy, Debug, PartialEq, Eq, Structural)]
pub enum Shim {
    BoxNumber,
    BoxBool,
    UnboxNumber,
    UnboxBool,
    ConstString,
    MemoryRef,
    NamespaceField,
    ArrayNew,
    ArrayPush,
    TableNew,
    TableSet,
    ArrayGet,
    ArraySet,
    MapGet,
    MapSet,
    FieldGet,
    FieldSet,
    MapKeys,
    Len,
    Concat,
    StrOrder,
    ValueEq,
    Truthy,
    Pow,
    Errored,
    CheckOrder,
    CallHost,
    CallBuiltinValue,
    CallBuiltinMember,
    CellNew,
    CellGet,
    CellSet,
    ClosureNew,
    ClosureEnvGet,
    ClosureCodeAddr,
    ConstRef,
}

/// A machine instruction. Its result, where it has one, is the register of its own index.
#[derive(Debug)]
pub enum Inst {
    /// An integer constant.
    Int(ClifTy, i64),
    /// A float constant.
    Float(Numeral),
    /// Read a variable.
    GetVar(LocalId),
    /// Write a variable.
    SetVar(LocalId, Reg),
    Float1(Float1, Reg),
    Float2(Float2, Reg, Reg),
    /// Compare two floats.
    FloatTest(Relation, Reg, Reg),
    /// Compare a signed integer with a constant.
    IntTest(Relation, Reg, i64),
    /// Compare two integers for equality.
    IntEqual(Reg, Reg),
    /// Call a runtime function with the context and these arguments.
    Call(Shim, Vec<Reg>),
    /// Store words on the stack; the result is their address.
    Stack(Vec<Reg>),
    /// Call a script function with the context and these arguments.
    CallScript(String, Vec<Reg>),
    /// Call the initializer of a constant with the context.
    CallConst(String),
    /// Leave the function with the default of its result class if the register is not zero.
    Guard(Reg),
    /// Call the function at an address with the context, the closure and these arguments.
    CallClosure { addr: Reg, env: Reg, params: Vec<Repr>, ret: Repr, args: Vec<Reg> },
}

pub ghost enum InstV {
    Int(ClifTy, i64),
    Float(NumeralV),
    GetVar(LocalId),
    SetVar(LocalId, Reg),
    Float1(Float1, Reg),
    Float2(Float2, Reg, Reg),
    FloatTest(Relation, Reg, Reg),
    IntTest(Relation, Reg, i64),
    IntEqual(Reg, Reg),
    Call(Shim, Seq<Reg>),
    Stack(Seq<Reg>),
    CallScript(Seq<char>, Seq<Reg>),
    CallConst(Seq<char>),
    Guard(Reg),
    CallClosure { addr: Reg, env: Reg, params: Seq<Repr>, ret: Repr, args: Seq<Reg> },
}

impl View for Inst {
    type V = InstV;

    open spec fn view(&self) -> InstV {
        match self {
            Inst::Int(t, n) => InstV::Int(*t, *n),
            Inst::Float(n) => InstV::Float(n@),
            Inst::GetVar(l) => InstV::GetVar(*l),
            Inst::SetVar(l, r) => InstV::SetVar(*l, *r),
            Inst::Float1(op, a) => InstV::Float1(*op, *a),
            Inst::Float2(op, a, b) => InstV::Float2(*op, *a, *b),
            Inst::FloatTest(c, a, b) => InstV::FloatTest(*c, *a, *b),
            Inst::IntTest(c, a, n) => InstV::IntTest(*c, *a, *n),
            Inst::IntEqual(a, b) => InstV::IntEqual(*a, *b),
            Inst::Call(s, rs) => InstV::Call(*s, rs@),
            Inst::Stack(rs) => InstV::Stack(rs@),
            Inst::CallScript(n, rs) => InstV::CallScript(n@, rs@),
            Inst::CallConst(n) => InstV::CallConst(n@),
            Inst::Guard(r) => InstV::Guard(*r),
            Inst::CallClosure { addr, env, params, ret, args } => InstV::CallClosure {
                addr: *addr,
                env: *env,
                params: params@,
                ret: *ret,
                args: args@,
            },
        }
    }
}

/// How a machine block ends.
#[derive(Clone, Copy, Debug, PartialEq, Eq, Structural)]
pub enum End {
    /// Return a register.
    Return(Reg),
    /// Return the default of the function's result class.
    ReturnDefault,
    Jump(BlockId),
    /// Jump back to an earlier block, unless the register says that an error was noted.
    JumpBack(Reg, BlockId),
    Branch(Reg, BlockId, BlockId),
    Trap,
}

/// A machine block: its instructions are those up to `end` that belong to no earlier block.
#[derive(Clone, Copy, Debug, PartialEq, Eq, Structural)]
pub struct MachineBlock {
    pub end: usize,
    pub term: End,
}

/// The machine code of a function.
#[derive(Debug)]
pub struct MachineCode {
    pub insts: Vec<Inst>,
    pub blocks: Vec<MachineBlock>,
}

pub ghost struct MachineCodeV {
    pub insts: Seq<InstV>,
    pub blocks: Seq<MachineBlock>,
}

/// The counterparts of a list of instructions.
pub open spec fn insts_v(v: Seq<Inst>) -> Seq<InstV> {
    Seq::new(v.len(), |i: int| v[i]@)
}

impl View for MachineCode {
    type V = MachineCodeV;

    open spec fn view(&self) -> MachineCodeV {
        MachineCodeV { insts: insts_v(self.insts@), blocks: self.blocks@ }
    }
}

/// A translation under way: the pools, the instructions so far, and the register of each
/// value.
pub ghost struct Tr {
    pub pools: PoolsV,
    pub insts: Seq<InstV>,
    pub ssa: Seq<Option<Reg>>,
}

/// The state after a step and what it yielded, or why it failed.
pub type TrStep<T> = Result<(Tr, T), JitErrorV>;

pub open spec fn refused(msg: Seq<char>) -> JitErrorV {
    JitErrorV::Unsupported(msg)
}

impl Tr {
    #[verifier::opaque]
    pub open spec fn emit(self, i: InstV) -> (Tr, Reg) {
        (Tr { insts: self.insts.push(i), ..self }, self.insts.len() as usize)
    }

    #[verifier::opaque]
    pub open spec fn val(self, v: ValueId) -> Option<Reg> {
        if v < self.ssa.len() {
            self.ssa[v as int]
        } else {
            None
        }
    }

    #[verifier::opaque]
    pub open spec fn define(self, v: ValueId, r: Reg) -> Tr {
        Tr { ssa: self.ssa.update(v as int, Some(r)), ..self }
    }

    pub open spec fn call(self, s: Shim, args: Seq<Reg>) -> (Tr, Reg) {
        self.emit(InstV::Call(s, args))
    }

    /// An index into a pool, as an operand.
    pub open spec fn index(self, n: u32) -> (Tr, Reg) {
        self.emit(InstV::Int(ClifTy::I32, n as i64))
    }

    #[verifier::opaque]
    pub open spec fn string(self, s: Seq<char>) -> (Tr, u32) {
        let (p, i) = interned_in(self.pools.strings, s);
        (Tr { pools: PoolsV { strings: p, ..self.pools }, ..self }, i)
    }

    #[verifier::opaque]
    pub open spec fn name(self, s: Seq<char>) -> (Tr, u32) {
        let (p, i) = interned_in(self.pools.names, s);
        (Tr { pools: PoolsV { names: p, ..self.pools }, ..self }, i)
    }

    #[verifier::opaque]
    pub open spec fn host(self, s: Seq<char>) -> (Tr, u32) {
        let (p, i) = interned_in(self.pools.host_fns, s);
        (Tr { pools: PoolsV { host_fns: p, ..self.pools }, ..self }, i)
    }

    #[verifier::opaque]
    pub open spec fn builtin_value(self, s: Seq<char>) -> (Tr, u32) {
        let (p, i) = interned_in(self.pools.builtin_values, s);
        (Tr { pools: PoolsV { builtin_values: p, ..self.pools }, ..self }, i)
    }

    #[verifier::opaque]
    pub open spec fn builtin_member(self, ns: Seq<char>, m: Seq<char>) -> (Tr, u32) {
        let (p, i) = interned_in(self.pools.builtin_members, (ns, m));
        (Tr { pools: PoolsV { builtin_members: p, ..self.pools }, ..self }, i)
    }

    #[verifier::opaque]
    pub open spec fn namespace_field(self, ns: Seq<char>, f: Seq<char>) -> (Tr, u32) {
        let (p, i) = interned_in(self.pools.namespace_fields, (ns, f));
        (Tr { pools: PoolsV { namespace_fields: p, ..self.pools }, ..self }, i)
    }

    #[verifier::opaque]
    pub open spec fn memory(self, s: Seq<char>) -> (Tr, u32) {
        let (p, i) = interned_in(self.pools.memories, s);
        (Tr { pools: PoolsV { memories: p, ..self.pools }, ..self }, i)
    }

    #[verifier::opaque]
    pub open spec fn closure_name(self, s: Seq<char>) -> (Tr, u32) {
        let (p, i) = interned_in(self.pools.closure_names, s);
        (Tr { pools: PoolsV { closure_names: p, ..self.pools }, ..self }, i)
    }

    #[verifier::opaque]
    pub open spec fn constant(self, s: Seq<char>) -> (Tr, u32) {
        let (p, i) = interned_in(self.pools.constants, s);
        (Tr { pools: PoolsV { constants: p, ..self.pools }, ..self }, i)
    }

    /// Look whether an error was noted, and leave the function if so.
    #[verifier::opaque]
    pub open spec fn guarded(self) -> Tr {
        let (st, e) = self.call(Shim::Errored, Seq::empty());
        st.emit(InstV::Guard(e)).0
    }

    /// A guard where something emitted since `from` may have failed.
    #[verifier::opaque]
    pub open spec fn guarded_since(self, from: int) -> Tr {
        if any_fallible(self.insts, from) {
            self.guarded()
        } else {
            self
        }
    }

    /// A handle as a value of a class.
    #[verifier::opaque]
    pub open spec fn unboxed(self, h: Reg, r: Repr) -> (Tr, Reg) {
        match r {
            Repr::Number => self.call(Shim::UnboxNumber, seq![h]),
            Repr::Bool => self.call(Shim::UnboxBool, seq![h]),
            Repr::Ptr => (self, h),
            Repr::Unit => self.emit(InstV::Int(ClifTy::I64, 0)),
        }
    }

    /// A value of one class as one of another, through a handle where they differ.
    #[verifier::opaque]
    pub open spec fn coerced(self, v: Reg, from: Repr, to: Repr) -> (Tr, Reg) {
        match (from, to) {
            (Repr::Number, Repr::Ptr) => self.call(Shim::BoxNumber, seq![v]),
            (Repr::Bool, Repr::Ptr) => self.call(Shim::BoxBool, seq![v]),
            (Repr::Number, Repr::Bool) => {
                let (st, h) = self.call(Shim::BoxNumber, seq![v]);
                st.unboxed(h, Repr::Bool)
            },
            (Repr::Bool, Repr::Number) => {
                let (st, h) = self.call(Shim::BoxBool, seq![v]);
                st.unboxed(h, Repr::Number)
            },
            (Repr::Ptr, Repr::Number) | (Repr::Unit, Repr::Number) => self.unboxed(v, Repr::Number),
            (Repr::Ptr, Repr::Bool) | (Repr::Unit, Repr::Bool) => self.unboxed(v, Repr::Bool),
            (Repr::Number, Repr::Unit) | (Repr::Bool, Repr::Unit) => self.unboxed(v, Repr::Unit),
            _ => (self, v),
        }
    }

    /// Words on the stack: their address and their number.
    #[verifier::opaque]
    pub open spec fn arg_array(self, regs: Seq<Reg>) -> (Tr, (Reg, Reg)) {
        let (st1, argc) = self.index(regs.len() as u32);
        let (st2, base) = if regs.len() == 0 {
            st1.emit(InstV::Int(ClifTy::I64, 0))
        } else {
            st1.emit(InstV::Stack(regs))
        };
        (st2, (base, argc))
    }
}

/// Whether an instruction may note an error: some runtime functions do, and so does what they
/// or a script call.
pub open spec fn fallible(i: InstV) -> bool {
    match i {
        InstV::Call(s, _) => match s {
            Shim::UnboxNumber | Shim::UnboxBool | Shim::MemoryRef | Shim::NamespaceField
            | Shim::ArraySet | Shim::TableSet | Shim::MapSet | Shim::FieldSet | Shim::CheckOrder
            | Shim::CallHost | Shim::CallBuiltinValue | Shim::CallBuiltinMember
            | Shim::ClosureCodeAddr | Shim::ConstRef => true,
            _ => false,
        },
        InstV::CallScript(_, _) | InstV::CallConst(_) | InstV::CallClosure { .. } => true,
        _ => false,
    }
}

/// Whether one of the instructions from `from` on may note an error.
pub open spec fn any_fallible(insts: Seq<InstV>, from: int) -> bool {
    exists|k: int| from <= k < insts.len() && 0 <= k && fallible(#[trigger] insts[k])
}

/// The register of a value.
pub open spec fn reg_of(st: Tr, v: ValueId) -> Result<Reg, JitErrorV> {
    match st.val(v) {
        Some(r) => Ok(r),
        None => Err(refused("use of undefined IR value"@)),
    }
}

/// The class of a value.
pub open spec fn repr_at(f: FunctionV, v: ValueId) -> Result<Repr, JitErrorV> {
    if v < f.values.len() {
        Ok(repr_of(f.values[v as int]))
    } else {
        Err(refused("use of undefined IR value"@))
    }
}

/// The class of an operation's result; a handle where there is none.
pub open spec fn dest_repr(f: FunctionV, dest: Option<ValueId>) -> Result<Repr, JitErrorV> {
    match dest {
        Some(v) => repr_at(f, v),
        None => Ok(Repr::Ptr),
    }
}

/// Whether a local is a variable: it has a type, and the type has values.
pub open spec fn is_var(f: FunctionV, id: LocalId) -> bool {
    f.locals.dom().contains(id) && repr_of(f.locals[id]) != Repr::Unit
}

/// A value as a handle.
#[verifier::opaque]
pub open spec fn x_boxed(f: FunctionV, st: Tr, v: ValueId) -> TrStep<Reg> {
    match reg_of(st, v) {
        Err(e) => Err(e),
        Ok(r) => match repr_at(f, v) {
            Err(e) => Err(e),
            Ok(Repr::Number) => Ok(st.call(Shim::BoxNumber, seq![r])),
            Ok(Repr::Bool) => Ok(st.call(Shim::BoxBool, seq![r])),
            Ok(Repr::Ptr) => Ok((st, r)),
            Ok(Repr::Unit) => Ok(st.emit(InstV::Int(ClifTy::I64, 0))),
        },
    }
}

/// The values from `i` on as handles.
#[verifier::opaque]
pub open spec fn x_boxed_all(f: FunctionV, st: Tr, vs: Seq<ValueId>, i: int, acc: Seq<Reg>) -> TrStep<
    Seq<Reg>,
>
    decreases vs.len() - i,
{
    if 0 <= i < vs.len() {
        match x_boxed(f, st, vs[i]) {
            Err(e) => Err(e),
            Ok((st1, r)) => x_boxed_all(f, st1, vs, i + 1, acc.push(r)),
        }
    } else {
        Ok((st, acc))
    }
}

/// A value as one of a class.
#[verifier::opaque]
pub open spec fn x_as(f: FunctionV, st: Tr, v: ValueId, to: Repr) -> TrStep<Reg> {
    match (reg_of(st, v), repr_at(f, v)) {
        (Ok(r), Ok(from)) => Ok(st.coerced(r, from, to)),
        (Ok(_), Err(e)) => Err(e),
        (Err(e), _) => Err(e),
    }
}

/// Two values, each as one of a class.
#[verifier::opaque]
pub open spec fn x_both(f: FunctionV, st: Tr, v: ValueId, c: Repr, w: ValueId, d: Repr) -> TrStep<
    (Reg, Reg),
> {
    match x_as(f, st, v, c) {
        Err(e) => Err(e),
        Ok((st1, a)) => match x_as(f, st1, w, d) {
            Err(e) => Err(e),
            Ok((st2, b)) => Ok((st2, (a, b))),
        },
    }
}

/// The values from `i` on, each as one of the class that is wanted of it; a handle where none
/// is. One of the unit class is not passed.
#[verifier::opaque]
pub open spec fn x_args(
    f: FunctionV,
    st: Tr,
    vs: Seq<ValueId>,
    want: Seq<Repr>,
    i: int,
    acc: Seq<Reg>,
) -> TrStep<Seq<Reg>>
    decreases vs.len() - i,
{
    if 0 <= i < vs.len() {
        match (reg_of(st, vs[i]), repr_at(f, vs[i])) {
            (Ok(r), Ok(from)) => {
                if wanted(want, i) == Repr::Unit {
                    x_args(f, st, vs, want, i + 1, acc)
                } else {
                    let (st1, x) = st.coerced(r, from, wanted(want, i));
                    x_args(f, st1, vs, want, i + 1, acc.push(x))
                }
            },
            (Ok(_), Err(e)) => Err(e),
            (Err(e), _) => Err(e),
        }
    } else {
        Ok((st, acc))
    }
}

/// The class that is wanted of an argument.
pub open spec fn wanted(want: Seq<Repr>, i: int) -> Repr {
    if 0 <= i < want.len() {
        want[i]
    } else {
        Repr::Ptr
    }
}

/// The classes of a function's parameters; a handle for one without a type.
pub open spec fn param_classes(g: FunctionV) -> Seq<Repr> {
    Seq::new(
        g.params.len(),
        |i: int|
            if g.locals.dom().contains(g.params[i]) {
                repr_of(g.locals[g.params[i]])
            } else {
                Repr::Ptr
            },
    )
}

/// The result of a call whose callee has that result class.
pub open spec fn call_result(r: Reg, ret: Repr) -> Option<Reg> {
    if ret == Repr::Unit {
        None
    } else {
        Some(r)
    }
}

pub open spec fn x_unary(f: FunctionV, st: Tr, op: UnOp, v: ValueId) -> TrStep<Reg> {
    match op {
        UnOp::Neg => match x_as(f, st, v, Repr::Number) {
            Ok((st1, a)) => Ok(st1.emit(InstV::Float1(Float1::Neg, a))),
            Err(e) => Err(e),
        },
        UnOp::Not => match x_truthy(f, st, v) {
            Ok((st1, a)) => Ok(st1.emit(InstV::IntTest(Relation::Equal, a, 0))),
            Err(e) => Err(e),
        },
        UnOp::Len => match x_as(f, st, v, Repr::Ptr) {
            Ok((st1, a)) => Ok(st1.call(Shim::Len, seq![a])),
            Err(e) => Err(e),
        },
    }
}

/// An arithmetic operator: floor division and modulo are spelled out.
#[verifier::opaque]
pub open spec fn x_arith(st: Tr, op: BinOp, a: Reg, b: Reg) -> (Tr, Reg) {
    match op {
        BinOp::Add => st.emit(InstV::Float2(Float2::Add, a, b)),
        BinOp::Sub => st.emit(InstV::Float2(Float2::Sub, a, b)),
        BinOp::Mul => st.emit(InstV::Float2(Float2::Mul, a, b)),
        BinOp::Div => st.emit(InstV::Float2(Float2::Div, a, b)),
        BinOp::FloorDiv => {
            let (st1, q) = st.emit(InstV::Float2(Float2::Div, a, b));
            st1.emit(InstV::Float1(Float1::Floor, q))
        },
        BinOp::Mod => {
            let (st1, q) = st.emit(InstV::Float2(Float2::Div, a, b));
            let (st2, fl) = st1.emit(InstV::Float1(Float1::Floor, q));
            let (st3, prod) = st2.emit(InstV::Float2(Float2::Mul, fl, b));
            st3.emit(InstV::Float2(Float2::Sub, a, prod))
        },
        _ => st.call(Shim::Pow, seq![a, b]),
    }
}

/// The relation of a comparison operator.
pub open spec fn relation_of(op: BinOp) -> Relation {
    match op {
        BinOp::Lt => Relation::Less,
        BinOp::Le => Relation::LessEqual,
        BinOp::Gt => Relation::Greater,
        _ => Relation::GreaterEqual,
    }
}

/// A comparison: numbers natively, with a check that both can be ordered; strings through
/// the runtime.
#[verifier::opaque]
pub open spec fn x_ordering(st: Tr, op: BinOp, a: Reg, b: Reg, r: Repr) -> (Tr, Reg) {
    if r == Repr::Number {
        let (st1, out) = st.emit(InstV::FloatTest(relation_of(op), a, b));
        let (st2, _) = st1.call(Shim::CheckOrder, seq![a, b]);
        (st2, out)
    } else {
        let (st1, ord) = st.call(Shim::StrOrder, seq![a, b]);
        st1.emit(InstV::IntTest(relation_of(op), ord, 0))
    }
}

/// An equality test, and its opposite.
#[verifier::opaque]
pub open spec fn x_equality(st: Tr, op: BinOp, a: Reg, b: Reg, r: Repr) -> (Tr, Reg) {
    let (st1, eq) = match r {
        Repr::Number => st.emit(InstV::FloatTest(Relation::Equal, a, b)),
        Repr::Bool => st.emit(InstV::IntEqual(a, b)),
        _ => st.call(Shim::ValueEq, seq![a, b]),
    };
    if op == BinOp::Eq {
        (st1, eq)
    } else {
        st1.emit(InstV::IntTest(Relation::Equal, eq, 0))
    }
}

/// Whether values of a type are ordered as numbers: an optional number is one where it is
/// compared, being narrowed there.
pub open spec fn is_numeric(t: TypeV) -> bool {
    match t {
        TypeV::Number => true,
        TypeV::Optional(i) => *i is Number,
        _ => false,
    }
}

/// The class as which two values are ordered.
pub open spec fn order_class(f: FunctionV, l: ValueId, r: ValueId) -> Repr {
    if l < f.values.len() && is_numeric(f.values[l as int]) || r < f.values.len() && is_numeric(
        f.values[r as int],
    ) {
        Repr::Number
    } else {
        Repr::Ptr
    }
}

/// The class as which two values are compared for equality: their own, or handles where they
/// differ.
pub open spec fn common_class(f: FunctionV, l: ValueId, r: ValueId) -> Repr {
    match (repr_at(f, l), repr_at(f, r)) {
        (Ok(t), Ok(u)) => if t == u {
            t
        } else {
            Repr::Ptr
        },
        _ => Repr::Ptr,
    }
}

#[verifier::opaque]
pub open spec fn x_binary(f: FunctionV, st: Tr, op: BinOp, l: ValueId, r: ValueId) -> TrStep<Reg> {
    match op {
        BinOp::Add | BinOp::Sub | BinOp::Mul | BinOp::Div | BinOp::FloorDiv | BinOp::Mod
        | BinOp::Pow => match x_both(f, st, l, Repr::Number, r, Repr::Number) {
            Ok((st1, (a, b))) => Ok(x_arith(st1, op, a, b)),
            Err(e) => Err(e),
        },
        BinOp::Concat => match x_both(f, st, l, Repr::Ptr, r, Repr::Ptr) {
            Ok((st1, (a, b))) => Ok(st1.call(Shim::Concat, seq![a, b])),
            Err(e) => Err(e),
        },
        BinOp::Lt | BinOp::Le | BinOp::Gt | BinOp::Ge => {
            let c = order_class(f, l, r);
            match x_both(f, st, l, c, r, c) {
                Ok((st1, (a, b))) => Ok(x_ordering(st1, op, a, b, c)),
                Err(e) => Err(e),
            }
        },
        BinOp::Eq | BinOp::Ne => {
            let c = common_class(f, l, r);
            match x_both(f, st, l, c, r, c) {
                Ok((st1, (a, b))) => Ok(x_equality(st1, op, a, b, c)),
                Err(e) => Err(e),
            }
        },
        _ => Err(refused("short-circuited in lowering"@)),
    }
}

#[verifier::opaque]
pub open spec fn x_truthy(f: FunctionV, st: Tr, v: ValueId) -> TrStep<Reg> {
    match repr_at(f, v) {
        Err(e) => Err(e),
        Ok(Repr::Number) => Ok(st.emit(InstV::Int(ClifTy::I8, 1))),
        Ok(t) => match reg_of(st, v) {
            Err(e) => Err(e),
            Ok(r) => if t == Repr::Bool {
                Ok((st, r))
            } else {
                Ok(st.call(Shim::Truthy, seq![r]))
            },
        },
    }
}

/// Push the elements from `i` on to an array.
#[verifier::opaque]
pub open spec fn x_push_all(f: FunctionV, st: Tr, arr: Reg, vs: Seq<ValueId>, i: int) -> TrStep<()>
    decreases vs.len() - i,
{
    if 0 <= i < vs.len() {
        match x_boxed(f, st, vs[i]) {
            Err(e) => Err(e),
            Ok((st1, h)) => x_push_all(
                f,
                st1.call(Shim::ArrayPush, seq![arr, h]).0,
                arr,
                vs,
                i + 1,
            ),
        }
    } else {
        Ok((st, ()))
    }
}

/// Set the entries from `i` on of a table.
#[verifier::opaque]
pub open spec fn x_set_all(
    f: FunctionV,
    st: Tr,
    tbl: Reg,
    pairs: Seq<(Seq<char>, ValueId)>,
    i: int,
) -> TrStep<()>
    decreases pairs.len() - i,
{
    if 0 <= i < pairs.len() {
        let (st1, idx) = st.name(pairs[i].0);
        let (st2, n) = st1.index(idx);
        match x_boxed(f, st2, pairs[i].1) {
            Err(e) => Err(e),
            Ok((st3, h)) => x_set_all(
                f,
                st3.call(Shim::FieldSet, seq![tbl, n, h]).0,
                tbl,
                pairs,
                i + 1,
            ),
        }
    } else {
        Ok((st, ()))
    }
}

/// A handle as the operation's result.
pub open spec fn x_result(f: FunctionV, st: Tr, h: Reg, dest: Option<ValueId>) -> TrStep<
    Option<Reg>,
> {
    match dest_repr(f, dest) {
        Ok(r) => {
            let (st1, v) = st.unboxed(h, r);
            Ok((st1, Some(v)))
        },
        Err(e) => Err(e),
    }
}

/// The state and the register as an operation's result.
pub open spec fn some(r: (Tr, Reg)) -> TrStep<Option<Reg>> {
    Ok((r.0, Some(r.1)))
}

/// A read from a table, an array or a cell, through the runtime.
#[verifier::opaque]
pub open spec fn x_read(f: FunctionV, st: Tr, op: OpV, dest: Option<ValueId>) -> TrStep<Option<Reg>> {
    match op {
        OpV::ArrayGet(base, idx) => match x_both(f, st, base, Repr::Ptr, idx, Repr::Number) {
            Ok((st0, (b, i))) => {
                let (st1, h) = st0.call(Shim::ArrayGet, seq![b, i]);
                x_result(f, st1, h, dest)
            },
            Err(e) => Err(e),
        },
        OpV::MapGet(base, key) => match x_both(f, st, base, Repr::Ptr, key, Repr::Ptr) {
            Ok((st0, (b, k))) => {
                let (st1, h) = st0.call(Shim::MapGet, seq![b, k]);
                x_result(f, st1, h, dest)
            },
            Err(e) => Err(e),
        },
        OpV::FieldGet(base, name) => match x_as(f, st, base, Repr::Ptr) {
            Ok((st0, b)) => {
                let (st1, idx) = st0.name(name);
                let (st2, n) = st1.index(idx);
                let (st3, h) = st2.call(Shim::FieldGet, seq![b, n]);
                x_result(f, st3, h, dest)
            },
            Err(e) => Err(e),
        },
        OpV::MapKeys(base) => match x_as(f, st, base, Repr::Ptr) {
            Ok((st0, b)) => some(st0.call(Shim::MapKeys, seq![b])),
            Err(e) => Err(e),
        },
        OpV::MemoryRef(name) => {
            let (st1, idx) = st.memory(name);
            let (st2, n) = st1.index(idx);
            let (st3, h) = st2.call(Shim::MemoryRef, seq![n]);
            x_result(f, st3, h, dest)
        },
        OpV::NamespaceField(ns, field) => {
            let (st1, idx) = st.namespace_field(ns, field);
            let (st2, n) = st1.index(idx);
            let (st3, h) = st2.call(Shim::NamespaceField, seq![n]);
            x_result(f, st3, h, dest)
        },
        OpV::CellGet(cell) => match x_as(f, st, cell, Repr::Ptr) {
            Ok((st0, c)) => {
                let (st1, h) = st0.call(Shim::CellGet, seq![c]);
                x_result(f, st1, h, dest)
            },
            Err(e) => Err(e),
        },
        OpV::ClosureEnvGet(clo, i) => match x_as(f, st, clo, Repr::Ptr) {
            Ok((st0, c)) => {
                // A cell handle; never unboxed.
                let (st1, n) = st0.index(i);
                some(st1.call(Shim::ClosureEnvGet, seq![c, n]))
            },
            Err(e) => Err(e),
        },
        _ => Err(refused("not a read"@)),
    }
}

/// A write to a table, an array or a cell, through the runtime.
#[verifier::opaque]
pub open spec fn x_write(f: FunctionV, st: Tr, op: OpV) -> TrStep<Option<Reg>> {
    match op {
        OpV::ArraySet(base, idx, v) => match x_both(f, st, base, Repr::Ptr, idx, Repr::Number) {
            Ok((st0, (b, i))) => match x_boxed(f, st0, v) {
                Ok((st1, h)) => Ok((st1.call(Shim::ArraySet, seq![b, i, h]).0, None)),
                Err(e) => Err(e),
            },
            Err(e) => Err(e),
        },
        OpV::MapSet(base, key, v) => match x_both(f, st, base, Repr::Ptr, key, Repr::Ptr) {
            Ok((st0, (b, k))) => match x_boxed(f, st0, v) {
                Ok((st1, h)) => Ok((st1.call(Shim::MapSet, seq![b, k, h]).0, None)),
                Err(e) => Err(e),
            },
            Err(e) => Err(e),
        },
        OpV::FieldSet(base, name, v) => match x_as(f, st, base, Repr::Ptr) {
            Ok((st0, b)) => {
                let (st1, idx) = st0.name(name);
                let (st2, n) = st1.index(idx);
                match x_boxed(f, st2, v) {
                    Ok((st3, h)) => Ok((st3.call(Shim::FieldSet, seq![b, n, h]).0, None)),
                    Err(e) => Err(e),
                }
            },
            Err(e) => Err(e),
        },
        OpV::CellSet(cell, v) => match x_as(f, st, cell, Repr::Ptr) {
            Ok((st0, c)) => match x_boxed(f, st0, v) {
                Ok((st1, h)) => Ok((st1.call(Shim::CellSet, seq![c, h]).0, None)),
                Err(e) => Err(e),
            },
            Err(e) => Err(e),
        },
        _ => Err(refused("not a write"@)),
    }
}

/// A new array, table, cell or closure.
#[verifier::opaque]
pub open spec fn x_make(f: FunctionV, st: Tr, op: OpV) -> TrStep<Option<Reg>> {
    match op {
        OpV::MakeArray(vs) => {
            let (st1, cap) = st.index(vs.len() as u32);
            let (st2, arr) = st1.call(Shim::ArrayNew, seq![cap]);
            match x_push_all(f, st2, arr, vs, 0) {
                Ok((st3, _)) => Ok((st3, Some(arr))),
                Err(e) => Err(e),
            }
        },
        OpV::MakeTable(pairs) => {
            let (st1, tbl) = st.call(Shim::TableNew, Seq::empty());
            match x_set_all(f, st1, tbl, pairs, 0) {
                Ok((st2, _)) => Ok((st2, Some(tbl))),
                Err(e) => Err(e),
            }
        },
        OpV::MakeCell(v) => match x_boxed(f, st, v) {
            Ok((st1, h)) => some(st1.call(Shim::CellNew, seq![h])),
            Err(e) => Err(e),
        },
        OpV::MakeClosure(name, cells) => {
            let (st1, id) = st.closure_name(name);
            let (st2, idc) = st1.index(id);
            match x_args(f, st2, cells, Seq::empty(), 0, Seq::empty()) {
                Ok((st3, rs)) => {
                    let (st4, (base, argc)) = st3.arg_array(rs);
                    some(st4.call(Shim::ClosureNew, seq![idc, base, argc]))
                },
                Err(e) => Err(e),
            }
        },
        _ => Err(refused("not a constructor"@)),
    }
}

/// A call through the runtime with boxed arguments.
#[verifier::opaque]
pub open spec fn x_runtime_call(
    f: FunctionV,
    st: Tr,
    shim: Shim,
    id: u32,
    args: Seq<ValueId>,
    dest: Option<ValueId>,
) -> TrStep<Option<Reg>> {
    match x_boxed_all(f, st, args, 0, Seq::empty()) {
        Err(e) => Err(e),
        Ok((st1, rs)) => {
            let (st2, (base, argc)) = st1.arg_array(rs);
            let (st3, idc) = st2.index(id);
            let (st4, h) = st3.call(shim, seq![idc, base, argc]);
            x_result(f, st4, h, dest)
        },
    }
}

/// The float instruction of a `math` function of one argument, if there is one with the
/// same result.
pub open spec fn native_math(member: Seq<char>) -> Option<Float1> {
    if member == "floor"@ {
        Some(Float1::Floor)
    } else if member == "ceil"@ {
        Some(Float1::Ceil)
    } else if member == "abs"@ {
        Some(Float1::Abs)
    } else if member == "sqrt"@ {
        Some(Float1::Sqrt)
    } else {
        None
    }
}

/// Whether a member call becomes a single float instruction.
pub open spec fn is_native(f: FunctionV, ns: Seq<char>, member: Seq<char>, args: Seq<ValueId>, dest: Option<ValueId>) -> bool {
    ns == "math"@ && dest_repr(f, dest) == Ok::<Repr, JitErrorV>(Repr::Number) && args.len() == 1
        && repr_at(f, args[0]) == Ok::<Repr, JitErrorV>(Repr::Number) && native_math(member) is Some
}

/// The classes of the parameters and of the result of a function value.
pub open spec fn closure_classes(t: TypeV) -> (Seq<Repr>, Repr) {
    match t {
        TypeV::Function(ft) => (reprs_of(ft.params), repr_of(*ft.ret)),
        TypeV::Optional(i) => match *i {
            TypeV::Function(ft) => (reprs_of(ft.params), repr_of(*ft.ret)),
            _ => (Seq::empty(), Repr::Ptr),
        },
        _ => (Seq::empty(), Repr::Ptr),
    }
}

/// A call.
#[verifier::opaque]
pub open spec fn x_call(p: ProgramV, f: FunctionV, st: Tr, op: OpV, dest: Option<ValueId>) -> TrStep<
    Option<Reg>,
> {
    match op {
        OpV::CallScript(name, args) => match get_of(p.functions, name) {
            None => Err(refused("call of an unknown function"@)),
            Some(g) => if g.is_closure || args.len() != g.params.len() {
                Err(refused("call with the wrong number of arguments"@))
            } else {
                match x_args(f, st, args, param_classes(g), 0, Seq::empty()) {
                    Ok((st0, rs)) => {
                        let (st1, r) = st0.emit(InstV::CallScript(name, rs));
                        Ok((st1, call_result(r, repr_of(g.ret))))
                    },
                    Err(e) => Err(e),
                }
            },
        },
        OpV::ConstRef(name) => match get_of(p.constants, name) {
            None => Err(refused("use of an unknown constant"@)),
            // A constant with an identity is evaluated once in a call.
            Some(c) => if repr_of(c.ret) == Repr::Ptr {
                let (st1, idx) = st.constant(name);
                let (st2, n) = st1.index(idx);
                some(st2.call(Shim::ConstRef, seq![n]))
            } else {
                let (st1, r) = st.emit(InstV::CallConst(name));
                Ok((st1, call_result(r, repr_of(c.ret))))
            },
        },
        OpV::CallHost(name, args) => {
            let (st1, id) = st.host(name);
            x_runtime_call(f, st1, Shim::CallHost, id, args, dest)
        },
        OpV::CallBuiltinValue(ns, args) => {
            let (st1, id) = st.builtin_value(ns);
            x_runtime_call(f, st1, Shim::CallBuiltinValue, id, args, dest)
        },
        OpV::CallBuiltinMember(ns, member, args) => if is_native(f, ns, member, args, dest) {
            match reg_of(st, args[0]) {
                Ok(a) => some(st.emit(InstV::Float1(native_math(member)->0, a))),
                Err(e) => Err(e),
            }
        } else {
            let (st1, id) = st.builtin_member(ns, member);
            x_runtime_call(f, st1, Shim::CallBuiltinMember, id, args, dest)
        },
        OpV::CallValue(callee, args) => match x_as(f, st, callee, Repr::Ptr) {
            Err(e) => Err(e),
            Ok((st2, clo)) => {
                let (st0, addr) = st2.call(Shim::ClosureCodeAddr, seq![clo]);
                let st1 = st0.guarded();
                let (params, ret) = closure_classes(f.values[callee as int]);
                if args.len() == params.len() {
                    match x_args(f, st1, args, params, 0, Seq::empty()) {
                        Ok((st3, rs)) => {
                            let (st2, r) = st3.emit(
                                InstV::CallClosure { addr, env: clo, params, ret, args: rs },
                            );
                            Ok((st2, call_result(r, ret)))
                        },
                        Err(e) => Err(e),
                    }
                } else {
                    Err(refused("call with the wrong number of arguments"@))
                }
            },
        },
        _ => Err(refused("not a call"@)),
    }
}

/// A read or a write of a variable; a local without values is none.
#[verifier::opaque]
pub open spec fn x_local(f: FunctionV, st: Tr, op: OpV) -> TrStep<Option<Reg>> {
    match op {
        OpV::LocalGet(id) => if is_var(f, id) {
            some(st.emit(InstV::GetVar(id)))
        } else {
            Err(refused("get of undeclared local"@))
        },
        OpV::LocalSet(id, v) => if is_var(f, id) {
            match x_as(f, st, v, repr_of(f.locals[id])) {
                Ok((st1, x)) => Ok((st1.emit(InstV::SetVar(id, x)).0, None)),
                Err(e) => Err(e),
            }
        } else {
            Ok((st, None))
        },
        _ => Err(refused("not a variable"@)),
    }
}

/// Translate an operation; yields the register of its result, if it has one.
#[verifier::opaque]
pub open spec fn translate_op_of(p: ProgramV, f: FunctionV, st: Tr, op: OpV, dest: Option<ValueId>) -> TrStep<
    Option<Reg>,
> {
    match op {
        OpV::ConstNil => some(st.emit(InstV::Int(ClifTy::I64, 0))),
        OpV::ConstBool(b) => some(
            st.emit(
                InstV::Int(
                    ClifTy::I8,
                    if b {
                        1
                    } else {
                        0
                    },
                ),
            ),
        ),
        OpV::ConstNumber(n) => some(st.emit(InstV::Float(n))),
        OpV::ConstString(s) => {
            let (st1, idx) = st.string(s);
            let (st2, n) = st1.index(idx);
            some(st2.call(Shim::ConstString, seq![n]))
        },
        OpV::LocalGet(_) | OpV::LocalSet(_, _) => x_local(f, st, op),
        OpV::Unary(u, v) => match x_unary(f, st, u, v) {
            Ok(r) => some(r),
            Err(e) => Err(e),
        },
        OpV::Binary(b, l, r) => match x_binary(f, st, b, l, r) {
            Ok(r) => some(r),
            Err(e) => Err(e),
        },
        OpV::Truthy(v) => match x_truthy(f, st, v) {
            Ok(r) => some(r),
            Err(e) => Err(e),
        },
        OpV::MakeArray(_) | OpV::MakeTable(_) | OpV::MakeCell(_) | OpV::MakeClosure(_, _) => x_make(
            f,
            st,
            op,
        ),
        OpV::ArraySet(_, _, _) | OpV::MapSet(_, _, _) | OpV::FieldSet(_, _, _)
        | OpV::CellSet(_, _) => x_write(f, st, op),
        OpV::CallScript(_, _) | OpV::CallHost(_, _) | OpV::CallBuiltinValue(_, _)
        | OpV::CallBuiltinMember(_, _, _) | OpV::ConstRef(_) | OpV::CallValue(_, _) => x_call(
            p,
            f,
            st,
            op,
            dest,
        ),
        _ => x_read(f, st, op, dest),
    }
}

/// The class of an operation's result, as it comes.
pub open spec fn result_class(p: ProgramV, f: FunctionV, op: OpV, dest: Option<ValueId>) -> Repr {
    match op {
        OpV::ConstNil | OpV::ConstString(_) | OpV::MakeArray(_) | OpV::MakeTable(_)
        | OpV::MakeCell(_) | OpV::MakeClosure(_, _) | OpV::MapKeys(_) | OpV::ClosureEnvGet(
            _,
            _,
        ) => Repr::Ptr,
        OpV::ConstBool(_) | OpV::Truthy(_) => Repr::Bool,
        OpV::ConstNumber(_) => Repr::Number,
        OpV::LocalGet(id) => if is_var(f, id) {
            repr_of(f.locals[id])
        } else {
            Repr::Ptr
        },
        OpV::Unary(u, _) => if u == UnOp::Not {
            Repr::Bool
        } else {
            Repr::Number
        },
        OpV::Binary(b, _, _) => match b {
            BinOp::Add | BinOp::Sub | BinOp::Mul | BinOp::Div | BinOp::FloorDiv | BinOp::Mod
            | BinOp::Pow => Repr::Number,
            BinOp::Concat => Repr::Ptr,
            _ => Repr::Bool,
        },
        OpV::CallScript(name, _) => match get_of(p.functions, name) {
            Some(g) => repr_of(g.ret),
            None => Repr::Ptr,
        },
        OpV::ConstRef(name) => match get_of(p.constants, name) {
            Some(c) => repr_of(c.ret),
            None => Repr::Ptr,
        },
        OpV::CallValue(callee, _) => if callee < f.values.len() {
            closure_classes(f.values[callee as int]).1
        } else {
            Repr::Ptr
        },
        _ => match dest_repr(f, dest) {
            Ok(r) => r,
            Err(_) => Repr::Ptr,
        },
    }
}

/// Translate an instruction. Its result is made one of its destination's class; where it may
/// fail, the function is left if it did.
#[verifier::opaque]
pub open spec fn x_instr(p: ProgramV, f: FunctionV, st: Tr, i: InstrV) -> TrStep<()> {
    match translate_op_of(p, f, st, i.op, i.dest) {
        Err(e) => Err(e),
        Ok((st0, r)) => match x_settled(f, st0, i.dest, r, result_class(p, f, i.op, i.dest)) {
            Err(e) => Err(e),
            Ok((st1, x)) => Ok(
                (x_define(st1.guarded_since(st.insts.len() as int), i.dest, x), ()),
            ),
        },
    }
}

/// An operation's result as one of its destination's class. A result that there is not is a
/// null handle, so that every value has a register.
#[verifier::opaque]
pub open spec fn x_settled(
    f: FunctionV,
    st: Tr,
    dest: Option<ValueId>,
    r: Option<Reg>,
    from: Repr,
) -> TrStep<Option<Reg>> {
    match dest {
        None => Ok((st, None)),
        Some(d) => if d >= f.values.len() {
            Err(refused("definition of an undeclared IR value"@))
        } else {
            let to = repr_of(f.values[d as int]);
            match r {
                Some(x) => some(st.coerced(x, from, to)),
                None => {
                    let (st1, z) = st.emit(InstV::Int(ClifTy::I64, 0));
                    some(st1.coerced(z, Repr::Unit, to))
                },
            }
        },
    }
}

/// Give an operation's destination its register.
#[verifier::opaque]
pub open spec fn x_define(st: Tr, dest: Option<ValueId>, x: Option<Reg>) -> Tr {
    match (dest, x) {
        (Some(d), Some(r)) => st.define(d, r),
        _ => st,
    }
}

/// Translate the instructions from `k` on.
#[verifier::opaque]
pub open spec fn x_instrs(p: ProgramV, f: FunctionV, st: Tr, is: Seq<InstrV>, k: int) -> TrStep<()>
    decreases is.len() - k,
{
    if 0 <= k < is.len() {
        match x_instr(p, f, st, is[k]) {
            Err(e) => Err(e),
            Ok((st1, _)) => x_instrs(p, f, st1, is, k + 1),
        }
    } else {
        Ok((st, ()))
    }
}

pub open spec fn is_block(f: FunctionV, b: BlockId) -> bool {
    b < f.blocks.len()
}

/// Translate the terminator of block number `idx`. A jump back first looks whether an error
/// was noted.
#[verifier::opaque]
pub open spec fn x_term(f: FunctionV, st: Tr, t: Terminator, idx: int) -> TrStep<End> {
    match t {
        Terminator::Return(Some(v)) => match x_as(f, st, v, repr_of(f.ret)) {
            Ok((st1, x)) => Ok((st1, End::Return(x))),
            Err(e) => Err(e),
        },
        Terminator::Return(None) => Ok((st, End::ReturnDefault)),
        Terminator::Jump(b) => if !is_block(f, b) {
            Err(refused("jump to an undefined IR block"@))
        } else if b < idx {
            let (st1, r) = st.call(Shim::Errored, Seq::empty());
            Ok((st1, End::JumpBack(r, b)))
        } else {
            Ok((st, End::Jump(b)))
        },
        Terminator::Branch { cond, then_blk, else_blk } => match x_truthy(f, st, cond) {
            Ok((st1, r)) => if is_block(f, then_blk) && is_block(f, else_blk) {
                Ok((st1, End::Branch(r, then_blk, else_blk)))
            } else {
                Err(refused("jump to an undefined IR block"@))
            },
            Err(e) => Err(e),
        },
        Terminator::Unreachable => Ok((st, End::Trap)),
    }
}

/// Translate the blocks from `idx` on.
#[verifier::opaque]
pub open spec fn x_blocks(p: ProgramV, f: FunctionV, st: Tr, idx: int, acc: Seq<MachineBlock>) -> TrStep<
    Seq<MachineBlock>,
>
    decreases f.blocks.len() - idx,
{
    if 0 <= idx < f.blocks.len() {
        match x_instrs(p, f, st, f.blocks[idx].instrs, 0) {
            Err(e) => Err(e),
            Ok((st1, _)) => match x_term(f, st1, f.blocks[idx].term, idx) {
                Err(e) => Err(e),
                Ok((st2, term)) => x_blocks(
                    p,
                    f,
                    st2,
                    idx + 1,
                    acc.push(MachineBlock { end: st2.insts.len() as usize, term }),
                ),
            },
        }
    } else {
        Ok((st, acc))
    }
}

/// The machine code of a function, and the pools after it.
pub open spec fn machine_code_of(p: ProgramV, f: FunctionV, pools: PoolsV) -> Result<
    (MachineCodeV, PoolsV),
    JitErrorV,
> {
    match x_blocks(
        p,
        f,
        Tr { pools, insts: Seq::empty(), ssa: Seq::new(f.values.len(), |i: int| None) },
        0,
        Seq::empty(),
    ) {
        Err(e) => Err(e),
        Ok((st, blocks)) => Ok((MachineCodeV { insts: st.insts, blocks }, st.pools)),
    }
}

/// The registers that an instruction reads.
pub open spec fn operands(i: InstV) -> Seq<Reg> {
    match i {
        InstV::SetVar(_, r) => seq![r],
        InstV::Guard(r) => seq![r],
        InstV::Float1(_, a) => seq![a],
        InstV::Float2(_, a, b) => seq![a, b],
        InstV::FloatTest(_, a, b) => seq![a, b],
        InstV::IntTest(_, a, _) => seq![a],
        InstV::IntEqual(a, b) => seq![a, b],
        InstV::Call(_, rs) => rs,
        InstV::Stack(rs) => rs,
        InstV::CallScript(_, rs) => rs,
        InstV::CallClosure { addr, env, args, .. } => seq![addr, env] + args,
        _ => Seq::empty(),
    }
}

/// Whether all registers in a list are below `n`.
pub open spec fn below(rs: Seq<Reg>, n: int) -> bool {
    forall|k: int| 0 <= k < rs.len() ==> (#[trigger] rs[k]) < n
}

/// How many arguments a runtime function takes besides the context.
pub open spec fn shim_arity(s: Shim) -> int {
    match s {
        Shim::TableNew | Shim::Errored => 0,
        Shim::BoxNumber | Shim::BoxBool | Shim::UnboxNumber | Shim::UnboxBool | Shim::ConstString
        | Shim::MemoryRef | Shim::NamespaceField | Shim::ArrayNew | Shim::MapKeys | Shim::Len
        | Shim::Truthy | Shim::CellNew | Shim::CellGet | Shim::ClosureCodeAddr
        | Shim::ConstRef => 1,
        Shim::ArrayPush | Shim::ArrayGet | Shim::MapGet | Shim::FieldGet | Shim::Concat
        | Shim::StrOrder | Shim::ValueEq | Shim::Pow | Shim::CheckOrder | Shim::CellSet
        | Shim::ClosureEnvGet => 2,
        _ => 3,
    }
}

/// Whether an instruction reads only registers below `n`, and hands a runtime function as many
/// arguments as it takes.
pub open spec fn inst_ok(i: InstV, n: int) -> bool {
    &&& below(operands(i), n)
    &&& i matches InstV::Call(s, args) ==> args.len() == shim_arity(s)
}

/// Whether every instruction reads only results of earlier ones.
pub open spec fn well_ordered(insts: Seq<InstV>) -> bool {
    forall|i: int| 0 <= i < insts.len() ==> inst_ok(#[trigger] insts[i], i)
}

/// Whether a block ends with a register below `n`, and at blocks below `nblocks`.
pub open spec fn end_ok(e: End, n: int, nblocks: int) -> bool {
    match e {
        End::Return(r) => r < n,
        End::ReturnDefault => true,
        End::Jump(b) => b < nblocks,
        End::JumpBack(r, b) => r < n && b < nblocks,
        End::Branch(r, a, b) => r < n && a < nblocks && b < nblocks,
        End::Trap => true,
    }
}


/// Whether machine code is closed: an instruction reads only results of earlier ones, a
/// runtime function gets as many arguments as it takes, blocks follow one another, and a
/// block ends with a register defined before its end and at blocks that exist.
pub open spec fn code_ok(c: MachineCodeV) -> bool {
    &&& well_ordered(c.insts)
    &&& forall|i: int|
        0 <= i < c.blocks.len() ==> {
            &&& (#[trigger] c.blocks[i]).end <= c.insts.len()
            &&& end_ok(c.blocks[i].term, c.blocks[i].end as int, c.blocks.len() as int)
        }
    &&& forall|i: int, j: int|
        0 <= i < j < c.blocks.len() ==> (#[trigger] c.blocks[i]).end <= (#[trigger] c.blocks[j]).end
}

/// What follows an instruction that may fail does not run if it failed: among what an
/// operation emitted, a guard follows every call that may note an error.
pub proof fn law_failures_are_guarded(st: Tr, from: int)
    requires
        0 <= from <= st.insts.len(),
        any_fallible(st.insts, from),
    ensures
        ({
            let n = st.insts.len() as int;
            let after = st.guarded_since(from).insts;
            &&& after.len() == n + 2
            &&& after[n] == InstV::Call(Shim::Errored, Seq::empty())
            &&& after[n + 1] == InstV::Guard(n as usize)
            &&& forall|k: int| 0 <= k < n ==> (#[trigger] after[k]) == st.insts[k]
        }),
{
    reveal(Tr::guarded_since);
    reveal(Tr::guarded);
    reveal(Tr::emit);
}

pub proof fn unfold_x_boxed_all(f: FunctionV, st: Tr, vs: Seq<ValueId>, i: int, acc: Seq<Reg>)
    ensures
        x_boxed_all(f, st, vs, i, acc) == ({
            if 0 <= i < vs.len() {
                match x_boxed(f, st, vs[i]) {
                    Err(e) => Err(e),
                    Ok((st1, r)) => x_boxed_all(f, st1, vs, i + 1, acc.push(r)),
                }
            } else {
                Ok((st, acc))
            }
        }),
{
    reveal(x_boxed_all);
}

pub proof fn unfold_x_args(
    f: FunctionV,
    st: Tr,
    vs: Seq<ValueId>,
    want: Seq<Repr>,
    i: int,
    acc: Seq<Reg>,
)
    ensures
        x_args(f, st, vs, want, i, acc) == ({
            if 0 <= i < vs.len() {
                match (reg_of(st, vs[i]), repr_at(f, vs[i])) {
                    (Ok(r), Ok(from)) => {
                        if wanted(want, i) == Repr::Unit {
                            x_args(f, st, vs, want, i + 1, acc)
                        } else {
                            let (st1, x) = st.coerced(r, from, wanted(want, i));
                            x_args(f, st1, vs, want, i + 1, acc.push(x))
                        }
                    },
                    (Ok(_), Err(e)) => Err(e),
                    (Err(e), _) => Err(e),
                }
            } else {
                Ok((st, acc))
            }
        }),
{
    reveal(x_args);
}

pub proof fn unfold_x_push_all(f: FunctionV, st: Tr, arr: Reg, vs: Seq<ValueId>, i: int)
    ensures
        x_push_all(f, st, arr, vs, i) == ({
            if 0 <= i < vs.len() {
                match x_boxed(f, st, vs[i]) {
                    Err(e) => Err(e),
                    Ok((st1, h)) => x_push_all(
                        f,
                        st1.call(Shim::ArrayPush, seq![arr, h]).0,
                        arr,
                        vs,
                        i + 1,
                    ),
                }
            } else {
                Ok((st, ()))
            }
        }),
{
    reveal(x_push_all);
}

pub proof fn unfold_x_set_all(
    f: FunctionV,
    st: Tr,
    tbl: Reg,
    pairs: Seq<(Seq<char>, ValueId)>,
    i: int,
)
    ensures
        x_set_all(f, st, tbl, pairs, i) == ({
            if 0 <= i < pairs.len() {
                let (st1, idx) = st.name(pairs[i].0);
                let (st2, n) = st1.index(idx);
                match x_boxed(f, st2, pairs[i].1) {
                    Err(e) => Err(e),
                    Ok((st3, h)) => x_set_all(
                        f,
                        st3.call(Shim::FieldSet, seq![tbl, n, h]).0,
                        tbl,
                        pairs,
                        i + 1,
                    ),
                }
            } else {
                Ok((st, ()))
            }
        }),
{
    reveal(x_set_all);
}

pub proof fn unfold_x_instrs(p: ProgramV, f: FunctionV, st: Tr, is: Seq<InstrV>, k: int)
    ensures
        x_instrs(p, f, st, is, k) == ({
            if 0 <= k < is.len() {
                match x_instr(p, f, st, is[k]) {
                    Err(e) => Err(e),
                    Ok((st1, _)) => x_instrs(p, f, st1, is, k + 1),
                }
            } else {
                Ok((st, ()))
            }
        }),
{
    reveal(x_instrs);
}

pub proof fn unfold_x_blocks(p: ProgramV, f: FunctionV, st: Tr, idx: int, acc: Seq<MachineBlock>)
    ensures
        x_blocks(p, f, st, idx, acc) == ({
            if 0 <= idx < f.blocks.len() {
                match x_instrs(p, f, st, f.blocks[idx].instrs, 0) {
                    Err(e) => Err(e),
                    Ok((st1, _)) => match x_term(f, st1, f.blocks[idx].term, idx) {
                        Err(e) => Err(e),
                        Ok((st2, term)) => x_blocks(
                            p,
                            f,
                            st2,
                            idx + 1,
                            acc.push(MachineBlock { end: st2.insts.len() as usize, term }),
                        ),
                    },
                }
            } else {
                Ok((st, acc))
            }
        }),
{
    reveal(x_blocks);
    reveal(x_instrs);
}
/// Whether a translation under way reads only what is defined.
pub open spec fn tr_ok(st: Tr) -> bool {
    &&& well_ordered(st.insts)
    &&& forall|v: int|
        0 <= v < st.ssa.len() ==> ((#[trigger] st.ssa[v]) is Some ==> st.ssa[v]->0
            < st.insts.len())
}

/// The state and what a step yielded, as a step of the model.
pub open spec fn stepped<T>(r: Result<T, JitError>, st: Tr) -> TrStep<T> {
    match r {
        Ok(x) => Ok((st, x)),
        Err(e) => Err(e@),
    }
}

fn refuse(msg: &str) -> (r: JitError)
    ensures
        r@ == refused(msg@),
{
    JitError::Unsupported(own(msg))
}

fn regs1(a: Reg) -> (r: Vec<Reg>)
    ensures
        r@ == seq![a],
{
    let mut v = Vec::new();
    v.push(a);
    assert(v@ =~= seq![a]);
    v
}

fn regs2(a: Reg, b: Reg) -> (r: Vec<Reg>)
    ensures
        r@ == seq![a, b],
{
    let mut v = Vec::new();
    v.push(a);
    v.push(b);
    assert(v@ =~= seq![a, b]);
    v
}

fn regs3(a: Reg, b: Reg, c: Reg) -> (r: Vec<Reg>)
    ensures
        r@ == seq![a, b, c],
{
    let mut v = Vec::new();
    v.push(a);
    v.push(b);
    v.push(c);
    assert(v@ =~= seq![a, b, c]);
    v
}

/// The machine type of a class.
pub fn clif_ty(r: Repr) -> (t: Option<ClifTy>)
    ensures
        t == clif_ty_of(r),
{
    match r {
        Repr::Number => Some(ClifTy::F64),
        Repr::Bool => Some(ClifTy::I8),
        Repr::Ptr => Some(ClifTy::I64),
        Repr::Unit => None,
    }
}

fn push_tys(out: &mut Vec<ClifTy>, rs: &Vec<Repr>)
    ensures
        final(out)@ == old(out)@ + clif_tys(rs@, rs@.len()),
{
    let ghost start = out@;
    let n: usize = rs.len();
    let mut i: usize = 0;
    assert(out@ =~= start + clif_tys(rs@, 0));
    while i < n
        invariant
            i <= n,
            n == rs@.len(),
            out@ == start + clif_tys(rs@, i as nat),
        decreases n - i,
    {
        match clif_ty(rs[i]) {
            Some(t) => {
                out.push(t);
                assert(out@ =~= start + clif_tys(rs@, i as nat).push(t));
            },
            None => {},
        }
        i += 1;
    }
}

/// The signature of a script function: the context and the parameters.
pub fn typed_signature(params: &Vec<Repr>, ret: Repr) -> (r: Signature)
    ensures
        r@ == (SignatureV {
            params: seq![ClifTy::I64] + clif_tys(params@, params@.len()),
            ret: clif_ty_of(ret),
        }),
{
    let mut tys: Vec<ClifTy> = Vec::new();
    tys.push(ClifTy::I64);
    assert(tys@ =~= seq![ClifTy::I64]);
    push_tys(&mut tys, params);
    Signature { params: tys, ret: clif_ty(ret) }
}

/// The signature of a trampoline: the context, the arguments' address and their number; the
/// result is a word.
pub fn trampoline_signature() -> (r: Signature)
    ensures
        r@ == (SignatureV {
            params: seq![ClifTy::I64, ClifTy::I64, ClifTy::I32],
            ret: Some(ClifTy::I64),
        }),
{
    let mut tys: Vec<ClifTy> = Vec::new();
    tys.push(ClifTy::I64);
    tys.push(ClifTy::I64);
    tys.push(ClifTy::I32);
    assert(tys@ =~= seq![ClifTy::I64, ClifTy::I64, ClifTy::I32]);
    Signature { params: tys, ret: Some(ClifTy::I64) }
}

/// The signature of a lifted closure: the context, the closure and the parameters.
pub fn closure_signature(params: &Vec<Repr>, ret: Repr) -> (r: Signature)
    ensures
        r@ == (SignatureV {
            params: seq![ClifTy::I64, ClifTy::I64] + clif_tys(params@, params@.len()),
            ret: clif_ty_of(ret),
        }),
{
    let mut tys: Vec<ClifTy> = Vec::new();
    tys.push(ClifTy::I64);
    tys.push(ClifTy::I64);
    assert(tys@ =~= seq![ClifTy::I64, ClifTy::I64]);
    push_tys(&mut tys, params);
    Signature { params: tys, ret: clif_ty(ret) }
}

/// The signature of a closure's trampoline: the context, the closure, the arguments' address
/// and their number; the result is a word.
pub fn env_trampoline_signature() -> (r: Signature)
    ensures
        r@ == (SignatureV {
            params: seq![ClifTy::I64, ClifTy::I64, ClifTy::I64, ClifTy::I32],
            ret: Some(ClifTy::I64),
        }),
{
    let mut tys: Vec<ClifTy> = Vec::new();
    tys.push(ClifTy::I64);
    tys.push(ClifTy::I64);
    tys.push(ClifTy::I64);
    tys.push(ClifTy::I32);
    assert(tys@ =~= seq![ClifTy::I64, ClifTy::I64, ClifTy::I64, ClifTy::I32]);
    Signature { params: tys, ret: Some(ClifTy::I64) }
}

/// The classes of a list of types.
pub fn reprs(ts: &Vec<Type>) -> (r: Vec<Repr>)
    ensures
        r@ == reprs_of(types_v(ts@)),
{
    let mut out: Vec<Repr> = Vec::new();
    let n: usize = ts.len();
    let mut i: usize = 0;
    while i < n
        invariant
            i <= n,
            n == ts@.len(),
            out@.len() == i,
            forall|j: int| 0 <= j < i ==> (#[trigger] out@[j]) == repr_of(ts@[j]@),
        decreases n - i,
    {
        out.push(Repr::of(&ts[i]));
        i += 1;
    }
    assert(out@ =~= reprs_of(types_v(ts@)));
    out
}

/// The float instruction of a `math` function of one argument, if there is one with the same
/// result.
pub fn native_math_inst(member: &str) -> (r: Option<Float1>)
    ensures
        r == native_math(member@),
{
    if same(member, "floor") {
        Some(Float1::Floor)
    } else if same(member, "ceil") {
        Some(Float1::Ceil)
    } else if same(member, "abs") {
        Some(Float1::Abs)
    } else if same(member, "sqrt") {
        Some(Float1::Sqrt)
    } else {
        None
    }
}

fn relation(op: BinOp) -> (r: Relation)
    ensures
        r == relation_of(op),
{
    match op {
        BinOp::Lt => Relation::Less,
        BinOp::Le => Relation::LessEqual,
        BinOp::Gt => Relation::Greater,
        _ => Relation::GreaterEqual,
    }
}

/// Translates a function to machine instructions.
#[derive(Debug)]
pub struct Translator<'a> {
    program: &'a Program,
    func: &'a Function,
    pools: Pools,
    insts: Vec<Inst>,
    ssa: Vec<Option<Reg>>,
}

impl<'a> Translator<'a> {
    /// The translation under way.
    #[verifier::opaque]
    pub closed spec fn view(&self) -> Tr {
        Tr { pools: self.pools@, insts: insts_v(self.insts@), ssa: self.ssa@ }
    }

    /// The function being translated.
    pub closed spec fn fun(&self) -> FunctionV {
        self.func@
    }

    /// The module that the function belongs to.
    pub closed spec fn prog(&self) -> ProgramV {
        self.program@
    }

    /// Whether all that was emitted is defined before it is read.
    pub open spec fn ready(&self) -> bool {
        tr_ok(self@) && self@.ssa.len() == self.fun().values.len() && self@.insts.len()
            <= usize::MAX
    }

    /// Whether this is a later state of the same translation.
    pub open spec fn follows(&self, before: &Self) -> bool {
        &&& self.ready()
        &&& self.fun() == before.fun()
        &&& self.prog() == before.prog()
        &&& before@.insts.len() <= self@.insts.len()
    }

    /// A translation with nothing emitted yet.
    pub fn new(program: &'a Program, func: &'a Function, pools: Pools) -> (r: Self)
        ensures
            r@ == (Tr {
                pools: pools@,
                insts: Seq::empty(),
                ssa: Seq::new(func@.values.len(), |i: int| None),
            }),
            r.fun() == func@,
            r.prog() == program@,
            r.ready(),
    {
        let mut ssa: Vec<Option<Reg>> = Vec::new();
        let n: usize = func.values.len();
        let mut i: usize = 0;
        while i < n
            invariant
                i <= n,
                n == func.values@.len(),
                ssa@.len() == i,
                forall|j: int| 0 <= j < i ==> (#[trigger] ssa@[j]) is None,
            decreases n - i,
        {
            ssa.push(None);
            i += 1;
        }
        let r = Translator { program, func, pools, insts: Vec::new(), ssa };
        proof {
            reveal(Translator::view);
            assert(ssa@ =~= Seq::new(func@.values.len(), |i: int| None));
            assert(insts_v(Seq::<Inst>::empty()) =~= Seq::<InstV>::empty());
        }
        r
    }

    fn emit(&mut self, i: Inst) -> (r: Reg)
        requires
            old(self).ready(),
            inst_ok(i@, old(self)@.insts.len() as int),
        ensures
            (final(self)@, r) == old(self)@.emit(i@),
            final(self).follows(old(self)),
            r < final(self)@.insts.len(),
    {
        proof {
            reveal(Translator::view);
            reveal(Tr::emit);
        }
        let ghost before = self@;
        let ghost iv = i@;
        let r: Reg = self.insts.len();
        self.insts.push(i);
        let _count: usize = self.insts.len();
        proof {
            assert(insts_v(self.insts@) =~= before.insts.push(iv));
            let now = self@.insts;
            assert forall|k: int| 0 <= k < now.len() implies inst_ok(
                #[trigger] now[k],
                k,
            ) by {
                if k < before.insts.len() {
                    assert(now[k] == before.insts[k]);
                }
            }
            assert forall|v: int| 0 <= v < self@.ssa.len() implies ((#[trigger] self@.ssa[v])
                is Some ==> self@.ssa[v]->0 < now.len()) by {
                assert(self@.ssa[v] == before.ssa[v]);
            }
        }
        r
    }

    fn call(&mut self, s: Shim, args: Vec<Reg>) -> (r: Reg)
        requires
            old(self).ready(),
            below(args@, old(self)@.insts.len() as int),
            args@.len() == shim_arity(s),
        ensures
            (final(self)@, r) == old(self)@.call(s, args@),
            final(self).follows(old(self)),
            r < final(self)@.insts.len(),
    {
        self.emit(Inst::Call(s, args))
    }

    fn iconst32(&mut self, n: u32) -> (r: Reg)
        requires
            old(self).ready(),
        ensures
            (final(self)@, r) == old(self)@.index(n),
            final(self).follows(old(self)),
            r < final(self)@.insts.len(),
    {
        self.emit(Inst::Int(ClifTy::I32, n as i64))
    }

    fn iconst(&mut self, t: ClifTy, n: i64) -> (r: Reg)
        requires
            old(self).ready(),
        ensures
            (final(self)@, r) == old(self)@.emit(InstV::Int(t, n)),
            final(self).follows(old(self)),
            r < final(self)@.insts.len(),
    {
        self.emit(Inst::Int(t, n))
    }

    fn val(&self, v: ValueId) -> (r: Result<Reg, JitError>)
        requires
            self.ready(),
        ensures
            match r {
                Ok(x) => reg_of(self@, v) == Ok::<Reg, JitErrorV>(x) && x < self@.insts.len(),
                Err(e) => reg_of(self@, v) == Err::<Reg, JitErrorV>(e@),
            },
    {
        proof {
            reveal(Translator::view);
            reveal(Tr::val);
        }
        if (v as usize) < self.ssa.len() {
            assert(self@.ssa[v as int] == self.ssa@[v as int]);
            match self.ssa[v as usize] {
                Some(r) => Ok(r),
                None => Err(refuse("use of undefined IR value")),
            }
        } else {
            Err(refuse("use of undefined IR value"))
        }
    }

    fn define(&mut self, v: ValueId, r: Reg)
        requires
            old(self).ready(),
            v < old(self).fun().values.len(),
            r < old(self)@.insts.len(),
        ensures
            final(self)@ == old(self)@.define(v, r),
            final(self).follows(old(self)),
    {
        proof {
            reveal(Translator::view);
            reveal(Tr::define);
        }
        self.ssa.set(v as usize, Some(r));
    }

    fn value_repr(&self, v: ValueId) -> (r: Result<Repr, JitError>)
        ensures
            match r {
                Ok(x) => repr_at(self.fun(), v) == Ok::<Repr, JitErrorV>(x),
                Err(e) => repr_at(self.fun(), v) == Err::<Repr, JitErrorV>(e@),
            },
    {
        if (v as usize) < self.func.values.len() {
            assert(self.func@.values[v as int] == self.func.values@[v as int]@);
            Ok(Repr::of(self.func.value_type(v)))
        } else {
            Err(refuse("use of undefined IR value"))
        }
    }

    fn dest_repr(&self, dest: Option<ValueId>) -> (r: Result<Repr, JitError>)
        ensures
            match r {
                Ok(x) => dest_repr(self.fun(), dest) == Ok::<Repr, JitErrorV>(x),
                Err(e) => dest_repr(self.fun(), dest) == Err::<Repr, JitErrorV>(e@),
            },
    {
        match dest {
            Some(v) => self.value_repr(v),
            None => Ok(Repr::Ptr),
        }
    }

    /// The class of a local that is a variable.
    fn var_repr(&self, id: LocalId) -> (r: Option<Repr>)
        ensures
            match r {
                Some(t) => is_var(self.fun(), id) && t == repr_of(self.fun().locals[id]),
                None => !is_var(self.fun(), id),
            },
    {
        broadcast use vstd::std_specs::btree::group_btree_axioms;

        match self.func.locals.get(&id) {
            Some(t) => {
                assert(self.fun().locals[id] == t@);
                match Repr::of(t) {
                    Repr::Unit => None,
                    r => Some(r),
                }
            },
            None => None,
        }
    }

    fn box_handle(&mut self, v: ValueId) -> (r: Result<Reg, JitError>)
        requires
            old(self).ready(),
        ensures
            stepped(r, final(self)@) == x_boxed(old(self).fun(), old(self)@, v),
            final(self).follows(old(self)),
            r is Ok ==> r->Ok_0 < final(self)@.insts.len(),
    {
        reveal(x_boxed);
        let val: Reg = match self.val(v) {
            Ok(x) => x,
            Err(e) => {
                return Err(e);
            },
        };
        match self.value_repr(v) {
            Err(e) => Err(e),
            Ok(Repr::Number) => Ok(self.call(Shim::BoxNumber, regs1(val))),
            Ok(Repr::Bool) => Ok(self.call(Shim::BoxBool, regs1(val))),
            Ok(Repr::Ptr) => Ok(val),
            Ok(Repr::Unit) => Ok(self.iconst(ClifTy::I64, 0)),
        }
    }

    fn unbox_handle(&mut self, handle: Reg, repr: Repr) -> (r: Reg)
        requires
            old(self).ready(),
            handle < old(self)@.insts.len(),
        ensures
            (final(self)@, r) == old(self)@.unboxed(handle, repr),
            final(self).follows(old(self)),
            r < final(self)@.insts.len(),
    {
        reveal(Tr::unboxed);
        match repr {
            Repr::Number => self.call(Shim::UnboxNumber, regs1(handle)),
            Repr::Bool => self.call(Shim::UnboxBool, regs1(handle)),
            Repr::Ptr => handle,
            Repr::Unit => self.iconst(ClifTy::I64, 0),
        }
    }

    fn coerce(&mut self, val: Reg, from: Repr, to: Repr) -> (r: Reg)
        requires
            old(self).ready(),
            val < old(self)@.insts.len(),
        ensures
            (final(self)@, r) == old(self)@.coerced(val, from, to),
            final(self).follows(old(self)),
            r < final(self)@.insts.len(),
    {
        reveal(Tr::coerced);
        match (from, to) {
            (Repr::Number, Repr::Ptr) => self.call(Shim::BoxNumber, regs1(val)),
            (Repr::Bool, Repr::Ptr) => self.call(Shim::BoxBool, regs1(val)),
            (Repr::Number, Repr::Bool) => {
                let h: Reg = self.call(Shim::BoxNumber, regs1(val));
                self.unbox_handle(h, Repr::Bool)
            },
            (Repr::Bool, Repr::Number) => {
                let h: Reg = self.call(Shim::BoxBool, regs1(val));
                self.unbox_handle(h, Repr::Number)
            },
            (Repr::Ptr, Repr::Number) | (Repr::Unit, Repr::Number) => self.unbox_handle(
                val,
                Repr::Number,
            ),
            (Repr::Ptr, Repr::Bool) | (Repr::Unit, Repr::Bool) => self.unbox_handle(
                val,
                Repr::Bool,
            ),
            (Repr::Number, Repr::Unit) | (Repr::Bool, Repr::Unit) => self.unbox_handle(
                val,
                Repr::Unit,
            ),
            _ => val,
        }
    }

    fn arg_array(&mut self, handles: Vec<Reg>) -> (r: (Reg, Reg))
        requires
            old(self).ready(),
            below(handles@, old(self)@.insts.len() as int),
        ensures
            (final(self)@, r) == old(self)@.arg_array(handles@),
            final(self).follows(old(self)),
            r.0 < final(self)@.insts.len(),
            r.1 < final(self)@.insts.len(),
    {
        reveal(Tr::arg_array);
        let n: usize = handles.len();
        let argc: Reg = self.iconst32(#[verifier::truncate] (n as u32));
        if n == 0 {
            let base: Reg = self.iconst(ClifTy::I64, 0);
            (base, argc)
        } else {
            let base: Reg = self.emit(Inst::Stack(handles));
            (base, argc)
        }
    }

    fn box_all(&mut self, vs: &Vec<ValueId>) -> (r: Result<Vec<Reg>, JitError>)
        requires
            old(self).ready(),
        ensures
            match r {
                Ok(rs) => x_boxed_all(old(self).fun(), old(self)@, vs@, 0, Seq::empty()) == Ok::<
                    (Tr, Seq<Reg>),
                    JitErrorV,
                >((final(self)@, rs@)) && below(rs@, final(self)@.insts.len() as int),
                Err(e) => x_boxed_all(old(self).fun(), old(self)@, vs@, 0, Seq::empty()) == Err::<
                    (Tr, Seq<Reg>),
                    JitErrorV,
                >(e@),
            },
            final(self).follows(old(self)),
    {
        let ghost f = self.fun();
        let ghost whole = x_boxed_all(f, self@, vs@, 0, Seq::empty());
        let mut out: Vec<Reg> = Vec::new();
        let n: usize = vs.len();
        let mut i: usize = 0;
        while i < n
            invariant
                i <= n,
                n == vs@.len(),
                self.follows(old(self)),
                f == self.fun(),
                below(out@, self@.insts.len() as int),
                f == old(self).fun(),
                whole == x_boxed_all(f, old(self)@, vs@, 0, Seq::empty()),
                x_boxed_all(f, self@, vs@, i as int, out@) == whole,
            decreases n - i,
        {
            proof {
                unfold_x_boxed_all(f, self@, vs@, i as int, out@);
            }
            match self.box_handle(vs[i]) {
                Ok(h) => {
                    out.push(h);
                },
                Err(e) => {
                    assert(whole == Err::<(Tr, Seq<Reg>), JitErrorV>(e@));
                    return Err(e);
                },
            }
            i += 1;
        }
        proof {
            unfold_x_boxed_all(f, self@, vs@, i as int, out@);
        }
        Ok(out)
    }

    fn as_class(&mut self, v: ValueId, to: Repr) -> (r: Result<Reg, JitError>)
        requires
            old(self).ready(),
        ensures
            stepped(r, final(self)@) == x_as(old(self).fun(), old(self)@, v, to),
            final(self).follows(old(self)),
            r is Ok ==> r->Ok_0 < final(self)@.insts.len() && v < old(self).fun().values.len(),
    {
        reveal(x_as);
        let x: Reg = match self.val(v) {
            Ok(x) => x,
            Err(e) => {
                return Err(e);
            },
        };
        match self.value_repr(v) {
            Ok(from) => Ok(self.coerce(x, from, to)),
            Err(e) => Err(e),
        }
    }

    fn both(&mut self, v: ValueId, c: Repr, w: ValueId, d: Repr) -> (r: Result<
        (Reg, Reg),
        JitError,
    >)
        requires
            old(self).ready(),
        ensures
            stepped(r, final(self)@) == x_both(old(self).fun(), old(self)@, v, c, w, d),
            final(self).follows(old(self)),
            r is Ok ==> r->Ok_0.0 < final(self)@.insts.len() && r->Ok_0.1
                < final(self)@.insts.len(),
    {
        reveal(x_both);
        let a: Reg = match self.as_class(v, c) {
            Ok(x) => x,
            Err(e) => {
                return Err(e);
            },
        };
        match self.as_class(w, d) {
            Ok(b) => Ok((a, b)),
            Err(e) => Err(e),
        }
    }

    fn args(&mut self, vs: &Vec<ValueId>, want: &Vec<Repr>) -> (r: Result<Vec<Reg>, JitError>)
        requires
            old(self).ready(),
        ensures
            match r {
                Ok(rs) => Ok::<(Tr, Seq<Reg>), JitErrorV>((final(self)@, rs@)),
                Err(e) => Err::<(Tr, Seq<Reg>), JitErrorV>(e@),
            } == x_args(old(self).fun(), old(self)@, vs@, want@, 0, Seq::empty()),
            final(self).follows(old(self)),
            r matches Ok(rs) ==> below(rs@, final(self)@.insts.len() as int),
    {
        let ghost f = self.fun();
        let ghost whole = x_args(f, self@, vs@, want@, 0, Seq::empty());
        let mut out: Vec<Reg> = Vec::new();
        let n: usize = vs.len();
        let mut i: usize = 0;
        while i < n
            invariant
                i <= n,
                n == vs@.len(),
                self.ready(),
                f == self.fun(),
                f == old(self).fun(),
                self.follows(old(self)),
                below(out@, self@.insts.len() as int),
                whole == x_args(f, old(self)@, vs@, want@, 0, Seq::empty()),
                x_args(f, self@, vs@, want@, i as int, out@) == whole,
            decreases n - i,
        {
            proof {
                unfold_x_args(f, self@, vs@, want@, i as int, out@);
            }
            let v: Reg = match self.val(vs[i]) {
                Ok(h) => h,
                Err(e) => {
                    return Err(e);
                },
            };
            let from: Repr = match self.value_repr(vs[i]) {
                Ok(t) => t,
                Err(e) => {
                    return Err(e);
                },
            };
            let to: Repr = if i < want.len() {
                want[i]
            } else {
                Repr::Ptr
            };
            if to != Repr::Unit {
                let x: Reg = self.coerce(v, from, to);
                out.push(x);
            }
            i += 1;
        }
        proof {
            unfold_x_args(f, self@, vs@, want@, i as int, out@);
        }
        Ok(out)
    }

    fn result(&mut self, h: Reg, dest: Option<ValueId>) -> (r: Result<Option<Reg>, JitError>)
        requires
            old(self).ready(),
            h < old(self)@.insts.len(),
        ensures
            stepped(r, final(self)@) == x_result(old(self).fun(), old(self)@, h, dest),
            final(self).follows(old(self)),
            r is Ok && r->Ok_0 is Some ==> r->Ok_0->0 < final(self)@.insts.len(),
    {
        match self.dest_repr(dest) {
            Ok(t) => {
                let v: Reg = self.unbox_handle(h, t);
                Ok(Some(v))
            },
            Err(e) => Err(e),
        }
    }

    fn translate_unary(&mut self, op: UnOp, v: ValueId) -> (r: Result<Reg, JitError>)
        requires
            old(self).ready(),
        ensures
            stepped(r, final(self)@) == x_unary(old(self).fun(), old(self)@, op, v),
            final(self).follows(old(self)),
            r is Ok ==> r->Ok_0 < final(self)@.insts.len(),
    {
        match op {
            UnOp::Neg => match self.as_class(v, Repr::Number) {
                Ok(a) => Ok(self.emit(Inst::Float1(Float1::Neg, a))),
                Err(e) => Err(e),
            },
            UnOp::Not => match self.translate_truthy(v) {
                Ok(a) => Ok(self.emit(Inst::IntTest(Relation::Equal, a, 0))),
                Err(e) => Err(e),
            },
            UnOp::Len => match self.as_class(v, Repr::Ptr) {
                Ok(a) => Ok(self.call(Shim::Len, regs1(a))),
                Err(e) => Err(e),
            },
        }
    }

    fn translate_arith(&mut self, op: BinOp, a: Reg, b: Reg) -> (r: Reg)
        requires
            old(self).ready(),
            a < old(self)@.insts.len(),
            b < old(self)@.insts.len(),
        ensures
            (final(self)@, r) == x_arith(old(self)@, op, a, b),
            final(self).follows(old(self)),
            r < final(self)@.insts.len(),
    {
        reveal(x_arith);
        match op {
            BinOp::Add => self.emit(Inst::Float2(Float2::Add, a, b)),
            BinOp::Sub => self.emit(Inst::Float2(Float2::Sub, a, b)),
            BinOp::Mul => self.emit(Inst::Float2(Float2::Mul, a, b)),
            BinOp::Div => self.emit(Inst::Float2(Float2::Div, a, b)),
            BinOp::FloorDiv => {
                let q: Reg = self.emit(Inst::Float2(Float2::Div, a, b));
                self.emit(Inst::Float1(Float1::Floor, q))
            },
            BinOp::Mod => {
                let q: Reg = self.emit(Inst::Float2(Float2::Div, a, b));
                let fl: Reg = self.emit(Inst::Float1(Float1::Floor, q));
                let prod: Reg = self.emit(Inst::Float2(Float2::Mul, fl, b));
                self.emit(Inst::Float2(Float2::Sub, a, prod))
            },
            _ => self.call(Shim::Pow, regs2(a, b)),
        }
    }

    fn translate_compare(&mut self, op: BinOp, a: Reg, b: Reg, t: Repr) -> (r: Reg)
        requires
            old(self).ready(),
            a < old(self)@.insts.len(),
            b < old(self)@.insts.len(),
        ensures
            (final(self)@, r) == x_ordering(old(self)@, op, a, b, t),
            final(self).follows(old(self)),
            r < final(self)@.insts.len(),
    {
        reveal(x_ordering);
        if t == Repr::Number {
            let out: Reg = self.emit(Inst::FloatTest(relation(op), a, b));
            let _checked: Reg = self.call(Shim::CheckOrder, regs2(a, b));
            out
        } else {
            let ord: Reg = self.call(Shim::StrOrder, regs2(a, b));
            self.emit(Inst::IntTest(relation(op), ord, 0))
        }
    }

    fn translate_equality(&mut self, op: BinOp, a: Reg, b: Reg, t: Repr) -> (r: Reg)
        requires
            old(self).ready(),
            a < old(self)@.insts.len(),
            b < old(self)@.insts.len(),
        ensures
            (final(self)@, r) == x_equality(old(self)@, op, a, b, t),
            final(self).follows(old(self)),
            r < final(self)@.insts.len(),
    {
        reveal(x_equality);
        let eq: Reg = match t {
            Repr::Number => self.emit(Inst::FloatTest(Relation::Equal, a, b)),
            Repr::Bool => self.emit(Inst::IntEqual(a, b)),
            _ => self.call(Shim::ValueEq, regs2(a, b)),
        };
        if let BinOp::Eq = op {
            eq
        } else {
            self.emit(Inst::IntTest(Relation::Equal, eq, 0))
        }
    }

    fn translate_binary(&mut self, op: BinOp, l: ValueId, r: ValueId) -> (out: Result<
        Reg,
        JitError,
    >)
        requires
            old(self).ready(),
        ensures
            stepped(out, final(self)@) == x_binary(old(self).fun(), old(self)@, op, l, r),
            final(self).follows(old(self)),
            out is Ok ==> out->Ok_0 < final(self)@.insts.len(),
    {
        reveal(x_binary);
        match op {
            BinOp::Add | BinOp::Sub | BinOp::Mul | BinOp::Div | BinOp::FloorDiv | BinOp::Mod
            | BinOp::Pow => match self.both(l, Repr::Number, r, Repr::Number) {
                Ok((a, b)) => Ok(self.translate_arith(op, a, b)),
                Err(e) => Err(e),
            },
            BinOp::Concat => match self.both(l, Repr::Ptr, r, Repr::Ptr) {
                Ok((a, b)) => Ok(self.call(Shim::Concat, regs2(a, b))),
                Err(e) => Err(e),
            },
            BinOp::Lt | BinOp::Le | BinOp::Gt | BinOp::Ge => {
                let c: Repr = if self.numeric(l) || self.numeric(r) {
                    Repr::Number
                } else {
                    Repr::Ptr
                };
                match self.both(l, c, r, c) {
                    Ok((a, b)) => Ok(self.translate_compare(op, a, b, c)),
                    Err(e) => Err(e),
                }
            },
            BinOp::Eq | BinOp::Ne => {
                let c: Repr = match (self.value_repr(l), self.value_repr(r)) {
                    (Ok(t), Ok(u)) => if t == u {
                        t
                    } else {
                        // Values of different classes are compared as handles.
                        Repr::Ptr
                    },
                    _ => Repr::Ptr,
                };
                match self.both(l, c, r, c) {
                    Ok((a, b)) => Ok(self.translate_equality(op, a, b, c)),
                    Err(e) => Err(e),
                }
            },
            BinOp::And | BinOp::Or => Err(refuse("short-circuited in lowering")),
        }
    }

    /// Whether a value is ordered as a number.
    fn numeric(&self, v: ValueId) -> (r: bool)
        ensures
            r == (v < self.fun().values.len() && is_numeric(self.fun().values[v as int])),
    {
        if (v as usize) >= self.func.values.len() {
            return false;
        }
        numeric_type(self.func.value_type(v))
    }

    fn translate_truthy(&mut self, v: ValueId) -> (r: Result<Reg, JitError>)
        requires
            old(self).ready(),
        ensures
            stepped(r, final(self)@) == x_truthy(old(self).fun(), old(self)@, v),
            final(self).follows(old(self)),
            r is Ok ==> r->Ok_0 < final(self)@.insts.len(),
    {
        reveal(x_truthy);
        match self.value_repr(v) {
            Err(e) => Err(e),
            Ok(Repr::Number) => Ok(self.iconst(ClifTy::I8, 1)),
            Ok(t) => {
                let a: Reg = match self.val(v) {
                    Ok(x) => x,
                    Err(e) => {
                        return Err(e);
                    },
                };
                if t == Repr::Bool {
                    Ok(a)
                } else {
                    Ok(self.call(Shim::Truthy, regs1(a)))
                }
            },
        }
    }

    fn push_all(&mut self, arr: Reg, vs: &Vec<ValueId>) -> (r: Result<(), JitError>)
        requires
            old(self).ready(),
            arr < old(self)@.insts.len(),
        ensures
            stepped(r, final(self)@) == x_push_all(old(self).fun(), old(self)@, arr, vs@, 0),
            final(self).follows(old(self)),
    {
        let ghost f = self.fun();
        let ghost whole = x_push_all(f, self@, arr, vs@, 0);
        let n: usize = vs.len();
        let mut i: usize = 0;
        while i < n
            invariant
                i <= n,
                n == vs@.len(),
                self.follows(old(self)),
                f == self.fun(),
                arr < self@.insts.len(),
                f == old(self).fun(),
                whole == x_push_all(f, old(self)@, arr, vs@, 0),
                x_push_all(f, self@, arr, vs@, i as int) == whole,
            decreases n - i,
        {
            proof {
                unfold_x_push_all(f, self@, arr, vs@, i as int);
            }
            match self.box_handle(vs[i]) {
                Ok(h) => {
                    let _pushed: Reg = self.call(Shim::ArrayPush, regs2(arr, h));
                },
                Err(e) => {
                    return Err(e);
                },
            }
            i += 1;
        }
        proof {
            unfold_x_push_all(f, self@, arr, vs@, i as int);
        }
        Ok(())
    }

    fn set_all(&mut self, tbl: Reg, pairs: &Vec<(String, ValueId)>) -> (r: Result<(), JitError>)
        requires
            old(self).ready(),
            tbl < old(self)@.insts.len(),
        ensures
            stepped(r, final(self)@) == x_set_all(
                old(self).fun(),
                old(self)@,
                tbl,
                pairs_v(pairs@),
                0,
            ),
            final(self).follows(old(self)),
    {
        let ghost f = self.fun();
        let ghost pv = pairs_v(pairs@);
        let ghost whole = x_set_all(f, self@, tbl, pv, 0);
        let n: usize = pairs.len();
        let mut i: usize = 0;
        while i < n
            invariant
                i <= n,
                n == pairs@.len(),
                pv == pairs_v(pairs@),
                self.follows(old(self)),
                f == self.fun(),
                tbl < self@.insts.len(),
                f == old(self).fun(),
                whole == x_set_all(f, old(self)@, tbl, pv, 0),
                x_set_all(f, self@, tbl, pv, i as int) == whole,
            decreases n - i,
        {
            proof {
                unfold_x_set_all(f, self@, tbl, pv, i as int);
                assert(pv[i as int] == (pairs@[i as int].0@, pairs@[i as int].1));
            }
            let idx: u32 = self.intern_name(pairs[i].0.as_str());
            let k: Reg = self.iconst32(idx);
            match self.box_handle(pairs[i].1) {
                Ok(h) => {
                    let _set: Reg = self.call(Shim::FieldSet, regs3(tbl, k, h));
                },
                Err(e) => {
                    return Err(e);
                },
            }
            i += 1;
        }
        proof {
            unfold_x_set_all(f, self@, tbl, pv, i as int);
        }
        Ok(())
    }

    fn translate_read(&mut self, op: &Op, dest: Option<ValueId>) -> (r: Result<
        Option<Reg>,
        JitError,
    >)
        requires
            old(self).ready(),
        ensures
            stepped(r, final(self)@) == x_read(old(self).fun(), old(self)@, op@, dest),
            final(self).follows(old(self)),
            r is Ok && r->Ok_0 is Some ==> r->Ok_0->0 < final(self)@.insts.len(),
    {
        reveal(x_read);
        match op {
            Op::ArrayGet(base, idx) => {
                let (b, i): (Reg, Reg) = match self.both(*base, Repr::Ptr, *idx, Repr::Number) {
                    Ok(x) => x,
                    Err(e) => {
                        return Err(e);
                    },
                };
                let h: Reg = self.call(Shim::ArrayGet, regs2(b, i));
                self.result(h, dest)
            },
            Op::MapGet(base, key) => {
                let (b, k): (Reg, Reg) = match self.both(*base, Repr::Ptr, *key, Repr::Ptr) {
                    Ok(x) => x,
                    Err(e) => {
                        return Err(e);
                    },
                };
                let h: Reg = self.call(Shim::MapGet, regs2(b, k));
                self.result(h, dest)
            },
            Op::FieldGet(base, name) => {
                let b: Reg = match self.as_class(*base, Repr::Ptr) {
                    Ok(x) => x,
                    Err(e) => {
                        return Err(e);
                    },
                };
                let idx: u32 = self.intern_name(name.as_str());
                let n: Reg = self.iconst32(idx);
                let h: Reg = self.call(Shim::FieldGet, regs2(b, n));
                self.result(h, dest)
            },
            Op::MapKeys(base) => {
                let b: Reg = match self.as_class(*base, Repr::Ptr) {
                    Ok(x) => x,
                    Err(e) => {
                        return Err(e);
                    },
                };
                let h: Reg = self.call(Shim::MapKeys, regs1(b));
                Ok(Some(h))
            },
            Op::MemoryRef(name) => {
                let idx: u32 = self.intern_memory(name.as_str());
                let n: Reg = self.iconst32(idx);
                let h: Reg = self.call(Shim::MemoryRef, regs1(n));
                self.result(h, dest)
            },
            Op::NamespaceField(ns, field) => {
                let idx: u32 = self.intern_namespace_field(ns.as_str(), field.as_str());
                let n: Reg = self.iconst32(idx);
                let h: Reg = self.call(Shim::NamespaceField, regs1(n));
                self.result(h, dest)
            },
            Op::CellGet(cell) => {
                let c: Reg = match self.as_class(*cell, Repr::Ptr) {
                    Ok(x) => x,
                    Err(e) => {
                        return Err(e);
                    },
                };
                let h: Reg = self.call(Shim::CellGet, regs1(c));
                self.result(h, dest)
            },
            Op::ClosureEnvGet(clo, i) => {
                let c: Reg = match self.as_class(*clo, Repr::Ptr) {
                    Ok(x) => x,
                    Err(e) => {
                        return Err(e);
                    },
                };
                let n: Reg = self.iconst32(*i);
                let h: Reg = self.call(Shim::ClosureEnvGet, regs2(c, n));
                Ok(Some(h))
            },
            _ => Err(refuse("not a read")),
        }
    }

    fn translate_write(&mut self, op: &Op) -> (r: Result<Option<Reg>, JitError>)
        requires
            old(self).ready(),
        ensures
            stepped(r, final(self)@) == x_write(old(self).fun(), old(self)@, op@),
            final(self).follows(old(self)),
            r is Ok ==> r->Ok_0 is None,
    {
        reveal(x_write);
        match op {
            Op::ArraySet(base, idx, v) => {
                let (b, i): (Reg, Reg) = match self.both(*base, Repr::Ptr, *idx, Repr::Number) {
                    Ok(x) => x,
                    Err(e) => {
                        return Err(e);
                    },
                };
                match self.box_handle(*v) {
                    Ok(h) => {
                        let _set: Reg = self.call(Shim::ArraySet, regs3(b, i, h));
                        Ok(None)
                    },
                    Err(e) => Err(e),
                }
            },
            Op::MapSet(base, key, v) => {
                let (b, k): (Reg, Reg) = match self.both(*base, Repr::Ptr, *key, Repr::Ptr) {
                    Ok(x) => x,
                    Err(e) => {
                        return Err(e);
                    },
                };
                match self.box_handle(*v) {
                    Ok(h) => {
                        let _set: Reg = self.call(Shim::MapSet, regs3(b, k, h));
                        Ok(None)
                    },
                    Err(e) => Err(e),
                }
            },
            Op::FieldSet(base, name, v) => {
                let b: Reg = match self.as_class(*base, Repr::Ptr) {
                    Ok(x) => x,
                    Err(e) => {
                        return Err(e);
                    },
                };
                let idx: u32 = self.intern_name(name.as_str());
                let n: Reg = self.iconst32(idx);
                match self.box_handle(*v) {
                    Ok(h) => {
                        let _set: Reg = self.call(Shim::FieldSet, regs3(b, n, h));
                        Ok(None)
                    },
                    Err(e) => Err(e),
                }
            },
            Op::CellSet(cell, v) => {
                let c: Reg = match self.as_class(*cell, Repr::Ptr) {
                    Ok(x) => x,
                    Err(e) => {
                        return Err(e);
                    },
                };
                match self.box_handle(*v) {
                    Ok(h) => {
                        let _set: Reg = self.call(Shim::CellSet, regs2(c, h));
                        Ok(None)
                    },
                    Err(e) => Err(e),
                }
            },
            _ => Err(refuse("not a write")),
        }
    }

    fn translate_make(&mut self, op: &Op) -> (r: Result<Option<Reg>, JitError>)
        requires
            old(self).ready(),
        ensures
            stepped(r, final(self)@) == x_make(old(self).fun(), old(self)@, op@),
            final(self).follows(old(self)),
            r is Ok && r->Ok_0 is Some ==> r->Ok_0->0 < final(self)@.insts.len(),
    {
        reveal(x_make);
        match op {
            Op::MakeArray(vs) => {
                let n: usize = vs.len();
                let cap: Reg = self.iconst32(#[verifier::truncate] (n as u32));
                let arr: Reg = self.call(Shim::ArrayNew, regs1(cap));
                match self.push_all(arr, vs) {
                    Ok(_) => Ok(Some(arr)),
                    Err(e) => Err(e),
                }
            },
            Op::MakeTable(pairs) => {
                let none: Vec<Reg> = Vec::new();
                let tbl: Reg = self.call(Shim::TableNew, none);
                match self.set_all(tbl, pairs) {
                    Ok(_) => Ok(Some(tbl)),
                    Err(e) => Err(e),
                }
            },
            Op::MakeCell(v) => match self.box_handle(*v) {
                Ok(h) => {
                    let c: Reg = self.call(Shim::CellNew, regs1(h));
                    Ok(Some(c))
                },
                Err(e) => Err(e),
            },
            Op::MakeClosure(name, cells) => {
                let id: u32 = self.intern_closure_name(name.as_str());
                let idc: Reg = self.iconst32(id);
                let none: Vec<Repr> = Vec::new();
                match self.args(cells, &none) {
                    Ok(rs) => {
                        let (base, argc): (Reg, Reg) = self.arg_array(rs);
                        let c: Reg = self.call(Shim::ClosureNew, regs3(idc, base, argc));
                        Ok(Some(c))
                    },
                    Err(e) => Err(e),
                }
            },
            _ => Err(refuse("not a constructor")),
        }
    }

    fn runtime_call(
        &mut self,
        shim: Shim,
        id: u32,
        args: &Vec<ValueId>,
        dest: Option<ValueId>,
    ) -> (r: Result<Option<Reg>, JitError>)
        requires
            old(self).ready(),
            shim_arity(shim) == 3,
        ensures
            stepped(r, final(self)@) == x_runtime_call(
                old(self).fun(),
                old(self)@,
                shim,
                id,
                args@,
                dest,
            ),
            final(self).follows(old(self)),
            r is Ok && r->Ok_0 is Some ==> r->Ok_0->0 < final(self)@.insts.len(),
    {
        reveal(x_runtime_call);
        match self.box_all(args) {
            Err(e) => Err(e),
            Ok(rs) => {
                let (base, argc): (Reg, Reg) = self.arg_array(rs);
                let idc: Reg = self.iconst32(id);
                let h: Reg = self.call(shim, regs3(idc, base, argc));
                self.result(h, dest)
            },
        }
    }

    fn is_native(
        &self,
        ns: &str,
        member: &str,
        args: &Vec<ValueId>,
        dest: Option<ValueId>,
    ) -> (r: Option<Float1>)
        ensures
            r == (if is_native(self.fun(), ns@, member@, args@, dest) {
                native_math(member@)
            } else {
                None
            }),
    {
        if !same(ns, "math") || args.len() != 1 {
            return None;
        }
        match (self.dest_repr(dest), self.value_repr(args[0])) {
            (Ok(Repr::Number), Ok(Repr::Number)) => native_math_inst(member),
            _ => None,
        }
    }

    fn translate_call(&mut self, op: &Op, dest: Option<ValueId>) -> (r: Result<
        Option<Reg>,
        JitError,
    >)
        requires
            old(self).ready(),
        ensures
            stepped(r, final(self)@) == x_call(
                old(self).prog(),
                old(self).fun(),
                old(self)@,
                op@,
                dest,
            ),
            final(self).follows(old(self)),
            r is Ok && r->Ok_0 is Some ==> r->Ok_0->0 < final(self)@.insts.len(),
    {
        reveal(x_call);
        match op {
            Op::CallScript(name, args) => match self.program.functions.get(name.as_str()) {
                None => Err(refuse("call of an unknown function")),
                Some(g) => {
                    if g.is_closure || args.len() != g.params.len() {
                        return Err(refuse("call with the wrong number of arguments"));
                    }
                    let ret: Repr = Repr::of(&g.ret);
                    let want = want_of(g);
                    match self.args(args, &want) {
                        Ok(rs) => {
                            let r: Reg = self.emit(Inst::CallScript(own(name.as_str()), rs));
                            Ok(result_of(r, ret))
                        },
                        Err(e) => Err(e),
                    }
                },
            },
            Op::ConstRef(name) => match self.program.constants.get(name.as_str()) {
                None => Err(refuse("use of an unknown constant")),
                Some(c) => {
                    let ret: Repr = Repr::of(&c.ret);
                    if ret == Repr::Ptr {
                        let idx: u32 = self.intern_constant(name.as_str());
                        let n: Reg = self.iconst32(idx);
                        let r: Reg = self.call(Shim::ConstRef, regs1(n));
                        Ok(Some(r))
                    } else {
                        let r: Reg = self.emit(Inst::CallConst(own(name.as_str())));
                        Ok(result_of(r, ret))
                    }
                },
            },
            Op::CallHost(name, args) => {
                let id: u32 = self.intern_host(name.as_str());
                self.runtime_call(Shim::CallHost, id, args, dest)
            },
            Op::CallBuiltinValue(ns, args) => {
                let id: u32 = self.intern_builtin_value(ns.as_str());
                self.runtime_call(Shim::CallBuiltinValue, id, args, dest)
            },
            Op::CallBuiltinMember(ns, member, args) => {
                match self.is_native(ns.as_str(), member.as_str(), args, dest) {
                    Some(inst) => match self.val(args[0]) {
                        Ok(a) => {
                            let r: Reg = self.emit(Inst::Float1(inst, a));
                            Ok(Some(r))
                        },
                        Err(e) => Err(e),
                    },
                    None => {
                        let id: u32 = self.intern_builtin_member(ns.as_str(), member.as_str());
                        self.runtime_call(Shim::CallBuiltinMember, id, args, dest)
                    },
                }
            },
            Op::CallValue(callee, args) => self.translate_call_value(*callee, args),
            _ => Err(refuse("not a call")),
        }
    }

    fn translate_call_value(&mut self, callee: ValueId, args: &Vec<ValueId>) -> (r: Result<
        Option<Reg>,
        JitError,
    >)
        requires
            old(self).ready(),
        ensures
            forall|dest: Option<ValueId>|
                stepped(r, final(self)@) == #[trigger] x_call(
                    old(self).prog(),
                    old(self).fun(),
                    old(self)@,
                    OpV::CallValue(callee, args@),
                    dest,
                ),
            final(self).follows(old(self)),
            r is Ok && r->Ok_0 is Some ==> r->Ok_0->0 < final(self)@.insts.len(),
    {
        reveal(x_call);
        let clo: Reg = match self.as_class(callee, Repr::Ptr) {
            Ok(x) => x,
            Err(e) => {
                return Err(e);
            },
        };
        let addr: Reg = self.call(Shim::ClosureCodeAddr, regs1(clo));
        self.guard();
        let ghost tv = self.func@.values[callee as int];
        let t = self.func.value_type(callee);
        let (params, ret): (Vec<Repr>, Repr) = fn_classes(t);
        assert((params@, ret) == closure_classes(tv));
        if args.len() != params.len() {
            return Err(refuse("call with the wrong number of arguments"));
        }
        match self.args(args, &params) {
            Ok(rs) => {
                assert(below(seq![addr, clo] + rs@, self@.insts.len() as int));
                let r: Reg = self.emit(
                    Inst::CallClosure { addr, env: clo, params, ret, args: rs },
                );
                Ok(result_of(r, ret))
            },
            Err(e) => Err(e),
        }
    }

    fn translate_local(&mut self, op: &Op) -> (r: Result<Option<Reg>, JitError>)
        requires
            old(self).ready(),
        ensures
            stepped(r, final(self)@) == x_local(old(self).fun(), old(self)@, op@),
            final(self).follows(old(self)),
            r is Ok && r->Ok_0 is Some ==> r->Ok_0->0 < final(self)@.insts.len(),
    {
        reveal(x_local);
        match op {
            Op::LocalGet(id) => match self.var_repr(*id) {
                Some(_) => {
                    let r: Reg = self.emit(Inst::GetVar(*id));
                    Ok(Some(r))
                },
                None => Err(refuse("get of undeclared local")),
            },
            Op::LocalSet(id, v) => match self.var_repr(*id) {
                Some(to) => match self.as_class(*v, to) {
                    Ok(x) => {
                        let _set: Reg = self.emit(Inst::SetVar(*id, x));
                        Ok(None)
                    },
                    Err(e) => Err(e),
                },
                None => Ok(None),
            },
            _ => Err(refuse("not a variable")),
        }
    }

    fn translate_op(&mut self, op: &Op, dest: Option<ValueId>) -> (r: Result<Option<Reg>, JitError>)
        requires
            old(self).ready(),
        ensures
            stepped(r, final(self)@) == translate_op_of(
                old(self).prog(),
                old(self).fun(),
                old(self)@,
                op@,
                dest,
            ),
            final(self).follows(old(self)),
            r is Ok && r->Ok_0 is Some ==> r->Ok_0->0 < final(self)@.insts.len(),
    {
        reveal(translate_op_of);
        match op {
            Op::ConstNil => {
                let r: Reg = self.iconst(ClifTy::I64, 0);
                Ok(Some(r))
            },
            Op::ConstBool(b) => {
                let n: i64 = if *b {
                    1
                } else {
                    0
                };
                let r: Reg = self.iconst(ClifTy::I8, n);
                Ok(Some(r))
            },
            Op::ConstNumber(n) => {
                let r: Reg = self.emit(Inst::Float(n.dup()));
                Ok(Some(r))
            },
            Op::ConstString(s) => {
                let idx: u32 = self.intern_string(s.as_str());
                let n: Reg = self.iconst32(idx);
                let r: Reg = self.call(Shim::ConstString, regs1(n));
                Ok(Some(r))
            },
            Op::LocalGet(_) | Op::LocalSet(_, _) => self.translate_local(op),
            Op::Unary(u, v) => match self.translate_unary(*u, *v) {
                Ok(r) => Ok(Some(r)),
                Err(e) => Err(e),
            },
            Op::Binary(b, l, r) => match self.translate_binary(*b, *l, *r) {
                Ok(r) => Ok(Some(r)),
                Err(e) => Err(e),
            },
            Op::Truthy(v) => match self.translate_truthy(*v) {
                Ok(r) => Ok(Some(r)),
                Err(e) => Err(e),
            },
            Op::MakeArray(_) | Op::MakeTable(_) | Op::MakeCell(_) | Op::MakeClosure(
                _,
                _,
            ) => self.translate_make(op),
            Op::ArraySet(_, _, _) | Op::MapSet(_, _, _) | Op::FieldSet(_, _, _) | Op::CellSet(
                _,
                _,
            ) => self.translate_write(op),
            Op::CallScript(_, _) | Op::CallHost(_, _) | Op::CallBuiltinValue(_, _)
            | Op::CallBuiltinMember(_, _, _) | Op::ConstRef(_) | Op::CallValue(
                _,
                _,
            ) => self.translate_call(op, dest),
            Op::ArrayGet(_, _) | Op::MapGet(_, _) | Op::FieldGet(_, _) | Op::MapKeys(_)
            | Op::MemoryRef(_) | Op::NamespaceField(_, _) | Op::CellGet(_) | Op::ClosureEnvGet(
                _,
                _,
            ) => self.translate_read(op, dest),
        }
    }

    fn translate_instr(&mut self, instr: &Instr) -> (r: Result<(), JitError>)
        requires
            old(self).ready(),
        ensures
            stepped(r, final(self)@) == x_instr(
                old(self).prog(),
                old(self).fun(),
                old(self)@,
                instr@,
            ),
            final(self).follows(old(self)),
    {
        reveal(x_instr);
        let from: usize = self.here();
        let out: Option<Reg> = match self.translate_op(&instr.op, instr.dest) {
            Ok(x) => x,
            Err(e) => {
                return Err(e);
            },
        };
        let class: Repr = self.result_class(&instr.op, instr.dest);
        let x: Option<Reg> = match self.settled(instr.dest, out, class) {
            Ok(x) => x,
            Err(e) => {
                return Err(e);
            },
        };
        self.guard_since(from);
        reveal(x_define);
        match (instr.dest, x) {
            (Some(d), Some(r)) => {
                self.define(d, r);
                Ok(())
            },
            _ => Ok(()),
        }
    }

    fn result_class(&self, op: &Op, dest: Option<ValueId>) -> (r: Repr)
        ensures
            r == result_class(self.prog(), self.fun(), op@, dest),
    {
        match op {
            Op::ConstNil | Op::ConstString(_) | Op::MakeArray(_) | Op::MakeTable(_) | Op::MakeCell(_)
            | Op::MakeClosure(_, _) | Op::MapKeys(_) | Op::ClosureEnvGet(_, _) => Repr::Ptr,
            Op::ConstBool(_) | Op::Truthy(_) => Repr::Bool,
            Op::ConstNumber(_) => Repr::Number,
            Op::LocalGet(id) => match self.var_repr(*id) {
                Some(t) => t,
                None => Repr::Ptr,
            },
            Op::Unary(u, _) => match u {
                UnOp::Not => Repr::Bool,
                _ => Repr::Number,
            },
            Op::Binary(b, _, _) => match b {
                BinOp::Add | BinOp::Sub | BinOp::Mul | BinOp::Div | BinOp::FloorDiv | BinOp::Mod
                | BinOp::Pow => Repr::Number,
                BinOp::Concat => Repr::Ptr,
                _ => Repr::Bool,
            },
            Op::CallScript(name, _) => match self.program.functions.get(name.as_str()) {
                Some(g) => Repr::of(&g.ret),
                None => Repr::Ptr,
            },
            Op::ConstRef(name) => match self.program.constants.get(name.as_str()) {
                Some(c) => Repr::of(&c.ret),
                None => Repr::Ptr,
            },
            Op::CallValue(callee, _) => self.callee_ret(*callee),
            _ => match self.dest_repr(dest) {
                Ok(r) => r,
                Err(_) => Repr::Ptr,
            },
        }
    }

    /// The class of what a function value returns.
    fn callee_ret(&self, callee: ValueId) -> (r: Repr)
        ensures
            r == (if callee < self.fun().values.len() {
                closure_classes(self.fun().values[callee as int]).1
            } else {
                Repr::Ptr
            }),
    {
        if (callee as usize) >= self.func.values.len() {
            return Repr::Ptr;
        }
        fn_classes(self.func.value_type(callee)).1
    }

    fn settled(&mut self, dest: Option<ValueId>, out: Option<Reg>, from: Repr) -> (r: Result<
        Option<Reg>,
        JitError,
    >)
        requires
            old(self).ready(),
            out is Some ==> out->0 < old(self)@.insts.len(),
        ensures
            stepped(r, final(self)@) == x_settled(old(self).fun(), old(self)@, dest, out, from),
            final(self).follows(old(self)),
            r is Ok && r->Ok_0 is Some ==> r->Ok_0->0 < final(self)@.insts.len(),
            r is Ok && dest is Some ==> dest->0 < old(self).fun().values.len(),
    {
        reveal(x_settled);
        match dest {
            None => Ok(None),
            Some(d) => {
                if (d as usize) >= self.func.values.len() {
                    return Err(refuse("definition of an undeclared IR value"));
                }
                let to: Repr = Repr::of(self.func.value_type(d));
                let x: Reg = match out {
                    Some(x) => self.coerce(x, from, to),
                    None => {
                        let z: Reg = self.iconst(ClifTy::I64, 0);
                        self.coerce(z, Repr::Unit, to)
                    },
                };
                Ok(Some(x))
            },
        }
    }

    fn guard(&mut self)
        requires
            old(self).ready(),
        ensures
            final(self)@ == old(self)@.guarded(),
            final(self).follows(old(self)),
    {
        reveal(Tr::guarded);
        let none: Vec<Reg> = Vec::new();
        let e: Reg = self.call(Shim::Errored, none);
        let _left: Reg = self.emit(Inst::Guard(e));
    }

    fn guard_since(&mut self, from: usize)
        requires
            old(self).ready(),
        ensures
            final(self)@ == old(self)@.guarded_since(from as int),
            final(self).follows(old(self)),
    {
        reveal(Tr::guarded_since);
        if self.fallible_since(from) {
            self.guard();
        }
    }

    fn fallible_since(&self, from: usize) -> (r: bool)
        ensures
            r == any_fallible(self@.insts, from as int),
    {
        reveal(Translator::view);
        let n: usize = self.insts.len();
        let mut k: usize = from;
        while k < n
            invariant
                from <= k,
                n == self.insts@.len(),
                self@.insts == insts_v(self.insts@),
                forall|j: int| from <= j < k && j < n ==> !fallible(#[trigger] self@.insts[j]),
            decreases n - k,
        {
            assert(self@.insts[k as int] == self.insts@[k as int]@);
            if is_fallible(&self.insts[k]) {
                return true;
            }
            k += 1;
        }
        false
    }

    fn translate_term(&mut self, t: &Terminator, idx: usize) -> (r: Result<End, JitError>)
        requires
            old(self).ready(),
        ensures
            stepped(r, final(self)@) == x_term(old(self).fun(), old(self)@, *t, idx as int),
            final(self).follows(old(self)),
            r is Ok ==> end_ok(
                r->Ok_0,
                final(self)@.insts.len() as int,
                old(self).fun().blocks.len() as int,
            ),
    {
        reveal(x_term);
        let nblocks: usize = self.func.blocks.len();
        match t {
            Terminator::Return(Some(v)) => {
                let ret: Repr = Repr::of(&self.func.ret);
                match self.as_class(*v, ret) {
                    Ok(x) => Ok(End::Return(x)),
                    Err(e) => Err(e),
                }
            },
            Terminator::Return(None) => Ok(End::ReturnDefault),
            Terminator::Jump(b) => {
                if (*b as usize) >= nblocks {
                    Err(refuse("jump to an undefined IR block"))
                } else if (*b as usize) < idx {
                    let none: Vec<Reg> = Vec::new();
                    let r: Reg = self.call(Shim::Errored, none);
                    Ok(End::JumpBack(r, *b))
                } else {
                    Ok(End::Jump(*b))
                }
            },
            Terminator::Branch { cond, then_blk, else_blk } => match self.translate_truthy(*cond) {
                Ok(r) => {
                    if (*then_blk as usize) < nblocks && (*else_blk as usize) < nblocks {
                        Ok(End::Branch(r, *then_blk, *else_blk))
                    } else {
                        Err(refuse("jump to an undefined IR block"))
                    }
                },
                Err(e) => Err(e),
            },
            Terminator::Unreachable => Ok(End::Trap),
        }
    }

    fn translate_block(&mut self, idx: usize) -> (r: Result<MachineBlock, JitError>)
        requires
            old(self).ready(),
            idx < old(self).fun().blocks.len(),
        ensures
            final(self).follows(old(self)),
            match r {
                Ok(b) => {
                    &&& b.end == final(self)@.insts.len()
                    &&& end_ok(b.term, b.end as int, old(self).fun().blocks.len() as int)
                    &&& forall|acc: Seq<MachineBlock>|
                        #[trigger] x_blocks(
                            old(self).prog(),
                            old(self).fun(),
                            old(self)@,
                            idx as int,
                            acc,
                        ) == x_blocks(
                            old(self).prog(),
                            old(self).fun(),
                            final(self)@,
                            idx + 1,
                            acc.push(b),
                        )
                },
                Err(e) => forall|acc: Seq<MachineBlock>|
                    #[trigger] x_blocks(
                        old(self).prog(),
                        old(self).fun(),
                        old(self)@,
                        idx as int,
                        acc,
                    ) == Err::<(Tr, Seq<MachineBlock>), JitErrorV>(e@),
            },
    {
        let ghost p = self.prog();
        let ghost f = self.fun();
        let ghost st = self@;
        let func: &'a Function = self.func;
        assert(f.blocks[idx as int] == func.blocks@[idx as int]@);
        let block = &func.blocks[idx];
        let ghost is = instrs_v(block.instrs@);
        let ghost whole = x_instrs(p, f, st, is, 0);
        proof {
            assert forall|acc: Seq<MachineBlock>| #[trigger]
                x_blocks(p, f, st, idx as int, acc) == (match whole {
                    Err(e) => Err(e),
                    Ok((st1, _)) => match x_term(f, st1, block.term, idx as int) {
                        Err(e) => Err(e),
                        Ok((st2, term)) => x_blocks(
                            p,
                            f,
                            st2,
                            idx + 1,
                            acc.push(MachineBlock { end: st2.insts.len() as usize, term }),
                        ),
                    },
                }) by {
                unfold_x_blocks(p, f, st, idx as int, acc);
            }
        }
        let n: usize = block.instrs.len();
        let mut i: usize = 0;
        while i < n
            invariant
                i <= n,
                n == block.instrs@.len(),
                is == instrs_v(block.instrs@),
                self.follows(old(self)),
                p == self.prog(),
                f == self.fun(),
                st == old(self)@,
                whole == x_instrs(p, f, self@, is, i as int),
                forall|acc: Seq<MachineBlock>| #[trigger]
                    x_blocks(p, f, st, idx as int, acc) == (match whole {
                        Err(e) => Err(e),
                        Ok((st1, _)) => match x_term(f, st1, block.term, idx as int) {
                            Err(e) => Err(e),
                            Ok((st2, term)) => x_blocks(
                                p,
                                f,
                                st2,
                                idx + 1,
                                acc.push(MachineBlock { end: st2.insts.len() as usize, term }),
                            ),
                        },
                    }),
            decreases n - i,
        {
            proof {
                unfold_x_instrs(p, f, self@, is, i as int);
                assert(is[i as int] == block.instrs@[i as int]@);
            }
            match self.translate_instr(&block.instrs[i]) {
                Ok(_) => {},
                Err(e) => {
                    assert(whole == Err::<(Tr, ()), JitErrorV>(e@));
                    return Err(e);
                },
            }
            i += 1;
        }
        proof {
            unfold_x_instrs(p, f, self@, is, i as int);
        }
        match self.translate_term(&block.term, idx) {
            Ok(term) => {
                let end: usize = self.here();
                Ok(MachineBlock { end, term })
            },
            Err(e) => Err(e),
        }
    }

    fn here(&self) -> (r: usize)
        ensures
            r == self@.insts.len(),
    {
        reveal(Translator::view);
        self.insts.len()
    }

    /// Translate the whole function body. Every register is defined before it is read, and
    /// every jump is to a block of the function.
    pub fn run(self) -> (r: Result<(MachineCode, Pools), JitError>)
        requires
            self@ == (Tr {
                pools: self@.pools,
                insts: Seq::empty(),
                ssa: Seq::new(self.fun().values.len(), |i: int| None),
            }),
        ensures
            match r {
                Ok((code, pools)) => machine_code_of(self.prog(), self.fun(), self@.pools) == Ok::<
                    (MachineCodeV, PoolsV),
                    JitErrorV,
                >((code@, pools@)) && code_ok(code@) && code@.blocks.len()
                    == self.fun().blocks.len(),
                Err(e) => machine_code_of(self.prog(), self.fun(), self@.pools) == Err::<
                    (MachineCodeV, PoolsV),
                    JitErrorV,
                >(e@),
            },
    {
        let mut this = self;
        let ghost p = this.prog();
        let ghost f = this.fun();
        let ghost pools = this@.pools;
        let ghost whole = x_blocks(p, f, this@, 0, Seq::empty());
        assert(this@.ssa =~= Seq::new(f.values.len(), |i: int| None));
        let n: usize = this.func.blocks.len();
        let mut blocks: Vec<MachineBlock> = Vec::new();
        let mut i: usize = 0;
        assert(blocks@ =~= Seq::<MachineBlock>::empty());
        while i < n
            invariant
                i <= n,
                n == f.blocks.len(),
                this.ready(),
                p == this.prog(),
                f == this.fun(),
                blocks@.len() == i,
                p == self.prog(),
                f == self.fun(),
                whole == x_blocks(
                    p,
                    f,
                    Tr {
                        pools: self@.pools,
                        insts: Seq::empty(),
                        ssa: Seq::new(f.values.len(), |i: int| None),
                    },
                    0,
                    Seq::empty(),
                ),
                x_blocks(p, f, this@, i as int, blocks@) == whole,
                forall|k: int|
                    0 <= k < i ==> {
                        &&& (#[trigger] blocks@[k]).end <= this@.insts.len()
                        &&& end_ok(blocks@[k].term, blocks@[k].end as int, n as int)
                    },
                forall|k: int, m: int|
                    0 <= k < m < i ==> (#[trigger] blocks@[k]).end <= (#[trigger] blocks@[m]).end,
            decreases n - i,
        {
            match this.translate_block(i) {
                Ok(b) => {
                    blocks.push(b);
                },
                Err(e) => {
                    assert(whole == Err::<(Tr, Seq<MachineBlock>), JitErrorV>(e@));
                    return Err(e);
                },
            }
            i += 1;
        }
        proof {
            unfold_x_blocks(p, f, this@, i as int, blocks@);
            reveal(Translator::view);
        }
        Ok((MachineCode { insts: this.insts, blocks }, this.pools))
    }

    fn intern_string(&mut self, s: &str) -> (r: u32)
        requires
            old(self).ready(),
        ensures
            (final(self)@, r) == old(self)@.string(s@),
            final(self).follows(old(self)),
    {
        reveal(Translator::view);
        reveal(Tr::string);
        self.pools.intern_string(s)
    }

    fn intern_name(&mut self, s: &str) -> (r: u32)
        requires
            old(self).ready(),
        ensures
            (final(self)@, r) == old(self)@.name(s@),
            final(self).follows(old(self)),
    {
        reveal(Translator::view);
        reveal(Tr::name);
        self.pools.intern_name(s)
    }

    fn intern_host(&mut self, s: &str) -> (r: u32)
        requires
            old(self).ready(),
        ensures
            (final(self)@, r) == old(self)@.host(s@),
            final(self).follows(old(self)),
    {
        reveal(Translator::view);
        reveal(Tr::host);
        self.pools.intern_host(s)
    }

    fn intern_builtin_value(&mut self, s: &str) -> (r: u32)
        requires
            old(self).ready(),
        ensures
            (final(self)@, r) == old(self)@.builtin_value(s@),
            final(self).follows(old(self)),
    {
        reveal(Translator::view);
        reveal(Tr::builtin_value);
        self.pools.intern_builtin_value(s)
    }

    fn intern_builtin_member(&mut self, ns: &str, m: &str) -> (r: u32)
        requires
            old(self).ready(),
        ensures
            (final(self)@, r) == old(self)@.builtin_member(ns@, m@),
            final(self).follows(old(self)),
    {
        reveal(Translator::view);
        reveal(Tr::builtin_member);
        self.pools.intern_builtin_member(ns, m)
    }

    fn intern_namespace_field(&mut self, ns: &str, f: &str) -> (r: u32)
        requires
            old(self).ready(),
        ensures
            (final(self)@, r) == old(self)@.namespace_field(ns@, f@),
            final(self).follows(old(self)),
    {
        reveal(Translator::view);
        reveal(Tr::namespace_field);
        self.pools.intern_namespace_field(ns, f)
    }

    fn intern_memory(&mut self, s: &str) -> (r: u32)
        requires
            old(self).ready(),
        ensures
            (final(self)@, r) == old(self)@.memory(s@),
            final(self).follows(old(self)),
    {
        reveal(Translator::view);
        reveal(Tr::memory);
        self.pools.intern_memory(s)
    }

    fn intern_closure_name(&mut self, s: &str) -> (r: u32)
        requires
            old(self).ready(),
        ensures
            (final(self)@, r) == old(self)@.closure_name(s@),
            final(self).follows(old(self)),
    {
        reveal(Translator::view);
        reveal(Tr::closure_name);
        self.pools.intern_closure_name(s)
    }

    fn intern_constant(&mut self, s: &str) -> (r: u32)
        requires
            old(self).ready(),
        ensures
            (final(self)@, r) == old(self)@.constant(s@),
            final(self).follows(old(self)),
    {
        reveal(Translator::view);
        reveal(Tr::constant);
        self.pools.intern_constant(s)
    }
}

fn numeric_type(t: &Type) -> (r: bool)
    ensures
        r == is_numeric(t@),
{
    match t {
        Type::Number => true,
        Type::Optional(i) => {
            let inner: &Type = i;
            assert(t@ == TypeV::Optional(Box::new(inner@)));
            match inner {
                Type::Number => true,
                _ => false,
            }
        },
        _ => false,
    }
}

/// The classes of the parameters and of the result of a function value.
fn fn_classes(t: &Type) -> (r: (Vec<Repr>, Repr))
    ensures
        (r.0@, r.1) == closure_classes(t@),
{
    let found: Option<&crate::types::FnType> = match t {
        Type::Function(ft) => Some(ft),
        Type::Optional(i) => {
            let inner: &Type = i;
            assert(t@ == TypeV::Optional(Box::new(inner@)));
            match inner {
                Type::Function(ft) => Some(ft),
                _ => None,
            }
        },
        _ => None,
    };
    match found {
        Some(ft) => {
            assert(ft@ == (FnTypeV { params: types_v(ft.params@), ret: Box::new(ft.ret@) }));
            (reprs(&ft.params), Repr::of(&ft.ret))
        },
        None => {
            let none: Vec<Repr> = Vec::new();
            assert(none@ =~= Seq::<Repr>::empty());
            (none, Repr::Ptr)
        },
    }
}

fn want_of(g: &Function) -> (r: Vec<Repr>)
    ensures
        r@ == param_classes(g@),
{
    broadcast use vstd::std_specs::btree::group_btree_axioms;

    let mut out: Vec<Repr> = Vec::new();
    let mut i: usize = 0;
    while i < g.params.len()
        invariant
            i <= g.params@.len(),
            g.params@ == g@.params,
            out@.len() == i,
            forall|k: int| 0 <= k < i ==> (#[trigger] out@[k]) == param_classes(g@)[k],
        decreases g.params@.len() - i,
    {
        let c: Repr = match g.locals.get(&g.params[i]) {
            Some(t) => {
                assert(g@.locals[g.params@[i as int]] == t@);
                Repr::of(t)
            },
            None => Repr::Ptr,
        };
        out.push(c);
        i += 1;
    }
    assert(out@ =~= param_classes(g@));
    out
}

fn is_fallible(i: &Inst) -> (r: bool)
    ensures
        r == fallible(i@),
{
    match i {
        Inst::Call(s, _) => match s {
            Shim::UnboxNumber | Shim::UnboxBool | Shim::MemoryRef | Shim::NamespaceField
            | Shim::ArraySet | Shim::TableSet | Shim::MapSet | Shim::FieldSet | Shim::CheckOrder
            | Shim::CallHost | Shim::CallBuiltinValue | Shim::CallBuiltinMember
            | Shim::ClosureCodeAddr | Shim::ConstRef => true,
            _ => false,
        },
        Inst::CallScript(_, _) | Inst::CallConst(_) | Inst::CallClosure { .. } => true,
        _ => false,
    }
}

/// The register of a call, if the callee has a result.
fn result_of(r: Reg, ret: Repr) -> (out: Option<Reg>)
    ensures
        out == call_result(r, ret),
{
    if ret == Repr::Unit {
        None
    } else {
        Some(r)
    }
}

/// The machine code of a function, and the pools with what it refers to. It reads only what
/// it defined, and jumps only within the function.
pub fn translate(program: &Program, func: &Function, pools: Pools) -> (r: Result<
    (MachineCode, Pools),
    JitError,
>)
    ensures
        match r {
            Ok((code, out)) => machine_code_of(program@, func@, pools@) == Ok::<
                (MachineCodeV, PoolsV),
                JitErrorV,
            >((code@, out@)) && code_ok(code@) && code@.blocks.len() == func@.blocks.len(),
            Err(e) => machine_code_of(program@, func@, pools@) == Err::<
                (MachineCodeV, PoolsV),
                JitErrorV,
            >(e@),
        },
{
    let t = Translator::new(program, func, pools);
    t.run()
}

} // verus!
