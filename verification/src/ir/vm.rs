//! A machine that executes the intermediate representation.
//!
//! The machine is a function from states to states: [`step_of`] says what one step does and
//! [`resume_of`] how it goes on with an answer. What it asks for, and what it makes of the
//! answers, is in [`eval`](crate::runtime::eval).
use std::collections::BTreeMap;
use vstd::prelude::*;
use vstd::utf8::encode_utf8;
use crate::ast::{BinOp, UnOp};
use crate::ir::{
    block_ok, function_ok, pairs_v, program_ok, BlockId, ExportTarget, ExportTargetV, Function,
    FunctionV, InstrV, LocalId, Op, OpV, Program, ProgramV, Terminator, ValueId,
};
use crate::names::{get_of, keys_of, lemma_pos, pos_of, put_of, NameMap};
use crate::number::{negate, negated, Order};
use crate::resolve::strs_v;
use crate::runtime::eval::{
    answer, answer_of, arg, field_value, field_value_of, member_call, member_call_of, value_call,
    value_call_of, Outcome, OutcomeV, Reply, ReplyV, Request, RequestV,
};
use crate::text::{cat2, cat3, dec, dec_string, own, same};
use crate::value::{
    arity_error, arity_error_of, array_at, array_read, array_written, cell_at, closure_at, compare,
    compared, field_read, frozen_error, frozen_error_of, frozen_value, is_frozen, key_values,
    kind_name_of, same_value, table_at, table_read, table_written, truthy, value_eq, values_v, Heap,
    HeapV, ObjV, RunError, RunErrorV, Value, ValueV,
};

verus! {

/// What a frame executes: a function, or the initializer of a constant.
#[derive(Debug)]
pub enum Code {
    Function(String),
    Const(String),
}

pub ghost enum CodeV {
    Function(Seq<char>),
    Const(Seq<char>),
}

impl View for Code {
    type V = CodeV;

    open spec fn view(&self) -> CodeV {
        match self {
            Code::Function(n) => CodeV::Function(n@),
            Code::Const(n) => CodeV::Const(n@),
        }
    }
}

/// The state of one activation.
pub ghost struct FrameV {
    pub code: CodeV,
    pub block: BlockId,
    pub pc: nat,
    pub locals: Map<LocalId, ValueV>,
    pub values: Map<ValueId, ValueV>,
    /// How many objects there were when this activation began.
    pub mark: usize,
}

/// The state of the machine.
pub ghost struct VmV {
    pub heap: HeapV,
    /// The activations, the innermost last.
    pub frames: Seq<FrameV>,
    /// The constants evaluated so far in this call.
    pub consts: Seq<(Seq<char>, ValueV)>,
    /// The objects that these constants consist of, from one to before another.
    pub frozen: Seq<(usize, usize)>,
    pub memory: Seq<(Seq<char>, ValueV)>,
    /// The names of the host functions that were set.
    pub hosts: Seq<Seq<char>>,
    /// The request whose answer the machine waits for.
    pub wait: Option<RequestV>,
}

/// How far the machine has come: it goes on, it needs an answer, or the call is over.
#[derive(Debug)]
pub enum Progress {
    Running,
    Ask,
    Done(Result<Value, RunError>),
}

pub ghost enum ProgressV {
    Running,
    Ask,
    Done(Result<ValueV, RunErrorV>),
}

impl View for Progress {
    type V = ProgressV;

    open spec fn view(&self) -> ProgressV {
        match self {
            Progress::Running => ProgressV::Running,
            Progress::Ask => ProgressV::Ask,
            Progress::Done(Ok(v)) => ProgressV::Done(Ok(v@)),
            Progress::Done(Err(e)) => ProgressV::Done(Err(e@)),
        }
    }
}

/// What an operation comes to: a value, a failure, a request, or an activation.
pub ghost enum EffectV {
    Value(ValueV),
    Fail(RunErrorV),
    Ask(RequestV),
    Enter(CodeV, Seq<ValueV>),
}

/// An operation's effect, with the heap and the locals after it.
pub ghost struct Evaluated {
    pub heap: HeapV,
    pub locals: Map<LocalId, ValueV>,
    pub effect: EffectV,
}

pub open spec fn internal(msg: Seq<char>) -> RunErrorV {
    RunErrorV::Internal(msg)
}

pub open spec fn runtime(msg: Seq<char>) -> RunErrorV {
    RunErrorV::Runtime(msg)
}

/// The value of a temporary.
pub open spec fn val(f: FrameV, v: ValueId) -> Result<ValueV, RunErrorV> {
    if f.values.dom().contains(v) {
        Ok(f.values[v])
    } else {
        Err(internal("use of undefined IR value "@ + dec(v as nat)))
    }
}

/// The values of the temporaries from `i` on.
#[verifier::opaque]
pub open spec fn vals(f: FrameV, ids: Seq<ValueId>, i: int, acc: Seq<ValueV>) -> Result<
    Seq<ValueV>,
    RunErrorV,
>
    decreases ids.len() - i,
{
    if 0 <= i < ids.len() {
        match val(f, ids[i]) {
            Ok(v) => vals(f, ids, i + 1, acc.push(v)),
            Err(e) => Err(e),
        }
    } else {
        Ok(acc)
    }
}

/// The entries of the pairs from `i` on.
#[verifier::opaque]
pub open spec fn entries(
    f: FrameV,
    pairs: Seq<(Seq<char>, ValueId)>,
    i: int,
    acc: Seq<(Seq<char>, ValueV)>,
) -> Result<Seq<(Seq<char>, ValueV)>, RunErrorV>
    decreases pairs.len() - i,
{
    if 0 <= i < pairs.len() {
        match val(f, pairs[i].1) {
            Ok(v) => entries(f, pairs, i + 1, put_of(acc, pairs[i].0, v)),
            Err(e) => Err(e),
        }
    } else {
        Ok(acc)
    }
}

pub open spec fn missing_function(name: Seq<char>) -> RunErrorV {
    internal("missing IR function `"@ + name + "`"@)
}

pub open spec fn missing_constant(name: Seq<char>) -> RunErrorV {
    internal("missing IR constant `"@ + name + "`"@)
}

/// The function that some code stands for.
pub open spec fn code_of(p: ProgramV, c: CodeV) -> Option<FunctionV> {
    match c {
        CodeV::Function(n) => get_of(p.functions, n),
        CodeV::Const(n) => get_of(p.constants, n),
    }
}

/// A unary operator on a value.
pub open spec fn unary_effect(h: HeapV, op: UnOp, v: ValueV) -> EffectV {
    match op {
        UnOp::Neg => match v {
            ValueV::Number(b) => EffectV::Value(ValueV::Number(negated(b))),
            _ => EffectV::Fail(internal("expected a number"@)),
        },
        UnOp::Not => EffectV::Value(ValueV::Bool(!truthy(v))),
        UnOp::Len => match v {
            ValueV::Str(s) => EffectV::Ask(RequestV::Count(encode_utf8(s).len() as u64)),
            _ => match array_at(h, v) {
                Some(items) => EffectV::Ask(RequestV::Count(items.len() as u64)),
                None => EffectV::Fail(internal("`#` on a non-string/array"@)),
            },
        },
    }
}

/// Whether an order satisfies a comparison operator.
pub open spec fn satisfies(op: BinOp, o: Order) -> bool {
    match op {
        BinOp::Lt => o == Order::Less,
        BinOp::Le => o != Order::Greater,
        BinOp::Gt => o == Order::Greater,
        _ => o != Order::Less,
    }
}

/// A binary operator on two values.
pub open spec fn binary_effect(op: BinOp, l: ValueV, r: ValueV) -> EffectV {
    match op {
        BinOp::Add | BinOp::Sub | BinOp::Mul | BinOp::Div | BinOp::FloorDiv | BinOp::Mod
        | BinOp::Pow => match (l, r) {
            (ValueV::Number(a), ValueV::Number(b)) => EffectV::Ask(RequestV::Arith(op, a, b)),
            _ => EffectV::Fail(internal("expected a number"@)),
        },
        BinOp::Concat => match (l, r) {
            (ValueV::Str(a), ValueV::Str(b)) => EffectV::Value(ValueV::Str(a + b)),
            (ValueV::Str(_), _) => EffectV::Fail(internal("concat rhs"@)),
            _ => EffectV::Fail(internal("concat lhs"@)),
        },
        BinOp::Lt | BinOp::Le | BinOp::Gt | BinOp::Ge => match compared(l, r) {
            Ok(o) => EffectV::Value(ValueV::Bool(satisfies(op, o))),
            Err(e) => EffectV::Fail(e),
        },
        BinOp::Eq => EffectV::Value(ValueV::Bool(same_value(l, r))),
        BinOp::Ne => EffectV::Value(ValueV::Bool(!same_value(l, r))),
        _ => EffectV::Fail(internal("short-circuited in lowering"@)),
    }
}

/// The outcome of a builtin as an effect.
pub open spec fn builtin_effect(r: Result<OutcomeV, RunErrorV>) -> EffectV {
    match r {
        Ok(OutcomeV::Value(v)) => EffectV::Value(v),
        Ok(OutcomeV::Ask(q)) => EffectV::Ask(q),
        Err(e) => EffectV::Fail(e),
    }
}

/// A read, or why it fails.
pub open spec fn read_effect(r: Result<ValueV, RunErrorV>) -> EffectV {
    match r {
        Ok(v) => EffectV::Value(v),
        Err(e) => EffectV::Fail(e),
    }
}

/// An effect on an unchanged state.
pub open spec fn pure(st: VmV, f: FrameV, effect: EffectV) -> Evaluated {
    Evaluated { heap: st.heap, locals: f.locals, effect }
}

/// A value on a new heap.
pub open spec fn on_heap(f: FrameV, heap: HeapV, v: ValueV) -> Evaluated {
    Evaluated { heap, locals: f.locals, effect: EffectV::Value(v) }
}

/// A write, or why it fails.
pub open spec fn written(st: VmV, f: FrameV, r: Result<HeapV, RunErrorV>) -> Evaluated {
    match r {
        Ok(h) => on_heap(f, h, ValueV::Nil),
        Err(e) => pure(st, f, EffectV::Fail(e)),
    }
}

/// An operation that builds an object.
#[verifier::opaque]
pub open spec fn make_op(st: VmV, f: FrameV, op: OpV) -> Evaluated {
    let id = st.heap.len() as usize;
    match op {
        OpV::MakeArray(ids) => match vals(f, ids, 0, Seq::empty()) {
            Ok(vs) => on_heap(f, st.heap.push(ObjV::Array(vs)), ValueV::Array(id)),
            Err(e) => pure(st, f, EffectV::Fail(e)),
        },
        OpV::MakeTable(pairs) => match entries(f, pairs, 0, Seq::empty()) {
            Ok(es) => on_heap(f, st.heap.push(ObjV::Table(es)), ValueV::Table(id)),
            Err(e) => pure(st, f, EffectV::Fail(e)),
        },
        OpV::MakeCell(v) => match val(f, v) {
            Ok(x) => on_heap(f, st.heap.push(ObjV::Cell(x)), ValueV::Cell(id)),
            Err(e) => pure(st, f, EffectV::Fail(e)),
        },
        OpV::MakeClosure(code, cells) => match vals(f, cells, 0, Seq::empty()) {
            Ok(env) => on_heap(
                f,
                st.heap.push(ObjV::Closure { code, env, origin: 0 }),
                ValueV::Closure(id, 0),
            ),
            Err(e) => pure(st, f, EffectV::Fail(e)),
        },
        OpV::MapKeys(base) => match val(f, base) {
            Ok(b) => match table_at(st.heap, b) {
                Some(t) => on_heap(
                    f,
                    st.heap.push(ObjV::Array(key_values(t))),
                    ValueV::Array(id),
                ),
                None => pure(st, f, EffectV::Fail(internal("MapKeys on a non-table"@))),
            },
            Err(e) => pure(st, f, EffectV::Fail(e)),
        },
        _ => pure(st, f, EffectV::Fail(internal("not a constructor"@))),
    }
}

/// An operation that reads an object.
#[verifier::opaque]
pub open spec fn read_op(st: VmV, f: FrameV, op: OpV) -> EffectV {
    match op {
        OpV::ArrayGet(base, idx) => match val(f, base) {
            Ok(b) => match val(f, idx) {
                Ok(i) => read_effect(array_read(st.heap, b, i)),
                Err(e) => EffectV::Fail(e),
            },
            Err(e) => EffectV::Fail(e),
        },
        OpV::MapGet(base, key) => match val(f, base) {
            Ok(b) => match val(f, key) {
                Ok(k) => read_effect(table_read(st.heap, b, k)),
                Err(e) => EffectV::Fail(e),
            },
            Err(e) => EffectV::Fail(e),
        },
        OpV::FieldGet(base, name) => match val(f, base) {
            Ok(b) => EffectV::Value(field_read(st.heap, b, name)),
            Err(e) => EffectV::Fail(e),
        },
        OpV::CellGet(cell) => match val(f, cell) {
            Ok(c) => match cell_at(st.heap, c) {
                Some(v) => EffectV::Value(v),
                None => EffectV::Fail(internal("CellGet on a "@ + kind_name_of(c) + " value"@)),
            },
            Err(e) => EffectV::Fail(e),
        },
        OpV::ClosureEnvGet(clo, i) => match val(f, clo) {
            Ok(c) => match closure_at(st.heap, c) {
                Some((_, env)) => if i < env.len() {
                    EffectV::Value(env[i as int])
                } else {
                    EffectV::Fail(internal("upvalue "@ + dec(i as nat) + " out of range"@))
                },
                None => EffectV::Fail(
                    internal("ClosureEnvGet on a "@ + kind_name_of(c) + " value"@),
                ),
            },
            Err(e) => EffectV::Fail(e),
        },
        _ => EffectV::Fail(internal("not a read"@)),
    }
}

/// An operation that writes to an object.
#[verifier::opaque]
pub open spec fn write_op(st: VmV, f: FrameV, op: OpV) -> Evaluated {
    match op {
        OpV::ArraySet(base, idx, v) => match (val(f, base), val(f, idx), val(f, v)) {
            (Ok(b), Ok(i), Ok(x)) => if is_frozen(st.frozen, b) {
                pure(st, f, EffectV::Fail(frozen_error_of()))
            } else {
                written(st, f, array_written(st.heap, b, i, x))
            },
            (Ok(_), Ok(_), Err(e)) => pure(st, f, EffectV::Fail(e)),
            (Ok(_), Err(e), _) => pure(st, f, EffectV::Fail(e)),
            (Err(e), _, _) => pure(st, f, EffectV::Fail(e)),
        },
        OpV::MapSet(base, key, v) => match (val(f, base), val(f, key), val(f, v)) {
            (Ok(b), Ok(k), Ok(x)) => if is_frozen(st.frozen, b) {
                pure(st, f, EffectV::Fail(frozen_error_of()))
            } else {
                written(st, f, table_written(st.heap, b, k, x))
            },
            (Ok(_), Ok(_), Err(e)) => pure(st, f, EffectV::Fail(e)),
            (Ok(_), Err(e), _) => pure(st, f, EffectV::Fail(e)),
            (Err(e), _, _) => pure(st, f, EffectV::Fail(e)),
        },
        OpV::FieldSet(base, name, v) => match (val(f, base), val(f, v)) {
            (Ok(b), Ok(x)) => if is_frozen(st.frozen, b) {
                pure(st, f, EffectV::Fail(frozen_error_of()))
            } else {
                written(st, f, table_written(st.heap, b, ValueV::Str(name), x))
            },
            (Ok(_), Err(e)) => pure(st, f, EffectV::Fail(e)),
            (Err(e), _) => pure(st, f, EffectV::Fail(e)),
        },
        OpV::CellSet(cell, v) => match (val(f, v), val(f, cell)) {
            (Ok(x), Ok(c)) => match cell_at(st.heap, c) {
                Some(_) => on_heap(
                    f,
                    st.heap.update(c->Cell_0 as int, ObjV::Cell(x)),
                    ValueV::Nil,
                ),
                None => pure(
                    st,
                    f,
                    EffectV::Fail(internal("CellSet on a "@ + kind_name_of(c) + " value"@)),
                ),
            },
            (Ok(_), Err(e)) => pure(st, f, EffectV::Fail(e)),
            (Err(e), _) => pure(st, f, EffectV::Fail(e)),
        },
        _ => pure(st, f, EffectV::Fail(internal("not a write"@))),
    }
}

/// An operation that calls.
#[verifier::opaque]
pub open spec fn call_op(p: ProgramV, st: VmV, f: FrameV, op: OpV) -> EffectV {
    match op {
        OpV::CallScript(name, args) => match vals(f, args, 0, Seq::empty()) {
            Ok(vs) => if get_of(p.functions, name) is Some {
                EffectV::Enter(CodeV::Function(name), vs)
            } else {
                EffectV::Fail(missing_function(name))
            },
            Err(e) => EffectV::Fail(e),
        },
        OpV::CallHost(name, args) => match vals(f, args, 0, Seq::empty()) {
            Ok(vs) => if st.hosts.contains(name) {
                EffectV::Ask(RequestV::Host(name, vs))
            } else {
                EffectV::Fail(runtime("host fn `"@ + name + "` not set"@))
            },
            Err(e) => EffectV::Fail(e),
        },
        OpV::CallBuiltinValue(ns, args) => match vals(f, args, 0, Seq::empty()) {
            Ok(vs) => builtin_effect(value_call_of(st.heap, ns, vs)),
            Err(e) => EffectV::Fail(e),
        },
        OpV::CallBuiltinMember(ns, name, args) => match vals(f, args, 0, Seq::empty()) {
            Ok(vs) => builtin_effect(member_call_of(st.heap, ns, name, vs)),
            Err(e) => EffectV::Fail(e),
        },
        OpV::CallValue(callee, args) => match val(f, callee) {
            Ok(c) => match closure_at(st.heap, c) {
                Some((code, _)) => if get_of(p.functions, code) is Some {
                    // The closure itself is the hidden first argument.
                    match vals(f, args, 0, seq![c]) {
                        Ok(vs) => EffectV::Enter(CodeV::Function(code), vs),
                        Err(e) => EffectV::Fail(e),
                    }
                } else {
                    EffectV::Fail(missing_function(code))
                },
                None => EffectV::Fail(internal("CallValue on a "@ + kind_name_of(c) + " value"@)),
            },
            Err(e) => EffectV::Fail(e),
        },
        _ => EffectV::Fail(internal("not a call"@)),
    }
}

/// An operation that names a constant, memory or a namespace field.
#[verifier::opaque]
pub open spec fn name_op(p: ProgramV, st: VmV, op: OpV) -> EffectV {
    match op {
        OpV::ConstRef(name) => match get_of(st.consts, name) {
            Some(v) => EffectV::Value(v),
            None => if get_of(p.constants, name) is Some {
                EffectV::Enter(CodeV::Const(name), Seq::empty())
            } else {
                EffectV::Fail(missing_constant(name))
            },
        },
        OpV::MemoryRef(name) => match get_of(st.memory, name) {
            Some(v) => EffectV::Value(v),
            None => EffectV::Fail(runtime("memory `"@ + name + "` not set"@)),
        },
        OpV::NamespaceField(ns, field) => read_effect(field_value_of(ns, field)),
        _ => EffectV::Fail(internal("not a name"@)),
    }
}

/// Evaluate an operation in a frame.
#[verifier::opaque]
pub open spec fn eval_op_of(p: ProgramV, st: VmV, f: FrameV, op: OpV) -> Evaluated {
    match op {
        OpV::ConstNil => pure(st, f, EffectV::Value(ValueV::Nil)),
        OpV::ConstBool(b) => pure(st, f, EffectV::Value(ValueV::Bool(b))),
        OpV::ConstNumber(n) => pure(st, f, EffectV::Ask(RequestV::Numeral(n))),
        OpV::ConstString(s) => pure(st, f, EffectV::Value(ValueV::Str(s))),
        OpV::LocalGet(id) => if f.locals.dom().contains(id) {
            pure(st, f, EffectV::Value(f.locals[id]))
        } else {
            pure(st, f, EffectV::Fail(internal("read of unset local "@ + dec(id as nat))))
        },
        OpV::LocalSet(id, v) => match val(f, v) {
            Ok(x) => Evaluated {
                heap: st.heap,
                locals: f.locals.insert(id, x),
                effect: EffectV::Value(ValueV::Nil),
            },
            Err(e) => pure(st, f, EffectV::Fail(e)),
        },
        OpV::Unary(op, v) => match val(f, v) {
            Ok(x) => pure(st, f, unary_effect(st.heap, op, x)),
            Err(e) => pure(st, f, EffectV::Fail(e)),
        },
        OpV::Binary(op, l, r) => match (val(f, l), val(f, r)) {
            (Ok(a), Ok(b)) => pure(st, f, binary_effect(op, a, b)),
            (Ok(_), Err(e)) => pure(st, f, EffectV::Fail(e)),
            (Err(e), _) => pure(st, f, EffectV::Fail(e)),
        },
        OpV::Truthy(v) => match val(f, v) {
            Ok(x) => pure(st, f, EffectV::Value(ValueV::Bool(truthy(x)))),
            Err(e) => pure(st, f, EffectV::Fail(e)),
        },
        OpV::MakeArray(_) | OpV::MakeTable(_) | OpV::MakeCell(_) | OpV::MakeClosure(_, _)
        | OpV::MapKeys(_) => make_op(st, f, op),
        OpV::ArrayGet(_, _) | OpV::MapGet(_, _) | OpV::FieldGet(_, _) | OpV::CellGet(_)
        | OpV::ClosureEnvGet(_, _) => pure(st, f, read_op(st, f, op)),
        OpV::ArraySet(_, _, _) | OpV::MapSet(_, _, _) | OpV::FieldSet(_, _, _)
        | OpV::CellSet(_, _) => write_op(st, f, op),
        OpV::ConstRef(_) | OpV::MemoryRef(_) | OpV::NamespaceField(_, _) => pure(
            st,
            f,
            name_op(p, st, op),
        ),
        _ => pure(st, f, call_op(p, st, f, op)),
    }
}

/// The parameters bound to the first `n` arguments; a missing one is nil.
pub open spec fn bound(params: Seq<LocalId>, args: Seq<ValueV>, n: int) -> Map<LocalId, ValueV>
    decreases n,
{
    if n <= 0 {
        Map::empty()
    } else {
        bound(params, args, n - 1).insert(params[n - 1], arg(args, n - 1))
    }
}

/// The first frame of a function.
pub open spec fn entered(code: CodeV, f: FunctionV, args: Seq<ValueV>, mark: usize) -> FrameV {
    FrameV {
        code,
        block: f.entry,
        pc: 0,
        locals: bound(f.params, args, f.params.len() as int),
        values: Map::empty(),
        mark,
    }
}

/// The state after a call has ended.
pub open spec fn stopped(st: VmV) -> VmV {
    VmV { frames: Seq::empty(), wait: None, ..st }
}

pub open spec fn failed(st: VmV, e: RunErrorV) -> (VmV, ProgressV) {
    (stopped(st), ProgressV::Done(Err(e)))
}

/// The instruction that a frame stands at.
pub open spec fn instr_at(p: ProgramV, f: FrameV) -> Option<InstrV> {
    match code_of(p, f.code) {
        Some(func) => if f.block < func.blocks.len() && f.pc < func.blocks[f.block as int].instrs.len() {
            Some(func.blocks[f.block as int].instrs[f.pc as int])
        } else {
            None
        },
        None => None,
    }
}

/// A frame after its instruction has yielded a value.
pub open spec fn advanced(p: ProgramV, f: FrameV, v: ValueV) -> FrameV {
    match instr_at(p, f) {
        Some(i) => FrameV {
            pc: f.pc + 1,
            values: match i.dest {
                Some(d) => f.values.insert(d, v),
                None => f.values,
            },
            ..f
        },
        None => f,
    }
}

/// Hand a value to the instruction that the innermost frame stands at.
#[verifier::opaque]
pub open spec fn delivered(p: ProgramV, st: VmV, v: ValueV) -> VmV {
    let n = st.frames.len() - 1;
    VmV { frames: st.frames.update(n, advanced(p, st.frames[n], v)), ..st }
}

/// The innermost function returns.
#[verifier::opaque]
pub open spec fn returned(p: ProgramV, st: VmV, v: ValueV) -> (VmV, ProgressV) {
    let st1 = VmV {
        frames: st.frames.drop_last(),
        consts: match st.frames.last().code {
            CodeV::Const(name) => put_of(st.consts, name, v),
            CodeV::Function(_) => st.consts,
        },
        frozen: match st.frames.last().code {
            CodeV::Const(_) => st.frozen.push(
                (st.frames.last().mark, st.heap.len() as usize),
            ),
            CodeV::Function(_) => st.frozen,
        },
        ..st
    };
    if st1.frames.len() == 0 {
        (stopped(st1), ProgressV::Done(Ok(v)))
    } else {
        (delivered(p, st1, v), ProgressV::Running)
    }
}

/// The innermost frame goes on at another block.
#[verifier::opaque]
pub open spec fn jumped(st: VmV, b: BlockId) -> VmV {
    let n = st.frames.len() - 1;
    VmV { frames: st.frames.update(n, FrameV { block: b, pc: 0, ..st.frames[n] }), ..st }
}

/// Carry out a terminator.
#[verifier::opaque]
pub open spec fn terminated(p: ProgramV, st: VmV, t: Terminator) -> (VmV, ProgressV) {
    let f = st.frames.last();
    match t {
        Terminator::Return(Some(v)) => match val(f, v) {
            Ok(x) => returned(p, st, x),
            Err(e) => failed(st, e),
        },
        Terminator::Return(None) => returned(p, st, ValueV::Nil),
        Terminator::Jump(b) => (jumped(st, b), ProgressV::Running),
        Terminator::Branch { cond, then_blk, else_blk } => match val(f, cond) {
            Ok(c) => (
                jumped(
                    st,
                    if truthy(c) {
                        then_blk
                    } else {
                        else_blk
                    },
                ),
                ProgressV::Running,
            ),
            Err(e) => failed(st, e),
        },
        Terminator::Unreachable => failed(st, internal("reached an unreachable IR block"@)),
    }
}

/// Carry out an operation's effect.
#[verifier::opaque]
pub open spec fn effected(p: ProgramV, st: VmV, out: Evaluated) -> (VmV, ProgressV) {
    let n = st.frames.len() - 1;
    let st1 = VmV {
        heap: out.heap,
        frames: st.frames.update(n, FrameV { locals: out.locals, ..st.frames[n] }),
        ..st
    };
    match out.effect {
        EffectV::Value(v) => (delivered(p, st1, v), ProgressV::Running),
        EffectV::Fail(e) => failed(st1, e),
        EffectV::Ask(q) => (VmV { wait: Some(q), ..st1 }, ProgressV::Ask),
        EffectV::Enter(code, args) => match code_of(p, code) {
            Some(func) => (
                VmV { frames: st1.frames.push(
                        entered(code, func, args, st1.heap.len() as usize),
                    ), ..st1 },
                ProgressV::Running,
            ),
            None => failed(st1, internal("missing code"@)),
        },
    }
}

/// One step: the next instruction or the terminator of the innermost frame.
pub open spec fn step_of(p: ProgramV, st: VmV) -> (VmV, ProgressV) {
    if st.wait is Some {
        (st, ProgressV::Ask)
    } else if st.frames.len() == 0 {
        failed(st, internal("no call in progress"@))
    } else {
        let f = st.frames.last();
        match code_of(p, f.code) {
            None => failed(st, internal("missing code"@)),
            Some(func) => if f.block >= func.blocks.len() {
                failed(st, internal("reached an undefined IR block"@))
            } else {
                let b = func.blocks[f.block as int];
                if f.pc < b.instrs.len() {
                    effected(p, st, eval_op_of(p, st, f, b.instrs[f.pc as int].op))
                } else {
                    terminated(p, st, b.term)
                }
            },
        }
    }
}

/// The machine goes on with the answer to its request.
pub open spec fn resume_of(p: ProgramV, st: VmV, a: ReplyV) -> (VmV, ProgressV) {
    match st.wait {
        None => failed(st, internal("no request is open"@)),
        Some(q) => match answer_of(q, a) {
            Ok(v) => if st.frames.len() == 0 {
                failed(st, internal("no call in progress"@))
            } else {
                (delivered(p, VmV { wait: None, ..st }, v), ProgressV::Running)
            },
            Err(e) => failed(st, e),
        },
    }
}

/// The machine at the start of a call: no constant has been evaluated.
pub open spec fn started(st: VmV, code: CodeV, f: FunctionV, args: Seq<ValueV>) -> (
    VmV,
    ProgressV,
) {
    (
        VmV {
            frames: seq![entered(code, f, args, st.heap.len() as usize)],
            consts: Seq::empty(),
            frozen: Seq::empty(),
            wait: None,
            ..st
        },
        ProgressV::Running,
    )
}

/// Call an exported function with exactly its arguments, or read an exported constant with
/// none.
pub open spec fn call_of(p: ProgramV, st: VmV, name: Seq<char>, args: Seq<ValueV>) -> (
    VmV,
    ProgressV,
) {
    match get_of(p.exports, name) {
        None => failed(st, RunErrorV::UnknownExport(name)),
        Some(ExportTargetV::Function(f)) => match get_of(p.functions, f) {
            Some(func) => if args.len() == func.params.len() {
                started(st, CodeV::Function(f), func, args)
            } else {
                failed(st, arity_error_of(name, func.params.len(), args.len()))
            },
            None => failed(st, missing_function(f)),
        },
        Some(ExportTargetV::Const(c)) => if args.len() > 0 {
            failed(st, arity_error_of(name, 0, args.len()))
        } else {
            match get_of(p.constants, c) {
                Some(func) => started(st, CodeV::Const(c), func, Seq::empty()),
                None => failed(st, missing_constant(c)),
            }
        },
    }
}

/// Call a closure value.
pub open spec fn call_value_of(p: ProgramV, st: VmV, callee: ValueV, args: Seq<ValueV>) -> (
    VmV,
    ProgressV,
) {
    match closure_at(st.heap, callee) {
        None => failed(st, internal("call_value on a "@ + kind_name_of(callee) + " value"@)),
        Some((code, _)) => match get_of(p.functions, code) {
            Some(func) => if args.len() + 1 == func.params.len() {
                started(st, CodeV::Function(code), func, seq![callee] + args)
            } else {
                failed(
                    st,
                    arity_error_of(
                        code,
                        if func.params.len() > 0 {
                            (func.params.len() - 1) as nat
                        } else {
                            0
                        },
                        args.len(),
                    ),
                )
            },
            None => failed(st, missing_function(code)),
        },
    }
}

/// Whether every frame stands inside a block of existing code.
pub open spec fn located(p: ProgramV, st: VmV) -> bool {
    forall|i: int|
        0 <= i < st.frames.len() ==> {
            &&& code_of(p, (#[trigger] st.frames[i]).code) is Some
            &&& st.frames[i].block < (code_of(p, st.frames[i].code)->0).blocks.len()
        }
}

proof fn lemma_code_ok(p: ProgramV, c: CodeV)
    requires
        program_ok(p),
    ensures
        code_of(p, c) matches Some(f) ==> function_ok(f),
{
    match c {
        CodeV::Function(n) => {
            let k = pos_of(keys_of(p.functions), n, 0);
            lemma_pos(keys_of(p.functions), n, 0);
            if code_of(p, c) is Some {
                assert(function_ok(p.functions[k].1));
            }
        },
        CodeV::Const(n) => {
            let k = pos_of(keys_of(p.constants), n, 0);
            lemma_pos(keys_of(p.constants), n, 0);
            if code_of(p, c) is Some {
                assert(function_ok(p.constants[k].1));
            }
        },
    }
}

/// A step of a structurally valid program leads from blocks to blocks: control never leaves
/// the code.
pub proof fn law_step_stays_in_code(p: ProgramV, st: VmV)
    requires
        program_ok(p),
        located(p, st),
    ensures
        located(p, step_of(p, st).0),
{
    reveal(effected);
    reveal(terminated);
    reveal(returned);
    reveal(delivered);
    reveal(jumped);
    if st.wait is None && st.frames.len() > 0 {
        let f = st.frames.last();
        let n = st.frames.len() - 1;
        assert(st.frames[n] == f);
        lemma_code_ok(p, f.code);
        let func = code_of(p, f.code)->0;
        let b = func.blocks[f.block as int];
        assert(block_ok(
            func.blocks[f.block as int],
            f.block as int,
            (func.blocks.len() as u32) as int,
            (func.values.len() as u32) as int,
        ));
        assert((func.blocks.len() as u32) as int <= func.blocks.len());
        if f.pc < b.instrs.len() {
            let out = eval_op_of(p, st, f, b.instrs[f.pc as int].op);
            match out.effect {
                EffectV::Enter(code, args) => {
                    lemma_code_ok(p, code);
                    if let Some(g) = code_of(p, code) {
                        assert((g.blocks.len() as u32) as int <= g.blocks.len());
                    }
                },
                _ => {},
            }
        }
    }
}

/// A call of a structurally valid program starts inside its code.
pub proof fn law_call_starts_in_code(p: ProgramV, st: VmV, name: Seq<char>, args: Seq<ValueV>)
    requires
        program_ok(p),
    ensures
        located(p, call_of(p, st, name, args).0),
{
    if let Some(ExportTargetV::Function(f)) = get_of(p.exports, name) {
        lemma_code_ok(p, CodeV::Function(f));
        if let Some(g) = get_of(p.functions, f) {
            assert((g.blocks.len() as u32) as int <= g.blocks.len());
        }
    }
    if let Some(ExportTargetV::Const(c)) = get_of(p.exports, name) {
        lemma_code_ok(p, CodeV::Const(c));
        if let Some(g) = get_of(p.constants, c) {
            assert((g.blocks.len() as u32) as int <= g.blocks.len());
        }
    }
}

/// A constant is evaluated once in a call: where its value is known, a reference yields it
/// and changes nothing.
pub proof fn law_constant_is_kept(p: ProgramV, st: VmV, f: FrameV, name: Seq<char>)
    requires
        get_of(st.consts, name) is Some,
    ensures
        eval_op_of(p, st, f, OpV::ConstRef(name)) == pure(
            st,
            f,
            EffectV::Value(get_of(st.consts, name)->0),
        ),
{
    reveal(eval_op_of);
    reveal(name_op);
}


/// Nothing of a constant survives a call: whatever was evaluated before it, the next call
/// starts with none.
pub proof fn law_constants_end_with_the_call(p: ProgramV, st: VmV, name: Seq<char>, args: Seq<ValueV>)
    ensures
        ({
            let (st1, r) = call_of(p, st, name, args);
            r is Running ==> st1.consts.len() == 0 && st1.frozen.len() == 0
        }),
{
}

/// A constant is not written to: an operation that writes to one of its objects fails, and
/// leaves the heap as it is.
pub proof fn law_constants_are_not_written(p: ProgramV, st: VmV, f: FrameV, op: OpV)
    requires
        match op {
            OpV::ArraySet(b, _, _) => val(f, b) is Ok && is_frozen(st.frozen, val(f, b)->Ok_0),
            OpV::MapSet(b, _, _) => val(f, b) is Ok && is_frozen(st.frozen, val(f, b)->Ok_0),
            OpV::FieldSet(b, _, _) => val(f, b) is Ok && is_frozen(st.frozen, val(f, b)->Ok_0),
            _ => false,
        },
    ensures
        eval_op_of(p, st, f, op).effect is Fail,
        eval_op_of(p, st, f, op).heap == st.heap,
{
    reveal(eval_op_of);
    reveal(write_op);
}

/// A table or an array is equal to itself, and to no other.
pub proof fn law_identity(a: ValueV, b: ValueV)
    requires
        a is Array || a is Table || a is Closure,
    ensures
        binary_effect(BinOp::Eq, a, b) == EffectV::Value(ValueV::Bool(a == b)),
        binary_effect(BinOp::Ne, a, b) == EffectV::Value(ValueV::Bool(a != b)),
{
}

pub proof fn unfold_vals(f: FrameV, ids: Seq<ValueId>, i: int, acc: Seq<ValueV>)
    ensures
        vals(f, ids, i, acc) == ({
            if 0 <= i < ids.len() {
                match val(f, ids[i]) {
                    Ok(v) => vals(f, ids, i + 1, acc.push(v)),
                    Err(e) => Err(e),
                }
            } else {
                Ok(acc)
            }
        }),
{
    reveal(vals);
}

pub proof fn unfold_entries(
    f: FrameV,
    pairs: Seq<(Seq<char>, ValueId)>,
    i: int,
    acc: Seq<(Seq<char>, ValueV)>,
)
    ensures
        entries(f, pairs, i, acc) == ({
            if 0 <= i < pairs.len() {
                match val(f, pairs[i].1) {
                    Ok(v) => entries(f, pairs, i + 1, put_of(acc, pairs[i].0, v)),
                    Err(e) => Err(e),
                }
            } else {
                Ok(acc)
            }
        }),
{
    reveal(entries);
}

struct Frame {
    code: Code,
    block: BlockId,
    pc: usize,
    locals: BTreeMap<LocalId, Value>,
    values: BTreeMap<ValueId, Value>,
    mark: usize,
}

spec fn table_v(m: Map<u32, Value>) -> Map<u32, ValueV> {
    m.map_values(|v: Value| v@)
}

impl View for Frame {
    type V = FrameV;

    closed spec fn view(&self) -> FrameV {
        FrameV {
            code: self.code@,
            block: self.block,
            pc: self.pc as nat,
            locals: table_v(self.locals@),
            values: table_v(self.values@),
            mark: self.mark,
        }
    }
}

spec fn frames_v(v: Seq<Frame>) -> Seq<FrameV> {
    Seq::new(v.len(), |i: int| v[i]@)
}

impl Frame {
    /// The value of a temporary.
    fn val(&self, v: ValueId) -> (r: Result<Value, RunError>)
        ensures
            match r {
                Ok(x) => val(self@, v) == Ok::<ValueV, RunErrorV>(x@),
                Err(e) => val(self@, v) == Err::<ValueV, RunErrorV>(e@),
            },
    {
        broadcast use vstd::std_specs::btree::group_btree_axioms;

        match self.values.get(&v) {
            Some(x) => Ok(x.dup()),
            None => {
                let n = dec_string(v as u64);
                Err(RunError::Internal(cat2("use of undefined IR value ", n.as_str())))
            },
        }
    }

    fn local(&self, id: LocalId) -> (r: Option<Value>)
        ensures
            match r {
                Some(x) => self@.locals.dom().contains(id) && self@.locals[id] == x@,
                None => !self@.locals.dom().contains(id),
            },
    {
        broadcast use vstd::std_specs::btree::group_btree_axioms;

        match self.locals.get(&id) {
            Some(x) => Some(x.dup()),
            None => None,
        }
    }

    fn set_local(&mut self, id: LocalId, v: Value)
        ensures
            final(self)@ == (FrameV { locals: old(self)@.locals.insert(id, v@), ..old(self)@ }),
    {
        broadcast use vstd::std_specs::btree::group_btree_axioms;

        let ghost x = v@;
        self.locals.insert(id, v);
        assert(self@.locals =~= old(self)@.locals.insert(id, x));
    }

    fn set_value(&mut self, id: ValueId, v: Value)
        ensures
            final(self)@ == (FrameV { values: old(self)@.values.insert(id, v@), ..old(self)@ }),
    {
        broadcast use vstd::std_specs::btree::group_btree_axioms;

        let ghost x = v@;
        self.values.insert(id, v);
        assert(self@.values =~= old(self)@.values.insert(id, x));
    }

    /// The values of temporaries, after those in `first`.
    fn vals(&self, ids: &Vec<ValueId>, first: Vec<Value>) -> (r: Result<Vec<Value>, RunError>)
        ensures
            match r {
                Ok(vs) => vals(self@, ids@, 0, values_v(first@)) == Ok::<Seq<ValueV>, RunErrorV>(
                    values_v(vs@),
                ),
                Err(e) => vals(self@, ids@, 0, values_v(first@)) == Err::<Seq<ValueV>, RunErrorV>(
                    e@,
                ),
            },
    {
        let ghost v0 = values_v(first@);
        let mut out = first;
        let mut i: usize = 0;
        while i < ids.len()
            invariant
                i <= ids@.len(),
                v0 == values_v(first@),
                vals(self@, ids@, i as int, values_v(out@)) == vals(self@, ids@, 0, v0),
            decreases ids@.len() - i,
        {
            proof {
                unfold_vals(self@, ids@, i as int, values_v(out@));
            }
            let ghost o0 = out@;
            let v = self.val(ids[i])?;
            out.push(v);
            assert(values_v(out@) =~= values_v(o0).push(v@));
            i += 1;
        }
        proof {
            unfold_vals(self@, ids@, i as int, values_v(out@));
        }
        Ok(out)
    }

    fn entries(&self, pairs: &Vec<(String, ValueId)>) -> (r: Result<NameMap<Value>, RunError>)
        ensures
            match r {
                Ok(t) => entries(self@, pairs_v(pairs@), 0, Seq::empty()) == Ok::<
                    Seq<(Seq<char>, ValueV)>,
                    RunErrorV,
                >(t@),
                Err(e) => entries(self@, pairs_v(pairs@), 0, Seq::empty()) == Err::<
                    Seq<(Seq<char>, ValueV)>,
                    RunErrorV,
                >(e@),
            },
    {
        let ghost ps = pairs_v(pairs@);
        let mut out: NameMap<Value> = NameMap::new();
        let mut i: usize = 0;
        while i < pairs.len()
            invariant
                i <= pairs@.len(),
                ps == pairs_v(pairs@),
                entries(self@, ps, i as int, out@) == entries(self@, ps, 0, Seq::empty()),
            decreases pairs@.len() - i,
        {
            proof {
                unfold_entries(self@, ps, i as int, out@);
            }
            let v = self.val(pairs[i].1)?;
            out.insert(pairs[i].0.clone(), v);
            i += 1;
        }
        proof {
            unfold_entries(self@, ps, i as int, out@);
        }
        Ok(out)
    }
}

/// What an operation comes to.
enum Effect {
    Value(Value),
    Ask(Request),
    Enter(Code, Vec<Value>),
}

spec fn effect_v(r: Result<Effect, RunError>) -> EffectV {
    match r {
        Ok(Effect::Value(v)) => EffectV::Value(v@),
        Ok(Effect::Ask(q)) => EffectV::Ask(q@),
        Ok(Effect::Enter(c, vs)) => EffectV::Enter(c@, values_v(vs@)),
        Err(e) => EffectV::Fail(e@),
    }
}

fn kind_error(what: &str, v: &Value) -> (r: RunError)
    ensures
        r@ == internal(what@ + kind_name_of(v@) + " value"@),
{
    RunError::Internal(cat3(what, v.kind_name(), " value"))
}

fn function_error(name: &str) -> (r: RunError)
    ensures
        r@ == missing_function(name@),
{
    RunError::Internal(cat3("missing IR function `", name, "`"))
}

fn constant_error(name: &str) -> (r: RunError)
    ensures
        r@ == missing_constant(name@),
{
    RunError::Internal(cat3("missing IR constant `", name, "`"))
}

fn expect_number(v: &Value) -> (r: Result<u64, RunError>)
    ensures
        match r {
            Ok(b) => v@ == ValueV::Number(b),
            Err(e) => !(v@ is Number) && e@ == internal("expected a number"@),
        },
{
    match v {
        Value::Number(b) => Ok(*b),
        _ => Err(RunError::internal("expected a number")),
    }
}

fn eval_unary(h: &Heap, op: UnOp, v: Value) -> (r: Result<Effect, RunError>)
    ensures
        effect_v(r) == unary_effect(h@, op, v@),
{
    match op {
        UnOp::Neg => {
            let b = expect_number(&v)?;
            Ok(Effect::Value(Value::Number(negate(b))))
        },
        UnOp::Not => Ok(Effect::Value(Value::Bool(!v.is_truthy()))),
        UnOp::Len => {
            if let Value::Str(s) = &v {
                let n: usize = s.as_str().as_bytes().len();
                return Ok(Effect::Ask(Request::Count(n as u64)));
            }
            match h.as_array(&v) {
                Some(items) => Ok(Effect::Ask(Request::Count(items.len() as u64))),
                None => Err(RunError::internal("`#` on a non-string/array")),
            }
        },
    }
}

fn holds(op: BinOp, o: Order) -> (r: bool)
    ensures
        r == satisfies(op, o),
{
    match op {
        BinOp::Lt => o == Order::Less,
        BinOp::Le => o != Order::Greater,
        BinOp::Gt => o == Order::Greater,
        _ => o != Order::Less,
    }
}

fn eval_binary(op: BinOp, l: Value, r: Value) -> (out: Result<Effect, RunError>)
    ensures
        effect_v(out) == binary_effect(op, l@, r@),
{
    match op {
        BinOp::Add | BinOp::Sub | BinOp::Mul | BinOp::Div | BinOp::FloorDiv | BinOp::Mod
        | BinOp::Pow => {
            let a = expect_number(&l)?;
            let b = expect_number(&r)?;
            Ok(Effect::Ask(Request::Arith(op, a, b)))
        },
        BinOp::Concat => match (&l, &r) {
            (Value::Str(a), Value::Str(b)) => Ok(
                Effect::Value(Value::Str(cat2(a.as_str(), b.as_str()))),
            ),
            (Value::Str(_), _) => Err(RunError::internal("concat rhs")),
            _ => Err(RunError::internal("concat lhs")),
        },
        BinOp::Lt | BinOp::Le | BinOp::Gt | BinOp::Ge => {
            let o = compare(&l, &r)?;
            Ok(Effect::Value(Value::Bool(holds(op, o))))
        },
        BinOp::Eq => Ok(Effect::Value(Value::Bool(value_eq(&l, &r)))),
        BinOp::Ne => Ok(Effect::Value(Value::Bool(!value_eq(&l, &r)))),
        _ => Err(RunError::internal("short-circuited in lowering")),
    }
}

fn from_outcome(o: Outcome) -> (r: Effect)
    ensures
        effect_v(Ok(r)) == builtin_effect(Ok(o@)),
{
    match o {
        Outcome::Value(v) => Effect::Value(v),
        Outcome::Ask(q) => Effect::Ask(q),
    }
}

fn has_name(names: &Vec<String>, name: &str) -> (r: bool)
    ensures
        r == strs_v(names@).contains(name@),
{
    let ghost ns = strs_v(names@);
    let mut i: usize = 0;
    while i < names.len()
        invariant
            i <= names@.len(),
            ns == strs_v(names@),
            forall|k: int| 0 <= k < i ==> (#[trigger] ns[k]) != name@,
        decreases names@.len() - i,
    {
        assert(ns[i as int] == names@[i as int]@);
        if same(names[i].as_str(), name) {
            return true;
        }
        i += 1;
    }
    false
}

/// Executes a lowered [`Program`], one step at a time.
///
/// [`call`](Vm::call) starts a call, [`step`](Vm::step) goes on with it. What the machine
/// cannot compute itself (arithmetic that rounds, the spelling of numbers, host functions) it
/// puts as a request: [`request`](Vm::request) shows it and [`resume`](Vm::resume) takes the
/// answer.
pub struct Vm<'a> {
    program: &'a Program,
    heap: Heap,
    frames: Vec<Frame>,
    consts: NameMap<Value>,
    frozen: Vec<(usize, usize)>,
    memory: NameMap<Value>,
    hosts: Vec<String>,
    wait: Option<Request>,
}

spec fn wait_v(w: Option<Request>) -> Option<RequestV> {
    match w {
        Some(q) => Some(q@),
        None => None,
    }
}

impl<'a> Vm<'a> {
    pub closed spec fn view(&self) -> VmV {
        VmV {
            heap: self.heap@,
            frames: frames_v(self.frames@),
            consts: self.consts@,
            frozen: self.frozen@,
            memory: self.memory@,
            hosts: strs_v(self.hosts@),
            wait: wait_v(self.wait),
        }
    }

    /// The program that is executed.
    pub closed spec fn code(&self) -> ProgramV {
        self.program@
    }

    pub fn new(program: &'a Program) -> (r: Self)
        ensures
            r.code() == program@,
            r@ == (VmV {
                heap: Seq::empty(),
                frames: Seq::empty(),
                consts: Seq::empty(),
                frozen: Seq::empty(),
                memory: Seq::empty(),
                hosts: Seq::empty(),
                wait: None,
            }),
    {
        let r = Vm {
            program,
            heap: Heap::new(),
            frames: Vec::new(),
            consts: NameMap::new(),
            frozen: Vec::new(),
            memory: NameMap::new(),
            hosts: Vec::new(),
            wait: None,
        };
        assert(r@.frames =~= Seq::<FrameV>::empty());
        assert(r@.frozen =~= Seq::<(usize, usize)>::empty());
        assert(r@.hosts =~= Seq::<Seq<char>>::empty());
        r
    }

    /// Let scripts call the host function of that name. Its calls come as requests.
    pub fn set_host_function(&mut self, name: &str)
        ensures
            final(self).code() == old(self).code(),
            final(self)@ == (VmV { hosts: old(self)@.hosts.push(name@), ..old(self)@ }),
    {
        self.hosts.push(own(name));
        assert(self@.hosts =~= old(self)@.hosts.push(name@));
    }

    /// Bind a memory handle.
    pub fn set_memory(&mut self, name: &str, value: Value)
        ensures
            final(self).code() == old(self).code(),
            final(self)@ == (VmV {
                memory: put_of(old(self)@.memory, name@, value@),
                ..old(self)@
            }),
    {
        self.memory.insert(own(name), value);
    }

    /// Read back a memory handle.
    pub fn memory(&self, name: &str) -> (r: Option<Value>)
        ensures
            match r {
                Some(v) => get_of(self@.memory, name@) == Some(v@),
                None => get_of(self@.memory, name@) is None,
            },
    {
        match self.memory.get(name) {
            Some(v) => Some(v.dup()),
            None => None,
        }
    }

    /// The objects that values refer to.
    pub fn heap(&self) -> (r: &Heap)
        ensures
            r@ == self@.heap,
    {
        &self.heap
    }

    /// A new array.
    pub fn new_array(&mut self, items: Vec<Value>) -> (r: Value)
        ensures
            final(self).code() == old(self).code(),
            final(self)@ == (VmV {
                heap: old(self)@.heap.push(ObjV::Array(values_v(items@))),
                ..old(self)@
            }),
            r@ == ValueV::Array(old(self)@.heap.len() as usize),
    {
        self.heap.array(items)
    }

    /// A new table.
    pub fn new_table(&mut self, entries: NameMap<Value>) -> (r: Value)
        ensures
            final(self).code() == old(self).code(),
            final(self)@ == (VmV {
                heap: old(self)@.heap.push(ObjV::Table(entries@)),
                ..old(self)@
            }),
            r@ == ValueV::Table(old(self)@.heap.len() as usize),
    {
        self.heap.table(entries)
    }

    /// The request that waits for an answer.
    pub fn request(&self) -> (r: Option<&Request>)
        ensures
            match r {
                Some(q) => self@.wait == Some(q@),
                None => self@.wait is None,
            },
    {
        match &self.wait {
            Some(q) => Some(q),
            None => None,
        }
    }

    fn fail(&mut self, e: RunError) -> (r: Progress)
        ensures
            final(self).code() == old(self).code(),
            (final(self)@, r@) == failed(old(self)@, e@),
    {
        self.stop();
        Progress::Done(Err(e))
    }

    fn stop(&mut self)
        ensures
            final(self).code() == old(self).code(),
            final(self)@ == stopped(old(self)@),
    {
        self.frames = Vec::new();
        self.wait = None;
        assert(self@.frames =~= Seq::<FrameV>::empty());
    }

    fn start(&mut self, code: Code, func: &Function, args: &Vec<Value>) -> (r: Progress)
        ensures
            final(self).code() == old(self).code(),
            (final(self)@, r@) == started(old(self)@, code@, func@, values_v(args@)),
    {
        let frame = enter(code, func, args, self.heap.len());
        let ghost fv = frame@;
        let mut frames: Vec<Frame> = Vec::new();
        frames.push(frame);
        self.frames = frames;
        self.consts = NameMap::new();
        self.frozen = Vec::new();
        self.wait = None;
        assert(self@.frames =~= seq![fv]);
        Progress::Running
    }

    /// Start a call of an exported function, or of an exported constant, with exactly the
    /// arguments that it takes.
    pub fn call(&mut self, name: &str, args: Vec<Value>) -> (r: Progress)
        ensures
            final(self).code() == old(self).code(),
            (final(self)@, r@) == call_of(old(self).code(), old(self)@, name@, values_v(args@)),
    {
        let program = self.program;
        match program.exports.get(name) {
            None => self.fail(RunError::UnknownExport(own(name))),
            Some(ExportTarget::Function(f)) => match program.functions.get(f.as_str()) {
                Some(func) => {
                    if args.len() == func.params.len() {
                        self.start(Code::Function(f.clone()), func, &args)
                    } else {
                        let e = arity_error(name, func.params.len(), args.len());
                        self.fail(e)
                    }
                },
                None => self.fail(function_error(f.as_str())),
            },
            Some(ExportTarget::Const(c)) => {
                if args.len() > 0 {
                    let e = arity_error(name, 0, args.len());
                    return self.fail(e);
                }
                match program.constants.get(c.as_str()) {
                    Some(func) => {
                        assert(values_v(args@) =~= Seq::<ValueV>::empty());
                        self.start(Code::Const(c.clone()), func, &args)
                    },
                    None => self.fail(constant_error(c.as_str())),
                }
            },
        }
    }

    /// Start a call of a closure value that an earlier call returned. The captured cells are
    /// shared, so that writes to them persist across calls.
    pub fn call_value(&mut self, callee: Value, args: Vec<Value>) -> (r: Progress)
        ensures
            final(self).code() == old(self).code(),
            (final(self)@, r@) == call_value_of(
                old(self).code(),
                old(self)@,
                callee@,
                values_v(args@),
            ),
    {
        let program = self.program;
        let code: String = match self.heap.as_closure(&callee) {
            Some((code, _)) => code.clone(),
            None => {
                let e = kind_error("call_value on a ", &callee);
                return self.fail(e);
            },
        };
        match program.functions.get(code.as_str()) {
            Some(func) => {
                let want: usize = func.params.len();
                let got: usize = args.len();
                if want == 0 || got != want - 1 {
                    let visible: usize = if want > 0 {
                        want - 1
                    } else {
                        0
                    };
                    let e = arity_error(code.as_str(), visible, got);
                    return self.fail(e);
                }
                let mut argv: Vec<Value> = Vec::new();
                let mut rest = args;
                argv.push(callee);
                argv.append(&mut rest);
                assert(values_v(argv@) =~= seq![callee@] + values_v(args@));
                self.start(Code::Function(code), func, &argv)
            },
            None => self.fail(function_error(code.as_str())),
        }
    }

    /// Go on with the call: one instruction or one terminator.
    pub fn step(&mut self) -> (r: Progress)
        ensures
            final(self).code() == old(self).code(),
            (final(self)@, r@) == step_of(old(self).code(), old(self)@),
    {
        if self.wait.is_some() {
            return Progress::Ask;
        }
        let n: usize = self.frames.len();
        if n == 0 {
            return self.fail(RunError::internal("no call in progress"));
        }
        assert(self@.frames.last() == self.frames@[n - 1]@);
        let program = self.program;
        let f = &self.frames[n - 1];
        let func = match find_code(program, &f.code) {
            Some(func) => func,
            None => {
                return self.fail(RunError::internal("missing code"));
            },
        };
        if f.block as usize >= func.blocks.len() {
            return self.fail(RunError::internal("reached an undefined IR block"));
        }
        let block = &func.blocks[f.block as usize];
        assert(func@.blocks[f.block as int] == block@);
        if f.pc < block.instrs.len() {
            assert(block@.instrs[f.pc as int] == block.instrs@[f.pc as int]@);
            let op = &block.instrs[f.pc].op;
            let ghost st0 = self@;
            let out = self.eval_op(op);
            self.apply(out, Ghost(st0), Ghost(eval_op_of(program@, st0, st0.frames.last(), op@)))
        } else {
            let term = block.term;
            self.terminate(term)
        }
    }

    /// Go on with the answer to the open request.
    pub fn resume(&mut self, reply: Reply) -> (r: Progress)
        ensures
            final(self).code() == old(self).code(),
            (final(self)@, r@) == resume_of(old(self).code(), old(self)@, reply@),
    {
        match self.wait.take() {
            None => self.fail(RunError::internal("no request is open")),
            Some(q) => match answer(&q, reply) {
                Err(e) => self.fail(e),
                Ok(v) => {
                    if self.frames.len() == 0 {
                        return self.fail(RunError::internal("no call in progress"));
                    }
                    self.deliver(v);
                    Progress::Running
                },
            },
        }
    }

    fn deliver(&mut self, v: Value)
        requires
            old(self)@.frames.len() > 0,
        ensures
            final(self).code() == old(self).code(),
            final(self)@ == delivered(old(self).code(), old(self)@, v@),
    {
        proof {
            reveal(delivered);
        }
        let ghost p = self.code();
        let ghost vv = v@;
        let n: usize = self.frames.len();
        let ghost fv = self.frames@[n - 1]@;
        let program = self.program;
        let mut f = self.frames.pop().unwrap();
        assert(f@ == fv);
        if let Some(func) = find_code(program, &f.code) {
            if (f.block as usize) < func.blocks.len() {
                let block = &func.blocks[f.block as usize];
                assert(func@.blocks[f.block as int] == block@);
                if f.pc < block.instrs.len() {
                    assert(block@.instrs[f.pc as int] == block.instrs@[f.pc as int]@);
                    if let Some(d) = block.instrs[f.pc].dest {
                        f.set_value(d, v);
                    }
                    f.pc += 1;
                }
            }
        }
        assert(f@ == advanced(p, fv, vv));
        self.frames.push(f);
        assert(self@.frames =~= old(self)@.frames.update(n - 1, advanced(p, fv, vv)));
    }

    fn jump(&mut self, b: BlockId)
        requires
            old(self)@.frames.len() > 0,
        ensures
            final(self).code() == old(self).code(),
            final(self)@ == jumped(old(self)@, b),
    {
        proof {
            reveal(jumped);
        }
        let n: usize = self.frames.len();
        let ghost fv = self.frames@[n - 1]@;
        let mut f = self.frames.pop().unwrap();
        f.block = b;
        f.pc = 0;
        self.frames.push(f);
        assert(self@.frames =~= old(self)@.frames.update(
            n - 1,
            FrameV { block: b, pc: 0, ..fv },
        ));
    }

    fn leave(&mut self, v: Value) -> (r: Progress)
        requires
            old(self)@.frames.len() > 0,
        ensures
            final(self).code() == old(self).code(),
            (final(self)@, r@) == returned(old(self).code(), old(self)@, v@),
    {
        proof {
            reveal(returned);
        }
        let n: usize = self.frames.len();
        assert(self@.frames.last() == self.frames@[n - 1]@);
        let f = self.frames.pop().unwrap();
        assert(self@.frames =~= old(self)@.frames.drop_last());
        if let Code::Const(name) = f.code {
            self.consts.insert(name, v.dup());
            let end: usize = self.heap.len();
            self.frozen.push((f.mark, end));
        }
        if self.frames.len() == 0 {
            self.stop();
            Progress::Done(Ok(v))
        } else {
            self.deliver(v);
            Progress::Running
        }
    }

    fn terminate(&mut self, t: Terminator) -> (r: Progress)
        requires
            old(self)@.frames.len() > 0,
        ensures
            final(self).code() == old(self).code(),
            (final(self)@, r@) == terminated(old(self).code(), old(self)@, t),
    {
        proof {
            reveal(terminated);
        }
        let n: usize = self.frames.len();
        assert(self@.frames.last() == self.frames@[n - 1]@);
        match t {
            Terminator::Return(Some(v)) => match self.frames[n - 1].val(v) {
                Ok(x) => self.leave(x),
                Err(e) => self.fail(e),
            },
            Terminator::Return(None) => self.leave(Value::Nil),
            Terminator::Jump(b) => {
                self.jump(b);
                Progress::Running
            },
            Terminator::Branch { cond, then_blk, else_blk } => match self.frames[n - 1].val(cond) {
                Ok(c) => {
                    self.jump(
                        if c.is_truthy() {
                            then_blk
                        } else {
                            else_blk
                        },
                    );
                    Progress::Running
                },
                Err(e) => self.fail(e),
            },
            Terminator::Unreachable => self.fail(
                RunError::internal("reached an unreachable IR block"),
            ),
        }
    }

    fn apply(
        &mut self,
        out: Result<Effect, RunError>,
        st0: Ghost<VmV>,
        ev: Ghost<Evaluated>,
    ) -> (r: Progress)
        requires
            old(self)@.frames.len() > 0,
            effect_v(out) == ev@.effect,
            old(self)@ == (VmV {
                heap: ev@.heap,
                frames: st0@.frames.update(
                    st0@.frames.len() - 1,
                    FrameV { locals: ev@.locals, ..st0@.frames.last() },
                ),
                ..st0@
            }),
        ensures
            final(self).code() == old(self).code(),
            (final(self)@, r@) == effected(old(self).code(), st0@, ev@),
    {
        proof {
            reveal(effected);
        }
        match out {
            Err(e) => self.fail(e),
            Ok(Effect::Value(v)) => {
                self.deliver(v);
                Progress::Running
            },
            Ok(Effect::Ask(q)) => {
                self.wait = Some(q);
                Progress::Ask
            },
            Ok(Effect::Enter(code, args)) => {
                let program = self.program;
                match find_code(program, &code) {
                    Some(func) => {
                        let frame = enter(code, func, &args, self.heap.len());
                        let ghost fv = frame@;
                        let ghost fs = self@.frames;
                        self.frames.push(frame);
                        assert(self@.frames =~= fs.push(fv));
                        Progress::Running
                    },
                    None => self.fail(RunError::internal("missing code")),
                }
            },
        }
    }

    /// Evaluate an operation in the innermost frame.
    fn eval_op(&mut self, op: &Op) -> (r: Result<Effect, RunError>)
        requires
            old(self)@.frames.len() > 0,
        ensures
            final(self).code() == old(self).code(),
            ({
                let st = old(self)@;
                let ev = eval_op_of(old(self).code(), st, st.frames.last(), op@);
                &&& effect_v(r) == ev.effect
                &&& final(self)@ == (VmV {
                    heap: ev.heap,
                    frames: st.frames.update(
                        st.frames.len() - 1,
                        FrameV { locals: ev.locals, ..st.frames.last() },
                    ),
                    ..st
                })
            }),
    {
        let ghost p = self.code();
        let ghost st = self@;
        let n: usize = self.frames.len();
        let ghost fv = self.frames@[n - 1]@;
        proof {
            reveal(eval_op_of);
            assert(st.frames.last() == fv);
            assert(st.frames =~= st.frames.update(st.frames.len() - 1, FrameV { ..fv }));
        }
        let r = match op {
            Op::ConstNil => Ok(Effect::Value(Value::Nil)),
            Op::ConstBool(b) => Ok(Effect::Value(Value::Bool(*b))),
            Op::ConstNumber(x) => Ok(Effect::Ask(Request::Numeral(x.dup()))),
            Op::ConstString(s) => Ok(Effect::Value(Value::Str(s.clone()))),
            Op::LocalGet(id) => match self.frames[n - 1].local(*id) {
                Some(v) => Ok(Effect::Value(v)),
                None => {
                    let d = dec_string(*id as u64);
                    Err(RunError::Internal(cat2("read of unset local ", d.as_str())))
                },
            },
            Op::LocalSet(id, v) => {
                let x = self.frames[n - 1].val(*v);
                match x {
                    Ok(x) => {
                        let mut f = self.frames.pop().unwrap();
                        f.set_local(*id, x);
                        let ghost f2 = f@;
                        self.frames.push(f);
                        assert(self@.frames =~= st.frames.update(st.frames.len() - 1, f2));
                        Ok(Effect::Value(Value::Nil))
                    },
                    Err(e) => Err(e),
                }
            },
            Op::Unary(uop, v) => match self.frames[n - 1].val(*v) {
                Ok(x) => eval_unary(&self.heap, *uop, x),
                Err(e) => Err(e),
            },
            Op::Binary(bop, l, r) => match self.frames[n - 1].val(*l) {
                Ok(a) => match self.frames[n - 1].val(*r) {
                    Ok(b) => eval_binary(*bop, a, b),
                    Err(e) => Err(e),
                },
                Err(e) => Err(e),
            },
            Op::Truthy(v) => match self.frames[n - 1].val(*v) {
                Ok(x) => Ok(Effect::Value(Value::Bool(x.is_truthy()))),
                Err(e) => Err(e),
            },
            Op::MakeArray(_) | Op::MakeTable(_) | Op::MakeCell(_) | Op::MakeClosure(_, _)
            | Op::MapKeys(_) => self.eval_make(op),
            Op::ArrayGet(_, _) | Op::MapGet(_, _) | Op::FieldGet(_, _) | Op::CellGet(_)
            | Op::ClosureEnvGet(_, _) => self.eval_read(op),
            Op::ArraySet(_, _, _) | Op::MapSet(_, _, _) | Op::FieldSet(_, _, _)
            | Op::CellSet(_, _) => self.eval_write(op),
            Op::ConstRef(_) | Op::MemoryRef(_) | Op::NamespaceField(_, _) => self.eval_name(op),
            _ => self.eval_call(op),
        };
        r
    }

    fn eval_make(&mut self, op: &Op) -> (r: Result<Effect, RunError>)
        requires
            old(self)@.frames.len() > 0,
        ensures
            final(self).code() == old(self).code(),
            ({
                let st = old(self)@;
                let ev = make_op(st, st.frames.last(), op@);
                &&& effect_v(r) == ev.effect
                &&& ev.locals == st.frames.last().locals
                &&& final(self)@ == (VmV { heap: ev.heap, ..st })
            }),
    {
        proof {
            reveal(make_op);
        }
        let n: usize = self.frames.len();
        assert(self@.frames.last() == self.frames@[n - 1]@);
        let none: Vec<Value> = Vec::new();
        assert(values_v(none@) =~= Seq::<ValueV>::empty());
        match op {
            Op::MakeArray(ids) => {
                let vs = self.frames[n - 1].vals(ids, none)?;
                Ok(Effect::Value(self.heap.array(vs)))
            },
            Op::MakeTable(pairs) => {
                let t = self.frames[n - 1].entries(pairs)?;
                Ok(Effect::Value(self.heap.table(t)))
            },
            Op::MakeCell(v) => {
                let x = self.frames[n - 1].val(*v)?;
                Ok(Effect::Value(self.heap.cell(x)))
            },
            Op::MakeClosure(code, cells) => {
                let env = self.frames[n - 1].vals(cells, none)?;
                Ok(Effect::Value(self.heap.closure(code.clone(), env, 0)))
            },
            Op::MapKeys(base) => {
                let b = self.frames[n - 1].val(*base)?;
                let ks = self.heap.keys(&b)?;
                Ok(Effect::Value(self.heap.array(ks)))
            },
            _ => Err(RunError::internal("not a constructor")),
        }
    }

    fn eval_read(&self, op: &Op) -> (r: Result<Effect, RunError>)
        requires
            self@.frames.len() > 0,
        ensures
            effect_v(r) == read_op(self@, self@.frames.last(), op@),
    {
        proof {
            reveal(read_op);
        }
        let n: usize = self.frames.len();
        let f = &self.frames[n - 1];
        assert(self@.frames.last() == f@);
        match op {
            Op::ArrayGet(base, idx) => {
                let b = f.val(*base)?;
                let i = f.val(*idx)?;
                Ok(Effect::Value(self.heap.array_get(&b, &i)?))
            },
            Op::MapGet(base, key) => {
                let b = f.val(*base)?;
                let k = f.val(*key)?;
                Ok(Effect::Value(self.heap.table_get(&b, &k)?))
            },
            Op::FieldGet(base, name) => {
                let b = f.val(*base)?;
                Ok(Effect::Value(self.heap.field(&b, name.as_str())))
            },
            Op::CellGet(cell) => {
                let c = f.val(*cell)?;
                match self.heap.as_cell(&c) {
                    Some(v) => Ok(Effect::Value(v.dup())),
                    None => Err(kind_error("CellGet on a ", &c)),
                }
            },
            Op::ClosureEnvGet(clo, i) => {
                let c = f.val(*clo)?;
                match self.heap.as_closure(&c) {
                    Some((_, env)) => if (*i as usize) < env.len() {
                        Ok(Effect::Value(env[*i as usize].dup()))
                    } else {
                        let d = dec_string(*i as u64);
                        Err(RunError::Internal(cat3("upvalue ", d.as_str(), " out of range")))
                    },
                    None => Err(kind_error("ClosureEnvGet on a ", &c)),
                }
            },
            _ => Err(RunError::internal("not a read")),
        }
    }

    fn eval_write(&mut self, op: &Op) -> (r: Result<Effect, RunError>)
        requires
            old(self)@.frames.len() > 0,
        ensures
            final(self).code() == old(self).code(),
            ({
                let st = old(self)@;
                let ev = write_op(st, st.frames.last(), op@);
                &&& effect_v(r) == ev.effect
                &&& ev.locals == st.frames.last().locals
                &&& final(self)@ == (VmV { heap: ev.heap, ..st })
            }),
    {
        proof {
            reveal(write_op);
        }
        let n: usize = self.frames.len();
        assert(self@.frames.last() == self.frames@[n - 1]@);
        match op {
            Op::ArraySet(base, idx, v) => {
                let b = self.frames[n - 1].val(*base)?;
                let i = self.frames[n - 1].val(*idx)?;
                let x = self.frames[n - 1].val(*v)?;
                if frozen_value(&self.frozen, &b) {
                    return Err(frozen_error());
                }
                self.heap.array_set(&b, &i, x)?;
                Ok(Effect::Value(Value::Nil))
            },
            Op::MapSet(base, key, v) => {
                let b = self.frames[n - 1].val(*base)?;
                let k = self.frames[n - 1].val(*key)?;
                let x = self.frames[n - 1].val(*v)?;
                if frozen_value(&self.frozen, &b) {
                    return Err(frozen_error());
                }
                self.heap.table_set(&b, &k, x)?;
                Ok(Effect::Value(Value::Nil))
            },
            Op::FieldSet(base, name, v) => {
                let b = self.frames[n - 1].val(*base)?;
                let x = self.frames[n - 1].val(*v)?;
                let k = Value::Str(name.clone());
                if frozen_value(&self.frozen, &b) {
                    return Err(frozen_error());
                }
                self.heap.table_set(&b, &k, x)?;
                Ok(Effect::Value(Value::Nil))
            },
            Op::CellSet(cell, v) => {
                let x = self.frames[n - 1].val(*v)?;
                let c = self.frames[n - 1].val(*cell)?;
                if self.heap.set_cell(&c, x) {
                    Ok(Effect::Value(Value::Nil))
                } else {
                    Err(kind_error("CellSet on a ", &c))
                }
            },
            _ => Err(RunError::internal("not a write")),
        }
    }

    fn eval_name(&self, op: &Op) -> (r: Result<Effect, RunError>)
        ensures
            effect_v(r) == name_op(self.code(), self@, op@),
    {
        proof {
            reveal(name_op);
        }
        match op {
            Op::ConstRef(name) => {
                if let Some(v) = self.consts.get(name.as_str()) {
                    return Ok(Effect::Value(v.dup()));
                }
                if self.program.constants.contains_key(name.as_str()) {
                    let none: Vec<Value> = Vec::new();
                    assert(values_v(none@) =~= Seq::<ValueV>::empty());
                    Ok(Effect::Enter(Code::Const(name.clone()), none))
                } else {
                    Err(constant_error(name.as_str()))
                }
            },
            Op::MemoryRef(name) => match self.memory.get(name.as_str()) {
                Some(v) => Ok(Effect::Value(v.dup())),
                None => Err(RunError::Runtime(cat3("memory `", name.as_str(), "` not set"))),
            },
            Op::NamespaceField(ns, field) => {
                let v = field_value(ns.as_str(), field.as_str())?;
                Ok(Effect::Value(v))
            },
            _ => Err(RunError::internal("not a name")),
        }
    }

    fn eval_call(&self, op: &Op) -> (r: Result<Effect, RunError>)
        requires
            self@.frames.len() > 0,
        ensures
            effect_v(r) == call_op(self.code(), self@, self@.frames.last(), op@),
    {
        proof {
            reveal(call_op);
        }
        let n: usize = self.frames.len();
        let f = &self.frames[n - 1];
        assert(self@.frames.last() == f@);
        let none: Vec<Value> = Vec::new();
        assert(values_v(none@) =~= Seq::<ValueV>::empty());
        match op {
            Op::CallScript(name, args) => {
                let vs = f.vals(args, none)?;
                if self.program.functions.contains_key(name.as_str()) {
                    Ok(Effect::Enter(Code::Function(name.clone()), vs))
                } else {
                    Err(function_error(name.as_str()))
                }
            },
            Op::CallHost(name, args) => {
                let vs = f.vals(args, none)?;
                if has_name(&self.hosts, name.as_str()) {
                    Ok(Effect::Ask(Request::Host(name.clone(), vs)))
                } else {
                    Err(RunError::Runtime(cat3("host fn `", name.as_str(), "` not set")))
                }
            },
            Op::CallBuiltinValue(ns, args) => {
                let vs = f.vals(args, none)?;
                let o = value_call(&self.heap, ns.as_str(), &vs)?;
                Ok(from_outcome(o))
            },
            Op::CallBuiltinMember(ns, name, args) => {
                let vs = f.vals(args, none)?;
                let o = member_call(&self.heap, ns.as_str(), name.as_str(), &vs)?;
                Ok(from_outcome(o))
            },
            Op::CallValue(callee, args) => {
                let c = f.val(*callee)?;
                match self.heap.as_closure(&c) {
                    Some((code, _)) => {
                        let code = code.clone();
                        if !self.program.functions.contains_key(code.as_str()) {
                            return Err(function_error(code.as_str()));
                        }
                        // The closure itself is the hidden first argument.
                        let mut first: Vec<Value> = Vec::new();
                        let ghost cv = c@;
                        first.push(c);
                        assert(values_v(first@) =~= seq![cv]);
                        let vs = f.vals(args, first)?;
                        Ok(Effect::Enter(Code::Function(code), vs))
                    },
                    None => Err(kind_error("CallValue on a ", &c)),
                }
            },
            _ => Err(RunError::internal("not a call")),
        }
    }
}

fn find_code<'a>(program: &'a Program, code: &Code) -> (r: Option<&'a Function>)
    ensures
        match r {
            Some(f) => code_of(program@, code@) == Some(f@),
            None => code_of(program@, code@) is None,
        },
{
    match code {
        Code::Function(n) => program.functions.get(n.as_str()),
        Code::Const(n) => program.constants.get(n.as_str()),
    }
}

/// The first frame of a function.
fn enter(code: Code, func: &Function, args: &Vec<Value>, mark: usize) -> (r: Frame)
    ensures
        r@ == entered(code@, func@, values_v(args@), mark),
{
    broadcast use vstd::std_specs::btree::group_btree_axioms;

    let ghost av = values_v(args@);
    let mut locals: BTreeMap<LocalId, Value> = BTreeMap::new();
    assert(table_v(locals@) =~= bound(func@.params, av, 0));
    let mut i: usize = 0;
    while i < func.params.len()
        invariant
            i <= func.params@.len(),
            func@.params == func.params@,
            av == values_v(args@),
            table_v(locals@) == bound(func@.params, av, i as int),
        decreases func.params@.len() - i,
    {
        let v = if i < args.len() {
            args[i].dup()
        } else {
            Value::Nil
        };
        let ghost vv = v@;
        let ghost l0 = table_v(locals@);
        locals.insert(func.params[i], v);
        assert(table_v(locals@) =~= l0.insert(func.params@[i as int], vv));
        i += 1;
    }
    let r = Frame { code, block: func.entry, pc: 0, locals, values: BTreeMap::new(), mark };
    assert(r@.values =~= Map::<ValueId, ValueV>::empty());
    r
}

} // verus!
