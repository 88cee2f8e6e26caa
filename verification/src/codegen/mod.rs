//! Compiled code.
//!
//! [`plan_module`] decides what code a lowered module compiles to: the machine code and the
//! signature of every function and constant, and the pools that they share. A code generator
//! turns the plan into native code. [`JitModule`] is the state that calls of it run on: which
//! host functions and memory are bound, how a call's arguments are handed over, and how its
//! result is read. The runtime context that compiled code calls back into is in [`rt`]; the
//! translation of a function in [`translate`].
pub mod rt;
pub mod translate;
pub mod typing;

use vstd::prelude::*;
use crate::codegen::rt::{
    empty_pools, foreign_closure, foreign_closure_of, optional_v, unfold_encoded_all, CtxV, Handle,
    Pools, PoolsV, RtCtx,
};
use crate::codegen::translate::{
    code_ok, machine_code_of, refused, translate, ClifTy, JitError, JitErrorV, MachineCode,
    MachineCodeV, Shim, Signature, SignatureV,
};
use crate::codegen::typing::{code_typed, law_code_is_typed};
use crate::ir::{
    BlockId, ExportTarget, ExportTargetV, Function, FunctionV, LocalId, Program, ProgramV,
};
use crate::names::{ascending, get_of, keys_of, put_of, NameMap};
use crate::resolve::strs_v;
use crate::runtime::repr::{repr_of, Repr};
use crate::text::{cat2, cat3, own};
use crate::value::{
    arity_error, arity_error_of, closure_at, is_foreign, kind_name_of, values_v, Heap, ObjV,
    RunError, RunErrorV, Value, ValueV,
};

verus! {

/// The text of an error.
pub open spec fn jit_error_text(e: JitErrorV) -> Seq<char> {
    match e {
        JitErrorV::Cranelift(s) => "cranelift error: "@ + s,
        JitErrorV::Unsupported(s) => "unsupported by the JIT backend: "@ + s,
    }
}

impl JitError {
    /// The text of this error.
    pub fn to_string(&self) -> (r: String)
        ensures
            r@ == jit_error_text(self@),
    {
        match self {
            JitError::Cranelift(s) => cat2("cranelift error: ", s.as_str()),
            JitError::Unsupported(s) => cat2("unsupported by the JIT backend: ", s.as_str()),
        }
    }
}

/// The symbol of a runtime function.
pub open spec fn shim_name_of(s: Shim) -> Seq<char> {
    match s {
        Shim::BoxNumber => "rt_box_number"@,
        Shim::BoxBool => "rt_box_bool"@,
        Shim::UnboxNumber => "rt_unbox_number"@,
        Shim::UnboxBool => "rt_unbox_bool"@,
        Shim::ConstString => "rt_const_string"@,
        Shim::MemoryRef => "rt_memory_ref"@,
        Shim::NamespaceField => "rt_namespace_field"@,
        Shim::ArrayNew => "rt_array_new"@,
        Shim::ArrayPush => "rt_array_push"@,
        Shim::TableNew => "rt_table_new"@,
        Shim::TableSet => "rt_table_set"@,
        Shim::ArrayGet => "rt_array_get"@,
        Shim::ArraySet => "rt_array_set"@,
        Shim::MapGet => "rt_map_get"@,
        Shim::MapSet => "rt_map_set"@,
        Shim::FieldGet => "rt_field_get"@,
        Shim::FieldSet => "rt_field_set"@,
        Shim::MapKeys => "rt_map_keys"@,
        Shim::Len => "rt_len"@,
        Shim::Concat => "rt_concat"@,
        Shim::StrOrder => "rt_str_cmp"@,
        Shim::ValueEq => "rt_value_eq"@,
        Shim::Truthy => "rt_truthy"@,
        Shim::Pow => "rt_pow"@,
        Shim::Errored => "rt_errored"@,
        Shim::CheckOrder => "rt_check_compare"@,
        Shim::CallHost => "rt_call_host"@,
        Shim::CallBuiltinValue => "rt_call_builtin_value"@,
        Shim::CallBuiltinMember => "rt_call_builtin_member"@,
        Shim::CellNew => "rt_cell_new"@,
        Shim::CellGet => "rt_cell_get"@,
        Shim::CellSet => "rt_cell_set"@,
        Shim::ClosureNew => "rt_closure_new"@,
        Shim::ClosureEnvGet => "rt_closure_env_get"@,
        Shim::ClosureCodeAddr => "rt_closure_code_addr"@,
        Shim::ConstRef => "rt_const_ref"@,
    }
}

/// The signature of a runtime function.
pub open spec fn shim_signature_of(s: Shim) -> SignatureV {
    match s {
        Shim::BoxNumber => SignatureV { params: seq![ClifTy::I64, ClifTy::F64], ret: Some(ClifTy::I64) },
        Shim::BoxBool => SignatureV { params: seq![ClifTy::I64, ClifTy::I8], ret: Some(ClifTy::I64) },
        Shim::UnboxNumber | Shim::Len => SignatureV { params: seq![ClifTy::I64, ClifTy::I64], ret: Some(ClifTy::F64) },
        Shim::UnboxBool | Shim::Truthy => SignatureV { params: seq![ClifTy::I64, ClifTy::I64], ret: Some(ClifTy::I8) },
        Shim::ConstString | Shim::ConstRef | Shim::MemoryRef | Shim::NamespaceField | Shim::ArrayNew => SignatureV { params: seq![ClifTy::I64, ClifTy::I32], ret: Some(ClifTy::I64) },
        Shim::ArrayPush | Shim::CellSet => SignatureV { params: seq![ClifTy::I64, ClifTy::I64, ClifTy::I64], ret: None },
        Shim::TableNew => SignatureV { params: seq![ClifTy::I64], ret: Some(ClifTy::I64) },
        Shim::TableSet | Shim::MapSet => SignatureV { params: seq![ClifTy::I64, ClifTy::I64, ClifTy::I64, ClifTy::I64], ret: None },
        Shim::ArrayGet => SignatureV { params: seq![ClifTy::I64, ClifTy::I64, ClifTy::F64], ret: Some(ClifTy::I64) },
        Shim::ArraySet => SignatureV { params: seq![ClifTy::I64, ClifTy::I64, ClifTy::F64, ClifTy::I64], ret: Some(ClifTy::I64) },
        Shim::MapGet | Shim::Concat => SignatureV { params: seq![ClifTy::I64, ClifTy::I64, ClifTy::I64], ret: Some(ClifTy::I64) },
        Shim::FieldGet | Shim::ClosureEnvGet => SignatureV { params: seq![ClifTy::I64, ClifTy::I64, ClifTy::I32], ret: Some(ClifTy::I64) },
        Shim::FieldSet => SignatureV { params: seq![ClifTy::I64, ClifTy::I64, ClifTy::I32, ClifTy::I64], ret: None },
        Shim::MapKeys | Shim::CellNew | Shim::CellGet | Shim::ClosureCodeAddr => SignatureV { params: seq![ClifTy::I64, ClifTy::I64], ret: Some(ClifTy::I64) },
        Shim::StrOrder => SignatureV { params: seq![ClifTy::I64, ClifTy::I64, ClifTy::I64], ret: Some(ClifTy::I32) },
        Shim::ValueEq => SignatureV { params: seq![ClifTy::I64, ClifTy::I64, ClifTy::I64], ret: Some(ClifTy::I8) },
        Shim::Pow => SignatureV { params: seq![ClifTy::F64, ClifTy::F64], ret: Some(ClifTy::F64) },
        Shim::Errored => SignatureV { params: seq![ClifTy::I64], ret: Some(ClifTy::I8) },
        Shim::CheckOrder => SignatureV { params: seq![ClifTy::I64, ClifTy::F64, ClifTy::F64], ret: None },
        Shim::CallHost | Shim::CallBuiltinValue | Shim::CallBuiltinMember | Shim::ClosureNew => SignatureV { params: seq![ClifTy::I64, ClifTy::I32, ClifTy::I64, ClifTy::I32], ret: Some(ClifTy::I64) },
    }
}

/// All runtime functions.
pub open spec fn all_shims() -> Seq<Shim> {
    seq![Shim::BoxNumber, Shim::BoxBool, Shim::UnboxNumber, Shim::UnboxBool, Shim::ConstString, Shim::MemoryRef, Shim::NamespaceField, Shim::ArrayNew, Shim::ArrayPush, Shim::TableNew, Shim::TableSet, Shim::ArrayGet, Shim::ArraySet, Shim::MapGet, Shim::MapSet, Shim::FieldGet, Shim::FieldSet, Shim::MapKeys, Shim::Len, Shim::Concat, Shim::StrOrder, Shim::ValueEq, Shim::Truthy, Shim::Pow, Shim::Errored, Shim::CheckOrder, Shim::CallHost, Shim::CallBuiltinValue, Shim::CallBuiltinMember, Shim::CellNew, Shim::CellGet, Shim::CellSet, Shim::ClosureNew, Shim::ClosureEnvGet, Shim::ClosureCodeAddr, Shim::ConstRef]
}

fn tys1(a: ClifTy) -> (r: Vec<ClifTy>)
    ensures
        r@ == seq![a],
{
    let mut v: Vec<ClifTy> = Vec::new();
    v.push(a);
    assert(v@ =~= seq![a]);
    v
}

fn tys2(a: ClifTy, b: ClifTy) -> (r: Vec<ClifTy>)
    ensures
        r@ == seq![a, b],
{
    let mut v: Vec<ClifTy> = Vec::new();
    v.push(a);
    v.push(b);
    assert(v@ =~= seq![a, b]);
    v
}

fn tys3(a: ClifTy, b: ClifTy, c: ClifTy) -> (r: Vec<ClifTy>)
    ensures
        r@ == seq![a, b, c],
{
    let mut v: Vec<ClifTy> = Vec::new();
    v.push(a);
    v.push(b);
    v.push(c);
    assert(v@ =~= seq![a, b, c]);
    v
}

fn tys4(a: ClifTy, b: ClifTy, c: ClifTy, d: ClifTy) -> (r: Vec<ClifTy>)
    ensures
        r@ == seq![a, b, c, d],
{
    let mut v: Vec<ClifTy> = Vec::new();
    v.push(a);
    v.push(b);
    v.push(c);
    v.push(d);
    assert(v@ =~= seq![a, b, c, d]);
    v
}

fn signature(params: Vec<ClifTy>, ret: Option<ClifTy>) -> (r: Signature)
    ensures
        r@ == (SignatureV { params: params@, ret }),
{
    Signature { params, ret }
}

impl Shim {
    /// The symbol of this runtime function.
    pub fn name(self) -> (r: &'static str)
        ensures
            r@ == shim_name_of(self),
    {
        match self {
            Shim::BoxNumber => "rt_box_number",
            Shim::BoxBool => "rt_box_bool",
            Shim::UnboxNumber => "rt_unbox_number",
            Shim::UnboxBool => "rt_unbox_bool",
            Shim::ConstString => "rt_const_string",
            Shim::MemoryRef => "rt_memory_ref",
            Shim::NamespaceField => "rt_namespace_field",
            Shim::ArrayNew => "rt_array_new",
            Shim::ArrayPush => "rt_array_push",
            Shim::TableNew => "rt_table_new",
            Shim::TableSet => "rt_table_set",
            Shim::ArrayGet => "rt_array_get",
            Shim::ArraySet => "rt_array_set",
            Shim::MapGet => "rt_map_get",
            Shim::MapSet => "rt_map_set",
            Shim::FieldGet => "rt_field_get",
            Shim::FieldSet => "rt_field_set",
            Shim::MapKeys => "rt_map_keys",
            Shim::Len => "rt_len",
            Shim::Concat => "rt_concat",
            Shim::StrOrder => "rt_str_cmp",
            Shim::ValueEq => "rt_value_eq",
            Shim::Truthy => "rt_truthy",
            Shim::Pow => "rt_pow",
            Shim::Errored => "rt_errored",
            Shim::CheckOrder => "rt_check_compare",
            Shim::CallHost => "rt_call_host",
            Shim::CallBuiltinValue => "rt_call_builtin_value",
            Shim::CallBuiltinMember => "rt_call_builtin_member",
            Shim::CellNew => "rt_cell_new",
            Shim::CellGet => "rt_cell_get",
            Shim::CellSet => "rt_cell_set",
            Shim::ClosureNew => "rt_closure_new",
            Shim::ClosureEnvGet => "rt_closure_env_get",
            Shim::ClosureCodeAddr => "rt_closure_code_addr",
            Shim::ConstRef => "rt_const_ref",
        }
    }

    /// The signature of this runtime function.
    pub fn signature(self) -> (r: Signature)
        ensures
            r@ == shim_signature_of(self),
            r@.params.len() == translate::shim_arity(self) + (if self == Shim::Pow {
                0int
            } else {
                1int
            }),
    {
        match self {
            Shim::BoxNumber => signature(tys2(ClifTy::I64, ClifTy::F64), Some(ClifTy::I64)),
            Shim::BoxBool => signature(tys2(ClifTy::I64, ClifTy::I8), Some(ClifTy::I64)),
            Shim::UnboxNumber | Shim::Len => signature(tys2(ClifTy::I64, ClifTy::I64), Some(ClifTy::F64)),
            Shim::UnboxBool | Shim::Truthy => signature(tys2(ClifTy::I64, ClifTy::I64), Some(ClifTy::I8)),
            Shim::ConstString | Shim::ConstRef | Shim::MemoryRef | Shim::NamespaceField | Shim::ArrayNew => signature(tys2(ClifTy::I64, ClifTy::I32), Some(ClifTy::I64)),
            Shim::ArrayPush | Shim::CellSet => signature(tys3(ClifTy::I64, ClifTy::I64, ClifTy::I64), None),
            Shim::TableNew => signature(tys1(ClifTy::I64), Some(ClifTy::I64)),
            Shim::TableSet | Shim::MapSet => signature(tys4(ClifTy::I64, ClifTy::I64, ClifTy::I64, ClifTy::I64), None),
            Shim::ArrayGet => signature(tys3(ClifTy::I64, ClifTy::I64, ClifTy::F64), Some(ClifTy::I64)),
            Shim::ArraySet => signature(tys4(ClifTy::I64, ClifTy::I64, ClifTy::F64, ClifTy::I64), Some(ClifTy::I64)),
            Shim::MapGet | Shim::Concat => signature(tys3(ClifTy::I64, ClifTy::I64, ClifTy::I64), Some(ClifTy::I64)),
            Shim::FieldGet | Shim::ClosureEnvGet => signature(tys3(ClifTy::I64, ClifTy::I64, ClifTy::I32), Some(ClifTy::I64)),
            Shim::FieldSet => signature(tys4(ClifTy::I64, ClifTy::I64, ClifTy::I32, ClifTy::I64), None),
            Shim::MapKeys | Shim::CellNew | Shim::CellGet | Shim::ClosureCodeAddr => signature(tys2(ClifTy::I64, ClifTy::I64), Some(ClifTy::I64)),
            Shim::StrOrder => signature(tys3(ClifTy::I64, ClifTy::I64, ClifTy::I64), Some(ClifTy::I32)),
            Shim::ValueEq => signature(tys3(ClifTy::I64, ClifTy::I64, ClifTy::I64), Some(ClifTy::I8)),
            Shim::Pow => signature(tys2(ClifTy::F64, ClifTy::F64), Some(ClifTy::F64)),
            Shim::Errored => signature(tys1(ClifTy::I64), Some(ClifTy::I8)),
            Shim::CheckOrder => signature(tys3(ClifTy::I64, ClifTy::F64, ClifTy::F64), None),
            Shim::CallHost | Shim::CallBuiltinValue | Shim::CallBuiltinMember | Shim::ClosureNew => signature(tys4(ClifTy::I64, ClifTy::I32, ClifTy::I64, ClifTy::I32), Some(ClifTy::I64)),
        }
    }
}

/// All runtime functions.
pub fn shims() -> (r: Vec<Shim>)
    ensures
        r@ == all_shims(),
{
    let mut v: Vec<Shim> = Vec::new();
    v.push(Shim::BoxNumber);
    v.push(Shim::BoxBool);
    v.push(Shim::UnboxNumber);
    v.push(Shim::UnboxBool);
    v.push(Shim::ConstString);
    v.push(Shim::MemoryRef);
    v.push(Shim::NamespaceField);
    v.push(Shim::ArrayNew);
    v.push(Shim::ArrayPush);
    v.push(Shim::TableNew);
    v.push(Shim::TableSet);
    v.push(Shim::ArrayGet);
    v.push(Shim::ArraySet);
    v.push(Shim::MapGet);
    v.push(Shim::MapSet);
    v.push(Shim::FieldGet);
    v.push(Shim::FieldSet);
    v.push(Shim::MapKeys);
    v.push(Shim::Len);
    v.push(Shim::Concat);
    v.push(Shim::StrOrder);
    v.push(Shim::ValueEq);
    v.push(Shim::Truthy);
    v.push(Shim::Pow);
    v.push(Shim::Errored);
    v.push(Shim::CheckOrder);
    v.push(Shim::CallHost);
    v.push(Shim::CallBuiltinValue);
    v.push(Shim::CallBuiltinMember);
    v.push(Shim::CellNew);
    v.push(Shim::CellGet);
    v.push(Shim::CellSet);
    v.push(Shim::ClosureNew);
    v.push(Shim::ClosureEnvGet);
    v.push(Shim::ClosureCodeAddr);
    v.push(Shim::ConstRef);
    assert(v@ =~= all_shims());
    v
}

/// How a trampoline turns a word into an argument.
#[derive(Clone, Copy, Debug, PartialEq, Eq, Structural)]
pub enum Decode {
    /// The word is the bit pattern of a number.
    Bits,
    /// The word's low byte is a bool.
    Narrow,
    /// The word is a handle.
    Keep,
}

/// How a trampoline turns a result into a word.
#[derive(Clone, Copy, Debug, PartialEq, Eq, Structural)]
pub enum Encode {
    Bits,
    Widen,
    Keep,
    Zero,
}

/// How a parameter of a class is decoded; one of the unit class is not passed.
pub open spec fn decode_of(r: Repr) -> Option<Decode> {
    match r {
        Repr::Number => Some(Decode::Bits),
        Repr::Bool => Some(Decode::Narrow),
        Repr::Ptr => Some(Decode::Keep),
        Repr::Unit => None,
    }
}

/// How a parameter of a class is decoded.
pub fn decode_param(r: Repr) -> (d: Option<Decode>)
    ensures
        d == decode_of(r),
{
    match r {
        Repr::Number => Some(Decode::Bits),
        Repr::Bool => Some(Decode::Narrow),
        Repr::Ptr => Some(Decode::Keep),
        Repr::Unit => None,
    }
}

/// How a result of a class is encoded.
pub fn encode_ret(r: Repr) -> (e: Encode)
    ensures
        e == match r {
            Repr::Number => Encode::Bits,
            Repr::Bool => Encode::Widen,
            Repr::Ptr => Encode::Keep,
            Repr::Unit => Encode::Zero,
        },
{
    match r {
        Repr::Number => Encode::Bits,
        Repr::Bool => Encode::Widen,
        Repr::Ptr => Encode::Keep,
        Repr::Unit => Encode::Zero,
    }
}

/// What is passed from the first `n` words of a trampoline's buffer: the index of the word,
/// and how it is decoded.
pub open spec fn loads_of(params: Seq<Repr>, n: nat) -> Seq<(usize, Decode)>
    decreases n,
{
    if n == 0 {
        Seq::empty()
    } else {
        let front = loads_of(params, (n - 1) as nat);
        match decode_of(params[n - 1]) {
            Some(d) => front.push(((n - 1) as usize, d)),
            None => front,
        }
    }
}

/// What a trampoline passes to its function.
pub fn trampoline_loads(params: &Vec<Repr>) -> (r: Vec<(usize, Decode)>)
    ensures
        r@ == loads_of(params@, params@.len()),
{
    let mut out: Vec<(usize, Decode)> = Vec::new();
    let n: usize = params.len();
    let mut i: usize = 0;
    while i < n
        invariant
            i <= n,
            n == params@.len(),
            out@ == loads_of(params@, i as nat),
        decreases n - i,
    {
        match decode_param(params[i]) {
            Some(d) => {
                out.push((i, d));
            },
            None => {},
        }
        i += 1;
    }
    out
}

/// What a function compiles to.
#[derive(Debug)]
pub struct FnPlan {
    /// Symbol of the compiled body.
    pub symbol: String,
    /// Symbol of the trampoline through which the host calls it.
    pub trampoline: String,
    /// Classes of the parameters of the body, in order.
    pub params: Vec<Repr>,
    /// Classes of the parameters that a caller passes: all, but for the hidden environment
    /// of a closure.
    pub visible: Vec<Repr>,
    pub ret: Repr,
    /// The parameters that are variables, in order.
    pub bound: Vec<LocalId>,
    /// The block that the body starts with.
    pub entry: BlockId,
    pub is_closure: bool,
    pub code: MachineCode,
}

pub ghost struct FnPlanV {
    pub symbol: Seq<char>,
    pub trampoline: Seq<char>,
    pub params: Seq<Repr>,
    pub visible: Seq<Repr>,
    pub ret: Repr,
    pub bound: Seq<LocalId>,
    pub entry: BlockId,
    pub is_closure: bool,
    pub code: MachineCodeV,
}

impl View for FnPlan {
    type V = FnPlanV;

    open spec fn view(&self) -> FnPlanV {
        FnPlanV {
            symbol: self.symbol@,
            trampoline: self.trampoline@,
            params: self.params@,
            visible: self.visible@,
            ret: self.ret,
            bound: self.bound@,
            entry: self.entry,
            is_closure: self.is_closure,
            code: self.code@,
        }
    }
}

/// What a module compiles to.
#[derive(Debug)]
pub struct ModulePlan {
    pub functions: NameMap<FnPlan>,
    pub constants: NameMap<FnPlan>,
    pub exports: NameMap<ExportTarget>,
}

pub ghost struct ModulePlanV {
    pub functions: Seq<(Seq<char>, FnPlanV)>,
    pub constants: Seq<(Seq<char>, FnPlanV)>,
    pub exports: Seq<(Seq<char>, ExportTargetV)>,
}

impl View for ModulePlan {
    type V = ModulePlanV;

    open spec fn view(&self) -> ModulePlanV {
        ModulePlanV {
            functions: self.functions@,
            constants: self.constants@,
            exports: self.exports@,
        }
    }
}

/// Whether every parameter has a type.
pub open spec fn params_declared(f: FunctionV) -> bool {
    forall|i: int| 0 <= i < f.params.len() ==> f.locals.dom().contains(#[trigger] f.params[i])
}

/// The classes of the parameters.
pub open spec fn param_reprs_of(f: FunctionV) -> Seq<Repr> {
    Seq::new(f.params.len(), |i: int| repr_of(f.locals[f.params[i]]))
}

/// The first `n` parameters, without those that have no values.
pub open spec fn bound_of(f: FunctionV, n: nat) -> Seq<LocalId>
    decreases n,
{
    if n == 0 {
        Seq::empty()
    } else {
        let front = bound_of(f, (n - 1) as nat);
        if param_reprs_of(f)[n - 1] == Repr::Unit {
            front
        } else {
            front.push(f.params[n - 1])
        }
    }
}

/// The plan of a function or constant, and the pools after it.
pub open spec fn planned(p: ProgramV, name: Seq<char>, f: FunctionV, constant: bool, pools: PoolsV) -> Result<
    (FnPlanV, PoolsV),
    JitErrorV,
> {
    if !params_declared(f) || (f.is_closure && f.params.len() == 0) {
        Err(refused("undeclared parameter"@))
    } else {
        match machine_code_of(p, f, pools) {
            Err(e) => Err(e),
            Ok((code, out)) => Ok(
                (
                    FnPlanV {
                        symbol: (if constant {
                            "cn_"@
                        } else {
                            "fn_"@
                        }) + name,
                        trampoline: (if constant {
                            "ct_"@
                        } else if f.is_closure {
                            "et_"@
                        } else {
                            "tr_"@
                        }) + name,
                        params: param_reprs_of(f),
                        visible: if f.is_closure {
                            param_reprs_of(f).skip(1)
                        } else {
                            param_reprs_of(f)
                        },
                        ret: repr_of(f.ret),
                        bound: bound_of(f, f.params.len()),
                        entry: f.entry,
                        is_closure: f.is_closure,
                        code,
                    },
                    out,
                ),
            ),
        }
    }
}

/// The plans of the functions from `i` on, and the pools after them.
#[verifier::opaque]
pub open spec fn plans_of(
    p: ProgramV,
    fs: Seq<(Seq<char>, FunctionV)>,
    i: int,
    constant: bool,
    pools: PoolsV,
    acc: Seq<(Seq<char>, FnPlanV)>,
) -> Result<(Seq<(Seq<char>, FnPlanV)>, PoolsV), JitErrorV>
    decreases fs.len() - i,
{
    if 0 <= i < fs.len() {
        match planned(p, fs[i].0, fs[i].1, constant, pools) {
            Err(e) => Err(e),
            Ok((plan, out)) => plans_of(p, fs, i + 1, constant, out, acc.push((fs[i].0, plan))),
        }
    } else {
        Ok((acc, pools))
    }
}

/// The plan of a module and the pools: functions come before constants.
pub open spec fn module_plan_of(p: ProgramV) -> Result<(ModulePlanV, PoolsV), JitErrorV> {
    match plans_of(p, p.functions, 0, false, empty_pools(), Seq::empty()) {
        Err(e) => Err(e),
        Ok((functions, pools)) => match plans_of(p, p.constants, 0, true, pools, Seq::empty()) {
            Err(e) => Err(e),
            Ok((constants, out)) => Ok(
                (ModulePlanV { functions, constants, exports: p.exports }, out),
            ),
        },
    }
}

pub proof fn unfold_plans_of(
    p: ProgramV,
    fs: Seq<(Seq<char>, FunctionV)>,
    i: int,
    constant: bool,
    pools: PoolsV,
    acc: Seq<(Seq<char>, FnPlanV)>,
)
    ensures
        plans_of(p, fs, i, constant, pools, acc) == ({
            if 0 <= i < fs.len() {
                match planned(p, fs[i].0, fs[i].1, constant, pools) {
                    Err(e) => Err(e),
                    Ok((plan, out)) => plans_of(p, fs, i + 1, constant, out, acc.push((fs[i].0, plan))),
                }
            } else {
                Ok((acc, pools))
            }
        }),
{
    reveal(plans_of);
}

/// Whether the code of every plan is closed.
pub open spec fn plans_ok(plans: Seq<(Seq<char>, FnPlanV)>) -> bool {
    forall|i: int| 0 <= i < plans.len() ==> code_ok((#[trigger] plans[i]).1.code)
}

fn param_reprs(f: &Function) -> (r: Result<Vec<Repr>, JitError>)
    ensures
        match r {
            Ok(v) => params_declared(f@) && v@ == param_reprs_of(f@),
            Err(e) => !params_declared(f@) && e@ == refused("undeclared parameter"@),
        },
{
    broadcast use vstd::std_specs::btree::group_btree_axioms;

    let mut out: Vec<Repr> = Vec::new();
    let n: usize = f.params.len();
    let mut i: usize = 0;
    while i < n
        invariant
            i <= n,
            n == f.params@.len(),
            out@ == param_reprs_of(f@).take(i as int),
            forall|j: int| 0 <= j < i ==> f@.locals.dom().contains(#[trigger] f@.params[j]),
        decreases n - i,
    {
        match f.locals.get(&f.params[i]) {
            Some(t) => {
                assert(f@.locals[f@.params[i as int]] == t@);
                out.push(Repr::of(t));
                assert(out@ =~= param_reprs_of(f@).take(i + 1));
            },
            None => {
                assert(!f@.locals.dom().contains(f@.params[i as int]));
                return Err(JitError::Unsupported(own("undeclared parameter")));
            },
        }
        i += 1;
    }
    assert(param_reprs_of(f@).take(n as int) =~= param_reprs_of(f@));
    Ok(out)
}

fn bound_params(f: &Function, reprs: &Vec<Repr>) -> (r: Vec<LocalId>)
    requires
        reprs@ == param_reprs_of(f@),
    ensures
        r@ == bound_of(f@, f@.params.len()),
{
    let mut out: Vec<LocalId> = Vec::new();
    let n: usize = reprs.len();
    let mut i: usize = 0;
    while i < n
        invariant
            i <= n,
            n == f.params@.len(),
            n == reprs@.len(),
            reprs@ == param_reprs_of(f@),
            out@ == bound_of(f@, i as nat),
        decreases n - i,
    {
        if reprs[i] != Repr::Unit {
            out.push(f.params[i]);
        }
        i += 1;
    }
    out
}

fn without_first(v: &Vec<Repr>) -> (r: Vec<Repr>)
    requires
        v@.len() > 0,
    ensures
        r@ == v@.skip(1),
{
    let mut out: Vec<Repr> = Vec::new();
    let n: usize = v.len();
    let mut i: usize = 1;
    while i < n
        invariant
            1 <= i <= n,
            n == v@.len(),
            out@ == v@.subrange(1, i as int),
        decreases n - i,
    {
        out.push(v[i]);
        assert(out@ =~= v@.subrange(1, i + 1));
        i += 1;
    }
    assert(v@.subrange(1, n as int) =~= v@.skip(1));
    out
}

fn copy_reprs(v: &Vec<Repr>) -> (r: Vec<Repr>)
    ensures
        r@ == v@,
{
    let mut out: Vec<Repr> = Vec::new();
    let n: usize = v.len();
    let mut i: usize = 0;
    while i < n
        invariant
            i <= n,
            n == v@.len(),
            out@ == v@.take(i as int),
        decreases n - i,
    {
        out.push(v[i]);
        assert(out@ =~= v@.take(i + 1));
        i += 1;
    }
    assert(v@.take(n as int) =~= v@);
    out
}

/// The plan of a function or constant, and the pools with what it refers to.
fn plan_function(program: &Program, name: &str, f: &Function, constant: bool, pools: Pools) -> (r: Result<
    (FnPlan, Pools),
    JitError,
>)
    ensures
        match r {
            Ok((plan, out)) => planned(program@, name@, f@, constant, pools@) == Ok::<
                (FnPlanV, PoolsV),
                JitErrorV,
            >((plan@, out@)) && code_ok(plan@.code) && code_typed(program@, f@, plan@.code),
            Err(e) => planned(program@, name@, f@, constant, pools@) == Err::<
                (FnPlanV, PoolsV),
                JitErrorV,
            >(e@),
        },
{
    let params: Vec<Repr> = match param_reprs(f) {
        Ok(v) => v,
        Err(e) => {
            return Err(e);
        },
    };
    if f.is_closure && params.len() == 0 {
        return Err(JitError::Unsupported(own("undeclared parameter")));
    }
    let (code, out) = match translate(program, f, pools) {
        Ok(x) => x,
        Err(e) => {
            return Err(e);
        },
    };
    proof {
        law_code_is_typed(program@, f@, pools@);
        assert(code.insts.len() <= usize::MAX);
        assert(code@.insts.len() == code.insts.len());
    }
    let symbol = cat2(
        if constant {
            "cn_"
        } else {
            "fn_"
        },
        name,
    );
    let trampoline = cat2(
        if constant {
            "ct_"
        } else if f.is_closure {
            "et_"
        } else {
            "tr_"
        },
        name,
    );
    let bound = bound_params(f, &params);
    let visible = if f.is_closure {
        without_first(&params)
    } else {
        copy_reprs(&params)
    };
    let plan = FnPlan {
        symbol,
        trampoline,
        params,
        visible,
        ret: Repr::of(&f.ret),
        bound,
        entry: f.entry,
        is_closure: f.is_closure,
        code,
    };
    Ok((plan, out))
}

fn plan_all(program: &Program, fs: &NameMap<Function>, constant: bool, pools: Pools) -> (r: Result<
    (NameMap<FnPlan>, Pools),
    JitError,
>)
    ensures
        match r {
            Ok((plans, out)) => plans_of(program@, fs@, 0, constant, pools@, Seq::empty()) == Ok::<
                (Seq<(Seq<char>, FnPlanV)>, PoolsV),
                JitErrorV,
            >((plans@, out@)) && plans_ok(plans@),
            Err(e) => plans_of(program@, fs@, 0, constant, pools@, Seq::empty()) == Err::<
                (Seq<(Seq<char>, FnPlanV)>, PoolsV),
                JitErrorV,
            >(e@),
        },
{
    let ghost p = program@;
    let ghost start = pools@;
    let ghost whole = plans_of(p, fs@, 0, constant, start, Seq::empty());
    let mut at = pools;
    let mut plans: NameMap<FnPlan> = NameMap::new();
    let n: usize = fs.len();
    let mut i: usize = 0;
    assert(keys_of(plans@) =~= keys_of(fs@).take(0));
    while i < n
        invariant
            i <= n,
            n == fs@.len(),
            p == program@,
            start == pools@,
            whole == plans_of(p, fs@, 0, constant, start, Seq::empty()),
            whole == plans_of(p, fs@, i as int, constant, at@, plans@),
            plans_ok(plans@),
            ascending(keys_of(fs@)),
            keys_of(plans@) == keys_of(fs@).take(i as int),
        decreases n - i,
    {
        proof {
            unfold_plans_of(p, fs@, i as int, constant, at@, plans@);
        }
        let name = fs.key(i);
        match plan_function(program, name.as_str(), fs.value(i), constant, at) {
            Ok((plan, out)) => {
                proof {
                    let ks = keys_of(fs@);
                    assert(keys_of(plans@.push((name@, plan@))) =~= keys_of(plans@).push(name@));
                    assert(ks.take(i + 1) =~= ks.take(i as int).push(ks[i as int]));
                }
                plans.push(own(name.as_str()), plan);
                at = out;
            },
            Err(e) => {
                return Err(e);
            },
        }
        i += 1;
    }
    proof {
        unfold_plans_of(p, fs@, i as int, constant, at@, plans@);
    }
    Ok((plans, at))
}

fn dup_exports(m: &NameMap<ExportTarget>) -> (r: NameMap<ExportTarget>)
    ensures
        r@ == m@,
{
    let mut out: NameMap<ExportTarget> = NameMap::new();
    let n: usize = m.len();
    let mut i: usize = 0;
    while i < n
        invariant
            i <= n,
            n == m@.len(),
            ascending(keys_of(m@)),
            out@ == m@.take(i as int),
        decreases n - i,
    {
        assert(keys_of(m@.take(i as int).push(m@[i as int])) =~= keys_of(m@).take(i + 1));
        let target = match m.value(i) {
            ExportTarget::Function(s) => ExportTarget::Function(own(s.as_str())),
            ExportTarget::Const(s) => ExportTarget::Const(own(s.as_str())),
        };
        out.push(own(m.key(i).as_str()), target);
        assert(out@ =~= m@.take(i + 1));
        i += 1;
    }
    assert(m@.take(n as int) =~= m@);
    out
}

/// Decide what a lowered module compiles to. All code in the plan is closed and typed.
pub fn plan_module(program: &Program) -> (r: Result<(ModulePlan, Pools), JitError>)
    ensures
        match r {
            Ok((plan, pools)) => module_plan_of(program@) == Ok::<
                (ModulePlanV, PoolsV),
                JitErrorV,
            >((plan@, pools@)) && plans_ok(plan@.functions) && plans_ok(plan@.constants),
            Err(e) => module_plan_of(program@) == Err::<(ModulePlanV, PoolsV), JitErrorV>(e@),
        },
{
    match plan_all(program, &program.functions, false, Pools::default()) {
        Err(e) => Err(e),
        Ok((functions, pools)) => match plan_all(program, &program.constants, true, pools) {
            Err(e) => Err(e),
            Ok((constants, out)) => Ok(
                (
                    ModulePlan { functions, constants, exports: dup_exports(&program.exports) },
                    out,
                ),
            ),
        },
    }
}

/// Most parameters of a function that is called without a trampoline.
pub const MAX_DIRECT_ARGS: usize = 8;

/// What a call enters.
#[derive(Debug)]
pub enum Target {
    /// The compiled body, with the arguments as numbers.
    Direct(String),
    /// The trampoline of a function.
    Function(String),
    /// The trampoline of a constant.
    Const(String),
    /// The trampoline of a closure, with the closure's handle.
    Closure(String, Handle),
}

pub ghost enum TargetV {
    Direct(Seq<char>),
    Function(Seq<char>),
    Const(Seq<char>),
    Closure(Seq<char>, Handle),
}

impl View for Target {
    type V = TargetV;

    open spec fn view(&self) -> TargetV {
        match self {
            Target::Direct(n) => TargetV::Direct(n@),
            Target::Function(n) => TargetV::Function(n@),
            Target::Const(n) => TargetV::Const(n@),
            Target::Closure(n, h) => TargetV::Closure(n@, *h),
        }
    }
}

/// A call that is ready to enter native code: one word per parameter.
#[derive(Debug)]
pub struct Invocation {
    pub target: Target,
    pub args: Vec<u64>,
    pub ret: Repr,
}

pub ghost struct InvocationV {
    pub target: TargetV,
    pub args: Seq<u64>,
    pub ret: Repr,
}

impl View for Invocation {
    type V = InvocationV;

    open spec fn view(&self) -> InvocationV {
        InvocationV { target: self.target@, args: self.args@, ret: self.ret }
    }
}

/// Whether a function is called without a trampoline: all its parameters and its result are
/// numbers, and there are few.
pub open spec fn is_direct(params: Seq<Repr>, ret: Repr) -> bool {
    &&& ret == Repr::Number
    &&& params.len() <= MAX_DIRECT_ARGS
    &&& forall|i: int| 0 <= i < params.len() ==> (#[trigger] params[i]) == Repr::Number
}

/// Which host functions of the pool are registered.
pub open spec fn host_flags(pool: Seq<Seq<char>>, host: Seq<(Seq<char>, bool)>) -> Seq<bool> {
    Seq::new(pool.len(), |i: int| get_of(host, pool[i]) is Some)
}

/// The memory of the pool, where it is bound.
pub open spec fn memory_values(pool: Seq<Seq<char>>, memory: Seq<(Seq<char>, ValueV)>) -> Seq<
    Option<ValueV>,
> {
    Seq::new(pool.len(), |i: int| get_of(memory, pool[i]))
}

/// The state that calls of a compiled module run on.
#[derive(Debug)]
pub struct JitModule {
    plan: ModulePlan,
    /// The pooled runtime context, reused across calls.
    ctx: RtCtx,
    host: NameMap<bool>,
    memory: NameMap<Value>,
    /// Names of the pools, in order.
    host_pool: Vec<String>,
    memory_pool: Vec<String>,
    /// Set when a binding changed since the context got them.
    dirty: bool,
}

pub ghost struct JitV {
    pub plan: ModulePlanV,
    pub ctx: CtxV,
    pub host: Seq<(Seq<char>, bool)>,
    pub memory: Seq<(Seq<char>, ValueV)>,
    pub host_pool: Seq<Seq<char>>,
    pub memory_pool: Seq<Seq<char>>,
    pub dirty: bool,
}

impl View for JitModule {
    type V = JitV;

    closed spec fn view(&self) -> JitV {
        JitV {
            plan: self.plan@,
            ctx: self.ctx@,
            host: self.host@,
            memory: self.memory@,
            host_pool: strs_v(self.host_pool@),
            memory_pool: strs_v(self.memory_pool@),
            dirty: self.dirty,
        }
    }
}

impl JitV {
    /// Whether the context has the bindings, unless they are known to have changed.
    pub open spec fn bound(self) -> bool {
        !self.dirty ==> {
            &&& self.ctx.hosts == host_flags(self.host_pool, self.host)
            &&& self.ctx.memory == memory_values(self.memory_pool, self.memory)
        }
    }

    /// The context at the start of a call: an empty table, no error, and the bindings as they
    /// are now.
    pub open spec fn fresh(self) -> JitV {
        JitV {
            ctx: CtxV {
                values: seq![ValueV::Nil],
                consts: Map::empty(),
                frozen: Seq::empty(),
                error: None,
                hosts: host_flags(self.host_pool, self.host),
                memory: memory_values(self.memory_pool, self.memory),
                ..self.ctx
            },
            dirty: false,
            ..self
        }
    }

    /// A call ready to be made, if it has exactly the arguments that it takes: they are
    /// encoded in the context.
    pub open spec fn entering(
        self,
        name: Seq<char>,
        target: TargetV,
        params: Seq<Repr>,
        ret: Repr,
        args: Seq<ValueV>,
    ) -> (JitV, Result<InvocationV, RunErrorV>) {
        if args.len() != params.len() {
            (self, Err(arity_error_of(name, params.len(), args.len())))
        } else {
            let (c, r) = self.ctx.encoded_all(params, args, 0, Seq::empty());
            (
                JitV { ctx: c, ..self },
                match r {
                    Ok(words) => Ok(InvocationV { target, args: words, ret }),
                    Err(e) => Err(e),
                },
            )
        }
    }

    /// The start of a call of an export.
    pub open spec fn begun(self, name: Seq<char>, args: Seq<ValueV>) -> (
        JitV,
        Result<InvocationV, RunErrorV>,
    ) {
        let st = self.fresh();
        match get_of(self.plan.exports, name) {
            None => (st, Err(RunErrorV::UnknownExport(name))),
            Some(ExportTargetV::Function(n)) => match get_of(self.plan.functions, n) {
                Some(f) => if f.is_closure {
                    (st, Err(RunErrorV::Internal("missing signature `"@ + n + "`"@)))
                } else {
                    st.entering(
                        name,
                        if is_direct(f.visible, f.ret) && get_of(self.ctx.code_addrs, n) is Some {
                            TargetV::Direct(n)
                        } else {
                            TargetV::Function(n)
                        },
                        f.visible,
                        f.ret,
                        args,
                    )
                },
                None => (st, Err(RunErrorV::Internal("missing signature `"@ + n + "`"@))),
            },
            Some(ExportTargetV::Const(n)) => match get_of(self.plan.constants, n) {
                Some(c) => st.entering(name, TargetV::Const(n), Seq::empty(), c.ret, args),
                None => (st, Err(RunErrorV::Internal("missing const trampoline `"@ + n + "`"@))),
            },
        }
    }

    /// The start of a call of a closure. A value that is none, and a closure that another
    /// module built, are refused before anything changes.
    pub open spec fn begun_value(self, callee: ValueV, args: Seq<ValueV>) -> (
        JitV,
        Result<InvocationV, RunErrorV>,
    ) {
        if is_foreign(callee, self.ctx.origin) {
            (self, Err(foreign_closure_of()))
        } else {
            match closure_at(self.ctx.heap, callee) {
                None => (
                    self,
                    Err(
                        RunErrorV::Internal(
                            "call_value on a "@ + kind_name_of(callee) + " value"@,
                        ),
                    ),
                ),
                Some((code, _)) => {
                    let st = self.fresh();
                    let missing = RunErrorV::Internal(
                        "missing closure trampoline `"@ + code + "`"@,
                    );
                    match get_of(self.plan.functions, code) {
                        Some(f) => if f.is_closure {
                            let (c, env) = st.ctx.boxed(callee);
                            JitV { ctx: c, ..st }.entering(
                                code,
                                TargetV::Closure(code, env),
                                f.visible,
                                f.ret,
                                args,
                            )
                        } else {
                            (st, Err(missing))
                        },
                        None => (st, Err(missing)),
                    }
                },
            }
        }
    }

    /// The end of a call: its first error, or the value of the result word.
    pub open spec fn ended(self, bits: u64, ret: Repr) -> (JitV, Result<ValueV, RunErrorV>) {
        (
            JitV { ctx: CtxV { error: None, ..self.ctx }, ..self },
            match self.ctx.error {
                Some(e) => Err(e),
                None => Ok(self.ctx.decoded(bits, ret)),
            },
        )
    }
}

fn all_numbers(v: &Vec<Repr>) -> (r: bool)
    ensures
        r == forall|i: int| 0 <= i < v@.len() ==> (#[trigger] v@[i]) == Repr::Number,
{
    let n: usize = v.len();
    let mut i: usize = 0;
    while i < n
        invariant
            i <= n,
            n == v@.len(),
            forall|j: int| 0 <= j < i ==> (#[trigger] v@[j]) == Repr::Number,
        decreases n - i,
    {
        if v[i] != Repr::Number {
            return false;
        }
        i += 1;
    }
    true
}

fn resolve_host(pool: &Vec<String>, host: &NameMap<bool>) -> (r: Vec<bool>)
    ensures
        r@ == host_flags(strs_v(pool@), host@),
{
    let ghost pv = strs_v(pool@);
    let mut out: Vec<bool> = Vec::new();
    let n: usize = pool.len();
    let mut i: usize = 0;
    while i < n
        invariant
            i <= n,
            n == pool@.len(),
            pv == strs_v(pool@),
            out@ == host_flags(pv, host@).take(i as int),
        decreases n - i,
    {
        assert(pv[i as int] == pool@[i as int]@);
        out.push(host.contains_key(pool[i].as_str()));
        assert(out@ =~= host_flags(pv, host@).take(i + 1));
        i += 1;
    }
    assert(host_flags(pv, host@).take(n as int) =~= host_flags(pv, host@));
    out
}

fn resolve_memory(pool: &Vec<String>, memory: &NameMap<Value>) -> (r: Vec<Option<Value>>)
    ensures
        optional_v(r@) == memory_values(strs_v(pool@), memory@),
{
    let ghost pv = strs_v(pool@);
    let mut out: Vec<Option<Value>> = Vec::new();
    let n: usize = pool.len();
    let mut i: usize = 0;
    while i < n
        invariant
            i <= n,
            n == pool@.len(),
            pv == strs_v(pool@),
            optional_v(out@) == memory_values(pv, memory@).take(i as int),
        decreases n - i,
    {
        assert(pv[i as int] == pool@[i as int]@);
        let ghost before = out@;
        let v = match memory.get(pool[i].as_str()) {
            Some(v) => Some(v.dup()),
            None => None,
        };
        out.push(v);
        assert(optional_v(out@) =~= optional_v(before).push(get_of(memory@, pv[i as int])));
        assert(optional_v(out@) =~= memory_values(pv, memory@).take(i + 1));
        i += 1;
    }
    assert(memory_values(pv, memory@).take(n as int) =~= memory_values(pv, memory@));
    out
}

fn dup_names(v: &Vec<String>) -> (r: Vec<String>)
    ensures
        strs_v(r@) == strs_v(v@),
{
    let mut out: Vec<String> = Vec::new();
    let n: usize = v.len();
    let mut i: usize = 0;
    while i < n
        invariant
            i <= n,
            n == v@.len(),
            strs_v(out@) == strs_v(v@).take(i as int),
        decreases n - i,
    {
        let ghost before = out@;
        out.push(own(v[i].as_str()));
        assert(strs_v(out@) =~= strs_v(before).push(v@[i as int]@));
        assert(strs_v(out@) =~= strs_v(v@).take(i + 1));
        i += 1;
    }
    assert(strs_v(v@).take(n as int) =~= strs_v(v@));
    out
}

/// A missing piece of a module, as an error.
fn missing(what: &str, name: &str) -> (r: RunError)
    ensures
        r@ == RunErrorV::Internal(what@ + name@ + "`"@),
{
    RunError::Internal(cat3(what, name, "`"))
}

impl JitModule {
    /// The state of a module that was just compiled: nothing is bound. Its closures bear
    /// `origin`, by which it tells them from those of other modules; 0 is the origin of the
    /// closures that no compiled module built.
    pub fn new(plan: ModulePlan, pools: Pools, code_addrs: NameMap<u64>, origin: u64) -> (r: Self)
        requires
            origin != 0,
        ensures
            r@.plan == plan@,
            r@.host == Seq::<(Seq<char>, bool)>::empty(),
            r@.memory == Seq::<(Seq<char>, ValueV)>::empty(),
            r@.host_pool == pools@.host_fns,
            r@.memory_pool == pools@.memories,
            r@.ctx.code_addrs == code_addrs@,
            r@.ctx.pools == pools@,
            r@.ctx.origin == origin,
            r@.ctx.heap == Seq::<ObjV>::empty(),
            r@.bound(),
    {
        let host: NameMap<bool> = NameMap::new();
        let memory: NameMap<Value> = NameMap::new();
        let host_pool = dup_names(&pools.host_fns);
        let memory_pool = dup_names(&pools.memories);
        let hosts = resolve_host(&host_pool, &host);
        let cells = resolve_memory(&memory_pool, &memory);
        let ctx = RtCtx::new(pools, hosts, cells, code_addrs, Heap::new(), origin);
        JitModule { plan, ctx, host, memory, host_pool, memory_pool, dirty: false }
    }

    /// The plan that the module was compiled from.
    pub fn plan(&self) -> (r: &ModulePlan)
        ensures
            r@ == self@.plan,
    {
        &self.plan
    }

    /// The context of the call under way.
    pub fn ctx(&self) -> (r: &RtCtx)
        ensures
            r@ == self@.ctx,
    {
        &self.ctx
    }

    /// The context of the call under way, for the runtime functions.
    pub fn ctx_mut(&mut self) -> (r: &mut RtCtx)
        ensures
            r@ == old(self)@.ctx,
            final(self)@ == (JitV { ctx: final(r)@, ..old(self)@ }),
    {
        &mut self.ctx
    }

    /// Register a host function under `name`.
    pub fn set_host_function(&mut self, name: &str)
        ensures
            final(self)@ == (JitV {
                host: put_of(old(self)@.host, name@, true),
                dirty: true,
                ..old(self)@
            }),
            final(self)@.bound(),
    {
        self.host.insert(own(name), true);
        self.dirty = true;
    }

    /// Bind a host memory handle.
    pub fn set_memory(&mut self, name: &str, value: Value)
        ensures
            final(self)@ == (JitV {
                memory: put_of(old(self)@.memory, name@, value@),
                dirty: true,
                ..old(self)@
            }),
            final(self)@.bound(),
    {
        self.memory.insert(own(name), value);
        self.dirty = true;
    }

    /// Read back a memory handle.
    pub fn memory(&self, name: &str) -> (r: Option<Value>)
        ensures
            match r {
                Some(v) => get_of(self@.memory, name@) == Some(v@),
                None => get_of(self@.memory, name@) is None,
            },
    {
        match self.memory.get(name) {
            Some(v) => Some(v.dup()),
            None => None,
        }
    }

    /// Make the context ready for a call.
    fn take_ctx(&mut self)
        requires
            old(self)@.bound(),
        ensures
            final(self)@ == old(self)@.fresh(),
            final(self)@.bound(),
    {
        if self.dirty {
            let hosts = resolve_host(&self.host_pool, &self.host);
            let memory = resolve_memory(&self.memory_pool, &self.memory);
            self.ctx.rebind(hosts, memory);
        }
        self.ctx.reset();
        self.dirty = false;
    }

    fn enter(
        &mut self,
        name: &str,
        target: Target,
        params: &Vec<Repr>,
        ret: Repr,
        args: &Vec<Value>,
    ) -> (r: Result<Invocation, RunError>)
        ensures
            match r {
                Ok(i) => old(self)@.entering(name@, target@, params@, ret, values_v(args@)) == (
                    final(self)@,
                    Ok::<InvocationV, RunErrorV>(i@),
                ),
                Err(e) => old(self)@.entering(name@, target@, params@, ret, values_v(args@)) == (
                    final(self)@,
                    Err::<InvocationV, RunErrorV>(e@),
                ),
            },
    {
        if args.len() != params.len() {
            return Err(arity_error(name, params.len(), args.len()));
        }
        match self.ctx.encode_args(params, args) {
            Ok(words) => Ok(Invocation { target, args: words, ret }),
            Err(e) => Err(e),
        }
    }

    /// Start a call of the export `name`: what native code to enter, and with which words.
    pub fn begin(&mut self, name: &str, args: &Vec<Value>) -> (r: Result<Invocation, RunError>)
        requires
            old(self)@.bound(),
        ensures
            match r {
                Ok(i) => old(self)@.begun(name@, values_v(args@)) == (
                    final(self)@,
                    Ok::<InvocationV, RunErrorV>(i@),
                ),
                Err(e) => old(self)@.begun(name@, values_v(args@)) == (
                    final(self)@,
                    Err::<InvocationV, RunErrorV>(e@),
                ),
            },
    {
        self.take_ctx();
        let ghost st = self@;
        let (target, params, ret): (Target, Vec<Repr>, Repr) = match self.plan.exports.get(name) {
            None => {
                return Err(RunError::UnknownExport(own(name)));
            },
            Some(ExportTarget::Function(n)) => match self.plan.functions.get(n.as_str()) {
                Some(f) => {
                    if f.is_closure {
                        return Err(missing("missing signature `", n.as_str()));
                    }
                    let direct = f.ret == Repr::Number && f.visible.len() <= MAX_DIRECT_ARGS
                        && all_numbers(&f.visible) && self.ctx.has_code(n.as_str());
                    let target = if direct {
                        Target::Direct(own(n.as_str()))
                    } else {
                        Target::Function(own(n.as_str()))
                    };
                    (target, copy_reprs(&f.visible), f.ret)
                },
                None => {
                    return Err(missing("missing signature `", n.as_str()));
                },
            },
            Some(ExportTarget::Const(n)) => match self.plan.constants.get(n.as_str()) {
                Some(c) => {
                    let none: Vec<Repr> = Vec::new();
                    (Target::Const(own(n.as_str())), none, c.ret)
                },
                None => {
                    return Err(missing("missing const trampoline `", n.as_str()));
                },
            },
        };
        self.enter(name, target, &params, ret, args)
    }

    /// Start a call of a closure value, which is itself the hidden first argument.
    pub fn begin_value(&mut self, callee: Value, args: &Vec<Value>) -> (r: Result<
        Invocation,
        RunError,
    >)
        requires
            old(self)@.bound(),
        ensures
            match r {
                Ok(i) => old(self)@.begun_value(callee@, values_v(args@)) == (
                    final(self)@,
                    Ok::<InvocationV, RunErrorV>(i@),
                ),
                Err(e) => old(self)@.begun_value(callee@, values_v(args@)) == (
                    final(self)@,
                    Err::<InvocationV, RunErrorV>(e@),
                ),
            },
    {
        if callee.is_foreign(self.ctx.origin()) {
            return Err(foreign_closure());
        }
        let code: String = match self.ctx.heap().as_closure(&callee) {
            Some((code, _)) => own(code.as_str()),
            None => {
                let text = cat3("call_value on a ", callee.kind_name(), " value");
                return Err(RunError::Internal(text));
            },
        };
        self.take_ctx();
        let (params, ret): (Vec<Repr>, Repr) = match self.plan.functions.get(code.as_str()) {
            Some(f) => {
                if !f.is_closure {
                    return Err(missing("missing closure trampoline `", code.as_str()));
                }
                (copy_reprs(&f.visible), f.ret)
            },
            None => {
                return Err(missing("missing closure trampoline `", code.as_str()));
            },
        };
        let env: Handle = self.ctx.intern(callee);
        let name = own(code.as_str());
        self.enter(name.as_str(), Target::Closure(code, env), &params, ret, args)
    }

    /// End a call: its first error, or the value of the result word.
    pub fn finish(&mut self, bits: u64, ret: Repr) -> (r: Result<Value, RunError>)
        ensures
            match r {
                Ok(v) => old(self)@.ended(bits, ret) == (
                    final(self)@,
                    Ok::<ValueV, RunErrorV>(v@),
                ),
                Err(e) => old(self)@.ended(bits, ret) == (
                    final(self)@,
                    Err::<ValueV, RunErrorV>(e@),
                ),
            },
    {
        match self.ctx.take_error() {
            Some(e) => Err(e),
            None => Ok(self.ctx.decode_ret(bits, ret)),
        }
    }
}

/// What the arguments of a call that takes only numbers are handed over as.
proof fn lemma_direct_arguments(c: CtxV, params: Seq<Repr>, args: Seq<ValueV>, i: int, acc: Seq<u64>)
    requires
        0 <= i <= params.len(),
        args.len() == params.len(),
        acc.len() == i,
        is_direct(params, Repr::Number),
    ensures
        ({
            let (c1, r) = c.encoded_all(params, args, i, acc);
            &&& c1 == c
            &&& r is Ok <==> forall|k: int| i <= k < args.len() ==> (#[trigger] args[k]) is Number
            &&& r matches Ok(words) ==> {
                &&& words.len() == params.len()
                &&& forall|k: int| 0 <= k < i ==> (#[trigger] words[k]) == acc[k]
                &&& forall|k: int|
                    i <= k < words.len() ==> ValueV::Number(#[trigger] words[k]) == args[k]
            }
        }),
    decreases params.len() - i,
{
    unfold_encoded_all(c, params, args, i, acc);
    if i < params.len() {
        assert(params[i] == Repr::Number);
        if let ValueV::Number(w) = args[i] {
            lemma_direct_arguments(c, params, args, i + 1, acc.push(w));
            let (c1, r) = c.encoded_all(params, args, i + 1, acc.push(w));
            if let Ok(words) = r {
                assert(words[i] == acc.push(w)[i]);
                assert forall|k: int| 0 <= k < i implies (#[trigger] words[k]) == acc[k] by {
                    assert(words[k] == acc.push(w)[k]);
                }
            }
        }
    }
}

/// Arguments of an all-number call are handed over as they are, and nothing enters the value
/// table; an argument that is no number is refused.
pub proof fn law_direct_arguments(c: CtxV, params: Seq<Repr>, args: Seq<ValueV>)
    requires
        args.len() == params.len(),
        is_direct(params, Repr::Number),
    ensures
        ({
            let (c1, r) = c.encoded_all(params, args, 0, Seq::empty());
            &&& c1 == c
            &&& r is Ok <==> forall|k: int| 0 <= k < args.len() ==> (#[trigger] args[k]) is Number
            &&& r matches Ok(words) ==> words.len() == params.len() && forall|k: int|
                0 <= k < words.len() ==> ValueV::Number(#[trigger] words[k]) == args[k]
        }),
{
    lemma_direct_arguments(c, params, args, 0, Seq::empty());
}

proof fn lemma_one_word(c: CtxV, params: Seq<Repr>, args: Seq<ValueV>, i: int, acc: Seq<u64>)
    requires
        0 <= i <= params.len(),
        args.len() == params.len(),
        acc.len() == i,
    ensures
        c.encoded_all(params, args, i, acc).1 matches Ok(words) ==> words.len() == params.len(),
    decreases params.len() - i,
{
    unfold_encoded_all(c, params, args, i, acc);
    if i < params.len() {
        if let Ok((c1, w)) = c.encoded(args[i], params[i]) {
            lemma_one_word(c1, params, args, i + 1, acc.push(w));
        }
    }
}

/// A call is made with exactly the arguments that it takes, and hands over exactly one word
/// for each.
pub proof fn law_exact_arity(st: JitV, name: Seq<char>, target: TargetV, params: Seq<Repr>, ret: Repr, args: Seq<ValueV>)
    ensures
        ({
            let (_, r) = st.entering(name, target, params, ret, args);
            r matches Ok(i) ==> args.len() == params.len() && i.args.len() == params.len()
        }),
{
    if args.len() == params.len() {
        lemma_one_word(st.ctx, params, args, 0, Seq::empty());
    }
}

/// A call starts with an empty table, no constants and no error: what an earlier call left
/// there does not reach it.
pub proof fn law_calls_start_fresh(a: JitV, b: JitV, name: Seq<char>, args: Seq<ValueV>)
    requires
        b == (JitV {
            ctx: CtxV {
                values: b.ctx.values,
                consts: b.ctx.consts,
                frozen: b.ctx.frozen,
                error: b.ctx.error,
                ..a.ctx
            },
            ..a
        }),
    ensures
        a.begun(name, args) == b.begun(name, args),
{
    assert(a.fresh() == b.fresh());
}

} // verus!
