//! The types of machine code: every operand has the type that its instruction takes.
use vstd::prelude::*;

use crate::ast::{BinOp, UnOp};
use crate::codegen::rt::PoolsV;
use crate::codegen::shim_signature_of;
use crate::codegen::translate::{
    clif_ty_of, clif_tys, closure_classes, common_class, dest_repr, is_native, is_var,
    machine_code_of, native_math, order_class, param_classes, reg_of, relation_of, repr_at,
    result_class, translate_op_of, unfold_x_args, unfold_x_blocks, unfold_x_boxed_all,
    unfold_x_instrs, unfold_x_push_all, unfold_x_set_all, x_args, x_arith, x_as, x_binary, x_blocks,
    x_both, x_boxed, x_boxed_all, x_call, x_define, x_equality, x_instr, x_instrs, x_local, x_make,
    x_ordering, x_push_all, x_read, x_result, x_runtime_call, x_set_all, x_settled, x_term, x_truthy,
    x_unary, x_write, ClifTy, End, Float1, Float2, InstV, MachineBlock, MachineCodeV, Reg, Relation,
    Shim, Tr, TrStep,
};
use crate::ir::{FunctionV, InstrV, OpV, ProgramV, Terminator, ValueId};
use crate::names::get_of;
use crate::runtime::repr::{repr_of, Repr};

verus! {

/// The machine type of a register that holds a value of a class; one of the unit class is a null
/// handle.
pub open spec fn register_ty(r: Repr) -> ClifTy {
    match r {
        Repr::Number => ClifTy::F64,
        Repr::Bool => ClifTy::I8,
        Repr::Ptr | Repr::Unit => ClifTy::I64,
    }
}

/// The types of the arguments that a runtime function takes besides the context.
pub open spec fn shim_takes(s: Shim) -> Seq<ClifTy> {
    if s == Shim::Pow {
        shim_signature_of(s).params
    } else {
        shim_signature_of(s).params.skip(1)
    }
}

/// The type of an instruction's result, in a function of a program.
pub open spec fn result_ty(p: ProgramV, f: FunctionV, i: InstV) -> Option<ClifTy> {
    match i {
        InstV::Int(t, _) => Some(t),
        InstV::Float(_) => Some(ClifTy::F64),
        InstV::GetVar(l) => if f.locals.dom().contains(l) {
            clif_ty_of(repr_of(f.locals[l]))
        } else {
            None
        },
        InstV::SetVar(_, _) | InstV::Guard(_) => None,
        InstV::Float1(_, _) | InstV::Float2(_, _, _) => Some(ClifTy::F64),
        InstV::FloatTest(_, _, _) | InstV::IntTest(_, _, _) | InstV::IntEqual(_, _) => Some(
            ClifTy::I8,
        ),
        InstV::Call(s, _) => shim_signature_of(s).ret,
        InstV::Stack(_) => Some(ClifTy::I64),
        InstV::CallScript(n, _) => match get_of(p.functions, n) {
            Some(g) => clif_ty_of(repr_of(g.ret)),
            None => None,
        },
        InstV::CallConst(n) => match get_of(p.constants, n) {
            Some(c) => clif_ty_of(repr_of(c.ret)),
            None => None,
        },
        InstV::CallClosure { addr, env, params, ret, args } => clif_ty_of(ret),
    }
}

/// The type of a register.
pub open spec fn ty_at(p: ProgramV, f: FunctionV, insts: Seq<InstV>, r: Reg) -> Option<ClifTy> {
    if r < insts.len() {
        result_ty(p, f, insts[r as int])
    } else {
        None
    }
}

/// Whether registers have these types, one for one.
pub open spec fn have(
    p: ProgramV,
    f: FunctionV,
    insts: Seq<InstV>,
    rs: Seq<Reg>,
    ts: Seq<ClifTy>,
) -> bool {
    &&& rs.len() == ts.len()
    &&& forall|k: int|
        0 <= k < rs.len() ==> ty_at(p, f, insts, #[trigger] rs[k]) == Some(ts[k])
}

/// Whether an instruction's operands have the types that it takes.
#[verifier::opaque]
pub open spec fn takes(p: ProgramV, f: FunctionV, insts: Seq<InstV>, i: InstV) -> bool {
    match i {
        InstV::Int(_, _) | InstV::Float(_) | InstV::CallConst(_) => true,
        InstV::GetVar(l) => is_var(f, l),
        InstV::SetVar(l, r) => is_var(f, l) && ty_at(p, f, insts, r) == clif_ty_of(
            repr_of(f.locals[l]),
        ),
        InstV::Guard(r) => ty_at(p, f, insts, r) == Some(ClifTy::I8),
        InstV::Float1(_, a) => ty_at(p, f, insts, a) == Some(ClifTy::F64),
        InstV::Float2(_, a, b) => ty_at(p, f, insts, a) == Some(ClifTy::F64) && ty_at(
            p,
            f,
            insts,
            b,
        ) == Some(ClifTy::F64),
        InstV::FloatTest(_, a, b) => ty_at(p, f, insts, a) == Some(ClifTy::F64) && ty_at(
            p,
            f,
            insts,
            b,
        ) == Some(ClifTy::F64),
        InstV::IntTest(_, a, _) => ty_at(p, f, insts, a) == Some(ClifTy::I8) || ty_at(
            p,
            f,
            insts,
            a,
        ) == Some(ClifTy::I32),
        InstV::IntEqual(a, b) => ty_at(p, f, insts, a) == Some(ClifTy::I8) && ty_at(
            p,
            f,
            insts,
            b,
        ) == Some(ClifTy::I8),
        InstV::Call(s, rs) => have(p, f, insts, rs, shim_takes(s)),
        InstV::Stack(rs) => have(p, f, insts, rs, words(rs.len())),
        InstV::CallScript(n, rs) => match get_of(p.functions, n) {
            Some(g) => !g.is_closure && have(
                p,
                f,
                insts,
                rs,
                clif_tys(param_classes(g), param_classes(g).len()),
            ),
            None => false,
        },
        InstV::CallClosure { addr, env, params, ret, args } => {
            &&& ty_at(p, f, insts, addr) == Some(ClifTy::I64)
            &&& ty_at(p, f, insts, env) == Some(ClifTy::I64)
            &&& have(p, f, insts, args, clif_tys(params, params.len()))
        },
    }
}

/// That many word types.
pub open spec fn words(n: nat) -> Seq<ClifTy> {
    Seq::new(n, |i: int| ClifTy::I64)
}

/// Whether a block's end has a register of the type that it takes.
pub open spec fn end_takes(p: ProgramV, f: FunctionV, insts: Seq<InstV>, e: End) -> bool {
    match e {
        End::Return(r) => ty_at(p, f, insts, r) == Some(register_ty(repr_of(f.ret))),
        End::JumpBack(r, _) => ty_at(p, f, insts, r) == Some(ClifTy::I8),
        End::Branch(r, _, _) => ty_at(p, f, insts, r) == Some(ClifTy::I8),
        End::ReturnDefault | End::Jump(_) | End::Trap => true,
    }
}

/// Whether every operand in a function's machine code has the type that is taken there.
pub open spec fn code_typed(p: ProgramV, f: FunctionV, c: MachineCodeV) -> bool {
    &&& forall|i: int| 0 <= i < c.insts.len() ==> takes(p, f, c.insts, #[trigger] c.insts[i])
    &&& forall|i: int|
        0 <= i < c.blocks.len() ==> end_takes(p, f, c.insts, (#[trigger] c.blocks[i]).term)
}

// ---- what a translation under way keeps ----------------------------------------------

/// Whether the code is short enough that a register can name each of its instructions.
spec fn small(st: Tr) -> bool {
    st.insts.len() <= usize::MAX
}

/// Whether a register has a type, in short code.
#[verifier::opaque]
spec fn is_ty(p: ProgramV, f: FunctionV, st: Tr, r: Reg, t: ClifTy) -> bool {
    small(st) ==> ty_at(p, f, st.insts, r) == Some(t)
}

/// Whether registers have these types, in short code.
#[verifier::opaque]
spec fn are_ty(p: ProgramV, f: FunctionV, st: Tr, rs: Seq<Reg>, ts: Seq<ClifTy>) -> bool {
    small(st) ==> have(p, f, st.insts, rs, ts)
}

/// Whether the code so far is well typed, and each value is held in a register of its class.
#[verifier::opaque]
pub(crate) closed spec fn typed(p: ProgramV, f: FunctionV, st: Tr) -> bool {
    &&& st.ssa.len() == f.values.len()
    &&& small(st) ==> {
        &&& forall|i: int| 0 <= i < st.insts.len() ==> takes(p, f, st.insts, #[trigger] st.insts[i])
        &&& forall|v: int|
            0 <= v < st.ssa.len() && (#[trigger] st.ssa[v]) is Some ==> v < f.values.len() && ty_at(
                p,
                f,
                st.insts,
                st.ssa[v]->0,
            ) == Some(register_ty(repr_of(f.values[v])))
    }
}

/// Whether `b` has the instructions of `a` first, and the same values.
spec fn grows(a: Tr, b: Tr) -> bool {
    &&& a.ssa == b.ssa
    &&& a.insts.len() <= b.insts.len()
    &&& forall|k: int| 0 <= k < a.insts.len() ==> b.insts[k] == #[trigger] a.insts[k]
}

/// What a step from `a` to `b` keeps.
spec fn keeps(p: ProgramV, f: FunctionV, a: Tr, b: Tr) -> bool {
    grows(a, b) && typed(p, f, b)
}

/// Registers keep their types.
proof fn lemma_kept(p: ProgramV, f: FunctionV, a: Tr, b: Tr)
    requires
        grows(a, b),
    ensures
        forall|r: Reg, t: ClifTy| is_ty(p, f, a, r, t) ==> #[trigger] is_ty(p, f, b, r, t),
        forall|rs: Seq<Reg>, ts: Seq<ClifTy>|
            are_ty(p, f, a, rs, ts) ==> #[trigger] are_ty(p, f, b, rs, ts),
{
    reveal(is_ty);
    reveal(are_ty);
    assert forall|rs: Seq<Reg>, ts: Seq<ClifTy>| are_ty(p, f, a, rs, ts) implies #[trigger] are_ty(
        p,
        f,
        b,
        rs,
        ts,
    ) by {
        if small(b) {
            assert forall|k: int| 0 <= k < rs.len() implies ty_at(p, f, b.insts, #[trigger] rs[k])
                == Some(ts[k]) by {
                assert(ty_at(p, f, a.insts, rs[k]) == Some(ts[k]));
            }
        }
    }
}

proof fn lemma_takes_later(p: ProgramV, f: FunctionV, a: Tr, b: Tr, i: InstV)
    requires
        grows(a, b),
        small(b),
        takes(p, f, a.insts, i),
    ensures
        takes(p, f, b.insts, i),
{
    lemma_kept(p, f, a, b);
    reveal(takes);
    reveal(is_ty);
    reveal(are_ty);
    assert(forall|r: Reg, t: ClifTy|
        ty_at(p, f, a.insts, r) == Some(t) ==> ty_at(p, f, b.insts, r) == Some(t));
    match i {
        InstV::Call(s, rs) => assert(are_ty(p, f, b, rs, shim_takes(s))),
        InstV::Stack(rs) => assert(are_ty(p, f, b, rs, words(rs.len()))),
        InstV::CallScript(n, rs) => match get_of(p.functions, n) {
            Some(g) => assert(are_ty(
                p,
                f,
                b,
                rs,
                clif_tys(param_classes(g), param_classes(g).len()),
            )),
            None => {},
        },
        InstV::CallClosure { addr, env, params, ret, args } => assert(are_ty(
            p,
            f,
            b,
            args,
            clif_tys(params, params.len()),
        )),
        _ => {},
    }
}

/// Whether an instruction's operands have the types that it takes, in short code.
spec fn ready_for(p: ProgramV, f: FunctionV, st: Tr, i: InstV) -> bool {
    match i {
        InstV::Int(_, _) | InstV::Float(_) | InstV::CallConst(_) => true,
        InstV::GetVar(l) => is_var(f, l),
        InstV::SetVar(l, r) => is_var(f, l) && is_ty(p, f, st, r, register_ty(repr_of(f.locals[l]))),
        InstV::Guard(r) => is_ty(p, f, st, r, ClifTy::I8),
        InstV::Float1(_, a) => is_ty(p, f, st, a, ClifTy::F64),
        InstV::Float2(_, a, b) => is_ty(p, f, st, a, ClifTy::F64) && is_ty(
            p,
            f,
            st,
            b,
            ClifTy::F64,
        ),
        InstV::FloatTest(_, a, b) => is_ty(p, f, st, a, ClifTy::F64) && is_ty(
            p,
            f,
            st,
            b,
            ClifTy::F64,
        ),
        InstV::IntTest(_, a, _) => is_ty(p, f, st, a, ClifTy::I8) || is_ty(
            p,
            f,
            st,
            a,
            ClifTy::I32,
        ),
        InstV::IntEqual(a, b) => is_ty(p, f, st, a, ClifTy::I8) && is_ty(p, f, st, b, ClifTy::I8),
        InstV::Call(s, rs) => are_ty(p, f, st, rs, shim_takes(s)),
        InstV::Stack(rs) => are_ty(p, f, st, rs, words(rs.len())),
        InstV::CallScript(n, rs) => match get_of(p.functions, n) {
            Some(g) => !g.is_closure && are_ty(
                p,
                f,
                st,
                rs,
                clif_tys(param_classes(g), param_classes(g).len()),
            ),
            None => false,
        },
        InstV::CallClosure { addr, env, params, ret, args } => {
            &&& is_ty(p, f, st, addr, ClifTy::I64)
            &&& is_ty(p, f, st, env, ClifTy::I64)
            &&& are_ty(p, f, st, args, clif_tys(params, params.len()))
        },
    }
}

proof fn lemma_ready(p: ProgramV, f: FunctionV, st: Tr, i: InstV)
    requires
        ready_for(p, f, st, i),
        small(st),
    ensures
        takes(p, f, st.insts, i),
{
    reveal(takes);
    reveal(is_ty);
    reveal(are_ty);
}

proof fn lemma_emit(p: ProgramV, f: FunctionV, st: Tr, i: InstV)
    requires
        typed(p, f, st),
        ready_for(p, f, st, i),
    ensures
        keeps(p, f, st, st.emit(i).0),
        result_ty(p, f, i) matches Some(t) ==> is_ty(p, f, st.emit(i).0, st.emit(i).1, t),
{
    reveal(typed);
    reveal(is_ty);
    reveal(Tr::emit);
    let b = st.emit(i).0;
    if small(b) {
        lemma_ready(p, f, st, i);
        assert forall|k: int| 0 <= k < b.insts.len() implies takes(
            p,
            f,
            b.insts,
            #[trigger] b.insts[k],
        ) by {
            if k < st.insts.len() {
                assert(b.insts[k] == st.insts[k]);
                lemma_takes_later(p, f, st, b, st.insts[k]);
            } else {
                lemma_takes_later(p, f, st, b, i);
            }
        }
    }
}

/// The argument types of the runtime functions, one by one.
spec fn takes_list(s: Shim) -> Seq<ClifTy> {
    match s {
        Shim::TableNew | Shim::Errored => seq![],
        Shim::BoxNumber => seq![ClifTy::F64],
        Shim::BoxBool => seq![ClifTy::I8],
        Shim::ConstString | Shim::ConstRef | Shim::MemoryRef | Shim::NamespaceField
        | Shim::ArrayNew => seq![ClifTy::I32],
        Shim::UnboxNumber | Shim::UnboxBool | Shim::Len | Shim::Truthy | Shim::MapKeys
        | Shim::CellNew | Shim::CellGet | Shim::ClosureCodeAddr => seq![ClifTy::I64],
        Shim::ArrayGet => seq![ClifTy::I64, ClifTy::F64],
        Shim::FieldGet | Shim::ClosureEnvGet => seq![ClifTy::I64, ClifTy::I32],
        Shim::Pow | Shim::CheckOrder => seq![ClifTy::F64, ClifTy::F64],
        Shim::ArrayPush | Shim::CellSet | Shim::MapGet | Shim::Concat | Shim::StrOrder
        | Shim::ValueEq => seq![ClifTy::I64, ClifTy::I64],
        Shim::ArraySet => seq![ClifTy::I64, ClifTy::F64, ClifTy::I64],
        Shim::FieldSet => seq![ClifTy::I64, ClifTy::I32, ClifTy::I64],
        Shim::TableSet | Shim::MapSet => seq![ClifTy::I64, ClifTy::I64, ClifTy::I64],
        Shim::CallHost | Shim::CallBuiltinValue | Shim::CallBuiltinMember | Shim::ClosureNew => seq![
            ClifTy::I32,
            ClifTy::I64,
            ClifTy::I32,
        ],
    }
}

proof fn lemma_shim_takes(s: Shim)
    ensures
        shim_takes(s) == takes_list(s),
{
    assert(shim_takes(s) =~= takes_list(s));
}

/// A call of a runtime function with up to three arguments.
proof fn lemma_call(p: ProgramV, f: FunctionV, st: Tr, s: Shim, args: Seq<Reg>)
    requires
        typed(p, f, st),
        args.len() == takes_list(s).len(),
        args.len() <= 3,
        args.len() > 0 ==> is_ty(p, f, st, args[0], takes_list(s)[0]),
        args.len() > 1 ==> is_ty(p, f, st, args[1], takes_list(s)[1]),
        args.len() > 2 ==> is_ty(p, f, st, args[2], takes_list(s)[2]),
    ensures
        keeps(p, f, st, st.call(s, args).0),
        shim_signature_of(s).ret matches Some(t) ==> is_ty(
            p,
            f,
            st.call(s, args).0,
            st.call(s, args).1,
            t,
        ),
{
    lemma_shim_takes(s);
    reveal(is_ty);
    reveal(are_ty);
    if small(st) {
        assert forall|k: int| 0 <= k < args.len() implies ty_at(
            p,
            f,
            st.insts,
            #[trigger] args[k],
        ) == Some(shim_takes(s)[k]) by {
            assert(k == 0 || k == 1 || k == 2);
        }
    }
    lemma_emit(p, f, st, InstV::Call(s, args));
}

/// A change of the pools alone.
proof fn lemma_pooled(p: ProgramV, f: FunctionV, a: Tr, b: Tr)
    requires
        typed(p, f, a),
        a.insts == b.insts,
        a.ssa == b.ssa,
    ensures
        keeps(p, f, a, b),
{
    reveal(typed);
}

proof fn lemma_index(p: ProgramV, f: FunctionV, st: Tr, n: u32)
    requires
        typed(p, f, st),
    ensures
        keeps(p, f, st, st.index(n).0),
        is_ty(p, f, st.index(n).0, st.index(n).1, ClifTy::I32),
{
    lemma_emit(p, f, st, InstV::Int(ClifTy::I32, n as i64));
}

proof fn lemma_unboxed(p: ProgramV, f: FunctionV, st: Tr, h: Reg, r: Repr)
    requires
        typed(p, f, st),
        r != Repr::Unit ==> is_ty(p, f, st, h, ClifTy::I64),
    ensures
        keeps(p, f, st, st.unboxed(h, r).0),
        is_ty(p, f, st.unboxed(h, r).0, st.unboxed(h, r).1, register_ty(r)),
{
    reveal(Tr::unboxed);
    match r {
        Repr::Number => lemma_call(p, f, st, Shim::UnboxNumber, seq![h]),
        Repr::Bool => lemma_call(p, f, st, Shim::UnboxBool, seq![h]),
        Repr::Ptr => {},
        Repr::Unit => lemma_emit(p, f, st, InstV::Int(ClifTy::I64, 0)),
    }
}

proof fn lemma_coerced(p: ProgramV, f: FunctionV, st: Tr, v: Reg, from: Repr, to: Repr)
    requires
        typed(p, f, st),
        is_ty(p, f, st, v, register_ty(from)),
    ensures
        keeps(p, f, st, st.coerced(v, from, to).0),
        is_ty(p, f, st.coerced(v, from, to).0, st.coerced(v, from, to).1, register_ty(to)),
{
    reveal(Tr::coerced);
    match (from, to) {
        (Repr::Number, Repr::Ptr) => lemma_call(p, f, st, Shim::BoxNumber, seq![v]),
        (Repr::Bool, Repr::Ptr) => lemma_call(p, f, st, Shim::BoxBool, seq![v]),
        (Repr::Number, Repr::Bool) => {
            lemma_call(p, f, st, Shim::BoxNumber, seq![v]);
            let (st1, h) = st.call(Shim::BoxNumber, seq![v]);
            lemma_unboxed(p, f, st1, h, to);
        },
        (Repr::Bool, Repr::Number) => {
            lemma_call(p, f, st, Shim::BoxBool, seq![v]);
            let (st1, h) = st.call(Shim::BoxBool, seq![v]);
            lemma_unboxed(p, f, st1, h, to);
        },
        (Repr::Ptr, Repr::Number) | (Repr::Unit, Repr::Number) | (Repr::Ptr, Repr::Bool) | (
            Repr::Unit,
            Repr::Bool,
        ) | (Repr::Number, Repr::Unit) | (Repr::Bool, Repr::Unit) => {
            lemma_unboxed(p, f, st, v, to);
        },
        _ => {},
    }
}

/// The register of a value has the type of its class.
proof fn lemma_reg(p: ProgramV, f: FunctionV, st: Tr, v: ValueId)
    requires
        typed(p, f, st),
    ensures
        reg_of(st, v) matches Ok(r) ==> is_ty(
            p,
            f,
            st,
            r,
            register_ty(repr_of(f.values[v as int])),
        ),
{
    reveal(typed);
    reveal(is_ty);
    reveal(Tr::val);
}

/// A value as one of a class has the type of the class.
proof fn lemma_as(p: ProgramV, f: FunctionV, st: Tr, v: ValueId, to: Repr)
    requires
        typed(p, f, st),
    ensures
        x_as(f, st, v, to) matches Ok((st1, r)) ==> keeps(p, f, st, st1) && is_ty(
            p,
            f,
            st1,
            r,
            register_ty(to),
        ),
{
    reveal(x_as);
    lemma_reg(p, f, st, v);
    match (reg_of(st, v), repr_at(f, v)) {
        (Ok(r), Ok(from)) => lemma_coerced(p, f, st, r, from, to),
        _ => {},
    }
}

proof fn lemma_both(
    p: ProgramV,
    f: FunctionV,
    st: Tr,
    v: ValueId,
    c: Repr,
    w: ValueId,
    d: Repr,
)
    requires
        typed(p, f, st),
    ensures
        x_both(f, st, v, c, w, d) matches Ok((st1, (a, b))) ==> {
            &&& keeps(p, f, st, st1)
            &&& is_ty(p, f, st1, a, register_ty(c))
            &&& is_ty(p, f, st1, b, register_ty(d))
        },
{
    reveal(x_both);
    lemma_as(p, f, st, v, c);
    match x_as(f, st, v, c) {
        Ok((st1, a)) => {
            lemma_as(p, f, st1, w, d);
            match x_as(f, st1, w, d) {
                Ok((st2, b)) => {
                    lemma_kept(p, f, st1, st2);
                    assert(is_ty(p, f, st2, a, register_ty(c)));
                },
                Err(_) => {},
            }
        },
        Err(_) => {},
    }
}

proof fn lemma_boxed(p: ProgramV, f: FunctionV, st: Tr, v: ValueId)
    requires
        typed(p, f, st),
    ensures
        x_boxed(f, st, v) matches Ok((st1, r)) ==> keeps(p, f, st, st1) && is_ty(
            p,
            f,
            st1,
            r,
            ClifTy::I64,
        ),
{
    reveal(x_boxed);
    lemma_reg(p, f, st, v);
    match (reg_of(st, v), repr_at(f, v)) {
        (Ok(r), Ok(Repr::Number)) => lemma_call(p, f, st, Shim::BoxNumber, seq![r]),
        (Ok(r), Ok(Repr::Bool)) => lemma_call(p, f, st, Shim::BoxBool, seq![r]),
        (Ok(r), Ok(Repr::Unit)) => lemma_emit(p, f, st, InstV::Int(ClifTy::I64, 0)),
        _ => {},
    }
}

proof fn lemma_all_words(p: ProgramV, f: FunctionV, st: Tr, rs: Seq<Reg>, r: Reg)
    requires
        are_ty(p, f, st, rs, words(rs.len())),
        is_ty(p, f, st, r, ClifTy::I64),
    ensures
        are_ty(p, f, st, rs.push(r), words(rs.push(r).len())),
{
    reveal(is_ty);
    reveal(are_ty);
    let all = rs.push(r);
    if small(st) {
        assert forall|k: int| 0 <= k < all.len() implies ty_at(p, f, st.insts, #[trigger] all[k])
            == Some(words(all.len())[k]) by {
            if k < rs.len() {
                assert(all[k] == rs[k]);
                assert(ty_at(p, f, st.insts, rs[k]) == Some(words(rs.len())[k]));
            }
        }
    }
}

proof fn lemma_boxed_all(
    p: ProgramV,
    f: FunctionV,
    st: Tr,
    vs: Seq<ValueId>,
    i: int,
    acc: Seq<Reg>,
)
    requires
        typed(p, f, st),
        are_ty(p, f, st, acc, words(acc.len())),
    ensures
        x_boxed_all(f, st, vs, i, acc) matches Ok((st1, rs)) ==> keeps(p, f, st, st1) && are_ty(
            p,
            f,
            st1,
            rs,
            words(rs.len()),
        ),
    decreases vs.len() - i,
{
    unfold_x_boxed_all(f, st, vs, i, acc);
    if 0 <= i < vs.len() {
        lemma_boxed(p, f, st, vs[i]);
        match x_boxed(f, st, vs[i]) {
            Ok((st1, r)) => {
                lemma_kept(p, f, st, st1);
                lemma_all_words(p, f, st1, acc, r);
                lemma_boxed_all(p, f, st1, vs, i + 1, acc.push(r));
            },
            Err(_) => {},
        }
    }
}

/// Values as handles.
proof fn lemma_handles(
    p: ProgramV,
    f: FunctionV,
    st: Tr,
    vs: Seq<ValueId>,
    i: int,
    acc: Seq<Reg>,
)
    requires
        typed(p, f, st),
        are_ty(p, f, st, acc, words(acc.len())),
        0 <= i,
    ensures
        x_args(f, st, vs, Seq::empty(), i, acc) matches Ok((st1, rs)) ==> keeps(p, f, st, st1)
            && are_ty(p, f, st1, rs, words(rs.len())),
    decreases vs.len() - i,
{
    unfold_x_args(f, st, vs, Seq::empty(), i, acc);
    if i < vs.len() {
        lemma_reg(p, f, st, vs[i]);
        match (reg_of(st, vs[i]), repr_at(f, vs[i])) {
            (Ok(r), Ok(from)) => {
                lemma_coerced(p, f, st, r, from, Repr::Ptr);
                let (st1, x) = st.coerced(r, from, Repr::Ptr);
                lemma_kept(p, f, st, st1);
                lemma_all_words(p, f, st1, acc, x);
                lemma_handles(p, f, st1, vs, i + 1, acc.push(x));
            },
            _ => {},
        }
    }
}

proof fn lemma_args(
    p: ProgramV,
    f: FunctionV,
    st: Tr,
    vs: Seq<ValueId>,
    want: Seq<Repr>,
    i: int,
    acc: Seq<Reg>,
)
    requires
        typed(p, f, st),
        vs.len() == want.len(),
        0 <= i <= vs.len(),
        are_ty(p, f, st, acc, clif_tys(want, i as nat)),
    ensures
        x_args(f, st, vs, want, i, acc) matches Ok((st1, rs)) ==> keeps(p, f, st, st1) && are_ty(
            p,
            f,
            st1,
            rs,
            clif_tys(want, want.len()),
        ),
    decreases vs.len() - i,
{
    unfold_x_args(f, st, vs, want, i, acc);
    if i < vs.len() {
        lemma_reg(p, f, st, vs[i]);
        let front = clif_tys(want, i as nat);
        let next = clif_tys(want, (i + 1) as nat);
        match (reg_of(st, vs[i]), repr_at(f, vs[i])) {
            (Ok(r), Ok(from)) => {
                if want[i] == Repr::Unit {
                    lemma_args(p, f, st, vs, want, i + 1, acc);
                } else {
                    lemma_coerced(p, f, st, r, from, want[i]);
                    let (st1, x) = st.coerced(r, from, want[i]);
                    lemma_kept(p, f, st, st1);
                    assert(next == front.push(register_ty(want[i])));
                    assert(are_ty(p, f, st1, acc, front));
                    let all = acc.push(x);
                    reveal(is_ty);
                    reveal(are_ty);
                    if small(st1) {
                        assert forall|k: int| 0 <= k < all.len() implies ty_at(
                            p,
                            f,
                            st1.insts,
                            #[trigger] all[k],
                        ) == Some(next[k]) by {
                            if k < acc.len() {
                                assert(all[k] == acc[k]);
                                assert(ty_at(p, f, st1.insts, acc[k]) == Some(front[k]));
                            }
                        }
                    }
                    lemma_args(p, f, st1, vs, want, i + 1, all);
                }
            },
            _ => {},
        }
    }
}

proof fn lemma_arg_array(p: ProgramV, f: FunctionV, st: Tr, rs: Seq<Reg>)
    requires
        typed(p, f, st),
        are_ty(p, f, st, rs, words(rs.len())),
    ensures
        keeps(p, f, st, st.arg_array(rs).0),
        is_ty(p, f, st.arg_array(rs).0, st.arg_array(rs).1.0, ClifTy::I64),
        is_ty(p, f, st.arg_array(rs).0, st.arg_array(rs).1.1, ClifTy::I32),
{
    reveal(Tr::arg_array);
    lemma_index(p, f, st, rs.len() as u32);
    let (st1, argc) = st.index(rs.len() as u32);
    lemma_kept(p, f, st, st1);
    assert(are_ty(p, f, st1, rs, words(rs.len())));
    if rs.len() == 0 {
        lemma_emit(p, f, st1, InstV::Int(ClifTy::I64, 0));
        lemma_kept(p, f, st1, st1.emit(InstV::Int(ClifTy::I64, 0)).0);
    } else {
        lemma_emit(p, f, st1, InstV::Stack(rs));
        lemma_kept(p, f, st1, st1.emit(InstV::Stack(rs)).0);
    }
}

// ---- operations ---------------------------------------------------------------------

/// What an operation from `st` yields: well typed code, and a result of the class that the
/// operation's results have.
spec fn yields(
    p: ProgramV,
    f: FunctionV,
    st: Tr,
    res: TrStep<Option<Reg>>,
    class: Repr,
) -> bool {
    res matches Ok((st1, r)) ==> {
        &&& keeps(p, f, st, st1)
        &&& r matches Some(x) ==> is_ty(p, f, st1, x, register_ty(class))
    }
}

proof fn lemma_result(p: ProgramV, f: FunctionV, st: Tr, h: Reg, dest: Option<ValueId>)
    requires
        typed(p, f, st),
        is_ty(p, f, st, h, ClifTy::I64),
    ensures
        dest_repr(f, dest) matches Ok(r) ==> yields(p, f, st, x_result(f, st, h, dest), r),
{
    match dest_repr(f, dest) {
        Ok(r) => lemma_unboxed(p, f, st, h, r),
        Err(_) => {},
    }
}

proof fn lemma_float1(p: ProgramV, f: FunctionV, st: Tr, op: Float1, a: Reg)
    requires
        typed(p, f, st),
        is_ty(p, f, st, a, ClifTy::F64),
    ensures
        keeps(p, f, st, st.emit(InstV::Float1(op, a)).0),
        is_ty(
            p,
            f,
            st.emit(InstV::Float1(op, a)).0,
            st.emit(InstV::Float1(op, a)).1,
            ClifTy::F64,
        ),
        forall|r: Reg, t: ClifTy|
            is_ty(p, f, st, r, t) ==> #[trigger] is_ty(
                p,
                f,
                st.emit(InstV::Float1(op, a)).0,
                r,
                t,
            ),
{
    lemma_emit(p, f, st, InstV::Float1(op, a));
    lemma_kept(p, f, st, st.emit(InstV::Float1(op, a)).0);
}

proof fn lemma_float2(p: ProgramV, f: FunctionV, st: Tr, op: Float2, a: Reg, b: Reg)
    requires
        typed(p, f, st),
        is_ty(p, f, st, a, ClifTy::F64),
        is_ty(p, f, st, b, ClifTy::F64),
    ensures
        keeps(p, f, st, st.emit(InstV::Float2(op, a, b)).0),
        is_ty(
            p,
            f,
            st.emit(InstV::Float2(op, a, b)).0,
            st.emit(InstV::Float2(op, a, b)).1,
            ClifTy::F64,
        ),
        forall|r: Reg, t: ClifTy|
            is_ty(p, f, st, r, t) ==> #[trigger] is_ty(
                p,
                f,
                st.emit(InstV::Float2(op, a, b)).0,
                r,
                t,
            ),
{
    lemma_emit(p, f, st, InstV::Float2(op, a, b));
    lemma_kept(p, f, st, st.emit(InstV::Float2(op, a, b)).0);
}

proof fn lemma_arith(p: ProgramV, f: FunctionV, st: Tr, op: BinOp, a: Reg, b: Reg)
    requires
        typed(p, f, st),
        is_ty(p, f, st, a, ClifTy::F64),
        is_ty(p, f, st, b, ClifTy::F64),
    ensures
        keeps(p, f, st, x_arith(st, op, a, b).0),
        is_ty(p, f, x_arith(st, op, a, b).0, x_arith(st, op, a, b).1, ClifTy::F64),
{
    reveal(x_arith);
    match op {
        BinOp::Add => lemma_float2(p, f, st, Float2::Add, a, b),
        BinOp::Sub => lemma_float2(p, f, st, Float2::Sub, a, b),
        BinOp::Mul => lemma_float2(p, f, st, Float2::Mul, a, b),
        BinOp::Div => lemma_float2(p, f, st, Float2::Div, a, b),
        BinOp::FloorDiv => {
            lemma_float2(p, f, st, Float2::Div, a, b);
            let (st1, q) = st.emit(InstV::Float2(Float2::Div, a, b));
            lemma_float1(p, f, st1, Float1::Floor, q);
        },
        BinOp::Mod => {
            lemma_float2(p, f, st, Float2::Div, a, b);
            let (st1, q) = st.emit(InstV::Float2(Float2::Div, a, b));
            lemma_float1(p, f, st1, Float1::Floor, q);
            let (st2, fl) = st1.emit(InstV::Float1(Float1::Floor, q));
            assert(is_ty(p, f, st1, a, ClifTy::F64) && is_ty(p, f, st1, b, ClifTy::F64));
            assert(is_ty(p, f, st2, a, ClifTy::F64) && is_ty(p, f, st2, b, ClifTy::F64));
            lemma_float2(p, f, st2, Float2::Mul, fl, b);
            let (st3, prod) = st2.emit(InstV::Float2(Float2::Mul, fl, b));
            assert(is_ty(p, f, st3, a, ClifTy::F64));
            lemma_float2(p, f, st3, Float2::Sub, a, prod);
        },
        _ => lemma_call(p, f, st, Shim::Pow, seq![a, b]),
    }
}

proof fn lemma_ordering(p: ProgramV, f: FunctionV, st: Tr, op: BinOp, a: Reg, b: Reg, r: Repr)
    requires
        typed(p, f, st),
        is_ty(
            p,
            f,
            st,
            a,
            if r == Repr::Number {
                ClifTy::F64
            } else {
                ClifTy::I64
            },
        ),
        is_ty(
            p,
            f,
            st,
            b,
            if r == Repr::Number {
                ClifTy::F64
            } else {
                ClifTy::I64
            },
        ),
    ensures
        keeps(p, f, st, x_ordering(st, op, a, b, r).0),
        is_ty(p, f, x_ordering(st, op, a, b, r).0, x_ordering(st, op, a, b, r).1, ClifTy::I8),
{
    reveal(x_ordering);
    if r == Repr::Number {
        let i = InstV::FloatTest(relation_of(op), a, b);
        lemma_emit(p, f, st, i);
        let (st1, out) = st.emit(i);
        lemma_kept(p, f, st, st1);
        assert(is_ty(p, f, st1, a, ClifTy::F64) && is_ty(p, f, st1, b, ClifTy::F64));
        lemma_call(p, f, st1, Shim::CheckOrder, seq![a, b]);
        lemma_kept(p, f, st1, st1.call(Shim::CheckOrder, seq![a, b]).0);
    } else {
        lemma_call(p, f, st, Shim::StrOrder, seq![a, b]);
        let (st1, ord) = st.call(Shim::StrOrder, seq![a, b]);
        lemma_emit(p, f, st1, InstV::IntTest(relation_of(op), ord, 0));
    }
}

proof fn lemma_same(p: ProgramV, f: FunctionV, st: Tr, a: Reg, b: Reg, r: Repr)
    requires
        typed(p, f, st),
        is_ty(p, f, st, a, register_ty(r)),
        is_ty(p, f, st, b, register_ty(r)),
    ensures
        ({
            let (st1, eq) = match r {
                Repr::Number => st.emit(InstV::FloatTest(Relation::Equal, a, b)),
                Repr::Bool => st.emit(InstV::IntEqual(a, b)),
                _ => st.call(Shim::ValueEq, seq![a, b]),
            };
            keeps(p, f, st, st1) && is_ty(p, f, st1, eq, ClifTy::I8)
        }),
{
    match r {
        Repr::Number => lemma_emit(p, f, st, InstV::FloatTest(Relation::Equal, a, b)),
        Repr::Bool => lemma_emit(p, f, st, InstV::IntEqual(a, b)),
        _ => lemma_call(p, f, st, Shim::ValueEq, seq![a, b]),
    }
}

proof fn lemma_equality(p: ProgramV, f: FunctionV, st: Tr, op: BinOp, a: Reg, b: Reg, r: Repr)
    requires
        typed(p, f, st),
        is_ty(p, f, st, a, register_ty(r)),
        is_ty(p, f, st, b, register_ty(r)),
    ensures
        keeps(p, f, st, x_equality(st, op, a, b, r).0),
        is_ty(p, f, x_equality(st, op, a, b, r).0, x_equality(st, op, a, b, r).1, ClifTy::I8),
{
    reveal(x_equality);
    lemma_same(p, f, st, a, b, r);
    let (st1, eq) = match r {
        Repr::Number => st.emit(InstV::FloatTest(Relation::Equal, a, b)),
        Repr::Bool => st.emit(InstV::IntEqual(a, b)),
        _ => st.call(Shim::ValueEq, seq![a, b]),
    };
    if op != BinOp::Eq {
        lemma_emit(p, f, st1, InstV::IntTest(Relation::Equal, eq, 0));
    }
}

proof fn lemma_truthy(p: ProgramV, f: FunctionV, st: Tr, v: ValueId)
    requires
        typed(p, f, st),
    ensures
        x_truthy(f, st, v) matches Ok((st1, r)) ==> keeps(p, f, st, st1) && is_ty(
            p,
            f,
            st1,
            r,
            ClifTy::I8,
        ),
{
    reveal(x_truthy);
    lemma_reg(p, f, st, v);
    match (repr_at(f, v), reg_of(st, v)) {
        (Ok(Repr::Number), _) => lemma_emit(p, f, st, InstV::Int(ClifTy::I8, 1)),
        (Ok(Repr::Bool), _) => {},
        (Ok(_), Ok(r)) => lemma_call(p, f, st, Shim::Truthy, seq![r]),
        _ => {},
    }
}

proof fn lemma_binary(p: ProgramV, f: FunctionV, st: Tr, op: BinOp, l: ValueId, r: ValueId)
    requires
        typed(p, f, st),
    ensures
        x_binary(f, st, op, l, r) matches Ok((st1, x)) ==> keeps(p, f, st, st1) && is_ty(
            p,
            f,
            st1,
            x,
            register_ty(result_class(p, f, OpV::Binary(op, l, r), None)),
        ),
{
    reveal(x_binary);
    let c = match op {
        BinOp::Add | BinOp::Sub | BinOp::Mul | BinOp::Div | BinOp::FloorDiv | BinOp::Mod
        | BinOp::Pow => Repr::Number,
        BinOp::Lt | BinOp::Le | BinOp::Gt | BinOp::Ge => order_class(f, l, r),
        BinOp::Eq | BinOp::Ne => common_class(f, l, r),
        _ => Repr::Ptr,
    };
    lemma_both(p, f, st, l, c, r, c);
    match x_both(f, st, l, c, r, c) {
        Ok((st1, (a, b))) => match op {
            BinOp::Add | BinOp::Sub | BinOp::Mul | BinOp::Div | BinOp::FloorDiv | BinOp::Mod
            | BinOp::Pow => lemma_arith(p, f, st1, op, a, b),
            BinOp::Concat => lemma_call(p, f, st1, Shim::Concat, seq![a, b]),
            BinOp::Lt | BinOp::Le | BinOp::Gt | BinOp::Ge => {
                lemma_ordering(p, f, st1, op, a, b, c);
            },
            BinOp::Eq | BinOp::Ne => lemma_equality(p, f, st1, op, a, b, c),
            _ => {},
        },
        Err(_) => {},
    }
}

proof fn lemma_unary(p: ProgramV, f: FunctionV, st: Tr, op: UnOp, v: ValueId)
    requires
        typed(p, f, st),
    ensures
        x_unary(f, st, op, v) matches Ok((st1, x)) ==> keeps(p, f, st, st1) && is_ty(
            p,
            f,
            st1,
            x,
            register_ty(result_class(p, f, OpV::Unary(op, v), None)),
        ),
{
    lemma_truthy(p, f, st, v);
    lemma_as(p, f, st, v, Repr::Number);
    lemma_as(p, f, st, v, Repr::Ptr);
    match op {
        UnOp::Neg => match x_as(f, st, v, Repr::Number) {
            Ok((st1, a)) => lemma_emit(p, f, st1, InstV::Float1(Float1::Neg, a)),
            Err(_) => {},
        },
        UnOp::Not => match x_truthy(f, st, v) {
            Ok((st1, a)) => lemma_emit(p, f, st1, InstV::IntTest(Relation::Equal, a, 0)),
            Err(_) => {},
        },
        UnOp::Len => match x_as(f, st, v, Repr::Ptr) {
            Ok((st1, a)) => lemma_call(p, f, st1, Shim::Len, seq![a]),
            Err(_) => {},
        },
    }
}

/// The operations on one value and the constants.
proof fn lemma_simple(p: ProgramV, f: FunctionV, st: Tr, op: OpV, dest: Option<ValueId>)
    requires
        typed(p, f, st),
        op is ConstNil || op is ConstBool || op is ConstNumber || op is ConstString || op is Unary
            || op is Truthy || op is LocalGet || op is LocalSet,
    ensures
        yields(p, f, st, translate_op_of(p, f, st, op, dest), result_class(p, f, op, dest)),
{
    reveal(translate_op_of);
    match op {
        OpV::ConstNil => lemma_emit(p, f, st, InstV::Int(ClifTy::I64, 0)),
        OpV::ConstBool(b) => {
            lemma_emit(p, f, st, InstV::Int(ClifTy::I8, 1));
            lemma_emit(p, f, st, InstV::Int(ClifTy::I8, 0));
        },
        OpV::ConstNumber(n) => lemma_emit(p, f, st, InstV::Float(n)),
        OpV::ConstString(s) => {
            reveal(Tr::string);
            let (st1, idx) = st.string(s);
            lemma_pooled(p, f, st, st1);
            lemma_index(p, f, st1, idx);
            let (st2, n) = st1.index(idx);
            lemma_call(p, f, st2, Shim::ConstString, seq![n]);
        },
        OpV::Unary(u, v) => lemma_unary(p, f, st, u, v),
        OpV::Truthy(v) => lemma_truthy(p, f, st, v),
        OpV::LocalGet(id) => {
            reveal(x_local);
            if is_var(f, id) {
                lemma_emit(p, f, st, InstV::GetVar(id));
            }
        },
        OpV::LocalSet(id, v) => {
            reveal(x_local);
            if is_var(f, id) {
                let to = repr_of(f.locals[id]);
                lemma_as(p, f, st, v, to);
                match x_as(f, st, v, to) {
                    Ok((st1, x)) => lemma_emit(p, f, st1, InstV::SetVar(id, x)),
                    Err(_) => {},
                }
            }
        },
        _ => {},
    }
}

proof fn lemma_push_all(p: ProgramV, f: FunctionV, st: Tr, arr: Reg, vs: Seq<ValueId>, i: int)
    requires
        typed(p, f, st),
        is_ty(p, f, st, arr, ClifTy::I64),
    ensures
        x_push_all(f, st, arr, vs, i) matches Ok((st1, _)) ==> keeps(p, f, st, st1),
    decreases vs.len() - i,
{
    unfold_x_push_all(f, st, arr, vs, i);
    if 0 <= i < vs.len() {
        lemma_boxed(p, f, st, vs[i]);
        match x_boxed(f, st, vs[i]) {
            Ok((st1, h)) => {
                lemma_kept(p, f, st, st1);
                assert(is_ty(p, f, st1, arr, ClifTy::I64));
                lemma_call(p, f, st1, Shim::ArrayPush, seq![arr, h]);
                let st2 = st1.call(Shim::ArrayPush, seq![arr, h]).0;
                lemma_kept(p, f, st1, st2);
                assert(is_ty(p, f, st2, arr, ClifTy::I64));
                lemma_push_all(p, f, st2, arr, vs, i + 1);
            },
            Err(_) => {},
        }
    }
}

proof fn lemma_set_all(
    p: ProgramV,
    f: FunctionV,
    st: Tr,
    tbl: Reg,
    pairs: Seq<(Seq<char>, ValueId)>,
    i: int,
)
    requires
        typed(p, f, st),
        is_ty(p, f, st, tbl, ClifTy::I64),
    ensures
        x_set_all(f, st, tbl, pairs, i) matches Ok((st1, _)) ==> keeps(p, f, st, st1),
    decreases pairs.len() - i,
{
    unfold_x_set_all(f, st, tbl, pairs, i);
    if 0 <= i < pairs.len() {
        reveal(Tr::name);
        let (st1, idx) = st.name(pairs[i].0);
        lemma_pooled(p, f, st, st1);
        lemma_kept(p, f, st, st1);
        assert(is_ty(p, f, st1, tbl, ClifTy::I64));
        lemma_index(p, f, st1, idx);
        let (st2, n) = st1.index(idx);
        lemma_kept(p, f, st1, st2);
        assert(is_ty(p, f, st2, tbl, ClifTy::I64));
        lemma_boxed(p, f, st2, pairs[i].1);
        match x_boxed(f, st2, pairs[i].1) {
            Ok((st3, h)) => {
                lemma_kept(p, f, st2, st3);
                assert(is_ty(p, f, st3, tbl, ClifTy::I64) && is_ty(p, f, st3, n, ClifTy::I32));
                lemma_call(p, f, st3, Shim::FieldSet, seq![tbl, n, h]);
                let st4 = st3.call(Shim::FieldSet, seq![tbl, n, h]).0;
                lemma_kept(p, f, st3, st4);
                assert(is_ty(p, f, st4, tbl, ClifTy::I64));
                lemma_set_all(p, f, st4, tbl, pairs, i + 1);
            },
            Err(_) => {},
        }
    }
}

proof fn lemma_read(p: ProgramV, f: FunctionV, st: Tr, op: OpV, dest: Option<ValueId>)
    requires
        typed(p, f, st),
    ensures
        yields(p, f, st, x_read(f, st, op, dest), result_class(p, f, op, dest)),
{
    reveal(x_read);
    match op {
        OpV::ArrayGet(base, idx) => {
            lemma_both(p, f, st, base, Repr::Ptr, idx, Repr::Number);
            match x_both(f, st, base, Repr::Ptr, idx, Repr::Number) {
                Ok((st0, (b, i))) => {
                    lemma_call(p, f, st0, Shim::ArrayGet, seq![b, i]);
                    let (st1, h) = st0.call(Shim::ArrayGet, seq![b, i]);
                    lemma_result(p, f, st1, h, dest);
                },
                Err(_) => {},
            }
        },
        OpV::MapGet(base, key) => {
            lemma_both(p, f, st, base, Repr::Ptr, key, Repr::Ptr);
            match x_both(f, st, base, Repr::Ptr, key, Repr::Ptr) {
                Ok((st0, (b, k))) => {
                    lemma_call(p, f, st0, Shim::MapGet, seq![b, k]);
                    let (st1, h) = st0.call(Shim::MapGet, seq![b, k]);
                    lemma_result(p, f, st1, h, dest);
                },
                Err(_) => {},
            }
        },
        OpV::FieldGet(base, name) => {
            lemma_as(p, f, st, base, Repr::Ptr);
            match x_as(f, st, base, Repr::Ptr) {
                Ok((st0, b)) => {
                    reveal(Tr::name);
                    let (st1, idx) = st0.name(name);
                    lemma_pooled(p, f, st0, st1);
                    lemma_index(p, f, st1, idx);
                    let (st2, n) = st1.index(idx);
                    lemma_kept(p, f, st0, st2);
                    assert(is_ty(p, f, st2, b, ClifTy::I64));
                    lemma_call(p, f, st2, Shim::FieldGet, seq![b, n]);
                    let (st3, h) = st2.call(Shim::FieldGet, seq![b, n]);
                    lemma_result(p, f, st3, h, dest);
                },
                Err(_) => {},
            }
        },
        OpV::MapKeys(base) => {
            lemma_as(p, f, st, base, Repr::Ptr);
            match x_as(f, st, base, Repr::Ptr) {
                Ok((st0, b)) => lemma_call(p, f, st0, Shim::MapKeys, seq![b]),
                Err(_) => {},
            }
        },
        OpV::MemoryRef(name) => {
            reveal(Tr::memory);
            let (st1, idx) = st.memory(name);
            lemma_pooled(p, f, st, st1);
            lemma_index(p, f, st1, idx);
            let (st2, n) = st1.index(idx);
            lemma_call(p, f, st2, Shim::MemoryRef, seq![n]);
            let (st3, h) = st2.call(Shim::MemoryRef, seq![n]);
            lemma_result(p, f, st3, h, dest);
        },
        OpV::NamespaceField(ns, field) => {
            reveal(Tr::namespace_field);
            let (st1, idx) = st.namespace_field(ns, field);
            lemma_pooled(p, f, st, st1);
            lemma_index(p, f, st1, idx);
            let (st2, n) = st1.index(idx);
            lemma_call(p, f, st2, Shim::NamespaceField, seq![n]);
            let (st3, h) = st2.call(Shim::NamespaceField, seq![n]);
            lemma_result(p, f, st3, h, dest);
        },
        OpV::CellGet(cell) => {
            lemma_as(p, f, st, cell, Repr::Ptr);
            match x_as(f, st, cell, Repr::Ptr) {
                Ok((st0, c)) => {
                    lemma_call(p, f, st0, Shim::CellGet, seq![c]);
                    let (st1, h) = st0.call(Shim::CellGet, seq![c]);
                    lemma_result(p, f, st1, h, dest);
                },
                Err(_) => {},
            }
        },
        OpV::ClosureEnvGet(clo, i) => {
            lemma_as(p, f, st, clo, Repr::Ptr);
            match x_as(f, st, clo, Repr::Ptr) {
                Ok((st0, c)) => {
                    lemma_index(p, f, st0, i);
                    let (st1, n) = st0.index(i);
                    lemma_kept(p, f, st0, st1);
                    assert(is_ty(p, f, st1, c, ClifTy::I64));
                    lemma_call(p, f, st1, Shim::ClosureEnvGet, seq![c, n]);
                },
                Err(_) => {},
            }
        },
        _ => {},
    }
}

proof fn lemma_write(p: ProgramV, f: FunctionV, st: Tr, op: OpV)
    requires
        typed(p, f, st),
    ensures
        x_write(f, st, op) matches Ok((st1, r)) ==> keeps(p, f, st, st1) && r is None,
{
    reveal(x_write);
    match op {
        OpV::ArraySet(base, idx, v) => {
            lemma_both(p, f, st, base, Repr::Ptr, idx, Repr::Number);
            match x_both(f, st, base, Repr::Ptr, idx, Repr::Number) {
                Ok((st0, (b, i))) => {
                    lemma_boxed(p, f, st0, v);
                    match x_boxed(f, st0, v) {
                        Ok((st1, h)) => {
                            lemma_kept(p, f, st0, st1);
                            assert(is_ty(p, f, st1, b, ClifTy::I64));
                            assert(is_ty(p, f, st1, i, ClifTy::F64));
                            lemma_call(p, f, st1, Shim::ArraySet, seq![b, i, h]);
                        },
                        Err(_) => {},
                    }
                },
                Err(_) => {},
            }
        },
        OpV::MapSet(base, key, v) => {
            lemma_both(p, f, st, base, Repr::Ptr, key, Repr::Ptr);
            match x_both(f, st, base, Repr::Ptr, key, Repr::Ptr) {
                Ok((st0, (b, k))) => {
                    lemma_boxed(p, f, st0, v);
                    match x_boxed(f, st0, v) {
                        Ok((st1, h)) => {
                            lemma_kept(p, f, st0, st1);
                            assert(is_ty(p, f, st1, b, ClifTy::I64));
                            assert(is_ty(p, f, st1, k, ClifTy::I64));
                            lemma_call(p, f, st1, Shim::MapSet, seq![b, k, h]);
                        },
                        Err(_) => {},
                    }
                },
                Err(_) => {},
            }
        },
        OpV::FieldSet(base, name, v) => {
            lemma_as(p, f, st, base, Repr::Ptr);
            match x_as(f, st, base, Repr::Ptr) {
                Ok((st0, b)) => {
                    reveal(Tr::name);
                    let (st1, idx) = st0.name(name);
                    lemma_pooled(p, f, st0, st1);
                    lemma_index(p, f, st1, idx);
                    let (st2, n) = st1.index(idx);
                    lemma_boxed(p, f, st2, v);
                    match x_boxed(f, st2, v) {
                        Ok((st3, h)) => {
                            lemma_kept(p, f, st0, st3);
                            lemma_kept(p, f, st2, st3);
                            assert(is_ty(p, f, st3, b, ClifTy::I64));
                            assert(is_ty(p, f, st3, n, ClifTy::I32));
                            lemma_call(p, f, st3, Shim::FieldSet, seq![b, n, h]);
                        },
                        Err(_) => {},
                    }
                },
                Err(_) => {},
            }
        },
        OpV::CellSet(cell, v) => {
            lemma_as(p, f, st, cell, Repr::Ptr);
            match x_as(f, st, cell, Repr::Ptr) {
                Ok((st0, c)) => {
                    lemma_boxed(p, f, st0, v);
                    match x_boxed(f, st0, v) {
                        Ok((st1, h)) => {
                            lemma_kept(p, f, st0, st1);
                            assert(is_ty(p, f, st1, c, ClifTy::I64));
                            lemma_call(p, f, st1, Shim::CellSet, seq![c, h]);
                        },
                        Err(_) => {},
                    }
                },
                Err(_) => {},
            }
        },
        _ => {},
    }
}

proof fn lemma_make(p: ProgramV, f: FunctionV, st: Tr, op: OpV)
    requires
        typed(p, f, st),
    ensures
        yields(p, f, st, x_make(f, st, op), Repr::Ptr),
{
    reveal(x_make);
    match op {
        OpV::MakeArray(vs) => {
            lemma_index(p, f, st, vs.len() as u32);
            let (st1, cap) = st.index(vs.len() as u32);
            lemma_call(p, f, st1, Shim::ArrayNew, seq![cap]);
            let (st2, arr) = st1.call(Shim::ArrayNew, seq![cap]);
            lemma_push_all(p, f, st2, arr, vs, 0);
            match x_push_all(f, st2, arr, vs, 0) {
                Ok((st3, _)) => {
                    lemma_kept(p, f, st2, st3);
                    assert(is_ty(p, f, st3, arr, ClifTy::I64));
                },
                Err(_) => {},
            }
        },
        OpV::MakeTable(pairs) => {
            lemma_call(p, f, st, Shim::TableNew, Seq::empty());
            let (st1, tbl) = st.call(Shim::TableNew, Seq::empty());
            lemma_set_all(p, f, st1, tbl, pairs, 0);
            match x_set_all(f, st1, tbl, pairs, 0) {
                Ok((st2, _)) => {
                    lemma_kept(p, f, st1, st2);
                    assert(is_ty(p, f, st2, tbl, ClifTy::I64));
                },
                Err(_) => {},
            }
        },
        OpV::MakeCell(v) => {
            lemma_boxed(p, f, st, v);
            match x_boxed(f, st, v) {
                Ok((st1, h)) => lemma_call(p, f, st1, Shim::CellNew, seq![h]),
                Err(_) => {},
            }
        },
        OpV::MakeClosure(name, cells) => {
            reveal(Tr::closure_name);
            let (st1, id) = st.closure_name(name);
            lemma_pooled(p, f, st, st1);
            lemma_index(p, f, st1, id);
            let (st2, idc) = st1.index(id);
            assert(are_ty(p, f, st2, Seq::empty(), words(0))) by {
                reveal(are_ty);
            }
            lemma_handles(p, f, st2, cells, 0, Seq::empty());
            match x_args(f, st2, cells, Seq::empty(), 0, Seq::empty()) {
                Ok((st3, rs)) => {
                    lemma_arg_array(p, f, st3, rs);
                    let (st4, (base, argc)) = st3.arg_array(rs);
                    lemma_kept(p, f, st2, st4);
                    assert(is_ty(p, f, st4, idc, ClifTy::I32));
                    lemma_call(p, f, st4, Shim::ClosureNew, seq![idc, base, argc]);
                },
                Err(_) => {},
            }
        },
        _ => {},
    }
}

proof fn lemma_runtime_call(
    p: ProgramV,
    f: FunctionV,
    st: Tr,
    shim: Shim,
    id: u32,
    args: Seq<ValueId>,
    dest: Option<ValueId>,
)
    requires
        typed(p, f, st),
        shim == Shim::CallHost || shim == Shim::CallBuiltinValue || shim == Shim::CallBuiltinMember,
    ensures
        dest_repr(f, dest) matches Ok(r) ==> yields(
            p,
            f,
            st,
            x_runtime_call(f, st, shim, id, args, dest),
            r,
        ),
        dest_repr(f, dest) is Err ==> x_runtime_call(f, st, shim, id, args, dest) is Err,
{
    reveal(x_runtime_call);
    assert(are_ty(p, f, st, Seq::empty(), words(0))) by {
        reveal(are_ty);
    }
    lemma_boxed_all(p, f, st, args, 0, Seq::empty());
    match x_boxed_all(f, st, args, 0, Seq::empty()) {
        Ok((st1, rs)) => {
            lemma_arg_array(p, f, st1, rs);
            let (st2, (base, argc)) = st1.arg_array(rs);
            lemma_index(p, f, st2, id);
            let (st3, idc) = st2.index(id);
            lemma_kept(p, f, st2, st3);
            assert(is_ty(p, f, st3, base, ClifTy::I64) && is_ty(p, f, st3, argc, ClifTy::I32));
            lemma_call(p, f, st3, shim, seq![idc, base, argc]);
            let (st4, h) = st3.call(shim, seq![idc, base, argc]);
            lemma_result(p, f, st4, h, dest);
        },
        Err(_) => {},
    }
}

proof fn lemma_guarded(p: ProgramV, f: FunctionV, st: Tr)
    requires
        typed(p, f, st),
    ensures
        keeps(p, f, st, st.guarded()),
{
    reveal(Tr::guarded);
    lemma_call(p, f, st, Shim::Errored, Seq::empty());
    let (st1, e) = st.call(Shim::Errored, Seq::empty());
    lemma_emit(p, f, st1, InstV::Guard(e));
}

proof fn lemma_calls(p: ProgramV, f: FunctionV, st: Tr, op: OpV, dest: Option<ValueId>)
    requires
        typed(p, f, st),
    ensures
        yields(p, f, st, x_call(p, f, st, op, dest), result_class(p, f, op, dest)),
{
    reveal(x_call);
    match op {
        OpV::CallScript(name, args) => match get_of(p.functions, name) {
            Some(g) => if !g.is_closure && args.len() == g.params.len() {
                let want = param_classes(g);
                assert(are_ty(p, f, st, Seq::empty(), clif_tys(want, 0))) by {
                    reveal(are_ty);
                }
                lemma_args(p, f, st, args, want, 0, Seq::empty());
                match x_args(f, st, args, want, 0, Seq::empty()) {
                    Ok((st0, rs)) => lemma_emit(p, f, st0, InstV::CallScript(name, rs)),
                    Err(_) => {},
                }
            },
            None => {},
        },
        OpV::ConstRef(name) => match get_of(p.constants, name) {
            Some(c) => if repr_of(c.ret) == Repr::Ptr {
                reveal(Tr::constant);
                let (st1, idx) = st.constant(name);
                lemma_pooled(p, f, st, st1);
                lemma_index(p, f, st1, idx);
                let (st2, n) = st1.index(idx);
                lemma_call(p, f, st2, Shim::ConstRef, seq![n]);
            } else {
                lemma_emit(p, f, st, InstV::CallConst(name));
            },
            None => {},
        },
        OpV::CallHost(name, args) => {
            reveal(Tr::host);
            let (st1, id) = st.host(name);
            lemma_pooled(p, f, st, st1);
            lemma_runtime_call(p, f, st1, Shim::CallHost, id, args, dest);
        },
        OpV::CallBuiltinValue(ns, args) => {
            reveal(Tr::builtin_value);
            let (st1, id) = st.builtin_value(ns);
            lemma_pooled(p, f, st, st1);
            lemma_runtime_call(p, f, st1, Shim::CallBuiltinValue, id, args, dest);
        },
        OpV::CallBuiltinMember(ns, member, args) => if is_native(f, ns, member, args, dest) {
            lemma_reg(p, f, st, args[0]);
            match reg_of(st, args[0]) {
                Ok(a) => lemma_emit(p, f, st, InstV::Float1(native_math(member)->0, a)),
                Err(_) => {},
            }
        } else {
            reveal(Tr::builtin_member);
            let (st1, id) = st.builtin_member(ns, member);
            lemma_pooled(p, f, st, st1);
            lemma_runtime_call(p, f, st1, Shim::CallBuiltinMember, id, args, dest);
        },
        OpV::CallValue(callee, args) => {
            lemma_as(p, f, st, callee, Repr::Ptr);
            reveal(x_as);
            match x_as(f, st, callee, Repr::Ptr) {
                Ok((st2, clo)) => {
                    lemma_call(p, f, st2, Shim::ClosureCodeAddr, seq![clo]);
                    let (st0, addr) = st2.call(Shim::ClosureCodeAddr, seq![clo]);
                    lemma_guarded(p, f, st0);
                    let st1 = st0.guarded();
                    let (params, ret) = closure_classes(f.values[callee as int]);
                    if args.len() == params.len() {
                        assert(are_ty(p, f, st1, Seq::empty(), clif_tys(params, 0))) by {
                            reveal(are_ty);
                        }
                        lemma_args(p, f, st1, args, params, 0, Seq::empty());
                        match x_args(f, st1, args, params, 0, Seq::empty()) {
                            Ok((st3, rs)) => {
                                lemma_kept(p, f, st2, st3);
                                lemma_kept(p, f, st0, st3);
                                assert(is_ty(p, f, st3, clo, ClifTy::I64));
                                assert(is_ty(p, f, st3, addr, ClifTy::I64));
                                lemma_emit(
                                    p,
                                    f,
                                    st3,
                                    InstV::CallClosure { addr, env: clo, params, ret, args: rs },
                                );
                            },
                            Err(_) => {},
                        }
                    }
                },
                Err(_) => {},
            }
        },
        _ => {},
    }
}

proof fn lemma_op(p: ProgramV, f: FunctionV, st: Tr, op: OpV, dest: Option<ValueId>)
    requires
        typed(p, f, st),
    ensures
        yields(p, f, st, translate_op_of(p, f, st, op, dest), result_class(p, f, op, dest)),
{
    reveal(translate_op_of);
    match op {
        OpV::Binary(b, l, r) => lemma_binary(p, f, st, b, l, r),
        OpV::ConstNil | OpV::ConstBool(_) | OpV::ConstNumber(_) | OpV::ConstString(_)
        | OpV::LocalGet(_) | OpV::LocalSet(_, _) | OpV::Unary(_, _) | OpV::Truthy(_) => {
            lemma_simple(p, f, st, op, dest);
        },
        OpV::MakeArray(_) | OpV::MakeTable(_) | OpV::MakeCell(_) | OpV::MakeClosure(_, _) => {
            lemma_make(p, f, st, op);
        },
        OpV::ArraySet(_, _, _) | OpV::MapSet(_, _, _) | OpV::FieldSet(_, _, _)
        | OpV::CellSet(_, _) => lemma_write(p, f, st, op),
        OpV::CallScript(_, _) | OpV::CallHost(_, _) | OpV::CallBuiltinValue(_, _)
        | OpV::CallBuiltinMember(_, _, _) | OpV::ConstRef(_) | OpV::CallValue(_, _) => {
            lemma_calls(p, f, st, op, dest);
        },
        _ => lemma_read(p, f, st, op, dest),
    }
}

// ---- functions ------------------------------------------------------------------------

/// Whether `b` has the instructions of `a` first.
spec fn longer(a: Tr, b: Tr) -> bool {
    &&& a.insts.len() <= b.insts.len()
    &&& forall|k: int| 0 <= k < a.insts.len() ==> b.insts[k] == #[trigger] a.insts[k]
}

proof fn lemma_define(p: ProgramV, f: FunctionV, st: Tr, d: ValueId, r: Reg)
    requires
        typed(p, f, st),
        d < f.values.len(),
        is_ty(p, f, st, r, register_ty(repr_of(f.values[d as int]))),
    ensures
        typed(p, f, st.define(d, r)),
        longer(st, st.define(d, r)),
{
    reveal(typed);
    reveal(is_ty);
    reveal(Tr::define);
    let b = st.define(d, r);
    if small(st) {
        assert forall|v: int| 0 <= v < b.ssa.len() && (#[trigger] b.ssa[v]) is Some implies v
            < f.values.len() && ty_at(p, f, b.insts, b.ssa[v]->0) == Some(
            register_ty(repr_of(f.values[v])),
        ) by {
            if v != d {
                assert(b.ssa[v] == st.ssa[v]);
            }
        }
    }
}

proof fn lemma_instr(p: ProgramV, f: FunctionV, st: Tr, i: InstrV)
    requires
        typed(p, f, st),
    ensures
        x_instr(p, f, st, i) matches Ok((st1, _)) ==> typed(p, f, st1) && longer(st, st1),
{
    reveal(x_instr);
    reveal(x_settled);
    reveal(x_define);
    reveal(Tr::guarded_since);
    let class = result_class(p, f, i.op, i.dest);
    lemma_op(p, f, st, i.op, i.dest);
    match translate_op_of(p, f, st, i.op, i.dest) {
        Ok((st0, r)) => {
            let n = st.insts.len() as int;
            match i.dest {
                Some(d) => if d < f.values.len() {
                    let to = repr_of(f.values[d as int]);
                    let (st1, x) = match r {
                        Some(x) => st0.coerced(x, class, to),
                        None => {
                            let (z0, z) = st0.emit(InstV::Int(ClifTy::I64, 0));
                            z0.coerced(z, Repr::Unit, to)
                        },
                    };
                    match r {
                        Some(y) => lemma_coerced(p, f, st0, y, class, to),
                        None => {
                            lemma_emit(p, f, st0, InstV::Int(ClifTy::I64, 0));
                            let (z0, z) = st0.emit(InstV::Int(ClifTy::I64, 0));
                            lemma_coerced(p, f, z0, z, Repr::Unit, to);
                        },
                    }
                    lemma_guarded(p, f, st1);
                    let st2 = st1.guarded_since(n);
                    lemma_kept(p, f, st1, st2);
                    assert(is_ty(p, f, st2, x, register_ty(to)));
                    lemma_define(p, f, st2, d, x);
                },
                None => lemma_guarded(p, f, st0),
            }
        },
        Err(_) => {},
    }
}

proof fn lemma_instrs(p: ProgramV, f: FunctionV, st: Tr, is: Seq<InstrV>, k: int)
    requires
        typed(p, f, st),
        0 <= k,
    ensures
        x_instrs(p, f, st, is, k) matches Ok((st1, _)) ==> typed(p, f, st1) && longer(st, st1),
    decreases is.len() - k,
{
    unfold_x_instrs(p, f, st, is, k);
    if k < is.len() {
        lemma_instr(p, f, st, is[k]);
        match x_instr(p, f, st, is[k]) {
            Ok((st1, _)) => lemma_instrs(p, f, st1, is, k + 1),
            Err(_) => {},
        }
    }
}

proof fn lemma_term(p: ProgramV, f: FunctionV, st: Tr, t: Terminator, idx: int)
    requires
        typed(p, f, st),
    ensures
        x_term(f, st, t, idx) matches Ok((st1, e)) ==> keeps(p, f, st, st1) && (small(st1)
            ==> end_takes(p, f, st1.insts, e)),
{
    reveal(x_term);
    reveal(is_ty);
    match t {
        Terminator::Return(Some(v)) => {
            lemma_as(p, f, st, v, repr_of(f.ret));
        },
        Terminator::Jump(b) => lemma_call(p, f, st, Shim::Errored, Seq::empty()),
        Terminator::Branch { cond, then_blk, else_blk } => lemma_truthy(p, f, st, cond),
        _ => {},
    }
}

proof fn lemma_blocks(p: ProgramV, f: FunctionV, st: Tr, idx: int, acc: Seq<MachineBlock>)
    requires
        typed(p, f, st),
        0 <= idx,
        small(st) ==> forall|i: int|
            0 <= i < acc.len() ==> end_takes(p, f, st.insts, (#[trigger] acc[i]).term),
    ensures
        x_blocks(p, f, st, idx, acc) matches Ok((st1, blocks)) ==> typed(p, f, st1) && (small(st1)
            ==> forall|i: int|
            0 <= i < blocks.len() ==> end_takes(p, f, st1.insts, (#[trigger] blocks[i]).term)),
    decreases f.blocks.len() - idx,
{
    unfold_x_blocks(p, f, st, idx, acc);
    if idx < f.blocks.len() {
        let b = f.blocks[idx];
        lemma_instrs(p, f, st, b.instrs, 0);
        match x_instrs(p, f, st, b.instrs, 0) {
            Ok((st1, _)) => {
                lemma_term(p, f, st1, b.term, idx);
                match x_term(f, st1, b.term, idx) {
                    Ok((st2, term)) => {
                        let end = MachineBlock { end: st2.insts.len() as usize, term };
                        let all = acc.push(end);
                        if small(st2) {
                            assert forall|i: int| 0 <= i < all.len() implies end_takes(
                                p,
                                f,
                                st2.insts,
                                (#[trigger] all[i]).term,
                            ) by {
                                if i < acc.len() {
                                    assert(all[i] == acc[i]);
                                    assert(end_takes(p, f, st.insts, acc[i].term));
                                }
                            }
                        }
                        lemma_blocks(p, f, st2, idx + 1, all);
                    },
                    Err(_) => {},
                }
            },
            Err(_) => {},
        }
    }
}

/// The translation of an instruction adds to the code, and changes nothing in it.
pub(crate) proof fn lemma_instr_adds(p: ProgramV, f: FunctionV, st: Tr, i: InstrV)
    requires
        typed(p, f, st),
    ensures
        x_instr(p, f, st, i) matches Ok((st1, _)) ==> typed(p, f, st1) && st.insts.len()
            <= st1.insts.len() && forall|k: int|
            0 <= k < st.insts.len() ==> st1.insts[k] == #[trigger] st.insts[k],
{
    lemma_instr(p, f, st, i);
}

/// So does that of a terminator.
pub(crate) proof fn lemma_term_adds(p: ProgramV, f: FunctionV, st: Tr, t: Terminator, idx: int)
    requires
        typed(p, f, st),
    ensures
        x_term(f, st, t, idx) matches Ok((st1, _)) ==> typed(p, f, st1) && st.insts.len()
            <= st1.insts.len() && forall|k: int|
            0 <= k < st.insts.len() ==> st1.insts[k] == #[trigger] st.insts[k],
{
    lemma_term(p, f, st, t, idx);
}

/// A translation starts with no code.
pub(crate) proof fn lemma_start_typed(p: ProgramV, f: FunctionV, st: Tr)
    requires
        st.insts.len() == 0,
        st.ssa == Seq::new(f.values.len(), |i: int| None::<Reg>),
    ensures
        typed(p, f, st),
{
    reveal(typed);
}

/// Every value of the function has its place.
pub(crate) proof fn lemma_typed_len(p: ProgramV, f: FunctionV, st: Tr)
    requires
        typed(p, f, st),
    ensures
        st.ssa.len() == f.values.len(),
{
    reveal(typed);
}

/// In the machine code of a function every operand has the type that its instruction takes:
/// floats go to float instructions, runtime functions get arguments of their signatures, script
/// functions and closures those of their parameters, and a result has the type that the
/// function returns.
pub proof fn law_code_is_typed(p: ProgramV, f: FunctionV, pools: PoolsV)
    ensures
        machine_code_of(p, f, pools) matches Ok((c, _)) ==> c.insts.len() <= usize::MAX
            ==> code_typed(p, f, c),
{
    let none: Seq<Option<Reg>> = Seq::new(f.values.len(), |i: int| None);
    let st = Tr { pools, insts: Seq::empty(), ssa: none };
    lemma_start_typed(p, f, st);
    lemma_blocks(p, f, st, 0, Seq::empty());
    assert(Tr { pools, insts: Seq::empty(), ssa: Seq::new(f.values.len(), |i: int| None) } == st);
    reveal(typed);
}

} // verus!
