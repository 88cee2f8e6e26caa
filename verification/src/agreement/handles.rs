//! Compiled code agrees with the machine on every instruction that does not call: the code that
//! the instruction becomes leaves the value that the machine gets, and the same objects.

use vstd::prelude::*;
use vstd::utf8::encode_utf8;

use super::compiled::{class_of, float1, float2, relates};
use super::native::{arith, begun, coherent, is_arith, number};
use super::{effect_meaning, Answers};
use crate::ast::{BinOp, UnOp};
use crate::codegen::rt::{
    fits_repr, interned_in, law_interning, unbox_error, CtxV, Handle, NIL, PoolsV,
};
use crate::codegen::translate::{
    any_fallible, is_numeric, is_var, relation_of, result_class, translate_op_of, unfold_x_push_all,
    unfold_x_set_all, x_arith, x_as, x_binary, x_both, x_boxed, x_define, x_equality, x_instr,
    x_local, x_make, x_ordering, x_push_all, x_read, x_result, x_set_all, x_settled, x_truthy,
    x_write, ClifTy, Float1, InstV, JitErrorV, Reg, Relation, Shim, Tr,
};
use crate::ir::vm;
use crate::ir::vm::{FrameV, VmV};
use crate::ir::{FunctionV, InstrV, LocalId, OpV, ProgramV, ValueId};
use crate::names::key_lt;
use crate::number::{index_of, is_nan, order_of};
use crate::runtime::eval::{field_value_of, RequestV};
use crate::runtime::repr::{repr_of, Repr};
use crate::value::{
    array_at, cell_at, closure_at, field_read, is_frozen, key_values, same_value, table_at,
    table_written, truthy, HeapV, ObjV, RunErrorV, ValueV,
};

verus! {

// ---- what instructions do ----------------------------------------------------------------

/// Compiled code under way: the results of its instructions, its variables, and the context of
/// the runtime.
pub ghost struct Running {
    pub regs: Map<int, int>,
    pub vars: Map<LocalId, int>,
    pub ctx: CtxV,
}

impl Running {
    pub open spec fn put(self, at: int, w: int) -> Running {
        Running { regs: self.regs.insert(at, w), ..self }
    }

    pub open spec fn word(self, r: Reg) -> int {
        self.regs[r as int]
    }
}

pub open spec fn truth(b: bool) -> int {
    if b {
        1
    } else {
        0
    }
}

/// Whether a relation holds between two integers.
pub open spec fn int_relates(r: Relation, a: int, b: int) -> bool {
    match r {
        Relation::Equal => a == b,
        Relation::Less => a < b,
        Relation::LessEqual => a <= b,
        Relation::Greater => a > b,
        Relation::GreaterEqual => a >= b,
    }
}

/// How two texts compare: below zero where the first comes first, above where the second does.
pub open spec fn text_order(a: Seq<char>, b: Seq<char>) -> int {
    if key_lt(a, b) {
        -1
    } else if key_lt(b, a) {
        1
    } else {
        0
    }
}

pub open spec fn handed(r: (CtxV, Handle)) -> (CtxV, int) {
    (r.0, r.1 as int)
}

/// One, two and three words.
pub open spec fn words1(a: int) -> Seq<int> {
    seq![a]
}

pub open spec fn words2(a: int, b: int) -> Seq<int> {
    seq![a, b]
}

pub open spec fn words3(a: int, b: int, c: int) -> Seq<int> {
    seq![a, b, c]
}

/// What a function of the runtime does with the words that it gets; only those are told that
/// neither call nor ask.
pub open spec fn shim(o: Answers, c: CtxV, s: Shim, ws: Seq<int>) -> Option<(CtxV, int)> {
    let h = |i: int| c.at(ws[i] as u64);
    match s {
        Shim::BoxNumber => Some(handed(c.boxed(ValueV::Number(ws[0] as u64)))),
        Shim::BoxBool => Some(handed(c.boxed(ValueV::Bool(ws[0] != 0)))),
        Shim::UnboxNumber => match h(0) {
            ValueV::Number(b) => Some((c, b as int)),
            v => Some((c.failed(unbox_error("number"@, v)), 0)),
        },
        Shim::UnboxBool => match h(0) {
            ValueV::Bool(b) => Some((c, truth(b))),
            v => Some((c.failed(unbox_error("bool"@, v)), 0)),
        },
        Shim::ConstString => Some(handed(c.boxed(ValueV::Str(c.pools.strings[ws[0]])))),
        Shim::NamespaceField => {
            let (ns, field) = c.pools.namespace_fields[ws[0]];
            Some(handed(c.yielded(field_value_of(ns, field))))
        },
        Shim::ArrayNew => Some(
            handed(
                c.placed(ObjV::Array(Seq::empty()), ValueV::Array(c.heap.len() as usize)),
            ),
        ),
        Shim::TableNew => Some(
            handed(
                c.placed(ObjV::Table(Seq::empty()), ValueV::Table(c.heap.len() as usize)),
            ),
        ),
        Shim::ArrayPush => Some(
            (
                match array_at(c.heap, h(0)) {
                    Some(items) => CtxV {
                        heap: c.heap.update(
                            h(0)->Array_0 as int,
                            ObjV::Array(items.push(h(1))),
                        ),
                        ..c
                    },
                    None => c,
                },
                0,
            ),
        ),
        Shim::ArrayGet => Some(
            match (array_at(c.heap, h(0)), index_of(ws[1] as u64)) {
                (Some(items), Some(i)) => if i <= items.len() {
                    handed(c.boxed(items[i - 1]))
                } else {
                    (c, NIL as int)
                },
                _ => (c, NIL as int),
            },
        ),
        Shim::ArraySet => match array_at(c.heap, h(0)) {
            Some(items) if !is_frozen(c.frozen, h(0)) => match index_of(ws[1] as u64) {
                Some(i) => if i <= items.len() {
                    Some(
                        (
                            CtxV {
                                heap: c.heap.update(
                                    h(0)->Array_0 as int,
                                    ObjV::Array(items.update(i - 1, h(2))),
                                ),
                                ..c
                            },
                            0,
                        ),
                    )
                } else if i == items.len() + 1 {
                    Some(
                        (
                            CtxV {
                                heap: c.heap.update(
                                    h(0)->Array_0 as int,
                                    ObjV::Array(items.push(h(2))),
                                ),
                                ..c
                            },
                            0,
                        ),
                    )
                } else {
                    None
                },
                None => None,
            },
            _ => None,
        },
        Shim::MapGet => Some(
            match h(1) {
                ValueV::Str(k) => handed(c.boxed(field_read(c.heap, h(0), k))),
                _ => (c, NIL as int),
            },
        ),
        Shim::MapSet | Shim::TableSet => Some(
            (c.written(h(0), table_written(c.heap, h(0), h(1), h(2))), 0),
        ),
        Shim::FieldGet => Some(
            handed(c.boxed(field_read(c.heap, h(0), c.pools.names[ws[1]]))),
        ),
        Shim::FieldSet => Some(
            (
                c.written(
                    h(0),
                    table_written(c.heap, h(0), ValueV::Str(c.pools.names[ws[1]]), h(2)),
                ),
                0,
            ),
        ),
        Shim::MapKeys => Some(
            handed(
                c.placed(
                    ObjV::Array(
                        match table_at(c.heap, h(0)) {
                            Some(t) => key_values(t),
                            None => Seq::empty(),
                        },
                    ),
                    ValueV::Array(c.heap.len() as usize),
                ),
            ),
        ),
        Shim::Len => {
            let n = match h(0) {
                ValueV::Str(s) => encode_utf8(s).len(),
                v => match array_at(c.heap, v) {
                    Some(items) => items.len(),
                    None => 0,
                },
            };
            Some((c, number(o, RequestV::Count(n as u64)) as int))
        },
        Shim::Concat => Some(
            handed(c.boxed(ValueV::Str(c.text(ws[0] as u64) + c.text(ws[1] as u64)))),
        ),
        Shim::StrOrder => Some((c, text_order(c.text(ws[0] as u64), c.text(ws[1] as u64)))),
        Shim::ValueEq => Some((c, truth(same_value(h(0), h(1))))),
        Shim::Truthy => Some((c, truth(truthy(h(0))))),
        Shim::Pow => Some((c, arith(o, BinOp::Pow, ws[0] as u64, ws[1] as u64) as int)),
        Shim::Errored => Some((c, truth(c.error is Some))),
        Shim::CheckOrder => Some(
            (
                if is_nan(ws[0] as u64) || is_nan(ws[1] as u64) {
                    c.failed(RunErrorV::Runtime("NaN comparison"@))
                } else {
                    c
                },
                0,
            ),
        ),
        Shim::CellNew => Some(
            handed(c.placed(ObjV::Cell(h(0)), ValueV::Cell(c.heap.len() as usize))),
        ),
        Shim::CellGet => Some(
            match cell_at(c.heap, h(0)) {
                Some(v) => handed(c.boxed(v)),
                None => (c, NIL as int),
            },
        ),
        Shim::CellSet => Some(
            match cell_at(c.heap, h(0)) {
                Some(_) => (
                    CtxV { heap: c.heap.update(h(0)->Cell_0 as int, ObjV::Cell(h(1))), ..c },
                    0,
                ),
                None => (c, 0),
            },
        ),
        Shim::ClosureEnvGet => Some(
            match closure_at(c.heap, h(0)) {
                Some((_, env)) => if 0 <= ws[1] < env.len() {
                    handed(c.boxed(env[ws[1]]))
                } else {
                    (c, NIL as int)
                },
                None => (c, NIL as int),
            },
        ),
        _ => None,
    }
}

/// What the instruction at `at` does.
pub open spec fn does(o: Answers, m: Running, at: int, i: InstV) -> Option<Running> {
    match i {
        InstV::Int(_, n) => Some(m.put(at, n as int)),
        InstV::Float(n) => Some(m.put(at, number(o, RequestV::Numeral(n)) as int)),
        InstV::GetVar(id) => Some(m.put(at, m.vars[id])),
        InstV::SetVar(id, r) => Some(Running { vars: m.vars.insert(id, m.word(r)), ..m }),
        InstV::Float1(op, a) => Some(m.put(at, float1(o, op, m.word(a) as u64) as int)),
        InstV::Float2(op, a, b) => Some(
            m.put(at, arith(o, float2(op), m.word(a) as u64, m.word(b) as u64) as int),
        ),
        InstV::FloatTest(r, a, b) => Some(
            m.put(at, truth(relates(r, order_of(m.word(a) as u64, m.word(b) as u64)))),
        ),
        InstV::IntTest(r, a, n) => Some(m.put(at, truth(int_relates(r, m.word(a), n as int)))),
        InstV::IntEqual(a, b) => Some(m.put(at, truth(m.word(a) == m.word(b)))),
        InstV::Call(s, rs) => match shim(o, m.ctx, s, Seq::new(rs.len(), |k: int| m.word(rs[k]))) {
            Some((c, w)) => Some(Running { ctx: c, ..m }.put(at, w)),
            None => None,
        },
        _ => None,
    }
}

/// Instructions from one to before another, executed in order; nothing if a guard leaves the
/// function, or if something is done that is not told here.
#[verifier::opaque]
pub open spec fn run(o: Answers, is: Seq<InstV>, m: Running, from: int, to: int) -> Option<Running>
    decreases to - from,
{
    if from >= to {
        Some(m)
    } else {
        match is[from] {
            InstV::Guard(r) => if m.word(r) != 0 {
                None
            } else {
                run(o, is, m, from + 1, to)
            },
            i => match does(o, m, from, i) {
                Some(m1) => run(o, is, m1, from + 1, to),
                None => None,
            },
        }
    }
}

proof fn lemma_run_on(o: Answers, is: Seq<InstV>, m: Running, a: int, b: int, c: int)
    requires
        a <= b <= c,
        run(o, is, m, a, b) is Some,
    ensures
        run(o, is, m, a, c) == run(o, is, run(o, is, m, a, b)->0, b, c),
    decreases b - a,
{
    reveal(run);
    if a < b {
        match is[a] {
            InstV::Guard(r) => lemma_run_on(o, is, m, a + 1, b, c),
            i => lemma_run_on(o, is, does(o, m, a, i)->0, a + 1, b, c),
        }
    }
}

/// One instruction more.
proof fn lemma_run_one(o: Answers, is: Seq<InstV>, m: Running, a: int, b: int, i: InstV)
    requires
        a <= b,
        run(o, is, m, a, b) is Some,
        is[b] == i,
        !(i is Guard),
        does(o, run(o, is, m, a, b)->0, b, i) is Some,
    ensures
        run(o, is, m, a, b + 1) == does(o, run(o, is, m, a, b)->0, b, i),
{
    lemma_run_on(o, is, m, a, b, b + 1);
    reveal(run);
    let m1 = run(o, is, m, a, b)->0;
    let m2 = does(o, m1, b, i)->0;
    assert(run(o, is, m2, b + 1, b + 1) == Some(m2));
}

// ---- how values are held -----------------------------------------------------------------

/// Whether a word stands for a value, as one of a class.
pub open spec fn stands_for(c: CtxV, w: int, r: Repr, v: ValueV) -> bool {
    match r {
        Repr::Number => v is Number && w == v->Number_0,
        Repr::Bool => v is Bool && w == truth(v->Bool_0),
        Repr::Ptr => 0 <= w < c.values.len() && c.values[w] == v,
        Repr::Unit => v is Nil && w == 0,
    }
}

/// Whether the context has no error, nil as its first handle, and room for `k` more.
pub open spec fn ready(c: CtxV, k: int) -> bool {
    &&& c.error is None
    &&& 0 < c.values.len()
    &&& c.values.len() + k < 0xffff_ffff_ffff
    &&& c.values[0] == ValueV::Nil
    &&& c.heap.len() + k < 0xffff_ffff
}

/// Whether every value that the frame has is held in a register, and every variable in a
/// variable.
pub open spec fn holds(f: FunctionV, tr: Tr, fr: FrameV, m: Running) -> bool {
    &&& tr.ssa.len() == f.values.len()
    &&& forall|v: ValueId| #[trigger]
        fr.values.dom().contains(v) ==> v < f.values.len() && tr.ssa[v as int] is Some
            && tr.ssa[v as int]->0 < tr.insts.len() && stands_for(
            m.ctx,
            m.word(tr.ssa[v as int]->0),
            class_of(f, v),
            fr.values[v],
        )
    &&& forall|id: LocalId| #[trigger]
        fr.locals.dom().contains(id) ==> is_var(f, id) && stands_for(
            m.ctx,
            m.vars[id],
            repr_of(f.locals[id]),
            fr.locals[id],
        )
}

/// Whether code has changed nothing that was there: registers below `n` and handles; variables
/// and objects may have changed.
pub open spec fn kept(m: Running, m1: Running, n: int) -> bool {
    &&& forall|r: int| 0 <= r < n ==> #[trigger] m1.regs[r] == m.regs[r]
    &&& begun(m.ctx.values, m1.ctx.values)
    &&& m1.ctx == (CtxV { values: m1.ctx.values, heap: m1.ctx.heap, ..m.ctx })
}

/// Whether the pools have what others have, at the same places.
pub open spec fn has_pools(all: PoolsV, p: PoolsV) -> bool {
    &&& begun(p.strings, all.strings)
    &&& begun(p.names, all.names)
    &&& begun(p.namespace_fields, all.namespace_fields)
    &&& all.strings.len() < u32::MAX
    &&& all.names.len() < u32::MAX
    &&& all.namespace_fields.len() < u32::MAX
}

/// Whether the code of a translation has been executed from its `n`-th instruction on.
spec fn reached(o: Answers, is: Seq<InstV>, m: Running, n: int, tr: Tr, m1: Running) -> bool {
    &&& 0 <= n <= tr.insts.len()
    &&& begun(tr.insts, is)
    &&& is.len() <= usize::MAX
    &&& run(o, is, m, n, tr.insts.len() as int) == Some(m1)
}

proof fn lemma_starts(o: Answers, is: Seq<InstV>, m: Running, tr: Tr)
    requires
        begun(tr.insts, is),
        is.len() <= usize::MAX,
    ensures
        reached(o, is, m, tr.insts.len() as int, tr, m),
{
    reveal(run);
}

/// One more instruction.
proof fn lemma_emitted(
    o: Answers,
    is: Seq<InstV>,
    m: Running,
    n: int,
    tr: Tr,
    m1: Running,
    i: InstV,
) -> (m2: Running)
    requires
        reached(o, is, m, n, tr, m1),
        begun(tr.emit(i).0.insts, is),
        !(i is Guard),
        does(o, m1, tr.insts.len() as int, i) is Some,
    ensures
        Some(m2) == does(o, m1, tr.insts.len() as int, i),
        reached(o, is, m, n, tr.emit(i).0, m2),
        tr.emit(i).1 == tr.insts.len(),
        tr.emit(i).0.insts.len() == tr.insts.len() + 1,
        tr.emit(i).0.ssa == tr.ssa,
        tr.emit(i).0.pools == tr.pools,
{
    reveal(Tr::emit);
    let k = tr.insts.len() as int;
    assert(tr.emit(i).0.insts[k] == i);
    assert(is[k] == tr.emit(i).0.insts[k]);
    lemma_run_one(o, is, m, n, k, i);
    does(o, m1, k, i)->0
}

/// What was held is held still, where nothing was changed that was there.
proof fn lemma_stands(m: Running, m1: Running, n: int, r: Reg, c: Repr, v: ValueV)
    requires
        kept(m, m1, n),
        r < n,
        stands_for(m.ctx, m.word(r), c, v),
    ensures
        stands_for(m1.ctx, m1.word(r), c, v),
{
    assert(m1.regs[r as int] == m.regs[r as int]);
}

proof fn lemma_kept(a: Running, b: Running, c: Running, n: int, k: int)
    requires
        kept(a, b, n),
        kept(b, c, k),
        n <= k,
    ensures
        kept(a, c, n),
{
    assert forall|r: int| 0 <= r < n implies #[trigger] c.regs[r] == a.regs[r] by {
        assert(b.regs[r] == a.regs[r]);
    }
    assert forall|i: int| 0 <= i < a.ctx.values.len() implies c.ctx.values[i]
        == #[trigger] a.ctx.values[i] by {
        assert(b.ctx.values[i] == a.ctx.values[i]);
    }
}

/// A value of one class as one of another.
proof fn lemma_coerced(
    o: Answers,
    is: Seq<InstV>,
    m: Running,
    n: int,
    tr: Tr,
    m1: Running,
    r: Reg,
    from: Repr,
    to: Repr,
    v: ValueV,
    room: int,
) -> (m2: Running)
    requires
        reached(o, is, m, n, tr, m1),
        begun(tr.coerced(r, from, to).0.insts, is),
        room > 0,
        ready(m1.ctx, room),
        r < tr.insts.len(),
        stands_for(m1.ctx, m1.word(r), from, v),
        fits_repr(v, to),
        to != Repr::Unit,
    ensures
        ({
            let (tr2, x) = tr.coerced(r, from, to);
            &&& reached(o, is, m, n, tr2, m2)
            &&& kept(m1, m2, tr.insts.len() as int)
            &&& m2.vars == m1.vars
            &&& m2.ctx.heap == m1.ctx.heap
            &&& ready(m2.ctx, room - 1)
            &&& x < tr2.insts.len()
            &&& tr.insts.len() <= tr2.insts.len()
            &&& stands_for(m2.ctx, m2.word(x), to, v)
            &&& tr2.ssa == tr.ssa
            &&& tr2.pools == tr.pools
        }),
{
    reveal(Tr::coerced);
    reveal(Tr::unboxed);
    match (from, to) {
        (Repr::Number, Repr::Ptr) => {
            let i = InstV::Call(Shim::BoxNumber, seq![r]);
            lemma_emitted(o, is, m, n, tr, m1, i)
        },
        (Repr::Bool, Repr::Ptr) => {
            let i = InstV::Call(Shim::BoxBool, seq![r]);
            lemma_emitted(o, is, m, n, tr, m1, i)
        },
        (Repr::Ptr, Repr::Number) => {
            let i = InstV::Call(Shim::UnboxNumber, seq![r]);
            lemma_emitted(o, is, m, n, tr, m1, i)
        },
        (Repr::Ptr, Repr::Bool) => {
            let i = InstV::Call(Shim::UnboxBool, seq![r]);
            lemma_emitted(o, is, m, n, tr, m1, i)
        },
        _ => m1,
    }
}

/// A value of the frame as one of a class.
proof fn lemma_as(
    o: Answers,
    is: Seq<InstV>,
    m: Running,
    n: int,
    f: FunctionV,
    fr: FrameV,
    tr: Tr,
    m1: Running,
    v: ValueId,
    to: Repr,
    room: int,
) -> (m2: Running)
    requires
        reached(o, is, m, n, tr, m1),
        x_as(f, tr, v, to) is Ok,
        begun((x_as(f, tr, v, to)->Ok_0).0.insts, is),
        room > 0,
        ready(m1.ctx, room),
        holds(f, tr, fr, m1),
        fr.values.dom().contains(v),
        fits_repr(fr.values[v], to),
        to != Repr::Unit,
    ensures
        ({
            let (tr2, x) = x_as(f, tr, v, to)->Ok_0;
            &&& reached(o, is, m, n, tr2, m2)
            &&& kept(m1, m2, tr.insts.len() as int)
            &&& m2.vars == m1.vars
            &&& m2.ctx.heap == m1.ctx.heap
            &&& ready(m2.ctx, room - 1)
            &&& x < tr2.insts.len()
            &&& tr.insts.len() <= tr2.insts.len()
            &&& stands_for(m2.ctx, m2.word(x), to, fr.values[v])
            &&& tr2.ssa == tr.ssa
            &&& tr2.pools == tr.pools
            &&& holds(f, tr2, fr, m2)
        }),
{
    reveal(x_as);
    reveal(Tr::val);
    let r = tr.ssa[v as int]->0;
    let m2 = lemma_coerced(o, is, m, n, tr, m1, r, class_of(f, v), to, fr.values[v], room);
    let tr2 = (x_as(f, tr, v, to)->Ok_0).0;
    lemma_holds(f, tr, tr2, fr, m1, m2);
    m2
}

/// What a frame has is held still.
proof fn lemma_holds(f: FunctionV, tr: Tr, tr2: Tr, fr: FrameV, m: Running, m2: Running)
    requires
        holds(f, tr, fr, m),
        kept(m, m2, tr.insts.len() as int),
        m2.vars == m.vars,
        tr2.ssa == tr.ssa,
        tr.insts.len() <= tr2.insts.len(),
    ensures
        holds(f, tr2, fr, m2),
{
    assert forall|v: ValueId| #[trigger] fr.values.dom().contains(v) implies v < f.values.len()
        && tr2.ssa[v as int] is Some && tr2.ssa[v as int]->0 < tr2.insts.len() && stands_for(
        m2.ctx,
        m2.word(tr2.ssa[v as int]->0),
        class_of(f, v),
        fr.values[v],
    ) by {
        lemma_stands(
            m,
            m2,
            tr.insts.len() as int,
            tr.ssa[v as int]->0,
            class_of(f, v),
            fr.values[v],
        );
    }
}

/// A value of the frame as a handle.
proof fn lemma_boxed(
    o: Answers,
    is: Seq<InstV>,
    m: Running,
    n: int,
    f: FunctionV,
    fr: FrameV,
    tr: Tr,
    m1: Running,
    v: ValueId,
    room: int,
) -> (m2: Running)
    requires
        reached(o, is, m, n, tr, m1),
        x_boxed(f, tr, v) is Ok,
        begun((x_boxed(f, tr, v)->Ok_0).0.insts, is),
        room > 0,
        ready(m1.ctx, room),
        holds(f, tr, fr, m1),
        fr.values.dom().contains(v),
    ensures
        ({
            let (tr2, x) = x_boxed(f, tr, v)->Ok_0;
            &&& reached(o, is, m, n, tr2, m2)
            &&& kept(m1, m2, tr.insts.len() as int)
            &&& m2.vars == m1.vars
            &&& m2.ctx.heap == m1.ctx.heap
            &&& ready(m2.ctx, room - 1)
            &&& x < tr2.insts.len()
            &&& tr.insts.len() <= tr2.insts.len()
            &&& stands_for(m2.ctx, m2.word(x), Repr::Ptr, fr.values[v])
            &&& tr2.ssa == tr.ssa
            &&& tr2.pools == tr.pools
            &&& holds(f, tr2, fr, m2)
        }),
{
    reveal(x_boxed);
    reveal(Tr::val);
    let r = tr.ssa[v as int]->0;
    let tr2 = (x_boxed(f, tr, v)->Ok_0).0;
    let m2 = match class_of(f, v) {
        Repr::Number => {
            lemma_emitted(o, is, m, n, tr, m1, InstV::Call(Shim::BoxNumber, seq![r]))
        },
        Repr::Bool => lemma_emitted(o, is, m, n, tr, m1, InstV::Call(Shim::BoxBool, seq![r])),
        Repr::Unit => lemma_emitted(o, is, m, n, tr, m1, InstV::Int(ClifTy::I64, 0)),
        Repr::Ptr => m1,
    };
    lemma_holds(f, tr, tr2, fr, m1, m2);
    m2
}

// ---- the end of an instruction -------------------------------------------------------------

/// What is added behind an operation.
proof fn lemma_tail(p: ProgramV, f: FunctionV, tr: Tr, i: InstrV, tr2: Tr, r: Option<Reg>)
    requires
        translate_op_of(p, f, tr, i.op, i.dest) == Ok::<(Tr, Option<Reg>), JitErrorV>((tr2, r)),
        x_instr(p, f, tr, i) is Ok,
        i.dest is Some ==> r is Some,
    ensures
        begun(tr2.insts, (x_instr(p, f, tr, i)->Ok_0).0.insts),
        (x_instr(p, f, tr, i)->Ok_0).0.pools == tr2.pools,
        i.dest matches Some(d) ==> d < f.values.len() && begun(
            tr2.coerced(r->0, result_class(p, f, i.op, i.dest), class_of(f, d)).0.insts,
            (x_instr(p, f, tr, i)->Ok_0).0.insts,
        ),
{
    reveal(x_instr);
    reveal(x_settled);
    reveal(x_define);
    reveal(Tr::coerced);
    reveal(Tr::unboxed);
    reveal(Tr::emit);
    reveal(Tr::define);
    reveal(Tr::guarded);
    reveal(Tr::guarded_since);
}

/// The end of an instruction: its result becomes one of the destination's class, and the guard
/// is passed.
proof fn lemma_ends(
    o: Answers,
    p: ProgramV,
    f: FunctionV,
    fr: FrameV,
    tr: Tr,
    i: InstrV,
    tr2: Tr,
    r: Option<Reg>,
    m: Running,
    m2: Running,
    v: ValueV,
) -> (m3: Running)
    requires
        translate_op_of(p, f, tr, i.op, i.dest) == Ok::<(Tr, Option<Reg>), JitErrorV>((tr2, r)),
        x_instr(p, f, tr, i) is Ok,
        (x_instr(p, f, tr, i)->Ok_0).0.insts.len() <= usize::MAX,
        reached(
            o,
            (x_instr(p, f, tr, i)->Ok_0).0.insts,
            m,
            tr.insts.len() as int,
            tr2,
            m2,
        ),
        ready(m2.ctx, 1),
        tr2.ssa == tr.ssa,
        tr2.insts.len() >= tr.insts.len(),
        holds(f, tr2, fr, m2),
        i.dest matches Some(d) ==> r is Some && d < f.values.len() && r->0 < tr2.insts.len()
            && stands_for(m2.ctx, m2.word(r->0), result_class(p, f, i.op, i.dest), v) && fits_repr(
            v,
            class_of(f, d),
        ) && class_of(f, d) != Repr::Unit,
    ensures
        ({
            let tr1 = (x_instr(p, f, tr, i)->Ok_0).0;
            &&& run(o, tr1.insts, m, tr.insts.len() as int, tr1.insts.len() as int) == Some(m3)
            &&& ready(m3.ctx, 0)
            &&& m3.ctx.heap == m2.ctx.heap
            &&& holds(
                f,
                tr1,
                FrameV {
                    values: match i.dest {
                        Some(d) => fr.values.insert(d, v),
                        None => fr.values,
                    },
                    ..fr
                },
                m3,
            )
        }),
{
    lemma_tail(p, f, tr, i, tr2, r);
    let tr1 = (x_instr(p, f, tr, i)->Ok_0).0;
    let is = tr1.insts;
    let n = tr.insts.len() as int;
    let (tr3, x) = match i.dest {
        Some(d) => tr2.coerced(r->0, result_class(p, f, i.op, i.dest), class_of(f, d)),
        None => (tr2, 0),
    };
    let m3 = match i.dest {
        Some(d) => lemma_coerced(
            o,
            is,
            m,
            n,
            tr2,
            m2,
            r->0,
            result_class(p, f, i.op, i.dest),
            class_of(f, d),
            v,
            1,
        ),
        None => m2,
    };
    lemma_holds(f, tr2, tr3, fr, m2, m3);
    let k = tr3.insts.len() as int;
    assert(tr1.ssa == (match i.dest {
        Some(d) => tr3.ssa.update(d as int, Some(x)),
        None => tr3.ssa,
    }) && tr1.insts == tr3.guarded_since(n).insts) by {
        reveal(x_instr);
        reveal(x_settled);
        reveal(x_define);
        reveal(Tr::define);
        reveal(Tr::guarded);
        reveal(Tr::guarded_since);
        reveal(Tr::emit);
    }
    let m4 = if any_fallible(tr3.insts, n) {
        reveal(Tr::guarded_since);
        reveal(Tr::guarded);
        let look = InstV::Call(Shim::Errored, Seq::empty());
        let tr4 = tr3.emit(look).0;
        assert(begun(tr4.insts, is)) by {
            reveal(Tr::emit);
        }
        let m4 = lemma_emitted(o, is, m, n, tr3, m3, look);
        let tr5 = tr4.emit(InstV::Guard(k as usize)).0;
        assert(tr5.insts == is && is.len() == k + 2 && is[k + 1] == InstV::Guard(k as usize)) by {
            reveal(Tr::emit);
        }
        assert(m4.word(k as usize) == 0);
        lemma_run_on(o, is, m, n, k + 1, k + 2);
        assert(run(o, is, m4, k + 1, k + 2) == Some(m4)) by {
            reveal(run);
            assert(run(o, is, m4, k + 2, k + 2) == Some(m4));
        }
        assert(run(o, is, m, n, is.len() as int) == Some(m4));
        m4
    } else {
        reveal(Tr::guarded_since);
        assert(is.len() == k);
        m3
    };
    lemma_holds(f, tr3, Tr { ssa: tr3.ssa, ..tr1 }, fr, m3, m4);
    let fr1 = FrameV {
        values: match i.dest {
            Some(d) => fr.values.insert(d, v),
            None => fr.values,
        },
        ..fr
    };
    assert(run(o, is, m, n, is.len() as int) == Some(m4));
    assert forall|w: ValueId| #[trigger] fr1.values.dom().contains(w) implies w < f.values.len()
        && tr1.ssa[w as int] is Some && tr1.ssa[w as int]->0 < tr1.insts.len() && stands_for(
        m4.ctx,
        m4.word(tr1.ssa[w as int]->0),
        class_of(f, w),
        fr1.values[w],
    ) by {
        if i.dest == Some(w) {
            lemma_stands(m3, m4, k, x, class_of(f, w), v);
        } else {
            assert(fr.values.dom().contains(w));
            assert(tr1.ssa[w as int] == tr3.ssa[w as int]);
        }
    }
    assert(holds(f, tr1, fr1, m4));
    m4
}

// ---- operands --------------------------------------------------------------------------------

proof fn lemma_begun(a: Seq<InstV>, b: Seq<InstV>, c: Seq<InstV>)
    requires
        begun(a, b),
        begun(b, c),
    ensures
        begun(a, c),
{
    assert forall|k: int| 0 <= k < a.len() implies c[k] == #[trigger] a[k] by {
        assert(b[k] == a[k]);
    }
}

proof fn lemma_as_adds(f: FunctionV, tr: Tr, v: ValueId, to: Repr)
    ensures
        x_as(f, tr, v, to) matches Ok((tr2, _)) ==> begun(tr.insts, tr2.insts),
{
    reveal(x_as);
    reveal(Tr::coerced);
    reveal(Tr::unboxed);
    reveal(Tr::emit);
}

proof fn lemma_boxed_adds(f: FunctionV, tr: Tr, v: ValueId)
    ensures
        x_boxed(f, tr, v) matches Ok((tr2, _)) ==> begun(tr.insts, tr2.insts),
{
    reveal(x_boxed);
    reveal(Tr::emit);
}

proof fn lemma_emit_adds(tr: Tr, i: InstV)
    ensures
        begun(tr.insts, tr.emit(i).0.insts),
        tr.emit(i).0.insts.len() == tr.insts.len() + 1,
        tr.emit(i).0.ssa == tr.ssa,
        tr.emit(i).0.pools == tr.pools,
{
    reveal(Tr::emit);
}

/// Two values of the frame, each as one of a class.
proof fn lemma_both(
    o: Answers,
    is: Seq<InstV>,
    f: FunctionV,
    fr: FrameV,
    tr: Tr,
    m: Running,
    l: ValueId,
    c: Repr,
    r: ValueId,
    d: Repr,
) -> (m2: Running)
    requires
        begun(tr.insts, is),
        is.len() <= usize::MAX,
        x_both(f, tr, l, c, r, d) is Ok,
        begun((x_both(f, tr, l, c, r, d)->Ok_0).0.insts, is),
        ready(m.ctx, 8),
        holds(f, tr, fr, m),
        fr.values.dom().contains(l),
        fr.values.dom().contains(r),
        fits_repr(fr.values[l], c),
        fits_repr(fr.values[r], d),
        c != Repr::Unit,
        d != Repr::Unit,
    ensures
        ({
            let (tr2, (x, y)) = x_both(f, tr, l, c, r, d)->Ok_0;
            &&& reached(o, is, m, tr.insts.len() as int, tr2, m2)
            &&& kept(m, m2, tr.insts.len() as int)
            &&& m2.vars == m.vars
            &&& m2.ctx.heap == m.ctx.heap
            &&& ready(m2.ctx, 6)
            &&& x < tr2.insts.len()
            &&& y < tr2.insts.len()
            &&& tr.insts.len() <= tr2.insts.len()
            &&& stands_for(m2.ctx, m2.word(x), c, fr.values[l])
            &&& stands_for(m2.ctx, m2.word(y), d, fr.values[r])
            &&& tr2.ssa == tr.ssa
            &&& tr2.pools == tr.pools
            &&& holds(f, tr2, fr, m2)
        }),
{
    reveal(x_both);
    let n = tr.insts.len() as int;
    let (tr1, x) = x_as(f, tr, l, c)->Ok_0;
    let tr2 = (x_as(f, tr1, r, d)->Ok_0).0;
    lemma_as_adds(f, tr1, r, d);
    lemma_begun(tr1.insts, tr2.insts, is);
    lemma_starts(o, is, m, tr);
    let m1 = lemma_as(o, is, m, n, f, fr, tr, m, l, c, 8);
    let m2 = lemma_as(o, is, m, n, f, fr, tr1, m1, r, d, 7);
    lemma_stands(m1, m2, tr1.insts.len() as int, x, c, fr.values[l]);
    lemma_kept(m, m1, m2, n, tr1.insts.len() as int);
    m2
}

/// Whether a value counts as true.
proof fn lemma_truth(
    o: Answers,
    is: Seq<InstV>,
    f: FunctionV,
    fr: FrameV,
    tr: Tr,
    m: Running,
    v: ValueId,
) -> (m2: Running)
    requires
        begun(tr.insts, is),
        is.len() <= usize::MAX,
        x_truthy(f, tr, v) is Ok,
        begun((x_truthy(f, tr, v)->Ok_0).0.insts, is),
        ready(m.ctx, 8),
        holds(f, tr, fr, m),
        fr.values.dom().contains(v),
    ensures
        ({
            let (tr2, x) = x_truthy(f, tr, v)->Ok_0;
            &&& reached(o, is, m, tr.insts.len() as int, tr2, m2)
            &&& kept(m, m2, tr.insts.len() as int)
            &&& m2.vars == m.vars
            &&& m2.ctx == m.ctx
            &&& x < tr2.insts.len()
            &&& tr.insts.len() <= tr2.insts.len()
            &&& m2.word(x) == truth(truthy(fr.values[v]))
            &&& tr2.ssa == tr.ssa
            &&& tr2.pools == tr.pools
            &&& holds(f, tr2, fr, m2)
        }),
{
    reveal(x_truthy);
    reveal(Tr::val);
    let n = tr.insts.len() as int;
    let tr2 = (x_truthy(f, tr, v)->Ok_0).0;
    let r = tr.ssa[v as int]->0;
    lemma_starts(o, is, m, tr);
    let m2 = match class_of(f, v) {
        Repr::Number => lemma_emitted(o, is, m, n, tr, m, InstV::Int(ClifTy::I8, 1)),
        Repr::Bool => m,
        _ => lemma_emitted(o, is, m, n, tr, m, InstV::Call(Shim::Truthy, seq![r])),
    };
    lemma_holds(f, tr, tr2, fr, m, m2);
    m2
}

// ---- operations --------------------------------------------------------------------------------

/// What is known where an operation begins.
spec fn begins(o: Answers, f: FunctionV, fr: FrameV, tr: Tr, is: Seq<InstV>, m: Running) -> bool {
    &&& begun(tr.insts, is)
    &&& is.len() <= usize::MAX
    &&& ready(m.ctx, 8)
    &&& holds(f, tr, fr, m)
}

/// What is known where an operation has left its result, a value of a class.
spec fn leaves(
    o: Answers,
    f: FunctionV,
    fr: FrameV,
    tr: Tr,
    is: Seq<InstV>,
    m: Running,
    tr2: Tr,
    m2: Running,
    r: Reg,
    c: Repr,
    v: ValueV,
) -> bool {
    &&& reached(o, is, m, tr.insts.len() as int, tr2, m2)
    &&& ready(m2.ctx, 1)
    &&& m2.ctx == (CtxV { values: m2.ctx.values, heap: m2.ctx.heap, ..m.ctx })
    &&& tr2.ssa == tr.ssa
    &&& tr.insts.len() <= tr2.insts.len()
    &&& holds(f, tr2, fr, m2)
    &&& r < tr2.insts.len()
    &&& stands_for(m2.ctx, m2.word(r), c, v)
}

/// The last instruction of an operation, which yields a word.
proof fn lemma_last(
    o: Answers,
    f: FunctionV,
    fr: FrameV,
    tr: Tr,
    is: Seq<InstV>,
    m: Running,
    tr1: Tr,
    m1: Running,
    i: InstV,
    c: Repr,
    v: ValueV,
) -> (m2: Running)
    requires
        begins(o, f, fr, tr, is, m),
        reached(o, is, m, tr.insts.len() as int, tr1, m1),
        kept(m, m1, tr.insts.len() as int),
        m1.vars == m.vars,
        ready(m1.ctx, 2),
        tr1.ssa == tr.ssa,
        tr.insts.len() <= tr1.insts.len(),
        holds(f, tr1, fr, m1),
        begun(tr1.emit(i).0.insts, is),
        !(i is Guard),
        ({
            let k = tr1.insts.len() as int;
            let m2 = does(o, m1, k, i)->0;
            &&& does(o, m1, k, i) is Some
            &&& kept(m1, m2, k)
            &&& m2.vars == m1.vars
            &&& ready(m2.ctx, 1)
            &&& stands_for(m2.ctx, m2.regs[k], c, v)
        }),
    ensures
        Some(m2) == does(o, m1, tr1.insts.len() as int, i),
        leaves(o, f, fr, tr, is, m, tr1.emit(i).0, m2, tr1.emit(i).1, c, v),
        tr1.emit(i).0.pools == tr1.pools,
{
    let m2 = lemma_emitted(o, is, m, tr.insts.len() as int, tr1, m1, i);
    lemma_holds(f, tr1, tr1.emit(i).0, fr, m1, m2);
    m2
}

/// An operation of one instruction.
proof fn lemma_only(
    o: Answers,
    f: FunctionV,
    fr: FrameV,
    tr: Tr,
    is: Seq<InstV>,
    m: Running,
    i: InstV,
    c: Repr,
    v: ValueV,
) -> (m2: Running)
    requires
        begins(o, f, fr, tr, is, m),
        begun(tr.emit(i).0.insts, is),
        !(i is Guard),
        ({
            let k = tr.insts.len() as int;
            let m2 = does(o, m, k, i)->0;
            &&& does(o, m, k, i) is Some
            &&& kept(m, m2, k)
            &&& m2.vars == m.vars
            &&& ready(m2.ctx, 1)
            &&& stands_for(m2.ctx, m2.regs[k], c, v)
        }),
    ensures
        Some(m2) == does(o, m, tr.insts.len() as int, i),
        leaves(o, f, fr, tr, is, m, tr.emit(i).0, m2, tr.emit(i).1, c, v),
        tr.emit(i).0.pools == tr.pools,
{
    lemma_starts(o, is, m, tr);
    lemma_last(o, f, fr, tr, is, m, tr, m, i, c, v)
}

/// Constants and the read of a variable.
proof fn lemma_plain(
    o: Answers,
    p: ProgramV,
    f: FunctionV,
    fr: FrameV,
    tr: Tr,
    is: Seq<InstV>,
    m: Running,
    i: InstrV,
    st: VmV,
    v: ValueV,
) -> (m2: Running)
    requires
        begins(o, f, fr, tr, is, m),
        i.op is ConstNil || i.op is ConstBool || i.op is ConstNumber || i.op is LocalGet,
        translate_op_of(p, f, tr, i.op, i.dest) is Ok,
        begun((translate_op_of(p, f, tr, i.op, i.dest)->Ok_0).0.insts, is),
        effect_meaning(o, vm::eval_op_of(p, st, fr, i.op).effect) == Some(v),
    ensures
        ({
            let (tr2, r) = translate_op_of(p, f, tr, i.op, i.dest)->Ok_0;
            &&& r is Some
            &&& leaves(o, f, fr, tr, is, m, tr2, m2, r->0, result_class(p, f, i.op, i.dest), v)
            &&& m2.ctx.heap == m.ctx.heap
        }),
{
    reveal(translate_op_of);
    reveal(vm::eval_op_of);
    reveal(x_local);
    let x = match i.op {
        OpV::ConstNil => InstV::Int(ClifTy::I64, 0),
        OpV::ConstBool(b) => InstV::Int(
            ClifTy::I8,
            if b {
                1
            } else {
                0
            },
        ),
        OpV::ConstNumber(n) => InstV::Float(n),
        OpV::LocalGet(id) => InstV::GetVar(id),
        _ => InstV::Guard(0),
    };
    lemma_only(o, f, fr, tr, is, m, x, result_class(p, f, i.op, i.dest), v)
}

/// A string constant.
proof fn lemma_text(
    o: Answers,
    p: ProgramV,
    f: FunctionV,
    fr: FrameV,
    tr: Tr,
    is: Seq<InstV>,
    m: Running,
    i: InstrV,
    s: Seq<char>,
) -> (m2: Running)
    requires
        begins(o, f, fr, tr, is, m),
        i.op == OpV::ConstString(s),
        translate_op_of(p, f, tr, i.op, i.dest) is Ok,
        begun((translate_op_of(p, f, tr, i.op, i.dest)->Ok_0).0.insts, is),
        has_pools(m.ctx.pools, (translate_op_of(p, f, tr, i.op, i.dest)->Ok_0).0.pools),
    ensures
        ({
            let (tr2, r) = translate_op_of(p, f, tr, i.op, i.dest)->Ok_0;
            &&& r is Some
            &&& leaves(o, f, fr, tr, is, m, tr2, m2, r->0, Repr::Ptr, ValueV::Str(s))
            &&& m2.ctx.heap == m.ctx.heap
        }),
{
    reveal(translate_op_of);
    reveal(Tr::string);
    let n = tr.insts.len() as int;
    let (tr1, idx) = tr.string(s);
    let look = InstV::Int(ClifTy::I32, idx as i64);
    let (tr2, k) = tr1.emit(look);
    let call = InstV::Call(Shim::ConstString, seq![k]);
    lemma_emit_adds(tr2, call);
    lemma_begun(tr2.insts, tr2.emit(call).0.insts, is);
    lemma_starts(o, is, m, tr1);
    let m1 = lemma_emitted(o, is, m, n, tr1, m, look);
    lemma_holds(f, tr, tr2, fr, m, m1);
    assert(tr2.emit(call).0.pools == tr1.pools) by {
        reveal(Tr::emit);
    }
    lemma_pool(tr.pools.strings, m.ctx.pools.strings, s);
    lemma_last(o, f, fr, tr, is, m, tr2, m1, call, Repr::Ptr, ValueV::Str(s))
}

/// What was interned is in the pool that there is at last.
proof fn lemma_pool<T>(pool: Seq<T>, all: Seq<T>, x: T)
    requires
        begun(interned_in(pool, x).0, all),
        all.len() < u32::MAX,
    ensures
        interned_in(pool, x).1 < all.len(),
        all[interned_in(pool, x).1 as int] == x,
{
    let p1 = interned_in(pool, x).0;
    assert(pool.len() <= p1.len());
    law_interning(pool, x, x);
    let i = interned_in(pool, x).1;
    assert(all[i as int] == p1[i as int]);
}

/// Unary operators, and the test whether a value is true.
proof fn lemma_unary(
    o: Answers,
    p: ProgramV,
    f: FunctionV,
    fr: FrameV,
    tr: Tr,
    is: Seq<InstV>,
    m: Running,
    i: InstrV,
    st: VmV,
    v: ValueV,
) -> (m2: Running)
    requires
        begins(o, f, fr, tr, is, m),
        i.op is Unary || i.op is Truthy,
        translate_op_of(p, f, tr, i.op, i.dest) is Ok,
        begun((translate_op_of(p, f, tr, i.op, i.dest)->Ok_0).0.insts, is),
        effect_meaning(o, vm::eval_op_of(p, st, fr, i.op).effect) == Some(v),
        st.heap == m.ctx.heap,
    ensures
        ({
            let (tr2, r) = translate_op_of(p, f, tr, i.op, i.dest)->Ok_0;
            &&& r is Some
            &&& leaves(o, f, fr, tr, is, m, tr2, m2, r->0, result_class(p, f, i.op, i.dest), v)
            &&& m2.ctx.heap == m.ctx.heap
        }),
{
    reveal(translate_op_of);
    reveal(vm::eval_op_of);
    let n = tr.insts.len() as int;
    match i.op {
        OpV::Truthy(a) => lemma_truth(o, is, f, fr, tr, m, a),
        OpV::Unary(UnOp::Not, a) => {
            let (tr1, x) = x_truthy(f, tr, a)->Ok_0;
            let last = InstV::IntTest(Relation::Equal, x, 0);
            lemma_emit_adds(tr1, last);
            lemma_begun(tr1.insts, tr1.emit(last).0.insts, is);
            let m1 = lemma_truth(o, is, f, fr, tr, m, a);
            lemma_last(o, f, fr, tr, is, m, tr1, m1, last, Repr::Bool, v)
        },
        OpV::Unary(op, a) => {
            let c = if op == UnOp::Neg {
                Repr::Number
            } else {
                Repr::Ptr
            };
            let (tr1, x) = x_as(f, tr, a, c)->Ok_0;
            let last = if op == UnOp::Neg {
                InstV::Float1(Float1::Neg, x)
            } else {
                InstV::Call(Shim::Len, seq![x])
            };
            lemma_emit_adds(tr1, last);
            lemma_begun(tr1.insts, tr1.emit(last).0.insts, is);
            lemma_starts(o, is, m, tr);
            let m1 = lemma_as(o, is, m, n, f, fr, tr, m, a, c, 8);
            if op == UnOp::Len {
                assert(m1.ctx.at(m1.word(x) as u64) == fr.values[a]);
            }
            lemma_last(o, f, fr, tr, is, m, tr1, m1, last, Repr::Number, v)
        },
        _ => m,
    }
}

/// A handle as the result of an operation.
proof fn lemma_result(
    o: Answers,
    f: FunctionV,
    fr: FrameV,
    tr: Tr,
    is: Seq<InstV>,
    m: Running,
    tr1: Tr,
    m1: Running,
    h: Reg,
    dest: Option<ValueId>,
    v: ValueV,
) -> (m2: Running)
    requires
        begins(o, f, fr, tr, is, m),
        leaves(o, f, fr, tr, is, m, tr1, m1, h, Repr::Ptr, v),
        x_result(f, tr1, h, dest) is Ok,
        begun((x_result(f, tr1, h, dest)->Ok_0).0.insts, is),
        m1.vars == m.vars,
        kept(m, m1, tr.insts.len() as int),
        dest matches Some(d) ==> d < f.values.len() && fits_repr(v, class_of(f, d)) && class_of(
            f,
            d,
        ) != Repr::Unit,
    ensures
        ({
            let (tr2, r) = x_result(f, tr1, h, dest)->Ok_0;
            let c = match dest {
                Some(d) => class_of(f, d),
                None => Repr::Ptr,
            };
            &&& r is Some
            &&& leaves(o, f, fr, tr, is, m, tr2, m2, r->0, c, v)
            &&& m2.ctx == m1.ctx
        }),
{
    reveal(Tr::unboxed);
    let n = tr.insts.len() as int;
    let tr2 = (x_result(f, tr1, h, dest)->Ok_0).0;
    let c = match dest {
        Some(d) => class_of(f, d),
        None => Repr::Ptr,
    };
    assert(m1.ctx.at(m1.word(h) as u64) == v);
    match c {
        Repr::Number => {
            let i = InstV::Call(Shim::UnboxNumber, seq![h]);
            let m2 = lemma_emitted(o, is, m, n, tr1, m1, i);
            lemma_holds(f, tr1, tr2, fr, m1, m2);
            m2
        },
        Repr::Bool => {
            let i = InstV::Call(Shim::UnboxBool, seq![h]);
            let m2 = lemma_emitted(o, is, m, n, tr1, m1, i);
            lemma_holds(f, tr1, tr2, fr, m1, m2);
            m2
        },
        _ => m1,
    }
}

/// Concatenation.
proof fn lemma_concat(
    o: Answers,
    f: FunctionV,
    fr: FrameV,
    tr: Tr,
    is: Seq<InstV>,
    m: Running,
    l: ValueId,
    r: ValueId,
) -> (m2: Running)
    requires
        begins(o, f, fr, tr, is, m),
        x_binary(f, tr, BinOp::Concat, l, r) is Ok,
        begun((x_binary(f, tr, BinOp::Concat, l, r)->Ok_0).0.insts, is),
        fr.values.dom().contains(l),
        fr.values.dom().contains(r),
        fr.values[l] is Str,
        fr.values[r] is Str,
    ensures
        ({
            let (tr2, x) = x_binary(f, tr, BinOp::Concat, l, r)->Ok_0;
            let v = ValueV::Str(fr.values[l]->Str_0 + fr.values[r]->Str_0);
            &&& leaves(o, f, fr, tr, is, m, tr2, m2, x, Repr::Ptr, v)
            &&& m2.ctx.heap == m.ctx.heap
        }),
{
    reveal(x_binary);
    let (tr1, (x, y)) = x_both(f, tr, l, Repr::Ptr, r, Repr::Ptr)->Ok_0;
    let last = InstV::Call(Shim::Concat, seq![x, y]);
    lemma_emit_adds(tr1, last);
    lemma_begun(tr1.insts, tr1.emit(last).0.insts, is);
    let m1 = lemma_both(o, is, f, fr, tr, m, l, Repr::Ptr, r, Repr::Ptr);
    assert(m1.ctx.at(m1.word(x) as u64) == fr.values[l]);
    assert(m1.ctx.at(m1.word(y) as u64) == fr.values[r]);
    let v = ValueV::Str(fr.values[l]->Str_0 + fr.values[r]->Str_0);
    lemma_last(o, f, fr, tr, is, m, tr1, m1, last, Repr::Ptr, v)
}

/// Equality.
proof fn lemma_equality(
    o: Answers,
    f: FunctionV,
    fr: FrameV,
    tr: Tr,
    is: Seq<InstV>,
    m: Running,
    op: BinOp,
    l: ValueId,
    r: ValueId,
) -> (m2: Running)
    requires
        begins(o, f, fr, tr, is, m),
        op == BinOp::Eq || op == BinOp::Ne,
        x_binary(f, tr, op, l, r) is Ok,
        begun((x_binary(f, tr, op, l, r)->Ok_0).0.insts, is),
        fr.values.dom().contains(l),
        fr.values.dom().contains(r),
        class_of(f, l) != Repr::Unit,
    ensures
        ({
            let (tr2, x) = x_binary(f, tr, op, l, r)->Ok_0;
            let same = same_value(fr.values[l], fr.values[r]);
            let v = ValueV::Bool(if op == BinOp::Eq { same } else { !same });
            &&& leaves(o, f, fr, tr, is, m, tr2, m2, x, Repr::Bool, v)
            &&& m2.ctx.heap == m.ctx.heap
        }),
{
    reveal(x_binary);
    reveal(x_equality);
    let c = if class_of(f, l) == class_of(f, r) {
        class_of(f, l)
    } else {
        Repr::Ptr
    };
    let (tr1, (x, y)) = x_both(f, tr, l, c, r, c)->Ok_0;
    let test = match c {
        Repr::Number => InstV::FloatTest(Relation::Equal, x, y),
        Repr::Bool => InstV::IntEqual(x, y),
        _ => InstV::Call(Shim::ValueEq, seq![x, y]),
    };
    let (tr2, e) = tr1.emit(test);
    let not = InstV::IntTest(Relation::Equal, e, 0);
    lemma_emit_adds(tr1, test);
    lemma_emit_adds(tr2, not);
    if op == BinOp::Ne {
        lemma_begun(tr2.insts, tr2.emit(not).0.insts, is);
    }
    lemma_begun(tr1.insts, tr2.insts, is);
    let m1 = lemma_both(o, is, f, fr, tr, m, l, c, r, c);
    let same = same_value(fr.values[l], fr.values[r]);
    if c == Repr::Ptr {
        assert(m1.ctx.at(m1.word(x) as u64) == fr.values[l]);
        assert(m1.ctx.at(m1.word(y) as u64) == fr.values[r]);
    }
    let m2 = lemma_last(o, f, fr, tr, is, m, tr1, m1, test, Repr::Bool, ValueV::Bool(same));
    if op == BinOp::Eq {
        m2
    } else {
        assert(kept(m, m2, tr.insts.len() as int)) by {
            lemma_kept(m, m1, m2, tr.insts.len() as int, tr1.insts.len() as int);
        }
        lemma_last(o, f, fr, tr, is, m, tr2, m2, not, Repr::Bool, ValueV::Bool(!same))
    }
}

/// A comparison: of strings through their order, of numbers where both can be ordered.
proof fn lemma_comparison(
    o: Answers,
    f: FunctionV,
    fr: FrameV,
    tr: Tr,
    is: Seq<InstV>,
    m: Running,
    op: BinOp,
    l: ValueId,
    r: ValueId,
    v: ValueV,
) -> (m2: Running)
    requires
        begins(o, f, fr, tr, is, m),
        op == BinOp::Lt || op == BinOp::Le || op == BinOp::Gt || op == BinOp::Ge,
        x_binary(f, tr, op, l, r) is Ok,
        begun((x_binary(f, tr, op, l, r)->Ok_0).0.insts, is),
        fr.values.dom().contains(l),
        fr.values.dom().contains(r),
        is_numeric(f.values[l as int]) <==> fr.values[l] is Number,
        is_numeric(f.values[r as int]) <==> fr.values[r] is Number,
        effect_meaning(o, vm::binary_effect(op, fr.values[l], fr.values[r])) == Some(v),
    ensures
        ({
            let (tr2, x) = x_binary(f, tr, op, l, r)->Ok_0;
            &&& leaves(o, f, fr, tr, is, m, tr2, m2, x, Repr::Bool, v)
            &&& m2.ctx.heap == m.ctx.heap
        }),
{
    reveal(x_binary);
    reveal(x_ordering);
    let n = tr.insts.len() as int;
    let (a, b) = (fr.values[l], fr.values[r]);
    let c = if a is Number {
        Repr::Number
    } else {
        Repr::Ptr
    };
    let (tr1, (x, y)) = x_both(f, tr, l, c, r, c)->Ok_0;
    if a is Number {
        let test = InstV::FloatTest(relation_of(op), x, y);
        let check = InstV::Call(Shim::CheckOrder, seq![x, y]);
        let tr2 = tr1.emit(test).0;
        lemma_emit_adds(tr1, test);
        lemma_emit_adds(tr2, check);
        lemma_begun(tr2.insts, tr2.emit(check).0.insts, is);
        lemma_begun(tr1.insts, tr2.insts, is);
        let m1 = lemma_both(o, is, f, fr, tr, m, l, c, r, c);
        let k = tr1.insts.len() as int;
        let m2 = lemma_last(o, f, fr, tr, is, m, tr1, m1, test, Repr::Bool, v);
        lemma_kept(m, m1, m2, n, k);
        assert(m2.word(x) == m1.word(x) && m2.word(y) == m1.word(y));
        let m3 = lemma_emitted(o, is, m, n, tr2, m2, check);
        lemma_holds(f, tr2, tr2.emit(check).0, fr, m2, m3);
        m3
    } else {
        let ask = InstV::Call(Shim::StrOrder, seq![x, y]);
        let (tr2, w) = tr1.emit(ask);
        let test = InstV::IntTest(relation_of(op), w, 0);
        lemma_emit_adds(tr1, ask);
        lemma_emit_adds(tr2, test);
        lemma_begun(tr2.insts, tr2.emit(test).0.insts, is);
        lemma_begun(tr1.insts, tr2.insts, is);
        let m1 = lemma_both(o, is, f, fr, tr, m, l, c, r, c);
        assert(m1.ctx.at(m1.word(x) as u64) == a);
        assert(m1.ctx.at(m1.word(y) as u64) == b);
        let m2 = lemma_emitted(o, is, m, n, tr1, m1, ask);
        lemma_holds(f, tr1, tr2, fr, m1, m2);
        lemma_kept(m, m1, m2, n, tr1.insts.len() as int);
        lemma_last(o, f, fr, tr, is, m, tr2, m2, test, Repr::Bool, v)
    }
}

/// Arithmetic.
proof fn lemma_arithmetic(
    o: Answers,
    f: FunctionV,
    fr: FrameV,
    tr: Tr,
    is: Seq<InstV>,
    m: Running,
    op: BinOp,
    l: ValueId,
    r: ValueId,
) -> (m2: Running)
    requires
        begins(o, f, fr, tr, is, m),
        coherent(o),
        is_arith(op),
        x_binary(f, tr, op, l, r) is Ok,
        begun((x_binary(f, tr, op, l, r)->Ok_0).0.insts, is),
        fr.values.dom().contains(l),
        fr.values.dom().contains(r),
        fr.values[l] is Number,
        fr.values[r] is Number,
    ensures
        ({
            let (tr2, x) = x_binary(f, tr, op, l, r)->Ok_0;
            let v = ValueV::Number(arith(o, op, fr.values[l]->Number_0, fr.values[r]->Number_0));
            &&& leaves(o, f, fr, tr, is, m, tr2, m2, x, Repr::Number, v)
            &&& m2.ctx.heap == m.ctx.heap
        }),
{
    reveal(x_binary);
    reveal(x_arith);
    let n = tr.insts.len() as int;
    let c = Repr::Number;
    let (a, b) = (fr.values[l]->Number_0, fr.values[r]->Number_0);
    let (tr1, (x, y)) = x_both(f, tr, l, c, r, c)->Ok_0;
    let v = ValueV::Number(arith(o, op, a, b));
    let k = tr1.insts.len() as int;
    let first = match op {
        BinOp::Add => InstV::Float2(crate::codegen::translate::Float2::Add, x, y),
        BinOp::Sub => InstV::Float2(crate::codegen::translate::Float2::Sub, x, y),
        BinOp::Mul => InstV::Float2(crate::codegen::translate::Float2::Mul, x, y),
        BinOp::Pow => InstV::Call(Shim::Pow, seq![x, y]),
        _ => InstV::Float2(crate::codegen::translate::Float2::Div, x, y),
    };
    let (tr2, q) = tr1.emit(first);
    lemma_emit_adds(tr1, first);
    let down = InstV::Float1(Float1::Floor, q);
    let (tr3, fl) = tr2.emit(down);
    lemma_emit_adds(tr2, down);
    let back = InstV::Float2(crate::codegen::translate::Float2::Mul, fl, y);
    let (tr4, pr) = tr3.emit(back);
    lemma_emit_adds(tr3, back);
    let minus = InstV::Float2(crate::codegen::translate::Float2::Sub, x, pr);
    lemma_emit_adds(tr4, minus);
    if op == BinOp::Mod {
        lemma_begun(tr4.insts, tr4.emit(minus).0.insts, is);
        lemma_begun(tr3.insts, tr4.insts, is);
    }
    if op == BinOp::Mod || op == BinOp::FloorDiv {
        lemma_begun(tr2.insts, tr3.insts, is);
    }
    lemma_begun(tr1.insts, tr2.insts, is);
    let m1 = lemma_both(o, is, f, fr, tr, m, l, c, r, c);
    if op == BinOp::FloorDiv || op == BinOp::Mod {
        let quot = arith(o, BinOp::Div, a, b);
        let low = float1(o, Float1::Floor, quot);
        let m2 = lemma_last(o, f, fr, tr, is, m, tr1, m1, first, c, ValueV::Number(quot));
        lemma_kept(m, m1, m2, n, k);
        let m3 = lemma_last(o, f, fr, tr, is, m, tr2, m2, down, c, ValueV::Number(low));
        lemma_kept(m, m2, m3, n, k + 1);
        if op == BinOp::FloorDiv {
            m3
        } else {
            let prod = arith(o, BinOp::Mul, low, b);
            assert(m3.word(y) == m1.word(y) && m3.word(x) == m1.word(x)) by {
                assert(m2.word(y) == m1.word(y) && m2.word(x) == m1.word(x));
            }
            let m4 = lemma_last(o, f, fr, tr, is, m, tr3, m3, back, c, ValueV::Number(prod));
            lemma_kept(m, m3, m4, n, k + 2);
            assert(m4.word(x) == m3.word(x));
            lemma_last(o, f, fr, tr, is, m, tr4, m4, minus, c, v)
        }
    } else {
        lemma_last(o, f, fr, tr, is, m, tr1, m1, first, c, v)
    }
}

/// Reads of arrays, maps and cells, and the keys of a map.
proof fn lemma_read(
    o: Answers,
    p: ProgramV,
    f: FunctionV,
    fr: FrameV,
    tr: Tr,
    is: Seq<InstV>,
    m: Running,
    i: InstrV,
    st: VmV,
    v: ValueV,
) -> (m2: Running)
    requires
        begins(o, f, fr, tr, is, m),
        i.op is ArrayGet || i.op is MapGet || i.op is CellGet || i.op is MapKeys || i.op is FieldGet
            || i.op is ClosureEnvGet || i.op is NamespaceField,
        x_read(f, tr, i.op, i.dest) is Ok,
        begun((x_read(f, tr, i.op, i.dest)->Ok_0).0.insts, is),
        has_pools(m.ctx.pools, (x_read(f, tr, i.op, i.dest)->Ok_0).0.pools),
        effect_meaning(o, vm::eval_op_of(p, st, fr, i.op).effect) == Some(v),
        st.heap == m.ctx.heap,
        i.dest matches Some(d) ==> d < f.values.len() && fits_repr(v, class_of(f, d)) && class_of(
            f,
            d,
        ) != Repr::Unit,
    ensures
        ({
            let (tr2, r) = x_read(f, tr, i.op, i.dest)->Ok_0;
            &&& r is Some
            &&& leaves(o, f, fr, tr, is, m, tr2, m2, r->0, result_class(p, f, i.op, i.dest), v)
            &&& m2.ctx.heap == vm::eval_op_of(p, st, fr, i.op).heap
        }),
{
    match i.op {
        OpV::ArrayGet(_, _) | OpV::MapGet(_, _) => lemma_read_two(o, p, f, fr, tr, is, m, i, st, v),
        OpV::CellGet(_) | OpV::MapKeys(_) | OpV::ClosureEnvGet(_, _) => lemma_read_one(o, p, f, fr, tr, is, m, i, st, v),
        OpV::FieldGet(_, _) | OpV::NamespaceField(_, _) => lemma_read_named(o, p, f, fr, tr, is, m, i, st, v),
        _ => m,
    }
}

#[verifier::rlimit(60)]
proof fn lemma_read_two(
    o: Answers,
    p: ProgramV,
    f: FunctionV,
    fr: FrameV,
    tr: Tr,
    is: Seq<InstV>,
    m: Running,
    i: InstrV,
    st: VmV,
    v: ValueV,
) -> (m2: Running)
    requires
        begins(o, f, fr, tr, is, m),
        i.op is ArrayGet || i.op is MapGet,
        x_read(f, tr, i.op, i.dest) is Ok,
        begun((x_read(f, tr, i.op, i.dest)->Ok_0).0.insts, is),
        has_pools(m.ctx.pools, (x_read(f, tr, i.op, i.dest)->Ok_0).0.pools),
        effect_meaning(o, vm::eval_op_of(p, st, fr, i.op).effect) == Some(v),
        st.heap == m.ctx.heap,
        i.dest matches Some(d) ==> d < f.values.len() && fits_repr(v, class_of(f, d)) && class_of(
            f,
            d,
        ) != Repr::Unit,
    ensures
        ({
            let (tr2, r) = x_read(f, tr, i.op, i.dest)->Ok_0;
            &&& r is Some
            &&& leaves(o, f, fr, tr, is, m, tr2, m2, r->0, result_class(p, f, i.op, i.dest), v)
            &&& m2.ctx.heap == vm::eval_op_of(p, st, fr, i.op).heap
        }),
{
    reveal(x_read);
    reveal(vm::eval_op_of);
    reveal(vm::read_op);
    let n = tr.insts.len() as int;
    match i.op {
        OpV::ArrayGet(x, y) | OpV::MapGet(x, y) => {
            let c = if i.op is ArrayGet {
                Repr::Number
            } else {
                Repr::Ptr
            };
            let (tr1, (a, b)) = x_both(f, tr, x, Repr::Ptr, y, c)->Ok_0;
            let s = if i.op is ArrayGet {
                Shim::ArrayGet
            } else {
                Shim::MapGet
            };
            let call = InstV::Call(s, seq![a, b]);
            let (tr2, h) = tr1.emit(call);
            lemma_emit_adds(tr1, call);
            lemma_result_adds(f, tr2, h, i.dest);
            lemma_begun(tr2.insts, (x_result(f, tr2, h, i.dest)->Ok_0).0.insts, is);
            lemma_begun(tr1.insts, tr2.insts, is);
            let m1 = lemma_both(o, is, f, fr, tr, m, x, Repr::Ptr, y, c);
            assert(m1.ctx.at(m1.word(a) as u64) == fr.values[x]);
            if i.op is MapGet {
                assert(m1.ctx.at(m1.word(b) as u64) == fr.values[y]);
            }
            let m2 = lemma_last(o, f, fr, tr, is, m, tr1, m1, call, Repr::Ptr, v);
            lemma_kept(m, m1, m2, n, tr1.insts.len() as int);
            lemma_result(o, f, fr, tr, is, m, tr2, m2, h, i.dest, v)
        },
        _ => m,
    }
}

#[verifier::rlimit(60)]
proof fn lemma_read_one(
    o: Answers,
    p: ProgramV,
    f: FunctionV,
    fr: FrameV,
    tr: Tr,
    is: Seq<InstV>,
    m: Running,
    i: InstrV,
    st: VmV,
    v: ValueV,
) -> (m2: Running)
    requires
        begins(o, f, fr, tr, is, m),
        i.op is CellGet || i.op is MapKeys || i.op is ClosureEnvGet,
        x_read(f, tr, i.op, i.dest) is Ok,
        begun((x_read(f, tr, i.op, i.dest)->Ok_0).0.insts, is),
        has_pools(m.ctx.pools, (x_read(f, tr, i.op, i.dest)->Ok_0).0.pools),
        effect_meaning(o, vm::eval_op_of(p, st, fr, i.op).effect) == Some(v),
        st.heap == m.ctx.heap,
        i.dest matches Some(d) ==> d < f.values.len() && fits_repr(v, class_of(f, d)) && class_of(
            f,
            d,
        ) != Repr::Unit,
    ensures
        ({
            let (tr2, r) = x_read(f, tr, i.op, i.dest)->Ok_0;
            &&& r is Some
            &&& leaves(o, f, fr, tr, is, m, tr2, m2, r->0, result_class(p, f, i.op, i.dest), v)
            &&& m2.ctx.heap == vm::eval_op_of(p, st, fr, i.op).heap
        }),
{
    reveal(x_read);
    reveal(vm::eval_op_of);
    reveal(vm::read_op);
    reveal(vm::make_op);
    let n = tr.insts.len() as int;
    match i.op {
        OpV::CellGet(x) => {
            let (tr1, a) = x_as(f, tr, x, Repr::Ptr)->Ok_0;
            let call = InstV::Call(Shim::CellGet, seq![a]);
            let (tr2, h) = tr1.emit(call);
            lemma_emit_adds(tr1, call);
            lemma_result_adds(f, tr2, h, i.dest);
            lemma_begun(tr2.insts, (x_result(f, tr2, h, i.dest)->Ok_0).0.insts, is);
            lemma_begun(tr1.insts, tr2.insts, is);
            lemma_starts(o, is, m, tr);
            let m1 = lemma_as(o, is, m, n, f, fr, tr, m, x, Repr::Ptr, 8);
            assert(m1.ctx.at(m1.word(a) as u64) == fr.values[x]);
            let m2 = lemma_last(o, f, fr, tr, is, m, tr1, m1, call, Repr::Ptr, v);
            lemma_kept(m, m1, m2, n, tr1.insts.len() as int);
            lemma_result(o, f, fr, tr, is, m, tr2, m2, h, i.dest, v)
        },
        OpV::MapKeys(x) => {
            let (tr1, a) = x_as(f, tr, x, Repr::Ptr)->Ok_0;
            let call = InstV::Call(Shim::MapKeys, seq![a]);
            lemma_emit_adds(tr1, call);
            lemma_begun(tr1.insts, tr1.emit(call).0.insts, is);
            lemma_starts(o, is, m, tr);
            let m1 = lemma_as(o, is, m, n, f, fr, tr, m, x, Repr::Ptr, 8);
            assert(m1.ctx.at(m1.word(a) as u64) == fr.values[x]);
            lemma_last(o, f, fr, tr, is, m, tr1, m1, call, Repr::Ptr, v)
        },
        OpV::ClosureEnvGet(x, j) => {
            let (tr1, a) = x_as(f, tr, x, Repr::Ptr)->Ok_0;
            let look = InstV::Int(ClifTy::I32, j as i64);
            let (tr2, b) = tr1.emit(look);
            let call = InstV::Call(Shim::ClosureEnvGet, seq![a, b]);
            lemma_emit_adds(tr1, look);
            lemma_emit_adds(tr2, call);
            lemma_begun(tr2.insts, tr2.emit(call).0.insts, is);
            lemma_begun(tr1.insts, tr2.insts, is);
            lemma_starts(o, is, m, tr);
            let m1 = lemma_as(o, is, m, n, f, fr, tr, m, x, Repr::Ptr, 8);
            let m2 = lemma_emitted(o, is, m, n, tr1, m1, look);
            lemma_holds(f, tr1, tr2, fr, m1, m2);
            lemma_kept(m, m1, m2, n, tr1.insts.len() as int);
            assert(m2.ctx.at(m2.word(a) as u64) == fr.values[x]);
            lemma_last(o, f, fr, tr, is, m, tr2, m2, call, Repr::Ptr, v)
        },
        _ => m,
    }
}

#[verifier::rlimit(60)]
proof fn lemma_read_named(
    o: Answers,
    p: ProgramV,
    f: FunctionV,
    fr: FrameV,
    tr: Tr,
    is: Seq<InstV>,
    m: Running,
    i: InstrV,
    st: VmV,
    v: ValueV,
) -> (m2: Running)
    requires
        begins(o, f, fr, tr, is, m),
        i.op is FieldGet || i.op is NamespaceField,
        x_read(f, tr, i.op, i.dest) is Ok,
        begun((x_read(f, tr, i.op, i.dest)->Ok_0).0.insts, is),
        has_pools(m.ctx.pools, (x_read(f, tr, i.op, i.dest)->Ok_0).0.pools),
        effect_meaning(o, vm::eval_op_of(p, st, fr, i.op).effect) == Some(v),
        st.heap == m.ctx.heap,
        i.dest matches Some(d) ==> d < f.values.len() && fits_repr(v, class_of(f, d)) && class_of(
            f,
            d,
        ) != Repr::Unit,
    ensures
        ({
            let (tr2, r) = x_read(f, tr, i.op, i.dest)->Ok_0;
            &&& r is Some
            &&& leaves(o, f, fr, tr, is, m, tr2, m2, r->0, result_class(p, f, i.op, i.dest), v)
            &&& m2.ctx.heap == vm::eval_op_of(p, st, fr, i.op).heap
        }),
{
    reveal(x_read);
    reveal(vm::eval_op_of);
    reveal(vm::read_op);
    reveal(vm::name_op);
    let n = tr.insts.len() as int;
    match i.op {
        OpV::FieldGet(x, name) => {
            reveal(Tr::name);
            let (tr1, a) = x_as(f, tr, x, Repr::Ptr)->Ok_0;
            let (tr2, idx) = tr1.name(name);
            let look = InstV::Int(ClifTy::I32, idx as i64);
            let (tr3, b) = tr2.emit(look);
            let call = InstV::Call(Shim::FieldGet, seq![a, b]);
            let (tr4, h) = tr3.emit(call);
            lemma_emit_adds(tr2, look);
            lemma_emit_adds(tr3, call);
            lemma_result_adds(f, tr4, h, i.dest);
            lemma_begun(tr4.insts, (x_result(f, tr4, h, i.dest)->Ok_0).0.insts, is);
            lemma_begun(tr3.insts, tr4.insts, is);
            lemma_begun(tr2.insts, tr3.insts, is);
            lemma_starts(o, is, m, tr);
            let m1 = lemma_as(o, is, m, n, f, fr, tr, m, x, Repr::Ptr, 8);
            assert(reached(o, is, m, n, tr2, m1));
            let m2 = lemma_emitted(o, is, m, n, tr2, m1, look);
            assert(tr4.pools == tr2.pools) by {
                reveal(Tr::emit);
            }
            lemma_pool(tr1.pools.names, m.ctx.pools.names, name);
            lemma_holds(f, tr1, tr3, fr, m1, m2);
            lemma_kept(m, m1, m2, n, tr1.insts.len() as int);
            assert(m2.ctx.at(m2.word(a) as u64) == fr.values[x]);
            let m3 = lemma_last(o, f, fr, tr, is, m, tr3, m2, call, Repr::Ptr, v);
            lemma_kept(m, m2, m3, n, tr3.insts.len() as int);
            lemma_result(o, f, fr, tr, is, m, tr4, m3, h, i.dest, v)
        },
        OpV::NamespaceField(ns, field) => {
            reveal(Tr::namespace_field);
            let (tr2, idx) = tr.namespace_field(ns, field);
            let look = InstV::Int(ClifTy::I32, idx as i64);
            let (tr3, b) = tr2.emit(look);
            let call = InstV::Call(Shim::NamespaceField, seq![b]);
            let (tr4, h) = tr3.emit(call);
            lemma_emit_adds(tr2, look);
            lemma_emit_adds(tr3, call);
            lemma_result_adds(f, tr4, h, i.dest);
            lemma_begun(tr4.insts, (x_result(f, tr4, h, i.dest)->Ok_0).0.insts, is);
            lemma_begun(tr3.insts, tr4.insts, is);
            lemma_starts(o, is, m, tr2);
            let m2 = lemma_emitted(o, is, m, n, tr2, m, look);
            assert(tr4.pools == tr2.pools) by {
                reveal(Tr::emit);
            }
            lemma_pool(tr.pools.namespace_fields, m.ctx.pools.namespace_fields, (ns, field));
            lemma_holds(f, tr, tr3, fr, m, m2);
            let m3 = lemma_last(o, f, fr, tr, is, m, tr3, m2, call, Repr::Ptr, v);
            lemma_kept(m, m2, m3, n, tr3.insts.len() as int);
            lemma_result(o, f, fr, tr, is, m, tr4, m3, h, i.dest, v)
        },
        _ => m,
    }
}

proof fn lemma_result_adds(f: FunctionV, tr: Tr, h: Reg, dest: Option<ValueId>)
    ensures
        x_result(f, tr, h, dest) matches Ok((tr2, _)) ==> begun(tr.insts, tr2.insts) && tr2.pools
            == tr.pools,
{
    reveal(Tr::unboxed);
    reveal(Tr::emit);
}

/// Writes to arrays, maps, records and cells, and new cells.
proof fn lemma_write(
    o: Answers,
    p: ProgramV,
    f: FunctionV,
    fr: FrameV,
    tr: Tr,
    is: Seq<InstV>,
    m: Running,
    i: InstrV,
    st: VmV,
    v: ValueV,
) -> (m2: Running)
    requires
        begins(o, f, fr, tr, is, m),
        i.op is ArraySet || i.op is MapSet || i.op is FieldSet || i.op is CellSet,
        x_write(f, tr, i.op) is Ok,
        begun((x_write(f, tr, i.op)->Ok_0).0.insts, is),
        has_pools(m.ctx.pools, (x_write(f, tr, i.op)->Ok_0).0.pools),
        effect_meaning(o, vm::eval_op_of(p, st, fr, i.op).effect) == Some(v),
        st.heap == m.ctx.heap,
        st.frozen == m.ctx.frozen,
    ensures
        ({
            let tr2 = (x_write(f, tr, i.op)->Ok_0).0;
            &&& reached(o, is, m, tr.insts.len() as int, tr2, m2)
            &&& ready(m2.ctx, 1)
            &&& m2.ctx == (CtxV { values: m2.ctx.values, heap: m2.ctx.heap, ..m.ctx })
            &&& tr2.ssa == tr.ssa
            &&& tr.insts.len() <= tr2.insts.len()
            &&& holds(f, tr2, fr, m2)
            &&& m2.ctx.heap == vm::eval_op_of(p, st, fr, i.op).heap
        }),
{
    match i.op {
        OpV::ArraySet(_, _, _) | OpV::MapSet(_, _, _) => lemma_write_two(o, p, f, fr, tr, is, m, i, st, v),
        OpV::FieldSet(_, _, _) | OpV::CellSet(_, _) => lemma_write_one(o, p, f, fr, tr, is, m, i, st, v),
        _ => m,
    }
}

#[verifier::rlimit(60)]
proof fn lemma_write_two(
    o: Answers,
    p: ProgramV,
    f: FunctionV,
    fr: FrameV,
    tr: Tr,
    is: Seq<InstV>,
    m: Running,
    i: InstrV,
    st: VmV,
    v: ValueV,
) -> (m2: Running)
    requires
        begins(o, f, fr, tr, is, m),
        i.op is ArraySet || i.op is MapSet,
        x_write(f, tr, i.op) is Ok,
        begun((x_write(f, tr, i.op)->Ok_0).0.insts, is),
        has_pools(m.ctx.pools, (x_write(f, tr, i.op)->Ok_0).0.pools),
        effect_meaning(o, vm::eval_op_of(p, st, fr, i.op).effect) == Some(v),
        st.heap == m.ctx.heap,
        st.frozen == m.ctx.frozen,
    ensures
        ({
            let tr2 = (x_write(f, tr, i.op)->Ok_0).0;
            &&& reached(o, is, m, tr.insts.len() as int, tr2, m2)
            &&& ready(m2.ctx, 1)
            &&& m2.ctx == (CtxV { values: m2.ctx.values, heap: m2.ctx.heap, ..m.ctx })
            &&& tr2.ssa == tr.ssa
            &&& tr.insts.len() <= tr2.insts.len()
            &&& holds(f, tr2, fr, m2)
            &&& m2.ctx.heap == vm::eval_op_of(p, st, fr, i.op).heap
        }),
{
    reveal(x_write);
    reveal(vm::eval_op_of);
    reveal(vm::write_op);
    let n = tr.insts.len() as int;
    match i.op {
        OpV::ArraySet(x, y, z) | OpV::MapSet(x, y, z) => {
            let c = if i.op is ArraySet {
                Repr::Number
            } else {
                Repr::Ptr
            };
            let (tr1, (a, b)) = x_both(f, tr, x, Repr::Ptr, y, c)->Ok_0;
            let (tr2, h) = x_boxed(f, tr1, z)->Ok_0;
            let s = if i.op is ArraySet {
                Shim::ArraySet
            } else {
                Shim::MapSet
            };
            let call = InstV::Call(s, seq![a, b, h]);
            lemma_emit_adds(tr2, call);
            lemma_boxed_adds(f, tr1, z);
            lemma_begun(tr2.insts, tr2.emit(call).0.insts, is);
            lemma_begun(tr1.insts, tr2.insts, is);
            let m1 = lemma_both(o, is, f, fr, tr, m, x, Repr::Ptr, y, c);
            let m2 = lemma_boxed(o, is, m, n, f, fr, tr1, m1, z, 6);
            let k = tr1.insts.len() as int;
            lemma_stands(m1, m2, k, a, Repr::Ptr, fr.values[x]);
            lemma_stands(m1, m2, k, b, c, fr.values[y]);
            assert(m2.ctx.at(m2.word(a) as u64) == fr.values[x]);
            if i.op is MapSet {
                assert(m2.ctx.at(m2.word(b) as u64) == fr.values[y]);
            }
            assert(m2.ctx.at(m2.word(h) as u64) == fr.values[z]);
            lemma_kept(m, m1, m2, n, k);
            let m3 = lemma_emitted(o, is, m, n, tr2, m2, call);
            lemma_holds(f, tr2, tr2.emit(call).0, fr, m2, m3);
            m3
        },
        _ => m,
    }
}

#[verifier::rlimit(60)]
proof fn lemma_write_one(
    o: Answers,
    p: ProgramV,
    f: FunctionV,
    fr: FrameV,
    tr: Tr,
    is: Seq<InstV>,
    m: Running,
    i: InstrV,
    st: VmV,
    v: ValueV,
) -> (m2: Running)
    requires
        begins(o, f, fr, tr, is, m),
        i.op is FieldSet || i.op is CellSet,
        x_write(f, tr, i.op) is Ok,
        begun((x_write(f, tr, i.op)->Ok_0).0.insts, is),
        has_pools(m.ctx.pools, (x_write(f, tr, i.op)->Ok_0).0.pools),
        effect_meaning(o, vm::eval_op_of(p, st, fr, i.op).effect) == Some(v),
        st.heap == m.ctx.heap,
        st.frozen == m.ctx.frozen,
    ensures
        ({
            let tr2 = (x_write(f, tr, i.op)->Ok_0).0;
            &&& reached(o, is, m, tr.insts.len() as int, tr2, m2)
            &&& ready(m2.ctx, 1)
            &&& m2.ctx == (CtxV { values: m2.ctx.values, heap: m2.ctx.heap, ..m.ctx })
            &&& tr2.ssa == tr.ssa
            &&& tr.insts.len() <= tr2.insts.len()
            &&& holds(f, tr2, fr, m2)
            &&& m2.ctx.heap == vm::eval_op_of(p, st, fr, i.op).heap
        }),
{
    reveal(x_write);
    reveal(vm::eval_op_of);
    reveal(vm::write_op);
    let n = tr.insts.len() as int;
    match i.op {
        OpV::FieldSet(x, name, z) => {
            reveal(Tr::name);
            let (tr1, a) = x_as(f, tr, x, Repr::Ptr)->Ok_0;
            let (tr2, idx) = tr1.name(name);
            let look = InstV::Int(ClifTy::I32, idx as i64);
            let (tr3, b) = tr2.emit(look);
            let (tr4, h) = x_boxed(f, tr3, z)->Ok_0;
            let call = InstV::Call(Shim::FieldSet, seq![a, b, h]);
            lemma_emit_adds(tr2, look);
            lemma_boxed_adds(f, tr3, z);
            lemma_emit_adds(tr4, call);
            lemma_begun(tr4.insts, tr4.emit(call).0.insts, is);
            lemma_begun(tr3.insts, tr4.insts, is);
            lemma_begun(tr2.insts, tr3.insts, is);
            lemma_starts(o, is, m, tr);
            let m1 = lemma_as(o, is, m, n, f, fr, tr, m, x, Repr::Ptr, 8);
            assert(reached(o, is, m, n, tr2, m1));
            let m2 = lemma_emitted(o, is, m, n, tr2, m1, look);
            lemma_holds(f, tr1, tr3, fr, m1, m2);
            let k = tr1.insts.len() as int;
            lemma_stands(m1, m2, k, a, Repr::Ptr, fr.values[x]);
            lemma_kept(m, m1, m2, n, k);
            let m3 = lemma_boxed(o, is, m, n, f, fr, tr3, m2, z, 7);
            let k3 = tr3.insts.len() as int;
            lemma_stands(m2, m3, k3, a, Repr::Ptr, fr.values[x]);
            assert(m3.regs[b as int] == m2.regs[b as int]);
            lemma_kept(m, m2, m3, n, k3);
            assert(tr4.emit(call).0.pools == tr2.pools) by {
                reveal(Tr::emit);
            }
            lemma_pool(tr1.pools.names, m.ctx.pools.names, name);
            assert(m3.ctx.at(m3.word(a) as u64) == fr.values[x]);
            assert(m3.ctx.at(m3.word(h) as u64) == fr.values[z]);
            let m4 = lemma_emitted(o, is, m, n, tr4, m3, call);
            lemma_holds(f, tr4, tr4.emit(call).0, fr, m3, m4);
            m4
        },
        OpV::CellSet(x, z) => {
            let (tr1, a) = x_as(f, tr, x, Repr::Ptr)->Ok_0;
            let (tr2, h) = x_boxed(f, tr1, z)->Ok_0;
            let call = InstV::Call(Shim::CellSet, seq![a, h]);
            lemma_boxed_adds(f, tr1, z);
            lemma_emit_adds(tr2, call);
            lemma_begun(tr2.insts, tr2.emit(call).0.insts, is);
            lemma_begun(tr1.insts, tr2.insts, is);
            lemma_starts(o, is, m, tr);
            let m1 = lemma_as(o, is, m, n, f, fr, tr, m, x, Repr::Ptr, 8);
            let m2 = lemma_boxed(o, is, m, n, f, fr, tr1, m1, z, 7);
            let k = tr1.insts.len() as int;
            lemma_stands(m1, m2, k, a, Repr::Ptr, fr.values[x]);
            lemma_kept(m, m1, m2, n, k);
            assert(m2.ctx.at(m2.word(a) as u64) == fr.values[x]);
            assert(m2.ctx.at(m2.word(h) as u64) == fr.values[z]);
            let m3 = lemma_emitted(o, is, m, n, tr2, m2, call);
            lemma_holds(f, tr2, tr2.emit(call).0, fr, m2, m3);
            m3
        },
        _ => m,
    }
}

/// A new cell.
proof fn lemma_cell(
    o: Answers,
    p: ProgramV,
    f: FunctionV,
    fr: FrameV,
    tr: Tr,
    is: Seq<InstV>,
    m: Running,
    x: ValueId,
    st: VmV,
    v: ValueV,
) -> (m2: Running)
    requires
        begins(o, f, fr, tr, is, m),
        x_make(f, tr, OpV::MakeCell(x)) is Ok,
        begun((x_make(f, tr, OpV::MakeCell(x))->Ok_0).0.insts, is),
        effect_meaning(o, vm::eval_op_of(p, st, fr, OpV::MakeCell(x)).effect) == Some(v),
        st.heap == m.ctx.heap,
    ensures
        ({
            let (tr2, r) = x_make(f, tr, OpV::MakeCell(x))->Ok_0;
            &&& r is Some
            &&& leaves(o, f, fr, tr, is, m, tr2, m2, r->0, Repr::Ptr, v)
            &&& m2.ctx.heap == vm::eval_op_of(p, st, fr, OpV::MakeCell(x)).heap
        }),
{
    reveal(x_make);
    reveal(vm::eval_op_of);
    reveal(vm::make_op);
    let n = tr.insts.len() as int;
    let (tr1, h) = x_boxed(f, tr, x)->Ok_0;
    let call = InstV::Call(Shim::CellNew, seq![h]);
    lemma_emit_adds(tr1, call);
    lemma_begun(tr1.insts, tr1.emit(call).0.insts, is);
    lemma_starts(o, is, m, tr);
    let m1 = lemma_boxed(o, is, m, n, f, fr, tr, m, x, 8);
    assert(m1.ctx.at(m1.word(h) as u64) == fr.values[x]);
    lemma_last(o, f, fr, tr, is, m, tr1, m1, call, Repr::Ptr, v)
}

// ---- new arrays and tables ---------------------------------------------------------------------

/// The values that a frame has for the first `n` of some temporaries.
spec fn first_values(fr: FrameV, vs: Seq<ValueId>, n: int) -> Seq<ValueV> {
    Seq::new(n as nat, |k: int| fr.values[vs[k]])
}

/// The elements of a new array from the `k`-th on.
proof fn lemma_pushed(
    o: Answers,
    f: FunctionV,
    fr: FrameV,
    is: Seq<InstV>,
    m: Running,
    n: int,
    tr: Tr,
    m1: Running,
    arr: Reg,
    at: usize,
    base: HeapV,
    vs: Seq<ValueId>,
    k: int,
) -> (m2: Running)
    requires
        reached(o, is, m, n, tr, m1),
        x_push_all(f, tr, arr, vs, k) is Ok,
        begun((x_push_all(f, tr, arr, vs, k)->Ok_0).0.insts, is),
        0 <= k <= vs.len(),
        ready(m1.ctx, vs.len() - k + 2),
        holds(f, tr, fr, m1),
        forall|q: int| 0 <= q < vs.len() ==> fr.values.dom().contains(#[trigger] vs[q]),
        arr < tr.insts.len(),
        stands_for(m1.ctx, m1.word(arr), Repr::Ptr, ValueV::Array(at)),
        at == base.len(),
        m1.ctx.heap == base.push(ObjV::Array(first_values(fr, vs, k))),
        kept(m, m1, n),
        m1.vars == m.vars,
        n <= tr.insts.len(),
    ensures
        ({
            let tr2 = (x_push_all(f, tr, arr, vs, k)->Ok_0).0;
            &&& reached(o, is, m, n, tr2, m2)
            &&& ready(m2.ctx, 2)
            &&& kept(m, m2, n)
            &&& m2.vars == m.vars
            &&& tr2.ssa == tr.ssa
            &&& tr.insts.len() <= tr2.insts.len()
            &&& holds(f, tr2, fr, m2)
            &&& stands_for(m2.ctx, m2.word(arr), Repr::Ptr, ValueV::Array(at))
            &&& m2.ctx.heap == base.push(ObjV::Array(first_values(fr, vs, vs.len() as int)))
        }),
    decreases vs.len() - k,
{
    unfold_x_push_all(f, tr, arr, vs, k);
    if k < vs.len() {
        let (tr1, h) = x_boxed(f, tr, vs[k])->Ok_0;
        let call = InstV::Call(Shim::ArrayPush, seq![arr, h]);
        let tr2 = tr1.emit(call).0;
        lemma_push_adds(f, tr2, arr, vs, k + 1);
        lemma_emit_adds(tr1, call);
        let end = (x_push_all(f, tr, arr, vs, k)->Ok_0).0.insts;
        lemma_begun(tr2.insts, end, is);
        lemma_begun(tr1.insts, tr2.insts, is);
        let room = vs.len() - k + 2;
        let ma = lemma_boxed(o, is, m, n, f, fr, tr, m1, vs[k], room);
        lemma_stands(m1, ma, tr.insts.len() as int, arr, Repr::Ptr, ValueV::Array(at));
        lemma_kept(m, m1, ma, n, tr.insts.len() as int);
        assert(ma.ctx.at(ma.word(arr) as u64) == ValueV::Array(at));
        assert(ma.ctx.at(ma.word(h) as u64) == fr.values[vs[k]]);
        let mb = lemma_emitted(o, is, m, n, tr1, ma, call);
        lemma_holds(f, tr1, tr2, fr, ma, mb);
        lemma_stands(ma, mb, tr1.insts.len() as int, arr, Repr::Ptr, ValueV::Array(at));
        lemma_kept(m, ma, mb, n, tr1.insts.len() as int);
        let old = first_values(fr, vs, k);
        let new = first_values(fr, vs, k + 1);
        assert(old.push(fr.values[vs[k]]) =~= new);
        assert(mb.ctx.heap =~= base.push(ObjV::Array(new)));
        lemma_pushed(o, f, fr, is, m, n, tr2, mb, arr, at, base, vs, k + 1)
    } else {
        m1
    }
}

proof fn lemma_push_adds(f: FunctionV, tr: Tr, arr: Reg, vs: Seq<ValueId>, k: int)
    requires
        0 <= k,
    ensures
        x_push_all(f, tr, arr, vs, k) matches Ok((tr2, _)) ==> begun(tr.insts, tr2.insts),
    decreases vs.len() - k,
{
    unfold_x_push_all(f, tr, arr, vs, k);
    if k < vs.len() && x_boxed(f, tr, vs[k]) is Ok {
        let (tr1, h) = x_boxed(f, tr, vs[k])->Ok_0;
        lemma_boxed_adds(f, tr, vs[k]);
        let call = InstV::Call(Shim::ArrayPush, seq![arr, h]);
        lemma_emit_adds(tr1, call);
        let tr2 = tr1.emit(call).0;
        lemma_begun(tr.insts, tr1.insts, tr2.insts);
        lemma_push_adds(f, tr2, arr, vs, k + 1);
        if x_push_all(f, tr2, arr, vs, k + 1) is Ok {
            lemma_begun(
                tr.insts,
                tr2.insts,
                (x_push_all(f, tr2, arr, vs, k + 1)->Ok_0).0.insts,
            );
        }
    }
}

/// A new array with its elements.
proof fn lemma_array(
    o: Answers,
    p: ProgramV,
    f: FunctionV,
    fr: FrameV,
    tr: Tr,
    is: Seq<InstV>,
    m: Running,
    vs: Seq<ValueId>,
    st: VmV,
    v: ValueV,
) -> (m2: Running)
    requires
        begins(o, f, fr, tr, is, m),
        ready(m.ctx, vs.len() as int + 8),
        x_make(f, tr, OpV::MakeArray(vs)) is Ok,
        begun((x_make(f, tr, OpV::MakeArray(vs))->Ok_0).0.insts, is),
        effect_meaning(o, vm::eval_op_of(p, st, fr, OpV::MakeArray(vs)).effect) == Some(v),
        st.heap == m.ctx.heap,
        forall|q: int| 0 <= q < vs.len() ==> fr.values.dom().contains(#[trigger] vs[q]),
    ensures
        ({
            let (tr2, r) = x_make(f, tr, OpV::MakeArray(vs))->Ok_0;
            &&& r is Some
            &&& leaves(o, f, fr, tr, is, m, tr2, m2, r->0, Repr::Ptr, v)
            &&& m2.ctx.heap == vm::eval_op_of(p, st, fr, OpV::MakeArray(vs)).heap
        }),
{
    reveal(x_make);
    let n = tr.insts.len() as int;
    let cap = InstV::Int(ClifTy::I32, (vs.len() as u32) as i64);
    let (tr1, c) = tr.emit(cap);
    let new = InstV::Call(Shim::ArrayNew, seq![c]);
    let (tr2, arr) = tr1.emit(new);
    lemma_emit_adds(tr, cap);
    lemma_emit_adds(tr1, new);
    lemma_push_adds(f, tr2, arr, vs, 0);
    lemma_begun(tr2.insts, (x_push_all(f, tr2, arr, vs, 0)->Ok_0).0.insts, is);
    lemma_begun(tr1.insts, tr2.insts, is);
    lemma_starts(o, is, m, tr);
    let m1 = lemma_emitted(o, is, m, n, tr, m, cap);
    lemma_holds(f, tr, tr1, fr, m, m1);
    let m2 = lemma_emitted(o, is, m, n, tr1, m1, new);
    lemma_holds(f, tr1, tr2, fr, m1, m2);
    lemma_kept(m, m1, m2, n, tr1.insts.len() as int);
    let at = st.heap.len() as usize;
    assert(first_values(fr, vs, 0) =~= Seq::<ValueV>::empty());
    let m3 = lemma_pushed(o, f, fr, is, m, n, tr2, m2, arr, at, st.heap, vs, 0);
    assert(vm::eval_op_of(p, st, fr, OpV::MakeArray(vs)).heap == m3.ctx.heap && v
        == ValueV::Array(at)) by {
        reveal(vm::eval_op_of);
        reveal(vm::make_op);
        let all = first_values(fr, vs, vs.len() as int);
        assert forall|q: int| 0 <= q < vs.len() implies super::has(fr, #[trigger] vs[q], all[q]) by {}
        super::branches::lemma_vals(fr, vs, all, 0);
        assert(all.take(0) =~= Seq::<ValueV>::empty());
    }
    m3
}

/// The entries of a new table from the `k`-th on.
proof fn lemma_set_all(
    o: Answers,
    f: FunctionV,
    fr: FrameV,
    is: Seq<InstV>,
    m: Running,
    n: int,
    tr: Tr,
    m1: Running,
    tbl: Reg,
    at: usize,
    base: HeapV,
    pairs: Seq<(Seq<char>, ValueId)>,
    k: int,
    acc: Seq<(Seq<char>, ValueV)>,
) -> (m2: Running)
    requires
        reached(o, is, m, n, tr, m1),
        x_set_all(f, tr, tbl, pairs, k) is Ok,
        begun((x_set_all(f, tr, tbl, pairs, k)->Ok_0).0.insts, is),
        has_pools(m1.ctx.pools, (x_set_all(f, tr, tbl, pairs, k)->Ok_0).0.pools),
        0 <= k <= pairs.len(),
        ready(m1.ctx, pairs.len() - k + 2),
        holds(f, tr, fr, m1),
        forall|q: int| 0 <= q < pairs.len() ==> fr.values.dom().contains((#[trigger] pairs[q]).1),
        tbl < tr.insts.len(),
        stands_for(m1.ctx, m1.word(tbl), Repr::Ptr, ValueV::Table(at)),
        at == base.len(),
        !is_frozen(m1.ctx.frozen, ValueV::Table(at)),
        m1.ctx.heap == base.push(ObjV::Table(acc)),
        kept(m, m1, n),
        m1.vars == m.vars,
        n <= tr.insts.len(),
    ensures
        vm::entries(fr, pairs, k, acc) is Ok,
        ({
            let tr2 = (x_set_all(f, tr, tbl, pairs, k)->Ok_0).0;
            &&& reached(o, is, m, n, tr2, m2)
            &&& ready(m2.ctx, 2)
            &&& kept(m, m2, n)
            &&& m2.vars == m.vars
            &&& tr2.ssa == tr.ssa
            &&& tr.insts.len() <= tr2.insts.len()
            &&& holds(f, tr2, fr, m2)
            &&& stands_for(m2.ctx, m2.word(tbl), Repr::Ptr, ValueV::Table(at))
            &&& m2.ctx.heap == base.push(ObjV::Table(vm::entries(fr, pairs, k, acc)->Ok_0))
        }),
    decreases pairs.len() - k,
{
    unfold_x_set_all(f, tr, tbl, pairs, k);
    vm::unfold_entries(fr, pairs, k, acc);
    if k < pairs.len() {
        let (name, id) = pairs[k];
        assert(fr.values.dom().contains(pairs[k].1));
        let (tra, idx) = tr.name(name);
        assert(tra.insts == tr.insts && tra.ssa == tr.ssa && tra.pools.names == interned_in(
            tr.pools.names,
            name,
        ).0) by {
            reveal(Tr::name);
        }
        assert(idx == interned_in(tr.pools.names, name).1) by {
            reveal(Tr::name);
        }
        let look = InstV::Int(ClifTy::I32, idx as i64);
        let (trb, nr) = tra.emit(look);
        let (trc, h) = x_boxed(f, trb, id)->Ok_0;
        let call = InstV::Call(Shim::FieldSet, seq![tbl, nr, h]);
        let trd = trc.emit(call).0;
        lemma_set_adds(f, trd, tbl, pairs, k + 1);
        lemma_emit_adds(trc, call);
        lemma_boxed_adds(f, trb, id);
        lemma_emit_adds(tra, look);
        let end = (x_set_all(f, tr, tbl, pairs, k)->Ok_0).0;
        lemma_begun(trd.insts, end.insts, is);
        lemma_begun(trc.insts, trd.insts, is);
        lemma_begun(trb.insts, trc.insts, is);
        lemma_boxed_pools(f, trb, id);
        assert(begun(tra.pools.names, m1.ctx.pools.names)) by {
            assert forall|q: int| 0 <= q < tra.pools.names.len() implies m1.ctx.pools.names[q]
                == #[trigger] tra.pools.names[q] by {
                assert(end.pools.names[q] == trd.pools.names[q]);
            }
        }
        lemma_pool(tr.pools.names, m1.ctx.pools.names, name);
        assert(reached(o, is, m, n, tra, m1));
        let ma = lemma_emitted(o, is, m, n, tra, m1, look);
        lemma_holds(f, tr, trb, fr, m1, ma);
        let kt = tr.insts.len() as int;
        lemma_stands(m1, ma, kt, tbl, Repr::Ptr, ValueV::Table(at));
        lemma_kept(m, m1, ma, n, kt);
        let room = pairs.len() - k + 2;
        let mb = lemma_boxed(o, is, m, n, f, fr, trb, ma, id, room);
        let kb = trb.insts.len() as int;
        lemma_stands(ma, mb, kb, tbl, Repr::Ptr, ValueV::Table(at));
        assert(mb.regs[nr as int] == ma.regs[nr as int]);
        lemma_kept(m, ma, mb, n, kb);
        assert(mb.ctx.at(mb.word(tbl) as u64) == ValueV::Table(at));
        assert(mb.ctx.at(mb.word(h) as u64) == fr.values[id]);
        let mc = lemma_emitted(o, is, m, n, trc, mb, call);
        lemma_holds(f, trc, trd, fr, mb, mc);
        let kc = trc.insts.len() as int;
        lemma_stands(mb, mc, kc, tbl, Repr::Ptr, ValueV::Table(at));
        lemma_kept(m, mb, mc, n, kc);
        let more = crate::names::put_of(acc, name, fr.values[id]);
        assert(mc.ctx.heap =~= base.push(ObjV::Table(more)));
        lemma_set_all(o, f, fr, is, m, n, trd, mc, tbl, at, base, pairs, k + 1, more)
    } else {
        m1
    }
}

proof fn lemma_boxed_pools(f: FunctionV, tr: Tr, v: ValueId)
    ensures
        x_boxed(f, tr, v) matches Ok((tr2, _)) ==> tr2.pools == tr.pools,
{
    reveal(x_boxed);
    reveal(Tr::emit);
}

proof fn lemma_set_adds(
    f: FunctionV,
    tr: Tr,
    tbl: Reg,
    pairs: Seq<(Seq<char>, ValueId)>,
    k: int,
)
    requires
        0 <= k,
    ensures
        x_set_all(f, tr, tbl, pairs, k) matches Ok((tr2, _)) ==> begun(tr.insts, tr2.insts)
            && begun(tr.pools.names, tr2.pools.names),
    decreases pairs.len() - k,
{
    unfold_x_set_all(f, tr, tbl, pairs, k);
    if k < pairs.len() {
        let (name, id) = pairs[k];
        let (tra, idx) = tr.name(name);
        assert(tra.insts == tr.insts && begun(tr.pools.names, tra.pools.names)) by {
            reveal(Tr::name);
        }
        let look = InstV::Int(ClifTy::I32, idx as i64);
        let (trb, nr) = tra.emit(look);
        lemma_emit_adds(tra, look);
        if x_boxed(f, trb, id) is Ok {
            let (trc, h) = x_boxed(f, trb, id)->Ok_0;
            lemma_boxed_adds(f, trb, id);
            lemma_boxed_pools(f, trb, id);
            let call = InstV::Call(Shim::FieldSet, seq![tbl, nr, h]);
            let trd = trc.emit(call).0;
            lemma_emit_adds(trc, call);
            lemma_begun(tr.insts, trb.insts, trc.insts);
            lemma_begun(tr.insts, trc.insts, trd.insts);
            lemma_set_adds(f, trd, tbl, pairs, k + 1);
            if x_set_all(f, trd, tbl, pairs, k + 1) is Ok {
                let end = (x_set_all(f, trd, tbl, pairs, k + 1)->Ok_0).0;
                lemma_begun(tr.insts, trd.insts, end.insts);
                assert forall|q: int| 0 <= q < tr.pools.names.len() implies end.pools.names[q]
                    == #[trigger] tr.pools.names[q] by {
                    assert(trd.pools.names[q] == tr.pools.names[q]);
                }
            }
        }
    }
}

/// A new table with its entries.
proof fn lemma_table(
    o: Answers,
    p: ProgramV,
    f: FunctionV,
    fr: FrameV,
    tr: Tr,
    is: Seq<InstV>,
    m: Running,
    pairs: Seq<(Seq<char>, ValueId)>,
    st: VmV,
    v: ValueV,
) -> (m2: Running)
    requires
        begins(o, f, fr, tr, is, m),
        ready(m.ctx, pairs.len() as int + 8),
        x_make(f, tr, OpV::MakeTable(pairs)) is Ok,
        begun((x_make(f, tr, OpV::MakeTable(pairs))->Ok_0).0.insts, is),
        has_pools(m.ctx.pools, (x_make(f, tr, OpV::MakeTable(pairs))->Ok_0).0.pools),
        effect_meaning(o, vm::eval_op_of(p, st, fr, OpV::MakeTable(pairs)).effect) == Some(v),
        st.heap == m.ctx.heap,
        !is_frozen(m.ctx.frozen, ValueV::Table(st.heap.len() as usize)),
        forall|q: int| 0 <= q < pairs.len() ==> fr.values.dom().contains((#[trigger] pairs[q]).1),
    ensures
        ({
            let (tr2, r) = x_make(f, tr, OpV::MakeTable(pairs))->Ok_0;
            &&& r is Some
            &&& leaves(o, f, fr, tr, is, m, tr2, m2, r->0, Repr::Ptr, v)
            &&& m2.ctx.heap == vm::eval_op_of(p, st, fr, OpV::MakeTable(pairs)).heap
        }),
{
    reveal(x_make);
    let n = tr.insts.len() as int;
    let new = InstV::Call(Shim::TableNew, Seq::empty());
    let (tr1, tbl) = tr.emit(new);
    lemma_emit_adds(tr, new);
    lemma_set_adds(f, tr1, tbl, pairs, 0);
    lemma_begun(tr1.insts, (x_set_all(f, tr1, tbl, pairs, 0)->Ok_0).0.insts, is);
    lemma_starts(o, is, m, tr);
    let m1 = lemma_emitted(o, is, m, n, tr, m, new);
    lemma_holds(f, tr, tr1, fr, m, m1);
    let at = st.heap.len() as usize;
    let m2 = lemma_set_all(
        o,
        f,
        fr,
        is,
        m,
        n,
        tr1,
        m1,
        tbl,
        at,
        st.heap,
        pairs,
        0,
        Seq::empty(),
    );
    assert(vm::eval_op_of(p, st, fr, OpV::MakeTable(pairs)).heap == m2.ctx.heap && v
        == ValueV::Table(at)) by {
        reveal(vm::eval_op_of);
        reveal(vm::make_op);
    }
    m2
}

/// Whether an instruction is one that the law tells of, and its operands and its result are of
/// their classes; an operand that is ordered is a number exactly if its type says so.
pub open spec fn told(p: ProgramV, f: FunctionV, fr: FrameV, i: InstrV, v: ValueV) -> bool {
    &&& i.dest matches Some(d) ==> d < f.values.len() && fits_repr(v, class_of(f, d)) && class_of(
        f,
        d,
    ) != Repr::Unit
    &&& match i.op {
        OpV::Binary(op, l, r) => match op {
            BinOp::And | BinOp::Or => false,
            BinOp::Lt | BinOp::Le | BinOp::Gt | BinOp::Ge => (is_numeric(f.values[l as int])
                <==> fr.values[l] is Number) && (is_numeric(f.values[r as int]) <==> fr.values[r]
                is Number),
            BinOp::Eq | BinOp::Ne => class_of(f, l) != Repr::Unit,
            _ => true,
        },
        OpV::ArraySet(_, _, _) | OpV::MapSet(_, _, _) | OpV::FieldSet(_, _, _)
        | OpV::CellSet(_, _) => i.dest is None,
        OpV::MakeArray(vs) => i.dest is Some && forall|q: int|
            0 <= q < vs.len() ==> fr.values.dom().contains(#[trigger] vs[q]),
        OpV::MakeTable(pairs) => i.dest is Some && forall|q: int|
            0 <= q < pairs.len() ==> fr.values.dom().contains((#[trigger] pairs[q]).1),
        OpV::LocalSet(id, _) => i.dest is None && is_var(f, id) && repr_of(f.locals[id])
            != Repr::Unit,
        OpV::ConstNil | OpV::ConstBool(_) | OpV::ConstNumber(_) | OpV::ConstString(_)
        | OpV::LocalGet(_) | OpV::Unary(_, _) | OpV::Truthy(_) | OpV::ArrayGet(_, _)
        | OpV::MapGet(_, _) | OpV::FieldGet(_, _) | OpV::CellGet(_) | OpV::MapKeys(_)
        | OpV::ClosureEnvGet(_, _) | OpV::NamespaceField(_, _) | OpV::MakeCell(_) => i.dest is Some,
        _ => false,
    }
}

/// The frame after an instruction.
pub open spec fn frame_after(fr: FrameV, i: InstrV, out: vm::Evaluated, v: ValueV) -> FrameV {
    FrameV {
        values: match i.dest {
            Some(d) => fr.values.insert(d, v),
            None => fr.values,
        },
        locals: out.locals,
        ..fr
    }
}

/// The code that an instruction becomes does what the machine does: where the machine gets a
/// value, the code runs to its end and notes no error, its register for the destination stands
/// for that value, the objects are those of the machine, and everything that the machine's frame
/// has is held. This is told of constants, variables, operators on numbers, strings and other
/// values, comparisons among them, new arrays and tables, and reads and writes of arrays, maps,
/// records and cells.
pub proof fn law_instructions_agree(
    o: Answers,
    p: ProgramV,
    f: FunctionV,
    tr: Tr,
    i: InstrV,
    st: VmV,
    fr: FrameV,
    m: Running,
    v: ValueV,
)
    requires
        coherent(o),
        x_instr(p, f, tr, i) is Ok,
        (x_instr(p, f, tr, i)->Ok_0).0.insts.len() <= usize::MAX,
        has_pools(m.ctx.pools, (x_instr(p, f, tr, i)->Ok_0).0.pools),
        ready(m.ctx, 8),
        m.ctx.heap == st.heap,
        m.ctx.frozen == st.frozen,
        holds(f, tr, fr, m),
        effect_meaning(o, vm::eval_op_of(p, st, fr, i.op).effect) == Some(v),
        told(p, f, fr, i, v),
        i.op matches OpV::LocalSet(id, x) ==> fits_repr(fr.values[x], repr_of(f.locals[id])),
        i.op matches OpV::MakeArray(vs) ==> ready(m.ctx, vs.len() as int + 8),
        i.op matches OpV::MakeTable(pairs) ==> ready(m.ctx, pairs.len() as int + 8) && !is_frozen(
            m.ctx.frozen,
            ValueV::Table(st.heap.len() as usize),
        ),
    ensures
        ({
            let tr1 = (x_instr(p, f, tr, i)->Ok_0).0;
            let out = vm::eval_op_of(p, st, fr, i.op);
            let end = run(o, tr1.insts, m, tr.insts.len() as int, tr1.insts.len() as int);
            end matches Some(m1) && m1.ctx.error is None && m1.ctx.heap == out.heap && holds(
                f,
                tr1,
                frame_after(fr, i, out, v),
                m1,
            )
        }),
{
    let tr1 = (x_instr(p, f, tr, i)->Ok_0).0;
    let is = tr1.insts;
    assert(translate_op_of(p, f, tr, i.op, i.dest) is Ok) by {
        reveal(x_instr);
    }
    let (tr2, r) = translate_op_of(p, f, tr, i.op, i.dest)->Ok_0;
    let out = vm::eval_op_of(p, st, fr, i.op);
    if let OpV::LocalSet(id, x) = i.op {
        lemma_set(o, p, f, fr, tr, i, id, x, st, m);
    } else {
        assert(i.dest is Some ==> r is Some) by {
            reveal(translate_op_of);
            reveal(x_local);
            reveal(x_read);
            reveal(x_make);
        }
        lemma_tail(p, f, tr, i, tr2, r);
        assert(begun(tr.insts, is)) by {
            lemma_op_adds(p, f, tr, i);
            lemma_begun(tr.insts, tr2.insts, is);
        }
        assert(out.locals == fr.locals) by {
            reveal(vm::eval_op_of);
            reveal(vm::make_op);
            reveal(vm::write_op);
        }
        let m2 = match i.op {
            OpV::ConstNil | OpV::ConstBool(_) | OpV::ConstNumber(_) | OpV::LocalGet(_) => {
                let m2 = lemma_plain(o, p, f, fr, tr, is, m, i, st, v);
                assert(out.heap == st.heap) by {
                    reveal(vm::eval_op_of);
                }
                m2
            },
            OpV::ConstString(s) => {
                let m2 = lemma_text(o, p, f, fr, tr, is, m, i, s);
                assert(out.heap == st.heap && v == ValueV::Str(s)) by {
                    reveal(vm::eval_op_of);
                }
                m2
            },
            OpV::Unary(_, _) | OpV::Truthy(_) => {
                let m2 = lemma_unary(o, p, f, fr, tr, is, m, i, st, v);
                assert(out.heap == st.heap) by {
                    reveal(vm::eval_op_of);
                }
                m2
            },
            OpV::Binary(op, a, b) => {
                reveal(translate_op_of);
                assert(out == vm::pure(st, fr, vm::binary_effect(op, fr.values[a], fr.values[b]))
                    && fr.values.dom().contains(a) && fr.values.dom().contains(b)) by {
                    reveal(vm::eval_op_of);
                }
                if op == BinOp::Concat {
                    lemma_concat(o, f, fr, tr, is, m, a, b)
                } else if is_arith(op) {
                    lemma_arithmetic(o, f, fr, tr, is, m, op, a, b)
                } else if op == BinOp::Eq || op == BinOp::Ne {
                    lemma_equality(o, f, fr, tr, is, m, op, a, b)
                } else {
                    lemma_comparison(o, f, fr, tr, is, m, op, a, b, v)
                }
            },
            OpV::ArraySet(_, _, _) | OpV::MapSet(_, _, _) | OpV::FieldSet(_, _, _)
            | OpV::CellSet(_, _) => {
                reveal(translate_op_of);
                lemma_write(o, p, f, fr, tr, is, m, i, st, v)
            },
            OpV::MakeArray(vs) => {
                reveal(translate_op_of);
                lemma_array(o, p, f, fr, tr, is, m, vs, st, v)
            },
            OpV::MakeTable(pairs) => {
                reveal(translate_op_of);
                lemma_table(o, p, f, fr, tr, is, m, pairs, st, v)
            },
            OpV::MakeCell(x) => {
                reveal(translate_op_of);
                lemma_cell(o, p, f, fr, tr, is, m, x, st, v)
            },
            _ => {
                reveal(translate_op_of);
                lemma_read(o, p, f, fr, tr, is, m, i, st, v)
            },
        };
        lemma_ends(o, p, f, fr, tr, i, tr2, r, m, m2, v);
    }
}

proof fn lemma_both_adds(f: FunctionV, tr: Tr, l: ValueId, c: Repr, r: ValueId, d: Repr)
    ensures
        x_both(f, tr, l, c, r, d) matches Ok((tr2, _)) ==> begun(tr.insts, tr2.insts),
{
    reveal(x_both);
    lemma_as_adds(f, tr, l, c);
    if x_as(f, tr, l, c) is Ok {
        let tr1 = (x_as(f, tr, l, c)->Ok_0).0;
        lemma_as_adds(f, tr1, r, d);
        if x_as(f, tr1, r, d) is Ok {
            lemma_begun(tr.insts, tr1.insts, (x_as(f, tr1, r, d)->Ok_0).0.insts);
        }
    }
}

proof fn lemma_truthy_adds(f: FunctionV, tr: Tr, v: ValueId)
    ensures
        x_truthy(f, tr, v) matches Ok((tr2, _)) ==> begun(tr.insts, tr2.insts),
{
    reveal(x_truthy);
    reveal(Tr::emit);
}

proof fn lemma_binary_adds(f: FunctionV, tr: Tr, op: BinOp, l: ValueId, r: ValueId)
    ensures
        x_binary(f, tr, op, l, r) matches Ok((tr2, _)) ==> begun(tr.insts, tr2.insts),
{
    reveal(x_binary);
    if x_binary(f, tr, op, l, r) is Ok {
        let c = match op {
            BinOp::Concat => Repr::Ptr,
            BinOp::Lt | BinOp::Le | BinOp::Gt | BinOp::Ge => crate::codegen::translate::order_class(
                f,
                l,
                r,
            ),
            BinOp::Eq | BinOp::Ne => crate::codegen::translate::common_class(f, l, r),
            _ => Repr::Number,
        };
        lemma_both_adds(f, tr, l, c, r, c);
        let (tr1, (a, b)) = x_both(f, tr, l, c, r, c)->Ok_0;
        let tr2 = (x_binary(f, tr, op, l, r)->Ok_0).0;
        assert(begun(tr1.insts, tr2.insts)) by {
            reveal(x_arith);
            reveal(x_ordering);
            reveal(x_equality);
            reveal(Tr::emit);
        }
        lemma_begun(tr.insts, tr1.insts, tr2.insts);
    }
}

proof fn lemma_read_adds(f: FunctionV, tr: Tr, op: OpV, dest: Option<ValueId>)
    requires
        x_read(f, tr, op, dest) is Ok,
    ensures
        begun(tr.insts, (x_read(f, tr, op, dest)->Ok_0).0.insts),
{
    reveal(x_read);
    let tr2 = (x_read(f, tr, op, dest)->Ok_0).0;
    let tr1 = match op {
        OpV::ArrayGet(x, y) => {
            lemma_both_adds(f, tr, x, Repr::Ptr, y, Repr::Number);
            (x_both(f, tr, x, Repr::Ptr, y, Repr::Number)->Ok_0).0
        },
        OpV::MapGet(x, y) => {
            lemma_both_adds(f, tr, x, Repr::Ptr, y, Repr::Ptr);
            (x_both(f, tr, x, Repr::Ptr, y, Repr::Ptr)->Ok_0).0
        },
        OpV::FieldGet(x, _) | OpV::MapKeys(x) | OpV::CellGet(x) | OpV::ClosureEnvGet(x, _) => {
            lemma_as_adds(f, tr, x, Repr::Ptr);
            (x_as(f, tr, x, Repr::Ptr)->Ok_0).0
        },
        _ => tr,
    };
    assert(begun(tr1.insts, tr2.insts)) by {
        reveal(Tr::name);
        reveal(Tr::memory);
        reveal(Tr::namespace_field);
        reveal(Tr::unboxed);
        reveal(Tr::emit);
    }
    lemma_begun(tr.insts, tr1.insts, tr2.insts);
}

proof fn lemma_write_adds(f: FunctionV, tr: Tr, op: OpV)
    requires
        x_write(f, tr, op) is Ok,
    ensures
        begun(tr.insts, (x_write(f, tr, op)->Ok_0).0.insts),
{
    reveal(x_write);
    let tr2 = (x_write(f, tr, op)->Ok_0).0;
    let (tr1, z) = match op {
        OpV::ArraySet(x, y, z) => {
            lemma_both_adds(f, tr, x, Repr::Ptr, y, Repr::Number);
            ((x_both(f, tr, x, Repr::Ptr, y, Repr::Number)->Ok_0).0, z)
        },
        OpV::MapSet(x, y, z) => {
            lemma_both_adds(f, tr, x, Repr::Ptr, y, Repr::Ptr);
            ((x_both(f, tr, x, Repr::Ptr, y, Repr::Ptr)->Ok_0).0, z)
        },
        OpV::FieldSet(x, name, z) => {
            lemma_as_adds(f, tr, x, Repr::Ptr);
            let tr0 = (x_as(f, tr, x, Repr::Ptr)->Ok_0).0;
            let (tra, idx) = tr0.name(name);
            let trb = tra.index(idx).0;
            assert(begun(tr0.insts, trb.insts)) by {
                reveal(Tr::name);
                reveal(Tr::emit);
            }
            lemma_begun(tr.insts, tr0.insts, trb.insts);
            (trb, z)
        },
        OpV::CellSet(x, z) => {
            lemma_as_adds(f, tr, x, Repr::Ptr);
            ((x_as(f, tr, x, Repr::Ptr)->Ok_0).0, z)
        },
        _ => (tr, 0),
    };
    lemma_boxed_adds(f, tr1, z);
    let tr3 = (x_boxed(f, tr1, z)->Ok_0).0;
    assert(begun(tr3.insts, tr2.insts)) by {
        reveal(Tr::emit);
    }
    lemma_begun(tr1.insts, tr3.insts, tr2.insts);
    lemma_begun(tr.insts, tr1.insts, tr2.insts);
}

/// Operations only add code.
proof fn lemma_op_adds(p: ProgramV, f: FunctionV, tr: Tr, i: InstrV)
    requires
        translate_op_of(p, f, tr, i.op, i.dest) is Ok,
        !(i.op is CallScript || i.op is CallHost || i.op is CallBuiltinValue || i.op
            is CallBuiltinMember || i.op is ConstRef || i.op is CallValue || i.op is MakeClosure
            || i.op is LocalSet),
    ensures
        begun(tr.insts, (translate_op_of(p, f, tr, i.op, i.dest)->Ok_0).0.insts),
{
    reveal(translate_op_of);
    let tr2 = (translate_op_of(p, f, tr, i.op, i.dest)->Ok_0).0;
    match i.op {
        OpV::Unary(op, v) => {
            if op == UnOp::Not {
                lemma_truthy_adds(f, tr, v);
                let tr1 = (x_truthy(f, tr, v)->Ok_0).0;
                assert(begun(tr1.insts, tr2.insts)) by {
                    reveal(Tr::emit);
                }
                lemma_begun(tr.insts, tr1.insts, tr2.insts);
            } else {
                let c = if op == UnOp::Neg {
                    Repr::Number
                } else {
                    Repr::Ptr
                };
                lemma_as_adds(f, tr, v, c);
                let tr1 = (x_as(f, tr, v, c)->Ok_0).0;
                assert(begun(tr1.insts, tr2.insts)) by {
                    reveal(Tr::emit);
                }
                lemma_begun(tr.insts, tr1.insts, tr2.insts);
            }
        },
        OpV::MakeArray(vs) => {
            reveal(x_make);
            let cap = InstV::Int(ClifTy::I32, (vs.len() as u32) as i64);
            let (tr1, c) = tr.emit(cap);
            let new = InstV::Call(Shim::ArrayNew, seq![c]);
            let (tra, arr) = tr1.emit(new);
            lemma_emit_adds(tr, cap);
            lemma_emit_adds(tr1, new);
            lemma_begun(tr.insts, tr1.insts, tra.insts);
            lemma_push_adds(f, tra, arr, vs, 0);
            lemma_begun(tr.insts, tra.insts, tr2.insts);
        },
        OpV::MakeTable(pairs) => {
            reveal(x_make);
            let new = InstV::Call(Shim::TableNew, Seq::empty());
            let (tr1, tbl) = tr.emit(new);
            lemma_emit_adds(tr, new);
            lemma_set_adds(f, tr1, tbl, pairs, 0);
            lemma_begun(tr.insts, tr1.insts, tr2.insts);
        },
        OpV::Truthy(v) => lemma_truthy_adds(f, tr, v),
        OpV::Binary(op, l, r) => lemma_binary_adds(f, tr, op, l, r),
        OpV::MakeCell(v) => {
            reveal(x_make);
            lemma_boxed_adds(f, tr, v);
            let tr1 = (x_boxed(f, tr, v)->Ok_0).0;
            assert(begun(tr1.insts, tr2.insts)) by {
                reveal(Tr::emit);
            }
            lemma_begun(tr.insts, tr1.insts, tr2.insts);
        },
        OpV::ArraySet(_, _, _) | OpV::MapSet(_, _, _) | OpV::FieldSet(_, _, _)
        | OpV::CellSet(_, _) => lemma_write_adds(f, tr, i.op),
        OpV::ConstNil | OpV::ConstBool(_) | OpV::ConstNumber(_) | OpV::ConstString(_)
        | OpV::LocalGet(_) => {
            reveal(x_local);
            reveal(Tr::string);
            reveal(Tr::emit);
        },
        _ => lemma_read_adds(f, tr, i.op, i.dest),
    }
}

/// The write of a variable.
proof fn lemma_set(
    o: Answers,
    p: ProgramV,
    f: FunctionV,
    fr: FrameV,
    tr: Tr,
    i: InstrV,
    id: LocalId,
    x: ValueId,
    st: VmV,
    m: Running,
)
    requires
        i.op == OpV::LocalSet(id, x),
        i.dest is None,
        is_var(f, id),
        x_instr(p, f, tr, i) is Ok,
        (x_instr(p, f, tr, i)->Ok_0).0.insts.len() <= usize::MAX,
        ready(m.ctx, 8),
        holds(f, tr, fr, m),
        effect_meaning(o, vm::eval_op_of(p, st, fr, i.op).effect) is Some,
        m.ctx.heap == st.heap,
        repr_of(f.locals[id]) != Repr::Unit,
        fits_repr(fr.values[x], repr_of(f.locals[id])),
    ensures
        ({
            let tr1 = (x_instr(p, f, tr, i)->Ok_0).0;
            let out = vm::eval_op_of(p, st, fr, i.op);
            let end = run(o, tr1.insts, m, tr.insts.len() as int, tr1.insts.len() as int);
            end matches Some(m1) && m1.ctx.error is None && m1.ctx.heap == out.heap && holds(
                f,
                tr1,
                FrameV { locals: out.locals, ..fr },
                m1,
            )
        }),
{
    let tr1 = (x_instr(p, f, tr, i)->Ok_0).0;
    let is = tr1.insts;
    let n = tr.insts.len() as int;
    assert(translate_op_of(p, f, tr, i.op, i.dest) is Ok) by {
        reveal(x_instr);
    }
    reveal(translate_op_of);
    reveal(x_local);
    reveal(vm::eval_op_of);
    let c = repr_of(f.locals[id]);
    let (tra, a) = x_as(f, tr, x, c)->Ok_0;
    let set = InstV::SetVar(id, a);
    let (tr2, r) = translate_op_of(p, f, tr, i.op, i.dest)->Ok_0;
    lemma_tail(p, f, tr, i, tr2, r);
    lemma_emit_adds(tra, set);
    lemma_begun(tra.insts, tr2.insts, is);
    lemma_as_adds(f, tr, x, c);
    lemma_begun(tr.insts, tra.insts, is);
    lemma_starts(o, is, m, tr);
    let m1 = lemma_as(o, is, m, n, f, fr, tr, m, x, c, 8);
    let m2 = lemma_emitted(o, is, m, n, tra, m1, set);
    let fr1 = FrameV { locals: fr.locals.insert(id, fr.values[x]), ..fr };
    assert(holds(f, tr2, fr1, m2)) by {
        assert forall|v: ValueId| #[trigger] fr1.values.dom().contains(v) implies v
            < f.values.len() && tr2.ssa[v as int] is Some && tr2.ssa[v as int]->0
            < tr2.insts.len() && stands_for(
            m2.ctx,
            m2.word(tr2.ssa[v as int]->0),
            class_of(f, v),
            fr1.values[v],
        ) by {
            assert(fr.values.dom().contains(v));
        }
        assert forall|y: LocalId| #[trigger] fr1.locals.dom().contains(y) implies is_var(f, y)
            && stands_for(m2.ctx, m2.vars[y], repr_of(f.locals[y]), fr1.locals[y]) by {
            if y != id {
                assert(fr.locals.dom().contains(y));
            }
        }
    }
    lemma_ends(o, p, f, fr1, tr, i, tr2, r, m, m2, ValueV::Nil);
}

} // verus!
