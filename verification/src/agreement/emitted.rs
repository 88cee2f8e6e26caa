//! What the instructions do that expressions and assignments are lowered to, set against what the
//! interpreter does with the same values: reads and writes of arrays, maps, records and captured
//! variables, operators, and constructors.

use vstd::prelude::*;

use crate::ast::{BinOp, ExprKindV, ExprV, FieldV, IdentV, StatKindV, StatV, UnOp};
use crate::diagnostics::Span;
use crate::interp;
use crate::interp::{
    array_set_of, binary_of, field_of, items_of, key_of, set_field_of, set_key_of, unary_of,
    CalleeV, CtrlV, FlowV, St, Stepped,
};
use crate::check::all_positional;
use crate::ir::lower::{
    call_op, callee_of, l_args, l_assign, l_assigns, l_elements, l_expr, l_namespace, l_stat,
    object_type, unfold_l_args, unfold_l_assigns, unfold_l_call, unfold_l_elements, unfold_l_expr,
    unfold_l_field, unfold_l_index, unfold_l_stat, unfold_l_table, Callee, Low, Tables,
};
use crate::ir::vm;
use crate::ir::vm::{eval_op_of, EffectV, Evaluated, FrameV, ProgressV, VmV};
use crate::ir::{InstrV, OpV, ProgramV, ValueId};
use crate::names::{get_of, law_put_get, put_of};
use crate::resolve::BindingV;
use crate::types::TypeV;
use crate::value::{array_at, is_frozen, table_at, table_written, HeapV, ObjV, ValueV};

verus! {

// ---- one more instruction -------------------------------------------------------------------

/// The instruction that was added last.
pub open spec fn added(low: Low) -> InstrV {
    low.blocks[low.current].instrs.last()
}

/// Whether one instruction was added to the current block, and nothing else was changed in the
/// blocks.
pub open spec fn adds_one(low: Low, later: Low) -> bool {
    &&& later.current == low.current
    &&& later.blocks.len() == low.blocks.len()
    &&& later.blocks[low.current].instrs.len() == low.blocks[low.current].instrs.len() + 1
    &&& later.blocks[low.current].instrs.drop_last() == low.blocks[low.current].instrs
    &&& later.blocks[low.current].term == low.blocks[low.current].term
    &&& forall|b: int|
        0 <= b < low.blocks.len() && b != low.current ==> #[trigger] later.blocks[b]
            == low.blocks[b]
}

/// Whether there is a block to add to.
pub open spec fn in_block(low: Low) -> bool {
    0 <= low.current < low.blocks.len()
}

proof fn lemma_stmt(low: Low, op: OpV)
    requires
        in_block(low),
    ensures
        adds_one(low, low.stmt(op)),
        added(low.stmt(op)) == (InstrV { dest: None, op }),
{
    reveal(Low::stmt);
    let is = low.blocks[low.current].instrs;
    assert(is.push(InstrV { dest: None, op }).drop_last() =~= is);
}

proof fn lemma_value(low: Low, op: OpV, ty: TypeV)
    requires
        in_block(low),
    ensures
        adds_one(low, low.emit(op, ty).0),
        added(low.emit(op, ty).0) == (InstrV { dest: Some(low.emit(op, ty).1), op }),
{
    reveal(Low::emit);
    let is = low.blocks[low.current].instrs;
    let d = Some(low.emit(op, ty).1);
    assert(is.push(InstrV { dest: d, op }).drop_last() =~= is);
}

/// Whether the machine and the interpreter have the same objects, and may write to the same.
pub open spec fn same_objects(m: VmV, st: St) -> bool {
    m.heap == st.heap && m.frozen == st.frozen
}

/// Whether an instruction and a step of the interpreter have done the same: got a value, asked
/// for one, or failed; and have left the same objects.
pub open spec fn same_value(out: Evaluated, s: Stepped) -> bool {
    match out.effect {
        EffectV::Value(v) => s.1 is Running && s.0.ctrl == Some(CtrlV::Have(v)) && s.0.heap
            == out.heap,
        EffectV::Ask(q) => s.1 is Ask && s.0.wait == Some(q) && s.0.heap == out.heap,
        EffectV::Fail(_) => s.1 matches ProgressV::Done(Err(_)),
        _ => false,
    }
}

/// Whether a write and a step of the interpreter have done the same: written, or refused to. An
/// index that is none is refused once its text is there.
pub open spec fn same_write(out: Evaluated, s: Stepped) -> bool {
    match out.effect {
        EffectV::Value(_) => s.1 is Running && s.0.ctrl == Some(CtrlV::Flow(FlowV::Normal))
            && s.0.heap == out.heap,
        EffectV::Fail(_) => out.heap == s.0.heap && (s.1 is Ask || s.1 matches ProgressV::Done(
            Err(_),
        )),
        _ => false,
    }
}

/// Whether an entry of a table was written and nothing else.
pub open spec fn entry_written(
    before: HeapV,
    after: HeapV,
    base: ValueV,
    key: Seq<char>,
    v: ValueV,
) -> bool {
    &&& table_at(before, base) matches Some(t) && table_at(after, base) matches Some(u) && get_of(
        u,
        key,
    ) == Some(v) && forall|other: Seq<char>|
        other != key ==> #[trigger] get_of(u, other) == get_of(t, other)
    &&& after.len() == before.len()
    &&& forall|i: int|
        0 <= i < before.len() && base != ValueV::Table(i as usize) ==> #[trigger] after[i]
            == before[i]
}

/// Whether an element of an array was written, or added at its end, and nothing else.
pub open spec fn element_written(
    before: HeapV,
    after: HeapV,
    base: ValueV,
    k: int,
    v: ValueV,
) -> bool {
    &&& array_at(before, base) matches Some(t) && array_at(after, base) matches Some(u) && 0 <= k
        < u.len() && u[k] == v && t.len() <= u.len() <= t.len() + 1 && (k < t.len() ==> u.len()
        == t.len()) && forall|i: int| 0 <= i < t.len() && i != k ==> #[trigger] u[i] == t[i]
    &&& after.len() == before.len()
    &&& forall|i: int|
        0 <= i < before.len() && base != ValueV::Array(i as usize) ==> #[trigger] after[i]
            == before[i]
}

/// Whether the keys of a table are in order.
pub open spec fn orderly(h: HeapV, base: ValueV) -> bool {
    table_at(h, base) matches Some(t) ==> crate::names::ascending(crate::names::keys_of(t))
}

proof fn lemma_entry_written(h: HeapV, base: ValueV, key: Seq<char>, v: ValueV)
    requires
        table_at(h, base) is Some,
        orderly(h, base),
    ensures
        table_written(h, base, ValueV::Str(key), v) matches Ok(after) && entry_written(
            h,
            after,
            base,
            key,
            v,
        ),
{
    let t = table_at(h, base)->0;
    let after = table_written(h, base, ValueV::Str(key), v)->Ok_0;
    assert(table_at(after, base) == Some(put_of(t, key, v)));
    law_put_get(t, key, v, key);
    assert forall|other: Seq<char>| other != key implies #[trigger] get_of(
        put_of(t, key, v),
        other,
    ) == get_of(t, other) by {
        law_put_get(t, key, v, other);
    }
}

// ---- assignments -----------------------------------------------------------------------------

/// `base[index] = v` becomes, behind what the base and the index become, one instruction that
/// does what the interpreter does with the same base, index and value. On a map it writes the
/// entry of the key, which is then read as the value, and changes no other; on an array it
/// writes the element, or adds one at the end, and changes no other.
pub proof fn law_index_assignment_writes(
    t: Tables,
    low: Low,
    base: ExprV,
    index: ExprV,
    span: Span,
    v: ValueId,
    p: ProgramV,
    m: VmV,
    fr: FrameV,
    st: St,
)
    requires
        ({
            let target = ExprV {
                kind: ExprKindV::Index { base: Box::new(base), index: Box::new(index) },
                span,
            };
            &&& l_assign(t, low, target, v) is Ok
            &&& l_expr(t, low, base) matches Ok((l1, b)) && l_expr(t, l1, index) matches Ok(
                (l2, k),
            ) && in_block(l2) && fr.values.dom().contains(b) && fr.values.dom().contains(k) && (
            object_type(l2.type_of(b)) is Array ==> array_at(m.heap, fr.values[b]) is Some
                && fr.values[k] is Number) && (object_type(l2.type_of(b)) is MapOf ==> table_at(
                m.heap,
                fr.values[b],
            ) is Some && fr.values[k] is Str && orderly(m.heap, fr.values[b]))
        }),
        fr.values.dom().contains(v),
        same_objects(m, st),
    ensures
        ({
            let target = ExprV {
                kind: ExprKindV::Index { base: Box::new(base), index: Box::new(index) },
                span,
            };
            let (l1, b) = l_expr(t, low, base)->Ok_0;
            let (l2, k) = l_expr(t, l1, index)->Ok_0;
            let l3 = (l_assign(t, low, target, v)->Ok_0).0;
            let (x, y, z) = (fr.values[b], fr.values[k], fr.values[v]);
            let out = eval_op_of(p, m, fr, added(l3).op);
            &&& adds_one(l2, l3)
            &&& added(l3).dest is None
            &&& out.locals == fr.locals
            &&& same_write(out, set_key_of(st, x, y, z))
            &&& is_frozen(m.frozen, x) ==> out.effect is Fail && out.heap == m.heap
            &&& object_type(l2.type_of(b)) is MapOf && !is_frozen(m.frozen, x) ==> out.effect
                is Value && entry_written(m.heap, out.heap, x, y->Str_0, z)
            &&& object_type(l2.type_of(b)) is Array && !is_frozen(m.frozen, x) ==> {
                let i = crate::number::index_of(y->Number_0);
                let n = array_at(m.heap, x)->0.len();
                if i is Some && i->0 <= n + 1 {
                    out.effect is Value && element_written(
                        m.heap,
                        out.heap,
                        x,
                        i->0 - 1,
                        z,
                    )
                } else {
                    out.effect is Fail && out.heap == m.heap
                }
            }
        }),
{
    reveal(l_assign);
    let (l1, b) = l_expr(t, low, base)->Ok_0;
    let (l2, k) = l_expr(t, l1, index)->Ok_0;
    let (x, y, z) = (fr.values[b], fr.values[k], fr.values[v]);
    reveal(eval_op_of);
    reveal(vm::write_op);
    reveal(set_key_of);
    reveal(array_set_of);
    reveal(St::run);
    reveal(St::fail);
    reveal(St::ask);
    reveal(St::push);
    reveal(St::on_heap);
    match object_type(l2.type_of(b)) {
        TypeV::MapOf(_) => {
            lemma_stmt(l2, OpV::MapSet(b, k, v));
            lemma_entry_written(m.heap, x, y->Str_0, z);
            assert(array_at(st.heap, x) is None);
        },
        _ => {
            lemma_stmt(l2, OpV::ArraySet(b, k, v));
        },
    }
}

/// `base.name = v` becomes, behind what the base becomes, one instruction that does what the
/// interpreter does: it writes the field, which is then read as the value, and changes no other.
pub proof fn law_field_assignment_writes(
    t: Tables,
    low: Low,
    base: ExprV,
    name: IdentV,
    span: Span,
    v: ValueId,
    p: ProgramV,
    m: VmV,
    fr: FrameV,
    st: St,
)
    requires
        ({
            let target = ExprV { kind: ExprKindV::Field { base: Box::new(base), name }, span };
            &&& l_assign(t, low, target, v) is Ok
            &&& l_expr(t, low, base) matches Ok((l1, b)) && in_block(l1) && fr.values.dom().contains(
                b,
            ) && table_at(m.heap, fr.values[b]) is Some && orderly(m.heap, fr.values[b])
        }),
        fr.values.dom().contains(v),
        same_objects(m, st),
    ensures
        ({
            let target = ExprV { kind: ExprKindV::Field { base: Box::new(base), name }, span };
            let (l1, b) = l_expr(t, low, base)->Ok_0;
            let l2 = (l_assign(t, low, target, v)->Ok_0).0;
            let (x, z) = (fr.values[b], fr.values[v]);
            let out = eval_op_of(p, m, fr, added(l2).op);
            &&& adds_one(l1, l2)
            &&& added(l2).dest is None
            &&& out.locals == fr.locals
            &&& same_write(out, set_field_of(st, name.node, x, z))
            &&& if is_frozen(m.frozen, x) {
                out.effect is Fail && out.heap == m.heap
            } else {
                out.effect is Value && entry_written(m.heap, out.heap, x, name.node, z)
            }
        }),
{
    reveal(l_assign);
    let (l1, b) = l_expr(t, low, base)->Ok_0;
    reveal(eval_op_of);
    reveal(vm::write_op);
    reveal(set_field_of);
    reveal(St::run);
    reveal(St::fail);
    reveal(St::on_heap);
    lemma_stmt(l1, OpV::FieldSet(b, name.node, v));
    lemma_entry_written(m.heap, fr.values[b], name.node, fr.values[v]);
}

// ---- reads -----------------------------------------------------------------------------------

/// `base[index]` becomes, behind what the base and the index become, one instruction that gets
/// what the interpreter gets.
pub proof fn law_index_reads(
    t: Tables,
    low: Low,
    base: ExprV,
    index: ExprV,
    span: Span,
    p: ProgramV,
    m: VmV,
    fr: FrameV,
    st: St,
)
    requires
        ({
            let e = ExprV {
                kind: ExprKindV::Index { base: Box::new(base), index: Box::new(index) },
                span,
            };
            &&& l_expr(t, low, e) is Ok
            &&& l_expr(t, low, base) matches Ok((l1, b)) && l_expr(t, l1, index) matches Ok(
                (l2, k),
            ) && in_block(l2) && fr.values.dom().contains(b) && fr.values.dom().contains(k) && (
            object_type(l2.type_of(b)) is Array ==> array_at(m.heap, fr.values[b]) is Some
                && fr.values[k] is Number) && (!(object_type(l2.type_of(b)) is Array) ==> table_at(
                m.heap,
                fr.values[b],
            ) is Some && fr.values[k] is Str) && (object_type(l2.type_of(b)) is Record
                ==> fr.values[k] == ValueV::Str(index.kind->Str_0))
        }),
        same_objects(m, st),
    ensures
        ({
            let e = ExprV {
                kind: ExprKindV::Index { base: Box::new(base), index: Box::new(index) },
                span,
            };
            let (l1, b) = l_expr(t, low, base)->Ok_0;
            let (l2, k) = l_expr(t, l1, index)->Ok_0;
            let (l3, d) = l_expr(t, low, e)->Ok_0;
            let out = eval_op_of(p, m, fr, added(l3).op);
            &&& adds_one(l2, l3)
            &&& added(l3).dest == Some(d)
            &&& out.locals == fr.locals
            &&& out.heap == m.heap
            &&& same_value(out, key_of(st, fr.values[b], fr.values[k]))
        }),
{
    let e = ExprV {
        kind: ExprKindV::Index { base: Box::new(base), index: Box::new(index) },
        span,
    };
    unfold_l_expr(t, low, e);
    unfold_l_index(t, low, e);
    let (l1, b) = l_expr(t, low, base)->Ok_0;
    let (l2, k) = l_expr(t, l1, index)->Ok_0;
    reveal(eval_op_of);
    reveal(vm::read_op);
    reveal(key_of);
    reveal(St::run);
    reveal(St::fail);
    match object_type(l2.type_of(b)) {
        TypeV::Array(x) => {
            lemma_value(l2, OpV::ArrayGet(b, k), TypeV::Optional(x));
        },
        TypeV::MapOf(x) => {
            lemma_value(l2, OpV::MapGet(b, k), TypeV::Optional(x));
        },
        TypeV::Record(fields) => {
            let key = index.kind->Str_0;
            let ty = match get_of(fields, key) {
                Some(ty) => ty,
                None => TypeV::Error,
            };
            lemma_value(l2, OpV::FieldGet(b, key), ty);
        },
        _ => {},
    }
}

/// `base.name` becomes, behind what the base becomes, one instruction that gets what the
/// interpreter gets.
pub proof fn law_field_reads(
    t: Tables,
    low: Low,
    base: ExprV,
    name: IdentV,
    span: Span,
    p: ProgramV,
    m: VmV,
    fr: FrameV,
    st: St,
)
    requires
        ({
            let e = ExprV { kind: ExprKindV::Field { base: Box::new(base), name }, span };
            &&& l_expr(t, low, e) is Ok
            &&& l_namespace(t, base) is None
            &&& l_expr(t, low, base) matches Ok((l1, b)) && in_block(l1) && fr.values.dom().contains(
                b,
            ) && table_at(m.heap, fr.values[b]) is Some
        }),
        same_objects(m, st),
    ensures
        ({
            let e = ExprV { kind: ExprKindV::Field { base: Box::new(base), name }, span };
            let (l1, b) = l_expr(t, low, base)->Ok_0;
            let (l2, d) = l_expr(t, low, e)->Ok_0;
            let out = eval_op_of(p, m, fr, added(l2).op);
            &&& adds_one(l1, l2)
            &&& added(l2).dest == Some(d)
            &&& out.locals == fr.locals
            &&& out.heap == m.heap
            &&& same_value(out, field_of(st, name.node, fr.values[b]))
        }),
{
    let e = ExprV { kind: ExprKindV::Field { base: Box::new(base), name }, span };
    unfold_l_expr(t, low, e);
    unfold_l_field(t, low, e);
    let (l1, b) = l_expr(t, low, base)->Ok_0;
    reveal(eval_op_of);
    reveal(vm::read_op);
    reveal(field_of);
    reveal(St::run);
    reveal(St::fail);
    lemma_value(
        l1,
        OpV::FieldGet(b, name.node),
        crate::ir::lower::field_read_type(l1.type_of(b), name.node),
    );
}

// ---- operators -------------------------------------------------------------------------------

/// An operator other than `and` and `or` becomes, behind what its operands become in their
/// order, one instruction that does what the interpreter does with the same operands.
pub proof fn law_operators_agree(
    t: Tables,
    low: Low,
    op: BinOp,
    lhs: ExprV,
    rhs: ExprV,
    span: Span,
    p: ProgramV,
    m: VmV,
    fr: FrameV,
    st: St,
)
    requires
        op != BinOp::And,
        op != BinOp::Or,
        ({
            let e = ExprV {
                kind: ExprKindV::Binary { op, lhs: Box::new(lhs), rhs: Box::new(rhs) },
                span,
            };
            &&& l_expr(t, low, e) is Ok
            &&& l_expr(t, low, lhs) matches Ok((l1, a)) && l_expr(t, l1, rhs) matches Ok((l2, b))
                && in_block(l2) && fr.values.dom().contains(a) && fr.values.dom().contains(b)
        }),
        same_objects(m, st),
    ensures
        ({
            let e = ExprV {
                kind: ExprKindV::Binary { op, lhs: Box::new(lhs), rhs: Box::new(rhs) },
                span,
            };
            let (l1, a) = l_expr(t, low, lhs)->Ok_0;
            let (l2, b) = l_expr(t, l1, rhs)->Ok_0;
            let (l3, d) = l_expr(t, low, e)->Ok_0;
            let out = eval_op_of(p, m, fr, added(l3).op);
            &&& adds_one(l2, l3)
            &&& added(l3).dest == Some(d)
            &&& out.locals == fr.locals
            &&& out.heap == m.heap
            &&& same_value(out, binary_of(st, op, fr.values[a], fr.values[b]))
        }),
{
    let e = ExprV { kind: ExprKindV::Binary { op, lhs: Box::new(lhs), rhs: Box::new(rhs) }, span };
    unfold_l_expr(t, low, e);
    let (l1, a) = l_expr(t, low, lhs)->Ok_0;
    let (l2, b) = l_expr(t, l1, rhs)->Ok_0;
    reveal(eval_op_of);
    reveal(binary_of);
    reveal(St::run);
    reveal(St::ask);
    reveal(St::fail);
    lemma_value(l2, OpV::Binary(op, a, b), crate::ir::lower::binary_type(op));
}

/// So does a unary operator.
pub proof fn law_unary_operators_agree(
    t: Tables,
    low: Low,
    op: UnOp,
    operand: ExprV,
    span: Span,
    p: ProgramV,
    m: VmV,
    fr: FrameV,
    st: St,
)
    requires
        ({
            let e = ExprV { kind: ExprKindV::Unary { op, operand: Box::new(operand) }, span };
            &&& l_expr(t, low, e) is Ok
            &&& l_expr(t, low, operand) matches Ok((l1, a)) && in_block(l1)
                && fr.values.dom().contains(a)
        }),
        same_objects(m, st),
    ensures
        ({
            let e = ExprV { kind: ExprKindV::Unary { op, operand: Box::new(operand) }, span };
            let (l1, a) = l_expr(t, low, operand)->Ok_0;
            let (l2, d) = l_expr(t, low, e)->Ok_0;
            let out = eval_op_of(p, m, fr, added(l2).op);
            &&& adds_one(l1, l2)
            &&& added(l2).dest == Some(d)
            &&& out.locals == fr.locals
            &&& out.heap == m.heap
            &&& same_value(out, unary_of(st, op, fr.values[a]))
        }),
{
    let e = ExprV { kind: ExprKindV::Unary { op, operand: Box::new(operand) }, span };
    unfold_l_expr(t, low, e);
    let (l1, a) = l_expr(t, low, operand)->Ok_0;
    reveal(eval_op_of);
    reveal(unary_of);
    reveal(St::run);
    reveal(St::ask);
    reveal(St::fail);
    lemma_value(l1, OpV::Unary(op, a), crate::ir::lower::unary_type(op));
}

// ---- lists of values -------------------------------------------------------------------------

/// The values that a frame has for some temporaries.
pub open spec fn values_at(fr: FrameV, ids: Seq<ValueId>) -> Seq<ValueV> {
    Seq::new(ids.len(), |i: int| fr.values[ids[i]])
}

/// Whether a frame has values for them.
pub open spec fn has_all(fr: FrameV, ids: Seq<ValueId>) -> bool {
    forall|i: int| 0 <= i < ids.len() ==> fr.values.dom().contains(#[trigger] ids[i])
}

proof fn lemma_all_there(fr: FrameV, ids: Seq<ValueId>)
    requires
        has_all(fr, ids),
    ensures
        vm::vals(fr, ids, 0, Seq::empty()) == Ok::<Seq<ValueV>, crate::value::RunErrorV>(
            values_at(fr, ids),
        ),
{
    let vs = values_at(fr, ids);
    assert forall|k: int| 0 <= k < ids.len() implies super::has(fr, #[trigger] ids[k], vs[k]) by {}
    super::branches::lemma_vals(fr, ids, vs, 0);
    assert(vs.take(0) =~= Seq::<ValueV>::empty());
}

/// The lowering before the `i`-th of some expressions.
pub open spec fn before_nth(t: Tables, low: Low, es: Seq<ExprV>, i: int) -> Low
    decreases i,
{
    if i <= 0 {
        low
    } else {
        (l_expr(t, before_nth(t, low, es, i - 1), es[i - 1])->Ok_0).0
    }
}

/// Whether a value is that of the `k`-th of some expressions.
pub open spec fn is_nth(t: Tables, low: Low, es: Seq<ExprV>, k: int, id: ValueId) -> bool {
    l_expr(t, before_nth(t, low, es, k), es[k]) matches Ok((_, v)) && id == v
}

/// The arguments are lowered in their order, each to a value of its own.
proof fn lemma_args_in_order(t: Tables, low: Low, es: Seq<ExprV>, i: int, acc: Seq<ValueId>)
    requires
        0 <= i <= es.len(),
        acc.len() == i,
        l_args(t, before_nth(t, low, es, i), es, i, acc) is Ok,
        forall|k: int| 0 <= k < i ==> is_nth(t, low, es, k, #[trigger] acc[k]),
    ensures
        ({
            let (end, ids) = l_args(t, before_nth(t, low, es, i), es, i, acc)->Ok_0;
            &&& end == before_nth(t, low, es, es.len() as int)
            &&& ids.len() == es.len()
            &&& forall|k: int| 0 <= k < es.len() ==> is_nth(t, low, es, k, #[trigger] ids[k])
        }),
    decreases es.len() - i,
{
    unfold_l_args(t, before_nth(t, low, es, i), es, i, acc);
    if i < es.len() {
        let v = (l_expr(t, before_nth(t, low, es, i), es[i])->Ok_0).1;
        lemma_args_in_order(t, low, es, i + 1, acc.push(v));
    }
}

// ---- calls -----------------------------------------------------------------------------------

/// A call of a builtin or of a host function becomes, behind what its arguments become in their
/// order, one instruction that does what the interpreter does with the same arguments.
pub proof fn law_calls_agree(
    t: Tables,
    low: Low,
    callee: ExprV,
    args: Seq<ExprV>,
    span: Span,
    p: ProgramV,
    m: VmV,
    fr: FrameV,
    st: St,
)
    requires
        ({
            let e = ExprV { kind: ExprKindV::Call { callee: Box::new(callee), args }, span };
            &&& l_expr(t, low, e) is Ok
            &&& callee_of(t, callee) is Host || callee_of(t, callee) is Value || callee_of(
                t,
                callee,
            ) is Member
            &&& callee_of(t, callee) matches Callee::Host(n) ==> m.hosts.contains(n)
            &&& l_args(t, low, args, 0, Seq::empty()) matches Ok((l1, ids)) && in_block(l1)
                && has_all(fr, ids)
        }),
        same_objects(m, st),
    ensures
        ({
            let e = ExprV { kind: ExprKindV::Call { callee: Box::new(callee), args }, span };
            let (l1, ids) = l_args(t, low, args, 0, Seq::empty())->Ok_0;
            let (l2, d) = l_expr(t, low, e)->Ok_0;
            let out = eval_op_of(p, m, fr, added(l2).op);
            let vs = values_at(fr, ids);
            let what = match callee_of(t, callee) {
                Callee::Value(ns) => CalleeV::BuiltinValue(ns),
                Callee::Member(ns, name) => CalleeV::BuiltinMember(ns, name),
                Callee::Host(n) => CalleeV::Value(ValueV::Native(n)),
                _ => CalleeV::Value(ValueV::Nil),
            };
            &&& ids.len() == args.len()
            &&& forall|k: int| 0 <= k < args.len() ==> is_nth(t, low, args, k, #[trigger] ids[k])
            &&& adds_one(l1, l2)
            &&& added(l2).dest == Some(d)
            &&& out.locals == fr.locals
            &&& out.heap == m.heap
            &&& same_value(out, interp::call_of(st, what, vs))
        }),
{
    let e = ExprV { kind: ExprKindV::Call { callee: Box::new(callee), args }, span };
    unfold_l_expr(t, low, e);
    unfold_l_call(t, low, e);
    let (l1, ids) = l_args(t, low, args, 0, Seq::empty())->Ok_0;
    assert(before_nth(t, low, args, 0) == low);
    lemma_args_in_order(t, low, args, 0, Seq::empty());
    lemma_all_there(fr, ids);
    let (op, ty) = call_op(t, callee_of(t, callee), ids);
    lemma_value(l1, op, ty);
    reveal(eval_op_of);
    reveal(vm::call_op);
    reveal(interp::call_of);
    reveal(interp::call_value_of);
    reveal(St::run);
    reveal(St::ask);
    reveal(St::fail);
}

/// A call of a function of the script enters it, with the arguments in their order.
pub proof fn law_script_calls_enter(
    t: Tables,
    low: Low,
    callee: ExprV,
    args: Seq<ExprV>,
    span: Span,
    name: Seq<char>,
    p: ProgramV,
    m: VmV,
    fr: FrameV,
)
    requires
        ({
            let e = ExprV { kind: ExprKindV::Call { callee: Box::new(callee), args }, span };
            &&& l_expr(t, low, e) is Ok
            &&& callee_of(t, callee) == Callee::Script(name)
            &&& l_args(t, low, args, 0, Seq::empty()) matches Ok((l1, ids)) && in_block(l1)
                && has_all(fr, ids)
        }),
        get_of(p.functions, name) is Some,
    ensures
        ({
            let e = ExprV { kind: ExprKindV::Call { callee: Box::new(callee), args }, span };
            let (l1, ids) = l_args(t, low, args, 0, Seq::empty())->Ok_0;
            let (l2, d) = l_expr(t, low, e)->Ok_0;
            let out = eval_op_of(p, m, fr, added(l2).op);
            &&& ids.len() == args.len()
            &&& forall|k: int| 0 <= k < args.len() ==> is_nth(t, low, args, k, #[trigger] ids[k])
            &&& adds_one(l1, l2)
            &&& added(l2).dest == Some(d)
            &&& out == (Evaluated {
                heap: m.heap,
                locals: fr.locals,
                effect: EffectV::Enter(vm::CodeV::Function(name), values_at(fr, ids)),
            })
        }),
{
    let e = ExprV { kind: ExprKindV::Call { callee: Box::new(callee), args }, span };
    unfold_l_expr(t, low, e);
    unfold_l_call(t, low, e);
    let (l1, ids) = l_args(t, low, args, 0, Seq::empty())->Ok_0;
    assert(before_nth(t, low, args, 0) == low);
    lemma_args_in_order(t, low, args, 0, Seq::empty());
    lemma_all_there(fr, ids);
    let (op, ty) = call_op(t, callee_of(t, callee), ids);
    lemma_value(l1, op, ty);
    reveal(eval_op_of);
    reveal(vm::call_op);
}

/// A name of memory becomes one instruction that gets what the interpreter gets.
pub proof fn law_memory_reads(
    t: Tables,
    low: Low,
    name: Seq<char>,
    span: Span,
    n: Seq<char>,
    p: ProgramV,
    m: VmV,
    fr: FrameV,
    st: St,
)
    requires
        t.res.binding_of(span) == Some(BindingV::Memory(n)),
        in_block(low),
        m.memory == st.memory,
        m.heap == st.heap,
    ensures
        ({
            let e = ExprV { kind: ExprKindV::Name(name), span };
            &&& l_expr(t, low, e) is Ok
            &&& adds_one(low, (l_expr(t, low, e)->Ok_0).0)
            &&& added((l_expr(t, low, e)->Ok_0).0).dest == Some((l_expr(t, low, e)->Ok_0).1)
            &&& same_value(
                eval_op_of(p, m, fr, added((l_expr(t, low, e)->Ok_0).0).op),
                interp::yield_of(st, interp::named(t.res, st, e, name)),
            )
            &&& get_of(st.memory, n) matches Some(v) ==> eval_op_of(
                p,
                m,
                fr,
                added((l_expr(t, low, e)->Ok_0).0).op,
            ).effect == EffectV::Value(v)
        }),
{
    let e = ExprV { kind: ExprKindV::Name(name), span };
    unfold_l_expr(t, low, e);
    reveal(crate::ir::lower::l_name);
    let ty = match get_of(t.cfg.memory, n) {
        Some(ty) => ty,
        None => TypeV::Error,
    };
    lemma_value(low, OpV::MemoryRef(n), ty);
    reveal(eval_op_of);
    reveal(vm::name_op);
    reveal(interp::named);
    reveal(St::run);
    reveal(St::fail);
}

// ---- constructors ----------------------------------------------------------------------------

/// The lowering before the `i`-th element of an array.
pub open spec fn before_element(t: Tables, low: Low, fs: Seq<FieldV>, i: int) -> Low
    decreases i,
{
    if i <= 0 {
        low
    } else {
        (l_expr(t, before_element(t, low, fs, i - 1), fs[i - 1]->Positional_0)->Ok_0).0
    }
}

/// Whether the `k`-th value is that of the `k`-th element.
spec fn is_element(t: Tables, low: Low, fs: Seq<FieldV>, k: int, id: ValueId) -> bool {
    let r = l_expr(t, before_element(t, low, fs, k), fs[k]->Positional_0);
    r is Ok && id == (r->Ok_0).1
}

proof fn lemma_elements_in_order(
    t: Tables,
    low: Low,
    fs: Seq<FieldV>,
    i: int,
    acc: Seq<ValueId>,
    ty: TypeV,
)
    requires
        0 <= i <= fs.len(),
        acc.len() == i,
        all_positional(fs),
        l_elements(t, before_element(t, low, fs, i), fs, i, acc, ty) is Ok,
        forall|k: int| 0 <= k < i ==> is_element(t, low, fs, k, #[trigger] acc[k]),
    ensures
        ({
            let (end, (ids, _)) = l_elements(t, before_element(t, low, fs, i), fs, i, acc, ty)->Ok_0;
            &&& ids.len() == fs.len()
            &&& forall|k: int| 0 <= k < fs.len() ==> is_element(t, low, fs, k, #[trigger] ids[k])
        }),
    decreases fs.len() - i,
{
    let here = before_element(t, low, fs, i);
    unfold_l_elements(t, here, fs, i, acc, ty);
    if i < fs.len() {
        assert(fs[i] is Positional);
        let (l1, v) = l_expr(t, here, fs[i]->Positional_0)->Ok_0;
        assert(before_element(t, low, fs, i + 1) == l1);
        lemma_elements_in_order(t, low, fs, i + 1, acc.push(v), l1.type_of(v));
    }
}

/// An array constructor becomes, behind what its elements become in their order, one instruction
/// that does what the interpreter does with the same elements: a new array has them.
pub proof fn law_arrays_are_built(
    t: Tables,
    low: Low,
    fs: Seq<FieldV>,
    span: Span,
    p: ProgramV,
    m: VmV,
    fr: FrameV,
    st: St,
)
    requires
        all_positional(fs),
        l_expr(t, low, ExprV { kind: ExprKindV::Table(fs), span }) is Ok,
        l_elements(t, low, fs, 0, Seq::empty(), TypeV::Error) matches Ok((l1, x)) && in_block(l1)
            && has_all(fr, x.0),
        same_objects(m, st),
    ensures
        ({
            let (l1, (ids, _)) = l_elements(t, low, fs, 0, Seq::empty(), TypeV::Error)->Ok_0;
            let (l2, d) = l_expr(t, low, ExprV { kind: ExprKindV::Table(fs), span })->Ok_0;
            let out = eval_op_of(p, m, fr, added(l2).op);
            let vs = values_at(fr, ids);
            &&& ids.len() == fs.len()
            &&& forall|k: int|
                0 <= k < fs.len() ==> #[trigger] ids[k] == (l_expr(
                    t,
                    before_element(t, low, fs, k),
                    fs[k]->Positional_0,
                )->Ok_0).1
            &&& adds_one(l1, l2)
            &&& added(l2).dest == Some(d)
            &&& out.locals == fr.locals
            &&& out.heap == m.heap.push(ObjV::Array(vs))
            &&& same_value(out, items_of(st, fs, vs))
        }),
{
    let e = ExprV { kind: ExprKindV::Table(fs), span };
    unfold_l_expr(t, low, e);
    unfold_l_table(t, low, fs);
    let (l1, (ids, ty)) = l_elements(t, low, fs, 0, Seq::empty(), TypeV::Error)->Ok_0;
    assert(before_element(t, low, fs, 0) == low);
    lemma_elements_in_order(t, low, fs, 0, Seq::empty(), TypeV::Error);
    assert forall|k: int| 0 <= k < fs.len() implies #[trigger] ids[k] == (l_expr(
        t,
        before_element(t, low, fs, k),
        fs[k]->Positional_0,
    )->Ok_0).1 by {
        assert(is_element(t, low, fs, k, ids[k]));
    }
    lemma_all_there(fr, ids);
    lemma_value(l1, OpV::MakeArray(ids), TypeV::Array(Box::new(ty)));
    reveal(eval_op_of);
    reveal(vm::make_op);
    reveal(items_of);
    reveal(St::run);
}

/// The value of the last of the first `n` pairs that has a key.
pub open spec fn last_of(fr: FrameV, pairs: Seq<(Seq<char>, ValueId)>, key: Seq<char>, n: int) -> Option<ValueV>
    decreases n,
{
    if n <= 0 {
        None
    } else if pairs[n - 1].0 == key {
        Some(fr.values[pairs[n - 1].1])
    } else {
        last_of(fr, pairs, key, n - 1)
    }
}

proof fn lemma_entries(
    fr: FrameV,
    pairs: Seq<(Seq<char>, ValueId)>,
    i: int,
    acc: Seq<(Seq<char>, ValueV)>,
    key: Seq<char>,
)
    requires
        0 <= i <= pairs.len(),
        forall|k: int| 0 <= k < pairs.len() ==> fr.values.dom().contains((#[trigger] pairs[k]).1),
        crate::names::ascending(crate::names::keys_of(acc)),
        get_of(acc, key) == last_of(fr, pairs, key, i),
    ensures
        vm::entries(fr, pairs, i, acc) matches Ok(es) && get_of(es, key) == last_of(
            fr,
            pairs,
            key,
            pairs.len() as int,
        ),
    decreases pairs.len() - i,
{
    vm::unfold_entries(fr, pairs, i, acc);
    if i < pairs.len() {
        let (k, id) = pairs[i];
        assert(fr.values.dom().contains(pairs[i].1));
        law_put_get(acc, k, fr.values[id], key);
        law_put_get(acc, k, fr.values[id], k);
        lemma_entries(fr, pairs, i + 1, put_of(acc, k, fr.values[id]), key);
    }
}

/// A new table has, under each key, the value of the last pair with that key, and nothing else.
pub proof fn law_tables_have_their_pairs(
    p: ProgramV,
    m: VmV,
    fr: FrameV,
    pairs: Seq<(Seq<char>, ValueId)>,
    key: Seq<char>,
)
    requires
        forall|k: int| 0 <= k < pairs.len() ==> fr.values.dom().contains((#[trigger] pairs[k]).1),
        m.heap.len() < usize::MAX,
    ensures
        ({
            let out = eval_op_of(p, m, fr, OpV::MakeTable(pairs));
            out.effect matches EffectV::Value(v) && v == ValueV::Table(m.heap.len() as usize)
                && out.heap.len() == m.heap.len() + 1 && out.heap.drop_last() == m.heap && (
            table_at(out.heap, v) matches Some(es) && get_of(es, key) == last_of(
                fr,
                pairs,
                key,
                pairs.len() as int,
            ))
        }),
{
    reveal(eval_op_of);
    reveal(vm::make_op);
    assert(crate::names::keys_of(Seq::<(Seq<char>, ValueV)>::empty()).len() == 0);
    assert(get_of(Seq::<(Seq<char>, ValueV)>::empty(), key) is None);
    lemma_entries(fr, pairs, 0, Seq::empty(), key);
    let out = eval_op_of(p, m, fr, OpV::MakeTable(pairs));
    assert(out.heap.drop_last() =~= m.heap);
}

// ---- statements ------------------------------------------------------------------------------

/// The lowering before the `i`-th target of an assignment.
pub open spec fn before_target(t: Tables, low: Low, ts: Seq<ExprV>, vs: Seq<ValueId>, i: int) -> Low
    decreases i,
{
    if i <= 0 {
        low
    } else {
        (l_assign(t, before_target(t, low, ts, vs, i - 1), ts[i - 1], vs[i - 1])->Ok_0).0
    }
}

/// Whether the `k`-th target is assigned the `k`-th value.
pub open spec fn is_assigned(t: Tables, low: Low, ts: Seq<ExprV>, vs: Seq<ValueId>, k: int) -> bool {
    l_assign(t, before_target(t, low, ts, vs, k), ts[k], vs[k]) is Ok
}

proof fn lemma_assigns_in_order(t: Tables, low: Low, ts: Seq<ExprV>, vs: Seq<ValueId>, i: int)
    requires
        0 <= i <= ts.len(),
        l_assigns(t, before_target(t, low, ts, vs, i), ts, vs, i) is Ok,
        forall|k: int| 0 <= k < i ==> #[trigger] is_assigned(t, low, ts, vs, k),
    ensures
        (l_assigns(t, before_target(t, low, ts, vs, i), ts, vs, i)->Ok_0).0 == before_target(
            t,
            low,
            ts,
            vs,
            ts.len() as int,
        ),
        i < ts.len() ==> ts.len() <= vs.len(),
        forall|k: int| 0 <= k < ts.len() ==> #[trigger] is_assigned(t, low, ts, vs, k),
    decreases ts.len() - i,
{
    unfold_l_assigns(t, before_target(t, low, ts, vs, i), ts, vs, i);
    if i < ts.len() {
        assert(is_assigned(t, low, ts, vs, i));
        lemma_assigns_in_order(t, low, ts, vs, i + 1);
    }
}

/// An assignment first evaluates its values in their order, and then assigns to its targets in
/// theirs, to each the value of the same number.
pub proof fn law_assignments_go_in_order(
    t: Tables,
    low: Low,
    targets: Seq<ExprV>,
    exprs: Seq<ExprV>,
    span: Span,
)
    requires
        l_stat(t, low, StatV { kind: StatKindV::Assign { targets, exprs }, span }) is Ok,
    ensures
        ({
            let (end, over) = l_stat(
                t,
                low,
                StatV { kind: StatKindV::Assign { targets, exprs }, span },
            )->Ok_0;
            &&& !over
            &&& l_args(t, low, exprs, 0, Seq::empty()) matches Ok((l1, ids)) && ids.len()
                == exprs.len() && (forall|k: int|
                0 <= k < exprs.len() ==> is_nth(t, low, exprs, k, #[trigger] ids[k])) && (forall|
                k: int,
            |
                0 <= k < targets.len() ==> #[trigger] is_assigned(t, l1, targets, ids, k)) && end
                == before_target(t, l1, targets, ids, targets.len() as int)
        }),
{
    let s = StatV { kind: StatKindV::Assign { targets, exprs }, span };
    unfold_l_stat(t, low, s);
    assert(before_nth(t, low, exprs, 0) == low);
    lemma_args_in_order(t, low, exprs, 0, Seq::empty());
    let (l1, ids) = l_args(t, low, exprs, 0, Seq::empty())->Ok_0;
    assert(before_target(t, l1, targets, ids, 0) == l1);
    lemma_assigns_in_order(t, l1, targets, ids, 0);
}

} // verus!
