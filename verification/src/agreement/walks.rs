//! What the instructions do that a generic `for` is lowered to, block by block: what is walked and
//! how often, what the loop variables are when the body begins, and how the counter goes on.

use vstd::prelude::*;

use super::emitted::in_block;
use super::{effect_meaning, Answers};
use crate::ast::{BinOp, IdentV};
use crate::ir::lower::{
    l_count, l_in_range, l_item, l_keep, l_walk_bind, l_walk_key, l_walk_value, l_walked, numeral,
    Low, Tables, Walk,
};
use crate::ir::vm;
use crate::ir::vm::{eval_op_of, FrameV, VmV};
use crate::ir::{BlockId, InstrV, LocalId, OpV, ProgramV, Terminator, ValueId};
use crate::number::{index_of, order_of, Order};
use crate::resolve::SymbolId;
use crate::runtime::eval::{answer_of, RequestV};
use crate::types::TypeV;
use crate::value::{array_at, field_read, is_frozen, key_values, table_at, HeapV, ObjV, ValueV};

verus! {

// ---- instructions in order --------------------------------------------------------------------

/// Where the machine is between two instructions of a block: its objects, and its frame.
pub ghost struct Point {
    pub heap: HeapV,
    pub fr: FrameV,
}

/// One instruction; nothing if it fails.
pub open spec fn one(p: ProgramV, o: Answers, m: VmV, s: Point, i: InstrV) -> Option<Point> {
    let out = eval_op_of(p, VmV { heap: s.heap, ..m }, s.fr, i.op);
    match effect_meaning(o, out.effect) {
        Some(v) => Some(
            Point {
                heap: out.heap,
                fr: FrameV {
                    locals: out.locals,
                    values: match i.dest {
                        Some(d) => s.fr.values.insert(d, v),
                        None => s.fr.values,
                    },
                    ..s.fr
                },
            },
        ),
        None => None,
    }
}

/// Instructions from one to before another, in order.
pub open spec fn exec(
    p: ProgramV,
    o: Answers,
    m: VmV,
    s: Point,
    is: Seq<InstrV>,
    a: int,
    b: int,
) -> Option<Point>
    decreases b - a,
{
    if b <= a {
        Some(s)
    } else {
        match exec(p, o, m, s, is, a, b - 1) {
            Some(t) => one(p, o, m, t, is[b - 1]),
            None => None,
        }
    }
}

proof fn lemma_exec_prefix(
    p: ProgramV,
    o: Answers,
    m: VmV,
    s: Point,
    is: Seq<InstrV>,
    i: InstrV,
    a: int,
    b: int,
)
    requires
        0 <= a,
        b <= is.len(),
    ensures
        exec(p, o, m, s, is.push(i), a, b) == exec(p, o, m, s, is, a, b),
    decreases b - a,
{
    if a < b {
        lemma_exec_prefix(p, o, m, s, is, i, a, b - 1);
        assert(is.push(i)[b - 1] == is[b - 1]);
    }
}

/// The instructions of the block that is being filled.
pub open spec fn code(low: Low) -> Seq<InstrV> {
    low.blocks[low.current].instrs
}

/// Whether the instructions from the `n`-th on of the block that is being filled lead from one
/// point to another.
pub open spec fn leads(
    p: ProgramV,
    o: Answers,
    m: VmV,
    from: Low,
    low: Low,
    s: Point,
    t: Point,
) -> bool {
    &&& low.current == from.current
    &&& in_block(low)
    &&& code(from).len() <= code(low).len()
    &&& exec(p, o, m, s, code(low), code(from).len() as int, code(low).len() as int) == Some(t)
}

/// Nothing was added yet.
proof fn begin(p: ProgramV, o: Answers, m: VmV, low: Low, s: Point)
    requires
        in_block(low),
    ensures
        leads(p, o, m, low, low, s, s),
{
}

/// An instruction with a result.
proof fn emitted(
    p: ProgramV,
    o: Answers,
    m: VmV,
    from: Low,
    low: Low,
    op: OpV,
    ty: TypeV,
    s: Point,
    t: Point,
) -> (u: Point)
    requires
        leads(p, o, m, from, low, s, t),
        effect_meaning(o, eval_op_of(p, VmV { heap: t.heap, ..m }, t.fr, op).effect) is Some,
        low.values.len() < u32::MAX,
    ensures
        ({
            let (l1, d) = low.emit(op, ty);
            let out = eval_op_of(p, VmV { heap: t.heap, ..m }, t.fr, op);
            &&& leads(p, o, m, from, l1, s, u)
            &&& u.heap == out.heap
            &&& u.fr.locals == out.locals
            &&& u.fr.values == t.fr.values.insert(d, effect_meaning(o, out.effect)->0)
            &&& d == low.values.len()
            &&& l1.values.len() == low.values.len() + 1
            &&& l1.boxed == low.boxed
            &&& l1.upvalues == low.upvalues
            &&& l1.current == low.current
        }),
{
    reveal(Low::emit);
    let d = low.emit(op, ty).1;
    let i = InstrV { dest: Some(d), op };
    lemma_exec_prefix(p, o, m, s, code(low), i, code(from).len() as int, code(low).len() as int);
    one(p, o, m, t, i)->0
}

/// An instruction without one.
proof fn stated(
    p: ProgramV,
    o: Answers,
    m: VmV,
    from: Low,
    low: Low,
    op: OpV,
    s: Point,
    t: Point,
) -> (u: Point)
    requires
        leads(p, o, m, from, low, s, t),
        effect_meaning(o, eval_op_of(p, VmV { heap: t.heap, ..m }, t.fr, op).effect) is Some,
    ensures
        ({
            let l1 = low.stmt(op);
            let out = eval_op_of(p, VmV { heap: t.heap, ..m }, t.fr, op);
            &&& leads(p, o, m, from, l1, s, u)
            &&& u.heap == out.heap
            &&& u.fr.locals == out.locals
            &&& u.fr.values == t.fr.values
            &&& l1.values == low.values
            &&& l1.boxed == low.boxed
            &&& l1.upvalues == low.upvalues
            &&& l1.current == low.current
        }),
{
    reveal(Low::stmt);
    let i = InstrV { dest: None, op };
    lemma_exec_prefix(p, o, m, s, code(low), i, code(from).len() as int, code(low).len() as int);
    one(p, o, m, t, i)->0
}

/// The read of a variable.
proof fn got(
    p: ProgramV,
    o: Answers,
    m: VmV,
    from: Low,
    low: Low,
    id: LocalId,
    ty: TypeV,
    s: Point,
    x: Point,
) -> (u: Point)
    requires
        leads(p, o, m, from, low, s, x),
        x.fr.locals.dom().contains(id),
        low.values.len() < u32::MAX,
    ensures
        ({
            let (l1, d) = low.emit(OpV::LocalGet(id), ty);
            &&& leads(p, o, m, from, l1, s, u)
            &&& u.heap == x.heap
            &&& u.fr.locals == x.fr.locals
            &&& u.fr.values == x.fr.values.insert(d, x.fr.locals[id])
            &&& d == low.values.len()
            &&& l1.values.len() == low.values.len() + 1
            &&& l1.boxed == low.boxed
            &&& l1.upvalues == low.upvalues
        }),
{
    reveal(eval_op_of);
    emitted(p, o, m, from, low, OpV::LocalGet(id), ty, s, x)
}

/// Whether a name has a variable of its own, in the frame.
pub open spec fn plain_variable(low: Low, id: SymbolId) -> bool {
    !low.is_captured(id)
}

/// The write of a variable.
proof fn wrote(
    p: ProgramV,
    o: Answers,
    m: VmV,
    from: Low,
    low: Low,
    t: Tables,
    id: SymbolId,
    v: ValueId,
    s: Point,
    x: Point,
) -> (u: Point)
    requires
        leads(p, o, m, from, low, s, x),
        plain_variable(low, id),
        x.fr.values.dom().contains(v),
    ensures
        leads(p, o, m, from, low.write(t, id, v), s, u),
        u.heap == x.heap,
        u.fr.locals == x.fr.locals.insert(id, x.fr.values[v]),
        u.fr.values == x.fr.values,
        low.write(t, id, v).values == low.values,
        low.write(t, id, v).boxed == low.boxed,
        low.write(t, id, v).upvalues == low.upvalues,
{
    reveal(Low::write);
    reveal(Low::ensure_local);
    reveal(eval_op_of);
    stated(p, o, m, from, low.ensure_local(t, id), OpV::LocalSet(id, v), s, x)
}

// ---- the loop ----------------------------------------------------------------------------------

/// Whether a frame walks an array, and the counter is at its `i`-th element.
pub open spec fn walks(s: Point, w: Walk, i: int, items: Seq<ValueV>) -> bool {
    &&& s.fr.locals.dom().contains(w.idx)
    &&& s.fr.locals[w.idx] is Number
    &&& index_of(s.fr.locals[w.idx]->Number_0) == Some((i + 1) as u64)
    &&& 0 <= i < items.len()
    &&& i + 1 <= u64::MAX
    &&& s.fr.locals.dom().contains(w.seq)
    &&& array_at(s.heap, s.fr.locals[w.seq]) == Some(items)
}

/// The element at the counter.
proof fn item(
    p: ProgramV,
    o: Answers,
    m: VmV,
    from: Low,
    low: Low,
    w: Walk,
    s: Point,
    x: Point,
    i: int,
    items: Seq<ValueV>,
) -> (u: Point)
    requires
        leads(p, o, m, from, low, s, x),
        walks(x, w, i, items),
        low.values.len() + 3 < u32::MAX,
    ensures
        ({
            let (l1, d) = l_item(low, w);
            &&& leads(p, o, m, from, l1, s, u)
            &&& u.heap == x.heap
            &&& u.fr.locals == x.fr.locals
            &&& u.fr.values.dom().contains(d)
            &&& u.fr.values[d] == items[i]
            &&& l1.values.len() == low.values.len() + 3
            &&& d == low.values.len() + 2
            &&& l1.boxed == low.boxed
            &&& l1.upvalues == low.upvalues
        }),
{
    reveal(l_item);
    reveal(eval_op_of);
    reveal(vm::read_op);
    let u1 = emitted(p, o, m, from, low, OpV::LocalGet(w.idx), TypeV::Number, s, x);
    let (a, idx) = low.emit(OpV::LocalGet(w.idx), TypeV::Number);
    let u2 = emitted(p, o, m, from, a, OpV::LocalGet(w.seq), w.seq_ty, s, u1);
    let (b, sq) = a.emit(OpV::LocalGet(w.seq), w.seq_ty);
    let elem_ty = if w.is_pairs {
        TypeV::String
    } else {
        w.val_ty
    };
    emitted(p, o, m, from, b, OpV::ArrayGet(sq, idx), elem_ty, s, u2)
}

/// When the body of a generic `for` begins, its variables are what they should be: for `pairs`
/// the key at the counter and the value that was kept for it, for `ipairs` the counter and the
/// element at the counter. No object and no other variable has changed.
pub proof fn law_loop_variables_are_bound(
    p: ProgramV,
    o: Answers,
    m: VmV,
    t: Tables,
    low: Low,
    w: Walk,
    names: Seq<IdentV>,
    s: Point,
    i: int,
    items: Seq<ValueV>,
    kept: Seq<ValueV>,
)
    requires
        in_block(low),
        low.values.len() + 8 < u32::MAX,
        walks(s, w, i, items),
        w.is_pairs ==> s.fr.locals.dom().contains(w.vals) && array_at(
            s.heap,
            s.fr.locals[w.vals],
        ) == Some(kept) && i < kept.len(),
        names.len() <= 2,
        forall|k: int|
            0 <= k < names.len() ==> (t.res.def_of((#[trigger] names[k]).span) matches Some(id)
                && plain_variable(low, id) && id != w.idx && id != w.seq && id != w.vals),
        names.len() == 2 ==> t.res.def_of(names[0].span) != t.res.def_of(names[1].span),
        l_walk_bind(t, low, w, names) is Ok,
    ensures
        ({
            let later = (l_walk_bind(t, low, w, names)->Ok_0).0;
            let key = if w.is_pairs {
                items[i]
            } else {
                s.fr.locals[w.idx]
            };
            let val = if w.is_pairs {
                kept[i]
            } else {
                items[i]
            };
            let end = exec(
                p,
                o,
                m,
                s,
                code(later),
                code(low).len() as int,
                code(later).len() as int,
            );
            &&& later.current == low.current
            &&& end matches Some(e) && e.heap == s.heap && e.fr.locals == (if names.len() == 0 {
                s.fr.locals
            } else if names.len() == 1 {
                s.fr.locals.insert(t.res.def_of(names[0].span)->0, key)
            } else {
                s.fr.locals.insert(t.res.def_of(names[0].span)->0, key).insert(
                    t.res.def_of(names[1].span)->0,
                    val,
                )
            })
        }),
{
    reveal(l_walk_bind);
    reveal(l_walk_key);
    reveal(l_walk_value);
    reveal(Low::ensure_local);
    reveal(eval_op_of);
    reveal(vm::read_op);
    begin(p, o, m, low, s);
    let s1 = item(p, o, m, low, low, w, s, s, i, items);
    let (c, elem) = l_item(low, w);
    if names.len() > 0 {
        let id = t.res.def_of(names[0].span)->0;
        assert(plain_variable(low, id)) by {
            let n0 = names[0];
        }
        let c1 = c.ensure_local(t, id);
        assert(leads(p, o, m, low, c1, s, s1));
        let (d, s2) = if w.is_pairs {
            (c1.write(t, id, elem), wrote(p, o, m, low, c1, t, id, elem, s, s1))
        } else {
            let get = OpV::LocalGet(w.idx);
            let s1b = emitted(p, o, m, low, c1, get, TypeV::Number, s, s1);
            let (c2, idx) = c1.emit(get, TypeV::Number);
            (c2.write(t, id, idx), wrote(p, o, m, low, c2, t, id, idx, s, s1b))
        };
        if names.len() > 1 {
            let id1 = t.res.def_of(names[1].span)->0;
            assert(plain_variable(low, id1) && id1 != w.idx) by {
                let n1 = names[1];
            }
            let d1 = d.ensure_local(t, id1);
            assert(leads(p, o, m, low, d1, s, s2));
            if w.is_pairs {
                let vt = TypeV::Array(Box::new(w.val_ty));
                let s3 = emitted(p, o, m, low, d1, OpV::LocalGet(w.vals), vt, s, s2);
                let (e1, vals) = d1.emit(OpV::LocalGet(w.vals), vt);
                let get = OpV::LocalGet(w.idx);
                let s4 = emitted(p, o, m, low, e1, get, TypeV::Number, s, s3);
                let (e2, idx) = e1.emit(get, TypeV::Number);
                let s5 = emitted(p, o, m, low, e2, OpV::ArrayGet(vals, idx), w.val_ty, s, s4);
                let (e3, v) = e2.emit(OpV::ArrayGet(vals, idx), w.val_ty);
                let s6 = wrote(p, o, m, low, e3, t, id1, v, s, s5);
            } else {
                let s6 = wrote(p, o, m, low, d1, t, id1, elem, s, s2);
            }
        }
    }
}

/// Before a `pairs` loop begins, the value of the key at the counter is kept at the place of the
/// key: the code adds it to the values, or puts it in its place, and changes nothing else.
pub proof fn law_values_are_kept(
    p: ProgramV,
    o: Answers,
    m: VmV,
    low: Low,
    w: Walk,
    s: Point,
    i: int,
    keys: Seq<ValueV>,
    kept: Seq<ValueV>,
)
    requires
        in_block(low),
        low.values.len() + 8 < u32::MAX,
        walks(s, w, i, keys),
        keys[i] is Str,
        s.fr.locals.dom().contains(w.map),
        table_at(s.heap, s.fr.locals[w.map]) is Some,
        s.fr.locals.dom().contains(w.vals),
        array_at(s.heap, s.fr.locals[w.vals]) == Some(kept),
        !is_frozen(m.frozen, s.fr.locals[w.vals]),
        i <= kept.len(),
    ensures
        ({
            let later = l_keep(low, w);
            let v = field_read(s.heap, s.fr.locals[w.map], keys[i]->Str_0);
            let end = exec(
                p,
                o,
                m,
                s,
                code(later),
                code(low).len() as int,
                code(later).len() as int,
            );
            &&& later.current == low.current
            &&& end matches Some(e) && e.fr.locals == s.fr.locals && e.heap == s.heap.update(
                s.fr.locals[w.vals]->Array_0 as int,
                ObjV::Array(
                    if i < kept.len() {
                        kept.update(i, v)
                    } else {
                        kept.push(v)
                    },
                ),
            )
        }),
{
    reveal(l_keep);
    begin(p, o, m, low, s);
    let s1 = item(p, o, m, low, low, w, s, s, i, keys);
    let (a, key) = l_item(low, w);
    let s2 = got(p, o, m, low, a, w.map, w.map_ty, s, s1);
    let (b, map) = a.emit(OpV::LocalGet(w.map), w.map_ty);
    let v0 = field_read(s.heap, s.fr.locals[w.map], keys[i]->Str_0);
    let read = OpV::MapGet(map, key);
    assert(effect_meaning(
        o,
        eval_op_of(p, VmV { heap: s2.heap, ..m }, s2.fr, read).effect,
    ) == Some(v0) && eval_op_of(p, VmV { heap: s2.heap, ..m }, s2.fr, read).heap == s2.heap
        && eval_op_of(p, VmV { heap: s2.heap, ..m }, s2.fr, read).locals == s2.fr.locals) by {
        reveal(eval_op_of);
        reveal(vm::read_op);
    }
    let s3 = emitted(p, o, m, low, b, read, w.val_ty, s, s2);
    let (c, v) = b.emit(read, w.val_ty);
    let vt = TypeV::Array(Box::new(w.val_ty));
    let s4 = got(p, o, m, low, c, w.vals, vt, s, s3);
    let (d, vals) = c.emit(OpV::LocalGet(w.vals), vt);
    let s5 = got(p, o, m, low, d, w.idx, TypeV::Number, s, s4);
    let (e, idx) = d.emit(OpV::LocalGet(w.idx), TypeV::Number);
    let set = OpV::ArraySet(vals, idx, v);
    let after = s.heap.update(
        s.fr.locals[w.vals]->Array_0 as int,
        ObjV::Array(
            if i < kept.len() {
                kept.update(i, v0)
            } else {
                kept.push(v0)
            },
        ),
    );
    assert(s5.fr.values[vals] == s.fr.locals[w.vals] && s5.fr.values[idx] == s.fr.locals[w.idx]
        && s5.fr.values[v] == v0 && s5.heap == s.heap);
    assert(effect_meaning(o, eval_op_of(p, VmV { heap: s5.heap, ..m }, s5.fr, set).effect) is Some
        && eval_op_of(p, VmV { heap: s5.heap, ..m }, s5.fr, set).heap == after && eval_op_of(
        p,
        VmV { heap: s5.heap, ..m },
        s5.fr,
        set,
    ).locals == s5.fr.locals) by {
        reveal(eval_op_of);
        reveal(vm::write_op);
    }
    let s6 = stated(p, o, m, low, e, set, s, s5);
}

/// The test of a generic `for`: the body follows exactly if the counter is not above the length.
pub proof fn law_test_compares_with_the_length(
    p: ProgramV,
    o: Answers,
    m: VmV,
    low: Low,
    w: Walk,
    body: BlockId,
    exit: BlockId,
    s: Point,
    a: u64,
    b: u64,
)
    requires
        in_block(low),
        low.values.len() + 3 < u32::MAX,
        s.fr.locals.dom().contains(w.idx),
        s.fr.locals.dom().contains(w.len),
        s.fr.locals[w.idx] == ValueV::Number(a),
        s.fr.locals[w.len] == ValueV::Number(b),
        order_of(a, b) is Some,
    ensures
        ({
            let later = l_in_range(low, w, body, exit);
            let end = exec(
                p,
                o,
                m,
                s,
                code(later),
                code(low).len() as int,
                code(later).len() as int,
            );
            &&& end matches Some(e) && e.heap == s.heap && e.fr.locals == s.fr.locals && (
            later.blocks[low.current].term matches Terminator::Branch { cond, then_blk, else_blk }
                && then_blk == body && else_blk == exit && e.fr.values.dom().contains(cond)
                && e.fr.values[cond] == ValueV::Bool(order_of(a, b) != Some(Order::Greater)))
        }),
{
    reveal(l_in_range);
    reveal(eval_op_of);
    reveal(Low::set_term);
    begin(p, o, m, low, s);
    let s1 = emitted(p, o, m, low, low, OpV::LocalGet(w.idx), TypeV::Number, s, s);
    let (x, idx) = low.emit(OpV::LocalGet(w.idx), TypeV::Number);
    let s2 = emitted(p, o, m, low, x, OpV::LocalGet(w.len), TypeV::Number, s, s1);
    let (y, len) = x.emit(OpV::LocalGet(w.len), TypeV::Number);
    let s3 = emitted(p, o, m, low, y, OpV::Binary(BinOp::Le, idx, len), TypeV::Bool, s, s2);
}

/// The end of a pass: one is added to the counter, and the test follows.
pub proof fn law_counter_goes_on(
    p: ProgramV,
    o: Answers,
    m: VmV,
    low: Low,
    w: Walk,
    header: BlockId,
    s: Point,
    a: u64,
    one_: u64,
    next: u64,
)
    requires
        in_block(low),
        low.values.len() + 3 < u32::MAX,
        s.fr.locals.dom().contains(w.idx),
        s.fr.locals[w.idx] == ValueV::Number(a),
        effect_meaning(o, eval_op_of(p, m, s.fr, numeral("1"@)).effect) == Some(
            ValueV::Number(one_),
        ),
        answer_of(
            RequestV::Arith(BinOp::Add, a, one_),
            (o.reply)(RequestV::Arith(BinOp::Add, a, one_)),
        ) == Ok::<ValueV, crate::value::RunErrorV>(ValueV::Number(next)),
    ensures
        ({
            let later = l_count(low, w, header);
            let end = exec(
                p,
                o,
                m,
                s,
                code(later),
                code(low).len() as int,
                code(later).len() as int,
            );
            &&& end matches Some(e) && e.heap == s.heap && e.fr.locals == s.fr.locals.insert(
                w.idx,
                ValueV::Number(next),
            )
            &&& later.blocks[low.current].term == Terminator::Jump(header)
        }),
{
    reveal(l_count);
    reveal(eval_op_of);
    reveal(Low::set_term);
    begin(p, o, m, low, s);
    let s1 = emitted(p, o, m, low, low, OpV::LocalGet(w.idx), TypeV::Number, s, s);
    let (x, idx) = low.emit(OpV::LocalGet(w.idx), TypeV::Number);
    let s2 = emitted(p, o, m, low, x, numeral("1"@), TypeV::Number, s, s1);
    let (y, one__) = x.emit(numeral("1"@), TypeV::Number);
    let add_ = OpV::Binary(BinOp::Add, idx, one__);
    let s3 = emitted(p, o, m, low, y, add_, TypeV::Number, s, s2);
    let (z, sum) = y.emit(add_, TypeV::Number);
    let s4 = stated(p, o, m, low, z, OpV::LocalSet(w.idx, sum), s, s3);
}

/// What a `pairs` loop walks: the keys of the map, in their order, in an array of their own; an
/// empty array is there for the values.
pub proof fn law_pairs_walks_the_keys(
    p: ProgramV,
    o: Answers,
    m: VmV,
    low: Low,
    v: ValueId,
    ty: TypeV,
    val_ty: TypeV,
    s: Point,
)
    requires
        in_block(low),
        low.values.len() + 3 < u32::MAX,
        low.next_temp + 3 < u32::MAX,
        s.heap.len() + 2 < usize::MAX,
        s.fr.values.dom().contains(v),
        v < low.values.len(),
        table_at(s.heap, s.fr.values[v]) is Some,
    ensures
        ({
            let (later, sq, map, vals) = l_walked(low, v, ty, val_ty, true);
            let entries = table_at(s.heap, s.fr.values[v])->0;
            let end = exec(
                p,
                o,
                m,
                s,
                code(later),
                code(low).len() as int,
                code(later).len() as int,
            );
            end matches Some(e) && {
                &&& array_at(e.heap, e.fr.locals[sq]) == Some(key_values(entries))
                &&& e.fr.locals[map] == s.fr.values[v]
                &&& array_at(e.heap, e.fr.locals[vals]) == Some(Seq::<ValueV>::empty())
                &&& e.fr.locals[vals] != e.fr.locals[sq]
                &&& e.heap.len() == s.heap.len() + 2
                &&& forall|k: int| 0 <= k < s.heap.len() ==> e.heap[k] == #[trigger] s.heap[k]
            }
        }),
{
    reveal(l_walked);
    reveal(eval_op_of);
    reveal(vm::make_op);
    reveal(Low::fresh_temp);
    begin(p, o, m, low, s);
    let keys_ty = TypeV::Array(Box::new(TypeV::String));
    let (st2, sq) = low.fresh_temp(keys_ty);
    assert(leads(p, o, m, low, st2, s, s));
    let s1 = emitted(p, o, m, low, st2, OpV::MapKeys(v), keys_ty, s, s);
    let (st3, keys) = st2.emit(OpV::MapKeys(v), keys_ty);
    let s2 = stated(p, o, m, low, st3, OpV::LocalSet(sq, keys), s, s1);
    let st3b = st3.stmt(OpV::LocalSet(sq, keys));
    assert(st3b.next_temp == st2.next_temp) by {
        reveal(Low::emit);
        reveal(Low::stmt);
    }
    let (st4, map) = st3b.fresh_temp(ty);
    assert(leads(p, o, m, low, st4, s, s2));
    let s3 = stated(p, o, m, low, st4, OpV::LocalSet(map, v), s, s2);
    let st4b = st4.stmt(OpV::LocalSet(map, v));
    assert(st4b.next_temp == st4.next_temp) by {
        reveal(Low::stmt);
    }
    let vals_ty = TypeV::Array(Box::new(val_ty));
    let (st5, vals) = st4b.fresh_temp(vals_ty);
    assert(leads(p, o, m, low, st5, s, s3));
    vm::unfold_vals(s3.fr, Seq::empty(), 0, Seq::empty());
    let mk = OpV::MakeArray(Seq::empty());
    let s4 = emitted(p, o, m, low, st5, mk, vals_ty, s, s3);
    let (st6, empty) = st5.emit(mk, vals_ty);
    let s5 = stated(p, o, m, low, st6, OpV::LocalSet(vals, empty), s, s4);
}

} // verus!
