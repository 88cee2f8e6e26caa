//! What the loops of the interpreter do, told from outside: which values the loop variables
//! have when the body of a pass begins, in which order, and what comes after the last pass.

use vstd::prelude::*;

use crate::ast::{BinOp, BlockV, ExprV, IdentV, IterExprV, ModuleV, StatKindV, StatV};
use crate::diagnostics::Span;
use crate::interp::{
    exec_of, flow_of, for_of, have_in_loop, have_in_stat, if_of, ipairs_of, item_body_of, item_of,
    iter_of, pairs_of, step_of, CtrlV, FlowV, KontV, ONE, St, Stepped,
};
use crate::ir::vm::ProgressV;
use crate::number::{order_of, Order};
use crate::resolve::{ResolutionV, SymbolId};
use crate::runtime::eval::RequestV;
use crate::value::{array_at, cell_at, table_at, ValueV};

verus! {

/// Whether the variables of the activation have cells, each its own.
pub open spec fn slots(st: St) -> bool {
    st.act matches Some(a) && (forall|id: SymbolId| #[trigger]
        a.locals.dom().contains(id) ==> cell_at(st.heap, ValueV::Cell(a.locals[id])) is Some) && (
    forall|x: SymbolId, y: SymbolId|
        #![trigger a.locals[x], a.locals[y]]
        a.locals.dom().contains(x) && a.locals.dom().contains(y) && x != y ==> a.locals[x]
            != a.locals[y])
}

/// Whether that holds, and there is room for two more.
pub open spec fn own_slots(st: St) -> bool {
    slots(st) && st.heap.len() + 2 < usize::MAX
}

/// Whether loop variables are symbols, the first another than the second.
pub open spec fn variables(r: ResolutionV, names: Seq<IdentV>) -> bool {
    &&& names.len() > 0 ==> r.def_of(names[0].span) is Some
    &&& names.len() > 1 ==> r.def_of(names[1].span) is Some && r.def_of(names[0].span) != r.def_of(
        names[1].span,
    )
}

/// Whether a name has a value.
pub open spec fn reads(r: ResolutionV, st: St, name: IdentV, v: ValueV) -> bool {
    r.def_of(name.span) matches Some(id) && st.lookup(id) == Some(v)
}

/// Whether the objects that were there are as they were, but for the cells of loop variables.
pub open spec fn undisturbed(r: ResolutionV, st: St, later: St, names: Seq<IdentV>) -> bool {
    &&& later == (St {
        heap: later.heap,
        act: later.act,
        konts: later.konts,
        ctrl: later.ctrl,
        wait: later.wait,
        ..st
    })
    &&& st.heap.len() <= later.heap.len()
    &&& forall|j: int|
        0 <= j < st.heap.len() && !(st.heap[j] is Cell) ==> later.heap[j] == #[trigger] st.heap[j]
    &&& forall|id: SymbolId| #[trigger]
        st.lookup(id) is Some && (names.len() > 0 ==> r.def_of(names[0].span) != Some(id)) && (
        names.len() > 1 ==> r.def_of(names[1].span) != Some(id)) && st.act->0.locals.dom().contains(id)
            ==> later.lookup(id) == st.lookup(id)
}

/// Whether the body of a loop begins, with these values of the first two loop variables.
pub open spec fn pass_begins(
    r: ResolutionV,
    st: St,
    s: Stepped,
    rest: Seq<KontV>,
    names: Seq<IdentV>,
    body: BlockV,
    first: ValueV,
    second: ValueV,
) -> bool {
    &&& s.1 is Running
    &&& s.0.ctrl == Some(CtrlV::Block(body, 0))
    &&& s.0.konts.len() == rest.len() + 1
    &&& s.0.konts.drop_last() == rest
    &&& names.len() > 0 ==> reads(r, s.0, names[0], first)
    &&& names.len() > 1 ==> reads(r, s.0, names[1], second)
    &&& undisturbed(r, st, s.0, names)
}

/// Whether a statement has ended, and nothing else has changed.
pub open spec fn over(st: St, s: Stepped, rest: Seq<KontV>, f: FlowV) -> bool {
    s == (St { ctrl: Some(CtrlV::Flow(f)), konts: rest, ..st }, ProgressV::Running)
}

/// Whether a block has ended in that way, for what waits for it.
pub open spec fn ends(st: St, rest: Seq<KontV>, k: KontV, f: FlowV) -> bool {
    &&& st.ctrl == Some(CtrlV::Flow(f))
    &&& st.konts == rest.push(k)
    &&& own_slots(st)
}

/// Whether a value is there for what waits for it.
pub open spec fn arrives(st: St, rest: Seq<KontV>, k: KontV, v: ValueV) -> bool {
    &&& st.ctrl == Some(CtrlV::Have(v))
    &&& st.konts == rest.push(k)
    &&& own_slots(st)
}

/// Whether a body that breaks or returns ends the loop: a `break` goes no further, a `return`
/// does.
pub open spec fn leaves(m: ModuleV, r: ResolutionV, rest: Seq<KontV>, k: KontV) -> bool {
    &&& forall|st: St| #[trigger]
        ends(st, rest, k, FlowV::Break) ==> over(st, step_of(m, r, st), rest, FlowV::Normal)
    &&& forall|st: St, v: ValueV| #[trigger]
        ends(st, rest, k, FlowV::Return(v)) ==> over(
            st,
            step_of(m, r, st),
            rest,
            FlowV::Return(v),
        )
}

/// Whether the loop goes over entries from the `i`-th on: the body begins with the key and the
/// value of the entry; when it has ended, the next entry follows; after the last one, the loop
/// ends.
pub open spec fn goes_over(
    m: ModuleV,
    r: ResolutionV,
    st: St,
    s: Stepped,
    rest: Seq<KontV>,
    names: Seq<IdentV>,
    body: BlockV,
    es: Seq<(Seq<char>, ValueV)>,
    i: int,
) -> bool
    decreases es.len() - i,
{
    if 0 <= i < es.len() {
        &&& pass_begins(r, st, s, rest, names, body, ValueV::Str(es[i].0), es[i].1)
        &&& leaves(m, r, rest, s.0.konts.last())
        &&& forall|later: St| #[trigger]
            ends(later, rest, s.0.konts.last(), FlowV::Normal) ==> goes_over(
                m,
                r,
                later,
                step_of(m, r, later),
                rest,
                names,
                body,
                es,
                i + 1,
            )
    } else {
        over(st, s, rest, FlowV::Normal)
    }
}

/// Whether the loop goes over elements from the `i`-th of `len` on: the number of the element
/// is asked for where there is a name for it; the body begins with that number and with the
/// element that the array has then.
pub open spec fn goes_along(
    m: ModuleV,
    r: ResolutionV,
    st: St,
    s: Stepped,
    rest: Seq<KontV>,
    names: Seq<IdentV>,
    body: BlockV,
    arr: ValueV,
    len: int,
    i: int,
) -> bool
    decreases len - i, 1int,
{
    if 0 <= i < len {
        if names.len() > 0 {
            &&& s.1 is Ask
            &&& s.0 == (St {
                wait: Some(RequestV::Count((i + 1) as u64)),
                ctrl: None,
                konts: s.0.konts,
                ..st
            })
            &&& s.0.konts.len() == rest.len() + 1
            &&& s.0.konts.drop_last() == rest
            &&& forall|now: St, n: ValueV| #[trigger]
                arrives(now, rest, s.0.konts.last(), n) ==> item_passes(
                    m,
                    r,
                    now,
                    step_of(m, r, now),
                    rest,
                    names,
                    body,
                    arr,
                    len,
                    i,
                    n,
                )
        } else {
            item_passes(m, r, st, s, rest, names, body, arr, len, i, ValueV::Nil)
        }
    } else {
        over(st, s, rest, FlowV::Normal)
    }
}

/// The pass over the `i`-th element, once its number is there.
pub open spec fn item_passes(
    m: ModuleV,
    r: ResolutionV,
    st: St,
    s: Stepped,
    rest: Seq<KontV>,
    names: Seq<IdentV>,
    body: BlockV,
    arr: ValueV,
    len: int,
    i: int,
    n: ValueV,
) -> bool
    decreases len - i, 0int,
{
    if 0 <= i < len {
        array_at(st.heap, arr) is Some && i < array_at(st.heap, arr)->0.len() ==> {
            &&& pass_begins(r, st, s, rest, names, body, n, array_at(st.heap, arr)->0[i])
            &&& leaves(m, r, rest, s.0.konts.last())
            &&& forall|later: St| #[trigger]
                ends(later, rest, s.0.konts.last(), FlowV::Normal) ==> goes_along(
                    m,
                    r,
                    later,
                    step_of(m, r, later),
                    rest,
                    names,
                    body,
                    arr,
                    len,
                    i + 1,
                )
        }
    } else {
        true
    }
}

// ---- declarations ------------------------------------------------------------------

/// A declared name has its value; other variables, and other objects, are as they were.
proof fn lemma_declared(r: ResolutionV, st: St, name: IdentV, v: ValueV, id: SymbolId)
    requires
        slots(st),
        st.heap.len() + 1 < usize::MAX,
        r.def_of(name.span) == Some(id),
    ensures
        st.declared(r, name, v) is Ok,
        ({
            let st1 = st.declared(r, name, v)->Ok_0;
            &&& st1.lookup(id) == Some(v)
            &&& st1 == (St { heap: st1.heap, act: st1.act, ..st })
            &&& st.heap.len() <= st1.heap.len() <= st.heap.len() + 1
            &&& slots(st1)
            &&& forall|j: int|
                0 <= j < st.heap.len() && !(st.heap[j] is Cell) ==> st1.heap[j]
                    == #[trigger] st.heap[j]
            &&& forall|x: SymbolId| #[trigger]
                st.act->0.locals.dom().contains(x) && x != id ==> st1.lookup(x) == st.lookup(x)
            &&& forall|x: SymbolId| #[trigger]
                st1.act->0.locals.dom().contains(x) <==> st.act->0.locals.dom().contains(x) || x
                    == id
        }),
{
    reveal(St::declared);
    reveal(St::stored);
    reveal(St::bound);
    reveal(St::slot);
    let st1 = st.declared(r, name, v)->Ok_0;
    let a = st.act->0;
    let b = st1.act->0;
    assert forall|x: SymbolId| #[trigger] b.locals.dom().contains(x) implies cell_at(
        st1.heap,
        ValueV::Cell(b.locals[x]),
    ) is Some by {
        if x != id {
            assert(a.locals.dom().contains(x));
        }
    }
    assert forall|x: SymbolId, y: SymbolId|
        #![trigger b.locals[x], b.locals[y]]
        b.locals.dom().contains(x) && b.locals.dom().contains(y) && x != y implies b.locals[x]
        != b.locals[y] by {
        if x != id {
            assert(a.locals.dom().contains(x));
            assert(b.locals[x] == a.locals[x]);
        }
        if y != id {
            assert(a.locals.dom().contains(y));
            assert(b.locals[y] == a.locals[y]);
        }
    }
    assert forall|x: SymbolId| #[trigger]
        st.act->0.locals.dom().contains(x) && x != id implies st1.lookup(x) == st.lookup(x) by {
        assert(b.locals.dom().contains(x));
        assert(b.locals[x] == a.locals[x]);
        if a.locals.dom().contains(id) {
            assert(a.locals[x] != a.locals[id]);
        }
    }
}

/// The start of a body whose second variable has still to be declared.
proof fn lemma_begins(
    r: ResolutionV,
    before: St,
    st: St,
    st1: St,
    rest: Seq<KontV>,
    names: Seq<IdentV>,
    body: BlockV,
    k: KontV,
    first: ValueV,
    second: ValueV,
)
    requires
        own_slots(st),
        variables(r, names),
        st.konts == rest,
        before == (St { ctrl: before.ctrl, konts: before.konts, wait: before.wait, ..st }),
        names.len() > 0 ==> st.declared(r, names[0], first) == Ok::<St, crate::value::RunErrorV>(st1),
        names.len() == 0 ==> st1 == st,
    ensures
        pass_begins(
            r,
            before,
            item_body_of(r, st1, names, second, body, k),
            rest,
            names,
            body,
            first,
            second,
        ),
        item_body_of(r, st1, names, second, body, k).0.konts.last() == k,
{
    reveal(item_body_of);
    reveal(St::push);
    reveal(St::run);
    if names.len() > 0 {
        let x = r.def_of(names[0].span)->0;
        lemma_declared(r, st, names[0], first, x);
        if names.len() > 1 {
            let y = r.def_of(names[1].span)->0;
            lemma_declared(r, st1, names[1], second, y);
            let st2 = st1.declared(r, names[1], second)->Ok_0;
            assert(st1.act->0.locals.dom().contains(x));
            assert(st2.lookup(x) == Some(first));
            let s = item_body_of(r, st1, names, second, body, k);
            assert(s.0.konts.drop_last() =~= rest);
            lemma_same_reads(s.0, st2);
            lemma_same_reads(before, st);
            assert forall|j: int| 0 <= j < before.heap.len() && !(before.heap[j] is Cell) implies s.0.heap[j]
                == #[trigger] before.heap[j] by {
                assert(st.heap[j] == before.heap[j]);
                assert(st1.heap[j] == st.heap[j]);
            }
            assert forall|id: SymbolId| #[trigger]
                before.lookup(id) is Some && id != x && id != y && before.act->0.locals.dom().contains(
                    id,
                ) implies s.0.lookup(id) == before.lookup(id) by {
                assert(st.act->0.locals.dom().contains(id));
                assert(st1.act->0.locals.dom().contains(id));
            }
        } else {
            let s = item_body_of(r, st1, names, second, body, k);
            assert(s.0.konts.drop_last() =~= rest);
            lemma_same_reads(s.0, st1);
            lemma_same_reads(before, st);
            assert forall|id: SymbolId| #[trigger]
                before.lookup(id) is Some && id != x && before.act->0.locals.dom().contains(
                    id,
                ) implies s.0.lookup(id) == before.lookup(id) by {
                assert(st.act->0.locals.dom().contains(id));
            }
        }
    } else {
        let s = item_body_of(r, st1, names, second, body, k);
        assert(s.0.konts.drop_last() =~= rest);
        lemma_same_reads(s.0, st1);
        lemma_same_reads(before, st);
    }
}

/// What a name reads depends on the heap and the activation alone.
proof fn lemma_same_reads(a: St, b: St)
    requires
        a.heap == b.heap,
        a.act == b.act,
        a.funcs == b.funcs,
    ensures
        forall|id: SymbolId| #[trigger] a.lookup(id) == b.lookup(id),
{
    reveal(St::slot);
}

// ---- loops ---------------------------------------------------------------------------

/// A `break` or a `return` in the body of a loop.
proof fn lemma_leaves(m: ModuleV, r: ResolutionV, rest: Seq<KontV>, k: KontV)
    requires
        k is WhileBody || k is ForBody || k is NextItem || k is NextEntry,
    ensures
        leaves(m, r, rest, k),
{
    reveal(flow_of);
    reveal(St::run);
    assert(rest.push(k).drop_last() =~= rest);
}

/// The loop over entries.
proof fn lemma_goes_over(
    m: ModuleV,
    r: ResolutionV,
    before: St,
    st: St,
    rest: Seq<KontV>,
    names: Seq<IdentV>,
    body: BlockV,
    es: Seq<(Seq<char>, ValueV)>,
    i: int,
)
    requires
        variables(r, names),
        own_slots(st),
        st.konts == rest,
        0 <= i <= es.len(),
        before == (St { ctrl: before.ctrl, konts: before.konts, ..st }),
    ensures
        goes_over(m, r, before, pairs_of(r, st, names, es, i, body), rest, names, body, es, i),
    decreases es.len() - i,
{
    reveal(pairs_of);
    let s = pairs_of(r, st, names, es, i, body);
    if i < es.len() {
        let k = KontV::NextEntry(names, es, i + 1, body);
        if names.len() > 0 {
            let x = r.def_of(names[0].span)->0;
            lemma_declared(r, st, names[0], ValueV::Str(es[i].0), x);
            let st1 = st.declared(r, names[0], ValueV::Str(es[i].0))->Ok_0;
            lemma_begins(r, before, st, st1, rest, names, body, k, ValueV::Str(es[i].0), es[i].1);
        } else {
            lemma_begins(r, before, st, st, rest, names, body, k, ValueV::Str(es[i].0), es[i].1);
        }
        assert(s.0.konts.last() == k);
        lemma_leaves(m, r, rest, k);
        assert forall|later: St| #[trigger]
            ends(later, rest, s.0.konts.last(), FlowV::Normal) implies goes_over(
            m,
            r,
            later,
            step_of(m, r, later),
            rest,
            names,
            body,
            es,
            i + 1,
        ) by {
            let idle = St { ctrl: None, konts: rest, ..later };
            assert(rest.push(k).drop_last() =~= rest);
            reveal(flow_of);
            lemma_goes_over(m, r, later, idle, rest, names, body, es, i + 1);
        }
    } else {
        reveal(St::run);
    }
}

/// A `pairs` loop goes over the entries that the table has when the loop begins, each once and
/// in their order: in each pass the first variable is the key of the entry and the second its
/// value. The table is what the loop's expression comes to.
pub proof fn law_pairs_goes_over_entries(
    m: ModuleV,
    r: ResolutionV,
    st: St,
    names: Seq<IdentV>,
    arg: ExprV,
    at: Span,
    body: BlockV,
    span: Span,
)
    requires
        st.ctrl == Some(
            CtrlV::Exec(
                StatV {
                    kind: StatKindV::GenericFor {
                        names,
                        iter: IterExprV::Pairs { arg, span: at },
                        body,
                    },
                    span,
                },
            ),
        ),
        variables(r, names),
    ensures
        ({
            let (s, p) = step_of(m, r, st);
            &&& p is Running
            &&& s == (St { ctrl: Some(CtrlV::Eval(arg)), konts: s.konts, ..st })
            &&& s.konts.len() == st.konts.len() + 1
            &&& s.konts.drop_last() == st.konts
            &&& forall|now: St, v: ValueV| #[trigger]
                arrives(now, st.konts, s.konts.last(), v) ==> (table_at(now.heap, v) matches Some(
                    es,
                ) ==> goes_over(
                    m,
                    r,
                    now,
                    step_of(m, r, now),
                    st.konts,
                    names,
                    body,
                    es,
                    0,
                ))
        }),
{
    reveal(exec_of);
    reveal(St::push);
    reveal(St::run);
    let s = step_of(m, r, st).0;
    let rest = st.konts;
    let k = KontV::Iter(names, true, body);
    assert(s.konts.drop_last() =~= rest);
    assert forall|now: St, v: ValueV| #[trigger] arrives(now, rest, s.konts.last(), v) implies (
    table_at(now.heap, v) matches Some(es) ==> goes_over(
        m,
        r,
        now,
        step_of(m, r, now),
        rest,
        names,
        body,
        es,
        0,
    )) by {
        if table_at(now.heap, v) is Some {
            let es = table_at(now.heap, v)->0;
            let idle = St { ctrl: None, konts: rest, ..now };
            assert(rest.push(k).drop_last() =~= rest);
            reveal(have_in_stat);
            reveal(have_in_loop);
            reveal(iter_of);
            lemma_goes_over(m, r, now, idle, rest, names, body, es, 0);
        }
    }
}

/// The loop over elements.
proof fn lemma_goes_along(
    m: ModuleV,
    r: ResolutionV,
    before: St,
    st: St,
    rest: Seq<KontV>,
    names: Seq<IdentV>,
    body: BlockV,
    arr: ValueV,
    len: int,
    i: int,
)
    requires
        variables(r, names),
        own_slots(st),
        st.konts == rest,
        st.ctrl is None,
        0 <= i <= len,
        before == (St { ctrl: before.ctrl, konts: before.konts, ..st }),
    ensures
        goes_along(
            m,
            r,
            before,
            ipairs_of(r, st, names, arr, len, i, body),
            rest,
            names,
            body,
            arr,
            len,
            i,
        ),
    decreases len - i, 1int,
{
    reveal(ipairs_of);
    let s = ipairs_of(r, st, names, arr, len, i, body);
    if i < len {
        if names.len() > 0 {
            reveal(St::push);
            reveal(St::ask);
            let k = KontV::ItemKey(names, arr, len, i, body);
            assert(s.0.konts.drop_last() =~= rest);
            assert forall|now: St, n: ValueV| #[trigger]
                arrives(now, rest, s.0.konts.last(), n) implies item_passes(
                m,
                r,
                now,
                step_of(m, r, now),
                rest,
                names,
                body,
                arr,
                len,
                i,
                n,
            ) by {
                let idle = St { ctrl: None, konts: rest, ..now };
                assert(rest.push(k).drop_last() =~= rest);
                reveal(have_in_stat);
                reveal(have_in_loop);
                let x = r.def_of(names[0].span)->0;
                lemma_declared(r, idle, names[0], n, x);
                let st1 = idle.declared(r, names[0], n)->Ok_0;
                lemma_item_passes(m, r, now, idle, st1, rest, names, body, arr, len, i, n);
            }
        } else {
            lemma_item_passes(m, r, before, st, st, rest, names, body, arr, len, i, ValueV::Nil);
        }
    } else {
        reveal(St::run);
    }
}

proof fn lemma_item_passes(
    m: ModuleV,
    r: ResolutionV,
    before: St,
    st: St,
    st1: St,
    rest: Seq<KontV>,
    names: Seq<IdentV>,
    body: BlockV,
    arr: ValueV,
    len: int,
    i: int,
    n: ValueV,
)
    requires
        variables(r, names),
        own_slots(st),
        st.konts == rest,
        0 <= i < len,
        before == (St { ctrl: before.ctrl, konts: before.konts, ..st }),
        names.len() > 0 ==> st.declared(r, names[0], n) == Ok::<St, crate::value::RunErrorV>(st1),
        names.len() == 0 ==> st1 == st,
    ensures
        item_passes(
            m,
            r,
            before,
            item_of(r, st1, names, arr, len, i, body),
            rest,
            names,
            body,
            arr,
            len,
            i,
            n,
        ),
    decreases len - i, 0int,
{
    reveal(item_of);
    let s = item_of(r, st1, names, arr, len, i, body);
    if array_at(st.heap, arr) is Some && i < array_at(st.heap, arr)->0.len() {
        let items = array_at(st.heap, arr)->0;
        let k = KontV::NextItem(names, arr, len, i + 1, body);
        if names.len() > 0 {
            let x = r.def_of(names[0].span)->0;
            lemma_declared(r, st, names[0], n, x);
        }
        assert(array_at(st1.heap, arr) == Some(items)) by {
            assert(st1.heap[arr->Array_0 as int] == st.heap[arr->Array_0 as int]);
        }
        lemma_begins(r, before, st, st1, rest, names, body, k, n, items[i]);
        lemma_leaves(m, r, rest, k);
        assert forall|later: St| #[trigger]
            ends(later, rest, s.0.konts.last(), FlowV::Normal) implies goes_along(
            m,
            r,
            later,
            step_of(m, r, later),
            rest,
            names,
            body,
            arr,
            len,
            i + 1,
        ) by {
            let idle = St { ctrl: None, konts: rest, ..later };
            assert(rest.push(k).drop_last() =~= rest);
            reveal(flow_of);
            lemma_goes_along(m, r, later, idle, rest, names, body, arr, len, i + 1);
        }
    }
}

/// An `ipairs` loop goes along the elements that were there when it began, each once and in
/// their order: in each pass the first variable is the number of the element, counted from one,
/// and the second the element.
pub proof fn law_ipairs_goes_along_elements(
    m: ModuleV,
    r: ResolutionV,
    st: St,
    names: Seq<IdentV>,
    arg: ExprV,
    at: Span,
    body: BlockV,
    span: Span,
)
    requires
        st.ctrl == Some(
            CtrlV::Exec(
                StatV {
                    kind: StatKindV::GenericFor {
                        names,
                        iter: IterExprV::IPairs { arg, span: at },
                        body,
                    },
                    span,
                },
            ),
        ),
        variables(r, names),
    ensures
        ({
            let (s, p) = step_of(m, r, st);
            &&& p is Running
            &&& s == (St { ctrl: Some(CtrlV::Eval(arg)), konts: s.konts, ..st })
            &&& s.konts.len() == st.konts.len() + 1
            &&& s.konts.drop_last() == st.konts
            &&& forall|now: St, v: ValueV| #[trigger]
                arrives(now, st.konts, s.konts.last(), v) ==> (array_at(now.heap, v) matches Some(
                    items,
                ) ==> goes_along(
                    m,
                    r,
                    now,
                    step_of(m, r, now),
                    st.konts,
                    names,
                    body,
                    v,
                    items.len() as int,
                    0,
                ))
        }),
{
    reveal(exec_of);
    reveal(St::push);
    reveal(St::run);
    let s = step_of(m, r, st).0;
    let rest = st.konts;
    let k = KontV::Iter(names, false, body);
    assert(s.konts.drop_last() =~= rest);
    assert forall|now: St, v: ValueV| #[trigger] arrives(now, rest, s.konts.last(), v) implies (
    array_at(now.heap, v) matches Some(items) ==> goes_along(
        m,
        r,
        now,
        step_of(m, r, now),
        rest,
        names,
        body,
        v,
        items.len() as int,
        0,
    )) by {
        if array_at(now.heap, v) is Some {
            let n = array_at(now.heap, v)->0.len() as int;
            let idle = St { ctrl: None, konts: rest, ..now };
            assert(rest.push(k).drop_last() =~= rest);
            reveal(have_in_stat);
            reveal(have_in_loop);
            reveal(iter_of);
            lemma_goes_along(m, r, now, idle, rest, names, body, v, n, 0);
        }
    }
}

// ---- counting loops ------------------------------------------------------------------

/// Whether a counter has not passed the end: upwards unless the step is negative.
pub open spec fn in_range(i: u64, end: u64, step: u64) -> bool {
    let o = order_of(i, end);
    match order_of(step, 0) {
        Some(Order::Greater) | Some(Order::Equal) => o == Some(Order::Less) || o == Some(
            Order::Equal,
        ),
        _ => o == Some(Order::Greater) || o == Some(Order::Equal),
    }
}

/// Whether an expression is about to be evaluated, for something new that waits for it.
pub open spec fn evaluates(st: St, s: Stepped, rest: Seq<KontV>, e: ExprV) -> bool {
    &&& s.1 is Running
    &&& s.0 == (St { ctrl: Some(CtrlV::Eval(e)), konts: s.0.konts, ..st })
    &&& s.0.konts.len() == rest.len() + 1
    &&& s.0.konts.drop_last() == rest
}

/// Whether a request is open, for something new that waits for the answer.
pub open spec fn asks(st: St, s: Stepped, rest: Seq<KontV>, q: RequestV) -> bool {
    &&& s.1 is Ask
    &&& s.0 == (St { wait: Some(q), ctrl: None, konts: s.0.konts, ..st })
    &&& s.0.konts.len() == rest.len() + 1
    &&& s.0.konts.drop_last() == rest
}

/// Whether a counting loop runs, as far as its first `n` passes go: the body begins with the
/// counter in the variable; then the step is added, and the sum is the next counter; past the
/// end, the loop ends.
pub open spec fn counts(
    m: ModuleV,
    r: ResolutionV,
    st: St,
    s: Stepped,
    rest: Seq<KontV>,
    var: IdentV,
    body: BlockV,
    i: u64,
    end: u64,
    step: u64,
    n: nat,
) -> bool
    decreases n,
{
    if n == 0 {
        true
    } else if in_range(i, end, step) {
        &&& pass_begins(
            r,
            st,
            s,
            rest,
            seq![var],
            body,
            ValueV::Number(i),
            ValueV::Nil,
        )
        &&& leaves(m, r, rest, s.0.konts.last())
        &&& forall|later: St| #[trigger]
            ends(later, rest, s.0.konts.last(), FlowV::Normal) ==> {
                let t = step_of(m, r, later);
                &&& asks(later, t, rest, RequestV::Arith(BinOp::Add, i, step))
                &&& forall|now: St, x: u64| #[trigger]
                    arrives(now, rest, t.0.konts.last(), ValueV::Number(x)) ==> counts(
                        m,
                        r,
                        now,
                        step_of(m, r, now),
                        rest,
                        var,
                        body,
                        x,
                        end,
                        step,
                        (n - 1) as nat,
                    )
            }
    } else {
        over(st, s, rest, FlowV::Normal)
    }
}

proof fn lemma_counts(
    m: ModuleV,
    r: ResolutionV,
    before: St,
    st: St,
    rest: Seq<KontV>,
    var: IdentV,
    body: BlockV,
    i: u64,
    end: u64,
    step: u64,
    n: nat,
)
    requires
        r.def_of(var.span) is Some,
        own_slots(st),
        st.konts == rest,
        before == (St { ctrl: before.ctrl, konts: before.konts, ..st }),
    ensures
        counts(
            m,
            r,
            before,
            for_of(r, st, var, i, end, step, body),
            rest,
            var,
            body,
            i,
            end,
            step,
            n,
        ),
    decreases n,
{
    if n > 0 {
        reveal(for_of);
        let s = for_of(r, st, var, i, end, step, body);
        if in_range(i, end, step) {
            let names = seq![var];
            let k = KontV::ForBody(var, i, end, step, body);
            let x = r.def_of(var.span)->0;
            let v = ValueV::Number(i);
            lemma_declared(r, st, names[0], v, x);
            let st1 = st.declared(r, names[0], v)->Ok_0;
            lemma_begins(r, before, st, st1, rest, names, body, k, v, ValueV::Nil);
            assert(item_body_of(r, st1, names, ValueV::Nil, body, k) == s) by {
                reveal(item_body_of);
            }
            lemma_leaves(m, r, rest, k);
            assert forall|later: St| #[trigger]
                ends(later, rest, s.0.konts.last(), FlowV::Normal) implies {
                let t = step_of(m, r, later);
                &&& asks(later, t, rest, RequestV::Arith(BinOp::Add, i, step))
                &&& forall|now: St, x: u64| #[trigger]
                    arrives(now, rest, t.0.konts.last(), ValueV::Number(x)) ==> counts(
                        m,
                        r,
                        now,
                        step_of(m, r, now),
                        rest,
                        var,
                        body,
                        x,
                        end,
                        step,
                        (n - 1) as nat,
                    )
            } by {
                let t = step_of(m, r, later);
                let k1 = KontV::ForNext(var, end, step, body);
                assert(rest.push(k).drop_last() =~= rest);
                reveal(flow_of);
                reveal(St::push);
                reveal(St::ask);
                assert(t.0.konts.drop_last() =~= rest);
                assert forall|now: St, x: u64| #[trigger]
                    arrives(now, rest, t.0.konts.last(), ValueV::Number(x)) implies counts(
                    m,
                    r,
                    now,
                    step_of(m, r, now),
                    rest,
                    var,
                    body,
                    x,
                    end,
                    step,
                    (n - 1) as nat,
                ) by {
                    let idle = St { ctrl: None, konts: rest, ..now };
                    assert(rest.push(k1).drop_last() =~= rest);
                    reveal(have_in_stat);
                    reveal(have_in_loop);
                    lemma_counts(m, r, now, idle, rest, var, body, x, end, step, (n - 1) as nat);
                }
            }
        } else {
            reveal(St::run);
        }
    }
}

/// A counting loop evaluates its start, its end and its step, in this order, and then counts
/// from the start by the step, by one where there is none.
pub proof fn law_counting_loop_counts(
    m: ModuleV,
    r: ResolutionV,
    st: St,
    var: IdentV,
    start: ExprV,
    end: ExprV,
    step: Option<ExprV>,
    body: BlockV,
    span: Span,
    n: nat,
)
    requires
        st.ctrl == Some(
            CtrlV::Exec(
                StatV { kind: StatKindV::NumericFor { var, start, end, step, body }, span },
            ),
        ),
        r.def_of(var.span) is Some,
    ensures
        ({
            let rest = st.konts;
            let s = step_of(m, r, st);
            &&& evaluates(st, s, rest, start)
            &&& forall|s1: St, a: u64| #[trigger]
                arrives(s1, rest, s.0.konts.last(), ValueV::Number(a)) ==> {
                    let t1 = step_of(m, r, s1);
                    &&& evaluates(s1, t1, rest, end)
                    &&& forall|s2: St, b: u64| #[trigger]
                        arrives(s2, rest, t1.0.konts.last(), ValueV::Number(b)) ==> {
                            let t2 = step_of(m, r, s2);
                            match step {
                                None => counts(m, r, s2, t2, rest, var, body, a, b, ONE, n),
                                Some(e) => evaluates(s2, t2, rest, e) && forall|
                                    s3: St,
                                    c: u64,
                                | #[trigger]
                                    arrives(s3, rest, t2.0.konts.last(), ValueV::Number(c))
                                        ==> counts(
                                        m,
                                        r,
                                        s3,
                                        step_of(m, r, s3),
                                        rest,
                                        var,
                                        body,
                                        a,
                                        b,
                                        c,
                                        n,
                                    ),
                            }
                        }
                }
        }),
{
    let rest = st.konts;
    let s = step_of(m, r, st);
    assert(evaluates(st, s, rest, start)) by {
        reveal(exec_of);
        reveal(St::push);
        reveal(St::run);
        assert(s.0.konts.drop_last() =~= rest);
    }
    let k1 = KontV::ForStart(var, end, step, body);
    assert(s.0.konts.last() == k1) by {
        reveal(exec_of);
        reveal(St::push);
        reveal(St::run);
    }
    assert(rest.push(k1).drop_last() =~= rest);
    assert forall|s1: St, a: u64| #[trigger]
        arrives(s1, rest, s.0.konts.last(), ValueV::Number(a)) implies {
        let t1 = step_of(m, r, s1);
        &&& evaluates(s1, t1, rest, end)
        &&& forall|s2: St, b: u64| #[trigger]
            arrives(s2, rest, t1.0.konts.last(), ValueV::Number(b)) ==> {
                let t2 = step_of(m, r, s2);
                match step {
                    None => counts(m, r, s2, t2, rest, var, body, a, b, ONE, n),
                    Some(e) => evaluates(s2, t2, rest, e) && forall|s3: St, c: u64| #[trigger]
                        arrives(s3, rest, t2.0.konts.last(), ValueV::Number(c)) ==> counts(
                            m,
                            r,
                            s3,
                            step_of(m, r, s3),
                            rest,
                            var,
                            body,
                            a,
                            b,
                            c,
                            n,
                        ),
                }
            }
    } by {
        let t1 = step_of(m, r, s1);
        let k2 = KontV::ForEnd(var, a, step, body);
        assert(evaluates(s1, t1, rest, end) && t1.0.konts.last() == k2) by {
            reveal(have_in_stat);
            reveal(have_in_loop);
            reveal(St::push);
            reveal(St::run);
            assert(t1.0.konts.drop_last() =~= rest);
        }
        assert(rest.push(k2).drop_last() =~= rest);
        assert forall|s2: St, b: u64| #[trigger]
            arrives(s2, rest, t1.0.konts.last(), ValueV::Number(b)) implies {
            let t2 = step_of(m, r, s2);
            match step {
                None => counts(m, r, s2, t2, rest, var, body, a, b, ONE, n),
                Some(e) => evaluates(s2, t2, rest, e) && forall|s3: St, c: u64| #[trigger]
                    arrives(s3, rest, t2.0.konts.last(), ValueV::Number(c)) ==> counts(
                        m,
                        r,
                        s3,
                        step_of(m, r, s3),
                        rest,
                        var,
                        body,
                        a,
                        b,
                        c,
                        n,
                    ),
            }
        } by {
            let t2 = step_of(m, r, s2);
            let idle = St { ctrl: None, konts: rest, ..s2 };
            reveal(have_in_stat);
            reveal(have_in_loop);
            match step {
                None => {
                    lemma_counts(m, r, s2, idle, rest, var, body, a, b, ONE, n);
                },
                Some(e) => {
                    let k3 = KontV::ForStep(var, a, b, body);
                    assert(evaluates(s2, t2, rest, e) && t2.0.konts.last() == k3) by {
                        reveal(St::push);
                        reveal(St::run);
                        assert(t2.0.konts.drop_last() =~= rest);
                    }
                    assert(rest.push(k3).drop_last() =~= rest);
                    assert forall|s3: St, c: u64| #[trigger]
                        arrives(s3, rest, t2.0.konts.last(), ValueV::Number(c)) implies counts(
                        m,
                        r,
                        s3,
                        step_of(m, r, s3),
                        rest,
                        var,
                        body,
                        a,
                        b,
                        c,
                        n,
                    ) by {
                        let now = St { ctrl: None, konts: rest, ..s3 };
                        lemma_counts(m, r, s3, now, rest, var, body, a, b, c, n);
                    }
                },
            }
        }
    }
}

// ---- conditions ------------------------------------------------------------------------

/// Whether a block begins, and nothing else has changed.
pub open spec fn begins(st: St, s: Stepped, konts: Seq<KontV>, b: BlockV) -> bool {
    s == (St { ctrl: Some(CtrlV::Block(b, 0)), konts, ..st }, ProgressV::Running)
}

/// Whether a value counts as false.
pub open spec fn is_false(v: ValueV) -> bool {
    v == ValueV::Nil || v == ValueV::Bool(false)
}

/// Whether a `while` loop runs, as far as its first `n` passes go: the condition is evaluated;
/// where it is not false, the body runs, and then the loop begins anew.
pub open spec fn repeats(
    m: ModuleV,
    r: ResolutionV,
    st: St,
    s: Stepped,
    rest: Seq<KontV>,
    cond: ExprV,
    body: BlockV,
    n: nat,
) -> bool
    decreases n,
{
    &&& evaluates(st, s, rest, cond)
    &&& n > 0 ==> forall|now: St, v: ValueV| #[trigger]
        arrives(now, rest, s.0.konts.last(), v) ==> {
            let t = step_of(m, r, now);
            if is_false(v) {
                over(now, t, rest, FlowV::Normal)
            } else {
                &&& begins(now, t, t.0.konts, body)
                &&& t.0.konts.len() == rest.len() + 1
                &&& t.0.konts.drop_last() == rest
                &&& leaves(m, r, rest, t.0.konts.last())
                &&& forall|later: St| #[trigger]
                    ends(later, rest, t.0.konts.last(), FlowV::Normal) ==> repeats(
                        m,
                        r,
                        later,
                        step_of(m, r, later),
                        rest,
                        cond,
                        body,
                        (n - 1) as nat,
                    )
            }
        }
}

proof fn lemma_repeats(
    m: ModuleV,
    r: ResolutionV,
    before: St,
    st: St,
    rest: Seq<KontV>,
    cond: ExprV,
    body: BlockV,
    n: nat,
)
    requires
        st.konts == rest,
        before == (St { ctrl: before.ctrl, konts: before.konts, ..st }),
    ensures
        repeats(
            m,
            r,
            before,
            st.eval(cond, KontV::WhileCond(cond, body)),
            rest,
            cond,
            body,
            n,
        ),
    decreases n,
{
    reveal(St::push);
    reveal(St::run);
    let k = KontV::WhileCond(cond, body);
    let s = st.eval(cond, k);
    assert(s.0.konts.drop_last() =~= rest);
    assert(rest.push(k).drop_last() =~= rest);
    if n > 0 {
        assert forall|now: St, v: ValueV| #[trigger] arrives(now, rest, s.0.konts.last(), v) implies {
            let t = step_of(m, r, now);
            if is_false(v) {
                over(now, t, rest, FlowV::Normal)
            } else {
                &&& begins(now, t, t.0.konts, body)
                &&& t.0.konts.len() == rest.len() + 1
                &&& t.0.konts.drop_last() == rest
                &&& leaves(m, r, rest, t.0.konts.last())
                &&& forall|later: St| #[trigger]
                    ends(later, rest, t.0.konts.last(), FlowV::Normal) ==> repeats(
                        m,
                        r,
                        later,
                        step_of(m, r, later),
                        rest,
                        cond,
                        body,
                        (n - 1) as nat,
                    )
            }
        } by {
            let t = step_of(m, r, now);
            reveal(have_in_stat);
            if !is_false(v) {
                let k1 = KontV::WhileBody(cond, body);
                assert(t.0.konts.drop_last() =~= rest);
                assert(rest.push(k1).drop_last() =~= rest);
                lemma_leaves(m, r, rest, k1);
                assert forall|later: St| #[trigger]
                    ends(later, rest, t.0.konts.last(), FlowV::Normal) implies repeats(
                    m,
                    r,
                    later,
                    step_of(m, r, later),
                    rest,
                    cond,
                    body,
                    (n - 1) as nat,
                ) by {
                    let idle = St { ctrl: None, konts: rest, ..later };
                    reveal(flow_of);
                    lemma_repeats(m, r, later, idle, rest, cond, body, (n - 1) as nat);
                }
            }
        }
    }
}

/// A `while` loop runs its body as often as its condition, evaluated before each pass, is not
/// false.
pub proof fn law_while_repeats(
    m: ModuleV,
    r: ResolutionV,
    st: St,
    cond: ExprV,
    body: BlockV,
    span: Span,
    n: nat,
)
    requires
        st.ctrl == Some(CtrlV::Exec(StatV { kind: StatKindV::While { cond, body }, span })),
    ensures
        repeats(m, r, st, step_of(m, r, st), st.konts, cond, body, n),
{
    reveal(exec_of);
    lemma_repeats(m, r, st, St { ctrl: None, ..st }, st.konts, cond, body, n);
}

/// Whether a conditional chooses among its arms from the `i`-th on: the block of the first one
/// whose condition is not false runs, and no condition after it is evaluated; if there is none,
/// the `else` block runs.
pub open spec fn chooses(
    m: ModuleV,
    r: ResolutionV,
    st: St,
    s: Stepped,
    rest: Seq<KontV>,
    arms: Seq<(ExprV, BlockV)>,
    i: int,
    or: Option<BlockV>,
) -> bool
    decreases arms.len() - i,
{
    if 0 <= i < arms.len() {
        &&& evaluates(st, s, rest, arms[i].0)
        &&& forall|now: St, v: ValueV| #[trigger]
            arrives(now, rest, s.0.konts.last(), v) ==> if is_false(v) {
                chooses(m, r, now, step_of(m, r, now), rest, arms, i + 1, or)
            } else {
                begins(now, step_of(m, r, now), rest, arms[i].1)
            }
    } else {
        match or {
            Some(b) => begins(st, s, rest, b),
            None => over(st, s, rest, FlowV::Normal),
        }
    }
}

proof fn lemma_chooses(
    m: ModuleV,
    r: ResolutionV,
    before: St,
    st: St,
    rest: Seq<KontV>,
    arms: Seq<(ExprV, BlockV)>,
    i: int,
    or: Option<BlockV>,
)
    requires
        st.konts == rest,
        0 <= i <= arms.len(),
        before == (St { ctrl: before.ctrl, konts: before.konts, ..st }),
    ensures
        chooses(m, r, before, if_of(st, arms, i, or), rest, arms, i, or),
    decreases arms.len() - i,
{
    reveal(if_of);
    reveal(St::push);
    reveal(St::run);
    let s = if_of(st, arms, i, or);
    if i < arms.len() {
        let k = KontV::If(arms, i, or);
        assert(s.0.konts.drop_last() =~= rest);
        assert(rest.push(k).drop_last() =~= rest);
        assert forall|now: St, v: ValueV| #[trigger] arrives(now, rest, s.0.konts.last(), v) implies if is_false(
            v,
        ) {
            chooses(m, r, now, step_of(m, r, now), rest, arms, i + 1, or)
        } else {
            begins(now, step_of(m, r, now), rest, arms[i].1)
        } by {
            let idle = St { ctrl: None, konts: rest, ..now };
            reveal(have_in_stat);
            lemma_chooses(m, r, now, idle, rest, arms, i + 1, or);
        }
    }
}

/// A conditional runs the block of the first arm whose condition is not false, or its `else`
/// block.
pub proof fn law_if_chooses(
    m: ModuleV,
    r: ResolutionV,
    st: St,
    arms: Seq<(ExprV, BlockV)>,
    or: Option<BlockV>,
    span: Span,
)
    requires
        st.ctrl == Some(
            CtrlV::Exec(StatV { kind: StatKindV::If { arms, else_block: or }, span }),
        ),
    ensures
        chooses(m, r, st, step_of(m, r, st), st.konts, arms, 0, or),
{
    reveal(exec_of);
    lemma_chooses(m, r, st, St { ctrl: None, ..st }, st.konts, arms, 0, or);
}

} // verus!
