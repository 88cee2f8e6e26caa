//! Both machines agree on modules of functions of scalars: the module is lowered, the
//! interpreter loads it, and every call comes to the same.

use vstd::prelude::*;

use super::branches::{calls_march, comes_back, entered_call, hosted, marchable};
use super::calls::{finished, rest_of};
use super::control::{call_start, callable, called, calls_walk, landed, roomy};
use super::counting::counting;
use super::functions::{
    law_scalar_calls_agree, lemma_call_march, lemma_call_walk, lemma_function_lowered, outcome,
    scalar_function,
};
use super::{is_scalar, lemma_walk, lemma_walk_one, march, walk, Answers};
use crate::ast::{ExprKindV, FieldV, FuncBodyV, ModuleV};
use crate::check::TypeInfoV;
use crate::interp;
use crate::interp::{initial, param_ids_of, put_all, top_functions, CtrlV, KontV, St, Stepped};
use crate::ir::lower::{
    l_decls, l_exports, l_function, l_open_exports, lower_of, unfold_l_decls, unfold_l_exports,
    unfold_l_open_exports, unfold_l_queue, Lowered, Tables,
};
use crate::ir::vm;
use crate::ir::vm::{ProgressV, VmV};
use crate::ir::{ExportTargetV, FunctionV, ProgramV};
use crate::names::{ascending, get_of, keys_of, law_key_order, law_put_get, lemma_pos, pos_of};
use crate::resolve::{BindingV, ResolutionV};
use crate::types::TypeConfigV;
use crate::value::{HeapV, ValueV};

verus! {

/// The name of the `i`-th declared function.
pub open spec fn name_at(m: ModuleV, i: int) -> Seq<char> {
    m.decls[i]->Function_0.name.node
}

/// The body of the `i`-th declared function.
pub open spec fn body_at(m: ModuleV, i: int) -> FuncBodyV {
    m.decls[i]->Function_0.body
}

/// The position of the function of that name among the first `n` declarations.
pub open spec fn position_of(m: ModuleV, name: Seq<char>, n: int) -> Option<int>
    decreases n,
{
    if n <= 0 {
        None
    } else if name_at(m, n - 1) == name {
        Some(n - 1)
    } else {
        position_of(m, name, n - 1)
    }
}

/// The position of the function that a field of an export table refers to.
pub open spec fn refers_to(m: ModuleV, r: ResolutionV, f: FieldV) -> Option<int> {
    match f {
        FieldV::Named { name, value } => match (value.kind, r.binding_of(value.span)) {
            (ExprKindV::Name(_), Some(BindingV::TopFunction(n))) => position_of(
                m,
                n,
                m.decls.len() as int,
            ),
            _ => None,
        },
        _ => None,
    }
}

/// The position of the function that the first `n` fields of an export table export under a
/// name: the last field of that name counts.
pub open spec fn listed(
    m: ModuleV,
    r: ResolutionV,
    fs: Seq<FieldV>,
    name: Seq<char>,
    n: int,
) -> Option<int>
    decreases n,
{
    if n <= 0 {
        None
    } else if fs[n - 1]->Named_name.node == name {
        refers_to(m, r, fs[n - 1])
    } else {
        listed(m, r, fs, name, n - 1)
    }
}

/// Whether a module exports its `i`-th function under a name.
pub open spec fn exports_as(m: ModuleV, r: ResolutionV, name: Seq<char>, i: int) -> bool {
    match m.export {
        Some(e) => listed(m, r, e.node, name, e.node.len() as int) == Some(i),
        None => name_at(m, i) == name,
    }
}

/// Whether a module declares nothing but functions of scalars, under names of their own, and
/// exports them all or those that its export table lists.
pub open spec fn scalar_module(m: ModuleV, r: ResolutionV) -> bool {
    &&& m.export matches Some(e) ==> forall|k: int|
        0 <= k < e.node.len() ==> refers_to(m, r, #[trigger] e.node[k]) is Some
    &&& m.decls.len() < usize::MAX
    &&& forall|i: int| #![trigger m.decls[i]]
        0 <= i < m.decls.len() ==> m.decls[i] is Function && scalar_function(r, body_at(m, i))
    &&& forall|i: int, j: int|
        0 <= i < j < m.decls.len() ==> #[trigger] name_at(m, i) != #[trigger] name_at(m, j)
}

// ---- the interpreter ----------------------------------------------------------

/// The functions of the first `n` declarations.
proof fn lemma_top(m: ModuleV, r: ResolutionV, n: nat)
    requires
        scalar_module(m, r),
        n <= m.decls.len(),
    ensures
        ({
            let (fs, top) = top_functions(r, m.decls, n);
            &&& fs.len() == n
            &&& forall|j: int| #![trigger fs[j]]
                0 <= j < n ==> fs[j].body == body_at(m, j) && fs[j].params == param_ids_of(
                    r,
                    body_at(m, j).params,
                    body_at(m, j).params.len(),
                )
            &&& ascending(keys_of(top))
            &&& forall|j: int|
                0 <= j < n ==> get_of(top, #[trigger] name_at(m, j)) == Some(
                    ValueV::Function(j as usize),
                )
        }),
    decreases n,
{
    if n > 0 {
        lemma_top(m, r, (n - 1) as nat);
        let (fs, top) = top_functions(r, m.decls, (n - 1) as nat);
        assert(m.decls[n - 1] is Function);
        let v = ValueV::Function(fs.len() as usize);
        let (fs1, top1) = top_functions(r, m.decls, n);
        law_put_get(top, name_at(m, n - 1), v, name_at(m, n - 1));
        assert forall|j: int| 0 <= j < n implies get_of(top1, #[trigger] name_at(m, j)) == Some(
            ValueV::Function(j as usize),
        ) by {
            if j < n - 1 {
                law_put_get(top, name_at(m, n - 1), v, name_at(m, j));
            }
        }
    }
}

/// Entries that are put one after another are there.
proof fn lemma_put_all(more: Seq<(Seq<char>, ValueV)>, n: nat)
    requires
        ascending(keys_of(more)),
        n <= more.len(),
    ensures
        ascending(keys_of(put_all(Seq::empty(), more, n))),
        forall|j: int| #![trigger more[j]]
            0 <= j < n ==> get_of(put_all(Seq::empty(), more, n), more[j].0) == Some(more[j].1),
    decreases n,
{
    if n > 0 {
        lemma_put_all(more, (n - 1) as nat);
        let prev = put_all(Seq::empty(), more, (n - 1) as nat);
        let (k, v) = more[n - 1];
        law_put_get(prev, k, v, k);
        let ks = keys_of(more);
        assert forall|j: int| #![trigger more[j]] 0 <= j < n implies get_of(
            put_all(Seq::empty(), more, n),
            more[j].0,
        ) == Some(more[j].1) by {
            if j < n - 1 {
                assert(crate::names::key_lt(ks[j], ks[n - 1]));
                law_key_order(ks[j], ks[n - 1], ks[j]);
                law_put_get(prev, k, v, more[j].0);
            }
        }
    }
}

proof fn lemma_position(m: ModuleV, name: Seq<char>, n: int)
    requires
        n <= m.decls.len(),
    ensures
        position_of(m, name, n) matches Some(j) ==> 0 <= j < n && name_at(m, j) == name,
    decreases n,
{
    if n > 0 {
        lemma_position(m, name, n - 1);
    }
}

/// The interpreter goes through the export table.
proof fn lemma_exports_walk(
    m: ModuleV,
    r: ResolutionV,
    o: Answers,
    st: St,
    i: int,
    x: Seq<char>,
) -> (k: nat)
    requires
        scalar_module(m, r),
        m.export is Some,
        0 <= i <= m.export->0.node.len(),
        st.ctrl == Some(CtrlV::Export(i)),
        st.wait is None,
        ascending(keys_of(st.exports)),
        forall|j: int|
            0 <= j < m.decls.len() ==> get_of(st.top, #[trigger] name_at(m, j)) == Some(
                ValueV::Function(j as usize),
            ),
        listed(m, r, m.export->0.node, x, i) matches Some(j) ==> get_of(st.exports, x) == Some(
            ValueV::Function(j as usize),
        ),
    ensures
        ({
            let s = walk(m, r, o, (st, ProgressV::Running), k);
            let fs = m.export->0.node;
            &&& s.1 == ProgressV::Done(Ok(ValueV::Nil))
            &&& s.0.funcs == st.funcs
            &&& s.0.top == st.top
            &&& s.0.heap == st.heap
            &&& listed(m, r, fs, x, fs.len() as int) matches Some(j) ==> get_of(s.0.exports, x)
                == Some(ValueV::Function(j as usize))
        }),
    decreases m.export->0.node.len() - i,
{
    reveal(interp::export_of);
    reveal(St::run);
    reveal(St::push);
    lemma_walk_one(m, r, o, st);
    let fs = m.export->0.node;
    let run = (st, ProgressV::Running);
    if i < fs.len() {
        assert(refers_to(m, r, fs[i]) is Some);
        match fs[i] {
            FieldV::Named { name, value } => {
                let n = r.binding_of(value.span)->0->TopFunction_0;
                lemma_position(m, n, m.decls.len() as int);
                let j = refers_to(m, r, fs[i])->0;
                let v = ValueV::Function(j as usize);
                assert(get_of(st.top, name_at(m, j)) == Some(v));
                let base = St { ctrl: None, ..st };
                let st0 = St { konts: st.konts.push(KontV::Export(i)), ..base };
                let st1 = St { ctrl: Some(CtrlV::Eval(value)), ..st0 };
                assert(interp::step_of(m, r, st) == (st1, ProgressV::Running));
                reveal(interp::eval_of);
                reveal(interp::named);
                lemma_walk_one(m, r, o, st1);
                let st2 = St { ctrl: Some(CtrlV::Have(v)), ..st0 };
                assert(interp::step_of(m, r, st1) == (st2, ProgressV::Running));
                reveal(interp::have_in_expr);
                reveal(interp::exported_of);
                lemma_walk_one(m, r, o, st2);
                let st3 = St {
                    exports: crate::names::put_of(st.exports, name.node, v),
                    ctrl: Some(CtrlV::Export(i + 1)),
                    ..st
                };
                assert(st2.konts.drop_last() =~= st.konts);
                assert(St { konts: st2.konts.drop_last(), ..St { ctrl: None, ..st2 } } == base);
                assert(interp::step_of(m, r, st2) == (st3, ProgressV::Running));
                law_put_get(st.exports, name.node, v, x);
                let k = lemma_exports_walk(m, r, o, st3, i + 1, x);
                lemma_walk(m, r, o, run, 1, 1);
                lemma_walk(m, r, o, run, 2, 1);
                lemma_walk(m, r, o, run, 3, k);
                3 + k
            },
            _ => 0,
        }
    } else {
        reveal(St::done);
        1
    }
}

/// The interpreter passes over the declarations of functions, and exports them.
proof fn lemma_decls_walk(
    m: ModuleV,
    r: ResolutionV,
    o: Answers,
    st: St,
    i: int,
    x: Seq<char>,
) -> (k: nat)
    requires
        scalar_module(m, r),
        0 <= i <= m.decls.len(),
        st.ctrl == Some(CtrlV::Decl(i)),
        st.consts.len() == 0,
        st.exports.len() == 0,
        st.wait is None,
        forall|j: int|
            0 <= j < m.decls.len() ==> get_of(st.top, #[trigger] name_at(m, j)) == Some(
                ValueV::Function(j as usize),
            ),
    ensures
        ({
            let s = walk(m, r, o, (st, ProgressV::Running), k);
            &&& s.1 == ProgressV::Done(Ok(ValueV::Nil))
            &&& s.0.funcs == st.funcs
            &&& s.0.top == st.top
            &&& s.0.heap == st.heap
            &&& m.export is None ==> s.0.exports == put_all(st.exports, st.top, st.top.len())
            &&& m.export matches Some(e) ==> (listed(m, r, e.node, x, e.node.len() as int) matches Some(
                j,
            ) ==> get_of(s.0.exports, x) == Some(ValueV::Function(j as usize)))
        }),
    decreases m.decls.len() - i,
{
    reveal(interp::decl_of);
    lemma_walk_one(m, r, o, st);
    if i < m.decls.len() {
        assert(m.decls[i] is Function);
        reveal(St::run);
        let next = St { ctrl: Some(CtrlV::Decl(i + 1)), ..st };
        let k = lemma_decls_walk(m, r, o, next, i + 1, x);
        lemma_walk(m, r, o, (st, ProgressV::Running), 1, k);
        1 + k
    } else if m.export is Some {
        reveal(St::run);
        let next = St { ctrl: Some(CtrlV::Export(0)), ..st };
        assert(keys_of(st.exports).len() == 0);
        let k = lemma_exports_walk(m, r, o, next, 0, x);
        lemma_walk(m, r, o, (st, ProgressV::Running), 1, k);
        1 + k
    } else {
        reveal(St::done);
        1
    }
}

/// The interpreter loads a module.
proof fn lemma_loads(m: ModuleV, r: ResolutionV, o: Answers, x: Seq<char>, i: int) -> (k: nat)
    requires
        scalar_module(m, r),
        0 <= i < m.decls.len(),
        exports_as(m, r, x, i),
    ensures
        ({
            let s = walk(m, r, o, (initial(m, r), ProgressV::Running), k);
            &&& s.1 == ProgressV::Done(Ok(ValueV::Nil))
            &&& s.0.funcs == top_functions(r, m.decls, m.decls.len()).0
            &&& s.0.top == top_functions(r, m.decls, m.decls.len()).1
            &&& s.0.heap.len() == 0
            &&& get_of(s.0.exports, x) == Some(ValueV::Function(i as usize))
        }),
{
    lemma_top(m, r, m.decls.len());
    let k = lemma_decls_walk(m, r, o, initial(m, r), 0, x);
    let top = top_functions(r, m.decls, m.decls.len()).1;
    lemma_put_all(top, top.len());
    if m.export is None {
        assert(get_of(top, name_at(m, i)) == Some(ValueV::Function(i as usize)));
        let p = pos_of(keys_of(top), x, 0);
        lemma_pos(keys_of(top), x, 0);
        assert(top[p].0 == x);
    }
    k
}

// ---- lowering ------------------------------------------------------------------

/// What the `i`-th function is lowered to.
pub open spec fn code_at(t: Tables, m: ModuleV, i: int) -> FunctionV {
    (l_function(t, name_at(m, i), body_at(m, i))->Ok_0).0
}

proof fn lemma_decls_lowered(t: Tables, m: ModuleV, i: int, acc: Lowered)
    requires
        scalar_module(m, t.res),
        0 <= i <= m.decls.len(),
        acc.found.len() == 0,
        ascending(keys_of(acc.functions)),
        forall|j: int|
            0 <= j < i ==> get_of(acc.functions, #[trigger] name_at(m, j)) == Some(
                code_at(t, m, j),
            ),
    ensures
        l_decls(t, m.decls, i, acc) is Ok,
        (l_decls(t, m.decls, i, acc)->Ok_0).found.len() == 0,
        forall|j: int|
            0 <= j < m.decls.len() ==> get_of(
                (l_decls(t, m.decls, i, acc)->Ok_0).functions,
                #[trigger] name_at(m, j),
            ) == Some(code_at(t, m, j)),
    decreases m.decls.len() - i,
{
    unfold_l_decls(t, m.decls, i, acc);
    if i < m.decls.len() {
        assert(m.decls[i] is Function);
        let x = name_at(m, i);
        let low = lemma_function_lowered(t, x, body_at(m, i));
        let (code, found) = l_function(t, x, body_at(m, i))->Ok_0;
        let next = Lowered {
            functions: crate::names::put_of(acc.functions, x, code),
            found: acc.found + found,
            ..acc
        };
        law_put_get(acc.functions, x, code, x);
        assert forall|j: int| 0 <= j < i + 1 implies get_of(
            next.functions,
            #[trigger] name_at(m, j),
        ) == Some(code_at(t, m, j)) by {
            if j < i {
                law_put_get(acc.functions, x, code, name_at(m, j));
            }
        }
        lemma_decls_lowered(t, m, i + 1, next);
    }
}

proof fn lemma_all_exported(
    m: ModuleV,
    r: ResolutionV,
    i: int,
    acc: Seq<(Seq<char>, ExportTargetV)>,
)
    requires
        scalar_module(m, r),
        0 <= i <= m.decls.len(),
        ascending(keys_of(acc)),
        forall|j: int|
            0 <= j < i ==> get_of(acc, #[trigger] name_at(m, j)) == Some(
                ExportTargetV::Function(name_at(m, j)),
            ),
    ensures
        forall|j: int|
            0 <= j < m.decls.len() ==> get_of(
                l_open_exports(m.decls, i, acc),
                #[trigger] name_at(m, j),
            ) == Some(ExportTargetV::Function(name_at(m, j))),
    decreases m.decls.len() - i,
{
    unfold_l_open_exports(m.decls, i, acc);
    if i < m.decls.len() {
        assert(m.decls[i] is Function);
        let x = name_at(m, i);
        let v = ExportTargetV::Function(x);
        let next = crate::names::put_of(acc, x, v);
        law_put_get(acc, x, v, x);
        assert forall|j: int| 0 <= j < i + 1 implies get_of(next, #[trigger] name_at(m, j)) == Some(
            ExportTargetV::Function(name_at(m, j)),
        ) by {
            if j < i {
                law_put_get(acc, x, v, name_at(m, j));
            }
        }
        lemma_all_exported(m, r, i + 1, next);
    }
}

proof fn lemma_listed(
    m: ModuleV,
    r: ResolutionV,
    i: int,
    acc: Seq<(Seq<char>, ExportTargetV)>,
    x: Seq<char>,
)
    requires
        scalar_module(m, r),
        m.export is Some,
        0 <= i <= m.export->0.node.len(),
        ascending(keys_of(acc)),
        listed(m, r, m.export->0.node, x, i) matches Some(j) ==> get_of(acc, x) == Some(
            ExportTargetV::Function(name_at(m, j)),
        ),
    ensures
        l_exports(r, m.export->0.node, i, acc) is Ok,
        ({
            let fs = m.export->0.node;
            listed(m, r, fs, x, fs.len() as int) matches Some(j) ==> get_of(
                l_exports(r, fs, i, acc)->Ok_0,
                x,
            ) == Some(ExportTargetV::Function(name_at(m, j)))
        }),
    decreases m.export->0.node.len() - i,
{
    let fs = m.export->0.node;
    unfold_l_exports(r, fs, i, acc);
    if i < fs.len() {
        assert(refers_to(m, r, fs[i]) is Some);
        match fs[i] {
            FieldV::Named { name, value } => {
                let n = r.binding_of(value.span)->0->TopFunction_0;
                lemma_position(m, n, m.decls.len() as int);
                let v = ExportTargetV::Function(n);
                law_put_get(acc, name.node, v, x);
                lemma_listed(m, r, i + 1, crate::names::put_of(acc, name.node, v), x);
            },
            _ => {},
        }
    }
}

// ---- calls of one another ---------------------------------------------------------

/// What a call of a function of the module comes to where it runs within `n` statements, and so
/// does every call that it makes, no more than `d` deep.
pub open spec fn call_within(
    m: ModuleV,
    r: ResolutionV,
    o: Answers,
    n: nat,
    d: nat,
    name: Seq<char>,
    args: Seq<ValueV>,
) -> Option<Option<ValueV>>
    decreases d, 0int,
{
    if d == 0 {
        None
    } else {
        match position_of(m, name, m.decls.len() as int) {
            Some(i) => if args.len() == body_at(m, i).params.len() {
                outcome(r, within(m, r, o, n, (d - 1) as nat), body_at(m, i), args, n)
            } else {
                None
            },
            None => None,
        }
    }
}

/// The answers, with what is known of calls no more than `d` deep.
pub open spec fn within(m: ModuleV, r: ResolutionV, o: Answers, n: nat, d: nat) -> Answers
    decreases d, 1int,
{
    Answers {
        reply: o.reply,
        hosts: o.hosts,
        calls: |name: Seq<char>, args: Seq<ValueV>| call_within(m, r, o, n, d, name, args),
    }
}

/// A walk depends on the replies alone.
proof fn lemma_same_walk(m: ModuleV, r: ResolutionV, a: Answers, b: Answers, s: Stepped, n: nat)
    requires
        a.reply == b.reply,
    ensures
        walk(m, r, a, s, n) == walk(m, r, b, s, n),
    decreases n,
{
    if n > 0 {
        match s.1 {
            ProgressV::Done(_) => {},
            ProgressV::Ask => lemma_same_walk(
                m,
                r,
                a,
                b,
                interp::resume_of(s.0, (a.reply)(s.0.wait->0)),
                (n - 1) as nat,
            ),
            ProgressV::Running => lemma_same_walk(
                m,
                r,
                a,
                b,
                interp::step_of(m, r, s.0),
                (n - 1) as nat,
            ),
        }
    }
}

proof fn lemma_same_room(m: ModuleV, r: ResolutionV, a: Answers, b: Answers, s: Stepped)
    requires
        a.reply == b.reply,
        roomy(m, r, a, s),
    ensures
        roomy(m, r, b, s),
{
    assert forall|k: nat| (#[trigger] walk(m, r, b, s, k)).0.heap.len() < usize::MAX by {
        lemma_same_walk(m, r, a, b, s, k);
        assert(walk(m, r, a, s, k).0.heap.len() < usize::MAX);
    }
}

/// So does a march.
proof fn lemma_same_march(p: ProgramV, a: Answers, b: Answers, s: (VmV, ProgressV), n: nat)
    requires
        a.reply == b.reply,
    ensures
        march(p, a, s, n) == march(p, b, s, n),
    decreases n,
{
    if n > 0 {
        match s.1 {
            ProgressV::Done(_) => {},
            ProgressV::Ask => lemma_same_march(
                p,
                a,
                b,
                vm::resume_of(p, s.0, (a.reply)(s.0.wait->0)),
                (n - 1) as nat,
            ),
            ProgressV::Running => lemma_same_march(p, a, b, vm::step_of(p, s.0), (n - 1) as nat),
        }
    }
}

/// The module is lowered, function by function.
proof fn lemma_program(m: ModuleV, r: ResolutionV, types: TypeInfoV, cfg: TypeConfigV)
    requires
        scalar_module(m, r),
    ensures
        lower_of(m, r, types, cfg) is Ok,
        ({
            let p = lower_of(m, r, types, cfg)->Ok_0;
            let t = Tables { res: r, types, cfg };
            forall|j: int|
                0 <= j < m.decls.len() ==> get_of(p.functions, #[trigger] name_at(m, j)) == Some(
                    code_at(t, m, j),
                )
        }),
{
    let t = Tables { res: r, types, cfg };
    let first = Lowered {
        functions: Seq::empty(),
        constants: Seq::empty(),
        found: Seq::empty(),
    };
    lemma_decls_lowered(t, m, 0, first);
    let d = l_decls(t, m.decls, 0, first)->Ok_0;
    unfold_l_queue(t, d.found, d.found.len() as int, d.functions);
    if m.export is Some {
        lemma_listed(m, r, 0, Seq::empty(), Seq::empty());
    }
}

/// In both machines, calls come to what is known of them.
proof fn lemma_calls(
    m: ModuleV,
    r: ResolutionV,
    types: TypeInfoV,
    cfg: TypeConfigV,
    o: Answers,
    n: nat,
    d: nat,
)
    requires
        scalar_module(m, r),
        counting(o),
    ensures
        calls_walk(m, r, within(m, r, o, n, d)),
        calls_march(lower_of(m, r, types, cfg)->Ok_0, within(m, r, o, n, d)),
    decreases d,
{
    let p = lower_of(m, r, types, cfg)->Ok_0;
    let t = Tables { res: r, types, cfg };
    let w = within(m, r, o, n, d);
    lemma_program(m, r, types, cfg);
    lemma_top(m, r, m.decls.len());
    let len = m.decls.len() as int;
    if d == 0 {
        assert forall|name: Seq<char>, args: Seq<ValueV>| #[trigger] called(
            w,
            name,
            args,
        ) is None by {
            assert((w.calls)(name, args) == call_within(m, r, o, n, d, name, args));
        }
    } else {
        let q = within(m, r, o, n, (d - 1) as nat);
        lemma_calls(m, r, types, cfg, o, n, (d - 1) as nat);
        assert forall|name: Seq<char>, args: Seq<ValueV>| #[trigger] called(
            w,
            name,
            args,
        ) is Some implies position_of(m, name, len) is Some by {
            assert((w.calls)(name, args) == call_within(m, r, o, n, d, name, args));
        }
        assert forall|name: Seq<char>, args: Seq<ValueV>| #[trigger] called(
            w,
            name,
            args,
        ) is Some implies get_of(top_functions(r, m.decls, m.decls.len()).1, name) is Some
            && get_of(p.functions, name) is Some by {
            lemma_position(m, name, len);
            let i = position_of(m, name, len)->0;
            assert(get_of(p.functions, name_at(m, i)) is Some);
        }
        assert forall|st: St, name: Seq<char>, args: Seq<ValueV>| #[trigger]
            callable(m, r, w, st, name, args) implies exists|k: nat, h: HeapV| #[trigger]
            landed(m, r, w, st, name, args, k, h) by {
            assert((w.calls)(name, args) == call_within(m, r, o, n, d, name, args));
            lemma_position(m, name, len);
            let i = position_of(m, name, len)->0;
            assert(m.decls[i] is Function);
            assert(get_of(st.top, name_at(m, i)) == Some(ValueV::Function(i as usize)));
            let s = call_start(st, name, args);
            lemma_same_room(m, r, w, q, s);
            assert(st.funcs[i].body == body_at(m, i));
            let (k, h) = lemma_call_walk(m, r, q, st, i as usize, body_at(m, i), args, n);
            lemma_same_walk(m, r, w, q, s, k);
            assert(landed(m, r, w, st, name, args, k, h));
        }
        assert forall|st: VmV, name: Seq<char>, args: Seq<ValueV>| #[trigger]
            marchable(p, w, st, name, args) implies exists|k: nat| #[trigger]
            comes_back(p, w, st, name, args, k) by {
            assert((w.calls)(name, args) == call_within(m, r, o, n, d, name, args));
            lemma_position(m, name, len);
            let i = position_of(m, name, len)->0;
            assert(m.decls[i] is Function);
            assert(get_of(p.functions, name_at(m, i)) == Some(code_at(t, m, i)));
            let s = entered_call(p, st, name, args);
            let mark = st.heap.len() as usize;
            let k = lemma_call_march(p, q, t, name, body_at(m, i), s, mark, args, n);
            lemma_same_march(p, w, q, (s, ProgressV::Running), k);
            assert(rest_of(s).frames =~= st.frames);
            assert(comes_back(p, w, st, name, args, k));
        }
    }
}

/// The interpreter with host functions.
pub open spec fn with_hosts(st: St, hosts: Seq<(Seq<char>, bool)>) -> St {
    St { hosts, ..st }
}

/// Both machines agree on a module of functions of scalars: it is lowered, the interpreter
/// loads it, and with the same host functions a call of any function that it exports that ends,
/// each call within any number of statements and none deeper than any number, returns the same
/// value in both, or fails in both.
pub proof fn law_scalar_modules_agree(
    m: ModuleV,
    r: ResolutionV,
    types: TypeInfoV,
    cfg: TypeConfigV,
    o: Answers,
    hosts: Seq<(Seq<char>, bool)>,
    machine: VmV,
    name: Seq<char>,
    i: int,
    args: Seq<ValueV>,
    n: nat,
    d: nat,
)
    requires
        scalar_module(m, r),
        0 <= i < m.decls.len(),
        exports_as(m, r, name, i),
        args.len() == body_at(m, i).params.len(),
        forall|k: int| 0 <= k < args.len() ==> is_scalar(#[trigger] args[k]),
        counting(o),
        outcome(r, within(m, r, o, n, d), body_at(m, i), args, n) is Some,
        forall|k: nat|
            (#[trigger] walk(m, r, o, (initial(m, r), ProgressV::Running), k)).1 is Done ==> roomy(
                m,
                r,
                o,
                interp::started_of(
                    m,
                    with_hosts(walk(m, r, o, (initial(m, r), ProgressV::Running), k).0, hosts),
                    name,
                    args,
                ),
            ),
        forall|f: Seq<char>| #[trigger] get_of(hosts, f) is Some <==> (o.hosts)(f),
        hosted(o, machine),
    ensures
        lower_of(m, r, types, cfg) is Ok,
        ({
            let p = lower_of(m, r, types, cfg)->Ok_0;
            let start = (initial(m, r), ProgressV::Running);
            let x = outcome(r, within(m, r, o, n, d), body_at(m, i), args, n)->0;
            &&& get_of(p.exports, name) == Some(ExportTargetV::Function(name_at(m, i)))
            &&& exists|k: nat, j: nat, l: nat| #![trigger
                walk(m, r, o, interp::started_of(m, with_hosts(walk(m, r, o, start, k).0, hosts), name, args), j),
                march(p, o, vm::call_of(p, machine, name, args), l)
            ] {
                let loaded = walk(m, r, o, start, k);
                &&& loaded.1 == ProgressV::Done(Ok(ValueV::Nil))
                &&& finished(
                    x,
                    walk(m, r, o, interp::started_of(m, with_hosts(loaded.0, hosts), name, args), j).1,
                )
                &&& finished(x, march(p, o, vm::call_of(p, machine, name, args), l).1)
            }
        }),
{
    let t = Tables { res: r, types, cfg };
    let start = (initial(m, r), ProgressV::Running);
    let w = within(m, r, o, n, d);
    let x = outcome(r, w, body_at(m, i), args, n)->0;
    assert(m.decls[i] is Function);
    lemma_program(m, r, types, cfg);
    lemma_calls(m, r, types, cfg, o, n, d);
    lemma_all_exported(m, r, 0, Seq::empty());
    if m.export is Some {
        lemma_listed(m, r, 0, Seq::empty(), name);
    }
    let p = lower_of(m, r, types, cfg)->Ok_0;
    let k = lemma_loads(m, r, o, name, i);
    let st = with_hosts(walk(m, r, o, start, k).0, hosts);
    lemma_top(m, r, m.decls.len());
    let x0 = name_at(m, i);
    assert(st.funcs[i].body == body_at(m, i));
    assert(get_of(p.functions, x0) == Some(code_at(t, m, i)));
    let s = interp::started_of(m, st, name, args);
    lemma_same_room(m, r, o, w, s);
    law_scalar_calls_agree(m, w, t, st, p, machine, name, x0, i as usize, body_at(m, i), args, n);
    let (j, l) = choose|j: nat, l: nat| #![trigger
        walk(m, r, w, interp::started_of(m, st, name, args), j),
        march(p, w, vm::call_of(p, machine, name, args), l)
    ]
        finished(x, walk(m, r, w, interp::started_of(m, st, name, args), j).1) && finished(
            x,
            march(p, w, vm::call_of(p, machine, name, args), l).1,
        );
    lemma_same_walk(m, r, o, w, s, j);
    lemma_same_march(p, o, w, vm::call_of(p, machine, name, args), l);
    assert(finished(
        x,
        walk(m, r, o, interp::started_of(m, with_hosts(walk(m, r, o, start, k).0, hosts), name, args), j).1,
    ));
}

} // verus!
