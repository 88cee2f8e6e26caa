//! What holds of unification as a whole: variables never come to contain themselves, so
//! that following their bindings always ends, and types that unify become equal.

use vstd::prelude::*;

use crate::names::keys_of;
use crate::types::{
    assignable_n, bind_of, deep, deep_fields, deep_n, deep_types, is_bound, occurs_fields, occurs_n,
    occurs_types, shallow, shallow_n, unfold_assignable_n, unfold_deep_fields, unfold_deep_n,
    unfold_deep_types, unfold_occurs_fields, unfold_occurs_n, unfold_occurs_types, unfold_shallow_n,
    unfold_unify_fields, unfold_unify_n, unfold_unify_types, unify, unify_fields, unify_n,
    unify_types, FnTypeV, Subst, TypeV,
};

verus! {

/// Whether the variable `v` is written in `t`.
pub open spec fn mentions(t: TypeV, v: u32) -> bool
    decreases t,
{
    match t {
        TypeV::Var(id) => id == v,
        TypeV::Optional(i) => mentions(*i, v),
        TypeV::Array(i) => mentions(*i, v),
        TypeV::MapOf(i) => mentions(*i, v),
        TypeV::Record(fs) => exists|k: int|
            #![trigger fs[k]]
            0 <= k < fs.len() && mentions(fs[k].1, v),
        TypeV::Function(ft) => mentions(*ft.ret, v) || exists|k: int|
            0 <= k < ft.params.len() && mentions(#[trigger] ft.params[k], v),
        _ => false,
    }
}

/// Whether the poison type is written in `t`.
pub open spec fn poisoned(t: TypeV) -> bool
    decreases t,
{
    match t {
        TypeV::Error => true,
        TypeV::Optional(i) => poisoned(*i),
        TypeV::Array(i) => poisoned(*i),
        TypeV::MapOf(i) => poisoned(*i),
        TypeV::Record(fs) => exists|k: int|
            #![trigger fs[k]]
            0 <= k < fs.len() && poisoned(fs[k].1),
        TypeV::Function(ft) => poisoned(*ft.ret) || exists|k: int|
            0 <= k < ft.params.len() && poisoned(#[trigger] ft.params[k]),
        _ => false,
    }
}

/// Whether all variables of `t` are among the first `n`.
pub open spec fn within(t: TypeV, n: nat) -> bool {
    forall|v: u32| mentions(t, v) ==> v < n
}

/// Whether `r` ranks each bound variable above the variables that its binding mentions.
pub open spec fn ranked(s: Subst, r: spec_fn(u32) -> nat) -> bool {
    &&& forall|i: u32| i < s.len() ==> #[trigger] r(i) < s.len()
    &&& forall|i: u32|
        #![trigger s[i as int]]
        i < s.len() && s[i as int] is Some ==> within(s[i as int]->0, s.len())
    &&& forall|i: u32, v: u32|
        #![trigger mentions(s[i as int]->0, v)]
        i < s.len() && s[i as int] is Some && mentions(s[i as int]->0, v) ==> r(v) < r(i)
}

/// Whether no variable contains itself, however many bindings are followed.
pub open spec fn acyclic(s: Subst) -> bool {
    exists|r: spec_fn(u32) -> nat| ranked(s, r)
}

/// Whether `later` has the variables of `s`, each bound one as it was.
pub open spec fn extends(later: Subst, s: Subst) -> bool {
    &&& later.len() == s.len()
    &&& forall|i: int|
        #![trigger s[i]]
        0 <= i < s.len() && s[i] is Some ==> later[i] == s[i]
}

/// Whether `later` has the variables of `s`, each bound one as it was, and maybe more.
pub open spec fn grows(later: Subst, s: Subst) -> bool {
    &&& later.len() >= s.len()
    &&& forall|i: int|
        #![trigger s[i]]
        0 <= i < s.len() && s[i] is Some ==> later[i] == s[i]
}

/// Whether the poison type is written in no binding.
pub open spec fn clean(s: Subst) -> bool {
    forall|i: int| #![trigger s[i]] 0 <= i < s.len() && s[i] is Some ==> !poisoned(s[i]->0)
}

/// Whether `n` links are enough to get to the end of any variable of `t`.
spec fn fits(r: spec_fn(u32) -> nat, t: TypeV, n: nat) -> bool {
    forall|v: u32| #![trigger mentions(t, v)] mentions(t, v) ==> r(v) < n
}

proof fn lemma_fits_field(
    r: spec_fn(u32) -> nat,
    fs: Seq<(Seq<char>, TypeV)>,
    n: nat,
    k: int,
)
    requires
        fits(r, TypeV::Record(fs), n),
        0 <= k < fs.len(),
    ensures
        fits(r, fs[k].1, n),
{
    let t = TypeV::Record(fs);
    assert forall|v: u32| mentions(fs[k].1, v) implies r(v) < n by {
        assert(mentions(t->Record_0[k].1, v));
        assert(mentions(t, v));
    }
}

proof fn lemma_fits_function(r: spec_fn(u32) -> nat, ft: FnTypeV, n: nat)
    requires
        fits(r, TypeV::Function(ft), n),
    ensures
        fits(r, *ft.ret, n),
        forall|k: int| 0 <= k < ft.params.len() ==> fits(r, #[trigger] ft.params[k], n),
{
    assert forall|v: u32| mentions(*ft.ret, v) implies r(v) < n by {
        assert(mentions(TypeV::Function(ft), v));
    }
    assert forall|k: int| 0 <= k < ft.params.len() implies fits(
        r,
        #[trigger] ft.params[k],
        n,
    ) by {
        assert forall|v: u32| mentions(ft.params[k], v) implies r(v) < n by {
            assert(mentions(TypeV::Function(ft), v));
        }
    }
}

proof fn lemma_fits_inner(r: spec_fn(u32) -> nat, t: TypeV, n: nat)
    requires
        fits(r, t, n),
    ensures
        t matches TypeV::Optional(i) ==> fits(r, *i, n),
        t matches TypeV::Array(i) ==> fits(r, *i, n),
        t matches TypeV::MapOf(i) ==> fits(r, *i, n),
{
    match t {
        TypeV::Optional(i) => {
            assert forall|v: u32| mentions(*i, v) implies r(v) < n by {
                assert(mentions(t, v));
            }
        },
        TypeV::Array(i) => {
            assert forall|v: u32| mentions(*i, v) implies r(v) < n by {
                assert(mentions(t, v));
            }
        },
        TypeV::MapOf(i) => {
            assert forall|v: u32| mentions(*i, v) implies r(v) < n by {
                assert(mentions(t, v));
            }
        },
        _ => {},
    }
}

/// The binding of a variable is easier to follow than the variable.
proof fn lemma_fits_binding(s: Subst, r: spec_fn(u32) -> nat, t: TypeV, n: nat)
    requires
        ranked(s, r),
        fits(r, t, n),
        is_bound(s, t),
    ensures
        n > 0,
        fits(r, s[t->Var_0 as int]->0, (n - 1) as nat),
        fits(r, s[t->Var_0 as int]->0, r(t->Var_0)),
{
    let i = t->Var_0;
    assert(mentions(t, i));
    let u = s[i as int]->0;
    assert forall|v: u32| mentions(u, v) implies r(v) < n - 1 && r(v) < r(i) by {
        assert(mentions(s[i as int]->0, v));
    }
}

// ---- following bindings -------------------------------------------------------

proof fn lemma_deep_budget(s: Subst, r: spec_fn(u32) -> nat, t: TypeV, n: nat, m: nat)
    requires
        ranked(s, r),
        fits(r, t, n),
        fits(r, t, m),
    ensures
        deep_n(s, t, n) == deep_n(s, t, m),
    decreases n, t, 0int,
{
    unfold_deep_n(s, t, n);
    unfold_deep_n(s, t, m);
    match t {
        TypeV::Var(id) => {
            if is_bound(s, t) {
                lemma_fits_binding(s, r, t, n);
                lemma_fits_binding(s, r, t, m);
                lemma_deep_budget(s, r, s[id as int]->0, (n - 1) as nat, (m - 1) as nat);
            }
        },
        TypeV::Optional(i) => {
            lemma_fits_inner(r, t, n);
            lemma_fits_inner(r, t, m);
            lemma_deep_budget(s, r, *i, n, m);
        },
        TypeV::Array(i) => {
            lemma_fits_inner(r, t, n);
            lemma_fits_inner(r, t, m);
            lemma_deep_budget(s, r, *i, n, m);
        },
        TypeV::MapOf(i) => {
            lemma_fits_inner(r, t, n);
            lemma_fits_inner(r, t, m);
            lemma_deep_budget(s, r, *i, n, m);
        },
        TypeV::Record(fs) => {
            lemma_deep_budget_fields(s, r, fs, n, m, fs.len() as int);
        },
        TypeV::Function(ft) => {
            lemma_fits_function(r, ft, n);
            lemma_fits_function(r, ft, m);
            lemma_deep_budget_types(s, r, ft.params, n, m, ft.params.len() as int);
            lemma_deep_budget(s, r, *ft.ret, n, m);
        },
        _ => {},
    }
}

proof fn lemma_deep_budget_fields(
    s: Subst,
    r: spec_fn(u32) -> nat,
    fs: Seq<(Seq<char>, TypeV)>,
    n: nat,
    m: nat,
    k: int,
)
    requires
        ranked(s, r),
        fits(r, TypeV::Record(fs), n),
        fits(r, TypeV::Record(fs), m),
        0 <= k <= fs.len(),
    ensures
        deep_fields(s, fs, n, k) == deep_fields(s, fs, m, k),
    decreases n, fs, k,
{
    unfold_deep_fields(s, fs, n, k);
    unfold_deep_fields(s, fs, m, k);
    if k > 0 {
        lemma_deep_budget_fields(s, r, fs, n, m, k - 1);
        lemma_fits_field(r, fs, n, k - 1);
        lemma_fits_field(r, fs, m, k - 1);
        lemma_deep_budget(s, r, fs[k - 1].1, n, m);
    }
}

proof fn lemma_deep_budget_types(
    s: Subst,
    r: spec_fn(u32) -> nat,
    ts: Seq<TypeV>,
    n: nat,
    m: nat,
    k: int,
)
    requires
        ranked(s, r),
        forall|j: int| 0 <= j < ts.len() ==> fits(r, #[trigger] ts[j], n) && fits(r, ts[j], m),
        0 <= k <= ts.len(),
    ensures
        deep_types(s, ts, n, k) == deep_types(s, ts, m, k),
    decreases n, ts, k,
{
    unfold_deep_types(s, ts, n, k);
    unfold_deep_types(s, ts, m, k);
    if k > 0 {
        lemma_deep_budget_types(s, r, ts, n, m, k - 1);
        lemma_deep_budget(s, r, ts[k - 1], n, m);
    }
}

proof fn lemma_occurs_budget(s: Subst, r: spec_fn(u32) -> nat, var: u32, t: TypeV, n: nat, m: nat)
    requires
        ranked(s, r),
        fits(r, t, n),
        fits(r, t, m),
    ensures
        occurs_n(s, var, t, n) == occurs_n(s, var, t, m),
    decreases n, t, 0int,
{
    unfold_occurs_n(s, var, t, n);
    unfold_occurs_n(s, var, t, m);
    match t {
        TypeV::Var(id) => {
            if is_bound(s, t) {
                lemma_fits_binding(s, r, t, n);
                lemma_fits_binding(s, r, t, m);
                lemma_occurs_budget(s, r, var, s[id as int]->0, (n - 1) as nat, (m - 1) as nat);
            }
        },
        TypeV::Optional(i) => {
            lemma_fits_inner(r, t, n);
            lemma_fits_inner(r, t, m);
            lemma_occurs_budget(s, r, var, *i, n, m);
        },
        TypeV::Array(i) => {
            lemma_fits_inner(r, t, n);
            lemma_fits_inner(r, t, m);
            lemma_occurs_budget(s, r, var, *i, n, m);
        },
        TypeV::MapOf(i) => {
            lemma_fits_inner(r, t, n);
            lemma_fits_inner(r, t, m);
            lemma_occurs_budget(s, r, var, *i, n, m);
        },
        TypeV::Record(fs) => {
            lemma_occurs_budget_fields(s, r, var, fs, n, m, 0);
        },
        TypeV::Function(ft) => {
            lemma_fits_function(r, ft, n);
            lemma_fits_function(r, ft, m);
            lemma_occurs_budget_types(s, r, var, ft.params, n, m, 0);
            lemma_occurs_budget(s, r, var, *ft.ret, n, m);
        },
        _ => {},
    }
}

proof fn lemma_occurs_budget_fields(
    s: Subst,
    r: spec_fn(u32) -> nat,
    var: u32,
    fs: Seq<(Seq<char>, TypeV)>,
    n: nat,
    m: nat,
    k: int,
)
    requires
        ranked(s, r),
        fits(r, TypeV::Record(fs), n),
        fits(r, TypeV::Record(fs), m),
        0 <= k <= fs.len(),
    ensures
        occurs_fields(s, var, fs, n, k) == occurs_fields(s, var, fs, m, k),
    decreases n, fs, fs.len() - k,
{
    unfold_occurs_fields(s, var, fs, n, k);
    unfold_occurs_fields(s, var, fs, m, k);
    if k < fs.len() {
        lemma_occurs_budget_fields(s, r, var, fs, n, m, k + 1);
        lemma_fits_field(r, fs, n, k);
        lemma_fits_field(r, fs, m, k);
        lemma_occurs_budget(s, r, var, fs[k].1, n, m);
    }
}

proof fn lemma_occurs_budget_types(
    s: Subst,
    r: spec_fn(u32) -> nat,
    var: u32,
    ts: Seq<TypeV>,
    n: nat,
    m: nat,
    k: int,
)
    requires
        ranked(s, r),
        forall|j: int| 0 <= j < ts.len() ==> fits(r, #[trigger] ts[j], n) && fits(r, ts[j], m),
        0 <= k <= ts.len(),
    ensures
        occurs_types(s, var, ts, n, k) == occurs_types(s, var, ts, m, k),
    decreases n, ts, ts.len() - k,
{
    unfold_occurs_types(s, var, ts, n, k);
    unfold_occurs_types(s, var, ts, m, k);
    if k < ts.len() {
        lemma_occurs_budget_types(s, r, var, ts, n, m, k + 1);
        lemma_occurs_budget(s, r, var, ts[k], n, m);
    }
}

/// Following the links of `t` ends, at a type that stands for the same as `t` and whose
/// variables rank below it.
proof fn lemma_shallow(s: Subst, r: spec_fn(u32) -> nat, t: TypeV, n: nat)
    requires
        ranked(s, r),
        fits(r, t, n),
    ensures
        ({
            let u = shallow_n(s, t, n);
            &&& !is_bound(s, u)
            &&& !is_bound(s, t) ==> u == t
            &&& is_bound(s, t) ==> fits(r, u, r(t->Var_0))
            &&& deep_n(s, u, n) == deep_n(s, t, n)
            &&& within(t, s.len()) ==> within(u, s.len())
            &&& clean(s) && !poisoned(t) ==> !poisoned(u)
        }),
    decreases n,
{
    unfold_shallow_n(s, t, n);
    if is_bound(s, t) {
        lemma_fits_binding(s, r, t, n);
        let i = t->Var_0;
        let u = s[i as int]->0;
        let m = (n - 1) as nat;
        lemma_shallow(s, r, u, m);
        let w = shallow_n(s, u, m);
        unfold_deep_n(s, t, n);
        assert(mentions(t, i));
        assert(fits(r, w, r(i))) by {
            if is_bound(s, u) {
                assert(mentions(u, u->Var_0));
                assert(r(u->Var_0) < r(i));
            }
        }
        assert(fits(r, w, m)) by {
            assert(r(i) < n);
        }
        assert(fits(r, w, n));
        lemma_deep_budget(s, r, w, n, m);
    }
}

// ---- bindings stay acyclic ----------------------------------------------------

/// The ranks below that of `v`, counted among the first `n` variables.
spec fn below(r: spec_fn(u32) -> nat, n: nat, v: u32) -> Set<int> {
    Set::new(|j: int| 0 <= j < n && j <= u32::MAX && r(j as u32) < r(v))
}

proof fn lemma_below(r: spec_fn(u32) -> nat, n: nat, v: u32)
    ensures
        below(r, n, v).finite(),
        below(r, n, v).len() <= n,
        v < n ==> below(r, n, v).len() < n,
{
    let all = vstd::set_lib::set_int_range(0, n as int);
    vstd::set_lib::lemma_int_range(0, n as int);
    let b = below(r, n, v);
    assert(b.subset_of(all));
    vstd::set_lib::lemma_len_subset(b, all);
    if v < n {
        assert(!b.contains(v as int));
        assert(b.subset_of(all.remove(v as int)));
        vstd::set_lib::lemma_len_subset(b, all.remove(v as int));
    }
}

/// Any ranking can be brought below the number of variables.
proof fn lemma_compress(s: Subst, r: spec_fn(u32) -> nat)
    requires
        forall|i: u32|
            #![trigger s[i as int]]
            i < s.len() && s[i as int] is Some ==> within(s[i as int]->0, s.len()),
        forall|i: u32, v: u32|
            #![trigger mentions(s[i as int]->0, v)]
            i < s.len() && s[i as int] is Some && mentions(s[i as int]->0, v) ==> r(v) < r(i),
    ensures
        acyclic(s),
{
    let n = s.len();
    let q = |v: u32| below(r, n, v).len();
    assert forall|i: u32| i < s.len() implies #[trigger] q(i) < s.len() by {
        lemma_below(r, n, i);
    }
    assert forall|i: u32, v: u32|
        #![trigger mentions(s[i as int]->0, v)]
        i < s.len() && s[i as int] is Some && mentions(s[i as int]->0, v) implies q(v) < q(i) by {
        assert(v < n);
        lemma_below(r, n, v);
        lemma_below(r, n, i);
        let a = below(r, n, v);
        let b = below(r, n, i);
        assert(b.contains(v as int));
        assert(!a.contains(v as int));
        assert(a.subset_of(b.remove(v as int)));
        vstd::set_lib::lemma_len_subset(a, b.remove(v as int));
    }
    assert(ranked(s, q));
}

/// What a type mentions reaches no further than the type does.
proof fn lemma_occurs_mention(s: Subst, var: u32, t: TypeV, n: nat, v: u32)
    requires
        mentions(t, v),
        occurs_n(s, var, TypeV::Var(v), n),
    ensures
        occurs_n(s, var, t, n),
    decreases t,
{
    unfold_occurs_n(s, var, t, n);
    match t {
        TypeV::Optional(i) => lemma_occurs_mention(s, var, *i, n, v),
        TypeV::Array(i) => lemma_occurs_mention(s, var, *i, n, v),
        TypeV::MapOf(i) => lemma_occurs_mention(s, var, *i, n, v),
        TypeV::Record(fs) => {
            let k = choose|k: int|
                #![trigger fs[k]]
                0 <= k < fs.len() && mentions(fs[k].1, v);
            lemma_occurs_mention(s, var, fs[k].1, n, v);
            lemma_occurs_field(s, var, fs, n, 0, k);
        },
        TypeV::Function(ft) => {
            if mentions(*ft.ret, v) {
                lemma_occurs_mention(s, var, *ft.ret, n, v);
            } else {
                let k = choose|k: int|
                    0 <= k < ft.params.len() && mentions(#[trigger] ft.params[k], v);
                lemma_occurs_mention(s, var, ft.params[k], n, v);
                lemma_occurs_type(s, var, ft.params, n, 0, k);
            }
        },
        _ => {},
    }
}

proof fn lemma_occurs_field(s: Subst, var: u32, fs: Seq<(Seq<char>, TypeV)>, n: nat, k: int, j: int)
    requires
        0 <= k <= j < fs.len(),
        occurs_n(s, var, fs[j].1, n),
    ensures
        occurs_fields(s, var, fs, n, k),
    decreases j - k,
{
    unfold_occurs_fields(s, var, fs, n, k);
    if k < j {
        lemma_occurs_field(s, var, fs, n, k + 1, j);
    }
}

proof fn lemma_occurs_type(s: Subst, var: u32, ts: Seq<TypeV>, n: nat, k: int, j: int)
    requires
        0 <= k <= j < ts.len(),
        occurs_n(s, var, ts[j], n),
    ensures
        occurs_types(s, var, ts, n, k),
    decreases j - k,
{
    unfold_occurs_types(s, var, ts, n, k);
    if k < j {
        lemma_occurs_type(s, var, ts, n, k + 1, j);
    }
}

/// Binding a variable to a type that does not contain it keeps the bindings acyclic.
proof fn lemma_bind(s: Subst, var: u32, t: TypeV)
    requires
        acyclic(s),
        within(t, s.len()),
        var < s.len() ==> s[var as int] is None,
    ensures
        acyclic(bind_of(s, var, t).0),
        extends(bind_of(s, var, t).0, s),
{
    let n = s.len();
    if var < n && !occurs_n(s, var, t, n) {
        let r = choose|r: spec_fn(u32) -> nat| ranked(s, r);
        let s1 = s.update(var as int, Some(t));
        let q = |v: u32|
            {
                if occurs_n(s, var, TypeV::Var(v), n) {
                    r(v) + n
                } else {
                    r(v)
                }
            };
        unfold_occurs_n(s, var, TypeV::Var(var), n);
        assert forall|i: u32, v: u32|
            #![trigger mentions(s1[i as int]->0, v)]
            i < s1.len() && s1[i as int] is Some && mentions(s1[i as int]->0, v) implies q(v) < q(
            i,
        ) by {
            if i == var {
                assert(mentions(t, v));
                if occurs_n(s, var, TypeV::Var(v), n) {
                    lemma_occurs_mention(s, var, t, n, v);
                }
                assert(r(v) < n);
            } else {
                assert(s1[i as int] == s[i as int]);
                assert(mentions(s[i as int]->0, v));
                assert(r(v) < r(i));
                if occurs_n(s, var, TypeV::Var(v), n) {
                    let u = s[i as int]->0;
                    lemma_occurs_mention(s, var, u, n, v);
                    assert(within(u, n));
                    assert(r(i) < n);
                    assert(fits(r, u, n));
                    assert(fits(r, u, (n - 1) as nat)) by {
                        assert forall|w: u32| mentions(u, w) implies r(w) < n - 1 by {
                            assert(mentions(s[i as int]->0, w));
                        }
                    }
                    lemma_occurs_budget(s, r, var, u, n, (n - 1) as nat);
                    unfold_occurs_n(s, var, TypeV::Var(i), n);
                }
            }
        }
        assert forall|i: u32|
            #![trigger s1[i as int]]
            i < s1.len() && s1[i as int] is Some implies within(s1[i as int]->0, s1.len()) by {
            if i != var {
                assert(s1[i as int] == s[i as int]);
            }
        }
        lemma_compress(s1, q);
    }
}

pub(crate) proof fn lemma_within(t: TypeV, n: nat)
    requires
        within(t, n),
    ensures
        t matches TypeV::Optional(i) ==> within(*i, n),
        t matches TypeV::Array(i) ==> within(*i, n),
        t matches TypeV::MapOf(i) ==> within(*i, n),
        t matches TypeV::Record(fs) ==> forall|k: int|
            #![trigger fs[k]]
            0 <= k < fs.len() ==> within(fs[k].1, n),
        t matches TypeV::Function(ft) ==> within(*ft.ret, n) && forall|k: int|
            0 <= k < ft.params.len() ==> within(#[trigger] ft.params[k], n),
{
    match t {
        TypeV::Optional(i) => {
            assert forall|v: u32| mentions(*i, v) implies v < n by {
                assert(mentions(t, v));
            }
        },
        TypeV::Array(i) => {
            assert forall|v: u32| mentions(*i, v) implies v < n by {
                assert(mentions(t, v));
            }
        },
        TypeV::MapOf(i) => {
            assert forall|v: u32| mentions(*i, v) implies v < n by {
                assert(mentions(t, v));
            }
        },
        TypeV::Record(fs) => {
            assert forall|k: int| #![trigger fs[k]] 0 <= k < fs.len() implies within(
                fs[k].1,
                n,
            ) by {
                assert forall|v: u32| mentions(fs[k].1, v) implies v < n by {
                    assert(mentions(t, v));
                }
            }
        },
        TypeV::Function(ft) => {
            assert forall|v: u32| mentions(*ft.ret, v) implies v < n by {
                assert(mentions(t, v));
            }
            assert forall|k: int| 0 <= k < ft.params.len() implies within(
                #[trigger] ft.params[k],
                n,
            ) by {
                assert forall|v: u32| mentions(ft.params[k], v) implies v < n by {
                    assert(mentions(t, v));
                }
            }
        },
        _ => {},
    }
}

/// What following the links of `t` gives, without a ranking.
pub(crate) proof fn lemma_followed(s: Subst, t: TypeV)
    requires
        acyclic(s),
        within(t, s.len()),
    ensures
        !is_bound(s, shallow(s, t)),
        within(shallow(s, t), s.len()),
{
    let r = choose|r: spec_fn(u32) -> nat| ranked(s, r);
    assert(fits(r, t, s.len()));
    lemma_shallow(s, r, t, s.len());
}

proof fn lemma_unify_keeps(s: Subst, a: TypeV, b: TypeV, na: nat, nb: nat)
    requires
        acyclic(s),
        within(a, s.len()),
        within(b, s.len()),
    ensures
        acyclic(unify_n(s, a, b, na, nb).0),
        extends(unify_n(s, a, b, na, nb).0, s),
    decreases na + nb, a, 0int,
{
    unfold_unify_n(s, a, b, na, nb);
    lemma_followed(s, a);
    lemma_followed(s, b);
    let a1 = shallow(s, a);
    let b1 = shallow(s, b);
    lemma_within(a1, s.len());
    lemma_within(b1, s.len());
    if !is_bound(s, a) {
        unfold_shallow_n(s, a, s.len());
    }
    let ma = if is_bound(s, a) { na - 1 } else { na as int };
    let mb = if is_bound(s, b) { nb - 1 } else { nb as int };
    match (a1, b1) {
        (TypeV::Var(i), _) => {
            lemma_bind(s, i, b1);
        },
        (_, TypeV::Var(i)) => {
            lemma_bind(s, i, a1);
        },
        _ => {
            if ma < 0 || mb < 0 || (ma == na && mb == nb && a1 != a) {
            } else {
                let ma = ma as nat;
                let mb = mb as nat;
                match (a1, b1) {
                    (TypeV::Optional(x), TypeV::Optional(y)) => {
                        lemma_unify_keeps(s, *x, *y, ma, mb);
                    },
                    (TypeV::Array(x), TypeV::Array(y)) => {
                        lemma_unify_keeps(s, *x, *y, ma, mb);
                    },
                    (TypeV::MapOf(x), TypeV::MapOf(y)) => {
                        lemma_unify_keeps(s, *x, *y, ma, mb);
                    },
                    (TypeV::Record(x), TypeV::Record(y)) => {
                        if keys_of(x) == keys_of(y) {
                            assert(keys_of(x).len() == keys_of(y).len());
                            lemma_unify_keeps_fields(s, x, y, ma, mb, 0);
                        }
                    },
                    (TypeV::Function(f), TypeV::Function(g)) => {
                        if f.params.len() == g.params.len() {
                            lemma_unify_keeps_types(s, f.params, g.params, ma, mb, 0);
                            let s1 = unify_types(s, f.params, g.params, ma, mb, 0).0;
                            lemma_unify_keeps(s1, *f.ret, *g.ret, ma, mb);
                        }
                    },
                    _ => {},
                }
            }
        },
    }
}

proof fn lemma_unify_keeps_types(
    s: Subst,
    x: Seq<TypeV>,
    y: Seq<TypeV>,
    na: nat,
    nb: nat,
    k: int,
)
    requires
        acyclic(s),
        x.len() == y.len(),
        forall|j: int| 0 <= j < x.len() ==> within(#[trigger] x[j], s.len()),
        forall|j: int| 0 <= j < y.len() ==> within(#[trigger] y[j], s.len()),
        0 <= k,
    ensures
        acyclic(unify_types(s, x, y, na, nb, k).0),
        extends(unify_types(s, x, y, na, nb, k).0, s),
    decreases na + nb, x, x.len() - k,
{
    unfold_unify_types(s, x, y, na, nb, k);
    if k < x.len() {
        lemma_unify_keeps(s, x[k], y[k], na, nb);
        let (s1, ok) = unify_n(s, x[k], y[k], na, nb);
        if ok {
            lemma_unify_keeps_types(s1, x, y, na, nb, k + 1);
        }
    }
}

proof fn lemma_unify_keeps_fields(
    s: Subst,
    x: Seq<(Seq<char>, TypeV)>,
    y: Seq<(Seq<char>, TypeV)>,
    na: nat,
    nb: nat,
    k: int,
)
    requires
        acyclic(s),
        x.len() == y.len(),
        forall|j: int| #![trigger x[j]] 0 <= j < x.len() ==> within(x[j].1, s.len()),
        forall|j: int| #![trigger y[j]] 0 <= j < y.len() ==> within(y[j].1, s.len()),
        0 <= k,
    ensures
        acyclic(unify_fields(s, x, y, na, nb, k).0),
        extends(unify_fields(s, x, y, na, nb, k).0, s),
    decreases na + nb, x, x.len() - k,
{
    unfold_unify_fields(s, x, y, na, nb, k);
    if k < x.len() {
        lemma_unify_keeps(s, x[k].1, y[k].1, na, nb);
        let (s1, ok) = unify_n(s, x[k].1, y[k].1, na, nb);
        if ok {
            lemma_unify_keeps_fields(s1, x, y, na, nb, k + 1);
        }
    }
}

// ---- the number of links allowed makes no difference --------------------------

/// A ranking of later bindings ranks the earlier ones.
proof fn lemma_ranked_earlier(f: Subst, s: Subst, r: spec_fn(u32) -> nat)
    requires
        ranked(f, r),
        extends(f, s),
    ensures
        ranked(s, r),
        clean(f) ==> clean(s),
{
    assert forall|i: u32|
        #![trigger s[i as int]]
        i < s.len() && s[i as int] is Some implies within(s[i as int]->0, s.len()) by {
        assert(f[i as int] == s[i as int]);
    }
    assert forall|i: u32, v: u32|
        #![trigger mentions(s[i as int]->0, v)]
        i < s.len() && s[i as int] is Some && mentions(s[i as int]->0, v) implies r(v) < r(i) by {
        assert(f[i as int] == s[i as int]);
        assert(mentions(f[i as int]->0, v));
    }
    if clean(f) {
        assert forall|i: int|
            #![trigger s[i]]
            0 <= i < s.len() && s[i] is Some implies !poisoned(s[i]->0) by {
            assert(f[i] == s[i]);
        }
    }
}

proof fn lemma_extends_trans(f: Subst, t: Subst, s: Subst)
    requires
        extends(f, t),
        extends(t, s),
    ensures
        extends(f, s),
{
    assert forall|i: int| #![trigger s[i]] 0 <= i < s.len() && s[i] is Some implies f[i]
        == s[i] by {
        assert(t[i] == s[i]);
    }
}

proof fn lemma_shallow_budget(s: Subst, r: spec_fn(u32) -> nat, t: TypeV, n: nat, m: nat)
    requires
        ranked(s, r),
        fits(r, t, n),
        fits(r, t, m),
    ensures
        shallow_n(s, t, n) == shallow_n(s, t, m),
    decreases n,
{
    unfold_shallow_n(s, t, n);
    unfold_shallow_n(s, t, m);
    if is_bound(s, t) {
        lemma_fits_binding(s, r, t, n);
        lemma_fits_binding(s, r, t, m);
        lemma_shallow_budget(s, r, s[t->Var_0 as int]->0, (n - 1) as nat, (m - 1) as nat);
    }
}

/// Where the links of `t` end, one link less is enough if there was one.
proof fn lemma_shallow_fits(s: Subst, r: spec_fn(u32) -> nat, t: TypeV, n: nat)
    requires
        ranked(s, r),
        within(t, s.len()),
        fits(r, t, n),
    ensures
        !is_bound(s, t) ==> shallow(s, t) == t,
        is_bound(s, t) ==> n > 0 && fits(r, shallow(s, t), (n - 1) as nat),
{
    assert(fits(r, t, s.len()));
    lemma_shallow(s, r, t, s.len());
    if is_bound(s, t) {
        assert(mentions(t, t->Var_0));
    }
}

/// What the budgets are that are left after `a`, if it is bound.
spec fn left(s: Subst, a: TypeV, n: nat) -> nat {
    if is_bound(s, a) {
        (n - 1) as nat
    } else {
        n
    }
}

proof fn lemma_unify_budget(
    s: Subst,
    a: TypeV,
    b: TypeV,
    na: nat,
    nb: nat,
    ma: nat,
    mb: nat,
    r: spec_fn(u32) -> nat,
    f: Subst,
)
    requires
        acyclic(s),
        within(a, s.len()),
        within(b, s.len()),
        ranked(f, r),
        extends(f, unify_n(s, a, b, na, nb).0),
        fits(r, a, na),
        fits(r, a, ma),
        fits(r, b, nb),
        fits(r, b, mb),
    ensures
        unify_n(s, a, b, na, nb) == unify_n(s, a, b, ma, mb),
    decreases na + nb, a, 0int,
{
    unfold_unify_n(s, a, b, na, nb);
    unfold_unify_n(s, a, b, ma, mb);
    lemma_unify_keeps(s, a, b, na, nb);
    lemma_extends_trans(f, unify_n(s, a, b, na, nb).0, s);
    lemma_ranked_earlier(f, s, r);
    lemma_followed(s, a);
    lemma_followed(s, b);
    lemma_shallow_fits(s, r, a, na);
    lemma_shallow_fits(s, r, a, ma);
    lemma_shallow_fits(s, r, b, nb);
    lemma_shallow_fits(s, r, b, mb);
    let a1 = shallow(s, a);
    let b1 = shallow(s, b);
    lemma_within(a1, s.len());
    lemma_within(b1, s.len());
    let (la, lb) = (left(s, a, na), left(s, b, nb));
    let (ka, kb) = (left(s, a, ma), left(s, b, mb));
    lemma_fits_inner(r, a1, la);
    lemma_fits_inner(r, a1, ka);
    lemma_fits_inner(r, b1, lb);
    lemma_fits_inner(r, b1, kb);
    match (a1, b1) {
        (TypeV::Optional(x), TypeV::Optional(y)) => {
            lemma_unify_budget(s, *x, *y, la, lb, ka, kb, r, f);
        },
        (TypeV::Array(x), TypeV::Array(y)) => {
            lemma_unify_budget(s, *x, *y, la, lb, ka, kb, r, f);
        },
        (TypeV::MapOf(x), TypeV::MapOf(y)) => {
            lemma_unify_budget(s, *x, *y, la, lb, ka, kb, r, f);
        },
        (TypeV::Record(x), TypeV::Record(y)) => {
            if keys_of(x) == keys_of(y) {
                assert(keys_of(x).len() == keys_of(y).len());
                lemma_unify_budget_fields(s, x, y, la, lb, ka, kb, 0, r, f);
            }
        },
        (TypeV::Function(p), TypeV::Function(q)) => {
            if p.params.len() == q.params.len() {
                lemma_fits_function(r, p, la);
                lemma_fits_function(r, p, ka);
                lemma_fits_function(r, q, lb);
                lemma_fits_function(r, q, kb);
                let (s1, ok) = unify_types(s, p.params, q.params, la, lb, 0);
                lemma_unify_keeps_types(s, p.params, q.params, la, lb, 0);
                if ok {
                    lemma_unify_keeps(s1, *p.ret, *q.ret, la, lb);
                    lemma_extends_trans(f, unify_n(s1, *p.ret, *q.ret, la, lb).0, s1);
                }
                lemma_unify_budget_types(s, p.params, q.params, la, lb, ka, kb, 0, r, f);
                if ok {
                    lemma_unify_budget(s1, *p.ret, *q.ret, la, lb, ka, kb, r, f);
                }
            }
        },
        _ => {},
    }
}

proof fn lemma_unify_budget_types(
    s: Subst,
    x: Seq<TypeV>,
    y: Seq<TypeV>,
    na: nat,
    nb: nat,
    ma: nat,
    mb: nat,
    k: int,
    r: spec_fn(u32) -> nat,
    f: Subst,
)
    requires
        acyclic(s),
        x.len() == y.len(),
        forall|j: int| 0 <= j < x.len() ==> within(#[trigger] x[j], s.len()),
        forall|j: int| 0 <= j < y.len() ==> within(#[trigger] y[j], s.len()),
        ranked(f, r),
        extends(f, unify_types(s, x, y, na, nb, k).0),
        forall|j: int| 0 <= j < x.len() ==> fits(r, #[trigger] x[j], na) && fits(r, x[j], ma),
        forall|j: int| 0 <= j < y.len() ==> fits(r, #[trigger] y[j], nb) && fits(r, y[j], mb),
        0 <= k,
    ensures
        unify_types(s, x, y, na, nb, k) == unify_types(s, x, y, ma, mb, k),
    decreases na + nb, x, x.len() - k,
{
    unfold_unify_types(s, x, y, na, nb, k);
    unfold_unify_types(s, x, y, ma, mb, k);
    if k < x.len() {
        let (s1, ok) = unify_n(s, x[k], y[k], na, nb);
        lemma_unify_keeps(s, x[k], y[k], na, nb);
        if ok {
            lemma_unify_keeps_types(s1, x, y, na, nb, k + 1);
            lemma_extends_trans(f, unify_types(s1, x, y, na, nb, k + 1).0, s1);
        }
        lemma_unify_budget(s, x[k], y[k], na, nb, ma, mb, r, f);
        if ok {
            lemma_unify_budget_types(s1, x, y, na, nb, ma, mb, k + 1, r, f);
        }
    }
}

proof fn lemma_unify_budget_fields(
    s: Subst,
    x: Seq<(Seq<char>, TypeV)>,
    y: Seq<(Seq<char>, TypeV)>,
    na: nat,
    nb: nat,
    ma: nat,
    mb: nat,
    k: int,
    r: spec_fn(u32) -> nat,
    f: Subst,
)
    requires
        acyclic(s),
        x.len() == y.len(),
        forall|j: int| #![trigger x[j]] 0 <= j < x.len() ==> within(x[j].1, s.len()),
        forall|j: int| #![trigger y[j]] 0 <= j < y.len() ==> within(y[j].1, s.len()),
        ranked(f, r),
        extends(f, unify_fields(s, x, y, na, nb, k).0),
        fits(r, TypeV::Record(x), na),
        fits(r, TypeV::Record(x), ma),
        fits(r, TypeV::Record(y), nb),
        fits(r, TypeV::Record(y), mb),
        0 <= k,
    ensures
        unify_fields(s, x, y, na, nb, k) == unify_fields(s, x, y, ma, mb, k),
    decreases na + nb, x, x.len() - k,
{
    unfold_unify_fields(s, x, y, na, nb, k);
    unfold_unify_fields(s, x, y, ma, mb, k);
    if k < x.len() {
        let (s1, ok) = unify_n(s, x[k].1, y[k].1, na, nb);
        lemma_unify_keeps(s, x[k].1, y[k].1, na, nb);
        if ok {
            lemma_unify_keeps_fields(s1, x, y, na, nb, k + 1);
            lemma_extends_trans(f, unify_fields(s1, x, y, na, nb, k + 1).0, s1);
        }
        lemma_fits_field(r, x, na, k);
        lemma_fits_field(r, x, ma, k);
        lemma_fits_field(r, y, nb, k);
        lemma_fits_field(r, y, mb, k);
        lemma_unify_budget(s, x[k].1, y[k].1, na, nb, ma, mb, r, f);
        if ok {
            lemma_unify_budget_fields(s1, x, y, na, nb, ma, mb, k + 1, r, f);
        }
    }
}

// ---- unified types are equal --------------------------------------------------

/// Later bindings substitute the same into `t` and into the end of its links.
proof fn lemma_shallow_later(s: Subst, f: Subst, r: spec_fn(u32) -> nat, t: TypeV, n: nat)
    requires
        ranked(f, r),
        grows(f, s),
    ensures
        deep(f, shallow_n(s, t, n)) == deep(f, t),
    decreases n,
{
    unfold_shallow_n(s, t, n);
    if n > 0 && is_bound(s, t) {
        let u = s[t->Var_0 as int]->0;
        assert(f[t->Var_0 as int] == s[t->Var_0 as int]);
        lemma_deep_binding(f, r, t);
        lemma_shallow_later(s, f, r, u, (n - 1) as nat);
    }
}

/// A bound variable stands for its binding.
proof fn lemma_deep_binding(f: Subst, r: spec_fn(u32) -> nat, t: TypeV)
    requires
        ranked(f, r),
        is_bound(f, t),
    ensures
        deep(f, t) == deep(f, f[t->Var_0 as int]->0),
{
    let n = f.len();
    let u = f[t->Var_0 as int]->0;
    assert(fits(r, t, n));
    lemma_fits_binding(f, r, t, n);
    unfold_deep_n(f, t, n);
    assert(fits(r, u, n));
    lemma_deep_budget(f, r, u, n, (n - 1) as nat);
}

proof fn lemma_clean_inner(t: TypeV)
    requires
        !poisoned(t),
    ensures
        t matches TypeV::Record(fs) ==> forall|k: int|
            #![trigger fs[k]]
            0 <= k < fs.len() ==> !poisoned(fs[k].1),
        t matches TypeV::Function(ft) ==> !poisoned(*ft.ret) && forall|k: int|
            0 <= k < ft.params.len() ==> !poisoned(#[trigger] ft.params[k]),
{
}

proof fn lemma_grows_trans(f: Subst, t: Subst, s: Subst)
    requires
        grows(f, t),
        grows(t, s),
    ensures
        grows(f, s),
{
    assert forall|i: int| #![trigger s[i]] 0 <= i < s.len() && s[i] is Some implies f[i]
        == s[i] by {
        assert(t[i] == s[i]);
    }
}

proof fn lemma_unify_equal(
    s: Subst,
    a: TypeV,
    b: TypeV,
    na: nat,
    nb: nat,
    r: spec_fn(u32) -> nat,
    f: Subst,
)
    requires
        acyclic(s),
        within(a, s.len()),
        within(b, s.len()),
        ranked(f, r),
        grows(f, unify_n(s, a, b, na, nb).0),
        unify_n(s, a, b, na, nb).1,
        !poisoned(deep(f, a)),
        !poisoned(deep(f, b)),
    ensures
        deep(f, a) == deep(f, b),
    decreases na + nb, a, 0int,
{
    unfold_unify_n(s, a, b, na, nb);
    lemma_unify_keeps(s, a, b, na, nb);
    let s2 = unify_n(s, a, b, na, nb).0;
    lemma_grows_trans(f, s2, s);
    lemma_followed(s, a);
    lemma_followed(s, b);
    lemma_shallow_later(s, f, r, a, s.len());
    lemma_shallow_later(s, f, r, b, s.len());
    let a1 = shallow(s, a);
    let b1 = shallow(s, b);
    lemma_within(a1, s.len());
    lemma_within(b1, s.len());
    let (la, lb) = (left(s, a, na), left(s, b, nb));
    let n = f.len();
    unfold_deep_n(f, a1, n);
    unfold_deep_n(f, b1, n);
    match (a1, b1) {
        (TypeV::Var(i), _) => {
            if b1 != a1 {
                assert(s2[i as int] == Some(b1));
                assert(f[i as int] == Some(b1));
                lemma_deep_binding(f, r, a1);
            }
        },
        (_, TypeV::Var(i)) => {
            assert(s2[i as int] == Some(a1));
            assert(f[i as int] == Some(a1));
            lemma_deep_binding(f, r, b1);
        },
        (TypeV::Optional(x), TypeV::Optional(y)) => {
            lemma_unify_equal(s, *x, *y, la, lb, r, f);
        },
        (TypeV::Array(x), TypeV::Array(y)) => {
            lemma_unify_equal(s, *x, *y, la, lb, r, f);
        },
        (TypeV::MapOf(x), TypeV::MapOf(y)) => {
            lemma_unify_equal(s, *x, *y, la, lb, r, f);
        },
        (TypeV::Record(x), TypeV::Record(y)) => {
            assert(keys_of(x).len() == keys_of(y).len());
            lemma_deep_field_at(f, x, n, x.len() as int);
            lemma_deep_field_at(f, y, n, y.len() as int);
            let (fx, fy) = (
                deep_fields(f, x, n, x.len() as int),
                deep_fields(f, y, n, y.len() as int),
            );
            assert(deep(f, a) == TypeV::Record(fx) && deep(f, b) == TypeV::Record(fy));
            lemma_clean_inner(TypeV::Record(fx));
            lemma_clean_inner(TypeV::Record(fy));
            assert forall|j: int| #![trigger x[j]] 0 <= j < x.len() implies !poisoned(
                deep(f, x[j].1),
            ) by {
                assert(!poisoned(fx[j].1));
            }
            assert forall|j: int| #![trigger y[j]] 0 <= j < y.len() implies !poisoned(
                deep(f, y[j].1),
            ) by {
                assert(!poisoned(fy[j].1));
            }
            lemma_unify_equal_fields(s, x, y, la, lb, 0, r, f);
            lemma_same_fields(f, x, y, n, x.len() as int);
        },
        (TypeV::Function(p), TypeV::Function(q)) => {
            let s1 = unify_types(s, p.params, q.params, la, lb, 0).0;
            lemma_unify_keeps_types(s, p.params, q.params, la, lb, 0);
            lemma_unify_keeps(s1, *p.ret, *q.ret, la, lb);
            lemma_grows_trans(f, s2, s1);
            lemma_deep_type_at(f, p.params, n, p.params.len() as int);
            lemma_deep_type_at(f, q.params, n, q.params.len() as int);
            let (fp, fq) = (
                deep_types(f, p.params, n, p.params.len() as int),
                deep_types(f, q.params, n, q.params.len() as int),
            );
            assert(deep(f, a) is Function && deep(f, a)->Function_0.params == fp);
            assert(deep(f, b) is Function && deep(f, b)->Function_0.params == fq);
            lemma_clean_inner(deep(f, a));
            lemma_clean_inner(deep(f, b));
            assert forall|j: int| 0 <= j < p.params.len() implies !poisoned(
                deep(f, #[trigger] p.params[j]),
            ) by {
                assert(!poisoned(fp[j]));
            }
            assert forall|j: int| 0 <= j < q.params.len() implies !poisoned(
                deep(f, #[trigger] q.params[j]),
            ) by {
                assert(!poisoned(fq[j]));
            }
            lemma_unify_equal_types(s, p.params, q.params, la, lb, 0, r, f);
            lemma_same_types(f, p.params, q.params, n, p.params.len() as int);
            lemma_unify_equal(s1, *p.ret, *q.ret, la, lb, r, f);
        },
        _ => {},
    }
}

proof fn lemma_unify_equal_types(
    s: Subst,
    x: Seq<TypeV>,
    y: Seq<TypeV>,
    na: nat,
    nb: nat,
    k: int,
    r: spec_fn(u32) -> nat,
    f: Subst,
)
    requires
        acyclic(s),
        x.len() == y.len(),
        forall|j: int| 0 <= j < x.len() ==> within(#[trigger] x[j], s.len()),
        forall|j: int| 0 <= j < y.len() ==> within(#[trigger] y[j], s.len()),
        ranked(f, r),
        grows(f, unify_types(s, x, y, na, nb, k).0),
        unify_types(s, x, y, na, nb, k).1,
        forall|j: int| 0 <= j < x.len() ==> !poisoned(deep(f, #[trigger] x[j])),
        forall|j: int| 0 <= j < y.len() ==> !poisoned(deep(f, #[trigger] y[j])),
        0 <= k,
    ensures
        forall|j: int| k <= j < x.len() ==> deep(f, #[trigger] x[j]) == deep(f, y[j]),
    decreases na + nb, x, x.len() - k,
{
    unfold_unify_types(s, x, y, na, nb, k);
    if k < x.len() {
        let (s1, ok) = unify_n(s, x[k], y[k], na, nb);
        lemma_unify_keeps(s, x[k], y[k], na, nb);
        lemma_unify_keeps_types(s1, x, y, na, nb, k + 1);
        lemma_grows_trans(f, unify_types(s1, x, y, na, nb, k + 1).0, s1);
        lemma_unify_equal(s, x[k], y[k], na, nb, r, f);
        lemma_unify_equal_types(s1, x, y, na, nb, k + 1, r, f);
        assert forall|j: int| k <= j < x.len() implies deep(f, #[trigger] x[j]) == deep(f, y[j]) by {
            if j > k {
                assert(k + 1 <= j);
            }
        }
    }
}

proof fn lemma_unify_equal_fields(
    s: Subst,
    x: Seq<(Seq<char>, TypeV)>,
    y: Seq<(Seq<char>, TypeV)>,
    na: nat,
    nb: nat,
    k: int,
    r: spec_fn(u32) -> nat,
    f: Subst,
)
    requires
        acyclic(s),
        x.len() == y.len(),
        forall|j: int| #![trigger x[j]] 0 <= j < x.len() ==> within(x[j].1, s.len()),
        forall|j: int| #![trigger y[j]] 0 <= j < y.len() ==> within(y[j].1, s.len()),
        ranked(f, r),
        grows(f, unify_fields(s, x, y, na, nb, k).0),
        unify_fields(s, x, y, na, nb, k).1,
        forall|j: int| #![trigger x[j]] 0 <= j < x.len() ==> !poisoned(deep(f, x[j].1)),
        forall|j: int| #![trigger y[j]] 0 <= j < y.len() ==> !poisoned(deep(f, y[j].1)),
        0 <= k,
    ensures
        forall|j: int| #![trigger x[j]] k <= j < x.len() ==> deep(f, x[j].1) == deep(f, y[j].1),
    decreases na + nb, x, x.len() - k,
{
    unfold_unify_fields(s, x, y, na, nb, k);
    if k < x.len() {
        let (s1, ok) = unify_n(s, x[k].1, y[k].1, na, nb);
        lemma_unify_keeps(s, x[k].1, y[k].1, na, nb);
        lemma_unify_keeps_fields(s1, x, y, na, nb, k + 1);
        lemma_grows_trans(f, unify_fields(s1, x, y, na, nb, k + 1).0, s1);
        lemma_unify_equal(s, x[k].1, y[k].1, na, nb, r, f);
        lemma_unify_equal_fields(s1, x, y, na, nb, k + 1, r, f);
        assert forall|j: int| #![trigger x[j]] k <= j < x.len() implies deep(f, x[j].1) == deep(
            f,
            y[j].1,
        ) by {
            if j > k {
                assert(k + 1 <= j);
            }
        }
    }
}

proof fn lemma_deep_type_at(f: Subst, ts: Seq<TypeV>, n: nat, k: int)
    requires
        0 <= k <= ts.len(),
    ensures
        deep_types(f, ts, n, k).len() == k,
        forall|j: int|
            0 <= j < k ==> deep_n(f, #[trigger] ts[j], n) == deep_types(f, ts, n, k)[j],
    decreases k,
{
    unfold_deep_types(f, ts, n, k);
    if k > 0 {
        lemma_deep_type_at(f, ts, n, k - 1);
    }
}

proof fn lemma_deep_field_at(f: Subst, fs: Seq<(Seq<char>, TypeV)>, n: nat, k: int)
    requires
        0 <= k <= fs.len(),
    ensures
        deep_fields(f, fs, n, k).len() == k,
        forall|j: int| #![trigger fs[j]]
            0 <= j < k ==> deep_n(f, fs[j].1, n) == deep_fields(f, fs, n, k)[j].1
                && deep_fields(f, fs, n, k)[j].0 == fs[j].0,
    decreases k,
{
    unfold_deep_fields(f, fs, n, k);
    if k > 0 {
        lemma_deep_field_at(f, fs, n, k - 1);
    }
}

proof fn lemma_same_types(f: Subst, x: Seq<TypeV>, y: Seq<TypeV>, n: nat, k: int)
    requires
        x.len() == y.len(),
        0 <= k <= x.len(),
        forall|j: int| 0 <= j < x.len() ==> deep_n(f, #[trigger] x[j], n) == deep_n(f, y[j], n),
    ensures
        deep_types(f, x, n, k) == deep_types(f, y, n, k),
    decreases k,
{
    unfold_deep_types(f, x, n, k);
    unfold_deep_types(f, y, n, k);
    if k > 0 {
        lemma_same_types(f, x, y, n, k - 1);
        assert(deep_n(f, x[k - 1], n) == deep_n(f, y[k - 1], n));
    }
}

proof fn lemma_same_fields(
    f: Subst,
    x: Seq<(Seq<char>, TypeV)>,
    y: Seq<(Seq<char>, TypeV)>,
    n: nat,
    k: int,
)
    requires
        keys_of(x) == keys_of(y),
        0 <= k <= x.len(),
        forall|j: int|
            #![trigger x[j]]
            0 <= j < x.len() ==> deep_n(f, x[j].1, n) == deep_n(f, y[j].1, n),
    ensures
        deep_fields(f, x, n, k) == deep_fields(f, y, n, k),
    decreases k,
{
    assert(keys_of(x).len() == keys_of(y).len());
    unfold_deep_fields(f, x, n, k);
    unfold_deep_fields(f, y, n, k);
    if k > 0 {
        lemma_same_fields(f, x, y, n, k - 1);
        assert(deep_n(f, x[k - 1].1, n) == deep_n(f, y[k - 1].1, n));
        let (kx, ky) = (keys_of(x), keys_of(y));
        assert(kx.len() == x.len() && ky.len() == y.len());
        assert(kx[k - 1] == x[k - 1].0);
        assert(ky[k - 1] == y[k - 1].0);
    }
}

// ---- laws ---------------------------------------------------------------------

/// A substitution without variables is acyclic, and a new variable keeps one acyclic.
pub proof fn law_new_variables_keep_acyclic(s: Subst)
    ensures
        acyclic(Seq::empty()),
        acyclic(s) ==> acyclic(s.push(None)),
{
    let zero = |v: u32| 0nat;
    assert(ranked(Seq::empty(), zero));
    if acyclic(s) {
        let r = choose|r: spec_fn(u32) -> nat| ranked(s, r);
        let s1 = s.push(None);
        assert forall|i: u32|
            #![trigger s1[i as int]]
            i < s1.len() && s1[i as int] is Some implies within(s1[i as int]->0, s1.len()) by {
            assert(s1[i as int] == s[i as int]);
        }
        assert forall|i: u32, v: u32|
            #![trigger mentions(s1[i as int]->0, v)]
            i < s1.len() && s1[i as int] is Some && mentions(s1[i as int]->0, v) implies r(v) < r(
            i,
        ) by {
            assert(s1[i as int] == s[i as int]);
            assert(mentions(s[i as int]->0, v));
        }
        lemma_compress(s1, r);
    }
}

/// Unification keeps the bindings acyclic and never changes one that was made, whether or
/// not the types match.
pub proof fn law_unify_keeps_acyclic(s: Subst, a: TypeV, b: TypeV)
    requires
        acyclic(s),
        within(a, s.len()),
        within(b, s.len()),
    ensures
        acyclic(unify(s, a, b).0),
        extends(unify(s, a, b).0, s),
{
    lemma_unify_keeps(s, a, b, s.len(), s.len());
}

/// So does a test for assignability.
pub proof fn law_assignability_keeps_acyclic(s: Subst, from: TypeV, to: TypeV, n: nat)
    requires
        acyclic(s),
        within(from, s.len()),
        within(to, s.len()),
    ensures
        acyclic(assignable_n(s, from, to, n).0),
        extends(assignable_n(s, from, to, n).0, s),
    decreases n, to,
{
    unfold_assignable_n(s, from, to, n);
    lemma_followed(s, from);
    lemma_followed(s, to);
    let f = shallow(s, from);
    let t = shallow(s, to);
    lemma_within(f, s.len());
    lemma_within(t, s.len());
    if f is Error || t is Error {
    } else if t is Optional {
        let inner = *t->Optional_0;
        let m = if is_bound(s, to) { n - 1 } else { n as int };
        if f is Nil || m < 0 || (m == n && t != to) {
        } else if f is Optional {
            law_assignability_keeps_acyclic(s, *f->Optional_0, inner, m as nat);
        } else {
            law_assignability_keeps_acyclic(s, f, inner, m as nat);
        }
    } else {
        law_unify_keeps_acyclic(s, f, t);
    }
}

/// In an acyclic substitution, following links ends at a type that is no bound variable, and
/// a fully substituted type mentions unbound variables only.
pub proof fn law_variables_are_followed(s: Subst, t: TypeV)
    requires
        acyclic(s),
        within(t, s.len()),
    ensures
        !is_bound(s, shallow(s, t)),
        forall|v: u32| mentions(deep(s, t), v) ==> v < s.len() && s[v as int] is None,
{
    lemma_followed(s, t);
    let r = choose|r: spec_fn(u32) -> nat| ranked(s, r);
    assert(fits(r, t, s.len()));
    assert forall|v: u32| mentions(deep(s, t), v) implies v < s.len() && s[v as int] is None by {
        lemma_deep_unbound(s, r, t, s.len(), v);
    }
}

proof fn lemma_deep_unbound(s: Subst, r: spec_fn(u32) -> nat, t: TypeV, n: nat, v: u32)
    requires
        ranked(s, r),
        fits(r, t, n),
        within(t, s.len()),
        mentions(deep_n(s, t, n), v),
    ensures
        v < s.len() && s[v as int] is None,
    decreases n, t,
{
    unfold_deep_n(s, t, n);
    lemma_within(t, s.len());
    lemma_fits_inner(r, t, n);
    match t {
        TypeV::Var(id) => {
            assert(mentions(t, id));
            if is_bound(s, t) {
                lemma_fits_binding(s, r, t, n);
                lemma_deep_unbound(s, r, s[id as int]->0, (n - 1) as nat, v);
            }
        },
        TypeV::Optional(i) => lemma_deep_unbound(s, r, *i, n, v),
        TypeV::Array(i) => lemma_deep_unbound(s, r, *i, n, v),
        TypeV::MapOf(i) => lemma_deep_unbound(s, r, *i, n, v),
        TypeV::Record(fs) => {
            let ds = deep_fields(s, fs, n, fs.len() as int);
            let k = choose|k: int|
                #![trigger ds[k]]
                0 <= k < ds.len() && mentions(ds[k].1, v);
            lemma_deep_field(s, fs, n, fs.len() as int, k);
            lemma_fits_field(r, fs, n, k);
            lemma_deep_unbound(s, r, fs[k].1, n, v);
        },
        TypeV::Function(ft) => {
            lemma_fits_function(r, ft, n);
            if mentions(deep_n(s, *ft.ret, n), v) {
                lemma_deep_unbound(s, r, *ft.ret, n, v);
            } else {
                let ds = deep_types(s, ft.params, n, ft.params.len() as int);
                let k = choose|k: int| 0 <= k < ds.len() && mentions(#[trigger] ds[k], v);
                lemma_deep_type(s, ft.params, n, ft.params.len() as int, k);
                lemma_deep_unbound(s, r, ft.params[k], n, v);
            }
        },
        _ => {},
    }
}

proof fn lemma_deep_field(s: Subst, fs: Seq<(Seq<char>, TypeV)>, n: nat, k: int, j: int)
    requires
        0 <= k <= fs.len(),
    ensures
        deep_fields(s, fs, n, k).len() == k,
        0 <= j < k ==> deep_fields(s, fs, n, k)[j] == (fs[j].0, deep_n(s, fs[j].1, n)),
    decreases k,
{
    unfold_deep_fields(s, fs, n, k);
    if k > 0 {
        lemma_deep_field(s, fs, n, k - 1, j);
    }
}

proof fn lemma_deep_type(s: Subst, ts: Seq<TypeV>, n: nat, k: int, j: int)
    requires
        0 <= k <= ts.len(),
    ensures
        deep_types(s, ts, n, k).len() == k,
        0 <= j < k ==> deep_types(s, ts, n, k)[j] == deep_n(s, ts[j], n),
    decreases k,
{
    unfold_deep_types(s, ts, n, k);
    if k > 0 {
        lemma_deep_type(s, ts, n, k - 1, j);
    }
}

/// In an acyclic substitution no operation runs out of links: with more of them allowed, the
/// result is the same.
pub proof fn law_links_do_not_run_out(
    s: Subst,
    var: u32,
    a: TypeV,
    b: TypeV,
    na: nat,
    nb: nat,
)
    requires
        acyclic(s),
        within(a, s.len()),
        within(b, s.len()),
        na >= s.len(),
        nb >= s.len(),
    ensures
        shallow_n(s, a, na) == shallow(s, a),
        deep_n(s, a, na) == deep(s, a),
        occurs_n(s, var, a, na) == occurs_n(s, var, a, s.len()),
        unify_n(s, a, b, na, nb) == unify(s, a, b),
        assignable_n(s, a, b, na) == assignable_n(s, a, b, s.len()),
{
    let n = s.len();
    let r = choose|r: spec_fn(u32) -> nat| ranked(s, r);
    assert(fits(r, a, n) && fits(r, a, na));
    lemma_shallow_budget(s, r, a, n, na);
    lemma_deep_budget(s, r, a, n, na);
    lemma_occurs_budget(s, r, var, a, n, na);
    assert(fits(r, b, n) && fits(r, b, na));
    lemma_assignable_budget(s, r, a, b, n, na);
    lemma_unify_keeps(s, a, b, n, n);
    let f = unify(s, a, b).0;
    let q = choose|q: spec_fn(u32) -> nat| ranked(f, q);
    assert(fits(q, a, n) && fits(q, a, na));
    assert(fits(q, b, n) && fits(q, b, nb));
    lemma_unify_budget(s, a, b, n, n, na, nb, q, f);
}

proof fn lemma_assignable_budget(
    s: Subst,
    r: spec_fn(u32) -> nat,
    from: TypeV,
    to: TypeV,
    n: nat,
    m: nat,
)
    requires
        ranked(s, r),
        within(to, s.len()),
        fits(r, to, n),
        fits(r, to, m),
    ensures
        assignable_n(s, from, to, n) == assignable_n(s, from, to, m),
    decreases n, to,
{
    unfold_assignable_n(s, from, to, n);
    unfold_assignable_n(s, from, to, m);
    lemma_shallow_fits(s, r, to, n);
    lemma_shallow_fits(s, r, to, m);
    lemma_followed(s, to);
    let f = shallow(s, from);
    let t = shallow(s, to);
    lemma_within(t, s.len());
    let (ln, lm) = (left(s, to, n), left(s, to, m));
    lemma_fits_inner(r, t, ln);
    lemma_fits_inner(r, t, lm);
    if t is Optional {
        let inner = *t->Optional_0;
        if f is Optional {
            lemma_assignable_budget(s, r, *f->Optional_0, inner, ln, lm);
        } else {
            lemma_assignable_budget(s, r, f, inner, ln, lm);
        }
    }
}

/// Types that were unified are equal once their variables are substituted, unless the poison
/// type occurs in them.
pub proof fn law_unified_types_are_equal(s: Subst, a: TypeV, b: TypeV)
    requires
        acyclic(s),
        within(a, s.len()),
        within(b, s.len()),
        unify(s, a, b).1,
        !poisoned(deep(unify(s, a, b).0, a)),
        !poisoned(deep(unify(s, a, b).0, b)),
    ensures
        deep(unify(s, a, b).0, a) == deep(unify(s, a, b).0, b),
{
    lemma_unify_keeps(s, a, b, s.len(), s.len());
    let f = unify(s, a, b).0;
    let r = choose|r: spec_fn(u32) -> nat| ranked(f, r);
    lemma_unify_equal(s, a, b, s.len(), s.len(), r, f);
}

/// They stay equal, whatever is bound later and whatever variables are added.
pub proof fn law_unified_types_stay_equal(s: Subst, a: TypeV, b: TypeV, later: Subst)
    requires
        acyclic(s),
        within(a, s.len()),
        within(b, s.len()),
        unify(s, a, b).1,
        acyclic(later),
        grows(later, unify(s, a, b).0),
        !poisoned(deep(later, a)),
        !poisoned(deep(later, b)),
    ensures
        deep(later, a) == deep(later, b),
{
    let r = choose|r: spec_fn(u32) -> nat| ranked(later, r);
    lemma_unify_equal(s, a, b, s.len(), s.len(), r, later);
}

/// What a type is found to be, it is later too, unless a variable was found.
pub proof fn law_found_types_stay(s: Subst, t: TypeV, later: Subst)
    requires
        acyclic(later),
        grows(later, s),
    ensures
        deep(later, shallow(s, t)) == deep(later, t),
{
    let r = choose|r: spec_fn(u32) -> nat| ranked(later, r);
    lemma_shallow_later(s, later, r, t, s.len());
}

/// Substituting once, and again later, is substituting later.
pub proof fn law_substitution_is_repeated(s: Subst, t: TypeV, n: nat, later: Subst)
    requires
        acyclic(later),
        grows(later, s),
    ensures
        deep(later, deep_n(s, t, n)) == deep(later, t),
    decreases n, t,
{
    let m = later.len();
    unfold_deep_n(s, t, n);
    let u = deep_n(s, t, n);
    unfold_deep_n(later, t, m);
    unfold_deep_n(later, u, m);
    match t {
        TypeV::Var(id) => {
            if n > 0 && is_bound(s, t) {
                law_bound_variables_stay(s, id, later);
                law_substitution_is_repeated(s, s[id as int]->0, (n - 1) as nat, later);
            }
        },
        TypeV::Optional(i) => law_substitution_is_repeated(s, *i, n, later),
        TypeV::Array(i) => law_substitution_is_repeated(s, *i, n, later),
        TypeV::MapOf(i) => law_substitution_is_repeated(s, *i, n, later),
        TypeV::Record(fs) => {
            let k = fs.len() as int;
            let us = deep_fields(s, fs, n, k);
            lemma_deep_field_at(s, fs, n, k);
            lemma_deep_field_at(later, fs, m, k);
            lemma_deep_field_at(later, us, m, k);
            assert forall|j: int| 0 <= j < k implies deep_fields(later, us, m, k)[j]
                == #[trigger] deep_fields(later, fs, m, k)[j] by {
                law_substitution_is_repeated(s, fs[j].1, n, later);
                assert(us[j] == us[j]);
            }
            assert(deep_fields(later, us, m, k) =~= deep_fields(later, fs, m, k));
        },
        TypeV::Function(ft) => {
            let k = ft.params.len() as int;
            let us = deep_types(s, ft.params, n, k);
            lemma_deep_type_at(s, ft.params, n, k);
            lemma_deep_type_at(later, ft.params, m, k);
            lemma_deep_type_at(later, us, m, k);
            assert forall|j: int| 0 <= j < k implies deep_types(later, us, m, k)[j]
                == #[trigger] deep_types(later, ft.params, m, k)[j] by {
                law_substitution_is_repeated(s, ft.params[j], n, later);
            }
            assert(deep_types(later, us, m, k) =~= deep_types(later, ft.params, m, k));
            law_substitution_is_repeated(s, *ft.ret, n, later);
        },
        _ => {},
    }
}

/// A variable that was bound is later what it was bound to.
pub proof fn law_bound_variables_stay(s: Subst, v: u32, later: Subst)
    requires
        acyclic(later),
        grows(later, s),
        v < s.len(),
        s[v as int] is Some,
    ensures
        deep(later, TypeV::Var(v)) == deep(later, s[v as int]->0),
{
    let r = choose|r: spec_fn(u32) -> nat| ranked(later, r);
    assert(later[v as int] == s[v as int]);
    lemma_deep_binding(later, r, TypeV::Var(v));
}

/// Unification of types without the poison type binds none.
pub proof fn law_unification_adds_no_poison(s: Subst, a: TypeV, b: TypeV)
    requires
        acyclic(s),
        clean(s),
        within(a, s.len()),
        within(b, s.len()),
        !poisoned(a),
        !poisoned(b),
    ensures
        clean(unify(s, a, b).0),
{
    lemma_unify_clean(s, a, b, s.len(), s.len());
}

/// A step in building a unifier.
pub ghost enum Step {
    /// A new variable.
    Fresh,
    /// Two types are unified, whether or not they match.
    Unify(TypeV, TypeV),
}

/// The bindings of a unifier after some steps.
pub open spec fn after(steps: Seq<Step>) -> Subst
    decreases steps.len(),
{
    if steps.len() == 0 {
        Seq::empty()
    } else {
        let s = after(steps.drop_last());
        match steps.last() {
            Step::Fresh => s.push(None),
            Step::Unify(a, b) => unify(s, a, b).0,
        }
    }
}

/// Whether only types are unified whose variables are the unifier's own.
pub open spec fn proper(steps: Seq<Step>) -> bool
    decreases steps.len(),
{
    if steps.len() == 0 {
        true
    } else {
        let n = after(steps.drop_last()).len();
        &&& proper(steps.drop_last())
        &&& steps.last() matches Step::Unify(a, b) ==> within(a, n) && within(b, n)
    }
}

proof fn lemma_after(steps: Seq<Step>)
    requires
        proper(steps),
    ensures
        acyclic(after(steps)),
    decreases steps.len(),
{
    if steps.len() == 0 {
        law_new_variables_keep_acyclic(Seq::empty());
    } else {
        lemma_after(steps.drop_last());
        let s = after(steps.drop_last());
        match steps.last() {
            Step::Fresh => law_new_variables_keep_acyclic(s),
            Step::Unify(a, b) => law_unify_keeps_acyclic(s, a, b),
        }
    }
}

/// A unifier that was built by its own calls is sound: two types that it unifies are equal once
/// their variables are substituted, unless the poison type occurs in one of them; whether or not
/// they match, a variable that was bound keeps its binding; and a variable is not unified with a
/// type that contains it.
pub proof fn law_built_unifiers_are_sound(steps: Seq<Step>, a: TypeV, b: TypeV, v: u32)
    requires
        proper(steps),
        within(a, after(steps).len()),
        within(b, after(steps).len()),
    ensures
        ({
            let s = after(steps);
            let (f, ok) = unify(s, a, b);
            let var = TypeV::Var(v);
            &&& acyclic(s)
            &&& extends(f, s)
            &&& ok && !poisoned(deep(f, a)) && !poisoned(deep(f, b)) ==> deep(f, a) == deep(f, b)
            &&& v < s.len() && s[v as int] is None ==> !unify(
                s,
                var,
                TypeV::Array(Box::new(var)),
            ).1
        }),
{
    let s = after(steps);
    lemma_after(steps);
    law_unify_keeps_acyclic(s, a, b);
    let (f, ok) = unify(s, a, b);
    if ok && !poisoned(deep(f, a)) && !poisoned(deep(f, b)) {
        law_unified_types_are_equal(s, a, b);
    }
    if v < s.len() && s[v as int] is None {
        let var = TypeV::Var(v);
        let arr = TypeV::Array(Box::new(var));
        unfold_unify_n(s, var, arr, s.len(), s.len());
        unfold_shallow_n(s, var, s.len());
        unfold_shallow_n(s, arr, s.len());
        unfold_occurs_n(s, v, arr, s.len());
        unfold_occurs_n(s, v, var, s.len());
    }
}

/// Unification of types without poison binds none.
proof fn lemma_unify_clean(s: Subst, a: TypeV, b: TypeV, na: nat, nb: nat)
    requires
        acyclic(s),
        clean(s),
        within(a, s.len()),
        within(b, s.len()),
        !poisoned(a),
        !poisoned(b),
    ensures
        clean(unify_n(s, a, b, na, nb).0),
    decreases na + nb, a, 0int,
{
    unfold_unify_n(s, a, b, na, nb);
    lemma_followed(s, a);
    lemma_followed(s, b);
    let r = choose|r: spec_fn(u32) -> nat| ranked(s, r);
    assert(fits(r, a, s.len()));
    assert(fits(r, b, s.len()));
    lemma_shallow(s, r, a, s.len());
    lemma_shallow(s, r, b, s.len());
    let a1 = shallow(s, a);
    let b1 = shallow(s, b);
    lemma_within(a1, s.len());
    lemma_within(b1, s.len());
    lemma_clean_inner(a1);
    lemma_clean_inner(b1);
    let ma = if is_bound(s, a) { na - 1 } else { na as int };
    let mb = if is_bound(s, b) { nb - 1 } else { nb as int };
    if ma < 0 || mb < 0 || (ma == na && mb == nb && a1 != a) {
    } else {
        let ma = ma as nat;
        let mb = mb as nat;
        match (a1, b1) {
            (TypeV::Optional(x), TypeV::Optional(y)) => lemma_unify_clean(s, *x, *y, ma, mb),
            (TypeV::Array(x), TypeV::Array(y)) => lemma_unify_clean(s, *x, *y, ma, mb),
            (TypeV::MapOf(x), TypeV::MapOf(y)) => lemma_unify_clean(s, *x, *y, ma, mb),
            (TypeV::Record(x), TypeV::Record(y)) => {
                if keys_of(x) == keys_of(y) {
                    assert(keys_of(x).len() == keys_of(y).len());
                    lemma_unify_clean_fields(s, x, y, ma, mb, 0);
                }
            },
            (TypeV::Function(f), TypeV::Function(g)) => {
                if f.params.len() == g.params.len() {
                    lemma_unify_clean_types(s, f.params, g.params, ma, mb, 0);
                    lemma_unify_keeps_types(s, f.params, g.params, ma, mb, 0);
                    let s1 = unify_types(s, f.params, g.params, ma, mb, 0).0;
                    lemma_unify_clean(s1, *f.ret, *g.ret, ma, mb);
                }
            },
            _ => {},
        }
    }
}

proof fn lemma_unify_clean_types(
    s: Subst,
    x: Seq<TypeV>,
    y: Seq<TypeV>,
    na: nat,
    nb: nat,
    k: int,
)
    requires
        acyclic(s),
        clean(s),
        x.len() == y.len(),
        forall|j: int| 0 <= j < x.len() ==> within(#[trigger] x[j], s.len()) && !poisoned(x[j]),
        forall|j: int| 0 <= j < y.len() ==> within(#[trigger] y[j], s.len()) && !poisoned(y[j]),
        0 <= k,
    ensures
        clean(unify_types(s, x, y, na, nb, k).0),
    decreases na + nb, x, x.len() - k,
{
    unfold_unify_types(s, x, y, na, nb, k);
    if k < x.len() {
        lemma_unify_keeps(s, x[k], y[k], na, nb);
        lemma_unify_clean(s, x[k], y[k], na, nb);
        let (s1, ok) = unify_n(s, x[k], y[k], na, nb);
        if ok {
            lemma_unify_clean_types(s1, x, y, na, nb, k + 1);
        }
    }
}

proof fn lemma_unify_clean_fields(
    s: Subst,
    x: Seq<(Seq<char>, TypeV)>,
    y: Seq<(Seq<char>, TypeV)>,
    na: nat,
    nb: nat,
    k: int,
)
    requires
        acyclic(s),
        clean(s),
        x.len() == y.len(),
        forall|j: int|
            #![trigger x[j]]
            0 <= j < x.len() ==> within(x[j].1, s.len()) && !poisoned(x[j].1),
        forall|j: int|
            #![trigger y[j]]
            0 <= j < y.len() ==> within(y[j].1, s.len()) && !poisoned(y[j].1),
        0 <= k,
    ensures
        clean(unify_fields(s, x, y, na, nb, k).0),
    decreases na + nb, x, x.len() - k,
{
    unfold_unify_fields(s, x, y, na, nb, k);
    if k < x.len() {
        lemma_unify_keeps(s, x[k].1, y[k].1, na, nb);
        lemma_unify_clean(s, x[k].1, y[k].1, na, nb);
        let (s1, ok) = unify_n(s, x[k].1, y[k].1, na, nb);
        if ok {
            lemma_unify_clean_fields(s1, x, y, na, nb, k + 1);
        }
    }
}

} // verus!
