//! The type language: types, their text, and unification.
//!
//! Numbers are a single type. Table literals get a concrete shape: an array, a record or a
//! string-keyed map. Types that inference has not pinned yet are variables; [`Unifier`]
//! records what they are bound to.
use vstd::prelude::*;
use vstd::string::*;
use crate::names::{
    ascending, get_of, keys_of, law_put_get, position, put_of, vec_keys, NameMap,
};
use crate::resolve::{strs_v, ResolveConfig, ResolveConfigV};
use crate::text::{cat2, cat3, cat4, own, same};

pub use crate::check::{typecheck, TypeInfo};

verus! {

/// A Grindlang type.
#[derive(Debug, PartialEq, Eq)]
pub enum Type {
    Number,
    Bool,
    String,
    /// The type of the literal `nil`; only inhabits optionals.
    Nil,
    /// "No value": the result of a `return`-less function used in value position.
    Unit,
    /// `T?`
    Optional(Box<Type>),
    /// Homogeneous, 1-based array.
    Array(Box<Type>),
    /// Homogeneous string-keyed map.
    MapOf(Box<Type>),
    /// Fixed, known string keys.
    Record(Fields),
    Function(FnType),
    /// Opaque named host type.
    Userdata(String),
    /// An inference variable (resolved by unification).
    Var(u32),
    /// Poison: suppresses cascading diagnostics after an error.
    Error,
}

/// The fields of a record, in the order of their names.
#[derive(Debug, PartialEq, Eq)]
pub struct Fields {
    entries: Vec<(String, Type)>,
}

#[derive(Debug, PartialEq, Eq)]
pub struct FnType {
    pub params: Vec<Type>,
    /// Single return type, or [`Type::Unit`] for a value-less function.
    pub ret: Box<Type>,
}

/// What a [`Type`] stands for.
pub ghost enum TypeV {
    Number,
    Bool,
    String,
    Nil,
    Unit,
    Optional(Box<TypeV>),
    Array(Box<TypeV>),
    MapOf(Box<TypeV>),
    Record(Seq<(Seq<char>, TypeV)>),
    Function(FnTypeV),
    Userdata(Seq<char>),
    Var(u32),
    Error,
}

pub ghost struct FnTypeV {
    pub params: Seq<TypeV>,
    pub ret: Box<TypeV>,
}

/// The counterparts of a list of types.
pub open spec fn types_v(v: Seq<Type>) -> Seq<TypeV>
    decreases v,
{
    Seq::new(
        v.len(),
        |i: int|
            if 0 <= i < v.len() {
                v[i].model()
            } else {
                arbitrary()
            },
    )
}

spec fn entries_v(v: Seq<(String, Type)>) -> Seq<(Seq<char>, TypeV)>
    decreases v,
{
    Seq::new(
        v.len(),
        |i: int|
            if 0 <= i < v.len() {
                (v[i].0@, v[i].1.model())
            } else {
                arbitrary()
            },
    )
}

impl Type {
    pub open spec fn model(&self) -> TypeV
        decreases self,
    {
        match self {
            Type::Number => TypeV::Number,
            Type::Bool => TypeV::Bool,
            Type::String => TypeV::String,
            Type::Nil => TypeV::Nil,
            Type::Unit => TypeV::Unit,
            Type::Optional(t) => TypeV::Optional(Box::new(t.model())),
            Type::Array(t) => TypeV::Array(Box::new(t.model())),
            Type::MapOf(t) => TypeV::MapOf(Box::new(t.model())),
            Type::Record(fields) => TypeV::Record(fields.model()),
            Type::Function(ft) => TypeV::Function(ft.model()),
            Type::Userdata(n) => TypeV::Userdata(n@),
            Type::Var(id) => TypeV::Var(*id),
            Type::Error => TypeV::Error,
        }
    }
}

impl Fields {
    #[verifier::type_invariant]
    spec fn wf(self) -> bool {
        ascending(vec_keys(self.entries@))
    }

    pub closed spec fn model(&self) -> Seq<(Seq<char>, TypeV)>
        decreases self,
    {
        entries_v(self.entries@)
    }
}

impl FnType {
    pub open spec fn model(&self) -> FnTypeV
        decreases self,
    {
        FnTypeV { params: types_v(self.params@), ret: Box::new(self.ret.model()) }
    }
}

impl View for Type {
    type V = TypeV;

    open spec fn view(&self) -> TypeV {
        self.model()
    }
}

impl View for FnType {
    type V = FnTypeV;

    open spec fn view(&self) -> FnTypeV {
        self.model()
    }
}

impl Clone for Type {
    fn clone(&self) -> (r: Self)
        ensures
            r@ == self@,
    {
        self.dup()
    }
}

impl Clone for FnType {
    fn clone(&self) -> (r: Self)
        ensures
            r@ == self@,
    {
        self.dup()
    }
}

impl Clone for Fields {
    fn clone(&self) -> (r: Self)
        ensures
            r@ == self@,
    {
        self.dup()
    }
}

impl View for Fields {
    type V = Seq<(Seq<char>, TypeV)>;

    open spec fn view(&self) -> Seq<(Seq<char>, TypeV)> {
        self.model()
    }
}

/// The text of a type.
#[verifier::opaque]
pub open spec fn type_text(t: TypeV) -> Seq<char>
    decreases t, 0int,
{
    match t {
        TypeV::Number => "number"@,
        TypeV::Bool => "bool"@,
        TypeV::String => "string"@,
        TypeV::Nil => "nil"@,
        TypeV::Unit => "()"@,
        TypeV::Optional(i) => type_text(*i) + "?"@,
        TypeV::Array(i) => "array<"@ + type_text(*i) + ">"@,
        TypeV::MapOf(i) => "map<string, "@ + type_text(*i) + ">"@,
        TypeV::Record(fields) => "record { "@ + fields_text(fields, fields.len() as int) + " }"@,
        TypeV::Function(ft) => "fn("@ + params_text(ft.params, ft.params.len() as int) + ") -> "@
            + type_text(*ft.ret),
        TypeV::Userdata(n) => "userdata<"@ + n + ">"@,
        TypeV::Var(_) => "?"@,
        TypeV::Error => "<error>"@,
    }
}

/// The text of the first `n` fields, separated by commas.
#[verifier::opaque]
pub open spec fn fields_text(fs: Seq<(Seq<char>, TypeV)>, n: int) -> Seq<char>
    decreases fs, n,
{
    if n <= 0 || n > fs.len() {
        Seq::empty()
    } else {
        fields_text(fs, n - 1) + (if n > 1 {
            ", "@
        } else {
            Seq::empty()
        }) + fs[n - 1].0 + ": "@ + type_text(fs[n - 1].1)
    }
}

/// The text of the first `n` parameter types, separated by commas.
#[verifier::opaque]
pub open spec fn params_text(ps: Seq<TypeV>, n: int) -> Seq<char>
    decreases ps, n,
{
    if n <= 0 || n > ps.len() {
        Seq::empty()
    } else {
        params_text(ps, n - 1) + (if n > 1 {
            ", "@
        } else {
            Seq::empty()
        }) + type_text(ps[n - 1])
    }
}

/// Whether an inference variable occurs in a type.
pub open spec fn has_var(t: TypeV) -> bool
    decreases t,
{
    match t {
        TypeV::Var(_) => true,
        TypeV::Optional(i) => has_var(*i),
        TypeV::Array(i) => has_var(*i),
        TypeV::MapOf(i) => has_var(*i),
        TypeV::Record(fs) => exists|k: int|
            #![trigger fs[k]]
            0 <= k < fs.len() && has_var(fs[k].1),
        TypeV::Function(ft) => has_var(*ft.ret) || exists|k: int|
            0 <= k < ft.params.len() && has_var(#[trigger] ft.params[k]),
        _ => false,
    }
}

proof fn lemma_field_has_var(fs: Seq<(Seq<char>, TypeV)>, k: int)
    requires
        0 <= k < fs.len(),
        has_var(fs[k].1),
    ensures
        has_var(TypeV::Record(fs)),
{
    let t = TypeV::Record(fs);
    match t {
        TypeV::Record(g) => {
            assert(has_var(g[k].1));
            assert(exists|j: int| #![trigger g[j]] 0 <= j < g.len() && has_var(g[j].1));
        },
        _ => {},
    }
}

/// What each inference variable is bound to, if anything.
pub type Subst = Seq<Option<TypeV>>;

/// Whether `t` is a variable that is bound.
pub open spec fn is_bound(s: Subst, t: TypeV) -> bool {
    t matches TypeV::Var(id) && id < s.len() && s[id as int] is Some
}

/// Follow variable links at the top level only, at most `n` of them.
#[verifier::opaque]
pub open spec fn shallow_n(s: Subst, t: TypeV, n: nat) -> TypeV
    decreases n,
{
    if n > 0 && is_bound(s, t) {
        shallow_n(s, s[t->Var_0 as int]->0, (n - 1) as nat)
    } else {
        t
    }
}

/// Follow variable links at the top level only.
pub open spec fn shallow(s: Subst, t: TypeV) -> TypeV {
    shallow_n(s, t, s.len())
}

/// Substitute all variables, following at most `n` links on the way to any one of them.
#[verifier::opaque]
pub open spec fn deep_n(s: Subst, t: TypeV, n: nat) -> TypeV
    decreases n, t, 0int,
{
    match t {
        TypeV::Var(id) => if n > 0 && is_bound(s, t) {
            deep_n(s, s[id as int]->0, (n - 1) as nat)
        } else {
            t
        },
        TypeV::Optional(i) => TypeV::Optional(Box::new(deep_n(s, *i, n))),
        TypeV::Array(i) => TypeV::Array(Box::new(deep_n(s, *i, n))),
        TypeV::MapOf(i) => TypeV::MapOf(Box::new(deep_n(s, *i, n))),
        TypeV::Record(fs) => TypeV::Record(deep_fields(s, fs, n, fs.len() as int)),
        TypeV::Function(ft) => TypeV::Function(
            FnTypeV {
                params: deep_types(s, ft.params, n, ft.params.len() as int),
                ret: Box::new(deep_n(s, *ft.ret, n)),
            },
        ),
        _ => t,
    }
}

/// The first `k` types with all variables substituted.
#[verifier::opaque]
pub open spec fn deep_types(s: Subst, ts: Seq<TypeV>, n: nat, k: int) -> Seq<TypeV>
    decreases n, ts, k,
{
    if k <= 0 || k > ts.len() {
        Seq::empty()
    } else {
        deep_types(s, ts, n, k - 1).push(deep_n(s, ts[k - 1], n))
    }
}

/// The first `k` fields with all variables substituted.
#[verifier::opaque]
pub open spec fn deep_fields(s: Subst, fs: Seq<(Seq<char>, TypeV)>, n: nat, k: int) -> Seq<
    (Seq<char>, TypeV),
>
    decreases n, fs, k,
{
    if k <= 0 || k > fs.len() {
        Seq::empty()
    } else {
        deep_fields(s, fs, n, k - 1).push((fs[k - 1].0, deep_n(s, fs[k - 1].1, n)))
    }
}

/// Substitute all variables. Unbound ones stay as they are.
pub open spec fn deep(s: Subst, t: TypeV) -> TypeV {
    deep_n(s, t, s.len())
}

/// Whether the unbound variable `var` occurs in `t` once all variables are substituted.
#[verifier::opaque]
pub open spec fn occurs_n(s: Subst, var: u32, t: TypeV, n: nat) -> bool
    decreases n, t, 0int,
{
    match t {
        TypeV::Var(id) => if n > 0 && is_bound(s, t) {
            occurs_n(s, var, s[id as int]->0, (n - 1) as nat)
        } else {
            id == var
        },
        TypeV::Optional(i) => occurs_n(s, var, *i, n),
        TypeV::Array(i) => occurs_n(s, var, *i, n),
        TypeV::MapOf(i) => occurs_n(s, var, *i, n),
        TypeV::Record(fs) => occurs_fields(s, var, fs, n, 0),
        TypeV::Function(ft) => occurs_types(s, var, ft.params, n, 0) || occurs_n(
            s,
            var,
            *ft.ret,
            n,
        ),
        _ => false,
    }
}

/// Whether `var` occurs in one of the types from `k` on.
#[verifier::opaque]
pub open spec fn occurs_types(s: Subst, var: u32, ts: Seq<TypeV>, n: nat, k: int) -> bool
    decreases n, ts, ts.len() - k,
{
    if k < 0 || k >= ts.len() {
        false
    } else {
        occurs_n(s, var, ts[k], n) || occurs_types(s, var, ts, n, k + 1)
    }
}

/// Whether `var` occurs in one of the fields from `k` on.
#[verifier::opaque]
pub open spec fn occurs_fields(s: Subst, var: u32, fs: Seq<(Seq<char>, TypeV)>, n: nat, k: int) -> bool
    decreases n, fs, fs.len() - k,
{
    if k < 0 || k >= fs.len() {
        false
    } else {
        occurs_n(s, var, fs[k].1, n) || occurs_fields(s, var, fs, n, k + 1)
    }
}

/// Bind `var` to `t`, unless `t` contains it.
pub open spec fn bind_of(s: Subst, var: u32, t: TypeV) -> (Subst, bool) {
    if var >= s.len() || occurs_n(s, var, t, s.len()) {
        (s, false)
    } else {
        (s.update(var as int, Some(t)), true)
    }
}

/// Unify two types, recording variable bindings; tells whether they match. At most `na`
/// bound variables are followed on the way into `a`, and `nb` on the way into `b`.
#[verifier::opaque]
pub open spec fn unify_n(s: Subst, a: TypeV, b: TypeV, na: nat, nb: nat) -> (Subst, bool)
    decreases na + nb, a, 0int,
{
    let a1 = shallow(s, a);
    let b1 = shallow(s, b);
    let ma = if is_bound(s, a) { na - 1 } else { na as int };
    let mb = if is_bound(s, b) { nb - 1 } else { nb as int };
    match (a1, b1) {
        (TypeV::Var(i), TypeV::Var(j)) => if i == j {
            (s, true)
        } else {
            bind_of(s, i, b1)
        },
        (TypeV::Var(i), t) => bind_of(s, i, t),
        (t, TypeV::Var(i)) => bind_of(s, i, t),
        (TypeV::Error, _) => (s, true),
        (_, TypeV::Error) => (s, true),
        (TypeV::Number, TypeV::Number) => (s, true),
        (TypeV::Bool, TypeV::Bool) => (s, true),
        (TypeV::String, TypeV::String) => (s, true),
        (TypeV::Nil, TypeV::Nil) => (s, true),
        (TypeV::Unit, TypeV::Unit) => (s, true),
        (TypeV::Userdata(x), TypeV::Userdata(y)) => (s, x == y),
        _ => if ma < 0 || mb < 0 || (ma == na && mb == nb && a1 != a) {
            (s, false)
        } else {
            let ma = ma as nat;
            let mb = mb as nat;
            match (a1, b1) {
                (TypeV::Optional(x), TypeV::Optional(y)) => unify_n(s, *x, *y, ma, mb),
                (TypeV::Array(x), TypeV::Array(y)) => unify_n(s, *x, *y, ma, mb),
                (TypeV::MapOf(x), TypeV::MapOf(y)) => unify_n(s, *x, *y, ma, mb),
                (TypeV::Record(x), TypeV::Record(y)) => if keys_of(x) == keys_of(y) {
                    unify_fields(s, x, y, ma, mb, 0)
                } else {
                    (s, false)
                },
                (TypeV::Function(f), TypeV::Function(g)) => if f.params.len() != g.params.len() {
                    (s, false)
                } else {
                    let (s1, ok) = unify_types(s, f.params, g.params, ma, mb, 0);
                    if ok {
                        unify_n(s1, *f.ret, *g.ret, ma, mb)
                    } else {
                        (s1, false)
                    }
                },
                _ => (s, false),
            }
        },
    }
}

/// Unify the types from `k` on, pairwise, up to the first mismatch.
#[verifier::opaque]
pub open spec fn unify_types(s: Subst, x: Seq<TypeV>, y: Seq<TypeV>, na: nat, nb: nat, k: int) -> (
    Subst,
    bool,
)
    decreases na + nb, x, x.len() - k,
{
    if k < 0 || k >= x.len() {
        (s, true)
    } else {
        let (s1, ok) = unify_n(s, x[k], y[k], na, nb);
        if ok {
            unify_types(s1, x, y, na, nb, k + 1)
        } else {
            (s1, false)
        }
    }
}

/// Unify the fields from `k` on, pairwise, up to the first mismatch.
#[verifier::opaque]
pub open spec fn unify_fields(
    s: Subst,
    x: Seq<(Seq<char>, TypeV)>,
    y: Seq<(Seq<char>, TypeV)>,
    na: nat,
    nb: nat,
    k: int,
) -> (Subst, bool)
    decreases na + nb, x, x.len() - k,
{
    if k < 0 || k >= x.len() {
        (s, true)
    } else {
        let (s1, ok) = unify_n(s, x[k].1, y[k].1, na, nb);
        if ok {
            unify_fields(s1, x, y, na, nb, k + 1)
        } else {
            (s1, false)
        }
    }
}

/// Unify two types, recording variable bindings; tells whether they match.
pub open spec fn unify(s: Subst, a: TypeV, b: TypeV) -> (Subst, bool) {
    unify_n(s, a, b, s.len(), s.len())
}

/// Whether a value of type `from` can be assigned to a place of type `to`, with optional
/// widening (`T` and `nil` go into `T?`); bindings are recorded.
#[verifier::opaque]
pub open spec fn assignable_n(s: Subst, from: TypeV, to: TypeV, n: nat) -> (Subst, bool)
    decreases n, to,
{
    let f = shallow(s, from);
    let t = shallow(s, to);
    let m = if is_bound(s, to) { n - 1 } else { n as int };
    if f is Error || t is Error {
        (s, true)
    } else if t is Optional {
        let inner = *t->Optional_0;
        if f is Nil {
            (s, true)
        } else if m < 0 || (m == n && t != to) {
            (s, false)
        } else if f is Optional {
            assignable_n(s, *f->Optional_0, inner, m as nat)
        } else {
            assignable_n(s, f, inner, m as nat)
        }
    } else {
        unify(s, f, t)
    }
}

pub proof fn unfold_type_text(t: TypeV)
    ensures
        type_text(t) == ({
            match t {
                TypeV::Number => "number"@,
                TypeV::Bool => "bool"@,
                TypeV::String => "string"@,
                TypeV::Nil => "nil"@,
                TypeV::Unit => "()"@,
                TypeV::Optional(i) => type_text(*i) + "?"@,
                TypeV::Array(i) => "array<"@ + type_text(*i) + ">"@,
                TypeV::MapOf(i) => "map<string, "@ + type_text(*i) + ">"@,
                TypeV::Record(fields) => "record { "@ + fields_text(fields, fields.len() as int) + " }"@,
                TypeV::Function(ft) => "fn("@ + params_text(ft.params, ft.params.len() as int) + ") -> "@
                    + type_text(*ft.ret),
                TypeV::Userdata(n) => "userdata<"@ + n + ">"@,
                TypeV::Var(_) => "?"@,
                TypeV::Error => "<error>"@,
            }
        }),
{
    reveal(type_text);
    reveal(fields_text);
    reveal(params_text);
}

pub proof fn unfold_fields_text(fs: Seq<(Seq<char>, TypeV)>, n: int)
    ensures
        fields_text(fs, n) == ({
            if n <= 0 || n > fs.len() {
                Seq::empty()
            } else {
                fields_text(fs, n - 1) + (if n > 1 {
                    ", "@
                } else {
                    Seq::empty()
                }) + fs[n - 1].0 + ": "@ + type_text(fs[n - 1].1)
            }
        }),
{
    reveal(fields_text);
    reveal(type_text);
}

pub proof fn unfold_params_text(ps: Seq<TypeV>, n: int)
    ensures
        params_text(ps, n) == ({
            if n <= 0 || n > ps.len() {
                Seq::empty()
            } else {
                params_text(ps, n - 1) + (if n > 1 {
                    ", "@
                } else {
                    Seq::empty()
                }) + type_text(ps[n - 1])
            }
        }),
{
    reveal(params_text);
    reveal(type_text);
}

pub proof fn unfold_shallow_n(s: Subst, t: TypeV, n: nat)
    ensures
        shallow_n(s, t, n) == ({
            if n > 0 && is_bound(s, t) {
                shallow_n(s, s[t->Var_0 as int]->0, (n - 1) as nat)
            } else {
                t
            }
        }),
{
    reveal(shallow_n);
}

pub proof fn unfold_deep_n(s: Subst, t: TypeV, n: nat)
    ensures
        deep_n(s, t, n) == ({
            match t {
                TypeV::Var(id) => if n > 0 && is_bound(s, t) {
                    deep_n(s, s[id as int]->0, (n - 1) as nat)
                } else {
                    t
                },
                TypeV::Optional(i) => TypeV::Optional(Box::new(deep_n(s, *i, n))),
                TypeV::Array(i) => TypeV::Array(Box::new(deep_n(s, *i, n))),
                TypeV::MapOf(i) => TypeV::MapOf(Box::new(deep_n(s, *i, n))),
                TypeV::Record(fs) => TypeV::Record(deep_fields(s, fs, n, fs.len() as int)),
                TypeV::Function(ft) => TypeV::Function(
                    FnTypeV {
                        params: deep_types(s, ft.params, n, ft.params.len() as int),
                        ret: Box::new(deep_n(s, *ft.ret, n)),
                    },
                ),
                _ => t,
            }
        }),
{
    reveal(deep_n);
    reveal(deep_types);
    reveal(deep_fields);
}

pub proof fn unfold_deep_types(s: Subst, ts: Seq<TypeV>, n: nat, k: int)
    ensures
        deep_types(s, ts, n, k) == ({
            if k <= 0 || k > ts.len() {
                Seq::empty()
            } else {
                deep_types(s, ts, n, k - 1).push(deep_n(s, ts[k - 1], n))
            }
        }),
{
    reveal(deep_types);
    reveal(deep_n);
}

pub proof fn unfold_deep_fields(s: Subst, fs: Seq<(Seq<char>, TypeV)>, n: nat, k: int)
    ensures
        deep_fields(s, fs, n, k) == ({
            if k <= 0 || k > fs.len() {
                Seq::empty()
            } else {
                deep_fields(s, fs, n, k - 1).push((fs[k - 1].0, deep_n(s, fs[k - 1].1, n)))
            }
        }),
{
    reveal(deep_fields);
    reveal(deep_n);
}

pub proof fn unfold_occurs_n(s: Subst, var: u32, t: TypeV, n: nat)
    ensures
        occurs_n(s, var, t, n) == ({
            match t {
                TypeV::Var(id) => if n > 0 && is_bound(s, t) {
                    occurs_n(s, var, s[id as int]->0, (n - 1) as nat)
                } else {
                    id == var
                },
                TypeV::Optional(i) => occurs_n(s, var, *i, n),
                TypeV::Array(i) => occurs_n(s, var, *i, n),
                TypeV::MapOf(i) => occurs_n(s, var, *i, n),
                TypeV::Record(fs) => occurs_fields(s, var, fs, n, 0),
                TypeV::Function(ft) => occurs_types(s, var, ft.params, n, 0) || occurs_n(
                    s,
                    var,
                    *ft.ret,
                    n,
                ),
                _ => false,
            }
        }),
{
    reveal(occurs_n);
    reveal(occurs_types);
    reveal(occurs_fields);
}

pub proof fn unfold_occurs_types(s: Subst, var: u32, ts: Seq<TypeV>, n: nat, k: int)
    ensures
        occurs_types(s, var, ts, n, k) == ({
            if k < 0 || k >= ts.len() {
                false
            } else {
                occurs_n(s, var, ts[k], n) || occurs_types(s, var, ts, n, k + 1)
            }
        }),
{
    reveal(occurs_types);
    reveal(occurs_n);
}

pub proof fn unfold_occurs_fields(s: Subst, var: u32, fs: Seq<(Seq<char>, TypeV)>, n: nat, k: int)
    ensures
        occurs_fields(s, var, fs, n, k) == ({
            if k < 0 || k >= fs.len() {
                false
            } else {
                occurs_n(s, var, fs[k].1, n) || occurs_fields(s, var, fs, n, k + 1)
            }
        }),
{
    reveal(occurs_fields);
    reveal(occurs_n);
}

pub proof fn unfold_unify_n(s: Subst, a: TypeV, b: TypeV, na: nat, nb: nat)
    ensures
        unify_n(s, a, b, na, nb) == ({
            let a1 = shallow(s, a);
            let b1 = shallow(s, b);
            let ma = if is_bound(s, a) { na - 1 } else { na as int };
            let mb = if is_bound(s, b) { nb - 1 } else { nb as int };
            match (a1, b1) {
                (TypeV::Var(i), TypeV::Var(j)) => if i == j {
                    (s, true)
                } else {
                    bind_of(s, i, b1)
                },
                (TypeV::Var(i), t) => bind_of(s, i, t),
                (t, TypeV::Var(i)) => bind_of(s, i, t),
                (TypeV::Error, _) => (s, true),
                (_, TypeV::Error) => (s, true),
                (TypeV::Number, TypeV::Number) => (s, true),
                (TypeV::Bool, TypeV::Bool) => (s, true),
                (TypeV::String, TypeV::String) => (s, true),
                (TypeV::Nil, TypeV::Nil) => (s, true),
                (TypeV::Unit, TypeV::Unit) => (s, true),
                (TypeV::Userdata(x), TypeV::Userdata(y)) => (s, x == y),
                _ => if ma < 0 || mb < 0 || (ma == na && mb == nb && a1 != a) {
                    (s, false)
                } else {
                    let ma = ma as nat;
                    let mb = mb as nat;
                    match (a1, b1) {
                        (TypeV::Optional(x), TypeV::Optional(y)) => unify_n(s, *x, *y, ma, mb),
                        (TypeV::Array(x), TypeV::Array(y)) => unify_n(s, *x, *y, ma, mb),
                        (TypeV::MapOf(x), TypeV::MapOf(y)) => unify_n(s, *x, *y, ma, mb),
                        (TypeV::Record(x), TypeV::Record(y)) => if keys_of(x) == keys_of(y) {
                            unify_fields(s, x, y, ma, mb, 0)
                        } else {
                            (s, false)
                        },
                        (TypeV::Function(f), TypeV::Function(g)) => if f.params.len() != g.params.len() {
                            (s, false)
                        } else {
                            let (s1, ok) = unify_types(s, f.params, g.params, ma, mb, 0);
                            if ok {
                                unify_n(s1, *f.ret, *g.ret, ma, mb)
                            } else {
                                (s1, false)
                            }
                        },
                        _ => (s, false),
                    }
                },
            }
        }),
{
    reveal(unify_n);
    reveal(unify_types);
    reveal(unify_fields);
}

pub proof fn unfold_unify_types(s: Subst, x: Seq<TypeV>, y: Seq<TypeV>, na: nat, nb: nat, k: int)
    ensures
        unify_types(s, x, y, na, nb, k) == ({
            if k < 0 || k >= x.len() {
                (s, true)
            } else {
                let (s1, ok) = unify_n(s, x[k], y[k], na, nb);
                if ok {
                    unify_types(s1, x, y, na, nb, k + 1)
                } else {
                    (s1, false)
                }
            }
        }),
{
    reveal(unify_types);
    reveal(unify_n);
}

pub proof fn unfold_unify_fields(
    s: Subst,
    x: Seq<(Seq<char>, TypeV)>,
    y: Seq<(Seq<char>, TypeV)>,
    na: nat,
    nb: nat,
    k: int,
)
    ensures
        unify_fields(s, x, y, na, nb, k) == ({
            if k < 0 || k >= x.len() {
                (s, true)
            } else {
                let (s1, ok) = unify_n(s, x[k].1, y[k].1, na, nb);
                if ok {
                    unify_fields(s1, x, y, na, nb, k + 1)
                } else {
                    (s1, false)
                }
            }
        }),
{
    reveal(unify_fields);
    reveal(unify_n);
}

pub proof fn unfold_assignable_n(s: Subst, from: TypeV, to: TypeV, n: nat)
    ensures
        assignable_n(s, from, to, n) == ({
            let f = shallow(s, from);
            let t = shallow(s, to);
            let m = if is_bound(s, to) { n - 1 } else { n as int };
            if f is Error || t is Error {
                (s, true)
            } else if t is Optional {
                let inner = *t->Optional_0;
                if f is Nil {
                    (s, true)
                } else if m < 0 || (m == n && t != to) {
                    (s, false)
                } else if f is Optional {
                    assignable_n(s, *f->Optional_0, inner, m as nat)
                } else {
                    assignable_n(s, f, inner, m as nat)
                }
            } else {
                unify(s, f, t)
            }
        }),
{
    reveal(assignable_n);
}

impl Fields {
    pub fn new() -> (r: Self)
        ensures
            r@ == Seq::<(Seq<char>, TypeV)>::empty(),
    {
        let r = Fields { entries: Vec::new() };
        assert(r@ =~= Seq::<(Seq<char>, TypeV)>::empty());
        r
    }

    /// The type of the field `key`.
    pub fn get(&self, key: &str) -> (r: Option<&Type>)
        ensures
            match r {
                Some(t) => get_of(self@, key@) == Some(t@),
                None => get_of(self@, key@) is None,
            },
            ascending(keys_of(self@)),
    {
        proof {
            use_type_invariant(self);
        }
        let p: usize = position(&self.entries, key);
        assert(vec_keys(self.entries@) =~= keys_of(self@));
        if p < self.entries.len() && same(self.entries[p].0.as_str(), key) {
            Some(&self.entries[p].1)
        } else {
            None
        }
    }

    /// Set the type of the field `key`.
    pub fn insert(&mut self, key: String, ty: Type)
        ensures
            final(self)@ == put_of(old(self)@, key@, ty@),
            ascending(keys_of(final(self)@)),
    {
        proof {
            use_type_invariant(&*self);
            assert(vec_keys(self.entries@) =~= keys_of(self@));
            law_put_get(self@, key@, ty@, key@);
        }
        let mut entries: Vec<(String, Type)> = Vec::new();
        std::mem::swap(&mut entries, &mut self.entries);
        let ghost s0 = old(self)@;
        assert(vec_keys(entries@) =~= keys_of(s0));
        let p: usize = position(&entries, key.as_str());
        let ghost k = key@;
        let ghost v = ty@;
        let ghost e0 = entries@;
        if p < entries.len() && same(entries[p].0.as_str(), key.as_str()) {
            entries.set(p, (key, ty));
            assert(vec_keys(entries@) =~= keys_of(s0.update(p as int, (k, v))));
        } else {
            entries.insert(p, (key, ty));
            assert(vec_keys(entries@) =~= keys_of(s0.insert(p as int, (k, v))));
        }
        std::mem::swap(&mut entries, &mut self.entries);
        assert(self@ =~= put_of(s0, k, v));
    }

    /// Number of fields. Their names ascend.
    pub fn len(&self) -> (r: usize)
        ensures
            r == self@.len(),
            ascending(keys_of(self@)),
    {
        proof {
            use_type_invariant(self);
            assert(vec_keys(self.entries@) =~= keys_of(self@));
        }
        self.entries.len()
    }

    /// The name of the `i`-th field, in order.
    pub fn key(&self, i: usize) -> (r: &String)
        requires
            i < self@.len(),
        ensures
            r@ == self@[i as int].0,
    {
        &self.entries[i].0
    }

    /// The type of the `i`-th field, in order.
    pub fn value(&self, i: usize) -> (r: &Type)
        requires
            i < self@.len(),
        ensures
            r@ == self@[i as int].1,
            decreases_to!(self => r),
    {
        &self.entries[i].1
    }

    /// Append a field whose name comes after those present.
    fn push(&mut self, key: String, ty: Type)
        requires
            ascending(keys_of(old(self)@.push((key@, ty@)))),
        ensures
            final(self)@ == old(self)@.push((key@, ty@)),
    {
        let ghost k = key@;
        let ghost v = ty@;
        let ghost s0 = old(self)@;
        let mut entries: Vec<(String, Type)> = Vec::new();
        std::mem::swap(&mut entries, &mut self.entries);
        entries.push((key, ty));
        assert(vec_keys(entries@) =~= keys_of(s0.push((k, v))));
        std::mem::swap(&mut entries, &mut self.entries);
        assert(self@ =~= s0.push((k, v)));
    }
}

impl Type {
    pub fn optional(inner: Type) -> (r: Type)
        ensures
            r@ == TypeV::Optional(Box::new(inner@)),
    {
        Type::Optional(Box::new(inner))
    }

    pub fn array(inner: Type) -> (r: Type)
        ensures
            r@ == TypeV::Array(Box::new(inner@)),
    {
        Type::Array(Box::new(inner))
    }

    pub fn map(inner: Type) -> (r: Type)
        ensures
            r@ == TypeV::MapOf(Box::new(inner@)),
    {
        Type::MapOf(Box::new(inner))
    }

    pub fn function(params: Vec<Type>, ret: Type) -> (r: Type)
        ensures
            r@ == TypeV::Function(FnTypeV { params: types_v(params@), ret: Box::new(ret@) }),
    {
        let ft = FnType { params, ret: Box::new(ret) };
        assert(ft@ == (FnTypeV { params: types_v(params@), ret: Box::new(ret@) }));
        Type::Function(ft)
    }

    /// A copy of this type.
    pub fn dup(&self) -> (r: Type)
        ensures
            r@ == self@,
        decreases self,
    {
        match self {
            Type::Number => Type::Number,
            Type::Bool => Type::Bool,
            Type::String => Type::String,
            Type::Nil => Type::Nil,
            Type::Unit => Type::Unit,
            Type::Optional(t) => Type::Optional(Box::new(t.dup())),
            Type::Array(t) => Type::Array(Box::new(t.dup())),
            Type::MapOf(t) => Type::MapOf(Box::new(t.dup())),
            Type::Record(fields) => Type::Record(fields.dup()),
            Type::Function(ft) => Type::Function(ft.dup()),
            Type::Userdata(n) => Type::Userdata(n.clone()),
            Type::Var(id) => Type::Var(*id),
            Type::Error => Type::Error,
        }
    }

    /// The text of this type, as shown in diagnostics.
    pub fn to_string(&self) -> (r: String)
        ensures
            r@ == type_text(self@),
        decreases self,
    {
        proof {
            unfold_type_text(self@);
        }
        match self {
            Type::Number => own("number"),
            Type::Bool => own("bool"),
            Type::String => own("string"),
            Type::Nil => own("nil"),
            Type::Unit => own("()"),
            Type::Optional(t) => cat2(t.to_string().as_str(), "?"),
            Type::Array(t) => cat3("array<", t.to_string().as_str(), ">"),
            Type::MapOf(t) => cat3("map<string, ", t.to_string().as_str(), ">"),
            Type::Record(fields) => cat3("record { ", fields.text().as_str(), " }"),
            Type::Function(ft) => cat4(
                "fn(",
                ft.params_string().as_str(),
                ") -> ",
                ft.ret.to_string().as_str(),
            ),
            Type::Userdata(name) => cat3("userdata<", name.as_str(), ">"),
            Type::Var(_) => own("?"),
            Type::Error => own("<error>"),
        }
    }
}

impl Type {
    /// Whether an inference variable occurs in this type.
    pub fn has_var(&self) -> (r: bool)
        ensures
            r == has_var(self@),
        decreases self,
    {
        match self {
            Type::Var(_) => true,
            Type::Optional(t) => t.has_var(),
            Type::Array(t) => t.has_var(),
            Type::MapOf(t) => t.has_var(),
            Type::Record(fields) => fields.has_var(),
            Type::Function(ft) => ft.has_var(),
            _ => false,
        }
    }
}

impl Fields {
    fn has_var(&self) -> (r: bool)
        ensures
            r == has_var(TypeV::Record(self@)),
        decreases self,
    {
        let ghost fs = self@;
        let mut i: usize = 0;
        while i < self.entries.len()
            invariant
                i <= self.entries@.len(),
                fs == self@,
                fs.len() == self.entries@.len(),
                forall|k: int| #![trigger fs[k]] 0 <= k < i ==> !has_var(fs[k].1),
            decreases self.entries@.len() - i,
        {
            if self.entries[i].1.has_var() {
                proof {
                    lemma_field_has_var(fs, i as int);
                }
                return true;
            }
            assert(!has_var(fs[i as int].1));
            i += 1;
        }
        false
    }

    /// A copy of these fields.
    pub fn dup(&self) -> (r: Fields)
        ensures
            r@ == self@,
        decreases self,
    {
        let mut out = Fields::new();
        let mut i: usize = 0;
        proof {
            use_type_invariant(self);
            assert(vec_keys(self.entries@) =~= keys_of(self@));
        }
        while i < self.entries.len()
            invariant
                i <= self.entries@.len(),
                self@.len() == self.entries@.len(),
                ascending(keys_of(self@)),
                out@ == self@.subrange(0, i as int),
            decreases self.entries@.len() - i,
        {
            let t = self.entries[i].1.dup();
            assert(keys_of(self@.subrange(0, i as int).push(self@[i as int])) =~= keys_of(
                self@,
            ).take(i + 1));
            out.push(self.entries[i].0.clone(), t);
            i += 1;
            assert(out@ =~= self@.subrange(0, i as int));
        }
        assert(out@ =~= self@);
        out
    }

    fn text(&self) -> (r: String)
        ensures
            r@ == fields_text(self@, self@.len() as int),
        decreases self,
    {
        let ghost fs = self@;
        let mut s = String::new();
        let mut i: usize = 0;
        proof {
            unfold_fields_text(fs, 0);
        }
        assert(s@ =~= fields_text(fs, 0));
        while i < self.entries.len()
            invariant
                i <= self.entries@.len(),
                fs == self@,
                fs.len() == self.entries@.len(),
                s@ == fields_text(fs, i as int),
            decreases self.entries@.len() - i,
        {
            proof {
                unfold_fields_text(fs, i + 1);
            }
            let ghost s0 = s@;
            if i > 0 {
                s.append(", ");
            } else {
                assert(s0 =~= s0 + Seq::<char>::empty());
            }
            s.append(self.entries[i].0.as_str());
            s.append(": ");
            let t = self.entries[i].1.to_string();
            s.append(t.as_str());
            i += 1;
        }
        s
    }
}

/// A copy of a list of types.
pub fn dup_types(ts: &Vec<Type>) -> (r: Vec<Type>)
    ensures
        types_v(r@) == types_v(ts@),
    decreases ts,
{
    let mut out: Vec<Type> = Vec::new();
    let mut i: usize = 0;
    assert(types_v(out@) =~= types_v(ts@).subrange(0, 0));
    while i < ts.len()
        invariant
            i <= ts@.len(),
            types_v(out@) == types_v(ts@).subrange(0, i as int),
        decreases ts@.len() - i,
    {
        let ghost before = out@;
        let t = ts[i].dup();
        out.push(t);
        i += 1;
        assert(types_v(out@) =~= types_v(before).push(t@));
        assert(types_v(out@) =~= types_v(ts@).subrange(0, i as int));
    }
    assert(types_v(out@) =~= types_v(ts@));
    out
}

impl FnType {
    /// Whether an inference variable occurs in this signature.
    pub fn has_var(&self) -> (r: bool)
        ensures
            r == has_var(TypeV::Function(self@)),
        decreases self,
    {
        let ghost ps = self@.params;
        let mut i: usize = 0;
        while i < self.params.len()
            invariant
                i <= self.params@.len(),
                ps == types_v(self.params@),
                ps == self@.params,
                forall|k: int| 0 <= k < i ==> !has_var(#[trigger] ps[k]),
            decreases self.params@.len() - i,
        {
            if self.params[i].has_var() {
                assert(has_var(ps[i as int]));
                return true;
            }
            assert(!has_var(ps[i as int]));
            i += 1;
        }
        self.ret.has_var()
    }

    /// A copy of this signature.
    pub fn dup(&self) -> (r: FnType)
        ensures
            r@ == self@,
        decreases self,
    {
        let params = dup_types(&self.params);
        let ret = self.ret.dup();
        FnType { params, ret: Box::new(ret) }
    }

    fn params_string(&self) -> (r: String)
        ensures
            r@ == params_text(self@.params, self@.params.len() as int),
        decreases self,
    {
        let ghost ps = self@.params;
        let mut s = String::new();
        let mut i: usize = 0;
        proof {
            unfold_params_text(ps, 0);
        }
        assert(s@ =~= params_text(ps, 0));
        while i < self.params.len()
            invariant
                i <= self.params@.len(),
                ps == types_v(self.params@),
                s@ == params_text(ps, i as int),
            decreases self.params@.len() - i,
        {
            proof {
                unfold_params_text(ps, i + 1);
            }
            let ghost s0 = s@;
            if i > 0 {
                s.append(", ");
            } else {
                assert(s0 =~= s0 + Seq::<char>::empty());
            }
            let t = self.params[i].to_string();
            s.append(t.as_str());
            i += 1;
        }
        s
    }
}

/// Inference variables and what they are bound to.
pub struct Unifier {
    subst: Vec<Option<Type>>,
}

impl Unifier {
    pub closed spec fn view(&self) -> Subst {
        Seq::new(
            self.subst@.len(),
            |i: int|
                match self.subst@[i] {
                    Some(t) => Some(t@),
                    None => None,
                },
        )
    }

    pub fn new() -> (r: Self)
        ensures
            r@ == Seq::<Option<TypeV>>::empty(),
    {
        let r = Unifier { subst: Vec::new() };
        assert(r@ =~= Seq::<Option<TypeV>>::empty());
        r
    }

    /// A new unbound variable.
    pub fn fresh(&mut self) -> (r: Type)
        ensures
            final(self)@ == old(self)@.push(None),
            r@ == TypeV::Var(old(self)@.len() as u32),
    {
        let id: u32 = #[verifier::truncate] (self.subst.len() as u32);
        self.subst.push(None);
        assert(self@ =~= old(self)@.push(None));
        Type::Var(id)
    }

    /// What `t` is bound to, when it is a bound variable.
    fn bound(&self, t: &Type) -> (r: Option<&Type>)
        ensures
            match r {
                Some(u) => is_bound(self@, t@) && self@[t@->Var_0 as int] == Some(u@),
                None => !is_bound(self@, t@),
            },
    {
        match t {
            Type::Var(id) => {
                let i: usize = *id as usize;
                if i < self.subst.len() {
                    match &self.subst[i] {
                        Some(u) => Some(u),
                        None => None,
                    }
                } else {
                    None
                }
            },
            _ => None,
        }
    }

    /// Follow variable links at the top level only.
    pub fn shallow(&self, t: &Type) -> (r: Type)
        ensures
            r@ == shallow(self@, t@),
    {
        let ghost s = self@;
        let mut cur: &Type = t;
        let mut n: usize = self.subst.len();
        let mut more: bool = true;
        while more
            invariant
                s == self@,
                n <= s.len(),
                shallow_n(s, cur@, n as nat) == shallow_n(s, t@, s.len()),
                !more ==> cur@ == shallow_n(s, t@, s.len()),
            decreases (if more { 1int } else { 0int }), n,
        {
            proof {
                unfold_shallow_n(s, cur@, n as nat);
            }
            match self.bound(cur) {
                Some(u) => {
                    if n == 0 {
                        more = false;
                    } else {
                        cur = u;
                        n -= 1;
                    }
                },
                None => {
                    more = false;
                },
            }
        }
        cur.dup()
    }

    /// Fully substitute all variables. Unresolved ones stay [`Type::Var`].
    pub fn deep(&self, t: &Type) -> (r: Type)
        ensures
            r@ == deep(self@, t@),
    {
        self.deep_within(t, self.subst.len())
    }

    fn deep_within(&self, t: &Type, n: usize) -> (r: Type)
        ensures
            r@ == deep_n(self@, t@, n as nat),
        decreases n, t@, 0int,
    {
        proof {
            unfold_deep_n(self@, t@, n as nat);
        }
        match t {
            Type::Var(id) => match self.bound(t) {
                Some(u) => if n > 0 {
                    self.deep_within(u, n - 1)
                } else {
                    Type::Var(*id)
                },
                None => Type::Var(*id),
            },
            Type::Optional(i) => Type::optional(self.deep_within(i, n)),
            Type::Array(i) => Type::array(self.deep_within(i, n)),
            Type::MapOf(i) => Type::map(self.deep_within(i, n)),
            Type::Record(fields) => Type::Record(self.deep_record(fields, n)),
            Type::Function(ft) => {
                assert(ft@ == (FnTypeV { params: types_v(ft.params@), ret: Box::new(ft.ret@) }));
                let params = self.deep_params(&ft.params, n);
                let ret = self.deep_within(&ft.ret, n);
                Type::function(params, ret)
            },
            other => other.dup(),
        }
    }

    fn deep_record(&self, fields: &Fields, n: usize) -> (r: Fields)
        ensures
            r@ == deep_fields(self@, fields@, n as nat, fields@.len() as int),
        decreases n, fields@, fields@.len(),
    {
        let ghost s = self@;
        let ghost fs = fields@;
        let mut out = Fields::new();
        let mut k: usize = 0;
        proof {
            unfold_deep_fields(s, fs, n as nat, 0);
        }
        assert(keys_of(out@) =~= keys_of(fs).take(0));
        while k < fields.len()
            invariant
                s == self@,
                fs == fields@,
                k <= fs.len(),
                out@ == deep_fields(s, fs, n as nat, k as int),
                keys_of(out@) == keys_of(fs).take(k as int),
            decreases fs.len() - k,
        {
            proof {
                unfold_deep_fields(s, fs, n as nat, k + 1);
            }
            let t = fields.value(k);
            assert(decreases_to!(fs => fs[k as int]));
            assert(decreases_to!(fs[k as int] => fs[k as int].1));
            let d = self.deep_within(t, n);
            let name = fields.key(k).clone();
            assert(keys_of(out@.push((name@, d@))) =~= keys_of(out@).push(name@));
            assert(keys_of(fs).take(k + 1) =~= keys_of(fs).take(k as int).push(
                keys_of(fs)[k as int],
            ));
            out.push(name, d);
            k += 1;
        }
        out
    }

    fn deep_params(&self, ts: &Vec<Type>, n: usize) -> (r: Vec<Type>)
        ensures
            types_v(r@) == deep_types(self@, types_v(ts@), n as nat, ts@.len() as int),
        decreases n, types_v(ts@), ts@.len(),
    {
        let ghost s = self@;
        let ghost tv = types_v(ts@);
        let mut out: Vec<Type> = Vec::new();
        let mut k: usize = 0;
        proof {
            unfold_deep_types(s, tv, n as nat, 0);
        }
        assert(types_v(out@) =~= deep_types(s, tv, n as nat, 0));
        while k < ts.len()
            invariant
                s == self@,
                tv == types_v(ts@),
                k <= ts@.len(),
                types_v(out@) == deep_types(s, tv, n as nat, k as int),
            decreases ts@.len() - k,
        {
            proof {
                unfold_deep_types(s, tv, n as nat, k + 1);
            }
            let ghost before = out@;
            assert(decreases_to!(tv => tv[k as int]));
            let d = self.deep_within(&ts[k], n);
            out.push(d);
            assert(types_v(out@) =~= types_v(before).push(d@));
            k += 1;
        }
        out
    }

    fn occurs(&self, var: u32, t: &Type, n: usize) -> (r: bool)
        ensures
            r == occurs_n(self@, var, t@, n as nat),
        decreases n, t@, 0int,
    {
        proof {
            unfold_occurs_n(self@, var, t@, n as nat);
        }
        match t {
            Type::Var(id) => match self.bound(t) {
                Some(u) => if n > 0 {
                    self.occurs(var, u, n - 1)
                } else {
                    *id == var
                },
                None => *id == var,
            },
            Type::Optional(i) => self.occurs(var, i, n),
            Type::Array(i) => self.occurs(var, i, n),
            Type::MapOf(i) => self.occurs(var, i, n),
            Type::Record(fields) => self.occurs_in_fields(var, fields, n),
            Type::Function(ft) => {
                assert(ft@ == (FnTypeV { params: types_v(ft.params@), ret: Box::new(ft.ret@) }));
                self.occurs_in_types(var, &ft.params, n) || self.occurs(var, &ft.ret, n)
            },
            _ => false,
        }
    }

    fn occurs_in_fields(&self, var: u32, fields: &Fields, n: usize) -> (r: bool)
        ensures
            r == occurs_fields(self@, var, fields@, n as nat, 0),
        decreases n, fields@, fields@.len(),
    {
        let ghost s = self@;
        let ghost fs = fields@;
        let mut k: usize = 0;
        while k < fields.len()
            invariant
                s == self@,
                fs == fields@,
                k <= fs.len(),
                occurs_fields(s, var, fs, n as nat, k as int) == occurs_fields(
                    s,
                    var,
                    fs,
                    n as nat,
                    0,
                ),
            decreases fs.len() - k,
        {
            proof {
                unfold_occurs_fields(s, var, fs, n as nat, k as int);
            }
            assert(decreases_to!(fs => fs[k as int]));
            assert(decreases_to!(fs[k as int] => fs[k as int].1));
            if self.occurs(var, fields.value(k), n) {
                return true;
            }
            k += 1;
        }
        proof {
            unfold_occurs_fields(s, var, fs, n as nat, k as int);
        }
        false
    }

    fn occurs_in_types(&self, var: u32, ts: &Vec<Type>, n: usize) -> (r: bool)
        ensures
            r == occurs_types(self@, var, types_v(ts@), n as nat, 0),
        decreases n, types_v(ts@), ts@.len(),
    {
        let ghost s = self@;
        let ghost tv = types_v(ts@);
        let mut k: usize = 0;
        while k < ts.len()
            invariant
                s == self@,
                tv == types_v(ts@),
                k <= ts@.len(),
                occurs_types(s, var, tv, n as nat, k as int) == occurs_types(
                    s,
                    var,
                    tv,
                    n as nat,
                    0,
                ),
            decreases ts@.len() - k,
        {
            proof {
                unfold_occurs_types(s, var, tv, n as nat, k as int);
            }
            assert(decreases_to!(tv => tv[k as int]));
            if self.occurs(var, &ts[k], n) {
                return true;
            }
            k += 1;
        }
        proof {
            unfold_occurs_types(s, var, tv, n as nat, k as int);
        }
        false
    }

    fn bind(&mut self, var: u32, t: Type) -> (r: bool)
        ensures
            (final(self)@, r) == bind_of(old(self)@, var, t@),
    {
        let i: usize = var as usize;
        if i >= self.subst.len() || self.occurs(var, &t, self.subst.len()) {
            return false;
        }
        let ghost tv = t@;
        self.subst.set(i, Some(t));
        assert(self@ =~= old(self)@.update(var as int, Some(tv)));
        true
    }

    /// Unify two types, recording variable bindings. Tells whether they match.
    pub fn unify(&mut self, a: &Type, b: &Type) -> (r: bool)
        ensures
            (final(self)@, r) == unify(old(self)@, a@, b@),
            final(self)@.len() == old(self)@.len(),
    {
        let n: usize = self.subst.len();
        self.unify_within(a, b, n, n)
    }

    fn unify_within(&mut self, a: &Type, b: &Type, na: usize, nb: usize) -> (r: bool)
        ensures
            (final(self)@, r) == unify_n(old(self)@, a@, b@, na as nat, nb as nat),
            final(self)@.len() == old(self)@.len(),
        decreases na + nb, a@, 0int,
    {
        proof {
            unfold_unify_n(self@, a@, b@, na as nat, nb as nat);
            lemma_shallow_unbound(self@, a@);
        }
        let a_bound: bool = self.bound(a).is_some();
        let b_bound: bool = self.bound(b).is_some();
        let a1 = self.shallow(a);
        let b1 = self.shallow(b);
        if let Type::Var(i) = &a1 {
            if let Type::Var(j) = &b1 {
                if *i == *j {
                    return true;
                }
            }
            return self.bind(*i, b1);
        }
        if let Type::Var(j) = &b1 {
            return self.bind(*j, a1);
        }
        match (&a1, &b1) {
            (Type::Error, _) => true,
            (_, Type::Error) => true,
            (Type::Number, Type::Number) => true,
            (Type::Bool, Type::Bool) => true,
            (Type::String, Type::String) => true,
            (Type::Nil, Type::Nil) => true,
            (Type::Unit, Type::Unit) => true,
            (Type::Userdata(x), Type::Userdata(y)) => same(x.as_str(), y.as_str()),
            _ => {
                if (a_bound && na == 0) || (b_bound && nb == 0) {
                    return false;
                }
                let ma: usize = if a_bound { na - 1 } else { na };
                let mb: usize = if b_bound { nb - 1 } else { nb };
                match (&a1, &b1) {
                    (Type::Optional(x), Type::Optional(y)) => self.unify_within(x, y, ma, mb),
                    (Type::Array(x), Type::Array(y)) => self.unify_within(x, y, ma, mb),
                    (Type::MapOf(x), Type::MapOf(y)) => self.unify_within(x, y, ma, mb),
                    (Type::Record(x), Type::Record(y)) => if same_keys(x, y) {
                        self.unify_records(x, y, ma, mb)
                    } else {
                        false
                    },
                    (Type::Function(f), Type::Function(g)) => {
                        assert(f@ == (FnTypeV {
                            params: types_v(f.params@),
                            ret: Box::new(f.ret@),
                        }));
                        assert(g@ == (FnTypeV {
                            params: types_v(g.params@),
                            ret: Box::new(g.ret@),
                        }));
                        if f.params.len() != g.params.len() {
                            return false;
                        }
                        if !self.unify_params(&f.params, &g.params, ma, mb) {
                            return false;
                        }
                        self.unify_within(&f.ret, &g.ret, ma, mb)
                    },
                    _ => false,
                }
            },
        }
    }

    fn unify_records(&mut self, x: &Fields, y: &Fields, na: usize, nb: usize) -> (r: bool)
        requires
            x@.len() == y@.len(),
        ensures
            (final(self)@, r) == unify_fields(old(self)@, x@, y@, na as nat, nb as nat, 0),
            final(self)@.len() == old(self)@.len(),
        decreases na + nb, x@, x@.len(),
    {
        let ghost xv = x@;
        let ghost yv = y@;
        let mut k: usize = 0;
        while k < x.len()
            invariant
                xv == x@,
                yv == y@,
                xv.len() == yv.len(),
                k <= xv.len(),
                self@.len() == old(self)@.len(),
                unify_fields(self@, xv, yv, na as nat, nb as nat, k as int) == unify_fields(
                    old(self)@,
                    xv,
                    yv,
                    na as nat,
                    nb as nat,
                    0,
                ),
            decreases xv.len() - k,
        {
            proof {
                unfold_unify_fields(self@, xv, yv, na as nat, nb as nat, k as int);
            }
            assert(decreases_to!(xv => xv[k as int]));
            assert(decreases_to!(xv[k as int] => xv[k as int].1));
            if !self.unify_within(x.value(k), y.value(k), na, nb) {
                return false;
            }
            k += 1;
        }
        proof {
            unfold_unify_fields(self@, xv, yv, na as nat, nb as nat, k as int);
        }
        true
    }

    fn unify_params(&mut self, x: &Vec<Type>, y: &Vec<Type>, na: usize, nb: usize) -> (r: bool)
        requires
            x@.len() == y@.len(),
        ensures
            (final(self)@, r) == unify_types(
                old(self)@,
                types_v(x@),
                types_v(y@),
                na as nat,
                nb as nat,
                0,
            ),
            final(self)@.len() == old(self)@.len(),
        decreases na + nb, types_v(x@), x@.len(),
    {
        let ghost xv = types_v(x@);
        let ghost yv = types_v(y@);
        let mut k: usize = 0;
        while k < x.len()
            invariant
                xv == types_v(x@),
                yv == types_v(y@),
                xv.len() == yv.len(),
                k <= xv.len(),
                self@.len() == old(self)@.len(),
                unify_types(self@, xv, yv, na as nat, nb as nat, k as int) == unify_types(
                    old(self)@,
                    xv,
                    yv,
                    na as nat,
                    nb as nat,
                    0,
                ),
            decreases xv.len() - k,
        {
            proof {
                unfold_unify_types(self@, xv, yv, na as nat, nb as nat, k as int);
            }
            assert(decreases_to!(xv => xv[k as int]));
            if !self.unify_within(&x[k], &y[k], na, nb) {
                return false;
            }
            k += 1;
        }
        proof {
            unfold_unify_types(self@, xv, yv, na as nat, nb as nat, k as int);
        }
        true
    }

    /// Whether a value of type `from` can be assigned to a place of type `to`, with
    /// optional widening (`T` and `nil` go into `T?`).
    pub fn is_assignable(&mut self, from: &Type, to: &Type) -> (r: bool)
        ensures
            (final(self)@, r) == assignable_n(old(self)@, from@, to@, old(self)@.len()),
            final(self)@.len() == old(self)@.len(),
    {
        let n: usize = self.subst.len();
        self.assignable_within(from, to, n)
    }

    fn assignable_within(&mut self, from: &Type, to: &Type, n: usize) -> (r: bool)
        ensures
            (final(self)@, r) == assignable_n(old(self)@, from@, to@, n as nat),
            final(self)@.len() == old(self)@.len(),
        decreases n, to@,
    {
        proof {
            unfold_assignable_n(self@, from@, to@, n as nat);
            lemma_shallow_unbound(self@, to@);
        }
        let to_bound: bool = self.bound(to).is_some();
        let f = self.shallow(from);
        let t = self.shallow(to);
        if matches!(f, Type::Error) || matches!(t, Type::Error) {
            return true;
        }
        if let Type::Optional(inner) = &t {
            if matches!(f, Type::Nil) {
                return true;
            }
            if to_bound && n == 0 {
                return false;
            }
            let m: usize = if to_bound { n - 1 } else { n };
            if let Type::Optional(fi) = &f {
                return self.assignable_within(fi, inner, m);
            }
            return self.assignable_within(&f, inner, m);
        }
        self.unify(&f, &t)
    }
}

/// A type that is no bound variable stands for itself.
proof fn lemma_shallow_unbound(s: Subst, t: TypeV)
    ensures
        !is_bound(s, t) ==> shallow(s, t) == t,
{
    unfold_shallow_n(s, t, s.len());
}

fn same_keys(x: &Fields, y: &Fields) -> (r: bool)
    ensures
        r == (keys_of(x@) == keys_of(y@)),
        r ==> x@.len() == y@.len(),
{
    let ghost kx = keys_of(x@);
    let ghost ky = keys_of(y@);
    if x.len() != y.len() {
        assert(kx.len() != ky.len());
        return false;
    }
    let mut i: usize = 0;
    while i < x.len()
        invariant
            kx == keys_of(x@),
            ky == keys_of(y@),
            x@.len() == y@.len(),
            i <= x@.len(),
            forall|k: int| 0 <= k < i ==> kx[k] == ky[k],
        decreases x@.len() - i,
    {
        if !same(x.key(i).as_str(), y.key(i).as_str()) {
            assert(kx[i as int] != ky[i as int]);
            return false;
        }
        i += 1;
    }
    assert(kx =~= ky);
    true
}

/// Host environment types the checker needs (the typed counterpart of
/// [`crate::resolve::ResolveConfig`]).
#[derive(Debug)]
pub struct TypeConfig {
    /// Host-registered function name and its signature.
    pub host_functions: NameMap<FnType>,
    /// Host memory binding name and its type (commonly a [`Type::Record`]).
    pub memory: NameMap<Type>,
}

pub ghost struct TypeConfigV {
    pub host_functions: Seq<(Seq<char>, FnTypeV)>,
    pub memory: Seq<(Seq<char>, TypeV)>,
}

impl View for TypeConfig {
    type V = TypeConfigV;

    open spec fn view(&self) -> TypeConfigV {
        TypeConfigV { host_functions: self.host_functions@, memory: self.memory@ }
    }
}

impl Default for TypeConfig {
    fn default() -> (r: Self)
        ensures
            r@.host_functions.len() == 0,
            r@.memory.len() == 0,
    {
        TypeConfig { host_functions: NameMap::new(), memory: NameMap::new() }
    }
}

impl TypeConfig {
    /// Derive the name-only [`crate::resolve::ResolveConfig`] implied by this config so a
    /// single source of truth drives both resolution and type checking.
    pub fn to_resolve_config(&self) -> (r: ResolveConfig)
        ensures
            r@ == self@.names(),
    {
        let mut host: Vec<String> = Vec::new();
        let mut i: usize = 0;
        while i < self.host_functions.len()
            invariant
                i <= self@.host_functions.len(),
                strs_v(host@) == keys_of(self@.host_functions).subrange(0, i as int),
            decreases self@.host_functions.len() - i,
        {
            let ghost before = host@;
            let k = self.host_functions.key(i).clone();
            host.push(k);
            assert(strs_v(host@) =~= strs_v(before).push(k@));
            i += 1;
            assert(strs_v(host@) =~= keys_of(self@.host_functions).subrange(0, i as int));
        }
        let mut memory: Vec<String> = Vec::new();
        let mut j: usize = 0;
        while j < self.memory.len()
            invariant
                j <= self@.memory.len(),
                strs_v(memory@) == keys_of(self@.memory).subrange(0, j as int),
            decreases self@.memory.len() - j,
        {
            let ghost before = memory@;
            let k = self.memory.key(j).clone();
            memory.push(k);
            assert(strs_v(memory@) =~= strs_v(before).push(k@));
            j += 1;
            assert(strs_v(memory@) =~= keys_of(self@.memory).subrange(0, j as int));
        }
        assert(strs_v(host@) =~= keys_of(self@.host_functions));
        assert(strs_v(memory@) =~= keys_of(self@.memory));
        ResolveConfig { host_functions: host, memory }
    }
}

impl TypeConfigV {
    /// The names that this configuration offers.
    pub open spec fn names(self) -> ResolveConfigV {
        ResolveConfigV {
            host_functions: keys_of(self.host_functions),
            memory: keys_of(self.memory),
        }
    }
}

} // verus!
