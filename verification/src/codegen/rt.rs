//! The runtime context of compiled code.
//!
//! Compiled code passes numbers and bools unboxed; every reference value flows as a handle,
//! an index into the value table of the call's [`RtCtx`]. Building an array, reading a field
//! or calling a builtin goes through one of the functions here. Scalars are boxed into
//! handles only at these boundaries.
//!
//! The first error of a call is kept in the context; a function that fails yields [`ERR`].
use std::collections::BTreeMap;
use vstd::prelude::*;
use vstd::utf8::encode_utf8;
use crate::agreement::handles::{shim, truth, words1, words2, words3};
use crate::agreement::native::number;
use crate::agreement::Answers;
use crate::codegen::translate::Shim;
use crate::names::{get_of, NameMap};
use crate::number::{index, index_of, is_nan, order};
use crate::resolve::strs_v;
use crate::runtime::eval::{
    answer, answer_of, field_value, field_value_of, member_call, member_call_of, value_call,
    value_call_of, Outcome, OutcomeV, Reply, Request, RequestV,
};
use crate::runtime::repr::Repr;
use crate::text::{cat2, cat3, cat4, cat5, dec, dec_string, own, same};
use crate::value::{
    array_at, cell_at, closure_at, field_read, frozen_error, frozen_error_of, frozen_value,
    is_frozen, key_values, kind_name_of, is_foreign, same_value, table_at, table_written, truthy,
    value_eq, values_v, Heap, HeapV, ObjV, RunError, RunErrorV, Value, ValueV,
};

verus! {

/// A reference-value handle: an index into the value table. Handle 0 is always `nil`.
pub type Handle = u64;

/// The null handle: `nil`.
pub const NIL: Handle = 0;

/// Yielded by a function that failed. Never a valid handle.
pub const ERR: Handle = 0xffff_ffff_ffff_ffff;

/// Constant pools, interned while code is generated. Compiled code refers to their entries
/// by index.
#[derive(Debug)]
pub struct Pools {
    /// Constant string literals.
    pub strings: Vec<String>,
    /// Field and map-key names.
    pub names: Vec<String>,
    /// Host function names.
    pub host_fns: Vec<String>,
    /// Plain builtins (`tostring`, `tonumber`).
    pub builtin_values: Vec<String>,
    /// Namespace members (`math.floor`) as namespace and member.
    pub builtin_members: Vec<(String, String)>,
    /// Namespace fields (`math.pi`) as namespace and field.
    pub namespace_fields: Vec<(String, String)>,
    /// Host memory names.
    pub memories: Vec<String>,
    /// Names of lifted closures.
    pub closure_names: Vec<String>,
    /// Names of constants that are read through the runtime.
    pub constants: Vec<String>,
}

/// The counterparts of a list of pairs of names.
pub open spec fn name_pairs_v(v: Seq<(String, String)>) -> Seq<(Seq<char>, Seq<char>)> {
    Seq::new(v.len(), |i: int| (v[i].0@, v[i].1@))
}

pub ghost struct PoolsV {
    pub strings: Seq<Seq<char>>,
    pub names: Seq<Seq<char>>,
    pub host_fns: Seq<Seq<char>>,
    pub builtin_values: Seq<Seq<char>>,
    pub builtin_members: Seq<(Seq<char>, Seq<char>)>,
    pub namespace_fields: Seq<(Seq<char>, Seq<char>)>,
    pub memories: Seq<Seq<char>>,
    pub closure_names: Seq<Seq<char>>,
    pub constants: Seq<Seq<char>>,
}

impl View for Pools {
    type V = PoolsV;

    open spec fn view(&self) -> PoolsV {
        PoolsV {
            strings: strs_v(self.strings@),
            names: strs_v(self.names@),
            host_fns: strs_v(self.host_fns@),
            builtin_values: strs_v(self.builtin_values@),
            builtin_members: name_pairs_v(self.builtin_members@),
            namespace_fields: name_pairs_v(self.namespace_fields@),
            memories: strs_v(self.memories@),
            closure_names: strs_v(self.closure_names@),
            constants: strs_v(self.constants@),
        }
    }
}

/// The first position from `i` on that holds `x`.
pub open spec fn first_at<T>(pool: Seq<T>, x: T, i: int) -> Option<int>
    decreases pool.len() - i,
{
    if i < 0 || i >= pool.len() {
        None
    } else if pool[i] == x {
        Some(i)
    } else {
        first_at(pool, x, i + 1)
    }
}

/// The pool with `x` in it, and its index.
pub open spec fn interned_in<T>(pool: Seq<T>, x: T) -> (Seq<T>, u32) {
    match first_at(pool, x, 0) {
        Some(i) => (pool, i as u32),
        None => (pool.push(x), pool.len() as u32),
    }
}

proof fn lemma_first_at<T>(pool: Seq<T>, x: T, i: int)
    requires
        0 <= i <= pool.len(),
    ensures
        match first_at(pool, x, i) {
            Some(j) => i <= j < pool.len() && pool[j] == x,
            None => forall|j: int| i <= j < pool.len() ==> (#[trigger] pool[j]) != x,
        },
    decreases pool.len() - i,
{
    if i < pool.len() && pool[i] != x {
        lemma_first_at(pool, x, i + 1);
    }
}

/// What is interned is found at its index, and stays there when more is interned; interning
/// it again changes nothing and yields the same index.
pub proof fn law_interning<T>(pool: Seq<T>, x: T, y: T)
    requires
        pool.len() < u32::MAX,
    ensures
        ({
            let (p1, i) = interned_in(pool, x);
            let (p2, _) = interned_in(p1, y);
            &&& i < p1.len() && p1[i as int] == x
            &&& p2[i as int] == x
            &&& interned_in(p1, x) == (p1, i)
            &&& forall|k: int| 0 <= k < pool.len() ==> (#[trigger] p1[k]) == pool[k]
        }),
{
    lemma_first_at(pool, x, 0);
    let (p1, i) = interned_in(pool, x);
    lemma_first_at(p1, x, 0);
    lemma_first_at(p1, y, 0);
    if first_at(pool, x, 0) is None {
        lemma_first_skip(pool, p1, x, 0);
    }
}

proof fn lemma_first_skip<T>(pool: Seq<T>, p1: Seq<T>, x: T, i: int)
    requires
        p1 == pool.push(x),
        0 <= i <= pool.len(),
        forall|j: int| i <= j < pool.len() ==> (#[trigger] pool[j]) != x,
    ensures
        first_at(p1, x, i) == Some(pool.len() as int),
    decreases pool.len() - i,
{
    if i < pool.len() {
        assert(p1[i] == pool[i]);
        lemma_first_skip(pool, p1, x, i + 1);
    }
}

fn intern_text(pool: &mut Vec<String>, s: &str) -> (r: u32)
    ensures
        (strs_v(final(pool)@), r) == interned_in(strs_v(old(pool)@), s@),
{
    let ghost pv = strs_v(pool@);
    let n: usize = pool.len();
    let mut i: usize = 0;
    while i < n
        invariant
            i <= n,
            n == pool@.len(),
            *pool == *old(pool),
            pv == strs_v(pool@),
            first_at(pv, s@, i as int) == first_at(pv, s@, 0),
        decreases n - i,
    {
        assert(pv[i as int] == pool@[i as int]@);
        if same(pool[i].as_str(), s) {
            return #[verifier::truncate] (i as u32);
        }
        i += 1;
    }
    pool.push(own(s));
    assert(strs_v(pool@) =~= pv.push(s@));
    #[verifier::truncate]
    (n as u32)
}

fn intern_pair(pool: &mut Vec<(String, String)>, a: &str, b: &str) -> (r: u32)
    ensures
        (name_pairs_v(final(pool)@), r) == interned_in(name_pairs_v(old(pool)@), (a@, b@)),
{
    let ghost pv = name_pairs_v(pool@);
    let n: usize = pool.len();
    let mut i: usize = 0;
    while i < n
        invariant
            i <= n,
            n == pool@.len(),
            *pool == *old(pool),
            pv == name_pairs_v(pool@),
            first_at(pv, (a@, b@), i as int) == first_at(pv, (a@, b@), 0),
        decreases n - i,
    {
        assert(pv[i as int] == (pool@[i as int].0@, pool@[i as int].1@));
        if same(pool[i].0.as_str(), a) && same(pool[i].1.as_str(), b) {
            return #[verifier::truncate] (i as u32);
        }
        i += 1;
    }
    pool.push((own(a), own(b)));
    assert(name_pairs_v(pool@) =~= pv.push((a@, b@)));
    #[verifier::truncate]
    (n as u32)
}

/// Pools with nothing in them.
pub open spec fn empty_pools() -> PoolsV {
    PoolsV {
        strings: Seq::empty(),
        names: Seq::empty(),
        host_fns: Seq::empty(),
        builtin_values: Seq::empty(),
        builtin_members: Seq::empty(),
        namespace_fields: Seq::empty(),
        memories: Seq::empty(),
        closure_names: Seq::empty(),
        constants: Seq::empty(),
    }
}

impl Default for Pools {
    fn default() -> (r: Self)
        ensures
            r@ == empty_pools(),
    {
        let r = Pools {
            strings: Vec::new(),
            names: Vec::new(),
            host_fns: Vec::new(),
            builtin_values: Vec::new(),
            builtin_members: Vec::new(),
            namespace_fields: Vec::new(),
            memories: Vec::new(),
            closure_names: Vec::new(),
            constants: Vec::new(),
        };
        assert(strs_v(Seq::<String>::empty()) =~= Seq::<Seq<char>>::empty());
        assert(name_pairs_v(Seq::<(String, String)>::empty()) =~= Seq::<
            (Seq<char>, Seq<char>),
        >::empty());
        r
    }
}

impl Pools {
    pub fn intern_string(&mut self, s: &str) -> (r: u32)
        ensures
            ({
                let (p, i) = interned_in(old(self)@.strings, s@);
                final(self)@ == (PoolsV { strings: p, ..old(self)@ }) && r == i
            }),
    {
        intern_text(&mut self.strings, s)
    }

    pub fn intern_name(&mut self, s: &str) -> (r: u32)
        ensures
            ({
                let (p, i) = interned_in(old(self)@.names, s@);
                final(self)@ == (PoolsV { names: p, ..old(self)@ }) && r == i
            }),
    {
        intern_text(&mut self.names, s)
    }

    pub fn intern_host(&mut self, s: &str) -> (r: u32)
        ensures
            ({
                let (p, i) = interned_in(old(self)@.host_fns, s@);
                final(self)@ == (PoolsV { host_fns: p, ..old(self)@ }) && r == i
            }),
    {
        intern_text(&mut self.host_fns, s)
    }

    pub fn intern_builtin_value(&mut self, s: &str) -> (r: u32)
        ensures
            ({
                let (p, i) = interned_in(old(self)@.builtin_values, s@);
                final(self)@ == (PoolsV { builtin_values: p, ..old(self)@ }) && r == i
            }),
    {
        intern_text(&mut self.builtin_values, s)
    }

    pub fn intern_builtin_member(&mut self, ns: &str, member: &str) -> (r: u32)
        ensures
            ({
                let (p, i) = interned_in(old(self)@.builtin_members, (ns@, member@));
                final(self)@ == (PoolsV { builtin_members: p, ..old(self)@ }) && r == i
            }),
    {
        intern_pair(&mut self.builtin_members, ns, member)
    }

    pub fn intern_namespace_field(&mut self, ns: &str, field: &str) -> (r: u32)
        ensures
            ({
                let (p, i) = interned_in(old(self)@.namespace_fields, (ns@, field@));
                final(self)@ == (PoolsV { namespace_fields: p, ..old(self)@ }) && r == i
            }),
    {
        intern_pair(&mut self.namespace_fields, ns, field)
    }

    pub fn intern_memory(&mut self, s: &str) -> (r: u32)
        ensures
            ({
                let (p, i) = interned_in(old(self)@.memories, s@);
                final(self)@ == (PoolsV { memories: p, ..old(self)@ }) && r == i
            }),
    {
        intern_text(&mut self.memories, s)
    }

    pub fn intern_closure_name(&mut self, s: &str) -> (r: u32)
        ensures
            ({
                let (p, i) = interned_in(old(self)@.closure_names, s@);
                final(self)@ == (PoolsV { closure_names: p, ..old(self)@ }) && r == i
            }),
    {
        intern_text(&mut self.closure_names, s)
    }

    pub fn intern_constant(&mut self, s: &str) -> (r: u32)
        ensures
            ({
                let (p, i) = interned_in(old(self)@.constants, s@);
                final(self)@ == (PoolsV { constants: p, ..old(self)@ }) && r == i
            }),
    {
        intern_text(&mut self.constants, s)
    }
}

/// The state of one invocation. The value table is emptied between invocations; the objects
/// on the heap, which memory and escaped closures refer to, stay.
#[derive(Debug)]
pub struct RtCtx {
    values: Vec<Value>,
    heap: Heap,
    pools: Pools,
    /// Which host functions are registered, by their index in the pool.
    hosts: Vec<bool>,
    /// Memory bindings, by their index in the pool; none where nothing was bound.
    memory: Vec<Option<Value>>,
    /// The constants evaluated so far in this invocation.
    consts: BTreeMap<u32, Handle>,
    /// The objects that these constants consist of, from one to before another.
    frozen: Vec<(usize, usize)>,
    /// The compiled module that this context belongs to.
    origin: u64,
    /// Address of every compiled function, by name.
    code_addrs: NameMap<u64>,
    /// The first error raised during this invocation, if any.
    error: Option<RunError>,
}

pub ghost struct CtxV {
    pub values: Seq<ValueV>,
    pub heap: HeapV,
    pub pools: PoolsV,
    pub hosts: Seq<bool>,
    pub memory: Seq<Option<ValueV>>,
    pub consts: Map<u32, Handle>,
    pub frozen: Seq<(usize, usize)>,
    pub origin: u64,
    pub code_addrs: Seq<(Seq<char>, u64)>,
    pub error: Option<RunErrorV>,
}

/// The counterparts of optional values.
pub open spec fn optional_v(v: Seq<Option<Value>>) -> Seq<Option<ValueV>> {
    Seq::new(
        v.len(),
        |i: int|
            match v[i] {
                Some(x) => Some(x@),
                None => None,
            },
    )
}

impl CtxV {
    /// The value of a handle; nil for an index beyond the table.
    pub open spec fn at(self, h: Handle) -> ValueV {
        if h < self.values.len() {
            self.values[h as int]
        } else {
            ValueV::Nil
        }
    }

    /// The table with `v` in it, and its handle; nil is always handle 0.
    pub open spec fn boxed(self, v: ValueV) -> (CtxV, Handle) {
        if v is Nil {
            (self, NIL)
        } else {
            (CtxV { values: self.values.push(v), ..self }, self.values.len() as u64)
        }
    }

    /// An object and its handle.
    pub open spec fn placed(self, o: ObjV, v: ValueV) -> (CtxV, Handle) {
        CtxV { heap: self.heap.push(o), ..self }.boxed(v)
    }

    /// A failure: the first one is kept.
    pub open spec fn failed(self, e: RunErrorV) -> CtxV {
        if self.error is Some {
            self
        } else {
            CtxV { error: Some(e), ..self }
        }
    }

    /// The text of a handle; empty if it is no string.
    pub open spec fn text(self, h: Handle) -> Seq<char> {
        match self.at(h) {
            ValueV::Str(s) => s,
            _ => Seq::empty(),
        }
    }

    /// The values of handles.
    pub open spec fn all_at(self, hs: Seq<Handle>) -> Seq<ValueV> {
        Seq::new(hs.len(), |i: int| self.at(hs[i]))
    }

    /// A result as a handle, or the failure.
    pub open spec fn yielded(self, r: Result<ValueV, RunErrorV>) -> (CtxV, Handle) {
        match r {
            Ok(v) => self.boxed(v),
            Err(e) => (self.failed(e), ERR),
        }
    }

    /// An argument as a word, by its declared class: a scalar has to be one.
    pub open spec fn encoded(self, v: ValueV, r: Repr) -> Result<(CtxV, u64), RunErrorV> {
        match r {
            Repr::Number => match v {
                ValueV::Number(b) => Ok((self, b)),
                _ => Err(argument_error("number"@, v)),
            },
            Repr::Bool => match v {
                ValueV::Bool(b) => Ok(
                    (
                        self,
                        if b {
                            1
                        } else {
                            0
                        },
                    ),
                ),
                _ => Err(argument_error("bool"@, v)),
            },
            Repr::Ptr => Ok(self.boxed(v)),
            Repr::Unit => Ok((self, 0)),
        }
    }

    /// A word as a value, by its class.
    pub open spec fn decoded(self, bits: u64, r: Repr) -> ValueV {
        match r {
            Repr::Number => ValueV::Number(bits),
            Repr::Bool => ValueV::Bool(bits != 0),
            Repr::Ptr => self.at(bits),
            Repr::Unit => ValueV::Nil,
        }
    }

    /// Arguments as words, from parameter `i` on.
    #[verifier::opaque]
    pub open spec fn encoded_all(
        self,
        params: Seq<Repr>,
        args: Seq<ValueV>,
        i: int,
        acc: Seq<u64>,
    ) -> (CtxV, Result<Seq<u64>, RunErrorV>)
        decreases params.len() - i,
    {
        if 0 <= i < params.len() && i < args.len() {
            match self.encoded(args[i], params[i]) {
                Ok((c, w)) => c.encoded_all(params, args, i + 1, acc.push(w)),
                Err(e) => (self, Err(e)),
            }
        } else {
            (self, Ok(acc))
        }
    }

    /// A write to an object that is part of a constant fails; any other is made.
    pub open spec fn written(self, base: ValueV, r: Result<HeapV, RunErrorV>) -> CtxV {
        if is_frozen(self.frozen, base) {
            self.failed(frozen_error_of())
        } else {
            match r {
                Ok(h) => CtxV { heap: h, ..self },
                Err(_) => self,
            }
        }
    }
}

/// The refusal of an argument of another shape.
pub open spec fn argument_error(what: Seq<char>, v: ValueV) -> RunErrorV {
    RunErrorV::Runtime("expected a "@ + what + " argument, found "@ + kind_name_of(v))
}

fn argument_mismatch(what: &str, v: &Value) -> (r: RunError)
    ensures
        r@ == argument_error(what@, v@),
{
    RunError::Runtime(cat4("expected a ", what, " argument, found ", v.kind_name()))
}

/// The failure of a value that is not of the class that it is used as.
pub open spec fn unbox_error(what: Seq<char>, v: ValueV) -> RunErrorV {
    RunErrorV::Internal("expected a "@ + what + ", found "@ + kind_name_of(v))
}

/// Whether a value is one of a class's.
pub open spec fn fits_repr(v: ValueV, r: Repr) -> bool {
    match r {
        Repr::Number => v is Number,
        Repr::Bool => v is Bool,
        Repr::Ptr => true,
        Repr::Unit => v is Nil,
    }
}

/// A value that crosses the boundary as a word of its class comes out as it was.
pub proof fn law_words_round_trip(c: CtxV, v: ValueV, r: Repr)
    requires
        fits_repr(v, r),
        0 < c.values.len() < u64::MAX,
        c.values[0] == ValueV::Nil,
    ensures
        c.encoded(v, r) is Ok,
        ({
            let (c1, w) = c.encoded(v, r)->Ok_0;
            c1.decoded(w, r) == v
        }),
{
}

/// A scalar parameter takes only values of its class.
pub proof fn law_scalars_are_checked(c: CtxV, v: ValueV, r: Repr)
    requires
        r == Repr::Number || r == Repr::Bool,
    ensures
        c.encoded(v, r) is Ok <==> fits_repr(v, r),
{
}

/// Boxing a value leaves the handles given out before as they are.
pub proof fn law_boxing_keeps_handles(c: CtxV, v: ValueV, h: Handle)
    requires
        h < c.values.len(),
    ensures
        c.boxed(v).0.at(h) == c.at(h),
{
}

/// What a builtin call comes to: a handle, or a request whose answer is the result.
#[derive(Debug)]
pub enum Called {
    Handle(Handle),
    Ask(Request),
}

impl View for RtCtx {
    type V = CtxV;

    closed spec fn view(&self) -> CtxV {
        CtxV {
            values: values_v(self.values@),
            heap: self.heap@,
            pools: self.pools@,
            hosts: self.hosts@,
            memory: optional_v(self.memory@),
            consts: self.consts@,
            frozen: self.frozen@,
            origin: self.origin,
            code_addrs: self.code_addrs@,
            error: match self.error {
                Some(e) => Some(e@),
                None => None,
            },
        }
    }
}

/// A call that yielded a builtin's outcome.
pub open spec fn called(c: CtxV, r: Result<OutcomeV, RunErrorV>) -> (CtxV, Option<Handle>) {
    match r {
        Ok(OutcomeV::Value(v)) => {
            let (c1, h) = c.boxed(v);
            (c1, Some(h))
        },
        Ok(OutcomeV::Ask(_)) => (c, None),
        Err(e) => (c.failed(e), Some(ERR)),
    }
}

impl RtCtx {
    /// Build a context. Host flags and memory stand in the order of the pools.
    pub fn new(
        pools: Pools,
        hosts: Vec<bool>,
        memory: Vec<Option<Value>>,
        code_addrs: NameMap<u64>,
        heap: Heap,
        origin: u64,
    ) -> (r: Self)
        ensures
            r@ == (CtxV {
                values: seq![ValueV::Nil],
                heap: heap@,
                pools: pools@,
                hosts: hosts@,
                memory: optional_v(memory@),
                consts: Map::empty(),
                frozen: Seq::empty(),
                origin,
                code_addrs: code_addrs@,
                error: None,
            }),
    {
        let mut values: Vec<Value> = Vec::new();
        values.push(Value::Nil);
        assert(values_v(values@) =~= seq![ValueV::Nil]);
        let r = RtCtx {
            values,
            heap,
            pools,
            hosts,
            memory,
            consts: BTreeMap::new(),
            frozen: Vec::new(),
            origin,
            code_addrs,
            error: None,
        };
        proof {
            broadcast use vstd::std_specs::btree::group_btree_axioms;

            assert(r@.consts =~= Map::<u32, Handle>::empty());
        }
        r
    }

    /// Box a value into the table. `nil` always maps to [`NIL`].
    pub fn intern(&mut self, v: Value) -> (r: Handle)
        ensures
            (final(self)@, r) == old(self)@.boxed(v@),
    {
        if let Value::Nil = v {
            return NIL;
        }
        let ghost vv = v@;
        let n: usize = self.values.len();
        self.values.push(v);
        assert(self@.values =~= old(self)@.values.push(vv));
        n as u64
    }

    /// Read a handle's value.
    pub fn value(&self, h: Handle) -> (r: Value)
        ensures
            r@ == self@.at(h),
    {
        if h < self.values.len() as u64 {
            self.values[h as usize].dup()
        } else {
            Value::Nil
        }
    }

    /// The objects that values refer to.
    pub fn heap(&self) -> (r: &Heap)
        ensures
            r@ == self@.heap,
    {
        &self.heap
    }

    /// The objects, for the host to build arguments with.
    pub fn heap_mut(&mut self) -> (r: &mut Heap)
        ensures
            r@ == old(self)@.heap,
            final(self)@ == (CtxV { heap: final(r)@, ..old(self)@ }),
    {
        &mut self.heap
    }

    /// Encode a call argument into a word by its declared [`Repr`]. Scalars become raw bits,
    /// and have to be of their class; only reference values enter the table.
    pub fn encode_arg(&mut self, v: Value, repr: Repr) -> (r: Result<u64, RunError>)
        ensures
            match r {
                Ok(w) => old(self)@.encoded(v@, repr) == Ok::<(CtxV, u64), RunErrorV>(
                    (final(self)@, w),
                ),
                Err(e) => old(self)@.encoded(v@, repr) == Err::<(CtxV, u64), RunErrorV>(e@)
                    && final(self)@ == old(self)@,
            },
    {
        match repr {
            Repr::Number => match v {
                Value::Number(b) => Ok(b),
                _ => Err(argument_mismatch("number", &v)),
            },
            Repr::Bool => match v {
                Value::Bool(b) => Ok(
                    if b {
                        1
                    } else {
                        0
                    },
                ),
                _ => Err(argument_mismatch("bool", &v)),
            },
            Repr::Ptr => Ok(self.intern(v)),
            Repr::Unit => Ok(0),
        }
    }

    /// Encode call arguments: one word per declared parameter.
    pub fn encode_args(&mut self, params: &Vec<Repr>, args: &Vec<Value>) -> (r: Result<
        Vec<u64>,
        RunError,
    >)
        ensures
            match r {
                Ok(ws) => old(self)@.encoded_all(params@, values_v(args@), 0, Seq::empty()) == (
                    final(self)@,
                    Ok::<Seq<u64>, RunErrorV>(ws@),
                ),
                Err(e) => old(self)@.encoded_all(params@, values_v(args@), 0, Seq::empty()) == (
                    final(self)@,
                    Err::<Seq<u64>, RunErrorV>(e@),
                ),
            },
    {
        let ghost av = values_v(args@);
        let ghost whole = self@.encoded_all(params@, av, 0, Seq::empty());
        let mut out: Vec<u64> = Vec::new();
        let mut i: usize = 0;
        while i < params.len() && i < args.len()
            invariant
                i <= params@.len(),
                i <= args@.len(),
                av == values_v(args@),
                whole == old(self)@.encoded_all(params@, av, 0, Seq::empty()),
                self@.encoded_all(params@, av, i as int, out@) == whole,
            decreases params@.len() - i,
        {
            proof {
                unfold_encoded_all(self@, params@, av, i as int, out@);
                assert(av[i as int] == args@[i as int]@);
            }
            match self.encode_arg(args[i].dup(), params[i]) {
                Ok(w) => {
                    out.push(w);
                },
                Err(e) => {
                    return Err(e);
                },
            }
            i += 1;
        }
        proof {
            unfold_encoded_all(self@, params@, av, i as int, out@);
        }
        Ok(out)
    }

    /// Decode a result word by the declared [`Repr`].
    pub fn decode_ret(&self, bits: u64, repr: Repr) -> (r: Value)
        ensures
            r@ == self@.decoded(bits, repr),
    {
        match repr {
            Repr::Number => Value::Number(bits),
            Repr::Bool => Value::Bool(bits != 0),
            Repr::Ptr => self.value(bits),
            Repr::Unit => Value::Nil,
        }
    }

    /// Reset for the next invocation: an empty table (but for `nil`), no constants and no
    /// error. Bindings and objects are kept.
    pub fn reset(&mut self)
        ensures
            final(self)@ == (CtxV {
                values: seq![ValueV::Nil],
                consts: Map::empty(),
                frozen: Seq::empty(),
                error: None,
                ..old(self)@
            }),
    {
        self.values.clear();
        self.values.push(Value::Nil);
        self.error = None;
        self.consts = BTreeMap::new();
        self.frozen = Vec::new();
        proof {
            broadcast use vstd::std_specs::btree::group_btree_axioms;

            assert(self@.consts =~= Map::<u32, Handle>::empty());
        }
        assert(self@.values =~= seq![ValueV::Nil]);
    }

    /// Replace the host and memory bindings.
    pub fn rebind(&mut self, hosts: Vec<bool>, memory: Vec<Option<Value>>)
        ensures
            final(self)@ == (CtxV { hosts: hosts@, memory: optional_v(memory@), ..old(self)@ }),
    {
        self.hosts = hosts;
        self.memory = memory;
    }

    /// Whether a function of that name was compiled.
    pub fn has_code(&self, name: &str) -> (r: bool)
        ensures
            r == get_of(self@.code_addrs, name@) is Some,
    {
        self.code_addrs.contains_key(name)
    }

    /// Take the error of the invocation, if there was one.
    pub fn take_error(&mut self) -> (r: Option<RunError>)
        ensures
            final(self)@ == (CtxV { error: None, ..old(self)@ }),
            match r {
                Some(e) => old(self)@.error == Some(e@),
                None => old(self)@.error is None,
            },
    {
        self.error.take()
    }

    /// Note a failure.
    pub fn fail(&mut self, e: RunError) -> (r: Handle)
        ensures
            final(self)@ == old(self)@.failed(e@),
            r == ERR,
    {
        if self.error.is_none() {
            self.error = Some(e);
        }
        ERR
    }

    pub fn box_number(&mut self, bits: u64) -> (r: Handle)
        ensures
            (final(self)@, r) == old(self)@.boxed(ValueV::Number(bits)),
            forall|o: Answers|
                #[trigger]
                shim(o, old(self)@, Shim::BoxNumber, words1(bits as int)) == Some((final(self)@, r as int)),
    {
        self.intern(Value::Number(bits))
    }

    pub fn box_bool(&mut self, b: bool) -> (r: Handle)
        ensures
            (final(self)@, r) == old(self)@.boxed(ValueV::Bool(b)),
            forall|o: Answers|
                #[trigger]
                shim(o, old(self)@, Shim::BoxBool, words1(truth(b))) == Some((final(self)@, r as int)),
    {
        self.intern(Value::Bool(b))
    }

    /// The number behind a handle; a failure if it is none.
    pub fn unbox_number(&mut self, h: Handle) -> (r: u64)
        ensures
            match old(self)@.at(h) {
                ValueV::Number(b) => r == b && final(self)@ == old(self)@,
                v => r == 0 && final(self)@ == old(self)@.failed(unbox_error("number"@, v)),
            },
            forall|o: Answers|
                #[trigger]
                shim(o, old(self)@, Shim::UnboxNumber, words1(h as int)) == Some((final(self)@, r as int)),
    {
        let v = self.value(h);
        match v {
            Value::Number(b) => b,
            _ => {
                let e = RunError::Internal(cat4("expected a ", "number", ", found ", v.kind_name()));
                self.fail(e);
                0
            },
        }
    }

    /// The bool behind a handle; a failure if it is none.
    pub fn unbox_bool(&mut self, h: Handle) -> (r: bool)
        ensures
            match old(self)@.at(h) {
                ValueV::Bool(b) => r == b && final(self)@ == old(self)@,
                v => !r && final(self)@ == old(self)@.failed(unbox_error("bool"@, v)),
            },
            forall|o: Answers|
                #[trigger]
                shim(o, old(self)@, Shim::UnboxBool, words1(h as int)) == Some((final(self)@, truth(r))),
    {
        let v = self.value(h);
        match v {
            Value::Bool(b) => b,
            _ => {
                let e = RunError::Internal(cat4("expected a ", "bool", ", found ", v.kind_name()));
                self.fail(e);
                false
            },
        }
    }

    /// The value of a constant, if this invocation has evaluated it.
    pub fn const_cached(&self, id: u32) -> (r: Option<Handle>)
        ensures
            r == if self@.consts.dom().contains(id) {
                Some(self@.consts[id])
            } else {
                None
            },
    {
        broadcast use vstd::std_specs::btree::group_btree_axioms;

        match self.consts.get(&id) {
            Some(h) => Some(*h),
            None => None,
        }
    }

    /// How many objects there are: what a constant consists of comes after this point.
    pub fn const_mark(&self) -> (r: usize)
        ensures
            r == self@.heap.len(),
    {
        self.heap.len()
    }

    /// Keep the value of a constant for the rest of this invocation, and let nothing write to
    /// what was created since `mark`.
    pub fn const_store(&mut self, id: u32, mark: usize, h: Handle)
        ensures
            final(self)@ == (CtxV {
                consts: old(self)@.consts.insert(id, h),
                frozen: old(self)@.frozen.push((mark, old(self)@.heap.len() as usize)),
                ..old(self)@
            }),
    {
        broadcast use vstd::std_specs::btree::group_btree_axioms;

        self.consts.insert(id, h);
        let end: usize = self.heap.len();
        self.frozen.push((mark, end));
    }

    pub fn const_string(&mut self, idx: u32) -> (r: Handle)
        requires
            idx < old(self)@.pools.strings.len(),
        ensures
            (final(self)@, r) == old(self)@.boxed(
                ValueV::Str(old(self)@.pools.strings[idx as int]),
            ),
            forall|o: Answers|
                #[trigger]
                shim(o, old(self)@, Shim::ConstString, words1(idx as int)) == Some((final(self)@, r as int)),
    {
        let s = self.pools.strings[idx as usize].clone();
        self.intern(Value::Str(s))
    }

    /// The memory bound to a name; a failure if nothing was bound.
    pub fn memory_ref(&mut self, id: u32) -> (r: Handle)
        requires
            id < old(self)@.pools.memories.len(),
        ensures
            (final(self)@, r) == if id < old(self)@.memory.len() && old(self)@.memory[id as int]
                is Some {
                old(self)@.boxed(old(self)@.memory[id as int]->0)
            } else {
                (
                    old(self)@.failed(
                        RunErrorV::Runtime(
                            "memory `"@ + old(self)@.pools.memories[id as int]
                                + "` was not provided"@,
                        ),
                    ),
                    ERR,
                )
            },
    {
        if (id as usize) < self.memory.len() {
            if let Some(v) = &self.memory[id as usize] {
                let v = v.dup();
                return self.intern(v);
            }
        }
        let msg = cat3("memory `", self.pools.memories[id as usize].as_str(), "` was not provided");
        self.fail(RunError::Runtime(msg))
    }

    pub fn namespace_field(&mut self, id: u32) -> (r: Handle)
        requires
            id < old(self)@.pools.namespace_fields.len(),
        ensures
            ({
                let (ns, field) = old(self)@.pools.namespace_fields[id as int];
                (final(self)@, r) == old(self)@.yielded(field_value_of(ns, field))
            }),
            forall|o: Answers|
                #[trigger]
                shim(o, old(self)@, Shim::NamespaceField, words1(id as int)) == Some((final(self)@, r as int)),
    {
        let out = {
            let pair = &self.pools.namespace_fields[id as usize];
            field_value(pair.0.as_str(), pair.1.as_str())
        };
        match out {
            Ok(v) => self.intern(v),
            Err(e) => self.fail(e),
        }
    }

    pub fn array_new(&mut self) -> (r: Handle)
        ensures
            (final(self)@, r) == old(self)@.placed(
                ObjV::Array(Seq::empty()),
                ValueV::Array(old(self)@.heap.len() as usize),
            ),
            forall|o: Answers, cap: int|
                #[trigger]
                shim(o, old(self)@, Shim::ArrayNew, words1(cap)) == Some(
                    (final(self)@, r as int),
                ),
    {
        let none: Vec<Value> = Vec::new();
        assert(values_v(none@) =~= Seq::<ValueV>::empty());
        let v = self.heap.array(none);
        self.intern(v)
    }

    pub fn array_push(&mut self, arr: Handle, elem: Handle)
        ensures
            final(self)@ == match array_at(old(self)@.heap, old(self)@.at(arr)) {
                Some(items) => CtxV {
                    heap: old(self)@.heap.update(
                        old(self)@.at(arr)->Array_0 as int,
                        ObjV::Array(items.push(old(self)@.at(elem))),
                    ),
                    ..old(self)@
                },
                None => old(self)@,
            },
            forall|o: Answers|
                #[trigger]
                shim(o, old(self)@, Shim::ArrayPush, words2(arr as int, elem as int)) == Some(
                    (final(self)@, 0int),
                ),
    {
        let a = self.value(arr);
        let v = self.value(elem);
        self.heap.array_push(&a, v);
    }

    pub fn table_new(&mut self) -> (r: Handle)
        ensures
            (final(self)@, r) == old(self)@.placed(
                ObjV::Table(Seq::empty()),
                ValueV::Table(old(self)@.heap.len() as usize),
            ),
            forall|o: Answers|
                #[trigger]
                shim(o, old(self)@, Shim::TableNew, Seq::empty()) == Some(
                    (final(self)@, r as int),
                ),
    {
        let v = self.heap.empty_table();
        self.intern(v)
    }

    /// Write to a table under a string key; nothing happens otherwise.
    pub fn table_set(&mut self, tbl: Handle, key: Handle, val: Handle)
        ensures
            final(self)@ == old(self)@.written(
                old(self)@.at(tbl),
                table_written(
                    old(self)@.heap,
                    old(self)@.at(tbl),
                    old(self)@.at(key),
                    old(self)@.at(val),
                ),
            ),
            forall|o: Answers|
                #[trigger]
                shim(o, old(self)@, Shim::MapSet, words3(tbl as int, key as int, val as int)) == Some((final(self)@, 0int)),
    {
        let t = self.value(tbl);
        let k = self.value(key);
        let v = self.value(val);
        if frozen_value(&self.frozen, &t) {
            self.fail(frozen_error());
            return;
        }
        let _ = self.heap.table_set(&t, &k, v);
    }

    /// Read an array element; nil beyond the end, at what is no index, and for what is no
    /// array.
    pub fn array_get(&mut self, arr: Handle, idx: u64) -> (r: Handle)
        ensures
            (final(self)@, r) == match (array_at(old(self)@.heap, old(self)@.at(arr)), index_of(idx)) {
                (Some(items), Some(i)) => if i <= items.len() {
                    old(self)@.boxed(items[i - 1])
                } else {
                    (old(self)@, NIL)
                },
                _ => (old(self)@, NIL),
            },
            forall|o: Answers|
                #[trigger]
                shim(o, old(self)@, Shim::ArrayGet, words2(arr as int, idx as int)) == Some((final(self)@, r as int)),
    {
        let a = self.value(arr);
        let elem = match self.heap.as_array(&a) {
            Some(items) => match index(idx) {
                Some(i) => if i <= items.len() as u64 {
                    Some(items[(i - 1) as usize].dup())
                } else {
                    None
                },
                None => None,
            },
            None => None,
        };
        match elem {
            Some(v) => self.intern(v),
            None => NIL,
        }
    }

    /// Write an array element, or add one at the end. Yields nothing where the index is no
    /// positive integer: the caller then says so with [`RtCtx::bad_index`].
    pub fn array_set(&mut self, arr: Handle, idx: u64, val: Handle) -> (r: Option<Handle>)
        ensures
            match array_at(old(self)@.heap, old(self)@.at(arr)) {
                None => r == Some(ERR) && final(self)@ == old(self)@.failed(
                    RunErrorV::Internal("array set on a non-array"@),
                ),
                Some(_) if is_frozen(old(self)@.frozen, old(self)@.at(arr)) => r == Some(ERR)
                    && final(self)@ == old(self)@.failed(frozen_error_of()),
                Some(items) => match index_of(idx) {
                    None => r is None && final(self)@ == old(self)@,
                    Some(i) => if i <= items.len() {
                        r == Some(NIL) && final(self)@ == (CtxV {
                            heap: old(self)@.heap.update(
                                old(self)@.at(arr)->Array_0 as int,
                                ObjV::Array(items.update(i - 1, old(self)@.at(val))),
                            ),
                            ..old(self)@
                        })
                    } else if i == items.len() + 1 {
                        r == Some(NIL) && final(self)@ == (CtxV {
                            heap: old(self)@.heap.update(
                                old(self)@.at(arr)->Array_0 as int,
                                ObjV::Array(items.push(old(self)@.at(val))),
                            ),
                            ..old(self)@
                        })
                    } else {
                        r == Some(ERR) && final(self)@ == old(self)@.failed(
                            RunErrorV::Runtime(
                                "array index "@ + dec(i as nat) + " is out of range (length "@ + dec(
                                    items.len(),
                                ) + "); arrays may only grow by one"@,
                            ),
                        )
                    },
                },
            },
            r == Some(NIL) ==> forall|o: Answers|
                #[trigger]
                shim(o, old(self)@, Shim::ArraySet, words3(arr as int, idx as int, val as int)) == Some(
                    (final(self)@, 0int),
                ),
    {
        let a = self.value(arr);
        let v = self.value(val);
        let n: usize = match self.heap.as_array(&a) {
            Some(items) => items.len(),
            None => {
                return Some(self.fail(RunError::internal("array set on a non-array")));
            },
        };
        if frozen_value(&self.frozen, &a) {
            return Some(self.fail(frozen_error()));
        }
        let i: u64 = match index(idx) {
            Some(i) => i,
            None => {
                return None;
            },
        };
        if i - 1 <= n as u64 {
            let k = Value::Number(idx);
            let _ = self.heap.array_set(&a, &k, v);
            return Some(NIL);
        }
        let at = dec_string(i);
        let len = dec_string(n as u64);
        let msg = cat5(
            "array index ",
            at.as_str(),
            " is out of range (length ",
            len.as_str(),
            "); arrays may only grow by one",
        );
        Some(self.fail(RunError::Runtime(msg)))
    }

    /// Note that an index, spelled `text`, is no positive integer.
    pub fn bad_index(&mut self, text: &str) -> (r: Handle)
        ensures
            final(self)@ == old(self)@.failed(
                RunErrorV::Runtime("array index "@ + text@ + " is not a positive integer"@),
            ),
            r == ERR,
    {
        self.fail(RunError::Runtime(cat3("array index ", text, " is not a positive integer")))
    }

    /// Read a table entry; nil where there is none.
    pub fn map_get(&mut self, map: Handle, key: Handle) -> (r: Handle)
        ensures
            (final(self)@, r) == match old(self)@.at(key) {
                ValueV::Str(k) => old(self)@.boxed(
                    field_read(old(self)@.heap, old(self)@.at(map), k),
                ),
                _ => (old(self)@, NIL),
            },
            forall|o: Answers|
                #[trigger]
                shim(o, old(self)@, Shim::MapGet, words2(map as int, key as int)) == Some((final(self)@, r as int)),
    {
        let m = self.value(map);
        match self.value(key) {
            Value::Str(k) => {
                let v = self.heap.field(&m, k.as_str());
                self.intern(v)
            },
            _ => NIL,
        }
    }

    pub fn field_get(&mut self, base: Handle, name_idx: u32) -> (r: Handle)
        requires
            name_idx < old(self)@.pools.names.len(),
        ensures
            (final(self)@, r) == old(self)@.boxed(
                field_read(
                    old(self)@.heap,
                    old(self)@.at(base),
                    old(self)@.pools.names[name_idx as int],
                ),
            ),
            forall|o: Answers|
                #[trigger]
                shim(o, old(self)@, Shim::FieldGet, words2(base as int, name_idx as int)) == Some((final(self)@, r as int)),
    {
        let b = self.value(base);
        let v = self.heap.field(&b, self.pools.names[name_idx as usize].as_str());
        self.intern(v)
    }

    pub fn field_set(&mut self, base: Handle, name_idx: u32, val: Handle)
        requires
            name_idx < old(self)@.pools.names.len(),
        ensures
            final(self)@ == old(self)@.written(
                old(self)@.at(base),
                table_written(
                    old(self)@.heap,
                    old(self)@.at(base),
                    ValueV::Str(old(self)@.pools.names[name_idx as int]),
                    old(self)@.at(val),
                ),
            ),
            forall|o: Answers|
                #[trigger]
                shim(o, old(self)@, Shim::FieldSet, words3(base as int, name_idx as int, val as int)) == Some((final(self)@, 0int)),
    {
        let b = self.value(base);
        let v = self.value(val);
        if frozen_value(&self.frozen, &b) {
            self.fail(frozen_error());
            return;
        }
        let k = Value::Str(self.pools.names[name_idx as usize].clone());
        let _ = self.heap.table_set(&b, &k, v);
    }

    /// The keys of a table as an array; empty for what is no table.
    pub fn map_keys(&mut self, base: Handle) -> (r: Handle)
        ensures
            (final(self)@, r) == old(self)@.placed(
                ObjV::Array(
                    match table_at(old(self)@.heap, old(self)@.at(base)) {
                        Some(t) => key_values(t),
                        None => Seq::empty(),
                    },
                ),
                ValueV::Array(old(self)@.heap.len() as usize),
            ),
            forall|o: Answers|
                #[trigger]
                shim(o, old(self)@, Shim::MapKeys, words1(base as int)) == Some((final(self)@, r as int)),
    {
        let b = self.value(base);
        let keys: Vec<Value> = match self.heap.keys(&b) {
            Ok(ks) => ks,
            Err(_) => Vec::new(),
        };
        assert(table_at(self@.heap, b@) is None ==> values_v(keys@) =~= Seq::<ValueV>::empty());
        let v = self.heap.array(keys);
        self.intern(v)
    }

    /// The length of a string in bytes or of an array; zero for anything else.
    pub fn len_of(&self, h: Handle) -> (r: u64)
        ensures
            r == match self@.at(h) {
                ValueV::Str(s) => encode_utf8(s).len() as u64,
                v => match array_at(self@.heap, v) {
                    Some(items) => items.len() as u64,
                    None => 0,
                },
            },
            forall|o: Answers|
                #[trigger]
                shim(o, self@, Shim::Len, words1(h as int)) == Some((self@, number(o, RequestV::Count(r)) as int)),
    {
        let v = self.value(h);
        if let Value::Str(s) = &v {
            let n: usize = s.as_str().as_bytes().len();
            return n as u64;
        }
        match self.heap.as_array(&v) {
            Some(items) => items.len() as u64,
            None => 0,
        }
    }

    fn text_of(&self, h: Handle) -> (r: String)
        ensures
            r@ == self@.text(h),
    {
        match self.value(h) {
            Value::Str(s) => s,
            _ => {
                let r = own("");
                proof {
                    reveal_strlit("");
                    assert(r@ =~= Seq::<char>::empty());
                }
                r
            },
        }
    }

    pub fn concat(&mut self, l: Handle, r: Handle) -> (out: Handle)
        ensures
            (final(self)@, out) == old(self)@.boxed(
                ValueV::Str(old(self)@.text(l) + old(self)@.text(r)),
            ),
            forall|o: Answers|
                #[trigger]
                shim(o, old(self)@, Shim::Concat, words2(l as int, r as int)) == Some((final(self)@, out as int)),
    {
        let a = self.text_of(l);
        let b = self.text_of(r);
        self.intern(Value::Str(cat2(a.as_str(), b.as_str())))
    }

    /// How two strings compare: -1, 0 or 1.
    pub fn str_order(&self, l: Handle, r: Handle) -> (out: i32)
        ensures
            out == if crate::names::key_lt(self@.text(l), self@.text(r)) {
                -1int
            } else if crate::names::key_lt(self@.text(r), self@.text(l)) {
                1int
            } else {
                0int
            },
            forall|o: Answers|
                #[trigger]
                shim(o, self@, Shim::StrOrder, words2(l as int, r as int)) == Some((self@, out as int)),
    {
        let a = self.text_of(l);
        let b = self.text_of(r);
        if crate::names::before(a.as_str(), b.as_str()) {
            -1
        } else if crate::names::before(b.as_str(), a.as_str()) {
            1
        } else {
            0
        }
    }

    pub fn values_equal(&self, l: Handle, r: Handle) -> (out: bool)
        ensures
            out == same_value(self@.at(l), self@.at(r)),
            forall|o: Answers|
                #[trigger]
                shim(o, self@, Shim::ValueEq, words2(l as int, r as int)) == Some((self@, truth(out))),
    {
        value_eq(&self.value(l), &self.value(r))
    }

    pub fn is_truthy(&self, h: Handle) -> (r: bool)
        ensures
            r == truthy(self@.at(h)),
            forall|o: Answers|
                #[trigger]
                shim(o, self@, Shim::Truthy, words1(h as int)) == Some((self@, truth(r))),
    {
        self.value(h).is_truthy()
    }

    /// Ordering what is not a number is an error.
    pub fn check_order(&mut self, a: u64, b: u64)
        ensures
            final(self)@ == if is_nan(a) || is_nan(b) {
                old(self)@.failed(RunErrorV::Runtime("NaN comparison"@))
            } else {
                old(self)@
            },
            forall|o: Answers|
                #[trigger]
                shim(o, old(self)@, Shim::CheckOrder, words2(a as int, b as int)) == Some((final(self)@, 0int)),
    {
        if order(a, b).is_none() {
            self.fail(RunError::runtime("NaN comparison"));
        }
    }

    /// Whether an error has been noted.
    pub fn errored(&self) -> (r: bool)
        ensures
            r == (self@.error is Some),
            forall|o: Answers|
                #[trigger]
                shim(o, self@, Shim::Errored, Seq::empty()) == Some((self@, truth(r))),
    {
        self.error.is_some()
    }

    fn collect(&self, hs: &Vec<Handle>) -> (r: Vec<Value>)
        ensures
            values_v(r@) == self@.all_at(hs@),
    {
        let mut out: Vec<Value> = Vec::new();
        let mut i: usize = 0;
        while i < hs.len()
            invariant
                i <= hs@.len(),
                out@.len() == i,
                forall|k: int| 0 <= k < i ==> (#[trigger] out@[k])@ == self@.at(hs@[k]),
            decreases hs@.len() - i,
        {
            out.push(self.value(hs[i]));
            i += 1;
        }
        assert(values_v(out@) =~= self@.all_at(hs@));
        out
    }

    /// A call of a host function: its name and arguments, or the failure if it is not
    /// registered.
    pub fn call_host(&mut self, id: u32, args: &Vec<Handle>) -> (r: Option<(String, Vec<Value>)>)
        requires
            id < old(self)@.pools.host_fns.len(),
        ensures
            match r {
                Some((name, vs)) => id < old(self)@.hosts.len() && old(self)@.hosts[id as int]
                    && name@ == old(self)@.pools.host_fns[id as int] && values_v(vs@) == old(self)@.all_at(args@) && final(self)@ == old(self)@,
                None => !(id < old(self)@.hosts.len() && old(self)@.hosts[id as int]) && final(self)@ == old(self)@.failed(
                    RunErrorV::Runtime(
                        "host function `"@ + old(self)@.pools.host_fns[id as int]
                            + "` was not registered"@,
                    ),
                ),
            },
    {
        let name = self.pools.host_fns[id as usize].clone();
        if (id as usize) < self.hosts.len() && self.hosts[id as usize] {
            return Some((name, self.collect(args)));
        }
        let msg = cat3("host function `", name.as_str(), "` was not registered");
        self.fail(RunError::Runtime(msg));
        None
    }

    /// What a host function returned.
    pub fn host_result(&mut self, result: Result<Value, RunError>) -> (r: Handle)
        ensures
            (final(self)@, r) == old(self)@.yielded(
                match result {
                    Ok(v) => Ok(v@),
                    Err(e) => Err(e@),
                },
            ),
    {
        match result {
            Ok(v) => self.intern(v),
            Err(e) => self.fail(e),
        }
    }

    fn settle(&mut self, out: Result<Outcome, RunError>) -> (r: Called)
        ensures
            match out {
                Ok(o) => (final(self)@, match r {
                    Called::Handle(h) => Some(h),
                    Called::Ask(_) => None,
                }) == called(old(self)@, Ok(o@)) && (r matches Called::Ask(q) ==> o@
                    == OutcomeV::Ask(q@)),
                Err(e) => final(self)@ == old(self)@.failed(e@) && r == Called::Handle(ERR),
            },
    {
        match out {
            Ok(Outcome::Value(v)) => Called::Handle(self.intern(v)),
            Ok(Outcome::Ask(q)) => Called::Ask(q),
            Err(e) => Called::Handle(self.fail(e)),
        }
    }

    pub fn call_builtin_value(&mut self, id: u32, args: &Vec<Handle>) -> (r: Called)
        requires
            id < old(self)@.pools.builtin_values.len(),
        ensures
            ({
                let out = value_call_of(
                    old(self)@.heap,
                    old(self)@.pools.builtin_values[id as int],
                    old(self)@.all_at(args@),
                );
                &&& (final(self)@, match r {
                    Called::Handle(h) => Some(h),
                    Called::Ask(_) => None,
                }) == called(old(self)@, out)
                &&& r matches Called::Ask(q) ==> out == Ok::<OutcomeV, RunErrorV>(
                    OutcomeV::Ask(q@),
                )
            }),
    {
        let vs = self.collect(args);
        let out = value_call(
            &self.heap,
            self.pools.builtin_values[id as usize].as_str(),
            &vs,
        );
        self.settle(out)
    }

    pub fn call_builtin_member(&mut self, id: u32, args: &Vec<Handle>) -> (r: Called)
        requires
            id < old(self)@.pools.builtin_members.len(),
        ensures
            ({
                let (ns, member) = old(self)@.pools.builtin_members[id as int];
                let out = member_call_of(
                    old(self)@.heap,
                    ns,
                    member,
                    old(self)@.all_at(args@),
                );
                &&& (final(self)@, match r {
                    Called::Handle(h) => Some(h),
                    Called::Ask(_) => None,
                }) == called(old(self)@, out)
                &&& r matches Called::Ask(q) ==> out == Ok::<OutcomeV, RunErrorV>(
                    OutcomeV::Ask(q@),
                )
            }),
    {
        let vs = self.collect(args);
        let out = {
            let pair = &self.pools.builtin_members[id as usize];
            member_call(&self.heap, pair.0.as_str(), pair.1.as_str(), &vs)
        };
        self.settle(out)
    }

    /// The answer to the request of a builtin.
    pub fn answered(&mut self, request: &Request, reply: Reply) -> (r: Handle)
        ensures
            (final(self)@, r) == old(self)@.yielded(answer_of(request@, reply@)),
    {
        match answer(request, reply) {
            Ok(v) => self.intern(v),
            Err(e) => self.fail(e),
        }
    }

    pub fn cell_new(&mut self, val: Handle) -> (r: Handle)
        ensures
            (final(self)@, r) == old(self)@.placed(
                ObjV::Cell(old(self)@.at(val)),
                ValueV::Cell(old(self)@.heap.len() as usize),
            ),
            forall|o: Answers|
                #[trigger]
                shim(o, old(self)@, Shim::CellNew, words1(val as int)) == Some((final(self)@, r as int)),
    {
        let v = self.value(val);
        let c = self.heap.cell(v);
        self.intern(c)
    }

    /// The value in a cell; nil for what is none.
    pub fn cell_get(&mut self, cell: Handle) -> (r: Handle)
        ensures
            (final(self)@, r) == match cell_at(old(self)@.heap, old(self)@.at(cell)) {
                Some(v) => old(self)@.boxed(v),
                None => (old(self)@, NIL),
            },
            forall|o: Answers|
                #[trigger]
                shim(o, old(self)@, Shim::CellGet, words1(cell as int)) == Some((final(self)@, r as int)),
    {
        let c = self.value(cell);
        let v = match self.heap.as_cell(&c) {
            Some(v) => v.dup(),
            None => {
                return NIL;
            },
        };
        self.intern(v)
    }

    pub fn cell_set(&mut self, cell: Handle, val: Handle)
        ensures
            final(self)@ == match cell_at(old(self)@.heap, old(self)@.at(cell)) {
                Some(_) => CtxV {
                    heap: old(self)@.heap.update(
                        old(self)@.at(cell)->Cell_0 as int,
                        ObjV::Cell(old(self)@.at(val)),
                    ),
                    ..old(self)@
                },
                None => old(self)@,
            },
            forall|o: Answers|
                #[trigger]
                shim(o, old(self)@, Shim::CellSet, words2(cell as int, val as int)) == Some((final(self)@, 0int)),
    {
        let c = self.value(cell);
        let v = self.value(val);
        self.heap.set_cell(&c, v);
    }

    /// Build a closure: a lifted function plus its captured cells.
    pub fn closure_new(&mut self, name_id: u32, cells: &Vec<Handle>) -> (r: Handle)
        requires
            name_id < old(self)@.pools.closure_names.len(),
        ensures
            (final(self)@, r) == old(self)@.placed(
                (ObjV::Closure {
                    code: old(self)@.pools.closure_names[name_id as int],
                    env: old(self)@.all_at(cells@),
                    origin: old(self)@.origin,
                }),
                ValueV::Closure(old(self)@.heap.len() as usize, old(self)@.origin),
            ),
    {
        let env = self.collect(cells);
        let code = self.pools.closure_names[name_id as usize].clone();
        let c = self.heap.closure(code, env, self.origin);
        self.intern(c)
    }

    /// The i-th captured cell of a closure; nil if there is none.
    pub fn closure_env_get(&mut self, clo: Handle, i: u32) -> (r: Handle)
        ensures
            (final(self)@, r) == match closure_at(old(self)@.heap, old(self)@.at(clo)) {
                Some((_, env)) => if i < env.len() {
                    old(self)@.boxed(env[i as int])
                } else {
                    (old(self)@, NIL)
                },
                None => (old(self)@, NIL),
            },
            forall|o: Answers|
                #[trigger]
                shim(o, old(self)@, Shim::ClosureEnvGet, words2(clo as int, i as int)) == Some((final(self)@, r as int)),
    {
        let c = self.value(clo);
        let v = match self.heap.as_closure(&c) {
            Some((_, env)) => if (i as usize) < env.len() {
                env[i as usize].dup()
            } else {
                return NIL;
            },
            None => {
                return NIL;
            },
        };
        self.intern(v)
    }

    /// The address of a closure's function, for an indirect call; 0 and a failure if there is
    /// none, or if another module built the closure.
    pub fn closure_code_addr(&mut self, clo: Handle) -> (r: u64)
        ensures
            ({
                let c = old(self)@.at(clo);
                if is_foreign(c, old(self)@.origin) {
                    r == 0 && final(self)@ == old(self)@.failed(foreign_closure_of())
                } else {
                    match closure_at(old(self)@.heap, c) {
                        Some((code, _)) => match get_of(old(self)@.code_addrs, code) {
                            Some(a) => r == a && final(self)@ == old(self)@,
                            None => r == 0 && final(self)@ == old(self)@.failed(
                                RunErrorV::Internal("indirect call to an unknown closure"@),
                            ),
                        },
                        None => r == 0 && final(self)@ == old(self)@.failed(
                            RunErrorV::Internal("indirect call to an unknown closure"@),
                        ),
                    }
                }
            }),
    {
        let c = self.value(clo);
        if c.is_foreign(self.origin) {
            self.fail(foreign_closure());
            return 0;
        }
        if let Some((code, _)) = self.heap.as_closure(&c) {
            if let Some(a) = self.code_addrs.get(code.as_str()) {
                return *a;
            }
        }
        self.fail(RunError::internal("indirect call to an unknown closure"));
        0
    }

    /// The compiled module that this context belongs to.
    pub fn origin(&self) -> (r: u64)
        ensures
            r == self@.origin,
    {
        self.origin
    }
}

/// The refusal of a closure that another module built.
pub open spec fn foreign_closure_of() -> RunErrorV {
    RunErrorV::Runtime("closure belongs to a different compiled module"@)
}

/// The refusal of a closure that another module built.
pub fn foreign_closure() -> (r: RunError)
    ensures
        r@ == foreign_closure_of(),
{
    RunError::runtime("closure belongs to a different compiled module")
}

/// One step of the encoding of arguments.
pub proof fn unfold_encoded_all(c: CtxV, params: Seq<Repr>, args: Seq<ValueV>, i: int, acc: Seq<u64>)
    ensures
        c.encoded_all(params, args, i, acc) == (if 0 <= i < params.len() && i < args.len() {
            match c.encoded(args[i], params[i]) {
                Ok((c1, w)) => c1.encoded_all(params, args, i + 1, acc.push(w)),
                Err(e) => (c, Err(e)),
            }
        } else {
            (c, Ok(acc))
        }),
{
    reveal(CtxV::encoded_all);
}

} // verus!
