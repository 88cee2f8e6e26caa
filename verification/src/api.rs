//! The embedding interface: what a host declares before compilation, how its values become
//! script values and back, and the errors that it sees.
//!
//! An [`Engine`] holds the signatures of host functions and the types of host memory, against
//! which it compiles scripts. [`HostType`], [`IntoValue`] and [`FromValue`] say how host types
//! correspond to script types and values.
use vstd::prelude::*;
use vstd::string::StringSliceAdditionalSpecFns;
use crate::codegen::jit_error_text;
use crate::codegen::translate::{JitError, JitErrorV};
use crate::diagnostics::{listed_all, DiagnosticV, Diagnostics};
use crate::ir::{error_text, lower, verify, LowerError, LowerErrorV, Program, ProgramV};
use crate::names::{ascending, get_of, keys_of, put_of, NameMap};
use crate::text::{cat2, cat4, own};
use crate::types::{FnType, FnTypeV, Type, TypeConfig, TypeConfigV, TypeV};
use crate::value::{
    array_at, kind_name_of, run_error_text, values_v, Heap, HeapV, ObjV, RunError, RunErrorV, Value,
    ValueV,
};

verus! {

/// A failure while turning a [`Value`] into a host value.
#[derive(Clone, Debug)]
pub enum MarshalError {
    /// A value's shape did not match the requested type.
    TypeMismatch { expected: &'static str, found: &'static str },
}

pub ghost enum MarshalErrorV {
    TypeMismatch { expected: Seq<char>, found: Seq<char> },
}

impl View for MarshalError {
    type V = MarshalErrorV;

    open spec fn view(&self) -> MarshalErrorV {
        match self {
            MarshalError::TypeMismatch { expected, found } => MarshalErrorV::TypeMismatch {
                expected: expected@,
                found: found@,
            },
        }
    }
}

/// The text of an error.
pub open spec fn marshal_error_text(e: MarshalErrorV) -> Seq<char> {
    match e {
        MarshalErrorV::TypeMismatch { expected, found } => "expected a "@ + expected
            + " value, found "@ + found,
    }
}

impl MarshalError {
    /// The text of this error.
    pub fn to_string(&self) -> (r: String)
        ensures
            r@ == marshal_error_text(self@),
    {
        match self {
            MarshalError::TypeMismatch { expected, found } => cat4(
                "expected a ",
                expected,
                " value, found ",
                found,
            ),
        }
    }
}

/// A failure of [`Engine::compile`] or of code generation.
#[derive(Debug)]
pub enum BuildError {
    /// Diagnostics of the front end.
    Check(Diagnostics),
    /// Lowering failed.
    Lower(LowerError),
    /// Code generation failed.
    Jit(JitError),
}

pub ghost enum BuildErrorV {
    Check(Seq<DiagnosticV>),
    Lower(LowerErrorV),
    Jit(JitErrorV),
}

impl View for BuildError {
    type V = BuildErrorV;

    open spec fn view(&self) -> BuildErrorV {
        match self {
            BuildError::Check(d) => BuildErrorV::Check(d@),
            BuildError::Lower(e) => BuildErrorV::Lower(e@),
            BuildError::Jit(e) => BuildErrorV::Jit(e@),
        }
    }
}

/// The text of an error.
pub open spec fn build_error_text(e: BuildErrorV) -> Seq<char> {
    match e {
        BuildErrorV::Check(d) => listed_all(d, d.len() as int),
        BuildErrorV::Lower(e) => error_text(e),
        BuildErrorV::Jit(e) => jit_error_text(e),
    }
}

impl BuildError {
    /// The text of this error.
    pub fn to_string(&self) -> (r: String)
        ensures
            r@ == build_error_text(self@),
    {
        match self {
            BuildError::Check(d) => d.list(),
            BuildError::Lower(e) => e.to_string(),
            BuildError::Jit(e) => e.to_string(),
        }
    }
}

/// A failure of a typed call.
#[derive(Debug)]
pub enum CallError {
    /// The script, or a host function that it called, raised an error.
    Run(RunError),
    /// The result could not be turned into the requested type.
    Result(MarshalError),
}

pub ghost enum CallErrorV {
    Run(RunErrorV),
    Result(MarshalErrorV),
}

impl View for CallError {
    type V = CallErrorV;

    open spec fn view(&self) -> CallErrorV {
        match self {
            CallError::Run(e) => CallErrorV::Run(e@),
            CallError::Result(e) => CallErrorV::Result(e@),
        }
    }
}

/// The text of an error.
pub open spec fn call_error_text(e: CallErrorV) -> Seq<char> {
    match e {
        CallErrorV::Run(e) => run_error_text(e),
        CallErrorV::Result(e) => "result marshaling failed: "@ + marshal_error_text(e),
    }
}

impl CallError {
    /// The text of this error.
    pub fn to_string(&self) -> (r: String)
        ensures
            r@ == call_error_text(self@),
    {
        match self {
            CallError::Run(e) => e.to_string(),
            CallError::Result(e) => cat2("result marshaling failed: ", e.to_string().as_str()),
        }
    }
}

/// Diagnostics as a run-time error.
pub fn diag_to_run(d: &Diagnostics) -> (r: RunError)
    ensures
        r@ == RunErrorV::Runtime(listed_all(d@, d@.len() as int)),
{
    RunError::Runtime(d.list())
}

/// A host type with a corresponding script type.
pub trait HostType {
    /// The script type.
    spec fn ty() -> TypeV;

    fn grindlang_type() -> (r: Type)
        ensures
            r@ == Self::ty(),
    ;
}

/// A host type whose values become script values.
pub trait IntoValue: HostType + Sized {
    /// The value, and the heap with the objects that it refers to.
    spec fn stored(self, h: HeapV) -> (HeapV, ValueV);

    fn into_value(self, heap: &mut Heap) -> (r: Value)
        ensures
            (final(heap)@, r@) == self.stored(old(heap)@),
    ;
}

/// A host type whose values are read from script values.
pub trait FromValue: HostType + Sized {
    /// Whether `x` is what `v` reads as.
    spec fn reads(h: HeapV, v: ValueV, x: Self) -> bool;

    /// Why `v` cannot be read, if it cannot.
    spec fn mismatch(h: HeapV, v: ValueV) -> Option<MarshalErrorV>;

    fn from_value(heap: &Heap, v: &Value) -> (r: Result<Self, MarshalError>)
        ensures
            match r {
                Ok(x) => Self::mismatch(heap@, v@) is None && Self::reads(heap@, v@, x),
                Err(e) => Self::mismatch(heap@, v@) == Some(e@),
            },
    ;
}

/// The refusal of a value of another shape.
pub open spec fn wanted(what: Seq<char>, v: ValueV) -> MarshalErrorV {
    MarshalErrorV::TypeMismatch { expected: what, found: kind_name_of(v) }
}

fn want(expected: &'static str, v: &Value) -> (r: MarshalError)
    ensures
        r@ == wanted(expected@, v@),
{
    MarshalError::TypeMismatch { expected, found: v.kind_name() }
}

/// A number, by its bit pattern.
#[derive(Clone, Copy, Debug, PartialEq, Eq, Structural)]
pub struct Bits(pub u64);

impl HostType for Bits {
    open spec fn ty() -> TypeV {
        TypeV::Number
    }

    fn grindlang_type() -> (r: Type) {
        Type::Number
    }
}

impl IntoValue for Bits {
    open spec fn stored(self, h: HeapV) -> (HeapV, ValueV) {
        (h, ValueV::Number(self.0))
    }

    fn into_value(self, heap: &mut Heap) -> (r: Value) {
        Value::Number(self.0)
    }
}

impl FromValue for Bits {
    open spec fn reads(h: HeapV, v: ValueV, x: Self) -> bool {
        v == ValueV::Number(x.0)
    }

    open spec fn mismatch(h: HeapV, v: ValueV) -> Option<MarshalErrorV> {
        if v is Number {
            None
        } else {
            Some(wanted("number"@, v))
        }
    }

    fn from_value(heap: &Heap, v: &Value) -> (r: Result<Self, MarshalError>) {
        match v.as_number() {
            Some(b) => Ok(Bits(b)),
            None => Err(want("number", v)),
        }
    }
}

impl HostType for bool {
    open spec fn ty() -> TypeV {
        TypeV::Bool
    }

    fn grindlang_type() -> (r: Type) {
        Type::Bool
    }
}

impl IntoValue for bool {
    open spec fn stored(self, h: HeapV) -> (HeapV, ValueV) {
        (h, ValueV::Bool(self))
    }

    fn into_value(self, heap: &mut Heap) -> (r: Value) {
        Value::Bool(self)
    }
}

impl FromValue for bool {
    open spec fn reads(h: HeapV, v: ValueV, x: Self) -> bool {
        v == ValueV::Bool(x)
    }

    open spec fn mismatch(h: HeapV, v: ValueV) -> Option<MarshalErrorV> {
        if v is Bool {
            None
        } else {
            Some(wanted("bool"@, v))
        }
    }

    fn from_value(heap: &Heap, v: &Value) -> (r: Result<Self, MarshalError>) {
        match v.as_bool() {
            Some(b) => Ok(b),
            None => Err(want("bool", v)),
        }
    }
}

impl HostType for String {
    open spec fn ty() -> TypeV {
        TypeV::String
    }

    fn grindlang_type() -> (r: Type) {
        Type::String
    }
}

impl IntoValue for String {
    open spec fn stored(self, h: HeapV) -> (HeapV, ValueV) {
        (h, ValueV::Str(self@))
    }

    fn into_value(self, heap: &mut Heap) -> (r: Value) {
        Value::Str(self)
    }
}

impl FromValue for String {
    open spec fn reads(h: HeapV, v: ValueV, x: Self) -> bool {
        v == ValueV::Str(x@)
    }

    open spec fn mismatch(h: HeapV, v: ValueV) -> Option<MarshalErrorV> {
        if v is Str {
            None
        } else {
            Some(wanted("string"@, v))
        }
    }

    fn from_value(heap: &Heap, v: &Value) -> (r: Result<Self, MarshalError>) {
        match v.as_string() {
            Some(s) => Ok(own(s.as_str())),
            None => Err(want("string", v)),
        }
    }
}

impl HostType for () {
    open spec fn ty() -> TypeV {
        TypeV::Unit
    }

    fn grindlang_type() -> (r: Type) {
        Type::Unit
    }
}

impl IntoValue for () {
    open spec fn stored(self, h: HeapV) -> (HeapV, ValueV) {
        (h, ValueV::Nil)
    }

    fn into_value(self, heap: &mut Heap) -> (r: Value) {
        Value::Nil
    }
}

impl FromValue for () {
    open spec fn reads(h: HeapV, v: ValueV, x: Self) -> bool {
        true
    }

    open spec fn mismatch(h: HeapV, v: ValueV) -> Option<MarshalErrorV> {
        None
    }

    fn from_value(heap: &Heap, v: &Value) -> (r: Result<Self, MarshalError>) {
        Ok(())
    }
}

impl<T: HostType> HostType for Option<T> {
    open spec fn ty() -> TypeV {
        TypeV::Optional(Box::new(T::ty()))
    }

    fn grindlang_type() -> (r: Type) {
        Type::optional(T::grindlang_type())
    }
}

impl<T: IntoValue> IntoValue for Option<T> {
    open spec fn stored(self, h: HeapV) -> (HeapV, ValueV) {
        match self {
            Some(x) => x.stored(h),
            None => (h, ValueV::Nil),
        }
    }

    fn into_value(self, heap: &mut Heap) -> (r: Value) {
        match self {
            Some(x) => x.into_value(heap),
            None => Value::Nil,
        }
    }
}

impl<T: FromValue> FromValue for Option<T> {
    open spec fn reads(h: HeapV, v: ValueV, x: Self) -> bool {
        if v is Nil {
            x is None
        } else {
            x is Some && T::reads(h, v, x->0)
        }
    }

    open spec fn mismatch(h: HeapV, v: ValueV) -> Option<MarshalErrorV> {
        if v is Nil {
            None
        } else {
            T::mismatch(h, v)
        }
    }

    fn from_value(heap: &Heap, v: &Value) -> (r: Result<Self, MarshalError>) {
        match v {
            Value::Nil => Ok(None),
            _ => match T::from_value(heap, v) {
                Ok(x) => Ok(Some(x)),
                Err(e) => Err(e),
            },
        }
    }
}

impl<T: HostType> HostType for Vec<T> {
    open spec fn ty() -> TypeV {
        TypeV::Array(Box::new(T::ty()))
    }

    fn grindlang_type() -> (r: Type) {
        Type::array(T::grindlang_type())
    }
}

/// The values of the first `n` items, and the heap with what they refer to.
pub open spec fn all_stored<T: IntoValue>(xs: Seq<T>, h: HeapV, n: nat) -> (HeapV, Seq<ValueV>)
    decreases n,
{
    if n == 0 {
        (h, Seq::empty())
    } else {
        let (h1, vs) = all_stored(xs, h, (n - 1) as nat);
        let (h2, v) = xs[n - 1].stored(h1);
        (h2, vs.push(v))
    }
}

impl<T: IntoValue> IntoValue for Vec<T> {
    open spec fn stored(self, h: HeapV) -> (HeapV, ValueV) {
        let (h1, vs) = all_stored(self@, h, self@.len());
        (h1.push(ObjV::Array(vs)), ValueV::Array(h1.len() as usize))
    }

    fn into_value(self, heap: &mut Heap) -> (r: Value) {
        let ghost xs = self@;
        let ghost start = heap@;
        let mut vs: Vec<Value> = Vec::new();
        assert(values_v(vs@) =~= Seq::<ValueV>::empty());
        for x in it: self
            invariant
                it.seq() == xs,
                (heap@, values_v(vs@)) == all_stored(xs, start, it.index() as nat),
        {
            let ghost before = values_v(vs@);
            let v = x.into_value(heap);
            vs.push(v);
            assert(values_v(vs@) =~= before.push(v@));
        }
        heap.array(vs)
    }
}

/// Why one of the items from `i` on cannot be read, if one cannot.
pub open spec fn first_mismatch<T: FromValue>(h: HeapV, vs: Seq<ValueV>, i: int) -> Option<
    MarshalErrorV,
>
    decreases vs.len() - i,
{
    if 0 <= i < vs.len() {
        match T::mismatch(h, vs[i]) {
            Some(e) => Some(e),
            None => first_mismatch::<T>(h, vs, i + 1),
        }
    } else {
        None
    }
}

impl<T: FromValue> FromValue for Vec<T> {
    open spec fn reads(h: HeapV, v: ValueV, x: Self) -> bool {
        match array_at(h, v) {
            Some(items) => {
                &&& x@.len() == items.len()
                &&& forall|i: int| 0 <= i < items.len() ==> T::reads(h, items[i], #[trigger] x@[i])
            },
            None => false,
        }
    }

    open spec fn mismatch(h: HeapV, v: ValueV) -> Option<MarshalErrorV> {
        match array_at(h, v) {
            Some(items) => first_mismatch::<T>(h, items, 0),
            None => Some(wanted("array"@, v)),
        }
    }

    fn from_value(heap: &Heap, v: &Value) -> (r: Result<Self, MarshalError>) {
        match heap.as_array(v) {
            Some(items) => {
                let ghost vs = values_v(items@);
                let mut out: Vec<T> = Vec::new();
                let n: usize = items.len();
                let mut i: usize = 0;
                while i < n
                    invariant
                        i <= n,
                        n == items@.len(),
                        vs == values_v(items@),
                        array_at(heap@, v@) == Some(vs),
                        out@.len() == i,
                        forall|k: int|
                            0 <= k < i ==> T::reads(heap@, vs[k], #[trigger] out@[k]),
                        first_mismatch::<T>(heap@, vs, 0) == first_mismatch::<T>(
                            heap@,
                            vs,
                            i as int,
                        ),
                    decreases n - i,
                {
                    assert(vs[i as int] == items@[i as int]@);
                    match T::from_value(heap, &items[i]) {
                        Ok(x) => {
                            out.push(x);
                        },
                        Err(e) => {
                            return Err(e);
                        },
                    }
                    i += 1;
                }
                Ok(out)
            },
            None => Err(want("array", v)),
        }
    }
}

/// A scalar that becomes a script value is read back as it was.
pub proof fn law_scalars_round_trip(h: HeapV, n: Bits, b: bool, s: String)
    ensures
        Bits::mismatch(h, n.stored(h).1) is None,
        forall|x: Bits| Bits::reads(h, n.stored(h).1, x) ==> x == n,
        bool::mismatch(h, b.stored(h).1) is None,
        forall|x: bool| bool::reads(h, b.stored(h).1, x) ==> x == b,
        String::mismatch(h, s.stored(h).1) is None,
        forall|x: String| String::reads(h, s.stored(h).1, x) ==> x@ == s@,
{
}

/// What a host declares before compilation. The same engine compiles any number of scripts.
#[derive(Debug)]
pub struct Engine {
    host_fns: NameMap<FnType>,
    memory: NameMap<Type>,
}

impl View for Engine {
    type V = TypeConfigV;

    closed spec fn view(&self) -> TypeConfigV {
        TypeConfigV { host_functions: self.host_fns@, memory: self.memory@ }
    }
}

fn dup_fns(m: &NameMap<FnType>) -> (r: NameMap<FnType>)
    ensures
        r@ == m@,
{
    let mut out: NameMap<FnType> = NameMap::new();
    let n: usize = m.len();
    let mut i: usize = 0;
    while i < n
        invariant
            i <= n,
            n == m@.len(),
            ascending(keys_of(m@)),
            out@ == m@.take(i as int),
        decreases n - i,
    {
        assert(keys_of(m@.take(i as int).push(m@[i as int])) =~= keys_of(m@).take(i + 1));
        out.push(own(m.key(i).as_str()), m.value(i).dup());
        assert(out@ =~= m@.take(i + 1));
        i += 1;
    }
    assert(m@.take(n as int) =~= m@);
    out
}

fn dup_types(m: &NameMap<Type>) -> (r: NameMap<Type>)
    ensures
        r@ == m@,
{
    let mut out: NameMap<Type> = NameMap::new();
    let n: usize = m.len();
    let mut i: usize = 0;
    while i < n
        invariant
            i <= n,
            n == m@.len(),
            ascending(keys_of(m@)),
            out@ == m@.take(i as int),
        decreases n - i,
    {
        assert(keys_of(m@.take(i as int).push(m@[i as int])) =~= keys_of(m@).take(i + 1));
        out.push(own(m.key(i).as_str()), m.value(i).dup());
        assert(out@ =~= m@.take(i + 1));
        i += 1;
    }
    assert(m@.take(n as int) =~= m@);
    out
}

impl Engine {
    /// An engine with no host functions or memory.
    pub fn new() -> (r: Self)
        ensures
            r@.host_functions == Seq::<(Seq<char>, FnTypeV)>::empty(),
            r@.memory == Seq::<(Seq<char>, TypeV)>::empty(),
    {
        Engine { host_fns: NameMap::new(), memory: NameMap::new() }
    }

    /// Declare a host function with its signature.
    pub fn register_fn_raw(&mut self, name: &str, sig: FnType)
        ensures
            final(self)@ == (TypeConfigV {
                host_functions: put_of(old(self)@.host_functions, name@, sig@),
                ..old(self)@
            }),
    {
        self.host_fns.insert(own(name), sig);
    }

    /// Declare the type of a host memory binding, so that scripts may read and write it.
    pub fn declare_memory(&mut self, name: &str, ty: Type)
        ensures
            final(self)@ == (TypeConfigV {
                memory: put_of(old(self)@.memory, name@, ty@),
                ..old(self)@
            }),
    {
        self.memory.insert(own(name), ty);
    }

    /// The signatures and types that scripts are checked against.
    pub fn type_config(&self) -> (r: TypeConfig)
        ensures
            r@ == self@,
    {
        TypeConfig { host_functions: dup_fns(&self.host_fns), memory: dup_types(&self.memory) }
    }

    /// Compile a script against what was declared.
    pub fn compile(&self, src: &str) -> (r: Result<Module, BuildError>)
        ensures
            match r {
                Ok(m) => module_of(src.spec_bytes(), self@) == Ok::<CompiledV, BuildErrorV>(m@)
                    && crate::ir::program_ok(m@.program),
                Err(e) => module_of(src.spec_bytes(), self@) == Err::<CompiledV, BuildErrorV>(e@),
            },
    {
        let cfg = self.type_config();
        match crate::analyze(src, &cfg) {
            Err(d) => Err(BuildError::Check(d)),
            Ok((m, x, t)) => match lower(&m, &x, &t, &cfg) {
                Err(e) => Err(BuildError::Lower(e)),
                Ok(program) => match verify(&program) {
                    Err(e) => Err(BuildError::Lower(e)),
                    Ok(_) => Ok(Module { program, exports: t.exports }),
                },
            },
        }
    }
}

/// A compiled script: its program and the types of its exports.
#[derive(Debug)]
pub struct Module {
    program: Program,
    exports: NameMap<Type>,
}

pub ghost struct CompiledV {
    pub program: ProgramV,
    pub exports: Seq<(Seq<char>, TypeV)>,
}

impl View for Module {
    type V = CompiledV;

    closed spec fn view(&self) -> CompiledV {
        CompiledV { program: self.program@, exports: self.exports@ }
    }
}

/// What a source text compiles to, with the types of its exports.
pub open spec fn module_of(src: Seq<u8>, cfg: TypeConfigV) -> Result<CompiledV, BuildErrorV> {
    match crate::analyzed_of(src, cfg) {
        Err(d) => Err(BuildErrorV::Check(d)),
        Ok((_, _, t)) => match crate::compiled_of(src, cfg) {
            Err(e) => Err(e),
            Ok(program) => Ok(CompiledV { program, exports: t.exports }),
        },
    }
}

impl Module {
    /// The program, to be run.
    pub fn program(&self) -> (r: &Program)
        ensures
            r@ == self@.program,
    {
        &self.program
    }

    /// The types of the exports, by name.
    pub fn exports(&self) -> (r: &NameMap<Type>)
        ensures
            r@ == self@.exports,
    {
        &self.exports
    }

    /// The type of an export, if there is one of this name.
    pub fn export_type(&self, name: &str) -> (r: Option<&Type>)
        ensures
            match r {
                Some(t) => get_of(self@.exports, name@) == Some(t@),
                None => get_of(self@.exports, name@) is None,
            },
    {
        self.exports.get(name)
    }
}

/// The result of a call as a host value: what the call failed with, or what its value reads
/// as.
pub fn typed_result<T: FromValue>(heap: &Heap, result: Result<Value, RunError>) -> (r: Result<
    T,
    CallError,
>)
    ensures
        match (result, r) {
            (Err(e), Err(x)) => x@ == CallErrorV::Run(e@),
            (Err(e), Ok(_)) => false,
            (Ok(v), Ok(x)) => T::mismatch(heap@, v@) is None && T::reads(heap@, v@, x),
            (Ok(v), Err(x)) => T::mismatch(heap@, v@) is Some && x@ == CallErrorV::Result(
                T::mismatch(heap@, v@)->0,
            ),
        },
{
    match result {
        Err(e) => Err(CallError::Run(e)),
        Ok(v) => match T::from_value(heap, &v) {
            Ok(x) => Ok(x),
            Err(e) => Err(CallError::Result(e)),
        },
    }
}

} // verus!
