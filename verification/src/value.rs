//! Runtime values and run-time errors.
//!
//! A [`Value`] is a scalar, a string, or a handle to an object. The objects that handles
//! refer to (arrays, tables, closures and cells) live on a [`Heap`]; two handles with the
//! same number share their object, so that a write through one is seen through the other.
use vstd::prelude::*;
use crate::names::{get_of, put_of, NameMap};
use crate::number::{index, index_of, order, order_of, Order};
use crate::text::{cat2, cat5, dec, dec_string, own};

verus! {

/// An error raised while executing a program.
#[derive(Clone, Debug, PartialEq, Eq)]
pub enum RunError {
    /// A host-registered function returned an error.
    Host(String),
    /// A fault that type checking does not rule out (an out-of-range array write, for
    /// example).
    Runtime(String),
    /// An invariant that resolver and checker guarantee was violated.
    Internal(String),
    /// A function was requested by a name that the module does not export.
    UnknownExport(String),
}

pub ghost enum RunErrorV {
    Host(Seq<char>),
    Runtime(Seq<char>),
    Internal(Seq<char>),
    UnknownExport(Seq<char>),
}

impl View for RunError {
    type V = RunErrorV;

    open spec fn view(&self) -> RunErrorV {
        match self {
            RunError::Host(s) => RunErrorV::Host(s@),
            RunError::Runtime(s) => RunErrorV::Runtime(s@),
            RunError::Internal(s) => RunErrorV::Internal(s@),
            RunError::UnknownExport(s) => RunErrorV::UnknownExport(s@),
        }
    }
}

/// The text of an error.
pub open spec fn run_error_text(e: RunErrorV) -> Seq<char> {
    match e {
        RunErrorV::Host(s) => "host error: "@ + s,
        RunErrorV::Runtime(s) => "runtime error: "@ + s,
        RunErrorV::Internal(s) => "internal interpreter error: "@ + s,
        RunErrorV::UnknownExport(s) => "no exported function named `"@ + s + "`"@,
    }
}

impl RunError {
    /// The text of this error.
    pub fn to_string(&self) -> (r: String)
        ensures
            r@ == run_error_text(self@),
    {
        match self {
            RunError::Host(s) => cat2("host error: ", s.as_str()),
            RunError::Runtime(s) => cat2("runtime error: ", s.as_str()),
            RunError::Internal(s) => cat2("internal interpreter error: ", s.as_str()),
            RunError::UnknownExport(s) => crate::text::cat3(
                "no exported function named `",
                s.as_str(),
                "`",
            ),
        }
    }

    pub fn internal(msg: &str) -> (r: RunError)
        ensures
            r@ == RunErrorV::Internal(msg@),
    {
        RunError::Internal(own(msg))
    }

    pub fn runtime(msg: &str) -> (r: RunError)
        ensures
            r@ == RunErrorV::Runtime(msg@),
    {
        RunError::Runtime(own(msg))
    }
}

/// A runtime value.
#[derive(Debug, PartialEq, Eq)]
pub enum Value {
    Nil,
    Bool(bool),
    /// A number, by its bit pattern (see [`number`](crate::number)).
    Number(u64),
    Str(String),
    /// A 1-based, mutable, homogeneous array.
    Array(usize),
    /// A mutable string-keyed table: records, maps, and host memory alike.
    Table(usize),
    /// A lifted function together with its captured cells, and the compiled module that built
    /// it (0 for none).
    Closure(usize, u64),
    /// A shared upvalue cell.
    Cell(usize),
    /// A function of the tree-walking interpreter.
    Function(usize),
    /// A host function, by its name.
    Native(String),
}

pub ghost enum ValueV {
    Nil,
    Bool(bool),
    Number(u64),
    Str(Seq<char>),
    Array(usize),
    Table(usize),
    Closure(usize, u64),
    Cell(usize),
    Function(usize),
    Native(Seq<char>),
}

impl View for Value {
    type V = ValueV;

    open spec fn view(&self) -> ValueV {
        match self {
            Value::Nil => ValueV::Nil,
            Value::Bool(b) => ValueV::Bool(*b),
            Value::Number(n) => ValueV::Number(*n),
            Value::Str(s) => ValueV::Str(s@),
            Value::Array(i) => ValueV::Array(*i),
            Value::Table(i) => ValueV::Table(*i),
            Value::Closure(i, o) => ValueV::Closure(*i, *o),
            Value::Cell(i) => ValueV::Cell(*i),
            Value::Function(i) => ValueV::Function(*i),
            Value::Native(s) => ValueV::Native(s@),
        }
    }
}

/// The counterparts of a list of values.
pub open spec fn values_v(v: Seq<Value>) -> Seq<ValueV> {
    Seq::new(v.len(), |i: int| v[i]@)
}

/// The short name of a value's shape.
pub open spec fn kind_name_of(v: ValueV) -> Seq<char> {
    match v {
        ValueV::Nil => "nil"@,
        ValueV::Bool(_) => "bool"@,
        ValueV::Number(_) => "number"@,
        ValueV::Str(_) => "string"@,
        ValueV::Array(_) => "array"@,
        ValueV::Table(_) => "table"@,
        ValueV::Closure(_, _) => "function"@,
        ValueV::Cell(_) => "cell"@,
        ValueV::Function(_) => "function"@,
        ValueV::Native(_) => "function"@,
    }
}

/// Only `nil` and `false` are falsy.
pub open spec fn truthy(v: ValueV) -> bool {
    !(v is Nil) && v != ValueV::Bool(false)
}

impl Value {
    pub fn dup(&self) -> (r: Value)
        ensures
            r@ == self@,
    {
        match self {
            Value::Nil => Value::Nil,
            Value::Bool(b) => Value::Bool(*b),
            Value::Number(n) => Value::Number(*n),
            Value::Str(s) => Value::Str(s.clone()),
            Value::Array(i) => Value::Array(*i),
            Value::Table(i) => Value::Table(*i),
            Value::Closure(i, o) => Value::Closure(*i, *o),
            Value::Cell(i) => Value::Cell(*i),
            Value::Function(i) => Value::Function(*i),
            Value::Native(s) => Value::Native(own(s.as_str())),
        }
    }

    pub fn string(s: &str) -> (r: Value)
        ensures
            r@ == ValueV::Str(s@),
    {
        Value::Str(own(s))
    }

    pub fn as_bool(&self) -> (r: Option<bool>)
        ensures
            r == match self@ {
                ValueV::Bool(b) => Some(b),
                _ => None,
            },
    {
        match self {
            Value::Bool(b) => Some(*b),
            _ => None,
        }
    }

    /// The bit pattern, if this is a number.
    pub fn as_number(&self) -> (r: Option<u64>)
        ensures
            r == match self@ {
                ValueV::Number(b) => Some(b),
                _ => None,
            },
    {
        match self {
            Value::Number(b) => Some(*b),
            _ => None,
        }
    }

    /// The contents, if this is a string.
    pub fn as_string(&self) -> (r: Option<&String>)
        ensures
            match r {
                Some(s) => self@ == ValueV::Str(s@),
                None => !(self@ is Str),
            },
    {
        match self {
            Value::Str(s) => Some(s),
            _ => None,
        }
    }

    /// A short name for this value's shape, such as `number` or `array`.
    pub fn kind_name(&self) -> (r: &'static str)
        ensures
            r@ == kind_name_of(self@),
    {
        match self {
            Value::Nil => "nil",
            Value::Bool(_) => "bool",
            Value::Number(_) => "number",
            Value::Str(_) => "string",
            Value::Array(_) => "array",
            Value::Table(_) => "table",
            Value::Closure(_, _) => "function",
            Value::Cell(_) => "cell",
            Value::Function(_) => "function",
            Value::Native(_) => "function",
        }
    }

    /// Whether this is a closure that a module other than `own` built.
    pub fn is_foreign(&self, own: u64) -> (r: bool)
        ensures
            r == is_foreign(self@, own),
    {
        match self {
            Value::Closure(_, o) => *o != own,
            _ => false,
        }
    }

    pub fn is_truthy(&self) -> (r: bool)
        ensures
            r == truthy(self@),
    {
        match self {
            Value::Nil => false,
            Value::Bool(b) => *b,
            _ => true,
        }
    }
}

/// Whether two values are the same: scalars and strings by content, handles by identity.
pub open spec fn same_value(a: ValueV, b: ValueV) -> bool {
    match (a, b) {
        (ValueV::Nil, ValueV::Nil) => true,
        (ValueV::Bool(x), ValueV::Bool(y)) => x == y,
        (ValueV::Number(x), ValueV::Number(y)) => order_of(x, y) == Some(Order::Equal),
        (ValueV::Str(x), ValueV::Str(y)) => x == y,
        (ValueV::Array(x), ValueV::Array(y)) => x == y,
        (ValueV::Table(x), ValueV::Table(y)) => x == y,
        (ValueV::Closure(x, o), ValueV::Closure(y, p)) => x == y && o == p,
        (ValueV::Cell(x), ValueV::Cell(y)) => x == y,
        (ValueV::Function(x), ValueV::Function(y)) => x == y,
        (ValueV::Native(x), ValueV::Native(y)) => x == y,
        _ => false,
    }
}

pub fn value_eq(a: &Value, b: &Value) -> (r: bool)
    ensures
        r == same_value(a@, b@),
{
    match (a, b) {
        (Value::Nil, Value::Nil) => true,
        (Value::Bool(x), Value::Bool(y)) => *x == *y,
        (Value::Number(x), Value::Number(y)) => match order(*x, *y) {
            Some(Order::Equal) => true,
            _ => false,
        },
        (Value::Str(x), Value::Str(y)) => crate::text::same(x.as_str(), y.as_str()),
        (Value::Array(x), Value::Array(y)) => *x == *y,
        (Value::Table(x), Value::Table(y)) => *x == *y,
        (Value::Closure(x, o), Value::Closure(y, p)) => *x == *y && *o == *p,
        (Value::Cell(x), Value::Cell(y)) => *x == *y,
        (Value::Function(x), Value::Function(y)) => *x == *y,
        (Value::Native(x), Value::Native(y)) => crate::text::same(x.as_str(), y.as_str()),
        _ => false,
    }
}

/// Whether `==` holds of two values of a script: a table or an array is equal to itself only.
pub fn scalar_eq(a: &Value, b: &Value) -> (r: bool)
    ensures
        r == same_value(a@, b@),
{
    value_eq(a, b)
}

/// How two values compare: numbers by size, strings by their bytes.
pub open spec fn compared(a: ValueV, b: ValueV) -> Result<Order, RunErrorV> {
    match (a, b) {
        (ValueV::Number(x), ValueV::Number(y)) => match order_of(x, y) {
            Some(o) => Ok(o),
            None => Err(RunErrorV::Runtime("NaN comparison"@)),
        },
        (ValueV::Str(x), ValueV::Str(y)) => if crate::names::key_lt(x, y) {
            Ok(Order::Less)
        } else if crate::names::key_lt(y, x) {
            Ok(Order::Greater)
        } else {
            Ok(Order::Equal)
        },
        _ => Err(RunErrorV::Internal("bad comparison operands"@)),
    }
}

pub fn compare(a: &Value, b: &Value) -> (r: Result<Order, RunError>)
    ensures
        match r {
            Ok(o) => compared(a@, b@) == Ok::<Order, RunErrorV>(o),
            Err(e) => compared(a@, b@) == Err::<Order, RunErrorV>(e@),
        },
{
    match (a, b) {
        (Value::Number(x), Value::Number(y)) => match order(*x, *y) {
            Some(o) => Ok(o),
            None => Err(RunError::runtime("NaN comparison")),
        },
        (Value::Str(x), Value::Str(y)) => if crate::names::before(x.as_str(), y.as_str()) {
            Ok(Order::Less)
        } else if crate::names::before(y.as_str(), x.as_str()) {
            Ok(Order::Greater)
        } else {
            Ok(Order::Equal)
        },
        _ => Err(RunError::internal("bad comparison operands")),
    }
}

/// An object that values refer to.
#[derive(Debug)]
pub enum Obj {
    Array(Vec<Value>),
    Table(NameMap<Value>),
    /// A lifted function, the cells that it captured, and the compiled module that built it
    /// (0 for none).
    Closure { code: String, env: Vec<Value>, origin: u64 },
    Cell(Value),
}

pub ghost enum ObjV {
    Array(Seq<ValueV>),
    Table(Seq<(Seq<char>, ValueV)>),
    Closure { code: Seq<char>, env: Seq<ValueV>, origin: u64 },
    Cell(ValueV),
}

impl View for Obj {
    type V = ObjV;

    open spec fn view(&self) -> ObjV {
        match self {
            Obj::Array(vs) => ObjV::Array(values_v(vs@)),
            Obj::Table(t) => ObjV::Table(t@),
            Obj::Closure { code, env, origin } => ObjV::Closure {
                code: code@,
                env: values_v(env@),
                origin: *origin,
            },
            Obj::Cell(v) => ObjV::Cell(v@),
        }
    }
}

/// The objects, in the order of their creation.
#[derive(Debug)]
pub struct Heap {
    objs: Vec<Obj>,
}

pub type HeapV = Seq<ObjV>;

impl View for Heap {
    type V = HeapV;

    closed spec fn view(&self) -> HeapV {
        Seq::new(self.objs@.len(), |i: int| self.objs@[i]@)
    }
}

/// The elements of an array value.
pub open spec fn array_at(h: HeapV, v: ValueV) -> Option<Seq<ValueV>> {
    match v {
        ValueV::Array(i) => if i < h.len() {
            match h[i as int] {
                ObjV::Array(vs) => Some(vs),
                _ => None,
            }
        } else {
            None
        },
        _ => None,
    }
}

/// The entries of a table value.
pub open spec fn table_at(h: HeapV, v: ValueV) -> Option<Seq<(Seq<char>, ValueV)>> {
    match v {
        ValueV::Table(i) => if i < h.len() {
            match h[i as int] {
                ObjV::Table(t) => Some(t),
                _ => None,
            }
        } else {
            None
        },
        _ => None,
    }
}

/// The contents of a cell value.
pub open spec fn cell_at(h: HeapV, v: ValueV) -> Option<ValueV> {
    match v {
        ValueV::Cell(i) => if i < h.len() {
            match h[i as int] {
                ObjV::Cell(x) => Some(x),
                _ => None,
            }
        } else {
            None
        },
        _ => None,
    }
}

/// The function name and the captured cells of a closure value. A closure that another module
/// built is none of this heap.
pub open spec fn closure_at(h: HeapV, v: ValueV) -> Option<(Seq<char>, Seq<ValueV>)> {
    match v {
        ValueV::Closure(i, o) => if i < h.len() {
            match h[i as int] {
                ObjV::Closure { code, env, origin } => if origin == o {
                    Some((code, env))
                } else {
                    None
                },
                _ => None,
            }
        } else {
            None
        },
        _ => None,
    }
}

/// Whether a value is a closure that a module other than `own` built.
pub open spec fn is_foreign(v: ValueV, own: u64) -> bool {
    v matches ValueV::Closure(_, o) && o != own
}

/// Whether a value is an array or a table among the objects that were created between two
/// points: those of a constant.
pub open spec fn is_frozen(frozen: Seq<(usize, usize)>, v: ValueV) -> bool {
    match v {
        ValueV::Array(i) => exists|k: int|
            0 <= k < frozen.len() && (#[trigger] frozen[k]).0 <= i < frozen[k].1,
        ValueV::Table(i) => exists|k: int|
            0 <= k < frozen.len() && (#[trigger] frozen[k]).0 <= i < frozen[k].1,
        _ => false,
    }
}

/// Whether a value is part of a constant.
pub fn frozen_value(frozen: &Vec<(usize, usize)>, v: &Value) -> (r: bool)
    ensures
        r == is_frozen(frozen@, v@),
{
    let i: usize = match v {
        Value::Array(i) => *i,
        Value::Table(i) => *i,
        _ => {
            return false;
        },
    };
    let n: usize = frozen.len();
    let mut k: usize = 0;
    while k < n
        invariant
            k <= n,
            n == frozen@.len(),
            v@ == ValueV::Array(i) || v@ == ValueV::Table(i),
            forall|j: int|
                0 <= j < k ==> !((#[trigger] frozen@[j]).0 <= i < frozen@[j].1),
        decreases n - k,
    {
        if frozen[k].0 <= i && i < frozen[k].1 {
            assert(frozen@[k as int].0 <= i < frozen@[k as int].1);
            return true;
        }
        k += 1;
    }
    false
}

/// The refusal of a write to a constant.
pub open spec fn frozen_error_of() -> RunErrorV {
    RunErrorV::Runtime("cannot modify a constant"@)
}

/// The refusal of a write to a constant.
pub fn frozen_error() -> (r: RunError)
    ensures
        r@ == frozen_error_of(),
{
    RunError::runtime("cannot modify a constant")
}

/// The refusal of a call with the wrong number of arguments.
pub open spec fn arity_error_of(name: Seq<char>, want: nat, got: nat) -> RunErrorV {
    RunErrorV::Runtime(
        "`"@ + name + "` takes "@ + dec(want) + " argument(s), got "@ + dec(got),
    )
}

/// The refusal of a call with the wrong number of arguments.
pub fn arity_error(name: &str, want: usize, got: usize) -> (r: RunError)
    ensures
        r@ == arity_error_of(name@, want as nat, got as nat),
{
    let w = dec_string(want as u64);
    let g = dec_string(got as u64);
    let head = crate::text::cat4("`", name, "` takes ", w.as_str());
    RunError::Runtime(crate::text::cat3(head.as_str(), " argument(s), got ", g.as_str()))
}

/// `base[idx]` on an array; nil beyond its end and at what is no index.
pub open spec fn array_read(h: HeapV, base: ValueV, idx: ValueV) -> Result<ValueV, RunErrorV> {
    match array_at(h, base) {
        None => Err(RunErrorV::Internal("ArrayGet on a non-array"@)),
        Some(items) => match idx {
            ValueV::Number(b) => match index_of(b) {
                None => Ok(ValueV::Nil),
                Some(i) => if i <= items.len() {
                    Ok(items[i - 1])
                } else {
                    Ok(ValueV::Nil)
                },
            },
            _ => Err(RunErrorV::Internal("expected a number"@)),
        },
    }
}

/// `base[idx] = val` on an array: an element is replaced, or one is added at the end.
pub open spec fn array_written(h: HeapV, base: ValueV, idx: ValueV, val: ValueV) -> Result<
    HeapV,
    RunErrorV,
> {
    match array_at(h, base) {
        None => Err(RunErrorV::Internal("ArraySet on a non-array"@)),
        Some(items) => match idx {
            ValueV::Number(b) => match index_of(b) {
                None => Err(RunErrorV::Runtime("non-positive-integer array index"@)),
                Some(i) => if i <= items.len() {
                    Ok(h.update(base->Array_0 as int, ObjV::Array(items.update(i - 1, val))))
                } else if i == items.len() + 1 {
                    Ok(h.update(base->Array_0 as int, ObjV::Array(items.push(val))))
                } else {
                    Err(
                        RunErrorV::Runtime(
                            "array index "@ + dec(i as nat) + " out of range (len "@ + dec(
                                items.len(),
                            ) + ")"@,
                        ),
                    )
                },
            },
            _ => Err(RunErrorV::Internal("expected a number"@)),
        },
    }
}

/// `base[key]` on a table; nil where the key is absent.
pub open spec fn table_read(h: HeapV, base: ValueV, key: ValueV) -> Result<ValueV, RunErrorV> {
    match (table_at(h, base), key) {
        (Some(t), ValueV::Str(k)) => match get_of(t, k) {
            Some(v) => Ok(v),
            None => Ok(ValueV::Nil),
        },
        _ => Err(RunErrorV::Internal("MapGet on a non-table/non-string key"@)),
    }
}

/// `base[key] = val` on a table.
pub open spec fn table_written(h: HeapV, base: ValueV, key: ValueV, val: ValueV) -> Result<
    HeapV,
    RunErrorV,
> {
    match (table_at(h, base), key) {
        (Some(t), ValueV::Str(k)) => Ok(
            h.update(base->Table_0 as int, ObjV::Table(put_of(t, k, val))),
        ),
        _ => Err(RunErrorV::Internal("MapSet on a non-table/non-string key"@)),
    }
}

/// The field of a value: nil where the value is no table or has no such field.
pub open spec fn field_read(h: HeapV, base: ValueV, name: Seq<char>) -> ValueV {
    match table_at(h, base) {
        Some(t) => match get_of(t, name) {
            Some(v) => v,
            None => ValueV::Nil,
        },
        None => ValueV::Nil,
    }
}

/// The keys of entries as string values.
pub open spec fn key_values(t: Seq<(Seq<char>, ValueV)>) -> Seq<ValueV> {
    Seq::new(t.len(), |i: int| ValueV::Str(t[i].0))
}

impl Heap {
    pub fn new() -> (r: Heap)
        ensures
            r@ == Seq::<ObjV>::empty(),
    {
        let r = Heap { objs: Vec::new() };
        assert(r@ =~= Seq::<ObjV>::empty());
        r
    }

    /// Number of objects.
    pub fn len(&self) -> (r: usize)
        ensures
            r == self@.len(),
    {
        self.objs.len()
    }

    fn add_object(&mut self, obj: Obj) -> (r: usize)
        ensures
            final(self)@ == old(self)@.push(obj@),
            r == old(self)@.len(),
    {
        let ghost o = obj@;
        let id = self.objs.len();
        self.objs.push(obj);
        assert(self@ =~= old(self)@.push(o));
        id
    }

    /// A new array.
    pub fn array(&mut self, items: Vec<Value>) -> (r: Value)
        ensures
            final(self)@ == old(self)@.push(ObjV::Array(values_v(items@))),
            r@ == ValueV::Array(old(self)@.len() as usize),
    {
        Value::Array(self.add_object(Obj::Array(items)))
    }

    /// A new table.
    pub fn table(&mut self, entries: NameMap<Value>) -> (r: Value)
        ensures
            final(self)@ == old(self)@.push(ObjV::Table(entries@)),
            r@ == ValueV::Table(old(self)@.len() as usize),
    {
        Value::Table(self.add_object(Obj::Table(entries)))
    }

    /// A new empty table.
    pub fn empty_table(&mut self) -> (r: Value)
        ensures
            final(self)@ == old(self)@.push(ObjV::Table(Seq::empty())),
            r@ == ValueV::Table(old(self)@.len() as usize),
    {
        self.table(NameMap::new())
    }

    /// A new cell.
    pub fn cell(&mut self, v: Value) -> (r: Value)
        ensures
            final(self)@ == old(self)@.push(ObjV::Cell(v@)),
            r@ == ValueV::Cell(old(self)@.len() as usize),
    {
        Value::Cell(self.add_object(Obj::Cell(v)))
    }

    /// A new closure.
    pub fn closure(&mut self, code: String, env: Vec<Value>, origin: u64) -> (r: Value)
        ensures
            final(self)@ == old(self)@.push(
                (ObjV::Closure { code: code@, env: values_v(env@), origin }),
            ),
            r@ == ValueV::Closure(old(self)@.len() as usize, origin),
    {
        Value::Closure(self.add_object(Obj::Closure { code, env, origin }), origin)
    }

    /// The elements, if `v` is an array.
    pub fn as_array(&self, v: &Value) -> (r: Option<&Vec<Value>>)
        ensures
            match r {
                Some(items) => array_at(self@, v@) == Some(values_v(items@)),
                None => array_at(self@, v@) is None,
            },
    {
        if let Value::Array(i) = v {
            if *i < self.objs.len() {
                assert(self@[*i as int] == self.objs@[*i as int]@);
                if let Obj::Array(items) = &self.objs[*i] {
                    return Some(items);
                }
            }
        }
        None
    }

    /// The entries, if `v` is a table.
    pub fn as_table(&self, v: &Value) -> (r: Option<&NameMap<Value>>)
        ensures
            match r {
                Some(t) => table_at(self@, v@) == Some(t@),
                None => table_at(self@, v@) is None,
            },
    {
        if let Value::Table(i) = v {
            if *i < self.objs.len() {
                assert(self@[*i as int] == self.objs@[*i as int]@);
                if let Obj::Table(t) = &self.objs[*i] {
                    return Some(t);
                }
            }
        }
        None
    }

    /// The contents, if `v` is a cell.
    pub fn as_cell(&self, v: &Value) -> (r: Option<&Value>)
        ensures
            match r {
                Some(x) => cell_at(self@, v@) == Some(x@),
                None => cell_at(self@, v@) is None,
            },
    {
        if let Value::Cell(i) = v {
            if *i < self.objs.len() {
                assert(self@[*i as int] == self.objs@[*i as int]@);
                if let Obj::Cell(x) = &self.objs[*i] {
                    return Some(x);
                }
            }
        }
        None
    }

    /// The function name and the captured cells, if `v` is a closure.
    pub fn as_closure(&self, v: &Value) -> (r: Option<(&String, &Vec<Value>)>)
        ensures
            match r {
                Some((code, env)) => closure_at(self@, v@) == Some((code@, values_v(env@))),
                None => closure_at(self@, v@) is None,
            },
    {
        if let Value::Closure(i, o) = v {
            if *i < self.objs.len() {
                assert(self@[*i as int] == self.objs@[*i as int]@);
                if let Obj::Closure { code, env, origin } = &self.objs[*i] {
                    if *origin == *o {
                        return Some((code, env));
                    }
                }
            }
        }
        None
    }

    /// `base[idx]` on an array.
    pub fn array_get(&self, base: &Value, idx: &Value) -> (r: Result<Value, RunError>)
        ensures
            match r {
                Ok(v) => array_read(self@, base@, idx@) == Ok::<ValueV, RunErrorV>(v@),
                Err(e) => array_read(self@, base@, idx@) == Err::<ValueV, RunErrorV>(e@),
            },
    {
        match self.as_array(base) {
            None => Err(RunError::internal("ArrayGet on a non-array")),
            Some(items) => match idx {
                Value::Number(b) => match index(*b) {
                    None => Ok(Value::Nil),
                    Some(i) => if i <= items.len() as u64 {
                        Ok(items[(i - 1) as usize].dup())
                    } else {
                        Ok(Value::Nil)
                    },
                },
                _ => Err(RunError::internal("expected a number")),
            },
        }
    }

    /// `base[idx] = val` on an array.
    pub fn array_set(&mut self, base: &Value, idx: &Value, val: Value) -> (r: Result<(), RunError>)
        ensures
            match r {
                Ok(_) => array_written(old(self)@, base@, idx@, val@) == Ok::<HeapV, RunErrorV>(
                    final(self)@,
                ),
                Err(e) => array_written(old(self)@, base@, idx@, val@) == Err::<HeapV, RunErrorV>(
                    e@,
                ) && final(self)@ == old(self)@,
            },
    {
        let n: usize = match self.as_array(base) {
            None => {
                return Err(RunError::internal("ArraySet on a non-array"));
            },
            Some(items) => items.len(),
        };
        let i: u64 = match idx {
            Value::Number(b) => match index(*b) {
                None => {
                    return Err(RunError::runtime("non-positive-integer array index"));
                },
                Some(i) => i,
            },
            _ => {
                return Err(RunError::internal("expected a number"));
            },
        };
        if let Value::Array(id) = base {
            let id = *id;
            let ghost items = array_at(self@, base@)->0;
            let ghost vv = val@;
            assert(self@[id as int] == self.objs@[id as int]@);
            if i <= n as u64 {
                let k: usize = (i - 1) as usize;
                if let Obj::Array(vs) = &mut self.objs[id] {
                    vs.set(k, val);
                }
                proof {
                    assert(values_v((self.objs@[id as int])->Array_0@) =~= items.update(
                        k as int,
                        vv,
                    ));
                    assert(self@ =~= old(self)@.update(
                        id as int,
                        ObjV::Array(items.update(k as int, vv)),
                    ));
                }
                return Ok(());
            }
            if i - 1 == n as u64 {
                if let Obj::Array(vs) = &mut self.objs[id] {
                    vs.push(val);
                }
                proof {
                    assert(values_v((self.objs@[id as int])->Array_0@) =~= items.push(vv));
                    assert(self@ =~= old(self)@.update(id as int, ObjV::Array(items.push(vv))));
                }
                return Ok(());
            }
        }
        let at = dec_string(i);
        let len = dec_string(n as u64);
        Err(
            RunError::Runtime(
                cat5("array index ", at.as_str(), " out of range (len ", len.as_str(), ")"),
            ),
        )
    }

    /// `base[key]` on a table.
    pub fn table_get(&self, base: &Value, key: &Value) -> (r: Result<Value, RunError>)
        ensures
            match r {
                Ok(v) => table_read(self@, base@, key@) == Ok::<ValueV, RunErrorV>(v@),
                Err(e) => table_read(self@, base@, key@) == Err::<ValueV, RunErrorV>(e@),
            },
    {
        if let Some(t) = self.as_table(base) {
            if let Value::Str(k) = key {
                return match t.get(k.as_str()) {
                    Some(v) => Ok(v.dup()),
                    None => Ok(Value::Nil),
                };
            }
        }
        Err(RunError::internal("MapGet on a non-table/non-string key"))
    }

    /// `base[key] = val` on a table.
    pub fn table_set(&mut self, base: &Value, key: &Value, val: Value) -> (r: Result<(), RunError>)
        ensures
            match r {
                Ok(_) => table_written(old(self)@, base@, key@, val@) == Ok::<HeapV, RunErrorV>(
                    final(self)@,
                ),
                Err(e) => table_written(old(self)@, base@, key@, val@) == Err::<HeapV, RunErrorV>(
                    e@,
                ) && final(self)@ == old(self)@,
            },
    {
        if self.as_table(base).is_some() {
            if let Value::Str(k) = key {
                if let Value::Table(id) = base {
                    let id = *id;
                    let ghost t0 = table_at(self@, base@)->0;
                    let ghost vv = val@;
                    assert(self@[id as int] == self.objs@[id as int]@);
                    if let Obj::Table(t) = &mut self.objs[id] {
                        t.insert(k.clone(), val);
                    }
                    assert(self@ =~= old(self)@.update(
                        id as int,
                        ObjV::Table(put_of(t0, k@, vv)),
                    ));
                    return Ok(());
                }
            }
        }
        Err(RunError::internal("MapSet on a non-table/non-string key"))
    }

    /// Read a field; nil where the value is no table or has no such field.
    pub fn field(&self, base: &Value, name: &str) -> (r: Value)
        ensures
            r@ == field_read(self@, base@, name@),
    {
        match self.as_table(base) {
            Some(t) => match t.get(name) {
                Some(v) => v.dup(),
                None => Value::Nil,
            },
            None => Value::Nil,
        }
    }

    /// The keys of a table as string values, in order.
    pub fn keys(&self, base: &Value) -> (r: Result<Vec<Value>, RunError>)
        ensures
            match r {
                Ok(ks) => table_at(self@, base@) is Some && values_v(ks@) == key_values(
                    table_at(self@, base@)->0,
                ),
                Err(e) => table_at(self@, base@) is None && e@ == RunErrorV::Internal(
                    "MapKeys on a non-table"@,
                ),
            },
    {
        match self.as_table(base) {
            None => Err(RunError::internal("MapKeys on a non-table")),
            Some(t) => {
                let mut out: Vec<Value> = Vec::new();
                let mut i: usize = 0;
                while i < t.len()
                    invariant
                        i <= t@.len(),
                        out@.len() == i,
                        forall|k: int| 0 <= k < i ==> (#[trigger] out@[k])@ == ValueV::Str(t@[k].0),
                    decreases t@.len() - i,
                {
                    out.push(Value::Str(t.key(i).clone()));
                    i += 1;
                }
                assert(values_v(out@) =~= key_values(t@));
                Ok(out)
            },
        }
    }

    /// Add an element at the end of an array; nothing happens if `base` is none.
    pub fn array_push(&mut self, base: &Value, val: Value)
        ensures
            final(self)@ == match array_at(old(self)@, base@) {
                Some(items) => old(self)@.update(
                    base@->Array_0 as int,
                    ObjV::Array(items.push(val@)),
                ),
                None => old(self)@,
            },
    {
        if self.as_array(base).is_some() {
            if let Value::Array(id) = base {
                let id = *id;
                let ghost items = array_at(self@, base@)->0;
                let ghost vv = val@;
                assert(self@[id as int] == self.objs@[id as int]@);
                if let Obj::Array(vs) = &mut self.objs[id] {
                    vs.push(val);
                }
                assert(values_v((self.objs@[id as int])->Array_0@) =~= items.push(vv));
                assert(self@ =~= old(self)@.update(id as int, ObjV::Array(items.push(vv))));
            }
        }
    }

    /// Write into a cell; yields whether `c` is one.
    pub fn set_cell(&mut self, c: &Value, val: Value) -> (r: bool)
        ensures
            r == (cell_at(old(self)@, c@) is Some),
            r ==> final(self)@ == old(self)@.update(c@->Cell_0 as int, ObjV::Cell(val@)),
            !r ==> final(self)@ == old(self)@,
    {
        if self.as_cell(c).is_some() {
            if let Value::Cell(id) = c {
                let ghost vv = val@;
                self.objs.set(*id, Obj::Cell(val));
                assert(self@ =~= old(self)@.update(*id as int, ObjV::Cell(vv)));
                return true;
            }
        }
        false
    }
}

/// A write to an array is read back: at the index written the value, elsewhere what was
/// there.
pub proof fn law_array_write_read(h: HeapV, base: ValueV, idx: ValueV, val: ValueV, other: ValueV)
    requires
        array_written(h, base, idx, val) is Ok,
    ensures
        array_read(array_written(h, base, idx, val)->Ok_0, base, idx) == Ok::<ValueV, RunErrorV>(
            val,
        ),
        other is Number && index_of(other->Number_0) != index_of(idx->Number_0) ==> array_read(
            array_written(h, base, idx, val)->Ok_0,
            base,
            other,
        ) == array_read(h, base, other),
{
}

/// A write to a table is read back: at the key written the value, elsewhere what was there.
pub proof fn law_table_write_read(
    h: HeapV,
    base: ValueV,
    key: ValueV,
    val: ValueV,
    other: Seq<char>,
)
    requires
        table_written(h, base, key, val) is Ok,
        crate::names::ascending(crate::names::keys_of(table_at(h, base)->0)),
    ensures
        table_read(table_written(h, base, key, val)->Ok_0, base, key) == Ok::<ValueV, RunErrorV>(
            val,
        ),
        key != ValueV::Str(other) ==> table_read(
            table_written(h, base, key, val)->Ok_0,
            base,
            ValueV::Str(other),
        ) == table_read(h, base, ValueV::Str(other)),
{
    crate::names::law_put_get(table_at(h, base)->0, key->Str_0, val, other);
    crate::names::law_put_get(table_at(h, base)->0, key->Str_0, val, key->Str_0);
}

} // verus!
