//! How compiled scripts call into the host.
//!
//! Two boundaries cross into the host: registered functions, whose calling convention is an
//! [`FnAbi`], and host memory, whose fields a [`MemorySchema`] lists. Both are described in
//! terms of [`Repr`].
use vstd::prelude::*;
use crate::runtime::repr::{repr_of, Repr};
use crate::text::{cat3, own, same};
use crate::types::{types_v, FnType, FnTypeV, Type, TypeV};

verus! {

/// An error raised by a host-registered function.
#[derive(Clone, Debug)]
pub struct HostError(pub String);

impl HostError {
    /// The message.
    pub fn to_string(&self) -> (r: String)
        ensures
            r@ == self.0@,
    {
        self.0.clone()
    }
}

/// The calling convention of a function: the [`Repr`] of each parameter and of the result.
#[derive(Clone, Debug, PartialEq, Eq)]
pub struct FnAbi {
    pub params: Vec<Repr>,
    pub ret: Repr,
}

/// The classes of a list of types.
pub open spec fn reprs_of(ts: Seq<TypeV>) -> Seq<Repr> {
    Seq::new(ts.len(), |i: int| repr_of(ts[i]))
}

/// The names of the first `n` classes, separated by commas.
pub open spec fn type_list(rs: Seq<Repr>, n: int) -> Seq<char>
    decreases n,
{
    if n <= 0 {
        Seq::empty()
    } else if n == 1 {
        rs[0].machine_type()
    } else {
        type_list(rs, n - 1) + ", "@ + rs[n - 1].machine_type()
    }
}

/// The text of a calling convention.
pub open spec fn signature_text(params: Seq<Repr>, ret: Repr) -> Seq<char> {
    "("@ + type_list(params, params.len() as int) + ")"@ + match ret {
        Repr::Unit => Seq::empty(),
        r => " -> "@ + r.machine_type(),
    }
}

impl FnAbi {
    /// Derive the calling convention of `ft`.
    pub fn of(ft: &FnType) -> (r: FnAbi)
        ensures
            r.params@ == reprs_of(ft@.params),
            r.ret == repr_of(*ft@.ret),
    {
        assert(ft@ == (FnTypeV { params: types_v(ft.params@), ret: Box::new(ft.ret@) }));
        let mut params: Vec<Repr> = Vec::new();
        let mut i: usize = 0;
        while i < ft.params.len()
            invariant
                i <= ft.params@.len(),
                ft@.params == types_v(ft.params@),
                params@.len() == i,
                forall|k: int| 0 <= k < i ==> (#[trigger] params@[k]) == repr_of(ft@.params[k]),
            decreases ft.params@.len() - i,
        {
            params.push(Repr::of(&ft.params[i]));
            i += 1;
        }
        assert(params@ =~= reprs_of(ft@.params));
        FnAbi { params, ret: Repr::of(&ft.ret) }
    }

    /// A readable signature, such as `(f64, i8) -> i64`.
    pub fn cranelift_signature(&self) -> (r: String)
        ensures
            r@ == signature_text(self.params@, self.ret),
    {
        let mut list = own("");
        proof {
            reveal_strlit("");
            assert(list@ =~= type_list(self.params@, 0));
        }
        let mut i: usize = 0;
        while i < self.params.len()
            invariant
                i <= self.params@.len(),
                list@ == type_list(self.params@, i as int),
            decreases self.params@.len() - i,
        {
            if i > 0 {
                list.append(", ");
            } else {
                assert(list@ =~= Seq::<char>::empty());
            }
            list.append(self.params[i].cranelift_type());
            assert(list@ =~= type_list(self.params@, i + 1));
            i += 1;
        }
        let mut out = cat3("(", list.as_str(), ")");
        match self.ret {
            Repr::Unit => {
                assert(out@ =~= signature_text(self.params@, self.ret));
            },
            _ => {
                out.append(" -> ");
                out.append(self.ret.cranelift_type());
                assert(out@ =~= signature_text(self.params@, self.ret));
            },
        }
        out
    }
}

/// One field of a host memory binding: its name, static type, and [`Repr`].
#[derive(Clone, Debug, PartialEq)]
pub struct MemoryField {
    pub name: String,
    pub ty: Type,
    pub repr: Repr,
}

pub ghost struct MemoryFieldV {
    pub name: Seq<char>,
    pub ty: TypeV,
    pub repr: Repr,
}

impl View for MemoryField {
    type V = MemoryFieldV;

    open spec fn view(&self) -> MemoryFieldV {
        MemoryFieldV { name: self.name@, ty: self.ty@, repr: self.repr }
    }
}

/// The accessor schema of a host memory binding.
#[derive(Clone, Debug, PartialEq)]
pub struct MemorySchema {
    pub fields: Vec<MemoryField>,
}

impl View for MemorySchema {
    type V = Seq<MemoryFieldV>;

    open spec fn view(&self) -> Seq<MemoryFieldV> {
        Seq::new(self.fields@.len(), |i: int| self.fields@[i]@)
    }
}

/// The accessors of a record's fields, in the order of the keys.
pub open spec fn schema_of(fields: Seq<(Seq<char>, TypeV)>) -> Seq<MemoryFieldV> {
    Seq::new(
        fields.len(),
        |i: int|
            MemoryFieldV { name: fields[i].0, ty: fields[i].1, repr: repr_of(fields[i].1) },
    )
}

/// The first field of that name from `i` on.
pub open spec fn field_named(fields: Seq<MemoryFieldV>, name: Seq<char>, i: int) -> Option<
    MemoryFieldV,
>
    decreases fields.len() - i,
{
    if i < 0 || i >= fields.len() {
        None
    } else if fields[i].name == name {
        Some(fields[i])
    } else {
        field_named(fields, name, i + 1)
    }
}

impl MemorySchema {
    /// Derive the schema of a memory binding from its type: a record has one, nothing else
    /// does.
    pub fn of(ty: &Type) -> (r: Option<MemorySchema>)
        ensures
            match r {
                Some(s) => ty@ is Record && s@ == schema_of(ty@->Record_0),
                None => !(ty@ is Record),
            },
    {
        match ty {
            Type::Record(fields) => {
                let mut out: Vec<MemoryField> = Vec::new();
                let mut i: usize = 0;
                while i < fields.len()
                    invariant
                        i <= fields@.len(),
                        out@.len() == i,
                        forall|k: int|
                            0 <= k < i ==> (#[trigger] out@[k])@ == schema_of(fields@)[k],
                    decreases fields@.len() - i,
                {
                    let ty = fields.value(i).dup();
                    let repr = Repr::of(&ty);
                    out.push(MemoryField { name: fields.key(i).clone(), ty, repr });
                    i += 1;
                }
                let s = MemorySchema { fields: out };
                assert(s@ =~= schema_of(fields@));
                Some(s)
            },
            _ => None,
        }
    }

    /// Look up a field's accessor by name.
    pub fn field(&self, name: &str) -> (r: Option<&MemoryField>)
        ensures
            match r {
                Some(f) => field_named(self@, name@, 0) == Some(f@),
                None => field_named(self@, name@, 0) is None,
            },
    {
        let mut i: usize = 0;
        while i < self.fields.len()
            invariant
                i <= self.fields@.len(),
                field_named(self@, name@, i as int) == field_named(self@, name@, 0),
            decreases self.fields@.len() - i,
        {
            assert(self@[i as int] == self.fields@[i as int]@);
            if same(self.fields[i].name.as_str(), name) {
                return Some(&self.fields[i]);
            }
            i += 1;
        }
        None
    }
}

} // verus!
