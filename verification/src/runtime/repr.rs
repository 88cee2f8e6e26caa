//! The flat value representation at the boundary to compiled code.
//!
//! The language is statically typed, so a value carries no runtime tag: how a machine word is
//! interpreted is fixed by the value's static [`Type`]. [`Repr`] is the small set of
//! representation classes that types collapse to, and [`Slot`] is the single 64-bit word that
//! carries one value across the boundary.
use vstd::prelude::*;
use crate::types::{Type, TypeV};

verus! {

/// The representation class of a value at the boundary.
#[derive(Clone, Copy, Debug, PartialEq, Eq, Hash, Structural)]
pub enum Repr {
    /// A double-precision float: the `number` type.
    Number,
    /// A byte carrying 0 or 1: the `bool` type.
    Bool,
    /// A pointer-sized handle: `string`, `array`, `map`, `record`, `userdata`, functions, and
    /// any optional type. `nil` is the null handle.
    Ptr,
    /// No value: the result of a function without `return`.
    Unit,
}

/// The representation class of a type. An optional scalar is a nullable handle too.
pub open spec fn repr_of(t: TypeV) -> Repr {
    match t {
        TypeV::Number => Repr::Number,
        TypeV::Bool => Repr::Bool,
        TypeV::Unit => Repr::Unit,
        _ => Repr::Ptr,
    }
}

impl Repr {
    /// The representation class of `ty`.
    pub fn of(ty: &Type) -> (r: Repr)
        ensures
            r == repr_of(ty@),
    {
        match ty {
            Type::Number => Repr::Number,
            Type::Bool => Repr::Bool,
            Type::Unit => Repr::Unit,
            _ => Repr::Ptr,
        }
    }

    /// The name of the machine type.
    pub open spec fn machine_type(self) -> Seq<char> {
        match self {
            Repr::Number => "f64"@,
            Repr::Bool => "i8"@,
            Repr::Ptr => "i64"@,
            Repr::Unit => "(none)"@,
        }
    }

    /// The name of the machine type that this class lowers to.
    pub fn cranelift_type(self) -> (r: &'static str)
        ensures
            r@ == self.machine_type(),
    {
        match self {
            Repr::Number => "f64",
            Repr::Bool => "i8",
            Repr::Ptr => "i64",
            Repr::Unit => "(none)",
        }
    }

    /// Size in bytes.
    pub open spec fn width(self) -> int {
        match self {
            Repr::Number => 8,
            Repr::Ptr => 8,
            Repr::Bool => 1,
            Repr::Unit => 0,
        }
    }

    /// Size in bytes of this class when stored.
    pub fn size(self) -> (r: usize)
        ensures
            r == self.width(),
    {
        match self {
            Repr::Number => 8,
            Repr::Ptr => 8,
            Repr::Bool => 1,
            Repr::Unit => 0,
        }
    }
}

/// One machine word, whose meaning is fixed by the value's static [`Repr`]. There is no tag.
#[derive(Clone, Copy, Debug, PartialEq, Eq, Hash, Structural)]
pub struct Slot(u64);

impl Slot {
    /// The word.
    pub closed spec fn word(self) -> u64 {
        self.0
    }

    /// The null handle: the representation of `nil` for a [`Repr::Ptr`] value.
    pub fn null() -> (r: Slot)
        ensures
            r.word() == 0,
    {
        Slot(0)
    }

    /// Wrap a number, given by its bit pattern.
    pub fn from_number(bits: u64) -> (r: Slot)
        ensures
            r.word() == bits,
    {
        Slot(bits)
    }

    /// Read this slot as the bit pattern of a number.
    pub fn as_number(self) -> (r: u64)
        ensures
            r == self.word(),
    {
        self.0
    }

    /// Wrap a `bool` (0 or 1).
    pub fn from_bool(b: bool) -> (r: Slot)
        ensures
            r.word() == if b {
                1u64
            } else {
                0u64
            },
    {
        Slot(
            if b {
                1
            } else {
                0
            },
        )
    }

    /// Read this slot as a `bool` (non-zero is true).
    pub fn as_bool(self) -> (r: bool)
        ensures
            r == (self.word() != 0),
    {
        self.0 != 0
    }

    /// Wrap an opaque handle.
    pub fn from_handle(h: u64) -> (r: Slot)
        ensures
            r.word() == h,
    {
        Slot(h)
    }

    /// Read the opaque handle.
    pub fn handle(self) -> (r: u64)
        ensures
            r == self.word(),
    {
        self.0
    }

    /// Whether this is the null handle.
    pub fn is_null(self) -> (r: bool)
        ensures
            r == (self.word() == 0),
    {
        self.0 == 0
    }

    /// The raw bits.
    pub fn bits(self) -> (r: u64)
        ensures
            r == self.word(),
    {
        self.0
    }

    /// Reconstruct a slot from raw bits.
    pub fn from_bits(b: u64) -> (r: Slot)
        ensures
            r.word() == b,
    {
        Slot(b)
    }
}

/// A slot is nothing but its word: slots with the same word are the same.
pub proof fn law_slot_is_its_word(a: Slot, b: Slot)
    ensures
        a.word() == b.word() <==> a == b,
{
}

} // verus!
