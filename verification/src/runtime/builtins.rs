//! The builtin catalog: the signatures of `math.*`, `string.*`, `tostring` and `tonumber`.
//!
//! The type checker and the lowering both consult it, so that a builtin's type lives in
//! exactly one place.
use vstd::prelude::*;
use crate::text::same;
use crate::types::{types_v, Type, TypeV};

verus! {

/// How a builtin's arguments are checked, when a plain positional parameter list cannot
/// fully express it.
#[derive(Clone, Copy, Debug, PartialEq, Eq, Structural)]
pub enum ArgRule {
    /// Each argument is checked positionally against [`Sig::params`].
    Fixed,
    /// A single argument that must be a printable scalar (`number`, `bool`, or `string`).
    /// Used by `tostring`. [`Sig::params`] is empty.
    Scalar,
    /// `params[0]` is a format string; any further arguments are accepted unchecked. Used
    /// by `string.format`.
    FormatVariadic,
}

/// How many arguments a builtin accepts.
#[derive(Clone, Copy, Debug, PartialEq, Eq, Structural)]
pub enum Arity {
    Exact(usize),
    AtLeast(usize),
}

/// The signature of a builtin: positionally checked parameter types, return type, argument
/// discipline, and arity.
#[derive(Clone, Debug, PartialEq, Eq)]
pub struct Sig {
    pub params: Vec<Type>,
    pub ret: Type,
    pub rule: ArgRule,
    pub arity: Arity,
}

pub ghost struct SigV {
    pub params: Seq<TypeV>,
    pub ret: TypeV,
    pub rule: ArgRule,
    pub arity: Arity,
}

impl View for Sig {
    type V = SigV;

    open spec fn view(&self) -> SigV {
        SigV {
            params: types_v(self.params@),
            ret: self.ret@,
            rule: self.rule,
            arity: self.arity,
        }
    }
}

/// A signature whose arguments are checked one by one.
pub open spec fn fixed_of(params: Seq<TypeV>, ret: TypeV) -> SigV {
    SigV { params, ret, rule: ArgRule::Fixed, arity: Arity::Exact(params.len() as usize) }
}

pub open spec fn optional_of(t: TypeV) -> TypeV {
    TypeV::Optional(Box::new(t))
}

/// The signature of the value builtin `name`.
pub open spec fn value_sig_of(name: Seq<char>) -> Option<SigV> {
    if name == "tostring"@ {
        Some(
            SigV {
                params: Seq::empty(),
                ret: TypeV::String,
                rule: ArgRule::Scalar,
                arity: Arity::Exact(1),
            },
        )
    } else if name == "tonumber"@ {
        Some(fixed_of(seq![TypeV::String], optional_of(TypeV::Number)))
    } else {
        None
    }
}

/// The signature of the builtin `member` of the namespace `ns`.
#[verifier::opaque]
pub open spec fn member_sig_of(ns: Seq<char>, member: Seq<char>) -> Option<SigV> {
    if ns == "math"@ {
        if member == "floor"@ || member == "ceil"@ || member == "abs"@ || member == "sqrt"@ {
            Some(fixed_of(seq![TypeV::Number], TypeV::Number))
        } else if member == "min"@ || member == "max"@ || member == "pow"@ {
            Some(fixed_of(seq![TypeV::Number, TypeV::Number], TypeV::Number))
        } else {
            None
        }
    } else if ns == "string"@ {
        if member == "len"@ {
            Some(fixed_of(seq![TypeV::String], TypeV::Number))
        } else if member == "upper"@ || member == "lower"@ {
            Some(fixed_of(seq![TypeV::String], TypeV::String))
        } else if member == "sub"@ {
            Some(fixed_of(seq![TypeV::String, TypeV::Number, TypeV::Number], TypeV::String))
        } else if member == "find"@ {
            Some(fixed_of(seq![TypeV::String, TypeV::String], optional_of(TypeV::Number)))
        } else if member == "format"@ {
            Some(
                SigV {
                    params: seq![TypeV::String],
                    ret: TypeV::String,
                    rule: ArgRule::FormatVariadic,
                    arity: Arity::AtLeast(1),
                },
            )
        } else {
            None
        }
    } else {
        None
    }
}

/// The type of the value field `field` of the namespace `ns`.
#[verifier::opaque]
pub open spec fn field_type_of(ns: Seq<char>, field: Seq<char>) -> Option<TypeV> {
    if ns == "math"@ && (field == "pi"@ || field == "huge"@) {
        Some(TypeV::Number)
    } else {
        None
    }
}

fn fixed1(a: Type, ret: Type) -> (r: Sig)
    ensures
        r@ == fixed_of(seq![a@], ret@),
{
    let ghost av = a@;
    let mut params: Vec<Type> = Vec::new();
    params.push(a);
    assert(types_v(params@) =~= seq![av]);
    Sig { params, ret, rule: ArgRule::Fixed, arity: Arity::Exact(1) }
}

fn fixed2(a: Type, b: Type, ret: Type) -> (r: Sig)
    ensures
        r@ == fixed_of(seq![a@, b@], ret@),
{
    let ghost av = a@;
    let ghost bv = b@;
    let mut params: Vec<Type> = Vec::new();
    params.push(a);
    params.push(b);
    assert(types_v(params@) =~= seq![av, bv]);
    Sig { params, ret, rule: ArgRule::Fixed, arity: Arity::Exact(2) }
}

fn fixed3(a: Type, b: Type, c: Type, ret: Type) -> (r: Sig)
    ensures
        r@ == fixed_of(seq![a@, b@, c@], ret@),
{
    let ghost av = a@;
    let ghost bv = b@;
    let ghost cv = c@;
    let mut params: Vec<Type> = Vec::new();
    params.push(a);
    params.push(b);
    params.push(c);
    assert(types_v(params@) =~= seq![av, bv, cv]);
    Sig { params, ret, rule: ArgRule::Fixed, arity: Arity::Exact(3) }
}

/// Signature of a plain value builtin: `tostring` or `tonumber`. Returns `None` for any
/// other name.
pub fn value_sig(name: &str) -> (r: Option<Sig>)
    ensures
        match r {
            Some(s) => value_sig_of(name@) == Some(s@),
            None => value_sig_of(name@) is None,
        },
{
    if same(name, "tostring") {
        let params: Vec<Type> = Vec::new();
        assert(types_v(params@) =~= Seq::<TypeV>::empty());
        Some(Sig { params, ret: Type::String, rule: ArgRule::Scalar, arity: Arity::Exact(1) })
    } else if same(name, "tonumber") {
        Some(fixed1(Type::String, Type::optional(Type::Number)))
    } else {
        None
    }
}

/// Signature of a namespace member builtin (`math.*`, `string.*`). Returns `None` if the
/// namespace has no such member.
pub fn member_sig(ns: &str, member: &str) -> (r: Option<Sig>)
    ensures
        match r {
            Some(s) => member_sig_of(ns@, member@) == Some(s@),
            None => member_sig_of(ns@, member@) is None,
        },
{
    proof {
        reveal(member_sig_of);
    }
    if same(ns, "math") {
        if same(member, "floor") || same(member, "ceil") || same(member, "abs") || same(
            member,
            "sqrt",
        ) {
            Some(fixed1(Type::Number, Type::Number))
        } else if same(member, "min") || same(member, "max") || same(member, "pow") {
            Some(fixed2(Type::Number, Type::Number, Type::Number))
        } else {
            None
        }
    } else if same(ns, "string") {
        if same(member, "len") {
            Some(fixed1(Type::String, Type::Number))
        } else if same(member, "upper") || same(member, "lower") {
            Some(fixed1(Type::String, Type::String))
        } else if same(member, "sub") {
            Some(fixed3(Type::String, Type::Number, Type::Number, Type::String))
        } else if same(member, "find") {
            Some(fixed2(Type::String, Type::String, Type::optional(Type::Number)))
        } else if same(member, "format") {
            let mut params: Vec<Type> = Vec::new();
            params.push(Type::String);
            assert(types_v(params@) =~= seq![TypeV::String]);
            Some(
                Sig {
                    params,
                    ret: Type::String,
                    rule: ArgRule::FormatVariadic,
                    arity: Arity::AtLeast(1),
                },
            )
        } else {
            None
        }
    } else {
        None
    }
}

/// Type of a namespace value field (`math.pi`, `math.huge`). Returns `None` if the
/// namespace has no such field.
pub fn namespace_field_type(ns: &str, field: &str) -> (r: Option<Type>)
    ensures
        match r {
            Some(t) => field_type_of(ns@, field@) == Some(t@),
            None => field_type_of(ns@, field@) is None,
        },
{
    proof {
        reveal(field_type_of);
    }
    if same(ns, "math") && (same(field, "pi") || same(field, "huge")) {
        Some(Type::Number)
    } else {
        None
    }
}

/// The arity of every catalogued builtin is the one its parameter list spells.
pub proof fn law_sig_arity(ns: Seq<char>, member: Seq<char>)
    ensures
        member_sig_of(ns, member) matches Some(s) ==> match s.arity {
            Arity::Exact(n) => n == s.params.len() && s.rule == ArgRule::Fixed,
            Arity::AtLeast(n) => n == s.params.len() && s.rule == ArgRule::FormatVariadic,
        },
{
    reveal(member_sig_of);
}

} // verus!
