//! Evaluation of the builtins.
//!
//! Everything about a builtin that does not round is decided here; what takes
//! floating-point arithmetic, the spelling of a number or a host function is put as a
//! [`Request`], and [`answer`] says what value the reply stands for.
use vstd::prelude::*;
use vstd::string::*;
use vstd::utf8::{
    encode_utf8, encode_utf8_decode_utf8, encode_utf8_valid_utf8, is_ascii_chars,
    is_ascii_chars_encode_utf8,
};
use crate::ast::BinOp;
use crate::names::NameMap;
use crate::number::{integer, integer_of, INFINITY, PI};
use crate::numeral::{Numeral, NumeralV};
use crate::resolve::strs_v;
use crate::text::{cat2, cat3, cat5, dec, dec_string, from_utf8_lossy, own, same, text_of};
use crate::value::{
    array_at, kind_name_of, table_at, values_v, Heap, HeapV, RunError, RunErrorV, Value, ValueV,
};

verus! {

/// A numeric function of the `math` namespace.
#[derive(Clone, Copy, Debug, PartialEq, Eq, Structural)]
pub enum MathOp {
    Floor,
    Ceil,
    Abs,
    Sqrt,
    Min,
    Max,
    Pow,
}

/// A part of a text that is being composed.
#[derive(Debug)]
pub enum Piece {
    Text(String),
    /// A number in its usual spelling.
    General(u64),
    /// A number with six decimals.
    Fixed(u64),
}

pub ghost enum PieceV {
    Text(Seq<char>),
    General(u64),
    Fixed(u64),
}

impl View for Piece {
    type V = PieceV;

    open spec fn view(&self) -> PieceV {
        match self {
            Piece::Text(s) => PieceV::Text(s@),
            Piece::General(b) => PieceV::General(*b),
            Piece::Fixed(b) => PieceV::Fixed(*b),
        }
    }
}

/// The counterparts of a list of pieces.
pub open spec fn pieces_v(v: Seq<Piece>) -> Seq<PieceV> {
    Seq::new(v.len(), |i: int| v[i]@)
}

/// Something that evaluation needs from outside: arithmetic that rounds, the spelling of
/// numbers, and calls of host functions.
#[derive(Debug)]
pub enum Request {
    /// The number that a numeral denotes.
    Numeral(Numeral),
    /// The result of an arithmetic operator.
    Arith(BinOp, u64, u64),
    /// A count as a number.
    Count(u64),
    /// The result of a `math` function (the second argument is 0 for functions of one).
    Math(MathOp, u64, u64),
    /// The spellings of the numbers among the pieces, in order.
    Show(Vec<Piece>),
    /// The number that a text spells, blanks around it aside.
    Parse(String),
    /// The result of a host function.
    Host(String, Vec<Value>),
}

pub ghost enum RequestV {
    Numeral(NumeralV),
    Arith(BinOp, u64, u64),
    Count(u64),
    Math(MathOp, u64, u64),
    Show(Seq<PieceV>),
    Parse(Seq<char>),
    Host(Seq<char>, Seq<ValueV>),
}

impl View for Request {
    type V = RequestV;

    open spec fn view(&self) -> RequestV {
        match self {
            Request::Numeral(n) => RequestV::Numeral(n@),
            Request::Arith(op, a, b) => RequestV::Arith(*op, *a, *b),
            Request::Count(n) => RequestV::Count(*n),
            Request::Math(op, a, b) => RequestV::Math(*op, *a, *b),
            Request::Show(ps) => RequestV::Show(pieces_v(ps@)),
            Request::Parse(s) => RequestV::Parse(s@),
            Request::Host(s, vs) => RequestV::Host(s@, values_v(vs@)),
        }
    }
}

/// The answer to a [`Request`].
#[derive(Debug)]
pub enum Reply {
    Number(u64),
    Maybe(Option<u64>),
    Texts(Vec<String>),
    Value(Value),
    Failed(RunError),
}

pub ghost enum ReplyV {
    Number(u64),
    Maybe(Option<u64>),
    Texts(Seq<Seq<char>>),
    Value(ValueV),
    Failed(RunErrorV),
}

impl View for Reply {
    type V = ReplyV;

    open spec fn view(&self) -> ReplyV {
        match self {
            Reply::Number(b) => ReplyV::Number(*b),
            Reply::Maybe(o) => ReplyV::Maybe(*o),
            Reply::Texts(ts) => ReplyV::Texts(strs_v(ts@)),
            Reply::Value(v) => ReplyV::Value(v@),
            Reply::Failed(e) => ReplyV::Failed(e@),
        }
    }
}

/// What evaluating a builtin yields: a value, or a request whose answer is the value.
#[derive(Debug)]
pub enum Outcome {
    Value(Value),
    Ask(Request),
}

pub ghost enum OutcomeV {
    Value(ValueV),
    Ask(RequestV),
}

impl View for Outcome {
    type V = OutcomeV;

    open spec fn view(&self) -> OutcomeV {
        match self {
            Outcome::Value(v) => OutcomeV::Value(v@),
            Outcome::Ask(r) => OutcomeV::Ask(r@),
        }
    }
}

/// How many numbers are among the first `n` pieces.
pub open spec fn numbers_in(ps: Seq<PieceV>, n: int) -> nat
    decreases n,
{
    if n <= 0 {
        0
    } else if ps[n - 1] is Text {
        numbers_in(ps, n - 1)
    } else {
        numbers_in(ps, n - 1) + 1
    }
}

/// The text of the pieces, given the spellings of the numbers among them.
pub open spec fn rendered(ps: Seq<PieceV>, ts: Seq<Seq<char>>, n: int) -> Seq<char>
    decreases n,
{
    if n <= 0 {
        Seq::empty()
    } else {
        rendered(ps, ts, n - 1) + match ps[n - 1] {
            PieceV::Text(s) => s,
            _ => ts[numbers_in(ps, n - 1) as int],
        }
    }
}

/// The value that an answer stands for.
pub open spec fn answer_of(r: RequestV, a: ReplyV) -> Result<ValueV, RunErrorV> {
    match (r, a) {
        (RequestV::Numeral(_), ReplyV::Number(b)) => Ok(ValueV::Number(b)),
        (RequestV::Arith(_, _, _), ReplyV::Number(b)) => Ok(ValueV::Number(b)),
        (RequestV::Count(_), ReplyV::Number(b)) => Ok(ValueV::Number(b)),
        (RequestV::Math(_, _, _), ReplyV::Number(b)) => Ok(ValueV::Number(b)),
        (RequestV::Show(ps), ReplyV::Texts(ts)) => if ts.len() == numbers_in(ps, ps.len() as int) {
            Ok(ValueV::Str(rendered(ps, ts, ps.len() as int)))
        } else {
            Err(RunErrorV::Internal("reply does not fit the request"@))
        },
        (RequestV::Parse(_), ReplyV::Maybe(o)) => match o {
            Some(b) => Ok(ValueV::Number(b)),
            None => Ok(ValueV::Nil),
        },
        (RequestV::Host(_, _), ReplyV::Value(v)) => Ok(v),
        (RequestV::Host(_, _), ReplyV::Failed(e)) => Err(e),
        _ => Err(RunErrorV::Internal("reply does not fit the request"@)),
    }
}

/// The text of pieces as a value, or the request for the spellings that it takes.
pub open spec fn shown(ps: Seq<PieceV>) -> OutcomeV {
    if numbers_in(ps, ps.len() as int) == 0 {
        OutcomeV::Value(ValueV::Str(rendered(ps, Seq::empty(), ps.len() as int)))
    } else {
        OutcomeV::Ask(RequestV::Show(ps))
    }
}

/// The pieces with more text at the end.
pub open spec fn with_text(ps: Seq<PieceV>, s: Seq<char>) -> Seq<PieceV> {
    if ps.len() > 0 && ps.last() is Text {
        ps.update(ps.len() - 1, PieceV::Text(ps.last()->Text_0 + s))
    } else {
        ps.push(PieceV::Text(s))
    }
}

/// Add the text of a value. Objects nested more than `n` deep (which happens only where one
/// contains itself) are refused.
#[verifier::opaque]
pub open spec fn d_value(h: HeapV, v: ValueV, n: nat, ps: Seq<PieceV>) -> Result<
    Seq<PieceV>,
    RunErrorV,
>
    decreases n, 0int,
{
    if n == 0 {
        Err(RunErrorV::Internal("value contains itself"@))
    } else {
        match v {
            ValueV::Bool(b) => Ok(
                with_text(
                    ps,
                    if b {
                        "true"@
                    } else {
                        "false"@
                    },
                ),
            ),
            ValueV::Number(b) => Ok(ps.push(PieceV::General(b))),
            ValueV::Str(s) => Ok(with_text(ps, s)),
            ValueV::Array(_) => match array_at(h, v) {
                Some(items) => match d_items(h, items, (n - 1) as nat, with_text(ps, "["@), 0) {
                    Ok(ps1) => Ok(with_text(ps1, "]"@)),
                    Err(e) => Err(e),
                },
                None => Ok(with_text(ps, kind_name_of(v))),
            },
            ValueV::Table(_) => match table_at(h, v) {
                Some(t) => match d_entries(h, t, (n - 1) as nat, with_text(ps, "{"@), 0) {
                    Ok(ps1) => Ok(with_text(ps1, "}"@)),
                    Err(e) => Err(e),
                },
                None => Ok(with_text(ps, kind_name_of(v))),
            },
            _ => Ok(with_text(ps, kind_name_of(v))),
        }
    }
}

/// Add the elements from `i` on, separated by commas.
#[verifier::opaque]
pub open spec fn d_items(h: HeapV, items: Seq<ValueV>, n: nat, ps: Seq<PieceV>, i: int) -> Result<
    Seq<PieceV>,
    RunErrorV,
>
    decreases n, items.len() - i + 1,
{
    if 0 <= i < items.len() {
        let ps1 = if i > 0 {
            with_text(ps, ", "@)
        } else {
            ps
        };
        match d_value(h, items[i], n, ps1) {
            Ok(ps2) => d_items(h, items, n, ps2, i + 1),
            Err(e) => Err(e),
        }
    } else {
        Ok(ps)
    }
}

/// Add the entries from `i` on, separated by commas.
#[verifier::opaque]
pub open spec fn d_entries(
    h: HeapV,
    t: Seq<(Seq<char>, ValueV)>,
    n: nat,
    ps: Seq<PieceV>,
    i: int,
) -> Result<Seq<PieceV>, RunErrorV>
    decreases n, t.len() - i + 1,
{
    if 0 <= i < t.len() {
        let ps1 = if i > 0 {
            with_text(ps, ", "@)
        } else {
            ps
        };
        match d_value(h, t[i].1, n, with_text(with_text(ps1, t[i].0), " = "@)) {
            Ok(ps2) => d_entries(h, t, n, ps2, i + 1),
            Err(e) => Err(e),
        }
    } else {
        Ok(ps)
    }
}

/// How deep objects can nest when none contains itself.
pub open spec fn depth_limit(h: HeapV) -> nat {
    if h.len() + 2 <= usize::MAX {
        h.len() + 2
    } else {
        usize::MAX as nat
    }
}

/// The pieces of a value's text, after `ps`.
pub open spec fn displayed(h: HeapV, v: ValueV, ps: Seq<PieceV>) -> Result<Seq<PieceV>, RunErrorV> {
    d_value(h, v, depth_limit(h), ps)
}

/// The argument at `i`, nil if there are fewer.
pub open spec fn arg(args: Seq<ValueV>, i: int) -> ValueV {
    if 0 <= i < args.len() {
        args[i]
    } else {
        ValueV::Nil
    }
}

/// The decimal spelling of an integer.
pub open spec fn signed_dec(n: i64) -> Seq<char> {
    if n < 0 {
        "-"@ + dec((-n) as nat)
    } else {
        dec(n as nat)
    }
}

pub open spec fn want_number() -> RunErrorV {
    RunErrorV::Internal("builtin expected a number"@)
}

pub open spec fn want_string() -> RunErrorV {
    RunErrorV::Internal("builtin expected a string"@)
}

/// The pieces of a format string from character `i` on, the next argument being number `k`.
#[verifier::opaque]
pub open spec fn f_pieces(
    h: HeapV,
    fmt: Seq<char>,
    i: int,
    args: Seq<ValueV>,
    k: int,
    ps: Seq<PieceV>,
) -> Result<Seq<PieceV>, RunErrorV>
    decreases fmt.len() - i,
{
    if i < 0 || i >= fmt.len() {
        Ok(ps)
    } else if fmt[i] != '%' {
        f_pieces(h, fmt, i + 1, args, k, with_text(ps, seq![fmt[i]]))
    } else if i + 1 >= fmt.len() {
        Err(RunErrorV::Runtime("trailing `%` in format string"@))
    } else {
        let c = fmt[i + 1];
        let a = arg(args, k);
        if c == '%' {
            f_pieces(h, fmt, i + 2, args, k, with_text(ps, seq!['%']))
        } else if c == 'd' || c == 'i' {
            match a {
                ValueV::Number(b) => f_pieces(
                    h,
                    fmt,
                    i + 2,
                    args,
                    k + 1,
                    with_text(ps, signed_dec(integer_of(b))),
                ),
                _ => Err(want_number()),
            }
        } else if c == 'f' {
            match a {
                ValueV::Number(b) => f_pieces(
                    h,
                    fmt,
                    i + 2,
                    args,
                    k + 1,
                    ps.push(PieceV::Fixed(b)),
                ),
                _ => Err(want_number()),
            }
        } else if c == 'g' {
            match a {
                ValueV::Number(b) => f_pieces(
                    h,
                    fmt,
                    i + 2,
                    args,
                    k + 1,
                    ps.push(PieceV::General(b)),
                ),
                _ => Err(want_number()),
            }
        } else if c == 's' {
            match displayed(h, a, ps) {
                Ok(ps1) => f_pieces(h, fmt, i + 2, args, k + 1, ps1),
                Err(e) => Err(e),
            }
        } else {
            Err(RunErrorV::Runtime("unsupported string.format verb `%"@.push(c) + "`"@))
        }
    }
}

/// A part of a string by 1-based, inclusive byte positions, negative ones counting from the
/// end.
pub open spec fn sub_of(s: Seq<char>, i: i64, j: i64) -> Seq<char> {
    let b = encode_utf8(s);
    let len = b.len() as int;
    let from = if i < 0 {
        len + i + 1
    } else {
        i as int
    };
    let start = if from < 1 {
        1
    } else {
        from
    };
    let end = if j < 0 {
        len + j + 1
    } else if j < len {
        j as int
    } else {
        len
    };
    if start > end || start > len {
        Seq::empty()
    } else {
        text_of(b.subrange(start - 1, end))
    }
}

/// What a part of the bytes of an ASCII text is read as.
proof fn lemma_ascii_part(s: Seq<char>, a: int, b: int)
    requires
        is_ascii_chars(s),
        0 <= a <= b <= s.len(),
    ensures
        encode_utf8(s).len() == s.len(),
        text_of(encode_utf8(s).subrange(a, b)) == s.subrange(a, b),
{
    let p = s.subrange(a, b);
    assert(is_ascii_chars(p)) by {
        assert forall|i: int| 0 <= i < p.len() implies '\0' <= #[trigger] p[i] <= '\u{7f}' by {
            assert(p[i] == s[a + i]);
        }
    }
    is_ascii_chars_encode_utf8(s);
    is_ascii_chars_encode_utf8(p);
    assert(encode_utf8(p) =~= encode_utf8(s).subrange(a, b));
    encode_utf8_valid_utf8(p);
    encode_utf8_decode_utf8(p);
}

/// `string.sub` takes a text apart and leaves it whole: the whole range is the text, two
/// adjacent ranges make it up, position 0 counts as 1, and negative positions count from the
/// end.
pub proof fn law_sub(s: Seq<char>, k: i64)
    requires
        is_ascii_chars(s),
        0 <= k <= s.len(),
        s.len() < i64::MAX,
    ensures
        sub_of(s, 1, (-1) as i64) == s,
        sub_of(s, 1, k) + sub_of(s, (k + 1) as i64, (-1) as i64) == s,
        sub_of(s, 0, k) == sub_of(s, 1, k),
        k >= 1 ==> sub_of(s, (-k) as i64, (-1) as i64) == s.subrange(s.len() - k, s.len() as int),
{
    let n = s.len() as int;
    lemma_ascii_part(s, 0, n);
    lemma_ascii_part(s, 0, k as int);
    lemma_ascii_part(s, k as int, n);
    lemma_ascii_part(s, n - k, n);
    assert(s.subrange(0, n) =~= s);
    assert(s.subrange(0, k as int) + s.subrange(k as int, n) =~= s);
    if n == 0 {
        assert(s =~= Seq::<char>::empty());
    }
    if k == 0 {
        assert(s.subrange(0, 0) =~= Seq::<char>::empty());
    }
    if k == n {
        assert(s.subrange(n, n) =~= Seq::<char>::empty());
    }
}

/// Whether `p` stands in `s` at position `i`.
pub open spec fn stands_at(s: Seq<u8>, p: Seq<u8>, i: int) -> bool {
    0 <= i && i + p.len() <= s.len() && s.subrange(i, i + p.len()) == p
}

/// The first position from `i` on at which `p` stands in `s`.
pub open spec fn found_from(s: Seq<u8>, p: Seq<u8>, i: int) -> Option<int>
    decreases s.len() + 1 - i,
{
    if i < 0 || i + p.len() > s.len() {
        None
    } else if stands_at(s, p, i) {
        Some(i)
    } else {
        found_from(s, p, i + 1)
    }
}

/// What `str::to_uppercase` makes of a text.
pub uninterp spec fn uppercase(s: Seq<char>) -> Seq<char>;

/// What `str::to_lowercase` makes of a text.
pub uninterp spec fn lowercase(s: Seq<char>) -> Seq<char>;

/// The value of a namespace field: `math.pi`, `math.huge`.
pub open spec fn field_value_of(ns: Seq<char>, field: Seq<char>) -> Result<ValueV, RunErrorV> {
    if ns == "math"@ && field == "pi"@ {
        Ok(ValueV::Number(PI))
    } else if ns == "math"@ && field == "huge"@ {
        Ok(ValueV::Number(INFINITY))
    } else {
        Err(RunErrorV::Internal("`"@ + ns + "."@ + field + "` is not a builtin constant"@))
    }
}

/// A plain builtin: `tostring`, `tonumber`.
pub open spec fn value_call_of(h: HeapV, name: Seq<char>, args: Seq<ValueV>) -> Result<
    OutcomeV,
    RunErrorV,
> {
    if name == "tostring"@ {
        match displayed(h, arg(args, 0), Seq::empty()) {
            Ok(ps) => Ok(shown(ps)),
            Err(e) => Err(e),
        }
    } else if name == "tonumber"@ {
        match arg(args, 0) {
            ValueV::Str(s) => Ok(OutcomeV::Ask(RequestV::Parse(s))),
            ValueV::Number(b) => Ok(OutcomeV::Value(ValueV::Number(b))),
            _ => Ok(OutcomeV::Value(ValueV::Nil)),
        }
    } else {
        Err(RunErrorV::Internal("unknown builtin `"@ + name + "`"@))
    }
}

/// The numeric function of that name, and how many arguments it takes.
pub open spec fn math_op_of(name: Seq<char>) -> Option<(MathOp, int)> {
    if name == "floor"@ {
        Some((MathOp::Floor, 1))
    } else if name == "ceil"@ {
        Some((MathOp::Ceil, 1))
    } else if name == "abs"@ {
        Some((MathOp::Abs, 1))
    } else if name == "sqrt"@ {
        Some((MathOp::Sqrt, 1))
    } else if name == "min"@ {
        Some((MathOp::Min, 2))
    } else if name == "max"@ {
        Some((MathOp::Max, 2))
    } else if name == "pow"@ {
        Some((MathOp::Pow, 2))
    } else {
        None
    }
}

/// A member of the `math` namespace.
pub open spec fn math_call_of(op: MathOp, arity: int, args: Seq<ValueV>) -> Result<
    OutcomeV,
    RunErrorV,
> {
    match arg(args, 0) {
        ValueV::Number(a) => if arity == 1 {
            Ok(OutcomeV::Ask(RequestV::Math(op, a, 0)))
        } else {
            match arg(args, 1) {
                ValueV::Number(b) => Ok(OutcomeV::Ask(RequestV::Math(op, a, b))),
                _ => Err(want_number()),
            }
        },
        _ => Err(want_number()),
    }
}

pub open spec fn unknown_member(ns: Seq<char>, name: Seq<char>) -> RunErrorV {
    RunErrorV::Internal("unknown builtin member `"@ + ns + "."@ + name + "`"@)
}

/// Whether the `string` namespace has that member.
pub open spec fn is_string_member(name: Seq<char>) -> bool {
    name == "len"@ || name == "upper"@ || name == "lower"@ || name == "sub"@ || name == "find"@
        || name == "format"@
}

/// A member of the `string` namespace.
pub open spec fn string_call_of(h: HeapV, name: Seq<char>, args: Seq<ValueV>) -> Result<
    OutcomeV,
    RunErrorV,
> {
    match arg(args, 0) {
        ValueV::Str(s) => if name == "len"@ {
            Ok(OutcomeV::Ask(RequestV::Count(encode_utf8(s).len() as u64)))
        } else if name == "upper"@ {
            Ok(OutcomeV::Value(ValueV::Str(uppercase(s))))
        } else if name == "lower"@ {
            Ok(OutcomeV::Value(ValueV::Str(lowercase(s))))
        } else if name == "sub"@ {
            match (arg(args, 1), arg(args, 2)) {
                (ValueV::Number(i), ValueV::Number(j)) => Ok(
                    OutcomeV::Value(ValueV::Str(sub_of(s, integer_of(i), integer_of(j)))),
                ),
                _ => Err(want_number()),
            }
        } else if name == "find"@ {
            match arg(args, 1) {
                ValueV::Str(p) => match found_from(encode_utf8(s), encode_utf8(p), 0) {
                    Some(i) => Ok(OutcomeV::Ask(RequestV::Count((i + 1) as u64))),
                    None => Ok(OutcomeV::Value(ValueV::Nil)),
                },
                _ => Err(want_string()),
            }
        } else {
            match f_pieces(h, s, 0, args.skip(1), 0, Seq::empty()) {
                Ok(ps) => Ok(shown(ps)),
                Err(e) => Err(e),
            }
        },
        _ => Err(want_string()),
    }
}

/// A namespace member: `math.floor`, `string.sub`, and so on.
pub open spec fn member_call_of(
    h: HeapV,
    ns: Seq<char>,
    name: Seq<char>,
    args: Seq<ValueV>,
) -> Result<OutcomeV, RunErrorV> {
    if ns == "math"@ {
        match math_op_of(name) {
            Some((op, arity)) => math_call_of(op, arity, args),
            None => Err(unknown_member(ns, name)),
        }
    } else if ns == "string"@ && is_string_member(name) {
        string_call_of(h, name, args)
    } else {
        Err(unknown_member(ns, name))
    }
}

pub proof fn unfold_d_value(h: HeapV, v: ValueV, n: nat, ps: Seq<PieceV>)
    ensures
        d_value(h, v, n, ps) == ({
            if n == 0 {
                Err(RunErrorV::Internal("value contains itself"@))
            } else {
                match v {
                    ValueV::Bool(b) => Ok(
                        with_text(
                            ps,
                            if b {
                                "true"@
                            } else {
                                "false"@
                            },
                        ),
                    ),
                    ValueV::Number(b) => Ok(ps.push(PieceV::General(b))),
                    ValueV::Str(s) => Ok(with_text(ps, s)),
                    ValueV::Array(_) => match array_at(h, v) {
                        Some(items) => match d_items(h, items, (n - 1) as nat, with_text(ps, "["@), 0) {
                            Ok(ps1) => Ok(with_text(ps1, "]"@)),
                            Err(e) => Err(e),
                        },
                        None => Ok(with_text(ps, kind_name_of(v))),
                    },
                    ValueV::Table(_) => match table_at(h, v) {
                        Some(t) => match d_entries(h, t, (n - 1) as nat, with_text(ps, "{"@), 0) {
                            Ok(ps1) => Ok(with_text(ps1, "}"@)),
                            Err(e) => Err(e),
                        },
                        None => Ok(with_text(ps, kind_name_of(v))),
                    },
                    _ => Ok(with_text(ps, kind_name_of(v))),
                }
            }
        }),
{
    reveal(d_value);
    reveal(d_items);
    reveal(d_entries);
}

pub proof fn unfold_d_items(h: HeapV, items: Seq<ValueV>, n: nat, ps: Seq<PieceV>, i: int)
    ensures
        d_items(h, items, n, ps, i) == ({
            if 0 <= i < items.len() {
                let ps1 = if i > 0 {
                    with_text(ps, ", "@)
                } else {
                    ps
                };
                match d_value(h, items[i], n, ps1) {
                    Ok(ps2) => d_items(h, items, n, ps2, i + 1),
                    Err(e) => Err(e),
                }
            } else {
                Ok(ps)
            }
        }),
{
    reveal(d_items);
    reveal(d_value);
}

pub proof fn unfold_d_entries(
    h: HeapV,
    t: Seq<(Seq<char>, ValueV)>,
    n: nat,
    ps: Seq<PieceV>,
    i: int,
)
    ensures
        d_entries(h, t, n, ps, i) == ({
            if 0 <= i < t.len() {
                let ps1 = if i > 0 {
                    with_text(ps, ", "@)
                } else {
                    ps
                };
                match d_value(h, t[i].1, n, with_text(with_text(ps1, t[i].0), " = "@)) {
                    Ok(ps2) => d_entries(h, t, n, ps2, i + 1),
                    Err(e) => Err(e),
                }
            } else {
                Ok(ps)
            }
        }),
{
    reveal(d_entries);
    reveal(d_value);
}

pub proof fn unfold_f_pieces(
    h: HeapV,
    fmt: Seq<char>,
    i: int,
    args: Seq<ValueV>,
    k: int,
    ps: Seq<PieceV>,
)
    ensures
        f_pieces(h, fmt, i, args, k, ps) == ({
            if i < 0 || i >= fmt.len() {
                Ok(ps)
            } else if fmt[i] != '%' {
                f_pieces(h, fmt, i + 1, args, k, with_text(ps, seq![fmt[i]]))
            } else if i + 1 >= fmt.len() {
                Err(RunErrorV::Runtime("trailing `%` in format string"@))
            } else {
                let c = fmt[i + 1];
                let a = arg(args, k);
                if c == '%' {
                    f_pieces(h, fmt, i + 2, args, k, with_text(ps, seq!['%']))
                } else if c == 'd' || c == 'i' {
                    match a {
                        ValueV::Number(b) => f_pieces(
                            h,
                            fmt,
                            i + 2,
                            args,
                            k + 1,
                            with_text(ps, signed_dec(integer_of(b))),
                        ),
                        _ => Err(want_number()),
                    }
                } else if c == 'f' {
                    match a {
                        ValueV::Number(b) => f_pieces(
                            h,
                            fmt,
                            i + 2,
                            args,
                            k + 1,
                            ps.push(PieceV::Fixed(b)),
                        ),
                        _ => Err(want_number()),
                    }
                } else if c == 'g' {
                    match a {
                        ValueV::Number(b) => f_pieces(
                            h,
                            fmt,
                            i + 2,
                            args,
                            k + 1,
                            ps.push(PieceV::General(b)),
                        ),
                        _ => Err(want_number()),
                    }
                } else if c == 's' {
                    match displayed(h, a, ps) {
                        Ok(ps1) => f_pieces(h, fmt, i + 2, args, k + 1, ps1),
                        Err(e) => Err(e),
                    }
                } else {
                    Err(RunErrorV::Runtime("unsupported string.format verb `%"@.push(c) + "`"@))
                }
            }
        }),
{
    reveal(f_pieces);
}

/// `str::to_uppercase`; what it yields depends on the text alone and goes by the name
/// [`uppercase`].
#[verifier::external_body]
fn to_uppercase(s: &str) -> (r: String)
    ensures
        r@ == uppercase(s@),
{
    s.to_uppercase()
}

/// `str::to_lowercase`; what it yields depends on the text alone and goes by the name
/// [`lowercase`].
#[verifier::external_body]
fn to_lowercase(s: &str) -> (r: String)
    ensures
        r@ == lowercase(s@),
{
    s.to_lowercase()
}

/// Pieces, or why they cannot be had.
spec fn got(r: Result<(), RunError>, ps: Seq<Piece>) -> Result<Seq<PieceV>, RunErrorV> {
    match r {
        Ok(_) => Ok(pieces_v(ps)),
        Err(e) => Err(e@),
    }
}

spec fn outcome(r: Result<Outcome, RunError>) -> Result<OutcomeV, RunErrorV> {
    match r {
        Ok(o) => Ok(o@),
        Err(e) => Err(e@),
    }
}

fn add_text(ps: &mut Vec<Piece>, s: &str)
    ensures
        pieces_v(final(ps)@) == with_text(pieces_v(old(ps)@), s@),
{
    let n: usize = ps.len();
    let joined = if n > 0 {
        assert(pieces_v(ps@).last() == ps@[n - 1]@);
        match &ps[n - 1] {
            Piece::Text(t) => Some(cat2(t.as_str(), s)),
            _ => None,
        }
    } else {
        None
    };
    match joined {
        Some(t) => {
            ps.set(n - 1, Piece::Text(t));
        },
        None => {
            ps.push(Piece::Text(own(s)));
        },
    }
    assert(pieces_v(ps@) =~= with_text(pieces_v(old(ps)@), s@));
}

fn add_piece(ps: &mut Vec<Piece>, p: Piece)
    ensures
        pieces_v(final(ps)@) == pieces_v(old(ps)@).push(p@),
{
    let ghost pv = p@;
    ps.push(p);
    assert(pieces_v(ps@) =~= pieces_v(old(ps)@).push(pv));
}

/// How many numbers are among the pieces.
fn count_numbers(ps: &Vec<Piece>) -> (r: usize)
    ensures
        r == numbers_in(pieces_v(ps@), ps@.len() as int),
{
    let ghost pv = pieces_v(ps@);
    let mut c: usize = 0;
    let mut i: usize = 0;
    while i < ps.len()
        invariant
            i <= ps@.len(),
            pv == pieces_v(ps@),
            c == numbers_in(pv, i as int),
            c <= i,
        decreases ps@.len() - i,
    {
        assert(pv[i as int] == ps@[i as int]@);
        match &ps[i] {
            Piece::Text(_) => {},
            _ => {
                c += 1;
            },
        }
        i += 1;
    }
    c
}

/// The text of the pieces, given the spellings of the numbers among them.
fn render(ps: &Vec<Piece>, ts: &Vec<String>) -> (r: String)
    requires
        ts@.len() == numbers_in(pieces_v(ps@), ps@.len() as int),
    ensures
        r@ == rendered(pieces_v(ps@), strs_v(ts@), ps@.len() as int),
{
    let ghost pv = pieces_v(ps@);
    let ghost tv = strs_v(ts@);
    let mut out: String = own("");
    proof {
        reveal_strlit("");
        assert(out@ =~= rendered(pv, tv, 0));
    }
    let mut c: usize = 0;
    let mut i: usize = 0;
    while i < ps.len()
        invariant
            i <= ps@.len(),
            pv == pieces_v(ps@),
            tv == strs_v(ts@),
            ts@.len() == numbers_in(pv, ps@.len() as int),
            c == numbers_in(pv, i as int),
            c <= i,
            out@ == rendered(pv, tv, i as int),
        decreases ps@.len() - i,
    {
        assert(pv[i as int] == ps@[i as int]@);
        proof {
            lemma_numbers_grow(pv, i + 1, pv.len() as int);
        }
        match &ps[i] {
            Piece::Text(s) => {
                out.append(s.as_str());
            },
            _ => {
                out.append(ts[c].as_str());
                c += 1;
            },
        }
        i += 1;
    }
    out
}

proof fn lemma_numbers_grow(ps: Seq<PieceV>, a: int, b: int)
    requires
        a <= b,
    ensures
        numbers_in(ps, a) <= numbers_in(ps, b),
    decreases b - a,
{
    if a < b {
        lemma_numbers_grow(ps, a, b - 1);
    }
}

/// The value that an answer to a request stands for.
pub fn answer(request: &Request, reply: Reply) -> (r: Result<Value, RunError>)
    ensures
        match r {
            Ok(v) => answer_of(request@, reply@) == Ok::<ValueV, RunErrorV>(v@),
            Err(e) => answer_of(request@, reply@) == Err::<ValueV, RunErrorV>(e@),
        },
{
    match (request, reply) {
        (Request::Numeral(_), Reply::Number(b)) => Ok(Value::Number(b)),
        (Request::Arith(_, _, _), Reply::Number(b)) => Ok(Value::Number(b)),
        (Request::Count(_), Reply::Number(b)) => Ok(Value::Number(b)),
        (Request::Math(_, _, _), Reply::Number(b)) => Ok(Value::Number(b)),
        (Request::Show(ps), Reply::Texts(ts)) => if ts.len() == count_numbers(ps) {
            Ok(Value::Str(render(ps, &ts)))
        } else {
            Err(RunError::internal("reply does not fit the request"))
        },
        (Request::Parse(_), Reply::Maybe(o)) => match o {
            Some(b) => Ok(Value::Number(b)),
            None => Ok(Value::Nil),
        },
        (Request::Host(_, _), Reply::Value(v)) => Ok(v),
        (Request::Host(_, _), Reply::Failed(e)) => Err(e),
        _ => Err(RunError::internal("reply does not fit the request")),
    }
}

/// The text of pieces as a value, or the request for the spellings that it takes.
fn show(ps: Vec<Piece>) -> (r: Outcome)
    ensures
        r@ == shown(pieces_v(ps@)),
{
    if count_numbers(&ps) == 0 {
        let none: Vec<String> = Vec::new();
        assert(strs_v(none@) =~= Seq::<Seq<char>>::empty());
        Outcome::Value(Value::Str(render(&ps, &none)))
    } else {
        Outcome::Ask(Request::Show(ps))
    }
}

/// Add the text of a value to the pieces.
fn display_value(h: &Heap, v: &Value, n: usize, ps: &mut Vec<Piece>) -> (r: Result<(), RunError>)
    ensures
        got(r, final(ps)@) == d_value(h@, v@, n as nat, pieces_v(old(ps)@)),
    decreases n, 0int,
{
    proof {
        unfold_d_value(h@, v@, n as nat, pieces_v(ps@));
    }
    if n == 0 {
        return Err(RunError::internal("value contains itself"));
    }
    match v {
        Value::Bool(b) => {
            add_text(
                ps,
                if *b {
                    "true"
                } else {
                    "false"
                },
            );
            Ok(())
        },
        Value::Number(b) => {
            add_piece(ps, Piece::General(*b));
            Ok(())
        },
        Value::Str(s) => {
            add_text(ps, s.as_str());
            Ok(())
        },
        Value::Array(_) => match h.as_array(v) {
            Some(items) => {
                add_text(ps, "[");
                display_items(h, items, n - 1, ps)?;
                add_text(ps, "]");
                Ok(())
            },
            None => {
                add_text(ps, v.kind_name());
                Ok(())
            },
        },
        Value::Table(_) => match h.as_table(v) {
            Some(t) => {
                add_text(ps, "{");
                display_entries(h, t, n - 1, ps)?;
                add_text(ps, "}");
                Ok(())
            },
            None => {
                add_text(ps, v.kind_name());
                Ok(())
            },
        },
        _ => {
            add_text(ps, v.kind_name());
            Ok(())
        },
    }
}

fn display_items(h: &Heap, items: &Vec<Value>, n: usize, ps: &mut Vec<Piece>) -> (r: Result<
    (),
    RunError,
>)
    ensures
        got(r, final(ps)@) == d_items(h@, values_v(items@), n as nat, pieces_v(old(ps)@), 0),
    decreases n, 1int,
{
    let ghost vs = values_v(items@);
    let ghost ps0 = pieces_v(ps@);
    let mut i: usize = 0;
    while i < items.len()
        invariant
            i <= items@.len(),
            vs == values_v(items@),
            d_items(h@, vs, n as nat, pieces_v(ps@), i as int) == d_items(h@, vs, n as nat, ps0, 0),
            ps0 == pieces_v(old(ps)@),
        decreases items@.len() - i,
    {
        proof {
            unfold_d_items(h@, vs, n as nat, pieces_v(ps@), i as int);
            assert(vs[i as int] == items@[i as int]@);
        }
        if i > 0 {
            add_text(ps, ", ");
        }
        display_value(h, &items[i], n, ps)?;
        i += 1;
    }
    proof {
        unfold_d_items(h@, vs, n as nat, pieces_v(ps@), i as int);
    }
    Ok(())
}

fn display_entries(h: &Heap, t: &NameMap<Value>, n: usize, ps: &mut Vec<Piece>) -> (r: Result<
    (),
    RunError,
>)
    ensures
        got(r, final(ps)@) == d_entries(h@, t@, n as nat, pieces_v(old(ps)@), 0),
    decreases n, 1int,
{
    let ghost ps0 = pieces_v(ps@);
    let mut i: usize = 0;
    while i < t.len()
        invariant
            i <= t@.len(),
            d_entries(h@, t@, n as nat, pieces_v(ps@), i as int) == d_entries(
                h@,
                t@,
                n as nat,
                ps0,
                0,
            ),
            ps0 == pieces_v(old(ps)@),
        decreases t@.len() - i,
    {
        proof {
            unfold_d_entries(h@, t@, n as nat, pieces_v(ps@), i as int);
        }
        if i > 0 {
            add_text(ps, ", ");
        }
        add_text(ps, t.key(i).as_str());
        add_text(ps, " = ");
        display_value(h, t.value(i), n, ps)?;
        i += 1;
    }
    proof {
        unfold_d_entries(h@, t@, n as nat, pieces_v(ps@), i as int);
    }
    Ok(())
}

/// Add the text of a value to the pieces: `nil`, `true`, a string as it is, an array in square
/// brackets, a table in braces.
pub fn display(h: &Heap, v: &Value, ps: &mut Vec<Piece>) -> (r: Result<(), RunError>)
    ensures
        match r {
            Ok(_) => displayed(h@, v@, pieces_v(old(ps)@)) == Ok::<Seq<PieceV>, RunErrorV>(
                pieces_v(final(ps)@),
            ),
            Err(e) => displayed(h@, v@, pieces_v(old(ps)@)) == Err::<Seq<PieceV>, RunErrorV>(e@),
        },
{
    let n: usize = h.len();
    display_value(
        h,
        v,
        if n <= usize::MAX - 2 {
            n + 2
        } else {
            usize::MAX
        },
        ps,
    )
}

fn arg_at(args: &Vec<Value>, i: usize) -> (r: Value)
    ensures
        r@ == arg(values_v(args@), i as int),
{
    if i < args.len() {
        args[i].dup()
    } else {
        Value::Nil
    }
}

fn number_at(args: &Vec<Value>, i: usize) -> (r: Result<u64, RunError>)
    ensures
        match r {
            Ok(b) => arg(values_v(args@), i as int) == ValueV::Number(b),
            Err(e) => !(arg(values_v(args@), i as int) is Number) && e@ == want_number(),
        },
{
    match arg_at(args, i) {
        Value::Number(b) => Ok(b),
        _ => Err(RunError::internal("builtin expected a number")),
    }
}

fn string_at(args: &Vec<Value>, i: usize) -> (r: Result<String, RunError>)
    ensures
        match r {
            Ok(s) => arg(values_v(args@), i as int) == ValueV::Str(s@),
            Err(e) => !(arg(values_v(args@), i as int) is Str) && e@ == want_string(),
        },
{
    match arg_at(args, i) {
        Value::Str(s) => Ok(s),
        _ => Err(RunError::internal("builtin expected a string")),
    }
}

fn signed_string(n: i64) -> (r: String)
    ensures
        r@ == signed_dec(n),
{
    if n < 0 {
        let m: u64 = (-(n as i128)) as u64;
        let d = dec_string(m);
        cat2("-", d.as_str())
    } else {
        dec_string(n as u64)
    }
}

/// Minimal `string.format`: `%d`/`%i`, `%f`, `%s`, `%g`, and `%%`. Each verb consumes the next
/// argument in order.
pub fn lua_format(h: &Heap, fmt: &str, args: &Vec<Value>) -> (r: Result<Vec<Piece>, RunError>)
    requires
        args@.len() >= 1,
    ensures
        match r {
            Ok(ps) => f_pieces(h@, fmt@, 0, values_v(args@).skip(1), 0, Seq::empty()) == Ok::<
                Seq<PieceV>,
                RunErrorV,
            >(pieces_v(ps@)),
            Err(e) => f_pieces(h@, fmt@, 0, values_v(args@).skip(1), 0, Seq::empty()) == Err::<
                Seq<PieceV>,
                RunErrorV,
            >(e@),
        },
{
    let ghost av = values_v(args@).skip(1);
    let ghost whole = f_pieces(h@, fmt@, 0, av, 0, Seq::empty());
    let mut ps: Vec<Piece> = Vec::new();
    assert(pieces_v(ps@) =~= Seq::<PieceV>::empty());
    let n: usize = fmt.unicode_len();
    let mut i: usize = 0;
    // The next argument; the format string itself is argument 0.
    let mut k: usize = 1;
    while i < n
        invariant
            args@.len() >= 1,
            i <= n,
            n == fmt@.len(),
            1 <= k <= i + 1,
            av == values_v(args@).skip(1),
            whole == f_pieces(h@, fmt@, 0, av, 0, Seq::empty()),
            f_pieces(h@, fmt@, i as int, av, k - 1, pieces_v(ps@)) == whole,
        decreases n - i,
    {
        proof {
            unfold_f_pieces(h@, fmt@, i as int, av, k - 1, pieces_v(ps@));
            assert(arg(av, k - 1) == arg(values_v(args@), k as int));
        }
        let c = fmt.get_char(i);
        if c != '%' {
            let s = char_string(c);
            add_text(&mut ps, s.as_str());
            i += 1;
        } else if i + 1 >= n {
            return Err(RunError::runtime("trailing `%` in format string"));
        } else {
            let d = fmt.get_char(i + 1);
            if d == '%' {
                let s = char_string('%');
                add_text(&mut ps, s.as_str());
            } else if d == 'd' || d == 'i' {
                let b = number_at(args, k)?;
                let s = signed_string(integer(b));
                add_text(&mut ps, s.as_str());
                k += 1;
            } else if d == 'f' {
                let b = number_at(args, k)?;
                add_piece(&mut ps, Piece::Fixed(b));
                k += 1;
            } else if d == 'g' {
                let b = number_at(args, k)?;
                add_piece(&mut ps, Piece::General(b));
                k += 1;
            } else if d == 's' {
                let v = arg_at(args, k);
                display(h, &v, &mut ps)?;
                k += 1;
            } else {
                let s = char_string(d);
                let msg = cat3("unsupported string.format verb `%", s.as_str(), "`");
                assert(msg@ =~= "unsupported string.format verb `%"@.push(d) + "`"@);
                return Err(RunError::Runtime(msg));
            }
            i += 2;
        }
    }
    proof {
        unfold_f_pieces(h@, fmt@, i as int, av, k - 1, pieces_v(ps@));
    }
    Ok(ps)
}

/// The text of one character.
fn char_string(c: char) -> (r: String)
    ensures
        r@ == seq![c],
{
    let mut s: String = own("");
    proof {
        reveal_strlit("");
    }
    s.push(c);
    assert(s@ =~= seq![c]);
    s
}

/// `string.sub`: 1-based, inclusive byte positions, negative ones counting from the end.
pub fn lua_sub(s: &str, i: i64, j: i64) -> (r: String)
    ensures
        r@ == sub_of(s@, i, j),
{
    let bytes = s.as_bytes();
    let n: usize = bytes.len();
    let len: i128 = n as i128;
    let from: i128 = if i < 0 {
        len + i as i128 + 1
    } else {
        i as i128
    };
    let start: i128 = if from < 1 {
        1
    } else {
        from
    };
    let end: i128 = if j < 0 {
        len + j as i128 + 1
    } else if (j as i128) < len {
        j as i128
    } else {
        len
    };
    if start > end || start > len {
        let r = own("");
        proof {
            reveal_strlit("");
            assert(r@ =~= Seq::<char>::empty());
        }
        return r;
    }
    let a: usize = (start - 1) as usize;
    let b: usize = end as usize;
    let mut part: Vec<u8> = Vec::new();
    let mut k: usize = a;
    while k < b
        invariant
            a <= k <= b <= bytes@.len(),
            part@ == bytes@.subrange(a as int, k as int),
        decreases b - k,
    {
        part.push(bytes[k]);
        assert(part@ =~= bytes@.subrange(a as int, k + 1));
        k += 1;
    }
    from_utf8_lossy(part.as_slice())
}

/// The first byte position at which `p` stands in `s`.
pub fn find_plain(s: &str, p: &str) -> (r: Option<usize>)
    ensures
        match r {
            Some(i) => found_from(encode_utf8(s@), encode_utf8(p@), 0) == Some(i as int) && i
                < usize::MAX,
            None => found_from(encode_utf8(s@), encode_utf8(p@), 0) is None,
        },
{
    let x = s.as_bytes();
    let y = p.as_bytes();
    let n: usize = x.len();
    let m: usize = y.len();
    let mut i: usize = 0;
    while i <= n && m <= n - i
        invariant
            i <= n + 1,
            m == 0 ==> i == 0,
            n == x@.len(),
            m == y@.len(),
            x@ == encode_utf8(s@),
            y@ == encode_utf8(p@),
            found_from(x@, y@, i as int) == found_from(x@, y@, 0),
        decreases n + 1 - i,
    {
        let mut k: usize = 0;
        while k < m && x[i + k] == y[k]
            invariant
                k <= m,
                i <= n,
                m <= n - i,
                n == x@.len(),
                m == y@.len(),
                forall|t: int| 0 <= t < k ==> x@[i + t] == #[trigger] y@[t],
            decreases m - k,
        {
            k += 1;
        }
        if k == m {
            assert(x@.subrange(i as int, i + m) =~= y@);
            return Some(i);
        }
        assert(!stands_at(x@, y@, i as int)) by {
            if stands_at(x@, y@, i as int) {
                assert(x@.subrange(i as int, i + m)[k as int] == y@[k as int]);
            }
        }
        if i == n {
            assert(found_from(x@, y@, i + 1) is None);
            return None;
        }
        i += 1;
    }
    None
}

/// Evaluate a namespace field: `math.pi`, `math.huge`.
pub fn field_value(ns: &str, field: &str) -> (r: Result<Value, RunError>)
    ensures
        match r {
            Ok(v) => field_value_of(ns@, field@) == Ok::<ValueV, RunErrorV>(v@),
            Err(e) => field_value_of(ns@, field@) == Err::<ValueV, RunErrorV>(e@),
        },
{
    if same(ns, "math") && same(field, "pi") {
        Ok(Value::Number(PI))
    } else if same(ns, "math") && same(field, "huge") {
        Ok(Value::Number(INFINITY))
    } else {
        Err(RunError::Internal(cat5("`", ns, ".", field, "` is not a builtin constant")))
    }
}

/// Evaluate a plain builtin: `tostring`, `tonumber`.
pub fn value_call(h: &Heap, name: &str, args: &Vec<Value>) -> (r: Result<Outcome, RunError>)
    ensures
        match r {
            Ok(o) => value_call_of(h@, name@, values_v(args@)) == Ok::<OutcomeV, RunErrorV>(o@),
            Err(e) => value_call_of(h@, name@, values_v(args@)) == Err::<OutcomeV, RunErrorV>(e@),
        },
{
    if same(name, "tostring") {
        let v = arg_at(args, 0);
        let mut ps: Vec<Piece> = Vec::new();
        assert(pieces_v(ps@) =~= Seq::<PieceV>::empty());
        display(h, &v, &mut ps)?;
        Ok(show(ps))
    } else if same(name, "tonumber") {
        match arg_at(args, 0) {
            Value::Str(s) => Ok(Outcome::Ask(Request::Parse(s))),
            Value::Number(b) => Ok(Outcome::Value(Value::Number(b))),
            _ => Ok(Outcome::Value(Value::Nil)),
        }
    } else {
        Err(RunError::Internal(cat3("unknown builtin `", name, "`")))
    }
}

fn math_op(name: &str) -> (r: Option<(MathOp, usize)>)
    ensures
        match r {
            Some((op, n)) => math_op_of(name@) == Some((op, n as int)),
            None => math_op_of(name@) is None,
        },
{
    if same(name, "floor") {
        Some((MathOp::Floor, 1))
    } else if same(name, "ceil") {
        Some((MathOp::Ceil, 1))
    } else if same(name, "abs") {
        Some((MathOp::Abs, 1))
    } else if same(name, "sqrt") {
        Some((MathOp::Sqrt, 1))
    } else if same(name, "min") {
        Some((MathOp::Min, 2))
    } else if same(name, "max") {
        Some((MathOp::Max, 2))
    } else if same(name, "pow") {
        Some((MathOp::Pow, 2))
    } else {
        None
    }
}

fn math_call(op: MathOp, arity: usize, args: &Vec<Value>) -> (r: Result<Outcome, RunError>)
    ensures
        outcome(r) == math_call_of(op, arity as int, values_v(args@)),
{
    let a = number_at(args, 0)?;
    if arity == 1 {
        return Ok(Outcome::Ask(Request::Math(op, a, 0)));
    }
    let b = number_at(args, 1)?;
    Ok(Outcome::Ask(Request::Math(op, a, b)))
}

fn string_call(h: &Heap, name: &str, args: &Vec<Value>) -> (r: Result<Outcome, RunError>)
    requires
        is_string_member(name@),
    ensures
        outcome(r) == string_call_of(h@, name@, values_v(args@)),
{
    let s = string_at(args, 0)?;
    if same(name, "len") {
        let n: usize = s.as_str().as_bytes().len();
        Ok(Outcome::Ask(Request::Count(n as u64)))
    } else if same(name, "upper") {
        Ok(Outcome::Value(Value::Str(to_uppercase(s.as_str()))))
    } else if same(name, "lower") {
        Ok(Outcome::Value(Value::Str(to_lowercase(s.as_str()))))
    } else if same(name, "sub") {
        let i = number_at(args, 1)?;
        let j = number_at(args, 2)?;
        Ok(Outcome::Value(Value::Str(lua_sub(s.as_str(), integer(i), integer(j)))))
    } else if same(name, "find") {
        let p = string_at(args, 1)?;
        match find_plain(s.as_str(), p.as_str()) {
            // 1-based position of a plain match.
            Some(i) => Ok(Outcome::Ask(Request::Count((i + 1) as u64))),
            None => Ok(Outcome::Value(Value::Nil)),
        }
    } else {
        let ps = lua_format(h, s.as_str(), args)?;
        Ok(show(ps))
    }
}

/// Evaluate a namespace member: `math.floor`, `string.sub`, and so on.
pub fn member_call(h: &Heap, ns: &str, name: &str, args: &Vec<Value>) -> (r: Result<
    Outcome,
    RunError,
>)
    ensures
        match r {
            Ok(o) => member_call_of(h@, ns@, name@, values_v(args@)) == Ok::<OutcomeV, RunErrorV>(
                o@,
            ),
            Err(e) => member_call_of(h@, ns@, name@, values_v(args@)) == Err::<OutcomeV, RunErrorV>(
                e@,
            ),
        },
{
    if same(ns, "math") {
        if let Some((op, arity)) = math_op(name) {
            return math_call(op, arity, args);
        }
    } else if same(ns, "string") && (same(name, "len") || same(name, "upper") || same(name, "lower")
        || same(name, "sub") || same(name, "find") || same(name, "format")) {
        return string_call(h, name, args);
    }
    Err(RunError::Internal(cat5("unknown builtin member `", ns, ".", name, "`")))
}

} // verus!
