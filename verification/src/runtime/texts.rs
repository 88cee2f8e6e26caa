//! What the builtins on text do, told from outside: where a text is found, what a text is
//! spelled as, and what a format string becomes.

use vstd::prelude::*;

use super::eval::{
    f_pieces, found_from, member_call_of, numbers_in, rendered, shown, signed_dec, stands_at,
    unfold_d_value, unfold_f_pieces, value_call_of, with_text, OutcomeV, PieceV, RequestV,
};
use crate::number::integer_of;
use crate::value::{HeapV, ValueV};
use vstd::utf8::encode_utf8;

verus! {

/// Whether the bytes of a text stand at a place in those of another, one by one.
pub open spec fn bytes_at(s: Seq<u8>, p: Seq<u8>, i: int) -> bool {
    0 <= i && i + p.len() <= s.len() && forall|k: int|
        0 <= k < p.len() ==> s[i + k] == #[trigger] p[k]
}

proof fn lemma_bytes_at(s: Seq<u8>, p: Seq<u8>, i: int)
    ensures
        stands_at(s, p, i) <==> bytes_at(s, p, i),
{
    if stands_at(s, p, i) {
        assert forall|k: int| 0 <= k < p.len() implies s[i + k] == #[trigger] p[k] by {
            assert(s.subrange(i, i + p.len())[k] == p[k]);
        }
    }
    if bytes_at(s, p, i) {
        assert forall|k: int| 0 <= k < p.len() implies s.subrange(i, i + p.len())[k]
            == #[trigger] p[k] by {}
        assert(s.subrange(i, i + p.len()) =~= p);
    }
}

proof fn lemma_found(s: Seq<u8>, p: Seq<u8>, i: int)
    requires
        0 <= i,
    ensures
        match found_from(s, p, i) {
            Some(j) => i <= j && bytes_at(s, p, j) && forall|k: int|
                i <= k < j ==> !#[trigger] bytes_at(s, p, k),
            None => forall|k: int| i <= k ==> !#[trigger] bytes_at(s, p, k),
        },
    decreases s.len() + 1 - i,
{
    lemma_bytes_at(s, p, i);
    if i + p.len() <= s.len() && !stands_at(s, p, i) {
        lemma_found(s, p, i + 1);
    }
}

/// `string.find` yields the number, counted from one, of the first byte at which the pattern
/// stands in the text, and nil if it stands nowhere.
pub proof fn law_find_yields_the_first(h: HeapV, s: Seq<char>, p: Seq<char>)
    ensures
        ({
            let (a, b) = (encode_utf8(s), encode_utf8(p));
            let r = member_call_of(
                h,
                "string"@,
                "find"@,
                seq![ValueV::Str(s), ValueV::Str(p)],
            );
            match r {
                Ok(OutcomeV::Ask(RequestV::Count(n))) => exists|i: int|
                    n == (i + 1) as u64 && #[trigger] bytes_at(a, b, i) && forall|k: int|
                        0 <= k < i ==> !#[trigger] bytes_at(a, b, k),
                Ok(OutcomeV::Value(v)) => v == ValueV::Nil && forall|k: int|
                    0 <= k ==> !#[trigger] bytes_at(a, b, k),
                _ => false,
            }
        }),
{
    lemma_names();
    let (a, b) = (encode_utf8(s), encode_utf8(p));
    lemma_found(a, b, 0);
    let args = seq![ValueV::Str(s), ValueV::Str(p)];
    assert(args[0] == ValueV::Str(s) && args[1] == ValueV::Str(p));
    match found_from(a, b, 0) {
        Some(i) => {
            assert(bytes_at(a, b, i));
            assert(member_call_of(h, "string"@, "find"@, args) == Ok::<
                OutcomeV,
                crate::value::RunErrorV,
            >(OutcomeV::Ask(RequestV::Count((i + 1) as u64))));
        },
        None => {
            assert(member_call_of(h, "string"@, "find"@, args) == Ok::<
                OutcomeV,
                crate::value::RunErrorV,
            >(OutcomeV::Value(ValueV::Nil)));
        },
    }
}

/// The names of the builtins differ.
proof fn lemma_names()
    ensures
        "string"@ != "math"@,
        "find"@ != "len"@,
        "find"@ != "upper"@,
        "find"@ != "lower"@,
        "find"@ != "sub"@,
        "format"@ != "len"@,
        "format"@ != "upper"@,
        "format"@ != "lower"@,
        "format"@ != "sub"@,
        "format"@ != "find"@,
        "tostring"@ != "tonumber"@,
{
    reveal_strlit("string");
    reveal_strlit("math");
    reveal_strlit("find");
    reveal_strlit("len");
    reveal_strlit("upper");
    reveal_strlit("lower");
    reveal_strlit("sub");
    reveal_strlit("format");
    reveal_strlit("tostring");
    reveal_strlit("tonumber");
    assert("tostring"@[2] == 's' && "tonumber"@[2] == 'n');
    assert("string"@.len() == 6 && "math"@.len() == 4 && "find"@.len() == 4);
    assert("len"@.len() == 3 && "sub"@.len() == 3 && "upper"@.len() == 5);
    assert("lower"@.len() == 5 && "format"@.len() == 6);
}

/// `string.len` and `#` ask for the same number.
pub proof fn law_len_is_the_length(h: HeapV, s: Seq<char>)
    ensures
        member_call_of(h, "string"@, "len"@, seq![ValueV::Str(s)]) == Ok::<
            OutcomeV,
            crate::value::RunErrorV,
        >(OutcomeV::Ask(RequestV::Count(encode_utf8(s).len() as u64))),
        crate::ir::vm::unary_effect(h, crate::ast::UnOp::Len, ValueV::Str(s))
            == crate::ir::vm::EffectV::Ask(RequestV::Count(encode_utf8(s).len() as u64)),
{
    lemma_names();
}

/// `tostring` leaves a text as it is, spells a bool, and asks for the spelling of a number;
/// `tonumber` leaves a number as it is, and asks for what a text spells.
pub proof fn law_conversions(h: HeapV, s: Seq<char>, b: bool, n: u64)
    ensures
        value_call_of(h, "tostring"@, seq![ValueV::Str(s)]) == Ok::<
            OutcomeV,
            crate::value::RunErrorV,
        >(OutcomeV::Value(ValueV::Str(s))),
        value_call_of(h, "tostring"@, seq![ValueV::Bool(b)]) == Ok::<
            OutcomeV,
            crate::value::RunErrorV,
        >(
            OutcomeV::Value(
                ValueV::Str(
                    if b {
                        "true"@
                    } else {
                        "false"@
                    },
                ),
            ),
        ),
        value_call_of(h, "tostring"@, seq![ValueV::Number(n)]) == Ok::<
            OutcomeV,
            crate::value::RunErrorV,
        >(OutcomeV::Ask(RequestV::Show(seq![PieceV::General(n)]))),
        value_call_of(h, "tonumber"@, seq![ValueV::Number(n)]) == Ok::<
            OutcomeV,
            crate::value::RunErrorV,
        >(OutcomeV::Value(ValueV::Number(n))),
        value_call_of(h, "tonumber"@, seq![ValueV::Str(s)]) == Ok::<
            OutcomeV,
            crate::value::RunErrorV,
        >(OutcomeV::Ask(RequestV::Parse(s))),
{
    lemma_names();
    let none = Seq::<PieceV>::empty();
    let d = super::eval::depth_limit(h);
    unfold_d_value(h, ValueV::Str(s), d, none);
    unfold_d_value(h, ValueV::Bool(b), d, none);
    unfold_d_value(h, ValueV::Number(n), d, none);
    lemma_shown_text(s);
    lemma_shown_text("true"@);
    lemma_shown_text("false"@);
    assert(none.push(PieceV::General(n)) =~= seq![PieceV::General(n)]);
    let one = seq![PieceV::General(n)];
    reveal_with_fuel(numbers_in, 3);
}

/// One text is shown as it is.
proof fn lemma_shown_text(s: Seq<char>)
    ensures
        with_text(Seq::<PieceV>::empty(), s) == seq![PieceV::Text(s)],
        shown(seq![PieceV::Text(s)]) == OutcomeV::Value(ValueV::Str(s)),
{
    let one = seq![PieceV::Text(s)];
    assert(with_text(Seq::<PieceV>::empty(), s) =~= one);
    reveal_with_fuel(numbers_in, 3);
    reveal_with_fuel(rendered, 3);
    assert(rendered(one, Seq::empty(), 1) =~= s);
}

// ---- formats -----------------------------------------------------------------------------------

/// Whether a text has no `%` from `i` to before `j`.
pub open spec fn is_plain(s: Seq<char>, i: int, j: int) -> bool {
    forall|k: int| i <= k < j ==> #[trigger] s[k] != '%'
}

/// Text after text is one text.
proof fn lemma_with_text(ps: Seq<PieceV>, a: Seq<char>, b: Seq<char>)
    ensures
        with_text(with_text(ps, a), b) == with_text(ps, a + b),
{
    let x = with_text(ps, a);
    assert(x.len() > 0 && x.last() is Text);
    if ps.len() > 0 && ps.last() is Text {
        let t = ps.last()->Text_0;
        assert((t + a) + b =~= t + (a + b));
        assert(with_text(x, b) =~= with_text(ps, a + b));
    } else {
        assert(with_text(x, b) =~= with_text(ps, a + b));
    }
}

/// Characters without `%` are kept.
proof fn lemma_plain(
    h: HeapV,
    fmt: Seq<char>,
    i: int,
    j: int,
    args: Seq<ValueV>,
    k: int,
    ps: Seq<PieceV>,
)
    requires
        0 <= i < j <= fmt.len(),
        is_plain(fmt, i, j),
    ensures
        f_pieces(h, fmt, i, args, k, ps) == f_pieces(
            h,
            fmt,
            j,
            args,
            k,
            with_text(ps, fmt.subrange(i, j)),
        ),
    decreases j - i,
{
    unfold_f_pieces(h, fmt, i, args, k, ps);
    assert(fmt[i] != '%');
    let c = seq![fmt[i]];
    if i + 1 < j {
        lemma_plain(h, fmt, i + 1, j, args, k, with_text(ps, c));
        lemma_with_text(ps, c, fmt.subrange(i + 1, j));
        assert(c + fmt.subrange(i + 1, j) =~= fmt.subrange(i, j));
    } else {
        assert(fmt.subrange(i, j) =~= c);
    }
}

/// A format without `%` is the text that it is, whatever the arguments.
pub proof fn law_plain_formats(h: HeapV, s: Seq<char>, args: Seq<ValueV>)
    requires
        is_plain(s, 0, s.len() as int),
        s.len() > 0,
    ensures
        member_call_of(h, "string"@, "format"@, seq![ValueV::Str(s)] + args) == Ok::<
            OutcomeV,
            crate::value::RunErrorV,
        >(OutcomeV::Value(ValueV::Str(s))),
{
    lemma_names();
    let all = seq![ValueV::Str(s)] + args;
    let rest = all.skip(1);
    let n = s.len() as int;
    lemma_plain(h, s, 0, n, rest, 0, Seq::empty());
    assert(s.subrange(0, n) =~= s);
    lemma_shown_text(s);
    unfold_f_pieces(h, s, n, rest, 0, seq![PieceV::Text(s)]);
}

/// A format with one `%s` is the text with the argument in its place; one with one `%d` has the
/// argument's integer there, in decimal.
pub proof fn law_formats_put_arguments_in_place(
    h: HeapV,
    a: Seq<char>,
    b: Seq<char>,
    v: Seq<char>,
    x: u64,
)
    requires
        is_plain(a, 0, a.len() as int),
        is_plain(b, 0, b.len() as int),
        a.len() > 0,
        b.len() > 0,
    ensures
        member_call_of(
            h,
            "string"@,
            "format"@,
            seq![ValueV::Str(a + seq!['%', 's'] + b), ValueV::Str(v)],
        ) == Ok::<OutcomeV, crate::value::RunErrorV>(OutcomeV::Value(ValueV::Str(a + v + b))),
        member_call_of(
            h,
            "string"@,
            "format"@,
            seq![ValueV::Str(a + seq!['%', 'd'] + b), ValueV::Number(x)],
        ) == Ok::<OutcomeV, crate::value::RunErrorV>(
            OutcomeV::Value(ValueV::Str(a + signed_dec(integer_of(x)) + b)),
        ),
{
    lemma_names();
    lemma_verb(h, a, b, 's', ValueV::Str(v), v);
    lemma_verb(h, a, b, 'd', ValueV::Number(x), signed_dec(integer_of(x)));
}

proof fn lemma_verb(h: HeapV, a: Seq<char>, b: Seq<char>, c: char, v: ValueV, t: Seq<char>)
    requires
        is_plain(a, 0, a.len() as int),
        is_plain(b, 0, b.len() as int),
        a.len() > 0,
        b.len() > 0,
        (c == 's' && v == ValueV::Str(t)) || (c == 'd' && v is Number && t == signed_dec(
            integer_of(v->Number_0),
        )),
    ensures
        member_call_of(
            h,
            "string"@,
            "format"@,
            seq![ValueV::Str(a + seq!['%', c] + b), v],
        ) == Ok::<OutcomeV, crate::value::RunErrorV>(OutcomeV::Value(ValueV::Str(a + t + b))),
{
    lemma_names();
    let fmt = a + seq!['%', c] + b;
    let args = seq![ValueV::Str(fmt), v];
    let rest = args.skip(1);
    assert(rest =~= seq![v]);
    let n = a.len() as int;
    let end = fmt.len() as int;
    let none = Seq::<PieceV>::empty();
    assert forall|k: int| 0 <= k < n implies #[trigger] fmt[k] != '%' by {
        assert(fmt[k] == a[k]);
    }
    assert forall|k: int| n + 2 <= k < end implies #[trigger] fmt[k] != '%' by {
        assert(fmt[k] == b[k - n - 2]);
    }
    lemma_plain(h, fmt, 0, n, rest, 0, none);
    assert(fmt.subrange(0, n) =~= a);
    let p1 = with_text(none, a);
    assert(fmt[n] == '%' && fmt[n + 1] == c);
    unfold_f_pieces(h, fmt, n, rest, 0, p1);
    let p2 = with_text(p1, t);
    if c == 's' {
        unfold_d_value(h, v, super::eval::depth_limit(h), p1);
    }
    lemma_with_text(none, a, t);
    lemma_plain(h, fmt, n + 2, end, rest, 1, p2);
    assert(fmt.subrange(n + 2, end) =~= b);
    lemma_with_text(none, a + t, b);
    let p3 = with_text(p2, b);
    unfold_f_pieces(h, fmt, end, rest, 1, p3);
    lemma_shown_text(a + t + b);
}

} // verus!
