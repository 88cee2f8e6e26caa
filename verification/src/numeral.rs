//! Numeric literals.
//!
//! A literal is recognised here and kept in symbolic form; turning it into a machine
//! number is left to whoever evaluates it.
use vstd::prelude::*;
use vstd::string::*;

verus! {

/// A well-formed numeric literal.
#[derive(Clone, Debug, PartialEq)]
pub enum Numeral {
    /// A decimal literal, in the spelling that the standard float parser reads.
    Decimal(String),
    /// A hexadecimal literal: the values of the digits before and after the point, and the
    /// binary exponent.
    Hex { whole: Vec<u8>, frac: Vec<u8>, exp: i32 },
}

/// What a [`Numeral`] stands for.
pub ghost enum NumeralV {
    Decimal(Seq<char>),
    Hex { whole: Seq<u8>, frac: Seq<u8>, exp: i32 },
}

impl View for Numeral {
    type V = NumeralV;

    open spec fn view(&self) -> NumeralV {
        match self {
            Numeral::Decimal(t) => NumeralV::Decimal(t@),
            Numeral::Hex { whole, frac, exp } => NumeralV::Hex { whole: whole@, frac: frac@, exp: *exp },
        }
    }
}

impl Numeral {
    /// A copy of this literal.
    pub fn dup(&self) -> (r: Numeral)
        ensures
            r@ == self@,
    {
        match self {
            Numeral::Decimal(t) => Numeral::Decimal(t.clone()),
            Numeral::Hex { whole, frac, exp } => Numeral::Hex {
                whole: dup_bytes(whole),
                frac: dup_bytes(frac),
                exp: *exp,
            },
        }
    }

    /// The literal `text`, a decimal spelling.
    pub fn decimal(text: &str) -> (r: Numeral)
        ensures
            r@ == NumeralV::Decimal(text@),
    {
        Numeral::Decimal(text.to_owned())
    }
}

fn dup_bytes(v: &Vec<u8>) -> (r: Vec<u8>)
    ensures
        r@ == v@,
{
    let mut out: Vec<u8> = Vec::new();
    let mut i: usize = 0;
    while i < v.len()
        invariant
            i <= v.len(),
            out@ == v@.subrange(0, i as int),
        decreases v.len() - i,
    {
        out.push(v[i]);
        i += 1;
        assert(out@ =~= v@.subrange(0, i as int));
    }
    assert(out@ =~= v@);
    out
}

/// Whether `c` is a decimal digit.
pub open spec fn is_digit(c: char) -> bool {
    48 <= c as int <= 57
}

/// The value of the hexadecimal digit `c`, if it is one.
pub open spec fn hex_digit(c: char) -> Option<u8> {
    let n = c as int;
    if 48 <= n <= 57 {
        Some((n - 48) as u8)
    } else if 97 <= n <= 102 {
        Some((n - 97 + 10) as u8)
    } else if 65 <= n <= 70 {
        Some((n - 65 + 10) as u8)
    } else {
        None
    }
}

/// End of the run of decimal digits of `s` that starts at `i`.
pub open spec fn digits_end(s: Seq<char>, i: int) -> int
    decreases s.len() - i,
{
    if 0 <= i < s.len() && is_digit(s[i]) {
        digits_end(s, i + 1)
    } else {
        i
    }
}

/// Whether `s[i]` is the letter with lower-case code `low`, in either case.
pub open spec fn letter_at(s: Seq<char>, i: int, low: int) -> bool {
    0 <= i < s.len() && (s[i] as int == low || s[i] as int == low - 32)
}

/// Whether `s[i]` is a plus or minus sign.
pub open spec fn sign_at(s: Seq<char>, i: int) -> bool {
    0 <= i < s.len() && (s[i] as int == 43 || s[i] as int == 45)
}

/// `i`, or the index after a sign at `i`.
pub open spec fn after_sign(s: Seq<char>, i: int) -> int {
    if sign_at(s, i) {
        i + 1
    } else {
        i
    }
}

/// Whether `s` from `i` on spells `inf`, `infinity` or `nan`, in any case.
pub open spec fn special_from(s: Seq<char>, i: int) -> bool {
    ||| s.len() == i + 3 && letter_at(s, i, 110) && letter_at(s, i + 1, 97) && letter_at(
        s,
        i + 2,
        110,
    )
    ||| s.len() == i + 3 && letter_at(s, i, 105) && letter_at(s, i + 1, 110) && letter_at(
        s,
        i + 2,
        102,
    )
    ||| s.len() == i + 8 && letter_at(s, i, 105) && letter_at(s, i + 1, 110) && letter_at(
        s,
        i + 2,
        102,
    ) && letter_at(s, i + 3, 105) && letter_at(s, i + 4, 110) && letter_at(s, i + 5, 105)
        && letter_at(s, i + 6, 116) && letter_at(s, i + 7, 121)
}

/// Whether `s` from `i` on is an exponent `e[+-]digits`, or empty.
pub open spec fn exponent_from(s: Seq<char>, i: int) -> bool {
    ||| i == s.len()
    ||| letter_at(s, i, 101) && {
        let d = after_sign(s, i + 1);
        d < digits_end(s, d) && digits_end(s, d) == s.len()
    }
}

/// Whether `s` is a decimal float: an optional sign, then `inf`, `infinity`, `nan`, or
/// digits with an optional point among or around them and an optional exponent.
pub open spec fn is_decimal(s: Seq<char>) -> bool {
    let i = after_sign(s, 0);
    let d = digits_end(s, i);
    ||| special_from(s, i)
    ||| if d < s.len() && s[d] as int == 46 {
        let f = digits_end(s, d + 1);
        (i < d || d + 1 < f) && exponent_from(s, f)
    } else {
        i < d && exponent_from(s, d)
    }
}

/// First index at or after `i` that holds one of two characters, or the length of `s`.
pub open spec fn find_either(s: Seq<char>, i: int, x: int, y: int) -> int
    decreases s.len() - i,
{
    if i < 0 || i >= s.len() {
        s.len() as int
    } else if s[i] as int == x || s[i] as int == y {
        i
    } else {
        find_either(s, i + 1, x, y)
    }
}

/// The number written by the decimal digits `s[from..to]`.
pub open spec fn digits_value(s: Seq<char>, from: int, to: int) -> int
    decreases to - from,
{
    if to <= from {
        0
    } else {
        10 * digits_value(s, from, to - 1) + (s[to - 1] as int - 48)
    }
}

/// The integer that `s` from `i` on spells, with an optional sign, when it fits 32 bits.
pub open spec fn int32_from(s: Seq<char>, i: int) -> Option<int> {
    let d = after_sign(s, i);
    if d < s.len() && digits_end(s, d) == s.len() {
        let m = digits_value(s, d, s.len() as int);
        let v = if sign_at(s, i) && s[i] as int == 45 { -m } else { m };
        if i32::MIN <= v <= i32::MAX {
            Some(v)
        } else {
            None
        }
    } else {
        None
    }
}

/// Whether `s[from..to]` holds hexadecimal digits only.
pub open spec fn all_hex(s: Seq<char>, from: int, to: int) -> bool {
    forall|k: int| from <= k < to ==> (#[trigger] hex_digit(s[k])) is Some
}

/// The values of the hexadecimal digits `s[from..to]`.
pub open spec fn hex_values(s: Seq<char>, from: int, to: int) -> Seq<u8> {
    Seq::new((to - from) as nat, |k: int| hex_digit(s[from + k])->0)
}

/// The hexadecimal literal that `s` spells from `i` (after the `0x` prefix) on.
pub open spec fn hex_numeral(s: Seq<char>, i: int) -> Option<NumeralV> {
    let p = find_either(s, i, 112, 80);
    let dot = find_either(s.subrange(0, p), i, 46, 46);
    let exp = if p < s.len() { int32_from(s, p + 1) } else { Some(0int) };
    let frac = if dot < p { dot + 1 } else { p };
    if exp is None || (dot == i && frac == p) || !all_hex(s, i, dot) || !all_hex(s, frac, p) {
        None
    } else {
        Some(
            NumeralV::Hex {
                whole: hex_values(s, i, dot),
                frac: hex_values(s, frac, p),
                exp: exp->0 as i32,
            },
        )
    }
}

/// The literal that `s` spells, if it is one.
pub open spec fn numeral_of(s: Seq<char>) -> Option<NumeralV> {
    if s.len() >= 2 && s[0] as int == 48 && letter_at(s, 1, 120) {
        hex_numeral(s, 2)
    } else if is_decimal(s) {
        Some(NumeralV::Decimal(s))
    } else {
        None
    }
}

/// The bytes of a text with one byte per character.
spec fn bytes_match(b: Seq<u8>, s: Seq<char>) -> bool {
    b.len() == s.len() && forall|i: int| 0 <= i < s.len() ==> (#[trigger] b[i]) as int == s[i] as int
}

fn skip_digits(b: &[u8], from: usize, Ghost(s): Ghost<Seq<char>>) -> (r: usize)
    requires
        bytes_match(b@, s),
        from <= b@.len(),
    ensures
        r == digits_end(s, from as int),
        from <= r <= b@.len(),
        forall|k: int| from <= k < r ==> is_digit(#[trigger] s[k]),
{
    let mut i: usize = from;
    while i < b.len() && 48 <= b[i] && b[i] <= 57
        invariant
            bytes_match(b@, s),
            from <= i <= b@.len(),
            digits_end(s, i as int) == digits_end(s, from as int),
            forall|k: int| from <= k < i ==> is_digit(#[trigger] s[k]),
        decreases b.len() - i,
    {
        assert(is_digit(s[i as int]));
        i += 1;
    }
    i
}

fn byte_is(b: &[u8], i: usize, x: u8, y: u8, Ghost(s): Ghost<Seq<char>>) -> (r: bool)
    requires
        bytes_match(b@, s),
    ensures
        r == (i < s.len() && (s[i as int] as int == x || s[i as int] as int == y)),
        r ==> i < usize::MAX,
{
    i < b.len() && (b[i] == x || b[i] == y)
}

fn special_at(b: &[u8], i: usize, Ghost(s): Ghost<Seq<char>>) -> (r: bool)
    requires
        bytes_match(b@, s),
        i <= b@.len(),
    ensures
        r == special_from(s, i as int),
{
    let n: usize = b.len() - i;
    if n == 3 {
        let nan = byte_is(b, i, 110, 78, Ghost(s)) && byte_is(b, i + 1, 97, 65, Ghost(s))
            && byte_is(b, i + 2, 110, 78, Ghost(s));
        let inf = byte_is(b, i, 105, 73, Ghost(s)) && byte_is(b, i + 1, 110, 78, Ghost(s))
            && byte_is(b, i + 2, 102, 70, Ghost(s));
        nan || inf
    } else if n == 8 {
        byte_is(b, i, 105, 73, Ghost(s)) && byte_is(b, i + 1, 110, 78, Ghost(s)) && byte_is(
            b,
            i + 2,
            102,
            70,
            Ghost(s),
        ) && byte_is(b, i + 3, 105, 73, Ghost(s)) && byte_is(b, i + 4, 110, 78, Ghost(s))
            && byte_is(b, i + 5, 105, 73, Ghost(s)) && byte_is(b, i + 6, 116, 84, Ghost(s))
            && byte_is(b, i + 7, 121, 89, Ghost(s))
    } else {
        false
    }
}

fn exponent_at(b: &[u8], i: usize, Ghost(s): Ghost<Seq<char>>) -> (r: bool)
    requires
        bytes_match(b@, s),
        i <= b@.len(),
    ensures
        r == exponent_from(s, i as int),
{
    if i == b.len() {
        return true;
    }
    if !byte_is(b, i, 101, 69, Ghost(s)) {
        return false;
    }
    let mut d: usize = i + 1;
    if byte_is(b, d, 43, 45, Ghost(s)) {
        d += 1;
    }
    let e: usize = skip_digits(b, d, Ghost(s));
    d < e && e == b.len()
}

fn decimal_ok(b: &[u8], Ghost(s): Ghost<Seq<char>>) -> (r: bool)
    requires
        bytes_match(b@, s),
    ensures
        r == is_decimal(s),
{
    let mut i: usize = 0;
    if byte_is(b, 0, 43, 45, Ghost(s)) {
        i = 1;
    }
    if special_at(b, i, Ghost(s)) {
        return true;
    }
    let d: usize = skip_digits(b, i, Ghost(s));
    if byte_is(b, d, 46, 46, Ghost(s)) {
        let f: usize = skip_digits(b, d + 1, Ghost(s));
        (i < d || d + 1 < f) && exponent_at(b, f, Ghost(s))
    } else {
        i < d && exponent_at(b, d, Ghost(s))
    }
}

fn find_byte(b: &[u8], from: usize, to: usize, x: u8, y: u8, Ghost(s): Ghost<Seq<char>>) -> (r: usize)
    requires
        bytes_match(b@, s),
        from <= to <= b@.len(),
    ensures
        r == find_either(s.subrange(0, to as int), from as int, x as int, y as int),
        from <= r <= to,
{
    let ghost t = s.subrange(0, to as int);
    let mut i: usize = from;
    while i < to && b[i] != x && b[i] != y
        invariant
            bytes_match(b@, s),
            from <= i <= to <= b@.len(),
            t == s.subrange(0, to as int),
            find_either(t, i as int, x as int, y as int) == find_either(
                t,
                from as int,
                x as int,
                y as int,
            ),
        decreases to - i,
    {
        assert(t[i as int] == s[i as int]);
        i += 1;
    }
    assert(i < to ==> t[i as int] == s[i as int]);
    i
}

proof fn lemma_digits_value_grows(s: Seq<char>, from: int, mid: int, to: int)
    requires
        from <= mid <= to,
        forall|k: int| from <= k < to ==> is_digit(#[trigger] s[k]),
    ensures
        0 <= digits_value(s, from, mid) <= digits_value(s, from, to),
    decreases to - from,
{
    if mid < to {
        lemma_digits_value_grows(s, from, mid, to - 1);
        assert(is_digit(s[to - 1]));
    } else if from < to {
        lemma_digits_value_grows(s, from, from, to - 1);
        assert(is_digit(s[to - 1]));
    }
}

fn int32_at(b: &[u8], i: usize, Ghost(s): Ghost<Seq<char>>) -> (r: Option<i32>)
    requires
        bytes_match(b@, s),
        i <= b@.len(),
    ensures
        match r {
            Some(v) => int32_from(s, i as int) == Some(v as int),
            None => int32_from(s, i as int) is None,
        },
{
    let mut d: usize = i;
    if byte_is(b, i, 43, 45, Ghost(s)) {
        d = i + 1;
    }
    let neg: bool = byte_is(b, i, 45, 45, Ghost(s));
    let e: usize = skip_digits(b, d, Ghost(s));
    if d >= b.len() || e != b.len() {
        return None;
    }
    let mut m: i64 = 0;
    let mut k: usize = d;
    while k < b.len()
        invariant
            bytes_match(b@, s),
            d <= k <= b@.len(),
            forall|j: int| d <= j < b@.len() ==> is_digit(#[trigger] s[j]),
            m == digits_value(s, d as int, k as int),
            0 <= m <= 0x8000_0000,
            int32_from(s, i as int) == {
                let v = if neg {
                    -digits_value(s, d as int, s.len() as int)
                } else {
                    digits_value(s, d as int, s.len() as int)
                };
                if i32::MIN <= v <= i32::MAX {
                    Some(v)
                } else {
                    None
                }
            },
        decreases b.len() - k,
    {
        assert(is_digit(s[k as int]));
        m = m * 10 + (b[k] - 48) as i64;
        k += 1;
        if m > 0x8000_0000 {
            proof {
                lemma_digits_value_grows(s, d as int, k as int, s.len() as int);
            }
            return None;
        }
    }
    let v: i64 = if neg { -m } else { m };
    if -0x8000_0000 <= v && v <= 0x7fff_ffff {
        Some(v as i32)
    } else {
        None
    }
}

/// The value of a hexadecimal digit, 0 for any other byte.
pub fn hex_val(c: u8) -> (r: u32)
    ensures
        r == match hex_digit(c as char) {
            Some(v) => v as u32,
            None => 0,
        },
{
    if 48 <= c && c <= 57 {
        (c - 48) as u32
    } else if 97 <= c && c <= 102 {
        (c - 97 + 10) as u32
    } else if 65 <= c && c <= 70 {
        (c - 65 + 10) as u32
    } else {
        0
    }
}

/// Whether `c` is a hexadecimal digit.
pub fn is_hex_digit(c: u8) -> (r: bool)
    ensures
        r == hex_digit(c as char) is Some,
{
    (48 <= c && c <= 57) || (97 <= c && c <= 102) || (65 <= c && c <= 70)
}

fn hex_run(b: &[u8], from: usize, to: usize, Ghost(s): Ghost<Seq<char>>) -> (r: Option<Vec<u8>>)
    requires
        bytes_match(b@, s),
        from <= to <= b@.len(),
    ensures
        match r {
            Some(v) => all_hex(s, from as int, to as int) && v@ == hex_values(
                s,
                from as int,
                to as int,
            ),
            None => !all_hex(s, from as int, to as int),
        },
{
    let mut out: Vec<u8> = Vec::new();
    let mut i: usize = from;
    while i < to
        invariant
            bytes_match(b@, s),
            from <= i <= to <= b@.len(),
            all_hex(s, from as int, i as int),
            out@ == hex_values(s, from as int, i as int),
        decreases to - i,
    {
        let c: u8 = b[i];
        assert(b@[i as int] as int == s[i as int] as int);
        assert(c as char == s[i as int]);
        if !is_hex_digit(c) {
            assert(hex_digit(s[i as int]) is None);
            return None;
        }
        out.push(hex_val(c) as u8);
        i += 1;
        assert(out@ =~= hex_values(s, from as int, i as int));
    }
    Some(out)
}

fn parse_hex_number(b: &[u8], Ghost(s): Ghost<Seq<char>>) -> (r: Option<Numeral>)
    requires
        bytes_match(b@, s),
        b@.len() >= 2,
    ensures
        match r {
            Some(n) => hex_numeral(s, 2) == Some(n@),
            None => hex_numeral(s, 2) is None,
        },
{
    let n: usize = b.len();
    let p: usize = find_byte(b, 2, n, 112, 80, Ghost(s));
    assert(s.subrange(0, n as int) =~= s);
    let exp: i32 = if p < n {
        match int32_at(b, p + 1, Ghost(s)) {
            Some(e) => e,
            None => {
                return None;
            },
        }
    } else {
        0
    };
    let dot: usize = find_byte(b, 2, p, 46, 46, Ghost(s));
    let frac: usize = if dot < p { dot + 1 } else { p };
    if dot == 2 && frac == p {
        return None;
    }
    let int_digits = match hex_run(b, 2, dot, Ghost(s)) {
        Some(v) => v,
        None => {
            return None;
        },
    };
    let frac_digits = match hex_run(b, frac, p, Ghost(s)) {
        Some(v) => v,
        None => {
            return None;
        },
    };
    Some(Numeral::Hex { whole: int_digits, frac: frac_digits, exp })
}

/// Read a numeric literal: decimal integers and floats with exponents, and hexadecimal
/// integers and floats (`0x1p4`). Returns `None` on malformed input.
pub fn parse_number(text: &str) -> (r: Option<Numeral>)
    ensures
        match r {
            Some(n) => numeral_of(text@) == Some(n@),
            None => numeral_of(text@) is None,
        },
{
    let ghost s = text@;
    if !text.is_ascii() {
        proof {
            lemma_numeral_is_ascii(s);
        }
        return None;
    }
    let b = text.as_bytes();
    proof {
        broadcast use is_ascii_spec_bytes;

        assert(b@ == Seq::new(s.len(), |i: int| s[i] as u8));
        assert forall|i: int| 0 <= i < s.len() implies (#[trigger] b@[i]) as int == s[i] as int by {
            assert(0 <= s[i] as nat && (s[i] as nat) < 128);
        }
    }
    if byte_is(b, 0, 48, 48, Ghost(s)) && byte_is(b, 1, 120, 88, Ghost(s)) {
        parse_hex_number(b, Ghost(s))
    } else if decimal_ok(b, Ghost(s)) {
        Some(Numeral::Decimal(text.to_owned()))
    } else {
        None
    }
}

proof fn lemma_digits_end(s: Seq<char>, i: int)
    requires
        0 <= i <= s.len(),
    ensures
        i <= digits_end(s, i) <= s.len(),
        forall|k: int| i <= k < digits_end(s, i) ==> is_digit(#[trigger] s[k]),
    decreases s.len() - i,
{
    if i < s.len() && is_digit(s[i]) {
        lemma_digits_end(s, i + 1);
    }
}

proof fn lemma_find_either(s: Seq<char>, i: int, x: int, y: int)
    requires
        0 <= i <= s.len(),
    ensures
        i <= find_either(s, i, x, y) <= s.len(),
        find_either(s, i, x, y) < s.len() ==> (s[find_either(s, i, x, y)] as int == x
            || s[find_either(s, i, x, y)] as int == y),
    decreases s.len() - i,
{
    if i < s.len() && s[i] as int != x && s[i] as int != y {
        lemma_find_either(s, i + 1, x, y);
    }
}

/// Every literal is spelled in ASCII.
pub proof fn lemma_numeral_is_ascii(s: Seq<char>)
    ensures
        numeral_of(s) is Some ==> vstd::utf8::is_ascii_chars(s),
{
    if numeral_of(s) is Some {
        assert forall|k: int| 0 <= k < s.len() implies '\0' <= #[trigger] s[k] <= '\u{7f}' by {
            if s.len() >= 2 && s[0] as int == 48 && letter_at(s, 1, 120) {
                let p = find_either(s, 2, 112, 80);
                lemma_find_either(s, 2, 112, 80);
                let t = s.subrange(0, p);
                let dot = find_either(t, 2, 46, 46);
                lemma_find_either(t, 2, 46, 46);
                if p < s.len() {
                    let d = after_sign(s, p + 1);
                    if d < s.len() {
                        lemma_digits_end(s, d);
                    }
                    if d <= k {
                        assert(is_digit(s[k]));
                    }
                }
                if 2 <= k < dot {
                    assert(hex_digit(s[k]) is Some);
                } else if dot < k < p {
                    assert(hex_digit(s[k]) is Some);
                } else if k == dot && dot < p {
                    assert(t[k] == s[k]);
                }
            } else {
                let i = after_sign(s, 0);
                lemma_digits_end(s, i);
                let d = digits_end(s, i);
                if !special_from(s, i) {
                    let f = if d < s.len() && s[d] as int == 46 {
                        digits_end(s, d + 1)
                    } else {
                        d
                    };
                    if d < s.len() && s[d] as int == 46 {
                        lemma_digits_end(s, d + 1);
                    }
                    if f < s.len() {
                        lemma_digits_end(s, after_sign(s, f + 1));
                    }
                    if i <= k < d || d < k < f || after_sign(s, f + 1) <= k {
                        assert(is_digit(s[k]));
                    }
                }
            }
        }
    }
}

} // verus!
