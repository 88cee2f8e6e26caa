//! Parsing of `---@` annotations in documentation comments.
//!
//! [`parse_doc_block`] extracts the `@param` and `@return` directives of a run of comments;
//! [`parse_type_ann`] parses the type expression after a directive:
//!
//! ```text
//! type    := primary ( '?' | '[' ']' )*        -- postfix optional / array, left to right
//! primary := NAME                              -- number | bool | string | nil
//!          | '{' '[' 'string' ']' ':' type '}' -- map<string, T>
//!          | '{' NAME ':' type (',' NAME ':' type)* [','] '}'  -- record
//! ```
//!
//! Unknown directives and other lines are documentation.
use vstd::prelude::*;
use vstd::string::*;
use vstd::utf8::{encode_utf8, is_ascii_chars, is_ascii_chars_encode_utf8};
use crate::ast::Spanned;
use crate::diagnostics::{error_at, Diagnostic, DiagnosticV, Span};
use crate::text::{cat2, cat3, cat4, latin1, latin1_string, own, same};

verus! {

/// A documentation comment: its text and where it stands.
#[derive(Clone, Debug, PartialEq)]
pub struct DocComment {
    pub span: Span,
    /// The text after the dashes.
    pub text: String,
}

/// The shape of a type annotation.
#[derive(Debug, PartialEq)]
pub enum TypeAnn {
    /// A type by its name: `number`, `bool`, `string`, `nil`.
    Named(String),
    /// `T?`.
    Optional(Box<TypeAnn>),
    /// `T[]`.
    Array(Box<TypeAnn>),
    /// `{ [string]: T }`.
    MapOf(Box<TypeAnn>),
    /// `{ name: T, ... }`.
    Record(Vec<(String, TypeAnn)>),
}

pub ghost enum TypeAnnV {
    Named(Seq<char>),
    Optional(Box<TypeAnnV>),
    Array(Box<TypeAnnV>),
    MapOf(Box<TypeAnnV>),
    Record(Seq<(Seq<char>, TypeAnnV)>),
}

/// The counterparts of a list of record fields.
pub open spec fn ann_fields_v(v: Seq<(String, TypeAnn)>) -> Seq<(Seq<char>, TypeAnnV)>
    decreases v,
{
    Seq::new(
        v.len(),
        |i: int|
            if 0 <= i < v.len() {
                (v[i].0@, v[i].1.view())
            } else {
                arbitrary()
            },
    )
}

impl TypeAnn {
    pub open spec fn view(&self) -> TypeAnnV
        decreases self,
    {
        match self {
            TypeAnn::Named(n) => TypeAnnV::Named(n@),
            TypeAnn::Optional(t) => TypeAnnV::Optional(Box::new(t.view())),
            TypeAnn::Array(t) => TypeAnnV::Array(Box::new(t.view())),
            TypeAnn::MapOf(t) => TypeAnnV::MapOf(Box::new(t.view())),
            TypeAnn::Record(fs) => TypeAnnV::Record(ann_fields_v(fs@)),
        }
    }
}

/// A `@param` directive.
#[derive(Debug, PartialEq)]
pub struct ParamAnn {
    pub name: Spanned<String>,
    pub ty: Spanned<TypeAnn>,
}

/// The directives of a function's documentation.
#[derive(Debug, PartialEq)]
pub struct FnAnnotations {
    pub params: Vec<ParamAnn>,
    pub ret: Option<Spanned<TypeAnn>>,
}

pub ghost struct ParamAnnV {
    pub name: Seq<char>,
    /// Where the name is taken to stand.
    pub name_span: Span,
    pub ty: TypeAnnV,
    pub span: Span,
}

/// What the directives come to, and the complaints about them.
pub ghost struct DocV {
    pub params: Seq<ParamAnnV>,
    pub ret: Option<(TypeAnnV, Span)>,
    pub diags: Seq<DiagnosticV>,
}

/// Whether a character is white space.
pub open spec fn is_white(c: char) -> bool {
    let n = c as int;
    9 <= n <= 13 || n == 0x20 || n == 0x85 || n == 0xa0 || n == 0x1680 || 0x2000 <= n <= 0x200a || n
        == 0x2028 || n == 0x2029 || n == 0x202f || n == 0x205f || n == 0x3000
}

/// The first position from `i` on that holds no white space.
pub open spec fn skip_white(s: Seq<char>, i: int) -> int
    decreases s.len() - i,
{
    if 0 <= i < s.len() && is_white(s[i]) {
        skip_white(s, i + 1)
    } else {
        i
    }
}

/// The position after the last one below `n` that holds no white space.
pub open spec fn trim_end(s: Seq<char>, n: int) -> int
    decreases n,
{
    if 0 < n <= s.len() && is_white(s[n - 1]) {
        trim_end(s, n - 1)
    } else {
        n
    }
}

/// The first position from `i` on that holds white space.
pub open spec fn find_white(s: Seq<char>, i: int) -> int
    decreases s.len() - i,
{
    if 0 <= i < s.len() && !is_white(s[i]) {
        find_white(s, i + 1)
    } else {
        i
    }
}

/// A text without white space at either end.
pub open spec fn trimmed(s: Seq<char>) -> Seq<char> {
    let a = skip_white(s, 0);
    let b = trim_end(s, s.len() as int);
    if a < b {
        s.subrange(a, b)
    } else {
        Seq::empty()
    }
}

/// What stands before the first white space.
pub open spec fn first_word(s: Seq<char>) -> Seq<char> {
    s.subrange(0, find_white(s, 0))
}

/// What stands after the first white space, trimmed.
pub open spec fn after_word(s: Seq<char>) -> Seq<char> {
    let k = find_white(s, 0);
    if k < s.len() {
        trimmed(s.subrange(k + 1, s.len() as int))
    } else {
        Seq::empty()
    }
}

/// A token of a type annotation.
#[derive(Debug, PartialEq)]
pub enum Tk {
    Ident(String),
    LBracket,
    RBracket,
    LBrace,
    RBrace,
    Colon,
    Comma,
    Question,
}

pub ghost enum TkV {
    Ident(Seq<char>),
    LBracket,
    RBracket,
    LBrace,
    RBrace,
    Colon,
    Comma,
    Question,
}

impl View for Tk {
    type V = TkV;

    open spec fn view(&self) -> TkV {
        match self {
            Tk::Ident(s) => TkV::Ident(s@),
            Tk::LBracket => TkV::LBracket,
            Tk::RBracket => TkV::RBracket,
            Tk::LBrace => TkV::LBrace,
            Tk::RBrace => TkV::RBrace,
            Tk::Colon => TkV::Colon,
            Tk::Comma => TkV::Comma,
            Tk::Question => TkV::Question,
        }
    }
}

/// The counterparts of a list of tokens.
pub open spec fn tks_v(v: Seq<Tk>) -> Seq<TkV> {
    Seq::new(v.len(), |i: int| v[i]@)
}

/// The spelling of a token.
pub open spec fn tk_text(t: TkV) -> Seq<char> {
    match t {
        TkV::Ident(s) => s,
        TkV::LBracket => "["@,
        TkV::RBracket => "]"@,
        TkV::LBrace => "{"@,
        TkV::RBrace => "}"@,
        TkV::Colon => ":"@,
        TkV::Comma => ","@,
        TkV::Question => "?"@,
    }
}

pub open spec fn ident_start(c: u8) -> bool {
    65 <= c <= 90 || 97 <= c <= 122 || c == 95
}

pub open spec fn ident_continue(c: u8) -> bool {
    ident_start(c) || 48 <= c <= 57
}

/// The end of the identifier that goes on at `i`.
pub open spec fn ident_end(b: Seq<u8>, i: int) -> int
    decreases b.len() - i,
{
    if 0 <= i < b.len() && ident_continue(b[i]) {
        ident_end(b, i + 1)
    } else {
        i
    }
}

/// The token of a byte that is one by itself.
pub open spec fn punct(c: u8) -> Option<TkV> {
    if c == 91 {
        Some(TkV::LBracket)
    } else if c == 93 {
        Some(TkV::RBracket)
    } else if c == 123 {
        Some(TkV::LBrace)
    } else if c == 125 {
        Some(TkV::RBrace)
    } else if c == 58 {
        Some(TkV::Colon)
    } else if c == 44 {
        Some(TkV::Comma)
    } else if c == 63 {
        Some(TkV::Question)
    } else {
        None
    }
}

pub open spec fn is_blank(c: u8) -> bool {
    c == 32 || c == 9 || c == 13 || c == 10
}

/// The tokens of the bytes from `i` on.
#[verifier::opaque]
pub open spec fn t_tokens(b: Seq<u8>, i: int, acc: Seq<TkV>) -> Result<Seq<TkV>, Seq<char>>
    decreases b.len() - i,
{
    if i < 0 || i >= b.len() {
        Ok(acc)
    } else if is_blank(b[i]) {
        t_tokens(b, i + 1, acc)
    } else {
        match punct(b[i]) {
            Some(t) => t_tokens(b, i + 1, acc.push(t)),
            None => if ident_start(b[i]) {
                let j = ident_end(b, i);
                if i < j <= b.len() {
                    t_tokens(b, j, acc.push(TkV::Ident(latin1(b.subrange(i, j)))))
                } else {
                    Ok(acc)
                }
            } else {
                Err("unexpected character `"@ + seq![b[i] as char] + "`"@)
            },
        }
    }
}

/// A shape and the position after it, or a complaint.
pub type Shape = Result<(TypeAnnV, int), Seq<char>>;

pub open spec fn tk_at(ts: Seq<TkV>, i: int) -> Option<TkV> {
    if 0 <= i < ts.len() {
        Some(ts[i])
    } else {
        None
    }
}

/// The postfix marks from `i` on, left to right.
#[verifier::opaque]
pub open spec fn t_postfix(ts: Seq<TkV>, i: int, ty: TypeAnnV) -> Shape
    decreases ts.len() - i,
{
    match tk_at(ts, i) {
        Some(TkV::Question) => t_postfix(ts, i + 1, TypeAnnV::Optional(Box::new(ty))),
        Some(TkV::LBracket) => match tk_at(ts, i + 1) {
            Some(TkV::RBracket) => t_postfix(ts, i + 2, TypeAnnV::Array(Box::new(ty))),
            _ => Err("expected `]` for an array type `T[]`"@),
        },
        _ => Ok((ty, i)),
    }
}

/// A type.
#[verifier::opaque]
pub open spec fn t_type(ts: Seq<TkV>, i: int) -> Shape
    decreases ts.len() - i, 2int,
{
    match t_primary(ts, i) {
        Err(e) => Err(e),
        Ok((ty, j)) => t_postfix(ts, j, ty),
    }
}

/// A type without postfix marks.
#[verifier::opaque]
pub open spec fn t_primary(ts: Seq<TkV>, i: int) -> Shape
    decreases ts.len() - i, 1int,
{
    match tk_at(ts, i) {
        Some(TkV::Ident(n)) => Ok((TypeAnnV::Named(n), i + 1)),
        Some(TkV::LBrace) => if tk_at(ts, i + 1) is Some && ts[i + 1] is LBracket {
            t_map(ts, i + 1)
        } else {
            match t_fields(ts, i + 1, Seq::empty()) {
                Err(e) => Err(e),
                Ok((fields, j)) => if fields.len() == 0 {
                    Err("empty record type `{}` is not allowed"@)
                } else {
                    Ok((TypeAnnV::Record(fields), j))
                },
            }
        },
        Some(other) => Err("expected a type, found `"@ + tk_text(other) + "`"@),
        None => Err("expected a type"@),
    }
}

/// A map type, after its brace: `[string]: T }`.
#[verifier::opaque]
pub open spec fn t_map(ts: Seq<TkV>, i: int) -> Shape
    decreases ts.len() - i, 1int,
{
    if tk_at(ts, i + 1) != Some(TkV::Ident("string"@)) {
        Err("map key type must be `string` (`{ [string]: T }`)"@)
    } else if tk_at(ts, i + 2) != Some(TkV::RBracket) {
        Err("expected `]` in map type"@)
    } else if tk_at(ts, i + 3) != Some(TkV::Colon) {
        Err("expected `:` in map type"@)
    } else {
        match t_type(ts, i + 4) {
            Err(e) => Err(e),
            Ok((val, j)) => if tk_at(ts, j) != Some(TkV::RBrace) {
                Err("expected `}` to close map type"@)
            } else {
                Ok((TypeAnnV::MapOf(Box::new(val)), j + 1))
            },
        }
    }
}

/// The fields of a record type from `i` on, and the position after its closing brace.
#[verifier::opaque]
pub open spec fn t_fields(ts: Seq<TkV>, i: int, acc: Seq<(Seq<char>, TypeAnnV)>) -> Result<
    (Seq<(Seq<char>, TypeAnnV)>, int),
    Seq<char>,
>
    decreases ts.len() - i, 3int,
{
    match tk_at(ts, i) {
        Some(TkV::RBrace) => Ok((acc, i + 1)),
        Some(TkV::Ident(key)) => if tk_at(ts, i + 1) != Some(TkV::Colon) {
            Err("expected `:` after record field `"@ + key + "`"@)
        } else {
            match t_type(ts, i + 2) {
                Err(e) => Err(e),
                Ok((val, j)) => match tk_at(ts, j) {
                    Some(TkV::Comma) => if i < j {
                        t_fields(ts, j + 1, acc.push((key, val)))
                    } else {
                        Ok((acc, j))
                    },
                    Some(TkV::RBrace) => Ok((acc.push((key, val)), j + 1)),
                    _ => Err("expected `,` or `}` in record type"@),
                },
            }
        },
        _ => Err("expected a field name in record type"@),
    }
}

/// The shape of an annotation.
pub open spec fn type_ann_of(s: Seq<char>) -> Result<TypeAnnV, Seq<char>> {
    match t_tokens(encode_utf8(s), 0, Seq::empty()) {
        Err(e) => Err(e),
        Ok(ts) => match t_type(ts, 0) {
            Err(e) => Err(e),
            Ok((ty, i)) => match tk_at(ts, i) {
                Some(t) => Err("unexpected trailing `"@ + tk_text(t) + "`"@),
                None => Ok(ty),
            },
        },
    }
}

pub open spec fn complain(d: DocV, msg: Seq<char>, span: Span) -> DocV {
    DocV { diags: d.diags.push(error_at("E0110"@, msg, span)), ..d }
}

/// A `@param` directive.
pub open spec fn doc_param(d: DocV, args: Seq<char>, span: Span) -> DocV {
    let name = first_word(args);
    let ty = after_word(args);
    if name.len() == 0 || ty.len() == 0 {
        complain(d, "malformed `---@param` (expected `@param <name> <type>`)"@, span)
    } else {
        match type_ann_of(ty) {
            Ok(t) => DocV { params: d.params.push(ParamAnnV { name, name_span: span, ty: t, span }), ..d },
            Err(msg) => complain(
                d,
                "malformed type in `---@param "@ + name + "`: "@ + msg,
                span,
            ),
        }
    }
}

/// A `@return` directive; the first one counts.
pub open spec fn doc_return(d: DocV, args: Seq<char>, span: Span) -> DocV {
    if args.len() == 0 {
        complain(d, "malformed `---@return` (expected `@return <type>`)"@, span)
    } else {
        match type_ann_of(args) {
            Ok(t) => if d.ret is None {
                DocV { ret: Some((t, span)), ..d }
            } else {
                d
            },
            Err(msg) => complain(d, "malformed type in `---@return`: "@ + msg, span),
        }
    }
}

/// One comment; what is no directive, or an unknown one, is documentation.
pub open spec fn doc_line(d: DocV, text: Seq<char>, span: Span) -> DocV {
    let a = skip_white(text, 0);
    if a < text.len() && text[a] == '@' {
        let rest = text.subrange(a + 1, text.len() as int);
        if first_word(rest) == "param"@ {
            doc_param(d, after_word(rest), span)
        } else if first_word(rest) == "return"@ {
            doc_return(d, after_word(rest), span)
        } else {
            d
        }
    } else {
        d
    }
}

/// The first `n` comments.
pub open spec fn doc_block(docs: Seq<DocComment>, n: int) -> DocV
    decreases n,
{
    if n <= 0 {
        DocV { params: Seq::empty(), ret: None, diags: Seq::empty() }
    } else {
        doc_line(doc_block(docs, n - 1), docs[n - 1].text@, docs[n - 1].span)
    }
}

pub proof fn unfold_t_tokens(b: Seq<u8>, i: int, acc: Seq<TkV>)
    ensures
        t_tokens(b, i, acc) == ({
            if i < 0 || i >= b.len() {
                Ok(acc)
            } else if is_blank(b[i]) {
                t_tokens(b, i + 1, acc)
            } else {
                match punct(b[i]) {
                    Some(t) => t_tokens(b, i + 1, acc.push(t)),
                    None => if ident_start(b[i]) {
                        let j = ident_end(b, i);
                        if i < j <= b.len() {
                            t_tokens(b, j, acc.push(TkV::Ident(latin1(b.subrange(i, j)))))
                        } else {
                            Ok(acc)
                        }
                    } else {
                        Err("unexpected character `"@ + seq![b[i] as char] + "`"@)
                    },
                }
            }
        }),
{
    reveal(t_tokens);
}

pub proof fn unfold_t_postfix(ts: Seq<TkV>, i: int, ty: TypeAnnV)
    ensures
        t_postfix(ts, i, ty) == ({
            match tk_at(ts, i) {
                Some(TkV::Question) => t_postfix(ts, i + 1, TypeAnnV::Optional(Box::new(ty))),
                Some(TkV::LBracket) => match tk_at(ts, i + 1) {
                    Some(TkV::RBracket) => t_postfix(ts, i + 2, TypeAnnV::Array(Box::new(ty))),
                    _ => Err("expected `]` for an array type `T[]`"@),
                },
                _ => Ok((ty, i)),
            }
        }),
{
    reveal(t_postfix);
}

pub proof fn unfold_t_type(ts: Seq<TkV>, i: int)
    ensures
        t_type(ts, i) == ({
            match t_primary(ts, i) {
                Err(e) => Err(e),
                Ok((ty, j)) => t_postfix(ts, j, ty),
            }
        }),
{
    reveal(t_type);
    reveal(t_postfix);
    reveal(t_primary);
}

pub proof fn unfold_t_primary(ts: Seq<TkV>, i: int)
    ensures
        t_primary(ts, i) == ({
            match tk_at(ts, i) {
                Some(TkV::Ident(n)) => Ok((TypeAnnV::Named(n), i + 1)),
                Some(TkV::LBrace) => if tk_at(ts, i + 1) is Some && ts[i + 1] is LBracket {
                    t_map(ts, i + 1)
                } else {
                    match t_fields(ts, i + 1, Seq::empty()) {
                        Err(e) => Err(e),
                        Ok((fields, j)) => if fields.len() == 0 {
                            Err("empty record type `{}` is not allowed"@)
                        } else {
                            Ok((TypeAnnV::Record(fields), j))
                        },
                    }
                },
                Some(other) => Err("expected a type, found `"@ + tk_text(other) + "`"@),
                None => Err("expected a type"@),
            }
        }),
{
    reveal(t_primary);
    reveal(t_map);
    reveal(t_fields);
}

pub proof fn unfold_t_map(ts: Seq<TkV>, i: int)
    ensures
        t_map(ts, i) == ({
            if tk_at(ts, i + 1) != Some(TkV::Ident("string"@)) {
                Err("map key type must be `string` (`{ [string]: T }`)"@)
            } else if tk_at(ts, i + 2) != Some(TkV::RBracket) {
                Err("expected `]` in map type"@)
            } else if tk_at(ts, i + 3) != Some(TkV::Colon) {
                Err("expected `:` in map type"@)
            } else {
                match t_type(ts, i + 4) {
                    Err(e) => Err(e),
                    Ok((val, j)) => if tk_at(ts, j) != Some(TkV::RBrace) {
                        Err("expected `}` to close map type"@)
                    } else {
                        Ok((TypeAnnV::MapOf(Box::new(val)), j + 1))
                    },
                }
            }
        }),
{
    reveal(t_map);
    reveal(t_type);
}

pub proof fn unfold_t_fields(ts: Seq<TkV>, i: int, acc: Seq<(Seq<char>, TypeAnnV)>)
    ensures
        t_fields(ts, i, acc) == ({
            match tk_at(ts, i) {
                Some(TkV::RBrace) => Ok((acc, i + 1)),
                Some(TkV::Ident(key)) => if tk_at(ts, i + 1) != Some(TkV::Colon) {
                    Err("expected `:` after record field `"@ + key + "`"@)
                } else {
                    match t_type(ts, i + 2) {
                        Err(e) => Err(e),
                        Ok((val, j)) => match tk_at(ts, j) {
                            Some(TkV::Comma) => if i < j {
                                t_fields(ts, j + 1, acc.push((key, val)))
                            } else {
                                Ok((acc, j))
                            },
                            Some(TkV::RBrace) => Ok((acc.push((key, val)), j + 1)),
                            _ => Err("expected `,` or `}` in record type"@),
                        },
                    }
                },
                _ => Err("expected a field name in record type"@),
            }
        }),
{
    reveal(t_fields);
    reveal(t_type);
}

/// Whether a character is white space.
pub fn white(c: char) -> (r: bool)
    ensures
        r == is_white(c),
{
    let n: u32 = c as u32;
    (9 <= n && n <= 13) || n == 0x20 || n == 0x85 || n == 0xa0 || n == 0x1680 || (0x2000 <= n && n
        <= 0x200a) || n == 0x2028 || n == 0x2029 || n == 0x202f || n == 0x205f || n == 0x3000
}

/// The characters of `s` from `from` to `to`.
fn part(s: &str, from: usize, to: usize) -> (r: String)
    requires
        from <= to <= s@.len(),
    ensures
        r@ == s@.subrange(from as int, to as int),
{
    let mut out = own("");
    proof {
        reveal_strlit("");
    }
    assert(out@ =~= s@.subrange(from as int, from as int));
    let mut i: usize = from;
    while i < to
        invariant
            from <= i <= to <= s@.len(),
            out@ == s@.subrange(from as int, i as int),
        decreases to - i,
    {
        out.push(s.get_char(i));
        assert(out@ =~= s@.subrange(from as int, i + 1));
        i += 1;
    }
    out
}

fn skip_blanks(s: &str, n: usize) -> (r: usize)
    requires
        n == s@.len(),
    ensures
        r == skip_white(s@, 0),
        r <= n,
{
    let mut i: usize = 0;
    while i < n && white(s.get_char(i))
        invariant
            i <= n,
            n == s@.len(),
            skip_white(s@, i as int) == skip_white(s@, 0),
        decreases n - i,
    {
        i += 1;
    }
    i
}

/// A text without white space at either end.
pub fn trim(s: &str) -> (r: String)
    ensures
        r@ == trimmed(s@),
{
    let n: usize = s.unicode_len();
    let a = skip_blanks(s, n);
    let mut b: usize = n;
    while b > 0 && white(s.get_char(b - 1))
        invariant
            b <= n,
            n == s@.len(),
            trim_end(s@, b as int) == trim_end(s@, n as int),
        decreases b,
    {
        b -= 1;
    }
    if a < b {
        part(s, a, b)
    } else {
        let r = own("");
        proof {
            reveal_strlit("");
            assert(r@ =~= Seq::<char>::empty());
        }
        r
    }
}

/// What stands before the first white space, and what stands after it, trimmed.
fn split_word(s: &str) -> (r: (String, String))
    ensures
        r.0@ == first_word(s@),
        r.1@ == after_word(s@),
{
    let n: usize = s.unicode_len();
    let mut k: usize = 0;
    while k < n && !white(s.get_char(k))
        invariant
            k <= n,
            n == s@.len(),
            find_white(s@, k as int) == find_white(s@, 0),
        decreases n - k,
    {
        k += 1;
    }
    let head = part(s, 0, k);
    let tail = if k < n {
        let rest = part(s, k + 1, n);
        trim(rest.as_str())
    } else {
        let r = own("");
        proof {
            reveal_strlit("");
            assert(r@ =~= Seq::<char>::empty());
        }
        r
    };
    (head, tail)
}

fn punctuation(c: u8) -> (r: Option<Tk>)
    ensures
        match r {
            Some(t) => punct(c) == Some(t@),
            None => punct(c) is None,
        },
{
    if c == 91 {
        Some(Tk::LBracket)
    } else if c == 93 {
        Some(Tk::RBracket)
    } else if c == 123 {
        Some(Tk::LBrace)
    } else if c == 125 {
        Some(Tk::RBrace)
    } else if c == 58 {
        Some(Tk::Colon)
    } else if c == 44 {
        Some(Tk::Comma)
    } else if c == 63 {
        Some(Tk::Question)
    } else {
        None
    }
}

fn is_ident_start(c: u8) -> (r: bool)
    ensures
        r == ident_start(c),
{
    (65 <= c && c <= 90) || (97 <= c && c <= 122) || c == 95
}

fn is_ident_continue(c: u8) -> (r: bool)
    ensures
        r == ident_continue(c),
{
    is_ident_start(c) || (48 <= c && c <= 57)
}

fn tokenize(s: &str) -> (r: Result<Vec<Tk>, String>)
    ensures
        match r {
            Ok(ts) => t_tokens(encode_utf8(s@), 0, Seq::empty()) == Ok::<Seq<TkV>, Seq<char>>(
                tks_v(ts@),
            ),
            Err(e) => t_tokens(encode_utf8(s@), 0, Seq::empty()) == Err::<Seq<TkV>, Seq<char>>(e@),
        },
{
    let bytes = s.as_bytes();
    let ghost b = encode_utf8(s@);
    let mut out: Vec<Tk> = Vec::new();
    assert(tks_v(out@) =~= Seq::<TkV>::empty());
    let n: usize = bytes.len();
    let mut i: usize = 0;
    while i < n
        invariant
            i <= n,
            n == b.len(),
            b == bytes@,
            b == encode_utf8(s@),
            t_tokens(b, i as int, tks_v(out@)) == t_tokens(b, 0, Seq::empty()),
        decreases n - i,
    {
        proof {
            unfold_t_tokens(b, i as int, tks_v(out@));
        }
        let ghost o0 = out@;
        let c = bytes[i];
        if c == 32 || c == 9 || c == 13 || c == 10 {
            i += 1;
        } else if let Some(t) = punctuation(c) {
            let ghost tv = t@;
            out.push(t);
            assert(tks_v(out@) =~= tks_v(o0).push(tv));
            i += 1;
        } else if is_ident_start(c) {
            let start = i;
            assert(ident_end(b, i as int) == ident_end(b, i + 1));
            i += 1;
            while i < n && is_ident_continue(bytes[i])
                invariant
                    start < i <= n,
                    n == b.len(),
                    b == bytes@,
                    ident_end(b, i as int) == ident_end(b, start as int),
                decreases n - i,
            {
                i += 1;
            }
            let name = latin1_string(bytes, start, i);
            let ghost nv = name@;
            out.push(Tk::Ident(name));
            assert(tks_v(out@) =~= tks_v(o0).push(TkV::Ident(nv)));
        } else {
            let shown = latin1_string(bytes, i, i + 1);
            assert(shown@ =~= seq![b[i as int] as char]);
            return Err(cat3("unexpected character `", shown.as_str(), "`"));
        }
    }
    proof {
        unfold_t_tokens(b, i as int, tks_v(out@));
    }
    Ok(out)
}

fn desc(t: &Tk) -> (r: String)
    ensures
        r@ == tk_text(t@),
{
    match t {
        Tk::Ident(n) => n.clone(),
        Tk::LBracket => own("["),
        Tk::RBracket => own("]"),
        Tk::LBrace => own("{"),
        Tk::RBrace => own("}"),
        Tk::Colon => own(":"),
        Tk::Comma => own(","),
        Tk::Question => own("?"),
    }
}

struct TypeParser<'a> {
    toks: &'a Vec<Tk>,
    pos: usize,
}

spec fn shape(r: Result<TypeAnn, String>, pos: int) -> Shape {
    match r {
        Ok(t) => Ok((t@, pos)),
        Err(e) => Err(e@),
    }
}

impl<'a> TypeParser<'a> {
    spec fn ts(&self) -> Seq<TkV> {
        tks_v(self.toks@)
    }

    fn peek(&self) -> (r: Option<&'a Tk>)
        ensures
            match r {
                Some(t) => tk_at(self.ts(), self.pos as int) == Some(t@),
                None => tk_at(self.ts(), self.pos as int) is None,
            },
            r is Some ==> self.pos < usize::MAX,
    {
        let toks = self.toks;
        if self.pos < toks.len() {
            assert(self.ts()[self.pos as int] == toks@[self.pos as int]@);
            Some(&toks[self.pos])
        } else {
            None
        }
    }

    fn bump(&mut self) -> (r: Option<&'a Tk>)
        requires
            old(self).pos <= old(self).ts().len(),
        ensures
            final(self).toks == old(self).toks,
            match r {
                Some(t) => tk_at(old(self).ts(), old(self).pos as int) == Some(t@)
                    && final(self).pos == old(self).pos + 1,
                None => tk_at(old(self).ts(), old(self).pos as int) is None && final(self).pos
                    == old(self).pos,
            },
            final(self).pos <= final(self).ts().len(),
    {
        let t = self.peek();
        if t.is_some() {
            self.pos += 1;
        }
        t
    }

    fn parse_type(&mut self) -> (r: Result<TypeAnn, String>)
        requires
            old(self).pos <= old(self).ts().len(),
        ensures
            final(self).toks == old(self).toks,
            final(self).pos <= final(self).ts().len(),
            r is Ok ==> final(self).pos > old(self).pos,
            shape(r, final(self).pos as int) == t_type(old(self).ts(), old(self).pos as int),
        decreases old(self).ts().len() - old(self).pos, 2int,
    {
        let ghost ts = self.ts();
        proof {
            unfold_t_type(ts, self.pos as int);
        }
        let mut ty = self.parse_primary()?;
        let ghost (ty0, j) = (ty@, self.pos as int);
        loop
            invariant
                self.toks == old(self).toks,
                ts == self.ts(),
                old(self).pos < self.pos <= ts.len(),
                t_postfix(ts, self.pos as int, ty@) == t_postfix(ts, j, ty0),
                t_type(ts, old(self).pos as int) == t_postfix(ts, j, ty0),
            decreases ts.len() - self.pos,
        {
            proof {
                unfold_t_postfix(ts, self.pos as int, ty@);
            }
            match self.peek() {
                Some(Tk::Question) => {
                    self.pos += 1;
                    ty = TypeAnn::Optional(Box::new(ty));
                },
                Some(Tk::LBracket) => {
                    self.pos += 1;
                    match self.bump() {
                        Some(Tk::RBracket) => {
                            ty = TypeAnn::Array(Box::new(ty));
                        },
                        _ => {
                            return Err(own("expected `]` for an array type `T[]`"));
                        },
                    }
                },
                _ => {
                    return Ok(ty);
                },
            }
        }
    }

    fn parse_primary(&mut self) -> (r: Result<TypeAnn, String>)
        requires
            old(self).pos <= old(self).ts().len(),
        ensures
            final(self).toks == old(self).toks,
            final(self).pos <= final(self).ts().len(),
            r is Ok ==> final(self).pos > old(self).pos,
            shape(r, final(self).pos as int) == t_primary(old(self).ts(), old(self).pos as int),
        decreases old(self).ts().len() - old(self).pos, 1int,
    {
        proof {
            unfold_t_primary(self.ts(), self.pos as int);
        }
        match self.bump() {
            Some(Tk::Ident(n)) => Ok(TypeAnn::Named(n.clone())),
            Some(Tk::LBrace) => {
                if let Some(Tk::LBracket) = self.peek() {
                    return self.parse_map();
                }
                let fields = self.parse_fields()?;
                if fields.len() == 0 {
                    return Err(own("empty record type `{}` is not allowed"));
                }
                Ok(TypeAnn::Record(fields))
            },
            Some(other) => {
                let d = desc(other);
                Err(cat3("expected a type, found `", d.as_str(), "`"))
            },
            None => Err(own("expected a type")),
        }
    }

    fn parse_map(&mut self) -> (r: Result<TypeAnn, String>)
        requires
            old(self).pos < old(self).ts().len(),
        ensures
            final(self).toks == old(self).toks,
            final(self).pos <= final(self).ts().len(),
            r is Ok ==> final(self).pos > old(self).pos,
            shape(r, final(self).pos as int) == t_map(old(self).ts(), old(self).pos as int),
        decreases old(self).ts().len() - old(self).pos, 1int,
    {
        proof {
            unfold_t_map(self.ts(), self.pos as int);
        }
        self.bump();
        let keyed = match self.bump() {
            Some(Tk::Ident(n)) => same(n.as_str(), "string"),
            _ => false,
        };
        if !keyed {
            return Err(own("map key type must be `string` (`{ [string]: T }`)"));
        }
        match self.bump() {
            Some(Tk::RBracket) => {},
            _ => {
                return Err(own("expected `]` in map type"));
            },
        }
        match self.bump() {
            Some(Tk::Colon) => {},
            _ => {
                return Err(own("expected `:` in map type"));
            },
        }
        let val = self.parse_type()?;
        match self.bump() {
            Some(Tk::RBrace) => {},
            _ => {
                return Err(own("expected `}` to close map type"));
            },
        }
        Ok(TypeAnn::MapOf(Box::new(val)))
    }

    fn parse_fields(&mut self) -> (r: Result<Vec<(String, TypeAnn)>, String>)
        requires
            old(self).pos <= old(self).ts().len(),
        ensures
            final(self).toks == old(self).toks,
            final(self).pos <= final(self).ts().len(),
            r is Ok ==> final(self).pos > old(self).pos,
            match r {
                Ok(fs) => t_fields(old(self).ts(), old(self).pos as int, Seq::empty()) == Ok::<
                    (Seq<(Seq<char>, TypeAnnV)>, int),
                    Seq<char>,
                >((ann_fields_v(fs@), final(self).pos as int)),
                Err(e) => t_fields(old(self).ts(), old(self).pos as int, Seq::empty()) == Err::<
                    (Seq<(Seq<char>, TypeAnnV)>, int),
                    Seq<char>,
                >(e@),
            },
        decreases old(self).ts().len() - old(self).pos, 3int,
    {
        let ghost ts = self.ts();
        let mut fields: Vec<(String, TypeAnn)> = Vec::new();
        assert(ann_fields_v(fields@) =~= Seq::<(Seq<char>, TypeAnnV)>::empty());
        loop
            invariant
                self.toks == old(self).toks,
                ts == self.ts(),
                old(self).pos <= self.pos <= ts.len(),
                t_fields(ts, self.pos as int, ann_fields_v(fields@)) == t_fields(
                    ts,
                    old(self).pos as int,
                    Seq::empty(),
                ),
            decreases ts.len() - self.pos,
        {
            proof {
                unfold_t_fields(ts, self.pos as int, ann_fields_v(fields@));
            }
            let ghost f0 = fields@;
            let key = match self.bump() {
                Some(Tk::Ident(k)) => k.clone(),
                Some(Tk::RBrace) => {
                    return Ok(fields);
                },
                _ => {
                    return Err(own("expected a field name in record type"));
                },
            };
            match self.bump() {
                Some(Tk::Colon) => {},
                _ => {
                    return Err(cat3("expected `:` after record field `", key.as_str(), "`"));
                },
            }
            let val = self.parse_type()?;
            let ghost fv = (key@, val@);
            fields.push((key, val));
            assert(ann_fields_v(fields@) =~= ann_fields_v(f0).push(fv));
            match self.bump() {
                Some(Tk::Comma) => {},
                Some(Tk::RBrace) => {
                    return Ok(fields);
                },
                _ => {
                    return Err(own("expected `,` or `}` in record type"));
                },
            }
        }
    }
}

/// Parse a type annotation. Yields a readable message on malformed input.
pub fn parse_type_ann(s: &str) -> (r: Result<TypeAnn, String>)
    ensures
        match r {
            Ok(t) => type_ann_of(s@) == Ok::<TypeAnnV, Seq<char>>(t@),
            Err(e) => type_ann_of(s@) == Err::<TypeAnnV, Seq<char>>(e@),
        },
{
    let toks = tokenize(s)?;
    let mut p = TypeParser { toks: &toks, pos: 0 };
    let ty = p.parse_type()?;
    match p.peek() {
        Some(t) => {
            let d = desc(t);
            Err(cat3("unexpected trailing `", d.as_str(), "`"))
        },
        None => Ok(ty),
    }
}

/// The counterparts of a list of parameter annotations.
pub open spec fn params_v(v: Seq<ParamAnn>) -> Seq<ParamAnnV> {
    Seq::new(
        v.len(),
        |i: int|
            ParamAnnV {
                name: v[i].name.node@,
                name_span: v[i].name.span,
                ty: v[i].ty.node@,
                span: v[i].ty.span,
            },
    )
}

impl FnAnnotations {
    /// The directives, with the complaints `diags`.
    pub open spec fn doc(&self, diags: Seq<DiagnosticV>) -> DocV {
        DocV {
            params: params_v(self.params@),
            ret: match self.ret {
                Some(t) => Some((t.node@, t.span)),
                None => None,
            },
            diags,
        }
    }
}

/// The counterparts of a list of diagnostics.
pub open spec fn diags_v(v: Seq<Diagnostic>) -> Seq<DiagnosticV> {
    Seq::new(v.len(), |i: int| v[i]@)
}

fn add_complaint(diags: &mut Vec<Diagnostic>, msg: String, span: Span)
    ensures
        diags_v(final(diags)@) == diags_v(old(diags)@).push(error_at("E0110"@, msg@, span)),
{
    let d = Diagnostic::error("E0110", msg, span);
    let ghost dv = d@;
    diags.push(d);
    assert(diags_v(diags@) =~= diags_v(old(diags)@).push(dv));
}

fn param_directive(
    ann: &mut FnAnnotations,
    diags: &mut Vec<Diagnostic>,
    args: &str,
    span: Span,
)
    ensures
        final(ann).doc(diags_v(final(diags)@)) == doc_param(
            old(ann).doc(diags_v(old(diags)@)),
            args@,
            span,
        ),
{
    let (name, ty) = split_word(args);
    if name.as_str().unicode_len() == 0 || ty.as_str().unicode_len() == 0 {
        add_complaint(
            diags,
            own("malformed `---@param` (expected `@param <name> <type>`)"),
            span,
        );
        return ;
    }
    match parse_type_ann(ty.as_str()) {
        Ok(t) => {
            let ghost p0 = params_v(ann.params@);
            let ghost pv = ParamAnnV { name: name@, name_span: span, ty: t@, span };
            ann.params.push(
                ParamAnn { name: Spanned::new(name, span), ty: Spanned::new(t, span) },
            );
            assert(params_v(ann.params@) =~= p0.push(pv));
        },
        Err(msg) => add_complaint(
            diags,
            cat4("malformed type in `---@param ", name.as_str(), "`: ", msg.as_str()),
            span,
        ),
    }
}

fn return_directive(
    ann: &mut FnAnnotations,
    diags: &mut Vec<Diagnostic>,
    args: &str,
    span: Span,
)
    ensures
        final(ann).doc(diags_v(final(diags)@)) == doc_return(
            old(ann).doc(diags_v(old(diags)@)),
            args@,
            span,
        ),
{
    if args.unicode_len() == 0 {
        add_complaint(diags, own("malformed `---@return` (expected `@return <type>`)"), span);
        return ;
    }
    match parse_type_ann(args) {
        Ok(t) => {
            // A second `@return` is ignored.
            if ann.ret.is_none() {
                ann.ret = Some(Spanned::new(t, span));
            }
        },
        Err(msg) => add_complaint(
            diags,
            cat2("malformed type in `---@return`: ", msg.as_str()),
            span,
        ),
    }
}

/// Parse the `@param` / `@return` directives out of a run of documentation comments.
pub fn parse_doc_block(docs: &[DocComment]) -> (r: (FnAnnotations, Vec<Diagnostic>))
    ensures
        r.0.doc(diags_v(r.1@)) == doc_block(docs@, docs@.len() as int),
{
    let mut ann = FnAnnotations { params: Vec::new(), ret: None };
    let mut diags: Vec<Diagnostic> = Vec::new();
    assert(params_v(ann.params@) =~= Seq::<ParamAnnV>::empty());
    assert(diags_v(diags@) =~= Seq::<DiagnosticV>::empty());
    let mut i: usize = 0;
    while i < docs.len()
        invariant
            i <= docs@.len(),
            ann.doc(diags_v(diags@)) == doc_block(docs@, i as int),
        decreases docs@.len() - i,
    {
        let text = docs[i].text.as_str();
        let span = docs[i].span;
        let n: usize = text.unicode_len();
        let a = skip_blanks(text, n);
        if a < n && text.get_char(a) == '@' {
            let rest = part(text, a + 1, n);
            let (directive, args) = split_word(rest.as_str());
            if same(directive.as_str(), "param") {
                param_directive(&mut ann, &mut diags, args.as_str(), span);
            } else if same(directive.as_str(), "return") {
                return_directive(&mut ann, &mut diags, args.as_str(), span);
            }
        }
        i += 1;
    }
    (ann, diags)
}

// ---- laws -----------------------------------------------------------------------

proof fn lemma_encode_concat(a: Seq<char>, b: Seq<char>)
    ensures
        encode_utf8(a + b) == encode_utf8(a) + encode_utf8(b),
    decreases a.len(),
{
    if a.len() == 0 {
        assert(a + b =~= b);
        assert(encode_utf8(a) + encode_utf8(b) =~= encode_utf8(b));
    } else {
        assert((a + b).drop_first() =~= a.drop_first() + b);
        lemma_encode_concat(a.drop_first(), b);
        let first = vstd::utf8::encode_scalar(a[0] as u32);
        assert(encode_utf8(a) == first + encode_utf8(a.drop_first()));
        assert(encode_utf8(a + b) =~= first + (encode_utf8(a.drop_first()) + encode_utf8(b)));
        assert(encode_utf8(a) + encode_utf8(b) =~= first + (encode_utf8(a.drop_first())
            + encode_utf8(b)));
    }
}

/// Whether bytes do not go on with an identifier that ends before them.
spec fn apart(y: Seq<u8>) -> bool {
    y.len() > 0 ==> !ident_continue(y[0])
}

proof fn lemma_ident_end(x: Seq<u8>, y: Seq<u8>, i: int)
    requires
        0 <= i <= x.len(),
        apart(y),
    ensures
        ident_end(x + y, i) == ident_end(x, i),
        i <= ident_end(x, i) <= x.len(),
    decreases x.len() - i,
{
    if i < x.len() {
        assert((x + y)[i] == x[i]);
        if ident_continue(x[i]) {
            lemma_ident_end(x, y, i + 1);
        }
    } else if y.len() > 0 {
        assert((x + y)[i] == y[0]);
    }
}

/// The tokens of what follows are added to those of what stands before.
proof fn lemma_tokens_before(x: Seq<u8>, y: Seq<u8>, i: int, acc: Seq<TkV>)
    requires
        0 <= i <= x.len(),
        apart(y),
        t_tokens(x, i, acc) is Ok,
    ensures
        t_tokens(x + y, i, acc) == t_tokens(x + y, x.len() as int, t_tokens(x, i, acc)->Ok_0),
    decreases x.len() - i,
{
    let b = x + y;
    unfold_t_tokens(x, i, acc);
    if i < x.len() {
        unfold_t_tokens(b, i, acc);
        assert(b[i] == x[i]);
        if is_blank(x[i]) {
            lemma_tokens_before(x, y, i + 1, acc);
        } else {
            match punct(x[i]) {
                Some(t) => lemma_tokens_before(x, y, i + 1, acc.push(t)),
                None => {
                    lemma_ident_end(x, y, i);
                    let j = ident_end(x, i);
                    assert(ident_continue(x[i]));
                    assert(i < j) by {
                        lemma_ident_end(x, y, i + 1);
                    }
                    assert(b.subrange(i, j) =~= x.subrange(i, j));
                    lemma_tokens_before(
                        x,
                        y,
                        j,
                        acc.push(TkV::Ident(latin1(x.subrange(i, j)))),
                    );
                },
            }
        }
    }
}

/// The tokens of what follows do not depend on what stands before.
proof fn lemma_tokens_after(x: Seq<u8>, y: Seq<u8>, i: int, acc: Seq<TkV>, base: Seq<TkV>)
    requires
        0 <= i <= y.len(),
        t_tokens(y, i, acc) is Ok,
    ensures
        t_tokens(x + y, x.len() + i, base + acc) == Ok::<Seq<TkV>, Seq<char>>(
            base + t_tokens(y, i, acc)->Ok_0,
        ),
    decreases y.len() - i,
{
    let b = x + y;
    let k = x.len() + i;
    unfold_t_tokens(y, i, acc);
    unfold_t_tokens(b, k, base + acc);
    if i < y.len() {
        assert(b[k] == y[i]);
        if is_blank(y[i]) {
            lemma_tokens_after(x, y, i + 1, acc, base);
        } else {
            match punct(y[i]) {
                Some(t) => {
                    assert((base + acc).push(t) =~= base + acc.push(t));
                    lemma_tokens_after(x, y, i + 1, acc.push(t), base);
                },
                None => {
                    lemma_ident_shift(x, y, i);
                    let j = ident_end(y, i);
                    lemma_ident_end(y, Seq::empty(), i);
                    lemma_ident_end(y, Seq::empty(), i + 1);
                    assert(ident_continue(y[i]));
                    let t = TkV::Ident(latin1(y.subrange(i, j)));
                    assert(b.subrange(k, x.len() + j) =~= y.subrange(i, j));
                    assert((base + acc).push(t) =~= base + acc.push(t));
                    lemma_tokens_after(x, y, j, acc.push(t), base);
                },
            }
        }
    }
}

proof fn lemma_ident_shift(x: Seq<u8>, y: Seq<u8>, i: int)
    requires
        0 <= i <= y.len(),
    ensures
        ident_end(x + y, x.len() + i) == x.len() + ident_end(y, i),
    decreases y.len() - i,
{
    if i < y.len() {
        assert((x + y)[x.len() + i] == y[i]);
        if ident_continue(y[i]) {
            lemma_ident_shift(x, y, i + 1);
        }
    }
}

/// The tokens of a text.
spec fn tokens_of(s: Seq<char>) -> Result<Seq<TkV>, Seq<char>> {
    t_tokens(encode_utf8(s), 0, Seq::empty())
}

proof fn lemma_tokens_concat(a: Seq<char>, b: Seq<char>)
    requires
        tokens_of(a) is Ok,
        tokens_of(b) is Ok,
        apart(encode_utf8(b)),
    ensures
        tokens_of(a + b) == Ok::<Seq<TkV>, Seq<char>>(tokens_of(a)->Ok_0 + tokens_of(b)->Ok_0),
{
    let (x, y) = (encode_utf8(a), encode_utf8(b));
    let none = Seq::<TkV>::empty();
    lemma_encode_concat(a, b);
    lemma_tokens_before(x, y, 0, none);
    let ta = tokens_of(a)->Ok_0;
    assert(ta + none =~= ta);
    lemma_tokens_after(x, y, 0, none, ta);
}

/// The same for a text that stands behind blank space.
proof fn lemma_tokens_behind(a: Seq<char>, b: Seq<char>)
    requires
        tokens_of(a) is Ok,
        tokens_of(b) is Ok,
        encode_utf8(a).len() > 0,
        is_blank(encode_utf8(a).last()),
    ensures
        tokens_of(a + b) == Ok::<Seq<TkV>, Seq<char>>(tokens_of(a)->Ok_0 + tokens_of(b)->Ok_0),
{
    let (x, y) = (encode_utf8(a), encode_utf8(b));
    let none = Seq::<TkV>::empty();
    lemma_encode_concat(a, b);
    let front = x.drop_last();
    let rest = seq![x.last()] + y;
    assert(x =~= front + seq![x.last()]);
    assert(x + y =~= front + rest);
    lemma_blank_end(front, x.last(), 0, none);
    lemma_tokens_before(front, rest, 0, none);
    let ta = t_tokens(front, 0, none)->Ok_0;
    unfold_t_tokens(x + y, front.len() as int, ta);
    assert((x + y)[front.len() as int] == x.last());
    assert(ta + none =~= ta);
    lemma_tokens_after(x, y, 0, none, ta);
}

proof fn lemma_blank_end(x: Seq<u8>, c: u8, i: int, acc: Seq<TkV>)
    requires
        0 <= i <= x.len(),
        is_blank(c),
        t_tokens(x + seq![c], i, acc) is Ok,
    ensures
        t_tokens(x, i, acc) == t_tokens(x + seq![c], i, acc),
    decreases x.len() - i,
{
    let b = x + seq![c];
    unfold_t_tokens(x, i, acc);
    unfold_t_tokens(b, i, acc);
    if i < x.len() {
        assert(b[i] == x[i]);
        if is_blank(x[i]) {
            lemma_blank_end(x, c, i + 1, acc);
        } else {
            match punct(x[i]) {
                Some(t) => lemma_blank_end(x, c, i + 1, acc.push(t)),
                None => {
                    lemma_ident_end(x, seq![c], i);
                    lemma_ident_end(x, seq![c], i + 1);
                    let j = ident_end(x, i);
                    assert(ident_continue(x[i]));
                    assert(b.subrange(i, j) =~= x.subrange(i, j));
                    lemma_blank_end(x, c, j, acc.push(TkV::Ident(latin1(x.subrange(i, j)))));
                },
            }
        }
    } else {
        unfold_t_tokens(b, i + 1, acc);
    }
}

/// Tokens with others around them.
spec fn inside(pre: Seq<TkV>, ts: Seq<TkV>, post: Seq<TkV>) -> Seq<TkV> {
    pre + ts + post
}

proof fn lemma_tk_inside(pre: Seq<TkV>, ts: Seq<TkV>, post: Seq<TkV>, i: int)
    requires
        0 <= i < ts.len(),
    ensures
        tk_at(inside(pre, ts, post), pre.len() + i) == tk_at(ts, i),
{
    assert(inside(pre, ts, post)[pre.len() + i] == ts[i]);
}

proof fn lemma_postfix_inside(
    pre: Seq<TkV>,
    ts: Seq<TkV>,
    post: Seq<TkV>,
    i: int,
    ty: TypeAnnV,
)
    requires
        0 <= i <= ts.len(),
        t_postfix(ts, i, ty) is Ok,
    ensures
        ({
            let u = inside(pre, ts, post);
            let (r, j) = t_postfix(ts, i, ty)->Ok_0;
            &&& i <= j <= ts.len()
            &&& t_postfix(u, pre.len() + i, ty) == t_postfix(u, pre.len() + j, r)
            &&& j < ts.len() ==> !(ts[j] is Question) && !(ts[j] is LBracket)
        }),
    decreases ts.len() - i,
{
    let u = inside(pre, ts, post);
    unfold_t_postfix(ts, i, ty);
    if i < ts.len() {
        lemma_tk_inside(pre, ts, post, i);
        unfold_t_postfix(u, pre.len() + i, ty);
        match tk_at(ts, i) {
            Some(TkV::Question) => lemma_postfix_inside(
                pre,
                ts,
                post,
                i + 1,
                TypeAnnV::Optional(Box::new(ty)),
            ),
            Some(TkV::LBracket) => {
                lemma_tk_inside(pre, ts, post, i + 1);
                lemma_postfix_inside(pre, ts, post, i + 2, TypeAnnV::Array(Box::new(ty)));
            },
            _ => {},
        }
    }
}

proof fn lemma_type_inside(pre: Seq<TkV>, ts: Seq<TkV>, post: Seq<TkV>, i: int)
    requires
        0 <= i <= ts.len(),
        t_type(ts, i) is Ok,
    ensures
        ({
            let u = inside(pre, ts, post);
            let (r, j) = t_type(ts, i)->Ok_0;
            &&& i < j <= ts.len()
            &&& t_type(u, pre.len() + i) == t_postfix(u, pre.len() + j, r)
            &&& j < ts.len() ==> !(ts[j] is Question) && !(ts[j] is LBracket)
            &&& j < ts.len() ==> t_type(u, pre.len() + i) == Ok::<(TypeAnnV, int), Seq<char>>(
                (r, pre.len() + j),
            )
        }),
    decreases ts.len() - i, 2int,
{
    let u = inside(pre, ts, post);
    unfold_t_type(ts, i);
    unfold_t_type(u, pre.len() + i);
    lemma_primary_inside(pre, ts, post, i);
    let (ty, j) = t_primary(ts, i)->Ok_0;
    lemma_postfix_inside(pre, ts, post, j, ty);
    let (r, k) = t_postfix(ts, j, ty)->Ok_0;
    if k < ts.len() {
        lemma_tk_inside(pre, ts, post, k);
        unfold_t_postfix(u, pre.len() + k, r);
    }
}

proof fn lemma_primary_inside(pre: Seq<TkV>, ts: Seq<TkV>, post: Seq<TkV>, i: int)
    requires
        0 <= i <= ts.len(),
        t_primary(ts, i) is Ok,
    ensures
        ({
            let (r, j) = t_primary(ts, i)->Ok_0;
            &&& i < j <= ts.len()
            &&& t_primary(inside(pre, ts, post), pre.len() + i) == Ok::<
                (TypeAnnV, int),
                Seq<char>,
            >((r, pre.len() + j))
        }),
    decreases ts.len() - i, 1int,
{
    let u = inside(pre, ts, post);
    unfold_t_primary(ts, i);
    unfold_t_primary(u, pre.len() + i);
    lemma_tk_inside(pre, ts, post, i);
    if ts[i] is LBrace {
        if i + 1 < ts.len() {
            lemma_tk_inside(pre, ts, post, i + 1);
            if ts[i + 1] is LBracket {
                lemma_map_inside(pre, ts, post, i + 1);
            } else {
                lemma_fields_inside(pre, ts, post, i + 1, Seq::empty());
            }
        } else {
            unfold_t_fields(ts, i + 1, Seq::empty());
        }
    }
}

proof fn lemma_map_inside(pre: Seq<TkV>, ts: Seq<TkV>, post: Seq<TkV>, i: int)
    requires
        0 <= i < ts.len(),
        t_map(ts, i) is Ok,
    ensures
        ({
            let (r, j) = t_map(ts, i)->Ok_0;
            &&& i < j <= ts.len()
            &&& t_map(inside(pre, ts, post), pre.len() + i) == Ok::<(TypeAnnV, int), Seq<char>>(
                (r, pre.len() + j),
            )
        }),
    decreases ts.len() - i, 1int,
{
    let u = inside(pre, ts, post);
    unfold_t_map(ts, i);
    unfold_t_map(u, pre.len() + i);
    lemma_tk_inside(pre, ts, post, i + 1);
    lemma_tk_inside(pre, ts, post, i + 2);
    lemma_tk_inside(pre, ts, post, i + 3);
    lemma_type_inside(pre, ts, post, i + 4);
    let (val, j) = t_type(ts, i + 4)->Ok_0;
    lemma_tk_inside(pre, ts, post, j);
}

proof fn lemma_fields_inside(
    pre: Seq<TkV>,
    ts: Seq<TkV>,
    post: Seq<TkV>,
    i: int,
    acc: Seq<(Seq<char>, TypeAnnV)>,
)
    requires
        0 <= i <= ts.len(),
        t_fields(ts, i, acc) is Ok,
    ensures
        ({
            let (r, j) = t_fields(ts, i, acc)->Ok_0;
            &&& i < j <= ts.len()
            &&& t_fields(inside(pre, ts, post), pre.len() + i, acc) == Ok::<
                (Seq<(Seq<char>, TypeAnnV)>, int),
                Seq<char>,
            >((r, pre.len() + j))
        }),
    decreases ts.len() - i, 3int,
{
    let u = inside(pre, ts, post);
    unfold_t_fields(ts, i, acc);
    unfold_t_fields(u, pre.len() + i, acc);
    lemma_tk_inside(pre, ts, post, i);
    match ts[i] {
        TkV::Ident(key) => {
            lemma_tk_inside(pre, ts, post, i + 1);
            lemma_type_inside(pre, ts, post, i + 2);
            let (val, j) = t_type(ts, i + 2)->Ok_0;
            lemma_tk_inside(pre, ts, post, j);
            if ts[j] is Comma {
                lemma_fields_inside(pre, ts, post, j + 1, acc.push((key, val)));
            }
        },
        _ => {},
    }
}

proof fn lemma_literal(s: Seq<char>)
    requires
        is_ascii_chars(s),
    ensures
        encode_utf8(s).len() == s.len(),
        forall|i: int| 0 <= i < s.len() ==> #[trigger] encode_utf8(s)[i] == s[i] as u8,
{
    is_ascii_chars_encode_utf8(s);
}

/// The marks that follow a type.
proof fn lemma_marks()
    ensures
        tokens_of("?"@) == Ok::<Seq<TkV>, Seq<char>>(seq![TkV::Question]),
        tokens_of("[]"@) == Ok::<Seq<TkV>, Seq<char>>(seq![TkV::LBracket, TkV::RBracket]),
        tokens_of(" }"@) == Ok::<Seq<TkV>, Seq<char>>(seq![TkV::RBrace]),
        tokens_of(", }"@) == Ok::<Seq<TkV>, Seq<char>>(seq![TkV::Comma, TkV::RBrace]),
        apart(encode_utf8("?"@)),
        apart(encode_utf8("[]"@)),
        apart(encode_utf8(" }"@)),
        apart(encode_utf8(", }"@)),
{
    reveal_strlit("?");
    reveal_strlit("[]");
    reveal_strlit(" }");
    reveal_strlit(", }");
    lemma_literal("?"@);
    lemma_literal("[]"@);
    lemma_literal(" }"@);
    lemma_literal(", }"@);
    let none = Seq::<TkV>::empty();
    let q = encode_utf8("?"@);
    unfold_t_tokens(q, 0, none);
    unfold_t_tokens(q, 1, none.push(TkV::Question));
    assert(none.push(TkV::Question) =~= seq![TkV::Question]);
    let a = encode_utf8("[]"@);
    let a1 = none.push(TkV::LBracket);
    unfold_t_tokens(a, 0, none);
    unfold_t_tokens(a, 1, a1);
    unfold_t_tokens(a, 2, a1.push(TkV::RBracket));
    assert(a1.push(TkV::RBracket) =~= seq![TkV::LBracket, TkV::RBracket]);
    let b = encode_utf8(" }"@);
    unfold_t_tokens(b, 0, none);
    unfold_t_tokens(b, 1, none);
    unfold_t_tokens(b, 2, none.push(TkV::RBrace));
    assert(none.push(TkV::RBrace) =~= seq![TkV::RBrace]);
    let c = encode_utf8(", }"@);
    let c1 = none.push(TkV::Comma);
    unfold_t_tokens(c, 0, none);
    unfold_t_tokens(c, 1, c1);
    unfold_t_tokens(c, 2, c1);
    unfold_t_tokens(c, 3, c1.push(TkV::RBrace));
    assert(c1.push(TkV::RBrace) =~= seq![TkV::Comma, TkV::RBrace]);
}

/// What stands before the type in a map type and in a record type.
proof fn lemma_openings()
    ensures
        tokens_of("{ [string]: "@) == Ok::<Seq<TkV>, Seq<char>>(
            seq![
                TkV::LBrace,
                TkV::LBracket,
                TkV::Ident("string"@),
                TkV::RBracket,
                TkV::Colon,
            ],
        ),
        encode_utf8("{ [string]: "@).len() > 0,
        is_blank(encode_utf8("{ [string]: "@).last()),
        tokens_of("{ k: "@) == Ok::<Seq<TkV>, Seq<char>>(
            seq![TkV::LBrace, TkV::Ident("k"@), TkV::Colon],
        ),
        encode_utf8("{ k: "@).len() > 0,
        is_blank(encode_utf8("{ k: "@).last()),
{
    reveal_strlit("{ [string]: ");
    reveal_strlit("{ k: ");
    reveal_strlit("string");
    reveal_strlit("k");
    lemma_literal("{ [string]: "@);
    lemma_literal("{ k: "@);
    let none = Seq::<TkV>::empty();
    let m = encode_utf8("{ [string]: "@);
    let m1 = none.push(TkV::LBrace);
    let m2 = m1.push(TkV::LBracket);
    reveal_with_fuel(ident_end, 8);
    assert(ident_end(m, 3) == 9);
    assert(latin1(m.subrange(3, 9)) =~= "string"@);
    let m3 = m2.push(TkV::Ident("string"@));
    let m4 = m3.push(TkV::RBracket);
    let m5 = m4.push(TkV::Colon);
    unfold_t_tokens(m, 0, none);
    unfold_t_tokens(m, 1, m1);
    unfold_t_tokens(m, 2, m1);
    unfold_t_tokens(m, 3, m2);
    unfold_t_tokens(m, 9, m3);
    unfold_t_tokens(m, 10, m4);
    unfold_t_tokens(m, 11, m5);
    unfold_t_tokens(m, 12, m5);
    assert(m5 =~= seq![
        TkV::LBrace,
        TkV::LBracket,
        TkV::Ident("string"@),
        TkV::RBracket,
        TkV::Colon,
    ]);
    let r = encode_utf8("{ k: "@);
    assert(ident_end(r, 2) == 3);
    assert(latin1(r.subrange(2, 3)) =~= "k"@);
    let r2 = m1.push(TkV::Ident("k"@));
    let r3 = r2.push(TkV::Colon);
    unfold_t_tokens(r, 0, none);
    unfold_t_tokens(r, 1, m1);
    unfold_t_tokens(r, 2, m1);
    unfold_t_tokens(r, 3, r2);
    unfold_t_tokens(r, 4, r3);
    unfold_t_tokens(r, 5, r3);
    assert(r3 =~= seq![TkV::LBrace, TkV::Ident("k"@), TkV::Colon]);
}

/// How types are made of types: a `?` behind a type makes it optional, `[]` makes it an array,
/// and a map type and a record type hold the type that is written in them.
pub proof fn law_types_are_made_of_types(s: Seq<char>)
    requires
        type_ann_of(s) is Ok,
    ensures
        ({
            let t = type_ann_of(s)->Ok_0;
            &&& type_ann_of(s + "?"@) == Ok::<TypeAnnV, Seq<char>>(TypeAnnV::Optional(Box::new(t)))
            &&& type_ann_of(s + "[]"@) == Ok::<TypeAnnV, Seq<char>>(TypeAnnV::Array(Box::new(t)))
            &&& type_ann_of("{ [string]: "@ + s + " }"@) == Ok::<TypeAnnV, Seq<char>>(
                TypeAnnV::MapOf(Box::new(t)),
            )
            &&& type_ann_of("{ k: "@ + s + ", }"@) == Ok::<TypeAnnV, Seq<char>>(
                TypeAnnV::Record(seq![("k"@, t)]),
            )
        }),
{
    let t = type_ann_of(s)->Ok_0;
    let ts = tokens_of(s)->Ok_0;
    let none = Seq::<TkV>::empty();
    lemma_marks();
    lemma_openings();
    let n = ts.len() as int;
    // `s?`
    let q = seq![TkV::Question];
    lemma_tokens_concat(s, "?"@);
    let uq = inside(none, ts, q);
    assert(uq =~= ts + q);
    lemma_type_inside(none, ts, q, 0);
    assert(uq[n] == TkV::Question);
    unfold_t_postfix(uq, n, t);
    unfold_t_postfix(uq, n + 1, TypeAnnV::Optional(Box::new(t)));
    // `s[]`
    let a = seq![TkV::LBracket, TkV::RBracket];
    lemma_tokens_concat(s, "[]"@);
    let ua = inside(none, ts, a);
    assert(ua =~= ts + a);
    lemma_type_inside(none, ts, a, 0);
    assert(ua[n] == TkV::LBracket && ua[n + 1] == TkV::RBracket);
    unfold_t_postfix(ua, n, t);
    unfold_t_postfix(ua, n + 2, TypeAnnV::Array(Box::new(t)));
    // `{ [string]: s }`
    let m = tokens_of("{ [string]: "@)->Ok_0;
    let c = seq![TkV::RBrace];
    lemma_tokens_behind("{ [string]: "@, s);
    lemma_tokens_concat("{ [string]: "@ + s, " }"@);
    let um = inside(m, ts, c);
    lemma_type_inside(m, ts, c, 0);
    assert(um[0] == m[0] && um[1] == m[1] && um[2] == m[2] && um[3] == m[3] && um[4] == m[4]);
    assert(um[5 + n] == TkV::RBrace);
    unfold_t_postfix(um, 5 + n, t);
    unfold_t_map(um, 1);
    unfold_t_primary(um, 0);
    unfold_t_type(um, 0);
    unfold_t_postfix(um, 6 + n, TypeAnnV::MapOf(Box::new(t)));
    // `{ k: s, }`
    let r = tokens_of("{ k: "@)->Ok_0;
    let d = seq![TkV::Comma, TkV::RBrace];
    lemma_tokens_behind("{ k: "@, s);
    lemma_tokens_concat("{ k: "@ + s, ", }"@);
    let ur = inside(r, ts, d);
    lemma_type_inside(r, ts, d, 0);
    assert(ur[0] == r[0] && ur[1] == r[1] && ur[2] == r[2]);
    assert(ur[3 + n] == TkV::Comma && ur[4 + n] == TkV::RBrace);
    unfold_t_postfix(ur, 3 + n, t);
    let fs = Seq::<(Seq<char>, TypeAnnV)>::empty();
    let fs1 = fs.push(("k"@, t));
    unfold_t_fields(ur, 1, fs);
    unfold_t_fields(ur, 4 + n, fs1);
    unfold_t_primary(ur, 0);
    unfold_t_type(ur, 0);
    assert(fs1 =~= seq![("k"@, t)]);
    unfold_t_postfix(ur, 5 + n, TypeAnnV::Record(fs1));
}

} // verus!
