//! Lexer: turns Grindlang source into a flat token stream with spans.
//!
//! The token grammar is Lua-compatible. The lexer is permissive: it recognizes the full Lua
//! token set including constructs the language does not support (e.g. `repeat`, `...`).
//! Those are rejected by the parser, in context.
//!
//! Lexing collects every diagnostic rather than stopping at the first.
use vstd::prelude::*;
use vstd::string::*;
use vstd::utf8::{encode_scalar, is_scalar};
use crate::diagnostics::{any_error, error_at, span_of, Diagnostic, DiagnosticV, Diagnostics, Span};
use crate::numeral::{hex_val, is_hex_digit, numeral_of, parse_number, Numeral, NumeralV};
use crate::text::{cat3, from_utf8_lossy, latin1, latin1_string, own, same, text_of};

verus! {

/// A lexical token: a [`TokenKind`] plus its source [`Span`].
#[derive(Clone, Debug, PartialEq)]
pub struct Token {
    pub kind: TokenKind,
    pub span: Span,
}

#[derive(Clone, Debug, PartialEq)]
pub enum TokenKind {
    // Literals
    Number(Numeral),
    Str(String),
    Name(String),
    // Keywords
    And,
    Break,
    Do,
    Else,
    Elseif,
    End,
    False,
    For,
    Function,
    If,
    In,
    Local,
    Nil,
    Not,
    Or,
    Repeat,
    Return,
    Then,
    True,
    Until,
    While,
    // Symbols and operators
    Plus,
    Minus,
    Star,
    Slash,
    DoubleSlash,
    Percent,
    Caret,
    Hash,
    Eq,
    Ne,
    Le,
    Ge,
    Lt,
    Gt,
    Assign,
    LParen,
    RParen,
    LBrace,
    RBrace,
    LBracket,
    RBracket,
    Semi,
    Colon,
    DoubleColon,
    Comma,
    Dot,
    DotDot,
    Ellipsis,
    Eof,
}

/// What a [`TokenKind`] stands for: a literal with its value, or a fixed token.
pub ghost enum TokenKindV {
    Number(NumeralV),
    Str(Seq<char>),
    Name(Seq<char>),
    Fixed(TokenKind),
}

/// What a [`Token`] stands for.
pub ghost struct TokenV {
    pub kind: TokenKindV,
    pub span: Span,
}

impl View for TokenKind {
    type V = TokenKindV;

    open spec fn view(&self) -> TokenKindV {
        match self {
            TokenKind::Number(n) => TokenKindV::Number(n@),
            TokenKind::Str(s) => TokenKindV::Str(s@),
            TokenKind::Name(s) => TokenKindV::Name(s@),
            _ => TokenKindV::Fixed(*self),
        }
    }
}

impl View for Token {
    type V = TokenV;

    open spec fn view(&self) -> TokenV {
        TokenV { kind: self.kind@, span: self.span }
    }
}

/// What a token stream stands for.
pub open spec fn tokens_v(t: Seq<Token>) -> Seq<TokenV> {
    t.map_values(|x: Token| x@)
}

/// The canonical spelling of a keyword or symbol token, empty for any other.
#[verifier::opaque]
pub open spec fn symbol_of(k: TokenKind) -> Seq<char> {
    match k {
        TokenKind::And => "and"@,
        TokenKind::Break => "break"@,
        TokenKind::Do => "do"@,
        TokenKind::Else => "else"@,
        TokenKind::Elseif => "elseif"@,
        TokenKind::End => "end"@,
        TokenKind::False => "false"@,
        TokenKind::For => "for"@,
        TokenKind::Function => "function"@,
        TokenKind::If => "if"@,
        TokenKind::In => "in"@,
        TokenKind::Local => "local"@,
        TokenKind::Nil => "nil"@,
        TokenKind::Not => "not"@,
        TokenKind::Or => "or"@,
        TokenKind::Repeat => "repeat"@,
        TokenKind::Return => "return"@,
        TokenKind::Then => "then"@,
        TokenKind::True => "true"@,
        TokenKind::Until => "until"@,
        TokenKind::While => "while"@,
        TokenKind::Plus => "+"@,
        TokenKind::Minus => "-"@,
        TokenKind::Star => "*"@,
        TokenKind::Slash => "/"@,
        TokenKind::DoubleSlash => "//"@,
        TokenKind::Percent => "%"@,
        TokenKind::Caret => "^"@,
        TokenKind::Hash => "#"@,
        TokenKind::Eq => "=="@,
        TokenKind::Ne => "~="@,
        TokenKind::Le => "<="@,
        TokenKind::Ge => ">="@,
        TokenKind::Lt => "<"@,
        TokenKind::Gt => ">"@,
        TokenKind::Assign => "="@,
        TokenKind::LParen => "("@,
        TokenKind::RParen => ")"@,
        TokenKind::LBrace => "{"@,
        TokenKind::RBrace => "}"@,
        TokenKind::LBracket => "["@,
        TokenKind::RBracket => "]"@,
        TokenKind::Semi => ";"@,
        TokenKind::Colon => ":"@,
        TokenKind::DoubleColon => "::"@,
        TokenKind::Comma => ","@,
        TokenKind::Dot => "."@,
        TokenKind::DotDot => ".."@,
        TokenKind::Ellipsis => "..."@,
        _ => ""@,
    }
}

/// The name of a token in diagnostics.
#[verifier::opaque]
pub open spec fn describe_of(k: TokenKindV) -> Seq<char> {
    match k {
        TokenKindV::Number(_) => "a number"@,
        TokenKindV::Str(_) => "a string"@,
        TokenKindV::Name(n) => "identifier `"@ + n + "`"@,
        TokenKindV::Fixed(TokenKind::Eof) => "end of input"@,
        TokenKindV::Fixed(f) => "`"@ + symbol_of(f) + "`"@,
    }
}

/// The keyword that `s` spells, if it is one.
pub open spec fn keyword_of(s: Seq<char>) -> Option<TokenKind> {

    if s == "and"@ {
        Some(TokenKind::And)
    } else if s == "break"@ {
        Some(TokenKind::Break)
    } else if s == "do"@ {
        Some(TokenKind::Do)
    } else if s == "else"@ {
        Some(TokenKind::Else)
    } else if s == "elseif"@ {
        Some(TokenKind::Elseif)
    } else if s == "end"@ {
        Some(TokenKind::End)
    } else if s == "false"@ {
        Some(TokenKind::False)
    } else if s == "for"@ {
        Some(TokenKind::For)
    } else if s == "function"@ {
        Some(TokenKind::Function)
    } else if s == "if"@ {
        Some(TokenKind::If)
    } else if s == "in"@ {
        Some(TokenKind::In)
    } else if s == "local"@ {
        Some(TokenKind::Local)
    } else if s == "nil"@ {
        Some(TokenKind::Nil)
    } else if s == "not"@ {
        Some(TokenKind::Not)
    } else if s == "or"@ {
        Some(TokenKind::Or)
    } else if s == "repeat"@ {
        Some(TokenKind::Repeat)
    } else if s == "return"@ {
        Some(TokenKind::Return)
    } else if s == "then"@ {
        Some(TokenKind::Then)
    } else if s == "true"@ {
        Some(TokenKind::True)
    } else if s == "until"@ {
        Some(TokenKind::Until)
    } else if s == "while"@ {
        Some(TokenKind::While)
    } else {
        None
    }
}

impl TokenKind {
    /// Human-readable name for diagnostics (`` `end` ``, `` `=` ``, `a number`, ...).
    pub fn describe(&self) -> (r: String)
        ensures
            r@ == describe_of(self@),
    {
        proof {
            reveal(describe_of);
        }
        match self {
            TokenKind::Number(_) => own("a number"),
            TokenKind::Str(_) => own("a string"),
            TokenKind::Name(n) => cat3("identifier `", n.as_str(), "`"),
            TokenKind::Eof => own("end of input"),
            other => cat3("`", other.symbol(), "`"),
        }
    }

    /// Whether this is the fixed (keyword, symbol or end) token `k`.
    pub fn is_fixed(&self, k: &TokenKind) -> (r: bool)
        ensures
            r == (self@ == TokenKindV::Fixed(*k)),
    {
        match self {
            TokenKind::And => matches!(k, TokenKind::And),
            TokenKind::Break => matches!(k, TokenKind::Break),
            TokenKind::Do => matches!(k, TokenKind::Do),
            TokenKind::Else => matches!(k, TokenKind::Else),
            TokenKind::Elseif => matches!(k, TokenKind::Elseif),
            TokenKind::End => matches!(k, TokenKind::End),
            TokenKind::False => matches!(k, TokenKind::False),
            TokenKind::For => matches!(k, TokenKind::For),
            TokenKind::Function => matches!(k, TokenKind::Function),
            TokenKind::If => matches!(k, TokenKind::If),
            TokenKind::In => matches!(k, TokenKind::In),
            TokenKind::Local => matches!(k, TokenKind::Local),
            TokenKind::Nil => matches!(k, TokenKind::Nil),
            TokenKind::Not => matches!(k, TokenKind::Not),
            TokenKind::Or => matches!(k, TokenKind::Or),
            TokenKind::Repeat => matches!(k, TokenKind::Repeat),
            TokenKind::Return => matches!(k, TokenKind::Return),
            TokenKind::Then => matches!(k, TokenKind::Then),
            TokenKind::True => matches!(k, TokenKind::True),
            TokenKind::Until => matches!(k, TokenKind::Until),
            TokenKind::While => matches!(k, TokenKind::While),
            TokenKind::Plus => matches!(k, TokenKind::Plus),
            TokenKind::Minus => matches!(k, TokenKind::Minus),
            TokenKind::Star => matches!(k, TokenKind::Star),
            TokenKind::Slash => matches!(k, TokenKind::Slash),
            TokenKind::DoubleSlash => matches!(k, TokenKind::DoubleSlash),
            TokenKind::Percent => matches!(k, TokenKind::Percent),
            TokenKind::Caret => matches!(k, TokenKind::Caret),
            TokenKind::Hash => matches!(k, TokenKind::Hash),
            TokenKind::Eq => matches!(k, TokenKind::Eq),
            TokenKind::Ne => matches!(k, TokenKind::Ne),
            TokenKind::Le => matches!(k, TokenKind::Le),
            TokenKind::Ge => matches!(k, TokenKind::Ge),
            TokenKind::Lt => matches!(k, TokenKind::Lt),
            TokenKind::Gt => matches!(k, TokenKind::Gt),
            TokenKind::Assign => matches!(k, TokenKind::Assign),
            TokenKind::LParen => matches!(k, TokenKind::LParen),
            TokenKind::RParen => matches!(k, TokenKind::RParen),
            TokenKind::LBrace => matches!(k, TokenKind::LBrace),
            TokenKind::RBrace => matches!(k, TokenKind::RBrace),
            TokenKind::LBracket => matches!(k, TokenKind::LBracket),
            TokenKind::RBracket => matches!(k, TokenKind::RBracket),
            TokenKind::Semi => matches!(k, TokenKind::Semi),
            TokenKind::Colon => matches!(k, TokenKind::Colon),
            TokenKind::DoubleColon => matches!(k, TokenKind::DoubleColon),
            TokenKind::Comma => matches!(k, TokenKind::Comma),
            TokenKind::Dot => matches!(k, TokenKind::Dot),
            TokenKind::DotDot => matches!(k, TokenKind::DotDot),
            TokenKind::Ellipsis => matches!(k, TokenKind::Ellipsis),
            TokenKind::Eof => matches!(k, TokenKind::Eof),
            _ => false,
        }
    }

    /// The canonical spelling for keyword and symbol tokens (empty for value tokens).
    fn symbol(&self) -> (r: &'static str)
        ensures
            r@ == symbol_of(*self),
    {
        proof {
            reveal(symbol_of);
        }
        match self {
            TokenKind::And => "and",
            TokenKind::Break => "break",
            TokenKind::Do => "do",
            TokenKind::Else => "else",
            TokenKind::Elseif => "elseif",
            TokenKind::End => "end",
            TokenKind::False => "false",
            TokenKind::For => "for",
            TokenKind::Function => "function",
            TokenKind::If => "if",
            TokenKind::In => "in",
            TokenKind::Local => "local",
            TokenKind::Nil => "nil",
            TokenKind::Not => "not",
            TokenKind::Or => "or",
            TokenKind::Repeat => "repeat",
            TokenKind::Return => "return",
            TokenKind::Then => "then",
            TokenKind::True => "true",
            TokenKind::Until => "until",
            TokenKind::While => "while",
            TokenKind::Plus => "+",
            TokenKind::Minus => "-",
            TokenKind::Star => "*",
            TokenKind::Slash => "/",
            TokenKind::DoubleSlash => "//",
            TokenKind::Percent => "%",
            TokenKind::Caret => "^",
            TokenKind::Hash => "#",
            TokenKind::Eq => "==",
            TokenKind::Ne => "~=",
            TokenKind::Le => "<=",
            TokenKind::Ge => ">=",
            TokenKind::Lt => "<",
            TokenKind::Gt => ">",
            TokenKind::Assign => "=",
            TokenKind::LParen => "(",
            TokenKind::RParen => ")",
            TokenKind::LBrace => "{",
            TokenKind::RBrace => "}",
            TokenKind::LBracket => "[",
            TokenKind::RBracket => "]",
            TokenKind::Semi => ";",
            TokenKind::Colon => ":",
            TokenKind::DoubleColon => "::",
            TokenKind::Comma => ",",
            TokenKind::Dot => ".",
            TokenKind::DotDot => "..",
            TokenKind::Ellipsis => "...",
            _ => "",
        }
    }
}

fn keyword(ident: &str) -> (r: Option<TokenKind>)
    ensures
        r == keyword_of(ident@),
{
    if same(ident, "and") {
        Some(TokenKind::And)
    } else if same(ident, "break") {
        Some(TokenKind::Break)
    } else if same(ident, "do") {
        Some(TokenKind::Do)
    } else if same(ident, "else") {
        Some(TokenKind::Else)
    } else if same(ident, "elseif") {
        Some(TokenKind::Elseif)
    } else if same(ident, "end") {
        Some(TokenKind::End)
    } else if same(ident, "false") {
        Some(TokenKind::False)
    } else if same(ident, "for") {
        Some(TokenKind::For)
    } else if same(ident, "function") {
        Some(TokenKind::Function)
    } else if same(ident, "if") {
        Some(TokenKind::If)
    } else if same(ident, "in") {
        Some(TokenKind::In)
    } else if same(ident, "local") {
        Some(TokenKind::Local)
    } else if same(ident, "nil") {
        Some(TokenKind::Nil)
    } else if same(ident, "not") {
        Some(TokenKind::Not)
    } else if same(ident, "or") {
        Some(TokenKind::Or)
    } else if same(ident, "repeat") {
        Some(TokenKind::Repeat)
    } else if same(ident, "return") {
        Some(TokenKind::Return)
    } else if same(ident, "then") {
        Some(TokenKind::Then)
    } else if same(ident, "true") {
        Some(TokenKind::True)
    } else if same(ident, "until") {
        Some(TokenKind::Until)
    } else if same(ident, "while") {
        Some(TokenKind::While)
    } else {
        None
    }
}

/// Bytes that the scanner skips over in one go.
#[derive(Clone, Copy, Debug, PartialEq, Eq, Structural)]
pub enum Class {
    Name,
    Digit,
    DigitOrDot,
    HexOrDot,
    Equals,
    InLine,
}

pub open spec fn name_start(c: int) -> bool {
    c == 95 || 65 <= c <= 90 || 97 <= c <= 122
}

pub open spec fn name_continue(c: int) -> bool {
    name_start(c) || 48 <= c <= 57
}

pub open spec fn hex_byte(c: int) -> bool {
    48 <= c <= 57 || 97 <= c <= 102 || 65 <= c <= 70
}

impl Class {
    pub open spec fn has(self, c: int) -> bool {
        match self {
            Class::Name => name_continue(c),
            Class::Digit => 48 <= c <= 57,
            Class::DigitOrDot => 48 <= c <= 57 || c == 46,
            Class::HexOrDot => hex_byte(c) || c == 46,
            Class::Equals => c == 61,
            Class::InLine => c != 10,
        }
    }

    fn holds(self, c: u8) -> (r: bool)
        ensures
            r == self.has(c as int),
    {
        match self {
            Class::Name => is_name_continue(c),
            Class::Digit => 48 <= c && c <= 57,
            Class::DigitOrDot => (48 <= c && c <= 57) || c == 46,
            Class::HexOrDot => is_hex_digit(c) || c == 46,
            Class::Equals => c == 61,
            Class::InLine => c != 10,
        }
    }
}

fn is_name_start(c: u8) -> (r: bool)
    ensures
        r == name_start(c as int),
{
    c == 95 || (65 <= c && c <= 90) || (97 <= c && c <= 122)
}

fn is_name_continue(c: u8) -> (r: bool)
    ensures
        r == name_continue(c as int),
{
    is_name_start(c) || (48 <= c && c <= 57)
}

/// The byte at `i`, or -1 past the end.
pub open spec fn at(b: Seq<u8>, i: int) -> int {
    if 0 <= i < b.len() {
        b[i] as int
    } else {
        -1
    }
}

/// First index at or after `i` whose byte is not of class `k`.
pub open spec fn skip(b: Seq<u8>, i: int, k: Class) -> int
    decreases b.len() - i,
{
    if 0 <= i < b.len() && k.has(b[i] as int) {
        skip(b, i + 1, k)
    } else {
        i
    }
}

/// What one scanning step does: where it stops, and the tokens and problems it adds.
pub ghost struct Scanned {
    pub next: int,
    pub tokens: Seq<TokenV>,
    pub diags: Seq<DiagnosticV>,
}

pub open spec fn one_token(kind: TokenKindV, start: int, next: int) -> Scanned {
    Scanned {
        next,
        tokens: seq![TokenV { kind, span: span_of(start, next) }],
        diags: Seq::empty(),
    }
}

/// The level of the long bracket (`[`, then `=`*, then `[`) that opens at `i`, if one does.
pub open spec fn bracket_level(b: Seq<u8>, i: int) -> Option<int> {
    let e = skip(b, i + 1, Class::Equals);
    if at(b, i) == 91 && at(b, e) == 91 {
        Some(e - (i + 1))
    } else {
        None
    }
}

/// Where the long bracket of level `level` whose body holds `i` closes, if it does.
pub open spec fn bracket_close(b: Seq<u8>, i: int, level: int) -> Option<int>
    decreases b.len() - i,
{
    if i < 0 || i >= b.len() {
        None
    } else {
        let e = skip(b, i + 1, Class::Equals);
        if b[i] == 93 && e - (i + 1) == level && at(b, e) == 93 {
            Some(i)
        } else {
            bracket_close(b, i + 1, level)
        }
    }
}

/// A comment that starts at `i` with `--`.
pub open spec fn scan_comment(b: Seq<u8>, i: int) -> Scanned {
    match bracket_level(b, i + 2) {
        Some(level) => {
            let body = i + 2 + level + 2;
            match bracket_close(b, body, level) {
                Some(e) => Scanned {
                    next: e + level + 2,
                    tokens: Seq::empty(),
                    diags: Seq::empty(),
                },
                None => Scanned {
                    next: b.len() as int,
                    tokens: Seq::empty(),
                    diags: seq![
                        error_at(
                            "E0003"@,
                            "unterminated long comment"@,
                            span_of(body, b.len() as int),
                        ),
                    ],
                },
            }
        },
        None => Scanned {
            next: skip(b, i + 2, Class::InLine),
            tokens: Seq::empty(),
            diags: Seq::empty(),
        },
    }
}

/// The kind of the name token with the given spelling.
pub open spec fn name_kind(s: Seq<char>) -> TokenKindV {
    match keyword_of(s) {
        Some(k) => TokenKindV::Fixed(k),
        None => TokenKindV::Name(s),
    }
}

/// A name or keyword that starts at `i`.
pub open spec fn scan_name(b: Seq<u8>, i: int) -> Scanned {
    let e = skip(b, i, Class::Name);
    one_token(name_kind(latin1(b.subrange(i, e))), i, e)
}

/// End of an exponent: a letter in either case at `i`, an optional sign, digits.
pub open spec fn exponent_end(b: Seq<u8>, i: int, low: int) -> int {
    if at(b, i) == low || at(b, i) == low - 32 {
        let d = if at(b, i + 1) == 43 || at(b, i + 1) == 45 {
            i + 2
        } else {
            i + 1
        };
        skip(b, d, Class::Digit)
    } else {
        i
    }
}

/// End of the number that starts at `i`.
pub open spec fn number_end(b: Seq<u8>, i: int) -> int {
    if at(b, i) == 48 && (at(b, i + 1) == 120 || at(b, i + 1) == 88) {
        exponent_end(b, skip(b, i + 2, Class::HexOrDot), 112)
    } else {
        exponent_end(b, skip(b, i, Class::DigitOrDot), 101)
    }
}

/// A number that starts at `i`.
pub open spec fn scan_number(b: Seq<u8>, i: int) -> Scanned {
    let e = number_end(b, i);
    let text = latin1(b.subrange(i, e));
    match numeral_of(text) {
        Some(v) => one_token(TokenKindV::Number(v), i, e),
        None => Scanned {
            diags: seq![
                error_at("E0004"@, "invalid number literal `"@ + text + "`"@, span_of(i, e)),
            ],
            ..one_token(TokenKindV::Number(NumeralV::Decimal("nan"@)), i, e)
        },
    }
}

/// A run of at most `left` decimal digits from `i` on: its end and its value.
pub open spec fn decimal_run(b: Seq<u8>, i: int, left: nat, acc: int) -> (int, int)
    decreases left,
{
    if left > 0 && 48 <= at(b, i) <= 57 {
        decimal_run(b, i + 1, (left - 1) as nat, acc * 10 + (at(b, i) - 48))
    } else {
        (i, acc)
    }
}

/// The value of the hexadecimal digit `c`.
pub open spec fn hex_value(c: int) -> int {
    if 48 <= c <= 57 {
        c - 48
    } else if 97 <= c <= 102 {
        c - 87
    } else {
        c - 55
    }
}

/// A run of at most `left` hexadecimal digits from `i` on: its end and its value.
pub open spec fn hex_run(b: Seq<u8>, i: int, left: nat, acc: int) -> (int, int)
    decreases left,
{
    if left > 0 && hex_byte(at(b, i)) {
        hex_run(b, i + 1, (left - 1) as nat, acc * 16 + hex_value(at(b, i)))
    } else {
        (i, acc)
    }
}

/// The body of a `\u{...}` escape from `i` on: its end and its value modulo 2^32. It ends
/// after the closing brace, or before the first byte that belongs to neither.
pub open spec fn brace_run(b: Seq<u8>, i: int, acc: int) -> (int, int)
    decreases b.len() - i,
{
    if i < 0 || i >= b.len() {
        (i, acc)
    } else if b[i] == 125 {
        (i + 1, acc)
    } else if hex_byte(b[i] as int) {
        brace_run(b, i + 1, (acc * 16 + hex_value(b[i] as int)) % 0x1_0000_0000)
    } else {
        (i, acc)
    }
}

/// What an escape sequence yields: where it ends, the bytes it stands for, its problems.
pub ghost struct Escaped {
    pub next: int,
    pub bytes: Seq<u8>,
    pub diags: Seq<DiagnosticV>,
}

pub open spec fn escaped_byte(next: int, x: u8) -> Escaped {
    Escaped { next, bytes: seq![x], diags: Seq::empty() }
}

/// The escape sequence whose first byte after the backslash is at `i`.
pub open spec fn escape(b: Seq<u8>, i: int) -> Escaped {
    let c = at(b, i);
    if c == 110 {
        escaped_byte(i + 1, 10)
    } else if c == 116 {
        escaped_byte(i + 1, 9)
    } else if c == 114 {
        escaped_byte(i + 1, 13)
    } else if c == 97 {
        escaped_byte(i + 1, 7)
    } else if c == 98 {
        escaped_byte(i + 1, 8)
    } else if c == 102 {
        escaped_byte(i + 1, 12)
    } else if c == 118 {
        escaped_byte(i + 1, 11)
    } else if c == 92 || c == 34 || c == 39 || c == 10 {
        escaped_byte(i + 1, c as u8)
    } else if 48 <= c <= 57 {
        let run = decimal_run(b, i, 3, 0);
        escaped_byte(run.0, run.1 as u8)
    } else if c == 120 {
        let run = hex_run(b, i + 1, 2, 0);
        escaped_byte(run.0, run.1 as u8)
    } else if c == 117 {
        if at(b, i + 1) == 123 {
            let run = brace_run(b, i + 2, 0);
            Escaped {
                next: run.0,
                bytes: if is_scalar(run.1 as u32) {
                    encode_scalar(run.1 as u32)
                } else {
                    Seq::empty()
                },
                diags: Seq::empty(),
            }
        } else {
            Escaped { next: i + 1, bytes: Seq::empty(), diags: Seq::empty() }
        }
    } else {
        let next = if c == -1 { i } else { i + 1 };
        Escaped {
            next,
            bytes: Seq::empty(),
            diags: seq![
                error_at(
                    "E0006"@,
                    "invalid escape sequence `\\"@ + seq![
                        if c == -1 {
                            '?'
                        } else {
                            c as char
                        },
                    ] + "`"@,
                    span_of(next - 1, next),
                ),
            ],
        }
    }
}

/// The rest of a quoted string that opened at `start`, from `i` on.
pub open spec fn quoted_body(b: Seq<u8>, start: int, i: int, quote: int) -> Escaped
    decreases b.len() - i,
{
    if i < 0 || i >= b.len() || b[i] == 10 {
        Escaped {
            next: i,
            bytes: Seq::empty(),
            diags: seq![error_at("E0005"@, "unterminated string literal"@, span_of(start, i))],
        }
    } else if b[i] == quote {
        Escaped { next: i + 1, bytes: Seq::empty(), diags: Seq::empty() }
    } else if b[i] == 92 {
        let e = escape(b, i + 1);
        if i < e.next <= b.len() {
            let rest = quoted_body(b, start, e.next, quote);
            Escaped {
                next: rest.next,
                bytes: e.bytes + rest.bytes,
                diags: e.diags + rest.diags,
            }
        } else {
            e
        }
    } else {
        let rest = quoted_body(b, start, i + 1, quote);
        Escaped { bytes: seq![b[i]] + rest.bytes, ..rest }
    }
}

/// A quoted string that opens at `i`.
pub open spec fn scan_quoted(b: Seq<u8>, i: int) -> Scanned {
    let body = quoted_body(b, i, i + 1, at(b, i));
    Scanned {
        diags: body.diags,
        ..one_token(TokenKindV::Str(text_of(body.bytes)), i, body.next)
    }
}

/// The body of a long string without a line break right after the opening bracket.
pub open spec fn drop_first_line_break(s: Seq<u8>) -> Seq<u8> {
    if at(s, 0) == 10 {
        s.subrange(1, s.len() as int)
    } else if at(s, 0) == 13 && at(s, 1) == 10 {
        s.subrange(2, s.len() as int)
    } else {
        s
    }
}

/// A long string of the given level that opens at `i`.
pub open spec fn scan_long(b: Seq<u8>, i: int, level: int) -> Scanned {
    let body = i + level + 2;
    match bracket_close(b, body, level) {
        Some(e) => one_token(
            TokenKindV::Str(text_of(drop_first_line_break(b.subrange(body, e)))),
            i,
            e + level + 2,
        ),
        None => Scanned {
            diags: seq![
                error_at("E0007"@, "unterminated long string"@, span_of(i, b.len() as int)),
            ],
            ..one_token(TokenKindV::Str(Seq::empty()), i, b.len() as int)
        },
    }
}

/// The symbol token that starts with byte `c`, then `d`, then `e`, and its length.
pub open spec fn symbol_at(c: int, d: int, e: int) -> Option<(TokenKind, int)> {
    if c == 61 && d == 61 {
        Some((TokenKind::Eq, 2))
    } else if c == 126 && d == 61 {
        Some((TokenKind::Ne, 2))
    } else if c == 60 && d == 61 {
        Some((TokenKind::Le, 2))
    } else if c == 62 && d == 61 {
        Some((TokenKind::Ge, 2))
    } else if c == 47 && d == 47 {
        Some((TokenKind::DoubleSlash, 2))
    } else if c == 58 && d == 58 {
        Some((TokenKind::DoubleColon, 2))
    } else if c == 46 && d == 46 {
        if e == 46 {
            Some((TokenKind::Ellipsis, 3))
        } else {
            Some((TokenKind::DotDot, 2))
        }
    } else if c == 43 {
        Some((TokenKind::Plus, 1))
    } else if c == 45 {
        Some((TokenKind::Minus, 1))
    } else if c == 42 {
        Some((TokenKind::Star, 1))
    } else if c == 47 {
        Some((TokenKind::Slash, 1))
    } else if c == 37 {
        Some((TokenKind::Percent, 1))
    } else if c == 94 {
        Some((TokenKind::Caret, 1))
    } else if c == 35 {
        Some((TokenKind::Hash, 1))
    } else if c == 60 {
        Some((TokenKind::Lt, 1))
    } else if c == 62 {
        Some((TokenKind::Gt, 1))
    } else if c == 61 {
        Some((TokenKind::Assign, 1))
    } else if c == 40 {
        Some((TokenKind::LParen, 1))
    } else if c == 41 {
        Some((TokenKind::RParen, 1))
    } else if c == 123 {
        Some((TokenKind::LBrace, 1))
    } else if c == 125 {
        Some((TokenKind::RBrace, 1))
    } else if c == 91 {
        Some((TokenKind::LBracket, 1))
    } else if c == 93 {
        Some((TokenKind::RBracket, 1))
    } else if c == 59 {
        Some((TokenKind::Semi, 1))
    } else if c == 58 {
        Some((TokenKind::Colon, 1))
    } else if c == 44 {
        Some((TokenKind::Comma, 1))
    } else if c == 46 {
        Some((TokenKind::Dot, 1))
    } else {
        None
    }
}

/// A symbol at `i`, or a byte that starts no token.
pub open spec fn scan_symbol(b: Seq<u8>, i: int) -> Scanned {
    match symbol_at(at(b, i), at(b, i + 1), at(b, i + 2)) {
        Some((k, n)) => one_token(TokenKindV::Fixed(k), i, i + n),
        None => Scanned {
            next: i + 1,
            tokens: Seq::empty(),
            diags: seq![
                error_at(
                    "E0001"@,
                    "unexpected character `"@ + seq![at(b, i) as char] + "`"@,
                    span_of(i, i + 1),
                ),
            ],
        },
    }
}

/// One scanning step from `i`, which lies inside the source.
pub open spec fn scan(b: Seq<u8>, i: int) -> Scanned {
    let c = at(b, i);
    let d = at(b, i + 1);
    if c == 32 || 9 <= c <= 13 {
        Scanned { next: i + 1, tokens: Seq::empty(), diags: Seq::empty() }
    } else if c == 45 && d == 45 {
        scan_comment(b, i)
    } else if name_start(c) {
        scan_name(b, i)
    } else if 48 <= c <= 57 || (c == 46 && 48 <= d <= 57) {
        scan_number(b, i)
    } else if c == 34 || c == 39 {
        scan_quoted(b, i)
    } else if c == 91 && (d == 91 || d == 61) {
        match bracket_level(b, i) {
            Some(level) => scan_long(b, i, level),
            None => one_token(TokenKindV::Fixed(TokenKind::LBracket), i, i + 1),
        }
    } else {
        scan_symbol(b, i)
    }
}

/// Everything scanned from `i` to the end of the source, the final `Eof` included.
pub open spec fn scan_from(b: Seq<u8>, i: int) -> Scanned
    decreases b.len() - i,
{
    if i < 0 || i >= b.len() {
        one_token(TokenKindV::Fixed(TokenKind::Eof), i, i)
    } else {
        let s = scan(b, i);
        if i < s.next <= b.len() {
            let rest = scan_from(b, s.next);
            Scanned {
                next: rest.next,
                tokens: s.tokens + rest.tokens,
                diags: s.diags + rest.diags,
            }
        } else {
            s
        }
    }
}

/// What lexing a source yields: its tokens, or every problem found.
pub open spec fn lex_of(b: Seq<u8>) -> Result<Seq<TokenV>, Seq<DiagnosticV>> {
    let s = scan_from(b, 0);
    if s.diags.len() > 0 {
        Err(s.diags)
    } else {
        Ok(s.tokens)
    }
}

proof fn lemma_skip(b: Seq<u8>, i: int, k: Class)
    requires
        0 <= i <= b.len(),
    ensures
        i <= skip(b, i, k) <= b.len(),
        i < b.len() && k.has(b[i] as int) ==> i < skip(b, i, k),
    decreases b.len() - i,
{
    if i < b.len() && k.has(b[i] as int) {
        lemma_skip(b, i + 1, k);
    }
}

proof fn lemma_bracket_level(b: Seq<u8>, i: int)
    requires
        0 <= i <= b.len(),
    ensures
        bracket_level(b, i) matches Some(level) ==> 0 <= level && i + level + 2 <= b.len(),
{
    if i < b.len() {
        lemma_skip(b, i + 1, Class::Equals);
    }
}

proof fn lemma_bracket_close(b: Seq<u8>, i: int, level: int)
    requires
        0 <= i <= b.len(),
        0 <= level,
    ensures
        bracket_close(b, i, level) matches Some(e) ==> i <= e && e + level + 2 <= b.len(),
    decreases b.len() - i,
{
    if i < b.len() {
        lemma_skip(b, i + 1, Class::Equals);
        lemma_bracket_close(b, i + 1, level);
    }
}

proof fn lemma_decimal_run(b: Seq<u8>, i: int, left: nat, acc: int)
    requires
        0 <= i <= b.len(),
    ensures
        i <= decimal_run(b, i, left, acc).0 <= b.len(),
        left > 0 && 48 <= at(b, i) <= 57 ==> i < decimal_run(b, i, left, acc).0,
    decreases left,
{
    if left > 0 && 48 <= at(b, i) <= 57 {
        lemma_decimal_run(b, i + 1, (left - 1) as nat, acc * 10 + (at(b, i) - 48));
    }
}

proof fn lemma_hex_run(b: Seq<u8>, i: int, left: nat, acc: int)
    requires
        0 <= i <= b.len(),
    ensures
        i <= hex_run(b, i, left, acc).0 <= b.len(),
    decreases left,
{
    if left > 0 && hex_byte(at(b, i)) {
        lemma_hex_run(b, i + 1, (left - 1) as nat, acc * 16 + hex_value(at(b, i)));
    }
}

proof fn lemma_brace_run(b: Seq<u8>, i: int, acc: int)
    requires
        0 <= i <= b.len(),
        0 <= acc < 0x1_0000_0000,
    ensures
        i <= brace_run(b, i, acc).0 <= b.len(),
        0 <= brace_run(b, i, acc).1 < 0x1_0000_0000,
    decreases b.len() - i,
{
    if i < b.len() && b[i] != 125 && hex_byte(b[i] as int) {
        lemma_brace_run(b, i + 1, (acc * 16 + hex_value(b[i] as int)) % 0x1_0000_0000);
    }
}

proof fn lemma_escape(b: Seq<u8>, i: int)
    requires
        0 <= i <= b.len(),
    ensures
        i <= escape(b, i).next <= b.len(),
        forall|k: int|
            0 <= k < escape(b, i).diags.len() ==> (#[trigger] escape(b, i).diags[k]).severity
                == crate::diagnostics::Severity::Error,
{
    lemma_decimal_run(b, i, 3, 0);
    if i < b.len() {
        lemma_hex_run(b, i + 1, 2, 0);
        if i + 1 < b.len() {
            lemma_brace_run(b, i + 2, 0);
        }
    }
}

proof fn lemma_quoted_body(b: Seq<u8>, start: int, i: int, quote: int)
    requires
        0 <= i <= b.len(),
    ensures
        i <= quoted_body(b, start, i, quote).next <= b.len(),
        forall|k: int|
            0 <= k < quoted_body(b, start, i, quote).diags.len() ==> (#[trigger] quoted_body(
                b,
                start,
                i,
                quote,
            ).diags[k]).severity == crate::diagnostics::Severity::Error,
    decreases b.len() - i,
{
    if i < b.len() && b[i] != 10 && b[i] != quote {
        if b[i] == 92 {
            lemma_escape(b, i + 1);
            lemma_quoted_body(b, start, escape(b, i + 1).next, quote);
        } else {
            lemma_quoted_body(b, start, i + 1, quote);
        }
    }
}

/// Every scanning step moves on, stays inside the source, and adds at most one token, which
/// covers what was scanned.
proof fn lemma_scan(b: Seq<u8>, i: int)
    requires
        0 <= i < b.len(),
    ensures
        i < scan(b, i).next <= b.len(),
        scan(b, i).tokens.len() <= 1,
        forall|k: int|
            0 <= k < scan(b, i).tokens.len() ==> (#[trigger] scan(b, i).tokens[k]).span == span_of(
                i,
                scan(b, i).next,
            ) && scan(b, i).tokens[k].kind != TokenKindV::Fixed(TokenKind::Eof),
        forall|k: int|
            0 <= k < scan(b, i).diags.len() ==> (#[trigger] scan(b, i).diags[k]).severity
                == crate::diagnostics::Severity::Error,
{
    lemma_skip(b, i, Class::Name);
    lemma_skip(b, i, Class::DigitOrDot);
    let d = skip(b, i, Class::DigitOrDot);
    lemma_exponent(b, d, 101);
    lemma_bracket_level(b, i);
    if at(b, i + 1) != -1 {
        lemma_skip(b, i + 2, Class::InLine);
        lemma_skip(b, i + 2, Class::HexOrDot);
        lemma_exponent(b, skip(b, i + 2, Class::HexOrDot), 112);
        lemma_bracket_level(b, i + 2);
    }
    lemma_quoted_body(b, i, i + 1, at(b, i));
    if bracket_level(b, i) is Some {
        lemma_bracket_close(b, i + bracket_level(b, i)->0 + 2, bracket_level(b, i)->0);
    }
    if at(b, i + 1) != -1 && bracket_level(b, i + 2) is Some {
        lemma_bracket_close(b, i + 2 + bracket_level(b, i + 2)->0 + 2, bracket_level(b, i + 2)->0);
    }
}

proof fn lemma_exponent(b: Seq<u8>, i: int, low: int)
    requires
        0 <= i <= b.len(),
        low > 40,
    ensures
        i <= exponent_end(b, i, low) <= b.len(),
{
    if i < b.len() {
        lemma_skip(b, i + 1, Class::Digit);
        if i + 1 < b.len() {
            lemma_skip(b, i + 2, Class::Digit);
        }
    }
}

/// A scanned stream ends with the one `Eof` token in it, its tokens lie in order and apart
/// inside the source, and every diagnostic of the lexer is an error.
pub proof fn law_scanned_stream(b: Seq<u8>, i: int)
    requires
        0 <= i <= b.len(),
        b.len() <= u32::MAX,
    ensures
        ({
            let s = scan_from(b, i);
            &&& s.tokens.len() > 0
            &&& s.tokens.last() == (TokenV {
                kind: TokenKindV::Fixed(TokenKind::Eof),
                span: span_of(b.len() as int, b.len() as int),
            })
            &&& forall|k: int|
                0 <= k < s.tokens.len() - 1 ==> (#[trigger] s.tokens[k]).kind != TokenKindV::Fixed(
                    TokenKind::Eof,
                )
            &&& forall|k: int|
                0 <= k < s.tokens.len() ==> i <= (#[trigger] s.tokens[k]).span.start
                    <= s.tokens[k].span.end <= b.len()
            &&& forall|j: int, k: int|
                #![trigger s.tokens[j], s.tokens[k]]
                0 <= j < k < s.tokens.len() ==> s.tokens[j].span.end <= s.tokens[k].span.start
                    && s.tokens[j].span.start < s.tokens[j].span.end
        }),
    decreases b.len() - i,
{
    if i < b.len() {
        lemma_scan(b, i);
        let s = scan(b, i);
        let rest = scan_from(b, s.next);
        law_scanned_stream(b, s.next);
        let all = s.tokens + rest.tokens;
        assert(scan_from(b, i).tokens == all);
        assert(all.last() == rest.tokens.last());
        assert forall|k: int| 0 <= k < all.len() implies i <= (#[trigger] all[k]).span.start
            <= all[k].span.end <= b.len() by {
            if k >= s.tokens.len() {
                assert(all[k] == rest.tokens[k - s.tokens.len()]);
            } else {
                assert(all[k] == s.tokens[k]);
            }
        }
        assert forall|k: int| 0 <= k < all.len() - 1 implies (#[trigger] all[k]).kind
            != TokenKindV::Fixed(TokenKind::Eof) by {
            if k >= s.tokens.len() {
                assert(all[k] == rest.tokens[k - s.tokens.len()]);
            } else {
                assert(all[k] == s.tokens[k]);
            }
        }
        assert forall|j: int, k: int|
            #![trigger all[j], all[k]]
            0 <= j < k < all.len() implies all[j].span.end <= all[k].span.start
            && all[j].span.start < all[j].span.end by {
            if j >= s.tokens.len() {
                assert(all[j] == rest.tokens[j - s.tokens.len()]);
                assert(all[k] == rest.tokens[k - s.tokens.len()]);
            } else {
                assert(all[j] == s.tokens[j]);
                assert(all[k] == rest.tokens[k - s.tokens.len()]);
            }
        }
    }
}

/// The last token of a scanned stream is `Eof`, and every diagnostic is an error.
proof fn lemma_ends_in_eof(b: Seq<u8>, i: int)
    requires
        0 <= i <= b.len(),
    ensures
        scan_from(b, i).tokens.len() > 0,
        scan_from(b, i).tokens.last().kind == TokenKindV::Fixed(TokenKind::Eof),
        forall|k: int|
            0 <= k < scan_from(b, i).diags.len() ==> (#[trigger] scan_from(b, i).diags[k]).severity
                == crate::diagnostics::Severity::Error,
    decreases b.len() - i,
{
    if i < b.len() {
        lemma_scan(b, i);
        let s = scan(b, i);
        lemma_ends_in_eof(b, s.next);
        let rest = scan_from(b, s.next);
        assert((s.tokens + rest.tokens).last() == rest.tokens.last());
    }
}

/// Lexing succeeds with a stream that ends in `Eof`, or fails with at least one error.
pub proof fn law_lex_result(b: Seq<u8>)
    ensures
        match lex_of(b) {
            Ok(t) => t.len() > 0 && t.last().kind == TokenKindV::Fixed(TokenKind::Eof),
            Err(d) => any_error(d),
        },
{
    lemma_ends_in_eof(b, 0);
    let s = scan_from(b, 0);
    if s.diags.len() > 0 {
        assert(s.diags[0].severity == crate::diagnostics::Severity::Error);
    }
}

/// Lex `src` into a token stream terminated by [`TokenKind::Eof`].
///
/// Returns `Err` with every diagnostic collected if any lexical errors occurred.
pub fn lex(src: &str) -> (r: Result<Vec<Token>, Diagnostics>)
    ensures
        match r {
            Ok(t) => lex_of(src.spec_bytes()) == Ok::<Seq<TokenV>, Seq<DiagnosticV>>(tokens_v(t@)),
            Err(d) => lex_of(src.spec_bytes()) == Err::<Seq<TokenV>, Seq<DiagnosticV>>(d@),
        },
{
    let mut lexer = Lexer::new(src);
    lexer.run();
    proof {
        lemma_ends_in_eof(src.spec_bytes(), 0);
        if lexer.diags@.len() > 0 {
            assert(lexer.diags@[0].severity == crate::diagnostics::Severity::Error);
        }
    }
    if lexer.diags.has_errors() {
        Err(lexer.diags)
    } else {
        Ok(lexer.tokens)
    }
}

struct Lexer<'a> {
    src: &'a [u8],
    pos: usize,
    tokens: Vec<Token>,
    diags: Diagnostics,
}

/// `t` is `s` with the step `d` taken.
spec fn stepped(s: Lexer, t: Lexer, d: Scanned) -> bool {
    &&& t.src@ == s.src@
    &&& t.pos == d.next
    &&& tokens_v(t.tokens@) == tokens_v(s.tokens@) + d.tokens
    &&& t.diags@ == s.diags@ + d.diags
}

impl<'a> Lexer<'a> {
    fn new(src: &'a str) -> (r: Self)
        ensures
            r.src@ == src.spec_bytes(),
            r.pos == 0,
            tokens_v(r.tokens@) == Seq::<TokenV>::empty(),
            r.diags@ == Seq::<DiagnosticV>::empty(),
    {
        let tokens: Vec<Token> = Vec::new();
        assert(tokens_v(tokens@) =~= Seq::<TokenV>::empty());
        Lexer { src: src.as_bytes(), pos: 0, tokens, diags: Diagnostics::new() }
    }

    /// Whether the byte `n` places ahead is `c`.
    fn byte_at(&self, n: usize, c: u8) -> (r: bool)
        requires
            self.pos <= self.src@.len(),
        ensures
            r == (at(self.src@, self.pos + n) == c),
            r ==> self.pos + n < usize::MAX,
    {
        n < self.src.len() - self.pos && self.src[self.pos + n] == c
    }

    fn push(&mut self, kind: TokenKind, start: usize)
        ensures
            final(self).src@ == old(self).src@,
            final(self).pos == old(self).pos,
            final(self).diags@ == old(self).diags@,
            tokens_v(final(self).tokens@) == tokens_v(old(self).tokens@).push(
                TokenV { kind: kind@, span: span_of(start as int, old(self).pos as int) },
            ),
    {
        self.tokens.push(Token { kind, span: Span::new(start, self.pos) });
        assert(tokens_v(self.tokens@) =~= tokens_v(old(self).tokens@).push(
            TokenV { kind: kind@, span: span_of(start as int, old(self).pos as int) },
        ));
    }

    fn run(&mut self)
        requires
            old(self).pos == 0,
        ensures
            final(self).src@ == old(self).src@,
            tokens_v(final(self).tokens@) == tokens_v(old(self).tokens@) + scan_from(
                old(self).src@,
                0,
            ).tokens,
            final(self).diags@ == old(self).diags@ + scan_from(old(self).src@, 0).diags,
    {
        let ghost b = self.src@;
        let ghost all = scan_from(b, 0);
        assert(Seq::<TokenV>::empty() + all.tokens =~= all.tokens);
        while self.pos < self.src.len()
            invariant
                self.src@ == b,
                self.pos <= b.len(),
                tokens_v(self.tokens@) + scan_from(b, self.pos as int).tokens == tokens_v(
                    old(self).tokens@,
                ) + all.tokens,
                self.diags@ + scan_from(b, self.pos as int).diags == old(self).diags@ + all.diags,
            decreases b.len() - self.pos,
        {
            let ghost before = *self;
            let ghost i = self.pos as int;
            proof {
                lemma_scan(b, i);
            }
            self.step();
            proof {
                let s = scan(b, i);
                let rest = scan_from(b, s.next);
                assert(tokens_v(before.tokens@) + (s.tokens + rest.tokens) =~= (tokens_v(
                    before.tokens@,
                ) + s.tokens) + rest.tokens);
                assert(before.diags@ + (s.diags + rest.diags) =~= (before.diags@ + s.diags)
                    + rest.diags);
            }
        }
        let end: usize = self.pos;
        self.push(TokenKind::Eof, end);
        assert(tokens_v(self.tokens@) =~= tokens_v(old(self).tokens@) + all.tokens);
        assert(self.diags@ =~= old(self).diags@ + all.diags);
    }

    /// Scan one token, comment or blank.
    fn step(&mut self)
        requires
            old(self).pos < old(self).src@.len(),
        ensures
            stepped(*old(self), *final(self), scan(old(self).src@, old(self).pos as int)),
    {
        let c: u8 = self.src[self.pos];
        let start: usize = self.pos;
        assert(tokens_v(self.tokens@) + Seq::<TokenV>::empty() =~= tokens_v(self.tokens@));
        assert(self.diags@ + Seq::<DiagnosticV>::empty() =~= self.diags@);
        if c == 32 || (9 <= c && c <= 13) {
            self.pos = self.pos + 1;
        } else if c == 45 && self.byte_at(1, 45) {
            self.lex_comment();
        } else if is_name_start(c) {
            self.lex_name();
        } else if (48 <= c && c <= 57) || (c == 46 && self.digit_at(1)) {
            self.lex_number();
        } else if c == 34 || c == 39 {
            self.lex_quoted_string(c);
        } else if c == 91 && (self.byte_at(1, 91) || self.byte_at(1, 61)) {
            match self.long_bracket_level() {
                Some(level) => {
                    self.lex_long_string(start, level);
                },
                None => {
                    self.pos = self.pos + 1;
                    self.push(TokenKind::LBracket, start);
                    assert(tokens_v(self.tokens@) =~= tokens_v(old(self).tokens@) + scan(
                        old(self).src@,
                        old(self).pos as int,
                    ).tokens);
                },
            }
        } else {
            self.lex_symbol();
        }
    }

    /// Whether the byte `n` places ahead is a decimal digit.
    fn digit_at(&self, n: usize) -> (r: bool)
        requires
            self.pos <= self.src@.len(),
        ensures
            r == (48 <= at(self.src@, self.pos + n) <= 57),
    {
        n < self.src.len() - self.pos && 48 <= self.src[self.pos + n] && self.src[self.pos + n]
            <= 57
    }

    fn consume_while(&mut self, k: Class)
        requires
            old(self).pos <= old(self).src@.len(),
        ensures
            final(self).src@ == old(self).src@,
            final(self).tokens@ == old(self).tokens@,
            final(self).diags@ == old(self).diags@,
            final(self).pos == skip(old(self).src@, old(self).pos as int, k),
            old(self).pos <= final(self).pos <= old(self).src@.len(),
    {
        let ghost b = self.src@;
        while self.pos < self.src.len() && k.holds(self.src[self.pos])
            invariant
                self.src@ == b,
                b == old(self).src@,
                self.tokens@ == old(self).tokens@,
                self.diags@ == old(self).diags@,
                old(self).pos <= self.pos <= b.len(),
                skip(b, self.pos as int, k) == skip(b, old(self).pos as int, k),
            decreases b.len() - self.pos,
        {
            self.pos = self.pos + 1;
        }
    }

    fn lex_comment(&mut self)
        requires
            old(self).pos + 1 < old(self).src@.len() <= usize::MAX,
        ensures
            stepped(*old(self), *final(self), scan_comment(old(self).src@, old(self).pos as int)),
    {
        assert(tokens_v(self.tokens@) + Seq::<TokenV>::empty() =~= tokens_v(self.tokens@));
        assert(self.diags@ + Seq::<DiagnosticV>::empty() =~= self.diags@);
        self.pos = self.pos + 2;
        match self.long_bracket_level() {
            Some(level) => {
                let start: usize = self.pos;
                if self.consume_long_bracket_body(level).is_none() {
                    self.diags.push(
                        Diagnostic::error(
                            "E0003",
                            own("unterminated long comment"),
                            Span::new(start, self.pos),
                        ),
                    );
                    assert(self.diags@ =~= old(self).diags@ + scan_comment(
                        old(self).src@,
                        old(self).pos as int,
                    ).diags);
                }
            },
            None => {
                self.consume_while(Class::InLine);
            },
        }
    }

    fn lex_name(&mut self)
        requires
            old(self).pos < old(self).src@.len(),
        ensures
            stepped(*old(self), *final(self), scan_name(old(self).src@, old(self).pos as int)),
    {
        let start: usize = self.pos;
        self.consume_while(Class::Name);
        let ident = latin1_string(self.src, start, self.pos);
        let kind = match keyword(ident.as_str()) {
            Some(k) => k,
            None => TokenKind::Name(ident),
        };
        assert(kind@ == name_kind(ident@));
        self.push(kind, start);
        assert(tokens_v(self.tokens@) =~= tokens_v(old(self).tokens@) + scan_name(
            old(self).src@,
            old(self).pos as int,
        ).tokens);
        assert(self.diags@ =~= old(self).diags@ + Seq::<DiagnosticV>::empty());
    }

    fn skip_exponent(&mut self, low: u8)
        requires
            old(self).pos <= old(self).src@.len(),
            low > 40,
        ensures
            final(self).src@ == old(self).src@,
            final(self).tokens@ == old(self).tokens@,
            final(self).diags@ == old(self).diags@,
            final(self).pos == exponent_end(old(self).src@, old(self).pos as int, low as int),
            old(self).pos <= final(self).pos <= old(self).src@.len(),
    {
        if self.byte_at(0, low) || self.byte_at(0, low - 32) {
            self.pos = self.pos + 1;
            if self.byte_at(0, 43) || self.byte_at(0, 45) {
                self.pos = self.pos + 1;
            }
            self.consume_while(Class::Digit);
        }
    }

    fn lex_number(&mut self)
        requires
            old(self).pos < old(self).src@.len(),
        ensures
            stepped(*old(self), *final(self), scan_number(old(self).src@, old(self).pos as int)),
    {
        let ghost b = self.src@;
        let start: usize = self.pos;
        if self.byte_at(0, 48) && (self.byte_at(1, 120) || self.byte_at(1, 88)) {
            self.pos = self.pos + 2;
            self.consume_while(Class::HexOrDot);
            self.skip_exponent(112);
        } else {
            self.consume_while(Class::DigitOrDot);
            self.skip_exponent(101);
        }
        let text = latin1_string(self.src, start, self.pos);
        match parse_number(text.as_str()) {
            Some(v) => {
                self.push(TokenKind::Number(v), start);
            },
            None => {
                self.diags.push(
                    Diagnostic::error(
                        "E0004",
                        cat3("invalid number literal `", text.as_str(), "`"),
                        Span::new(start, self.pos),
                    ),
                );
                // A placeholder, so that the stream keeps its shape.
                self.push(TokenKind::Number(Numeral::decimal("nan")), start);
            },
        }
        assert(tokens_v(self.tokens@) =~= tokens_v(old(self).tokens@) + scan_number(
            b,
            start as int,
        ).tokens);
        assert(self.diags@ =~= old(self).diags@ + scan_number(b, start as int).diags);
    }

    fn lex_quoted_string(&mut self, quote: u8)
        requires
            old(self).pos < old(self).src@.len() <= usize::MAX,
            at(old(self).src@, old(self).pos as int) == quote,
        ensures
            stepped(*old(self), *final(self), scan_quoted(old(self).src@, old(self).pos as int)),
    {
        let ghost b = self.src@;
        let start: usize = self.pos;
        let ghost all = quoted_body(b, start as int, start + 1, quote as int);
        self.pos = self.pos + 1;
        let mut buf: Vec<u8> = Vec::new();
        let mut open: bool = true;
        assert(buf@ + all.bytes =~= all.bytes);
        while open
            invariant
                self.src@ == b,
                b == old(self).src@,
                start == old(self).pos,
                self.tokens@ == old(self).tokens@,
                self.pos <= b.len(),
                open ==> ({
                    let rest = quoted_body(b, start as int, self.pos as int, quote as int);
                    &&& rest.next == all.next
                    &&& buf@ + rest.bytes == all.bytes
                    &&& self.diags@ + rest.diags == old(self).diags@ + all.diags
                }),
                !open ==> self.pos == all.next && buf@ == all.bytes && self.diags@ == old(
                    self,
                ).diags@ + all.diags,
            decreases (if open { 1int } else { 0 }), b.len() - self.pos,
        {
            let ghost rest = quoted_body(b, start as int, self.pos as int, quote as int);
            if self.pos >= self.src.len() || self.src[self.pos] == 10 {
                self.diags.push(
                    Diagnostic::error(
                        "E0005",
                        own("unterminated string literal"),
                        Span::new(start, self.pos),
                    ),
                );
                open = false;
                assert(buf@ =~= buf@ + rest.bytes);
                assert(self.diags@ =~= old(self).diags@ + all.diags);
            } else if self.src[self.pos] == quote {
                self.pos = self.pos + 1;
                open = false;
                assert(buf@ =~= buf@ + rest.bytes);
                assert(self.diags@ =~= self.diags@ + rest.diags);
            } else if self.src[self.pos] == 92 {
                let ghost i = self.pos as int;
                let ghost d0 = self.diags@;
                let ghost f0 = buf@;
                proof {
                    lemma_escape(b, i + 1);
                }
                self.pos = self.pos + 1;
                self.lex_escape(&mut buf);
                proof {
                    let e = escape(b, i + 1);
                    let tail = quoted_body(b, start as int, e.next, quote as int);
                    assert(f0 + (e.bytes + tail.bytes) =~= (f0 + e.bytes) + tail.bytes);
                    assert(d0 + (e.diags + tail.diags) =~= (d0 + e.diags) + tail.diags);
                }
            } else {
                let ghost f0 = buf@;
                let c: u8 = self.src[self.pos];
                buf.push(c);
                self.pos = self.pos + 1;
                proof {
                    let tail = quoted_body(b, start as int, self.pos as int, quote as int);
                    assert(f0 + (seq![c] + tail.bytes) =~= f0.push(c) + tail.bytes);
                }
            }
        }
        let s = from_utf8_lossy(buf.as_slice());
        self.push(TokenKind::Str(s), start);
        assert(tokens_v(self.tokens@) =~= tokens_v(old(self).tokens@) + scan_quoted(
            b,
            start as int,
        ).tokens);
    }

    /// An escape sequence; the cursor is right after the backslash.
    fn lex_escape(&mut self, buf: &mut Vec<u8>)
        requires
            0 < old(self).pos <= old(self).src@.len(),
        ensures
            final(self).src@ == old(self).src@,
            final(self).tokens@ == old(self).tokens@,
            ({
                let e = escape(old(self).src@, old(self).pos as int);
                &&& final(self).pos == e.next
                &&& final(self).pos <= old(self).src@.len()
                &&& final(buf)@ == old(buf)@ + e.bytes
                &&& final(self).diags@ == old(self).diags@ + e.diags
            }),
    {
        let ghost b = self.src@;
        let ghost i = self.pos as int;
        let ghost e = escape(b, i);
        proof {
            lemma_escape(b, i);
        }
        assert(self.diags@ + Seq::<DiagnosticV>::empty() =~= self.diags@);
        assert(buf@ + Seq::<u8>::empty() =~= buf@);
        if self.pos >= self.src.len() {
            self.bad_escape('?');
            return;
        }
        let c: u8 = self.src[self.pos];
        self.pos = self.pos + 1;
        if c == 110 {
            buf.push(10);
        } else if c == 116 {
            buf.push(9);
        } else if c == 114 {
            buf.push(13);
        } else if c == 97 {
            buf.push(7);
        } else if c == 98 {
            buf.push(8);
        } else if c == 102 {
            buf.push(12);
        } else if c == 118 {
            buf.push(11);
        } else if c == 92 || c == 34 || c == 39 || c == 10 {
            buf.push(c);
        } else if 48 <= c && c <= 57 {
            self.pos = self.pos - 1;
            let val: u32 = self.decimal_digits(3);
            buf.push(#[verifier::truncate] (val as u8));
        } else if c == 120 {
            let val: u32 = self.hex_digits(2);
            buf.push(#[verifier::truncate] (val as u8));
        } else if c == 117 {
            if self.byte_at(0, 123) {
                self.pos = self.pos + 1;
                let val: u32 = self.brace_digits();
                push_scalar(buf, val);
            }
        } else {
            self.bad_escape(c as char);
        }
        assert(buf@ =~= old(buf)@ + e.bytes);
    }

    fn bad_escape(&mut self, shown: char)
        requires
            old(self).pos > 0,
        ensures
            final(self).src@ == old(self).src@,
            final(self).tokens@ == old(self).tokens@,
            final(self).pos == old(self).pos,
            final(self).diags@ == old(self).diags@ + seq![
                error_at(
                    "E0006"@,
                    "invalid escape sequence `\\"@ + seq![shown] + "`"@,
                    span_of(old(self).pos - 1, old(self).pos as int),
                ),
            ],
    {
        let mut msg = own("invalid escape sequence `\\");
        msg.push(shown);
        assert(msg@ =~= "invalid escape sequence `\\"@ + seq![shown]);
        msg.append("`");
        self.diags.push(Diagnostic::error("E0006", msg, Span::new(self.pos - 1, self.pos)));
        assert(self.diags@ =~= old(self).diags@ + seq![
            error_at(
                "E0006"@,
                "invalid escape sequence `\\"@ + seq![shown] + "`"@,
                span_of(old(self).pos - 1, old(self).pos as int),
            ),
        ]);
    }

    /// At most `max` decimal digits.
    fn decimal_digits(&mut self, max: u32) -> (r: u32)
        requires
            old(self).pos <= old(self).src@.len(),
            max <= 3,
        ensures
            final(self).src@ == old(self).src@,
            final(self).tokens@ == old(self).tokens@,
            final(self).diags@ == old(self).diags@,
            final(self).pos <= old(self).src@.len(),
            (final(self).pos as int, r as int) == decimal_run(
                old(self).src@,
                old(self).pos as int,
                max as nat,
                0,
            ),
    {
        let ghost b = self.src@;
        let mut val: u32 = 0;
        let mut n: u32 = 0;
        while n < max && self.digit_at(0)
            invariant
                self.src@ == b,
                b == old(self).src@,
                self.tokens@ == old(self).tokens@,
                self.diags@ == old(self).diags@,
                self.pos <= b.len(),
                n <= max <= 3,
                n == 0 ==> val == 0,
                n == 1 ==> val <= 9,
                n == 2 ==> val <= 99,
                decimal_run(b, self.pos as int, (max - n) as nat, val as int) == decimal_run(
                    b,
                    old(self).pos as int,
                    max as nat,
                    0,
                ),
            decreases max - n,
        {
            val = val * 10 + (self.src[self.pos] - 48) as u32;
            self.pos = self.pos + 1;
            n += 1;
        }
        val
    }

    /// At most `max` hexadecimal digits.
    fn hex_digits(&mut self, max: u32) -> (r: u32)
        requires
            old(self).pos <= old(self).src@.len(),
            max <= 2,
        ensures
            final(self).src@ == old(self).src@,
            final(self).tokens@ == old(self).tokens@,
            final(self).diags@ == old(self).diags@,
            final(self).pos <= old(self).src@.len(),
            (final(self).pos as int, r as int) == hex_run(
                old(self).src@,
                old(self).pos as int,
                max as nat,
                0,
            ),
    {
        let ghost b = self.src@;
        let mut val: u32 = 0;
        let mut n: u32 = 0;
        while n < max && self.pos < self.src.len() && is_hex_digit(self.src[self.pos])
            invariant
                self.src@ == b,
                b == old(self).src@,
                self.tokens@ == old(self).tokens@,
                self.diags@ == old(self).diags@,
                self.pos <= b.len(),
                n <= max <= 2,
                n == 0 ==> val == 0,
                n == 1 ==> val <= 15,
                hex_run(b, self.pos as int, (max - n) as nat, val as int) == hex_run(
                    b,
                    old(self).pos as int,
                    max as nat,
                    0,
                ),
            decreases max - n,
        {
            val = val * 16 + hex_val(self.src[self.pos]);
            self.pos = self.pos + 1;
            n += 1;
        }
        val
    }

    /// The hexadecimal digits of a `\u{...}` escape, up to and including the brace.
    fn brace_digits(&mut self) -> (r: u32)
        requires
            old(self).pos <= old(self).src@.len(),
        ensures
            final(self).src@ == old(self).src@,
            final(self).tokens@ == old(self).tokens@,
            final(self).diags@ == old(self).diags@,
            final(self).pos <= old(self).src@.len(),
            (final(self).pos as int, r as int) == brace_run(
                old(self).src@,
                old(self).pos as int,
                0,
            ),
    {
        let ghost b = self.src@;
        let mut val: u32 = 0;
        while self.pos < self.src.len() && is_hex_digit(self.src[self.pos])
            invariant
                self.src@ == b,
                b == old(self).src@,
                self.tokens@ == old(self).tokens@,
                self.diags@ == old(self).diags@,
                self.pos <= b.len(),
                brace_run(b, self.pos as int, val as int) == brace_run(b, old(self).pos as int, 0),
            decreases b.len() - self.pos,
        {
            val = ((val as u64 * 16 + hex_val(self.src[self.pos]) as u64) % 0x1_0000_0000) as u32;
            self.pos = self.pos + 1;
        }
        if self.byte_at(0, 125) {
            self.pos = self.pos + 1;
        }
        val
    }

    /// If the cursor is at the opening of a long bracket (`[`, then `=`*, then `[`),
    /// consume it and return its level (number of `=`). Otherwise consume nothing.
    fn long_bracket_level(&mut self) -> (r: Option<usize>)
        requires
            old(self).pos <= old(self).src@.len(),
        ensures
            final(self).src@ == old(self).src@,
            final(self).tokens@ == old(self).tokens@,
            final(self).diags@ == old(self).diags@,
            final(self).pos <= old(self).src@.len(),
            match r {
                Some(level) => bracket_level(old(self).src@, old(self).pos as int) == Some(
                    level as int,
                ) && final(self).pos == old(self).pos + level + 2,
                None => bracket_level(old(self).src@, old(self).pos as int) is None
                    && final(self).pos == old(self).pos,
            },
    {
        let save: usize = self.pos;
        if !self.byte_at(0, 91) {
            return None;
        }
        self.pos = self.pos + 1;
        self.consume_while(Class::Equals);
        if self.byte_at(0, 91) {
            let level: usize = self.pos - save - 1;
            self.pos = self.pos + 1;
            Some(level)
        } else {
            self.pos = save;
            None
        }
    }

    fn lex_long_string(&mut self, start: usize, level: usize)
        requires
            start + level + 2 == old(self).pos,
            old(self).pos <= old(self).src@.len(),
        ensures
            stepped(
                *old(self),
                *final(self),
                scan_long(old(self).src@, start as int, level as int),
            ),
    {
        let ghost b = self.src@;
        let body: usize = self.pos;
        match self.consume_long_bracket_body(level) {
            Some(end) => {
                let ghost raw = b.subrange(body as int, end as int);
                let mut from: usize = body;
                if body < end && self.src[body] == 10 {
                    from = body + 1;
                } else if body + 1 < end && self.src[body] == 13 && self.src[body + 1] == 10 {
                    from = body + 2;
                }
                let bytes = vstd::slice::slice_subrange(self.src, from, end);
                assert(bytes@ =~= drop_first_line_break(raw));
                let s = from_utf8_lossy(bytes);
                self.push(TokenKind::Str(s), start);
            },
            None => {
                self.diags.push(
                    Diagnostic::error(
                        "E0007",
                        own("unterminated long string"),
                        Span::new(start, self.pos),
                    ),
                );
                self.push(TokenKind::Str(String::new()), start);
            },
        }
        assert(tokens_v(self.tokens@) =~= tokens_v(old(self).tokens@) + scan_long(
            b,
            start as int,
            level as int,
        ).tokens);
        assert(self.diags@ =~= old(self).diags@ + scan_long(b, start as int, level as int).diags);
    }

    /// Consume up to and including the closing `]=*]` of a long bracket at `level`.
    /// Returns the offset of the start of the closing bracket, or `None` if the input ended
    /// first. Assumes the opening bracket is consumed.
    fn consume_long_bracket_body(&mut self, level: usize) -> (r: Option<usize>)
        requires
            old(self).pos <= old(self).src@.len(),
        ensures
            final(self).src@ == old(self).src@,
            final(self).tokens@ == old(self).tokens@,
            final(self).diags@ == old(self).diags@,
            final(self).pos <= old(self).src@.len(),
            match r {
                Some(e) => bracket_close(old(self).src@, old(self).pos as int, level as int)
                    == Some(e as int) && final(self).pos == e + level + 2 && old(self).pos <= e,
                None => bracket_close(old(self).src@, old(self).pos as int, level as int) is None
                    && final(self).pos == old(self).src@.len(),
            },
    {
        let ghost b = self.src@;
        while self.pos < self.src.len()
            invariant
                self.src@ == b,
                b == old(self).src@,
                self.tokens@ == old(self).tokens@,
                self.diags@ == old(self).diags@,
                old(self).pos <= self.pos <= b.len(),
                bracket_close(b, self.pos as int, level as int) == bracket_close(
                    b,
                    old(self).pos as int,
                    level as int,
                ),
            decreases b.len() - self.pos,
        {
            let save: usize = self.pos;
            if self.src[self.pos] == 93 {
                self.pos = self.pos + 1;
                self.consume_while(Class::Equals);
                if self.pos - save - 1 == level && self.byte_at(0, 93) {
                    self.pos = self.pos + 1;
                    return Some(save);
                }
            }
            self.pos = save + 1;
        }
        None
    }

    fn lex_symbol(&mut self)
        requires
            old(self).pos < old(self).src@.len(),
        ensures
            stepped(*old(self), *final(self), scan_symbol(old(self).src@, old(self).pos as int)),
    {
        let ghost b = self.src@;
        let start: usize = self.pos;
        let c: u8 = self.src[self.pos];
        let found: Option<(TokenKind, usize)> = if c == 61 && self.byte_at(1, 61) {
            Some((TokenKind::Eq, 2))
        } else if c == 126 && self.byte_at(1, 61) {
            Some((TokenKind::Ne, 2))
        } else if c == 60 && self.byte_at(1, 61) {
            Some((TokenKind::Le, 2))
        } else if c == 62 && self.byte_at(1, 61) {
            Some((TokenKind::Ge, 2))
        } else if c == 47 && self.byte_at(1, 47) {
            Some((TokenKind::DoubleSlash, 2))
        } else if c == 58 && self.byte_at(1, 58) {
            Some((TokenKind::DoubleColon, 2))
        } else if c == 46 && self.byte_at(1, 46) {
            if self.byte_at(2, 46) {
                Some((TokenKind::Ellipsis, 3))
            } else {
                Some((TokenKind::DotDot, 2))
            }
        } else if c == 43 {
            Some((TokenKind::Plus, 1))
        } else if c == 45 {
            Some((TokenKind::Minus, 1))
        } else if c == 42 {
            Some((TokenKind::Star, 1))
        } else if c == 47 {
            Some((TokenKind::Slash, 1))
        } else if c == 37 {
            Some((TokenKind::Percent, 1))
        } else if c == 94 {
            Some((TokenKind::Caret, 1))
        } else if c == 35 {
            Some((TokenKind::Hash, 1))
        } else if c == 60 {
            Some((TokenKind::Lt, 1))
        } else if c == 62 {
            Some((TokenKind::Gt, 1))
        } else if c == 61 {
            Some((TokenKind::Assign, 1))
        } else if c == 40 {
            Some((TokenKind::LParen, 1))
        } else if c == 41 {
            Some((TokenKind::RParen, 1))
        } else if c == 123 {
            Some((TokenKind::LBrace, 1))
        } else if c == 125 {
            Some((TokenKind::RBrace, 1))
        } else if c == 91 {
            Some((TokenKind::LBracket, 1))
        } else if c == 93 {
            Some((TokenKind::RBracket, 1))
        } else if c == 59 {
            Some((TokenKind::Semi, 1))
        } else if c == 58 {
            Some((TokenKind::Colon, 1))
        } else if c == 44 {
            Some((TokenKind::Comma, 1))
        } else if c == 46 {
            Some((TokenKind::Dot, 1))
        } else {
            None
        };
        match found {
            Some((kind, len)) => {
                self.pos = self.pos + len;
                self.push(kind, start);
            },
            None => {
                // Unknown byte: report and skip one.
                self.pos = self.pos + 1;
                let mut msg = own("unexpected character `");
                msg.push(c as char);
                assert(msg@ =~= "unexpected character `"@ + seq![c as char]);
                msg.append("`");
                self.diags.push(Diagnostic::error("E0001", msg, Span::new(start, self.pos)));
            },
        }
        assert(tokens_v(self.tokens@) =~= tokens_v(old(self).tokens@) + scan_symbol(
            b,
            start as int,
        ).tokens);
        assert(self.diags@ =~= old(self).diags@ + scan_symbol(b, start as int).diags);
    }
}

/// Append the UTF-8 encoding of `val` to `buf`, or nothing when it encodes no character.
fn push_scalar(buf: &mut Vec<u8>, val: u32)
    ensures
        final(buf)@ == old(buf)@ + if is_scalar(val) {
            encode_scalar(val)
        } else {
            Seq::empty()
        },
{
    if val <= 0x7f {
        buf.push(#[verifier::truncate] ((val & 0x7F) as u8));
    } else if val <= 0x7ff {
        buf.push((0xC0 | ((val >> 6) & 0x1F) as u8));
        buf.push((0x80 | (val & 0x3F) as u8));
    } else if val <= 0xffff && !(0xd800 <= val && val <= 0xdfff) {
        buf.push((0xE0 | ((val >> 12) & 0x0F) as u8));
        buf.push((0x80 | ((val >> 6) & 0x3F) as u8));
        buf.push((0x80 | (val & 0x3F) as u8));
    } else if 0x10000 <= val && val <= 0x10ffff {
        buf.push((0xF0 | ((val >> 18) & 0x07) as u8));
        buf.push((0x80 | ((val >> 12) & 0x3F) as u8));
        buf.push((0x80 | ((val >> 6) & 0x3F) as u8));
        buf.push((0x80 | (val & 0x3F) as u8));
    }
    assert(buf@ =~= old(buf)@ + if is_scalar(val) {
        encode_scalar(val)
    } else {
        Seq::empty()
    });
}

} // verus!
