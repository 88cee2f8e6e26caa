//! Spans, diagnostics, and the error type of the pipeline.
//!
//! Every phase (lexer, parser, resolver, checker) reports problems as [`Diagnostic`]s that
//! carry a [`Span`] into the source. Fallible entry points return [`Diagnostics`].
use vstd::prelude::*;
use vstd::string::*;
use vstd::utf8::{decode_utf8, is_char_boundary};
use crate::text::{
    dec, dec_string, lemma_boundary_after_ascii, pad_left, padded_left, repeat_char, repeated,
    str_slice,
};

verus! {

/// A half-open byte range `[start, end)` into the source string.
#[derive(Clone, Copy, Debug, PartialEq, Eq, Hash, Structural)]
pub struct Span {
    pub start: u32,
    pub end: u32,
}

/// The span of the byte range `[start, end)`; offsets are kept modulo 2^32.
pub open spec fn span_of(start: int, end: int) -> Span {
    Span { start: start as u32, end: end as u32 }
}

/// The smallest span covering both `a` and `b`.
pub open spec fn join(a: Span, b: Span) -> Span {
    Span {
        start: if b.start < a.start { b.start } else { a.start },
        end: if b.end > a.end { b.end } else { a.end },
    }
}

impl Span {
    pub fn new(start: usize, end: usize) -> (r: Self)
        ensures
            r == span_of(start as int, end as int),
    {
        Span {
            start: #[verifier::truncate] (start as u32),
            end: #[verifier::truncate] (end as u32),
        }
    }

    /// A zero-width span at the start of input, for synthesized nodes.
    pub fn dummy() -> (r: Self)
        ensures
            r == (Span { start: 0, end: 0 }),
    {
        Span { start: 0, end: 0 }
    }

    /// The smallest span covering both `self` and `other`.
    pub fn to(self, other: Span) -> (r: Span)
        ensures
            r == join(self, other),
    {
        Span {
            start: if other.start < self.start { other.start } else { self.start },
            end: if other.end > self.end { other.end } else { self.end },
        }
    }

    pub fn len(self) -> (r: usize)
        requires
            self.start <= self.end,
        ensures
            r == self.end - self.start,
    {
        (self.end - self.start) as usize
    }

    pub fn is_empty(self) -> (r: bool)
        ensures
            r == (self.end == self.start),
    {
        self.end == self.start
    }

    /// Slice the source text this span refers to.
    pub fn slice<'a>(self, src: &'a str) -> (r: &'a str)
        requires
            self.start <= self.end <= src.spec_bytes().len(),
            is_char_boundary(src.spec_bytes(), self.start as int),
            is_char_boundary(src.spec_bytes(), self.end as int),
        ensures
            r.spec_bytes() == src.spec_bytes().subrange(self.start as int, self.end as int),
            r@ == decode_utf8(src.spec_bytes().subrange(self.start as int, self.end as int)),
    {
        str_slice(src, self.start as usize, self.end as usize)
    }
}

/// Joining spans is associative, commutative and idempotent, and the result covers both.
pub proof fn law_join_covers(a: Span, b: Span, c: Span)
    ensures
        join(a, b) == join(b, a),
        join(a, join(b, c)) == join(join(a, b), c),
        join(a, a) == a,
        join(a, b).start <= a.start && a.end <= join(a, b).end,
        join(a, b).start <= b.start && b.end <= join(a, b).end,
        forall|s: Span|
            #![trigger join(s, a)]
            s.start <= a.start && s.start <= b.start && a.end <= s.end && b.end <= s.end
                ==> s.start <= join(a, b).start && join(a, b).end <= s.end,
{
}

/// Severity of a [`Diagnostic`].
#[derive(Clone, Copy, Debug, PartialEq, Eq, Structural)]
pub enum Severity {
    Error,
    Warning,
}

impl Severity {
    pub open spec fn name(self) -> Seq<char> {
        match self {
            Severity::Error => "error"@,
            Severity::Warning => "warning"@,
        }
    }

    /// The word printed for this severity.
    pub fn as_str(self) -> (r: &'static str)
        ensures
            r@ == self.name(),
    {
        match self {
            Severity::Error => "error",
            Severity::Warning => "warning",
        }
    }
}

/// A single problem found in the source, pointing at a [`Span`].
///
/// `code` is a short stable identifier (e.g. `"E0001"`) for tests and tooling to match on
/// without depending on the human-readable `message`.
#[derive(Clone, Debug)]
pub struct Diagnostic {
    pub severity: Severity,
    pub code: &'static str,
    pub message: String,
    pub span: Span,
}

/// What a [`Diagnostic`] says.
pub ghost struct DiagnosticV {
    pub severity: Severity,
    pub code: Seq<char>,
    pub message: Seq<char>,
    pub span: Span,
}

impl View for Diagnostic {
    type V = DiagnosticV;

    open spec fn view(&self) -> DiagnosticV {
        DiagnosticV {
            severity: self.severity,
            code: self.code@,
            message: self.message@,
            span: self.span,
        }
    }
}

/// The error diagnostic with the given code, message and span.
pub open spec fn error_at(code: Seq<char>, message: Seq<char>, span: Span) -> DiagnosticV {
    DiagnosticV { severity: Severity::Error, code, message, span }
}

/// Number of line feeds among the first `n` bytes.
pub open spec fn newlines(b: Seq<u8>, n: int) -> nat
    decreases n,
{
    if n <= 0 {
        0
    } else {
        newlines(b, n - 1) + if b[n - 1] == 10 { 1nat } else { 0 }
    }
}

/// Start of the line that holds byte offset `off`.
pub open spec fn line_start_of(b: Seq<u8>, off: int) -> int
    decreases off,
{
    if off <= 0 {
        0
    } else if b[off - 1] == 10 {
        off
    } else {
        line_start_of(b, off - 1)
    }
}

/// End of the line that holds byte offset `off`: the next line feed, or the end of input.
pub open spec fn line_end_of(b: Seq<u8>, off: int) -> int
    decreases b.len() - off,
{
    if off >= b.len() {
        b.len() as int
    } else if b[off] == 10 {
        off
    } else {
        line_end_of(b, off + 1)
    }
}

/// `offset` clamped to the length of the source.
pub open spec fn clamped(b: Seq<u8>, offset: u32) -> int {
    if offset < b.len() {
        offset as int
    } else {
        b.len() as int
    }
}

/// Number of carets printed under an offending range of `len` bytes that starts at the
/// 1-based column `col` of a line of `line_len` bytes.
pub open spec fn caret_count(len: int, line_len: int, col: int) -> int {
    let want = if len < 1 { 1 } else { len };
    let room = if line_len - (col - 1) < 1 { 1 } else { line_len - (col - 1) };
    if want < room { want } else { room }
}

impl DiagnosticV {
    /// The rendering of this diagnostic against the source `b`.
    pub open spec fn rendered(self, b: Seq<u8>) -> Seq<char> {
        let off = clamped(b, self.span.start);
        let ls = line_start_of(b, off);
        let le = line_end_of(b, ls);
        let line = dec(newlines(b, off) + 1);
        let col = off - ls + 1;
        self.severity.name() + "["@ + self.code + "]: "@ + self.message + "\n  --> "@ + line + ":"@
            + dec(col as nat) + "\n   |\n"@ + pad_left(line, 3) + "| "@ + decode_utf8(
            b.subrange(ls, le),
        ) + "\n   | "@ + repeated(' ', (col - 1) as nat) + repeated(
            '^',
            caret_count(self.span.end - self.span.start, le - ls, col) as nat,
        )
    }

    /// The one-line form of this diagnostic, without the source.
    pub open spec fn listed(self) -> Seq<char> {
        self.severity.name() + "["@ + self.code + "]: "@ + self.message + " @ "@ + dec(
            self.span.start as nat,
        ) + ".."@ + dec(self.span.end as nat)
    }
}

impl Diagnostic {
    pub fn error(code: &'static str, message: String, span: Span) -> (r: Self)
        ensures
            r@ == error_at(code@, message@, span),
    {
        Diagnostic { severity: Severity::Error, code, message, span }
    }

    pub fn warning(code: &'static str, message: String, span: Span) -> (r: Self)
        ensures
            r@ == (DiagnosticV {
                severity: Severity::Warning,
                code: code@,
                message: message@,
                span,
            }),
    {
        Diagnostic { severity: Severity::Warning, code, message, span }
    }

    /// Render this diagnostic against the source, resolving the span to a 1-based
    /// line/column and showing the offending line with a caret underline.
    pub fn render(&self, src: &str) -> (r: String)
        requires
            self.span.start <= self.span.end,
        ensures
            r@ == self@.rendered(src.spec_bytes()),
    {
        let (line, col, line_text) = locate(src, self.span.start);
        let line_len: usize = line_text.len();
        let ghost b = src.spec_bytes();
        let span_len: usize = self.span.len();
        let want: usize = if span_len < 1 { 1 } else { span_len };
        let pad: usize = (col - 1) as usize;
        let left: usize = if line_len > pad { line_len - pad } else { 0 };
        let room: usize = if left < 1 { 1 } else { left };
        let carets: usize = if want < room { want } else { room };
        let line_no = dec_string(line);
        let mut s = self.severity.as_str().to_owned();
        s.append("[");
        s.append(self.code);
        s.append("]: ");
        s.append(self.message.as_str());
        s.append("\n  --> ");
        s.append(line_no.as_str());
        s.append(":");
        s.append(dec_string(col).as_str());
        s.append("\n   |\n");
        s.append(padded_left(line_no.as_str(), 3).as_str());
        s.append("| ");
        s.append(line_text);
        s.append("\n   | ");
        s.append(repeat_char(' ', pad).as_str());
        s.append(repeat_char('^', carets).as_str());
        s
    }

    /// The one-line form of this diagnostic, without the source.
    pub fn list(&self) -> (r: String)
        ensures
            r@ == self@.listed(),
    {
        let mut s = self.severity.as_str().to_owned();
        s.append("[");
        s.append(self.code);
        s.append("]: ");
        s.append(self.message.as_str());
        s.append(" @ ");
        s.append(dec_string(self.span.start as u64).as_str());
        s.append("..");
        s.append(dec_string(self.span.end as u64).as_str());
        s
    }
}

/// A line starts at the beginning of input or right after a line feed, at or before `off`.
proof fn lemma_line_start(b: Seq<u8>, off: int)
    requires
        0 <= off <= b.len(),
    ensures
        0 <= line_start_of(b, off) <= off,
        line_start_of(b, off) == 0 || b[line_start_of(b, off) - 1] == 10,
        newlines(b, off) <= off,
    decreases off,
{
    if off > 0 {
        lemma_line_start(b, off - 1);
    }
}

/// A line ends at or after its start.
proof fn lemma_line_end(b: Seq<u8>, off: int)
    requires
        0 <= off <= b.len(),
    ensures
        off <= line_end_of(b, off) <= b.len(),
        line_end_of(b, off) == b.len() || b[line_end_of(b, off)] == 10,
        forall|k: int| off <= k < line_end_of(b, off) ==> b[k] != 10,
    decreases b.len() - off,
{
    if off < b.len() && b[off] != 10 {
        lemma_line_end(b, off + 1);
    }
}

/// Resolve a byte offset to a 1-based `(line, column)` and the text of that line.
fn locate(src: &str, offset: u32) -> (r: (u64, u64, &str))
    ensures
        ({
            let b = src.spec_bytes();
            let off = clamped(b, offset);
            let ls = line_start_of(b, off);
            let le = line_end_of(b, ls);
            &&& r.0 == newlines(b, off) + 1
            &&& r.1 == off - ls + 1
            &&& 0 <= ls <= off
            &&& r.2@ == decode_utf8(b.subrange(ls, le))
            &&& r.2.spec_bytes() == b.subrange(ls, le)
            &&& ls <= le <= b.len() <= usize::MAX
        }),
{
    let bytes = src.as_bytes();
    let n: usize = bytes.len();
    let off: usize = if (offset as usize) < n { offset as usize } else { n };
    let ghost b = src.spec_bytes();
    let mut line_start: usize = 0;
    let mut line: u64 = 1;
    let mut i: usize = 0;
    while i < off
        invariant
            bytes@ == b,
            i <= off <= b.len(),
            off <= u32::MAX,
            line == newlines(b, i as int) + 1,
            line <= i + 1,
            line_start == line_start_of(b, i as int),
            line_start <= i,
        decreases off - i,
    {
        if bytes[i] == 10 {
            line += 1;
            line_start = i + 1;
        }
        i += 1;
    }
    proof {
        lemma_line_start(b, off as int);
        lemma_line_end(b, line_start as int);
        vstd::utf8::encode_utf8_valid_utf8(src@);
        vstd::utf8::is_char_boundary_start_end_of_seq(b);
        if line_start > 0 {
            lemma_boundary_after_ascii(b, line_start - 1);
        }
    }
    let mut line_end: usize = line_start;
    while line_end < n && bytes[line_end] != 10
        invariant
            bytes@ == b,
            n == b.len(),
            line_start <= line_end <= n,
            line_end_of(b, line_end as int) == line_end_of(b, line_start as int),
        decreases n - line_end,
    {
        line_end += 1;
    }
    proof {
        if line_end < n {
            vstd::utf8::is_char_boundary_iff_is_leading_byte(b, line_end as int);
            assert(vstd::utf8::is_leading_byte_width_1(b[line_end as int]));
        }
    }
    let text = str_slice(src, line_start, line_end);
    (line, (off - line_start) as u64 + 1, text)
}

/// A batch of diagnostics; the error type returned by fallible pipeline stages.
///
/// An `Err(Diagnostics)` always contains at least one [`Severity::Error`].
#[derive(Clone, Debug)]
pub struct Diagnostics(pub Vec<Diagnostic>);

/// What a list of diagnostics says, in order.
pub open spec fn diags_v(d: Seq<Diagnostic>) -> Seq<DiagnosticV> {
    d.map_values(|x: Diagnostic| x@)
}

impl View for Diagnostics {
    type V = Seq<DiagnosticV>;

    open spec fn view(&self) -> Seq<DiagnosticV> {
        diags_v(self.0@)
    }
}

/// Whether a list of diagnostics holds an error.
pub open spec fn any_error(d: Seq<DiagnosticV>) -> bool {
    exists|i: int| 0 <= i < d.len() && (#[trigger] d[i]).severity == Severity::Error
}

/// The renderings of the first `n` diagnostics, separated by blank lines.
pub open spec fn rendered_all(d: Seq<DiagnosticV>, n: int, b: Seq<u8>) -> Seq<char>
    decreases n,
{
    if n <= 0 {
        Seq::empty()
    } else if n == 1 {
        d[0].rendered(b)
    } else {
        rendered_all(d, n - 1, b) + "\n\n"@ + d[n - 1].rendered(b)
    }
}

/// The one-line forms of the first `n` diagnostics, one per line.
pub open spec fn listed_all(d: Seq<DiagnosticV>, n: int) -> Seq<char>
    decreases n,
{
    if n <= 0 {
        Seq::empty()
    } else if n == 1 {
        d[0].listed()
    } else {
        listed_all(d, n - 1) + "\n"@ + d[n - 1].listed()
    }
}

impl Diagnostics {
    pub fn new() -> (r: Self)
        ensures
            r@ == Seq::<DiagnosticV>::empty(),
    {
        let r = Diagnostics(Vec::new());
        assert(r@ =~= Seq::<DiagnosticV>::empty());
        r
    }

    pub fn push(&mut self, d: Diagnostic)
        ensures
            final(self)@ == old(self)@.push(d@),
    {
        self.0.push(d);
        assert(self@ =~= old(self)@.push(d@));
    }

    pub fn is_empty(&self) -> (r: bool)
        ensures
            r == (self@.len() == 0),
    {
        self.0.len() == 0
    }

    pub fn has_errors(&self) -> (r: bool)
        ensures
            r == any_error(self@),
    {
        let mut i: usize = 0;
        while i < self.0.len()
            invariant
                i <= self.0.len(),
                forall|k: int| 0 <= k < i ==> (#[trigger] self@[k]).severity != Severity::Error,
            decreases self.0.len() - i,
        {
            if self.0[i].severity == Severity::Error {
                assert(self@[i as int].severity == Severity::Error);
                return true;
            }
            i += 1;
        }
        false
    }

    /// Walk the diagnostics in order.
    pub fn iter(&self) -> (r: std::slice::Iter<'_, Diagnostic>)
        ensures
            vstd::std_specs::slice::into_iter_elts(r) == self.0@,
    {
        let s = self.0.as_slice();
        let r = s.iter();
        proof {
            broadcast use vstd::std_specs::slice::axiom_spec_slice_iter;
        }
        assert(vstd::std_specs::slice::into_iter_elts(r) =~= self.0@);
        r
    }

    /// Render every diagnostic against the source, one per stanza.
    pub fn render(&self, src: &str) -> (r: String)
        requires
            forall|i: int|
                0 <= i < self@.len() ==> (#[trigger] self@[i]).span.start <= self@[i].span.end,
        ensures
            r@ == rendered_all(self@, self@.len() as int, src.spec_bytes()),
    {
        let mut s = String::new();
        let mut i: usize = 0;
        while i < self.0.len()
            invariant
                i <= self.0.len(),
                forall|k: int|
                    0 <= k < self@.len() ==> (#[trigger] self@[k]).span.start <= self@[k].span.end,
                s@ == rendered_all(self@, i as int, src.spec_bytes()),
            decreases self.0.len() - i,
        {
            if i > 0 {
                s.append("\n\n");
            }
            assert(self@[i as int].span.start <= self@[i as int].span.end);
            let one = self.0[i].render(src);
            let ghost before = s@;
            s.append(one.as_str());
            assert(i == 0 ==> before + one@ =~= one@);
            i += 1;
        }
        s
    }

    /// Every diagnostic in its one-line form, one per line.
    pub fn list(&self) -> (r: String)
        ensures
            r@ == listed_all(self@, self@.len() as int),
    {
        let mut s = String::new();
        let mut i: usize = 0;
        while i < self.0.len()
            invariant
                i <= self.0.len(),
                s@ == listed_all(self@, i as int),
            decreases self.0.len() - i,
        {
            if i > 0 {
                s.append("\n");
            }
            let one = self.0[i].list();
            let ghost before = s@;
            s.append(one.as_str());
            assert(i == 0 ==> before + one@ =~= one@);
            i += 1;
        }
        s
    }
}

impl Default for Diagnostics {
    fn default() -> (r: Self)
        ensures
            r@ == Seq::<DiagnosticV>::empty(),
    {
        Diagnostics::new()
    }
}

impl Diagnostics {
    /// The batch that holds `d` alone.
    pub fn one(d: Diagnostic) -> (r: Self)
        ensures
            r@ == seq![d@],
    {
        let mut r = Diagnostics::new();
        r.push(d);
        assert(r@ =~= seq![d@]);
        r
    }
}

} // verus!
