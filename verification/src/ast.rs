//! Abstract syntax tree for Grindlang.
//!
//! Expressions and statements carry their [`Span`] in a single `span` field next to a
//! `*Kind` enum so spans are uniform and matching stays ergonomic. Smaller nodes use the
//! [`Spanned`] wrapper.
//!
//! Each node type has a mathematical counterpart with the suffix `V`, in which text is a
//! sequence of characters and lists are sequences; `view` maps a node to it.
use vstd::prelude::*;
use crate::diagnostics::Span;
use crate::numeral::{Numeral, NumeralV};

verus! {

/// A value paired with the source span it came from.
#[derive(Clone, Debug, PartialEq)]
pub struct Spanned<T> {
    pub node: T,
    pub span: Span,
}

impl<T> Spanned<T> {
    pub fn new(node: T, span: Span) -> (r: Self)
        ensures
            r.node == node,
            r.span == span,
    {
        Spanned { node, span }
    }
}

/// An identifier occurrence.
pub type Ident = Spanned<String>;

/// A whole script: a list of export declarations and an optional curated export table
/// (`return { ... }`).
#[derive(Debug, PartialEq)]
pub struct Module {
    pub decls: Vec<TopDecl>,
    /// Fields of the trailing `return { ... }`, if present.
    pub export: Option<Spanned<Vec<Field>>>,
    pub span: Span,
}

/// A top-level declaration: an exported function or an exported constant.
#[derive(Debug, PartialEq)]
pub enum TopDecl {
    Function(FuncDecl),
    Const(ConstDecl),
}

#[derive(Debug, PartialEq)]
pub struct FuncDecl {
    pub name: Ident,
    pub body: FuncBody,
    pub span: Span,
}

#[derive(Debug, PartialEq)]
pub struct ConstDecl {
    pub name: Ident,
    /// Parsed as a general expression; the resolver checks that it is constant.
    pub value: Expr,
    pub span: Span,
}

#[derive(Debug, PartialEq)]
pub struct FuncBody {
    pub params: Vec<Ident>,
    pub block: Block,
    pub span: Span,
}

/// A sequence of statements with an optional terminating `return`.
#[derive(Debug, PartialEq)]
pub struct Block {
    pub stats: Vec<Stat>,
    pub ret: Option<RetStat>,
    pub span: Span,
}

#[derive(Debug, PartialEq)]
pub struct RetStat {
    pub exprs: Vec<Expr>,
    pub span: Span,
}

#[derive(Debug, PartialEq)]
pub struct Stat {
    pub kind: StatKind,
    pub span: Span,
}

#[derive(Debug, PartialEq)]
pub enum StatKind {
    /// A lone `;`.
    Empty,
    /// `local a, b = e1, e2` (the init list may be empty).
    Local { names: Vec<Ident>, exprs: Vec<Expr> },
    /// `local function f(...) ... end`.
    LocalFunction { name: Ident, body: FuncBody },
    /// `a, b.c, d[e] = e1, e2`. Targets are assignable expressions.
    Assign { targets: Vec<Expr>, exprs: Vec<Expr> },
    /// An expression statement; always a call expression.
    Call(Expr),
    /// `do ... end`.
    Do(Block),
    /// `while cond do ... end`.
    While { cond: Expr, body: Block },
    /// `if c1 then b1 elseif c2 then b2 ... else be end`.
    If { arms: Vec<(Expr, Block)>, else_block: Option<Block> },
    /// `for v = start, end[, step] do ... end`.
    NumericFor { var: Ident, start: Expr, end: Expr, step: Option<Expr>, body: Block },
    /// `for names in ipairs(e)/pairs(e) do ... end`.
    GenericFor { names: Vec<Ident>, iter: IterExpr, body: Block },
    /// `break`.
    Break,
}

/// The restricted iterator forms permitted in a generic `for`.
#[derive(Debug, PartialEq)]
pub enum IterExpr {
    IPairs { arg: Expr, span: Span },
    Pairs { arg: Expr, span: Span },
}

#[derive(Debug, PartialEq)]
pub struct Expr {
    pub kind: ExprKind,
    pub span: Span,
}

#[derive(Debug, PartialEq)]
pub enum ExprKind {
    Nil,
    Bool(bool),
    Number(Numeral),
    Str(String),
    /// Anonymous function `function(...) ... end` (in-body only).
    Function(FuncBody),
    /// A bare name reference.
    Name(String),
    /// `base[index]`.
    Index { base: Box<Expr>, index: Box<Expr> },
    /// `base.name`.
    Field { base: Box<Expr>, name: Ident },
    /// `callee(args)`.
    Call { callee: Box<Expr>, args: Vec<Expr> },
    /// `receiver:method(args)` (host userdata only).
    MethodCall { receiver: Box<Expr>, method: Ident, args: Vec<Expr> },
    /// `{ ... }`.
    Table(Vec<Field>),
    Binary { op: BinOp, lhs: Box<Expr>, rhs: Box<Expr> },
    Unary { op: UnOp, operand: Box<Expr> },
    /// `( e )`, preserved so that later phases can see the parentheses.
    Paren(Box<Expr>),
}

/// A field inside a table constructor.
#[derive(Debug, PartialEq)]
pub enum Field {
    /// `expr`: positional (array element).
    Positional(Expr),
    /// `name = expr`: record field.
    Named { name: Ident, value: Expr },
    /// `[key] = expr`: computed or string-keyed entry.
    Keyed { key: Expr, value: Expr },
}

#[derive(Clone, Copy, Debug, PartialEq, Eq, Structural)]
pub enum BinOp {
    Add,
    Sub,
    Mul,
    Div,
    FloorDiv,
    Mod,
    Pow,
    Concat,
    Eq,
    Ne,
    Lt,
    Le,
    Gt,
    Ge,
    And,
    Or,
}

impl BinOp {
    /// The spelling of this operator.
    pub open spec fn spelling(self) -> Seq<char> {
        match self {
            BinOp::Add => "+"@,
            BinOp::Sub => "-"@,
            BinOp::Mul => "*"@,
            BinOp::Div => "/"@,
            BinOp::FloorDiv => "//"@,
            BinOp::Mod => "%"@,
            BinOp::Pow => "^"@,
            BinOp::Concat => ".."@,
            BinOp::Eq => "=="@,
            BinOp::Ne => "~="@,
            BinOp::Lt => "<"@,
            BinOp::Le => "<="@,
            BinOp::Gt => ">"@,
            BinOp::Ge => ">="@,
            BinOp::And => "and"@,
            BinOp::Or => "or"@,
        }
    }

    pub fn symbol(self) -> (r: &'static str)
        ensures
            r@ == self.spelling(),
    {
        match self {
            BinOp::Add => "+",
            BinOp::Sub => "-",
            BinOp::Mul => "*",
            BinOp::Div => "/",
            BinOp::FloorDiv => "//",
            BinOp::Mod => "%",
            BinOp::Pow => "^",
            BinOp::Concat => "..",
            BinOp::Eq => "==",
            BinOp::Ne => "~=",
            BinOp::Lt => "<",
            BinOp::Le => "<=",
            BinOp::Gt => ">",
            BinOp::Ge => ">=",
            BinOp::And => "and",
            BinOp::Or => "or",
        }
    }
}

#[derive(Clone, Copy, Debug, PartialEq, Eq, Structural)]
pub enum UnOp {
    /// `-`
    Neg,
    /// `not`
    Not,
    /// `#`
    Len,
}

impl UnOp {
    /// The spelling of this operator.
    pub open spec fn spelling(self) -> Seq<char> {
        match self {
            UnOp::Neg => "-"@,
            UnOp::Not => "not"@,
            UnOp::Len => "#"@,
        }
    }

    pub fn symbol(self) -> (r: &'static str)
        ensures
            r@ == self.spelling(),
    {
        match self {
            UnOp::Neg => "-",
            UnOp::Not => "not",
            UnOp::Len => "#",
        }
    }
}

pub ghost struct IdentV {
    pub node: Seq<char>,
    pub span: Span,
}

pub ghost struct ModuleV {
    pub decls: Seq<TopDeclV>,
    pub export: Option<ExportV>,
    pub span: Span,
}

pub ghost struct ExportV {
    pub node: Seq<FieldV>,
    pub span: Span,
}

pub ghost enum TopDeclV {
    Function(FuncDeclV),
    Const(ConstDeclV),
}

pub ghost struct FuncDeclV {
    pub name: IdentV,
    pub body: FuncBodyV,
    pub span: Span,
}

pub ghost struct ConstDeclV {
    pub name: IdentV,
    pub value: ExprV,
    pub span: Span,
}

pub ghost struct FuncBodyV {
    pub params: Seq<IdentV>,
    pub block: BlockV,
    pub span: Span,
}

pub ghost struct BlockV {
    pub stats: Seq<StatV>,
    pub ret: Option<RetStatV>,
    pub span: Span,
}

pub ghost struct RetStatV {
    pub exprs: Seq<ExprV>,
    pub span: Span,
}

pub ghost struct StatV {
    pub kind: StatKindV,
    pub span: Span,
}

pub ghost enum StatKindV {
    Empty,
    Local { names: Seq<IdentV>, exprs: Seq<ExprV> },
    LocalFunction { name: IdentV, body: FuncBodyV },
    Assign { targets: Seq<ExprV>, exprs: Seq<ExprV> },
    Call(ExprV),
    Do(BlockV),
    While { cond: ExprV, body: BlockV },
    If { arms: Seq<(ExprV, BlockV)>, else_block: Option<BlockV> },
    NumericFor { var: IdentV, start: ExprV, end: ExprV, step: Option<ExprV>, body: BlockV },
    GenericFor { names: Seq<IdentV>, iter: IterExprV, body: BlockV },
    Break,
}

pub ghost enum IterExprV {
    IPairs { arg: ExprV, span: Span },
    Pairs { arg: ExprV, span: Span },
}

pub ghost struct ExprV {
    pub kind: ExprKindV,
    pub span: Span,
}

pub ghost enum ExprKindV {
    Nil,
    Bool(bool),
    Number(NumeralV),
    Str(Seq<char>),
    Function(FuncBodyV),
    Name(Seq<char>),
    Index { base: Box<ExprV>, index: Box<ExprV> },
    Field { base: Box<ExprV>, name: IdentV },
    Call { callee: Box<ExprV>, args: Seq<ExprV> },
    MethodCall { receiver: Box<ExprV>, method: IdentV, args: Seq<ExprV> },
    Table(Seq<FieldV>),
    Binary { op: BinOp, lhs: Box<ExprV>, rhs: Box<ExprV> },
    Unary { op: UnOp, operand: Box<ExprV> },
    Paren(Box<ExprV>),
}

pub ghost enum FieldV {
    Positional(ExprV),
    Named { name: IdentV, value: ExprV },
    Keyed { key: ExprV, value: ExprV },
}

impl View for Spanned<String> {
    type V = IdentV;

    open spec fn view(&self) -> IdentV {
        IdentV { node: self.node@, span: self.span }
    }
}

/// The counterparts of a list of identifiers.
pub open spec fn idents_v(v: Seq<Ident>) -> Seq<IdentV> {
    Seq::new(v.len(), |i: int| v[i]@)
}

/// The counterparts of a list of expressions.
pub open spec fn exprs_v(v: Seq<Expr>) -> Seq<ExprV>
    decreases v,
{
    Seq::new(
        v.len(),
        |i: int|
            if 0 <= i < v.len() {
                v[i].view()
            } else {
                arbitrary()
            },
    )
}

/// The counterparts of a list of table fields.
pub open spec fn fields_v(v: Seq<Field>) -> Seq<FieldV>
    decreases v,
{
    Seq::new(
        v.len(),
        |i: int|
            if 0 <= i < v.len() {
                v[i].view()
            } else {
                arbitrary()
            },
    )
}

/// The counterparts of a list of statements.
pub open spec fn stats_v(v: Seq<Stat>) -> Seq<StatV>
    decreases v,
{
    Seq::new(
        v.len(),
        |i: int|
            if 0 <= i < v.len() {
                v[i].view()
            } else {
                arbitrary()
            },
    )
}

/// The counterparts of the arms of a conditional.
pub open spec fn arms_v(v: Seq<(Expr, Block)>) -> Seq<(ExprV, BlockV)>
    decreases v,
{
    Seq::new(
        v.len(),
        |i: int|
            if 0 <= i < v.len() {
                (v[i].0.view(), v[i].1.view())
            } else {
                arbitrary()
            },
    )
}

/// The counterparts of a list of declarations.
pub open spec fn decls_v(v: Seq<TopDecl>) -> Seq<TopDeclV> {
    Seq::new(v.len(), |i: int| v[i].view())
}

impl Expr {
    pub open spec fn view(&self) -> ExprV
        decreases self,
    {
        ExprV { kind: self.kind.view(), span: self.span }
    }
}

impl ExprKind {
    pub open spec fn view(&self) -> ExprKindV
        decreases self,
    {
        match self {
            ExprKind::Nil => ExprKindV::Nil,
            ExprKind::Bool(b) => ExprKindV::Bool(*b),
            ExprKind::Number(n) => ExprKindV::Number(n@),
            ExprKind::Str(s) => ExprKindV::Str(s@),
            ExprKind::Function(f) => ExprKindV::Function(f.view()),
            ExprKind::Name(n) => ExprKindV::Name(n@),
            ExprKind::Index { base, index } => ExprKindV::Index {
                base: Box::new(base.view()),
                index: Box::new(index.view()),
            },
            ExprKind::Field { base, name } => ExprKindV::Field {
                base: Box::new(base.view()),
                name: name@,
            },
            ExprKind::Call { callee, args } => ExprKindV::Call {
                callee: Box::new(callee.view()),
                args: exprs_v(args@),
            },
            ExprKind::MethodCall { receiver, method, args } => ExprKindV::MethodCall {
                receiver: Box::new(receiver.view()),
                method: method@,
                args: exprs_v(args@),
            },
            ExprKind::Table(fields) => ExprKindV::Table(fields_v(fields@)),
            ExprKind::Binary { op, lhs, rhs } => ExprKindV::Binary {
                op: *op,
                lhs: Box::new(lhs.view()),
                rhs: Box::new(rhs.view()),
            },
            ExprKind::Unary { op, operand } => ExprKindV::Unary {
                op: *op,
                operand: Box::new(operand.view()),
            },
            ExprKind::Paren(e) => ExprKindV::Paren(Box::new(e.view())),
        }
    }
}

impl Field {
    pub open spec fn view(&self) -> FieldV
        decreases self,
    {
        match self {
            Field::Positional(e) => FieldV::Positional(e.view()),
            Field::Named { name, value } => FieldV::Named { name: name@, value: value.view() },
            Field::Keyed { key, value } => FieldV::Keyed { key: key.view(), value: value.view() },
        }
    }
}

impl FuncBody {
    pub open spec fn view(&self) -> FuncBodyV
        decreases self,
    {
        FuncBodyV {
            params: idents_v(self.params@),
            block: self.block.view(),
            span: self.span,
        }
    }
}

impl RetStat {
    pub open spec fn view(&self) -> RetStatV
        decreases self,
    {
        RetStatV { exprs: exprs_v(self.exprs@), span: self.span }
    }
}

impl Block {
    pub open spec fn view(&self) -> BlockV
        decreases self,
    {
        BlockV {
            stats: stats_v(self.stats@),
            ret: match self.ret {
                Some(r) => Some(r.view()),
                None => None,
            },
            span: self.span,
        }
    }
}

impl IterExpr {
    pub open spec fn view(&self) -> IterExprV
        decreases self,
    {
        match self {
            IterExpr::IPairs { arg, span } => IterExprV::IPairs { arg: arg.view(), span: *span },
            IterExpr::Pairs { arg, span } => IterExprV::Pairs { arg: arg.view(), span: *span },
        }
    }
}

impl Stat {
    pub open spec fn view(&self) -> StatV
        decreases self,
    {
        StatV { kind: self.kind.view(), span: self.span }
    }
}

impl StatKind {
    pub open spec fn view(&self) -> StatKindV
        decreases self,
    {
        match self {
            StatKind::Empty => StatKindV::Empty,
            StatKind::Local { names, exprs } => StatKindV::Local {
                names: idents_v(names@),
                exprs: exprs_v(exprs@),
            },
            StatKind::LocalFunction { name, body } => StatKindV::LocalFunction {
                name: name@,
                body: body.view(),
            },
            StatKind::Assign { targets, exprs } => StatKindV::Assign {
                targets: exprs_v(targets@),
                exprs: exprs_v(exprs@),
            },
            StatKind::Call(e) => StatKindV::Call(e.view()),
            StatKind::Do(b) => StatKindV::Do(b.view()),
            StatKind::While { cond, body } => StatKindV::While {
                cond: cond.view(),
                body: body.view(),
            },
            StatKind::If { arms, else_block } => StatKindV::If {
                arms: arms_v(arms@),
                else_block: match else_block {
                    Some(b) => Some(b.view()),
                    None => None,
                },
            },
            StatKind::NumericFor { var, start, end, step, body } => StatKindV::NumericFor {
                var: var@,
                start: start.view(),
                end: end.view(),
                step: match step {
                    Some(s) => Some(s.view()),
                    None => None,
                },
                body: body.view(),
            },
            StatKind::GenericFor { names, iter, body } => StatKindV::GenericFor {
                names: idents_v(names@),
                iter: iter.view(),
                body: body.view(),
            },
            StatKind::Break => StatKindV::Break,
        }
    }
}

impl FuncDecl {
    pub open spec fn view(&self) -> FuncDeclV {
        FuncDeclV { name: self.name@, body: self.body.view(), span: self.span }
    }
}

impl ConstDecl {
    pub open spec fn view(&self) -> ConstDeclV {
        ConstDeclV { name: self.name@, value: self.value.view(), span: self.span }
    }
}

impl TopDecl {
    pub open spec fn view(&self) -> TopDeclV {
        match self {
            TopDecl::Function(f) => TopDeclV::Function(f.view()),
            TopDecl::Const(c) => TopDeclV::Const(c.view()),
        }
    }
}

impl Module {
    pub open spec fn view(&self) -> ModuleV {
        ModuleV {
            decls: decls_v(self.decls@),
            export: match self.export {
                Some(e) => Some(ExportV { node: fields_v(e.node@), span: e.span }),
                None => None,
            },
            span: self.span,
        }
    }
}

} // verus!
