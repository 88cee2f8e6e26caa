//! Grindlang: a small statically typed language with Lua's surface syntax, a constrained
//! subset of it, for embedding calculations and decisions in a host.
//!
//! A script is not a standalone program: it evaluates to a module table of exported functions
//! and constants. The host compiles it once and calls its exports many times; state persists
//! between calls only through memory that the host provides.
//!
//! The front end is [`parse`] (lexer and parser), [`check`] (and names), [`analyze`] (and
//! types) and [`compile`] (and the intermediate representation). What a module means is what
//! [`interp`] does with it; [`ir::vm`] executes the intermediate representation, and
//! [`codegen`] decides what native code it becomes.
//!
//! Nothing here computes with floating-point numbers: a number is its bit pattern, and what
//! rounds is asked of the host, as its functions are.
use vstd::prelude::*;
use vstd::string::StringSliceAdditionalSpecFns;

pub mod accepted;
pub mod agreement;
pub mod annotations;
pub mod api;
pub mod ast;
pub mod capture;
pub mod check;
pub mod cli;
pub mod codegen;
pub mod diagnostics;
pub mod grammar;
pub mod interp;
pub mod ir;
pub mod lexer;
pub mod loops;
pub mod names;
pub mod number;
pub mod numeral;
pub mod operands;
pub mod parser;
pub mod places;
pub mod problems;
pub mod resolve;
pub mod runtime;
pub mod spanmap;
pub mod spelling;
pub mod text;
pub mod types;
pub mod unification;
pub mod uses;
pub mod value;

pub use crate::ast::Module;
pub use crate::check::TypeInfo;
pub use crate::diagnostics::{Diagnostic, Diagnostics, Severity, Span};
pub use crate::interp::Interpreter;
pub use crate::ir::Program;
pub use crate::resolve::{Binding, Resolution, ResolveConfig};
pub use crate::runtime::{Arena, FnAbi, MemorySchema, Repr, Slot};
pub use crate::types::{FnType, Type, TypeConfig};
pub use crate::value::{RunError, Value};

use crate::api::{BuildError, BuildErrorV};
use crate::ast::ModuleV;
use crate::check::{typecheck, typecheck_of, TypeInfoV};
use crate::diagnostics::DiagnosticV;
use crate::grammar::parse_of;
use crate::ir::lower::{lower, lower_of};
use crate::ir::{program_error, program_ok, verify, ProgramV};
use crate::lexer::{law_lex_result, lex, lex_of};
use crate::resolve::{resolve, resolve_of, ResolutionV, ResolveConfigV};
use crate::types::TypeConfigV;

verus! {

/// What a source text parses to.
pub open spec fn parsed_of(src: Seq<u8>) -> Result<ModuleV, Seq<DiagnosticV>> {
    match lex_of(src) {
        Err(d) => Err(d),
        Ok(tokens) => match parse_of(tokens) {
            Ok(m) => Ok(m),
            Err(d) => Err(seq![d]),
        },
    }
}

/// What a source text parses and resolves to.
pub open spec fn checked_of(src: Seq<u8>, cfg: ResolveConfigV) -> Result<
    (ModuleV, ResolutionV),
    Seq<DiagnosticV>,
> {
    match parsed_of(src) {
        Err(d) => Err(d),
        Ok(m) => match resolve_of(m, cfg) {
            Err(d) => Err(d),
            Ok(r) => Ok((m, r)),
        },
    }
}

/// What a source text parses, resolves and type-checks to.
pub open spec fn analyzed_of(src: Seq<u8>, cfg: TypeConfigV) -> Result<
    (ModuleV, ResolutionV, TypeInfoV),
    Seq<DiagnosticV>,
> {
    match checked_of(src, cfg.names()) {
        Err(d) => Err(d),
        Ok((m, r)) => match typecheck_of(m, r, cfg) {
            Err(d) => Err(d),
            Ok(t) => Ok((m, r, t)),
        },
    }
}

/// What a source text compiles to.
pub open spec fn compiled_of(src: Seq<u8>, cfg: TypeConfigV) -> Result<ProgramV, BuildErrorV> {
    match analyzed_of(src, cfg) {
        Err(d) => Err(BuildErrorV::Check(d)),
        Ok((m, r, t)) => match lower_of(m, r, t, cfg) {
            Err(e) => Err(BuildErrorV::Lower(e)),
            Ok(p) => match program_error(p) {
                Some(e) => Err(BuildErrorV::Lower(e)),
                None => Ok(p),
            },
        },
    }
}

/// Lex and parse a source text. Returns every diagnostic if lexing or parsing failed.
pub fn parse(src: &str) -> (r: Result<Module, Diagnostics>)
    ensures
        match r {
            Ok(m) => parsed_of(src.spec_bytes()) == Ok::<ModuleV, Seq<DiagnosticV>>(m@),
            Err(d) => parsed_of(src.spec_bytes()) == Err::<ModuleV, Seq<DiagnosticV>>(d@),
        },
{
    proof {
        law_lex_result(src.spec_bytes());
    }
    match lex(src) {
        Err(d) => Err(d),
        Ok(tokens) => match parser::parse(tokens) {
            Ok(m) => Ok(m),
            Err(d) => {
                assert(d@ =~= seq![d@[0]]);
                Err(d)
            },
        },
    }
}

/// Parse a source text and resolve its names against host configuration `cfg`.
pub fn check(src: &str, cfg: &ResolveConfig) -> (r: Result<(Module, Resolution), Diagnostics>)
    ensures
        match r {
            Ok((m, x)) => checked_of(src.spec_bytes(), cfg@) == Ok::<
                (ModuleV, ResolutionV),
                Seq<DiagnosticV>,
            >((m@, x@)),
            Err(d) => checked_of(src.spec_bytes(), cfg@) == Err::<
                (ModuleV, ResolutionV),
                Seq<DiagnosticV>,
            >(d@),
        },
{
    match parse(src) {
        Err(d) => Err(d),
        Ok(m) => match resolve(&m, cfg) {
            Err(d) => Err(d),
            Ok(x) => Ok((m, x)),
        },
    }
}

/// Parse, resolve and type-check a source text against host configuration `cfg`.
pub fn analyze(src: &str, cfg: &TypeConfig) -> (r: Result<
    (Module, Resolution, TypeInfo),
    Diagnostics,
>)
    ensures
        match r {
            Ok((m, x, t)) => analyzed_of(src.spec_bytes(), cfg@) == Ok::<
                (ModuleV, ResolutionV, TypeInfoV),
                Seq<DiagnosticV>,
            >((m@, x@, t@)),
            Err(d) => analyzed_of(src.spec_bytes(), cfg@) == Err::<
                (ModuleV, ResolutionV, TypeInfoV),
                Seq<DiagnosticV>,
            >(d@),
        },
{
    match check(src, &cfg.to_resolve_config()) {
        Err(d) => Err(d),
        Ok((m, x)) => match typecheck(&m, &x, cfg) {
            Err(d) => Err(d),
            Ok(t) => Ok((m, x, t)),
        },
    }
}

/// Compile a source text to a verified program of the intermediate representation.
pub fn compile(src: &str, cfg: &TypeConfig) -> (r: Result<Program, BuildError>)
    ensures
        match r {
            Ok(p) => compiled_of(src.spec_bytes(), cfg@) == Ok::<ProgramV, BuildErrorV>(p@)
                && program_ok(p@),
            Err(e) => compiled_of(src.spec_bytes(), cfg@) == Err::<ProgramV, BuildErrorV>(e@),
        },
{
    match analyze(src, cfg) {
        Err(d) => Err(BuildError::Check(d)),
        Ok((m, x, t)) => match lower(&m, &x, &t, cfg) {
            Err(e) => Err(BuildError::Lower(e)),
            Ok(p) => match verify(&p) {
                Err(e) => Err(BuildError::Lower(e)),
                Ok(_) => Ok(p),
            },
        },
    }
}

} // verus!
