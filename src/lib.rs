//! A compiler front end for a small interface-definition language of data
//! records, enums and services with inline validation constraints.
//!
//! Source text goes through the lexer, the parser and the canonicalizer;
//! the result is a canonical module that code generators read.
use vstd::prelude::*;

pub mod ast;
pub mod canonicalize;
pub mod error;
pub mod laws;
pub mod lexer;
pub mod parse;
pub mod reporting;
pub mod token;

use crate::ast::canonical as can;
use crate::ast::source::{Module, ModuleView};
use crate::canonicalize::{canonical_module, module_errors, module_ok};
use crate::error::Error;
use crate::parse::parse_spec;

verus! {

/// Parses `source` into a module, or fails with every syntax error.
pub fn parse(filename: Option<String>, source: &str) -> (r: Result<Module, Error>)
    requires
        source@.len() + 2 < usize::MAX,
    ensures
        match r {
            Ok(m) => parse_spec(source@) == Ok::<ModuleView, Seq<error::syntax::Error>>(m@),
            Err(Error::BadSyntax(es)) => parse_spec(source@) == Err::<
                ModuleView,
                Seq<error::syntax::Error>,
            >(es@),
            Err(Error::BadCanonicalization(_)) => false,
        },
{
    match parse::parse(filename, source) {
        Ok(m) => Ok(m),
        Err(es) => Err(Error::BadSyntax(es)),
    }
}

/// Parses and canonicalizes `source`. Canonicalization runs only on a
/// module that parsed; the error holds the syntax errors or the
/// canonicalization errors, never both.
pub fn compile(filename: Option<String>, source: &str) -> (r: Result<can::Module, Error>)
    requires
        source@.len() + 2 < usize::MAX,
    ensures
        match r {
            Ok(m) => parse_spec(source@) matches Ok(mv) && module_ok(
                mv.declarations,
                mv.declarations.len() as int,
            ) && canonical_module(mv.declarations, mv.declarations.len() as int, m),
            Err(Error::BadSyntax(es)) => parse_spec(source@) == Err::<
                ModuleView,
                Seq<error::syntax::Error>,
            >(es@),
            Err(Error::BadCanonicalization(es)) => parse_spec(source@) matches Ok(mv) && !module_ok(
                mv.declarations,
                mv.declarations.len() as int,
            ) && es@ == module_errors(mv.declarations, mv.declarations.len() as int) && es@.len()
                > 0,
        },
{
    let module = match parse(filename, source) {
        Ok(m) => m,
        Err(e) => {
            return Err(e);
        },
    };
    match canonicalize::canonicalize(&module) {
        Ok(m) => Ok(m),
        Err(es) => Err(Error::BadCanonicalization(es)),
    }
}

} // verus!
