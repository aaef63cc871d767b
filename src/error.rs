use vstd::prelude::*;

pub mod canonicalize;
pub mod syntax;

verus! {

/// Why a compilation failed: either the text did not parse, or the parsed
/// module did not canonicalize. Never both.
#[derive(Debug, Clone)]
pub enum Error {
    BadSyntax(Vec<syntax::Error>),
    BadCanonicalization(Vec<canonicalize::Error>),
}

} // verus!
