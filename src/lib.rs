//! A compiler front end for the beach language: source text is split into symbols, parsed
//! into a program, closed over its imports, and lowered to a form that code generators take.
//! Around that core stand an AArch64 instruction encoder, a Mach-O header codec and the
//! assembly pieces of the platforms that the compiler targets.

use vstd::prelude::*;

pub mod utils;
pub mod lst;
pub mod ast_types;
pub mod ast;
pub mod ir;
pub mod generator;
pub mod aarch64;
pub mod mach_o;
pub mod resolver;
pub mod platform;

use crate::lst::{tokenize, symbols_view, LexFault, SyntaxRoot};

verus! {

/// Splits the text of a source file into symbols.
pub fn parse_string_file(file: String) -> (r: Result<SyntaxRoot, LexFault>)
    ensures
        match tokenize(file@, 0) {
            Ok(t) => r is Ok && symbols_view(r->Ok_0.symbols@) == t,
            Err(f) => r == Err::<SyntaxRoot, LexFault>(f),
        },
{
    SyntaxRoot::from_string(file)
}

} // verus!
