//! Front end of a small call language: spanned parsing of `name = call(args)`
//! statements, a validated registry of builtins and argument binding.

pub mod ast;
pub mod builtins;
pub mod chars;
pub mod chart;
pub mod error;
pub mod grammar;
pub mod interpreter;
pub mod lexer;
pub mod parser;
pub mod reader;
pub mod span;
pub mod value;

pub use error::Error;
pub use span::{Location, Span};
pub use reader::{SpanningRead, SpanningReader};

use vstd::prelude::*;

verus! {

/// Parses a whole program: statements `variable = call(args)` or
/// `call(args)`, separated by whitespace.
pub fn parse_str(input: &str) -> (r: Result<ast::ProgramNode, Error>)
    requires
        reader::fits_locations(input@),
    ensures
        parser::program_result(input@, r),
{
    let mut p = parser::Parser::new(SpanningReader::new(input));
    p.parse_program()
}

} // verus!
