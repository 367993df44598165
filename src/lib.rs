//! ASON: a JSON-like data format whose literal values may embed small
//! postfix expressions, evaluated while the document is parsed.
use vstd::prelude::*;

pub mod lexer;
pub mod runtime;
pub mod text;
pub mod token;
pub mod value;
pub mod host;
pub mod environment;
pub mod expr;
pub mod number;
pub mod parser;
pub mod plain;

verus! {

} // verus!
