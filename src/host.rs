use vstd::prelude::*;

use crate::number::{ArithOp, AsonNumber};

verus! {

/// What evaluation needs from its surroundings: binary64 arithmetic, which
/// the library leaves to the host, and the two effects of the built-ins
/// (writing a line, reading a file). A test host can record or fake them.
pub trait Host {
    /// The bit pattern of the binary64 nearest to a decimal literal made of
    /// digits and exactly one `.`.
    fn float_from_decimal(&mut self, text: &str) -> u64;

    /// `lhs op rhs` in binary64, each operand first converted to binary64;
    /// the result as a bit pattern.
    fn float_arith(&mut self, op: ArithOp, lhs: AsonNumber, rhs: AsonNumber) -> u64;

    /// The decimal text of a binary64 given by its bit pattern.
    fn format_float(&self, bits: u64) -> String;

    /// Writes one line of text to standard output.
    fn write_line(&mut self, line: &str);

    /// The whole content of the file at `path`, or `None` where it cannot be
    /// opened or read.
    fn read_file_to_string(&mut self, path: &str) -> Option<String>;
}

} // verus!
