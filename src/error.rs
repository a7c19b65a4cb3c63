//! Why an assembly stops.
use vstd::prelude::*;

verus! {

/// The first structural fault found in a program; each one ends the run.
#[derive(Clone, Copy, Debug, PartialEq, Eq, Structural)]
pub enum AsmError {
    /// An empty or blank source line, or a program with no lines.
    MalformedLine,
    /// A label defined twice.
    DuplicateSymbol,
    /// An opcode that is neither a machine instruction nor a data directive.
    UnknownDirective,
    /// An operand that names no label of the program.
    UndefinedSymbol,
    /// A numeric operand that is not a digit string of at most six
    /// hexadecimal digits' worth.
    BadNumber,
    /// A `BYTE` operand that is not `X'..'` with an even number of hex digits
    /// or `C'..'`, or that holds more than one Text record's worth of bytes.
    BadConstant,
    /// An address or an encoded word that needs more than six hex digits.
    OutOfRange,
    /// The program has no `END` line.
    MissingEnd,
}

} // verus!
