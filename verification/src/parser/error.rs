//! What can go wrong in assembling a warrior, and what is worth a remark.

use vstd::prelude::*;

verus! {

/// The kinds of errors that end the assembly.
#[derive(Copy, Clone, Debug, PartialEq, Eq, Structural)]
pub enum ErrorKind {
    /// The line does not follow the grammar.
    Syntax,
    /// A label is used that was never declared.
    UnknownLabel,
    /// A label is declared twice.
    DuplicateLabel,
    /// A name is given to a substitution twice.
    Redefinition,
    /// A substitution holds its own name.
    Recursion,
    /// An `EQU` without a name does not follow an `EQU`.
    Continuation,
    /// The count of a `FOR` has no value.
    ForCount,
    /// A `FOR` without its `ROF`.
    UnmatchedFor,
    /// A `ROF` without its `FOR`.
    UnmatchedRof,
    /// The origin is set twice.
    DuplicateOrigin,
    /// An opcode that needs two fields has one.
    MissingField,
    /// An opcode that is known and cannot be executed.
    UnsupportedOpcode,
    /// A division by zero in an expression.
    DivisionByZero,
    /// A number too large to be a value.
    NumberTooLarge,
    /// More instructions than can be counted.
    TooManyInstructions,
    /// A tree that the grammar would not have made.
    Malformed,
}

/// An error that ends the assembly, and where it was found.
#[derive(Copy, Clone, Debug, PartialEq, Eq, Structural)]
pub struct Error {
    pub kind: ErrorKind,
    /// The number of the line in the source, from 1 on; 0 where a line was
    /// handled by itself.
    pub line: usize,
    /// The index of the character in the line as the grammar saw it.
    pub column: usize,
}

/// The kinds of remarks on a warrior that was assembled.
#[derive(Copy, Clone, Debug, PartialEq, Eq, Structural)]
pub enum WarningKind {
    /// A label has the name of a constant of the assembler.
    ShadowedConstant,
    /// The warrior has no instruction.
    EmptyWarrior,
    /// The origin lies behind the last instruction.
    OriginOutOfRange,
}

/// A remark on a warrior that was assembled, and the line that it is about.
#[derive(Copy, Clone, Debug, PartialEq, Eq, Structural)]
pub struct Warning {
    pub kind: WarningKind,
    /// The number of the line in the source, from 1 on; 0 where the remark
    /// is about the whole warrior.
    pub line: usize,
}

impl Error {
    /// An error in a line that is handled by itself.
    pub open spec fn at(kind: ErrorKind, column: int) -> Error {
        Error { kind, line: 0, column: column as usize }
    }

    /// An error in a line that is handled by itself.
    pub fn new(kind: ErrorKind, column: usize) -> (r: Error)
        ensures
            r == Error::at(kind, column as int),
    {
        Error { kind, line: 0, column }
    }

    /// The same error in the line with the given number.
    pub open spec fn in_line(self, line: usize) -> Error {
        Error { kind: self.kind, line, column: self.column }
    }

    /// The same error in the line with the given number.
    pub fn on_line(self, line: usize) -> (r: Error)
        ensures
            r == self.in_line(line),
    {
        Error { kind: self.kind, line, column: self.column }
    }
}

} // verus!
