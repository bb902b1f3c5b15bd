use vstd::prelude::*;

use crate::instr::{ParsedMovDestination, ParsedMovSource};

verus! {

/// Every way in which reading or assembling a program can fail.
#[derive(Debug, Clone, PartialEq, Eq)]
pub enum ParseError {
    /// The text does not follow the grammar; the position is a character offset.
    Syntax { position: usize },
    /// An expression names a symbol that no label or define introduces.
    UnknownSymbol(String),
    /// A constant expression divides by zero.
    DivisionByZero,
    /// `.side_set` stands after the first instruction.
    SideSetAfterInstruction,
    /// A second `.wrap_target`.
    DuplicateWrapTarget,
    /// A second `.wrap`.
    DuplicateWrap,
    /// `.wrap` stands before any instruction, so there is nothing to wrap from.
    WrapBeforeInstruction,
    /// Exactly one of `.wrap` and `.wrap_target` is given.
    UnpairedWrap,
    /// A `mov` whose source and destination cannot be combined.
    IllegalMov { source: ParsedMovSource, destination: ParsedMovDestination },
    /// A `set` value outside `0..=31`.
    SetOutOfRange(i32),
    /// More instructions than the program can hold.
    ProgramTooLarge,
}

} // verus!
