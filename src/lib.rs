//! A two-pass assembler for the instruction set of a programmable I/O
//! state machine: symbol tables, constant folding, layout directives and
//! operand checks, with every step proved against its contract.

mod assemble;
mod error;
mod expr;
mod instr;
mod symbols;
mod syntax;

pub use assemble::{file_defines, wrap_region, Layout, Line, ParsedDirective, Parser, Program, SideSet, Wrap};
pub use error::ParseError;
pub use expr::Value;
pub use instr::{
    InSource, Instruction, InstructionOperands, IrqIndexMode, JmpCondition, MovDestInternal,
    MovDestination, MovOperation, MovRxIndex, MovSource, MovSrcInternal, OutDestination,
    ParsedInstruction, ParsedMovDestination, ParsedMovSource, ParsedOperands, SetDestination,
    WaitSource,
};
pub use symbols::{ProgramState, Symbol, SymbolTable};
pub use syntax::{parse_file_text, parse_program_text, tokenize, Tok, Token};
