use vstd::prelude::*;

use crate::error::ParseError;
use crate::expr::{eval, scope_of, Value};
use crate::symbols::ProgramState;

verus! {

/// The condition under which a `jmp` is taken.
#[derive(Debug, Clone, Copy, PartialEq, Eq, Structural)]
pub enum JmpCondition {
    Always,
    XIsZero,
    XDecNonZero,
    YIsZero,
    YDecNonZero,
    XNotEqualY,
    PinHigh,
    OutputShiftRegisterNotEmpty,
}

/// What a `wait` waits on.
#[derive(Debug, Clone, Copy, PartialEq, Eq, Structural)]
pub enum WaitSource {
    GPIO,
    PIN,
    IRQ,
    JMPPIN,
}

/// Where `in` shifts from.
#[derive(Debug, Clone, Copy, PartialEq, Eq, Structural)]
pub enum InSource {
    PINS,
    X,
    Y,
    NULL,
    ISR,
    OSR,
}

/// Where `out` shifts to.
#[derive(Debug, Clone, Copy, PartialEq, Eq, Structural)]
pub enum OutDestination {
    PINS,
    X,
    Y,
    NULL,
    PINDIRS,
    PC,
    ISR,
    EXEC,
}

/// A register that an ordinary `mov` writes.
#[derive(Debug, Clone, Copy, PartialEq, Eq, Structural)]
pub enum MovDestination {
    PINS,
    X,
    Y,
    PINDIRS,
    EXEC,
    PC,
    ISR,
    OSR,
}

/// What an ordinary `mov` does to the data on the way.
#[derive(Debug, Clone, Copy, PartialEq, Eq, Structural)]
pub enum MovOperation {
    Unchanged,
    Invert,
    BitReverse,
}

/// A register that an ordinary `mov` reads.
#[derive(Debug, Clone, Copy, PartialEq, Eq, Structural)]
pub enum MovSource {
    PINS,
    X,
    Y,
    NULL,
    STATUS,
    ISR,
    OSR,
}

/// A lane of the receive FIFO: a fixed one, or the one that Y selects.
#[derive(Debug, Clone, Copy, PartialEq, Eq, Structural)]
pub enum MovRxIndex {
    RXFIFOY,
    RXFIFO0,
    RXFIFO1,
    RXFIFO2,
    RXFIFO3,
}

/// How an `irq` index is taken relative to the state machine.
#[derive(Debug, Clone, Copy, PartialEq, Eq, Structural)]
pub enum IrqIndexMode {
    DIRECT,
    PREV,
    REL,
    NEXT,
}

/// Where `set` writes.
#[derive(Debug, Clone, Copy, PartialEq, Eq, Structural)]
pub enum SetDestination {
    PINS,
    X,
    Y,
    PINDIRS,
}

/// A `mov` destination as written: a register or a FIFO lane.
#[derive(Debug, Clone, Copy, PartialEq, Eq, Structural)]
pub enum ParsedMovDestination {
    PINS,
    X,
    Y,
    PINDIRS,
    EXEC,
    PC,
    ISR,
    OSR,
    RXFIFOY,
    RXFIFO0,
    RXFIFO1,
    RXFIFO2,
    RXFIFO3,
}

/// A `mov` source as written: a register or a FIFO lane.
#[derive(Debug, Clone, Copy, PartialEq, Eq, Structural)]
pub enum ParsedMovSource {
    PINS,
    X,
    Y,
    NULL,
    STATUS,
    ISR,
    OSR,
    RXFIFOY,
    RXFIFO0,
    RXFIFO1,
    RXFIFO2,
    RXFIFO3,
}

/// A `mov` destination sorted into register or FIFO lane.
#[derive(Debug, Clone, Copy, PartialEq, Eq, Structural)]
pub enum MovDestInternal {
    Mov(MovDestination),
    Fifo(MovRxIndex),
}

/// A `mov` source sorted into register or FIFO lane.
#[derive(Debug, Clone, Copy, PartialEq, Eq, Structural)]
pub enum MovSrcInternal {
    Mov(MovSource),
    Fifo(MovRxIndex),
}

pub open spec fn dest_class(d: ParsedMovDestination) -> MovDestInternal {
    match d {
        ParsedMovDestination::PINS => MovDestInternal::Mov(MovDestination::PINS),
        ParsedMovDestination::X => MovDestInternal::Mov(MovDestination::X),
        ParsedMovDestination::Y => MovDestInternal::Mov(MovDestination::Y),
        ParsedMovDestination::PINDIRS => MovDestInternal::Mov(MovDestination::PINDIRS),
        ParsedMovDestination::EXEC => MovDestInternal::Mov(MovDestination::EXEC),
        ParsedMovDestination::PC => MovDestInternal::Mov(MovDestination::PC),
        ParsedMovDestination::ISR => MovDestInternal::Mov(MovDestination::ISR),
        ParsedMovDestination::OSR => MovDestInternal::Mov(MovDestination::OSR),
        ParsedMovDestination::RXFIFOY => MovDestInternal::Fifo(MovRxIndex::RXFIFOY),
        ParsedMovDestination::RXFIFO0 => MovDestInternal::Fifo(MovRxIndex::RXFIFO0),
        ParsedMovDestination::RXFIFO1 => MovDestInternal::Fifo(MovRxIndex::RXFIFO1),
        ParsedMovDestination::RXFIFO2 => MovDestInternal::Fifo(MovRxIndex::RXFIFO2),
        ParsedMovDestination::RXFIFO3 => MovDestInternal::Fifo(MovRxIndex::RXFIFO3),
    }
}

pub open spec fn src_class(s: ParsedMovSource) -> MovSrcInternal {
    match s {
        ParsedMovSource::PINS => MovSrcInternal::Mov(MovSource::PINS),
        ParsedMovSource::X => MovSrcInternal::Mov(MovSource::X),
        ParsedMovSource::Y => MovSrcInternal::Mov(MovSource::Y),
        ParsedMovSource::NULL => MovSrcInternal::Mov(MovSource::NULL),
        ParsedMovSource::STATUS => MovSrcInternal::Mov(MovSource::STATUS),
        ParsedMovSource::ISR => MovSrcInternal::Mov(MovSource::ISR),
        ParsedMovSource::OSR => MovSrcInternal::Mov(MovSource::OSR),
        ParsedMovSource::RXFIFOY => MovSrcInternal::Fifo(MovRxIndex::RXFIFOY),
        ParsedMovSource::RXFIFO0 => MovSrcInternal::Fifo(MovRxIndex::RXFIFO0),
        ParsedMovSource::RXFIFO1 => MovSrcInternal::Fifo(MovRxIndex::RXFIFO1),
        ParsedMovSource::RXFIFO2 => MovSrcInternal::Fifo(MovRxIndex::RXFIFO2),
        ParsedMovSource::RXFIFO3 => MovSrcInternal::Fifo(MovRxIndex::RXFIFO3),
    }
}

impl MovDestInternal {
    /// Sorts a written destination into register or FIFO lane.
    pub fn from(value: ParsedMovDestination) -> (r: MovDestInternal)
        ensures
            r == dest_class(value),
    {
        match value {
            ParsedMovDestination::PINS => MovDestInternal::Mov(MovDestination::PINS),
            ParsedMovDestination::X => MovDestInternal::Mov(MovDestination::X),
            ParsedMovDestination::Y => MovDestInternal::Mov(MovDestination::Y),
            ParsedMovDestination::PINDIRS => MovDestInternal::Mov(MovDestination::PINDIRS),
            ParsedMovDestination::EXEC => MovDestInternal::Mov(MovDestination::EXEC),
            ParsedMovDestination::PC => MovDestInternal::Mov(MovDestination::PC),
            ParsedMovDestination::ISR => MovDestInternal::Mov(MovDestination::ISR),
            ParsedMovDestination::OSR => MovDestInternal::Mov(MovDestination::OSR),
            ParsedMovDestination::RXFIFOY => MovDestInternal::Fifo(MovRxIndex::RXFIFOY),
            ParsedMovDestination::RXFIFO0 => MovDestInternal::Fifo(MovRxIndex::RXFIFO0),
            ParsedMovDestination::RXFIFO1 => MovDestInternal::Fifo(MovRxIndex::RXFIFO1),
            ParsedMovDestination::RXFIFO2 => MovDestInternal::Fifo(MovRxIndex::RXFIFO2),
            ParsedMovDestination::RXFIFO3 => MovDestInternal::Fifo(MovRxIndex::RXFIFO3),
        }
    }
}

impl MovSrcInternal {
    /// Sorts a written source into register or FIFO lane.
    pub fn from(value: ParsedMovSource) -> (r: MovSrcInternal)
        ensures
            r == src_class(value),
    {
        match value {
            ParsedMovSource::PINS => MovSrcInternal::Mov(MovSource::PINS),
            ParsedMovSource::X => MovSrcInternal::Mov(MovSource::X),
            ParsedMovSource::Y => MovSrcInternal::Mov(MovSource::Y),
            ParsedMovSource::NULL => MovSrcInternal::Mov(MovSource::NULL),
            ParsedMovSource::STATUS => MovSrcInternal::Mov(MovSource::STATUS),
            ParsedMovSource::ISR => MovSrcInternal::Mov(MovSource::ISR),
            ParsedMovSource::OSR => MovSrcInternal::Mov(MovSource::OSR),
            ParsedMovSource::RXFIFOY => MovSrcInternal::Fifo(MovRxIndex::RXFIFOY),
            ParsedMovSource::RXFIFO0 => MovSrcInternal::Fifo(MovRxIndex::RXFIFO0),
            ParsedMovSource::RXFIFO1 => MovSrcInternal::Fifo(MovRxIndex::RXFIFO1),
            ParsedMovSource::RXFIFO2 => MovSrcInternal::Fifo(MovRxIndex::RXFIFO2),
            ParsedMovSource::RXFIFO3 => MovSrcInternal::Fifo(MovRxIndex::RXFIFO3),
        }
    }
}

/// The operands of one instruction, with their expressions still unevaluated.
#[derive(Debug)]
pub enum ParsedOperands {
    JMP { condition: JmpCondition, address: Value },
    WAIT { polarity: Value, source: WaitSource, index: Value, relative: bool },
    IN { source: InSource, bit_count: Value },
    OUT { destination: OutDestination, bit_count: Value },
    PUSH { if_full: bool, block: bool },
    PULL { if_empty: bool, block: bool },
    MOV { destination: ParsedMovDestination, op: MovOperation, source: ParsedMovSource },
    IRQ { clear: bool, wait: bool, index: Value, index_mode: IrqIndexMode },
    SET { destination: SetDestination, data: Value },
}

/// The operands of one instruction, ready for encoding.
#[derive(Debug, Clone, Copy, PartialEq, Eq, Structural)]
pub enum InstructionOperands {
    JMP { condition: JmpCondition, address: u8 },
    WAIT { polarity: u8, source: WaitSource, index: u8, relative: bool },
    IN { source: InSource, bit_count: u8 },
    OUT { destination: OutDestination, bit_count: u8 },
    PUSH { if_full: bool, block: bool },
    PULL { if_empty: bool, block: bool },
    MOV { destination: MovDestination, op: MovOperation, source: MovSource },
    MOVTORX { fifo_index: MovRxIndex },
    MOVFROMRX { fifo_index: MovRxIndex },
    IRQ { clear: bool, wait: bool, index: u8, index_mode: IrqIndexMode },
    SET { destination: SetDestination, data: u8 },
}

/// One instruction as written: operands, optional side-set value and delay.
#[derive(Debug)]
pub struct ParsedInstruction {
    pub operands: ParsedOperands,
    pub side_set: Option<Value>,
    pub delay: Value,
}

/// One instruction, ready for encoding.
#[derive(Debug, Clone, Copy, PartialEq, Eq, Structural)]
pub struct Instruction {
    pub operands: InstructionOperands,
    pub side_set: Option<u8>,
    pub delay: u8,
}

/// The low eight bits of an evaluated expression, or the failure.
pub open spec fn low_byte(r: Result<i32, ParseError>) -> Result<u8, ParseError> {
    match r {
        Ok(x) => Ok(x as u8),
        Err(e) => Err(e),
    }
}

/// What a `mov` becomes: a write to a FIFO lane from ISR, a read of a FIFO
/// lane into OSR, an ordinary move between registers, or a failure.
pub open spec fn mov_result(
    destination: ParsedMovDestination,
    op: MovOperation,
    source: ParsedMovSource,
) -> Result<InstructionOperands, ParseError> {
    match (src_class(source), dest_class(destination)) {
        (MovSrcInternal::Mov(MovSource::ISR), MovDestInternal::Fifo(fifo_index)) => Ok(
            InstructionOperands::MOVTORX { fifo_index },
        ),
        (MovSrcInternal::Fifo(fifo_index), MovDestInternal::Mov(MovDestination::OSR)) => Ok(
            InstructionOperands::MOVFROMRX { fifo_index },
        ),
        (MovSrcInternal::Mov(s), MovDestInternal::Mov(d)) => Ok(
            InstructionOperands::MOV { destination: d, op, source: s },
        ),
        _ => Err(ParseError::IllegalMov { source, destination }),
    }
}

/// What the operands become when names resolve through `lookup`.
pub open spec fn operands_result(
    p: ParsedOperands,
    lookup: spec_fn(Seq<char>) -> Option<i32>,
) -> Result<InstructionOperands, ParseError> {
    match p {
        ParsedOperands::JMP { condition, address } => match low_byte(eval(address, lookup)) {
            Ok(a) => Ok(InstructionOperands::JMP { condition, address: a }),
            Err(e) => Err(e),
        },
        ParsedOperands::WAIT { polarity, source, index, relative } => match low_byte(
            eval(polarity, lookup),
        ) {
            Err(e) => Err(e),
            Ok(p) => match low_byte(eval(index, lookup)) {
                Err(e) => Err(e),
                Ok(i) => Ok(InstructionOperands::WAIT { polarity: p, source, index: i, relative }),
            },
        },
        ParsedOperands::IN { source, bit_count } => match low_byte(eval(bit_count, lookup)) {
            Ok(b) => Ok(InstructionOperands::IN { source, bit_count: b }),
            Err(e) => Err(e),
        },
        ParsedOperands::OUT { destination, bit_count } => match low_byte(eval(bit_count, lookup)) {
            Ok(b) => Ok(InstructionOperands::OUT { destination, bit_count: b }),
            Err(e) => Err(e),
        },
        ParsedOperands::PUSH { if_full, block } => Ok(InstructionOperands::PUSH { if_full, block }),
        ParsedOperands::PULL { if_empty, block } => Ok(InstructionOperands::PULL { if_empty, block }),
        ParsedOperands::MOV { destination, op, source } => mov_result(destination, op, source),
        ParsedOperands::IRQ { clear, wait, index, index_mode } => match low_byte(eval(index, lookup)) {
            Ok(i) => Ok(InstructionOperands::IRQ { clear, wait, index: i, index_mode }),
            Err(e) => Err(e),
        },
        ParsedOperands::SET { destination, data } => match eval(data, lookup) {
            Err(e) => Err(e),
            Ok(x) => if 0 <= x <= 31 {
                Ok(InstructionOperands::SET { destination, data: x as u8 })
            } else {
                Err(ParseError::SetOutOfRange(x))
            },
        },
    }
}

/// What a whole instruction becomes: operands first, then side-set, then delay.
pub open spec fn instruction_result(
    i: ParsedInstruction,
    lookup: spec_fn(Seq<char>) -> Option<i32>,
) -> Result<Instruction, ParseError> {
    match operands_result(i.operands, lookup) {
        Err(e) => Err(e),
        Ok(operands) => {
            let side = match i.side_set {
                None => Ok(None),
                Some(v) => match low_byte(eval(v, lookup)) {
                    Ok(b) => Ok(Some(b)),
                    Err(e) => Err(e),
                },
            };
            match side {
                Err(e) => Err(e),
                Ok(side_set) => match low_byte(eval(i.delay, lookup)) {
                    Err(e) => Err(e),
                    Ok(delay) => Ok(Instruction { operands, side_set, delay }),
                },
            }
        },
    }
}

/// Evaluates an expression and keeps its low eight bits.
fn reify_byte(v: &Value, state: &ProgramState) -> (r: Result<u8, ParseError>)
    ensures
        r == low_byte(eval(*v, scope_of(state))),
{
    let x = v.reify(state)?;
    Ok(x as u8)
}

impl ParsedOperands {
    /// Evaluates the operands and applies the rules of each instruction.
    pub fn reify(&self, state: &ProgramState) -> (r: Result<InstructionOperands, ParseError>)
        ensures
            r == operands_result(*self, scope_of(state)),
    {
        match self {
            ParsedOperands::JMP { condition, address } => {
                let address = reify_byte(address, state)?;
                Ok(InstructionOperands::JMP { condition: *condition, address })
            },
            ParsedOperands::WAIT { polarity, source, index, relative } => {
                let polarity = reify_byte(polarity, state)?;
                let index = reify_byte(index, state)?;
                Ok(InstructionOperands::WAIT { polarity, source: *source, index, relative: *relative })
            },
            ParsedOperands::IN { source, bit_count } => {
                let bit_count = reify_byte(bit_count, state)?;
                Ok(InstructionOperands::IN { source: *source, bit_count })
            },
            ParsedOperands::OUT { destination, bit_count } => {
                let bit_count = reify_byte(bit_count, state)?;
                Ok(InstructionOperands::OUT { destination: *destination, bit_count })
            },
            ParsedOperands::PUSH { if_full, block } => Ok(
                InstructionOperands::PUSH { if_full: *if_full, block: *block },
            ),
            ParsedOperands::PULL { if_empty, block } => Ok(
                InstructionOperands::PULL { if_empty: *if_empty, block: *block },
            ),
            ParsedOperands::MOV { destination, op, source } => {
                let source_internal = MovSrcInternal::from(*source);
                let dest_internal = MovDestInternal::from(*destination);
                match (source_internal, dest_internal) {
                    (MovSrcInternal::Mov(MovSource::ISR), MovDestInternal::Fifo(fifo_index)) => Ok(
                        InstructionOperands::MOVTORX { fifo_index },
                    ),
                    (
                        MovSrcInternal::Fifo(fifo_index),
                        MovDestInternal::Mov(MovDestination::OSR),
                    ) => Ok(InstructionOperands::MOVFROMRX { fifo_index }),
                    (MovSrcInternal::Mov(s), MovDestInternal::Mov(d)) => Ok(
                        InstructionOperands::MOV { destination: d, op: *op, source: s },
                    ),
                    _ => Err(ParseError::IllegalMov { source: *source, destination: *destination }),
                }
            },
            ParsedOperands::IRQ { clear, wait, index, index_mode } => {
                let index = reify_byte(index, state)?;
                Ok(
                    InstructionOperands::IRQ {
                        clear: *clear,
                        wait: *wait,
                        index,
                        index_mode: *index_mode,
                    },
                )
            },
            ParsedOperands::SET { destination, data } => {
                let arg = data.reify(state)?;
                if arg < 0 || arg > 31 {
                    return Err(ParseError::SetOutOfRange(arg));
                }
                Ok(InstructionOperands::SET { destination: *destination, data: arg as u8 })
            },
        }
    }
}

impl ParsedInstruction {
    /// Evaluates operands, side-set value and delay of one instruction.
    pub fn reify(&self, state: &ProgramState) -> (r: Result<Instruction, ParseError>)
        ensures
            r == instruction_result(*self, scope_of(state)),
    {
        let operands = self.operands.reify(state)?;
        let side_set = match &self.side_set {
            Some(s) => Some(reify_byte(s, state)?),
            None => None,
        };
        let delay = reify_byte(&self.delay, state)?;
        Ok(Instruction { operands, side_set, delay })
    }
}

} // verus!
