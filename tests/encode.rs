use pio_parser::{
    InSource, Instruction, InstructionOperands, IrqIndexMode, JmpCondition, MovDestination,
    MovOperation, MovRxIndex, MovSource, OutDestination, ParseError, Parser, Program,
    SetDestination, WaitSource,
};

fn jmp_condition(c: JmpCondition) -> pio_core::JmpCondition {
    match c {
        JmpCondition::Always => pio_core::JmpCondition::Always,
        JmpCondition::XIsZero => pio_core::JmpCondition::XIsZero,
        JmpCondition::XDecNonZero => pio_core::JmpCondition::XDecNonZero,
        JmpCondition::YIsZero => pio_core::JmpCondition::YIsZero,
        JmpCondition::YDecNonZero => pio_core::JmpCondition::YDecNonZero,
        JmpCondition::XNotEqualY => pio_core::JmpCondition::XNotEqualY,
        JmpCondition::PinHigh => pio_core::JmpCondition::PinHigh,
        JmpCondition::OutputShiftRegisterNotEmpty => {
            pio_core::JmpCondition::OutputShiftRegisterNotEmpty
        }
    }
}

fn index_mode(m: IrqIndexMode) -> pio_core::IrqIndexMode {
    match m {
        IrqIndexMode::DIRECT => pio_core::IrqIndexMode::DIRECT,
        IrqIndexMode::PREV => pio_core::IrqIndexMode::PREV,
        IrqIndexMode::REL => pio_core::IrqIndexMode::REL,
        IrqIndexMode::NEXT => pio_core::IrqIndexMode::NEXT,
    }
}

fn rx_index(i: MovRxIndex) -> pio_core::MovRxIndex {
    match i {
        MovRxIndex::RXFIFOY => pio_core::MovRxIndex::RXFIFOY,
        MovRxIndex::RXFIFO0 => pio_core::MovRxIndex::RXFIFO0,
        MovRxIndex::RXFIFO1 => pio_core::MovRxIndex::RXFIFO1,
        MovRxIndex::RXFIFO2 => pio_core::MovRxIndex::RXFIFO2,
        MovRxIndex::RXFIFO3 => pio_core::MovRxIndex::RXFIFO3,
    }
}

fn operands(o: InstructionOperands) -> pio_core::InstructionOperands {
    match o {
        InstructionOperands::JMP { condition, address } => pio_core::InstructionOperands::JMP {
            condition: jmp_condition(condition),
            address,
        },
        InstructionOperands::WAIT { polarity, source, index, relative } => pio_core::InstructionOperands::WAIT {
            polarity,
            source: match source {
                WaitSource::GPIO => pio_core::WaitSource::Gpio(index),
                WaitSource::PIN => pio_core::WaitSource::Pin(index),
                WaitSource::IRQ => pio_core::WaitSource::Irq {
                    index_mode: if relative {
                        pio_core::IrqIndexMode::REL
                    } else {
                        pio_core::IrqIndexMode::DIRECT
                    },
                    irq: index,
                },
                WaitSource::JMPPIN => pio_core::WaitSource::JmpPin { offset: Some(index) },
            },
        },
        InstructionOperands::IN { source, bit_count } => pio_core::InstructionOperands::IN {
            source: match source {
                InSource::PINS => pio_core::InSource::PINS,
                InSource::X => pio_core::InSource::X,
                InSource::Y => pio_core::InSource::Y,
                InSource::NULL => pio_core::InSource::NULL,
                InSource::ISR => pio_core::InSource::ISR,
                InSource::OSR => pio_core::InSource::OSR,
            },
            bit_count,
        },
        InstructionOperands::OUT { destination, bit_count } => pio_core::InstructionOperands::OUT {
            destination: match destination {
                OutDestination::PINS => pio_core::OutDestination::PINS,
                OutDestination::X => pio_core::OutDestination::X,
                OutDestination::Y => pio_core::OutDestination::Y,
                OutDestination::NULL => pio_core::OutDestination::NULL,
                OutDestination::PINDIRS => pio_core::OutDestination::PINDIRS,
                OutDestination::PC => pio_core::OutDestination::PC,
                OutDestination::ISR => pio_core::OutDestination::ISR,
                OutDestination::EXEC => pio_core::OutDestination::EXEC,
            },
            bit_count,
        },
        InstructionOperands::PUSH { if_full, block } => pio_core::InstructionOperands::PUSH { if_full, block },
        InstructionOperands::PULL { if_empty, block } => pio_core::InstructionOperands::PULL { if_empty, block },
        InstructionOperands::MOV { destination, op, source } => pio_core::InstructionOperands::MOV {
            destination: match destination {
                MovDestination::PINS => pio_core::MovDestination::PINS,
                MovDestination::X => pio_core::MovDestination::X,
                MovDestination::Y => pio_core::MovDestination::Y,
                MovDestination::PINDIRS => pio_core::MovDestination::PINDIRS,
                MovDestination::EXEC => pio_core::MovDestination::EXEC,
                MovDestination::PC => pio_core::MovDestination::PC,
                MovDestination::ISR => pio_core::MovDestination::ISR,
                MovDestination::OSR => pio_core::MovDestination::OSR,
            },
            op: match op {
                MovOperation::Unchanged => pio_core::MovOperation::None,
                MovOperation::Invert => pio_core::MovOperation::Invert,
                MovOperation::BitReverse => pio_core::MovOperation::BitReverse,
            },
            source: match source {
                MovSource::PINS => pio_core::MovSource::PINS,
                MovSource::X => pio_core::MovSource::X,
                MovSource::Y => pio_core::MovSource::Y,
                MovSource::NULL => pio_core::MovSource::NULL,
                MovSource::STATUS => pio_core::MovSource::STATUS,
                MovSource::ISR => pio_core::MovSource::ISR,
                MovSource::OSR => pio_core::MovSource::OSR,
            },
        },
        InstructionOperands::MOVTORX { fifo_index } => pio_core::InstructionOperands::MOVTORX { fifo_index: rx_index(fifo_index) },
        InstructionOperands::MOVFROMRX { fifo_index } => pio_core::InstructionOperands::MOVFROMRX {
            fifo_index: rx_index(fifo_index),
        },
        InstructionOperands::IRQ { clear, wait, index, index_mode: m } => pio_core::InstructionOperands::IRQ {
            clear,
            wait,
            index,
            index_mode: index_mode(m),
        },
        InstructionOperands::SET { destination, data } => pio_core::InstructionOperands::SET {
            destination: match destination {
                SetDestination::PINS => pio_core::SetDestination::PINS,
                SetDestination::X => pio_core::SetDestination::X,
                SetDestination::Y => pio_core::SetDestination::Y,
                SetDestination::PINDIRS => pio_core::SetDestination::PINDIRS,
            },
            data,
        },
    }
}

fn instruction(i: &Instruction) -> pio_core::Instruction {
    pio_core::Instruction { operands: operands(i.operands), delay: i.delay, side_set: i.side_set }
}

struct Encoded {
    program: pio_core::Program<32>,
}

fn encode(p: &Program) -> Encoded {
    let mut a = pio_core::Assembler::<32>::new_with_side_set(pio_core::SideSet::new(
        p.side_set.opt,
        p.side_set.bits,
        p.side_set.pindirs,
    ));
    for i in &p.instructions {
        a.instructions.push(instruction(i));
    }
    let mut program = a.assemble_program().set_origin(p.origin);
    if let Some(w) = p.wrap {
        program = program.set_wrap(pio_core::Wrap { source: w.source, target: w.target });
    }
    Encoded { program }
}

#[test]
fn test() {
    let p = encode(
        &Parser::<32>::parse_program(
            "
    label:
      pull
      out pins, 1
      jmp label
    ",
        )
        .unwrap(),
    );

    assert_eq!(
        &p.program.code[..],
        &[
            // LABEL:
            0b100_00000_101_00000, // PULL
            0b011_00000_000_00001, // OUT PINS, 1
            0b000_00000_000_00000, // JMP LABEL
        ]
    );
    assert_eq!(p.program.origin, None);
    assert_eq!(p.program.wrap, pio_core::Wrap { source: 2, target: 0 });
}

#[test]
fn test_rp2350() {
    let p = encode(
        &Parser::<32>::parse_program(
            "
    label:
      mov osr, rxfifo[0]
      mov rxfifo[1], isr
      mov pins, isr
      mov osr, x
      jmp label
    ",
        )
        .unwrap(),
    );

    assert_eq!(
        &p.program.code[..],
        &[
            // LABEL:
            0b100_00000_1001_1_000, // MOV OSR, RXFIFO0
            0b100_00000_0001_1_001, // MOV RXFIFO1, ISR
            0b101_00000_000_00_110, // MOV PINS, ISR
            0b101_00000_111_00_001, // MOV OSR, X
            0b000_00000_000_00000,  // JMP LABEL
        ]
    );
    assert_eq!(p.program.origin, None);
    assert_eq!(p.program.wrap, pio_core::Wrap { source: 4, target: 0 });
}

#[test]
fn test_side_set() {
    let p = encode(
        &Parser::<32>::parse_program(
            "
    .side_set 1 opt
    .origin 5

    label:
      pull
      .wrap_target
      out pins, 1
      .wrap
      jmp label side 1
    ",
        )
        .unwrap(),
    );

    assert_eq!(
        &p.program.code[..],
        &[
            // LABEL:
            0b100_00000_101_00000, // PULL
            0b011_00000_000_00001, // OUT PINS, 1
            0b000_11000_000_00000, // JMP LABEL, SIDE 1
        ]
    );
    assert_eq!(p.program.origin, Some(5));
    assert_eq!(p.program.wrap, pio_core::Wrap { source: 1, target: 1 });
}

#[test]
fn test_unknown_label() {
    let r = Parser::<32>::parse_program(
        "
    jmp some_unknown_label
    ",
    );
    assert_eq!(r.err(), Some(ParseError::UnknownSymbol("some_unknown_label".to_string())));
}
