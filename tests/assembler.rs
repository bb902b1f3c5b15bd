use pio_parser::{
    wrap_region, InstructionOperands, JmpCondition, MovOperation, MovRxIndex, MovSource,
    ParseError, ParsedMovDestination, ParsedMovSource, Parser, Program, ProgramState,
    SetDestination, SymbolTable, Value, Wrap,
};

fn program(src: &str) -> Program {
    Parser::<32>::parse_program(src).unwrap()
}

fn failure(src: &str) -> ParseError {
    Parser::<32>::parse_program(src).err().unwrap()
}

fn exported(p: &Program, name: &str) -> Option<i32> {
    p.public_defines.iter().rev().find(|(n, _)| n == name).map(|(_, v)| *v)
}

fn literal_state_value(v: &Value) -> Result<i32, ParseError> {
    let file = SymbolTable::new();
    let state = ProgramState::new(&file);
    v.reify(&state)
}

#[test]
fn literal_expression_evaluates_the_same_twice() {
    let v = Value::Mul(
        Box::new(Value::Add(Box::new(Value::I32(3)), Box::new(Value::I32(4)))),
        Box::new(Value::Neg(Box::new(Value::I32(5)))),
    );
    let first = literal_state_value(&v);
    let second = literal_state_value(&v);
    assert_eq!(first, Ok(-35));
    assert_eq!(first, second);
}

#[test]
fn reversing_bits_twice_restores_the_word() {
    for x in [0, 1, -1, 12345, i32::MIN, 0x0f0f_1234] {
        let v = Value::Rev(Box::new(Value::Rev(Box::new(Value::I32(x)))));
        assert_eq!(literal_state_value(&v), Ok(x));
    }
    let once = Value::Rev(Box::new(Value::I32(1)));
    assert_eq!(literal_state_value(&once), Ok(i32::MIN));
    let six = Value::Rev(Box::new(Value::I32(6)));
    assert_eq!(literal_state_value(&six), Ok(0x6000_0000));
}

#[test]
fn arithmetic_wraps_and_division_truncates() {
    let p = program(
        ".define PUBLIC big 0x7fffffff + 1\n.define PUBLIC q -7 / 2\n.define PUBLIC r ::1\n.define PUBLIC m 0b101 * 3 - 1\nnop\n",
    );
    assert_eq!(exported(&p, "big"), Some(i32::MIN));
    assert_eq!(exported(&p, "q"), Some(-3));
    assert_eq!(exported(&p, "r"), Some(i32::MIN));
    assert_eq!(exported(&p, "m"), Some(14));
}

#[test]
fn division_by_zero_fails() {
    assert_eq!(failure(".define a 1 / 0\nnop\n"), ParseError::DivisionByZero);
}

#[test]
fn labels_count_only_instructions() {
    let p = program(
        "public first:\n.define k 4\n nop\n.wrap_target\npublic second:\n set x, 1\n.origin 2\n nop\n.wrap\npublic third:\n jmp first\n",
    );
    assert_eq!(exported(&p, "first"), Some(0));
    assert_eq!(exported(&p, "second"), Some(1));
    assert_eq!(exported(&p, "third"), Some(3));
    assert_eq!(exported(&p, "k"), None);
    assert_eq!(p.instructions.len(), 4);
}

#[test]
fn forward_label_reference_resolves() {
    let p = program("jmp end\nnop\nnop\nend:\njmp !x, end\n");
    assert_eq!(
        p.instructions[0].operands,
        InstructionOperands::JMP { condition: JmpCondition::Always, address: 3 }
    );
    assert_eq!(
        p.instructions[3].operands,
        InstructionOperands::JMP { condition: JmpCondition::XIsZero, address: 3 }
    );
}

#[test]
fn side_set_after_instruction_fails() {
    assert_eq!(failure("nop\n.side_set 1\nnop\n"), ParseError::SideSetAfterInstruction);
    let p = program(".side_set 2 opt pindirs\nnop side 3\n");
    assert!(p.side_set.opt && p.side_set.pindirs);
    assert_eq!(p.side_set.bits, 2);
    assert_eq!(p.instructions[0].side_set, Some(3));
}

#[test]
fn wrap_needs_wrap_target() {
    assert_eq!(failure("nop\n.wrap\nnop\n"), ParseError::UnpairedWrap);
    assert_eq!(failure(".wrap_target\nnop\n"), ParseError::UnpairedWrap);
    assert_eq!(program("nop\nnop\n").wrap, None);
    assert_eq!(wrap_region(Some(1), None), Err(ParseError::UnpairedWrap));
    assert_eq!(wrap_region(None, Some(1)), Err(ParseError::UnpairedWrap));
    assert_eq!(wrap_region(None, None), Ok(None));
    assert_eq!(wrap_region(Some(3), Some(1)), Ok(Some(Wrap { source: 3, target: 1 })));
}

#[test]
fn duplicate_wrap_directives_fail() {
    assert_eq!(failure(".wrap_target\nnop\n.wrap_target\nnop\n.wrap\n"), ParseError::DuplicateWrapTarget);
    assert_eq!(failure(".wrap_target\nnop\n.wrap\nnop\n.wrap\n"), ParseError::DuplicateWrap);
    assert_eq!(failure(".wrap_target\n.wrap\nnop\n"), ParseError::WrapBeforeInstruction);
}

#[test]
fn set_value_range() {
    assert_eq!(failure("set x, 32\n"), ParseError::SetOutOfRange(32));
    assert_eq!(failure("set x, -1\n"), ParseError::SetOutOfRange(-1));
    let p = program("set pins, 31\n");
    assert_eq!(
        p.instructions[0].operands,
        InstructionOperands::SET { destination: SetDestination::PINS, data: 31 }
    );
}

#[test]
fn mov_with_fifo_lanes() {
    let p = program("mov osr, rxfifo[0]\nmov rxfifo[y], isr\nmov x, ~y\nmov pins, ::isr\n");
    assert_eq!(p.instructions[0].operands, InstructionOperands::MOVFROMRX { fifo_index: MovRxIndex::RXFIFO0 });
    assert_eq!(p.instructions[1].operands, InstructionOperands::MOVTORX { fifo_index: MovRxIndex::RXFIFOY });
    assert_eq!(
        p.instructions[2].operands,
        InstructionOperands::MOV {
            destination: pio_parser::MovDestination::X,
            op: MovOperation::Invert,
            source: MovSource::Y,
        }
    );
    assert_eq!(
        failure("mov x, rxfifo[0]\n"),
        ParseError::IllegalMov { source: ParsedMovSource::RXFIFO0, destination: ParsedMovDestination::X }
    );
    assert_eq!(
        failure("mov rxfifo[1], rxfifo[2]\n"),
        ParseError::IllegalMov { source: ParsedMovSource::RXFIFO2, destination: ParsedMovDestination::RXFIFO1 }
    );
}

#[test]
fn three_instruction_program_defaults() {
    let p = program("label:\n pull\n out pins, 1\n jmp label\n");
    assert_eq!(p.instructions.len(), 3);
    assert_eq!(p.instructions[0].operands, InstructionOperands::PULL { if_empty: false, block: true });
    assert_eq!(
        p.instructions[2].operands,
        InstructionOperands::JMP { condition: JmpCondition::Always, address: 0 }
    );
    assert_eq!(p.wrap, None);
    assert_eq!(p.origin, None);
}

#[test]
fn side_set_program_layout() {
    let p = program(".side_set 1 opt\n.origin 5\nlabel:\n pull\n.wrap_target\n out pins, 1\n.wrap\n jmp label side 1\n");
    assert_eq!(p.origin, Some(5));
    assert_eq!(p.wrap, Some(Wrap { source: 1, target: 1 }));
    assert_eq!(p.instructions[2].side_set, Some(1));
    assert_eq!(p.instructions[1].side_set, None);
}

#[test]
fn unknown_symbol_is_named() {
    assert_eq!(failure("jmp some_unknown_label\n"), ParseError::UnknownSymbol("some_unknown_label".to_string()));
}

#[test]
fn file_defines_are_shared_and_shadowed() {
    let r = Parser::<32>::parse_file(
        ".define PUBLIC pin 7\n.program first\n set x, pin\n.program second\n.define PUBLIC pin 3\n set y, pin\n",
    )
    .unwrap();
    assert_eq!(r.len(), 2);
    assert_eq!(r[0].0, "first");
    assert_eq!(r[0].1.instructions[0].operands, InstructionOperands::SET { destination: SetDestination::X, data: 7 });
    assert_eq!(r[1].1.instructions[0].operands, InstructionOperands::SET { destination: SetDestination::Y, data: 3 });
    assert_eq!(exported(&r[0].1, "pin"), Some(7));
    assert_eq!(exported(&r[1].1, "pin"), Some(3));
}

#[test]
fn file_define_may_not_look_ahead() {
    assert_eq!(
        Parser::<32>::parse_file(".define a b\n.define b 1\n.program p\nnop\n").err(),
        Some(ParseError::UnknownSymbol("b".to_string()))
    );
}

#[test]
fn program_size_is_bounded() {
    assert_eq!(Parser::<2>::parse_program("nop\nnop\nnop\n").err(), Some(ParseError::ProgramTooLarge));
    assert!(Parser::<2>::parse_program("nop\nnop\n").is_ok());
}

#[test]
fn malformed_text_fails_with_position() {
    assert_eq!(failure("nop\njmp (\n"), ParseError::Syntax { position: 9 });
    assert!(matches!(failure("bogus x\n"), ParseError::Syntax { .. }));
}

#[test]
fn operands_truncate_to_a_byte() {
    let p = program("jmp 257 [3]\nirq wait 2 rel\nwait 1 gpio 4\n; comment\nin x, 32 // trailing\n/* block */ push iffull noblock\n");
    assert_eq!(p.instructions[0].operands, InstructionOperands::JMP { condition: JmpCondition::Always, address: 1 });
    assert_eq!(p.instructions[0].delay, 3);
    assert_eq!(
        p.instructions[1].operands,
        InstructionOperands::IRQ { clear: false, wait: true, index: 2, index_mode: pio_parser::IrqIndexMode::REL }
    );
    assert_eq!(
        p.instructions[2].operands,
        InstructionOperands::WAIT { polarity: 1, source: pio_parser::WaitSource::GPIO, index: 4, relative: false }
    );
    assert_eq!(p.instructions[3].operands, InstructionOperands::IN { source: pio_parser::InSource::X, bit_count: 32 });
    assert_eq!(p.instructions[4].operands, InstructionOperands::PUSH { if_full: true, block: false });
}

#[test]
fn symbol_tables_resolve_program_first() {
    let mut file = SymbolTable::new();
    file.define("a".to_string(), true, 1);
    file.define("b".to_string(), true, 2);
    file.define("a".to_string(), true, 5);
    let mut state = ProgramState::new(&file);
    state.defines.define("b".to_string(), false, 9);
    state.defines.define("c".to_string(), true, 4);
    assert_eq!(state.resolve(&"a".to_string()), Some(5));
    assert_eq!(state.resolve(&"b".to_string()), Some(9));
    assert_eq!(state.resolve(&"zz".to_string()), None);
    let mut out = state.public_defines();
    out.sort();
    out.dedup();
    assert_eq!(out, vec![("a".to_string(), 5), ("b".to_string(), 2), ("c".to_string(), 4)]);
}
