use assembler::code::{assemble, code_of, EncodeError};
use assembler::instruction::{Instruction, InstructionKind, OperandA, OperandB};
use assembler::parser::{discern, discern_opr_a, discern_opr_b, parse, LineError, ParseError};
use assembler::pipeline::{assemble_source, AsmError};
use assembler::symbols::SymbolTable;

fn lines(src: &[&str]) -> Vec<String> {
    src.iter().map(|s| s.to_string()).collect()
}

fn run(src: &[&str]) -> Result<String, AsmError> {
    assemble_source(&lines(src)).map(|out| String::from_utf8(out).unwrap())
}

#[test]
fn register_pair_gives_base_opcode_for_every_mnemonic() {
    let table = [
        ("LD", "60"),
        ("ST", "70"),
        ("ADD", "B0"),
        ("ADC", "90"),
        ("SUB", "A0"),
        ("SBC", "80"),
        ("CMP", "F0"),
        ("AND", "E0"),
        ("OR", "D0"),
        ("EOR", "C0"),
    ];
    for (m, code) in table {
        let line = format!("{} ACC ACC", m);
        assert_eq!(run(&[line.as_str()]), Ok(format!("{}\n", code)));
    }
}

#[test]
fn index_register_operand_a_adds_eight() {
    assert_eq!(run(&["LD IX ACC"]), Ok("68\n".to_string()));
    assert_eq!(run(&["ADD IX 10"]), Ok("BA 10\n".to_string()));
    assert_eq!(run(&["EOR IX IX"]), Ok("C9\n".to_string()));
}

#[test]
fn operand_b_deltas() {
    assert_eq!(run(&["LD ACC ACC"]), Ok("60\n".to_string()));
    assert_eq!(run(&["LD ACC IX"]), Ok("61\n".to_string()));
    assert_eq!(run(&["LD ACC 3F"]), Ok("62 3F\n".to_string()));
    assert_eq!(run(&["LD ACC [3F]"]), Ok("64 3F\n".to_string()));
    assert_eq!(run(&["LD ACC (3F)"]), Ok("65 3F\n".to_string()));
    assert_eq!(run(&["LD ACC [IX+3F]"]), Ok("66 3F\n".to_string()));
    assert_eq!(run(&["LD ACC (IX+3F)"]), Ok("67 3F\n".to_string()));
    assert_eq!(run(&["ADD IX (IX+10)"]), Ok("BF 10\n".to_string()));
    assert_eq!(run(&["SUB ACC [IX+a]"]), Ok("A6 0A\n".to_string()));
    assert_eq!(run(&["LD ACC ff"]), Ok("62 FF\n".to_string()));
}

#[test]
fn branch_one_digit_target_is_zero_padded() {
    assert_eq!(run(&["BA 5"]), Ok("30 05\n".to_string()));
}

#[test]
fn branch_conditions() {
    assert_eq!(run(&["BNZ 10"]), Ok("31 10\n".to_string()));
    assert_eq!(run(&["BVF 1"]), Ok("38 01\n".to_string()));
    assert_eq!(run(&["BC 1"]), Ok("3D 01\n".to_string()));
    assert_eq!(run(&["BLE FF"]), Ok("3F FF\n".to_string()));
    assert_eq!(run(&["BA AB"]), Ok("30 AB\n".to_string()));
}

#[test]
fn branch_symbol_resolves_through_table() {
    let out = run(&["LD ACC ACC", "LD ACC 3F", "LOOP:", "BA LOOP"]);
    assert_eq!(out, Ok("60\n62 3F\n30 03\n".to_string()));
}

#[test]
fn label_after_widths_one_and_two_is_three() {
    let mut table = SymbolTable::new();
    let prog = parse(&lines(&["LD ACC ACC", "LD ACC 3F", "HERE:"]), &mut table).unwrap();
    assert_eq!(prog.len(), 2);
    assert_eq!(table.get(&"HERE".to_string()), Some(3));
}

#[test]
fn forward_reference_resolves() {
    assert_eq!(run(&["BA END", "HLT", "END:"]), Ok("30 03\n0F\n".to_string()));
}

#[test]
fn redeclared_label_takes_last_address() {
    assert_eq!(run(&["L:", "NOP", "L:", "BA L"]), Ok("00\n30 01\n".to_string()));
}

#[test]
fn repeated_run_gives_identical_output() {
    let src = ["LOOP:", "LD ACC (IX+10)", "SRA ACC", "BNZ LOOP", "HLT"];
    let first = run(&src);
    let second = run(&src);
    assert!(first.is_ok());
    assert_eq!(first, second);
}

#[test]
fn malformed_line_aborts_without_output() {
    let out = run(&["LD ACC ACC", "FOO BAR BAZ QUX", "HLT"]);
    assert_eq!(
        out,
        Err(AsmError::Parse(ParseError { line: 1, reason: LineError::UnknownInstruction }))
    );
    assert_eq!(
        run(&["nop"]),
        Err(AsmError::Parse(ParseError { line: 0, reason: LineError::UnknownInstruction }))
    );
}

#[test]
fn shift_opcodes() {
    assert_eq!(run(&["SRA ACC"]), Ok("40\n".to_string()));
    assert_eq!(run(&["SLA IX"]), Ok("49\n".to_string()));
    assert_eq!(run(&["RRL ACC"]), Ok("46\n".to_string()));
    assert_eq!(run(&["RLL IX"]), Ok("4F\n".to_string()));
}

#[test]
fn control_opcodes() {
    let out = run(&["NOP", "HLT", "OUT", "IN", "RCF", "SCF"]);
    assert_eq!(out, Ok("00\n0F\n10\n1F\n20\n2F\n".to_string()));
}

#[test]
fn empty_source_gives_empty_output() {
    assert_eq!(run(&[]), Ok(String::new()));
}

#[test]
fn unknown_mnemonics_fail_at_encoding() {
    assert_eq!(run(&["XY ACC ACC"]), Err(AsmError::Encode(EncodeError::UnknownMnemonic)));
    assert_eq!(run(&["BQ 10"]), Err(AsmError::Encode(EncodeError::UnknownMnemonic)));
    assert_eq!(run(&["ABC"]), Err(AsmError::Encode(EncodeError::UnknownMnemonic)));
}

#[test]
fn missing_symbol_fails_at_encoding() {
    assert_eq!(run(&["BA NOWHERE"]), Err(AsmError::Encode(EncodeError::MissingSymbol)));
}

#[test]
fn register_as_branch_target_is_rejected() {
    assert_eq!(
        run(&["NOP", "BA ACC"]),
        Err(AsmError::Parse(ParseError { line: 1, reason: LineError::UnrecognizedOperand }))
    );
}

#[test]
fn program_past_last_address_is_rejected() {
    let mut src: Vec<&str> = vec!["BA 0"; 127];
    src.push("HLT");
    assert!(run(&src).is_ok());
    src.push("HLT");
    assert_eq!(
        run(&src),
        Err(AsmError::Parse(ParseError { line: 128, reason: LineError::AddressOverflow }))
    );
}

#[test]
fn discern_advances_program_counter() {
    let mut pc: u8 = 10;
    let i = discern("LD IX [IX+3F]", &mut pc).unwrap();
    assert_eq!(pc, 12);
    assert_eq!(i.kind, InstructionKind::MAL);
    assert_eq!(i.inst, "LD");
    assert_eq!(i.opr_a, Some(OperandA::IX));
    assert_eq!(i.opr_b, Some(OperandB::IX_PRG(0x3F)));
    let j = discern("BZ LOOP", &mut pc).unwrap();
    assert_eq!(pc, 14);
    assert_eq!(j.kind, InstructionKind::Branch);
    assert_eq!(j.inst, "BZ");
    assert_eq!(j.opr_a, Some(OperandA::Symbol("LOOP".to_string())));
    assert_eq!(discern("HLT ", &mut pc).unwrap_err(), LineError::UnknownInstruction);
    assert_eq!(pc, 14);
}

#[test]
fn operand_a_forms() {
    assert_eq!(discern_opr_a("ACC", 0, 3), Some(OperandA::ACC));
    assert_eq!(discern_opr_a("IX", 0, 2), Some(OperandA::IX));
    assert_eq!(discern_opr_a("5", 0, 1), Some(OperandA::Dest(5)));
    assert_eq!(discern_opr_a("BA LOOP", 3, 7), Some(OperandA::Symbol("LOOP".to_string())));
    assert_eq!(discern_opr_a("loop", 0, 4), None);
}

#[test]
fn operand_b_forms() {
    assert_eq!(discern_opr_b(b"ACC"), Some(OperandB::ACC));
    assert_eq!(discern_opr_b(b"IX"), Some(OperandB::IX));
    assert_eq!(discern_opr_b(b"7"), Some(OperandB::IMMD(7)));
    assert_eq!(discern_opr_b(b"[20]"), Some(OperandB::ABS_PRG(0x20)));
    assert_eq!(discern_opr_b(b"(1)"), Some(OperandB::ABS_DT(1)));
    assert_eq!(discern_opr_b(b"[IX+3F]"), Some(OperandB::IX_PRG(0x3F)));
    assert_eq!(discern_opr_b(b"(IX+0)"), Some(OperandB::IX_DT(0)));
    assert_eq!(discern_opr_b(b"GG"), None);
    assert_eq!(discern_opr_b(b"[IX+]"), None);
    assert_eq!(discern_opr_b(b"123"), None);
}

#[test]
fn hand_built_instructions_encode() {
    let table = SymbolTable::new();
    let i = Instruction::new(InstructionKind::MAL, "ST", Some(OperandA::ACC), Some(OperandB::ABS_DT(0x80)));
    assert_eq!(i.inst, "ST");
    assert_eq!(code_of(&i, &table), Ok(vec![0x75, 0x80]));
    let broken = Instruction::new(InstructionKind::MAL, "ST", Some(OperandA::ACC), None);
    assert_eq!(code_of(&broken, &table), Err(EncodeError::Malformed));
    let unknown = Instruction::new(InstructionKind::Unknown, "ST", None, None);
    assert_eq!(assemble(&vec![unknown], &table), Err(EncodeError::Malformed));
}

#[test]
fn symbol_table_insert_and_get() {
    let mut table = SymbolTable::new();
    assert_eq!(table.get(&"A".to_string()), None);
    table.insert("A".to_string(), 4);
    table.insert("B".to_string(), 9);
    table.insert("A".to_string(), 7);
    assert_eq!(table.get(&"A".to_string()), Some(7));
    assert_eq!(table.get(&"B".to_string()), Some(9));
}
