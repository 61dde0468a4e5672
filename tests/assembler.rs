use rasm::{AsmError, Immediate, Instruction, MemoryAddress, Overroot, Register, SymbolTable};

fn encode_line(line: &str) -> Result<String, AsmError> {
    Instruction::build(line)?.encode()
}

#[test]
fn encodes_documented_examples() {
    assert_eq!(encode_line("init A 05h").unwrap(), "050005");
    assert_eq!(encode_line("copy A B").unwrap(), "0A0001");
    assert_eq!(encode_line("adcp B C").unwrap(), "0B0102");
    assert_eq!(encode_line("str 10h A").unwrap(), "071000");
}

#[test]
fn encodes_upper_case_hex() {
    assert_eq!(encode_line("init H 255").unwrap(), "0507FF");
    assert_eq!(encode_line("str 171 Datt").unwrap(), "07AB03");
    assert_eq!(encode_line("  init\tG   0  ").unwrap(), "050600");
}

#[test]
fn builds_typed_operands() {
    let i = Instruction::build("init Carr 12").unwrap();
    assert_eq!(
        i,
        Instruction::Init(Register::build("C").unwrap(), Immediate::build("0Ch").unwrap())
    );
}

#[test]
fn unassigned_operations_build_but_do_not_encode() {
    for line in ["adl A 10h", "asn 10h 5", "load B 20"] {
        let i = Instruction::build(line).unwrap();
        assert_eq!(i.encode(), Err(AsmError::UnimplementedOperation { instruction: i }));
    }
    assert_eq!(
        Instruction::build("asn 10h 5").unwrap(),
        Instruction::Asn(MemoryAddress::build("16").unwrap(), Immediate::build("5").unwrap())
    );
}

#[test]
fn unknown_mnemonic_is_refused() {
    assert_eq!(
        Instruction::build("jmp A B"),
        Err(AsmError::InvalidOperation { token: "jmp".to_string() })
    );
    assert_eq!(
        Instruction::build("Init A 1"),
        Err(AsmError::InvalidOperation { token: "Init".to_string() })
    );
}

#[test]
fn first_bad_operand_is_reported() {
    assert_eq!(
        Instruction::build("copy X Y"),
        Err(AsmError::InvalidRegister { token: "X".to_string() })
    );
    assert_eq!(
        Instruction::build("str A B"),
        Err(AsmError::InvalidMemoryAddress { token: "A".to_string() })
    );
    assert_eq!(
        Instruction::build("adl A B"),
        Err(AsmError::InvalidMemoryAddress { token: "B".to_string() })
    );
}

#[test]
fn wrong_token_count_is_refused() {
    assert_eq!(
        Instruction::build("init A"),
        Err(AsmError::InvalidInstructionFormat { line: "init A".to_string() })
    );
    assert!(Instruction::build("init A 1 2").is_err());
}

#[test]
fn constant_substitution_matches_direct_text() {
    let with_constant = Overroot::from_source("REG := A\ninit REG 05h").unwrap();
    let direct = Overroot::from_source("init A 05h").unwrap();
    assert_eq!(with_constant.instructions(), direct.instructions());
    assert_eq!(with_constant.encode().unwrap(), direct.encode().unwrap());
}

#[test]
fn constant_value_may_hold_several_tokens() {
    let prog = Overroot::from_source("OPS := A 07h\ninit OPS").unwrap();
    assert_eq!(prog.encode().unwrap(), vec!["050007".to_string()]);
}

#[test]
fn substitution_is_single_level_and_idempotent() {
    let mut t = SymbolTable::new();
    t.define_constant("X".to_string(), "Y".to_string());
    assert_eq!(t.substitute("X"), "Y");
    assert_eq!(t.substitute(&t.substitute("X")), "Y");
    assert_eq!(t.substitute("Z"), "Z");
    t.define_constant("Y".to_string(), "Z".to_string());
    assert_eq!(t.substitute("X"), "Y");
    t.define_constant("X".to_string(), "W".to_string());
    assert_eq!(t.substitute("X"), "W");
}

#[test]
fn labels_record_instruction_offsets() {
    let prog = Overroot::from_source("start::\ninit A 1\ncopy A B\nnext::\nadcp B C").unwrap();
    assert_eq!(prog.symbols().resolve_label("start::"), Ok(0));
    assert_eq!(prog.symbols().resolve_label("next::"), Ok(2));
    assert_eq!(
        prog.symbols().resolve_label("none::"),
        Err(AsmError::UnknownLabel { name: "none::".to_string() })
    );
}

#[test]
fn duplicate_label_is_ambiguous() {
    assert_eq!(
        Overroot::from_source("l::\ninit A 1\nl::").unwrap_err(),
        AsmError::AmbiguousLabel { name: "l::".to_string() }
    );
}

#[test]
fn malformed_constants_are_refused() {
    for line in ["X :=", ":= A", "X := A := B", "   :=  "] {
        assert_eq!(
            Overroot::from_source(line).unwrap_err(),
            AsmError::InvalidConstantFormat { line: line.to_string() }
        );
    }
}

#[test]
fn comments_and_blank_lines_are_skipped() {
    let src = "/// a comment\n\n   \ninit A 1\r\n/// init X 1\ncopy A B\n";
    let prog = Overroot::from_source(src).unwrap();
    assert_eq!(prog.encode().unwrap(), vec!["050001".to_string(), "0A0001".to_string()]);
}

#[test]
fn failed_instruction_leaves_program_unchanged() {
    let mut prog = Overroot::new();
    prog.push_instruction("init A 1").unwrap();
    assert_eq!(
        prog.push_instruction("jmp A B"),
        Err(AsmError::InvalidOperation { token: "jmp".to_string() })
    );
    assert_eq!(prog.instructions().len(), 1);
    assert_eq!(prog.encode().unwrap(), vec!["050001".to_string()]);
}

#[test]
fn assembly_stops_at_first_error() {
    assert_eq!(
        Overroot::from_source("init A 1\njmp A B\ninit Q 1").unwrap_err(),
        AsmError::InvalidOperation { token: "jmp".to_string() }
    );
}

#[test]
fn encoding_stops_at_first_unassigned_instruction() {
    let prog = Overroot::from_source("init A 1\nload B 2\nasn 1 2").unwrap();
    let load = Instruction::build("load B 2").unwrap();
    assert_eq!(prog.encode(), Err(AsmError::UnimplementedOperation { instruction: load }));
}

#[test]
fn empty_source_encodes_to_nothing() {
    let prog = Overroot::from_source("").unwrap();
    assert_eq!(prog.encode().unwrap(), Vec::<String>::new());
}

#[test]
fn packed_bytes_follow_hex_text() {
    let prog = Overroot::from_source("init A 05h\nstr 10h B").unwrap();
    assert_eq!(prog.encode_bytes().unwrap(), vec![0x05, 0x00, 0x05, 0x07, 0x10, 0x01]);
    let bad = Overroot::from_source("init A 1\nadl A 2").unwrap();
    assert!(matches!(bad.encode_bytes(), Err(AsmError::UnimplementedOperation { .. })));
}
