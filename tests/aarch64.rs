use beach::aarch64::{convert_instruction, line_to_intermediate, AssemblyFault, Condition, Instruction, Register};

#[test]
fn test_branch_instructions() {
    assert_eq!(convert_instruction(line_to_intermediate("b #16020").unwrap()), 0x14000FA5);
    assert_eq!(convert_instruction(line_to_intermediate("b #0x3e94").unwrap()), 0x14000FA5);
    assert_eq!(convert_instruction(line_to_intermediate("b #20").unwrap()), 0x14000005);
}

#[test]
fn negative_branch_sets_bit_27() {
    assert_eq!(line_to_intermediate("  B #-8 "), Ok(Instruction::B { offset: 8 | (1 << 27) }));
}

#[test]
fn unknown_opcode_and_bad_operands() {
    assert_eq!(line_to_intermediate("mov x0, x1"), Err(AssemblyFault::UnknownOpcode));
    assert_eq!(line_to_intermediate("b label"), Err(AssemblyFault::Unsupported));
    assert_eq!(line_to_intermediate("b #12z"), Err(AssemblyFault::InvalidImmediate));
    assert_eq!(line_to_intermediate("b #2147483648"), Err(AssemblyFault::InvalidImmediate));
}

#[test]
fn register_and_condition_codes() {
    assert_eq!(Register::R0.to_5_bits(), 0);
    assert_eq!(Register::R17.to_5_bits(), 17);
    assert_eq!(Register::ZR.to_5_bits(), 31);
    assert_eq!(Condition::EQ.to_bits(), 0);
    assert_eq!(Condition::GT.to_bits(), 12);
    assert_eq!(Condition::NV.to_bits(), 15);
}

#[test]
fn movz_encoding() {
    let word = convert_instruction(Instruction::MOVZ {
        destination: Register::R1,
        value: 3,
        shift: 16,
        half: false,
    });
    assert_eq!(word, 0x5280_0000 | (1 << 21) | (3 << 5) | 1);
}
