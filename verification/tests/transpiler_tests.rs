use offline_memory::riscv::RvOpcodePrefix;
use offline_memory::transpiler::{EccPhantom, EccTranspilerExtension, Rv32WeierstrassOpcode};

fn r_type(funct7: u32, rs2: u32, rs1: u32, funct3: u32, rd: u32, opcode: u32) -> u32 {
    (funct7 << 25) | (rs2 << 20) | (rs1 << 15) | (funct3 << 12) | (rd << 7) | opcode
}

#[test]
fn decodes_ec_add_ne() {
    let ext = EccTranspilerExtension;
    let word = r_type(0, 3, 2, 1, 1, 0x2b);
    let (instr, consumed) = ext.process_custom(&[word]).unwrap();
    assert_eq!(consumed, 1);
    assert_eq!(instr.opcode, 0x600);
    assert_eq!(instr.a, 4);
    assert_eq!(instr.b, 8);
    assert_eq!(instr.c, 12);
    assert_eq!(instr.d, 1);
    assert_eq!(instr.e, 2);
}

#[test]
fn decodes_ec_double_on_second_curve() {
    let ext = EccTranspilerExtension;
    // base operation 1 (double) on curve 2: funct7 = 2 * 8 + 1.
    let word = r_type(17, 0, 2, 1, 1, 0x2b);
    let (instr, _) = ext.process_custom(&[word]).unwrap();
    assert_eq!(instr.opcode, 0x600 + 2 + 2 * 4);
}

#[test]
fn decodes_setup_instructions() {
    let ext = EccTranspilerExtension;
    // Setup with rs2 = 0 configures doubling.
    let (instr, _) = ext.process_custom(&[r_type(2, 0, 2, 1, 1, 0x2b)]).unwrap();
    assert_eq!(instr.opcode, 0x600 + 3);
    // Setup with rs2 != 0 configures unequal addition.
    let (instr, _) = ext.process_custom(&[r_type(2, 5, 2, 1, 1, 0x2b)]).unwrap();
    assert_eq!(instr.opcode, 0x600 + 1);
}

#[test]
fn decodes_decompression_hint() {
    let ext = EccTranspilerExtension;
    // Base operation 3 on curve 1: a phantom instruction.
    let word = r_type(8 + 3, 6, 5, 1, 0, 0x2b);
    let (instr, _) = ext.process_custom(&[word]).unwrap();
    assert_eq!(instr.opcode, 1);
    assert_eq!(instr.a, 20);
    assert_eq!(instr.b, 24);
    assert_eq!(instr.c, (1 << 16) | 0x40);
}

#[test]
fn foreign_words_are_ignored() {
    let ext = EccTranspilerExtension;
    assert!(ext.process_custom(&[]).is_none());
    // Wrong opcode prefix.
    assert!(ext.process_custom(&[r_type(0, 3, 2, 1, 1, 0x0b)]).is_none());
    // Wrong funct3.
    assert!(ext.process_custom(&[r_type(0, 3, 2, 0, 1, 0x2b)]).is_none());
}

#[test]
fn opcode_prefixes_and_offsets() {
    assert_eq!(RvOpcodePrefix::Custom0.value(), 0x0b);
    assert_eq!(RvOpcodePrefix::Custom1.value(), 0x2b);
    assert_eq!(Rv32WeierstrassOpcode::EC_ADD_NE.with_default_offset(), 0x600);
    assert_eq!(Rv32WeierstrassOpcode::SETUP_EC_DOUBLE.with_default_offset(), 0x603);
    assert_eq!(EccPhantom::HintDecompress.discriminant(), 0x40);
}
