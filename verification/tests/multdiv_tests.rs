use offline_memory::columns::modular::ExecutionState;
use offline_memory::memory::MemoryController;
use offline_memory::multdiv::{ModularArithmeticOpcode, ModularMultDivChip};
use offline_memory::transpiler::Instruction;

fn chip_mod_7() -> ModularMultDivChip {
    ModularMultDivChip::new(0, 2, vec![7], 0x700)
}

#[test]
fn mul_reduces_modulo() {
    let chip = chip_mod_7();
    let r = chip.solve(ModularArithmeticOpcode::MUL, &vec![3], &vec![4]).unwrap();
    assert_eq!(r, vec![5]);
    let r = chip.solve(ModularArithmeticOpcode::MUL, &vec![6], &vec![6]).unwrap();
    assert_eq!(r, vec![1]);
}

#[test]
fn div_multiplies_by_inverse() {
    let chip = chip_mod_7();
    // 3 / 2 mod 7 = 3 * 4 mod 7 = 5, and indeed 5 * 2 = 10 = 3 mod 7.
    let r = chip.solve(ModularArithmeticOpcode::DIV, &vec![3], &vec![2]).unwrap();
    assert_eq!(r, vec![5]);
}

#[test]
fn div_by_noninvertible_fails() {
    let chip = ModularMultDivChip::new(0, 2, vec![6], 0x700);
    assert!(chip.solve(ModularArithmeticOpcode::DIV, &vec![3], &vec![2]).is_none());
    // The same operand is fine under a coprime modulus.
    let coprime = chip_mod_7();
    assert!(coprime.solve(ModularArithmeticOpcode::DIV, &vec![3], &vec![2]).is_some());
}

#[test]
fn multi_limb_operands() {
    // Modulus 0x0101 = 257: 256 is -1 there, so 256 * 256 = 1.
    let chip = ModularMultDivChip::new(0, 2, vec![1, 1], 0x700);
    let r = chip.solve(ModularArithmeticOpcode::MUL, &vec![0, 1], &vec![0, 1]).unwrap();
    assert_eq!(r, vec![1]);
    // 255 * 256 = 65280 = 2 mod 257.
    let r = chip.solve(ModularArithmeticOpcode::MUL, &vec![255], &vec![0, 1]).unwrap();
    assert_eq!(r, vec![2]);
}

#[test]
fn execute_reads_solves_and_writes_back() {

    let mut chip = ModularMultDivChip::new(0, 2, vec![7], 0x700);
    let mut memory = MemoryController::new();

    // Set up the heap: address cells at pointers 10, 11, 12 point at the
    // operand and result arrays; the operands are 3 and 4.
    memory.write(1, 10, vec![100]).unwrap();
    memory.write(1, 11, vec![101]).unwrap();
    memory.write(1, 12, vec![102]).unwrap();
    memory.write(2, 101, vec![3]).unwrap();
    memory.write(2, 102, vec![4]).unwrap();

    // Multiply: opcode offset + 2.
    let instruction = Instruction {
        opcode: 0x700 + 2,
        a: 10,
        b: 11,
        c: 12,
        d: 1,
        e: 2,
        f: 0,
        g: 0,
    };
    let from_state = ExecutionState { pc: 17, timestamp: memory.timestamp };
    let state = chip.execute(&mut memory, instruction, from_state).unwrap();
    assert_eq!(state.pc, 18);
    assert_eq!(state.timestamp, memory.timestamp);
    assert_eq!(chip.data.len(), 1);

    // 3 * 4 mod 7 = 5, written at the cell pointer 10 points at.
    let z = memory.read(2, 100, 1).unwrap();
    assert_eq!(z.data, vec![5]);
}

#[test]
fn execute_refuses_unknown_opcodes() {

    let mut chip = chip_mod_7();
    let mut memory = MemoryController::new();
    let instruction = Instruction { opcode: 1, a: 0, b: 0, c: 0, d: 1, e: 2, f: 0, g: 0 };
    let from_state = ExecutionState { pc: 0, timestamp: memory.timestamp };
    let r = chip.execute(&mut memory, instruction, from_state);
    assert!(r.is_err());
}

#[test]
fn execute_distinguishes_division_failures() {
    // Modulus 6 shares a factor with the operand 2: division is undefined.
    let mut chip = ModularMultDivChip::new(0, 2, vec![6], 0x700);
    let mut memory = MemoryController::new();
    memory.write(1, 10, vec![100]).unwrap();
    memory.write(1, 11, vec![101]).unwrap();
    memory.write(1, 12, vec![102]).unwrap();
    memory.write(2, 101, vec![3]).unwrap();
    memory.write(2, 102, vec![2]).unwrap();
    let instruction = Instruction {
        opcode: 0x700 + 3,
        a: 10,
        b: 11,
        c: 12,
        d: 1,
        e: 2,
        f: 0,
        g: 0,
    };
    let from_state = ExecutionState { pc: 0, timestamp: memory.timestamp };
    let r = chip.execute(&mut memory, instruction, from_state);
    assert!(matches!(
        r,
        Err(offline_memory::multdiv::ExecutionError::DivisionUndefined)
    ));
    // Nothing was written and no record was logged.
    assert_eq!(chip.data.len(), 0);
    assert_eq!(memory.write_log.len(), 5);
}

#[test]
fn execute_reports_width_mismatches() {
    let mut chip = chip_mod_7();
    let mut memory = MemoryController::new();
    // The x address cell is two cells wide: the heap read must refuse it.
    memory.write(1, 11, vec![1, 2]).unwrap();
    let instruction = Instruction {
        opcode: 0x700 + 2,
        a: 10,
        b: 11,
        c: 12,
        d: 1,
        e: 2,
        f: 0,
        g: 0,
    };
    let from_state = ExecutionState { pc: 0, timestamp: memory.timestamp };
    let r = chip.execute(&mut memory, instruction, from_state);
    assert!(matches!(
        r,
        Err(offline_memory::multdiv::ExecutionError::Memory(
            offline_memory::memory::MemoryError::WidthMismatch
        ))
    ));
}

#[test]
fn opcode_names() {
    let chip = chip_mod_7();
    assert_eq!(chip.get_opcode_name(0x700 + 2), "MUL");
    assert_eq!(chip.get_opcode_name(0x700 + 3), "DIV");
    assert_eq!(chip.get_opcode_name(1), "UNKNOWN");
}
