use offline_memory::audit::{
    generate_memory_interactions, generate_read_interactions, generate_write_interactions,
    MemoryAuditChip,
};
use offline_memory::bus::{check_balance, Direction, Interaction};
use offline_memory::memory::{MemoryController, MemoryError};

const MEMORY_BUS: usize = 1;

fn audit_chip() -> MemoryAuditChip {
    MemoryAuditChip::new(MEMORY_BUS, 2, 29, 8)
}

#[test]
fn end_to_end_two_addresses() {
    let mut mem = MemoryController::new();

    let w0 = mem.write(1, 0, vec![5]).unwrap();
    assert_eq!(w0.timestamp, 1);
    assert_eq!(w0.prev_timestamp, 0);
    assert_eq!(w0.prev_data, vec![0]);

    let w1 = mem.write(1, 1, vec![9]).unwrap();
    assert_eq!(w1.timestamp, 2);

    let r0 = mem.read(1, 0, 1).unwrap();
    assert_eq!(r0.data, vec![5]);
    assert_eq!(r0.timestamp, 3);
    assert_eq!(r0.prev_timestamp, 1);

    let r1 = mem.read(1, 1, 1).unwrap();
    assert_eq!(r1.data, vec![9]);
    assert_eq!(r1.timestamp, 4);
    assert_eq!(r1.prev_timestamp, 2);

    // The frozen audit image: address 0 holds 5 from timestamp 1 and
    // address 1 holds 9 from timestamp 2 — the reads left it untouched.
    let chip = audit_chip();
    let audit = chip.generate_interactions(&mem);
    assert_eq!(audit.len(), 4);
    // Final receive of address 0: (space, pointer, value, timestamp).
    assert_eq!(audit[1].fields, vec![1, 0, 5, 1]);
    assert!(matches!(audit[1].direction, Direction::Receive));
    // Final receive of address 1.
    assert_eq!(audit[3].fields, vec![1, 1, 9, 2]);

    // The whole collection of interactions balances: the proof verifies.
    let all = generate_memory_interactions(&mem, &chip);
    assert!(check_balance(&all));
}

#[test]
fn tampered_final_image_fails() {
    let mut mem = MemoryController::new();
    mem.write(1, 0, vec![5]).unwrap();
    mem.write(1, 1, vec![9]).unwrap();
    mem.read(1, 0, 1).unwrap();
    mem.read(1, 1, 1).unwrap();

    let chip = audit_chip();
    let mut all = generate_memory_interactions(&mem, &chip);
    assert!(check_balance(&all));

    // Mutate the final audit entry of address 0 from value 5 to 6: the bus
    // can no longer balance and verification fails.
    let tampered = all
        .iter()
        .position(|i| {
            matches!(i.direction, Direction::Receive) && i.fields == vec![1, 0, 5, 1]
        })
        .unwrap();
    all[tampered].fields[2] = 6;
    assert!(!check_balance(&all));
}

#[test]
fn never_written_address_reads_default() {
    let mut mem = MemoryController::new();
    let r = mem.read(7, 1234, 3).unwrap();
    assert_eq!(r.data, vec![0, 0, 0]);
    assert_eq!(r.prev_timestamp, 0);
    assert_eq!(r.timestamp, 1);

    // The touch establishes a provable initial state: the argument still
    // balances with the address now in the image.
    let chip = audit_chip();
    let all = generate_memory_interactions(&mem, &chip);
    assert!(check_balance(&all));
}

#[test]
fn read_observes_last_of_many_writes() {
    let mut mem = MemoryController::new();
    for v in [3, 8, 2, 11, 7] {
        mem.write(1, 42, vec![v]).unwrap();
    }
    let r = mem.read(1, 42, 1).unwrap();
    assert_eq!(r.data, vec![7]);
    assert_eq!(r.prev_timestamp, 5);
}

#[test]
fn width_mismatch_is_rejected() {
    let mut mem = MemoryController::new();
    mem.write(1, 0, vec![1, 2]).unwrap();
    assert_eq!(mem.read(1, 0, 1).unwrap_err(), MemoryError::WidthMismatch);
    assert_eq!(mem.write(1, 0, vec![3]).unwrap_err(), MemoryError::WidthMismatch);
    // The matching width still works.
    assert_eq!(mem.read(1, 0, 2).unwrap().data, vec![1, 2]);
}

#[test]
fn bus_balance_is_order_independent() {
    let mut mem = MemoryController::new();
    mem.write(1, 0, vec![5]).unwrap();
    mem.write(2, 3, vec![6]).unwrap();
    mem.read(1, 0, 1).unwrap();

    let chip = audit_chip();
    let mut all = generate_memory_interactions(&mem, &chip);
    assert!(check_balance(&all));
    all.reverse();
    assert!(check_balance(&all));
    all.swap(0, 3);
    assert!(check_balance(&all));
}

#[test]
fn tampered_write_value_fails() {
    let mut mem = MemoryController::new();
    mem.write(1, 0, vec![5]).unwrap();
    mem.write(1, 0, vec![6]).unwrap();
    mem.read(1, 0, 1).unwrap();

    // Flip the recorded new value of the first write.
    let mut log = mem.write_log.clone();
    log[0].data = vec![4];
    let mut all = generate_write_interactions(&log, MEMORY_BUS);
    all.extend(generate_read_interactions(&mem.read_log, MEMORY_BUS));
    all.extend(audit_chip().generate_interactions(&mem));
    assert!(!check_balance(&all));
}

#[test]
fn tampered_write_timestamp_fails() {
    let mut mem = MemoryController::new();
    mem.write(1, 0, vec![5]).unwrap();
    mem.write(1, 1, vec![9]).unwrap();

    let mut log = mem.write_log.clone();
    log[1].timestamp = 7;
    let mut all = generate_write_interactions(&log, MEMORY_BUS);
    all.extend(generate_read_interactions(&mem.read_log, MEMORY_BUS));
    all.extend(audit_chip().generate_interactions(&mem));
    assert!(!check_balance(&all));
}

#[test]
fn tampered_write_address_fails() {
    let mut mem = MemoryController::new();
    mem.write(1, 0, vec![5]).unwrap();
    mem.write(1, 1, vec![9]).unwrap();

    let mut log = mem.write_log.clone();
    log[0].pointer = 2;
    let mut all = generate_write_interactions(&log, MEMORY_BUS);
    all.extend(audit_chip().generate_interactions(&mem));
    assert!(!check_balance(&all));
}

#[test]
fn padding_rows_are_inert() {
    let mut mem = MemoryController::new();
    mem.write(1, 0, vec![5]).unwrap();
    let chip = audit_chip();
    let mut all = generate_memory_interactions(&mem, &chip);
    // A multiplicity-0 row contributes nothing to either side.
    all.push(Interaction {
        bus_id: MEMORY_BUS,
        fields: vec![9, 9, 9, 9],
        multiplicity: 0,
        direction: Direction::Send,
    });
    assert!(check_balance(&all));
}

#[test]
fn touched_addresses_join_the_audit() {
    let mut mem = MemoryController::new();
    mem.write(1, 0, vec![5]).unwrap();
    // Touch a fresh address: it enters the audit with the default value at
    // timestamp 0 without consuming a timestamp.
    mem.touch_address(2, 99, 1);
    assert_eq!(mem.timestamp, 2);
    // Touching an established address changes nothing.
    mem.touch_address(1, 0, 1);
    assert_eq!(mem.touched.len(), 2);

    let chip = audit_chip();
    let audit = chip.generate_interactions(&mem);
    assert_eq!(audit.len(), 4);
    assert_eq!(audit[3].fields, vec![2, 99, 0, 0]);
    let all = generate_memory_interactions(&mem, &chip);
    assert!(check_balance(&all));
}
