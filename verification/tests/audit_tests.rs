use std::collections::HashSet;

use rand::rngs::StdRng;
use rand::{RngExt, SeedableRng};

use offline_memory::audit::{generate_memory_interactions, MemoryAuditChip};
use offline_memory::bus::{check_balance, Direction};
use offline_memory::memory::MemoryController;
use offline_memory::range_checker::RangeCheckerChip;

#[test]
fn audit_air_test() {
    let mut rng = StdRng::seed_from_u64(25);

    const MEMORY_BUS: usize = 1;
    const MAX_ADDRESS_SPACE: u32 = 4;
    const LIMB_BITS: u32 = 29;
    const MAX_VAL: u32 = 1 << LIMB_BITS;
    const DECOMP: usize = 8;

    let num_addresses = 10;
    let mut distinct_addresses = HashSet::new();
    while distinct_addresses.len() < num_addresses {
        let addr_space = rng.random_range(0..MAX_ADDRESS_SPACE);
        let pointer = rng.random_range(0..MAX_VAL);
        distinct_addresses.insert((addr_space, pointer));
    }

    let mut memory = MemoryController::new();
    for (addr_space, pointer) in distinct_addresses.iter().cloned() {
        let value = rng.random_range(0..MAX_VAL);
        memory.write(addr_space, pointer, vec![value]).unwrap();
    }

    let audit_chip = MemoryAuditChip::new(MEMORY_BUS, 2, LIMB_BITS as usize, DECOMP);
    let interactions = generate_memory_interactions(&memory, &audit_chip);
    // One initial send and one final receive per touched address, plus the
    // write records' pairs.
    assert_eq!(interactions.len(), 4 * num_addresses);
    assert!(check_balance(&interactions), "Verification failed");

    // Every touched address appears exactly once as an initial send at
    // timestamp 0.
    let initial_rows = interactions
        .iter()
        .filter(|i| matches!(i.direction, Direction::Send) && *i.fields.last().unwrap() == 0)
        .count();
    assert_eq!(initial_rows, num_addresses);
}

#[test]
fn audit_trace_is_padded_and_range_checked() {
    let mut memory = MemoryController::new();
    memory.write(1, 300, vec![5]).unwrap();
    memory.write(2, 7, vec![9]).unwrap();
    memory.read(3, 1000, 1).unwrap();

    let audit_chip = MemoryAuditChip::new(1, 2, 29, 8);
    let mut range_checker = RangeCheckerChip::new(4, 8);
    let trace = audit_chip.generate_trace(&memory, 1, &mut range_checker);

    // One cell for the multiplicity, two for the address, one value cell
    // and one timestamp cell; three live rows padded to four.
    assert_eq!(trace.width, 5);
    assert_eq!(trace.values.len(), 5 * 4);
    assert_eq!(&trace.values[0..5], &[1, 1, 300, 5, 1]);
    assert_eq!(&trace.values[5..10], &[1, 2, 7, 9, 2]);
    assert_eq!(&trace.values[10..15], &[1, 3, 1000, 0, 0]);
    assert_eq!(&trace.values[15..20], &[0, 0, 0, 0, 0]);

    // The pointer limbs were range-checked through the shared checker and
    // never unbalance the range bus.
    assert!(check_balance(&range_checker.generate_interactions()));
}
