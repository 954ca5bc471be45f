use offline_memory::bus::check_balance;
use offline_memory::range_checker::RangeCheckerChip;

const RANGE_BUS: usize = 4;

#[test]
fn boundary_value_passes() {
    // A value exactly at 2^num_bits - 1 passes verification.
    let mut chip = RangeCheckerChip::new(RANGE_BUS, 8);
    chip.range_check(255, 8);
    chip.range_check(7, 3);
    chip.range_check(0, 0);
    let ints = chip.generate_interactions();
    assert!(check_balance(&ints));
}

#[test]
fn boundary_value_fails() {
    // A value exactly at 2^num_bits has no matching table row: the bus
    // cannot balance and verification fails.
    let mut chip = RangeCheckerChip::new(RANGE_BUS, 8);
    chip.range_check(256, 8);
    let ints = chip.generate_interactions();
    assert!(!check_balance(&ints));
}

#[test]
fn bound_above_configured_maximum_fails() {
    let mut chip = RangeCheckerChip::new(RANGE_BUS, 8);
    chip.range_check(1, 9);
    let ints = chip.generate_interactions();
    assert!(!check_balance(&ints));
}

#[test]
fn one_bad_request_spoils_many_good_ones() {
    let mut chip = RangeCheckerChip::new(RANGE_BUS, 8);
    for v in 0..20 {
        chip.range_check(v, 5);
    }
    chip.range_check(32, 5);
    let ints = chip.generate_interactions();
    assert!(!check_balance(&ints));
}

#[test]
fn repeated_checks_share_the_table() {
    let mut chip = RangeCheckerChip::new(RANGE_BUS, 8);
    for _ in 0..5 {
        chip.range_check(200, 8);
    }
    let ints = chip.generate_interactions();
    assert!(check_balance(&ints));
}
