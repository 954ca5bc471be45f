use offline_memory::bus::{Direction, Interaction};
use offline_memory::field::{
    and, fadd, fill_slc_to_f, finv, fmul, freduce, fsub, not, or, select, to_field_vec, FieldFrom,
};
use offline_memory::audit::{generate_memory_interactions, MemoryAuditChip};
use offline_memory::logup::{fingerprint_at, grand_sum};
use offline_memory::memory::MemoryController;
use offline_memory::FIELD_MODULUS;

#[test]
fn field_ops_are_modular() {
    assert_eq!(fadd(FIELD_MODULUS - 1, 1), 0);
    assert_eq!(fadd(1, 2), 3);
    assert_eq!(fsub(0, 1), FIELD_MODULUS - 1);
    assert_eq!(fmul(2, 3), 6);
    assert_eq!(fmul(FIELD_MODULUS - 1, FIELD_MODULUS - 1), 1);
    assert_eq!(freduce(FIELD_MODULUS), 0);
    assert_eq!(freduce(FIELD_MODULUS + 5), 5);
}

#[test]
fn inverses_multiply_to_one() {
    assert_eq!(finv(0), None);
    for v in [1u32, 2, 3, 12345, FIELD_MODULUS - 1] {
        let inv = finv(v).unwrap();
        assert_eq!(fmul(v, inv), 1);
    }
}

#[test]
fn field_from_plain_values() {
    assert_eq!(<u32 as FieldFrom<u8>>::from_val(200u8), 200u32);
    assert_eq!(<u32 as FieldFrom<u32>>::from_val(77u32), 77u32);
}

#[test]
fn fingerprint_is_horner_evaluation() {
    assert_eq!(fingerprint_at(&vec![], 10), 0);
    assert_eq!(fingerprint_at(&vec![1, 2], 10), 12);
    assert_eq!(fingerprint_at(&vec![7], 0), 7);
}

fn interaction(fields: Vec<u32>, multiplicity: u32, direction: Direction) -> Interaction {
    Interaction { bus_id: 1, fields, multiplicity, direction }
}

#[test]
fn balanced_pair_sums_to_zero() {
    let ints = vec![
        interaction(vec![3, 4], 2, Direction::Send),
        interaction(vec![3, 4], 2, Direction::Receive),
    ];
    assert_eq!(grand_sum(&ints, 17, 19), Some(0));
}

#[test]
fn unbalanced_send_sums_to_nonzero() {
    let ints = vec![interaction(vec![3, 4], 1, Direction::Send)];
    let s = grand_sum(&ints, 17, 19).unwrap();
    assert_ne!(s, 0);
}

#[test]
fn vanishing_denominator_is_reported() {
    // An empty tuple has fingerprint 0, so challenge alpha = 0 makes the
    // denominator vanish: the verifier must resample.
    let ints = vec![interaction(vec![], 1, Direction::Send)];
    assert_eq!(grand_sum(&ints, 0, 19), None);
}

#[test]
fn grand_sum_of_empty_collection_is_zero() {
    assert_eq!(grand_sum(&vec![], 1, 1), Some(0));
}

#[test]
fn boolean_algebra_on_field_elements() {
    assert_eq!(not(0), 1);
    assert_eq!(not(1), 0);
    assert_eq!(and(1, 1), 1);
    assert_eq!(and(1, 0), 0);
    assert_eq!(or(0, 0), 0);
    assert_eq!(or(1, 0), 1);
    assert_eq!(or(1, 1), 1);
    assert_eq!(offline_memory::field::implies(1, 0), 0);
    assert_eq!(offline_memory::field::implies(0, 0), 1);
    assert_eq!(offline_memory::field::implies(1, 1), 1);
    assert_eq!(select(1, 7, 9), 7);
    assert_eq!(select(0, 7, 9), 9);

    assert_eq!(to_field_vec(&vec![0, 5, FIELD_MODULUS]), vec![0, 5, 0]);
    let mut dest = vec![9, 9, 9];
    fill_slc_to_f(&mut dest, &vec![FIELD_MODULUS + 1, 2]);
    assert_eq!(dest, vec![1, 2, 9]);
}

#[test]
fn honest_memory_argument_sums_to_zero() {
    let mut memory = MemoryController::new();
    memory.write(1, 0, vec![5]).unwrap();
    memory.write(1, 1, vec![9]).unwrap();
    memory.read(1, 0, 1).unwrap();

    let chip = MemoryAuditChip::new(1, 2, 29, 8);
    let interactions = generate_memory_interactions(&memory, &chip);
    // The collection is balanced, so the randomized check accepts at any
    // challenge that leaves every denominator invertible.
    assert_eq!(grand_sum(&interactions, 17, 19), Some(0));
    assert_eq!(grand_sum(&interactions, 123456, 7890), Some(0));
}

#[test]
fn tampered_argument_fails_the_randomized_check() {
    let mut memory = MemoryController::new();
    memory.write(1, 0, vec![5]).unwrap();
    memory.write(1, 1, vec![9]).unwrap();

    let chip = MemoryAuditChip::new(1, 2, 29, 8);
    let mut interactions = generate_memory_interactions(&memory, &chip);
    assert_eq!(grand_sum(&interactions, 17, 19), Some(0));

    // Flip the final value of address 0: the sampled challenge separates
    // the tampered tuple from the honest one.
    let tampered = interactions.iter().position(|i| i.fields == vec![1, 0, 5, 1]).unwrap();
    interactions[tampered].fields[2] = 6;
    assert_ne!(grand_sum(&interactions, 17, 19), Some(0));
}
