use offline_memory::columns::modular::{
    MemoryData, MemoryOfflineChecker, MemoryReadAuxCols, MemoryWriteAuxCols,
    ModularArithmeticAir, ModularArithmeticAuxCols, ModularArithmeticCols,
    ModularArithmeticIoCols, NUM_LIMBS,
};
use offline_memory::columns::poseidon2::{Poseidon2Air, Poseidon2AuxCols, Poseidon2Cols, Poseidon2IoCols};
use offline_memory::columns::sum::{IsLessThanAuxCols, SumCols};
use offline_memory::utils::next_power_of_two_or_zero;

#[test]
fn next_power_of_two_or_zero_values() {
    assert_eq!(next_power_of_two_or_zero(0), 0);
    assert_eq!(next_power_of_two_or_zero(1), 1);
    assert_eq!(next_power_of_two_or_zero(3), 4);
    assert_eq!(next_power_of_two_or_zero(8), 8);
    assert_eq!(next_power_of_two_or_zero(9), 16);
    assert_eq!(next_power_of_two_or_zero(1000), 1024);
}

#[test]
fn sum_cols_layout() {
    // limb_bits 4, decomp 2: three decomposition limbs.
    assert_eq!(IsLessThanAuxCols::<u32>::get_width(4, 2), 4);
    let row: Vec<u32> = (0..12).collect();
    let cols = SumCols::from_slice(&row, 4, 2);
    assert_eq!(cols.key, 0);
    assert_eq!(cols.value, 1);
    assert_eq!(cols.partial_sum, 2);
    assert_eq!(cols.is_final, 3);
    assert_eq!(cols.is_lt_aux_cols.lower, 4);
    assert_eq!(cols.is_lt_aux_cols.lower_decomp, vec![5, 6, 7]);

    let map = SumCols::<u32>::index_map(4, 2);
    assert_eq!(map.key, 0);
    assert_eq!(map.is_lt_aux_cols.lower, 4);
    assert_eq!(map.is_lt_aux_cols.lower_decomp, vec![5, 6, 7]);
}

#[test]
fn is_less_than_aux_from_slice() {
    let row: Vec<u32> = vec![10, 11, 12, 13, 14];
    let aux = IsLessThanAuxCols::from_slice(&row, 4, 2);
    assert_eq!(aux.lower, 10);
    assert_eq!(aux.lower_decomp, vec![11, 12, 13]);
}

fn poseidon2_air() -> Poseidon2Air<3, u32> {
    Poseidon2Air { rounds_f: 4, rounds_p: 2, external_constants: vec![], internal_constants: vec![] }
}

#[test]
fn poseidon2_widths() {
    let air = poseidon2_air();
    assert_eq!(Poseidon2IoCols::<3, u32>::get_width(), 6);
    assert_eq!(Poseidon2AuxCols::<3, u32>::get_width(&air), 18);
    assert_eq!(Poseidon2Cols::<3, u32>::get_width(&air), 24);
}

#[test]
fn poseidon2_index_map_and_from_slice() {
    let air = poseidon2_air();
    let map = Poseidon2Cols::<3, u32>::index_map(&air);
    assert_eq!(map.input.start, 0);
    assert_eq!(map.input.end, 3);
    assert_eq!(map.phase1.len(), 2);
    assert_eq!(map.phase1[0].start, 3);
    assert_eq!(map.phase2[0].start, 9);
    assert_eq!(map.phase3[1].start, 18);
    assert_eq!(map.output.start, 21);
    assert_eq!(map.output.end, 24);

    let row: Vec<u32> = (0..24).collect();
    let cols = Poseidon2Cols::<3, u32>::from_slice(&row, &map);
    assert_eq!(cols.io.input, vec![0, 1, 2]);
    assert_eq!(cols.aux.phase1[0], vec![3, 4, 5]);
    assert_eq!(cols.aux.phase2[1], vec![12, 13, 14]);
    assert_eq!(cols.io.output, vec![21, 22, 23]);
}

#[test]
fn memory_data_roundtrip() {
    let row: Vec<u32> = (0..40).collect();
    let data = MemoryData::from_iterator(&row);
    assert_eq!(data.data, (0..32).collect::<Vec<u32>>());
    assert_eq!(data.address_space, 32);
    assert_eq!(data.address, 33);
    let flat = data.flatten();
    assert_eq!(flat, (0..34).collect::<Vec<u32>>());
}

fn modular_air() -> ModularArithmeticAir {
    ModularArithmeticAir {
        carry_limbs: 3,
        q_limbs: 2,
        mem_oc: MemoryOfflineChecker { timestamp_lt_limbs: 1 },
    }
}

#[test]
fn modular_widths() {
    let air = modular_air();
    assert_eq!(ModularArithmeticIoCols::<u32>::width(), 3 * NUM_LIMBS + 17);
    assert_eq!(MemoryReadAuxCols::<NUM_LIMBS, u32>::width(&air.mem_oc), 64);
    assert_eq!(MemoryWriteAuxCols::<NUM_LIMBS, u32>::width(&air.mem_oc), 96);
    // 2 reads + 1 write of the operands, 3 single-cell address reads,
    // 3 carries and 2 quotient limbs.
    assert_eq!(ModularArithmeticAuxCols::<u32>::width(&air), 64 + 64 + 96 + 2 + 2 + 2 + 3 + 2);
    assert_eq!(
        ModularArithmeticCols::<u32>::width(&air),
        3 * NUM_LIMBS + 17 + 235
    );
}

#[test]
fn modular_io_cols_roundtrip() {
    let row: Vec<u32> = (0..300).collect();
    let io = ModularArithmeticIoCols::from_iterator(&row);
    assert_eq!(io.from_state.pc, 0);
    assert_eq!(io.from_state.timestamp, 1);
    assert_eq!(io.x.data, (2..34).collect::<Vec<u32>>());
    assert_eq!(io.x.address_space, 34);
    assert_eq!(io.x.address, 35);
    assert_eq!(io.y.data, (36..68).collect::<Vec<u32>>());
    let flat = io.flatten();
    assert_eq!(flat, (0..206).collect::<Vec<u32>>());
}

#[test]
fn modular_aux_cols_roundtrip() {
    let air = modular_air();
    let row: Vec<u32> = (0..236).collect();
    let aux = ModularArithmeticAuxCols::from_iterator(&row, &air);
    assert_eq!(aux.is_valid, 0);
    assert_eq!(aux.read_x_aux_cols.prev_timestamps, (1..33).collect::<Vec<u32>>());
    assert_eq!(aux.carries, vec![231, 232, 233]);
    assert_eq!(aux.q, vec![234, 235]);
    let flat = aux.flatten();
    assert_eq!(flat, (0..236).collect::<Vec<u32>>());
}

#[test]
fn modular_full_row_roundtrip() {
    let air = modular_air();
    let row: Vec<u32> = (0..(206 + 236)).collect();
    let cols = ModularArithmeticCols::from_iterator(&row, &air);
    assert_eq!(cols.io.from_state.pc, 0);
    assert_eq!(cols.aux.is_valid, 206);
    let flat = cols.flatten();
    assert_eq!(flat, row);
}

#[test]
fn memory_data_default_is_all_default_cells() {
    let d: MemoryData<u32> = Default::default();
    assert_eq!(d.data, vec![0u32; NUM_LIMBS]);
    assert_eq!(d.address_space, 0);
    assert_eq!(d.address, 0);
}
