//! The modular multiplication/division chip: operates on big integers
//! represented as 8-bit limbs in little-endian order, reading its operands
//! from memory through the controller and writing the result back.

use vstd::prelude::*;
use num_bigint_dig::BigUint;
use num_bigint_dig::ModInverse;

verus! {

use vstd::calc;

use crate::columns::modular::ExecutionState;
use crate::field::fe_wf;
use crate::memory::{
    addr_key, image_multiset, init_multiset, last_write_to, writes_new_multiset,
    writes_old_multiset, zero_seq, MemoryController, MemoryError, MemoryHeapReadRecord,
    MemoryHeapWriteRecord, MAX_TIMESTAMP,
};
use crate::transpiler::Instruction;

/// The bit width of one operand limb.
pub const LIMB_SIZE: usize = 8;

/// Everything one executed modular mult/div instruction contributes to the
/// chip's trace: the instruction, the state it ran from, the two operand
/// reads and the result write.
pub struct ModularMultDivRecord {
    pub from_state: ExecutionState<u32>,
    pub instruction: Instruction,
    pub x_array_read: MemoryHeapReadRecord,
    pub y_array_read: MemoryHeapReadRecord,
    pub z_array_write: MemoryHeapWriteRecord,
}

/// The operations this chip implements.
#[derive(Clone, Copy, PartialEq, Eq, Structural, Debug)]
pub enum ModularArithmeticOpcode {
    MUL,
    DIV,
}

/// The integer a little-endian limb vector denotes.
pub open spec fn le_limbs_to_int(s: Seq<u8>) -> int
    decreases s.len(),
{
    if s.len() == 0 {
        0
    } else {
        s.first() + 256 * le_limbs_to_int(s.drop_first())
    }
}

/// The greatest common divisor.
pub open spec fn gcd_nat(a: nat, b: nat) -> nat
    decreases b,
{
    if b == 0 {
        a
    } else {
        gcd_nat(b, a % b)
    }
}

/// Relies on `num_bigint_dig::BigUint`: `from_bytes_le` reads little-endian
/// bytes, `*` and `%` are exact big-integer multiplication and Euclidean
/// remainder, and `to_bytes_le` writes the minimal little-endian
/// representation back.
#[verifier::external_body]
fn biguint_mul_mod(x: &Vec<u8>, y: &Vec<u8>, m: &Vec<u8>) -> (r: Vec<u8>)
    requires
        le_limbs_to_int(m@) >= 1,
    ensures
        le_limbs_to_int(r@) == (le_limbs_to_int(x@) * le_limbs_to_int(y@)) % le_limbs_to_int(m@),
        r@.len() <= m@.len(),
{
    let xb = BigUint::from_bytes_le(x.as_slice());
    let yb = BigUint::from_bytes_le(y.as_slice());
    let mb = BigUint::from_bytes_le(m.as_slice());
    (xb * yb % mb).to_bytes_le()
}

/// Relies on `num_bigint_dig::ModInverse` for `BigUint`: it returns the
/// inverse modulo `m`, in canonical range, exactly when the value and the
/// modulus are coprime.
#[verifier::external_body]
fn biguint_mod_inverse(y: &Vec<u8>, m: &Vec<u8>) -> (r: Option<Vec<u8>>)
    requires
        le_limbs_to_int(m@) >= 2,
    ensures
        r is Some <==> gcd_nat(le_limbs_to_int(y@) as nat, le_limbs_to_int(m@) as nat) == 1,
        r matches Some(v) ==> (le_limbs_to_int(y@) * le_limbs_to_int(v@)) % le_limbs_to_int(m@)
            == 1 && v@.len() <= m@.len(),
{
    let yb = BigUint::from_bytes_le(y.as_slice());
    let mb = BigUint::from_bytes_le(m.as_slice());
    yb.mod_inverse(&mb).map(|v| v.to_biguint().unwrap().to_bytes_le())
}


/// An instruction the chip cannot execute, or a memory access it must
/// refuse.
#[derive(Clone, Copy, PartialEq, Eq, Structural, Debug)]
pub enum ExecutionError {
    Memory(MemoryError),
    UnknownOpcode,
    DivisionUndefined,
}

/// The 8-bit limb values of memory cells: each cell is read modulo 256, the
/// chip's limb convention.
pub open spec fn bytes_of(s: Seq<u32>) -> Seq<u8> {
    s.map_values(|x: u32| (x % 256) as u8)
}

/// Truncates memory cells to the chip's 8-bit limbs.
fn cells_to_limbs(v: &Vec<u32>) -> (r: Vec<u8>)
    ensures
        r@ == bytes_of(v@),
{
    let mut r: Vec<u8> = Vec::new();
    let mut i: usize = 0;
    while i < v.len()
        invariant
            0 <= i <= v@.len(),
            r@ =~= bytes_of(v@.take(i as int)),
        decreases v@.len() - i,
    {
        r.push((v[i] % 256) as u8);
        proof {
            assert(r@ =~= bytes_of(v@.take(i + 1)));
        }
        i += 1;
    }
    proof {
        assert(v@.take(v@.len() as int) =~= v@);
    }
    r
}

/// Widens 8-bit limbs back to memory cells, padding with zero limbs to the
/// requested width.
fn limbs_to_cells(v: &Vec<u8>, width: usize) -> (r: Vec<u32>)
    requires
        v@.len() <= width,
    ensures
        r@.len() == width,
        forall|j: int| 0 <= j < v@.len() ==> r@[j] == v@[j],
        forall|j: int| v@.len() <= j < width ==> r@[j] == 0,
        forall|j: int| 0 <= j < width ==> fe_wf(#[trigger] r@[j]),
    decreases width,
{
    let mut r: Vec<u32> = Vec::new();
    let mut i: usize = 0;
    while i < v.len()
        invariant
            0 <= i <= v@.len(),
            v@.len() <= width,
            r@.len() == i,
            forall|j: int| 0 <= j < i ==> r@[j] == v@[j],
            forall|j: int| 0 <= j < i ==> fe_wf(#[trigger] r@[j]),
        decreases v@.len() - i,
    {
        r.push(v[i] as u32);
        i += 1;
    }
    while i < width
        invariant
            v@.len() <= i <= width,
            r@.len() == i,
            forall|j: int| 0 <= j < v@.len() ==> r@[j] == v@[j],
            forall|j: int| v@.len() <= j < i ==> r@[j] == 0,
            forall|j: int| 0 <= j < i ==> fe_wf(#[trigger] r@[j]),
        decreases width - i,
    {
        r.push(0);
        i += 1;
    }
    r
}

/// A limb vector denotes a nonnegative integer.
pub proof fn lemma_le_limbs_nonneg(s: Seq<u8>)
    ensures
        le_limbs_to_int(s) >= 0,
    decreases s.len(),
{
    if s.len() > 0 {
        lemma_le_limbs_nonneg(s.drop_first());
    }
}

/// The trailing zero limbs of a padded result carry no value.
pub proof fn lemma_le_limbs_zero_extend(a: Seq<u8>, b: Seq<u8>)
    requires
        a.len() <= b.len(),
        forall|j: int| 0 <= j < a.len() ==> b[j] == a[j],
        forall|j: int| a.len() <= j < b.len() ==> b[j] == 0,
    ensures
        le_limbs_to_int(b) == le_limbs_to_int(a),
    decreases b.len(),
{
    if b.len() == 0 {
    } else if a.len() == 0 {
        assert(b.first() == 0);
        lemma_le_limbs_zero_extend(a, b.drop_first());
        assert(le_limbs_to_int(b) == 0 + 256 * le_limbs_to_int(b.drop_first()));
    } else {
        assert(b.first() == a.first());
        assert forall|j: int| 0 <= j < a.drop_first().len() implies b.drop_first()[j]
            == a.drop_first()[j] by {
            assert(b[j + 1] == a[j + 1]);
        }
        assert forall|j: int|
            a.drop_first().len() <= j < b.drop_first().len() implies b.drop_first()[j] == 0 by {
            assert(b[j + 1] == 0);
        }
        lemma_le_limbs_zero_extend(a.drop_first(), b.drop_first());
    }
}

/// The modular mult/div chip: its trace shape, its record log and the
/// modulus it reduces by.
pub struct ModularMultDivChip {
    /// The bus carrying the instruction-execution interactions.
    pub execution_bus: usize,
    /// The bus carrying the program-fetch interactions.
    pub program_bus: usize,
    /// The modulus, as little-endian 8-bit limbs.
    pub modulus: Vec<u8>,
    /// The global opcode this chip's local opcodes start at.
    pub offset: usize,
    /// One record per executed instruction.
    pub data: Vec<ModularMultDivRecord>,
}

impl ModularMultDivChip {
    /// A fresh chip for the given buses, modulus and opcode offset.
    pub fn new(execution_bus: usize, program_bus: usize, modulus: Vec<u8>, offset: usize) -> (r:
        Self)
        ensures
            r.execution_bus == execution_bus,
            r.program_bus == program_bus,
            r.modulus == modulus,
            r.offset == offset,
            r.data@.len() == 0,
    {
        ModularMultDivChip { execution_bus, program_bus, modulus, offset, data: Vec::new() }
    }

    /// Executes one modular mult/div instruction against the memory
    /// controller: reads the two operand arrays through their address cells,
    /// computes the operation on their 8-bit limbs, writes the result array
    /// back, and logs the record.  The instruction operands name the result,
    /// first and second operand address pointers (a, b, c) and the address
    /// and data spaces (d, e).  The contract fixes every outcome: which
    /// error comes from which cause, and on success the recorded reads'
    /// provenance, the written cells, the frame and the timestamps.
    #[verifier::rlimit(100)]
    #[verifier::spinoff_prover]
    pub fn execute(
        &mut self,
        memory: &mut MemoryController,
        instruction: Instruction,
        from_state: ExecutionState<u32>,
    ) -> (r: Result<ExecutionState<u32>, ExecutionError>)
        requires
            old(memory).wf(),
            old(memory).timestamp + 6 <= MAX_TIMESTAMP,
            old(self).offset + 3 <= usize::MAX,
            from_state.pc < u32::MAX,
            fe_wf(instruction.a),
            fe_wf(instruction.b),
            fe_wf(instruction.c),
            fe_wf(instruction.d),
            fe_wf(instruction.e),
            1 <= old(self).modulus@.len(),
            le_limbs_to_int(old(self).modulus@) >= 2,
        ensures
            final(memory).wf(),
            final(self).modulus == old(self).modulus,
            final(self).offset == old(self).offset,
            final(self).execution_bus == old(self).execution_bus,
            final(self).program_bus == old(self).program_bus,
            forall|i: int|
                0 <= i < old(self).data@.len() ==> final(self).data@[i] == old(self).data@[i],
            ({
                let w = old(self).modulus@.len();
                let m = le_limbs_to_int(old(self).modulus@);
                let known = instruction.opcode == old(self).offset + 2 || instruction.opcode
                    == old(self).offset + 3;
                let is_div = instruction.opcode == old(self).offset + 3;
                let wm0 = MemoryController::widths_of(old(memory).image@);
                let px = old(memory).prev_value_spec(instruction.d, instruction.b, 1).0[0];
                let mx = MemoryController::heap_wm_mismatch(
                    wm0,
                    instruction.d,
                    instruction.e,
                    instruction.b,
                    px,
                    w,
                );
                let wm1 = MemoryController::heap_touch_widths(
                    wm0,
                    instruction.d,
                    instruction.e,
                    instruction.b,
                    px,
                    w,
                );
                let py = old(memory).prev_value_spec(instruction.d, instruction.c, 1).0[0];
                let my = MemoryController::heap_wm_mismatch(
                    wm1,
                    instruction.d,
                    instruction.e,
                    instruction.c,
                    py,
                    w,
                );
                let wm2 = MemoryController::heap_touch_widths(
                    wm1,
                    instruction.d,
                    instruction.e,
                    instruction.c,
                    py,
                    w,
                );
                let pz = old(memory).prev_value_spec(instruction.d, instruction.a, 1).0[0];
                let mz = MemoryController::heap_wm_mismatch(
                    wm2,
                    instruction.d,
                    instruction.e,
                    instruction.a,
                    pz,
                    w,
                );
                let y_val = le_limbs_to_int(
                    bytes_of(old(memory).prev_value_spec(instruction.e, py, w).0),
                );
                let coprime = gcd_nat(y_val as nat, m as nat) == 1;
                &&& (r == Result::<ExecutionState<u32>, ExecutionError>::Err(
                    ExecutionError::UnknownOpcode,
                ) <==> !known)
                &&& (r == Result::<ExecutionState<u32>, ExecutionError>::Err(
                    ExecutionError::Memory(MemoryError::WidthMismatch),
                ) <==> known && (mx || my || ((!is_div || coprime) && mz)))
                &&& (r == Result::<ExecutionState<u32>, ExecutionError>::Err(
                    ExecutionError::DivisionUndefined,
                ) <==> known && !mx && !my && is_div && !coprime)
                &&& (r is Ok <==> known && !mx && !my && (!is_div || coprime) && !mz)
            }),
            r == Result::<ExecutionState<u32>, ExecutionError>::Err(
                ExecutionError::UnknownOpcode,
            ) ==> *final(memory) == *old(memory),
            r is Err ==> final(self).data@ == old(self).data@ && final(memory).write_log@ == old(
                memory,
            ).write_log@ && MemoryController::read_frame(*old(memory), *final(memory)),
            r matches Ok(state) ==> {
                let rec = final(self).data@.last();
                let w = old(self).modulus@.len();
                let m = le_limbs_to_int(old(self).modulus@);
                let x = le_limbs_to_int(bytes_of(rec.x_array_read.data_read.data@));
                let y = le_limbs_to_int(bytes_of(rec.y_array_read.data_read.data@));
                let z = le_limbs_to_int(bytes_of(rec.z_array_write.data_write.data@));
                let px = old(memory).prev_value_spec(instruction.d, instruction.b, 1).0[0];
                let py = old(memory).prev_value_spec(instruction.d, instruction.c, 1).0[0];
                let pz = old(memory).prev_value_spec(instruction.d, instruction.a, 1).0[0];
                let k_z = addr_key(instruction.e, pz);
                &&& final(self).data@.len() == old(self).data@.len() + 1
                &&& state.pc == from_state.pc + 1
                &&& state.timestamp == final(memory).timestamp
                &&& final(memory).timestamp == old(memory).timestamp + 6
                &&& rec.from_state == from_state
                &&& rec.instruction == instruction
                // The address cells named by the instruction were read at
                // the access's own timestamps and hold the three pointers.
                &&& rec.x_array_read.address_read.address_space == instruction.d
                &&& rec.x_array_read.address_read.pointer == instruction.b
                &&& rec.x_array_read.address_read.data@ == seq![px]
                &&& rec.x_array_read.address_read.timestamp == old(memory).timestamp
                &&& rec.y_array_read.address_read.address_space == instruction.d
                &&& rec.y_array_read.address_read.pointer == instruction.c
                &&& rec.y_array_read.address_read.data@ == seq![py]
                &&& rec.y_array_read.address_read.timestamp == old(memory).timestamp + 2
                &&& rec.z_array_write.address_read.address_space == instruction.d
                &&& rec.z_array_write.address_read.pointer == instruction.a
                &&& rec.z_array_write.address_read.data@ == seq![pz]
                &&& rec.z_array_write.address_read.timestamp == old(memory).timestamp + 4
                // The reads observe the most recent writes, at fresh,
                // strictly increasing timestamps.
                &&& rec.x_array_read.data_read.address_space == instruction.e
                &&& rec.x_array_read.data_read.pointer == px
                &&& rec.x_array_read.data_read.data@.len() == w
                &&& rec.x_array_read.data_read.timestamp == old(memory).timestamp + 1
                &&& rec.x_array_read.data_read.prev_timestamp
                    < rec.x_array_read.data_read.timestamp
                &&& (match last_write_to(old(memory).write_log@, instruction.e, px) {
                    Option::Some(wr) => rec.x_array_read.data_read.data@ == wr.data@
                        && rec.x_array_read.data_read.prev_timestamp == wr.timestamp,
                    Option::None => rec.x_array_read.data_read.data@ == zero_seq(w)
                        && rec.x_array_read.data_read.prev_timestamp == 0,
                })
                &&& rec.y_array_read.data_read.address_space == instruction.e
                &&& rec.y_array_read.data_read.pointer == py
                &&& rec.y_array_read.data_read.data@.len() == w
                &&& rec.y_array_read.data_read.timestamp == old(memory).timestamp + 3
                &&& rec.y_array_read.data_read.prev_timestamp
                    < rec.y_array_read.data_read.timestamp
                &&& (match last_write_to(old(memory).write_log@, instruction.e, py) {
                    Option::Some(wr) => rec.y_array_read.data_read.data@ == wr.data@
                        && rec.y_array_read.data_read.prev_timestamp == wr.timestamp,
                    Option::None => rec.y_array_read.data_read.data@ == zero_seq(w)
                        && rec.y_array_read.data_read.prev_timestamp == 0,
                })
                // The write's record carries the prior stored value, and its
                // new timestamp is strictly above the old one.
                &&& rec.z_array_write.data_write.address_space == instruction.e
                &&& rec.z_array_write.data_write.pointer == pz
                &&& rec.z_array_write.data_write.data@.len() == w
                &&& rec.z_array_write.data_write.timestamp == old(memory).timestamp + 5
                &&& rec.z_array_write.data_write.prev_timestamp
                    < rec.z_array_write.data_write.timestamp
                &&& (match last_write_to(old(memory).write_log@, instruction.e, pz) {
                    Option::Some(wr) => rec.z_array_write.data_write.prev_data@ == wr.data@
                        && rec.z_array_write.data_write.prev_timestamp == wr.timestamp,
                    Option::None => rec.z_array_write.data_write.prev_data@ == zero_seq(w)
                        && rec.z_array_write.data_write.prev_timestamp == 0,
                })
                // The written value is the operation on the operand limbs.
                &&& (instruction.opcode == old(self).offset + 2 ==> z == (x * y) % m)
                &&& (instruction.opcode == old(self).offset + 3 ==> (z * y) % m == x % m && z < m)
                // The frame: the z data cells hold the result, everything
                // else kept its stored value; timestamps of other entries
                // are untouched.
                &&& final(memory).image@.contains_key(k_z)
                &&& final(memory).image@[k_z].value@ == rec.z_array_write.data_write.data@
                &&& final(memory).image@[k_z].timestamp == old(memory).timestamp + 5
                &&& MemoryController::write_frame(*old(memory), *final(memory), k_z)
                &&& final(memory).write_log@.len() == old(memory).write_log@.len() + 1
                &&& forall|i: int|
                    0 <= i < old(memory).write_log@.len() ==> final(memory).write_log@[i] == old(
                        memory,
                    ).write_log@[i]
                &&& ({
                    let wr = final(memory).write_log@.last();
                    wr.address_space == instruction.e && wr.pointer == pz && wr.data@
                        == rec.z_array_write.data_write.data@ && wr.prev_data@
                        == rec.z_array_write.data_write.prev_data@ && wr.prev_timestamp
                        == rec.z_array_write.data_write.prev_timestamp && wr.timestamp
                        == rec.z_array_write.data_write.timestamp
                })
                &&& final(memory).read_log@.len() == old(memory).read_log@.len() + 5
                &&& forall|i: int|
                    0 <= i < old(memory).read_log@.len() ==> final(memory).read_log@[i] == old(
                        memory,
                    ).read_log@[i]
                &&& final(memory).touched@.take(old(memory).touched@.len() as int) == old(
                    memory,
                ).touched@
                // The offline-checking closure holds of the new state.
                &&& init_multiset(final(memory).touched@, final(memory).image@).add(
                    writes_new_multiset(final(memory).write_log@),
                ) == writes_old_multiset(final(memory).write_log@).add(
                    image_multiset(final(memory).touched@, final(memory).image@),
                )
            },
    {
        let ghost m0 = *memory;
        let opcode = if instruction.opcode == self.offset + 2 {
            ModularArithmeticOpcode::MUL
        } else if instruction.opcode == self.offset + 3 {
            ModularArithmeticOpcode::DIV
        } else {
            proof {
                MemoryController::lemma_read_frame_refl(m0);
            }
            return Result::Err(ExecutionError::UnknownOpcode);
        };
        let width = self.modulus.len();
        proof {
            m0.lemma_heap_mismatch_via_widths(
                instruction.d,
                instruction.e,
                instruction.b,
                width as nat,
            );
        }
        let x_array_read = match memory.read_heap(
            instruction.d,
            instruction.e,
            instruction.b,
            width,
        ) {
            Result::Ok(x) => x,
            Result::Err(e) => {
                proof {
                    MemoryController::lemma_read_frame_refl(m0);
                }
                return Result::Err(ExecutionError::Memory(e));
            },
        };
        let ghost m1 = *memory;
        proof {
            MemoryController::lemma_frame_preserves_pointer(m0, m1, instruction.d, instruction.c);
            m1.lemma_heap_mismatch_via_widths(
                instruction.d,
                instruction.e,
                instruction.c,
                width as nat,
            );
        }
        let y_array_read = match memory.read_heap(
            instruction.d,
            instruction.e,
            instruction.c,
            width,
        ) {
            Result::Ok(x) => x,
            Result::Err(e) => {
                return Result::Err(ExecutionError::Memory(e));
            },
        };
        let ghost m2 = *memory;
        proof {
            MemoryController::lemma_read_frame_compose(m0, m1, m2);
            MemoryController::lemma_frame_preserves_pointer(m0, m2, instruction.d, instruction.a);
            m2.lemma_heap_mismatch_via_widths(
                instruction.d,
                instruction.e,
                instruction.a,
                width as nat,
            );
            // The y operand the record holds is the value observable before
            // the call: both match the last write of the unchanged log.
            let py = m0.prev_value_spec(instruction.d, instruction.c, 1).0[0];
            let k_dy = addr_key(instruction.e, py);
            if m0.image@.contains_key(k_dy) {
                assert(MemoryController::widths_of(m0.image@).contains_key(k_dy));
            }
            MemoryController::lemma_prev_value_is_last_write(
                m0,
                instruction.e,
                py,
                width as nat,
            );
        }
        let x_limbs = cells_to_limbs(&x_array_read.data_read.data);
        let y_limbs = cells_to_limbs(&y_array_read.data_read.data);
        let z_limbs = match self.solve(opcode, &x_limbs, &y_limbs) {
            Option::Some(z) => z,
            Option::None => {
                return Result::Err(ExecutionError::DivisionUndefined);
            },
        };
        let z_cells = limbs_to_cells(&z_limbs, width);
        proof {
            // The written cells are bytes, so truncating them back is the
            // identity and the padded limbs keep the computed value.
            assert forall|j: int| 0 <= j < z_cells@.len() implies bytes_of(z_cells@)[j]
                == if j < z_limbs@.len() {
                z_limbs@[j]
            } else {
                0u8
            } by {
                if j < z_limbs@.len() {
                    assert(z_cells@[j] == z_limbs@[j]);
                    assert(z_limbs@[j] < 256);
                }
            }
            lemma_le_limbs_zero_extend(z_limbs@, bytes_of(z_cells@));
        }
        let z_array_write = match memory.write_heap(
            instruction.d,
            instruction.e,
            instruction.a,
            z_cells,
        ) {
            Result::Ok(x) => x,
            Result::Err(e) => {
                return Result::Err(ExecutionError::Memory(e));
            },
        };
        proof {
            MemoryController::lemma_read_then_write_frame(
                m0,
                m2,
                *memory,
                addr_key(
                    instruction.e,
                    m0.prev_value_spec(instruction.d, instruction.a, 1).0[0],
                ),
            );
            assert forall|i: int| 0 <= i < m0.touched@.len() implies memory.touched@[i]
                == m0.touched@[i] by {
                assert(m1.touched@.take(m0.touched@.len() as int)[i] == m0.touched@[i]);
                assert(m2.touched@.take(m1.touched@.len() as int)[i] == m1.touched@[i]);
                assert(memory.touched@.take(m2.touched@.len() as int)[i] == m2.touched@[i]);
            }
            assert(memory.touched@.take(m0.touched@.len() as int) =~= m0.touched@);
            crate::memory::lemma_memory_multiset_invariant(*memory);
        }
        let record = ModularMultDivRecord {
            from_state,
            instruction,
            x_array_read,
            y_array_read,
            z_array_write,
        };
        self.data.push(record);
        let timestamp = memory.timestamp;
        Result::Ok(ExecutionState { pc: from_state.pc + 1, timestamp })
    }

    /// Computes the operation on two operands given as little-endian limbs:
    /// the product modulo the modulus, or for division the unique
    /// representative whose product with `y` is `x` modulo the modulus.
    /// Division has no answer exactly when `y` and the modulus share a
    /// factor.
    pub fn solve(&self, opcode: ModularArithmeticOpcode, x: &Vec<u8>, y: &Vec<u8>) -> (r: Option<
        Vec<u8>,
    >)
        requires
            le_limbs_to_int(self.modulus@) >= 2,
        ensures
            opcode == ModularArithmeticOpcode::MUL ==> (r matches Some(v) && le_limbs_to_int(v@)
                == (le_limbs_to_int(x@) * le_limbs_to_int(y@)) % le_limbs_to_int(self.modulus@)),
            opcode == ModularArithmeticOpcode::DIV ==> {
                &&& (r is Some <==> gcd_nat(
                    le_limbs_to_int(y@) as nat,
                    le_limbs_to_int(self.modulus@) as nat,
                ) == 1)
                &&& (r matches Some(v) ==> (le_limbs_to_int(v@) * le_limbs_to_int(y@))
                    % le_limbs_to_int(self.modulus@) == le_limbs_to_int(x@) % le_limbs_to_int(
                    self.modulus@,
                ))
            },
            r matches Some(v) ==> v@.len() <= self.modulus@.len() && 0 <= le_limbs_to_int(v@)
                < le_limbs_to_int(self.modulus@),
    {
        proof {
            lemma_le_limbs_nonneg(self.modulus@);
        }
        match opcode {
            ModularArithmeticOpcode::MUL => {
                let v = biguint_mul_mod(x, y, &self.modulus);
                proof {
                    vstd::arithmetic::div_mod::lemma_mod_division_less_than_divisor(
                        le_limbs_to_int(x@) * le_limbs_to_int(y@),
                        le_limbs_to_int(self.modulus@),
                    );
                }
                Option::Some(v)
            },
            ModularArithmeticOpcode::DIV => {
                match biguint_mod_inverse(y, &self.modulus) {
                    Option::Some(y_inv) => {
                        let v = biguint_mul_mod(x, &y_inv, &self.modulus);
                        proof {
                            vstd::arithmetic::div_mod::lemma_mod_division_less_than_divisor(
                                le_limbs_to_int(x@) * le_limbs_to_int(y_inv@),
                                le_limbs_to_int(self.modulus@),
                            );
                            Self::lemma_div_correct(
                                le_limbs_to_int(x@),
                                le_limbs_to_int(y@),
                                le_limbs_to_int(y_inv@),
                                le_limbs_to_int(v@),
                                le_limbs_to_int(self.modulus@),
                            );
                        }
                        Option::Some(v)
                    },
                    Option::None => Option::None,
                }
            },
        }
    }

    /// The display name of a local opcode of this chip.
    pub fn get_opcode_name(&self, opcode: usize) -> (r: String)
        requires
            self.offset + 3 <= usize::MAX,
        ensures
            opcode == self.offset + 2 ==> r@ == "MUL"@,
            opcode == self.offset + 3 ==> r@ == "DIV"@,
            !(opcode == self.offset + 2 || opcode == self.offset + 3) ==> r@ == "UNKNOWN"@,
    {
        broadcast use vstd::string::group_string_axioms;

        if opcode == self.offset + 2 {
            "MUL".to_string()
        } else if opcode == self.offset + 3 {
            "DIV".to_string()
        } else {
            "UNKNOWN".to_string()
        }
    }

    /// Multiplying by an inverse divides: if `w` inverts `y` and
    /// `v = x * w mod m`, then `v * y` is `x` modulo `m`.
    proof fn lemma_div_correct(x: int, y: int, w: int, v: int, m: int)
        requires
            m >= 2,
            (y * w) % m == 1,
            v == (x * w) % m,
        ensures
            (v * y) % m == x % m,
    {
        calc! {
            (==)
            (v * y) % m; {
                vstd::arithmetic::div_mod::lemma_mul_mod_noop_general(x * w, y, m);
            }
            ((x * w) * y) % m; {
                assert((x * w) * y == x * (w * y)) by (nonlinear_arith);
                assert(w * y == y * w) by (nonlinear_arith);
            }
            (x * (y * w)) % m; {
                vstd::arithmetic::div_mod::lemma_mul_mod_noop_general(x, y * w, m);
                assert(x * (((y * w)) % m) == x) by {
                    assert((y * w) % m == 1);
                }
            }
            x % m;
        }
    }
}

} // verus!
