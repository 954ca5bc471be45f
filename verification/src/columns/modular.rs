//! Column layout of the modular-arithmetic chip: the IO columns carry the
//! operands, the result and their addresses, and the auxiliary columns carry
//! the memory-access bookkeeping, the carries and the quotient limbs.

use vstd::prelude::*;

verus! {

use crate::utils::{copy_range, push_all};

/// The number of limbs a modular-arithmetic operand occupies in memory.
pub const NUM_LIMBS: usize = 32;

/// Where an instruction stood when the chip executed it.
#[derive(Clone, Copy, PartialEq, Eq, Structural, Debug)]
pub struct ExecutionState<T> {
    pub pc: T,
    pub timestamp: T,
}

/// The configuration of the offline checker the memory-access auxiliary
/// columns are sized for: how many limbs a timestamp comparison decomposes
/// into.
#[derive(Clone, Copy, PartialEq, Eq, Structural, Debug)]
pub struct MemoryOfflineChecker {
    pub timestamp_lt_limbs: usize,
}

/// The auxiliary columns of one batch memory read of `N` cells: the previous
/// timestamp of each cell, and the limbs proving it is below the read's own
/// timestamp.
pub struct MemoryReadAuxCols<const N: usize, T> {
    pub prev_timestamps: Vec<T>,
    pub timestamp_lt_aux: Vec<T>,
}

/// The auxiliary columns of one batch memory write of `N` cells: as for a
/// read, plus the previous data of each cell.
pub struct MemoryWriteAuxCols<const N: usize, T> {
    pub prev_timestamps: Vec<T>,
    pub prev_data: Vec<T>,
    pub timestamp_lt_aux: Vec<T>,
}

impl<const N: usize, T: Copy> MemoryReadAuxCols<N, T> {
    /// The number of cells these columns occupy.
    pub fn width(oc: &MemoryOfflineChecker) -> (r: usize)
        requires
            N * (1 + oc.timestamp_lt_limbs) <= usize::MAX,
        ensures
            r == N * (1 + oc.timestamp_lt_limbs),
    {
        proof {
            assert(N * oc.timestamp_lt_limbs >= 0 && N * oc.timestamp_lt_limbs + N == N * (1
                + oc.timestamp_lt_limbs)) by (nonlinear_arith);
        }
        N * oc.timestamp_lt_limbs + N
    }

    /// Reads the columns from the front of a row slice: `N` previous
    /// timestamps, then the comparison limbs.
    pub fn from_slice(slc: &[T], oc: &MemoryOfflineChecker) -> (r: Self)
        requires
            N * (1 + oc.timestamp_lt_limbs) <= slc@.len(),
        ensures
            read_aux_represents(r, slc@, 0, *oc),
    {
        let n = slc.len();
        proof {
            assert(N * (1 + oc.timestamp_lt_limbs) <= n);
            assert(N * (1 + oc.timestamp_lt_limbs) == N + N * oc.timestamp_lt_limbs)
                by (nonlinear_arith);
            assert(N * oc.timestamp_lt_limbs >= 0) by (nonlinear_arith);
        }
        let lt_len = N * oc.timestamp_lt_limbs;
        MemoryReadAuxCols {
            prev_timestamps: copy_range(slc, 0, N),
            timestamp_lt_aux: copy_range(slc, N, lt_len),
        }
    }

    /// The columns flattened back into row order.
    pub fn flatten(&self) -> (r: Vec<T>)
        ensures
            r@ == self.prev_timestamps@ + self.timestamp_lt_aux@,
    {
        let mut r: Vec<T> = Vec::new();
        push_all(&mut r, &self.prev_timestamps);
        push_all(&mut r, &self.timestamp_lt_aux);
        proof {
            assert(r@ =~= self.prev_timestamps@ + self.timestamp_lt_aux@);
        }
        r
    }
}

impl<const N: usize, T: Copy> MemoryWriteAuxCols<N, T> {
    /// The number of cells these columns occupy.
    pub fn width(oc: &MemoryOfflineChecker) -> (r: usize)
        requires
            N * (2 + oc.timestamp_lt_limbs) <= usize::MAX,
        ensures
            r == N * (2 + oc.timestamp_lt_limbs),
    {
        proof {
            assert(N * oc.timestamp_lt_limbs >= 0 && N * oc.timestamp_lt_limbs + N + N == N * (2
                + oc.timestamp_lt_limbs)) by (nonlinear_arith);
        }
        N * oc.timestamp_lt_limbs + N + N
    }

    /// Reads the columns from the front of a row slice: previous timestamps,
    /// previous data, then the comparison limbs.
    pub fn from_slice(slc: &[T], oc: &MemoryOfflineChecker) -> (r: Self)
        requires
            N * (2 + oc.timestamp_lt_limbs) <= slc@.len(),
        ensures
            write_aux_represents(r, slc@, 0, *oc),
    {
        let n = slc.len();
        proof {
            assert(N * (2 + oc.timestamp_lt_limbs) <= n);
            assert(N * (2 + oc.timestamp_lt_limbs) == 2 * N + N * oc.timestamp_lt_limbs)
                by (nonlinear_arith);
            assert(N * oc.timestamp_lt_limbs >= 0) by (nonlinear_arith);
        }
        let lt_len = N * oc.timestamp_lt_limbs;
        MemoryWriteAuxCols {
            prev_timestamps: copy_range(slc, 0, N),
            prev_data: copy_range(slc, N, N),
            timestamp_lt_aux: copy_range(slc, 2 * N, lt_len),
        }
    }

    /// The columns flattened back into row order.
    pub fn flatten(&self) -> (r: Vec<T>)
        ensures
            r@ == self.prev_timestamps@ + self.prev_data@ + self.timestamp_lt_aux@,
    {
        let mut r: Vec<T> = Vec::new();
        push_all(&mut r, &self.prev_timestamps);
        push_all(&mut r, &self.prev_data);
        push_all(&mut r, &self.timestamp_lt_aux);
        proof {
            assert(r@ =~= self.prev_timestamps@ + self.prev_data@ + self.timestamp_lt_aux@);
        }
        r
    }
}

/// The shape of the modular-arithmetic chip's rows: how many carry and
/// quotient limbs the operation needs, and the offline-checker configuration
/// its memory accesses are audited with.
#[derive(Clone, Copy, PartialEq, Eq, Structural, Debug)]
pub struct ModularArithmeticAir {
    pub carry_limbs: usize,
    pub q_limbs: usize,
    pub mem_oc: MemoryOfflineChecker,
}

/// One operand as it sits in memory: its limbs and its address.
pub struct MemoryData<T> {
    pub data: Vec<T>,
    pub address_space: T,
    pub address: T,
}

impl<T: Copy> MemoryData<T> {
    /// Reads the operand columns from the front of a row slice: the limbs,
    /// then the address pair.
    pub fn from_iterator(slc: &[T]) -> (r: Self)
        requires
            NUM_LIMBS + 2 <= slc@.len(),
        ensures
            memory_data_represents(r, slc@, 0),
    {
        MemoryData {
            data: copy_range(slc, 0, NUM_LIMBS),
            address_space: slc[NUM_LIMBS],
            address: slc[NUM_LIMBS + 1],
        }
    }

    /// The operand columns flattened back into row order.
    pub fn flatten(&self) -> (r: Vec<T>)
        ensures
            r@ == self.data@ + seq![self.address_space, self.address],
    {
        let mut r: Vec<T> = Vec::new();
        push_all(&mut r, &self.data);
        r.push(self.address_space);
        r.push(self.address);
        proof {
            assert(r@ =~= self.data@ + seq![self.address_space, self.address]);
        }
        r
    }
}

impl<T: Copy + Default> Default for MemoryData<T> {
    /// The canonical default operand: every limb and both address cells
    /// hold the element type's default value.
    fn default() -> (r: Self)
        ensures
            r.data@.len() == NUM_LIMBS,
            forall|j: int| 0 <= j < r.data@.len() ==> #[trigger] r.data@[j] == r.address_space,
            r.address == r.address_space,
    {
        let d = T::default();
        let mut data: Vec<T> = Vec::new();
        let mut i: usize = 0;
        while i < NUM_LIMBS
            invariant
                0 <= i <= NUM_LIMBS,
                data@.len() == i,
                forall|j: int| 0 <= j < i ==> #[trigger] data@[j] == d,
            decreases NUM_LIMBS - i,
        {
            data.push(d);
            i += 1;
        }
        MemoryData { data, address_space: d, address: d }
    }
}

/// The number of cells one operand occupies.
pub open spec fn memory_data_width() -> int {
    NUM_LIMBS + 2
}

/// Every cell of one operand's columns, read from `s` starting at `off`.
pub open spec fn memory_data_represents<T>(d: MemoryData<T>, s: Seq<T>, off: int) -> bool {
    &&& d.data@ == s.subrange(off, off + NUM_LIMBS as int)
    &&& d.address_space == s[off + NUM_LIMBS as int]
    &&& d.address == s[off + NUM_LIMBS + 1]
}

/// Every cell of one read-access group, read from `s` starting at `off`.
pub open spec fn read_aux_represents<const N: usize, T>(
    a: MemoryReadAuxCols<N, T>,
    s: Seq<T>,
    off: int,
    oc: MemoryOfflineChecker,
) -> bool {
    &&& a.prev_timestamps@ == s.subrange(off, off + N as int)
    &&& a.timestamp_lt_aux@ == s.subrange(off + N as int, off + N + N * oc.timestamp_lt_limbs)
}

/// Every cell of one write-access group, read from `s` starting at `off`.
pub open spec fn write_aux_represents<const N: usize, T>(
    a: MemoryWriteAuxCols<N, T>,
    s: Seq<T>,
    off: int,
    oc: MemoryOfflineChecker,
) -> bool {
    &&& a.prev_timestamps@ == s.subrange(off, off + N as int)
    &&& a.prev_data@ == s.subrange(off + N as int, off + 2 * N)
    &&& a.timestamp_lt_aux@ == s.subrange(off + 2 * N, off + 2 * N + N * oc.timestamp_lt_limbs)
}

/// The IO columns: the instruction state, the three operands and their three
/// addresses.
pub struct ModularArithmeticIoCols<T> {
    pub from_state: ExecutionState<T>,
    pub x: MemoryData<T>,
    pub y: MemoryData<T>,
    pub z: MemoryData<T>,
    pub x_address: MemoryData<T>,
    pub y_address: MemoryData<T>,
    pub z_address: MemoryData<T>,
}

/// Every IO cell, read from the front of `s` in declaration order.
pub open spec fn io_cols_represents<T>(r: ModularArithmeticIoCols<T>, s: Seq<T>) -> bool {
    &&& r.from_state.pc == s[0]
    &&& r.from_state.timestamp == s[1]
    &&& memory_data_represents(r.x, s, 2)
    &&& memory_data_represents(r.y, s, 2 + memory_data_width())
    &&& memory_data_represents(r.z, s, 2 + 2 * memory_data_width())
    &&& memory_data_represents(r.x_address, s, 2 + 3 * memory_data_width())
    &&& memory_data_represents(r.y_address, s, 2 + 4 * memory_data_width())
    &&& memory_data_represents(r.z_address, s, 2 + 5 * memory_data_width())
}

impl<T: Copy> ModularArithmeticIoCols<T> {
    /// Reads the IO columns from the front of a row slice.
    pub fn from_iterator(slc: &[T]) -> (r: Self)
        requires
            2 + 6 * (NUM_LIMBS + 2) <= slc@.len(),
        ensures
            io_cols_represents(r, slc@),
    {
        let w = NUM_LIMBS + 2;
        let from_state = ExecutionState { pc: slc[0], timestamp: slc[1] };
        let x = MemoryData::from_iterator(&slc[2..slc.len()]);
        let y = MemoryData::from_iterator(&slc[2 + w..slc.len()]);
        let z = MemoryData::from_iterator(&slc[2 + 2 * w..slc.len()]);
        let x_address = MemoryData::from_iterator(&slc[2 + 3 * w..slc.len()]);
        let y_address = MemoryData::from_iterator(&slc[2 + 4 * w..slc.len()]);
        let z_address = MemoryData::from_iterator(&slc[2 + 5 * w..slc.len()]);
        proof {
            Self::lemma_shift_memory_data(x, slc@, 2);
            Self::lemma_shift_memory_data(y, slc@, 2 + w as int);
            Self::lemma_shift_memory_data(z, slc@, 2 + 2 * w as int);
            Self::lemma_shift_memory_data(x_address, slc@, 2 + 3 * w as int);
            Self::lemma_shift_memory_data(y_address, slc@, 2 + 4 * w as int);
            Self::lemma_shift_memory_data(z_address, slc@, 2 + 5 * w as int);
        }
        ModularArithmeticIoCols { from_state, x, y, z, x_address, y_address, z_address }
    }

    /// An operand read from the tail of a row sits at its offset in the row.
    proof fn lemma_shift_memory_data(d: MemoryData<T>, s: Seq<T>, off: int)
        requires
            0 <= off,
            off + NUM_LIMBS + 2 <= s.len(),
            memory_data_represents(d, s.subrange(off, s.len() as int), 0),
        ensures
            memory_data_represents(d, s, off),
    {
        assert(s.subrange(off, s.len() as int).subrange(0, NUM_LIMBS as int) =~= s.subrange(
            off,
            off + NUM_LIMBS as int,
        ));
    }

    /// The IO columns flattened back into row order.
    pub fn flatten(&self) -> (r: Vec<T>)
        ensures
            r@ == seq![self.from_state.pc, self.from_state.timestamp] + self.x.data@ + seq![
                self.x.address_space,
                self.x.address,
            ] + self.y.data@ + seq![self.y.address_space, self.y.address] + self.z.data@ + seq![
                self.z.address_space,
                self.z.address,
            ] + self.x_address.data@ + seq![
                self.x_address.address_space,
                self.x_address.address,
            ] + self.y_address.data@ + seq![
                self.y_address.address_space,
                self.y_address.address,
            ] + self.z_address.data@ + seq![
                self.z_address.address_space,
                self.z_address.address,
            ],
    {
        let mut r: Vec<T> = Vec::new();
        r.push(self.from_state.pc);
        r.push(self.from_state.timestamp);
        let x = self.x.flatten();
        push_all(&mut r, &x);
        let y = self.y.flatten();
        push_all(&mut r, &y);
        let z = self.z.flatten();
        push_all(&mut r, &z);
        let xa = self.x_address.flatten();
        push_all(&mut r, &xa);
        let ya = self.y_address.flatten();
        push_all(&mut r, &ya);
        let za = self.z_address.flatten();
        push_all(&mut r, &za);
        proof {
            assert(r@ =~= seq![self.from_state.pc, self.from_state.timestamp] + self.x.data@
                + seq![self.x.address_space, self.x.address] + self.y.data@ + seq![
                self.y.address_space,
                self.y.address,
            ] + self.z.data@ + seq![self.z.address_space, self.z.address] + self.x_address.data@
                + seq![self.x_address.address_space, self.x_address.address]
                + self.y_address.data@ + seq![
                self.y_address.address_space,
                self.y_address.address,
            ] + self.z_address.data@ + seq![
                self.z_address.address_space,
                self.z_address.address,
            ]);
        }
        r
    }

    /// The number of IO cells of one row.
    pub fn width() -> (r: usize)
        ensures
            r == 3 * NUM_LIMBS + 17,
    {
        NUM_LIMBS * 3 + 17
    }
}

/// The auxiliary columns: the validity flag, the memory-access bookkeeping
/// of the two reads and the write of the operands and of the three address
/// reads, and the carry and quotient limbs.
pub struct ModularArithmeticAuxCols<T> {
    /// 0 for padding rows.
    pub is_valid: T,
    pub read_x_aux_cols: MemoryReadAuxCols<NUM_LIMBS, T>,
    pub read_y_aux_cols: MemoryReadAuxCols<NUM_LIMBS, T>,
    pub write_z_aux_cols: MemoryWriteAuxCols<NUM_LIMBS, T>,
    pub x_address_aux_cols: MemoryReadAuxCols<1, T>,
    pub y_address_aux_cols: MemoryReadAuxCols<1, T>,
    pub z_address_aux_cols: MemoryReadAuxCols<1, T>,
    pub carries: Vec<T>,
    pub q: Vec<T>,
}

/// The number of auxiliary cells of one row, without the validity flag.
pub open spec fn aux_body_width(air: ModularArithmeticAir) -> int {
    2 * (NUM_LIMBS * (1 + air.mem_oc.timestamp_lt_limbs)) + NUM_LIMBS * (2
        + air.mem_oc.timestamp_lt_limbs) + 3 * (1 + air.mem_oc.timestamp_lt_limbs)
        + air.carry_limbs + air.q_limbs
}

/// Every auxiliary cell, read from the front of `s` in declaration order
/// for the given row shape.
pub open spec fn aux_cols_represents<T>(
    r: ModularArithmeticAuxCols<T>,
    s: Seq<T>,
    air: ModularArithmeticAir,
) -> bool {
    let t = air.mem_oc.timestamp_lt_limbs as int;
    let rw = NUM_LIMBS * (1 + t);
    let ww = NUM_LIMBS * (2 + t);
    let aw = 1 + t;
    &&& r.is_valid == s[0]
    &&& read_aux_represents(r.read_x_aux_cols, s, 1, air.mem_oc)
    &&& read_aux_represents(r.read_y_aux_cols, s, 1 + rw, air.mem_oc)
    &&& write_aux_represents(r.write_z_aux_cols, s, 1 + 2 * rw, air.mem_oc)
    &&& read_aux_represents(r.x_address_aux_cols, s, 1 + 2 * rw + ww, air.mem_oc)
    &&& read_aux_represents(r.y_address_aux_cols, s, 1 + 2 * rw + ww + aw, air.mem_oc)
    &&& read_aux_represents(r.z_address_aux_cols, s, 1 + 2 * rw + ww + 2 * aw, air.mem_oc)
    &&& r.carries@ == s.subrange(1 + 2 * rw + ww + 3 * aw, 1 + 2 * rw + ww + 3 * aw
        + air.carry_limbs)
    &&& r.q@ == s.subrange(
        1 + 2 * rw + ww + 3 * aw + air.carry_limbs,
        1 + 2 * rw + ww + 3 * aw + air.carry_limbs + air.q_limbs,
    )
}

impl<T: Copy> ModularArithmeticAuxCols<T> {
    /// The number of auxiliary cells of one row.
    pub fn width(air: &ModularArithmeticAir) -> (r: usize)
        requires
            aux_body_width(*air) + 1 <= usize::MAX,
        ensures
            r == aux_body_width(*air),
    {
        proof {
            Self::lemma_widths(*air);
            assert(NUM_LIMBS * (2 + air.mem_oc.timestamp_lt_limbs) >= 2
                + air.mem_oc.timestamp_lt_limbs) by (nonlinear_arith);
        }
        let aw = 1 + air.mem_oc.timestamp_lt_limbs;
        let rw = NUM_LIMBS * aw;
        let ww = NUM_LIMBS * (1 + aw);
        proof {
            assert(NUM_LIMBS * (1 + aw) == NUM_LIMBS * (2 + air.mem_oc.timestamp_lt_limbs));
        }
        rw + rw + ww + aw + aw + aw + air.carry_limbs + air.q_limbs
    }

    /// The auxiliary width decomposes into its nonnegative parts.
    proof fn lemma_widths(air: ModularArithmeticAir)
        ensures
            NUM_LIMBS * (1 + air.mem_oc.timestamp_lt_limbs) >= 0,
            NUM_LIMBS * (2 + air.mem_oc.timestamp_lt_limbs) >= 0,
            aux_body_width(air) == NUM_LIMBS * (1 + air.mem_oc.timestamp_lt_limbs) + NUM_LIMBS * (1
                + air.mem_oc.timestamp_lt_limbs) + NUM_LIMBS * (2 + air.mem_oc.timestamp_lt_limbs)
                + (1 + air.mem_oc.timestamp_lt_limbs) + (1 + air.mem_oc.timestamp_lt_limbs) + (1
                + air.mem_oc.timestamp_lt_limbs) + air.carry_limbs + air.q_limbs,
            1 * (1 + air.mem_oc.timestamp_lt_limbs) == 1 + air.mem_oc.timestamp_lt_limbs,
    {
        assert(NUM_LIMBS * (1 + air.mem_oc.timestamp_lt_limbs) >= 0) by (nonlinear_arith);
        assert(NUM_LIMBS * (2 + air.mem_oc.timestamp_lt_limbs) >= 0) by (nonlinear_arith);
    }

    /// Reads the auxiliary columns from the front of a row slice.
    pub fn from_iterator(slc: &[T], air: &ModularArithmeticAir) -> (r: Self)
        requires
            aux_body_width(*air) + 1 <= slc@.len(),
        ensures
            aux_cols_represents(r, slc@, *air),
            r.carries@.len() == air.carry_limbs,
            r.q@.len() == air.q_limbs,
    {
        let n = slc.len();
        proof {
            Self::lemma_widths(*air);
            assert(aux_body_width(*air) + 1 <= n);
        }
        let aw = 1 + air.mem_oc.timestamp_lt_limbs;
        let rw = NUM_LIMBS * aw;
        let ww = NUM_LIMBS * (1 + aw);
        proof {
            assert(NUM_LIMBS * (1 + aw) == NUM_LIMBS * (2 + air.mem_oc.timestamp_lt_limbs));
        }
        let is_valid = slc[0];
        let read_x_aux_cols = MemoryReadAuxCols::<NUM_LIMBS, T>::from_slice(&slc[1..slc.len()], &air.mem_oc);
        let read_y_aux_cols = MemoryReadAuxCols::<NUM_LIMBS, T>::from_slice(
            &slc[1 + rw..slc.len()],
            &air.mem_oc,
        );
        let write_z_aux_cols = MemoryWriteAuxCols::<NUM_LIMBS, T>::from_slice(
            &slc[1 + 2 * rw..slc.len()],
            &air.mem_oc,
        );
        let x_address_aux_cols = MemoryReadAuxCols::<1, T>::from_slice(
            &slc[1 + 2 * rw + ww..slc.len()],
            &air.mem_oc,
        );
        let y_address_aux_cols = MemoryReadAuxCols::<1, T>::from_slice(
            &slc[1 + 2 * rw + ww + aw..slc.len()],
            &air.mem_oc,
        );
        let z_address_aux_cols = MemoryReadAuxCols::<1, T>::from_slice(
            &slc[1 + 2 * rw + ww + 2 * aw..slc.len()],
            &air.mem_oc,
        );
        let carries = copy_range(slc, 1 + 2 * rw + ww + 3 * aw, air.carry_limbs);
        let q = copy_range(slc, 1 + 2 * rw + ww + 3 * aw + air.carry_limbs, air.q_limbs);
        proof {
            Self::lemma_shift_read_aux(read_x_aux_cols, slc@, 1, air.mem_oc);
            Self::lemma_shift_read_aux(read_y_aux_cols, slc@, 1 + rw as int, air.mem_oc);
            Self::lemma_shift_write_aux(write_z_aux_cols, slc@, 1 + 2 * rw as int, air.mem_oc);
            Self::lemma_shift_read_aux_one(
                x_address_aux_cols,
                slc@,
                1 + 2 * rw + ww as int,
                air.mem_oc,
            );
            Self::lemma_shift_read_aux_one(
                y_address_aux_cols,
                slc@,
                1 + 2 * rw + ww + aw as int,
                air.mem_oc,
            );
            Self::lemma_shift_read_aux_one(
                z_address_aux_cols,
                slc@,
                1 + 2 * rw + ww + 2 * aw as int,
                air.mem_oc,
            );
        }
        ModularArithmeticAuxCols {
            is_valid,
            read_x_aux_cols,
            read_y_aux_cols,
            write_z_aux_cols,
            x_address_aux_cols,
            y_address_aux_cols,
            z_address_aux_cols,
            carries,
            q,
        }
    }

    /// An operand-read group read from the tail of a row sits at its offset
    /// in the row.
    proof fn lemma_shift_read_aux(
        a: MemoryReadAuxCols<NUM_LIMBS, T>,
        s: Seq<T>,
        off: int,
        oc: MemoryOfflineChecker,
    )
        requires
            0 <= off,
            off + NUM_LIMBS * (1 + oc.timestamp_lt_limbs) <= s.len(),
            read_aux_represents(a, s.subrange(off, s.len() as int), 0, oc),
        ensures
            read_aux_represents(a, s, off, oc),
    {
        assert(NUM_LIMBS * (1 + oc.timestamp_lt_limbs) == NUM_LIMBS + NUM_LIMBS
            * oc.timestamp_lt_limbs) by (nonlinear_arith);
        assert(NUM_LIMBS * oc.timestamp_lt_limbs >= 0) by (nonlinear_arith);
        assert(s.subrange(off, s.len() as int).subrange(0, NUM_LIMBS as int) =~= s.subrange(
            off,
            off + NUM_LIMBS as int,
        ));
        assert(s.subrange(off, s.len() as int).subrange(
            NUM_LIMBS as int,
            NUM_LIMBS + NUM_LIMBS * oc.timestamp_lt_limbs,
        ) =~= s.subrange(off + NUM_LIMBS as int, off + NUM_LIMBS + NUM_LIMBS
            * oc.timestamp_lt_limbs));
    }

    /// A single-cell read group read from the tail of a row sits at its
    /// offset in the row.
    proof fn lemma_shift_read_aux_one(
        a: MemoryReadAuxCols<1, T>,
        s: Seq<T>,
        off: int,
        oc: MemoryOfflineChecker,
    )
        requires
            0 <= off,
            off + 1 + oc.timestamp_lt_limbs <= s.len(),
            read_aux_represents(a, s.subrange(off, s.len() as int), 0, oc),
        ensures
            read_aux_represents(a, s, off, oc),
    {
        assert(s.subrange(off, s.len() as int).subrange(0, 1) =~= s.subrange(off, off + 1));
        assert(s.subrange(off, s.len() as int).subrange(
            1,
            1 + 1 * oc.timestamp_lt_limbs,
        ) =~= s.subrange(off + 1, off + 1 + 1 * oc.timestamp_lt_limbs));
    }

    /// A write group read from the tail of a row sits at its offset in the
    /// row.
    proof fn lemma_shift_write_aux(
        a: MemoryWriteAuxCols<NUM_LIMBS, T>,
        s: Seq<T>,
        off: int,
        oc: MemoryOfflineChecker,
    )
        requires
            0 <= off,
            off + NUM_LIMBS * (2 + oc.timestamp_lt_limbs) <= s.len(),
            write_aux_represents(a, s.subrange(off, s.len() as int), 0, oc),
        ensures
            write_aux_represents(a, s, off, oc),
    {
        assert(NUM_LIMBS * (2 + oc.timestamp_lt_limbs) == 2 * NUM_LIMBS + NUM_LIMBS
            * oc.timestamp_lt_limbs) by (nonlinear_arith);
        assert(NUM_LIMBS * oc.timestamp_lt_limbs >= 0) by (nonlinear_arith);
        assert(s.subrange(off, s.len() as int).subrange(0, NUM_LIMBS as int) =~= s.subrange(
            off,
            off + NUM_LIMBS as int,
        ));
        assert(s.subrange(off, s.len() as int).subrange(NUM_LIMBS as int, 2 * NUM_LIMBS)
            =~= s.subrange(off + NUM_LIMBS as int, off + 2 * NUM_LIMBS));
        assert(s.subrange(off, s.len() as int).subrange(
            2 * NUM_LIMBS,
            2 * NUM_LIMBS + NUM_LIMBS * oc.timestamp_lt_limbs,
        ) =~= s.subrange(off + 2 * NUM_LIMBS, off + 2 * NUM_LIMBS + NUM_LIMBS
            * oc.timestamp_lt_limbs));
    }

    /// The auxiliary columns flattened back into row order.
    pub fn flatten(&self) -> (r: Vec<T>)
        ensures
            r@ == seq![self.is_valid] + self.read_x_aux_cols.prev_timestamps@
                + self.read_x_aux_cols.timestamp_lt_aux@ + self.read_y_aux_cols.prev_timestamps@
                + self.read_y_aux_cols.timestamp_lt_aux@ + self.write_z_aux_cols.prev_timestamps@
                + self.write_z_aux_cols.prev_data@ + self.write_z_aux_cols.timestamp_lt_aux@
                + self.x_address_aux_cols.prev_timestamps@
                + self.x_address_aux_cols.timestamp_lt_aux@
                + self.y_address_aux_cols.prev_timestamps@
                + self.y_address_aux_cols.timestamp_lt_aux@
                + self.z_address_aux_cols.prev_timestamps@
                + self.z_address_aux_cols.timestamp_lt_aux@ + self.carries@ + self.q@,
    {
        let mut r: Vec<T> = Vec::new();
        r.push(self.is_valid);
        let rx = self.read_x_aux_cols.flatten();
        push_all(&mut r, &rx);
        let ry = self.read_y_aux_cols.flatten();
        push_all(&mut r, &ry);
        let wz = self.write_z_aux_cols.flatten();
        push_all(&mut r, &wz);
        let xa = self.x_address_aux_cols.flatten();
        push_all(&mut r, &xa);
        let ya = self.y_address_aux_cols.flatten();
        push_all(&mut r, &ya);
        let za = self.z_address_aux_cols.flatten();
        push_all(&mut r, &za);
        push_all(&mut r, &self.carries);
        push_all(&mut r, &self.q);
        proof {
            assert(r@ =~= seq![self.is_valid] + self.read_x_aux_cols.prev_timestamps@
                + self.read_x_aux_cols.timestamp_lt_aux@ + self.read_y_aux_cols.prev_timestamps@
                + self.read_y_aux_cols.timestamp_lt_aux@ + self.write_z_aux_cols.prev_timestamps@
                + self.write_z_aux_cols.prev_data@ + self.write_z_aux_cols.timestamp_lt_aux@
                + self.x_address_aux_cols.prev_timestamps@
                + self.x_address_aux_cols.timestamp_lt_aux@
                + self.y_address_aux_cols.prev_timestamps@
                + self.y_address_aux_cols.timestamp_lt_aux@
                + self.z_address_aux_cols.prev_timestamps@
                + self.z_address_aux_cols.timestamp_lt_aux@ + self.carries@ + self.q@);
        }
        r
    }
}

/// All columns of one modular-arithmetic row.
pub struct ModularArithmeticCols<T> {
    pub io: ModularArithmeticIoCols<T>,
    pub aux: ModularArithmeticAuxCols<T>,
}

impl<T: Copy> ModularArithmeticCols<T> {
    /// The total number of cells of one row.
    pub fn width(air: &ModularArithmeticAir) -> (r: usize)
        requires
            3 * NUM_LIMBS + 17 + aux_body_width(*air) + 1 <= usize::MAX,
        ensures
            r == 3 * NUM_LIMBS + 17 + aux_body_width(*air),
    {
        ModularArithmeticIoCols::<T>::width() + ModularArithmeticAuxCols::<T>::width(air)
    }

    /// Reads a full row: the IO columns first, then the auxiliary columns.
    pub fn from_iterator(slc: &[T], air: &ModularArithmeticAir) -> (r: Self)
        requires
            2 + 6 * (NUM_LIMBS + 2) + aux_body_width(*air) + 1 <= slc@.len(),
        ensures
            io_cols_represents(r.io, slc@),
            aux_cols_represents(
                r.aux,
                slc@.subrange(2 + 6 * (NUM_LIMBS + 2) as int, slc@.len() as int),
                *air,
            ),
            r.aux.carries@.len() == air.carry_limbs,
            r.aux.q@.len() == air.q_limbs,
    {
        let w = 2 + 6 * (NUM_LIMBS + 2);
        let io = ModularArithmeticIoCols::from_iterator(slc);
        let aux = ModularArithmeticAuxCols::from_iterator(&slc[w..slc.len()], air);
        ModularArithmeticCols { io, aux }
    }

    /// The row flattened back into cell order: the IO cells, then the
    /// auxiliary cells, each in declaration order.
    pub fn flatten(&self) -> (r: Vec<T>)
        ensures
            ({
                let io = seq![self.io.from_state.pc, self.io.from_state.timestamp]
                    + self.io.x.data@ + seq![self.io.x.address_space, self.io.x.address]
                    + self.io.y.data@ + seq![self.io.y.address_space, self.io.y.address]
                    + self.io.z.data@ + seq![self.io.z.address_space, self.io.z.address]
                    + self.io.x_address.data@ + seq![
                    self.io.x_address.address_space,
                    self.io.x_address.address,
                ] + self.io.y_address.data@ + seq![
                    self.io.y_address.address_space,
                    self.io.y_address.address,
                ] + self.io.z_address.data@ + seq![
                    self.io.z_address.address_space,
                    self.io.z_address.address,
                ];
                let aux = seq![self.aux.is_valid] + self.aux.read_x_aux_cols.prev_timestamps@
                    + self.aux.read_x_aux_cols.timestamp_lt_aux@
                    + self.aux.read_y_aux_cols.prev_timestamps@
                    + self.aux.read_y_aux_cols.timestamp_lt_aux@
                    + self.aux.write_z_aux_cols.prev_timestamps@
                    + self.aux.write_z_aux_cols.prev_data@
                    + self.aux.write_z_aux_cols.timestamp_lt_aux@
                    + self.aux.x_address_aux_cols.prev_timestamps@
                    + self.aux.x_address_aux_cols.timestamp_lt_aux@
                    + self.aux.y_address_aux_cols.prev_timestamps@
                    + self.aux.y_address_aux_cols.timestamp_lt_aux@
                    + self.aux.z_address_aux_cols.prev_timestamps@
                    + self.aux.z_address_aux_cols.timestamp_lt_aux@ + self.aux.carries@
                    + self.aux.q@;
                r@ == io + aux
            }),
    {
        let mut r = self.io.flatten();
        let aux = self.aux.flatten();
        let ghost io_v = r@;
        push_all(&mut r, &aux);
        proof {
            assert(r@ =~= io_v + aux@);
        }
        r
    }
}

} // verus!
