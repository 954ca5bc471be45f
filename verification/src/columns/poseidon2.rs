//! Column layout of the Poseidon2 permutation chip: an input and output
//! state plus one intermediate state per round, grouped into three phases
//! (full rounds, partial rounds, full rounds).

use vstd::prelude::*;

verus! {

use crate::utils::copy_range;

/// The Poseidon2 permutation parameters a trace is laid out for.
pub struct Poseidon2Air<const WIDTH: usize, T> {
    /// Total number of full (external) rounds; half run before the partial
    /// rounds and half after.
    pub rounds_f: usize,
    /// Number of partial (internal) rounds.
    pub rounds_p: usize,
    /// One round constant per state cell per external round.
    pub external_constants: Vec<Vec<T>>,
    /// One round constant per internal round.
    pub internal_constants: Vec<T>,
}

/// A half-open range of cell indices within a row.
pub struct IndexRange {
    pub start: usize,
    pub end: usize,
}

/// The input/output columns: the permutation state before and after.
pub struct Poseidon2IoCols<const WIDTH: usize, T> {
    pub input: Vec<T>,
    pub output: Vec<T>,
}

/// The auxiliary columns: one intermediate state per round, grouped by
/// phase.
pub struct Poseidon2AuxCols<const WIDTH: usize, T> {
    pub phase1: Vec<Vec<T>>,
    pub phase2: Vec<Vec<T>>,
    pub phase3: Vec<Vec<T>>,
}

/// All columns of one Poseidon2 row: IO and auxiliary, which are disjoint.
pub struct Poseidon2Cols<const WIDTH: usize, T> {
    pub io: Poseidon2IoCols<WIDTH, T>,
    pub aux: Poseidon2AuxCols<WIDTH, T>,
}

/// Index map for the columns: where in a flat row each state lives.
pub struct Poseidon2ColsIndexMap<const WIDTH: usize> {
    pub input: IndexRange,
    pub output: IndexRange,
    pub phase1: Vec<IndexRange>,
    pub phase2: Vec<IndexRange>,
    pub phase3: Vec<IndexRange>,
}

/// What any usable index map guarantees: every listed range is `WIDTH` cells
/// wide and lies within a row of `output.end` cells, with the input first
/// and the output last.
pub open spec fn index_map_bounds<const WIDTH: usize>(m: Poseidon2ColsIndexMap<WIDTH>) -> bool {
    &&& WIDTH >= 1
    &&& m.input.start == 0 && m.input.end == WIDTH
    &&& WIDTH <= m.output.end
    &&& m.output.start + WIDTH == m.output.end
    &&& forall|i: int|
        0 <= i < m.phase1@.len() ==> (#[trigger] m.phase1@[i]).end == m.phase1@[i].start + WIDTH
            && m.phase1@[i].end <= m.output.end
    &&& forall|i: int|
        0 <= i < m.phase2@.len() ==> (#[trigger] m.phase2@[i]).end == m.phase2@[i].start + WIDTH
            && m.phase2@[i].end <= m.output.end
    &&& forall|i: int|
        0 <= i < m.phase3@.len() ==> (#[trigger] m.phase3@[i]).end == m.phase3@[i].start + WIDTH
            && m.phase3@[i].end <= m.output.end
}

/// The canonical layout for the given round counts: the input state,
/// one state per round of each phase, then the output state, consecutively.
pub open spec fn index_map_wf<const WIDTH: usize>(
    m: Poseidon2ColsIndexMap<WIDTH>,
    rounds_f: nat,
    rounds_p: nat,
) -> bool {
    let r1 = rounds_f / 2;
    let r3 = rounds_f - r1;
    &&& m.phase1@.len() == r1
    &&& m.phase2@.len() == rounds_p
    &&& m.phase3@.len() == r3
    &&& forall|i: int|
        0 <= i < r1 ==> (#[trigger] m.phase1@[i]).start == WIDTH + i * WIDTH
    &&& forall|i: int|
        0 <= i < rounds_p ==> (#[trigger] m.phase2@[i]).start == WIDTH + (r1 + i) * WIDTH
    &&& forall|i: int|
        0 <= i < r3 ==> (#[trigger] m.phase3@[i]).start == WIDTH + (r1 + rounds_p + i) * WIDTH
    &&& m.output.start == WIDTH + (r1 + rounds_p + r3) * WIDTH
}

impl<const WIDTH: usize, T> Poseidon2IoCols<WIDTH, T> {
    /// The number of IO cells: the input state and the output state.
    pub fn get_width() -> (r: usize)
        requires
            2 * WIDTH <= usize::MAX,
        ensures
            r == 2 * WIDTH,
    {
        2 * WIDTH
    }
}

impl<const WIDTH: usize, T> Poseidon2AuxCols<WIDTH, T> {
    /// The number of auxiliary cells: one state per round.
    pub fn get_width(poseidon2_air: &Poseidon2Air<WIDTH, T>) -> (r: usize)
        requires
            poseidon2_air.rounds_f + poseidon2_air.rounds_p <= usize::MAX,
            (poseidon2_air.rounds_f + poseidon2_air.rounds_p) * WIDTH <= usize::MAX,
        ensures
            r == (poseidon2_air.rounds_f + poseidon2_air.rounds_p) * WIDTH,
    {
        (poseidon2_air.rounds_f + poseidon2_air.rounds_p) * WIDTH
    }
}

impl<const WIDTH: usize, T: Copy> Poseidon2Cols<WIDTH, T> {
    /// The total number of cells of one row.
    pub fn get_width(poseidon2_air: &Poseidon2Air<WIDTH, T>) -> (r: usize)
        requires
            poseidon2_air.rounds_f + poseidon2_air.rounds_p + 2 <= usize::MAX,
            (poseidon2_air.rounds_f + poseidon2_air.rounds_p + 2) * WIDTH <= usize::MAX,
        ensures
            r == (poseidon2_air.rounds_f + poseidon2_air.rounds_p + 2) * WIDTH,
    {
        proof {
            assert((poseidon2_air.rounds_f + poseidon2_air.rounds_p) * WIDTH + 2 * WIDTH
                == (poseidon2_air.rounds_f + poseidon2_air.rounds_p + 2) * WIDTH)
                by (nonlinear_arith);
            assert((poseidon2_air.rounds_f + poseidon2_air.rounds_p) * WIDTH >= 0)
                by (nonlinear_arith);
            assert((poseidon2_air.rounds_f + poseidon2_air.rounds_p) * WIDTH
                <= (poseidon2_air.rounds_f + poseidon2_air.rounds_p + 2) * WIDTH)
                by (nonlinear_arith);
        }
        let aux_width = (poseidon2_air.rounds_f + poseidon2_air.rounds_p) * WIDTH;
        2 * WIDTH + aux_width
    }

    /// Reads a flat row into its column structure, following an index map.
    pub fn from_slice(slice: &[T], index_map: &Poseidon2ColsIndexMap<WIDTH>) -> (r: Self)
        requires
            index_map_bounds(*index_map),
            slice@.len() == index_map.output.end,
        ensures
            r.io.input@ == slice@.subrange(0, WIDTH as int),
            r.io.output@ == slice@.subrange(
                index_map.output.start as int,
                index_map.output.end as int,
            ),
            r.aux.phase1@.len() == index_map.phase1@.len(),
            forall|i: int|
                0 <= i < r.aux.phase1@.len() ==> (#[trigger] r.aux.phase1@[i])@ == slice@.subrange(
                    index_map.phase1@[i].start as int,
                    index_map.phase1@[i].end as int,
                ),
            r.aux.phase2@.len() == index_map.phase2@.len(),
            forall|i: int|
                0 <= i < r.aux.phase2@.len() ==> (#[trigger] r.aux.phase2@[i])@ == slice@.subrange(
                    index_map.phase2@[i].start as int,
                    index_map.phase2@[i].end as int,
                ),
            r.aux.phase3@.len() == index_map.phase3@.len(),
            forall|i: int|
                0 <= i < r.aux.phase3@.len() ==> (#[trigger] r.aux.phase3@[i])@ == slice@.subrange(
                    index_map.phase3@[i].start as int,
                    index_map.phase3@[i].end as int,
                ),
    {
        let input = copy_range(slice, 0, WIDTH);
        let output = copy_range(slice, index_map.output.start, WIDTH);
        let phase1 = Self::copy_phase(slice, &index_map.phase1);
        let phase2 = Self::copy_phase(slice, &index_map.phase2);
        let phase3 = Self::copy_phase(slice, &index_map.phase3);
        Poseidon2Cols {
            io: Poseidon2IoCols { input, output },
            aux: Poseidon2AuxCols { phase1, phase2, phase3 },
        }
    }

    /// Copies one state per listed range out of the row.
    fn copy_phase(slice: &[T], ranges: &Vec<IndexRange>) -> (r: Vec<Vec<T>>)
        requires
            forall|i: int|
                0 <= i < ranges@.len() ==> (#[trigger] ranges@[i]).end == ranges@[i].start + WIDTH
                    && ranges@[i].end <= slice@.len(),
        ensures
            r@.len() == ranges@.len(),
            forall|i: int|
                0 <= i < r@.len() ==> (#[trigger] r@[i])@ == slice@.subrange(
                    ranges@[i].start as int,
                    ranges@[i].end as int,
                ),
    {
        let mut r: Vec<Vec<T>> = Vec::new();
        let mut i: usize = 0;
        while i < ranges.len()
            invariant
                0 <= i <= ranges@.len(),
                r@.len() == i,
                forall|j: int|
                    0 <= j < ranges@.len() ==> (#[trigger] ranges@[j]).end == ranges@[j].start
                        + WIDTH && ranges@[j].end <= slice@.len(),
                forall|j: int|
                    0 <= j < i ==> (#[trigger] r@[j])@ == slice@.subrange(
                        ranges@[j].start as int,
                        ranges@[j].end as int,
                    ),
            decreases ranges@.len() - i,
        {
            r.push(copy_range(slice, ranges[i].start, WIDTH));
            i += 1;
        }
        r
    }

    /// The canonical index map for the air's round counts.
    pub fn index_map(poseidon2_air: &Poseidon2Air<WIDTH, T>) -> (r: Poseidon2ColsIndexMap<WIDTH>)
        requires
            WIDTH >= 1,
            (poseidon2_air.rounds_f + poseidon2_air.rounds_p + 2) * WIDTH <= usize::MAX,
        ensures
            index_map_wf(r, poseidon2_air.rounds_f as nat, poseidon2_air.rounds_p as nat),
            index_map_bounds(r),
            r.output.end == (poseidon2_air.rounds_f + poseidon2_air.rounds_p + 2) * WIDTH,
    {
        let rounds_f = poseidon2_air.rounds_f;
        let rounds_p = poseidon2_air.rounds_p;
        proof {
            assert(rounds_f + rounds_p + 2 <= usize::MAX) by (nonlinear_arith)
                requires
                    (rounds_f + rounds_p + 2) * WIDTH <= usize::MAX,
                    WIDTH >= 1,
            ;
            Self::lemma_index_arith(rounds_f as nat, rounds_p as nat, WIDTH as nat);
        }
        let r1 = rounds_f / 2;
        let r3 = rounds_f - r1;
        let phase1 = Self::build_ranges(r1, WIDTH, 0);
        let phase2 = Self::build_ranges(rounds_p, WIDTH, r1);
        let phase3 = Self::build_ranges(r3, WIDTH, r1 + rounds_p);
        proof {
            assert(WIDTH + ((r1 + rounds_p + r3) as int) * WIDTH + WIDTH <= usize::MAX) by {
                assert(0 <= (r1 + rounds_p + r3) as int <= rounds_f / 2 + rounds_p + (rounds_f
                    - rounds_f / 2));
            }
            assert(((r1 + rounds_p + r3) as int) * (WIDTH as int) == ((r1 + rounds_p + r3)
                * WIDTH) as int) by (nonlinear_arith)
                requires
                    WIDTH + ((r1 + rounds_p + r3) as int) * (WIDTH as int) + WIDTH <= usize::MAX,
            ;
        }
        let output_start = WIDTH + (r1 + rounds_p + r3) * WIDTH;
        let m = Poseidon2ColsIndexMap {
            input: IndexRange { start: 0, end: WIDTH },
            output: IndexRange { start: output_start, end: output_start + WIDTH },
            phase1,
            phase2,
            phase3,
        };
        proof {
            let rf = rounds_f as nat;
            let rp = rounds_p as nat;
            assert(index_map_bounds(m)) by {
                assert forall|i: int|
                    0 <= i < m.phase1@.len() implies (#[trigger] m.phase1@[i]).end
                    <= m.output.end by {
                    assert((i + 1) * WIDTH <= (r1 + rp + r3) * WIDTH + WIDTH) by (nonlinear_arith)
                        requires
                            0 <= i < r1,
                            WIDTH >= 1,
                            rp >= 0,
                            r3 >= 0,
                            r1 >= 0,
                    ;
                    assert(m.phase1@[i].end == WIDTH + (i + 1) * WIDTH) by (nonlinear_arith)
                        requires
                            m.phase1@[i].end == m.phase1@[i].start + WIDTH,
                            m.phase1@[i].start == WIDTH + i * WIDTH,
                    ;
                }
                assert forall|i: int|
                    0 <= i < m.phase2@.len() implies (#[trigger] m.phase2@[i]).end
                    <= m.output.end by {
                    assert((r1 + i + 1) * WIDTH <= (r1 + rp + r3) * WIDTH + WIDTH)
                        by (nonlinear_arith)
                        requires
                            0 <= i < rp,
                            WIDTH >= 1,
                            r3 >= 0,
                            r1 >= 0,
                    ;
                    assert(m.phase2@[i].end == WIDTH + (r1 + i + 1) * WIDTH) by (nonlinear_arith)
                        requires
                            m.phase2@[i].end == m.phase2@[i].start + WIDTH,
                            m.phase2@[i].start == WIDTH + (r1 + i) * WIDTH,
                    ;
                }
                assert forall|i: int|
                    0 <= i < m.phase3@.len() implies (#[trigger] m.phase3@[i]).end
                    <= m.output.end by {
                    assert((r1 + rp + i + 1) * WIDTH <= (r1 + rp + r3) * WIDTH + WIDTH)
                        by (nonlinear_arith)
                        requires
                            0 <= i < r3,
                            WIDTH >= 1,
                            r1 >= 0,
                            rp >= 0,
                    ;
                    assert(m.phase3@[i].end == WIDTH + (r1 + rp + i + 1) * WIDTH)
                        by (nonlinear_arith)
                        requires
                            m.phase3@[i].end == m.phase3@[i].start + WIDTH,
                            m.phase3@[i].start == WIDTH + (r1 + rp + i) * WIDTH,
                    ;
                }
                assert((r1 + rp + r3) * WIDTH >= 0) by (nonlinear_arith);
            }
            assert(m.output.end == (rf + rp + 2) * WIDTH) by (nonlinear_arith)
                requires
                    m.output.end == WIDTH + (r1 + rp + r3) * WIDTH + WIDTH,
                    r1 + r3 == rf,
                    r1 == rf / 2,
                    r3 == rf - rf / 2,
            ;
        }
        m
    }

    /// All the per-round range offsets fit in the row.
    proof fn lemma_index_arith(rounds_f: nat, rounds_p: nat, w: nat)
        requires
            w >= 1,
            (rounds_f + rounds_p + 2) * w <= usize::MAX,
        ensures
            forall|k: int|
                0 <= k <= rounds_f / 2 + rounds_p + (rounds_f - rounds_f / 2) ==> w + #[trigger] (k
                    * w) + w <= usize::MAX,
    {
        assert forall|k: int|
            0 <= k <= rounds_f / 2 + rounds_p + (rounds_f - rounds_f / 2) implies w + #[trigger] (k
            * w) + w <= usize::MAX by {
            assert(w + k * w + w <= (rounds_f + rounds_p + 2) * w) by (nonlinear_arith)
                requires
                    0 <= k <= rounds_f / 2 + rounds_p + (rounds_f - rounds_f / 2),
                    rounds_f / 2 + rounds_p + (rounds_f - rounds_f / 2) == rounds_f + rounds_p,
                    w >= 1,
            ;
        }
    }

    /// `count` consecutive `WIDTH`-wide ranges, the first starting at
    /// `WIDTH + skip * WIDTH` cells into the row.
    fn build_ranges(count: usize, w: usize, skip: usize) -> (r: Vec<IndexRange>)
        requires
            w == WIDTH,
            skip + count <= usize::MAX,
            forall|k: int| 0 <= k <= skip + count ==> w + #[trigger] (k * w) + w <= usize::MAX,
        ensures
            r@.len() == count,
            forall|i: int|
                0 <= i < count ==> (#[trigger] r@[i]).start == WIDTH + (skip + i) * WIDTH
                    && r@[i].end == r@[i].start + WIDTH,
    {
        let mut r: Vec<IndexRange> = Vec::new();
        let mut i: usize = 0;
        while i < count
            invariant
                0 <= i <= count,
                w == WIDTH,
                r@.len() == i,
                skip + count <= usize::MAX,
                forall|k: int| 0 <= k <= skip + count ==> w + #[trigger] (k * w) + w <= usize::MAX,
                forall|j: int|
                    0 <= j < i ==> (#[trigger] r@[j]).start == WIDTH + (skip + j) * WIDTH
                        && r@[j].end == r@[j].start + WIDTH,
            decreases count - i,
        {
            proof {
                assert(0 <= (skip + i) as int <= skip + count);
                assert(w + ((skip + i) as int) * w + w <= usize::MAX);
                assert(((skip + i) as int) * w == ((skip + i) * w) as int) by (nonlinear_arith)
                    requires
                        w + ((skip + i) as int) * w + w <= usize::MAX,
                        w == WIDTH,
                ;
            }
            let start = w + (skip + i) * w;
            r.push(IndexRange { start, end: start + w });
            i += 1;
        }
        r
    }
}

} // verus!
