//! Columns of the running-sum chip: one keyed partial sum per row, with the
//! auxiliary columns of the is-less-than gadget that orders the keys.

use vstd::prelude::*;

verus! {

use crate::utils::copy_range;

/// The auxiliary columns of one is-less-than check: the shifted difference
/// and its limb decomposition.
pub struct IsLessThanAuxCols<T> {
    pub lower: T,
    pub lower_decomp: Vec<T>,
}

/// The number of limbs a `limb_bits`-bit difference decomposes into, in
/// chunks of `decomp` bits, plus one carry limb.
pub open spec fn lt_decomp_len(limb_bits: nat, decomp: nat) -> int
    recommends
        decomp >= 1,
{
    (limb_bits + decomp - 1) / (decomp as int) + 1
}

impl<T: Copy> IsLessThanAuxCols<T> {
    /// The number of cells the gadget occupies in a row.
    pub fn get_width(limb_bits: usize, decomp: usize) -> (r: usize)
        requires
            1 <= decomp,
            limb_bits + decomp <= usize::MAX - 2,
        ensures
            r == 1 + lt_decomp_len(limb_bits as nat, decomp as nat),
    {
        1 + ((limb_bits + decomp - 1) / decomp + 1)
    }

    /// Reads the gadget's cells from the front of a row slice.
    pub fn from_slice(slc: &[T], limb_bits: usize, decomp: usize) -> (r: Self)
        requires
            1 <= decomp,
            limb_bits + decomp <= usize::MAX - 2,
            1 + lt_decomp_len(limb_bits as nat, decomp as nat) <= slc@.len(),
        ensures
            r.lower == slc@[0],
            r.lower_decomp@ == slc@.subrange(
                1,
                1 + lt_decomp_len(limb_bits as nat, decomp as nat),
            ),
    {
        let n = (limb_bits + decomp - 1) / decomp + 1;
        IsLessThanAuxCols { lower: slc[0], lower_decomp: copy_range(slc, 1, n) }
    }
}

/// One row of the running-sum chip: a key, its value, the partial sum so
/// far, the final-row flag, and the ordering gadget's cells.
pub struct SumCols<T> {
    pub key: T,
    pub value: T,
    pub partial_sum: T,
    pub is_final: T,
    pub is_lt_aux_cols: IsLessThanAuxCols<T>,
}

impl<T: Copy> SumCols<T> {
    /// Reads a row into its columns: the four scalars first, then the
    /// ordering gadget.
    pub fn from_slice(slc: &[T], limb_bits: usize, decomp: usize) -> (r: Self)
        requires
            1 <= decomp,
            limb_bits + decomp <= usize::MAX - 2,
            5 + lt_decomp_len(limb_bits as nat, decomp as nat) <= slc@.len(),
        ensures
            r.key == slc@[0],
            r.value == slc@[1],
            r.partial_sum == slc@[2],
            r.is_final == slc@[3],
            r.is_lt_aux_cols.lower == slc@[4],
            r.is_lt_aux_cols.lower_decomp@ == slc@.subrange(
                5,
                5 + lt_decomp_len(limb_bits as nat, decomp as nat),
            ),
    {
        let n = (limb_bits + decomp - 1) / decomp + 1;
        SumCols {
            key: slc[0],
            value: slc[1],
            partial_sum: slc[2],
            is_final: slc[3],
            is_lt_aux_cols: IsLessThanAuxCols { lower: slc[4], lower_decomp: copy_range(slc, 5, n) },
        }
    }

    /// The cell index of every column of a row, in layout order.
    pub fn index_map(limb_bits: usize, decomp: usize) -> (r: SumCols<usize>)
        requires
            1 <= decomp,
            limb_bits + decomp <= usize::MAX - 2,
            5 + lt_decomp_len(limb_bits as nat, decomp as nat) <= usize::MAX,
        ensures
            r.key == 0,
            r.value == 1,
            r.partial_sum == 2,
            r.is_final == 3,
            r.is_lt_aux_cols.lower == 4,
            r.is_lt_aux_cols.lower_decomp@.len() == lt_decomp_len(
                limb_bits as nat,
                decomp as nat,
            ),
            forall|i: int|
                0 <= i < r.is_lt_aux_cols.lower_decomp@.len()
                    ==> r.is_lt_aux_cols.lower_decomp@[i] == 5 + i,
    {
        let n = (limb_bits + decomp - 1) / decomp + 1;
        let mut lower_decomp: Vec<usize> = Vec::new();
        let mut i: usize = 0;
        while i < n
            invariant
                0 <= i <= n,
                5 + n <= usize::MAX,
                lower_decomp@.len() == i,
                forall|j: int| 0 <= j < i ==> lower_decomp@[j] == 5 + j,
            decreases n - i,
        {
            lower_decomp.push(5 + i);
            i += 1;
        }
        SumCols {
            key: 0,
            value: 1,
            partial_sum: 2,
            is_final: 3,
            is_lt_aux_cols: IsLessThanAuxCols { lower: 4, lower_decomp },
        }
    }
}

} // verus!
