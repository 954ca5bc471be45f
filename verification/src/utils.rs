//! Small helpers shared by the trace-building code.

use vstd::prelude::*;

verus! {

/// Whether a number is a power of two.
pub open spec fn is_pow2(x: nat) -> bool
    decreases x,
{
    if x == 0 {
        false
    } else if x == 1 {
        true
    } else {
        x % 2 == 0 && is_pow2(x / 2)
    }
}

/// Returns 0 for 0, else the smallest power of two that is at least `n`.
/// Used to resize the number of rows in a trace matrix.
pub fn next_power_of_two_or_zero(n: usize) -> (r: usize)
    requires
        n <= usize::MAX / 2 + 1,
    ensures
        n == 0 ==> r == 0,
        n > 0 ==> is_pow2(r as nat) && r >= n && r < 2 * n,
{
    if n == 0 {
        return 0;
    }
    let mut p: usize = 1;
    while p < n
        invariant
            n <= usize::MAX / 2 + 1,
            1 <= p,
            is_pow2(p as nat),
            p == 1 || p < 2 * n,
        decreases 2 * n - p,
    {
        p = p * 2;
    }
    p
}

/// Copies `len` elements of a slice starting at `start`.
pub fn copy_range<T: Copy>(slc: &[T], start: usize, len: usize) -> (r: Vec<T>)
    requires
        start + len <= slc@.len(),
    ensures
        r@ == slc@.subrange(start as int, start + len),
{
    let n = slc.len();
    let mut r: Vec<T> = Vec::new();
    let mut i: usize = 0;
    while i < len
        invariant
            0 <= i <= len,
            start + len <= slc@.len(),
            slc@.len() == n,
            r@ =~= slc@.subrange(start as int, start + i),
        decreases len - i,
    {
        r.push(slc[start + i]);
        proof {
            assert(r@ =~= slc@.subrange(start as int, start + i + 1));
        }
        i += 1;
    }
    r
}

/// Appends every element of `src` to `dst`.
pub fn push_all<T: Copy>(dst: &mut Vec<T>, src: &Vec<T>)
    ensures
        final(dst)@ == old(dst)@ + src@,
{
    let ghost d0 = dst@;
    let mut i: usize = 0;
    while i < src.len()
        invariant
            0 <= i <= src@.len(),
            dst@ =~= d0 + src@.take(i as int),
        decreases src@.len() - i,
    {
        dst.push(src[i]);
        proof {
            assert(dst@ =~= d0 + src@.take(i + 1));
        }
        i += 1;
    }
    proof {
        assert(src@.take(src@.len() as int) =~= src@);
    }
}

} // verus!
