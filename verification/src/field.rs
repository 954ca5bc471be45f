//! Field elements of the 31-bit prime field used by every trace.
//!
//! Values are carried as canonical `u32` representatives, always strictly
//! below [`crate::FIELD_MODULUS`].  The arithmetic itself is done by the
//! `p3_baby_bear` crate; each operation is wrapped with an exact contract
//! over the canonical representatives.

use vstd::prelude::*;
use p3_baby_bear::BabyBear;
use p3_field::{Field, PrimeField32};

verus! {

use vstd::calc;

use crate::FIELD_MODULUS;

/// A canonical field representative: a `u32` strictly below the modulus.
pub open spec fn fe_wf(x: u32) -> bool {
    x < FIELD_MODULUS
}

/// Relies on `p3_baby_bear`: `BabyBear::new` reduces any `u32` modulo the
/// prime `2^31 - 2^27 + 1`, `+` is addition modulo that prime, and
/// `as_canonical_u32` returns the canonical representative.
#[verifier::external_body]
pub fn fadd(a: u32, b: u32) -> (r: u32)
    ensures
        r == (a + b) % (FIELD_MODULUS as int),
        fe_wf(r),
{
    (BabyBear::new(a) + BabyBear::new(b)).as_canonical_u32()
}

/// Relies on `p3_baby_bear`: `-` is subtraction modulo the prime.  The
/// specification `%` is Euclidean, so the result is the canonical
/// representative of `a - b` even when `b > a`.
#[verifier::external_body]
pub fn fsub(a: u32, b: u32) -> (r: u32)
    ensures
        r == (a - b) % (FIELD_MODULUS as int),
        fe_wf(r),
{
    (BabyBear::new(a) - BabyBear::new(b)).as_canonical_u32()
}

/// Relies on `p3_baby_bear`: `*` is multiplication modulo the prime
/// (Montgomery multiplication in `p3_monty_31`).
#[verifier::external_body]
pub fn fmul(a: u32, b: u32) -> (r: u32)
    ensures
        r == (a * b) % (FIELD_MODULUS as int),
        fe_wf(r),
{
    (BabyBear::new(a) * BabyBear::new(b)).as_canonical_u32()
}

/// Relies on `p3_field::Field::try_inverse` for `BabyBear`: it returns the
/// multiplicative inverse of a nonzero element and `None` exactly on zero.
#[verifier::external_body]
pub fn finv(a: u32) -> (r: Option<u32>)
    requires
        fe_wf(a),
    ensures
        r is Some <==> a != 0,
        r matches Some(v) ==> fe_wf(v) && (a * v) % (FIELD_MODULUS as int) == 1,
{
    BabyBear::new(a).try_inverse().map(|v| v.as_canonical_u32())
}

/// Relies on `p3_baby_bear`: `BabyBear::new` reduces any `u32` modulo the
/// prime, so the canonical representative of the result is the input mod p.
#[verifier::external_body]
pub fn freduce(a: u32) -> (r: u32)
    ensures
        r == a % FIELD_MODULUS,
        fe_wf(r),
{
    BabyBear::new(a).as_canonical_u32()
}

/// Conversion of a plain machine value into a field representative.
pub trait FieldFrom<T>: Sized {
    fn from_val(value: T) -> Self;
}

impl FieldFrom<u8> for u32 {
    fn from_val(value: u8) -> u32 {
        value as u32
    }
}

impl FieldFrom<u32> for u32 {
    fn from_val(value: u32) -> u32 {
        value
    }
}


/// The complement `1 - a` of a boolean-valued field element.
pub fn not(a: u32) -> (r: u32)
    ensures
        r == (1 - a) % (FIELD_MODULUS as int),
        fe_wf(r),
{
    fsub(1, a)
}

/// The conjunction `a * b` of two boolean-valued field elements.
pub fn and(a: u32, b: u32) -> (r: u32)
    ensures
        r == (a * b) % (FIELD_MODULUS as int),
        fe_wf(r),
{
    fmul(a, b)
}

/// The disjunction `a + b - a * b`; assumes that `a` and `b` are boolean.
pub fn or(a: u32, b: u32) -> (r: u32)
    ensures
        r == (a + b - a * b) % (FIELD_MODULUS as int),
        fe_wf(r),
{
    let ab = fmul(a, b);
    let s = fadd(a, b);
    proof {
        let p = FIELD_MODULUS as int;
        vstd::arithmetic::div_mod::lemma_sub_mod_noop(a + b, (a as int) * (b as int), p);
        vstd::arithmetic::div_mod::lemma_mod_twice(a + b, p);
        vstd::arithmetic::div_mod::lemma_mod_twice((a as int) * (b as int), p);
    }
    fsub(s, ab)
}

/// The implication `(1 - a) + b - (1 - a) * b`; assumes that `a` and `b`
/// are boolean — false only when `a` holds and `b` does not.
pub fn implies(a: u32, b: u32) -> (r: u32)
    requires
        a == 0 || a == 1,
        b == 0 || b == 1,
    ensures
        r == if a == 1 && b == 0 {
            0int
        } else {
            1int
        },
        fe_wf(r),
{
    let na = not(a);
    or(na, b)
}

/// Selects `a` when the boolean-valued `cond` holds and `b` otherwise:
/// `cond * a + (1 - cond) * b`.
pub fn select(cond: u32, a: u32, b: u32) -> (r: u32)
    requires
        cond == 0 || cond == 1,
        fe_wf(a),
        fe_wf(b),
    ensures
        r == if cond == 1 {
            a
        } else {
            b
        },
        fe_wf(r),
{
    let ca = fmul(cond, a);
    let nc = fsub(1, cond);
    let cb = fmul(nc, b);
    proof {
        let p = FIELD_MODULUS as int;
        if cond == 1 {
            vstd::arithmetic::div_mod::lemma_small_mod(a as nat, p as nat);
            assert((1int * (a as int)) == a);
            vstd::arithmetic::div_mod::lemma_small_mod(0nat, p as nat);
        } else {
            vstd::arithmetic::div_mod::lemma_small_mod(b as nat, p as nat);
            vstd::arithmetic::div_mod::lemma_small_mod(1nat, p as nat);
            assert((1int * (b as int)) == b);
            vstd::arithmetic::div_mod::lemma_small_mod(0nat, p as nat);
        }
    }
    fadd(ca, cb)
}

/// Reduces a vector of machine words to canonical field representatives.
pub fn to_field_vec(src: &Vec<u32>) -> (r: Vec<u32>)
    ensures
        r@.len() == src@.len(),
        forall|i: int| 0 <= i < r@.len() ==> r@[i] == src@[i] % FIELD_MODULUS,
{
    let mut r: Vec<u32> = Vec::new();
    let mut i: usize = 0;
    while i < src.len()
        invariant
            0 <= i <= src@.len(),
            r@.len() == i,
            forall|j: int| 0 <= j < i ==> r@[j] == src@[j] % FIELD_MODULUS,
        decreases src@.len() - i,
    {
        r.push(freduce(src[i]));
        i += 1;
    }
    r
}

/// Overwrites the front of `dest` with the canonical representatives of
/// `src`, as far as both reach.
pub fn fill_slc_to_f(dest: &mut Vec<u32>, src: &Vec<u32>)
    ensures
        final(dest)@.len() == old(dest)@.len(),
        forall|i: int|
            0 <= i < old(dest)@.len() ==> final(dest)@[i] == if i < src@.len() {
                (src@[i] % FIELD_MODULUS) as u32
            } else {
                old(dest)@[i]
            },
{
    let n = if dest.len() < src.len() {
        dest.len()
    } else {
        src.len()
    };
    let mut i: usize = 0;
    while i < n
        invariant
            0 <= i <= n,
            n <= dest@.len(),
            n <= src@.len(),
            dest@.len() == old(dest)@.len(),
            forall|j: int|
                0 <= j < dest@.len() ==> dest@[j] == if j < i {
                    (src@[j] % FIELD_MODULUS) as u32
                } else {
                    old(dest)@[j]
                },
        decreases n - i,
    {
        let v = freduce(src[i]);
        dest.set(i, v);
        i += 1;
    }
}

/// Inverses modulo the field prime are unique: any two canonical
/// representatives that both invert `a` are equal.
pub proof fn lemma_inverse_unique(a: int, r1: int, r2: int)
    requires
        0 <= r1 < FIELD_MODULUS,
        0 <= r2 < FIELD_MODULUS,
        (a * r1) % (FIELD_MODULUS as int) == 1,
        (a * r2) % (FIELD_MODULUS as int) == 1,
    ensures
        r1 == r2,
{
    let p = FIELD_MODULUS as int;
    // r1 = r1 * (a * r2) = (r1 * a) * r2 = r2 (mod p)
    calc! {
        (==)
        r1 % p; {
            vstd::arithmetic::div_mod::lemma_mul_mod_noop_general(r1, a * r2, p);
            assert(r1 * ((a * r2) % p) == r1) by {
                assert((a * r2) % p == 1);
            };
        }
        (r1 * (a * r2)) % p; {
            assert(r1 * (a * r2) == (a * r1) * r2) by (nonlinear_arith);
        }
        ((a * r1) * r2) % p; {
            vstd::arithmetic::div_mod::lemma_mul_mod_noop_general(a * r1, r2, p);
            assert(((a * r1) % p) * r2 == r2) by {
                assert((a * r1) % p == 1);
            };
        }
        r2 % p;
    }
    vstd::arithmetic::div_mod::lemma_small_mod(r1 as nat, p as nat);
    vstd::arithmetic::div_mod::lemma_small_mod(r2 as nat, p as nat);
}

} // verus!
