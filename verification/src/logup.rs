//! The randomized accumulator of the bus argument: after all traces are
//! fixed, the verifier samples a challenge and every declared interaction is
//! mapped to `multiplicity / (alpha + fingerprint(tuple))`, with sign +1 for
//! a send and -1 for a receive.  The backend accepts only when the grand sum
//! over every row of every trace on a bus is zero; a balanced bus always
//! sums to zero, and an unbalanced one survives only for an unlucky choice
//! of challenge.

use vstd::prelude::*;

verus! {

use crate::FIELD_MODULUS;
use crate::field::{fe_wf, fadd, fsub, fmul, finv, freduce, lemma_inverse_unique};
use crate::bus::{Interaction, Direction};

/// The canonical inverse of `a` modulo the field prime, when one exists.
pub open spec fn field_inv(a: int) -> int {
    choose|r: int| 0 <= r < FIELD_MODULUS && #[trigger] ((a * r) % (FIELD_MODULUS as int)) == 1
}

/// The Horner-style fingerprint of a tuple at challenge point `beta`:
/// the tuple read as the coefficients of a polynomial, evaluated at `beta`.
pub open spec fn fingerprint(t: Seq<u32>, beta: int) -> int
    decreases t.len(),
{
    if t.len() == 0 {
        0
    } else {
        (fingerprint(t.drop_last(), beta) * beta + t.last()) % (FIELD_MODULUS as int)
    }
}

/// The denominator an interaction contributes: the challenge plus its
/// tuple's fingerprint.
pub open spec fn denominator(i: Interaction, alpha: int, beta: int) -> int {
    (alpha + fingerprint(i.fields@, beta)) % (FIELD_MODULUS as int)
}

/// Whether every interaction of the collection has an invertible
/// denominator at this challenge point.
pub open spec fn denominators_ok(s: Seq<Interaction>, alpha: int, beta: int) -> bool {
    forall|i: int| 0 <= i < s.len() ==> denominator(#[trigger] s[i], alpha, beta) != 0
}

/// The grand logarithmic-derivative sum of a collection of interactions:
/// each term is the multiplicity times the inverse of the denominator,
/// added for sends and subtracted for receives.
pub open spec fn logup_sum(s: Seq<Interaction>, alpha: int, beta: int) -> int
    decreases s.len(),
{
    if s.len() == 0 {
        0
    } else {
        let term = ((s.last().multiplicity as int) * field_inv(denominator(s.last(), alpha, beta)))
            % (FIELD_MODULUS as int);
        if s.last().direction == Direction::Send {
            (logup_sum(s.drop_last(), alpha, beta) + term) % (FIELD_MODULUS as int)
        } else {
            (logup_sum(s.drop_last(), alpha, beta) - term) % (FIELD_MODULUS as int)
        }
    }
}

/// Evaluates the fingerprint of a tuple at `beta`.
pub fn fingerprint_at(t: &Vec<u32>, beta: u32) -> (r: u32)
    requires
        fe_wf(beta),
    ensures
        r == fingerprint(t@, beta as int),
        fe_wf(r),
{
    let mut acc: u32 = 0;
    let mut i: usize = 0;
    while i < t.len()
        invariant
            0 <= i <= t@.len(),
            fe_wf(beta),
            fe_wf(acc),
            acc == fingerprint(t@.take(i as int), beta as int),
        decreases t@.len() - i,
    {
        proof {
            assert(t@.take(i + 1).drop_last() =~= t@.take(i as int));
            assert(t@.take(i + 1).last() == t@[i as int]);
        }
        let m = fmul(acc, beta);
        proof {
            let p = FIELD_MODULUS as int;
            let x = (acc as int) * (beta as int);
            let y = t@[i as int] as int;
            vstd::arithmetic::div_mod::lemma_add_mod_noop(x, y, p);
            vstd::arithmetic::div_mod::lemma_add_mod_noop(x % p, y, p);
            vstd::arithmetic::div_mod::lemma_mod_twice(x, p);
        }
        acc = fadd(m, t[i]);
        i += 1;
    }
    proof {
        assert(t@.take(t@.len() as int) =~= t@);
    }
    acc
}

/// Evaluates the grand sum of the collection at the sampled challenge
/// `(alpha, beta)`.  Returns `None` exactly when some tuple's denominator
/// vanishes at this challenge — the unlucky case the verifier resamples.
pub fn grand_sum(s: &Vec<Interaction>, alpha: u32, beta: u32) -> (r: Option<u32>)
    requires
        fe_wf(alpha),
        fe_wf(beta),
    ensures
        r is Some <==> denominators_ok(s@, alpha as int, beta as int),
        r matches Some(v) ==> v == logup_sum(s@, alpha as int, beta as int) && fe_wf(v),
{
    let mut acc: u32 = 0;
    let mut i: usize = 0;
    while i < s.len()
        invariant
            0 <= i <= s@.len(),
            fe_wf(alpha),
            fe_wf(beta),
            fe_wf(acc),
            acc == logup_sum(s@.take(i as int), alpha as int, beta as int),
            denominators_ok(s@.take(i as int), alpha as int, beta as int),
        decreases s@.len() - i,
    {
        proof {
            assert(s@.take(i + 1).drop_last() =~= s@.take(i as int));
            assert(s@.take(i + 1).last() == s@[i as int]);
        }
        let ix = &s[i];
        let fp = fingerprint_at(&ix.fields, beta);
        proof {
            vstd::arithmetic::div_mod::lemma_add_mod_noop(
                alpha as int,
                fp as int,
                FIELD_MODULUS as int,
            );
            vstd::arithmetic::div_mod::lemma_small_mod(fp as nat, FIELD_MODULUS as nat);
            vstd::arithmetic::div_mod::lemma_small_mod(alpha as nat, FIELD_MODULUS as nat);
        }
        let d = fadd(alpha, fp);
        if d == 0 {
            proof {
                assert(denominator(s@[i as int], alpha as int, beta as int) == 0);
                assert(!denominators_ok(s@, alpha as int, beta as int));
            }
            return Option::None;
        }
        let inv = match finv(d) {
            Option::Some(v) => v,
            Option::None => {
                proof {
                    assert(false);
                }
                0
            },
        };
        proof {
            // The computed inverse is the canonical one.
            let dd = denominator(s@[i as int], alpha as int, beta as int);
            assert(dd == d as int);
            assert((dd * (inv as int)) % (FIELD_MODULUS as int) == 1);
            let w = field_inv(dd);
            assert(0 <= w < FIELD_MODULUS && (dd * w) % (FIELD_MODULUS as int) == 1) by {
                assert((dd * (inv as int)) % (FIELD_MODULUS as int) == 1);
            }
            lemma_inverse_unique(dd, inv as int, w);
            // Reducing the multiplicity first does not change the term.
            vstd::arithmetic::div_mod::lemma_mul_mod_noop_general(
                s@[i as int].multiplicity as int,
                inv as int,
                FIELD_MODULUS as int,
            );
        }
        let m = freduce(ix.multiplicity);
        let term = fmul(m, inv);
        if ix.direction == Direction::Send {
            acc = fadd(acc, term);
        } else {
            acc = fsub(acc, term);
        }
        proof {
            vstd::arithmetic::div_mod::lemma_small_mod(acc as nat, FIELD_MODULUS as nat);
        }
        i += 1;
    }
    proof {
        assert(s@.take(s@.len() as int) =~= s@);
    }
    Option::Some(acc)
}


/// The signed multiplicity with which tuple `t` is declared over the whole
/// collection: sends count positively, receives negatively.
pub open spec fn net_multiplicity(s: Seq<Interaction>, t: Seq<u32>) -> int
    decreases s.len(),
{
    if s.len() == 0 {
        0
    } else {
        net_multiplicity(s.drop_last(), t) + if s.last().fields@ == t {
            if s.last().direction == Direction::Send {
                s.last().multiplicity as int
            } else {
                -(s.last().multiplicity as int)
            }
        } else {
            0
        }
    }
}

/// The grand sum before reduction: every term as a plain integer.
pub open spec fn int_sum(s: Seq<Interaction>, alpha: int, beta: int) -> int
    decreases s.len(),
{
    if s.len() == 0 {
        0
    } else {
        let term = (s.last().multiplicity as int) * field_inv(denominator(s.last(), alpha, beta));
        int_sum(s.drop_last(), alpha, beta) + if s.last().direction == Direction::Send {
            term
        } else {
            -term
        }
    }
}

/// The reduced sum is the integer sum modulo the field prime.
proof fn lemma_logup_sum_is_int_sum(s: Seq<Interaction>, alpha: int, beta: int)
    ensures
        logup_sum(s, alpha, beta) == int_sum(s, alpha, beta) % (FIELD_MODULUS as int),
    decreases s.len(),
{
    let p = FIELD_MODULUS as int;
    if s.len() == 0 {
        vstd::arithmetic::div_mod::lemma_small_mod(0, p as nat);
    } else {
        lemma_logup_sum_is_int_sum(s.drop_last(), alpha, beta);
        let a = int_sum(s.drop_last(), alpha, beta);
        let x = (s.last().multiplicity as int) * field_inv(denominator(s.last(), alpha, beta));
        vstd::arithmetic::div_mod::lemma_add_mod_noop(a, x, p);
        vstd::arithmetic::div_mod::lemma_sub_mod_noop(a, x, p);
        vstd::arithmetic::div_mod::lemma_mod_twice(a, p);
        vstd::arithmetic::div_mod::lemma_mod_twice(x, p);
        if s.last().direction == Direction::Send {
            assert((a % p + x % p) % p == (a + x) % p);
            assert((logup_sum(s.drop_last(), alpha, beta) + (x % p)) % p == (a + x) % p) by {
                vstd::arithmetic::div_mod::lemma_add_mod_noop(a % p, x % p, p);
            }
        } else {
            assert((a % p - x % p) % p == (a - x) % p);
            assert((logup_sum(s.drop_last(), alpha, beta) - (x % p)) % p == (a - x) % p) by {
                vstd::arithmetic::div_mod::lemma_sub_mod_noop(a % p, x % p, p);
            }
        }
    }
}

/// The distinct tuples of a collection, in first-appearance-from-the-end
/// order.
pub open spec fn distinct_tuples(s: Seq<Interaction>) -> Seq<Seq<u32>>
    decreases s.len(),
{
    if s.len() == 0 {
        Seq::empty()
    } else if distinct_tuples(s.drop_last()).contains(s.last().fields@) {
        distinct_tuples(s.drop_last())
    } else {
        distinct_tuples(s.drop_last()).push(s.last().fields@)
    }
}

/// The tuple list of a collection has no repeated entries and covers every
/// interaction's tuple.
proof fn lemma_distinct_tuples_props(s: Seq<Interaction>)
    ensures
        forall|i: int, j: int|
            0 <= i < j < distinct_tuples(s).len() ==> distinct_tuples(s)[i] != distinct_tuples(
                s,
            )[j],
        forall|i: int|
            0 <= i < s.len() ==> distinct_tuples(s).contains((#[trigger] s[i]).fields@),
    decreases s.len(),
{
    if s.len() > 0 {
        lemma_distinct_tuples_props(s.drop_last());
        let dp = distinct_tuples(s.drop_last());
        let d = distinct_tuples(s);
        let t = s.last().fields@;
        assert forall|i: int| 0 <= i < s.len() implies d.contains((#[trigger] s[i]).fields@) by {
            if i < s.len() - 1 {
                assert(s.drop_last()[i] == s[i]);
                assert(dp.contains(s[i].fields@));
                let j = choose|j: int| 0 <= j < dp.len() && dp[j] == s[i].fields@;
                assert(d[j] == s[i].fields@);
            } else {
                if dp.contains(t) {
                    let j = choose|j: int| 0 <= j < dp.len() && dp[j] == t;
                    assert(d[j] == t);
                } else {
                    assert(d[d.len() - 1] == t);
                }
            }
        }
        if !dp.contains(t) {
            assert forall|i: int, j: int| 0 <= i < j < d.len() implies d[i] != d[j] by {
                if j < d.len() - 1 {
                    assert(dp[i] != dp[j]);
                } else {
                    assert(d[j] == t);
                    assert(d[i] == dp[i]);
                    if d[i] == t {
                        assert(dp.contains(t));
                    }
                }
            }
        }
    }
}

/// A tuple no interaction carries has no net multiplicity.
proof fn lemma_net_of_absent(s: Seq<Interaction>, t: Seq<u32>)
    requires
        forall|i: int| 0 <= i < s.len() ==> (#[trigger] s[i]).fields@ != t,
    ensures
        net_multiplicity(s, t) == 0,
    decreases s.len(),
{
    if s.len() > 0 {
        assert(s[s.len() - 1].fields@ != t);
        lemma_net_of_absent(s.drop_last(), t);
    }
}

/// The per-tuple weighted sum: each listed tuple's net multiplicity times
/// the inverse of its denominator.
pub open spec fn weighted_sum(
    s: Seq<Interaction>,
    ts: Seq<Seq<u32>>,
    alpha: int,
    beta: int,
) -> int
    decreases ts.len(),
{
    if ts.len() == 0 {
        0
    } else {
        weighted_sum(s, ts.drop_last(), alpha, beta) + net_multiplicity(s, ts.last())
            * field_inv((alpha + fingerprint(ts.last(), beta)) % (FIELD_MODULUS as int))
    }
}

/// Appending one interaction moves the weighted sum by exactly its own
/// term, provided its tuple is listed at most once and every listed tuple
/// keeps its net multiplicity except that one.
proof fn lemma_weighted_sum_append(
    s: Seq<Interaction>,
    sp: Seq<Interaction>,
    x: Interaction,
    ts: Seq<Seq<u32>>,
    alpha: int,
    beta: int,
)
    requires
        s == sp.push(x),
        forall|i: int, j: int| 0 <= i < j < ts.len() ==> ts[i] != ts[j],
    ensures
        weighted_sum(s, ts, alpha, beta) == weighted_sum(sp, ts, alpha, beta) + if ts.contains(
            x.fields@,
        ) {
            let sign = if x.direction == Direction::Send {
                1int
            } else {
                -1int
            };
            sign * (x.multiplicity as int) * field_inv(
                (alpha + fingerprint(x.fields@, beta)) % (FIELD_MODULUS as int),
            )
        } else {
            0
        },
    decreases ts.len(),
{
    if ts.len() == 0 {
    } else {
        let tsp = ts.drop_last();
        let u = ts.last();
        assert(forall|i: int, j: int| 0 <= i < j < tsp.len() ==> tsp[i] != tsp[j]);
        lemma_weighted_sum_append(s, sp, x, tsp, alpha, beta);
        // The last element of the appended collection adjusts only its own
        // tuple's net multiplicity.
        assert(net_multiplicity(s, u) == net_multiplicity(sp, u) + if x.fields@ == u {
            if x.direction == Direction::Send {
                x.multiplicity as int
            } else {
                -(x.multiplicity as int)
            }
        } else {
            0
        }) by {
            assert(s.drop_last() =~= sp);
            assert(s.last() == x);
        }
        let inv_u = field_inv((alpha + fingerprint(u, beta)) % (FIELD_MODULUS as int));
        if x.fields@ == u {
            // u cannot also occur earlier in the list.
            assert(!tsp.contains(x.fields@)) by {
                if tsp.contains(x.fields@) {
                    let j = choose|j: int| 0 <= j < tsp.len() && tsp[j] == x.fields@;
                    assert(ts[j] == ts[ts.len() - 1]);
                }
            }
            assert(ts.contains(x.fields@)) by {
                assert(ts[ts.len() - 1] == x.fields@);
            }
            let m = x.multiplicity as int;
            if x.direction == Direction::Send {
                assert((net_multiplicity(sp, u) + m) * inv_u == net_multiplicity(sp, u) * inv_u + m
                    * inv_u) by (nonlinear_arith);
                assert(1int * m * inv_u == m * inv_u) by (nonlinear_arith);
            } else {
                assert((net_multiplicity(sp, u) - m) * inv_u == net_multiplicity(sp, u) * inv_u - m
                    * inv_u) by (nonlinear_arith);
                assert((-1int) * m * inv_u == -(m * inv_u)) by (nonlinear_arith);
            }
        } else {
            assert(ts.contains(x.fields@) == tsp.contains(x.fields@)) by {
                if ts.contains(x.fields@) {
                    let j = choose|j: int| 0 <= j < ts.len() && ts[j] == x.fields@;
                    assert(j < ts.len() - 1);
                    assert(tsp[j] == x.fields@);
                }
                if tsp.contains(x.fields@) {
                    let j = choose|j: int| 0 <= j < tsp.len() && tsp[j] == x.fields@;
                    assert(ts[j] == x.fields@);
                }
            }
        }
    }
}

/// The integer sum regroups by tuple: it equals the per-tuple weighted sum
/// over the collection's distinct tuples.
proof fn lemma_int_sum_is_weighted(s: Seq<Interaction>, alpha: int, beta: int)
    ensures
        int_sum(s, alpha, beta) == weighted_sum(s, distinct_tuples(s), alpha, beta),
    decreases s.len(),
{
    if s.len() > 0 {
        let sp = s.drop_last();
        let x = s.last();
        let t = x.fields@;
        lemma_int_sum_is_weighted(sp, alpha, beta);
        lemma_distinct_tuples_props(sp);
        lemma_distinct_tuples_props(s);
        let dp = distinct_tuples(sp);
        let d = distinct_tuples(s);
        assert(s =~= sp.push(x));
        let inv_t = field_inv((alpha + fingerprint(t, beta)) % (FIELD_MODULUS as int));
        let sign_term = if x.direction == Direction::Send {
            (x.multiplicity as int) * inv_t
        } else {
            -((x.multiplicity as int) * inv_t)
        };
        assert(denominator(x, alpha, beta) == (alpha + fingerprint(t, beta)) % (
        FIELD_MODULUS as int));
        if dp.contains(t) {
            assert(d == dp);
            lemma_weighted_sum_append(s, sp, x, dp, alpha, beta);
            let m = x.multiplicity as int;
            if x.direction == Direction::Send {
                assert(1int * m * inv_t == m * inv_t) by (nonlinear_arith);
            } else {
                assert((-1int) * m * inv_t == -(m * inv_t)) by (nonlinear_arith);
            }
        } else {
            assert(d == dp.push(t));
            lemma_weighted_sum_append(s, sp, x, dp, alpha, beta);
            // The new tuple's own entry carries exactly the appended term.
            assert(weighted_sum(s, d, alpha, beta) == weighted_sum(s, dp, alpha, beta)
                + net_multiplicity(s, t) * inv_t) by {
                assert(d.drop_last() =~= dp);
                assert(d.last() == t);
            }
            assert(net_multiplicity(sp, t) == 0) by {
                assert forall|i: int| 0 <= i < sp.len() implies (#[trigger] sp[i]).fields@
                    != t by {
                    if sp[i].fields@ == t {
                        assert(dp.contains(t));
                    }
                }
                lemma_net_of_absent(sp, t);
            }
            assert(net_multiplicity(s, t) == net_multiplicity(sp, t) + if x.direction
                == Direction::Send {
                x.multiplicity as int
            } else {
                -(x.multiplicity as int)
            }) by {
                assert(s.drop_last() =~= sp);
            }
            let m = x.multiplicity as int;
            if x.direction == Direction::Send {
                assert(m * inv_t == (0 + m) * inv_t) by (nonlinear_arith);
            } else {
                assert(-(m * inv_t) == (0 - m) * inv_t) by (nonlinear_arith);
            }
        }
    }
}

/// A weighted sum with every net multiplicity zero vanishes.
proof fn lemma_weighted_sum_zero(s: Seq<Interaction>, ts: Seq<Seq<u32>>, alpha: int, beta: int)
    requires
        forall|t: Seq<u32>| net_multiplicity(s, t) == 0,
    ensures
        weighted_sum(s, ts, alpha, beta) == 0,
    decreases ts.len(),
{
    if ts.len() > 0 {
        lemma_weighted_sum_zero(s, ts.drop_last(), alpha, beta);
        assert(net_multiplicity(s, ts.last()) == 0);
        let inv_u = field_inv((alpha + fingerprint(ts.last(), beta)) % (FIELD_MODULUS as int));
        assert(0int * inv_u == 0) by (nonlinear_arith);
    }
}

/// On a single bus, the signed multiplicity of each tuple is the difference
/// of its send and receive multiplicities.
proof fn lemma_net_from_matched(s: Seq<Interaction>, bus: int, t: Seq<u32>)
    requires
        forall|i: int| 0 <= i < s.len() ==> (#[trigger] s[i]).bus_id == bus,
    ensures
        net_multiplicity(s, t) == crate::bus::matched_multiplicity(s, bus, Direction::Send, t)
            - crate::bus::matched_multiplicity(s, bus, Direction::Receive, t),
    decreases s.len(),
{
    if s.len() > 0 {
        assert(s[s.len() - 1].bus_id == bus);
        assert(forall|i: int|
            0 <= i < s.drop_last().len() ==> (#[trigger] s.drop_last()[i]).bus_id == bus);
        lemma_net_from_matched(s.drop_last(), bus, t);
    }
}

/// The completeness of the accumulator: over a single balanced bus, the
/// grand logarithmic-derivative sum vanishes at every challenge point where
/// no denominator does.  An honest execution always passes the randomized
/// check.
pub proof fn lemma_balanced_sums_to_zero(s: Seq<Interaction>, bus: int, alpha: int, beta: int)
    requires
        forall|i: int| 0 <= i < s.len() ==> (#[trigger] s[i]).bus_id == bus,
        crate::bus::bus_multiset(s, bus, Direction::Send) == crate::bus::bus_multiset(
            s,
            bus,
            Direction::Receive,
        ),
    ensures
        logup_sum(s, alpha, beta) == 0,
{
    let p = FIELD_MODULUS as int;
    assert forall|t: Seq<u32>| net_multiplicity(s, t) == 0 by {
        crate::bus::lemma_count_is_matched_multiplicity(s, bus, Direction::Send, t);
        crate::bus::lemma_count_is_matched_multiplicity(s, bus, Direction::Receive, t);
        lemma_net_from_matched(s, bus, t);
    }
    lemma_int_sum_is_weighted(s, alpha, beta);
    lemma_weighted_sum_zero(s, distinct_tuples(s), alpha, beta);
    lemma_logup_sum_is_int_sum(s, alpha, beta);
    vstd::arithmetic::div_mod::lemma_small_mod(0, p as nat);
}


/// Every interaction a predicate-described pair list declares sits on its
/// one bus.
proof fn lemma_pairs_single_bus(s: Seq<Interaction>, n: int, bus: usize)
    requires
        s.len() == 2 * n,
        0 <= n,
        forall|i: int| 0 <= i < n ==> (#[trigger] s[2 * i]).bus_id == bus,
        forall|i: int| 0 <= i < n ==> (#[trigger] s[2 * i + 1]).bus_id == bus,
    ensures
        forall|i: int| 0 <= i < s.len() ==> (#[trigger] s[i]).bus_id == bus,
{
    assert forall|i: int| 0 <= i < s.len() implies (#[trigger] s[i]).bus_id == bus by {
        let q = i / 2;
        vstd::arithmetic::div_mod::lemma_fundamental_div_mod(i, 2);
        if i % 2 == 0 {
            assert(i == 2 * q);
            assert(s[2 * q].bus_id == bus);
        } else {
            assert(i == 2 * q + 1);
            assert(s[2 * q + 1].bus_id == bus);
        }
    }
}

/// The whole memory argument passes the randomized check: for a well-formed
/// controller state, the grand sum of every write pair, every read pair and
/// the audit rows vanishes at every challenge point.
pub proof fn lemma_memory_argument_sum_zero(
    s: crate::memory::MemoryController,
    wi: Seq<Interaction>,
    ri: Seq<Interaction>,
    ai: Seq<Interaction>,
    bus: usize,
    alpha: int,
    beta: int,
)
    requires
        s.wf(),
        crate::audit::is_write_interactions(wi, s.write_log@, bus),
        crate::audit::is_read_interactions(ri, s.read_log@, bus),
        crate::audit::is_audit_interactions(ai, s.touched@, s.image@, bus),
    ensures
        logup_sum(wi + ri + ai, alpha, beta) == 0,
{
    let all = wi + ri + ai;
    crate::audit::lemma_offline_checking_balanced(s, wi, ri, ai, bus);
    assert forall|j: int|
        0 <= j < s.write_log@.len() implies (#[trigger] wi[2 * j]).bus_id == bus by {
        assert(crate::audit::write_pair_ok(wi, s.write_log@[j], j, bus));
    }
    assert forall|j: int|
        0 <= j < s.write_log@.len() implies (#[trigger] wi[2 * j + 1]).bus_id == bus by {
        assert(crate::audit::write_pair_ok(wi, s.write_log@[j], j, bus));
    }
    lemma_pairs_single_bus(wi, s.write_log@.len() as int, bus);
    assert forall|j: int|
        0 <= j < s.read_log@.len() implies (#[trigger] ri[2 * j]).bus_id == bus by {
        assert(crate::audit::read_pair_ok(ri, s.read_log@[j], j, bus));
    }
    assert forall|j: int|
        0 <= j < s.read_log@.len() implies (#[trigger] ri[2 * j + 1]).bus_id == bus by {
        assert(crate::audit::read_pair_ok(ri, s.read_log@[j], j, bus));
    }
    lemma_pairs_single_bus(ri, s.read_log@.len() as int, bus);
    assert forall|j: int|
        0 <= j < s.touched@.len() implies (#[trigger] ai[2 * j]).bus_id == bus by {
        assert(crate::audit::audit_pair_ok(
            ai,
            s.touched@[j].0,
            s.touched@[j].1,
            s.image@[crate::memory::addr_key(s.touched@[j].0, s.touched@[j].1)],
            j,
            bus,
        ));
    }
    assert forall|j: int|
        0 <= j < s.touched@.len() implies (#[trigger] ai[2 * j + 1]).bus_id == bus by {
        assert(crate::audit::audit_pair_ok(
            ai,
            s.touched@[j].0,
            s.touched@[j].1,
            s.image@[crate::memory::addr_key(s.touched@[j].0, s.touched@[j].1)],
            j,
            bus,
        ));
    }
    lemma_pairs_single_bus(ai, s.touched@.len() as int, bus);
    assert(forall|i: int| 0 <= i < all.len() ==> (#[trigger] all[i]).bus_id == bus);
    assert(crate::bus::bus_multiset(all, bus as int, Direction::Send) == crate::bus::bus_multiset(
        all,
        bus as int,
        Direction::Receive,
    ));
    lemma_balanced_sums_to_zero(all, bus as int, alpha, beta);
}

} // verus!
