//! The shared range checker: proves that values lie below a declared
//! power-of-two bound.
//!
//! Every chip needing a bound proof calls [`RangeCheckerChip::range_check`],
//! which records one receive interaction on the shared range bus.  At trace
//! time the checker emits one send per request it can vouch for — a value
//! within the declared number of bits.  A request outside its declared bound
//! has no matching send, so the bus balance fails exactly then: out-of-range
//! values are rejected at verification time, never during trace generation.

use vstd::prelude::*;

verus! {

use vstd::multiset::Multiset;

use crate::bus::{
    Interaction, Direction, bus_multiset, repeat_tuple, balanced, lemma_bus_multiset_concat,
};

/// A value fits its declared bound when the bound is within the checker's
/// configured maximum and the value is below `2^num_bits`.
pub open spec fn in_range(value: u32, num_bits: u32, range_max_bits: u32) -> bool {
    num_bits <= range_max_bits && num_bits < 32 && (value as u64) < (1u64 << num_bits)
}

/// The tuple a range-check request puts on the range bus.
pub open spec fn range_tuple(value: u32, num_bits: u32) -> Seq<u32> {
    seq![value, num_bits]
}

/// The multiset of tuples of all requests of a list.
pub open spec fn request_multiset(reqs: Seq<(u32, u32)>) -> Multiset<Seq<u32>>
    decreases reqs.len(),
{
    if reqs.len() == 0 {
        Multiset::empty()
    } else {
        request_multiset(reqs.drop_last()).insert(range_tuple(reqs.last().0, reqs.last().1))
    }
}

/// The multiset of tuples of only the in-range requests of a list.
pub open spec fn in_range_multiset(reqs: Seq<(u32, u32)>, range_max_bits: u32) -> Multiset<Seq<u32>>
    decreases reqs.len(),
{
    if reqs.len() == 0 {
        Multiset::empty()
    } else if in_range(reqs.last().0, reqs.last().1, range_max_bits) {
        in_range_multiset(reqs.drop_last(), range_max_bits).insert(
            range_tuple(reqs.last().0, reqs.last().1),
        )
    } else {
        in_range_multiset(reqs.drop_last(), range_max_bits)
    }
}

/// The in-range requests of a list, kept in request order: the rows the
/// counting table can vouch for.
pub open spec fn in_range_requests(reqs: Seq<(u32, u32)>, range_max_bits: u32) -> Seq<(u32, u32)>
    decreases reqs.len(),
{
    if reqs.len() == 0 {
        Seq::empty()
    } else if in_range(reqs.last().0, reqs.last().1, range_max_bits) {
        in_range_requests(reqs.drop_last(), range_max_bits).push(reqs.last())
    } else {
        in_range_requests(reqs.drop_last(), range_max_bits)
    }
}

/// One receive per listed request, in order, each with multiplicity 1.
pub open spec fn is_range_receives(s: Seq<Interaction>, reqs: Seq<(u32, u32)>, bus: usize) -> bool {
    &&& s.len() == reqs.len()
    &&& forall|i: int|
        0 <= i < reqs.len() ==> {
            &&& (#[trigger] s[i]).bus_id == bus
            &&& s[i].direction == Direction::Receive
            &&& s[i].multiplicity == 1
            &&& s[i].fields@ == range_tuple(reqs[i].0, reqs[i].1)
        }
}

/// One send per listed request, in order, each with multiplicity 1.
pub open spec fn is_range_sends(s: Seq<Interaction>, reqs: Seq<(u32, u32)>, bus: usize) -> bool {
    &&& s.len() == reqs.len()
    &&& forall|i: int|
        0 <= i < reqs.len() ==> {
            &&& (#[trigger] s[i]).bus_id == bus
            &&& s[i].direction == Direction::Send
            &&& s[i].multiplicity == 1
            &&& s[i].fields@ == range_tuple(reqs[i].0, reqs[i].1)
        }
}

/// Whether a bus tuple denotes an in-range request.  A request tuple fixes
/// its own bound, so all requests carrying the same tuple are in range or
/// out of range together.
pub open spec fn tuple_in_range(t: Seq<u32>, range_max_bits: u32) -> bool {
    t.len() == 2 && in_range(t[0], t[1], range_max_bits)
}

/// The in-range multiset agrees with the full request multiset on in-range
/// tuples and is empty elsewhere.
pub proof fn lemma_in_range_multiset_count(reqs: Seq<(u32, u32)>, range_max_bits: u32, t: Seq<u32>)
    ensures
        in_range_multiset(reqs, range_max_bits).count(t) == if tuple_in_range(t, range_max_bits) {
            request_multiset(reqs).count(t)
        } else {
            0
        },
    decreases reqs.len(),
{
    if reqs.len() > 0 {
        lemma_in_range_multiset_count(reqs.drop_last(), range_max_bits, t);
        let q = reqs.last();
        if range_tuple(q.0, q.1) == t {
            assert(t[0] == q.0 && t[1] == q.1);
        }
    }
}

/// A request present in a list has positive count in the request multiset.
pub proof fn lemma_request_multiset_member(reqs: Seq<(u32, u32)>, i: int)
    requires
        0 <= i < reqs.len(),
    ensures
        request_multiset(reqs).count(range_tuple(reqs[i].0, reqs[i].1)) > 0,
    decreases reqs.len(),
{
    if i < reqs.len() - 1 {
        lemma_request_multiset_member(reqs.drop_last(), i);
    }
}

/// A tuple with positive count in the request multiset belongs to some
/// request.
pub proof fn lemma_request_multiset_witness(reqs: Seq<(u32, u32)>, t: Seq<u32>)
    requires
        request_multiset(reqs).count(t) > 0,
    ensures
        exists|i: int|
            0 <= i < reqs.len() && range_tuple((#[trigger] reqs[i]).0, reqs[i].1) == t,
    decreases reqs.len(),
{
    if reqs.len() > 0 {
        if range_tuple(reqs.last().0, reqs.last().1) == t {
            assert(range_tuple(reqs[reqs.len() - 1].0, reqs[reqs.len() - 1].1) == t);
        } else {
            lemma_request_multiset_witness(reqs.drop_last(), t);
            let i = choose|i: int|
                0 <= i < reqs.len() - 1 && range_tuple(
                    (#[trigger] reqs.drop_last()[i]).0,
                    reqs.drop_last()[i].1,
                ) == t;
            assert(range_tuple(reqs[i].0, reqs[i].1) == t);
        }
    }
}

/// The reusable range-checker chip.  It owns nothing but its configuration
/// and the log of requested checks; the counting table is materialized at
/// trace-generation time.
pub struct RangeCheckerChip {
    /// The shared bus the range argument runs on.
    pub bus: usize,
    /// The largest bound, in bits, this checker can vouch for.
    pub range_max_bits: u32,
    /// Every requested check, in request order.
    pub requests: Vec<(u32, u32)>,
}

impl RangeCheckerChip {
    /// A configured checker is usable when its bound fits a 32-bit value.
    pub open spec fn wf(self) -> bool {
        self.range_max_bits < 32
    }

    /// A fresh checker for the given bus and maximum bound.
    pub fn new(bus: usize, range_max_bits: u32) -> (r: Self)
        requires
            range_max_bits < 32,
        ensures
            r.wf(),
            r.bus == bus,
            r.range_max_bits == range_max_bits,
            r.requests@ =~= Seq::<(u32, u32)>::empty(),
    {
        RangeCheckerChip { bus, range_max_bits, requests: Vec::new() }
    }

    /// Requests a proof that `value < 2^num_bits`.  The request is always
    /// recorded — an out-of-range value is not detected here but at
    /// verification time, when its receive finds no matching send.
    pub fn range_check(&mut self, value: u32, num_bits: u32)
        requires
            old(self).wf(),
        ensures
            final(self).wf(),
            final(self).bus == old(self).bus,
            final(self).range_max_bits == old(self).range_max_bits,
            final(self).requests@ == old(self).requests@.push((value, num_bits)),
    {
        self.requests.push((value, num_bits));
    }

    /// The range bus interactions: one receive per request, and one send per
    /// request the checker can vouch for.  The result is balanced exactly
    /// when every requested value fits its declared bound — in particular a
    /// value of `2^num_bits - 1` passes and `2^num_bits` fails.
    pub fn generate_interactions(&self) -> (r: Vec<Interaction>)
        requires
            self.wf(),
        ensures
            balanced(r@) <==> forall|i: int|
                0 <= i < self.requests@.len() ==> in_range(
                    (#[trigger] self.requests@[i]).0,
                    self.requests@[i].1,
                    self.range_max_bits,
                ),
            r@.len() == self.requests@.len() + in_range_requests(
                self.requests@,
                self.range_max_bits,
            ).len(),
            is_range_receives(
                r@.take(self.requests@.len() as int),
                self.requests@,
                self.bus,
            ),
            is_range_sends(
                r@.subrange(self.requests@.len() as int, r@.len() as int),
                in_range_requests(self.requests@, self.range_max_bits),
                self.bus,
            ),
    {
        let bus = self.bus;
        let max = self.range_max_bits;
        let mut receives: Vec<Interaction> = Vec::new();
        let mut i: usize = 0;
        while i < self.requests.len()
            invariant
                0 <= i <= self.requests@.len(),
                receives@.len() == i,
                is_range_receives(receives@, self.requests@.take(i as int), bus),
                bus_multiset(receives@, bus as int, Direction::Receive) == request_multiset(
                    self.requests@.take(i as int),
                ),
                forall|b: int, d: Direction|
                    !(b == bus && d == Direction::Receive) ==> #[trigger] bus_multiset(
                        receives@,
                        b,
                        d,
                    ) == Multiset::<Seq<u32>>::empty(),
            decreases self.requests@.len() - i,
        {
            let ghost r0 = receives@;
            let (value, num_bits) = self.requests[i];
            let mut fields: Vec<u32> = Vec::new();
            fields.push(value);
            fields.push(num_bits);
            proof {
                assert(fields@ =~= range_tuple(value, num_bits));
            }
            receives.push(
                Interaction { bus_id: bus, fields, multiplicity: 1, direction: Direction::Receive },
            );
            proof {
                assert(receives@.drop_last() =~= r0);
                assert(self.requests@.take(i + 1).drop_last() =~= self.requests@.take(i as int));
                assert(repeat_tuple(range_tuple(value, num_bits), 0)
                    == Multiset::<Seq<u32>>::empty());
                assert(repeat_tuple(range_tuple(value, num_bits), 1) =~= Multiset::empty().insert(
                    range_tuple(value, num_bits),
                ));
                assert(bus_multiset(receives@, bus as int, Direction::Receive) =~= request_multiset(
                    self.requests@.take(i + 1),
                ));
                assert forall|j: int| 0 <= j < i + 1 implies {
                    &&& (#[trigger] receives@[j]).bus_id == bus
                    &&& receives@[j].direction == Direction::Receive
                    &&& receives@[j].multiplicity == 1
                    &&& receives@[j].fields@ == range_tuple(
                        self.requests@.take(i + 1)[j].0,
                        self.requests@.take(i + 1)[j].1,
                    )
                } by {
                    if j < i {
                        assert(receives@[j] == r0[j]);
                        assert(self.requests@.take(i as int)[j] == self.requests@.take(i + 1)[j]);
                    }
                }
                assert forall|b: int, d: Direction|
                    !(b == bus && d == Direction::Receive) implies #[trigger] bus_multiset(
                    receives@,
                    b,
                    d,
                ) == Multiset::<Seq<u32>>::empty() by {
                    assert(bus_multiset(r0, b, d) == Multiset::<Seq<u32>>::empty());
                    assert(bus_multiset(receives@, b, d) =~= Multiset::<Seq<u32>>::empty());
                }
            }
            i += 1;
        }
        let mut sends: Vec<Interaction> = Vec::new();
        let mut j: usize = 0;
        while j < self.requests.len()
            invariant
                self.wf(),
                0 <= j <= self.requests@.len(),
                is_range_sends(sends@, in_range_requests(self.requests@.take(j as int), max), bus),
                bus_multiset(sends@, bus as int, Direction::Send) == in_range_multiset(
                    self.requests@.take(j as int),
                    max,
                ),
                max == self.range_max_bits,
                forall|b: int, d: Direction|
                    !(b == bus && d == Direction::Send) ==> #[trigger] bus_multiset(
                        sends@,
                        b,
                        d,
                    ) == Multiset::<Seq<u32>>::empty(),
            decreases self.requests@.len() - j,
        {
            let ghost s0 = sends@;
            let (value, num_bits) = self.requests[j];
            proof {
                assert(self.requests@.take(j + 1).drop_last() =~= self.requests@.take(j as int));
            }
            proof {
                if !(num_bits <= max && num_bits < 32 && (value as u64) < (1u64 << num_bits)) {
                    assert(in_range_requests(self.requests@.take(j + 1), max)
                        == in_range_requests(self.requests@.take(j as int), max));
                }
            }
            if num_bits <= max && (value as u64) < (1u64 << num_bits) {
                let mut fields: Vec<u32> = Vec::new();
                fields.push(value);
                fields.push(num_bits);
                proof {
                    assert(fields@ =~= range_tuple(value, num_bits));
                }
                sends.push(
                    Interaction { bus_id: bus, fields, multiplicity: 1, direction: Direction::Send },
                );
                proof {
                    assert(sends@.drop_last() =~= s0);
                    assert(repeat_tuple(range_tuple(value, num_bits), 0)
                        == Multiset::<Seq<u32>>::empty());
                    assert(repeat_tuple(range_tuple(value, num_bits), 1)
                        =~= Multiset::empty().insert(range_tuple(value, num_bits)));
                    assert(bus_multiset(sends@, bus as int, Direction::Send) =~= in_range_multiset(
                        self.requests@.take(j + 1),
                        max,
                    ));
                    assert(in_range_requests(self.requests@.take(j + 1), max)
                        == in_range_requests(self.requests@.take(j as int), max).push(
                        (value, num_bits),
                    ));
                    assert forall|t: int|
                        0 <= t < in_range_requests(self.requests@.take(j + 1), max).len() implies {
                        let irr = in_range_requests(self.requests@.take(j + 1), max);
                        &&& (#[trigger] sends@[t]).bus_id == bus
                        &&& sends@[t].direction == Direction::Send
                        &&& sends@[t].multiplicity == 1
                        &&& sends@[t].fields@ == range_tuple(irr[t].0, irr[t].1)
                    } by {
                        let irr0 = in_range_requests(self.requests@.take(j as int), max);
                        if t < irr0.len() {
                            assert(sends@[t] == s0[t]);
                        }
                    }
                    assert forall|b: int, d: Direction|
                        !(b == bus && d == Direction::Send) implies #[trigger] bus_multiset(
                        sends@,
                        b,
                        d,
                    ) == Multiset::<Seq<u32>>::empty() by {
                        assert(bus_multiset(s0, b, d) == Multiset::<Seq<u32>>::empty());
                        assert(bus_multiset(sends@, b, d) =~= Multiset::<Seq<u32>>::empty());
                    }
                }
            }
            j += 1;
        }
        let ghost rv = receives@;
        let ghost sv = sends@;
        let mut r = receives;
        let mut sends_moved = sends;
        r.append(&mut sends_moved);
        proof {
            assert(self.requests@.take(self.requests@.len() as int) =~= self.requests@);
            assert(r@ == rv + sv);
            self.lemma_interactions_balance(rv, sv);
            assert(r@.take(self.requests@.len() as int) =~= rv);
            assert(r@.subrange(self.requests@.len() as int, r@.len() as int) =~= sv);
        }
        r
    }

    /// The balance criterion of the generated range interactions: balanced
    /// exactly when every request is within its declared bound.
    proof fn lemma_interactions_balance(&self, rv: Seq<Interaction>, sv: Seq<Interaction>)
        requires
            self.wf(),
            bus_multiset(rv, self.bus as int, Direction::Receive) == request_multiset(
                self.requests@,
            ),
            bus_multiset(sv, self.bus as int, Direction::Send) == in_range_multiset(
                self.requests@,
                self.range_max_bits,
            ),
            forall|b: int, d: Direction|
                !(b == self.bus && d == Direction::Receive) ==> #[trigger] bus_multiset(rv, b, d)
                    == Multiset::<Seq<u32>>::empty(),
            forall|b: int, d: Direction|
                !(b == self.bus && d == Direction::Send) ==> #[trigger] bus_multiset(sv, b, d)
                    == Multiset::<Seq<u32>>::empty(),
        ensures
            balanced(rv + sv) <==> forall|i: int|
                0 <= i < self.requests@.len() ==> in_range(
                    (#[trigger] self.requests@[i]).0,
                    self.requests@[i].1,
                    self.range_max_bits,
                ),
    {
        let all = rv + sv;
        let bus = self.bus as int;
        let max = self.range_max_bits;
        let reqs = self.requests@;
        assert forall|b: int, d: Direction|
            #[trigger] bus_multiset(all, b, d) == bus_multiset(rv, b, d).add(
                bus_multiset(sv, b, d),
            ) by {
            lemma_bus_multiset_concat(rv, sv, b, d);
        }
        if forall|i: int|
            0 <= i < reqs.len() ==> in_range((#[trigger] reqs[i]).0, reqs[i].1, max) {
            assert forall|t: Seq<u32>|
                in_range_multiset(reqs, max).count(t) == request_multiset(reqs).count(t) by {
                lemma_in_range_multiset_count(reqs, max, t);
                if !tuple_in_range(t, max) && request_multiset(reqs).count(t) > 0 {
                    lemma_request_multiset_witness(reqs, t);
                    let i = choose|i: int|
                        0 <= i < reqs.len() && range_tuple((#[trigger] reqs[i]).0, reqs[i].1) == t;
                    assert(in_range(reqs[i].0, reqs[i].1, max));
                    assert(tuple_in_range(t, max));
                }
            }
            assert(in_range_multiset(reqs, max) =~= request_multiset(reqs));
            assert forall|b: int|
                bus_multiset(all, b, Direction::Send) == #[trigger] bus_multiset(
                    all,
                    b,
                    Direction::Receive,
                ) by {
                if b == bus {
                    assert(bus_multiset(all, b, Direction::Send) =~= in_range_multiset(reqs, max));
                    assert(bus_multiset(all, b, Direction::Receive) =~= request_multiset(reqs));
                } else {
                    assert(bus_multiset(all, b, Direction::Send) =~= Multiset::<Seq<u32>>::empty());
                    assert(bus_multiset(all, b, Direction::Receive) =~= Multiset::<
                        Seq<u32>,
                    >::empty());
                }
            }
        } else {
            let i = choose|i: int|
                0 <= i < reqs.len() && !in_range((#[trigger] reqs[i]).0, reqs[i].1, max);
            let t = range_tuple(reqs[i].0, reqs[i].1);
            lemma_request_multiset_member(reqs, i);
            lemma_in_range_multiset_count(reqs, max, t);
            assert(!tuple_in_range(t, max));
            assert(bus_multiset(all, bus, Direction::Send).count(t) == 0) by {
                assert(bus_multiset(all, bus, Direction::Send) =~= in_range_multiset(reqs, max));
            }
            assert(bus_multiset(all, bus, Direction::Receive).count(t) > 0) by {
                assert(bus_multiset(all, bus, Direction::Receive) =~= request_multiset(reqs));
            }
            assert(bus_multiset(all, bus, Direction::Send) != bus_multiset(
                all,
                bus,
                Direction::Receive,
            ));
        }
    }
}


/// The integer a little-endian limb sequence denotes, with `bits`-bit limbs.
pub open spec fn recompose(limbs: Seq<u32>, bits: nat) -> int
    decreases limbs.len(),
{
    if limbs.len() == 0 {
        0
    } else {
        limbs.first() + vstd::arithmetic::power2::pow2(bits) * recompose(limbs.drop_first(), bits)
    }
}

/// Appending a limb adds its value at the next power of the base.
pub proof fn lemma_recompose_push(limbs: Seq<u32>, bits: nat, l: u32)
    ensures
        recompose(limbs.push(l), bits) == recompose(limbs, bits) + l * vstd::arithmetic::power::pow(
            vstd::arithmetic::power2::pow2(bits) as int,
            limbs.len(),
        ),
    decreases limbs.len(),
{
    let b = vstd::arithmetic::power2::pow2(bits) as int;
    if limbs.len() == 0 {
        assert(limbs.push(l).drop_first() =~= Seq::<u32>::empty());
        assert(limbs.push(l).first() == l);
        assert(recompose(Seq::<u32>::empty(), bits) == 0);
        vstd::arithmetic::power::lemma_pow0(b);
        assert(l * 1 == l) by (nonlinear_arith);
        assert(b * 0 == 0) by (nonlinear_arith);
        assert(recompose(limbs.push(l), bits) == l + b * 0);
        assert(recompose(limbs, bits) == 0);
    } else {
        assert(limbs.push(l).first() == limbs.first());
        assert(limbs.push(l).drop_first() =~= limbs.drop_first().push(l));
        lemma_recompose_push(limbs.drop_first(), bits, l);
        let n = limbs.drop_first().len();
        assert(vstd::arithmetic::power::pow(b, n + 1) == b * vstd::arithmetic::power::pow(b, n))
            by {
            vstd::arithmetic::power::lemma_pow_adds(b, 1, n);
            vstd::arithmetic::power::lemma_pow1(b);
        }
        assert(b * (recompose(limbs.drop_first(), bits) + l * vstd::arithmetic::power::pow(b, n))
            == b * recompose(limbs.drop_first(), bits) + l * (b * vstd::arithmetic::power::pow(
            b,
            n,
        ))) by (nonlinear_arith);
    }
}

impl RangeCheckerChip {
    /// Decomposes a value into `num_limbs` limbs of `range_max_bits` bits in
    /// little-endian order and range-checks each of them.  Every request
    /// this issues is within bounds, so the decomposition never spoils the
    /// range bus; the limbs recompose to the value exactly when the value
    /// fits the decomposition's total width.
    pub fn decompose_and_check(&mut self, value: u32, num_limbs: usize) -> (r: Vec<u32>)
        requires
            old(self).wf(),
        ensures
            final(self).wf(),
            final(self).bus == old(self).bus,
            final(self).range_max_bits == old(self).range_max_bits,
            r@.len() == num_limbs,
            recompose(r@, old(self).range_max_bits as nat) + ((value as int) / vstd::arithmetic::power::pow(
                vstd::arithmetic::power2::pow2(old(self).range_max_bits as nat) as int,
                num_limbs as nat,
            )) * vstd::arithmetic::power::pow(
                vstd::arithmetic::power2::pow2(old(self).range_max_bits as nat) as int,
                num_limbs as nat,
            ) == value,
            forall|j: int| 0 <= j < r@.len() ==> in_range(#[trigger] r@[j], old(self).range_max_bits, old(self).range_max_bits),
            final(self).requests@.len() == old(self).requests@.len() + num_limbs,
            forall|j: int|
                0 <= j < old(self).requests@.len() ==> final(self).requests@[j] == old(
                    self,
                ).requests@[j],
            forall|j: int|
                0 <= j < num_limbs ==> final(self).requests@[old(self).requests@.len() + j] == (
                r@[j],
                old(self).range_max_bits,
            ),
    {
        let bits = self.range_max_bits;
        let ghost req0 = self.requests@;
        let base_u64: u64 = 1u64 << bits;
        proof {
            vstd::arithmetic::power2::lemma_pow2_pos(bits as nat);
            assert(vstd::arithmetic::power2::pow2(bits as nat) < 0x1_0000_0000) by {
                vstd::arithmetic::power2::lemma2_to64();
                if bits < 32 {
                    vstd::arithmetic::power2::lemma_pow2_strictly_increases(bits as nat, 32);
                }
            }
            assert(1u64 * vstd::arithmetic::power2::pow2(bits as nat) == vstd::arithmetic::power2::pow2(
                bits as nat,
            )) by (nonlinear_arith);
            assert((1u64 << bits) == vstd::arithmetic::power2::pow2(bits as nat)) by {
                vstd::bits::lemma_u64_shl_is_mul(1u64, bits as u64);
            }
        }
        let mut cur: u64 = value as u64;
        let mut r: Vec<u32> = Vec::new();
        let mut i: usize = 0;
        proof {
            vstd::arithmetic::power::lemma_pow0(base_u64 as int);
            vstd::arithmetic::div_mod::lemma_div_basics(value as int);
            assert((cur as int) * 1 == cur) by (nonlinear_arith);
        }
        while i < num_limbs
            invariant
                0 <= i <= num_limbs,
                self.wf(),
                self.bus == old(self).bus,
                bits == self.range_max_bits,
                bits == old(self).range_max_bits,
                base_u64 == vstd::arithmetic::power2::pow2(bits as nat),
                1 <= base_u64 <= 0x1_0000_0000,
                r@.len() == i,
                cur <= value,
                recompose(r@, bits as nat) + (cur as int) * vstd::arithmetic::power::pow(
                    base_u64 as int,
                    i as nat,
                ) == value,
                cur as int == (value as int) / vstd::arithmetic::power::pow(
                    base_u64 as int,
                    i as nat,
                ),
                forall|j: int| 0 <= j < i ==> in_range(#[trigger] r@[j], bits, bits),
                self.requests@.len() == req0.len() + i,
                forall|j: int| 0 <= j < req0.len() ==> self.requests@[j] == req0[j],
                forall|j: int| 0 <= j < i ==> self.requests@[req0.len() + j] == (r@[j], bits),
            decreases num_limbs - i,
        {
            let limb = (cur % base_u64) as u32;
            let next = cur / base_u64;
            proof {
                let b = base_u64 as int;
                let p = vstd::arithmetic::power::pow(b, i as nat);
                assert(cur % base_u64 < base_u64);
                assert(cur % base_u64 < 0x1_0000_0000);
                assert(limb as u64 == cur % base_u64);
                assert((1u64 << bits) == base_u64) by {
                    assert(1u64 * vstd::arithmetic::power2::pow2(bits as nat)
                        == vstd::arithmetic::power2::pow2(bits as nat)) by (nonlinear_arith);
                    vstd::bits::lemma_u64_shl_is_mul(1u64, bits as u64);
                }
                assert(in_range(limb, bits, bits)) by {
                    assert((limb as u64) < (1u64 << bits));
                }
                lemma_recompose_push(r@, bits as nat, limb);
                // cur = limb + base * next, so shifting the remainder into
                // the limb keeps the recomposition exact.
                assert(cur == base_u64 * (cur / base_u64) + cur % base_u64) by {
                    vstd::arithmetic::div_mod::lemma_fundamental_div_mod(
                        cur as int,
                        base_u64 as int,
                    );
                }
                assert(vstd::arithmetic::power::pow(b, (i + 1) as nat) == b * p) by {
                    vstd::arithmetic::power::lemma_pow_adds(b, 1, i as nat);
                    vstd::arithmetic::power::lemma_pow1(b);
                }
                assert((limb + b * (next as int)) * p == (limb as int) * p + (next as int) * (b
                    * p)) by (nonlinear_arith);
                assert((cur as int) * p == (limb as int) * p + (next as int) * (b * p));
                // The running quotient is the value shifted down i limbs.
                vstd::arithmetic::power::lemma_pow_positive(b, i as nat);
                vstd::arithmetic::div_mod::lemma_div_denominator(value as int, p, b);
                assert(p * b == b * p) by (nonlinear_arith);
            }
            r.push(limb);
            self.range_check(limb, bits);
            cur = next;
            i += 1;
        }
        r
    }
}

} // verus!
