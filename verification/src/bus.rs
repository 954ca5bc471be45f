//! The interaction bus: a multiset-equality argument between trace rows.
//!
//! Independent chips declare that they send or receive tagged tuples on a
//! numbered bus, each weighted by a row multiplicity.  A proof is sound only
//! if, for every bus, the multiset of sent tuples equals the multiset of
//! received tuples.

use vstd::prelude::*;

verus! {

use vstd::multiset::Multiset;

/// Whether an interaction contributes a tuple to a bus or consumes one.
#[derive(Clone, Copy, PartialEq, Eq, Structural, Debug)]
pub enum Direction {
    Send,
    Receive,
}

/// One declared bus interaction: a tagged tuple of field elements together
/// with the row multiplicity it is counted with.
#[derive(Clone, Debug)]
pub struct Interaction {
    pub bus_id: usize,
    pub fields: Vec<u32>,
    pub multiplicity: u32,
    pub direction: Direction,
}

/// The multiset holding `n` copies of the tuple `t`.
pub open spec fn repeat_tuple(t: Seq<u32>, n: nat) -> Multiset<Seq<u32>>
    decreases n,
{
    if n == 0 {
        Multiset::empty()
    } else {
        repeat_tuple(t, (n - 1) as nat).insert(t)
    }
}

/// The multiset a single interaction contributes to bus `bus` in direction `dir`.
pub open spec fn contribution(i: Interaction, bus: int, dir: Direction) -> Multiset<Seq<u32>> {
    if i.bus_id == bus && i.direction == dir {
        repeat_tuple(i.fields@, i.multiplicity as nat)
    } else {
        Multiset::empty()
    }
}

/// The aggregate multiset of tuples declared on bus `bus` in direction `dir`
/// over a whole sequence of interactions, each counted with its multiplicity.
pub open spec fn bus_multiset(s: Seq<Interaction>, bus: int, dir: Direction) -> Multiset<Seq<u32>>
    decreases s.len(),
{
    if s.len() == 0 {
        Multiset::empty()
    } else {
        bus_multiset(s.drop_last(), bus, dir).add(contribution(s.last(), bus, dir))
    }
}

/// A set of interactions is balanced when, on every bus, the sends and the
/// receives form the same multiset of tuples.
pub open spec fn balanced(s: Seq<Interaction>) -> bool {
    forall|bus: int| bus_multiset(s, bus, Direction::Send) == bus_multiset(s, bus, Direction::Receive)
}

/// How many copies of `t` the repeated-tuple multiset holds.
pub proof fn lemma_repeat_tuple_count(t: Seq<u32>, n: nat, q: Seq<u32>)
    ensures
        repeat_tuple(t, n).count(q) == if q == t { n } else { 0nat },
    decreases n,
{
    if n > 0 {
        lemma_repeat_tuple_count(t, (n - 1) as nat, q);
    }
}

/// The total multiplicity with which tuple `t` is declared on bus `bus` in
/// direction `dir` over the sequence of interactions `s`.
pub open spec fn matched_multiplicity(s: Seq<Interaction>, bus: int, dir: Direction, t: Seq<u32>) -> int
    decreases s.len(),
{
    if s.len() == 0 {
        0
    } else {
        matched_multiplicity(s.drop_last(), bus, dir, t) + if s.last().bus_id == bus
            && s.last().direction == dir && s.last().fields@ == t {
            s.last().multiplicity as int
        } else {
            0
        }
    }
}

/// The count of a tuple in the aggregate bus multiset is the total matched
/// multiplicity.
pub proof fn lemma_count_is_matched_multiplicity(
    s: Seq<Interaction>,
    bus: int,
    dir: Direction,
    t: Seq<u32>,
)
    ensures
        bus_multiset(s, bus, dir).count(t) == matched_multiplicity(s, bus, dir, t),
        matched_multiplicity(s, bus, dir, t) >= 0,
    decreases s.len(),
{
    if s.len() == 0 {
        assert(bus_multiset(s, bus, dir) == Multiset::<Seq<u32>>::empty());
    } else {
        lemma_count_is_matched_multiplicity(s.drop_last(), bus, dir, t);
        lemma_repeat_tuple_count(s.last().fields@, s.last().multiplicity as nat, t);
    }
}

/// A tuple with positive matched multiplicity is declared by some interaction
/// of the sequence.
pub proof fn lemma_matched_multiplicity_witness(
    s: Seq<Interaction>,
    bus: int,
    dir: Direction,
    t: Seq<u32>,
)
    requires
        matched_multiplicity(s, bus, dir, t) > 0,
    ensures
        exists|i: int|
            0 <= i < s.len() && #[trigger] s[i].bus_id == bus && s[i].direction == dir
                && s[i].fields@ == t,
    decreases s.len(),
{
    if s.len() > 0 {
        if s.last().bus_id == bus && s.last().direction == dir && s.last().fields@ == t {
            assert(s[s.len() - 1].bus_id == bus);
        } else {
            lemma_matched_multiplicity_witness(s.drop_last(), bus, dir, t);
            let i = choose|i: int|
                0 <= i < s.len() - 1 && #[trigger] s.drop_last()[i].bus_id == bus
                    && s.drop_last()[i].direction == dir && s.drop_last()[i].fields@ == t;
            assert(s[i].bus_id == bus);
        }
    }
}

/// Removing one interaction removes exactly its contribution from the
/// aggregate bus multiset.
pub proof fn lemma_bus_multiset_remove(s: Seq<Interaction>, bus: int, dir: Direction, j: int)
    requires
        0 <= j < s.len(),
    ensures
        bus_multiset(s, bus, dir) == bus_multiset(s.remove(j), bus, dir).add(
            contribution(s[j], bus, dir),
        ),
    decreases s.len(),
{
    if j == s.len() - 1 {
        assert(s.remove(j) =~= s.drop_last());
    } else {
        assert(s.remove(j).drop_last() =~= s.drop_last().remove(j));
        assert(s.remove(j).last() == s.last());
        lemma_bus_multiset_remove(s.drop_last(), bus, dir, j);
        assert(bus_multiset(s, bus, dir) =~= bus_multiset(s.remove(j), bus, dir).add(
            contribution(s[j], bus, dir),
        ));
    }
}

/// Two sequences of interactions holding the same interactions, in any order,
/// declare the same multiset of tuples on every bus.
pub proof fn lemma_bus_multiset_permutation(
    s1: Seq<Interaction>,
    s2: Seq<Interaction>,
    bus: int,
    dir: Direction,
)
    requires
        s1.to_multiset() == s2.to_multiset(),
    ensures
        bus_multiset(s1, bus, dir) == bus_multiset(s2, bus, dir),
    decreases s1.len(),
{
    broadcast use vstd::seq_lib::group_to_multiset_ensures;

    if s1.len() == 0 {
        assert(s2.to_multiset().len() == 0);
        assert(s2.len() == 0);
    } else {
        let x = s1.last();
        assert(s1.to_multiset().count(x) > 0) by {
            assert(s1.contains(x));
        }
        assert(s2.to_multiset().count(x) > 0);
        assert(s2.contains(x));
        let j = choose|j: int| 0 <= j < s2.len() && s2[j] == x;
        let s1p = s1.drop_last();
        let s2p = s2.remove(j);
        assert(s1p.to_multiset() == s2p.to_multiset()) by {
            assert(s1.remove(s1.len() - 1) =~= s1p);
            assert(s1p.to_multiset() =~= s1.to_multiset().remove(x));
            assert(s2p.to_multiset() =~= s2.to_multiset().remove(x));
        }
        lemma_bus_multiset_permutation(s1p, s2p, bus, dir);
        lemma_bus_multiset_remove(s2, bus, dir, j);
        assert(bus_multiset(s1, bus, dir) == bus_multiset(s1p, bus, dir).add(
            contribution(x, bus, dir),
        ));
    }
}

/// Whether the bus argument accepts a collection of interactions does not
/// depend on the order the rows were laid down in: a reordering of the
/// interactions is balanced exactly when the given order is.
pub proof fn lemma_balanced_order_independent(s1: Seq<Interaction>, s2: Seq<Interaction>)
    requires
        s1.to_multiset() == s2.to_multiset(),
    ensures
        balanced(s1) == balanced(s2),
{
    if balanced(s1) {
        assert forall|bus: int|
            #[trigger] bus_multiset(s2, bus, Direction::Send) == bus_multiset(
                s2,
                bus,
                Direction::Receive,
            ) by {
            lemma_bus_multiset_permutation(s1, s2, bus, Direction::Send);
            lemma_bus_multiset_permutation(s1, s2, bus, Direction::Receive);
        }
    }
    if balanced(s2) {
        assert forall|bus: int|
            #[trigger] bus_multiset(s1, bus, Direction::Send) == bus_multiset(
                s1,
                bus,
                Direction::Receive,
            ) by {
            lemma_bus_multiset_permutation(s1, s2, bus, Direction::Send);
            lemma_bus_multiset_permutation(s1, s2, bus, Direction::Receive);
        }
    }
}

/// Bus multisets distribute over concatenation of interaction lists.
pub proof fn lemma_bus_multiset_concat(a: Seq<Interaction>, c: Seq<Interaction>, b: int, dir: Direction)
    ensures
        bus_multiset(a + c, b, dir) == bus_multiset(a, b, dir).add(bus_multiset(c, b, dir)),
    decreases c.len(),
{
    if c.len() == 0 {
        assert(a + c =~= a);
        assert(bus_multiset(a + c, b, dir) =~= bus_multiset(a, b, dir).add(
            bus_multiset(c, b, dir),
        ));
    } else {
        assert((a + c).drop_last() =~= a + c.drop_last());
        assert((a + c).last() == c.last());
        lemma_bus_multiset_concat(a, c.drop_last(), b, dir);
        assert(bus_multiset(a + c, b, dir) =~= bus_multiset(a, b, dir).add(
            bus_multiset(c, b, dir),
        ));
    }
}

/// Element-wise equality of two tuples of field values.
pub fn tuple_eq(a: &Vec<u32>, b: &Vec<u32>) -> (r: bool)
    ensures
        r == (a@ == b@),
{
    if a.len() != b.len() {
        assert(a@ != b@);
        return false;
    }
    let mut i: usize = 0;
    while i < a.len()
        invariant
            0 <= i <= a.len(),
            a@.len() == b@.len(),
            forall|j: int| 0 <= j < i ==> a@[j] == b@[j],
        decreases a.len() - i,
    {
        if a[i] != b[i] {
            return false;
        }
        i += 1;
    }
    proof {
        assert(a@ =~= b@);
    }
    true
}

/// Sums the multiplicities of all interactions of `s` declaring tuple `t` on
/// bus `bus` in direction `dir`.
pub fn count_matching(s: &Vec<Interaction>, bus: usize, dir: Direction, t: &Vec<u32>) -> (r: u128)
    ensures
        r == matched_multiplicity(s@, bus as int, dir, t@),
{
    let mut total: u128 = 0;
    let mut i: usize = 0;
    while i < s.len()
        invariant
            0 <= i <= s@.len(),
            total == matched_multiplicity(s@.take(i as int), bus as int, dir, t@),
            total <= i * 0xffff_ffffu128,
        decreases s@.len() - i,
    {
        proof {
            assert(s@.take(i + 1).drop_last() =~= s@.take(i as int));
            assert(s@.take(i + 1).last() == s@[i as int]);
        }
        let ix = &s[i];
        if ix.bus_id == bus && ix.direction == dir && tuple_eq(&ix.fields, t) {
            total = total + ix.multiplicity as u128;
        }
        i += 1;
    }
    proof {
        assert(s@.take(s@.len() as int) =~= s@);
    }
    total
}

/// Decides whether a whole collection of interactions is balanced: on every
/// bus the sent tuples and the received tuples form the same multiset,
/// multiplicities included.
pub fn check_balance(s: &Vec<Interaction>) -> (r: bool)
    ensures
        r == balanced(s@),
{
    let mut i: usize = 0;
    while i < s.len()
        invariant
            0 <= i <= s@.len(),
            forall|j: int|
                0 <= j < i ==> #[trigger] matched_multiplicity(
                    s@,
                    s@[j].bus_id as int,
                    Direction::Send,
                    s@[j].fields@,
                ) == matched_multiplicity(s@, s@[j].bus_id as int, Direction::Receive, s@[j].fields@),
        decreases s@.len() - i,
    {
        let sends = count_matching(s, s[i].bus_id, Direction::Send, &s[i].fields);
        let receives = count_matching(s, s[i].bus_id, Direction::Receive, &s[i].fields);
        if sends != receives {
            proof {
                let b = s@[i as int].bus_id as int;
                let t = s@[i as int].fields@;
                lemma_count_is_matched_multiplicity(s@, b, Direction::Send, t);
                lemma_count_is_matched_multiplicity(s@, b, Direction::Receive, t);
                assert(bus_multiset(s@, b, Direction::Send).count(t) != bus_multiset(
                    s@,
                    b,
                    Direction::Receive,
                ).count(t));
            }
            return false;
        }
        i += 1;
    }
    proof {
        assert forall|bus: int|
            bus_multiset(s@, bus, Direction::Send) == bus_multiset(
                s@,
                bus,
                Direction::Receive,
            ) by {
            let ms = bus_multiset(s@, bus, Direction::Send);
            let mr = bus_multiset(s@, bus, Direction::Receive);
            assert forall|t: Seq<u32>| ms.count(t) == mr.count(t) by {
                lemma_count_is_matched_multiplicity(s@, bus, Direction::Send, t);
                lemma_count_is_matched_multiplicity(s@, bus, Direction::Receive, t);
                if matched_multiplicity(s@, bus, Direction::Send, t) > 0 {
                    lemma_matched_multiplicity_witness(s@, bus, Direction::Send, t);
                } else if matched_multiplicity(s@, bus, Direction::Receive, t) > 0 {
                    lemma_matched_multiplicity_witness(s@, bus, Direction::Receive, t);
                }
            }
            assert(ms =~= mr);
        }
    }
    true
}

} // verus!
