//! The memory audit chip: closes the offline memory-checking argument.
//!
//! For every touched address it sends one "initial" interaction (the default
//! value at timestamp 0) and receives one "final" interaction (the terminal
//! timestamped value) on the same memory bus every read and write record is
//! declared on.  The protocol-wide bus balance then forces: initial image
//! plus all write new-values equals all write old-values plus final image.

use vstd::prelude::*;
use std::collections::HashMap;

verus! {

use vstd::multiset::Multiset;

use crate::bus::{Interaction, Direction, bus_multiset, contribution, repeat_tuple, balanced,
    lemma_bus_multiset_concat};
use crate::memory::{
    MemoryController, MemoryReadRecord, MemoryWriteRecord, TimestampedValue, addr_key,
    addr_key_u64, mem_tuple, zero_seq, init_multiset, image_multiset, writes_new_multiset,
    writes_old_multiset,
};
use crate::range_checker::{RangeCheckerChip, in_range};
use crate::utils::{is_pow2, next_power_of_two_or_zero, push_all};

/// The two interactions of the i-th write record: a receive of the old
/// timestamped value and a send of the new one, each with multiplicity 1.
pub open spec fn write_pair_ok(s: Seq<Interaction>, w: MemoryWriteRecord, i: int, bus: usize) -> bool {
    &&& s[2 * i].bus_id == bus
    &&& s[2 * i].direction == Direction::Receive
    &&& s[2 * i].multiplicity == 1
    &&& s[2 * i].fields@ == mem_tuple(w.address_space, w.pointer, w.prev_data@, w.prev_timestamp)
    &&& s[2 * i + 1].bus_id == bus
    &&& s[2 * i + 1].direction == Direction::Send
    &&& s[2 * i + 1].multiplicity == 1
    &&& s[2 * i + 1].fields@ == mem_tuple(w.address_space, w.pointer, w.data@, w.timestamp)
}

/// The interactions of a write log: per record, one receive of the old
/// timestamped value and one send of the new one, on the memory bus.
pub open spec fn is_write_interactions(
    s: Seq<Interaction>,
    log: Seq<MemoryWriteRecord>,
    bus: usize,
) -> bool {
    &&& s.len() == 2 * log.len()
    &&& forall|i: int| 0 <= i < log.len() ==> #[trigger] write_pair_ok(s, log[i], i, bus)
}

/// The two interactions of the i-th read record: a receive and a send of the
/// same observed timestamped value.  A read only observes: its two
/// interactions cancel on the bus.
pub open spec fn read_pair_ok(s: Seq<Interaction>, r: MemoryReadRecord, i: int, bus: usize) -> bool {
    &&& s[2 * i].bus_id == bus
    &&& s[2 * i].direction == Direction::Receive
    &&& s[2 * i].multiplicity == 1
    &&& s[2 * i].fields@ == mem_tuple(r.address_space, r.pointer, r.data@, r.prev_timestamp)
    &&& s[2 * i + 1].bus_id == bus
    &&& s[2 * i + 1].direction == Direction::Send
    &&& s[2 * i + 1].multiplicity == 1
    &&& s[2 * i + 1].fields@ == mem_tuple(r.address_space, r.pointer, r.data@, r.prev_timestamp)
}

/// The interactions of a read log, on the memory bus.
pub open spec fn is_read_interactions(
    s: Seq<Interaction>,
    log: Seq<MemoryReadRecord>,
    bus: usize,
) -> bool {
    &&& s.len() == 2 * log.len()
    &&& forall|i: int| 0 <= i < log.len() ==> #[trigger] read_pair_ok(s, log[i], i, bus)
}

/// The two audit rows of the i-th touched address: an "initial" send (all
/// zeros at timestamp 0) and a "final" receive (the terminal timestamped
/// value).
pub open spec fn audit_pair_ok(
    s: Seq<Interaction>,
    sp: u32,
    ptr: u32,
    tv: TimestampedValue,
    i: int,
    bus: usize,
) -> bool {
    &&& s[2 * i].bus_id == bus
    &&& s[2 * i].direction == Direction::Send
    &&& s[2 * i].multiplicity == 1
    &&& s[2 * i].fields@ == mem_tuple(sp, ptr, zero_seq(tv.value@.len()), 0)
    &&& s[2 * i + 1].bus_id == bus
    &&& s[2 * i + 1].direction == Direction::Receive
    &&& s[2 * i + 1].multiplicity == 1
    &&& s[2 * i + 1].fields@ == mem_tuple(sp, ptr, tv.value@, tv.timestamp)
}

/// The audit rows of a frozen memory state, on the memory bus.
pub open spec fn is_audit_interactions(
    s: Seq<Interaction>,
    touched: Seq<(u32, u32)>,
    image: Map<u64, TimestampedValue>,
    bus: usize,
) -> bool {
    &&& s.len() == 2 * touched.len()
    &&& forall|i: int|
        0 <= i < touched.len() ==> #[trigger] audit_pair_ok(
            s,
            touched[i].0,
            touched[i].1,
            image[addr_key(touched[i].0, touched[i].1)],
            i,
            bus,
        )
}

/// A single-copy contribution is a singleton.
proof fn lemma_contribution_one(i: Interaction, bus: int, dir: Direction)
    requires
        i.multiplicity == 1,
    ensures
        contribution(i, bus, dir) == if i.bus_id == bus && i.direction == dir {
            Multiset::empty().insert(i.fields@)
        } else {
            Multiset::<Seq<u32>>::empty()
        },
{
    if i.bus_id == bus && i.direction == dir {
        assert(repeat_tuple(i.fields@, 1) == repeat_tuple(i.fields@, 0).insert(i.fields@));
    }
}

/// What a write log's interactions put on each bus: its new-value tuples as
/// sends and its old-value tuples as receives, and nothing anywhere else.
pub proof fn lemma_write_interactions_multisets(
    s: Seq<Interaction>,
    log: Seq<MemoryWriteRecord>,
    bus: usize,
    b: int,
)
    requires
        is_write_interactions(s, log, bus),
    ensures
        bus_multiset(s, b, Direction::Send) == if b == bus {
            writes_new_multiset(log)
        } else {
            Multiset::<Seq<u32>>::empty()
        },
        bus_multiset(s, b, Direction::Receive) == if b == bus {
            writes_old_multiset(log)
        } else {
            Multiset::<Seq<u32>>::empty()
        },
    decreases log.len(),
{
    if log.len() == 0 {
        assert(s =~= Seq::<Interaction>::empty());
    } else {
        let n = log.len() as int;
        let sp = s.take(2 * (n - 1));
        let logp = log.drop_last();
        let w = log[n - 1];
        assert(write_pair_ok(s, w, n - 1, bus));
        assert(is_write_interactions(sp, logp, bus)) by {
            assert forall|i: int| 0 <= i < logp.len() implies #[trigger] write_pair_ok(
                sp,
                logp[i],
                i,
                bus,
            ) by {
                assert(write_pair_ok(s, log[i], i, bus));
                assert(logp[i] == log[i]);
                assert(sp[2 * i] == s[2 * i]);
                assert(sp[2 * i + 1] == s[2 * i + 1]);
            }
        }
        lemma_write_interactions_multisets(sp, logp, bus, b);
        assert(s.drop_last().drop_last() =~= sp);
        assert(s.last() == s[2 * n - 1]);
        assert(s.drop_last().len() == 2 * n - 1);
        assert(s.drop_last().last() == s[2 * n - 2]);
        lemma_contribution_one(s[2 * n - 2], b, Direction::Send);
        lemma_contribution_one(s[2 * n - 2], b, Direction::Receive);
        lemma_contribution_one(s[2 * n - 1], b, Direction::Send);
        lemma_contribution_one(s[2 * n - 1], b, Direction::Receive);
        assert(bus_multiset(s, b, Direction::Send) == bus_multiset(
            s.drop_last(),
            b,
            Direction::Send,
        ).add(contribution(s[2 * n - 1], b, Direction::Send)));
        assert(bus_multiset(s.drop_last(), b, Direction::Send) == bus_multiset(
            sp,
            b,
            Direction::Send,
        ).add(contribution(s[2 * n - 2], b, Direction::Send)));
        assert(bus_multiset(s, b, Direction::Send) == bus_multiset(sp, b, Direction::Send).add(
            contribution(s[2 * n - 2], b, Direction::Send),
        ).add(contribution(s[2 * n - 1], b, Direction::Send)));
        assert(bus_multiset(s, b, Direction::Receive) == bus_multiset(
            s.drop_last(),
            b,
            Direction::Receive,
        ).add(contribution(s[2 * n - 1], b, Direction::Receive)));
        assert(bus_multiset(s.drop_last(), b, Direction::Receive) == bus_multiset(
            sp,
            b,
            Direction::Receive,
        ).add(contribution(s[2 * n - 2], b, Direction::Receive)));
        assert(bus_multiset(s, b, Direction::Receive) == bus_multiset(
            sp,
            b,
            Direction::Receive,
        ).add(contribution(s[2 * n - 2], b, Direction::Receive)).add(
            contribution(s[2 * n - 1], b, Direction::Receive),
        ));
        assert(bus_multiset(s, b, Direction::Send) =~= if b == bus {
            writes_new_multiset(log)
        } else {
            Multiset::<Seq<u32>>::empty()
        });
        assert(bus_multiset(s, b, Direction::Receive) =~= if b == bus {
            writes_old_multiset(log)
        } else {
            Multiset::<Seq<u32>>::empty()
        });
    }
}


/// A read log's interactions put the same multiset on each side of every
/// bus: reads observe without adding or removing.
pub proof fn lemma_read_interactions_multisets(
    s: Seq<Interaction>,
    log: Seq<MemoryReadRecord>,
    bus: usize,
    b: int,
)
    requires
        is_read_interactions(s, log, bus),
    ensures
        bus_multiset(s, b, Direction::Send) == bus_multiset(s, b, Direction::Receive),
    decreases log.len(),
{
    if log.len() == 0 {
        assert(s =~= Seq::<Interaction>::empty());
    } else {
        let n = log.len() as int;
        let sp = s.take(2 * (n - 1));
        let logp = log.drop_last();
        let r = log[n - 1];
        assert(read_pair_ok(s, r, n - 1, bus));
        assert(is_read_interactions(sp, logp, bus)) by {
            assert forall|i: int| 0 <= i < logp.len() implies #[trigger] read_pair_ok(
                sp,
                logp[i],
                i,
                bus,
            ) by {
                assert(read_pair_ok(s, log[i], i, bus));
                assert(logp[i] == log[i]);
                assert(sp[2 * i] == s[2 * i]);
                assert(sp[2 * i + 1] == s[2 * i + 1]);
            }
        }
        lemma_read_interactions_multisets(sp, logp, bus, b);
        assert(s.drop_last().drop_last() =~= sp);
        assert(s.last() == s[2 * n - 1]);
        assert(s.drop_last().len() == 2 * n - 1);
        assert(s.drop_last().last() == s[2 * n - 2]);
        lemma_contribution_one(s[2 * n - 2], b, Direction::Send);
        lemma_contribution_one(s[2 * n - 2], b, Direction::Receive);
        lemma_contribution_one(s[2 * n - 1], b, Direction::Send);
        lemma_contribution_one(s[2 * n - 1], b, Direction::Receive);
        assert(bus_multiset(s, b, Direction::Send) == bus_multiset(
            s.drop_last(),
            b,
            Direction::Send,
        ).add(contribution(s[2 * n - 1], b, Direction::Send)));
        assert(bus_multiset(s.drop_last(), b, Direction::Send) == bus_multiset(
            sp,
            b,
            Direction::Send,
        ).add(contribution(s[2 * n - 2], b, Direction::Send)));
        assert(bus_multiset(s, b, Direction::Receive) == bus_multiset(
            s.drop_last(),
            b,
            Direction::Receive,
        ).add(contribution(s[2 * n - 1], b, Direction::Receive)));
        assert(bus_multiset(s.drop_last(), b, Direction::Receive) == bus_multiset(
            sp,
            b,
            Direction::Receive,
        ).add(contribution(s[2 * n - 2], b, Direction::Receive)));
        // The two interactions of the last read carry the same tuple, one per
        // direction, so both sides grow by the same singleton.
        assert(bus_multiset(s, b, Direction::Send) =~= bus_multiset(s, b, Direction::Receive));
    }
}

/// What the audit rows put on each bus: the initial-image tuples as sends
/// and the final-image tuples as receives.
pub proof fn lemma_audit_interactions_multisets(
    s: Seq<Interaction>,
    touched: Seq<(u32, u32)>,
    image: Map<u64, TimestampedValue>,
    bus: usize,
    b: int,
)
    requires
        is_audit_interactions(s, touched, image, bus),
    ensures
        bus_multiset(s, b, Direction::Send) == if b == bus {
            init_multiset(touched, image)
        } else {
            Multiset::<Seq<u32>>::empty()
        },
        bus_multiset(s, b, Direction::Receive) == if b == bus {
            image_multiset(touched, image)
        } else {
            Multiset::<Seq<u32>>::empty()
        },
    decreases touched.len(),
{
    if touched.len() == 0 {
        assert(s =~= Seq::<Interaction>::empty());
    } else {
        let n = touched.len() as int;
        let sp = s.take(2 * (n - 1));
        let tp = touched.drop_last();
        assert(audit_pair_ok(
            s,
            touched[n - 1].0,
            touched[n - 1].1,
            image[addr_key(touched[n - 1].0, touched[n - 1].1)],
            n - 1,
            bus,
        ));
        assert(is_audit_interactions(sp, tp, image, bus)) by {
            assert forall|i: int| 0 <= i < tp.len() implies #[trigger] audit_pair_ok(
                sp,
                tp[i].0,
                tp[i].1,
                image[addr_key(tp[i].0, tp[i].1)],
                i,
                bus,
            ) by {
                assert(audit_pair_ok(
                    s,
                    touched[i].0,
                    touched[i].1,
                    image[addr_key(touched[i].0, touched[i].1)],
                    i,
                    bus,
                ));
                assert(tp[i] == touched[i]);
                assert(sp[2 * i] == s[2 * i]);
                assert(sp[2 * i + 1] == s[2 * i + 1]);
            }
        }
        lemma_audit_interactions_multisets(sp, tp, image, bus, b);
        assert(s.drop_last().drop_last() =~= sp);
        assert(s.last() == s[2 * n - 1]);
        assert(s.drop_last().len() == 2 * n - 1);
        assert(s.drop_last().last() == s[2 * n - 2]);
        lemma_contribution_one(s[2 * n - 2], b, Direction::Send);
        lemma_contribution_one(s[2 * n - 2], b, Direction::Receive);
        lemma_contribution_one(s[2 * n - 1], b, Direction::Send);
        lemma_contribution_one(s[2 * n - 1], b, Direction::Receive);
        assert(bus_multiset(s, b, Direction::Send) == bus_multiset(
            s.drop_last(),
            b,
            Direction::Send,
        ).add(contribution(s[2 * n - 1], b, Direction::Send)));
        assert(bus_multiset(s.drop_last(), b, Direction::Send) == bus_multiset(
            sp,
            b,
            Direction::Send,
        ).add(contribution(s[2 * n - 2], b, Direction::Send)));
        assert(bus_multiset(s, b, Direction::Receive) == bus_multiset(
            s.drop_last(),
            b,
            Direction::Receive,
        ).add(contribution(s[2 * n - 1], b, Direction::Receive)));
        assert(bus_multiset(s.drop_last(), b, Direction::Receive) == bus_multiset(
            sp,
            b,
            Direction::Receive,
        ).add(contribution(s[2 * n - 2], b, Direction::Receive)));
        assert(bus_multiset(s, b, Direction::Send) =~= if b == bus {
            init_multiset(touched, image)
        } else {
            Multiset::<Seq<u32>>::empty()
        });
        assert(bus_multiset(s, b, Direction::Receive) =~= if b == bus {
            image_multiset(touched, image)
        } else {
            Multiset::<Seq<u32>>::empty()
        });
    }
}

/// The closing theorem of the offline memory-checking argument: for a
/// well-formed controller state, the full collection of interactions — every
/// write record's pair, every read record's pair, and the audit chip's
/// initial/final rows — is balanced on every bus.  A verifier that checks
/// the bus balance accepts an honest execution.
pub proof fn lemma_offline_checking_balanced(
    s: MemoryController,
    wi: Seq<Interaction>,
    ri: Seq<Interaction>,
    ai: Seq<Interaction>,
    bus: usize,
)
    requires
        s.wf(),
        is_write_interactions(wi, s.write_log@, bus),
        is_read_interactions(ri, s.read_log@, bus),
        is_audit_interactions(ai, s.touched@, s.image@, bus),
    ensures
        balanced(wi + ri + ai),
{
    let all = wi + ri + ai;
    assert forall|b: int|
        bus_multiset(all, b, Direction::Send) == #[trigger] bus_multiset(
            all,
            b,
            Direction::Receive,
        ) by {
        lemma_bus_multiset_concat(wi + ri, ai, b, Direction::Send);
        lemma_bus_multiset_concat(wi + ri, ai, b, Direction::Receive);
        lemma_bus_multiset_concat(wi, ri, b, Direction::Send);
        lemma_bus_multiset_concat(wi, ri, b, Direction::Receive);
        lemma_write_interactions_multisets(wi, s.write_log@, bus, b);
        lemma_read_interactions_multisets(ri, s.read_log@, bus, b);
        lemma_audit_interactions_multisets(ai, s.touched@, s.image@, bus, b);
        if b == bus {
            let init0 = init_multiset(s.touched@, s.image@);
            let img0 = image_multiset(s.touched@, s.image@);
            let nw = writes_new_multiset(s.write_log@);
            let ow = writes_old_multiset(s.write_log@);
            let rt = bus_multiset(ri, b, Direction::Send);
            assert(init0.add(nw) == ow.add(img0));
            assert forall|x: Seq<u32>|
                nw.add(rt).add(init0).count(x) == ow.add(rt).add(img0).count(x) by {
                assert(init0.add(nw).count(x) == ow.add(img0).count(x));
            }
            assert(nw.add(rt).add(init0) =~= ow.add(rt).add(img0));
            assert(bus_multiset(all, b, Direction::Send) =~= nw.add(rt).add(init0));
            assert(bus_multiset(all, b, Direction::Receive) =~= ow.add(rt).add(img0));
        } else {
            // Only the reads touch other buses in this collection, and their
            // two sides are identical.
            assert(bus_multiset(all, b, Direction::Send) =~= bus_multiset(
                ri,
                b,
                Direction::Send,
            ));
            assert(bus_multiset(all, b, Direction::Receive) =~= bus_multiset(
                ri,
                b,
                Direction::Receive,
            ));
        }
    }
}


/// Builds one memory-bus tuple: address pair, value cells, timestamp.
pub fn mem_tuple_vec(address_space: u32, pointer: u32, data: &Vec<u32>, ts: u32) -> (r: Vec<u32>)
    ensures
        r@ == mem_tuple(address_space, pointer, data@, ts),
{
    let mut r: Vec<u32> = Vec::new();
    r.push(address_space);
    r.push(pointer);
    let mut i: usize = 0;
    while i < data.len()
        invariant
            0 <= i <= data@.len(),
            r@ =~= seq![address_space, pointer] + data@.take(i as int),
        decreases data@.len() - i,
    {
        r.push(data[i]);
        proof {
            assert(r@ =~= seq![address_space, pointer] + data@.take(i + 1));
        }
        i += 1;
    }
    r.push(ts);
    proof {
        assert(data@.take(data@.len() as int) =~= data@);
        assert(r@ =~= mem_tuple(address_space, pointer, data@, ts));
    }
    r
}

/// Converts a write log into its memory-bus interactions: per record a
/// receive of the old timestamped value and a send of the new one.
pub fn generate_write_interactions(log: &Vec<MemoryWriteRecord>, bus: usize) -> (r: Vec<
    Interaction,
>)
    ensures
        is_write_interactions(r@, log@, bus),
{
    let mut r: Vec<Interaction> = Vec::new();
    let mut i: usize = 0;
    while i < log.len()
        invariant
            0 <= i <= log@.len(),
            r@.len() == 2 * i,
            forall|j: int| 0 <= j < i ==> #[trigger] write_pair_ok(r@, log@[j], j, bus),
        decreases log@.len() - i,
    {
        let ghost r0 = r@;
        let w = &log[i];
        r.push(
            Interaction {
                bus_id: bus,
                fields: mem_tuple_vec(w.address_space, w.pointer, &w.prev_data, w.prev_timestamp),
                multiplicity: 1,
                direction: Direction::Receive,
            },
        );
        r.push(
            Interaction {
                bus_id: bus,
                fields: mem_tuple_vec(w.address_space, w.pointer, &w.data, w.timestamp),
                multiplicity: 1,
                direction: Direction::Send,
            },
        );
        proof {
            assert(write_pair_ok(r@, log@[i as int], i as int, bus));
            assert forall|j: int| 0 <= j < i + 1 implies #[trigger] write_pair_ok(
                r@,
                log@[j],
                j,
                bus,
            ) by {
                if j < i {
                    assert(write_pair_ok(r0, log@[j], j, bus));
                    assert(r@[2 * j] == r0[2 * j]);
                    assert(r@[2 * j + 1] == r0[2 * j + 1]);
                }
            }
        }
        i += 1;
    }
    r
}

/// Converts a read log into its memory-bus interactions: per record a
/// receive and a send of the same observed timestamped value.
pub fn generate_read_interactions(log: &Vec<MemoryReadRecord>, bus: usize) -> (r: Vec<Interaction>)
    ensures
        is_read_interactions(r@, log@, bus),
{
    let mut r: Vec<Interaction> = Vec::new();
    let mut i: usize = 0;
    while i < log.len()
        invariant
            0 <= i <= log@.len(),
            r@.len() == 2 * i,
            forall|j: int| 0 <= j < i ==> #[trigger] read_pair_ok(r@, log@[j], j, bus),
        decreases log@.len() - i,
    {
        let ghost r0 = r@;
        let rd = &log[i];
        r.push(
            Interaction {
                bus_id: bus,
                fields: mem_tuple_vec(rd.address_space, rd.pointer, &rd.data, rd.prev_timestamp),
                multiplicity: 1,
                direction: Direction::Receive,
            },
        );
        r.push(
            Interaction {
                bus_id: bus,
                fields: mem_tuple_vec(rd.address_space, rd.pointer, &rd.data, rd.prev_timestamp),
                multiplicity: 1,
                direction: Direction::Send,
            },
        );
        proof {
            assert(read_pair_ok(r@, log@[i as int], i as int, bus));
            assert forall|j: int| 0 <= j < i + 1 implies #[trigger] read_pair_ok(
                r@,
                log@[j],
                j,
                bus,
            ) by {
                if j < i {
                    assert(read_pair_ok(r0, log@[j], j, bus));
                    assert(r@[2 * j] == r0[2 * j]);
                    assert(r@[2 * j + 1] == r0[2 * j + 1]);
                }
            }
        }
        i += 1;
    }
    r
}

/// The audit chip: configured once, it turns a frozen memory state into the
/// audit rows that close the argument over the shared memory bus.
pub struct MemoryAuditChip {
    pub memory_bus: usize,
    pub addr_space_max_bits: usize,
    pub pointer_max_bits: usize,
    pub decomp: usize,
}

impl MemoryAuditChip {
    /// A chip for the given memory bus; the bit widths configure the limb
    /// decomposition its trace range-checks addresses with.
    pub fn new(
        memory_bus: usize,
        addr_space_max_bits: usize,
        pointer_max_bits: usize,
        decomp: usize,
    ) -> (r: Self)
        ensures
            r.memory_bus == memory_bus,
            r.addr_space_max_bits == addr_space_max_bits,
            r.pointer_max_bits == pointer_max_bits,
            r.decomp == decomp,
    {
        MemoryAuditChip { memory_bus, addr_space_max_bits, pointer_max_bits, decomp }
    }

    /// The audit rows of a frozen controller state: per touched address one
    /// "initial" send — the all-zero default at timestamp 0 — and one
    /// "final" receive of the terminal timestamped value.
    pub fn generate_interactions(&self, s: &MemoryController) -> (r: Vec<Interaction>)
        requires
            s.wf(),
        ensures
            is_audit_interactions(r@, s.touched@, s.image@, self.memory_bus),
    {
        broadcast use vstd::std_specs::hash::group_hash_axioms;

        let bus = self.memory_bus;
        let mut r: Vec<Interaction> = Vec::new();
        let mut i: usize = 0;
        while i < s.touched.len()
            invariant
                s.wf(),
                0 <= i <= s.touched@.len(),
                r@.len() == 2 * i,
                forall|j: int|
                    0 <= j < i ==> #[trigger] audit_pair_ok(
                        r@,
                        s.touched@[j].0,
                        s.touched@[j].1,
                        s.image@[addr_key(s.touched@[j].0, s.touched@[j].1)],
                        j,
                        bus,
                    ),
            decreases s.touched@.len() - i,
        {
            let ghost r0 = r@;
            let (address_space, pointer) = s.touched[i];
            let k = addr_key_u64(address_space, pointer);
            proof {
                assert(s.touched_key(i as int) == k);
                assert(s.image@.contains_key(k));
            }
            let e = s.image.get(&k).unwrap();
            let zeros = crate::memory::zero_vec(e.value.len());
            r.push(
                Interaction {
                    bus_id: bus,
                    fields: mem_tuple_vec(address_space, pointer, &zeros, 0),
                    multiplicity: 1,
                    direction: Direction::Send,
                },
            );
            r.push(
                Interaction {
                    bus_id: bus,
                    fields: mem_tuple_vec(address_space, pointer, &e.value, e.timestamp),
                    multiplicity: 1,
                    direction: Direction::Receive,
                },
            );
            proof {
                assert(audit_pair_ok(
                    r@,
                    s.touched@[i as int].0,
                    s.touched@[i as int].1,
                    s.image@[addr_key(s.touched@[i as int].0, s.touched@[i as int].1)],
                    i as int,
                    bus,
                ));
                assert forall|j: int| 0 <= j < i + 1 implies #[trigger] audit_pair_ok(
                    r@,
                    s.touched@[j].0,
                    s.touched@[j].1,
                    s.image@[addr_key(s.touched@[j].0, s.touched@[j].1)],
                    j,
                    bus,
                ) by {
                    if j < i {
                        assert(audit_pair_ok(
                            r0,
                            s.touched@[j].0,
                            s.touched@[j].1,
                            s.image@[addr_key(s.touched@[j].0, s.touched@[j].1)],
                            j,
                            bus,
                        ));
                        assert(r@[2 * j] == r0[2 * j]);
                        assert(r@[2 * j + 1] == r0[2 * j + 1]);
                    }
                }
            }
            i += 1;
        }
        r
    }
}

/// The full interaction collection of one execution: every write pair, every
/// read pair and the audit chip's rows, in that order.  For a well-formed
/// controller it is balanced — the offline memory-checking argument accepts
/// every honest execution.
pub fn generate_memory_interactions(s: &MemoryController, audit: &MemoryAuditChip) -> (r: Vec<
    Interaction,
>)
    requires
        s.wf(),
    ensures
        balanced(r@),
        r@.len() == 2 * s.write_log@.len() + 2 * s.read_log@.len() + 2 * s.touched@.len(),
        is_write_interactions(r@.take(2 * s.write_log@.len() as int), s.write_log@, audit.memory_bus),
        is_read_interactions(
            r@.subrange(
                2 * s.write_log@.len() as int,
                2 * s.write_log@.len() + 2 * s.read_log@.len() as int,
            ),
            s.read_log@,
            audit.memory_bus,
        ),
        is_audit_interactions(
            r@.subrange(
                2 * s.write_log@.len() + 2 * s.read_log@.len() as int,
                r@.len() as int,
            ),
            s.touched@,
            s.image@,
            audit.memory_bus,
        ),
{
    let mut r = generate_write_interactions(&s.write_log, audit.memory_bus);
    let ghost wi = r@;
    let mut ri = generate_read_interactions(&s.read_log, audit.memory_bus);
    let ghost riv = ri@;
    let mut ai = audit.generate_interactions(s);
    let ghost aiv = ai@;
    r.append(&mut ri);
    r.append(&mut ai);
    proof {
        assert(r@ == wi + riv + aiv);
        lemma_offline_checking_balanced(*s, wi, riv, aiv, audit.memory_bus);
        assert(r@.take(2 * s.write_log@.len() as int) =~= wi);
        assert(r@.subrange(
            2 * s.write_log@.len() as int,
            2 * s.write_log@.len() + 2 * s.read_log@.len() as int,
        ) =~= riv);
        assert(r@.subrange(
            2 * s.write_log@.len() + 2 * s.read_log@.len() as int,
            r@.len() as int,
        ) =~= aiv);
    }
    r
}


/// The new-value tuple of a write record.
pub open spec fn write_new_tuple(w: MemoryWriteRecord) -> Seq<u32> {
    mem_tuple(w.address_space, w.pointer, w.data@, w.timestamp)
}

/// The old-value tuple of a write record.
pub open spec fn write_old_tuple(w: MemoryWriteRecord) -> Seq<u32> {
    mem_tuple(w.address_space, w.pointer, w.prev_data@, w.prev_timestamp)
}

/// Adding the same multiset to both sides, on either side, is cancellable.
pub proof fn lemma_multiset_add_cancel<V>(a: Multiset<V>, b: Multiset<V>, c: Multiset<V>)
    requires
        a.add(c) == b.add(c) || c.add(a) == c.add(b),
    ensures
        a == b,
{
    assert forall|x: V| a.count(x) == b.count(x) by {
        if a.add(c) == b.add(c) {
            assert(a.add(c).count(x) == b.add(c).count(x));
        } else {
            assert(c.add(a).count(x) == c.add(b).count(x));
        }
    }
    assert(a =~= b);
}

/// Inserting the same element into both sides is cancellable.
pub proof fn lemma_multiset_insert_cancel<V>(a: Multiset<V>, b: Multiset<V>, x: V)
    requires
        a.insert(x) == b.insert(x),
    ensures
        a == b,
{
    broadcast use vstd::multiset::group_multiset_axioms;

    assert forall|y: V| a.count(y) == b.count(y) by {
        assert(a.insert(x).count(y) == b.insert(x).count(y));
        assert(a.insert(x).count(y) == a.count(y) + Multiset::singleton(x).count(y));
        assert(b.insert(x).count(y) == b.count(y) + Multiset::singleton(x).count(y));
    }
    assert(a =~= b);
}

/// Inserting two elements into the same multiset gives equal results only
/// for equal elements.
pub proof fn lemma_multiset_insert_injective<V>(m: Multiset<V>, x: V, y: V)
    requires
        m.insert(x) == m.insert(y),
    ensures
        x == y,
{
    broadcast use vstd::multiset::group_multiset_axioms;

    if x != y {
        assert(Multiset::singleton(x).count(x) == 1);
        assert(Multiset::singleton(y).count(x) == 0);
        assert(m.insert(x).count(x) == m.count(x) + 1);
        assert(m.insert(y).count(x) == m.count(x));
        assert(m.insert(x).count(x) == m.insert(y).count(x));
        assert(false);
    }
}

/// Replacing the i-th record swaps exactly its two tuples in the write-log
/// multisets.
pub proof fn lemma_writes_multisets_update(log: Seq<MemoryWriteRecord>, i: int, r: MemoryWriteRecord)
    requires
        0 <= i < log.len(),
    ensures
        writes_new_multiset(log.update(i, r)).insert(write_new_tuple(log[i]))
            == writes_new_multiset(log).insert(write_new_tuple(r)),
        writes_old_multiset(log.update(i, r)).insert(write_old_tuple(log[i]))
            == writes_old_multiset(log).insert(write_old_tuple(r)),
    decreases log.len(),
{
    let lu = log.update(i, r);
    if i == log.len() - 1 {
        assert(lu.drop_last() =~= log.drop_last());
        assert(lu.last() == r);
        assert(writes_new_multiset(lu).insert(write_new_tuple(log[i])) =~= writes_new_multiset(
            log,
        ).insert(write_new_tuple(r)));
        assert(writes_old_multiset(lu).insert(write_old_tuple(log[i])) =~= writes_old_multiset(
            log,
        ).insert(write_old_tuple(r)));
    } else {
        assert(lu.drop_last() =~= log.drop_last().update(i, r));
        assert(lu.last() == log.last());
        lemma_writes_multisets_update(log.drop_last(), i, r);
        assert(log.drop_last()[i] == log[i]);
        let a = writes_new_multiset(log.drop_last().update(i, r));
        let b = writes_new_multiset(log.drop_last());
        let lt = write_new_tuple(log.last());
        assert forall|x: Seq<u32>|
            a.insert(lt).insert(write_new_tuple(log[i])).count(x) == b.insert(lt).insert(
                write_new_tuple(r),
            ).count(x) by {
            assert(a.insert(write_new_tuple(log[i])).count(x) == b.insert(
                write_new_tuple(r),
            ).count(x));
        }
        assert(writes_new_multiset(lu).insert(write_new_tuple(log[i])) =~= writes_new_multiset(
            log,
        ).insert(write_new_tuple(r)));
        let ao = writes_old_multiset(log.drop_last().update(i, r));
        let bo = writes_old_multiset(log.drop_last());
        let lo = write_old_tuple(log.last());
        assert forall|x: Seq<u32>|
            ao.insert(lo).insert(write_old_tuple(log[i])).count(x) == bo.insert(lo).insert(
                write_old_tuple(r),
            ).count(x) by {
            assert(ao.insert(write_old_tuple(log[i])).count(x) == bo.insert(
                write_old_tuple(r),
            ).count(x));
        }
        assert(writes_old_multiset(lu).insert(write_old_tuple(log[i])) =~= writes_old_multiset(
            log,
        ).insert(write_old_tuple(r)));
    }
}

/// Flipping the recorded new value or new timestamp of exactly one write
/// breaks the multiset balance the audit argument checks: verification of
/// the tampered trace fails.
pub proof fn lemma_write_new_tamper_detected(s: MemoryController, i: int, r: MemoryWriteRecord)
    requires
        s.wf(),
        0 <= i < s.write_log@.len(),
        r.address_space == s.write_log@[i].address_space,
        r.pointer == s.write_log@[i].pointer,
        r.prev_data@ == s.write_log@[i].prev_data@,
        r.prev_timestamp == s.write_log@[i].prev_timestamp,
        !(r.data@ == s.write_log@[i].data@ && r.timestamp == s.write_log@[i].timestamp),
    ensures
        init_multiset(s.touched@, s.image@).add(writes_new_multiset(s.write_log@.update(i, r)))
            != writes_old_multiset(s.write_log@.update(i, r)).add(
            image_multiset(s.touched@, s.image@),
        ),
{
    let log = s.write_log@;
    let w = log[i];
    let nt = write_new_tuple(w);
    let nt2 = write_new_tuple(r);
    lemma_writes_multisets_update(log, i, r);
    assert(write_old_tuple(r) == write_old_tuple(w));
    lemma_multiset_insert_cancel(
        writes_old_multiset(log.update(i, r)),
        writes_old_multiset(log),
        write_old_tuple(w),
    );
    assert(nt != nt2) by {
        if r.data@.len() == w.data@.len() {
            if nt == nt2 {
                crate::memory::lemma_mem_tuple_injective(
                    r.address_space,
                    r.pointer,
                    r.data@,
                    r.timestamp,
                    w.address_space,
                    w.pointer,
                    w.data@,
                    w.timestamp,
                );
            }
        } else {
            assert(nt.len() != nt2.len());
        }
    }
    if init_multiset(s.touched@, s.image@).add(writes_new_multiset(log.update(i, r)))
        == writes_old_multiset(log.update(i, r)).add(image_multiset(s.touched@, s.image@)) {
        // Both sides of the honest balance and the tampered balance share the
        // old-value and image multisets, so the new-value multisets agree.
        assert(init_multiset(s.touched@, s.image@).add(writes_new_multiset(log.update(i, r)))
            == init_multiset(s.touched@, s.image@).add(writes_new_multiset(log)));
        lemma_multiset_add_cancel(
            writes_new_multiset(log.update(i, r)),
            writes_new_multiset(log),
            init_multiset(s.touched@, s.image@),
        );
        lemma_multiset_insert_injective(writes_new_multiset(log), nt, nt2);
        assert(false);
    }
}

/// Flipping the recorded old value or old timestamp of exactly one write
/// breaks the multiset balance: verification of the tampered trace fails.
pub proof fn lemma_write_old_tamper_detected(s: MemoryController, i: int, r: MemoryWriteRecord)
    requires
        s.wf(),
        0 <= i < s.write_log@.len(),
        r.address_space == s.write_log@[i].address_space,
        r.pointer == s.write_log@[i].pointer,
        r.data@ == s.write_log@[i].data@,
        r.timestamp == s.write_log@[i].timestamp,
        !(r.prev_data@ == s.write_log@[i].prev_data@ && r.prev_timestamp == s.write_log@[i].prev_timestamp),
    ensures
        init_multiset(s.touched@, s.image@).add(writes_new_multiset(s.write_log@.update(i, r)))
            != writes_old_multiset(s.write_log@.update(i, r)).add(
            image_multiset(s.touched@, s.image@),
        ),
{
    let log = s.write_log@;
    let w = log[i];
    let ot = write_old_tuple(w);
    let ot2 = write_old_tuple(r);
    lemma_writes_multisets_update(log, i, r);
    assert(write_new_tuple(r) == write_new_tuple(w));
    lemma_multiset_insert_cancel(
        writes_new_multiset(log.update(i, r)),
        writes_new_multiset(log),
        write_new_tuple(w),
    );
    assert(ot != ot2) by {
        if r.prev_data@.len() == w.prev_data@.len() {
            if ot == ot2 {
                crate::memory::lemma_mem_tuple_injective(
                    r.address_space,
                    r.pointer,
                    r.prev_data@,
                    r.prev_timestamp,
                    w.address_space,
                    w.pointer,
                    w.prev_data@,
                    w.prev_timestamp,
                );
            }
        } else {
            assert(ot.len() != ot2.len());
        }
    }
    if init_multiset(s.touched@, s.image@).add(writes_new_multiset(log.update(i, r)))
        == writes_old_multiset(log.update(i, r)).add(image_multiset(s.touched@, s.image@)) {
        assert(writes_old_multiset(log.update(i, r)).add(image_multiset(s.touched@, s.image@))
            == writes_old_multiset(log).add(image_multiset(s.touched@, s.image@)));
        lemma_multiset_add_cancel(
            writes_old_multiset(log.update(i, r)),
            writes_old_multiset(log),
            image_multiset(s.touched@, s.image@),
        );
        lemma_multiset_insert_injective(writes_old_multiset(log), ot, ot2);
        assert(false);
    }
}

/// Tampering with one entry of the final audit image — its value or its
/// timestamp — breaks the multiset balance: verification fails.
pub proof fn lemma_final_image_tamper_detected(s: MemoryController, idx: int, v: TimestampedValue)
    requires
        s.wf(),
        0 <= idx < s.touched@.len(),
        v.value@.len() == s.entry_at(idx).value@.len(),
        !(v.value@ == s.entry_at(idx).value@ && v.timestamp == s.entry_at(idx).timestamp),
    ensures
        ({
            let k = addr_key(s.touched@[idx].0, s.touched@[idx].1);
            init_multiset(s.touched@, s.image@.insert(k, v)).add(
                writes_new_multiset(s.write_log@),
            ) != writes_old_multiset(s.write_log@).add(
                image_multiset(s.touched@, s.image@.insert(k, v)),
            )
        }),
{
    let sp = s.touched@[idx].0;
    let ptr = s.touched@[idx].1;
    let k = addr_key(sp, ptr);
    let e = s.image@[k];
    assert(s.touched_key(idx) == k);
    assert(s.entry_at(idx) == e);
    crate::memory::lemma_init_multiset_same_width(s.touched@, s.image@, k, v);
    assert forall|i: int| 0 <= i < s.touched@.len() && i != idx implies addr_key(
        (#[trigger] s.touched@[i]).0,
        s.touched@[i].1,
    ) != k by {
        assert(s.touched_key(i) != s.touched_key(idx));
    }
    crate::memory::lemma_image_multiset_swap(s.touched@, s.image@, k, v, idx);
    let t_old = mem_tuple(sp, ptr, e.value@, e.timestamp);
    let t_new = mem_tuple(sp, ptr, v.value@, v.timestamp);
    assert(t_old != t_new) by {
        if t_old == t_new {
            crate::memory::lemma_mem_tuple_injective(
                sp,
                ptr,
                e.value@,
                e.timestamp,
                sp,
                ptr,
                v.value@,
                v.timestamp,
            );
        }
    }
    let img2 = image_multiset(s.touched@, s.image@.insert(k, v));
    let img = image_multiset(s.touched@, s.image@);
    if init_multiset(s.touched@, s.image@.insert(k, v)).add(writes_new_multiset(s.write_log@))
        == writes_old_multiset(s.write_log@).add(img2) {
        assert(writes_old_multiset(s.write_log@).add(img2) == writes_old_multiset(
            s.write_log@,
        ).add(img));
        lemma_multiset_add_cancel(img2, img, writes_old_multiset(s.write_log@));
        assert(img2 == img);
        assert(img2.insert(t_old) == img.insert(t_new));
        lemma_multiset_insert_injective(img, t_old, t_new);
        assert(false);
    }
}


/// Flipping the recorded address of exactly one write — its address space or
/// its pointer — breaks the multiset balance: verification of the tampered
/// trace fails.
pub proof fn lemma_write_address_tamper_detected(s: MemoryController, i: int, r: MemoryWriteRecord)
    requires
        s.wf(),
        0 <= i < s.write_log@.len(),
        r.prev_data@ == s.write_log@[i].prev_data@,
        r.prev_timestamp == s.write_log@[i].prev_timestamp,
        r.data@ == s.write_log@[i].data@,
        r.timestamp == s.write_log@[i].timestamp,
        !(r.address_space == s.write_log@[i].address_space && r.pointer
            == s.write_log@[i].pointer),
    ensures
        init_multiset(s.touched@, s.image@).add(writes_new_multiset(s.write_log@.update(i, r)))
            != writes_old_multiset(s.write_log@.update(i, r)).add(
            image_multiset(s.touched@, s.image@),
        ),
{
    let log = s.write_log@;
    let w = log[i];
    let nt = write_new_tuple(w);
    let nt2 = write_new_tuple(r);
    let ot = write_old_tuple(w);
    let ot2 = write_old_tuple(r);
    lemma_writes_multisets_update(log, i, r);
    // The tampered tuples differ from the honest ones in their address
    // cells, and a record's new tuple differs from its old one in the
    // timestamp cell.
    assert(nt2 != nt) by {
        if r.address_space != w.address_space {
            assert(nt2[0] != nt[0]);
        } else {
            assert(nt2[1] != nt[1]);
        }
    }
    assert(ot2 != ot) by {
        if r.address_space != w.address_space {
            assert(ot2[0] != ot[0]);
        } else {
            assert(ot2[1] != ot[1]);
        }
    }
    assert(nt2 != ot2) by {
        assert(w.prev_timestamp < w.timestamp);
        assert(w.data@.len() == w.prev_data@.len());
        if nt2 == ot2 {
            crate::memory::lemma_mem_tuple_injective(
                r.address_space,
                r.pointer,
                r.data@,
                r.timestamp,
                r.address_space,
                r.pointer,
                r.prev_data@,
                r.prev_timestamp,
            );
        }
    }
    let init0 = init_multiset(s.touched@, s.image@);
    let img0 = image_multiset(s.touched@, s.image@);
    let nw = writes_new_multiset(log);
    let ow = writes_old_multiset(log);
    let nw2 = writes_new_multiset(log.update(i, r));
    let ow2 = writes_old_multiset(log.update(i, r));
    if init0.add(nw2) == ow2.add(img0) {
        broadcast use vstd::multiset::group_multiset_axioms;

        // Counting copies of the tampered new tuple on both sides of the
        // honest and the tampered balance pins the tuples together.
        assert(init0.add(nw).count(nt2) == ow.add(img0).count(nt2));
        assert(init0.add(nw2).count(nt2) == ow2.add(img0).count(nt2));
        assert(nw2.insert(nt).count(nt2) == nw.insert(nt2).count(nt2));
        assert(ow2.insert(ot).count(nt2) == ow.insert(ot2).count(nt2));
        assert(Multiset::singleton(nt2).count(nt2) == 1);
        assert(Multiset::singleton(nt).count(nt2) == 0);
        assert(Multiset::singleton(ot2).count(nt2) == 0) by {
            assert(nt2 != ot2);
        }
        assert(nw2.count(nt2) == nw.count(nt2) + 1);
        assert(ow2.count(nt2) == ow.count(nt2) + if nt2 == ot { 1int } else { 0 });
        assert(nt2 == ot) by {
            if nt2 != ot {
                assert(Multiset::singleton(ot).count(nt2) == 0);
                assert(false);
            }
        }
        // So the tampered new tuple equals the honest old tuple; count the
        // honest new tuple instead, where no such coincidence is possible.
        assert(init0.add(nw).count(nt) == ow.add(img0).count(nt));
        assert(init0.add(nw2).count(nt) == ow2.add(img0).count(nt));
        assert(nw2.insert(nt).count(nt) == nw.insert(nt2).count(nt));
        assert(ow2.insert(ot).count(nt) == ow.insert(ot2).count(nt));
        assert(nw2.count(nt) + 1 == nw.count(nt) + if nt == nt2 { 1int } else { 0 });
        assert(nw2.count(nt) == nw.count(nt) - 1);
        // nt == ot would make the write's old and new tuples collide, which
        // the timestamp order rules out.
        assert(nt != ot) by {
            assert(w.prev_timestamp < w.timestamp);
            assert(w.data@.len() == w.prev_data@.len());
            if nt == ot {
                crate::memory::lemma_mem_tuple_injective(
                    w.address_space,
                    w.pointer,
                    w.data@,
                    w.timestamp,
                    w.address_space,
                    w.pointer,
                    w.prev_data@,
                    w.prev_timestamp,
                );
            }
        }
        assert(ot2 != nt) by {
            // ot2 == nt2 was ruled out; ot2 equals ot in value cells only if
            // the addresses matched, which they do not.
            if ot2 == nt {
                assert(ot2[0] == nt[0] && ot2[1] == nt[1]);
                assert(r.address_space == w.address_space && r.pointer == w.pointer);
            }
        }
        assert(ow2.count(nt) == ow.count(nt) + if nt == ot2 { 1int } else { 0 } - if nt == ot {
            1int
        } else {
            0
        });
        assert(ow2.count(nt) == ow.count(nt));
        assert(false);
    }
}


/// One pointer's limb block in the range checker's request log: `lcount`
/// requests of `bits`-bit limbs whose values recompose to the pointer
/// modulo the decomposition's range.
pub open spec fn limb_block_ok(
    reqs: Seq<(u32, u32)>,
    base: int,
    lcount: int,
    bits: u32,
    pointer: u32,
) -> bool {
    &&& forall|t: int| 0 <= t < lcount ==> (#[trigger] reqs[base + t]).1 == bits
    &&& crate::range_checker::recompose(request_values(reqs, base, lcount), bits as nat) == (
    pointer as int) % vstd::arithmetic::power::pow(
        vstd::arithmetic::power2::pow2(bits as nat) as int,
        lcount as nat,
    )
}

/// The values of a block of the range checker's request log.
pub open spec fn request_values(reqs: Seq<(u32, u32)>, start: int, len: int) -> Seq<u32> {
    Seq::new(len as nat, |t: int| reqs[start + t].0)
}

/// A row-major matrix of field elements: one chip trace.
pub struct TraceMatrix {
    pub values: Vec<u32>,
    pub width: usize,
}

/// One live audit row in a flat trace: the valid flag, the address pair, the
/// final value cells and the final timestamp.
pub open spec fn audit_row_ok(
    vals: Seq<u32>,
    w: int,
    i: int,
    sp: u32,
    ptr: u32,
    value: Seq<u32>,
    ts: u32,
) -> bool {
    &&& vals[i * w] == 1
    &&& vals[i * w + 1] == sp
    &&& vals[i * w + 2] == ptr
    &&& forall|j: int| 0 <= j < value.len() ==> vals[i * w + 3 + j] == #[trigger] value[j]
    &&& vals[i * w + 3 + value.len()] == ts
}

/// One padding row: all cells zero, in particular multiplicity 0, so the row
/// is constraint-inert.
pub open spec fn zero_row_ok(vals: Seq<u32>, w: int, i: int) -> bool {
    forall|j: int| 0 <= j < w ==> #[trigger] vals[i * w + j] == 0
}

/// A live row is untouched by appending further cells.
proof fn lemma_audit_row_frame(
    v1: Seq<u32>,
    v2: Seq<u32>,
    w: int,
    i: int,
    sp: u32,
    ptr: u32,
    value: Seq<u32>,
    ts: u32,
)
    requires
        0 <= i,
        1 <= w,
        3 + value.len() < w,
        (i + 1) * w <= v1.len(),
        v2.len() >= v1.len(),
        forall|t: int| 0 <= t < v1.len() ==> #[trigger] v2[t] == v1[t],
        audit_row_ok(v1, w, i, sp, ptr, value, ts),
    ensures
        audit_row_ok(v2, w, i, sp, ptr, value, ts),
{
    assert(i * w + w == (i + 1) * w) by (nonlinear_arith);
    assert(i * w >= 0) by (nonlinear_arith)
        requires
            i >= 0,
            w >= 1,
    ;
    assert(v2[i * w] == v1[i * w]);
    assert(v2[i * w + 1] == v1[i * w + 1]);
    assert(v2[i * w + 2] == v1[i * w + 2]);
    assert(v2[i * w + 3 + value.len()] == v1[i * w + 3 + value.len()]);
    assert forall|j: int| 0 <= j < value.len() implies v2[i * w + 3 + j] == #[trigger] value[j] by {
        assert(v1[i * w + 3 + j] == value[j]);
        assert(v2[i * w + 3 + j] == v1[i * w + 3 + j]);
    }
}

/// A padding row is untouched by appending further cells.
proof fn lemma_zero_row_frame(v1: Seq<u32>, v2: Seq<u32>, w: int, i: int)
    requires
        0 <= i,
        1 <= w,
        (i + 1) * w <= v1.len(),
        v2.len() >= v1.len(),
        forall|t: int| 0 <= t < v1.len() ==> #[trigger] v2[t] == v1[t],
        zero_row_ok(v1, w, i),
    ensures
        zero_row_ok(v2, w, i),
{
    assert(i * w + w == (i + 1) * w) by (nonlinear_arith);
    assert(i * w >= 0) by (nonlinear_arith)
        requires
            i >= 0,
            w >= 1,
    ;
    assert forall|j: int| 0 <= j < w implies #[trigger] v2[i * w + j] == 0 by {
        assert(v1[i * w + j] == 0);
        assert(v2[i * w + j] == v1[i * w + j]);
    }
}

impl MemoryAuditChip {
    /// Materializes the audit trace of a frozen memory state: one row per
    /// touched address carrying the final timestamped value with
    /// multiplicity 1, padded with zero rows to a power-of-two height.  The
    /// pointer of every touched address is decomposed into `decomp`-bit
    /// limbs and each limb is range-checked through the shared checker, so
    /// the requests this adds never unbalance the range bus.
    pub fn generate_trace(
        &self,
        s: &MemoryController,
        width: usize,
        range_checker: &mut RangeCheckerChip,
    ) -> (r: TraceMatrix)
        requires
            s.wf(),
            old(range_checker).wf(),
            self.decomp == old(range_checker).range_max_bits as usize,
            self.pointer_max_bits + self.decomp <= usize::MAX,
            1 <= self.decomp,
            1 <= width,
            width + 4 <= usize::MAX,
            forall|i: int|
                0 <= i < s.touched@.len() ==> (#[trigger] s.entry_at(i)).value@.len() == width,
            s.touched@.len() <= usize::MAX / 2,
            (width + 4) * (2 * s.touched@.len() + 1) <= usize::MAX,
            s.touched@.len() * 8 <= usize::MAX,
        ensures
            final(range_checker).wf(),
            final(range_checker).bus == old(range_checker).bus,
            final(range_checker).range_max_bits == old(range_checker).range_max_bits,
            final(range_checker).requests@.len() >= old(range_checker).requests@.len(),
            forall|j: int|
                0 <= j < old(range_checker).requests@.len() ==> final(range_checker).requests@[j]
                    == old(range_checker).requests@[j],
            forall|j: int|
                old(range_checker).requests@.len() <= j < final(range_checker).requests@.len()
                    ==> in_range(
                    (#[trigger] final(range_checker).requests@[j]).0,
                    final(range_checker).requests@[j].1,
                    old(range_checker).range_max_bits,
                ),
            final(range_checker).requests@.len() == old(range_checker).requests@.len()
                + s.touched@.len() * ((self.pointer_max_bits + self.decomp - 1) / (
            self.decomp as int)),
            forall|i: int|
                0 <= i < s.touched@.len() ==> #[trigger] limb_block_ok(
                    final(range_checker).requests@,
                    old(range_checker).requests@.len() + i * ((self.pointer_max_bits + self.decomp
                        - 1) / (self.decomp as int)),
                    (self.pointer_max_bits + self.decomp - 1) / (self.decomp as int),
                    old(range_checker).range_max_bits,
                    s.touched@[i].1,
                ),
            r.width == width + 4,
            ({
                let rows = (r.values@.len() as int) / (r.width as int);
                &&& r.values@.len() == rows * (r.width as int)
                &&& (s.touched@.len() == 0 ==> rows == 0)
                &&& (s.touched@.len() > 0 ==> is_pow2(rows as nat) && rows >= s.touched@.len()
                    && rows < 2 * s.touched@.len())
                &&& forall|i: int|
                    0 <= i < s.touched@.len() ==> audit_row_ok(
                        r.values@,
                        r.width as int,
                        i,
                        (#[trigger] s.touched@[i]).0,
                        s.touched@[i].1,
                        s.image@[addr_key(s.touched@[i].0, s.touched@[i].1)].value@,
                        s.image@[addr_key(s.touched@[i].0, s.touched@[i].1)].timestamp,
                    )
                &&& forall|i: int|
                    s.touched@.len() <= i < rows ==> #[trigger] zero_row_ok(
                        r.values@,
                        r.width as int,
                        i,
                    )
            }),
    {
        broadcast use vstd::std_specs::hash::group_hash_axioms;

        let w: usize = width + 4;
        let n: usize = s.touched.len();
        // Pointers are decomposed into decomp-bit limbs covering the
        // configured pointer width.
        let num_limbs: usize = (self.pointer_max_bits + self.decomp - 1) / self.decomp;
        let mut values: Vec<u32> = Vec::new();
        let mut i: usize = 0;
        while i < n
            invariant
                s.wf(),
                range_checker.wf(),
                range_checker.bus == old(range_checker).bus,
                range_checker.range_max_bits == old(range_checker).range_max_bits,
                range_checker.requests@.len() >= old(range_checker).requests@.len(),
                num_limbs == (self.pointer_max_bits + self.decomp - 1) / (self.decomp as int),
                range_checker.requests@.len() == old(range_checker).requests@.len() + (i as int)
                    * (num_limbs as int),
                forall|k: int|
                    0 <= k < i ==> #[trigger] limb_block_ok(
                        range_checker.requests@,
                        old(range_checker).requests@.len() + k * (num_limbs as int),
                        num_limbs as int,
                        old(range_checker).range_max_bits,
                        s.touched@[k].1,
                    ),
                forall|j: int|
                    0 <= j < old(range_checker).requests@.len() ==> range_checker.requests@[j]
                        == old(range_checker).requests@[j],
                forall|j: int|
                    old(range_checker).requests@.len() <= j < range_checker.requests@.len()
                        ==> in_range(
                        (#[trigger] range_checker.requests@[j]).0,
                        range_checker.requests@[j].1,
                        old(range_checker).range_max_bits,
                    ),
                0 <= i <= n,
                n == s.touched@.len(),
                w == width + 4,
                1 <= width,
                forall|k: int|
                    0 <= k < s.touched@.len() ==> (#[trigger] s.entry_at(k)).value@.len() == width,
                (width + 4) * (2 * s.touched@.len() + 1) <= usize::MAX,
                values@.len() == (w as int) * (i as int),
                forall|k: int|
                    0 <= k < i ==> audit_row_ok(
                        values@,
                        w as int,
                        k,
                        (#[trigger] s.touched@[k]).0,
                        s.touched@[k].1,
                        s.image@[addr_key(s.touched@[k].0, s.touched@[k].1)].value@,
                        s.image@[addr_key(s.touched@[k].0, s.touched@[k].1)].timestamp,
                    ),
            decreases n - i,
        {
            let ghost v0 = values@;
            let (address_space, pointer) = s.touched[i];
            let k = addr_key_u64(address_space, pointer);
            proof {
                assert(s.touched_key(i as int) == k);
                assert(s.image@.contains_key(k));
                assert(s.entry_at(i as int) == s.image@[k]);
                assert((w as int) * (i as int) + (w as int) <= (w as int) * (2 * (n as int) + 1))
                    by (nonlinear_arith)
                    requires
                        0 <= i < n,
                        w >= 1,
                ;
                assert((w as int) * ((i + 1) as int) == (w as int) * (i as int) + (w as int))
                    by (nonlinear_arith);
            }
            let e = s.image.get(&k).unwrap();
            let mut row: Vec<u32> = Vec::new();
            row.push(1);
            row.push(address_space);
            row.push(pointer);
            push_all(&mut row, &e.value);
            row.push(e.timestamp);
            proof {
                assert(row@ =~= seq![1u32, address_space, pointer] + s.image@[k].value@ + seq![
                    s.image@[k].timestamp,
                ]);
            }
            push_all(&mut values, &row);
            let ghost rc0 = *range_checker;
            let limb_values = range_checker.decompose_and_check(pointer, num_limbs);
            proof {
                assert forall|j: int|
                    old(range_checker).requests@.len() <= j < range_checker.requests@.len()
                        implies in_range(
                    (#[trigger] range_checker.requests@[j]).0,
                    range_checker.requests@[j].1,
                    old(range_checker).range_max_bits,
                ) by {
                    if j < rc0.requests@.len() {
                        assert(range_checker.requests@[j] == rc0.requests@[j]);
                    } else {
                        let t = j - rc0.requests@.len();
                        assert(range_checker.requests@[rc0.requests@.len() + t] == (
                        limb_values@[t],
                        rc0.range_max_bits,
                        ));
                        assert(in_range(limb_values@[t], rc0.range_max_bits, rc0.range_max_bits));
                    }
                }
                // The freshly appended block is the pointer's limb
                // decomposition: its values recompose to the pointer modulo
                // the decomposition's range.
                let bits = old(range_checker).range_max_bits;
                let lc = num_limbs as int;
                let base_i = old(range_checker).requests@.len() + (i as int) * lc;
                let p = vstd::arithmetic::power::pow(
                    vstd::arithmetic::power2::pow2(bits as nat) as int,
                    num_limbs as nat,
                );
                assert(base_i == rc0.requests@.len());
                assert(request_values(range_checker.requests@, base_i, lc) =~= limb_values@);
                vstd::arithmetic::power2::lemma_pow2_pos(bits as nat);
                vstd::arithmetic::power::lemma_pow_positive(
                    vstd::arithmetic::power2::pow2(bits as nat) as int,
                    num_limbs as nat,
                );
                vstd::arithmetic::div_mod::lemma_fundamental_div_mod(pointer as int, p);
                assert(((pointer as int) / p) * p == p * ((pointer as int) / p))
                    by (nonlinear_arith);
                assert(crate::range_checker::recompose(limb_values@, bits as nat) == (
                pointer as int) % p);
                assert((i + 1) as int * lc == (i as int) * lc + lc) by (nonlinear_arith);
                assert forall|k: int| 0 <= k < i + 1 implies #[trigger] limb_block_ok(
                    range_checker.requests@,
                    old(range_checker).requests@.len() + k * (num_limbs as int),
                    num_limbs as int,
                    old(range_checker).range_max_bits,
                    s.touched@[k].1,
                ) by {
                    let base = old(range_checker).requests@.len() + k * lc;
                    if k < i {
                        assert(limb_block_ok(
                            rc0.requests@,
                            base,
                            lc,
                            bits,
                            s.touched@[k].1,
                        ));
                        assert((k + 1) * lc <= (i as int) * lc) by (nonlinear_arith)
                            requires
                                0 <= k < i,
                                lc >= 0,
                        ;
                        assert(k * lc + lc == (k + 1) * lc) by (nonlinear_arith);
                        assert(k * lc >= 0) by (nonlinear_arith)
                            requires
                                k >= 0,
                                lc >= 0,
                        ;
                        assert forall|t: int| 0 <= t < lc implies (
                        #[trigger] range_checker.requests@[base + t]).1 == bits by {
                            assert(range_checker.requests@[base + t] == rc0.requests@[base + t]);
                        }
                        assert(request_values(range_checker.requests@, base, lc)
                            =~= request_values(rc0.requests@, base, lc));
                    } else {
                        assert(k == i as int);
                        assert(base == base_i);
                        assert(s.touched@[k].1 == pointer);
                        assert forall|t: int| 0 <= t < lc implies (
                        #[trigger] range_checker.requests@[base + t]).1 == bits by {
                            assert(range_checker.requests@[rc0.requests@.len() + t] == (
                            limb_values@[t],
                            rc0.range_max_bits,
                            ));
                        }
                        assert(request_values(range_checker.requests@, base, lc)
                            =~= limb_values@);
                    }
                }
                let wi = w as int;
                let ii = i as int;
                assert(values@ == v0 + row@);
                assert(row@.len() == wi);
                assert(v0.len() == wi * ii);
                assert(values@.len() == wi * ii + wi);
                assert(forall|t: int| 0 <= t < v0.len() ==> #[trigger] values@[t] == v0[t]);
                assert(forall|t: int| 0 <= t < wi ==> #[trigger] values@[v0.len() + t] == row@[t]);
                assert forall|kk: int| 0 <= kk < i + 1 implies audit_row_ok(
                    values@,
                    wi,
                    kk,
                    (#[trigger] s.touched@[kk]).0,
                    s.touched@[kk].1,
                    s.image@[addr_key(s.touched@[kk].0, s.touched@[kk].1)].value@,
                    s.image@[addr_key(s.touched@[kk].0, s.touched@[kk].1)].timestamp,
                ) by {
                    if kk < ii {
                        assert(s.entry_at(kk) == s.image@[addr_key(
                            s.touched@[kk].0,
                            s.touched@[kk].1,
                        )]);
                        assert(s.entry_at(kk).value@.len() == width);
                        assert((kk + 1) * wi <= v0.len()) by (nonlinear_arith)
                            requires
                                0 <= kk < ii,
                                wi >= 1,
                                v0.len() == wi * ii,
                        ;
                        lemma_audit_row_frame(
                            v0,
                            values@,
                            wi,
                            kk,
                            s.touched@[kk].0,
                            s.touched@[kk].1,
                            s.image@[addr_key(s.touched@[kk].0, s.touched@[kk].1)].value@,
                            s.image@[addr_key(s.touched@[kk].0, s.touched@[kk].1)].timestamp,
                        );
                    } else {
                        assert(kk == ii);
                        assert(ii * wi == v0.len()) by (nonlinear_arith)
                            requires
                                v0.len() == wi * ii,
                        ;
                        assert(values@[ii * wi] == row@[0]);
                        assert(values@[ii * wi + 1] == row@[1]);
                        assert(values@[ii * wi + 2] == row@[2]);
                        assert(s.entry_at(ii) == s.image@[k]);
                        assert(s.entry_at(ii).value@.len() == width);
                        assert forall|j: int| 0 <= j < width implies values@[ii * wi + 3 + j]
                            == #[trigger] s.image@[k].value@[j] by {
                            assert(values@[v0.len() + 3 + j] == row@[3 + j]);
                            assert(row@[3 + j] == s.image@[k].value@[j]);
                        }
                        assert(values@[ii * wi + 3 + width] == row@[3 + width]);
                        assert(row@[3 + width] == s.image@[k].timestamp);
                    }
                }
            }
            i += 1;
        }
        let rows = next_power_of_two_or_zero(n);
        proof {
            assert(rows <= 2 * n);
            assert((w as int) * (rows as int) <= (w as int) * (2 * (n as int) + 1))
                by (nonlinear_arith)
                requires
                    rows <= 2 * n + 1,
                    w >= 1,
            ;
        }
        let mut pad_row: usize = n;
        while pad_row < rows
            invariant
                s.wf(),
                n <= pad_row <= rows,
                w == width + 4,
                1 <= width,
                n == s.touched@.len(),
                forall|k: int|
                    0 <= k < s.touched@.len() ==> (#[trigger] s.entry_at(k)).value@.len() == width,
                (width + 4) * (2 * s.touched@.len() + 1) <= usize::MAX,
                rows <= 2 * n + 1,
                values@.len() == (w as int) * (pad_row as int),
                forall|kk: int|
                    0 <= kk < n ==> audit_row_ok(
                        values@,
                        w as int,
                        kk,
                        (#[trigger] s.touched@[kk]).0,
                        s.touched@[kk].1,
                        s.image@[addr_key(s.touched@[kk].0, s.touched@[kk].1)].value@,
                        s.image@[addr_key(s.touched@[kk].0, s.touched@[kk].1)].timestamp,
                    ),
                forall|kk: int| n <= kk < pad_row ==> #[trigger] zero_row_ok(values@, w as int, kk),
            decreases rows - pad_row,
        {
            let ghost v0 = values@;
            proof {
                assert((w as int) * (pad_row as int) + (w as int) <= (w as int) * (2 * (n as int)
                    + 1)) by (nonlinear_arith)
                    requires
                        0 <= pad_row < rows <= 2 * n + 1,
                        w >= 1,
                ;
                assert((w as int) * ((pad_row + 1) as int) == (w as int) * (pad_row as int) + (
                w as int)) by (nonlinear_arith);
            }
            let mut j: usize = 0;
            while j < w
                invariant
                    0 <= j <= w,
                    values@.len() == v0.len() + j,
                    forall|t: int| 0 <= t < v0.len() ==> values@[t] == v0[t],
                    forall|t: int| 0 <= t < j ==> #[trigger] values@[v0.len() + t] == 0,
                decreases w - j,
            {
                values.push(0);
                j += 1;
            }
            proof {
                let wi = w as int;
                let pi = pad_row as int;
                assert(forall|t: int| 0 <= t < v0.len() ==> #[trigger] values@[t] == v0[t]);
                assert forall|kk: int| 0 <= kk < n implies audit_row_ok(
                    values@,
                    wi,
                    kk,
                    (#[trigger] s.touched@[kk]).0,
                    s.touched@[kk].1,
                    s.image@[addr_key(s.touched@[kk].0, s.touched@[kk].1)].value@,
                    s.image@[addr_key(s.touched@[kk].0, s.touched@[kk].1)].timestamp,
                ) by {
                    assert((kk + 1) * wi <= pi * wi) by (nonlinear_arith)
                        requires
                            0 <= kk < n <= pi,
                            wi >= 1,
                    ;
                    assert(s.entry_at(kk) == s.image@[addr_key(
                        s.touched@[kk].0,
                        s.touched@[kk].1,
                    )]);
                    assert(s.entry_at(kk).value@.len() == width);
                    assert((kk + 1) * wi <= v0.len()) by (nonlinear_arith)
                        requires
                            0 <= kk < n <= pi,
                            wi >= 1,
                            v0.len() == wi * pi,
                    ;
                    lemma_audit_row_frame(
                        v0,
                        values@,
                        wi,
                        kk,
                        s.touched@[kk].0,
                        s.touched@[kk].1,
                        s.image@[addr_key(s.touched@[kk].0, s.touched@[kk].1)].value@,
                        s.image@[addr_key(s.touched@[kk].0, s.touched@[kk].1)].timestamp,
                    );
                }
                assert forall|kk: int| n <= kk < pad_row + 1 implies #[trigger] zero_row_ok(
                    values@,
                    wi,
                    kk,
                ) by {
                    if kk < pi {
                        assert((kk + 1) * wi <= pi * wi) by (nonlinear_arith)
                            requires
                                0 <= kk < pi,
                                wi >= 1,
                        ;
                        lemma_zero_row_frame(v0, values@, wi, kk);
                    } else {
                        assert(kk == pi);
                        assert(pi * wi == v0.len());
                        assert forall|t: int| 0 <= t < wi implies #[trigger] values@[pi * wi + t]
                            == 0 by {
                            assert(values@[v0.len() + t] == 0);
                        }
                    }
                }
            }
            pad_row += 1;
        }
        proof {
            vstd::arithmetic::div_mod::lemma_div_multiples_vanish(rows as int, w as int);
            assert((w as int) * (rows as int) == (rows as int) * (w as int)) by (nonlinear_arith);
        }
        TraceMatrix { values, width: w }
    }
}

} // verus!
