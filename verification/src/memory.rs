//! The memory controller: the one owner of the live address-to-value mapping
//! during native execution.
//!
//! Every logical read or write is converted into a timestamped record.  The
//! controller keeps the full write log, the read log and the set of touched
//! addresses, so that the audit chip can later close the offline
//! memory-checking argument: the initial image plus all write new-values must
//! equal all write old-values plus the final image, as multisets of
//! (address, value, timestamp) tuples.

use vstd::prelude::*;
use std::collections::HashMap;

verus! {

use vstd::multiset::Multiset;

use crate::field::fe_wf;

/// Timestamps are field elements as well; one is consumed per access.
pub const MAX_TIMESTAMP: u32 = 2013265920;

/// A value stored at one address: a fixed-width tuple of field elements
/// together with the timestamp of the write that stored it (0 when the
/// address was never written).
#[derive(Clone, Debug)]
pub struct TimestampedValue {
    pub value: Vec<u32>,
    pub timestamp: u32,
}

/// The record a read hands back to the calling chip.
#[derive(Clone, Debug)]
pub struct MemoryReadRecord {
    pub address_space: u32,
    pub pointer: u32,
    pub data: Vec<u32>,
    /// The timestamp stamped on this read.
    pub timestamp: u32,
    /// The timestamp of the last write to this address (0 if never written).
    pub prev_timestamp: u32,
}

/// The record a write hands back to the calling chip.
#[derive(Clone, Debug)]
pub struct MemoryWriteRecord {
    pub address_space: u32,
    pub pointer: u32,
    pub prev_data: Vec<u32>,
    pub prev_timestamp: u32,
    pub data: Vec<u32>,
    pub timestamp: u32,
}

/// A read of an address cell followed by the read of the data it points at.
pub struct MemoryHeapReadRecord {
    pub address_read: MemoryReadRecord,
    pub data_read: MemoryReadRecord,
}

/// A read of an address cell followed by a write of the data it points at.
pub struct MemoryHeapWriteRecord {
    pub address_read: MemoryReadRecord,
    pub data_write: MemoryWriteRecord,
}

/// The one eagerly detected usage error: an access whose width disagrees with
/// the width established at that address by its first access.
#[derive(Clone, Copy, PartialEq, Eq, Structural, Debug)]
pub enum MemoryError {
    WidthMismatch,
}

/// The unique 64-bit key of an (address space, pointer) pair.
pub open spec fn addr_key(address_space: u32, pointer: u32) -> u64 {
    ((address_space as int) * 0x1_0000_0000 + pointer as int) as u64
}

/// Address pairs and their keys are in bijection.
pub proof fn lemma_addr_key_injective(sp1: u32, p1: u32, sp2: u32, p2: u32)
    requires
        addr_key(sp1, p1) == addr_key(sp2, p2),
    ensures
        sp1 == sp2 && p1 == p2,
{
    let k1 = (sp1 as int) * 0x1_0000_0000 + p1 as int;
    let k2 = (sp2 as int) * 0x1_0000_0000 + p2 as int;
    assert(0 <= k1 && k1 < 0x1_0000_0000_0000_0000) by (nonlinear_arith)
        requires
            k1 == (sp1 as int) * 0x1_0000_0000 + p1 as int,
            sp1 < 0x1_0000_0000,
            p1 < 0x1_0000_0000,
    ;
    assert(0 <= k2 && k2 < 0x1_0000_0000_0000_0000) by (nonlinear_arith)
        requires
            k2 == (sp2 as int) * 0x1_0000_0000 + p2 as int,
            sp2 < 0x1_0000_0000,
            p2 < 0x1_0000_0000,
    ;
    assert(k1 == k2);
    assert(sp1 == sp2 && p1 == p2) by (nonlinear_arith)
        requires
            k1 == k2,
            k1 == (sp1 as int) * 0x1_0000_0000 + p1 as int,
            k2 == (sp2 as int) * 0x1_0000_0000 + p2 as int,
            p1 < 0x1_0000_0000,
            p2 < 0x1_0000_0000,
    ;
}

/// The all-zero value of a given width: what an untouched address holds.
pub open spec fn zero_seq(width: nat) -> Seq<u32> {
    Seq::new(width, |i: int| 0u32)
}

/// The bus tuple of one memory cell state: address pair, value, timestamp.
pub open spec fn mem_tuple(address_space: u32, pointer: u32, data: Seq<u32>, ts: u32) -> Seq<u32> {
    seq![address_space, pointer] + data + seq![ts]
}

/// Distinct addresses, values or timestamps give distinct tuples (for equal
/// value widths).
pub proof fn lemma_mem_tuple_injective(
    sp1: u32,
    p1: u32,
    d1: Seq<u32>,
    t1: u32,
    sp2: u32,
    p2: u32,
    d2: Seq<u32>,
    t2: u32,
)
    requires
        d1.len() == d2.len(),
        mem_tuple(sp1, p1, d1, t1) == mem_tuple(sp2, p2, d2, t2),
    ensures
        sp1 == sp2 && p1 == p2 && d1 == d2 && t1 == t2,
{
    let m1 = mem_tuple(sp1, p1, d1, t1);
    let m2 = mem_tuple(sp2, p2, d2, t2);
    assert(sp1 == m1[0] && p1 == m1[1]);
    assert(t1 == m1[2 + d1.len() as int]);
    assert(d1 =~= d2) by {
        assert(forall|i: int| 0 <= i < d1.len() ==> d1[i] == m1[2 + i] && d2[i] == m2[2 + i]);
    };
}

/// The multiset of new-value tuples of a write log.
pub open spec fn writes_new_multiset(log: Seq<MemoryWriteRecord>) -> Multiset<Seq<u32>>
    decreases log.len(),
{
    if log.len() == 0 {
        Multiset::empty()
    } else {
        writes_new_multiset(log.drop_last()).insert(
            mem_tuple(log.last().address_space, log.last().pointer, log.last().data@, log.last().timestamp),
        )
    }
}

/// The multiset of old-value tuples of a write log.
pub open spec fn writes_old_multiset(log: Seq<MemoryWriteRecord>) -> Multiset<Seq<u32>>
    decreases log.len(),
{
    if log.len() == 0 {
        Multiset::empty()
    } else {
        writes_old_multiset(log.drop_last()).insert(
            mem_tuple(
                log.last().address_space,
                log.last().pointer,
                log.last().prev_data@,
                log.last().prev_timestamp,
            ),
        )
    }
}

/// The multiset of initial-image tuples: one all-zero tuple of the
/// established width, at timestamp 0, per touched address.
pub open spec fn init_multiset(
    touched: Seq<(u32, u32)>,
    image: Map<u64, TimestampedValue>,
) -> Multiset<Seq<u32>>
    decreases touched.len(),
{
    if touched.len() == 0 {
        Multiset::empty()
    } else {
        let (sp, ptr) = touched.last();
        init_multiset(touched.drop_last(), image).insert(
            mem_tuple(sp, ptr, zero_seq(image[addr_key(sp, ptr)].value@.len()), 0),
        )
    }
}

/// The multiset of final-image tuples: the current value and timestamp of
/// every touched address.
pub open spec fn image_multiset(
    touched: Seq<(u32, u32)>,
    image: Map<u64, TimestampedValue>,
) -> Multiset<Seq<u32>>
    decreases touched.len(),
{
    if touched.len() == 0 {
        Multiset::empty()
    } else {
        let (sp, ptr) = touched.last();
        let tv = image[addr_key(sp, ptr)];
        image_multiset(touched.drop_last(), image).insert(
            mem_tuple(sp, ptr, tv.value@, tv.timestamp),
        )
    }
}

/// The last write of a log to a given address, if any.
pub open spec fn last_write_to(
    log: Seq<MemoryWriteRecord>,
    address_space: u32,
    pointer: u32,
) -> Option<MemoryWriteRecord>
    decreases log.len(),
{
    if log.len() == 0 {
        Option::None
    } else if log.last().address_space == address_space && log.last().pointer == pointer {
        Option::Some(log.last())
    } else {
        last_write_to(log.drop_last(), address_space, pointer)
    }
}

/// Appending a write record changes the last write only for its own address.
pub proof fn lemma_last_write_append(
    log: Seq<MemoryWriteRecord>,
    rec: MemoryWriteRecord,
    address_space: u32,
    pointer: u32,
)
    ensures
        last_write_to(log.push(rec), address_space, pointer) == if rec.address_space
            == address_space && rec.pointer == pointer {
            Option::Some(rec)
        } else {
            last_write_to(log, address_space, pointer)
        },
{
    assert(log.push(rec).drop_last() =~= log);
}

/// A log that never writes an address has no last write to it.
pub proof fn lemma_no_write_means_none(
    log: Seq<MemoryWriteRecord>,
    address_space: u32,
    pointer: u32,
)
    requires
        forall|i: int|
            0 <= i < log.len() ==> !((#[trigger] log[i]).address_space == address_space
                && log[i].pointer == pointer),
    ensures
        last_write_to(log, address_space, pointer) is None,
    decreases log.len(),
{
    if log.len() > 0 {
        lemma_no_write_means_none(log.drop_last(), address_space, pointer);
    }
}

/// Inserting an image entry at a key that no listed address has leaves both
/// the initial-image and the final-image multisets unchanged.
pub proof fn lemma_multisets_insert_fresh(
    touched: Seq<(u32, u32)>,
    image: Map<u64, TimestampedValue>,
    k: u64,
    v: TimestampedValue,
)
    requires
        forall|i: int|
            0 <= i < touched.len() ==> addr_key((#[trigger] touched[i]).0, touched[i].1) != k,
    ensures
        init_multiset(touched, image.insert(k, v)) == init_multiset(touched, image),
        image_multiset(touched, image.insert(k, v)) == image_multiset(touched, image),
    decreases touched.len(),
{
    if touched.len() > 0 {
        lemma_multisets_insert_fresh(touched.drop_last(), image, k, v);
    }
}

/// Overwriting an image entry with a value of the same width leaves the
/// initial-image multiset unchanged: initial tuples depend only on widths.
pub proof fn lemma_init_multiset_same_width(
    touched: Seq<(u32, u32)>,
    image: Map<u64, TimestampedValue>,
    k: u64,
    v: TimestampedValue,
)
    requires
        v.value@.len() == image[k].value@.len(),
    ensures
        init_multiset(touched, image.insert(k, v)) == init_multiset(touched, image),
    decreases touched.len(),
{
    if touched.len() > 0 {
        lemma_init_multiset_same_width(touched.drop_last(), image, k, v);
    }
}

/// Overwriting the one listed address with key `k` swaps exactly its tuple in
/// the final-image multiset.
pub proof fn lemma_image_multiset_swap(
    touched: Seq<(u32, u32)>,
    image: Map<u64, TimestampedValue>,
    k: u64,
    v: TimestampedValue,
    idx: int,
)
    requires
        0 <= idx < touched.len(),
        addr_key(touched[idx].0, touched[idx].1) == k,
        forall|i: int|
            0 <= i < touched.len() && i != idx ==> addr_key(
                (#[trigger] touched[i]).0,
                touched[i].1,
            ) != k,
    ensures
        image_multiset(touched, image.insert(k, v)).insert(
            mem_tuple(touched[idx].0, touched[idx].1, image[k].value@, image[k].timestamp),
        ) == image_multiset(touched, image).insert(
            mem_tuple(touched[idx].0, touched[idx].1, v.value@, v.timestamp),
        ),
    decreases touched.len(),
{
    let old_tuple = mem_tuple(touched[idx].0, touched[idx].1, image[k].value@, image[k].timestamp);
    let new_tuple = mem_tuple(touched[idx].0, touched[idx].1, v.value@, v.timestamp);
    let rest = touched.drop_last();
    if idx == touched.len() - 1 {
        assert(image_multiset(rest, image.insert(k, v)) == image_multiset(rest, image)) by {
            lemma_multisets_insert_fresh(rest, image, k, v);
        }
        assert(image_multiset(touched, image.insert(k, v)).insert(old_tuple)
            =~= image_multiset(touched, image).insert(new_tuple));
    } else {
        lemma_image_multiset_swap(rest, image, k, v, idx);
        let (sp, ptr) = touched.last();
        // The last listed address is not the overwritten one, so its tuple is
        // the same in both images.
        assert(addr_key(sp, ptr) != k);
        assert(image.insert(k, v)[addr_key(sp, ptr)] == image[addr_key(sp, ptr)]);
        let a = image_multiset(rest, image.insert(k, v));
        let b = image_multiset(rest, image);
        let tv = image[addr_key(sp, ptr)];
        let lt = mem_tuple(sp, ptr, tv.value@, tv.timestamp);
        assert(image_multiset(touched, image.insert(k, v)) == a.insert(lt));
        assert(image_multiset(touched, image) == b.insert(lt));
        assert forall|x: Seq<u32>|
            a.insert(lt).insert(old_tuple).count(x) == b.insert(lt).insert(new_tuple).count(
                x,
            ) by {
            assert(a.insert(old_tuple).count(x) == b.insert(new_tuple).count(x));
        }
        assert(a.insert(lt).insert(old_tuple) =~= b.insert(lt).insert(new_tuple));
    }
}

/// An element-wise copy of a tuple of field values.
pub fn clone_u32_vec(v: &Vec<u32>) -> (r: Vec<u32>)
    ensures
        r@ == v@,
{
    let mut r: Vec<u32> = Vec::new();
    let mut i: usize = 0;
    while i < v.len()
        invariant
            0 <= i <= v@.len(),
            r@ =~= v@.take(i as int),
        decreases v@.len() - i,
    {
        r.push(v[i]);
        proof {
            assert(r@ =~= v@.take(i + 1));
        }
        i += 1;
    }
    proof {
        assert(v@.take(v@.len() as int) =~= v@);
    }
    r
}

/// A tuple of `width` zero cells: the canonical default value.
pub fn zero_vec(width: usize) -> (r: Vec<u32>)
    ensures
        r@ == zero_seq(width as nat),
{
    let mut r: Vec<u32> = Vec::new();
    let mut i: usize = 0;
    while i < width
        invariant
            0 <= i <= width,
            r@ =~= zero_seq(i as nat),
        decreases width - i,
    {
        r.push(0);
        proof {
            assert(r@ =~= zero_seq((i + 1) as nat));
        }
        i += 1;
    }
    r
}

/// The 64-bit image key of an address pair.
pub fn addr_key_u64(address_space: u32, pointer: u32) -> (k: u64)
    ensures
        k == addr_key(address_space, pointer),
{
    (address_space as u64) * 0x1_0000_0000u64 + (pointer as u64)
}

/// The memory controller.  It exclusively owns the live mapping from
/// addresses to timestamped values during one execution, hands one record to
/// the caller per access, and keeps the logs the audit argument is built
/// from.
pub struct MemoryController {
    /// The live image: established addresses mapped to their current value.
    pub image: HashMap<u64, TimestampedValue>,
    /// Every touched (address space, pointer) pair, in first-touch order.
    pub touched: Vec<(u32, u32)>,
    /// Every write, in execution order.
    pub write_log: Vec<MemoryWriteRecord>,
    /// Every read, in execution order.
    pub read_log: Vec<MemoryReadRecord>,
    /// The timestamp the next access will be stamped with.
    pub timestamp: u32,
}

impl MemoryController {
    /// The image key of the i-th touched address.
    pub open spec fn touched_key(self, i: int) -> u64 {
        addr_key(self.touched@[i].0, self.touched@[i].1)
    }

    /// The image entry of the i-th touched address.
    pub open spec fn entry_at(self, i: int) -> TimestampedValue {
        self.image@[self.touched_key(i)]
    }

    /// The touched list holds each established address exactly once and is in
    /// bijection with the image's domain.
    pub open spec fn touched_wf(self) -> bool {
        &&& forall|i: int, j: int|
            0 <= i < j < self.touched@.len() ==> #[trigger] self.touched_key(i)
                != #[trigger] self.touched_key(j)
        &&& forall|i: int|
            0 <= i < self.touched@.len() ==> self.image@.contains_key(#[trigger] self.touched_key(i))
        &&& forall|k: u64|
            self.image@.contains_key(k) ==> exists|i: int|
                0 <= i < self.touched@.len() && #[trigger] self.touched_key(i) == k
    }

    /// Every image entry is a nonempty tuple of field elements whose
    /// timestamp precedes the next one to be issued.
    pub open spec fn entries_wf(self) -> bool {
        forall|i: int|
            0 <= i < self.touched@.len() ==> {
                let e = #[trigger] self.entry_at(i);
                &&& e.value@.len() >= 1
                &&& e.timestamp < self.timestamp
                &&& fe_wf(self.touched@[i].0)
                &&& fe_wf(self.touched@[i].1)
                &&& forall|j: int| 0 <= j < e.value@.len() ==> fe_wf(#[trigger] e.value@[j])
            }
    }

    /// The write log carries strictly increasing timestamps, each write's new
    /// timestamp is above its old one, and each written address is
    /// established in the image.
    pub open spec fn write_log_wf(self) -> bool {
        &&& forall|i: int, j: int|
            0 <= i < j < self.write_log@.len() ==> (#[trigger] self.write_log@[i]).timestamp
                < (#[trigger] self.write_log@[j]).timestamp
        &&& forall|i: int|
            0 <= i < self.write_log@.len() ==> {
                let w = #[trigger] self.write_log@[i];
                &&& 1 <= w.timestamp < self.timestamp
                &&& w.prev_timestamp < w.timestamp
                &&& w.data@.len() == w.prev_data@.len()
                &&& self.image@.contains_key(addr_key(w.address_space, w.pointer))
            }
    }

    /// Every read was stamped before the next timestamp and observed a prior
    /// write (or the initial state at timestamp 0).
    pub open spec fn read_log_wf(self) -> bool {
        forall|i: int|
            0 <= i < self.read_log@.len() ==> {
                let r = #[trigger] self.read_log@[i];
                &&& 1 <= r.timestamp < self.timestamp
                &&& r.prev_timestamp < r.timestamp
                &&& self.image@.contains_key(addr_key(r.address_space, r.pointer))
            }
    }

    /// Each established address holds exactly the value of the last write to
    /// it, at that write's timestamp — or the all-zero initial value at
    /// timestamp 0 when it was never written.
    pub open spec fn last_write_coherent(self) -> bool {
        forall|i: int|
            0 <= i < self.touched@.len() ==> {
                let sp = self.touched@[i].0;
                let ptr = self.touched@[i].1;
                let e = #[trigger] self.entry_at(i);
                match last_write_to(self.write_log@, sp, ptr) {
                    Option::Some(w) => e.value@ == w.data@ && e.timestamp == w.timestamp,
                    Option::None => e.timestamp == 0 && e.value@ == zero_seq(e.value@.len()),
                }
            }
    }

    /// The offline-checking balance: initial image plus write new-values
    /// equals write old-values plus current image, as multisets of
    /// (address, value, timestamp) tuples.
    pub open spec fn multiset_coherent(self) -> bool {
        init_multiset(self.touched@, self.image@).add(writes_new_multiset(self.write_log@))
            == writes_old_multiset(self.write_log@).add(
            image_multiset(self.touched@, self.image@),
        )
    }

    /// The controller's full invariant, established by [`Self::new`] and
    /// preserved by every operation.
    pub open spec fn wf(self) -> bool {
        &&& 1 <= self.timestamp <= MAX_TIMESTAMP
        &&& self.touched_wf()
        &&& self.entries_wf()
        &&& self.write_log_wf()
        &&& self.read_log_wf()
        &&& self.last_write_coherent()
        &&& self.multiset_coherent()
    }

    /// A fresh controller: empty image, no records, timestamps starting at 1
    /// so that 0 is reserved for "never written".
    pub fn new() -> (r: Self)
        ensures
            r.wf(),
            r.timestamp == 1,
            r.touched@ =~= Seq::<(u32, u32)>::empty(),
            r.write_log@ =~= Seq::<MemoryWriteRecord>::empty(),
            r.read_log@ =~= Seq::<MemoryReadRecord>::empty(),
            r.image@ =~= Map::<u64, TimestampedValue>::empty(),
    {
        broadcast use vstd::std_specs::hash::group_hash_axioms;

        let r = MemoryController {
            image: HashMap::new(),
            touched: Vec::new(),
            write_log: Vec::new(),
            read_log: Vec::new(),
            timestamp: 1,
        };
        proof {
            assert(init_multiset(r.touched@, r.image@).add(
                writes_new_multiset(r.write_log@),
            ) =~= writes_old_multiset(r.write_log@).add(image_multiset(r.touched@, r.image@)));
        }
        r
    }

    /// What a write record must say, in terms of mathematical views.
    pub open spec fn write_rec_spec(
        rec: MemoryWriteRecord,
        address_space: u32,
        pointer: u32,
        prev_data: Seq<u32>,
        prev_timestamp: u32,
        data: Seq<u32>,
        timestamp: u32,
    ) -> bool {
        &&& rec.address_space == address_space
        &&& rec.pointer == pointer
        &&& rec.prev_data@ == prev_data
        &&& rec.prev_timestamp == prev_timestamp
        &&& rec.data@ == data
        &&& rec.timestamp == timestamp
    }

    /// The previous timestamped value a fresh access to an address observes:
    /// the image entry if established, else the all-zero default at
    /// timestamp 0.
    pub open spec fn prev_value_spec(self, address_space: u32, pointer: u32, width: nat) -> (
        Seq<u32>,
        u32,
    ) {
        let k = addr_key(address_space, pointer);
        if self.image@.contains_key(k) {
            (self.image@[k].value@, self.image@[k].timestamp)
        } else {
            (zero_seq(width), 0u32)
        }
    }

    /// An access is refused exactly when its width disagrees with the width
    /// established at that address.
    pub open spec fn width_mismatch(self, address_space: u32, pointer: u32, width: nat) -> bool {
        let k = addr_key(address_space, pointer);
        self.image@.contains_key(k) && self.image@[k].value@.len() != width
    }

    /// Stores `data` at the given address at a fresh timestamp, strictly
    /// greater than every timestamp issued before, and returns the record of
    /// the transition: the prior timestamped value and the new one.
    pub fn write(
        &mut self,
        address_space: u32,
        pointer: u32,
        data: Vec<u32>,
    ) -> (r: Result<MemoryWriteRecord, MemoryError>)
        requires
            old(self).wf(),
            old(self).timestamp < MAX_TIMESTAMP,
            fe_wf(address_space),
            fe_wf(pointer),
            1 <= data@.len(),
            forall|j: int| 0 <= j < data@.len() ==> fe_wf(#[trigger] data@[j]),
        ensures
            final(self).wf(),
            r is Err <==> old(self).width_mismatch(address_space, pointer, data@.len()),
            r is Err ==> *final(self) == *old(self) && r == Result::<
                MemoryWriteRecord,
                MemoryError,
            >::Err(MemoryError::WidthMismatch),
            r matches Ok(rec) ==> {
                let k = addr_key(address_space, pointer);
                let (prev_data, prev_ts) = old(self).prev_value_spec(
                    address_space,
                    pointer,
                    data@.len(),
                );
                &&& Self::write_rec_spec(
                    rec,
                    address_space,
                    pointer,
                    prev_data,
                    prev_ts,
                    data@,
                    old(self).timestamp,
                )
                &&& Self::write_rec_spec(
                    final(self).write_log@.last(),
                    address_space,
                    pointer,
                    prev_data,
                    prev_ts,
                    data@,
                    old(self).timestamp,
                )
                &&& final(self).image@ =~= old(self).image@.insert(
                    k,
                    final(self).image@[k],
                ) && final(self).image@[k].value@ == data@ && final(self).image@[k].timestamp
                    == old(self).timestamp
                &&& final(self).touched@ == if old(self).image@.contains_key(k) {
                    old(self).touched@
                } else {
                    old(self).touched@.push((address_space, pointer))
                }
                &&& final(self).write_log@.len() == old(self).write_log@.len() + 1
                &&& forall|i: int|
                    0 <= i < old(self).write_log@.len() ==> final(self).write_log@[i] == old(
                        self,
                    ).write_log@[i]
                &&& final(self).read_log@ == old(self).read_log@
                &&& final(self).timestamp == old(self).timestamp + 1
            },
    {
        broadcast use vstd::std_specs::hash::group_hash_axioms;

        let ghost pre = *self;
        let k = addr_key_u64(address_space, pointer);
        let was = self.image.contains_key(&k);
        let prev_data: Vec<u32>;
        let prev_timestamp: u32;
        if was {
            let e = self.image.get(&k).unwrap();
            if e.value.len() != data.len() {
                return Result::Err(MemoryError::WidthMismatch);
            }
            prev_data = clone_u32_vec(&e.value);
            prev_timestamp = e.timestamp;
        } else {
            prev_data = zero_vec(data.len());
            prev_timestamp = 0;
        }
        let ts = self.timestamp;
        let stored = TimestampedValue { value: clone_u32_vec(&data), timestamp: ts };
        self.image.insert(k, stored);
        if !was {
            self.touched.push((address_space, pointer));
        }
        let log_rec = MemoryWriteRecord {
            address_space,
            pointer,
            prev_data: clone_u32_vec(&prev_data),
            prev_timestamp,
            data: clone_u32_vec(&data),
            timestamp: ts,
        };
        self.write_log.push(log_rec);
        self.timestamp = ts + 1;
        proof {
            Self::lemma_write_preserves_wf(
                pre,
                *self,
                address_space,
                pointer,
                self.write_log@.last(),
            );
        }
        Result::Ok(
            MemoryWriteRecord { address_space, pointer, prev_data, prev_timestamp, data, timestamp: ts },
        )
    }

    /// Returns the timestamped value stored at an address, stamping the
    /// access with a fresh timestamp without changing the stored value.  A
    /// never-written address observes the canonical default: all zeros at
    /// timestamp 0.  The record's data is always the data of the last write
    /// to that address with a timestamp below the read's own.
    pub fn read(&mut self, address_space: u32, pointer: u32, width: usize) -> (r: Result<
        MemoryReadRecord,
        MemoryError,
    >)
        requires
            old(self).wf(),
            old(self).timestamp < MAX_TIMESTAMP,
            fe_wf(address_space),
            fe_wf(pointer),
            1 <= width,
        ensures
            final(self).wf(),
            r is Err <==> old(self).width_mismatch(address_space, pointer, width as nat),
            r is Err ==> *final(self) == *old(self) && r == Result::<
                MemoryReadRecord,
                MemoryError,
            >::Err(MemoryError::WidthMismatch),
            r matches Ok(rec) ==> {
                let k = addr_key(address_space, pointer);
                let was = old(self).image@.contains_key(k);
                let (prev_data, prev_ts) = old(self).prev_value_spec(
                    address_space,
                    pointer,
                    width as nat,
                );
                &&& rec.address_space == address_space
                &&& rec.pointer == pointer
                &&& rec.data@ == prev_data
                &&& rec.data@.len() == width
                &&& rec.prev_timestamp == prev_ts
                &&& rec.timestamp == old(self).timestamp
                &&& (!was ==> rec.data@ == zero_seq(width as nat) && rec.prev_timestamp == 0)
                &&& (match last_write_to(old(self).write_log@, address_space, pointer) {
                    Option::Some(w) => rec.data@ == w.data@ && rec.prev_timestamp == w.timestamp,
                    Option::None => rec.data@ == zero_seq(width as nat) && rec.prev_timestamp
                        == 0,
                })
                &&& forall|j: int| 0 <= j < rec.data@.len() ==> fe_wf(#[trigger] rec.data@[j])
                &&& rec.prev_timestamp < old(self).timestamp
                &&& final(self).image@ =~= if was {
                    old(self).image@
                } else {
                    old(self).image@.insert(k, final(self).image@[k])
                }
                &&& (!was ==> final(self).image@[k].value@ == zero_seq(width as nat)
                    && final(self).image@[k].timestamp == 0)
                &&& final(self).touched@ == if was {
                    old(self).touched@
                } else {
                    old(self).touched@.push((address_space, pointer))
                }
                &&& final(self).write_log@ == old(self).write_log@
                &&& final(self).read_log@.len() == old(self).read_log@.len() + 1
                &&& forall|i: int|
                    0 <= i < old(self).read_log@.len() ==> final(self).read_log@[i] == old(
                        self,
                    ).read_log@[i]
                &&& ({
                    let lr = final(self).read_log@.last();
                    lr.address_space == address_space && lr.pointer == pointer && lr.data@
                        == rec.data@ && lr.timestamp == rec.timestamp && lr.prev_timestamp
                        == rec.prev_timestamp
                })
                &&& final(self).timestamp == old(self).timestamp + 1
            },
    {
        broadcast use vstd::std_specs::hash::group_hash_axioms;

        let ghost pre = *self;
        let k = addr_key_u64(address_space, pointer);
        let was = self.image.contains_key(&k);
        let data: Vec<u32>;
        let prev_timestamp: u32;
        if was {
            let e = self.image.get(&k).unwrap();
            if e.value.len() != width {
                return Result::Err(MemoryError::WidthMismatch);
            }
            data = clone_u32_vec(&e.value);
            prev_timestamp = e.timestamp;
        } else {
            let fresh = TimestampedValue { value: zero_vec(width), timestamp: 0 };
            self.image.insert(k, fresh);
            self.touched.push((address_space, pointer));
            data = zero_vec(width);
            prev_timestamp = 0;
        }
        let ts = self.timestamp;
        let log_rec = MemoryReadRecord {
            address_space,
            pointer,
            data: clone_u32_vec(&data),
            timestamp: ts,
            prev_timestamp,
        };
        self.read_log.push(log_rec);
        self.timestamp = ts + 1;
        proof {
            Self::lemma_read_preserves_wf(
                pre,
                *self,
                address_space,
                pointer,
                self.read_log@.last(),
            );
            if pre.image@.contains_key(k) {
                let idx = choose|i: int|
                    0 <= i < pre.touched@.len() && #[trigger] pre.touched_key(i) == k;
                lemma_addr_key_injective(
                    pre.touched@[idx].0,
                    pre.touched@[idx].1,
                    address_space,
                    pointer,
                );
                assert(pre.entry_at(idx) == pre.image@[k]);
            } else {
                assert forall|i: int| 0 <= i < pre.write_log@.len() implies !((
                #[trigger] pre.write_log@[i]).address_space == address_space
                    && pre.write_log@[i].pointer == pointer) by {
                    if pre.write_log@[i].address_space == address_space && pre.write_log@[i].pointer
                        == pointer {
                        assert(pre.image@.contains_key(
                            addr_key(
                                pre.write_log@[i].address_space,
                                pre.write_log@[i].pointer,
                            ),
                        ));
                    }
                }
                lemma_no_write_means_none(pre.write_log@, address_space, pointer);
            }
        }
        Result::Ok(MemoryReadRecord { address_space, pointer, data, timestamp: ts, prev_timestamp })
    }

    /// Establishes a provable initial state for an address without changing
    /// its logical value and without consuming a timestamp: an untouched
    /// address is entered into the image with the all-zero default at
    /// timestamp 0, an established one is left as it is.  This is how sparse
    /// address spaces join the audit without being read or written.
    pub fn touch_address(&mut self, address_space: u32, pointer: u32, width: usize)
        requires
            old(self).wf(),
            fe_wf(address_space),
            fe_wf(pointer),
            1 <= width,
        ensures
            final(self).wf(),
            final(self).image@.contains_key(addr_key(address_space, pointer)),
            ({
                let k = addr_key(address_space, pointer);
                if old(self).image@.contains_key(k) {
                    *final(self) == *old(self)
                } else {
                    &&& final(self).image@ =~= old(self).image@.insert(k, final(self).image@[k])
                    &&& final(self).image@[k].value@ == zero_seq(width as nat)
                    &&& final(self).image@[k].timestamp == 0
                    &&& final(self).touched@ == old(self).touched@.push((address_space, pointer))
                    &&& final(self).write_log@ == old(self).write_log@
                    &&& final(self).read_log@ == old(self).read_log@
                    &&& final(self).timestamp == old(self).timestamp
                }
            }),
    {
        broadcast use vstd::std_specs::hash::group_hash_axioms;

        let ghost pre = *self;
        let k = addr_key_u64(address_space, pointer);
        if self.image.contains_key(&k) {
            return ;
        }
        let fresh = TimestampedValue { value: zero_vec(width), timestamp: 0 };
        self.image.insert(k, fresh);
        self.touched.push((address_space, pointer));
        proof {
            Self::lemma_touch_preserves_wf(pre, *self, address_space, pointer);
        }
    }

    /// A first touch — the default value entered for a fresh address —
    /// preserves the controller invariant.
    proof fn lemma_touch_preserves_wf(pre: Self, post: Self, address_space: u32, pointer: u32)
        requires
            pre.wf(),
            fe_wf(address_space),
            fe_wf(pointer),
            ({
                let k = addr_key(address_space, pointer);
                &&& !pre.image@.contains_key(k)
                &&& post.image@ == pre.image@.insert(k, post.image@[k])
                &&& post.image@[k].value@.len() >= 1
                &&& post.image@[k].value@ == zero_seq(post.image@[k].value@.len())
                &&& post.image@[k].timestamp == 0
                &&& post.touched@ == pre.touched@.push((address_space, pointer))
                &&& post.write_log@ == pre.write_log@
                &&& post.read_log@ == pre.read_log@
                &&& post.timestamp == pre.timestamp
            }),
        ensures
            post.wf(),
    {
        let k = addr_key(address_space, pointer);
        let n = pre.touched@.len() as int;
        let stored = post.image@[k];
        assert forall|i: int| 0 <= i < pre.touched@.len() implies #[trigger] pre.touched_key(i)
            != k by {
            if pre.touched_key(i) == k {
                assert(pre.image@.contains_key(k));
            }
        }
        assert(post.touched_key(n) == k);
        assert(post.touched_wf()) by {
            assert(forall|i: int|
                0 <= i < n ==> #[trigger] post.touched_key(i) == pre.touched_key(i));
            assert(forall|i: int, j: int|
                0 <= i < j < post.touched@.len() ==> #[trigger] post.touched_key(i)
                    != #[trigger] post.touched_key(j));
            assert forall|kk: u64| post.image@.contains_key(kk) implies exists|i: int|
                0 <= i < post.touched@.len() && #[trigger] post.touched_key(i) == kk by {
                if kk == k {
                    assert(post.touched_key(n) == kk);
                } else {
                    assert(pre.image@.contains_key(kk));
                    let i = choose|i: int|
                        0 <= i < pre.touched@.len() && #[trigger] pre.touched_key(i) == kk;
                    assert(post.touched_key(i) == kk);
                }
            }
        }
        assert(post.entries_wf()) by {
            assert forall|i: int| 0 <= i < post.touched@.len() implies {
                let e = #[trigger] post.entry_at(i);
                &&& e.value@.len() >= 1
                &&& e.timestamp < post.timestamp
                &&& fe_wf(post.touched@[i].0)
                &&& fe_wf(post.touched@[i].1)
                &&& forall|j: int| 0 <= j < e.value@.len() ==> fe_wf(#[trigger] e.value@[j])
            } by {
                if i < n {
                    assert(post.entry_at(i) == pre.entry_at(i));
                    assert(pre.entry_at(i).value@.len() >= 1);
                } else {
                    assert(post.entry_at(i) == stored);
                }
            }
        }
        assert(post.last_write_coherent()) by {
            assert forall|i: int| 0 <= i < pre.write_log@.len() implies !((
            #[trigger] pre.write_log@[i]).address_space == address_space
                && pre.write_log@[i].pointer == pointer) by {
                if pre.write_log@[i].address_space == address_space && pre.write_log@[i].pointer
                    == pointer {
                    assert(pre.image@.contains_key(
                        addr_key(pre.write_log@[i].address_space, pre.write_log@[i].pointer),
                    ));
                }
            }
            lemma_no_write_means_none(pre.write_log@, address_space, pointer);
            assert forall|i: int| 0 <= i < post.touched@.len() implies {
                let sp = post.touched@[i].0;
                let ptr = post.touched@[i].1;
                let e = #[trigger] post.entry_at(i);
                match last_write_to(post.write_log@, sp, ptr) {
                    Option::Some(w) => e.value@ == w.data@ && e.timestamp == w.timestamp,
                    Option::None => e.timestamp == 0 && e.value@ == zero_seq(e.value@.len()),
                }
            } by {
                if i < n {
                    assert(post.entry_at(i) == pre.entry_at(i));
                    assert(pre.entry_at(i).value@.len() >= 1);
                } else {
                    assert(post.entry_at(i) == stored);
                }
            }
        }
        assert(post.multiset_coherent()) by {
            assert forall|i: int| 0 <= i < pre.touched@.len() implies addr_key(
                (#[trigger] pre.touched@[i]).0,
                pre.touched@[i].1,
            ) != k by {
                assert(pre.touched_key(i) != k);
            }
            lemma_multisets_insert_fresh(pre.touched@, pre.image@, k, stored);
            assert(post.touched@.drop_last() =~= pre.touched@);
            let zt = mem_tuple(address_space, pointer, zero_seq(stored.value@.len()), 0);
            assert(stored.value@ == zero_seq(stored.value@.len()));
            assert(init_multiset(post.touched@, post.image@) == init_multiset(
                pre.touched@,
                post.image@,
            ).insert(zt));
            assert(image_multiset(post.touched@, post.image@) == image_multiset(
                pre.touched@,
                post.image@,
            ).insert(zt));
            let init0 = init_multiset(pre.touched@, pre.image@);
            let img0 = image_multiset(pre.touched@, pre.image@);
            let nw0 = writes_new_multiset(pre.write_log@);
            let ow0 = writes_old_multiset(pre.write_log@);
            assert forall|x: Seq<u32>|
                init0.insert(zt).add(nw0).count(x) == ow0.add(img0.insert(zt)).count(x) by {
                assert(init0.add(nw0).count(x) == ow0.add(img0).count(x));
            }
            assert(init_multiset(post.touched@, post.image@).add(
                writes_new_multiset(post.write_log@),
            ) =~= writes_old_multiset(post.write_log@).add(
                image_multiset(post.touched@, post.image@),
            ));
        }
        assert(post.write_log_wf()) by {
            assert forall|i: int| 0 <= i < post.write_log@.len() implies {
                let w = #[trigger] post.write_log@[i];
                &&& 1 <= w.timestamp < post.timestamp
                &&& w.prev_timestamp < w.timestamp
                &&& w.data@.len() == w.prev_data@.len()
                &&& post.image@.contains_key(addr_key(w.address_space, w.pointer))
            } by {
                assert(post.write_log@[i] == pre.write_log@[i]);
            }
        }
        assert(post.read_log_wf()) by {
            assert forall|i: int| 0 <= i < post.read_log@.len() implies {
                let r = #[trigger] post.read_log@[i];
                &&& 1 <= r.timestamp < post.timestamp
                &&& r.prev_timestamp < r.timestamp
                &&& post.image@.contains_key(addr_key(r.address_space, r.pointer))
            } by {
                assert(post.read_log@[i] == pre.read_log@[i]);
            }
        }
    }

    /// What a single write to the cells at key `k` leaves of the image:
    /// every other established entry is kept, and any other newly
    /// established address holds the all-zero default at timestamp 0.
    pub open spec fn write_frame(pre: Self, post: Self, k: u64) -> bool {
        &&& forall|kk: u64|
            #[trigger] pre.image@.contains_key(kk) && kk != k ==> post.image@.contains_key(kk)
                && post.image@[kk] == pre.image@[kk]
        &&& forall|kk: u64|
            #[trigger] post.image@.contains_key(kk) && !pre.image@.contains_key(kk) && kk != k
                ==> post.image@[kk].timestamp == 0 && post.image@[kk].value@ == zero_seq(
                post.image@[kk].value@.len(),
            ) && post.image@[kk].value@.len() >= 1
    }

    /// A read frame followed by a write frame is a write frame.
    pub proof fn lemma_read_then_write_frame(a: Self, b: Self, c: Self, k: u64)
        requires
            Self::read_frame(a, b),
            Self::write_frame(b, c, k),
        ensures
            Self::write_frame(a, c, k),
    {
        assert forall|kk: u64|
            #[trigger] a.image@.contains_key(kk) && kk != k implies c.image@.contains_key(kk)
            && c.image@[kk] == a.image@[kk] by {
            assert(b.image@.contains_key(kk));
        }
        assert forall|kk: u64|
            #[trigger] c.image@.contains_key(kk) && !a.image@.contains_key(kk) && kk != k implies
            c.image@[kk].timestamp == 0 && c.image@[kk].value@ == zero_seq(
            c.image@[kk].value@.len(),
        ) && c.image@[kk].value@.len() >= 1 by {
            if b.image@.contains_key(kk) {
                assert(c.image@[kk] == b.image@[kk]);
            }
        }
    }

    /// A state is a read frame of itself.
    pub proof fn lemma_read_frame_refl(s: Self)
        ensures
            Self::read_frame(s, s),
    {
    }

        /// Read frames compose.
    pub proof fn lemma_read_frame_compose(a: Self, b: Self, c: Self)
        requires
            Self::read_frame(a, b),
            Self::read_frame(b, c),
        ensures
            Self::read_frame(a, c),
    {
        assert forall|k: u64|
            #[trigger] a.image@.contains_key(k) implies c.image@.contains_key(k) && c.image@[k]
            == a.image@[k] by {
            assert(b.image@.contains_key(k));
        }
        assert forall|k: u64|
            #[trigger] c.image@.contains_key(k) && !a.image@.contains_key(k) implies c.image@[k].timestamp
            == 0 && c.image@[k].value@ == zero_seq(c.image@[k].value@.len())
            && c.image@[k].value@.len() >= 1 by {
            if b.image@.contains_key(k) {
                assert(c.image@[k] == b.image@[k]);
            }
        }
    }

    /// Accesses that only establish defaults do not change the value any
    /// address cell observably holds.
    pub proof fn lemma_frame_preserves_pointer(pre: Self, post: Self, sp: u32, ptr: u32)
        requires
            Self::read_frame(pre, post),
        ensures
            post.prev_value_spec(sp, ptr, 1).0[0] == pre.prev_value_spec(sp, ptr, 1).0[0],
    {
        let k = addr_key(sp, ptr);
        if pre.image@.contains_key(k) {
            assert(post.image@[k] == pre.image@[k]);
            assert(post.image@.contains_key(k));
        } else if post.image@.contains_key(k) {
            assert(post.image@[k].value@.len() >= 1);
            assert(post.image@[k].value@ == zero_seq(post.image@[k].value@.len()));
            assert(post.image@[k].value@[0] == 0);
        }
    }

    /// What any fresh access observes at an address is the last write of
    /// the log to it — or the all-zero default at timestamp 0 if no write
    /// ever reached it.
    pub proof fn lemma_prev_value_is_last_write(s: Self, sp: u32, ptr: u32, w: nat)
        requires
            s.wf(),
            s.image@.contains_key(addr_key(sp, ptr)) ==> s.image@[addr_key(
                sp,
                ptr,
            )].value@.len() == w,
        ensures
            (match last_write_to(s.write_log@, sp, ptr) {
                Option::Some(wr) => s.prev_value_spec(sp, ptr, w).0 == wr.data@
                    && s.prev_value_spec(sp, ptr, w).1 == wr.timestamp,
                Option::None => s.prev_value_spec(sp, ptr, w).0 == zero_seq(w)
                    && s.prev_value_spec(sp, ptr, w).1 == 0,
            }),
    {
        let k = addr_key(sp, ptr);
        if s.image@.contains_key(k) {
            let idx = choose|i: int|
                0 <= i < s.touched@.len() && #[trigger] s.touched_key(i) == k;
            lemma_addr_key_injective(s.touched@[idx].0, s.touched@[idx].1, sp, ptr);
            assert(s.entry_at(idx) == s.image@[k]);
        } else {
            assert forall|i: int| 0 <= i < s.write_log@.len() implies !((
            #[trigger] s.write_log@[i]).address_space == sp && s.write_log@[i].pointer == ptr) by {
                if s.write_log@[i].address_space == sp && s.write_log@[i].pointer == ptr {
                    assert(s.image@.contains_key(
                        addr_key(s.write_log@[i].address_space, s.write_log@[i].pointer),
                    ));
                }
            }
            lemma_no_write_means_none(s.write_log@, sp, ptr);
        }
    }

    /// Whether an access of the given width would be accepted at an address:
    /// true unless the address is established with a different width.
    pub fn width_ok(&self, address_space: u32, pointer: u32, width: usize) -> (r: bool)
        ensures
            r == !self.width_mismatch(address_space, pointer, width as nat),
    {
        broadcast use vstd::std_specs::hash::group_hash_axioms;

        let k = addr_key_u64(address_space, pointer);
        match self.image.get(&k) {
            Option::Some(e) => e.value.len() == width,
            Option::None => true,
        }
    }

    /// The value currently observable at an address, without an access: the
    /// stored value, or the all-zero default of the given width when the
    /// address was never touched.
    pub fn peek(&self, address_space: u32, pointer: u32, width: usize) -> (r: Vec<u32>)
        requires
            !self.width_mismatch(address_space, pointer, width as nat),
        ensures
            r@ == self.prev_value_spec(address_space, pointer, width as nat).0,
            r@.len() == width,
            self.wf() ==> forall|j: int| 0 <= j < r@.len() ==> fe_wf(#[trigger] r@[j]),
    {
        broadcast use vstd::std_specs::hash::group_hash_axioms;

        let k = addr_key_u64(address_space, pointer);
        proof {
            if self.wf() && self.image@.contains_key(k) {
                let idx = choose|i: int|
                    0 <= i < self.touched@.len() && #[trigger] self.touched_key(i) == k;
                assert(self.entry_at(idx) == self.image@[k]);
            }
        }
        match self.image.get(&k) {
            Option::Some(e) => clone_u32_vec(&e.value),
            Option::None => zero_vec(width),
        }
    }

    /// Whether a logged read record equals a returned one, field for field.
    pub open spec fn read_rec_matches(a: MemoryReadRecord, b: MemoryReadRecord) -> bool {
        &&& a.address_space == b.address_space
        &&& a.pointer == b.pointer
        &&& a.data@ == b.data@
        &&& a.timestamp == b.timestamp
        &&& a.prev_timestamp == b.prev_timestamp
    }

        /// The established widths of the image: each established address mapped
    /// to the number of cells stored there.
    pub open spec fn widths_of(m: Map<u64, TimestampedValue>) -> Map<u64, nat> {
        Map::new(|k: u64| m.contains_key(k), |k: u64| m[k].value@.len())
    }

    /// How one access evolves the established widths: a fresh address is
    /// established at the access's width, an established one is unchanged.
    pub open spec fn touch_width(
        wm: Map<u64, nat>,
        address_space: u32,
        pointer: u32,
        width: nat,
    ) -> Map<u64, nat> {
        let k = addr_key(address_space, pointer);
        if wm.contains_key(k) {
            wm
        } else {
            wm.insert(k, width)
        }
    }

    /// A width mismatch against an explicit width map.
    pub open spec fn wm_mismatch(wm: Map<u64, nat>, address_space: u32, pointer: u32, width: nat) -> bool {
        let k = addr_key(address_space, pointer);
        wm.contains_key(k) && wm[k] != width
    }

    /// Whether a heap access would be refused, against an explicit width
    /// map: the address cell must be one cell wide and the pointed-at data
    /// cells — at the given pointer value — must match the requested width,
    /// counting the address cell's own establishment.
    pub open spec fn heap_wm_mismatch(
        wm: Map<u64, nat>,
        address_space: u32,
        data_space: u32,
        address_pointer: u32,
        ptr: u32,
        width: nat,
    ) -> bool {
        ||| Self::wm_mismatch(wm, address_space, address_pointer, 1)
        ||| Self::wm_mismatch(
            Self::touch_width(wm, address_space, address_pointer, 1),
            data_space,
            ptr,
            width,
        )
    }

    /// The width map a heap access leaves behind: the address cell and the
    /// pointed-at data cells both established.
    pub open spec fn heap_touch_widths(
        wm: Map<u64, nat>,
        address_space: u32,
        data_space: u32,
        address_pointer: u32,
        ptr: u32,
        width: nat,
    ) -> Map<u64, nat> {
        Self::touch_width(
            Self::touch_width(wm, address_space, address_pointer, 1),
            data_space,
            ptr,
            width,
        )
    }

    /// Establishing one entry establishes exactly its width.
    proof fn lemma_widths_insert(m: Map<u64, TimestampedValue>, k: u64, v: TimestampedValue)
        ensures
            Self::widths_of(m.insert(k, v)) == Self::widths_of(m).insert(k, v.value@.len()),
    {
        let a = Self::widths_of(m.insert(k, v));
        let b = Self::widths_of(m).insert(k, v.value@.len());
        assert forall|kk: u64| #[trigger] a.contains_key(kk) implies b.contains_key(kk) && a[kk]
            == b[kk] by {
            assert(m.insert(k, v).contains_key(kk));
        }
        assert forall|kk: u64| #[trigger] b.contains_key(kk) implies a.contains_key(kk) by {
            if kk != k {
                assert(m.contains_key(kk));
            }
        }
        assert(a =~= b);
    }

        /// A heap access is refused exactly as the width map predicts.
    pub proof fn lemma_heap_mismatch_via_widths(
        self,
        address_space: u32,
        data_space: u32,
        address_pointer: u32,
        width: nat,
    )
        ensures
            self.heap_width_mismatch(address_space, data_space, address_pointer, width)
                == Self::heap_wm_mismatch(
                Self::widths_of(self.image@),
                address_space,
                data_space,
                address_pointer,
                self.prev_value_spec(address_space, address_pointer, 1).0[0],
                width,
            ),
    {
        let ptr = self.prev_value_spec(address_space, address_pointer, 1).0[0];
        let wm = Self::widths_of(self.image@);
        let k_addr = addr_key(address_space, address_pointer);
        let k_data = addr_key(data_space, ptr);
        if k_data == k_addr {
            lemma_addr_key_injective(data_space, ptr, address_space, address_pointer);
        }
        if data_space == address_space && ptr == address_pointer {
            assert(k_data == k_addr);
        }
    }

    /// What a pair of reads leaves of the image: every established value and
    /// write timestamp is kept, and any newly established address holds the
    /// all-zero default at timestamp 0.
    pub open spec fn read_frame(pre: Self, post: Self) -> bool {
        &&& forall|k: u64|
            #[trigger] pre.image@.contains_key(k) ==> post.image@.contains_key(k)
                && post.image@[k] == pre.image@[k]
        &&& forall|k: u64|
            #[trigger] post.image@.contains_key(k) && !pre.image@.contains_key(k)
                ==> post.image@[k].timestamp == 0 && post.image@[k].value@ == zero_seq(
                post.image@[k].value@.len(),
            ) && post.image@[k].value@.len() >= 1
    }

    /// Whether a heap access through an address cell would be refused: the
    /// address cell must be one cell wide, and the pointed-at data cell must
    /// match the requested width — counting the case where the address cell
    /// itself is the data cell and was just established one cell wide.
    pub open spec fn heap_width_mismatch(
        self,
        address_space: u32,
        data_space: u32,
        address_pointer: u32,
        width: nat,
    ) -> bool {
        let ptr = self.prev_value_spec(address_space, address_pointer, 1).0[0];
        let k_data = addr_key(data_space, ptr);
        ||| self.width_mismatch(address_space, address_pointer, 1)
        ||| if data_space == address_space && ptr == address_pointer {
            width != 1
        } else {
            self.width_mismatch(data_space, ptr, width)
        }
    }

    /// Reads one address cell and then the `width` data cells it points at:
    /// the two-level access pattern of heap operands.
    pub fn read_heap(
        &mut self,
        address_space: u32,
        data_space: u32,
        address_pointer: u32,
        width: usize,
    ) -> (r: Result<MemoryHeapReadRecord, MemoryError>)
        requires
            old(self).wf(),
            old(self).timestamp + 2 <= MAX_TIMESTAMP,
            fe_wf(address_space),
            fe_wf(data_space),
            fe_wf(address_pointer),
            1 <= width,
        ensures
            final(self).wf(),
            r is Err <==> old(self).heap_width_mismatch(
                address_space,
                data_space,
                address_pointer,
                width as nat,
            ),
            r is Err ==> *final(self) == *old(self),
            r matches Ok(rec) ==> {
                let ptr = old(self).prev_value_spec(address_space, address_pointer, 1).0[0];
                &&& rec.address_read.address_space == address_space
                &&& rec.address_read.pointer == address_pointer
                &&& rec.address_read.data@.len() == 1
                &&& rec.address_read.data@[0] == ptr
                &&& rec.address_read.timestamp == old(self).timestamp
                &&& rec.address_read.prev_timestamp < rec.address_read.timestamp
                &&& (match last_write_to(old(self).write_log@, address_space, address_pointer) {
                    Option::Some(w) => rec.address_read.data@ == w.data@
                        && rec.address_read.prev_timestamp == w.timestamp,
                    Option::None => rec.address_read.data@ == zero_seq(1)
                        && rec.address_read.prev_timestamp == 0,
                })
                &&& rec.data_read.address_space == data_space
                &&& rec.data_read.pointer == ptr
                &&& rec.data_read.data@.len() == width
                &&& rec.data_read.timestamp == old(self).timestamp + 1
                &&& rec.data_read.prev_timestamp < rec.data_read.timestamp
                &&& (match last_write_to(old(self).write_log@, data_space, ptr) {
                    Option::Some(w) => rec.data_read.data@ == w.data@
                        && rec.data_read.prev_timestamp == w.timestamp,
                    Option::None => rec.data_read.data@ == zero_seq(width as nat)
                        && rec.data_read.prev_timestamp == 0,
                })
                &&& forall|j: int|
                    0 <= j < rec.data_read.data@.len() ==> fe_wf(#[trigger] rec.data_read.data@[j])
                &&& Self::read_frame(*old(self), *final(self))
                &&& forall|k: u64|
                    final(self).image@.contains_key(k) ==> old(self).image@.contains_key(k) || k
                        == addr_key(address_space, address_pointer) || k == addr_key(
                        data_space,
                        ptr,
                    )
                &&& Self::widths_of(final(self).image@) == Self::heap_touch_widths(
                    Self::widths_of(old(self).image@),
                    address_space,
                    data_space,
                    address_pointer,
                    ptr,
                    width as nat,
                )
                &&& old(self).touched@.len() <= final(self).touched@.len() <= old(
                    self,
                ).touched@.len() + 2
                &&& final(self).touched@.take(old(self).touched@.len() as int) == old(
                    self,
                ).touched@
                &&& final(self).write_log@ == old(self).write_log@
                &&& final(self).read_log@.len() == old(self).read_log@.len() + 2
                &&& forall|i: int|
                    0 <= i < old(self).read_log@.len() ==> final(self).read_log@[i] == old(
                        self,
                    ).read_log@[i]
                &&& Self::read_rec_matches(
                    final(self).read_log@[final(self).read_log@.len() - 2],
                    rec.address_read,
                )
                &&& Self::read_rec_matches(final(self).read_log@.last(), rec.data_read)
                &&& final(self).timestamp == old(self).timestamp + 2
            },
    {
        if !self.width_ok(address_space, address_pointer, 1) {
            return Result::Err(MemoryError::WidthMismatch);
        }
        let pv = self.peek(address_space, address_pointer, 1);
        let ptr = pv[0];
        if data_space == address_space && ptr == address_pointer {
            if width != 1 {
                return Result::Err(MemoryError::WidthMismatch);
            }
        } else {
            if !self.width_ok(data_space, ptr, width) {
                return Result::Err(MemoryError::WidthMismatch);
            }
        }
        let ghost pre = *self;
        let address_read = match self.read(address_space, address_pointer, 1) {
            Result::Ok(x) => x,
            Result::Err(_) => {
                proof {
                    assert(false);
                }
                return Result::Err(MemoryError::WidthMismatch);
            },
        };
        let ghost mid = *self;
        proof {
            // After the address read, the data cell's width is still what
            // the precheck saw: the touch can only have established the
            // address cell itself, one cell wide.
            let k_data = addr_key(data_space, ptr);
            let k_addr = addr_key(address_space, address_pointer);
            if k_data == k_addr {
                lemma_addr_key_injective(data_space, ptr, address_space, address_pointer);
            }
        }
        let data_read = match self.read(data_space, ptr, width) {
            Result::Ok(x) => x,
            Result::Err(_) => {
                proof {
                    assert(false);
                }
                return Result::Err(MemoryError::WidthMismatch);
            },
        };
        proof {
            Self::lemma_two_touch_frame(
                pre,
                mid,
                *self,
                address_space,
                address_pointer,
                data_space,
                ptr,
                width as nat,
            );
        }
        Result::Ok(MemoryHeapReadRecord { address_read, data_read })
    }

    /// Two accesses that at most establish defaults preserve the image
    /// frame and evolve the widths by their two touches.
    proof fn lemma_two_touch_frame(
        pre: Self,
        mid: Self,
        post: Self,
        address_space: u32,
        address_pointer: u32,
        data_space: u32,
        ptr: u32,
        width: nat,
    )
        requires
            width >= 1,
            ({
                let k1 = addr_key(address_space, address_pointer);
                &&& mid.image@ == if pre.image@.contains_key(k1) {
                    pre.image@
                } else {
                    pre.image@.insert(k1, mid.image@[k1])
                }
                &&& (!pre.image@.contains_key(k1) ==> mid.image@[k1].value@ == zero_seq(1)
                    && mid.image@[k1].timestamp == 0)
                &&& mid.touched@ == if pre.image@.contains_key(k1) {
                    pre.touched@
                } else {
                    pre.touched@.push((address_space, address_pointer))
                }
            }),
            ({
                let k2 = addr_key(data_space, ptr);
                &&& post.image@ == if mid.image@.contains_key(k2) {
                    mid.image@
                } else {
                    mid.image@.insert(k2, post.image@[k2])
                }
                &&& (!mid.image@.contains_key(k2) ==> post.image@[k2].value@ == zero_seq(width)
                    && post.image@[k2].timestamp == 0)
                &&& post.touched@ == if mid.image@.contains_key(k2) {
                    mid.touched@
                } else {
                    mid.touched@.push((data_space, ptr))
                }
            }),
        ensures
            Self::read_frame(pre, post),
            forall|k: u64|
                post.image@.contains_key(k) ==> pre.image@.contains_key(k) || k == addr_key(
                    address_space,
                    address_pointer,
                ) || k == addr_key(data_space, ptr),
            Self::widths_of(post.image@) == Self::heap_touch_widths(
                Self::widths_of(pre.image@),
                address_space,
                data_space,
                address_pointer,
                ptr,
                width,
            ),
            pre.touched@.len() <= post.touched@.len() <= pre.touched@.len() + 2,
            post.touched@.take(pre.touched@.len() as int) == pre.touched@,
    {
        let k1 = addr_key(address_space, address_pointer);
        let k2 = addr_key(data_space, ptr);
        if !pre.image@.contains_key(k1) {
            Self::lemma_widths_insert(pre.image@, k1, mid.image@[k1]);
        }
        if !mid.image@.contains_key(k2) {
            Self::lemma_widths_insert(mid.image@, k2, post.image@[k2]);
        }
        assert(Self::widths_of(mid.image@) =~= Self::touch_width(
            Self::widths_of(pre.image@),
            address_space,
            address_pointer,
            1,
        ));
        assert(Self::widths_of(post.image@) =~= Self::touch_width(
            Self::widths_of(mid.image@),
            data_space,
            ptr,
            width,
        ));
        assert(Self::widths_of(post.image@) == Self::heap_touch_widths(
            Self::widths_of(pre.image@),
            address_space,
            data_space,
            address_pointer,
            ptr,
            width,
        ));
        assert(post.touched@.take(pre.touched@.len() as int) =~= pre.touched@);
    }

    /// Reads one address cell and then writes the `width` data cells it
    /// points at: the two-level access pattern of heap results.
    pub fn write_heap(
        &mut self,
        address_space: u32,
        data_space: u32,
        address_pointer: u32,
        data: Vec<u32>,
    ) -> (r: Result<MemoryHeapWriteRecord, MemoryError>)
        requires
            old(self).wf(),
            old(self).timestamp + 2 <= MAX_TIMESTAMP,
            fe_wf(address_space),
            fe_wf(data_space),
            fe_wf(address_pointer),
            1 <= data@.len(),
            forall|j: int| 0 <= j < data@.len() ==> fe_wf(#[trigger] data@[j]),
        ensures
            final(self).wf(),
            r is Err <==> old(self).heap_width_mismatch(
                address_space,
                data_space,
                address_pointer,
                data@.len(),
            ),
            r is Err ==> *final(self) == *old(self),
            r matches Ok(rec) ==> {
                let ptr = old(self).prev_value_spec(address_space, address_pointer, 1).0[0];
                let k = addr_key(data_space, ptr);
                &&& rec.address_read.address_space == address_space
                &&& rec.address_read.pointer == address_pointer
                &&& rec.address_read.data@.len() == 1
                &&& rec.address_read.data@[0] == ptr
                &&& rec.address_read.timestamp == old(self).timestamp
                &&& (match last_write_to(old(self).write_log@, address_space, address_pointer) {
                    Option::Some(w) => rec.address_read.data@ == w.data@
                        && rec.address_read.prev_timestamp == w.timestamp,
                    Option::None => rec.address_read.data@ == zero_seq(1)
                        && rec.address_read.prev_timestamp == 0,
                })
                &&& rec.data_write.address_space == data_space
                &&& rec.data_write.pointer == ptr
                &&& rec.data_write.data@ == data@
                &&& rec.data_write.timestamp == old(self).timestamp + 1
                &&& rec.data_write.prev_timestamp < rec.data_write.timestamp
                &&& (match last_write_to(old(self).write_log@, data_space, ptr) {
                    Option::Some(w) => rec.data_write.prev_data@ == w.data@
                        && rec.data_write.prev_timestamp == w.timestamp,
                    Option::None => rec.data_write.prev_data@ == zero_seq(data@.len())
                        && rec.data_write.prev_timestamp == 0,
                })
                &&& final(self).image@.contains_key(k)
                &&& final(self).image@[k].value@ == data@
                &&& final(self).image@[k].timestamp == old(self).timestamp + 1
                &&& Self::write_frame(*old(self), *final(self), k)
                &&& forall|kk: u64|
                    #[trigger] final(self).image@.contains_key(kk)
                        ==> old(self).image@.contains_key(kk) || kk == addr_key(
                        address_space,
                        address_pointer,
                    ) || kk == k
                &&& Self::widths_of(final(self).image@) == Self::heap_touch_widths(
                    Self::widths_of(old(self).image@),
                    address_space,
                    data_space,
                    address_pointer,
                    ptr,
                    data@.len(),
                )
                &&& old(self).touched@.len() <= final(self).touched@.len() <= old(
                    self,
                ).touched@.len() + 2
                &&& final(self).touched@.take(old(self).touched@.len() as int) == old(
                    self,
                ).touched@
                &&& final(self).timestamp == old(self).timestamp + 2
                &&& final(self).write_log@.len() == old(self).write_log@.len() + 1
                &&& forall|i: int|
                    0 <= i < old(self).write_log@.len() ==> final(self).write_log@[i] == old(
                        self,
                    ).write_log@[i]
                &&& ({
                    let w = final(self).write_log@.last();
                    w.address_space == data_space && w.pointer == ptr && w.data@ == data@
                        && w.prev_data@ == rec.data_write.prev_data@ && w.prev_timestamp
                        == rec.data_write.prev_timestamp && w.timestamp == rec.data_write.timestamp
                })
                &&& final(self).read_log@.len() == old(self).read_log@.len() + 1
                &&& forall|i: int|
                    0 <= i < old(self).read_log@.len() ==> final(self).read_log@[i] == old(
                        self,
                    ).read_log@[i]
                &&& Self::read_rec_matches(final(self).read_log@.last(), rec.address_read)
            },
    {
        if !self.width_ok(address_space, address_pointer, 1) {
            return Result::Err(MemoryError::WidthMismatch);
        }
        let pv = self.peek(address_space, address_pointer, 1);
        let ptr = pv[0];
        if data_space == address_space && ptr == address_pointer {
            if data.len() != 1 {
                return Result::Err(MemoryError::WidthMismatch);
            }
        } else {
            if !self.width_ok(data_space, ptr, data.len()) {
                return Result::Err(MemoryError::WidthMismatch);
            }
        }
        let ghost pre = *self;
        let address_read = match self.read(address_space, address_pointer, 1) {
            Result::Ok(x) => x,
            Result::Err(_) => {
                proof {
                    assert(false);
                }
                return Result::Err(MemoryError::WidthMismatch);
            },
        };
        let ghost mid = *self;
        proof {
            let k_data = addr_key(data_space, ptr);
            let k_addr = addr_key(address_space, address_pointer);
            if k_data == k_addr {
                lemma_addr_key_injective(data_space, ptr, address_space, address_pointer);
            }
        }
        let data_write = match self.write(data_space, ptr, data) {
            Result::Ok(x) => x,
            Result::Err(_) => {
                proof {
                    assert(false);
                }
                return Result::Err(MemoryError::WidthMismatch);
            },
        };
        proof {
            // The prior value the write observed is the last write of the
            // log, which the address read left unchanged.
            let k2 = addr_key(data_space, ptr);
            if mid.image@.contains_key(k2) {
                let idx = choose|i: int|
                    0 <= i < mid.touched@.len() && #[trigger] mid.touched_key(i) == k2;
                lemma_addr_key_injective(
                    mid.touched@[idx].0,
                    mid.touched@[idx].1,
                    data_space,
                    ptr,
                );
                assert(mid.entry_at(idx) == mid.image@[k2]);
            } else {
                assert forall|i: int| 0 <= i < mid.write_log@.len() implies !((
                #[trigger] mid.write_log@[i]).address_space == data_space
                    && mid.write_log@[i].pointer == ptr) by {
                    if mid.write_log@[i].address_space == data_space && mid.write_log@[i].pointer
                        == ptr {
                        assert(mid.image@.contains_key(
                            addr_key(mid.write_log@[i].address_space, mid.write_log@[i].pointer),
                        ));
                    }
                }
                lemma_no_write_means_none(mid.write_log@, data_space, ptr);
            }
            Self::lemma_touch_then_write_frame(
                pre,
                mid,
                *self,
                address_space,
                address_pointer,
                data_space,
                ptr,
                data_write.data@.len(),
            );
        }
        Result::Ok(MemoryHeapWriteRecord { address_read, data_write })
    }

    /// A possible touch of the address cell followed by a write of the data
    /// cells preserves every other entry and evolves the widths by the two
    /// touches.
    proof fn lemma_touch_then_write_frame(
        pre: Self,
        mid: Self,
        post: Self,
        address_space: u32,
        address_pointer: u32,
        data_space: u32,
        ptr: u32,
        width: nat,
    )
        requires
            ({
                let k1 = addr_key(address_space, address_pointer);
                &&& mid.image@ == if pre.image@.contains_key(k1) {
                    pre.image@
                } else {
                    pre.image@.insert(k1, mid.image@[k1])
                }
                &&& (!pre.image@.contains_key(k1) ==> mid.image@[k1].value@ == zero_seq(1)
                    && mid.image@[k1].timestamp == 0)
                &&& mid.touched@ == if pre.image@.contains_key(k1) {
                    pre.touched@
                } else {
                    pre.touched@.push((address_space, address_pointer))
                }
            }),
            ({
                let k2 = addr_key(data_space, ptr);
                &&& post.image@ == mid.image@.insert(k2, post.image@[k2])
                &&& post.image@[k2].value@.len() == width
                &&& (mid.image@.contains_key(k2) ==> mid.image@[k2].value@.len() == width)
                &&& post.touched@ == if mid.image@.contains_key(k2) {
                    mid.touched@
                } else {
                    mid.touched@.push((data_space, ptr))
                }
            }),
        ensures
            Self::write_frame(pre, post, addr_key(data_space, ptr)),
            forall|k: u64|
                #[trigger] post.image@.contains_key(k) ==> pre.image@.contains_key(k) || k
                    == addr_key(address_space, address_pointer) || k == addr_key(data_space, ptr),
            Self::widths_of(post.image@) == Self::heap_touch_widths(
                Self::widths_of(pre.image@),
                address_space,
                data_space,
                address_pointer,
                ptr,
                width,
            ),
            pre.touched@.len() <= post.touched@.len() <= pre.touched@.len() + 2,
            post.touched@.take(pre.touched@.len() as int) == pre.touched@,
    {
        let k1 = addr_key(address_space, address_pointer);
        let k2 = addr_key(data_space, ptr);
        if !pre.image@.contains_key(k1) {
            Self::lemma_widths_insert(pre.image@, k1, mid.image@[k1]);
        }
        Self::lemma_widths_insert(mid.image@, k2, post.image@[k2]);
        assert(Self::widths_of(mid.image@) =~= Self::touch_width(
            Self::widths_of(pre.image@),
            address_space,
            address_pointer,
            1,
        ));
        assert(Self::widths_of(post.image@) =~= Self::touch_width(
            Self::widths_of(mid.image@),
            data_space,
            ptr,
            width,
        ));
        assert(Self::widths_of(post.image@) == Self::heap_touch_widths(
            Self::widths_of(pre.image@),
            address_space,
            data_space,
            address_pointer,
            ptr,
            width,
        ));
        assert(post.touched@.take(pre.touched@.len() as int) =~= pre.touched@);
    }

    /// One read — of an established address or a first touch of a fresh one —
    /// preserves the controller invariant.
    proof fn lemma_read_preserves_wf(
        pre: Self,
        post: Self,
        address_space: u32,
        pointer: u32,
        rec: MemoryReadRecord,
    )
        requires
            pre.wf(),
            pre.timestamp < MAX_TIMESTAMP,
            fe_wf(address_space),
            fe_wf(pointer),
            rec.address_space == address_space,
            rec.pointer == pointer,
            rec.timestamp == pre.timestamp,
            1 <= rec.data@.len(),
            ({
                let k = addr_key(address_space, pointer);
                let was = pre.image@.contains_key(k);
                &&& (was ==> post.image@ == pre.image@ && post.touched@ == pre.touched@
                    && rec.data@ == pre.image@[k].value@ && rec.prev_timestamp
                    == pre.image@[k].timestamp)
                &&& (!was ==> post.image@ == pre.image@.insert(k, post.image@[k])
                    && post.image@[k].value@ == zero_seq(rec.data@.len())
                    && post.image@[k].timestamp == 0 && post.touched@ == pre.touched@.push(
                    (address_space, pointer),
                ) && rec.prev_timestamp == 0)
                &&& post.write_log@ == pre.write_log@
                &&& post.read_log@ == pre.read_log@.push(rec)
                &&& post.timestamp == pre.timestamp + 1
            }),
        ensures
            post.wf(),
    {
        let k = addr_key(address_space, pointer);
        let was = pre.image@.contains_key(k);
        let log = pre.write_log@;
        if was {
            let idx = choose|i: int|
                0 <= i < pre.touched@.len() && #[trigger] pre.touched_key(i) == k;
            assert(pre.entry_at(idx) == pre.image@[k]);
            assert(post.touched_wf()) by {
                assert(forall|i: int|
                    0 <= i < post.touched@.len() ==> #[trigger] post.touched_key(i)
                        == pre.touched_key(i));
                assert forall|kk: u64| post.image@.contains_key(kk) implies exists|i: int|
                    0 <= i < post.touched@.len() && #[trigger] post.touched_key(i) == kk by {
                    let i = choose|i: int|
                        0 <= i < pre.touched@.len() && #[trigger] pre.touched_key(i) == kk;
                    assert(post.touched_key(i) == kk);
                }
            }
            assert(post.entries_wf()) by {
                assert forall|i: int| 0 <= i < post.touched@.len() implies {
                    let e = #[trigger] post.entry_at(i);
                    &&& e.value@.len() >= 1
                    &&& e.timestamp < post.timestamp
                    &&& fe_wf(post.touched@[i].0)
                    &&& fe_wf(post.touched@[i].1)
                    &&& forall|j: int| 0 <= j < e.value@.len() ==> fe_wf(#[trigger] e.value@[j])
                } by {
                    assert(post.entry_at(i) == pre.entry_at(i));
                    assert(pre.entry_at(i).value@.len() >= 1);
                }
            }
            assert(post.last_write_coherent()) by {
                assert forall|i: int| 0 <= i < post.touched@.len() implies {
                    let sp = post.touched@[i].0;
                    let ptr = post.touched@[i].1;
                    let e = #[trigger] post.entry_at(i);
                    match last_write_to(post.write_log@, sp, ptr) {
                        Option::Some(w) => e.value@ == w.data@ && e.timestamp == w.timestamp,
                        Option::None => e.timestamp == 0 && e.value@ == zero_seq(e.value@.len()),
                    }
                } by {
                    assert(post.entry_at(i) == pre.entry_at(i));
                    assert(pre.entry_at(i).value@.len() >= 1);
                }
            }
            assert(post.multiset_coherent());
        } else {
            let n = pre.touched@.len() as int;
            let stored = post.image@[k];
            assert forall|i: int| 0 <= i < pre.touched@.len() implies #[trigger] pre.touched_key(i)
                != k by {
                if pre.touched_key(i) == k {
                    assert(pre.image@.contains_key(k));
                }
            }
            assert(post.touched_wf()) by {
                assert(forall|i: int|
                    0 <= i < n ==> #[trigger] post.touched_key(i) == pre.touched_key(i));
                assert(post.touched_key(n) == k);
                assert(forall|i: int, j: int|
                    0 <= i < j < post.touched@.len() ==> #[trigger] post.touched_key(i)
                        != #[trigger] post.touched_key(j));
                assert forall|kk: u64| post.image@.contains_key(kk) implies exists|i: int|
                    0 <= i < post.touched@.len() && #[trigger] post.touched_key(i) == kk by {
                    if kk == k {
                        assert(post.touched_key(n) == kk);
                    } else {
                        assert(pre.image@.contains_key(kk));
                        let i = choose|i: int|
                            0 <= i < pre.touched@.len() && #[trigger] pre.touched_key(i) == kk;
                        assert(post.touched_key(i) == kk);
                    }
                }
            }
            assert(post.entries_wf()) by {
                assert forall|i: int| 0 <= i < post.touched@.len() implies {
                    let e = #[trigger] post.entry_at(i);
                    &&& e.value@.len() >= 1
                    &&& e.timestamp < post.timestamp
                    &&& fe_wf(post.touched@[i].0)
                    &&& fe_wf(post.touched@[i].1)
                    &&& forall|j: int| 0 <= j < e.value@.len() ==> fe_wf(#[trigger] e.value@[j])
                } by {
                    if i < n {
                        assert(post.entry_at(i) == pre.entry_at(i));
                        assert(pre.entry_at(i).value@.len() >= 1);
                    } else {
                        assert(post.entry_at(i) == stored);
                    }
                }
            }
            assert(post.last_write_coherent()) by {
                assert forall|i: int| 0 <= i < pre.write_log@.len() implies !((
                #[trigger] pre.write_log@[i]).address_space == address_space
                    && pre.write_log@[i].pointer == pointer) by {
                    if pre.write_log@[i].address_space == address_space && pre.write_log@[i].pointer
                        == pointer {
                        assert(pre.image@.contains_key(
                            addr_key(
                                pre.write_log@[i].address_space,
                                pre.write_log@[i].pointer,
                            ),
                        ));
                    }
                }
                lemma_no_write_means_none(pre.write_log@, address_space, pointer);
                assert forall|i: int| 0 <= i < post.touched@.len() implies {
                    let sp = post.touched@[i].0;
                    let ptr = post.touched@[i].1;
                    let e = #[trigger] post.entry_at(i);
                    match last_write_to(post.write_log@, sp, ptr) {
                        Option::Some(w) => e.value@ == w.data@ && e.timestamp == w.timestamp,
                        Option::None => e.timestamp == 0 && e.value@ == zero_seq(e.value@.len()),
                    }
                } by {
                    let sp = post.touched@[i].0;
                    let ptr = post.touched@[i].1;
                    if i < n {
                        assert(post.entry_at(i) == pre.entry_at(i));
                        assert(pre.entry_at(i).value@.len() >= 1);
                    } else {
                        assert(sp == address_space && ptr == pointer);
                        assert(post.entry_at(i) == stored);
                        assert(stored.value@ == zero_seq(stored.value@.len()));
                    }
                }
            }
            assert(post.multiset_coherent()) by {
                assert forall|i: int| 0 <= i < pre.touched@.len() implies addr_key(
                    (#[trigger] pre.touched@[i]).0,
                    pre.touched@[i].1,
                ) != k by {
                    assert(pre.touched_key(i) != k);
                }
                lemma_multisets_insert_fresh(pre.touched@, pre.image@, k, stored);
                assert(post.touched@.drop_last() =~= pre.touched@);
                let zt = mem_tuple(address_space, pointer, zero_seq(stored.value@.len()), 0);
                assert(stored.value@ == zero_seq(stored.value@.len()));
                assert(init_multiset(post.touched@, post.image@) == init_multiset(
                    pre.touched@,
                    post.image@,
                ).insert(zt));
                assert(image_multiset(post.touched@, post.image@) == image_multiset(
                    pre.touched@,
                    post.image@,
                ).insert(zt));
                let init0 = init_multiset(pre.touched@, pre.image@);
                let img0 = image_multiset(pre.touched@, pre.image@);
                let nw0 = writes_new_multiset(log);
                let ow0 = writes_old_multiset(log);
                assert forall|x: Seq<u32>|
                    init0.insert(zt).add(nw0).count(x) == ow0.add(img0.insert(zt)).count(x) by {
                    assert(init0.add(nw0).count(x) == ow0.add(img0).count(x));
                }
                assert(init_multiset(post.touched@, post.image@).add(
                    writes_new_multiset(post.write_log@),
                ) =~= writes_old_multiset(post.write_log@).add(
                    image_multiset(post.touched@, post.image@),
                ));
            }
        }
        assert(post.write_log_wf()) by {
            assert forall|i: int| 0 <= i < post.write_log@.len() implies {
                let w = #[trigger] post.write_log@[i];
                &&& 1 <= w.timestamp < post.timestamp
                &&& w.prev_timestamp < w.timestamp
                &&& w.data@.len() == w.prev_data@.len()
                &&& post.image@.contains_key(addr_key(w.address_space, w.pointer))
            } by {
                assert(post.write_log@[i] == pre.write_log@[i]);
            }
        }
        assert(rec.prev_timestamp < rec.timestamp) by {
            if was {
                let idx = choose|i: int|
                    0 <= i < pre.touched@.len() && #[trigger] pre.touched_key(i) == k;
                assert(pre.entry_at(idx) == pre.image@[k]);
                assert(pre.entry_at(idx).timestamp < pre.timestamp);
            }
        }
        assert(post.read_log_wf()) by {
            assert forall|i: int| 0 <= i < post.read_log@.len() implies {
                let r = #[trigger] post.read_log@[i];
                &&& 1 <= r.timestamp < post.timestamp
                &&& r.prev_timestamp < r.timestamp
                &&& post.image@.contains_key(addr_key(r.address_space, r.pointer))
            } by {
                if i < pre.read_log@.len() {
                    assert(post.read_log@[i] == pre.read_log@[i]);
                } else {
                    assert(post.read_log@[i] == rec);
                }
            }
        }
    }

    /// One write — overwriting an established address or establishing a new
    /// one — preserves the controller invariant.
    proof fn lemma_write_preserves_wf(
        pre: Self,
        post: Self,
        address_space: u32,
        pointer: u32,
        rec: MemoryWriteRecord,
    )
        requires
            pre.wf(),
            pre.timestamp < MAX_TIMESTAMP,
            fe_wf(address_space),
            fe_wf(pointer),
            rec.address_space == address_space,
            rec.pointer == pointer,
            rec.timestamp == pre.timestamp,
            1 <= rec.data@.len(),
            forall|j: int| 0 <= j < rec.data@.len() ==> fe_wf(#[trigger] rec.data@[j]),
            ({
                let k = addr_key(address_space, pointer);
                let was = pre.image@.contains_key(k);
                &&& (was ==> pre.image@[k].value@.len() == rec.data@.len() && rec.prev_data@
                    == pre.image@[k].value@ && rec.prev_timestamp == pre.image@[k].timestamp)
                &&& (!was ==> rec.prev_data@ == zero_seq(rec.data@.len()) && rec.prev_timestamp
                    == 0)
                &&& post.image@ == pre.image@.insert(k, post.image@[k])
                &&& post.image@[k].value@ == rec.data@
                &&& post.image@[k].timestamp == rec.timestamp
                &&& post.touched@ == if was {
                    pre.touched@
                } else {
                    pre.touched@.push((address_space, pointer))
                }
                &&& post.write_log@ == pre.write_log@.push(rec)
                &&& post.read_log@ == pre.read_log@
                &&& post.timestamp == pre.timestamp + 1
            }),
        ensures
            post.wf(),
    {
        let k = addr_key(address_space, pointer);
        let was = pre.image@.contains_key(k);
        let stored = post.image@[k];
        let log = pre.write_log@;
        let new_tuple = mem_tuple(address_space, pointer, rec.data@, rec.timestamp);
        let old_tuple = mem_tuple(address_space, pointer, rec.prev_data@, rec.prev_timestamp);
        assert(post.write_log@.drop_last() =~= log);
        assert(writes_new_multiset(post.write_log@) == writes_new_multiset(log).insert(new_tuple));
        assert(writes_old_multiset(post.write_log@) == writes_old_multiset(log).insert(old_tuple));

        // Old touched keys differ from k exactly when the address was fresh.
        if !was {
            assert forall|i: int| 0 <= i < pre.touched@.len() implies #[trigger] pre.touched_key(i)
                != k by {
                if pre.touched_key(i) == k {
                    assert(pre.image@.contains_key(k));
                }
            }
        }
        // Identify the unique old index carrying key k, if established.
        if was {
            let idx = choose|i: int|
                0 <= i < pre.touched@.len() && #[trigger] pre.touched_key(i) == k;
            assert(pre.touched_key(idx) == k);
            lemma_addr_key_injective(
                pre.touched@[idx].0,
                pre.touched@[idx].1,
                address_space,
                pointer,
            );
            assert(pre.touched@[idx] == (address_space, pointer));

            // touched_wf: unchanged list, domain gains nothing new.
            assert(post.touched_wf()) by {
                assert(forall|i: int|
                    0 <= i < post.touched@.len() ==> #[trigger] post.touched_key(i)
                        == pre.touched_key(i));
                assert forall|kk: u64| post.image@.contains_key(kk) implies exists|i: int|
                    0 <= i < post.touched@.len() && #[trigger] post.touched_key(i) == kk by {
                    if kk == k {
                        assert(post.touched_key(idx) == kk);
                    } else {
                        assert(pre.image@.contains_key(kk));
                        let i = choose|i: int|
                            0 <= i < pre.touched@.len() && #[trigger] pre.touched_key(i) == kk;
                        assert(post.touched_key(i) == kk);
                    }
                }
            }

            assert(post.entries_wf()) by {
                assert forall|i: int| 0 <= i < post.touched@.len() implies {
                    let e = #[trigger] post.entry_at(i);
                    &&& e.value@.len() >= 1
                    &&& e.timestamp < post.timestamp
                    &&& fe_wf(post.touched@[i].0)
                    &&& fe_wf(post.touched@[i].1)
                    &&& forall|j: int| 0 <= j < e.value@.len() ==> fe_wf(#[trigger] e.value@[j])
                } by {
                    assert(pre.entry_at(i).value@.len() >= 1);
                    if post.touched_key(i) == k {
                        assert(post.entry_at(i) == stored);
                    } else {
                        assert(post.entry_at(i) == pre.entry_at(i));
                    }
                }
            }

            assert(post.last_write_coherent()) by {
                assert forall|i: int| 0 <= i < post.touched@.len() implies {
                    let sp = post.touched@[i].0;
                    let ptr = post.touched@[i].1;
                    let e = #[trigger] post.entry_at(i);
                    match last_write_to(post.write_log@, sp, ptr) {
                        Option::Some(w) => e.value@ == w.data@ && e.timestamp == w.timestamp,
                        Option::None => e.timestamp == 0 && e.value@ == zero_seq(e.value@.len()),
                    }
                } by {
                    let sp = post.touched@[i].0;
                    let ptr = post.touched@[i].1;
                    lemma_last_write_append(log, rec, sp, ptr);
                    if post.touched_key(i) == k {
                        assert(i == idx) by {
                            if i != idx {
                                assert(pre.touched_key(i) != pre.touched_key(idx));
                            }
                        }
                        assert(sp == address_space && ptr == pointer);
                        assert(post.entry_at(i) == stored);
                    } else {
                        assert(!(sp == address_space && ptr == pointer)) by {
                            if sp == address_space && ptr == pointer {
                                assert(post.touched_key(i) == k);
                            }
                        }
                        assert(post.entry_at(i) == pre.entry_at(i));
                        assert(pre.entry_at(i).value@.len() >= 1);
                    }
                }
            }

            assert(post.multiset_coherent()) by {
                lemma_init_multiset_same_width(pre.touched@, pre.image@, k, stored);
                assert forall|i: int|
                    0 <= i < pre.touched@.len() && i != idx implies addr_key(
                    (#[trigger] pre.touched@[i]).0,
                    pre.touched@[i].1,
                ) != k by {
                    assert(pre.touched_key(i) != pre.touched_key(idx));
                }
                lemma_image_multiset_swap(pre.touched@, pre.image@, k, stored, idx);
                let init0 = init_multiset(pre.touched@, pre.image@);
                let img0 = image_multiset(pre.touched@, pre.image@);
                let img1 = image_multiset(post.touched@, post.image@);
                let nw0 = writes_new_multiset(log);
                let ow0 = writes_old_multiset(log);
                assert(img1.insert(old_tuple) == img0.insert(new_tuple));
                assert forall|x: Seq<u32>|
                    init0.add(nw0.insert(new_tuple)).count(x) == ow0.insert(old_tuple).add(
                        img1,
                    ).count(x) by {
                    assert(init0.add(nw0).count(x) == ow0.add(img0).count(x));
                    assert(img1.insert(old_tuple).count(x) == img0.insert(new_tuple).count(x));
                }
                assert(init_multiset(post.touched@, post.image@).add(
                    writes_new_multiset(post.write_log@),
                ) =~= writes_old_multiset(post.write_log@).add(
                    image_multiset(post.touched@, post.image@),
                ));
            }
        } else {
            let n = pre.touched@.len() as int;
            assert(post.touched@[n] == (address_space, pointer));
            assert(post.touched_key(n) == k);

            assert(post.touched_wf()) by {
                assert(forall|i: int|
                    0 <= i < n ==> #[trigger] post.touched_key(i) == pre.touched_key(i));
                assert(forall|i: int, j: int|
                    0 <= i < j < post.touched@.len() ==> #[trigger] post.touched_key(i)
                        != #[trigger] post.touched_key(j));
                assert forall|kk: u64| post.image@.contains_key(kk) implies exists|i: int|
                    0 <= i < post.touched@.len() && #[trigger] post.touched_key(i) == kk by {
                    if kk == k {
                        assert(post.touched_key(n) == kk);
                    } else {
                        assert(pre.image@.contains_key(kk));
                        let i = choose|i: int|
                            0 <= i < pre.touched@.len() && #[trigger] pre.touched_key(i) == kk;
                        assert(post.touched_key(i) == kk);
                    }
                }
            }

            assert(post.entries_wf()) by {
                assert forall|i: int| 0 <= i < post.touched@.len() implies {
                    let e = #[trigger] post.entry_at(i);
                    &&& e.value@.len() >= 1
                    &&& e.timestamp < post.timestamp
                    &&& fe_wf(post.touched@[i].0)
                    &&& fe_wf(post.touched@[i].1)
                    &&& forall|j: int| 0 <= j < e.value@.len() ==> fe_wf(#[trigger] e.value@[j])
                } by {
                    if i < n {
                        assert(post.entry_at(i) == pre.entry_at(i));
                        assert(pre.entry_at(i).value@.len() >= 1);
                    } else {
                        assert(post.entry_at(i) == stored);
                    }
                }
            }

            assert(post.last_write_coherent()) by {
                assert forall|i: int| 0 <= i < post.touched@.len() implies {
                    let sp = post.touched@[i].0;
                    let ptr = post.touched@[i].1;
                    let e = #[trigger] post.entry_at(i);
                    match last_write_to(post.write_log@, sp, ptr) {
                        Option::Some(w) => e.value@ == w.data@ && e.timestamp == w.timestamp,
                        Option::None => e.timestamp == 0 && e.value@ == zero_seq(e.value@.len()),
                    }
                } by {
                    let sp = post.touched@[i].0;
                    let ptr = post.touched@[i].1;
                    lemma_last_write_append(log, rec, sp, ptr);
                    if i < n {
                        assert(post.touched_key(i) == pre.touched_key(i));
                        assert(pre.touched_key(i) != k) by {
                            if pre.touched_key(i) == k {
                                assert(pre.image@.contains_key(k));
                            }
                        }
                        assert(!(sp == address_space && ptr == pointer)) by {
                            if sp == address_space && ptr == pointer {
                                assert(pre.touched_key(i) == k);
                            }
                        }
                        assert(post.entry_at(i) == pre.entry_at(i));
                        assert(pre.entry_at(i).value@.len() >= 1);
                    } else {
                        assert(sp == address_space && ptr == pointer);
                        assert(post.entry_at(i) == stored);
                    }
                }
            }

            assert(post.multiset_coherent()) by {
                assert forall|i: int| 0 <= i < pre.touched@.len() implies addr_key(
                    (#[trigger] pre.touched@[i]).0,
                    pre.touched@[i].1,
                ) != k by {
                    assert(pre.touched_key(i) != k);
                }
                lemma_multisets_insert_fresh(pre.touched@, pre.image@, k, stored);
                assert(post.touched@.drop_last() =~= pre.touched@);
                let zt = mem_tuple(
                    address_space,
                    pointer,
                    zero_seq(post.image@[k].value@.len()),
                    0,
                );
                assert(old_tuple == zt);
                let init0 = init_multiset(pre.touched@, pre.image@);
                let img0 = image_multiset(pre.touched@, pre.image@);
                let nw0 = writes_new_multiset(log);
                let ow0 = writes_old_multiset(log);
                assert(init_multiset(post.touched@, post.image@) == init_multiset(
                    pre.touched@,
                    post.image@,
                ).insert(zt));
                assert(image_multiset(post.touched@, post.image@) == image_multiset(
                    pre.touched@,
                    post.image@,
                ).insert(new_tuple));
                assert forall|x: Seq<u32>|
                    init0.insert(zt).add(nw0.insert(new_tuple)).count(x) == ow0.insert(
                        old_tuple,
                    ).add(img0.insert(new_tuple)).count(x) by {
                    assert(init0.add(nw0).count(x) == ow0.add(img0).count(x));
                }
                assert(init_multiset(post.touched@, post.image@).add(
                    writes_new_multiset(post.write_log@),
                ) =~= writes_old_multiset(post.write_log@).add(
                    image_multiset(post.touched@, post.image@),
                ));
            }
        }
        // The appended record extends the strictly increasing timestamp
        // order, and its old timestamp precedes its new one.
        assert(rec.prev_timestamp < rec.timestamp) by {
            if was {
                let idx = choose|i: int|
                    0 <= i < pre.touched@.len() && #[trigger] pre.touched_key(i) == k;
                assert(pre.entry_at(idx) == pre.image@[k]);
                assert(pre.entry_at(idx).timestamp < pre.timestamp);
            }
        }
        assert(post.write_log_wf()) by {
            assert forall|i: int| 0 <= i < post.write_log@.len() implies {
                let w = #[trigger] post.write_log@[i];
                &&& 1 <= w.timestamp < post.timestamp
                &&& w.prev_timestamp < w.timestamp
                &&& w.data@.len() == w.prev_data@.len()
                &&& post.image@.contains_key(addr_key(w.address_space, w.pointer))
            } by {
                if i < log.len() {
                    assert(post.write_log@[i] == log[i]);
                } else {
                    assert(post.write_log@[i] == rec);
                }
            }
            assert forall|i: int, j: int|
                0 <= i < j < post.write_log@.len() implies (#[trigger] post.write_log@[i]).timestamp
                < (#[trigger] post.write_log@[j]).timestamp by {
                if j < log.len() {
                    assert(log[i].timestamp < log[j].timestamp);
                } else {
                    assert(post.write_log@[j] == rec);
                    if i < log.len() {
                        assert(log[i].timestamp < pre.timestamp);
                    }
                }
            }
        }
        assert(post.read_log_wf()) by {
            assert forall|i: int| 0 <= i < post.read_log@.len() implies {
                let r = #[trigger] post.read_log@[i];
                &&& 1 <= r.timestamp < post.timestamp
                &&& r.prev_timestamp < r.timestamp
                &&& post.image@.contains_key(addr_key(r.address_space, r.pointer))
            } by {
                assert(post.read_log@[i] == pre.read_log@[i]);
            }
        }
    }
}


/// Reads observe the most recent write: in any reachable controller state,
/// every established address holds exactly the value of the last write to
/// it, stamped with that write's timestamp — or the all-zero default at
/// timestamp 0 when no write ever reached it.  Together with the contract of
/// [`MemoryController::read`], a read returns the value of the last write
/// with a timestamp strictly below its own.
pub proof fn lemma_read_observes_last_write(s: MemoryController, i: int)
    requires
        s.wf(),
        0 <= i < s.touched@.len(),
    ensures
        ({
            let sp = s.touched@[i].0;
            let ptr = s.touched@[i].1;
            let e = s.image@[addr_key(sp, ptr)];
            match last_write_to(s.write_log@, sp, ptr) {
                Option::Some(w) => e.value@ == w.data@ && e.timestamp == w.timestamp
                    && w.timestamp < s.timestamp,
                Option::None => e.timestamp == 0 && e.value@ == zero_seq(e.value@.len()),
            }
        }),
{
    assert(s.entry_at(i) == s.image@[addr_key(s.touched@[i].0, s.touched@[i].1)]);
    let sp = s.touched@[i].0;
    let ptr = s.touched@[i].1;
    if last_write_to(s.write_log@, sp, ptr) is Some {
        lemma_last_write_in_log(s.write_log@, sp, ptr);
    }
}

/// The last write to an address, when there is one, is a member of the log.
pub proof fn lemma_last_write_in_log(log: Seq<MemoryWriteRecord>, address_space: u32, pointer: u32)
    requires
        last_write_to(log, address_space, pointer) is Some,
    ensures
        exists|i: int|
            0 <= i < log.len() && #[trigger] log[i] == last_write_to(
                log,
                address_space,
                pointer,
            ).unwrap(),
    decreases log.len(),
{
    if log.last().address_space == address_space && log.last().pointer == pointer {
        assert(log[log.len() - 1] == last_write_to(log, address_space, pointer).unwrap());
    } else {
        lemma_last_write_in_log(log.drop_last(), address_space, pointer);
        let i = choose|i: int|
            0 <= i < log.len() - 1 && #[trigger] log.drop_last()[i] == last_write_to(
                log.drop_last(),
                address_space,
                pointer,
            ).unwrap();
        assert(log[i] == last_write_to(log, address_space, pointer).unwrap());
    }
}

/// The offline-checking closure: for any reachable controller state, the
/// initial image together with all write new-values equals all write
/// old-values together with the final image, as multisets of
/// (address, value, timestamp) tuples.
pub proof fn lemma_memory_multiset_invariant(s: MemoryController)
    requires
        s.wf(),
    ensures
        init_multiset(s.touched@, s.image@).add(writes_new_multiset(s.write_log@))
            == writes_old_multiset(s.write_log@).add(image_multiset(s.touched@, s.image@)),
{
}

} // verus!
