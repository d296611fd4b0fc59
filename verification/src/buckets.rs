use vstd::prelude::*;
use crate::principal::{CanisterId, KeyEq, UserId};
use crate::types::Version;
use crate::vec_map::VecMap;

verus! {

/// A change about users that a bucket must be told of.
#[derive(Clone, Copy, Debug)]
pub enum EventToSync {
    UserAdded(UserId),
    UserIdUpdated(UserId, UserId),
}

/// A bucket canister known to the index, with the events it has yet to be told of and
/// whether a batch of events is on its way to it.
#[derive(Debug)]
pub struct BucketRecord {
    pub canister_id: CanisterId,
    pub wasm_version: Version,
    pub bytes_used: u64,
    pub events_to_sync: Vec<EventToSync>,
    pub sync_in_progress: bool,
}

/// `new` is `old` with `events` queued after the events it already had.
pub open spec fn events_appended(old: BucketRecord, new: BucketRecord, events: Seq<EventToSync>) -> bool {
    &&& new.canister_id == old.canister_id
    &&& new.wasm_version == old.wasm_version
    &&& new.bytes_used == old.bytes_used
    &&& new.events_to_sync@ == old.events_to_sync@ + events
    &&& new.sync_in_progress == old.sync_in_progress
}

/// Every bucket, active or full, has `events` queued after its events, and nothing else changed.
pub open spec fn all_events_appended(
    old_active: Seq<BucketRecord>,
    old_full: Map<CanisterId, BucketRecord>,
    new_active: Seq<BucketRecord>,
    new_full: Map<CanisterId, BucketRecord>,
    events: Seq<EventToSync>,
) -> bool {
    &&& new_active.len() == old_active.len()
    &&& forall|i: int| 0 <= i < old_active.len() ==> events_appended(old_active[i], #[trigger] new_active[i], events)
    &&& new_full.dom() == old_full.dom()
    &&& forall|k: CanisterId| #[trigger] old_full.contains_key(k) ==> events_appended(old_full[k], new_full[k], events)
}

/// Queuing events on every bucket, one batch after another.
pub proof fn lemma_events_appended_trans(
    a1: Seq<BucketRecord>,
    f1: Map<CanisterId, BucketRecord>,
    a2: Seq<BucketRecord>,
    f2: Map<CanisterId, BucketRecord>,
    a3: Seq<BucketRecord>,
    f3: Map<CanisterId, BucketRecord>,
    e1: Seq<EventToSync>,
    e2: Seq<EventToSync>,
)
    requires
        all_events_appended(a1, f1, a2, f2, e1),
        all_events_appended(a2, f2, a3, f3, e2),
    ensures
        all_events_appended(a1, f1, a3, f3, e1 + e2),
{
    assert forall|i: int| 0 <= i < a1.len() implies events_appended(a1[i], #[trigger] a3[i], e1 + e2) by {
        assert(events_appended(a1[i], a2[i], e1));
        assert(events_appended(a2[i], a3[i], e2));
        assert(a3[i].events_to_sync@ =~= a1[i].events_to_sync@ + (e1 + e2));
    }
    assert forall|k: CanisterId| #[trigger] f1.contains_key(k) implies events_appended(f1[k], f3[k], e1 + e2) by {
        assert(f2.contains_key(k));
        assert(f3[k].events_to_sync@ =~= f1[k].events_to_sync@ + (e1 + e2));
    }
}

/// Queuing no events changes nothing.
pub proof fn lemma_no_events_appended(a: Seq<BucketRecord>, f: Map<CanisterId, BucketRecord>)
    ensures
        all_events_appended(a, f, a, f, Seq::empty()),
{
    assert forall|i: int| 0 <= i < a.len() implies events_appended(a[i], #[trigger] a[i], Seq::empty()) by {
        assert(a[i].events_to_sync@ + Seq::<EventToSync>::empty() =~= a[i].events_to_sync@);
    }
    assert forall|k: CanisterId| #[trigger] f.contains_key(k) implies events_appended(f[k], f[k], Seq::empty()) by {
        assert(f[k].events_to_sync@ + Seq::<EventToSync>::empty() =~= f[k].events_to_sync@);
    }
}

impl BucketRecord {
    /// A bucket that has stored nothing yet.
    pub fn new(canister_id: CanisterId, wasm_version: Version) -> (b: BucketRecord)
        ensures
            b.canister_id == canister_id,
            b.wasm_version == wasm_version,
            b.bytes_used == 0,
            b.events_to_sync@ == Seq::<EventToSync>::empty(),
            !b.sync_in_progress,
    {
        BucketRecord { canister_id, wasm_version, bytes_used: 0, events_to_sync: Vec::new(), sync_in_progress: false }
    }

    /// Takes the next batch of at most `max` events to send to this bucket, if it has events
    /// and none are on their way; the bucket then awaits the outcome of the sync.
    pub fn take_batch(&mut self, max: usize) -> (r: Option<Vec<EventToSync>>)
        ensures
            batch_taken(*old(self), *final(self), max as nat),
            match r {
                Some(v) => next_batch(*old(self), max as nat) == Some(v@),
                None => next_batch(*old(self), max as nat) is None,
            },
    {
        let len = self.events_to_sync.len();
        if self.sync_in_progress || len == 0 {
            return None;
        }
        let n = if max < len { max } else { len };
        let mut batch = self.events_to_sync.split_off(n);
        std::mem::swap(&mut batch, &mut self.events_to_sync);
        self.sync_in_progress = true;
        Some(batch)
    }

    /// The batch sent to this bucket arrived: the bucket no longer awaits a sync.
    pub fn mark_sync_completed(&mut self)
        ensures
            final(self).canister_id == old(self).canister_id,
            final(self).wasm_version == old(self).wasm_version,
            final(self).bytes_used == old(self).bytes_used,
            final(self).events_to_sync@ == old(self).events_to_sync@,
            !final(self).sync_in_progress,
    {
        self.sync_in_progress = false;
    }

    /// The batch sent to this bucket did not arrive: its events go back to the front of the
    /// queue, and the bucket no longer awaits a sync.
    pub fn mark_sync_failed(&mut self, batch: Vec<EventToSync>)
        ensures
            final(self).canister_id == old(self).canister_id,
            final(self).wasm_version == old(self).wasm_version,
            final(self).bytes_used == old(self).bytes_used,
            final(self).events_to_sync@ == batch@ + old(self).events_to_sync@,
            !final(self).sync_in_progress,
    {
        let mut events = batch;
        events.append(&mut self.events_to_sync);
        self.events_to_sync = events;
        self.sync_in_progress = false;
    }
}

/// The events that a bucket is sent next: when no sync is under way and events are queued,
/// the first `max` of them, or all of them when there are fewer.
pub open spec fn next_batch(b: BucketRecord, max: nat) -> Option<Seq<EventToSync>> {
    if !b.sync_in_progress && b.events_to_sync@.len() > 0 {
        Some(b.events_to_sync@.take(if max < b.events_to_sync@.len() { max as int } else { b.events_to_sync@.len() as int }))
    } else {
        None
    }
}

/// `new` is `old` once its next batch of at most `max` events is taken: the batch leaves the
/// queue and the bucket awaits the sync; a bucket with no batch is unchanged.
pub open spec fn batch_taken(old: BucketRecord, new: BucketRecord, max: nat) -> bool {
    &&& new.canister_id == old.canister_id
    &&& new.wasm_version == old.wasm_version
    &&& new.bytes_used == old.bytes_used
    &&& match next_batch(old, max) {
        Some(batch) => new.sync_in_progress && new.events_to_sync@ == old.events_to_sync@.skip(batch.len() as int),
        None => new.sync_in_progress == old.sync_in_progress && new.events_to_sync@ == old.events_to_sync@,
    }
}

/// A sync that fails gives the bucket back the events it was sent: taking the next batch and
/// then marking its sync failed leaves the bucket as it was.
pub proof fn lemma_failed_sync_requeues(old: BucketRecord, taken: BucketRecord, back: BucketRecord, max: nat)
    requires
        batch_taken(old, taken, max),
        next_batch(old, max) is Some,
        sync_failed(taken, back, next_batch(old, max).unwrap()),
    ensures
        back.events_to_sync@ == old.events_to_sync@,
        back.sync_in_progress == old.sync_in_progress,
        back.canister_id == old.canister_id,
        back.wasm_version == old.wasm_version,
        back.bytes_used == old.bytes_used,
{
    let batch = next_batch(old, max).unwrap();
    assert(batch + old.events_to_sync@.skip(batch.len() as int) =~= old.events_to_sync@);
}

/// A sync that succeeds takes the batch off the queue for good: the bucket keeps only the
/// events after the batch, and no longer awaits a sync.
pub proof fn lemma_completed_sync_dequeues(old: BucketRecord, taken: BucketRecord, done: BucketRecord, max: nat)
    requires
        batch_taken(old, taken, max),
        next_batch(old, max) is Some,
        sync_completed(taken, done),
    ensures
        next_batch(old, max).unwrap() + done.events_to_sync@ == old.events_to_sync@,
        !done.sync_in_progress,
{
    let batch = next_batch(old, max).unwrap();
    assert(batch + old.events_to_sync@.skip(batch.len() as int) =~= old.events_to_sync@);
}

/// What the metrics show of a bucket.
#[derive(Clone, Copy, Debug)]
pub struct BucketMetrics {
    pub canister_id: CanisterId,
    pub wasm_version: Version,
    pub bytes_used: u64,
}

/// The metrics of bucket `b`.
pub open spec fn bucket_metrics(b: BucketRecord) -> BucketMetrics {
    BucketMetrics { canister_id: b.canister_id, wasm_version: b.wasm_version, bytes_used: b.bytes_used }
}

/// `m` is the metrics of one of the buckets in `buckets`.
pub open spec fn is_metrics_of_some(buckets: Map<CanisterId, BucketRecord>, m: BucketMetrics) -> bool {
    exists|k: CanisterId| buckets.contains_key(k) && m == bucket_metrics(buckets[k])
}

/// Some element of `v` is the metrics of bucket `b`.
pub open spec fn has_metrics_of(v: Seq<BucketMetrics>, b: BucketRecord) -> bool {
    exists|i: int| 0 <= i < v.len() && v[i] == bucket_metrics(b)
}

impl BucketRecord {
    /// The metrics of this bucket.
    pub fn metrics(&self) -> (m: BucketMetrics)
        ensures
            m == bucket_metrics(*self),
    {
        BucketMetrics { canister_id: self.canister_id, wasm_version: self.wasm_version, bytes_used: self.bytes_used }
    }
}

/// `i` is the first active bucket with canister id `id`.
pub open spec fn is_first_active(active: Seq<BucketRecord>, id: CanisterId, i: int) -> bool {
    &&& 0 <= i < active.len()
    &&& active[i].canister_id == id
    &&& forall|j: int| 0 <= j < i ==> active[j].canister_id != id
}

/// The bucket with canister id `id`: the first such active bucket, else the full one.
pub open spec fn spec_get(active: Seq<BucketRecord>, full: Map<CanisterId, BucketRecord>, id: CanisterId) -> Option<BucketRecord> {
    if exists|i: int| is_first_active(active, id, i) {
        Some(active[choose|i: int| is_first_active(active, id, i)])
    } else if full.contains_key(id) {
        Some(full[id])
    } else {
        None
    }
}

/// The little-endian value of a byte string.
pub open spec fn le_value(bytes: Seq<u8>) -> nat
    decreases bytes.len(),
{
    if bytes.len() == 0 {
        0
    } else {
        (bytes[0] as nat) + 256 * le_value(bytes.drop_first())
    }
}

/// The number a blob hash is allocated by: its first eight bytes read little-endian.
pub open spec fn allocation_key(h: crate::hash::Hash) -> nat {
    le_value(h.0@.subrange(0, 8))
}

/// The position among `count` active buckets that a blob with allocation key `key` goes to.
/// Reducing modulo `2 * count + 1` first slightly favours the first bucket, so that the
/// buckets do not all run out of space at the same time.
pub open spec fn allocation_index(key: nat, count: nat) -> nat {
    (key % (count * 2 + 1)) % count
}

/// The modified modulo slightly favours the first bucket: of every `2 * count + 1`
/// consecutive allocation keys, three go to the first bucket and two to each other one.
/// Precisely, with `r` the key modulo `2 * count + 1`, the first bucket gets `r` in
/// `{0, count, 2 * count}` and bucket `i > 0` gets `r` in `{i, count + i}`.
pub proof fn lemma_allocation_favours_first_bucket(key: nat, count: nat, i: nat)
    requires
        count > 0,
        i < count,
    ensures
        allocation_index(key, count) < count,
        allocation_index(key, count) == i <==> {
            let r = key % (count * 2 + 1);
            if i == 0 {
                r == 0 || r == count || r == 2 * count
            } else {
                r == i || r == count + i
            }
        },
{
    let m = count * 2 + 1;
    let r = key % m;
    assert(0 <= r < m) by (nonlinear_arith)
        requires
            m > 0,
            r == key % m,
    ;
    if r < count {
        assert(r % count == r) by (nonlinear_arith)
            requires
                0 <= r < count,
        ;
    } else if r < 2 * count {
        assert(r % count == r - count) by (nonlinear_arith)
            requires
                count <= r < 2 * count,
        ;
    } else {
        assert(r == 2 * count);
        assert(r % count == 0) by (nonlinear_arith)
            requires
                r == 2 * count,
                count > 0,
        ;
    }
}

/// A byte string of at most eight bytes has a value below 2^64.
proof fn lemma_le_value_bound(bytes: Seq<u8>)
    requires
        bytes.len() <= 8,
    ensures
        le_value(bytes) < pow256(bytes.len()),
    decreases bytes.len(),
{
    if bytes.len() > 0 {
        lemma_le_value_bound(bytes.drop_first());
        let r = le_value(bytes.drop_first());
        let p = pow256((bytes.len() - 1) as nat);
        assert(pow256(bytes.len()) == 256 * p);
        assert(bytes[0] + 256 * r < 256 * p) by (nonlinear_arith)
            requires
                bytes[0] < 256,
                r < p,
                r >= 0,
        ;
    }
}

/// 256 to the power `n`.
pub open spec fn pow256(n: nat) -> nat
    decreases n,
{
    if n == 0 {
        1
    } else {
        256 * pow256((n - 1) as nat)
    }
}

/// The allocation key of a hash.
fn allocation_key_of(h: &crate::hash::Hash) -> (k: u64)
    ensures
        k == allocation_key(*h),
{
    let ghost s = h.0@.subrange(0, 8);
    let mut k: u64 = 0;
    let mut i: usize = 8;
    proof {
        assert(s.subrange(8, 8) =~= Seq::<u8>::empty());
    }
    while i > 0
        invariant
            s == h.0@.subrange(0, 8),
            i <= 8,
            k == le_value(s.subrange(i as int, 8)),
        decreases i,
    {
        i = i - 1;
        let ghost rest = s.subrange(i as int + 1, 8);
        proof {
            assert(s.subrange(i as int, 8).drop_first() =~= rest);
            lemma_le_value_bound(rest);
            reveal_with_fuel(pow256, 9);
            assert(pow256(rest.len()) <= pow256(7)) by {
                lemma_pow256_monotone(rest.len(), 7);
            }
            assert(k < 0x0100_0000_0000_0000);
        }
        k = (h.0[i] as u64) + 256 * k;
    }
    assert(s.subrange(0, 8) =~= s);
    k
}

/// Powers of 256 grow with the exponent.
proof fn lemma_pow256_monotone(a: nat, b: nat)
    requires
        a <= b,
    ensures
        pow256(a) <= pow256(b),
    decreases b,
{
    if a < b {
        lemma_pow256_monotone(a, (b - 1) as nat);
    }
}

/// The bucket canisters: those still accepting uploads, in order, and those that are full.
pub struct Buckets {
    active_buckets: Vec<BucketRecord>,
    full_buckets: VecMap<CanisterId, BucketRecord>,
    creation_locked: bool,
}

impl Default for Buckets {
    fn default() -> (b: Buckets)
        ensures
            b.wf(),
            b.active() == Seq::<BucketRecord>::empty(),
            b.full() == Map::<CanisterId, BucketRecord>::empty(),
            !b.creation_locked(),
    {
        Buckets { active_buckets: Vec::new(), full_buckets: VecMap::new(), creation_locked: false }
    }
}

impl Buckets {
    /// The active buckets, in order.
    pub closed spec fn active(&self) -> Seq<BucketRecord> {
        self.active_buckets@
    }

    /// The full buckets, by canister id.
    pub closed spec fn full(&self) -> Map<CanisterId, BucketRecord> {
        self.full_buckets@
    }

    pub closed spec fn wf(&self) -> bool {
        self.full_buckets.wf()
    }

    /// A new bucket is being created.
    pub closed spec fn creation_locked(&self) -> bool {
        self.creation_locked
    }

    /// Takes the lock that lets one bucket be created at a time; false when it is already taken.
    pub fn try_to_acquire_creation_lock(&mut self) -> (b: bool)
        ensures
            b == !old(self).creation_locked(),
            final(self).creation_locked(),
            final(self).active() == old(self).active(),
            final(self).full() == old(self).full(),
            final(self).wf() == old(self).wf(),
    {
        if self.creation_locked {
            false
        } else {
            self.creation_locked = true;
            true
        }
    }

    /// Releases the lock taken to create a bucket.
    pub fn release_creation_lock(&mut self)
        ensures
            !final(self).creation_locked(),
            final(self).active() == old(self).active(),
            final(self).full() == old(self).full(),
            final(self).wf() == old(self).wf(),
    {
        self.creation_locked = false;
    }

    fn find_active(&self, canister_id: &CanisterId) -> (r: Option<usize>)
        ensures
            match r {
                Some(i) => is_first_active(self.active(), *canister_id, i as int),
                None => forall|j: int| 0 <= j < self.active().len() ==> self.active()[j].canister_id != *canister_id,
            },
    {
        let mut i: usize = 0;
        while i < self.active_buckets.len()
            invariant
                i <= self.active_buckets@.len(),
                forall|j: int| 0 <= j < i ==> self.active_buckets@[j].canister_id != *canister_id,
            decreases self.active_buckets@.len() - i,
        {
            if self.active_buckets[i].canister_id.same(canister_id) {
                return Some(i);
            }
            i = i + 1;
        }
        None
    }

    /// The first active bucket is unique.
    proof fn lemma_first_active_unique(active: Seq<BucketRecord>, id: CanisterId, i: int)
        requires
            is_first_active(active, id, i),
        ensures
            (choose|k: int| is_first_active(active, id, k)) == i,
    {
        let c = choose|k: int| is_first_active(active, id, k);
        assert(is_first_active(active, id, c));
        if c < i {
            assert(active[c].canister_id != id);
        }
        if i < c {
            assert(active[i].canister_id != id);
        }
    }

    /// The bucket with canister id `canister_id`, active or full.
    pub fn get(&self, canister_id: &CanisterId) -> (r: Option<&BucketRecord>)
        requires
            self.wf(),
        ensures
            match r {
                Some(b) => spec_get(self.active(), self.full(), *canister_id) == Some(*b),
                None => spec_get(self.active(), self.full(), *canister_id) == None::<BucketRecord>,
            },
    {
        match self.find_active(canister_id) {
            Some(i) => {
                proof {
                    Self::lemma_first_active_unique(self.active(), *canister_id, i as int);
                }
                Some(&self.active_buckets[i])
            },
            None => self.full_buckets.get(canister_id),
        }
    }

    /// A mutable borrow of the bucket with canister id `canister_id`: the first such active
    /// bucket, else the full one.
    pub fn get_mut(&mut self, canister_id: &CanisterId) -> (r: Option<&mut BucketRecord>)
        requires
            old(self).wf(),
        ensures
            final(self).creation_locked() == old(self).creation_locked(),
            final(self).wf(),
            match first_active_index(old(self).active(), *canister_id) {
                Some(i) => r matches Some(b) && *b == old(self).active()[i]
                    && final(self).active() == old(self).active().update(i, *final(b))
                    && final(self).full() == old(self).full(),
                None => if old(self).full().contains_key(*canister_id) {
                    r matches Some(b) && *b == old(self).full()[*canister_id]
                        && final(self).active() == old(self).active()
                        && final(self).full() == old(self).full().insert(*canister_id, *final(b))
                } else {
                    r is None && final(self).active() == old(self).active() && final(self).full() == old(self).full()
                },
            },
    {
        match self.find_active(canister_id) {
            Some(i) => {
                proof {
                    Self::lemma_first_active_unique(self.active(), *canister_id, i as int);
                }
                Some(&mut self.active_buckets[i])
            },
            None => self.full_buckets.get_mut(canister_id),
        }
    }

    /// The number of active buckets.
    pub fn active_count(&self) -> (n: usize)
        ensures
            n == self.active().len(),
    {
        self.active_buckets.len()
    }

    /// The active bucket that a new blob with hash `blob_hash` should be uploaded to, if any
    /// bucket is active.
    pub fn allocate(&self, blob_hash: &crate::hash::Hash) -> (r: Option<CanisterId>)
        ensures
            r == (if self.active().len() == 0 {
                None::<CanisterId>
            } else {
                Some(self.active()[allocation_index(allocation_key(*blob_hash), self.active().len()) as int].canister_id)
            }),
    {
        let bucket_count = self.active_buckets.len();
        if bucket_count == 0 {
            None
        } else {
            let key = allocation_key_of(blob_hash) as u128;
            let n = bucket_count as u128;
            let index = ((key % (n * 2 + 1)) % n) as usize;
            Some(self.active_buckets[index].canister_id)
        }
    }

    /// The metrics of the active buckets, in order.
    pub fn active_metrics(&self) -> (v: Vec<BucketMetrics>)
        ensures
            v@ == self.active().map_values(|b: BucketRecord| bucket_metrics(b)),
    {
        let mut v: Vec<BucketMetrics> = Vec::new();
        let mut i: usize = 0;
        while i < self.active_buckets.len()
            invariant
                i <= self.active_buckets@.len(),
                v@ == self.active_buckets@.take(i as int).map_values(|b: BucketRecord| bucket_metrics(b)),
            decreases self.active_buckets@.len() - i,
        {
            v.push(self.active_buckets[i].metrics());
            i = i + 1;
            assert(v@ =~= self.active_buckets@.take(i as int).map_values(|b: BucketRecord| bucket_metrics(b)));
        }
        assert(self.active_buckets@.take(i as int) =~= self.active_buckets@);
        v
    }

    /// The metrics of the full buckets, one for each.
    pub fn full_metrics(&self) -> (v: Vec<BucketMetrics>)
        requires
            self.wf(),
        ensures
            v@.len() == self.full().dom().len(),
            forall|i: int| 0 <= i < v@.len() ==> is_metrics_of_some(self.full(), #[trigger] v@[i]),
            forall|k: CanisterId| #[trigger] self.full().contains_key(k) ==> has_metrics_of(v@, self.full()[k]),
    {
        let n = self.full_buckets.len();
        let mut v: Vec<BucketMetrics> = Vec::new();
        let mut i: usize = 0;
        while i < n
            invariant
                n == self.full_buckets.spec_entries().len(),
                i <= n,
                v@.len() == i,
                forall|j: int| 0 <= j < i ==> #[trigger] v@[j] == bucket_metrics(self.full_buckets.spec_entries()[j].1),
            decreases n - i,
        {
            let e = self.full_buckets.entry_at(i);
            v.push(e.1.metrics());
            i = i + 1;
        }
        proof {
            self.full_buckets.lemma_entries();
            let es = self.full_buckets.spec_entries();
            assert forall|j: int| 0 <= j < v@.len() implies is_metrics_of_some(self.full(), #[trigger] v@[j]) by {
                assert(self.full_buckets@.contains_key(es[j].0));
                assert(self.full().contains_key(es[j].0) && v@[j] == bucket_metrics(self.full()[es[j].0]));
            }
            assert forall|k: CanisterId| #[trigger] self.full().contains_key(k) implies has_metrics_of(v@, self.full()[k]) by {
                assert(self.full_buckets@.contains_key(k));
                let j = choose|j: int| 0 <= j < es.len() && es[j].0 == k;
                assert(v@[j] == bucket_metrics(es[j].1));
            }
        }
        v
    }

    /// Adds a bucket that accepts uploads.
    pub fn add(&mut self, bucket: BucketRecord)
        requires
            old(self).wf(),
        ensures
            final(self).creation_locked() == old(self).creation_locked(),
            final(self).wf(),
            final(self).active() == old(self).active().push(bucket),
            final(self).full() == old(self).full(),
    {
        self.active_buckets.push(bucket);
    }

    /// Marks the bucket `canister_id` as full (it moves from the active buckets to the full
    /// ones) or as accepting uploads again (it moves back to the end of the active buckets).
    pub fn set_full(&mut self, canister_id: CanisterId, full: bool)
        requires
            old(self).wf(),
        ensures
            final(self).creation_locked() == old(self).creation_locked(),
            final(self).wf(),
            full ==> match first_active_index(old(self).active(), canister_id) {
                Some(i) => final(self).active() == old(self).active().remove(i)
                    && final(self).full() == old(self).full().insert(canister_id, old(self).active()[i]),
                None => final(self).active() == old(self).active() && final(self).full() == old(self).full(),
            },
            !full ==> if old(self).full().contains_key(canister_id) {
                final(self).active() == old(self).active().push(old(self).full()[canister_id])
                    && final(self).full() == old(self).full().remove(canister_id)
            } else {
                final(self).active() == old(self).active() && final(self).full() == old(self).full()
            },
    {
        if full {
            match self.find_active(&canister_id) {
                Some(i) => {
                    proof {
                        Self::lemma_first_active_unique(self.active(), canister_id, i as int);
                    }
                    let bucket = self.active_buckets.remove(i);
                    self.full_buckets.insert(canister_id, bucket);
                },
                None => {},
            }
        } else {
            match self.full_buckets.remove(&canister_id) {
                Some(bucket) => {
                    self.active_buckets.push(bucket);
                },
                None => {
                    assert(self.full_buckets@ =~= old(self).full());
                },
            }
        }
    }

    /// Records that the bucket `canister_id` now runs `version`.
    pub fn set_wasm_version(&mut self, canister_id: &CanisterId, version: Version)
        requires
            old(self).wf(),
        ensures
            final(self).creation_locked() == old(self).creation_locked(),
            final(self).wf(),
            (final(self).active(), final(self).full()) == spec_set_wasm_version(old(self).active(), old(self).full(), *canister_id, version),
    {
        match self.find_active(canister_id) {
            Some(i) => {
                proof {
                    Self::lemma_first_active_unique(self.active(), *canister_id, i as int);
                }
                self.active_buckets[i].wasm_version = version;
            },
            None => {
                match self.full_buckets.get_mut(canister_id) {
                    Some(b) => {
                        b.wasm_version = version;
                    },
                    None => {},
                }
            },
        }
    }

    /// Queues `event` on every bucket, active or full.
    pub fn sync_event(&mut self, event: EventToSync)
        requires
            old(self).wf(),
        ensures
            final(self).creation_locked() == old(self).creation_locked(),
            final(self).wf(),
            all_events_appended(old(self).active(), old(self).full(), final(self).active(), final(self).full(), seq![event]),
    {
        let ghost a0 = self.active();
        let ghost f0 = self.full();
        let n = self.active_buckets.len();
        let mut i: usize = 0;
        while i < n
            invariant
                self.creation_locked() == old(self).creation_locked(),
                n == a0.len(),
                i <= n,
                self.full_buckets.wf(),
                self.full() == f0,
                self.active().len() == n,
                forall|j: int| 0 <= j < i ==> events_appended(a0[j], #[trigger] self.active()[j], seq![event]),
                forall|j: int| i <= j < n ==> #[trigger] self.active()[j] == a0[j],
            decreases n - i,
        {
            self.active_buckets[i].events_to_sync.push(event);
            assert(self.active()[i as int].events_to_sync@ =~= a0[i as int].events_to_sync@ + seq![event]);
            i = i + 1;
        }
        proof {
            self.full_buckets.lemma_entries();
        }
        let m = self.full_buckets.len();
        let ghost entries0 = self.full_buckets.spec_entries();
        let ghost a1 = self.active();
        let mut k: usize = 0;
        while k < m
            invariant
                self.creation_locked() == old(self).creation_locked(),
                self.active() == a1,
                a1.len() == a0.len(),
                forall|j: int| 0 <= j < a0.len() ==> events_appended(a0[j], #[trigger] a1[j], seq![event]),
                m == entries0.len(),
                k <= m,
                self.full_buckets.wf(),
                self.full_buckets.spec_entries().len() == m,
                forall|j: int| 0 <= j < m ==> (#[trigger] self.full_buckets.spec_entries()[j]).0 == entries0[j].0,
                forall|j: int| 0 <= j < k ==> events_appended(entries0[j].1, #[trigger] self.full_buckets.spec_entries()[j].1, seq![event]),
                forall|j: int| k <= j < m ==> #[trigger] self.full_buckets.spec_entries()[j] == entries0[j],
            decreases m - k,
        {
            let b = self.full_buckets.value_at_mut(k);
            b.events_to_sync.push(event);
            assert(self.full_buckets.spec_entries()[k as int].1.events_to_sync@ =~= entries0[k as int].1.events_to_sync@ + seq![event]);
            k = k + 1;
        }
        proof {
            self.full_buckets.lemma_entries();
            assert(self.full().dom() =~= f0.dom()) by {
                assert forall|c: CanisterId| self.full().contains_key(c) <==> f0.contains_key(c) by {
                    if self.full().contains_key(c) {
                        let j = choose|j: int| 0 <= j < m && self.full_buckets.spec_entries()[j].0 == c;
                        assert(entries0[j].0 == c);
                        assert(f0.contains_key(entries0[j].0));
                    }
                    if f0.contains_key(c) {
                        let j = choose|j: int| 0 <= j < m && entries0[j].0 == c;
                        assert(self.full_buckets.spec_entries()[j].0 == c);
                    }
                }
            }
            assert forall|c: CanisterId| #[trigger] f0.contains_key(c) implies events_appended(f0[c], self.full()[c], seq![event]) by {
                let j = choose|j: int| 0 <= j < m && entries0[j].0 == c;
                assert(self.full_buckets.spec_entries()[j].0 == c);
                assert(f0[c] == entries0[j].1);
                assert(self.full()[c] == self.full_buckets.spec_entries()[j].1);
            }
        }
    }

    /// Takes the next batch of at most `max` events of every bucket, active ones first, and
    /// gives each with the bucket's canister id.
    pub fn take_batches(&mut self, max: usize) -> (v: Vec<(CanisterId, Vec<EventToSync>)>)
        requires
            old(self).wf(),
        ensures
            final(self).wf(),
            final(self).creation_locked() == old(self).creation_locked(),
            final(self).active().len() == old(self).active().len(),
            forall|i: int| 0 <= i < old(self).active().len() ==> batch_taken(old(self).active()[i], #[trigger] final(self).active()[i], max as nat),
            final(self).full().dom() == old(self).full().dom(),
            forall|k: CanisterId| #[trigger] old(self).full().contains_key(k) ==> batch_taken(old(self).full()[k], final(self).full()[k], max as nat),
            forall|i: int| 0 <= i < old(self).active().len() ==> batch_sent(batches_view(v@), #[trigger] old(self).active()[i], max as nat),
            forall|k: CanisterId| #[trigger] old(self).full().contains_key(k) ==> batch_sent(batches_view(v@), old(self).full()[k], max as nat),
            forall|j: int| 0 <= j < v@.len() ==> is_batch_of_some(old(self).active(), old(self).full(), max as nat, #[trigger] batches_view(v@)[j]),
    {
        let ghost a0 = self.active();
        let ghost f0 = self.full();
        let mut v: Vec<(CanisterId, Vec<EventToSync>)> = Vec::new();
        let n = self.active_buckets.len();
        let mut i: usize = 0;
        while i < n
            invariant
                self.creation_locked() == old(self).creation_locked(),
                n == a0.len(),
                i <= n,
                self.full_buckets.wf(),
                self.full() == f0,
                self.full_buckets == old(self).full_buckets,
                a0 == old(self).active(),
                f0 == old(self).full(),
                self.active().len() == n,
                forall|j: int| 0 <= j < i ==> batch_taken(a0[j], #[trigger] self.active()[j], max as nat),
                forall|j: int| i <= j < n ==> #[trigger] self.active()[j] == a0[j],
                forall|j: int| 0 <= j < i ==> batch_sent(batches_view(v@), #[trigger] a0[j], max as nat),
                forall|j: int| 0 <= j < v@.len() ==> is_batch_of_some(a0, f0, max as nat, #[trigger] batches_view(v@)[j]),
            decreases n - i,
        {
            let ghost bv0 = batches_view(v@);
            let id = self.active_buckets[i].canister_id;
            let r = self.active_buckets[i].take_batch(max);
            match r {
                Some(batch) => {
                    let ghost b = batch@;
                    v.push((id, batch));
                    proof {
                        let bv = batches_view(v@);
                        assert(bv =~= bv0.push((id, b)));
                        assert forall|j: int| 0 <= j < i + 1 implies batch_sent(bv, #[trigger] a0[j], max as nat) by {
                            if j < i {
                                if next_batch(a0[j], max as nat) is Some {
                                    let x = (a0[j].canister_id, next_batch(a0[j], max as nat).unwrap());
                                    assert(bv0.contains(x));
                                    let idx = choose|idx: int| 0 <= idx < bv0.len() && bv0[idx] == x;
                                    assert(bv[idx] == x);
                                }
                            } else {
                                assert(bv[bv.len() - 1] == (id, b));
                            }
                        }
                        assert forall|j: int| 0 <= j < v@.len() implies is_batch_of_some(a0, f0, max as nat, #[trigger] batches_view(v@)[j]) by {
                            if j < bv0.len() {
                                assert(bv[j] == bv0[j]);
                            } else {
                                assert(bv[j] == (id, b));
                                assert(0 <= i < a0.len() && id == a0[i as int].canister_id && next_batch(a0[i as int], max as nat) == Some(b));
                            }
                        }
                    }
                },
                None => {},
            }
            i = i + 1;
        }
        proof {
            self.full_buckets.lemma_entries();
        }
        let m = self.full_buckets.len();
        let ghost entries0 = self.full_buckets.spec_entries();
        let ghost a1 = self.active();
        proof {
            assert forall|j: int| 0 <= j < m implies #[trigger] f0.contains_key(entries0[j].0) && f0[entries0[j].0] == entries0[j].1 by {
                assert(self.full_buckets@.contains_key(self.full_buckets.spec_entries()[j].0));
            }
        }
        let mut k: usize = 0;
        while k < m
            invariant
                self.creation_locked() == old(self).creation_locked(),
                self.active() == a1,
                a1.len() == a0.len(),
                a0 == old(self).active(),
                f0 == old(self).full(),
                forall|j: int| 0 <= j < a0.len() ==> batch_taken(a0[j], #[trigger] a1[j], max as nat),
                forall|j: int| 0 <= j < a0.len() ==> batch_sent(batches_view(v@), #[trigger] a0[j], max as nat),
                forall|j: int| 0 <= j < v@.len() ==> is_batch_of_some(a0, f0, max as nat, #[trigger] batches_view(v@)[j]),
                m == entries0.len(),
                k <= m,
                forall|j: int| 0 <= j < m ==> #[trigger] f0.contains_key(entries0[j].0) && f0[entries0[j].0] == entries0[j].1,
                self.full_buckets.wf(),
                self.full_buckets.spec_entries().len() == m,
                forall|j: int| 0 <= j < m ==> (#[trigger] self.full_buckets.spec_entries()[j]).0 == entries0[j].0,
                forall|j: int| 0 <= j < k ==> batch_taken(entries0[j].1, #[trigger] self.full_buckets.spec_entries()[j].1, max as nat),
                forall|j: int| 0 <= j < k ==> batch_sent(batches_view(v@), #[trigger] entries0[j].1, max as nat),
                forall|j: int| k <= j < m ==> #[trigger] self.full_buckets.spec_entries()[j] == entries0[j],
            decreases m - k,
        {
            let ghost bv0 = batches_view(v@);
            let b = self.full_buckets.value_at_mut(k);
            let id = b.canister_id;
            let r = b.take_batch(max);
            match r {
                Some(batch) => {
                    let ghost eb = batch@;
                    v.push((id, batch));
                    proof {
                        let bv = batches_view(v@);
                        assert(bv =~= bv0.push((id, eb)));
                        assert forall|j: int| 0 <= j < a0.len() implies batch_sent(bv, #[trigger] a0[j], max as nat) by {
                            if next_batch(a0[j], max as nat) is Some {
                                let x = (a0[j].canister_id, next_batch(a0[j], max as nat).unwrap());
                                assert(bv0.contains(x));
                                let idx = choose|idx: int| 0 <= idx < bv0.len() && bv0[idx] == x;
                                assert(bv[idx] == x);
                            }
                        }
                        assert forall|j: int| 0 <= j < k + 1 implies batch_sent(bv, #[trigger] entries0[j].1, max as nat) by {
                            if j < k {
                                if next_batch(entries0[j].1, max as nat) is Some {
                                    let x = (entries0[j].1.canister_id, next_batch(entries0[j].1, max as nat).unwrap());
                                    assert(bv0.contains(x));
                                    let idx = choose|idx: int| 0 <= idx < bv0.len() && bv0[idx] == x;
                                    assert(bv[idx] == x);
                                }
                            } else {
                                assert(bv[bv.len() - 1] == (id, eb));
                            }
                        }
                        assert forall|j: int| 0 <= j < v@.len() implies is_batch_of_some(a0, f0, max as nat, #[trigger] batches_view(v@)[j]) by {
                            if j < bv0.len() {
                                assert(bv[j] == bv0[j]);
                            } else {
                                let key = entries0[k as int].0;
                                assert(f0.contains_key(entries0[k as int].0) && f0[entries0[k as int].0] == entries0[k as int].1);
                                assert(bv[j] == (id, eb));
                                assert(f0.contains_key(key) && id == f0[key].canister_id && next_batch(f0[key], max as nat) == Some(eb));
                            }
                        }
                    }
                },
                None => {},
            }
            k = k + 1;
        }
        proof {
            self.full_buckets.lemma_entries();
            assert(self.full().dom() =~= f0.dom()) by {
                assert forall|c: CanisterId| self.full().contains_key(c) <==> f0.contains_key(c) by {
                    if self.full().contains_key(c) {
                        let j = choose|j: int| 0 <= j < m && self.full_buckets.spec_entries()[j].0 == c;
                        assert(entries0[j].0 == c);
                        assert(f0.contains_key(entries0[j].0));
                    }
                    if f0.contains_key(c) {
                        assert(old(self).full_buckets@.contains_key(c));
                        let j = choose|j: int| 0 <= j < m && entries0[j].0 == c;
                        assert(self.full_buckets.spec_entries()[j].0 == c);
                    }
                }
            }
            assert forall|c: CanisterId| #[trigger] f0.contains_key(c) implies batch_taken(f0[c], self.full()[c], max as nat)
                && batch_sent(batches_view(v@), f0[c], max as nat) by {
                assert(old(self).full_buckets@.contains_key(c));
                let j = choose|j: int| 0 <= j < m && entries0[j].0 == c;
                assert(self.full_buckets.spec_entries()[j].0 == c);
                assert(f0[c] == entries0[j].1);
                assert(self.full()[c] == self.full_buckets.spec_entries()[j].1);
            }
        }
        v
    }

    /// The batch sent to bucket `canister_id` arrived.
    pub fn mark_sync_completed(&mut self, canister_id: &CanisterId)
        requires
            old(self).wf(),
        ensures
            final(self).wf(),
            final(self).creation_locked() == old(self).creation_locked(),
            bucket_changed(
                old(self).active(),
                old(self).full(),
                final(self).active(),
                final(self).full(),
                *canister_id,
                |o: BucketRecord, n: BucketRecord| sync_completed(o, n),
            ),
    {
        match self.get_mut(canister_id) {
            Some(b) => b.mark_sync_completed(),
            None => {},
        }
    }

    /// The batch sent to bucket `canister_id` did not arrive: its events go back to the front
    /// of the bucket's queue.
    pub fn mark_sync_failed(&mut self, canister_id: &CanisterId, batch: Vec<EventToSync>)
        requires
            old(self).wf(),
        ensures
            final(self).wf(),
            final(self).creation_locked() == old(self).creation_locked(),
            bucket_changed(
                old(self).active(),
                old(self).full(),
                final(self).active(),
                final(self).full(),
                *canister_id,
                |o: BucketRecord, n: BucketRecord| sync_failed(o, n, batch@),
            ),
    {
        match self.get_mut(canister_id) {
            Some(b) => b.mark_sync_failed(batch),
            None => {},
        }
    }

    /// Marks the bucket `canister_id` as full.
    pub fn archive(&mut self, canister_id: CanisterId)
        requires
            old(self).wf(),
        ensures
            final(self).creation_locked() == old(self).creation_locked(),
            final(self).wf(),
            match first_active_index(old(self).active(), canister_id) {
                Some(i) => final(self).active() == old(self).active().remove(i)
                    && final(self).full() == old(self).full().insert(canister_id, old(self).active()[i]),
                None => final(self).active() == old(self).active() && final(self).full() == old(self).full(),
            },
    {
        self.set_full(canister_id, true);
    }
}

/// The buckets after the bucket with canister id `id` records that it runs `version`.
pub open spec fn spec_set_wasm_version(active: Seq<BucketRecord>, full: Map<CanisterId, BucketRecord>, id: CanisterId, version: Version) -> (Seq<BucketRecord>, Map<CanisterId, BucketRecord>) {
    match first_active_index(active, id) {
        Some(i) => (active.update(i, BucketRecord { wasm_version: version, ..active[i] }), full),
        None => if full.contains_key(id) {
            (active, full.insert(id, BucketRecord { wasm_version: version, ..full[id] }))
        } else {
            (active, full)
        },
    }
}

/// The position of the first active bucket with canister id `id`.
pub open spec fn first_active_index(active: Seq<BucketRecord>, id: CanisterId) -> Option<int> {
    if exists|i: int| is_first_active(active, id, i) {
        Some(choose|i: int| is_first_active(active, id, i))
    } else {
        None
    }
}

/// What was sent: each canister id with the events of its batch.
pub open spec fn batches_view(v: Seq<(CanisterId, Vec<EventToSync>)>) -> Seq<(CanisterId, Seq<EventToSync>)> {
    v.map_values(|p: (CanisterId, Vec<EventToSync>)| (p.0, p.1@))
}

/// Bucket `b`'s next batch, if it has one, is among `sent`.
pub open spec fn batch_sent(sent: Seq<(CanisterId, Seq<EventToSync>)>, b: BucketRecord, max: nat) -> bool {
    next_batch(b, max) matches Some(batch) ==> sent.contains((b.canister_id, batch))
}

/// `e` is the next batch of one of the buckets, with that bucket's canister id.
pub open spec fn is_batch_of_some(
    active: Seq<BucketRecord>,
    full: Map<CanisterId, BucketRecord>,
    max: nat,
    e: (CanisterId, Seq<EventToSync>),
) -> bool {
    ||| exists|i: int| 0 <= i < active.len() && e.0 == active[i].canister_id && next_batch(active[i], max) == Some(e.1)
    ||| exists|k: CanisterId| full.contains_key(k) && e.0 == full[k].canister_id && next_batch(full[k], max) == Some(e.1)
}

/// The buckets after the bucket `id` changes as `change` says: the first active bucket with
/// that id, else the full one; no other bucket changes, and nothing does without such a bucket.
pub open spec fn bucket_changed(
    old_active: Seq<BucketRecord>,
    old_full: Map<CanisterId, BucketRecord>,
    new_active: Seq<BucketRecord>,
    new_full: Map<CanisterId, BucketRecord>,
    id: CanisterId,
    change: spec_fn(BucketRecord, BucketRecord) -> bool,
) -> bool {
    match first_active_index(old_active, id) {
        Some(i) => new_active.len() == old_active.len() && new_active == old_active.update(i, new_active[i])
            && new_full == old_full && change(old_active[i], new_active[i]),
        None => new_active == old_active && if old_full.contains_key(id) {
            new_full == old_full.insert(id, new_full[id]) && change(old_full[id], new_full[id])
        } else {
            new_full == old_full
        },
    }
}

/// `new` is `old` once the batch sent to it arrived: it no longer awaits a sync.
pub open spec fn sync_completed(old: BucketRecord, new: BucketRecord) -> bool {
    &&& new.canister_id == old.canister_id
    &&& new.wasm_version == old.wasm_version
    &&& new.bytes_used == old.bytes_used
    &&& new.events_to_sync@ == old.events_to_sync@
    &&& !new.sync_in_progress
}

/// `new` is `old` once the batch sent to it failed: the batch's events are back at the front
/// of its queue, and it no longer awaits a sync.
pub open spec fn sync_failed(old: BucketRecord, new: BucketRecord, batch: Seq<EventToSync>) -> bool {
    &&& new.canister_id == old.canister_id
    &&& new.wasm_version == old.wasm_version
    &&& new.bytes_used == old.bytes_used
    &&& new.events_to_sync@ == batch + old.events_to_sync@
    &&& !new.sync_in_progress
}

/// Whether `i` is the first active bucket with id `id` depends on the buckets' ids alone.
proof fn lemma_first_active_same_ids(a1: Seq<BucketRecord>, a2: Seq<BucketRecord>, id: CanisterId, i: int)
    requires
        a1.len() == a2.len(),
        forall|j: int| 0 <= j < a1.len() ==> #[trigger] a1[j].canister_id == a2[j].canister_id,
    ensures
        is_first_active(a1, id, i) == is_first_active(a2, id, i),
{
    if is_first_active(a1, id, i) {
        assert forall|j: int| 0 <= j < i implies a2[j].canister_id != id by {
            assert(a1[j].canister_id == a2[j].canister_id);
        }
    }
    if is_first_active(a2, id, i) {
        assert forall|j: int| 0 <= j < i implies a1[j].canister_id != id by {
            assert(a1[j].canister_id == a2[j].canister_id);
        }
        assert(a1[i].canister_id == a2[i].canister_id);
    }
}

/// The first active bucket with an id is the only one.
proof fn lemma_first_active_choice(a: Seq<BucketRecord>, id: CanisterId, i: int)
    requires
        is_first_active(a, id, i),
    ensures
        (choose|k: int| is_first_active(a, id, k)) == i,
{
    let c = choose|k: int| is_first_active(a, id, k);
    assert(is_first_active(a, id, c));
    if c < i {
        assert(a[c].canister_id != id);
    }
    if i < c {
        assert(a[i].canister_id != id);
    }
}

/// Recording a bucket's new version: looking the bucket up afterwards, active or full, gives
/// the record it had with the new version; an unknown id stays unknown; every other id looks
/// up as before.
pub proof fn lemma_set_wasm_version_get(
    active: Seq<BucketRecord>,
    full: Map<CanisterId, BucketRecord>,
    id: CanisterId,
    version: Version,
    other: CanisterId,
)
    ensures
        spec_get(active, full, id) matches Some(b) ==> spec_get(
            spec_set_wasm_version(active, full, id, version).0,
            spec_set_wasm_version(active, full, id, version).1,
            id,
        ) == Some(BucketRecord { wasm_version: version, ..b }),
        spec_get(active, full, id) is None ==> spec_get(
            spec_set_wasm_version(active, full, id, version).0,
            spec_set_wasm_version(active, full, id, version).1,
            id,
        ) is None,
        other != id ==> spec_get(
            spec_set_wasm_version(active, full, id, version).0,
            spec_set_wasm_version(active, full, id, version).1,
            other,
        ) == spec_get(active, full, other),
{
    let (a2, f2) = spec_set_wasm_version(active, full, id, version);
    assert(a2.len() == active.len());
    assert forall|j: int| 0 <= j < active.len() implies #[trigger] active[j].canister_id == a2[j].canister_id by {
    }
    assert forall|x: CanisterId, k: int| #[trigger] is_first_active(active, x, k) == is_first_active(a2, x, k) by {
        lemma_first_active_same_ids(active, a2, x, k);
    }
    if exists|i: int| is_first_active(active, id, i) {
        let i = choose|i: int| is_first_active(active, id, i);
        lemma_first_active_choice(active, id, i);
        lemma_first_active_choice(a2, id, i);
    }
    if other != id && exists|k: int| is_first_active(active, other, k) {
        let k = choose|k: int| is_first_active(active, other, k);
        lemma_first_active_choice(active, other, k);
        lemma_first_active_choice(a2, other, k);
        if exists|i: int| is_first_active(active, id, i) {
            let i = choose|i: int| is_first_active(active, id, i);
            assert(active[i].canister_id != active[k].canister_id);
            assert(a2[k] == active[k]);
        } else {
            assert(a2 == active);
        }
    }
    if other != id && !exists|k: int| is_first_active(active, other, k) {
        assert forall|k: int| !is_first_active(a2, other, k) by {
            lemma_first_active_same_ids(active, a2, other, k);
        }
        assert(f2.contains_key(other) == full.contains_key(other));
        if full.contains_key(other) {
            assert(f2[other] == full[other]);
        }
    }
}

} // verus!
