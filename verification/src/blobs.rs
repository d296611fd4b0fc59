use vstd::prelude::*;

use crate::principal::{CanisterId, KeyEq, UserId};
use crate::vec_map::VecMap;

verus! {

/// How many times a user holds a blob in one bucket.
#[derive(Clone, Copy, Debug)]
pub struct ReferenceCount {
    pub bucket: CanisterId,
    pub count: u32,
}

impl ReferenceCount {
    pub fn new(bucket: CanisterId, count: u32) -> (rc: ReferenceCount)
        ensures
            rc.bucket == bucket,
            rc.count == count,
    {
        ReferenceCount { bucket, count }
    }

    /// Adds one reference and returns the new count.
    pub fn incr(&mut self) -> (c: u32)
        requires
            old(self).count < u32::MAX,
        ensures
            final(self).bucket == old(self).bucket,
            final(self).count == old(self).count + 1,
            c == final(self).count,
    {
        self.count = self.count + 1;
        self.count
    }

    /// Drops one reference, stopping at zero, and returns the new count.
    pub fn decr(&mut self) -> (c: u32)
        ensures
            final(self).bucket == old(self).bucket,
            final(self).count == (if old(self).count == 0 { 0 } else { old(self).count - 1 }),
            c == final(self).count,
    {
        self.count = self.count.saturating_sub(1);
        self.count
    }
}

// ---------------------------------------------------------------------------------------------
// The model: what a blob record and the set of blobs stand for.
// ---------------------------------------------------------------------------------------------

/// What a blob record stands for: the reference counts of each owner, and the blob's size.
pub struct BlobRecordView {
    pub owners: Map<UserId, Seq<ReferenceCount>>,
    pub size: u64,
}

/// `i` is the first position in `rcs` whose bucket is `b`.
pub open spec fn is_first_with_bucket(rcs: Seq<ReferenceCount>, b: CanisterId, i: int) -> bool {
    &&& 0 <= i < rcs.len()
    &&& rcs[i].bucket == b
    &&& forall|j: int| 0 <= j < i ==> rcs[j].bucket != b
}

/// The first position in `rcs` whose bucket is `b`, if any.
pub open spec fn first_with_bucket(rcs: Seq<ReferenceCount>, b: CanisterId) -> Option<int> {
    if exists|i: int| is_first_with_bucket(rcs, b, i) {
        Some(choose|i: int| is_first_with_bucket(rcs, b, i))
    } else {
        None
    }
}

/// The reference counts that `owners` holds for `u`, empty when `u` owns nothing.
pub open spec fn counts_of(owners: Map<UserId, Seq<ReferenceCount>>, u: UserId) -> Seq<
    ReferenceCount,
> {
    if owners.contains_key(u) {
        owners[u]
    } else {
        Seq::empty()
    }
}

/// One more reference to bucket `b`: the first count for `b` goes up by one, or a count of one
/// for `b` is appended.
pub open spec fn add_to_counts(rcs: Seq<ReferenceCount>, b: CanisterId) -> Seq<ReferenceCount> {
    match first_with_bucket(rcs, b) {
        Some(i) => rcs.update(i, ReferenceCount { bucket: rcs[i].bucket, count: (rcs[i].count + 1) as u32 }),
        None => rcs.push(ReferenceCount { bucket: b, count: 1 }),
    }
}

/// A reference by `u` in bucket `b` can be added without the count overflowing.
pub open spec fn can_add_reference(owners: Map<UserId, Seq<ReferenceCount>>, u: UserId, b: CanisterId) -> bool {
    match first_with_bucket(counts_of(owners, u), b) {
        Some(i) => counts_of(owners, u)[i].count < u32::MAX,
        None => true,
    }
}

/// The owners after `u` adds a reference in bucket `b`.
pub open spec fn spec_add_reference(owners: Map<UserId, Seq<ReferenceCount>>, u: UserId, b: CanisterId) -> Map<UserId, Seq<ReferenceCount>> {
    owners.insert(u, add_to_counts(counts_of(owners, u), b))
}

/// The owners after `u` drops a reference in bucket `b`, and whether `u` then owns no copy.
///
/// The first count for `b` goes down by one; a count that reaches zero is removed, and an
/// owner left with no counts is removed.
pub open spec fn spec_remove_reference(owners: Map<UserId, Seq<ReferenceCount>>, u: UserId, b: CanisterId) -> (Map<UserId, Seq<ReferenceCount>>, bool) {
    if !owners.contains_key(u) {
        (owners, false)
    } else {
        let rcs = owners[u];
        match first_with_bucket(rcs, b) {
            None => (owners, false),
            Some(i) => if rcs[i].count <= 1 {
                let rest = rcs.remove(i);
                if rest.len() == 0 {
                    (owners.remove(u), true)
                } else {
                    (owners.insert(u, rest), false)
                }
            } else {
                (owners.insert(u, rcs.update(i, ReferenceCount { bucket: rcs[i].bucket, count: (rcs[i].count - 1) as u32 })), false)
            },
        }
    }
}

/// Every owner holds at least one count, every count is at least one, and no owner holds two
/// counts for the same bucket.
pub open spec fn owners_wf(owners: Map<UserId, Seq<ReferenceCount>>) -> bool {
    forall|u: UserId| #[trigger] owners.contains_key(u) ==> {
        &&& owners[u].len() > 0
        &&& forall|i: int| 0 <= i < owners[u].len() ==> #[trigger] owners[u][i].count >= 1
        &&& distinct_buckets(owners[u])
    }
}

/// No two counts in `rcs` are for the same bucket.
pub open spec fn distinct_buckets(rcs: Seq<ReferenceCount>) -> bool {
    forall|i: int, j: int| #![trigger rcs[i], rcs[j]] 0 <= i < j < rcs.len() ==> rcs[i].bucket != rcs[j].bucket
}

/// Every blob has at least one owner, and its owners are well formed.
pub open spec fn blobs_wf(m: Map<crate::hash::Hash, BlobRecordView>) -> bool {
    forall|h: crate::hash::Hash| #[trigger] m.contains_key(h) ==> {
        &&& owners_wf(m[h].owners)
        &&& m[h].owners.dom().len() > 0
        &&& m[h].owners.dom().finite()
    }
}

/// User `u` owns a copy of blob `h`.
pub open spec fn user_owns(m: Map<crate::hash::Hash, BlobRecordView>, u: UserId, h: crate::hash::Hash) -> bool {
    m.contains_key(h) && m[h].owners.contains_key(u)
}

/// A reference to blob `h` by `u` in bucket `b` can be added without a count overflowing.
pub open spec fn can_add(m: Map<crate::hash::Hash, BlobRecordView>, h: crate::hash::Hash, u: UserId, b: CanisterId) -> bool {
    m.contains_key(h) ==> can_add_reference(m[h].owners, u, b)
}

/// The blobs after `u` adds a reference to blob `h` (of `size` bytes) held in bucket `b`.
/// A blob that is already known keeps its recorded size.
pub open spec fn spec_add(m: Map<crate::hash::Hash, BlobRecordView>, h: crate::hash::Hash, size: u64, u: UserId, b: CanisterId) -> Map<crate::hash::Hash, BlobRecordView> {
    let rec = if m.contains_key(h) { m[h] } else { BlobRecordView { owners: Map::empty(), size } };
    m.insert(h, BlobRecordView { owners: spec_add_reference(rec.owners, u, b), size: rec.size })
}

/// The blobs after `u` drops a reference to blob `h` held in bucket `b`, and the blob's size
/// when `u` thereby stops owning a copy of it. A blob left with no owner is removed.
pub open spec fn spec_remove(m: Map<crate::hash::Hash, BlobRecordView>, h: crate::hash::Hash, u: UserId, b: CanisterId) -> (Map<crate::hash::Hash, BlobRecordView>, Option<u64>) {
    if !m.contains_key(h) {
        (m, None)
    } else {
        let rec = m[h];
        let (owners, removed) = spec_remove_reference(rec.owners, u, b);
        if removed {
            if owners.dom().len() == 0 {
                (m.remove(h), Some(rec.size))
            } else {
                (m.insert(h, BlobRecordView { owners, size: rec.size }), Some(rec.size))
            }
        } else {
            (m.insert(h, BlobRecordView { owners, size: rec.size }), None)
        }
    }
}

/// The record with the references of `old_user_id` handed over to `new_user_id`.
pub open spec fn move_owner(r: BlobRecordView, old_user_id: UserId, new_user_id: UserId) -> BlobRecordView {
    if r.owners.contains_key(old_user_id) {
        BlobRecordView {
            owners: r.owners.remove(old_user_id).insert(new_user_id, r.owners[old_user_id]),
            size: r.size,
        }
    } else {
        r
    }
}

/// The first position found for a bucket is the only first position.
pub proof fn lemma_first_unique(rcs: Seq<ReferenceCount>, b: CanisterId, i: int)
    requires
        is_first_with_bucket(rcs, b, i),
    ensures
        first_with_bucket(rcs, b) == Some(i),
{
    let c = choose|j: int| is_first_with_bucket(rcs, b, j);
    assert(is_first_with_bucket(rcs, b, c));
    if c < i {
        assert(rcs[c].bucket != b);
    }
    if i < c {
        assert(rcs[i].bucket != b);
    }
}

/// A position holding the bucket means there is a first one.
pub proof fn lemma_first_exists(rcs: Seq<ReferenceCount>, b: CanisterId, j: int)
    requires
        0 <= j < rcs.len(),
        rcs[j].bucket == b,
    ensures
        first_with_bucket(rcs, b) is Some,
    decreases j,
{
    if forall|k: int| 0 <= k < j ==> rcs[k].bucket != b {
        assert(is_first_with_bucket(rcs, b, j));
    } else {
        assert(exists|k: int| 0 <= k < j && rcs[k].bucket == b);
        let k = choose|k: int| 0 <= k < j && rcs[k].bucket == b;
        lemma_first_exists(rcs, b, k);
    }
}

/// With no position for the bucket, there is no first one.
pub proof fn lemma_first_none(rcs: Seq<ReferenceCount>, b: CanisterId)
    requires
        forall|j: int| 0 <= j < rcs.len() ==> rcs[j].bucket != b,
    ensures
        first_with_bucket(rcs, b) == None::<int>,
{
}

// ---------------------------------------------------------------------------------------------
// Blob records.
// ---------------------------------------------------------------------------------------------

/// A blob: who owns it, through which buckets and how many times, and its size.
pub struct BlobRecord {
    pub owners: VecMap<UserId, Vec<ReferenceCount>>,
    pub size: u64,
}

impl BlobRecord {
    /// What the record stands for.
    pub open spec fn view(&self) -> BlobRecordView {
        BlobRecordView { owners: self.owners@.map_values(|v: Vec<ReferenceCount>| v@), size: self.size }
    }

    pub open spec fn wf(&self) -> bool {
        self.owners.wf()
    }

    /// Finds the first count for `bucket`.
    fn find_bucket(rcs: &Vec<ReferenceCount>, bucket: &CanisterId) -> (r: Option<usize>)
        ensures
            match r {
                Some(i) => is_first_with_bucket(rcs@, *bucket, i as int),
                None => forall|j: int| 0 <= j < rcs@.len() ==> rcs@[j].bucket != *bucket,
            },
    {
        let mut i: usize = 0;
        while i < rcs.len()
            invariant
                i <= rcs@.len(),
                forall|j: int| 0 <= j < i ==> rcs@[j].bucket != *bucket,
            decreases rcs@.len() - i,
        {
            if rcs[i].bucket.same(bucket) {
                return Some(i);
            }
            i = i + 1;
        }
        None
    }

    /// Adds one reference by `user_id` in `bucket`.
    pub fn add_reference(&mut self, user_id: UserId, bucket: CanisterId)
        requires
            old(self).wf(),
            can_add_reference(old(self)@.owners, user_id, bucket),
        ensures
            final(self).wf(),
            final(self)@.owners == spec_add_reference(old(self)@.owners, user_id, bucket),
            final(self)@.size == old(self)@.size,
    {
        let ghost old_owners = self@.owners;
        match self.owners.get_mut(&user_id) {
            Some(rcs) => {
                let ghost old_rcs = rcs@;
                assert(counts_of(old_owners, user_id) == old_rcs);
                match Self::find_bucket(rcs, &bucket) {
                    Some(i) => {
                        proof {
                            lemma_first_unique(old_rcs, bucket, i as int);
                        }
                        rcs[i].incr();
                    },
                    None => {
                        proof {
                            lemma_first_none(old_rcs, bucket);
                        }
                        rcs.push(ReferenceCount::new(bucket, 1));
                    },
                }
                assert(rcs@ == add_to_counts(old_rcs, bucket));
            },
            None => {
                let mut rcs: Vec<ReferenceCount> = Vec::new();
                rcs.push(ReferenceCount::new(bucket, 1));
                proof {
                    lemma_first_none(Seq::<ReferenceCount>::empty(), bucket);
                    assert(rcs@ =~= add_to_counts(Seq::<ReferenceCount>::empty(), bucket));
                }
                self.owners.insert(user_id, rcs);
            },
        }
        assert(self@.owners =~= spec_add_reference(old_owners, user_id, bucket));
    }

    /// Drops one reference by `user_id` in `bucket`.
    /// Returns true if the user no longer owns a copy of the blob, else false.
    pub fn remove_reference(&mut self, user_id: UserId, bucket: CanisterId) -> (removed: bool)
        requires
            old(self).wf(),
        ensures
            final(self).wf(),
            (final(self)@.owners, removed) == spec_remove_reference(old(self)@.owners, user_id, bucket),
            final(self)@.size == old(self)@.size,
    {
        let ghost old_owners = self@.owners;
        let mut removed_from_user = false;
        let mut now_empty = false;
        match self.owners.get_mut(&user_id) {
            Some(rcs) => {
                let ghost old_rcs = rcs@;
                match Self::find_bucket(rcs, &bucket) {
                    Some(i) => {
                        proof {
                            lemma_first_unique(old_rcs, bucket, i as int);
                        }
                        let c = rcs[i].decr();
                        if c == 0 {
                            rcs.remove(i);
                            assert(rcs@ =~= old_rcs.remove(i as int));
                            if rcs.is_empty() {
                                now_empty = true;
                            }
                        } else {
                            assert(rcs@ =~= old_rcs.update(i as int, ReferenceCount { bucket: old_rcs[i as int].bucket, count: (old_rcs[i as int].count - 1) as u32 }));
                        }
                    },
                    None => {
                        proof {
                            lemma_first_none(old_rcs, bucket);
                        }
                    },
                }
            },
            None => {},
        }
        let ghost mid_owners = self@.owners;
        if now_empty {
            self.owners.remove(&user_id);
            removed_from_user = true;
            assert(self@.owners =~= mid_owners.remove(user_id));
        }
        assert(self@.owners =~= spec_remove_reference(old_owners, user_id, bucket).0);
        removed_from_user
    }
}


/// Adding a reference keeps the owners well formed, and leaves `u` an owner.
pub proof fn lemma_add_reference_wf(o: Map<UserId, Seq<ReferenceCount>>, u: UserId, b: CanisterId)
    requires
        owners_wf(o),
        can_add_reference(o, u, b),
    ensures
        owners_wf(spec_add_reference(o, u, b)),
        spec_add_reference(o, u, b).dom() == o.dom().insert(u),
{
    let rcs = counts_of(o, u);
    let n = add_to_counts(rcs, b);
    match first_with_bucket(rcs, b) {
        Some(i) => {
            assert(is_first_with_bucket(rcs, b, i));
            assert forall|j: int| 0 <= j < n.len() implies #[trigger] n[j].count >= 1 by {
                if j != i {
                    assert(n[j] == rcs[j]);
                }
            }
            assert forall|j: int, k: int| 0 <= j < k < n.len() implies #[trigger] n[j].bucket != #[trigger] n[k].bucket by {
                assert(n[j].bucket == rcs[j].bucket);
                assert(n[k].bucket == rcs[k].bucket);
                assert(rcs[j] == counts_of(o, u)[j]);
            }
            assert(distinct_buckets(n));
        },
        None => {
            assert forall|j: int| 0 <= j < n.len() implies #[trigger] n[j].count >= 1 by {
                if j < rcs.len() {
                    assert(n[j] == rcs[j]);
                }
            }
            assert forall|j: int, k: int| 0 <= j < k < n.len() implies #[trigger] n[j].bucket != #[trigger] n[k].bucket by {
                assert(n[j] == rcs[j]);
                if k < rcs.len() {
                    assert(n[k] == rcs[k]);
                } else {
                    if rcs[j].bucket == b {
                        lemma_first_exists(rcs, b, j);
                    }
                }
            }
            assert(distinct_buckets(n));
        },
    }
    assert(spec_add_reference(o, u, b).dom() =~= o.dom().insert(u));
}

/// Dropping a reference keeps the owners well formed; `u` stops being an owner exactly when
/// the removal reports it, and no other owner changes.
pub proof fn lemma_remove_reference_wf(o: Map<UserId, Seq<ReferenceCount>>, u: UserId, b: CanisterId)
    requires
        owners_wf(o),
    ensures
        owners_wf(spec_remove_reference(o, u, b).0),
        spec_remove_reference(o, u, b).1 ==> spec_remove_reference(o, u, b).0.dom() == o.dom().remove(u)
            && o.contains_key(u),
        !spec_remove_reference(o, u, b).1 ==> spec_remove_reference(o, u, b).0.dom() == o.dom(),
{
    let (n, removed) = spec_remove_reference(o, u, b);
    if o.contains_key(u) {
        let rcs = o[u];
        match first_with_bucket(rcs, b) {
            None => {},
            Some(i) => {
                assert(is_first_with_bucket(rcs, b, i));
                if rcs[i].count <= 1 {
                    let rest = rcs.remove(i);
                    if rest.len() == 0 {
                        assert(n.dom() =~= o.dom().remove(u));
                    } else {
                        assert forall|j: int| 0 <= j < rest.len() implies #[trigger] rest[j].count >= 1 by {
                            if j < i {
                                assert(rest[j] == rcs[j]);
                            } else {
                                assert(rest[j] == rcs[j + 1]);
                            }
                        }
                        assert(n.dom() =~= o.dom());
                    }
                } else {
                    let upd = rcs.update(i, ReferenceCount { bucket: rcs[i].bucket, count: (rcs[i].count - 1) as u32 });
                    assert forall|j: int| 0 <= j < upd.len() implies #[trigger] upd[j].count >= 1 by {
                        if j != i {
                            assert(upd[j] == rcs[j]);
                        }
                    }
                    assert(n.dom() =~= o.dom());
                }
            },
        }
    }
}

// ---------------------------------------------------------------------------------------------
// The set of blobs.
// ---------------------------------------------------------------------------------------------

/// Every blob known to the index, by hash.
pub struct Blobs {
    blobs: VecMap<crate::hash::Hash, BlobRecord>,
}

impl View for Blobs {
    type V = Map<crate::hash::Hash, BlobRecordView>;

    closed spec fn view(&self) -> Map<crate::hash::Hash, BlobRecordView> {
        self.blobs@.map_values(|r: BlobRecord| r.view())
    }
}

impl Default for Blobs {
    fn default() -> (b: Blobs)
        ensures
            b.wf(),
            b@ == Map::<crate::hash::Hash, BlobRecordView>::empty(),
    {
        let b = Blobs { blobs: VecMap::new() };
        assert(b@ =~= Map::<crate::hash::Hash, BlobRecordView>::empty());
        b
    }
}

impl Blobs {
    /// The maps are well formed and so is the model: every blob has an owner, every owner a
    /// count, every count at least one.
    pub closed spec fn wf(&self) -> bool {
        &&& self.blobs.wf()
        &&& forall|h: crate::hash::Hash| #[trigger] self.blobs@.contains_key(h) ==> self.blobs@[h].wf()
        &&& blobs_wf(self@)
    }

    /// In a well-formed set of blobs every blob has an owner, every owner a count, every count
    /// is at least one, and no owner holds two counts for one bucket.
    pub proof fn lemma_wf(&self)
        requires
            self.wf(),
        ensures
            blobs_wf(self@),
    {
    }

    /// Records that `user_id` holds blob `hash` (of `size` bytes) in `bucket`.
    pub fn add(&mut self, hash: crate::hash::Hash, size: u64, user_id: UserId, bucket: CanisterId)
        requires
            old(self).wf(),
            can_add(old(self)@, hash, user_id, bucket),
        ensures
            final(self).wf(),
            final(self)@ == spec_add(old(self)@, hash, size, user_id, bucket),
            user_owns(final(self)@, user_id, hash),
    {
        let ghost old_view = self@;
        match self.blobs.get_mut(&hash) {
            Some(rec) => {
                let ghost r0 = rec.view();
                assert(old_view.contains_key(hash));
                assert(old_view[hash] == r0);
                rec.add_reference(user_id, bucket);
                proof {
                    lemma_add_reference_wf(r0.owners, user_id, bucket);
                    rec.owners.lemma_entries();
                }
            },
            None => {
                let mut rec = BlobRecord { owners: VecMap::new(), size };
                assert(rec.view().owners =~= Map::<UserId, Seq<ReferenceCount>>::empty());
                proof {
                    lemma_first_none(Seq::<ReferenceCount>::empty(), bucket);
                }
                rec.add_reference(user_id, bucket);
                proof {
                    lemma_add_reference_wf(Map::<UserId, Seq<ReferenceCount>>::empty(), user_id, bucket);
                    rec.owners.lemma_entries();
                }
                self.blobs.insert(hash, rec);
            },
        }
        assert(self@ =~= spec_add(old_view, hash, size, user_id, bucket));
    }

    /// Drops one reference by `user_id` to blob `hash` in `bucket`.
    ///
    /// Returns the size of the blob if the user no longer owns a copy of it, in which case the
    /// user's byte allowance can be increased by the size of the blob, else None.
    pub fn remove(&mut self, hash: crate::hash::Hash, user_id: UserId, bucket: CanisterId) -> (r: Option<u64>)
        requires
            old(self).wf(),
        ensures
            final(self).wf(),
            (final(self)@, r) == spec_remove(old(self)@, hash, user_id, bucket),
    {
        let ghost old_view = self@;
        let mut result: Option<u64> = None;
        let mut now_empty = false;
        match self.blobs.get_mut(&hash) {
            Some(rec) => {
                let ghost r0 = rec.view();
                assert(old_view.contains_key(hash));
                assert(old_view[hash] == r0);
                if rec.remove_reference(user_id, bucket) {
                    result = Some(rec.size);
                    now_empty = rec.owners.is_empty();
                }
                proof {
                    lemma_remove_reference_wf(r0.owners, user_id, bucket);
                    rec.owners.lemma_entries();
                    assert(rec.view().owners.dom() == rec.owners@.dom());
                }
            },
            None => {},
        }
        let ghost mid = self@;
        if now_empty {
            self.blobs.remove(&hash);
            assert(self@ =~= mid.remove(hash));
        }
        assert(self@ =~= spec_remove(old_view, hash, user_id, bucket).0);
        result
    }

    /// Hands the references that `old_user_id` holds on blob `hash` over to `new_user_id`.
    pub fn update_user_id(&mut self, hash: &crate::hash::Hash, old_user_id: UserId, new_user_id: UserId)
        requires
            old(self).wf(),
        ensures
            final(self).wf(),
            final(self)@ == (if old(self)@.contains_key(*hash) {
                old(self)@.insert(*hash, move_owner(old(self)@[*hash], old_user_id, new_user_id))
            } else {
                old(self)@
            }),
    {
        let ghost m = self@;
        match self.blobs.get_mut(hash) {
            Some(rec) => {
                let ghost r0 = rec.view();
                assert(m.contains_key(*hash));
                assert(m[*hash] == r0);
                assert(owners_wf(r0.owners));
                match rec.owners.remove(&old_user_id) {
                    Some(rcs) => {
                        rec.owners.insert(new_user_id, rcs);
                    },
                    None => {},
                }
                proof {
                    rec.owners.lemma_entries();
                    assert(rec.view().owners =~= move_owner(r0, old_user_id, new_user_id).owners);
                    let o = rec.view().owners;
                    assert(owners_wf(o));
                    assert(o.dom().contains(if r0.owners.contains_key(old_user_id) { new_user_id } else {
                        r0.owners.dom().choose()
                    })) by {
                        if !r0.owners.contains_key(old_user_id) {
                            vstd::set_lib::lemma_set_empty_equivalency_len(r0.owners.dom());
                            assert(r0.owners.dom().contains(r0.owners.dom().choose()));
                        }
                    }
                    vstd::set_lib::lemma_set_empty_equivalency_len(o.dom());
                    assert(rec.view().owners.dom() =~= rec.owners@.dom());
                }
            },
            None => {},
        }
        proof {
            let m2 = self@;
            assert forall|h: crate::hash::Hash| #[trigger] m2.contains_key(h) implies {
                &&& owners_wf(m2[h].owners)
                &&& m2[h].owners.dom().len() > 0
                &&& m2[h].owners.dom().finite()
            } by {
                assert(m.contains_key(h));
            }
        }
        assert(self@ =~= (if m.contains_key(*hash) {
            m.insert(*hash, move_owner(m[*hash], old_user_id, new_user_id))
        } else {
            m
        }));
    }

    /// A bucket that holds blob `hash`, if the blob is known: the bucket of the first count of
    /// one of its owners. Which owner is left open, as the order of the owners is.
    pub fn bucket(&self, hash: &crate::hash::Hash) -> (r: Option<CanisterId>)
        requires
            self.wf(),
        ensures
            r is Some <==> self@.contains_key(*hash),
            r matches Some(b) ==> exists|u: UserId|
                #[trigger] self@[*hash].owners.contains_key(u) && self@[*hash].owners[u][0].bucket == b,
    {
        match self.blobs.get(hash) {
            None => None,
            Some(rec) => {
                proof {
                    rec.owners.lemma_entries();
                    assert(self@.contains_key(*hash));
                    assert(self@[*hash] == rec.view());
                }
                assert(rec.view().owners.dom() =~= rec.owners@.dom());
                assert(rec.owners.spec_entries().len() > 0);
                let e = rec.owners.entry_at(0);
                proof {
                    assert(rec.owners@.contains_key(e.0));
                    assert(rec.view().owners.contains_key(e.0));
                    assert(rec.view().owners[e.0] == e.1@);
                }
                let b = e.1[0].bucket;
                assert(self@[*hash].owners[e.0][0].bucket == b);
                Some(b)
            },
        }
    }

    /// Whether `user_id` owns a copy of blob `hash`.
    pub fn user_owns_blob(&self, user_id: &UserId, hash: &crate::hash::Hash) -> (b: bool)
        requires
            self.wf(),
        ensures
            b == user_owns(self@, *user_id, *hash),
    {
        match self.blobs.get(hash) {
            None => false,
            Some(rec) => rec.owners.contains_key(user_id),
        }
    }

    /// The reference counts that `user_id` holds on blob `hash`; empty when it owns none.
    pub fn reference_counts(&self, user_id: &UserId, hash: &crate::hash::Hash) -> (v: Vec<ReferenceCount>)
        requires
            self.wf(),
        ensures
            v@ == (if user_owns(self@, *user_id, *hash) { self@[*hash].owners[*user_id] } else { Seq::empty() }),
    {
        match self.blobs.get(hash) {
            None => Vec::new(),
            Some(rec) => match rec.owners.get(user_id) {
                None => Vec::new(),
                Some(rcs) => {
                    let mut v: Vec<ReferenceCount> = Vec::new();
                    let mut i: usize = 0;
                    while i < rcs.len()
                        invariant
                            i <= rcs@.len(),
                            v@ == rcs@.subrange(0, i as int),
                        decreases rcs@.len() - i,
                    {
                        v.push(rcs[i]);
                        i = i + 1;
                        assert(v@ =~= rcs@.subrange(0, i as int));
                    }
                    assert(v@ =~= rcs@);
                    v
                },
            },
        }
    }

    /// The record of blob `hash`.
    pub fn get(&self, hash: &crate::hash::Hash) -> (r: Option<&BlobRecord>)
        requires
            self.wf(),
        ensures
            match r {
                Some(rec) => self@.contains_key(*hash) && rec.view() == self@[*hash] && rec.wf(),
                None => !self@.contains_key(*hash),
            },
    {
        self.blobs.get(hash)
    }

    /// The number of blobs.
    pub fn len(&self) -> (n: usize)
        requires
            self.wf(),
        ensures
            n == self@.dom().len(),
    {
        proof {
            assert(self@.dom() =~= self.blobs@.dom());
        }
        self.blobs.len()
    }

    /// Whether no blob is known.
    pub fn is_empty(&self) -> (b: bool)
        requires
            self.wf(),
        ensures
            b == (self@ == Map::<crate::hash::Hash, BlobRecordView>::empty()),
    {
        let b = self.blobs.is_empty();
        proof {
            if b {
                assert(self@ =~= Map::<crate::hash::Hash, BlobRecordView>::empty());
            } else {
                if self@ == Map::<crate::hash::Hash, BlobRecordView>::empty() {
                    assert(self.blobs@.dom() =~= self@.dom());
                    assert(self.blobs@ =~= Map::<crate::hash::Hash, BlobRecord>::empty());
                }
            }
        }
        b
    }

    /// The hashes of all known blobs.
    pub fn hashes(&self) -> (v: Vec<crate::hash::Hash>)
        requires
            self.wf(),
        ensures
            forall|i: int| 0 <= i < v@.len() ==> #[trigger] self@.contains_key(v@[i]),
            forall|h: crate::hash::Hash| #[trigger] self@.contains_key(h) ==> v@.contains(h),
            v@.len() == self@.dom().len(),
    {
        proof {
            self.blobs.lemma_entries();
            assert(self@.dom() =~= self.blobs@.dom());
        }
        let mut v: Vec<crate::hash::Hash> = Vec::new();
        let n = self.blobs.len();
        let mut i: usize = 0;
        while i < n
            invariant
                n == self.blobs.spec_entries().len(),
                i <= n,
                v@.len() == i,
                forall|j: int| 0 <= j < i ==> v@[j] == self.blobs.spec_entries()[j].0,
            decreases n - i,
        {
            let e = self.blobs.entry_at(i);
            v.push(e.0);
            i = i + 1;
        }
        proof {
            assert forall|h: crate::hash::Hash| #[trigger] self@.contains_key(h) implies v@.contains(h) by {
                assert(self.blobs@.contains_key(h));
                let j = choose|j: int| 0 <= j < self.blobs.spec_entries().len() && self.blobs.spec_entries()[j].0 == h;
                assert(v@[j] == h);
            }
            assert forall|j: int| 0 <= j < v@.len() implies #[trigger] self@.contains_key(v@[j]) by {
                assert(self.blobs@.contains_key(self.blobs.spec_entries()[j].0));
            }
        }
        v
    }
}

/// Dropping a reference undoes adding it: the blobs come back as they were, and the blob's
/// size is handed back exactly when the user owned no copy of it before.
pub proof fn lemma_remove_undoes_add(m: Map<crate::hash::Hash, BlobRecordView>, h: crate::hash::Hash, size: u64, u: UserId, b: CanisterId)
    requires
        blobs_wf(m),
        can_add(m, h, u, b),
    ensures
        spec_remove(spec_add(m, h, size, u, b), h, u, b) == (m, if user_owns(m, u, h) {
            None
        } else {
            Some(if m.contains_key(h) { m[h].size } else { size })
        }),
{
    let rec = if m.contains_key(h) { m[h] } else { BlobRecordView { owners: Map::empty(), size } };
    let o = rec.owners;
    let rcs = counts_of(o, u);
    let n = add_to_counts(rcs, b);
    let o1 = spec_add_reference(o, u, b);
    let m1 = spec_add(m, h, size, u, b);
    assert(m1.contains_key(h) && m1[h].owners == o1 && m1[h].size == rec.size);
    assert(o1.contains_key(u) && o1[u] == n);
    if m.contains_key(h) {
        assert(owners_wf(o));
        assert(o.dom().len() > 0);
    }
    match first_with_bucket(rcs, b) {
        Some(i) => {
            assert(is_first_with_bucket(rcs, b, i));
            assert(is_first_with_bucket(n, b, i));
            lemma_first_unique(n, b, i);
            assert(o.contains_key(u));
            assert(n[i].count == rcs[i].count + 1);
            let back = n.update(i, ReferenceCount { bucket: n[i].bucket, count: (n[i].count - 1) as u32 });
            assert(back =~= rcs);
            assert(o1.insert(u, back) =~= o);
            assert(m.contains_key(h));
            assert(m.insert(h, BlobRecordView { owners: o, size: rec.size }) =~= m);
        },
        None => {
            let k = rcs.len() as int;
            assert forall|j: int| 0 <= j < k implies n[j].bucket != b by {
                assert(n[j] == rcs[j]);
                if rcs[j].bucket == b {
                    lemma_first_exists(rcs, b, j);
                }
            }
            assert(is_first_with_bucket(n, b, k));
            lemma_first_unique(n, b, k);
            assert(n.remove(k) =~= rcs);
            if o.contains_key(u) {
                assert(rcs.len() > 0);
                assert(o1.insert(u, rcs) =~= o);
                assert(m.contains_key(h));
                assert(m.insert(h, BlobRecordView { owners: o, size: rec.size }) =~= m);
            } else {
                assert(rcs.len() == 0);
                assert(o1.remove(u) =~= o);
                if m.contains_key(h) {
                    assert(m.insert(h, BlobRecordView { owners: o, size: rec.size }) =~= m);
                } else {
                    assert(o.dom() =~= Set::<UserId>::empty());
                    assert(m1.remove(h) =~= m);
                }
            }
        },
    }
}



/// Adding a reference keeps the blobs well formed; afterwards the user owns the blob, and
/// nobody's ownership of any other blob changes.
pub proof fn lemma_add_owns(m: Map<crate::hash::Hash, BlobRecordView>, h: crate::hash::Hash, size: u64, u: UserId, b: CanisterId)
    requires
        blobs_wf(m),
        can_add(m, h, u, b),
    ensures
        blobs_wf(spec_add(m, h, size, u, b)),
        forall|u2: UserId, h2: crate::hash::Hash| #[trigger] user_owns(spec_add(m, h, size, u, b), u2, h2)
            <==> (user_owns(m, u2, h2) || (u2 == u && h2 == h)),
{
    let rec = if m.contains_key(h) { m[h] } else { BlobRecordView { owners: Map::empty(), size } };
    if m.contains_key(h) {
        assert(owners_wf(rec.owners));
    } else {
        assert(rec.owners.dom() =~= Set::<UserId>::empty());
    }
    lemma_add_reference_wf(rec.owners, u, b);
    let o1 = spec_add_reference(rec.owners, u, b);
    assert(o1.dom().contains(u));
    let m1 = spec_add(m, h, size, u, b);
    assert forall|h2: crate::hash::Hash| #[trigger] m1.contains_key(h2) implies {
        &&& owners_wf(m1[h2].owners)
        &&& m1[h2].owners.dom().len() > 0
        &&& m1[h2].owners.dom().finite()
    } by {
        if h2 == h {
            assert(m1[h2].owners == o1);
            assert(o1.dom().finite());
            vstd::set_lib::lemma_set_empty_equivalency_len(o1.dom());
        } else {
            assert(m.contains_key(h2));
        }
    }
}

/// Dropping a reference keeps the blobs well formed; the blob's size comes back exactly when
/// the user stops owning the blob, and nobody's ownership of any other blob changes.
pub proof fn lemma_remove_owns(m: Map<crate::hash::Hash, BlobRecordView>, h: crate::hash::Hash, u: UserId, b: CanisterId)
    requires
        blobs_wf(m),
    ensures
        blobs_wf(spec_remove(m, h, u, b).0),
        spec_remove(m, h, u, b).1 is Some <==> (user_owns(m, u, h) && !user_owns(spec_remove(m, h, u, b).0, u, h)),
        forall|u2: UserId, h2: crate::hash::Hash| #[trigger] user_owns(spec_remove(m, h, u, b).0, u2, h2)
            <==> (user_owns(m, u2, h2) && !(u2 == u && h2 == h && spec_remove(m, h, u, b).1 is Some)),
        spec_remove(m, h, u, b).1 matches Some(size) ==> size == m[h].size,
{
    if m.contains_key(h) {
        let rec = m[h];
        assert(owners_wf(rec.owners));
        lemma_remove_reference_wf(rec.owners, u, b);
        let (o2, removed) = spec_remove_reference(rec.owners, u, b);
        let m2 = spec_remove(m, h, u, b).0;
        if removed {
            assert(o2.dom().finite());
            if o2.dom().len() == 0 {
                assert(o2.dom() =~= Set::<UserId>::empty()) by {
                    vstd::set_lib::lemma_set_empty_equivalency_len(o2.dom());
                }
                assert(rec.owners.dom() =~= set![u]) by {
                    assert forall|x: UserId| rec.owners.dom().contains(x) implies x == u by {
                        if x != u {
                            assert(o2.dom().contains(x));
                        }
                    }
                }
            }
        }
        assert forall|h2: crate::hash::Hash| #[trigger] m2.contains_key(h2) implies {
            &&& owners_wf(m2[h2].owners)
            &&& m2[h2].owners.dom().len() > 0
            &&& m2[h2].owners.dom().finite()
        } by {
            assert(m.contains_key(h2));
            if h2 == h {
                assert(m2[h2].owners == o2);
                if !removed {
                    assert(o2.dom() == rec.owners.dom());
                }
            }
        }
    }
}

} // verus!
