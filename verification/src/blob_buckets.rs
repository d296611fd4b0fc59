use vstd::prelude::*;
use crate::principal::{CanisterId, KeyEq};
use crate::vec_map::VecMap;

verus! {

/// `i` is the first position of `b` in `s`.
pub open spec fn is_first_position(s: Seq<CanisterId>, b: CanisterId, i: int) -> bool {
    &&& 0 <= i < s.len()
    &&& s[i] == b
    &&& forall|j: int| 0 <= j < i ==> s[j] != b
}

/// What the buckets of a blob stand for: the buckets that hold it, in order, and its size.
pub type BucketsView = (Seq<CanisterId>, u64);

/// The blobs after `bucket` reports holding blob `h` of `size` bytes: a new blob is recorded
/// with that bucket alone; a known blob gains the bucket at the end unless it already has it,
/// and keeps its recorded size.
pub open spec fn spec_add(m: Map<crate::hash::Hash, BucketsView>, h: crate::hash::Hash, size: u64, bucket: CanisterId) -> Map<crate::hash::Hash, BucketsView> {
    if m.contains_key(h) {
        if m[h].0.contains(bucket) {
            m
        } else {
            m.insert(h, (m[h].0.push(bucket), m[h].1))
        }
    } else {
        m.insert(h, (seq![bucket], size))
    }
}

/// The blobs after `bucket` drops blob `h`, and the blob's size when the bucket held it.
/// A blob left in no bucket is forgotten.
pub open spec fn spec_remove(m: Map<crate::hash::Hash, BucketsView>, h: crate::hash::Hash, bucket: CanisterId) -> (Map<crate::hash::Hash, BucketsView>, Option<u64>) {
    if m.contains_key(h) && m[h].0.contains(bucket) {
        let i = choose|i: int| is_first_position(m[h].0, bucket, i);
        let rest = m[h].0.remove(i);
        if rest.len() == 0 {
            (m.remove(h), Some(m[h].1))
        } else {
            (m.insert(h, (rest, m[h].1)), Some(m[h].1))
        }
    } else {
        (m, None)
    }
}

/// Every known blob is held by at least one bucket.
pub open spec fn buckets_wf(m: Map<crate::hash::Hash, BucketsView>) -> bool {
    forall|h: crate::hash::Hash| #[trigger] m.contains_key(h) ==> m[h].0.len() > 0
}

/// The first position is unique.
pub proof fn lemma_first_position_unique(s: Seq<CanisterId>, b: CanisterId, i: int)
    requires
        is_first_position(s, b, i),
    ensures
        (choose|k: int| is_first_position(s, b, k)) == i,
{
    let c = choose|k: int| is_first_position(s, b, k);
    assert(is_first_position(s, b, c));
    if c < i {
        assert(s[c] != b);
    }
    if i < c {
        assert(s[i] != b);
    }
}

/// A blob and the buckets holding it.
pub struct BlobRecord {
    pub buckets: Vec<CanisterId>,
    pub size: u64,
}

/// For each known blob, the buckets that hold it.
pub struct BlobBuckets {
    blobs: VecMap<crate::hash::Hash, BlobRecord>,
}

impl View for BlobBuckets {
    type V = Map<crate::hash::Hash, BucketsView>;

    closed spec fn view(&self) -> Map<crate::hash::Hash, BucketsView> {
        self.blobs@.map_values(|r: BlobRecord| (r.buckets@, r.size))
    }
}

impl Default for BlobBuckets {
    fn default() -> (b: BlobBuckets)
        ensures
            b.wf(),
            b@ == Map::<crate::hash::Hash, BucketsView>::empty(),
    {
        let b = BlobBuckets { blobs: VecMap::new() };
        assert(b@ =~= Map::<crate::hash::Hash, BucketsView>::empty());
        b
    }
}

impl BlobBuckets {
    /// The map is well formed and every blob is held by a bucket.
    pub closed spec fn wf(&self) -> bool {
        &&& self.blobs.wf()
        &&& buckets_wf(self@)
    }

    /// In a well-formed map every known blob is held by at least one bucket.
    pub proof fn lemma_wf(&self)
        requires
            self.wf(),
        ensures
            buckets_wf(self@),
    {
    }

    /// The first position of `bucket` in `buckets`.
    fn position(buckets: &Vec<CanisterId>, bucket: &CanisterId) -> (r: Option<usize>)
        ensures
            match r {
                Some(i) => is_first_position(buckets@, *bucket, i as int),
                None => !buckets@.contains(*bucket),
            },
    {
        let mut i: usize = 0;
        while i < buckets.len()
            invariant
                i <= buckets@.len(),
                forall|j: int| 0 <= j < i ==> buckets@[j] != *bucket,
            decreases buckets@.len() - i,
        {
            if buckets[i].same(bucket) {
                return Some(i);
            }
            i = i + 1;
        }
        None
    }

    /// Records that `bucket` holds blob `hash` of `size` bytes.
    pub fn add(&mut self, hash: crate::hash::Hash, size: u64, bucket: CanisterId)
        requires
            old(self).wf(),
        ensures
            final(self).wf(),
            final(self)@ == spec_add(old(self)@, hash, size, bucket),
    {
        let ghost old_view = self@;
        match self.blobs.get_mut(&hash) {
            Some(b) => {
                assert(old_view.contains_key(hash));
                if Self::position(&b.buckets, &bucket).is_none() {
                    b.buckets.push(bucket);
                } else {
                    assert(b.buckets@.contains(bucket));
                }
            },
            None => {
                let mut buckets: Vec<CanisterId> = Vec::new();
                buckets.push(bucket);
                assert(buckets@ =~= seq![bucket]);
                self.blobs.insert(hash, BlobRecord { buckets, size });
            },
        }
        assert(self@ =~= spec_add(old_view, hash, size, bucket));
    }

    /// Records that `bucket` no longer holds blob `hash`; returns the blob's size if it did.
    pub fn remove(&mut self, hash: crate::hash::Hash, bucket: CanisterId) -> (r: Option<u64>)
        requires
            old(self).wf(),
        ensures
            final(self).wf(),
            (final(self)@, r) == spec_remove(old(self)@, hash, bucket),
    {
        let ghost old_view = self@;
        let mut result: Option<u64> = None;
        let mut now_empty = false;
        match self.blobs.get_mut(&hash) {
            Some(entry) => {
                assert(old_view.contains_key(hash));
                match Self::position(&entry.buckets, &bucket) {
                    Some(index) => {
                        proof {
                            lemma_first_position_unique(entry.buckets@, bucket, index as int);
                        }
                        entry.buckets.remove(index);
                        let size = entry.size;
                        if entry.buckets.is_empty() {
                            now_empty = true;
                        }
                        result = Some(size);
                    },
                    None => {},
                }
            },
            None => {},
        }
        let ghost mid = self@;
        if now_empty {
            self.blobs.remove(&hash);
            assert(self@ =~= mid.remove(hash));
        }
        assert(self@ =~= spec_remove(old_view, hash, bucket).0);
        result
    }

    /// The first bucket that holds blob `hash`.
    pub fn bucket(&self, hash: &crate::hash::Hash) -> (r: Option<CanisterId>)
        requires
            self.wf(),
        ensures
            r == (if self@.contains_key(*hash) { Some(self@[*hash].0[0]) } else { None::<CanisterId> }),
    {
        match self.blobs.get(hash) {
            None => None,
            Some(b) => {
                assert(self@.contains_key(*hash));
                if b.buckets.len() > 0 {
                    Some(b.buckets[0])
                } else {
                    None
                }
            },
        }
    }

    /// The record of blob `hash`.
    pub fn get(&self, hash: &crate::hash::Hash) -> (r: Option<&BlobRecord>)
        requires
            self.wf(),
        ensures
            match r {
                Some(rec) => self@.contains_key(*hash) && (rec.buckets@, rec.size) == self@[*hash],
                None => !self@.contains_key(*hash),
            },
    {
        self.blobs.get(hash)
    }
}

/// Dropping a bucket undoes adding it, when the bucket did not hold the blob before: the
/// blobs come back as they were and the blob's size is handed back.
pub proof fn lemma_remove_undoes_add(m: Map<crate::hash::Hash, BucketsView>, h: crate::hash::Hash, size: u64, b: CanisterId)
    requires
        buckets_wf(m),
        !(m.contains_key(h) && m[h].0.contains(b)),
    ensures
        spec_remove(spec_add(m, h, size, b), h, b) == (m, Some(if m.contains_key(h) { m[h].1 } else { size })),
{
    let m1 = spec_add(m, h, size, b);
    let s = m1[h].0;
    let k = s.len() - 1;
    assert(s[k] == b);
    if m.contains_key(h) {
        assert forall|j: int| 0 <= j < k implies s[j] != b by {
            assert(s[j] == m[h].0[j]);
        }
        assert(is_first_position(s, b, k));
        lemma_first_position_unique(s, b, k);
        assert(s.remove(k) =~= m[h].0);
        assert(m1.insert(h, (m[h].0, m[h].1)) =~= m);
    } else {
        assert(is_first_position(s, b, k));
        lemma_first_position_unique(s, b, k);
        assert(s.remove(k).len() == 0);
        assert(m1.remove(h) =~= m);
    }
}

} // verus!
