use vstd::prelude::*;
use crate::api;
use crate::blob_buckets::{buckets_wf, BlobBuckets, BucketsView};
use crate::blobs::{blobs_wf, can_add, counts_of, first_with_bucket, is_first_with_bucket, move_owner, owners_wf, user_owns, BlobRecordView, Blobs, ReferenceCount};
use crate::buckets::{batch_sent, batch_taken, batches_view, bucket_changed, is_batch_of_some, sync_completed, sync_failed, bucket_metrics, has_metrics_of, is_metrics_of_some, BucketMetrics, all_events_appended, first_active_index, spec_get, spec_set_wasm_version, BucketRecord, Buckets, EventToSync};
use crate::canisters_requiring_upgrade::{spec_try_take_next, CanistersRequiringUpgrade, FailedUpgrade};
use crate::principal::{CanisterId, KeyEq, Principal, UserId};
use crate::types::{BucketInitArgs, BucketUpgradeArgs, CanisterWasm, CyclesDispenserConfig, TimestampMillis, Cycles, FileAdded, FileRejected, FileRejectedReason, FileRemoved, Version};
use crate::upgrade::CanisterToUpgrade;
use crate::vec_map::VecMap;

verus! {

/// The size of the chunks that files are uploaded in: half a megabyte.
pub const DEFAULT_CHUNK_SIZE_BYTES: u32 = 524288;

/// What the index knows of a user.
pub struct UserRecordInternal {
    pub byte_limit: u64,
    pub bytes_used: u64,
    pub blobs_owned: VecMap<crate::hash::Hash, ()>,
}

/// What a user record stands for.
pub struct UserView {
    pub byte_limit: u64,
    pub bytes_used: u64,
    pub blobs_owned: Set<crate::hash::Hash>,
}

impl UserRecordInternal {
    pub open spec fn view(&self) -> UserView {
        UserView { byte_limit: self.byte_limit, bytes_used: self.bytes_used, blobs_owned: self.blobs_owned@.dom() }
    }

    pub open spec fn wf(&self) -> bool {
        self.blobs_owned.wf()
    }
}

/// What the index's users and blobs stand for.
pub struct DataView {
    pub users: Map<UserId, UserView>,
    pub blobs: Map<crate::hash::Hash, BlobRecordView>,
}

/// The users and the blobs agree: only known users own blobs, and each user's list of owned
/// blobs is exactly the blobs it holds a reference to.
pub open spec fn data_inv(v: DataView) -> bool {
    &&& blobs_wf(v.blobs)
    &&& forall|u: UserId, h: crate::hash::Hash| #[trigger] user_owns(v.blobs, u, h) ==> v.users.contains_key(u)
    &&& forall|u: UserId, h: crate::hash::Hash|
        #![trigger v.users[u].blobs_owned.contains(h)]
        #![trigger user_owns(v.blobs, u, h)]
        v.users.contains_key(u) ==> (v.users[u].blobs_owned.contains(h) <==> user_owns(v.blobs, u, h))
}

/// Adding `file` panics: the owner's bytes used would overflow, or a reference count would.
pub open spec fn add_file_panics(v: DataView, bucket: CanisterId, file: FileAdded) -> bool {
    v.users.contains_key(file.owner) && {
        let user = v.users[file.owner];
        let owns = user_owns(v.blobs, file.owner, file.hash);
        ||| !owns && user.bytes_used + file.size > u64::MAX
        ||| (owns || user.bytes_used + file.size <= user.byte_limit) && !can_add(v.blobs, file.hash, file.owner, bucket)
    }
}

/// The index after `bucket` reports that `file` was added, and whether the file is accepted.
///
/// An unknown owner is refused. An owner who already owns the blob is not charged again. An
/// owner whose allowance the blob would exceed is refused. Otherwise the owner is charged the
/// file's size and now owns the blob. An accepted file is recorded as a reference to its blob.
pub open spec fn spec_add_file_reference(v: DataView, bucket: CanisterId, file: FileAdded) -> (DataView, Result<(), FileRejected>) {
    if !v.users.contains_key(file.owner) {
        (v, Err(FileRejected { file_id: file.file_id, reason: FileRejectedReason::UserNotFound }))
    } else {
        let user = v.users[file.owner];
        let blobs = crate::blobs::spec_add(v.blobs, file.hash, file.size, file.owner, bucket);
        if user_owns(v.blobs, file.owner, file.hash) {
            (DataView { users: v.users, blobs }, Ok(()))
        } else if user.bytes_used + file.size > user.byte_limit {
            (v, Err(FileRejected { file_id: file.file_id, reason: FileRejectedReason::AllowanceExceeded }))
        } else {
            let charged = UserView {
                byte_limit: user.byte_limit,
                bytes_used: (user.bytes_used + file.size) as u64,
                blobs_owned: user.blobs_owned.insert(file.hash),
            };
            (DataView { users: v.users.insert(file.owner, charged), blobs }, Ok(()))
        }
    }
}

/// The index after `bucket` reports that `file` was removed: the reference is dropped, and an
/// owner that no longer owns the blob gets its size back (never going below zero) and no
/// longer lists the blob.
pub open spec fn spec_remove_file_reference(v: DataView, bucket: CanisterId, file: FileRemoved) -> DataView {
    let (blobs, removed) = crate::blobs::spec_remove(v.blobs, file.hash, file.owner, bucket);
    match removed {
        None => DataView { users: v.users, blobs },
        Some(bytes_removed) => if v.users.contains_key(file.owner) {
            let user = v.users[file.owner];
            let refunded = UserView {
                byte_limit: user.byte_limit,
                bytes_used: if user.bytes_used >= bytes_removed { (user.bytes_used - bytes_removed) as u64 } else { 0 },
                blobs_owned: user.blobs_owned.remove(file.hash),
            };
            DataView { users: v.users.insert(file.owner, refunded), blobs }
        } else {
            DataView { users: v.users, blobs }
        },
    }
}

/// The index after a sequence of added files, and the files refused, in order.
pub open spec fn spec_add_files(v: DataView, bucket: CanisterId, files: Seq<FileAdded>) -> (DataView, Seq<FileRejected>)
    decreases files.len(),
{
    if files.len() == 0 {
        (v, Seq::empty())
    } else {
        let (v1, rejected) = spec_add_files(v, bucket, files.drop_last());
        let (v2, r) = spec_add_file_reference(v1, bucket, files.last());
        match r {
            Ok(_) => (v2, rejected),
            Err(e) => (v2, rejected.push(e)),
        }
    }
}

/// Adding the files one after the other panics at some point.
pub open spec fn add_files_panic(v: DataView, bucket: CanisterId, files: Seq<FileAdded>) -> bool {
    exists|i: int| 0 <= i < files.len() && #[trigger] add_file_panics(spec_add_files(v, bucket, files.take(i)).0, bucket, files[i])
}

/// The index after a sequence of removed files.
pub open spec fn spec_remove_files(v: DataView, bucket: CanisterId, files: Seq<FileRemoved>) -> DataView
    decreases files.len(),
{
    if files.len() == 0 {
        v
    } else {
        spec_remove_file_reference(spec_remove_files(v, bucket, files.drop_last()), bucket, files.last())
    }
}

/// Removing a list of files is removing them one after the other, in order: removing no file
/// changes nothing, and removing one more file `f` after `files` is removing `f` from what
/// removing `files` left; so removing `a` then `b` is removing `a + b`.
pub proof fn lemma_remove_files_one_by_one(v: DataView, bucket: CanisterId, files: Seq<FileRemoved>, f: FileRemoved, more: Seq<FileRemoved>)
    ensures
        spec_remove_files(v, bucket, Seq::empty()) == v,
        spec_remove_files(v, bucket, files.push(f)) == spec_remove_file_reference(spec_remove_files(v, bucket, files), bucket, f),
        spec_remove_files(v, bucket, files + more) == spec_remove_files(spec_remove_files(v, bucket, files), bucket, more),
    decreases more.len(),
{
    assert(files.push(f).drop_last() =~= files);
    if more.len() == 0 {
        assert(files + more =~= files);
    } else {
        lemma_remove_files_one_by_one(v, bucket, files, f, more.drop_last());
        assert((files + more).drop_last() =~= files + more.drop_last());
        assert((files + more).last() == more.last());
    }
}

/// Adding a list of files is adding them one after the other, in order: adding no file
/// changes nothing and refuses nothing, and adding one more file `f` after `files` adds `f`
/// to what adding `files` left, refusing it after those refused before if it is refused.
pub proof fn lemma_add_files_one_by_one(v: DataView, bucket: CanisterId, files: Seq<FileAdded>, f: FileAdded)
    ensures
        spec_add_files(v, bucket, Seq::empty()) == (v, Seq::<FileRejected>::empty()),
        spec_add_files(v, bucket, files.push(f)).0 == spec_add_file_reference(spec_add_files(v, bucket, files).0, bucket, f).0,
        spec_add_files(v, bucket, files.push(f)).1 == match spec_add_file_reference(spec_add_files(v, bucket, files).0, bucket, f).1 {
            Ok(_) => spec_add_files(v, bucket, files).1,
            Err(e) => spec_add_files(v, bucket, files).1.push(e),
        },
{
    assert(files.push(f).drop_last() =~= files);
}

/// The last configuration of user `u` in `configs`, if any.
pub open spec fn last_config(configs: Seq<api::add_or_update_users::UserConfig>, u: UserId) -> Option<api::add_or_update_users::UserConfig>
    decreases configs.len(),
{
    if configs.len() == 0 {
        None
    } else if configs.last().user_id == u {
        Some(configs.last())
    } else {
        last_config(configs.drop_last(), u)
    }
}

/// Setting allowances: a configured user ends with the allowance of its last configuration,
/// whatever its allowance was, keeping what it used and owned when it was known and using and
/// owning nothing when it was new; a user that is not configured is left as it was, and no
/// other user appears.
pub proof fn lemma_add_or_update_users_sets_limits(users: Map<UserId, UserView>, configs: Seq<api::add_or_update_users::UserConfig>, u: UserId)
    ensures
        last_config(configs, u) matches Some(c) ==> {
            &&& spec_add_or_update_users(users, configs).contains_key(u)
            &&& spec_add_or_update_users(users, configs)[u].byte_limit == c.byte_limit
            &&& spec_add_or_update_users(users, configs)[u].bytes_used == (if users.contains_key(u) { users[u].bytes_used } else { 0 })
            &&& spec_add_or_update_users(users, configs)[u].blobs_owned == (if users.contains_key(u) {
                users[u].blobs_owned
            } else {
                Set::empty()
            })
        },
        last_config(configs, u) is None ==> {
            &&& spec_add_or_update_users(users, configs).contains_key(u) == users.contains_key(u)
            &&& users.contains_key(u) ==> spec_add_or_update_users(users, configs)[u] == users[u]
        },
    decreases configs.len(),
{
    if configs.len() > 0 {
        lemma_add_or_update_users_sets_limits(users, configs.drop_last(), u);
    }
}

/// A new user with the given allowance, using nothing.
pub open spec fn new_user(byte_limit: u64) -> UserView {
    UserView { byte_limit, bytes_used: 0, blobs_owned: Set::empty() }
}

/// The users after setting the allowance of each configured user, adding those that are new.
pub open spec fn spec_add_or_update_users(users: Map<UserId, UserView>, configs: Seq<api::add_or_update_users::UserConfig>) -> Map<UserId, UserView>
    decreases configs.len(),
{
    if configs.len() == 0 {
        users
    } else {
        let before = spec_add_or_update_users(users, configs.drop_last());
        let c = configs.last();
        if before.contains_key(c.user_id) {
            before.insert(c.user_id, UserView { byte_limit: c.byte_limit, ..before[c.user_id] })
        } else {
            before.insert(c.user_id, new_user(c.byte_limit))
        }
    }
}

/// The events queued on every bucket while the configured users are set: one `UserAdded`
/// for each user that is new when its configuration is reached.
pub open spec fn spec_added_user_events(users: Map<UserId, UserView>, configs: Seq<api::add_or_update_users::UserConfig>) -> Seq<EventToSync>
    decreases configs.len(),
{
    if configs.len() == 0 {
        Seq::empty()
    } else {
        let before = spec_add_or_update_users(users, configs.drop_last());
        let events = spec_added_user_events(users, configs.drop_last());
        if before.contains_key(configs.last().user_id) {
            events
        } else {
            events.push(EventToSync::UserAdded(configs.last().user_id))
        }
    }
}

/// Adding a file keeps users and blobs in agreement.
pub proof fn lemma_add_file_inv(v: DataView, bucket: CanisterId, file: FileAdded)
    requires
        data_inv(v),
        !add_file_panics(v, bucket, file),
    ensures
        data_inv(spec_add_file_reference(v, bucket, file).0),
{
    let (v2, r) = spec_add_file_reference(v, bucket, file);
    if v.users.contains_key(file.owner) {
        let owns = user_owns(v.blobs, file.owner, file.hash);
        let user = v.users[file.owner];
        if owns || user.bytes_used + file.size <= user.byte_limit {
            crate::blobs::lemma_add_owns(v.blobs, file.hash, file.size, file.owner, bucket);
            assert forall|u: UserId, h: crate::hash::Hash| v2.users.contains_key(u) implies (#[trigger] v2.users[u].blobs_owned.contains(h)
                <==> user_owns(v2.blobs, u, h)) by {
                assert(v.users.contains_key(u));
                assert(v.users[u].blobs_owned.contains(h) <==> user_owns(v.blobs, u, h));
                if u == file.owner && h == file.hash && owns {
                    assert(v.users[u].blobs_owned.contains(h));
                }
            }
            assert forall|u: UserId, h: crate::hash::Hash| #[trigger] user_owns(v2.blobs, u, h) implies v2.users.contains_key(u) by {
                if !(u == file.owner && h == file.hash) {
                    assert(user_owns(v.blobs, u, h));
                }
            }
        }
    }
}

/// Removing a file keeps users and blobs in agreement.
pub proof fn lemma_remove_file_inv(v: DataView, bucket: CanisterId, file: FileRemoved)
    requires
        data_inv(v),
    ensures
        data_inv(spec_remove_file_reference(v, bucket, file)),
{
    let v2 = spec_remove_file_reference(v, bucket, file);
    let (blobs, removed) = crate::blobs::spec_remove(v.blobs, file.hash, file.owner, bucket);
    crate::blobs::lemma_remove_owns(v.blobs, file.hash, file.owner, bucket);
    if removed is Some {
        assert(user_owns(v.blobs, file.owner, file.hash));
        assert(v.users.contains_key(file.owner));
    }
    assert forall|u: UserId, h: crate::hash::Hash| v2.users.contains_key(u) implies (#[trigger] v2.users[u].blobs_owned.contains(h)
        <==> user_owns(v2.blobs, u, h)) by {
        assert(v.users.contains_key(u));
        assert(v.users[u].blobs_owned.contains(h) <==> user_owns(v.blobs, u, h));
    }
    assert forall|u: UserId, h: crate::hash::Hash| #[trigger] user_owns(v2.blobs, u, h) implies v2.users.contains_key(u) by {
        assert(user_owns(v.blobs, u, h));
    }
}

/// Removing a file undoes adding it: the users and blobs come back exactly as they were,
/// provided the blob is new or was recorded with the size the file reports (the refund is the
/// recorded size, the charge the reported one).
pub proof fn lemma_remove_file_undoes_add(v: DataView, bucket: CanisterId, added: FileAdded, removed: FileRemoved)
    requires
        data_inv(v),
        !add_file_panics(v, bucket, added),
        removed.owner == added.owner,
        removed.hash == added.hash,
        v.blobs.contains_key(added.hash) ==> v.blobs[added.hash].size == added.size,
    ensures
        spec_remove_file_reference(spec_add_file_reference(v, bucket, added).0, bucket, removed) == v,
{
    let owner = added.owner;
    let h = added.hash;
    let (v1, r) = spec_add_file_reference(v, bucket, added);
    if v1 == v {
        // Nothing was added, so the owner does not own the blob and nothing is removed.
        assert(!user_owns(v.blobs, owner, h));
        if v.blobs.contains_key(h) {
            let rec = v.blobs[h];
            assert(!rec.owners.contains_key(owner));
            assert(v.blobs.insert(h, BlobRecordView { owners: rec.owners, size: rec.size }) =~= v.blobs);
        }
        assert(crate::blobs::spec_remove(v.blobs, h, owner, bucket) == (v.blobs, None::<u64>));
    } else {
        crate::blobs::lemma_remove_undoes_add(v.blobs, h, added.size, owner, bucket);
        if user_owns(v.blobs, owner, h) {
            assert(v1.users == v.users);
        } else {
            let user = v.users[owner];
            assert(!user.blobs_owned.contains(h));
            assert(user.blobs_owned.insert(h).remove(h) =~= user.blobs_owned);
            let back = spec_remove_file_reference(v1, bucket, removed);
            assert(back.users[owner] == user);
            assert(back.users =~= v.users);
        }
    }
}

/// The blobs with every reference of `old_user_id` handed over to `new_user_id`.
pub open spec fn rename_owner(m: Map<crate::hash::Hash, BlobRecordView>, old_user_id: UserId, new_user_id: UserId) -> Map<crate::hash::Hash, BlobRecordView> {
    m.map_values(|r: BlobRecordView| move_owner(r, old_user_id, new_user_id))
}

/// Renaming hands every reference count over unchanged: on each blob the new id holds exactly
/// the counts (same buckets, same counts) that the old id held, the old id holds none, every
/// other owner keeps its counts, and the blobs and their sizes stay.
pub proof fn lemma_rename_hands_over_counts(
    m: Map<crate::hash::Hash, BlobRecordView>,
    old_user_id: UserId,
    new_user_id: UserId,
    h: crate::hash::Hash,
    u: UserId,
)
    requires
        old_user_id != new_user_id,
        m.contains_key(h) ==> !m[h].owners.contains_key(new_user_id),
    ensures
        rename_owner(m, old_user_id, new_user_id).dom() == m.dom(),
        m.contains_key(h) ==> {
            let r = rename_owner(m, old_user_id, new_user_id)[h];
            &&& counts_of(r.owners, new_user_id) == counts_of(m[h].owners, old_user_id)
            &&& counts_of(r.owners, old_user_id) == Seq::<ReferenceCount>::empty()
            &&& (u != old_user_id && u != new_user_id ==> counts_of(r.owners, u) == counts_of(m[h].owners, u))
            &&& r.size == m[h].size
        },
{
    assert(rename_owner(m, old_user_id, new_user_id).dom() =~= m.dom());
}

/// Renaming a known user to an unknown id keeps users and blobs in agreement.
pub proof fn lemma_rename_inv(v: DataView, old_user_id: UserId, new_user_id: UserId)
    requires
        data_inv(v),
        v.users.contains_key(old_user_id),
        !v.users.contains_key(new_user_id),
    ensures
        data_inv(DataView {
            users: v.users.remove(old_user_id).insert(new_user_id, v.users[old_user_id]),
            blobs: rename_owner(v.blobs, old_user_id, new_user_id),
        }),
{
    let users2 = v.users.remove(old_user_id).insert(new_user_id, v.users[old_user_id]);
    let blobs2 = rename_owner(v.blobs, old_user_id, new_user_id);
    assert(old_user_id != new_user_id);
    assert forall|h: crate::hash::Hash| !user_owns(v.blobs, new_user_id, h) by {
        if user_owns(v.blobs, new_user_id, h) {
            assert(v.users.contains_key(new_user_id));
        }
    }
    assert forall|u: UserId, h: crate::hash::Hash| #[trigger] user_owns(blobs2, u, h) <==> (if u == new_user_id {
        user_owns(v.blobs, old_user_id, h)
    } else if u == old_user_id {
        false
    } else {
        user_owns(v.blobs, u, h)
    }) by {
        if v.blobs.contains_key(h) {
            assert(blobs2[h] == move_owner(v.blobs[h], old_user_id, new_user_id));
            assert(!user_owns(v.blobs, new_user_id, h));
        }
    }
    assert forall|h: crate::hash::Hash| #[trigger] blobs2.contains_key(h) implies {
        &&& owners_wf(blobs2[h].owners)
        &&& blobs2[h].owners.dom().len() > 0
        &&& blobs2[h].owners.dom().finite()
    } by {
        let r = v.blobs[h];
        assert(owners_wf(r.owners));
        assert(blobs2[h] == move_owner(r, old_user_id, new_user_id));
        if r.owners.contains_key(old_user_id) {
            let o = blobs2[h].owners;
            assert(o.dom() =~= r.owners.dom().remove(old_user_id).insert(new_user_id));
            assert(o.contains_key(new_user_id));
            vstd::set_lib::lemma_set_empty_equivalency_len(o.dom());
        }
    }
    assert forall|u: UserId, h: crate::hash::Hash| #[trigger] user_owns(blobs2, u, h) implies users2.contains_key(u) by {
        if u != new_user_id {
            assert(user_owns(v.blobs, u, h));
        }
    }
    assert forall|u: UserId, h: crate::hash::Hash| users2.contains_key(u) implies (#[trigger] users2[u].blobs_owned.contains(h)
        <==> user_owns(blobs2, u, h)) by {
        if u == new_user_id {
            assert(v.users[old_user_id].blobs_owned.contains(h) <==> user_owns(v.blobs, old_user_id, h));
        } else {
            assert(v.users[u].blobs_owned.contains(h) <==> user_owns(v.blobs, u, h));
        }
    }
}

/// A user is charged for a blob once: after a file is accepted, another file of the same
/// owner and hash (from any bucket) leaves every user's usage and blob list unchanged.
pub proof fn lemma_second_add_is_free(v: DataView, bucket: CanisterId, first: FileAdded, second_bucket: CanisterId, second: FileAdded)
    requires
        data_inv(v),
        !add_file_panics(v, bucket, first),
        spec_add_file_reference(v, bucket, first).1 is Ok,
        second.owner == first.owner,
        second.hash == first.hash,
    ensures
        spec_add_file_reference(spec_add_file_reference(v, bucket, first).0, second_bucket, second).0.users
            == spec_add_file_reference(v, bucket, first).0.users,
        spec_add_file_reference(spec_add_file_reference(v, bucket, first).0, second_bucket, second).1 is Ok,
{
    crate::blobs::lemma_add_owns(v.blobs, first.hash, first.size, first.owner, bucket);
    let v1 = spec_add_file_reference(v, bucket, first).0;
    assert(user_owns(v1.blobs, first.owner, first.hash));
    assert(v1.users.contains_key(first.owner));
}

/// The total recorded size of the blobs in `s`.
pub open spec fn total_size(m: Map<crate::hash::Hash, BlobRecordView>, s: Set<crate::hash::Hash>) -> int
    decreases s.len(),
{
    if s.finite() && s.len() > 0 {
        let h = s.choose();
        proof {
            vstd::set_lib::lemma_set_empty_equivalency_len(s);
        }
        m[h].size + total_size(m, s.remove(h))
    } else {
        0
    }
}

/// Every user's bytes used are the total recorded size of the blobs it owns.
pub open spec fn accounting(v: DataView) -> bool {
    forall|u: UserId| #[trigger] v.users.contains_key(u) ==> {
        &&& v.users[u].blobs_owned.finite()
        &&& v.users[u].bytes_used == total_size(v.blobs, v.users[u].blobs_owned)
    }
}

/// The total does not depend on the order the blobs are counted in: any one blob can be
/// counted first.
pub proof fn lemma_total_size_remove(m: Map<crate::hash::Hash, BlobRecordView>, s: Set<crate::hash::Hash>, h: crate::hash::Hash)
    requires
        s.finite(),
        s.contains(h),
    ensures
        total_size(m, s) == m[h].size + total_size(m, s.remove(h)),
    decreases s.len(),
{
    vstd::set_lib::lemma_set_empty_equivalency_len(s);
    let c = s.choose();
    if c != h {
        lemma_total_size_remove(m, s.remove(c), h);
        lemma_total_size_remove(m, s.remove(h), c);
        assert(s.remove(c).remove(h) =~= s.remove(h).remove(c));
    }
}

/// The total of a set with one more blob.
pub proof fn lemma_total_size_insert(m: Map<crate::hash::Hash, BlobRecordView>, s: Set<crate::hash::Hash>, h: crate::hash::Hash)
    requires
        s.finite(),
        !s.contains(h),
    ensures
        total_size(m, s.insert(h)) == m[h].size + total_size(m, s),
{
    lemma_total_size_remove(m, s.insert(h), h);
    assert(s.insert(h).remove(h) =~= s);
}

/// The total only depends on the sizes of the blobs counted.
pub proof fn lemma_total_size_same_sizes(m1: Map<crate::hash::Hash, BlobRecordView>, m2: Map<crate::hash::Hash, BlobRecordView>, s: Set<crate::hash::Hash>)
    requires
        s.finite(),
        forall|h: crate::hash::Hash| #[trigger] s.contains(h) ==> m1[h].size == m2[h].size,
    ensures
        total_size(m1, s) == total_size(m2, s),
    decreases s.len(),
{
    if s.len() > 0 {
        vstd::set_lib::lemma_set_empty_equivalency_len(s);
        let c = s.choose();
        lemma_total_size_same_sizes(m1, m2, s.remove(c));
    }
}

/// A total is never negative.
pub proof fn lemma_total_size_nonnegative(m: Map<crate::hash::Hash, BlobRecordView>, s: Set<crate::hash::Hash>)
    ensures
        total_size(m, s) >= 0,
    decreases s.len(),
{
    if s.finite() && s.len() > 0 {
        vstd::set_lib::lemma_set_empty_equivalency_len(s);
        lemma_total_size_nonnegative(m, s.remove(s.choose()));
    }
}

/// Bytes used stay the total size of the blobs owned when a file is added whose size is the
/// one recorded for its blob (or whose blob is new). A file whose blob is known under another
/// size breaks the accounting: the charge is the reported size, a later refund the recorded one.
pub proof fn lemma_accounting_add_file(v: DataView, bucket: CanisterId, file: FileAdded)
    requires
        data_inv(v),
        accounting(v),
        !add_file_panics(v, bucket, file),
        v.blobs.contains_key(file.hash) ==> v.blobs[file.hash].size == file.size,
    ensures
        accounting(spec_add_file_reference(v, bucket, file).0),
{
    let (v2, r) = spec_add_file_reference(v, bucket, file);
    if v.users.contains_key(file.owner) {
        let user = v.users[file.owner];
        let owns = user_owns(v.blobs, file.owner, file.hash);
        if owns || user.bytes_used + file.size <= user.byte_limit {
            assert forall|h: crate::hash::Hash| #[trigger] v.blobs.contains_key(h) implies v2.blobs.contains_key(h)
                && v2.blobs[h].size == v.blobs[h].size by {}
            assert(v2.blobs[file.hash].size == file.size);
            assert forall|u: UserId| #[trigger] v2.users.contains_key(u) implies {
                &&& v2.users[u].blobs_owned.finite()
                &&& v2.users[u].bytes_used == total_size(v2.blobs, v2.users[u].blobs_owned)
            } by {
                let owned = v.users[u].blobs_owned;
                assert forall|h: crate::hash::Hash| #[trigger] owned.contains(h) implies v.blobs[h].size == v2.blobs[h].size by {
                    assert(owned.contains(h) <==> user_owns(v.blobs, u, h));
                }
                lemma_total_size_same_sizes(v.blobs, v2.blobs, owned);
                if u == file.owner && !owns {
                    assert(!owned.contains(file.hash));
                    lemma_total_size_insert(v2.blobs, owned, file.hash);
                }
            }
        }
    }
}

/// Bytes used stay the total size of the blobs owned when a file is removed.
pub proof fn lemma_accounting_remove_file(v: DataView, bucket: CanisterId, file: FileRemoved)
    requires
        data_inv(v),
        accounting(v),
    ensures
        accounting(spec_remove_file_reference(v, bucket, file)),
{
    let v2 = spec_remove_file_reference(v, bucket, file);
    let (blobs2, removed) = crate::blobs::spec_remove(v.blobs, file.hash, file.owner, bucket);
    crate::blobs::lemma_remove_owns(v.blobs, file.hash, file.owner, bucket);
    assert forall|u: UserId| #[trigger] v2.users.contains_key(u) implies {
        &&& v2.users[u].blobs_owned.finite()
        &&& v2.users[u].bytes_used == total_size(v2.blobs, v2.users[u].blobs_owned)
    } by {
        let owned = v.users[u].blobs_owned;
        let owned2 = v2.users[u].blobs_owned;
        assert forall|h: crate::hash::Hash| #[trigger] owned2.contains(h) implies v.blobs[h].size == v2.blobs[h].size by {
            assert(owned.contains(h) <==> user_owns(v.blobs, u, h));
            assert(user_owns(v.blobs, u, h));
            if h == file.hash {
                assert(user_owns(v2.blobs, u, h));
            }
        }
        if removed is Some && u == file.owner {
            assert(user_owns(v.blobs, u, file.hash));
            assert(owned.contains(file.hash));
            lemma_total_size_remove(v.blobs, owned, file.hash);
            lemma_total_size_nonnegative(v.blobs, owned.remove(file.hash));
            lemma_total_size_same_sizes(v.blobs, v2.blobs, owned.remove(file.hash));
        } else {
            lemma_total_size_same_sizes(v.blobs, v2.blobs, owned);
        }
    }
}

/// Bytes used stay the total size of the blobs owned when a known user takes an unknown id.
pub proof fn lemma_accounting_rename(v: DataView, old_user_id: UserId, new_user_id: UserId)
    requires
        data_inv(v),
        accounting(v),
        v.users.contains_key(old_user_id),
        !v.users.contains_key(new_user_id),
    ensures
        accounting(DataView {
            users: v.users.remove(old_user_id).insert(new_user_id, v.users[old_user_id]),
            blobs: rename_owner(v.blobs, old_user_id, new_user_id),
        }),
{
    let users2 = v.users.remove(old_user_id).insert(new_user_id, v.users[old_user_id]);
    let blobs2 = rename_owner(v.blobs, old_user_id, new_user_id);
    assert forall|u: UserId| #[trigger] users2.contains_key(u) implies {
        &&& users2[u].blobs_owned.finite()
        &&& users2[u].bytes_used == total_size(blobs2, users2[u].blobs_owned)
    } by {
        let w = if u == new_user_id { old_user_id } else { u };
        let owned = v.users[w].blobs_owned;
        assert(users2[u] == v.users[w]);
        assert forall|h: crate::hash::Hash| #[trigger] owned.contains(h) implies v.blobs[h].size == blobs2[h].size by {
            assert(owned.contains(h) <==> user_owns(v.blobs, w, h));
        }
        lemma_total_size_same_sizes(v.blobs, blobs2, owned);
    }
}

/// New users use nothing and own nothing, so adding them keeps the accounting.
pub proof fn lemma_accounting_new_user(v: DataView, user_id: UserId, byte_limit: u64)
    requires
        accounting(v),
    ensures
        accounting(DataView { users: v.users.insert(user_id, new_user(byte_limit)), blobs: v.blobs }),
{
    assert(total_size(v.blobs, Set::<crate::hash::Hash>::empty()) == 0);
}

/// Setting allowances and adding new users keeps the accounting.
pub proof fn lemma_accounting_add_or_update_users(v: DataView, configs: Seq<api::add_or_update_users::UserConfig>)
    requires
        accounting(v),
    ensures
        accounting(DataView { users: spec_add_or_update_users(v.users, configs), blobs: v.blobs }),
    decreases configs.len(),
{
    if configs.len() > 0 {
        lemma_accounting_add_or_update_users(v, configs.drop_last());
        let before = spec_add_or_update_users(v.users, configs.drop_last());
        let c = configs.last();
        if !before.contains_key(c.user_id) {
            assert(total_size(v.blobs, Set::<crate::hash::Hash>::empty()) == 0);
        }
        let after = spec_add_or_update_users(v.users, configs);
        let dv = DataView { users: before, blobs: v.blobs };
        assert(accounting(dv));
        assert forall|u: UserId| #[trigger] after.contains_key(u) implies {
            &&& after[u].blobs_owned.finite()
            &&& after[u].bytes_used == total_size(v.blobs, after[u].blobs_owned)
        } by {
            if u != c.user_id {
                assert(dv.users.contains_key(u));
            } else if before.contains_key(u) {
                assert(dv.users.contains_key(u));
                assert(after[u].blobs_owned == before[u].blobs_owned);
                assert(after[u].bytes_used == before[u].bytes_used);
            } else {
                assert(after[u] == new_user(c.byte_limit));
            }
        }
    }
}

/// The most events that a bucket is sent at once.
pub const MAX_EVENTS_TO_SYNC_PER_BATCH: usize = 1000;

/// The cycles that a new bucket canister starts with.
pub const BUCKET_CANISTER_INITIAL_CYCLES_BALANCE: Cycles = 10_000_000_000_000;

/// The balance that the index keeps when it creates a bucket.
pub const MIN_CYCLES_BALANCE_FOR_NEW_BUCKET: Cycles = 60_000_000_000_000;

/// The cycles that creating a bucket takes, and the balance that must remain afterwards: in
/// test mode a quarter of the first and a tenth of the second.
pub open spec fn spec_bucket_creation_cycles(test_mode: bool, create_canister_fee: Cycles) -> (Cycles, Cycles) {
    if test_mode {
        (
            ((BUCKET_CANISTER_INITIAL_CYCLES_BALANCE + create_canister_fee) / 4) as Cycles,
            (MIN_CYCLES_BALANCE_FOR_NEW_BUCKET / 10) as Cycles,
        )
    } else {
        ((BUCKET_CANISTER_INITIAL_CYCLES_BALANCE + create_canister_fee) as Cycles, MIN_CYCLES_BALANCE_FOR_NEW_BUCKET)
    }
}

/// Users that a new bucket must be told of: one event per user, each adding a user that the
/// index knows, and every such user added.
pub open spec fn adds_all_users(events: Seq<EventToSync>, users: Set<UserId>) -> bool {
    &&& events.len() == users.len()
    &&& forall|i: int| 0 <= i < events.len() ==> (#[trigger] events[i] matches EventToSync::UserAdded(u) && users.contains(u))
    &&& forall|u: UserId| #[trigger] users.contains(u) ==> events.contains(EventToSync::UserAdded(u))
}

/// What a new bucket is created with: the code it is installed with, the cycles it is given
/// and its install arguments.
#[derive(Debug)]
pub struct CreateBucketArgs {
    pub canister_wasm: CanisterWasm,
    pub cycles_to_use: Cycles,
    pub init_canister_args: BucketInitArgs,
}

/// What to do about creating a bucket.
#[derive(Debug)]
pub enum PrepareResponse {
    /// A bucket is already being created.
    DoNothing,
    /// The index cannot spend the cycles a bucket takes.
    CyclesBalanceTooLow,
    /// Create a bucket.
    CreateBucket(CreateBucketArgs),
}

/// What a bucket canister added by hand is installed with: the code and its install arguments.
#[derive(Debug)]
pub struct InitBucketArgs {
    pub wasm: CanisterWasm,
    pub init_args: BucketInitArgs,
}

/// What the index reports of itself.
#[derive(Clone, Debug)]
pub struct Metrics {
    pub memory_used: u64,
    pub now: TimestampMillis,
    pub cycles_balance: Cycles,
    pub wasm_version: Version,
    pub active_buckets: Vec<BucketMetrics>,
    pub full_buckets: Vec<BucketMetrics>,
    pub bucket_upgrades_pending: u64,
    pub bucket_upgrades_in_progress: u64,
    pub bucket_upgrades_failed: u64,
    pub bucket_canister_wasm: Version,
    pub cycles_dispenser_config: Option<CyclesDispenserConfig>,
}

/// The state of the index canister.
pub struct Data {
    service_principals: VecMap<Principal, ()>,
    users: VecMap<UserId, UserRecordInternal>,
    blobs: Blobs,
    pub blob_buckets: BlobBuckets,
    pub buckets: Buckets,
    pub canisters_requiring_upgrade: CanistersRequiringUpgrade,
    pub bucket_canister_wasm: CanisterWasm,
    pub total_cycles_spent_on_canisters: Cycles,
    pub cycles_dispenser_config: Option<CyclesDispenserConfig>,
    pub test_mode: bool,
}

impl View for Data {
    type V = DataView;

    closed spec fn view(&self) -> DataView {
        DataView { users: self.users@.map_values(|r: UserRecordInternal| r.view()), blobs: self.blobs@ }
    }
}

impl Data {
    /// The principals allowed to manage the index.
    pub closed spec fn service_principals(&self) -> Set<Principal> {
        self.service_principals@.dom()
    }

    /// For each blob, the buckets known to hold it, in the order they were recorded.
    pub closed spec fn blob_buckets(&self) -> Map<crate::hash::Hash, BucketsView> {
        self.blob_buckets@
    }

    /// The bucket canisters.
    pub closed spec fn buckets(&self) -> Buckets {
        self.buckets
    }

    /// The queue of bucket upgrades.
    pub closed spec fn upgrades(&self) -> CanistersRequiringUpgrade {
        self.canisters_requiring_upgrade
    }

    /// What the index keeps besides its users, blobs, buckets and upgrade queue: the code that
    /// buckets run, the cycles dispenser, the cycles spent on canisters, and whether the index
    /// runs in test mode.
    pub closed spec fn settings(&self) -> ((Version, Seq<u8>), Option<CyclesDispenserConfig>, Cycles, bool) {
        (self.bucket_canister_wasm@, self.cycles_dispenser_config, self.total_cycles_spent_on_canisters, self.test_mode)
    }

    /// The code that buckets run: its version and module.
    pub open spec fn spec_bucket_canister_wasm(&self) -> (Version, Seq<u8>) {
        self.settings().0
    }

    /// The canister that tops up the index's cycles, if any.
    pub open spec fn spec_cycles_dispenser_config(&self) -> Option<CyclesDispenserConfig> {
        self.settings().1
    }

    /// The cycles spent on canisters so far.
    pub open spec fn spec_total_cycles_spent(&self) -> Cycles {
        self.settings().2
    }

    /// Whether the index runs in test mode.
    pub open spec fn spec_test_mode(&self) -> bool {
        self.settings().3
    }

    /// All maps are well formed, and users and blobs agree.
    pub closed spec fn inv(&self) -> bool {
        &&& self.service_principals.wf()
        &&& self.users.wf()
        &&& forall|u: UserId| #[trigger] self.users@.contains_key(u) ==> self.users@[u].wf()
        &&& self.blobs.wf()
        &&& self.blob_buckets.wf()
        &&& self.buckets.wf()
        &&& data_inv(self@)
    }

    /// A well-formed index has users and blobs that agree, and every blob record is well formed.
    pub proof fn lemma_inv(&self)
        requires
            self.inv(),
        ensures
            data_inv(self@),
            blobs_wf(self@.blobs),
            buckets_wf(self.blob_buckets()),
    {
        self.blob_buckets.lemma_wf();
    }

    /// Adds a bucket that accepts uploads; it goes to the end of the active buckets, and the
    /// lock taken to create a bucket is released when asked.
    pub fn add_bucket(&mut self, bucket: BucketRecord, release_creation_lock: bool)
        requires
            old(self).inv(),
        ensures
            final(self).inv(),
            final(self)@ == old(self)@,
            final(self).service_principals() == old(self).service_principals(),
            final(self).settings() == old(self).settings(),
            final(self).blob_buckets() == old(self).blob_buckets(),
            final(self).upgrades() == old(self).upgrades(),
            final(self).buckets().active() == old(self).buckets().active().push(bucket),
            final(self).buckets().full() == old(self).buckets().full(),
            final(self).buckets().creation_locked() == (old(self).buckets().creation_locked() && !release_creation_lock),
    {
        self.buckets.add(bucket);
        if release_creation_lock {
            self.buckets.release_creation_lock();
        }
    }

    /// The cycles that creating a bucket takes and the balance that must remain afterwards,
    /// given the fee for creating a canister.
    pub fn bucket_creation_cycles(&self, create_canister_fee: Cycles) -> (r: (Cycles, Cycles))
        requires
            BUCKET_CANISTER_INITIAL_CYCLES_BALANCE + create_canister_fee <= u128::MAX,
        ensures
            r == spec_bucket_creation_cycles(self.spec_test_mode(), create_canister_fee),
    {
        if self.test_mode {
            ((BUCKET_CANISTER_INITIAL_CYCLES_BALANCE + create_canister_fee) / 4, MIN_CYCLES_BALANCE_FOR_NEW_BUCKET / 10)
        } else {
            (BUCKET_CANISTER_INITIAL_CYCLES_BALANCE + create_canister_fee, MIN_CYCLES_BALANCE_FOR_NEW_BUCKET)
        }
    }

    /// Decides whether to create a bucket: nothing while one is being created; otherwise the
    /// lock is taken, and released again when the index cannot spend `cycles_required`.
    pub fn prepare_bucket_creation(&mut self, cycles_required: Cycles, can_spend_cycles: bool) -> (r: PrepareResponse)
        requires
            old(self).inv(),
        ensures
            final(self).inv(),
            final(self)@ == old(self)@,
            final(self).service_principals() == old(self).service_principals(),
            final(self).settings() == old(self).settings(),
            final(self).blob_buckets() == old(self).blob_buckets(),
            final(self).upgrades() == old(self).upgrades(),
            final(self).buckets().active() == old(self).buckets().active(),
            final(self).buckets().full() == old(self).buckets().full(),
            r is DoNothing <==> old(self).buckets().creation_locked(),
            r is CyclesBalanceTooLow <==> !old(self).buckets().creation_locked() && !can_spend_cycles,
            r is CreateBucket <==> !old(self).buckets().creation_locked() && can_spend_cycles,
            r matches PrepareResponse::CreateBucket(a) ==> {
                &&& a.cycles_to_use == cycles_required
                &&& a.canister_wasm@ == old(self).spec_bucket_canister_wasm()
                &&& a.init_canister_args == (BucketInitArgs {
                    wasm_version: old(self).spec_bucket_canister_wasm().0,
                    test_mode: old(self).spec_test_mode(),
                })
            },
            final(self).buckets().creation_locked() == (old(self).buckets().creation_locked() || can_spend_cycles),
    {
        if !self.buckets.try_to_acquire_creation_lock() {
            return PrepareResponse::DoNothing;
        }
        if !can_spend_cycles {
            self.buckets.release_creation_lock();
            return PrepareResponse::CyclesBalanceTooLow;
        }
        PrepareResponse::CreateBucket(CreateBucketArgs {
            canister_wasm: self.bucket_canister_wasm.copy(),
            cycles_to_use: cycles_required,
            init_canister_args: BucketInitArgs { wasm_version: self.bucket_canister_wasm.version, test_mode: self.test_mode },
        })
    }

    /// What a bucket canister added by hand is installed with; nothing when it is already a
    /// known bucket.
    pub fn prepare_add_bucket(&self, canister_id: &CanisterId) -> (r: Option<InitBucketArgs>)
        requires
            self.inv(),
        ensures
            r is None <==> spec_get(self.buckets().active(), self.buckets().full(), *canister_id) is Some,
            r matches Some(a) ==> {
                &&& a.wasm@ == self.spec_bucket_canister_wasm()
                &&& a.init_args == (BucketInitArgs {
                    wasm_version: self.spec_bucket_canister_wasm().0,
                    test_mode: self.spec_test_mode(),
                })
            },
    {
        if self.buckets.get(canister_id).is_some() {
            None
        } else {
            Some(InitBucketArgs {
                wasm: self.bucket_canister_wasm.copy(),
                init_args: BucketInitArgs { wasm_version: self.bucket_canister_wasm.version, test_mode: self.test_mode },
            })
        }
    }

    /// Records a newly created bucket: it is told of every user first, then it is added to
    /// the end of the active buckets and the creation lock is released.
    pub fn commit_new_bucket(&mut self, bucket: BucketRecord)
        requires
            old(self).inv(),
        ensures
            final(self).inv(),
            final(self)@ == old(self)@,
            final(self).service_principals() == old(self).service_principals(),
            final(self).settings() == old(self).settings(),
            final(self).blob_buckets() == old(self).blob_buckets(),
            final(self).upgrades() == old(self).upgrades(),
            final(self).buckets().full() == old(self).buckets().full(),
            !final(self).buckets().creation_locked(),
            final(self).buckets().active().len() == old(self).buckets().active().len() + 1,
            final(self).buckets().active().drop_last() == old(self).buckets().active(),
            ({
                let added = final(self).buckets().active().last();
                &&& added.canister_id == bucket.canister_id
                &&& added.wasm_version == bucket.wasm_version
                &&& added.bytes_used == bucket.bytes_used
                &&& added.sync_in_progress == bucket.sync_in_progress
                &&& added.events_to_sync@.take(bucket.events_to_sync@.len() as int) == bucket.events_to_sync@
                &&& adds_all_users(
                    added.events_to_sync@.skip(bucket.events_to_sync@.len() as int),
                    old(self)@.users.dom(),
                )
            }),
    {
        let ghost b0 = bucket;
        let mut bucket = bucket;
        let ghost events0 = bucket.events_to_sync@;
        let n = self.users.len();
        proof {
            self.users.lemma_entries();
            self.users.lemma_distinct();
        }
        let mut i: usize = 0;
        while i < n
            invariant
                n == self.users.spec_entries().len(),
                i <= n,
                bucket.events_to_sync@.len() == events0.len() + i,
                bucket.canister_id == b0.canister_id,
                bucket.wasm_version == b0.wasm_version,
                bucket.bytes_used == b0.bytes_used,
                bucket.sync_in_progress == b0.sync_in_progress,
                bucket.events_to_sync@.take(events0.len() as int) == events0,
                forall|j: int| 0 <= j < i ==> #[trigger] bucket.events_to_sync@[events0.len() + j]
                    == EventToSync::UserAdded(self.users.spec_entries()[j].0),
            decreases n - i,
        {
            let e = self.users.entry_at(i);
            let ghost before = bucket.events_to_sync@;
            bucket.events_to_sync.push(EventToSync::UserAdded(e.0));
            proof {
                assert(bucket.events_to_sync@.take(events0.len() as int) =~= before.take(events0.len() as int));
                assert forall|j: int| 0 <= j < i + 1 implies #[trigger] bucket.events_to_sync@[events0.len() + j]
                    == EventToSync::UserAdded(self.users.spec_entries()[j].0) by {
                    if j < i {
                        assert(bucket.events_to_sync@[events0.len() + j] == before[events0.len() + j]);
                    }
                }
            }
            i = i + 1;
        }
        proof {
            let users = self@.users.dom();
            let es = self.users.spec_entries();
            let added = bucket.events_to_sync@.skip(events0.len() as int);
            assert(users =~= self.users@.dom());
            assert forall|j: int| 0 <= j < added.len() implies (#[trigger] added[j] matches EventToSync::UserAdded(u) && users.contains(u)) by {
                assert(added[j] == bucket.events_to_sync@[events0.len() + j]);
                assert(self.users@.contains_key(es[j].0));
            }
            assert forall|u: UserId| #[trigger] users.contains(u) implies added.contains(EventToSync::UserAdded(u)) by {
                assert(self.users@.contains_key(u));
                let j = choose|j: int| 0 <= j < es.len() && es[j].0 == u;
                assert(added[j] == bucket.events_to_sync@[events0.len() + j]);
            }
        }
        let ghost b = bucket;
        self.buckets.add(bucket);
        self.buckets.release_creation_lock();
        proof {
            assert(self.buckets().active().drop_last() =~= old(self).buckets().active());
        }
    }

    /// A fresh index: the given service principals, no user, no blob, no bucket.
    pub fn new(
        service_principals: Vec<Principal>,
        bucket_canister_wasm: CanisterWasm,
        cycles_dispenser_config: Option<CyclesDispenserConfig>,
        test_mode: bool,
    ) -> (d: Data)
        ensures
            d.inv(),
            d@.users == Map::<UserId, UserView>::empty(),
            d@.blobs == Map::<crate::hash::Hash, BlobRecordView>::empty(),
            d.service_principals() == service_principals@.to_set(),
            d.buckets().active() == Seq::<BucketRecord>::empty(),
            d.buckets().full() == Map::<CanisterId, BucketRecord>::empty(),
            d.blob_buckets() == Map::<crate::hash::Hash, BucketsView>::empty(),
            d.upgrades().pending() == Seq::<CanisterId>::empty(),
            !d.upgrades().in_progress(),
            d.upgrades().failed() == Seq::<FailedUpgrade>::empty(),
            d.settings() == (bucket_canister_wasm@, cycles_dispenser_config, 0 as Cycles, test_mode),
    {
        let mut principals: VecMap<Principal, ()> = VecMap::new();
        let mut i: usize = 0;
        while i < service_principals.len()
            invariant
                i <= service_principals@.len(),
                principals.wf(),
                forall|p: Principal| principals@.contains_key(p) <==> service_principals@.subrange(0, i as int).contains(p),
            decreases service_principals@.len() - i,
        {
            let ghost prev = service_principals@.subrange(0, i as int);
            let ghost prev_map = principals@;
            principals.insert(service_principals[i], ());
            i = i + 1;
            proof {
                let s = service_principals@.subrange(0, i as int);
                assert(s =~= prev.push(service_principals@[i - 1]));
                assert forall|p: Principal| principals@.contains_key(p) <==> s.contains(p) by {
                    assert(prev_map.contains_key(p) <==> prev.contains(p));
                    if p == service_principals@[i - 1] {
                        assert(s[i - 1] == p);
                    }
                    if s.contains(p) {
                        let j = choose|j: int| 0 <= j < s.len() && s[j] == p;
                        if j < prev.len() {
                            assert(prev[j] == p);
                        }
                    }
                    if prev.contains(p) {
                        let j = choose|j: int| 0 <= j < prev.len() && prev[j] == p;
                        assert(s[j] == p);
                    }
                }
            }
        }
        assert(service_principals@.subrange(0, service_principals@.len() as int) =~= service_principals@);
        let d = Data {
            service_principals: principals,
            users: VecMap::new(),
            blobs: Blobs::default(),
            blob_buckets: BlobBuckets::default(),
            buckets: Buckets::default(),
            canisters_requiring_upgrade: CanistersRequiringUpgrade::default(),
            bucket_canister_wasm,
            total_cycles_spent_on_canisters: 0,
            cycles_dispenser_config,
            test_mode,
        };
        assert(d@.users =~= Map::<UserId, UserView>::empty());
        assert(d.service_principals() =~= service_principals@.to_set());
        d
    }

    /// The index's metrics, with what only its environment knows (the time, the cycles
    /// balance, the memory used and the code's version) given by the caller.
    pub fn metrics(&self, now: TimestampMillis, cycles_balance: Cycles, memory_used: u64, wasm_version: Version) -> (m: Metrics)
        requires
            self.inv(),
        ensures
            m.memory_used == memory_used,
            m.now == now,
            m.cycles_balance == cycles_balance,
            m.wasm_version == wasm_version,
            m.active_buckets@ == self.buckets().active().map_values(|b: BucketRecord| bucket_metrics(b)),
            m.full_buckets@.len() == self.buckets().full().dom().len(),
            forall|i: int| 0 <= i < m.full_buckets@.len() ==> is_metrics_of_some(self.buckets().full(), #[trigger] m.full_buckets@[i]),
            forall|k: CanisterId| #[trigger] self.buckets().full().contains_key(k) ==> has_metrics_of(
                m.full_buckets@,
                self.buckets().full()[k],
            ),
            m.bucket_upgrades_pending == self.upgrades().pending().len(),
            m.bucket_upgrades_in_progress == (if self.upgrades().in_progress() { 1int } else { 0int }),
            m.bucket_upgrades_failed == self.upgrades().failed().len(),
            m.bucket_canister_wasm == self.spec_bucket_canister_wasm().0,
            m.cycles_dispenser_config == self.spec_cycles_dispenser_config(),
    {
        let upgrades = self.canisters_requiring_upgrade.metrics();
        Metrics {
            memory_used,
            now,
            cycles_balance,
            wasm_version,
            active_buckets: self.buckets.active_metrics(),
            full_buckets: self.buckets.full_metrics(),
            bucket_upgrades_pending: upgrades.pending as u64,
            bucket_upgrades_in_progress: if upgrades.upgrade_in_progress { 1 } else { 0 },
            bucket_upgrades_failed: upgrades.failed as u64,
            bucket_canister_wasm: self.bucket_canister_wasm.version,
            cycles_dispenser_config: self.cycles_dispenser_config,
        }
    }

    /// Whether adding `file` from `bucket` would overflow the owner's bytes used or a
    /// reference count.
    #[verifier::loop_isolation(false)]
    pub fn add_file_would_panic(&self, bucket: &CanisterId, file: &FileAdded) -> (b: bool)
        requires
            self.inv(),
        ensures
            b == add_file_panics(self@, *bucket, *file),
    {
        let user = match self.users.get(&file.owner) {
            Some(user) => user,
            None => {
                return false;
            },
        };
        let owns = self.blobs.user_owns_blob(&file.owner, &file.hash);
        if !owns && user.bytes_used > u64::MAX - file.size {
            return true;
        }
        if !owns && user.bytes_used + file.size > user.byte_limit {
            return false;
        }
        let rcs = self.blobs.reference_counts(&file.owner, &file.hash);
        let ghost m = self@.blobs;
        proof {
            if m.contains_key(file.hash) {
                assert(rcs@ == counts_of(m[file.hash].owners, file.owner));
            }
        }
        let mut i: usize = 0;
        while i < rcs.len()
            invariant
                i <= rcs@.len(),
                forall|j: int| 0 <= j < i ==> rcs@[j].bucket != *bucket,
            decreases rcs@.len() - i,
        {
            if rcs[i].bucket.same(bucket) {
                proof {
                    crate::blobs::lemma_first_unique(rcs@, *bucket, i as int);
                }
                return rcs[i].count == u32::MAX;
            }
            i = i + 1;
        }
        proof {
            crate::blobs::lemma_first_none(rcs@, *bucket);
        }
        false
    }

    /// Records that `bucket` holds `file`, charging its owner when the owner does not already
    /// own the blob. Refused when the owner is unknown or the charge would exceed its allowance.
    pub fn add_file_reference(&mut self, bucket: CanisterId, file: FileAdded) -> (r: Result<(), FileRejected>)
        requires
            old(self).inv(),
            !add_file_panics(old(self)@, bucket, file),
        ensures
            final(self).inv(),
            (final(self)@, r) == spec_add_file_reference(old(self)@, bucket, file),
            final(self).service_principals() == old(self).service_principals(),
            final(self).settings() == old(self).settings(),
            final(self).buckets() == old(self).buckets(),
            final(self).upgrades() == old(self).upgrades(),
            final(self).blob_buckets() == old(self).blob_buckets(),
    {
        let ghost v = self@;
        let FileAdded { file_id, owner, hash, size, .. } = file;
        let owns = self.blobs.user_owns_blob(&owner, &hash);
        let rejection = match self.users.get(&owner) {
            None => Some(FileRejectedReason::UserNotFound),
            Some(user) => {
                if !owns && user.bytes_used + size > user.byte_limit {
                    Some(FileRejectedReason::AllowanceExceeded)
                } else {
                    None
                }
            },
        };
        if let Some(reason) = rejection {
            return Err(FileRejected { file_id, reason });
        }
        if !owns {
            match self.users.get_mut(&owner) {
                Some(user) => {
                    assert(v.users[owner] == user.view());
                    user.bytes_used = user.bytes_used + size;
                    user.blobs_owned.insert(hash, ());
                },
                None => {},
            }
        }
        self.blobs.add(hash, size, owner, bucket);
        proof {
            lemma_add_file_inv(v, bucket, file);
            assert(self@.users =~= spec_add_file_reference(v, bucket, file).0.users);
        }
        Ok(())
    }

    /// Records that `bucket` no longer holds `file`; an owner that no longer owns the blob gets
    /// its size back.
    pub fn remove_file_reference(&mut self, bucket: CanisterId, file: FileRemoved)
        requires
            old(self).inv(),
        ensures
            final(self).inv(),
            final(self)@ == spec_remove_file_reference(old(self)@, bucket, file),
            final(self).service_principals() == old(self).service_principals(),
            final(self).settings() == old(self).settings(),
            final(self).buckets() == old(self).buckets(),
            final(self).upgrades() == old(self).upgrades(),
            final(self).blob_buckets() == old(self).blob_buckets(),
    {
        let ghost v = self@;
        let FileRemoved { owner, hash, .. } = file;
        if let Some(bytes_removed) = self.blobs.remove(hash, owner, bucket) {
            match self.users.get_mut(&owner) {
                Some(user) => {
                    assert(v.users[owner] == user.view());
                    user.bytes_used = user.bytes_used.saturating_sub(bytes_removed);
                    user.blobs_owned.remove(&hash);
                },
                None => {},
            }
        }
        proof {
            lemma_remove_file_inv(v, bucket, file);
            assert(self@.users =~= spec_remove_file_reference(v, bucket, file).users);
        }
    }

    /// Whether `caller` may manage the index.
    pub fn is_caller_service_principal(&self, caller: &Principal) -> (b: bool)
        requires
            self.inv(),
        ensures
            b == self.service_principals().contains(*caller),
    {
        self.service_principals.contains_key(caller)
    }

    /// Whether `caller` is one of the bucket canisters.
    pub fn is_caller_bucket(&self, caller: &CanisterId) -> (b: bool)
        requires
            self.inv(),
        ensures
            b == crate::buckets::spec_get(self.buckets().active(), self.buckets().full(), *caller) is Some,
    {
        self.buckets.get(caller).is_some()
    }

    /// The caller's allowance and usage.
    pub fn user_impl(&self, caller: &UserId) -> (r: api::user::Response)
        requires
            self.inv(),
        ensures
            r == (if self@.users.contains_key(*caller) {
                api::user::Response::Success(api::user::UserRecord {
                    byte_limit: self@.users[*caller].byte_limit,
                    bytes_used: self@.users[*caller].bytes_used,
                })
            } else {
                api::user::Response::UserNotFound
            }),
    {
        match self.users.get(caller) {
            Some(user) => api::user::Response::Success(api::user::UserRecord {
                byte_limit: user.byte_limit,
                bytes_used: user.bytes_used,
            }),
            None => api::user::Response::UserNotFound,
        }
    }

    /// The caller's reference counts on a blob, with its allowance and usage.
    pub fn reference_counts_impl(&self, caller: &UserId, args: api::reference_counts::Args) -> (r: api::reference_counts::Response)
        requires
            self.inv(),
        ensures
            match r {
                api::reference_counts::Response::Success(result) => {
                    let counts = if user_owns(self@.blobs, *caller, args.file_hash) {
                        self@.blobs[args.file_hash].owners[*caller]
                    } else {
                        Seq::empty()
                    };
                    &&& self@.users.contains_key(*caller)
                    &&& result.byte_limit == self@.users[*caller].byte_limit
                    &&& result.bytes_used == self@.users[*caller].bytes_used
                    &&& result.reference_counts@.len() == counts.len()
                    &&& forall|i: int| 0 <= i < counts.len() ==> #[trigger] result.reference_counts@[i]
                        == (api::reference_counts::ReferenceCount { bucket: counts[i].bucket, count: counts[i].count })
                },
                api::reference_counts::Response::UserNotFound => !self@.users.contains_key(*caller),
            },
    {
        match self.users.get(caller) {
            Some(user) => {
                let rcs = self.blobs.reference_counts(caller, &args.file_hash);
                let mut reference_counts: Vec<api::reference_counts::ReferenceCount> = Vec::new();
                let mut i: usize = 0;
                while i < rcs.len()
                    invariant
                        i <= rcs@.len(),
                        reference_counts@.len() == i,
                        forall|j: int| 0 <= j < i ==> #[trigger] reference_counts@[j]
                            == (api::reference_counts::ReferenceCount { bucket: rcs@[j].bucket, count: rcs@[j].count }),
                    decreases rcs@.len() - i,
                {
                    let rc: ReferenceCount = rcs[i];
                    reference_counts.push(api::reference_counts::ReferenceCount::from(rc));
                    i = i + 1;
                }
                api::reference_counts::Response::Success(api::reference_counts::SuccessResult {
                    reference_counts,
                    bytes_used: user.bytes_used,
                    byte_limit: user.byte_limit,
                })
            },
            None => api::reference_counts::Response::UserNotFound,
        }
    }

    /// Where the caller should upload a file: to a bucket that already holds the blob, else to
    /// the active bucket the blob's hash is allocated to. Refused for an unknown caller, or when
    /// the file would take the caller over its allowance.
    pub fn allocated_bucket_impl(&self, caller: &UserId, args: api::allocated_bucket::Args) -> (r: api::allocated_bucket::Response)
        requires
            self.inv(),
            self@.users.contains_key(*caller) ==> self@.users[*caller].bytes_used + args.file_size <= u64::MAX,
        ensures
            match r {
                api::allocated_bucket::Response::UserNotFound => !self@.users.contains_key(*caller),
                api::allocated_bucket::Response::AllowanceReached => self@.users.contains_key(*caller)
                    && self@.users[*caller].bytes_used + args.file_size > self@.users[*caller].byte_limit,
                api::allocated_bucket::Response::Success(result) => {
                    &&& self@.users.contains_key(*caller)
                    &&& self@.users[*caller].bytes_used + args.file_size <= self@.users[*caller].byte_limit
                    &&& result.chunk_size == DEFAULT_CHUNK_SIZE_BYTES
                    &&& if self.blob_buckets().contains_key(args.file_hash) {
                        result.canister_id == self.blob_buckets()[args.file_hash].0[0]
                    } else {
                        let active = self.buckets().active();
                        active.len() > 0 && result.canister_id == active[crate::buckets::allocation_index(
                            crate::buckets::allocation_key(args.file_hash),
                            active.len(),
                        ) as int].canister_id
                    }
                },
                api::allocated_bucket::Response::BucketUnavailable => {
                    &&& self@.users.contains_key(*caller)
                    &&& self@.users[*caller].bytes_used + args.file_size <= self@.users[*caller].byte_limit
                    &&& !self.blob_buckets().contains_key(args.file_hash)
                    &&& self.buckets().active().len() == 0
                },
            },
    {
        match self.users.get(caller) {
            Some(user) => {
                if user.bytes_used + args.file_size > user.byte_limit {
                    return api::allocated_bucket::Response::AllowanceReached;
                }
            },
            None => {
                return api::allocated_bucket::Response::UserNotFound;
            },
        }
        let bucket = match self.blob_buckets.bucket(&args.file_hash) {
            Some(b) => Some(b),
            None => self.buckets.allocate(&args.file_hash),
        };
        match bucket {
            Some(canister_id) => api::allocated_bucket::Response::Success(api::allocated_bucket::SuccessResult {
                canister_id,
                chunk_size: DEFAULT_CHUNK_SIZE_BYTES,
            }),
            None => api::allocated_bucket::Response::BucketUnavailable,
        }
    }

    /// Adds a user with the given allowance, unless it is already known.
    pub fn add_user_impl(&mut self, args: api::add_user::Args) -> (r: api::add_user::Response)
        requires
            old(self).inv(),
        ensures
            final(self).buckets().creation_locked() == old(self).buckets().creation_locked(),
            final(self).inv(),
            r == (if old(self)@.users.contains_key(args.user_id) {
                api::add_user::Response::UserAlreadyExists
            } else {
                api::add_user::Response::Success
            }),
            final(self)@.users == (if old(self)@.users.contains_key(args.user_id) {
                old(self)@.users
            } else {
                old(self)@.users.insert(args.user_id, new_user(args.byte_limit))
            }),
            final(self)@.blobs == old(self)@.blobs,
            final(self).service_principals() == old(self).service_principals(),
            final(self).settings() == old(self).settings(),
            final(self).blob_buckets() == old(self).blob_buckets(),
            final(self).upgrades() == old(self).upgrades(),
            if old(self)@.users.contains_key(args.user_id) {
                final(self).buckets() == old(self).buckets()
            } else {
                all_events_appended(
                    old(self).buckets().active(),
                    old(self).buckets().full(),
                    final(self).buckets().active(),
                    final(self).buckets().full(),
                    seq![EventToSync::UserAdded(args.user_id)],
                )
            },
    {
        if self.users.contains_key(&args.user_id) {
            return api::add_user::Response::UserAlreadyExists;
        }
        let ghost v = self@;
        let record = UserRecordInternal { byte_limit: args.byte_limit, bytes_used: 0, blobs_owned: VecMap::new() };
        assert(record.view().blobs_owned =~= Set::<crate::hash::Hash>::empty());
        self.users.insert(args.user_id, record);
        proof {
            assert(self@.users =~= v.users.insert(args.user_id, new_user(args.byte_limit)));
            assert forall|h: crate::hash::Hash| !user_owns(v.blobs, args.user_id, h) by {
                if user_owns(v.blobs, args.user_id, h) {
                    assert(v.users.contains_key(args.user_id));
                }
            }
            assert forall|u: UserId, h: crate::hash::Hash| self@.users.contains_key(u) implies (#[trigger] self@.users[u].blobs_owned.contains(h)
                <==> user_owns(self@.blobs, u, h)) by {
                if u != args.user_id {
                    assert(v.users[u].blobs_owned.contains(h) <==> user_owns(v.blobs, u, h));
                } else {
                    assert(!user_owns(v.blobs, args.user_id, h));
                }
            }
        }
        self.buckets.sync_event(EventToSync::UserAdded(args.user_id));
        api::add_user::Response::Success
    }

    /// Changes a user's allowance when one is given.
    pub fn update_user_impl(&mut self, args: api::update_user::Args) -> (r: api::update_user::Response)
        requires
            old(self).inv(),
        ensures
            final(self).inv(),
            r == (if old(self)@.users.contains_key(args.user_id) {
                api::update_user::Response::Success
            } else {
                api::update_user::Response::UserNotFound
            }),
            final(self)@.users == (match args.byte_limit {
                Some(limit) if old(self)@.users.contains_key(args.user_id) => old(self)@.users.insert(
                    args.user_id,
                    UserView { byte_limit: limit, ..old(self)@.users[args.user_id] },
                ),
                _ => old(self)@.users,
            }),
            final(self)@.blobs == old(self)@.blobs,
            final(self).service_principals() == old(self).service_principals(),
            final(self).settings() == old(self).settings(),
            final(self).upgrades() == old(self).upgrades(),
            final(self).blob_buckets() == old(self).blob_buckets(),
            final(self).buckets() == old(self).buckets(),
    {
        let ghost v = self@;
        match self.users.get_mut(&args.user_id) {
            Some(user) => {
                assert(v.users[args.user_id] == user.view());
                if let Some(byte_limit) = args.byte_limit {
                    user.byte_limit = byte_limit;
                }
                api::update_user::Response::Success
            },
            None => api::update_user::Response::UserNotFound,
        }
    }

    /// Sets the allowance of each configured user, adding the users that are new.
    pub fn add_or_update_users_impl(&mut self, args: api::add_or_update_users::Args) -> (r: api::add_or_update_users::Response)
        requires
            old(self).inv(),
        ensures
            final(self).buckets().creation_locked() == old(self).buckets().creation_locked(),
            final(self).inv(),
            r == api::add_or_update_users::Response::Success,
            final(self)@.users == spec_add_or_update_users(old(self)@.users, args.users@),
            final(self)@.blobs == old(self)@.blobs,
            final(self).service_principals() == old(self).service_principals(),
            final(self).settings() == old(self).settings(),
            final(self).blob_buckets() == old(self).blob_buckets(),
            final(self).upgrades() == old(self).upgrades(),
            all_events_appended(
                old(self).buckets().active(),
                old(self).buckets().full(),
                final(self).buckets().active(),
                final(self).buckets().full(),
                spec_added_user_events(old(self)@.users, args.users@),
            ),
    {
        let ghost v0 = self@;
        let ghost b0 = self.buckets();
        proof {
            crate::buckets::lemma_no_events_appended(b0.active(), b0.full());
            assert(args.users@.take(0) =~= Seq::<api::add_or_update_users::UserConfig>::empty());
        }
        let mut i: usize = 0;
        while i < args.users.len()
            invariant
                i <= args.users@.len(),
                self.inv(),
                self@.users == spec_add_or_update_users(v0.users, args.users@.take(i as int)),
                self@.blobs == v0.blobs,
                self.service_principals() == old(self).service_principals(),
                self.settings() == old(self).settings(),
                self.upgrades() == old(self).upgrades(),
                self.blob_buckets() == old(self).blob_buckets(),
                self.buckets().creation_locked() == old(self).buckets().creation_locked(),
                all_events_appended(
                    b0.active(),
                    b0.full(),
                    self.buckets().active(),
                    self.buckets().full(),
                    spec_added_user_events(v0.users, args.users@.take(i as int)),
                ),
            decreases args.users@.len() - i,
        {
            let user_config = args.users[i];
            let ghost before = self@;
            let ghost bb = self.buckets();
            proof {
                assert(args.users@.take(i as int + 1).drop_last() =~= args.users@.take(i as int));
                assert(args.users@.take(i as int + 1).last() == user_config);
            }
            match self.users.get_mut(&user_config.user_id) {
                Some(user) => {
                    assert(before.users[user_config.user_id] == user.view());
                    user.byte_limit = user_config.byte_limit;
                    proof {
                        crate::buckets::lemma_no_events_appended(bb.active(), bb.full());
                        crate::buckets::lemma_events_appended_trans(b0.active(), b0.full(), bb.active(), bb.full(),
                            bb.active(), bb.full(), spec_added_user_events(v0.users, args.users@.take(i as int)), Seq::empty());
                        assert(spec_added_user_events(v0.users, args.users@.take(i as int)) + Seq::<EventToSync>::empty()
                            =~= spec_added_user_events(v0.users, args.users@.take(i as int + 1)));
                    }
                },
                None => {
                    let record = UserRecordInternal {
                        byte_limit: user_config.byte_limit,
                        bytes_used: 0,
                        blobs_owned: VecMap::new(),
                    };
                    assert(record.view().blobs_owned =~= Set::<crate::hash::Hash>::empty());
                    self.users.insert(user_config.user_id, record);
                    proof {
                        assert forall|h: crate::hash::Hash| !user_owns(before.blobs, user_config.user_id, h) by {
                            if user_owns(before.blobs, user_config.user_id, h) {
                                assert(before.users.contains_key(user_config.user_id));
                            }
                        }
                    }
                    self.buckets.sync_event(EventToSync::UserAdded(user_config.user_id));
                    proof {
                        crate::buckets::lemma_events_appended_trans(b0.active(), b0.full(), bb.active(), bb.full(),
                            self.buckets().active(), self.buckets().full(),
                            spec_added_user_events(v0.users, args.users@.take(i as int)), seq![EventToSync::UserAdded(user_config.user_id)]);
                        assert(spec_added_user_events(v0.users, args.users@.take(i as int)) + seq![EventToSync::UserAdded(user_config.user_id)]
                            =~= spec_added_user_events(v0.users, args.users@.take(i as int + 1)));
                    }
                },
            }
            proof {
                let expected = spec_add_or_update_users(v0.users, args.users@.take(i as int + 1));
                assert(self@.users =~= expected);
                assert forall|u: UserId, h: crate::hash::Hash| self@.users.contains_key(u) implies (#[trigger] self@.users[u].blobs_owned.contains(h)
                    <==> user_owns(self@.blobs, u, h)) by {
                    if before.users.contains_key(u) {
                        assert(before.users[u].blobs_owned.contains(h) <==> user_owns(before.blobs, u, h));
                    } else {
                        assert(!user_owns(before.blobs, u, h));
                    }
                }
            }
            i = i + 1;
        }
        assert(args.users@.take(args.users@.len() as int) =~= args.users@);
        api::add_or_update_users::Response::Success
    }

    /// Allows `args.principal` to manage the index.
    pub fn add_service_principal_impl(&mut self, args: api::add_service_principal::Args) -> (r: api::add_service_principal::Response)
        requires
            old(self).inv(),
        ensures
            final(self).inv(),
            r == api::add_service_principal::Response::Success,
            final(self).service_principals() == old(self).service_principals().insert(args.principal),
            final(self).settings() == old(self).settings(),
            final(self).upgrades() == old(self).upgrades(),
            final(self).blob_buckets() == old(self).blob_buckets(),
            final(self)@ == old(self)@,
            final(self).buckets() == old(self).buckets(),
    {
        self.service_principals.insert(args.principal, ());
        assert(self.service_principals() =~= old(self).service_principals().insert(args.principal));
        api::add_service_principal::Response::Success
    }

    /// Marks a bucket as full, or as accepting uploads again.
    pub fn set_bucket_full_impl(&mut self, args: api::set_bucket_full::Args) -> (r: api::set_bucket_full::Response)
        requires
            old(self).inv(),
        ensures
            final(self).buckets().creation_locked() == old(self).buckets().creation_locked(),
            final(self).inv(),
            r == api::set_bucket_full::Response::Success,
            final(self)@ == old(self)@,
            final(self).service_principals() == old(self).service_principals(),
            final(self).settings() == old(self).settings(),
            final(self).upgrades() == old(self).upgrades(),
            final(self).blob_buckets() == old(self).blob_buckets(),
            args.full ==> match first_active_index(old(self).buckets().active(), args.bucket) {
                Some(i) => final(self).buckets().active() == old(self).buckets().active().remove(i)
                    && final(self).buckets().full() == old(self).buckets().full().insert(args.bucket, old(self).buckets().active()[i]),
                None => final(self).buckets().active() == old(self).buckets().active()
                    && final(self).buckets().full() == old(self).buckets().full(),
            },
            !args.full ==> if old(self).buckets().full().contains_key(args.bucket) {
                final(self).buckets().active() == old(self).buckets().active().push(old(self).buckets().full()[args.bucket])
                    && final(self).buckets().full() == old(self).buckets().full().remove(args.bucket)
            } else {
                final(self).buckets().active() == old(self).buckets().active()
                    && final(self).buckets().full() == old(self).buckets().full()
            },
    {
        self.buckets.set_full(args.bucket, args.full);
        api::set_bucket_full::Response::Success
    }

    /// Adds the files one after the other, as long as none would overflow a user's bytes used
    /// or a reference count; stops at the first that would, and gives nothing back then.
    fn add_files(&mut self, caller: CanisterId, files_added: &Vec<FileAdded>) -> (r: Option<Vec<FileRejected>>)
        requires
            old(self).inv(),
        ensures
            final(self).inv(),
            final(self).service_principals() == old(self).service_principals(),
            final(self).settings() == old(self).settings(),
            final(self).buckets() == old(self).buckets(),
            final(self).upgrades() == old(self).upgrades(),
            final(self).blob_buckets() == old(self).blob_buckets(),
            r is None <==> add_files_panic(old(self)@, caller, files_added@),
            r matches Some(rejected) ==> (final(self)@, rejected@) == spec_add_files(old(self)@, caller, files_added@),
            r is None ==> exists|k: int|
                0 <= k < files_added@.len() && final(self)@ == spec_add_files(old(self)@, caller, files_added@.take(k)).0
                && #[trigger] add_file_panics(final(self)@, caller, files_added@[k]),
    {
        let ghost v0 = self@;
        let mut files_rejected: Vec<FileRejected> = Vec::new();
        let mut i: usize = 0;
        while i < files_added.len()
            invariant
                i <= files_added@.len(),
                self.inv(),
                v0 == old(self)@,
                forall|j: int| 0 <= j < i ==> !#[trigger] add_file_panics(
                    spec_add_files(v0, caller, files_added@.take(j)).0,
                    caller,
                    files_added@[j],
                ),
                (self@, files_rejected@) == spec_add_files(v0, caller, files_added@.take(i as int)),
                self.service_principals() == old(self).service_principals(),
                self.settings() == old(self).settings(),
                self.buckets() == old(self).buckets(),
                self.upgrades() == old(self).upgrades(),
                self.blob_buckets() == old(self).blob_buckets(),
            decreases files_added@.len() - i,
        {
            let file = files_added[i];
            if self.add_file_would_panic(&caller, &file) {
                assert(add_file_panics(spec_add_files(v0, caller, files_added@.take(i as int)).0, caller, files_added@[i as int]));
                assert(add_file_panics(self@, caller, files_added@[i as int]));
                return None;
            }
            proof {
                assert(files_added@.take(i as int + 1).drop_last() =~= files_added@.take(i as int));
                assert(files_added@.take(i as int + 1).last() == file);
            }
            match self.add_file_reference(caller, file) {
                Ok(()) => {},
                Err(rejected) => {
                    files_rejected.push(rejected);
                },
            }
            i = i + 1;
        }
        assert(files_added@.take(files_added@.len() as int) =~= files_added@);
        Some(files_rejected)
    }

    /// Removes the files one after the other.
    fn remove_files(&mut self, caller: CanisterId, files_removed: &Vec<FileRemoved>)
        requires
            old(self).inv(),
        ensures
            final(self).inv(),
            final(self)@ == spec_remove_files(old(self)@, caller, files_removed@),
            final(self).service_principals() == old(self).service_principals(),
            final(self).settings() == old(self).settings(),
            final(self).buckets() == old(self).buckets(),
            final(self).upgrades() == old(self).upgrades(),
            final(self).blob_buckets() == old(self).blob_buckets(),
    {
        let ghost v1 = self@;
        let mut j: usize = 0;
        while j < files_removed.len()
            invariant
                j <= files_removed@.len(),
                self.inv(),
                self@ == spec_remove_files(v1, caller, files_removed@.take(j as int)),
                self.service_principals() == old(self).service_principals(),
                self.settings() == old(self).settings(),
                self.buckets() == old(self).buckets(),
                self.upgrades() == old(self).upgrades(),
                self.blob_buckets() == old(self).blob_buckets(),
            decreases files_removed@.len() - j,
        {
            let file = files_removed[j];
            proof {
                assert(files_removed@.take(j as int + 1).drop_last() =~= files_removed@.take(j as int));
                assert(files_removed@.take(j as int + 1).last() == file);
            }
            self.remove_file_reference(caller, file);
            j = j + 1;
        }
        assert(files_removed@.take(files_removed@.len() as int) =~= files_removed@);
    }

    /// Removes the files one after the other, then archives the bucket if it has no bytes left.
    fn remove_files_and_archive(&mut self, caller: CanisterId, files_removed: &Vec<FileRemoved>, bytes_remaining: i64)
        requires
            old(self).inv(),
        ensures
            final(self).buckets().creation_locked() == old(self).buckets().creation_locked(),
            final(self).inv(),
            final(self)@ == spec_remove_files(old(self)@, caller, files_removed@),
            final(self).service_principals() == old(self).service_principals(),
            final(self).settings() == old(self).settings(),
            final(self).upgrades() == old(self).upgrades(),
            final(self).blob_buckets() == old(self).blob_buckets(),
            bytes_remaining <= 0 ==> match first_active_index(old(self).buckets().active(), caller) {
                Some(i) => final(self).buckets().active() == old(self).buckets().active().remove(i)
                    && final(self).buckets().full() == old(self).buckets().full().insert(caller, old(self).buckets().active()[i]),
                None => final(self).buckets().active() == old(self).buckets().active()
                    && final(self).buckets().full() == old(self).buckets().full(),
            },
            bytes_remaining > 0 ==> final(self).buckets() == old(self).buckets(),
    {
        self.remove_files(caller, files_removed);
        if bytes_remaining <= 0 {
            self.buckets.archive(caller);
        }
    }

    /// The events that each bucket is to be told of next, at most
    /// `MAX_EVENTS_TO_SYNC_PER_BATCH` per bucket; those buckets then await the outcome.
    pub fn pop_args_for_next_sync(&mut self) -> (v: Vec<(CanisterId, Vec<EventToSync>)>)
        requires
            old(self).inv(),
        ensures
            final(self).inv(),
            final(self)@ == old(self)@,
            final(self).service_principals() == old(self).service_principals(),
            final(self).settings() == old(self).settings(),
            final(self).upgrades() == old(self).upgrades(),
            final(self).blob_buckets() == old(self).blob_buckets(),
            final(self).buckets().creation_locked() == old(self).buckets().creation_locked(),
            final(self).buckets().active().len() == old(self).buckets().active().len(),
            forall|i: int| 0 <= i < old(self).buckets().active().len() ==> batch_taken(
                old(self).buckets().active()[i],
                #[trigger] final(self).buckets().active()[i],
                MAX_EVENTS_TO_SYNC_PER_BATCH as nat,
            ),
            final(self).buckets().full().dom() == old(self).buckets().full().dom(),
            forall|k: CanisterId| #[trigger] old(self).buckets().full().contains_key(k) ==> batch_taken(
                old(self).buckets().full()[k],
                final(self).buckets().full()[k],
                MAX_EVENTS_TO_SYNC_PER_BATCH as nat,
            ),
            forall|i: int| 0 <= i < old(self).buckets().active().len() ==> batch_sent(
                batches_view(v@),
                #[trigger] old(self).buckets().active()[i],
                MAX_EVENTS_TO_SYNC_PER_BATCH as nat,
            ),
            forall|k: CanisterId| #[trigger] old(self).buckets().full().contains_key(k) ==> batch_sent(
                batches_view(v@),
                old(self).buckets().full()[k],
                MAX_EVENTS_TO_SYNC_PER_BATCH as nat,
            ),
            forall|j: int| 0 <= j < v@.len() ==> is_batch_of_some(
                old(self).buckets().active(),
                old(self).buckets().full(),
                MAX_EVENTS_TO_SYNC_PER_BATCH as nat,
                #[trigger] batches_view(v@)[j],
            ),
    {
        self.buckets.take_batches(MAX_EVENTS_TO_SYNC_PER_BATCH)
    }

    /// A bucket received its batch and reported the files removed from it since: the files
    /// are dropped, then the bucket no longer awaits a sync.
    pub fn handle_sync_success(&mut self, canister_id: CanisterId, files_removed: Vec<FileRemoved>)
        requires
            old(self).inv(),
        ensures
            final(self).inv(),
            final(self)@ == spec_remove_files(old(self)@, canister_id, files_removed@),
            final(self).service_principals() == old(self).service_principals(),
            final(self).settings() == old(self).settings(),
            final(self).upgrades() == old(self).upgrades(),
            final(self).blob_buckets() == old(self).blob_buckets(),
            final(self).buckets().creation_locked() == old(self).buckets().creation_locked(),
            bucket_changed(
                old(self).buckets().active(),
                old(self).buckets().full(),
                final(self).buckets().active(),
                final(self).buckets().full(),
                canister_id,
                |o: BucketRecord, n: BucketRecord| sync_completed(o, n),
            ),
    {
        self.remove_files(canister_id, &files_removed);
        self.buckets.mark_sync_completed(&canister_id);
    }

    /// A batch did not reach its bucket: its events go back to the front of the bucket's
    /// queue, and the bucket no longer awaits a sync.
    pub fn handle_sync_error(&mut self, canister_id: CanisterId, batch: Vec<EventToSync>)
        requires
            old(self).inv(),
        ensures
            final(self).inv(),
            final(self)@ == old(self)@,
            final(self).service_principals() == old(self).service_principals(),
            final(self).settings() == old(self).settings(),
            final(self).upgrades() == old(self).upgrades(),
            final(self).blob_buckets() == old(self).blob_buckets(),
            final(self).buckets().creation_locked() == old(self).buckets().creation_locked(),
            bucket_changed(
                old(self).buckets().active(),
                old(self).buckets().full(),
                final(self).buckets().active(),
                final(self).buckets().full(),
                canister_id,
                |o: BucketRecord, n: BucketRecord| sync_failed(o, n, batch@),
            ),
    {
        self.buckets.mark_sync_failed(&canister_id, batch);
    }

    /// Applies a bucket's report: each added file is recorded (or refused), then each removed
    /// file is dropped, and a bucket with no bytes remaining is marked as full.
    pub fn c2c_sync_bucket_impl(&mut self, caller: CanisterId, args: api::c2c_sync_bucket::Args) -> (r: api::c2c_sync_bucket::Response)
        requires
            old(self).inv(),
            !add_files_panic(old(self)@, caller, args.files_added@),
        ensures
            final(self).buckets().creation_locked() == old(self).buckets().creation_locked(),
            final(self).inv(),
            final(self)@ == spec_remove_files(spec_add_files(old(self)@, caller, args.files_added@).0, caller, args.files_removed@),
            match r {
                api::c2c_sync_bucket::Response::Success(result) => result.files_rejected@ == spec_add_files(
                    old(self)@,
                    caller,
                    args.files_added@,
                ).1,
            },
            final(self).service_principals() == old(self).service_principals(),
            final(self).settings() == old(self).settings(),
            final(self).upgrades() == old(self).upgrades(),
            final(self).blob_buckets() == old(self).blob_buckets(),
            args.bytes_remaining <= 0 ==> match first_active_index(old(self).buckets().active(), caller) {
                Some(i) => final(self).buckets().active() == old(self).buckets().active().remove(i)
                    && final(self).buckets().full() == old(self).buckets().full().insert(caller, old(self).buckets().active()[i]),
                None => final(self).buckets().active() == old(self).buckets().active()
                    && final(self).buckets().full() == old(self).buckets().full(),
            },
            args.bytes_remaining > 0 ==> final(self).buckets() == old(self).buckets(),
    {
        let files_rejected = match self.add_files(caller, &args.files_added) {
            Some(rejected) => rejected,
            None => Vec::new(),
        };
        self.remove_files_and_archive(caller, &args.files_removed, args.bytes_remaining);
        api::c2c_sync_bucket::Response::Success(api::c2c_sync_bucket::SuccessResult { files_rejected })
    }

    /// A bucket's report, checked: nothing is returned when adding its files one after the
    /// other would overflow a user's bytes used or a reference count (the index then stops at
    /// the first such file, having added those before it); otherwise the report is handled as
    /// `c2c_sync_bucket_impl` handles it.
    pub fn try_c2c_sync_bucket(&mut self, caller: CanisterId, args: api::c2c_sync_bucket::Args) -> (r: Option<api::c2c_sync_bucket::Response>)
        requires
            old(self).inv(),
        ensures
            final(self).buckets().creation_locked() == old(self).buckets().creation_locked(),
            final(self).inv(),
            final(self).service_principals() == old(self).service_principals(),
            final(self).settings() == old(self).settings(),
            final(self).blob_buckets() == old(self).blob_buckets(),
            final(self).upgrades() == old(self).upgrades(),
            r is None <==> add_files_panic(old(self)@, caller, args.files_added@),
            r is None ==> final(self).buckets() == old(self).buckets() && exists|k: int|
                0 <= k < args.files_added@.len() && final(self)@ == spec_add_files(old(self)@, caller, args.files_added@.take(k)).0
                && #[trigger] add_file_panics(final(self)@, caller, args.files_added@[k]),
            r matches Some(response) ==> {
                &&& final(self)@ == spec_remove_files(
                    spec_add_files(old(self)@, caller, args.files_added@).0,
                    caller,
                    args.files_removed@,
                )
                &&& match response {
                    api::c2c_sync_bucket::Response::Success(result) => result.files_rejected@ == spec_add_files(
                        old(self)@,
                        caller,
                        args.files_added@,
                    ).1,
                }
                &&& args.bytes_remaining <= 0 ==> match first_active_index(old(self).buckets().active(), caller) {
                    Some(i) => final(self).buckets().active() == old(self).buckets().active().remove(i)
                        && final(self).buckets().full() == old(self).buckets().full().insert(caller, old(self).buckets().active()[i]),
                    None => final(self).buckets().active() == old(self).buckets().active()
                        && final(self).buckets().full() == old(self).buckets().full(),
                }
                &&& args.bytes_remaining > 0 ==> final(self).buckets() == old(self).buckets()
            },
    {
        let files_rejected = match self.add_files(caller, &args.files_added) {
            Some(rejected) => rejected,
            None => {
                return None;
            },
        };
        self.remove_files_and_archive(caller, &args.files_removed, args.bytes_remaining);
        Some(api::c2c_sync_bucket::Response::Success(api::c2c_sync_bucket::SuccessResult { files_rejected }))
    }

    /// Gives a user a new id, keeping its allowance and the blobs it owns; refused when the
    /// new id is taken or the old one unknown.
    pub fn update_user_id_impl(&mut self, args: api::update_user_id::Args) -> (r: api::update_user_id::Response)
        requires
            old(self).inv(),
        ensures
            final(self).buckets().creation_locked() == old(self).buckets().creation_locked(),
            final(self).inv(),
            final(self).service_principals() == old(self).service_principals(),
            final(self).settings() == old(self).settings(),
            final(self).blob_buckets() == old(self).blob_buckets(),
            final(self).upgrades() == old(self).upgrades(),
            if r == api::update_user_id::Response::Success {
                all_events_appended(
                    old(self).buckets().active(),
                    old(self).buckets().full(),
                    final(self).buckets().active(),
                    final(self).buckets().full(),
                    seq![EventToSync::UserIdUpdated(args.old_user_id, args.new_user_id)],
                )
            } else {
                final(self).buckets() == old(self).buckets()
            },
            match r {
                api::update_user_id::Response::UserIdAlreadyExists => old(self)@.users.contains_key(args.new_user_id)
                    && final(self)@ == old(self)@,
                api::update_user_id::Response::UserNotFound => !old(self)@.users.contains_key(args.new_user_id)
                    && !old(self)@.users.contains_key(args.old_user_id) && final(self)@ == old(self)@,
                api::update_user_id::Response::Success => {
                    &&& !old(self)@.users.contains_key(args.new_user_id)
                    &&& old(self)@.users.contains_key(args.old_user_id)
                    &&& final(self)@.users == old(self)@.users.remove(args.old_user_id).insert(
                        args.new_user_id,
                        old(self)@.users[args.old_user_id],
                    )
                    &&& final(self)@.blobs == rename_owner(old(self)@.blobs, args.old_user_id, args.new_user_id)
                },
            },
    {
        let old_id = args.old_user_id;
        let new_id = args.new_user_id;
        if self.users.contains_key(&new_id) {
            return api::update_user_id::Response::UserIdAlreadyExists;
        }
        let ghost v = self@;
        match self.users.remove(&old_id) {
            Some(user) => {
                assert(v.users[old_id] == user.view());
                assert(user.wf());
                proof {
                    user.blobs_owned.lemma_entries();
                }
                let n = user.blobs_owned.len();
                let ghost users_left = self.users@;
                let mut i: usize = 0;
                while i < n
                    invariant
                        self.users.wf(),
                        self.users@ == users_left,
                        self.service_principals() == old(self).service_principals(),
                        self.settings() == old(self).settings(),
                        self.service_principals.wf(),
                        self.buckets() == old(self).buckets(),
                        self.upgrades() == old(self).upgrades(),
                        self.blob_buckets() == old(self).blob_buckets(),
                        self.blob_buckets.wf(),
                        self.buckets.wf(),
                        n == user.blobs_owned.spec_entries().len(),
                        i <= n,
                        user.blobs_owned.wf(),
                        self.blobs.wf(),
                        self@.blobs.dom() == v.blobs.dom(),
                        forall|h: crate::hash::Hash| #[trigger] v.blobs.contains_key(h) ==> self@.blobs[h] == (if exists|j: int|
                            0 <= j < i && user.blobs_owned.spec_entries()[j].0 == h {
                            move_owner(v.blobs[h], old_id, new_id)
                        } else {
                            v.blobs[h]
                        }),
                    decreases n - i,
                {
                    let h = user.blobs_owned.entry_at(i).0;
                    let ghost before = self@.blobs;
                    self.blobs.update_user_id(&h, old_id, new_id);
                    proof {
                        assert forall|x: crate::hash::Hash| #[trigger] v.blobs.contains_key(x) implies self@.blobs[x] == (if exists|j: int|
                            0 <= j < i + 1 && user.blobs_owned.spec_entries()[j].0 == x {
                            move_owner(v.blobs[x], old_id, new_id)
                        } else {
                            v.blobs[x]
                        }) by {
                            if x == h {
                                assert(user.blobs_owned.spec_entries()[i as int].0 == x);
                                if exists|j: int| 0 <= j < i && user.blobs_owned.spec_entries()[j].0 == x {
                                    let j = choose|j: int| 0 <= j < i && user.blobs_owned.spec_entries()[j].0 == x;
                                    user.blobs_owned.lemma_distinct();
                                    assert(user.blobs_owned.spec_entries()[j].0 != user.blobs_owned.spec_entries()[i as int].0);
                                }
                            } else {
                                if exists|j: int| 0 <= j < i + 1 && user.blobs_owned.spec_entries()[j].0 == x {
                                    let j = choose|j: int| 0 <= j < i + 1 && user.blobs_owned.spec_entries()[j].0 == x;
                                    assert(j != i);
                                }
                            }
                        }
                        assert(self@.blobs.dom() =~= v.blobs.dom());
                    }
                    i = i + 1;
                }
                proof {
                    assert forall|h: crate::hash::Hash| #[trigger] v.blobs.contains_key(h) implies self@.blobs[h] == move_owner(v.blobs[h], old_id, new_id) by {
                        if !(exists|j: int| 0 <= j < n && user.blobs_owned.spec_entries()[j].0 == h) {
                            assert(!v.users[old_id].blobs_owned.contains(h));
                            assert(!user_owns(v.blobs, old_id, h));
                        }
                    }
                    assert(self@.blobs =~= rename_owner(v.blobs, old_id, new_id));
                }
                self.users.insert(new_id, user);
                proof {
                    lemma_rename_inv(v, old_id, new_id);
                    assert(self@.users =~= v.users.remove(old_id).insert(new_id, v.users[old_id]));
                }
                self.buckets.sync_event(EventToSync::UserIdUpdated(old_id, new_id));
                api::update_user_id::Response::Success
            },
            None => {
                assert(self@.users =~= v.users);
                api::update_user_id::Response::UserNotFound
            },
        }
    }

    /// Takes the next bucket to upgrade, with the version it runs; nothing while an upgrade is
    /// in progress. A canister taken from the queue that is not a known bucket is dropped.
    pub fn try_get_next_upgrade(&mut self) -> (r: Option<CanisterToUpgrade>)
        requires
            old(self).inv(),
        ensures
            final(self).inv(),
            final(self)@ == old(self)@,
            final(self).service_principals() == old(self).service_principals(),
            final(self).settings() == old(self).settings(),
            final(self).blob_buckets() == old(self).blob_buckets(),
            final(self).buckets() == old(self).buckets(),
            final(self).upgrades().failed() == old(self).upgrades().failed(),
            (final(self).upgrades().pending(), final(self).upgrades().in_progress()) == (
                spec_try_take_next(old(self).upgrades().pending(), old(self).upgrades().in_progress()).0,
                spec_try_take_next(old(self).upgrades().pending(), old(self).upgrades().in_progress()).1,
            ),
            r is Some <==> (match spec_try_take_next(old(self).upgrades().pending(), old(self).upgrades().in_progress()).2 {
                Some(id) => spec_get(old(self).buckets().active(), old(self).buckets().full(), id) is Some,
                None => false,
            }),
            r matches Some(c) ==> {
                &&& spec_try_take_next(old(self).upgrades().pending(), old(self).upgrades().in_progress()).2 == Some(c.canister_id)
                &&& spec_get(old(self).buckets().active(), old(self).buckets().full(), c.canister_id) matches Some(b)
                    && c.current_wasm_version == b.wasm_version
                &&& c.new_wasm@ == old(self).spec_bucket_canister_wasm()
                &&& c.args == (BucketUpgradeArgs { wasm_version: old(self).spec_bucket_canister_wasm().0 })
            },
    {
        let canister_id = match self.canisters_requiring_upgrade.try_take_next() {
            Some(c) => c,
            None => {
                return None;
            },
        };
        match self.buckets.get(&canister_id) {
            Some(bucket) => Some(CanisterToUpgrade {
                canister_id,
                current_wasm_version: bucket.wasm_version,
                new_wasm: self.bucket_canister_wasm.copy(),
                args: BucketUpgradeArgs { wasm_version: self.bucket_canister_wasm.version },
            }),
            None => None,
        }
    }

    /// An upgrade went through: the bucket records its new version and the queue is free.
    pub fn on_upgrade_success(&mut self, canister_id: CanisterId, to_version: Version)
        requires
            old(self).inv(),
        ensures
            final(self).buckets().creation_locked() == old(self).buckets().creation_locked(),
            final(self).inv(),
            final(self)@ == old(self)@,
            final(self).service_principals() == old(self).service_principals(),
            final(self).settings() == old(self).settings(),
            final(self).blob_buckets() == old(self).blob_buckets(),
            (final(self).buckets().active(), final(self).buckets().full()) == spec_set_wasm_version(
                old(self).buckets().active(),
                old(self).buckets().full(),
                canister_id,
                to_version,
            ),
            final(self).upgrades().pending() == old(self).upgrades().pending(),
            !final(self).upgrades().in_progress(),
            final(self).upgrades().failed() == old(self).upgrades().failed(),
    {
        self.buckets.set_wasm_version(&canister_id, to_version);
        self.canisters_requiring_upgrade.mark_success();
    }

    /// An upgrade failed: it is recorded and the queue is free.
    pub fn on_upgrade_failure(&mut self, canister_id: CanisterId, from_version: Version, to_version: Version)
        requires
            old(self).inv(),
        ensures
            final(self).inv(),
            final(self)@ == old(self)@,
            final(self).service_principals() == old(self).service_principals(),
            final(self).settings() == old(self).settings(),
            final(self).blob_buckets() == old(self).blob_buckets(),
            final(self).buckets() == old(self).buckets(),
            final(self).upgrades().pending() == old(self).upgrades().pending(),
            !final(self).upgrades().in_progress(),
            final(self).upgrades().failed() == old(self).upgrades().failed().push(
                FailedUpgrade { canister_id, from_version, to_version },
            ),
    {
        self.canisters_requiring_upgrade.mark_failure(FailedUpgrade { canister_id, from_version, to_version });
    }
}

} // verus!
