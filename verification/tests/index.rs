use storage_index::api;
use storage_index::buckets::{BucketRecord, EventToSync};
use storage_index::index::{Data, PrepareResponse, DEFAULT_CHUNK_SIZE_BYTES};
use storage_index::types::{BucketInitArgs, BucketUpgradeArgs, CanisterWasm, CyclesDispenserConfig};
use storage_index::principal::Principal;
use storage_index::types::{FileAdded, FileRejectedReason, FileRemoved, Version};

fn wasm() -> CanisterWasm {
    CanisterWasm { version: Version::new(2, 0, 0), module: vec![0, 97, 115, 109] }
}

fn created(r: PrepareResponse) -> u128 {
    match r {
        PrepareResponse::CreateBucket(a) => a.cycles_to_use,
        other => panic!("unexpected {other:?}"),
    }
}

fn hash_of(byte: u8) -> storage_index::hash::Hash {
    storage_index::hash::Hash::from([byte; 32])
}

fn file(owner: Principal, hash_byte: u8, size: u64) -> FileAdded {
    FileAdded { file_id: 1, owner, hash: hash_of(hash_byte), size, timestamp: 0 }
}

fn removed(owner: Principal, hash_byte: u8) -> FileRemoved {
    FileRemoved { file_id: 1, owner, hash: hash_of(hash_byte), blob_deleted: false }
}

fn usage(data: &Data, user: &Principal) -> (u64, u64) {
    match data.user_impl(user) {
        api::user::Response::Success(r) => (r.bytes_used, r.byte_limit),
        api::user::Response::UserNotFound => panic!("user not found"),
    }
}

fn data_with_user(user: Principal, byte_limit: u64) -> Data {
    let mut data = Data::new(vec![], wasm(), None, false);
    let r = data.add_user_impl(api::add_user::Args { user_id: user, byte_limit });
    assert_eq!(r, api::add_user::Response::Success);
    data
}

#[test]
fn unknown_user_is_refused() {
    let mut data = Data::new(vec![], wasm(), None, false);
    let user = Principal::from_slice(&[1]);
    let bucket = Principal::from_slice(&[9]);
    let r = data.add_file_reference(bucket, file(user, 1, 10));
    assert_eq!(r.unwrap_err().reason, FileRejectedReason::UserNotFound);
    assert_eq!(data.user_impl(&user), api::user::Response::UserNotFound);
}

#[test]
fn allowance_is_charged_once_per_blob() {
    let user = Principal::from_slice(&[1]);
    let bucket = Principal::from_slice(&[9]);
    let mut data = data_with_user(user, 1000);
    assert!(data.add_file_reference(bucket, file(user, 1, 600)).is_ok());
    assert_eq!(usage(&data, &user), (600, 1000));
    // The same blob again costs nothing.
    assert!(data.add_file_reference(bucket, file(user, 1, 600)).is_ok());
    assert_eq!(usage(&data, &user), (600, 1000));
    // Another blob that does not fit is refused.
    let r = data.add_file_reference(bucket, file(user, 2, 500));
    assert_eq!(r.unwrap_err().reason, FileRejectedReason::AllowanceExceeded);
    assert_eq!(usage(&data, &user), (600, 1000));
    // One that fits exactly is accepted.
    assert!(data.add_file_reference(bucket, file(user, 3, 400)).is_ok());
    assert_eq!(usage(&data, &user), (1000, 1000));
}

#[test]
fn removing_a_file_undoes_adding_it() {
    let user = Principal::from_slice(&[1]);
    let bucket = Principal::from_slice(&[9]);
    let mut data = data_with_user(user, 1000);
    assert!(data.add_file_reference(bucket, file(user, 1, 100)).is_ok());
    assert!(data.add_file_reference(bucket, file(user, 2, 200)).is_ok());
    data.remove_file_reference(bucket, removed(user, 2));
    assert_eq!(usage(&data, &user), (100, 1000));
    // The first blob is referenced twice; dropping one reference refunds nothing.
    assert!(data.add_file_reference(bucket, file(user, 1, 100)).is_ok());
    data.remove_file_reference(bucket, removed(user, 1));
    assert_eq!(usage(&data, &user), (100, 1000));
    data.remove_file_reference(bucket, removed(user, 1));
    assert_eq!(usage(&data, &user), (0, 1000));
}

#[test]
fn reference_counts_query() {
    let user = Principal::from_slice(&[1]);
    let bucket = Principal::from_slice(&[9]);
    let mut data = data_with_user(user, 1000);
    assert!(data.add_file_reference(bucket, file(user, 1, 100)).is_ok());
    assert!(data.add_file_reference(bucket, file(user, 1, 100)).is_ok());
    match data.reference_counts_impl(&user, api::reference_counts::Args { file_hash: hash_of(1) }) {
        api::reference_counts::Response::Success(r) => {
            assert_eq!(r.bytes_used, 100);
            assert_eq!(r.byte_limit, 1000);
            assert_eq!(r.reference_counts.len(), 1);
            assert_eq!(r.reference_counts[0].bucket, bucket);
            assert_eq!(r.reference_counts[0].count, 2);
        }
        api::reference_counts::Response::UserNotFound => panic!("user not found"),
    }
    let stranger = Principal::from_slice(&[2]);
    assert!(matches!(
        data.reference_counts_impl(&stranger, api::reference_counts::Args { file_hash: hash_of(1) }),
        api::reference_counts::Response::UserNotFound
    ));
}

#[test]
fn allocated_bucket_prefers_a_bucket_holding_the_blob() {
    let user = Principal::from_slice(&[1]);
    let holder = Principal::from_slice(&[8]);
    let mut data = data_with_user(user, 1000);
    let args = api::allocated_bucket::Args { file_hash: hash_of(1), file_size: 10 };
    assert!(matches!(data.allocated_bucket_impl(&user, args), api::allocated_bucket::Response::BucketUnavailable));
    // A blob referenced through the blobs alone is not a blob recorded in a bucket.
    assert!(data.add_file_reference(holder, file(user, 1, 100)).is_ok());
    assert!(matches!(data.allocated_bucket_impl(&user, args), api::allocated_bucket::Response::BucketUnavailable));
    data.blob_buckets.add(hash_of(1), 100, holder);
    data.blob_buckets.add(hash_of(1), 100, Principal::from_slice(&[7]));
    match data.allocated_bucket_impl(&user, args) {
        api::allocated_bucket::Response::Success(r) => {
            assert_eq!(r.canister_id, holder);
            assert_eq!(r.chunk_size, DEFAULT_CHUNK_SIZE_BYTES);
            assert_eq!(r.chunk_size, 524288);
        }
        other => panic!("unexpected {other:?}"),
    }
    let too_big = api::allocated_bucket::Args { file_hash: hash_of(2), file_size: 901 };
    assert!(matches!(data.allocated_bucket_impl(&user, too_big), api::allocated_bucket::Response::AllowanceReached));
    let stranger = Principal::from_slice(&[2]);
    assert!(matches!(data.allocated_bucket_impl(&stranger, args), api::allocated_bucket::Response::UserNotFound));
}

#[test]
fn users_are_added_updated_and_renamed() {
    let user = Principal::from_slice(&[1]);
    let other = Principal::from_slice(&[2]);
    let bucket = Principal::from_slice(&[9]);
    let mut data = data_with_user(user, 1000);
    assert_eq!(
        data.add_user_impl(api::add_user::Args { user_id: user, byte_limit: 5 }),
        api::add_user::Response::UserAlreadyExists
    );
    assert_eq!(usage(&data, &user), (0, 1000));
    assert_eq!(
        data.update_user_impl(api::update_user::Args { user_id: user, byte_limit: Some(2000) }),
        api::update_user::Response::Success
    );
    assert_eq!(
        data.update_user_impl(api::update_user::Args { user_id: user, byte_limit: None }),
        api::update_user::Response::Success
    );
    assert_eq!(usage(&data, &user), (0, 2000));
    assert_eq!(
        data.update_user_impl(api::update_user::Args { user_id: other, byte_limit: Some(1) }),
        api::update_user::Response::UserNotFound
    );
    data.add_or_update_users_impl(api::add_or_update_users::Args {
        users: vec![
            api::add_or_update_users::UserConfig { user_id: user, byte_limit: 3000 },
            api::add_or_update_users::UserConfig { user_id: other, byte_limit: 40 },
        ],
    });
    assert_eq!(usage(&data, &user), (0, 3000));
    assert_eq!(usage(&data, &other), (0, 40));

    assert!(data.add_file_reference(bucket, file(user, 1, 100)).is_ok());
    let renamed = Principal::from_slice(&[3]);
    assert_eq!(
        data.update_user_id_impl(api::update_user_id::Args { old_user_id: user, new_user_id: other }),
        api::update_user_id::Response::UserIdAlreadyExists
    );
    assert_eq!(
        data.update_user_id_impl(api::update_user_id::Args { old_user_id: renamed, new_user_id: Principal::from_slice(&[4]) }),
        api::update_user_id::Response::UserNotFound
    );
    assert_eq!(
        data.update_user_id_impl(api::update_user_id::Args { old_user_id: user, new_user_id: renamed }),
        api::update_user_id::Response::Success
    );
    assert_eq!(data.user_impl(&user), api::user::Response::UserNotFound);
    assert_eq!(usage(&data, &renamed), (100, 3000));
    data.remove_file_reference(bucket, removed(renamed, 1));
    assert_eq!(usage(&data, &renamed), (0, 3000));
}

#[test]
fn service_principals_and_buckets() {
    let admin = Principal::from_slice(&[5]);
    let newcomer = Principal::from_slice(&[6]);
    let mut data = Data::new(vec![admin], wasm(), None, true);
    assert!(data.is_caller_service_principal(&admin));
    assert!(!data.is_caller_service_principal(&newcomer));
    data.add_service_principal_impl(api::add_service_principal::Args { principal: newcomer });
    assert!(data.is_caller_service_principal(&newcomer));
    let bucket = Principal::from_slice(&[9]);
    assert!(!data.is_caller_bucket(&bucket));
    data.set_bucket_full_impl(api::set_bucket_full::Args { bucket, full: true });
    assert!(!data.is_caller_bucket(&bucket));
    let _ = BucketRecord::new(bucket, Version::min());
}

#[test]
fn sync_bucket_adds_then_removes() {
    let user = Principal::from_slice(&[1]);
    let bucket = Principal::from_slice(&[9]);
    let mut data = data_with_user(user, 150);
    let stranger = Principal::from_slice(&[2]);
    let args = api::c2c_sync_bucket::Args {
        files_added: vec![file(user, 1, 100), file(user, 2, 100), file(stranger, 3, 1), file(user, 4, 50)],
        files_removed: vec![removed(user, 1)],
        bytes_remaining: 10,
    };
    let api::c2c_sync_bucket::Response::Success(result) = data.c2c_sync_bucket_impl(bucket, args);
    assert_eq!(result.files_rejected.len(), 2);
    assert_eq!(result.files_rejected[0].reason, FileRejectedReason::AllowanceExceeded);
    assert_eq!(result.files_rejected[1].reason, FileRejectedReason::UserNotFound);
    assert_eq!(usage(&data, &user), (50, 150));
}

#[test]
fn upgrades_update_bucket_versions() {
    let mut data = Data::new(vec![], wasm(), None, false);
    let bucket = Principal::from_slice(&[9]);
    let unknown = Principal::from_slice(&[8]);
    assert!(data.try_get_next_upgrade().is_none());
    data.canisters_requiring_upgrade.enqueue(unknown);
    data.canisters_requiring_upgrade.enqueue(bucket);
    // The unknown canister is taken and dropped.
    assert!(data.try_get_next_upgrade().is_none());
    assert!(data.canisters_requiring_upgrade.upgrade_in_progress());
    data.on_upgrade_failure(unknown, Version::min(), Version::new(1, 0, 0));
    assert_eq!(data.canisters_requiring_upgrade.metrics().failed, 1);
    data.buckets.add(BucketRecord::new(bucket, Version::min()));
    let next = data.try_get_next_upgrade().unwrap();
    assert_eq!((next.canister_id, next.current_wasm_version), (bucket, Version::min()));
    assert_eq!((next.new_wasm.version, next.new_wasm.module.clone()), (Version::new(2, 0, 0), vec![0, 97, 115, 109]));
    assert_eq!(next.args, BucketUpgradeArgs { wasm_version: Version::new(2, 0, 0) });
    data.on_upgrade_success(bucket, Version::new(1, 0, 0));
    assert!(!data.canisters_requiring_upgrade.upgrade_in_progress());
    assert_eq!(data.buckets.get(&bucket).unwrap().wasm_version, Version::new(1, 0, 0));
    assert!(data.is_caller_bucket(&bucket));
}

#[test]
fn overflowing_additions_are_detected() {
    let user = Principal::from_slice(&[1]);
    let bucket = Principal::from_slice(&[9]);
    let mut data = data_with_user(user, u64::MAX);
    assert!(data.add_file_reference(bucket, file(user, 1, u64::MAX - 5)).is_ok());
    assert!(data.add_file_would_panic(&bucket, &file(user, 2, 6)));
    assert!(!data.add_file_would_panic(&bucket, &file(user, 2, 5)));
    // An owned blob costs nothing, so no overflow.
    assert!(!data.add_file_would_panic(&bucket, &file(user, 1, 6)));
    // Unknown users are refused, not overflowed.
    assert!(!data.add_file_would_panic(&bucket, &file(Principal::from_slice(&[2]), 2, u64::MAX)));
}

#[test]
fn allocated_bucket_falls_back_to_an_active_bucket() {
    let user = Principal::from_slice(&[1]);
    let active = Principal::from_slice(&[9]);
    let mut data = data_with_user(user, 1000);
    data.add_bucket(BucketRecord::new(active, Version::min()), false);
    let args = api::allocated_bucket::Args { file_hash: hash_of(1), file_size: 10 };
    match data.allocated_bucket_impl(&user, args) {
        api::allocated_bucket::Response::Success(r) => assert_eq!(r.canister_id, active),
        other => panic!("unexpected {other:?}"),
    }
}

fn events(data: &Data, bucket: &Principal) -> Vec<EventToSync> {
    data.buckets.get(bucket).unwrap().events_to_sync.clone()
}

#[test]
fn buckets_are_told_of_new_and_renamed_users() {
    let user = Principal::from_slice(&[1]);
    let other = Principal::from_slice(&[2]);
    let renamed = Principal::from_slice(&[3]);
    let active = Principal::from_slice(&[9]);
    let full = Principal::from_slice(&[10]);
    let mut data = Data::new(vec![], wasm(), None, false);
    data.add_bucket(BucketRecord::new(active, Version::min()), false);
    data.add_bucket(BucketRecord::new(full, Version::min()), false);
    data.set_bucket_full_impl(api::set_bucket_full::Args { bucket: full, full: true });
    assert_eq!(data.buckets.active_count(), 1);

    data.add_user_impl(api::add_user::Args { user_id: user, byte_limit: 10 });
    data.add_user_impl(api::add_user::Args { user_id: user, byte_limit: 20 });
    for b in [active, full] {
        let e = events(&data, &b);
        assert_eq!(e.len(), 1);
        assert!(matches!(e[0], EventToSync::UserAdded(u) if u == user));
    }

    data.add_or_update_users_impl(api::add_or_update_users::Args {
        users: vec![
            api::add_or_update_users::UserConfig { user_id: user, byte_limit: 5 },
            api::add_or_update_users::UserConfig { user_id: other, byte_limit: 6 },
            api::add_or_update_users::UserConfig { user_id: other, byte_limit: 7 },
        ],
    });
    for b in [active, full] {
        let e = events(&data, &b);
        assert_eq!(e.len(), 2);
        assert!(matches!(e[1], EventToSync::UserAdded(u) if u == other));
    }
    assert_eq!(usage(&data, &other), (0, 7));

    assert_eq!(
        data.update_user_id_impl(api::update_user_id::Args { old_user_id: user, new_user_id: renamed }),
        api::update_user_id::Response::Success
    );
    assert_eq!(
        data.update_user_id_impl(api::update_user_id::Args { old_user_id: user, new_user_id: renamed }),
        api::update_user_id::Response::UserIdAlreadyExists
    );
    for b in [active, full] {
        let e = events(&data, &b);
        assert_eq!(e.len(), 3);
        assert!(matches!(e[2], EventToSync::UserIdUpdated(o, n) if o == user && n == renamed));
    }
}

#[test]
fn a_sync_that_would_overflow_is_refused() {
    let user = Principal::from_slice(&[1]);
    let bucket = Principal::from_slice(&[9]);
    let mut data = data_with_user(user, u64::MAX);
    let args = api::c2c_sync_bucket::Args {
        files_added: vec![file(user, 1, u64::MAX - 5), file(user, 2, 6), file(user, 3, 1)],
        files_removed: vec![],
        bytes_remaining: 0,
    };
    assert!(data.try_c2c_sync_bucket(bucket, args).is_none());
    // The files before the one that would overflow were added.
    assert_eq!(usage(&data, &user), (u64::MAX - 5, u64::MAX));

    let mut data = data_with_user(user, 100);
    data.add_bucket(BucketRecord::new(bucket, Version::min()), false);
    let args = api::c2c_sync_bucket::Args {
        files_added: vec![file(user, 1, 60), file(user, 2, 60)],
        files_removed: vec![],
        bytes_remaining: 0,
    };
    match data.try_c2c_sync_bucket(bucket, args) {
        Some(api::c2c_sync_bucket::Response::Success(r)) => {
            assert_eq!(r.files_rejected.len(), 1);
            assert_eq!(r.files_rejected[0].reason, FileRejectedReason::AllowanceExceeded);
        }
        None => panic!("refused"),
    }
    assert_eq!(usage(&data, &user), (60, 100));
    // No bytes remaining: the bucket is now full.
    assert_eq!(data.buckets.active_count(), 0);
    assert!(data.is_caller_bucket(&bucket));
}

#[test]
fn metrics_report_buckets_and_upgrades() {
    let a = Principal::from_slice(&[9]);
    let b = Principal::from_slice(&[10]);
    let c = Principal::from_slice(&[11]);
    let mut data = Data::new(vec![], wasm(), None, false);
    data.add_bucket(BucketRecord::new(a, Version::min()), false);
    data.add_bucket(BucketRecord::new(b, Version::new(1, 2, 3)), false);
    data.add_bucket(BucketRecord::new(c, Version::min()), false);
    data.set_bucket_full_impl(api::set_bucket_full::Args { bucket: b, full: true });
    data.canisters_requiring_upgrade.enqueue(a);
    data.canisters_requiring_upgrade.enqueue(c);
    assert_eq!(data.try_get_next_upgrade().unwrap().canister_id, a);
    let m = data.metrics(17, 1000, 42, Version::new(0, 0, 1));
    assert_eq!((m.now, m.cycles_balance, m.memory_used, m.wasm_version), (17, 1000, 42, Version::new(0, 0, 1)));
    let active: Vec<Principal> = m.active_buckets.iter().map(|x| x.canister_id).collect();
    assert_eq!(active, vec![a, c]);
    assert_eq!(m.full_buckets.len(), 1);
    assert_eq!(m.full_buckets[0].canister_id, b);
    assert_eq!(m.full_buckets[0].wasm_version, Version::new(1, 2, 3));
    assert_eq!(m.full_buckets[0].bytes_used, 0);
    assert_eq!((m.bucket_upgrades_pending, m.bucket_upgrades_in_progress, m.bucket_upgrades_failed), (1, 1, 0));
}

#[test]
fn one_bucket_is_created_at_a_time() {
    let mut data = Data::new(vec![], wasm(), None, false);
    assert_eq!(data.bucket_creation_cycles(2), (10_000_000_000_002, 60_000_000_000_000));
    assert!(matches!(data.prepare_bucket_creation(5, false), PrepareResponse::CyclesBalanceTooLow));
    assert_eq!(created(data.prepare_bucket_creation(5, true)), 5);
    assert!(matches!(data.prepare_bucket_creation(5, true), PrepareResponse::DoNothing));
    assert!(matches!(data.prepare_bucket_creation(5, false), PrepareResponse::DoNothing));
    let bucket = Principal::from_slice(&[9]);
    data.commit_new_bucket(BucketRecord::new(bucket, Version::min()));
    assert_eq!(data.buckets.active_count(), 1);
    assert_eq!(created(data.prepare_bucket_creation(5, true)), 5);
    // A bucket added by hand keeps the lock unless told to release it.
    data.add_bucket(BucketRecord::new(Principal::from_slice(&[10]), Version::min()), false);
    assert!(matches!(data.prepare_bucket_creation(5, true), PrepareResponse::DoNothing));
    data.add_bucket(BucketRecord::new(Principal::from_slice(&[11]), Version::min()), true);
    assert_eq!(created(data.prepare_bucket_creation(5, true)), 5);

    let test = Data::new(vec![], wasm(), None, true);
    assert_eq!(test.bucket_creation_cycles(2), (2_500_000_000_000, 6_000_000_000_000));
}

#[test]
fn a_new_bucket_is_told_of_every_user() {
    let a = Principal::from_slice(&[1]);
    let b = Principal::from_slice(&[2]);
    let mut data = data_with_user(a, 10);
    data.add_user_impl(api::add_user::Args { user_id: b, byte_limit: 10 });
    let bucket = Principal::from_slice(&[9]);
    assert_eq!(created(data.prepare_bucket_creation(1, true)), 1);
    data.commit_new_bucket(BucketRecord::new(bucket, Version::min()));
    let mut told: Vec<Principal> = events(&data, &bucket)
        .into_iter()
        .map(|e| match e {
            EventToSync::UserAdded(u) => u,
            other => panic!("unexpected {other:?}"),
        })
        .collect();
    told.sort_by_key(|p| format!("{p:?}"));
    assert_eq!(told, vec![a, b]);
}

#[test]
fn a_created_bucket_gets_the_bucket_code_and_the_test_mode() {
    let mut data = Data::new(vec![], wasm(), None, true);
    match data.prepare_bucket_creation(7, true) {
        PrepareResponse::CreateBucket(a) => {
            assert_eq!(a.cycles_to_use, 7);
            assert_eq!((a.canister_wasm.version, a.canister_wasm.module), (Version::new(2, 0, 0), vec![0, 97, 115, 109]));
            assert_eq!(a.init_canister_args, BucketInitArgs { wasm_version: Version::new(2, 0, 0), test_mode: true });
        }
        other => panic!("unexpected {other:?}"),
    }
    let bucket = Principal::from_slice(&[9]);
    let args = data.prepare_add_bucket(&bucket).unwrap();
    assert_eq!(args.init_args, BucketInitArgs { wasm_version: Version::new(2, 0, 0), test_mode: true });
    assert_eq!(args.wasm.module, vec![0, 97, 115, 109]);
    data.add_bucket(BucketRecord::new(bucket, Version::new(2, 0, 0)), false);
    assert!(data.prepare_add_bucket(&bucket).is_none());
}

#[test]
fn metrics_report_the_bucket_code_and_the_dispenser() {
    let dispenser = CyclesDispenserConfig { canister_id: Principal::from_slice(&[4]), min_cycles_balance: 99 };
    let data = Data::new(vec![], wasm(), Some(dispenser), false);
    let m = data.metrics(1, 2, 3, Version::min());
    assert_eq!(m.bucket_canister_wasm, Version::new(2, 0, 0));
    let c = m.cycles_dispenser_config.unwrap();
    assert_eq!((c.canister_id, c.min_cycles_balance), (Principal::from_slice(&[4]), 99));
}

#[test]
fn events_are_sent_in_batches_and_requeued_on_failure() {
    let active = Principal::from_slice(&[9]);
    let mut data = Data::new(vec![], wasm(), None, false);
    data.add_bucket(BucketRecord::new(active, Version::min()), false);
    let users: Vec<Principal> = (0..1002u16).map(|i| Principal::from_slice(&i.to_be_bytes())).collect();
    for u in &users {
        data.add_user_impl(api::add_user::Args { user_id: *u, byte_limit: 10 });
    }
    let batches = data.pop_args_for_next_sync();
    assert_eq!(batches.len(), 1);
    assert_eq!(batches[0].0, active);
    assert_eq!(batches[0].1.len(), 1000);
    // While a batch is on its way, nothing more is sent.
    assert!(data.pop_args_for_next_sync().is_empty());
    assert_eq!(events(&data, &active).len(), 2);

    let (id, batch) = batches.into_iter().next().unwrap();
    data.handle_sync_error(id, batch);
    let e = events(&data, &active);
    assert_eq!(e.len(), 1002);
    assert!(matches!(e[0], EventToSync::UserAdded(u) if u == users[0]));
    assert!(matches!(e[1001], EventToSync::UserAdded(u) if u == users[1001]));

    let batches = data.pop_args_for_next_sync();
    assert_eq!(batches[0].1.len(), 1000);
    data.handle_sync_success(active, vec![]);
    let e = events(&data, &active);
    assert_eq!(e.len(), 2);
    assert!(matches!(e[0], EventToSync::UserAdded(u) if u == users[1000]));
    let batches = data.pop_args_for_next_sync();
    assert_eq!(batches[0].1.len(), 2);
}

#[test]
fn a_successful_sync_removes_the_reported_files() {
    let user = Principal::from_slice(&[1]);
    let bucket = Principal::from_slice(&[9]);
    let mut data = data_with_user(user, 1000);
    data.add_bucket(BucketRecord::new(bucket, Version::min()), false);
    assert!(data.add_file_reference(bucket, file(user, 1, 100)).is_ok());
    assert_eq!(usage(&data, &user), (100, 1000));
    let _ = data.pop_args_for_next_sync();
    data.handle_sync_success(bucket, vec![removed(user, 1)]);
    assert_eq!(usage(&data, &user), (0, 1000));
}
