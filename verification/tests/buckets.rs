use storage_index::blob_buckets::BlobBuckets;
use storage_index::buckets::{BucketRecord, Buckets};
use storage_index::principal::Principal;
use storage_index::types::Version;

fn hash_with_key(key: u64) -> storage_index::hash::Hash {
    let mut bytes = [0u8; 32];
    bytes[..8].copy_from_slice(&key.to_le_bytes());
    storage_index::hash::Hash::from(bytes)
}

fn bucket(byte: u8) -> BucketRecord {
    BucketRecord::new(Principal::from_slice(&[byte]), Version::new(1, 2, 3))
}

#[test]
fn allocate_uses_the_modified_modulo() {
    let mut buckets = Buckets::default();
    assert_eq!(buckets.allocate(&hash_with_key(5)), None);
    for b in 0..3 {
        buckets.add(bucket(b));
    }
    assert_eq!(buckets.active_count(), 3);
    // (key % 7) % 3
    assert_eq!(buckets.allocate(&hash_with_key(5)), Some(Principal::from_slice(&[2])));
    assert_eq!(buckets.allocate(&hash_with_key(6)), Some(Principal::from_slice(&[0])));
    assert_eq!(buckets.allocate(&hash_with_key(7)), Some(Principal::from_slice(&[0])));
    assert_eq!(buckets.allocate(&hash_with_key(10)), Some(Principal::from_slice(&[0])));
    assert_eq!(buckets.allocate(&hash_with_key(u64::MAX)), Some(Principal::from_slice(&[((u64::MAX % 7) % 3) as u8])));
}

#[test]
fn full_buckets_are_still_found() {
    let mut buckets = Buckets::default();
    buckets.add(bucket(1));
    buckets.add(bucket(2));
    let id = Principal::from_slice(&[1]);
    buckets.set_full(id, true);
    assert_eq!(buckets.active_count(), 1);
    assert_eq!(buckets.get(&id).unwrap().wasm_version, Version::new(1, 2, 3));
    assert_eq!(buckets.allocate(&hash_with_key(0)), Some(Principal::from_slice(&[2])));
    buckets.get_mut(&id).unwrap().bytes_used = 77;
    assert_eq!(buckets.get(&id).unwrap().bytes_used, 77);
    buckets.set_full(id, false);
    assert_eq!(buckets.active_count(), 2);
    assert_eq!(buckets.get(&id).unwrap().bytes_used, 77);
    buckets.archive(Principal::from_slice(&[2]));
    assert_eq!(buckets.active_count(), 1);
    assert!(buckets.get(&Principal::from_slice(&[3])).is_none());
}

#[test]
fn blob_buckets_add_and_remove() {
    let mut blob_buckets = BlobBuckets::default();
    let h = hash_with_key(1);
    let b1 = Principal::from_slice(&[1]);
    let b2 = Principal::from_slice(&[2]);
    assert_eq!(blob_buckets.bucket(&h), None);
    blob_buckets.add(h, 10, b1);
    blob_buckets.add(h, 99, b2);
    blob_buckets.add(h, 99, b1);
    assert_eq!(blob_buckets.get(&h).unwrap().buckets, vec![b1, b2]);
    assert_eq!(blob_buckets.get(&h).unwrap().size, 10);
    assert_eq!(blob_buckets.bucket(&h), Some(b1));
    assert_eq!(blob_buckets.remove(h, b1), Some(10));
    assert_eq!(blob_buckets.bucket(&h), Some(b2));
    assert_eq!(blob_buckets.remove(h, b1), None);
    assert_eq!(blob_buckets.remove(h, b2), Some(10));
    assert!(blob_buckets.get(&h).is_none());
}

#[test]
fn first_bucket_gets_three_keys_in_seven() {
    let mut buckets = Buckets::default();
    for b in 0..3 {
        buckets.add(bucket(b));
    }
    let mut counts = [0; 3];
    for key in 100..107u64 {
        let chosen = buckets.allocate(&hash_with_key(key)).unwrap();
        let index = (0..3u8).position(|b| Principal::from_slice(&[b]) == chosen).unwrap();
        counts[index] += 1;
    }
    assert_eq!(counts, [3, 2, 2]);
}
