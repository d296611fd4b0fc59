use storage_index::blobs::Blobs;
use storage_index::principal::Principal;

fn hash_of(byte: u8) -> storage_index::hash::Hash {
    storage_index::hash::Hash::from([byte; 32])
}

#[test]
fn add_many_then_remove_many_is_noop() {
    let mut blobs = Blobs::default();

    let hash = hash_of(0);
    let size = 100;

    let bucket1 = Principal::from_slice(&[0, 1]);
    let bucket2 = Principal::from_slice(&[0, 2]);

    for i in 0..10 {
        let user_id = Principal::from_slice(&[i]);

        blobs.add(hash, size, user_id, bucket1);
        blobs.add(hash, size, user_id, bucket2);
    }

    assert_eq!(blobs.hashes(), vec![hash]);
    assert_eq!(blobs.get(&hash).unwrap().owners.len(), 10);

    for i in 0..10 {
        let user_id = Principal::from_slice(&[i]);

        assert_eq!(blobs.remove(hash, user_id, bucket1), None);
        assert_eq!(blobs.remove(hash, user_id, bucket2), Some(size));
    }

    assert!(blobs.is_empty());
}

#[test]
fn remove_undoes_add_for_a_new_blob() {
    let mut blobs = Blobs::default();
    let user = Principal::from_slice(&[7]);
    let bucket = Principal::from_slice(&[9]);
    blobs.add(hash_of(1), 55, user, bucket);
    assert!(blobs.user_owns_blob(&user, &hash_of(1)));
    assert_eq!(blobs.remove(hash_of(1), user, bucket), Some(55));
    assert!(blobs.is_empty());
    assert!(!blobs.user_owns_blob(&user, &hash_of(1)));
}

#[test]
fn reference_counts_go_up_and_down() {
    let mut blobs = Blobs::default();
    let user = Principal::from_slice(&[7]);
    let bucket = Principal::from_slice(&[9]);
    blobs.add(hash_of(1), 55, user, bucket);
    blobs.add(hash_of(1), 55, user, bucket);
    let rcs = blobs.reference_counts(&user, &hash_of(1));
    assert_eq!(rcs.len(), 1);
    assert_eq!(rcs[0].count, 2);
    assert_eq!(rcs[0].bucket, bucket);
    assert_eq!(blobs.remove(hash_of(1), user, bucket), None);
    assert_eq!(blobs.reference_counts(&user, &hash_of(1))[0].count, 1);
    assert_eq!(blobs.remove(hash_of(1), user, bucket), Some(55));
    assert!(blobs.reference_counts(&user, &hash_of(1)).is_empty());
}

#[test]
fn known_blob_keeps_its_first_size_and_bucket() {
    let mut blobs = Blobs::default();
    let user1 = Principal::from_slice(&[1]);
    let user2 = Principal::from_slice(&[2]);
    let bucket = Principal::from_slice(&[9]);
    blobs.add(hash_of(3), 10, user1, bucket);
    blobs.add(hash_of(3), 99, user2, bucket);
    assert_eq!(blobs.get(&hash_of(3)).unwrap().size, 10);
    assert_eq!(blobs.bucket(&hash_of(3)), Some(bucket));
    assert_eq!(blobs.bucket(&hash_of(4)), None);
    assert_eq!(blobs.remove(hash_of(3), user1, bucket), Some(10));
    assert_eq!(blobs.remove(hash_of(4), user1, bucket), None);
    assert_eq!(blobs.remove(hash_of(3), user1, bucket), None);
    assert_eq!(blobs.len(), 1);
}

#[test]
fn update_user_id_moves_references() {
    let mut blobs = Blobs::default();
    let old = Principal::from_slice(&[1]);
    let new = Principal::from_slice(&[2]);
    let bucket = Principal::from_slice(&[9]);
    blobs.add(hash_of(5), 10, old, bucket);
    blobs.update_user_id(&hash_of(5), old, new);
    assert!(!blobs.user_owns_blob(&old, &hash_of(5)));
    assert!(blobs.user_owns_blob(&new, &hash_of(5)));
    assert_eq!(blobs.remove(hash_of(5), new, bucket), Some(10));
}
