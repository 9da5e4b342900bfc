use ocipkg::blob::{Blob, BlobPool};
use ocipkg::digest::Digest;
use ocipkg::error::Error;

#[test]
fn blob_knows_its_digest() {
    let blob = Blob::new(b"abc".to_vec());
    assert_eq!(blob.digest(), &Digest::of_bytes(b"abc"));
    assert_eq!(blob.data(), &b"abc".to_vec());
    assert_eq!(blob.size(), 3);
    assert_eq!(blob.clone(), blob);
}

#[test]
fn pool_keeps_each_content_once() {
    let mut pool = BlobPool::new();
    assert_eq!(pool.len(), 0);
    let a = pool.insert(b"first".to_vec());
    let b = pool.insert(b"second".to_vec());
    let again = pool.insert(b"first".to_vec());
    assert_eq!(a, again);
    assert_ne!(a, b);
    assert_eq!(pool.len(), 2);
    assert_eq!(pool.at(0).data(), &b"first".to_vec());
    assert_eq!(pool.at(1).data(), &b"second".to_vec());
}

#[test]
fn pool_finds_blobs_by_digest() {
    let mut pool = BlobPool::new();
    let a = pool.insert(b"first".to_vec());
    let b = pool.insert(b"second".to_vec());
    let missing = Digest::of_bytes(b"third");
    assert!(pool.contains(&a));
    assert!(pool.contains(&b));
    assert!(!pool.contains(&missing));
    assert_eq!(pool.find(&a), 0);
    assert_eq!(pool.find(&b), 1);
    assert_eq!(pool.find(&missing), 2);
    assert_eq!(pool.get(&b).unwrap().data(), &b"second".to_vec());
    assert_eq!(pool.get(&missing), None);
}

#[test]
fn pool_refuses_content_under_a_wrong_digest() {
    let mut pool = BlobPool::new();
    pool.insert(b"first".to_vec());
    let expected = Digest::of_bytes(b"second");
    assert_eq!(
        pool.insert_verified(&expected, b"sec0nd".to_vec()),
        Err(Error::DigestMismatch)
    );
    assert_eq!(pool.len(), 1);
    assert!(!pool.contains(&expected));
    assert_eq!(pool.insert_verified(&expected, b"second".to_vec()), Ok(()));
    assert_eq!(pool.len(), 2);
    assert!(pool.contains(&expected));
}

#[test]
fn pool_takes_many_blobs_in_order() {
    let mut pool = BlobPool::new();
    pool.insert(b"b".to_vec());
    pool.insert_all(vec![
        Blob::new(b"a".to_vec()),
        Blob::new(b"b".to_vec()),
        Blob::new(b"c".to_vec()),
        Blob::new(b"a".to_vec()),
    ]);
    let blobs = pool.into_blobs();
    let contents: Vec<Vec<u8>> = blobs.iter().map(|b| b.data().clone()).collect();
    assert_eq!(contents, vec![b"b".to_vec(), b"a".to_vec(), b"c".to_vec()]);
}
