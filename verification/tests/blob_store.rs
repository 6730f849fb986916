use image_registry::blob_store::BlobStore;
use image_registry::digest::{compute, Digest};
use image_registry::error::RegistryError;

#[test]
fn new_store_holds_nothing() {
    let store = BlobStore::new();
    assert!(!store.contains(&compute(b"")));
    assert_eq!(store.get(&compute(b"")), Err(RegistryError::NotFound));
}

#[test]
fn put_then_get_returns_the_bytes() {
    let mut store = BlobStore::new();
    let bytes = b"some layer".to_vec();
    let key = compute(&bytes);
    assert_eq!(store.put(&key, bytes.clone()), Ok(()));
    assert!(store.contains(&key));
    assert_eq!(store.get(&key), Ok(&bytes));
}

#[test]
fn put_then_get_returns_empty_bytes() {
    let mut store = BlobStore::new();
    let key = compute(b"");
    assert_eq!(store.put(&key, Vec::new()), Ok(()));
    assert_eq!(store.get(&key), Ok(&Vec::new()));
}

#[test]
fn put_refuses_bytes_under_another_digest() {
    let mut store = BlobStore::new();
    let key = compute(b"one");
    assert_eq!(store.put(&key, b"two".to_vec()), Err(RegistryError::DigestMismatch));
    assert!(!store.contains(&key));
    assert!(!store.contains(&compute(b"two")));
    assert_eq!(store.get(&key), Err(RegistryError::NotFound));
}

#[test]
fn put_refuses_the_right_hash_under_another_tag() {
    let mut store = BlobStore::new();
    let text = compute(b"one").to_text().replace("sha256", "sha512");
    let key = Digest::parse(&text).unwrap();
    assert_eq!(store.put(&key, b"one".to_vec()), Err(RegistryError::DigestMismatch));
    assert!(!store.contains(&key));
}

#[test]
fn put_again_changes_nothing() {
    let mut store = BlobStore::new();
    let key = compute(b"one");
    assert_eq!(store.put(&key, b"one".to_vec()), Ok(()));
    assert_eq!(store.put(&key, b"one".to_vec()), Ok(()));
    assert_eq!(store.get(&key), Ok(&b"one".to_vec()));
}

#[test]
fn refused_put_leaves_stored_blobs() {
    let mut store = BlobStore::new();
    let key = compute(b"one");
    assert_eq!(store.put(&key, b"one".to_vec()), Ok(()));
    assert_eq!(store.put(&key, b"two".to_vec()), Err(RegistryError::DigestMismatch));
    assert_eq!(store.get(&key), Ok(&b"one".to_vec()));
}

#[test]
fn blobs_are_kept_apart() {
    let mut store = BlobStore::new();
    let one = compute(b"one");
    let two = compute(b"two");
    store.put(&one, b"one".to_vec()).unwrap();
    store.put(&two, b"two".to_vec()).unwrap();
    assert_eq!(store.get(&one), Ok(&b"one".to_vec()));
    assert_eq!(store.get(&two), Ok(&b"two".to_vec()));
    assert!(!store.contains(&compute(b"three")));
}

#[test]
fn insert_hashed_stores_under_the_given_digest() {
    let mut store = BlobStore::new();
    let key = compute(b"one");
    store.insert_hashed(key.clone(), b"one".to_vec());
    assert_eq!(store.get(&key), Ok(&b"one".to_vec()));
}
