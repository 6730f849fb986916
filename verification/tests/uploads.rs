use image_registry::blob_store::BlobStore;
use image_registry::digest::{compute, Digest};
use image_registry::error::RegistryError;
use image_registry::manifest_store::ManifestStore;
use image_registry::registry::Registry;
use image_registry::session::UploadSessionManager;

fn is_crockford(c: char) -> bool {
    c.is_ascii_digit() || (c.is_ascii_uppercase() && !"ILOU".contains(c))
}

#[test]
fn start_gives_a_token_of_26_digits() {
    let mut registry = Registry::new();
    let id = registry.start("app").unwrap();
    assert_eq!(id.chars().count(), 26);
    assert!(id.chars().all(is_crockford));
    assert_eq!(registry.staged("app", &id), Ok(&Vec::new()));
}

#[test]
fn start_gives_a_new_token_each_time() {
    let mut registry = Registry::new();
    let first = registry.start("app").unwrap();
    let second = registry.start("app").unwrap();
    let third = registry.start("other").unwrap();
    assert_ne!(first, second);
    assert_ne!(first, third);
    assert_ne!(second, third);
}

#[test]
fn start_does_not_touch_the_blob_store() {
    let mut registry = Registry::new();
    registry.start("app").unwrap();
    assert!(!registry.contains(&compute(b"")));
    assert!(registry.resolve("app").is_none());
}

#[test]
fn open_refuses_a_token_in_use() {
    let mut registry = Registry::new();
    assert_eq!(registry.open("app", "S".to_string()), Ok("S".to_string()));
    registry.write("app", "S", b"kept").unwrap();
    assert_eq!(registry.open("app", "S".to_string()), Err(RegistryError::IOFailure));
    assert_eq!(registry.staged("app", "S"), Ok(&b"kept".to_vec()));
    assert_eq!(registry.open("other", "S".to_string()), Ok("S".to_string()));
}

#[test]
fn write_returns_the_new_offset() {
    let mut registry = Registry::new();
    registry.open("app", "S".to_string()).unwrap();
    assert_eq!(registry.write("app", "S", b"hello "), Ok(6));
    assert_eq!(registry.write("app", "S", b""), Ok(6));
    assert_eq!(registry.write("app", "S", b"world"), Ok(11));
    assert_eq!(registry.staged("app", "S"), Ok(&b"hello world".to_vec()));
}

#[test]
fn write_to_an_unknown_session_fails() {
    let mut registry = Registry::new();
    registry.open("app", "S".to_string()).unwrap();
    assert_eq!(registry.write("app", "T", b"x"), Err(RegistryError::SessionNotFound));
    assert_eq!(registry.write("other", "S", b"x"), Err(RegistryError::SessionNotFound));
    assert_eq!(registry.staged("app", "S"), Ok(&Vec::new()));
}

#[test]
fn finish_commits_the_chunks_in_order() {
    let mut registry = Registry::new();
    let id = registry.start("app").unwrap();
    registry.write("app", &id, b"first,").unwrap();
    registry.write("app", &id, b"second").unwrap();
    let declared = compute(b"first,second");
    assert_eq!(registry.finish("app", &id, &declared), Ok(declared.clone()));
    assert_eq!(registry.get(&declared), Ok(&b"first,second".to_vec()));
    assert_eq!(registry.resolve("app"), Some(&declared));
}

#[test]
fn finish_under_another_digest_commits_nothing() {
    let mut registry = Registry::new();
    let id = registry.start("app").unwrap();
    registry.write("app", &id, b"content").unwrap();
    let wrong = compute(b"something else");
    assert_eq!(registry.finish("app", &id, &wrong), Err(RegistryError::DigestMismatch));
    assert!(!registry.contains(&wrong));
    assert!(!registry.contains(&compute(b"content")));
    assert!(registry.resolve("app").is_none());
}

#[test]
fn finish_can_be_tried_again_after_a_mismatch() {
    let mut registry = Registry::new();
    let id = registry.start("app").unwrap();
    registry.write("app", &id, b"content").unwrap();
    let wrong = compute(b"something else");
    assert_eq!(registry.finish("app", &id, &wrong), Err(RegistryError::DigestMismatch));
    assert_eq!(registry.staged("app", &id), Ok(&b"content".to_vec()));
    let right = compute(b"content");
    assert_eq!(registry.finish("app", &id, &right), Ok(right.clone()));
    assert_eq!(registry.get(&right), Ok(&b"content".to_vec()));
}

#[test]
fn finish_of_an_unknown_session_fails() {
    let mut registry = Registry::new();
    let declared = compute(b"");
    assert_eq!(registry.finish("app", "S", &declared), Err(RegistryError::SessionNotFound));
    assert!(!registry.contains(&declared));
}

#[test]
fn finish_of_an_empty_upload_commits_the_empty_blob() {
    let mut registry = Registry::new();
    let id = registry.start("app").unwrap();
    let declared = compute(b"");
    assert_eq!(registry.finish("app", &id, &declared), Ok(declared.clone()));
    assert_eq!(registry.get(&declared), Ok(&Vec::new()));
}

#[test]
fn a_finished_session_is_retired() {
    let mut registry = Registry::new();
    let id = registry.start("app").unwrap();
    registry.write("app", &id, b"content").unwrap();
    let declared = compute(b"content");
    registry.finish("app", &id, &declared).unwrap();
    assert_eq!(registry.write("app", &id, b"more"), Err(RegistryError::SessionExpired));
    assert_eq!(registry.finish("app", &id, &declared), Err(RegistryError::SessionExpired));
    assert_eq!(registry.staged("app", &id), Err(RegistryError::SessionExpired));
    assert_eq!(registry.reclaim("app", &id), Err(RegistryError::SessionExpired));
    assert_eq!(registry.get(&declared), Ok(&b"content".to_vec()));
}

#[test]
fn a_reclaimed_session_is_retired() {
    let mut registry = Registry::new();
    let id = registry.start("app").unwrap();
    registry.write("app", &id, b"content").unwrap();
    assert_eq!(registry.reclaim("app", &id), Ok(()));
    assert_eq!(registry.write("app", &id, b"more"), Err(RegistryError::SessionExpired));
    assert_eq!(
        registry.finish("app", &id, &compute(b"content")),
        Err(RegistryError::SessionExpired)
    );
    assert!(!registry.contains(&compute(b"content")));
    assert_eq!(registry.reclaim("app", "unknown"), Err(RegistryError::SessionNotFound));
}

#[test]
fn a_blob_exists_from_the_finish_on() {
    let mut registry = Registry::new();
    let declared = compute(b"hello world");
    assert!(!registry.contains(&declared));
    let id = registry.start("app").unwrap();
    assert!(!registry.contains(&declared));
    registry.write("app", &id, b"hello ").unwrap();
    assert!(!registry.contains(&declared));
    registry.write("app", &id, b"world").unwrap();
    assert!(!registry.contains(&declared));
    registry.finish("app", &id, &declared).unwrap();
    assert!(registry.contains(&declared));
    let next = registry.start("app").unwrap();
    registry.write("app", &next, b"other").unwrap();
    assert!(registry.contains(&declared));
    registry.finish("app", &next, &compute(b"other")).unwrap();
    assert!(registry.contains(&declared));
    assert_eq!(registry.get(&declared), Ok(&b"hello world".to_vec()));
}

#[test]
fn two_sessions_of_one_repository_commit_apart() {
    let mut registry = Registry::new();
    let a = registry.start("app").unwrap();
    let b = registry.start("app").unwrap();
    registry.write("app", &a, b"aaa").unwrap();
    registry.write("app", &b, b"b").unwrap();
    registry.write("app", &a, b"AAA").unwrap();
    registry.write("app", &b, b"B").unwrap();
    assert_eq!(registry.staged("app", &a), Ok(&b"aaaAAA".to_vec()));
    assert_eq!(registry.staged("app", &b), Ok(&b"bB".to_vec()));
    let digest_a = compute(b"aaaAAA");
    let digest_b = compute(b"bB");
    assert_eq!(registry.finish("app", &a, &digest_a), Ok(digest_a.clone()));
    assert_eq!(registry.staged("app", &b), Ok(&b"bB".to_vec()));
    assert_eq!(registry.finish("app", &b, &digest_b), Ok(digest_b.clone()));
    assert_ne!(digest_a, digest_b);
    assert_eq!(registry.get(&digest_a), Ok(&b"aaaAAA".to_vec()));
    assert_eq!(registry.get(&digest_b), Ok(&b"bB".to_vec()));
    assert_eq!(registry.resolve("app"), Some(&digest_b));
}

#[test]
fn sessions_of_two_repositories_are_apart() {
    let mut registry = Registry::new();
    registry.open("one", "S".to_string()).unwrap();
    registry.open("two", "S".to_string()).unwrap();
    registry.write("one", "S", b"1").unwrap();
    registry.write("two", "S", b"22").unwrap();
    assert_eq!(registry.staged("one", "S"), Ok(&b"1".to_vec()));
    assert_eq!(registry.staged("two", "S"), Ok(&b"22".to_vec()));
    registry.finish("one", "S", &compute(b"1")).unwrap();
    assert_eq!(registry.resolve("one"), Some(&compute(b"1")));
    assert!(registry.resolve("two").is_none());
    assert_eq!(registry.staged("two", "S"), Ok(&b"22".to_vec()));
}

#[test]
fn finish_with_tail_commits_staged_bytes_and_tail() {
    let mut registry = Registry::new();
    let id = registry.start("app").unwrap();
    registry.write("app", &id, b"hello ").unwrap();
    let declared = compute(b"hello world");
    assert_eq!(registry.finish_with_tail("app", &id, b"world", &declared), Ok(declared.clone()));
    assert_eq!(registry.get(&declared), Ok(&b"hello world".to_vec()));
}

#[test]
fn finish_with_tail_drops_the_tail_on_failure() {
    let mut registry = Registry::new();
    let id = registry.start("app").unwrap();
    registry.write("app", &id, b"hello ").unwrap();
    let declared = compute(b"hello world");
    assert_eq!(
        registry.finish_with_tail("app", &id, b"wrong", &declared),
        Err(RegistryError::DigestMismatch)
    );
    assert_eq!(registry.staged("app", &id), Ok(&b"hello ".to_vec()));
    assert!(!registry.contains(&declared));
    assert_eq!(registry.finish_with_tail("app", &id, b"world", &declared), Ok(declared.clone()));
    assert_eq!(
        registry.finish_with_tail("app", "unknown", b"world", &declared),
        Err(RegistryError::SessionNotFound)
    );
    assert_eq!(
        registry.finish_with_tail("app", &id, b"world", &declared),
        Err(RegistryError::SessionExpired)
    );
}

#[test]
fn put_commits_only_under_the_digest_of_the_bytes() {
    let mut registry = Registry::new();
    let key = compute(b"one");
    assert_eq!(registry.put(&key, b"two".to_vec()), Err(RegistryError::DigestMismatch));
    assert!(!registry.contains(&key));
    assert_eq!(registry.put(&key, b"one".to_vec()), Ok(()));
    assert_eq!(registry.get(&key), Ok(&b"one".to_vec()));
    assert_eq!(
        registry.get(&Digest::parse("sha256:00").unwrap()),
        Err(RegistryError::NotFound)
    );
}

#[test]
fn put_latest_commits_and_points_the_repository_at_the_blob() {
    let mut registry = Registry::new();
    let key = compute(b"one");
    assert_eq!(
        registry.put_latest("app", &key, b"two".to_vec()),
        Err(RegistryError::DigestMismatch)
    );
    assert!(!registry.contains(&key));
    assert!(registry.resolve("app").is_none());
    assert_eq!(registry.put_latest("app", &key, b"one".to_vec()), Ok(()));
    assert_eq!(registry.get(&key), Ok(&b"one".to_vec()));
    assert_eq!(registry.resolve("app"), Some(&key));
    assert!(registry.resolve("other").is_none());
    let next = compute(b"next");
    assert_eq!(registry.put_latest("app", &next, b"next".to_vec()), Ok(()));
    assert_eq!(registry.resolve("app"), Some(&next));
    assert_eq!(registry.get(&key), Ok(&b"one".to_vec()));
}

#[test]
fn start_on_a_new_manager_succeeds() {
    let mut sessions = UploadSessionManager::new();
    let id = sessions.start("app").unwrap();
    assert_eq!(sessions.offset("app", &id), Ok(0));
}

#[test]
fn the_manager_commits_into_the_stores_it_is_given() {
    let mut sessions = UploadSessionManager::new();
    let mut blobs = BlobStore::new();
    let mut manifests = ManifestStore::new();
    let id = sessions.start("app").unwrap();
    assert_eq!(sessions.offset("app", &id), Ok(0));
    assert_eq!(sessions.write("app", &id, b"abc"), Ok(3));
    assert_eq!(sessions.offset("app", &id), Ok(3));
    let declared = compute(b"abc");
    let wrong = compute(b"abd");
    assert_eq!(
        sessions.finish("app", &id, &wrong, &mut blobs, &mut manifests),
        Err(RegistryError::DigestMismatch)
    );
    assert!(!blobs.contains(&wrong));
    assert!(manifests.resolve("app").is_none());
    assert_eq!(
        sessions.finish("app", &id, &declared, &mut blobs, &mut manifests),
        Ok(declared.clone())
    );
    assert_eq!(blobs.get(&declared), Ok(&b"abc".to_vec()));
    assert_eq!(manifests.resolve("app"), Some(&declared));
    assert_eq!(sessions.offset("app", &id), Err(RegistryError::SessionExpired));
    assert_eq!(sessions.offset("app", "unknown"), Err(RegistryError::SessionNotFound));
}

#[test]
fn commit_takes_the_hash_it_is_given() {
    let mut sessions = UploadSessionManager::new();
    let mut blobs = BlobStore::new();
    let mut manifests = ManifestStore::new();
    sessions.open("app", "S".to_string()).unwrap();
    sessions.write("app", "S", b"abc").unwrap();
    let computed = compute(b"abc");
    let declared = compute(b"abd");
    assert_eq!(
        sessions.commit("app", "S", computed.clone(), &declared, &mut blobs, &mut manifests),
        Err(RegistryError::DigestMismatch)
    );
    assert_eq!(sessions.staged("app", "S"), Ok(&b"abc".to_vec()));
    assert_eq!(
        sessions.commit("app", "S", computed.clone(), &computed, &mut blobs, &mut manifests),
        Ok(computed.clone())
    );
    assert_eq!(blobs.get(&computed), Ok(&b"abc".to_vec()));
    assert_eq!(
        sessions.commit("app", "S", computed.clone(), &computed, &mut blobs, &mut manifests),
        Err(RegistryError::SessionExpired)
    );
    assert_eq!(
        sessions.commit("app", "T", computed.clone(), &computed, &mut blobs, &mut manifests),
        Err(RegistryError::SessionNotFound)
    );
}
