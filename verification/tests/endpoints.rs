use image_registry::digest::{compute, Digest};
use image_registry::endpoints::{
    check_blob, finish_upload, start_upload, start_upload_with, version, write_image,
    write_manifest,
};
use image_registry::error::RegistryError;
use image_registry::manifest::{Config, ImageManifest, Layer};
use image_registry::registry::Registry;
use image_registry::response::Response;

const HELLO_WORLD: &str = "sha256:b94d27b9934d3e08a52e52d7da7dabfac484efe37a5380ee9088f7ace2efcde9";

fn header<'a>(response: &'a Response, name: &str) -> Option<&'a str> {
    response.header(name).map(|value| value.as_str())
}

fn names(response: &Response) -> Vec<&str> {
    response.headers.iter().map(|h| h.name.as_str()).collect()
}

fn manifest(layers: &[&[u8]]) -> ImageManifest {
    ImageManifest {
        schema_version: 2,
        media_type: "application/vnd.docker.distribution.manifest.v2+json".to_string(),
        config: Config {
            media_type: "application/vnd.docker.container.image.v1+json".to_string(),
            size: Some(2),
            digest: compute(b"{}").to_text(),
        },
        layers: layers
            .iter()
            .map(|content| Layer {
                media_type: "application/vnd.docker.image.rootfs.diff.tar.gzip".to_string(),
                size: Some(content.len()),
                digest: compute(content).to_text(),
                urls: None,
            })
            .collect(),
    }
}

#[test]
fn version_names_the_api() {
    let response = version();
    assert_eq!(response.status, 200);
    assert_eq!(header(&response, "Docker-Distribution-API-Version"), Some("registry/2.0"));
    assert_eq!(names(&response), vec!["Docker-Distribution-API-Version"]);
}

#[test]
fn push_of_hello_world() {
    let mut registry = Registry::new();

    let started = start_upload(&mut registry, "app");
    assert_eq!(started.status, 202);
    assert_eq!(header(&started, "Range"), Some("bytes=0-0"));
    assert_eq!(header(&started, "Content-Length"), Some("0"));
    let location = header(&started, "Location").unwrap().to_string();
    let session = location.strip_prefix("/v2/app/blobs/uploads/").unwrap().to_string();
    assert_eq!(session.len(), 26);

    let first = write_image(&mut registry, "app", &session, b"hello ");
    assert_eq!(first.status, 202);
    assert_eq!(header(&first, "Location"), Some(location.as_str()));
    assert_eq!(header(&first, "Range"), Some("0-6"));
    assert_eq!(header(&first, "Content-Length"), Some("0"));

    let second = write_image(&mut registry, "app", &session, b"world");
    assert_eq!(second.status, 202);
    assert_eq!(header(&second, "Range"), Some("0-11"));

    let finished = finish_upload(&mut registry, "app", &session, b"", HELLO_WORLD);
    assert_eq!(finished.status, 201);
    assert_eq!(header(&finished, "Docker-Content-Digest"), Some(HELLO_WORLD));
    assert_eq!(
        header(&finished, "Location"),
        Some(
            "/v2/app/blobs/sha256:b94d27b9934d3e08a52e52d7da7dabfac484efe37a5380ee9088f7ace2efcde9"
        )
    );
    assert_eq!(header(&finished, "Content-Length"), Some("0"));

    let checked = check_blob(&registry, "app", HELLO_WORLD);
    assert_eq!(checked.status, 200);
    assert_eq!(header(&checked, "Content-Length"), Some("11"));
    assert_eq!(header(&checked, "Docker-Content-Digest"), Some(HELLO_WORLD));
    assert_eq!(names(&checked), vec!["Content-Length", "Docker-Content-Digest"]);
}

#[test]
fn start_upload_with_a_given_token() {
    let mut registry = Registry::new();
    let started = start_upload_with(&mut registry, "app", "TOKEN".to_string());
    assert_eq!(started.status, 202);
    assert_eq!(header(&started, "Location"), Some("/v2/app/blobs/uploads/TOKEN"));
    assert_eq!(header(&started, "Range"), Some("bytes=0-0"));
    assert_eq!(header(&started, "Content-Length"), Some("0"));
    assert_eq!(names(&started), vec!["Location", "Range", "Content-Length"]);
    let again = start_upload_with(&mut registry, "app", "TOKEN".to_string());
    assert_eq!(again.status, 500);
    assert!(again.headers.is_empty());
}

#[test]
fn check_blob_of_an_absent_blob_is_404() {
    let registry = Registry::new();
    let response = check_blob(&registry, "app", HELLO_WORLD);
    assert_eq!(response.status, 404);
    assert!(response.headers.is_empty());
}

#[test]
fn check_blob_of_text_that_is_no_digest_is_404() {
    let mut registry = Registry::new();
    registry.put(&compute(b"hello world"), b"hello world".to_vec()).unwrap();
    let bare = HELLO_WORLD.strip_prefix("sha256:").unwrap();
    for text in ["", "sha256", "sha256:", "sha256:xyz", "b94d27b9934d3e08", bare] {
        let response = check_blob(&registry, "app", text);
        assert_eq!(response.status, 404);
        assert!(response.headers.is_empty());
    }
}

#[test]
fn start_upload_on_a_new_registry_is_accepted() {
    let mut registry = Registry::new();
    let started = start_upload(&mut registry, "app");
    assert_eq!(started.status, 202);
    assert_eq!(header(&started, "Range"), Some("bytes=0-0"));
    let location = header(&started, "Location").unwrap();
    let session = location.strip_prefix("/v2/app/blobs/uploads/").unwrap();
    assert!(!session.is_empty());
    assert_eq!(registry.staged("app", session), Ok(&Vec::new()));
}

#[test]
fn check_blob_takes_hex_of_either_case() {
    let mut registry = Registry::new();
    registry.put(&compute(b"hello world"), b"hello world".to_vec()).unwrap();
    let response = check_blob(&registry, "any", &HELLO_WORLD.to_uppercase().replace("SHA", "sha"));
    assert_eq!(response.status, 200);
    assert_eq!(header(&response, "Docker-Content-Digest"), Some(HELLO_WORLD));
}

#[test]
fn write_image_to_an_unknown_session_is_404() {
    let mut registry = Registry::new();
    let response = write_image(&mut registry, "app", "unknown", b"data");
    assert_eq!(response.status, 404);
    assert!(response.headers.is_empty());
}

#[test]
fn write_image_to_a_finished_session_is_404() {
    let mut registry = Registry::new();
    start_upload_with(&mut registry, "app", "S".to_string());
    assert_eq!(finish_upload(&mut registry, "app", "S", b"hello world", HELLO_WORLD).status, 201);
    assert_eq!(write_image(&mut registry, "app", "S", b"more").status, 404);
}

#[test]
fn finish_upload_takes_trailing_bytes() {
    let mut registry = Registry::new();
    start_upload_with(&mut registry, "app", "S".to_string());
    write_image(&mut registry, "app", "S", b"hello ");
    let finished = finish_upload(&mut registry, "app", "S", b"world", HELLO_WORLD);
    assert_eq!(finished.status, 201);
    assert_eq!(names(&finished), vec!["Location", "Content-Length", "Docker-Content-Digest"]);
    assert_eq!(registry.get(&compute(b"hello world")), Ok(&b"hello world".to_vec()));
    assert_eq!(registry.resolve("app"), Some(&compute(b"hello world")));
}

#[test]
fn finish_upload_with_the_wrong_digest_creates_no_blob() {
    let mut registry = Registry::new();
    start_upload_with(&mut registry, "app", "S".to_string());
    write_image(&mut registry, "app", "S", b"hello ");
    let finished = finish_upload(&mut registry, "app", "S", b"there", HELLO_WORLD);
    assert_eq!(finished.status, 400);
    assert!(finished.headers.is_empty());
    assert_eq!(check_blob(&registry, "app", HELLO_WORLD).status, 404);
    assert!(!registry.contains(&compute(b"hello there")));
    assert_eq!(registry.staged("app", "S"), Ok(&b"hello ".to_vec()));
    let retried = finish_upload(&mut registry, "app", "S", b"world", HELLO_WORLD);
    assert_eq!(retried.status, 201);
    assert_eq!(check_blob(&registry, "app", HELLO_WORLD).status, 200);
}

#[test]
fn finish_upload_with_a_malformed_digest_is_400() {
    let mut registry = Registry::new();
    start_upload_with(&mut registry, "app", "S".to_string());
    write_image(&mut registry, "app", "S", b"hello world");
    let finished = finish_upload(&mut registry, "app", "S", b"", "b94d27b9934d3e08");
    assert_eq!(finished.status, 400);
    assert_eq!(registry.staged("app", "S"), Ok(&b"hello world".to_vec()));
}

#[test]
fn finish_upload_of_an_unknown_session_is_404() {
    let mut registry = Registry::new();
    let finished = finish_upload(&mut registry, "app", "S", b"hello world", HELLO_WORLD);
    assert_eq!(finished.status, 404);
    assert!(!registry.contains(&Digest::parse(HELLO_WORLD).unwrap()));
}

#[test]
fn write_manifest_answers_where_the_manifest_is() {
    let mut registry = Registry::new();
    let response = write_manifest(&mut registry, "app", "latest", manifest(&[b"L1"]));
    assert_eq!(response.status, 201);
    assert_eq!(header(&response, "Location"), Some("/v2/app/manifests/latest"));
    assert_eq!(header(&response, "Content-Length"), Some("0"));
    assert_eq!(header(&response, "Docker-Content-Digest"), None);
    assert_eq!(registry.manifest("app").unwrap().layers.len(), 1);
}

#[test]
fn write_manifest_names_the_digest_the_repository_resolves_to() {
    let mut registry = Registry::new();
    start_upload_with(&mut registry, "app", "S".to_string());
    finish_upload(&mut registry, "app", "S", b"hello world", HELLO_WORLD);
    let response = write_manifest(&mut registry, "app", "v1", manifest(&[b"hello world"]));
    assert_eq!(response.status, 201);
    assert_eq!(header(&response, "Location"), Some("/v2/app/manifests/v1"));
    assert_eq!(header(&response, "Docker-Content-Digest"), Some(HELLO_WORLD));
    assert_eq!(names(&response), vec!["Location", "Content-Length", "Docker-Content-Digest"]);
}

#[test]
fn write_manifest_merges_into_the_stored_manifest() {
    let mut registry = Registry::new();
    write_manifest(&mut registry, "app", "latest", manifest(&[b"L1", b"L2"]));
    write_manifest(&mut registry, "app", "latest", manifest(&[b"L1", b"L2", b"L3"]));
    write_manifest(&mut registry, "app", "latest", manifest(&[b"L1", b"L2"]));
    let stored = registry.manifest("app").unwrap();
    let digests: Vec<String> = stored.layers.iter().map(|l| l.digest.clone()).collect();
    assert_eq!(
        digests,
        vec![compute(b"L1").to_text(), compute(b"L2").to_text(), compute(b"L3").to_text()]
    );
}

#[test]
fn write_manifest_of_an_invalid_manifest_is_400() {
    let mut registry = Registry::new();
    let mut broken = manifest(&[b"L1"]);
    broken.layers[0].digest = "sha256".to_string();
    let response = write_manifest(&mut registry, "app", "latest", broken);
    assert_eq!(response.status, 400);
    assert!(response.headers.is_empty());
    assert_eq!(registry.manifest("app").unwrap_err(), RegistryError::NotFound);
}

#[test]
fn failures_map_to_statuses() {
    assert_eq!(Response::failure(RegistryError::NotFound).status, 404);
    assert_eq!(Response::failure(RegistryError::SessionNotFound).status, 404);
    assert_eq!(Response::failure(RegistryError::SessionExpired).status, 404);
    assert_eq!(Response::failure(RegistryError::DigestMismatch).status, 400);
    assert_eq!(Response::failure(RegistryError::InvalidManifest).status, 400);
    assert_eq!(Response::failure(RegistryError::IOFailure).status, 500);
}

#[test]
fn header_finds_the_first_of_a_name() {
    let response = Response::bare(200)
        .with("A", "1".to_string())
        .with("B", "2".to_string())
        .with("A", "3".to_string());
    assert_eq!(header(&response, "A"), Some("1"));
    assert_eq!(header(&response, "B"), Some("2"));
    assert_eq!(header(&response, "C"), None);
    assert_eq!(response.headers.len(), 3);
}
