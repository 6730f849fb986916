//! The operations of the push protocol, each from a parsed request and the
//! registry to a response.

use vstd::prelude::*;
use vstd::string::*;
use crate::blob_store::blob_get;
use crate::digest::{parse_digest, Digest};
use crate::error::RegistryError;
use crate::manifest::{ImageManifest, ManifestModel};
use crate::registry::{Registry, RegistryModel};
use crate::response::{Response, ResponseModel};
use crate::session::{finish_outcome, is_token, open_outcome, token_in_use, write_outcome};
use crate::text::{decimal, decimal_text};

verus! {

/// Where the upload session `id` of repository `name` is addressed.
pub open spec fn upload_location(name: Seq<char>, id: Seq<char>) -> Seq<char> {
    "/v2/"@ + name + "/blobs/uploads/"@ + id
}

/// Where the blob `digest` of repository `name` is addressed.
pub open spec fn blob_location(name: Seq<char>, digest: Seq<char>) -> Seq<char> {
    "/v2/"@ + name + "/blobs/"@ + digest
}

/// Where the manifest `reference` of repository `name` is addressed.
pub open spec fn manifest_location(name: Seq<char>, reference: Seq<char>) -> Seq<char> {
    "/v2/"@ + name + "/manifests/"@ + reference
}

/// The answer to the check for API support.
pub open spec fn version_response() -> ResponseModel {
    ResponseModel::bare(200).with("Docker-Distribution-API-Version"@, "registry/2.0"@)
}

/// The answer to a check for the blob named by `digest`: its length and its
/// digest if it is committed, 404 if it is not. Text that is no digest names
/// no blob, and is answered 404 as well.
pub open spec fn check_blob_response(state: RegistryModel, digest: Seq<char>) -> ResponseModel {
    match parse_digest(digest) {
        None => ResponseModel::failure(RegistryError::NotFound),
        Some(key) => match blob_get(state.blobs, key) {
            Ok(bytes) => ResponseModel::bare(200).with(
                "Content-Length"@,
                decimal(bytes.len()),
            ).with("Docker-Content-Digest"@, key.text()),
            Err(e) => ResponseModel::failure(e),
        },
    }
}

/// The answer that accepts an upload request: where the session is, and the
/// range of bytes that it holds.
pub open spec fn upload_accepted(
    name: Seq<char>,
    id: Seq<char>,
    range: Seq<char>,
) -> ResponseModel {
    ResponseModel::bare(202).with("Location"@, upload_location(name, id)).with(
        "Range"@,
        range,
    ).with("Content-Length"@, "0"@)
}

/// The answer to the start of an upload under `token`.
pub open spec fn start_upload_response(
    state: RegistryModel,
    name: Seq<char>,
    token: Seq<char>,
) -> ResponseModel {
    match open_outcome(state.sessions, name, token) {
        Ok(id) => upload_accepted(name, id, "bytes=0-0"@),
        Err(e) => ResponseModel::failure(e),
    }
}

/// The answer to a chunk: the range runs to the new offset.
pub open spec fn write_image_response(
    state: RegistryModel,
    name: Seq<char>,
    id: Seq<char>,
    data: Seq<u8>,
) -> ResponseModel {
    match write_outcome(state.sessions, name, id, data) {
        Ok(offset) => upload_accepted(name, id, "0-"@ + decimal(offset)),
        Err(e) => ResponseModel::failure(e),
    }
}

/// The registry after an upload was finished: the trailing bytes are
/// appended and the whole is committed, or nothing changed.
pub open spec fn finish_upload_state(
    state: RegistryModel,
    name: Seq<char>,
    id: Seq<char>,
    data: Seq<u8>,
    digest: Seq<char>,
) -> RegistryModel {
    match parse_digest(digest) {
        None => state,
        Some(declared) => state.finish_with_tail(name, id, data, declared),
    }
}

/// The answer to the finish of an upload: where the committed blob is and
/// its digest, or the failure; 400 if `digest` is no digest.
pub open spec fn finish_upload_response(
    state: RegistryModel,
    name: Seq<char>,
    id: Seq<char>,
    data: Seq<u8>,
    digest: Seq<char>,
) -> ResponseModel {
    match parse_digest(digest) {
        None => ResponseModel::bare(400),
        Some(declared) => match finish_outcome(
            state.write(name, id, data).sessions,
            name,
            id,
            declared,
        ) {
            Ok(committed) => ResponseModel::bare(201).with(
                "Location"@,
                blob_location(name, committed.text()),
            ).with("Content-Length"@, "0"@).with("Docker-Content-Digest"@, committed.text()),
            Err(e) => ResponseModel::failure(e),
        },
    }
}

/// The answer to a manifest write: where the manifest is and, if the
/// repository resolves to a digest, that digest.
pub open spec fn write_manifest_response(
    state: RegistryModel,
    name: Seq<char>,
    reference: Seq<char>,
    manifest: ManifestModel,
) -> ResponseModel {
    match state.manifests.put_outcome(name, manifest) {
        Ok(_) => {
            let created = ResponseModel::bare(201).with(
                "Location"@,
                manifest_location(name, reference),
            ).with("Content-Length"@, "0"@);
            match state.manifests.resolve(name) {
                Some(digest) => created.with("Docker-Content-Digest"@, digest.text()),
                None => created,
            }
        },
        Err(e) => ResponseModel::failure(e),
    }
}

/// Builds the text `/v2/{name}{middle}{last}`.
fn location(name: &str, middle: &str, last: &str) -> (text: String)
    ensures
        text@ == "/v2/"@ + name@ + middle@ + last@,
{
    let mut text = "/v2/".to_owned();
    text.append(name);
    text.append(middle);
    text.append(last);
    text
}

/// Answers the check for API support.
pub fn version() -> (response: Response)
    ensures
        response@ == version_response(),
{
    Response::bare(200).with("Docker-Distribution-API-Version", "registry/2.0".to_owned())
}

/// Answers whether the blob named by `digest` is committed. Blobs are
/// shared by all repositories, so the repository plays no part.
pub fn check_blob(registry: &Registry, _name: &str, digest: &str) -> (response: Response)
    ensures
        response@ == check_blob_response(registry@, digest@),
{
    let key = match Digest::parse(digest) {
        Some(key) => key,
        None => {
            return Response::failure(RegistryError::NotFound);
        },
    };
    match registry.get(&key) {
        Ok(bytes) => Response::bare(200).with("Content-Length", decimal_text(bytes.len())).with(
            "Docker-Content-Digest",
            key.to_text(),
        ),
        Err(e) => Response::failure(e),
    }
}

/// Starts an upload to repository `name` under `token` and answers where
/// the session is.
pub fn start_upload_with(registry: &mut Registry, name: &str, token: String) -> (response: Response)
    ensures
        final(registry)@ == old(registry)@.open(name@, token@),
        response@ == start_upload_response(old(registry)@, name@, token@),
        final(registry)@.wf(),
{
    match registry.open(name, token) {
        Ok(id) => Response::bare(202).with(
            "Location",
            location(name, "/blobs/uploads/", id.as_str()),
        ).with("Range", "bytes=0-0".to_owned()).with("Content-Length", "0".to_owned()),
        Err(e) => Response::failure(e),
    }
}

/// Starts an upload to repository `name` under a newly generated session id
/// and answers where the session is. Only where the generated id is in use
/// in the repository, which cannot be where no session of the repository
/// goes by an id of that form, nothing changes and the answer is 500.
pub fn start_upload(registry: &mut Registry, name: &str) -> (response: Response)
    ensures
        ({
            ||| exists|id: Seq<char>|
                {
                    &&& is_token(id)
                    &&& !old(registry)@.sessions.dom().contains((name@, id))
                    &&& final(registry)@ == old(registry)@.open(name@, id)
                    &&& response@ == upload_accepted(name@, id, "bytes=0-0"@)
                }
            ||| {
                &&& token_in_use(old(registry)@.sessions, name@)
                &&& final(registry)@ == old(registry)@
                &&& response@ == ResponseModel::failure(RegistryError::IOFailure)
            }
        }),
        final(registry)@.wf(),
{
    match registry.start(name) {
        Ok(id) => {
            let response = Response::bare(202).with(
                "Location",
                location(name, "/blobs/uploads/", id.as_str()),
            ).with("Range", "bytes=0-0".to_owned()).with("Content-Length", "0".to_owned());
            proof {
                assert(response@ == upload_accepted(name@, id@, "bytes=0-0"@));
            }
            response
        },
        Err(e) => Response::failure(e),
    }
}

/// Appends `data` to the upload session `id` of repository `name` and
/// answers with the new range.
pub fn write_image(registry: &mut Registry, name: &str, id: &str, data: &[u8]) -> (response:
    Response)
    ensures
        final(registry)@ == old(registry)@.write(name@, id@, data@),
        response@ == write_image_response(old(registry)@, name@, id@, data@),
        final(registry)@.wf(),
{
    match registry.write(name, id, data) {
        Ok(offset) => {
            let mut range = "0-".to_owned();
            range.append(decimal_text(offset).as_str());
            Response::bare(202).with("Location", location(name, "/blobs/uploads/", id)).with(
                "Range",
                range,
            ).with("Content-Length", "0".to_owned())
        },
        Err(e) => Response::failure(e),
    }
}

/// Finishes the upload session `id` of repository `name`: the trailing
/// bytes `data` are appended, and the whole is committed if it hashes to
/// `digest`. On any failure the registry is as it was, trailing bytes
/// included.
pub fn finish_upload(
    registry: &mut Registry,
    name: &str,
    id: &str,
    data: &[u8],
    digest: &str,
) -> (response: Response)
    ensures
        final(registry)@ == finish_upload_state(old(registry)@, name@, id@, data@, digest@),
        response@ == finish_upload_response(old(registry)@, name@, id@, data@, digest@),
        final(registry)@.wf(),
{
    proof {
        use_type_invariant(&*registry);
        registry.lemma_wf();
    }
    let declared = match Digest::parse(digest) {
        Some(declared) => declared,
        None => {
            return Response::bare(400);
        },
    };
    match registry.finish_with_tail(name, id, data, &declared) {
        Ok(committed) => {
            let text = committed.to_text();
            Response::bare(201).with("Location", location(name, "/blobs/", text.as_str())).with(
                "Content-Length",
                "0".to_owned(),
            ).with("Docker-Content-Digest", text)
        },
        Err(e) => Response::failure(e),
    }
}

/// Writes `manifest` as the manifest of repository `name`, merging it into
/// the stored one, and answers where it is.
pub fn write_manifest(
    registry: &mut Registry,
    name: &str,
    reference: &str,
    manifest: ImageManifest,
) -> (response: Response)
    ensures
        final(registry)@ == old(registry)@.put_manifest(name@, manifest@),
        response@ == write_manifest_response(old(registry)@, name@, reference@, manifest@),
        final(registry)@.wf(),
{
    match registry.put_manifest(name, manifest) {
        Ok(_) => {
            let created = Response::bare(201).with(
                "Location",
                location(name, "/manifests/", reference),
            ).with("Content-Length", "0".to_owned());
            match registry.resolve(name) {
                Some(digest) => created.with("Docker-Content-Digest", digest.to_text()),
                None => created,
            }
        },
        Err(e) => Response::failure(e),
    }
}

} // verus!
