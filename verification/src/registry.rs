//! The registry: upload sessions, blob store and manifest store as one
//! state, with every operation a step from one state to the next.

use vstd::prelude::*;
use crate::blob_store::{
    blob_get, blob_put, blob_put_accepts, content_addressed, BlobMap, BlobStore,
};
use crate::digest::{Digest, DigestModel};
use crate::error::RegistryError;
use crate::manifest::{ImageManifest, ManifestModel};
use crate::manifest_store::{ManifestStore, ManifestStoreModel};
use crate::session::{
    finish_outcome, is_token, open_outcome, open_session, reclaim_outcome, retire, staged_bytes,
    token_in_use, write_chunk, write_outcome, SessionMap, UploadSessionManager,
};

verus! {

/// Whether every digest that `index` resolves a repository to has a blob in
/// `blobs`.
pub open spec fn resolves_to_blobs(index: Map<Seq<char>, DigestModel>, blobs: BlobMap) -> bool {
    forall|repository: Seq<char>|
        index.dom().contains(repository) ==> blobs.dom().contains(#[trigger] index[repository])
}

/// Model of the registry.
pub struct RegistryModel {
    pub sessions: SessionMap,
    pub blobs: BlobMap,
    pub manifests: ManifestStoreModel,
}

impl RegistryModel {
    /// The registry that holds nothing.
    pub open spec fn empty() -> RegistryModel {
        RegistryModel {
            sessions: Map::empty(),
            blobs: Map::empty(),
            manifests: ManifestStoreModel::empty(),
        }
    }

    /// What holds of every state of a registry: each blob stands under the
    /// digest of its content, and each repository resolves to a blob that is
    /// committed.
    pub open spec fn wf(self) -> bool {
        content_addressed(self.blobs) && resolves_to_blobs(self.manifests.index, self.blobs)
    }

    /// The state after a session was opened under `token`.
    pub open spec fn open(self, repository: Seq<char>, token: Seq<char>) -> RegistryModel {
        RegistryModel { sessions: open_session(self.sessions, repository, token), ..self }
    }

    /// The state after `chunk` was written to a session.
    pub open spec fn write(
        self,
        repository: Seq<char>,
        id: Seq<char>,
        chunk: Seq<u8>,
    ) -> RegistryModel {
        RegistryModel { sessions: write_chunk(self.sessions, repository, id, chunk), ..self }
    }

    /// The state after a session was finished under `declared`: on success
    /// the staged bytes are a blob, the repository resolves to it and the
    /// session is retired; on failure nothing changed.
    pub open spec fn finish(
        self,
        repository: Seq<char>,
        id: Seq<char>,
        declared: DigestModel,
    ) -> RegistryModel {
        match finish_outcome(self.sessions, repository, id, declared) {
            Ok(digest) => RegistryModel {
                sessions: retire(self.sessions, repository, id),
                blobs: self.blobs.insert(digest, staged_bytes(self.sessions, repository, id)->Ok_0),
                manifests: self.manifests.record(repository, digest),
            },
            Err(_) => self,
        }
    }

    /// The state after a session was finished with the trailing bytes `tail`:
    /// what `finish` gives once the tail is written, or the state as it was,
    /// without the tail, if that finish fails.
    pub open spec fn finish_with_tail(
        self,
        repository: Seq<char>,
        id: Seq<char>,
        tail: Seq<u8>,
        declared: DigestModel,
    ) -> RegistryModel {
        let written = self.write(repository, id, tail);
        match finish_outcome(written.sessions, repository, id, declared) {
            Ok(_) => written.finish(repository, id, declared),
            Err(_) => self,
        }
    }

    /// The state after a session was reclaimed.
    pub open spec fn reclaim(self, repository: Seq<char>, id: Seq<char>) -> RegistryModel {
        match reclaim_outcome(self.sessions, repository, id) {
            Ok(_) => RegistryModel { sessions: retire(self.sessions, repository, id), ..self },
            Err(_) => self,
        }
    }

    /// The state after `bytes` were put under `key`.
    pub open spec fn put(self, key: DigestModel, bytes: Seq<u8>) -> RegistryModel {
        RegistryModel { blobs: blob_put(self.blobs, key, bytes), ..self }
    }

    /// The state after `bytes` were put under `key` as the latest blob of
    /// `repository`: the blob is committed and the repository resolves to
    /// it, or nothing changed if `key` is not the digest of the bytes.
    pub open spec fn put_latest(
        self,
        repository: Seq<char>,
        key: DigestModel,
        bytes: Seq<u8>,
    ) -> RegistryModel {
        if blob_put_accepts(key, bytes) {
            RegistryModel {
                blobs: self.blobs.insert(key, bytes),
                manifests: self.manifests.record(repository, key),
                ..self
            }
        } else {
            self
        }
    }

    /// The state after `incoming` was written as the manifest of `repository`.
    pub open spec fn put_manifest(
        self,
        repository: Seq<char>,
        incoming: ManifestModel,
    ) -> RegistryModel {
        RegistryModel { manifests: self.manifests.put(repository, incoming), ..self }
    }
}

/// A registry: upload sessions, committed blobs, manifests.
pub struct Registry {
    sessions: UploadSessionManager,
    blobs: BlobStore,
    manifests: ManifestStore,
}

impl View for Registry {
    type V = RegistryModel;

    closed spec fn view(&self) -> RegistryModel {
        RegistryModel { sessions: self.sessions@, blobs: self.blobs@, manifests: self.manifests@ }
    }
}

impl Registry {
    /// What holds of every registry: the blob store is in order, and every
    /// repository resolves to a committed blob.
    #[verifier::type_invariant]
    pub closed spec fn inv(&self) -> bool {
        self.blobs.wf() && resolves_to_blobs(self.manifests@.index, self.blobs@)
    }

    /// The model of a registry is always well-formed.
    pub proof fn lemma_wf(&self)
        requires
            self.inv(),
        ensures
            self@.wf(),
    {
        self.blobs.lemma_content_addressed();
    }

    /// An empty registry.
    pub fn new() -> (registry: Registry)
        ensures
            registry@ == RegistryModel::empty(),
            registry@.wf(),
    {
        let blobs = BlobStore::new();
        proof {
            use_type_invariant(&blobs);
            blobs.lemma_content_addressed();
        }
        Registry { sessions: UploadSessionManager::new(), blobs, manifests: ManifestStore::new() }
    }

    /// Starts an upload to `repository` under a newly generated session id
    /// and returns the id. It succeeds unless the generated id is already in
    /// use in the repository, which cannot be where no session of the
    /// repository goes by an id of that form; it then fails with `IOFailure`,
    /// changing nothing.
    pub fn start(&mut self, repository: &str) -> (done: Result<String, RegistryError>)
        ensures
            match done {
                Ok(id) => {
                    &&& is_token(id@)
                    &&& !old(self)@.sessions.dom().contains((repository@, id@))
                    &&& final(self)@ == old(self)@.open(repository@, id@)
                },
                Err(e) => {
                    &&& e == RegistryError::IOFailure
                    &&& token_in_use(old(self)@.sessions, repository@)
                    &&& final(self)@ == old(self)@
                },
            },
            final(self)@.wf(),
    {
        proof {
            use_type_invariant(&*self);
            self.lemma_wf();
        }
        // A part leaves the registry while it changes and comes back whole:
        // the registry is in order at every moment.
        let mut sessions = UploadSessionManager::new();
        std::mem::swap(&mut self.sessions, &mut sessions);
        let done = sessions.start(repository);
        self.sessions = sessions;
        done
    }

    /// Opens a session of `repository` under `token` and returns its id, the
    /// token. Fails with `IOFailure`, changing nothing, if the repository
    /// already has a session under that token.
    pub fn open(&mut self, repository: &str, token: String) -> (done: Result<String, RegistryError>)
        ensures
            final(self)@ == old(self)@.open(repository@, token@),
            match done {
                Ok(id) => open_outcome(old(self)@.sessions, repository@, token@) == Ok::<
                    Seq<char>,
                    RegistryError,
                >(id@),
                Err(e) => open_outcome(old(self)@.sessions, repository@, token@) == Err::<
                    Seq<char>,
                    RegistryError,
                >(e),
            },
            final(self)@.wf(),
    {
        proof {
            use_type_invariant(&*self);
            self.lemma_wf();
        }
        let mut sessions = UploadSessionManager::new();
        std::mem::swap(&mut self.sessions, &mut sessions);
        let done = sessions.open(repository, token);
        self.sessions = sessions;
        done
    }

    /// Appends `chunk` to the staged bytes of a session and returns the new
    /// offset. Fails with `SessionNotFound` for an unknown session and with
    /// `SessionExpired` for a retired one, changing nothing.
    pub fn write(&mut self, repository: &str, id: &str, chunk: &[u8]) -> (done: Result<
        usize,
        RegistryError,
    >)
        ensures
            final(self)@ == old(self)@.write(repository@, id@, chunk@),
            match done {
                Ok(offset) => write_outcome(old(self)@.sessions, repository@, id@, chunk@) == Ok::<
                    nat,
                    RegistryError,
                >(offset as nat),
                Err(e) => write_outcome(old(self)@.sessions, repository@, id@, chunk@) == Err::<
                    nat,
                    RegistryError,
                >(e),
            },
            final(self)@.wf(),
    {
        proof {
            use_type_invariant(&*self);
            self.lemma_wf();
        }
        let mut sessions = UploadSessionManager::new();
        std::mem::swap(&mut self.sessions, &mut sessions);
        let done = sessions.write(repository, id, chunk);
        self.sessions = sessions;
        done
    }

    /// The bytes staged in an open session.
    pub fn staged(&self, repository: &str, id: &str) -> (found: Result<&Vec<u8>, RegistryError>)
        ensures
            match found {
                Ok(bytes) => staged_bytes(self@.sessions, repository@, id@) == Ok::<
                    Seq<u8>,
                    RegistryError,
                >(bytes@),
                Err(e) => staged_bytes(self@.sessions, repository@, id@) == Err::<
                    Seq<u8>,
                    RegistryError,
                >(e),
            },
    {
        self.sessions.staged(repository, id)
    }

    /// Finishes an upload: if the staged bytes hash to `declared`, they are
    /// committed as a blob under that digest, `repository` resolves to it,
    /// the session is retired, and the digest is returned.
    ///
    /// Fails with `DigestMismatch` if they hash to another digest, with
    /// `SessionNotFound` for an unknown session and with `SessionExpired` for
    /// a retired one. A failure changes nothing.
    pub fn finish(&mut self, repository: &str, id: &str, declared: &Digest) -> (done: Result<
        Digest,
        RegistryError,
    >)
        ensures
            final(self)@ == old(self)@.finish(repository@, id@, declared@),
            match done {
                Ok(digest) => finish_outcome(old(self)@.sessions, repository@, id@, declared@)
                    == Ok::<DigestModel, RegistryError>(digest@),
                Err(e) => finish_outcome(old(self)@.sessions, repository@, id@, declared@) == Err::<
                    DigestModel,
                    RegistryError,
                >(e),
            },
            final(self)@.wf(),
    {
        proof {
            use_type_invariant(&*self);
        }
        // The index leaves first and returns last, so that at no moment it
        // resolves to a digest that the blob store in place does not hold.
        let mut manifests = ManifestStore::new();
        std::mem::swap(&mut self.manifests, &mut manifests);
        let mut blobs = BlobStore::new();
        proof {
            use_type_invariant(&blobs);
        }
        std::mem::swap(&mut self.blobs, &mut blobs);
        let mut sessions = UploadSessionManager::new();
        std::mem::swap(&mut self.sessions, &mut sessions);
        let done = sessions.finish(repository, id, declared, &mut blobs, &mut manifests);
        proof {
            use_type_invariant(&blobs);
            blobs.lemma_content_addressed();
        }
        self.sessions = sessions;
        self.blobs = blobs;
        self.manifests = manifests;
        done
    }

    /// Finishes an upload that ends in `tail`: the tail is appended to the
    /// staged bytes and the whole is finished as `finish` does. A failure
    /// changes nothing: the tail is not kept.
    pub fn finish_with_tail(
        &mut self,
        repository: &str,
        id: &str,
        tail: &[u8],
        declared: &Digest,
    ) -> (done: Result<Digest, RegistryError>)
        ensures
            final(self)@ == old(self)@.finish_with_tail(repository@, id@, tail@, declared@),
            match done {
                Ok(digest) => finish_outcome(
                    old(self)@.write(repository@, id@, tail@).sessions,
                    repository@,
                    id@,
                    declared@,
                ) == Ok::<DigestModel, RegistryError>(digest@),
                Err(e) => finish_outcome(
                    old(self)@.write(repository@, id@, tail@).sessions,
                    repository@,
                    id@,
                    declared@,
                ) == Err::<DigestModel, RegistryError>(e),
            },
            final(self)@.wf(),
    {
        proof {
            use_type_invariant(&*self);
        }
        let mut manifests = ManifestStore::new();
        std::mem::swap(&mut self.manifests, &mut manifests);
        let mut blobs = BlobStore::new();
        proof {
            use_type_invariant(&blobs);
        }
        std::mem::swap(&mut self.blobs, &mut blobs);
        let mut sessions = UploadSessionManager::new();
        std::mem::swap(&mut self.sessions, &mut sessions);
        let done = sessions.finish_with_tail(
            repository,
            id,
            tail,
            declared,
            &mut blobs,
            &mut manifests,
        );
        proof {
            use_type_invariant(&blobs);
            blobs.lemma_content_addressed();
        }
        self.sessions = sessions;
        self.blobs = blobs;
        self.manifests = manifests;
        done
    }

    /// Gives up an open session: its staged bytes are dropped and the session
    /// is retired. Fails with `SessionNotFound` for an unknown session and
    /// with `SessionExpired` for a retired one, changing nothing.
    pub fn reclaim(&mut self, repository: &str, id: &str) -> (done: Result<(), RegistryError>)
        ensures
            final(self)@ == old(self)@.reclaim(repository@, id@),
            done == reclaim_outcome(old(self)@.sessions, repository@, id@),
            final(self)@.wf(),
    {
        proof {
            use_type_invariant(&*self);
            self.lemma_wf();
        }
        let mut sessions = UploadSessionManager::new();
        std::mem::swap(&mut self.sessions, &mut sessions);
        let done = sessions.reclaim(repository, id);
        self.sessions = sessions;
        done
    }

    /// Whether a blob is committed under `key`.
    pub fn contains(&self, key: &Digest) -> (found: bool)
        ensures
            found == self@.blobs.dom().contains(key@),
            self@.wf(),
    {
        proof {
            use_type_invariant(self);
        }
        self.blobs.contains(key)
    }

    /// The content of the blob committed under `key`.
    pub fn get(&self, key: &Digest) -> (found: Result<&Vec<u8>, RegistryError>)
        ensures
            match found {
                Ok(bytes) => blob_get(self@.blobs, key@) == Ok::<Seq<u8>, RegistryError>(bytes@),
                Err(e) => blob_get(self@.blobs, key@) == Err::<Seq<u8>, RegistryError>(e),
            },
            self@.wf(),
    {
        proof {
            use_type_invariant(self);
        }
        self.blobs.get(key)
    }

    /// Commits `bytes` under `key` if `key` is their digest, and refuses them
    /// with `DigestMismatch` otherwise, changing nothing.
    pub fn put(&mut self, key: &Digest, bytes: Vec<u8>) -> (done: Result<(), RegistryError>)
        ensures
            final(self)@ == old(self)@.put(key@, bytes@),
            done == if blob_put_accepts(key@, bytes@) {
                Ok::<(), RegistryError>(())
            } else {
                Err::<(), RegistryError>(RegistryError::DigestMismatch)
            },
            final(self)@.wf(),
    {
        proof {
            use_type_invariant(&*self);
        }
        let mut manifests = ManifestStore::new();
        std::mem::swap(&mut self.manifests, &mut manifests);
        let mut blobs = BlobStore::new();
        proof {
            use_type_invariant(&blobs);
        }
        std::mem::swap(&mut self.blobs, &mut blobs);
        let done = blobs.put(key, bytes);
        proof {
            use_type_invariant(&blobs);
        }
        self.blobs = blobs;
        self.manifests = manifests;
        done
    }

    /// Commits `bytes` under `key` as the latest blob of `repository`, in one
    /// step: the blob is committed and the repository resolves to it. If
    /// `key` is not the digest of the bytes they are refused with
    /// `DigestMismatch`, changing nothing.
    pub fn put_latest(&mut self, repository: &str, key: &Digest, bytes: Vec<u8>) -> (done: Result<
        (),
        RegistryError,
    >)
        ensures
            final(self)@ == old(self)@.put_latest(repository@, key@, bytes@),
            done == if blob_put_accepts(key@, bytes@) {
                Ok::<(), RegistryError>(())
            } else {
                Err::<(), RegistryError>(RegistryError::DigestMismatch)
            },
            final(self)@.wf(),
    {
        proof {
            use_type_invariant(&*self);
            self.lemma_wf();
        }
        let mut manifests = ManifestStore::new();
        std::mem::swap(&mut self.manifests, &mut manifests);
        let mut blobs = BlobStore::new();
        proof {
            use_type_invariant(&blobs);
        }
        std::mem::swap(&mut self.blobs, &mut blobs);
        let done = blobs.put(key, bytes);
        if done.is_ok() {
            manifests.record(repository, key.clone());
        }
        proof {
            use_type_invariant(&blobs);
        }
        self.blobs = blobs;
        self.manifests = manifests;
        done
    }

    /// The manifest stored for `repository`.
    pub fn manifest(&self, repository: &str) -> (found: Result<&ImageManifest, RegistryError>)
        ensures
            match found {
                Ok(manifest) => self@.manifests.get(repository@) == Ok::<
                    ManifestModel,
                    RegistryError,
                >(manifest@),
                Err(e) => self@.manifests.get(repository@) == Err::<ManifestModel, RegistryError>(
                    e,
                ),
            },
    {
        self.manifests.get(repository)
    }

    /// Writes `incoming` as the manifest of `repository`: the first manifest
    /// is stored as it is, a later one is merged into the stored one. Returns
    /// the manifest that is stored afterwards. An invalid manifest is refused
    /// with `InvalidManifest` and changes nothing.
    pub fn put_manifest(&mut self, repository: &str, incoming: ImageManifest) -> (done: Result<
        ImageManifest,
        RegistryError,
    >)
        ensures
            final(self)@ == old(self)@.put_manifest(repository@, incoming@),
            match done {
                Ok(merged) => old(self)@.manifests.put_outcome(repository@, incoming@) == Ok::<
                    ManifestModel,
                    RegistryError,
                >(merged@),
                Err(e) => old(self)@.manifests.put_outcome(repository@, incoming@) == Err::<
                    ManifestModel,
                    RegistryError,
                >(e),
            },
            final(self)@.wf(),
    {
        proof {
            use_type_invariant(&*self);
            self.lemma_wf();
        }
        let mut manifests = ManifestStore::new();
        std::mem::swap(&mut self.manifests, &mut manifests);
        let done = manifests.put(repository, incoming);
        self.manifests = manifests;
        done
    }

    /// The digest of the latest blob committed for `repository`.
    pub fn resolve(&self, repository: &str) -> (found: Option<&Digest>)
        ensures
            match found {
                Some(digest) => self@.manifests.resolve(repository@) == Some(digest@),
                None => self@.manifests.resolve(repository@) == None::<DigestModel>,
            },
            found matches Some(digest) ==> self@.blobs.dom().contains(digest@),
    {
        proof {
            use_type_invariant(self);
        }
        self.manifests.resolve(repository)
    }
}

} // verus!
