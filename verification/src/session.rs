//! The upload session manager: resumable, append-only uploads that end in a
//! committed blob.

use vstd::prelude::*;
use crate::blob_store::{BlobMap, BlobStore};
use crate::digest::{compute, digest_of, Digest, DigestModel};
use crate::error::RegistryError;
use crate::manifest_store::{ManifestStore, ManifestStoreModel};
use crate::text::same_text;
use crate::table::{
    distinct, has_key, lemma_table_at, lemma_table_empty, lemma_table_push, lemma_table_update,
    table,
};

verus! {

/// Model of one upload session.
pub enum SessionModel {
    /// The session takes chunks; `staged` is what was written so far.
    Open { staged: Seq<u8> },
    /// The session was finished or reclaimed; its staged bytes are gone.
    Retired,
}

/// A session is known by its repository and its id.
pub type SessionKey = (Seq<char>, Seq<char>);

/// Model of the session manager: the state of each session ever opened.
pub type SessionMap = Map<SessionKey, SessionModel>;

/// Whether `c` is a digit of Crockford's base 32: a decimal digit or an
/// upper-case letter other than I, L, O and U.
pub open spec fn is_token_char(c: char) -> bool {
    ('0' <= c <= '9') || ('A' <= c <= 'Z' && c != 'I' && c != 'L' && c != 'O' && c != 'U')
}

/// Whether `text` has the form of a generated session id: 26 digits of
/// Crockford's base 32.
pub open spec fn is_token(text: Seq<char>) -> bool {
    &&& text.len() == 26
    &&& forall|i: int| 0 <= i < text.len() ==> is_token_char(#[trigger] text[i])
}

/// Calls `rusty_ulid::generate_ulid_string`, which draws a new ULID from the
/// clock and the thread's random generator.
///
/// Trusted: the result is 26 characters of Crockford's base 32. Nothing is
/// claimed of which ones: two calls may give any two such texts. (The
/// outside function panics where the machine's clock reads before 1970 or
/// past the year 10889, and where the system gives no randomness.)
#[verifier::external_body]
fn fresh_token() -> (token: String)
    ensures
        is_token(token@),
{
    rusty_ulid::generate_ulid_string()
}

/// Whether some session of `repository`, open or retired, goes by an id of
/// the form of a generated one. Where none does, no generated id can be in
/// use.
pub open spec fn token_in_use(sessions: SessionMap, repository: Seq<char>) -> bool {
    exists|id: Seq<char>| #[trigger] is_token(id) && sessions.dom().contains((repository, id))
}

/// What `open` answers: a token already in use in the repository cannot
/// name a new session.
pub open spec fn open_outcome(
    sessions: SessionMap,
    repository: Seq<char>,
    token: Seq<char>,
) -> Result<Seq<char>, RegistryError> {
    if sessions.dom().contains((repository, token)) {
        Err(RegistryError::IOFailure)
    } else {
        Ok(token)
    }
}

/// The sessions after `open`: a new, empty session under the token, or no
/// change where the token was in use.
pub open spec fn open_session(
    sessions: SessionMap,
    repository: Seq<char>,
    token: Seq<char>,
) -> SessionMap {
    if sessions.dom().contains((repository, token)) {
        sessions
    } else {
        sessions.insert((repository, token), SessionModel::Open { staged: Seq::empty() })
    }
}

/// The staged bytes of an open session, or the reason why there are none.
pub open spec fn staged_bytes(sessions: SessionMap, repository: Seq<char>, id: Seq<char>) -> Result<
    Seq<u8>,
    RegistryError,
> {
    if !sessions.dom().contains((repository, id)) {
        Err(RegistryError::SessionNotFound)
    } else {
        match sessions[(repository, id)] {
            SessionModel::Open { staged } => Ok(staged),
            SessionModel::Retired => Err(RegistryError::SessionExpired),
        }
    }
}

/// What `write` answers: the new offset, the number of bytes staged after
/// the chunk was appended.
pub open spec fn write_outcome(
    sessions: SessionMap,
    repository: Seq<char>,
    id: Seq<char>,
    chunk: Seq<u8>,
) -> Result<nat, RegistryError> {
    match staged_bytes(sessions, repository, id) {
        Ok(staged) => Ok((staged + chunk).len()),
        Err(e) => Err(e),
    }
}

/// The sessions after `write`: the chunk follows what was staged, and no
/// other session changed.
pub open spec fn write_chunk(
    sessions: SessionMap,
    repository: Seq<char>,
    id: Seq<char>,
    chunk: Seq<u8>,
) -> SessionMap {
    match staged_bytes(sessions, repository, id) {
        Ok(staged) => sessions.insert(
            (repository, id),
            SessionModel::Open { staged: staged + chunk },
        ),
        Err(_) => sessions,
    }
}

/// What `finish` answers: the digest of the staged bytes, if that is the
/// declared one.
pub open spec fn finish_outcome(
    sessions: SessionMap,
    repository: Seq<char>,
    id: Seq<char>,
    declared: DigestModel,
) -> Result<DigestModel, RegistryError> {
    match staged_bytes(sessions, repository, id) {
        Ok(staged) => if digest_of(staged) == declared {
            Ok(declared)
        } else {
            Err(RegistryError::DigestMismatch)
        },
        Err(e) => Err(e),
    }
}

/// What `finish` does to the sessions, the blobs and the manifest store, and
/// what it answers. On success the staged bytes stand in the blob store under
/// their digest, the repository resolves to that digest and the session is
/// retired. On failure all three are as they were.
pub open spec fn finished(
    sessions: SessionMap,
    blobs: BlobMap,
    manifests: ManifestStoreModel,
    repository: Seq<char>,
    id: Seq<char>,
    declared: DigestModel,
    done: Result<Digest, RegistryError>,
    sessions_after: SessionMap,
    blobs_after: BlobMap,
    manifests_after: ManifestStoreModel,
) -> bool {
    match done {
        Ok(digest) => {
            &&& finish_outcome(sessions, repository, id, declared) == Ok::<
                DigestModel,
                RegistryError,
            >(digest@)
            &&& sessions_after == retire(sessions, repository, id)
            &&& blobs_after == blobs.insert(
                digest@,
                staged_bytes(sessions, repository, id)->Ok_0,
            )
            &&& manifests_after == manifests.record(repository, digest@)
        },
        Err(e) => {
            &&& finish_outcome(sessions, repository, id, declared) == Err::<
                DigestModel,
                RegistryError,
            >(e)
            &&& sessions_after == sessions
            &&& blobs_after == blobs
            &&& manifests_after == manifests
        },
    }
}

/// What `finish_with_tail` does and answers: what `finish` does once the
/// tail is appended. On failure nothing changed, and the tail is not kept.
pub open spec fn finished_with_tail(
    sessions: SessionMap,
    blobs: BlobMap,
    manifests: ManifestStoreModel,
    repository: Seq<char>,
    id: Seq<char>,
    tail: Seq<u8>,
    declared: DigestModel,
    done: Result<Digest, RegistryError>,
    sessions_after: SessionMap,
    blobs_after: BlobMap,
    manifests_after: ManifestStoreModel,
) -> bool {
    let written = write_chunk(sessions, repository, id, tail);
    match done {
        Ok(_) => finished(
            written,
            blobs,
            manifests,
            repository,
            id,
            declared,
            done,
            sessions_after,
            blobs_after,
            manifests_after,
        ),
        Err(e) => {
            &&& finish_outcome(written, repository, id, declared) == Err::<
                DigestModel,
                RegistryError,
            >(e)
            &&& sessions_after == sessions
            &&& blobs_after == blobs
            &&& manifests_after == manifests
        },
    }
}

/// What `reclaim` answers.
pub open spec fn reclaim_outcome(
    sessions: SessionMap,
    repository: Seq<char>,
    id: Seq<char>,
) -> Result<(), RegistryError> {
    match staged_bytes(sessions, repository, id) {
        Ok(_) => Ok(()),
        Err(e) => Err(e),
    }
}

/// The sessions after the session was retired.
pub open spec fn retire(sessions: SessionMap, repository: Seq<char>, id: Seq<char>) -> SessionMap {
    sessions.insert((repository, id), SessionModel::Retired)
}

/// One upload session.
struct Session {
    repository: String,
    id: String,
    staged: Vec<u8>,
    retired: bool,
}

spec fn session_keys(entries: Seq<Session>) -> Seq<SessionKey> {
    Seq::new(entries.len(), |i: int| (entries[i].repository@, entries[i].id@))
}

spec fn session_state(entry: Session) -> SessionModel {
    if entry.retired {
        SessionModel::Retired
    } else {
        SessionModel::Open { staged: entry.staged@ }
    }
}

spec fn session_states(entries: Seq<Session>) -> Seq<SessionModel> {
    Seq::new(entries.len(), |i: int| session_state(entries[i]))
}

/// The manager of upload sessions.
pub struct UploadSessionManager {
    sessions: Vec<Session>,
}

impl View for UploadSessionManager {
    type V = SessionMap;

    closed spec fn view(&self) -> SessionMap {
        table(session_keys(self.sessions@), session_states(self.sessions@))
    }
}

impl UploadSessionManager {
    /// No two sessions share repository and id.
    #[verifier::type_invariant]
    spec fn inv(&self) -> bool {
        distinct(session_keys(self.sessions@))
    }

    /// A manager without sessions.
    pub fn new() -> (manager: UploadSessionManager)
        ensures
            manager@ == SessionMap::empty(),
    {
        let sessions: Vec<Session> = Vec::new();
        proof {
            lemma_table_empty::<SessionKey, SessionModel>();
            assert(session_keys(sessions@) =~= Seq::empty());
            assert(session_states(sessions@) =~= Seq::empty());
        }
        UploadSessionManager { sessions }
    }

    /// The index of the session `id` of `repository`, if there is one.
    fn position(&self, repository: &str, id: &str) -> (found: Option<usize>)
        ensures
            match found {
                Some(i) => i < self.sessions@.len() && session_keys(self.sessions@)[i as int] == (
                    repository@,
                    id@,
                ),
                None => !has_key(session_keys(self.sessions@), (repository@, id@)),
            },
    {
        let mut i: usize = 0;
        while i < self.sessions.len()
            invariant
                i <= self.sessions@.len(),
                forall|j: int|
                    0 <= j < i ==> session_keys(self.sessions@)[j] != (repository@, id@),
            decreases self.sessions@.len() - i,
        {
            if same_text(self.sessions[i].repository.as_str(), repository) && same_text(
                self.sessions[i].id.as_str(),
                id,
            ) {
                return Some(i);
            }
            i = i + 1;
        }
        None
    }

    /// Opens a session of `repository` under `token` and returns its id, the
    /// token. Fails with `IOFailure`, changing nothing, if the repository
    /// already has a session under that token.
    pub fn open(&mut self, repository: &str, token: String) -> (done: Result<String, RegistryError>)
        ensures
            final(self)@ == open_session(old(self)@, repository@, token@),
            match done {
                Ok(id) => open_outcome(old(self)@, repository@, token@) == Ok::<
                    Seq<char>,
                    RegistryError,
                >(id@),
                Err(e) => open_outcome(old(self)@, repository@, token@) == Err::<
                    Seq<char>,
                    RegistryError,
                >(e),
            },
    {
        proof {
            use_type_invariant(&*self);
        }
        match self.position(repository, token.as_str()) {
            Some(i) => {
                proof {
                    lemma_table_at(
                        session_keys(self.sessions@),
                        session_states(self.sessions@),
                        i as int,
                    );
                }
                Err(RegistryError::IOFailure)
            },
            None => {
                let id = token.clone();
                // The list leaves the manager while it changes and comes
                // back whole: the manager is in order at every moment.
                let mut entries: Vec<Session> = Vec::new();
                proof {
                    assert(session_keys(entries@) =~= Seq::empty());
                }
                std::mem::swap(&mut self.sessions, &mut entries);
                let ghost keys = session_keys(entries@);
                let ghost states = session_states(entries@);
                entries.push(
                    Session {
                        repository: repository.to_owned(),
                        id: token,
                        staged: Vec::new(),
                        retired: false,
                    },
                );
                proof {
                    let fresh = SessionModel::Open { staged: Seq::<u8>::empty() };
                    lemma_table_push(keys, states, (repository@, id@), fresh);
                    assert(session_keys(entries@) =~= keys.push((repository@, id@)));
                    assert(session_states(entries@) =~= states.push(fresh));
                }
                self.sessions = entries;
                Ok(id)
            },
        }
    }

    /// Starts an upload to `repository` under a newly generated id and
    /// returns the id. It succeeds unless the generated id is already in use
    /// in the repository, which cannot be where no session of the repository
    /// goes by an id of that form; it then fails with `IOFailure`, changing
    /// nothing.
    pub fn start(&mut self, repository: &str) -> (done: Result<String, RegistryError>)
        ensures
            match done {
                Ok(id) => {
                    &&& is_token(id@)
                    &&& !old(self)@.dom().contains((repository@, id@))
                    &&& final(self)@ == open_session(old(self)@, repository@, id@)
                },
                Err(e) => {
                    &&& e == RegistryError::IOFailure
                    &&& token_in_use(old(self)@, repository@)
                    &&& final(self)@ == old(self)@
                },
            },
    {
        let token = fresh_token();
        let ghost drawn = token@;
        let done = self.open(repository, token);
        proof {
            if done is Err {
                assert(is_token(drawn) && old(self)@.dom().contains((repository@, drawn)));
            }
        }
        done
    }

    /// The number of bytes staged in an open session.
    pub fn offset(&self, repository: &str, id: &str) -> (found: Result<usize, RegistryError>)
        ensures
            match found {
                Ok(n) => staged_bytes(self@, repository@, id@) is Ok && n == staged_bytes(
                    self@,
                    repository@,
                    id@,
                )->Ok_0.len(),
                Err(e) => staged_bytes(self@, repository@, id@) == Err::<Seq<u8>, RegistryError>(e),
            },
    {
        match self.staged(repository, id) {
            Ok(bytes) => Ok(bytes.len()),
            Err(e) => Err(e),
        }
    }

    /// The bytes staged in an open session.
    pub fn staged(&self, repository: &str, id: &str) -> (found: Result<&Vec<u8>, RegistryError>)
        ensures
            match found {
                Ok(bytes) => staged_bytes(self@, repository@, id@) == Ok::<Seq<u8>, RegistryError>(
                    bytes@,
                ),
                Err(e) => staged_bytes(self@, repository@, id@) == Err::<Seq<u8>, RegistryError>(e),
            },
    {
        proof {
            use_type_invariant(self);
        }
        match self.position(repository, id) {
            Some(i) => {
                proof {
                    lemma_table_at(
                        session_keys(self.sessions@),
                        session_states(self.sessions@),
                        i as int,
                    );
                }
                if self.sessions[i].retired {
                    Err(RegistryError::SessionExpired)
                } else {
                    Ok(&self.sessions[i].staged)
                }
            },
            None => Err(RegistryError::SessionNotFound),
        }
    }

    /// Appends `chunk` to the staged bytes of a session and returns the new
    /// offset. Fails with `SessionNotFound` for an unknown session and with
    /// `SessionExpired` for a retired one, changing nothing.
    pub fn write(&mut self, repository: &str, id: &str, chunk: &[u8]) -> (done: Result<
        usize,
        RegistryError,
    >)
        ensures
            final(self)@ == write_chunk(old(self)@, repository@, id@, chunk@),
            match done {
                Ok(offset) => write_outcome(old(self)@, repository@, id@, chunk@) == Ok::<
                    nat,
                    RegistryError,
                >(offset as nat),
                Err(e) => write_outcome(old(self)@, repository@, id@, chunk@) == Err::<
                    nat,
                    RegistryError,
                >(e),
            },
    {
        proof {
            use_type_invariant(&*self);
        }
        match self.position(repository, id) {
            Some(i) => {
                proof {
                    lemma_table_at(
                        session_keys(self.sessions@),
                        session_states(self.sessions@),
                        i as int,
                    );
                }
                if self.sessions[i].retired {
                    return Err(RegistryError::SessionExpired);
                }
                Ok(self.append_at(i, chunk))
            },
            None => Err(RegistryError::SessionNotFound),
        }
    }

    /// Appends `chunk` to what the open session at index `i` has staged and
    /// returns the new offset.
    fn append_at(&mut self, i: usize, chunk: &[u8]) -> (offset: usize)
        requires
            i < old(self).sessions@.len(),
            !old(self).sessions@[i as int].retired,
        ensures
            offset == old(self).sessions@[i as int].staged@.len() + chunk@.len(),
            final(self).sessions@.len() == old(self).sessions@.len(),
            session_keys(final(self).sessions@) == session_keys(old(self).sessions@),
            !final(self).sessions@[i as int].retired,
            final(self).sessions@[i as int].staged@ == old(self).sessions@[i as int].staged@
                + chunk@,
            final(self)@ == old(self)@.insert(
                session_keys(old(self).sessions@)[i as int],
                SessionModel::Open { staged: old(self).sessions@[i as int].staged@ + chunk@ },
            ),
    {
        proof {
            use_type_invariant(&*self);
        }
        let mut entries: Vec<Session> = Vec::new();
        proof {
            assert(session_keys(entries@) =~= Seq::empty());
        }
        std::mem::swap(&mut self.sessions, &mut entries);
        let ghost keys = session_keys(entries@);
        let ghost states = session_states(entries@);
        let ghost before = entries@[i as int].staged@;
        let mut staged: Vec<u8> = Vec::new();
        std::mem::swap(&mut entries[i].staged, &mut staged);
        let mut k: usize = 0;
        while k < chunk.len()
            invariant
                k <= chunk@.len(),
                staged@ == before + chunk@.subrange(0, k as int),
            decreases chunk@.len() - k,
        {
            staged.push(chunk[k]);
            assert(staged@ =~= before + chunk@.subrange(0, k as int + 1));
            k = k + 1;
        }
        assert(chunk@.subrange(0, k as int) =~= chunk@);
        let offset = staged.len();
        std::mem::swap(&mut entries[i].staged, &mut staged);
        proof {
            let after = SessionModel::Open { staged: before + chunk@ };
            lemma_table_update(keys, states, i as int, after);
            assert(session_keys(entries@) =~= keys);
            assert(session_states(entries@) =~= states.update(i as int, after));
        }
        self.sessions = entries;
        offset
    }

    /// Cuts what the open session at index `i` has staged back to its first
    /// `kept` bytes.
    fn truncate_at(&mut self, i: usize, kept: usize)
        requires
            i < old(self).sessions@.len(),
            !old(self).sessions@[i as int].retired,
            kept <= old(self).sessions@[i as int].staged@.len(),
        ensures
            final(self)@ == old(self)@.insert(
                session_keys(old(self).sessions@)[i as int],
                SessionModel::Open {
                    staged: old(self).sessions@[i as int].staged@.subrange(0, kept as int),
                },
            ),
    {
        proof {
            use_type_invariant(&*self);
        }
        let mut entries: Vec<Session> = Vec::new();
        proof {
            assert(session_keys(entries@) =~= Seq::empty());
        }
        std::mem::swap(&mut self.sessions, &mut entries);
        let ghost keys = session_keys(entries@);
        let ghost states = session_states(entries@);
        let ghost before = entries@[i as int].staged@;
        entries[i].staged.truncate(kept);
        proof {
            let after = SessionModel::Open { staged: before.subrange(0, kept as int) };
            lemma_table_update(keys, states, i as int, after);
            assert(session_keys(entries@) =~= keys);
            assert(session_states(entries@) =~= states.update(i as int, after));
        }
        self.sessions = entries;
    }

    /// Retires the session at index `i` and hands out what it had staged.
    fn retire_at(&mut self, i: usize) -> (staged: Vec<u8>)
        requires
            i < old(self).sessions@.len(),
            !old(self).sessions@[i as int].retired,
        ensures
            staged@ == old(self).sessions@[i as int].staged@,
            final(self)@ == old(self)@.insert(
                session_keys(old(self).sessions@)[i as int],
                SessionModel::Retired,
            ),
    {
        proof {
            use_type_invariant(&*self);
        }
        let mut entries: Vec<Session> = Vec::new();
        proof {
            assert(session_keys(entries@) =~= Seq::empty());
        }
        std::mem::swap(&mut self.sessions, &mut entries);
        let ghost keys = session_keys(entries@);
        let ghost states = session_states(entries@);
        let mut staged: Vec<u8> = Vec::new();
        std::mem::swap(&mut entries[i].staged, &mut staged);
        entries[i].retired = true;
        proof {
            lemma_table_update(keys, states, i as int, SessionModel::Retired);
            assert(session_keys(entries@) =~= keys);
            assert(session_states(entries@) =~= states.update(i as int, SessionModel::Retired));
        }
        self.sessions = entries;
        staged
    }

    /// Gives up an open session: its staged bytes are dropped and the session
    /// is retired. Fails with `SessionNotFound` for an unknown session and
    /// with `SessionExpired` for a retired one, changing nothing.
    pub fn reclaim(&mut self, repository: &str, id: &str) -> (done: Result<(), RegistryError>)
        ensures
            done == reclaim_outcome(old(self)@, repository@, id@),
            final(self)@ == if done is Ok {
                retire(old(self)@, repository@, id@)
            } else {
                old(self)@
            },
    {
        proof {
            use_type_invariant(&*self);
        }
        match self.position(repository, id) {
            Some(i) => {
                proof {
                    lemma_table_at(
                        session_keys(self.sessions@),
                        session_states(self.sessions@),
                        i as int,
                    );
                }
                if self.sessions[i].retired {
                    return Err(RegistryError::SessionExpired);
                }
                let _ = self.retire_at(i);
                Ok(())
            },
            None => Err(RegistryError::SessionNotFound),
        }
    }

    /// Finishes an upload: if the staged bytes hash to `declared`, they are
    /// committed to `blobs` under that digest, `repository` is pointed at it
    /// in `manifests`, the session is retired, and the digest is returned.
    ///
    /// Fails with `DigestMismatch` if they hash to another digest, with
    /// `SessionNotFound` for an unknown session and with `SessionExpired` for
    /// a retired one. A failure changes nothing: the staged bytes stay where
    /// they are, so that the upload can be finished again.
    pub fn finish(
        &mut self,
        repository: &str,
        id: &str,
        declared: &Digest,
        blobs: &mut BlobStore,
        manifests: &mut ManifestStore,
    ) -> (done: Result<Digest, RegistryError>)
        ensures
            finished(
                old(self)@,
                old(blobs)@,
                old(manifests)@,
                repository@,
                id@,
                declared@,
                done,
                final(self)@,
                final(blobs)@,
                final(manifests)@,
            ),
    {
        let computed = match self.staged(repository, id) {
            Ok(bytes) => compute(bytes.as_slice()),
            Err(e) => {
                return Err(e);
            },
        };
        self.commit(repository, id, computed, declared, blobs, manifests)
    }

    /// Finishes an upload that ends in `tail`: the tail is appended to the
    /// staged bytes and the whole is finished as `finish` does. A failure
    /// changes nothing: the tail is taken off again.
    pub fn finish_with_tail(
        &mut self,
        repository: &str,
        id: &str,
        tail: &[u8],
        declared: &Digest,
        blobs: &mut BlobStore,
        manifests: &mut ManifestStore,
    ) -> (done: Result<Digest, RegistryError>)
        ensures
            finished_with_tail(
                old(self)@,
                old(blobs)@,
                old(manifests)@,
                repository@,
                id@,
                tail@,
                declared@,
                done,
                final(self)@,
                final(blobs)@,
                final(manifests)@,
            ),
    {
        proof {
            use_type_invariant(&*self);
        }
        let i = match self.position(repository, id) {
            Some(i) => i,
            None => {
                return Err(RegistryError::SessionNotFound);
            },
        };
        proof {
            lemma_table_at(session_keys(self.sessions@), session_states(self.sessions@), i as int);
        }
        if self.sessions[i].retired {
            return Err(RegistryError::SessionExpired);
        }
        let ghost before = self@;
        let ghost staged = self.sessions@[i as int].staged@;
        let kept = self.sessions[i].staged.len();
        let _ = self.append_at(i, tail);
        let computed = compute(self.sessions[i].staged.as_slice());
        if !computed.same_as(declared) {
            self.truncate_at(i, kept);
            proof {
                assert((staged + tail@).subrange(0, kept as int) =~= staged);
                assert(self@ =~= before);
            }
            return Err(RegistryError::DigestMismatch);
        }
        self.commit(repository, id, computed, declared, blobs, manifests)
    }

    /// Finishes an upload whose staged bytes were hashed to `computed`: what
    /// `finish` does once it has the hash.
    pub fn commit(
        &mut self,
        repository: &str,
        id: &str,
        computed: Digest,
        declared: &Digest,
        blobs: &mut BlobStore,
        manifests: &mut ManifestStore,
    ) -> (done: Result<Digest, RegistryError>)
        requires
            staged_bytes(old(self)@, repository@, id@) matches Ok(staged) ==> computed@
                == digest_of(staged),
        ensures
            finished(
                old(self)@,
                old(blobs)@,
                old(manifests)@,
                repository@,
                id@,
                declared@,
                done,
                final(self)@,
                final(blobs)@,
                final(manifests)@,
            ),
    {
        proof {
            use_type_invariant(&*self);
        }
        match self.position(repository, id) {
            Some(i) => {
                proof {
                    lemma_table_at(
                        session_keys(self.sessions@),
                        session_states(self.sessions@),
                        i as int,
                    );
                }
                if self.sessions[i].retired {
                    return Err(RegistryError::SessionExpired);
                }
                if !computed.same_as(declared) {
                    return Err(RegistryError::DigestMismatch);
                }
                let bytes = self.retire_at(i);
                blobs.insert_hashed(computed.clone(), bytes);
                manifests.record(repository, computed.clone());
                Ok(computed)
            },
            None => Err(RegistryError::SessionNotFound),
        }
    }
}

} // verus!
