//! What holds of the registry whatever is asked of it, stated over its model
//! and proved from the definitions that the operations are held to.

use vstd::prelude::*;
use crate::blob_store::{blob_get, blob_put, blob_put_accepts, content_addressed, BlobMap};
use crate::digest::{digest_of, DigestModel};
use crate::error::RegistryError;
use crate::manifest::ManifestModel;
use crate::manifest_store::ManifestStoreModel;
use crate::registry::RegistryModel;
use crate::session::{finish_outcome, staged_bytes};

verus! {

/// One operation that changes a registry.
pub enum Step {
    Open { repository: Seq<char>, token: Seq<char> },
    Write { repository: Seq<char>, id: Seq<char>, chunk: Seq<u8> },
    Finish { repository: Seq<char>, id: Seq<char>, declared: DigestModel },
    FinishWithTail { repository: Seq<char>, id: Seq<char>, tail: Seq<u8>, declared: DigestModel },
    Reclaim { repository: Seq<char>, id: Seq<char> },
    Put { key: DigestModel, bytes: Seq<u8> },
    PutLatest { repository: Seq<char>, key: DigestModel, bytes: Seq<u8> },
    PutManifest { repository: Seq<char>, incoming: ManifestModel },
}

impl Step {
    /// Whether the step addresses the session `id` of `repository`.
    pub open spec fn addresses(self, repository: Seq<char>, id: Seq<char>) -> bool {
        match self {
            Step::Open { repository: r, token } => r == repository && token == id,
            Step::Write { repository: r, id: i, chunk } => r == repository && i == id,
            Step::Finish { repository: r, id: i, declared } => r == repository && i == id,
            Step::FinishWithTail { repository: r, id: i, tail, declared } => r == repository && i
                == id,
            Step::Reclaim { repository: r, id: i } => r == repository && i == id,
            Step::Put { key, bytes } => false,
            Step::PutLatest { repository: r, key, bytes } => false,
            Step::PutManifest { repository: r, incoming } => false,
        }
    }

    /// Whether the step, taken in `state`, commits a blob under `digest`.
    pub open spec fn commits(self, state: RegistryModel, digest: DigestModel) -> bool {
        match self {
            Step::Finish { repository, id, declared } => declared == digest && finish_outcome(
                state.sessions,
                repository,
                id,
                declared,
            ) is Ok,
            Step::FinishWithTail { repository, id, tail, declared } => declared == digest
                && finish_outcome(
                state.write(repository, id, tail).sessions,
                repository,
                id,
                declared,
            ) is Ok,
            Step::Put { key, bytes } => key == digest && blob_put_accepts(key, bytes),
            Step::PutLatest { repository, key, bytes } => key == digest && blob_put_accepts(
                key,
                bytes,
            ),
            _ => false,
        }
    }
}

impl RegistryModel {
    /// The state after one step.
    pub open spec fn step(self, step: Step) -> RegistryModel {
        match step {
            Step::Open { repository, token } => self.open(repository, token),
            Step::Write { repository, id, chunk } => self.write(repository, id, chunk),
            Step::Finish { repository, id, declared } => self.finish(repository, id, declared),
            Step::FinishWithTail { repository, id, tail, declared } => self.finish_with_tail(
                repository,
                id,
                tail,
                declared,
            ),
            Step::Reclaim { repository, id } => self.reclaim(repository, id),
            Step::Put { key, bytes } => self.put(key, bytes),
            Step::PutLatest { repository, key, bytes } => self.put_latest(repository, key, bytes),
            Step::PutManifest { repository, incoming } => self.put_manifest(repository, incoming),
        }
    }

    /// The state after a run of steps.
    pub open spec fn run(self, steps: Seq<Step>) -> RegistryModel
        decreases steps.len(),
    {
        if steps.len() == 0 {
            self
        } else {
            self.run(steps.drop_last()).step(steps.last())
        }
    }
}

/// Round trip: what was put under its own digest is what `get` returns for
/// that digest, exactly.
pub proof fn lemma_put_then_get(blobs: BlobMap, bytes: Seq<u8>)
    ensures
        blob_put_accepts(digest_of(bytes), bytes),
        blob_get(blob_put(blobs, digest_of(bytes), bytes), digest_of(bytes)) == Ok::<
            Seq<u8>,
            RegistryError,
        >(bytes),
{
}

/// Putting the same content again changes nothing.
pub proof fn lemma_put_is_idempotent(blobs: BlobMap, key: DigestModel, bytes: Seq<u8>)
    ensures
        blob_put(blob_put(blobs, key, bytes), key, bytes) == blob_put(blobs, key, bytes),
{
    assert(blob_put(blob_put(blobs, key, bytes), key, bytes) =~= blob_put(blobs, key, bytes));
}

/// The store never comes to hold content under a key that is not its digest.
pub proof fn lemma_put_keeps_content_addressed(blobs: BlobMap, key: DigestModel, bytes: Seq<u8>)
    requires
        content_addressed(blobs),
    ensures
        content_addressed(blob_put(blobs, key, bytes)),
{
}

/// Digest integrity: finishing an upload under a digest other than that of
/// the staged bytes fails with `DigestMismatch` and leaves the registry as it
/// was; a digest without a blob is still without one.
pub proof fn lemma_mismatch_commits_nothing(
    state: RegistryModel,
    repository: Seq<char>,
    id: Seq<char>,
    staged: Seq<u8>,
    declared: DigestModel,
)
    requires
        staged_bytes(state.sessions, repository, id) == Ok::<Seq<u8>, RegistryError>(staged),
        declared != digest_of(staged),
    ensures
        finish_outcome(state.sessions, repository, id, declared) == Err::<
            DigestModel,
            RegistryError,
        >(RegistryError::DigestMismatch),
        state.finish(repository, id, declared) == state,
        !state.blobs.dom().contains(declared) ==> !state.finish(
            repository,
            id,
            declared,
        ).blobs.dom().contains(declared),
{
}

/// Resumability: chunks written one after the other to a session, then
/// finished under the digest of the whole, commit exactly the staged bytes
/// followed by the chunks in order.
pub proof fn lemma_chunks_commit_in_order(
    state: RegistryModel,
    repository: Seq<char>,
    id: Seq<char>,
    staged: Seq<u8>,
    first: Seq<u8>,
    second: Seq<u8>,
)
    requires
        staged_bytes(state.sessions, repository, id) == Ok::<Seq<u8>, RegistryError>(staged),
    ensures
        ({
            let whole = staged + first + second;
            let written = state.write(repository, id, first).write(repository, id, second);
            let after = written.finish(repository, id, digest_of(whole));
            &&& staged_bytes(written.sessions, repository, id) == Ok::<Seq<u8>, RegistryError>(
                whole,
            )
            &&& finish_outcome(written.sessions, repository, id, digest_of(whole)) == Ok::<
                DigestModel,
                RegistryError,
            >(digest_of(whole))
            &&& after.blobs == state.blobs.insert(digest_of(whole), whole)
            &&& blob_get(after.blobs, digest_of(whole)) == Ok::<Seq<u8>, RegistryError>(whole)
            &&& after.manifests.resolve(repository) == Some(digest_of(whole))
        }),
{
}

/// A blob, once committed, stays committed through every step.
pub proof fn lemma_committed_stays(state: RegistryModel, step: Step, digest: DigestModel)
    requires
        state.blobs.dom().contains(digest),
    ensures
        state.step(step).blobs.dom().contains(digest),
{
}

/// A blob keeps its bytes through every step that does not commit under its
/// digest. (A step that does commit under it puts there bytes with that same
/// digest.)
pub proof fn lemma_blob_keeps_bytes(state: RegistryModel, step: Step, digest: DigestModel)
    requires
        state.blobs.dom().contains(digest),
        !step.commits(state, digest),
    ensures
        blob_get(state.step(step).blobs, digest) == blob_get(state.blobs, digest),
{
}

/// A blob, once committed, stays committed through every run of steps.
pub proof fn lemma_committed_stays_for_good(
    state: RegistryModel,
    steps: Seq<Step>,
    digest: DigestModel,
)
    requires
        state.blobs.dom().contains(digest),
    ensures
        state.run(steps).blobs.dom().contains(digest),
    decreases steps.len(),
{
    if steps.len() > 0 {
        lemma_committed_stays_for_good(state, steps.drop_last(), digest);
        lemma_committed_stays(state.run(steps.drop_last()), steps.last(), digest);
    }
}

/// A digest comes to have a blob only in the step that commits it: a
/// successful finish under that digest, or a put that is accepted. Until
/// then no step makes it exist, and that step does.
pub proof fn lemma_exists_from_commit_on(state: RegistryModel, step: Step, digest: DigestModel)
    requires
        !state.blobs.dom().contains(digest),
    ensures
        state.step(step).blobs.dom().contains(digest) <==> step.commits(state, digest),
{
}

/// A successful finish makes the blob exist and be readable at once.
pub proof fn lemma_finish_commits(
    state: RegistryModel,
    repository: Seq<char>,
    id: Seq<char>,
    declared: DigestModel,
)
    requires
        finish_outcome(state.sessions, repository, id, declared) is Ok,
    ensures
        ({
            let after = state.finish(repository, id, declared);
            let staged = staged_bytes(state.sessions, repository, id)->Ok_0;
            &&& declared == digest_of(staged)
            &&& blob_get(after.blobs, declared) == Ok::<Seq<u8>, RegistryError>(staged)
            &&& after.manifests.resolve(repository) == Some(declared)
            &&& staged_bytes(after.sessions, repository, id) == Err::<Seq<u8>, RegistryError>(
                RegistryError::SessionExpired,
            )
        }),
{
}

/// Every step keeps the registry well-formed: blobs stand under the digest
/// of their content, and no repository resolves to a digest without a blob.
pub proof fn lemma_step_keeps_wf(state: RegistryModel, step: Step)
    requires
        state.wf(),
    ensures
        state.step(step).wf(),
{
    let after = state.step(step);
    match step {
        Step::Finish { repository, id, declared } => {
            if finish_outcome(state.sessions, repository, id, declared) is Ok {
                assert forall|name: Seq<char>|
                    after.manifests.index.dom().contains(name) implies after.blobs.dom().contains(
                    #[trigger] after.manifests.index[name],
                ) by {
                    if name != repository {
                        assert(state.blobs.dom().contains(state.manifests.index[name]));
                    }
                }
            }
        },
        Step::FinishWithTail { repository, id, tail, declared } => {
            let written = state.write(repository, id, tail);
            if finish_outcome(written.sessions, repository, id, declared) is Ok {
                assert forall|name: Seq<char>|
                    after.manifests.index.dom().contains(name) implies after.blobs.dom().contains(
                    #[trigger] after.manifests.index[name],
                ) by {
                    if name != repository {
                        assert(state.blobs.dom().contains(state.manifests.index[name]));
                    }
                }
            }
        },
        Step::PutLatest { repository, key, bytes } => {
            if blob_put_accepts(key, bytes) {
                assert forall|name: Seq<char>|
                    after.manifests.index.dom().contains(name) implies after.blobs.dom().contains(
                    #[trigger] after.manifests.index[name],
                ) by {
                    if name != repository {
                        assert(state.blobs.dom().contains(state.manifests.index[name]));
                    }
                }
            }
        },
        Step::Put { key, bytes } => {
            assert forall|name: Seq<char>|
                after.manifests.index.dom().contains(name) implies after.blobs.dom().contains(
                #[trigger] after.manifests.index[name],
            ) by {
                assert(state.blobs.dom().contains(state.manifests.index[name]));
            }
        },
        Step::PutManifest { repository, incoming } => {
            assert(after.manifests.index == state.manifests.index);
        },
        _ => {},
    }
}

/// Every run of steps from a well-formed registry ends in a well-formed one.
pub proof fn lemma_run_keeps_wf(state: RegistryModel, steps: Seq<Step>)
    requires
        state.wf(),
    ensures
        state.run(steps).wf(),
    decreases steps.len(),
{
    if steps.len() > 0 {
        lemma_run_keeps_wf(state, steps.drop_last());
        lemma_step_keeps_wf(state.run(steps.drop_last()), steps.last());
    }
}

/// Whatever is asked of a new registry, in whatever order, it ends up
/// well-formed.
pub proof fn lemma_reachable_is_wf(steps: Seq<Step>)
    ensures
        RegistryModel::empty().run(steps).wf(),
{
    lemma_run_keeps_wf(RegistryModel::empty(), steps);
}

/// Merge monotonicity: merging keeps every stored layer in its place, adds
/// only the incoming layers beyond them, and adds nothing when the incoming
/// manifest has no more layers than the stored one.
pub proof fn lemma_merge_keeps_layers(stored: ManifestModel, incoming: ManifestModel)
    ensures
        stored.layers.is_prefix_of(stored.merge(incoming).layers),
        incoming.layers.len() <= stored.layers.len() ==> stored.merge(incoming).layers
            == stored.layers,
        incoming.layers.len() > stored.layers.len() ==> stored.merge(incoming).layers.len()
            == incoming.layers.len(),
        forall|i: int|
            stored.layers.len() <= i < incoming.layers.len() ==> stored.merge(incoming).layers[i]
                == incoming.layers[i],
        stored.layers.is_prefix_of(incoming.layers) ==> stored.merge(incoming).layers
            == incoming.layers,
{
    let merged = stored.merge(incoming).layers;
    if stored.layers.is_prefix_of(incoming.layers) {
        assert(merged =~= incoming.layers);
    }
}

/// A manifest that extends the stored layers and then one that has no more
/// layers than are stored: the layers are those of the first.
pub proof fn lemma_merge_longer_then_shorter(
    stored: ManifestModel,
    longer: ManifestModel,
    shorter: ManifestModel,
)
    requires
        stored.layers.is_prefix_of(longer.layers),
        shorter.layers.len() <= longer.layers.len(),
    ensures
        stored.merge(longer).merge(shorter).layers == longer.layers,
{
    lemma_merge_keeps_layers(stored, longer);
}

/// Config gating: an incoming config that declares no size leaves the
/// stored config as it is, and one that declares a size replaces it.
pub proof fn lemma_merge_gates_config(stored: ManifestModel, incoming: ManifestModel)
    ensures
        incoming.config.size is None ==> stored.merge(incoming).config == stored.config,
        incoming.config.size is Some ==> stored.merge(incoming).config == incoming.config,
{
}

/// Config gating in the store: writing a manifest whose config declares no
/// size over a stored manifest leaves the stored config as it is.
pub proof fn lemma_put_gates_config(
    store: ManifestStoreModel,
    repository: Seq<char>,
    incoming: ManifestModel,
)
    requires
        store.manifests.dom().contains(repository),
        incoming.config.size is None,
    ensures
        store.put(repository, incoming).manifests.dom().contains(repository),
        store.put(repository, incoming).manifests[repository].config
            == store.manifests[repository].config,
{
}

/// Session isolation: a step that does not address a session leaves that
/// session as it is.
pub proof fn lemma_step_leaves_other_sessions(
    state: RegistryModel,
    step: Step,
    repository: Seq<char>,
    id: Seq<char>,
)
    requires
        !step.addresses(repository, id),
    ensures
        state.step(step).sessions.dom().contains((repository, id))
            == state.sessions.dom().contains((repository, id)),
        state.sessions.dom().contains((repository, id)) ==> state.step(step).sessions[(
            repository,
            id,
        )] == state.sessions[(repository, id)],
        staged_bytes(state.step(step).sessions, repository, id) == staged_bytes(
            state.sessions,
            repository,
            id,
        ),
{
}

/// Session isolation: two sessions of one repository, written to in turn and
/// then finished, each commit their own bytes under their own digest.
pub proof fn lemma_two_sessions_commit_apart(
    state: RegistryModel,
    repository: Seq<char>,
    a: Seq<char>,
    b: Seq<char>,
    for_a: Seq<u8>,
    for_b: Seq<u8>,
    more_for_a: Seq<u8>,
)
    requires
        a != b,
        staged_bytes(state.sessions, repository, a) == Ok::<Seq<u8>, RegistryError>(Seq::empty()),
        staged_bytes(state.sessions, repository, b) == Ok::<Seq<u8>, RegistryError>(Seq::empty()),
    ensures
        ({
            let whole_a = for_a + more_for_a;
            let written = state.write(repository, a, for_a).write(repository, b, for_b).write(
                repository,
                a,
                more_for_a,
            );
            let after = written.finish(repository, a, digest_of(whole_a)).finish(
                repository,
                b,
                digest_of(for_b),
            );
            &&& staged_bytes(written.sessions, repository, a) == Ok::<Seq<u8>, RegistryError>(
                whole_a,
            )
            &&& staged_bytes(written.sessions, repository, b) == Ok::<Seq<u8>, RegistryError>(
                for_b,
            )
            &&& blob_get(after.blobs, digest_of(for_b)) == Ok::<Seq<u8>, RegistryError>(for_b)
            &&& digest_of(whole_a) != digest_of(for_b) ==> blob_get(
                after.blobs,
                digest_of(whole_a),
            ) == Ok::<Seq<u8>, RegistryError>(whole_a)
        }),
{
    let whole_a = for_a + more_for_a;
    assert(Seq::<u8>::empty() + for_a =~= for_a);
    assert(Seq::<u8>::empty() + for_b =~= for_b);
}

} // verus!
