//! The blob store: immutable byte strings, each kept under the digest of its
//! own content.

use vstd::prelude::*;
use crate::digest::{compute, digest_of, Digest, DigestModel};
use crate::error::RegistryError;
use crate::table::{
    distinct, has_key, lemma_table_at, lemma_table_empty, lemma_table_push, lemma_table_update,
    table,
};

verus! {

/// Model of the store: the content kept under each digest.
pub type BlobMap = Map<DigestModel, Seq<u8>>;

/// Whether every key of `blobs` is the digest of the content under it.
pub open spec fn content_addressed(blobs: BlobMap) -> bool {
    forall|d: DigestModel| #[trigger] blobs.dom().contains(d) ==> d == digest_of(blobs[d])
}

/// What `get` answers for `key`.
pub open spec fn blob_get(blobs: BlobMap, key: DigestModel) -> Result<Seq<u8>, RegistryError> {
    if blobs.dom().contains(key) {
        Ok(blobs[key])
    } else {
        Err(RegistryError::NotFound)
    }
}

/// Whether `put` accepts `bytes` under `key`: only under their own digest.
pub open spec fn blob_put_accepts(key: DigestModel, bytes: Seq<u8>) -> bool {
    key == digest_of(bytes)
}

/// The store after `put`: the content stands under its key if it was
/// accepted, and nothing changed if it was not.
pub open spec fn blob_put(blobs: BlobMap, key: DigestModel, bytes: Seq<u8>) -> BlobMap {
    if blob_put_accepts(key, bytes) {
        blobs.insert(key, bytes)
    } else {
        blobs
    }
}

/// One stored blob.
struct Blob {
    digest: Digest,
    bytes: Vec<u8>,
}

/// A content-addressable store of blobs.
pub struct BlobStore {
    blobs: Vec<Blob>,
}

/// The digests of `blobs`, in order.
spec fn keys_of(blobs: Seq<Blob>) -> Seq<DigestModel> {
    Seq::new(blobs.len(), |i: int| blobs[i].digest@)
}

/// The contents of `blobs`, in order.
spec fn contents_of(blobs: Seq<Blob>) -> Seq<Seq<u8>> {
    Seq::new(blobs.len(), |i: int| blobs[i].bytes@)
}

/// No digest is stored twice, and each blob hashes to its key.
spec fn well_kept(blobs: Seq<Blob>) -> bool {
    &&& distinct(keys_of(blobs))
    &&& forall|i: int|
        0 <= i < blobs.len() ==> (#[trigger] blobs[i]).digest@ == digest_of(blobs[i].bytes@)
}

/// The map of a well-kept list of blobs is content-addressed.
proof fn lemma_well_kept_is_content_addressed(blobs: Seq<Blob>)
    requires
        well_kept(blobs),
    ensures
        content_addressed(table(keys_of(blobs), contents_of(blobs))),
{
    let keys = keys_of(blobs);
    let m = table(keys, contents_of(blobs));
    assert forall|d: DigestModel| #[trigger] m.dom().contains(d) implies d == digest_of(m[d]) by {
        let i = choose|i: int| 0 <= i < keys.len() && keys[i] == d;
        lemma_table_at(keys, contents_of(blobs), i);
        assert(blobs[i].digest@ == digest_of(blobs[i].bytes@));
    }
}

impl View for BlobStore {
    type V = BlobMap;

    closed spec fn view(&self) -> BlobMap {
        table(keys_of(self.blobs@), contents_of(self.blobs@))
    }
}

impl BlobStore {
    /// What holds of every store: no digest is stored twice, and each blob
    /// hashes to its key.
    #[verifier::type_invariant]
    pub closed spec fn wf(&self) -> bool {
        well_kept(self.blobs@)
    }

    /// The store never holds content under a key that is not its digest.
    pub proof fn lemma_content_addressed(&self)
        requires
            self.wf(),
        ensures
            content_addressed(self@),
    {
        lemma_well_kept_is_content_addressed(self.blobs@);
    }

    /// An empty store.
    pub fn new() -> (store: BlobStore)
        ensures
            store@ == BlobMap::empty(),
    {
        let blobs: Vec<Blob> = Vec::new();
        proof {
            lemma_table_empty::<DigestModel, Seq<u8>>();
            assert(keys_of(blobs@) =~= Seq::empty());
            assert(contents_of(blobs@) =~= Seq::empty());
        }
        BlobStore { blobs }
    }

    /// The index of the blob stored under `key`, if there is one.
    fn position(&self, key: &Digest) -> (found: Option<usize>)
        ensures
            match found {
                Some(i) => i < self.blobs@.len() && keys_of(self.blobs@)[i as int] == key@,
                None => !has_key(keys_of(self.blobs@), key@),
            },
    {
        let mut i: usize = 0;
        while i < self.blobs.len()
            invariant
                i <= self.blobs@.len(),
                forall|j: int| 0 <= j < i ==> keys_of(self.blobs@)[j] != key@,
            decreases self.blobs@.len() - i,
        {
            if self.blobs[i].digest.same_as(key) {
                return Some(i);
            }
            i = i + 1;
        }
        None
    }

    /// Whether a blob is stored under `key`.
    pub fn contains(&self, key: &Digest) -> (found: bool)
        ensures
            found == self@.dom().contains(key@),
            content_addressed(self@),
    {
        proof {
            use_type_invariant(self);
            lemma_well_kept_is_content_addressed(self.blobs@);
        }
        match self.position(key) {
            Some(i) => {
                proof {
                    lemma_table_at(keys_of(self.blobs@), contents_of(self.blobs@), i as int);
                }
                true
            },
            None => false,
        }
    }

    /// The content stored under `key`.
    pub fn get(&self, key: &Digest) -> (found: Result<&Vec<u8>, RegistryError>)
        ensures
            match found {
                Ok(bytes) => blob_get(self@, key@) == Ok::<Seq<u8>, RegistryError>(bytes@),
                Err(e) => blob_get(self@, key@) == Err::<Seq<u8>, RegistryError>(e),
            },
            content_addressed(self@),
    {
        proof {
            use_type_invariant(self);
            lemma_well_kept_is_content_addressed(self.blobs@);
        }
        match self.position(key) {
            Some(i) => {
                proof {
                    lemma_table_at(keys_of(self.blobs@), contents_of(self.blobs@), i as int);
                }
                Ok(&self.blobs[i].bytes)
            },
            None => Err(RegistryError::NotFound),
        }
    }

    /// Stores `bytes` under `key` if `key` is their digest, and refuses them
    /// with `DigestMismatch` otherwise. Storing the same content again
    /// changes nothing.
    pub fn put(&mut self, key: &Digest, bytes: Vec<u8>) -> (done: Result<(), RegistryError>)
        ensures
            final(self)@ == blob_put(old(self)@, key@, bytes@),
            done == if blob_put_accepts(key@, bytes@) {
                Ok::<(), RegistryError>(())
            } else {
                Err::<(), RegistryError>(RegistryError::DigestMismatch)
            },
            content_addressed(final(self)@),
    {
        proof {
            use_type_invariant(&*self);
            lemma_well_kept_is_content_addressed(self.blobs@);
        }
        let computed = compute(bytes.as_slice());
        if !computed.same_as(key) {
            return Err(RegistryError::DigestMismatch);
        }
        self.insert_hashed(computed, bytes);
        Ok(())
    }

    /// Stores `bytes` under `key`, their digest.
    pub fn insert_hashed(&mut self, key: Digest, bytes: Vec<u8>)
        requires
            key@ == digest_of(bytes@),
        ensures
            final(self)@ == old(self)@.insert(key@, bytes@),
            content_addressed(final(self)@),
    {
        proof {
            use_type_invariant(&*self);
        }
        let found = self.position(&key);
        // The list leaves the store while it changes and comes back whole:
        // the store is in order at every moment.
        let mut blobs: Vec<Blob> = Vec::new();
        proof {
            assert(keys_of(blobs@) =~= Seq::empty());
        }
        std::mem::swap(&mut self.blobs, &mut blobs);
        let ghost before = blobs@;
        let ghost keys = keys_of(before);
        let ghost contents = contents_of(before);
        match found {
            Some(i) => {
                blobs.set(i, Blob { digest: key, bytes });
                proof {
                    lemma_table_update(keys, contents, i as int, bytes@);
                    assert(keys_of(blobs@) =~= keys);
                    assert(contents_of(blobs@) =~= contents.update(i as int, bytes@));
                }
            },
            None => {
                blobs.push(Blob { digest: key, bytes });
                proof {
                    lemma_table_push(keys, contents, key@, bytes@);
                    assert(keys_of(blobs@) =~= keys.push(key@));
                    assert(contents_of(blobs@) =~= contents.push(bytes@));
                }
            },
        }
        proof {
            assert(well_kept(blobs@));
            lemma_well_kept_is_content_addressed(blobs@);
        }
        self.blobs = blobs;
    }
}

} // verus!
