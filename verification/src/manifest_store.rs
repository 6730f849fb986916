//! The manifest store: one manifest per repository, merged on every write,
//! and the index from each repository to the digest of its latest blob.

use vstd::prelude::*;
use crate::digest::{Digest, DigestModel};
use crate::error::RegistryError;
use crate::manifest::{ImageManifest, ManifestModel};
use crate::text::same_text;
use crate::table::{
    distinct, has_key, lemma_table_at, lemma_table_empty, lemma_table_push, lemma_table_update,
    table,
};

verus! {

/// Model of the manifest store.
pub struct ManifestStoreModel {
    /// The manifest of each repository that has one.
    pub manifests: Map<Seq<char>, ManifestModel>,
    /// The digest of the latest committed blob of each repository.
    pub index: Map<Seq<char>, DigestModel>,
}

impl ManifestStoreModel {
    /// The store that holds nothing.
    pub open spec fn empty() -> ManifestStoreModel {
        ManifestStoreModel { manifests: Map::empty(), index: Map::empty() }
    }

    /// What `get` answers for `repository`.
    pub open spec fn get(self, repository: Seq<char>) -> Result<ManifestModel, RegistryError> {
        if self.manifests.dom().contains(repository) {
            Ok(self.manifests[repository])
        } else {
            Err(RegistryError::NotFound)
        }
    }

    /// What `put` answers: an invalid manifest is refused; the first manifest
    /// of a repository is taken as it is; a later one is merged into the
    /// stored one.
    pub open spec fn put_outcome(self, repository: Seq<char>, incoming: ManifestModel) -> Result<
        ManifestModel,
        RegistryError,
    > {
        if !incoming.valid() {
            Err(RegistryError::InvalidManifest)
        } else if self.manifests.dom().contains(repository) {
            Ok(self.manifests[repository].merge(incoming))
        } else {
            Ok(incoming)
        }
    }

    /// The store after `put`: it holds the answer of `put` for `repository`,
    /// and is unchanged if the manifest was refused.
    pub open spec fn put(
        self,
        repository: Seq<char>,
        incoming: ManifestModel,
    ) -> ManifestStoreModel {
        match self.put_outcome(repository, incoming) {
            Ok(merged) => ManifestStoreModel {
                manifests: self.manifests.insert(repository, merged),
                index: self.index,
            },
            Err(_) => self,
        }
    }

    /// The digest that `repository` resolves to, if it has one.
    pub open spec fn resolve(self, repository: Seq<char>) -> Option<DigestModel> {
        if self.index.dom().contains(repository) {
            Some(self.index[repository])
        } else {
            None
        }
    }

    /// The store after `repository` was pointed at `digest`.
    pub open spec fn record(
        self,
        repository: Seq<char>,
        digest: DigestModel,
    ) -> ManifestStoreModel {
        ManifestStoreModel {
            manifests: self.manifests,
            index: self.index.insert(repository, digest),
        }
    }
}

/// The manifest of one repository.
struct ManifestEntry {
    repository: String,
    manifest: ImageManifest,
}

/// The latest digest of one repository.
struct IndexEntry {
    repository: String,
    digest: Digest,
}

spec fn manifest_names(entries: Seq<ManifestEntry>) -> Seq<Seq<char>> {
    Seq::new(entries.len(), |i: int| entries[i].repository@)
}

spec fn manifest_values(entries: Seq<ManifestEntry>) -> Seq<ManifestModel> {
    Seq::new(entries.len(), |i: int| entries[i].manifest@)
}

spec fn index_names(entries: Seq<IndexEntry>) -> Seq<Seq<char>> {
    Seq::new(entries.len(), |i: int| entries[i].repository@)
}

spec fn index_values(entries: Seq<IndexEntry>) -> Seq<DigestModel> {
    Seq::new(entries.len(), |i: int| entries[i].digest@)
}

/// Manifests by repository, with the index of latest digests.
pub struct ManifestStore {
    manifests: Vec<ManifestEntry>,
    index: Vec<IndexEntry>,
}

impl View for ManifestStore {
    type V = ManifestStoreModel;

    closed spec fn view(&self) -> ManifestStoreModel {
        ManifestStoreModel {
            manifests: table(manifest_names(self.manifests@), manifest_values(self.manifests@)),
            index: table(index_names(self.index@), index_values(self.index@)),
        }
    }
}

impl ManifestStore {
    /// No repository occurs twice in either list.
    #[verifier::type_invariant]
    spec fn inv(&self) -> bool {
        distinct(manifest_names(self.manifests@)) && distinct(index_names(self.index@))
    }

    /// An empty store.
    pub fn new() -> (store: ManifestStore)
        ensures
            store@ == ManifestStoreModel::empty(),
    {
        let manifests: Vec<ManifestEntry> = Vec::new();
        let index: Vec<IndexEntry> = Vec::new();
        proof {
            lemma_table_empty::<Seq<char>, ManifestModel>();
            lemma_table_empty::<Seq<char>, DigestModel>();
            assert(manifest_names(manifests@) =~= Seq::empty());
            assert(manifest_values(manifests@) =~= Seq::empty());
            assert(index_names(index@) =~= Seq::empty());
            assert(index_values(index@) =~= Seq::empty());
        }
        ManifestStore { manifests, index }
    }

    /// The index of the manifest of `repository`, if it has one.
    fn manifest_position(&self, repository: &str) -> (found: Option<usize>)
        ensures
            match found {
                Some(i) => i < self.manifests@.len() && manifest_names(self.manifests@)[i as int]
                    == repository@,
                None => !has_key(manifest_names(self.manifests@), repository@),
            },
    {
        let mut i: usize = 0;
        while i < self.manifests.len()
            invariant
                i <= self.manifests@.len(),
                forall|j: int| 0 <= j < i ==> manifest_names(self.manifests@)[j] != repository@,
            decreases self.manifests@.len() - i,
        {
            if same_text(self.manifests[i].repository.as_str(), repository) {
                return Some(i);
            }
            i = i + 1;
        }
        None
    }

    /// The index of the index entry of `repository`, if it has one.
    fn index_position(&self, repository: &str) -> (found: Option<usize>)
        ensures
            match found {
                Some(i) => i < self.index@.len() && index_names(self.index@)[i as int]
                    == repository@,
                None => !has_key(index_names(self.index@), repository@),
            },
    {
        let mut i: usize = 0;
        while i < self.index.len()
            invariant
                i <= self.index@.len(),
                forall|j: int| 0 <= j < i ==> index_names(self.index@)[j] != repository@,
            decreases self.index@.len() - i,
        {
            if same_text(self.index[i].repository.as_str(), repository) {
                return Some(i);
            }
            i = i + 1;
        }
        None
    }

    /// The manifest stored for `repository`.
    pub fn get(&self, repository: &str) -> (found: Result<&ImageManifest, RegistryError>)
        ensures
            match found {
                Ok(manifest) => self@.get(repository@) == Ok::<ManifestModel, RegistryError>(
                    manifest@,
                ),
                Err(e) => self@.get(repository@) == Err::<ManifestModel, RegistryError>(e),
            },
    {
        proof {
            use_type_invariant(self);
        }
        match self.manifest_position(repository) {
            Some(i) => {
                proof {
                    lemma_table_at(
                        manifest_names(self.manifests@),
                        manifest_values(self.manifests@),
                        i as int,
                    );
                }
                Ok(&self.manifests[i].manifest)
            },
            None => Err(RegistryError::NotFound),
        }
    }

    /// Writes `incoming` as the manifest of `repository`: the first manifest
    /// is stored as it is, a later one is merged into the stored one. Returns
    /// the manifest that is stored afterwards. An invalid manifest is refused
    /// with `InvalidManifest` and changes nothing.
    pub fn put(&mut self, repository: &str, incoming: ImageManifest) -> (done: Result<
        ImageManifest,
        RegistryError,
    >)
        ensures
            final(self)@ == old(self)@.put(repository@, incoming@),
            match done {
                Ok(merged) => old(self)@.put_outcome(repository@, incoming@) == Ok::<
                    ManifestModel,
                    RegistryError,
                >(merged@),
                Err(e) => old(self)@.put_outcome(repository@, incoming@) == Err::<
                    ManifestModel,
                    RegistryError,
                >(e),
            },
    {
        proof {
            use_type_invariant(&*self);
        }
        if !incoming.is_valid() {
            return Err(RegistryError::InvalidManifest);
        }
        let found = self.manifest_position(repository);
        // The list leaves the store while it changes and comes back whole:
        // the store is in order at every moment.
        let mut entries: Vec<ManifestEntry> = Vec::new();
        proof {
            assert(manifest_names(entries@) =~= Seq::empty());
        }
        std::mem::swap(&mut self.manifests, &mut entries);
        let ghost names = manifest_names(entries@);
        let ghost values = manifest_values(entries@);
        let stored = match found {
            Some(i) => {
                proof {
                    lemma_table_at(names, values, i as int);
                }
                let merged = entries[i].manifest.merge(incoming);
                let copy = merged.clone();
                let entry = ManifestEntry { repository: repository.to_owned(), manifest: merged };
                entries.set(i, entry);
                proof {
                    lemma_table_update(names, values, i as int, copy@);
                    assert(manifest_names(entries@) =~= names);
                    assert(manifest_values(entries@) =~= values.update(i as int, copy@));
                }
                copy
            },
            None => {
                let copy = incoming.clone();
                let entry = ManifestEntry { repository: repository.to_owned(), manifest: incoming };
                entries.push(entry);
                proof {
                    lemma_table_push(names, values, repository@, copy@);
                    assert(manifest_names(entries@) =~= names.push(repository@));
                    assert(manifest_values(entries@) =~= values.push(copy@));
                }
                copy
            },
        };
        self.manifests = entries;
        Ok(stored)
    }

    /// The digest of the latest committed blob of `repository`.
    pub fn resolve(&self, repository: &str) -> (found: Option<&Digest>)
        ensures
            match found {
                Some(digest) => self@.resolve(repository@) == Some(digest@),
                None => self@.resolve(repository@) == None::<DigestModel>,
            },
    {
        proof {
            use_type_invariant(self);
        }
        match self.index_position(repository) {
            Some(i) => {
                proof {
                    lemma_table_at(index_names(self.index@), index_values(self.index@), i as int);
                }
                Some(&self.index[i].digest)
            },
            None => None,
        }
    }

    /// Points `repository` at `digest`.
    pub fn record(&mut self, repository: &str, digest: Digest)
        ensures
            final(self)@ == old(self)@.record(repository@, digest@),
    {
        proof {
            use_type_invariant(&*self);
        }
        let found = self.index_position(repository);
        let mut entries: Vec<IndexEntry> = Vec::new();
        proof {
            assert(index_names(entries@) =~= Seq::empty());
        }
        std::mem::swap(&mut self.index, &mut entries);
        let ghost names = index_names(entries@);
        let ghost values = index_values(entries@);
        let ghost d = digest@;
        match found {
            Some(i) => {
                entries.set(i, IndexEntry { repository: repository.to_owned(), digest });
                proof {
                    lemma_table_update(names, values, i as int, d);
                    assert(index_names(entries@) =~= names);
                    assert(index_values(entries@) =~= values.update(i as int, d));
                }
            },
            None => {
                entries.push(IndexEntry { repository: repository.to_owned(), digest });
                proof {
                    lemma_table_push(names, values, repository@, d);
                    assert(index_names(entries@) =~= names.push(repository@));
                    assert(index_values(entries@) =~= values.push(d));
                }
            },
        }
        self.index = entries;
    }
}

} // verus!
