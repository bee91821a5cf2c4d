//! The in-memory metadata store for development and tests.

use super::{
    CommitOutcome, ManifestCommitOutcome, ManifestMap, ManifestRecord, MetadataError,
    MetadataStore, ResultMap, StoreKey, digest_views, lookup, optional_record_view,
    optional_result_view, visible_subsequence,
};
use crate::model::{ActionResult, Digest, ManifestView, TaskActionManifest};
use crate::text::same_text;
use vstd::prelude::*;
use vstd::string::StringExecFns;

verus! {

/// Metadata held in memory: registered blobs, action results and manifests,
/// each kept as a list with one entry per key. (vstd specifies std's hash
/// maps and sets only for key types that obey its key model, which holds
/// for integers but would have to be assumed for a key made of a namespace
/// string and a digest; lists keep every operation proved.)
pub struct MemoryMetadata {
    entries: Vec<(String, Digest, ActionResult)>,
    blobs: Vec<(String, Digest)>,
    manifests: Vec<(String, Digest, String, TaskActionManifest)>,
    result_map: Ghost<ResultMap>,
    manifest_map: Ghost<ManifestMap>,
}

/// The key of a stored result.
pub open spec fn entry_key(e: (String, Digest, ActionResult)) -> StoreKey {
    (e.0@, e.1@)
}

/// The key of a registered blob.
pub open spec fn blob_key(e: (String, Digest)) -> StoreKey {
    (e.0@, e.1@)
}

/// The key of a stored manifest.
pub open spec fn manifest_key(e: (String, Digest, String, TaskActionManifest)) -> StoreKey {
    (e.0@, e.1@)
}

/// The tag and manifest of a stored manifest.
pub open spec fn manifest_value(e: (String, Digest, String, TaskActionManifest)) -> (
    Seq<char>,
    ManifestView,
) {
    (e.2@, e.3@)
}

/// Every listed result agrees with the map, and every key of the map is listed.
pub open spec fn results_agree(entries: Seq<(String, Digest, ActionResult)>, map: ResultMap) -> bool {
    &&& forall|i: int|
        0 <= i < entries.len() ==> map.contains_key(entry_key(#[trigger] entries[i]))
            && map[entry_key(entries[i])] == entries[i].2@
    &&& forall|k: StoreKey|
        #[trigger] map.contains_key(k) ==> exists|i: int|
            0 <= i < entries.len() && entry_key(#[trigger] entries[i]) == k
}

/// Every listed manifest agrees with the map, each key is listed once, and
/// every key of the map is listed.
pub open spec fn manifests_agree(
    entries: Seq<(String, Digest, String, TaskActionManifest)>,
    map: ManifestMap,
) -> bool {
    &&& forall|i: int|
        0 <= i < entries.len() ==> map.contains_key(manifest_key(#[trigger] entries[i]))
            && map[manifest_key(entries[i])] == manifest_value(entries[i])
    &&& forall|k: StoreKey|
        #[trigger] map.contains_key(k) ==> exists|i: int|
            0 <= i < entries.len() && manifest_key(#[trigger] entries[i]) == k
    &&& forall|i: int, j: int|
        0 <= i < j < entries.len() ==> manifest_key(#[trigger] entries[i]) != manifest_key(
            #[trigger] entries[j],
        )
}

impl Default for MemoryMetadata {
    fn default() -> (r: Self)
        ensures
            r.well_formed(),
            r.blobs() == Set::<StoreKey>::empty(),
            r.results() == ResultMap::empty(),
            r.manifests() == ManifestMap::empty(),
    {
        MemoryMetadata::new()
    }
}

impl MemoryMetadata {
    /// An empty store.
    pub fn new() -> (r: Self)
        ensures
            r.well_formed(),
            r.blobs() == Set::<StoreKey>::empty(),
            r.results() == ResultMap::empty(),
            r.manifests() == ManifestMap::empty(),
    {
        let r = MemoryMetadata {
            entries: Vec::new(),
            blobs: Vec::new(),
            manifests: Vec::new(),
            result_map: Ghost(ResultMap::empty()),
            manifest_map: Ghost(ManifestMap::empty()),
        };
        assert(r.blobs() =~= Set::<StoreKey>::empty());
        r
    }

    /// The position of `namespace` and `digest` among the stored results.
    fn find_entry(&self, namespace: &str, digest: &Digest) -> (r: Option<usize>)
        requires
            self.well_formed(),
        ensures
            match r {
                Some(i) => i < self.entries@.len() && entry_key(self.entries@[i as int]) == (
                    namespace@,
                    digest@,
                ),
                None => !self.results().contains_key((namespace@, digest@)),
            },
    {
        let mut i: usize = 0;
        while i < self.entries.len()
            invariant
                i <= self.entries@.len(),
                forall|j: int|
                    0 <= j < i ==> entry_key(#[trigger] self.entries@[j]) != (namespace@, digest@),
            decreases self.entries@.len() - i,
        {
            let e = &self.entries[i];
            if same_text(e.0.as_str(), namespace) && e.1.same_as(digest) {
                return Some(i);
            }
            i = i + 1;
        }
        None
    }

    /// The position of `namespace` and `digest` among the registered blobs.
    fn find_blob(&self, namespace: &str, digest: &Digest) -> (r: bool)
        ensures
            r == self.blobs().contains((namespace@, digest@)),
    {
        let mut i: usize = 0;
        while i < self.blobs.len()
            invariant
                i <= self.blobs@.len(),
                forall|j: int|
                    0 <= j < i ==> blob_key(#[trigger] self.blobs@[j]) != (namespace@, digest@),
            decreases self.blobs@.len() - i,
        {
            let e = &self.blobs[i];
            if same_text(e.0.as_str(), namespace) && e.1.same_as(digest) {
                return true;
            }
            i = i + 1;
        }
        false
    }

    /// The position of `namespace` and `key` among the stored manifests.
    fn find_manifest(&self, namespace: &str, key: &Digest) -> (r: Option<usize>)
        requires
            self.well_formed(),
        ensures
            match r {
                Some(i) => i < self.manifests@.len() && manifest_key(self.manifests@[i as int]) == (
                    namespace@,
                    key@,
                ),
                None => !self.manifests().contains_key((namespace@, key@)),
            },
    {
        let mut i: usize = 0;
        while i < self.manifests.len()
            invariant
                i <= self.manifests@.len(),
                forall|j: int|
                    0 <= j < i ==> manifest_key(#[trigger] self.manifests@[j]) != (namespace@, key@),
            decreases self.manifests@.len() - i,
        {
            let e = &self.manifests[i];
            if same_text(e.0.as_str(), namespace) && e.1.same_as(key) {
                return Some(i);
            }
            i = i + 1;
        }
        None
    }
}

impl MetadataStore for MemoryMetadata {
    /// Every listed result and manifest agrees with the map of its kind, each
    /// manifest key is listed once, and every key of a map is listed.
    closed spec fn well_formed(&self) -> bool {
        &&& results_agree(self.entries@, self.result_map@)
        &&& manifests_agree(self.manifests@, self.manifest_map@)
    }

    closed spec fn blobs(&self) -> Set<StoreKey> {
        Set::new(
            |k: StoreKey|
                exists|i: int| 0 <= i < self.blobs@.len() && blob_key(#[trigger] self.blobs@[i]) == k,
        )
    }

    closed spec fn results(&self) -> ResultMap {
        self.result_map@
    }

    closed spec fn manifests(&self) -> ManifestMap {
        self.manifest_map@
    }

    /// A store in memory never fails a lookup.
    open spec fn lookups_succeed(&self) -> bool {
        true
    }

    fn visible_blobs(&self, namespace: &str, digests: &[Digest]) -> (r: Result<
        Vec<Digest>,
        MetadataError,
    >)
        ensures
            r is Ok,
    {
        let ghost ds = digest_views(digests@);
        let mut out: Vec<Digest> = Vec::new();
        let mut i: usize = 0;
        while i < digests.len()
            invariant
                ds == digest_views(digests@),
                i <= digests@.len(),
                digest_views(out@) == visible_subsequence(
                    self.blobs(),
                    namespace@,
                    ds.subrange(0, i as int),
                ),
            decreases digests@.len() - i,
        {
            proof {
                assert(ds.subrange(0, i + 1).drop_last() =~= ds.subrange(0, i as int));
                assert(ds.subrange(0, i + 1).last() == digests@[i as int]@);
            }
            if self.find_blob(namespace, &digests[i]) {
                let ghost before = out@;
                out.push(digests[i].clone());
                proof {
                    assert(digest_views(out@) =~= digest_views(before).push(digests@[i as int]@));
                }
            }
            i = i + 1;
        }
        proof {
            assert(ds.subrange(0, i as int) =~= ds);
        }
        Ok(out)
    }

    fn register_blob(&mut self, namespace: &str, digest: &Digest) -> (r: Result<(), MetadataError>)
        ensures
            r is Ok,
    {
        if !self.find_blob(namespace, digest) {
            let ghost before = self.blobs@;
            self.blobs.push((String::from_str(namespace), digest.clone()));
            proof {
                let n = before.len() as int;
                assert(blob_key(self.blobs@[n]) == (namespace@, digest@));
                assert forall|k: StoreKey| self.blobs().contains(k) <==> old(self).blobs().insert(
                    (namespace@, digest@),
                ).contains(k) by {
                    if old(self).blobs().contains(k) {
                        let i = choose|i: int|
                            0 <= i < before.len() && blob_key(#[trigger] before[i]) == k;
                        assert(self.blobs@[i] == before[i]);
                    }
                    if self.blobs().contains(k) && k != (namespace@, digest@) {
                        let i = choose|i: int|
                            0 <= i < self.blobs@.len() && blob_key(#[trigger] self.blobs@[i]) == k;
                        assert(i < n);
                        assert(self.blobs@[i] == before[i]);
                    }
                }
                assert(self.blobs() =~= old(self).blobs().insert((namespace@, digest@)));
            }
        } else {
            proof {
                assert(self.blobs() =~= old(self).blobs().insert((namespace@, digest@)));
            }
        }
        proof {
            assert(self.entries@ == old(self).entries@);
            assert(self.manifests@ == old(self).manifests@);
        }
        Ok(())
    }

    fn get(&self, namespace: &str, action: &Digest) -> (r: Result<
        Option<ActionResult>,
        MetadataError,
    >)
        ensures
            r is Ok,
    {
        match self.find_entry(namespace, action) {
            Some(i) => Ok(Some(self.entries[i].2.clone())),
            None => Ok(None),
        }
    }

    fn commit(&mut self, namespace: &str, action: &Digest, result: &ActionResult) -> (r: Result<
        CommitOutcome,
        MetadataError,
    >)
        ensures
            r is Ok,
    {
        match self.find_entry(namespace, action) {
            Some(i) => {
                if self.entries[i].2.same_as(result) {
                    Ok(CommitOutcome::AlreadyExists)
                } else {
                    Ok(CommitOutcome::Conflict)
                }
            },
            None => {
                let ghost before = self.entries@;
                let ghost key = (namespace@, action@);
                self.entries.push((String::from_str(namespace), action.clone(), result.clone()));
                self.result_map = Ghost(self.result_map@.insert(key, result@));
                proof {
                    let n = before.len() as int;
                    assert(entry_key(self.entries@[n]) == key);
                    assert forall|i: int| 0 <= i < self.entries@.len() implies self.result_map@.contains_key(
                        entry_key(#[trigger] self.entries@[i]),
                    ) && self.result_map@[entry_key(self.entries@[i])] == self.entries@[i].2@ by {
                        if i < n {
                            assert(self.entries@[i] == before[i]);
                            assert(entry_key(before[i]) != key);
                        }
                    }
                    assert forall|k: StoreKey| #[trigger]
                        self.result_map@.contains_key(k) implies exists|i: int|
                        0 <= i < self.entries@.len() && entry_key(#[trigger] self.entries@[i])
                            == k by {
                        if k == key {
                            assert(entry_key(self.entries@[n]) == k);
                        } else {
                            let i = choose|i: int|
                                0 <= i < before.len() && entry_key(#[trigger] before[i]) == k;
                            assert(self.entries@[i] == before[i]);
                        }
                    }
                    assert forall|i: int| 0 <= i < self.manifests@.len() implies self.manifest_map@.contains_key(
                        manifest_key(#[trigger] self.manifests@[i]),
                    ) && self.manifest_map@[manifest_key(self.manifests@[i])] == manifest_value(
                        self.manifests@[i],
                    ) by {}
                    assert(self.blobs() =~= old(self).blobs());
                }
                Ok(CommitOutcome::Created)
            },
        }
    }

    fn get_manifest(&self, namespace: &str, key: &Digest) -> (r: Result<
        Option<ManifestRecord>,
        MetadataError,
    >)
        ensures
            r is Ok,
    {
        match self.find_manifest(namespace, key) {
            Some(i) => {
                let e = &self.manifests[i];
                Ok(Some(ManifestRecord { etag: e.2.clone(), manifest: e.3.clone() }))
            },
            None => Ok(None),
        }
    }

    fn commit_manifest(
        &mut self,
        namespace: &str,
        key: &Digest,
        expected_etag: Option<&str>,
        etag: &str,
        manifest: &TaskActionManifest,
    ) -> (r: Result<ManifestCommitOutcome, MetadataError>)
        ensures
            r is Ok,
    {
        let ghost k = (namespace@, key@);
        let found = self.find_manifest(namespace, key);
        let matches = match (found, expected_etag) {
            (None, None) => true,
            (Some(i), Some(expected)) => same_text(self.manifests[i].2.as_str(), expected),
            _ => false,
        };
        if !matches {
            return Ok(ManifestCommitOutcome::PreconditionFailed);
        }
        let ghost before = self.manifests@;
        assert(before == old(self).manifests@);
        assert(self.manifest_map@ == old(self).manifest_map@);
        let value = (String::from_str(namespace), key.clone(), String::from_str(etag), manifest.clone());
        let outcome = match found {
            Some(i) => {
                self.manifests.set(i, value);
                ManifestCommitOutcome::Updated
            },
            None => {
                self.manifests.push(value);
                ManifestCommitOutcome::Created
            },
        };
        self.manifest_map = Ghost(self.manifest_map@.insert(k, (etag@, manifest@)));
        proof {
            let n = before.len() as int;
            let pos = match found {
                Some(i) => i as int,
                None => n,
            };
            assert(manifest_key(self.manifests@[pos]) == k);
            assert forall|i: int| 0 <= i < self.manifests@.len() && i != pos implies self.manifests@[i]
                == before[i] by {}
            assert forall|i: int| 0 <= i < self.manifests@.len() implies self.manifest_map@.contains_key(
                manifest_key(#[trigger] self.manifests@[i]),
            ) && self.manifest_map@[manifest_key(self.manifests@[i])] == manifest_value(
                self.manifests@[i],
            ) by {
                if i != pos {
                    assert(self.manifests@[i] == before[i]);
                    if found is None {
                        assert(manifest_key(before[i]) != k);
                    } else {
                        assert(manifest_key(before[i]) != manifest_key(before[pos]));
                    }
                }
            }
            assert forall|kk: StoreKey| #[trigger]
                self.manifest_map@.contains_key(kk) implies exists|i: int|
                0 <= i < self.manifests@.len() && manifest_key(#[trigger] self.manifests@[i])
                    == kk by {
                if kk == k {
                    assert(manifest_key(self.manifests@[pos]) == kk);
                } else {
                    assert(old(self).manifest_map@.contains_key(kk));
                    assert(exists|i: int|
                        0 <= i < before.len() && manifest_key(#[trigger] before[i]) == kk);
                    let i = choose|i: int|
                        0 <= i < before.len() && manifest_key(#[trigger] before[i]) == kk;
                    assert(i != pos);
                    assert(self.manifests@[i] == before[i]);
                }
            }
            assert forall|i: int, j: int|
                0 <= i < j < self.manifests@.len() implies manifest_key(#[trigger] self.manifests@[i])
                != manifest_key(#[trigger] self.manifests@[j]) by {
                if i != pos && j != pos {
                    assert(self.manifests@[i] == before[i]);
                    assert(self.manifests@[j] == before[j]);
                } else if i == pos {
                    assert(self.manifests@[j] == before[j]);
                    if found is None {
                        assert(manifest_key(before[j]) != k);
                    } else {
                        assert(manifest_key(before[j]) != manifest_key(before[pos]));
                    }
                } else {
                    assert(self.manifests@[i] == before[i]);
                    if found is None {
                        assert(manifest_key(before[i]) != k);
                    } else {
                        assert(manifest_key(before[i]) != manifest_key(before[pos]));
                    }
                }
            }
            assert(self.blobs() =~= old(self).blobs());
        }
        Ok(outcome)
    }
}

} // verus!
