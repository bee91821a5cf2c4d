//! Metadata stores: which blobs each namespace may read, the immutable
//! action results and the mutable task-action manifests.

pub mod memory;
pub mod postgres;

use crate::model::{
    ActionResult, ActionResultView, Digest, DigestView, ManifestView, TaskActionManifest,
};
use vstd::prelude::*;

pub use memory::MemoryMetadata;

verus! {

/// What a commit of an action result did.
#[derive(Clone, Copy, Debug, PartialEq, Eq, Structural)]
pub enum CommitOutcome {
    Created,
    AlreadyExists,
    Conflict,
}

/// A stored manifest and the entity tag of its current version.
#[derive(Debug)]
pub struct ManifestRecord {
    pub etag: String,
    pub manifest: TaskActionManifest,
}

/// What a metadata sweep removed.
#[derive(Clone, Copy, Debug, PartialEq, Eq, Structural)]
pub struct SweepOutcome {
    pub blobs: u64,
    pub action_results: u64,
    pub manifests: u64,
}

impl Default for SweepOutcome {
    fn default() -> (r: Self)
        ensures
            r == (SweepOutcome { blobs: 0, action_results: 0, manifests: 0 }),
    {
        SweepOutcome { blobs: 0, action_results: 0, manifests: 0 }
    }
}

/// What a conditional manifest write did.
#[derive(Clone, Copy, Debug, PartialEq, Eq, Structural)]
pub enum ManifestCommitOutcome {
    Created,
    Updated,
    PreconditionFailed,
}

/// A failure of the storage behind a metadata store.
#[derive(Debug)]
pub struct MetadataError {
    pub message: String,
}

/// A stored object is addressed by its namespace and its digest.
pub type StoreKey = (Seq<char>, DigestView);

/// The results of a store, by namespace and action digest.
pub type ResultMap = Map<StoreKey, ActionResultView>;

/// The manifests of a store, by namespace and selector digest: entity tag
/// and manifest.
pub type ManifestMap = Map<StoreKey, (Seq<char>, ManifestView)>;

/// The digests of `digests` that are registered in `namespace`, in order.
pub open spec fn visible_subsequence(
    blobs: Set<StoreKey>,
    namespace: Seq<char>,
    digests: Seq<DigestView>,
) -> Seq<DigestView>
    decreases digests.len(),
{
    if digests.len() == 0 {
        Seq::empty()
    } else {
        let before = visible_subsequence(blobs, namespace, digests.drop_last());
        if blobs.contains((namespace, digests.last())) {
            before.push(digests.last())
        } else {
            before
        }
    }
}

/// The values of a list of digests.
pub open spec fn digest_views(digests: Seq<Digest>) -> Seq<DigestView> {
    digests.map_values(|d: Digest| d@)
}

/// An action-result commit: the first result stored under a key stays; a
/// repeated identical commit changes nothing and reports `AlreadyExists`; a
/// different result is refused with `Conflict`.
pub open spec fn commit_step(results: ResultMap, key: StoreKey, result: ActionResultView) -> (
    ResultMap,
    CommitOutcome,
) {
    if !results.contains_key(key) {
        (results.insert(key, result), CommitOutcome::Created)
    } else if results[key] == result {
        (results, CommitOutcome::AlreadyExists)
    } else {
        (results, CommitOutcome::Conflict)
    }
}

/// Whether a conditional manifest write may proceed: a create (no expected
/// tag) needs the key to be absent, an update needs the stored tag to be the
/// expected one.
pub open spec fn manifest_precondition(
    manifests: ManifestMap,
    key: StoreKey,
    expected: Option<Seq<char>>,
) -> bool {
    match expected {
        None => !manifests.contains_key(key),
        Some(tag) => manifests.contains_key(key) && manifests[key].0 == tag,
    }
}

/// A conditional manifest write: when its precondition holds the manifest is
/// stored under the new tag, otherwise nothing changes.
pub open spec fn manifest_commit_step(
    manifests: ManifestMap,
    key: StoreKey,
    expected: Option<Seq<char>>,
    etag: Seq<char>,
    manifest: ManifestView,
) -> (ManifestMap, ManifestCommitOutcome) {
    if !manifest_precondition(manifests, key, expected) {
        (manifests, ManifestCommitOutcome::PreconditionFailed)
    } else if manifests.contains_key(key) {
        (manifests.insert(key, (etag, manifest)), ManifestCommitOutcome::Updated)
    } else {
        (manifests.insert(key, (etag, manifest)), ManifestCommitOutcome::Created)
    }
}

/// The value of an optional action result.
pub open spec fn optional_result_view(r: Option<ActionResult>) -> Option<ActionResultView> {
    match r {
        Some(r) => Some(r@),
        None => None,
    }
}

/// The value stored under a key, if any.
pub open spec fn lookup<V>(m: Map<StoreKey, V>, key: StoreKey) -> Option<V> {
    if m.contains_key(key) {
        Some(m[key])
    } else {
        None
    }
}

/// The value of an optional manifest record.
pub open spec fn optional_record_view(r: Option<ManifestRecord>) -> Option<(Seq<char>, ManifestView)> {
    match r {
        Some(r) => Some((r.etag@, r.manifest@)),
        None => None,
    }
}

/// Once a result is stored under a key, no commit replaces it.
pub proof fn law_commit_never_replaces(results: ResultMap, key: StoreKey, result: ActionResultView)
    requires
        results.contains_key(key),
    ensures
        commit_step(results, key, result).0 == results,
{
}

/// A read after a commit gives the first result ever committed under the
/// key: the new one when the key was empty, the stored one otherwise.
pub proof fn law_commit_then_read(results: ResultMap, key: StoreKey, result: ActionResultView)
    ensures
        lookup(commit_step(results, key, result).0, key) == Some(
            if results.contains_key(key) {
                results[key]
            } else {
                result
            },
        ),
{
}

/// Repeating an accepted commit is idempotent: it reports `AlreadyExists`
/// and changes nothing.
pub proof fn law_commit_idempotent(results: ResultMap, key: StoreKey, result: ActionResultView)
    requires
        commit_step(results, key, result).1 != CommitOutcome::Conflict,
    ensures
        commit_step(commit_step(results, key, result).0, key, result) == (
            commit_step(results, key, result).0,
            CommitOutcome::AlreadyExists,
        ),
{
}

/// A commit is refused with `Conflict` exactly when a different result is
/// stored under the key.
pub proof fn law_commit_conflict(results: ResultMap, key: StoreKey, result: ActionResultView)
    ensures
        (commit_step(results, key, result).1 == CommitOutcome::Conflict) == (results.contains_key(
            key,
        ) && results[key] != result),
{
}

/// A commit changes nothing under any other key: another namespace, or
/// another action, never sees it.
pub proof fn law_commit_isolated(
    results: ResultMap,
    key: StoreKey,
    other: StoreKey,
    result: ActionResultView,
)
    requires
        other != key,
    ensures
        lookup(commit_step(results, key, result).0, other) == lookup(results, other),
{
}

/// A manifest create succeeds exactly when nothing is stored under the key.
pub proof fn law_manifest_create_once(
    manifests: ManifestMap,
    key: StoreKey,
    etag: Seq<char>,
    manifest: ManifestView,
)
    ensures
        (manifest_commit_step(manifests, key, None, etag, manifest).1
            == ManifestCommitOutcome::Created) == !manifests.contains_key(key),
        manifests.contains_key(key) ==> manifest_commit_step(manifests, key, None, etag, manifest)
            == (manifests, ManifestCommitOutcome::PreconditionFailed),
{
}

/// A manifest update succeeds exactly when the stored tag is the expected
/// one; otherwise it changes nothing.
pub proof fn law_manifest_update_needs_current_tag(
    manifests: ManifestMap,
    key: StoreKey,
    expected: Seq<char>,
    etag: Seq<char>,
    manifest: ManifestView,
)
    ensures
        (manifest_commit_step(manifests, key, Some(expected), etag, manifest).1
            == ManifestCommitOutcome::Updated) == (manifests.contains_key(key)
            && manifests[key].0 == expected),
        !(manifests.contains_key(key) && manifests[key].0 == expected) ==> manifest_commit_step(
            manifests,
            key,
            Some(expected),
            etag,
            manifest,
        ) == (manifests, ManifestCommitOutcome::PreconditionFailed),
{
}

/// A successful manifest write is what the next read returns, with its new
/// tag.
pub proof fn law_manifest_write_then_read(
    manifests: ManifestMap,
    key: StoreKey,
    expected: Option<Seq<char>>,
    etag: Seq<char>,
    manifest: ManifestView,
)
    requires
        manifest_precondition(manifests, key, expected),
    ensures
        lookup(manifest_commit_step(manifests, key, expected, etag, manifest).0, key) == Some(
            (etag, manifest),
        ),
{
}

/// No lost update: once a writer has replaced the manifest under a new tag,
/// another writer still holding the old tag is refused and changes nothing.
pub proof fn law_manifest_stale_update_refused(
    manifests: ManifestMap,
    key: StoreKey,
    read_tag: Seq<char>,
    first_tag: Seq<char>,
    first: ManifestView,
    second_tag: Seq<char>,
    second: ManifestView,
)
    requires
        first_tag != read_tag,
        manifest_precondition(manifests, key, Some(read_tag)),
    ensures
        ({
            let after_first = manifest_commit_step(
                manifests,
                key,
                Some(read_tag),
                first_tag,
                first,
            ).0;
            manifest_commit_step(after_first, key, Some(read_tag), second_tag, second) == (
                after_first,
                ManifestCommitOutcome::PreconditionFailed,
            )
        }),
{
}

/// A manifest write changes nothing under any other key.
pub proof fn law_manifest_isolated(
    manifests: ManifestMap,
    key: StoreKey,
    other: StoreKey,
    expected: Option<Seq<char>>,
    etag: Seq<char>,
    manifest: ManifestView,
)
    requires
        other != key,
    ensures
        lookup(manifest_commit_step(manifests, key, expected, etag, manifest).0, other) == lookup(
            manifests,
            other,
        ),
{
}

/// The visible digests are exactly the requested digests that are
/// registered in the namespace, in request order.
pub proof fn law_visible_subsequence(
    blobs: Set<StoreKey>,
    namespace: Seq<char>,
    digests: Seq<DigestView>,
)
    ensures
        visible_subsequence(blobs, namespace, digests) == digests.filter(
            |d: DigestView| blobs.contains((namespace, d)),
        ),
    decreases digests.len(),
{
    reveal_with_fuel(Seq::filter, 1);
    if digests.len() > 0 {
        law_visible_subsequence(blobs, namespace, digests.drop_last());
    }
}

/// Registering a blob again changes nothing.
pub proof fn law_register_idempotent(blobs: Set<StoreKey>, key: StoreKey)
    ensures
        blobs.insert(key).insert(key) == blobs.insert(key),
{
    assert(blobs.insert(key).insert(key) =~= blobs.insert(key));
}

/// A registered blob is visible in its namespace.
pub proof fn law_registered_blob_visible(blobs: Set<StoreKey>, namespace: Seq<char>, digest: DigestView)
    ensures
        visible_subsequence(blobs.insert((namespace, digest)), namespace, seq![digest]) == seq![
            digest,
        ],
{
    let b = blobs.insert((namespace, digest));
    assert(seq![digest].drop_last() =~= Seq::<DigestView>::empty());
    assert(visible_subsequence(b, namespace, Seq::<DigestView>::empty()) =~= Seq::<DigestView>::empty());
    assert(Seq::<DigestView>::empty().push(digest) =~= seq![digest]);
}

/// Where metadata is kept.
#[derive(Clone, Copy, Debug, PartialEq, Eq, Structural)]
pub enum MetadataBackend {
    Memory,
    Postgres,
}

/// The backend a database URL selects: `memory://` keeps metadata in
/// memory; any other URL names a PostgreSQL database.
pub fn metadata_backend(url: &str) -> (r: MetadataBackend)
    ensures
        r == if url@ == "memory://"@ {
            MetadataBackend::Memory
        } else {
            MetadataBackend::Postgres
        },
{
    if crate::text::same_text(url, "memory://") {
        MetadataBackend::Memory
    } else {
        MetadataBackend::Postgres
    }
}

/// A store of cache metadata. Reads answer from the current contents;
/// writes change them as the `*_step` functions say.
pub trait MetadataStore {
    /// The store's internal invariant.
    spec fn well_formed(&self) -> bool;

    /// The registered blobs: each namespace and digest.
    spec fn blobs(&self) -> Set<StoreKey>;

    /// The stored action results.
    spec fn results(&self) -> ResultMap;

    /// The stored manifests with their entity tags.
    spec fn manifests(&self) -> ManifestMap;

    /// Whether lookups of registered blobs always succeed: true of a store
    /// held in memory; a store behind a database may fail.
    spec fn lookups_succeed(&self) -> bool;

    /// The digests of `digests` registered in `namespace`, in request order.
    fn visible_blobs(&self, namespace: &str, digests: &[Digest]) -> (r: Result<
        Vec<Digest>,
        MetadataError,
    >)
        requires
            self.well_formed(),
        ensures
            self.lookups_succeed() ==> r is Ok,
            r matches Ok(v) ==> digest_views(v@) == visible_subsequence(
                self.blobs(),
                namespace@,
                digest_views(digests@),
            ),
    ;

    /// Whether `digest` is registered in `namespace`.
    fn blob_visible(&self, namespace: &str, digest: &Digest) -> (r: Result<bool, MetadataError>)
        requires
            self.well_formed(),
        ensures
            self.lookups_succeed() ==> r is Ok,
            r matches Ok(b) ==> b == self.blobs().contains((namespace@, digest@)),
    {
        let one = vec![digest.clone()];
        match self.visible_blobs(namespace, one.as_slice()) {
            Ok(found) => {
                proof {
                    let ds = digest_views(one@);
                    assert(ds.drop_last() =~= Seq::<DigestView>::empty());
                    assert(ds.last() == digest@);
                    assert(visible_subsequence(self.blobs(), namespace@, ds.drop_last())
                        =~= Seq::<DigestView>::empty());
                    assert(digest_views(found@).len() == found@.len());
                }
                Ok(found.len() != 0)
            },
            Err(e) => Err(e),
        }
    }

    /// Registers `digest` in `namespace`.
    fn register_blob(&mut self, namespace: &str, digest: &Digest) -> (r: Result<(), MetadataError>)
        requires
            old(self).well_formed(),
        ensures
            final(self).well_formed(),
            r is Ok ==> final(self).blobs() == old(self).blobs().insert((namespace@, digest@)),
            r is Ok ==> final(self).results() == old(self).results(),
            r is Ok ==> final(self).manifests() == old(self).manifests(),
    ;

    /// Records that these blobs were served. This is best-effort bookkeeping
    /// for a future collector and changes nothing a read can observe.
    fn touch_blobs(&self, namespace: &str, digests: &[Digest]) -> (r: Result<(), MetadataError>)
        requires
            self.well_formed(),
        default_ensures
            r is Ok,
    {
        Ok(())
    }

    /// The action result stored for `action` in `namespace`.
    fn get(&self, namespace: &str, action: &Digest) -> (r: Result<
        Option<ActionResult>,
        MetadataError,
    >)
        requires
            self.well_formed(),
        ensures
            r matches Ok(found) ==> optional_result_view(found) == lookup(
                self.results(),
                (namespace@, action@),
            ),
    ;

    /// Stores `result` for `action` in `namespace` unless a result is there
    /// already (see `commit_step`).
    fn commit(&mut self, namespace: &str, action: &Digest, result: &ActionResult) -> (r: Result<
        CommitOutcome,
        MetadataError,
    >)
        requires
            old(self).well_formed(),
        ensures
            final(self).well_formed(),
            r matches Ok(outcome) ==> {
                let step = commit_step(old(self).results(), (namespace@, action@), result@);
                &&& final(self).results() == step.0
                &&& outcome == step.1
                &&& final(self).blobs() == old(self).blobs()
                &&& final(self).manifests() == old(self).manifests()
            },
    ;

    /// The manifest stored under `key` in `namespace`, with its entity tag.
    fn get_manifest(&self, namespace: &str, key: &Digest) -> (r: Result<
        Option<ManifestRecord>,
        MetadataError,
    >)
        requires
            self.well_formed(),
        ensures
            r matches Ok(found) ==> optional_record_view(found) == lookup(
                self.manifests(),
                (namespace@, key@),
            ),
    ;

    /// Stores `manifest` under `key` with the new tag `etag` when the stored
    /// tag is `expected_etag`, or, when that is `None`, when nothing is stored
    /// (see `manifest_commit_step`).
    fn commit_manifest(
        &mut self,
        namespace: &str,
        key: &Digest,
        expected_etag: Option<&str>,
        etag: &str,
        manifest: &TaskActionManifest,
    ) -> (r: Result<ManifestCommitOutcome, MetadataError>)
        requires
            old(self).well_formed(),
        ensures
            final(self).well_formed(),
            r matches Ok(outcome) ==> {
                let expected = match expected_etag {
                    Some(tag) => Some(tag@),
                    None => None,
                };
                let step = manifest_commit_step(
                    old(self).manifests(),
                    (namespace@, key@),
                    expected,
                    etag@,
                    manifest@,
                );
                &&& final(self).manifests() == step.0
                &&& outcome == step.1
                &&& final(self).blobs() == old(self).blobs()
                &&& final(self).results() == old(self).results()
            },
    ;

    /// Drops metadata of objects that storage has already expired; a store
    /// without durable metadata has nothing to sweep. A sweep only removes.
    fn sweep(&mut self, older_than_days: u32) -> (r: Result<SweepOutcome, MetadataError>)
        requires
            old(self).well_formed(),
        ensures
            final(self).well_formed(),
            r is Ok ==> final(self).blobs().subset_of(old(self).blobs()),
            r is Ok ==> final(self).results().submap_of(old(self).results()),
            r is Ok ==> final(self).manifests().submap_of(old(self).manifests()),
        default_ensures
            final(self).blobs() == old(self).blobs(),
            final(self).results() == old(self).results(),
            final(self).manifests() == old(self).manifests(),
            r matches Ok(outcome) && outcome == (SweepOutcome { blobs: 0, action_results: 0, manifests: 0 }),
    {
        Ok(SweepOutcome::default())
    }
}

} // verus!
