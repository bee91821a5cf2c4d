use mise_cache::metadata::{
    CommitOutcome, ManifestCommitOutcome, MemoryMetadata, MetadataBackend, MetadataStore,
    SweepOutcome, metadata_backend,
};
use mise_cache::model::{ActionResult, Algorithm, Digest, TaskActionManifest};

fn digest(bytes: &[u8]) -> Digest {
    Digest {
        algorithm: Algorithm::Blake3,
        hash: blake3::hash(bytes).to_hex().to_string(),
        size: bytes.len() as u64,
    }
}

fn result(action: &Digest, metadata: Option<Digest>) -> ActionResult {
    ActionResult { action: action.clone(), metadata, output_root: None, version: 1 }
}

#[test]
fn first_commit_wins_and_repeats_are_idempotent() {
    let mut store = MemoryMetadata::default();
    let action = digest(b"action");
    let first = result(&action, Some(digest(b"m1")));
    let second = result(&action, Some(digest(b"m2")));
    assert_eq!(store.get("ns", &action).unwrap().map(|r| r.metadata), None);
    assert_eq!(store.commit("ns", &action, &first).unwrap(), CommitOutcome::Created);
    assert_eq!(store.commit("ns", &action, &first).unwrap(), CommitOutcome::AlreadyExists);
    assert_eq!(store.commit("ns", &action, &second).unwrap(), CommitOutcome::Conflict);
    let stored = store.get("ns", &action).unwrap().unwrap();
    assert_eq!(stored.metadata, Some(digest(b"m1")));
    assert_eq!(stored.action, action);
}

#[test]
fn namespaces_are_isolated() {
    let mut store = MemoryMetadata::default();
    let action = digest(b"action");
    store.commit("a", &action, &result(&action, None)).unwrap();
    assert!(store.get("b", &action).unwrap().is_none());
    assert_eq!(
        store.commit("b", &action, &result(&action, Some(digest(b"x")))).unwrap(),
        CommitOutcome::Created
    );
    store.register_blob("a", &action).unwrap();
    assert!(store.blob_visible("a", &action).unwrap());
    assert!(!store.blob_visible("b", &action).unwrap());
}

#[test]
fn visible_blobs_keep_request_order() {
    let mut store = MemoryMetadata::new();
    let (one, two, three) = (digest(b"1"), digest(b"2"), digest(b"3"));
    store.register_blob("ns", &three).unwrap();
    store.register_blob("ns", &one).unwrap();
    store.register_blob("ns", &one).unwrap();
    let visible = store
        .visible_blobs("ns", &[two.clone(), three.clone(), one.clone(), three.clone()])
        .unwrap();
    assert_eq!(visible, vec![three.clone(), one, three]);
    assert!(store.visible_blobs("other", &[two]).unwrap().is_empty());
    assert!(store.touch_blobs("ns", &[]).is_ok());
    assert_eq!(
        store.sweep(30).unwrap(),
        SweepOutcome { blobs: 0, action_results: 0, manifests: 0 }
    );
}

fn manifest(task: char) -> TaskActionManifest {
    TaskActionManifest { predictions: vec![], task: task.to_string().repeat(64), version: 1 }
}

#[test]
fn manifests_use_optimistic_concurrency() {
    let mut store = MemoryMetadata::default();
    let key = manifest('0').selector_digest();
    assert!(store.get_manifest("ns", &key).unwrap().is_none());
    assert_eq!(
        store.commit_manifest("ns", &key, Some("e0"), "e1", &manifest('0')).unwrap(),
        ManifestCommitOutcome::PreconditionFailed
    );
    assert_eq!(
        store.commit_manifest("ns", &key, None, "e1", &manifest('0')).unwrap(),
        ManifestCommitOutcome::Created
    );
    assert_eq!(
        store.commit_manifest("ns", &key, None, "e2", &manifest('1')).unwrap(),
        ManifestCommitOutcome::PreconditionFailed
    );
    assert_eq!(
        store.commit_manifest("ns", &key, Some("e1"), "e2", &manifest('1')).unwrap(),
        ManifestCommitOutcome::Updated
    );
    assert_eq!(
        store.commit_manifest("ns", &key, Some("e1"), "e3", &manifest('2')).unwrap(),
        ManifestCommitOutcome::PreconditionFailed
    );
    let record = store.get_manifest("ns", &key).unwrap().unwrap();
    assert_eq!(record.etag, "e2");
    assert_eq!(record.manifest.task, "1".repeat(64));
    assert!(store.get_manifest("other", &key).unwrap().is_none());
}

#[test]
fn database_urls_select_the_backend() {
    assert_eq!(metadata_backend("memory://"), MetadataBackend::Memory);
    assert_eq!(metadata_backend("postgres://localhost/cache"), MetadataBackend::Postgres);
}
