use mise_cache::metadata::postgres::representable_digests;
use mise_cache::model::{Algorithm, Digest};

#[test]
fn unrepresentable_blob_sizes_are_not_queried() {
    let representable = Digest {
        algorithm: Algorithm::Blake3,
        hash: "0".repeat(64),
        size: i64::MAX as u64,
    };
    let unrepresentable = Digest {
        algorithm: Algorithm::Blake3,
        hash: "1".repeat(64),
        size: i64::MAX as u64 + 1,
    };

    assert_eq!(
        representable_digests(&[representable.clone(), unrepresentable]),
        vec![(&representable, i64::MAX)]
    );
}

use mise_cache::metadata::postgres::{commit_outcome, manifest_commit_outcome, resolve_ordinals};
use mise_cache::metadata::{CommitOutcome, ManifestCommitOutcome};
use mise_cache::model::ActionResult;

fn digest(c: char, size: u64) -> Digest {
    Digest { algorithm: Algorithm::Blake3, hash: c.to_string().repeat(64), size }
}

#[test]
fn ordinals_map_back_to_queried_digests() {
    let digests = [digest('a', 1), digest('b', 2), digest('c', 3)];
    let queried = representable_digests(&digests);
    assert_eq!(resolve_ordinals(&queried, &[1, 3]).unwrap(), vec![digest('a', 1), digest('c', 3)]);
    assert!(resolve_ordinals(&queried, &[]).unwrap().is_empty());
    assert_eq!(
        resolve_ordinals(&queried, &[1, 4]).unwrap_err().message,
        "database returned an invalid blob ordinal"
    );
    assert_eq!(
        resolve_ordinals(&queried, &[0]).unwrap_err().message,
        "out of range integral type conversion attempted"
    );
}

#[test]
fn write_row_counts_decide_outcomes() {
    let action = digest('a', 1);
    let mine = ActionResult { action: action.clone(), metadata: None, output_root: None, version: 1 };
    let theirs = ActionResult { metadata: Some(digest('b', 2)), ..mine.clone() };
    assert_eq!(commit_outcome(1, None, &mine).unwrap(), CommitOutcome::Created);
    assert_eq!(commit_outcome(0, Some(&mine), &mine).unwrap(), CommitOutcome::AlreadyExists);
    assert_eq!(commit_outcome(0, Some(&theirs), &mine).unwrap(), CommitOutcome::Conflict);
    assert_eq!(
        commit_outcome(0, None, &mine).unwrap_err().message,
        "action result disappeared after conflict"
    );
    assert_eq!(manifest_commit_outcome(0, true), ManifestCommitOutcome::PreconditionFailed);
    assert_eq!(manifest_commit_outcome(1, true), ManifestCommitOutcome::Updated);
    assert_eq!(manifest_commit_outcome(1, false), ManifestCommitOutcome::Created);
}
