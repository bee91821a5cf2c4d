use mise_cache::model::{ActionResult, Algorithm, Digest};
use mise_cache::publish::{Publication, PublishStep};
use mise_cache::server::{ActionKind, ApiError};

fn digest(c: &str) -> Digest {
    Digest { algorithm: Algorithm::Blake3, hash: c.repeat(64), size: 3 }
}

fn result(metadata: bool, root: bool) -> ActionResult {
    ActionResult {
        action: digest("a"),
        metadata: if metadata { Some(digest("b")) } else { None },
        output_root: if root { Some(digest("c")) } else { None },
        version: 1,
    }
}

#[test]
fn commit_comes_after_every_check() {
    let mut p = Publication::start(result(true, true));
    assert_eq!(p.next(), PublishStep::CheckDescriptor);
    assert!(p.descriptor_checked(Ok(ActionKind::Rustc)).is_ok());
    assert_eq!(p.kind(), Some(ActionKind::Rustc));
    assert_eq!(p.next(), PublishStep::CheckMetadata);
    assert!(p.metadata_checked(Ok(())).is_ok());
    assert_eq!(p.next(), PublishStep::CheckTree);
    assert!(p.tree_checked(Ok(())).is_ok());
    assert_eq!(p.next(), PublishStep::Commit);
    assert_eq!(p.result().output_root, Some(digest("c")));
}

#[test]
fn a_bare_task_result_needs_only_its_descriptor() {
    let mut p = Publication::start(result(false, false));
    assert_eq!(p.next(), PublishStep::CheckDescriptor);
    assert!(p.descriptor_checked(Ok(ActionKind::Task)).is_ok());
    assert_eq!(p.next(), PublishStep::Commit);
}

#[test]
fn a_tree_only_result_skips_the_metadata_check() {
    let mut p = Publication::start(result(false, true));
    assert!(p.descriptor_checked(Ok(ActionKind::Task)).is_ok());
    assert_eq!(p.next(), PublishStep::CheckTree);
}

#[test]
fn a_rustc_result_without_metadata_is_refused() {
    let mut p = Publication::start(result(false, true));
    let error = p.descriptor_checked(Ok(ActionKind::Rustc)).unwrap_err();
    assert_eq!(error.status(), 422);
    assert_eq!(error.message(), "rustc action results require metadata and an output root");
    assert_eq!(p.next(), PublishStep::Abandon);
}

#[test]
fn a_failed_check_is_passed_on_and_stops_the_publication() {
    let mut p = Publication::start(result(true, true));
    assert!(p.descriptor_checked(Ok(ActionKind::Task)).is_ok());
    let error = p.metadata_checked(Err(ApiError::not_found("client metadata blob not found"))).unwrap_err();
    assert_eq!(error.status(), 404);
    assert_eq!(error.message(), "client metadata blob not found");
    assert_eq!(p.next(), PublishStep::Abandon);

    let mut q = Publication::start(result(false, false));
    let error = q.descriptor_checked(Err(ApiError::unprocessable("bad descriptor"))).unwrap_err();
    assert_eq!(error.status(), 422);
    assert_eq!(q.next(), PublishStep::Abandon);

    let mut t = Publication::start(result(false, true));
    assert!(t.descriptor_checked(Ok(ActionKind::Task)).is_ok());
    assert!(t.tree_checked(Err(ApiError::unprocessable("directory graph contains a cycle"))).is_err());
    assert_eq!(t.next(), PublishStep::Abandon);
}
