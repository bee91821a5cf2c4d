use mise_cache::metadata::CommitOutcome;
use mise_cache::metrics::{MetricsSnapshot, metrics_text};
use mise_cache::model::{
    ActionResult, Algorithm, Digest, Directory, DirectoryNode, FileNode, SymlinkNode,
};
use mise_cache::server::{
    ActionKind, ApiError, RequestHeaders, blob_etag, check_missing_request, check_result_request,
    collect_missing, commit_status, digest_header, parse_action_digest, parse_digest,
    require_immutable_precondition, validate_action_result_shape, validate_digest,
    validate_directory_entries, validate_entry, validate_task_root,
};
use mise_cache::upload::{BlobPublication, BlobUpload, PutOutcome, UploadStep, put_blob_status};
use sha2::Digest as _;
use std::collections::HashSet;

fn digest(bytes: &[u8]) -> Digest {
    Digest {
        algorithm: Algorithm::Blake3,
        hash: blake3::hash(bytes).to_hex().to_string(),
        size: bytes.len() as u64,
    }
}

fn assert_error(error: ApiError, status: u16, message: &str) {
    assert_eq!(error.status(), status);
    assert_eq!(error.message(), message);
}

#[test]
fn url_digests_are_parsed_and_checked() {
    let d = digest(b"x");
    let parsed = parse_digest(("blake3".to_owned(), d.hash.clone(), 1)).unwrap();
    assert_eq!(parsed, d);
    assert_error(
        parse_digest(("md5".to_owned(), d.hash.clone(), 1)).unwrap_err(),
        400,
        "unsupported digest algorithm",
    );
    assert_error(
        parse_digest(("sha256".to_owned(), "ABC".to_owned(), 1)).unwrap_err(),
        400,
        "invalid digest",
    );
    assert!(validate_digest(&d).is_ok());
}

#[test]
fn action_keys_must_use_blake3() {
    let action = b"{\"kind\":\"task\"}";
    let hash = hex::encode(sha2::Sha256::digest(action));
    assert_error(
        parse_action_digest(("sha256".to_owned(), hash, action.len() as u64)).unwrap_err(),
        400,
        "action result keys must use blake3",
    );
    let d = digest(action);
    assert_eq!(parse_action_digest(("blake3".to_owned(), d.hash.clone(), d.size)).unwrap(), d);
}

#[test]
fn immutable_writes_need_if_none_match_star() {
    let mut headers = RequestHeaders {
        protocol: Some("1".to_owned()),
        namespace: Some("ns".to_owned()),
        authorization: None,
        if_none_match: Some("*".to_owned()),
    };
    assert!(require_immutable_precondition(&headers).is_ok());
    headers.if_none_match = Some("\"abc\"".to_owned());
    assert_error(
        require_immutable_precondition(&headers).unwrap_err(),
        412,
        "If-None-Match: * is required",
    );
    headers.if_none_match = None;
    assert!(require_immutable_precondition(&headers).is_err());
}

#[test]
fn result_bodies_must_match_their_url() {
    let action = digest(b"action");
    let result = ActionResult { action: action.clone(), metadata: None, output_root: None, version: 1 };
    assert!(check_result_request(&result, &action).is_ok());
    assert_error(
        check_result_request(&result, &digest(b"other")).unwrap_err(),
        400,
        "action result does not match request",
    );
    let old = ActionResult { version: 0, ..result.clone() };
    assert!(check_result_request(&old, &action).is_err());
}

#[test]
fn rustc_results_need_metadata_and_output_tree() {
    let action = digest(b"action");
    let bare = ActionResult { action: action.clone(), metadata: None, output_root: None, version: 1 };
    assert!(validate_action_result_shape(&bare, ActionKind::Task).is_ok());
    assert_error(
        validate_action_result_shape(&bare, ActionKind::Rustc).unwrap_err(),
        422,
        "rustc action results require metadata and an output root",
    );
    let half = ActionResult { metadata: Some(digest(b"m")), ..bare.clone() };
    assert!(validate_action_result_shape(&half, ActionKind::Rustc).is_err());
    let full = ActionResult { output_root: Some(digest(b"o")), ..half };
    assert!(validate_action_result_shape(&full, ActionKind::Rustc).is_ok());
}

#[test]
fn task_roots_are_safe_relative_paths() {
    assert!(validate_task_root("target/debug/widget").is_ok());
    for root in ["", "/abs", "a/../b", "a//b", "a\\b", "a\0b", ".", "a/"] {
        assert_error(
            validate_task_root(root).unwrap_err(),
            422,
            "task metadata root must be a safe relative path",
        );
    }
}

#[test]
fn directory_entries_are_checked_and_unique() {
    let mut names = HashSet::new();
    assert!(validate_entry(&mut names, "lib.rs", 0o644).is_ok());
    assert_error(validate_entry(&mut names, "lib.rs", 0o644).unwrap_err(), 422, "duplicate directory entry");
    for name in ["", ".", "..", "a/b", "a\\b", "a\0"] {
        assert_error(validate_entry(&mut names, name, 0o644).unwrap_err(), 422, "invalid directory entry");
    }
    assert_error(validate_entry(&mut names, "x", 0o10000).unwrap_err(), 422, "invalid directory entry");
    assert!(validate_entry(&mut names, "y", 0o7777).is_ok());
}

fn directory(symlink_target: &str, file_name: &str) -> Directory {
    Directory {
        directories: vec![DirectoryNode { digest: digest(b"sub"), mode: 0o755, name: "sub".to_owned() }],
        files: vec![FileNode {
            digest: digest(b"file"),
            executable: false,
            mode: 420,
            name: file_name.to_owned(),
        }],
        symlinks: vec![SymlinkNode { mode: 0o777, name: "link".to_owned(), target: symlink_target.to_owned() }],
        version: 1,
    }
}

#[test]
fn directory_objects_have_unique_valid_entries() {
    assert!(validate_directory_entries(&directory("sub/x", "libwidget.rlib")).is_ok());
    assert_error(
        validate_directory_entries(&directory("", "libwidget.rlib")).unwrap_err(),
        422,
        "invalid symlink target",
    );
    assert_error(
        validate_directory_entries(&directory("a\0", "libwidget.rlib")).unwrap_err(),
        422,
        "invalid symlink target",
    );
    assert_error(
        validate_directory_entries(&directory("x", "sub")).unwrap_err(),
        422,
        "duplicate directory entry",
    );
}

#[test]
fn missing_blob_queries() {
    let many = vec![digest(b"x"); 10001];
    assert_error(check_missing_request(&many).unwrap_err(), 400, "at most 10000 digests may be checked");
    assert!(check_missing_request(&many[..10000]).is_ok());
    let bad = vec![digest(b"x"), Digest { algorithm: Algorithm::Blake3, hash: "zz".to_owned(), size: 1 }];
    assert_error(check_missing_request(&bad).unwrap_err(), 400, "invalid digest");
    let ds = vec![digest(b"1"), digest(b"2"), digest(b"3")];
    assert_eq!(collect_missing(&ds, &[true, false, false]), vec![digest(b"2"), digest(b"3")]);
    assert!(collect_missing(&ds, &[true, true, true]).is_empty());
}

#[test]
fn response_headers_and_statuses() {
    let d = digest(b"cached output");
    assert_eq!(blob_etag(&d), format!("\"{}\"", d.hash));
    assert_eq!(digest_header(&d), format!("blake3={}", d.hash));
    assert_eq!(commit_status(CommitOutcome::Created).unwrap(), 201);
    assert_eq!(commit_status(CommitOutcome::AlreadyExists).unwrap(), 204);
    assert_error(
        commit_status(CommitOutcome::Conflict).unwrap_err(),
        409,
        "an immutable action result already exists",
    );
    assert_eq!(put_blob_status(PutOutcome::Created), 201);
    assert_eq!(put_blob_status(PutOutcome::AlreadyExists), 204);
    assert_error(ApiError::internal(), 500, "internal server error");
    assert_error(ApiError::not_found("blob not found"), 404, "blob not found");
}

#[test]
fn metrics_are_prometheus_counters() {
    let text = metrics_text(&MetricsSnapshot {
        blob_hits: 1,
        blob_uploads: 20,
        action_hits: 0,
        action_misses: 300,
        action_commits: 18446744073709551615,
    });
    assert_eq!(
        text,
        "# TYPE mise_cache_blob_hits_total counter\nmise_cache_blob_hits_total 1\n\
         # TYPE mise_cache_blob_uploads_total counter\nmise_cache_blob_uploads_total 20\n\
         # TYPE mise_cache_action_hits_total counter\nmise_cache_action_hits_total 0\n\
         # TYPE mise_cache_action_misses_total counter\nmise_cache_action_misses_total 300\n\
         # TYPE mise_cache_action_commits_total counter\nmise_cache_action_commits_total 18446744073709551615\n"
    );
}

#[test]
fn uploads_are_accepted_only_when_content_matches() {
    let bytes = b"cached output";
    let d = digest(bytes);
    let mut upload = BlobUpload::start(d.clone(), 1024).unwrap();
    upload.accept_chunk(&bytes[..6]).unwrap();
    upload.accept_chunk(&bytes[6..]).unwrap();
    assert!(upload.finish().is_ok());

    let mut short = BlobUpload::start(d.clone(), 1024).unwrap();
    short.accept_chunk(&bytes[..6]).unwrap();
    assert_error(short.finish().unwrap_err(), 400, "content does not match the requested digest");

    let mut wrong = BlobUpload::start(d.clone(), 1024).unwrap();
    wrong.accept_chunk(b"cached outpuT").unwrap();
    assert!(wrong.finish().is_err());

    let mut long = BlobUpload::start(d.clone(), 1024).unwrap();
    assert_error(
        long.accept_chunk(b"cached output!").unwrap_err(),
        413,
        "blob exceeds declared or configured size",
    );

    assert_error(
        BlobUpload::start(d.clone(), 12).err().unwrap(),
        413,
        "blob exceeds configured limit",
    );

    let sha = Digest {
        algorithm: Algorithm::Sha256,
        hash: hex::encode(sha2::Sha256::digest(bytes)),
        size: bytes.len() as u64,
    };
    let mut upload = BlobUpload::start(sha, 1024).unwrap();
    upload.accept_chunk(bytes).unwrap();
    assert!(upload.finish().is_ok());
}

#[test]
fn blobs_are_served_only_when_visible_and_stored() {
    assert!(mise_cache::server::blob_lookup(true, true).is_ok());
    for (visible, stored) in [(false, false), (false, true), (true, false)] {
        let error = mise_cache::server::blob_lookup(visible, stored).unwrap_err();
        assert_eq!(error.status(), 404);
        assert_eq!(error.message(), "blob not found");
    }
}

#[test]
fn uploads_are_stored_and_registered_only_after_they_match() {
    let bytes = b"cached output";
    let d = digest(bytes);
    let mut upload = BlobPublication::start(d.clone(), 1024).unwrap();
    assert_eq!(upload.next(), UploadStep::Receive);
    upload.accept_chunk(&bytes[..6]).unwrap();
    assert_eq!(upload.next(), UploadStep::Receive);
    upload.accept_chunk(&bytes[6..]).unwrap();
    upload.body_done().unwrap();
    assert_eq!(upload.next(), UploadStep::Store);
    assert_eq!(upload.digest(), &d);
    upload.stored(PutOutcome::Created);
    assert_eq!(upload.next(), UploadStep::Register);
    upload.registered();
    assert_eq!(upload.next(), UploadStep::Respond);
    assert_eq!(upload.status(), 201);

    let mut again = BlobPublication::start(d.clone(), 1024).unwrap();
    again.accept_chunk(bytes).unwrap();
    again.body_done().unwrap();
    again.stored(PutOutcome::AlreadyExists);
    again.registered();
    assert_eq!(again.status(), 204);

    let mut wrong = BlobPublication::start(d.clone(), 1024).unwrap();
    wrong.accept_chunk(b"cached outpuT").unwrap();
    assert_error(wrong.body_done().unwrap_err(), 400, "content does not match the requested digest");
    assert_eq!(wrong.next(), UploadStep::Abandon);

    let mut long = BlobPublication::start(d.clone(), 1024).unwrap();
    assert_error(long.accept_chunk(b"cached output!").unwrap_err(), 413, "blob exceeds declared or configured size");
    assert_eq!(long.next(), UploadStep::Abandon);

    assert_error(BlobPublication::start(d, 12).err().unwrap(), 413, "blob exceeds configured limit");
}
