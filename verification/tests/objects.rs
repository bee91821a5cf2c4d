use mise_cache::model::{
    Algorithm, Digest, Directory, FileNode, RustcMetadata, TaskMetadata, TaskOutput,
    TaskOutputStream,
};
use mise_cache::objects::{
    ObjectRead, check_canonical_object, check_rustc_action, check_rustc_metadata,
    check_task_action, check_task_metadata, classify_descriptor, classify_metadata,
    descriptor_head, metadata_head, require_visible,
};
use mise_cache::server::{ActionKind, ApiError};
use mise_cache::tree::{TreeWalk, check_directory_object};

fn digest(bytes: &[u8]) -> Digest {
    Digest {
        algorithm: Algorithm::Blake3,
        hash: blake3::hash(bytes).to_hex().to_string(),
        size: bytes.len() as u64,
    }
}

fn assert_error(error: ApiError, status: u16, message: &str) {
    assert_eq!(error.status(), status);
    assert_eq!(error.message(), message);
}

#[test]
fn objects_are_bounded_and_canonical() {
    let large = Digest { size: 16 * 1024 * 1024 + 1, ..digest(b"x") };
    assert_error(
        ObjectRead::start(&large, "action descriptor").err().unwrap(),
        422,
        "action descriptor is too large",
    );
    let invalid = Digest { hash: "x".to_owned(), ..digest(b"x") };
    assert_error(ObjectRead::start(&invalid, "client metadata").err().unwrap(), 400, "invalid digest");

    let read = ObjectRead::start(&digest(b"{}"), "client metadata").unwrap();
    assert_error(read.missing(), 422, "client metadata blob is missing");
    assert_error(read.finish(b"{nope").unwrap_err(), 422, "client metadata is invalid JSON");
    assert_error(read.finish(b"{ \"a\": 1 }").unwrap_err(), 422, "client metadata is not canonical JSON");
    assert_error(read.finish(b"[1]").unwrap_err(), 422, "client metadata is not canonical JSON");
    let head = read.finish(b"{\"a\":1,\"b\":[true],\"kind\":\"task\",\"version\":2}").unwrap();
    assert_eq!(head.keys, vec!["a".to_owned(), "b".to_owned(), "kind".to_owned(), "version".to_owned()]);
    assert_eq!(head.kind, Some("task".to_owned()));
    assert_eq!(head.version, Some(2));
    let odd = read.finish(b"{\"kind\":1,\"version\":\"1\"}").unwrap();
    assert_eq!(odd.kind, None);
    assert_eq!(odd.version, None);

    assert!(check_canonical_object("x", b"{}", true, Some(b"{}")).is_ok());
    assert_error(check_canonical_object("x", b"{}", true, None).unwrap_err(), 500, "internal server error");
    assert_error(check_canonical_object("x", b"{}", false, Some(b"{}")).unwrap_err(), 422, "x is not canonical JSON");
}

#[test]
fn descriptors_declare_a_supported_kind() {
    assert_eq!(classify_descriptor(&head("{\"kind\":\"task\",\"version\":1}")).unwrap(), (ActionKind::Task, 1));
    assert_eq!(classify_descriptor(&head("{\"kind\":\"rustc\",\"version\":7}")).unwrap(), (ActionKind::Rustc, 7));
    assert_error(
        classify_descriptor(&head("{\"kind\":\"make\\\"x\",\"version\":1}")).unwrap_err(),
        422,
        "unsupported action kind \"make\\\"x\"",
    );
    assert_error(classify_descriptor(&head("{\"version\":1}")).unwrap_err(), 422, "action descriptor kind is required");
    assert_error(
        descriptor_head(true, None, Some(1)).unwrap_err(),
        422,
        "action descriptor kind is required",
    );
    assert_error(
        descriptor_head(true, Some("task".to_owned()), None).unwrap_err(),
        422,
        "action descriptor version is required",
    );
    assert_error(
        descriptor_head(false, None, None).unwrap_err(),
        422,
        "action descriptor must be a JSON object",
    );
}

fn task_keys() -> Vec<String> {
    [
        "arch", "args", "command_inputs", "dependency_keys", "environment", "kind", "os", "outputs",
        "phase", "root", "run", "shell", "source_hash", "task", "tools", "vars", "version",
    ]
    .iter()
    .map(|k| k.to_string())
    .collect()
}

#[test]
fn task_action_schema_checks() {
    assert_error(
        check_task_action(2, &task_keys(), Err("unused".to_owned())).unwrap_err(),
        422,
        "unsupported task action schema 2",
    );
    let without_shell: Vec<String> = task_keys().into_iter().filter(|k| k != "shell").collect();
    assert_error(
        check_task_action(1, &without_shell, Err("unused".to_owned())).unwrap_err(),
        422,
        "task action field \"shell\" is required",
    );
    let without_two: Vec<String> =
        task_keys().into_iter().filter(|k| k != "shell" && k != "kind").collect();
    assert_error(
        check_task_action(1, &without_two, Err("unused".to_owned())).unwrap_err(),
        422,
        "task action field \"kind\" is required",
    );
    assert_error(
        check_task_action(1, &task_keys(), Err("unknown field `x`".to_owned())).unwrap_err(),
        422,
        "invalid task action: unknown field `x`",
    );
}

#[test]
fn rustc_action_schema_checks() {
    assert_error(
        check_rustc_action(3, Err("unused".to_owned())).unwrap_err(),
        422,
        "unsupported rustc action schema 3",
    );
    let error = check_rustc_action(1, Err("unknown field `unknown`".to_owned())).unwrap_err();
    assert!(error.message().starts_with("invalid rustc action:"));
}

#[test]
fn client_metadata_must_match_the_action_kind() {
    let value = head("{\"kind\":\"rustc\",\"version\":1}");
    assert_error(
        classify_metadata(&value, ActionKind::Task).unwrap_err(),
        422,
        "client metadata kind does not match action kind",
    );
    assert_eq!(classify_metadata(&value, ActionKind::Rustc).unwrap(), 1);
    assert_error(
        metadata_head(true, None, Some(1), ActionKind::Task).unwrap_err(),
        422,
        "client metadata kind is required",
    );
    assert_error(
        metadata_head(true, Some("task".to_owned()), None, ActionKind::Task).unwrap_err(),
        422,
        "client metadata version is required",
    );
}

#[test]
fn task_metadata_schema_checks() {
    let metadata = |roots: Vec<&str>| TaskMetadata {
        version: 1,
        kind: "task".to_owned(),
        task_identity: "build:.".to_owned(),
        roots: roots.into_iter().map(str::to_owned).collect(),
        output: vec![TaskOutput { stream: TaskOutputStream::Stdout, line: "ok".to_owned() }],
        restored_bytes: 42,
        execution_duration_ns: 1,
    };
    assert!(check_task_metadata(1, Ok(metadata(vec!["target/debug/widget"]))).is_ok());
    assert_error(
        check_task_metadata(1, Ok(metadata(vec!["ok", "../escape"]))).unwrap_err(),
        422,
        "task metadata root must be a safe relative path",
    );
    assert_error(
        check_task_metadata(2, Ok(metadata(vec![]))).unwrap_err(),
        422,
        "unsupported task metadata schema 2",
    );
    let mut bad = metadata(vec![]);
    bad.kind = "rustc".to_owned();
    assert_error(check_task_metadata(1, Ok(bad)).unwrap_err(), 422, "invalid task metadata values");
}

#[test]
fn rustc_metadata_schema_checks() {
    let good = RustcMetadata {
        version: 1,
        kind: "rustc".to_owned(),
        stdout: digest(b""),
        stderr: digest(b"warning\n"),
    };
    let checked = check_rustc_metadata(1, Ok(good)).unwrap();
    assert_eq!(checked.stderr, digest(b"warning\n"));
    assert_error(
        check_rustc_metadata(1, Err("unknown field `unknown`".to_owned())).unwrap_err(),
        422,
        "invalid rustc metadata: unknown field `unknown`",
    );
    assert_error(require_visible("rustc stderr blob", false).unwrap_err(), 422, "rustc stderr blob is missing");
    assert!(require_visible("rustc stderr blob", true).is_ok());
}

fn subdirectory(name: &str, target: &Digest) -> mise_cache::model::DirectoryNode {
    mise_cache::model::DirectoryNode { digest: target.clone(), mode: 0o755, name: name.to_owned() }
}

fn dir(children: Vec<mise_cache::model::DirectoryNode>) -> Directory {
    Directory { directories: children, files: vec![], symlinks: vec![], version: 1 }
}

#[test]
fn tree_walks_visit_each_directory_once() {
    let (root, a, b) = (digest(b"root"), digest(b"a"), digest(b"b"));
    let mut walk = TreeWalk::new(&root);
    assert_eq!(walk.next_directory().unwrap(), Some(root.clone()));
    walk.descend(&dir(vec![subdirectory("a", &a), subdirectory("b", &b)]));
    assert_eq!(walk.next_directory().unwrap(), Some(b.clone()));
    walk.descend(&dir(vec![subdirectory("shared", &a)]));
    assert_eq!(walk.next_directory().unwrap(), Some(a.clone()));
    walk.descend(&dir(vec![]));
    assert_eq!(walk.next_directory().unwrap(), None);
}

#[test]
fn tree_walks_reject_cycles_and_large_objects() {
    let (root, a) = (digest(b"root"), digest(b"a"));
    let mut walk = TreeWalk::new(&root);
    assert_eq!(walk.next_directory().unwrap(), Some(root.clone()));
    walk.descend(&dir(vec![subdirectory("a", &a)]));
    assert_eq!(walk.next_directory().unwrap(), Some(a.clone()));
    walk.descend(&dir(vec![subdirectory("back", &root)]));
    assert_error(walk.next_directory().unwrap_err(), 422, "directory graph contains a cycle");

    let big = Digest { size: 16 * 1024 * 1024 + 1, ..digest(b"big") };
    let mut walk = TreeWalk::new(&big);
    assert_error(walk.next_directory().unwrap_err(), 422, "directory object is too large");
    assert_error(TreeWalk::missing_object(), 422, "directory object is missing");
}

#[test]
fn directory_objects_must_be_canonical() {
    let artifact = digest(b"rlib artifact");
    let directory = Directory {
        directories: vec![],
        files: vec![FileNode { digest: artifact, executable: false, mode: 420, name: "libwidget.rlib".to_owned() }],
        symlinks: vec![],
        version: 1,
    };
    assert!(check_directory_object(b"{}", Some(&directory), Some(b"{}")).is_ok());
    assert_error(check_directory_object(b"{}", None, None).unwrap_err(), 422, "directory object is invalid");
    assert_error(
        check_directory_object(b"{ }", Some(&directory), Some(b"{}")).unwrap_err(),
        422,
        "directory object is not canonical JSON",
    );
    let old = Directory { version: 2, ..directory };
    assert_error(
        check_directory_object(b"{}", Some(&old), Some(b"{}")).unwrap_err(),
        422,
        "unsupported directory object version",
    );
}

#[test]
fn tree_walks_finish_diamonds_and_catch_deep_cycles() {
    let (root, a, b, c) = (digest(b"root"), digest(b"a"), digest(b"b"), digest(b"c"));
    let mut walk = TreeWalk::new(&root);
    assert_eq!(walk.next_directory().unwrap(), Some(root.clone()));
    walk.descend(&dir(vec![subdirectory("a", &a), subdirectory("b", &b)]));
    assert_eq!(walk.next_directory().unwrap(), Some(b.clone()));
    walk.descend(&dir(vec![subdirectory("c", &c)]));
    assert_eq!(walk.next_directory().unwrap(), Some(c.clone()));
    walk.descend(&dir(vec![]));
    assert_eq!(walk.next_directory().unwrap(), Some(a.clone()));
    walk.descend(&dir(vec![subdirectory("c", &c)]));
    assert_eq!(walk.next_directory().unwrap(), None);

    let mut cyclic = TreeWalk::new(&root);
    assert_eq!(cyclic.next_directory().unwrap(), Some(root.clone()));
    cyclic.descend(&dir(vec![subdirectory("a", &a), subdirectory("b", &b)]));
    assert_eq!(cyclic.next_directory().unwrap(), Some(b.clone()));
    cyclic.descend(&dir(vec![subdirectory("c", &c)]));
    assert_eq!(cyclic.next_directory().unwrap(), Some(c.clone()));
    cyclic.descend(&dir(vec![subdirectory("b", &b)]));
    assert_error(cyclic.next_directory().unwrap_err(), 422, "directory graph contains a cycle");
}

fn head(text: &str) -> mise_cache::objects::JsonObjectHead {
    ObjectRead::start(&digest(text.as_bytes()), "object").unwrap().finish(text.as_bytes()).unwrap()
}
