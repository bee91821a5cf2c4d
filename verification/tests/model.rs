use mise_cache::model::{Algorithm, Digest};

#[test]
fn validates_lowercase_hex_digests() {
    let valid = Digest {
        algorithm: Algorithm::Blake3,
        hash: "a".repeat(64),
        size: 42,
    };
    assert!(valid.validate());
    let invalid = Digest {
        hash: "A".repeat(64),
        ..valid
    };
    assert!(!invalid.validate());
}

use mise_cache::model::{
    RustcAction, RustcCompiler, RustcInput, RustcMetadata, TaskAction, TaskActionManifest,
    TaskActionPrediction, TaskCommandInput, TaskMetadata, TaskOutput, TaskOutputStream, TaskPhase,
    TaskRunEntry, TaskRunGroup, TaskRunSingle, TextMap, selector_bytes, valid_normalized_path,
    valid_string_map, valid_strings,
};
use std::str::FromStr;

fn blake3_digest(bytes: &[u8]) -> Digest {
    Digest {
        algorithm: Algorithm::Blake3,
        hash: blake3::hash(bytes).to_hex().to_string(),
        size: bytes.len() as u64,
    }
}

#[test]
fn digest_keys_name_algorithm_hash_and_size() {
    let digest = Digest {
        algorithm: Algorithm::Sha256,
        hash: "0123456789abcdef".repeat(4),
        size: 1234567,
    };
    assert_eq!(digest.key(), format!("sha256/{}/1234567", "0123456789abcdef".repeat(4)));
    let zero = Digest { algorithm: Algorithm::Blake3, hash: "f".repeat(64), size: 0 };
    assert_eq!(zero.key(), format!("blake3/{}/0", "f".repeat(64)));
}

#[test]
fn digest_validation_edges() {
    let short = Digest { algorithm: Algorithm::Blake3, hash: "a".repeat(63), size: 1 };
    assert!(!short.validate());
    let long = Digest { algorithm: Algorithm::Blake3, hash: "a".repeat(65), size: 1 };
    assert!(!long.validate());
    let letter_g = Digest { algorithm: Algorithm::Blake3, hash: format!("{}g", "a".repeat(63)), size: 1 };
    assert!(!letter_g.validate());
    let digits = Digest { algorithm: Algorithm::Sha256, hash: "9".repeat(64), size: 1 };
    assert!(digits.validate());
}

#[test]
fn algorithm_names_round_trip() {
    assert_eq!(Algorithm::Blake3.name(), "blake3");
    assert_eq!(Algorithm::Sha256.name(), "sha256");
    assert_eq!(Algorithm::from_name("blake3"), Some(Algorithm::Blake3));
    assert_eq!(Algorithm::from_name("sha256"), Some(Algorithm::Sha256));
    assert_eq!(Algorithm::from_name("SHA256"), None);
    assert_eq!(Algorithm::from_str("md5"), Err("unsupported digest algorithm"));
}

fn prediction(invocation: &[u8]) -> TaskActionPrediction {
    TaskActionPrediction {
        action: blake3_digest(b"action"),
        adapter: "cargo-build_1".to_owned(),
        invocation: blake3_digest(invocation),
        payload: "{\"args\":[1,2]}".to_owned(),
    }
}

fn manifest(predictions: Vec<TaskActionPrediction>) -> TaskActionManifest {
    TaskActionManifest { predictions, task: "0".repeat(64), version: 1 }
}

#[test]
fn manifests_need_unique_valid_predictions() {
    assert!(manifest(vec![prediction(b"one"), prediction(b"two")]).validate());
    assert!(!manifest(vec![prediction(b"one"), prediction(b"one")]).validate());
    let mut bad_payload = prediction(b"three");
    bad_payload.payload = "{not json".to_owned();
    assert!(!manifest(vec![bad_payload]).validate());
    let mut bad_adapter = prediction(b"four");
    bad_adapter.adapter = "cargo build".to_owned();
    assert!(!manifest(vec![bad_adapter]).validate());
    let mut sha = prediction(b"five");
    sha.invocation.algorithm = Algorithm::Sha256;
    assert!(!manifest(vec![sha]).validate());
    let mut wrong_version = manifest(vec![]);
    wrong_version.version = 2;
    assert!(!wrong_version.validate());
    let mut bad_task = manifest(vec![]);
    bad_task.task = "build".to_owned();
    assert!(!bad_task.validate());
}

#[test]
fn selector_digest_is_the_blake3_of_the_canonical_selector() {
    let mut m = manifest(vec![]);
    let expected = format!(
        "{{\"kind\":\"task_action_manifest\",\"task\":\"{}\",\"version\":1}}",
        "0".repeat(64)
    );
    assert_eq!(selector_bytes(&m.task), expected.as_bytes());
    let digest = m.selector_digest();
    assert_eq!(digest, blake3_digest(expected.as_bytes()));
    assert!(digest.validate());
    m.predictions.push(prediction(b"x"));
    assert_eq!(m.selector_digest(), digest);
    assert_eq!(selector_bytes("a\"b"), b"{\"kind\":\"task_action_manifest\",\"task\":\"a\\\"b\",\"version\":1}");
}

fn task_action() -> TaskAction {
    TaskAction {
        version: 1,
        kind: "task".to_owned(),
        task: "build".to_owned(),
        phase: TaskPhase::Normal,
        run: vec![
            TaskRunEntry::Script("cargo build".to_owned()),
            TaskRunEntry::Single(TaskRunSingle {
                task: "lint".to_owned(),
                args: vec!["--fix".to_owned()],
                env: map(vec![("RUST_LOG", "info".to_owned())]),
            }),
            TaskRunEntry::Group(TaskRunGroup { tasks: vec!["a".to_owned(), "b".to_owned()] }),
        ],
        args: vec![],
        shell: None,
        outputs: vec!["target/debug/widget".to_owned()],
        root: ".".to_owned(),
        source_hash: "blake3:source".to_owned(),
        dependency_keys: vec![],
        environment: map(vec![("HOME", None), ("PATH", Some("/bin".to_owned()))]),
        command_inputs: vec![TaskCommandInput {
            command: "git rev-parse HEAD".to_owned(),
            stdout_hash: "x".to_owned(),
            stderr_hash: "y".to_owned(),
        }],
        vars: TextMap::new(),
        tools: vec!["core:rust@1.92.0".to_owned()],
        os: "linux".to_owned(),
        arch: "x86_64".to_owned(),
    }
}

#[test]
fn task_actions_hold_no_nul() {
    assert!(task_action().validate());
    let mut nul = task_action();
    nul.shell = Some("sh\0".to_owned());
    assert!(!nul.validate());
    let mut nested = task_action();
    nested.run.push(TaskRunEntry::Single(TaskRunSingle {
        task: "t".to_owned(),
        args: vec![],
        env: map(vec![("K", "v\0".to_owned())]),
    }));
    assert!(!nested.validate());
    let mut kind = task_action();
    kind.kind = "rustc".to_owned();
    assert!(!kind.validate());
    let mut version = task_action();
    version.version = 2;
    assert!(!version.validate());
    assert!(valid_strings(&["a".to_owned(), "b".to_owned()]));
    assert!(!valid_strings(&["a".to_owned(), "\0".to_owned()]));
    assert!(!valid_string_map(&[("k\0".to_owned(), "v".to_owned())]));
}

#[test]
fn task_metadata_checks() {
    let metadata = TaskMetadata {
        version: 1,
        kind: "task".to_owned(),
        task_identity: "build:.".to_owned(),
        roots: vec!["target/debug/widget".to_owned()],
        output: vec![TaskOutput { stream: TaskOutputStream::Stdout, line: "built widget".to_owned() }],
        restored_bytes: 42,
        execution_duration_ns: 1,
    };
    assert!(metadata.validate());
    let bad = TaskMetadata {
        output: vec![TaskOutput { stream: TaskOutputStream::Stderr, line: "\0".to_owned() }],
        ..metadata
    };
    assert!(!bad.validate());
}

fn rustc_action(path: &str) -> RustcAction {
    RustcAction {
        version: 1,
        kind: "rustc".to_owned(),
        adapter_version: 1,
        compiler: RustcCompiler {
            toolchain: "core:rust@1.97.1".to_owned(),
            rustc_version: "1.97.1 (test)".to_owned(),
            host: "x86_64-unknown-linux-gnu".to_owned(),
        },
        arguments: vec!["--crate-name=widget".to_owned()],
        environment: map(vec![("CARGO_PKG_VERSION", Some("1.0.0".to_owned()))]),
        inputs: vec![RustcInput { path: path.to_owned(), digest: blake3_digest(b"pub fn widget() {}\n") }],
    }
}

#[test]
fn rustc_actions_need_normalized_unique_inputs() {
    assert!(rustc_action("${workspace}/src/lib.rs").validate());
    assert!(!rustc_action("../src/lib.rs").validate());
    let mut twice = rustc_action("${workspace}/src/lib.rs");
    twice.inputs.push(RustcInput {
        path: "${workspace}/src/lib.rs".to_owned(),
        digest: blake3_digest(b"other"),
    });
    assert!(!twice.validate());
    let mut none = rustc_action("${workspace}/src/lib.rs");
    none.inputs.clear();
    assert!(!none.validate());
    let mut adapter = rustc_action("${workspace}/src/lib.rs");
    adapter.adapter_version = 0;
    assert!(!adapter.validate());
    let mut empty_key = rustc_action("${workspace}/src/lib.rs");
    empty_key.environment.insert(String::new(), None);
    assert!(!empty_key.validate());
    let mut compiler = rustc_action("${workspace}/src/lib.rs");
    compiler.compiler.host = String::new();
    assert!(!compiler.validate());
}

#[test]
fn normalized_paths() {
    assert!(valid_normalized_path("${workspace}/src/lib.rs"));
    assert!(valid_normalized_path("${target}"));
    assert!(valid_normalized_path("${a_B9}/x"));
    assert!(!valid_normalized_path("${}/x"));
    assert!(!valid_normalized_path("${a-b}/x"));
    assert!(!valid_normalized_path("${a}/"));
    assert!(!valid_normalized_path("${a}x"));
    assert!(!valid_normalized_path("${a}/x/../y"));
    assert!(!valid_normalized_path("${a}/x//y"));
    assert!(!valid_normalized_path("${a}/x\\y"));
    assert!(!valid_normalized_path("${a"));
    assert!(!valid_normalized_path("$a}/x"));
    assert!(valid_normalized_path("${a}/b}c"));
}

#[test]
fn rustc_metadata_checks() {
    let metadata = RustcMetadata {
        version: 1,
        kind: "rustc".to_owned(),
        stdout: blake3_digest(b""),
        stderr: blake3_digest(b"warning\n"),
    };
    assert!(metadata.validate());
    let bad = RustcMetadata { kind: "task".to_owned(), ..metadata };
    assert!(!bad.validate());
}

#[test]
fn maps_keep_keys_in_byte_order_once_each() {
    let mut m: TextMap<String> = TextMap::new();
    m.insert("b".to_owned(), "1".to_owned());
    m.insert("a".to_owned(), "2".to_owned());
    m.insert("Z".to_owned(), "3".to_owned());
    m.insert("ab".to_owned(), "4".to_owned());
    m.insert("a".to_owned(), "5".to_owned());
    let keys: Vec<&str> = m.entries().iter().map(|(k, _)| k.as_str()).collect();
    assert_eq!(keys, vec!["Z", "a", "ab", "b"]);
    let values: Vec<&str> = m.entries().iter().map(|(_, v)| v.as_str()).collect();
    assert_eq!(values, vec!["3", "5", "4", "1"]);
    let mut action = task_action();
    action.vars = m;
    assert!(action.validate());
    action.vars.insert("K".to_owned(), "v\0".to_owned());
    assert!(!action.validate());
}

#[test]
fn selector_of_a_plain_task_is_53_bytes_longer() {
    let mut m = manifest(vec![]);
    m.task = "a".repeat(64);
    let digest = m.selector_digest();
    assert_eq!(digest.size, 117);
    assert_eq!(selector_bytes("tab\there").len(), 53 + "tab\\there".len());
    assert_eq!(selector_bytes("\u{1}"), b"{\"kind\":\"task_action_manifest\",\"task\":\"\\u0001\",\"version\":1}");
}

#[test]
fn different_valid_digests_have_different_keys() {
    let a = Digest { algorithm: Algorithm::Blake3, hash: "a".repeat(64), size: 1 };
    let b = Digest { algorithm: Algorithm::Sha256, hash: "a".repeat(64), size: 1 };
    let c = Digest { algorithm: Algorithm::Blake3, hash: "a".repeat(64), size: 11 };
    assert_ne!(a.key(), b.key());
    assert_ne!(a.key(), c.key());
    assert_eq!(a.key(), a.clone().key());
}

fn map<V>(entries: Vec<(&str, V)>) -> TextMap<V> {
    let mut out = TextMap::new();
    for (key, value) in entries {
        out.insert(key.to_owned(), value);
    }
    out
}
