//! The JSON objects an action result refers to: the action descriptor and
//! the client metadata. Each is read from a visible blob, must be canonical
//! JSON, and must follow the schema of its kind and version.

use crate::json::{
    debug_quoted, debug_text, encode_json_value, json_document, json_encoding, json_member_names,
    json_member_text, json_member_u64, json_object_keys, json_text_member, json_u64_member,
    parse_json_value,
};
use crate::model::{
    Digest, RustcAction, RustcMetadata, TaskAction, TaskMetadata, digest_valid, rustc_kind,
    task_kind,
};
use crate::server::{
    ActionKind, ApiError, ApiErrorView, error_view, invalid_digest_view, safe_relative_path,
    validate_digest, validate_task_root,
};
use crate::text::{concat, concat3, decimal, decimal_text, same_text, utf8};
use vstd::prelude::*;

verus! {

/// The largest JSON object the server reads: 16 MiB.
pub const MAX_OBJECT_BYTES: u64 = 16777216;

/// What the checks read of a canonical JSON object: its member names, and
/// its `kind` and `version` members where they are a string and an unsigned
/// integer.
#[derive(Debug)]
pub struct JsonObjectHead {
    pub keys: Vec<String>,
    pub kind: Option<String>,
    pub version: Option<u64>,
}

/// A JSON object head by value.
pub struct JsonObjectHeadView {
    pub keys: Seq<Seq<char>>,
    pub kind: Option<Seq<char>>,
    pub version: Option<u64>,
}

impl View for JsonObjectHead {
    type V = JsonObjectHeadView;

    open spec fn view(&self) -> JsonObjectHeadView {
        JsonObjectHeadView {
            keys: crate::json::text_views(self.keys@),
            kind: optional_text_view(self.kind),
            version: self.version,
        }
    }
}

/// The head of a document that is an object.
pub open spec fn head_of(value: serde_json::Value) -> JsonObjectHeadView {
    JsonObjectHeadView {
        keys: match json_member_names(value) {
            Some(names) => names,
            None => Seq::empty(),
        },
        kind: json_text_member(value, "kind"@),
        version: json_u64_member(value, "version"@),
    }
}

/// The read of one JSON object, named for its errors by `label`.
pub struct ObjectRead {
    label: String,
}

impl ObjectRead {
    /// The label of the object.
    pub closed spec fn label(&self) -> Seq<char> {
        self.label@
    }

    /// Starts reading the object `digest` names: 400 when the digest is not
    /// valid, 422 when the object would be larger than 16 MiB.
    pub fn start(digest: &Digest, label: &str) -> (r: Result<ObjectRead, ApiError>)
        ensures
            match r {
                Ok(read) => digest_valid(digest@) && digest.size <= MAX_OBJECT_BYTES
                    && read.label() == label@,
                Err(e) => if !digest_valid(digest@) {
                    e@ == invalid_digest_view()
                } else {
                    digest.size > MAX_OBJECT_BYTES && e@ == error_view(
                        422,
                        label@ + " is too large"@,
                    )
                },
            },
    {
        validate_digest(digest)?;
        if digest.size > MAX_OBJECT_BYTES {
            return Err(ApiError::unprocessable(concat(label, " is too large").as_str()));
        }
        Ok(ObjectRead { label: String::from_str(label) })
    }

    /// The error for an object whose blob is not visible or not stored.
    pub fn missing(&self) -> (r: ApiError)
        ensures
            r@ == error_view(422, self.label() + " blob is missing"@),
    {
        ApiError::unprocessable(concat(self.label.as_str(), " blob is missing").as_str())
    }

    /// Parses the bytes of the object (see `object_outcome`) and reads its
    /// head: 422 when they are not JSON or not a canonical JSON object.
    pub fn finish(&self, bytes: &[u8]) -> (r: Result<JsonObjectHead, ApiError>)
        ensures
            match (r, object_outcome(self.label(), bytes@)) {
                (Ok(head), Ok(expected)) => head@ == head_of(expected),
                (Err(e), Err(expected)) => e@ == expected,
                _ => false,
            },
    {
        let value = match parse_json_value(bytes) {
            Some(value) => value,
            None => {
                return Err(
                    ApiError::unprocessable(concat(self.label.as_str(), " is invalid JSON").as_str()),
                );
            },
        };
        let is_object = json_object_keys(&value).is_some();
        let encoded = if is_object {
            encode_json_value(&value)
        } else {
            None
        };
        let encoded_ref = match &encoded {
            Some(e) => Some(e.as_slice()),
            None => None,
        };
        check_canonical_object(self.label.as_str(), bytes, is_object, encoded_ref)?;
        let keys = match json_object_keys(&value) {
            Some(keys) => keys,
            None => Vec::new(),
        };
        Ok(JsonObjectHead {
            keys,
            kind: json_member_text(&value, "kind"),
            version: json_member_u64(&value, "version"),
        })
    }
}

/// A parsed object is accepted when it is a JSON object whose compact
/// encoding is exactly the bytes read: 422 otherwise, and 500 when the
/// encoding fails.
pub open spec fn canonical_check(
    label: Seq<char>,
    bytes: Seq<u8>,
    is_object: bool,
    encoded: Option<Seq<u8>>,
) -> Result<(), ApiErrorView> {
    if !is_object {
        Err(error_view(422, label + " is not canonical JSON"@))
    } else {
        match encoded {
            None => Err(error_view(500, "internal server error"@)),
            Some(text) => if text == bytes {
                Ok(())
            } else {
                Err(error_view(422, label + " is not canonical JSON"@))
            },
        }
    }
}

/// What reading an object's bytes gives: the document, when the bytes hold
/// one that is a canonical JSON object (see `canonical_check`); 422 when
/// they hold no JSON document.
pub open spec fn object_outcome(label: Seq<char>, bytes: Seq<u8>) -> Result<
    serde_json::Value,
    ApiErrorView,
> {
    match json_document(bytes) {
        None => Err(error_view(422, label + " is invalid JSON"@)),
        Some(value) => {
            let is_object = json_member_names(value) is Some;
            let encoded = if is_object {
                json_encoding(value)
            } else {
                None
            };
            match canonical_check(label, bytes, is_object, encoded) {
                Ok(()) => Ok(value),
                Err(e) => Err(e),
            }
        },
    }
}

/// Checks a parsed object (see `canonical_check`), given whether it is a
/// JSON object and its compact encoding.
pub fn check_canonical_object(
    label: &str,
    bytes: &[u8],
    is_object: bool,
    encoded: Option<&[u8]>,
) -> (r: Result<(), ApiError>)
    ensures
        ({
            let e = match encoded {
                Some(text) => Some(text@),
                None => None,
            };
            match (r, canonical_check(label@, bytes@, is_object, e)) {
                (Ok(()), Ok(())) => true,
                (Err(err), Err(expected)) => err@ == expected,
                _ => false,
            }
        }),
{
    if !is_object {
        return Err(ApiError::unprocessable(concat(label, " is not canonical JSON").as_str()));
    }
    match encoded {
        None => Err(ApiError::internal()),
        Some(text) => if crate::text::bytes_equal(text, bytes) {
            Ok(())
        } else {
            Err(ApiError::unprocessable(concat(label, " is not canonical JSON").as_str()))
        },
    }
}

/// The kind and schema version an action descriptor declares, or the error
/// for a descriptor that does not declare a supported one.
pub open spec fn descriptor_head_spec(
    is_object: bool,
    kind: Option<Seq<char>>,
    version: Option<u64>,
) -> Result<(ActionKind, u64), ApiErrorView> {
    if !is_object {
        Err(error_view(422, "action descriptor must be a JSON object"@))
    } else if kind is None {
        Err(error_view(422, "action descriptor kind is required"@))
    } else if version is None {
        Err(error_view(422, "action descriptor version is required"@))
    } else if kind.unwrap() == task_kind() {
        Ok((ActionKind::Task, version.unwrap()))
    } else if kind.unwrap() == rustc_kind() {
        Ok((ActionKind::Rustc, version.unwrap()))
    } else {
        Err(error_view(422, "unsupported action kind "@ + debug_text(kind.unwrap())))
    }
}

/// The value of an optional text.
pub open spec fn optional_text_view(text: Option<String>) -> Option<Seq<char>> {
    match text {
        Some(t) => Some(t@),
        None => None,
    }
}

fn kind_is(kind: &String, expected: ActionKind) -> (r: bool)
    ensures
        r == (kind@ == match expected {
            ActionKind::Task => task_kind(),
            ActionKind::Rustc => rustc_kind(),
        }),
{
    proof {
        reveal_strlit("task");
        reveal_strlit("rustc");
        assert("task"@ =~= task_kind());
        assert("rustc"@ =~= rustc_kind());
    }
    match expected {
        ActionKind::Task => same_text(kind.as_str(), "task"),
        ActionKind::Rustc => same_text(kind.as_str(), "rustc"),
    }
}

/// Reads the kind and version an action descriptor declares (see
/// `descriptor_head_spec`).
pub fn descriptor_head(is_object: bool, kind: Option<String>, version: Option<u64>) -> (r: Result<
    (ActionKind, u64),
    ApiError,
>)
    ensures
        match (r, descriptor_head_spec(is_object, optional_text_view(kind), version)) {
            (Ok(got), Ok(expected)) => got == expected,
            (Err(e), Err(expected)) => e@ == expected,
            _ => false,
        },
{
    if !is_object {
        return Err(ApiError::unprocessable("action descriptor must be a JSON object"));
    }
    let kind = match kind {
        Some(k) => k,
        None => {
            return Err(ApiError::unprocessable("action descriptor kind is required"));
        },
    };
    let version = match version {
        Some(v) => v,
        None => {
            return Err(ApiError::unprocessable("action descriptor version is required"));
        },
    };
    if kind_is(&kind, ActionKind::Task) {
        Ok((ActionKind::Task, version))
    } else if kind_is(&kind, ActionKind::Rustc) {
        Ok((ActionKind::Rustc, version))
    } else {
        let quoted = debug_quoted(kind.as_str());
        Err(ApiError::unprocessable(concat("unsupported action kind ", quoted.as_str()).as_str()))
    }
}

/// Reads the kind and version a parsed action descriptor declares (see
/// `descriptor_head`); the descriptor is a JSON object.
pub fn classify_descriptor(head: &JsonObjectHead) -> (r: Result<(ActionKind, u64), ApiError>)
    ensures
        match (r, descriptor_head_spec(true, head@.kind, head@.version)) {
            (Ok(got), Ok(expected)) => got == expected,
            (Err(e), Err(expected)) => e@ == expected,
            _ => false,
        },
{
    descriptor_head(true, head.kind.clone(), head.version)
}

/// The members a task action descriptor must have, in the order they are
/// checked.
pub open spec fn task_field(i: int) -> Seq<char> {
    if i == 0 {
        "version"@
    } else if i == 1 {
        "kind"@
    } else if i == 2 {
        "task"@
    } else if i == 3 {
        "phase"@
    } else if i == 4 {
        "run"@
    } else if i == 5 {
        "args"@
    } else if i == 6 {
        "shell"@
    } else if i == 7 {
        "outputs"@
    } else if i == 8 {
        "root"@
    } else if i == 9 {
        "source_hash"@
    } else if i == 10 {
        "environment"@
    } else if i == 11 {
        "vars"@
    } else if i == 12 {
        "tools"@
    } else if i == 13 {
        "os"@
    } else {
        "arch"@
    }
}

/// The number of required task action members.
pub const TASK_FIELD_COUNT: usize = 15;

fn task_field_name(i: usize) -> (r: &'static str)
    requires
        i < TASK_FIELD_COUNT,
    ensures
        r@ == task_field(i as int),
{
    if i == 0 {
        "version"
    } else if i == 1 {
        "kind"
    } else if i == 2 {
        "task"
    } else if i == 3 {
        "phase"
    } else if i == 4 {
        "run"
    } else if i == 5 {
        "args"
    } else if i == 6 {
        "shell"
    } else if i == 7 {
        "outputs"
    } else if i == 8 {
        "root"
    } else if i == 9 {
        "source_hash"
    } else if i == 10 {
        "environment"
    } else if i == 11 {
        "vars"
    } else if i == 12 {
        "tools"
    } else if i == 13 {
        "os"
    } else {
        "arch"
    }
}

/// Whether `name` is among `keys`.
pub open spec fn has_key(keys: Seq<String>, name: Seq<char>) -> bool {
    exists|i: int| 0 <= i < keys.len() && (#[trigger] keys[i])@ == name
}

fn contains_key(keys: &[String], name: &str) -> (r: bool)
    ensures
        r == has_key(keys@, name@),
{
    let mut i: usize = 0;
    while i < keys.len()
        invariant
            i <= keys@.len(),
            forall|j: int| 0 <= j < i ==> (#[trigger] keys@[j])@ != name@,
        decreases keys@.len() - i,
    {
        if same_text(keys[i].as_str(), name) {
            return true;
        }
        i = i + 1;
    }
    false
}

/// The outcome of the schema checks of a task action descriptor: its
/// version must be 1, it must have every required member, it must parse as
/// a task action, and that action must be valid.
pub open spec fn task_action_check(
    version: u64,
    keys: Seq<String>,
    parsed: Result<TaskAction, Seq<char>>,
) -> Result<ActionKind, ApiErrorView> {
    if version != 1 {
        Err(error_view(422, "unsupported task action schema "@ + decimal(version as nat)))
    } else if exists|i: int| 0 <= i < TASK_FIELD_COUNT && !has_key(keys, #[trigger] task_field(i)) {
        let i = choose|i: int|
            0 <= i < TASK_FIELD_COUNT && !has_key(keys, #[trigger] task_field(i)) && forall|j: int|
                0 <= j < i ==> has_key(keys, #[trigger] task_field(j));
        Err(error_view(422, "task action field \""@ + task_field(i) + "\" is required"@))
    } else {
        match parsed {
            Err(message) => Err(error_view(422, "invalid task action: "@ + message)),
            Ok(action) => if action.spec_valid() {
                Ok(ActionKind::Task)
            } else {
                Err(error_view(422, "invalid task action values"@))
            },
        }
    }
}

/// The value of a parse outcome.
pub open spec fn parse_view<T>(parsed: Result<T, String>) -> Result<T, Seq<char>> {
    match parsed {
        Ok(v) => Ok(v),
        Err(e) => Err(e@),
    }
}

/// Checks a task action descriptor (see `task_action_check`), given its
/// declared version, its member names and the outcome of parsing it as a
/// task action.
#[verifier::loop_isolation(false)]
pub fn check_task_action(version: u64, keys: &[String], parsed: Result<TaskAction, String>) -> (r:
    Result<ActionKind, ApiError>)
    ensures
        match (r, task_action_check(version, keys@, parse_view(parsed))) {
            (Ok(got), Ok(expected)) => got == expected,
            (Err(e), Err(expected)) => e@ == expected,
            _ => false,
        },
{
    if version != 1 {
        let n = decimal_text(version);
        return Err(
            ApiError::unprocessable(concat("unsupported task action schema ", n.as_str()).as_str()),
        );
    }
    let mut i: usize = 0;
    while i < TASK_FIELD_COUNT
        invariant
            i <= TASK_FIELD_COUNT,
            forall|j: int| 0 <= j < i ==> has_key(keys@, #[trigger] task_field(j)),
        decreases TASK_FIELD_COUNT - i,
    {
        let field = task_field_name(i);
        if !contains_key(keys, field) {
            proof {
                assert(!has_key(keys@, task_field(i as int)));
                assert(forall|j: int| 0 <= j < i ==> has_key(keys@, #[trigger] task_field(j)));
                let spec_i = choose|k: int|
                    0 <= k < TASK_FIELD_COUNT && !has_key(keys@, #[trigger] task_field(k))
                        && forall|j: int| 0 <= j < k ==> has_key(keys@, #[trigger] task_field(j));
                assert(spec_i == i) by {
                    if spec_i < i {
                        assert(has_key(keys@, task_field(spec_i)));
                    } else if spec_i > i {
                        assert(has_key(keys@, task_field(i as int)));
                    }
                }
            }
            return Err(
                ApiError::unprocessable(
                    concat3("task action field \"", field, "\" is required").as_str(),
                ),
            );
        }
        i = i + 1;
    }
    match parsed {
        Err(message) => Err(
            ApiError::unprocessable(concat("invalid task action: ", message.as_str()).as_str()),
        ),
        Ok(action) => if action.validate() {
            Ok(ActionKind::Task)
        } else {
            Err(ApiError::unprocessable("invalid task action values"))
        },
    }
}

/// The outcome of the schema checks of a rustc action descriptor: version
/// 1, parsed as a rustc action, and valid.
pub open spec fn rustc_action_check(version: u64, parsed: Result<RustcAction, Seq<char>>) -> Result<
    ActionKind,
    ApiErrorView,
> {
    if version != 1 {
        Err(error_view(422, "unsupported rustc action schema "@ + decimal(version as nat)))
    } else {
        match parsed {
            Err(message) => Err(error_view(422, "invalid rustc action: "@ + message)),
            Ok(action) => if action.spec_valid() {
                Ok(ActionKind::Rustc)
            } else {
                Err(error_view(422, "invalid rustc action values"@))
            },
        }
    }
}

/// Checks a rustc action descriptor (see `rustc_action_check`).
pub fn check_rustc_action(version: u64, parsed: Result<RustcAction, String>) -> (r: Result<
    ActionKind,
    ApiError,
>)
    ensures
        match (r, rustc_action_check(version, parse_view(parsed))) {
            (Ok(got), Ok(expected)) => got == expected,
            (Err(e), Err(expected)) => e@ == expected,
            _ => false,
        },
{
    if version != 1 {
        let n = decimal_text(version);
        return Err(
            ApiError::unprocessable(concat("unsupported rustc action schema ", n.as_str()).as_str()),
        );
    }
    match parsed {
        Err(message) => Err(
            ApiError::unprocessable(concat("invalid rustc action: ", message.as_str()).as_str()),
        ),
        Ok(action) => if action.validate() {
            Ok(ActionKind::Rustc)
        } else {
            Err(ApiError::unprocessable("invalid rustc action values"))
        },
    }
}

/// The schema version client metadata declares, or the error for metadata
/// that does not declare the kind of its action.
pub open spec fn metadata_head_spec(
    is_object: bool,
    kind: Option<Seq<char>>,
    version: Option<u64>,
    action_kind: ActionKind,
) -> Result<u64, ApiErrorView> {
    if !is_object {
        Err(error_view(422, "client metadata must be a JSON object"@))
    } else if kind is None {
        Err(error_view(422, "client metadata kind is required"@))
    } else if version is None {
        Err(error_view(422, "client metadata version is required"@))
    } else if kind.unwrap() != match action_kind {
        ActionKind::Task => task_kind(),
        ActionKind::Rustc => rustc_kind(),
    } {
        Err(error_view(422, "client metadata kind does not match action kind"@))
    } else {
        Ok(version.unwrap())
    }
}

/// Reads the version client metadata declares (see `metadata_head_spec`).
pub fn metadata_head(
    is_object: bool,
    kind: Option<String>,
    version: Option<u64>,
    action_kind: ActionKind,
) -> (r: Result<u64, ApiError>)
    ensures
        match (r, metadata_head_spec(is_object, optional_text_view(kind), version, action_kind)) {
            (Ok(got), Ok(expected)) => got == expected,
            (Err(e), Err(expected)) => e@ == expected,
            _ => false,
        },
{
    if !is_object {
        return Err(ApiError::unprocessable("client metadata must be a JSON object"));
    }
    let kind = match kind {
        Some(k) => k,
        None => {
            return Err(ApiError::unprocessable("client metadata kind is required"));
        },
    };
    let version = match version {
        Some(v) => v,
        None => {
            return Err(ApiError::unprocessable("client metadata version is required"));
        },
    };
    if !kind_is(&kind, action_kind) {
        return Err(ApiError::unprocessable("client metadata kind does not match action kind"));
    }
    Ok(version)
}

/// Reads the version parsed client metadata declares (see
/// `metadata_head`); the metadata is a JSON object.
pub fn classify_metadata(head: &JsonObjectHead, action_kind: ActionKind) -> (r: Result<
    u64,
    ApiError,
>)
    ensures
        match (r, metadata_head_spec(true, head@.kind, head@.version, action_kind)) {
            (Ok(got), Ok(expected)) => got == expected,
            (Err(e), Err(expected)) => e@ == expected,
            _ => false,
        },
{
    metadata_head(true, head.kind.clone(), head.version, action_kind)
}

/// The outcome of the schema checks of task metadata: version 1, parsed as
/// task metadata, valid, and every root a safe relative path.
pub open spec fn task_metadata_check(version: u64, parsed: Result<TaskMetadata, Seq<char>>) -> Result<
    (),
    ApiErrorView,
> {
    if version != 1 {
        Err(error_view(422, "unsupported task metadata schema "@ + decimal(version as nat)))
    } else {
        match parsed {
            Err(message) => Err(error_view(422, "invalid task metadata: "@ + message)),
            Ok(metadata) => if !metadata.spec_valid() {
                Err(error_view(422, "invalid task metadata values"@))
            } else if exists|i: int|
                0 <= i < metadata.roots@.len() && !safe_relative_path(
                    utf8((#[trigger] metadata.roots@[i])@),
                ) {
                Err(error_view(422, "task metadata root must be a safe relative path"@))
            } else {
                Ok(())
            },
        }
    }
}

/// Checks task metadata (see `task_metadata_check`).
#[verifier::loop_isolation(false)]
pub fn check_task_metadata(version: u64, parsed: Result<TaskMetadata, String>) -> (r: Result<
    (),
    ApiError,
>)
    ensures
        match (r, task_metadata_check(version, parse_view(parsed))) {
            (Ok(()), Ok(())) => true,
            (Err(e), Err(expected)) => e@ == expected,
            _ => false,
        },
{
    if version != 1 {
        let n = decimal_text(version);
        return Err(
            ApiError::unprocessable(
                concat("unsupported task metadata schema ", n.as_str()).as_str(),
            ),
        );
    }
    let metadata = match parsed {
        Err(message) => {
            return Err(
                ApiError::unprocessable(concat("invalid task metadata: ", message.as_str()).as_str()),
            );
        },
        Ok(metadata) => metadata,
    };
    if !metadata.validate() {
        return Err(ApiError::unprocessable("invalid task metadata values"));
    }
    let mut i: usize = 0;
    while i < metadata.roots.len()
        invariant
            i <= metadata.roots@.len(),
            forall|j: int|
                0 <= j < i ==> safe_relative_path(utf8((#[trigger] metadata.roots@[j])@)),
        decreases metadata.roots@.len() - i,
    {
        validate_task_root(metadata.roots[i].as_str())?;
        i = i + 1;
    }
    Ok(())
}

/// The outcome of the schema checks of rustc metadata: version 1, parsed as
/// rustc metadata, and valid.
pub open spec fn rustc_metadata_check(version: u64, parsed: Result<RustcMetadata, Seq<char>>) -> Result<
    RustcMetadata,
    ApiErrorView,
> {
    if version != 1 {
        Err(error_view(422, "unsupported rustc metadata schema "@ + decimal(version as nat)))
    } else {
        match parsed {
            Err(message) => Err(error_view(422, "invalid rustc metadata: "@ + message)),
            Ok(metadata) => if metadata.spec_valid() {
                Ok(metadata)
            } else {
                Err(error_view(422, "invalid rustc metadata values"@))
            },
        }
    }
}

/// Checks rustc metadata (see `rustc_metadata_check`), and returns it for the
/// checks of the diagnostic blobs it names.
pub fn check_rustc_metadata(version: u64, parsed: Result<RustcMetadata, String>) -> (r: Result<
    RustcMetadata,
    ApiError,
>)
    ensures
        match (r, rustc_metadata_check(version, parse_view(parsed))) {
            (Ok(got), Ok(expected)) => got == expected,
            (Err(e), Err(expected)) => e@ == expected,
            _ => false,
        },
{
    if version != 1 {
        let n = decimal_text(version);
        return Err(
            ApiError::unprocessable(
                concat("unsupported rustc metadata schema ", n.as_str()).as_str(),
            ),
        );
    }
    match parsed {
        Err(message) => Err(
            ApiError::unprocessable(concat("invalid rustc metadata: ", message.as_str()).as_str()),
        ),
        Ok(metadata) => if metadata.validate() {
            Ok(metadata)
        } else {
            Err(ApiError::unprocessable("invalid rustc metadata values"))
        },
    }
}

/// The answer to a reference that must name a visible blob: 422
/// `<label> is missing` when it does not.
pub fn require_visible(label: &str, visible: bool) -> (r: Result<(), ApiError>)
    ensures
        match r {
            Ok(()) => visible,
            Err(e) => !visible && e@ == error_view(422, label@ + " is missing"@),
        },
{
    if visible {
        Ok(())
    } else {
        Err(ApiError::unprocessable(concat(label, " is missing").as_str()))
    }
}

} // verus!
