//! Digests, action results, task-action manifests, action descriptors, client
//! metadata and directory objects, with the schema checks the cache applies
//! before it accepts them.

use crate::collections::{
    digest_key_set_elements, digest_key_set_insert, digest_key_set_new, text_set_elements,
    text_set_insert, text_set_new,
};
use crate::json::{is_json_text, json_text_parses};
use crate::text::{
    all_components_plain, has_byte, is_ascii_alnum, no_nul, plain_components, same_text,
    str_bytes, string_bytes, utf8, valid_string,
};
use vstd::prelude::*;
use vstd::string::StringExecFns;

verus! {

/// A content-hash algorithm accepted by the cache.
#[derive(Clone, Copy, Debug, PartialEq, Eq, Structural, PartialOrd, Ord, Hash)]
pub enum Algorithm {
    Blake3,
    Sha256,
}

/// The lowercase name of an algorithm, as it appears in keys and URLs.
pub open spec fn algorithm_name(algorithm: Algorithm) -> Seq<char> {
    match algorithm {
        Algorithm::Blake3 => seq!['b', 'l', 'a', 'k', 'e', '3'],
        Algorithm::Sha256 => seq!['s', 'h', 'a', '2', '5', '6'],
    }
}

/// The algorithm a lowercase name names, if any.
pub open spec fn algorithm_from_name(text: Seq<char>) -> Option<Algorithm> {
    if text == algorithm_name(Algorithm::Blake3) {
        Some(Algorithm::Blake3)
    } else if text == algorithm_name(Algorithm::Sha256) {
        Some(Algorithm::Sha256)
    } else {
        None
    }
}

/// A small number for each algorithm, used as a set key.
pub open spec fn algorithm_code(algorithm: Algorithm) -> u8 {
    match algorithm {
        Algorithm::Blake3 => 1,
        Algorithm::Sha256 => 2,
    }
}

impl Algorithm {
    /// The lowercase name: `blake3` or `sha256`.
    pub fn name(&self) -> (r: &'static str)
        ensures
            r@ == algorithm_name(*self),
    {
        match self {
            Algorithm::Blake3 => {
                proof {
                    reveal_strlit("blake3");
                    assert("blake3"@ =~= algorithm_name(Algorithm::Blake3));
                }
                "blake3"
            },
            Algorithm::Sha256 => {
                proof {
                    reveal_strlit("sha256");
                    assert("sha256"@ =~= algorithm_name(Algorithm::Sha256));
                }
                "sha256"
            },
        }
    }

    /// Reads an algorithm from its lowercase name.
    pub fn from_name(value: &str) -> (r: Option<Algorithm>)
        ensures
            r == algorithm_from_name(value@),
    {
        proof {
            reveal_strlit("blake3");
            reveal_strlit("sha256");
            assert("blake3"@ =~= algorithm_name(Algorithm::Blake3));
            assert("sha256"@ =~= algorithm_name(Algorithm::Sha256));
        }
        if same_text(value, "blake3") {
            Some(Algorithm::Blake3)
        } else if same_text(value, "sha256") {
            Some(Algorithm::Sha256)
        } else {
            None
        }
    }

    /// The set-key code of the algorithm.
    pub fn code(&self) -> (r: u8)
        ensures
            r == algorithm_code(*self),
    {
        match self {
            Algorithm::Blake3 => 1,
            Algorithm::Sha256 => 2,
        }
    }
}

/// Reading an algorithm's name gives the algorithm back, so digest keys and
/// URLs name algorithms unambiguously.
pub proof fn law_algorithm_name_round_trip(algorithm: Algorithm)
    ensures
        algorithm_from_name(algorithm_name(algorithm)) == Some(algorithm),
{
    assert(algorithm_name(Algorithm::Blake3) != algorithm_name(Algorithm::Sha256)) by {
        assert(algorithm_name(Algorithm::Blake3)[0] != algorithm_name(Algorithm::Sha256)[0]);
    }
}

impl std::str::FromStr for Algorithm {
    type Err = &'static str;

    fn from_str(value: &str) -> (r: Result<Self, Self::Err>)
        ensures
            r matches Ok(algorithm) ==> algorithm_from_name(value@) == Some(algorithm),
            r matches Err(message) ==> algorithm_from_name(value@) is None
                && message@ == "unsupported digest algorithm"@,
    {
        match Algorithm::from_name(value) {
            Some(algorithm) => Ok(algorithm),
            None => Err("unsupported digest algorithm"),
        }
    }
}

/// Whether `b` is an ASCII decimal digit or a lowercase hexadecimal letter.
pub open spec fn is_lower_hex_byte(b: u8) -> bool {
    (0x30 <= b <= 0x39) || (0x61 <= b <= 0x66)
}

/// Exactly 64 bytes of lowercase hexadecimal.
pub open spec fn is_hex_identity(bytes: Seq<u8>) -> bool {
    &&& bytes.len() == 64
    &&& forall|i: int| 0 <= i < bytes.len() ==> is_lower_hex_byte(#[trigger] bytes[i])
}

/// Whether the text is 64 lowercase hexadecimal bytes.
pub fn hex_identity(value: &str) -> (r: bool)
    ensures
        r == is_hex_identity(utf8(value@)),
{
    let bytes = str_bytes(value);
    if bytes.len() != 64 {
        return false;
    }
    let mut i: usize = 0;
    while i < bytes.len()
        invariant
            bytes@ == utf8(value@),
            bytes@.len() == 64,
            i <= 64,
            forall|j: int| 0 <= j < i ==> is_lower_hex_byte(#[trigger] bytes@[j]),
        decreases 64 - i,
    {
        let b = bytes[i];
        if !((0x30 <= b && b <= 0x39) || (0x61 <= b && b <= 0x66)) {
            return false;
        }
        i = i + 1;
    }
    true
}

/// A content-addressed digest: algorithm, hexadecimal hash and size in bytes.
#[derive(Debug, PartialEq, Eq, PartialOrd, Ord, Hash)]
pub struct Digest {
    pub algorithm: Algorithm,
    pub hash: String,
    pub size: u64,
}

/// A digest by value: its algorithm, the characters of its hash and its size.
pub struct DigestView {
    pub algorithm: Algorithm,
    pub hash: Seq<char>,
    pub size: u64,
}

impl View for Digest {
    type V = DigestView;

    open spec fn view(&self) -> DigestView {
        DigestView { algorithm: self.algorithm, hash: self.hash@, size: self.size }
    }
}

/// The text `algorithm/hash/size` that names a digest.
pub open spec fn digest_key_text(d: DigestView) -> Seq<char> {
    algorithm_name(d.algorithm) + seq!['/'] + d.hash + seq!['/'] + crate::text::decimal(
        d.size as nat,
    )
}

/// A digest is valid when its hash is 64 lowercase hexadecimal bytes.
pub open spec fn digest_valid(d: DigestView) -> bool {
    is_hex_identity(utf8(d.hash))
}

/// The set key of a digest.
pub open spec fn digest_set_key(d: DigestView) -> (u8, Seq<char>, u64) {
    (algorithm_code(d.algorithm), d.hash, d.size)
}

/// Two digests with the same set key are the same digest.
pub proof fn lemma_digest_set_key_injective(a: DigestView, b: DigestView)
    ensures
        (digest_set_key(a) == digest_set_key(b)) == (a == b),
{
}

/// Two valid digests with the same key are the same digest: the key names
/// the algorithm, the hash and the size unambiguously.
pub proof fn law_digest_key_injective(a: DigestView, b: DigestView)
    requires
        digest_valid(a),
        digest_valid(b),
    ensures
        (digest_key_text(a) == digest_key_text(b)) == (a == b),
{
    if digest_key_text(a) == digest_key_text(b) {
        crate::text::lemma_ascii_bytes_one_per_char(a.hash);
        crate::text::lemma_ascii_bytes_one_per_char(b.hash);
        let ka = digest_key_text(a);
        let kb = digest_key_text(b);
        assert(algorithm_name(a.algorithm).len() == 6);
        assert(algorithm_name(b.algorithm).len() == 6);
        assert(a.hash.len() == 64);
        assert(b.hash.len() == 64);
        assert(ka.subrange(0, 6) =~= algorithm_name(a.algorithm));
        assert(kb.subrange(0, 6) =~= algorithm_name(b.algorithm));
        assert(ka.subrange(7, 71) =~= a.hash);
        assert(kb.subrange(7, 71) =~= b.hash);
        assert(ka.subrange(72, ka.len() as int) =~= crate::text::decimal(a.size as nat));
        assert(kb.subrange(72, kb.len() as int) =~= crate::text::decimal(b.size as nat));
        crate::text::lemma_decimal_injective(a.size as nat, b.size as nat);
        if a.algorithm != b.algorithm {
            assert(algorithm_name(a.algorithm)[0] != algorithm_name(b.algorithm)[0]);
        }
    }
}

impl Clone for Digest {
    fn clone(&self) -> (r: Self)
        ensures
            r@ == self@,
    {
        Digest { algorithm: self.algorithm, hash: self.hash.clone(), size: self.size }
    }
}

impl Digest {
    /// Whether the hash is 64 lowercase hexadecimal bytes.
    pub fn validate(&self) -> (r: bool)
        ensures
            r == digest_valid(self@),
    {
        hex_identity(self.hash.as_str())
    }

    /// The key `algorithm/hash/size` under which the digest is stored.
    pub fn key(&self) -> (r: String)
        ensures
            r@ == digest_key_text(self@),
    {
        let mut out = String::from_str(self.algorithm.name());
        proof {
            reveal_strlit("/");
        }
        out.append("/");
        out.append(self.hash.as_str());
        out.append("/");
        crate::text::push_decimal(&mut out, self.size);
        out
    }

    /// Whether two digests are the same digest.
    pub fn same_as(&self, other: &Digest) -> (r: bool)
        ensures
            r == (self@ == other@),
    {
        self.algorithm == other.algorithm && self.size == other.size && self.hash == other.hash
    }

    /// The key of the digest in a digest-key set.
    pub fn set_key(&self) -> (r: (u8, String, u64))
        ensures
            (r.0, r.1@, r.2) == digest_set_key(self@),
    {
        (self.algorithm.code(), self.hash.clone(), self.size)
    }
}

/// A stored action result: the action it answers, its client metadata and its
/// output tree.
#[derive(Debug)]
pub struct ActionResult {
    pub action: Digest,
    pub metadata: Option<Digest>,
    pub output_root: Option<Digest>,
    pub version: u8,
}

/// An action result by value.
pub struct ActionResultView {
    pub action: DigestView,
    pub metadata: Option<DigestView>,
    pub output_root: Option<DigestView>,
    pub version: u8,
}

/// The value of an optional digest.
pub open spec fn optional_digest_view(d: Option<Digest>) -> Option<DigestView> {
    match d {
        Some(d) => Some(d@),
        None => None,
    }
}

impl View for ActionResult {
    type V = ActionResultView;

    open spec fn view(&self) -> ActionResultView {
        ActionResultView {
            action: self.action@,
            metadata: optional_digest_view(self.metadata),
            output_root: optional_digest_view(self.output_root),
            version: self.version,
        }
    }
}

/// Copies an optional digest.
pub fn clone_optional_digest(d: &Option<Digest>) -> (r: Option<Digest>)
    ensures
        optional_digest_view(r) == optional_digest_view(*d),
{
    match d {
        Some(d) => Some(d.clone()),
        None => None,
    }
}

/// Whether two optional digests are equal.
pub fn same_optional_digest(a: &Option<Digest>, b: &Option<Digest>) -> (r: bool)
    ensures
        r == (optional_digest_view(*a) == optional_digest_view(*b)),
{
    match (a, b) {
        (Some(a), Some(b)) => a.same_as(b),
        (None, None) => true,
        _ => false,
    }
}

impl Clone for ActionResult {
    fn clone(&self) -> (r: Self)
        ensures
            r@ == self@,
    {
        ActionResult {
            action: self.action.clone(),
            metadata: clone_optional_digest(&self.metadata),
            output_root: clone_optional_digest(&self.output_root),
            version: self.version,
        }
    }
}

impl ActionResult {
    /// Whether two action results are equal field by field.
    pub fn same_as(&self, other: &ActionResult) -> (r: bool)
        ensures
            r == (self@ == other@),
    {
        self.version == other.version && self.action.same_as(&other.action) && same_optional_digest(
            &self.metadata,
            &other.metadata,
        ) && same_optional_digest(&self.output_root, &other.output_root)
    }
}

/// One action that a worker predicts for a task.
#[derive(Debug)]
pub struct TaskActionPrediction {
    pub action: Digest,
    pub adapter: String,
    pub invocation: Digest,
    pub payload: String,
}

/// A prediction by value.
pub struct PredictionView {
    pub action: DigestView,
    pub adapter: Seq<char>,
    pub invocation: DigestView,
    pub payload: Seq<char>,
}

impl View for TaskActionPrediction {
    type V = PredictionView;

    open spec fn view(&self) -> PredictionView {
        PredictionView {
            action: self.action@,
            adapter: self.adapter@,
            invocation: self.invocation@,
            payload: self.payload@,
        }
    }
}

/// An adapter name byte: ASCII letter, digit, `-` or `_`.
pub open spec fn is_adapter_byte(b: u8) -> bool {
    is_ascii_alnum(b) || b == 0x2d || b == 0x5f
}

/// The largest prediction payload, in bytes.
pub const MAX_PAYLOAD_BYTES: usize = 262144;

/// A prediction is valid when both digests are valid BLAKE3 digests, the
/// adapter is a non-empty name of letters, digits, `-` and `_`, and the
/// payload is a JSON document of at most 256 KiB.
pub open spec fn prediction_valid(p: PredictionView) -> bool {
    &&& p.action.algorithm == Algorithm::Blake3
    &&& digest_valid(p.action)
    &&& p.invocation.algorithm == Algorithm::Blake3
    &&& digest_valid(p.invocation)
    &&& utf8(p.adapter).len() != 0
    &&& forall|i: int|
        0 <= i < utf8(p.adapter).len() ==> is_adapter_byte(#[trigger] utf8(p.adapter)[i])
    &&& utf8(p.payload).len() <= MAX_PAYLOAD_BYTES
    &&& is_json_text(p.payload)
}

fn adapter_name_valid(adapter: &String) -> (r: bool)
    ensures
        r == (utf8(adapter@).len() != 0 && forall|i: int|
            0 <= i < utf8(adapter@).len() ==> is_adapter_byte(#[trigger] utf8(adapter@)[i])),
{
    let bytes = string_bytes(adapter);
    if bytes.len() == 0 {
        return false;
    }
    let mut i: usize = 0;
    while i < bytes.len()
        invariant
            bytes@ == utf8(adapter@),
            i <= bytes@.len(),
            forall|j: int| 0 <= j < i ==> is_adapter_byte(#[trigger] bytes@[j]),
        decreases bytes@.len() - i,
    {
        let b = bytes[i];
        if !((0x30 <= b && b <= 0x39) || (0x41 <= b && b <= 0x5a) || (0x61 <= b && b <= 0x7a) || b
            == 0x2d || b == 0x5f) {
            return false;
        }
        i = i + 1;
    }
    true
}

impl Clone for TaskActionPrediction {
    fn clone(&self) -> (r: Self)
        ensures
            r@ == self@,
    {
        TaskActionPrediction {
            action: self.action.clone(),
            adapter: self.adapter.clone(),
            invocation: self.invocation.clone(),
            payload: self.payload.clone(),
        }
    }
}

impl TaskActionPrediction {
    /// Whether the prediction is valid (see `prediction_valid`).
    pub fn validate(&self) -> (r: bool)
        ensures
            r == prediction_valid(self@),
    {
        self.action.algorithm == Algorithm::Blake3 && self.action.validate()
            && self.invocation.algorithm == Algorithm::Blake3 && self.invocation.validate()
            && adapter_name_valid(&self.adapter) && string_bytes(&self.payload).len()
            <= MAX_PAYLOAD_BYTES && json_text_parses(self.payload.as_str())
    }
}

/// The actions learned for one task: a mutable discovery index for workers.
#[derive(Debug)]
pub struct TaskActionManifest {
    pub predictions: Vec<TaskActionPrediction>,
    pub task: String,
    pub version: u8,
}

/// A manifest by value.
pub struct ManifestView {
    pub predictions: Seq<PredictionView>,
    pub task: Seq<char>,
    pub version: u8,
}

impl View for TaskActionManifest {
    type V = ManifestView;

    open spec fn view(&self) -> ManifestView {
        ManifestView {
            predictions: self.predictions@.map_values(|p: TaskActionPrediction| p@),
            task: self.task@,
            version: self.version,
        }
    }
}

/// The most predictions a manifest may hold.
pub const MAX_PREDICTIONS: usize = 16384;

/// A manifest is valid when its version is 1, its task identity is 64
/// lowercase hexadecimal bytes, it holds at most 16384 predictions, each of
/// them valid, and no two predictions share an invocation digest.
pub open spec fn manifest_valid(m: ManifestView) -> bool {
    &&& m.version == 1
    &&& is_hex_identity(utf8(m.task))
    &&& m.predictions.len() <= MAX_PREDICTIONS
    &&& forall|i: int| 0 <= i < m.predictions.len() ==> prediction_valid(#[trigger] m.predictions[i])
    &&& forall|i: int, j: int|
        0 <= i < j < m.predictions.len() ==> (#[trigger] m.predictions[i]).invocation
            != (#[trigger] m.predictions[j]).invocation
}

/// A version-1 manifest for a valid task identity with no predictions is
/// valid: there is no lower bound on the number of predictions.
pub proof fn law_empty_manifest_valid(m: ManifestView)
    requires
        m.version == 1,
        is_hex_identity(utf8(m.task)),
        m.predictions.len() == 0,
    ensures
        manifest_valid(m),
{
}

/// Dropping a prediction from a valid manifest leaves it valid: validity
/// asks of the predictions only that each is valid, that there are not too
/// many, and that no invocation repeats.
pub proof fn law_manifest_drop_prediction(m: ManifestView, k: int)
    requires
        manifest_valid(m),
        0 <= k < m.predictions.len(),
    ensures
        manifest_valid(ManifestView { predictions: m.predictions.remove(k), ..m }),
{
    let ps = m.predictions;
    let qs = ps.remove(k);
    assert forall|i: int| 0 <= i < qs.len() implies prediction_valid(#[trigger] qs[i]) by {
        if i < k {
            assert(qs[i] == ps[i]);
        } else {
            assert(qs[i] == ps[i + 1]);
        }
    }
    assert forall|i: int, j: int| 0 <= i < j < qs.len() implies (#[trigger] qs[i]).invocation
        != (#[trigger] qs[j]).invocation by {
        let a = if i < k { i } else { i + 1 };
        let b = if j < k { j } else { j + 1 };
        assert(qs[i] == ps[a] && qs[j] == ps[b]);
        assert(ps[a].invocation != ps[b].invocation);
    }
}

/// Adding a valid prediction with a new invocation to a valid manifest with
/// room keeps it valid.
pub proof fn law_manifest_add_prediction(m: ManifestView, p: PredictionView)
    requires
        manifest_valid(m),
        m.predictions.len() < MAX_PREDICTIONS,
        prediction_valid(p),
        forall|i: int| 0 <= i < m.predictions.len() ==> (#[trigger] m.predictions[i]).invocation != p.invocation,
    ensures
        manifest_valid(ManifestView { predictions: m.predictions.push(p), ..m }),
{
    let ps = m.predictions;
    let qs = ps.push(p);
    assert forall|i: int| 0 <= i < qs.len() implies prediction_valid(#[trigger] qs[i]) by {
        if i < ps.len() {
            assert(qs[i] == ps[i]);
        }
    }
    assert forall|i: int, j: int| 0 <= i < j < qs.len() implies (#[trigger] qs[i]).invocation
        != (#[trigger] qs[j]).invocation by {
        assert(qs[i] == ps[i]);
        if j < ps.len() {
            assert(qs[j] == ps[j]);
        }
    }
}

/// Two predictions with the same invocation make a manifest invalid.
pub proof fn law_manifest_repeated_invocation_invalid(m: ManifestView, i: int, j: int)
    requires
        0 <= i < j < m.predictions.len(),
        m.predictions[i].invocation == m.predictions[j].invocation,
    ensures
        !manifest_valid(m),
{
}

/// Copies a list of predictions.
fn clone_predictions(predictions: &Vec<TaskActionPrediction>) -> (r: Vec<TaskActionPrediction>)
    ensures
        r@.map_values(|p: TaskActionPrediction| p@) == predictions@.map_values(
            |p: TaskActionPrediction| p@,
        ),
{
    let mut out: Vec<TaskActionPrediction> = Vec::new();
    let mut i: usize = 0;
    while i < predictions.len()
        invariant
            i <= predictions@.len(),
            out@.len() == i,
            forall|j: int| 0 <= j < i ==> (#[trigger] out@[j])@ == predictions@[j]@,
        decreases predictions@.len() - i,
    {
        out.push(predictions[i].clone());
        i = i + 1;
    }
    assert(out@.map_values(|p: TaskActionPrediction| p@) =~= predictions@.map_values(
        |p: TaskActionPrediction| p@,
    ));
    out
}

/// The canonical JSON selector of a task's manifest:
/// `{"kind":"task_action_manifest","task":<task>,"version":1}`.
pub open spec fn selector_text(task: Seq<char>) -> Seq<u8> {
    utf8("{\"kind\":\"task_action_manifest\",\"task\":"@) + crate::json::json_string_bytes(task)
        + utf8(",\"version\":1}"@)
}

/// The digest under which a task's manifest is stored: the BLAKE3 digest of
/// its selector.
pub open spec fn selector_digest_of(task: Seq<char>) -> DigestView {
    DigestView {
        algorithm: Algorithm::Blake3,
        hash: crate::hashing::lower_hex(crate::hashing::blake3_of(selector_text(task))),
        size: selector_text(task).len() as u64,
    }
}

/// A task whose text needs no escaping has a selector 53 bytes longer than
/// its text: the fixed members, and the quotes around the task.
pub proof fn law_selector_size(task: Seq<char>)
    requires
        forall|i: int| 0 <= i < utf8(task).len() ==> crate::json::json_plain_byte(#[trigger] utf8(task)[i]),
        utf8(task).len() + 53 <= u64::MAX,
    ensures
        selector_text(task).len() == utf8(task).len() + 53,
        selector_digest_of(task).size == utf8(task).len() + 53,
{
    crate::json::lemma_json_escape_plain(utf8(task));
    reveal_strlit("{\"kind\":\"task_action_manifest\",\"task\":");
    reveal_strlit(",\"version\":1}");
    let head = "{\"kind\":\"task_action_manifest\",\"task\":"@;
    let tail = ",\"version\":1}"@;
    assert(vstd::utf8::is_ascii_chars(head));
    assert(vstd::utf8::is_ascii_chars(tail));
    vstd::utf8::is_ascii_chars_encode_utf8(head);
    vstd::utf8::is_ascii_chars_encode_utf8(tail);
    assert(head.len() == 38);
    assert(tail.len() == 13);
}

/// The canonical JSON selector of the manifest of `task`.
pub fn selector_bytes(task: &str) -> (r: Vec<u8>)
    ensures
        r@ == selector_text(task@),
{
    let mut out: Vec<u8> = Vec::new();
    crate::text::append_bytes(&mut out, str_bytes("{\"kind\":\"task_action_manifest\",\"task\":"));
    let quoted = crate::json::json_string(task);
    crate::text::append_bytes(&mut out, quoted.as_slice());
    crate::text::append_bytes(&mut out, str_bytes(",\"version\":1}"));
    assert(out@ =~= selector_text(task@));
    out
}

impl Clone for TaskActionManifest {
    fn clone(&self) -> (r: Self)
        ensures
            r@ == self@,
    {
        TaskActionManifest {
            predictions: clone_predictions(&self.predictions),
            task: self.task.clone(),
            version: self.version,
        }
    }
}

impl TaskActionManifest {
    /// The stable key of the manifest: the BLAKE3 digest of its canonical
    /// selector, which depends on the task alone. It is always a valid digest.
    pub fn selector_digest(&self) -> (r: Digest)
        ensures
            r@ == selector_digest_of(self.task@),
            digest_valid(r@),
    {
        let selector = selector_bytes(self.task.as_str());
        let hash = crate::hashing::blake3_digest(selector.as_slice());
        proof {
            assert(hash@.len() == 32);
            crate::hashing::lemma_lower_hex_identity(hash@);
        }
        Digest {
            algorithm: Algorithm::Blake3,
            hash: crate::hashing::blake3_hex(hash),
            size: selector.len() as u64,
        }
    }

    /// Whether the manifest is valid (see `manifest_valid`).
    pub fn validate(&self) -> (r: bool)
        ensures
            r == manifest_valid(self@),
    {
        let ghost preds = self@.predictions;
        if self.version != 1 || !hex_identity(self.task.as_str()) || self.predictions.len()
            > MAX_PREDICTIONS {
            return false;
        }
        let mut invocations = digest_key_set_new();
        let mut i: usize = 0;
        while i < self.predictions.len()
            invariant
                preds == self@.predictions,
                preds.len() == self.predictions@.len(),
                i <= preds.len(),
                forall|j: int| 0 <= j < i ==> prediction_valid(#[trigger] preds[j]),
                forall|j: int, k: int|
                    0 <= j < k < i ==> (#[trigger] preds[j]).invocation
                        != (#[trigger] preds[k]).invocation,
                forall|key: (u8, Seq<char>, u64)|
                    digest_key_set_elements(invocations).contains(key) <==> exists|j: int|
                        0 <= j < i && key == digest_set_key(#[trigger] preds[j].invocation),
            decreases preds.len() - i,
        {
            let prediction = &self.predictions[i];
            assert(preds[i as int] == prediction@);
            if !prediction.validate() {
                return false;
            }
            let key = prediction.invocation.set_key();
            let ghost before = digest_key_set_elements(invocations);
            let fresh = digest_key_set_insert(&mut invocations, key);
            if !fresh {
                proof {
                    let j = choose|j: int|
                        0 <= j < i && digest_set_key(prediction.invocation@) == digest_set_key(
                            #[trigger] preds[j].invocation,
                        );
                    lemma_digest_set_key_injective(
                        prediction.invocation@,
                        preds[j].invocation,
                    );
                    assert(preds[j].invocation == preds[i as int].invocation);
                }
                return false;
            }
            proof {
                assert forall|j: int| 0 <= j < i implies preds[j].invocation
                    != preds[i as int].invocation by {
                    if preds[j].invocation == preds[i as int].invocation {
                        assert(before.contains(digest_set_key(preds[j].invocation)));
                    }
                }
                assert forall|k: (u8, Seq<char>, u64)|
                    digest_key_set_elements(invocations).contains(k) <==> exists|j: int|
                        0 <= j < i + 1 && k == digest_set_key(#[trigger] preds[j].invocation) by {
                    if k == digest_set_key(preds[i as int].invocation) {
                        assert(0 <= i < i + 1);
                    }
                }
            }
            i = i + 1;
        }
        true
    }
}

/// Every text of the list holds no NUL character.
pub open spec fn texts_valid(values: Seq<String>) -> bool {
    forall|i: int| 0 <= i < values.len() ==> no_nul(utf8((#[trigger] values[i])@))
}

/// Every key and value of the map holds no NUL character.
pub open spec fn text_map_valid(entries: Seq<(String, String)>) -> bool {
    forall|i: int|
        0 <= i < entries.len() ==> no_nul(utf8((#[trigger] entries[i]).0@)) && no_nul(
            utf8(entries[i].1@),
        )
}

/// The keys of a map held as a list of entries.
pub open spec fn entry_keys<V>(entries: Seq<(String, V)>) -> Seq<Seq<char>> {
    entries.map_values(|e: (String, V)| e.0@)
}

/// The keys are in strictly ascending byte order, as an ordered map keyed by
/// strings holds them.
pub open spec fn keys_ascending(keys: Seq<Seq<char>>) -> bool {
    forall|i: int, j: int|
        0 <= i < j < keys.len() ==> crate::text::bytes_less(
            utf8(#[trigger] keys[i]),
            utf8(#[trigger] keys[j]),
        )
}

/// A map whose keys ascend holds each key once.
pub proof fn law_ascending_keys_unique(keys: Seq<Seq<char>>)
    requires
        keys_ascending(keys),
    ensures
        forall|i: int, j: int| 0 <= i < j < keys.len() ==> #[trigger] keys[i] != #[trigger] keys[j],
{
    assert forall|i: int, j: int| 0 <= i < j < keys.len() implies #[trigger] keys[i]
        != #[trigger] keys[j] by {
        crate::text::lemma_bytes_less_irreflexive(utf8(keys[i]));
    }
}

/// A map keyed by text, held in ascending byte order of its keys with each
/// key once, as an ordered map keeps string keys.
#[derive(Debug)]
pub struct TextMap<V> {
    entries: Vec<(String, V)>,
}

impl<V> TextMap<V> {
    /// The keys ascend: this holds of every map.
    #[verifier::type_invariant]
    spec fn keys_in_byte_order(&self) -> bool {
        keys_ascending(entry_keys(self.entries@))
    }

    /// The entries, in key order.
    pub closed spec fn items(&self) -> Seq<(String, V)> {
        self.entries@
    }

    /// An empty map.
    pub fn new() -> (r: Self)
        ensures
            r.items() == Seq::<(String, V)>::empty(),
    {
        let r = TextMap { entries: Vec::new() };
        assert(entry_keys(r.entries@) =~= Seq::<Seq<char>>::empty());
        r
    }

    /// The entries, in ascending key order, each key once.
    pub fn entries(&self) -> (r: &[(String, V)])
        ensures
            r@ == self.items(),
            keys_ascending(entry_keys(r@)),
    {
        proof {
            use_type_invariant(self);
        }
        self.entries.as_slice()
    }

    /// Sets `key` to `value`: the value of a key present is replaced in
    /// place; a new key is placed where its order puts it.
    pub fn insert(&mut self, key: String, value: V)
        ensures
            ({
                let before = old(self).items();
                let after = final(self).items();
                ||| exists|i: int|
                    0 <= i < before.len() && (#[trigger] before[i]).0@ == key@ && after
                        == before.update(i, (key, value))
                ||| (forall|i: int| 0 <= i < before.len() ==> (#[trigger] before[i]).0@ != key@)
                    && exists|i: int| 0 <= i <= before.len() && #[trigger] before.insert(i, (key, value)) == after
            }),
            keys_ascending(entry_keys(final(self).items())),
    {
        proof {
            use_type_invariant(&*self);
        }
        let mut entries: Vec<(String, V)> = Vec::new();
        proof {
            assert(entry_keys(entries@) =~= Seq::<Seq<char>>::empty());
        }
        core::mem::swap(&mut entries, &mut self.entries);
        let ghost before = entries@;
        let ghost keys = entry_keys(before);
        let ghost item = (key, value);
        assert(before == old(self).items());
        let mut i: usize = 0;
        while i < entries.len() && crate::text::bytes_before(
            crate::text::string_bytes(&entries[i].0),
            crate::text::string_bytes(&key),
        )
            invariant
                before == entries@,
                keys == entry_keys(before),
                keys_ascending(keys),
                i <= before.len(),
                forall|j: int| 0 <= j < i ==> crate::text::bytes_less(utf8(#[trigger] keys[j]), utf8(key@)),
            decreases before.len() - i,
        {
            proof {
                assert(keys[i as int] == before[i as int].0@);
            }
            i = i + 1;
        }
        // Every key from position `i` on comes after the new key, or is it.
        proof {
            assert forall|j: int| i <= j < before.len() implies !crate::text::bytes_less(
                utf8(#[trigger] keys[j]),
                utf8(key@),
            ) by {
                assert(keys[i as int] == before[i as int].0@);
                assert(!crate::text::bytes_less(utf8(keys[i as int]), utf8(key@)));
                if j > i && crate::text::bytes_less(utf8(keys[j]), utf8(key@)) {
                    crate::text::lemma_bytes_less_transitive(utf8(keys[i as int]), utf8(keys[j]), utf8(key@));
                }
            }
        }
        if i < entries.len() && crate::text::same_text(entries[i].0.as_str(), key.as_str()) {
            proof {
                let after = before.update(i as int, (key, value));
                assert(entry_keys(after) =~= keys);
            }
            proof {
                assert(before[i as int].0@ == key@);
            }
            entries.set(i, (key, value));
            self.entries = entries;
            proof {
                assert(self.items() == before.update(i as int, item));
                assert(0 <= i < before.len() && (before[i as int]).0@ == key@ && self.items()
                    == before.update(i as int, (key, value)));
            }
        } else {
            proof {
                let after = before.insert(i as int, (key, value));
                let nkeys = entry_keys(after);
                assert(nkeys =~= keys.insert(i as int, key@));
                // The new key differs from all, and comes after the first `i`.
                assert forall|j: int| 0 <= j < before.len() implies (#[trigger] before[j]).0@ != key@ by {
                    assert(keys[j] == before[j].0@);
                    if j < i {
                        crate::text::lemma_bytes_less_irreflexive(utf8(key@));
                    } else if j > i {
                        assert(i < before.len());
                        assert(keys[i as int] == before[i as int].0@);
                        assert(keys[i as int] != key@);
                        crate::text::lemma_bytes_less_irreflexive(utf8(key@));
                        if keys[j] == key@ {
                            assert(crate::text::bytes_less(utf8(keys[i as int]), utf8(keys[j])));
                            crate::text::lemma_bytes_less_total(utf8(keys[i as int]), utf8(key@));
                            crate::text::lemma_utf8_injective(keys[i as int], key@);
                        }
                    }
                }
                if i < before.len() {
                    assert(keys[i as int] == before[i as int].0@);
                    assert(keys[i as int] != key@);
                    crate::text::lemma_utf8_injective(keys[i as int], key@);
                    crate::text::lemma_bytes_less_total(utf8(keys[i as int]), utf8(key@));
                    assert(crate::text::bytes_less(utf8(key@), utf8(keys[i as int])));
                }
                assert forall|a: int, b: int| 0 <= a < b < nkeys.len() implies crate::text::bytes_less(
                    utf8(#[trigger] nkeys[a]),
                    utf8(#[trigger] nkeys[b]),
                ) by {
                    if b < i {
                        assert(nkeys[a] == keys[a] && nkeys[b] == keys[b]);
                    } else if b == i {
                        assert(nkeys[a] == keys[a] && nkeys[b] == key@);
                    } else if a > i {
                        assert(nkeys[a] == keys[a - 1] && nkeys[b] == keys[b - 1]);
                    } else if a == i {
                        assert(nkeys[a] == key@ && nkeys[b] == keys[b - 1]);
                        if b - 1 > i {
                            crate::text::lemma_bytes_less_transitive(
                                utf8(key@),
                                utf8(keys[i as int]),
                                utf8(keys[b - 1]),
                            );
                        }
                    } else {
                        assert(nkeys[a] == keys[a] && nkeys[b] == keys[b - 1]);
                    }
                }
            }
            entries.insert(i, (key, value));
            self.entries = entries;
            proof {
                assert(before.insert(i as int, item) == self.items());
            }
        }
    }
}

/// An optional text that, when present, holds no NUL character.
pub open spec fn optional_text_valid(value: Option<String>) -> bool {
    match value {
        Some(v) => no_nul(utf8(v@)),
        None => true,
    }
}

/// Every key holds no NUL character, nor does any value that is present.
pub open spec fn environment_valid(entries: Seq<(String, Option<String>)>) -> bool {
    forall|i: int|
        0 <= i < entries.len() ==> no_nul(utf8((#[trigger] entries[i]).0@)) && optional_text_valid(
            entries[i].1,
        )
}

/// `valid_strings`: no text of the list holds a NUL character.
pub fn valid_strings(values: &[String]) -> (r: bool)
    ensures
        r == texts_valid(values@),
{
    let mut i: usize = 0;
    while i < values.len()
        invariant
            i <= values@.len(),
            forall|j: int| 0 <= j < i ==> no_nul(utf8((#[trigger] values@[j])@)),
        decreases values@.len() - i,
    {
        if !valid_string(values[i].as_str()) {
            return false;
        }
        i = i + 1;
    }
    true
}

/// `valid_string_map`: no key or value holds a NUL character.
pub fn valid_string_map(entries: &[(String, String)]) -> (r: bool)
    ensures
        r == text_map_valid(entries@),
{
    let mut i: usize = 0;
    while i < entries.len()
        invariant
            i <= entries@.len(),
            forall|j: int|
                0 <= j < i ==> no_nul(utf8((#[trigger] entries@[j]).0@)) && no_nul(
                    utf8(entries@[j].1@),
                ),
        decreases entries@.len() - i,
    {
        let (key, value) = &entries[i];
        if !(valid_string(key.as_str()) && valid_string(value.as_str())) {
            return false;
        }
        i = i + 1;
    }
    true
}

/// An optional text is absent or holds no NUL character.
pub fn valid_optional_string(value: &Option<String>) -> (r: bool)
    ensures
        r == optional_text_valid(*value),
{
    match value {
        Some(v) => valid_string(v.as_str()),
        None => true,
    }
}

fn valid_environment(entries: &[(String, Option<String>)]) -> (r: bool)
    ensures
        r == environment_valid(entries@),
{
    let mut i: usize = 0;
    while i < entries.len()
        invariant
            i <= entries@.len(),
            forall|j: int|
                0 <= j < i ==> no_nul(utf8((#[trigger] entries@[j]).0@)) && optional_text_valid(
                    entries@[j].1,
                ),
        decreases entries@.len() - i,
    {
        let (key, value) = &entries[i];
        if !(valid_string(key.as_str()) && valid_optional_string(value)) {
            return false;
        }
        i = i + 1;
    }
    true
}

/// The text `task`.
pub open spec fn task_kind() -> Seq<char> {
    seq!['t', 'a', 's', 'k']
}

/// The text `rustc`.
pub open spec fn rustc_kind() -> Seq<char> {
    seq!['r', 'u', 's', 't', 'c']
}

fn is_task_kind(kind: &String) -> (r: bool)
    ensures
        r == (kind@ == task_kind()),
{
    proof {
        reveal_strlit("task");
        assert("task"@ =~= task_kind());
    }
    same_text(kind.as_str(), "task")
}

fn is_rustc_kind(kind: &String) -> (r: bool)
    ensures
        r == (kind@ == rustc_kind()),
{
    proof {
        reveal_strlit("rustc");
        assert("rustc"@ =~= rustc_kind());
    }
    same_text(kind.as_str(), "rustc")
}

/// When a task runs relative to the tasks that depend on it.
#[derive(Clone, Copy, Debug, PartialEq, Eq, Structural)]
pub enum TaskPhase {
    Normal,
    Post,
}

/// One entry of a task's `run` list.
#[derive(Debug)]
pub enum TaskRunEntry {
    Script(String),
    Single(TaskRunSingle),
    Group(TaskRunGroup),
}

/// Runs another task, with arguments and environment.
#[derive(Debug)]
pub struct TaskRunSingle {
    pub task: String,
    pub args: Vec<String>,
    /// Environment entries, by key.
    pub env: TextMap<String>,
}

/// Runs a group of tasks.
#[derive(Debug)]
pub struct TaskRunGroup {
    pub tasks: Vec<String>,
}

impl TaskRunEntry {
    /// Every text of the entry holds no NUL character.
    pub open spec fn spec_valid(&self) -> bool {
        match self {
            TaskRunEntry::Script(script) => no_nul(utf8(script@)),
            TaskRunEntry::Single(entry) => no_nul(utf8(entry.task@)) && texts_valid(entry.args@)
                && text_map_valid(entry.env.items()),
            TaskRunEntry::Group(entry) => texts_valid(entry.tasks@),
        }
    }

    /// Whether the entry is valid (see `spec_valid`).
    pub fn validate(&self) -> (r: bool)
        ensures
            r == self.spec_valid(),
    {
        match self {
            TaskRunEntry::Script(script) => valid_string(script.as_str()),
            TaskRunEntry::Single(entry) => valid_string(entry.task.as_str()) && valid_strings(
                entry.args.as_slice(),
            ) && valid_string_map(entry.env.entries()),
            TaskRunEntry::Group(entry) => valid_strings(entry.tasks.as_slice()),
        }
    }
}

/// A command whose output is an input of the task.
#[derive(Debug)]
pub struct TaskCommandInput {
    pub command: String,
    pub stdout_hash: String,
    pub stderr_hash: String,
}

impl TaskCommandInput {
    /// Every text of the input holds no NUL character.
    pub open spec fn spec_valid(&self) -> bool {
        no_nul(utf8(self.command@)) && no_nul(utf8(self.stdout_hash@)) && no_nul(
            utf8(self.stderr_hash@),
        )
    }

    /// Whether every text of the input holds no NUL character.
    pub fn validate(&self) -> (r: bool)
        ensures
            r == self.spec_valid(),
    {
        valid_string(self.command.as_str()) && valid_string(self.stdout_hash.as_str()) && valid_string(
            self.stderr_hash.as_str(),
        )
    }
}

/// The descriptor of a task action: everything that determines its result.
#[derive(Debug)]
pub struct TaskAction {
    pub version: u8,
    pub kind: String,
    pub task: String,
    pub phase: TaskPhase,
    pub run: Vec<TaskRunEntry>,
    pub args: Vec<String>,
    pub shell: Option<String>,
    pub outputs: Vec<String>,
    pub root: String,
    pub source_hash: String,
    pub dependency_keys: Vec<String>,
    /// Environment entries, by key; `None` unsets a key.
    pub environment: TextMap<Option<String>>,
    pub command_inputs: Vec<TaskCommandInput>,
    /// Variables, by key.
    pub vars: TextMap<String>,
    pub tools: Vec<String>,
    pub os: String,
    pub arch: String,
}

impl TaskAction {
    /// A task action is valid when its version is 1, its kind is `task`, and
    /// none of its texts holds a NUL character.
    pub open spec fn spec_valid(&self) -> bool {
        &&& self.version == 1
        &&& self.kind@ == task_kind()
        &&& no_nul(utf8(self.task@))
        &&& forall|i: int| 0 <= i < self.run@.len() ==> (#[trigger] self.run@[i]).spec_valid()
        &&& texts_valid(self.args@)
        &&& optional_text_valid(self.shell)
        &&& texts_valid(self.outputs@)
        &&& no_nul(utf8(self.root@))
        &&& no_nul(utf8(self.source_hash@))
        &&& texts_valid(self.dependency_keys@)
        &&& environment_valid(self.environment.items())
        &&& forall|i: int|
            0 <= i < self.command_inputs@.len() ==> (#[trigger] self.command_inputs@[i]).spec_valid()
        &&& text_map_valid(self.vars.items())
        &&& texts_valid(self.tools@)
        &&& no_nul(utf8(self.os@))
        &&& no_nul(utf8(self.arch@))
    }

    /// Whether the task action is valid (see `spec_valid`).
    pub fn validate(&self) -> (r: bool)
        ensures
            r == self.spec_valid(),
    {
        self.version == 1 && is_task_kind(&self.kind) && valid_string(self.task.as_str())
            && valid_run_entries(self.run.as_slice()) && valid_strings(self.args.as_slice())
            && valid_optional_string(&self.shell) && valid_strings(self.outputs.as_slice())
            && valid_string(self.root.as_str()) && valid_string(self.source_hash.as_str())
            && valid_strings(self.dependency_keys.as_slice()) && valid_environment(
            self.environment.entries(),
        ) && valid_command_inputs(self.command_inputs.as_slice()) && valid_string_map(
            self.vars.entries(),
        ) && valid_strings(self.tools.as_slice()) && valid_string(self.os.as_str()) && valid_string(
            self.arch.as_str(),
        )
    }
}

fn valid_run_entries(entries: &[TaskRunEntry]) -> (r: bool)
    ensures
        r == forall|i: int| 0 <= i < entries@.len() ==> (#[trigger] entries@[i]).spec_valid(),
{
    let mut i: usize = 0;
    while i < entries.len()
        invariant
            i <= entries@.len(),
            forall|j: int| 0 <= j < i ==> (#[trigger] entries@[j]).spec_valid(),
        decreases entries@.len() - i,
    {
        if !entries[i].validate() {
            return false;
        }
        i = i + 1;
    }
    true
}

fn valid_command_inputs(inputs: &[TaskCommandInput]) -> (r: bool)
    ensures
        r == forall|i: int| 0 <= i < inputs@.len() ==> (#[trigger] inputs@[i]).spec_valid(),
{
    let mut i: usize = 0;
    while i < inputs.len()
        invariant
            i <= inputs@.len(),
            forall|j: int| 0 <= j < i ==> (#[trigger] inputs@[j]).spec_valid(),
        decreases inputs@.len() - i,
    {
        if !inputs[i].validate() {
            return false;
        }
        i = i + 1;
    }
    true
}

/// Which stream a line of task output came from.
#[derive(Clone, Copy, Debug, PartialEq, Eq, Structural)]
pub enum TaskOutputStream {
    Stdout,
    Stderr,
}

/// One line of task output, kept for replay.
#[derive(Debug)]
pub struct TaskOutput {
    pub stream: TaskOutputStream,
    pub line: String,
}

impl TaskOutput {
    /// The line holds no NUL character.
    pub open spec fn spec_valid(&self) -> bool {
        no_nul(utf8(self.line@))
    }

    /// Whether the line holds no NUL character.
    pub fn validate(&self) -> (r: bool)
        ensures
            r == self.spec_valid(),
    {
        valid_string(self.line.as_str())
    }
}

/// A captured output line is valid exactly when none of its bytes is NUL,
/// whichever stream it came from; the empty line is valid.
pub proof fn law_output_line_valid(output: TaskOutput)
    ensures
        output.spec_valid() == (forall|i: int|
            0 <= i < utf8(output.line@).len() ==> #[trigger] utf8(output.line@)[i] != 0),
        output.line@.len() == 0 ==> output.spec_valid(),
{
    if output.line@.len() == 0 {
        assert(utf8(output.line@) =~= Seq::<u8>::empty());
    }
}

/// Client metadata of a task action result.
#[derive(Debug)]
pub struct TaskMetadata {
    pub version: u8,
    pub kind: String,
    pub task_identity: String,
    pub roots: Vec<String>,
    pub output: Vec<TaskOutput>,
    pub restored_bytes: u64,
    pub execution_duration_ns: u64,
}

impl TaskMetadata {
    /// Task metadata is valid when its version is 1, its kind is `task` and
    /// none of its texts holds a NUL character.
    pub open spec fn spec_valid(&self) -> bool {
        &&& self.version == 1
        &&& self.kind@ == task_kind()
        &&& no_nul(utf8(self.task_identity@))
        &&& texts_valid(self.roots@)
        &&& forall|i: int| 0 <= i < self.output@.len() ==> (#[trigger] self.output@[i]).spec_valid()
    }

    /// Whether the task metadata is valid (see `spec_valid`).
    pub fn validate(&self) -> (r: bool)
        ensures
            r == self.spec_valid(),
    {
        if !(self.version == 1 && is_task_kind(&self.kind) && valid_string(
            self.task_identity.as_str(),
        ) && valid_strings(self.roots.as_slice())) {
            return false;
        }
        let mut i: usize = 0;
        while i < self.output.len()
            invariant
                i <= self.output@.len(),
                forall|j: int| 0 <= j < i ==> (#[trigger] self.output@[j]).spec_valid(),
            decreases self.output@.len() - i,
        {
            if !self.output[i].validate() {
                return false;
            }
            i = i + 1;
        }
        true
    }
}

/// The compiler that a rustc action runs.
#[derive(Debug)]
pub struct RustcCompiler {
    pub toolchain: String,
    pub rustc_version: String,
    pub host: String,
}

impl RustcCompiler {
    /// Each of the three texts is non-empty and holds no NUL character.
    pub open spec fn spec_valid(&self) -> bool {
        &&& self.toolchain@.len() != 0 && no_nul(utf8(self.toolchain@))
        &&& self.rustc_version@.len() != 0 && no_nul(utf8(self.rustc_version@))
        &&& self.host@.len() != 0 && no_nul(utf8(self.host@))
    }

    /// Whether the compiler description is valid (see `spec_valid`).
    pub fn validate(&self) -> (r: bool)
        ensures
            r == self.spec_valid(),
    {
        !self.toolchain.as_str().is_empty() && valid_string(self.toolchain.as_str())
            && !self.rustc_version.as_str().is_empty() && valid_string(self.rustc_version.as_str())
            && !self.host.as_str().is_empty() && valid_string(self.host.as_str())
    }
}

/// One source input of a rustc action: a normalized path and the digest of
/// its local content (an identity for the action key, not a stored blob).
#[derive(Debug)]
pub struct RustcInput {
    pub path: String,
    pub digest: Digest,
}

impl RustcInput {
    /// The path is normalized and the digest is valid.
    pub open spec fn spec_valid(&self) -> bool {
        normalized_path(utf8(self.path@)) && digest_valid(self.digest@)
    }

    /// Whether the input is valid (see `spec_valid`).
    pub fn validate(&self) -> (r: bool)
        ensures
            r == self.spec_valid(),
    {
        valid_normalized_path(self.path.as_str()) && self.digest.validate()
    }
}

/// The descriptor of a rustc action.
#[derive(Debug)]
pub struct RustcAction {
    pub version: u8,
    pub kind: String,
    pub adapter_version: u8,
    pub compiler: RustcCompiler,
    pub arguments: Vec<String>,
    /// Environment entries, by key; `None` unsets a key.
    pub environment: TextMap<Option<String>>,
    pub inputs: Vec<RustcInput>,
}

/// Every key is non-empty and holds no NUL character, nor does any value
/// that is present.
pub open spec fn rustc_environment_valid(entries: Seq<(String, Option<String>)>) -> bool {
    forall|i: int|
        0 <= i < entries.len() ==> (#[trigger] entries[i]).0@.len() != 0 && no_nul(
            utf8(entries[i].0@),
        ) && optional_text_valid(entries[i].1)
}

fn valid_rustc_environment(entries: &[(String, Option<String>)]) -> (r: bool)
    ensures
        r == rustc_environment_valid(entries@),
{
    let mut i: usize = 0;
    while i < entries.len()
        invariant
            i <= entries@.len(),
            forall|j: int|
                0 <= j < i ==> (#[trigger] entries@[j]).0@.len() != 0 && no_nul(
                    utf8(entries@[j].0@),
                ) && optional_text_valid(entries@[j].1),
        decreases entries@.len() - i,
    {
        let (key, value) = &entries[i];
        if !(!key.as_str().is_empty() && valid_string(key.as_str()) && valid_optional_string(value)) {
            return false;
        }
        i = i + 1;
    }
    true
}

impl RustcAction {
    /// A rustc action is valid when its version is 1, its kind is `rustc`,
    /// its adapter version is positive, its compiler, arguments and
    /// environment are valid, and it has at least one input, every input
    /// valid and no two inputs with the same path.
    pub open spec fn spec_valid(&self) -> bool {
        &&& self.version == 1
        &&& self.kind@ == rustc_kind()
        &&& self.adapter_version > 0
        &&& self.compiler.spec_valid()
        &&& texts_valid(self.arguments@)
        &&& rustc_environment_valid(self.environment.items())
        &&& self.inputs@.len() != 0
        &&& forall|i: int| 0 <= i < self.inputs@.len() ==> (#[trigger] self.inputs@[i]).spec_valid()
        &&& forall|i: int, j: int|
            0 <= i < j < self.inputs@.len() ==> (#[trigger] self.inputs@[i]).path@
                != (#[trigger] self.inputs@[j]).path@
    }

    /// Whether the rustc action is valid (see `spec_valid`).
    pub fn validate(&self) -> (r: bool)
        ensures
            r == self.spec_valid(),
    {
        if !(self.version == 1 && is_rustc_kind(&self.kind) && self.adapter_version > 0
            && self.compiler.validate() && valid_strings(self.arguments.as_slice())
            && valid_rustc_environment(self.environment.entries()) && self.inputs.len() != 0) {
            return false;
        }
        let ghost inputs = self.inputs@;
        let mut paths = text_set_new();
        let mut i: usize = 0;
        while i < self.inputs.len()
            invariant
                inputs == self.inputs@,
                i <= inputs.len(),
                forall|j: int| 0 <= j < i ==> (#[trigger] inputs[j]).spec_valid(),
                forall|j: int, k: int|
                    0 <= j < k < i ==> (#[trigger] inputs[j]).path@ != (#[trigger] inputs[k]).path@,
                forall|p: Seq<char>|
                    text_set_elements(paths).contains(p) <==> exists|j: int|
                        0 <= j < i && p == (#[trigger] inputs[j]).path@,
            decreases inputs.len() - i,
        {
            let input = &self.inputs[i];
            if !input.validate() {
                return false;
            }
            let ghost before = text_set_elements(paths);
            let fresh = text_set_insert(&mut paths, input.path.clone());
            if !fresh {
                return false;
            }
            proof {
                assert forall|j: int| 0 <= j < i implies inputs[j].path@ != inputs[i as int].path@ by {
                    if inputs[j].path@ == inputs[i as int].path@ {
                        assert(before.contains(inputs[j].path@));
                    }
                }
                assert forall|p: Seq<char>|
                    text_set_elements(paths).contains(p) <==> exists|j: int|
                        0 <= j < i + 1 && p == (#[trigger] inputs[j]).path@ by {
                    if p == inputs[i as int].path@ {
                        assert(0 <= i < i + 1);
                    }
                }
            }
            i = i + 1;
        }
        true
    }
}

/// Client metadata of a rustc action result: the blobs holding the
/// compiler's raw standard output and standard error.
#[derive(Debug)]
pub struct RustcMetadata {
    pub version: u8,
    pub kind: String,
    pub stdout: Digest,
    pub stderr: Digest,
}

impl RustcMetadata {
    /// Version 1, kind `rustc`, and both digests valid.
    pub open spec fn spec_valid(&self) -> bool {
        &&& self.version == 1
        &&& self.kind@ == rustc_kind()
        &&& digest_valid(self.stdout@)
        &&& digest_valid(self.stderr@)
    }

    /// Whether the rustc metadata is valid (see `spec_valid`).
    pub fn validate(&self) -> (r: bool)
        ensures
            r == self.spec_valid(),
    {
        self.version == 1 && is_rustc_kind(&self.kind) && self.stdout.validate()
            && self.stderr.validate()
    }
}

/// `k` is the first position of `b` in `s`.
pub open spec fn first_position(s: Seq<u8>, b: u8, k: int) -> bool {
    &&& 0 <= k < s.len()
    &&& s[k] == b
    &&& forall|j: int| 0 <= j < k ==> s[j] != b
}

/// A placeholder name byte: ASCII letter, digit or `_`.
pub open spec fn is_placeholder_byte(b: u8) -> bool {
    is_ascii_alnum(b) || b == 0x5f
}

/// The part of a normalized path after its placeholder: empty, or `/`
/// followed by a non-empty relative path without `\` or NUL whose
/// components are all plain.
pub open spec fn normalized_suffix(suffix: Seq<u8>) -> bool {
    suffix.len() == 0 || ({
        let rest = suffix.subrange(1, suffix.len() as int);
        &&& suffix[0] == 0x2f
        &&& rest.len() != 0
        &&& !has_byte(rest, 0x5c)
        &&& !has_byte(rest, 0)
        &&& plain_components(rest)
    })
}

/// A normalized path is `${name}` followed by a normalized suffix, where the
/// name is non-empty and made of ASCII letters, digits and `_`, and ends at
/// the first `}`.
pub open spec fn normalized_path(p: Seq<u8>) -> bool {
    &&& p.len() >= 2
    &&& p[0] == 0x24
    &&& p[1] == 0x7b
    &&& exists|k: int|
        #![trigger first_position(p.subrange(2, p.len() as int), 0x7d, k)]
        first_position(p.subrange(2, p.len() as int), 0x7d, k) && k != 0 && (forall|j: int|
            0 <= j < k ==> is_placeholder_byte(#[trigger] p[j + 2])) && normalized_suffix(
            p.subrange(k + 3, p.len() as int),
        )
}

/// Whether a path is normalized (see `normalized_path`).
pub fn valid_normalized_path(path: &str) -> (r: bool)
    ensures
        r == normalized_path(utf8(path@)),
{
    let p = str_bytes(path);
    if p.len() < 2 || p[0] != 0x24 || p[1] != 0x7b {
        return false;
    }
    let ghost rest = p@.subrange(2, p@.len() as int);
    let mut k: usize = 2;
    while k < p.len() && p[k] != 0x7d
        invariant
            2 <= k <= p@.len(),
            rest == p@.subrange(2, p@.len() as int),
            forall|j: int| 2 <= j < k ==> p@[j] != 0x7d,
        decreases p@.len() - k,
    {
        k = k + 1;
    }
    if k == p.len() {
        proof {
            assert forall|m: int| !first_position(rest, 0x7d, m) by {
                if 0 <= m < rest.len() {
                    assert(rest[m] == p@[m + 2]);
                }
            }
        }
        return false;
    }
    proof {
        assert(first_position(rest, 0x7d, k - 2)) by {
            assert forall|j: int| 0 <= j < k - 2 implies rest[j] != 0x7d by {
                assert(rest[j] == p@[j + 2]);
            }
        }
        assert forall|m: int| first_position(rest, 0x7d, m) implies m == k - 2 by {
            if m < k - 2 {
                assert(rest[m] == p@[m + 2]);
            } else if m > k - 2 {
                assert(rest[k - 2] == p@[k as int]);
            }
        }
    }
    if k == 2 {
        return false;
    }
    let mut j: usize = 2;
    while j < k
        invariant
            2 <= j <= k < p@.len(),
            p@ == utf8(path@),
            rest == p@.subrange(2, p@.len() as int),
            forall|m: int| first_position(rest, 0x7d, m) ==> m == k - 2,
            forall|m: int| 0 <= m < j - 2 ==> is_placeholder_byte(#[trigger] p@[m + 2]),
        decreases k - j,
    {
        let b = p[j];
        if !((0x30 <= b && b <= 0x39) || (0x41 <= b && b <= 0x5a) || (0x61 <= b && b <= 0x7a) || b
            == 0x5f) {
            proof {
                assert(!is_placeholder_byte(p@[(j - 2) + 2]));
            }
            return false;
        }
        j = j + 1;
    }
    let suffix = slice_from(p, k + 1);
    let ok = valid_suffix(suffix);
    proof {
        assert(suffix@ == p@.subrange(k + 1, p@.len() as int));
        assert(p@.subrange((k - 2) + 3, p@.len() as int) == suffix@);
    }
    ok
}

/// The bytes of `s` from `start` on.
fn slice_from(s: &[u8], start: usize) -> (r: &[u8])
    requires
        start <= s@.len(),
    ensures
        r@ == s@.subrange(start as int, s@.len() as int),
{
    let (_, tail) = s.split_at(start);
    tail
}

fn valid_suffix(suffix: &[u8]) -> (r: bool)
    ensures
        r == normalized_suffix(suffix@),
{
    if suffix.len() == 0 {
        return true;
    }
    if suffix[0] != 0x2f {
        return false;
    }
    let rest = slice_from(suffix, 1);
    rest.len() != 0 && !crate::text::contains_byte(rest, 0x5c) && !crate::text::contains_byte(
        rest,
        0,
    ) && all_components_plain(rest)
}

/// One directory of an output tree.
#[derive(Debug)]
pub struct Directory {
    pub directories: Vec<DirectoryNode>,
    pub files: Vec<FileNode>,
    pub symlinks: Vec<SymlinkNode>,
    pub version: u8,
}

/// A subdirectory entry.
#[derive(Debug)]
pub struct DirectoryNode {
    pub digest: Digest,
    pub mode: u32,
    pub name: String,
}

/// A file entry.
#[derive(Debug)]
pub struct FileNode {
    pub digest: Digest,
    pub executable: bool,
    pub mode: u32,
    pub name: String,
}

/// A symbolic-link entry.
#[derive(Debug)]
pub struct SymlinkNode {
    pub mode: u32,
    pub name: String,
    pub target: String,
}

} // verus!
