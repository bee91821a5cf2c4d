//! What the HTTP API decides: request headers as the API reads them, the
//! errors it answers with, and the checks of each request.

use crate::collections::{text_set_elements, text_set_insert, text_set_new};
use crate::model::{
    ActionResult, Algorithm, Digest, DigestView, Directory, algorithm_from_name, algorithm_name,
    digest_valid,
    optional_digest_view,
};
use crate::text::{
    all_components_plain, concat, has_byte, plain_components, str_bytes, string_bytes, utf8,
};
use crate::auth::Authorizer;
use crate::metadata::CommitOutcome;
use crate::metrics::Metrics;
use std::collections::HashSet;
use std::sync::Arc;
use vstd::prelude::*;
use vstd::string::StringExecFns;

verus! {

/// The request headers the API reads, each as text when present and made of
/// visible ASCII.
#[derive(Clone, Debug)]
pub struct RequestHeaders {
    /// `Mise-Cache-Protocol`
    pub protocol: Option<String>,
    /// `Mise-Cache-Namespace`
    pub namespace: Option<String>,
    /// `Authorization`
    pub authorization: Option<String>,
    /// `If-None-Match`
    pub if_none_match: Option<String>,
}

/// An API error: an HTTP status, a message for the client, and whether the
/// response advertises the protocol version the server speaks.
#[derive(Debug)]
pub struct ApiError {
    status: u16,
    message: String,
    advertise_protocol: bool,
}

/// An API error by value.
pub struct ApiErrorView {
    pub status: u16,
    pub message: Seq<char>,
    pub advertise_protocol: bool,
}

impl View for ApiError {
    type V = ApiErrorView;

    closed spec fn view(&self) -> ApiErrorView {
        ApiErrorView {
            status: self.status,
            message: self.message@,
            advertise_protocol: self.advertise_protocol,
        }
    }
}

/// An error with a status and a message, not advertising the protocol.
pub open spec fn error_view(status: u16, message: Seq<char>) -> ApiErrorView {
    ApiErrorView { status, message, advertise_protocol: false }
}

impl ApiError {
    /// The HTTP status code.
    pub fn status(&self) -> (r: u16)
        ensures
            r == self@.status,
    {
        self.status
    }

    /// The message for the client.
    pub fn message(&self) -> (r: &str)
        ensures
            r@ == self@.message,
    {
        self.message.as_str()
    }

    /// Whether the response advertises the protocol version.
    pub fn advertise_protocol(&self) -> (r: bool)
        ensures
            r == self@.advertise_protocol,
    {
        self.advertise_protocol
    }

    fn new(status: u16, message: &str) -> (r: Self)
        ensures
            r@ == error_view(status, message@),
    {
        ApiError { status, message: String::from_str(message), advertise_protocol: false }
    }

    /// 400 Bad Request.
    pub fn bad_request(message: &str) -> (r: Self)
        ensures
            r@ == error_view(400, message@),
    {
        Self::new(400, message)
    }

    /// 401 Unauthorized.
    pub fn unauthorized(message: &str) -> (r: Self)
        ensures
            r@ == error_view(401, message@),
    {
        Self::new(401, message)
    }

    /// 403 Forbidden.
    pub fn forbidden(message: &str) -> (r: Self)
        ensures
            r@ == error_view(403, message@),
    {
        Self::new(403, message)
    }

    /// 404 Not Found.
    pub fn not_found(message: &str) -> (r: Self)
        ensures
            r@ == error_view(404, message@),
    {
        Self::new(404, message)
    }

    /// 409 Conflict.
    pub fn conflict(message: &str) -> (r: Self)
        ensures
            r@ == error_view(409, message@),
    {
        Self::new(409, message)
    }

    /// 413 Payload Too Large.
    pub fn too_large(message: &str) -> (r: Self)
        ensures
            r@ == error_view(413, message@),
    {
        Self::new(413, message)
    }

    /// 422 Unprocessable Entity.
    pub fn unprocessable(message: &str) -> (r: Self)
        ensures
            r@ == error_view(422, message@),
    {
        Self::new(422, message)
    }

    /// 412 Precondition Failed.
    pub fn precondition(message: &str) -> (r: Self)
        ensures
            r@ == error_view(412, message@),
    {
        Self::new(412, message)
    }

    /// The error for a request that does not speak protocol version 1.
    pub open spec fn upgrade_required_view() -> ApiErrorView {
        ApiErrorView {
            status: 426,
            message: "mise cache protocol version 1 is required"@,
            advertise_protocol: true,
        }
    }

    /// 426 Upgrade Required, advertising protocol version 1.
    pub fn upgrade_required() -> (r: Self)
        ensures
            r@ == Self::upgrade_required_view(),
    {
        ApiError {
            status: 426,
            message: String::from_str("mise cache protocol version 1 is required"),
            advertise_protocol: true,
        }
    }

    /// 500 Internal Server Error, with a message that reveals nothing of the
    /// cause.
    pub fn internal() -> (r: Self)
        ensures
            r@ == error_view(500, "internal server error"@),
    {
        Self::new(500, "internal server error")
    }
}

/// The kind of action a result answers.
#[derive(Clone, Copy, Debug, PartialEq, Eq, Structural)]
pub enum ActionKind {
    Rustc,
    Task,
}

/// The error for a digest whose hash is not 64 lowercase hexadecimal bytes.
pub open spec fn invalid_digest_view() -> ApiErrorView {
    error_view(400, "invalid digest"@)
}

/// Accepts a valid digest, and answers any other with 400 `invalid digest`.
pub fn validate_digest(digest: &Digest) -> (r: Result<(), ApiError>)
    ensures
        match r {
            Ok(()) => digest_valid(digest@),
            Err(e) => !digest_valid(digest@) && e@ == invalid_digest_view(),
        },
{
    if digest.validate() {
        Ok(())
    } else {
        Err(ApiError::bad_request("invalid digest"))
    }
}

/// The digest that a URL path names by algorithm, hash and size: 400 when
/// the algorithm is unknown or the hash is not valid.
pub fn parse_digest(parts: (String, String, u64)) -> (r: Result<Digest, ApiError>)
    ensures
        ({
            let (algorithm, hash, size) = parts;
            if algorithm_from_name(algorithm@) is None {
                r matches Err(e) && e@ == error_view(400, "unsupported digest algorithm"@)
            } else {
                let a = algorithm_from_name(algorithm@).unwrap();
                let d = DigestView { algorithm: a, hash: hash@, size };
                if digest_valid(d) {
                    r matches Ok(digest) && digest@ == d
                } else {
                    r matches Err(e) && e@ == invalid_digest_view()
                }
            }
        }),
{
    let (algorithm, hash, size) = parts;
    let algorithm = match Algorithm::from_name(algorithm.as_str()) {
        Some(a) => a,
        None => {
            return Err(ApiError::bad_request("unsupported digest algorithm"));
        },
    };
    let digest = Digest { algorithm, hash, size };
    validate_digest(&digest)?;
    Ok(digest)
}

/// The action digest a URL path names: a valid BLAKE3 digest, 400 otherwise.
pub fn parse_action_digest(parts: (String, String, u64)) -> (r: Result<Digest, ApiError>)
    ensures
        ({
            let (algorithm, hash, size) = parts;
            if algorithm_from_name(algorithm@) is None {
                r matches Err(e) && e@ == error_view(400, "unsupported digest algorithm"@)
            } else {
                let a = algorithm_from_name(algorithm@).unwrap();
                let d = DigestView { algorithm: a, hash: hash@, size };
                if !digest_valid(d) {
                    r matches Err(e) && e@ == invalid_digest_view()
                } else if a != Algorithm::Blake3 {
                    r matches Err(e) && e@ == error_view(
                        400,
                        "action result keys must use blake3"@,
                    )
                } else {
                    r matches Ok(digest) && digest@ == d
                }
            }
        }),
{
    let digest = parse_digest(parts)?;
    if digest.algorithm != Algorithm::Blake3 {
        return Err(ApiError::bad_request("action result keys must use blake3"));
    }
    Ok(digest)
}

/// The text `*`.
pub open spec fn any_match() -> Seq<char> {
    seq!['*']
}

/// Writes of immutable objects must say `If-None-Match: *`; any other
/// request gets 412.
pub fn require_immutable_precondition(headers: &RequestHeaders) -> (r: Result<(), ApiError>)
    ensures
        match r {
            Ok(()) => headers.if_none_match matches Some(v) && v@ == any_match(),
            Err(e) => !(headers.if_none_match matches Some(v) && v@ == any_match()) && e@
                == error_view(412, "If-None-Match: * is required"@),
        },
{
    proof {
        reveal_strlit("*");
        assert("*"@ =~= any_match());
    }
    let ok = match &headers.if_none_match {
        Some(v) => crate::text::same_text(v.as_str(), "*"),
        None => false,
    };
    if ok {
        Ok(())
    } else {
        Err(ApiError::precondition("If-None-Match: * is required"))
    }
}

/// A result body must be of version 1 and answer the action its URL names.
pub fn check_result_request(result: &ActionResult, action: &Digest) -> (r: Result<(), ApiError>)
    ensures
        match r {
            Ok(()) => result.version == 1 && result.action@ == action@,
            Err(e) => !(result.version == 1 && result.action@ == action@) && e@ == error_view(
                400,
                "action result does not match request"@,
            ),
        },
{
    if result.version != 1 || !result.action.same_as(action) {
        Err(ApiError::bad_request("action result does not match request"))
    } else {
        Ok(())
    }
}

/// A rustc result must carry both client metadata and an output tree.
pub fn validate_action_result_shape(result: &ActionResult, action_kind: ActionKind) -> (r: Result<
    (),
    ApiError,
>)
    ensures
        match r {
            Ok(()) => action_kind == ActionKind::Rustc ==> result.metadata is Some
                && result.output_root is Some,
            Err(e) => action_kind == ActionKind::Rustc && (result.metadata is None
                || result.output_root is None) && e@ == error_view(
                422,
                "rustc action results require metadata and an output root"@,
            ),
        },
{
    if action_kind == ActionKind::Rustc && (result.metadata.is_none()
        || result.output_root.is_none()) {
        return Err(ApiError::unprocessable("rustc action results require metadata and an output root"));
    }
    Ok(())
}

/// A task metadata root is a safe relative path: non-empty, not starting
/// with `/`, without `\\` or NUL, and with only plain components.
pub open spec fn safe_relative_path(root: Seq<u8>) -> bool {
    &&& root.len() != 0
    &&& root[0] != 0x2f
    &&& !has_byte(root, 0x5c)
    &&& !has_byte(root, 0)
    &&& plain_components(root)
}

/// Accepts a safe relative path (see `safe_relative_path`), and answers
/// any other with 422.
pub fn validate_task_root(root: &str) -> (r: Result<(), ApiError>)
    ensures
        match r {
            Ok(()) => safe_relative_path(utf8(root@)),
            Err(e) => !safe_relative_path(utf8(root@)) && e@ == error_view(
                422,
                "task metadata root must be a safe relative path"@,
            ),
        },
{
    let b = str_bytes(root);
    if b.len() == 0 || b[0] == 0x2f || crate::text::contains_byte(b, 0x5c)
        || crate::text::contains_byte(b, 0) || !all_components_plain(b) {
        return Err(ApiError::unprocessable("task metadata root must be a safe relative path"));
    }
    Ok(())
}

/// A directory entry name is non-empty, neither `.` nor `..`, holds no `/`,
/// `\\` or NUL, and its mode fits in the permission bits `0o7777`.
pub open spec fn entry_valid(name: Seq<u8>, mode: u32) -> bool {
    &&& name.len() != 0
    &&& name != seq![0x2eu8]
    &&& name != seq![0x2eu8, 0x2eu8]
    &&& !has_byte(name, 0x2f)
    &&& !has_byte(name, 0x5c)
    &&& !has_byte(name, 0)
    &&& mode <= 0o7777
}

/// Checks one directory entry and records its name: 422 when the entry is
/// not valid, or when its name was recorded before.
pub fn validate_entry(names: &mut HashSet<String>, name: &str, mode: u32) -> (r: Result<
    (),
    ApiError,
>)
    ensures
        !entry_valid(utf8(name@), mode) ==> (r matches Err(e) && e@ == error_view(
            422,
            "invalid directory entry"@,
        ) && text_set_elements(*final(names)) == text_set_elements(*old(names))),
        entry_valid(utf8(name@), mode) && text_set_elements(*old(names)).contains(name@) ==> (
        r matches Err(e) && e@ == error_view(422, "duplicate directory entry"@)),
        entry_valid(utf8(name@), mode) && !text_set_elements(*old(names)).contains(name@) ==> r is Ok,
        entry_valid(utf8(name@), mode) ==> text_set_elements(*final(names)) == text_set_elements(
            *old(names),
        ).insert(name@),
{
    let b = str_bytes(name);
    let plain = b.len() != 0 && !(b.len() == 1 && b[0] == 0x2e) && !(b.len() == 2 && b[0] == 0x2e
        && b[1] == 0x2e);
    proof {
        if b@.len() == 1 && b@[0] == 0x2e {
            assert(b@ =~= seq![0x2eu8]);
        }
        if b@.len() == 2 && b@[0] == 0x2e && b@[1] == 0x2e {
            assert(b@ =~= seq![0x2eu8, 0x2eu8]);
        }
        assert(seq![0x2eu8].len() == 1 && seq![0x2eu8][0] == 0x2e);
        assert(seq![0x2eu8, 0x2eu8].len() == 2 && seq![0x2eu8, 0x2eu8][0] == 0x2e
            && seq![0x2eu8, 0x2eu8][1] == 0x2e);
    }
    if !plain || crate::text::contains_byte(b, 0x2f) || crate::text::contains_byte(b, 0x5c)
        || crate::text::contains_byte(b, 0) || mode > 0o7777 {
        return Err(ApiError::unprocessable("invalid directory entry"));
    }
    if !text_set_insert(names, String::from_str(name)) {
        return Err(ApiError::unprocessable("duplicate directory entry"));
    }
    Ok(())
}

/// One entry of a directory object as the entry checks read it: its name,
/// its mode, and for a symbolic link its target.
pub struct EntryItem {
    pub name: Seq<char>,
    pub mode: u32,
    pub target: Option<Seq<char>>,
}

/// The entries of a directory object in the order they are checked:
/// subdirectories, then files, then symbolic links.
pub open spec fn directory_items(d: Directory) -> Seq<EntryItem> {
    d.directories@.map_values(
        |n: crate::model::DirectoryNode| EntryItem { name: n.name@, mode: n.mode, target: None },
    ) + d.files@.map_values(
        |n: crate::model::FileNode| EntryItem { name: n.name@, mode: n.mode, target: None },
    ) + d.symlinks@.map_values(
        |n: crate::model::SymlinkNode| EntryItem {
            name: n.name@,
            mode: n.mode,
            target: Some(n.target@),
        },
    )
}

/// The first problem among `items`, given the names already `seen`: an
/// invalid entry, a repeated name, or an empty or NUL-holding link target.
pub open spec fn entries_check(items: Seq<EntryItem>, seen: Set<Seq<char>>) -> Result<
    (),
    ApiErrorView,
>
    decreases items.len(),
{
    if items.len() == 0 {
        Ok(())
    } else {
        let item = items[0];
        if !entry_valid(utf8(item.name), item.mode) {
            Err(error_view(422, "invalid directory entry"@))
        } else if seen.contains(item.name) {
            Err(error_view(422, "duplicate directory entry"@))
        } else if item.target matches Some(t) && (t.len() == 0 || has_byte(utf8(t), 0)) {
            Err(error_view(422, "invalid symlink target"@))
        } else {
            entries_check(items.drop_first(), seen.insert(item.name))
        }
    }
}

/// Checks one entry against the names seen so far, and records its name.
fn check_item(names: &mut HashSet<String>, name: &str, mode: u32, target: Option<&str>) -> (r:
    Result<(), ApiError>)
    ensures
        ({
            let item = EntryItem {
                name: name@,
                mode,
                target: match target {
                    Some(t) => Some(t@),
                    None => None,
                },
            };
            match entries_check(seq![item], text_set_elements(*old(names))) {
                Ok(()) => r is Ok && text_set_elements(*final(names)) == text_set_elements(
                    *old(names),
                ).insert(name@),
                Err(expected) => r matches Err(e) && e@ == expected,
            }
        }),
{
    proof {
        let item = EntryItem {
            name: name@,
            mode,
            target: match target {
                Some(t) => Some(t@),
                None => None,
            },
        };
        assert(seq![item].drop_first() =~= Seq::<EntryItem>::empty());
        assert(seq![item][0] == item);
        assert(entries_check(
            Seq::<EntryItem>::empty(),
            text_set_elements(*old(names)).insert(name@),
        ) == Ok::<(), ApiErrorView>(()));
    }
    validate_entry(names, name, mode)?;
    if let Some(t) = target {
        if t.is_empty() || crate::text::contains_byte(str_bytes(t), 0) {
            return Err(ApiError::unprocessable("invalid symlink target"));
        }
    }
    Ok(())
}

/// Splitting the checked entries: the first problem of `a + b` is that of
/// `a`, or, when `a` has none, that of `b` after the names of `a`.
proof fn lemma_entries_check_step(items: Seq<EntryItem>, k: int, seen: Set<Seq<char>>)
    requires
        0 <= k < items.len(),
    ensures
        entries_check(items.subrange(k, items.len() as int), seen) == match entries_check(
            seq![items[k]],
            seen,
        ) {
            Ok(()) => entries_check(items.subrange(k + 1, items.len() as int), seen.insert(items[k].name)),
            Err(e) => Err(e),
        },
{
    let rest = items.subrange(k, items.len() as int);
    assert(rest[0] == items[k]);
    assert(rest.drop_first() =~= items.subrange(k + 1, items.len() as int));
    assert(seq![items[k]].drop_first() =~= Seq::<EntryItem>::empty());
    assert(seq![items[k]][0] == items[k]);
    assert(entries_check(Seq::<EntryItem>::empty(), seen.insert(items[k].name)) == Ok::<
        (),
        ApiErrorView,
    >(()));
}

/// Checks every entry of a directory object (see `entries_check`).
pub fn validate_directory_entries(directory: &Directory) -> (r: Result<(), ApiError>)
    ensures
        match (r, entries_check(directory_items(*directory), Set::empty())) {
            (Ok(()), Ok(())) => true,
            (Err(e), Err(expected)) => e@ == expected,
            _ => false,
        },
{
    let ghost items = directory_items(*directory);
    let ghost nd = directory.directories@.len() as int;
    let ghost nf = directory.files@.len() as int;
    let mut names = text_set_new();
    assert(items.subrange(0, items.len() as int) =~= items);
    let mut i: usize = 0;
    while i < directory.directories.len()
        invariant
            items == directory_items(*directory),
            nd == directory.directories@.len(),
            i <= nd,
            entries_check(items, Set::empty()) == entries_check(
                items.subrange(i as int, items.len() as int),
                text_set_elements(names),
            ),
        decreases nd - i,
    {
        let n = &directory.directories[i];
        proof {
            assert(items[i as int] == EntryItem { name: n.name@, mode: n.mode, target: None });
            lemma_entries_check_step(items, i as int, text_set_elements(names));
        }
        check_item(&mut names, n.name.as_str(), n.mode, None)?;
        i = i + 1;
    }
    let mut i: usize = 0;
    while i < directory.files.len()
        invariant
            items == directory_items(*directory),
            nd == directory.directories@.len(),
            nf == directory.files@.len(),
            i <= nf,
            entries_check(items, Set::empty()) == entries_check(
                items.subrange(nd + i, items.len() as int),
                text_set_elements(names),
            ),
        decreases nf - i,
    {
        let n = &directory.files[i];
        proof {
            assert(items[nd + i] == EntryItem { name: n.name@, mode: n.mode, target: None });
            lemma_entries_check_step(items, nd + i, text_set_elements(names));
        }
        check_item(&mut names, n.name.as_str(), n.mode, None)?;
        i = i + 1;
    }
    let mut i: usize = 0;
    while i < directory.symlinks.len()
        invariant
            items == directory_items(*directory),
            nd == directory.directories@.len(),
            nf == directory.files@.len(),
            items.len() == nd + nf + directory.symlinks@.len(),
            i <= directory.symlinks@.len(),
            entries_check(items, Set::empty()) == entries_check(
                items.subrange(nd + nf + i, items.len() as int),
                text_set_elements(names),
            ),
        decreases directory.symlinks@.len() - i,
    {
        let n = &directory.symlinks[i];
        proof {
            assert(items[nd + nf + i] == EntryItem {
                name: n.name@,
                mode: n.mode,
                target: Some(n.target@),
            });
            lemma_entries_check_step(items, nd + nf + i, text_set_elements(names));
        }
        check_item(&mut names, n.name.as_str(), n.mode, Some(n.target.as_str()))?;
        i = i + 1;
    }
    proof {
        assert(items.subrange(items.len() as int, items.len() as int) =~= Seq::<EntryItem>::empty());
    }
    Ok(())
}

/// The most digests one missing-blobs query may check.
pub const MAX_BATCH_ITEMS: usize = 10000;

/// A missing-blobs query is answered only for at most 10000 digests, all
/// valid: 400 otherwise, for the count first and then for the first digest
/// that is not valid.
pub fn check_missing_request(digests: &[Digest]) -> (r: Result<(), ApiError>)
    ensures
        match r {
            Ok(()) => digests@.len() <= MAX_BATCH_ITEMS && forall|i: int|
                0 <= i < digests@.len() ==> digest_valid((#[trigger] digests@[i])@),
            Err(e) => if digests@.len() > MAX_BATCH_ITEMS {
                e@ == error_view(400, "at most 10000 digests may be checked"@)
            } else {
                (exists|i: int|
                    0 <= i < digests@.len() && !digest_valid((#[trigger] digests@[i])@)) && e@
                    == invalid_digest_view()
            },
        },
{
    if digests.len() > MAX_BATCH_ITEMS {
        return Err(ApiError::bad_request("at most 10000 digests may be checked"));
    }
    let mut i: usize = 0;
    while i < digests.len()
        invariant
            digests@.len() <= MAX_BATCH_ITEMS,
            i <= digests@.len(),
            forall|j: int| 0 <= j < i ==> digest_valid((#[trigger] digests@[j])@),
        decreases digests@.len() - i,
    {
        let checked = validate_digest(&digests[i]);
        if checked.is_err() {
            proof {
                assert(!digest_valid(digests@[i as int]@));
            }
            return checked;
        }
        i = i + 1;
    }
    Ok(())
}

/// The digests of a query that are not visible, in request order, given for
/// each whether it is visible.
pub fn collect_missing(digests: &[Digest], visible: &[bool]) -> (r: Vec<Digest>)
    requires
        visible@.len() == digests@.len(),
    ensures
        r@.len() <= digests@.len(),
        forall|i: int|
            0 <= i < r@.len() ==> exists|j: int|
                0 <= j < digests@.len() && !visible@[j] && (#[trigger] r@[i])@ == digests@[j]@,
        crate::tree::views(r@) == missing_views(
            crate::tree::views(digests@),
            visible@,
        ),
        forall|j: int|
            0 <= j < digests@.len() && !visible@[j] ==> exists|i: int|
                0 <= i < r@.len() && (#[trigger] r@[i])@ == digests@[j]@,
{
    let mut out: Vec<Digest> = Vec::new();
    let mut i: usize = 0;
    while i < digests.len()
        invariant
            visible@.len() == digests@.len(),
            i <= digests@.len(),
            out@.len() <= i,
            crate::tree::views(out@) == missing_views(
                crate::tree::views(digests@).subrange(0, i as int),
                visible@.subrange(0, i as int),
            ),
            forall|k: int|
                0 <= k < out@.len() ==> exists|j: int|
                    0 <= j < i && !visible@[j] && (#[trigger] out@[k])@ == digests@[j]@,
        decreases digests@.len() - i,
    {
        let ghost ds = crate::tree::views(digests@);
        proof {
            assert(ds.subrange(0, i + 1).drop_last() =~= ds.subrange(0, i as int));
            assert(visible@.subrange(0, i + 1).drop_last() =~= visible@.subrange(0, i as int));
            assert(ds.subrange(0, i + 1).last() == digests@[i as int]@);
        }
        if !visible[i] {
            let ghost before = out@;
            out.push(digests[i].clone());
            proof {
                assert(crate::tree::views(out@) =~= crate::tree::views(before).push(
                    digests@[i as int]@,
                ));
                assert forall|k: int| 0 <= k < out@.len() implies exists|j: int|
                    0 <= j < i + 1 && !visible@[j] && (#[trigger] out@[k])@ == digests@[j]@ by {
                    if k < before.len() {
                        assert(out@[k] == before[k]);
                    } else {
                        assert(out@[k]@ == digests@[i as int]@);
                    }
                }
            }
        }
        i = i + 1;
    }
    proof {
        assert(crate::tree::views(digests@).subrange(0, i as int) =~= crate::tree::views(digests@));
        assert(visible@.subrange(0, i as int) =~= visible@);
        let ds = crate::tree::views(digests@);
        law_missing_complete(ds, visible@);
        assert forall|j: int| 0 <= j < digests@.len() && !visible@[j] implies exists|i: int|
            0 <= i < out@.len() && (#[trigger] out@[i])@ == digests@[j]@ by {
            assert(ds[j] == digests@[j]@);
            let m = missing_views(ds, visible@);
            let k = choose|k: int| 0 <= k < m.len() && m[k] == ds[j];
            assert(crate::tree::views(out@)[k] == out@[k]@);
        }
    }
    out
}

/// The digests whose flag says they are not visible, in order.
pub open spec fn missing_views(digests: Seq<DigestView>, visible: Seq<bool>) -> Seq<DigestView>
    decreases digests.len(),
{
    if digests.len() == 0 || visible.len() == 0 {
        Seq::empty()
    } else {
        let before = missing_views(digests.drop_last(), visible.drop_last());
        if visible.last() {
            before
        } else {
            before.push(digests.last())
        }
    }
}

/// Each requested digest paired with whether it is visible.
pub open spec fn with_visibility(digests: Seq<DigestView>, visible: Seq<bool>) -> Seq<(DigestView, bool)> {
    Seq::new(digests.len(), |i: int| (digests[i], visible[i]))
}

/// The missing digests are exactly the requested digests that are not
/// visible, in request order: the request filtered by invisibility.
pub proof fn law_missing_is_filter(digests: Seq<DigestView>, visible: Seq<bool>)
    requires
        digests.len() == visible.len(),
    ensures
        missing_views(digests, visible) == with_visibility(digests, visible).filter(
            |p: (DigestView, bool)| !p.1,
        ).map_values(|p: (DigestView, bool)| p.0),
    decreases digests.len(),
{
    let pairs = with_visibility(digests, visible);
    if digests.len() > 0 {
        law_missing_is_filter(digests.drop_last(), visible.drop_last());
        assert(pairs.drop_last() =~= with_visibility(digests.drop_last(), visible.drop_last()));
        reveal_with_fuel(Seq::filter, 1);
        assert(pairs.last() == (digests.last(), visible.last()));
        let f = |p: (DigestView, bool)| !p.1;
        let before = pairs.drop_last().filter(f);
        if visible.last() {
            assert(pairs.filter(f) == before);
        } else {
            assert(pairs.filter(f) == before.push(pairs.last()));
            assert(before.push(pairs.last()).map_values(|p: (DigestView, bool)| p.0) =~= before.map_values(
                |p: (DigestView, bool)| p.0,
            ).push(digests.last()));
        }
    }
}

/// Every requested digest that is not visible is reported missing, and
/// every digest reported missing was requested and is not visible.
pub proof fn law_missing_complete(digests: Seq<DigestView>, visible: Seq<bool>)
    requires
        digests.len() == visible.len(),
    ensures
        forall|j: int| 0 <= j < digests.len() && !visible[j] ==> missing_views(digests, visible).contains(
            #[trigger] digests[j],
        ),
        forall|k: int|
            0 <= k < missing_views(digests, visible).len() ==> exists|j: int|
                0 <= j < digests.len() && !visible[j] && digests[j] == #[trigger] missing_views(
                    digests,
                    visible,
                )[k],
        missing_views(digests, visible).len() <= digests.len(),
    decreases digests.len(),
{
    if digests.len() > 0 {
        let ds = digests.drop_last();
        let vs = visible.drop_last();
        law_missing_complete(ds, vs);
        let before = missing_views(ds, vs);
        let all = missing_views(digests, visible);
        assert forall|j: int| 0 <= j < digests.len() && !visible[j] implies all.contains(#[trigger] digests[j]) by {
            if j < digests.len() - 1 {
                assert(ds[j] == digests[j] && vs[j] == visible[j]);
                let k = choose|k: int| 0 <= k < before.len() && before[k] == ds[j];
                assert(all[k] == before[k]);
            } else {
                assert(all[all.len() - 1] == digests[j]);
            }
        }
        assert forall|k: int| 0 <= k < all.len() implies exists|j: int|
            0 <= j < digests.len() && !visible[j] && digests[j] == #[trigger] all[k] by {
            if k < before.len() {
                assert(all[k] == before[k]);
                let j = choose|j: int| 0 <= j < ds.len() && !vs[j] && ds[j] == #[trigger] before[k];
                assert(digests[j] == ds[j] && visible[j] == vs[j]);
            } else {
                let j = digests.len() - 1;
                assert(!visible[j] && digests[j] == all[k]);
            }
        }
    }
}

/// Only a name that is empty, `.` or `..`, or holds `/`, `\` or NUL, or a
/// mode above `0o7777`, makes an entry invalid: any other name is accepted
/// with any mode up to `0o7777`, names starting with `.` included.
pub proof fn law_entry_names(name: Seq<u8>, mode: u32)
    ensures
        entry_valid(name, mode) == (name.len() != 0 && name != seq![0x2eu8] && name != seq![
            0x2eu8,
            0x2eu8,
        ] && (forall|i: int|
            0 <= i < name.len() ==> #[trigger] name[i] != 0x2f && name[i] != 0x5c && name[i] != 0)
            && mode <= 0o7777),
{
    if entry_valid(name, mode) {
        assert forall|i: int| 0 <= i < name.len() implies #[trigger] name[i] != 0x2f && name[i] != 0x5c
            && name[i] != 0 by {
            if name[i] == 0x2f {
                assert(has_byte(name, 0x2f));
            }
            if name[i] == 0x5c {
                assert(has_byte(name, 0x5c));
            }
            if name[i] == 0 {
                assert(has_byte(name, 0));
            }
        }
    }
}

/// A hidden name such as `.fingerprint` is a valid entry name.
pub proof fn law_hidden_names_valid(rest: Seq<u8>, mode: u32)
    requires
        rest.len() != 0,
        rest != seq![0x2eu8],
        forall|i: int| 0 <= i < rest.len() ==> #[trigger] rest[i] != 0x2f && rest[i] != 0x5c && rest[i] != 0,
        mode <= 0o7777,
    ensures
        entry_valid(seq![0x2eu8] + rest, mode),
{
    let name = seq![0x2eu8] + rest;
    law_entry_names(name, mode);
    assert(name != seq![0x2eu8]) by {
        assert(name.len() >= 2);
    }
    assert(name != seq![0x2eu8, 0x2eu8]) by {
        if name == seq![0x2eu8, 0x2eu8] {
            assert(rest =~= seq![0x2eu8]);
        }
    }
    assert forall|i: int| 0 <= i < name.len() implies #[trigger] name[i] != 0x2f && name[i] != 0x5c
        && name[i] != 0 by {
        if i == 0 {
        } else {
            assert(name[i] == rest[i - 1]);
        }
    }
}

/// The answer to a blob read: it is served only when it is registered in the
/// namespace and its bytes are stored; otherwise 404 `blob not found`.
pub fn blob_lookup(visible: bool, stored: bool) -> (r: Result<(), ApiError>)
    ensures
        match r {
            Ok(()) => visible && stored,
            Err(e) => !(visible && stored) && e@ == error_view(404, "blob not found"@),
        },
{
    if visible && stored {
        Ok(())
    } else {
        Err(ApiError::not_found("blob not found"))
    }
}

/// The entity tag of a blob: its hash in double quotes.
pub fn blob_etag(digest: &Digest) -> (r: String)
    ensures
        r@ == "\""@ + digest.hash@ + "\""@,
{
    crate::text::concat3("\"", digest.hash.as_str(), "\"")
}

/// The `Digest` header of a blob: `algorithm=hash`.
pub fn digest_header(digest: &Digest) -> (r: String)
    ensures
        r@ == algorithm_name(digest.algorithm) + "="@ + digest.hash@,
{
    crate::text::concat3(digest.algorithm.name(), "=", digest.hash.as_str())
}

/// The status of a committed action result: 201 when new, 204 when the same
/// result was there already, and 409 when another result is there.
pub fn commit_status(outcome: CommitOutcome) -> (r: Result<u16, ApiError>)
    ensures
        match outcome {
            CommitOutcome::Created => r == Ok::<u16, ApiError>(201),
            CommitOutcome::AlreadyExists => r == Ok::<u16, ApiError>(204),
            CommitOutcome::Conflict => r matches Err(e) && e@ == error_view(
                409,
                "an immutable action result already exists"@,
            ),
        },
{
    match outcome {
        CommitOutcome::Created => Ok(201),
        CommitOutcome::AlreadyExists => Ok(204),
        CommitOutcome::Conflict => Err(ApiError::conflict("an immutable action result already exists")),
    }
}

/// The shared state of the API: blob storage, metadata, authorization, the
/// upload limit and the request counters.
pub struct AppState<B: ?Sized, M: ?Sized> {
    pub blobs: Arc<B>,
    pub metadata: Arc<M>,
    pub auth: Authorizer,
    pub max_blob_bytes: u64,
    metrics: Arc<Metrics>,
}

impl<B: ?Sized, M: ?Sized> AppState<B, M> {
    /// The blob store, the metadata store, the authorizer and the upload
    /// limit.
    pub closed spec fn parts(&self) -> (Arc<B>, Arc<M>, Authorizer, u64) {
        (self.blobs, self.metadata, self.auth, self.max_blob_bytes)
    }

    /// The state over the given stores, with all counters at zero.
    pub fn new(blobs: Arc<B>, metadata: Arc<M>, auth: Authorizer, max_blob_bytes: u64) -> (r: Self)
        ensures
            r.parts() == (blobs, metadata, auth, max_blob_bytes),
    {
        AppState { blobs, metadata, auth, max_blob_bytes, metrics: Arc::new(Metrics::new()) }
    }

    /// The request counters the state was made with.
    pub closed spec fn counters(&self) -> Metrics {
        *self.metrics
    }

    /// The request counters.
    pub fn metrics(&self) -> (r: &Metrics)
        ensures
            *r == self.counters(),
    {
        &self.metrics
    }
}

} // verus!
