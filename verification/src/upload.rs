//! Blob uploads: the content is taken chunk by chunk, bounded by the declared
//! size and the configured limit, hashed as it arrives, and accepted only when
//! it matches the digest it was uploaded under.

use crate::hashing::{
    Blake3State, Sha256State, blake3_hasher_finalize, blake3_hasher_input, blake3_hasher_new,
    blake3_hasher_update, blake3_hex, blake3_of, hex_encode, lower_hex, sha256_hasher_finalize,
    sha256_hasher_input, sha256_hasher_new, sha256_hasher_update, sha256_of,
};
use crate::model::{Algorithm, Digest, DigestView};
use crate::server::{ApiError, ApiErrorView, error_view};
use vstd::prelude::*;

verus! {

/// The hash of `data` under `algorithm`.
pub open spec fn content_hash(algorithm: Algorithm, data: Seq<u8>) -> Seq<u8> {
    match algorithm {
        Algorithm::Blake3 => blake3_of(data),
        Algorithm::Sha256 => sha256_of(data),
    }
}

/// Content matches a digest when it has the digest's size and its hash, as
/// lowercase hexadecimal text, is the digest's hash.
pub open spec fn content_matches(digest: DigestView, data: Seq<u8>) -> bool {
    &&& data.len() == digest.size
    &&& lower_hex(content_hash(digest.algorithm, data)) == digest.hash
}

/// The incremental hasher of an upload.
pub enum ContentHasher {
    Blake3(Blake3State),
    Sha256(Sha256State),
}

/// The input a hasher has taken so far.
pub open spec fn hasher_input(h: ContentHasher) -> Seq<u8> {
    match h {
        ContentHasher::Blake3(h) => blake3_hasher_input(h),
        ContentHasher::Sha256(h) => sha256_hasher_input(h),
    }
}

/// The algorithm of a hasher.
pub open spec fn hasher_algorithm(h: ContentHasher) -> Algorithm {
    match h {
        ContentHasher::Blake3(_) => Algorithm::Blake3,
        ContentHasher::Sha256(_) => Algorithm::Sha256,
    }
}

/// A blob upload in progress.
pub struct BlobUpload {
    digest: Digest,
    max_blob_bytes: u64,
    size: u64,
    hasher: ContentHasher,
    received: Ghost<Seq<u8>>,
}

/// The error for content larger than its declared size or the limit.
pub open spec fn oversize_view() -> ApiErrorView {
    error_view(413, "blob exceeds declared or configured size"@)
}

/// The error for content that does not match its digest.
pub open spec fn mismatch_view() -> ApiErrorView {
    error_view(400, "content does not match the requested digest"@)
}

impl BlobUpload {
    /// The digest the content is uploaded under.
    pub closed spec fn digest(&self) -> DigestView {
        self.digest@
    }

    /// The configured size limit.
    pub closed spec fn limit(&self) -> u64 {
        self.max_blob_bytes
    }

    /// The content received so far.
    pub closed spec fn received(&self) -> Seq<u8> {
        self.received@
    }

    /// The received content fits the declared size and the limit, and the
    /// hasher of the digest's algorithm has taken exactly that content.
    pub closed spec fn well_formed(&self) -> bool {
        &&& self.size == self.received@.len()
        &&& self.size <= self.digest.size
        &&& self.size <= self.max_blob_bytes
        &&& hasher_input(self.hasher) == self.received@
        &&& hasher_algorithm(self.hasher) == self.digest.algorithm
    }

    /// Starts an upload under `digest`: 413 when the declared size exceeds
    /// the limit.
    pub fn start(digest: Digest, max_blob_bytes: u64) -> (r: Result<BlobUpload, ApiError>)
        ensures
            match r {
                Ok(u) => {
                    &&& digest.size <= max_blob_bytes
                    &&& u.well_formed()
                    &&& u.digest() == digest@
                    &&& u.limit() == max_blob_bytes
                    &&& u.received() == Seq::<u8>::empty()
                },
                Err(e) => digest.size > max_blob_bytes && e@ == error_view(
                    413,
                    "blob exceeds configured limit"@,
                ),
            },
    {
        if digest.size > max_blob_bytes {
            return Err(ApiError::too_large("blob exceeds configured limit"));
        }
        let hasher = match digest.algorithm {
            Algorithm::Blake3 => ContentHasher::Blake3(blake3_hasher_new()),
            Algorithm::Sha256 => ContentHasher::Sha256(sha256_hasher_new()),
        };
        Ok(BlobUpload { digest, max_blob_bytes, size: 0, hasher, received: Ghost(Seq::empty()) })
    }

    /// Takes the next chunk of content: 413 when the total would exceed the
    /// declared size or the limit.
    pub fn accept_chunk(&mut self, chunk: &[u8]) -> (r: Result<(), ApiError>)
        requires
            old(self).well_formed(),
        ensures
            final(self).digest() == old(self).digest(),
            final(self).limit() == old(self).limit(),
            ({
                let total = old(self).received().len() + chunk@.len();
                if total > u64::MAX {
                    r matches Err(e) && e@ == error_view(413, "blob is too large"@)
                } else if total > old(self).digest().size || total > old(self).limit() {
                    r matches Err(e) && e@ == oversize_view()
                } else {
                    &&& r is Ok
                    &&& final(self).well_formed()
                    &&& final(self).received() == old(self).received() + chunk@
                }
            }),
    {
        let size = match self.size.checked_add(chunk.len() as u64) {
            Some(size) => size,
            None => {
                return Err(ApiError::too_large("blob is too large"));
            },
        };
        if size > self.digest.size || size > self.max_blob_bytes {
            return Err(ApiError::too_large("blob exceeds declared or configured size"));
        }
        match &mut self.hasher {
            ContentHasher::Blake3(h) => blake3_hasher_update(h, chunk),
            ContentHasher::Sha256(h) => sha256_hasher_update(h, chunk),
        }
        self.size = size;
        self.received = Ghost(self.received@ + chunk@);
        Ok(())
    }

    /// Ends the upload: accepted when the content matches the digest (see
    /// `content_matches`), 400 otherwise.
    pub fn finish(self) -> (r: Result<(), ApiError>)
        requires
            self.well_formed(),
        ensures
            match r {
                Ok(()) => content_matches(self.digest(), self.received()),
                Err(e) => !content_matches(self.digest(), self.received()) && e@ == mismatch_view(),
            },
    {
        let actual = match self.hasher {
            ContentHasher::Blake3(h) => blake3_hex(blake3_hasher_finalize(&h)),
            ContentHasher::Sha256(h) => hex_encode(sha256_hasher_finalize(h)),
        };
        if self.size != self.digest.size || actual != self.digest.hash {
            return Err(ApiError::bad_request("content does not match the requested digest"));
        }
        Ok(())
    }
}

/// What storing a blob did.
#[derive(Clone, Copy, Debug, PartialEq, Eq, Structural)]
pub enum PutOutcome {
    Created,
    AlreadyExists,
}

/// The status of an accepted upload: 201 when the blob is new, 204 when it
/// was stored already.
pub open spec fn put_blob_status_spec(outcome: PutOutcome) -> u16 {
    match outcome {
        PutOutcome::Created => 201u16,
        PutOutcome::AlreadyExists => 204u16,
    }
}

/// The status of an accepted upload (see `put_blob_status_spec`).
pub fn put_blob_status(outcome: PutOutcome) -> (r: u16)
    ensures
        r == put_blob_status_spec(outcome),
{
    match outcome {
        PutOutcome::Created => 201,
        PutOutcome::AlreadyExists => 204,
    }
}

/// What the caller of an upload does next.
#[derive(Clone, Copy, Debug, PartialEq, Eq, Structural)]
pub enum UploadStep {
    /// Hand over the next chunk of the body, or report its end.
    Receive,
    /// Store the checked content under the digest.
    Store,
    /// Register the digest in the namespace.
    Register,
    /// Answer with `status`.
    Respond,
    /// A step failed; nothing more is done.
    Abandon,
}

/// An upload from its first chunk to its answer: the content is received
/// and checked, then stored, then registered in the namespace, and only
/// then answered.
pub struct BlobPublication {
    digest: Digest,
    limit: u64,
    upload: Option<BlobUpload>,
    content: Ghost<Seq<u8>>,
    matched: bool,
    stored: Option<PutOutcome>,
    registered: bool,
    failed: bool,
}

/// An upload publication by value.
pub struct BlobPublicationView {
    pub digest: DigestView,
    /// The configured size limit.
    pub limit: u64,
    /// The content received so far.
    pub content: Seq<u8>,
    /// The whole content was received and matches the digest.
    pub matched: bool,
    /// What storing the content did, once it is stored.
    pub stored: Option<PutOutcome>,
    pub registered: bool,
    pub failed: bool,
}

impl View for BlobPublication {
    type V = BlobPublicationView;

    closed spec fn view(&self) -> BlobPublicationView {
        BlobPublicationView {
            digest: self.digest@,
            limit: self.limit,
            content: self.content@,
            matched: self.matched,
            stored: self.stored,
            registered: self.registered,
            failed: self.failed,
        }
    }
}

/// The stages come in order: content is stored only once it matched, and
/// registered only once it is stored.
pub open spec fn blob_publication_valid(p: BlobPublicationView) -> bool {
    &&& p.matched ==> content_matches(p.digest, p.content)
    &&& p.stored is Some ==> p.matched
    &&& p.registered ==> p.stored is Some
}

/// The next step of an upload (see `UploadStep`).
pub open spec fn upload_step(p: BlobPublicationView) -> UploadStep {
    if p.failed {
        UploadStep::Abandon
    } else if !p.matched {
        UploadStep::Receive
    } else if p.stored is None {
        UploadStep::Store
    } else if !p.registered {
        UploadStep::Register
    } else {
        UploadStep::Respond
    }
}

/// A blob is stored only after its whole content matched its digest,
/// registered only after it is stored, and answered only after it is
/// registered.
pub proof fn law_register_only_after_match(p: BlobPublicationView)
    requires
        blob_publication_valid(p),
    ensures
        upload_step(p) == UploadStep::Store ==> content_matches(p.digest, p.content),
        upload_step(p) == UploadStep::Register ==> content_matches(p.digest, p.content)
            && p.stored is Some,
        upload_step(p) == UploadStep::Respond ==> content_matches(p.digest, p.content)
            && p.stored is Some && p.registered,
{
}

/// An answered upload leaves its blob visible in the namespace, given the
/// registration the store made (a store's `register_blob` adds the key), and
/// uploading it again registers nothing new.
pub proof fn law_uploaded_blob_visible(
    before: Set<crate::metadata::StoreKey>,
    namespace: Seq<char>,
    p: BlobPublicationView,
)
    requires
        blob_publication_valid(p),
        upload_step(p) == UploadStep::Respond,
    ensures
        ({
            let after = before.insert((namespace, p.digest));
            &&& after.contains((namespace, p.digest))
            &&& after.insert((namespace, p.digest)) == after
            &&& content_matches(p.digest, p.content)
        }),
{
    crate::metadata::law_registered_blob_visible(before.insert((namespace, p.digest)), namespace, p.digest);
    crate::metadata::law_register_idempotent(before.insert((namespace, p.digest)), (namespace, p.digest));
}

impl BlobPublication {
    /// The stages are in order, and while content is received the upload
    /// holds exactly that content.
    pub closed spec fn well_formed(&self) -> bool {
        &&& blob_publication_valid(self@)
        &&& !self.matched && !self.failed ==> (self.upload matches Some(u) && u.well_formed()
            && u.digest() == self.digest@ && u.received() == self.content@ && u.limit() == self.limit)
    }

    /// Starts an upload under `digest`: 413 when the declared size exceeds
    /// the limit (see `BlobUpload::start`).
    pub fn start(digest: Digest, max_blob_bytes: u64) -> (r: Result<BlobPublication, ApiError>)
        ensures
            match r {
                Ok(p) => {
                    &&& digest.size <= max_blob_bytes
                    &&& p.well_formed()
                    &&& p@ == (BlobPublicationView {
                        digest: digest@,
                        limit: max_blob_bytes,
                        content: Seq::empty(),
                        matched: false,
                        stored: None,
                        registered: false,
                        failed: false,
                    })
                },
                Err(e) => digest.size > max_blob_bytes && e@ == error_view(
                    413,
                    "blob exceeds configured limit"@,
                ),
            },
    {
        let kept = digest.clone();
        let upload = BlobUpload::start(digest, max_blob_bytes)?;
        Ok(BlobPublication {
            digest: kept,
            limit: max_blob_bytes,
            upload: Some(upload),
            content: Ghost(Seq::empty()),
            matched: false,
            stored: None,
            registered: false,
            failed: false,
        })
    }

    /// The digest the content is uploaded under.
    pub fn digest(&self) -> (r: &Digest)
        ensures
            r@ == self@.digest,
    {
        &self.digest
    }

    /// The next step (see `upload_step`).
    pub fn next(&self) -> (r: UploadStep)
        ensures
            r == upload_step(self@),
    {
        if self.failed {
            UploadStep::Abandon
        } else if !self.matched {
            UploadStep::Receive
        } else if self.stored.is_none() {
            UploadStep::Store
        } else if !self.registered {
            UploadStep::Register
        } else {
            UploadStep::Respond
        }
    }

    /// Takes the next chunk of the body (see `BlobUpload::accept_chunk`).
    pub fn accept_chunk(&mut self, chunk: &[u8]) -> (r: Result<(), ApiError>)
        requires
            old(self).well_formed(),
            upload_step(old(self)@) == UploadStep::Receive,
        ensures
            final(self).well_formed(),
            final(self)@.digest == old(self)@.digest,
            ({
                let total = old(self)@.content.len() + chunk@.len();
                if total > u64::MAX {
                    &&& r matches Err(e) && e@ == error_view(413, "blob is too large"@)
                    &&& final(self)@.failed
                } else if total > old(self)@.digest.size || total > old(self)@.limit {
                    &&& r matches Err(e) && e@ == oversize_view()
                    &&& final(self)@.failed
                } else {
                    &&& r is Ok
                    &&& final(self)@ == (BlobPublicationView {
                        content: old(self)@.content + chunk@,
                        ..old(self)@
                    })
                }
            }),
    {
        let mut taken: Option<BlobUpload> = None;
        core::mem::swap(&mut taken, &mut self.upload);
        let mut upload = match taken {
            Some(u) => u,
            None => {
                self.failed = true;
                return Err(ApiError::internal());
            },
        };
        match upload.accept_chunk(chunk) {
            Ok(()) => {
                self.content = Ghost(self.content@ + chunk@);
                self.upload = Some(upload);
                Ok(())
            },
            Err(e) => {
                self.failed = true;
                Err(e)
            },
        }
    }

    /// Ends the body: the content is accepted when it matches the digest
    /// (see `BlobUpload::finish`), 400 otherwise.
    pub fn body_done(&mut self) -> (r: Result<(), ApiError>)
        requires
            old(self).well_formed(),
            upload_step(old(self)@) == UploadStep::Receive,
        ensures
            final(self).well_formed(),
            match r {
                Ok(()) => content_matches(old(self)@.digest, old(self)@.content)
                    && final(self)@ == (BlobPublicationView { matched: true, ..old(self)@ }),
                Err(e) => !content_matches(old(self)@.digest, old(self)@.content) && e@
                    == mismatch_view() && final(self)@ == (BlobPublicationView {
                    failed: true,
                    ..old(self)@
                }),
            },
    {
        let mut taken: Option<BlobUpload> = None;
        core::mem::swap(&mut taken, &mut self.upload);
        let upload = match taken {
            Some(u) => u,
            None => {
                self.failed = true;
                return Err(ApiError::internal());
            },
        };
        match upload.finish() {
            Ok(()) => {
                self.matched = true;
                Ok(())
            },
            Err(e) => {
                self.failed = true;
                Err(e)
            },
        }
    }

    /// Records what storing the checked content did.
    pub fn stored(&mut self, outcome: PutOutcome)
        requires
            old(self).well_formed(),
            upload_step(old(self)@) == UploadStep::Store,
        ensures
            final(self).well_formed(),
            final(self)@ == (BlobPublicationView { stored: Some(outcome), ..old(self)@ }),
    {
        self.stored = Some(outcome);
    }

    /// Records that the digest is registered in the namespace.
    pub fn registered(&mut self)
        requires
            old(self).well_formed(),
            upload_step(old(self)@) == UploadStep::Register,
        ensures
            final(self).well_formed(),
            final(self)@ == (BlobPublicationView { registered: true, ..old(self)@ }),
    {
        self.registered = true;
    }

    /// The answer to a completed upload: 201 when the blob is new, 204 when it
    /// was stored already (see `put_blob_status`).
    pub fn status(&self) -> (r: u16)
        requires
            self.well_formed(),
            upload_step(self@) == UploadStep::Respond,
        ensures
            self@.stored matches Some(outcome) && r == put_blob_status_spec(outcome),
    {
        match self.stored {
            Some(outcome) => put_blob_status(outcome),
            None => 500,
        }
    }
}

} // verus!
