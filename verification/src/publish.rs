//! Publishing an action result: the order of the checks a result passes
//! before it is committed.
//!
//! The publication is a state machine. The caller asks it for the next step,
//! performs that check (reading the descriptor, the client metadata or the
//! output tree) and hands the outcome back; it asks for the commit only when
//! every check that the result calls for has passed.

use crate::model::{ActionResult, ActionResultView};
use crate::server::{ActionKind, ApiError, ApiErrorView, error_view, validate_action_result_shape};
use vstd::prelude::*;

verus! {

/// What the caller does next.
#[derive(Clone, Copy, Debug, PartialEq, Eq, Structural)]
pub enum PublishStep {
    /// Read and check the action descriptor, and report the action's kind.
    CheckDescriptor,
    /// Check the client metadata the result names.
    CheckMetadata,
    /// Walk and check the output tree the result names.
    CheckTree,
    /// Commit the result.
    Commit,
    /// A check failed; the result is not published.
    Abandon,
}

/// A result on its way to publication, and the checks it has passed.
pub struct Publication {
    result: ActionResult,
    kind: Option<ActionKind>,
    metadata_ok: bool,
    tree_ok: bool,
    failed: bool,
}

/// A publication by value.
pub struct PublicationView {
    pub result: ActionResultView,
    /// The action's kind, once the descriptor check passed.
    pub kind: Option<ActionKind>,
    pub metadata_ok: bool,
    pub tree_ok: bool,
    pub failed: bool,
}

impl View for Publication {
    type V = PublicationView;

    closed spec fn view(&self) -> PublicationView {
        PublicationView {
            result: self.result@,
            kind: self.kind,
            metadata_ok: self.metadata_ok,
            tree_ok: self.tree_ok,
            failed: self.failed,
        }
    }
}

/// A result fits its action's kind: a rustc result carries both client
/// metadata and an output tree.
pub open spec fn shape_ok(result: ActionResultView, kind: ActionKind) -> bool {
    kind == ActionKind::Rustc ==> result.metadata is Some && result.output_root is Some
}

/// A publication only records a kind that the result fits.
pub open spec fn publication_valid(p: PublicationView) -> bool {
    p.kind matches Some(k) ==> shape_ok(p.result, k)
}

/// The next step: the descriptor first, then the client metadata if the
/// result names any, then the output tree if it names one, then the commit;
/// after a failed check, nothing more.
pub open spec fn publish_step(p: PublicationView) -> PublishStep {
    if p.failed {
        PublishStep::Abandon
    } else if p.kind is None {
        PublishStep::CheckDescriptor
    } else if p.result.metadata is Some && !p.metadata_ok {
        PublishStep::CheckMetadata
    } else if p.result.output_root is Some && !p.tree_ok {
        PublishStep::CheckTree
    } else {
        PublishStep::Commit
    }
}

/// Every check the result calls for has passed: the descriptor (with a kind
/// the result fits), the client metadata if named, the output tree if named,
/// and none failed.
pub open spec fn checks_passed(p: PublicationView) -> bool {
    &&& !p.failed
    &&& p.kind matches Some(k) && shape_ok(p.result, k)
    &&& p.result.metadata is Some ==> p.metadata_ok
    &&& p.result.output_root is Some ==> p.tree_ok
}

/// A result is committed exactly when every check it calls for has passed.
pub proof fn law_commit_only_after_checks(p: PublicationView)
    requires
        publication_valid(p),
    ensures
        (publish_step(p) == PublishStep::Commit) == checks_passed(p),
{
}

/// The error value of an outcome handed back by the caller.
pub open spec fn outcome_error<T>(outcome: Result<T, ApiError>) -> Option<ApiErrorView> {
    match outcome {
        Ok(_) => None,
        Err(e) => Some(e@),
    }
}

impl Publication {
    /// A publication of `result` that has passed no check yet.
    pub fn start(result: ActionResult) -> (r: Publication)
        ensures
            r@ == (PublicationView {
                result: result@,
                kind: None,
                metadata_ok: false,
                tree_ok: false,
                failed: false,
            }),
    {
        Publication { result, kind: None, metadata_ok: false, tree_ok: false, failed: false }
    }

    /// The next step (see `publish_step`).
    pub fn next(&self) -> (r: PublishStep)
        ensures
            r == publish_step(self@),
    {
        if self.failed {
            PublishStep::Abandon
        } else if self.kind.is_none() {
            PublishStep::CheckDescriptor
        } else if self.result.metadata.is_some() && !self.metadata_ok {
            PublishStep::CheckMetadata
        } else if self.result.output_root.is_some() && !self.tree_ok {
            PublishStep::CheckTree
        } else {
            PublishStep::Commit
        }
    }

    /// The result being published.
    pub fn result(&self) -> (r: &ActionResult)
        ensures
            r@ == self@.result,
    {
        &self.result
    }

    /// The action's kind, once the descriptor check passed.
    pub fn kind(&self) -> (r: Option<ActionKind>)
        ensures
            r == self@.kind,
    {
        self.kind
    }

    /// Takes the outcome of the descriptor check. A kind the result fits is
    /// recorded; a kind it does not fit fails with 422 (see
    /// `validate_action_result_shape`); a failed check is passed on.
    pub fn descriptor_checked(&mut self, outcome: Result<ActionKind, ApiError>) -> (r: Result<
        (),
        ApiError,
    >)
        requires
            publication_valid(old(self)@),
            publish_step(old(self)@) == PublishStep::CheckDescriptor,
        ensures
            publication_valid(final(self)@),
            final(self)@.result == old(self)@.result,
            final(self)@.metadata_ok == old(self)@.metadata_ok,
            final(self)@.tree_ok == old(self)@.tree_ok,
            match outcome {
                Ok(k) => if shape_ok(old(self)@.result, k) {
                    r is Ok && final(self)@.kind == Some(k) && !final(self)@.failed
                } else {
                    &&& r matches Err(e) && e@ == error_view(
                        422,
                        "rustc action results require metadata and an output root"@,
                    )
                    &&& final(self)@.failed
                    &&& final(self)@.kind == old(self)@.kind
                },
                Err(_) => outcome_error(r) == outcome_error(outcome) && final(self)@.failed
                    && final(self)@.kind == old(self)@.kind,
            },
    {
        match outcome {
            Ok(kind) => match validate_action_result_shape(&self.result, kind) {
                Ok(()) => {
                    self.kind = Some(kind);
                    Ok(())
                },
                Err(e) => {
                    self.failed = true;
                    Err(e)
                },
            },
            Err(e) => {
                self.failed = true;
                Err(e)
            },
        }
    }

    /// Takes the outcome of the client-metadata check: a pass is recorded, a
    /// failure passed on.
    pub fn metadata_checked(&mut self, outcome: Result<(), ApiError>) -> (r: Result<(), ApiError>)
        requires
            publication_valid(old(self)@),
            publish_step(old(self)@) == PublishStep::CheckMetadata,
        ensures
            publication_valid(final(self)@),
            outcome_error(r) == outcome_error(outcome),
            final(self)@ == (PublicationView {
                metadata_ok: outcome is Ok,
                failed: outcome is Err,
                ..old(self)@
            }),
    {
        match outcome {
            Ok(()) => {
                self.metadata_ok = true;
                Ok(())
            },
            Err(e) => {
                self.failed = true;
                Err(e)
            },
        }
    }

    /// Takes the outcome of the output-tree check: a pass is recorded, a
    /// failure passed on.
    pub fn tree_checked(&mut self, outcome: Result<(), ApiError>) -> (r: Result<(), ApiError>)
        requires
            publication_valid(old(self)@),
            publish_step(old(self)@) == PublishStep::CheckTree,
        ensures
            publication_valid(final(self)@),
            outcome_error(r) == outcome_error(outcome),
            final(self)@ == (PublicationView {
                tree_ok: outcome is Ok,
                failed: outcome is Err,
                ..old(self)@
            }),
    {
        match outcome {
            Ok(()) => {
                self.tree_ok = true;
                Ok(())
            },
            Err(e) => {
                self.failed = true;
                Err(e)
            },
        }
    }
}

} // verus!
