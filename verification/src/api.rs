//! What the node's interface answers: status codes and error bodies.

use crate::contract::HealthSnapshot;
use crate::error;
use crate::error::{CoreError, ErrorView};
use vstd::prelude::*;

verus! {

/// The answer to a request that has failed.
#[derive(Debug, PartialEq, Eq)]
pub struct ErrorReply {
    pub status: u16,
    pub code: String,
    pub message: String,
}

/// The status with which an error is answered.
pub open spec fn error_status(error: ErrorView) -> u16 {
    match error {
        ErrorView::InvalidRealm(_)
        | ErrorView::InvalidServiceGraph(_)
        | ErrorView::InvalidOperation(_) => 400,
        ErrorView::RevisionConflict { .. }
        | ErrorView::InvalidTransition { .. }
        | ErrorView::RealmMismatch { .. } => 409,
        ErrorView::LockPoisoned | ErrorView::Storage(_) | ErrorView::Serialization(_) => 500,
        ErrorView::ChecksumMismatch => 503,
    }
}

/// The code with which an error is answered.
pub open spec fn error_code(error: ErrorView) -> Seq<char> {
    match error {
        ErrorView::RevisionConflict { .. } => "revision_conflict"@,
        ErrorView::InvalidTransition { .. } => "invalid_transition"@,
        ErrorView::InvalidRealm(_)
        | ErrorView::InvalidServiceGraph(_)
        | ErrorView::InvalidOperation(_) => "invalid_request"@,
        ErrorView::RealmMismatch { .. } => "realm_mismatch"@,
        ErrorView::ChecksumMismatch => "integrity_failure"@,
        ErrorView::LockPoisoned | ErrorView::Storage(_) | ErrorView::Serialization(_) => {
            "internal_error"@
        },
    }
}

/// The answer to a request that has failed with an error.
pub fn error_reply(error: &CoreError) -> (reply: ErrorReply)
    ensures
        reply.status == error_status(error@),
        reply.code@ == error_code(error@),
        reply.message@ == error::error_text(error@),
{
    let (status, code): (u16, &str) = match error {
        CoreError::RevisionConflict { .. } => (409, "revision_conflict"),
        CoreError::InvalidTransition { .. } => (409, "invalid_transition"),
        CoreError::InvalidRealm(_)
        | CoreError::InvalidServiceGraph(_)
        | CoreError::InvalidOperation(_) => (400, "invalid_request"),
        CoreError::RealmMismatch { .. } => (409, "realm_mismatch"),
        CoreError::ChecksumMismatch => (503, "integrity_failure"),
        CoreError::LockPoisoned | CoreError::Storage(_) | CoreError::Serialization(_) => (
            500,
            "internal_error",
        ),
    };
    ErrorReply { status, code: code.to_owned(), message: error.to_string() }
}

/// The status with which a node answers whether it is ready.
pub fn readiness_status(health: &HealthSnapshot) -> (status: u16)
    ensures
        status == if health@.ready { 200u16 } else { 503u16 },
{
    if health.ready {
        200
    } else {
        503
    }
}

} // verus!
