//! What can go wrong, and the words for it.

use crate::text;
use crate::text::push_decimal;
use vstd::prelude::*;

verus! {

pub type CoreResult<T> = Result<T, CoreError>;

#[allow(inconsistent_fields)]
#[derive(Debug)]
pub enum CoreError {
    InvalidRealm(String),
    RealmMismatch { expected: String, actual: String },
    InvalidServiceGraph(String),
    InvalidTransition { from: String, to: String },
    InvalidOperation(String),
    RevisionConflict { expected: u64, actual: u64 },
    ChecksumMismatch,
    LockPoisoned,
    Storage(String),
    Serialization(String),
}

/// An error with its texts as sequences of characters.
#[allow(inconsistent_fields)]
pub enum ErrorView {
    InvalidRealm(Seq<char>),
    RealmMismatch { expected: Seq<char>, actual: Seq<char> },
    InvalidServiceGraph(Seq<char>),
    InvalidTransition { from: Seq<char>, to: Seq<char> },
    InvalidOperation(Seq<char>),
    RevisionConflict { expected: u64, actual: u64 },
    ChecksumMismatch,
    LockPoisoned,
    Storage(Seq<char>),
    Serialization(Seq<char>),
}

impl View for CoreError {
    type V = ErrorView;

    open spec fn view(&self) -> ErrorView {
        match *self {
            CoreError::InvalidRealm(text) => ErrorView::InvalidRealm(text@),
            CoreError::RealmMismatch { expected, actual } => ErrorView::RealmMismatch {
                expected: expected@,
                actual: actual@,
            },
            CoreError::InvalidServiceGraph(text) => ErrorView::InvalidServiceGraph(text@),
            CoreError::InvalidTransition { from, to } => ErrorView::InvalidTransition {
                from: from@,
                to: to@,
            },
            CoreError::InvalidOperation(text) => ErrorView::InvalidOperation(text@),
            CoreError::RevisionConflict { expected, actual } => ErrorView::RevisionConflict {
                expected,
                actual,
            },
            CoreError::ChecksumMismatch => ErrorView::ChecksumMismatch,
            CoreError::LockPoisoned => ErrorView::LockPoisoned,
            CoreError::Storage(text) => ErrorView::Storage(text@),
            CoreError::Serialization(text) => ErrorView::Serialization(text@),
        }
    }
}

/// The words for an error.
pub open spec fn error_text(error: ErrorView) -> Seq<char> {
    match error {
        ErrorView::InvalidRealm(text) => "invalid realm: "@ + text,
        ErrorView::RealmMismatch { expected, actual } => "database belongs to realm '"@ + actual
            + "', not '"@ + expected + "'"@,
        ErrorView::InvalidServiceGraph(text) => "invalid service graph: "@ + text,
        ErrorView::InvalidTransition { from, to } => "runtime transition from "@ + from + " to "@
            + to + " is not allowed"@,
        ErrorView::InvalidOperation(text) => "invalid operation: "@ + text,
        ErrorView::RevisionConflict { expected, actual } => "revision conflict: expected "@
            + text::decimal(expected as nat) + ", current revision is "@ + text::decimal(actual as nat),
        ErrorView::ChecksumMismatch => "latest snapshot failed checksum validation"@,
        ErrorView::LockPoisoned => "runtime state lock is poisoned"@,
        ErrorView::Storage(text) => "storage error: "@ + text,
        ErrorView::Serialization(text) => "serialization error: "@ + text,
    }
}

impl CoreError {
    /// The words for this error.
    pub fn to_string(&self) -> (text: String)
        ensures
            text@ == error_text(self@),
    {
        match self {
            CoreError::InvalidRealm(detail) => joined("invalid realm: ", detail.as_str()),
            CoreError::RealmMismatch { expected, actual } => {
                let mut text = joined("database belongs to realm '", actual.as_str());
                text.append("', not '");
                text.append(expected.as_str());
                text.append("'");
                text
            },
            CoreError::InvalidServiceGraph(detail) => joined(
                "invalid service graph: ",
                detail.as_str(),
            ),
            CoreError::InvalidTransition { from, to } => {
                let mut text = joined("runtime transition from ", from.as_str());
                text.append(" to ");
                text.append(to.as_str());
                text.append(" is not allowed");
                text
            },
            CoreError::InvalidOperation(detail) => joined("invalid operation: ", detail.as_str()),
            CoreError::RevisionConflict { expected, actual } => {
                let mut text = "revision conflict: expected ".to_owned();
                push_decimal(&mut text, *expected);
                text.append(", current revision is ");
                push_decimal(&mut text, *actual);
                text
            },
            CoreError::ChecksumMismatch => "latest snapshot failed checksum validation".to_owned(),
            CoreError::LockPoisoned => "runtime state lock is poisoned".to_owned(),
            CoreError::Storage(detail) => joined("storage error: ", detail.as_str()),
            CoreError::Serialization(detail) => joined("serialization error: ", detail.as_str()),
        }
    }
}

fn joined(head: &str, tail: &str) -> (text: String)
    ensures
        text@ == head@ + tail@,
{
    let mut text = head.to_owned();
    text.append(tail);
    text
}

} // verus!
