//! The errors that the store reports.

use crate::text::prefixed;
use vstd::prelude::*;

verus! {

/// The class of a [`StoreError`].
#[derive(Debug, Clone, Copy, PartialEq, Eq, Structural)]
pub enum ErrorKind {
    /// What was asked for is not registered.
    NotFound,
    /// What was to be started is running already.
    AlreadyExists,
    /// Any other failure.
    Other,
}

/// A failure, with its class and a message for people.
#[derive(Debug, Clone)]
pub struct StoreError {
    /// The class of the failure.
    pub kind: ErrorKind,
    /// What happened.
    pub message: String,
}

/// The contents of a [`StoreError`].
#[verifier::ext_equal]
pub struct StoreErrorView {
    pub kind: ErrorKind,
    pub message: Seq<char>,
}

impl View for StoreError {
    type V = StoreErrorView;

    open spec fn view(&self) -> StoreErrorView {
        StoreErrorView { kind: self.kind, message: self.message@ }
    }
}

impl StoreErrorView {
    /// An error of kind [`ErrorKind::Other`] with the message `prefix` + `detail`.
    pub open spec fn other(prefix: Seq<char>, detail: Seq<char>) -> Self {
        StoreErrorView { kind: ErrorKind::Other, message: prefix + detail }
    }
}

impl StoreError {
    /// An error of the given kind.
    pub fn new(kind: ErrorKind, message: String) -> (error: Self)
        ensures
            error@ == (StoreErrorView { kind, message: message@ }),
    {
        StoreError { kind, message }
    }

    /// An error of kind [`ErrorKind::Other`] whose message is `prefix` followed by
    /// `detail`.
    pub fn other(prefix: &str, detail: &str) -> (error: Self)
        ensures
            error@ == StoreErrorView::other(prefix@, detail@),
    {
        StoreError { kind: ErrorKind::Other, message: prefixed(prefix, detail) }
    }

    /// The class of the failure.
    pub fn kind(&self) -> (kind: ErrorKind)
        ensures
            kind == self@.kind,
    {
        self.kind
    }
}

/// What is said of an error is said of its class and its message, and a failure of the last
/// class has its detail right behind what introduces it.
pub proof fn law_an_error_is_its_class_and_message(
    error: StoreError,
    prefix: Seq<char>,
    detail: Seq<char>,
)
    ensures
        error@.kind == error.kind,
        error@.message == error.message@,
        StoreErrorView::other(prefix, detail).kind is Other,
        StoreErrorView::other(prefix, detail).message == prefix + detail,
{
}

} // verus!
