//! The errors that the stores and the selection routines report.

use vstd::prelude::*;

verus! {

/// Why an operation failed.
#[derive(Debug, Clone, PartialEq, Eq)]
pub enum Error {
    /// A lookup named a sample key that the store does not hold.
    NotFound { key: String },
    /// A confidence vector of `found` scores was offered to a store whose
    /// vectors have another width.
    DimensionMismatch { found: usize },
    /// A label set was offered for a sample key that already has one.
    DuplicateKey { key: String },
    /// More than one label was offered to a single-label store.
    MultiLabelViolation,
    /// `k` indices were asked of a vector that has only `len` elements.
    InvalidArgument { k: usize, len: usize },
    /// A record of a bulk load is blank, has the wrong number of scores, or
    /// holds a score that is not a number. `line` counts from 1.
    MalformedRecord { line: usize, source: String },
    /// The class index at `position` (counting from 0) is not below the
    /// number of classes.
    OutOfRange { position: usize },
}

/// What an [`Error`] says, with its strings as sequences of characters.
pub enum ErrorView {
    NotFound { key: Seq<char> },
    DimensionMismatch { found: usize },
    DuplicateKey { key: Seq<char> },
    MultiLabelViolation,
    InvalidArgument { k: usize, len: usize },
    MalformedRecord { line: usize, source: Seq<char> },
    OutOfRange { position: usize },
}

impl View for Error {
    type V = ErrorView;

    open spec fn view(&self) -> ErrorView {
        match *self {
            Error::NotFound { key } => ErrorView::NotFound { key: key@ },
            Error::DimensionMismatch { found } => ErrorView::DimensionMismatch { found },
            Error::DuplicateKey { key } => ErrorView::DuplicateKey { key: key@ },
            Error::MultiLabelViolation => ErrorView::MultiLabelViolation,
            Error::InvalidArgument { k, len } => ErrorView::InvalidArgument { k, len },
            Error::MalformedRecord { line, source } => ErrorView::MalformedRecord {
                line,
                source: source@,
            },
            Error::OutOfRange { position } => ErrorView::OutOfRange { position },
        }
    }
}

/// The error for a sample key that a store does not hold.
pub fn image_not_present_error(image_name: &str) -> (e: Error)
    ensures
        e@ == (ErrorView::NotFound { key: image_name@ }),
{
    Error::NotFound { key: image_name.to_owned() }
}

/// The error for a Top-K request of more indices than the vector has elements.
pub fn topk_incorrect_k(k: usize, v_length: usize) -> (e: Error)
    ensures
        e@ == (ErrorView::InvalidArgument { k, len: v_length }),
{
    Error::InvalidArgument { k, len: v_length }
}

} // verus!
