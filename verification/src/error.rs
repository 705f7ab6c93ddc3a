//! The one error type of the crate.

use crate::text::joined;
use vstd::prelude::*;

verus! {

/// What can go wrong, each kind with the text that describes the failure.
#[derive(Debug)]
pub enum TalosError {
    /// A file or directory could not be read or written.
    Io(String),
    /// The report could not be serialised.
    Serialization(String),
    /// A query program did not compile for its grammar.
    TreeSitter(String),
    /// The caller handed in something unusable.
    InvalidInput(String),
    /// The scan or the extraction failed.
    ScanError(String),
}

pub type TalosResult<T> = Result<T, TalosError>;

/// A `TalosError` as specifications see it.
pub enum ErrorView {
    Io(Seq<char>),
    Serialization(Seq<char>),
    TreeSitter(Seq<char>),
    InvalidInput(Seq<char>),
    ScanError(Seq<char>),
}

impl ErrorView {
    /// The text shown for the error: the kind, a colon and the description.
    pub open spec fn message(self) -> Seq<char> {
        match self {
            ErrorView::Io(msg) => "IO error: "@ + msg,
            ErrorView::Serialization(msg) => "Serialization error: "@ + msg,
            ErrorView::TreeSitter(msg) => "Tree-sitter query error: "@ + msg,
            ErrorView::InvalidInput(msg) => "Invalid input: "@ + msg,
            ErrorView::ScanError(msg) => "Scan error: "@ + msg,
        }
    }
}

impl View for TalosError {
    type V = ErrorView;

    open spec fn view(&self) -> ErrorView {
        match self {
            TalosError::Io(msg) => ErrorView::Io(msg@),
            TalosError::Serialization(msg) => ErrorView::Serialization(msg@),
            TalosError::TreeSitter(msg) => ErrorView::TreeSitter(msg@),
            TalosError::InvalidInput(msg) => ErrorView::InvalidInput(msg@),
            TalosError::ScanError(msg) => ErrorView::ScanError(msg@),
        }
    }
}

impl TalosError {
    /// The text shown for the error.
    pub fn to_string(&self) -> (r: String)
        ensures
            r@ == self@.message(),
    {
        match self {
            TalosError::Io(msg) => joined("IO error: ", msg.as_str()),
            TalosError::Serialization(msg) => joined("Serialization error: ", msg.as_str()),
            TalosError::TreeSitter(msg) => joined("Tree-sitter query error: ", msg.as_str()),
            TalosError::InvalidInput(msg) => joined("Invalid input: ", msg.as_str()),
            TalosError::ScanError(msg) => joined("Scan error: ", msg.as_str()),
        }
    }
}

} // verus!
