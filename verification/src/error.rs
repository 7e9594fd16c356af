//! Errors returned by the xray core.

use vstd::prelude::*;

verus! {

/// Errors returned by the xray core.
#[derive(Debug, Clone, PartialEq, Eq)]
pub enum Error {
    /// A spec, command or dataset failed to parse.
    Parse(String),
    /// A spec referenced an indicator the registry does not know.
    UnknownIndicator(String),
    /// A spec was structurally invalid (empty, out of range or contradictory).
    BadSpec(String),
    /// The dataset was missing or malformed.
    Data(String),
}

/// The mathematical content of an [`Error`]: its kind and its detail text.
pub enum ErrorView {
    Parse(Seq<char>),
    UnknownIndicator(Seq<char>),
    BadSpec(Seq<char>),
    Data(Seq<char>),
}

impl View for Error {
    type V = ErrorView;

    open spec fn view(&self) -> ErrorView {
        match self {
            Error::Parse(s) => ErrorView::Parse(s@),
            Error::UnknownIndicator(s) => ErrorView::UnknownIndicator(s@),
            Error::BadSpec(s) => ErrorView::BadSpec(s@),
            Error::Data(s) => ErrorView::Data(s@),
        }
    }
}

/// Convenience result alias for the xray core.
pub type Result<T> = core::result::Result<T, Error>;

impl ErrorView {
    /// The human-readable message: a kind prefix, then the detail.
    pub open spec fn message(self) -> Seq<char> {
        match self {
            ErrorView::Parse(s) => "parse: "@ + s,
            ErrorView::UnknownIndicator(s) => "unknown indicator: "@ + s,
            ErrorView::BadSpec(s) => "bad spec: "@ + s,
            ErrorView::Data(s) => "data: "@ + s,
        }
    }
}

impl Error {
    /// A `BadSpec` error with the given detail.
    pub fn bad_spec(detail: &str) -> (e: Error)
        ensures
            e@ == ErrorView::BadSpec(detail@),
    {
        Error::BadSpec(String::from_str(detail))
    }

    /// A `Data` error with the given detail.
    pub fn data(detail: &str) -> (e: Error)
        ensures
            e@ == ErrorView::Data(detail@),
    {
        Error::Data(String::from_str(detail))
    }

    /// The human-readable message, e.g. `"bad spec: symbol must not be empty"`.
    pub fn message(&self) -> (m: String)
        ensures
            m@ == self@.message(),
    {
        match self {
            Error::Parse(s) => String::from_str("parse: ").concat(s.as_str()),
            Error::UnknownIndicator(s) => String::from_str("unknown indicator: ").concat(s.as_str()),
            Error::BadSpec(s) => String::from_str("bad spec: ").concat(s.as_str()),
            Error::Data(s) => String::from_str("data: ").concat(s.as_str()),
        }
    }
}

} // verus!
