//! What can go wrong with a wire frame.

use vstd::prelude::*;

verus! {

/// A frame could not be encoded or decoded.
#[derive(Debug, PartialEq, Eq)]
pub enum Error {
    /// Encoding failed.
    Encode(String),
    /// The bytes are not the CBOR that was expected.
    Decode(String),
    /// A required field is not there.
    MissingField(&'static str),
    /// The frame's `type` field names another kind of frame.
    UnexpectedType { got: String, expected: &'static str },
}

/// An [`Error`] by its text.
pub enum ErrorView {
    Encode(Seq<char>),
    Decode(Seq<char>),
    MissingField(Seq<char>),
    UnexpectedType { got: Seq<char>, expected: Seq<char> },
}

impl View for Error {
    type V = ErrorView;

    open spec fn view(&self) -> ErrorView {
        match *self {
            Error::Encode(t) => ErrorView::Encode(t@),
            Error::Decode(t) => ErrorView::Decode(t@),
            Error::MissingField(t) => ErrorView::MissingField(t@),
            Error::UnexpectedType { got, expected } => ErrorView::UnexpectedType {
                got: got@,
                expected: expected@,
            },
        }
    }
}

} // verus!
