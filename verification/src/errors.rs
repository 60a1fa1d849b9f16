//! The closed set of failures shared by every storage backend.

use vstd::prelude::*;
use vstd::string::*;

verus! {

/// The failures a storage operation can report.
#[derive(Debug)]
pub enum DatabaseError {
    /// The backend could not set up its storage location.
    InitialFailed(String),
    /// A counter operation met an entry that is not an integer.
    InvalidValueType(String),
    /// The key is absent where absence is meaningful.
    ValueNotFound(String),
    /// The engine or the encoding failed; stored data may be corrupt.
    InternalError(String),
}

/// The mathematical form of a [`DatabaseError`]: the variant and its text.
pub enum ErrorView {
    InitialFailed(Seq<char>),
    InvalidValueType(Seq<char>),
    ValueNotFound(Seq<char>),
    InternalError(Seq<char>),
}

impl View for DatabaseError {
    type V = ErrorView;

    open spec fn view(&self) -> ErrorView {
        match self {
            DatabaseError::InitialFailed(s) => ErrorView::InitialFailed(s@),
            DatabaseError::InvalidValueType(s) => ErrorView::InvalidValueType(s@),
            DatabaseError::ValueNotFound(s) => ErrorView::ValueNotFound(s@),
            DatabaseError::InternalError(s) => ErrorView::InternalError(s@),
        }
    }
}

impl ErrorView {
    /// The text that the variant carries.
    pub open spec fn detail(self) -> Seq<char> {
        match self {
            ErrorView::InitialFailed(s) => s,
            ErrorView::InvalidValueType(s) => s,
            ErrorView::ValueNotFound(s) => s,
            ErrorView::InternalError(s) => s,
        }
    }

    /// The fixed words that introduce the variant in a message.
    pub open spec fn heading(self) -> Seq<char> {
        match self {
            ErrorView::InitialFailed(_) => "Failed to initialize database: "@,
            ErrorView::InvalidValueType(_) => "Invalid value type: "@,
            ErrorView::ValueNotFound(_) => "Value not found for key: "@,
            ErrorView::InternalError(_) => "Internal error: "@,
        }
    }

    /// The whole message: the heading followed by the detail.
    pub open spec fn message(self) -> Seq<char> {
        self.heading() + self.detail()
    }
}

/// A result with its failure in mathematical form.
pub open spec fn lift<T>(r: Result<T, DatabaseError>) -> Result<T, ErrorView> {
    match r {
        Ok(v) => Ok(v),
        Err(e) => Err(e@),
    }
}

impl DatabaseError {
    /// The message shown to a caller: the variant's heading, then its detail.
    pub fn message(&self) -> (text: String)
        ensures
            text@ == self@.message(),
    {
        match self {
            DatabaseError::InitialFailed(err) => {
                let mut text = "Failed to initialize database: ".to_owned();
                text.append(err.as_str());
                text
            },
            DatabaseError::InvalidValueType(kind) => {
                let mut text = "Invalid value type: ".to_owned();
                text.append(kind.as_str());
                text
            },
            DatabaseError::ValueNotFound(key) => {
                let mut text = "Value not found for key: ".to_owned();
                text.append(key.as_str());
                text
            },
            DatabaseError::InternalError(err) => {
                let mut text = "Internal error: ".to_owned();
                text.append(err.as_str());
                text
            },
        }
    }
}

} // verus!
