//! Failures that keep the service from starting.

use crate::text::ParseIntError;
use vstd::prelude::*;

verus! {

/// A start-up failure. Each of them is fatal: the service does not begin to
/// serve.
#[derive(Debug, PartialEq, Eq)]
pub enum Error {
    /// A worker pool was asked for with no workers.
    EmptyPool,
    /// The configured worker pool size is not a decimal `usize`.
    InvalidPoolSize(ParseIntError),
    /// The listening socket could not be bound; the text is the reason that
    /// the operating system gave.
    Bind(String),
}

/// What an [`Error`] holds, as plain values.
pub enum ErrorView {
    EmptyPool,
    InvalidPoolSize(ParseIntError),
    Bind(Seq<char>),
}

impl View for Error {
    type V = ErrorView;

    open spec fn view(&self) -> ErrorView {
        match self {
            Error::EmptyPool => ErrorView::EmptyPool,
            Error::InvalidPoolSize(kind) => ErrorView::InvalidPoolSize(*kind),
            Error::Bind(reason) => ErrorView::Bind(reason@),
        }
    }
}

/// The message that describes why a text is not a `usize`.
pub open spec fn parse_error_text(kind: ParseIntError) -> Seq<char> {
    match kind {
        ParseIntError::Empty => "cannot parse integer from empty string"@,
        ParseIntError::InvalidDigit => "invalid digit found in string"@,
        ParseIntError::PosOverflow => "number too large to fit in target type"@,
    }
}

impl ErrorView {
    /// The message of the error: what failed, a colon, and why.
    pub open spec fn text(self) -> Seq<char> {
        match self {
            ErrorView::EmptyPool => "N"@,
            ErrorView::InvalidPoolSize(kind) => "invalid worker pool size: "@ + parse_error_text(
                kind,
            ),
            ErrorView::Bind(reason) => "bind address: "@ + reason,
        }
    }
}

impl Error {
    /// The message of the error. For an empty pool it is the single letter
    /// `N`, the name under which the pool size goes.
    pub fn to_string(&self) -> (text: String)
        ensures
            text@ == self@.text(),
    {
        match self {
            Error::EmptyPool => String::from_str("N"),
            Error::InvalidPoolSize(kind) => {
                let why = match kind {
                    ParseIntError::Empty => "cannot parse integer from empty string",
                    ParseIntError::InvalidDigit => "invalid digit found in string",
                    ParseIntError::PosOverflow => "number too large to fit in target type",
                };
                let mut text = String::from_str("invalid worker pool size: ");
                text.append(why);
                text
            },
            Error::Bind(reason) => {
                let mut text = String::from_str("bind address: ");
                text.append(reason.as_str());
                text
            },
        }
    }
}

} // verus!
