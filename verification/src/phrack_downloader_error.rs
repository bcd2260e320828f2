//! The errors that end a planning step.

use crate::text::IntErrorKind;
use vstd::prelude::*;

verus! {

/// What went wrong while a run was planned.
#[derive(Debug, PartialEq, Eq)]
pub enum PhrackDownloaderError {
    /// A page could not be fetched; the text is the transport's own message.
    Reqwest(String),
    /// A link matched an expected shape but its number could not be read.
    ParseInt(IntErrorKind),
    /// A directory or file operation failed; the text is the system's message.
    Io(String),
    /// Anything else: a page too long to be parsed, a selector that the parser
    /// rejects, an event that the planner was not waiting for.
    Unknown,
}

/// The mathematical content of a [`PhrackDownloaderError`].
pub enum ErrorView {
    Reqwest(Seq<char>),
    ParseInt(IntErrorKind),
    Io(Seq<char>),
    Unknown,
}

impl View for PhrackDownloaderError {
    type V = ErrorView;

    open spec fn view(&self) -> ErrorView {
        match self {
            PhrackDownloaderError::Reqwest(m) => ErrorView::Reqwest(m@),
            PhrackDownloaderError::ParseInt(k) => ErrorView::ParseInt(*k),
            PhrackDownloaderError::Io(m) => ErrorView::Io(m@),
            PhrackDownloaderError::Unknown => ErrorView::Unknown,
        }
    }
}

/// The sentence that describes a failure to read a number.
pub open spec fn int_error_text(kind: IntErrorKind) -> Seq<char> {
    match kind {
        IntErrorKind::Empty => "cannot parse integer from empty string"@,
        IntErrorKind::InvalidDigit => "invalid digit found in string"@,
        IntErrorKind::PosOverflow => "number too large to fit in target type"@,
    }
}

/// The line shown to the user for an error.
pub open spec fn error_text(error: ErrorView) -> Seq<char> {
    match error {
        ErrorView::Reqwest(m) => "HTTP error: "@ + m,
        ErrorView::ParseInt(k) => "Parse int error: "@ + int_error_text(k),
        ErrorView::Io(m) => "IO error: "@ + m,
        ErrorView::Unknown => "unknown error"@,
    }
}

impl PhrackDownloaderError {
    /// The line shown to the user for this error.
    pub fn message(&self) -> (line: String)
        ensures
            line@ == error_text(self@),
    {
        match self {
            PhrackDownloaderError::Reqwest(m) => {
                let mut line = "HTTP error: ".to_owned();
                line.append(m.as_str());
                line
            },
            PhrackDownloaderError::ParseInt(k) => {
                let mut line = "Parse int error: ".to_owned();
                match k {
                    IntErrorKind::Empty => line.append("cannot parse integer from empty string"),
                    IntErrorKind::InvalidDigit => line.append("invalid digit found in string"),
                    IntErrorKind::PosOverflow => line.append(
                        "number too large to fit in target type",
                    ),
                }
                line
            },
            PhrackDownloaderError::Io(m) => {
                let mut line = "IO error: ".to_owned();
                line.append(m.as_str());
                line
            },
            PhrackDownloaderError::Unknown => "unknown error".to_owned(),
        }
    }
}

} // verus!
