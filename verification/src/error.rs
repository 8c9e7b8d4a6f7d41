//! Translation failures.

use vstd::prelude::*;
use vstd::string::*;

verus! {

/// What went wrong in a translation.
#[derive(Clone, Copy, Debug, PartialEq, Eq, Structural)]
pub enum ErrorKind {
    /// Text other than white space stood in the metadata block.
    TextInMetadata,
    /// A form in the metadata block had a keyword outside the table.
    UnrecognizedKeyword,
    /// A form had the wrong number of children.
    WrongArity,
    /// The one child of a form was another form where text was required.
    ExpectedText,
    /// A form inside formatted content had a keyword that is no formatting command.
    UnrecognizedFormatting,
}

/// A translation failure: its kind and the keyword or text at fault.
#[derive(Debug, PartialEq, Eq)]
pub struct Error {
    pub kind: ErrorKind,
    pub subject: String,
}

/// A translation failure, by its longer name.
pub type TranslationError = Error;

/// The mathematical value of an [`Error`].
pub struct ErrorView {
    pub kind: ErrorKind,
    pub subject: Seq<char>,
}

impl View for Error {
    type V = ErrorView;

    open spec fn view(&self) -> ErrorView {
        ErrorView { kind: self.kind, subject: self.subject@ }
    }
}

/// What [`Error::description`] says of each kind.
pub open spec fn kind_text(kind: ErrorKind) -> Seq<char> {
    match kind {
        ErrorKind::TextInMetadata => "Text in the meta block"@,
        ErrorKind::UnrecognizedKeyword => "Unrecognized meta keyword"@,
        ErrorKind::WrongArity => "Wrong number of arguments"@,
        ErrorKind::ExpectedText => "Expected string argument"@,
        ErrorKind::UnrecognizedFormatting => "Unrecognized formatting command"@,
    }
}

/// The full message of an error, as [`Error::message`] builds it.
pub open spec fn message_text(e: ErrorView) -> Seq<char> {
    "Translation error: "@ + kind_text(e.kind) + ": "@ + e.subject
}

impl Error {
    /// An error of the given kind about the given keyword or text.
    pub fn new(kind: ErrorKind, subject: &str) -> (e: Error)
        ensures
            e@ == (ErrorView { kind, subject: subject@ }),
    {
        Error { kind, subject: String::from_str(subject) }
    }

    /// A short phrase for the kind of failure.
    pub fn description(&self) -> (s: &'static str)
        ensures
            s@ == kind_text(self.kind),
    {
        match self.kind {
            ErrorKind::TextInMetadata => "Text in the meta block",
            ErrorKind::UnrecognizedKeyword => "Unrecognized meta keyword",
            ErrorKind::WrongArity => "Wrong number of arguments",
            ErrorKind::ExpectedText => "Expected string argument",
            ErrorKind::UnrecognizedFormatting => "Unrecognized formatting command",
        }
    }

    /// The message to show a user.
    pub fn message(&self) -> (s: String)
        ensures
            s@ == message_text(self@),
    {
        let mut s = String::from_str("Translation error: ");
        s.append(self.description());
        s.append(": ");
        s.append(self.subject.as_str());
        s
    }
}

} // verus!
