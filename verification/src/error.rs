//! What can go wrong while a tree is walked and its images are converted.

use vstd::prelude::*;
use vstd::string::*;

verus! {

/// The step at which a conversion, or the walk itself, failed.
#[derive(Clone, Copy, Debug, PartialEq, Eq, Structural)]
pub enum ErrorKind {
    /// The entries of a directory could not be enumerated.
    DirectoryRead,
    /// An input file could not be opened or read.
    Open,
    /// The bytes of an input file are not an image that can be decoded.
    Decode,
    /// The decoded image could not be encoded in the target format.
    Encode,
    /// The encoded image could not be written.
    Write,
}

/// A failure: the step that failed, the file or directory it failed on, and
/// the cause as the failing operation worded it.
#[derive(Clone, Debug, PartialEq, Eq)]
pub struct ConvertError {
    pub kind: ErrorKind,
    pub path: String,
    pub cause: String,
}

/// A failure, with its texts as sequences of characters.
pub struct ErrorView {
    pub kind: ErrorKind,
    pub path: Seq<char>,
    pub cause: Seq<char>,
}

impl View for ConvertError {
    type V = ErrorView;

    open spec fn view(&self) -> ErrorView {
        ErrorView { kind: self.kind, path: self.path@, cause: self.cause@ }
    }
}

impl ErrorKind {
    /// The words that introduce a failure of this kind.
    pub open spec fn spec_label(self) -> Seq<char> {
        match self {
            ErrorKind::DirectoryRead => "Failed to read directory"@,
            ErrorKind::Open => "Failed to open image"@,
            ErrorKind::Decode => "Failed to decode image"@,
            ErrorKind::Encode => "Failed to encode image"@,
            ErrorKind::Write => "Failed to write image file"@,
        }
    }

    /// The words that introduce a failure of this kind.
    pub fn label(&self) -> (words: &'static str)
        ensures
            words@ == self.spec_label(),
    {
        match self {
            ErrorKind::DirectoryRead => "Failed to read directory",
            ErrorKind::Open => "Failed to open image",
            ErrorKind::Decode => "Failed to decode image",
            ErrorKind::Encode => "Failed to encode image",
            ErrorKind::Write => "Failed to write image file",
        }
    }
}

impl ErrorView {
    /// What failed and why: the label of the kind, a colon, and the cause.
    pub open spec fn message(self) -> Seq<char> {
        self.kind.spec_label() + ": "@ + self.cause
    }

    /// The failure in one line, for the user: the path it failed on, a
    /// colon, and the message.
    pub open spec fn report(self) -> Seq<char> {
        self.path + ": "@ + self.message()
    }
}

impl ConvertError {
    /// A failure of the given kind on `path`.
    pub fn new(kind: ErrorKind, path: &str, cause: String) -> (error: ConvertError)
        ensures
            error@ == (ErrorView { kind, path: path@, cause: cause@ }),
    {
        ConvertError { kind, path: String::from_str(path), cause }
    }

    /// What failed and why: the label of the kind, a colon, and the cause.
    pub fn message(&self) -> (text: String)
        ensures
            text@ == self@.message(),
    {
        let mut text = String::from_str(self.kind.label());
        text.append(": ");
        text.append(self.cause.as_str());
        text
    }

    /// The failure in one line, for the user: the path it failed on, a
    /// colon, and the message.
    pub fn report(&self) -> (line: String)
        ensures
            line@ == self@.report(),
    {
        let mut line = self.path.clone();
        line.append(": ");
        line.append(self.message().as_str());
        line
    }

    /// A copy of this failure.
    pub fn duplicate(&self) -> (copy: ConvertError)
        ensures
            copy@ == self@,
    {
        ConvertError { kind: self.kind, path: self.path.clone(), cause: self.cause.clone() }
    }
}

} // verus!
