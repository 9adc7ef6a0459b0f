//! The errors of the library.

use vstd::prelude::*;
use vstd::string::StringExecFns;

verus! {

/// What can go wrong between a source tree and the store.
#[derive(Debug, PartialEq, Eq)]
pub enum ApplicationError {
    /// A document is not framed as front matter and body, or its header
    /// lacks a field or holds a malformed date.
    ParsingError { path: String, reason: String },
    /// A file could not be read.
    ReadingError { path: String, source: String },
    /// A post could not be made of a document.
    PostCreationError { path: String, reason: String },
    /// The front matter is not the YAML of a header.
    YamlError(String),
    /// A directory could not be read, or is no directory.
    IoError { path: String, cause: String },
    /// The remote source could not be fetched.
    GitError(String),
    /// The store holds no post under the slug.
    NotFound { slug: String },
}

/// What an `ApplicationError` holds.
pub enum ApplicationErrorView {
    ParsingError { path: Seq<char>, reason: Seq<char> },
    ReadingError { path: Seq<char>, source: Seq<char> },
    PostCreationError { path: Seq<char>, reason: Seq<char> },
    YamlError(Seq<char>),
    IoError { path: Seq<char>, cause: Seq<char> },
    GitError(Seq<char>),
    NotFound { slug: Seq<char> },
}

impl View for ApplicationError {
    type V = ApplicationErrorView;

    open spec fn view(&self) -> ApplicationErrorView {
        match *self {
            ApplicationError::ParsingError { path, reason } => ApplicationErrorView::ParsingError {
                path: path@,
                reason: reason@,
            },
            ApplicationError::ReadingError { path, source } => ApplicationErrorView::ReadingError {
                path: path@,
                source: source@,
            },
            ApplicationError::PostCreationError {
                path,
                reason,
            } => ApplicationErrorView::PostCreationError { path: path@, reason: reason@ },
            ApplicationError::YamlError(message) => ApplicationErrorView::YamlError(message@),
            ApplicationError::IoError { path, cause } => ApplicationErrorView::IoError {
                path: path@,
                cause: cause@,
            },
            ApplicationError::GitError(message) => ApplicationErrorView::GitError(message@),
            ApplicationError::NotFound { slug } => ApplicationErrorView::NotFound { slug: slug@ },
        }
    }
}

/// The text that describes an error.
pub open spec fn message_of(error: ApplicationErrorView) -> Seq<char> {
    match error {
        ApplicationErrorView::ParsingError { path, reason } => "Failed to parse post structure from "@
            + path + ": "@ + reason,
        ApplicationErrorView::ReadingError { path, source } => "Failed to read file at "@ + path
            + ": "@ + source,
        ApplicationErrorView::PostCreationError { path, reason } => "Failed to create post from "@
            + path + ": "@ + reason,
        ApplicationErrorView::YamlError(message) => "Failed to parse YAML: "@ + message,
        ApplicationErrorView::IoError { path, cause } => "Failed to access "@ + path + ": "@
            + cause,
        ApplicationErrorView::GitError(message) => "Failed to clone repository: "@ + message,
        ApplicationErrorView::NotFound { slug } => "Post not found: "@ + slug,
    }
}

/// `start`, `first`, a colon with a space, and `second`.
fn described(start: &str, first: &String, second: &String) -> (text: String)
    ensures
        text@ == start@ + first@ + ": "@ + second@,
{
    let mut text = start.to_owned();
    text.append(first.as_str());
    text.append(": ");
    text.append(second.as_str());
    text
}

impl ApplicationError {
    /// The text that describes the error.
    pub fn message(&self) -> (text: String)
        ensures
            text@ == message_of(self@),
    {
        match self {
            ApplicationError::ParsingError { path, reason } => described(
                "Failed to parse post structure from ",
                path,
                reason,
            ),
            ApplicationError::ReadingError { path, source } => described(
                "Failed to read file at ",
                path,
                source,
            ),
            ApplicationError::PostCreationError { path, reason } => described(
                "Failed to create post from ",
                path,
                reason,
            ),
            ApplicationError::YamlError(message) => {
                let mut text = "Failed to parse YAML: ".to_owned();
                text.append(message.as_str());
                text
            },
            ApplicationError::IoError { path, cause } => described(
                "Failed to access ",
                path,
                cause,
            ),
            ApplicationError::GitError(message) => {
                let mut text = "Failed to clone repository: ".to_owned();
                text.append(message.as_str());
                text
            },
            ApplicationError::NotFound { slug } => {
                let mut text = "Post not found: ".to_owned();
                text.append(slug.as_str());
                text
            },
        }
    }
}

} // verus!
