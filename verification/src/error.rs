//! Errors returned by parsing, download planning and archive handling.
use vstd::prelude::*;

use crate::json::json_error_text;
use crate::text::cat;

verus! {

/// An error produced by the library.
#[derive(Debug)]
pub enum Error {
    /// A Google Drive response did not expose a usable file download URL.
    FileUrlRetrieval(String),
    /// A folder contains at least the maximum number of files.
    FolderLimit(String),
    /// Caller-provided options or identifiers are inconsistent or unsupported.
    InvalidInput(String),
    /// Google Drive metadata or an HTTP header could not be interpreted.
    Parse(String),
    /// An archive format is unsupported or its contents could not be extracted.
    Extract(String),
    /// A file's digest differs from the expected one.
    HashMismatch(String),
    /// An HTTP client, request, or response-body operation failed.
    Http(String),
    /// A local filesystem operation failed.
    Io(String),
    /// A URL required by a download operation was malformed.
    UrlParse(String),
    /// Embedded Google Drive metadata was not valid JSON.
    Json(serde_json::Error),
}

/// The variant of an [`Error`], without its payload.
#[derive(Debug, Clone, Copy, PartialEq, Eq)]
pub enum ErrorKind {
    FileUrlRetrieval,
    FolderLimit,
    InvalidInput,
    Parse,
    Extract,
    HashMismatch,
    Http,
    Io,
    UrlParse,
    Json,
}

impl Error {
    /// The variant of this error.
    pub open spec fn kind(&self) -> ErrorKind {
        match self {
            Error::FileUrlRetrieval(_) => ErrorKind::FileUrlRetrieval,
            Error::FolderLimit(_) => ErrorKind::FolderLimit,
            Error::InvalidInput(_) => ErrorKind::InvalidInput,
            Error::Parse(_) => ErrorKind::Parse,
            Error::Extract(_) => ErrorKind::Extract,
            Error::HashMismatch(_) => ErrorKind::HashMismatch,
            Error::Http(_) => ErrorKind::Http,
            Error::Io(_) => ErrorKind::Io,
            Error::UrlParse(_) => ErrorKind::UrlParse,
            Error::Json(_) => ErrorKind::Json,
        }
    }

    /// The message carried by this error (empty for [`Error::Json`], whose text
    /// `serde_json` produces).
    pub open spec fn message(&self) -> Seq<char> {
        match self {
            Error::FileUrlRetrieval(m) => m@,
            Error::FolderLimit(m) => m@,
            Error::InvalidInput(m) => m@,
            Error::Parse(m) => m@,
            Error::Extract(m) => m@,
            Error::HashMismatch(m) => m@,
            Error::Http(m) => m@,
            Error::Io(m) => m@,
            Error::UrlParse(m) => m@,
            Error::Json(_) => Seq::empty(),
        }
    }

    /// The message carried by this error, as a string (empty for
    /// [`Error::Json`]).
    pub fn message_text(&self) -> (m: String)
        ensures
            m@ == self.message(),
    {
        match self {
            Error::FileUrlRetrieval(m) => m.clone(),
            Error::FolderLimit(m) => m.clone(),
            Error::InvalidInput(m) => m.clone(),
            Error::Parse(m) => m.clone(),
            Error::Extract(m) => m.clone(),
            Error::HashMismatch(m) => m.clone(),
            Error::Http(m) => m.clone(),
            Error::Io(m) => m.clone(),
            Error::UrlParse(m) => m.clone(),
            Error::Json(_) => String::new(),
        }
    }

    /// The kind of this error.
    pub fn error_kind(&self) -> (k: ErrorKind)
        ensures
            k == self.kind(),
    {
        match self {
            Error::FileUrlRetrieval(_) => ErrorKind::FileUrlRetrieval,
            Error::FolderLimit(_) => ErrorKind::FolderLimit,
            Error::InvalidInput(_) => ErrorKind::InvalidInput,
            Error::Parse(_) => ErrorKind::Parse,
            Error::Extract(_) => ErrorKind::Extract,
            Error::HashMismatch(_) => ErrorKind::HashMismatch,
            Error::Http(_) => ErrorKind::Http,
            Error::Io(_) => ErrorKind::Io,
            Error::UrlParse(_) => ErrorKind::UrlParse,
            Error::Json(_) => ErrorKind::Json,
        }
    }
}

/// The text that the display of an error of `kind` puts before its message.
pub open spec fn display_prefix(kind: ErrorKind) -> Seq<char> {
    match kind {
        ErrorKind::Http => "HTTP error: "@,
        ErrorKind::Io => "IO error: "@,
        ErrorKind::UrlParse => "URL parse error: "@,
        ErrorKind::Json => "JSON error: "@,
        _ => Seq::empty(),
    }
}

impl Error {
    /// The text this error displays: its message, after `HTTP error: `,
    /// `IO error: ` or `URL parse error: ` for those kinds. A JSON error shows
    /// `JSON error: ` and then the text `serde_json` gives for it.
    pub fn display_text(&self) -> (r: String)
        ensures
            self.kind() != ErrorKind::Json ==> r@ == display_prefix(self.kind()) + self.message(),
            self.kind() == ErrorKind::Json ==> r@.len() >= display_prefix(self.kind()).len()
                && r@.take(display_prefix(self.kind()).len() as int) == display_prefix(self.kind()),
    {
        match self {
            Error::Http(m) => cat("HTTP error: ", m.as_str()),
            Error::Io(m) => cat("IO error: ", m.as_str()),
            Error::UrlParse(m) => cat("URL parse error: ", m.as_str()),
            Error::Json(j) => {
                let t = json_error_text(j);
                let r = cat("JSON error: ", t.as_str());
                assert(r@.take("JSON error: "@.len() as int) =~= "JSON error: "@);
                r
            },
            _ => {
                let r = self.message_text();
                assert(Seq::<char>::empty() + self.message() =~= self.message());
                r
            },
        }
    }
}

/// A string result seen through views: the text, or the error's kind and message.
pub open spec fn text_result(r: Result<String, Error>) -> Result<Seq<char>, (ErrorKind, Seq<char>)> {
    match r {
        Ok(s) => Ok(s@),
        Err(e) => Err((e.kind(), e.message())),
    }
}

} // verus!
