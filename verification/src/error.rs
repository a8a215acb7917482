//! Typed errors for reMarkable operations.
use vstd::prelude::*;
use crate::text::{cat, cat3, cat5};
use crate::number::{decimal_i, show_i64};

verus! {

/// Errors produced by transport and logical-tree operations.
#[derive(Debug)]
pub enum Error {
    /// The remote command ran but exited non-zero.
    Remote { status: i32, stderr: String },
    /// Local I/O failure, or a byte stream that ended in the middle.
    Io(String),
    /// A JSON document failed to parse or serialize.
    Json { path: String, message: String },
    /// A metadata file exists but is not a JSON object.
    InvalidMetadata(String),
    /// A logical path did not resolve to an item.
    PathNotFound(String),
    /// A path segment matched more than one item; refusing to guess.
    AmbiguousPath { segment: String, path: String },
    /// Creating, moving or renaming would collide with an existing sibling.
    NameConflict { name: String, parent: String },
    /// A folder was required but the reference resolved to a document.
    NotAFolder(String),
    /// A document was required but the reference resolved to a folder.
    NotADocument(String),
    /// Refusing to delete the named non-empty folder without `recursive`.
    FolderNotEmpty(String),
    /// Upload of a file type the device cannot render.
    UnsupportedFileType(String),
    /// The root pseudo-folder is not a valid target here.
    RootTarget,
    /// An empty folder path was supplied.
    EmptyPath,
    /// An invalid visible name was supplied.
    InvalidName(String),
    /// A local file to upload does not exist.
    FileNotFound(String),
    /// Several documents were to be written to a path that is no directory.
    OutputNotADirectory(String),
    /// Attempted to move an item into itself.
    MoveIntoSelf,
    /// Attempted to move a folder into one of its own descendants.
    MoveIntoDescendant,
    /// xochitl did not come back after a restart attempt.
    XochitlRestart(String),
    /// A `.rmdoc` bundle is malformed.
    Bundle(String),
    /// An EPUB could not be written.
    Epub(String),
}

/// What an error says.
pub enum ErrorView {
    Remote { status: i32, stderr: Seq<char> },
    Io(Seq<char>),
    Json { path: Seq<char>, message: Seq<char> },
    InvalidMetadata(Seq<char>),
    PathNotFound(Seq<char>),
    AmbiguousPath { segment: Seq<char>, path: Seq<char> },
    NameConflict { name: Seq<char>, parent: Seq<char> },
    NotAFolder(Seq<char>),
    NotADocument(Seq<char>),
    FolderNotEmpty(Seq<char>),
    UnsupportedFileType(Seq<char>),
    RootTarget,
    EmptyPath,
    InvalidName(Seq<char>),
    FileNotFound(Seq<char>),
    OutputNotADirectory(Seq<char>),
    MoveIntoSelf,
    MoveIntoDescendant,
    XochitlRestart(Seq<char>),
    Bundle(Seq<char>),
    Epub(Seq<char>),
}

impl DeepView for Error {
    type V = ErrorView;

    open spec fn deep_view(&self) -> ErrorView {
        match *self {
            Error::Remote { status, stderr } => ErrorView::Remote { status, stderr: stderr@ },
            Error::Io(m) => ErrorView::Io(m@),
            Error::Json { path, message } => ErrorView::Json { path: path@, message: message@ },
            Error::InvalidMetadata(u) => ErrorView::InvalidMetadata(u@),
            Error::PathNotFound(p) => ErrorView::PathNotFound(p@),
            Error::AmbiguousPath { segment, path } => ErrorView::AmbiguousPath {
                segment: segment@,
                path: path@,
            },
            Error::NameConflict { name, parent } => ErrorView::NameConflict {
                name: name@,
                parent: parent@,
            },
            Error::NotAFolder(p) => ErrorView::NotAFolder(p@),
            Error::NotADocument(p) => ErrorView::NotADocument(p@),
            Error::FolderNotEmpty(n) => ErrorView::FolderNotEmpty(n@),
            Error::UnsupportedFileType(t) => ErrorView::UnsupportedFileType(t@),
            Error::RootTarget => ErrorView::RootTarget,
            Error::EmptyPath => ErrorView::EmptyPath,
            Error::InvalidName(m) => ErrorView::InvalidName(m@),
            Error::FileNotFound(p) => ErrorView::FileNotFound(p@),
            Error::OutputNotADirectory(p) => ErrorView::OutputNotADirectory(p@),
            Error::MoveIntoSelf => ErrorView::MoveIntoSelf,
            Error::MoveIntoDescendant => ErrorView::MoveIntoDescendant,
            Error::XochitlRestart(m) => ErrorView::XochitlRestart(m@),
            Error::Bundle(m) => ErrorView::Bundle(m@),
            Error::Epub(m) => ErrorView::Epub(m@),
        }
    }
}

/// Whether a result holds what `s` says.
pub open spec fn agrees<T: DeepView>(
    r: std::result::Result<T, Error>,
    s: std::result::Result<T::V, ErrorView>,
) -> bool {
    match r {
        Ok(v) => s == std::result::Result::<T::V, ErrorView>::Ok(v.deep_view()),
        Err(e) => s == std::result::Result::<T::V, ErrorView>::Err(e.deep_view()),
    }
}

impl ErrorView {
    /// The one-line message of an error.
    pub open spec fn text(self) -> Seq<char> {
        match self {
            ErrorView::Remote { status, stderr } => "remote command exited with status "@
                + decimal_i(status as int) + ": "@ + stderr,
            ErrorView::Io(m) => m,
            ErrorView::Json { path, message } => "invalid JSON in "@ + path + ": "@ + message,
            ErrorView::InvalidMetadata(u) => "invalid metadata for "@ + u
                + ": not a JSON object"@,
            ErrorView::PathNotFound(p) => "path not found: "@ + p,
            ErrorView::AmbiguousPath { segment, path } => "ambiguous path segment '"@ + segment
                + "' in '"@ + path + "'"@,
            ErrorView::NameConflict { name, parent } => "an item named '"@ + name
                + "' already exists in '"@ + parent + "'"@,
            ErrorView::NotAFolder(p) => "not a folder: "@ + p,
            ErrorView::NotADocument(p) => "not a document: "@ + p,
            ErrorView::FolderNotEmpty(_) => "folder is not empty (use recursive delete)"@,
            ErrorView::UnsupportedFileType(t) => "unsupported file type '"@ + t
                + "': only .pdf and .epub are supported"@,
            ErrorView::RootTarget => "root is not a valid target for this operation"@,
            ErrorView::EmptyPath => "folder path is empty"@,
            ErrorView::InvalidName(m) => "invalid name: "@ + m,
            ErrorView::FileNotFound(p) => "file not found: "@ + p,
            ErrorView::OutputNotADirectory(p) => "not a directory: "@ + p,
            ErrorView::MoveIntoSelf => "cannot move an item into itself"@,
            ErrorView::MoveIntoDescendant => "cannot move a folder into its own descendant"@,
            ErrorView::XochitlRestart(m) => "failed to restart xochitl: "@ + m,
            ErrorView::Bundle(m) => "invalid bundle: "@ + m,
            ErrorView::Epub(m) => "cannot build EPUB: "@ + m,
        }
    }
}

impl Error {
    /// The one-line message of the error.
    pub fn message(&self) -> (out: String)
        ensures
            out@ == self.deep_view().text(),
    {
        match self {
            Error::Remote { status, stderr } => {
                let shown = show_i64(*status as i64);
                let head = cat3("remote command exited with status ", shown.as_str(), ": ");
                cat(head.as_str(), stderr.as_str())
            },
            Error::Io(m) => m.clone(),
            Error::Json { path, message } => {
                let head = cat3("invalid JSON in ", path.as_str(), ": ");
                cat(head.as_str(), message.as_str())
            },
            Error::InvalidMetadata(u) => cat3(
                "invalid metadata for ",
                u.as_str(),
                ": not a JSON object",
            ),
            Error::PathNotFound(p) => cat("path not found: ", p.as_str()),
            Error::AmbiguousPath { segment, path } => cat5(
                "ambiguous path segment '",
                segment.as_str(),
                "' in '",
                path.as_str(),
                "'",
            ),
            Error::NameConflict { name, parent } => cat5(
                "an item named '",
                name.as_str(),
                "' already exists in '",
                parent.as_str(),
                "'",
            ),
            Error::NotAFolder(p) => cat("not a folder: ", p.as_str()),
            Error::NotADocument(p) => cat("not a document: ", p.as_str()),
            Error::FolderNotEmpty(_) => String::from_str(
                "folder is not empty (use recursive delete)",
            ),
            Error::UnsupportedFileType(t) => cat3(
                "unsupported file type '",
                t.as_str(),
                "': only .pdf and .epub are supported",
            ),
            Error::RootTarget => String::from_str(
                "root is not a valid target for this operation",
            ),
            Error::EmptyPath => String::from_str("folder path is empty"),
            Error::InvalidName(m) => cat("invalid name: ", m.as_str()),
            Error::FileNotFound(p) => cat("file not found: ", p.as_str()),
            Error::OutputNotADirectory(p) => cat("not a directory: ", p.as_str()),
            Error::MoveIntoSelf => String::from_str("cannot move an item into itself"),
            Error::MoveIntoDescendant => String::from_str(
                "cannot move a folder into its own descendant",
            ),
            Error::XochitlRestart(m) => cat("failed to restart xochitl: ", m.as_str()),
            Error::Bundle(m) => cat("invalid bundle: ", m.as_str()),
            Error::Epub(m) => cat("cannot build EPUB: ", m.as_str()),
        }
    }
}

/// Every error says what went wrong, and names the item, the path or the text that it is about.
pub proof fn messages_name_their_cause(a: Seq<char>, b: Seq<char>, status: i32)
    ensures
        (ErrorView::Remote { status, stderr: a }).text() == "remote command exited with status "@
            + decimal_i(status as int) + ": "@ + a,
        ErrorView::Io(a).text() == a,
        (ErrorView::Json { path: a, message: b }).text() == "invalid JSON in "@ + a + ": "@ + b,
        ErrorView::InvalidMetadata(a).text() == "invalid metadata for "@ + a
            + ": not a JSON object"@,
        ErrorView::PathNotFound(a).text() == "path not found: "@ + a,
        (ErrorView::AmbiguousPath { segment: a, path: b }).text() == "ambiguous path segment '"@ + a
            + "' in '"@ + b + "'"@,
        (ErrorView::NameConflict { name: a, parent: b }).text() == "an item named '"@ + a
            + "' already exists in '"@ + b + "'"@,
        ErrorView::NotAFolder(a).text() == "not a folder: "@ + a,
        ErrorView::NotADocument(a).text() == "not a document: "@ + a,
        ErrorView::FolderNotEmpty(a).text() == "folder is not empty (use recursive delete)"@,
        ErrorView::UnsupportedFileType(a).text() == "unsupported file type '"@ + a
            + "': only .pdf and .epub are supported"@,
        ErrorView::RootTarget.text() == "root is not a valid target for this operation"@,
        ErrorView::EmptyPath.text() == "folder path is empty"@,
        ErrorView::InvalidName(a).text() == "invalid name: "@ + a,
        ErrorView::FileNotFound(a).text() == "file not found: "@ + a,
        ErrorView::OutputNotADirectory(a).text() == "not a directory: "@ + a,
        ErrorView::MoveIntoSelf.text() == "cannot move an item into itself"@,
        ErrorView::MoveIntoDescendant.text() == "cannot move a folder into its own descendant"@,
        ErrorView::XochitlRestart(a).text() == "failed to restart xochitl: "@ + a,
        ErrorView::Bundle(a).text() == "invalid bundle: "@ + a,
        ErrorView::Epub(a).text() == "cannot build EPUB: "@ + a,
{
}

/// A result agrees with what was said of it only where both succeed with the same value or both fail
/// with the same error.
pub proof fn agreeing_results_are_the_same<T: DeepView>(
    value: T,
    error: Error,
    said: std::result::Result<T::V, ErrorView>,
)
    ensures
        agrees(std::result::Result::<T, Error>::Ok(value), said) <==> (said matches Ok(v) && v
            == value.deep_view()),
        agrees(std::result::Result::<T, Error>::Err(error), said) <==> (said matches Err(e) && e
            == error.deep_view()),
{
}

} // verus!
