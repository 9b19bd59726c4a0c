//! The values that backends, the agent and the GUI exchange.

use vstd::prelude::*;

use crate::text::{concat2, i64_to_decimal, signed_decimal};

verus! {

/// Why a backend operation failed.
#[derive(Debug)]
pub enum BackendError {
    /// Errors originating in git (open, status, diff, commit, etc.).
    Git(String),
    /// Transport-level failures: broken pipe to the agent, malformed JSON-RPC
    /// frames, EOF before response, etc. Only emitted by the remote backend.
    Transport(String),
    /// Structured error returned by the agent in a JSON-RPC error response.
    Protocol { code: i32, message: String },
    /// Local I/O errors that don't come from git (read, stat, remove, etc.).
    Io(String),
    /// Caller invoked an operation that requires an open repo without one.
    NoRepoOpen,
    /// Bare repositories are unsupported by the GUI.
    BareRepo,
    /// Path validation rejected a relative path with `..` or absolute components.
    InvalidPath(String),
}

/// The text under which an error is shown to the user.
pub open spec fn error_text(e: BackendError) -> Seq<char> {
    match e {
        BackendError::Git(s) => "git error: "@ + s@,
        BackendError::Transport(s) => "transport error: "@ + s@,
        BackendError::Protocol { code, message } => "agent error ("@ + signed_decimal(code as int)
            + "): "@ + message@,
        BackendError::Io(s) => "io error: "@ + s@,
        BackendError::NoRepoOpen => "no repository open"@,
        BackendError::BareRepo => "bare repositories are not supported"@,
        BackendError::InvalidPath(s) => "invalid path: "@ + s@,
    }
}

/// `e` is a git error with text `msg`.
pub open spec fn is_git_error(e: BackendError, msg: Seq<char>) -> bool {
    e matches BackendError::Git(m) && m@ == msg
}

/// `e` is an invalid-path error with text `msg`.
pub open spec fn is_invalid_path(e: BackendError, msg: Seq<char>) -> bool {
    e matches BackendError::InvalidPath(m) && m@ == msg
}

impl BackendError {
    /// The user-facing text of the error (what `to_string` gives).
    pub fn message(&self) -> (s: String)
        ensures
            s@ == error_text(*self),
    {
        match self {
            BackendError::Git(s) => concat2("git error: ", s.as_str()),
            BackendError::Transport(s) => concat2("transport error: ", s.as_str()),
            BackendError::Protocol { code, message } => {
                let mut out = String::from_str("agent error (");
                let digits = i64_to_decimal(*code as i64);
                out.append(digits.as_str());
                out.append("): ");
                out.append(message.as_str());
                out
            },
            BackendError::Io(s) => concat2("io error: ", s.as_str()),
            BackendError::NoRepoOpen => String::from_str("no repository open"),
            BackendError::BareRepo => String::from_str("bare repositories are not supported"),
            BackendError::InvalidPath(s) => concat2("invalid path: ", s.as_str()),
        }
    }
}

/// The error's text, as the GUI commands hand it to the frontend.
pub fn err_to_string(e: BackendError) -> (s: String)
    ensures
        s@ == error_text(e),
{
    e.message()
}

/// How a file changed between two sides of a diff.
#[derive(Debug, Clone, Copy, PartialEq, Eq, Structural)]
pub enum ChangeKind {
    Added,
    Modified,
    Deleted,
    Renamed,
    Typechange,
}

/// One changed file with its line counts.
#[derive(Debug, Clone)]
pub struct FileEntry {
    pub path: String,
    pub kind: ChangeKind,
    pub additions: u32,
    pub deletions: u32,
}

/// The working state of a repository: staged and unstaged changes and
/// untracked paths.
#[derive(Debug)]
pub struct RepoStatus {
    pub staged: Vec<FileEntry>,
    pub unstaged: Vec<FileEntry>,
    pub untracked: Vec<String>,
}

/// A request for both sides of one file: HEAD against the index (`staged`)
/// or against the working tree.
#[derive(Debug)]
pub struct FileContentsRequest {
    pub path: String,
    pub staged: bool,
}

/// Both sides of one file; a side is `None` when absent or binary.
#[derive(Debug)]
pub struct FileContentsResponse {
    pub name: String,
    pub old_content: Option<String>,
    pub old_binary: bool,
    pub new_content: Option<String>,
    pub new_binary: bool,
}

/// The answer to one `FileContentsRequest`: a response or an error text.
#[derive(Debug)]
pub struct FileContentsBatchItem {
    pub path: String,
    pub response: Option<FileContentsResponse>,
    pub error: Option<String>,
}

/// Progress of a clone, as reported to the frontend.
#[derive(Debug, Clone)]
pub struct CloneProgress {
    pub id: String,
    pub phase: String,
    pub received_objects: usize,
    pub total_objects: usize,
    pub indexed_objects: usize,
    pub received_bytes: usize,
    pub checkout_current: usize,
    pub checkout_total: usize,
}

} // verus!
