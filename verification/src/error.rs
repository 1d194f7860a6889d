//! Error taxonomy of the library. Non-zero exit of the external generator is
//! not an error: it is data in `CommandOutput`.

use vstd::prelude::*;

verus! {

/// Every failure the library can report.
#[derive(Debug, Clone)]
pub enum Error {
    /// The raw text does not start with the frontmatter delimiter.
    NotFrontmatter,
    /// Fewer than two delimiter occurrences follow the start of the text.
    MalformedFrontmatter,
    /// The metadata block between the delimiters does not decode.
    InvalidMetadata(String),
    /// A file read or metadata query failed (reported by the caller's I/O layer).
    Io(String),
    /// The external generator could not be spawned.
    ProcessSpawnFailed(String),
    /// A tracked server process could not be terminated.
    ProcessKillFailed(String),
    /// A server for the project root is already registered.
    AlreadyRunning,
    /// No server is registered under the given identifier.
    ServerNotFound,
}

} // verus!
