//! The failures that a run can meet, one variant per kind.
use vstd::prelude::*;

verus! {

/// Every way in which loading the registry, resolving a release, or
/// installing an archive can fail.
#[derive(Debug, Clone, PartialEq, Eq)]
pub enum ToolError {
    /// The registry file does not exist.
    RegistryNotFound,
    /// A registry line (trimmed) that holds no `/`.
    MalformedRegistryEntry(String),
    /// No credential is stored and none was given.
    CredentialMissing,
    /// The credential store failed for another reason.
    CredentialStoreError(String),
    /// The hosting service rejected the credential.
    AuthenticationError,
    /// The repository or its latest release does not exist.
    NotFound,
    /// A network-layer failure.
    TransportError(String),
    /// The response body is not a release descriptor.
    DecodeError(String),
    /// The downloaded bytes are not a readable archive.
    ArchiveCorrupt(String),
    /// Reading an entry or writing it out failed.
    ExtractionIOError(String),
    /// Creating a directory or writing the marker failed.
    FilesystemError(String),
}

} // verus!
