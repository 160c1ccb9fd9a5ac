//! Management of a declarative secrets manifest: a hand-authored text file
//! that defines named recipient groups and maps encrypted-secret file paths
//! to the groups allowed to decrypt them.
//!
//! The library holds the logic worth proving: the structure-preserving
//! manifest parser and editor, the path-containment policy, the group-name
//! policy, the configuration key/value store, and the decision steps of the
//! transactional secret lifecycle (create / save / decrypt / delete with
//! rollback). Filesystem access, subprocess invocation and the user
//! interface live outside the library and hand it plain values.

pub mod config;
pub mod laws;
pub mod lifecycle;
pub mod manifest;
pub mod project;
pub mod path_safety;
pub mod text;

use vstd::prelude::*;

verus! {

/// The typed errors that the library's operations surface.
#[derive(Debug, Clone, PartialEq, Eq)]
pub enum SecretError {
    /// Prelude or body delimiters of the manifest are missing.
    MalformedManifest,
    /// A resolved path escapes the project root.
    PathTraversal,
    /// Canonicalization failed or a required parent is absent.
    InvalidPath,
    /// A group name fails the identifier policy; carries the offending name.
    InvalidGroupName(String),
    /// No project is currently open.
    NoProjectOpen,
    /// No identity file has been configured.
    NoIdentityConfigured,
    /// An external tool exited with a failure; carries its diagnostic text.
    ExternalToolFailure(String),
    /// The evaluator's output was not in the expected structured form.
    EvaluationParseFailure(String),
    /// A filesystem read, write or directory creation failed.
    IoFailure(String),
}

} // verus!
