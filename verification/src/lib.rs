//! A minimal version-control storage engine: a content-addressable object
//! store (blobs and flat trees), a binary staging-area ("index") codec, and
//! the logic that turns a staging area into a persisted tree object.
//!
//! The crate is a library of pure, verified logic. Filesystem access, the
//! command-line boundary and standard input stay outside; the library takes
//! bytes in and hands bytes (and derived paths) back.

pub mod bytes;
pub mod commands;
pub mod formats;
pub mod storage;
pub mod structs;
pub mod utils;

use vstd::prelude::*;

verus! {

/// Failure taxonomy of the storage engine.
///
/// `NotFound` marks a missing object file or source path, `FormatError` a
/// structural violation of a binary format (bad magic, bad version, an
/// unsupported flag, a malformed object header, a corrupt compressed stream,
/// a declared/actual length mismatch), and `IOError` any other filesystem
/// failure. None are retried; all propagate to the boundary unmodified.
#[derive(Clone, Copy, Debug, PartialEq, Eq, Structural)]
pub enum GitError {
    NotFound,
    FormatError,
    IOError,
}

} // verus!
