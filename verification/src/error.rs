use vstd::prelude::*;

verus! {

/// Failure when opening a store snapshot: the commit graph handed in is
/// not consistent (a parent identifier that does not name an earlier
/// commit of the snapshot).
#[derive(Clone, Copy, Debug, PartialEq, Eq, Structural)]
pub enum Init {
    Git,
}

/// Failure when deriving an identifier from the store.
#[derive(Clone, Copy, Debug, PartialEq, Eq, Structural)]
pub enum Identifier {
    Git,
}

/// Failure of head-reference resolution.
#[derive(Clone, Copy, Debug, PartialEq, Eq, Structural)]
pub enum FindEntry {
    /// The underlying object store failed.
    Git,
    /// The reference target identifier does not correspond to a
    /// retrievable commit.
    FindCommit,
    /// The head reference does not exist: the log is empty.
    Empty,
    /// The head reference is symbolic; resolving such an indirect target
    /// is not supported.
    UnsupportedTarget,
}

/// Failure of log resolution.
#[derive(Clone, Copy, Debug, PartialEq, Eq, Structural)]
pub enum KeriError {
    /// The underlying object store failed (here: a tree or blob
    /// identifier that names no object of the snapshot). Such a failure
    /// is always surfaced, never silently skipped.
    Git,
    /// No head was found for the log, or the head commit carries no
    /// decodable entry.
    EmptyLog,
    /// Ancestry traversal hit a commit with parents none of whose
    /// ancestries yield a decodable entry: the chain is broken.
    TruncatedLog,
    /// Two entries of the log carry the same sequence number: the chain
    /// is structurally inconsistent.
    DuplicateEntry,
    /// Head-reference resolution failed.
    FindRef(FindEntry),
}

/// Failure of repository initialization.
#[derive(Debug, Clone, PartialEq, Eq)]
pub enum IO {
    NoKeriDir,
    IOError(String),
    InitError(Init),
}

} // verus!
