//! The error taxonomy of the store.

use vstd::prelude::*;

verus! {

/// Everything that a writer or reader surfaces to its caller.
#[derive(Clone, Copy, Debug, PartialEq, Eq, Structural)]
pub enum VectorError {
    /// Another writer holds the writer lock of this store directory.
    WriterBusy,
    /// A filesystem, mapping or rename operation failed.
    IoError,
    /// The id-map rejected an update.
    IdMapError,
    /// The tombstone store rejected an update.
    TombstoneError,
    /// The second rename of a commit failed after the first succeeded;
    /// the on-disk pair is torn and the store must be treated as corrupted.
    CommitTorn,
    /// An id-map lookup missed.
    NotFound,
}

/// What creating a presence file can report.
#[derive(Clone, Copy, Debug, PartialEq, Eq, Structural)]
pub enum MarkerError {
    /// Something already sits at the target path.
    AlreadyThere,
    /// The file system refused the operation.
    Io,
}

/// What a lock operation can report.
#[derive(Clone, Copy, Debug, PartialEq, Eq, Structural)]
pub enum LockError {
    /// The lock file already exists: someone holds the lock.
    AlreadyHeld,
    /// The file system refused the operation.
    Io,
}

impl VectorError {
    /// A short human-readable description.
    pub fn describe(&self) -> (r: String)
        ensures
            r@.len() > 0,
    {
        let s = match self {
            VectorError::WriterBusy => "another writer already holds this store",
            VectorError::IoError => "filesystem operation failed",
            VectorError::IdMapError => "id-map transaction failed",
            VectorError::TombstoneError => "tombstone transaction failed",
            VectorError::CommitTorn => "commit left the on-disk pair torn",
            VectorError::NotFound => "no entry for this id",
        };
        proof {
            reveal_strlit("another writer already holds this store");
            reveal_strlit("filesystem operation failed");
            reveal_strlit("id-map transaction failed");
            reveal_strlit("tombstone transaction failed");
            reveal_strlit("commit left the on-disk pair torn");
            reveal_strlit("no entry for this id");
        }
        s.to_owned()
    }
}

} // verus!
