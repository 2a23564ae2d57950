//! Presence files: locks, the dirty bit, and the atomic swap of artifacts.
//!
//! The store's locks and its dirty flag are bare files whose existence is
//! the whole signal; a commit lands its artifacts by renaming temporary
//! files into place. All of it runs through the tempfile crate, whose
//! `TempPath` carries a written temporary file between the write and the
//! rename. What the file system holds at any moment is outside the
//! library's reasoning: these items state nothing of it, and callers state
//! what holds whatever came back.

use vstd::prelude::*;

use crate::errors::MarkerError;
use crate::errors::VectorError;

verus! {

#[verifier::external_type_specification]
#[verifier::external_body]
pub struct ExTempPath(tempfile::TempPath);

/// Relies on `std::path::Path::exists`: whether a file or directory is
/// present at `p` right now.
#[verifier::external_body]
pub fn path_exists(p: &str) -> bool {
    std::path::Path::new(p).exists()
}

/// Relies on tempfile's `TempPath::persist`: renames the written temporary
/// file to `dest`, atomically replacing whatever was there.
#[verifier::external_body]
pub fn persist_replace(t: tempfile::TempPath, dest: &str) -> (r: Result<(), VectorError>) {
    match t.persist(dest) {
        Ok(_) => Ok(()),
        Err(_) => Err(VectorError::IoError),
    }
}

/// Relies on tempfile's `NamedTempFile::new_in` and `TempPath::
/// persist_noclobber`: creates an empty file at `p`, failing with
/// `AlreadyThere` exactly when something already sits there; creation and
/// the existence test are one atomic rename. The temporary file is born in
/// `dir`, which callers pass as `p`'s own directory so that the rename
/// never crosses a filesystem.
#[verifier::external_body]
pub fn create_marker(p: &str, dir: &str) -> (r: Result<(), MarkerError>) {
    let tmp = match tempfile::NamedTempFile::new_in(dir) {
        Ok(f) => f,
        Err(_) => return Err(MarkerError::Io),
    };
    match tmp.into_temp_path().persist_noclobber(p) {
        Ok(_) => Ok(()),
        Err(e) => {
            if e.error.kind() == std::io::ErrorKind::AlreadyExists {
                Err(MarkerError::AlreadyThere)
            } else {
                Err(MarkerError::Io)
            }
        },
    }
}

/// Relies on tempfile's `TempPath::try_from_path` and `TempPath::close`:
/// removes the file at `p`; failure includes the file not being there.
#[verifier::external_body]
pub fn remove_marker(p: &str) -> (r: Result<(), VectorError>) {
    let t = match tempfile::TempPath::try_from_path(std::path::Path::new(p)) {
        Ok(t) => t,
        Err(_) => return Err(VectorError::IoError),
    };
    match t.close() {
        Ok(_) => Ok(()),
        Err(_) => Err(VectorError::IoError),
    }
}

} // verus!
