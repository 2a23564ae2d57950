//! Path algebra over a store's root directory.
//!
//! A store lives in one directory holding a fixed set of well-known file
//! names. `Location` derives each of them from the root; it performs no
//! input or output.

use vstd::prelude::*;
use vstd::string::StringExecFns;

verus! {

/// The root directory of one store, as a path string.
pub struct Location(pub String);

/// The path of `name` directly under `root`.
pub open spec fn joined(root: Seq<char>, name: Seq<char>) -> Seq<char> {
    root + seq!['/'] + name
}

impl Location {
    /// Joins the root with a fixed file name.
    fn join(&self, name: &str) -> (r: String)
        ensures
            r@ == joined(self.0@, name@),
    {
        let mut s = self.0.clone();
        s.append("/");
        s.append(name);
        proof {
            reveal_strlit("/");
            assert(s@ =~= joined(self.0@, name@));
        }
        s
    }

    /// The vector payload file.
    pub fn elements_path(&self) -> (r: String)
        ensures
            r@ == joined(self.0@, "elements.dat"@),
    {
        self.join("elements.dat")
    }

    /// The graph index file.
    pub fn index_path(&self) -> (r: String)
        ensures
            r@ == joined(self.0@, "index.dat"@),
    {
        self.join("index.dat")
    }

    /// The marker whose presence tells readers to reload.
    pub fn dirty_path(&self) -> (r: String)
        ensures
            r@ == joined(self.0@, "DIRTY_BIT"@),
    {
        self.join("DIRTY_BIT")
    }

    /// The lock serializing a commit against a reader reload.
    pub fn commit_lock_path(&self) -> (r: String)
        ensures
            r@ == joined(self.0@, "COMMIT_LOCK"@),
    {
        self.join("COMMIT_LOCK")
    }

    /// The lock forbidding a second writer.
    pub fn writer_lock_path(&self) -> (r: String)
        ensures
            r@ == joined(self.0@, "WRITER_LOCK"@),
    {
        self.join("WRITER_LOCK")
    }

    /// The tombstone store directory.
    pub fn deleted_path(&self) -> (r: String)
        ensures
            r@ == joined(self.0@, "deleted.dat"@),
    {
        self.join("deleted.dat")
    }

    /// The id-map store directory.
    pub fn index_map_path(&self) -> (r: String)
        ensures
            r@ == joined(self.0@, "index_map"@),
    {
        self.join("index_map")
    }

    /// The root itself.
    pub fn path(&self) -> (r: String)
        ensures
            r@ == self.0@,
    {
        self.0.clone()
    }
}

} // verus!
