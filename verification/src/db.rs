//! The handle to the on-disk index: a path; connections are opened where
//! the storage calls are made.

use vstd::prelude::*;

verus! {

/// Names the on-disk index file. Connection pooling and pragmas live with
/// the storage engine; the handle itself is plain data.
pub struct Db {
    pub path: String,
}

impl Db {
    /// A handle to the index stored at `db_path`.
    pub fn new(db_path: &str) -> (r: Db)
        ensures
            r.path@ == db_path@,
    {
        Db { path: db_path.to_owned() }
    }

    /// The index location.
    pub fn path(&self) -> (r: &String)
        ensures
            r == &self.path,
    {
        &self.path
    }
}

} // verus!
