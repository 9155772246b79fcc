//! Storage and query layer of a note-taking application: memos grouped into
//! topics, tags on topics, title derivation and tokenized search.

pub mod api;
pub mod db;
pub mod error;
pub mod laws;
pub mod model;
pub mod recency;
pub mod seqs;
pub mod text;

use crate::db::Store;
use crate::error::Error;
use vstd::prelude::*;

verus! {

/// What a caller is told when the storage handle is poisoned.
pub const POISONED: &'static str = "poisoned lock: another task failed inside";

/// The shared storage handle. One holder at a time works on the storage;
/// where a holder failed while it held the handle, the handle is poisoned
/// and every later acquisition fails.
pub struct AppData {
    pub db: Store,
    pub poisoned: bool,
}

impl AppData {
    /// A usable handle on the given storage.
    pub fn new(db: Store) -> (data: AppData)
        ensures
            data.db == db,
            !data.poisoned,
    {
        AppData { db, poisoned: false }
    }

    /// Records that a holder failed while it held the handle.
    pub fn poison(&mut self)
        ensures
            final(self).db == old(self).db,
            final(self).poisoned,
    {
        self.poisoned = true;
    }

    /// Acquires the storage for reading. Fails where the handle is poisoned.
    pub fn read(&self) -> (r: Result<&Store, Error>)
        ensures
            self.poisoned ==> (r matches Err(Error::LockError(msg)) && msg@ == POISONED@),
            !self.poisoned ==> (r matches Ok(db) && *db == self.db),
    {
        if self.poisoned {
            Err(Error::LockError(POISONED.to_owned()))
        } else {
            Ok(&self.db)
        }
    }

    /// Acquires the storage. Fails where the handle is poisoned.
    pub fn lock(&mut self) -> (r: Result<&mut Store, Error>)
        ensures
            old(self).poisoned ==> (r matches Err(Error::LockError(msg)) && msg@ == POISONED@)
                && *final(self) == *old(self),
            !old(self).poisoned ==> (r matches Ok(db) && *db == old(self).db && final(self).db
                == *final(db)) && !final(self).poisoned,
    {
        if self.poisoned {
            Err(Error::LockError(POISONED.to_owned()))
        } else {
            Ok(&mut self.db)
        }
    }
}

} // verus!
