//! The failures that the services report.

use crate::db::DbError;
use vstd::prelude::*;
use vstd::std_specs::convert::FromSpecImpl;

verus! {

/// Why a service call failed.
#[derive(Debug)]
pub enum Error {
    /// The storage failed.
    Database(DbError),
    /// The storage handle cannot be used: an earlier holder failed while it
    /// held the lock.
    LockError(String),
    /// No memo has the identifier that was asked for.
    NotFound(String),
}

impl From<DbError> for Error {
    fn from(error: DbError) -> (r: Self) {
        Error::Database(error)
    }
}

impl FromSpecImpl<DbError> for Error {
    open spec fn obeys_from_spec() -> bool {
        true
    }

    open spec fn from_spec(error: DbError) -> Self {
        Error::Database(error)
    }
}

/// Turns a failure of the storage into a failure of the service.
pub fn database<T>(r: Result<T, DbError>) -> (out: Result<T, Error>)
    ensures
        r matches Ok(v) ==> out == Ok::<T, Error>(v),
        r matches Err(e) ==> out == Err::<T, Error>(Error::Database(e)),
{
    match r {
        Ok(v) => Ok(v),
        Err(e) => Err(Error::from(e)),
    }
}

} // verus!
