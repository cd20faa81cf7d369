//! Failures of the in-memory engine.

use vstd::prelude::*;

use crate::backend::traits::BackendError;
use crate::error::StoreError;

verus! {

/// Everything the in-memory engine can report.  It keeps all data in process
/// memory, so no I/O fault exists; what remains are the distinguished
/// not-found conditions and a handle that belongs to no database.
#[derive(Debug, PartialEq, Eq, Clone)]
pub enum ErrorImpl {
    /// No value is stored under the key.
    KeyAbsent { key: Vec<u8> },
    /// The exact `(key, value)` pair is not stored.
    PairAbsent { key: Vec<u8> },
    /// No database carries the requested name.
    DbAbsent,
    /// The database handle does not belong to this environment.
    InvalidHandle,
}

impl BackendError for ErrorImpl {
    open spec fn is_not_found(&self) -> bool {
        match self {
            ErrorImpl::KeyAbsent { .. } => true,
            ErrorImpl::PairAbsent { .. } => true,
            ErrorImpl::DbAbsent => true,
            ErrorImpl::InvalidHandle => false,
        }
    }

    fn into_store_error(self) -> (r: StoreError)
        ensures
            r is NotFound <==> self.is_not_found(),
            !(r is EncodingError),
    {
        match self {
            ErrorImpl::KeyAbsent { key } => StoreError::NotFound { key },
            ErrorImpl::PairAbsent { key } => StoreError::NotFound { key },
            ErrorImpl::DbAbsent => StoreError::NotFound { key: Vec::new() },
            ErrorImpl::InvalidHandle => StoreError::BackendFailure,
        }
    }
}

} // verus!
