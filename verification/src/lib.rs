//! An embedded, transactional key-value storage library.
//!
//! The library is organised around a backend capability contract (the
//! `backend::traits` family): any storage engine that implements the
//! environment, transaction, cursor and iterator traits can sit below the
//! typed store layer.  On top of the contract stand the transaction wrappers
//! (`readwrite`) and the store facades (`store`): single-value tables,
//! duplicate-sorted multi-value tables, and integer-keyed variants.  A
//! non-mapped in-memory engine (`backend::impl_safe`) implements the contract
//! for constrained and sandboxed execution, and dumps to plain values and
//! back for persistence.
//!
//! Every contract is stated over the table model of `model`: a table is a
//! sequence of keys in ascending lexicographic order, each carrying its
//! non-empty, ascending run of encoded values.
//!
//! Concurrency is modelled by ownership: any number of readers may hold
//! snapshots, and the one writer owns its environment, so a second writer —
//! or a reader begun while the writer is live — is not expressible; readers
//! begun earlier keep their snapshots.  Cross-thread interleaving beyond that
//! is outside this model.

pub mod backend;
pub mod error;
pub mod model;
pub mod order;
pub mod readwrite;
pub mod store;
pub mod value;

pub use error::{DataError, StoreError};
pub use readwrite::{Readable, Reader, Writer};
pub use store::integermulti::MultiIntegerStore;
pub use store::multi::{DIter, Iter, MultiStore};
pub use store::single::SingleStore;
pub use value::Value;
