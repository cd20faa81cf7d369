//! The non-mapped in-memory engine: an implementation of the backend
//! capability contract that keeps every table in process memory, for
//! constrained or sandboxed execution and for testing.  Persistence is
//! layered on top: the environment serialises to bytes and back, and the
//! caller decides where those bytes live.

pub mod cursor;
pub mod database;
pub mod environment;
pub mod iter;
pub mod persist;
pub mod transaction;
pub mod error;
pub mod flags;
pub mod stat;

pub use cursor::{RoCursorImpl, RwCursorImpl};
pub use database::{Database, DatabaseImpl};
pub use environment::{EnvironmentImpl, NamedDb};
pub use iter::{IterDupImpl, IterImpl, ProxyIterImpl};
pub use persist::{dump, restore, TableDump};
pub use transaction::{BackendRwCursorFamily, RoTransactionImpl, RwTransactionImpl};
pub use error::ErrorImpl;
pub use flags::{DatabaseFlagsImpl, EnvironmentFlagsImpl, WriteFlagsImpl};
pub use stat::{InfoImpl, StatImpl};
