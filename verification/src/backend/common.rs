//! The flag vocabulary shared by every backend.

use vstd::prelude::*;

verus! {

/// Environment-level switches an engine may honour.
#[derive(Debug, PartialEq, Eq, Copy, Clone)]
pub enum EnvironmentFlags {
    /// Open the environment read-only.
    ReadOnly,
    /// Skip flushing to stable storage on commit.
    NoSync,
    /// Skip flushing metadata to stable storage on commit.
    NoMetaSync,
}

/// The shape of a database, fixed when it is created.
#[derive(Debug, PartialEq, Eq, Copy, Clone)]
pub enum DatabaseFlags {
    /// Many values per key, kept sorted by encoded bytes.
    DupSort,
    /// Keys are fixed-width encoded integers.
    IntegerKey,
}

/// Write-time switches.
#[derive(Debug, PartialEq, Eq, Copy, Clone)]
pub enum WriteFlags {
    /// Store a byte-identical duplicate pair as an independent copy instead of
    /// the default idempotent insertion.
    AllowDuplicates,
}

} // verus!
