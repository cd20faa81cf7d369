//! Flag sets of the in-memory engine.

use vstd::prelude::*;

use crate::backend::common::{DatabaseFlags, EnvironmentFlags, WriteFlags};
use crate::backend::traits::{
    BackendDatabaseFlags, BackendEnvironmentFlags, BackendFlags, BackendWriteFlags,
};

verus! {

/// Environment switches.  The in-memory engine keeps nothing on disk, so they
/// are recorded and otherwise without effect.
#[derive(Debug, PartialEq, Eq, Copy, Clone)]
pub struct EnvironmentFlagsImpl {
    pub read_only: bool,
    pub no_sync: bool,
    pub no_meta_sync: bool,
}

impl BackendFlags for EnvironmentFlagsImpl {
    open spec fn spec_empty() -> Self {
        EnvironmentFlagsImpl { read_only: false, no_sync: false, no_meta_sync: false }
    }

    fn empty() -> (r: Self)
        ensures
            r == Self::spec_empty(),
    {
        EnvironmentFlagsImpl { read_only: false, no_sync: false, no_meta_sync: false }
    }
}

impl BackendEnvironmentFlags for EnvironmentFlagsImpl {
    fn set(&mut self, flag: EnvironmentFlags, value: bool) {
        match flag {
            EnvironmentFlags::ReadOnly => self.read_only = value,
            EnvironmentFlags::NoSync => self.no_sync = value,
            EnvironmentFlags::NoMetaSync => self.no_meta_sync = value,
        }
    }
}

/// Database-creation flags: duplicate-sorted and integer-keyed shape.
#[derive(Debug, PartialEq, Eq, Copy, Clone)]
pub struct DatabaseFlagsImpl {
    pub dup_sort: bool,
    pub integer_key: bool,
}

impl BackendFlags for DatabaseFlagsImpl {
    open spec fn spec_empty() -> Self {
        DatabaseFlagsImpl { dup_sort: false, integer_key: false }
    }

    fn empty() -> (r: Self)
        ensures
            r == Self::spec_empty(),
    {
        DatabaseFlagsImpl { dup_sort: false, integer_key: false }
    }
}

impl BackendDatabaseFlags for DatabaseFlagsImpl {
    open spec fn spec_dup_sort(&self) -> bool {
        self.dup_sort
    }

    fn set(&mut self, flag: DatabaseFlags, value: bool)
        ensures
            final(self).spec_dup_sort() == if flag is DupSort {
                value
            } else {
                old(self).spec_dup_sort()
            },
    {
        match flag {
            DatabaseFlags::DupSort => self.dup_sort = value,
            DatabaseFlags::IntegerKey => self.integer_key = value,
        }
    }
}

/// Write-time flags: whether an exact duplicate is stored as a second copy.
#[derive(Debug, PartialEq, Eq, Copy, Clone)]
pub struct WriteFlagsImpl {
    pub allow_dup: bool,
}

impl BackendFlags for WriteFlagsImpl {
    open spec fn spec_empty() -> Self {
        WriteFlagsImpl { allow_dup: false }
    }

    fn empty() -> (r: Self)
        ensures
            r == Self::spec_empty(),
    {
        WriteFlagsImpl { allow_dup: false }
    }
}

impl BackendWriteFlags for WriteFlagsImpl {
    open spec fn spec_allow_dup(&self) -> bool {
        self.allow_dup
    }

    proof fn lemma_empty_allows_no_dup() {
    }

    fn set(&mut self, flag: WriteFlags, value: bool)
        ensures
            final(self).spec_allow_dup() == if flag is AllowDuplicates {
                value
            } else {
                old(self).spec_allow_dup()
            },
    {
        match flag {
            WriteFlags::AllowDuplicates => self.allow_dup = value,
        }
    }
}

} // verus!
