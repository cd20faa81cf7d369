//! Statistics of the in-memory engine.

use vstd::prelude::*;

use crate::backend::traits::{BackendInfo, BackendStat};

verus! {

/// Statistics of one in-memory database.  The engine is not paged, so every
/// page number is zero; the entry count is exact.
#[derive(Debug, PartialEq, Eq, Copy, Clone)]
pub struct StatImpl {
    pub entry_count: usize,
}

impl BackendStat for StatImpl {
    open spec fn spec_entries(&self) -> nat {
        self.entry_count as nat
    }

    fn entries(&self) -> (r: usize)
        ensures
            r as nat == self.spec_entries(),
    {
        self.entry_count
    }

    fn page_size(&self) -> usize {
        0
    }

    fn depth(&self) -> usize {
        0
    }

    fn branch_pages(&self) -> usize {
        0
    }

    fn leaf_pages(&self) -> usize {
        0
    }

    fn overflow_pages(&self) -> usize {
        0
    }
}

/// Housekeeping numbers of the in-memory engine: it has no map, no pages and
/// no reader table, so every number is zero.
#[derive(Debug, PartialEq, Eq, Copy, Clone)]
pub struct InfoImpl {
}

impl BackendInfo for InfoImpl {
    fn map_size(&self) -> usize {
        0
    }

    fn last_pgno(&self) -> usize {
        0
    }

    fn last_txnid(&self) -> usize {
        0
    }

    fn max_readers(&self) -> usize {
        0
    }

    fn num_readers(&self) -> usize {
        0
    }
}

} // verus!
