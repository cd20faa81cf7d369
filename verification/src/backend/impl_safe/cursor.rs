//! Cursors of the in-memory engine.
//!
//! A cursor owns a snapshot of one database.  Turning it into an iterator
//! consumes it, so the cursor cannot be released or repositioned while the
//! iterator is alive — the lifetime protocol holds by ownership.

use vstd::prelude::*;

use crate::backend::impl_safe::database::Database;
use crate::backend::impl_safe::iter::{IterDupImpl, IterImpl};
use crate::backend::traits::{BackendIter, BackendDupIter, BackendRoCursor, BackendRwCursor};
use crate::model::{entry_pairs, prev_dup_groups, table_flat, table_from, table_lookup, TableModel};

verus! {

/// A read-only cursor: duplicate-aware positioning over one snapshot.
pub struct RoCursorImpl {
    snapshot: Database,
}

impl RoCursorImpl {
    /// Take position over the given snapshot.
    pub(crate) fn from_db(snapshot: Database) -> (r: RoCursorImpl)
        ensures
            r.model() == snapshot@,
    {
        RoCursorImpl { snapshot }
    }
}

impl BackendRoCursor for RoCursorImpl {
    type Iter = IterImpl;

    closed spec fn model(&self) -> TableModel {
        self.snapshot@
    }

    fn get_key_value(self, key: &[u8], value: &[u8]) -> (r: bool)
        ensures
            r == table_lookup(self.model(), key@).contains(value@),
    {
        self.snapshot.contains_pair(key, value)
    }

    fn into_iter(self) -> (r: IterImpl)
        ensures
            r.remaining() == table_flat(self.model()),
    {
        IterImpl::from_pairs(self.snapshot.pairs_ascending())
    }

    fn into_iter_from(self, key: &[u8]) -> (r: IterImpl)
        ensures
            r.remaining() == table_flat(table_from(self.model(), key@)),
    {
        IterImpl::from_pairs(self.snapshot.pairs_from_key(key))
    }

    fn into_iter_dup_of(self, key: &[u8]) -> (r: IterImpl)
        ensures
            r.remaining() == entry_pairs(key@, table_lookup(self.model(), key@)),
    {
        IterImpl::from_pairs(self.snapshot.pairs_of_key(key))
    }

    fn into_iter_prev(self) -> (r: IterImpl)
        ensures
            r.remaining() == table_flat(self.model()).reverse(),
    {
        IterImpl::from_pairs(self.snapshot.pairs_descending())
    }
}

/// A write-capable cursor: everything the read-only cursor offers, plus the
/// reverse walk over keys and duplicate runs.
pub struct RwCursorImpl {
    snapshot: Database,
}

impl RwCursorImpl {
    /// Take position over the given snapshot.
    pub(crate) fn from_db(snapshot: Database) -> (r: RwCursorImpl)
        ensures
            BackendRoCursor::model(&r) == snapshot@,
            BackendRwCursor::model(&r) == snapshot@,
    {
        RwCursorImpl { snapshot }
    }
}

impl BackendRoCursor for RwCursorImpl {
    type Iter = IterImpl;

    closed spec fn model(&self) -> TableModel {
        self.snapshot@
    }

    fn get_key_value(self, key: &[u8], value: &[u8]) -> (r: bool)
        ensures
            r == table_lookup(BackendRoCursor::model(&self), key@).contains(value@),
    {
        self.snapshot.contains_pair(key, value)
    }

    fn into_iter(self) -> (r: IterImpl)
        ensures
            r.remaining() == table_flat(BackendRoCursor::model(&self)),
    {
        IterImpl::from_pairs(self.snapshot.pairs_ascending())
    }

    fn into_iter_from(self, key: &[u8]) -> (r: IterImpl)
        ensures
            r.remaining() == table_flat(table_from(BackendRoCursor::model(&self), key@)),
    {
        IterImpl::from_pairs(self.snapshot.pairs_from_key(key))
    }

    fn into_iter_dup_of(self, key: &[u8]) -> (r: IterImpl)
        ensures
            r.remaining() == entry_pairs(key@, table_lookup(BackendRoCursor::model(&self), key@)),
    {
        IterImpl::from_pairs(self.snapshot.pairs_of_key(key))
    }

    fn into_iter_prev(self) -> (r: IterImpl)
        ensures
            r.remaining() == table_flat(BackendRoCursor::model(&self)).reverse(),
    {
        IterImpl::from_pairs(self.snapshot.pairs_descending())
    }
}

impl BackendRwCursor for RwCursorImpl {
    type Iter = IterDupImpl;

    closed spec fn model(&self) -> TableModel {
        self.snapshot@
    }

    fn into_iter_prev_dup_from(self, key: &[u8]) -> (r: IterDupImpl)
        ensures
            r.remaining_groups() == prev_dup_groups(BackendRwCursor::model(&self), key@),
    {
        IterDupImpl::from_groups(self.snapshot.groups_prev_from(key))
    }
}

} // verus!
