//! The backend capability contract.
//!
//! Any storage engine joins the store layer by implementing this trait
//! family: environment, transaction, cursor and iterator.  The contracts are
//! stated over the table model of [`crate::model`]: each transaction carries a
//! snapshot (`model`) per database handle, writers also remember the committed
//! state they began from (`base_model`), and commit either publishes every
//! change or, on abort, none.
//!
//! Engine-specific failures are allowed everywhere (an exhausted map, an I/O
//! fault): an `Err` whose error is not the distinguished not-found condition
//! may come back from any fallible call, and always leaves every model
//! unchanged.

use vstd::prelude::*;

use crate::backend::common::{DatabaseFlags, EnvironmentFlags, WriteFlags};
use crate::error::StoreError;
use crate::model::{
    table_del_key, table_del_pair, table_flat, table_from, table_has_key, table_lookup, table_put,
    table_replace, table_wf, entry_pairs, prev_dup_groups, EntryModel, TableModel,
};

verus! {

/// The key (or database name) a deletion or lookup addressed, as the
/// specification sees it.
pub open spec fn name_view(name: Option<&str>) -> Option<Seq<char>> {
    match name {
        Some(s) => Some(s@),
        None => None,
    }
}

/// The optional expected-value argument of a deletion, as the specification
/// sees it.
pub open spec fn value_view(value: Option<&[u8]>) -> Option<Seq<u8>> {
    match value {
        Some(v) => Some(v@),
        None => None,
    }
}

/// Whether the target of a deletion is present: a specific `(key, value)`
/// pair when a value is given, any value under `key` otherwise.
pub open spec fn del_target_present(t: TableModel, key: Seq<u8>, value: Option<Seq<u8>>) -> bool {
    match value {
        Some(v) => table_lookup(t, key).contains(v),
        None => table_has_key(t, key),
    }
}

/// An engine's error type.  A missing key, database or duplicate pair is a
/// distinguished not-found condition, never a panic.
pub trait BackendError: Sized {
    /// Whether this failure reports an absent key, database or pair.
    spec fn is_not_found(&self) -> bool;

    /// Surface the failure as a store-level error.  Key and value encoding is
    /// the store layer's business, so an engine failure never surfaces as an
    /// encoding error.
    fn into_store_error(self) -> (r: StoreError)
        ensures
            r is NotFound <==> self.is_not_found(),
            !(r is EncodingError),
    ;
}

/// A database handle: a small copyable token naming one table of an
/// environment.
pub trait BackendDatabase: Copy + Sized {

}

/// A set of flags, with a distinguished empty element.
pub trait BackendFlags: Copy + Sized {
    /// The flag set with nothing in it.
    spec fn spec_empty() -> Self;

    /// Construct the empty flag set.
    fn empty() -> (r: Self)
        ensures
            r == Self::spec_empty(),
    ;
}

/// Environment-level flags.  They steer engine housekeeping (sync policy,
/// read-only opening) and have no bearing on the table model.
pub trait BackendEnvironmentFlags: BackendFlags {
    fn set(&mut self, flag: EnvironmentFlags, value: bool);
}

/// Database-creation flags: they fix the shape of a database.
pub trait BackendDatabaseFlags: BackendFlags {
    /// Whether the database is created duplicate-sorted.
    spec fn spec_dup_sort(&self) -> bool;

    fn set(&mut self, flag: DatabaseFlags, value: bool)
        ensures
            final(self).spec_dup_sort() == if flag is DupSort {
                value
            } else {
                old(self).spec_dup_sort()
            },
    ;
}

/// Write-time flags.
pub trait BackendWriteFlags: BackendFlags {
    /// Whether a byte-identical duplicate pair is stored as an independent
    /// copy instead of being absorbed by the idempotent default.
    spec fn spec_allow_dup(&self) -> bool;

    /// The default write policy does not store duplicate copies.
    proof fn lemma_empty_allows_no_dup()
        ensures
            !Self::spec_empty().spec_allow_dup(),
    ;

    fn set(&mut self, flag: WriteFlags, value: bool)
        ensures
            final(self).spec_allow_dup() == if flag is AllowDuplicates {
                value
            } else {
                old(self).spec_allow_dup()
            },
    ;
}

/// Statistics of one database.
pub trait BackendStat: Sized {
    /// The entry count this statistics snapshot reports.
    spec fn spec_entries(&self) -> nat;

    /// Number of `(key, value)` pairs stored.
    fn entries(&self) -> (r: usize)
        ensures
            r as nat == self.spec_entries(),
    ;

    fn page_size(&self) -> usize;

    fn depth(&self) -> usize;

    fn branch_pages(&self) -> usize;

    fn leaf_pages(&self) -> usize;

    fn overflow_pages(&self) -> usize;
}

/// Housekeeping numbers of one environment.
pub trait BackendInfo: Sized {
    fn map_size(&self) -> usize;

    fn last_pgno(&self) -> usize;

    fn last_txnid(&self) -> usize;

    fn max_readers(&self) -> usize;

    fn num_readers(&self) -> usize;
}

/// A read-only transaction: a consistent snapshot of every database, fixed
/// when the transaction began.
pub trait BackendRoTransaction: Sized {
    type Database: BackendDatabase;

    type Error: BackendError;

    type Stat: BackendStat;

    /// Whether `db` is a live handle of this transaction's environment.
    spec fn db_ok(&self, db: Self::Database) -> bool;

    /// The snapshot this transaction sees of database `db`.
    spec fn model(&self, db: Self::Database) -> TableModel;

    /// Whether `db` was created duplicate-sorted.
    spec fn is_dup(&self, db: Self::Database) -> bool;

    /// Every snapshot is a well-formed table.
    proof fn lemma_models_wf(&self, db: Self::Database)
        ensures
            table_wf(self.model(db)),
    ;

    /// Point lookup: the first (lowest) value under `key`.  A missing key is
    /// the distinguished not-found error, never a panic.
    fn get(&self, db: &Self::Database, key: &[u8]) -> (r: Result<Vec<u8>, Self::Error>)
        ensures
            match r {
                Ok(v) => self.db_ok(*db) && table_lookup(self.model(*db), key@).len() > 0 && v@
                    == table_lookup(self.model(*db), key@)[0],
                Err(e) => e.is_not_found() <==> (self.db_ok(*db) && table_lookup(self.model(*db), key@).len() == 0),
            },
            !self.db_ok(*db) ==> r is Err,
    ;

    /// Discard the snapshot.  Infallible.
    fn abort(self);

    /// Statistics of one database under this snapshot.
    fn stat(&self, db: &Self::Database) -> (r: Result<Self::Stat, Self::Error>)
        ensures
            match r {
                Ok(s) => self.db_ok(*db) && s.spec_entries() == table_flat(self.model(*db)).len(),
                Err(e) => !e.is_not_found(),
            },
            !self.db_ok(*db) ==> r is Err,
    ;
}

/// A read-write transaction: an exclusive mutation scope over every database.
/// It owns its environment for its whole life; committing or aborting gives
/// the environment back, so no operation can reach a terminated transaction
/// and no second writer can exist beside it.
pub trait BackendRwTransaction: Sized {
    type Database: BackendDatabase;

    type Error: BackendError;

    type Flags: BackendWriteFlags;

    type Stat: BackendStat;

    type Environment: BackendEnvironment<Database = Self::Database>;

    /// Whether `db` is a live handle of this transaction's environment.
    spec fn db_ok(&self, db: Self::Database) -> bool;

    /// The working state of database `db`: the committed state this
    /// transaction began from, plus every write it has performed.
    spec fn model(&self, db: Self::Database) -> TableModel;

    /// The committed state of `db` when this transaction began.
    spec fn base_model(&self, db: Self::Database) -> TableModel;

    /// Whether `db` was created duplicate-sorted.
    spec fn is_dup(&self, db: Self::Database) -> bool;

    /// Every working state is a well-formed table.
    proof fn lemma_models_wf(&self, db: Self::Database)
        ensures
            table_wf(self.model(db)),
            table_wf(self.base_model(db)),
    ;

    /// Point lookup in the working state: the first (lowest) value under
    /// `key`.
    fn get(&self, db: &Self::Database, key: &[u8]) -> (r: Result<Vec<u8>, Self::Error>)
        ensures
            match r {
                Ok(v) => self.db_ok(*db) && table_lookup(self.model(*db), key@).len() > 0 && v@
                    == table_lookup(self.model(*db), key@)[0],
                Err(e) => e.is_not_found() <==> (self.db_ok(*db) && table_lookup(self.model(*db), key@).len() == 0),
            },
            !self.db_ok(*db) ==> r is Err,
    ;

    /// Store `(key, value)`.  In a duplicate-sorted database the value joins
    /// `key`'s run at its sorted position — idempotently, unless the flags ask
    /// for an independent duplicate copy.  In a plain database it overwrites.
    fn put(&mut self, db: &Self::Database, key: &[u8], value: &[u8], flags: Self::Flags) -> (r:
        Result<(), Self::Error>)
        ensures
            forall|d: Self::Database| #[trigger] final(self).db_ok(d) == old(self).db_ok(d),
            forall|d: Self::Database| #[trigger] final(self).is_dup(d) == old(self).is_dup(d),
            forall|d: Self::Database|
                #[trigger] final(self).base_model(d) == old(self).base_model(d),
            forall|d: Self::Database|
                d != *db ==> #[trigger] final(self).model(d) == old(self).model(d),
            !old(self).db_ok(*db) ==> r is Err,
            match r {
                Ok(_) => old(self).db_ok(*db) && final(self).model(*db) == if old(self).is_dup(*db) {
                    table_put(old(self).model(*db), key@, value@, flags.spec_allow_dup())
                } else {
                    table_replace(old(self).model(*db), key@, value@)
                },
                Err(e) => !e.is_not_found() && final(self).model(*db) == old(self).model(*db),
            },
    ;

    /// Delete.  With an expected value, remove exactly one occurrence of that
    /// `(key, value)` pair; without one, remove every value under `key`.  A
    /// target that is not present is the distinguished not-found error, and
    /// the table is left unchanged.
    fn del(&mut self, db: &Self::Database, key: &[u8], value: Option<&[u8]>) -> (r: Result<
        (),
        Self::Error,
    >)
        ensures
            forall|d: Self::Database| #[trigger] final(self).db_ok(d) == old(self).db_ok(d),
            forall|d: Self::Database| #[trigger] final(self).is_dup(d) == old(self).is_dup(d),
            forall|d: Self::Database|
                #[trigger] final(self).base_model(d) == old(self).base_model(d),
            forall|d: Self::Database|
                d != *db ==> #[trigger] final(self).model(d) == old(self).model(d),
            !old(self).db_ok(*db) ==> r is Err,
            match r {
                Ok(_) => old(self).db_ok(*db) && del_target_present(old(self).model(*db), key@, value_view(value)) && final(self).model(*db) == match value {
                    Some(v) => table_del_pair(old(self).model(*db), key@, v@),
                    None => table_del_key(old(self).model(*db), key@),
                },
                Err(e) => final(self).model(*db) == old(self).model(*db) && (e.is_not_found()
                    <==> (old(self).db_ok(*db) && !del_target_present(old(self).model(*db), key@, value_view(value)))),
            },
    ;

    /// Remove every entry of one database.
    fn clear_db(&mut self, db: &Self::Database) -> (r: Result<(), Self::Error>)
        ensures
            forall|d: Self::Database| #[trigger] final(self).db_ok(d) == old(self).db_ok(d),
            forall|d: Self::Database| #[trigger] final(self).is_dup(d) == old(self).is_dup(d),
            forall|d: Self::Database|
                #[trigger] final(self).base_model(d) == old(self).base_model(d),
            forall|d: Self::Database|
                d != *db ==> #[trigger] final(self).model(d) == old(self).model(d),
            !old(self).db_ok(*db) ==> r is Err,
            match r {
                Ok(_) => old(self).db_ok(*db) && final(self).model(*db)
                    == Seq::<EntryModel>::empty(),
                Err(e) => !e.is_not_found() && final(self).model(*db) == old(self).model(*db),
            },
    ;

    /// Publish every write of this transaction at once: afterwards the
    /// committed state of each database is exactly the working state.  On
    /// failure nothing is published and the environment is torn down, so no
    /// partial effect is ever observable.
    fn commit(self) -> (r: Result<Self::Environment, Self::Error>)
        ensures
            match r {
                Ok(env) => forall|d: Self::Database|
                    #![trigger env.committed(d)]
                    env.committed(d) == self.model(d) && env.db_ok(d) == self.db_ok(d)
                        && env.is_dup(d) == self.is_dup(d),
                Err(e) => !e.is_not_found(),
            },
    ;

    /// Discard every write of this transaction: the environment comes back
    /// with every database exactly as committed when the transaction began.
    /// Infallible.
    fn abort(self) -> (r: Self::Environment)
        ensures
            forall|d: Self::Database| #[trigger] r.committed(d) == self.base_model(d),
    ;

    /// Statistics of one database under the working state.
    fn stat(&self, db: &Self::Database) -> (r: Result<Self::Stat, Self::Error>)
        ensures
            match r {
                Ok(s) => self.db_ok(*db) && s.spec_entries() == table_flat(self.model(*db)).len(),
                Err(e) => !e.is_not_found(),
            },
            !self.db_ok(*db) ==> r is Err,
    ;
}

/// A read-only transaction that can open cursors.
pub trait BackendRoCursorTransaction: BackendRoTransaction {
    type RoCursor: BackendRoCursor;

    /// A cursor over the snapshot of `db`.
    fn open_ro_cursor(&self, db: &Self::Database) -> (r: Result<Self::RoCursor, Self::Error>)
        ensures
            match r {
                Ok(c) => self.db_ok(*db) && c.model() == self.model(*db),
                Err(e) => !e.is_not_found(),
            },
            !self.db_ok(*db) ==> r is Err,
    ;
}

/// A read-write transaction that can open cursors, among them the
/// duplicate-reverse cursor that only a write-capable transaction offers.
pub trait BackendRwCursorTransaction: BackendRwTransaction {
    type RoCursor: BackendRoCursor;

    type RwCursor: BackendRwCursor;

    /// A cursor over the working state of `db`.
    fn open_ro_cursor(&self, db: &Self::Database) -> (r: Result<Self::RoCursor, Self::Error>)
        ensures
            match r {
                Ok(c) => self.db_ok(*db) && c.model() == self.model(*db),
                Err(e) => !e.is_not_found(),
            },
            !self.db_ok(*db) ==> r is Err,
    ;

    /// A duplicate-aware cursor over the working state of `db`, able to walk
    /// keys and duplicate runs in reverse.
    fn open_ro_dup_cursor(&self, db: &Self::Database) -> (r: Result<Self::RwCursor, Self::Error>)
        ensures
            match r {
                Ok(c) => self.db_ok(*db) && c.model() == self.model(*db),
                Err(e) => !e.is_not_found(),
            },
            !self.db_ok(*db) ==> r is Err,
    ;
}

/// A family token naming an engine's write-capable cursor type, for engines
/// whose cursors borrow from their transactions and so cannot be named
/// directly as an associated type.
pub trait BackendRwCursorType {
    type Type;
}

/// A read-write transaction whose engine exposes the duplicate-reverse cursor
/// family.
pub trait BackendRwDupPrevCursorTransaction: BackendRwTransaction {
    type RwCursor: BackendRwCursorType;
}

/// A read-only cursor: duplicate-aware positioning over one table snapshot.
/// Turning it into an iterator consumes it, so the cursor cannot be released
/// or repositioned while the iterator is alive.
pub trait BackendRoCursor: Sized {
    type Iter: BackendIter;

    /// The table snapshot this cursor walks.
    spec fn model(&self) -> TableModel;

    /// Whether the exact `(key, value)` pair is stored.
    fn get_key_value(self, key: &[u8], value: &[u8]) -> (r: bool)
        ensures
            r == table_lookup(self.model(), key@).contains(value@),
    ;

    /// All entries, ascending; zero items when the table is empty.
    fn into_iter(self) -> (r: Self::Iter)
        ensures
            r.remaining() == table_flat(self.model()),
    ;

    /// All entries whose key is at or after `key`, ascending.
    fn into_iter_from(self, key: &[u8]) -> (r: Self::Iter)
        ensures
            r.remaining() == table_flat(table_from(self.model(), key@)),
    ;

    /// Exactly the duplicate run of `key`, ascending; zero items when the key
    /// is absent.
    fn into_iter_dup_of(self, key: &[u8]) -> (r: Self::Iter)
        ensures
            r.remaining() == entry_pairs(key@, table_lookup(self.model(), key@)),
    ;

    /// All entries, descending.
    fn into_iter_prev(self) -> (r: Self::Iter)
        ensures
            r.remaining() == table_flat(self.model()).reverse(),
    ;
}

/// A write-capable cursor: the only positioning primitive able to walk keys
/// descending while yielding each key's duplicates descending.
pub trait BackendRwCursor: Sized {
    type Iter: BackendDupIter;

    /// The table snapshot this cursor walks.
    spec fn model(&self) -> TableModel;

    /// Keys at or below `key`, walked descending; for each key a nested
    /// iterator over its duplicate run, also descending.
    fn into_iter_prev_dup_from(self, key: &[u8]) -> (r: Self::Iter)
        ensures
            r.remaining_groups() == prev_dup_groups(self.model(), key@),
    ;
}

/// A lazy, finite, forward-only iterator over `(key, value)` pairs.  Not
/// restartable: walking it again takes a fresh cursor.
pub trait BackendIter: Sized {
    type Error: BackendError;

    /// The pairs not yet yielded, in yield order.
    spec fn remaining(&self) -> Seq<(Seq<u8>, Seq<u8>)>;

    /// The next pair.  An exhausted iterator reports end-of-sequence, never
    /// an error; an engine fault leaves the iterator where it stood.
    fn next(&mut self) -> (r: Option<Result<(Vec<u8>, Vec<u8>), Self::Error>>)
        ensures
            old(self).remaining().len() == 0 ==> r is None,
            match r {
                None => old(self).remaining().len() == 0 && final(self).remaining() == old(self).remaining(),
                Some(Ok(kv)) => old(self).remaining().len() > 0 && (kv.0@, kv.1@) == old(self).remaining()[0] && final(self).remaining() == old(self).remaining().drop_first(),
                Some(Err(e)) => !e.is_not_found() && final(self).remaining() == old(self).remaining(),
            },
    ;
}

/// A lazy iterator over duplicate runs: each step yields one key's run as a
/// nested iterator.
pub trait BackendDupIter: Sized {
    type Error: BackendError;

    type Iter: BackendIter;

    /// The `(key, run)` groups not yet yielded, in yield order.
    spec fn remaining_groups(&self) -> TableModel;

    /// The next key's run, as an iterator over its `(key, value)` pairs.  An
    /// exhausted iterator reports end-of-sequence, never an error.
    fn next(&mut self) -> (r: Option<Result<Self::Iter, Self::Error>>)
        ensures
            old(self).remaining_groups().len() == 0 ==> r is None,
            match r {
                None => old(self).remaining_groups().len() == 0 && final(self).remaining_groups()
                    == old(self).remaining_groups(),
                Some(Ok(it)) => old(self).remaining_groups().len() > 0 && it.remaining()
                    == entry_pairs(old(self).remaining_groups()[0].0, old(self).remaining_groups()[0].1) && final(self).remaining_groups() == old(self).remaining_groups().drop_first(),
                Some(Err(e)) => !e.is_not_found() && final(self).remaining_groups() == old(self).remaining_groups(),
            },
    ;
}

/// One open storage engine instance: it owns the named databases.  Each
/// engine additionally offers `begin_ro_txn` (any number may run at once,
/// each pinned to the committed state at its start) and `begin_rw_txn`, which
/// takes the environment by value, so a second concurrent writer is not
/// expressible; their contracts are stated on the engine, since a trait
/// cannot name its transaction types and be named by them in turn.
pub trait BackendEnvironment: Sized {
    type Error: BackendError;

    type Database: BackendDatabase;

    type Flags: BackendDatabaseFlags;

    type Stat: BackendStat;

    type Info: BackendInfo;

    /// The committed content of database `db`.
    spec fn committed(&self, db: Self::Database) -> TableModel;

    /// Whether `db` is a live handle of this environment.
    spec fn db_ok(&self, db: Self::Database) -> bool;

    /// Whether `db` was created duplicate-sorted.
    spec fn is_dup(&self, db: Self::Database) -> bool;

    /// The handle the given name denotes, if any.
    spec fn named_db(&self, name: Option<Seq<char>>) -> Option<Self::Database>;

    /// Every committed table is well-formed.
    proof fn lemma_committed_wf(&self, db: Self::Database)
        ensures
            table_wf(self.committed(db)),
    ;

    /// The handle of an existing named database.  A missing name is the
    /// distinguished not-found error, so callers can choose create-or-fail.
    fn open_db(&self, name: Option<&str>) -> (r: Result<Self::Database, Self::Error>)
        ensures
            match r {
                Ok(db) => self.named_db(name_view(name)) == Some(db) && self.db_ok(db),
                Err(e) => e.is_not_found() <==> self.named_db(name_view(name)) is None,
            },
    ;

    /// Open the named database, creating it empty, with the shape the flags
    /// give it, when it does not exist yet.
    fn create_db(&mut self, name: Option<&str>, flags: Self::Flags) -> (r: Result<
        Self::Database,
        Self::Error,
    >)
        ensures
            match r {
                Ok(db) => {
                    &&& final(self).db_ok(db)
                    &&& final(self).named_db(name_view(name)) == Some(db)
                    &&& match old(self).named_db(name_view(name)) {
                        Some(d0) => db == d0 && final(self).committed(db) == old(self).committed(db) && final(self).is_dup(db) == old(self).is_dup(db),
                        None => final(self).committed(db) == Seq::<EntryModel>::empty() && final(self).is_dup(db) == flags.spec_dup_sort() && !old(self).db_ok(db),
                    }
                    &&& forall|d: Self::Database|
                        d != db ==> #[trigger] final(self).committed(d) == old(self).committed(d)
                            && final(self).db_ok(d) == old(self).db_ok(d) && final(self).is_dup(d)
                            == old(self).is_dup(d)
                    &&& forall|nm: Option<Seq<char>>|
                        nm != name_view(name) ==> #[trigger] final(self).named_db(nm) == old(
                            self,
                        ).named_db(nm)
                },
                Err(e) => !e.is_not_found() && (forall|d: Self::Database|
                    #![trigger final(self).committed(d)]
                    final(self).committed(d) == old(self).committed(d) && final(self).db_ok(d)
                        == old(self).db_ok(d) && final(self).is_dup(d) == old(self).is_dup(d)) && (
                forall|nm: Option<Seq<char>>|
                    #[trigger] final(self).named_db(nm) == old(self).named_db(nm)),
            },
    ;

    /// Flush buffered writes to stable storage.
    fn sync(&self, force: bool) -> (r: Result<(), Self::Error>)
        ensures
            r is Err ==> !(r->Err_0).is_not_found(),
    ;
}

} // verus!
