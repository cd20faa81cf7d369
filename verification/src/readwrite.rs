//! The safe transaction wrappers: `Reader` over a read-only backend
//! transaction, `Writer` over a read-write one.
//!
//! Both translate backend errors into [`StoreError`] and decode stored bytes
//! into typed values.  A missing key collapses to an absent result on reads;
//! deletions of absent targets stay errors, since the caller asserted
//! presence.  Commit and abort consume the writer, so no operation can reach
//! a finished transaction.

use vstd::prelude::*;

use crate::backend::traits::{
    del_target_present, value_view, BackendDatabase, BackendEnvironment, BackendError,
    BackendRoCursor, BackendRoCursorTransaction, BackendRoTransaction, BackendRwCursor,
    BackendRwCursorTransaction, BackendRwTransaction, BackendWriteFlags,
};
use crate::error::{DataError, StoreError};
use crate::model::{
    table_del_key, table_del_pair, table_lookup, table_put, table_replace, table_wf, TableModel,
};
use crate::value::{spec_decode_value, spec_encode_value, Value, ValueView};

verus! {

/// Read access to a transaction's snapshot, shared by readers and writers: a
/// writer reads its own uncommitted working state.
pub trait Readable: Sized {
    type Database: BackendDatabase;

    type RoCursor: BackendRoCursor;

    /// Whether `db` is a live handle.
    spec fn db_ok(&self, db: Self::Database) -> bool;

    /// The snapshot this readable sees of `db`.
    spec fn model(&self, db: Self::Database) -> TableModel;

    /// Whether `db` was created duplicate-sorted.
    spec fn is_dup(&self, db: Self::Database) -> bool;

    /// Every snapshot is a well-formed table.
    proof fn lemma_models_wf(&self, db: Self::Database)
        ensures
            table_wf(self.model(db)),
    ;

    /// The first (lowest) value stored under `key`, decoded; an absent key is
    /// an absent result, not an error.
    fn get(&self, db: &Self::Database, key: &[u8]) -> (r: Result<Option<Value>, StoreError>)
        ensures
            ({
                let run = table_lookup(self.model(*db), key@);
                match r {
                    Ok(Some(v)) => self.db_ok(*db) && run.len() > 0 && spec_decode_value(run[0])
                        == Ok::<ValueView, DataError>(v@),
                    Ok(None) => self.db_ok(*db) && run.len() == 0,
                    Err(e) => !(e is NotFound) && (e is EncodingError ==> run.len() > 0
                        && spec_decode_value(run[0]) is Err),
                }
            }),
            !self.db_ok(*db) ==> r is Err,
    ;

    /// A cursor over the snapshot of `db`.
    fn open_ro_cursor(&self, db: &Self::Database) -> (r: Result<Self::RoCursor, StoreError>)
        ensures
            match r {
                Ok(c) => self.db_ok(*db) && c.model() == self.model(*db),
                Err(e) => !(e is NotFound) && !(e is EncodingError),
            },
            !self.db_ok(*db) ==> r is Err,
    ;
}

/// A read-only transaction wrapper.
pub struct Reader<T>(T);

/// A read-write transaction wrapper.
pub struct Writer<T>(T);

impl<T: BackendRoCursorTransaction> Reader<T> {
    /// Wrap a begun read-only transaction.
    pub fn new(txn: T) -> (r: Reader<T>)
        ensures
            forall|d: T::Database|
                #![trigger r.model(d)]
                r.model(d) == txn.model(d) && r.db_ok(d) == txn.db_ok(d) && r.is_dup(d)
                    == txn.is_dup(d),
    {
        Reader(txn)
    }

    /// Discard the snapshot.  Infallible.
    pub fn abort(self) {
        self.0.abort()
    }
}

impl<T: BackendRoCursorTransaction> Readable for Reader<T> {
    type Database = T::Database;

    type RoCursor = T::RoCursor;

    closed spec fn db_ok(&self, db: T::Database) -> bool {
        self.0.db_ok(db)
    }

    closed spec fn model(&self, db: T::Database) -> TableModel {
        self.0.model(db)
    }

    closed spec fn is_dup(&self, db: T::Database) -> bool {
        self.0.is_dup(db)
    }

    proof fn lemma_models_wf(&self, db: T::Database) {
        self.0.lemma_models_wf(db);
    }

    fn get(&self, db: &T::Database, key: &[u8]) -> (r: Result<Option<Value>, StoreError>) {
        match self.0.get(db, key) {
            Ok(bytes) => match Value::from_tagged_slice(bytes.as_slice()) {
                Ok(v) => Ok(Some(v)),
                Err(e) => Err(StoreError::EncodingError(e)),
            },
            Err(e) => {
                match e.into_store_error() {
                    StoreError::NotFound { .. } => Ok(None),
                    other => Err(other),
                }
            },
        }
    }

    fn open_ro_cursor(&self, db: &T::Database) -> (r: Result<T::RoCursor, StoreError>) {
        match self.0.open_ro_cursor(db) {
            Ok(c) => Ok(c),
            Err(e) => Err(e.into_store_error()),
        }
    }
}

impl<T: BackendRwCursorTransaction> Writer<T> {
    /// Wrap a begun read-write transaction.
    pub fn new(txn: T) -> (r: Writer<T>)
        ensures
            forall|d: T::Database|
                #![trigger r.model(d)]
                r.model(d) == txn.model(d) && r.base_model(d) == txn.base_model(d) && r.db_ok(d)
                    == txn.db_ok(d) && r.is_dup(d) == txn.is_dup(d),
    {
        Writer(txn)
    }

    /// The committed state of `db` when this writer began.
    pub closed spec fn base_model(&self, db: T::Database) -> TableModel {
        self.0.base_model(db)
    }

    /// Store `(key, value)`.  The value is encoded first; in a
    /// duplicate-sorted database it joins `key`'s run at its sorted place,
    /// idempotently unless the flags allow an independent duplicate copy; in
    /// a plain database it overwrites.
    pub fn put(&mut self, db: &T::Database, key: &[u8], value: &Value, flags: T::Flags) -> (r:
        Result<(), StoreError>)
        ensures
            forall|d: T::Database| #[trigger] final(self).db_ok(d) == old(self).db_ok(d),
            forall|d: T::Database| #[trigger] final(self).is_dup(d) == old(self).is_dup(d),
            forall|d: T::Database|
                #[trigger] final(self).base_model(d) == old(self).base_model(d),
            forall|d: T::Database|
                d != *db ==> #[trigger] final(self).model(d) == old(self).model(d),
            !old(self).db_ok(*db) ==> r is Err,
            match r {
                Ok(_) => old(self).db_ok(*db) && spec_encode_value(value@) is Ok && final(self).model(*db) == if old(self).is_dup(*db) {
                    table_put(
                        old(self).model(*db),
                        key@,
                        spec_encode_value(value@)->Ok_0,
                        flags.spec_allow_dup(),
                    )
                } else {
                    table_replace(old(self).model(*db), key@, spec_encode_value(value@)->Ok_0)
                },
                Err(e) => final(self).model(*db) == old(self).model(*db) && !(e is NotFound) && (e
                    is EncodingError <==> spec_encode_value(value@) is Err),
            },
    {
        let bytes = match value.to_bytes() {
            Ok(b) => b,
            Err(e) => {
                return Err(StoreError::EncodingError(e));
            },
        };
        match self.0.put(db, key, bytes.as_slice(), flags) {
            Ok(_) => Ok(()),
            Err(e) => Err(e.into_store_error()),
        }
    }

    /// Delete.  With an expected encoded value, remove exactly one occurrence
    /// of that pair; without one, remove every value under `key`.  An absent
    /// target is the distinguished not-found error, and nothing changes.
    pub fn delete(&mut self, db: &T::Database, key: &[u8], value: Option<&[u8]>) -> (r: Result<
        (),
        StoreError,
    >)
        ensures
            forall|d: T::Database| #[trigger] final(self).db_ok(d) == old(self).db_ok(d),
            forall|d: T::Database| #[trigger] final(self).is_dup(d) == old(self).is_dup(d),
            forall|d: T::Database|
                #[trigger] final(self).base_model(d) == old(self).base_model(d),
            forall|d: T::Database|
                d != *db ==> #[trigger] final(self).model(d) == old(self).model(d),
            !old(self).db_ok(*db) ==> r is Err,
            match r {
                Ok(_) => old(self).db_ok(*db) && del_target_present(
                    old(self).model(*db),
                    key@,
                    value_view(value),
                ) && final(self).model(*db) == match value {
                    Some(v) => table_del_pair(old(self).model(*db), key@, v@),
                    None => table_del_key(old(self).model(*db), key@),
                },
                Err(e) => final(self).model(*db) == old(self).model(*db) && !(e
                    is EncodingError) && ((e is NotFound) <==> (old(self).db_ok(*db)
                    && !del_target_present(old(self).model(*db), key@, value_view(value)))),
            },
    {
        match self.0.del(db, key, value) {
            Ok(_) => Ok(()),
            Err(e) => Err(e.into_store_error()),
        }
    }

    /// Remove every entry of one database.
    pub fn clear(&mut self, db: &T::Database) -> (r: Result<(), StoreError>)
        ensures
            forall|d: T::Database| #[trigger] final(self).db_ok(d) == old(self).db_ok(d),
            forall|d: T::Database| #[trigger] final(self).is_dup(d) == old(self).is_dup(d),
            forall|d: T::Database|
                #[trigger] final(self).base_model(d) == old(self).base_model(d),
            forall|d: T::Database|
                d != *db ==> #[trigger] final(self).model(d) == old(self).model(d),
            !old(self).db_ok(*db) ==> r is Err,
            match r {
                Ok(_) => old(self).db_ok(*db) && final(self).model(*db)
                    == Seq::<crate::model::EntryModel>::empty(),
                Err(e) => !(e is NotFound) && !(e is EncodingError) && final(self).model(*db)
                    == old(self).model(*db),
            },
    {
        match self.0.clear_db(db) {
            Ok(_) => Ok(()),
            Err(e) => Err(e.into_store_error()),
        }
    }

    /// Publish every write at once: the committed state of each database
    /// becomes exactly this writer's working state, or nothing is published.
    pub fn commit(self) -> (r: Result<T::Environment, StoreError>)
        ensures
            match r {
                Ok(env) => forall|d: T::Database|
                    #![trigger env.committed(d)]
                    env.committed(d) == self.model(d) && env.db_ok(d) == self.db_ok(d)
                        && env.is_dup(d) == self.is_dup(d),
                Err(e) => !(e is NotFound),
            },
    {
        match self.0.commit() {
            Ok(env) => Ok(env),
            Err(e) => Err(e.into_store_error()),
        }
    }

    /// Discard every write: the environment comes back with every database
    /// exactly as committed when this writer began.  Infallible.
    pub fn abort(self) -> (r: T::Environment)
        ensures
            forall|d: T::Database| #[trigger] r.committed(d) == self.base_model(d),
    {
        self.0.abort()
    }

    /// A duplicate-aware cursor able to walk keys and runs in reverse: the
    /// positioning primitive only a write-capable transaction offers.
    pub fn open_ro_dup_cursor(&self, db: &T::Database) -> (r: Result<T::RwCursor, StoreError>)
        ensures
            match r {
                Ok(c) => self.db_ok(*db) && c.model() == self.model(*db),
                Err(e) => !(e is NotFound) && !(e is EncodingError),
            },
            !self.db_ok(*db) ==> r is Err,
    {
        match self.0.open_ro_dup_cursor(db) {
            Ok(c) => Ok(c),
            Err(e) => Err(e.into_store_error()),
        }
    }
}

impl<T: BackendRwCursorTransaction> Readable for Writer<T> {
    type Database = T::Database;

    type RoCursor = T::RoCursor;

    closed spec fn db_ok(&self, db: T::Database) -> bool {
        self.0.db_ok(db)
    }

    closed spec fn model(&self, db: T::Database) -> TableModel {
        self.0.model(db)
    }

    closed spec fn is_dup(&self, db: T::Database) -> bool {
        self.0.is_dup(db)
    }

    proof fn lemma_models_wf(&self, db: T::Database) {
        self.0.lemma_models_wf(db);
    }

    fn get(&self, db: &T::Database, key: &[u8]) -> (r: Result<Option<Value>, StoreError>) {
        match self.0.get(db, key) {
            Ok(bytes) => match Value::from_tagged_slice(bytes.as_slice()) {
                Ok(v) => Ok(Some(v)),
                Err(e) => Err(StoreError::EncodingError(e)),
            },
            Err(e) => {
                match e.into_store_error() {
                    StoreError::NotFound { .. } => Ok(None),
                    other => Err(other),
                }
            },
        }
    }

    fn open_ro_cursor(&self, db: &T::Database) -> (r: Result<T::RoCursor, StoreError>) {
        match self.0.open_ro_cursor(db) {
            Ok(c) => Ok(c),
            Err(e) => Err(e.into_store_error()),
        }
    }
}

} // verus!
