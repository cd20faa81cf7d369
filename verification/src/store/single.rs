//! The single-value store: one value per key.
//!
//! `put` overwrites, `delete` of an absent key is an error, `clear` empties
//! the table.  Built, like the multi-value store, only on the backend
//! capability contract.

use vstd::prelude::*;

use crate::backend::traits::{
    BackendDatabase, BackendFlags, BackendRoCursor, BackendRwCursorTransaction, BackendWriteFlags,
};
use crate::error::{DataError, StoreError};
use crate::model::{
    table_del_key, table_flat, table_has_key, table_lookup, table_replace, EntryModel,
};
use crate::readwrite::{Readable, Writer};
use crate::store::multi::Iter;
use crate::value::{spec_decode_value, spec_encode_value, Value, ValueView};

verus! {

/// A handle to one plain (one value per key) table.
#[derive(Debug, PartialEq, Eq, Copy, Clone)]
pub struct SingleStore<D> {
    db: D,
}

impl<D: BackendDatabase> SingleStore<D> {
    /// The handle this store reads and writes.
    pub closed spec fn spec_db(&self) -> D {
        self.db
    }

    /// A store over the given plain database handle.
    pub fn new(db: D) -> (r: SingleStore<D>)
        ensures
            r.spec_db() == db,
    {
        SingleStore { db }
    }

    /// The value stored under `k`, or absent.
    pub fn get<R: Readable<Database = D>>(&self, reader: &R, k: &[u8]) -> (r: Result<
        Option<Value>,
        StoreError,
    >)
        ensures
            ({
                let run = table_lookup(reader.model(self.spec_db()), k@);
                match r {
                    Ok(Some(v)) => reader.db_ok(self.spec_db()) && run.len() > 0
                        && spec_decode_value(run[0]) == Ok::<ValueView, DataError>(v@),
                    Ok(None) => reader.db_ok(self.spec_db()) && run.len() == 0,
                    Err(e) => !(e is NotFound) && (e is EncodingError ==> run.len() > 0
                        && spec_decode_value(run[0]) is Err),
                }
            }),
            !reader.db_ok(self.spec_db()) ==> r is Err,
    {
        reader.get(&self.db, k)
    }

    /// Every `(key, value)` pair of the table, ascending by key.
    pub fn iter_start<R: Readable<Database = D>>(&self, reader: &R) -> (r: Result<
        Iter<<R::RoCursor as BackendRoCursor>::Iter>,
        StoreError,
    >)
        ensures
            match r {
                Ok(it) => reader.db_ok(self.spec_db()) && it.remaining_pairs() == table_flat(
                    reader.model(self.spec_db()),
                ),
                Err(e) => !(e is NotFound),
            },
            !reader.db_ok(self.spec_db()) ==> r is Err,
    {
        let cursor = reader.open_ro_cursor(&self.db)?;
        Ok(Iter::from_backend(cursor.into_iter()))
    }

    /// Store `(k, v)`, overwriting whatever the key held.
    pub fn put<T: BackendRwCursorTransaction<Database = D>>(
        &self,
        writer: &mut Writer<T>,
        k: &[u8],
        v: &Value,
    ) -> (r: Result<(), StoreError>)
        ensures
            forall|d: D| #[trigger] final(writer).db_ok(d) == old(writer).db_ok(d),
            forall|d: D| #[trigger] final(writer).is_dup(d) == old(writer).is_dup(d),
            forall|d: D| #[trigger] final(writer).base_model(d) == old(writer).base_model(d),
            forall|d: D|
                d != self.spec_db() ==> #[trigger] final(writer).model(d) == old(writer).model(d),
            !old(writer).db_ok(self.spec_db()) ==> r is Err,
            spec_encode_value(v@) is Err ==> r is Err && r->Err_0 is EncodingError,
            !old(writer).is_dup(self.spec_db()) ==> match r {
                Ok(_) => old(writer).db_ok(self.spec_db()) && spec_encode_value(v@) is Ok && final(writer).model(self.spec_db()) == table_replace(
                    old(writer).model(self.spec_db()),
                    k@,
                    spec_encode_value(v@)->Ok_0,
                ),
                Err(e) => final(writer).model(self.spec_db()) == old(writer).model(self.spec_db())
                    && !(e is NotFound) && (e is EncodingError <==> spec_encode_value(v@) is Err),
            },
    {
        proof {
            T::Flags::lemma_empty_allows_no_dup();
        }
        writer.put(&self.db, k, v, T::Flags::empty())
    }

    /// Remove the value stored under `k`.  An absent key is the distinguished
    /// not-found error, and nothing changes.
    pub fn delete<T: BackendRwCursorTransaction<Database = D>>(
        &self,
        writer: &mut Writer<T>,
        k: &[u8],
    ) -> (r: Result<(), StoreError>)
        ensures
            forall|d: D| #[trigger] final(writer).db_ok(d) == old(writer).db_ok(d),
            forall|d: D| #[trigger] final(writer).is_dup(d) == old(writer).is_dup(d),
            forall|d: D| #[trigger] final(writer).base_model(d) == old(writer).base_model(d),
            forall|d: D|
                d != self.spec_db() ==> #[trigger] final(writer).model(d) == old(writer).model(d),
            !old(writer).db_ok(self.spec_db()) ==> r is Err,
            match r {
                Ok(_) => old(writer).db_ok(self.spec_db()) && table_has_key(
                    old(writer).model(self.spec_db()),
                    k@,
                ) && final(writer).model(self.spec_db()) == table_del_key(
                    old(writer).model(self.spec_db()),
                    k@,
                ),
                Err(e) => final(writer).model(self.spec_db()) == old(writer).model(self.spec_db())
                    && ((e is NotFound) <==> (old(writer).db_ok(self.spec_db()) && !table_has_key(
                    old(writer).model(self.spec_db()),
                    k@,
                ))),
            },
    {
        writer.delete(&self.db, k, None)
    }

    /// Remove every entry of the table.
    pub fn clear<T: BackendRwCursorTransaction<Database = D>>(&self, writer: &mut Writer<T>) -> (r:
        Result<(), StoreError>)
        ensures
            forall|d: D| #[trigger] final(writer).db_ok(d) == old(writer).db_ok(d),
            forall|d: D| #[trigger] final(writer).is_dup(d) == old(writer).is_dup(d),
            forall|d: D| #[trigger] final(writer).base_model(d) == old(writer).base_model(d),
            forall|d: D|
                d != self.spec_db() ==> #[trigger] final(writer).model(d) == old(writer).model(d),
            !old(writer).db_ok(self.spec_db()) ==> r is Err,
            match r {
                Ok(_) => old(writer).db_ok(self.spec_db()) && final(writer).model(self.spec_db())
                    == Seq::<EntryModel>::empty(),
                Err(e) => !(e is NotFound) && final(writer).model(self.spec_db()) == old(writer).model(self.spec_db()),
            },
    {
        writer.clear(&self.db)
    }
}

} // verus!
