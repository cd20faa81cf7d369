//! The duplicate-sorted multi-value store.
//!
//! A `MultiStore` keeps many values per key, always in ascending order of
//! their encoded bytes — a stored property, never insertion order.  It is
//! written only against the backend capability contract, so the same code
//! runs over any engine implementing it.

use vstd::prelude::*;

use crate::backend::traits::{
    BackendDatabase, BackendDupIter, BackendError, BackendFlags, BackendIter, BackendRoCursor,
    BackendRwCursor, BackendRwCursorTransaction, BackendRwTransaction, BackendWriteFlags,
};
use crate::error::{DataError, StoreError};
use crate::model::{
    entry_pairs, lemma_table_del_key_absent, prev_dup_groups, table_del_key, table_del_pair,
    table_flat, table_lookup, table_put, EntryModel, TableModel,
};
use crate::readwrite::{Readable, Writer};
use crate::value::{spec_decode_value, spec_encode_value, Value, ValueView};

verus! {

/// A handle to one duplicate-sorted table.
#[derive(Debug, PartialEq, Eq, Copy, Clone)]
pub struct MultiStore<D> {
    db: D,
}

/// An iterator over `(key, value)` pairs of a store, decoding each stored
/// byte string into its typed value.  It owns the cursor it was built from;
/// walking it again takes a fresh cursor.
pub struct Iter<I> {
    iter: I,
}

/// An iterator over duplicate runs: each step yields one key's run as a
/// nested [`Iter`].
pub struct DIter<I> {
    iter: I,
}

impl<I: BackendIter> Iter<I> {
    /// The raw pairs not yet yielded, in yield order.
    pub closed spec fn remaining_pairs(&self) -> Seq<(Seq<u8>, Seq<u8>)> {
        self.iter.remaining()
    }

    /// Wrap a backend iterator.
    pub(crate) fn from_backend(iter: I) -> (r: Iter<I>)
        ensures
            r.remaining_pairs() == iter.remaining(),
    {
        Iter { iter }
    }

    /// The next `(key, value)` pair, its value decoded.  An exhausted
    /// iterator reports end-of-sequence, never an error.
    pub fn next(&mut self) -> (r: Option<Result<(Vec<u8>, Value), StoreError>>)
        ensures
            match r {
                None => old(self).remaining_pairs().len() == 0 && final(self).remaining_pairs()
                    == old(self).remaining_pairs(),
                Some(Ok(kv)) => old(self).remaining_pairs().len() > 0 && kv.0@ == old(self).remaining_pairs()[0].0 && spec_decode_value(old(self).remaining_pairs()[0].1)
                    == Ok::<ValueView, DataError>(kv.1@) && final(self).remaining_pairs() == old(self).remaining_pairs().drop_first(),
                Some(Err(e)) => !(e is NotFound) && (if e is EncodingError {
                    old(self).remaining_pairs().len() > 0 && spec_decode_value(
                        old(self).remaining_pairs()[0].1,
                    ) is Err && final(self).remaining_pairs() == old(self).remaining_pairs().drop_first()
                } else {
                    final(self).remaining_pairs() == old(self).remaining_pairs()
                }),
            },
    {
        match self.iter.next() {
            None => None,
            Some(Ok(kv)) => {
                let (key, bytes) = kv;
                match Value::from_tagged_slice(bytes.as_slice()) {
                    Ok(v) => Some(Ok((key, v))),
                    Err(e) => Some(Err(StoreError::EncodingError(e))),
                }
            },
            Some(Err(e)) => Some(Err(e.into_store_error())),
        }
    }
}

impl<I: BackendDupIter> DIter<I> {
    /// The `(key, run)` groups not yet yielded, in yield order.
    pub closed spec fn remaining_groups(&self) -> TableModel {
        self.iter.remaining_groups()
    }

    /// Wrap a backend duplicate iterator.
    pub(crate) fn from_backend(iter: I) -> (r: DIter<I>)
        ensures
            r.remaining_groups() == iter.remaining_groups(),
    {
        DIter { iter }
    }

    /// The next key's duplicate run, as a nested iterator over its pairs.
    pub fn next(&mut self) -> (r: Option<Result<Iter<I::Iter>, StoreError>>)
        ensures
            match r {
                None => old(self).remaining_groups().len() == 0 && final(self).remaining_groups()
                    == old(self).remaining_groups(),
                Some(Ok(sub)) => old(self).remaining_groups().len() > 0 && sub.remaining_pairs()
                    == entry_pairs(
                    old(self).remaining_groups()[0].0,
                    old(self).remaining_groups()[0].1,
                ) && final(self).remaining_groups() == old(self).remaining_groups().drop_first(),
                Some(Err(e)) => !(e is NotFound) && !(e is EncodingError) && final(self).remaining_groups() == old(self).remaining_groups(),
            },
    {
        match self.iter.next() {
            None => None,
            Some(Ok(sub)) => Some(Ok(Iter::from_backend(sub))),
            Some(Err(e)) => Some(Err(e.into_store_error())),
        }
    }
}

impl<D: BackendDatabase> MultiStore<D> {
    /// The handle this store reads and writes.
    pub closed spec fn spec_db(&self) -> D {
        self.db
    }

    /// A store over the given duplicate-sorted database handle.
    pub fn new(db: D) -> (r: MultiStore<D>)
        ensures
            r.spec_db() == db,
    {
        MultiStore { db }
    }

    /// The reverse duplicate traversal: keys at or below `k`, walked
    /// descending, each key's run walked descending — what the yielded groups
    /// hold of any well-formed table is spelled out by
    /// [`crate::model::lemma_prev_dup_groups_spec`].  The positioning
    /// primitive below it exists only on write-capable cursors, so this
    /// operation takes the writer and is unavailable on a read-only
    /// transaction type.
    pub fn iter_prev_dup_from<T: BackendRwCursorTransaction<Database = D>>(
        &self,
        writer: &Writer<T>,
        k: &[u8],
    ) -> (r: Result<DIter<<T::RwCursor as BackendRwCursor>::Iter>, StoreError>)
        ensures
            match r {
                Ok(it) => writer.db_ok(self.spec_db()) && it.remaining_groups()
                    == prev_dup_groups(writer.model(self.spec_db()), k@),
                Err(e) => !(e is NotFound),
            },
            !writer.db_ok(self.spec_db()) ==> r is Err,
    {
        let cursor = writer.open_ro_dup_cursor(&self.db)?;
        let iter = cursor.into_iter_prev_dup_from(k);
        Ok(DIter::from_backend(iter))
    }

    /// The ascending run of values stored under `k`, as a lazy iterator;
    /// empty when the key is absent.  Not restartable.
    pub fn get<R: Readable<Database = D>>(&self, reader: &R, k: &[u8]) -> (r: Result<
        Iter<<R::RoCursor as BackendRoCursor>::Iter>,
        StoreError,
    >)
        ensures
            match r {
                Ok(it) => reader.db_ok(self.spec_db()) && it.remaining_pairs() == entry_pairs(
                    k@,
                    table_lookup(reader.model(self.spec_db()), k@),
                ),
                Err(e) => !(e is NotFound),
            },
            !reader.db_ok(self.spec_db()) ==> r is Err,
    {
        let cursor = reader.open_ro_cursor(&self.db)?;
        let iter = cursor.into_iter_dup_of(k);
        Ok(Iter::from_backend(iter))
    }

    /// Whether the exact `(k, v)` pair is stored.
    pub fn get_key_value<R: Readable<Database = D>>(&self, reader: &R, k: &[u8], v: &Value) -> (r:
        Result<bool, StoreError>)
        ensures
            match r {
                Ok(b) => reader.db_ok(self.spec_db()) && spec_encode_value(v@) is Ok && b
                    == table_lookup(reader.model(self.spec_db()), k@).contains(
                    spec_encode_value(v@)->Ok_0,
                ),
                Err(e) => !(e is NotFound) && (e is EncodingError ==> spec_encode_value(v@) is Err),
            },
            spec_encode_value(v@) is Err ==> r is Err && r->Err_0 is EncodingError,
            !reader.db_ok(self.spec_db()) ==> r is Err,
    {
        let bytes = match v.to_bytes() {
            Ok(b) => b,
            Err(e) => {
                return Err(StoreError::EncodingError(e));
            },
        };
        let cursor = reader.open_ro_cursor(&self.db)?;
        Ok(cursor.get_key_value(k, bytes.as_slice()))
    }

    /// The first (lowest) value stored under `k`, or absent.
    pub fn get_first<R: Readable<Database = D>>(&self, reader: &R, k: &[u8]) -> (r: Result<
        Option<Value>,
        StoreError,
    >)
        ensures
            ({
                let run = table_lookup(reader.model(self.spec_db()), k@);
                match r {
                    Ok(Some(v)) => reader.db_ok(self.spec_db()) && run.len() > 0
                        && spec_decode_value(run[0]) == Ok::<ValueView, DataError>(v@),
                    Ok(None) => reader.db_ok(self.spec_db()) && run.len() == 0,
                    Err(e) => !(e is NotFound) && (e is EncodingError ==> run.len() > 0
                        && spec_decode_value(run[0]) is Err),
                }
            }),
            !reader.db_ok(self.spec_db()) ==> r is Err,
    {
        reader.get(&self.db, k)
    }

    /// Every `(key, value)` pair of the table, ascending by key then value.
    pub fn iter_start<R: Readable<Database = D>>(&self, reader: &R) -> (r: Result<
        Iter<<R::RoCursor as BackendRoCursor>::Iter>,
        StoreError,
    >)
        ensures
            match r {
                Ok(it) => reader.db_ok(self.spec_db()) && it.remaining_pairs() == table_flat(
                    reader.model(self.spec_db()),
                ),
                Err(e) => !(e is NotFound),
            },
            !reader.db_ok(self.spec_db()) ==> r is Err,
    {
        let cursor = reader.open_ro_cursor(&self.db)?;
        let iter = cursor.into_iter();
        Ok(Iter::from_backend(iter))
    }

    /// Insert `(k, v)` into the duplicate run of `k`.  Inserting a pair
    /// byte-identical to a stored one is idempotent; to store independent
    /// duplicate copies, use `put_with_flags` and ask for duplicates.
    pub fn put<T: BackendRwCursorTransaction<Database = D>>(
        &self,
        writer: &mut Writer<T>,
        k: &[u8],
        v: &Value,
    ) -> (r: Result<(), StoreError>)
        ensures
            forall|d: D| #[trigger] final(writer).db_ok(d) == old(writer).db_ok(d),
            forall|d: D| #[trigger] final(writer).is_dup(d) == old(writer).is_dup(d),
            forall|d: D| #[trigger] final(writer).base_model(d) == old(writer).base_model(d),
            forall|d: D|
                d != self.spec_db() ==> #[trigger] final(writer).model(d) == old(writer).model(d),
            !old(writer).db_ok(self.spec_db()) ==> r is Err,
            spec_encode_value(v@) is Err ==> r is Err && r->Err_0 is EncodingError,
            old(writer).is_dup(self.spec_db()) ==> match r {
                Ok(_) => old(writer).db_ok(self.spec_db()) && spec_encode_value(v@) is Ok && final(writer).model(self.spec_db()) == table_put(
                    old(writer).model(self.spec_db()),
                    k@,
                    spec_encode_value(v@)->Ok_0,
                    false,
                ),
                Err(e) => final(writer).model(self.spec_db()) == old(writer).model(self.spec_db())
                    && !(e is NotFound) && (e is EncodingError <==> spec_encode_value(v@) is Err),
            },
    {
        proof {
            T::Flags::lemma_empty_allows_no_dup();
        }
        writer.put(&self.db, k, v, T::Flags::empty())
    }

    /// Insert `(k, v)` with explicit write flags: asking for duplicates
    /// stores a byte-identical pair as an independent, separately deletable
    /// copy.
    pub fn put_with_flags<T: BackendRwCursorTransaction<Database = D>>(
        &self,
        writer: &mut Writer<T>,
        k: &[u8],
        v: &Value,
        flags: T::Flags,
    ) -> (r: Result<(), StoreError>)
        ensures
            forall|d: D| #[trigger] final(writer).db_ok(d) == old(writer).db_ok(d),
            forall|d: D| #[trigger] final(writer).is_dup(d) == old(writer).is_dup(d),
            forall|d: D| #[trigger] final(writer).base_model(d) == old(writer).base_model(d),
            forall|d: D|
                d != self.spec_db() ==> #[trigger] final(writer).model(d) == old(writer).model(d),
            !old(writer).db_ok(self.spec_db()) ==> r is Err,
            spec_encode_value(v@) is Err ==> r is Err && r->Err_0 is EncodingError,
            old(writer).is_dup(self.spec_db()) ==> match r {
                Ok(_) => old(writer).db_ok(self.spec_db()) && spec_encode_value(v@) is Ok && final(writer).model(self.spec_db()) == table_put(
                    old(writer).model(self.spec_db()),
                    k@,
                    spec_encode_value(v@)->Ok_0,
                    flags.spec_allow_dup(),
                ),
                Err(e) => final(writer).model(self.spec_db()) == old(writer).model(self.spec_db())
                    && !(e is NotFound) && (e is EncodingError <==> spec_encode_value(v@) is Err),
            },
    {
        writer.put(&self.db, k, v, flags)
    }

    /// Remove every value stored under `k`.  Succeeds even when the key is
    /// absent, leaving the table unchanged.
    pub fn delete_all<T: BackendRwCursorTransaction<Database = D>>(
        &self,
        writer: &mut Writer<T>,
        k: &[u8],
    ) -> (r: Result<(), StoreError>)
        ensures
            forall|d: D| #[trigger] final(writer).db_ok(d) == old(writer).db_ok(d),
            forall|d: D| #[trigger] final(writer).is_dup(d) == old(writer).is_dup(d),
            forall|d: D| #[trigger] final(writer).base_model(d) == old(writer).base_model(d),
            forall|d: D|
                d != self.spec_db() ==> #[trigger] final(writer).model(d) == old(writer).model(d),
            !old(writer).db_ok(self.spec_db()) ==> r is Err,
            match r {
                Ok(_) => old(writer).db_ok(self.spec_db()) && final(writer).model(self.spec_db())
                    == table_del_key(old(writer).model(self.spec_db()), k@),
                Err(e) => !(e is NotFound) && final(writer).model(self.spec_db()) == old(writer).model(self.spec_db()),
            },
    {
        proof {
            old(writer).lemma_models_wf(self.spec_db());
        }
        match writer.delete(&self.db, k, None) {
            Ok(_) => Ok(()),
            Err(e) => {
                match e {
                    StoreError::NotFound { .. } => {
                        proof {
                            lemma_table_del_key_absent(old(writer).model(self.spec_db()), k@);
                        }
                        Ok(())
                    },
                    other => Err(other),
                }
            },
        }
    }

    /// Remove exactly one occurrence of the pair `(k, v)`.  A pair that is
    /// not stored is the distinguished not-found error, and nothing changes.
    pub fn delete<T: BackendRwCursorTransaction<Database = D>>(
        &self,
        writer: &mut Writer<T>,
        k: &[u8],
        v: &Value,
    ) -> (r: Result<(), StoreError>)
        ensures
            forall|d: D| #[trigger] final(writer).db_ok(d) == old(writer).db_ok(d),
            forall|d: D| #[trigger] final(writer).is_dup(d) == old(writer).is_dup(d),
            forall|d: D| #[trigger] final(writer).base_model(d) == old(writer).base_model(d),
            forall|d: D|
                d != self.spec_db() ==> #[trigger] final(writer).model(d) == old(writer).model(d),
            !old(writer).db_ok(self.spec_db()) ==> r is Err,
            spec_encode_value(v@) is Err ==> r is Err && r->Err_0 is EncodingError,
            match r {
                Ok(_) => old(writer).db_ok(self.spec_db()) && spec_encode_value(v@) is Ok
                    && table_lookup(old(writer).model(self.spec_db()), k@).contains(
                    spec_encode_value(v@)->Ok_0,
                ) && final(writer).model(self.spec_db()) == table_del_pair(
                    old(writer).model(self.spec_db()),
                    k@,
                    spec_encode_value(v@)->Ok_0,
                ),
                Err(e) => final(writer).model(self.spec_db()) == old(writer).model(self.spec_db())
                    && (e is EncodingError ==> spec_encode_value(v@) is Err) && ((e is NotFound)
                    <==> (old(writer).db_ok(self.spec_db()) && spec_encode_value(v@) is Ok
                    && !table_lookup(old(writer).model(self.spec_db()), k@).contains(
                    spec_encode_value(v@)->Ok_0,
                ))),
            },
    {
        let bytes = match v.to_bytes() {
            Ok(b) => b,
            Err(e) => {
                return Err(StoreError::EncodingError(e));
            },
        };
        writer.delete(&self.db, k, Some(bytes.as_slice()))
    }

    /// Remove every entry of the table.
    pub fn clear<T: BackendRwCursorTransaction<Database = D>>(&self, writer: &mut Writer<T>) -> (r:
        Result<(), StoreError>)
        ensures
            forall|d: D| #[trigger] final(writer).db_ok(d) == old(writer).db_ok(d),
            forall|d: D| #[trigger] final(writer).is_dup(d) == old(writer).is_dup(d),
            forall|d: D| #[trigger] final(writer).base_model(d) == old(writer).base_model(d),
            forall|d: D|
                d != self.spec_db() ==> #[trigger] final(writer).model(d) == old(writer).model(d),
            !old(writer).db_ok(self.spec_db()) ==> r is Err,
            match r {
                Ok(_) => old(writer).db_ok(self.spec_db()) && final(writer).model(self.spec_db())
                    == Seq::<EntryModel>::empty(),
                Err(e) => !(e is NotFound) && final(writer).model(self.spec_db()) == old(writer).model(self.spec_db()),
            },
    {
        writer.clear(&self.db)
    }
}

} // verus!
