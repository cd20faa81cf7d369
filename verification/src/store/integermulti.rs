//! The integer-keyed duplicate-sorted store.
//!
//! Identical semantics to [`MultiStore`]: every key is passed through the
//! fixed-width, order-preserving integer encoding before it reaches the
//! byte-keyed store, so numeric key order and stored key order agree.

use core::marker::PhantomData;

use vstd::prelude::*;

use crate::backend::traits::{
    BackendDatabase, BackendRoCursor, BackendRwCursor, BackendRwCursorTransaction,
    BackendWriteFlags,
};
use crate::error::{DataError, StoreError};
use crate::model::{
    entry_pairs, prev_dup_groups, table_del_key, table_del_pair, table_flat, table_lookup,
    table_put, EntryModel,
};
use crate::readwrite::{Readable, Writer};
use crate::store::keys::PrimitiveInt;
use crate::store::multi::{DIter, Iter, MultiStore};
use crate::value::{spec_decode_value, spec_encode_value, Value, ValueView};

verus! {

/// A duplicate-sorted store whose keys are primitive integers.
#[derive(Debug, PartialEq, Eq, Copy)]
pub struct MultiIntegerStore<D, K> {
    inner: MultiStore<D>,
    phantom: PhantomData<K>,
}

impl<D: Copy, K: Copy> Clone for MultiIntegerStore<D, K> {
    fn clone(&self) -> (r: Self)
        ensures
            r == *self,
    {
        *self
    }
}

impl<D: BackendDatabase, K: PrimitiveInt> MultiIntegerStore<D, K> {
    /// The handle this store reads and writes.
    pub closed spec fn spec_db(&self) -> D {
        self.inner.spec_db()
    }

    /// A store over the given duplicate-sorted database handle.
    pub fn new(db: D) -> (r: MultiIntegerStore<D, K>)
        ensures
            r.spec_db() == db,
    {
        MultiIntegerStore { inner: MultiStore::new(db), phantom: PhantomData }
    }

    /// The reverse duplicate traversal from the encoded key `k`: numerically
    /// smaller-or-equal keys descending, each run descending — what the
    /// yielded groups hold of any well-formed table is spelled out by
    /// [`crate::model::lemma_prev_dup_groups_spec`].  Unavailable on a
    /// read-only transaction type.
    pub fn iter_prev_dup_from<T: BackendRwCursorTransaction<Database = D>>(
        &self,
        writer: &Writer<T>,
        k: K,
    ) -> (r: Result<DIter<<T::RwCursor as BackendRwCursor>::Iter>, StoreError>)
        ensures
            match r {
                Ok(it) => writer.db_ok(self.spec_db()) && it.remaining_groups()
                    == prev_dup_groups(writer.model(self.spec_db()), k.spec_encoded()),
                Err(e) => !(e is NotFound),
            },
            !writer.db_ok(self.spec_db()) ==> r is Err,
    {
        let kb = k.encode_key();
        self.inner.iter_prev_dup_from(writer, kb.as_slice())
    }

    /// The ascending run of values stored under `k`, as a lazy iterator.
    pub fn get<R: Readable<Database = D>>(&self, reader: &R, k: K) -> (r: Result<
        Iter<<R::RoCursor as BackendRoCursor>::Iter>,
        StoreError,
    >)
        ensures
            match r {
                Ok(it) => reader.db_ok(self.spec_db()) && it.remaining_pairs() == entry_pairs(
                    k.spec_encoded(),
                    table_lookup(reader.model(self.spec_db()), k.spec_encoded()),
                ),
                Err(e) => !(e is NotFound),
            },
            !reader.db_ok(self.spec_db()) ==> r is Err,
    {
        let kb = k.encode_key();
        self.inner.get(reader, kb.as_slice())
    }

    /// The first (lowest) value stored under `k`, or absent.
    pub fn get_first<R: Readable<Database = D>>(&self, reader: &R, k: K) -> (r: Result<
        Option<Value>,
        StoreError,
    >)
        ensures
            ({
                let run = table_lookup(reader.model(self.spec_db()), k.spec_encoded());
                match r {
                    Ok(Some(v)) => reader.db_ok(self.spec_db()) && run.len() > 0
                        && spec_decode_value(run[0]) == Ok::<ValueView, DataError>(v@),
                    Ok(None) => reader.db_ok(self.spec_db()) && run.len() == 0,
                    Err(e) => !(e is NotFound) && (e is EncodingError ==> run.len() > 0
                        && spec_decode_value(run[0]) is Err),
                }
            }),
            !reader.db_ok(self.spec_db()) ==> r is Err,
    {
        let kb = k.encode_key();
        self.inner.get_first(reader, kb.as_slice())
    }

    /// Every `(key, value)` pair of the table, ascending by key then value.
    pub fn iter_start<R: Readable<Database = D>>(&self, reader: &R) -> (r: Result<
        Iter<<R::RoCursor as BackendRoCursor>::Iter>,
        StoreError,
    >)
        ensures
            match r {
                Ok(it) => reader.db_ok(self.spec_db()) && it.remaining_pairs() == table_flat(
                    reader.model(self.spec_db()),
                ),
                Err(e) => !(e is NotFound),
            },
            !reader.db_ok(self.spec_db()) ==> r is Err,
    {
        self.inner.iter_start(reader)
    }

    /// Insert `(k, v)`, idempotently for a byte-identical stored pair.
    pub fn put<T: BackendRwCursorTransaction<Database = D>>(
        &self,
        writer: &mut Writer<T>,
        k: K,
        v: &Value,
    ) -> (r: Result<(), StoreError>)
        ensures
            forall|d: D| #[trigger] final(writer).db_ok(d) == old(writer).db_ok(d),
            forall|d: D| #[trigger] final(writer).is_dup(d) == old(writer).is_dup(d),
            forall|d: D| #[trigger] final(writer).base_model(d) == old(writer).base_model(d),
            forall|d: D|
                d != self.spec_db() ==> #[trigger] final(writer).model(d) == old(writer).model(d),
            !old(writer).db_ok(self.spec_db()) ==> r is Err,
            spec_encode_value(v@) is Err ==> r is Err && r->Err_0 is EncodingError,
            old(writer).is_dup(self.spec_db()) ==> match r {
                Ok(_) => old(writer).db_ok(self.spec_db()) && spec_encode_value(v@) is Ok && final(writer).model(self.spec_db()) == table_put(
                    old(writer).model(self.spec_db()),
                    k.spec_encoded(),
                    spec_encode_value(v@)->Ok_0,
                    false,
                ),
                Err(e) => final(writer).model(self.spec_db()) == old(writer).model(self.spec_db())
                    && !(e is NotFound) && (e is EncodingError <==> spec_encode_value(v@) is Err),
            },
    {
        let kb = k.encode_key();
        self.inner.put(writer, kb.as_slice(), v)
    }

    /// Insert `(k, v)` with explicit write flags.
    pub fn put_with_flags<T: BackendRwCursorTransaction<Database = D>>(
        &self,
        writer: &mut Writer<T>,
        k: K,
        v: &Value,
        flags: T::Flags,
    ) -> (r: Result<(), StoreError>)
        ensures
            forall|d: D| #[trigger] final(writer).db_ok(d) == old(writer).db_ok(d),
            forall|d: D| #[trigger] final(writer).is_dup(d) == old(writer).is_dup(d),
            forall|d: D| #[trigger] final(writer).base_model(d) == old(writer).base_model(d),
            forall|d: D|
                d != self.spec_db() ==> #[trigger] final(writer).model(d) == old(writer).model(d),
            !old(writer).db_ok(self.spec_db()) ==> r is Err,
            spec_encode_value(v@) is Err ==> r is Err && r->Err_0 is EncodingError,
            old(writer).is_dup(self.spec_db()) ==> match r {
                Ok(_) => old(writer).db_ok(self.spec_db()) && spec_encode_value(v@) is Ok && final(writer).model(self.spec_db()) == table_put(
                    old(writer).model(self.spec_db()),
                    k.spec_encoded(),
                    spec_encode_value(v@)->Ok_0,
                    flags.spec_allow_dup(),
                ),
                Err(e) => final(writer).model(self.spec_db()) == old(writer).model(self.spec_db())
                    && !(e is NotFound) && (e is EncodingError <==> spec_encode_value(v@) is Err),
            },
    {
        let kb = k.encode_key();
        self.inner.put_with_flags(writer, kb.as_slice(), v, flags)
    }

    /// Remove every value stored under `k`; succeeds even when `k` is absent.
    pub fn delete_all<T: BackendRwCursorTransaction<Database = D>>(
        &self,
        writer: &mut Writer<T>,
        k: K,
    ) -> (r: Result<(), StoreError>)
        ensures
            forall|d: D| #[trigger] final(writer).db_ok(d) == old(writer).db_ok(d),
            forall|d: D| #[trigger] final(writer).is_dup(d) == old(writer).is_dup(d),
            forall|d: D| #[trigger] final(writer).base_model(d) == old(writer).base_model(d),
            forall|d: D|
                d != self.spec_db() ==> #[trigger] final(writer).model(d) == old(writer).model(d),
            !old(writer).db_ok(self.spec_db()) ==> r is Err,
            match r {
                Ok(_) => old(writer).db_ok(self.spec_db()) && final(writer).model(self.spec_db())
                    == table_del_key(old(writer).model(self.spec_db()), k.spec_encoded()),
                Err(e) => !(e is NotFound) && final(writer).model(self.spec_db()) == old(writer).model(self.spec_db()),
            },
    {
        let kb = k.encode_key();
        self.inner.delete_all(writer, kb.as_slice())
    }

    /// Remove exactly one occurrence of `(k, v)`; an absent pair is the
    /// distinguished not-found error, and nothing changes.
    pub fn delete<T: BackendRwCursorTransaction<Database = D>>(
        &self,
        writer: &mut Writer<T>,
        k: K,
        v: &Value,
    ) -> (r: Result<(), StoreError>)
        ensures
            forall|d: D| #[trigger] final(writer).db_ok(d) == old(writer).db_ok(d),
            forall|d: D| #[trigger] final(writer).is_dup(d) == old(writer).is_dup(d),
            forall|d: D| #[trigger] final(writer).base_model(d) == old(writer).base_model(d),
            forall|d: D|
                d != self.spec_db() ==> #[trigger] final(writer).model(d) == old(writer).model(d),
            !old(writer).db_ok(self.spec_db()) ==> r is Err,
            spec_encode_value(v@) is Err ==> r is Err && r->Err_0 is EncodingError,
            match r {
                Ok(_) => old(writer).db_ok(self.spec_db()) && spec_encode_value(v@) is Ok
                    && table_lookup(old(writer).model(self.spec_db()), k.spec_encoded()).contains(
                    spec_encode_value(v@)->Ok_0,
                ) && final(writer).model(self.spec_db()) == table_del_pair(
                    old(writer).model(self.spec_db()),
                    k.spec_encoded(),
                    spec_encode_value(v@)->Ok_0,
                ),
                Err(e) => final(writer).model(self.spec_db()) == old(writer).model(self.spec_db())
                    && (e is EncodingError ==> spec_encode_value(v@) is Err) && ((e is NotFound)
                    <==> (old(writer).db_ok(self.spec_db()) && spec_encode_value(v@) is Ok
                    && !table_lookup(old(writer).model(self.spec_db()), k.spec_encoded()).contains(
                    spec_encode_value(v@)->Ok_0,
                ))),
            },
    {
        let kb = k.encode_key();
        self.inner.delete(writer, kb.as_slice(), v)
    }

    /// Remove every entry of the table.
    pub fn clear<T: BackendRwCursorTransaction<Database = D>>(&self, writer: &mut Writer<T>) -> (r:
        Result<(), StoreError>)
        ensures
            forall|d: D| #[trigger] final(writer).db_ok(d) == old(writer).db_ok(d),
            forall|d: D| #[trigger] final(writer).is_dup(d) == old(writer).is_dup(d),
            forall|d: D| #[trigger] final(writer).base_model(d) == old(writer).base_model(d),
            forall|d: D|
                d != self.spec_db() ==> #[trigger] final(writer).model(d) == old(writer).model(d),
            !old(writer).db_ok(self.spec_db()) ==> r is Err,
            match r {
                Ok(_) => old(writer).db_ok(self.spec_db()) && final(writer).model(self.spec_db())
                    == Seq::<EntryModel>::empty(),
                Err(e) => !(e is NotFound) && final(writer).model(self.spec_db()) == old(writer).model(self.spec_db()),
            },
    {
        self.inner.clear(writer)
    }
}

} // verus!
