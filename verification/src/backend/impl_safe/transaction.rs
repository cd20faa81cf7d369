//! Transactions of the in-memory engine.
//!
//! A read-only transaction owns a full snapshot of the committed state: later
//! commits cannot touch it.  The read-write transaction owns the environment
//! itself and a working copy of every database; commit returns an environment
//! built from the working copy, abort returns the environment it consumed.
//! Both are consumed by their terminal operations, so nothing can reach a
//! finished transaction, and no second writer can exist beside a live one.

use vstd::prelude::*;

use crate::backend::impl_safe::cursor::{RoCursorImpl, RwCursorImpl};
use crate::backend::impl_safe::database::{clone_bytes, lemma_database_view_wf, Database, DatabaseImpl};
use crate::backend::impl_safe::environment::{EnvironmentImpl, NamedDb};
use crate::backend::impl_safe::error::ErrorImpl;
use crate::backend::impl_safe::flags::WriteFlagsImpl;
use crate::backend::impl_safe::stat::StatImpl;
use crate::backend::traits::{
    del_target_present, value_view, BackendEnvironment, BackendRoCursorTransaction,
    BackendRoTransaction, BackendRwCursorTransaction, BackendRwCursorType,
    BackendRwDupPrevCursorTransaction, BackendRwTransaction,
};
use crate::model::{table_lookup, EntryModel, TableModel};
use vstd::pervasive::VecAdditionalExecFns;

verus! {

/// A read-only transaction: a snapshot of every database, taken when it
/// began.
pub struct RoTransactionImpl {
    dbs: Vec<Database>,
}

impl RoTransactionImpl {
    /// Snapshot the committed state of every database.
    pub(crate) fn from_snapshots(dbs: Vec<Database>) -> (r: RoTransactionImpl)
        ensures
            forall|d: DatabaseImpl|
                #![trigger r.model(d)]
                r.db_ok(d) == (d.id < dbs@.len()) && r.model(d) == (if d.id < dbs@.len() {
                    dbs@[d.id as int]@
                } else {
                    Seq::<EntryModel>::empty()
                }) && r.is_dup(d) == (d.id < dbs@.len() && dbs@[d.id as int].spec_dup_sort()),
    {
        RoTransactionImpl { dbs }
    }
}

impl BackendRoTransaction for RoTransactionImpl {
    type Database = DatabaseImpl;

    type Error = ErrorImpl;

    type Stat = StatImpl;

    closed spec fn db_ok(&self, db: DatabaseImpl) -> bool {
        db.id < self.dbs@.len()
    }

    closed spec fn model(&self, db: DatabaseImpl) -> TableModel {
        if db.id < self.dbs@.len() {
            self.dbs@[db.id as int]@
        } else {
            Seq::empty()
        }
    }

    closed spec fn is_dup(&self, db: DatabaseImpl) -> bool {
        db.id < self.dbs@.len() && self.dbs@[db.id as int].spec_dup_sort()
    }

    proof fn lemma_models_wf(&self, db: DatabaseImpl) {
        if db.id < self.dbs@.len() {
            lemma_database_view_wf(self.dbs@[db.id as int]);
        }
    }

    fn get(&self, db: &DatabaseImpl, key: &[u8]) -> (r: Result<Vec<u8>, ErrorImpl>)
        ensures
            r is Ok <==> (self.db_ok(*db) && table_lookup(self.model(*db), key@).len() > 0),
    {
        if db.id >= self.dbs.len() {
            return Err(ErrorImpl::InvalidHandle);
        }
        match self.dbs[db.id].first_value(key) {
            Some(v) => Ok(v),
            None => Err(ErrorImpl::KeyAbsent { key: clone_bytes(key) }),
        }
    }

    fn abort(self) {
    }

    fn stat(&self, db: &DatabaseImpl) -> (r: Result<StatImpl, ErrorImpl>)
        ensures
            r is Ok <==> self.db_ok(*db),
    {
        if db.id >= self.dbs.len() {
            return Err(ErrorImpl::InvalidHandle);
        }
        Ok(StatImpl { entry_count: self.dbs[db.id].pair_count() })
    }
}

impl BackendRoCursorTransaction for RoTransactionImpl {
    type RoCursor = RoCursorImpl;

    fn open_ro_cursor(&self, db: &DatabaseImpl) -> (r: Result<RoCursorImpl, ErrorImpl>)
        ensures
            r is Ok <==> self.db_ok(*db),
    {
        if db.id >= self.dbs.len() {
            return Err(ErrorImpl::InvalidHandle);
        }
        Ok(RoCursorImpl::from_db(self.dbs[db.id].snapshot()))
    }
}

/// The read-write transaction: the environment it consumed, and a working
/// copy of every database that carries its writes.
pub struct RwTransactionImpl {
    base: EnvironmentImpl,
    work: Vec<NamedDb>,
}

impl RwTransactionImpl {
    /// Begin over the given environment: the working copy starts as the
    /// committed state.
    pub(crate) fn begin(base: EnvironmentImpl, work: Vec<NamedDb>) -> (r: RwTransactionImpl)
        requires
            work@.len() == base.dbs@.len(),
            forall|i: int|
                0 <= i < work@.len() ==> (#[trigger] work@[i]).db@ == base.dbs@[i].db@
                    && work@[i].db.spec_dup_sort() == base.dbs@[i].db.spec_dup_sort(),
        ensures
            forall|d: DatabaseImpl|
                #![trigger r.model(d)]
                r.model(d) == base.committed(d) && r.base_model(d) == base.committed(d) && r.db_ok(
                    d,
                ) == base.db_ok(d) && r.is_dup(d) == base.is_dup(d),
    {
        proof {
            base.lemma_view();
        }
        RwTransactionImpl { base, work }
    }
}

impl BackendRwTransaction for RwTransactionImpl {
    type Database = DatabaseImpl;

    type Error = ErrorImpl;

    type Flags = WriteFlagsImpl;

    type Stat = StatImpl;

    type Environment = EnvironmentImpl;

    closed spec fn db_ok(&self, db: DatabaseImpl) -> bool {
        db.id < self.work@.len()
    }

    closed spec fn model(&self, db: DatabaseImpl) -> TableModel {
        if db.id < self.work@.len() {
            self.work@[db.id as int].db@
        } else {
            Seq::empty()
        }
    }

    closed spec fn base_model(&self, db: DatabaseImpl) -> TableModel {
        self.base.committed(db)
    }

    closed spec fn is_dup(&self, db: DatabaseImpl) -> bool {
        db.id < self.work@.len() && self.work@[db.id as int].db.spec_dup_sort()
    }

    proof fn lemma_models_wf(&self, db: DatabaseImpl) {
        if db.id < self.work@.len() {
            lemma_database_view_wf(self.work@[db.id as int].db);
        }
        self.base.lemma_committed_wf(db);
    }

    fn get(&self, db: &DatabaseImpl, key: &[u8]) -> (r: Result<Vec<u8>, ErrorImpl>)
        ensures
            r is Ok <==> (self.db_ok(*db) && table_lookup(self.model(*db), key@).len() > 0),
    {
        if db.id >= self.work.len() {
            return Err(ErrorImpl::InvalidHandle);
        }
        match self.work[db.id].db.first_value(key) {
            Some(v) => Ok(v),
            None => Err(ErrorImpl::KeyAbsent { key: clone_bytes(key) }),
        }
    }

    fn put(&mut self, db: &DatabaseImpl, key: &[u8], value: &[u8], flags: WriteFlagsImpl) -> (r:
        Result<(), ErrorImpl>)
        ensures
            r is Ok <==> old(self).db_ok(*db),
    {
        if db.id >= self.work.len() {
            return Err(ErrorImpl::InvalidHandle);
        }
        let mut slot = NamedDb { name: None, db: Database::new(false) };
        self.work.set_and_swap(db.id, &mut slot);
        slot.db.put(key, value, flags.allow_dup);
        self.work.set_and_swap(db.id, &mut slot);
        proof {
            assert(self.work@.len() == old(self).work@.len());
        }
        Ok(())
    }

    fn del(&mut self, db: &DatabaseImpl, key: &[u8], value: Option<&[u8]>) -> (r: Result<
        (),
        ErrorImpl,
    >)
        ensures
            r is Ok <==> (old(self).db_ok(*db) && del_target_present(
                old(self).model(*db),
                key@,
                value_view(value),
            )),
    {
        if db.id >= self.work.len() {
            return Err(ErrorImpl::InvalidHandle);
        }
        let mut slot = NamedDb { name: None, db: Database::new(false) };
        self.work.set_and_swap(db.id, &mut slot);
        let out: Result<(), ErrorImpl> = match value {
            Some(v) => {
                if slot.db.del_pair(key, v) {
                    Ok(())
                } else {
                    Err(ErrorImpl::PairAbsent { key: clone_bytes(key) })
                }
            },
            None => {
                if slot.db.del_key(key) {
                    Ok(())
                } else {
                    Err(ErrorImpl::KeyAbsent { key: clone_bytes(key) })
                }
            },
        };
        proof {
            if out is Err {
                lemma_database_view_wf(old(self).work@[db.id as int].db);
                match value {
                    Some(v) => {
                        crate::model::lemma_table_del_pair_absent(
                            old(self).model(*db),
                            key@,
                            v@,
                        );
                    },
                    None => {
                        crate::model::lemma_table_del_key_absent(old(self).model(*db), key@);
                    },
                }
            }
        }
        self.work.set_and_swap(db.id, &mut slot);
        out
    }

    fn clear_db(&mut self, db: &DatabaseImpl) -> (r: Result<(), ErrorImpl>)
        ensures
            r is Ok <==> old(self).db_ok(*db),
    {
        if db.id >= self.work.len() {
            return Err(ErrorImpl::InvalidHandle);
        }
        let mut slot = NamedDb { name: None, db: Database::new(false) };
        self.work.set_and_swap(db.id, &mut slot);
        slot.db.clear();
        self.work.set_and_swap(db.id, &mut slot);
        Ok(())
    }

    fn commit(self) -> (r: Result<EnvironmentImpl, ErrorImpl>)
        ensures
            r is Ok,
    {
        let RwTransactionImpl { base: _, work } = self;
        let env = EnvironmentImpl { dbs: work };
        proof {
            env.lemma_view();
        }
        Ok(env)
    }

    fn abort(self) -> (r: EnvironmentImpl) {
        let RwTransactionImpl { base, work: _ } = self;
        base
    }

    fn stat(&self, db: &DatabaseImpl) -> (r: Result<StatImpl, ErrorImpl>)
        ensures
            r is Ok <==> self.db_ok(*db),
    {
        if db.id >= self.work.len() {
            return Err(ErrorImpl::InvalidHandle);
        }
        Ok(StatImpl { entry_count: self.work[db.id].db.pair_count() })
    }
}

impl BackendRwCursorTransaction for RwTransactionImpl {
    type RoCursor = RoCursorImpl;

    type RwCursor = RwCursorImpl;

    fn open_ro_cursor(&self, db: &DatabaseImpl) -> (r: Result<RoCursorImpl, ErrorImpl>)
        ensures
            r is Ok <==> self.db_ok(*db),
    {
        if db.id >= self.work.len() {
            return Err(ErrorImpl::InvalidHandle);
        }
        Ok(RoCursorImpl::from_db(self.work[db.id].db.snapshot()))
    }

    fn open_ro_dup_cursor(&self, db: &DatabaseImpl) -> (r: Result<RwCursorImpl, ErrorImpl>)
        ensures
            r is Ok <==> self.db_ok(*db),
    {
        if db.id >= self.work.len() {
            return Err(ErrorImpl::InvalidHandle);
        }
        Ok(RwCursorImpl::from_db(self.work[db.id].db.snapshot()))
    }
}

/// The family token naming this engine's write-capable cursor type.  It is
/// used only at the type level, never as a value.
pub enum BackendRwCursorFamily {
    Family,
}

impl BackendRwCursorType for BackendRwCursorFamily {
    type Type = RwCursorImpl;
}

impl BackendRwDupPrevCursorTransaction for RwTransactionImpl {
    type RwCursor = BackendRwCursorFamily;
}

} // verus!
