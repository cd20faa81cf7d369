//! The in-memory environment: the named databases and the transaction entry
//! points.
//!
//! Any number of read-only transactions may begin from one environment, each
//! owning a snapshot of the committed state.  The read-write transaction
//! consumes the environment itself, so a second concurrent writer cannot be
//! expressed; commit or abort give the environment back.

use vstd::prelude::*;
use vstd::string::StringSliceAdditionalSpecFns;
use vstd::utf8::{encode_utf8, encode_utf8_decode_utf8};

use crate::backend::impl_safe::database::{clone_bytes, lemma_database_view_wf, Database, DatabaseImpl};
use crate::backend::impl_safe::error::ErrorImpl;
use crate::backend::impl_safe::flags::DatabaseFlagsImpl;
use crate::backend::impl_safe::stat::{InfoImpl, StatImpl};
use crate::backend::impl_safe::transaction::{RoTransactionImpl, RwTransactionImpl};
use crate::backend::traits::{
    name_view, BackendDatabaseFlags, BackendEnvironment, BackendError, BackendRoTransaction,
    BackendRwTransaction,
};
use crate::model::{table_wf, EntryModel, TableModel};
use crate::order::bytes_eq;

verus! {

/// One database slot: its optional name and its stored content.
pub struct NamedDb {
    pub(crate) name: Option<Vec<u8>>,
    pub(crate) db: Database,
}

/// The name a slot carries, as the model sees it.
pub(crate) open spec fn slot_name(nd: NamedDb) -> Option<Seq<u8>> {
    match nd.name {
        Some(v) => Some(v@),
        None => None,
    }
}

/// The encoded bytes of an optional database name.
pub(crate) open spec fn name_bytes(name: Option<Seq<char>>) -> Option<Seq<u8>> {
    match name {
        Some(s) => Some(encode_utf8(s)),
        None => None,
    }
}

/// The first slot carrying the given name.
pub(crate) open spec fn find_named(dbs: Seq<NamedDb>, nb: Option<Seq<u8>>) -> Option<int>
    decreases dbs.len(),
{
    if dbs.len() == 0 {
        None
    } else if slot_name(dbs[0]) == nb {
        Some(0)
    } else {
        match find_named(dbs.drop_first(), nb) {
            Some(i) => Some(i + 1),
            None => None,
        }
    }
}

/// When the first `n` slots carry other names and slot `n` matches, the
/// search finds slot `n`.
proof fn lemma_find_named_at(dbs: Seq<NamedDb>, nb: Option<Seq<u8>>, n: int)
    requires
        0 <= n < dbs.len(),
        forall|j: int| 0 <= j < n ==> slot_name(#[trigger] dbs[j]) != nb,
        slot_name(dbs[n]) == nb,
    ensures
        find_named(dbs, nb) == Some(n),
    decreases n,
{
    if n > 0 {
        assert(slot_name(dbs[0]) != nb);
        assert(dbs.drop_first()[n - 1] == dbs[n]);
        assert forall|j: int| 0 <= j < n - 1 implies slot_name(#[trigger] dbs.drop_first()[j])
            != nb by {
            assert(dbs.drop_first()[j] == dbs[j + 1]);
        }
        lemma_find_named_at(dbs.drop_first(), nb, n - 1);
    }
}

/// When no slot carries the name, the search finds nothing.
proof fn lemma_find_named_absent(dbs: Seq<NamedDb>, nb: Option<Seq<u8>>)
    requires
        forall|j: int| 0 <= j < dbs.len() ==> slot_name(#[trigger] dbs[j]) != nb,
    ensures
        find_named(dbs, nb) is None,
    decreases dbs.len(),
{
    if dbs.len() > 0 {
        assert forall|j: int| 0 <= j < dbs.drop_first().len() implies slot_name(
            #[trigger] dbs.drop_first()[j],
        ) != nb by {
            assert(dbs.drop_first()[j] == dbs[j + 1]);
        }
        lemma_find_named_absent(dbs.drop_first(), nb);
    }
}

/// Whatever the search finds is in range and carries the name.
proof fn lemma_find_named_range(dbs: Seq<NamedDb>, nb: Option<Seq<u8>>)
    ensures
        match find_named(dbs, nb) {
            Some(i) => 0 <= i < dbs.len() && slot_name(dbs[i]) == nb,
            None => true,
        },
    decreases dbs.len(),
{
    if dbs.len() > 0 {
        lemma_find_named_range(dbs.drop_first(), nb);
        if slot_name(dbs[0]) != nb {
            match find_named(dbs.drop_first(), nb) {
                Some(i) => {
                    assert(dbs.drop_first()[i] == dbs[i + 1]);
                },
                None => {
                },
            }
        }
    }
}

/// Appending one slot at the end changes the search only for its own name,
/// and only when that name was absent.
proof fn lemma_find_named_push(dbs: Seq<NamedDb>, nd: NamedDb, nb: Option<Seq<u8>>)
    ensures
        find_named(dbs.push(nd), nb) == (match find_named(dbs, nb) {
            Some(i) => Some(i),
            None => if slot_name(nd) == nb {
                Some(dbs.len() as int)
            } else {
                None
            },
        }),
    decreases dbs.len(),
{
    if dbs.len() == 0 {
        assert(dbs.push(nd)[0] == nd);
        assert(dbs.push(nd).drop_first() =~= Seq::<NamedDb>::empty());
        assert(find_named(Seq::<NamedDb>::empty(), nb) is None);
        assert(dbs.push(nd).len() == 1);
    } else {
        let l = dbs.push(nd);
        assert(l[0] == dbs[0]);
        assert(l.drop_first() =~= dbs.drop_first().push(nd));
        lemma_find_named_push(dbs.drop_first(), nd, nb);
        if slot_name(dbs[0]) == nb {
            assert(find_named(l, nb) == Some(0int));
        } else {
            assert(find_named(l, nb) == (match find_named(l.drop_first(), nb) {
                Some(i) => Some(i + 1),
                None => None,
            }));
            assert(find_named(dbs, nb) == (match find_named(dbs.drop_first(), nb) {
                Some(i) => Some(i + 1),
                None => None,
            }));
            assert(dbs.drop_first().len() == dbs.len() - 1);
        }
    }
}

/// The in-memory engine's environment: the named databases it owns.
pub struct EnvironmentImpl {
    pub(crate) dbs: Vec<NamedDb>,
}

/// An independent copy of every slot: same names, same content.
fn clone_slots(dbs: &Vec<NamedDb>) -> (r: Vec<NamedDb>)
    ensures
        r@.len() == dbs@.len(),
        forall|i: int|
            0 <= i < dbs@.len() ==> slot_name(#[trigger] r@[i]) == slot_name(dbs@[i]) && r@[i].db@
                == dbs@[i].db@ && r@[i].db.spec_dup_sort() == dbs@[i].db.spec_dup_sort(),
{
    let mut out: Vec<NamedDb> = Vec::new();
    let mut i: usize = 0;
    while i < dbs.len()
        invariant
            i <= dbs@.len(),
            out@.len() == i,
            forall|j: int|
                0 <= j < i ==> slot_name(#[trigger] out@[j]) == slot_name(dbs@[j]) && out@[j].db@
                    == dbs@[j].db@ && out@[j].db.spec_dup_sort() == dbs@[j].db.spec_dup_sort(),
        decreases dbs@.len() - i,
    {
        let name: Option<Vec<u8>> = match &dbs[i].name {
            Some(v) => Some(clone_bytes(v.as_slice())),
            None => None,
        };
        out.push(NamedDb { name, db: dbs[i].db.snapshot() });
        i += 1;
    }
    out
}

impl EnvironmentImpl {
    /// An environment with no databases yet.
    pub fn new() -> (r: EnvironmentImpl)
        ensures
            forall|d: DatabaseImpl|
                #![trigger r.committed(d)]
                !r.db_ok(d) && r.committed(d) == Seq::<EntryModel>::empty(),
            forall|nm: Option<Seq<char>>| (#[trigger] r.named_db(nm)) is None,
    {
        let r = EnvironmentImpl { dbs: Vec::new() };
        proof {
            assert forall|nm: Option<Seq<char>>| (#[trigger] r.named_db(nm)) is None by {
                assert(find_named(r.dbs@, name_bytes(nm)) is None);
            }
        }
        r
    }

    /// How the model functions read the slots; for the sibling transaction
    /// module, whose working copies must line up with them.
    pub(crate) proof fn lemma_view(&self)
        ensures
            forall|d: DatabaseImpl|
                #![trigger self.committed(d)]
                #![trigger self.db_ok(d)]
                #![trigger self.is_dup(d)]
                self.committed(d) == (if d.id < self.dbs@.len() {
                    self.dbs@[d.id as int].db@
                } else {
                    Seq::<EntryModel>::empty()
                }) && self.db_ok(d) == (d.id < self.dbs@.len()) && self.is_dup(d) == (d.id
                    < self.dbs@.len() && self.dbs@[d.id as int].db.spec_dup_sort()),
    {
    }

    /// The slot the name denotes, by scanning the slots in order.
    fn find_slot(&self, name: Option<&str>) -> (r: Option<usize>)
        ensures
            match r {
                Some(i) => find_named(self.dbs@, name_bytes(name_view(name))) == Some(i as int),
                None => find_named(self.dbs@, name_bytes(name_view(name))) is None,
            },
    {
        let ghost nb = name_bytes(name_view(name));
        let mut i: usize = 0;
        while i < self.dbs.len()
            invariant
                i <= self.dbs@.len(),
                nb == name_bytes(name_view(name)),
                forall|j: int| 0 <= j < i ==> slot_name(#[trigger] self.dbs@[j]) != nb,
            decreases self.dbs@.len() - i,
        {
            let hit: bool = match (&self.dbs[i].name, name) {
                (Some(a), Some(b)) => bytes_eq(a.as_slice(), b.as_bytes()),
                (None, None) => true,
                _ => false,
            };
            if hit {
                proof {
                    lemma_find_named_at(self.dbs@, nb, i as int);
                }
                return Some(i);
            }
            i += 1;
        }
        proof {
            lemma_find_named_absent(self.dbs@, nb);
        }
        None
    }

    /// Begin a read-only transaction: a snapshot of every database exactly as
    /// committed now.  Later commits are invisible to it.  Infallible for
    /// this engine.
    pub fn begin_ro_txn(&self) -> (r: Result<RoTransactionImpl, ErrorImpl>)
        ensures
            r is Ok,
            match r {
                Ok(txn) => forall|d: DatabaseImpl|
                    #![trigger txn.model(d)]
                    txn.model(d) == self.committed(d) && txn.db_ok(d) == self.db_ok(d)
                        && txn.is_dup(d) == self.is_dup(d),
                Err(e) => !e.is_not_found(),
            },
    {
        let mut snaps: Vec<Database> = Vec::new();
        let mut i: usize = 0;
        while i < self.dbs.len()
            invariant
                i <= self.dbs@.len(),
                snaps@.len() == i,
                forall|j: int|
                    0 <= j < i ==> (#[trigger] snaps@[j])@ == self.dbs@[j].db@
                        && snaps@[j].spec_dup_sort() == self.dbs@[j].db.spec_dup_sort(),
            decreases self.dbs@.len() - i,
        {
            snaps.push(self.dbs[i].db.snapshot());
            i += 1;
        }
        Ok(RoTransactionImpl::from_snapshots(snaps))
    }

    /// Begin the read-write transaction, consuming the environment: at most
    /// one writer is live per environment at any instant, and — since the
    /// writer owns the environment — no new reader can begin while it is
    /// live; readers begun earlier keep their snapshots.  Cross-thread
    /// interleaving of readers and one writer is outside this single-owner
    /// model.  Infallible for this engine.
    pub fn begin_rw_txn(self) -> (r: Result<RwTransactionImpl, ErrorImpl>)
        ensures
            r is Ok,
            match r {
                Ok(txn) => forall|d: DatabaseImpl|
                    #![trigger txn.model(d)]
                    txn.model(d) == self.committed(d) && txn.base_model(d) == self.committed(d)
                        && txn.db_ok(d) == self.db_ok(d) && txn.is_dup(d) == self.is_dup(d),
                Err(e) => !e.is_not_found(),
            },
    {
        let work = clone_slots(&self.dbs);
        Ok(RwTransactionImpl::begin(self, work))
    }
}

impl EnvironmentImpl {
    /// Housekeeping numbers.  The in-memory engine has no map, no pages and
    /// no reader table, so every number is zero.
    pub fn info(&self) -> InfoImpl {
        InfoImpl {}
    }
}

impl BackendEnvironment for EnvironmentImpl {
    type Error = ErrorImpl;

    type Database = DatabaseImpl;

    type Flags = DatabaseFlagsImpl;

    type Stat = StatImpl;

    type Info = InfoImpl;

    closed spec fn committed(&self, db: DatabaseImpl) -> TableModel {
        if db.id < self.dbs@.len() {
            self.dbs@[db.id as int].db@
        } else {
            Seq::empty()
        }
    }

    closed spec fn db_ok(&self, db: DatabaseImpl) -> bool {
        db.id < self.dbs@.len()
    }

    closed spec fn is_dup(&self, db: DatabaseImpl) -> bool {
        db.id < self.dbs@.len() && self.dbs@[db.id as int].db.spec_dup_sort()
    }

    closed spec fn named_db(&self, name: Option<Seq<char>>) -> Option<DatabaseImpl> {
        match find_named(self.dbs@, name_bytes(name)) {
            Some(i) => Some(DatabaseImpl { id: i as usize }),
            None => None,
        }
    }

    proof fn lemma_committed_wf(&self, db: DatabaseImpl) {
        if db.id < self.dbs@.len() {
            lemma_database_view_wf(self.dbs@[db.id as int].db);
        }
    }

    fn open_db(&self, name: Option<&str>) -> (r: Result<DatabaseImpl, ErrorImpl>)
        ensures
            r is Ok <==> self.named_db(name_view(name)) is Some,
    {
        proof {
            lemma_find_named_range(self.dbs@, name_bytes(name_view(name)));
        }
        match self.find_slot(name) {
            Some(i) => {
                proof {
                    assert(find_named(self.dbs@, name_bytes(name_view(name))) == Some(i as int));
                    assert(self.named_db(name_view(name)) == Some(DatabaseImpl { id: i }));
                }
                Ok(DatabaseImpl { id: i })
            },
            None => {
                proof {
                    assert((ErrorImpl::DbAbsent).is_not_found());
                }
                Err(ErrorImpl::DbAbsent)
            },
        }
    }

    fn create_db(&mut self, name: Option<&str>, flags: DatabaseFlagsImpl) -> (r: Result<
        DatabaseImpl,
        ErrorImpl,
    >)
        ensures
            r is Ok,
    {
        proof {
            lemma_find_named_range(self.dbs@, name_bytes(name_view(name)));
        }
        match self.find_slot(name) {
            Some(i) => {
                proof {
                    assert(find_named(self.dbs@, name_bytes(name_view(name))) == Some(i as int));
                    assert(self.named_db(name_view(name)) == Some(DatabaseImpl { id: i }));
                }
                Ok(DatabaseImpl { id: i })
            },
            None => {
                let id = self.dbs.len();
                let stored: Option<Vec<u8>> = match name {
                    Some(s) => Some(clone_bytes(s.as_bytes())),
                    None => None,
                };
                let nd = NamedDb { name: stored, db: Database::new(flags.dup_sort) };
                let ghost dbs0 = self.dbs@;
                let ghost ndg = nd;
                proof {
                    assert(slot_name(ndg) == name_bytes(name_view(name)));
                    assert(ndg.db.spec_dup_sort() == flags.spec_dup_sort());
                }
                self.dbs.push(nd);
                proof {
                    lemma_find_named_push(dbs0, ndg, name_bytes(name_view(name)));
                    assert(self.dbs@[id as int] == ndg);
                    assert forall|nm: Option<Seq<char>>| nm != name_view(name) implies #[trigger] self.named_db(
                        nm,
                    ) == old(self).named_db(nm) by {
                        lemma_find_named_push(dbs0, ndg, name_bytes(nm));
                        if slot_name(ndg) == name_bytes(nm) {
                            match (nm, name_view(name)) {
                                (Some(s1), Some(s2)) => {
                                    encode_utf8_decode_utf8(s1);
                                    encode_utf8_decode_utf8(s2);
                                    assert(s1 == s2);
                                },
                                _ => {
                                },
                            }
                        }
                    }
                }
                Ok(DatabaseImpl { id })
            },
        }
    }

    fn sync(&self, force: bool) -> (r: Result<(), ErrorImpl>)
        ensures
            r is Ok,
    {
        Ok(())
    }
}

} // verus!
