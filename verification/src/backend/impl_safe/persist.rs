//! Dump and restore: the persistence seam of the in-memory engine.
//!
//! An environment dumps to plain values — per database its name, its shape
//! and its flat `(key, value)` pairs in stored order — and restores from
//! them.  Where those plain values rest between sessions (a file, a socket)
//! is the embedding application's business; the engine guarantees, by
//! [`crate::model::lemma_table_from_pairs_id`], that restoring a dump
//! reproduces every table exactly.

use vstd::prelude::*;

use crate::backend::impl_safe::database::{
    clone_bytes, pairs_view, Database, DatabaseImpl,
};
use crate::backend::impl_safe::environment::{EnvironmentImpl, NamedDb};
use crate::backend::traits::BackendEnvironment;
use crate::model::{table_flat, table_from_pairs};

verus! {

/// One dumped database: its optional name, its shape, and every stored
/// `(key, value)` pair, ascending by key then value.
pub struct TableDump {
    pub name: Option<Vec<u8>>,
    pub dup_sort: bool,
    pub pairs: Vec<(Vec<u8>, Vec<u8>)>,
}

/// Dump every database of the environment: slot `i` of the result carries the
/// flat pairs of database handle `i`, in stored order.
pub fn dump(env: &EnvironmentImpl) -> (r: Vec<TableDump>)
    ensures
        forall|i: usize|
            env.db_ok(DatabaseImpl { id: i }) <==> (i as int) < r@.len(),
        forall|i: usize|
            (i as int) < r@.len() ==> pairs_view((#[trigger] r@[i as int]).pairs@) == table_flat(
                env.committed(DatabaseImpl { id: i }),
            ) && r@[i as int].dup_sort == env.is_dup(DatabaseImpl { id: i }),
{
    proof {
        env.lemma_view();
    }
    let mut out: Vec<TableDump> = Vec::new();
    let mut i: usize = 0;
    while i < env.dbs.len()
        invariant
            i <= env.dbs@.len(),
            out@.len() == i,
            forall|j: int|
                0 <= j < i ==> pairs_view((#[trigger] out@[j]).pairs@) == table_flat(
                    env.dbs@[j].db@,
                ) && out@[j].dup_sort == env.dbs@[j].db.spec_dup_sort(),
        decreases env.dbs@.len() - i,
    {
        let name: Option<Vec<u8>> = match &env.dbs[i].name {
            Some(v) => Some(clone_bytes(v.as_slice())),
            None => None,
        };
        let td = TableDump {
            name,
            dup_sort: env.dbs[i].db.dup_sort(),
            pairs: env.dbs[i].db.pairs_ascending(),
        };
        out.push(td);
        i += 1;
    }
    proof {
        env.lemma_view();
    }
    out
}

/// Restore an environment from dumped tables: database handle `i` holds
/// exactly the table the pairs of slot `i` build, under slot `i`'s shape.
/// Restoring what [`dump`] produced reproduces every committed table.
pub fn restore(dumps: &Vec<TableDump>) -> (r: EnvironmentImpl)
    ensures
        forall|i: usize|
            r.db_ok(DatabaseImpl { id: i }) <==> (i as int) < dumps@.len(),
        forall|i: usize|
            (i as int) < dumps@.len() ==> #[trigger] r.committed(DatabaseImpl { id: i })
                == table_from_pairs(pairs_view(dumps@[i as int].pairs@)) && r.is_dup(
                DatabaseImpl { id: i },
            ) == dumps@[i as int].dup_sort,
{
    let mut slots: Vec<NamedDb> = Vec::new();
    let mut i: usize = 0;
    while i < dumps.len()
        invariant
            i <= dumps@.len(),
            slots@.len() == i,
            forall|j: int|
                0 <= j < i ==> (#[trigger] slots@[j]).db@ == table_from_pairs(
                    pairs_view(dumps@[j].pairs@),
                ) && slots@[j].db.spec_dup_sort() == dumps@[j].dup_sort,
        decreases dumps@.len() - i,
    {
        let td = &dumps[i];
        let mut d = Database::new(true);
        let mut j: usize = 0;
        while j < td.pairs.len()
            invariant
                j <= td.pairs@.len(),
                d@ == table_from_pairs(pairs_view(td.pairs@).take(j as int)),
                d.spec_dup_sort(),
            decreases td.pairs@.len() - j,
        {
            d.put(td.pairs[j].0.as_slice(), td.pairs[j].1.as_slice(), true);
            proof {
                let ps = pairs_view(td.pairs@);
                assert(ps.take(j + 1).drop_last() =~= ps.take(j as int));
                assert(ps.take(j + 1).last() == ps[j as int]);
            }
            j += 1;
        }
        proof {
            assert(pairs_view(td.pairs@).take(td.pairs@.len() as int) =~= pairs_view(td.pairs@));
        }
        let name: Option<Vec<u8>> = match &td.name {
            Some(v) => Some(clone_bytes(v.as_slice())),
            None => None,
        };
        slots.push(NamedDb { name, db: d.into_shape(td.dup_sort) });
        i += 1;
    }
    let env = EnvironmentImpl { dbs: slots };
    proof {
        env.lemma_view();
    }
    env
}

} // verus!
