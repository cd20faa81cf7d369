//! The stored content of one in-memory database.
//!
//! A [`Database`] keeps its entries sorted by key and each duplicate run
//! sorted by value, exactly as the table model demands; the sort order is a
//! property of the stored data itself, so it survives serialisation and a
//! fresh process.  Every operation is verified against the model functions of
//! [`crate::model`].

use vstd::prelude::*;

use crate::backend::traits::BackendDatabase;
use crate::model::{
    entry_pairs, entry_wf, lemma_keys_above, lemma_lookup_after, lemma_lookup_at, lemma_run_absent,
    lemma_run_insert_noop, lemma_run_insert_skip, lemma_run_remove_skip, lemma_table_at_or_below_take,
    lemma_table_del_key_absent, lemma_table_del_key_skip, lemma_table_del_key_wf,
    lemma_table_del_pair_absent, lemma_table_del_pair_skip, lemma_table_del_pair_wf,
    lemma_table_flat_snoc, lemma_table_from_skip, lemma_table_put_skip, lemma_table_put_wf, lemma_table_replace_skip,
    lemma_table_replace_wf, prev_dup_groups, run_insert,
    run_remove_one, table_at_or_below, table_del_key, table_del_pair, table_flat, table_from,
    run_sorted, table_has_key, table_lookup, table_put, table_replace, table_wf, EntryModel,
    TableModel,
};
use crate::order::{
    bytes_eq, lemma_lex_asym, lemma_lex_irrefl, lemma_lex_trans, lemma_lex_trichotomy, lex_compare,
    lex_le, lex_lt, BytesOrder,
};

verus! {

/// A handle naming one database of an in-memory environment: its slot index.
#[derive(Debug, PartialEq, Eq, Copy, Clone)]
pub struct DatabaseImpl {
    pub id: usize,
}

impl BackendDatabase for DatabaseImpl {

}

/// One key and the run of values stored under it.
pub struct TableEntry {
    pub key: Vec<u8>,
    pub vals: Vec<Vec<u8>>,
}

/// The model image of one run of values.
pub open spec fn runs_view(vals: Seq<Vec<u8>>) -> Seq<Seq<u8>> {
    Seq::new(vals.len(), |i: int| vals[i]@)
}

/// The model image of a sequence of `(key, value)` pairs.
pub open spec fn pairs_view(s: Seq<(Vec<u8>, Vec<u8>)>) -> Seq<(Seq<u8>, Seq<u8>)> {
    Seq::new(s.len(), |i: int| (s[i].0@, s[i].1@))
}

/// The model image of a sequence of `(key, run)` groups.
pub open spec fn groups_view(s: Seq<(Vec<u8>, Vec<Vec<u8>>)>) -> TableModel {
    Seq::new(s.len(), |i: int| (s[i].0@, runs_view(s[i].1@)))
}

impl View for TableEntry {
    type V = EntryModel;

    open spec fn view(&self) -> EntryModel {
        (self.key@, runs_view(self.vals@))
    }
}

/// The stored content of one database: entries ascending by key, runs
/// ascending by value, every run non-empty.
pub struct Database {
    entries: Vec<TableEntry>,
    dup: bool,
}

impl View for Database {
    type V = TableModel;

    closed spec fn view(&self) -> TableModel {
        if table_wf(entries_view(self.entries@)) {
            entries_view(self.entries@)
        } else {
            Seq::empty()
        }
    }
}

/// Whatever value a `Database` holds, its view is a well-formed table: the
/// stored entries are kept well-formed, and the view of anything else is the
/// empty table.
pub broadcast proof fn lemma_database_view_wf(db: Database)
    ensures
        table_wf(#[trigger] db@),
{
    if !table_wf(entries_view(db.entries@)) {
        assert(table_wf(Seq::<EntryModel>::empty()));
    }
}

/// Copy one byte string.
pub fn clone_bytes(v: &[u8]) -> (r: Vec<u8>)
    ensures
        r@ == v@,
{
    let mut r: Vec<u8> = Vec::new();
    let mut i: usize = 0;
    while i < v.len()
        invariant
            i <= v@.len(),
            r@ == v@.take(i as int),
        decreases v@.len() - i,
    {
        r.push(v[i]);
        proof {
            assert(v@.take(i + 1) =~= v@.take(i as int).push(v@[i as int]));
        }
        i += 1;
    }
    proof {
        assert(v@.take(v@.len() as int) =~= v@);
    }
    r
}

/// Copy one run of values.
pub fn clone_run(vals: &Vec<Vec<u8>>) -> (r: Vec<Vec<u8>>)
    ensures
        runs_view(r@) == runs_view(vals@),
{
    let mut r: Vec<Vec<u8>> = Vec::new();
    let mut i: usize = 0;
    while i < vals.len()
        invariant
            i <= vals@.len(),
            r@.len() == i,
            runs_view(r@) == runs_view(vals@).take(i as int),
        decreases vals@.len() - i,
    {
        let ghost prev = r@;
        r.push(clone_bytes(vals[i].as_slice()));
        proof {
            assert forall|m: int| 0 <= m < i + 1 implies runs_view(r@)[m] == runs_view(
                vals@,
            ).take(i + 1)[m] by {
                if m < i {
                    assert(r@[m] == prev[m]);
                    assert(runs_view(prev)[m] == runs_view(vals@).take(i as int)[m]);
                }
            }
            assert(runs_view(r@) =~= runs_view(vals@).take(i + 1));
        }
        i += 1;
    }
    proof {
        assert(runs_view(vals@).take(vals@.len() as int) =~= runs_view(vals@));
    }
    r
}

/// The first position whose key is at or after `key`: insertion point of
/// `key` among the sorted entries.
fn find_key(entries: &Vec<TableEntry>, key: &[u8]) -> (r: usize)
    ensures
        r <= entries@.len(),
        forall|j: int| 0 <= j < r ==> lex_lt((#[trigger] entries@[j])@.0, key@),
        r < entries@.len() ==> !lex_lt(entries@[r as int]@.0, key@),
{
    let mut i: usize = 0;
    while i < entries.len()
        invariant
            i <= entries@.len(),
            forall|j: int| 0 <= j < i ==> lex_lt((#[trigger] entries@[j])@.0, key@),
        decreases entries@.len() - i,
    {
        match lex_compare(entries[i].key.as_slice(), key) {
            BytesOrder::Less => {
                i += 1;
            },
            BytesOrder::Equal => {
                proof {
                    lemma_lex_irrefl(key@);
                }
                return i;
            },
            BytesOrder::Greater => {
                proof {
                    lemma_lex_asym(key@, entries@[i as int]@.0);
                }
                return i;
            },
        }
    }
    i
}

/// The first position in a sorted run whose value is at or after `value`.
fn find_val(vals: &Vec<Vec<u8>>, value: &[u8]) -> (r: usize)
    ensures
        r <= vals@.len(),
        forall|j: int| 0 <= j < r ==> lex_lt(#[trigger] runs_view(vals@)[j], value@),
        r < vals@.len() ==> !lex_lt(runs_view(vals@)[r as int], value@),
{
    let mut i: usize = 0;
    while i < vals.len()
        invariant
            i <= vals@.len(),
            forall|j: int| 0 <= j < i ==> lex_lt(#[trigger] runs_view(vals@)[j], value@),
        decreases vals@.len() - i,
    {
        match lex_compare(vals[i].as_slice(), value) {
            BytesOrder::Less => {
                i += 1;
            },
            BytesOrder::Equal => {
                proof {
                    lemma_lex_irrefl(value@);
                }
                return i;
            },
            BytesOrder::Greater => {
                proof {
                    lemma_lex_asym(value@, runs_view(vals@)[i as int]);
                }
                return i;
            },
        }
    }
    i
}

/// The keys of the first `n` entries differ from a key they are all
/// lexicographically below.
proof fn lemma_prefix_keys_differ(t: TableModel, key: Seq<u8>, n: int)
    requires
        0 <= n <= t.len(),
        forall|j: int| 0 <= j < n ==> lex_lt((#[trigger] t[j]).0, key),
    ensures
        forall|j: int| 0 <= j < n ==> (#[trigger] t[j]).0 != key,
{
    assert forall|j: int| 0 <= j < n implies (#[trigger] t[j]).0 != key by {
        lemma_lex_irrefl(key);
        if t[j].0 == key {
            assert(lex_lt(key, key));
        }
    }
}

/// When the scan stopped at `n` without an exact match, the key is absent.
proof fn lemma_key_absent_at(t: TableModel, key: Seq<u8>, n: int)
    requires
        table_wf(t),
        0 <= n <= t.len(),
        forall|j: int| 0 <= j < n ==> lex_lt((#[trigger] t[j]).0, key),
        n < t.len() ==> !lex_lt(t[n].0, key) && t[n].0 != key,
    ensures
        table_lookup(t, key) == Seq::<Seq<u8>>::empty(),
        !table_has_key(t, key),
        n < t.len() ==> lex_lt(key, t[n].0),
{
    if n < t.len() {
        lemma_lex_trichotomy(key, t[n].0);
    }
    lemma_lookup_after(t, key, n);
}

/// The model image of a sequence of stored entries.
pub open spec fn entries_view(es: Seq<TableEntry>) -> TableModel {
    Seq::new(es.len(), |i: int| es[i]@)
}

impl Database {
    /// Whether this database stores many values per key.
    pub closed spec fn spec_dup_sort(&self) -> bool {
        self.dup
    }

    /// Read the shape flag.
    pub fn dup_sort(&self) -> (r: bool)
        ensures
            r == self.spec_dup_sort(),
    {
        self.dup
    }

    #[verifier::type_invariant]
    spec fn inv(self) -> bool {
        table_wf(entries_view(self.entries@))
    }

    /// An empty database of the given shape.
    pub fn new(dup_sort: bool) -> (r: Database)
        ensures
            r@ == Seq::<EntryModel>::empty(),
            r.spec_dup_sort() == dup_sort,
    {
        let r = Database { entries: Vec::new(), dup: dup_sort };
        proof {
            assert(r@ =~= Seq::<EntryModel>::empty());
        }
        r
    }

    /// An independent copy: same content, same shape.
    pub fn snapshot(&self) -> (r: Database)
        ensures
            r@ == self@,
            r.spec_dup_sort() == self.spec_dup_sort(),
    {
        proof {
            use_type_invariant(&*self);
        }
        let mut es: Vec<TableEntry> = Vec::new();
        let mut i: usize = 0;
        while i < self.entries.len()
            invariant
                i <= self.entries@.len(),
                es@.len() == i,
                forall|j: int| 0 <= j < i ==> (#[trigger] es@[j])@ == self.entries@[j]@,
            decreases self.entries@.len() - i,
        {
            let e = TableEntry {
                key: clone_bytes(self.entries[i].key.as_slice()),
                vals: clone_run(&self.entries[i].vals),
            };
            es.push(e);
            i += 1;
        }
        proof {
            assert(Seq::new(es@.len(), |i: int| es@[i]@) =~= self@);
        }
        let r = Database { entries: es, dup: self.dup };
        proof {
            assert(r@ =~= self@);
        }
        r
    }

    /// The run of values stored under `key`, lowest first; empty when the key
    /// is absent.
    pub fn get_run(&self, key: &[u8]) -> (r: Vec<Vec<u8>>)
        ensures
            runs_view(r@) == table_lookup(self@, key@),
    {
        proof {
            use_type_invariant(&*self);
        }
        let i = find_key(&self.entries, key);
        if i < self.entries.len() && bytes_eq(self.entries[i].key.as_slice(), key) {
            proof {
                lemma_prefix_keys_differ(self@, key@, i as int);
                lemma_lookup_at(self@, key@, i as int);
            }
            clone_run(&self.entries[i].vals)
        } else {
            proof {
                lemma_key_absent_at(self@, key@, i as int);
                assert(runs_view(Seq::<Vec<u8>>::empty()) =~= Seq::<Seq<u8>>::empty());
            }
            Vec::new()
        }
    }

    /// The first (lowest) value stored under `key`.
    pub fn first_value(&self, key: &[u8]) -> (r: Option<Vec<u8>>)
        ensures
            match r {
                Some(v) => table_lookup(self@, key@).len() > 0 && v@ == table_lookup(
                    self@,
                    key@,
                )[0],
                None => table_lookup(self@, key@).len() == 0,
            },
    {
        proof {
            use_type_invariant(&*self);
        }
        let i = find_key(&self.entries, key);
        if i < self.entries.len() && bytes_eq(self.entries[i].key.as_slice(), key) {
            proof {
                lemma_prefix_keys_differ(self@, key@, i as int);
                lemma_lookup_at(self@, key@, i as int);
                assert(self@[i as int].1.len() > 0);
            }
            Some(clone_bytes(self.entries[i].vals[0].as_slice()))
        } else {
            proof {
                lemma_key_absent_at(self@, key@, i as int);
            }
            None
        }
    }

    /// Store `(key, value)`.  A duplicate-sorted database inserts the value
    /// at its place in `key`'s run — idempotently, unless `allow_dup` asks for
    /// an independent copy; a plain database overwrites.
    pub fn put(&mut self, key: &[u8], value: &[u8], allow_dup: bool)
        ensures
            final(self)@ == if old(self).spec_dup_sort() {
                table_put(old(self)@, key@, value@, allow_dup)
            } else {
                table_replace(old(self)@, key@, value@)
            },
            final(self).spec_dup_sort() == old(self).spec_dup_sort(),
    {
        proof {
            use_type_invariant(&*self);
        }
        let ghost t0 = self@;
        let is_dup = self.dup;
        let mut es: Vec<TableEntry> = Vec::new();
        core::mem::swap(&mut es, &mut self.entries);
        let ghost goal = if is_dup {
            table_put(t0, key@, value@, allow_dup)
        } else {
            table_replace(t0, key@, value@)
        };
        let i = find_key(&es, key);
        proof {
            lemma_lex_irrefl(key@);
            if is_dup {
                lemma_table_put_skip(t0, key@, value@, allow_dup, i as int);
            } else {
                lemma_table_replace_skip(t0, key@, value@, i as int);
            }
        }
        if i < es.len() && bytes_eq(es[i].key.as_slice(), key) {
            let ghost run0 = t0[i as int].1;
            proof {
                assert(t0[i as int].0 == key@);
                assert(t0.skip(i as int)[0] == t0[i as int]);
                assert(t0.skip(i as int).drop_first() =~= t0.skip(i + 1));
                if is_dup {
                    assert(table_put(t0.skip(i as int), key@, value@, allow_dup) == seq![
                        (key@, run_insert(run0, value@, allow_dup)),
                    ] + t0.skip(i + 1));
                } else {
                    assert(table_replace(t0.skip(i as int), key@, value@) == seq![
                        (key@, seq![value@]),
                    ] + t0.skip(i + 1));
                }
            }
            let mut entry = TableEntry { key: Vec::new(), vals: Vec::new() };
            es.set_and_swap(i, &mut entry);
            proof {
                assert(entry@ == t0[i as int]);
                assert(entry_wf(t0[i as int]));
            }
            if is_dup {
                let p = find_val(&entry.vals, value);
                proof {
                    lemma_run_insert_skip(run0, value@, allow_dup, p as int);
                }
                let hit = p < entry.vals.len() && bytes_eq(entry.vals[p].as_slice(), value);
                if hit && !allow_dup {
                    proof {
                        assert(run0[p as int] == value@);
                        assert(run0.contains(value@));
                        lemma_run_insert_noop(run0, value@);
                    }
                } else {
                    let ghost vals0 = entry.vals@;
                    entry.vals.insert(p, clone_bytes(value));
                    proof {
                        lemma_lex_irrefl(value@);
                        if p < run0.len() {
                            lemma_lex_trichotomy(value@, run0[p as int]);
                        }
                        vals0.insert_ensures(p as int, entry.vals@[p as int]);
                        assert forall|m: int|
                            0 <= m < runs_view(entry.vals@).len() implies runs_view(entry.vals@)[m]
                            == (run0.take(p as int) + seq![value@] + run0.skip(p as int))[m] by {
                            if m < p {
                                assert(entry.vals@[m] == vals0[m]);
                            } else if m > p {
                                assert(entry.vals@[m] == vals0[m - 1]);
                            }
                        }
                        assert(runs_view(entry.vals@) =~= run0.take(p as int) + seq![value@]
                            + run0.skip(p as int));
                        if p < run0.len() {
                            assert(run0.skip(p as int)[0] == run0[p as int]);
                            assert(run_insert(run0.skip(p as int), value@, allow_dup) == seq![
                                value@,
                            ] + run0.skip(p as int));
                        } else {
                            assert(run0.skip(p as int).len() == 0);
                            assert(run_insert(run0.skip(p as int), value@, allow_dup) =~= seq![
                                value@,
                            ] + run0.skip(p as int));
                        }
                        assert(run_insert(run0, value@, allow_dup) == runs_view(entry.vals@));
                    }
                }
            } else {
                let mut nv: Vec<Vec<u8>> = Vec::new();
                nv.push(clone_bytes(value));
                entry.vals = nv;
                proof {
                    assert(runs_view(entry.vals@) =~= seq![value@]);
                }
            }
            es.set_and_swap(i, &mut entry);
            proof {
                assert(entries_view(es@) =~= goal);
            }
        } else {
            proof {
                if i < es@.len() {
                    lemma_lex_trichotomy(key@, t0[i as int].0);
                    assert(lex_lt(key@, t0.skip(i as int)[0].0));
                    if is_dup {
                        assert(table_put(t0.skip(i as int), key@, value@, allow_dup) == seq![
                            (key@, seq![value@]),
                        ] + t0.skip(i as int));
                    } else {
                        assert(table_replace(t0.skip(i as int), key@, value@) == seq![
                            (key@, seq![value@]),
                        ] + t0.skip(i as int));
                    }
                } else {
                    assert(t0.skip(i as int).len() == 0);
                    assert(seq![(key@, seq![value@])] + t0.skip(i as int) =~= seq![
                        (key@, seq![value@]),
                    ]);
                }
            }
            let mut nv: Vec<Vec<u8>> = Vec::new();
            nv.push(clone_bytes(value));
            let ne = TableEntry { key: clone_bytes(key), vals: nv };
            let ghost es0 = es@;
            es.insert(i, ne);
            proof {
                es0.insert_ensures(i as int, es@[i as int]);
                assert(runs_view(es@[i as int].vals@) =~= seq![value@]);
                assert forall|m: int| 0 <= m < entries_view(es@).len() implies entries_view(es@)[m]
                    == goal[m] by {
                    if m < i {
                        assert(es@[m] == es0[m]);
                    } else if m > i {
                        assert(es@[m] == es0[m - 1]);
                        assert(t0.skip(i as int)[m - 1 - i] == t0[m - 1]);
                    }
                }
                assert(entries_view(es@) =~= goal);
            }
        }
        proof {
            if is_dup {
                lemma_table_put_wf(t0, key@, value@, allow_dup);
            } else {
                lemma_table_replace_wf(t0, key@, value@);
            }
        }
        self.entries = es;
    }

    /// Remove exactly one occurrence of `(key, value)`.  Reports whether the
    /// pair was present; an absent pair leaves the table unchanged.
    pub fn del_pair(&mut self, key: &[u8], value: &[u8]) -> (found: bool)
        ensures
            found == table_lookup(old(self)@, key@).contains(value@),
            final(self)@ == table_del_pair(old(self)@, key@, value@),
            final(self).spec_dup_sort() == old(self).spec_dup_sort(),
    {
        proof {
            use_type_invariant(&*self);
        }
        let ghost t0 = self@;
        let mut es: Vec<TableEntry> = Vec::new();
        core::mem::swap(&mut es, &mut self.entries);
        let ghost goal = table_del_pair(t0, key@, value@);
        let i = find_key(&es, key);
        proof {
            lemma_prefix_keys_differ(t0, key@, i as int);
            lemma_table_del_pair_skip(t0, key@, value@, i as int);
            lemma_table_del_pair_wf(t0, key@, value@);
        }
        let found: bool;
        if i < es.len() && bytes_eq(es[i].key.as_slice(), key) {
            let ghost run0 = t0[i as int].1;
            proof {
                assert(t0[i as int].0 == key@);
                assert(t0.skip(i as int)[0] == t0[i as int]);
                assert(t0.skip(i as int).drop_first() =~= t0.skip(i + 1));
                lemma_lookup_at(t0, key@, i as int);
                assert(entry_wf(t0[i as int]));
            }
            let mut entry = TableEntry { key: Vec::new(), vals: Vec::new() };
            es.set_and_swap(i, &mut entry);
            let p = find_val(&entry.vals, value);
            proof {
                assert forall|j: int| 0 <= j < p implies #[trigger] run0[j] != value@ by {
                    lemma_lex_irrefl(value@);
                    if run0[j] == value@ {
                        assert(lex_lt(value@, value@));
                    }
                }
                lemma_run_remove_skip(run0, value@, p as int);
            }
            if p < entry.vals.len() && bytes_eq(entry.vals[p].as_slice(), value) {
                found = true;
                proof {
                    assert(run0[p as int] == value@);
                    assert(run0.contains(value@));
                    assert(run0.skip(p as int)[0] == value@);
                    assert(run0.skip(p as int).drop_first() =~= run0.skip(p + 1));
                    assert(run_remove_one(run0, value@) =~= run0.take(p as int) + run0.skip(
                        p + 1,
                    ));
                }
                if entry.vals.len() == 1 {
                    proof {
                        assert(run_remove_one(run0, value@).len() == 0);
                        assert(goal == t0.take(i as int) + t0.skip(i + 1));
                    }
                    let ghost es0 = es@;
                    let _removed = es.remove(i);
                    proof {
                        es0.remove_ensures(i as int);
                        assert forall|m: int|
                            0 <= m < entries_view(es@).len() implies entries_view(es@)[m]
                            == goal[m] by {
                            if m < i {
                                assert(es@[m] == es0[m]);
                            } else {
                                assert(es@[m] == es0[m + 1]);
                                assert(t0.skip(i + 1)[m - i] == t0[m + 1]);
                            }
                        }
                        assert(entries_view(es@) =~= goal);
                    }
                } else {
                    let ghost vals0 = entry.vals@;
                    let _removed_value = entry.vals.remove(p);
                    proof {
                        vals0.remove_ensures(p as int);
                        assert forall|m: int|
                            0 <= m < runs_view(entry.vals@).len() implies runs_view(
                            entry.vals@,
                        )[m] == run_remove_one(run0, value@)[m] by {
                            if m < p {
                                assert(entry.vals@[m] == vals0[m]);
                            } else {
                                assert(entry.vals@[m] == vals0[m + 1]);
                                assert(run0.skip(p + 1)[m - p] == run0[m + 1]);
                            }
                        }
                        assert(runs_view(entry.vals@) =~= run_remove_one(run0, value@));
                        assert(run_remove_one(run0, value@).len() > 0);
                        assert(table_del_pair(t0.skip(i as int), key@, value@) == seq![
                            (key@, run_remove_one(run0, value@)),
                        ] + t0.skip(i + 1));
                    }
                    es.set_and_swap(i, &mut entry);
                    proof {
                        assert(entries_view(es@) =~= goal);
                    }
                }
            } else {
                found = false;
                proof {
                    if p < entry.vals.len() {
                        lemma_lex_trichotomy(value@, run0[p as int]);
                    }
                    assert(run_sorted(run0));
                    lemma_run_absent(run0, value@, p as int);
                    lemma_table_del_pair_absent(t0, key@, value@);
                }
                es.set_and_swap(i, &mut entry);
                proof {
                    assert(entries_view(es@) =~= t0);
                }
            }
        } else {
            found = false;
            proof {
                lemma_key_absent_at(t0, key@, i as int);
                lemma_table_del_pair_absent(t0, key@, value@);
                assert(entries_view(es@) == t0);
            }
        }
        self.entries = es;
        found
    }

    /// Remove every value stored under `key`.  Reports whether the key was
    /// present; an absent key leaves the table unchanged.
    pub fn del_key(&mut self, key: &[u8]) -> (found: bool)
        ensures
            found == table_has_key(old(self)@, key@),
            final(self)@ == table_del_key(old(self)@, key@),
            final(self).spec_dup_sort() == old(self).spec_dup_sort(),
    {
        proof {
            use_type_invariant(&*self);
        }
        let ghost t0 = self@;
        let mut es: Vec<TableEntry> = Vec::new();
        core::mem::swap(&mut es, &mut self.entries);
        let ghost goal = table_del_key(t0, key@);
        let i = find_key(&es, key);
        proof {
            lemma_prefix_keys_differ(t0, key@, i as int);
            lemma_table_del_key_skip(t0, key@, i as int);
            lemma_table_del_key_wf(t0, key@);
        }
        let found: bool;
        if i < es.len() && bytes_eq(es[i].key.as_slice(), key) {
            found = true;
            proof {
                assert(t0[i as int].0 == key@);
                assert(table_has_key(t0, key@));
                assert(t0.skip(i as int)[0] == t0[i as int]);
                assert(t0.skip(i as int).drop_first() =~= t0.skip(i + 1));
                assert(goal == t0.take(i as int) + t0.skip(i + 1));
            }
            let ghost es0 = es@;
            let _removed = es.remove(i);
            proof {
                es0.remove_ensures(i as int);
                assert forall|m: int| 0 <= m < entries_view(es@).len() implies entries_view(es@)[m]
                    == goal[m] by {
                    if m < i {
                        assert(es@[m] == es0[m]);
                    } else {
                        assert(es@[m] == es0[m + 1]);
                        assert(t0.skip(i + 1)[m - i] == t0[m + 1]);
                    }
                }
                assert(entries_view(es@) =~= goal);
            }
        } else {
            found = false;
            proof {
                lemma_key_absent_at(t0, key@, i as int);
                lemma_table_del_key_absent(t0, key@);
                assert(entries_view(es@) == t0);
            }
        }
        self.entries = es;
        found
    }

    /// Remove every entry.
    pub fn clear(&mut self)
        ensures
            final(self)@ == Seq::<EntryModel>::empty(),
            final(self).spec_dup_sort() == old(self).spec_dup_sort(),
    {
        proof {
            assert(entries_view(Seq::<TableEntry>::empty()) =~= Seq::<EntryModel>::empty());
        }
        self.entries = Vec::new();
    }

    /// Whether the exact `(key, value)` pair is stored.
    pub fn contains_pair(&self, key: &[u8], value: &[u8]) -> (r: bool)
        ensures
            r == table_lookup(self@, key@).contains(value@),
    {
        proof {
            use_type_invariant(&*self);
        }
        let i = find_key(&self.entries, key);
        if i < self.entries.len() && bytes_eq(self.entries[i].key.as_slice(), key) {
            proof {
                lemma_prefix_keys_differ(self@, key@, i as int);
                lemma_lookup_at(self@, key@, i as int);
            }
            let run = &self.entries[i].vals;
            let p = find_val(run, value);
            if p < run.len() && bytes_eq(run[p].as_slice(), value) {
                proof {
                    assert(runs_view(run@)[p as int] == value@);
                }
                true
            } else {
                proof {
                    if p < run.len() {
                        lemma_lex_trichotomy(value@, runs_view(run@)[p as int]);
                    }
                    assert(run_sorted(runs_view(run@)));
                    lemma_run_absent(runs_view(run@), value@, p as int);
                }
                false
            }
        } else {
            proof {
                lemma_key_absent_at(self@, key@, i as int);
            }
            false
        }
    }
}

/// Append one entry's `(key, value)` pairs, in run order.
pub(crate) fn push_entry_pairs(out: &mut Vec<(Vec<u8>, Vec<u8>)>, key: &Vec<u8>, vals: &Vec<Vec<u8>>)
    ensures
        pairs_view(final(out)@) == pairs_view(old(out)@) + entry_pairs(key@, runs_view(vals@)),
{
    let ghost base = out@;
    let mut j: usize = 0;
    while j < vals.len()
        invariant
            j <= vals@.len(),
            out@.len() == base.len() + j,
            pairs_view(out@) == pairs_view(base) + entry_pairs(
                key@,
                runs_view(vals@).take(j as int),
            ),
        decreases vals@.len() - j,
    {
        let ghost prev = out@;
        out.push((clone_bytes(key.as_slice()), clone_bytes(vals[j].as_slice())));
        proof {
            assert forall|m: int| 0 <= m < out@.len() implies pairs_view(out@)[m] == (pairs_view(
                base,
            ) + entry_pairs(key@, runs_view(vals@).take(j + 1)))[m] by {
                if m < prev.len() {
                    assert(out@[m] == prev[m]);
                    assert(pairs_view(prev)[m] == (pairs_view(base) + entry_pairs(
                        key@,
                        runs_view(vals@).take(j as int),
                    ))[m]);
                }
            }
            assert(pairs_view(out@) =~= pairs_view(base) + entry_pairs(
                key@,
                runs_view(vals@).take(j + 1),
            ));
        }
        j += 1;
    }
    proof {
        assert(runs_view(vals@).take(vals@.len() as int) =~= runs_view(vals@));
    }
}

/// Every `(key, value)` pair of the entries from `start` on, ascending.
fn flatten_from(entries: &Vec<TableEntry>, start: usize) -> (r: Vec<(Vec<u8>, Vec<u8>)>)
    requires
        start <= entries@.len(),
    ensures
        pairs_view(r@) == table_flat(entries_view(entries@).skip(start as int)),
{
    let ghost t = entries_view(entries@).skip(start as int);
    let mut out: Vec<(Vec<u8>, Vec<u8>)> = Vec::new();
    proof {
        assert(pairs_view(out@) =~= Seq::<(Seq<u8>, Seq<u8>)>::empty());
        assert(t.take(0) =~= Seq::<EntryModel>::empty());
    }
    let mut i: usize = start;
    while i < entries.len()
        invariant
            start <= i <= entries@.len(),
            t == entries_view(entries@).skip(start as int),
            pairs_view(out@) == table_flat(t.take(i - start)),
        decreases entries@.len() - i,
    {
        proof {
            assert(t.take(i - start + 1) =~= t.take(i - start).push(t[i - start]));
            lemma_table_flat_snoc(t.take(i - start), t[i - start]);
            assert(t[i - start] == entries@[i as int]@);
        }
        push_entry_pairs(&mut out, &entries[i].key, &entries[i].vals);
        i += 1;
    }
    proof {
        assert(t.take(entries@.len() - start) =~= t);
    }
    out
}

impl Database {
    /// Every `(key, value)` pair, ascending by key then value.
    pub fn pairs_ascending(&self) -> (r: Vec<(Vec<u8>, Vec<u8>)>)
        ensures
            pairs_view(r@) == table_flat(self@),
    {
        proof {
            use_type_invariant(&*self);
        }
        let out = flatten_from(&self.entries, 0);
        proof {
            assert(entries_view(self.entries@).skip(0) =~= self@);
        }
        out
    }

    /// Every `(key, value)` pair whose key is at or after `key`, ascending.
    pub fn pairs_from_key(&self, key: &[u8]) -> (r: Vec<(Vec<u8>, Vec<u8>)>)
        ensures
            pairs_view(r@) == table_flat(table_from(self@, key@)),
    {
        proof {
            use_type_invariant(&*self);
        }
        let i = find_key(&self.entries, key);
        proof {
            let t = self@;
            assert forall|j: int| i <= j < t.len() implies !lex_lt((#[trigger] t[j]).0, key@) by {
                if j > i {
                    assert(lex_lt(t[i as int].0, t[j].0));
                    lemma_lex_trichotomy(key@, t[i as int].0);
                    lemma_lex_trans(key@, t[i as int].0, t[j].0);
                    lemma_lex_asym(key@, t[j].0);
                    lemma_lex_irrefl(t[j].0);
                }
            }
            lemma_table_from_skip(t, key@, i as int);
        }
        flatten_from(&self.entries, i)
    }

    /// Exactly the duplicate run of `key`, as `(key, value)` pairs ascending;
    /// empty when the key is absent.
    pub fn pairs_of_key(&self, key: &[u8]) -> (r: Vec<(Vec<u8>, Vec<u8>)>)
        ensures
            pairs_view(r@) == entry_pairs(key@, table_lookup(self@, key@)),
    {
        proof {
            use_type_invariant(&*self);
        }
        let i = find_key(&self.entries, key);
        if i < self.entries.len() && bytes_eq(self.entries[i].key.as_slice(), key) {
            proof {
                lemma_prefix_keys_differ(self@, key@, i as int);
                lemma_lookup_at(self@, key@, i as int);
            }
            let mut out: Vec<(Vec<u8>, Vec<u8>)> = Vec::new();
            proof {
                assert(pairs_view(out@) =~= Seq::<(Seq<u8>, Seq<u8>)>::empty());
            }
            push_entry_pairs(&mut out, &self.entries[i].key, &self.entries[i].vals);
            proof {
                assert(Seq::<(Seq<u8>, Seq<u8>)>::empty() + entry_pairs(
                    key@,
                    table_lookup(self@, key@),
                ) =~= entry_pairs(key@, table_lookup(self@, key@)));
            }
            out
        } else {
            proof {
                lemma_key_absent_at(self@, key@, i as int);
                assert(entry_pairs(key@, Seq::<Seq<u8>>::empty()) =~= Seq::<(
                    Seq<u8>,
                    Seq<u8>,
                )>::empty());
                assert(pairs_view(Seq::<(Vec<u8>, Vec<u8>)>::empty()) =~= Seq::<(
                    Seq<u8>,
                    Seq<u8>,
                )>::empty());
            }
            Vec::new()
        }
    }

    /// Every `(key, value)` pair, descending by key then value.
    pub fn pairs_descending(&self) -> (r: Vec<(Vec<u8>, Vec<u8>)>)
        ensures
            pairs_view(r@) == table_flat(self@).reverse(),
    {
        let fwd = self.pairs_ascending();
        let mut out: Vec<(Vec<u8>, Vec<u8>)> = Vec::new();
        let n: usize = fwd.len();
        let mut j: usize = n;
        while j > 0
            invariant
                j <= n,
                n == fwd@.len(),
                pairs_view(fwd@) == table_flat(self@),
                out@.len() == n - j,
                forall|m: int|
                    0 <= m < n - j ==> #[trigger] pairs_view(out@)[m] == pairs_view(fwd@)[n - 1
                        - m],
            decreases j,
        {
            j -= 1;
            let ghost prev = out@;
            out.push((clone_bytes(fwd[j].0.as_slice()), clone_bytes(fwd[j].1.as_slice())));
            proof {
                assert forall|m: int| 0 <= m < n - j implies #[trigger] pairs_view(out@)[m]
                    == pairs_view(fwd@)[n - 1 - m] by {
                    if m < n - j - 1 {
                        assert(out@[m] == prev[m]);
                        assert(pairs_view(prev)[m] == pairs_view(fwd@)[n - 1 - m]);
                    }
                }
            }
        }
        proof {
            assert(pairs_view(out@) =~= table_flat(self@).reverse());
        }
        out
    }

    /// The reverse duplicate walk from `key`: keys at or below `key`
    /// descending, each run descending.
    pub fn groups_prev_from(&self, key: &[u8]) -> (r: Vec<(Vec<u8>, Vec<Vec<u8>>)>)
        ensures
            groups_view(r@) == prev_dup_groups(self@, key@),
    {
        proof {
            use_type_invariant(&*self);
        }
        let i = find_above(&self.entries, key);
        proof {
            lemma_keys_above(self@, key@, i as int);
            lemma_table_at_or_below_take(self@, key@, i as int);
        }
        let ghost below = table_at_or_below(self@, key@);
        let mut out: Vec<(Vec<u8>, Vec<Vec<u8>>)> = Vec::new();
        let mut j: usize = i;
        while j > 0
            invariant
                j <= i,
                i <= self.entries@.len(),
                self@ == entries_view(self.entries@),
                below == self@.take(i as int),
                table_wf(self@),
                out@.len() == i - j,
                forall|m: int|
                    0 <= m < i - j ==> #[trigger] groups_view(out@)[m] == (
                    self@[i - 1 - m].0,
                    self@[i - 1 - m].1.reverse(),
                ),
            decreases j,
        {
            j -= 1;
            let ghost prev = out@;
            out.push(
                (clone_bytes(self.entries[j].key.as_slice()), reverse_run(&self.entries[j].vals)),
            );
            proof {
                assert forall|m: int| 0 <= m < i - j implies #[trigger] groups_view(out@)[m] == (
                    self@[i - 1 - m].0,
                    self@[i - 1 - m].1.reverse(),
                ) by {
                    if m < i - j - 1 {
                        assert(out@[m] == prev[m]);
                        assert(groups_view(prev)[m] == (
                            self@[i - 1 - m].0,
                            self@[i - 1 - m].1.reverse(),
                        ));
                    } else {
                        assert(out@[m] == out@[out@.len() - 1]);
                    }
                }
            }
        }
        proof {
            assert forall|m: int| 0 <= m < i implies prev_dup_groups(self@, key@)[m] == (
                self@[i - 1 - m].0,
                self@[i - 1 - m].1.reverse(),
            ) by {
                assert(below.reverse()[m] == below[i - 1 - m]);
                assert(below[i - 1 - m] == self@[i - 1 - m]);
            }
            assert(groups_view(out@) =~= prev_dup_groups(self@, key@));
        }
        out
    }

    /// The same content under the given shape flag.
    pub(crate) fn into_shape(self, dup_sort: bool) -> (r: Database)
        ensures
            r@ == self@,
            r.spec_dup_sort() == dup_sort,
    {
        proof {
            use_type_invariant(&self);
        }
        let Database { entries, dup: _ } = self;
        Database { entries, dup: dup_sort }
    }

    /// How many `(key, value)` pairs are stored.
    pub fn pair_count(&self) -> (r: usize)
        ensures
            r == table_flat(self@).len(),
    {
        let pairs = self.pairs_ascending();
        pairs.len()
    }
}

/// The first position whose key is strictly above `key`.
fn find_above(entries: &Vec<TableEntry>, key: &[u8]) -> (r: usize)
    ensures
        r <= entries@.len(),
        forall|j: int| 0 <= j < r ==> lex_le((#[trigger] entries@[j])@.0, key@),
        r < entries@.len() ==> lex_lt(key@, entries@[r as int]@.0),
{
    let mut i: usize = 0;
    while i < entries.len()
        invariant
            i <= entries@.len(),
            forall|j: int| 0 <= j < i ==> lex_le((#[trigger] entries@[j])@.0, key@),
        decreases entries@.len() - i,
    {
        match lex_compare(entries[i].key.as_slice(), key) {
            BytesOrder::Less => {
                i += 1;
            },
            BytesOrder::Equal => {
                i += 1;
            },
            BytesOrder::Greater => {
                return i;
            },
        }
    }
    i
}

/// Copy one run of values in reverse order.
fn reverse_run(vals: &Vec<Vec<u8>>) -> (r: Vec<Vec<u8>>)
    ensures
        runs_view(r@) == runs_view(vals@).reverse(),
{
    let mut out: Vec<Vec<u8>> = Vec::new();
    let n: usize = vals.len();
    let mut j: usize = n;
    while j > 0
        invariant
            j <= n,
            n == vals@.len(),
            out@.len() == n - j,
            forall|m: int|
                0 <= m < n - j ==> #[trigger] runs_view(out@)[m] == runs_view(vals@)[n - 1 - m],
        decreases j,
    {
        j -= 1;
        let ghost prev = out@;
        out.push(clone_bytes(vals[j].as_slice()));
        proof {
            assert forall|m: int| 0 <= m < n - j implies #[trigger] runs_view(out@)[m] == runs_view(
                vals@,
            )[n - 1 - m] by {
                if m < n - j - 1 {
                    assert(out@[m] == prev[m]);
                    assert(runs_view(prev)[m] == runs_view(vals@)[n - 1 - m]);
                }
            }
        }
    }
    proof {
        assert(runs_view(out@) =~= runs_view(vals@).reverse());
    }
    out
}

} // verus!
