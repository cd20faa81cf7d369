//! Logical model of a table.
//!
//! A table is modelled as a sequence of entries, each pairing a key with the
//! run of values stored under that key.  A well-formed table keeps its keys in
//! strictly ascending lexicographic order and each run non-empty and
//! ascending.  The specification functions here define what every table
//! operation means on this model; the backend contract and the store facades
//! state their contracts in terms of them.

use vstd::prelude::*;

use crate::order::{
    lemma_lex_asym, lemma_lex_irrefl, lemma_lex_le_trans, lemma_lex_trans, lemma_lex_trichotomy,
    lex_le, lex_lt,
};

verus! {

/// One modelled entry: a key and the run of values stored under it.
pub type EntryModel = (Seq<u8>, Seq<Seq<u8>>);

/// The logical content of one table.
pub type TableModel = Seq<EntryModel>;

/// A run of duplicate values is kept in ascending encoded-byte order
/// (equal neighbours are allowed: they are independent duplicate copies).
pub open spec fn run_sorted(r: Seq<Seq<u8>>) -> bool {
    forall|i: int, j: int| #![trigger r[i], r[j]] 0 <= i < j < r.len() ==> lex_le(r[i], r[j])
}

/// A stored entry carries at least one value, in ascending order.
pub open spec fn entry_wf(e: EntryModel) -> bool {
    e.1.len() > 0 && run_sorted(e.1)
}

/// Well-formed table: ascending, duplicate-free keys; well-formed entries.
pub open spec fn table_wf(t: TableModel) -> bool {
    &&& forall|i: int| 0 <= i < t.len() ==> entry_wf(#[trigger] t[i])
    &&& forall|i: int, j: int| #![trigger t[i], t[j]] 0 <= i < j < t.len() ==> lex_lt(
        t[i].0,
        t[j].0,
    )
}

/// Whether some entry of the table carries the key `k`.
pub open spec fn table_has_key(t: TableModel, k: Seq<u8>) -> bool {
    exists|i: int| 0 <= i < t.len() && (#[trigger] t[i]).0 == k
}

/// The run of values stored under `k`; empty when the key is absent.
pub open spec fn table_lookup(t: TableModel, k: Seq<u8>) -> Seq<Seq<u8>>
    decreases t.len(),
{
    if t.len() == 0 {
        Seq::empty()
    } else if t[0].0 == k {
        t[0].1
    } else {
        table_lookup(t.drop_first(), k)
    }
}

/// Inserting `v` into an ascending run.  With `allow_dup` an exact duplicate
/// is stored as an independent copy; without it the insertion of a value
/// already present leaves the run unchanged.
pub open spec fn run_insert(r: Seq<Seq<u8>>, v: Seq<u8>, allow_dup: bool) -> Seq<Seq<u8>>
    decreases r.len(),
{
    if r.len() == 0 {
        seq![v]
    } else if lex_lt(v, r[0]) {
        seq![v] + r
    } else if v == r[0] {
        if allow_dup {
            seq![v] + r
        } else {
            r
        }
    } else {
        seq![r[0]] + run_insert(r.drop_first(), v, allow_dup)
    }
}

/// Inserting `(k, v)` into a duplicate-sorted table.
pub open spec fn table_put(t: TableModel, k: Seq<u8>, v: Seq<u8>, allow_dup: bool) -> TableModel
    decreases t.len(),
{
    if t.len() == 0 {
        seq![(k, seq![v])]
    } else if lex_lt(k, t[0].0) {
        seq![(k, seq![v])] + t
    } else if k == t[0].0 {
        seq![(k, run_insert(t[0].1, v, allow_dup))] + t.drop_first()
    } else {
        seq![t[0]] + table_put(t.drop_first(), k, v, allow_dup)
    }
}

/// Storing `(k, v)` into a plain (one value per key) table: overwrite.
pub open spec fn table_replace(t: TableModel, k: Seq<u8>, v: Seq<u8>) -> TableModel
    decreases t.len(),
{
    if t.len() == 0 {
        seq![(k, seq![v])]
    } else if lex_lt(k, t[0].0) {
        seq![(k, seq![v])] + t
    } else if k == t[0].0 {
        seq![(k, seq![v])] + t.drop_first()
    } else {
        seq![t[0]] + table_replace(t.drop_first(), k, v)
    }
}

/// Removing the first occurrence of `v` from a run; unchanged when absent.
pub open spec fn run_remove_one(r: Seq<Seq<u8>>, v: Seq<u8>) -> Seq<Seq<u8>>
    decreases r.len(),
{
    if r.len() == 0 {
        r
    } else if r[0] == v {
        r.drop_first()
    } else {
        seq![r[0]] + run_remove_one(r.drop_first(), v)
    }
}

/// Deleting one occurrence of the pair `(k, v)`; the entry disappears when its
/// run becomes empty.  Leaves the table unchanged when the pair is absent.
pub open spec fn table_del_pair(t: TableModel, k: Seq<u8>, v: Seq<u8>) -> TableModel
    decreases t.len(),
{
    if t.len() == 0 {
        t
    } else if t[0].0 == k {
        let nr = run_remove_one(t[0].1, v);
        if nr.len() == 0 {
            t.drop_first()
        } else {
            seq![(k, nr)] + t.drop_first()
        }
    } else {
        seq![t[0]] + table_del_pair(t.drop_first(), k, v)
    }
}

/// Deleting every value stored under `k`; unchanged when the key is absent.
pub open spec fn table_del_key(t: TableModel, k: Seq<u8>) -> TableModel
    decreases t.len(),
{
    if t.len() == 0 {
        t
    } else if t[0].0 == k {
        t.drop_first()
    } else {
        seq![t[0]] + table_del_key(t.drop_first(), k)
    }
}

/// The `(key, value)` pairs of one entry, in run order.
pub open spec fn entry_pairs(k: Seq<u8>, r: Seq<Seq<u8>>) -> Seq<(Seq<u8>, Seq<u8>)> {
    r.map_values(|v: Seq<u8>| (k, v))
}

/// Every `(key, value)` pair of the table, ascending by key then value.
pub open spec fn table_flat(t: TableModel) -> Seq<(Seq<u8>, Seq<u8>)>
    decreases t.len(),
{
    if t.len() == 0 {
        Seq::empty()
    } else {
        entry_pairs(t[0].0, t[0].1) + table_flat(t.drop_first())
    }
}

/// The entries whose key is at or after `k`.
pub open spec fn table_from(t: TableModel, k: Seq<u8>) -> TableModel
    decreases t.len(),
{
    if t.len() == 0 {
        t
    } else if lex_lt(t[0].0, k) {
        table_from(t.drop_first(), k)
    } else {
        seq![t[0]] + table_from(t.drop_first(), k)
    }
}

/// The entries whose key is at or below `k`.
pub open spec fn table_at_or_below(t: TableModel, k: Seq<u8>) -> TableModel
    decreases t.len(),
{
    if t.len() == 0 {
        t
    } else if lex_le(t[0].0, k) {
        seq![t[0]] + table_at_or_below(t.drop_first(), k)
    } else {
        table_at_or_below(t.drop_first(), k)
    }
}

/// The reverse duplicate traversal from `k`: keys at or below `k`, walked
/// descending, each key's run walked descending.
pub open spec fn prev_dup_groups(t: TableModel, k: Seq<u8>) -> TableModel {
    table_at_or_below(t, k).reverse().map_values(|e: EntryModel| (e.0, e.1.reverse()))
}

/// Well-formedness is preserved by dropping the first entry.
pub proof fn lemma_table_wf_drop(t: TableModel)
    requires
        table_wf(t),
        t.len() > 0,
    ensures
        table_wf(t.drop_first()),
{
    assert forall|i: int| 0 <= i < t.drop_first().len() implies entry_wf(
        #[trigger] t.drop_first()[i],
    ) by {
        assert(t.drop_first()[i] == t[i + 1]);
    }
    assert forall|i: int, j: int|
        #![trigger t.drop_first()[i], t.drop_first()[j]]
        0 <= i < j < t.drop_first().len() implies lex_lt(
        t.drop_first()[i].0,
        t.drop_first()[j].0,
    ) by {
        assert(t.drop_first()[i] == t[i + 1]);
        assert(t.drop_first()[j] == t[j + 1]);
    }
}

/// Sortedness of a run is preserved by dropping the first value.
pub proof fn lemma_run_sorted_drop(r: Seq<Seq<u8>>)
    requires
        run_sorted(r),
        r.len() > 0,
    ensures
        run_sorted(r.drop_first()),
{
    assert forall|i: int, j: int|
        #![trigger r.drop_first()[i], r.drop_first()[j]]
        0 <= i < j < r.drop_first().len() implies lex_le(r.drop_first()[i], r.drop_first()[j]) by {
        assert(r.drop_first()[i] == r[i + 1]);
        assert(r.drop_first()[j] == r[j + 1]);
    }
}

/// Looking a key up in a table none of whose entries carry it yields nothing.
pub proof fn lemma_lookup_absent(t: TableModel, k: Seq<u8>)
    requires
        forall|i: int| 0 <= i < t.len() ==> (#[trigger] t[i]).0 != k,
    ensures
        table_lookup(t, k) == Seq::<Seq<u8>>::empty(),
    decreases t.len(),
{
    if t.len() > 0 {
        assert forall|i: int| 0 <= i < t.drop_first().len() implies (#[trigger] t.drop_first()[i]).0
            != k by {
            assert(t.drop_first()[i] == t[i + 1]);
        }
        lemma_lookup_absent(t.drop_first(), k);
    }
}

/// Looking up the key of entry `i` yields that entry's run, provided no
/// earlier entry carries the key.
pub proof fn lemma_lookup_at(t: TableModel, k: Seq<u8>, i: int)
    requires
        0 <= i < t.len(),
        t[i].0 == k,
        forall|j: int| 0 <= j < i ==> (#[trigger] t[j]).0 != k,
    ensures
        table_lookup(t, k) == t[i].1,
    decreases i,
{
    if i > 0 {
        assert(t[0].0 != k);
        assert(t.drop_first()[i - 1] == t[i]);
        assert forall|j: int| 0 <= j < i - 1 implies (#[trigger] t.drop_first()[j]).0 != k by {
            assert(t.drop_first()[j] == t[j + 1]);
        }
        lemma_lookup_at(t.drop_first(), k, i - 1);
    }
}

/// In a well-formed table every key at or after entry `i` is strictly above
/// `k` once entry `i`'s key is; so `k` is absent from the suffix.
pub proof fn lemma_lookup_after(t: TableModel, k: Seq<u8>, i: int)
    requires
        table_wf(t),
        0 <= i <= t.len(),
        forall|j: int| 0 <= j < i ==> lex_lt((#[trigger] t[j]).0, k),
        i < t.len() ==> lex_lt(k, t[i].0),
    ensures
        table_lookup(t, k) == Seq::<Seq<u8>>::empty(),
        !table_has_key(t, k),
{
    assert forall|j: int| 0 <= j < t.len() implies (#[trigger] t[j]).0 != k by {
        if j < i {
            lemma_lex_irrefl(k);
            if t[j].0 == k {
                assert(lex_lt(k, k));
            }
        } else {
            lemma_lex_irrefl(k);
            if j > i {
                assert(lex_lt(t[i].0, t[j].0));
            }
            lemma_lex_trans(k, t[i].0, t[j].0);
            if t[j].0 == k {
                assert(lex_lt(k, k));
            }
        }
    }
    lemma_lookup_absent(t, k);
}

/// Insertion into a run skips past any prefix of strictly smaller values.
pub proof fn lemma_run_insert_skip(r: Seq<Seq<u8>>, v: Seq<u8>, allow_dup: bool, n: int)
    requires
        0 <= n <= r.len(),
        forall|j: int| 0 <= j < n ==> lex_lt(#[trigger] r[j], v),
    ensures
        run_insert(r, v, allow_dup) == r.take(n) + run_insert(r.skip(n), v, allow_dup),
    decreases n,
{
    if n == 0 {
        assert(r.skip(0) =~= r);
        assert(r.take(0) + run_insert(r, v, allow_dup) =~= run_insert(r, v, allow_dup));
    } else {
        assert(lex_lt(r[0], v));
        lemma_lex_asym(r[0], v);
        lemma_lex_irrefl(v);
        assert(v != r[0]);
        assert(run_insert(r, v, allow_dup) == seq![r[0]] + run_insert(
            r.drop_first(),
            v,
            allow_dup,
        ));
        assert forall|j: int| 0 <= j < n - 1 implies lex_lt(#[trigger] r.drop_first()[j], v) by {
            assert(r.drop_first()[j] == r[j + 1]);
        }
        lemma_run_insert_skip(r.drop_first(), v, allow_dup, n - 1);
        assert(r.drop_first().skip(n - 1) =~= r.skip(n));
        assert(seq![r[0]] + (r.drop_first().take(n - 1) + run_insert(r.skip(n), v, allow_dup))
            =~= r.take(n) + run_insert(r.skip(n), v, allow_dup));
    }
}

/// Insertion keeps a run sorted and non-empty; every value of the result is
/// the new value or one already present, and the new value is present.
pub proof fn lemma_run_insert_sorted(r: Seq<Seq<u8>>, v: Seq<u8>, allow_dup: bool)
    requires
        run_sorted(r),
    ensures
        run_sorted(run_insert(r, v, allow_dup)),
        run_insert(r, v, allow_dup).len() > 0,
        run_insert(r, v, allow_dup).contains(v),
        forall|i: int|
            0 <= i < run_insert(r, v, allow_dup).len() ==> #[trigger] run_insert(
                r,
                v,
                allow_dup,
            )[i] == v || r.contains(run_insert(r, v, allow_dup)[i]),
    decreases r.len(),
{
    let res = run_insert(r, v, allow_dup);
    if r.len() == 0 {
        assert(res == seq![v]);
        assert(res[0] == v);
    } else if lex_lt(v, r[0]) || (v == r[0] && allow_dup) {
        assert(res == seq![v] + r);
        assert(res[0] == v);
        assert forall|i: int, j: int|
            #![trigger res[i], res[j]]
            0 <= i < j < res.len() implies lex_le(res[i], res[j]) by {
            if i == 0 {
                assert(res[j] == r[j - 1]);
                if j - 1 > 0 {
                    assert(lex_le(r[0], r[j - 1]));
                }
                lemma_lex_le_trans(v, r[0], r[j - 1]);
            } else {
                assert(res[i] == r[i - 1]);
                assert(res[j] == r[j - 1]);
            }
        }
        assert forall|i: int| 0 <= i < res.len() implies #[trigger] res[i] == v || r.contains(
            res[i],
        ) by {
            if i > 0 {
                assert(res[i] == r[i - 1]);
            }
        }
    } else if v == r[0] {
        assert(res == r);
        assert(r[0] == v);
    } else {
        lemma_lex_trichotomy(v, r[0]);
        assert(lex_lt(r[0], v));
        lemma_run_sorted_drop(r);
        lemma_run_insert_sorted(r.drop_first(), v, allow_dup);
        let sub = run_insert(r.drop_first(), v, allow_dup);
        assert(res == seq![r[0]] + sub);
        assert forall|i: int, j: int|
            #![trigger res[i], res[j]]
            0 <= i < j < res.len() implies lex_le(res[i], res[j]) by {
            if i == 0 {
                assert(res[j] == sub[j - 1]);
                if sub[j - 1] == v {
                    assert(lex_le(r[0], v));
                } else {
                    assert(r.drop_first().contains(sub[j - 1]));
                    let w = choose|m: int|
                        0 <= m < r.drop_first().len() && r.drop_first()[m] == sub[j - 1];
                    assert(r[w + 1] == sub[j - 1]);
                    assert(lex_le(r[0], r[w + 1]));
                }
            } else {
                assert(res[i] == sub[i - 1]);
                assert(res[j] == sub[j - 1]);
            }
        }
        assert(sub.contains(v));
        let m = choose|m: int| 0 <= m < sub.len() && sub[m] == v;
        assert(res[m + 1] == v);
        assert(res.contains(v));
        assert forall|i: int| 0 <= i < res.len() implies #[trigger] res[i] == v || r.contains(
            res[i],
        ) by {
            if i == 0 {
                assert(r[0] == res[0]);
                assert(r.contains(res[0]));
            } else {
                assert(res[i] == sub[i - 1]);
                if sub[i - 1] != v {
                    assert(r.drop_first().contains(sub[i - 1]));
                    let w = choose|m2: int|
                        0 <= m2 < r.drop_first().len() && r.drop_first()[m2] == sub[i - 1];
                    assert(r[w + 1] == sub[i - 1]);
                    assert(r.contains(res[i]));
                }
            }
        }
    }
}

/// Inserting a value already present, without the duplicate-copy flag, leaves
/// the run unchanged: the default write policy is idempotent.
pub proof fn lemma_run_insert_noop(r: Seq<Seq<u8>>, v: Seq<u8>)
    requires
        run_sorted(r),
        r.contains(v),
    ensures
        run_insert(r, v, false) == r,
    decreases r.len(),
{
    let w = choose|m: int| 0 <= m < r.len() && r[m] == v;
    if lex_lt(v, r[0]) {
        if w > 0 {
            assert(lex_le(r[0], r[w]));
        }
        lemma_lex_asym(v, r[0]);
        lemma_lex_irrefl(v);
        assert(false);
    } else if v != r[0] {
        lemma_lex_trichotomy(v, r[0]);
        assert(w > 0);
        assert(r.drop_first()[w - 1] == v);
        assert(r.drop_first().contains(v));
        lemma_run_sorted_drop(r);
        lemma_run_insert_noop(r.drop_first(), v);
        assert(run_insert(r, v, false) == seq![r[0]] + r.drop_first());
        assert(seq![r[0]] + r.drop_first() =~= r);
    }
}

/// Insertion into a table skips past any prefix of strictly smaller keys.
pub proof fn lemma_table_put_skip(t: TableModel, k: Seq<u8>, v: Seq<u8>, allow_dup: bool, n: int)
    requires
        0 <= n <= t.len(),
        forall|j: int| 0 <= j < n ==> lex_lt((#[trigger] t[j]).0, k),
    ensures
        table_put(t, k, v, allow_dup) == t.take(n) + table_put(t.skip(n), k, v, allow_dup),
    decreases n,
{
    if n == 0 {
        assert(t.skip(0) =~= t);
        assert(t.take(0) + table_put(t, k, v, allow_dup) =~= table_put(t, k, v, allow_dup));
    } else {
        assert(lex_lt(t[0].0, k));
        lemma_lex_asym(t[0].0, k);
        lemma_lex_irrefl(k);
        assert(k != t[0].0);
        assert(table_put(t, k, v, allow_dup) == seq![t[0]] + table_put(
            t.drop_first(),
            k,
            v,
            allow_dup,
        ));
        assert forall|j: int| 0 <= j < n - 1 implies lex_lt((#[trigger] t.drop_first()[j]).0, k) by {
            assert(t.drop_first()[j] == t[j + 1]);
        }
        lemma_table_put_skip(t.drop_first(), k, v, allow_dup, n - 1);
        assert(t.drop_first().skip(n - 1) =~= t.skip(n));
        assert(seq![t[0]] + (t.drop_first().take(n - 1) + table_put(t.skip(n), k, v, allow_dup))
            =~= t.take(n) + table_put(t.skip(n), k, v, allow_dup));
    }
}

/// Insertion keeps a table well-formed, and introduces no key besides `k`.
pub proof fn lemma_table_put_wf(t: TableModel, k: Seq<u8>, v: Seq<u8>, allow_dup: bool)
    requires
        table_wf(t),
    ensures
        table_wf(table_put(t, k, v, allow_dup)),
        forall|i: int|
            0 <= i < table_put(t, k, v, allow_dup).len() ==> (#[trigger] table_put(
                t,
                k,
                v,
                allow_dup,
            )[i]).0 == k || table_has_key(t, table_put(t, k, v, allow_dup)[i].0),
    decreases t.len(),
{
    let res = table_put(t, k, v, allow_dup);
    if t.len() == 0 {
        assert(res == seq![(k, seq![v])]);
        assert(res[0].0 == k);
    } else if lex_lt(k, t[0].0) {
        assert(res == seq![(k, seq![v])] + t);
        assert(res[0].0 == k);
        assert forall|i: int, j: int|
            #![trigger res[i], res[j]]
            0 <= i < j < res.len() implies lex_lt(res[i].0, res[j].0) by {
            if i == 0 {
                assert(res[j] == t[j - 1]);
                if j - 1 > 0 {
                    assert(lex_lt(t[0].0, t[j - 1].0));
                }
                lemma_lex_trans(k, t[0].0, t[j - 1].0);
            } else {
                assert(res[i] == t[i - 1]);
                assert(res[j] == t[j - 1]);
            }
        }
        assert forall|i: int| 0 <= i < res.len() implies entry_wf(#[trigger] res[i]) by {
            if i > 0 {
                assert(res[i] == t[i - 1]);
            }
        }
        assert forall|i: int| 0 <= i < res.len() implies (#[trigger] res[i]).0 == k
            || table_has_key(t, res[i].0) by {
            if i > 0 {
                assert(res[i] == t[i - 1]);
            }
        }
    } else if k == t[0].0 {
        assert(res == seq![(k, run_insert(t[0].1, v, allow_dup))] + t.drop_first());
        lemma_run_insert_sorted(t[0].1, v, allow_dup);
        assert(res[0].0 == k);
        assert forall|i: int, j: int|
            #![trigger res[i], res[j]]
            0 <= i < j < res.len() implies lex_lt(res[i].0, res[j].0) by {
            if i == 0 {
                assert(res[j] == t[j]);
                assert(lex_lt(t[0].0, t[j].0));
            } else {
                assert(res[i] == t[i]);
                assert(res[j] == t[j]);
            }
        }
        assert forall|i: int| 0 <= i < res.len() implies entry_wf(#[trigger] res[i]) by {
            if i > 0 {
                assert(res[i] == t[i]);
            }
        }
        assert forall|i: int| 0 <= i < res.len() implies (#[trigger] res[i]).0 == k
            || table_has_key(t, res[i].0) by {
            if i > 0 {
                assert(res[i] == t[i]);
            }
        }
    } else {
        lemma_lex_trichotomy(k, t[0].0);
        assert(lex_lt(t[0].0, k));
        lemma_table_wf_drop(t);
        lemma_table_put_wf(t.drop_first(), k, v, allow_dup);
        let sub = table_put(t.drop_first(), k, v, allow_dup);
        assert(res == seq![t[0]] + sub);
        assert forall|i: int| 0 <= i < res.len() implies (#[trigger] res[i]).0 == k
            || table_has_key(t, res[i].0) by {
            if i == 0 {
                assert(t[0].0 == res[0].0);
                assert(table_has_key(t, res[0].0));
            } else {
                assert(res[i] == sub[i - 1]);
                if sub[i - 1].0 != k {
                    assert(table_has_key(t.drop_first(), sub[i - 1].0));
                    let w = choose|m: int|
                        0 <= m < t.drop_first().len() && (#[trigger] t.drop_first()[m]).0 == sub[i
                            - 1].0;
                    assert(t[w + 1].0 == sub[i - 1].0);
                    assert(table_has_key(t, res[i].0));
                }
            }
        }
        assert forall|i: int, j: int|
            #![trigger res[i], res[j]]
            0 <= i < j < res.len() implies lex_lt(res[i].0, res[j].0) by {
            if i == 0 {
                assert(res[j] == sub[j - 1]);
                if sub[j - 1].0 == k {
                    assert(lex_lt(t[0].0, k));
                } else {
                    assert(table_has_key(t.drop_first(), sub[j - 1].0));
                    let w = choose|m: int|
                        0 <= m < t.drop_first().len() && (#[trigger] t.drop_first()[m]).0 == sub[j
                            - 1].0;
                    assert(t[w + 1].0 == sub[j - 1].0);
                    assert(lex_lt(t[0].0, t[w + 1].0));
                }
            } else {
                assert(res[i] == sub[i - 1]);
                assert(res[j] == sub[j - 1]);
            }
        }
        assert forall|i: int| 0 <= i < res.len() implies entry_wf(#[trigger] res[i]) by {
            if i > 0 {
                assert(res[i] == sub[i - 1]);
            }
        }
    }
}

/// What insertion does to the run stored under the inserted key.
pub proof fn lemma_table_put_lookup(t: TableModel, k: Seq<u8>, v: Seq<u8>, allow_dup: bool)
    requires
        table_wf(t),
    ensures
        table_lookup(table_put(t, k, v, allow_dup), k) == run_insert(
            table_lookup(t, k),
            v,
            allow_dup,
        ),
    decreases t.len(),
{
    let res = table_put(t, k, v, allow_dup);
    if t.len() == 0 {
        assert(table_lookup(t, k) == Seq::<Seq<u8>>::empty());
        assert(res == seq![(k, seq![v])]);
        assert(res[0].0 == k);
        assert(table_lookup(res, k) == seq![v]);
    } else if lex_lt(k, t[0].0) {
        lemma_lookup_after(t, k, 0);
        assert(res == seq![(k, seq![v])] + t);
        assert(res[0].0 == k);
        assert(table_lookup(res, k) == seq![v]);
    } else if k == t[0].0 {
        assert(res == seq![(k, run_insert(t[0].1, v, allow_dup))] + t.drop_first());
        assert(res[0].0 == k);
        assert(table_lookup(res, k) == run_insert(t[0].1, v, allow_dup));
        assert(table_lookup(t, k) == t[0].1);
    } else {
        lemma_lex_trichotomy(k, t[0].0);
        lemma_lex_irrefl(k);
        lemma_table_wf_drop(t);
        lemma_table_put_lookup(t.drop_first(), k, v, allow_dup);
        let sub = table_put(t.drop_first(), k, v, allow_dup);
        assert(res == seq![t[0]] + sub);
        assert(res[0] == t[0]);
        assert(res.drop_first() =~= sub);
        assert(table_lookup(res, k) == table_lookup(sub, k));
        assert(table_lookup(t, k) == table_lookup(t.drop_first(), k));
    }
}

/// Insertion under one key does not change the run stored under any other.
pub proof fn lemma_table_put_lookup_other(
    t: TableModel,
    k: Seq<u8>,
    v: Seq<u8>,
    allow_dup: bool,
    k2: Seq<u8>,
)
    requires
        k2 != k,
    ensures
        table_lookup(table_put(t, k, v, allow_dup), k2) == table_lookup(t, k2),
    decreases t.len(),
{
    let res = table_put(t, k, v, allow_dup);
    if t.len() == 0 {
        assert(res == seq![(k, seq![v])]);
        assert(res[0].0 == k);
        assert(res.drop_first() =~= Seq::<EntryModel>::empty());
        assert(table_lookup(res, k2) == table_lookup(Seq::<EntryModel>::empty(), k2));
    } else if lex_lt(k, t[0].0) {
        assert(res == seq![(k, seq![v])] + t);
        assert(res[0].0 == k);
        assert(res.drop_first() =~= t);
    } else if k == t[0].0 {
        assert(res == seq![(k, run_insert(t[0].1, v, allow_dup))] + t.drop_first());
        assert(res[0].0 == k);
        assert(res.drop_first() =~= t.drop_first());
        assert(table_lookup(res, k2) == table_lookup(t.drop_first(), k2));
        assert(table_lookup(t, k2) == table_lookup(t.drop_first(), k2));
    } else {
        lemma_table_put_lookup_other(t.drop_first(), k, v, allow_dup, k2);
        let sub = table_put(t.drop_first(), k, v, allow_dup);
        assert(res == seq![t[0]] + sub);
        assert(res[0] == t[0]);
        assert(res.drop_first() =~= sub);
        if t[0].0 == k2 {
            assert(table_lookup(res, k2) == t[0].1);
        } else {
            assert(table_lookup(res, k2) == table_lookup(sub, k2));
        }
    }
}

/// The default write policy is idempotent at table level: inserting a pair
/// that is already stored leaves the whole table unchanged.
pub proof fn lemma_table_put_noop(t: TableModel, k: Seq<u8>, v: Seq<u8>)
    requires
        table_wf(t),
        table_lookup(t, k).contains(v),
    ensures
        table_put(t, k, v, false) == t,
    decreases t.len(),
{
    if t.len() == 0 {
        assert(!table_lookup(t, k).contains(v));
    } else if lex_lt(k, t[0].0) {
        lemma_lookup_after(t, k, 0);
        assert(!table_lookup(t, k).contains(v));
    } else if k == t[0].0 {
        assert(table_lookup(t, k) == t[0].1);
        lemma_run_insert_noop(t[0].1, v);
        assert(table_put(t, k, v, false) == seq![(k, t[0].1)] + t.drop_first());
        assert((k, t[0].1) == t[0]);
        assert(seq![t[0]] + t.drop_first() =~= t);
    } else {
        lemma_table_wf_drop(t);
        assert(table_lookup(t, k) == table_lookup(t.drop_first(), k));
        lemma_table_put_noop(t.drop_first(), k, v);
        assert(table_put(t, k, v, false) == seq![t[0]] + t.drop_first());
        assert(seq![t[0]] + t.drop_first() =~= t);
    }
}

/// Overwriting skips past any prefix of strictly smaller keys.
pub proof fn lemma_table_replace_skip(t: TableModel, k: Seq<u8>, v: Seq<u8>, n: int)
    requires
        0 <= n <= t.len(),
        forall|j: int| 0 <= j < n ==> lex_lt((#[trigger] t[j]).0, k),
    ensures
        table_replace(t, k, v) == t.take(n) + table_replace(t.skip(n), k, v),
    decreases n,
{
    if n == 0 {
        assert(t.skip(0) =~= t);
        assert(t.take(0) + table_replace(t, k, v) =~= table_replace(t, k, v));
    } else {
        assert(lex_lt(t[0].0, k));
        lemma_lex_asym(t[0].0, k);
        lemma_lex_irrefl(k);
        assert(k != t[0].0);
        assert(table_replace(t, k, v) == seq![t[0]] + table_replace(t.drop_first(), k, v));
        assert forall|j: int| 0 <= j < n - 1 implies lex_lt((#[trigger] t.drop_first()[j]).0, k) by {
            assert(t.drop_first()[j] == t[j + 1]);
        }
        lemma_table_replace_skip(t.drop_first(), k, v, n - 1);
        assert(t.drop_first().skip(n - 1) =~= t.skip(n));
        assert(seq![t[0]] + (t.drop_first().take(n - 1) + table_replace(t.skip(n), k, v)) =~= t.take(
            n,
        ) + table_replace(t.skip(n), k, v));
    }
}

/// Overwriting keeps a table well-formed, stores exactly the one value under
/// the written key, introduces no other key, and leaves other keys alone.
pub proof fn lemma_table_replace_wf(t: TableModel, k: Seq<u8>, v: Seq<u8>)
    requires
        table_wf(t),
    ensures
        table_wf(table_replace(t, k, v)),
        table_lookup(table_replace(t, k, v), k) == seq![v],
        forall|i: int|
            0 <= i < table_replace(t, k, v).len() ==> (#[trigger] table_replace(t, k, v)[i]).0 == k
                || table_has_key(t, table_replace(t, k, v)[i].0),
    decreases t.len(),
{
    let res = table_replace(t, k, v);
    if t.len() == 0 {
        assert(res == seq![(k, seq![v])]);
        assert(res[0].0 == k);
        assert(run_sorted(seq![v]));
    } else if lex_lt(k, t[0].0) {
        assert(res == seq![(k, seq![v])] + t);
        assert(res[0].0 == k);
        assert(run_sorted(seq![v]));
        assert(table_lookup(res, k) == seq![v]);
        assert forall|i: int, j: int|
            #![trigger res[i], res[j]]
            0 <= i < j < res.len() implies lex_lt(res[i].0, res[j].0) by {
            if i == 0 {
                assert(res[j] == t[j - 1]);
                if j - 1 > 0 {
                    assert(lex_lt(t[0].0, t[j - 1].0));
                }
                lemma_lex_trans(k, t[0].0, t[j - 1].0);
            } else {
                assert(res[i] == t[i - 1]);
                assert(res[j] == t[j - 1]);
            }
        }
        assert forall|i: int| 0 <= i < res.len() implies entry_wf(#[trigger] res[i]) by {
            if i > 0 {
                assert(res[i] == t[i - 1]);
            }
        }
        assert forall|i: int| 0 <= i < res.len() implies (#[trigger] res[i]).0 == k
            || table_has_key(t, res[i].0) by {
            if i > 0 {
                assert(res[i] == t[i - 1]);
            }
        }
    } else if k == t[0].0 {
        assert(res == seq![(k, seq![v])] + t.drop_first());
        assert(res[0].0 == k);
        assert(run_sorted(seq![v]));
        assert(table_lookup(res, k) == seq![v]);
        assert forall|i: int, j: int|
            #![trigger res[i], res[j]]
            0 <= i < j < res.len() implies lex_lt(res[i].0, res[j].0) by {
            if i == 0 {
                assert(res[j] == t[j]);
                assert(lex_lt(t[0].0, t[j].0));
            } else {
                assert(res[i] == t[i]);
                assert(res[j] == t[j]);
            }
        }
        assert forall|i: int| 0 <= i < res.len() implies entry_wf(#[trigger] res[i]) by {
            if i > 0 {
                assert(res[i] == t[i]);
            }
        }
        assert forall|i: int| 0 <= i < res.len() implies (#[trigger] res[i]).0 == k
            || table_has_key(t, res[i].0) by {
            if i > 0 {
                assert(res[i] == t[i]);
            }
        }
    } else {
        lemma_lex_trichotomy(k, t[0].0);
        lemma_lex_irrefl(k);
        lemma_table_wf_drop(t);
        lemma_table_replace_wf(t.drop_first(), k, v);
        let sub = table_replace(t.drop_first(), k, v);
        assert(res == seq![t[0]] + sub);
        assert(res[0] == t[0]);
        assert(res.drop_first() =~= sub);
        assert(table_lookup(res, k) == table_lookup(sub, k));
        assert forall|i: int| 0 <= i < res.len() implies (#[trigger] res[i]).0 == k
            || table_has_key(t, res[i].0) by {
            if i == 0 {
                assert(t[0].0 == res[0].0);
            } else {
                assert(res[i] == sub[i - 1]);
                if sub[i - 1].0 != k {
                    assert(table_has_key(t.drop_first(), sub[i - 1].0));
                    let w = choose|m: int|
                        0 <= m < t.drop_first().len() && (#[trigger] t.drop_first()[m]).0 == sub[i
                            - 1].0;
                    assert(t[w + 1].0 == sub[i - 1].0);
                }
            }
        }
        assert forall|i: int, j: int|
            #![trigger res[i], res[j]]
            0 <= i < j < res.len() implies lex_lt(res[i].0, res[j].0) by {
            if i == 0 {
                assert(res[j] == sub[j - 1]);
                if sub[j - 1].0 == k {
                    assert(lex_lt(t[0].0, k));
                } else {
                    assert(table_has_key(t.drop_first(), sub[j - 1].0));
                    let w = choose|m: int|
                        0 <= m < t.drop_first().len() && (#[trigger] t.drop_first()[m]).0 == sub[j
                            - 1].0;
                    assert(t[w + 1].0 == sub[j - 1].0);
                    assert(lex_lt(t[0].0, t[w + 1].0));
                }
            } else {
                assert(res[i] == sub[i - 1]);
                assert(res[j] == sub[j - 1]);
            }
        }
        assert forall|i: int| 0 <= i < res.len() implies entry_wf(#[trigger] res[i]) by {
            if i > 0 {
                assert(res[i] == sub[i - 1]);
            }
        }
    }
}

/// Overwriting under one key does not change the run under any other.
pub proof fn lemma_table_replace_lookup_other(t: TableModel, k: Seq<u8>, v: Seq<u8>, k2: Seq<u8>)
    requires
        k2 != k,
    ensures
        table_lookup(table_replace(t, k, v), k2) == table_lookup(t, k2),
    decreases t.len(),
{
    let res = table_replace(t, k, v);
    if t.len() == 0 {
        assert(res == seq![(k, seq![v])]);
        assert(res[0].0 == k);
        assert(res.drop_first() =~= Seq::<EntryModel>::empty());
        assert(table_lookup(res, k2) == table_lookup(Seq::<EntryModel>::empty(), k2));
    } else if lex_lt(k, t[0].0) {
        assert(res == seq![(k, seq![v])] + t);
        assert(res[0].0 == k);
        assert(res.drop_first() =~= t);
    } else if k == t[0].0 {
        assert(res == seq![(k, seq![v])] + t.drop_first());
        assert(res[0].0 == k);
        assert(res.drop_first() =~= t.drop_first());
        assert(table_lookup(res, k2) == table_lookup(t.drop_first(), k2));
        assert(table_lookup(t, k2) == table_lookup(t.drop_first(), k2));
    } else {
        lemma_table_replace_lookup_other(t.drop_first(), k, v, k2);
        let sub = table_replace(t.drop_first(), k, v);
        assert(res == seq![t[0]] + sub);
        assert(res[0] == t[0]);
        assert(res.drop_first() =~= sub);
        if t[0].0 == k2 {
            assert(table_lookup(res, k2) == t[0].1);
        } else {
            assert(table_lookup(res, k2) == table_lookup(sub, k2));
        }
    }
}

/// Removing a value that is not in the run changes nothing.
pub proof fn lemma_run_remove_absent(r: Seq<Seq<u8>>, v: Seq<u8>)
    requires
        !r.contains(v),
    ensures
        run_remove_one(r, v) == r,
    decreases r.len(),
{
    if r.len() > 0 {
        assert(r[0] != v);
        assert forall|i: int| 0 <= i < r.drop_first().len() implies #[trigger] r.drop_first()[i]
            != v by {
            assert(r.drop_first()[i] == r[i + 1]);
        }
        assert(!r.drop_first().contains(v));
        lemma_run_remove_absent(r.drop_first(), v);
        assert(seq![r[0]] + r.drop_first() =~= r);
    }
}

/// Removal keeps a run sorted; it removes exactly one occurrence when the
/// value is present, and every remaining value was already stored.
pub proof fn lemma_run_remove_sorted(r: Seq<Seq<u8>>, v: Seq<u8>)
    requires
        run_sorted(r),
    ensures
        run_sorted(run_remove_one(r, v)),
        r.contains(v) ==> run_remove_one(r, v).len() == r.len() - 1,
        !r.contains(v) ==> run_remove_one(r, v) == r,
        forall|i: int|
            0 <= i < run_remove_one(r, v).len() ==> r.contains(#[trigger] run_remove_one(r, v)[i]),
    decreases r.len(),
{
    let res = run_remove_one(r, v);
    if !r.contains(v) {
        lemma_run_remove_absent(r, v);
        assert forall|i: int| 0 <= i < res.len() implies r.contains(#[trigger] res[i]) by {
            assert(res[i] == r[i]);
        }
    } else if r[0] == v {
        lemma_run_sorted_drop(r);
        assert(res == r.drop_first());
        assert forall|i: int| 0 <= i < res.len() implies r.contains(#[trigger] res[i]) by {
            assert(res[i] == r[i + 1]);
        }
    } else {
        lemma_run_sorted_drop(r);
        let w = choose|m: int| 0 <= m < r.len() && r[m] == v;
        assert(w > 0);
        assert(r.drop_first()[w - 1] == v);
        assert(r.drop_first().contains(v));
        lemma_run_remove_sorted(r.drop_first(), v);
        let sub = run_remove_one(r.drop_first(), v);
        assert(res == seq![r[0]] + sub);
        assert forall|i: int| 0 <= i < res.len() implies r.contains(#[trigger] res[i]) by {
            if i == 0 {
                assert(res[0] == r[0]);
            } else {
                assert(res[i] == sub[i - 1]);
                assert(r.drop_first().contains(sub[i - 1]));
                let m = choose|m: int|
                    0 <= m < r.drop_first().len() && #[trigger] r.drop_first()[m] == sub[i - 1];
                assert(r[m + 1] == sub[i - 1]);
            }
        }
        assert forall|i: int, j: int|
            #![trigger res[i], res[j]]
            0 <= i < j < res.len() implies lex_le(res[i], res[j]) by {
            if i == 0 {
                assert(res[j] == sub[j - 1]);
                assert(r.drop_first().contains(sub[j - 1]));
                let m = choose|m: int|
                    0 <= m < r.drop_first().len() && #[trigger] r.drop_first()[m] == sub[j - 1];
                assert(r[m + 1] == sub[j - 1]);
                assert(lex_le(r[0], r[m + 1]));
            } else {
                assert(res[i] == sub[i - 1]);
                assert(res[j] == sub[j - 1]);
            }
        }
    }
}

/// Deleting a pair whose value is not stored under its key changes nothing.
pub proof fn lemma_table_del_pair_absent(t: TableModel, k: Seq<u8>, v: Seq<u8>)
    requires
        table_wf(t),
        !table_lookup(t, k).contains(v),
    ensures
        table_del_pair(t, k, v) == t,
    decreases t.len(),
{
    if t.len() > 0 {
        if t[0].0 == k {
            assert(table_lookup(t, k) == t[0].1);
            lemma_run_remove_absent(t[0].1, v);
            assert(entry_wf(t[0]));
            assert(table_del_pair(t, k, v) == seq![(k, t[0].1)] + t.drop_first());
            assert((k, t[0].1) == t[0]);
            assert(seq![t[0]] + t.drop_first() =~= t);
        } else {
            lemma_table_wf_drop(t);
            assert(table_lookup(t, k) == table_lookup(t.drop_first(), k));
            lemma_table_del_pair_absent(t.drop_first(), k, v);
            assert(seq![t[0]] + t.drop_first() =~= t);
        }
    }
}

/// Deletion of one pair keeps the table well-formed, removes exactly one
/// occurrence from the key's run, and leaves every other key alone.
pub proof fn lemma_table_del_pair_wf(t: TableModel, k: Seq<u8>, v: Seq<u8>)
    requires
        table_wf(t),
    ensures
        table_wf(table_del_pair(t, k, v)),
        table_lookup(table_del_pair(t, k, v), k) == run_remove_one(table_lookup(t, k), v),
        forall|i: int|
            0 <= i < table_del_pair(t, k, v).len() ==> table_has_key(
                t,
                (#[trigger] table_del_pair(t, k, v)[i]).0,
            ),
    decreases t.len(),
{
    let res = table_del_pair(t, k, v);
    if t.len() == 0 {
        assert(table_lookup(t, k) == Seq::<Seq<u8>>::empty());
        assert(run_remove_one(table_lookup(t, k), v) == Seq::<Seq<u8>>::empty());
    } else if t[0].0 == k {
        let nr = run_remove_one(t[0].1, v);
        lemma_run_remove_sorted(t[0].1, v);
        lemma_table_wf_drop(t);
        assert(table_lookup(t, k) == t[0].1);
        if nr.len() == 0 {
            assert(res == t.drop_first());
            assert forall|j: int| 0 <= j < t.drop_first().len() implies lex_lt(
                k,
                (#[trigger] t.drop_first()[j]).0,
            ) by {
                assert(t.drop_first()[j] == t[j + 1]);
            }
            lemma_lookup_after(t.drop_first(), k, 0);
            assert(table_lookup(res, k) =~= nr);
            assert forall|i: int| 0 <= i < res.len() implies table_has_key(
                t,
                (#[trigger] res[i]).0,
            ) by {
                assert(res[i] == t[i + 1]);
            }
        } else {
            assert(res == seq![(k, nr)] + t.drop_first());
            assert(res[0].0 == k);
            assert(table_lookup(res, k) == nr);
            assert forall|i: int, j: int|
                #![trigger res[i], res[j]]
                0 <= i < j < res.len() implies lex_lt(res[i].0, res[j].0) by {
                if i == 0 {
                    assert(res[j] == t[j]);
                    assert(lex_lt(t[0].0, t[j].0));
                } else {
                    assert(res[i] == t[i]);
                    assert(res[j] == t[j]);
                }
            }
            assert forall|i: int| 0 <= i < res.len() implies entry_wf(#[trigger] res[i]) by {
                if i > 0 {
                    assert(res[i] == t[i]);
                }
            }
            assert forall|i: int| 0 <= i < res.len() implies table_has_key(
                t,
                (#[trigger] res[i]).0,
            ) by {
                if i == 0 {
                    assert(t[0].0 == res[0].0);
                } else {
                    assert(res[i] == t[i]);
                }
            }
        }
    } else {
        lemma_table_wf_drop(t);
        lemma_table_del_pair_wf(t.drop_first(), k, v);
        let sub = table_del_pair(t.drop_first(), k, v);
        assert(res == seq![t[0]] + sub);
        assert(res[0] == t[0]);
        assert(res.drop_first() =~= sub);
        assert(table_lookup(res, k) == table_lookup(sub, k));
        assert(table_lookup(t, k) == table_lookup(t.drop_first(), k));
        assert forall|i: int| 0 <= i < res.len() implies table_has_key(t, (#[trigger] res[i]).0) by {
            if i == 0 {
                assert(t[0].0 == res[0].0);
            } else {
                assert(res[i] == sub[i - 1]);
                assert(table_has_key(t.drop_first(), sub[i - 1].0));
                let w = choose|m: int|
                    0 <= m < t.drop_first().len() && (#[trigger] t.drop_first()[m]).0 == sub[i
                        - 1].0;
                assert(t[w + 1].0 == sub[i - 1].0);
            }
        }
        assert forall|i: int, j: int|
            #![trigger res[i], res[j]]
            0 <= i < j < res.len() implies lex_lt(res[i].0, res[j].0) by {
            if i == 0 {
                assert(res[j] == sub[j - 1]);
                assert(table_has_key(t.drop_first(), sub[j - 1].0));
                let w = choose|m: int|
                    0 <= m < t.drop_first().len() && (#[trigger] t.drop_first()[m]).0 == sub[j
                        - 1].0;
                assert(t[w + 1].0 == sub[j - 1].0);
                assert(lex_lt(t[0].0, t[w + 1].0));
            } else {
                assert(res[i] == sub[i - 1]);
                assert(res[j] == sub[j - 1]);
            }
        }
        assert forall|i: int| 0 <= i < res.len() implies entry_wf(#[trigger] res[i]) by {
            if i > 0 {
                assert(res[i] == sub[i - 1]);
            }
        }
    }
}

/// Deleting a key that is absent changes nothing.
pub proof fn lemma_table_del_key_absent(t: TableModel, k: Seq<u8>)
    requires
        !table_has_key(t, k),
    ensures
        table_del_key(t, k) == t,
    decreases t.len(),
{
    if t.len() > 0 {
        assert(t[0].0 != k);
        assert forall|i: int| 0 <= i < t.drop_first().len() implies (#[trigger] t.drop_first()[i]).0
            != k by {
            assert(t.drop_first()[i] == t[i + 1]);
        }
        lemma_table_del_key_absent(t.drop_first(), k);
        assert(seq![t[0]] + t.drop_first() =~= t);
    }
}

/// Deleting a key keeps the table well-formed, empties that key's run, and
/// leaves every other key alone.
pub proof fn lemma_table_del_key_wf(t: TableModel, k: Seq<u8>)
    requires
        table_wf(t),
    ensures
        table_wf(table_del_key(t, k)),
        table_lookup(table_del_key(t, k), k) == Seq::<Seq<u8>>::empty(),
        forall|i: int|
            0 <= i < table_del_key(t, k).len() ==> table_has_key(
                t,
                (#[trigger] table_del_key(t, k)[i]).0,
            ),
    decreases t.len(),
{
    let res = table_del_key(t, k);
    if t.len() == 0 {
    } else if t[0].0 == k {
        lemma_table_wf_drop(t);
        assert(res == t.drop_first());
        assert forall|j: int| 0 <= j < t.drop_first().len() implies lex_lt(
            k,
            (#[trigger] t.drop_first()[j]).0,
        ) by {
            assert(t.drop_first()[j] == t[j + 1]);
        }
        lemma_lookup_after(t.drop_first(), k, 0);
        assert forall|i: int| 0 <= i < res.len() implies table_has_key(t, (#[trigger] res[i]).0) by {
            assert(res[i] == t[i + 1]);
        }
    } else {
        lemma_table_wf_drop(t);
        lemma_table_del_key_wf(t.drop_first(), k);
        let sub = table_del_key(t.drop_first(), k);
        assert(res == seq![t[0]] + sub);
        assert(res[0] == t[0]);
        assert(res.drop_first() =~= sub);
        assert(table_lookup(res, k) == table_lookup(sub, k));
        assert forall|i: int| 0 <= i < res.len() implies table_has_key(t, (#[trigger] res[i]).0) by {
            if i == 0 {
                assert(t[0].0 == res[0].0);
            } else {
                assert(res[i] == sub[i - 1]);
                assert(table_has_key(t.drop_first(), sub[i - 1].0));
                let w = choose|m: int|
                    0 <= m < t.drop_first().len() && (#[trigger] t.drop_first()[m]).0 == sub[i
                        - 1].0;
                assert(t[w + 1].0 == sub[i - 1].0);
            }
        }
        assert forall|i: int, j: int|
            #![trigger res[i], res[j]]
            0 <= i < j < res.len() implies lex_lt(res[i].0, res[j].0) by {
            if i == 0 {
                assert(res[j] == sub[j - 1]);
                assert(table_has_key(t.drop_first(), sub[j - 1].0));
                let w = choose|m: int|
                    0 <= m < t.drop_first().len() && (#[trigger] t.drop_first()[m]).0 == sub[j
                        - 1].0;
                assert(t[w + 1].0 == sub[j - 1].0);
                assert(lex_lt(t[0].0, t[w + 1].0));
            } else {
                assert(res[i] == sub[i - 1]);
                assert(res[j] == sub[j - 1]);
            }
        }
        assert forall|i: int| 0 <= i < res.len() implies entry_wf(#[trigger] res[i]) by {
            if i > 0 {
                assert(res[i] == sub[i - 1]);
            }
        }
    }
}

/// The lookup of any key other than the deleted one is unchanged, for both
/// kinds of deletion.
pub proof fn lemma_table_del_lookup_other(t: TableModel, k: Seq<u8>, v: Seq<u8>, k2: Seq<u8>)
    requires
        k2 != k,
    ensures
        table_lookup(table_del_pair(t, k, v), k2) == table_lookup(t, k2),
        table_lookup(table_del_key(t, k), k2) == table_lookup(t, k2),
    decreases t.len(),
{
    if t.len() > 0 {
        lemma_table_del_lookup_other(t.drop_first(), k, v, k2);
        if t[0].0 == k {
            let nr = run_remove_one(t[0].1, v);
            if nr.len() > 0 {
                let res = table_del_pair(t, k, v);
                assert(res == seq![(k, nr)] + t.drop_first());
                assert(res[0].0 == k);
                assert(res.drop_first() =~= t.drop_first());
            }
            assert(table_lookup(t, k2) == table_lookup(t.drop_first(), k2));
        } else {
            let res = table_del_pair(t, k, v);
            let sub = table_del_pair(t.drop_first(), k, v);
            assert(res == seq![t[0]] + sub);
            assert(res[0] == t[0]);
            assert(res.drop_first() =~= sub);
            let res2 = table_del_key(t, k);
            let sub2 = table_del_key(t.drop_first(), k);
            assert(res2 == seq![t[0]] + sub2);
            assert(res2[0] == t[0]);
            assert(res2.drop_first() =~= sub2);
        }
    }
}

/// A value below the first candidate of a sorted run is not in the run.
pub proof fn lemma_run_absent(r: Seq<Seq<u8>>, v: Seq<u8>, n: int)
    requires
        run_sorted(r),
        0 <= n <= r.len(),
        forall|j: int| 0 <= j < n ==> lex_lt(#[trigger] r[j], v),
        n < r.len() ==> lex_lt(v, r[n]),
    ensures
        !r.contains(v),
{
    assert forall|j: int| 0 <= j < r.len() implies r[j] != v by {
        lemma_lex_irrefl(v);
        if j < n {
            if r[j] == v {
                assert(lex_lt(v, v));
            }
        } else {
            if j > n {
                assert(lex_le(r[n], r[j]));
            }
            lemma_lex_le_trans(v, r[n], r[j]);
            if r[j] == v {
                assert(lex_lt(v, v));
            }
        }
    }
}

/// In a well-formed table every key at or after entry `n` is above `k` once
/// entry `n`'s key is.
pub proof fn lemma_keys_above(t: TableModel, k: Seq<u8>, n: int)
    requires
        table_wf(t),
        0 <= n <= t.len(),
        n < t.len() ==> lex_lt(k, t[n].0),
    ensures
        forall|j: int| n <= j < t.len() ==> !lex_le((#[trigger] t[j]).0, k),
{
    assert forall|j: int| n <= j < t.len() implies !lex_le((#[trigger] t[j]).0, k) by {
        lemma_lex_irrefl(k);
        if j > n {
            assert(lex_lt(t[n].0, t[j].0));
        }
        lemma_lex_trans(k, t[n].0, t[j].0);
        lemma_lex_asym(k, t[j].0);
        if t[j].0 == k {
            assert(lex_lt(k, k));
        }
    }
}

/// Deleting a pair skips past any prefix of entries with other keys.
pub proof fn lemma_table_del_pair_skip(t: TableModel, k: Seq<u8>, v: Seq<u8>, n: int)
    requires
        0 <= n <= t.len(),
        forall|j: int| 0 <= j < n ==> (#[trigger] t[j]).0 != k,
    ensures
        table_del_pair(t, k, v) == t.take(n) + table_del_pair(t.skip(n), k, v),
    decreases n,
{
    if n == 0 {
        assert(t.skip(0) =~= t);
        assert(t.take(0) + table_del_pair(t, k, v) =~= table_del_pair(t, k, v));
    } else {
        assert(t[0].0 != k);
        assert forall|j: int| 0 <= j < n - 1 implies (#[trigger] t.drop_first()[j]).0 != k by {
            assert(t.drop_first()[j] == t[j + 1]);
        }
        lemma_table_del_pair_skip(t.drop_first(), k, v, n - 1);
        assert(t.drop_first().skip(n - 1) =~= t.skip(n));
        assert(seq![t[0]] + (t.drop_first().take(n - 1) + table_del_pair(t.skip(n), k, v)) =~= t.take(
            n,
        ) + table_del_pair(t.skip(n), k, v));
    }
}

/// Deleting a key skips past any prefix of entries with other keys.
pub proof fn lemma_table_del_key_skip(t: TableModel, k: Seq<u8>, n: int)
    requires
        0 <= n <= t.len(),
        forall|j: int| 0 <= j < n ==> (#[trigger] t[j]).0 != k,
    ensures
        table_del_key(t, k) == t.take(n) + table_del_key(t.skip(n), k),
    decreases n,
{
    if n == 0 {
        assert(t.skip(0) =~= t);
        assert(t.take(0) + table_del_key(t, k) =~= table_del_key(t, k));
    } else {
        assert(t[0].0 != k);
        assert forall|j: int| 0 <= j < n - 1 implies (#[trigger] t.drop_first()[j]).0 != k by {
            assert(t.drop_first()[j] == t[j + 1]);
        }
        lemma_table_del_key_skip(t.drop_first(), k, n - 1);
        assert(t.drop_first().skip(n - 1) =~= t.skip(n));
        assert(seq![t[0]] + (t.drop_first().take(n - 1) + table_del_key(t.skip(n), k)) =~= t.take(n)
            + table_del_key(t.skip(n), k));
    }
}

/// Removing a value skips past any prefix of strictly smaller values.
pub proof fn lemma_run_remove_skip(r: Seq<Seq<u8>>, v: Seq<u8>, n: int)
    requires
        0 <= n <= r.len(),
        forall|j: int| 0 <= j < n ==> #[trigger] r[j] != v,
    ensures
        run_remove_one(r, v) == r.take(n) + run_remove_one(r.skip(n), v),
    decreases n,
{
    if n == 0 {
        assert(r.skip(0) =~= r);
        assert(r.take(0) + run_remove_one(r, v) =~= run_remove_one(r, v));
    } else {
        assert(r[0] != v);
        assert forall|j: int| 0 <= j < n - 1 implies #[trigger] r.drop_first()[j] != v by {
            assert(r.drop_first()[j] == r[j + 1]);
        }
        lemma_run_remove_skip(r.drop_first(), v, n - 1);
        assert(r.drop_first().skip(n - 1) =~= r.skip(n));
        assert(seq![r[0]] + (r.drop_first().take(n - 1) + run_remove_one(r.skip(n), v)) =~= r.take(n)
            + run_remove_one(r.skip(n), v));
    }
}

/// The run stored under any key of a well-formed table is sorted.
pub proof fn lemma_lookup_run_sorted(t: TableModel, k: Seq<u8>)
    requires
        table_wf(t),
    ensures
        run_sorted(table_lookup(t, k)),
    decreases t.len(),
{
    if t.len() > 0 {
        if t[0].0 == k {
            assert(entry_wf(t[0]));
        } else {
            lemma_table_wf_drop(t);
            lemma_lookup_run_sorted(t.drop_first(), k);
        }
    }
}

/// The default write policy is idempotent: writing the same pair twice leaves
/// exactly what writing it once leaves.
pub proof fn lemma_table_put_idempotent(t: TableModel, k: Seq<u8>, v: Seq<u8>)
    requires
        table_wf(t),
    ensures
        table_put(table_put(t, k, v, false), k, v, false) == table_put(t, k, v, false),
{
    let t1 = table_put(t, k, v, false);
    lemma_table_put_wf(t, k, v, false);
    lemma_table_put_lookup(t, k, v, false);
    lemma_lookup_run_sorted(t, k);
    lemma_run_insert_sorted(table_lookup(t, k), v, false);
    lemma_table_put_noop(t1, k, v);
}

/// The entries at or below a key form the prefix of a sorted table: the walk
/// equals the first `n` entries, where `n` is its own length.
pub proof fn lemma_at_or_below_is_prefix(t: TableModel, k: Seq<u8>)
    requires
        table_wf(t),
    ensures
        ({
            let below = table_at_or_below(t, k);
            &&& below.len() <= t.len()
            &&& below == t.take(below.len() as int)
            &&& forall|j: int| 0 <= j < below.len() ==> lex_le((#[trigger] t[j]).0, k)
            &&& forall|j: int| below.len() <= j < t.len() ==> !lex_le((#[trigger] t[j]).0, k)
        }),
    decreases t.len(),
{
    let below = table_at_or_below(t, k);
    if t.len() == 0 {
        assert(t.take(0) =~= t);
    } else {
        lemma_table_wf_drop(t);
        lemma_at_or_below_is_prefix(t.drop_first(), k);
        let sub = table_at_or_below(t.drop_first(), k);
        if lex_le(t[0].0, k) {
            assert(below == seq![t[0]] + sub);
            assert(below.len() == sub.len() + 1);
            assert(seq![t[0]] + t.drop_first().take(sub.len() as int) =~= t.take(
                below.len() as int,
            ));
            assert forall|j: int| 0 <= j < below.len() implies lex_le((#[trigger] t[j]).0, k) by {
                if j > 0 {
                    assert(lex_le(t.drop_first()[j - 1].0, k));
                }
            }
            assert forall|j: int| below.len() <= j < t.len() implies !lex_le(
                (#[trigger] t[j]).0,
                k,
            ) by {
                assert(!lex_le(t.drop_first()[j - 1].0, k));
            }
        } else {
            assert(below == sub);
            assert forall|j: int| 0 <= j < t.drop_first().len() implies !lex_le(
                (#[trigger] t.drop_first()[j]).0,
                k,
            ) by {
                lemma_lex_trichotomy(t[0].0, k);
                assert(lex_lt(k, t[0].0));
                if j > 0 {
                }
                assert(t.drop_first()[j] == t[j + 1]);
                assert(lex_lt(t[0].0, t[j + 1].0));
                lemma_lex_trans(k, t[0].0, t[j + 1].0);
                lemma_lex_asym(k, t[j + 1].0);
                lemma_lex_irrefl(k);
                if t[j + 1].0 == k {
                    assert(lex_lt(k, k));
                }
            }
            assert(sub.len() == 0) by {
                if sub.len() > 0 {
                    assert(sub == t.drop_first().take(sub.len() as int));
                    assert(lex_le(t.drop_first()[0].0, k));
                }
            }
            assert(below =~= t.take(0));
            assert forall|j: int| 0 <= j < t.len() implies !lex_le((#[trigger] t[j]).0, k) by {
                if j == 0 {
                } else {
                    assert(!lex_le(t.drop_first()[j - 1].0, k));
                }
            }
        }
    }
}

/// What the reverse duplicate traversal from `k` yields, of any well-formed
/// table: only keys at or below `k`, each exactly once, keys strictly
/// descending, and for each key its whole stored run in descending order;
/// every stored key at or below `k` appears.
pub proof fn lemma_prev_dup_groups_spec(t: TableModel, k: Seq<u8>)
    requires
        table_wf(t),
    ensures
        ({
            let g = prev_dup_groups(t, k);
            &&& forall|i: int| 0 <= i < g.len() ==> lex_le((#[trigger] g[i]).0, k)
            &&& forall|i: int, j: int|
                #![trigger g[i], g[j]]
                0 <= i < j < g.len() ==> lex_lt(g[j].0, g[i].0)
            &&& forall|i: int|
                0 <= i < g.len() ==> (#[trigger] g[i]).1 == table_lookup(t, g[i].0).reverse()
            &&& forall|i: int|
                0 <= i < t.len() && lex_le((#[trigger] t[i]).0, k) ==> exists|m: int|
                    0 <= m < g.len() && (#[trigger] prev_dup_groups(t, k)[m]).0 == t[i].0
        }),
{
    let below = table_at_or_below(t, k);
    let g = prev_dup_groups(t, k);
    lemma_at_or_below_is_prefix(t, k);
    let n = below.len() as int;
    assert(g.len() == n);
    assert forall|i: int| 0 <= i < n implies #[trigger] g[i] == (
        t[n - 1 - i].0,
        t[n - 1 - i].1.reverse(),
    ) by {
        assert(below.reverse()[i] == below[n - 1 - i]);
        assert(below[n - 1 - i] == t.take(n)[n - 1 - i]);
    }
    assert forall|i: int| 0 <= i < g.len() implies lex_le((#[trigger] g[i]).0, k) by {
        assert(g[i].0 == t[n - 1 - i].0);
        assert(lex_le(t[n - 1 - i].0, k));
    }
    assert forall|i: int, j: int|
        #![trigger g[i], g[j]]
        0 <= i < j < g.len() implies lex_lt(g[j].0, g[i].0) by {
        assert(lex_lt(t[n - 1 - j].0, t[n - 1 - i].0));
    }
    assert forall|i: int| 0 <= i < g.len() implies (#[trigger] g[i]).1 == table_lookup(
        t,
        g[i].0,
    ).reverse() by {
        let w = n - 1 - i;
        assert forall|j: int| 0 <= j < w implies (#[trigger] t[j]).0 != t[w].0 by {
            assert(lex_lt(t[j].0, t[w].0));
            lemma_lex_irrefl(t[w].0);
            if t[j].0 == t[w].0 {
                assert(lex_lt(t[w].0, t[w].0));
            }
        }
        lemma_lookup_at(t, t[w].0, w);
    }
    assert forall|i: int| 0 <= i < t.len() && lex_le((#[trigger] t[i]).0, k) implies exists|m: int|
        0 <= m < g.len() && (#[trigger] prev_dup_groups(t, k)[m]).0 == t[i].0 by {
        assert(i < n) by {
            if i >= n {
                assert(!lex_le(t[i].0, k));
            }
        }
        let m = n - 1 - i;
        assert(g[m].0 == t[i].0);
    }
}

/// The table a flat pair list builds: the pairs are stored one after the
/// other, each as an independent duplicate copy.
pub open spec fn table_from_pairs(ps: Seq<(Seq<u8>, Seq<u8>)>) -> TableModel
    decreases ps.len(),
{
    if ps.len() == 0 {
        Seq::empty()
    } else {
        table_put(table_from_pairs(ps.drop_last()), ps.last().0, ps.last().1, true)
    }
}

/// Well-formedness is preserved by keeping a prefix.
pub proof fn lemma_table_wf_take(t: TableModel, n: int)
    requires
        table_wf(t),
        0 <= n <= t.len(),
    ensures
        table_wf(t.take(n)),
{
    assert forall|i: int| 0 <= i < n implies entry_wf(#[trigger] t.take(n)[i]) by {
        assert(t.take(n)[i] == t[i]);
    }
    assert forall|i: int, j: int|
        #![trigger t.take(n)[i], t.take(n)[j]]
        0 <= i < j < n implies lex_lt(t.take(n)[i].0, t.take(n)[j].0) by {
        assert(t.take(n)[i] == t[i]);
        assert(t.take(n)[j] == t[j]);
    }
}

/// Storing a key above every stored key appends a fresh entry at the end.
pub proof fn lemma_put_append_key(t: TableModel, k: Seq<u8>, v: Seq<u8>)
    requires
        forall|i: int| 0 <= i < t.len() ==> lex_lt((#[trigger] t[i]).0, k),
    ensures
        table_put(t, k, v, true) == t.push((k, seq![v])),
{
    lemma_table_put_skip(t, k, v, true, t.len() as int);
    assert(t.skip(t.len() as int).len() == 0);
    assert(t.take(t.len() as int) =~= t);
    assert(t.take(t.len() as int) + seq![(k, seq![v])] =~= t.push((k, seq![v])));
}

/// Storing the last entry's key with a value at or above its whole run
/// appends the value to that run.
pub proof fn lemma_put_append_val(t: TableModel, k: Seq<u8>, v: Seq<u8>)
    requires
        table_wf(t),
        t.len() > 0,
        t.last().0 == k,
        forall|j: int| 0 <= j < t.last().1.len() ==> lex_le(#[trigger] t.last().1[j], v),
    ensures
        table_put(t, k, v, true) == t.update(t.len() - 1, (k, t.last().1.push(v))),
{
    let n = t.len() - 1;
    let r = t.last().1;
    assert forall|i: int| 0 <= i < n implies lex_lt((#[trigger] t[i]).0, k) by {
        assert(lex_lt(t[i].0, t[n].0));
    }
    lemma_table_put_skip(t, k, v, true, n);
    lemma_lex_irrefl(k);
    assert(t.skip(n)[0] == t[n]);
    assert(t.skip(n).drop_first() =~= Seq::<EntryModel>::empty());
    assert(table_put(t.skip(n), k, v, true) == seq![(k, run_insert(r, v, true))] + t.skip(
        n,
    ).drop_first());
    assert forall|j: int| 0 <= j < r.len() implies lex_lt(#[trigger] r[j], v) || r[j] == v by {
        lemma_lex_trichotomy(r[j], v);
        lemma_lex_asym(v, r[j]);
    }
    assert(run_insert(r, v, true) == r.push(v)) by {
        if r.len() > 0 && lex_lt(v, r[0]) {
            lemma_lex_asym(v, r[0]);
            lemma_lex_irrefl(v);
            assert(false);
        }
        if r.len() > 0 && v == r[0] {
            assert(run_insert(r, v, true) == seq![v] + r);
            assert forall|j: int| 0 <= j < r.len() implies #[trigger] r[j] == v by {
                if j > 0 {
                    assert(lex_le(r[0], r[j]));
                    assert(lex_le(r[j], v));
                    lemma_lex_asym(r[0], r[j]);
                    if r[j] != v {
                        assert(lex_lt(r[j], v));
                        lemma_lex_irrefl(v);
                        assert(false);
                    }
                }
            }
            assert(seq![v] + r =~= r.push(v));
        } else if r.len() > 0 {
            assert(lex_lt(r[0], v)) by {
                lemma_lex_trichotomy(r[0], v);
            }
            lemma_run_sorted_drop(r);
            assert forall|j: int| 0 <= j < r.drop_first().len() implies lex_le(
                #[trigger] r.drop_first()[j],
                v,
            ) by {
                assert(r.drop_first()[j] == r[j + 1]);
            }
            lemma_run_insert_append(r.drop_first(), v);
            assert(run_insert(r, v, true) == seq![r[0]] + r.drop_first().push(v));
            assert(seq![r[0]] + r.drop_first().push(v) =~= r.push(v));
        }
    }
    assert(t.take(n) + seq![(k, r.push(v))] =~= t.update(n, (k, r.push(v))));
}

/// Inserting a value at or above every value of a sorted run, as a duplicate
/// copy, appends it.
pub proof fn lemma_run_insert_append(r: Seq<Seq<u8>>, v: Seq<u8>)
    requires
        run_sorted(r),
        forall|j: int| 0 <= j < r.len() ==> lex_le(#[trigger] r[j], v),
    ensures
        run_insert(r, v, true) == r.push(v),
    decreases r.len(),
{
    if r.len() == 0 {
        assert(seq![v] =~= r.push(v));
    } else if lex_lt(v, r[0]) {
        lemma_lex_asym(v, r[0]);
        lemma_lex_irrefl(v);
        assert(false);
    } else if v == r[0] {
        assert(run_insert(r, v, true) == seq![v] + r);
        assert forall|j: int| 0 <= j < r.len() implies #[trigger] r[j] == v by {
            if j > 0 {
                assert(lex_le(r[0], r[j]));
                assert(lex_le(r[j], v));
                if r[j] != v {
                    lemma_lex_irrefl(v);
                    assert(lex_lt(v, v)) by {
                        lemma_lex_le_trans(v, r[j], v);
                    }
                }
            }
        }
        assert(seq![v] + r =~= r.push(v));
    } else {
        lemma_run_sorted_drop(r);
        assert forall|j: int| 0 <= j < r.drop_first().len() implies lex_le(
            #[trigger] r.drop_first()[j],
            v,
        ) by {
            assert(r.drop_first()[j] == r[j + 1]);
        }
        lemma_run_insert_append(r.drop_first(), v);
        assert(run_insert(r, v, true) == seq![r[0]] + r.drop_first().push(v));
        assert(seq![r[0]] + r.drop_first().push(v) =~= r.push(v));
    }
}

/// Rebuilding the run of the last entry, pair by pair, on top of a table all
/// of whose keys lie below it.
proof fn lemma_build_run(u: TableModel, k: Seq<u8>, r: Seq<Seq<u8>>, m: int)
    requires
        table_wf(u),
        forall|i: int| 0 <= i < u.len() ==> lex_lt((#[trigger] u[i]).0, k),
        run_sorted(r),
        1 <= m <= r.len(),
        table_from_pairs(table_flat(u)) == u,
    ensures
        table_from_pairs(table_flat(u) + entry_pairs(k, r.take(m))) == u.push((k, r.take(m))),
    decreases m,
{
    let ps = table_flat(u) + entry_pairs(k, r.take(m));
    assert(ps.len() == table_flat(u).len() + m);
    assert(ps.last() == (k, r[m - 1])) by {
        assert(entry_pairs(k, r.take(m))[m - 1] == (k, r.take(m)[m - 1]));
    }
    if m == 1 {
        assert(ps.drop_last() =~= table_flat(u));
        assert(table_from_pairs(ps) == table_put(u, k, r[0], true));
        lemma_put_append_key(u, k, r[0]);
        assert(seq![r[0]] =~= r.take(1));
    } else {
        assert(ps.drop_last() =~= table_flat(u) + entry_pairs(k, r.take(m - 1))) by {
            assert forall|j: int| 0 <= j < ps.len() - 1 implies ps.drop_last()[j] == (table_flat(u)
                + entry_pairs(k, r.take(m - 1)))[j] by {
                if j >= table_flat(u).len() {
                    assert(ps[j] == entry_pairs(k, r.take(m))[j - table_flat(u).len()]);
                    assert(entry_pairs(k, r.take(m))[j - table_flat(u).len()] == (
                        k,
                        r.take(m)[j - table_flat(u).len()],
                    ));
                    assert(entry_pairs(k, r.take(m - 1))[j - table_flat(u).len()] == (
                        k,
                        r.take(m - 1)[j - table_flat(u).len()],
                    ));
                }
            }
        }
        lemma_build_run(u, k, r, m - 1);
        let t1 = u.push((k, r.take(m - 1)));
        assert(table_from_pairs(ps) == table_put(t1, k, r[m - 1], true));
        assert(table_wf(t1)) by {
            assert forall|i: int| 0 <= i < t1.len() implies entry_wf(#[trigger] t1[i]) by {
                if i < u.len() {
                    assert(t1[i] == u[i]);
                } else {
                    assert(t1[i] == (k, r.take(m - 1)));
                    assert forall|a: int, b: int|
                        #![trigger r.take(m - 1)[a], r.take(m - 1)[b]]
                        0 <= a < b < m - 1 implies lex_le(r.take(m - 1)[a], r.take(m - 1)[b]) by {
                        assert(r.take(m - 1)[a] == r[a]);
                        assert(r.take(m - 1)[b] == r[b]);
                    }
                }
            }
            assert forall|i: int, j: int|
                #![trigger t1[i], t1[j]]
                0 <= i < j < t1.len() implies lex_lt(t1[i].0, t1[j].0) by {
                if j < u.len() {
                    assert(t1[i] == u[i]);
                    assert(t1[j] == u[j]);
                } else {
                    assert(t1[i] == u[i]);
                    assert(t1[j] == (k, r.take(m - 1)));
                }
            }
        }
        assert(t1.last() == (k, r.take(m - 1)));
        assert forall|j: int| 0 <= j < t1.last().1.len() implies lex_le(
            #[trigger] t1.last().1[j],
            r[m - 1],
        ) by {
            assert(t1.last().1[j] == r[j]);
            assert(lex_le(r[j], r[m - 1]));
        }
        lemma_put_append_val(t1, k, r[m - 1]);
        assert(r.take(m - 1).push(r[m - 1]) =~= r.take(m));
        assert(t1.update(t1.len() - 1, (k, r.take(m))) =~= u.push((k, r.take(m))));
    }
}

/// A well-formed table is rebuilt exactly by storing its flat pairs back, in
/// order, as duplicate copies: dumping a table and reloading the dump
/// reproduces it, value for value and in the same stored order.
pub proof fn lemma_table_from_pairs_id(t: TableModel)
    requires
        table_wf(t),
    ensures
        table_from_pairs(table_flat(t)) == t,
    decreases t.len(),
{
    if t.len() == 0 {
        assert(table_flat(t).len() == 0);
        assert(table_from_pairs(table_flat(t)) =~= t);
    } else {
        let u = t.take(t.len() - 1);
        let e = t.last();
        lemma_table_wf_take(t, t.len() - 1);
        lemma_table_from_pairs_id(u);
        assert(u.push(e) =~= t);
        lemma_table_flat_snoc(u, e);
        assert(table_flat(t) == table_flat(u) + entry_pairs(e.0, e.1));
        assert(entry_wf(e));
        assert forall|i: int| 0 <= i < u.len() implies lex_lt((#[trigger] u[i]).0, e.0) by {
            assert(u[i] == t[i]);
            assert(lex_lt(t[i].0, t[t.len() - 1].0));
        }
        assert(e.1.take(e.1.len() as int) =~= e.1);
        lemma_build_run(u, e.0, e.1, e.1.len() as int);
        assert(u.push((e.0, e.1)) =~= t);
    }
}

/// Flattening distributes over appending one entry at the end.
pub proof fn lemma_table_flat_snoc(t: TableModel, e: EntryModel)
    ensures
        table_flat(t.push(e)) == table_flat(t) + entry_pairs(e.0, e.1),
    decreases t.len(),
{
    if t.len() == 0 {
        assert(t.push(e)[0] == e);
        assert(t.push(e).drop_first() =~= Seq::<EntryModel>::empty());
        assert(table_flat(t.push(e)) == entry_pairs(e.0, e.1) + table_flat(
            Seq::<EntryModel>::empty(),
        ));
        assert(entry_pairs(e.0, e.1) + Seq::<(Seq<u8>, Seq<u8>)>::empty() =~= entry_pairs(
            e.0,
            e.1,
        ));
        assert(table_flat(t) + entry_pairs(e.0, e.1) =~= entry_pairs(e.0, e.1));
    } else {
        assert(t.push(e)[0] == t[0]);
        assert(t.push(e).drop_first() =~= t.drop_first().push(e));
        lemma_table_flat_snoc(t.drop_first(), e);
        assert(entry_pairs(t[0].0, t[0].1) + (table_flat(t.drop_first()) + entry_pairs(e.0, e.1))
            =~= (entry_pairs(t[0].0, t[0].1) + table_flat(t.drop_first())) + entry_pairs(
            e.0,
            e.1,
        ));
    }
}

/// In a sorted table the entries from a key onward are a suffix: once the
/// first `n` keys are below `k` and the rest are not, the walk from `k` is
/// exactly the table with its first `n` entries dropped.
pub proof fn lemma_table_from_skip(t: TableModel, k: Seq<u8>, n: int)
    requires
        0 <= n <= t.len(),
        forall|j: int| 0 <= j < n ==> lex_lt((#[trigger] t[j]).0, k),
        forall|j: int| n <= j < t.len() ==> !lex_lt((#[trigger] t[j]).0, k),
    ensures
        table_from(t, k) == t.skip(n),
    decreases t.len(),
{
    if t.len() == 0 {
        assert(t.skip(0) =~= t);
    } else if n > 0 {
        assert(lex_lt(t[0].0, k));
        assert forall|j: int| 0 <= j < n - 1 implies lex_lt((#[trigger] t.drop_first()[j]).0, k) by {
            assert(t.drop_first()[j] == t[j + 1]);
        }
        assert forall|j: int| n - 1 <= j < t.drop_first().len() implies !lex_lt(
            (#[trigger] t.drop_first()[j]).0,
            k,
        ) by {
            assert(t.drop_first()[j] == t[j + 1]);
        }
        lemma_table_from_skip(t.drop_first(), k, n - 1);
        assert(t.drop_first().skip(n - 1) =~= t.skip(n));
    } else {
        assert(!lex_lt(t[0].0, k));
        assert forall|j: int| 0 <= j < t.drop_first().len() implies !lex_lt(
            (#[trigger] t.drop_first()[j]).0,
            k,
        ) by {
            assert(t.drop_first()[j] == t[j + 1]);
        }
        lemma_table_from_skip(t.drop_first(), k, 0);
        assert(t.drop_first().skip(0) =~= t.drop_first());
        assert(seq![t[0]] + t.drop_first() =~= t);
        assert(t.skip(0) =~= t);
    }
}

/// In a sorted table the entries at or below a key are a prefix: once the
/// first `n` keys are at or below `k` and the rest are above, the walk is
/// exactly the first `n` entries.
pub proof fn lemma_table_at_or_below_take(t: TableModel, k: Seq<u8>, n: int)
    requires
        0 <= n <= t.len(),
        forall|j: int| 0 <= j < n ==> lex_le((#[trigger] t[j]).0, k),
        forall|j: int| n <= j < t.len() ==> !lex_le((#[trigger] t[j]).0, k),
    ensures
        table_at_or_below(t, k) == t.take(n),
    decreases t.len(),
{
    if t.len() == 0 {
        assert(t.take(0) =~= t);
    } else if n > 0 {
        assert(lex_le(t[0].0, k));
        assert forall|j: int| 0 <= j < n - 1 implies lex_le((#[trigger] t.drop_first()[j]).0, k) by {
            assert(t.drop_first()[j] == t[j + 1]);
        }
        assert forall|j: int| n - 1 <= j < t.drop_first().len() implies !lex_le(
            (#[trigger] t.drop_first()[j]).0,
            k,
        ) by {
            assert(t.drop_first()[j] == t[j + 1]);
        }
        lemma_table_at_or_below_take(t.drop_first(), k, n - 1);
        assert(seq![t[0]] + t.drop_first().take(n - 1) =~= t.take(n));
    } else {
        assert(!lex_le(t[0].0, k));
        assert forall|j: int| 0 <= j < t.drop_first().len() implies !lex_le(
            (#[trigger] t.drop_first()[j]).0,
            k,
        ) by {
            assert(t.drop_first()[j] == t[j + 1]);
        }
        lemma_table_at_or_below_take(t.drop_first(), k, 0);
        assert(t.drop_first().take(0) =~= t.take(0));
    }
}

} // verus!
