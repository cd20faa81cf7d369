//! Iterators of the in-memory engine.
//!
//! A cursor materialises the pairs it will yield when it is turned into an
//! iterator; `next` then hands them out one at a time.  The engine works on
//! snapshots, so the materialised sequence is exactly what a lazy walk of the
//! same snapshot would produce.

use vstd::prelude::*;

use crate::backend::impl_safe::database::{groups_view, pairs_view, push_entry_pairs};
use crate::backend::impl_safe::error::ErrorImpl;
use crate::backend::traits::{BackendDupIter, BackendError, BackendIter};
use crate::model::{entry_pairs, TableModel};

verus! {

/// An iterator over `(key, value)` pairs.
pub struct IterImpl {
    items: Vec<(Vec<u8>, Vec<u8>)>,
}

impl IterImpl {
    /// Wrap the pairs a cursor collected.
    pub(crate) fn from_pairs(items: Vec<(Vec<u8>, Vec<u8>)>) -> (r: IterImpl)
        ensures
            r.remaining() == pairs_view(items@),
    {
        IterImpl { items }
    }
}

impl BackendIter for IterImpl {
    type Error = ErrorImpl;

    closed spec fn remaining(&self) -> Seq<(Seq<u8>, Seq<u8>)> {
        pairs_view(self.items@)
    }

    fn next(&mut self) -> (r: Option<Result<(Vec<u8>, Vec<u8>), ErrorImpl>>)
        ensures
            r is None <==> old(self).remaining().len() == 0,
            match r {
                Some(item) => item is Ok,
                None => true,
            },
    {
        if self.items.len() == 0 {
            None
        } else {
            let ghost items0 = self.items@;
            let kv = self.items.remove(0);
            proof {
                items0.remove_ensures(0);
                assert(pairs_view(self.items@) =~= pairs_view(items0).drop_first());
            }
            Some(Ok(kv))
        }
    }
}

/// The nested iterator over one key's duplicate run, handed out by
/// [`IterDupImpl`].  The run's owner keeps the key order; this only walks one
/// run.
pub struct ProxyIterImpl {
    items: Vec<(Vec<u8>, Vec<u8>)>,
}

impl BackendIter for ProxyIterImpl {
    type Error = ErrorImpl;

    closed spec fn remaining(&self) -> Seq<(Seq<u8>, Seq<u8>)> {
        pairs_view(self.items@)
    }

    fn next(&mut self) -> (r: Option<Result<(Vec<u8>, Vec<u8>), ErrorImpl>>)
        ensures
            r is None <==> old(self).remaining().len() == 0,
            match r {
                Some(item) => item is Ok,
                None => true,
            },
    {
        if self.items.len() == 0 {
            None
        } else {
            let ghost items0 = self.items@;
            let kv = self.items.remove(0);
            proof {
                items0.remove_ensures(0);
                assert(pairs_view(self.items@) =~= pairs_view(items0).drop_first());
            }
            Some(Ok(kv))
        }
    }
}

/// The reverse duplicate iterator: each step yields one key's run, descending
/// over keys, as a nested [`ProxyIterImpl`].
pub struct IterDupImpl {
    groups: Vec<(Vec<u8>, Vec<Vec<u8>>)>,
}

impl IterDupImpl {
    /// Wrap the groups a cursor collected.
    pub(crate) fn from_groups(groups: Vec<(Vec<u8>, Vec<Vec<u8>>)>) -> (r: IterDupImpl)
        ensures
            r.remaining_groups() == groups_view(groups@),
    {
        IterDupImpl { groups }
    }
}

impl BackendDupIter for IterDupImpl {
    type Error = ErrorImpl;

    type Iter = ProxyIterImpl;

    closed spec fn remaining_groups(&self) -> TableModel {
        groups_view(self.groups@)
    }

    fn next(&mut self) -> (r: Option<Result<ProxyIterImpl, ErrorImpl>>)
        ensures
            r is None <==> old(self).remaining_groups().len() == 0,
            match r {
                Some(item) => item is Ok,
                None => true,
            },
    {
        if self.groups.len() == 0 {
            None
        } else {
            let ghost groups0 = self.groups@;
            let g = self.groups.remove(0);
            proof {
                groups0.remove_ensures(0);
                assert(groups_view(self.groups@) =~= groups_view(groups0).drop_first());
            }
            let mut items: Vec<(Vec<u8>, Vec<u8>)> = Vec::new();
            proof {
                assert(pairs_view(items@) =~= Seq::<(Seq<u8>, Seq<u8>)>::empty());
            }
            push_entry_pairs(&mut items, &g.0, &g.1);
            proof {
                assert(pairs_view(items@) =~= entry_pairs(groups0[0].0@, groups_view(groups0)[0].1));
            }
            Some(Ok(ProxyIterImpl { items }))
        }
    }
}

} // verus!
