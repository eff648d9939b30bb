//! Registry of live connections: identifier-to-handle mapping with
//! group-scoped fan-out support.

use vstd::prelude::*;

use crate::msg::{delivers, GroupMsg, WsConn};

verus! {

/// The mapping denoted by a sequence of identifier/handle entries, later
/// entries overriding earlier ones with the same identifier.
pub open spec fn entries_map<T>(s: Seq<(u64, T)>) -> Map<u64, T>
    decreases s.len(),
{
    if s.len() == 0 {
        Map::empty()
    } else {
        entries_map(s.drop_last()).insert(s.last().0, s.last().1)
    }
}

/// No two entries carry the same identifier.
pub open spec fn unique_ids<T>(s: Seq<(u64, T)>) -> bool {
    forall|i: int, j: int|
        0 <= i < j < s.len() ==> (#[trigger] s[i]).0 != (#[trigger] s[j]).0
}

proof fn lemma_entries_map_dom<T>(s: Seq<(u64, T)>)
    ensures
        forall|id: u64|
            entries_map(s).dom().contains(id) <==> exists|k: int|
                0 <= k < s.len() && (#[trigger] s[k]).0 == id,
    decreases s.len(),
{
    if s.len() > 0 {
        lemma_entries_map_dom(s.drop_last());
        assert forall|id: u64| entries_map(s).dom().contains(id) implies exists|k: int|
            0 <= k < s.len() && (#[trigger] s[k]).0 == id by {
            if s.last().0 == id {
                assert(s[s.len() - 1].0 == id);
            } else {
                assert(entries_map(s.drop_last()).dom().contains(id));
                let k = choose|k: int|
                    0 <= k < s.drop_last().len() && (#[trigger] s.drop_last()[k]).0 == id;
                assert(s.drop_last()[k] == s[k]);
                assert(s[k].0 == id);
            }
        }
        assert forall|id: u64|
            (exists|k: int| 0 <= k < s.len() && (#[trigger] s[k]).0 == id) implies entries_map(
            s,
        ).dom().contains(id) by {
            let k = choose|k: int| 0 <= k < s.len() && (#[trigger] s[k]).0 == id;
            if k < s.len() - 1 {
                assert(s.drop_last()[k].0 == id);
                assert(entries_map(s.drop_last()).dom().contains(id));
            } else {
                assert(s.last().0 == id);
            }
        }
    }
}

proof fn lemma_entries_map_index<T>(s: Seq<(u64, T)>, k: int)
    requires
        unique_ids(s),
        0 <= k < s.len(),
    ensures
        entries_map(s).dom().contains(s[k].0),
        entries_map(s)[s[k].0] == s[k].1,
    decreases s.len(),
{
    if k == s.len() - 1 {
    } else {
        assert(s.drop_last()[k] == s[k]);
        lemma_entries_map_index(s.drop_last(), k);
        assert(s[k].0 != s.last().0);
    }
}

proof fn lemma_entries_map_remove_at<T>(s: Seq<(u64, T)>, k: int)
    requires
        unique_ids(s),
        0 <= k < s.len(),
    ensures
        entries_map(s.remove(k)) == entries_map(s).remove(s[k].0),
    decreases s.len(),
{
    lemma_entries_map_dom(s.drop_last());
    if k == s.len() - 1 {
        assert(s.remove(k) =~= s.drop_last());
        assert(forall|j: int| 0 <= j < s.len() - 1 ==> s.drop_last()[j] == s[j]);
        assert(!entries_map(s.drop_last()).dom().contains(s.last().0));
        assert(entries_map(s.drop_last()).insert(s.last().0, s.last().1).remove(s.last().0)
            =~= entries_map(s.drop_last()));
    } else {
        assert(forall|j: int| 0 <= j < s.len() - 1 ==> s.drop_last()[j] == s[j]);
        lemma_entries_map_remove_at(s.drop_last(), k);
        assert(s.remove(k).drop_last() =~= s.drop_last().remove(k));
        assert(s.remove(k).last() == s.last());
        assert(s[k].0 != s.last().0);
        assert(entries_map(s.remove(k)) == entries_map(s.drop_last().remove(k)).insert(
            s.last().0,
            s.last().1,
        ));
        assert(entries_map(s.drop_last()).remove(s[k].0).insert(s.last().0, s.last().1)
            =~= entries_map(s.drop_last()).insert(s.last().0, s.last().1).remove(s[k].0));
    }
}

/// Concurrent connection registry, modelled as a mapping from a
/// process-unique identifier to the connection's send handle.
///
/// Its view is that mapping; entries are never mutated in place, only
/// inserted and removed whole.
pub struct Conns<T> {
    entries: Vec<(u64, T)>,
}

impl<T> View for Conns<T> {
    type V = Map<u64, T>;

    closed spec fn view(&self) -> Map<u64, T> {
        entries_map(self.entries@)
    }
}

impl<T> Conns<T> {
    /// No two stored entries share an identifier.  Constructors establish
    /// this and every method preserves it.
    pub closed spec fn wf(&self) -> bool {
        unique_ids(self.entries@)
    }

    /// The empty registry.
    pub fn new() -> (c: Conns<T>)
        ensures
            c.wf(),
            c@ == Map::<u64, T>::empty(),
    {
        Conns { entries: Vec::new() }
    }

    /// How many connections are registered.
    pub fn len(&self) -> (n: usize)
        requires
            self.wf(),
        ensures
            n == self@.dom().len(),
    {
        proof {
            lemma_entries_len(self.entries@);
        }
        self.entries.len()
    }

    /// Where `id` is stored, if anywhere.
    fn position(&self, id: u64) -> (r: Option<usize>)
        ensures
            match r {
                Some(k) => k < self.entries@.len() && self.entries@[k as int].0 == id,
                None => forall|k: int|
                    0 <= k < self.entries@.len() ==> (#[trigger] self.entries@[k]).0 != id,
            },
    {
        let n = self.entries.len();
        let mut k: usize = 0;
        while k < n
            invariant
                n == self.entries@.len(),
                0 <= k <= n,
                forall|j: int| 0 <= j < k ==> (#[trigger] self.entries@[j]).0 != id,
            decreases n - k,
        {
            if self.entries[k].0 == id {
                return Some(k);
            }
            k = k + 1;
        }
        None
    }

    /// Registers `handle` under `id`, replacing any entry `id` already had.
    pub fn insert(&mut self, id: u64, handle: T)
        requires
            old(self).wf(),
        ensures
            final(self).wf(),
            final(self)@ == old(self)@.insert(id, handle),
    {
        let found = self.position(id);
        match found {
            Some(k) => {
                proof {
                    lemma_entries_map_remove_at(self.entries@, k as int);
                }
                let ghost before = self.entries@;
                self.entries.remove(k);
                proof {
                    assert(self.entries@ =~= before.remove(k as int));
                    assert(unique_ids(self.entries@)) by {
                        assert(forall|j: int|
                            0 <= j < before.remove(k as int).len() ==> #[trigger] before.remove(
                                k as int,
                            )[j] == (if j < k {
                                before[j]
                            } else {
                                before[j + 1]
                            }));
                    }
                    lemma_entries_map_dom(self.entries@);
                }
                self.entries.push((id, handle));
                proof {
                    assert(entries_map(self.entries@) == entries_map(
                        self.entries@.drop_last(),
                    ).insert(id, handle));
                    assert(self.entries@.drop_last() =~= before.remove(k as int));
                    assert(entries_map(before).remove(id).insert(id, handle) =~= entries_map(
                        before,
                    ).insert(id, handle));
                    assert(unique_ids(self.entries@)) by {
                        assert(forall|j: int|
                            0 <= j < self.entries@.len() - 1
                                ==> #[trigger] self.entries@[j] == before.remove(k as int)[j]);
                    }
                }
            },
            None => {
                self.entries.push((id, handle));
                proof {
                    assert(entries_map(self.entries@) == entries_map(
                        self.entries@.drop_last(),
                    ).insert(id, handle));
                    assert(self.entries@.drop_last() =~= old(self).entries@);
                    assert(unique_ids(self.entries@)) by {
                        assert(forall|j: int|
                            0 <= j < self.entries@.len() - 1
                                ==> #[trigger] self.entries@[j] == old(self).entries@[j]);
                    }
                }
            },
        }
    }

    /// Unregisters `id`; doing nothing when it is absent.
    pub fn remove(&mut self, id: u64)
        requires
            old(self).wf(),
        ensures
            final(self).wf(),
            final(self)@ == old(self)@.remove(id),
    {
        let found = self.position(id);
        match found {
            Some(k) => {
                proof {
                    lemma_entries_map_remove_at(self.entries@, k as int);
                }
                let ghost before = self.entries@;
                self.entries.remove(k);
                proof {
                    assert(self.entries@ =~= before.remove(k as int));
                    assert(unique_ids(self.entries@)) by {
                        assert(forall|j: int|
                            0 <= j < before.remove(k as int).len() ==> #[trigger] before.remove(
                                k as int,
                            )[j] == (if j < k {
                                before[j]
                            } else {
                                before[j + 1]
                            }));
                    }
                }
            },
            None => {
                proof {
                    lemma_entries_map_dom(self.entries@);
                    assert(!self@.dom().contains(id));
                    assert(self@.remove(id) =~= self@);
                }
            },
        }
    }

    /// The handle registered under `id`, if any.
    pub fn get(&self, id: u64) -> (r: Option<&T>)
        requires
            self.wf(),
        ensures
            match r {
                Some(h) => self@.dom().contains(id) && *h == self@[id],
                None => !self@.dom().contains(id),
            },
    {
        let found = self.position(id);
        match found {
            Some(k) => {
                proof {
                    lemma_entries_map_index(self.entries@, k as int);
                }
                Some(&self.entries[k].1)
            },
            None => {
                proof {
                    lemma_entries_map_dom(self.entries@);
                }
                None
            },
        }
    }

    /// A snapshot of the currently registered identifiers, for the status
    /// view.  The order carries no meaning.
    pub fn stat(&self) -> (r: Vec<u64>)
        requires
            self.wf(),
        ensures
            r@.no_duplicates(),
            r@.len() == self@.dom().len(),
            forall|id: u64| r@.contains(id) <==> self@.dom().contains(id),
    {
        proof {
            lemma_entries_map_dom(self.entries@);
            lemma_entries_len(self.entries@);
        }
        let n = self.entries.len();
        let mut r: Vec<u64> = Vec::new();
        let mut k: usize = 0;
        while k < n
            invariant
                n == self.entries@.len(),
                0 <= k <= n,
                r@.len() == k,
                forall|j: int| 0 <= j < k ==> r@[j] == (#[trigger] self.entries@[j]).0,
                unique_ids(self.entries@),
            decreases n - k,
        {
            let id = self.entries[k].0;
            r.push(id);
            k = k + 1;
        }
        proof {
            assert forall|i: int, j: int|
                0 <= i < r@.len() && 0 <= j < r@.len() && i != j implies r@[i] != r@[j] by {
                assert(r@[i] == self.entries@[i].0);
                assert(r@[j] == self.entries@[j].0);
            }
            assert(r@.no_duplicates());
            assert forall|id: u64| r@.contains(id) implies self@.dom().contains(id) by {
                let j = choose|j: int| 0 <= j < r@.len() && r@[j] == id;
                assert(self.entries@[j].0 == id);
            }
            assert forall|id: u64| self@.dom().contains(id) implies r@.contains(id) by {
                let j = choose|j: int|
                    0 <= j < self.entries@.len() && (#[trigger] self.entries@[j]).0 == id;
                assert(r@[j] == id);
            }
        }
        r
    }
}

proof fn lemma_entries_len<T>(s: Seq<(u64, T)>)
    requires
        unique_ids(s),
    ensures
        entries_map(s).dom().len() == s.len(),
        entries_map(s).dom().finite(),
    decreases s.len(),
{
    if s.len() > 0 {
        assert(forall|j: int| 0 <= j < s.len() - 1 ==> s.drop_last()[j] == s[j]);
        lemma_entries_len(s.drop_last());
        lemma_entries_map_dom(s.drop_last());
        assert(!entries_map(s.drop_last()).dom().contains(s.last().0));
    }
}

/// Fan-out law: a broadcast of a non-empty message for some group is
/// delivered on exactly the connections subscribed to that group — every
/// connection whose group equals the message's receives it, and no other.
pub proof fn lemma_broadcast_delivery(conns: Seq<WsConn>, m: GroupMsg)
    requires
        m.data@.len() > 0 || m.bytes@.len() > 0,
    ensures
        forall|i: int|
            0 <= i < conns.len() ==> (delivers(#[trigger] conns[i], m) <==> conns[i].group@
                == m.group@),
{
}

} // verus!
