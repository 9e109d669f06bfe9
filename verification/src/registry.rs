//! The connections that handlers have set aside at shutdown, keyed by
//! connection id, waiting to be handed over to sibling servers.

use vstd::prelude::*;
use std::collections::HashMap;
use vstd::std_specs::iter::IteratorSpec;

verus! {

broadcast use vstd::std_specs::hash::group_hash_axioms;

/// Saved connections, each under the id it was given when it was accepted.
pub struct ConnectionRegistry<S> {
    streams: HashMap<u64, S>,
}

impl<S> View for ConnectionRegistry<S> {
    type V = Map<u64, S>;

    closed spec fn view(&self) -> Map<u64, S> {
        self.streams@
    }
}

/// What removing the connections `ids`, one after the other, leaves and hands
/// back: the registry afterwards, and the streams found, in the order of `ids`.
pub open spec fn remove_all<S>(m: Map<u64, S>, ids: Seq<u64>) -> (Map<u64, S>, Seq<S>)
    decreases ids.len(),
{
    if ids.len() == 0 {
        (m, Seq::empty())
    } else {
        let (before, found) = remove_all(m, ids.drop_last());
        let k = ids.last();
        if before.contains_key(k) {
            (before.remove(k), found.push(before[k]))
        } else {
            (before, found)
        }
    }
}

/// Removing a list of connections leaves exactly those whose ids are not in it.
pub proof fn lemma_remove_all_leaves_the_rest<S>(m: Map<u64, S>, ids: Seq<u64>)
    ensures
        remove_all(m, ids).0 == m.remove_keys(ids.to_set()),
    decreases ids.len(),
{
    if ids.len() == 0 {
        assert(m.remove_keys(ids.to_set()) =~= m);
    } else {
        let init = ids.drop_last();
        lemma_remove_all_leaves_the_rest(m, init);
        assert(ids.to_set() =~= init.to_set().insert(ids.last())) by {
            assert forall|x: u64| ids.to_set().contains(x) implies #[trigger] init.to_set().insert(ids.last()).contains(x) by {
                let j = choose|j: int| 0 <= j < ids.len() && ids[j] == x;
                if j < init.len() {
                    assert(init[j] == x);
                }
            }
            assert forall|x: u64| init.to_set().insert(ids.last()).contains(x) implies #[trigger] ids.to_set().contains(x) by {
                if x == ids.last() {
                    assert(ids[ids.len() - 1] == x);
                } else {
                    let j = choose|j: int| 0 <= j < init.len() && init[j] == x;
                    assert(ids[j] == x);
                }
            }
        }
        let (before, _found) = remove_all(m, init);
        if before.contains_key(ids.last()) {
            assert(before.remove(ids.last()) =~= m.remove_keys(ids.to_set()));
        } else {
            assert(before =~= m.remove_keys(ids.to_set()));
        }
    }
}

/// Whether `k` names a saved connection of `m`.
pub open spec fn saved_in<S>(m: Map<u64, S>) -> spec_fn(u64) -> bool {
    |k: u64| m.contains_key(k)
}

/// The stream saved under an id in `m`.
pub open spec fn stream_in<S>(m: Map<u64, S>) -> spec_fn(u64) -> S {
    |k: u64| m[k]
}

/// Every stream removed is handed back: the streams handed back and the
/// connections left add up to the connections there were.
pub proof fn lemma_remove_all_conserves<S>(m: Map<u64, S>, ids: Seq<u64>)
    requires
        m.dom().finite(),
    ensures
        remove_all(m, ids).0.dom().finite(),
        remove_all(m, ids).1.len() + remove_all(m, ids).0.len() == m.len(),
    decreases ids.len(),
{
    if ids.len() > 0 {
        lemma_remove_all_conserves(m, ids.drop_last());
    }
}

/// For distinct ids, the streams handed back are, in the order of `ids`, the
/// streams that were saved under those of the ids that were saved.
pub proof fn lemma_remove_all_hands_back_saved<S>(m: Map<u64, S>, ids: Seq<u64>)
    requires
        ids.no_duplicates(),
    ensures
        remove_all(m, ids).1 == ids.filter(saved_in(m)).map_values(stream_in(m)),
    decreases ids.len(),
{
    reveal(Seq::filter);
    let pred = saved_in(m);
    let f = stream_in(m);
    if ids.len() == 0 {
        assert(ids.filter(pred) =~= Seq::<u64>::empty());
        assert(ids.filter(pred).map_values(f) =~= Seq::<S>::empty());
    } else {
        let init = ids.drop_last();
        let k = ids.last();
        assert(init.no_duplicates()) by {
            assert forall|i: int, j: int| 0 <= i < init.len() && 0 <= j < init.len() && i != j
                implies init[i] != init[j] by {
                assert(init[i] == ids[i] && init[j] == ids[j]);
            }
        }
        lemma_remove_all_hands_back_saved(m, init);
        lemma_remove_all_leaves_the_rest(m, init);
        assert(!init.to_set().contains(k)) by {
            if init.to_set().contains(k) {
                let j = choose|j: int| 0 <= j < init.len() && init[j] == k;
                assert(ids[j] == ids[ids.len() - 1]);
            }
        }
        let before = remove_all(m, init).0;
        assert(before.contains_key(k) == m.contains_key(k));
        if m.contains_key(k) {
            assert(before[k] == m[k]);
            assert(ids.filter(pred) == init.filter(pred).push(k));
            assert(ids.filter(pred).map_values(f) =~= init.filter(pred).map_values(f).push(f(k)));
        } else {
            assert(ids.filter(pred) == init.filter(pred));
        }
    }
}

impl<S> ConnectionRegistry<S> {
    /// An empty registry.
    pub fn new() -> (r: Self)
        ensures
            r@ == Map::<u64, S>::empty(),
    {
        ConnectionRegistry { streams: HashMap::new() }
    }

    /// Sets `stream` aside under `id`, in place of any stream saved there before.
    pub fn save(&mut self, id: u64, stream: S)
        ensures
            final(self)@ == old(self)@.insert(id, stream),
    {
        self.streams.insert(id, stream);
    }

    /// How many connections are saved.
    pub fn len(&self) -> (r: usize)
        ensures
            r == self@.len(),
    {
        self.streams.len()
    }

    /// The stream saved under `id`.
    pub fn get(&self, id: u64) -> (r: Option<&S>)
        ensures
            match r {
                Some(s) => self@.contains_key(id) && *s == self@[id],
                None => !self@.contains_key(id),
            },
    {
        self.streams.get(&id)
    }

    /// The ids of all saved connections, each once, in the map's own order.
    pub fn ids(&self) -> (r: Vec<u64>)
        ensures
            r@.to_set() == self@.dom(),
            r@.no_duplicates(),
            r@.len() == self@.len(),
    {
        let mut out: Vec<u64> = Vec::new();
        let ghost all = vstd::std_specs::hash::spec_keys_iter(&self.streams).remaining();
        for k in it: self.streams.keys()
            invariant
                it.seq() == all,
                out@ == all.take(it.index() as int).map_values(|k: &u64| *k),
        {
            out.push(*k);
            assert(all.take(it.index() + 1) =~= all.take(it.index() as int).push(k));
            assert(all.take(it.index() + 1).map_values(|k: &u64| *k)
                =~= all.take(it.index() as int).map_values(|k: &u64| *k).push(*k));
        }
        assert(all.take(all.len() as int) =~= all);
        assert(out@ =~= all.unref());
        out
    }

    /// Removes the connections `ids` that are saved, handing back their
    /// streams in the order of `ids`.
    pub fn remove_handed_off(&mut self, ids: &Vec<u64>) -> (r: Vec<S>)
        ensures
            final(self)@ == remove_all(old(self)@, ids@).0,
            r@ == remove_all(old(self)@, ids@).1,
            final(self)@ == old(self)@.remove_keys(ids@.to_set()),
            r@.len() + final(self)@.len() == old(self)@.len(),
            ids@.no_duplicates() ==> r@ == ids@.filter(saved_in(old(self)@)).map_values(stream_in(old(self)@)),
    {
        let mut out: Vec<S> = Vec::new();
        let mut i: usize = 0;
        while i < ids.len()
            invariant
                i <= ids.len(),
                self@ == remove_all(old(self)@, ids@.take(i as int)).0,
                out@ == remove_all(old(self)@, ids@.take(i as int)).1,
            decreases ids.len() - i,
        {
            let id = ids[i];
            assert(ids@.take(i + 1).drop_last() =~= ids@.take(i as int));
            assert(ids@.take(i + 1).last() == id);
            match self.streams.remove(&id) {
                Some(stream) => {
                    out.push(stream);
                }
                None => {}
            }
            i = i + 1;
        }
        assert(ids@.take(ids.len() as int) =~= ids@);
        proof {
            lemma_remove_all_leaves_the_rest(old(self)@, ids@);
            lemma_remove_all_conserves(old(self)@, ids@);
            if ids@.no_duplicates() {
                lemma_remove_all_hands_back_saved(old(self)@, ids@);
            }
        }
        out
    }
}

} // verus!
