use vstd::prelude::*;

use crate::ids::PeerId;

verus! {

/// Active connections per remote peer. A peer may hold several connections at once
/// (gossip and a git fetch, say); it counts as connected while its count is positive.
#[derive(Clone, Debug)]
pub struct ConnectedPeers {
    entries: Vec<(PeerId, u64)>,
}

/// Whether `i` is a position of `p` in `s`.
pub open spec fn at(s: Seq<(PeerId, u64)>, p: PeerId, i: int) -> bool {
    0 <= i < s.len() && s[i].0 == p
}

/// One more than `c`, held at the largest count.
pub open spec fn saturating_inc(c: u64) -> u64 {
    if c == u64::MAX {
        c
    } else {
        (c + 1) as u64
    }
}

/// A new connection of `p`.
pub open spec fn connect_spec(m: Map<PeerId, u64>, p: PeerId) -> Map<PeerId, u64> {
    if m.contains_key(p) {
        m.insert(p, saturating_inc(m[p]))
    } else {
        m.insert(p, 1)
    }
}

/// One connection of `p` ends; `p` leaves when its last connection does.
pub open spec fn disconnect_spec(m: Map<PeerId, u64>, p: PeerId) -> Map<PeerId, u64> {
    if m.contains_key(p) {
        if m[p] <= 1 {
            m.remove(p)
        } else {
            m.insert(p, (m[p] - 1) as u64)
        }
    } else {
        m
    }
}

/// The ledger after a report that the peers of `list` are connected: exactly those peers,
/// each keeping its count if it had one.
pub open spec fn replace_spec(m: Map<PeerId, u64>, list: Seq<PeerId>) -> Map<PeerId, u64> {
    Map::new(|p: PeerId| list.contains(p), |p: PeerId| if m.contains_key(p) { m[p] } else { 1 })
}

/// Every count is positive.
pub open spec fn counts_positive(m: Map<PeerId, u64>) -> bool {
    forall|p: PeerId| m.contains_key(p) ==> m[p] >= 1
}

impl View for ConnectedPeers {
    type V = Map<PeerId, u64>;

    closed spec fn view(&self) -> Map<PeerId, u64> {
        Map::new(
            |p: PeerId| exists|i: int| at(self.entries@, p, i),
            |p: PeerId| self.entries@[choose|i: int| at(self.entries@, p, i)].1,
        )
    }
}

impl ConnectedPeers {
    /// No peer occurs twice and every count is positive.
    pub closed spec fn wf(&self) -> bool {
        &&& forall|i: int, j: int|
            0 <= i < self.entries@.len() && 0 <= j < self.entries@.len() && i != j
                ==> self.entries@[i].0 != self.entries@[j].0
        &&& forall|i: int| 0 <= i < self.entries@.len() ==> self.entries@[i].1 >= 1
    }

    proof fn lemma_at(&self, p: PeerId, i: int)
        requires
            self.wf(),
            at(self.entries@, p, i),
        ensures
            self@.contains_key(p),
            self@[p] == self.entries@[i].1,
    {
        let k = choose|k: int| at(self.entries@, p, k);
        assert(k == i);
    }

    proof fn lemma_absent(&self, p: PeerId)
        requires
            forall|i: int| 0 <= i < self.entries@.len() ==> self.entries@[i].0 != p,
        ensures
            !self@.contains_key(p),
    {
    }

    /// Setting the count of `p`, found at `i`, to a positive `c` sets it in the view.
    proof fn lemma_set_entry(old: ConnectedPeers, new: ConnectedPeers, i: int, p: PeerId, c: u64)
        requires
            old.wf(),
            at(old.entries@, p, i),
            c >= 1,
            new.entries@ == old.entries@.update(i, (p, c)),
        ensures
            new.wf(),
            new@ == old@.insert(p, c),
    {
        assert(forall|k: int| 0 <= k < new.entries@.len() && k != i ==> new.entries@[k] == old.entries@[k]);
        assert(new.wf());
        new.lemma_at(p, i);
        let want = old@.insert(p, c);
        assert forall|q: PeerId| #[trigger] new@.contains_key(q) == want.contains_key(q) by {
            if q != p {
                if old@.contains_key(q) {
                    let k = choose|k: int| at(old.entries@, q, k);
                    assert(at(new.entries@, q, k));
                }
                if new@.contains_key(q) {
                    let k = choose|k: int| at(new.entries@, q, k);
                    assert(at(old.entries@, q, k));
                }
            }
        }
        assert forall|q: PeerId| #[trigger] want.contains_key(q) implies new@[q] == want[q] by {
            if q != p {
                let k = choose|k: int| at(old.entries@, q, k);
                old.lemma_at(q, k);
                new.lemma_at(q, k);
            }
        }
        assert(new@ =~= want);
    }

    /// Every count in a well-formed ledger is positive.
    pub proof fn lemma_wf(&self)
        requires
            self.wf(),
        ensures
            counts_positive(self@),
    {
        assert forall|p: PeerId| self@.contains_key(p) implies self@[p] >= 1 by {
            let k = choose|k: int| at(self.entries@, p, k);
            self.lemma_at(p, k);
        }
    }

    pub fn new() -> (r: ConnectedPeers)
        ensures
            r.wf(),
            r@ == Map::<PeerId, u64>::empty(),
    {
        let r = ConnectedPeers { entries: Vec::new() };
        proof {
            assert(r@ =~= Map::<PeerId, u64>::empty());
        }
        r
    }

    /// The number of distinct connected peers.
    pub fn len(&self) -> (r: usize)
        requires
            self.wf(),
        ensures
            r == self@.dom().len(),
    {
        proof {
            let keys = self.entries@.map_values(|e: (PeerId, u64)| e.0);
            assert(self@.dom() =~= keys.to_set()) by {
                assert forall|p: PeerId| self@.dom().contains(p) implies keys.to_set().contains(
                    p,
                ) by {
                    let k = choose|k: int| at(self.entries@, p, k);
                    assert(keys[k] == p);
                }
                assert forall|p: PeerId| keys.to_set().contains(p) implies self@.dom().contains(
                    p,
                ) by {
                    let k = choose|k: int| 0 <= k < keys.len() && keys[k] == p;
                    assert(at(self.entries@, p, k));
                }
            }
            assert(keys.no_duplicates());
            keys.unique_seq_to_set();
        }
        self.entries.len()
    }

    fn position(&self, p: PeerId) -> (r: Option<usize>)
        ensures
            match r {
                Some(i) => at(self.entries@, p, i as int),
                None => forall|i: int| 0 <= i < self.entries@.len() ==> self.entries@[i].0 != p,
            },
    {
        let mut i: usize = 0;
        while i < self.entries.len()
            invariant
                i <= self.entries@.len(),
                forall|j: int| 0 <= j < i ==> self.entries@[j].0 != p,
            decreases self.entries@.len() - i,
        {
            if self.entries[i].0 == p {
                return Some(i);
            }
            i = i + 1;
        }
        None
    }

    /// Whether `p` holds at least one connection.
    pub fn contains(&self, p: PeerId) -> (r: bool)
        requires
            self.wf(),
        ensures
            r == self@.contains_key(p),
    {
        match self.position(p) {
            Some(i) => {
                proof {
                    self.lemma_at(p, i as int);
                }
                true
            },
            None => false,
        }
    }

    /// Records a new connection of `p`.
    pub fn connect(&mut self, p: PeerId)
        requires
            old(self).wf(),
        ensures
            final(self).wf(),
            final(self)@ == connect_spec(old(self)@, p),
    {
        match self.position(p) {
            Some(i) => {
                proof {
                    old(self).lemma_at(p, i as int);
                }
                let c = self.entries[i].1;
                let n = if c == u64::MAX {
                    c
                } else {
                    c + 1
                };
                self.entries.set(i, (p, n));
                proof {
                    ConnectedPeers::lemma_set_entry(*old(self), *self, i as int, p, n);
                }
            },
            None => {
                proof {
                    old(self).lemma_absent(p);
                }
                self.add(p, 1);
            },
        }
    }

    /// Adds `p`, absent so far, with `count` connections.
    fn add(&mut self, p: PeerId, count: u64)
        requires
            old(self).wf(),
            !old(self)@.contains_key(p),
            count >= 1,
        ensures
            final(self).wf(),
            final(self)@ == old(self)@.insert(p, count),
    {
        let ghost m0 = old(self)@;
        proof {
            assert forall|k: int| 0 <= k < old(self).entries@.len() implies old(self).entries@[k].0 != p by {
                if old(self).entries@[k].0 == p {
                    old(self).lemma_at(p, k);
                }
            }
        }
        self.entries.push((p, count));
        proof {
            let n = self.entries@.len() - 1;
            assert(forall|k: int| 0 <= k < n ==> self.entries@[k] == old(self).entries@[k]);
            assert(self.wf());
            self.lemma_at(p, n);
            let want = m0.insert(p, count);
            assert forall|q: PeerId| #[trigger] self@.contains_key(q) == want.contains_key(q) by {
                if q != p {
                    if m0.contains_key(q) {
                        let k = choose|k: int| at(old(self).entries@, q, k);
                        assert(at(self.entries@, q, k));
                    }
                    if self@.contains_key(q) {
                        let k = choose|k: int| at(self.entries@, q, k);
                        assert(at(old(self).entries@, q, k));
                    }
                }
            }
            assert forall|q: PeerId| #[trigger] want.contains_key(q) implies self@[q] == want[q] by {
                if q != p {
                    let k = choose|k: int| at(old(self).entries@, q, k);
                    old(self).lemma_at(q, k);
                    self.lemma_at(q, k);
                }
            }
            assert(self@ =~= want);
        }
    }

    /// The number of connections of `p`, if it has any.
    pub fn get(&self, p: PeerId) -> (r: Option<u64>)
        requires
            self.wf(),
        ensures
            r == (if self@.contains_key(p) { Some(self@[p]) } else { None::<u64> }),
    {
        match self.position(p) {
            Some(i) => {
                proof {
                    self.lemma_at(p, i as int);
                }
                Some(self.entries[i].1)
            },
            None => None,
        }
    }

    /// Records the end of one connection of `p`.
    pub fn disconnect(&mut self, p: PeerId)
        requires
            old(self).wf(),
        ensures
            final(self).wf(),
            final(self)@ == disconnect_spec(old(self)@, p),
    {
        let ghost m0 = old(self)@;
        match self.position(p) {
            Some(i) => {
                proof {
                    old(self).lemma_at(p, i as int);
                }
                let c = self.entries[i].1;
                if c <= 1 {
                    self.entries.remove(i);
                    proof {
                        let s = old(self).entries@;
                        assert(forall|k: int| 0 <= k < i ==> self.entries@[k] == s[k]);
                        assert(forall|k: int| i <= k < self.entries@.len() ==> self.entries@[k] == s[k + 1]);
                        assert(self.wf());
                        let want = m0.remove(p);
                        assert forall|q: PeerId| #[trigger] self@.contains_key(q) == want.contains_key(q) by {
                            if q != p {
                                if m0.contains_key(q) {
                                    let k = choose|k: int| at(s, q, k);
                                    if k < i {
                                        assert(at(self.entries@, q, k));
                                    } else {
                                        assert(at(self.entries@, q, k - 1));
                                    }
                                }
                                if self@.contains_key(q) {
                                    let k = choose|k: int| at(self.entries@, q, k);
                                    if k < i {
                                        assert(at(s, q, k));
                                    } else {
                                        assert(at(s, q, k + 1));
                                    }
                                }
                            } else {
                                if self@.contains_key(q) {
                                    let k = choose|k: int| at(self.entries@, q, k);
                                    if k < i {
                                        assert(at(s, q, k));
                                    } else {
                                        assert(at(s, q, k + 1));
                                    }
                                }
                            }
                        }
                        assert forall|q: PeerId| #[trigger] want.contains_key(q) implies self@[q] == want[q] by {
                            let k = choose|k: int| at(s, q, k);
                            old(self).lemma_at(q, k);
                            if k < i {
                                self.lemma_at(q, k);
                            } else {
                                self.lemma_at(q, k - 1);
                            }
                        }
                        assert(self@ =~= want);
                    }
                } else {
                    self.entries.set(i, (p, c - 1));
                    proof {
                        ConnectedPeers::lemma_set_entry(*old(self), *self, i as int, p, (c - 1) as u64);
                    }
                }
            },
            None => {
                proof {
                    old(self).lemma_absent(p);
                    assert(self@ =~= disconnect_spec(m0, p));
                }
            },
        }
    }

    /// The ledger after a report that exactly the peers of `list` are connected.
    pub fn replaced(&self, list: &Vec<PeerId>) -> (r: ConnectedPeers)
        requires
            self.wf(),
        ensures
            r.wf(),
            r@ == replace_spec(self@, list@),
    {
        let mut r = ConnectedPeers::new();
        let mut j: usize = 0;
        while j < list.len()
            invariant
                j <= list@.len(),
                r.wf(),
                self.wf(),
                r@ == replace_spec(self@, list@.subrange(0, j as int)),
            decreases list@.len() - j,
        {
            let p = list[j];
            let ghost before = list@.subrange(0, j as int);
            let ghost after = list@.subrange(0, j + 1);
            proof {
                assert forall|q: PeerId| after.contains(q) <==> (before.contains(q) || q == p) by {
                    if after.contains(q) {
                        let k = choose|k: int| 0 <= k < after.len() && after[k] == q;
                        if k < j {
                            assert(before[k] == q);
                        }
                    }
                    if before.contains(q) {
                        let k = choose|k: int| 0 <= k < before.len() && before[k] == q;
                        assert(after[k] == q);
                    }
                    if q == p {
                        assert(after[j as int] == q);
                    }
                }
            }
            if !r.contains(p) {
                let c = match self.get(p) {
                    Some(c) => c,
                    None => 1,
                };
                proof {
                    if self@.contains_key(p) {
                        self.lemma_wf();
                    }
                }
                r.add(p, c);
                proof {
                    assert(r@ =~= replace_spec(self@, after));
                }
            } else {
                proof {
                    assert(r@ =~= replace_spec(self@, after));
                }
            }
            j = j + 1;
        }
        proof {
            assert(list@.subrange(0, list@.len() as int) =~= list@);
        }
        r
    }

}

/// The number of connections of `p`, zero when it has none.
pub open spec fn count_of(m: Map<PeerId, u64>, p: PeerId) -> int {
    if m.contains_key(p) {
        m[p] as int
    } else {
        0
    }
}

/// The ledger after connections (`true`) and disconnections (`false`) of `p`, in order.
pub open spec fn apply_connections(m: Map<PeerId, u64>, p: PeerId, events: Seq<bool>) -> Map<PeerId, u64>
    decreases events.len(),
{
    if events.len() == 0 {
        m
    } else {
        let m1 = apply_connections(m, p, events.drop_last());
        if events.last() {
            connect_spec(m1, p)
        } else {
            disconnect_spec(m1, p)
        }
    }
}

/// How many of `events` are connections (`want`) or disconnections (`!want`).
pub open spec fn n_events(events: Seq<bool>, want: bool) -> int
    decreases events.len(),
{
    if events.len() == 0 {
        0
    } else {
        n_events(events.drop_last(), want) + if events.last() == want {
            1int
        } else {
            0int
        }
    }
}

proof fn lemma_count_bounds(m: Map<PeerId, u64>, p: PeerId, events: Seq<bool>)
    requires
        count_of(m, p) + n_events(events, true) <= u64::MAX,
    ensures
        count_of(apply_connections(m, p, events), p) >= count_of(m, p) + n_events(events, true)
            - n_events(events, false),
        count_of(apply_connections(m, p, events), p) <= count_of(m, p) + n_events(events, true),
    decreases events.len(),
{
    if events.len() > 0 {
        let rest = events.drop_last();
        assert(n_events(rest, true) <= n_events(events, true));
        lemma_count_bounds(m, p, rest);
    }
}

/// While a peer has had more connections than disconnections, it stays connected: a
/// second connection that ends does not evict it. (Counts stop at the largest `u64`, so
/// the connections are bounded by what is left up to it.)
pub proof fn lemma_connected_while_more_connects(m: Map<PeerId, u64>, p: PeerId, events: Seq<bool>)
    requires
        count_of(m, p) + n_events(events, true) <= u64::MAX,
        n_events(events, true) > n_events(events, false),
    ensures
        apply_connections(m, p, events).contains_key(p),
{
    lemma_count_bounds(m, p, events);
}

} // verus!
