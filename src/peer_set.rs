use vstd::prelude::*;

use crate::ids::{copy_vec, PeerId};

verus! {

/// A finite set of peers, kept as a vector without repetitions.
#[derive(Clone, Debug, PartialEq, Eq)]
pub struct PeerSet {
    peers: Vec<PeerId>,
}

impl View for PeerSet {
    type V = Set<PeerId>;

    closed spec fn view(&self) -> Set<PeerId> {
        self.peers@.to_set()
    }
}

impl PeerSet {
    /// No peer occurs twice.
    pub closed spec fn wf(&self) -> bool {
        self.peers@.no_duplicates()
    }

    pub fn new() -> (r: PeerSet)
        ensures
            r.wf(),
            r@ == Set::<PeerId>::empty(),
    {
        let r = PeerSet { peers: Vec::new() };
        proof {
            assert(r@ =~= Set::<PeerId>::empty());
        }
        r
    }

    pub fn len(&self) -> (r: usize)
        requires
            self.wf(),
        ensures
            r == self@.len(),
    {
        proof {
            self.peers@.unique_seq_to_set();
        }
        self.peers.len()
    }

    fn position(&self, p: PeerId) -> (r: Option<usize>)
        ensures
            match r {
                Some(i) => i < self.peers@.len() && self.peers@[i as int] == p,
                None => !self.peers@.contains(p),
            },
    {
        let mut i: usize = 0;
        while i < self.peers.len()
            invariant
                i <= self.peers@.len(),
                forall|j: int| 0 <= j < i ==> self.peers@[j] != p,
            decreases self.peers@.len() - i,
        {
            if self.peers[i] == p {
                return Some(i);
            }
            i = i + 1;
        }
        None
    }

    pub fn contains(&self, p: PeerId) -> (r: bool)
        ensures
            r == self@.contains(p),
    {
        self.position(p).is_some()
    }

    /// Adds `p` to the set.
    pub fn insert(&mut self, p: PeerId)
        requires
            old(self).wf(),
        ensures
            final(self).wf(),
            final(self)@ == old(self)@.insert(p),
    {
        if self.position(p).is_none() {
            let ghost s = self.peers@;
            self.peers.push(p);
            proof {
                assert forall|x: PeerId| self.peers@.contains(x) <==> (s.contains(x) || x == p) by {
                    if s.contains(x) {
                        let k = choose|k: int| 0 <= k < s.len() && s[k] == x;
                        assert(self.peers@[k] == x);
                    }
                    if x == p {
                        assert(self.peers@[s.len() as int] == x);
                    }
                }
            }
        }
        proof {
            assert(self@ =~= old(self)@.insert(p));
        }
    }

    /// Takes `p` out of the set.
    pub fn remove(&mut self, p: PeerId)
        requires
            old(self).wf(),
        ensures
            final(self).wf(),
            final(self)@ == old(self)@.remove(p),
    {
        match self.position(p) {
            Some(i) => {
                let ghost s = self.peers@;
                self.peers.remove(i);
                proof {
                    assert forall|x: PeerId| self.peers@.contains(x) <==> (s.contains(x) && x != p) by {
                        if s.contains(x) && x != p {
                            let k = choose|k: int| 0 <= k < s.len() && s[k] == x;
                            if k < i {
                                assert(self.peers@[k] == x);
                            } else {
                                assert(k != i);
                                assert(self.peers@[k - 1] == x);
                            }
                        }
                        if self.peers@.contains(x) {
                            let k = choose|k: int| 0 <= k < self.peers@.len() && self.peers@[k] == x;
                            if k < i {
                                assert(s[k] == x);
                            } else {
                                assert(s[k + 1] == x);
                            }
                        }
                    }
                    assert(self@ =~= old(self)@.remove(p));
                }
            },
            None => {
                proof {
                    assert(self@ =~= old(self)@.remove(p));
                }
            },
        }
    }

    /// A copy of the set.
    pub fn snapshot(&self) -> (r: PeerSet)
        requires
            self.wf(),
        ensures
            r.wf(),
            r@ == self@,
    {
        PeerSet { peers: copy_vec(&self.peers) }
    }

    /// The peers, in the order in which they were added.
    pub fn to_vec(&self) -> (r: Vec<PeerId>)
        requires
            self.wf(),
        ensures
            r@.no_duplicates(),
            r@.to_set() == self@,
    {
        copy_vec(&self.peers)
    }
}

} // verus!
