use vstd::prelude::*;

verus! {

/// Identity of a peer, derived from its 32-byte public key (big-endian halves).
#[derive(Clone, Copy, Debug, PartialEq, Eq, Structural, Hash, PartialOrd, Ord)]
pub struct PeerId {
    pub high: u128,
    pub low: u128,
}

/// A 20-byte git object id (big-endian: first 16 bytes, last 4 bytes).
#[derive(Clone, Copy, Debug, PartialEq, Eq, Structural, Hash, PartialOrd, Ord)]
pub struct Oid {
    pub high: u128,
    pub low: u32,
}

/// Content-addressed identifier of a project: the object id of its root.
#[derive(Clone, Copy, Debug, PartialEq, Eq, Structural, Hash, PartialOrd, Ord)]
pub struct Urn {
    pub id: Oid,
}

/// Byte order on URNs.
pub open spec fn urn_lt(a: Urn, b: Urn) -> bool {
    a.id.high < b.id.high || (a.id.high == b.id.high && a.id.low < b.id.low)
}

impl PeerId {
    pub fn new(high: u128, low: u128) -> (r: PeerId)
        ensures
            r.high == high,
            r.low == low,
    {
        PeerId { high, low }
    }
}

impl Oid {
    pub fn new(high: u128, low: u32) -> (r: Oid)
        ensures
            r.high == high,
            r.low == low,
    {
        Oid { high, low }
    }
}

impl Urn {
    pub fn new(id: Oid) -> (r: Urn)
        ensures
            r.id == id,
    {
        Urn { id }
    }

    /// Whether `self` comes strictly before `other` in byte order.
    pub fn precedes(&self, other: &Urn) -> (r: bool)
        ensures
            r == urn_lt(*self, *other),
    {
        self.id.high < other.id.high || (self.id.high == other.id.high && self.id.low
            < other.id.low)
    }
}

/// A copy of `v`, element by element.
pub fn copy_vec<T: Copy>(v: &Vec<T>) -> (r: Vec<T>)
    ensures
        r@ == v@,
{
    let mut r: Vec<T> = Vec::new();
    let mut i: usize = 0;
    while i < v.len()
        invariant
            i <= v@.len(),
            r@ == v@.subrange(0, i as int),
        decreases v@.len() - i,
    {
        r.push(v[i]);
        i = i + 1;
        proof {
            assert(r@ =~= v@.subrange(0, i as int));
        }
    }
    proof {
        assert(v@.subrange(0, v@.len() as int) =~= v@);
    }
    r
}

} // verus!
