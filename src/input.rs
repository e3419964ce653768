//! What the run-state machine is fed.
use vstd::prelude::*;

use crate::ids::{Oid, PeerId, Urn};

verus! {

/// Handle of the one-shot channel on which a control request awaits its answer.
#[derive(Clone, Copy, Debug, PartialEq, Eq, Structural)]
pub struct Sink {
    pub id: u64,
}

/// An update of a local project that was announced to the network.
#[derive(Clone, Copy, Debug, PartialEq, Eq, Structural)]
pub struct Update {
    pub urn: Urn,
    pub head: Oid,
}

/// Gossip message: a project, who made the change, and at which revision.
#[derive(Clone, Copy, Debug, PartialEq, Eq, Structural)]
pub struct Payload {
    pub urn: Urn,
    pub origin: Option<PeerId>,
    pub rev: Option<Oid>,
}

/// What storing a gossiped update did.
#[derive(Clone, Copy, Debug, PartialEq, Eq, Structural)]
pub enum PutResult {
    Applied,
    Uninteresting,
    Stale,
    Error,
}

/// Events of the network stack.
#[derive(Clone, Copy, Debug, PartialEq, Eq, Structural)]
pub enum ProtocolEvent {
    /// The listener is bound.
    EndpointUp,
    /// The listener is gone.
    EndpointDown,
    /// A connection to the peer was opened.
    Connected(PeerId),
    /// A connection to the peer is closing.
    Disconnecting(PeerId),
    /// The provider announced the payload.
    GossipPut { provider: PeerId, payload: Payload, result: PutResult },
}

/// Counters reported by the network stack.
#[derive(Clone, Copy, Debug, PartialEq, Eq, Structural)]
pub struct ProtocolStats {
    pub connected_peers: usize,
    pub membership_active: usize,
    pub membership_passive: usize,
}

impl ProtocolStats {
    /// All counters at zero.
    pub fn zero() -> (r: ProtocolStats)
        ensures
            r.connected_peers == 0,
            r.membership_active == 0,
            r.membership_passive == 0,
    {
        ProtocolStats { connected_peers: 0, membership_active: 0, membership_passive: 0 }
    }
}

/// Announcement of local updates.
#[derive(Clone, Debug, PartialEq, Eq)]
pub enum Announce {
    /// Time to announce.
    Tick,
    /// The enclosed updates were announced.
    Succeeded(Vec<Update>),
}

/// Requests of the user; each carries the sink of its answer.
#[derive(Clone, Copy, Debug, PartialEq, Eq, Structural)]
pub enum Control {
    CancelRequest(Urn, u64, Sink),
    CreateRequest(Urn, u64, Sink),
    GetRequest(Urn, Sink),
    ListRequests(Sink),
    Status(Sink),
}

/// Progress of the syncs with peers.
#[derive(Clone, Copy, Debug, PartialEq, Eq, Structural)]
pub enum Sync {
    Started(PeerId),
    Failed(PeerId),
    Succeeded(PeerId),
}

/// Progress of the requests.
#[derive(Clone, Debug, PartialEq, Eq)]
pub enum Request {
    /// Time to look for work on the requests.
    Tick,
    /// The URN was queried on the network.
    Queried(Urn),
    /// A clone of the URN from the peer started.
    Cloning(Urn, PeerId),
    /// The clone of the URN from the peer finished.
    Cloned(Urn, PeerId),
    /// The clone of the URN from the peer failed.
    Failed { urn: Urn, remote_peer: PeerId, reason: String },
    /// The request for the URN timed out.
    TimedOut(Urn),
}

/// Statistics of the network stack.
#[derive(Clone, Debug, PartialEq, Eq)]
pub enum Stats {
    /// Time to collect statistics.
    Tick,
    /// The connected peers and the counters.
    Values(Vec<PeerId>, ProtocolStats),
}

/// Timers that ran out.
#[derive(Clone, Copy, Debug, PartialEq, Eq, Structural)]
pub enum Timeout {
    SyncPeriod,
}

/// Everything the run-state machine reacts to.
#[derive(Clone, Debug, PartialEq, Eq)]
pub enum Input {
    Announce(Announce),
    Control(Control),
    Protocol(ProtocolEvent),
    PeerSync(Sync),
    Request(Request),
    Stats(Stats),
    Timeout(Timeout),
}

} // verus!
