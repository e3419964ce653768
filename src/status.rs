use vstd::prelude::*;

use crate::ids::PeerId;
use crate::peer_set::PeerSet;

verus! {

/// The current status of the local peer and its relation to the network.
#[derive(Clone, Debug, PartialEq, Eq)]
pub enum Status {
    /// Nothing is set up, not even a socket to listen on.
    Stopped,
    /// Listening on a socket, no peer connected yet.
    Started,
    /// All connections to peers were lost.
    Offline,
    /// Getting up to date with the peers connected first.
    Syncing { failed: PeerSet, succeeded: PeerSet, syncs: PeerSet },
    /// Operational, with the number of peers connected when it went online.
    Online { connected: usize },
}

pub enum StatusView {
    Stopped,
    Started,
    Offline,
    Syncing { failed: Set<PeerId>, succeeded: Set<PeerId>, syncs: Set<PeerId> },
    Online { connected: usize },
}

impl View for Status {
    type V = StatusView;

    open spec fn view(&self) -> StatusView {
        match self {
            Status::Stopped => StatusView::Stopped,
            Status::Started => StatusView::Started,
            Status::Offline => StatusView::Offline,
            Status::Syncing { failed, succeeded, syncs } => StatusView::Syncing {
                failed: failed@,
                succeeded: succeeded@,
                syncs: syncs@,
            },
            Status::Online { connected } => StatusView::Online { connected: *connected },
        }
    }
}

/// Which of the five statuses `s` is.
pub open spec fn status_kind(s: StatusView) -> int {
    match s {
        StatusView::Stopped => 0,
        StatusView::Started => 1,
        StatusView::Offline => 2,
        StatusView::Syncing { .. } => 3,
        StatusView::Online { .. } => 4,
    }
}

/// While syncing, no peer is in two of the sets of failed, succeeded and running syncs.
pub open spec fn sync_sets_disjoint(s: StatusView) -> bool {
    match s {
        StatusView::Syncing { failed, succeeded, syncs } => {
            &&& failed.disjoint(succeeded)
            &&& failed.disjoint(syncs)
            &&& succeeded.disjoint(syncs)
        },
        _ => true,
    }
}

impl Status {
    pub open spec fn wf(&self) -> bool {
        match self {
            Status::Syncing { failed, succeeded, syncs } => failed.wf() && succeeded.wf()
                && syncs.wf(),
            _ => true,
        }
    }

    /// Syncing with no peer yet.
    pub fn syncing() -> (r: Status)
        ensures
            r.wf(),
            r@ == (StatusView::Syncing {
                failed: Set::empty(),
                succeeded: Set::empty(),
                syncs: Set::empty(),
            }),
    {
        Status::Syncing { failed: PeerSet::new(), succeeded: PeerSet::new(), syncs: PeerSet::new() }
    }

    /// A copy of the status.
    pub fn snapshot(&self) -> (r: Status)
        requires
            self.wf(),
        ensures
            r.wf(),
            r@ == self@,
    {
        match self {
            Status::Stopped => Status::Stopped,
            Status::Started => Status::Started,
            Status::Offline => Status::Offline,
            Status::Syncing { failed, succeeded, syncs } => Status::Syncing {
                failed: failed.snapshot(),
                succeeded: succeeded.snapshot(),
                syncs: syncs.snapshot(),
            },
            Status::Online { connected } => Status::Online { connected: *connected },
        }
    }
}

} // verus!
