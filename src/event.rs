//! Notifications that observers of the peer can subscribe to.
use vstd::prelude::*;

use crate::ids::{copy_vec, PeerId, Urn};
use crate::input::{self, Input, Payload, ProtocolEvent, PutResult, Update};
use crate::status::{Status, StatusView};

verus! {

/// Events external subscribers can observe for internal peer operations.
#[derive(Clone, Debug, PartialEq, Eq)]
pub enum Event {
    /// Announcement completed and emitted the enclosed updates.
    Announced(Vec<Update>),
    /// A fetch triggered by a gossip message was stored.
    GossipFetched { provider: PeerId, gossip: Payload, result: PutResult },
    /// An event from the network stack.
    Protocol(ProtocolEvent),
    /// Sync with a peer completed.
    PeerSynced(PeerId),
    /// Request fulfilled with a successful clone.
    RequestCloned(Urn, PeerId),
    /// Request is being cloned from a peer.
    RequestCloning(Urn, PeerId),
    /// Request for the URN was created and awaits submission to the network.
    RequestCreated(Urn),
    /// Request for the URN was submitted to the network.
    RequestQueried(Urn),
    /// Waiting room interval ticked.
    RequestTick,
    /// The request for the URN timed out.
    RequestTimedOut(Urn),
    /// The status of the peer changed.
    StatusChanged(Status, Status),
}

pub enum EventView {
    Announced(Seq<Update>),
    GossipFetched { provider: PeerId, gossip: Payload, result: PutResult },
    Protocol(ProtocolEvent),
    PeerSynced(PeerId),
    RequestCloned(Urn, PeerId),
    RequestCloning(Urn, PeerId),
    RequestCreated(Urn),
    RequestQueried(Urn),
    RequestTick,
    RequestTimedOut(Urn),
    StatusChanged(StatusView, StatusView),
}

impl View for Event {
    type V = EventView;

    open spec fn view(&self) -> EventView {
        match self {
            Event::Announced(u) => EventView::Announced(u@),
            Event::GossipFetched { provider, gossip, result } => EventView::GossipFetched {
                provider: *provider,
                gossip: *gossip,
                result: *result,
            },
            Event::Protocol(e) => EventView::Protocol(*e),
            Event::PeerSynced(p) => EventView::PeerSynced(*p),
            Event::RequestCloned(u, p) => EventView::RequestCloned(*u, *p),
            Event::RequestCloning(u, p) => EventView::RequestCloning(*u, *p),
            Event::RequestCreated(u) => EventView::RequestCreated(*u),
            Event::RequestQueried(u) => EventView::RequestQueried(*u),
            Event::RequestTick => EventView::RequestTick,
            Event::RequestTimedOut(u) => EventView::RequestTimedOut(*u),
            Event::StatusChanged(a, b) => EventView::StatusChanged(a@, b@),
        }
    }
}

/// The event that `input` is observed as, if any.
pub open spec fn event_of(input: Input) -> Option<EventView> {
    match input {
        Input::Announce(input::Announce::Succeeded(u)) => Some(EventView::Announced(u@)),
        Input::PeerSync(input::Sync::Succeeded(p)) => Some(EventView::PeerSynced(p)),
        Input::Protocol(e) => Some(EventView::Protocol(e)),
        Input::Request(input::Request::Cloned(u, p)) => Some(EventView::RequestCloned(u, p)),
        Input::Request(input::Request::Cloning(u, p)) => Some(EventView::RequestCloning(u, p)),
        Input::Request(input::Request::Queried(u)) => Some(EventView::RequestQueried(u)),
        Input::Request(input::Request::Tick) => Some(EventView::RequestTick),
        Input::Request(input::Request::TimedOut(u)) => Some(EventView::RequestTimedOut(u)),
        _ => None,
    }
}

impl Event {
    /// The event that `input` is observed as, if any.
    pub fn maybe_from(input: &Input) -> (r: Option<Event>)
        ensures
            match r {
                Some(e) => event_of(*input) == Some(e@),
                None => event_of(*input) == None::<EventView>,
            },
    {
        match input {
            Input::Announce(input::Announce::Succeeded(updates)) => Some(
                Event::Announced(copy_vec(updates)),
            ),
            Input::PeerSync(input::Sync::Succeeded(peer_id)) => Some(Event::PeerSynced(*peer_id)),
            Input::Protocol(protocol_event) => Some(Event::Protocol(*protocol_event)),
            Input::Request(input::Request::Cloned(urn, remote_peer)) => Some(
                Event::RequestCloned(*urn, *remote_peer),
            ),
            Input::Request(input::Request::Cloning(urn, remote_peer)) => Some(
                Event::RequestCloning(*urn, *remote_peer),
            ),
            Input::Request(input::Request::Queried(urn)) => Some(Event::RequestQueried(*urn)),
            Input::Request(input::Request::Tick) => Some(Event::RequestTick),
            Input::Request(input::Request::TimedOut(urn)) => Some(Event::RequestTimedOut(*urn)),
            _ => None,
        }
    }
}

} // verus!
