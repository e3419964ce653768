//! Run-state machine of a local peer in a git-backed collaboration network.
//!
//! The peer is driven by [`RunState::transition`]: each [`Input`] (network events,
//! control requests, timers, statistics, progress of requests) updates the state and
//! yields the [`Command`]s that the surrounding subroutines carry out. Requests for
//! projects are tracked in a [`WaitingRoom`].
pub mod command;
pub mod connected;
pub mod event;
pub mod ids;
pub mod input;
pub mod merge_request;
pub mod peer_set;
pub mod run_state;
pub mod status;
pub mod waiting_room;

pub use command::Command;
pub use connected::ConnectedPeers;
pub use event::Event;
pub use ids::{Oid, PeerId, Urn};
pub use input::Input;
pub use merge_request::MergeRequest;
pub use peer_set::PeerSet;
pub use run_state::{Config, RunState, SyncConfig};
pub use status::Status;
pub use waiting_room::{
    Candidate, Request, RequestState, WaitingRoom, WaitingRoomConfig, WaitingRoomError,
};
