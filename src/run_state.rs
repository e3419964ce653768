//! State machine that manages the mode of operation of a running peer.
use vstd::prelude::*;

use crate::command::{
    self, cmds_view, none, one, push, two, Command, CommandView, Response, ResponseView,
};
use crate::connected::{connect_spec, disconnect_spec, replace_spec, ConnectedPeers};
use crate::event::{Event, EventView};
use crate::ids::{PeerId, Urn};
use crate::input::{self, Input, ProtocolEvent, ProtocolStats};
use crate::peer_set::PeerSet;
use crate::status::{status_kind, sync_sets_disjoint, Status, StatusView};
use crate::waiting_room::{
    first_at, lemma_call_keeps_unique, lemma_first_at_unique, lemma_lookup_none,
    lemma_request_step_keeps_urn, lemma_unique_lookup, unique_urns, RoomCall, lookup, new_request, room_get,
    room_next_clone, room_next_query, room_remove, room_request, room_step, Op, WaitingRoom,
    WaitingRoomConfig, WaitingRoomError, WaitingRoomView,
};

verus! {

/// Settings of the sync phase that follows the first connections.
#[derive(Clone, Copy, Debug, PartialEq, Eq, Structural)]
pub struct SyncConfig {
    /// Whether to sync with the first peers that connect.
    pub on_startup: bool,
    /// Number of finished syncs after which the peer goes online.
    pub max_peers: usize,
    /// Longest duration of the sync phase, in milliseconds.
    pub period: u64,
}

/// How inputs are interpreted.
#[derive(Clone, Copy, Debug, PartialEq, Eq, Structural)]
pub struct Config {
    pub sync: SyncConfig,
}

/// Default number of finished syncs after which the peer goes online.
pub const DEFAULT_SYNC_MAX_PEERS: usize = 5;

/// Default longest duration of the sync phase, in milliseconds.
pub const DEFAULT_SYNC_PERIOD: u64 = 5000;

impl Default for SyncConfig {
    fn default() -> (r: SyncConfig)
        ensures
            r.on_startup == false,
            r.max_peers == DEFAULT_SYNC_MAX_PEERS,
            r.period == DEFAULT_SYNC_PERIOD,
    {
        SyncConfig { on_startup: false, max_peers: DEFAULT_SYNC_MAX_PEERS, period: DEFAULT_SYNC_PERIOD }
    }
}

impl Default for Config {
    fn default() -> (r: Config)
        ensures
            r.sync.on_startup == false,
            r.sync.max_peers == DEFAULT_SYNC_MAX_PEERS,
            r.sync.period == DEFAULT_SYNC_PERIOD,
    {
        Config { sync: SyncConfig::default() }
    }
}

/// Default pause between two queries of one request, in milliseconds.
pub const DEFAULT_QUERY_INTERVAL: u64 = 1000;

/// Default pause after a clone attempt before a request is queried again, in milliseconds.
pub const DEFAULT_RETRY_INTERVAL: u64 = 1000;

/// Default number of queries and of clone attempts per request.
pub const DEFAULT_MAX_ATTEMPTS: u64 = 5;

/// Default age after which a request times out: one day, in milliseconds.
pub const DEFAULT_MAX_AGE: u64 = 86_400_000;

impl WaitingRoomConfig {
    /// The default limits.
    pub open spec fn default_spec() -> WaitingRoomConfig {
        WaitingRoomConfig {
            query_interval: DEFAULT_QUERY_INTERVAL,
            retry_interval: DEFAULT_RETRY_INTERVAL,
            max_queries: DEFAULT_MAX_ATTEMPTS,
            max_clones: DEFAULT_MAX_ATTEMPTS,
            max_age: DEFAULT_MAX_AGE,
        }
    }
}

impl Default for WaitingRoomConfig {
    fn default() -> (r: WaitingRoomConfig)
        ensures
            r == WaitingRoomConfig::default_spec(),
            r.query_interval == DEFAULT_QUERY_INTERVAL,
            r.retry_interval == DEFAULT_RETRY_INTERVAL,
            r.max_queries == DEFAULT_MAX_ATTEMPTS,
            r.max_clones == DEFAULT_MAX_ATTEMPTS,
            r.max_age == DEFAULT_MAX_AGE,
    {
        WaitingRoomConfig {
            query_interval: DEFAULT_QUERY_INTERVAL,
            retry_interval: DEFAULT_RETRY_INTERVAL,
            max_queries: DEFAULT_MAX_ATTEMPTS,
            max_clones: DEFAULT_MAX_ATTEMPTS,
            max_age: DEFAULT_MAX_AGE,
        }
    }
}

/// State kept for a running local peer.
pub struct RunState {
    /// How inputs are interpreted.
    config: Config,
    /// Connections per remote peer.
    connected_peers: ConnectedPeers,
    /// Current status.
    pub status: Status,
    /// Counters last reported by the network stack.
    stats: ProtocolStats,
    /// Time of the last status change, in milliseconds.
    status_since: u64,
    /// Current requests.
    waiting_room: WaitingRoom,
}

pub struct RunStateView {
    pub config: Config,
    pub connected: Map<PeerId, u64>,
    pub status: StatusView,
    pub stats: ProtocolStats,
    pub status_since: u64,
    pub room: WaitingRoomView,
}

impl View for RunState {
    type V = RunStateView;

    closed spec fn view(&self) -> RunStateView {
        RunStateView {
            config: self.config,
            connected: self.connected_peers@,
            status: self.status@,
            stats: self.stats,
            status_since: self.status_since,
            room: self.waiting_room@,
        }
    }
}

/// `s` with status `st`, changed at `now`.
pub open spec fn with_status(s: RunStateView, st: StatusView, now: u64) -> RunStateView {
    RunStateView { status: st, status_since: now, ..s }
}

/// Commands for an announcement input: announce while started, syncing or online.
pub open spec fn announce_cmds(s: RunStateView, a: input::Announce) -> Seq<CommandView> {
    match a {
        input::Announce::Tick => match s.status {
            StatusView::Online { .. } | StatusView::Started | StatusView::Syncing { .. } => seq![
                CommandView::Announce,
            ],
            _ => seq![],
        },
        input::Announce::Succeeded(_) => seq![],
    }
}

/// The answer to a control request and the state after it.
pub open spec fn control_step(s: RunStateView, c: input::Control) -> (RunStateView, Seq<CommandView>) {
    match c {
        input::Control::CancelRequest(u, t, sink) => {
            let (w1, res) = room_step(s.room, u, Op::Canceled(t));
            let (w2, removed) = if res is Ok {
                room_remove(w1, u)
            } else {
                (w1, None)
            };
            let outcome = match res {
                Ok(_) => Ok(removed),
                Err(e) => Err(e),
            };
            (
                RunStateView { room: w2, ..s },
                seq![
                    CommandView::Respond(ResponseView::CancelSearch(sink, outcome)),
                    CommandView::PersistWaitingRoom(w2),
                ],
            )
        },
        input::Control::CreateRequest(u, t, sink) => {
            let (w, r) = room_request(s.room, u, t);
            (
                RunStateView { room: w, ..s },
                seq![
                    CommandView::Respond(ResponseView::StartSearch(sink, r)),
                    CommandView::EmitEvent(EventView::RequestCreated(u)),
                ],
            )
        },
        input::Control::GetRequest(u, sink) => (
            s,
            seq![CommandView::Respond(ResponseView::GetSearch(sink, room_get(s.room, u)))],
        ),
        input::Control::ListRequests(sink) => (
            s,
            seq![CommandView::Respond(ResponseView::ListSearches(sink, s.room.requests))],
        ),
        input::Control::Status(sink) => (
            s,
            seq![CommandView::Respond(ResponseView::CurrentStatus(sink, s.status))],
        ),
    }
}

/// The reaction to an event of the network stack.
pub open spec fn protocol_step(s: RunStateView, e: ProtocolEvent, now: u64) -> (
    RunStateView,
    Seq<CommandView>,
) {
    match e {
        ProtocolEvent::EndpointUp => if s.status is Stopped {
            (with_status(s, StatusView::Started, now), seq![])
        } else {
            (s, seq![])
        },
        ProtocolEvent::EndpointDown => (with_status(s, StatusView::Stopped, now), seq![]),
        ProtocolEvent::GossipPut { provider, payload, .. } => {
            let (w, res) = room_step(s.room, payload.urn, Op::Found(provider, now));
            (
                RunStateView { room: w, ..s },
                if res == Err::<(), WaitingRoomError>(WaitingRoomError::TimeOut) {
                    seq![CommandView::Request(command::Request::TimedOut(payload.urn))]
                } else {
                    seq![]
                },
            )
        },
        ProtocolEvent::Connected(p) => (
            RunStateView { connected: connect_spec(s.connected, p), ..s },
            seq![],
        ),
        ProtocolEvent::Disconnecting(p) => (
            RunStateView { connected: disconnect_spec(s.connected, p), ..s },
            seq![],
        ),
    }
}

/// The sync sets after a report on one sync: the peer moves to the set the report names.
pub open spec fn sync_sets_after(
    failed: Set<PeerId>,
    succeeded: Set<PeerId>,
    syncs: Set<PeerId>,
    y: input::Sync,
) -> (Set<PeerId>, Set<PeerId>, Set<PeerId>) {
    match y {
        input::Sync::Started(p) => (failed.remove(p), succeeded.remove(p), syncs.insert(p)),
        input::Sync::Failed(p) => (failed.insert(p), succeeded.remove(p), syncs.remove(p)),
        input::Sync::Succeeded(p) => (failed.remove(p), succeeded.insert(p), syncs.remove(p)),
    }
}

/// The state after a report on a sync; ignored unless syncing. Once as many syncs ended
/// as the configuration asks, the peer goes online.
pub open spec fn peer_sync_step(s: RunStateView, y: input::Sync, now: u64) -> RunStateView {
    match s.status {
        StatusView::Syncing { failed, succeeded, syncs } => {
            let (f, sc, sy) = sync_sets_after(failed, succeeded, syncs, y);
            if f.len() + sc.len() >= s.config.sync.max_peers {
                with_status(s, StatusView::Online { connected: s.stats.connected_peers }, now)
            } else {
                RunStateView {
                    status: StatusView::Syncing { failed: f, succeeded: sc, syncs: sy },
                    ..s
                }
            }
        },
        _ => s,
    }
}

/// The state and commands after `op` on the request for `u`: persist the room on
/// success, report a time-out, nothing on other errors.
pub open spec fn room_outcome(s: RunStateView, u: Urn, op: Op) -> (RunStateView, Seq<CommandView>) {
    let (w, res) = room_step(s.room, u, op);
    (
        RunStateView { room: w, ..s },
        match res {
            Ok(_) => seq![CommandView::PersistWaitingRoom(w)],
            Err(WaitingRoomError::TimeOut) => seq![
                CommandView::Request(command::Request::TimedOut(u)),
            ],
            Err(_) => seq![],
        },
    )
}

/// Commands of a request tick: the next query and the next clone, each followed by a
/// snapshot of the room.
pub open spec fn tick_cmds(w: WaitingRoomView, now: u64) -> Seq<CommandView> {
    let q = match room_next_query(w, now) {
        Some(u) => seq![
            CommandView::Request(command::Request::Query(u)),
            CommandView::PersistWaitingRoom(w),
        ],
        None => seq![],
    };
    let c = match room_next_clone(w) {
        Some((u, p)) => seq![
            CommandView::Request(command::Request::Clone(u, p)),
            CommandView::PersistWaitingRoom(w),
        ],
        None => seq![],
    };
    q + c
}

/// The reaction to progress of the requests.
pub open spec fn request_input_step(s: RunStateView, r: input::Request, now: u64) -> (
    RunStateView,
    Seq<CommandView>,
) {
    match r {
        input::Request::Tick => match s.status {
            StatusView::Online { .. } | StatusView::Syncing { .. } => (s, tick_cmds(s.room, now)),
            _ => (s, seq![]),
        },
        input::Request::Queried(u) => room_outcome(s, u, Op::Queried(now)),
        input::Request::Cloning(u, p) => room_outcome(s, u, Op::Cloning(p, now)),
        input::Request::Cloned(u, p) => room_outcome(s, u, Op::Cloned(p, now)),
        input::Request::Failed { urn, remote_peer, .. } => room_outcome(
            s,
            urn,
            Op::CloningFailed(remote_peer, now),
        ),
        input::Request::TimedOut(_) => (s, seq![]),
    }
}

/// The peers of `list` not in `m`, each once, in the order of `list`.
pub open spec fn new_peers(m: Map<PeerId, u64>, list: Seq<PeerId>) -> Seq<PeerId>
    decreases list.len(),
{
    if list.len() == 0 {
        Seq::empty()
    } else {
        let rest = new_peers(m, list.drop_last());
        let p = list.last();
        if m.contains_key(p) || list.drop_last().contains(p) {
            rest
        } else {
            rest.push(p)
        }
    }
}

/// A sync command for each peer of `list`.
pub open spec fn sync_cmds(list: Seq<PeerId>) -> Seq<CommandView> {
    list.map_values(|p: PeerId| CommandView::SyncPeer(p))
}

/// The status and commands after a statistics report, before the ledger is replaced.
pub open spec fn stats_status(s: RunStateView, list: Seq<PeerId>, st: ProtocolStats, now: u64) -> (
    RunStateView,
    Seq<CommandView>,
) {
    let c = st.connected_peers;
    if c == 0 && (s.status is Online || s.status is Syncing || s.status is Started) {
        (with_status(s, StatusView::Offline, now), seq![])
    } else if c > 0 && s.status is Offline {
        (with_status(s, StatusView::Online { connected: c }, now), seq![])
    } else if c > 0 && s.status is Started && s.config.sync.on_startup {
        (
            with_status(
                s,
                StatusView::Syncing {
                    failed: Set::empty(),
                    succeeded: Set::empty(),
                    syncs: Set::empty(),
                },
                now,
            ),
            sync_cmds(list).push(CommandView::StartSyncTimeout(s.config.sync.period)),
        )
    } else if c > 0 && s.status is Started {
        (with_status(s, StatusView::Online { connected: c }, now), seq![])
    } else if s.status is Syncing {
        (s, sync_cmds(new_peers(s.connected, list)))
    } else {
        (s, seq![])
    }
}

/// The reaction to statistics of the network stack.
pub open spec fn stats_step(s: RunStateView, st: input::Stats, now: u64) -> (
    RunStateView,
    Seq<CommandView>,
) {
    match st {
        input::Stats::Tick => (s, seq![CommandView::Stats]),
        input::Stats::Values(list, stats) => {
            let (s1, cmds) = stats_status(s, list@, stats, now);
            (RunStateView { connected: replace_spec(s.connected, list@), stats, ..s1 }, cmds)
        },
    }
}

/// The reaction to the end of the sync period: go online if still syncing.
pub open spec fn timeout_step(s: RunStateView, t: input::Timeout, now: u64) -> RunStateView {
    match t {
        input::Timeout::SyncPeriod => if s.status is Syncing {
            with_status(s, StatusView::Online { connected: s.connected.dom().len() as usize }, now)
        } else {
            s
        },
    }
}

/// The state after `input` at time `now`, and the commands it produces.
pub open spec fn step(s: RunStateView, input: Input, now: u64) -> (RunStateView, Seq<CommandView>) {
    match input {
        Input::Announce(a) => (s, announce_cmds(s, a)),
        Input::Control(c) => control_step(s, c),
        Input::Protocol(e) => protocol_step(s, e, now),
        Input::PeerSync(y) => (peer_sync_step(s, y, now), seq![]),
        Input::Request(r) => request_input_step(s, r, now),
        Input::Stats(st) => stats_step(s, st, now),
        Input::Timeout(t) => (timeout_step(s, t, now), seq![]),
    }
}

/// Relies on std::time::SystemTime::now: the wall clock, in milliseconds since the Unix
/// epoch (0 for a clock set before it). Nothing is promised of the reading.
#[verifier::external_body]
fn clock_now() -> (r: u64) {
    std::time::SystemTime::now().duration_since(std::time::UNIX_EPOCH).map_or(
        0,
        |d| d.as_millis() as u64,
    )
}

impl RunState {
    /// The ledger, the status and the room are well formed.
    pub closed spec fn parts_wf(&self) -> bool {
        self.connected_peers.wf() && self.status.wf() && self.waiting_room.wf()
    }

    /// The parts are well formed, the sync sets are pairwise disjoint and the room holds
    /// at most one request per URN.
    pub closed spec fn wf(&self) -> bool {
        self.parts_wf() && sync_sets_disjoint(self.status@)
    }

    /// A state with the given parts, the counters at zero and an empty room with
    /// default limits.
    pub fn construct(
        config: Config,
        connected_peers: ConnectedPeers,
        status: Status,
        status_since: u64,
    ) -> (r: RunState)
        requires
            connected_peers.wf(),
            status.wf(),
            sync_sets_disjoint(status@),
        ensures
            r.wf(),
            r@.config == config,
            r@.connected == connected_peers@,
            r@.status == status@,
            r@.status_since == status_since,
            r@.stats == (ProtocolStats { connected_peers: 0, membership_active: 0, membership_passive: 0 }),
            r@.room.requests.len() == 0,
            r@.room.config == WaitingRoomConfig::default_spec(),
    {
        RunState {
            config,
            connected_peers,
            stats: ProtocolStats::zero(),
            status,
            status_since,
            waiting_room: WaitingRoom::new(WaitingRoomConfig::default()),
        }
    }

    /// A stopped peer since `now`, with no connections, the given configuration and
    /// requests.
    pub fn new_at(config: Config, waiting_room: WaitingRoom, now: u64) -> (r: RunState)
        requires
            waiting_room.wf(),
        ensures
            r.wf(),
            r@.config == config,
            r@.connected == Map::<PeerId, u64>::empty(),
            r@.status == StatusView::Stopped,
            r@.status_since == now,
            r@.stats == (ProtocolStats { connected_peers: 0, membership_active: 0, membership_passive: 0 }),
            r@.room == waiting_room@,
    {
        RunState {
            config,
            connected_peers: ConnectedPeers::new(),
            stats: ProtocolStats::zero(),
            status: Status::Stopped,
            status_since: now,
            waiting_room,
        }
    }

    /// A stopped peer since the time of the wall clock, with no connections, the given
    /// configuration and requests.
    pub fn new(config: Config, waiting_room: WaitingRoom) -> (r: RunState)
        requires
            waiting_room.wf(),
        ensures
            r.wf(),
            r@.config == config,
            r@.connected == Map::<PeerId, u64>::empty(),
            r@.status == StatusView::Stopped,
            r@.stats == (ProtocolStats { connected_peers: 0, membership_active: 0, membership_passive: 0 }),
            r@.room == waiting_room@,
    {
        RunState::new_at(config, waiting_room, clock_now())
    }

    /// The time of the last status change, in milliseconds.
    pub fn status_since(&self) -> (r: u64)
        ensures
            r == self@.status_since,
    {
        self.status_since
    }

    /// The current requests.
    pub fn waiting_room(&self) -> (r: &WaitingRoom)
        ensures
            r@ == self@.room,
    {
        &self.waiting_room
    }

    /// The connections per peer.
    pub fn connected_peers(&self) -> (r: &ConnectedPeers)
        ensures
            r@ == self@.connected,
    {
        &self.connected_peers
    }

    fn set_status(&mut self, st: Status, now: u64)
        requires
            old(self).parts_wf(),
            st.wf(),
        ensures
            final(self).parts_wf(),
            final(self)@ == with_status(old(self)@, st@, now),
    {
        self.status = st;
        self.status_since = now;
    }

    fn handle_announce(&self, input: input::Announce) -> (r: Vec<Command>)
        ensures
            cmds_view(r@) == announce_cmds(self@, input),
    {
        match input {
            input::Announce::Tick => match &self.status {
                Status::Online { .. } | Status::Started | Status::Syncing { .. } => one(
                    Command::Announce,
                ),
                _ => none(),
            },
            input::Announce::Succeeded(_) => none(),
        }
    }

    fn handle_control(&mut self, input: input::Control) -> (r: Vec<Command>)
        requires
            old(self).parts_wf(),
        ensures
            final(self).parts_wf(),
            (final(self)@, cmds_view(r@)) == control_step(old(self)@, input),
    {
        match input {
            input::Control::CancelRequest(urn, timestamp, sink) => {
                let request = match self.waiting_room.canceled(urn, timestamp) {
                    Ok(()) => Ok(self.waiting_room.remove(urn)),
                    Err(e) => Err(e),
                };
                two(
                    Command::Control(command::Control::Respond(Response::CancelSearch(sink, request))),
                    Command::PersistWaitingRoom(self.waiting_room.snapshot()),
                )
            },
            input::Control::CreateRequest(urn, time, sink) => {
                let request = self.waiting_room.request(urn, time);
                two(
                    Command::Control(command::Control::Respond(Response::StartSearch(sink, request))),
                    Command::EmitEvent(Event::RequestCreated(urn)),
                )
            },
            input::Control::GetRequest(urn, sink) => {
                let found = self.waiting_room.get(urn);
                one(Command::Control(command::Control::Respond(Response::GetSearch(sink, found))))
            },
            input::Control::ListRequests(sink) => {
                let all = self.waiting_room.list();
                one(Command::Control(command::Control::Respond(Response::ListSearches(sink, all))))
            },
            input::Control::Status(sink) => {
                let status = self.status.snapshot();
                one(Command::Control(command::Control::Respond(Response::CurrentStatus(sink, status))))
            },
        }
    }

    fn handle_protocol(&mut self, event: ProtocolEvent, now: u64) -> (r: Vec<Command>)
        requires
            old(self).parts_wf(),
        ensures
            final(self).parts_wf(),
            (final(self)@, cmds_view(r@)) == protocol_step(old(self)@, event, now),
    {
        match event {
            ProtocolEvent::EndpointUp => {
                if let Status::Stopped = self.status {
                    self.set_status(Status::Started, now);
                }
                none()
            },
            ProtocolEvent::EndpointDown => {
                self.set_status(Status::Stopped, now);
                none()
            },
            ProtocolEvent::GossipPut { provider, payload, .. } => {
                match self.waiting_room.found(payload.urn, provider, now) {
                    Err(WaitingRoomError::TimeOut) => one(
                        Command::Request(command::Request::TimedOut(payload.urn)),
                    ),
                    _ => none(),
                }
            },
            ProtocolEvent::Connected(p) => {
                self.connected_peers.connect(p);
                none()
            },
            ProtocolEvent::Disconnecting(p) => {
                self.connected_peers.disconnect(p);
                none()
            },
        }
    }

    fn handle_peer_sync(&mut self, input: input::Sync, now: u64)
        requires
            old(self).parts_wf(),
        ensures
            final(self).parts_wf(),
            final(self)@ == peer_sync_step(old(self)@, input, now),
    {
        let (mut failed, mut succeeded, mut syncs) = match &self.status {
            Status::Syncing { failed, succeeded, syncs } => (
                failed.snapshot(),
                succeeded.snapshot(),
                syncs.snapshot(),
            ),
            _ => {
                return ;
            },
        };
        match input {
            input::Sync::Started(p) => {
                failed.remove(p);
                succeeded.remove(p);
                syncs.insert(p);
            },
            input::Sync::Failed(p) => {
                failed.insert(p);
                succeeded.remove(p);
                syncs.remove(p);
            },
            input::Sync::Succeeded(p) => {
                failed.remove(p);
                succeeded.insert(p);
                syncs.remove(p);
            },
        }
        let max = self.config.sync.max_peers;
        let nf = failed.len();
        let ns = succeeded.len();
        if nf >= max || ns >= max - nf {
            let connected = self.stats.connected_peers;
            self.set_status(Status::Online { connected }, now);
        } else {
            self.status = Status::Syncing { failed, succeeded, syncs };
        }
    }

    fn room_outcome(&self, urn: Urn, res: Result<(), WaitingRoomError>) -> (r: Vec<Command>)
        ensures
            cmds_view(r@) == match res {
                Ok(_) => seq![CommandView::PersistWaitingRoom(self@.room)],
                Err(WaitingRoomError::TimeOut) => seq![
                    CommandView::Request(command::Request::TimedOut(urn)),
                ],
                Err(_) => Seq::<CommandView>::empty(),
            },
    {
        match res {
            Ok(()) => one(Command::PersistWaitingRoom(self.waiting_room.snapshot())),
            Err(WaitingRoomError::TimeOut) => one(Command::Request(command::Request::TimedOut(urn))),
            Err(_) => none(),
        }
    }

    fn handle_request(&mut self, input: input::Request, now: u64) -> (r: Vec<Command>)
        requires
            old(self).parts_wf(),
        ensures
            final(self).parts_wf(),
            (final(self)@, cmds_view(r@)) == request_input_step(old(self)@, input, now),
    {
        match input {
            input::Request::Tick => match &self.status {
                Status::Online { .. } | Status::Syncing { .. } => {
                    let mut cmds = none();
                    if let Some(urn) = self.waiting_room.next_query(now) {
                        push(&mut cmds, Command::Request(command::Request::Query(urn)));
                        push(&mut cmds, Command::PersistWaitingRoom(self.waiting_room.snapshot()));
                    }
                    if let Some((urn, remote_peer)) = self.waiting_room.next_clone() {
                        push(&mut cmds, Command::Request(command::Request::Clone(urn, remote_peer)));
                        push(&mut cmds, Command::PersistWaitingRoom(self.waiting_room.snapshot()));
                    }
                    proof {
                        assert(cmds_view(cmds@) =~= tick_cmds(self@.room, now));
                    }
                    cmds
                },
                _ => none(),
            },
            input::Request::Queried(urn) => {
                let res = self.waiting_room.queried(urn, now);
                self.room_outcome(urn, res)
            },
            input::Request::Cloning(urn, remote_peer) => {
                let res = self.waiting_room.cloning(urn, remote_peer, now);
                self.room_outcome(urn, res)
            },
            input::Request::Cloned(urn, remote_peer) => {
                let res = self.waiting_room.cloned(urn, remote_peer, now);
                self.room_outcome(urn, res)
            },
            input::Request::Failed { urn, remote_peer, .. } => {
                let res = self.waiting_room.cloning_failed(urn, remote_peer, now);
                self.room_outcome(urn, res)
            },
            input::Request::TimedOut(_) => none(),
        }
    }

    fn handle_timeout(&mut self, input: input::Timeout, now: u64)
        requires
            old(self).parts_wf(),
        ensures
            final(self).parts_wf(),
            final(self)@ == timeout_step(old(self)@, input, now),
    {
        match input {
            input::Timeout::SyncPeriod => {
                if let Status::Syncing { .. } = self.status {
                    let connected = self.connected_peers.len();
                    self.set_status(Status::Online { connected }, now);
                }
            },
        }
    }

    fn handle_stats(&mut self, input: input::Stats, now: u64) -> (r: Vec<Command>)
        requires
            old(self).parts_wf(),
        ensures
            final(self).parts_wf(),
            (final(self)@, cmds_view(r@)) == stats_step(old(self)@, input, now),
    {
        match input {
            input::Stats::Tick => one(Command::Stats),
            input::Stats::Values(connected_peers, stats) => {
                let ghost s0 = self@;
                let c = stats.connected_peers;
                let mut cmds = none();
                let online_like = match &self.status {
                    Status::Online { .. } | Status::Syncing { .. } | Status::Started => true,
                    _ => false,
                };
                let is_offline = match &self.status {
                    Status::Offline => true,
                    _ => false,
                };
                let is_started = match &self.status {
                    Status::Started => true,
                    _ => false,
                };
                let is_syncing = match &self.status {
                    Status::Syncing { .. } => true,
                    _ => false,
                };
                if c == 0 && online_like {
                    self.set_status(Status::Offline, now);
                } else if c > 0 && is_offline {
                    self.set_status(Status::Online { connected: c }, now);
                } else if c > 0 && is_started && self.config.sync.on_startup {
                    self.set_status(Status::syncing(), now);
                    let mut j: usize = 0;
                    while j < connected_peers.len()
                        invariant
                            j <= connected_peers@.len(),
                            cmds_view(cmds@) == sync_cmds(connected_peers@.subrange(0, j as int)),
                        decreases connected_peers@.len() - j,
                    {
                        push(&mut cmds, Command::SyncPeer(connected_peers[j]));
                        j = j + 1;
                        proof {
                            assert(sync_cmds(connected_peers@.subrange(0, j as int)) =~= sync_cmds(
                                connected_peers@.subrange(0, j - 1),
                            ).push(CommandView::SyncPeer(connected_peers@[j - 1])));
                        }
                    }
                    proof {
                        assert(connected_peers@.subrange(0, connected_peers@.len() as int)
                            =~= connected_peers@);
                    }
                    push(&mut cmds, Command::StartSyncTimeout(self.config.sync.period));
                } else if c > 0 && is_started {
                    self.set_status(Status::Online { connected: c }, now);
                } else if is_syncing {
                    let mut seen = PeerSet::new();
                    let mut j: usize = 0;
                    while j < connected_peers.len()
                        invariant
                            j <= connected_peers@.len(),
                            self@ == s0,
                            self.parts_wf(),
                            seen.wf(),
                            seen@ == connected_peers@.subrange(0, j as int).to_set(),
                            cmds_view(cmds@) == sync_cmds(
                                new_peers(s0.connected, connected_peers@.subrange(0, j as int)),
                            ),
                        decreases connected_peers@.len() - j,
                    {
                        let p = connected_peers[j];
                        let ghost before = connected_peers@.subrange(0, j as int);
                        let ghost after = connected_peers@.subrange(0, j + 1);
                        proof {
                            assert(after.drop_last() =~= before);
                            assert(after.last() == p);
                        }
                        if !self.connected_peers.contains(p) && !seen.contains(p) {
                            push(&mut cmds, Command::SyncPeer(p));
                            proof {
                                assert(sync_cmds(new_peers(s0.connected, after)) =~= sync_cmds(
                                    new_peers(s0.connected, before),
                                ).push(CommandView::SyncPeer(p)));
                            }
                        }
                        seen.insert(p);
                        proof {
                            assert forall|q: PeerId| after.contains(q) <==> (before.contains(q) || q == p) by {
                                if after.contains(q) {
                                    let k = choose|k: int| 0 <= k < after.len() && after[k] == q;
                                    if k < j {
                                        assert(before[k] == q);
                                    }
                                }
                                if before.contains(q) {
                                    let k = choose|k: int| 0 <= k < before.len() && before[k] == q;
                                    assert(after[k] == q);
                                }
                                if q == p {
                                    assert(after[j as int] == q);
                                }
                            }
                            assert(seen@ =~= after.to_set());
                        }
                        j = j + 1;
                    }
                    proof {
                        assert(connected_peers@.subrange(0, connected_peers@.len() as int)
                            =~= connected_peers@);
                    }
                }
                self.connected_peers = self.connected_peers.replaced(&connected_peers);
                self.stats = stats;
                cmds
            },
        }
    }

    /// Applies `input` at time `now`: moves to the next state and returns the commands
    /// for the subroutines.
    pub fn transition_at(&mut self, input: Input, now: u64) -> (r: Vec<Command>)
        requires
            old(self).wf(),
        ensures
            final(self).wf(),
            (final(self)@, cmds_view(r@)) == step(old(self)@, input, now),
    {
        proof {
            lemma_sync_sets_stay_disjoint(self@, input, now);
        }
        match input {
            Input::Announce(announce_input) => self.handle_announce(announce_input),
            Input::Control(control_input) => self.handle_control(control_input),
            Input::Protocol(protocol_event) => self.handle_protocol(protocol_event, now),
            Input::PeerSync(peer_sync_input) => {
                self.handle_peer_sync(peer_sync_input, now);
                none()
            },
            Input::Request(request_input) => self.handle_request(request_input, now),
            Input::Stats(stats_input) => self.handle_stats(stats_input, now),
            Input::Timeout(timeout_input) => {
                self.handle_timeout(timeout_input, now);
                none()
            },
        }
    }

    /// Applies `input` at the time of the wall clock: moves to the next state and returns
    /// the commands for the subroutines.
    pub fn transition(&mut self, input: Input) -> (r: Vec<Command>)
        requires
            old(self).wf(),
        ensures
            final(self).wf(),
            exists|now: u64| (final(self)@, cmds_view(r@)) == step(old(self)@, input, now),
    {
        let now = clock_now();
        self.transition_at(input, now)
    }
}

/// Whatever the input, a syncing state whose sets of failed, succeeded and running syncs
/// are pairwise disjoint is followed by one whose sets are too.
pub proof fn lemma_sync_sets_stay_disjoint(s: RunStateView, input: Input, now: u64)
    requires
        sync_sets_disjoint(s.status),
    ensures
        sync_sets_disjoint(step(s, input, now).0.status),
{
    match input {
        Input::PeerSync(y) => {
            if let StatusView::Syncing { failed, succeeded, syncs } = s.status {
                let (f, sc, sy) = sync_sets_after(failed, succeeded, syncs, y);
                assert(f.disjoint(sc) && f.disjoint(sy) && sc.disjoint(sy));
            }
        },
        Input::Stats(input::Stats::Values(list, st)) => {
            let e = Set::<PeerId>::empty();
            assert(e.disjoint(e));
        },
        _ => {},
    }
}

/// With a clock that does not go back, `status_since` never decreases, and every change
/// of status sets it to the current time, so that it moves forward whenever the clock did.
pub proof fn lemma_status_since_advances(s: RunStateView, input: Input, now: u64)
    requires
        s.status_since <= now,
    ensures
        ({
            let s2 = step(s, input, now).0;
            &&& s.status_since <= s2.status_since
            &&& s2.status_since == s.status_since || s2.status_since == now
            &&& status_kind(s2.status) != status_kind(s.status) ==> s2.status_since == now
            &&& status_kind(s2.status) != status_kind(s.status) && s.status_since < now
                ==> s.status_since < s2.status_since
        }),
{
}

/// Asking twice for the same URN leaves the room as the first request left it, and the
/// second answer is the request that the first one made or found.
pub proof fn lemma_create_request_idempotent(
    s: RunStateView,
    u: Urn,
    t1: u64,
    t2: u64,
    k1: input::Sink,
    k2: input::Sink,
    n1: u64,
    n2: u64,
)
    ensures
        ({
            let (s1, c1) = step(s, Input::Control(input::Control::CreateRequest(u, t1, k1)), n1);
            let (s2, c2) = step(s1, Input::Control(input::Control::CreateRequest(u, t2, k2)), n2);
            &&& s2 == s1
            &&& c1[0] matches CommandView::Respond(ResponseView::StartSearch(_, r1))
            &&& c2 == seq![
                CommandView::Respond(ResponseView::StartSearch(k2, r1)),
                CommandView::EmitEvent(EventView::RequestCreated(u)),
            ]
            &&& room_get(s1.room, u) == Some(r1)
        }),
{
    let (w1, r1) = room_request(s.room, u, t1);
    match lookup(s.room.requests, u) {
        Some(i) => {},
        None => {
            let rs = s.room.requests.push(new_request(u, t1));
            let n = s.room.requests.len() as int;
            lemma_lookup_none(s.room.requests, u);
            assert(first_at(rs, u, n));
            lemma_first_at_unique(rs, u, n);
        },
    }
}

/// Reporting the same peers and counters twice leaves the state as the first report did.
pub proof fn lemma_stats_values_idempotent(
    s: RunStateView,
    list: Vec<PeerId>,
    st: ProtocolStats,
    n1: u64,
    n2: u64,
)
    ensures
        ({
            let input = Input::Stats(input::Stats::Values(list, st));
            let s1 = step(s, input, n1).0;
            step(s1, input, n2) == (s1, Seq::<CommandView>::empty())
        }),
{
    let input = Input::Stats(input::Stats::Values(list, st));
    let s1 = step(s, input, n1).0;
    let m1 = replace_spec(s.connected, list@);
    assert(replace_spec(m1, list@) =~= m1);
    lemma_no_new_peers(m1, list@);
    assert(sync_cmds(Seq::<PeerId>::empty()) =~= Seq::<CommandView>::empty());
}

/// No peer of `list` is new to a ledger that holds all of them.
pub proof fn lemma_no_new_peers(m: Map<PeerId, u64>, list: Seq<PeerId>)
    requires
        forall|p: PeerId| list.contains(p) ==> m.contains_key(p),
    ensures
        new_peers(m, list) == Seq::<PeerId>::empty(),
    decreases list.len(),
{
    if list.len() > 0 {
        let rest = list.drop_last();
        assert forall|p: PeerId| rest.contains(p) implies m.contains_key(p) by {
            let k = choose|k: int| 0 <= k < rest.len() && rest[k] == p;
            assert(list[k] == p);
            assert(list.contains(p));
        }
        assert(list[list.len() - 1] == list.last());
        assert(list.contains(list.last()));
        lemma_no_new_peers(m, rest);
    }
}

/// A report on a sync moves its peer into exactly one of the three sets and leaves every
/// other peer where it was.
pub proof fn lemma_sync_report_moves_one_peer(
    failed: Set<PeerId>,
    succeeded: Set<PeerId>,
    syncs: Set<PeerId>,
    y: input::Sync,
)
    ensures
        ({
            let (f, sc, sy) = sync_sets_after(failed, succeeded, syncs, y);
            let p = match y {
                input::Sync::Started(p) => p,
                input::Sync::Failed(p) => p,
                input::Sync::Succeeded(p) => p,
            };
            &&& f.union(sc).union(sy) == failed.union(succeeded).union(syncs).insert(p)
            &&& forall|q: PeerId|
                q != p ==> (f.contains(q) == failed.contains(q) && sc.contains(q)
                    == succeeded.contains(q) && sy.contains(q) == syncs.contains(q))
            &&& f.contains(p) || sc.contains(p) || sy.contains(p)
            &&& !(f.contains(p) && sc.contains(p))
            &&& !(f.contains(p) && sy.contains(p))
            &&& !(sc.contains(p) && sy.contains(p))
        }),
{
    let (f, sc, sy) = sync_sets_after(failed, succeeded, syncs, y);
    let p = match y {
        input::Sync::Started(p) => p,
        input::Sync::Failed(p) => p,
        input::Sync::Succeeded(p) => p,
    };
    assert(f.union(sc).union(sy) =~= failed.union(succeeded).union(syncs).insert(p));
}

/// Syncing with no failed sync, one sync short of the configured number of peers, and
/// one sync running: when that sync succeeds the peer goes online, with as many
/// connected peers as the last counters report, and no command.
pub proof fn lemma_sync_completes_at_max_peers(
    s: RunStateView,
    succeeded: Set<PeerId>,
    q: PeerId,
    now: u64,
)
    requires
        s.status == (StatusView::Syncing {
            failed: Set::empty(),
            succeeded,
            syncs: Set::empty().insert(q),
        }),
        succeeded.finite(),
        !succeeded.contains(q),
        succeeded.len() + 1 == s.config.sync.max_peers,
    ensures
        step(s, Input::PeerSync(input::Sync::Succeeded(q)), now) == (
            with_status(s, StatusView::Online { connected: s.stats.connected_peers }, now),
            Seq::<CommandView>::empty(),
        ),
{
    assert(Set::<PeerId>::empty().remove(q) =~= Set::<PeerId>::empty());
}

/// Whatever the input, a room with at most one request per URN keeps at most one.
pub proof fn lemma_one_request_per_urn_across_inputs(s: RunStateView, input: Input, now: u64)
    requires
        unique_urns(s.room.requests),
    ensures
        unique_urns(step(s, input, now).0.room.requests),
{
    match input {
        Input::Control(input::Control::CancelRequest(u, t, _)) => {
            lemma_call_keeps_unique(s.room, RoomCall::Step(u, Op::Canceled(t)));
            let w1 = room_step(s.room, u, Op::Canceled(t)).0;
            lemma_call_keeps_unique(w1, RoomCall::Remove(u));
        },
        Input::Control(input::Control::CreateRequest(u, t, _)) => {
            lemma_call_keeps_unique(s.room, RoomCall::Request(u, t));
        },
        Input::Protocol(ProtocolEvent::GossipPut { provider, payload, .. }) => {
            lemma_call_keeps_unique(s.room, RoomCall::Step(payload.urn, Op::Found(provider, now)));
        },
        Input::Request(input::Request::Queried(u)) => {
            lemma_call_keeps_unique(s.room, RoomCall::Step(u, Op::Queried(now)));
        },
        Input::Request(input::Request::Cloning(u, p)) => {
            lemma_call_keeps_unique(s.room, RoomCall::Step(u, Op::Cloning(p, now)));
        },
        Input::Request(input::Request::Cloned(u, p)) => {
            lemma_call_keeps_unique(s.room, RoomCall::Step(u, Op::Cloned(p, now)));
        },
        Input::Request(input::Request::Failed { urn, remote_peer, .. }) => {
            lemma_call_keeps_unique(s.room, RoomCall::Step(urn, Op::CloningFailed(remote_peer, now)));
        },
        _ => {},
    }
}

/// A request for `u` leaves exactly one request for `u`; a cancellation of `u` that
/// succeeds leaves none.
pub proof fn lemma_create_and_cancel_entries(
    s: RunStateView,
    u: Urn,
    t: u64,
    k: input::Sink,
    now: u64,
)
    requires
        unique_urns(s.room.requests),
    ensures
        ({
            let rs = step(s, Input::Control(input::Control::CreateRequest(u, t, k)), now).0.room.requests;
            &&& unique_urns(rs)
            &&& exists|i: int| 0 <= i < rs.len() && rs[i].urn == u
        }),
        ({
            let (s2, c2) = step(s, Input::Control(input::Control::CancelRequest(u, t, k)), now);
            c2[0] matches CommandView::Respond(ResponseView::CancelSearch(_, Ok(_)))
                ==> forall|i: int| 0 <= i < s2.room.requests.len() ==> s2.room.requests[i].urn != u
        }),
{
    lemma_one_request_per_urn_across_inputs(s, Input::Control(input::Control::CreateRequest(u, t, k)), now);
    let rs = s.room.requests;
    match lookup(rs, u) {
        Some(i) => {
            let j = choose|j: int| first_at(rs, u, j);
            assert(rs[j].urn == u);
        },
        None => {
            let n = rs.len() as int;
            assert(rs.push(new_request(u, t))[n].urn == u);
        },
    }
    let (w1, res) = room_step(s.room, u, Op::Canceled(t));
    if res is Ok {
        let i = choose|i: int| first_at(rs, u, i);
        lemma_first_at_unique(rs, u, i);
        lemma_call_keeps_unique(s.room, RoomCall::Step(u, Op::Canceled(t)));
        lemma_request_step_keeps_urn(rs[i], s.room.config, Op::Canceled(t));
        lemma_unique_lookup(w1.requests, u, i);
        let rs2 = w1.requests.remove(i);
        assert forall|a: int| 0 <= a < rs2.len() implies rs2[a].urn != u by {
            let a1 = if a < i { a } else { a + 1 };
            assert(rs2[a] == w1.requests[a1]);
        }
    }
}

/// The sink every answer goes to once sinks are left out.
pub open spec fn no_sink() -> input::Sink {
    input::Sink { id: 0 }
}

/// `input` with the sink of a control request left out.
pub open spec fn input_without_sink(input: Input) -> Input {
    match input {
        Input::Control(c) => Input::Control(
            match c {
                input::Control::CancelRequest(u, t, _) => input::Control::CancelRequest(u, t, no_sink()),
                input::Control::CreateRequest(u, t, _) => input::Control::CreateRequest(u, t, no_sink()),
                input::Control::GetRequest(u, _) => input::Control::GetRequest(u, no_sink()),
                input::Control::ListRequests(_) => input::Control::ListRequests(no_sink()),
                input::Control::Status(_) => input::Control::Status(no_sink()),
            },
        ),
        _ => input,
    }
}

/// `c` with the sink of an answer left out.
pub open spec fn command_without_sink(c: CommandView) -> CommandView {
    match c {
        CommandView::Respond(r) => CommandView::Respond(
            match r {
                ResponseView::CancelSearch(_, x) => ResponseView::CancelSearch(no_sink(), x),
                ResponseView::CurrentStatus(_, x) => ResponseView::CurrentStatus(no_sink(), x),
                ResponseView::GetSearch(_, x) => ResponseView::GetSearch(no_sink(), x),
                ResponseView::ListSearches(_, x) => ResponseView::ListSearches(no_sink(), x),
                ResponseView::StartSearch(_, x) => ResponseView::StartSearch(no_sink(), x),
            },
        ),
        _ => c,
    }
}

/// Processing is deterministic: from one state, at one time, two inputs that differ at
/// most in the sinks of their answers lead to the same state, and to the same commands
/// once the sinks are left out.
pub proof fn lemma_transition_deterministic(s: RunStateView, i1: Input, i2: Input, now: u64)
    requires
        input_without_sink(i1) == input_without_sink(i2),
    ensures
        step(s, i1, now).0 == step(s, i2, now).0,
        step(s, i1, now).1.map_values(|c: CommandView| command_without_sink(c))
            == step(s, i2, now).1.map_values(|c: CommandView| command_without_sink(c)),
{
    let c1 = step(s, i1, now).1.map_values(|c: CommandView| command_without_sink(c));
    let c2 = step(s, i2, now).1.map_values(|c: CommandView| command_without_sink(c));
    assert(c1 =~= c2);
}

} // verus!
