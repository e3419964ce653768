use coco::command::{self, Response};
use coco::input::{self, Payload, ProtocolEvent, ProtocolStats, PutResult, Sink};
use coco::run_state::DEFAULT_SYNC_MAX_PEERS;
use coco::{
    Command, Config, ConnectedPeers, Event, Input, Oid, PeerId, PeerSet, RequestState, RunState,
    Status, SyncConfig, Urn, WaitingRoom, WaitingRoomConfig,
};

/// The wall clock in milliseconds since the Unix epoch.
fn now_ms() -> u64 {
    std::time::SystemTime::now()
        .duration_since(std::time::UNIX_EPOCH)
        .map(|d| d.as_millis() as u64)
        .unwrap_or(0)
}

fn peer(n: u128) -> PeerId {
    PeerId::new(n, n.wrapping_mul(0x9e37_79b9))
}

fn test_urn() -> Urn {
    Urn::new(Oid::new(0x7ab8629dd6da14dcacde7f65b3d58cd2, 0x91d7e235))
}

fn stats(connected_peers: usize) -> ProtocolStats {
    ProtocolStats { connected_peers, membership_active: 0, membership_passive: 0 }
}

fn sync_config(on_startup: bool, max_peers: usize, period: u64) -> Config {
    Config { sync: SyncConfig { on_startup, max_peers, period } }
}

fn syncing(failed: &[PeerId], succeeded: &[PeerId], syncs: &[PeerId]) -> Status {
    let mut f = PeerSet::new();
    let mut s = PeerSet::new();
    let mut y = PeerSet::new();
    for p in failed {
        f.insert(*p);
    }
    for p in succeeded {
        s.insert(*p);
    }
    for p in syncs {
        y.insert(*p);
    }
    Status::Syncing { failed: f, succeeded: s, syncs: y }
}

fn values(peers: &[PeerId]) -> Input {
    Input::Stats(input::Stats::Values(peers.to_vec(), stats(peers.len())))
}

#[test]
fn transition_to_started_on_listen() {
    let mut state = RunState::construct(Config::default(), ConnectedPeers::new(), Status::Stopped, 0);

    let cmds = state.transition(Input::Protocol(ProtocolEvent::EndpointUp));
    assert!(cmds.is_empty());
    assert!(matches!(state.status, Status::Started));
}

#[test]
fn transition_to_online_if_sync_is_disabled() {
    let mut state = RunState::construct(
        Config { sync: SyncConfig { on_startup: false, ..SyncConfig::default() } },
        ConnectedPeers::new(),
        Status::Started,
        0,
    );

    let cmds = state.transition(values(&[peer(1)]));
    assert!(cmds.is_empty());
    assert!(matches!(state.status, Status::Online { connected: 1 }));
}

#[test]
fn transition_to_online_after_sync_max_peers() {
    let done: Vec<PeerId> = (0..(DEFAULT_SYNC_MAX_PEERS as u128 - 1)).map(|n| peer(n + 10)).collect();
    let q = peer(99);
    let status = syncing(&[], &done, &[q]);
    let mut state = RunState::construct(Config::default(), ConnectedPeers::new(), status, 0);

    let _cmds = state.transition(Input::PeerSync(input::Sync::Succeeded(q)));
    assert!(matches!(state.status, Status::Online { .. }));
}

#[test]
fn transition_to_online_after_sync_period() {
    let mut connected = ConnectedPeers::new();
    for n in 1..=3 {
        connected.connect(peer(n));
    }
    let status = syncing(&[], &[], &[peer(1), peer(2), peer(3)]);
    let mut state = RunState::construct(Config::default(), connected, status, 0);

    let _cmds = state.transition(Input::Timeout(input::Timeout::SyncPeriod));
    assert!(matches!(state.status, Status::Online { connected: 3 }));
}

#[test]
fn transition_to_offline_when_last_peer_disconnects() {
    let peer_id = peer(7);
    let mut connected = ConnectedPeers::new();
    connected.connect(peer_id);
    let mut state =
        RunState::construct(Config::default(), connected, Status::Online { connected: 0 }, 0);

    let _cmds = state.transition(Input::Protocol(ProtocolEvent::Disconnecting(peer_id)));
    assert!(!state.connected_peers().contains(peer_id));
    let _cmds = state.transition(values(&[]));
    assert!(matches!(state.status, Status::Offline));
}

#[test]
fn issue_sync_command_until_max_peers() {
    let max_peers = 13;
    let mut state = RunState::construct(
        Config { sync: SyncConfig { max_peers, on_startup: true, ..SyncConfig::default() } },
        ConnectedPeers::new(),
        Status::Started,
        0,
    );
    let mut peers = Vec::new();

    for i in 0..(max_peers - 1) {
        let peer_id = peer(i as u128 + 1);
        peers.push(peer_id);

        // Expect to sync with the newly connected peer.
        let cmds = state.transition(values(&peers));
        assert!(!cmds.is_empty(), "expected command");
        assert_eq!(cmds.first(), Some(&Command::SyncPeer(peer_id)));
        let _cmds = state.transition(Input::PeerSync(input::Sync::Started(peer_id)));
        match &state.status {
            Status::Syncing { syncs, .. } => assert_eq!(syncs.len(), 1),
            other => panic!("unexpected status {:?}", other),
        }
        let _cmds = state.transition(Input::PeerSync(input::Sync::Succeeded(peer_id)));
    }

    // Issue last sync.
    {
        let peer_id = peer(1000);
        peers.push(peer_id);
        let cmds = state.transition(values(&peers));

        assert!(!cmds.is_empty(), "expected command");
        assert!(matches!(cmds.first(), Some(Command::SyncPeer(_))));

        let _cmds = state.transition(Input::PeerSync(input::Sync::Started(peer_id)));
        let _cmds = state.transition(Input::PeerSync(input::Sync::Succeeded(peer_id)));
    }

    // Expect to be online at this point.
    assert!(matches!(state.status, Status::Online { .. }));

    // No more syncs should be expected after the maximum of peers have connected.
    peers.push(peer(2000));
    let cmd = state.transition(values(&peers));
    assert!(cmd.is_empty(), "should not emit any more commands");
}

#[test]
fn issue_sync_timeout_when_transitioning_to_syncing() {
    let sync_period: u64 = 60 * 10 * 1000;
    let mut state = RunState::construct(
        Config { sync: SyncConfig { on_startup: true, period: sync_period, ..SyncConfig::default() } },
        ConnectedPeers::new(),
        Status::Started,
        0,
    );

    let cmds = state.transition(values(&[peer(1)]));
    assert_eq!(cmds.get(1), Some(&Command::StartSyncTimeout(sync_period)));
}

#[test]
fn issue_announce_while_online() {
    let mut state =
        RunState::construct(Config::default(), ConnectedPeers::new(), Status::Online { connected: 0 }, 0);
    let cmds = state.transition(Input::Announce(input::Announce::Tick));

    assert!(!cmds.is_empty(), "expected command");
    assert_eq!(cmds.first(), Some(&Command::Announce));

    let mut state = RunState::construct(Config::default(), ConnectedPeers::new(), Status::Offline, 0);
    let cmds = state.transition(Input::Announce(input::Announce::Tick));

    assert!(cmds.is_empty(), "expected no command");
}

#[test]
fn issue_query_when_requested_and_online() {
    let urn = test_urn();
    let mut state =
        RunState::construct(Config::default(), ConnectedPeers::new(), Status::Online { connected: 1 }, 0);
    state.transition(Input::Control(input::Control::CreateRequest(urn, now_ms(), Sink { id: 1 })));

    let cmds = state.transition(Input::Request(input::Request::Tick));
    assert_eq!(cmds.first(), Some(&Command::Request(command::Request::Query(urn))));
}

#[test]
fn issue_query_when_requested_and_syncing() {
    let urn = test_urn();
    let status = syncing(&[], &[], &[peer(1)]);
    let mut state = RunState::construct(Config::default(), ConnectedPeers::new(), status, 0);
    state.transition(Input::Control(input::Control::CreateRequest(urn, now_ms(), Sink { id: 1 })));

    let cmds = state.transition(Input::Request(input::Request::Tick));
    assert_eq!(cmds.first(), Some(&Command::Request(command::Request::Query(urn))));
}

#[test]
fn issue_clone_when_found() {
    let urn = test_urn();
    let peer_id = peer(5);
    let mut state =
        RunState::construct(Config::default(), ConnectedPeers::new(), Status::Online { connected: 0 }, 0);

    state.transition(Input::Control(input::Control::CreateRequest(urn, now_ms(), Sink { id: 1 })));
    assert!(matches!(
        state.transition(Input::Request(input::Request::Queried(urn))).first(),
        Some(Command::PersistWaitingRoom(_))
    ));
    assert!(state
        .transition(Input::Protocol(ProtocolEvent::GossipPut {
            provider: peer_id,
            payload: Payload { urn, origin: None, rev: None },
            result: PutResult::Applied,
        }))
        .is_empty());

    let cmds = state.transition(Input::Request(input::Request::Tick));
    assert_eq!(cmds.first(), Some(&Command::Request(command::Request::Clone(urn, peer_id))));
}

// ---- further cases ----

#[test]
fn clock_sets_status_since_to_the_current_time() {
    let mut state = RunState::construct(Config::default(), ConnectedPeers::new(), Status::Stopped, 0);
    state.transition(Input::Protocol(ProtocolEvent::EndpointUp));
    // Later than 2020-01-01 in milliseconds since the epoch.
    assert!(state.status_since() > 1_577_836_800_000);
}

#[test]
fn endpoint_down_stops_from_any_status() {
    let mut state =
        RunState::construct(Config::default(), ConnectedPeers::new(), Status::Online { connected: 2 }, 0);
    let cmds = state.transition_at(Input::Protocol(ProtocolEvent::EndpointDown), 42);
    assert!(cmds.is_empty());
    assert_eq!(state.status, Status::Stopped);
    assert_eq!(state.status_since(), 42);
}

#[test]
fn endpoint_up_ignored_unless_stopped() {
    let mut state = RunState::construct(Config::default(), ConnectedPeers::new(), Status::Offline, 3);
    state.transition_at(Input::Protocol(ProtocolEvent::EndpointUp), 10);
    assert_eq!(state.status, Status::Offline);
    assert_eq!(state.status_since(), 3);
}

#[test]
fn offline_goes_online_with_connected_count() {
    let mut state = RunState::construct(Config::default(), ConnectedPeers::new(), Status::Offline, 1);
    let cmds = state.transition_at(values(&[peer(1), peer(2)]), 9);
    assert!(cmds.is_empty());
    assert_eq!(state.status, Status::Online { connected: 2 });
    assert_eq!(state.status_since(), 9);
}

#[test]
fn started_with_sync_enters_syncing_and_syncs_every_peer() {
    let mut state = RunState::construct(sync_config(true, 3, 77), ConnectedPeers::new(), Status::Started, 0);
    let cmds = state.transition_at(values(&[peer(1), peer(2)]), 5);
    assert_eq!(
        cmds,
        vec![Command::SyncPeer(peer(1)), Command::SyncPeer(peer(2)), Command::StartSyncTimeout(77)]
    );
    assert_eq!(state.status, syncing(&[], &[], &[]));
    assert_eq!(state.status_since(), 5);
}

#[test]
fn syncing_syncs_only_new_peers_once() {
    let mut state = RunState::construct(sync_config(true, 10, 77), ConnectedPeers::new(), Status::Started, 0);
    state.transition_at(values(&[peer(1)]), 1);
    let list = vec![peer(1), peer(2), peer(2), peer(3)];
    let cmds = state.transition_at(Input::Stats(input::Stats::Values(list, stats(3))), 2);
    assert_eq!(cmds, vec![Command::SyncPeer(peer(2)), Command::SyncPeer(peer(3))]);
}

#[test]
fn zero_peers_goes_offline() {
    for status in [Status::Started, Status::Online { connected: 4 }, syncing(&[], &[], &[])] {
        let mut state = RunState::construct(Config::default(), ConnectedPeers::new(), status, 0);
        let cmds = state.transition_at(values(&[]), 8);
        assert!(cmds.is_empty());
        assert_eq!(state.status, Status::Offline);
        assert_eq!(state.status_since(), 8);
    }
}

#[test]
fn stats_tick_asks_for_stats() {
    let mut state = RunState::construct(Config::default(), ConnectedPeers::new(), Status::Stopped, 0);
    let cmds = state.transition(Input::Stats(input::Stats::Tick));
    assert_eq!(cmds, vec![Command::Stats]);
}

#[test]
fn peer_sync_ignored_unless_syncing() {
    let mut state =
        RunState::construct(Config::default(), ConnectedPeers::new(), Status::Online { connected: 1 }, 0);
    let cmds = state.transition(Input::PeerSync(input::Sync::Started(peer(1))));
    assert!(cmds.is_empty());
    assert_eq!(state.status, Status::Online { connected: 1 });
}

#[test]
fn sync_reports_move_peer_between_sets() {
    let mut state =
        RunState::construct(sync_config(true, 5, 1), ConnectedPeers::new(), syncing(&[], &[], &[]), 0);
    state.transition(Input::PeerSync(input::Sync::Started(peer(1))));
    state.transition(Input::PeerSync(input::Sync::Failed(peer(1))));
    assert_eq!(state.status, syncing(&[peer(1)], &[], &[]));
    state.transition(Input::PeerSync(input::Sync::Started(peer(1))));
    assert_eq!(state.status, syncing(&[], &[], &[peer(1)]));
    state.transition(Input::PeerSync(input::Sync::Succeeded(peer(1))));
    assert_eq!(state.status, syncing(&[], &[peer(1)], &[]));
}

#[test]
fn failed_and_succeeded_count_towards_max_peers() {
    let mut state =
        RunState::construct(sync_config(true, 2, 1), ConnectedPeers::new(), syncing(&[], &[], &[]), 0);
    state.transition_at(values(&[peer(1), peer(2), peer(3)]), 1);
    state.transition_at(Input::PeerSync(input::Sync::Failed(peer(1))), 2);
    assert!(matches!(state.status, Status::Syncing { .. }));
    state.transition_at(Input::PeerSync(input::Sync::Succeeded(peer(2))), 3);
    assert_eq!(state.status, Status::Online { connected: 3 });
    assert_eq!(state.status_since(), 3);
}

#[test]
fn sync_timeout_ignored_unless_syncing() {
    let mut state = RunState::construct(Config::default(), ConnectedPeers::new(), Status::Offline, 0);
    let cmds = state.transition(Input::Timeout(input::Timeout::SyncPeriod));
    assert!(cmds.is_empty());
    assert_eq!(state.status, Status::Offline);
}

#[test]
fn connection_counting_keeps_peer_with_open_connection() {
    let p = peer(3);
    let mut state =
        RunState::construct(Config::default(), ConnectedPeers::new(), Status::Online { connected: 1 }, 0);
    state.transition(Input::Protocol(ProtocolEvent::Connected(p)));
    state.transition(Input::Protocol(ProtocolEvent::Connected(p)));
    state.transition(Input::Protocol(ProtocolEvent::Disconnecting(p)));
    assert!(state.connected_peers().contains(p));
    assert_eq!(state.connected_peers().get(p), Some(1));
    state.transition(Input::Protocol(ProtocolEvent::Disconnecting(p)));
    assert!(!state.connected_peers().contains(p));
}

#[test]
fn stats_values_twice_leaves_same_state() {
    let mut state = RunState::construct(sync_config(true, 5, 1), ConnectedPeers::new(), Status::Started, 0);
    state.transition_at(values(&[peer(1), peer(2)]), 4);
    let status = state.status.clone();
    let since = state.status_since();
    let len = state.connected_peers().len();
    let cmds = state.transition_at(values(&[peer(1), peer(2)]), 9);
    assert!(cmds.is_empty());
    assert_eq!(state.status, status);
    assert_eq!(state.status_since(), since);
    assert_eq!(state.connected_peers().len(), len);
}

#[test]
fn create_request_twice_returns_existing() {
    let urn = test_urn();
    let mut state =
        RunState::construct(Config::default(), ConnectedPeers::new(), Status::Online { connected: 0 }, 0);
    let first = state.transition(Input::Control(input::Control::CreateRequest(urn, 10, Sink { id: 1 })));
    assert_eq!(first.get(1), Some(&Command::EmitEvent(Event::RequestCreated(urn))));
    let second = state.transition(Input::Control(input::Control::CreateRequest(urn, 20, Sink { id: 2 })));
    match second.first() {
        Some(Command::Control(command::Control::Respond(Response::StartSearch(sink, request)))) => {
            assert_eq!(sink.id, 2);
            assert_eq!(request.created, 10);
            assert_eq!(request.state, RequestState::Created);
        },
        other => panic!("unexpected command {:?}", other),
    }
    assert_eq!(state.waiting_room().list().len(), 1);
}

#[test]
fn cancel_request_removes_it() {
    let urn = test_urn();
    let mut state =
        RunState::construct(Config::default(), ConnectedPeers::new(), Status::Online { connected: 0 }, 0);
    state.transition(Input::Control(input::Control::CreateRequest(urn, 10, Sink { id: 1 })));
    let cmds = state.transition_at(Input::Control(input::Control::CancelRequest(urn, 30, Sink { id: 2 })), 31);
    match cmds.first() {
        Some(Command::Control(command::Control::Respond(Response::CancelSearch(_, Ok(Some(r)))))) => {
            assert_eq!(r.state, RequestState::Cancelled);
            assert_eq!(r.terminated, Some(30));
        },
        other => panic!("unexpected command {:?}", other),
    }
    assert!(matches!(cmds.get(1), Some(Command::PersistWaitingRoom(w)) if w.list().is_empty()));
    assert!(state.waiting_room().get(urn).is_none());
    let again = state.transition(Input::Control(input::Control::CancelRequest(urn, 40, Sink { id: 3 })));
    assert!(matches!(
        again.first(),
        Some(Command::Control(command::Control::Respond(Response::CancelSearch(
            _,
            Err(coco::WaitingRoomError::MissingUrn)
        ))))
    ));
}

#[test]
fn get_list_and_status_requests_answer() {
    let urn = test_urn();
    let mut state =
        RunState::construct(Config::default(), ConnectedPeers::new(), Status::Online { connected: 2 }, 0);
    let cmds = state.transition(Input::Control(input::Control::GetRequest(urn, Sink { id: 1 })));
    assert_eq!(
        cmds,
        vec![Command::Control(command::Control::Respond(Response::GetSearch(Sink { id: 1 }, None)))]
    );
    state.transition(Input::Control(input::Control::CreateRequest(urn, 10, Sink { id: 2 })));
    let cmds = state.transition(Input::Control(input::Control::ListRequests(Sink { id: 3 })));
    match cmds.first() {
        Some(Command::Control(command::Control::Respond(Response::ListSearches(_, l)))) => {
            assert_eq!(l.len(), 1);
            assert_eq!(l[0].urn, urn);
        },
        other => panic!("unexpected command {:?}", other),
    }
    let cmds = state.transition(Input::Control(input::Control::Status(Sink { id: 4 })));
    assert_eq!(
        cmds,
        vec![Command::Control(command::Control::Respond(Response::CurrentStatus(
            Sink { id: 4 },
            Status::Online { connected: 2 }
        )))]
    );
}

#[test]
fn queries_run_out_and_time_out() {
    let urn = test_urn();
    let mut state =
        RunState::construct(Config::default(), ConnectedPeers::new(), Status::Online { connected: 0 }, 0);
    state.transition(Input::Control(input::Control::CreateRequest(urn, now_ms(), Sink { id: 1 })));
    let max = WaitingRoomConfig::default().max_queries;
    for _ in 0..max {
        let cmds = state.transition(Input::Request(input::Request::Queried(urn)));
        assert!(matches!(cmds.first(), Some(Command::PersistWaitingRoom(_))));
    }
    let cmds = state.transition(Input::Request(input::Request::Queried(urn)));
    assert_eq!(cmds, vec![Command::Request(command::Request::TimedOut(urn))]);
    let gossip = Input::Protocol(ProtocolEvent::GossipPut {
        provider: peer(1),
        payload: Payload { urn, origin: None, rev: None },
        result: PutResult::Applied,
    });
    assert_eq!(state.transition(gossip), vec![Command::Request(command::Request::TimedOut(urn))]);
}

#[test]
fn request_inputs_on_missing_urn_do_nothing() {
    let urn = test_urn();
    let mut state =
        RunState::construct(Config::default(), ConnectedPeers::new(), Status::Online { connected: 0 }, 0);
    assert!(state.transition(Input::Request(input::Request::Cloned(urn, peer(1)))).is_empty());
    assert!(state
        .transition(Input::Request(input::Request::Failed {
            urn,
            remote_peer: peer(1),
            reason: "gone".to_string()
        }))
        .is_empty());
    assert!(state.transition(Input::Request(input::Request::TimedOut(urn))).is_empty());
}

#[test]
fn clone_lifecycle_through_transitions() {
    let urn = test_urn();
    let mut state =
        RunState::construct(Config::default(), ConnectedPeers::new(), Status::Online { connected: 0 }, 0);
    state.transition(Input::Control(input::Control::CreateRequest(urn, now_ms(), Sink { id: 1 })));
    state.transition(Input::Request(input::Request::Queried(urn)));
    state.transition(Input::Protocol(ProtocolEvent::GossipPut {
        provider: peer(1),
        payload: Payload { urn, origin: None, rev: None },
        result: PutResult::Applied,
    }));
    let cmds = state.transition(Input::Request(input::Request::Cloning(urn, peer(1))));
    assert!(matches!(cmds.first(), Some(Command::PersistWaitingRoom(_))));
    let cmds = state.transition(Input::Request(input::Request::Cloned(urn, peer(1))));
    assert!(matches!(cmds.first(), Some(Command::PersistWaitingRoom(_))));
    assert_eq!(state.waiting_room().get(urn).map(|r| r.state), Some(RequestState::Cloned));
    // A second clone start is refused quietly.
    assert!(state.transition(Input::Request(input::Request::Cloning(urn, peer(1)))).is_empty());
}

#[test]
fn request_tick_ignored_when_offline() {
    let urn = test_urn();
    let mut state = RunState::construct(Config::default(), ConnectedPeers::new(), Status::Offline, 0);
    state.transition(Input::Control(input::Control::CreateRequest(urn, now_ms(), Sink { id: 1 })));
    assert!(state.transition(Input::Request(input::Request::Tick)).is_empty());
}

#[test]
fn tick_emits_query_and_clone_with_snapshots() {
    let a = Urn::new(Oid::new(1, 0));
    let b = Urn::new(Oid::new(2, 0));
    let mut state =
        RunState::construct(Config::default(), ConnectedPeers::new(), Status::Online { connected: 0 }, 0);
    state.transition_at(Input::Control(input::Control::CreateRequest(a, 0, Sink { id: 1 })), 0);
    state.transition_at(Input::Request(input::Request::Queried(a)), 0);
    state.transition_at(
        Input::Protocol(ProtocolEvent::GossipPut {
            provider: peer(4),
            payload: Payload { urn: a, origin: None, rev: None },
            result: PutResult::Applied,
        }),
        0,
    );
    state.transition_at(Input::Control(input::Control::CreateRequest(b, 0, Sink { id: 2 })), 0);
    let cmds = state.transition_at(Input::Request(input::Request::Tick), 0);
    assert_eq!(cmds.len(), 4);
    assert_eq!(cmds[0], Command::Request(command::Request::Query(b)));
    assert!(matches!(cmds[1], Command::PersistWaitingRoom(_)));
    assert_eq!(cmds[2], Command::Request(command::Request::Clone(a, peer(4))));
    assert!(matches!(cmds[3], Command::PersistWaitingRoom(_)));
}

#[test]
fn new_state_is_stopped() {
    let state = RunState::new(Config::default(), WaitingRoom::new(WaitingRoomConfig::default()));
    assert_eq!(state.status, Status::Stopped);
    assert_eq!(state.connected_peers().len(), 0);
}

#[test]
fn events_projected_from_inputs() {
    let urn = test_urn();
    assert_eq!(
        Event::maybe_from(&Input::Request(input::Request::Tick)),
        Some(Event::RequestTick)
    );
    assert_eq!(
        Event::maybe_from(&Input::Request(input::Request::Queried(urn))),
        Some(Event::RequestQueried(urn))
    );
    assert_eq!(
        Event::maybe_from(&Input::Request(input::Request::Cloned(urn, peer(1)))),
        Some(Event::RequestCloned(urn, peer(1)))
    );
    assert_eq!(
        Event::maybe_from(&Input::Request(input::Request::Cloning(urn, peer(1)))),
        Some(Event::RequestCloning(urn, peer(1)))
    );
    assert_eq!(
        Event::maybe_from(&Input::Request(input::Request::TimedOut(urn))),
        Some(Event::RequestTimedOut(urn))
    );
    assert_eq!(
        Event::maybe_from(&Input::PeerSync(input::Sync::Succeeded(peer(2)))),
        Some(Event::PeerSynced(peer(2)))
    );
    assert_eq!(
        Event::maybe_from(&Input::Protocol(ProtocolEvent::EndpointUp)),
        Some(Event::Protocol(ProtocolEvent::EndpointUp))
    );
    let updates = vec![input::Update { urn, head: Oid::new(5, 6) }];
    assert_eq!(
        Event::maybe_from(&Input::Announce(input::Announce::Succeeded(updates.clone()))),
        Some(Event::Announced(updates))
    );
    assert_eq!(Event::maybe_from(&Input::Announce(input::Announce::Tick)), None);
    assert_eq!(Event::maybe_from(&Input::PeerSync(input::Sync::Failed(peer(2)))), None);
    assert_eq!(Event::maybe_from(&Input::Stats(input::Stats::Tick)), None);
    assert_eq!(Event::maybe_from(&Input::Timeout(input::Timeout::SyncPeriod)), None);
}

#[test]
fn announce_succeeded_emits_nothing() {
    let mut state =
        RunState::construct(Config::default(), ConnectedPeers::new(), Status::Online { connected: 0 }, 0);
    let cmds = state.transition(Input::Announce(input::Announce::Succeeded(vec![])));
    assert!(cmds.is_empty());
}

#[test]
fn gossip_for_old_request_times_out() {
    let urn = test_urn();
    let mut state =
        RunState::construct(Config::default(), ConnectedPeers::new(), Status::Online { connected: 0 }, 0);
    state.transition_at(Input::Control(input::Control::CreateRequest(urn, 0, Sink { id: 1 })), 0);
    let max_age = WaitingRoomConfig::default().max_age;
    let gossip = Input::Protocol(ProtocolEvent::GossipPut {
        provider: peer(1),
        payload: Payload { urn, origin: None, rev: None },
        result: PutResult::Applied,
    });
    assert_eq!(
        state.transition_at(gossip, max_age + 1),
        vec![Command::Request(command::Request::TimedOut(urn))]
    );
    assert_eq!(state.waiting_room().get(urn).map(|r| r.state), Some(RequestState::TimedOut));
}

#[test]
fn new_at_sets_status_since() {
    let state = RunState::new_at(Config::default(), WaitingRoom::new(WaitingRoomConfig::default()), 77);
    assert_eq!(state.status, Status::Stopped);
    assert_eq!(state.status_since(), 77);
}

#[test]
fn failed_clone_is_queried_again_on_tick() {
    let urn = test_urn();
    let p = peer(6);
    let mut state =
        RunState::construct(Config::default(), ConnectedPeers::new(), Status::Online { connected: 1 }, 0);
    state.transition_at(Input::Control(input::Control::CreateRequest(urn, 0, Sink { id: 1 })), 0);
    state.transition_at(Input::Request(input::Request::Queried(urn)), 0);
    state.transition_at(
        Input::Protocol(ProtocolEvent::GossipPut {
            provider: p,
            payload: Payload { urn, origin: None, rev: None },
            result: PutResult::Applied,
        }),
        1,
    );
    state.transition_at(Input::Request(input::Request::Cloning(urn, p)), 5000);
    state.transition_at(
        Input::Request(input::Request::Failed { urn, remote_peer: p, reason: "refused".to_string() }),
        5000,
    );
    let cmds = state.transition_at(Input::Request(input::Request::Tick), 5000);
    assert_eq!(cmds.first(), Some(&Command::Request(command::Request::Query(urn))));
}
