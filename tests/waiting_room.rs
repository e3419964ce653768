use coco::waiting_room::first_untried_candidate;
use coco::{
    Candidate, ConnectedPeers, Oid, PeerId, PeerSet, RequestState, Urn, WaitingRoom,
    WaitingRoomConfig, WaitingRoomError,
};

fn urn(n: u128) -> Urn {
    Urn::new(Oid::new(n, 0))
}

fn peer(n: u128) -> PeerId {
    PeerId::new(0, n)
}

fn config(query_interval: u64, max_queries: u64, max_clones: u64) -> WaitingRoomConfig {
    WaitingRoomConfig { query_interval, retry_interval: 0, max_queries, max_clones, max_age: 1000 }
}

#[test]
fn request_is_idempotent() {
    let mut room = WaitingRoom::new(WaitingRoomConfig::default());
    let first = room.request(urn(1), 10);
    let second = room.request(urn(1), 20);
    assert_eq!(first, second);
    assert_eq!(second.created, 10);
    assert_eq!(room.list().len(), 1);
}

#[test]
fn request_remove_request_keeps_one_entry() {
    let mut room = WaitingRoom::new(WaitingRoomConfig::default());
    room.request(urn(1), 1);
    room.request(urn(2), 2);
    assert!(room.remove(urn(1)).is_some());
    assert!(room.remove(urn(1)).is_none());
    room.request(urn(1), 3);
    room.request(urn(1), 4);
    let all = room.list();
    assert_eq!(all.len(), 2);
    assert_eq!(all[0].urn, urn(2));
    assert_eq!(all[1].urn, urn(1));
    assert_eq!(all[1].created, 3);
}

#[test]
fn missing_urn_is_reported() {
    let mut room = WaitingRoom::new(WaitingRoomConfig::default());
    assert_eq!(room.queried(urn(1), 0), Err(WaitingRoomError::MissingUrn));
    assert_eq!(room.found(urn(1), peer(1), 0), Err(WaitingRoomError::MissingUrn));
    assert_eq!(room.canceled(urn(1), 0), Err(WaitingRoomError::MissingUrn));
}

#[test]
fn invalid_transitions_are_refused() {
    let mut room = WaitingRoom::new(WaitingRoomConfig::default());
    room.request(urn(1), 0);
    assert_eq!(room.cloning(urn(1), peer(1), 0), Err(WaitingRoomError::InvalidTransition));
    assert_eq!(room.cloned(urn(1), peer(1), 0), Err(WaitingRoomError::InvalidTransition));
    assert_eq!(room.cloning_failed(urn(1), peer(1), 0), Err(WaitingRoomError::InvalidTransition));
    assert_eq!(room.canceled(urn(1), 5), Ok(()));
    assert_eq!(room.canceled(urn(1), 6), Err(WaitingRoomError::InvalidTransition));
    assert_eq!(room.found(urn(1), peer(1), 0), Err(WaitingRoomError::InvalidTransition));
    assert_eq!(room.get(urn(1)).map(|r| r.terminated), Some(Some(5)));
}

#[test]
fn query_found_clone_lifecycle() {
    let mut room = WaitingRoom::new(WaitingRoomConfig::default());
    room.request(urn(1), 0);
    // Found in Created state only records the candidate.
    assert_eq!(room.found(urn(1), peer(9), 0), Ok(()));
    assert_eq!(room.get(urn(1)).unwrap().state, RequestState::Created);
    assert_eq!(room.queried(urn(1), 3), Ok(()));
    let r = room.get(urn(1)).unwrap();
    assert_eq!(r.state, RequestState::Requested);
    assert_eq!(r.queries, 1);
    assert_eq!(r.last_queried, Some(3));
    assert_eq!(room.found(urn(1), peer(1), 0), Ok(()));
    let r = room.get(urn(1)).unwrap();
    assert_eq!(r.state, RequestState::Found);
    assert_eq!(r.candidates.len(), 2);
    assert_eq!(room.next_clone(), Some((urn(1), peer(9))));
    assert_eq!(room.cloning(urn(1), peer(9), 4), Ok(()));
    let r = room.get(urn(1)).unwrap();
    assert_eq!(r.state, RequestState::Cloning);
    assert_eq!(r.clones, 1);
    assert_eq!(r.last_cloning, Some(4));
    assert_eq!(r.candidates[0], Candidate { peer: peer(9), attempted: true });
    assert_eq!(room.next_clone(), None);
    assert_eq!(room.cloning_failed(urn(1), peer(9), 5), Ok(()));
    assert_eq!(room.get(urn(1)).unwrap().state, RequestState::Found);
    assert_eq!(room.next_clone(), Some((urn(1), peer(1))));
    assert_eq!(room.cloning(urn(1), peer(1), 6), Ok(()));
    assert_eq!(room.cloning_failed(urn(1), peer(1), 7), Ok(()));
    // No untried candidate left: back to querying.
    assert_eq!(room.get(urn(1)).unwrap().state, RequestState::Requested);
    assert_eq!(room.next_clone(), None);
}

#[test]
fn clone_attempts_run_out() {
    let mut room = WaitingRoom::new(config(0, 5, 1));
    room.request(urn(1), 0);
    room.queried(urn(1), 0).unwrap();
    room.found(urn(1), peer(1), 0).unwrap();
    room.cloning(urn(1), peer(1), 1).unwrap();
    assert_eq!(room.cloning_failed(urn(1), peer(1), 2), Err(WaitingRoomError::TimeOut));
    let r = room.get(urn(1)).unwrap();
    assert_eq!(r.state, RequestState::TimedOut);
    assert_eq!(r.terminated, Some(2));
    assert_eq!(room.cloned(urn(1), peer(1), 3), Err(WaitingRoomError::TimeOut));
}

#[test]
fn cloned_is_terminal() {
    let mut room = WaitingRoom::new(WaitingRoomConfig::default());
    room.request(urn(1), 0);
    room.queried(urn(1), 0).unwrap();
    room.found(urn(1), peer(1), 0).unwrap();
    room.cloning(urn(1), peer(1), 1).unwrap();
    assert_eq!(room.cloned(urn(1), peer(1), 2), Ok(()));
    assert_eq!(room.get(urn(1)).unwrap().state, RequestState::Cloned);
    assert_eq!(room.canceled(urn(1), 3), Err(WaitingRoomError::InvalidTransition));
}

#[test]
fn next_query_oldest_first_then_by_urn() {
    let mut room = WaitingRoom::new(config(10, 5, 5));
    room.request(urn(3), 0);
    room.request(urn(2), 0);
    room.request(urn(1), 0);
    room.queried(urn(1), 100).unwrap();
    room.queried(urn(2), 50).unwrap();
    // Never queried goes first.
    assert_eq!(room.next_query(105), Some(urn(3)));
    room.queried(urn(3), 50).unwrap();
    // urn(1) is not due yet; urn(2) and urn(3) were queried at the same time.
    assert_eq!(room.next_query(105), Some(urn(2)));
    room.queried(urn(2), 104).unwrap();
    assert_eq!(room.next_query(105), Some(urn(3)));
    room.queried(urn(3), 105).unwrap();
    assert_eq!(room.next_query(105), None);
    assert_eq!(room.next_query(110), Some(urn(1)));
}

#[test]
fn first_untried_candidate_skips_tried() {
    let cs = vec![
        Candidate { peer: peer(1), attempted: true },
        Candidate { peer: peer(2), attempted: false },
        Candidate { peer: peer(3), attempted: false },
    ];
    assert_eq!(first_untried_candidate(&cs), Some(1));
    assert_eq!(first_untried_candidate(&cs[..1].to_vec()), None);
}

#[test]
fn snapshot_equals_room() {
    let mut room = WaitingRoom::new(WaitingRoomConfig::default());
    room.request(urn(1), 0);
    room.found(urn(1), peer(1), 0).unwrap();
    assert_eq!(room.snapshot(), room);
}

#[test]
fn ledger_counts_connections() {
    let mut l = ConnectedPeers::new();
    l.connect(peer(1));
    l.connect(peer(1));
    l.connect(peer(2));
    assert_eq!(l.len(), 2);
    assert_eq!(l.get(peer(1)), Some(2));
    l.disconnect(peer(1));
    assert!(l.contains(peer(1)));
    l.disconnect(peer(1));
    assert!(!l.contains(peer(1)));
    l.disconnect(peer(1));
    assert_eq!(l.get(peer(1)), None);
    let r = l.replaced(&vec![peer(2), peer(3), peer(3)]);
    assert_eq!(r.len(), 2);
    assert_eq!(r.get(peer(3)), Some(1));
}

#[test]
fn peer_set_is_a_set() {
    let mut s = PeerSet::new();
    s.insert(peer(1));
    s.insert(peer(1));
    s.insert(peer(2));
    assert_eq!(s.len(), 2);
    s.remove(peer(1));
    assert!(!s.contains(peer(1)));
    assert!(s.contains(peer(2)));
    assert_eq!(s.to_vec(), vec![peer(2)]);
}

#[test]
fn urn_order_is_byte_order() {
    assert!(Urn::new(Oid::new(1, 9)).precedes(&Urn::new(Oid::new(2, 0))));
    assert!(Urn::new(Oid::new(1, 1)).precedes(&Urn::new(Oid::new(1, 2))));
    assert!(!Urn::new(Oid::new(1, 2)).precedes(&Urn::new(Oid::new(1, 2))));
}

#[test]
fn old_request_times_out_on_query() {
    let mut room = WaitingRoom::new(config(0, 5, 5));
    room.request(urn(1), 100);
    assert_eq!(room.queried(urn(1), 1100), Ok(()));
    assert_eq!(room.queried(urn(1), 1101), Err(WaitingRoomError::TimeOut));
    let r = room.get(urn(1)).unwrap();
    assert_eq!(r.state, RequestState::TimedOut);
    assert_eq!(r.terminated, Some(1101));
}

#[test]
fn old_request_times_out_on_found_and_cloning() {
    let mut room = WaitingRoom::new(config(0, 5, 5));
    room.request(urn(1), 0);
    room.queried(urn(1), 1).unwrap();
    assert_eq!(room.found(urn(1), peer(1), 2000), Err(WaitingRoomError::TimeOut));
    assert_eq!(room.get(urn(1)).unwrap().candidates.len(), 0);

    room.request(urn(2), 0);
    room.queried(urn(2), 1).unwrap();
    room.found(urn(2), peer(1), 2).unwrap();
    assert_eq!(room.cloning(urn(2), peer(1), 1001), Err(WaitingRoomError::TimeOut));
    assert_eq!(room.get(urn(2)).unwrap().state, RequestState::TimedOut);
}

#[test]
fn timed_out_is_terminal() {
    let mut room = WaitingRoom::new(config(0, 0, 5));
    room.request(urn(1), 0);
    assert_eq!(room.queried(urn(1), 1), Err(WaitingRoomError::TimeOut));
    assert_eq!(room.canceled(urn(1), 2), Err(WaitingRoomError::TimeOut));
    assert_eq!(room.found(urn(1), peer(1), 2), Err(WaitingRoomError::TimeOut));
    assert_eq!(room.get(urn(1)).unwrap().terminated, Some(1));
}

#[test]
fn clone_report_from_other_peer_is_refused() {
    let mut room = WaitingRoom::new(WaitingRoomConfig::default());
    room.request(urn(1), 0);
    room.queried(urn(1), 0).unwrap();
    room.found(urn(1), peer(1), 0).unwrap();
    room.found(urn(1), peer(2), 0).unwrap();
    room.cloning(urn(1), peer(1), 1).unwrap();
    assert_eq!(room.get(urn(1)).unwrap().cloning_from, Some(peer(1)));
    assert_eq!(room.cloned(urn(1), peer(2), 2), Err(WaitingRoomError::InvalidTransition));
    assert_eq!(room.cloning_failed(urn(1), peer(2), 2), Err(WaitingRoomError::InvalidTransition));
    assert_eq!(room.cloned(urn(1), peer(1), 2), Ok(()));
    assert_eq!(room.get(urn(1)).unwrap().cloning_from, None);
}

#[test]
fn failed_clone_requery_waits_only_for_query_interval() {
    let mut room = WaitingRoom::new(WaitingRoomConfig {
        query_interval: 0,
        retry_interval: 100,
        max_queries: 5,
        max_clones: 5,
        max_age: 10_000,
    });
    room.request(urn(1), 0);
    room.queried(urn(1), 0).unwrap();
    room.found(urn(1), peer(1), 0).unwrap();
    room.cloning(urn(1), peer(1), 10).unwrap();
    room.cloning_failed(urn(1), peer(1), 20).unwrap();
    assert_eq!(room.get(urn(1)).unwrap().state, RequestState::Requested);
    assert_eq!(room.next_query(20), Some(urn(1)));
}
