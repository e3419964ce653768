//! Tracking of the requests for projects this peer wants to obtain from the network.
use vstd::prelude::*;

use crate::ids::{urn_lt, PeerId, Urn};

verus! {

/// Where a request stands in its life.
#[derive(Clone, Copy, Debug, PartialEq, Eq, Structural)]
pub enum RequestState {
    Created,
    Requested,
    Found,
    Cloning,
    Cloned,
    Cancelled,
    TimedOut,
}

/// A peer known to hold the requested project, and whether a clone from it was tried.
#[derive(Clone, Copy, Debug, PartialEq, Eq, Structural)]
pub struct Candidate {
    pub peer: PeerId,
    pub attempted: bool,
}

/// Why the waiting room refused an operation.
#[derive(Clone, Copy, Debug, PartialEq, Eq, Structural)]
pub enum WaitingRoomError {
    /// No request exists for the URN.
    MissingUrn,
    /// The request's state does not allow the operation.
    InvalidTransition,
    /// The request used up its attempts, or had done so before.
    TimeOut,
}

/// Limits of the waiting room; durations and timestamps are in milliseconds.
#[derive(Clone, Copy, Debug, PartialEq, Eq, Structural)]
pub struct WaitingRoomConfig {
    /// Time to wait after a query before the request is queried again.
    pub query_interval: u64,
    /// Pause between clone attempts that a scheduler of clones may honour; the waiting room
    /// itself does not read it.
    pub retry_interval: u64,
    /// Queries allowed per request.
    pub max_queries: u64,
    /// Clone attempts allowed per request.
    pub max_clones: u64,
    /// Age after which a request times out.
    pub max_age: u64,
}

/// One request: its URN, state, candidate peers, attempts and timestamps.
#[derive(Clone, Debug, PartialEq, Eq)]
pub struct Request {
    pub urn: Urn,
    pub state: RequestState,
    /// Candidates in the order in which they were reported.
    pub candidates: Vec<Candidate>,
    pub queries: u64,
    pub clones: u64,
    pub created: u64,
    pub last_queried: Option<u64>,
    pub last_cloning: Option<u64>,
    pub terminated: Option<u64>,
    /// The peer of the clone under way, if any.
    pub cloning_from: Option<PeerId>,
}

pub struct RequestView {
    pub urn: Urn,
    pub state: RequestState,
    pub candidates: Seq<Candidate>,
    pub queries: u64,
    pub clones: u64,
    pub created: u64,
    pub last_queried: Option<u64>,
    pub last_cloning: Option<u64>,
    pub terminated: Option<u64>,
    pub cloning_from: Option<PeerId>,
}

impl View for Request {
    type V = RequestView;

    open spec fn view(&self) -> RequestView {
        RequestView {
            urn: self.urn,
            state: self.state,
            candidates: self.candidates@,
            queries: self.queries,
            clones: self.clones,
            created: self.created,
            last_queried: self.last_queried,
            last_cloning: self.last_cloning,
            terminated: self.terminated,
            cloning_from: self.cloning_from,
        }
    }
}

/// An operation on one request.
#[derive(Clone, Copy, Debug, PartialEq, Eq, Structural)]
pub enum Op {
    /// The URN was queried on the network at the given time.
    Queried(u64),
    /// The peer announced at the given time that it holds the URN.
    Found(PeerId, u64),
    /// A clone from the peer started at the given time.
    Cloning(PeerId, u64),
    /// The clone from the peer finished at the given time.
    Cloned(PeerId, u64),
    /// The clone from the peer failed at the given time.
    CloningFailed(PeerId, u64),
    /// The user gave up the request at the given time.
    Canceled(u64),
}

/// A fresh request for `urn`, made at `now`.
pub open spec fn new_request(urn: Urn, now: u64) -> RequestView {
    RequestView {
        urn,
        state: RequestState::Created,
        candidates: Seq::empty(),
        queries: 0,
        clones: 0,
        created: now,
        last_queried: None,
        last_cloning: None,
        terminated: None,
        cloning_from: None,
    }
}

/// Whether `i` is the first position of `p` among the candidates.
pub open spec fn first_candidate(cs: Seq<Candidate>, p: PeerId, i: int) -> bool {
    &&& 0 <= i < cs.len()
    &&& cs[i].peer == p
    &&& forall|j: int| 0 <= j < i ==> cs[j].peer != p
}

/// The candidates once `p` is known to hold the URN.
pub open spec fn add_candidate(cs: Seq<Candidate>, p: PeerId) -> Seq<Candidate> {
    if exists|i: int| first_candidate(cs, p, i) {
        cs
    } else {
        cs.push(Candidate { peer: p, attempted: false })
    }
}

/// The candidates once a clone from `p` was tried.
pub open spec fn mark_attempted(cs: Seq<Candidate>, p: PeerId) -> Seq<Candidate> {
    if exists|i: int| first_candidate(cs, p, i) {
        cs.update(choose|i: int| first_candidate(cs, p, i), Candidate { peer: p, attempted: true })
    } else {
        cs.push(Candidate { peer: p, attempted: true })
    }
}

/// Whether `i` is the first candidate not tried yet.
pub open spec fn first_untried(cs: Seq<Candidate>, i: int) -> bool {
    &&& 0 <= i < cs.len()
    &&& !cs[i].attempted
    &&& forall|j: int| 0 <= j < i ==> cs[j].attempted
}

/// Whether some candidate was not tried yet.
pub open spec fn has_untried(cs: Seq<Candidate>) -> bool {
    exists|i: int| 0 <= i < cs.len() && !cs[i].attempted
}

/// Whether `r` is older than the configured age limit at `now`.
pub open spec fn aged(r: RequestView, cfg: WaitingRoomConfig, now: u64) -> bool {
    now >= r.created && now - r.created > cfg.max_age
}

/// Whether `r` is past one of its ceilings at `now`: too old, or more queries or clone
/// attempts than allowed.
pub open spec fn over_ceiling(r: RequestView, cfg: WaitingRoomConfig, now: u64) -> bool {
    aged(r, cfg, now) || r.queries > cfg.max_queries || r.clones > cfg.max_clones
}

/// `r` timed out at `now`.
pub open spec fn timed_out(r: RequestView, now: u64) -> RequestView {
    RequestView { state: RequestState::TimedOut, terminated: Some(now), ..r }
}

/// Whether `r` is the clone from `p` under way.
pub open spec fn cloning_from(r: RequestView, p: PeerId) -> bool {
    r.state == RequestState::Cloning && r.cloning_from == Some(p)
}

/// The outcome of `op` on request `r`: the request afterwards and the result.
/// A request that timed out stays so and answers every operation with `TimeOut`.
pub open spec fn request_step(r: RequestView, cfg: WaitingRoomConfig, op: Op) -> (
    RequestView,
    Result<(), WaitingRoomError>,
) {
    if r.state == RequestState::TimedOut {
        (r, Err(WaitingRoomError::TimeOut))
    } else {
        match op {
            Op::Queried(now) => match r.state {
                RequestState::Created | RequestState::Requested => {
                    if aged(r, cfg, now) || r.queries >= cfg.max_queries {
                        (timed_out(r, now), Err(WaitingRoomError::TimeOut))
                    } else {
                        (
                            RequestView {
                                state: RequestState::Requested,
                                queries: (r.queries + 1) as u64,
                                last_queried: Some(now),
                                ..r
                            },
                            Ok(()),
                        )
                    }
                },
                _ => (r, Err(WaitingRoomError::InvalidTransition)),
            },
            Op::Found(p, now) => match r.state {
                RequestState::Cloned | RequestState::Cancelled => (
                    r,
                    Err(WaitingRoomError::InvalidTransition),
                ),
                _ => if over_ceiling(r, cfg, now) {
                    (timed_out(r, now), Err(WaitingRoomError::TimeOut))
                } else {
                    (
                        RequestView {
                            state: if r.state == RequestState::Requested {
                                RequestState::Found
                            } else {
                                r.state
                            },
                            candidates: add_candidate(r.candidates, p),
                            ..r
                        },
                        Ok(()),
                    )
                },
            },
            Op::Cloning(p, now) => match r.state {
                RequestState::Found => {
                    if aged(r, cfg, now) || r.clones >= cfg.max_clones {
                        (timed_out(r, now), Err(WaitingRoomError::TimeOut))
                    } else {
                        (
                            RequestView {
                                state: RequestState::Cloning,
                                clones: (r.clones + 1) as u64,
                                last_cloning: Some(now),
                                cloning_from: Some(p),
                                candidates: mark_attempted(r.candidates, p),
                                ..r
                            },
                            Ok(()),
                        )
                    }
                },
                _ => (r, Err(WaitingRoomError::InvalidTransition)),
            },
            Op::Cloned(p, now) => if cloning_from(r, p) {
                (
                    RequestView {
                        state: RequestState::Cloned,
                        terminated: Some(now),
                        cloning_from: None,
                        ..r
                    },
                    Ok(()),
                )
            } else {
                (r, Err(WaitingRoomError::InvalidTransition))
            },
            Op::CloningFailed(p, now) => if cloning_from(r, p) {
                if aged(r, cfg, now) || r.clones >= cfg.max_clones {
                    (timed_out(r, now), Err(WaitingRoomError::TimeOut))
                } else if has_untried(r.candidates) {
                    (RequestView { state: RequestState::Found, cloning_from: None, ..r }, Ok(()))
                } else {
                    (RequestView { state: RequestState::Requested, cloning_from: None, ..r }, Ok(()))
                }
            } else {
                (r, Err(WaitingRoomError::InvalidTransition))
            },
            Op::Canceled(now) => match r.state {
                RequestState::Cloned | RequestState::Cancelled => (
                    r,
                    Err(WaitingRoomError::InvalidTransition),
                ),
                _ => (
                    RequestView { state: RequestState::Cancelled, terminated: Some(now), ..r },
                    Ok(()),
                ),
            },
        }
    }
}

fn candidate_position(cs: &Vec<Candidate>, p: PeerId) -> (r: Option<usize>)
    ensures
        match r {
            Some(i) => first_candidate(cs@, p, i as int),
            None => !exists|i: int| first_candidate(cs@, p, i),
        },
{
    let mut i: usize = 0;
    while i < cs.len()
        invariant
            i <= cs@.len(),
            forall|j: int| 0 <= j < i ==> cs@[j].peer != p,
        decreases cs@.len() - i,
    {
        if cs[i].peer == p {
            return Some(i);
        }
        i = i + 1;
    }
    None
}

proof fn lemma_first_candidate_unique(cs: Seq<Candidate>, p: PeerId, i: int)
    requires
        first_candidate(cs, p, i),
    ensures
        (choose|k: int| first_candidate(cs, p, k)) == i,
{
    let k = choose|k: int| first_candidate(cs, p, k);
    if k < i {
        assert(cs[k].peer == p);
    } else if k > i {
        assert(cs[i].peer == p);
    }
}

/// The first candidate not tried yet, if any.
pub fn first_untried_candidate(cs: &Vec<Candidate>) -> (r: Option<usize>)
    ensures
        match r {
            Some(i) => first_untried(cs@, i as int),
            None => !has_untried(cs@),
        },
{
    let mut i: usize = 0;
    while i < cs.len()
        invariant
            i <= cs@.len(),
            forall|j: int| 0 <= j < i ==> cs@[j].attempted,
        decreases cs@.len() - i,
    {
        if !cs[i].attempted {
            return Some(i);
        }
        i = i + 1;
    }
    None
}

fn copy_candidates(cs: &Vec<Candidate>) -> (r: Vec<Candidate>)
    ensures
        r@ == cs@,
{
    let mut r: Vec<Candidate> = Vec::new();
    let mut i: usize = 0;
    while i < cs.len()
        invariant
            i <= cs@.len(),
            r@ == cs@.subrange(0, i as int),
        decreases cs@.len() - i,
    {
        r.push(cs[i]);
        i = i + 1;
        proof {
            assert(r@ =~= cs@.subrange(0, i as int));
        }
    }
    proof {
        assert(cs@.subrange(0, cs@.len() as int) =~= cs@);
    }
    r
}

impl Request {
    /// A fresh request for `urn`, made at `now`.
    pub fn new(urn: Urn, now: u64) -> (r: Request)
        ensures
            r@ == new_request(urn, now),
    {
        let r = Request {
            urn,
            state: RequestState::Created,
            candidates: Vec::new(),
            queries: 0,
            clones: 0,
            created: now,
            last_queried: None,
            last_cloning: None,
            terminated: None,
            cloning_from: None,
        };
        proof {
            assert(r@.candidates =~= Seq::<Candidate>::empty());
        }
        r
    }

    /// A copy of the request.
    pub fn snapshot(&self) -> (r: Request)
        ensures
            r@ == self@,
    {
        Request {
            urn: self.urn,
            state: self.state,
            candidates: copy_candidates(&self.candidates),
            queries: self.queries,
            clones: self.clones,
            created: self.created,
            last_queried: self.last_queried,
            last_cloning: self.last_cloning,
            terminated: self.terminated,
            cloning_from: self.cloning_from,
        }
    }

    fn time_out(&mut self, now: u64) -> (r: Result<(), WaitingRoomError>)
        ensures
            final(self)@ == timed_out(old(self)@, now),
            r == Err::<(), WaitingRoomError>(WaitingRoomError::TimeOut),
    {
        self.state = RequestState::TimedOut;
        self.terminated = Some(now);
        Err(WaitingRoomError::TimeOut)
    }

    fn is_aged(&self, cfg: WaitingRoomConfig, now: u64) -> (b: bool)
        ensures
            b == aged(self@, cfg, now),
    {
        now >= self.created && now - self.created > cfg.max_age
    }

    fn is_cloning_from(&self, p: PeerId) -> (b: bool)
        ensures
            b == cloning_from(self@, p),
    {
        self.state == RequestState::Cloning && self.cloning_from == Some(p)
    }

    /// Applies `op` under the limits of `cfg`.
    pub fn apply(&mut self, cfg: WaitingRoomConfig, op: Op) -> (r: Result<(), WaitingRoomError>)
        ensures
            (final(self)@, r) == request_step(old(self)@, cfg, op),
    {
        if self.state == RequestState::TimedOut {
            return Err(WaitingRoomError::TimeOut);
        }
        match op {
            Op::Queried(now) => match self.state {
                RequestState::Created | RequestState::Requested => {
                    if self.is_aged(cfg, now) || self.queries >= cfg.max_queries {
                        self.time_out(now)
                    } else {
                        self.state = RequestState::Requested;
                        self.queries = self.queries + 1;
                        self.last_queried = Some(now);
                        Ok(())
                    }
                },
                _ => Err(WaitingRoomError::InvalidTransition),
            },
            Op::Found(p, now) => match self.state {
                RequestState::Cloned | RequestState::Cancelled => Err(
                    WaitingRoomError::InvalidTransition,
                ),
                _ => {
                    if self.is_aged(cfg, now) || self.queries > cfg.max_queries || self.clones
                        > cfg.max_clones {
                        return self.time_out(now);
                    }
                    if candidate_position(&self.candidates, p).is_none() {
                        self.candidates.push(Candidate { peer: p, attempted: false });
                    }
                    if self.state == RequestState::Requested {
                        self.state = RequestState::Found;
                    }
                    Ok(())
                },
            },
            Op::Cloning(p, now) => match self.state {
                RequestState::Found => {
                    if self.is_aged(cfg, now) || self.clones >= cfg.max_clones {
                        self.time_out(now)
                    } else {
                        match candidate_position(&self.candidates, p) {
                            Some(i) => {
                                proof {
                                    lemma_first_candidate_unique(self.candidates@, p, i as int);
                                }
                                self.candidates.set(i, Candidate { peer: p, attempted: true });
                            },
                            None => {
                                self.candidates.push(Candidate { peer: p, attempted: true });
                            },
                        }
                        self.state = RequestState::Cloning;
                        self.clones = self.clones + 1;
                        self.last_cloning = Some(now);
                        self.cloning_from = Some(p);
                        Ok(())
                    }
                },
                _ => Err(WaitingRoomError::InvalidTransition),
            },
            Op::Cloned(p, now) => {
                if self.is_cloning_from(p) {
                    self.state = RequestState::Cloned;
                    self.terminated = Some(now);
                    self.cloning_from = None;
                    Ok(())
                } else {
                    Err(WaitingRoomError::InvalidTransition)
                }
            },
            Op::CloningFailed(p, now) => {
                if self.is_cloning_from(p) {
                    if self.is_aged(cfg, now) || self.clones >= cfg.max_clones {
                        self.time_out(now)
                    } else {
                        match first_untried_candidate(&self.candidates) {
                            Some(_) => {
                                self.state = RequestState::Found;
                            },
                            None => {
                                self.state = RequestState::Requested;
                            },
                        }
                        self.cloning_from = None;
                        Ok(())
                    }
                } else {
                    Err(WaitingRoomError::InvalidTransition)
                }
            },
            Op::Canceled(now) => match self.state {
                RequestState::Cloned | RequestState::Cancelled => Err(
                    WaitingRoomError::InvalidTransition,
                ),
                _ => {
                    self.state = RequestState::Cancelled;
                    self.terminated = Some(now);
                    Ok(())
                },
            },
        }
    }
}

/// All requests, at most one per URN, in the order in which they were made.
#[derive(Clone, Debug, PartialEq, Eq)]
pub struct WaitingRoom {
    config: WaitingRoomConfig,
    requests: Vec<Request>,
}

pub struct WaitingRoomView {
    pub config: WaitingRoomConfig,
    pub requests: Seq<RequestView>,
}

impl View for WaitingRoom {
    type V = WaitingRoomView;

    closed spec fn view(&self) -> WaitingRoomView {
        WaitingRoomView {
            config: self.config,
            requests: self.requests@.map_values(|r: Request| r@),
        }
    }
}

/// Whether `i` is the first position of a request for `u`.
pub open spec fn first_at(rs: Seq<RequestView>, u: Urn, i: int) -> bool {
    &&& 0 <= i < rs.len()
    &&& rs[i].urn == u
    &&& forall|j: int| 0 <= j < i ==> rs[j].urn != u
}

/// The position of the request for `u`, if there is one.
pub open spec fn lookup(rs: Seq<RequestView>, u: Urn) -> Option<int> {
    if exists|i: int| first_at(rs, u, i) {
        Some(choose|i: int| first_at(rs, u, i))
    } else {
        None
    }
}

/// No two requests share a URN.
pub open spec fn unique_urns(rs: Seq<RequestView>) -> bool {
    forall|i: int, j: int| 0 <= i < rs.len() && 0 <= j < rs.len() && i != j ==> rs[i].urn != rs[j].urn
}

/// The request for `u`, if there is one.
pub open spec fn room_get(w: WaitingRoomView, u: Urn) -> Option<RequestView> {
    match lookup(w.requests, u) {
        Some(i) => Some(w.requests[i]),
        None => None,
    }
}

/// Asking for `u` at `now`: the existing request, or a new one added at the end.
pub open spec fn room_request(w: WaitingRoomView, u: Urn, now: u64) -> (WaitingRoomView, RequestView) {
    match lookup(w.requests, u) {
        Some(i) => (w, w.requests[i]),
        None => (
            WaitingRoomView { requests: w.requests.push(new_request(u, now)), ..w },
            new_request(u, now),
        ),
    }
}

/// Taking the request for `u` out.
pub open spec fn room_remove(w: WaitingRoomView, u: Urn) -> (WaitingRoomView, Option<RequestView>) {
    match lookup(w.requests, u) {
        Some(i) => (WaitingRoomView { requests: w.requests.remove(i), ..w }, Some(w.requests[i])),
        None => (w, None),
    }
}

/// `op` on the request for `u`.
pub open spec fn room_step(w: WaitingRoomView, u: Urn, op: Op) -> (
    WaitingRoomView,
    Result<(), WaitingRoomError>,
) {
    match lookup(w.requests, u) {
        Some(i) => {
            let (r, res) = request_step(w.requests[i], w.config, op);
            (WaitingRoomView { requests: w.requests.update(i, r), ..w }, res)
        },
        None => (w, Err(WaitingRoomError::MissingUrn)),
    }
}

/// Whether `r` is due for a query at `now`: never queried, or last queried at least the
/// query interval ago.
pub open spec fn query_due(r: RequestView, cfg: WaitingRoomConfig, now: u64) -> bool {
    match r.state {
        RequestState::Created => true,
        RequestState::Requested => match r.last_queried {
            Some(t) => now >= t && now - t >= cfg.query_interval,
            None => true,
        },
        _ => false,
    }
}

/// Whether `a` goes before `b` in the query order: the least recently queried
/// first (never queried before all), then by URN.
pub open spec fn query_before(a: RequestView, b: RequestView) -> bool {
    match (a.last_queried, b.last_queried) {
        (None, Some(_)) => true,
        (Some(x), Some(y)) => x < y || (x == y && urn_lt(a.urn, b.urn)),
        (None, None) => urn_lt(a.urn, b.urn),
        (Some(_), None) => false,
    }
}

/// Whether `i` is the request that is due and comes first in the query order.
pub open spec fn next_query_at(w: WaitingRoomView, now: u64, i: int) -> bool {
    &&& 0 <= i < w.requests.len()
    &&& query_due(w.requests[i], w.config, now)
    &&& forall|j: int|
        0 <= j < w.requests.len() && query_due(w.requests[j], w.config, now)
            ==> !query_before(w.requests[j], w.requests[i])
}

/// The URN to query next at `now`.
pub open spec fn room_next_query(w: WaitingRoomView, now: u64) -> Option<Urn> {
    if exists|i: int| next_query_at(w, now, i) {
        Some(w.requests[choose|i: int| next_query_at(w, now, i)].urn)
    } else {
        None
    }
}

/// Whether `r` has a peer to clone from.
pub open spec fn clone_ready(r: RequestView) -> bool {
    r.state == RequestState::Found && has_untried(r.candidates)
}

/// Whether `i` is the earliest request that has a peer to clone from.
pub open spec fn next_clone_at(w: WaitingRoomView, i: int) -> bool {
    &&& 0 <= i < w.requests.len()
    &&& clone_ready(w.requests[i])
    &&& forall|j: int| 0 <= j < i ==> !clone_ready(w.requests[j])
}

/// The earliest request that has a peer to clone from, with the first such peer.
pub open spec fn room_next_clone(w: WaitingRoomView) -> Option<(Urn, PeerId)> {
    if exists|i: int| next_clone_at(w, i) {
        let i = choose|i: int| next_clone_at(w, i);
        let cs = w.requests[i].candidates;
        Some((w.requests[i].urn, cs[choose|k: int| first_untried(cs, k)].peer))
    } else {
        None
    }
}

proof fn lemma_has_first(rs: Seq<RequestView>, u: Urn, i: int)
    requires
        0 <= i < rs.len(),
        rs[i].urn == u,
    ensures
        exists|k: int| first_at(rs, u, k),
    decreases i,
{
    if exists|j: int| 0 <= j < i && rs[j].urn == u {
        let j = choose|j: int| 0 <= j < i && rs[j].urn == u;
        lemma_has_first(rs, u, j);
    } else {
        assert(first_at(rs, u, i));
    }
}

/// Without a lookup, no request is for `u`.
pub proof fn lemma_lookup_none(rs: Seq<RequestView>, u: Urn)
    requires
        lookup(rs, u) == None::<int>,
    ensures
        forall|i: int| 0 <= i < rs.len() ==> rs[i].urn != u,
{
    assert forall|i: int| 0 <= i < rs.len() implies rs[i].urn != u by {
        if rs[i].urn == u {
            lemma_has_first(rs, u, i);
        }
    }
}

/// With unique URNs, the position of a request for `u` is its lookup.
pub proof fn lemma_unique_lookup(rs: Seq<RequestView>, u: Urn, i: int)
    requires
        unique_urns(rs),
        0 <= i < rs.len(),
        rs[i].urn == u,
    ensures
        lookup(rs, u) == Some(i),
{
    assert(first_at(rs, u, i));
    lemma_first_at_unique(rs, u, i);
}

/// The first position of a request for `u` is its lookup.
pub proof fn lemma_first_at_unique(rs: Seq<RequestView>, u: Urn, i: int)
    requires
        first_at(rs, u, i),
    ensures
        lookup(rs, u) == Some(i),
{
    let k = choose|k: int| first_at(rs, u, k);
    if k < i {
        assert(rs[k].urn == u);
    } else if k > i {
        assert(rs[i].urn == u);
    }
}

proof fn lemma_first_untried_unique(cs: Seq<Candidate>, i: int)
    requires
        first_untried(cs, i),
    ensures
        (choose|k: int| first_untried(cs, k)) == i,
{
    let k = choose|k: int| first_untried(cs, k);
    if k < i {
        assert(cs[k].attempted);
    } else if k > i {
        assert(cs[i].attempted);
    }
}

impl WaitingRoom {
    /// No two requests share a URN.
    pub open spec fn wf(&self) -> bool {
        unique_urns(self@.requests)
    }

    /// An empty room with the limits of `config`.
    pub fn new(config: WaitingRoomConfig) -> (r: WaitingRoom)
        ensures
            r.wf(),
            r@.config == config,
            r@.requests == Seq::<RequestView>::empty(),
    {
        let r = WaitingRoom { config, requests: Vec::new() };
        proof {
            assert(r@.requests =~= Seq::<RequestView>::empty());
        }
        r
    }

    /// The limits of the room.
    pub fn config(&self) -> (r: WaitingRoomConfig)
        ensures
            r == self@.config,
    {
        self.config
    }

    fn position(&self, u: Urn) -> (r: Option<usize>)
        ensures
            match r {
                Some(i) => lookup(self@.requests, u) == Some(i as int) && i < self@.requests.len(),
                None => lookup(self@.requests, u) == None::<int>,
            },
    {
        let ghost rs = self@.requests;
        let mut i: usize = 0;
        while i < self.requests.len()
            invariant
                i <= self.requests@.len(),
                rs == self@.requests,
                rs.len() == self.requests@.len(),
                forall|j: int| 0 <= j < i ==> rs[j].urn != u,
            decreases self.requests@.len() - i,
        {
            if self.requests[i].urn == u {
                proof {
                    assert(first_at(rs, u, i as int));
                    lemma_first_at_unique(rs, u, i as int);
                }
                return Some(i);
            }
            i = i + 1;
        }
        None
    }

    /// A copy of the room.
    pub fn snapshot(&self) -> (r: WaitingRoom)
        ensures
            r@ == self@,
    {
        let r = WaitingRoom { config: self.config, requests: self.list() };
        proof {
            assert(r@.requests =~= self@.requests);
        }
        r
    }

    /// Copies of all requests, in the room's order.
    pub fn list(&self) -> (r: Vec<Request>)
        ensures
            r@.map_values(|x: Request| x@) == self@.requests,
    {
        let mut r: Vec<Request> = Vec::new();
        let mut i: usize = 0;
        while i < self.requests.len()
            invariant
                i <= self.requests@.len(),
                r@.map_values(|x: Request| x@) == self@.requests.subrange(0, i as int),
            decreases self.requests@.len() - i,
        {
            let ghost prev = r@;
            let x = self.requests[i].snapshot();
            r.push(x);
            proof {
                assert(prev.map_values(|x: Request| x@) =~= self@.requests.subrange(0, i as int));
                assert(self@.requests[i as int] == x@);
                assert(prev.map_values(|x: Request| x@).len() == prev.len());
                assert(self@.requests.len() == self.requests@.len());
                assert(r@ == prev.push(x));
            }
            i = i + 1;
            proof {
                assert(r@.map_values(|x: Request| x@) =~= self@.requests.subrange(0, i as int));
            }
        }
        proof {
            assert(self@.requests.subrange(0, self@.requests.len() as int) =~= self@.requests);
        }
        r
    }

    /// A copy of the request for `u`, if there is one.
    pub fn get(&self, u: Urn) -> (r: Option<Request>)
        ensures
            match r {
                Some(x) => room_get(self@, u) == Some(x@),
                None => room_get(self@, u) == None::<RequestView>,
            },
    {
        match self.position(u) {
            Some(i) => Some(self.requests[i].snapshot()),
            None => None,
        }
    }

    /// The request for `u`, made at `now` unless one exists already.
    pub fn request(&mut self, u: Urn, now: u64) -> (r: Request)
        requires
            old(self).wf(),
        ensures
            final(self).wf(),
            (final(self)@, r@) == room_request(old(self)@, u, now),
    {
        proof {
            lemma_call_keeps_unique(old(self)@, RoomCall::Request(u, now));
        }
        match self.position(u) {
            Some(i) => self.requests[i].snapshot(),
            None => {
                self.requests.push(Request::new(u, now));
                proof {
                    assert(self@.requests =~= old(self)@.requests.push(new_request(u, now)));
                }
                Request::new(u, now)
            },
        }
    }

    /// Takes the request for `u` out of the room.
    pub fn remove(&mut self, u: Urn) -> (r: Option<Request>)
        requires
            old(self).wf(),
        ensures
            final(self).wf(),
            final(self)@ == room_remove(old(self)@, u).0,
            match r {
                Some(x) => room_remove(old(self)@, u).1 == Some(x@),
                None => room_remove(old(self)@, u).1 == None::<RequestView>,
            },
    {
        proof {
            lemma_call_keeps_unique(old(self)@, RoomCall::Remove(u));
        }
        match self.position(u) {
            Some(i) => {
                let x = self.requests.remove(i);
                proof {
                    assert(self@.requests =~= old(self)@.requests.remove(i as int));
                }
                Some(x)
            },
            None => None,
        }
    }

    fn step(&mut self, u: Urn, op: Op) -> (r: Result<(), WaitingRoomError>)
        requires
            old(self).wf(),
        ensures
            final(self).wf(),
            (final(self)@, r) == room_step(old(self)@, u, op),
    {
        proof {
            lemma_call_keeps_unique(old(self)@, RoomCall::Step(u, op));
        }
        match self.position(u) {
            Some(i) => {
                let cfg = self.config;
                let req = &mut self.requests[i];
                let res = req.apply(cfg, op);
                proof {
                    assert(self@.requests =~= old(self)@.requests.update(
                        i as int,
                        request_step(old(self)@.requests[i as int], cfg, op).0,
                    ));
                }
                res
            },
            None => Err(WaitingRoomError::MissingUrn),
        }
    }

    /// Records that `u` was queried at `now`.
    pub fn queried(&mut self, u: Urn, now: u64) -> (r: Result<(), WaitingRoomError>)
        requires
            old(self).wf(),
        ensures
            final(self).wf(),
            (final(self)@, r) == room_step(old(self)@, u, Op::Queried(now)),
    {
        self.step(u, Op::Queried(now))
    }

    /// Records that `peer` announced at `now` to hold `u`.
    pub fn found(&mut self, u: Urn, peer: PeerId, now: u64) -> (r: Result<(), WaitingRoomError>)
        requires
            old(self).wf(),
        ensures
            final(self).wf(),
            (final(self)@, r) == room_step(old(self)@, u, Op::Found(peer, now)),
    {
        self.step(u, Op::Found(peer, now))
    }

    /// Records that a clone of `u` from `peer` started at `now`.
    pub fn cloning(&mut self, u: Urn, peer: PeerId, now: u64) -> (r: Result<(), WaitingRoomError>)
        requires
            old(self).wf(),
        ensures
            final(self).wf(),
            (final(self)@, r) == room_step(old(self)@, u, Op::Cloning(peer, now)),
    {
        self.step(u, Op::Cloning(peer, now))
    }

    /// Records that the clone of `u` from `peer` finished at `now`.
    pub fn cloned(&mut self, u: Urn, peer: PeerId, now: u64) -> (r: Result<(), WaitingRoomError>)
        requires
            old(self).wf(),
        ensures
            final(self).wf(),
            (final(self)@, r) == room_step(old(self)@, u, Op::Cloned(peer, now)),
    {
        self.step(u, Op::Cloned(peer, now))
    }

    /// Records that the clone of `u` from `peer` failed at `now`.
    pub fn cloning_failed(&mut self, u: Urn, peer: PeerId, now: u64) -> (r: Result<
        (),
        WaitingRoomError,
    >)
        requires
            old(self).wf(),
        ensures
            final(self).wf(),
            (final(self)@, r) == room_step(old(self)@, u, Op::CloningFailed(peer, now)),
    {
        self.step(u, Op::CloningFailed(peer, now))
    }

    /// Records that the request for `u` was given up at `now`.
    pub fn canceled(&mut self, u: Urn, now: u64) -> (r: Result<(), WaitingRoomError>)
        requires
            old(self).wf(),
        ensures
            final(self).wf(),
            (final(self)@, r) == room_step(old(self)@, u, Op::Canceled(now)),
    {
        self.step(u, Op::Canceled(now))
    }

    fn is_due(r: &Request, cfg: WaitingRoomConfig, now: u64) -> (b: bool)
        ensures
            b == query_due(r@, cfg, now),
    {
        match r.state {
            RequestState::Created => true,
            RequestState::Requested => match r.last_queried {
                Some(t) => now >= t && now - t >= cfg.query_interval,
                None => true,
            },
            _ => false,
        }
    }

    fn is_before(a: &Request, b: &Request) -> (r: bool)
        ensures
            r == query_before(a@, b@),
    {
        match (a.last_queried, b.last_queried) {
            (None, Some(_)) => true,
            (Some(x), Some(y)) => x < y || (x == y && a.urn.precedes(&b.urn)),
            (None, None) => a.urn.precedes(&b.urn),
            (Some(_), None) => false,
        }
    }

    /// The URN to query next at `now`.
    pub fn next_query(&self, now: u64) -> (r: Option<Urn>)
        ensures
            r == room_next_query(self@, now),
    {
        let ghost w = self@;
        let cfg = self.config;
        let mut best: Option<usize> = None;
        let mut i: usize = 0;
        while i < self.requests.len()
            invariant
                i <= self.requests@.len(),
                w == self@,
                w.requests.len() == self.requests@.len(),
                cfg == w.config,
                match best {
                    Some(b) => b < i && query_due(w.requests[b as int], cfg, now) && forall|j: int|
                        0 <= j < i && query_due(w.requests[j], cfg, now) ==> !query_before(
                            w.requests[j],
                            w.requests[b as int],
                        ),
                    None => forall|j: int| 0 <= j < i ==> !query_due(w.requests[j], cfg, now),
                },
            decreases self.requests@.len() - i,
        {
            if Self::is_due(&self.requests[i], cfg, now) {
                match best {
                    Some(b) => {
                        if Self::is_before(&self.requests[i], &self.requests[b]) {
                            proof {
                                lemma_query_before_order(w.requests, b as int, i as int, cfg, now);
                            }
                            best = Some(i);
                        } else {
                            proof {
                                lemma_query_before_total(w.requests[i as int], w.requests[b as int]);
                            }
                        }
                    },
                    None => {
                        best = Some(i);
                    },
                }
            }
            i = i + 1;
        }
        match best {
            Some(b) => {
                proof {
                    assert(next_query_at(w, now, b as int));
                    let k = choose|k: int| next_query_at(w, now, k);
                    lemma_query_before_total(w.requests[k], w.requests[b as int]);
                    lemma_query_before_total(w.requests[b as int], w.requests[k]);
                }
                Some(self.requests[b].urn)
            },
            None => None,
        }
    }

    /// The earliest request that has a peer to clone from, with the first such peer.
    pub fn next_clone(&self) -> (r: Option<(Urn, PeerId)>)
        ensures
            r == room_next_clone(self@),
    {
        let ghost w = self@;
        let mut i: usize = 0;
        while i < self.requests.len()
            invariant
                i <= self.requests@.len(),
                w == self@,
                w.requests.len() == self.requests@.len(),
                forall|j: int| 0 <= j < i ==> !clone_ready(w.requests[j]),
            decreases self.requests@.len() - i,
        {
            if self.requests[i].state == RequestState::Found {
                match first_untried_candidate(&self.requests[i].candidates) {
                    Some(k) => {
                        proof {
                            assert(next_clone_at(w, i as int));
                            let c = choose|c: int| next_clone_at(w, c);
                            if c < i {
                                assert(!clone_ready(w.requests[c]));
                            } else if c > i {
                                assert(clone_ready(w.requests[i as int]));
                            }
                            lemma_first_untried_unique(w.requests[i as int].candidates, k as int);
                        }
                        return Some((self.requests[i].urn, self.requests[i].candidates[k].peer));
                    },
                    None => {},
                }
            }
            i = i + 1;
        }
        None
    }
}

/// Of two requests, one goes before the other unless they share the time of their last
/// query and their URN.
proof fn lemma_query_before_total(a: RequestView, b: RequestView)
    ensures
        !query_before(a, b) && !query_before(b, a) ==> a.last_queried == b.last_queried && a.urn == b.urn,
{
}

proof fn lemma_query_before_order(rs: Seq<RequestView>, b: int, i: int, cfg: WaitingRoomConfig, now: u64)
    requires
        0 <= b < i < rs.len(),
        query_before(rs[i], rs[b]),
        forall|j: int| 0 <= j < i && query_due(rs[j], cfg, now) ==> !query_before(rs[j], rs[b]),
    ensures
        forall|j: int| 0 <= j <= i && query_due(rs[j], cfg, now) ==> !query_before(rs[j], rs[i]),
{
    assert forall|j: int| 0 <= j <= i && query_due(rs[j], cfg, now) implies !query_before(rs[j], rs[i]) by {
        if j < i && query_before(rs[j], rs[i]) {
            assert(!query_before(rs[j], rs[b]));
        }
    }
}

/// A call on the room, for stating what holds after a sequence of them.
pub enum RoomCall {
    Request(Urn, u64),
    Remove(Urn),
    Step(Urn, Op),
}

/// The room after `calls`, in order.
pub open spec fn apply_calls(w: WaitingRoomView, calls: Seq<RoomCall>) -> WaitingRoomView
    decreases calls.len(),
{
    if calls.len() == 0 {
        w
    } else {
        let w1 = apply_calls(w, calls.drop_last());
        match calls.last() {
            RoomCall::Request(u, t) => room_request(w1, u, t).0,
            RoomCall::Remove(u) => room_remove(w1, u).0,
            RoomCall::Step(u, op) => room_step(w1, u, op).0,
        }
    }
}

/// A request keeps its URN whatever is done to it.
pub proof fn lemma_request_step_keeps_urn(r: RequestView, cfg: WaitingRoomConfig, op: Op)
    ensures
        request_step(r, cfg, op).0.urn == r.urn,
{
}

/// Each call keeps the URNs of the room unique.
pub proof fn lemma_call_keeps_unique(w: WaitingRoomView, c: RoomCall)
    requires
        unique_urns(w.requests),
    ensures
        unique_urns(
            (match c {
                RoomCall::Request(u, t) => room_request(w, u, t).0,
                RoomCall::Remove(u) => room_remove(w, u).0,
                RoomCall::Step(u, op) => room_step(w, u, op).0,
            }).requests,
        ),
{
    let rs = w.requests;
    match c {
        RoomCall::Request(u, t) => {
            if lookup(rs, u) is None {
                lemma_lookup_none(rs, u);
                let rs2 = rs.push(new_request(u, t));
                assert(forall|i: int| 0 <= i < rs.len() ==> rs2[i] == rs[i]);
            }
        },
        RoomCall::Remove(u) => {
            if let Some(i) = lookup(rs, u) {
                let rs2 = rs.remove(i);
                assert forall|a: int, b: int| 0 <= a < rs2.len() && 0 <= b < rs2.len() && a != b implies rs2[a].urn != rs2[b].urn by {
                    let a1 = if a < i { a } else { a + 1 };
                    let b1 = if b < i { b } else { b + 1 };
                    assert(rs2[a] == rs[a1]);
                    assert(rs2[b] == rs[b1]);
                }
            }
        },
        RoomCall::Step(u, op) => {
            if let Some(i) = lookup(rs, u) {
                lemma_request_step_keeps_urn(rs[i], w.config, op);
            }
        },
    }
}

/// For every URN there is at most one request, whatever sequence of requests, removals
/// and operations the room went through.
pub proof fn lemma_one_request_per_urn(w: WaitingRoomView, calls: Seq<RoomCall>)
    requires
        unique_urns(w.requests),
    ensures
        unique_urns(apply_calls(w, calls).requests),
    decreases calls.len(),
{
    if calls.len() > 0 {
        lemma_one_request_per_urn(w, calls.drop_last());
        lemma_call_keeps_unique(apply_calls(w, calls.drop_last()), calls.last());
    }
}

} // verus!
