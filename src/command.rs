//! What the run-state machine asks the surrounding subroutines to do.
use vstd::prelude::*;

use crate::event::{Event, EventView};
use crate::ids::{PeerId, Urn};
use crate::input::Sink;
use crate::status::{Status, StatusView};
use crate::waiting_room::{self, RequestView, WaitingRoom, WaitingRoomError, WaitingRoomView};

verus! {

/// Answers to control requests, each with the sink it goes to.
#[derive(Debug, PartialEq, Eq)]
pub enum Response {
    CancelSearch(Sink, Result<Option<waiting_room::Request>, WaitingRoomError>),
    CurrentStatus(Sink, Status),
    GetSearch(Sink, Option<waiting_room::Request>),
    ListSearches(Sink, Vec<waiting_room::Request>),
    StartSearch(Sink, waiting_room::Request),
}

/// Control commands.
#[derive(Debug, PartialEq, Eq)]
pub enum Control {
    Respond(Response),
}

/// Work on requests.
#[derive(Clone, Copy, Debug, PartialEq, Eq, Structural)]
pub enum Request {
    Query(Urn),
    Clone(Urn, PeerId),
    TimedOut(Urn),
}

/// Side effects for the subroutines to carry out.
#[derive(Debug, PartialEq, Eq)]
pub enum Command {
    Announce,
    Control(Control),
    EmitEvent(Event),
    PersistWaitingRoom(WaitingRoom),
    Request(Request),
    /// Start the timer of the sync phase, in milliseconds.
    StartSyncTimeout(u64),
    Stats,
    SyncPeer(PeerId),
}

pub enum ResponseView {
    CancelSearch(Sink, Result<Option<RequestView>, WaitingRoomError>),
    CurrentStatus(Sink, StatusView),
    GetSearch(Sink, Option<RequestView>),
    ListSearches(Sink, Seq<RequestView>),
    StartSearch(Sink, RequestView),
}

pub enum CommandView {
    Announce,
    Respond(ResponseView),
    EmitEvent(EventView),
    PersistWaitingRoom(WaitingRoomView),
    Request(Request),
    StartSyncTimeout(u64),
    Stats,
    SyncPeer(PeerId),
}

/// The view of an optional request.
pub open spec fn opt_view(r: Option<waiting_room::Request>) -> Option<RequestView> {
    match r {
        Some(x) => Some(x@),
        None => None,
    }
}

impl View for Response {
    type V = ResponseView;

    open spec fn view(&self) -> ResponseView {
        match self {
            Response::CancelSearch(s, r) => ResponseView::CancelSearch(
                *s,
                match r {
                    Ok(x) => Ok(opt_view(*x)),
                    Err(e) => Err(*e),
                },
            ),
            Response::CurrentStatus(s, st) => ResponseView::CurrentStatus(*s, st@),
            Response::GetSearch(s, r) => ResponseView::GetSearch(*s, opt_view(*r)),
            Response::ListSearches(s, l) => ResponseView::ListSearches(
                *s,
                l@.map_values(|x: waiting_room::Request| x@),
            ),
            Response::StartSearch(s, r) => ResponseView::StartSearch(*s, r@),
        }
    }
}

impl View for Command {
    type V = CommandView;

    open spec fn view(&self) -> CommandView {
        match self {
            Command::Announce => CommandView::Announce,
            Command::Control(Control::Respond(r)) => CommandView::Respond(r@),
            Command::EmitEvent(e) => CommandView::EmitEvent(e@),
            Command::PersistWaitingRoom(w) => CommandView::PersistWaitingRoom(w@),
            Command::Request(r) => CommandView::Request(*r),
            Command::StartSyncTimeout(d) => CommandView::StartSyncTimeout(*d),
            Command::Stats => CommandView::Stats,
            Command::SyncPeer(p) => CommandView::SyncPeer(*p),
        }
    }
}

/// The views of a list of commands.
pub open spec fn cmds_view(v: Seq<Command>) -> Seq<CommandView> {
    v.map_values(|c: Command| c@)
}

/// A list of one command.
pub fn one(c: Command) -> (r: Vec<Command>)
    ensures
        cmds_view(r@) == seq![c@],
{
    let mut r: Vec<Command> = Vec::new();
    r.push(c);
    proof {
        assert(cmds_view(r@) =~= seq![c@]);
    }
    r
}

/// A list of two commands.
pub fn two(a: Command, b: Command) -> (r: Vec<Command>)
    ensures
        cmds_view(r@) == seq![a@, b@],
{
    let mut r: Vec<Command> = Vec::new();
    r.push(a);
    r.push(b);
    proof {
        assert(cmds_view(r@) =~= seq![a@, b@]);
    }
    r
}

/// The empty list of commands.
pub fn none() -> (r: Vec<Command>)
    ensures
        cmds_view(r@) == Seq::<CommandView>::empty(),
{
    let r: Vec<Command> = Vec::new();
    proof {
        assert(cmds_view(r@) =~= Seq::<CommandView>::empty());
    }
    r
}

/// Appends `c` to the list.
pub fn push(v: &mut Vec<Command>, c: Command)
    ensures
        cmds_view(final(v)@) == cmds_view(old(v)@).push(c@),
{
    v.push(c);
    proof {
        assert(cmds_view(final(v)@) =~= cmds_view(old(v)@).push(c@));
    }
}

} // verus!
