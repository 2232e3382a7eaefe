use vstd::prelude::*;

use crate::dispatch::{routes_to, Endpoints};

verus! {

/// Where one connection stands.
#[derive(PartialEq, Eq, Structural, Clone, Copy, Debug)]
pub enum ConnState {
    /// The transport handshake is under way.
    Connecting,
    /// Registered; messages flow both ways.
    Active,
    /// Over; the peer is no longer registered.
    Closed,
}

/// What the transport reports to a connection.
pub enum ConnEvent {
    /// The handshake succeeded.
    Accepted,
    /// The handshake failed.
    Refused,
    /// A text frame arrived.
    Text(String),
    /// A frame of another kind arrived.
    Other,
    /// Either direction closed, failed or ran out.
    Ended,
}

/// What the connection's driver does next.
#[derive(PartialEq, Eq, Structural, Clone, Copy, Debug)]
pub enum ConnAction {
    /// Add the peer to the registry.
    Register,
    /// Remove the peer from the registry.
    Deregister,
    /// Hand the message to the handler at this position of the table.
    Dispatch(usize),
    /// Nothing.
    Ignore,
}

/// The state after `event` in `state`.
pub open spec fn next_state(state: ConnState, event: ConnEvent) -> ConnState {
    match state {
        ConnState::Connecting => match event {
            ConnEvent::Accepted => ConnState::Active,
            ConnEvent::Text(_) | ConnEvent::Other => ConnState::Connecting,
            _ => ConnState::Closed,
        },
        ConnState::Active => match event {
            ConnEvent::Ended => ConnState::Closed,
            _ => ConnState::Active,
        },
        ConnState::Closed => ConnState::Closed,
    }
}

/// Whether `event` in `state` registers the peer.
pub open spec fn registers(state: ConnState, event: ConnEvent) -> bool {
    state == ConnState::Connecting && event is Accepted
}

/// Whether `event` in `state` removes the peer.
pub open spec fn deregisters(state: ConnState, event: ConnEvent) -> bool {
    state == ConnState::Active && event is Ended
}

/// The handler position that `action` hands a message to, if any.
pub open spec fn dispatched(action: ConnAction) -> Option<usize> {
    match action {
        ConnAction::Dispatch(i) => Some(i),
        _ => None,
    }
}

/// One step of a connection: the next state and what to do.
///
/// A text frame on an active connection goes to the handler its "type"
/// names; frames that are not text, malformed text and unknown types are
/// dropped without a word to the sender.
pub fn step<H>(state: ConnState, event: &ConnEvent, endpoints: &Endpoints<H>) -> (r: (
    ConnState,
    ConnAction,
))
    ensures
        r.0 == next_state(state, *event),
        (r.1 == ConnAction::Register) == registers(state, *event),
        (r.1 == ConnAction::Deregister) == deregisters(state, *event),
        state == ConnState::Active && event is Text ==> routes_to(
            *endpoints,
            event->Text_0@,
            dispatched(r.1),
        ),
        !(state == ConnState::Active && event is Text) ==> !(r.1 is Dispatch),
{
    match state {
        ConnState::Connecting => match event {
            ConnEvent::Accepted => (ConnState::Active, ConnAction::Register),
            ConnEvent::Text(_) | ConnEvent::Other => (ConnState::Connecting, ConnAction::Ignore),
            _ => (ConnState::Closed, ConnAction::Ignore),
        },
        ConnState::Active => match event {
            ConnEvent::Text(text) => match endpoints.route(text.as_str()) {
                Some(i) => (ConnState::Active, ConnAction::Dispatch(i)),
                None => (ConnState::Active, ConnAction::Ignore),
            },
            ConnEvent::Ended => (ConnState::Closed, ConnAction::Deregister),
            _ => (ConnState::Active, ConnAction::Ignore),
        },
        ConnState::Closed => (ConnState::Closed, ConnAction::Ignore),
    }
}

/// The state after `events`, from `state`.
pub open spec fn run(state: ConnState, events: Seq<ConnEvent>) -> ConnState
    decreases events.len(),
{
    if events.len() == 0 {
        state
    } else {
        next_state(run(state, events.drop_last()), events.last())
    }
}

/// How many of `events` register the peer, from `state`.
pub open spec fn registrations(state: ConnState, events: Seq<ConnEvent>) -> nat
    decreases events.len(),
{
    if events.len() == 0 {
        0
    } else {
        let prev = events.drop_last();
        registrations(state, prev) + if registers(run(state, prev), events.last()) {
            1nat
        } else {
            0nat
        }
    }
}

/// How many of `events` remove the peer, from `state`.
pub open spec fn deregistrations(state: ConnState, events: Seq<ConnEvent>) -> nat
    decreases events.len(),
{
    if events.len() == 0 {
        0
    } else {
        let prev = events.drop_last();
        deregistrations(state, prev) + if deregisters(run(state, prev), events.last()) {
            1nat
        } else {
            0nat
        }
    }
}

/// Whatever the transport reports, a connection registers its peer at most
/// once and removes it at most once, never before registering it; once
/// closed, a connection that was registered has been removed, and while
/// active its peer is registered.
pub proof fn law_register_once_deregister_once(events: Seq<ConnEvent>)
    ensures
        registrations(ConnState::Connecting, events) <= 1,
        deregistrations(ConnState::Connecting, events) <= registrations(
            ConnState::Connecting,
            events,
        ),
        run(ConnState::Connecting, events) == ConnState::Connecting ==> registrations(
            ConnState::Connecting,
            events,
        ) == 0,
        run(ConnState::Connecting, events) == ConnState::Active ==> registrations(
            ConnState::Connecting,
            events,
        ) == 1 && deregistrations(ConnState::Connecting, events) == 0,
        run(ConnState::Connecting, events) == ConnState::Closed ==> deregistrations(
            ConnState::Connecting,
            events,
        ) == registrations(ConnState::Connecting, events),
    decreases events.len(),
{
    if events.len() > 0 {
        law_register_once_deregister_once(events.drop_last());
    }
}

} // verus!
