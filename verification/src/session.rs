//! The life of one connection as decisions: each event on the socket or on
//! the room's broadcast channel is answered by one action.

use crate::ops::ClientMsg;
use vstd::prelude::*;

verus! {

/// Something that happened on a connection.
#[derive(Debug)]
pub enum SessionEvent {
    /// A message arrived on the room's broadcast channel.
    Broadcast(String),
    /// The connection fell behind the broadcast channel by this many
    /// messages.
    Lagged(u64),
    /// The broadcast channel closed.
    BroadcastClosed,
    /// The client sent a well-formed intent.
    Intent(ClientMsg),
    /// The client sent a text frame that is not a valid intent.
    Malformed,
    /// The client sent a frame that is neither text nor close.
    OtherFrame,
    /// The client closed the connection, or reading from it failed.
    ClientGone,
    /// Sending to the client failed.
    SendFailed,
}

/// What the connection does about an event.
#[derive(Debug)]
pub enum SessionAction {
    /// Send this text to the client.
    Forward(String),
    /// Apply this intent to the document and broadcast the result.
    Apply(ClientMsg),
    /// Report a malformed message and carry on.
    Reject,
    /// Carry on.
    Continue,
    /// End the session. A client that lagged reconnects and is served a
    /// fresh snapshot, since missed operations are not patched in.
    Disconnect,
}

/// The action that answers `event`.
pub open spec fn action_for(event: SessionEvent) -> SessionAction {
    match event {
        SessionEvent::Broadcast(text) => SessionAction::Forward(text),
        SessionEvent::Intent(intent) => SessionAction::Apply(intent),
        SessionEvent::Malformed => SessionAction::Reject,
        SessionEvent::OtherFrame => SessionAction::Continue,
        SessionEvent::Lagged(_) => SessionAction::Disconnect,
        SessionEvent::BroadcastClosed => SessionAction::Disconnect,
        SessionEvent::ClientGone => SessionAction::Disconnect,
        SessionEvent::SendFailed => SessionAction::Disconnect,
    }
}

/// Decides what a connection does about `event`: broadcast text is
/// forwarded, intents are applied, malformed text is reported, other frames
/// are ignored, and lagging, a closed channel, a closed client or a failed
/// send end the session.
pub fn next_action(event: SessionEvent) -> (a: SessionAction)
    ensures
        a == action_for(event),
        event matches SessionEvent::Intent(i) ==> a == SessionAction::Apply(i),
        event matches SessionEvent::Broadcast(t) ==> a == SessionAction::Forward(t),
        a is Disconnect <==> (event is Lagged || event is BroadcastClosed || event is ClientGone
            || event is SendFailed),
{
    match event {
        SessionEvent::Broadcast(text) => SessionAction::Forward(text),
        SessionEvent::Intent(intent) => SessionAction::Apply(intent),
        SessionEvent::Malformed => SessionAction::Reject,
        SessionEvent::OtherFrame => SessionAction::Continue,
        SessionEvent::Lagged(_) => SessionAction::Disconnect,
        SessionEvent::BroadcastClosed => SessionAction::Disconnect,
        SessionEvent::ClientGone => SessionAction::Disconnect,
        SessionEvent::SendFailed => SessionAction::Disconnect,
    }
}

/// The laws of a session: every intent a tab sends, insert or delete, is
/// applied as sent; every broadcast is forwarded unchanged; and a session
/// ends exactly when it lags by any number of messages, its channel
/// closes, its client goes away or a send fails. Nothing else ends it,
/// nothing else is applied or forwarded, only malformed text is reported,
/// and only other frames are passed over.
pub proof fn lemma_session_laws(event: SessionEvent)
    ensures
        event matches SessionEvent::Intent(i) ==> action_for(event) == SessionAction::Apply(i),
        forall|p: usize, t: String|
            action_for(SessionEvent::Intent(ClientMsg::InsertAt { pos: p, text: t }))
                == SessionAction::Apply(ClientMsg::InsertAt { pos: p, text: t }),
        forall|t: crate::ops::OperationId|
            action_for(SessionEvent::Intent(ClientMsg::DeleteChar { target: t }))
                == SessionAction::Apply(ClientMsg::DeleteChar { target: t }),
        event matches SessionEvent::Broadcast(t) ==> action_for(event) == SessionAction::Forward(t),
        forall|n: u64| action_for(SessionEvent::Lagged(n)) is Disconnect,
        action_for(event) is Disconnect <==> (event is Lagged || event is BroadcastClosed
            || event is ClientGone || event is SendFailed),
        action_for(event) is Apply <==> event is Intent,
        action_for(event) is Forward <==> event is Broadcast,
        action_for(event) is Reject <==> event is Malformed,
        action_for(event) is Continue <==> event is OtherFrame,
{
}

} // verus!
