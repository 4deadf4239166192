use vstd::prelude::*;

use super::buffer_laws::{law_queue_pushes, represents};
use super::circular_buffer::BufferState;

verus! {

/// A request that the control shell sends to the server.
#[derive(Debug, Clone)]
pub enum ChannelMessage {
    Stop,
    Start,
    Snap(String),
    NoFence,
    Fence(u32),
    Terminate,
}

/// A message that the server sends to each guest over its socket.
#[derive(Debug, Clone, PartialEq)]
pub enum SyncMessageType {
    Null,
    Stop,
    Start,
    Snap(String),
    NoFence,
    Fence(u32),
    Terminate,
}

/// What the server does with a request of the shell.
#[derive(Debug, Clone, PartialEq)]
pub enum ServerAction {
    /// Mark the guests as stopped: they wait before their next quantum.
    Pause,
    /// Clear the stop mark and wake every waiting guest.
    Resume,
    /// Put the message in the ring buffer, for every guest to send.
    Broadcast(SyncMessageType),
}

/// The action that answers each request of the shell.
pub open spec fn spec_action(message: ChannelMessage) -> ServerAction {
    match message {
        ChannelMessage::Stop => ServerAction::Pause,
        ChannelMessage::Start => ServerAction::Resume,
        ChannelMessage::Snap(dirname) => ServerAction::Broadcast(SyncMessageType::Snap(dirname)),
        ChannelMessage::NoFence => ServerAction::Broadcast(SyncMessageType::NoFence),
        ChannelMessage::Fence(budget) => ServerAction::Broadcast(SyncMessageType::Fence(budget)),
        ChannelMessage::Terminate => ServerAction::Broadcast(SyncMessageType::Terminate),
    }
}

/// The request that asks the server for a message, if there is one: every
/// message but `Null` has the request of the same name.
pub open spec fn spec_request(message: SyncMessageType) -> Option<ChannelMessage> {
    match message {
        SyncMessageType::Null => None,
        SyncMessageType::Stop => Some(ChannelMessage::Stop),
        SyncMessageType::Start => Some(ChannelMessage::Start),
        SyncMessageType::Snap(dirname) => Some(ChannelMessage::Snap(dirname)),
        SyncMessageType::NoFence => Some(ChannelMessage::NoFence),
        SyncMessageType::Fence(budget) => Some(ChannelMessage::Fence(budget)),
        SyncMessageType::Terminate => Some(ChannelMessage::Terminate),
    }
}

/// The value that an action gives the stop flag, if it touches it.
pub open spec fn spec_stop_flag(action: ServerAction) -> Option<bool> {
    match action {
        ServerAction::Pause => Some(true),
        ServerAction::Resume => Some(false),
        ServerAction::Broadcast(_) => None,
    }
}

/// The message that an action puts in the ring buffer, if it puts one.
pub open spec fn spec_payload(action: ServerAction) -> Option<SyncMessageType> {
    match action {
        ServerAction::Broadcast(message) => Some(message),
        _ => None,
    }
}

impl ServerAction {
    /// The value this action gives the stop flag: set by `Pause`, cleared
    /// by `Resume`, untouched by a broadcast.
    pub fn stop_flag(&self) -> (flag: Option<bool>)
        ensures
            flag == spec_stop_flag(*self),
    {
        match self {
            ServerAction::Pause => Some(true),
            ServerAction::Resume => Some(false),
            ServerAction::Broadcast(_) => None,
        }
    }
}

/// The stop flag after the requests `messages`, handled in order, from `stopped`.
pub open spec fn flag_after(messages: Seq<ChannelMessage>, stopped: bool) -> bool
    decreases messages.len(),
{
    if messages.len() == 0 {
        stopped
    } else {
        match spec_stop_flag(spec_action(messages.last())) {
            Some(flag) => flag,
            None => flag_after(messages.drop_last(), stopped),
        }
    }
}

/// The messages that the requests `messages` put in the ring buffer, in order.
pub open spec fn broadcasts(messages: Seq<ChannelMessage>) -> Seq<SyncMessageType>
    decreases messages.len(),
{
    if messages.len() == 0 {
        Seq::empty()
    } else {
        broadcasts(messages.drop_last()) + match spec_payload(spec_action(messages.last())) {
            Some(message) => seq![message],
            None => Seq::empty(),
        }
    }
}

/// Handled in order, the shell's requests leave the stop flag as the last
/// `Stop` or `Start` set it (a broadcast never touches it), and put exactly
/// one message in the ring buffer for each other request, in the order
/// received (`Stop` and `Start` put none); when the ring has room for them,
/// every one of those pushes is accepted and the guests' readers find the
/// messages queued after those already there.
pub proof fn law_requests_in_order(
    s: BufferState<SyncMessageType>,
    history: Seq<SyncMessageType>,
    reads: Seq<nat>,
    messages: Seq<ChannelMessage>,
    stopped: bool,
)
    requires
        represents(s, history, reads),
        forall|k: int|
            0 <= k < reads.len() ==> history.len() + broadcasts(messages).len() <= #[trigger] reads[k]
                + s.capacity,
    ensures
        forall|i: int|
            0 <= i < broadcasts(messages).len() ==> #[trigger] s.after_pushes(
                broadcasts(messages).take(i),
            ).can_push(),
        represents(s.after_pushes(broadcasts(messages)), history + broadcasts(messages), reads),
        messages.len() > 0 && spec_payload(spec_action(messages.last())) is Some ==> flag_after(
            messages,
            stopped,
        ) == flag_after(messages.drop_last(), stopped),
        messages.len() > 0 && spec_payload(spec_action(messages.last())) is None
            ==> broadcasts(messages) == broadcasts(messages.drop_last()),
{
    law_queue_pushes(s, history, reads, broadcasts(messages));
    if messages.len() > 0 && spec_payload(spec_action(messages.last())) is None {
        assert(broadcasts(messages) =~= broadcasts(messages.drop_last()));
    }
}

impl ChannelMessage {
    /// The request that asks the server to send `message` or to act as it says.
    pub fn from_request(message: SyncMessageType) -> (request: Option<ChannelMessage>)
        ensures
            request == spec_request(message),
    {
        match message {
            SyncMessageType::Null => None,
            SyncMessageType::Stop => Some(ChannelMessage::Stop),
            SyncMessageType::Start => Some(ChannelMessage::Start),
            SyncMessageType::Snap(dirname) => Some(ChannelMessage::Snap(dirname)),
            SyncMessageType::NoFence => Some(ChannelMessage::NoFence),
            SyncMessageType::Fence(budget) => Some(ChannelMessage::Fence(budget)),
            SyncMessageType::Terminate => Some(ChannelMessage::Terminate),
        }
    }

    /// Decides what the server does with this request: `Stop` and `Start`
    /// toggle the stop mark, every other request is broadcast to the guests.
    pub fn into_action(self) -> (action: ServerAction)
        ensures
            action == spec_action(self),
    {
        match self {
            ChannelMessage::Stop => ServerAction::Pause,
            ChannelMessage::Start => ServerAction::Resume,
            ChannelMessage::Snap(dirname) => ServerAction::Broadcast(SyncMessageType::Snap(dirname)),
            ChannelMessage::NoFence => ServerAction::Broadcast(SyncMessageType::NoFence),
            ChannelMessage::Fence(budget) => ServerAction::Broadcast(SyncMessageType::Fence(budget)),
            ChannelMessage::Terminate => ServerAction::Broadcast(SyncMessageType::Terminate),
        }
    }
}

/// A message that travels from the shell to the guests arrives unchanged:
/// except `Stop` and `Start`, which the server acts on itself, every message
/// that the shell sends as a request is broadcast as it was sent.
pub proof fn law_requests_broadcast_unchanged(message: SyncMessageType)
    requires
        message != SyncMessageType::Null,
        message != SyncMessageType::Stop,
        message != SyncMessageType::Start,
    ensures
        spec_request(message) matches Some(request) && spec_action(request)
            == ServerAction::Broadcast(message),
{
}

} // verus!
