//! Frames and control messages exchanged with a peer, the actions a session
//! asks its driver to perform, and their mathematical views.

use vstd::prelude::*;

verus! {

/// A control message, carried in a text frame.
#[derive(Clone, Debug, PartialEq, Eq)]
pub enum Message {
    /// Client to server: a file named `file` of `size` bytes follows.
    File { file: String, size: u64 },
    /// Server to client: the session identifier, sent once per completed file.
    Link { link: String },
}

pub enum MessageView {
    File { file: Seq<char>, size: u64 },
    Link { link: Seq<char> },
}

impl View for Message {
    type V = MessageView;

    open spec fn view(&self) -> MessageView {
        match self {
            Message::File { file, size } => MessageView::File { file: file@, size: *size },
            Message::Link { link } => MessageView::Link { link: link@ },
        }
    }
}

/// What the driver observed and hands to the session. Times are milliseconds
/// on a monotonic clock.
#[derive(Clone, Debug, PartialEq, Eq)]
pub enum Event {
    /// The heartbeat timer fired at `now`.
    Tick { now: u64 },
    /// Sending the heartbeat probe to the peer failed.
    ProbeFailed,
    /// A text frame; `None` where it is not a well-formed control message.
    Text(Option<Message>),
    /// A binary frame.
    Binary(Vec<u8>),
    /// The peer pinged at `now`.
    Ping { payload: Vec<u8>, now: u64 },
    /// The peer sent a pong at `now`.
    Pong { now: u64 },
    /// The peer sent a close frame.
    Close,
    /// Any other frame.
    Other,
    /// Opening or writing a file failed.
    IoFailed,
    /// A message queued for the peer by another producer.
    Outbound(Message),
}

pub enum EventView {
    Tick { now: u64 },
    ProbeFailed,
    Text(Option<MessageView>),
    Binary(Seq<u8>),
    Ping { payload: Seq<u8>, now: u64 },
    Pong { now: u64 },
    Close,
    Other,
    IoFailed,
    Outbound(MessageView),
}

impl View for Event {
    type V = EventView;

    open spec fn view(&self) -> EventView {
        match self {
            Event::Tick { now } => EventView::Tick { now: *now },
            Event::ProbeFailed => EventView::ProbeFailed,
            Event::Text(m) => EventView::Text(
                match m {
                    Some(m) => Some(m@),
                    None => None,
                },
            ),
            Event::Binary(b) => EventView::Binary(b@),
            Event::Ping { payload, now } => EventView::Ping { payload: payload@, now: *now },
            Event::Pong { now } => EventView::Pong { now: *now },
            Event::Close => EventView::Close,
            Event::Other => EventView::Other,
            Event::IoFailed => EventView::IoFailed,
            Event::Outbound(m) => EventView::Outbound(m@),
        }
    }
}

/// How a session ends.
#[derive(Clone, Copy, PartialEq, Eq, Debug, Structural)]
pub enum CloseKind {
    /// Without a reason: protocol violation or dead peer.
    Abrupt,
    /// Echoing the reason the peer gave in its close frame.
    EchoPeer,
    /// With an error reason: a file could not be opened or written.
    Failure,
}

/// What the session asks its driver to do, in order.
#[derive(Clone, Debug, PartialEq, Eq)]
pub enum Action {
    /// Remove the session's workspace directory and all it holds, if it exists.
    ResetWorkspace,
    /// Create the workspace if needed, then open `file` in it for appending,
    /// creating it if absent.
    OpenFile { file: String },
    /// Append `bytes` to `file` in the workspace.
    Append { file: String, bytes: Vec<u8> },
    /// Send a ping to the peer; report `Event::ProbeFailed` if that fails.
    SendPing,
    /// Answer a ping, best effort.
    SendPong { payload: Vec<u8> },
    /// Send a control message to the peer, best effort.
    SendText(Message),
    /// Close the connection.
    Close(CloseKind),
}

pub enum ActionView {
    ResetWorkspace,
    OpenFile { file: Seq<char> },
    Append { file: Seq<char>, bytes: Seq<u8> },
    SendPing,
    SendPong { payload: Seq<u8> },
    SendText(MessageView),
    Close(CloseKind),
}

impl View for Action {
    type V = ActionView;

    open spec fn view(&self) -> ActionView {
        match self {
            Action::ResetWorkspace => ActionView::ResetWorkspace,
            Action::OpenFile { file } => ActionView::OpenFile { file: file@ },
            Action::Append { file, bytes } => ActionView::Append { file: file@, bytes: bytes@ },
            Action::SendPing => ActionView::SendPing,
            Action::SendPong { payload } => ActionView::SendPong { payload: payload@ },
            Action::SendText(m) => ActionView::SendText(m@),
            Action::Close(k) => ActionView::Close(*k),
        }
    }
}

/// The views of a list of actions.
pub open spec fn actions_view(a: Seq<Action>) -> Seq<ActionView> {
    a.map_values(|x: Action| x@)
}

} // verus!
