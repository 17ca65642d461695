//! The per-connection transfer state machine: announcements queue files,
//! binary frames fill the file at the head of the queue, and heartbeats keep
//! the session alive. The session decides; its driver performs the actions.

use vstd::prelude::*;
use crate::protocol::{Action, ActionView, CloseKind, Event, EventView, Message, MessageView, actions_view};
use crate::token::{hashed_token, is_token, uid};

verus! {

/// Period of the heartbeat timer, in milliseconds.
pub const HEARTBEAT_TICK_MS: u64 = 5000;

/// A peer silent for longer than this many milliseconds is dropped.
pub const TIMEOUT_MS: u64 = 30000;

/// An announced file whose bytes have not all arrived.
#[derive(Clone, Debug, PartialEq, Eq)]
pub struct PendingWrite {
    /// Name of the file inside the workspace, as the client sent it.
    pub file: String,
    /// Size the announcement declared.
    pub size: u64,
    /// Bytes appended so far.
    pub written: u64,
}

pub struct PendingView {
    pub file: Seq<char>,
    pub size: u64,
    pub written: u64,
}

impl View for PendingWrite {
    type V = PendingView;

    open spec fn view(&self) -> PendingView {
        PendingView { file: self.file@, size: self.size, written: self.written }
    }
}

/// One connection's state.
pub struct Session {
    id: String,
    pending: Vec<PendingWrite>,
    last_heartbeat: u64,
    closed: bool,
}

pub struct SessionView {
    pub id: Seq<char>,
    pub pending: Seq<PendingView>,
    pub last_heartbeat: u64,
    pub closed: bool,
}

impl View for Session {
    type V = SessionView;

    closed spec fn view(&self) -> SessionView {
        SessionView {
            id: self.id@,
            pending: self.pending@.map_values(|p: PendingWrite| p@),
            last_heartbeat: self.last_heartbeat,
            closed: self.closed,
        }
    }
}

/// No pending file has received more than its declared size.
pub open spec fn pending_wf(q: Seq<PendingView>) -> bool {
    forall|i: int| 0 <= i < q.len() ==> (#[trigger] q[i]).written <= q[i].size
}

/// The state of a session named `id` before any frame arrived, at time 0.
pub open spec fn initial(id: Seq<char>) -> SessionView {
    SessionView { id, pending: Seq::empty(), last_heartbeat: 0, closed: false }
}

pub open spec fn closed_from(s: SessionView) -> SessionView {
    SessionView { id: s.id, pending: s.pending, last_heartbeat: s.last_heartbeat, closed: true }
}

pub open spec fn with_pending(s: SessionView, q: Seq<PendingView>) -> SessionView {
    SessionView { id: s.id, pending: q, last_heartbeat: s.last_heartbeat, closed: s.closed }
}

pub open spec fn with_heartbeat(s: SessionView, now: u64) -> SessionView {
    SessionView { id: s.id, pending: s.pending, last_heartbeat: now, closed: s.closed }
}

/// Whether more than the timeout has passed between `last` and `now`
/// (a clock reading before `last` counts as no time passed).
pub open spec fn timed_out(last: u64, now: u64) -> bool {
    now > last && now - last > TIMEOUT_MS
}

/// A binary frame is applied to the head of the queue. It is a protocol
/// violation, which ends the session without a reason, when nothing is
/// pending or when the frame would take the head beyond its declared size.
pub open spec fn on_binary(s: SessionView, b: Seq<u8>) -> (SessionView, Seq<ActionView>) {
    if s.pending.len() == 0 || b.len() > s.pending[0].size - s.pending[0].written {
        (closed_from(s), seq![ActionView::Close(CloseKind::Abrupt)])
    } else {
        let h = s.pending[0];
        let w = h.written + b.len();
        let append = ActionView::Append { file: h.file, bytes: b };
        if w == h.size {
            (
                with_pending(s, s.pending.drop_first()),
                seq![append, ActionView::SendText(MessageView::Link { link: s.id })],
            )
        } else {
            (
                with_pending(
                    s,
                    s.pending.update(0, PendingView { file: h.file, size: h.size, written: w as u64 }),
                ),
                seq![append],
            )
        }
    }
}

/// The session's response to one event: its next state and the actions it
/// asks for. A closed session ignores everything.
pub open spec fn next(s: SessionView, e: EventView) -> (SessionView, Seq<ActionView>) {
    if s.closed {
        (s, Seq::empty())
    } else {
        match e {
            EventView::Tick { now } => if timed_out(s.last_heartbeat, now) {
                (closed_from(s), seq![ActionView::Close(CloseKind::Abrupt)])
            } else {
                (s, seq![ActionView::SendPing])
            },
            EventView::ProbeFailed => (closed_from(s), seq![ActionView::Close(CloseKind::Abrupt)]),
            EventView::Text(Some(MessageView::File { file, size })) => (
                with_pending(s, s.pending.push(PendingView { file, size, written: 0 })),
                seq![ActionView::OpenFile { file }],
            ),
            EventView::Text(_) => (s, Seq::empty()),
            EventView::Binary(b) => on_binary(s, b),
            EventView::Ping { payload, now } => (
                with_heartbeat(s, now),
                seq![ActionView::SendPong { payload }],
            ),
            EventView::Pong { now } => (with_heartbeat(s, now), Seq::empty()),
            EventView::Close => (closed_from(s), seq![ActionView::Close(CloseKind::EchoPeer)]),
            EventView::Other => (s, Seq::empty()),
            EventView::IoFailed => (closed_from(s), seq![ActionView::Close(CloseKind::Failure)]),
            EventView::Outbound(m) => (s, seq![ActionView::SendText(m)]),
        }
    }
}

impl Session {
    pub open spec fn wf(&self) -> bool {
        pending_wf(self@.pending)
    }

    /// A session named `id`, with the one action that clears any stale
    /// workspace left under that name.
    pub fn new(id: String) -> (r: (Session, Vec<Action>))
        ensures
            r.0.wf(),
            r.0@ == initial(id@),
            actions_view(r.1@) == seq![ActionView::ResetWorkspace],
    {
        let s = Session { id, pending: Vec::new(), last_heartbeat: 0, closed: false };
        assert(s@.pending =~= Seq::<PendingView>::empty());
        let a = vec![Action::ResetWorkspace];
        assert(actions_view(a@) =~= seq![ActionView::ResetWorkspace]);
        (s, a)
    }

    /// A session under a freshly drawn identifier, as `new` gives it.
    pub fn start() -> (r: (Session, Vec<Action>))
        ensures
            r.0.wf(),
            is_token(r.0@.id),
            exists|b: Seq<u8>| b.len() == 8 && r.0@.id == hashed_token(b),
            r.0@ == initial(r.0@.id),
            actions_view(r.1@) == seq![ActionView::ResetWorkspace],
    {
        Session::new(uid())
    }

    /// The identifier that names this session's workspace.
    pub fn identifier(&self) -> (r: &str)
        ensures
            r@ == self@.id,
    {
        self.id.as_str()
    }

    /// The files announced and not yet complete, oldest first.
    pub fn pending(&self) -> (r: &Vec<PendingWrite>)
        ensures
            r@.map_values(|p: PendingWrite| p@) == self@.pending,
    {
        &self.pending
    }

    /// When the peer last showed signs of life.
    pub fn last_heartbeat(&self) -> (r: u64)
        ensures
            r == self@.last_heartbeat,
    {
        self.last_heartbeat
    }

    /// Whether the session has ended.
    pub fn is_closed(&self) -> (r: bool)
        ensures
            r == self@.closed,
    {
        self.closed
    }

    fn close_with(&mut self, kind: CloseKind) -> (r: Vec<Action>)
        ensures
            final(self)@ == closed_from(old(self)@),
            actions_view(r@) == seq![ActionView::Close(kind)],
    {
        self.closed = true;
        let a = vec![Action::Close(kind)];
        assert(actions_view(a@) =~= seq![ActionView::Close(kind)]);
        a
    }

    fn on_binary(&mut self, bytes: Vec<u8>) -> (r: Vec<Action>)
        requires
            old(self).wf(),
            !old(self)@.closed,
        ensures
            final(self).wf(),
            (final(self)@, actions_view(r@)) == on_binary(old(self)@, bytes@),
    {
        let ghost s = self@;
        if self.pending.len() == 0 {
            return self.close_with(CloseKind::Abrupt);
        }
        assert(s.pending[0] == self.pending@[0]@);
        let size = self.pending[0].size;
        let written = self.pending[0].written;
        let n = bytes.len() as u64;
        if n > size - written {
            return self.close_with(CloseKind::Abrupt);
        }
        let file = self.pending[0].file.clone();
        let w = written + n;
        if w == size {
            self.pending.remove(0);
            assert(self@.pending =~= s.pending.drop_first());
            let a = vec![
                Action::Append { file, bytes },
                Action::SendText(Message::Link { link: self.id.clone() }),
            ];
            assert(actions_view(a@) =~= on_binary(s, bytes@).1);
            a
        } else {
            self.pending.set(0, PendingWrite { file: file.clone(), size, written: w });
            assert(self@.pending =~= s.pending.update(
                0,
                PendingView { file: s.pending[0].file, size, written: w },
            ));
            let a = vec![Action::Append { file, bytes }];
            assert(actions_view(a@) =~= on_binary(s, bytes@).1);
            a
        }
    }

    /// Applies one event: the session moves to its next state and returns
    /// the actions its driver must perform, in order.
    pub fn step(&mut self, ev: Event) -> (r: Vec<Action>)
        requires
            old(self).wf(),
        ensures
            final(self).wf(),
            (final(self)@, actions_view(r@)) == next(old(self)@, ev@),
    {
        let ghost s = self@;
        let ghost e = ev@;
        if self.closed {
            let a: Vec<Action> = Vec::new();
            assert(actions_view(a@) =~= Seq::<ActionView>::empty());
            return a;
        }
        match ev {
            Event::Tick { now } => {
                if now > self.last_heartbeat && now - self.last_heartbeat > TIMEOUT_MS {
                    self.close_with(CloseKind::Abrupt)
                } else {
                    let a = vec![Action::SendPing];
                    assert(actions_view(a@) =~= seq![ActionView::SendPing]);
                    a
                }
            },
            Event::ProbeFailed => self.close_with(CloseKind::Abrupt),
            Event::Text(Some(Message::File { file, size })) => {
                let name = file.clone();
                self.pending.push(PendingWrite { file, size, written: 0 });
                assert(self@.pending =~= s.pending.push(PendingView { file: name@, size, written: 0 }));
                let a = vec![Action::OpenFile { file: name }];
                assert(actions_view(a@) =~= next(s, e).1);
                a
            },
            Event::Text(_) => {
                let a: Vec<Action> = Vec::new();
                assert(actions_view(a@) =~= Seq::<ActionView>::empty());
                a
            },
            Event::Binary(bytes) => self.on_binary(bytes),
            Event::Ping { payload, now } => {
                self.last_heartbeat = now;
                assert(self@.pending =~= s.pending);
                let a = vec![Action::SendPong { payload }];
                assert(actions_view(a@) =~= next(s, e).1);
                a
            },
            Event::Pong { now } => {
                self.last_heartbeat = now;
                assert(self@.pending =~= s.pending);
                let a: Vec<Action> = Vec::new();
                assert(actions_view(a@) =~= Seq::<ActionView>::empty());
                a
            },
            Event::Close => self.close_with(CloseKind::EchoPeer),
            Event::Other => {
                let a: Vec<Action> = Vec::new();
                assert(actions_view(a@) =~= Seq::<ActionView>::empty());
                a
            },
            Event::IoFailed => self.close_with(CloseKind::Failure),
            Event::Outbound(m) => {
                let a = vec![Action::SendText(m)];
                assert(actions_view(a@) =~= next(s, e).1);
                a
            },
        }
    }
}

} // verus!
