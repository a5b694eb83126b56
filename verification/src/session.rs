//! The per-connection session control: one state machine per socket.
//!
//! A session moves `Connecting -> Active -> Closing -> Closed` and never
//! leaves `Closed`.  Inbound frames are translated into the action the
//! owning tasks must perform (reply with a pong, relay the text to the
//! registry, close the socket); every path into `Closing` funnels through
//! a guard so the registry's disconnect is issued exactly once, however
//! many termination triggers race (peer close, read error, heartbeat
//! timeout, external shutdown).

use vstd::prelude::*;

verus! {

/// Where a session stands in its life cycle.
#[derive(Clone, Copy, Debug, PartialEq, Eq, Structural)]
pub enum SessionState {
    Connecting,
    Active,
    Closing,
    Closed,
}

/// One inbound frame, by kind; the payload stays with the caller.
#[derive(Clone, Copy, Debug, PartialEq, Eq, Structural)]
pub enum FrameEvent {
    Ping,
    Pong,
    Text,
    Binary,
    Close,
    ReadError,
}

/// What the owning tasks must do next.
#[derive(Clone, Copy, Debug, PartialEq, Eq, Structural)]
pub enum SessionAction {
    ReplyPong,
    RecordAlive,
    RelayText,
    CloseSocket,
    Ignore,
}

/// The session control block: the state plus the disconnect guard.
#[derive(Clone, Copy, Debug, PartialEq, Eq, Structural)]
pub struct SessionCtl {
    pub state: SessionState,
    pub disconnect_issued: bool,
}

/// The control block never records a disconnect before a close began, and
/// never reaches `Closed` without one.
pub open spec fn ctl_inv(s: SessionCtl) -> bool {
    &&& (s.disconnect_issued ==> s.state == SessionState::Closing || s.state
        == SessionState::Closed)
    &&& (s.state == SessionState::Closed ==> s.disconnect_issued)
}

/// What one inbound frame does to a session.  Frames act only on an
/// active session: a ping asks for a pong, a pong refreshes liveness, a
/// text is relayed to the registry, a binary frame is ignored, and a close
/// frame or read error moves the session to `Closing` with the socket to
/// be closed.  In every other state a frame does nothing.
pub open spec fn frame_step(s: SessionCtl, f: FrameEvent) -> (SessionCtl, SessionAction) {
    if s.state == SessionState::Active {
        match f {
            FrameEvent::Ping => (s, SessionAction::ReplyPong),
            FrameEvent::Pong => (s, SessionAction::RecordAlive),
            FrameEvent::Text => (s, SessionAction::RelayText),
            FrameEvent::Binary => (s, SessionAction::Ignore),
            FrameEvent::Close => (
                SessionCtl { state: SessionState::Closing, ..s },
                SessionAction::CloseSocket,
            ),
            FrameEvent::ReadError => (
                SessionCtl { state: SessionState::Closing, ..s },
                SessionAction::CloseSocket,
            ),
        }
    } else {
        (s, SessionAction::Ignore)
    }
}

/// What an external close trigger (heartbeat timeout, shutdown) does: an
/// active session begins closing; any other state is left alone.
pub open spec fn close_step(s: SessionCtl) -> SessionCtl {
    if s.state == SessionState::Active {
        SessionCtl { state: SessionState::Closing, ..s }
    } else {
        s
    }
}

/// Whether the disconnect duty falls to the caller now: only in
/// `Closing`, and only the first time it is asked.
pub open spec fn disconnect_step(s: SessionCtl) -> (SessionCtl, bool) {
    if s.state == SessionState::Closing && !s.disconnect_issued {
        (SessionCtl { disconnect_issued: true, ..s }, true)
    } else {
        (s, false)
    }
}

impl SessionCtl {
    /// A fresh control block for a connection being set up.
    pub fn new() -> (r: SessionCtl)
        ensures
            r.state == SessionState::Connecting,
            !r.disconnect_issued,
            ctl_inv(r),
    {
        SessionCtl { state: SessionState::Connecting, disconnect_issued: false }
    }

    /// Marks registration with the registry complete: the session is live.
    pub fn activate(&mut self)
        requires
            ctl_inv(*old(self)),
            old(self).state == SessionState::Connecting,
        ensures
            ctl_inv(*final(self)),
            final(self).state == SessionState::Active,
            final(self).disconnect_issued == old(self).disconnect_issued,
    {
        self.state = SessionState::Active;
    }

    /// Feeds one inbound frame through the state machine and returns the
    /// action the caller must perform.
    pub fn on_frame(&mut self, f: FrameEvent) -> (a: SessionAction)
        requires
            ctl_inv(*old(self)),
        ensures
            ctl_inv(*final(self)),
            (*final(self), a) == frame_step(*old(self), f),
    {
        match self.state {
            SessionState::Active => {
                match f {
                    FrameEvent::Ping => SessionAction::ReplyPong,
                    FrameEvent::Pong => SessionAction::RecordAlive,
                    FrameEvent::Text => SessionAction::RelayText,
                    FrameEvent::Binary => SessionAction::Ignore,
                    FrameEvent::Close => {
                        self.state = SessionState::Closing;
                        SessionAction::CloseSocket
                    },
                    FrameEvent::ReadError => {
                        self.state = SessionState::Closing;
                        SessionAction::CloseSocket
                    },
                }
            },
            _ => SessionAction::Ignore,
        }
    }

    /// Applies an external close trigger.
    pub fn begin_close(&mut self)
        requires
            ctl_inv(*old(self)),
        ensures
            ctl_inv(*final(self)),
            *final(self) == close_step(*old(self)),
    {
        match self.state {
            SessionState::Active => {
                self.state = SessionState::Closing;
            },
            _ => {},
        }
    }

    /// Claims the disconnect duty.  Returns true exactly when the session
    /// is closing and nobody claimed the duty before; the claim is
    /// recorded, so racing termination paths disconnect once.
    pub fn should_issue_disconnect(&mut self) -> (r: bool)
        requires
            ctl_inv(*old(self)),
        ensures
            ctl_inv(*final(self)),
            (*final(self), r) == disconnect_step(*old(self)),
    {
        match self.state {
            SessionState::Closing => {
                if !self.disconnect_issued {
                    self.disconnect_issued = true;
                    true
                } else {
                    false
                }
            },
            _ => false,
        }
    }

    /// Completes the teardown after the disconnect was issued and the
    /// socket is gone.
    pub fn finish_close(&mut self)
        requires
            ctl_inv(*old(self)),
            old(self).state == SessionState::Closing,
            old(self).disconnect_issued,
        ensures
            ctl_inv(*final(self)),
            final(self).state == SessionState::Closed,
            final(self).disconnect_issued,
    {
        self.state = SessionState::Closed;
    }
}

/// Anything that can happen to a session control block.
pub ghost enum CtlEvent {
    Frame(FrameEvent),
    CloseTrigger,
    DisconnectQuery,
    Finish,
}

/// One step of the control block under any event; the flag reports
/// whether this step handed out the disconnect duty.
pub open spec fn ctl_step(s: SessionCtl, e: CtlEvent) -> (SessionCtl, bool) {
    match e {
        CtlEvent::Frame(f) => (frame_step(s, f).0, false),
        CtlEvent::CloseTrigger => (close_step(s), false),
        CtlEvent::DisconnectQuery => disconnect_step(s),
        CtlEvent::Finish => (
            if s.state == SessionState::Closing && s.disconnect_issued {
                SessionCtl { state: SessionState::Closed, ..s }
            } else {
                s
            },
            false,
        ),
    }
}

/// The control block after a whole history of events.
pub open spec fn ctl_replay(s: SessionCtl, evs: Seq<CtlEvent>) -> SessionCtl
    decreases evs.len(),
{
    if evs.len() == 0 {
        s
    } else {
        ctl_replay(ctl_step(s, evs.first()).0, evs.drop_first())
    }
}

/// How many steps of a history hand out the disconnect duty.
pub open spec fn disconnect_count(s: SessionCtl, evs: Seq<CtlEvent>) -> int
    decreases evs.len(),
{
    if evs.len() == 0 {
        0
    } else {
        (if ctl_step(s, evs.first()).1 {
            1int
        } else {
            0int
        }) + disconnect_count(ctl_step(s, evs.first()).0, evs.drop_first())
    }
}

/// `Closed` is final: no event of any history moves a closed session.
pub proof fn lemma_closed_is_final(s: SessionCtl, evs: Seq<CtlEvent>)
    requires
        s.state == SessionState::Closed,
    ensures
        ctl_replay(s, evs) == s,
    decreases evs.len(),
{
    if evs.len() > 0 {
        assert(ctl_step(s, evs.first()).0 == s);
        lemma_closed_is_final(s, evs.drop_first());
    }
}

/// Once the disconnect duty was handed out, no later event hands it out
/// again.
pub proof fn lemma_no_disconnect_once_issued(s: SessionCtl, evs: Seq<CtlEvent>)
    requires
        s.disconnect_issued,
    ensures
        disconnect_count(s, evs) == 0,
    decreases evs.len(),
{
    if evs.len() > 0 {
        assert(ctl_step(s, evs.first()).0.disconnect_issued);
        assert(!ctl_step(s, evs.first()).1);
        lemma_no_disconnect_once_issued(ctl_step(s, evs.first()).0, evs.drop_first());
    }
}

/// However many termination triggers race, a session hands out the
/// disconnect duty at most once over any history of events.
pub proof fn lemma_disconnect_at_most_once(s: SessionCtl, evs: Seq<CtlEvent>)
    ensures
        0 <= disconnect_count(s, evs) <= 1,
        s.disconnect_issued ==> disconnect_count(s, evs) == 0,
    decreases evs.len(),
{
    if s.disconnect_issued {
        lemma_no_disconnect_once_issued(s, evs);
    } else if evs.len() > 0 {
        let s1 = ctl_step(s, evs.first()).0;
        if ctl_step(s, evs.first()).1 {
            assert(s1.disconnect_issued);
            lemma_no_disconnect_once_issued(s1, evs.drop_first());
        } else {
            lemma_disconnect_at_most_once(s1, evs.drop_first());
        }
    }
}

/// Every step keeps the control block's invariant.
pub proof fn lemma_step_keeps_inv(s: SessionCtl, e: CtlEvent)
    requires
        ctl_inv(s),
    ensures
        ctl_inv(ctl_step(s, e).0),
{
}

/// The duty flag is set only by a counted step: a history that ends with
/// the flag set either started with it or handed the duty out on the way.
pub proof fn lemma_issued_implies_counted(s: SessionCtl, evs: Seq<CtlEvent>)
    ensures
        ctl_replay(s, evs).disconnect_issued ==> s.disconnect_issued || disconnect_count(s, evs)
            >= 1,
    decreases evs.len(),
{
    if evs.len() > 0 {
        let s1 = ctl_step(s, evs.first()).0;
        lemma_issued_implies_counted(s1, evs.drop_first());
        lemma_disconnect_at_most_once(s1, evs.drop_first());
        if !ctl_step(s, evs.first()).1 {
            assert(s1.disconnect_issued == s.disconnect_issued);
        }
    }
}

/// The invariant survives any history.
pub proof fn lemma_replay_keeps_inv(s: SessionCtl, evs: Seq<CtlEvent>)
    requires
        ctl_inv(s),
    ensures
        ctl_inv(ctl_replay(s, evs)),
    decreases evs.len(),
{
    if evs.len() > 0 {
        lemma_step_keeps_inv(s, evs.first());
        lemma_replay_keeps_inv(ctl_step(s, evs.first()).0, evs.drop_first());
    }
}

/// A session that was torn down disconnected exactly once: any history
/// that carries a fresh control block to `Closed` hands the duty out one
/// single time.
pub proof fn lemma_closed_means_one_disconnect(s: SessionCtl, evs: Seq<CtlEvent>)
    requires
        ctl_inv(s),
        !s.disconnect_issued,
        ctl_replay(s, evs).state == SessionState::Closed,
    ensures
        disconnect_count(s, evs) == 1,
{
    lemma_replay_keeps_inv(s, evs);
    assert(ctl_replay(s, evs).disconnect_issued);
    lemma_issued_implies_counted(s, evs);
    lemma_disconnect_at_most_once(s, evs);
}

} // verus!
