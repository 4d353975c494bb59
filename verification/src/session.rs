//! One connection: send a ping, wait for the pong, report the round trip,
//! repeat until the channel closes or fails.
//!
//! The session neither touches the socket nor reads the clock. Its driver
//! tells it what happened ([`Event`]) and when, and carries out the
//! [`Effect`]s it answers with, in order. Sending is best effort: the driver
//! drops a send's failure, since the receive that follows finds a closed
//! channel by itself.

use crate::message::{decode, decode_spec, ClientMsg, DecodeError, Frame, FrameView, ServerMsg};
use crate::users::{distinct_ids, placed, released, ServerState, User};
use vstd::prelude::*;

verus! {

/// Why a session ended with a diagnostic.
#[derive(Clone, Copy, Debug, PartialEq, Eq, Structural)]
pub enum SessionError {
    /// An inbound payload was not a client message.
    Decode(DecodeError),
    /// The channel failed while reading.
    Transport,
}

/// Where a session stands.
#[derive(Clone, Copy, Debug, PartialEq, Eq, Structural)]
pub enum Phase {
    /// The channel is not yet known to be up; nothing was sent.
    Start,
    /// One ping is out and the driver is, or is about to be, receiving.
    AwaitingPong,
    /// Over. `None` after an orderly close, otherwise the error that ended it.
    Terminated(Option<SessionError>),
}

/// What the driver observed.
#[derive(Clone, Debug, PartialEq, Eq)]
pub enum Event {
    /// The channel was established.
    Upgraded,
    /// A receive gave a data payload with these members.
    Frame(Frame),
    /// A receive gave a data payload that could not be read as members.
    Malformed,
    /// A receive gave a frame of the transport itself (its own ping, pong or
    /// close notice).
    Control,
    /// A receive failed.
    TransportError,
    /// A receive found the channel closed.
    Closed,
}

/// Mathematical value of an [`Event`].
pub enum EventView {
    Upgraded,
    Frame(FrameView),
    Malformed,
    Control,
    TransportError,
    Closed,
}

impl View for Event {
    type V = EventView;

    open spec fn view(&self) -> EventView {
        match self {
            Event::Upgraded => EventView::Upgraded,
            Event::Frame(frame) => EventView::Frame(frame@),
            Event::Malformed => EventView::Malformed,
            Event::Control => EventView::Control,
            Event::TransportError => EventView::TransportError,
            Event::Closed => EventView::Closed,
        }
    }
}

/// What the driver must do next.
#[derive(Clone, Copy, Debug, PartialEq, Eq, Structural)]
pub enum Effect {
    /// Emit a round-trip time, in nanoseconds.
    Report(u64),
    /// Send this message and ignore a failure.
    Send(ServerMsg),
    /// Wait for the next inbound frame and come back with what it was.
    Receive,
    /// Write a diagnostic line for this error.
    Diagnose(SessionError),
}

/// State of one connection. Times are nanoseconds on the driver's monotonic
/// clock.
#[derive(Clone, Copy, Debug, PartialEq, Eq, Structural)]
pub struct Session {
    /// Identifier under which this connection's user is known.
    pub user: u128,
    pub phase: Phase,
    /// When the ping that is out was sent.
    pub start: u64,
}

/// A session, the user table and the effects produced so far.
pub struct Outcome {
    pub session: Session,
    pub users: Seq<User>,
    pub effects: Seq<Effect>,
}

/// Time from `start` to `now`, zero if the clock reads earlier than `start`.
pub open spec fn elapsed_spec(start: u64, now: u64) -> u64 {
    if now >= start {
        (now - start) as u64
    } else {
        0
    }
}

/// Computes [`elapsed_spec`].
pub fn elapsed(start: u64, now: u64) -> (time: u64)
    ensures
        time == elapsed_spec(start, now),
{
    if now >= start {
        now - start
    } else {
        0
    }
}

/// The end of a session: its user is released, and an error is diagnosed.
pub open spec fn ended(session: Session, users: Seq<User>, error: Option<SessionError>) -> Outcome {
    Outcome {
        session: Session { phase: Phase::Terminated(error), ..session },
        users: released(users, session.user),
        effects: match error {
            Some(e) => seq![Effect::Diagnose(e)],
            None => Seq::empty(),
        },
    }
}

/// Nothing changes and nothing is to be done.
pub open spec fn ignored(session: Session, users: Seq<User>) -> Outcome {
    Outcome { session, users, effects: Seq::empty() }
}

/// Nothing changes and the driver goes back to receiving.
pub open spec fn keep_waiting(session: Session, users: Seq<User>) -> Outcome {
    Outcome { session, users, effects: seq![Effect::Receive] }
}

/// A ping goes out at `now`, after `before` was done.
pub open spec fn pinged(
    session: Session,
    users: Seq<User>,
    now: u64,
    before: Seq<Effect>,
) -> Outcome {
    Outcome {
        session: Session { phase: Phase::AwaitingPong, start: now, ..session },
        users,
        effects: before + seq![Effect::Send(ServerMsg::Ping), Effect::Receive],
    }
}

/// The transition function: what `event`, observed at `now`, does to a
/// session and the user table, and what the driver has to do for it.
pub open spec fn step_spec(
    session: Session,
    users: Seq<User>,
    event: EventView,
    now: u64,
) -> Outcome {
    match session.phase {
        Phase::Start => match event {
            EventView::Upgraded => pinged(session, users, now, Seq::empty()),
            _ => ignored(session, users),
        },
        Phase::AwaitingPong => match event {
            EventView::Upgraded => ignored(session, users),
            EventView::Frame(frame) => match decode_spec(frame) {
                Ok(ClientMsg::Pong) => pinged(
                    session,
                    users,
                    now,
                    seq![Effect::Report(elapsed_spec(session.start, now))],
                ),
                Ok(ClientMsg::Coord(c)) => keep_waiting(
                    session,
                    placed(users, session.user, c),
                ),
                Err(e) => ended(session, users, Some(SessionError::Decode(e))),
            },
            EventView::Malformed => ended(
                session,
                users,
                Some(SessionError::Decode(DecodeError::Malformed)),
            ),
            EventView::Control => keep_waiting(session, users),
            EventView::TransportError => ended(session, users, Some(SessionError::Transport)),
            EventView::Closed => ended(session, users, None),
        },
        Phase::Terminated(_) => ignored(session, users),
    }
}

impl Session {
    /// A session for the connection of `user`, before anything was sent.
    pub fn new(user: u128) -> (session: Session)
        ensures
            session == (Session { user, phase: Phase::Start, start: 0 }),
    {
        Session { user, phase: Phase::Start, start: 0 }
    }

    /// Whether the session is over.
    pub fn is_terminated(&self) -> (over: bool)
        ensures
            over == (self.phase is Terminated),
    {
        match self.phase {
            Phase::Terminated(_) => true,
            _ => false,
        }
    }

    fn ping(&mut self, now: u64, effects: &mut Vec<Effect>)
        ensures
            *final(self) == (Session { phase: Phase::AwaitingPong, start: now, ..*old(self) }),
            final(effects)@ == old(effects)@ + seq![Effect::Send(ServerMsg::Ping), Effect::Receive],
    {
        self.phase = Phase::AwaitingPong;
        self.start = now;
        effects.push(Effect::Send(ServerMsg::Ping));
        effects.push(Effect::Receive);
    }

    fn end(&mut self, users: &mut ServerState, error: Option<SessionError>, effects: &mut Vec<Effect>)
        requires
            old(effects)@.len() == 0,
        ensures
            *final(self) == ended(*old(self), old(users)@, error).session,
            final(users)@ == ended(*old(self), old(users)@, error).users,
            final(effects)@ == ended(*old(self), old(users)@, error).effects,
            distinct_ids(final(users)@),
    {
        self.phase = Phase::Terminated(error);
        users.release(self.user);
        if let Some(e) = error {
            effects.push(Effect::Diagnose(e));
        }
    }

    /// Handles one event observed at `now` and returns what the driver has
    /// to do, in order.
    pub fn step(&mut self, users: &mut ServerState, event: &Event, now: u64) -> (effects: Vec<Effect>)
        ensures
            *final(self) == step_spec(*old(self), old(users)@, event@, now).session,
            final(users)@ == step_spec(*old(self), old(users)@, event@, now).users,
            effects@ == step_spec(*old(self), old(users)@, event@, now).effects,
            distinct_ids(final(users)@),
    {
        let mut effects: Vec<Effect> = Vec::new();
        match self.phase {
            Phase::Start => {
                if let Event::Upgraded = event {
                    self.ping(now, &mut effects);
                }
            },
            Phase::AwaitingPong => {
                match event {
                    Event::Upgraded => {},
                    Event::Frame(frame) => {
                        match decode(frame) {
                            Ok(ClientMsg::Pong) => {
                                effects.push(Effect::Report(elapsed(self.start, now)));
                                self.ping(now, &mut effects);
                            },
                            Ok(ClientMsg::Coord(c)) => {
                                users.place(self.user, c);
                                effects.push(Effect::Receive);
                            },
                            Err(e) => {
                                self.end(users, Some(SessionError::Decode(e)), &mut effects);
                            },
                        }
                    },
                    Event::Malformed => {
                        self.end(
                            users,
                            Some(SessionError::Decode(DecodeError::Malformed)),
                            &mut effects,
                        );
                    },
                    Event::Control => {
                        effects.push(Effect::Receive);
                    },
                    Event::TransportError => {
                        self.end(users, Some(SessionError::Transport), &mut effects);
                    },
                    Event::Closed => {
                        self.end(users, None, &mut effects);
                    },
                }
            },
            Phase::Terminated(_) => {},
        }
        proof {
            use_type_invariant(&*users);
        }
        effects
    }
}

} // verus!
