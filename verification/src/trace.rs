//! Whole runs of a session: what a sequence of observations does, and what
//! holds of every such run.

use crate::message::{decode_spec, ClientMsg, Coord, DecodeError, FrameView, ServerMsg};
use crate::session::{
    elapsed_spec, ignored, step_spec, Effect, Event, EventView, Outcome, Phase, Session,
    SessionError,
};
use crate::users::{
    coordinate_in, distinct_ids, has_user, placed, placed_properties, released_properties,
    ServerState, User,
};
use vstd::prelude::*;

verus! {

/// One observation and the clock reading that goes with it.
#[derive(Clone, Debug, PartialEq, Eq)]
pub struct Input {
    pub event: Event,
    pub now: u64,
}

/// Mathematical value of an [`Input`].
pub struct InputView {
    pub event: EventView,
    pub now: u64,
}

impl View for Input {
    type V = InputView;

    open spec fn view(&self) -> InputView {
        InputView { event: self.event@, now: self.now }
    }
}

/// The values of a sequence of inputs.
pub open spec fn views(inputs: Seq<Input>) -> Seq<InputView> {
    Seq::new(inputs.len(), |i: int| inputs[i]@)
}

/// The session and user table after `inputs` were handled one after the
/// other, and every effect that was asked for on the way, in order.
pub open spec fn run_spec(session: Session, users: Seq<User>, inputs: Seq<InputView>) -> Outcome
    decreases inputs.len(),
{
    if inputs.len() == 0 {
        ignored(session, users)
    } else {
        let before = run_spec(session, users, inputs.drop_last());
        let last = step_spec(before.session, before.users, inputs.last().event, inputs.last().now);
        Outcome {
            session: last.session,
            users: last.users,
            effects: before.effects + last.effects,
        }
    }
}

/// The round-trip times among `effects`, in order.
pub open spec fn reports(effects: Seq<Effect>) -> Seq<u64>
    decreases effects.len(),
{
    if effects.len() == 0 {
        Seq::empty()
    } else {
        match effects.last() {
            Effect::Report(d) => reports(effects.drop_last()).push(d),
            _ => reports(effects.drop_last()),
        }
    }
}

/// How many sends are among `effects`.
pub open spec fn sends(effects: Seq<Effect>) -> nat
    decreases effects.len(),
{
    if effects.len() == 0 {
        0
    } else if effects.last() is Send {
        sends(effects.drop_last()) + 1
    } else {
        sends(effects.drop_last())
    }
}

/// Whether `event` is a frame that decodes to a pong.
pub open spec fn is_pong(event: EventView) -> bool {
    event matches EventView::Frame(frame) && decode_spec(frame) matches Ok(ClientMsg::Pong)
}

/// Whether `event` is a payload that is no client message.
pub open spec fn is_undecodable(event: EventView) -> bool {
    ||| event is Malformed
    ||| event matches EventView::Frame(frame) && decode_spec(frame) is Err
}

/// Whether `event` is something other than a pong that a waiting session
/// takes note of and waits on: a position, or a frame of the transport.
pub open spec fn is_aside(event: EventView) -> bool {
    ||| event is Control
    ||| event matches EventView::Frame(frame) && decode_spec(frame) matches Ok(ClientMsg::Coord(_))
}

/// How many of `inputs` are pongs that reach the session while it waits.
pub open spec fn pongs_answered(session: Session, users: Seq<User>, inputs: Seq<InputView>) -> nat
    decreases inputs.len(),
{
    if inputs.len() == 0 {
        0
    } else {
        let before = run_spec(session, users, inputs.drop_last());
        let earlier = pongs_answered(session, users, inputs.drop_last());
        if before.session.phase is AwaitingPong && is_pong(inputs.last().event) {
            earlier + 1
        } else {
            earlier
        }
    }
}

/// When the ping was sent that the `k`-th of `inputs` answers, if nothing
/// but pongs reach a session whose first ping went out at `session.start`:
/// the moment the pong before it arrived.
pub open spec fn ping_sent_at(session: Session, inputs: Seq<InputView>, k: int) -> u64 {
    if k == 0 {
        session.start
    } else {
        inputs[k - 1].now
    }
}

/// Every send among `effects` is a ping that is directly followed by a
/// receive, and every report is directly followed by such a ping.
pub open spec fn paced(effects: Seq<Effect>) -> bool {
    &&& forall|i: int|
        0 <= i < effects.len() && (#[trigger] effects[i]) is Send ==> {
            &&& effects[i] == Effect::Send(ServerMsg::Ping)
            &&& i + 1 < effects.len()
            &&& effects[i + 1] == Effect::Receive
        }
    &&& forall|i: int|
        0 <= i < effects.len() && (#[trigger] effects[i]) is Report ==> {
            &&& i + 1 < effects.len()
            &&& effects[i + 1] == Effect::Send(ServerMsg::Ping)
        }
}

impl Session {
    /// Handles `inputs` one after the other, as a driver would that found
    /// them in this order, and returns all effects in order.
    pub fn replay(&mut self, users: &mut ServerState, inputs: &Vec<Input>) -> (effects: Vec<Effect>)
        ensures
            *final(self) == run_spec(*old(self), old(users)@, views(inputs@)).session,
            final(users)@ == run_spec(*old(self), old(users)@, views(inputs@)).users,
            effects@ == run_spec(*old(self), old(users)@, views(inputs@)).effects,
            distinct_ids(final(users)@),
    {
        let ghost session0 = *self;
        let ghost users0 = users@;
        let ghost all = views(inputs@);
        let mut effects: Vec<Effect> = Vec::new();
        let mut i: usize = 0;
        while i < inputs.len()
            invariant
                i <= inputs.len(),
                all == views(inputs@),
                *self == run_spec(session0, users0, all.take(i as int)).session,
                users@ == run_spec(session0, users0, all.take(i as int)).users,
                effects@ == run_spec(session0, users0, all.take(i as int)).effects,
            decreases inputs.len() - i,
        {
            let mut more = self.step(users, &inputs[i].event, inputs[i].now);
            effects.append(&mut more);
            proof {
                let next = all.take(i + 1);
                assert(next.drop_last() =~= all.take(i as int));
                assert(next.last() == inputs@[i as int]@);
            }
            i += 1;
        }
        proof {
            assert(all.take(i as int) =~= all);
            use_type_invariant(&*users);
        }
        effects
    }
}

/// The reports of two stretches of effects are those of the first followed
/// by those of the second.
pub proof fn reports_of_concat(a: Seq<Effect>, b: Seq<Effect>)
    ensures
        reports(a + b) == reports(a) + reports(b),
    decreases b.len(),
{
    if b.len() == 0 {
        assert(a + b =~= a);
        assert(reports(a) + reports(b) =~= reports(a));
    } else {
        assert((a + b).drop_last() =~= a + b.drop_last());
        assert((a + b).last() == b.last());
        reports_of_concat(a, b.drop_last());
        match b.last() {
            Effect::Report(d) => {
                assert(reports(a + b) =~= reports(a) + reports(b));
            },
            _ => {},
        }
    }
}

/// The sends of two stretches of effects add up.
pub proof fn sends_of_concat(a: Seq<Effect>, b: Seq<Effect>)
    ensures
        sends(a + b) == sends(a) + sends(b),
    decreases b.len(),
{
    if b.len() == 0 {
        assert(a + b =~= a);
    } else {
        assert((a + b).drop_last() =~= a + b.drop_last());
        assert((a + b).last() == b.last());
        sends_of_concat(a, b.drop_last());
    }
}

/// What one step asks for holds one report at most, and as many sends as
/// reports unless it is the step that opens the session.
proof fn step_counts(session: Session, users: Seq<User>, event: EventView, now: u64)
    ensures
        ({
            let effects = step_spec(session, users, event, now).effects;
            let opens = session.phase is Start && event is Upgraded;
            let answers = session.phase is AwaitingPong && is_pong(event);
            &&& paced(effects)
            &&& reports(effects) == if answers {
                seq![elapsed_spec(session.start, now)]
            } else {
                Seq::<u64>::empty()
            }
            &&& sends(effects) == if opens || answers {
                1nat
            } else {
                0nat
            }
        }),
{
    let effects = step_spec(session, users, event, now).effects;
    let ping = seq![Effect::Send(ServerMsg::Ping), Effect::Receive];
    assert(reports(Seq::<Effect>::empty()) == Seq::<u64>::empty());
    assert(reports(ping) == Seq::<u64>::empty() && sends(ping) == 1) by {
        reveal_with_fuel(reports, 3);
        reveal_with_fuel(sends, 3);
        assert(ping.drop_last() =~= seq![Effect::Send(ServerMsg::Ping)]);
        assert(ping.drop_last().drop_last() =~= Seq::<Effect>::empty());
    }
    if session.phase is Start && event is Upgraded {
        assert(effects =~= ping);
    } else if session.phase is AwaitingPong && is_pong(event) {
        let d = elapsed_spec(session.start, now);
        let report = seq![Effect::Report(d)];
        assert(reports(report) == seq![d] && sends(report) == 0) by {
            reveal_with_fuel(reports, 2);
            reveal_with_fuel(sends, 2);
            assert(report.drop_last() =~= Seq::<Effect>::empty());
            assert(reports(report) =~= seq![d]);
        }
        assert(effects == report + ping);
        reports_of_concat(report, ping);
        sends_of_concat(report, ping);
        assert(reports(report) + reports(ping) =~= seq![d]);
    } else {
        assert(reports(effects) == Seq::<u64>::empty() && sends(effects) == 0) by {
            reveal_with_fuel(reports, 2);
            reveal_with_fuel(sends, 2);
            if effects.len() > 0 {
                assert(effects.len() == 1);
                assert(effects.drop_last() =~= Seq::<Effect>::empty());
            }
        }
    }
}

/// Pacing carries over from two stretches of effects to the two in a row.
proof fn paced_concat(a: Seq<Effect>, b: Seq<Effect>)
    requires
        paced(a),
        paced(b),
    ensures
        paced(a + b),
{
    let c = a + b;
    assert forall|i: int| 0 <= i < c.len() && (#[trigger] c[i]) is Send implies {
        &&& c[i] == Effect::Send(ServerMsg::Ping)
        &&& i + 1 < c.len()
        &&& c[i + 1] == Effect::Receive
    } by {
        if i < a.len() {
            assert(a[i] is Send);
            assert(c[i + 1] == a[i + 1]);
        } else {
            assert(b[i - a.len()] is Send);
            assert(c[i + 1] == b[i - a.len() + 1]);
        }
    }
    assert forall|i: int| 0 <= i < c.len() && (#[trigger] c[i]) is Report implies {
        &&& i + 1 < c.len()
        &&& c[i + 1] == Effect::Send(ServerMsg::Ping)
    } by {
        if i < a.len() {
            assert(a[i] is Report);
            assert(c[i + 1] == a[i + 1]);
        } else {
            assert(b[i - a.len()] is Report);
            assert(c[i + 1] == b[i - a.len() + 1]);
        }
    }
}

/// In every run, from any state and for any observations, each send is a
/// ping that directly precedes a receive, so no two pings go out without a
/// receive between them; and each measurement is reported directly before
/// the ping of the next round trip.
pub proof fn pings_are_paced(session: Session, users: Seq<User>, inputs: Seq<InputView>)
    ensures
        paced(run_spec(session, users, inputs).effects),
        ({
            let effects = run_spec(session, users, inputs).effects;
            forall|i: int, j: int|
                0 <= i < j < effects.len() && (#[trigger] effects[i]) is Send
                    && (#[trigger] effects[j]) is Send
                    ==> exists|k: int| i < k < j && (#[trigger] effects[k]) is Receive
        }),
    decreases inputs.len(),
{
    let effects = run_spec(session, users, inputs).effects;
    if inputs.len() > 0 {
        let before = run_spec(session, users, inputs.drop_last());
        pings_are_paced(session, users, inputs.drop_last());
        step_counts(before.session, before.users, inputs.last().event, inputs.last().now);
        paced_concat(
            before.effects,
            step_spec(before.session, before.users, inputs.last().event, inputs.last().now).effects,
        );
    }
    assert forall|i: int, j: int|
        0 <= i < j < effects.len() && (#[trigger] effects[i]) is Send
            && (#[trigger] effects[j]) is Send
    implies exists|k: int| i < k < j && (#[trigger] effects[k]) is Receive by {
        assert(effects[i + 1] is Receive);
    }
}

/// While only pongs arrive, each one is measured: the run reports as many
/// round-trip times as pongs were received, the k-th being the time from
/// the send of the k-th ping to the arrival of the k-th pong, which is
/// never negative. The session goes on waiting and the users are untouched.
pub proof fn every_pong_is_measured(session: Session, users: Seq<User>, inputs: Seq<InputView>)
    requires
        session.phase is AwaitingPong,
        forall|k: int| 0 <= k < inputs.len() ==> is_pong((#[trigger] inputs[k]).event),
    ensures
        ({
            let out = run_spec(session, users, inputs);
            let times = reports(out.effects);
            &&& times.len() == inputs.len()
            &&& forall|k: int|
                0 <= k < inputs.len() ==> 0 <= #[trigger] times[k] && times[k] == elapsed_spec(
                    ping_sent_at(session, inputs, k),
                    inputs[k].now,
                )
            &&& out.session == (Session {
                start: ping_sent_at(session, inputs, inputs.len() as int),
                ..session
            })
            &&& out.users == users
        }),
    decreases inputs.len(),
{
    if inputs.len() == 0 {
        assert(reports(Seq::<Effect>::empty()) =~= Seq::<u64>::empty());
    } else {
        let earlier = inputs.drop_last();
        let before = run_spec(session, users, earlier);
        every_pong_is_measured(session, users, earlier);
        let last = inputs.last();
        assert(is_pong(inputs[inputs.len() - 1].event));
        step_counts(before.session, before.users, last.event, last.now);
        reports_of_concat(
            before.effects,
            step_spec(before.session, before.users, last.event, last.now).effects,
        );
        let times = reports(run_spec(session, users, inputs).effects);
        assert(times =~= reports(before.effects).push(elapsed_spec(before.session.start, last.now)));
        assert forall|k: int| 0 <= k < inputs.len() implies
            0 <= #[trigger] times[k] && times[k] == elapsed_spec(
                ping_sent_at(session, inputs, k),
                inputs[k].now,
            )
        by {
            if k < earlier.len() {
                assert(times[k] == reports(before.effects)[k]);
                assert(earlier[k] == inputs[k]);
                assert(ping_sent_at(session, earlier, k) == ping_sent_at(session, inputs, k));
            } else {
                assert(before.session.start == ping_sent_at(session, inputs, k));
            }
        }
    }
}

/// In every run there are exactly as many measurements as pongs that
/// reached the waiting session: none is made up and none is lost.
pub proof fn measurements_match_pongs(session: Session, users: Seq<User>, inputs: Seq<InputView>)
    ensures
        reports(run_spec(session, users, inputs).effects).len()
            == pongs_answered(session, users, inputs),
    decreases inputs.len(),
{
    if inputs.len() > 0 {
        let before = run_spec(session, users, inputs.drop_last());
        let last = inputs.last();
        measurements_match_pongs(session, users, inputs.drop_last());
        step_counts(before.session, before.users, last.event, last.now);
        reports_of_concat(
            before.effects,
            step_spec(before.session, before.users, last.event, last.now).effects,
        );
    }
}

/// Whatever else arrives while a ping is out, positions and frames of the
/// transport, leaves the session as it is: the clock is not reset, nothing
/// is measured, nothing is sent, and each such frame sends the driver
/// straight back to receiving.
pub proof fn asides_leave_timing_alone(session: Session, users: Seq<User>, inputs: Seq<InputView>)
    requires
        session.phase is AwaitingPong,
        forall|k: int| 0 <= k < inputs.len() ==> is_aside((#[trigger] inputs[k]).event),
    ensures
        ({
            let out = run_spec(session, users, inputs);
            &&& out.session == session
            &&& out.effects == Seq::new(inputs.len(), |i: int| Effect::Receive)
            &&& reports(out.effects).len() == 0
            &&& sends(out.effects) == 0
        }),
    decreases inputs.len(),
{
    if inputs.len() == 0 {
        assert(run_spec(session, users, inputs).effects =~= Seq::new(0, |i: int| Effect::Receive));
    } else {
        let before = run_spec(session, users, inputs.drop_last());
        let last = inputs.last();
        asides_leave_timing_alone(session, users, inputs.drop_last());
        assert(is_aside(inputs[inputs.len() - 1].event));
        let more = step_spec(before.session, before.users, last.event, last.now).effects;
        step_counts(before.session, before.users, last.event, last.now);
        reports_of_concat(before.effects, more);
        sends_of_concat(before.effects, more);
        assert(before.effects + more =~= Seq::new(inputs.len(), |i: int| Effect::Receive));
    }
}

/// A session that was opened has exactly one more ping out than it has
/// reported round trips; one that was not has sent and reported nothing.
pub proof fn one_ping_outstanding(session: Session, users: Seq<User>, inputs: Seq<InputView>)
    requires
        session.phase is Start,
    ensures
        ({
            let out = run_spec(session, users, inputs);
            if out.session.phase is Start {
                sends(out.effects) == 0 && reports(out.effects).len() == 0
            } else {
                sends(out.effects) == reports(out.effects).len() + 1
            }
        }),
    decreases inputs.len(),
{
    if inputs.len() > 0 {
        let before = run_spec(session, users, inputs.drop_last());
        let last = inputs.last();
        one_ping_outstanding(session, users, inputs.drop_last());
        step_counts(before.session, before.users, last.event, last.now);
        let more = step_spec(before.session, before.users, last.event, last.now).effects;
        reports_of_concat(before.effects, more);
        sends_of_concat(before.effects, more);
    }
}

/// Nothing happens after the end: a terminated session ignores whatever is
/// still observed, asks for nothing and leaves the users alone.
pub proof fn terminated_is_final(session: Session, users: Seq<User>, inputs: Seq<InputView>)
    requires
        session.phase is Terminated,
    ensures
        run_spec(session, users, inputs) == ignored(session, users),
    decreases inputs.len(),
{
    if inputs.len() > 0 {
        terminated_is_final(session, users, inputs.drop_last());
        assert(Seq::<Effect>::empty() + Seq::<Effect>::empty() =~= Seq::<Effect>::empty());
    }
}

/// A payload that is no client message, be it unreadable or of an unknown
/// variant, ends a waiting session with a decode error. Neither that step
/// nor anything after it reports a measurement or sends a ping.
pub proof fn undecodable_frame_ends_session(
    session: Session,
    users: Seq<User>,
    event: EventView,
    now: u64,
    later: Seq<InputView>,
)
    requires
        session.phase is AwaitingPong,
        is_undecodable(event),
    ensures
        ({
            let out = step_spec(session, users, event, now);
            let rest = run_spec(out.session, out.users, later);
            &&& out.session.phase matches Phase::Terminated(Some(SessionError::Decode(_)))
            &&& forall|i: int|
                0 <= i < out.effects.len() ==> !((#[trigger] out.effects[i]) is Report)
                    && !(out.effects[i] is Send)
            &&& rest.effects.len() == 0
            &&& rest.session == out.session
        }),
{
    let out = step_spec(session, users, event, now);
    terminated_is_final(out.session, out.users, later);
}

/// A position that arrives while a ping is out is recorded for the
/// session's user and nothing else: no measurement, no ping, the clock and
/// the phase as they were, and the driver back to receiving.
pub proof fn position_leaves_timing_alone(
    session: Session,
    users: Seq<User>,
    frame: FrameView,
    at: Coord,
    now: u64,
)
    requires
        session.phase is AwaitingPong,
        decode_spec(frame) == Ok::<ClientMsg, DecodeError>(ClientMsg::Coord(at)),
    ensures
        ({
            let out = step_spec(session, users, EventView::Frame(frame), now);
            &&& out.session == session
            &&& out.effects == seq![Effect::Receive]
            &&& out.users == placed(users, session.user, at)
        }),
{
}

/// When a receive finds the channel closed the session ends at once,
/// within that same step, whenever that is: nothing is diagnosed, nothing
/// is sent or reported, then or later.
pub proof fn close_ends_session_quietly(
    session: Session,
    users: Seq<User>,
    now: u64,
    later: Seq<InputView>,
)
    requires
        session.phase is AwaitingPong,
    ensures
        ({
            let out = step_spec(session, users, EventView::Closed, now);
            let rest = run_spec(out.session, out.users, later);
            &&& out.session.phase == Phase::Terminated(None)
            &&& out.effects.len() == 0
            &&& rest.effects.len() == 0
            &&& rest.session == out.session
        }),
{
    let out = step_spec(session, users, EventView::Closed, now);
    terminated_is_final(out.session, out.users, later);
}

/// A run never brings a repeated identifier into the user table and never
/// changes whose session it is.
pub proof fn run_keeps_users_distinct(session: Session, users: Seq<User>, inputs: Seq<InputView>)
    requires
        distinct_ids(users),
    ensures
        distinct_ids(run_spec(session, users, inputs).users),
        run_spec(session, users, inputs).session.user == session.user,
    decreases inputs.len(),
{
    if inputs.len() > 0 {
        let before = run_spec(session, users, inputs.drop_last());
        run_keeps_users_distinct(session, users, inputs.drop_last());
        released_properties(before.users, session.user, session.user);
        if let EventView::Frame(frame) = inputs.last().event {
            if let Ok(ClientMsg::Coord(c)) = decode_spec(frame) {
                placed_properties(before.users, session.user, c, session.user);
            }
        }
    }
}

/// A session keeps to its own entry of the shared table: whatever it
/// observes, every other user's position stays as it was.
pub proof fn run_leaves_others_alone(
    session: Session,
    users: Seq<User>,
    inputs: Seq<InputView>,
    other: u128,
)
    requires
        distinct_ids(users),
        other != session.user,
    ensures
        coordinate_in(run_spec(session, users, inputs).users, other) == coordinate_in(users, other),
    decreases inputs.len(),
{
    if inputs.len() > 0 {
        let before = run_spec(session, users, inputs.drop_last());
        run_leaves_others_alone(session, users, inputs.drop_last(), other);
        run_keeps_users_distinct(session, users, inputs.drop_last());
        released_properties(before.users, session.user, other);
        if let EventView::Frame(frame) = inputs.last().event {
            if let Ok(ClientMsg::Coord(c)) = decode_spec(frame) {
                placed_properties(before.users, session.user, c, other);
            }
        }
    }
}

/// Once a session that was begun from the start is over, the table no
/// longer holds its user.
pub proof fn ended_session_leaves_no_user(
    session: Session,
    users: Seq<User>,
    inputs: Seq<InputView>,
)
    requires
        distinct_ids(users),
        session.phase is Start,
    ensures
        ({
            let out = run_spec(session, users, inputs);
            out.session.phase is Terminated ==> !has_user(out.users, session.user)
        }),
    decreases inputs.len(),
{
    if inputs.len() > 0 {
        let before = run_spec(session, users, inputs.drop_last());
        ended_session_leaves_no_user(session, users, inputs.drop_last());
        run_keeps_users_distinct(session, users, inputs.drop_last());
        released_properties(before.users, session.user, session.user);
    }
}

} // verus!
