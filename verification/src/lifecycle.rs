//! The life of a connection as a state machine: one function takes the
//! state and an event to the next state. Times are counted in microseconds.

use vstd::prelude::*;
use crate::error::ConnectionError;

verus! {

/// Where a connection stands in its life.
#[derive(Clone, Copy, Debug, PartialEq, Eq, Structural)]
pub enum ConnState {
    /// The handshake is under way.
    Handshaking,
    /// The handshake is under way, and streams can be used already.
    ZeroRttActive,
    /// The handshake is complete.
    Established,
    /// This side has closed: the close is sent, again when the peer goes on
    /// sending.
    Closing,
    /// Nothing is processed or sent any more; the connection is only kept
    /// so that late packets find it.
    Draining,
    /// The connection is over and can be forgotten.
    Closed,
}

impl ConnState {
    /// The place of the state in the order in which states follow each
    /// other.
    pub open spec fn rank(self) -> nat {
        match self {
            ConnState::Handshaking => 0,
            ConnState::ZeroRttActive => 1,
            ConnState::Established => 2,
            ConnState::Closing => 3,
            ConnState::Draining => 4,
            ConnState::Closed => 5,
        }
    }

    /// The connection can carry streams.
    pub open spec fn spec_usable(self) -> bool {
        self == ConnState::ZeroRttActive || self == ConnState::Established
    }

    #[verifier::when_used_as_spec(spec_usable)]
    pub fn usable(self) -> (b: bool)
        ensures
            b == self.spec_usable(),
    {
        match self {
            ConnState::ZeroRttActive => true,
            ConnState::Established => true,
            _ => false,
        }
    }

    /// The connection has not begun to end.
    pub open spec fn spec_alive(self) -> bool {
        self == ConnState::Handshaking || self.spec_usable()
    }

    #[verifier::when_used_as_spec(spec_alive)]
    pub fn alive(self) -> (b: bool)
        ensures
            b == self.spec_alive(),
    {
        match self {
            ConnState::Handshaking => true,
            ConnState::ZeroRttActive => true,
            ConnState::Established => true,
            _ => false,
        }
    }
}

/// What became of data that was sent before the handshake was complete.
#[derive(Clone, Copy, Debug, PartialEq, Eq, Structural)]
pub enum EarlyData {
    /// None was offered.
    Unused,
    /// The peer has not said yet whether it takes it.
    Pending,
    /// The peer took it.
    Accepted,
    /// The peer did not take it: it is sent again after the handshake.
    Rejected,
}

/// What can happen to a connection.
#[derive(Clone, Copy, Debug, PartialEq, Eq, Structural)]
pub enum LifeEvent {
    /// A packet of the peer arrived.
    Received,
    /// The streams can be used although the handshake is under way.
    EarlyReady,
    /// The handshake is complete.
    Connected,
    /// The peer has said whether it takes the early data.
    EarlyResolved(bool),
    /// This side ends the connection, for the reason given.
    Close(ConnectionError),
    /// The close frame has been sent once.
    CloseSent,
    /// The peer has ended the connection, for the reason given.
    PeerClosed(ConnectionError),
    /// The clock has reached the time of the step.
    Timeout,
}

/// A time `span` after `now`, cut down to what a clock can hold.
pub open spec fn later(now: u64, span: u64) -> u64 {
    if now + span <= u64::MAX {
        (now + span) as u64
    } else {
        u64::MAX
    }
}

pub(crate) fn later_at(now: u64, span: u64) -> (t: u64)
    ensures
        t == later(now, span),
{
    if span <= u64::MAX - now {
        now + span
    } else {
        u64::MAX
    }
}

/// Three times `span`, cut down to what a clock can hold.
pub open spec fn thrice(span: u64) -> u64 {
    if 3 * span <= u64::MAX {
        (3 * span) as u64
    } else {
        u64::MAX
    }
}

fn thrice_of(span: u64) -> (t: u64)
    ensures
        t == thrice(span),
{
    if span <= u64::MAX / 3 {
        3 * span
    } else {
        u64::MAX
    }
}

/// The state of the life of one connection.
#[derive(Clone, Copy, Debug, PartialEq, Eq, Structural)]
pub struct Lifecycle {
    pub state: ConnState,
    /// Why the connection ended, once it has begun to end.
    pub error: Option<ConnectionError>,
    /// How long the peer may stay silent.
    pub idle_timeout: Option<u64>,
    /// When the silence of the peer ends the connection.
    pub idle_deadline: Option<u64>,
    /// When the connection can be forgotten.
    pub drain_deadline: Option<u64>,
    /// How often the close frame may be sent again.
    pub close_resends: u64,
    /// How often the close frame may still be sent again.
    pub close_resends_left: u64,
    /// Whether the close frame waits to be sent.
    pub close_due: bool,
    pub early: EarlyData,
}

impl Lifecycle {
    /// The error is there exactly from the moment the connection begins to
    /// end, and the deadlines belong to the states that use them.
    pub open spec fn wf(self) -> bool {
        &&& self.error is Some <==> !self.state.spec_alive()
        &&& self.close_due ==> self.state == ConnState::Closing
        &&& self.close_resends_left <= self.close_resends
        &&& self.state == ConnState::Closing || self.state == ConnState::Draining
            ==> self.drain_deadline is Some
    }

    /// The life of a connection that begins at `now`. With `early` the
    /// streams can be used at once.
    pub open spec fn begin(now: u64, idle_timeout: Option<u64>, close_resends: u64, early: bool) -> Lifecycle {
        Lifecycle {
            state: if early {
                ConnState::ZeroRttActive
            } else {
                ConnState::Handshaking
            },
            error: None,
            idle_timeout,
            idle_deadline: match idle_timeout {
                Some(span) => Some(later(now, span)),
                None => None,
            },
            drain_deadline: None,
            close_resends,
            close_resends_left: close_resends,
            close_due: false,
            early: if early {
                EarlyData::Pending
            } else {
                EarlyData::Unused
            },
        }
    }

    pub fn new(now: u64, idle_timeout: Option<u64>, close_resends: u64, early: bool) -> (l: Lifecycle)
        ensures
            l == Self::begin(now, idle_timeout, close_resends, early),
            l.wf(),
    {
        Lifecycle {
            state: if early { ConnState::ZeroRttActive } else { ConnState::Handshaking },
            error: None,
            idle_timeout,
            idle_deadline: match idle_timeout {
                Some(span) => Some(later_at(now, span)),
                None => None,
            },
            drain_deadline: None,
            close_resends,
            close_resends_left: close_resends,
            close_due: false,
            early: if early { EarlyData::Pending } else { EarlyData::Unused },
        }
    }

    /// Whether the silence of the peer has lasted too long at `now`.
    pub open spec fn idle_expired(self, now: u64) -> bool {
        self.idle_deadline matches Some(t) && t <= now
    }

    /// Whether the connection can be forgotten at `now`.
    pub open spec fn drained(self, now: u64) -> bool {
        self.drain_deadline matches Some(t) && t <= now
    }

    /// The state after `event` at the time `now`, when an acknowledgment is
    /// overdue after `pto`.
    pub open spec fn after(self, now: u64, pto: u64, event: LifeEvent) -> Lifecycle {
        match event {
            LifeEvent::Received => {
                if self.state.spec_alive() {
                    Lifecycle {
                        idle_deadline: match self.idle_timeout {
                            Some(span) => Some(later(now, span)),
                            None => None,
                        },
                        ..self
                    }
                } else if self.state == ConnState::Closing && self.close_resends_left > 0 {
                    Lifecycle {
                        close_due: true,
                        close_resends_left: (self.close_resends_left - 1) as u64,
                        ..self
                    }
                } else {
                    self
                }
            },
            LifeEvent::EarlyReady => {
                if self.state == ConnState::Handshaking {
                    Lifecycle { state: ConnState::ZeroRttActive, ..self }
                } else {
                    self
                }
            },
            LifeEvent::Connected => {
                if self.state == ConnState::Handshaking || self.state == ConnState::ZeroRttActive {
                    Lifecycle { state: ConnState::Established, ..self }
                } else {
                    self
                }
            },
            LifeEvent::EarlyResolved(accepted) => {
                if self.early == EarlyData::Pending {
                    Lifecycle {
                        early: if accepted {
                            EarlyData::Accepted
                        } else {
                            EarlyData::Rejected
                        },
                        ..self
                    }
                } else {
                    self
                }
            },
            LifeEvent::Close(reason) => {
                if self.state.spec_alive() {
                    Lifecycle {
                        state: ConnState::Closing,
                        error: Some(reason),
                        idle_deadline: None,
                        drain_deadline: Some(later(now, thrice(pto))),
                        close_resends_left: self.close_resends,
                        close_due: true,
                        ..self
                    }
                } else {
                    self
                }
            },
            LifeEvent::CloseSent => {
                if self.state == ConnState::Closing {
                    Lifecycle {
                        close_due: false,
                        state: if self.close_due && self.close_resends_left == 0 {
                            ConnState::Draining
                        } else {
                            ConnState::Closing
                        },
                        ..self
                    }
                } else {
                    self
                }
            },
            LifeEvent::PeerClosed(reason) => {
                if self.state.spec_alive() {
                    Lifecycle {
                        state: ConnState::Draining,
                        error: Some(reason),
                        idle_deadline: None,
                        drain_deadline: Some(later(now, thrice(pto))),
                        close_due: false,
                        ..self
                    }
                } else if self.state == ConnState::Closing {
                    Lifecycle { state: ConnState::Draining, close_due: false, ..self }
                } else {
                    self
                }
            },
            LifeEvent::Timeout => {
                if self.state.spec_alive() && self.idle_expired(now) {
                    Lifecycle {
                        state: ConnState::Closed,
                        error: Some(ConnectionError::TimedOut),
                        idle_deadline: None,
                        ..self
                    }
                } else if (self.state == ConnState::Closing || self.state == ConnState::Draining)
                    && self.drained(now) {
                    Lifecycle {
                        state: ConnState::Closed,
                        close_due: false,
                        drain_deadline: None,
                        ..self
                    }
                } else {
                    self
                }
            },
        }
    }

    /// Takes the state through `event`.
    pub fn step(&mut self, now: u64, pto: u64, event: LifeEvent)
        requires
            old(self).wf(),
        ensures
            final(self).wf(),
            *final(self) == old(self).after(now, pto, event),
    {
        match event {
            LifeEvent::Received => {
                if self.state.alive() {
                    self.idle_deadline = match self.idle_timeout {
                        Some(span) => Some(later_at(now, span)),
                        None => None,
                    };
                } else if self.state == ConnState::Closing && self.close_resends_left > 0 {
                    self.close_due = true;
                    self.close_resends_left = self.close_resends_left - 1;
                }
            },
            LifeEvent::EarlyReady => {
                if self.state == ConnState::Handshaking {
                    self.state = ConnState::ZeroRttActive;
                }
            },
            LifeEvent::Connected => {
                if self.state == ConnState::Handshaking || self.state == ConnState::ZeroRttActive {
                    self.state = ConnState::Established;
                }
            },
            LifeEvent::EarlyResolved(accepted) => {
                if self.early == EarlyData::Pending {
                    self.early = if accepted { EarlyData::Accepted } else { EarlyData::Rejected };
                }
            },
            LifeEvent::Close(reason) => {
                if self.state.alive() {
                    self.state = ConnState::Closing;
                    self.error = Some(reason);
                    self.idle_deadline = None;
                    self.drain_deadline = Some(later_at(now, thrice_of(pto)));
                    self.close_resends_left = self.close_resends;
                    self.close_due = true;
                }
            },
            LifeEvent::CloseSent => {
                if self.state == ConnState::Closing {
                    if self.close_due && self.close_resends_left == 0 {
                        self.state = ConnState::Draining;
                    }
                    self.close_due = false;
                }
            },
            LifeEvent::PeerClosed(reason) => {
                if self.state.alive() {
                    self.state = ConnState::Draining;
                    self.error = Some(reason);
                    self.idle_deadline = None;
                    self.drain_deadline = Some(later_at(now, thrice_of(pto)));
                    self.close_due = false;
                } else if self.state == ConnState::Closing {
                    self.state = ConnState::Draining;
                    self.close_due = false;
                }
            },
            LifeEvent::Timeout => {
                let idle: bool = match self.idle_deadline {
                    Some(t) => t <= now,
                    None => false,
                };
                let drained: bool = match self.drain_deadline {
                    Some(t) => t <= now,
                    None => false,
                };
                if self.state.alive() && idle {
                    self.state = ConnState::Closed;
                    self.error = Some(ConnectionError::TimedOut);
                    self.idle_deadline = None;
                } else if (self.state == ConnState::Closing || self.state == ConnState::Draining)
                    && drained {
                    self.state = ConnState::Closed;
                    self.close_due = false;
                    self.drain_deadline = None;
                }
            },
        }
    }

    /// The time at which the clock has to wake the connection, if any: the
    /// end of the allowed silence while the connection lives, the end of
    /// the draining while it ends.
    pub open spec fn spec_deadline(&self) -> Option<u64> {
        if self.state.spec_alive() {
            self.idle_deadline
        } else if self.state == ConnState::Closed {
            None
        } else {
            self.drain_deadline
        }
    }

    #[verifier::when_used_as_spec(spec_deadline)]
    pub fn deadline(&self) -> (d: Option<u64>)
        ensures
            d == self.spec_deadline(),
    {
        if self.state.alive() {
            self.idle_deadline
        } else if self.state == ConnState::Closed {
            None
        } else {
            self.drain_deadline
        }
    }
}

/// The state after a whole run of events, each with its time and with the
/// probe timeout of its moment.
pub open spec fn life_run(start: Lifecycle, events: Seq<(u64, u64, LifeEvent)>) -> Lifecycle
    decreases events.len(),
{
    if events.len() == 0 {
        start
    } else {
        let e = events.last();
        life_run(start, events.drop_last()).after(e.0, e.1, e.2)
    }
}

/// A connection never goes back: whatever happens, the state after is the
/// same or a later one, and the reason for which a connection ended is the
/// first that came up.
pub proof fn lemma_life_forward(l: Lifecycle, now: u64, pto: u64, event: LifeEvent)
    requires
        l.wf(),
    ensures
        l.after(now, pto, event).wf(),
        l.after(now, pto, event).state.rank() >= l.state.rank(),
        l.error is Some ==> l.after(now, pto, event).error == l.error,
        l.after(now, pto, event).close_resends == l.close_resends,
        l.after(now, pto, event).idle_timeout == l.idle_timeout,
{
}

/// The same over any run of events.
pub proof fn lemma_life_run_forward(start: Lifecycle, events: Seq<(u64, u64, LifeEvent)>)
    requires
        start.wf(),
    ensures
        life_run(start, events).wf(),
        life_run(start, events).state.rank() >= start.state.rank(),
        start.error is Some ==> life_run(start, events).error == start.error,
    decreases events.len(),
{
    if events.len() > 0 {
        lemma_life_run_forward(start, events.drop_last());
        let e = events.last();
        lemma_life_forward(life_run(start, events.drop_last()), e.0, e.1, e.2);
    }
}

/// A peer that stays silent ends the connection by timeout and by nothing
/// else: while no packet arrives and this side does not close, the
/// connection lives until the clock reaches the deadline, and the first
/// time the clock is found at or past it the connection is over, timed out,
/// without passing through the closing states.
pub proof fn lemma_silence_times_out(l: Lifecycle, now: u64, pto: u64)
    requires
        l.wf(),
        l.state.spec_alive(),
        l.idle_deadline is Some,
    ensures
        now < l.idle_deadline->0 ==> l.after(now, pto, LifeEvent::Timeout) == l,
        now >= l.idle_deadline->0 ==> l.after(now, pto, LifeEvent::Timeout).state
            == ConnState::Closed && l.after(now, pto, LifeEvent::Timeout).error == Some(
            ConnectionError::TimedOut,
        ),
{
}

/// A connection that was begun and is closed by this side before anything
/// else happens ends as closed by this side, whatever the peer does later.
pub proof fn lemma_local_close_wins(start: Lifecycle, now: u64, pto: u64, events: Seq<
    (u64, u64, LifeEvent),
>)
    requires
        start.wf(),
        start.state.spec_alive(),
    ensures
        life_run(
            start.after(now, pto, LifeEvent::Close(ConnectionError::LocallyClosed)),
            events,
        ).error == Some(ConnectionError::LocallyClosed),
{
    lemma_life_forward(start, now, pto, LifeEvent::Close(ConnectionError::LocallyClosed));
    lemma_life_run_forward(
        start.after(now, pto, LifeEvent::Close(ConnectionError::LocallyClosed)),
        events,
    );
}

/// How often the close frame can still be sent: once if it waits now, and
/// once for each time it may be sent again.
pub open spec fn close_sends_left(l: Lifecycle) -> nat {
    if l.state == ConnState::Closing {
        (if l.close_due {
            1nat
        } else {
            0nat
        }) + l.close_resends_left as nat
    } else {
        0
    }
}

/// The close frame is sent a bounded number of times: once a connection is
/// closing, no event raises the number of sends that are left, and each
/// send uses one up.
pub proof fn lemma_close_sends_bounded(l: Lifecycle, now: u64, pto: u64, event: LifeEvent)
    requires
        l.wf(),
        !l.state.spec_alive(),
    ensures
        close_sends_left(l.after(now, pto, event)) <= close_sends_left(l),
        event == LifeEvent::CloseSent && l.close_due ==> close_sends_left(l.after(now, pto, event))
            < close_sends_left(l),
        close_sends_left(l) <= l.close_resends + 1,
{
}

} // verus!
