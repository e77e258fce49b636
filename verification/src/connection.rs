//! One connection: the life of the connection, its streams, the bytes of its
//! handshake, and the record of what it has sent. Nothing here reads a
//! clock or a socket: the caller hands in the time and the packets, and
//! takes the packets to send.

use vstd::prelude::*;
use crate::config::{TransportConfig, PACKET_OVERHEAD};
use crate::congestion::{Controller, NewReno};
use crate::delivery::StreamFrame;
use crate::error::{ConnectionError, StreamError, TransportErrorCode};
use crate::frame::{any_eliciting, eliciting, frame_views, AckRange, Frame, FrameModel};
use crate::lifecycle::{later, ConnState, EarlyData, LifeEvent, Lifecycle};
use crate::recovery::{
    in_ranges, picked, Backoff, Ledger, LedgerModel, Level, PacketInfo, PacketModel, SentFrame,
};
use crate::recv::{FrameError, ReadOutcome, ReadToEnd, RecvHalf, RecvModel};
use crate::rtt::RttEstimator;
use crate::send::{Fate, SendHalf, SendModel, Written};
use crate::stream_id::{Dir, Side, StreamId};
use crate::streams::{Opened, PerDir, StreamTable, TableModel};

verus! {

/// For which levels the keys are there. The keys of the first level always
/// are.
#[derive(Clone, Copy, Debug, PartialEq, Eq, Structural)]
pub struct Keys {
    pub zero_rtt: bool,
    pub handshake: bool,
    pub one_rtt: bool,
}

impl Keys {
    pub open spec fn spec_has(&self, level: Level) -> bool {
        match level {
            Level::Initial => true,
            Level::ZeroRtt => self.zero_rtt,
            Level::Handshake => self.handshake,
            Level::OneRtt => self.one_rtt,
        }
    }

    #[verifier::when_used_as_spec(spec_has)]
    pub fn has(&self, level: Level) -> (b: bool)
        ensures
            b == self.spec_has(level),
    {
        match level {
            Level::Initial => true,
            Level::ZeroRtt => self.zero_rtt,
            Level::Handshake => self.handshake,
            Level::OneRtt => self.one_rtt,
        }
    }

    pub open spec fn with(self, level: Level) -> Keys {
        match level {
            Level::Initial => self,
            Level::ZeroRtt => Keys { zero_rtt: true, ..self },
            Level::Handshake => Keys { handshake: true, ..self },
            Level::OneRtt => Keys { one_rtt: true, ..self },
        }
    }

    /// The level under which the data of streams travels now, if any.
    pub open spec fn spec_data_level(&self) -> Option<Level> {
        if self.one_rtt {
            Some(Level::OneRtt)
        } else if self.zero_rtt {
            Some(Level::ZeroRtt)
        } else {
            None
        }
    }

    #[verifier::when_used_as_spec(spec_data_level)]
    pub fn data_level(&self) -> (l: Option<Level>)
        ensures
            l == self.spec_data_level(),
    {
        if self.one_rtt {
            Some(Level::OneRtt)
        } else if self.zero_rtt {
            Some(Level::ZeroRtt)
        } else {
            None
        }
    }
}

/// A packet as the codec hands it over: the level of its keys, its number,
/// and its frames in order.
#[derive(Clone, Debug)]
pub struct Packet {
    pub level: Level,
    pub number: u64,
    pub frames: Vec<Frame>,
}

/// The limits that a peer sets, as the handshake tells them.
#[derive(Clone, Copy, Debug, PartialEq, Eq, Structural)]
pub struct PeerLimits {
    /// How many streams of each direction may be opened to begin with.
    pub streams: PerDir,
    /// The credit of the connection.
    pub connection_window: u64,
    /// The credit of each stream.
    pub stream_window: u64,
}

/// The two halves that carry the bytes of the handshake at one level.
pub struct Pipe {
    send: SendHalf,
    recv: RecvHalf,
}

pub struct PipeModel {
    pub send: SendModel,
    pub recv: RecvModel,
}

impl View for Pipe {
    type V = PipeModel;

    closed spec fn view(&self) -> PipeModel {
        PipeModel { send: self.send@, recv: self.recv@ }
    }
}

impl PipeModel {
    pub open spec fn wf(self) -> bool {
        self.send.wf() && self.recv.wf()
    }

    /// The pipe after it was learned what became of bytes that were sent.
    pub open spec fn after_fate(self, offset: nat, len: nat, acked: bool) -> PipeModel {
        PipeModel {
            send: if acked {
                self.send.after_ack(offset, len, false)
            } else {
                self.send.after_loss(offset, len, false)
            },
            ..self
        }
    }

    /// A pipe on which nothing has happened.
    pub open spec fn fresh() -> PipeModel {
        PipeModel {
            send: SendModel::fresh(crate::flow::FlowControlWindow::new_model(u64::MAX)),
            recv: RecvModel::fresh(crate::flow::ReceiveCredit::new_model(u64::MAX, 1)),
        }
    }
}

impl Pipe {
    pub closed spec fn wf(&self) -> bool {
        self.send.wf() && self.recv.wf()
    }

    proof fn lemma_wf_model(&self)
        requires
            self.wf(),
        ensures
            self@.wf(),
    {
        self.send.lemma_wf_model();
        self.recv.lemma_wf_model();
    }

    fn new() -> (p: Pipe)
        ensures
            p.wf(),
            p@ == PipeModel::fresh(),
    {
        Pipe { send: SendHalf::new(u64::MAX), recv: RecvHalf::new(u64::MAX, 1) }
    }

    /// Takes in what became of bytes of the handshake that were sent.
    fn fate(&mut self, offset: u64, len: u64, acked: bool)
        requires
            old(self).wf(),
        ensures
            final(self).wf(),
            final(self)@ == old(self)@.after_fate(offset as nat, len as nat, acked),
    {
        if acked {
            self.send.on_ack(offset, len, false);
        } else {
            self.send.on_loss(offset, len, false);
        }
    }
}

/// What the close frame of this side says.
pub struct CloseModel {
    pub code: u64,
    /// Whether the application closed, and not the engine.
    pub application: bool,
    pub reason: Seq<u8>,
}

/// The connection as a mathematical value.
pub struct ConnModel {
    pub side: Side,
    pub life: Lifecycle,
    pub config: TransportConfig,
    pub streams: TableModel,
    /// The bytes of the handshake at the first level.
    pub initial: PipeModel,
    /// The bytes of the handshake at the level of the handshake.
    pub handshake: PipeModel,
    /// The bytes of the handshake that travel with the data.
    pub data: PipeModel,
    pub keys: Keys,
    pub ledger: LedgerModel,
    pub rtt: RttEstimator,
    pub cc: NewReno,
    pub backoff: Backoff,
    /// When an acknowledgment is overdue.
    pub pto_deadline: Option<u64>,
    /// When the next sign of life is to be sent.
    pub keep_alive_deadline: Option<u64>,
    /// The packets of the peer that are to be acknowledged.
    pub acks: Seq<AckRange>,
    /// Whether an acknowledgment waits to be sent.
    pub ack_due: bool,
    /// The control frames that were lost and wait to be sent again.
    pub resend: Seq<SentFrame>,
    pub close: CloseModel,
}

impl ConnModel {
    pub open spec fn wf(self) -> bool {
        &&& self.life.wf()
        &&& self.config.valid()
        &&& self.streams.wf()
        &&& self.streams.side == self.side
        &&& self.initial.wf()
        &&& self.handshake.wf()
        &&& self.data.wf()
        &&& self.ledger.wf()
        &&& self.rtt.wf()
        &&& self.cc.wf()
        &&& self.backoff.wf()
    }

    /// The pipe of `level`; early data has none of its own.
    pub open spec fn pipe(self, level: Level) -> PipeModel {
        match level {
            Level::Initial => self.initial,
            Level::Handshake => self.handshake,
            _ => self.data,
        }
    }

    pub open spec fn with_pipe(self, level: Level, pipe: PipeModel) -> ConnModel {
        match level {
            Level::Initial => ConnModel { initial: pipe, ..self },
            Level::Handshake => ConnModel { handshake: pipe, ..self },
            _ => ConnModel { data: pipe, ..self },
        }
    }

    /// The time after which an acknowledgment is overdue now.
    pub open spec fn pto(self) -> u64 {
        self.rtt.spec_pto(self.config.max_ack_delay)
    }

    /// The connection of `side` as it begins at `now`. With `early` the
    /// limits that the peer set in an earlier session are taken up and the
    /// streams can be used at once.
    pub open spec fn begin(side: Side, config: TransportConfig, now: u64, early: Option<PeerLimits>) -> ConnModel {
        let table = StreamTable::new_model(side, config.spec_limits(), config.window_update_divisor);
        ConnModel {
            side,
            life: Lifecycle::begin(now, config.max_idle_timeout, config.close_resends, early is Some),
            config,
            streams: match early {
                Some(l) => table.after_peer_limits(l.streams, l.connection_window, l.stream_window),
                None => table,
            },
            initial: PipeModel::fresh(),
            handshake: PipeModel::fresh(),
            data: PipeModel::fresh(),
            keys: Keys { zero_rtt: early is Some, handshake: false, one_rtt: false },
            ledger: LedgerModel {
                packets: Seq::empty(),
                largest_acked: None,
                packet_threshold: if config.packet_threshold == 0 {
                    1
                } else {
                    config.packet_threshold
                },
            },
            rtt: RttEstimator::initial(config.initial_rtt),
            cc: NewReno::initial(config.max_datagram_size, config.initial_window_packets),
            backoff: Backoff::initial(config.pto_backoff_cap),
            pto_deadline: None,
            keep_alive_deadline: match config.keep_alive_interval {
                Some(span) => Some(later(now, span)),
                None => None,
            },
            acks: Seq::empty(),
            ack_due: false,
            resend: Seq::empty(),
            close: CloseModel { code: 0, application: false, reason: Seq::empty() },
        }
    }

    /// The failure of an operation that needs a living connection: the
    /// reason for which the connection ended.
    pub open spec fn ended(self) -> Option<ConnectionError> {
        if self.life.state.spec_alive() {
            None
        } else {
            self.life.error
        }
    }

    /// The connection after this side closed it at `now`.
    pub open spec fn after_close(self, now: u64, code: u64, reason: Seq<u8>) -> ConnModel {
        if self.life.state.spec_alive() {
            ConnModel {
                life: self.life.after(now, self.pto(), LifeEvent::Close(ConnectionError::LocallyClosed)),
                close: CloseModel { code, application: true, reason },
                pto_deadline: None,
                ..self
            }
        } else {
            self
        }
    }

    /// The connection after the handshake told the limits of the peer and
    /// came to its end. The server lets the client know.
    pub open spec fn after_connected(self, limits: PeerLimits) -> ConnModel {
        if self.life.state == ConnState::Handshaking || self.life.state == ConnState::ZeroRttActive {
            ConnModel {
                life: self.life.after(0, 0, LifeEvent::Connected),
                streams: self.streams.after_peer_limits(
                    limits.streams,
                    limits.connection_window,
                    limits.stream_window,
                ),
                resend: if self.side == Side::Server {
                    self.resend.push(SentFrame::HandshakeDone)
                } else {
                    self.resend
                },
                ..self
            }
        } else {
            self
        }
    }

    /// The connection after the streams became usable ahead of the end of
    /// the handshake, under the limits `limits`.
    pub open spec fn after_early_ready(self, limits: PeerLimits) -> ConnModel {
        if self.life.state == ConnState::Handshaking {
            ConnModel {
                life: self.life.after(0, 0, LifeEvent::EarlyReady),
                streams: self.streams.after_peer_limits(
                    limits.streams,
                    limits.connection_window,
                    limits.stream_window,
                ),
                ..self
            }
        } else {
            self
        }
    }
}

/// One connection.
pub struct Connection {
    side: Side,
    life: Lifecycle,
    config: TransportConfig,
    streams: StreamTable,
    initial: Pipe,
    handshake: Pipe,
    data: Pipe,
    keys: Keys,
    ledger: Ledger,
    rtt: RttEstimator,
    cc: NewReno,
    backoff: Backoff,
    pto_deadline: Option<u64>,
    keep_alive_deadline: Option<u64>,
    acks: Vec<AckRange>,
    ack_due: bool,
    resend: Vec<SentFrame>,
    close_code: u64,
    close_application: bool,
    close_reason: Vec<u8>,
}

impl View for Connection {
    type V = ConnModel;

    closed spec fn view(&self) -> ConnModel {
        ConnModel {
            side: self.side,
            life: self.life,
            config: self.config,
            streams: self.streams@,
            initial: self.initial@,
            handshake: self.handshake@,
            data: self.data@,
            keys: self.keys,
            ledger: self.ledger@,
            rtt: self.rtt,
            cc: self.cc,
            backoff: self.backoff,
            pto_deadline: self.pto_deadline,
            keep_alive_deadline: self.keep_alive_deadline,
            acks: self.acks@,
            ack_due: self.ack_due,
            resend: self.resend@,
            close: CloseModel {
                code: self.close_code,
                application: self.close_application,
                reason: self.close_reason@,
            },
        }
    }
}

impl Connection {
    pub closed spec fn wf(&self) -> bool {
        &&& self.life.wf()
        &&& self.config.valid()
        &&& self.rtt.wf()
        &&& self.cc.wf()
        &&& self.backoff.wf()
        &&& self.streams@.side == self.side
        &&& self.streams.wf()
        &&& self.initial.wf()
        &&& self.handshake.wf()
        &&& self.data.wf()
        &&& self.ledger.wf()
    }

    /// Validity of the connection implies validity of its model.
    pub proof fn lemma_wf_model(&self)
        requires
            self.wf(),
        ensures
            self@.wf(),
    {
        self.streams.lemma_wf_model();
        self.initial.lemma_wf_model();
        self.handshake.lemma_wf_model();
        self.data.lemma_wf_model();
        self.ledger.lemma_wf_model();
    }

    /// A connection of `side` that begins at `now`.
    pub fn new(side: Side, config: TransportConfig, now: u64, early: Option<PeerLimits>) -> (c: Connection)
        requires
            config.valid(),
        ensures
            c.wf(),
            c@ == ConnModel::begin(side, config, now, early),
    {
        let mut streams = StreamTable::new(side, config.limits(), config.window_update_divisor);
        let has_early: bool = match early {
            Some(l) => {
                streams.set_peer_limits(l.streams, l.connection_window, l.stream_window);
                true
            },
            None => false,
        };
        let initial = Pipe::new();
        let handshake = Pipe::new();
        let data = Pipe::new();
        proof {
            initial.lemma_wf_model();
            handshake.lemma_wf_model();
            data.lemma_wf_model();
            streams.lemma_wf_model();
        }
        let ledger = Ledger::new(config.packet_threshold);
        proof {
            ledger.lemma_wf_model();
        }
        Connection {
            side,
            life: Lifecycle::new(now, config.max_idle_timeout, config.close_resends, has_early),
            config,
            streams,
            initial,
            handshake,
            data,
            keys: Keys { zero_rtt: has_early, handshake: false, one_rtt: false },
            ledger,
            rtt: RttEstimator::new(config.initial_rtt),
            cc: NewReno::new(config.max_datagram_size, config.initial_window_packets),
            backoff: Backoff::new(config.pto_backoff_cap),
            pto_deadline: None,
            keep_alive_deadline: match config.keep_alive_interval {
                Some(span) => Some(crate::lifecycle::later_at(now, span)),
                None => None,
            },
            acks: Vec::new(),
            ack_due: false,
            resend: Vec::new(),
            close_code: 0,
            close_application: false,
            close_reason: Vec::new(),
        }
    }

    pub fn side(&self) -> (s: Side)
        ensures
            s == self@.side,
    {
        self.side
    }

    /// The size of the largest datagram that the connection sends.
    pub fn max_datagram(&self) -> (s: u64)
        ensures
            s == self@.config.max_datagram_size,
    {
        self.config.max_datagram_size
    }

    pub fn state(&self) -> (s: ConnState)
        ensures
            s == self@.life.state,
    {
        self.life.state
    }

    /// Why the connection ended, once it has begun to end.
    pub fn error(&self) -> (e: Option<ConnectionError>)
        ensures
            e == self@.life.error,
    {
        self.life.error
    }

    /// What became of the early data.
    pub fn early_data(&self) -> (e: EarlyData)
        ensures
            e == self@.life.early,
    {
        self.life.early
    }

    /// The states of the two halves of the stream `id`, if it is open.
    pub fn stream_states(&self, id: StreamId) -> (r: Option<
        (crate::send::SendState, crate::recv::RecvState),
    >)
        requires
            self.wf(),
        ensures
            r is Some <==> self@.streams.is_open(id),
            r matches Some(s) ==> s.0 == self@.streams.slot(id).send.state && s.1
                == self@.streams.slot(id).recv.state,
    {
        self.streams.states(id)
    }

    fn ended(&self) -> (e: Option<ConnectionError>)
        requires
            self.wf(),
        ensures
            e == self@.ended(),
            e is Some <==> !self@.life.state.spec_alive(),
    {
        if self.life.state.alive() {
            None
        } else {
            self.life.error
        }
    }

    /// Whether `r` and `after` are what a read of at most `max` bytes on
    /// the stream `id` of `before` gives.
    pub open spec fn reads(before: Connection, id: StreamId, max: nat, r: Result<ReadOutcome, StreamError>, after: Connection) -> bool {
        &&& after@ == (ConnModel { streams: after@.streams, ..before@ })
        &&& exists|found: Result<ReadOutcome, StreamError>|
            before@.streams.read_yields(id, max, found, after@.streams) && r == (if found matches Ok(
                ReadOutcome::Blocked,
            ) && !before@.life.state.spec_alive() {
                Err::<ReadOutcome, StreamError>(StreamError::ConnectionClosed)
            } else {
                found
            })
    }

    /// Whether `r` and `after` are what a write of `data` on the stream
    /// `id` of `before` gives.
    pub open spec fn writes(before: Connection, id: StreamId, data: Seq<u8>, r: Result<Written, StreamError>, after: Connection) -> bool {
        &&& after@ == (ConnModel { streams: after@.streams, ..before@ })
        &&& if !before@.life.state.spec_alive() {
            r == Err::<Written, StreamError>(StreamError::ConnectionClosed) && after@ == before@
        } else if before@.life.state == ConnState::Handshaking {
            r == Ok::<Written, StreamError>(Written::Blocked) && after@ == before@
        } else {
            before@.streams.write_yields(id, data, r, after@.streams)
        }
    }

    /// Whether `r` and `after` are what the opening of a stream of
    /// direction `dir` on `before` gives.
    pub open spec fn opens(before: Connection, dir: Dir, r: Result<Opened, ConnectionError>, after: Connection) -> bool {
        &&& after@ == (ConnModel { streams: after@.streams, ..before@ })
        &&& match r {
            Err(e) => before@.ended() == Some(e) && after@ == before@,
            Ok(o) => before@.ended() is None && if before@.life.state == ConnState::Handshaking {
                o == Opened::Blocked && after@ == before@
            } else {
                before@.streams.open_yields(dir, o, after@.streams)
            },
        }
    }

    /// Whether `r` and `after` are what a finish of the stream `id` of
    /// `before` gives.
    pub open spec fn finishes(before: Connection, id: StreamId, r: Result<(), StreamError>, after: Connection) -> bool {
        &&& after@ == (ConnModel { streams: after@.streams, ..before@ })
        &&& if !before@.life.state.spec_alive() {
            r == Err::<(), StreamError>(StreamError::ConnectionClosed) && after@ == before@
        } else {
            before@.streams.finish_yields(id, r, after@.streams)
        }
    }

    /// A write accepts no more bytes than it was offered.
    pub proof fn lemma_write_bounds(&self, id: StreamId, data: Seq<u8>, r: Result<Written, StreamError>, after: Connection)
        requires
            Self::writes(*self, id, data, r, after),
        ensures
            r matches Ok(Written::Accepted(n)) ==> n <= data.len(),
    {
    }

    /// A read hands out no more bytes than it was asked for.
    pub proof fn lemma_read_bounds(before: Connection, id: StreamId, max: nat, r: Result<ReadOutcome, StreamError>, after: Connection)
        requires
            before.wf(),
            Self::reads(before, id, max, r, after),
        ensures
            r matches Ok(ReadOutcome::Data(v)) ==> v@.len() <= max,
    {
        before.streams.lemma_wf_model();
        if r is Ok && r->Ok_0 is Data {
            let found = choose|found: Result<ReadOutcome, StreamError>|
                before@.streams.read_yields(id, max, found, after@.streams) && r == (if found matches Ok(
                    ReadOutcome::Blocked,
                ) && !before@.life.state.spec_alive() {
                    Err::<ReadOutcome, StreamError>(StreamError::ConnectionClosed)
                } else {
                    found
                });
            assert(before@.streams.has_recv(id));
            let recv = before@.streams.slot(id).recv;
            assert(before@.streams.slots[id.0 as int].wf());
            crate::runs::lemma_run_content(recv.have, 0);
        }
    }

    /// Opens a stream of direction `dir`. A connection that has begun to
    /// end opens none; one whose handshake is under way makes the caller
    /// wait, as does a peer that allows no further stream.
    pub fn open(&mut self, dir: Dir) -> (r: Result<Opened, ConnectionError>)
        requires
            old(self).wf(),
        ensures
            Self::opens(*old(self), dir, r, *final(self)),
            final(self).wf(),
            final(self)@ == (ConnModel { streams: final(self)@.streams, ..old(self)@ }),
            match r {
                Err(e) => old(self)@.ended() == Some(e) && final(self)@ == old(self)@,
                Ok(o) => old(self)@.ended() is None && if old(self)@.life.state
                    == ConnState::Handshaking {
                    o == Opened::Blocked && final(self)@ == old(self)@
                } else {
                    old(self)@.streams.open_yields(dir, o, final(self)@.streams)
                },
            },
    {
        match self.ended() {
            Some(e) => {
                return Err(e);
            },
            None => {},
        }
        if !self.life.state.usable() {
            return Ok(Opened::Blocked);
        }
        let o = self.streams.open(dir);
        proof {
            self.streams.lemma_wf_model();
        }
        Ok(o)
    }

    /// Hands the application the next stream that the peer opened. What the
    /// peer opened before the connection ended can still be accepted.
    pub fn accept(&mut self, dir: Dir) -> (r: Option<StreamId>)
        requires
            old(self).wf(),
        ensures
            final(self).wf(),
            final(self)@ == (ConnModel { streams: final(self)@.streams, ..old(self)@ }),
            old(self)@.streams.accept_yields(dir, r, final(self)@.streams),
    {
        let r = self.streams.accept(dir);
        proof {
            self.streams.lemma_wf_model();
        }
        r
    }

    /// Accepts bytes from the front of `data` on the stream `id`. While the
    /// handshake is under way the writer waits; once the connection has
    /// begun to end the write fails.
    pub fn write(&mut self, id: StreamId, data: &[u8]) -> (r: Result<Written, StreamError>)
        requires
            old(self).wf(),
        ensures
            Self::writes(*old(self), id, data@, r, *final(self)),
            final(self).wf(),
            final(self)@ == (ConnModel { streams: final(self)@.streams, ..old(self)@ }),
            if !old(self)@.life.state.spec_alive() {
                r == Err::<Written, StreamError>(StreamError::ConnectionClosed) && final(self)@
                    == old(self)@
            } else if old(self)@.life.state == ConnState::Handshaking {
                r == Ok::<Written, StreamError>(Written::Blocked) && final(self)@ == old(self)@
            } else {
                old(self)@.streams.write_yields(id, data@, r, final(self)@.streams)
            },
    {
        if !self.life.state.alive() {
            return Err(StreamError::ConnectionClosed);
        }
        if !self.life.state.usable() {
            return Ok(Written::Blocked);
        }
        let r = self.streams.write(id, data);
        proof {
            self.streams.lemma_wf_model();
        }
        r
    }

    /// Ends the stream `id` after what was written on it.
    pub fn finish(&mut self, id: StreamId) -> (r: Result<(), StreamError>)
        requires
            old(self).wf(),
        ensures
            Self::finishes(*old(self), id, r, *final(self)),
            final(self).wf(),
            final(self)@ == (ConnModel { streams: final(self)@.streams, ..old(self)@ }),
            if !old(self)@.life.state.spec_alive() {
                r == Err::<(), StreamError>(StreamError::ConnectionClosed) && final(self)@ == old(self)@
            } else {
                old(self)@.streams.finish_yields(id, r, final(self)@.streams)
            },
    {
        if !self.life.state.alive() {
            return Err(StreamError::ConnectionClosed);
        }
        let r = self.streams.finish(id);
        proof {
            self.streams.lemma_wf_model();
        }
        r
    }

    /// Abandons the sending half of the stream `id` with `code`.
    pub fn reset(&mut self, id: StreamId, code: u64) -> (r: Result<(), StreamError>)
        requires
            old(self).wf(),
        ensures
            final(self).wf(),
            final(self)@ == (ConnModel { streams: final(self)@.streams, ..old(self)@ }),
            if !old(self)@.life.state.spec_alive() {
                r == Err::<(), StreamError>(StreamError::ConnectionClosed) && final(self)@ == old(self)@
            } else {
                old(self)@.streams.reset_yields(id, code, r, final(self)@.streams)
            },
    {
        if !self.life.state.alive() {
            return Err(StreamError::ConnectionClosed);
        }
        let r = self.streams.reset(id, code);
        proof {
            self.streams.lemma_wf_model();
        }
        r
    }

    /// Hands the reader the next bytes of the stream `id`, at most `max`.
    /// What arrived before the connection ended can still be read; where
    /// the reader would have to wait on a connection that has begun to end,
    /// the read fails.
    pub fn read(&mut self, id: StreamId, max: usize) -> (r: Result<ReadOutcome, StreamError>)
        requires
            old(self).wf(),
        ensures
            Self::reads(*old(self), id, max as nat, r, *final(self)),
            final(self).wf(),
            final(self)@ == (ConnModel { streams: final(self)@.streams, ..old(self)@ }),
            exists|found: Result<ReadOutcome, StreamError>|
                old(self)@.streams.read_yields(id, max as nat, found, final(self)@.streams) && r
                    == (if found matches Ok(ReadOutcome::Blocked) && !old(self)@.life.state.spec_alive() {
                    Err::<ReadOutcome, StreamError>(StreamError::ConnectionClosed)
                } else {
                    found
                }),
    {
        let found = self.streams.read(id, max);
        proof {
            self.streams.lemma_wf_model();
        }
        let ghost witness = found;
        let waits: bool = match &found {
            Ok(ReadOutcome::Blocked) => true,
            _ => false,
        };
        if waits && !self.life.state.alive() {
            assert(old(self)@.streams.read_yields(id, max as nat, witness, self@.streams));
            return Err(StreamError::ConnectionClosed);
        }
        assert(old(self)@.streams.read_yields(id, max as nat, witness, self@.streams));
        found
    }

    /// Hands the reader the rest of the stream `id`, once all of it is
    /// there, unless that is more than `limit` bytes.
    pub fn read_to_end(&mut self, id: StreamId, limit: usize) -> (r: Result<ReadToEnd, StreamError>)
        requires
            old(self).wf(),
        ensures
            final(self).wf(),
            final(self)@ == (ConnModel { streams: final(self)@.streams, ..old(self)@ }),
            exists|found: Result<ReadToEnd, StreamError>|
                old(self)@.streams.read_to_end_yields(
                    id,
                    limit as nat,
                    found,
                    final(self)@.streams,
                ) && r == (if found matches Ok(ReadToEnd::Pending) && !old(self)@.life.state.spec_alive() {
                    Err::<ReadToEnd, StreamError>(StreamError::ConnectionClosed)
                } else {
                    found
                }),
    {
        let found = self.streams.read_to_end(id, limit);
        proof {
            self.streams.lemma_wf_model();
        }
        let ghost witness = found;
        let waits: bool = match &found {
            Ok(ReadToEnd::Pending) => true,
            _ => false,
        };
        if waits && !self.life.state.alive() {
            assert(old(self)@.streams.read_to_end_yields(id, limit as nat, witness, self@.streams));
            return Err(StreamError::ConnectionClosed);
        }
        assert(old(self)@.streams.read_to_end_yields(id, limit as nat, witness, self@.streams));
        found
    }

    /// Closes the connection from this side at `now`: the close frame goes
    /// out next, and every operation that is under way ends as closed by
    /// this side.
    pub fn close(&mut self, now: u64, code: u64, reason: &[u8])
        requires
            old(self).wf(),
        ensures
            final(self).wf(),
            final(self)@ == old(self)@.after_close(now, code, reason@),
    {
        if !self.life.state.alive() {
            return ;
        }
        let pto: u64 = self.rtt.pto(self.config.max_ack_delay);
        self.life.step(now, pto, LifeEvent::Close(ConnectionError::LocallyClosed));
        self.close_code = code;
        self.close_application = true;
        self.close_reason = crate::recv::copy_slice(reason);
        self.pto_deadline = None;
    }

    /// Takes in that the keys of `level` are there.
    pub fn on_keys(&mut self, level: Level)
        requires
            old(self).wf(),
        ensures
            final(self).wf(),
            final(self)@ == (ConnModel { keys: old(self)@.keys.with(level), ..old(self)@ }),
    {
        match level {
            Level::Initial => {},
            Level::ZeroRtt => {
                self.keys.zero_rtt = true;
            },
            Level::Handshake => {
                self.keys.handshake = true;
            },
            Level::OneRtt => {
                self.keys.one_rtt = true;
            },
        }
    }

    /// Takes in that the handshake has come to its end and what limits the
    /// peer sets.
    pub fn on_connected(&mut self, limits: PeerLimits)
        requires
            old(self).wf(),
        ensures
            final(self).wf(),
            final(self)@ == old(self)@.after_connected(limits),
    {
        match self.life.state {
            ConnState::Handshaking => {},
            ConnState::ZeroRttActive => {},
            _ => {
                return ;
            },
        }
        self.life.step(0, 0, LifeEvent::Connected);
        self.streams.set_peer_limits(limits.streams, limits.connection_window, limits.stream_window);
        proof {
            self.streams.lemma_wf_model();
        }
        if self.side == Side::Server {
            self.resend.push(SentFrame::HandshakeDone);
        }
    }

    /// Makes the streams usable ahead of the end of the handshake, under
    /// the limits `limits`.
    pub fn on_early_ready(&mut self, limits: PeerLimits)
        requires
            old(self).wf(),
        ensures
            final(self).wf(),
            final(self)@ == old(self)@.after_early_ready(limits),
    {
        match self.life.state {
            ConnState::Handshaking => {},
            _ => {
                return ;
            },
        }
        self.life.step(0, 0, LifeEvent::EarlyReady);
        self.streams.set_peer_limits(limits.streams, limits.connection_window, limits.stream_window);
        proof {
            self.streams.lemma_wf_model();
        }
    }

    /// Takes bytes of the handshake that are to travel at `level`, as a
    /// write on the sending half of that level does.
    pub fn write_crypto(&mut self, level: Level, data: &[u8]) -> (r: Result<Written, StreamError>)
        requires
            old(self).wf(),
        ensures
            final(self).wf(),
            old(self)@.pipe(level).send.write_yields(
                data@,
                u64::MAX as nat,
                r,
                final(self)@.pipe(level).send,
            ),
            final(self)@ == old(self)@.with_pipe(
                level,
                PipeModel { send: final(self)@.pipe(level).send, ..old(self)@.pipe(level) },
            ),
    {
        let r = match level {
            Level::Initial => self.initial.send.write(data, u64::MAX),
            Level::Handshake => self.handshake.send.write(data, u64::MAX),
            _ => self.data.send.write(data, u64::MAX),
        };
        proof {
            self.initial.lemma_wf_model();
            self.handshake.lemma_wf_model();
            self.data.lemma_wf_model();
        }
        r
    }

    /// Hands out the next bytes of the handshake that arrived at `level`,
    /// in order.
    pub fn read_crypto(&mut self, level: Level, max: usize) -> (r: ReadOutcome)
        requires
            old(self).wf(),
        ensures
            final(self).wf(),
            old(self)@.pipe(level).recv.read_yields(max as nat, r),
            final(self)@ == old(self)@.with_pipe(
                level,
                PipeModel {
                    recv: old(self)@.pipe(level).recv.after_read(max as nat),
                    ..old(self)@.pipe(level)
                },
            ),
    {
        let r = match level {
            Level::Initial => self.initial.recv.read(max),
            Level::Handshake => self.handshake.recv.read(max),
            _ => self.data.recv.read(max),
        };
        proof {
            self.initial.lemma_wf_model();
            self.handshake.lemma_wf_model();
            self.data.lemma_wf_model();
        }
        r
    }
}

impl ConnModel {
    /// The connection after it was learned what became of one frame that
    /// was sent. What a lost frame carried waits to be sent again: the
    /// bytes of a stream with their stream, a control frame in the queue.
    pub open spec fn after_fate(self, frame: SentFrame, acked: bool) -> ConnModel {
        match frame {
            SentFrame::Stream { id, offset, len, fin } => ConnModel {
                streams: self.streams.after_stream_fate(id, offset as nat, len as nat, fin, acked),
                ..self
            },
            SentFrame::ResetStream { id } => ConnModel {
                streams: self.streams.after_reset_fate(id, acked),
                ..self
            },
            SentFrame::Crypto { level, offset, len } => self.with_pipe(
                level,
                self.pipe(level).after_fate(offset as nat, len as nat, acked),
            ),
            SentFrame::Ping => self,
            other => if acked {
                self
            } else {
                ConnModel { resend: self.resend.push(other), ..self }
            },
        }
    }

    /// The same for a run of frames, one after the other.
    pub open spec fn after_fates(self, frames: Seq<SentFrame>, acked: bool) -> ConnModel
        decreases frames.len(),
    {
        if frames.len() == 0 {
            self
        } else {
            self.after_fates(frames.drop_last(), acked).after_fate(frames.last(), acked)
        }
    }

    /// The connection after it was learned what became of the packet
    /// `number`: the congestion controller takes note, then every frame of
    /// the packet meets its fate.
    pub open spec fn after_packet(self, number: u64, acked: bool, now: u64) -> ConnModel {
        if number < self.ledger.packets.len() {
            let p = self.ledger.packets[number as int];
            (ConnModel {
                cc: if acked {
                    self.cc.after_ack(p.size, p.time_sent)
                } else {
                    self.cc.after_loss(p.size, p.time_sent, now)
                },
                ..self
            }).after_fates(p.frames, acked)
        } else {
            self
        }
    }

    /// The same for a run of packets, one after the other.
    pub open spec fn after_packets(self, numbers: Seq<u64>, acked: bool, now: u64) -> ConnModel
        decreases numbers.len(),
    {
        if numbers.len() == 0 {
            self
        } else {
            self.after_packets(numbers.drop_last(), acked, now).after_packet(
                numbers.last(),
                acked,
                now,
            )
        }
    }

    /// When an acknowledgment is overdue, counted from `now`: there is such
    /// a time while the peer owes an acknowledgment.
    pub open spec fn armed(self, now: u64) -> Option<u64> {
        if self.ledger.any_awaited() {
            Some(later(now, self.backoff.spec_wait(self.pto())))
        } else {
            None
        }
    }

    /// The estimate of the round-trip time after the packets `acked` were
    /// acknowledged at `now`: the newest of them gives a sample, if the peer
    /// owed an acknowledgment for it.
    pub open spec fn sampled(self, acked: Seq<u64>, now: u64, delay: u64) -> RttEstimator {
        if acked.len() > 0 && acked.last() < self.ledger.packets.len() {
            let p = self.ledger.packets[acked.last() as int];
            if p.ack_eliciting && now >= p.time_sent {
                self.rtt.after_sample((now - p.time_sent) as u64, delay)
            } else {
                self.rtt
            }
        } else {
            self.rtt
        }
    }

    /// The connection after an acknowledgment of the peer that names only
    /// packets that were sent. The packets that it acknowledges for the
    /// first time meet their fate, then those that count as lost by now.
    #[verifier::opaque]
    pub open spec fn after_ack_frame(self, now: u64, delay: u64, ranges: Seq<AckRange>) -> ConnModel {
        let acked = picked(self.ledger.ack_flags(ranges), self.ledger.packets.len());
        let rtt = self.sampled(acked, now, delay);
        let first = (ConnModel { ledger: self.ledger.after_ack(ranges), rtt, ..self }).after_packets(
            acked,
            true,
            now,
        );
        let age = rtt.spec_loss_delay(self.config.max_ack_delay);
        let lost = picked(first.ledger.loss_flags(now, age), first.ledger.packets.len());
        let second = (ConnModel { ledger: first.ledger.after_detect(now, age), ..first }).after_packets(
            lost,
            false,
            now,
        );
        let third = ConnModel {
            backoff: if acked.len() > 0 {
                Backoff { factor: 1, ..second.backoff }
            } else {
                second.backoff
            },
            ..second
        };
        ConnModel { pto_deadline: third.armed(now), ..third }
    }
}

/// Whether every stream holds in `after` the bytes that it held in
/// `before`: nothing that a writer wrote has gone.
pub open spec fn same_written(before: TableModel, after: TableModel) -> bool {
    &&& after.slots.len() == before.slots.len()
    &&& forall|j: int|
        0 <= j < before.slots.len() ==> (#[trigger] after.slots[j]).send.data
            == before.slots[j].send.data
}

/// What arrived before a connection ended can still be read after: a read
/// that finds bytes hands them out, whatever has become of the connection.
pub proof fn lemma_read_after_end(before: Connection, id: StreamId, max: nat, r: Result<ReadOutcome, StreamError>, after: Connection)
    requires
        before.wf(),
        Connection::reads(before, id, max, r, after),
        before@.streams.has_recv(id),
        before@.streams.slot(id).recv.available() > 0,
    ensures
        r matches Ok(ReadOutcome::Data(v)) && v@ == before@.streams.slot(id).recv.read_data(max),
{
    let found = choose|found: Result<ReadOutcome, StreamError>|
        before@.streams.read_yields(id, max, found, after@.streams) && r == (if found matches Ok(
            ReadOutcome::Blocked,
        ) && !before@.life.state.spec_alive() {
            Err::<ReadOutcome, StreamError>(StreamError::ConnectionClosed)
        } else {
            found
        });
    assert(found is Ok);
}

/// The fates of frames leave the ledger, the life and the configuration of
/// a connection alone and keep the connection valid.
pub proof fn lemma_fates_keep(m: ConnModel, frames: Seq<SentFrame>, acked: bool)
    ensures
        m.after_fates(frames, acked).ledger == m.ledger,
        m.after_fates(frames, acked).life == m.life,
        m.after_fates(frames, acked).config == m.config,
        m.after_fates(frames, acked).rtt == m.rtt,
        m.after_fates(frames, acked).cc == m.cc,
        m.after_fates(frames, acked).backoff == m.backoff,
        m.after_fates(frames, acked).side == m.side,
    decreases frames.len(),
{
    if frames.len() > 0 {
        lemma_fates_keep(m, frames.drop_last(), acked);
    }
}

impl Connection {
    /// Takes in what became of bytes of the handshake that were sent at
    /// `level`.
    fn crypto_fate(&mut self, level: Level, offset: u64, len: u64, acked: bool)
        requires
            old(self).wf(),
        ensures
            final(self).wf(),
            final(self)@ == old(self)@.with_pipe(
                level,
                old(self)@.pipe(level).after_fate(offset as nat, len as nat, acked),
            ),
    {
        match level {
            Level::Initial => {
                self.initial.fate(offset, len, acked);
            },
            Level::Handshake => {
                self.handshake.fate(offset, len, acked);
            },
            _ => {
                self.data.fate(offset, len, acked);
            },
        }
    }

    /// Takes in what became of a frame of a stream that was sent.
    fn stream_fate(&mut self, frame: SentFrame, acked: bool)
        requires
            old(self).wf(),
            frame is Stream || frame is ResetStream,
        ensures
            final(self).wf(),
            final(self)@ == old(self)@.after_fate(frame, acked),
            same_written(old(self)@.streams, final(self)@.streams),
    {
        proof {
            self.streams.lemma_wf_model();
        }
        match frame {
            SentFrame::Stream { id, offset, len, fin } => {
                self.streams.on_stream_fate(id, offset, len, fin, acked);
            },
            SentFrame::ResetStream { id } => {
                self.streams.on_reset_fate(id, acked);
            },
            _ => {},
        }
    }

    /// Takes in what became of one frame that was sent.
    fn apply_fate(&mut self, frame: SentFrame, acked: bool)
        requires
            old(self).wf(),
        ensures
            final(self).wf(),
            final(self)@ == old(self)@.after_fate(frame, acked),
            same_written(old(self)@.streams, final(self)@.streams),
    {
        match frame {
            SentFrame::Stream { .. } => {
                self.stream_fate(frame, acked);
            },
            SentFrame::ResetStream { .. } => {
                self.stream_fate(frame, acked);
            },
            SentFrame::Crypto { level, offset, len } => {
                self.crypto_fate(level, offset, len, acked);
            },
            SentFrame::Ping => {},
            other => {
                if !acked {
                    self.resend.push(other);
                }
            },
        }
    }

    /// Takes in what became of the packet `number`.
    fn apply_packet(&mut self, number: u64, acked: bool, now: u64)
        requires
            old(self).wf(),
        ensures
            final(self).wf(),
            final(self)@ == old(self)@.after_packet(number, acked, now),
            final(self)@.ledger == old(self)@.ledger,
            final(self)@.life == old(self)@.life,
            final(self)@.config == old(self)@.config,
            final(self)@.rtt == old(self)@.rtt,
            final(self)@.backoff == old(self)@.backoff,
    {
        let info: PacketInfo = match self.ledger.info(number) {
            Some(i) => i,
            None => {
                return ;
            },
        };
        if acked {
            self.cc.on_ack(info.size, info.time_sent);
        } else {
            self.cc.on_loss(info.size, info.time_sent, now);
        }
        let ghost start = self@;
        let ghost frames = start.ledger.packets[number as int].frames;
        let mut k: usize = 0;
        while k < info.frames
            invariant
                k <= info.frames,
                info.frames == frames.len(),
                self.wf(),
                number < start.ledger.packets.len(),
                frames == start.ledger.packets[number as int].frames,
                self@.ledger == start.ledger,
                self@ == start.after_fates(frames.take(k as int), acked),
            decreases info.frames - k,
        {
            let frame: SentFrame = match self.ledger.frame(number, k) {
                Some(f) => f,
                None => {
                    proof {
                        assert(false);
                    }
                    return ;
                },
            };
            let ghost before = self@;
            self.apply_fate(frame, acked);
            k = k + 1;
            proof {
                assert(frames.take(k as int).drop_last() =~= frames.take(k - 1));
                assert(frames.take(k as int).last() == frame);
                lemma_fates_keep(start, frames.take(k as int), acked);
            }
        }
        proof {
            assert(frames.take(k as int) =~= frames);
            lemma_fates_keep(start, frames, acked);
        }
    }

    /// Takes in what became of the packets `numbers`, one after the other.
    fn apply_packets(&mut self, numbers: &Vec<u64>, acked: bool, now: u64)
        requires
            old(self).wf(),
        ensures
            final(self).wf(),
            final(self)@ == old(self)@.after_packets(numbers@, acked, now),
            final(self)@.ledger == old(self)@.ledger,
            final(self)@.life == old(self)@.life,
            final(self)@.config == old(self)@.config,
            final(self)@.rtt == old(self)@.rtt,
            final(self)@.backoff == old(self)@.backoff,
    {
        let ghost start = self@;
        let mut i: usize = 0;
        while i < numbers.len()
            invariant
                i <= numbers@.len(),
                self.wf(),
                self@ == start.after_packets(numbers@.take(i as int), acked, now),
                self@.ledger == start.ledger,
                self@.life == start.life,
                self@.config == start.config,
                self@.rtt == start.rtt,
                self@.backoff == start.backoff,
            decreases numbers@.len() - i,
        {
            self.apply_packet(numbers[i], acked, now);
            i = i + 1;
            proof {
                assert(numbers@.take(i as int).drop_last() =~= numbers@.take(i - 1));
                assert(numbers@.take(i as int).last() == numbers@[i - 1]);
            }
        }
        proof {
            assert(numbers@.take(i as int) =~= numbers@);
        }
    }

    /// Sets the time at which an acknowledgment is overdue, counted from
    /// `now`.
    fn arm(&mut self, now: u64)
        requires
            old(self).wf(),
        ensures
            final(self).wf(),
            final(self)@ == (ConnModel { pto_deadline: old(self)@.armed(now), ..old(self)@ }),
    {
        self.pto_deadline = match self.ledger.oldest_awaited() {
            Some(_) => {
                let base: u64 = self.rtt.pto(self.config.max_ack_delay);
                Some(crate::lifecycle::later_at(now, self.backoff.wait(base)))
            },
            None => None,
        };
    }

    /// Marks what the peer acknowledges and takes the sample of the
    /// round-trip time that the acknowledgment gives.
    fn note_ack(&mut self, now: u64, delay: u64, ranges: &Vec<AckRange>) -> (r: Option<Vec<u64>>)
        requires
            old(self).wf(),
        ensures
            final(self).wf(),
            r is Some <==> forall|n: u64|
                crate::recovery::in_ranges(ranges@, n) ==> n < old(self)@.ledger.packets.len(),
            r is None ==> final(self)@ == old(self)@,
            r matches Some(acked) ==> acked@ == picked(
                old(self)@.ledger.ack_flags(ranges@),
                old(self)@.ledger.packets.len(),
            ) && final(self)@ == (ConnModel {
                ledger: old(self)@.ledger.after_ack(ranges@),
                rtt: old(self)@.sampled(acked@, now, delay),
                ..old(self)@
            }),
    {
        let acked: Vec<u64> = match self.ledger.on_ack(ranges) {
            Some(a) => a,
            None => {
                return None;
            },
        };
        if acked.len() > 0 {
            let newest: u64 = acked[acked.len() - 1];
            match self.ledger.info(newest) {
                Some(info) => {
                    if info.ack_eliciting && now >= info.time_sent {
                        self.rtt.update(now - info.time_sent, delay);
                    }
                },
                None => {},
            }
        }
        Some(acked)
    }

    /// Finds the packets that count as lost at `now`.
    fn find_lost(&mut self, now: u64) -> (lost: Vec<u64>)
        requires
            old(self).wf(),
        ensures
            final(self).wf(),
            lost@ == picked(
                old(self)@.ledger.loss_flags(
                    now,
                    old(self)@.rtt.spec_loss_delay(old(self)@.config.max_ack_delay),
                ),
                old(self)@.ledger.packets.len(),
            ),
            final(self)@ == (ConnModel {
                ledger: old(self)@.ledger.after_detect(
                    now,
                    old(self)@.rtt.spec_loss_delay(old(self)@.config.max_ack_delay),
                ),
                ..old(self)@
            }),
    {
        let age: u64 = self.rtt.loss_delay(self.config.max_ack_delay);
        self.ledger.detect_lost(now, age)
    }

    /// Sets the wait for an acknowledgment anew: the plain one if the peer
    /// has answered.
    fn rearm(&mut self, now: u64, answered: bool)
        requires
            old(self).wf(),
        ensures
            final(self).wf(),
            final(self)@ == ({
                let third = ConnModel {
                    backoff: if answered {
                        Backoff { factor: 1, ..old(self)@.backoff }
                    } else {
                        old(self)@.backoff
                    },
                    ..old(self)@
                };
                ConnModel { pto_deadline: third.armed(now), ..third }
            }),
    {
        if answered {
            self.backoff.reset();
        }
        self.arm(now);
    }

    /// Takes in an acknowledgment of the peer, which arrived at `now` and
    /// was held back by `delay`. An acknowledgment of a packet that was
    /// never sent is a breach of the protocol and changes nothing.
    pub fn on_ack_frame(&mut self, now: u64, delay: u64, ranges: &Vec<AckRange>) -> (r: Result<
        (),
        TransportErrorCode,
    >)
        requires
            old(self).wf(),
        ensures
            final(self).wf(),
            r is Ok <==> forall|n: u64|
                crate::recovery::in_ranges(ranges@, n) ==> n < old(self)@.ledger.packets.len(),
            r is Ok ==> final(self)@ == old(self)@.after_ack_frame(now, delay, ranges@),
            r is Err ==> r == Err::<(), TransportErrorCode>(TransportErrorCode::ProtocolViolation)
                && final(self)@ == old(self)@,
            final(self)@.life == old(self)@.life,
            final(self)@.config == old(self)@.config,
    {
        proof {
            reveal(ConnModel::after_ack_frame);
        }
        let acked: Vec<u64> = match self.note_ack(now, delay, ranges) {
            Some(a) => a,
            None => {
                return Err(TransportErrorCode::ProtocolViolation);
            },
        };
        self.apply_packets(&acked, true, now);
        let lost: Vec<u64> = self.find_lost(now);
        self.apply_packets(&lost, false, now);
        self.rearm(now, acked.len() > 0);
        Ok(())
    }
}

/// How many runs of packet numbers are kept for acknowledgment.
pub const MAX_ACK_RANGES: usize = 32;

/// What a frame of the peer leads to beside its effect.
#[derive(Clone, Copy, Debug, PartialEq, Eq, Structural)]
pub enum Ending {
    /// The peer broke the protocol.
    Breach(TransportErrorCode),
    /// The peer closed the connection.
    PeerClosed(ConnectionError),
}

/// The breach that the finding of a stream stands for.
pub open spec fn breach_of(found: FrameError) -> TransportErrorCode {
    match found {
        FrameError::FlowControl => TransportErrorCode::FlowControl,
        FrameError::FinalSize => TransportErrorCode::FinalSize,
    }
}

/// The runs that are to be acknowledged after the packet `number` arrived:
/// the number joins the newest run if it follows it, and opens a run of its
/// own if not; the oldest run goes when there are too many.
pub open spec fn noted(acks: Seq<AckRange>, number: u64) -> Seq<AckRange> {
    if acks.len() > 0 && acks.last().last + 1 == number {
        acks.update(acks.len() - 1, AckRange { first: acks.last().first, last: number })
    } else {
        let longer = acks.push(AckRange { first: number, last: number });
        if longer.len() > MAX_ACK_RANGES {
            longer.remove(0)
        } else {
            longer
        }
    }
}

/// Whether the data of streams may travel at `level`.
pub open spec fn carries_data(level: Level) -> bool {
    level == Level::ZeroRtt || level == Level::OneRtt
}

impl ConnModel {
    /// What bytes of the handshake that arrive at `level` lead to.
    #[verifier::opaque]
    pub open spec fn take_crypto(self, level: Level, offset: u64, data: Seq<u8>) -> (
        ConnModel,
        Option<Ending>,
    ) {
        if level == Level::ZeroRtt {
            (self, Some(Ending::Breach(TransportErrorCode::ProtocolViolation)))
        } else {
            match self.pipe(level).recv.frame_error(offset as nat, data.len(), false) {
                Some(e) => (self, Some(Ending::Breach(breach_of(e)))),
                None => (
                    self.with_pipe(
                        level,
                        PipeModel {
                            recv: self.pipe(level).recv.on_frame(offset as nat, data, false),
                            ..self.pipe(level)
                        },
                    ),
                    None,
                ),
            }
        }
    }

    /// What a frame that concerns the streams leads to for the table.
    #[verifier::opaque]
    pub open spec fn take_table(self, f: FrameModel) -> (TableModel, Option<TransportErrorCode>) {
        let t = self.streams;
        match f {
            FrameModel::Stream { id, offset, data, fin } => match t.stream_frame_error(
                id,
                offset as nat,
                data.len(),
                fin,
            ) {
                Some(e) => (t.refused(id), Some(e)),
                None => (t.after_stream_frame(id, offset as nat, data, fin), None),
            },
            FrameModel::ResetStream { id, code, final_size } => match t.reset_stream_error(
                id,
                final_size as nat,
            ) {
                Some(e) => (t.refused_reset(id, code, final_size as nat), Some(e)),
                None => (t.after_reset_stream(id, code, final_size as nat), None),
            },
            FrameModel::StopSending { id, code } => match t.admit_error(id, true) {
                Some(e) => (t, Some(e)),
                None => (t.after_stop_sending(id, code), None),
            },
            FrameModel::MaxData(limit) => (
                TableModel { conn_send: t.conn_send.raise(limit as nat), ..t },
                None,
            ),
            FrameModel::MaxStreamData { id, limit } => match t.admit_error(id, true) {
                Some(e) => (t, Some(e)),
                None => (t.after_max_stream_data(id, limit), None),
            },
            FrameModel::MaxStreams { dir, limit } => (
                TableModel { peer_max: t.raised_peer_max(dir, limit), ..t },
                None,
            ),
            _ => (t, None),
        }
    }

    /// Whether a frame concerns the streams.
    pub open spec fn for_table(f: FrameModel) -> bool {
        f is Stream || f is ResetStream || f is StopSending || f is MaxData || f is MaxStreamData
            || f is MaxStreams
    }

    /// What one frame of the peer leads to, when it arrives at `now` in a
    /// packet of `level`: the connection afterwards, and the ending if the
    /// frame ends the connection.
    #[verifier::opaque]
    pub open spec fn take_frame(self, now: u64, level: Level, f: FrameModel) -> (
        ConnModel,
        Option<Ending>,
    ) {
        match f {
            FrameModel::Ping => (self, None),
            FrameModel::Ack { delay, ranges } => if forall|n: u64|
                in_ranges(ranges, n) ==> n < self.ledger.packets.len() {
                (self.after_ack_frame(now, delay, ranges), None)
            } else {
                (self, Some(Ending::Breach(TransportErrorCode::ProtocolViolation)))
            },
            FrameModel::Crypto { offset, data } => self.take_crypto(level, offset, data),
            FrameModel::HandshakeDone => if self.side == Side::Server {
                (self, Some(Ending::Breach(TransportErrorCode::ProtocolViolation)))
            } else {
                (self, None)
            },
            FrameModel::Close { code, application, reason } => (
                self,
                Some(
                    Ending::PeerClosed(
                        if application {
                            ConnectionError::ApplicationClosed(code)
                        } else {
                            ConnectionError::TransportError(
                                TransportErrorCode::spec_from_code(code),
                            )
                        },
                    ),
                ),
            ),
            _ => if !carries_data(level) {
                (self, Some(Ending::Breach(TransportErrorCode::ProtocolViolation)))
            } else {
                (
                    ConnModel { streams: self.take_table(f).0, ..self },
                    match self.take_table(f).1 {
                        Some(e) => Some(Ending::Breach(e)),
                        None => None,
                    },
                )
            },
        }
    }

    /// The connection after an ending: a breach of the peer closes the
    /// connection with the number of the breach, a close of the peer drains
    /// it.
    #[verifier::opaque]
    pub open spec fn concluded(self, now: u64, ending: Option<Ending>) -> ConnModel {
        match ending {
            None => self,
            Some(Ending::Breach(e)) => if self.life.state.spec_alive() {
                ConnModel {
                    life: self.life.after(
                        now,
                        self.pto(),
                        LifeEvent::Close(ConnectionError::TransportError(e)),
                    ),
                    close: CloseModel { code: e.spec_code(), application: false, reason: Seq::empty() },
                    pto_deadline: None,
                    ..self
                }
            } else {
                self
            },
            Some(Ending::PeerClosed(e)) => ConnModel {
                life: self.life.after(now, self.pto(), LifeEvent::PeerClosed(e)),
                pto_deadline: None,
                ..self
            },
        }
    }

    /// The connection after one frame of a packet. A connection that has
    /// begun to end looks at nothing but the close of the peer.
    #[verifier::opaque]
    pub open spec fn after_frame(self, now: u64, level: Level, f: FrameModel) -> ConnModel {
        if self.life.state.spec_alive() {
            self.take_frame(now, level, f).0.concluded(now, self.take_frame(now, level, f).1)
        } else if self.life.state == ConnState::Closing && f is Close {
            self.concluded(now, self.take_frame(now, level, f).1)
        } else {
            self
        }
    }

    /// The connection after the frames of a packet, one after the other.
    pub open spec fn after_frames(self, now: u64, level: Level, frames: Seq<FrameModel>) -> ConnModel
        decreases frames.len(),
    {
        if frames.len() == 0 {
            self
        } else {
            self.after_frames(now, level, frames.drop_last()).after_frame(now, level, frames.last())
        }
    }

    /// Whether a packet of `level` is looked at: the keys must be there, and
    /// a connection that drains or is over looks at nothing.
    pub open spec fn hears(self, level: Level) -> bool {
        self.keys.spec_has(level) && self.life.state != ConnState::Draining && self.life.state
            != ConnState::Closed
    }

    /// The connection after a packet arrived at `now`.
    #[verifier::opaque]
    pub open spec fn after_received(self, now: u64, level: Level, number: u64, frames: Seq<FrameModel>) -> ConnModel {
        if !self.hears(level) {
            self
        } else {
            let owed = self.life.state.spec_alive() && any_eliciting(frames);
            (ConnModel {
                life: self.life.after(now, self.pto(), LifeEvent::Received),
                acks: if owed {
                    noted(self.acks, number)
                } else {
                    self.acks
                },
                ack_due: self.ack_due || owed,
                ..self
            }).after_frames(now, level, frames)
        }
    }
}

impl Connection {
    /// Takes in bytes of the handshake that arrived at `level`.
    fn take_crypto(&mut self, level: Level, offset: u64, data: &[u8]) -> (v: Option<Ending>)
        requires
            old(self).wf(),
        ensures
            final(self).wf(),
            (final(self)@, v) == old(self)@.take_crypto(level, offset, data@),
    {
        proof {
            reveal(ConnModel::take_crypto);
        }
        let r = match level {
            Level::ZeroRtt => {
                return Some(Ending::Breach(TransportErrorCode::ProtocolViolation));
            },
            Level::Initial => self.initial.recv.on_frame(offset, data, false),
            Level::Handshake => self.handshake.recv.on_frame(offset, data, false),
            Level::OneRtt => self.data.recv.on_frame(offset, data, false),
        };
        match r {
            Ok(_) => None,
            Err(FrameError::FlowControl) => Some(Ending::Breach(TransportErrorCode::FlowControl)),
            Err(FrameError::FinalSize) => Some(Ending::Breach(TransportErrorCode::FinalSize)),
        }
    }

    /// Takes in a frame that concerns the streams.
    fn take_table(&mut self, frame: &Frame) -> (e: Option<TransportErrorCode>)
        requires
            old(self).wf(),
            ConnModel::for_table(frame@),
        ensures
            final(self).wf(),
            final(self)@ == (ConnModel { streams: old(self)@.take_table(frame@).0, ..old(self)@ }),
            e == old(self)@.take_table(frame@).1,
    {
        proof {
            reveal(ConnModel::take_table);
        }
        let r = match frame {
            Frame::Stream { id, offset, data, fin } => self.streams.on_stream_frame(
                *id,
                *offset,
                data.as_slice(),
                *fin,
            ),
            Frame::ResetStream { id, code, final_size } => self.streams.on_reset_stream(
                *id,
                *code,
                *final_size,
            ),
            Frame::StopSending { id, code } => self.streams.on_stop_sending(*id, *code),
            Frame::MaxData(limit) => {
                self.streams.on_max_data(*limit);
                Ok(())
            },
            Frame::MaxStreamData { id, limit } => self.streams.on_max_stream_data(*id, *limit),
            Frame::MaxStreams { dir, limit } => {
                self.streams.on_max_streams(*dir, *limit);
                Ok(())
            },
            _ => Ok(()),
        };
        match r {
            Ok(()) => None,
            Err(e) => Some(e),
        }
    }

    /// Takes in one frame of the peer.
    fn take_frame(&mut self, now: u64, level: Level, frame: &Frame) -> (v: Option<Ending>)
        requires
            old(self).wf(),
        ensures
            final(self).wf(),
            (final(self)@, v) == old(self)@.take_frame(now, level, frame@),
    {
        proof {
            reveal(ConnModel::take_frame);
        }
        match frame {
            Frame::Ping => None,
            Frame::Ack { delay, ranges } => {
                match self.on_ack_frame(now, *delay, ranges) {
                    Ok(()) => None,
                    Err(e) => Some(Ending::Breach(e)),
                }
            },
            Frame::Crypto { offset, data } => self.take_crypto(level, *offset, data.as_slice()),
            Frame::HandshakeDone => {
                if self.side == Side::Server {
                    Some(Ending::Breach(TransportErrorCode::ProtocolViolation))
                } else {
                    None
                }
            },
            Frame::Close { code, application, reason } => {
                Some(
                    Ending::PeerClosed(
                        if *application {
                            ConnectionError::ApplicationClosed(*code)
                        } else {
                            ConnectionError::TransportError(TransportErrorCode::from_code(*code))
                        },
                    ),
                )
            },
            _ => {
                let data_level: bool = match level {
                    Level::ZeroRtt => true,
                    Level::OneRtt => true,
                    _ => false,
                };
                if !data_level {
                    Some(Ending::Breach(TransportErrorCode::ProtocolViolation))
                } else {
                    match self.take_table(frame) {
                        Some(e) => Some(Ending::Breach(e)),
                        None => None,
                    }
                }
            },
        }
    }

    /// Draws the consequence of an ending.
    fn conclude(&mut self, now: u64, ending: Option<Ending>)
        requires
            old(self).wf(),
        ensures
            final(self).wf(),
            final(self)@ == old(self)@.concluded(now, ending),
    {
        proof {
            reveal(ConnModel::concluded);
        }
        let pto: u64 = self.rtt.pto(self.config.max_ack_delay);
        match ending {
            None => {},
            Some(Ending::Breach(e)) => {
                if self.life.state.alive() {
                    self.life.step(now, pto, LifeEvent::Close(ConnectionError::TransportError(e)));
                    self.close_code = e.code();
                    self.close_application = false;
                    self.close_reason = Vec::new();
                    self.pto_deadline = None;
                }
            },
            Some(Ending::PeerClosed(e)) => {
                self.life.step(now, pto, LifeEvent::PeerClosed(e));
                self.pto_deadline = None;
            },
        }
    }

    /// Takes in one frame of a packet of the peer.
    pub fn on_frame(&mut self, now: u64, level: Level, frame: &Frame)
        requires
            old(self).wf(),
        ensures
            final(self).wf(),
            final(self)@ == old(self)@.after_frame(now, level, frame@),
    {
        proof {
            reveal(ConnModel::after_frame);
            reveal(ConnModel::take_frame);
        }
        if self.life.state.alive() {
            let v = self.take_frame(now, level, frame);
            self.conclude(now, v);
        } else if self.life.state == ConnState::Closing {
            match frame {
                Frame::Close { code, application, reason } => {
                    let e = if *application {
                        ConnectionError::ApplicationClosed(*code)
                    } else {
                        ConnectionError::TransportError(TransportErrorCode::from_code(*code))
                    };
                    self.conclude(now, Some(Ending::PeerClosed(e)));
                },
                _ => {},
            }
        }
    }

    /// Notes that the packet `number` is to be acknowledged.
    fn note(&mut self, number: u64)
        requires
            old(self).wf(),
        ensures
            final(self).wf(),
            final(self)@ == (ConnModel {
                acks: noted(old(self)@.acks, number),
                ack_due: true,
                ..old(self)@
            }),
    {
        let n: usize = self.acks.len();
        let joins: bool = n > 0 && self.acks[n - 1].last < u64::MAX && self.acks[n - 1].last + 1
            == number;
        if joins {
            let first: u64 = self.acks[n - 1].first;
            self.acks.set(n - 1, AckRange { first, last: number });
        } else {
            self.acks.push(AckRange { first: number, last: number });
            if self.acks.len() > MAX_ACK_RANGES {
                let dropped = self.acks.remove(0);
            }
        }
        self.ack_due = true;
    }

    /// Takes in a packet of the peer that arrived at `now`. A packet for
    /// which the keys are missing is dropped, as is every packet once the
    /// connection drains.
    pub fn handle_packet(&mut self, now: u64, packet: &Packet)
        requires
            old(self).wf(),
        ensures
            final(self).wf(),
            final(self)@ == old(self)@.after_received(
                now,
                packet.level,
                packet.number,
                frame_views(packet.frames@),
            ),
    {
        proof {
            reveal(ConnModel::after_received);
        }
        let hears: bool = self.keys.has(packet.level) && self.life.state != ConnState::Draining
            && self.life.state != ConnState::Closed;
        if !hears {
            return ;
        }
        let owed: bool = self.life.state.alive() && eliciting(&packet.frames);
        let pto: u64 = self.rtt.pto(self.config.max_ack_delay);
        self.life.step(now, pto, LifeEvent::Received);
        if owed {
            self.note(packet.number);
        }
        let ghost start = self@;
        let ghost frames = frame_views(packet.frames@);
        let mut k: usize = 0;
        while k < packet.frames.len()
            invariant
                k <= packet.frames@.len(),
                frames == frame_views(packet.frames@),
                self.wf(),
                self@ == start.after_frames(now, packet.level, frames.take(k as int)),
            decreases packet.frames@.len() - k,
        {
            self.on_frame(now, packet.level, &packet.frames[k]);
            k = k + 1;
            proof {
                assert(frames.take(k as int).drop_last() =~= frames.take(k - 1));
                assert(frames.take(k as int).last() == packet.frames@[k - 1]@);
            }
        }
        proof {
            assert(frames.take(k as int) =~= frames);
        }
    }
}

/// What a packet carries beside an acknowledgment: one frame, the level at
/// which it travels, and what the ledger keeps of it.
#[derive(Debug)]
pub struct Payload {
    pub level: Level,
    pub frame: Frame,
    pub sent: SentFrame,
}

pub struct PayloadModel {
    pub level: Level,
    pub frame: FrameModel,
    pub sent: SentFrame,
}

impl View for Payload {
    type V = PayloadModel;

    open spec fn view(&self) -> PayloadModel {
        PayloadModel { level: self.level, frame: self.frame@, sent: self.sent }
    }
}

/// A packet as a mathematical value.
pub struct PacketView {
    pub level: Level,
    pub number: u64,
    pub frames: Seq<FrameModel>,
}

impl View for Packet {
    type V = PacketView;

    open spec fn view(&self) -> PacketView {
        PacketView { level: self.level, number: self.number, frames: frame_views(self.frames@) }
    }
}

/// The bytes of streams and of the handshake that the frames carry.
pub open spec fn carried(frames: Seq<FrameModel>) -> nat
    decreases frames.len(),
{
    if frames.len() == 0 {
        0
    } else {
        carried(frames.drop_last()) + match frames.last() {
            FrameModel::Stream { id, offset, data, fin } => data.len(),
            FrameModel::Crypto { offset, data } => data.len(),
            _ => 0,
        }
    }
}

/// The size that counts for a packet with the frames `frames`.
pub open spec fn wire_size(frames: Seq<FrameModel>) -> nat {
    PACKET_OVERHEAD as nat + carried(frames)
}

impl Packet {
    /// The size that counts for the packet, cut down to what a counter can
    /// hold.
    pub fn size(&self) -> (s: u64)
        ensures
            s == (if wire_size(self@.frames) <= u64::MAX {
                wire_size(self@.frames) as u64
            } else {
                u64::MAX
            }),
    {
        let ghost frames = frame_views(self.frames@);
        let mut total: u64 = PACKET_OVERHEAD;
        let mut k: usize = 0;
        while k < self.frames.len()
            invariant
                k <= self.frames@.len(),
                frames == frame_views(self.frames@),
                total == (if wire_size(frames.take(k as int)) <= u64::MAX {
                    wire_size(frames.take(k as int)) as u64
                } else {
                    u64::MAX
                }),
            decreases self.frames@.len() - k,
        {
            let len: u64 = match &self.frames[k] {
                Frame::Stream { id, offset, data, fin } => data.len() as u64,
                Frame::Crypto { offset, data } => data.len() as u64,
                _ => 0,
            };
            proof {
                assert(frames.take(k + 1).drop_last() =~= frames.take(k as int));
                assert(frames.take(k + 1).last() == self.frames@[k as int]@);
            }
            total = if len > u64::MAX - total { u64::MAX } else { total + len };
            k = k + 1;
        }
        proof {
            assert(frames.take(k as int) =~= frames);
        }
        total
    }
}

/// The payload as a mathematical value, if there is one.
pub open spec fn payload_view(o: Option<Payload>) -> Option<PayloadModel> {
    match o {
        Some(p) => Some(p@),
        None => None,
    }
}

/// The packet as a mathematical value, if there is one.
pub open spec fn packet_view(o: Option<Packet>) -> Option<PacketView> {
    match o {
        Some(p) => Some(p@),
        None => None,
    }
}

/// The frame that carries a piece of the handshake, with what the ledger
/// keeps of it.
pub open spec fn crypto_payload(level: Level, f: StreamFrame) -> PayloadModel {
    PayloadModel {
        level,
        frame: FrameModel::Crypto { offset: f.offset as u64, data: f.data },
        sent: SentFrame::Crypto { level, offset: f.offset as u64, len: f.data.len() as u64 },
    }
}

/// The frame that carries a piece of the stream `id`, with what the ledger
/// keeps of it.
pub open spec fn stream_payload(level: Level, id: StreamId, f: StreamFrame) -> PayloadModel {
    PayloadModel {
        level,
        frame: FrameModel::Stream { id, offset: f.offset as u64, data: f.data, fin: f.fin },
        sent: SentFrame::Stream { id, offset: f.offset as u64, len: f.data.len() as u64, fin: f.fin },
    }
}

/// What the ledger keeps of a control frame of the table of streams.
pub open spec fn sent_of(f: FrameModel) -> SentFrame {
    match f {
        FrameModel::MaxData(_) => SentFrame::MaxData,
        FrameModel::MaxStreams { dir, limit } => SentFrame::MaxStreams { dir },
        FrameModel::MaxStreamData { id, limit } => SentFrame::MaxStreamData { id },
        FrameModel::ResetStream { id, code, final_size } => SentFrame::ResetStream { id },
        FrameModel::HandshakeDone => SentFrame::HandshakeDone,
        _ => SentFrame::Ping,
    }
}

/// How many bytes of a stream or of the handshake the payload `p` carries.
pub open spec fn payload_len(p: PayloadModel) -> nat {
    match p.frame {
        FrameModel::Stream { id, offset, data, fin } => data.len(),
        FrameModel::Crypto { offset, data } => data.len(),
        _ => 0,
    }
}

/// The size that counts for a packet with the payload `p`.
pub open spec fn payload_size(p: PayloadModel) -> u64 {
    (PACKET_OVERHEAD + payload_len(p)) as u64
}

impl ConnModel {
    /// How many bytes of a stream or of the handshake one packet carries at
    /// most.
    pub open spec fn max_payload(self) -> nat {
        let room = (self.config.max_datagram_size - PACKET_OVERHEAD) as nat;
        if room <= usize::MAX {
            room
        } else {
            usize::MAX as nat
        }
    }

    /// How many bytes of a stream the next packet may carry: what fits the
    /// packet and what fits under the congestion window.
    pub open spec fn stream_room(self) -> nat {
        let room = if self.cc.window > self.cc.in_flight {
            (self.cc.window - self.cc.in_flight) as nat
        } else {
            0
        };
        if room > PACKET_OVERHEAD {
            if room - PACKET_OVERHEAD < self.max_payload() {
                (room - PACKET_OVERHEAD) as nat
            } else {
                self.max_payload()
            }
        } else {
            0
        }
    }

    /// The frame that announces anew what the lost control frame `s`
    /// announced, with the value of now.
    pub open spec fn resend_frame(self, s: SentFrame) -> FrameModel {
        match s {
            SentFrame::MaxData => FrameModel::MaxData(self.streams.conn_recv.window.granted as u64),
            SentFrame::MaxStreamData { id } => if self.streams.is_open(id) {
                FrameModel::MaxStreamData {
                    id,
                    limit: self.streams.slot(id).recv.credit.window.granted as u64,
                }
            } else {
                FrameModel::Ping
            },
            SentFrame::MaxStreams { dir } => FrameModel::MaxStreams {
                dir,
                limit: self.streams.announced_max.spec_of(dir),
            },
            SentFrame::HandshakeDone => FrameModel::HandshakeDone,
            _ => FrameModel::Ping,
        }
    }

    /// Whether the handshake has bytes to send at `level`.
    pub open spec fn crypto_due(self, level: Level) -> bool {
        self.keys.spec_has(level) && level != Level::ZeroRtt && self.pipe(level).send.next_frame(
            self.max_payload(),
        ) is Some
    }

    /// The connection after the handshake handed out its next bytes at
    /// `level`.
    pub open spec fn after_crypto_poll(self, level: Level) -> ConnModel {
        self.with_pipe(
            level,
            PipeModel {
                send: self.pipe(level).send.after_transmit(self.max_payload()),
                ..self.pipe(level)
            },
        )
    }

    /// Whether `choice` is the payload of the next packet and `after` the
    /// connection once it was handed out. The handshake goes first, level
    /// by level; then what was lost of the control frames; then new control
    /// frames; the data of streams last, and only under the congestion
    /// window.
    #[verifier::opaque]
    pub open spec fn payload_is(self, choice: Option<PayloadModel>, after: ConnModel) -> bool {
        if self.crypto_due(Level::Initial) {
            choice == Some(
                crypto_payload(
                    Level::Initial,
                    self.initial.send.next_frame(self.max_payload())->0,
                ),
            ) && after == self.after_crypto_poll(Level::Initial)
        } else if self.crypto_due(Level::Handshake) {
            choice == Some(
                crypto_payload(
                    Level::Handshake,
                    self.handshake.send.next_frame(self.max_payload())->0,
                ),
            ) && after == self.after_crypto_poll(Level::Handshake)
        } else {
            self.data_payload_is(choice, after)
        }
    }

    /// The same once the handshake has nothing to send at its first two
    /// levels.
    #[verifier::opaque]
    pub open spec fn data_payload_is(self, choice: Option<PayloadModel>, after: ConnModel) -> bool {
        {
            match self.keys.spec_data_level() {
                None => choice is None && after == self,
                Some(level) => if self.crypto_due(Level::OneRtt) {
                    choice == Some(
                        crypto_payload(
                            Level::OneRtt,
                            self.data.send.next_frame(self.max_payload())->0,
                        ),
                    ) && after == self.after_crypto_poll(Level::OneRtt)
                } else if self.resend.len() > 0 {
                    choice == Some(
                        PayloadModel {
                            level,
                            frame: self.resend_frame(self.resend[0]),
                            sent: self.resend[0],
                        },
                    ) && after == (ConnModel { resend: self.resend.remove(0), ..self })
                } else if !self.streams.control_idle() {
                    &&& after == (ConnModel { streams: after.streams, ..self })
                    &&& choice matches Some(p)
                    &&& p.level == level
                    &&& p.sent == sent_of(p.frame)
                    &&& exists|frame: Frame|
                        frame@ == p.frame && self.streams.control_next(frame, after.streams)
                } else {
                    match choice {
                        None => after == self && forall|j: int|
                            0 <= j < self.streams.slots.len() ==> !self.streams.can_transmit(
                                j,
                                self.stream_room(),
                            ),
                        Some(p) => {
                            &&& p.level == level
                            &&& after == (ConnModel { streams: after.streams, ..self })
                            &&& exists|id: StreamId, f: StreamFrame|
                                {
                                    &&& p == stream_payload(level, id, f)
                                    &&& id.0 < self.streams.slots.len()
                                    &&& self.streams.slot(id).open
                                    &&& self.streams.slot(id).send.next_frame(self.stream_room())
                                        == Some(f)
                                    &&& forall|j: int|
                                        0 <= j < id.0 ==> !self.streams.can_transmit(
                                            j,
                                            self.stream_room(),
                                        )
                                    &&& after.streams == self.streams.with_send(
                                        id,
                                        self.streams.slot(id).send.after_transmit(
                                            self.stream_room(),
                                        ),
                                    )
                                }
                        },
                    }
                },
            }
        }
    }

    /// The level at which a packet without payload travels.
    pub open spec fn ack_level(self) -> Level {
        if self.keys.one_rtt {
            Level::OneRtt
        } else if self.keys.handshake {
            Level::Handshake
        } else {
            Level::Initial
        }
    }

    /// The connection after a packet with the given content left at `now`
    /// and was recorded.
    pub open spec fn after_sent(self, now: u64, level: Level, size: u64, sent: Seq<SentFrame>, data: bool) -> ConnModel {
        let eliciting = sent.len() > 0;
        let recorded = ConnModel {
            ledger: self.ledger.after_record(
                PacketModel {
                    time_sent: now,
                    size,
                    ack_eliciting: eliciting,
                    level,
                    fate: Fate::InFlight,
                    frames: sent,
                },
            ),
            cc: if !eliciting {
                self.cc
            } else if data {
                self.cc.after_sent(size)
            } else {
                self.cc.after_probe(size)
            },
            ..self
        };
        if eliciting {
            ConnModel { pto_deadline: recorded.armed(now), ..recorded }
        } else {
            recorded
        }
    }

    /// Whether `out` is the packet that is made of the payload `choice` and
    /// of the acknowledgment that is due, and `after` the connection once
    /// the packet has left at `now`.
    #[verifier::opaque]
    pub open spec fn packaged(self, now: u64, choice: Option<PayloadModel>, out: Option<PacketView>, after: ConnModel) -> bool {
        if choice is None && !self.ack_due {
            out is None && after == self
        } else {
            let ack = if self.ack_due {
                seq![FrameModel::Ack { delay: 0, ranges: self.acks }]
            } else {
                Seq::<FrameModel>::empty()
            };
            let level = match choice {
                Some(p) => p.level,
                None => self.ack_level(),
            };
            &&& out == Some(
                PacketView {
                    level,
                    number: self.ledger.packets.len() as u64,
                    frames: match choice {
                        Some(p) => ack.push(p.frame),
                        None => ack,
                    },
                },
            )
            &&& after == (ConnModel { ack_due: false, ..self }).after_sent(
                now,
                level,
                match choice {
                    Some(p) => payload_size(p),
                    None => PACKET_OVERHEAD,
                },
                match choice {
                    Some(p) => seq![p.sent],
                    None => Seq::<SentFrame>::empty(),
                },
                choice matches Some(p) && p.frame is Stream,
            )
        }
    }

    /// The packet that closes the connection.
    pub open spec fn close_packet(self) -> PacketView {
        PacketView {
            level: self.ack_level(),
            number: self.ledger.packets.len() as u64,
            frames: seq![
                FrameModel::Close {
                    code: self.close.code,
                    application: self.close.application,
                    reason: self.close.reason,
                },
            ],
        }
    }

    /// Whether `out` is the packet that the connection sends next at `now`,
    /// and `after` the connection once it has left. A connection that
    /// drains or is over sends nothing; one that closes sends its close
    /// frame when that is due; a ledger that is full ends all sending.
    #[verifier::opaque]
    pub open spec fn sends(self, now: u64, out: Option<PacketView>, after: ConnModel) -> bool {
        if self.ledger.packets.len() >= u64::MAX {
            out is None && after == self
        } else if self.life.state.spec_alive() {
            exists|choice: Option<PayloadModel>, mid: ConnModel|
                self.payload_is(choice, mid) && mid.packaged(now, choice, out, after)
        } else if self.life.state == ConnState::Closing && self.life.close_due {
            out == Some(self.close_packet()) && after == (ConnModel {
                life: self.life.after(now, self.pto(), LifeEvent::CloseSent),
                ..self
            }).after_sent(now, self.ack_level(), PACKET_OVERHEAD, Seq::empty(), false)
        } else {
            out is None && after == self
        }
    }
}

impl Connection {
    fn max_payload(&self) -> (m: usize)
        requires
            self.wf(),
        ensures
            m == self@.max_payload(),
            m > 0,
    {
        let room: u64 = self.config.max_datagram_size - PACKET_OVERHEAD;
        if room <= usize::MAX as u64 {
            room as usize
        } else {
            usize::MAX
        }
    }

    fn stream_room(&self) -> (m: usize)
        requires
            self.wf(),
        ensures
            m == self@.stream_room(),
            m + PACKET_OVERHEAD + self@.cc.in_flight <= self@.cc.window || m == 0,
    {
        let room: u64 = if self.cc.window > self.cc.in_flight {
            self.cc.window - self.cc.in_flight
        } else {
            0
        };
        let max: usize = self.max_payload();
        if room > PACKET_OVERHEAD {
            if room - PACKET_OVERHEAD < max as u64 {
                (room - PACKET_OVERHEAD) as usize
            } else {
                max
            }
        } else {
            0
        }
    }

    /// Hands out the next bytes of the handshake at `level`, if the keys
    /// are there and there are any.
    fn poll_crypto(&mut self, level: Level) -> (r: Option<Payload>)
        requires
            old(self).wf(),
            level != Level::ZeroRtt,
        ensures
            final(self).wf(),
            r is Some <==> old(self)@.crypto_due(level),
            r matches Some(p) ==> payload_len(p@) <= old(self)@.max_payload(),
            r matches Some(p) ==> p@ == crypto_payload(
                level,
                old(self)@.pipe(level).send.next_frame(old(self)@.max_payload())->0,
            ) && final(self)@ == old(self)@.after_crypto_poll(level),
            r is None ==> final(self)@ == old(self)@,
    {
        if !self.keys.has(level) {
            return None;
        }
        let max: usize = self.max_payload();
        let f = match level {
            Level::Initial => self.initial.send.poll_transmit(max),
            Level::Handshake => self.handshake.send.poll_transmit(max),
            _ => self.data.send.poll_transmit(max),
        };
        proof {
            old(self).initial.lemma_wf_model();
            old(self).handshake.lemma_wf_model();
            old(self).data.lemma_wf_model();
            if f is Some {
                crate::send::lemma_frame_fits(old(self)@.pipe(level).send, max as nat);
            }
        }
        match f {
            Some(d) => {
                let len: u64 = d.data.len() as u64;
                Some(
                    Payload {
                        level,
                        frame: Frame::Crypto { offset: d.offset, data: d.data },
                        sent: SentFrame::Crypto { level, offset: d.offset, len },
                    },
                )
            },
            None => None,
        }
    }

    /// Hands out the control frame that was lost first, with the value of
    /// now.
    fn poll_resend(&mut self, level: Level) -> (r: Option<Payload>)
        requires
            old(self).wf(),
        ensures
            final(self).wf(),
            r is Some <==> old(self)@.resend.len() > 0,
            r matches Some(p) ==> payload_len(p@) == 0,
            r matches Some(p) ==> p@ == (PayloadModel {
                level,
                frame: old(self)@.resend_frame(old(self)@.resend[0]),
                sent: old(self)@.resend[0],
            }) && final(self)@ == (ConnModel {
                resend: old(self)@.resend.remove(0),
                ..old(self)@
            }),
            r is None ==> final(self)@ == old(self)@,
    {
        if self.resend.len() == 0 {
            return None;
        }
        let sent: SentFrame = self.resend.remove(0);
        let frame: Frame = match sent {
            SentFrame::MaxData => Frame::MaxData(self.streams.connection_granted()),
            SentFrame::MaxStreamData { id } => match self.streams.stream_granted(id) {
                Some(limit) => Frame::MaxStreamData { id, limit },
                None => Frame::Ping,
            },
            SentFrame::MaxStreams { dir } => Frame::MaxStreams {
                dir,
                limit: self.streams.announced_streams(dir),
            },
            SentFrame::HandshakeDone => Frame::HandshakeDone,
            _ => Frame::Ping,
        };
        Some(Payload { level, frame, sent })
    }

    /// Hands out the next control frame of the table of streams.
    fn poll_control(&mut self, level: Level) -> (r: Option<Payload>)
        requires
            old(self).wf(),
        ensures
            final(self).wf(),
            final(self)@ == (ConnModel { streams: final(self)@.streams, ..old(self)@ }),
            r is Some <==> !old(self)@.streams.control_idle(),
            r matches Some(p) ==> payload_len(p@) == 0 && !(p.frame is Stream),
            r is None ==> final(self)@ == old(self)@,
            r matches Some(p) ==> p.level == level && p.sent == sent_of(p@.frame) && old(self)@.streams.control_next(p.frame, final(self)@.streams),
    {
        match self.streams.poll_control() {
            None => None,
            Some(frame) => {
                let sent: SentFrame = match &frame {
                    Frame::MaxData(_) => SentFrame::MaxData,
                    Frame::MaxStreams { dir, limit } => SentFrame::MaxStreams { dir: *dir },
                    Frame::MaxStreamData { id, limit } => SentFrame::MaxStreamData { id: *id },
                    Frame::ResetStream { id, code, final_size } => SentFrame::ResetStream {
                        id: *id,
                    },
                    Frame::HandshakeDone => SentFrame::HandshakeDone,
                    _ => SentFrame::Ping,
                };
                Some(Payload { level, frame, sent })
            },
        }
    }

    /// Hands out the next piece of a stream, as far as the congestion
    /// window has room.
    fn poll_data(&mut self, level: Level) -> (r: Option<Payload>)
        requires
            old(self).wf(),
        ensures
            final(self).wf(),
            final(self)@ == (ConnModel { streams: final(self)@.streams, ..old(self)@ }),
            match r {
                None => final(self)@ == old(self)@ && forall|j: int|
                    0 <= j < old(self)@.streams.slots.len() ==> !old(self)@.streams.can_transmit(
                        j,
                        old(self)@.stream_room(),
                    ),
                Some(p) => p.level == level && p.frame is Stream && payload_size(p@)
                    + old(self)@.cc.in_flight <= old(self)@.cc.window && payload_len(p@) <= old(self)@.max_payload() && exists|
                    id: StreamId,
                    f: StreamFrame,
                |
                    {
                        &&& p@ == stream_payload(level, id, f)
                        &&& id.0 < old(self)@.streams.slots.len()
                        &&& old(self)@.streams.slot(id).open
                        &&& old(self)@.streams.slot(id).send.next_frame(old(self)@.stream_room())
                            == Some(f)
                        &&& forall|j: int|
                            0 <= j < id.0 ==> !old(self)@.streams.can_transmit(
                                j,
                                old(self)@.stream_room(),
                            )
                        &&& final(self)@.streams == old(self)@.streams.with_send(
                            id,
                            old(self)@.streams.slot(id).send.after_transmit(
                                old(self)@.stream_room(),
                            ),
                        )
                    },
            },
    {
        let room: usize = self.stream_room();
        match self.streams.poll_stream(room) {
            None => None,
            Some((id, d)) => {
                let len: u64 = d.data.len() as u64;
                let ghost f = d@;
                proof {
                    old(self).streams.lemma_wf_model();
                    assert(old(self)@.streams.slots[id.0 as int].wf());
                    crate::send::lemma_frame_fits(old(self)@.streams.slot(id).send, room as nat);
                }
                let p = Payload {
                    level,
                    frame: Frame::Stream { id, offset: d.offset, data: d.data, fin: d.fin },
                    sent: SentFrame::Stream { id, offset: d.offset, len, fin: d.fin },
                };
                assert(p@ == stream_payload(level, id, f));
                Some(p)
            },
        }
    }

    /// Chooses the payload of the next packet once the handshake has
    /// nothing to send at its first two levels.
    fn poll_rest(&mut self) -> (r: Option<Payload>)
        requires
            old(self).wf(),
        ensures
            final(self).wf(),
            old(self)@.data_payload_is(payload_view(r), final(self)@),
            final(self)@.ledger == old(self)@.ledger,
            final(self)@.life == old(self)@.life,
            r matches Some(p) ==> (p.frame is Stream ==> payload_size(p@) + final(self)@.cc.in_flight
                <= final(self)@.cc.window),
            r matches Some(p) ==> payload_len(p@) <= old(self)@.max_payload(),
            r is None ==> final(self)@ == old(self)@,
            final(self)@.config == old(self)@.config,
            final(self)@.cc == old(self)@.cc,
            final(self)@.side == old(self)@.side,
    {
        proof {
            reveal(ConnModel::data_payload_is);
        }
        let level: Level = match self.keys.data_level() {
            Some(l) => l,
            None => {
                return None;
            },
        };
        match self.poll_crypto(Level::OneRtt) {
            Some(p) => {
                return Some(p);
            },
            None => {},
        }
        match self.poll_resend(level) {
            Some(p) => {
                return Some(p);
            },
            None => {},
        }
        match self.poll_control(level) {
            Some(p) => {
                assert(p.frame@ == p@.frame);
                return Some(p);
            },
            None => {},
        }
        self.poll_data(level)
    }

    /// Chooses the payload of the next packet.
    fn poll_payload(&mut self) -> (r: Option<Payload>)
        requires
            old(self).wf(),
        ensures
            final(self).wf(),
            old(self)@.payload_is(
                match r {
                    Some(p) => Some(p@),
                    None => None,
                },
                final(self)@,
            ),
            final(self)@.ledger == old(self)@.ledger,
            final(self)@.life == old(self)@.life,
            r matches Some(p) ==> (p.frame is Stream ==> payload_size(p@) + final(self)@.cc.in_flight
                <= final(self)@.cc.window),
            r matches Some(p) ==> payload_len(p@) <= old(self)@.max_payload(),
            r is None ==> final(self)@ == old(self)@,
            final(self)@.config == old(self)@.config,
            final(self)@.cc == old(self)@.cc,
            final(self)@.side == old(self)@.side,
    {
        proof {
            reveal(ConnModel::payload_is);
        }
        match self.poll_crypto(Level::Initial) {
            Some(p) => {
                return Some(p);
            },
            None => {},
        }
        match self.poll_crypto(Level::Handshake) {
            Some(p) => {
                return Some(p);
            },
            None => {},
        }
        self.poll_rest()
    }
}

impl ConnModel {
    /// The connection after a packet that nobody waits for any more was
    /// taken off the books: what it carried waits to be sent again, and the
    /// congestion window stays as it is.
    pub open spec fn after_given_up(self, number: u64) -> ConnModel {
        if number < self.ledger.packets.len() {
            let p = self.ledger.packets[number as int];
            (ConnModel {
                cc: NewReno { in_flight: self.cc.left_in_flight(p.size), ..self.cc },
                ..self
            }).after_fates(p.frames, false)
        } else {
            self
        }
    }

    /// The same for a run of packets, one after the other.
    pub open spec fn after_all_given_up(self, numbers: Seq<u64>) -> ConnModel
        decreases numbers.len(),
    {
        if numbers.len() == 0 {
            self
        } else {
            self.after_all_given_up(numbers.drop_last()).after_given_up(numbers.last())
        }
    }

    /// The connection after the peer said whether it takes the early data.
    /// Data that the peer did not take is not lost: every packet that
    /// carried it is given up, so that what it carried is sent again under
    /// the keys of the handshake that completes.
    #[verifier::opaque]
    pub open spec fn after_early_resolved(self, accepted: bool) -> ConnModel {
        if self.life.early != EarlyData::Pending {
            self
        } else if accepted {
            ConnModel { life: self.life.after(0, 0, LifeEvent::EarlyResolved(true)), ..self }
        } else {
            (ConnModel {
                life: self.life.after(0, 0, LifeEvent::EarlyResolved(false)),
                keys: Keys { zero_rtt: false, ..self.keys },
                ledger: self.ledger.after_lose_level(Level::ZeroRtt),
                ..self
            }).after_all_given_up(
                picked(self.ledger.level_flags(Level::ZeroRtt), self.ledger.packets.len()),
            )
        }
    }

    /// The connection after the wait for an acknowledgment ran out at
    /// `now`: what counts as lost by now meets its fate, the oldest packet
    /// that the peer still owes an acknowledgment for is given up so that
    /// what it carried is sent again, and the next wait is twice as long.
    #[verifier::opaque]
    pub open spec fn after_probe_timeout(self, now: u64) -> ConnModel {
        self.swept(now).oldest_given_up().backed_off(now)
    }

    /// The connection after the packets that count as lost at `now` met
    /// their fate.
    #[verifier::opaque]
    pub open spec fn swept(self, now: u64) -> ConnModel {
        let age = self.rtt.spec_loss_delay(self.config.max_ack_delay);
        let lost = picked(self.ledger.loss_flags(now, age), self.ledger.packets.len());
        (ConnModel { ledger: self.ledger.after_detect(now, age), ..self }).after_packets(
            lost,
            false,
            now,
        )
    }

    /// The connection after the oldest packet that the peer owes an
    /// acknowledgment for was given up.
    #[verifier::opaque]
    pub open spec fn oldest_given_up(self) -> ConnModel {
        match self.ledger.oldest_awaited() {
            Some(n) => (ConnModel { ledger: self.ledger.after_give_up(n), ..self }).after_given_up(
                n,
            ),
            None => self,
        }
    }

    /// The connection after the wait for an acknowledgment was doubled and
    /// begun anew at `now`.
    pub open spec fn backed_off(self, now: u64) -> ConnModel {
        let third = ConnModel { backoff: self.backoff.after_probe(), ..self };
        ConnModel { pto_deadline: third.armed(now), ..third }
    }

    /// The connection after the clock was found at `now`.
    #[verifier::opaque]
    pub open spec fn after_timeout(self, now: u64) -> ConnModel {
        let life = self.life.after(now, self.pto(), LifeEvent::Timeout);
        if !life.state.spec_alive() {
            ConnModel { life, pto_deadline: None, ..self }
        } else if self.pto_deadline matches Some(t) && t <= now {
            self.after_probe_timeout(now).kept_alive(now)
        } else {
            self.kept_alive(now)
        }
    }

    /// The connection after the time for a sign of life was looked at: when
    /// it has come, a frame that carries nothing but asks for an
    /// acknowledgment is put in the queue, if the connection can carry
    /// streams, and the next sign of life is due an interval later.
    pub open spec fn kept_alive(self, now: u64) -> ConnModel {
        if self.keep_alive_deadline matches Some(t) && t <= now {
            ConnModel {
                resend: if self.life.state.spec_usable() {
                    self.resend.push(SentFrame::Ping)
                } else {
                    self.resend
                },
                keep_alive_deadline: match self.config.keep_alive_interval {
                    Some(span) => Some(later(now, span)),
                    None => None,
                },
                ..self
            }
        } else {
            self
        }
    }

    /// The time at which the clock has to wake the connection next, if
    /// any: the earlier of the deadline of its life and, while it lives, of
    /// the wait for an acknowledgment.
    pub open spec fn next_timeout(self) -> Option<u64> {
        if self.life.state.spec_alive() {
            sooner(
                sooner(self.life.spec_deadline(), self.pto_deadline),
                self.keep_alive_deadline,
            )
        } else {
            self.life.spec_deadline()
        }
    }
}

/// The earlier of two times that may be missing.
pub open spec fn sooner(a: Option<u64>, b: Option<u64>) -> Option<u64> {
    match (a, b) {
        (Some(x), Some(y)) => Some(if x < y {
            x
        } else {
            y
        }),
        (Some(x), None) => Some(x),
        (None, y) => y,
    }
}

fn sooner_of(a: Option<u64>, b: Option<u64>) -> (t: Option<u64>)
    ensures
        t == sooner(a, b),
{
    match (a, b) {
        (Some(x), Some(y)) => Some(if x < y { x } else { y }),
        (Some(x), None) => Some(x),
        (None, y) => y,
    }
}

/// Copies a list of runs.
fn copy_ranges(ranges: &Vec<AckRange>) -> (out: Vec<AckRange>)
    ensures
        out@ == ranges@,
{
    let mut out: Vec<AckRange> = Vec::new();
    let mut i: usize = 0;
    while i < ranges.len()
        invariant
            i <= ranges@.len(),
            out@ == ranges@.take(i as int),
        decreases ranges@.len() - i,
    {
        out.push(ranges[i]);
        i = i + 1;
        assert(out@ =~= ranges@.take(i as int));
    }
    assert(ranges@.take(i as int) =~= ranges@);
    out
}

impl Connection {
    /// Records a packet that leaves at `now`.
    fn record_sent(&mut self, now: u64, level: Level, size: u64, sent: Vec<SentFrame>, data: bool) -> (number: u64)
        requires
            old(self).wf(),
            old(self)@.ledger.packets.len() < u64::MAX,
            data && sent@.len() > 0 ==> size + old(self)@.cc.in_flight <= old(self)@.cc.window,
        ensures
            final(self).wf(),
            number == old(self)@.ledger.packets.len(),
            final(self)@ == old(self)@.after_sent(now, level, size, sent@, data),
    {
        let eliciting: bool = sent.len() > 0;
        if eliciting {
            if data {
                let admitted = self.cc.on_sent(size);
                assert(admitted);
            } else {
                self.cc.on_probe(size);
            }
        }
        let number: u64 = self.ledger.record(now, size, eliciting, level, sent);
        if eliciting {
            self.arm(now);
        }
        number
    }

    fn ack_level(&self) -> (l: Level)
        ensures
            l == self@.ack_level(),
    {
        if self.keys.one_rtt {
            Level::OneRtt
        } else if self.keys.handshake {
            Level::Handshake
        } else {
            Level::Initial
        }
    }

    /// Makes the packet of a payload and of the acknowledgment that is due.
    fn package(&mut self, now: u64, choice: Option<Payload>) -> (out: Option<Packet>)
        requires
            old(self).wf(),
            old(self)@.ledger.packets.len() < u64::MAX,
            choice matches Some(p) ==> payload_len(p@) <= old(self)@.max_payload() && (p.frame
                is Stream ==> payload_size(p@) + old(self)@.cc.in_flight <= old(self)@.cc.window),
        ensures
            final(self).wf(),
            old(self)@.packaged(
                now,
                match choice {
                    Some(p) => Some(p@),
                    None => None,
                },
                match out {
                    Some(p) => Some(p@),
                    None => None,
                },
                final(self)@,
            ),
            out matches Some(p) ==> wire_size(p@.frames) <= PACKET_OVERHEAD + old(self)@.max_payload(),
            out is None ==> choice is None && final(self)@ == old(self)@,
            final(self)@.config == old(self)@.config,
            final(self)@.side == old(self)@.side,
    {
        proof {
            reveal(ConnModel::packaged);
        }
        let ghost pre = self@;
        let mut frames: Vec<Frame> = Vec::new();
        if self.ack_due {
            frames.push(Frame::Ack { delay: 0, ranges: copy_ranges(&self.acks) });
            self.ack_due = false;
        } else if choice.is_none() {
            return None;
        }
        let ghost ack = frame_views(frames@);
        match choice {
            Some(p) => {
                let ghost view = p@;
                let len: u64 = match &p.frame {
                    Frame::Stream { id, offset, data, fin } => data.len() as u64,
                    Frame::Crypto { offset, data } => data.len() as u64,
                    _ => 0,
                };
                let data: bool = match &p.frame {
                    Frame::Stream { .. } => true,
                    _ => false,
                };
                let level: Level = p.level;
                let mut sent: Vec<SentFrame> = Vec::new();
                sent.push(p.sent);
                frames.push(p.frame);
                assert(sent@ =~= seq![view.sent]);
                let number: u64 = self.record_sent(now, level, PACKET_OVERHEAD + len, sent, data);
                let out = Packet { level, number, frames };
                assert(out@.frames =~= ack.push(view.frame));
                proof {
                    assert(out@.frames.drop_last() =~= ack);
                    assert(ack.len() > 0 ==> ack.drop_last() =~= Seq::<FrameModel>::empty());
                    assert(carried(ack) == 0) by {
                        if ack.len() > 0 {
                            assert(carried(ack.drop_last()) == 0);
                        }
                    }
                }
                assert(pre.ack_due ==> ack =~= seq![FrameModel::Ack { delay: 0, ranges: pre.acks }]);
                assert(!pre.ack_due ==> ack =~= Seq::<FrameModel>::empty());
                Some(out)
            },
            None => {
                let level: Level = self.ack_level();
                let sent: Vec<SentFrame> = Vec::new();
                assert(sent@ =~= Seq::<SentFrame>::empty());
                let number: u64 = self.record_sent(now, level, PACKET_OVERHEAD, sent, false);
                let out = Packet { level, number, frames };
                assert(out@.frames =~= ack);
                assert(ack =~= seq![FrameModel::Ack { delay: 0, ranges: pre.acks }]);
                proof {
                    assert(ack.drop_last() =~= Seq::<FrameModel>::empty());
                    assert(carried(ack.drop_last()) == 0);
                }
                Some(out)
            },
        }
    }

    /// Makes the packet that closes the connection.
    fn send_close(&mut self, now: u64) -> (out: Packet)
        requires
            old(self).wf(),
            old(self)@.ledger.packets.len() < u64::MAX,
            old(self)@.life.state == ConnState::Closing,
        ensures
            final(self).wf(),
            out@ == old(self)@.close_packet(),
            final(self)@ == (ConnModel {
                life: old(self)@.life.after(now, old(self)@.pto(), LifeEvent::CloseSent),
                ..old(self)@
            }).after_sent(now, old(self)@.ack_level(), PACKET_OVERHEAD, Seq::empty(), false),
            wire_size(out@.frames) == PACKET_OVERHEAD,
    {
        let pto: u64 = self.rtt.pto(self.config.max_ack_delay);
        self.life.step(now, pto, LifeEvent::CloseSent);
        let mut frames: Vec<Frame> = Vec::new();
        frames.push(
            Frame::Close {
                code: self.close_code,
                application: self.close_application,
                reason: crate::recv::copy_slice(self.close_reason.as_slice()),
            },
        );
        let level: Level = self.ack_level();
        let sent: Vec<SentFrame> = Vec::new();
        assert(sent@ =~= Seq::<SentFrame>::empty());
        let number: u64 = self.record_sent(now, level, PACKET_OVERHEAD, sent, false);
        let out = Packet { level, number, frames };
        assert(out@.frames =~= old(self)@.close_packet().frames);
        proof {
            assert(out@.frames.drop_last() =~= Seq::<FrameModel>::empty());
            assert(carried(out@.frames.drop_last()) == 0);
        }
        out
    }

    /// Hands out the packet that the connection sends next at `now`, if it
    /// has anything to send.
    pub fn poll_transmit(&mut self, now: u64) -> (out: Option<Packet>)
        requires
            old(self).wf(),
        ensures
            final(self).wf(),
            out matches Some(p) ==> wire_size(p@.frames) <= old(self)@.config.max_datagram_size,
            out is None ==> final(self)@ == old(self)@,
            final(self)@.config == old(self)@.config,
            final(self)@.side == old(self)@.side,
            old(self)@.sends(
                now,
                match out {
                    Some(p) => Some(p@),
                    None => None,
                },
                final(self)@,
            ),
    {
        proof {
            reveal(ConnModel::sends);
            old(self).ledger.lemma_wf_model();
        }
        if self.ledger.next_number() == u64::MAX {
            return None;
        }
        if self.life.state.alive() {
            let choice = self.poll_payload();
            let ghost mid = self@;
            let ghost chosen: Option<PayloadModel> = payload_view(choice);
            let ghost nothing: bool = choice is None;
            assert(nothing ==> mid == old(self)@);
            let out = self.package(now, choice);
            assert(out is None ==> nothing && self@ == mid);
            let ghost sent: Option<PacketView> = packet_view(out);
            assert(old(self)@.payload_is(chosen, mid) && mid.packaged(now, chosen, sent, self@));
            out
        } else if self.life.state == ConnState::Closing && self.life.close_due {
            Some(self.send_close(now))
        } else {
            None
        }
    }

    /// Takes a packet that nobody waits for any more off the books.
    fn give_up(&mut self, number: u64)
        requires
            old(self).wf(),
        ensures
            final(self).wf(),
            final(self)@ == old(self)@.after_given_up(number),
            final(self)@.ledger == old(self)@.ledger,
            final(self)@.life == old(self)@.life,
            final(self)@.config == old(self)@.config,
            final(self)@.rtt == old(self)@.rtt,
            final(self)@.backoff == old(self)@.backoff,
            final(self)@.keys == old(self)@.keys,
            same_written(old(self)@.streams, final(self)@.streams),
    {
        let info: PacketInfo = match self.ledger.info(number) {
            Some(i) => i,
            None => {
                return ;
            },
        };
        self.cc.forget(info.size);
        let ghost start = self@;
        let ghost frames = start.ledger.packets[number as int].frames;
        let mut k: usize = 0;
        while k < info.frames
            invariant
                k <= info.frames,
                info.frames == frames.len(),
                self.wf(),
                number < start.ledger.packets.len(),
                frames == start.ledger.packets[number as int].frames,
                self@.ledger == start.ledger,
                self@.keys == start.keys,
                self@ == start.after_fates(frames.take(k as int), false),
                same_written(start.streams, self@.streams),
            decreases info.frames - k,
        {
            let frame: SentFrame = match self.ledger.frame(number, k) {
                Some(f) => f,
                None => {
                    proof {
                        assert(false);
                    }
                    return ;
                },
            };
            self.apply_fate(frame, false);
            k = k + 1;
            proof {
                assert(frames.take(k as int).drop_last() =~= frames.take(k - 1));
                assert(frames.take(k as int).last() == frame);
                lemma_fates_keep(start, frames.take(k as int), false);
                lemma_fates_keep_keys(start, frames.take(k as int), false);
            }
        }
        proof {
            assert(frames.take(k as int) =~= frames);
            lemma_fates_keep(start, frames, false);
        }
    }

    /// Takes the packets `numbers` off the books, one after the other.
    fn give_up_all(&mut self, numbers: &Vec<u64>)
        requires
            old(self).wf(),
        ensures
            final(self).wf(),
            final(self)@ == old(self)@.after_all_given_up(numbers@),
            same_written(old(self)@.streams, final(self)@.streams),
    {
        let ghost start = self@;
        let mut i: usize = 0;
        while i < numbers.len()
            invariant
                i <= numbers@.len(),
                self.wf(),
                self@ == start.after_all_given_up(numbers@.take(i as int)),
                same_written(start.streams, self@.streams),
            decreases numbers@.len() - i,
        {
            self.give_up(numbers[i]);
            i = i + 1;
            proof {
                assert(numbers@.take(i as int).drop_last() =~= numbers@.take(i - 1));
                assert(numbers@.take(i as int).last() == numbers@[i - 1]);
            }
        }
        proof {
            assert(numbers@.take(i as int) =~= numbers@);
        }
    }

    /// Takes in whether the peer takes the early data. Whatever the peer
    /// says, every stream keeps every byte that was written on it.
    pub fn on_early_resolved(&mut self, accepted: bool)
        requires
            old(self).wf(),
        ensures
            final(self).wf(),
            final(self)@ == old(self)@.after_early_resolved(accepted),
            same_written(old(self)@.streams, final(self)@.streams),
            accepted ==> final(self)@ == (ConnModel { life: final(self)@.life, ..old(self)@ }),
    {
        proof {
            reveal(ConnModel::after_early_resolved);
        }
        match self.life.early {
            EarlyData::Pending => {},
            _ => {
                return ;
            },
        }
        self.life.step(0, 0, LifeEvent::EarlyResolved(accepted));
        if !accepted {
            self.keys.zero_rtt = false;
            let lost: Vec<u64> = self.ledger.lose_level(Level::ZeroRtt);
            self.give_up_all(&lost);
        }
    }

    /// Lets the packets that count as lost at `now` meet their fate.
    fn sweep(&mut self, now: u64)
        requires
            old(self).wf(),
        ensures
            final(self).wf(),
            final(self)@ == old(self)@.swept(now),
    {
        proof {
            reveal(ConnModel::swept);
        }
        let lost: Vec<u64> = self.find_lost(now);
        self.apply_packets(&lost, false, now);
    }

    /// Gives up the oldest packet that the peer owes an acknowledgment for.
    fn give_up_oldest(&mut self)
        requires
            old(self).wf(),
        ensures
            final(self).wf(),
            final(self)@ == old(self)@.oldest_given_up(),
    {
        proof {
            reveal(ConnModel::oldest_given_up);
        }
        match self.ledger.oldest_awaited() {
            Some(n) => {
                let done = self.ledger.give_up(n);
                self.give_up(n);
            },
            None => {},
        }
    }

    /// Doubles the wait for an acknowledgment and begins it anew.
    fn back_off(&mut self, now: u64)
        requires
            old(self).wf(),
        ensures
            final(self).wf(),
            final(self)@ == old(self)@.backed_off(now),
    {
        self.backoff.on_probe();
        self.arm(now);
    }

    /// What the running out of the wait for an acknowledgment leads to.
    fn probe_timeout(&mut self, now: u64)
        requires
            old(self).wf(),
        ensures
            final(self).wf(),
            final(self)@ == old(self)@.after_probe_timeout(now),
    {
        proof {
            reveal(ConnModel::after_probe_timeout);
        }
        self.sweep(now);
        self.give_up_oldest();
        self.back_off(now);
    }

    /// Takes in that the clock has reached `now`. A peer that stayed silent
    /// for too long ends the connection at once, timed out; a connection
    /// that has drained is over; an acknowledgment that is overdue makes
    /// the connection send again what it waits for.
    pub fn handle_timeout(&mut self, now: u64)
        requires
            old(self).wf(),
        ensures
            final(self).wf(),
            final(self)@ == old(self)@.after_timeout(now),
    {
        proof {
            reveal(ConnModel::after_timeout);
        }
        let pto: u64 = self.rtt.pto(self.config.max_ack_delay);
        let mut life: Lifecycle = self.life;
        life.step(now, pto, LifeEvent::Timeout);
        if !life.state.alive() {
            self.life = life;
            self.pto_deadline = None;
            return ;
        }
        let due: bool = match self.pto_deadline {
            Some(t) => t <= now,
            None => false,
        };
        if due {
            self.probe_timeout(now);
        }
        self.keep_alive(now);
    }

    /// Sends a sign of life when the time for it has come.
    fn keep_alive(&mut self, now: u64)
        requires
            old(self).wf(),
        ensures
            final(self).wf(),
            final(self)@ == old(self)@.kept_alive(now),
    {
        let due: bool = match self.keep_alive_deadline {
            Some(t) => t <= now,
            None => false,
        };
        if due {
            if self.life.state.usable() {
                self.resend.push(SentFrame::Ping);
            }
            self.keep_alive_deadline = match self.config.keep_alive_interval {
                Some(span) => Some(crate::lifecycle::later_at(now, span)),
                None => None,
            };
        }
    }

    /// Takes in that the peer no longer knows the connection: the
    /// connection drains, reset.
    pub fn on_stateless_reset(&mut self, now: u64)
        requires
            old(self).wf(),
        ensures
            final(self).wf(),
            final(self)@ == old(self)@.concluded(
                now,
                Some(Ending::PeerClosed(ConnectionError::Reset)),
            ),
    {
        self.conclude(now, Some(Ending::PeerClosed(ConnectionError::Reset)));
    }

    /// Takes in that the peer speaks no version of the protocol that this
    /// side speaks: the connection drains.
    pub fn on_version_mismatch(&mut self, now: u64)
        requires
            old(self).wf(),
        ensures
            final(self).wf(),
            final(self)@ == old(self)@.concluded(
                now,
                Some(Ending::PeerClosed(ConnectionError::VersionMismatch)),
            ),
    {
        self.conclude(now, Some(Ending::PeerClosed(ConnectionError::VersionMismatch)));
    }

    /// The time at which the clock has to wake the connection next.
    pub fn poll_timeout(&self) -> (t: Option<u64>)
        requires
            self.wf(),
        ensures
            t == self@.next_timeout(),
    {
        if self.life.state.alive() {
            sooner_of(sooner_of(self.life.deadline(), self.pto_deadline), self.keep_alive_deadline)
        } else {
            self.life.deadline()
        }
    }
}

/// A connection on which nothing arrives ends by timeout: until the clock
/// reaches the end of the allowed silence the life of the connection goes
/// on, and when the clock is found at or past it the connection is over at
/// once, timed out. For a connection that was just begun that is the time
/// of its beginning and the idle timeout of its configuration.
pub proof fn lemma_idle_timeout(m: ConnModel, now: u64)
    requires
        m.life.wf(),
        m.life.state.spec_alive(),
        m.life.idle_deadline is Some,
    ensures
        now >= m.life.idle_deadline->0 ==> m.after_timeout(now).life.state == ConnState::Closed
            && m.after_timeout(now).life.error == Some(ConnectionError::TimedOut),
        now < m.life.idle_deadline->0 ==> m.after_timeout(now).life.state.spec_alive(),
        forall|side: Side, config: TransportConfig, start: u64, early: Option<PeerLimits>|
            config.max_idle_timeout is Some ==> (#[trigger] ConnModel::begin(
                side,
                config,
                start,
                early,
            )).life.idle_deadline == Some(later(start, config.max_idle_timeout->0)),
{
    reveal(ConnModel::after_timeout);
    reveal(ConnModel::after_probe_timeout);
    reveal(ConnModel::swept);
    reveal(ConnModel::oldest_given_up);
    if now < m.life.idle_deadline->0 {
        let life = m.life.after(now, m.pto(), LifeEvent::Timeout);
        assert(life == m.life);
        if m.pto_deadline matches Some(t) && t <= now {
            let age = m.rtt.spec_loss_delay(m.config.max_ack_delay);
            let lost = picked(m.ledger.loss_flags(now, age), m.ledger.packets.len());
            let first = ConnModel { ledger: m.ledger.after_detect(now, age), ..m };
            lemma_packets_keep_life(first, lost, false, now);
            let swept = m.swept(now);
            match swept.ledger.oldest_awaited() {
                Some(n) => {
                    let base = ConnModel { ledger: swept.ledger.after_give_up(n), ..swept };
                    if n < base.ledger.packets.len() {
                        let p = base.ledger.packets[n as int];
                        lemma_fates_keep(
                            ConnModel {
                                cc: NewReno { in_flight: base.cc.left_in_flight(p.size), ..base.cc },
                                ..base
                            },
                            p.frames,
                            false,
                        );
                    }
                },
                None => {},
            }
        }
    }
}

/// The fates of packets leave the life of a connection alone.
pub proof fn lemma_packets_keep_life(m: ConnModel, numbers: Seq<u64>, acked: bool, now: u64)
    ensures
        m.after_packets(numbers, acked, now).life == m.life,
    decreases numbers.len(),
{
    if numbers.len() > 0 {
        lemma_packets_keep_life(m, numbers.drop_last(), acked, now);
        let before = m.after_packets(numbers.drop_last(), acked, now);
        let n = numbers.last();
        if n < before.ledger.packets.len() {
            let p = before.ledger.packets[n as int];
            lemma_fates_keep(
                ConnModel {
                    cc: if acked {
                        before.cc.after_ack(p.size, p.time_sent)
                    } else {
                        before.cc.after_loss(p.size, p.time_sent, now)
                    },
                    ..before
                },
                p.frames,
                acked,
            );
        }
    }
}

/// The fates of frames leave the keys of a connection alone.
pub proof fn lemma_fates_keep_keys(m: ConnModel, frames: Seq<SentFrame>, acked: bool)
    ensures
        m.after_fates(frames, acked).keys == m.keys,
        m.after_fates(frames, acked).pto_deadline == m.pto_deadline,
        m.after_fates(frames, acked).acks == m.acks,
        m.after_fates(frames, acked).ack_due == m.ack_due,
    decreases frames.len(),
{
    if frames.len() > 0 {
        lemma_fates_keep_keys(m, frames.drop_last(), acked);
    }
}

} // verus!
