//! The sending half of a stream: it keeps every byte that was accepted until
//! the peer has acknowledged it, and offers again what was lost on the way.

use vstd::prelude::*;
use crate::delivery::StreamFrame;
use crate::error::StreamError;
use crate::flow::{FlowControlWindow, WindowModel};
use crate::runs::{lemma_run_split, run_len};

verus! {

/// Where a sending half stands in its life.
#[derive(Clone, Copy, Debug, PartialEq, Eq, Structural)]
pub enum SendState {
    /// Open, nothing written yet.
    Ready,
    /// Data is being written.
    Send,
    /// The writer has finished; not everything is acknowledged yet.
    DataSent,
    /// The peer has acknowledged every byte and the end.
    DataRecvd,
    /// The stream was abandoned.
    ResetSent,
    /// The peer has acknowledged that the stream was abandoned.
    ResetRecvd,
}

/// What is known of one piece that has to reach the peer.
#[derive(Clone, Copy, Debug, PartialEq, Eq, Structural)]
pub enum Fate {
    /// Never transmitted.
    Unsent,
    /// Transmitted, neither acknowledged nor declared lost.
    InFlight,
    /// Transmitted and declared lost: to be transmitted again.
    Lost,
    /// Acknowledged by the peer.
    Acked,
}

impl Fate {
    /// The piece waits for a transmission.
    pub open spec fn due(self) -> bool {
        self == Fate::Unsent || self == Fate::Lost
    }

    pub(crate) fn is_in_flight(self) -> (b: bool)
        ensures
            b == (self == Fate::InFlight),
    {
        match self {
            Fate::InFlight => true,
            _ => false,
        }
    }

    fn is_due(self) -> (b: bool)
        ensures
            b == self.due(),
    {
        match self {
            Fate::Unsent => true,
            Fate::Lost => true,
            _ => false,
        }
    }

    fn is_acked(self) -> (b: bool)
        ensures
            b == (self == Fate::Acked),
    {
        match self {
            Fate::Acked => true,
            _ => false,
        }
    }

    /// The fate after an acknowledgment: what was never sent stays so.
    pub open spec fn acked(self) -> Fate {
        if self == Fate::Unsent {
            Fate::Unsent
        } else {
            Fate::Acked
        }
    }

    /// The fate after a loss: only what was in flight is lost.
    pub open spec fn lost(self) -> Fate {
        if self == Fate::InFlight {
            Fate::Lost
        } else {
            self
        }
    }
}

/// For each position, whether it waits for a transmission.
pub open spec fn due_flags(fate: Seq<Fate>) -> Seq<bool> {
    Seq::new(fate.len(), |i: int| fate[i].due())
}

/// For each position, whether it does not wait for a transmission.
pub open spec fn quiet_flags(fate: Seq<Fate>) -> Seq<bool> {
    Seq::new(fate.len(), |i: int| !fate[i].due())
}

/// The fates after the positions from `from` up to `to` were transmitted.
pub open spec fn sent_range(fate: Seq<Fate>, from: nat, to: nat) -> Seq<Fate> {
    Seq::new(fate.len(), |i: int| if from <= i < to { Fate::InFlight } else { fate[i] })
}

/// The fates after the positions from `from` up to `to` were acknowledged.
pub open spec fn acked_range(fate: Seq<Fate>, from: nat, to: nat) -> Seq<Fate> {
    Seq::new(fate.len(), |i: int| if from <= i < to { fate[i].acked() } else { fate[i] })
}

/// The fates after the positions from `from` up to `to` were declared lost.
pub open spec fn lost_range(fate: Seq<Fate>, from: nat, to: nat) -> Seq<Fate> {
    Seq::new(fate.len(), |i: int| if from <= i < to { fate[i].lost() } else { fate[i] })
}

/// What a write achieved.
#[derive(Clone, Copy, Debug, PartialEq, Eq, Structural)]
pub enum Written {
    /// This many bytes, from the front of what was offered, were accepted.
    Accepted(usize),
    /// The credit is used up: the writer waits.
    Blocked,
}

/// A piece of a stream on its way to the peer.
#[derive(Debug)]
pub struct StreamData {
    pub offset: u64,
    pub data: Vec<u8>,
    pub fin: bool,
}

impl View for StreamData {
    type V = StreamFrame;

    open spec fn view(&self) -> StreamFrame {
        StreamFrame { offset: self.offset as nat, data: self.data@, fin: self.fin }
    }
}

/// The sending half as a mathematical value.
pub struct SendModel {
    /// Every byte that was accepted from the writer, in order.
    pub data: Seq<u8>,
    /// What is known of each of these bytes.
    pub fate: Seq<Fate>,
    pub state: SendState,
    /// What is known of the mark that ends the stream.
    pub fin: Fate,
    /// What is known of the notice that the stream was abandoned.
    pub reset: Fate,
    pub reset_code: u64,
    /// The code with which the peer asked that sending stop.
    pub stopped: Option<u64>,
    /// The credit that the peer gave to this stream.
    pub credit: WindowModel,
}

impl SendModel {
    pub open spec fn all_acked(self) -> bool {
        forall|i: int| 0 <= i < self.fate.len() ==> self.fate[i] == Fate::Acked
    }

    pub open spec fn wf(self) -> bool {
        &&& self.data.len() == self.fate.len()
        &&& self.credit.wf()
        &&& self.credit.consumed == self.data.len()
        &&& self.state == SendState::Ready ==> self.data.len() == 0
        &&& self.state == SendState::Ready || self.state == SendState::Send ==> self.fin
            == Fate::Unsent
        &&& self.state == SendState::DataRecvd ==> self.all_acked() && self.fin == Fate::Acked
        &&& self.state == SendState::ResetRecvd ==> self.reset == Fate::Acked
        &&& self.state != SendState::ResetSent && self.state != SendState::ResetRecvd
            ==> self.reset == Fate::Unsent && self.stopped is None
    }

    /// A half on which nothing has happened, with `granted` bytes of credit.
    pub open spec fn fresh(credit: WindowModel) -> SendModel {
        SendModel {
            data: Seq::empty(),
            fate: Seq::empty(),
            state: SendState::Ready,
            fin: Fate::Unsent,
            reset: Fate::Unsent,
            reset_code: 0,
            stopped: None,
            credit,
        }
    }

    /// The writer may still write.
    pub open spec fn writable(self) -> bool {
        self.state == SendState::Ready || self.state == SendState::Send
    }

    /// Data of the stream may be transmitted.
    pub open spec fn sending(self) -> bool {
        self.state == SendState::Send || self.state == SendState::DataSent
    }

    /// The stream can still be abandoned.
    pub open spec fn resettable(self) -> bool {
        self.state == SendState::Ready || self.state == SendState::Send || self.state
            == SendState::DataSent
    }

    /// The failure of a write, if it fails.
    pub open spec fn write_error(self) -> Option<StreamError> {
        match self.stopped {
            Some(code) => Some(StreamError::Stopped(code)),
            None => if self.writable() {
                None
            } else {
                Some(StreamError::UnknownStream)
            },
        }
    }

    /// The failure of a finish, if it fails: only a half that is being
    /// written can be finished.
    pub open spec fn finish_error(self) -> Option<StreamError> {
        match self.stopped {
            Some(code) => Some(StreamError::Stopped(code)),
            None => if self.state == SendState::Send {
                None
            } else {
                Some(StreamError::UnknownStream)
            },
        }
    }

    /// How many of `len` offered bytes a write accepts, when the connection
    /// has room for `budget` more.
    pub open spec fn accepts(self, len: nat, budget: nat) -> nat {
        let a = if len < budget {
            len
        } else {
            budget
        };
        if a < self.credit.remaining() {
            a
        } else {
            self.credit.remaining()
        }
    }

    /// The half after `bytes` were accepted.
    pub open spec fn after_write(self, bytes: Seq<u8>) -> SendModel {
        SendModel {
            data: self.data + bytes,
            fate: self.fate + Seq::new(bytes.len(), |i: int| Fate::Unsent),
            state: SendState::Send,
            credit: self.credit.consume(bytes.len()),
            ..self
        }
    }

    /// Whether `r` and `after` are what a write of `data` gives, when the
    /// connection has room for `budget` more bytes.
    pub open spec fn write_yields(
        self,
        data: Seq<u8>,
        budget: nat,
        r: Result<Written, StreamError>,
        after: SendModel,
    ) -> bool {
        match r {
            Err(e) => self.write_error() == Some(e) && after == self,
            Ok(Written::Blocked) => self.write_error() is None && data.len() > 0 && self.accepts(
                data.len(),
                budget,
            ) == 0 && after == self,
            Ok(Written::Accepted(n)) => self.write_error() is None && n == self.accepts(
                data.len(),
                budget,
            ) && (n > 0 || data.len() == 0) && after == self.after_write(
                data.subrange(0, n as int),
            ),
        }
    }

    pub open spec fn after_finish(self) -> SendModel {
        SendModel { state: SendState::DataSent, ..self }
    }

    /// The half after it was abandoned with `code`, by the writer or because
    /// the peer asked for it (`stopped`).
    pub open spec fn after_reset(self, code: u64, stopped: bool) -> SendModel {
        SendModel {
            state: SendState::ResetSent,
            reset_code: code,
            stopped: if stopped {
                Some(code)
            } else {
                self.stopped
            },
            ..self
        }
    }

    /// Whether the mark that ends the stream waits for a transmission.
    pub open spec fn fin_due(self) -> bool {
        self.state == SendState::DataSent && self.fin.due()
    }

    /// The lowest offset that waits for a transmission, or the length of the
    /// data when none does.
    pub open spec fn next_offset(self) -> nat {
        run_len(quiet_flags(self.fate), 0)
    }

    /// How many bytes the next frame carries when it may carry `max`.
    pub open spec fn burst(self, max: nat) -> nat {
        let run = run_len(due_flags(self.fate), self.next_offset());
        if max < run {
            max
        } else {
            run
        }
    }

    /// The frame that a transmission of at most `max` bytes sends, if there
    /// is anything to send.
    pub open spec fn next_frame(self, max: nat) -> Option<StreamFrame> {
        let offset = self.next_offset();
        let n = self.burst(max);
        if !self.sending() || max == 0 {
            None
        } else if n > 0 {
            Some(
                StreamFrame {
                    offset,
                    data: self.data.subrange(offset as int, (offset + n) as int),
                    fin: offset + n == self.data.len() && self.fin_due(),
                },
            )
        } else if self.fin_due() {
            Some(StreamFrame { offset: self.data.len(), data: Seq::empty(), fin: true })
        } else {
            None
        }
    }

    /// The half after that transmission.
    pub open spec fn after_transmit(self, max: nat) -> SendModel {
        match self.next_frame(max) {
            None => self,
            Some(f) => SendModel {
                fate: sent_range(self.fate, f.offset, f.end()),
                fin: if f.fin {
                    Fate::InFlight
                } else {
                    self.fin
                },
                ..self
            },
        }
    }

    /// The half after the peer acknowledged a frame.
    pub open spec fn after_ack(self, offset: nat, len: nat, fin: bool) -> SendModel {
        let fate = acked_range(self.fate, offset, offset + len);
        let fin_fate = if fin {
            self.fin.acked()
        } else {
            self.fin
        };
        SendModel {
            fate,
            fin: fin_fate,
            state: if self.state == SendState::DataSent && fin_fate == Fate::Acked && (SendModel {
                fate,
                ..self
            }).all_acked() {
                SendState::DataRecvd
            } else {
                self.state
            },
            ..self
        }
    }

    /// The half after a frame was declared lost.
    pub open spec fn after_loss(self, offset: nat, len: nat, fin: bool) -> SendModel {
        SendModel {
            fate: lost_range(self.fate, offset, offset + len),
            fin: if fin {
                self.fin.lost()
            } else {
                self.fin
            },
            ..self
        }
    }

    /// The half after it was learned what became of the notice that the
    /// stream was abandoned.
    pub open spec fn after_reset_fate(self, acked: bool) -> SendModel {
        if self.state == SendState::ResetSent && self.reset == Fate::InFlight {
            SendModel {
                reset: if acked {
                    Fate::Acked
                } else {
                    Fate::Lost
                },
                state: if acked {
                    SendState::ResetRecvd
                } else {
                    SendState::ResetSent
                },
                ..self
            }
        } else {
            self
        }
    }

    /// Whether the notice that the stream was abandoned waits for a
    /// transmission.
    pub open spec fn reset_due(self) -> bool {
        self.state == SendState::ResetSent && self.reset.due()
    }
}

/// Marks the positions from `from` up to `to` as acknowledged or as lost.
fn mark_range(fate: &mut Vec<Fate>, from: usize, to: usize, acked: bool)
    requires
        from <= to <= old(fate)@.len(),
    ensures
        final(fate)@ == (if acked {
            acked_range(old(fate)@, from as nat, to as nat)
        } else {
            lost_range(old(fate)@, from as nat, to as nat)
        }),
{
    let ghost fate0 = fate@;
    let mut i: usize = from;
    while i < to
        invariant
            from <= i <= to <= fate0.len(),
            fate@.len() == fate0.len(),
            forall|k: int| 0 <= k < fate0.len() && !(from <= k < i) ==> #[trigger] fate@[k] == fate0[k],
            forall|k: int|
                from <= k < i ==> #[trigger] fate@[k] == (if acked {
                    fate0[k].acked()
                } else {
                    fate0[k].lost()
                }),
        decreases to - i,
    {
        let f: Fate = fate[i];
        let g: Fate = if acked {
            match f {
                Fate::Unsent => Fate::Unsent,
                _ => Fate::Acked,
            }
        } else {
            match f {
                Fate::InFlight => Fate::Lost,
                other => other,
            }
        };
        fate.set(i, g);
        i = i + 1;
    }
    assert(acked ==> fate@ =~= acked_range(fate0, from as nat, to as nat));
    assert(!acked ==> fate@ =~= lost_range(fate0, from as nat, to as nat));
}

/// Finds the lowest position that waits for a transmission, given that none
/// below `from` does.
fn first_due(fate: &Vec<Fate>, from: usize) -> (i: usize)
    requires
        from <= fate@.len(),
        forall|k: int| 0 <= k < from ==> !(#[trigger] fate@[k]).due(),
    ensures
        from <= i <= fate@.len(),
        i == run_len(quiet_flags(fate@), 0),
        forall|k: int| 0 <= k < i ==> !(#[trigger] fate@[k]).due(),
{
    let ghost quiet = quiet_flags(fate@);
    let len: usize = fate.len();
    let mut i: usize = from;
    while i < len && !fate[i].is_due()
        invariant
            from <= i <= len,
            len == fate@.len(),
            forall|k: int| 0 <= k < i ==> !(#[trigger] fate@[k]).due(),
        decreases len - i,
    {
        i = i + 1;
    }
    proof {
        assert forall|k: int| 0 <= k < i implies quiet[k] by {
            assert(!fate@[k].due());
        }
        lemma_run_split(quiet, 0, i as nat);
        assert(run_len(quiet, i as nat) == 0);
    }
    i
}

/// Marks as in flight the run of positions at `from` that wait for a
/// transmission, `max` of them at most, and returns where it stopped.
fn mark_burst(fate: &mut Vec<Fate>, from: usize, max: usize) -> (to: usize)
    requires
        from <= old(fate)@.len(),
    ensures
        from <= to <= old(fate)@.len(),
        to - from == (if max < run_len(due_flags(old(fate)@), from as nat) {
            max as nat
        } else {
            run_len(due_flags(old(fate)@), from as nat)
        }),
        final(fate)@ == sent_range(old(fate)@, from as nat, to as nat),
{
    let ghost fate0 = fate@;
    let ghost due = due_flags(fate0);
    let len: usize = fate.len();
    let mut j: usize = from;
    assert(fate@ =~= sent_range(fate0, from as nat, j as nat));
    while j < len && j - from < max && fate[j].is_due()
        invariant
            from <= j <= len,
            j - from <= max,
            len == fate@.len(),
            len == fate0.len(),
            forall|k: int| from <= k < j ==> (#[trigger] fate0[k]).due(),
            fate@ == sent_range(fate0, from as nat, j as nat),
        decreases len - j,
    {
        fate.set(j, Fate::InFlight);
        j = j + 1;
        assert(fate@ =~= sent_range(fate0, from as nat, j as nat));
    }
    proof {
        assert forall|k: int| from <= k < j implies due[k] by {
            assert(fate0[k].due());
        }
        lemma_run_split(due, from as nat, j as nat);
        if j < len && j - from < max {
            assert(fate@[j as int] == fate0[j as int]);
            assert(!due[j as int]);
            assert(run_len(due, j as nat) == 0);
        }
    }
    j
}

/// The part of the range `offset .. offset + len` that lies below `bound`.
fn clamp_range(offset: u64, len: u64, bound: usize) -> (r: (usize, usize))
    ensures
        r.0 <= r.1 <= bound,
        r.0 == (if offset <= bound { offset as int } else { bound as int }),
        r.1 == (if offset + len <= bound { offset + len } else { bound as int }),
{
    if offset >= bound as u64 {
        (bound, bound)
    } else if len >= bound as u64 - offset {
        (offset as usize, bound)
    } else {
        (offset as usize, (offset + len) as usize)
    }
}

/// The sending half of one stream.
pub struct SendHalf {
    buf: Vec<u8>,
    fate: Vec<Fate>,
    /// Nothing below this offset waits for a transmission.
    floor: usize,
    /// Everything below this offset is acknowledged.
    acked: usize,
    state: SendState,
    fin: Fate,
    reset: Fate,
    reset_code: u64,
    stopped: Option<u64>,
    credit: FlowControlWindow,
}

impl View for SendHalf {
    type V = SendModel;

    closed spec fn view(&self) -> SendModel {
        SendModel {
            data: self.buf@,
            fate: self.fate@,
            state: self.state,
            fin: self.fin,
            reset: self.reset,
            reset_code: self.reset_code,
            stopped: self.stopped,
            credit: self.credit@,
        }
    }
}

impl SendHalf {
    pub closed spec fn wf(&self) -> bool {
        &&& self@.wf()
        &&& self.floor <= self.fate@.len()
        &&& self.acked <= self.fate@.len()
        &&& forall|i: int| 0 <= i < self.floor ==> !(#[trigger] self.fate@[i]).due()
        &&& forall|i: int| 0 <= i < self.acked ==> #[trigger] self.fate@[i] == Fate::Acked
    }

    /// Validity of the half implies validity of its model.
    pub proof fn lemma_wf_model(&self)
        requires
            self.wf(),
        ensures
            self@.wf(),
    {
    }

    /// A half on which nothing has happened, with `granted` bytes of credit
    /// from the peer.
    pub fn new(granted: u64) -> (h: SendHalf)
        ensures
            h.wf(),
            h@ == SendModel::fresh(h@.credit),
            h@.credit == FlowControlWindow::new_model(granted),
    {
        let h = SendHalf {
            buf: Vec::new(),
            fate: Vec::new(),
            floor: 0,
            acked: 0,
            state: SendState::Ready,
            fin: Fate::Unsent,
            reset: Fate::Unsent,
            reset_code: 0,
            stopped: None,
            credit: FlowControlWindow::new(granted),
        };
        assert(h@.data =~= Seq::<u8>::empty());
        assert(h@.fate =~= Seq::<Fate>::empty());
        h
    }

    pub fn state(&self) -> (s: SendState)
        ensures
            s == self@.state,
    {
        self.state
    }

    /// Bytes of credit that the stream has left.
    pub fn remaining(&self) -> (r: u64)
        requires
            self.wf(),
        ensures
            r == self@.credit.remaining(),
    {
        self.credit.remaining()
    }

    /// Accepts bytes from the front of `data`: as many as the credit of the
    /// stream and the room of the connection, `budget`, allow.
    pub fn write(&mut self, data: &[u8], budget: u64) -> (r: Result<Written, StreamError>)
        requires
            old(self).wf(),
        ensures
            old(self)@.write_yields(data@, budget as nat, r, final(self)@),
            final(self).wf(),
            match r {
                Err(e) => old(self)@.write_error() == Some(e) && final(self)@ == old(self)@,
                Ok(Written::Blocked) => old(self)@.write_error() is None && data@.len() > 0 && old(self)@.accepts(data@.len(), budget as nat) == 0 && final(self)@ == old(self)@,
                Ok(Written::Accepted(n)) => old(self)@.write_error() is None && n == old(self)@.accepts(data@.len(), budget as nat) && (n > 0 || data@.len() == 0) && final(self)@ == old(self)@.after_write(data@.subrange(0, n as int)),
            },
    {
        match self.stopped {
            Some(code) => {
                return Err(StreamError::Stopped(code));
            },
            None => {},
        }
        match self.state {
            SendState::Ready => {},
            SendState::Send => {},
            _ => {
                return Err(StreamError::UnknownStream);
            },
        }
        let room: u64 = self.credit.remaining();
        let cap: u64 = if budget < room { budget } else { room };
        let n: usize = if (data.len() as u64) < cap { data.len() } else { cap as usize };
        if n == 0 && data.len() > 0 {
            return Ok(Written::Blocked);
        }
        let ghost pre = self@;
        let mut i: usize = 0;
        while i < n
            invariant
                i <= n <= data@.len(),
                self.buf@ == pre.data + data@.subrange(0, i as int),
                self.fate@ == pre.fate + Seq::new(i as nat, |k: int| Fate::Unsent),
                self.buf@.len() == self.fate@.len(),
                self.floor == old(self).floor,
                self.acked == old(self).acked,
                self.state == old(self).state,
                self.fin == old(self).fin,
                self.reset == old(self).reset,
                self.reset_code == old(self).reset_code,
                self.stopped == old(self).stopped,
                self.credit == old(self).credit,
            decreases n - i,
        {
            self.buf.push(data[i]);
            self.fate.push(Fate::Unsent);
            i = i + 1;
            assert(self.buf@ =~= pre.data + data@.subrange(0, i as int));
            assert(self.fate@ =~= pre.fate + Seq::new(i as nat, |k: int| Fate::Unsent));
        }
        let used = self.credit.consume(n as u64);
        assert(used is Ok);
        self.state = SendState::Send;
        assert(self@.fate =~= pre.after_write(data@.subrange(0, n as int)).fate);
        Ok(Written::Accepted(n))
    }

    /// Ends the stream after what was written. Only a half that is being
    /// written can be finished.
    pub fn finish(&mut self) -> (r: Result<(), StreamError>)
        requires
            old(self).wf(),
        ensures
            final(self).wf(),
            match r {
                Err(e) => old(self)@.finish_error() == Some(e) && final(self)@ == old(self)@,
                Ok(()) => old(self)@.finish_error() is None && final(self)@ == old(self)@.after_finish(),
            },
    {
        match self.stopped {
            Some(code) => {
                return Err(StreamError::Stopped(code));
            },
            None => {},
        }
        match self.state {
            SendState::Send => {
                self.state = SendState::DataSent;
                Ok(())
            },
            _ => Err(StreamError::UnknownStream),
        }
    }

    fn is_resettable(&self) -> (b: bool)
        ensures
            b == self@.resettable(),
    {
        match self.state {
            SendState::Ready => true,
            SendState::Send => true,
            SendState::DataSent => true,
            _ => false,
        }
    }

    /// Abandons the stream with `code`: possible until the stream has come
    /// to an end one way or the other.
    pub fn reset(&mut self, code: u64) -> (r: Result<(), StreamError>)
        requires
            old(self).wf(),
        ensures
            final(self).wf(),
            r is Ok <==> old(self)@.resettable(),
            r is Ok ==> final(self)@ == old(self)@.after_reset(code, false),
            r is Err ==> r == Err::<(), StreamError>(StreamError::UnknownStream) && final(self)@
                == old(self)@,
    {
        if self.is_resettable() {
            self.state = SendState::ResetSent;
            self.reset_code = code;
            Ok(())
        } else {
            Err(StreamError::UnknownStream)
        }
    }

    /// Takes in the peer's request that sending stop: the stream is
    /// abandoned with the peer's code, and the writer will be told.
    pub fn on_stop_sending(&mut self, code: u64)
        requires
            old(self).wf(),
        ensures
            final(self).wf(),
            final(self)@ == (if old(self)@.resettable() {
                old(self)@.after_reset(code, true)
            } else {
                old(self)@
            }),
    {
        if self.is_resettable() {
            self.state = SendState::ResetSent;
            self.reset_code = code;
            self.stopped = Some(code);
        }
    }

    /// Takes note of the credit that the peer announced for the stream.
    pub fn on_max_stream_data(&mut self, limit: u64) -> (grew: bool)
        requires
            old(self).wf(),
        ensures
            final(self).wf(),
            final(self)@ == (SendModel {
                credit: old(self)@.credit.raise(limit as nat),
                ..old(self)@
            }),
            grew <==> final(self)@.credit.granted > old(self)@.credit.granted,
    {
        self.credit.raise(limit)
    }

    /// Hands out the next frame of the stream, of at most `max` bytes: the
    /// lowest bytes that wait for a transmission, lost ones before new ones.
    pub fn poll_transmit(&mut self, max: usize) -> (r: Option<StreamData>)
        requires
            old(self).wf(),
        ensures
            final(self).wf(),
            final(self)@ == old(self)@.after_transmit(max as nat),
            match r {
                Some(f) => old(self)@.next_frame(max as nat) == Some(f@),
                None => old(self)@.next_frame(max as nat) is None,
            },
    {
        let sending: bool = match self.state {
            SendState::Send => true,
            SendState::DataSent => true,
            _ => false,
        };
        if !sending || max == 0 {
            return None;
        }
        let ghost pre = self@;
        let len: usize = self.fate.len();
        let i: usize = first_due(&self.fate, self.floor);
        self.floor = i;
        let fin_due: bool = match self.state {
            SendState::DataSent => self.fin.is_due(),
            _ => false,
        };
        let j: usize = mark_burst(&mut self.fate, i, max);
        assert(pre.next_offset() == i);
        assert(pre.burst(max as nat) == j - i);
        if j == i {
            assert(self.fate@ =~= pre.fate);
            if fin_due {
                self.fin = Fate::InFlight;
                let out = StreamData { offset: len as u64, data: Vec::new(), fin: true };
                assert(out@.data =~= Seq::<u8>::empty());
                assert(self@.fate =~= sent_range(pre.fate, len as nat, len as nat));
                return Some(out);
            }
            return None;
        }
        let data: Vec<u8> = crate::recv::copy_range(&self.buf, i, j);
        let fin: bool = j == len && fin_due;
        if fin {
            self.fin = Fate::InFlight;
        }
        self.floor = j;
        Some(StreamData { offset: i as u64, data, fin })
    }

    /// Takes in the peer's acknowledgment of a frame of this stream.
    pub fn on_ack(&mut self, offset: u64, len: u64, fin: bool)
        requires
            old(self).wf(),
        ensures
            final(self).wf(),
            final(self)@ == old(self)@.after_ack(offset as nat, len as nat, fin),
    {
        let ghost pre = self@;
        let total: usize = self.fate.len();
        let (from, to) = clamp_range(offset, len, total);
        mark_range(&mut self.fate, from, to, true);
        assert(self.fate@ =~= acked_range(pre.fate, offset as nat, (offset + len) as nat));
        if fin {
            self.fin = match self.fin {
                Fate::Unsent => Fate::Unsent,
                _ => Fate::Acked,
            };
        }
        let mut a: usize = self.acked;
        while a < total && self.fate[a].is_acked()
            invariant
                a <= total,
                total == self.fate@.len(),
                forall|k: int| 0 <= k < a ==> #[trigger] self.fate@[k] == Fate::Acked,
            decreases total - a,
        {
            a = a + 1;
        }
        self.acked = a;
        let done: bool = a == total && self.fin.is_acked();
        match self.state {
            SendState::DataSent => {
                if done {
                    self.state = SendState::DataRecvd;
                }
            },
            _ => {},
        }
        proof {
            if a < total {
                assert(self.fate@[a as int] != Fate::Acked);
            }
        }
    }

    /// Takes in the ending that a frame of this stream was lost: what it
    /// carried waits for a transmission again, unless it was acknowledged
    /// meanwhile.
    pub fn on_loss(&mut self, offset: u64, len: u64, fin: bool)
        requires
            old(self).wf(),
        ensures
            final(self).wf(),
            final(self)@ == old(self)@.after_loss(offset as nat, len as nat, fin),
    {
        let ghost pre = self@;
        let total: usize = self.fate.len();
        let (from, to) = clamp_range(offset, len, total);
        mark_range(&mut self.fate, from, to, false);
        assert(self.fate@ =~= lost_range(pre.fate, offset as nat, (offset + len) as nat));
        if from < self.floor {
            self.floor = from;
        }
        if fin {
            self.fin = match self.fin {
                Fate::InFlight => Fate::Lost,
                other => other,
            };
        }
    }

    /// Hands out the notice that the stream was abandoned, when it waits
    /// for a transmission: the code and the length that the stream had.
    pub fn poll_reset(&mut self) -> (r: Option<(u64, u64)>)
        requires
            old(self).wf(),
        ensures
            final(self).wf(),
            r is Some <==> old(self)@.reset_due(),
            r is Some ==> r->0 == (old(self)@.reset_code, old(self)@.data.len() as u64)
                && final(self)@ == (SendModel { reset: Fate::InFlight, ..old(self)@ }),
            r is None ==> final(self)@ == old(self)@,
    {
        match self.state {
            SendState::ResetSent => {
                if self.reset.is_due() {
                    self.reset = Fate::InFlight;
                    Some((self.reset_code, self.buf.len() as u64))
                } else {
                    None
                }
            },
            _ => None,
        }
    }

    /// Takes in what became of the notice that the stream was abandoned.
    pub fn on_reset_fate(&mut self, acked: bool)
        requires
            old(self).wf(),
        ensures
            final(self).wf(),
            final(self)@ == old(self)@.after_reset_fate(acked),
    {
        match (self.state, self.reset) {
            (SendState::ResetSent, Fate::InFlight) => {
                if acked {
                    self.reset = Fate::Acked;
                    self.state = SendState::ResetRecvd;
                } else {
                    self.reset = Fate::Lost;
                }
            },
            _ => {},
        }
    }
}

/// A frame that a valid half hands out lies within the data of the half,
/// is no longer than was allowed, and stays under the credit that the peer
/// gave: nothing is ever sent beyond the window.
pub proof fn lemma_frame_fits(m: SendModel, max: nat)
    requires
        m.wf(),
        m.next_frame(max) is Some,
    ensures
        m.next_frame(max)->0.data.len() <= max,
        m.next_frame(max)->0.offset + m.next_frame(max)->0.data.len() <= m.data.len(),
        m.next_frame(max)->0.data == m.data.subrange(
            m.next_frame(max)->0.offset as int,
            m.next_frame(max)->0.end() as int,
        ),
        m.next_frame(max)->0.end() <= m.credit.granted,
{
    let quiet = quiet_flags(m.fate);
    let due = due_flags(m.fate);
    crate::runs::lemma_run_content(quiet, 0);
    let o = m.next_offset();
    crate::runs::lemma_run_content(due, o);
    if m.burst(max) == 0 {
        assert(m.next_frame(max)->0.data =~= m.data.subrange(m.data.len() as int, m.data.len() as int));
    }
}

/// Whether `front` is the beginning of `whole`.
pub open spec fn begins(whole: Seq<u8>, front: Seq<u8>) -> bool {
    front.len() <= whole.len() && whole.subrange(0, front.len() as int) == front
}

/// Every frame that a half hands out is a piece of what the writer wrote,
/// at its place, and marks the end only where the writing ended: whatever
/// is written after the frame has left, the frame stays a piece of the
/// whole.
pub proof fn lemma_frame_is_piece(m: SendModel, max: nat, payload: Seq<u8>)
    requires
        m.wf(),
        m.next_frame(max) is Some,
        begins(payload, m.data),
        m.state == SendState::DataSent ==> payload == m.data,
    ensures
        m.next_frame(max)->0.cut_from(payload),
{
    lemma_frame_fits(m, max);
    let f = m.next_frame(max)->0;
    assert(f.data =~= payload.subrange(f.offset as int, f.end() as int)) by {
        assert forall|i: int| 0 <= i < f.data.len() implies f.data[i] == payload[f.offset + i] by {
            assert(m.data[f.offset + i] == payload.subrange(0, m.data.len() as int)[f.offset + i]);
        }
    }
}

/// What can happen to a sending half while its stream is being written.
pub enum SendOp {
    /// The writer offers bytes; they are taken if the credit allows all of
    /// them.
    Write(Seq<u8>),
    /// The writer finishes the stream.
    Finish,
    /// A frame of at most this many bytes leaves.
    Transmit(nat),
    /// The peer acknowledged a frame.
    Ack(nat, nat, bool),
    /// A frame was declared lost.
    Loss(nat, nat, bool),
    /// The peer announced credit.
    Credit(nat),
}

/// One step of a sending half. What cannot be done changes nothing.
pub open spec fn send_step(m: SendModel, op: SendOp) -> SendModel {
    match op {
        SendOp::Write(bytes) => if m.write_error() is None && bytes.len()
            <= m.credit.remaining() {
            m.after_write(bytes)
        } else {
            m
        },
        SendOp::Finish => if m.finish_error() is None {
            m.after_finish()
        } else {
            m
        },
        SendOp::Transmit(max) => m.after_transmit(max),
        SendOp::Ack(offset, len, fin) => m.after_ack(offset, len, fin),
        SendOp::Loss(offset, len, fin) => m.after_loss(offset, len, fin),
        SendOp::Credit(limit) => SendModel { credit: m.credit.raise(limit), ..m },
    }
}

/// A whole run of steps.
pub open spec fn send_run(m: SendModel, ops: Seq<SendOp>) -> SendModel
    decreases ops.len(),
{
    if ops.len() == 0 {
        m
    } else {
        send_step(send_run(m, ops.drop_last()), ops.last())
    }
}

/// Whether every byte of `before` is still there in `after`, and every
/// byte that the peer had acknowledged still counts as acknowledged.
pub open spec fn keeps(before: SendModel, after: SendModel) -> bool {
    &&& begins(after.data, before.data)
    &&& before.fate.len() <= after.fate.len()
    &&& forall|i: int|
        0 <= i < before.fate.len() && before.fate[i] == Fate::Acked ==> #[trigger] after.fate[i]
            == Fate::Acked
}

/// No step drops a byte that was accepted, and none forgets an
/// acknowledgment.
pub proof fn lemma_step_keeps(m: SendModel, op: SendOp)
    requires
        m.wf(),
    ensures
        send_step(m, op).wf(),
        keeps(m, send_step(m, op)),
{
    let after = send_step(m, op);
    assert(after.data.subrange(0, m.data.len() as int) =~= m.data);
    match op {
        SendOp::Transmit(max) => {
            if m.next_frame(max) is Some {
                lemma_frame_fits(m, max);
                let f = m.next_frame(max)->0;
                crate::runs::lemma_run_content(quiet_flags(m.fate), 0);
                crate::runs::lemma_run_content(due_flags(m.fate), m.next_offset());
                assert forall|i: int|
                    0 <= i < m.fate.len() && m.fate[i] == Fate::Acked implies #[trigger] after.fate[i]
                        == Fate::Acked by {
                    if f.offset <= i < f.end() {
                        assert(due_flags(m.fate)[i]);
                    }
                }
                if after.state == SendState::DataRecvd {
                    assert(after.all_acked()) by {
                        assert forall|i: int| 0 <= i < after.fate.len() implies after.fate[i]
                            == Fate::Acked by {
                            assert(m.fate[i] == Fate::Acked);
                        }
                    }
                }
            }
        },
        SendOp::Loss(offset, len, fin) => {
            if after.state == SendState::DataRecvd {
                assert forall|i: int| 0 <= i < after.fate.len() implies after.fate[i]
                    == Fate::Acked by {
                    assert(m.fate[i] == Fate::Acked);
                }
            }
        },
        SendOp::Ack(offset, len, fin) => {
            if m.state == SendState::DataRecvd {
                assert forall|i: int| 0 <= i < after.fate.len() implies after.fate[i]
                    == Fate::Acked by {
                    assert(m.fate[i] == Fate::Acked);
                }
            }
        },
        _ => {},
    }
}

/// Over any run of steps every byte that was accepted is kept until the
/// peer has acknowledged it: the data only grows, an acknowledgment is
/// never forgotten, and the half counts as received by the peer only when
/// every byte and the end are acknowledged.
pub proof fn lemma_run_keeps(m: SendModel, ops: Seq<SendOp>)
    requires
        m.wf(),
    ensures
        send_run(m, ops).wf(),
        keeps(m, send_run(m, ops)),
        send_run(m, ops).state == SendState::DataRecvd ==> send_run(m, ops).all_acked()
            && send_run(m, ops).fin == Fate::Acked,
    decreases ops.len(),
{
    if ops.len() == 0 {
        assert(m.data.subrange(0, m.data.len() as int) =~= m.data);
    } else {
        let before = send_run(m, ops.drop_last());
        lemma_run_keeps(m, ops.drop_last());
        lemma_step_keeps(before, ops.last());
        let after = send_run(m, ops);
        assert(after.data.subrange(0, m.data.len() as int) =~= m.data) by {
            assert forall|i: int| 0 <= i < m.data.len() implies after.data[i] == m.data[i] by {
                assert(after.data.subrange(0, before.data.len() as int)[i] == before.data[i]);
                assert(before.data.subrange(0, m.data.len() as int)[i] == m.data[i]);
            }
        }
        assert forall|i: int|
            0 <= i < m.fate.len() && m.fate[i] == Fate::Acked implies #[trigger] after.fate[i]
                == Fate::Acked by {
            assert(before.fate[i] == Fate::Acked);
        }
    }
}

/// What was lost is sent again: a byte that was in flight in a frame that
/// is declared lost waits for a transmission afterwards, and while any byte
/// waits, the next transmission hands out a frame that begins at the lowest
/// of them.
pub proof fn lemma_lost_is_offered(m: SendModel, offset: nat, len: nat, i: int, max: nat)
    requires
        m.wf(),
        m.sending(),
        max > 0,
        offset <= i < offset + len,
        i < m.fate.len(),
        m.fate[i] == Fate::InFlight,
    ensures
        m.after_loss(offset, len, false).fate[i] == Fate::Lost,
        m.after_loss(offset, len, false).next_frame(max) is Some,
        m.after_loss(offset, len, false).next_frame(max)->0.offset <= i,
        m.after_loss(offset, len, false).next_frame(max)->0.data.len() > 0,
{
    let after = m.after_loss(offset, len, false);
    let quiet = quiet_flags(after.fate);
    let due = due_flags(after.fate);
    crate::runs::lemma_run_content(quiet, 0);
    let o = after.next_offset();
    assert(!quiet[i]);
    assert(o <= i);
    assert(o < after.fate.len());
    assert(due[o as int]);
    assert(run_len(due, o) > 0);
    crate::runs::lemma_run_content(due, o);
    assert(after.burst(max) > 0);
    assert(o + after.burst(max) <= after.data.len());
}

/// New credit sets a writer free: after the peer has raised the credit of
/// a stream, a write of any bytes takes at least one of them, as far as the
/// connection has room. So a writer that waits for a window goes on as soon
/// as the window is renewed.
pub proof fn lemma_credit_unblocks(m: SendModel, limit: nat, len: nat, budget: nat)
    requires
        m.wf(),
        limit > m.credit.granted,
        limit <= crate::flow::credit_limit(),
        len > 0,
        budget > 0,
    ensures
        (SendModel { credit: m.credit.raise(limit), ..m }).accepts(len, budget) > 0,
        (SendModel { credit: m.credit.raise(limit), ..m }).wf(),
{
}

} // verus!
