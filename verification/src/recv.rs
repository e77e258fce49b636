//! The receiving half of a stream: it puts the bytes that arrive, in
//! whatever order and however often, back into the order in which they were
//! written, and hands each of them to the reader exactly once.

use vstd::prelude::*;
use crate::flow::{CreditModel, ReceiveCredit};
use crate::runs::{lemma_run_content, lemma_run_split, run_len};

verus! {

/// Where a receiving half stands in its life.
#[derive(Clone, Copy, Debug, PartialEq, Eq, Structural)]
pub enum RecvState {
    /// Nothing has arrived yet.
    Idle,
    /// Data arrives; the length of the stream is not known.
    Recv,
    /// The length is known, some bytes are still missing.
    SizeKnown,
    /// Every byte has arrived.
    DataRecvd,
    /// Every byte has been handed to the reader.
    DataRead,
    /// The peer abandoned the stream.
    ResetRecvd,
    /// The reader has been told that the peer abandoned the stream.
    ResetRead,
}

/// Why a frame of the peer is a violation of the protocol.
#[derive(Clone, Copy, Debug, PartialEq, Eq, Structural)]
pub enum FrameError {
    /// The peer sent beyond the credit it was given.
    FlowControl,
    /// The peer contradicted the length of the stream.
    FinalSize,
}

/// What a read finds.
#[derive(Debug)]
pub enum ReadOutcome {
    /// The next bytes of the stream, in order.
    Data(Vec<u8>),
    /// Nothing can be read now: the reader waits.
    Blocked,
    /// The stream has ended and all of it was read.
    Finished,
    /// The peer abandoned the stream with this code.
    Reset(u64),
}

/// What an attempt to read the rest of a stream finds.
#[derive(Debug)]
pub enum ReadToEnd {
    /// Everything that had not been read yet, up to the end of the stream.
    Complete(Vec<u8>),
    /// The end has not arrived: the reader waits.
    Pending,
    /// The rest of the stream is longer than the reader allows.
    TooLong,
    /// The peer abandoned the stream with this code.
    Reset(u64),
}

/// The bytes of a stream after `data` arrived at `offset`: a byte that was
/// there before is kept, so that a repeated or overlapping frame never
/// changes what the reader gets.
pub open spec fn inserted_bytes(bytes: Seq<u8>, have: Seq<bool>, offset: nat, data: Seq<u8>) -> Seq<
    u8,
> {
    let n = if bytes.len() >= offset + data.len() {
        bytes.len()
    } else {
        offset + data.len()
    };
    Seq::new(
        n,
        |i: int|
            if i < have.len() && have[i] {
                bytes[i]
            } else if offset <= i < offset + data.len() {
                data[i - offset]
            } else if i < bytes.len() {
                bytes[i]
            } else {
                0u8
            },
    )
}

/// The offsets that are there after `n` bytes arrived at `offset`.
pub open spec fn inserted_have(have: Seq<bool>, offset: nat, n: nat) -> Seq<bool> {
    let m = if have.len() >= offset + n {
        have.len()
    } else {
        offset + n
    };
    Seq::new(m, |i: int| (i < have.len() && have[i]) || (offset <= i < offset + n))
}

/// The receiving half as a mathematical value.
pub struct RecvModel {
    /// The byte at each offset below the highest one seen.
    pub bytes: Seq<u8>,
    /// Which of these offsets have arrived.
    pub have: Seq<bool>,
    /// How many bytes the reader has taken.
    pub read: nat,
    /// The length of the stream, once the peer has told it.
    pub final_size: Option<nat>,
    pub state: RecvState,
    /// The code of the peer's reset, meaningful in the two reset states.
    pub reset_code: u64,
    /// The credit of the stream's own scope.
    pub credit: CreditModel,
}

impl RecvModel {
    /// How many bytes from the start of the stream are there without a gap.
    pub open spec fn ready(self) -> nat {
        run_len(self.have, 0)
    }

    pub open spec fn is_reset(self) -> bool {
        self.state == RecvState::ResetRecvd || self.state == RecvState::ResetRead
    }

    pub open spec fn wf(self) -> bool {
        &&& self.bytes.len() == self.have.len()
        &&& self.credit.wf()
        &&& self.read <= self.credit.read <= self.ready()
        &&& !self.is_reset() ==> self.credit.window.consumed == self.bytes.len()
        &&& self.final_size matches Some(f) ==> self.bytes.len() <= f
        &&& match self.state {
            RecvState::Idle => self.bytes.len() == 0 && self.final_size is None,
            RecvState::Recv => self.final_size is None,
            RecvState::SizeKnown => self.final_size matches Some(f) && self.ready() < f,
            RecvState::DataRecvd => self.final_size matches Some(f) && self.ready() == f,
            RecvState::DataRead => self.final_size matches Some(f) && self.read == f,
            RecvState::ResetRecvd => true,
            RecvState::ResetRead => true,
        }
    }

    /// A half on which nothing has happened, with the credit `credit`.
    pub open spec fn fresh(credit: CreditModel) -> RecvModel {
        RecvModel {
            bytes: Seq::empty(),
            have: Seq::empty(),
            read: 0,
            final_size: None,
            state: RecvState::Idle,
            reset_code: 0,
            credit,
        }
    }

    /// Whether a frame contradicts the length of the stream.
    pub open spec fn final_size_violated(self, end: nat, fin: bool) -> bool {
        match self.final_size {
            Some(f) => end > f || (fin && end != f),
            None => fin && end < self.bytes.len(),
        }
    }

    /// The violation that a frame of `len` bytes at `offset` commits, if any.
    /// After a reset frames are dropped unexamined.
    pub open spec fn frame_error(self, offset: nat, len: nat, fin: bool) -> Option<FrameError> {
        if self.is_reset() {
            None
        } else if self.final_size_violated(offset + len, fin) {
            Some(FrameError::FinalSize)
        } else if offset + len > self.credit.window.granted {
            Some(FrameError::FlowControl)
        } else {
            None
        }
    }

    /// By how much a frame moves the highest offset seen: the bytes that
    /// count against the credit of the stream and of the connection.
    pub open spec fn growth(self, offset: nat, len: nat) -> nat {
        if self.is_reset() || offset + len <= self.bytes.len() {
            0
        } else {
            (offset + len - self.bytes.len()) as nat
        }
    }

    /// The half after a frame that commits no violation.
    pub open spec fn on_frame(self, offset: nat, data: Seq<u8>, fin: bool) -> RecvModel {
        if self.is_reset() {
            self
        } else {
            let have = inserted_have(self.have, offset, data.len());
            let final_size = if fin {
                Some(offset + data.len())
            } else {
                self.final_size
            };
            RecvModel {
                bytes: inserted_bytes(self.bytes, self.have, offset, data),
                have,
                read: self.read,
                final_size,
                state: if self.state == RecvState::DataRead {
                    RecvState::DataRead
                } else {
                    match final_size {
                        None => RecvState::Recv,
                        Some(f) => if run_len(have, 0) == f {
                            RecvState::DataRecvd
                        } else {
                            RecvState::SizeKnown
                        },
                    }
                },
                reset_code: self.reset_code,
                credit: self.credit.receive(self.growth(offset, data.len())),
            }
        }
    }

    /// Bytes that a reader can take now.
    pub open spec fn available(self) -> nat {
        if self.is_reset() {
            0
        } else {
            (self.ready() - self.read) as nat
        }
    }

    /// How many bytes a read of at most `max` takes.
    pub open spec fn take_len(self, max: nat) -> nat {
        if max < self.available() {
            max
        } else {
            self.available()
        }
    }

    /// Whether the reader stands at the known end of the stream.
    pub open spec fn at_end(self) -> bool {
        !self.is_reset() && self.final_size == Some(self.read)
    }

    /// The bytes that a read of at most `max` hands out.
    pub open spec fn read_data(self, max: nat) -> Seq<u8> {
        self.bytes.subrange(self.read as int, (self.read + self.take_len(max)) as int)
    }

    /// How much credit becomes free when the bytes below `upto` are taken
    /// out of the window: what of them was not taken out before.
    pub open spec fn fresh_credit(self, upto: nat) -> nat {
        if upto > self.credit.read {
            (upto - self.credit.read) as nat
        } else {
            0
        }
    }

    /// The half after a read of at most `max` bytes.
    pub open spec fn after_read(self, max: nat) -> RecvModel {
        if self.is_reset() {
            RecvModel { state: RecvState::ResetRead, ..self }
        } else {
            let n = self.take_len(max);
            RecvModel {
                read: self.read + n,
                credit: self.credit.release(self.fresh_credit(self.read + n)),
                state: if self.final_size == Some(self.read + n) {
                    RecvState::DataRead
                } else {
                    self.state
                },
                ..self
            }
        }
    }

    /// Whether `r` is what a read of at most `max` bytes finds.
    pub open spec fn read_yields(self, max: nat, r: ReadOutcome) -> bool {
        match r {
            ReadOutcome::Reset(code) => self.is_reset() && code == self.reset_code,
            ReadOutcome::Data(v) => !self.is_reset() && self.available() > 0 && v@
                == self.read_data(max),
            ReadOutcome::Finished => self.available() == 0 && self.at_end(),
            ReadOutcome::Blocked => !self.is_reset() && self.available() == 0 && !self.at_end(),
        }
    }

    /// Whether `r` is what an attempt to read the rest of the stream finds,
    /// when the reader allows `limit` bytes.
    pub open spec fn read_to_end_yields(self, limit: nat, r: ReadToEnd) -> bool {
        match r {
            ReadToEnd::Reset(code) => self.is_reset() && code == self.reset_code,
            ReadToEnd::TooLong => !self.is_reset() && self.rest_known() > limit,
            ReadToEnd::Pending => !self.is_reset() && self.rest_known() <= limit
                && !self.complete(),
            ReadToEnd::Complete(v) => self.rest_known() <= limit && self.complete() && v@
                == self.bytes.subrange(self.read as int, self.ready() as int),
        }
    }

    /// The half after an attempt to read the rest of the stream. While the
    /// end has not arrived, what has arrived is kept for the reader and
    /// taken out of the window, so that the peer can go on sending.
    pub open spec fn after_read_to_end(self, limit: nat) -> RecvModel {
        if self.is_reset() {
            self.after_read(0)
        } else if self.rest_known() > limit {
            self
        } else if self.complete() {
            self.after_read(limit)
        } else {
            RecvModel { credit: self.credit.release(self.fresh_credit(self.ready())), ..self }
        }
    }

    /// How much of the stream is known to lie ahead of the reader.
    pub open spec fn rest_known(self) -> nat {
        match self.final_size {
            Some(f) => (f - self.read) as nat,
            None => (self.bytes.len() - self.read) as nat,
        }
    }

    /// Whether the whole stream has arrived.
    pub open spec fn complete(self) -> bool {
        !self.is_reset() && self.final_size == Some(self.ready())
    }

    /// The half after the peer abandoned the stream, telling `final_size`
    /// as its length: what was buffered is dropped from the reader's view.
    pub open spec fn on_reset(self, code: u64, final_size: nat) -> RecvModel {
        if self.is_reset() || self.state == RecvState::DataRead {
            self
        } else {
            RecvModel {
                state: RecvState::ResetRecvd,
                reset_code: code,
                final_size: Some(final_size),
                credit: self.credit.receive(self.growth(0, final_size)),
                ..self
            }
        }
    }

    /// The violation that a reset telling `final_size` commits, if any.
    pub open spec fn reset_error(self, final_size: nat) -> Option<FrameError> {
        if self.is_reset() || self.state == RecvState::DataRead {
            None
        } else if (self.final_size matches Some(f) && f != final_size) || final_size
            < self.bytes.len() {
            Some(FrameError::FinalSize)
        } else if final_size > self.credit.window.granted {
            Some(FrameError::FlowControl)
        } else {
            None
        }
    }
}

/// Puts `data` at `offset` into the buffers, growing them as needed.
fn insert_bytes(buf: &mut Vec<u8>, have: &mut Vec<bool>, offset: usize, data: &[u8])
    requires
        old(buf)@.len() == old(have)@.len(),
        offset + data@.len() <= usize::MAX,
    ensures
        final(buf)@ == inserted_bytes(old(buf)@, old(have)@, offset as nat, data@),
        final(have)@ == inserted_have(old(have)@, offset as nat, data@.len()),
{
    let ghost buf0 = buf@;
    let ghost have0 = have@;
    let end: usize = offset + data.len();
    while buf.len() < end
        invariant
            buf@.len() == have@.len(),
            buf@.len() >= buf0.len(),
            buf0.len() == have0.len(),
            forall|j: int| 0 <= j < buf0.len() ==> buf@[j] == buf0[j] && have@[j] == have0[j],
            forall|j: int| buf0.len() <= j < buf@.len() ==> buf@[j] == 0u8 && !have@[j],
            buf@.len() <= end || buf@.len() == buf0.len(),
        decreases end - buf@.len(),
    {
        buf.push(0u8);
        have.push(false);
    }
    let mut i: usize = 0;
    while i < data.len()
        invariant
            i <= data@.len(),
            end == offset + data@.len(),
            buf0.len() == have0.len(),
            buf@.len() == have@.len(),
            buf@.len() == (if buf0.len() >= end { buf0.len() } else { end as nat }),
            forall|j: int|
                0 <= j < buf@.len() && !(offset <= j < offset + i) ==> #[trigger] buf@[j] == (if j
                    < buf0.len() {
                    buf0[j]
                } else {
                    0u8
                }),
            forall|j: int|
                0 <= j < buf@.len() && !(offset <= j < offset + i) ==> #[trigger] have@[j] == (j
                    < have0.len() && have0[j]),
            forall|j: int| offset <= j < offset + i ==> #[trigger] have@[j],
            forall|j: int|
                offset <= j < offset + i ==> #[trigger] buf@[j] == (if j < have0.len() && have0[j] {
                    buf0[j]
                } else {
                    data@[j - offset]
                }),
        decreases data@.len() - i,
    {
        let k: usize = offset + i;
        if !have[k] {
            buf.set(k, data[i]);
            have.set(k, true);
        }
        i = i + 1;
    }
    assert(buf@ =~= inserted_bytes(buf0, have0, offset as nat, data@));
    assert(have@ =~= inserted_have(have0, offset as nat, data@.len()));
}

/// Walks to the end of the run that starts at `from`.
fn run_end(have: &Vec<bool>, from: usize) -> (end: usize)
    requires
        from <= have@.len(),
    ensures
        end == from + run_len(have@, from as nat),
        end <= have@.len(),
{
    let mut r: usize = from;
    while r < have.len() && have[r]
        invariant
            from <= r <= have@.len(),
            forall|i: int| from <= i < r ==> have@[i],
        decreases have@.len() - r,
    {
        r = r + 1;
    }
    proof {
        lemma_run_split(have@, from as nat, r as nat);
    }
    r
}

/// Copies the bytes of `buf` from `from` up to `to`.
pub(crate) fn copy_range(buf: &Vec<u8>, from: usize, to: usize) -> (out: Vec<u8>)
    requires
        from <= to <= buf@.len(),
    ensures
        out@ == buf@.subrange(from as int, to as int),
{
    let mut out: Vec<u8> = Vec::new();
    let mut i: usize = from;
    while i < to
        invariant
            from <= i <= to <= buf@.len(),
            out@ == buf@.subrange(from as int, i as int),
        decreases to - i,
    {
        out.push(buf[i]);
        i = i + 1;
    }
    out
}

/// Copies the bytes of a slice.
pub(crate) fn copy_slice(data: &[u8]) -> (out: Vec<u8>)
    ensures
        out@ == data@,
{
    let mut out: Vec<u8> = Vec::new();
    let mut i: usize = 0;
    while i < data.len()
        invariant
            i <= data@.len(),
            out@ == data@.subrange(0, i as int),
        decreases data@.len() - i,
    {
        out.push(data[i]);
        i = i + 1;
    }
    assert(data@.subrange(0, i as int) =~= data@);
    out
}

/// The receiving half of one stream.
pub struct RecvHalf {
    buf: Vec<u8>,
    have: Vec<bool>,
    ready: usize,
    read: usize,
    final_size: Option<u64>,
    state: RecvState,
    reset_code: u64,
    credit: ReceiveCredit,
}

impl View for RecvHalf {
    type V = RecvModel;

    closed spec fn view(&self) -> RecvModel {
        RecvModel {
            bytes: self.buf@,
            have: self.have@,
            read: self.read as nat,
            final_size: match self.final_size {
                Some(f) => Some(f as nat),
                None => None,
            },
            state: self.state,
            reset_code: self.reset_code,
            credit: self.credit@,
        }
    }
}

impl RecvHalf {
    /// The value is valid as a model, and the cached length of the gap-free
    /// prefix is the true one.
    pub closed spec fn wf(&self) -> bool {
        &&& self@.wf()
        &&& self.ready == self@.ready()
    }

    /// Validity of the half implies validity of its model.
    pub proof fn lemma_wf_model(&self)
        requires
            self.wf(),
        ensures
            self@.wf(),
    {
    }

    /// A half on which nothing has happened. It grants the peer `window`
    /// bytes and renews the grant once less than `window / divisor` is left.
    pub fn new(window: u64, divisor: u64) -> (h: RecvHalf)
        ensures
            h.wf(),
            h@ == RecvModel::fresh(h@.credit),
            h@.credit == ReceiveCredit::new_model(window, divisor),
    {
        let h = RecvHalf {
            buf: Vec::new(),
            have: Vec::new(),
            ready: 0,
            read: 0,
            final_size: None,
            state: RecvState::Idle,
            reset_code: 0,
            credit: ReceiveCredit::new(window, divisor),
        };
        assert(h@.bytes =~= Seq::<u8>::empty());
        assert(h@.have =~= Seq::<bool>::empty());
        h
    }

    pub fn state(&self) -> (s: RecvState)
        ensures
            s == self@.state,
    {
        self.state
    }

    /// The highest offset that the peer has used.
    pub fn consumed(&self) -> (c: u64)
        ensures
            c == self@.credit.window.consumed,
    {
        self.credit.consumed()
    }

    /// The credit last granted to the peer for this stream.
    pub fn granted(&self) -> (g: u64)
        ensures
            g == self@.credit.window.granted,
    {
        self.credit.granted()
    }

    /// The violation that a frame would commit, and the bytes by which it
    /// would move the highest offset seen.
    pub fn examine(&self, offset: u64, len: usize, fin: bool) -> (r: Result<u64, FrameError>)
        requires
            self.wf(),
        ensures
            match r {
                Ok(g) => self@.frame_error(offset as nat, len as nat, fin) is None && g
                    == self@.growth(offset as nat, len as nat),
                Err(e) => self@.frame_error(offset as nat, len as nat, fin) == Some(e),
            },
    {
        if self.is_reset() {
            return Ok(0);
        }
        let granted: u64 = self.credit.granted();
        let highest: u64 = self.buf.len() as u64;
        if len as u64 > u64::MAX - offset {
            // The end lies beyond every length and every credit.
            return match self.final_size {
                Some(_) => Err(FrameError::FinalSize),
                None => Err(FrameError::FlowControl),
            };
        }
        let end: u64 = offset + len as u64;
        let violated: bool = match self.final_size {
            Some(f) => end > f || (fin && end != f),
            None => fin && end < highest,
        };
        if violated {
            Err(FrameError::FinalSize)
        } else if end > granted {
            Err(FrameError::FlowControl)
        } else if end > highest {
            Ok(end - highest)
        } else {
            Ok(0)
        }
    }

    fn is_reset(&self) -> (b: bool)
        ensures
            b == self@.is_reset(),
    {
        match self.state {
            RecvState::ResetRecvd => true,
            RecvState::ResetRead => true,
            _ => false,
        }
    }

    /// Takes in one frame of the peer. A frame that violates the protocol is
    /// refused and changes nothing; any other is merged into what is there,
    /// and the result tells how many bytes it counts against the credit.
    pub fn on_frame(&mut self, offset: u64, data: &[u8], fin: bool) -> (r: Result<u64, FrameError>)
        requires
            old(self).wf(),
        ensures
            final(self).wf(),
            match r {
                Ok(g) => old(self)@.frame_error(offset as nat, data@.len(), fin) is None && g
                    == old(self)@.growth(offset as nat, data@.len()) && final(self)@ == old(self)@.on_frame(offset as nat, data@, fin),
                Err(e) => old(self)@.frame_error(offset as nat, data@.len(), fin) == Some(e)
                    && final(self)@ == old(self)@,
            },
    {
        let growth: u64 = match self.examine(offset, data.len(), fin) {
            Ok(g) => g,
            Err(e) => {
                return Err(e);
            },
        };
        if self.is_reset() {
            return Ok(0);
        }
        proof {
            lemma_run_content(self.have@, 0);
        }
        let ghost pre = self@;
        let ghost have0 = self.have@;
        insert_bytes(&mut self.buf, &mut self.have, offset as usize, data);
        let credited = self.credit.receive(growth);
        assert(credited is Ok);
        proof {
            assert forall|i: int| 0 <= i < self.ready implies self.have@[i] by {
                assert(have0[i]);
            }
            lemma_run_split(self.have@, 0, self.ready as nat);
        }
        self.ready = run_end(&self.have, self.ready);
        if fin {
            self.final_size = Some(offset + data.len() as u64);
        }
        match self.state {
            RecvState::DataRead => {},
            _ => {
                self.state = match self.final_size {
                    None => RecvState::Recv,
                    Some(f) => if self.ready as u64 == f {
                        RecvState::DataRecvd
                    } else {
                        RecvState::SizeKnown
                    },
                };
            },
        }
        proof {
            lemma_run_content(self.have@, 0);
            assert(self@.bytes == pre.on_frame(offset as nat, data@, fin).bytes);
            assert(self@ == pre.on_frame(offset as nat, data@, fin));
        }
        Ok(growth)
    }

    /// Takes the bytes below `upto` out of the window.
    fn absorb(&mut self, upto: usize)
        requires
            old(self).credit.wf(),
            upto <= old(self).credit@.window.consumed,
        ensures
            final(self).credit.wf(),
            final(self).credit@ == old(self).credit@.release(old(self)@.fresh_credit(upto as nat)),
            final(self).buf == old(self).buf,
            final(self).have == old(self).have,
            final(self).ready == old(self).ready,
            final(self).read == old(self).read,
            final(self).final_size == old(self).final_size,
            final(self).state == old(self).state,
            final(self).reset_code == old(self).reset_code,
    {
        let done: u64 = self.credit.released();
        if upto as u64 > done {
            self.credit.release(upto as u64 - done);
        } else {
            self.credit.release(0);
        }
    }

    /// How many bytes of the stream have been taken out of the window.
    pub fn released(&self) -> (n: u64)
        ensures
            n == self@.credit.read,
    {
        self.credit.released()
    }

    /// Hands the reader the next bytes of the stream, at most `max` of them.
    pub fn read(&mut self, max: usize) -> (r: ReadOutcome)
        requires
            old(self).wf(),
        ensures
            final(self).wf(),
            final(self)@ == old(self)@.after_read(max as nat),
            old(self)@.read_yields(max as nat, r),
    {
        if self.is_reset() {
            self.state = RecvState::ResetRead;
            return ReadOutcome::Reset(self.reset_code);
        }
        proof {
            lemma_run_content(self.have@, 0);
        }
        let available: usize = self.ready - self.read;
        let n: usize = if max < available { max } else { available };
        let at_end: bool = match self.final_size {
            Some(f) => f == (self.read + n) as u64,
            None => false,
        };
        if available == 0 {
            if at_end {
                self.state = RecvState::DataRead;
                return ReadOutcome::Finished;
            }
            return ReadOutcome::Blocked;
        }
        let out: Vec<u8> = copy_range(&self.buf, self.read, self.read + n);
        self.read = self.read + n;
        self.absorb(self.read);
        if at_end {
            self.state = RecvState::DataRead;
        }
        ReadOutcome::Data(out)
    }

    /// Hands the reader everything up to the end of the stream, once all of
    /// it is there, unless that is more than `limit` bytes.
    pub fn read_to_end(&mut self, limit: usize) -> (r: ReadToEnd)
        requires
            old(self).wf(),
        ensures
            final(self).wf(),
            final(self)@ == old(self)@.after_read_to_end(limit as nat),
            old(self)@.read_to_end_yields(limit as nat, r),
            r is Complete ==> final(self)@.state == RecvState::DataRead,
    {
        if self.is_reset() {
            self.state = RecvState::ResetRead;
            return ReadToEnd::Reset(self.reset_code);
        }
        proof {
            lemma_run_content(self.have@, 0);
        }
        let end: u64 = match self.final_size {
            Some(f) => f,
            None => self.buf.len() as u64,
        };
        if end - self.read as u64 > limit as u64 {
            return ReadToEnd::TooLong;
        }
        let complete: bool = match self.final_size {
            Some(f) => f == self.ready as u64,
            None => false,
        };
        if !complete {
            self.absorb(self.ready);
            return ReadToEnd::Pending;
        }
        let out: Vec<u8> = copy_range(&self.buf, self.read, self.ready);
        self.absorb(self.ready);
        self.read = self.ready;
        self.state = RecvState::DataRead;
        ReadToEnd::Complete(out)
    }

    /// Takes in the peer's notice that it abandoned the stream.
    pub fn on_reset(&mut self, code: u64, final_size: u64) -> (r: Result<u64, FrameError>)
        requires
            old(self).wf(),
        ensures
            final(self).wf(),
            match r {
                Ok(g) => old(self)@.reset_error(final_size as nat) is None && g == (if old(self)@.state == RecvState::DataRead {
                    0
                } else {
                    old(self)@.growth(0, final_size as nat)
                }) && final(self)@ == old(self)@.on_reset(code, final_size as nat),
                Err(e) => old(self)@.reset_error(final_size as nat) == Some(e) && final(self)@
                    == old(self)@,
            },
    {
        if self.is_reset() {
            return Ok(0);
        }
        match self.state {
            RecvState::DataRead => {
                return Ok(0);
            },
            _ => {},
        }
        let highest: u64 = self.buf.len() as u64;
        let contradicts: bool = match self.final_size {
            Some(f) => f != final_size,
            None => false,
        };
        if contradicts || final_size < highest {
            return Err(FrameError::FinalSize);
        }
        if final_size > self.credit.granted() {
            return Err(FrameError::FlowControl);
        }
        let growth: u64 = final_size - highest;
        let credited = self.credit.receive(growth);
        assert(credited is Ok);
        self.state = RecvState::ResetRecvd;
        self.reset_code = code;
        self.final_size = Some(final_size);
        Ok(growth)
    }

    /// The new credit to announce to the peer, when an update is due.
    pub fn take_update(&mut self) -> (r: Option<u64>)
        requires
            old(self).wf(),
        ensures
            final(self).wf(),
            r is Some <==> !old(self)@.is_reset() && old(self)@.final_size is None && old(self)@.credit.update_due(),
            r is Some ==> final(self)@ == (RecvModel {
                credit: old(self)@.credit.grant(),
                ..old(self)@
            }) && r->0 == final(self)@.credit.window.granted && r->0 > old(self)@.credit.window.granted,
            r is None ==> final(self)@ == old(self)@,
    {
        if self.is_reset() || self.final_size.is_some() {
            return None;
        }
        self.credit.take_update()
    }
}

} // verus!
