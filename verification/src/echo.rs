//! An echo service and its client, as state machines over a connection:
//! the service writes back on a stream whatever it reads from it, the client
//! sends streams of seeded bytes and checks what comes back.

use vstd::prelude::*;
use bytes::Bytes;
use rand::rngs::StdRng;
use rand::{RngCore, SeedableRng};
use crate::chunks::{concat, empty_chunks, read_chunks, write_chunks, ChunksRead};
use crate::config::{ConfigError, TransportConfig};
use crate::connection::Connection;
use crate::endpoint::Address;
use crate::error::{ConnectionError, StreamError};
use crate::recv::ReadOutcome;
use crate::send::{begins, SendState};
use crate::send::Written;
use crate::stream_id::{Dir, StreamId};
use crate::streams::Opened;

verus! {

/// The bytes that the seeded generator gives for a buffer of `size` bytes.
pub uninterp spec fn seeded_bytes(size: nat, seed: u64) -> Seq<u8>;

/// Calls `StdRng::seed_from_u64` and then `RngCore::fill_bytes` on the
/// generator that it gives: every byte of the buffer is overwritten with
/// the output of the generator, which depends on the seed and on the length
/// of the buffer alone.
#[verifier::external_body]
fn fill_seeded(buf: &mut Vec<u8>, seed: u64)
    ensures
        final(buf)@ == seeded_bytes(old(buf)@.len(), seed),
        final(buf)@.len() == old(buf)@.len(),
{
    let mut rng: StdRng = SeedableRng::seed_from_u64(seed);
    rng.fill_bytes(buf);
}

/// `size` bytes of data that the seed `seed` determines.
pub fn gen_data(size: usize, seed: u64) -> (data: Vec<u8>)
    ensures
        data@ == seeded_bytes(size as nat, seed),
        data@.len() == size,
{
    let mut buf: Vec<u8> = Vec::new();
    let mut i: usize = 0;
    while i < size
        invariant
            i <= size,
            buf@.len() == i,
        decreases size - i,
    {
        buf.push(0u8);
        i = i + 1;
    }
    fill_seeded(&mut buf, seed);
    buf
}

/// Whether two runs of bytes are the same.
pub fn same_bytes(a: &[u8], b: &[u8]) -> (same: bool)
    ensures
        same == (a@ == b@),
{
    if a.len() != b.len() {
        return false;
    }
    let mut i: usize = 0;
    while i < a.len()
        invariant
            i <= a@.len(),
            a@.len() == b@.len(),
            forall|j: int| 0 <= j < i ==> a@[j] == b@[j],
        decreases a@.len() - i,
    {
        if a[i] != b[i] {
            return false;
        }
        i = i + 1;
    }
    assert(a@ =~= b@);
    true
}

/// What one run of the echo exchange is made of.
#[derive(Clone, Copy, Debug, PartialEq, Eq, Structural)]
pub struct EchoArgs {
    pub client_addr: Address,
    pub server_addr: Address,
    /// How many streams the client sends, one after the other.
    pub nr_streams: usize,
    /// How many bytes each stream carries.
    pub stream_size: usize,
    /// The window of the connection, where it is not the usual one.
    pub receive_window: Option<u64>,
    /// The window of each stream, where it is not the usual one.
    pub stream_receive_window: Option<u64>,
}

/// The seed of the data that the client sends.
pub const SEED: u64 = 305419896;

/// How many chunks the service reads at a time.
pub const ECHO_CHUNKS: usize = 32;

impl EchoArgs {
    /// The configuration of both sides of the exchange: the windows of the
    /// arguments, and one stream of each direction at a time.
    pub open spec fn spec_transport(&self) -> TransportConfig {
        TransportConfig {
            receive_window: match self.receive_window {
                Some(w) => w,
                None => TransportConfig::standard().receive_window,
            },
            stream_receive_window: match self.stream_receive_window {
                Some(w) => w,
                None => TransportConfig::standard().stream_receive_window,
            },
            max_concurrent_bidi_streams: 1,
            max_concurrent_uni_streams: 1,
            ..TransportConfig::standard()
        }
    }

    /// The configuration of the exchange, unless a window of the arguments
    /// is beyond what the protocol can express.
    pub fn transport(&self) -> (r: Result<TransportConfig, ConfigError>)
        ensures
            match r {
                Ok(c) => c == self.spec_transport() && c.valid(),
                Err(e) => self.spec_transport().spec_check() == Some(e),
            },
    {
        let mut config = TransportConfig::default();
        match self.receive_window {
            Some(w) => {
                config.receive_window = w;
            },
            None => {},
        }
        match self.stream_receive_window {
            Some(w) => {
                config.stream_receive_window = w;
            },
            None => {},
        }
        config.max_concurrent_bidi_streams = 1;
        config.max_concurrent_uni_streams = 1;
        match config.check() {
            Some(e) => Err(e),
            None => Ok(config),
        }
    }
}

/// What a step of one of the state machines achieved.
#[derive(Clone, Copy, Debug, PartialEq, Eq, Structural)]
pub enum Progress {
    /// Something was done: the next step can follow at once.
    Again,
    /// Nothing can be done until the connection has made progress.
    Wait,
    /// The work is finished, or has failed.
    Done,
}

/// Where the echo of one stream stands.
#[derive(Clone, Copy, Debug, PartialEq, Eq, Structural)]
pub enum EchoPhase {
    /// The next chunks are to be read.
    Reading,
    /// Chunks that were read are being written back.
    Writing,
    /// The stream has been read to its end and is to be finished.
    Finishing,
    /// The echo is over: all that was read was written back, and the
    /// finish was tried.
    Done,
    /// The echo has failed.
    Failed,
}

/// Why an echo failed.
#[derive(Clone, Copy, Debug, PartialEq, Eq, Structural)]
pub enum EchoFailure {
    /// A read failed.
    Read(StreamError),
    /// The peer abandoned the stream with this code.
    Reset(u64),
    /// A write failed.
    Write(StreamError),
}

/// The echo of one stream: whatever is read from the stream is written
/// back on it.
pub struct Echo {
    id: StreamId,
    bufs: Vec<Bytes>,
    /// How many chunks hold bytes that are to be written back.
    filled: usize,
    /// How many of these bytes have been written back.
    skip: usize,
    phase: EchoPhase,
    wrote: bool,
    failure: Option<EchoFailure>,
}

/// The echo as a mathematical value.
pub struct EchoModel {
    pub id: StreamId,
    pub phase: EchoPhase,
    /// The bytes that were read and are not written back yet.
    pub pending: Seq<u8>,
    /// Whether a write was made on the stream: only a stream that is being
    /// written can be finished.
    pub wrote: bool,
    pub failure: Option<EchoFailure>,
}

/// What the connection answers to one step of an echo.
pub enum EchoMove {
    Read(Result<ReadOutcome, StreamError>),
    Write(Result<Written, StreamError>),
    Finish(Result<(), StreamError>),
}

impl EchoModel {
    /// The echo of the stream `id`, with nothing read yet.
    pub open spec fn fresh(id: StreamId) -> EchoModel {
        EchoModel { id, phase: EchoPhase::Reading, pending: Seq::empty(), wrote: false, failure: None }
    }

    /// The echo that has failed for the reason `why`.
    pub open spec fn failed(self, why: EchoFailure) -> EchoModel {
        EchoModel { phase: EchoPhase::Failed, pending: Seq::empty(), failure: Some(why), ..self }
    }

    /// The echo after its read found `r`: chunks that arrive are taken to
    /// be written back, the end of the stream leads to the finish, and a
    /// stream that the peer abandoned or a read that fails makes the echo
    /// fail.
    pub open spec fn after_read(self, r: Result<ReadOutcome, StreamError>) -> EchoModel {
        match r {
            Ok(ReadOutcome::Data(v)) => if v@.len() > 0 {
                EchoModel { phase: EchoPhase::Writing, pending: v@, ..self }
            } else {
                self
            },
            Ok(ReadOutcome::Blocked) => self,
            Ok(ReadOutcome::Finished) => EchoModel { phase: EchoPhase::Finishing, ..self },
            Ok(ReadOutcome::Reset(code)) => self.failed(EchoFailure::Reset(code)),
            Err(e) => self.failed(EchoFailure::Read(e)),
        }
    }

    /// The bytes of what is pending that a write which accepted `n` took.
    pub open spec fn taken(self, n: nat) -> Seq<u8> {
        if n >= self.pending.len() {
            self.pending
        } else {
            self.pending.subrange(0, n as int)
        }
    }

    /// The echo after its write gave `r`: what the stream accepted is
    /// written, the rest stays pending, and when nothing is pending reading
    /// goes on. A write that fails makes the echo fail.
    pub open spec fn after_write(self, r: Result<Written, StreamError>) -> EchoModel {
        match r {
            Ok(Written::Accepted(n)) => if n >= self.pending.len() {
                EchoModel { phase: EchoPhase::Reading, pending: Seq::empty(), wrote: true, ..self }
            } else {
                EchoModel {
                    pending: self.pending.subrange(n as int, self.pending.len() as int),
                    wrote: true,
                    ..self
                }
            },
            Ok(Written::Blocked) => self,
            Err(e) => self.failed(EchoFailure::Write(e)),
        }
    }

    /// The echo after the write of no bytes that opens a stream for the
    /// finish gave `r`.
    pub open spec fn after_opening_write(self, r: Result<Written, StreamError>) -> EchoModel {
        match r {
            Ok(Written::Accepted(n)) => EchoModel { wrote: true, ..self },
            Ok(Written::Blocked) => self,
            Err(e) => self.failed(EchoFailure::Write(e)),
        }
    }

    /// The echo after the connection answered `mv` to its step. An answer
    /// that does not fit the step changes nothing.
    pub open spec fn after(self, mv: EchoMove) -> EchoModel {
        match (self.phase, mv) {
            (EchoPhase::Reading, EchoMove::Read(r)) => self.after_read(r),
            (EchoPhase::Writing, EchoMove::Write(r)) => self.after_write(r),
            (EchoPhase::Finishing, EchoMove::Write(r)) => if self.wrote {
                self
            } else {
                self.after_opening_write(r)
            },
            (EchoPhase::Finishing, EchoMove::Finish(r)) => if self.wrote {
                EchoModel { phase: EchoPhase::Done, ..self }
            } else {
                self
            },
            _ => self,
        }
    }

    /// What the step achieved: the echo goes on at once when it has changed
    /// and has not come to an end, waits when nothing changed, and is done
    /// when it is over or has failed.
    pub open spec fn progress(self, mv: EchoMove) -> Progress {
        let after = self.after(mv);
        if after.phase == EchoPhase::Done || after.phase == EchoPhase::Failed {
            Progress::Done
        } else if after == self || (mv matches EchoMove::Write(Ok(Written::Accepted(n))) && n == 0
            && self.phase == EchoPhase::Writing) {
            Progress::Wait
        } else {
            Progress::Again
        }
    }

    /// The bytes that the step read from the stream.
    pub open spec fn read_by(self, mv: EchoMove) -> Seq<u8> {
        match (self.phase, mv) {
            (EchoPhase::Reading, EchoMove::Read(Ok(ReadOutcome::Data(v)))) => v@,
            _ => Seq::empty(),
        }
    }

    /// The bytes that the step wrote back on the stream.
    pub open spec fn written_by(self, mv: EchoMove) -> Seq<u8> {
        match (self.phase, mv) {
            (EchoPhase::Writing, EchoMove::Write(Ok(Written::Accepted(n)))) => self.taken(n as nat),
            _ => Seq::empty(),
        }
    }

    /// Whether the step finished the stream.
    pub open spec fn finished_by(self, mv: EchoMove) -> bool {
        self.phase == EchoPhase::Finishing && self.wrote && mv is Finish
    }
}

/// What a whole run of an echo comes to.
pub struct EchoSum {
    /// The echo after the run.
    pub echo: EchoModel,
    /// All bytes that were read, in order.
    pub read: Seq<u8>,
    /// All bytes that were written back, in order.
    pub written: Seq<u8>,
    /// How often the stream was finished.
    pub finishes: nat,
}

/// A run of an echo: the answers of the connection, one for each step.
pub open spec fn echo_run(start: EchoModel, moves: Seq<EchoMove>) -> EchoSum
    decreases moves.len(),
{
    if moves.len() == 0 {
        EchoSum { echo: start, read: Seq::empty(), written: Seq::empty(), finishes: 0 }
    } else {
        let before = echo_run(start, moves.drop_last());
        let mv = moves.last();
        EchoSum {
            echo: before.echo.after(mv),
            read: before.read + before.echo.read_by(mv),
            written: before.written + before.echo.written_by(mv),
            finishes: before.finishes + if before.echo.finished_by(mv) {
                1nat
            } else {
                0nat
            },
        }
    }
}

/// Over a whole run, whatever the connection answers: what the echo has
/// written back, followed by what is pending, is what it has read, byte
/// for byte and in order. What it has written back is always a beginning
/// of what it has read. An echo that is done has written back all that it
/// read and has finished the stream exactly once, after a write.
pub proof fn lemma_echo_run(id: StreamId, moves: Seq<EchoMove>)
    ensures
        ({
            let sum = echo_run(EchoModel::fresh(id), moves);
            &&& sum.echo.failure is None ==> sum.written + sum.echo.pending == sum.read
            &&& begins(sum.read, sum.written)
            &&& sum.echo.phase != EchoPhase::Writing ==> sum.echo.pending.len() == 0
            &&& sum.echo.failure is Some <==> sum.echo.phase == EchoPhase::Failed
            &&& sum.finishes <= 1
            &&& sum.finishes == 1 <==> sum.echo.phase == EchoPhase::Done
            &&& sum.echo.phase == EchoPhase::Done ==> sum.written == sum.read && sum.echo.wrote
            &&& sum.echo.id == id
        }),
    decreases moves.len(),
{
    let start = EchoModel::fresh(id);
    let sum = echo_run(start, moves);
    if moves.len() == 0 {
        assert(sum.written + sum.echo.pending =~= sum.read);
        assert(sum.read.subrange(0, sum.written.len() as int) =~= sum.written);
    } else {
        lemma_echo_run(id, moves.drop_last());
        let before = echo_run(start, moves.drop_last());
        let mv = moves.last();
        let m = before.echo;
        assert(before.read.subrange(0, before.written.len() as int) == before.written);
        if m.failure is None {
            assert(before.written + m.pending == before.read);
            if sum.echo.failure is None {
                assert(sum.written + sum.echo.pending =~= sum.read) by {
                    match (m.phase, mv) {
                        (EchoPhase::Writing, EchoMove::Write(Ok(Written::Accepted(n)))) => {
                            assert(m.taken(n as nat) + sum.echo.pending =~= m.pending);
                            assert(sum.written + sum.echo.pending =~= before.written + (m.taken(
                                n as nat,
                            ) + sum.echo.pending));
                        },
                        (EchoPhase::Reading, EchoMove::Read(Ok(ReadOutcome::Data(v)))) => {
                            assert(m.pending.len() == 0);
                            assert(before.written =~= before.read);
                        },
                        _ => {
                            assert(m.read_by(mv) =~= Seq::<u8>::empty());
                            assert(m.written_by(mv) =~= Seq::<u8>::empty());
                        },
                    }
                }
            }
            assert(sum.read.subrange(0, sum.written.len() as int) =~= sum.written) by {
                match (m.phase, mv) {
                    (EchoPhase::Writing, EchoMove::Write(Ok(Written::Accepted(n)))) => {
                        assert(m.taken(n as nat) =~= m.pending.subrange(
                            0,
                            m.taken(n as nat).len() as int,
                        ));
                        assert(before.read =~= before.written + m.pending);
                    },
                    _ => {
                        assert(m.written_by(mv) =~= Seq::<u8>::empty());
                    },
                }
            }
        } else {
            assert(m.phase == EchoPhase::Failed);
            assert(sum.echo == m);
            assert(m.read_by(mv) =~= Seq::<u8>::empty());
            assert(m.written_by(mv) =~= Seq::<u8>::empty());
            assert(sum.read =~= before.read);
            assert(sum.written =~= before.written);
        }
        if sum.echo.phase == EchoPhase::Done {
            assert(sum.written + sum.echo.pending =~= sum.written);
        }
    }
}

/// What an echo writes back does not depend on how the reads were cut: two
/// runs that have read the same bytes in all, in whatever pieces, and are
/// done have written back the same bytes, and each has finished the stream
/// once.
pub proof fn lemma_echo_whatever_the_cut(id: StreamId, one: Seq<EchoMove>, other: Seq<EchoMove>)
    requires
        echo_run(EchoModel::fresh(id), one).read == echo_run(EchoModel::fresh(id), other).read,
        echo_run(EchoModel::fresh(id), one).echo.phase == EchoPhase::Done,
        echo_run(EchoModel::fresh(id), other).echo.phase == EchoPhase::Done,
    ensures
        echo_run(EchoModel::fresh(id), one).written == echo_run(EchoModel::fresh(id), other).written,
        echo_run(EchoModel::fresh(id), one).written == echo_run(EchoModel::fresh(id), one).read,
        echo_run(EchoModel::fresh(id), one).finishes == 1,
        echo_run(EchoModel::fresh(id), other).finishes == 1,
{
    lemma_echo_run(id, one);
    lemma_echo_run(id, other);
}

/// A stream on which a write was accepted can be finished, be it a write
/// of no bytes: on a connection that lives, the finish that follows the
/// write succeeds and leaves the sending half finished.
pub proof fn lemma_finish_after_write(
    first: Connection,
    id: StreamId,
    data: Seq<u8>,
    n: usize,
    second: Connection,
    r: Result<(), StreamError>,
    third: Connection,
)
    requires
        first.wf(),
        Connection::writes(first, id, data, Ok(Written::Accepted(n)), second),
        Connection::finishes(second, id, r, third),
    ensures
        r is Ok,
        third@.streams.slot(id).send.state == SendState::DataSent,
{
    first.lemma_wf_model();
    let t = first@.streams;
    assert(t.has_send(id));
    assert(t.slots[id.0 as int].wf());
}

impl View for Echo {
    type V = EchoModel;

    closed spec fn view(&self) -> EchoModel {
        EchoModel {
            id: self.id,
            phase: self.phase,
            pending: if self.phase == EchoPhase::Writing {
                concat(self.bufs@, self.filled as nat).subrange(
                    self.skip as int,
                    concat(self.bufs@, self.filled as nat).len() as int,
                )
            } else {
                Seq::empty()
            },
            wrote: self.wrote,
            failure: self.failure,
        }
    }
}

impl Echo {
    pub closed spec fn wf(&self) -> bool {
        &&& self.filled <= self.bufs@.len()
        &&& self.phase == EchoPhase::Writing ==> self.skip < concat(
            self.bufs@,
            self.filled as nat,
        ).len()
        &&& self.failure is Some <==> self.phase == EchoPhase::Failed
    }

    /// How many chunks the echo reads at a time.
    pub closed spec fn room(&self) -> nat {
        self.bufs@.len()
    }

    /// The echo of the stream `id`, with nothing read yet.
    pub fn new(id: StreamId) -> (e: Echo)
        ensures
            e.wf(),
            e@ == EchoModel::fresh(id),
            e.room() == ECHO_CHUNKS,
    {
        Echo {
            id,
            bufs: empty_chunks(ECHO_CHUNKS),
            filled: 0,
            skip: 0,
            phase: EchoPhase::Reading,
            wrote: false,
            failure: None,
        }
    }

    pub fn phase(&self) -> (p: EchoPhase)
        ensures
            p == self@.phase,
    {
        self.phase
    }

    /// Why the echo failed, if it did.
    pub fn failure(&self) -> (f: Option<EchoFailure>)
        requires
            self.wf(),
        ensures
            f == self@.failure,
            f is Some <==> self@.phase == EchoPhase::Failed,
    {
        self.failure
    }

    /// Whether `mv` is what the connection answers to the step of the echo,
    /// and `after` the connection afterwards. The step is one operation on
    /// the connection: a read by chunks while the echo reads, a write of
    /// what is pending while it writes back, and at the end the finish,
    /// before which a write of no bytes opens a stream on which nothing
    /// was written. An echo that is over or has failed leaves the
    /// connection alone.
    pub open spec fn answered(&self, before: Connection, mv: EchoMove, after: Connection) -> bool {
        match self@.phase {
            EchoPhase::Reading => mv matches EchoMove::Read(r) && Connection::reads(
                before,
                self@.id,
                crate::chunks::chunk_room(self.room()),
                r,
                after,
            ),
            EchoPhase::Writing => mv matches EchoMove::Write(r) && Connection::writes(
                before,
                self@.id,
                self@.pending,
                r,
                after,
            ),
            EchoPhase::Finishing => if self@.wrote {
                mv matches EchoMove::Finish(r) && Connection::finishes(before, self@.id, r, after)
            } else {
                mv matches EchoMove::Write(r) && Connection::writes(
                    before,
                    self@.id,
                    Seq::empty(),
                    r,
                    after,
                )
            },
            _ => after@ == before@,
        }
    }

    fn fail(&mut self, why: EchoFailure)
        requires
            old(self).filled <= old(self).bufs@.len(),
        ensures
            final(self).wf(),
            final(self)@ == old(self)@.failed(why),
            final(self).room() == old(self).room(),
    {
        self.phase = EchoPhase::Failed;
        self.failure = Some(why);
    }

    /// Reads the next chunks.
    fn read_step(&mut self, conn: &mut Connection) -> (p: Progress)
        requires
            old(self).wf(),
            old(conn).wf(),
            old(self)@.phase == EchoPhase::Reading,
        ensures
            final(self).wf(),
            final(conn).wf(),
            final(self).room() == old(self).room(),
            exists|mv: EchoMove|
                old(self).answered(*old(conn), mv, *final(conn)) && final(self)@ == old(self)@.after(
                    mv,
                ) && p == old(self)@.progress(mv),
    {
        let ghost before = self.bufs@;
        let r = read_chunks(conn, self.id, &mut self.bufs);
        let ghost found = choose|found: Result<ReadOutcome, StreamError>|
            crate::chunks::chunks_say(found, r, before, self.bufs@) && Connection::reads(
                *old(conn),
                self.id,
                crate::chunks::chunk_room(before.len()),
                found,
                *conn,
            );
        let p = match r {
            Ok(ChunksRead::Filled(n)) => {
                if n == 0 {
                    proof {
                        assert(concat(self.bufs@, 0) =~= Seq::<u8>::empty());
                    }
                    Progress::Wait
                } else {
                    self.filled = n;
                    self.skip = 0;
                    self.phase = EchoPhase::Writing;
                    proof {
                        let all = concat(self.bufs@, n as nat);
                        assert(all.len() > 0) by {
                            if all.len() == 0 {
                                assert(crate::chunks::chunks_for(0) == 0);
                            }
                        }
                        assert(all.subrange(0, all.len() as int) =~= all);
                    }
                    Progress::Again
                }
            },
            Ok(ChunksRead::Blocked) => Progress::Wait,
            Ok(ChunksRead::Finished) => {
                self.phase = EchoPhase::Finishing;
                Progress::Again
            },
            Ok(ChunksRead::Reset(code)) => {
                self.fail(EchoFailure::Reset(code));
                Progress::Done
            },
            Err(e) => {
                self.fail(EchoFailure::Read(e));
                Progress::Done
            },
        };
        proof {
            let mv = EchoMove::Read(found);
            assert(old(self).answered(*old(conn), mv, *conn));
            assert(self@ == old(self)@.after(mv));
            assert(p == old(self)@.progress(mv));
        }
        p
    }

    /// Writes back what is pending.
    fn write_step(&mut self, conn: &mut Connection) -> (p: Progress)
        requires
            old(self).wf(),
            old(conn).wf(),
            old(self)@.phase == EchoPhase::Writing,
        ensures
            final(self).wf(),
            final(conn).wf(),
            final(self).room() == old(self).room(),
            exists|mv: EchoMove|
                old(self).answered(*old(conn), mv, *final(conn)) && final(self)@ == old(self)@.after(
                    mv,
                ) && p == old(self)@.progress(mv),
    {
        let ghost pending = old(self)@.pending;
        assert(pending == crate::chunks::unwritten(
            self.bufs@,
            self.filled as nat,
            self.skip as nat,
        ));
        let r = write_chunks(conn, self.id, &self.bufs, self.filled, self.skip);
        proof {
            old(conn).lemma_write_bounds(self.id, pending, r, *conn);
        }
        let p = match r {
            Ok(Written::Accepted(n)) => {
                let total: usize = match crate::chunks::total_len(&self.bufs, self.filled) {
                    Some(t) => t,
                    None => usize::MAX,
                };
                self.wrote = true;
                if n >= total - self.skip {
                    self.phase = EchoPhase::Reading;
                    self.filled = 0;
                    self.skip = 0;
                    Progress::Again
                } else {
                    self.skip = self.skip + n;
                    assert(self@.pending =~= pending.subrange(n as int, pending.len() as int));
                    if n > 0 {
                        Progress::Again
                    } else {
                        Progress::Wait
                    }
                }
            },
            Ok(Written::Blocked) => Progress::Wait,
            Err(e) => {
                self.fail(EchoFailure::Write(e));
                Progress::Done
            },
        };
        proof {
            let mv = EchoMove::Write(r);
            assert(old(self).answered(*old(conn), mv, *conn));
            assert(self@ == old(self)@.after(mv));
            assert(p == old(self)@.progress(mv));
        }
        p
    }

    /// Finishes the stream, after a write of no bytes where nothing was
    /// written on it.
    fn finish_step(&mut self, conn: &mut Connection) -> (p: Progress)
        requires
            old(self).wf(),
            old(conn).wf(),
            old(self)@.phase == EchoPhase::Finishing,
        ensures
            final(self).wf(),
            final(conn).wf(),
            final(self).room() == old(self).room(),
            exists|mv: EchoMove|
                old(self).answered(*old(conn), mv, *final(conn)) && final(self)@ == old(self)@.after(
                    mv,
                ) && p == old(self)@.progress(mv),
    {
        if self.wrote {
            let r = conn.finish(self.id);
            self.phase = EchoPhase::Done;
            proof {
                let mv = EchoMove::Finish(r);
                assert(old(self).answered(*old(conn), mv, *conn));
                assert(self@ == old(self)@.after(mv));
            }
            Progress::Done
        } else {
            let nothing: Vec<u8> = Vec::new();
            let r = conn.write(self.id, nothing.as_slice());
            let p = match r {
                Ok(Written::Accepted(n)) => {
                    self.wrote = true;
                    Progress::Again
                },
                Ok(Written::Blocked) => Progress::Wait,
                Err(e) => {
                    self.fail(EchoFailure::Write(e));
                    Progress::Done
                },
            };
            proof {
                let mv = EchoMove::Write(r);
                assert(nothing@ =~= Seq::<u8>::empty());
                assert(old(self).answered(*old(conn), mv, *conn));
                assert(self@ == old(self)@.after(mv));
                assert(p == old(self)@.progress(mv));
            }
            p
        }
    }

    /// Takes the echo one step further on the connection `conn`: one
    /// operation on the connection, and what follows from its answer.
    pub fn step(&mut self, conn: &mut Connection) -> (p: Progress)
        requires
            old(self).wf(),
            old(conn).wf(),
        ensures
            final(self).wf(),
            final(conn).wf(),
            final(self).room() == old(self).room(),
            exists|mv: EchoMove|
                old(self).answered(*old(conn), mv, *final(conn)) && final(self)@ == old(self)@.after(
                    mv,
                ) && p == old(self)@.progress(mv),
    {
        match self.phase {
            EchoPhase::Reading => self.read_step(conn),
            EchoPhase::Writing => self.write_step(conn),
            EchoPhase::Finishing => self.finish_step(conn),
            _ => {
                proof {
                    let mv = EchoMove::Finish(Ok(()));
                    assert(old(self).answered(*old(conn), mv, *conn));
                    assert(self@ == old(self)@.after(mv));
                }
                Progress::Done
            },
        }
    }
}

/// Where the client of the exchange stands.
#[derive(Clone, Copy, Debug, PartialEq, Eq, Structural)]
pub enum ClientPhase {
    /// The next stream is to be opened.
    Opening,
    /// It is the turn of the writing: the next bytes of the stream are to be
    /// written, or the stream is to be finished.
    Writing,
    /// It is the turn of the reading: the next bytes of the echo are to be
    /// read.
    Reading,
    /// The echo has come to its end: the stream counts once the peer has
    /// acknowledged all that was sent on it.
    Settling,
    /// All streams have come back: the connection is to be closed.
    Closing,
    /// The exchange is over and every echo was the same as what was sent.
    Done,
    /// The exchange has failed.
    Failed,
}

/// Why the exchange failed.
#[derive(Clone, Copy, Debug, PartialEq, Eq, Structural)]
pub enum ClientFailure {
    /// The connection ended.
    Connection(ConnectionError),
    /// An operation on the stream failed.
    Stream(StreamError),
    /// The server abandoned the stream with this code.
    Reset(u64),
    /// The stream that the client sent was abandoned before the server had
    /// acknowledged all of it.
    Abandoned,
    /// What came back is not what was sent.
    Mismatch,
}

/// The client of the exchange as a mathematical value.
pub struct ClientModel {
    pub nr_streams: nat,
    pub stream_size: nat,
    /// How many streams have come back as they were sent.
    pub done: nat,
    pub phase: ClientPhase,
    /// The stream that is under way.
    pub id: StreamId,
    /// What is sent on it.
    pub msg: Seq<u8>,
    /// How much of it has been written.
    pub written: nat,
    /// Whether a write was made on the stream: only a stream that is being
    /// written can be finished.
    pub wrote: bool,
    pub finished: bool,
    /// What has come back so far.
    pub data: Seq<u8>,
    pub failure: Option<ClientFailure>,
}

/// The reason with which the client closes the connection.
pub open spec fn farewell() -> Seq<u8> {
    seq![100u8, 111u8, 110u8, 101u8]
}

impl ClientModel {
    /// Whether a stream is under way.
    pub open spec fn busy(self) -> bool {
        self.phase == ClientPhase::Writing || self.phase == ClientPhase::Reading || self.phase
            == ClientPhase::Settling
    }

    pub open spec fn wf(self) -> bool {
        &&& self.done <= self.nr_streams
        &&& self.busy() ==> self.msg == seeded_bytes(self.stream_size, SEED) && self.written
            <= self.msg.len() && self.done < self.nr_streams
        &&& self.finished ==> self.wrote
        &&& self.phase == ClientPhase::Failed <==> self.failure is Some
    }

    /// The client that has failed for the reason `why`.
    pub open spec fn failed(self, why: ClientFailure) -> ClientModel {
        ClientModel { phase: ClientPhase::Failed, failure: Some(why), ..self }
    }

    /// Whether the client goes from `self` to `after` with the progress `p`
    /// when the opening of a stream gives `r`.
    pub open spec fn open_outcome(self, r: Result<Opened, ConnectionError>, p: Progress, after: ClientModel) -> bool {
        match r {
            Ok(Opened::Stream(id)) => p == Progress::Again && after == (ClientModel {
                phase: ClientPhase::Writing,
                id,
                msg: seeded_bytes(self.stream_size, SEED),
                written: 0,
                wrote: false,
                finished: false,
                data: Seq::empty(),
                ..self
            }),
            Ok(Opened::Blocked) => p == Progress::Wait && after == self,
            Err(e) => p == Progress::Done && after == self.failed(ClientFailure::Connection(e)),
        }
    }

    /// What of the stream is still to be written.
    pub open spec fn unwritten(self) -> Seq<u8> {
        self.msg.subrange(self.written as int, self.msg.len() as int)
    }

    /// Whether the client goes from `self` to `after` when a write gives
    /// `r`. Whatever was accepted, the reading has its turn next.
    pub open spec fn write_outcome(self, r: Result<Written, StreamError>, p: Progress, after: ClientModel) -> bool {
        match r {
            Ok(Written::Accepted(n)) => p == Progress::Again && after == (ClientModel {
                phase: ClientPhase::Reading,
                written: self.written + n as nat,
                wrote: true,
                ..self
            }),
            Ok(Written::Blocked) => p == Progress::Again && after == (ClientModel {
                phase: ClientPhase::Reading,
                ..self
            }),
            Err(e) => p == Progress::Done && after == self.failed(ClientFailure::Stream(e)),
        }
    }

    /// Whether the client goes from `self` to `after` when the finish of
    /// the stream gives `r`.
    pub open spec fn finish_outcome(self, r: Result<(), StreamError>, p: Progress, after: ClientModel) -> bool {
        match r {
            Ok(()) => p == Progress::Again && after == (ClientModel {
                phase: ClientPhase::Reading,
                finished: true,
                ..self
            }),
            Err(e) => p == Progress::Done && after == self.failed(ClientFailure::Stream(e)),
        }
    }

    /// The client after a stream has come back as it was sent.
    pub open spec fn completed(self) -> ClientModel {
        ClientModel {
            done: self.done + 1,
            phase: if self.done + 1 == self.nr_streams {
                ClientPhase::Closing
            } else {
                ClientPhase::Opening
            },
            ..self
        }
    }

    /// Whether the client goes from `self` to `after` when a read gives `r`.
    /// The end of the echo leads to the settling.
    pub open spec fn read_outcome(self, r: Result<ReadOutcome, StreamError>, p: Progress, after: ClientModel) -> bool {
        match r {
            Ok(ReadOutcome::Data(v)) => p == Progress::Again && after == (ClientModel {
                phase: ClientPhase::Writing,
                data: self.data + v@,
                ..self
            }),
            Ok(ReadOutcome::Blocked) => p == Progress::Wait && after == (ClientModel {
                phase: ClientPhase::Writing,
                ..self
            }),
            Ok(ReadOutcome::Finished) => p == Progress::Again && after == (ClientModel {
                phase: ClientPhase::Settling,
                ..self
            }),
            Ok(ReadOutcome::Reset(code)) => p == Progress::Done && after == self.failed(
                ClientFailure::Reset(code),
            ),
            Err(e) => p == Progress::Done && after == self.failed(ClientFailure::Stream(e)),
        }
    }

    /// Whether the turn of the writing takes the client from `self` to
    /// `after` and the connection from `before` to `conn`: a write of what
    /// is left while bytes are left or no write was made yet, then the
    /// finish, then nothing.
    pub open spec fn writes(self, before: Connection, p: Progress, after: ClientModel, conn: Connection) -> bool {
        if self.written < self.msg.len() || !self.wrote {
            exists|r: Result<Written, StreamError>|
                Connection::writes(before, self.id, self.unwritten(), r, conn)
                    && self.write_outcome(r, p, after)
        } else if !self.finished {
            exists|r: Result<(), StreamError>|
                Connection::finishes(before, self.id, r, conn) && self.finish_outcome(r, p, after)
        } else {
            p == Progress::Again && conn@ == before@ && after == (ClientModel {
                phase: ClientPhase::Reading,
                ..self
            })
        }
    }

    /// Whether the settling takes the client from `self` to `after` on the
    /// connection `conn`, which it leaves alone. A stream counts when its
    /// echo has come to the end, the client has finished it, the peer has
    /// acknowledged all of it, and what came back is what was sent. While
    /// the acknowledgment is missing the client waits, unless the stream
    /// was abandoned or the connection has ended.
    pub open spec fn settles(self, conn: Connection, p: Progress, after: ClientModel) -> bool {
        let table = conn@.streams;
        if !self.finished {
            p == Progress::Again && after == (ClientModel { phase: ClientPhase::Writing, ..self })
        } else if !table.is_open(self.id) {
            p == Progress::Done && after == self.failed(
                ClientFailure::Stream(StreamError::UnknownStream),
            )
        } else {
            match table.slot(self.id).send.state {
                SendState::DataRecvd => if self.data == self.msg {
                    p == Progress::Again && after == self.completed()
                } else {
                    p == Progress::Done && after == self.failed(ClientFailure::Mismatch)
                },
                SendState::ResetSent => p == Progress::Done && after == self.failed(
                    ClientFailure::Abandoned,
                ),
                SendState::ResetRecvd => p == Progress::Done && after == self.failed(
                    ClientFailure::Abandoned,
                ),
                _ => match conn@.life.error {
                    Some(e) => p == Progress::Done && after == self.failed(
                        ClientFailure::Connection(e),
                    ),
                    None => p == Progress::Wait && after == self,
                },
            }
        }
    }
}

/// The client of the exchange: it opens one stream after the other, sends
/// seeded data on it, and reads the echo while it writes.
pub struct EchoClient {
    nr_streams: usize,
    stream_size: usize,
    done: usize,
    phase: ClientPhase,
    id: StreamId,
    msg: Vec<u8>,
    written: usize,
    wrote: bool,
    finished: bool,
    data: Vec<u8>,
    failure: Option<ClientFailure>,
}

impl View for EchoClient {
    type V = ClientModel;

    closed spec fn view(&self) -> ClientModel {
        ClientModel {
            nr_streams: self.nr_streams as nat,
            stream_size: self.stream_size as nat,
            done: self.done as nat,
            phase: self.phase,
            id: self.id,
            msg: self.msg@,
            written: self.written as nat,
            wrote: self.wrote,
            finished: self.finished,
            data: self.data@,
            failure: self.failure,
        }
    }
}

/// Appends the bytes of `more` to `data`.
fn append(data: &mut Vec<u8>, more: &Vec<u8>)
    ensures
        final(data)@ == old(data)@ + more@,
{
    let ghost before = data@;
    let mut i: usize = 0;
    while i < more.len()
        invariant
            i <= more@.len(),
            data@ == before + more@.subrange(0, i as int),
        decreases more@.len() - i,
    {
        data.push(more[i]);
        i = i + 1;
        assert(data@ =~= before + more@.subrange(0, i as int));
    }
    assert(more@.subrange(0, i as int) =~= more@);
}

impl EchoClient {
    pub open spec fn wf(&self) -> bool {
        self@.wf()
    }

    /// The client of the exchange of `args`, with nothing done yet.
    pub fn new(args: &EchoArgs) -> (c: EchoClient)
        ensures
            c.wf(),
            c@.nr_streams == args.nr_streams,
            c@.stream_size == args.stream_size,
            c@.done == 0,
            c@.phase == ClientPhase::Opening,
            c@.failure is None,
    {
        EchoClient {
            nr_streams: args.nr_streams,
            stream_size: args.stream_size,
            done: 0,
            phase: ClientPhase::Opening,
            id: StreamId(0),
            msg: Vec::new(),
            written: 0,
            wrote: false,
            finished: false,
            data: Vec::new(),
            failure: None,
        }
    }

    pub fn phase(&self) -> (p: ClientPhase)
        ensures
            p == self@.phase,
    {
        self.phase
    }

    /// How many streams have come back as they were sent.
    pub fn done(&self) -> (n: usize)
        ensures
            n == self@.done,
    {
        self.done
    }

    /// Why the exchange failed, if it did.
    pub fn failure(&self) -> (f: Option<ClientFailure>)
        ensures
            f == self@.failure,
    {
        self.failure
    }

    fn fail(&mut self, why: ClientFailure)
        ensures
            final(self)@ == old(self)@.failed(why),
    {
        self.phase = ClientPhase::Failed;
        self.failure = Some(why);
    }

    /// Opens the next stream.
    fn open_step(&mut self, conn: &mut Connection) -> (p: Progress)
        requires
            old(self).wf(),
            old(conn).wf(),
            old(self)@.phase == ClientPhase::Opening,
            old(self)@.done < old(self)@.nr_streams,
        ensures
            final(self).wf(),
            final(conn).wf(),
            exists|r: Result<Opened, ConnectionError>|
                Connection::opens(*old(conn), Dir::Bi, r, *final(conn)) && old(self)@.open_outcome(
                    r,
                    p,
                    final(self)@,
                ),
    {
        let r = conn.open(Dir::Bi);
        let p = match r {
            Ok(Opened::Stream(id)) => {
                self.id = id;
                self.msg = gen_data(self.stream_size, SEED);
                self.written = 0;
                self.wrote = false;
                self.finished = false;
                self.data = Vec::new();
                self.phase = ClientPhase::Writing;
                Progress::Again
            },
            Ok(Opened::Blocked) => Progress::Wait,
            Err(e) => {
                self.fail(ClientFailure::Connection(e));
                Progress::Done
            },
        };
        assert(old(self)@.open_outcome(r, p, self@));
        p
    }

    /// Writes the next bytes of the stream, or finishes it.
    fn write_step(&mut self, conn: &mut Connection) -> (p: Progress)
        requires
            old(self).wf(),
            old(conn).wf(),
            old(self)@.phase == ClientPhase::Writing,
        ensures
            final(self).wf(),
            final(conn).wf(),
            old(self)@.writes(*old(conn), p, final(self)@, *final(conn)),
    {
        if self.written < self.msg.len() || !self.wrote {
            let rest: &[u8] = vstd::slice::slice_subrange(
                self.msg.as_slice(),
                self.written,
                self.msg.len(),
            );
            let r = conn.write(self.id, rest);
            proof {
                old(conn).lemma_write_bounds(self.id, old(self)@.unwritten(), r, *conn);
            }
            let p = match r {
                Ok(Written::Accepted(n)) => {
                    self.written = self.written + n;
                    self.wrote = true;
                    self.phase = ClientPhase::Reading;
                    Progress::Again
                },
                Ok(Written::Blocked) => {
                    self.phase = ClientPhase::Reading;
                    Progress::Again
                },
                Err(e) => {
                    self.fail(ClientFailure::Stream(e));
                    Progress::Done
                },
            };
            assert(old(self)@.write_outcome(r, p, self@));
            p
        } else if !self.finished {
            let r = conn.finish(self.id);
            let p = match r {
                Ok(()) => {
                    self.finished = true;
                    self.phase = ClientPhase::Reading;
                    Progress::Again
                },
                Err(e) => {
                    self.fail(ClientFailure::Stream(e));
                    Progress::Done
                },
            };
            assert(old(self)@.finish_outcome(r, p, self@));
            p
        } else {
            self.phase = ClientPhase::Reading;
            Progress::Again
        }
    }

    /// Reads the next bytes of the echo.
    fn read_step(&mut self, conn: &mut Connection) -> (p: Progress)
        requires
            old(self).wf(),
            old(conn).wf(),
            old(self)@.phase == ClientPhase::Reading,
        ensures
            final(self).wf(),
            final(conn).wf(),
            exists|r: Result<ReadOutcome, StreamError>|
                Connection::reads(*old(conn), old(self)@.id, usize::MAX as nat, r, *final(conn))
                    && old(self)@.read_outcome(r, p, final(self)@),
    {
        let r = conn.read(self.id, usize::MAX);
        let ghost found = r;
        let p = match r {
            Ok(ReadOutcome::Data(v)) => {
                append(&mut self.data, &v);
                self.phase = ClientPhase::Writing;
                Progress::Again
            },
            Ok(ReadOutcome::Blocked) => {
                self.phase = ClientPhase::Writing;
                Progress::Wait
            },
            Ok(ReadOutcome::Finished) => {
                self.phase = ClientPhase::Settling;
                Progress::Again
            },
            Ok(ReadOutcome::Reset(code)) => {
                self.fail(ClientFailure::Reset(code));
                Progress::Done
            },
            Err(e) => {
                self.fail(ClientFailure::Stream(e));
                Progress::Done
            },
        };
        assert(old(self)@.read_outcome(found, p, self@));
        p
    }

    /// Looks whether the stream whose echo has ended counts.
    fn settle_step(&mut self, conn: &Connection) -> (p: Progress)
        requires
            old(self).wf(),
            conn.wf(),
            old(self)@.phase == ClientPhase::Settling,
        ensures
            final(self).wf(),
            old(self)@.settles(*conn, p, final(self)@),
    {
        if !self.finished {
            self.phase = ClientPhase::Writing;
            return Progress::Again;
        }
        let sending: SendState = match conn.stream_states(self.id) {
            Some(states) => states.0,
            None => {
                self.fail(ClientFailure::Stream(StreamError::UnknownStream));
                return Progress::Done;
            },
        };
        match sending {
            SendState::DataRecvd => {
                if same_bytes(self.data.as_slice(), self.msg.as_slice()) {
                    self.done = self.done + 1;
                    self.phase = if self.done == self.nr_streams {
                        ClientPhase::Closing
                    } else {
                        ClientPhase::Opening
                    };
                    Progress::Again
                } else {
                    self.fail(ClientFailure::Mismatch);
                    Progress::Done
                }
            },
            SendState::ResetSent => {
                self.fail(ClientFailure::Abandoned);
                Progress::Done
            },
            SendState::ResetRecvd => {
                self.fail(ClientFailure::Abandoned);
                Progress::Done
            },
            _ => match conn.error() {
                Some(e) => {
                    self.fail(ClientFailure::Connection(e));
                    Progress::Done
                },
                None => Progress::Wait,
            },
        }
    }

    /// Takes the client one step further on the connection `conn` at the
    /// time `now`. Each step is one operation on the connection: the
    /// opening of the next stream, a write or the finish, a read, a look
    /// at the stream whose echo has ended, or the close at the end. Writing
    /// and reading take turns, so that the echo is taken out of the window
    /// while the stream is still being written.
    pub fn step(&mut self, now: u64, conn: &mut Connection) -> (p: Progress)
        requires
            old(self).wf(),
            old(conn).wf(),
        ensures
            final(self).wf(),
            final(conn).wf(),
            match old(self)@.phase {
                ClientPhase::Done => p == Progress::Done && final(self)@ == old(self)@ && final(conn)@ == old(conn)@,
                ClientPhase::Failed => p == Progress::Done && final(self)@ == old(self)@ && final(conn)@ == old(conn)@,
                ClientPhase::Closing => p == Progress::Done && final(self)@ == (ClientModel {
                    phase: ClientPhase::Done,
                    ..old(self)@
                }) && final(conn)@ == old(conn)@.after_close(now, 0, farewell()),
                ClientPhase::Opening => if old(self)@.done >= old(self)@.nr_streams {
                    p == Progress::Again && final(self)@ == (ClientModel {
                        phase: ClientPhase::Closing,
                        ..old(self)@
                    }) && final(conn)@ == old(conn)@
                } else {
                    exists|r: Result<Opened, ConnectionError>|
                        Connection::opens(*old(conn), Dir::Bi, r, *final(conn)) && old(self)@.open_outcome(r, p, final(self)@)
                },
                ClientPhase::Writing => old(self)@.writes(*old(conn), p, final(self)@, *final(conn)),
                ClientPhase::Reading => exists|r: Result<ReadOutcome, StreamError>|
                    Connection::reads(
                        *old(conn),
                        old(self)@.id,
                        usize::MAX as nat,
                        r,
                        *final(conn),
                    ) && old(self)@.read_outcome(r, p, final(self)@),
                ClientPhase::Settling => final(conn)@ == old(conn)@ && old(self)@.settles(
                    *old(conn),
                    p,
                    final(self)@,
                ),
            },
    {
        match self.phase {
            ClientPhase::Done => Progress::Done,
            ClientPhase::Failed => Progress::Done,
            ClientPhase::Closing => {
                let mut reason: Vec<u8> = Vec::new();
                reason.push(100u8);
                reason.push(111u8);
                reason.push(110u8);
                reason.push(101u8);
                assert(reason@ =~= farewell());
                conn.close(now, 0, reason.as_slice());
                self.phase = ClientPhase::Done;
                Progress::Done
            },
            ClientPhase::Opening => {
                if self.done >= self.nr_streams {
                    self.phase = ClientPhase::Closing;
                    Progress::Again
                } else {
                    self.open_step(conn)
                }
            },
            ClientPhase::Writing => self.write_step(conn),
            ClientPhase::Reading => self.read_step(conn),
            ClientPhase::Settling => self.settle_step(&*conn),
        }
    }
}

/// A stream only counts as done when the client has finished it, the peer
/// has acknowledged all of it, and what came back is what the seed gives:
/// whenever the settling takes the count of the streams one further, the
/// echo was the seeded data, byte for byte.
pub proof fn lemma_counted_echo_is_seeded(before: ClientModel, conn: Connection, p: Progress, after: ClientModel)
    requires
        before.wf(),
        before.phase == ClientPhase::Settling,
        before.settles(conn, p, after),
    ensures
        after.wf(),
        after.done == before.done || after.done == before.done + 1,
        after.done == before.done + 1 ==> before.data == seeded_bytes(before.stream_size, SEED)
            && before.finished && conn@.streams.slot(before.id).send.state == SendState::DataRecvd,
{
}

/// The client sends a stream without bytes as any other: its first turn of
/// the writing is a write of no bytes, which the stream accepts; the finish
/// that follows succeeds.
pub proof fn lemma_empty_stream_is_written(
    client: ClientModel,
    first: Connection,
    n: usize,
    second: Connection,
    r: Result<(), StreamError>,
    third: Connection,
)
    requires
        client.wf(),
        client.phase == ClientPhase::Writing,
        client.msg.len() == 0,
        !client.wrote,
        first.wf(),
        Connection::writes(first, client.id, client.unwritten(), Ok(Written::Accepted(n)), second),
        Connection::finishes(second, client.id, r, third),
    ensures
        n == 0,
        r is Ok,
        third@.streams.slot(client.id).send.state == SendState::DataSent,
{
    first.lemma_write_bounds(client.id, client.unwritten(), Ok(Written::Accepted(n)), second);
    lemma_finish_after_write(first, client.id, client.unwritten(), n, second, r, third);
}

} // verus!
