//! What a reader gets: the bytes that the writer wrote, in the order in which
//! they were written, each of them once, however the frames travel and
//! however the reader cuts its reads.

use vstd::prelude::*;
use crate::recv::{inserted_bytes, inserted_have, RecvModel, RecvState};
use crate::runs::{lemma_run_content, lemma_run_split, run_len};

verus! {

/// A frame of stream data as it travels.
pub struct StreamFrame {
    pub offset: nat,
    pub data: Seq<u8>,
    pub fin: bool,
}

impl StreamFrame {
    pub open spec fn end(self) -> nat {
        self.offset + self.data.len()
    }

    /// The frame carries a piece of `payload` at its place, and marks the
    /// end only where `payload` ends.
    pub open spec fn cut_from(self, payload: Seq<u8>) -> bool {
        &&& self.end() <= payload.len()
        &&& self.data == payload.subrange(self.offset as int, self.end() as int)
        &&& self.fin ==> self.end() == payload.len()
    }
}

/// What can happen to a receiving half while its stream is being written.
pub enum RecvOp {
    /// A frame arrives: late, early, or once more.
    Frame(StreamFrame),
    /// The reader asks for at most this many bytes.
    Read(nat),
    /// The credit of the stream is renewed.
    Update,
}

/// Everything that has arrived is what `payload` holds at that place.
pub open spec fn agrees(m: RecvModel, payload: Seq<u8>) -> bool {
    &&& m.bytes.len() <= payload.len()
    &&& forall|i: int| 0 <= i < m.have.len() && m.have[i] ==> m.bytes[i] == payload[i]
    &&& m.final_size matches Some(f) ==> f == payload.len()
}

/// Whatever has arrived in `a` has arrived in `b` too.
pub open spec fn kept(a: Seq<bool>, b: Seq<bool>) -> bool {
    forall|i: int| 0 <= i < a.len() && #[trigger] a[i] ==> i < b.len() && b[i]
}

/// One step: the half afterwards and the bytes handed to the reader. A frame
/// that violates the protocol is refused and changes nothing.
pub open spec fn recv_step(m: RecvModel, op: RecvOp) -> (RecvModel, Seq<u8>) {
    match op {
        RecvOp::Frame(f) => if m.frame_error(f.offset, f.data.len(), f.fin) is None {
            (m.on_frame(f.offset, f.data, f.fin), Seq::empty())
        } else {
            (m, Seq::empty())
        },
        RecvOp::Read(max) => (
            m.after_read(max),
            if m.available() > 0 {
                m.read_data(max)
            } else {
                Seq::empty()
            },
        ),
        RecvOp::Update => (
            if m.final_size is None && m.credit.update_due() {
                RecvModel { credit: m.credit.grant(), ..m }
            } else {
                m
            },
            Seq::empty(),
        ),
    }
}

/// A whole run of steps: the half afterwards, and everything that was handed
/// to the reader, one read after the other.
pub open spec fn recv_run(m: RecvModel, ops: Seq<RecvOp>) -> (RecvModel, Seq<u8>)
    decreases ops.len(),
{
    if ops.len() == 0 {
        (m, Seq::empty())
    } else {
        let (before, got) = recv_run(m, ops.drop_last());
        let (after, out) = recv_step(before, ops.last());
        (after, got + out)
    }
}

/// Every frame of the run is a piece of `payload`.
pub open spec fn frames_cut_from(ops: Seq<RecvOp>, payload: Seq<u8>) -> bool {
    forall|k: int| 0 <= k < ops.len() ==> (#[trigger] ops[k] matches RecvOp::Frame(f) ==> f.cut_from(payload))
}

/// A frame that is accepted leaves a valid half behind; the gap-free prefix
/// never shrinks, and what had arrived stays.
pub proof fn lemma_frame_keeps_valid(m: RecvModel, f: StreamFrame)
    requires
        m.wf(),
        m.frame_error(f.offset, f.data.len(), f.fin) is None,
    ensures
        m.on_frame(f.offset, f.data, f.fin).wf(),
        m.on_frame(f.offset, f.data, f.fin).ready() >= m.ready(),
        m.on_frame(f.offset, f.data, f.fin).read == m.read,
        m.on_frame(f.offset, f.data, f.fin).is_reset() == m.is_reset(),
        kept(m.have, m.on_frame(f.offset, f.data, f.fin).have),
        !m.is_reset() ==> forall|i: int|
            f.offset <= i < f.end() ==> i < m.on_frame(f.offset, f.data, f.fin).have.len()
                && #[trigger] m.on_frame(f.offset, f.data, f.fin).have[i],
        !m.is_reset() && f.fin ==> m.on_frame(f.offset, f.data, f.fin).final_size == Some(f.end()),
{
    if !m.is_reset() {
        let after = m.on_frame(f.offset, f.data, f.fin);
        let have = inserted_have(m.have, f.offset, f.data.len());
        lemma_run_content(m.have, 0);
        assert forall|i: int| 0 <= i < m.ready() implies have[i] by {
            assert(m.have[i]);
        }
        lemma_run_split(have, 0, m.ready());
        lemma_run_content(have, 0);
        assert(after.bytes.len() == after.have.len());
    }
}

/// A frame cut from the payload keeps the half in agreement with it.
pub proof fn lemma_frame_keeps_agreement(m: RecvModel, f: StreamFrame, payload: Seq<u8>)
    requires
        m.wf(),
        agrees(m, payload),
        f.cut_from(payload),
    ensures
        agrees(m.on_frame(f.offset, f.data, f.fin), payload),
{
    if !m.is_reset() {
        let after = m.on_frame(f.offset, f.data, f.fin);
        assert(after.bytes == inserted_bytes(m.bytes, m.have, f.offset, f.data));
        assert forall|i: int| 0 <= i < after.have.len() && after.have[i] implies after.bytes[i]
            == payload[i] by {
            if i < m.have.len() && m.have[i] {
            } else {
                assert(f.offset <= i < f.end());
                assert(f.data[i - f.offset] == payload[i]);
            }
        }
    }
}

/// A read keeps the half valid and hands out the bytes that follow the ones
/// read before.
pub proof fn lemma_read_keeps_valid(m: RecvModel, max: nat)
    requires
        m.wf(),
    ensures
        m.after_read(max).wf(),
        m.after_read(max).have == m.have,
        m.after_read(max).bytes == m.bytes,
        m.after_read(max).final_size == m.final_size,
        !m.is_reset() ==> !m.after_read(max).is_reset() && m.after_read(max).read == m.read
            + m.take_len(max) && m.after_read(max).read <= m.ready(),
{
    lemma_run_content(m.have, 0);
}

/// Over any run of frames cut from one payload, reads of any size and
/// renewals of credit, in any order: what the reader has got is the payload
/// from where it stood up to where it stands, byte for byte.
pub proof fn lemma_reads_follow_payload(m: RecvModel, payload: Seq<u8>, ops: Seq<RecvOp>)
    requires
        m.wf(),
        !m.is_reset(),
        agrees(m, payload),
        frames_cut_from(ops, payload),
    ensures
        recv_run(m, ops).0.wf(),
        !recv_run(m, ops).0.is_reset(),
        agrees(recv_run(m, ops).0, payload),
        m.read <= recv_run(m, ops).0.read <= payload.len(),
        recv_run(m, ops).1 == payload.subrange(m.read as int, recv_run(m, ops).0.read as int),
        recv_run(m, ops).0.ready() >= m.ready(),
        kept(m.have, recv_run(m, ops).0.have),
    decreases ops.len(),
{
    lemma_run_content(m.have, 0);
    if ops.len() == 0 {
        assert(recv_run(m, ops).0 == m);
        assert(recv_run(m, ops).1 =~= payload.subrange(m.read as int, m.read as int));
    } else {
        let front = ops.drop_last();
        assert(frames_cut_from(front, payload)) by {
            assert forall|k: int| 0 <= k < front.len() implies (#[trigger] front[k] matches RecvOp::Frame(
                f,
            ) ==> f.cut_from(payload)) by {
                assert(front[k] == ops[k]);
            }
        }
        lemma_reads_follow_payload(m, payload, front);
        let (before, got) = recv_run(m, front);
        let (after, out) = recv_step(before, ops.last());
        lemma_run_content(before.have, 0);
        match ops.last() {
            RecvOp::Frame(f) => {
                assert(ops[ops.len() - 1] == ops.last());
                assert(f.cut_from(payload));
                if before.frame_error(f.offset, f.data.len(), f.fin) is None {
                    lemma_frame_keeps_valid(before, f);
                    lemma_frame_keeps_agreement(before, f, payload);
                }
                assert(got + out =~= got);
            },
            RecvOp::Read(max) => {
                lemma_read_keeps_valid(before, max);
                let n = before.take_len(max);
                if before.available() > 0 {
                    assert(out =~= payload.subrange(before.read as int, (before.read + n) as int)) by {
                        assert forall|i: int| 0 <= i < n implies out[i] == payload[before.read
                            + i] by {
                            assert(before.have[before.read + i]);
                        }
                    }
                } else {
                    assert(n == 0);
                }
                assert(got + out =~= payload.subrange(m.read as int, after.read as int));
            },
            RecvOp::Update => {
                assert(got + out =~= got);
            },
        }
        assert(kept(before.have, after.have));
        assert(recv_run(m, ops).0 == after);
    }
}

/// A payload that was written and finished reaches the reader unchanged:
/// whatever the reader has got so far is the beginning of the payload, and
/// once it has read the stream to its end it has got the whole payload.
pub proof fn lemma_round_trip(start: RecvModel, payload: Seq<u8>, ops: Seq<RecvOp>)
    requires
        start == RecvModel::fresh(start.credit),
        start.wf(),
        frames_cut_from(ops, payload),
    ensures
        recv_run(start, ops).0.read <= payload.len(),
        recv_run(start, ops).1 == payload.subrange(0, recv_run(start, ops).0.read as int),
        recv_run(start, ops).0.state == RecvState::DataRead ==> recv_run(start, ops).1 == payload,
{
    lemma_reads_follow_payload(start, payload, ops);
    let end = recv_run(start, ops).0;
    if end.state == RecvState::DataRead {
        assert(payload.subrange(0, end.read as int) =~= payload);
    }
}

/// Once every byte of the payload and its end have arrived, the whole of it
/// stands ready: nothing that happened on the way can hold it back.
pub proof fn lemma_all_arrived_is_complete(m: RecvModel, payload: Seq<u8>)
    requires
        m.wf(),
        !m.is_reset(),
        agrees(m, payload),
        m.final_size == Some(payload.len()),
        forall|i: int| 0 <= i < payload.len() ==> i < m.have.len() && m.have[i],
    ensures
        m.ready() == payload.len(),
        m.complete(),
        m.bytes == payload,
        m.read_data(payload.len()) == payload.subrange(m.read as int, payload.len() as int),
{
    if payload.len() > 0 {
        assert(m.have[payload.len() - 1]);
    }
    assert(m.have.len() == payload.len());
    lemma_run_split(m.have, 0, payload.len());
    assert(run_len(m.have, payload.len()) == 0);
    assert(m.bytes =~= payload);
}

} // verus!
