//! From the writer to the reader: what leaves a sending half, travels in
//! any order, any number of times or not at all, and arrives at a receiving
//! half, comes out as the bytes that were written, in their order.

use vstd::prelude::*;
use crate::delivery::{
    frames_cut_from, lemma_round_trip, recv_run, RecvOp, StreamFrame,
};
use crate::recv::{RecvModel, RecvState};
use crate::send::{
    begins, lemma_frame_fits, lemma_step_keeps, send_run, send_step, SendModel, SendOp,
};

verus! {

/// The frames that a sending half hands out over a run of steps, in the
/// order in which they leave.
pub open spec fn emitted(m: SendModel, ops: Seq<SendOp>) -> Seq<StreamFrame>
    decreases ops.len(),
{
    if ops.len() == 0 {
        Seq::empty()
    } else {
        let before = send_run(m, ops.drop_last());
        let earlier = emitted(m, ops.drop_last());
        match ops.last() {
            SendOp::Transmit(max) => match before.next_frame(max) {
                Some(f) => earlier.push(f),
                None => earlier,
            },
            _ => earlier,
        }
    }
}

/// Whether the frame is a piece of `data` at its place.
pub open spec fn piece_of(f: StreamFrame, data: Seq<u8>) -> bool {
    f.end() <= data.len() && f.data == data.subrange(f.offset as int, f.end() as int)
}

/// Every frame that has left is a piece of what the half holds now, and a
/// frame that marks the end ends where the data ends, for good: once the
/// end has left, nothing more is written.
pub proof fn lemma_emitted_are_pieces(m: SendModel, ops: Seq<SendOp>)
    requires
        m.wf(),
    ensures
        send_run(m, ops).wf(),
        forall|k: int|
            0 <= k < emitted(m, ops).len() ==> piece_of(
                #[trigger] emitted(m, ops)[k],
                send_run(m, ops).data,
            ),
        forall|k: int|
            0 <= k < emitted(m, ops).len() && (#[trigger] emitted(m, ops)[k]).fin ==> emitted(
                m,
                ops,
            )[k].end() == send_run(m, ops).data.len() && !send_run(m, ops).writable(),
    decreases ops.len(),
{
    if ops.len() > 0 {
        let front = ops.drop_last();
        lemma_emitted_are_pieces(m, front);
        let before = send_run(m, front);
        let earlier = emitted(m, front);
        let after = send_run(m, ops);
        let all = emitted(m, ops);
        lemma_step_keeps(before, ops.last());
        assert(begins(after.data, before.data));
        // Once the end has left, the half takes no more bytes.
        assert forall|k: int| 0 <= k < earlier.len() implies piece_of(earlier[k], after.data)
            && (earlier[k].fin ==> earlier[k].end() == after.data.len() && !after.writable()) by {
            let f = earlier[k];
            assert(piece_of(f, before.data));
            assert(f.data =~= after.data.subrange(f.offset as int, f.end() as int)) by {
                assert forall|i: int| 0 <= i < f.data.len() implies f.data[i] == after.data[f.offset
                    + i] by {
                    assert(after.data.subrange(0, before.data.len() as int)[f.offset + i]
                        == before.data[f.offset + i]);
                }
            }
            if f.fin {
                assert(!before.writable());
                assert(after.data == before.data);
            }
        }
        match ops.last() {
            SendOp::Transmit(max) => {
                if before.next_frame(max) is Some {
                    let f = before.next_frame(max)->0;
                    lemma_frame_fits(before, max);
                    assert(after.data == before.data);
                    assert(all == earlier.push(f));
                    assert forall|k: int| 0 <= k < all.len() implies piece_of(
                        #[trigger] all[k],
                        after.data,
                    ) && (all[k].fin ==> all[k].end() == after.data.len() && !after.writable()) by {
                        if k < earlier.len() {
                            assert(all[k] == earlier[k]);
                        }
                    }
                } else {
                    assert(all == earlier);
                }
            },
            _ => {
                assert(all == earlier);
            },
        }
    }
}

/// Whether every frame that arrives in the run is one that has left the
/// sender.
pub open spec fn arrivals_were_sent(arrivals: Seq<RecvOp>, sent: Seq<StreamFrame>) -> bool {
    forall|k: int|
        0 <= k < arrivals.len() ==> (#[trigger] arrivals[k] matches RecvOp::Frame(f)
            ==> sent.contains(f))
}

/// The round trip. A writer writes and finishes a stream in any steps; its
/// frames leave in any sizes, are lost and sent again; of the frames that
/// have left, any arrive at the reader, in any order and any number of
/// times, between reads of any sizes. Then what the reader has got is the
/// beginning of what the writer wrote, and a reader that has read the
/// stream to its end has got all of it, byte for byte.
pub proof fn lemma_end_to_end(writer: SendModel, steps: Seq<SendOp>, reader: RecvModel, arrivals: Seq<
    RecvOp,
>)
    requires
        writer.wf(),
        reader == RecvModel::fresh(reader.credit),
        reader.wf(),
        arrivals_were_sent(arrivals, emitted(writer, steps)),
    ensures
        recv_run(reader, arrivals).0.read <= send_run(writer, steps).data.len(),
        recv_run(reader, arrivals).1 == send_run(writer, steps).data.subrange(
            0,
            recv_run(reader, arrivals).0.read as int,
        ),
        recv_run(reader, arrivals).0.state == RecvState::DataRead ==> recv_run(reader, arrivals).1
            == send_run(writer, steps).data,
{
    let payload = send_run(writer, steps).data;
    let sent = emitted(writer, steps);
    lemma_emitted_are_pieces(writer, steps);
    assert(frames_cut_from(arrivals, payload)) by {
        assert forall|k: int| 0 <= k < arrivals.len() implies (#[trigger] arrivals[k] matches RecvOp::Frame(
            f,
        ) ==> f.cut_from(payload)) by {
            match arrivals[k] {
                RecvOp::Frame(f) => {
                    assert(sent.contains(f));
                    let i = choose|i: int| 0 <= i < sent.len() && sent[i] == f;
                    assert(piece_of(sent[i], payload));
                },
                _ => {},
            }
        }
    }
    lemma_round_trip(reader, payload, arrivals);
}

} // verus!
